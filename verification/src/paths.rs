//! File paths as text, joined the way the operating system reads them.

use crate::text::chars;
use vstd::prelude::*;

verus! {

/// A path under another: an absolute one stands alone, and a separator is put in
/// where none is.
pub open spec fn path_join(base: Seq<char>, rest: Seq<char>) -> Seq<char> {
    if rest.len() > 0 && rest[0] == '/' {
        rest
    } else if base.len() == 0 || base.last() == '/' {
        base + rest
    } else {
        base + "/"@ + rest
    }
}

/// `Path::join`.
pub fn joined_path(base: &str, rest: &str) -> (r: String)
    ensures
        r@ == path_join(base@, rest@),
{
    let b = chars(base);
    let t = chars(rest);
    if t.len() > 0 && t[0] == '/' {
        return rest.to_owned();
    }
    let mut s = base.to_owned();
    if b.len() > 0 && b[b.len() - 1] != '/' {
        s.append("/");
    }
    s.append(rest);
    s
}

} // verus!
