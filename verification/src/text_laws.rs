//! What texts promise: what is put together comes apart again, and what is written of
//! bytes and numbers tells them apart.

use crate::calendar::padded;
use crate::cli::{human_text, left_in, right_in};
use crate::digest::{
    blake3_digest, cache_key, crockford, hex, hex_byte, hex_symbol, symbol, ALPHABET,
};
use crate::paths::path_join;
use crate::text::{
    dec, is_space, join, lines, split_of_join, strip_cr, trim_start_is_skip, until_is_take, words,
};
use vstd::prelude::*;
use vstd::utf8::encode_utf8;

verus! {

/// Lines that are put together with line feeds are read as those lines again, whether or
/// not the last ends in one.
pub proof fn lines_read_back(parts: Seq<Seq<char>>)
    requires
        parts.len() > 0,
        forall|i: int| 0 <= i < parts.len() ==> !(#[trigger] parts[i]).contains('\n'),
        forall|i: int|
            0 <= i < parts.len() ==> (#[trigger] parts[i]).len() == 0 || parts[i].last() != '\r',
    ensures
        lines(join(parts.push(Seq::empty()), seq!['\n'])) == parts,
        parts.last().len() > 0 ==> lines(join(parts, seq!['\n'])) == parts,
{
    let ended = parts.push(Seq::<char>::empty());
    assert forall|i: int| 0 <= i < ended.len() implies !(#[trigger] ended[i]).contains('\n') by {
        if i < parts.len() {
            assert(ended[i] == parts[i]);
        }
    }
    split_of_join(ended, '\n');
    assert(lines(join(ended, seq!['\n'])) =~= parts) by {
        assert forall|i: int| 0 <= i < parts.len() implies strip_cr(ended[i]) == parts[i] by {
            assert(ended[i] == parts[i]);
        }
    }
    split_of_join(parts, '\n');
    if parts.last().len() > 0 {
        assert(lines(join(parts, seq!['\n'])) =~= parts);
    }
}

/// The words of a text are what stands between its white space: the first of them is what
/// the text starts with, behind any space, and the others are those of the rest.
pub proof fn words_are_taken_one_by_one(space: Seq<char>, word: Seq<char>, rest: Seq<char>)
    requires
        forall|i: int| 0 <= i < space.len() ==> is_space(#[trigger] space[i]),
        word.len() > 0,
        forall|i: int| 0 <= i < word.len() ==> !is_space(#[trigger] word[i]),
        rest.len() > 0 ==> is_space(rest[0]),
    ensures
        words(space + word + rest) == seq![word] + words(rest),
        words(space) == Seq::<Seq<char>>::empty(),
{
    let s = space + word + rest;
    let n = space.len() as int;
    assert(!is_space(s[n])) by {
        assert(s[n] == word[0]);
    }
    trim_start_is_skip(s, n);
    assert(s.skip(n) =~= word + rest);
    let t = word + rest;
    let stop = |c: char| is_space(c);
    assert forall|j: int| 0 <= j < word.len() implies !stop(#[trigger] t[j]) by {
        assert(t[j] == word[j]);
    }
    if rest.len() > 0 {
        assert(t[word.len() as int] == rest[0]);
    }
    until_is_take(t, stop, word.len() as int);
    assert(t.take(word.len() as int) =~= word);
    assert(t.skip(word.len() as int) =~= rest);
    trim_start_is_skip(space, n);
    assert(space.skip(n) =~= Seq::<char>::empty());
    until_is_take(Seq::<char>::empty(), stop, 0);
}

/// A path under a directory starts with the directory and ends with what stands under it;
/// an absolute one is left as it is.
pub proof fn paths_are_joined_in_order(base: Seq<char>, rest: Seq<char>)
    ensures
        rest.is_suffix_of(path_join(base, rest)),
        rest.len() > 0 && rest[0] == '/' ==> path_join(base, rest) == rest,
        !(rest.len() > 0 && rest[0] == '/') ==> {
            &&& base.is_prefix_of(path_join(base, rest))
            &&& base.len() > 0 ==> path_join(base, rest)[path_join(base, rest).len() - rest.len() - 1]
                == '/'
            &&& path_join(base, rest).len() <= base.len() + rest.len() + 1
        },
{
    reveal_strlit("/");
    let p = path_join(base, rest);
    assert(p.subrange(p.len() - rest.len(), p.len() as int) =~= rest);
    if !(rest.len() > 0 && rest[0] == '/') {
        assert(p.subrange(0, base.len() as int) =~= base);
    }
}

/// A text in a column is that text, with space to the column's width behind or before it.
pub proof fn columns_keep_their_text(s: Seq<char>, width: nat)
    ensures
        s.is_prefix_of(left_in(s, width)),
        s.is_suffix_of(right_in(s, width)),
        left_in(s, width).len() == right_in(s, width).len(),
        left_in(s, width).len() >= width && (s.len() >= width ==> left_in(s, width) == s),
        s.len() <= width ==> left_in(s, width).len() == width,
        forall|i: int| s.len() <= i < left_in(s, width).len() ==> #[trigger] left_in(s, width)[i] == ' ',
        forall|i: int|
            0 <= i < right_in(s, width).len() - s.len() ==> #[trigger] right_in(s, width)[i] == ' ',
{
    let (l, r) = (left_in(s, width), right_in(s, width));
    assert(l.subrange(0, s.len() as int) =~= s);
    assert(r.subrange(r.len() - s.len(), r.len() as int) =~= s);
}

/// A duration is told in hours, minutes and seconds that add up to it, but for the seconds
/// of an hour or more.
pub proof fn durations_add_up(secs: nat) -> (r: (nat, nat, nat))
    ensures
        3600 * r.0 + 60 * r.1 + r.2 == secs,
        r.1 < 60,
        r.2 < 60,
        r.0 > 0 ==> human_text(secs) == dec(r.0) + "h"@ + padded(dec(r.1), 2) + "m"@,
        r.0 == 0 && r.1 > 0 ==> human_text(secs) == dec(r.1) + "m"@ + padded(dec(r.2), 2) + "s"@,
        r.0 == 0 && r.1 == 0 ==> human_text(secs) == dec(r.2) + "s"@,
{
    let r = (secs / 3600, (secs % 3600) / 60, secs % 60);
    assert(3600 * r.0 + 60 * r.1 + r.2 == secs && r.1 < 60 && r.2 < 60);
    if r.0 == 0 {
        assert(secs % 3600 == secs);
    }
    r
}

proof fn hex_symbols_differ(a: nat, b: nat)
    requires
        a < 16,
        b < 16,
        hex_symbol(a) == hex_symbol(b),
    ensures
        a == b,
{
    reveal_strlit("0123456789abcdef");
    let s = "0123456789abcdef"@;
    assert(forall|i: int| 0 <= i < 10 ==> s[i] as int == '0' as int + i);
    assert(forall|i: int| 10 <= i < 16 ==> s[i] as int == 'a' as int + i - 10);
}

/// Bytes are told by how they are written: no two lists of bytes are written alike.
pub proof fn hex_tells_bytes_apart(a: Seq<u8>, b: Seq<u8>)
    requires
        hex(a) == hex(b),
    ensures
        a == b,
    decreases a.len(),
{
    hex_is_twice(a);
    hex_is_twice(b);
    if a.len() == 0 {
        assert(a =~= b);
    } else {
        let (x, y) = (a.last(), b.last());
        let (s, t) = (hex(a), hex(b));
        assert(s.drop_last().drop_last() =~= hex(a.drop_last()));
        assert(t.drop_last().drop_last() =~= hex(b.drop_last()));
        hex_is_twice(a.drop_last());
        hex_is_twice(b.drop_last());
        assert(s[s.len() - 2] == hex_byte(x)[0] && t[t.len() - 2] == hex_byte(y)[0]);
        assert(s[s.len() - 1] == hex_byte(x)[1] && t[t.len() - 1] == hex_byte(y)[1]);
        hex_symbols_differ((x / 16) as nat, (y / 16) as nat);
        hex_symbols_differ((x % 16) as nat, (y % 16) as nat);
        hex_tells_bytes_apart(a.drop_last(), b.drop_last());
        assert(a =~= a.drop_last().push(x));
        assert(b =~= b.drop_last().push(y));
    }
}

proof fn hex_is_twice(a: Seq<u8>)
    ensures
        hex(a).len() == 2 * a.len(),
    decreases a.len(),
{
    if a.len() > 0 {
        hex_is_twice(a.drop_last());
    }
}

proof fn symbols_differ(a: nat, b: nat)
    requires
        a < 32,
        b < 32,
        symbol(a) == symbol(b),
    ensures
        a == b,
{
    reveal_strlit("0123456789abcdefghjkmnpqrstvwxyz");
    let s = ALPHABET@;
    assert(forall|i: int| 0 <= i < 10 ==> s[i] as int == '0' as int + i);
    assert(forall|i: int| 10 <= i < 18 ==> s[i] as int == 'a' as int + i - 10);
    assert(s[18] == 'j' && s[19] == 'k' && s[20] == 'm' && s[21] == 'n');
    assert(forall|i: int| 22 <= i < 27 ==> s[i] as int == 'p' as int + i - 22);
    assert(forall|i: int| 27 <= i < 32 ==> s[i] as int == 'v' as int + i - 27);
}

/// How many numbers have so many digits in base 32.
pub open spec fn base32_numbers(chars: nat) -> nat
    decreases chars,
{
    if chars == 0 {
        1
    } else {
        32 * base32_numbers((chars - 1) as nat)
    }
}

/// Numbers that fit are told by their digits in base 32: no two are written alike.
pub proof fn base32_tells_numbers_apart(v: nat, w: nat, chars: nat)
    requires
        v < base32_numbers(chars),
        w < base32_numbers(chars),
        crockford(v, chars) == crockford(w, chars),
    ensures
        v == w,
    decreases chars,
{
    if chars > 0 {
        let n = (chars - 1) as nat;
        let (s, t) = (crockford(v, chars), crockford(w, chars));
        assert(s.drop_last() =~= crockford(v / 32, n));
        assert(t.drop_last() =~= crockford(w / 32, n));
        assert(s.last() == symbol(v % 32) && t.last() == symbol(w % 32));
        symbols_differ(v % 32, w % 32);
        base32_tells_numbers_apart(v / 32, w / 32, n);
    }
}

/// A key is the first sixteen hexadecimal digits of its material's digest.
pub proof fn keys_are_sixteen_digits(material: Seq<char>)
    requires
        blake3_digest(encode_utf8(material)).len() == 32,
    ensures
        cache_key(material).len() == 16,
        cache_key(material) == hex(blake3_digest(encode_utf8(material)).take(8)),
{
    let d = blake3_digest(encode_utf8(material));
    hex_is_twice(d);
    hex_of_front(d, 8);
}

proof fn hex_of_front(d: Seq<u8>, n: int)
    requires
        0 <= n <= d.len(),
    ensures
        hex(d).take(2 * n) == hex(d.take(n)),
    decreases d.len(),
{
    hex_is_twice(d);
    hex_is_twice(d.take(n));
    if n == d.len() {
        assert(d.take(n) =~= d);
        assert(hex(d).take(2 * n) =~= hex(d));
    } else {
        let front = d.drop_last();
        hex_of_front(front, n);
        hex_is_twice(front);
        assert(front.take(n) =~= d.take(n));
        assert(hex(d).take(2 * n) =~= hex(front).take(2 * n));
    }
}

} // verus!
