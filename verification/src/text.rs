//! Text as a sequence of characters: splitting, trimming, joining, ordering and
//! the decimal rendering of integers.
//!
//! The specification functions say what each operation means on `Seq<char>`; the
//! executable ones work on `&str` and are proved against them.

use vstd::prelude::*;

verus! {

/// `String::push` appends one character.
pub assume_specification[ std::string::String::push ](s: &mut std::string::String, c: char)
    ensures
        final(s)@ == old(s)@.push(c),
;

// ---------------------------------------------------------------- models

/// A list of owned strings, as the list of their contents.
pub open spec fn texts(v: Seq<String>) -> Seq<Seq<char>> {
    Seq::new(v.len(), |i: int| v[i]@)
}

/// The Unicode `White_Space` property.
pub open spec fn is_space(c: char) -> bool {
    ||| '\u{9}' <= c <= '\u{d}'
    ||| c == ' '
    ||| c == '\u{85}'
    ||| c == '\u{a0}'
    ||| c == '\u{1680}'
    ||| '\u{2000}' <= c <= '\u{200a}'
    ||| c == '\u{2028}'
    ||| c == '\u{2029}'
    ||| c == '\u{202f}'
    ||| c == '\u{205f}'
    ||| c == '\u{3000}'
}

pub open spec fn is_digit(c: char) -> bool {
    '0' <= c <= '9'
}

/// `s` without its leading white space.
pub open spec fn trim_start(s: Seq<char>) -> Seq<char>
    decreases s.len(),
{
    if s.len() > 0 && is_space(s[0]) {
        trim_start(s.drop_first())
    } else {
        s
    }
}

/// `s` without its trailing white space.
pub open spec fn trim_end(s: Seq<char>) -> Seq<char>
    decreases s.len(),
{
    if s.len() > 0 && is_space(s.last()) {
        trim_end(s.drop_last())
    } else {
        s
    }
}

pub open spec fn trim(s: Seq<char>) -> Seq<char> {
    trim_end(trim_start(s))
}

/// A text without the leading occurrences of `c`.
pub open spec fn without_leading(s: Seq<char>, c: char) -> Seq<char>
    decreases s.len(),
{
    if s.len() > 0 && s[0] == c {
        without_leading(s.drop_first(), c)
    } else {
        s
    }
}

/// A text without the trailing occurrences of `c`.
pub open spec fn without_trailing(s: Seq<char>, c: char) -> Seq<char>
    decreases s.len(),
{
    if s.len() > 0 && s.last() == c {
        without_trailing(s.drop_last(), c)
    } else {
        s
    }
}

/// A text without the occurrences of `c` at either end.
pub open spec fn without_around(s: Seq<char>, c: char) -> Seq<char> {
    without_trailing(without_leading(s, c), c)
}

/// Where `c` first occurs in `s`; `s.len()` when it does not.
pub open spec fn find(s: Seq<char>, c: char) -> int
    decreases s.len(),
{
    if s.len() == 0 || s[0] == c {
        0
    } else {
        1 + find(s.drop_first(), c)
    }
}

/// The pieces between the occurrences of `sep`; a text without `sep` is its own
/// only piece.
pub open spec fn split(s: Seq<char>, sep: char) -> Seq<Seq<char>>
    decreases s.len(),
{
    let at = find(s, sep);
    if 0 <= at < s.len() {
        seq![s.take(at)] + split(s.skip(at + 1), sep)
    } else {
        seq![s]
    }
}

/// Does `pat` stand in `s` at `at`?
pub open spec fn stands_at(s: Seq<char>, pat: Seq<char>, at: int) -> bool {
    0 <= at <= s.len() - pat.len() && s.subrange(at, at + pat.len()) == pat
}

pub open spec fn contains_text(s: Seq<char>, pat: Seq<char>) -> bool {
    exists|at: int| stands_at(s, pat, at)
}

/// The first position at which `pat` stands in `s`; `None` when it does not.
pub open spec fn find_text(s: Seq<char>, pat: Seq<char>) -> Option<int>
    decreases s.len(),
{
    if pat.is_prefix_of(s) {
        Some(0)
    } else if s.len() == 0 {
        None
    } else {
        match find_text(s.drop_first(), pat) {
            Some(i) => Some(i + 1),
            None => None,
        }
    }
}

/// The parts with `sep` between each two of them.
pub open spec fn join(parts: Seq<Seq<char>>, sep: Seq<char>) -> Seq<char>
    decreases parts.len(),
{
    if parts.len() == 0 {
        Seq::empty()
    } else if parts.len() == 1 {
        parts[0]
    } else {
        join(parts.drop_last(), sep) + sep + parts.last()
    }
}

/// Strict lexicographic order by code point, which is also the order of the
/// UTF-8 encodings.
pub open spec fn text_lt(a: Seq<char>, b: Seq<char>) -> bool
    decreases a.len(),
{
    if b.len() == 0 {
        false
    } else if a.len() == 0 {
        true
    } else if a[0] == b[0] {
        text_lt(a.drop_first(), b.drop_first())
    } else {
        (a[0] as int) < b[0] as int
    }
}

pub open spec fn text_le(a: Seq<char>, b: Seq<char>) -> bool {
    a == b || text_lt(a, b)
}

pub open spec fn digit(n: nat) -> char {
    (('0' as int) + (n as int)) as char
}

/// Decimal digits of a natural number, no leading zeros.
pub open spec fn dec(n: nat) -> Seq<char>
    decreases n,
{
    if n < 10 {
        seq![digit(n)]
    } else {
        dec(n / 10).push(digit(n % 10))
    }
}

/// An integer in decimal, with a minus sign where it is negative.
pub open spec fn dec_int(i: int) -> Seq<char> {
    if i < 0 {
        seq!['-'] + dec((-i) as nat)
    } else {
        dec(i as nat)
    }
}

pub open spec fn all_digits(s: Seq<char>) -> bool {
    forall|i: int| 0 <= i < s.len() ==> is_digit(#[trigger] s[i])
}

/// The number a run of decimal digits writes.
pub open spec fn digits_value(s: Seq<char>) -> nat
    decreases s.len(),
{
    if s.len() == 0 {
        0
    } else {
        10 * digits_value(s.drop_last()) + ((s.last() as int) - ('0' as int)) as nat
    }
}

/// The text behind a leading plus sign, or the text itself.
pub open spec fn after_plus(s: Seq<char>) -> Seq<char> {
    if s.len() > 0 && s[0] == '+' {
        s.drop_first()
    } else {
        s
    }
}

/// How an unsigned integer of at most `max` is read: an optional plus sign and
/// one or more digits.
pub open spec fn read_unsigned(s: Seq<char>, max: nat) -> Option<nat> {
    let body = after_plus(s);
    if body.len() > 0 && all_digits(body) && digits_value(body) <= max {
        Some(digits_value(body))
    } else {
        None
    }
}

/// How a signed integer in `min..=max` is read: an optional sign and one or more
/// digits.
pub open spec fn read_signed(s: Seq<char>, min: int, max: int) -> Option<int> {
    let negative = s.len() > 0 && s[0] == '-';
    let body = if negative {
        s.drop_first()
    } else {
        after_plus(s)
    };
    let value = if negative {
        -(digits_value(body) as int)
    } else {
        digits_value(body) as int
    };
    if body.len() > 0 && all_digits(body) && min <= value <= max {
        Some(value)
    } else {
        None
    }
}

/// What stands before the first character of which `stop` holds.
pub open spec fn until(s: Seq<char>, stop: spec_fn(char) -> bool) -> Seq<char>
    decreases s.len(),
{
    if s.len() == 0 || stop(s[0]) {
        Seq::empty()
    } else {
        seq![s[0]] + until(s.drop_first(), stop)
    }
}

/// The words between white space.
pub open spec fn words(s: Seq<char>) -> Seq<Seq<char>>
    decreases s.len(),
{
    let t = trim_start(s);
    let w = until(t, |c: char| is_space(c));
    if w.len() == 0 || t.len() > s.len() || w.len() > t.len() {
        Seq::empty()
    } else {
        seq![w] + words(t.skip(w.len() as int))
    }
}

/// How `{:?}` writes a text: in quotes, with escapes.
pub uninterp spec fn debug_text(s: Seq<char>) -> Seq<char>;

/// `format!("{:?}", s)` of a text is a function of the text.
#[verifier::external_body]
pub(crate) fn quoted(s: &str) -> (r: String)
    ensures
        r@ == debug_text(s@),
{
    format!("{:?}", s)
}

/// How `{:?}` writes a list of texts.
pub open spec fn debug_list(list: Seq<Seq<char>>) -> Seq<char> {
    "["@ + join(Seq::new(list.len(), |i: int| debug_text(list[i])), ", "@) + "]"@
}

pub fn quoted_list(list: &Vec<String>) -> (r: String)
    ensures
        r@ == debug_list(texts(list@)),
{
    let mut parts: Vec<String> = Vec::new();
    let mut i: usize = 0;
    while i < list.len()
        invariant
            i <= list@.len(),
            parts@.len() == i,
            forall|j: int| 0 <= j < i ==> (#[trigger] parts@[j])@ == debug_text(list@[j]@),
        decreases list@.len() - i,
    {
        parts.push(quoted(list[i].as_str()));
        i = i + 1;
    }
    assert(texts(parts@) =~= Seq::new(
        texts(list@).len(),
        |i: int| debug_text(texts(list@)[i]),
    ));
    let mut s = "[".to_owned();
    s.append(joined(&parts, ", ").as_str());
    s.append("]");
    s
}

// ---------------------------------------------------------------- characters

pub fn space(c: char) -> (r: bool)
    ensures
        r == is_space(c),
{
    ('\u{9}' <= c && c <= '\u{d}') || c == ' ' || c == '\u{85}' || c == '\u{a0}' || c == '\u{1680}'
        || ('\u{2000}' <= c && c <= '\u{200a}') || c == '\u{2028}' || c == '\u{2029}' || c
        == '\u{202f}' || c == '\u{205f}' || c == '\u{3000}'
}

/// The characters of a text.
pub fn chars(s: &str) -> (v: Vec<char>)
    ensures
        v@ == s@,
{
    let mut v: Vec<char> = Vec::new();
    for c in it: s.chars()
        invariant
            it.seq() == s@,
            v@ == s@.take(it.index() as int),
    {
        v.push(c);
    }
    v
}

/// The text made of `v[lo..hi]`.
pub fn text_of(v: &Vec<char>, lo: usize, hi: usize) -> (s: String)
    requires
        lo <= hi <= v@.len(),
    ensures
        s@ == v@.subrange(lo as int, hi as int),
{
    let mut s = String::new();
    let mut i: usize = lo;
    while i < hi
        invariant
            lo <= i <= hi <= v@.len(),
            s@ == v@.subrange(lo as int, i as int),
        decreases hi - i,
    {
        s.push(v[i]);
        i = i + 1;
        assert(v@.subrange(lo as int, i as int) =~= v@.subrange(lo as int, i - 1).push(v@[i - 1]));
    }
    s
}

pub fn same(a: &str, b: &str) -> (r: bool)
    ensures
        r == (a@ == b@),
{
    a.to_owned() == b.to_owned()
}

/// Does a list hold this text?
pub fn holds(list: &Vec<String>, s: &str) -> (r: bool)
    ensures
        r == texts(list@).contains(s@),
{
    let mut i: usize = 0;
    while i < list.len()
        invariant
            i <= list@.len(),
            forall|j: int| 0 <= j < i ==> list@[j]@ != s@,
        decreases list@.len() - i,
    {
        if same(list[i].as_str(), s) {
            assert(texts(list@)[i as int] == s@);
            return true;
        }
        i = i + 1;
    }
    assert(!texts(list@).contains(s@)) by {
        if texts(list@).contains(s@) {
            let j = choose|j: int| 0 <= j < texts(list@).len() && texts(list@)[j] == s@;
            assert(list@[j]@ == s@);
        }
    }
    false
}

/// A copy of a list of texts.
pub fn copy_texts(list: &Vec<String>) -> (r: Vec<String>)
    ensures
        texts(r@) == texts(list@),
        r@.len() == list@.len(),
{
    let mut r: Vec<String> = Vec::new();
    let mut i: usize = 0;
    while i < list.len()
        invariant
            i <= list@.len(),
            r@.len() == i,
            forall|j: int| 0 <= j < i ==> r@[j]@ == list@[j]@,
        decreases list@.len() - i,
    {
        r.push(list[i].clone());
        i = i + 1;
    }
    assert(texts(r@) =~= texts(list@));
    r
}

/// A copy of an optional text.
pub fn copy_option(s: &Option<String>) -> (r: Option<String>)
    ensures
        option_text(r) == option_text(*s),
{
    match s {
        Some(t) => Some(t.clone()),
        None => None,
    }
}

/// A text or an error text by its contents.
pub open spec fn outcome_text(r: Result<String, String>) -> Result<Seq<char>, Seq<char>> {
    match r {
        Ok(s) => Ok(s@),
        Err(e) => Err(e@),
    }
}

/// An optional text by its contents.
pub open spec fn option_text(s: Option<String>) -> Option<Seq<char>> {
    match s {
        Some(t) => Some(t@),
        None => None,
    }
}

// ---------------------------------------------------------------- trimming

/// Trimming the start skips the leading white space.
pub proof fn trim_start_is_skip(s: Seq<char>, i: int)
    requires
        0 <= i <= s.len(),
        forall|j: int| 0 <= j < i ==> is_space(#[trigger] s[j]),
        i == s.len() || !is_space(s[i]),
    ensures
        trim_start(s) == s.skip(i),
    decreases s.len(),
{
    if i == 0 {
        assert(s.skip(0) =~= s);
    } else {
        let t = s.drop_first();
        assert forall|j: int| 0 <= j < i - 1 implies is_space(#[trigger] t[j]) by {
            assert(t[j] == s[j + 1]);
        }
        trim_start_is_skip(t, i - 1);
        assert(t.skip(i - 1) =~= s.skip(i));
    }
}

/// Trimming the end takes what stands before the trailing white space.
pub proof fn trim_end_is_take(s: Seq<char>, i: int)
    requires
        0 <= i <= s.len(),
        forall|j: int| i <= j < s.len() ==> is_space(#[trigger] s[j]),
        i == 0 || !is_space(s[i - 1]),
    ensures
        trim_end(s) == s.take(i),
    decreases s.len(),
{
    if i == s.len() {
        assert(s.take(i) =~= s);
    } else {
        let t = s.drop_last();
        assert(is_space(s[s.len() - 1]));
        trim_end_is_take(t, i);
        assert(t.take(i) =~= s.take(i));
    }
}

/// `str::trim`: the text between its leading and trailing white space.
pub fn trimmed<'a>(s: &'a str) -> (r: &'a str)
    ensures
        r@ == trim(s@),
{
    let v = chars(s);
    let n: usize = v.len();
    let mut lo: usize = 0;
    while lo < n && space(v[lo])
        invariant
            lo <= n == v@.len(),
            forall|j: int| 0 <= j < lo ==> is_space(#[trigger] v@[j]),
        decreases n - lo,
    {
        lo = lo + 1;
    }
    let mut hi: usize = n;
    while hi > lo && space(v[hi - 1])
        invariant
            lo <= hi <= n == v@.len(),
            forall|j: int| hi <= j < n ==> is_space(#[trigger] v@[j]),
        decreases hi,
    {
        hi = hi - 1;
    }
    proof {
        trim_start_is_skip(v@, lo as int);
        let t = v@.skip(lo as int);
        assert forall|j: int| hi - lo <= j < t.len() implies is_space(#[trigger] t[j]) by {
            assert(t[j] == v@[j + lo]);
        }
        trim_end_is_take(t, hi - lo);
        assert(t.take(hi - lo) =~= v@.subrange(lo as int, hi as int));
    }
    s.substring_char(lo, hi)
}

proof fn leading_is_skip(s: Seq<char>, c: char, i: int)
    requires
        0 <= i <= s.len(),
        forall|j: int| 0 <= j < i ==> s[j] == c,
        i < s.len() ==> s[i] != c,
    ensures
        without_leading(s, c) == s.skip(i),
    decreases i,
{
    if i > 0 {
        leading_is_skip(s.drop_first(), c, i - 1);
        assert(s.drop_first().skip(i - 1) =~= s.skip(i));
    } else {
        assert(s.skip(0) =~= s);
    }
}

proof fn trailing_is_take(s: Seq<char>, c: char, i: int)
    requires
        0 <= i <= s.len(),
        forall|j: int| i <= j < s.len() ==> s[j] == c,
        i > 0 ==> s[i - 1] != c,
    ensures
        without_trailing(s, c) == s.take(i),
    decreases s.len() - i,
{
    if i < s.len() {
        trailing_is_take(s.drop_last(), c, i);
        assert(s.drop_last().take(i) =~= s.take(i));
    } else {
        assert(s.take(i) =~= s);
    }
}

/// `str::trim_end_matches` of a character.
pub fn trim_end_matches(s: &str, c: char) -> (r: String)
    ensures
        r@ == without_trailing(s@, c),
{
    let v = chars(s);
    let mut hi: usize = v.len();
    while hi > 0 && v[hi - 1] == c
        invariant
            hi <= v@.len(),
            forall|j: int| hi <= j < v@.len() ==> v@[j] == c,
        decreases hi,
    {
        hi = hi - 1;
    }
    proof {
        trailing_is_take(v@, c, hi as int);
        assert(v@.take(hi as int) =~= v@.subrange(0, hi as int));
    }
    text_of(&v, 0, hi)
}

/// `str::trim_matches` of a character.
pub fn trim_matches(s: &str, c: char) -> (r: String)
    ensures
        r@ == without_around(s@, c),
{
    let v = chars(s);
    let mut lo: usize = 0;
    while lo < v.len() && v[lo] == c
        invariant
            lo <= v@.len(),
            forall|j: int| 0 <= j < lo ==> v@[j] == c,
        decreases v@.len() - lo,
    {
        lo = lo + 1;
    }
    let rest = text_of(&v, lo, v.len());
    proof {
        leading_is_skip(v@, c, lo as int);
        assert(rest@ =~= v@.skip(lo as int));
    }
    trim_end_matches(rest.as_str(), c)
}

/// Trimming the start makes nothing longer, and leaves no leading white space.
pub proof fn trim_start_shorter(s: Seq<char>)
    ensures
        trim_start(s).len() <= s.len(),
        trim_start(s).len() > 0 ==> !is_space(trim_start(s)[0]),
    decreases s.len(),
{
    if s.len() > 0 && is_space(s[0]) {
        trim_start_shorter(s.drop_first());
    }
}

/// A prefix without a stop, up to a stop or the end, is what stands before the
/// first stop.
pub proof fn until_is_take(s: Seq<char>, stop: spec_fn(char) -> bool, at: int)
    requires
        0 <= at <= s.len(),
        forall|j: int| 0 <= j < at ==> !stop(#[trigger] s[j]),
        at == s.len() || stop(s[at]),
    ensures
        until(s, stop) == s.take(at),
    decreases s.len(),
{
    if at > 0 {
        let t = s.drop_first();
        assert(!stop(s[0]));
        assert forall|j: int| 0 <= j < at - 1 implies !stop(#[trigger] t[j]) by {
            assert(!stop(s[j + 1]));
        }
        until_is_take(t, stop, at - 1);
        assert(seq![s[0]] + t.take(at - 1) =~= s.take(at));
    } else {
        assert(s.take(0) =~= Seq::empty());
    }
}

/// `str::split_whitespace`, as owned words.
pub fn split_words(s: &str) -> (r: Vec<String>)
    ensures
        texts(r@) == words(s@),
{
    let v = chars(s);
    let n: usize = v.len();
    let mut r: Vec<String> = Vec::new();
    let mut from: usize = 0;
    proof {
        assert(v@.skip(0) =~= v@);
        assert(texts(r@) + words(s@) =~= words(s@));
    }
    loop
        invariant_except_break
            from <= n == v@.len(),
            texts(r@) + words(v@.skip(from as int)) == words(s@),
        ensures
            texts(r@) == words(s@),
        decreases n - from,
    {
        let ghost rest = v@.skip(from as int);
        let ghost before = texts(r@);
        let mut lo: usize = from;
        while lo < n && space(v[lo])
            invariant
                from <= lo <= n == v@.len(),
                forall|j: int| from <= j < lo ==> is_space(#[trigger] v@[j]),
            decreases n - lo,
        {
            lo = lo + 1;
        }
        let mut hi: usize = lo;
        while hi < n && !space(v[hi])
            invariant
                lo <= hi <= n == v@.len(),
                forall|j: int| lo <= j < hi ==> !is_space(#[trigger] v@[j]),
            decreases n - hi,
        {
            hi = hi + 1;
        }
        proof {
            trim_start_is_skip(rest, lo - from);
            let t = rest.skip(lo - from);
            assert(t =~= v@.skip(lo as int));
            until_is_take(t, |c: char| is_space(c), hi - lo);
            assert(t.take(hi - lo) =~= v@.subrange(lo as int, hi as int));
            assert(t.skip(hi - lo) =~= v@.skip(hi as int));
        }
        if hi == lo {
            proof {
                assert(before + Seq::<Seq<char>>::empty() =~= before);
            }
            break;
        }
        let w = text_of(&v, lo, hi);
        r.push(w);
        proof {
            assert(texts(r@) =~= before.push(w@));
            assert(before + (seq![w@] + words(v@.skip(hi as int))) =~= before.push(w@) + words(
                v@.skip(hi as int),
            ));
        }
        from = hi;
    }
    r
}

// ---------------------------------------------------------------- finding and splitting

/// What is found as the place of a character is its first occurrence.
pub proof fn find_bounds(s: Seq<char>, c: char)
    ensures
        0 <= find(s, c) <= s.len(),
        find(s, c) < s.len() ==> s[find(s, c)] == c,
        forall|j: int| 0 <= j < find(s, c) ==> s[j] != c,
        (find(s, c) < s.len()) == s.contains(c),
    decreases s.len(),
{
    if s.len() == 0 || s[0] == c {
        if s.len() > 0 {
            assert(s.contains(c));
        }
    } else {
        let t = s.drop_first();
        find_bounds(t, c);
        assert forall|j: int| 0 <= j < find(s, c) implies s[j] != c by {
            if j > 0 {
                assert(t[j - 1] == s[j]);
            }
        }
        if s.contains(c) {
            let j = choose|j: int| 0 <= j < s.len() && s[j] == c;
            assert(t[j - 1] == c);
        }
        if find(t, c) < t.len() {
            assert(s[find(t, c) + 1] == c);
        }
    }
}

/// The first occurrence of a character is where it is found.
pub proof fn find_is(s: Seq<char>, c: char, at: int)
    requires
        0 <= at <= s.len(),
        at < s.len() ==> s[at] == c,
        forall|j: int| 0 <= j < at ==> s[j] != c,
    ensures
        find(s, c) == at,
{
    find_bounds(s, c);
    if find(s, c) < at {
        assert(s[find(s, c)] != c);
    }
}

/// The position of the first `c` at or after `from`; the length when there is none.
pub fn find_from(v: &Vec<char>, c: char, from: usize) -> (r: usize)
    requires
        from <= v@.len(),
    ensures
        from <= r <= v@.len(),
        r - from == find(v@.skip(from as int), c),
{
    let mut i: usize = from;
    while i < v.len() && v[i] != c
        invariant
            from <= i <= v@.len(),
            forall|j: int| from <= j < i ==> v@[j] != c,
        decreases v@.len() - i,
    {
        i = i + 1;
    }
    proof {
        find_is(v@.skip(from as int), c, i - from);
    }
    i
}

/// `str::split` at a character, as owned pieces.
pub fn pieces(s: &str, sep: char) -> (r: Vec<String>)
    ensures
        texts(r@) == split(s@, sep),
{
    let v = chars(s);
    let mut r: Vec<String> = Vec::new();
    let mut from: usize = 0;
    assert(v@.skip(0) =~= v@);
    assert(texts(r@) + split(s@, sep) =~= split(s@, sep));
    loop
        invariant_except_break
            from <= v@.len(),
            v@ == s@,
            texts(r@) + split(v@.skip(from as int), sep) == split(s@, sep),
        ensures
            texts(r@) == split(s@, sep),
        decreases v@.len() - from + 1,
    {
        let ghost rest = v@.skip(from as int);
        let ghost before = texts(r@);
        let at = find_from(&v, sep, from);
        let piece = text_of(&v, from, at);
        r.push(piece);
        proof {
            find_bounds(rest, sep);
            assert(texts(r@) =~= before.push(piece@));
            assert(piece@ =~= rest.take(at - from));
        }
        if at == v.len() {
            proof {
                assert(rest.take(at - from) =~= rest);
                assert(before + seq![rest] =~= before.push(piece@));
            }
            break;
        }
        proof {
            assert(rest.skip(at - from + 1) =~= v@.skip(at + 1));
            assert(before + (seq![piece@] + split(v@.skip(at + 1), sep)) =~= before.push(piece@)
                + split(v@.skip(at + 1), sep));
        }
        from = at + 1;
    }
    r
}

/// `str::split_once` at a character: what stands before its first occurrence and
/// what stands behind it.
pub fn split_once<'a>(s: &'a str, sep: char) -> (r: Option<(&'a str, &'a str)>)
    ensures
        match r {
            Some(p) => {
                &&& find(s@, sep) < s@.len()
                &&& p.0@ == s@.take(find(s@, sep))
                &&& p.1@ == s@.skip(find(s@, sep) + 1)
            },
            None => find(s@, sep) == s@.len(),
        },
{
    let v = chars(s);
    let at = find_from(&v, sep, 0);
    assert(v@.skip(0) =~= v@);
    if at == v.len() {
        None
    } else {
        let head = s.substring_char(0, at);
        let tail = s.substring_char(at + 1, v.len());
        assert(head@ =~= s@.take(at as int));
        assert(tail@ =~= s@.skip(at + 1));
        Some((head, tail))
    }
}

/// Does `p` stand in `v` at `at`?
pub fn has_at(v: &Vec<char>, p: &Vec<char>, at: usize) -> (r: bool)
    ensures
        r == stands_at(v@, p@, at as int),
{
    if at > v.len() || v.len() - at < p.len() {
        return false;
    }
    let mut i: usize = 0;
    while i < p.len()
        invariant
            i <= p@.len(),
            at + p@.len() <= v@.len() <= usize::MAX,
            forall|j: int| 0 <= j < i ==> v@[at + j] == p@[j],
        decreases p@.len() - i,
    {
        if v[at + i] != p[i] {
            proof {
                assert(v@.subrange(at as int, at + p@.len())[i as int] == v@[at + i]);
            }
            return false;
        }
        i = i + 1;
    }
    assert(v@.subrange(at as int, at + p@.len()) =~= p@);
    true
}

/// A text starts with a prefix exactly where the prefix stands at its start.
pub proof fn prefix_stands_at_zero(s: Seq<char>, p: Seq<char>)
    ensures
        p.is_prefix_of(s) == stands_at(s, p, 0),
{
    if p.is_prefix_of(s) {
        assert(s.subrange(0, p.len() as int) =~= p);
    }
    if stands_at(s, p, 0) {
        assert(p =~= s.subrange(0, p.len() as int));
    }
}

/// `str::starts_with`.
pub fn starts_with(s: &str, p: &str) -> (r: bool)
    ensures
        r == p@.is_prefix_of(s@),
{
    proof {
        prefix_stands_at_zero(s@, p@);
    }
    has_at(&chars(s), &chars(p), 0)
}

/// `str::ends_with`.
pub fn ends_with(s: &str, p: &str) -> (r: bool)
    ensures
        r == p@.is_suffix_of(s@),
{
    let v = chars(s);
    let w = chars(p);
    if w.len() > v.len() {
        return false;
    }
    let r = has_at(&v, &w, v.len() - w.len());
    proof {
        assert(s@.subrange(v@.len() - w@.len(), v@.len() as int) =~= s@.subrange(
            s@.len() - p@.len(),
            s@.len() as int,
        ));
    }
    r
}

/// `str::strip_prefix`.
pub fn strip_prefix<'a>(s: &'a str, p: &str) -> (r: Option<&'a str>)
    ensures
        match r {
            Some(rest) => p@.is_prefix_of(s@) && rest@ == s@.skip(p@.len() as int),
            None => !p@.is_prefix_of(s@),
        },
{
    if starts_with(s, p) {
        let n = s.unicode_len();
        let k = p.unicode_len();
        let rest = s.substring_char(k, n);
        assert(rest@ =~= s@.skip(p@.len() as int));
        Some(rest)
    } else {
        None
    }
}

/// `str::strip_suffix`.
pub fn strip_suffix<'a>(s: &'a str, p: &str) -> (r: Option<&'a str>)
    ensures
        match r {
            Some(rest) => p@.is_suffix_of(s@) && rest@ == s@.take(s@.len() - p@.len()),
            None => !p@.is_suffix_of(s@),
        },
{
    if ends_with(s, p) {
        let n = s.unicode_len();
        let k = p.unicode_len();
        let rest = s.substring_char(0, n - k);
        assert(rest@ =~= s@.take(s@.len() - p@.len()));
        Some(rest)
    } else {
        None
    }
}

/// The first occurrence of a text is where it is found.
pub proof fn find_text_is(s: Seq<char>, pat: Seq<char>, at: int)
    requires
        0 <= at <= s.len(),
        stands_at(s, pat, at),
        forall|j: int| 0 <= j < at ==> !stands_at(s, pat, j),
    ensures
        find_text(s, pat) == Some(at),
    decreases s.len(),
{
    prefix_stands_at_zero(s, pat);
    if at > 0 {
        let t = s.drop_first();
        assert(!stands_at(s, pat, 0));
        assert(t.subrange(at - 1, at - 1 + pat.len()) =~= s.subrange(at, at + pat.len()));
        assert forall|j: int| 0 <= j < at - 1 implies !stands_at(t, pat, j) by {
            assert(!stands_at(s, pat, j + 1));
            if stands_at(t, pat, j) {
                assert(t.subrange(j, j + pat.len()) =~= s.subrange(j + 1, j + 1 + pat.len()));
            }
        }
        find_text_is(t, pat, at - 1);
    }
}

/// A text that stands nowhere is not found.
pub proof fn find_text_none(s: Seq<char>, pat: Seq<char>)
    requires
        forall|j: int| 0 <= j <= s.len() ==> !stands_at(s, pat, j),
    ensures
        find_text(s, pat) is None,
    decreases s.len(),
{
    prefix_stands_at_zero(s, pat);
    assert(!stands_at(s, pat, 0));
    if s.len() > 0 {
        let t = s.drop_first();
        assert forall|j: int| 0 <= j <= t.len() implies !stands_at(t, pat, j) by {
            assert(!stands_at(s, pat, j + 1));
            if stands_at(t, pat, j) {
                assert(t.subrange(j, j + pat.len()) =~= s.subrange(j + 1, j + 1 + pat.len()));
            }
        }
        find_text_none(t, pat);
    }
}

/// `str::find` for a text, by character position.
pub fn position_of(s: &str, pat: &str) -> (r: Option<usize>)
    ensures
        match r {
            Some(at) => find_text(s@, pat@) == Some(at as int) && at <= s@.len() - pat@.len()
                && stands_at(s@, pat@, at as int),
            None => find_text(s@, pat@) is None && !contains_text(s@, pat@),
        },
{
    let v = chars(s);
    let w = chars(pat);
    let mut i: usize = 0;
    loop
        invariant
            v@ == s@,
            w@ == pat@,
            i <= v@.len(),
            forall|j: int| 0 <= j < i ==> !stands_at(v@, w@, j),
        decreases v@.len() - i,
    {
        if has_at(&v, &w, i) {
            proof {
                find_text_is(s@, pat@, i as int);
            }
            return Some(i);
        }
        if i == v.len() {
            proof {
                find_text_none(s@, pat@);
            }
            return None;
        }
        i = i + 1;
    }
}

/// `str::contains` for a text.
pub fn contains(s: &str, pat: &str) -> (r: bool)
    ensures
        r == contains_text(s@, pat@),
{
    position_of(s, pat).is_some()
}

/// `str::split_once` at a text.
pub fn split_once_text<'a>(s: &'a str, pat: &str) -> (r: Option<(&'a str, &'a str)>)
    ensures
        match r {
            Some(p) => {
                &&& find_text(s@, pat@) matches Some(at)
                &&& 0 <= at <= s@.len() - pat@.len()
                &&& p.0@ == s@.take(at)
                &&& p.1@ == s@.skip(at + pat@.len())
            },
            None => find_text(s@, pat@) is None,
        },
{
    match position_of(s, pat) {
        Some(at) => {
            let n = s.unicode_len();
            let k = pat.unicode_len();
            let head = s.substring_char(0, at);
            let tail = s.substring_char(at + k, n);
            assert(head@ =~= s@.take(at as int));
            assert(tail@ =~= s@.skip(at + pat@.len()));
            Some((head, tail))
        },
        None => None,
    }
}

/// `[String]::join`.
pub fn joined(parts: &Vec<String>, sep: &str) -> (r: String)
    ensures
        r@ == join(texts(parts@), sep@),
{
    let mut r = String::new();
    let mut i: usize = 0;
    while i < parts.len()
        invariant
            i <= parts@.len(),
            r@ == join(texts(parts@).take(i as int), sep@),
        decreases parts@.len() - i,
    {
        proof {
            let t = texts(parts@).take(i + 1);
            assert(t.drop_last() =~= texts(parts@).take(i as int));
            assert(i == 0 ==> r@ =~= Seq::empty());
            assert(t.last() == parts@[i as int]@);
            assert(t[0] == texts(parts@)[0]);
            assert(Seq::empty() + parts@[i as int]@ =~= parts@[i as int]@);
        }
        if i > 0 {
            r.append(sep);
        }
        r.append(parts[i].as_str());
        i = i + 1;
    }
    assert(texts(parts@).take(parts@.len() as int) =~= texts(parts@));
    r
}

/// A line without its carriage return.
pub open spec fn strip_cr(s: Seq<char>) -> Seq<char> {
    if s.len() > 0 && s.last() == '\r' {
        s.drop_last()
    } else {
        s
    }
}

/// The lines of a text: what stands before each line feed, without a carriage
/// return before it, and what stands behind the last one, unless that is nothing.
pub open spec fn lines(s: Seq<char>) -> Seq<Seq<char>> {
    let parts = split(s, '\n');
    let ended = Seq::new((parts.len() - 1) as nat, |i: int| strip_cr(parts[i]));
    if parts.last().len() == 0 {
        ended
    } else {
        ended.push(parts.last())
    }
}

proof fn split_not_empty(s: Seq<char>, sep: char)
    ensures
        split(s, sep).len() > 0,
{
}

/// `str::lines`, as owned lines.
pub fn split_lines(s: &str) -> (r: Vec<String>)
    ensures
        texts(r@) == lines(s@),
{
    let parts = pieces(s, '\n');
    let n: usize = parts.len();
    proof {
        split_not_empty(s@, '\n');
    }
    let ghost ps = texts(parts@);
    let mut r: Vec<String> = Vec::new();
    let mut i: usize = 0;
    while i + 1 < n
        invariant
            n == parts@.len(),
            n > 0,
            i < n,
            ps == texts(parts@),
            r@.len() == i,
            forall|j: int| 0 <= j < i ==> (#[trigger] r@[j])@ == strip_cr(ps[j]),
        decreases n - i,
    {
        let p = parts[i].as_str();
        let k: usize = p.unicode_len();
        let line = if k > 0 && p.get_char(k - 1) == '\r' {
            let t = p.substring_char(0, k - 1);
            assert(t@ =~= p@.drop_last());
            t
        } else {
            p
        };
        assert(ps[i as int] == p@);
        r.push(line.to_owned());
        i = i + 1;
    }
    let ghost ended = Seq::new((ps.len() - 1) as nat, |i: int| strip_cr(ps[i]));
    assert(texts(r@) =~= ended);
    assert(ps.last() == parts@[n - 1]@);
    if !parts[n - 1].as_str().is_empty() {
        r.push(parts[n - 1].clone());
        assert(texts(r@) =~= ended.push(ps.last()));
    }
    r
}

/// The last position at which `pat` stands in `s`.
pub open spec fn find_last_text(s: Seq<char>, pat: Seq<char>) -> Option<int>
    decreases s.len(),
{
    if pat.is_suffix_of(s) {
        Some(s.len() - pat.len())
    } else if s.len() == 0 {
        None
    } else {
        find_last_text(s.drop_last(), pat)
    }
}

/// `str::rsplit_once` at a text.
pub fn rsplit_once_text<'a>(s: &'a str, pat: &str) -> (r: Option<(&'a str, &'a str)>)
    ensures
        match r {
            Some(p) => {
                &&& find_last_text(s@, pat@) matches Some(at)
                &&& 0 <= at <= s@.len() - pat@.len()
                &&& p.0@ == s@.take(at)
                &&& p.1@ == s@.skip(at + pat@.len())
            },
            None => find_last_text(s@, pat@) is None,
        },
{
    let v = chars(s);
    let w = chars(pat);
    let n: usize = v.len();
    let mut i: usize = n;
    assert(v@.take(n as int) =~= v@);
    loop
        invariant
            i <= n == v@.len(),
            v@ == s@,
            w@ == pat@,
            find_last_text(s@, pat@) == find_last_text(v@.take(i as int), pat@),
        decreases i,
    {
        let ghost t = v@.take(i as int);
        if w.len() <= i && has_at(&v, &w, i - w.len()) {
            let at: usize = i - w.len();
            let head = s.substring_char(0, at);
            let tail = s.substring_char(i, n);
            proof {
                assert(t.subrange(at as int, i as int) =~= v@.subrange(at as int, i as int));
                assert(pat@.is_suffix_of(t));
                assert(head@ =~= s@.take(at as int));
                assert(tail@ =~= s@.skip(i as int));
            }
            return Some((head, tail));
        }
        proof {
            if pat@.is_suffix_of(t) {
                assert(t.subrange(i - w@.len(), i as int) =~= v@.subrange(
                    i - w@.len(),
                    i as int,
                ));
                assert(stands_at(v@, w@, i - w@.len()));
            }
        }
        if i == 0 {
            return None;
        }
        assert(t.drop_last() =~= v@.take(i - 1));
        i = i - 1;
    }
}

// ---------------------------------------------------------------- order

/// Strict order of two texts.
pub fn before(a: &str, b: &str) -> (r: bool)
    ensures
        r == text_lt(a@, b@),
{
    let v = chars(a);
    let w = chars(b);
    assert(v@.skip(0) =~= v@ && w@.skip(0) =~= w@);
    let mut i: usize = 0;
    while i < v.len() && i < w.len() && v[i] == w[i]
        invariant
            i <= v@.len(),
            i <= w@.len(),
            text_lt(v@, w@) == text_lt(v@.skip(i as int), w@.skip(i as int)),
        decreases v@.len() - i,
    {
        proof {
            assert(v@.skip(i as int).drop_first() =~= v@.skip(i + 1));
            assert(w@.skip(i as int).drop_first() =~= w@.skip(i + 1));
        }
        i = i + 1;
    }
    if i == w.len() {
        false
    } else if i == v.len() {
        true
    } else {
        v[i] < w[i]
    }
}

/// No text is below itself.
pub proof fn text_lt_irreflexive(a: Seq<char>)
    ensures
        !text_lt(a, a),
    decreases a.len(),
{
    if a.len() > 0 {
        text_lt_irreflexive(a.drop_first());
    }
}

/// The order of texts chains.
pub proof fn text_lt_transitive(a: Seq<char>, b: Seq<char>, c: Seq<char>)
    requires
        text_lt(a, b),
        text_lt(b, c),
    ensures
        text_lt(a, c),
    decreases a.len(),
{
    if a.len() > 0 && a[0] == b[0] && b[0] == c[0] {
        text_lt_transitive(a.drop_first(), b.drop_first(), c.drop_first());
    }
}

/// Of two different texts one is below the other.
pub proof fn text_lt_total(a: Seq<char>, b: Seq<char>)
    ensures
        text_lt(a, b) || text_lt(b, a) || a == b,
    decreases a.len(),
{
    if a.len() > 0 && b.len() > 0 && a[0] == b[0] {
        text_lt_total(a.drop_first(), b.drop_first());
        if a.drop_first() == b.drop_first() {
            assert(a =~= seq![a[0]] + a.drop_first());
            assert(b =~= seq![b[0]] + b.drop_first());
        }
    } else if a.len() == 0 && b.len() == 0 {
        assert(a =~= b);
    }
}

// ---------------------------------------------------------------- decimal numbers

/// The digit that writes `n`.
pub fn digit_char(n: u64) -> (c: char)
    requires
        n < 10,
    ensures
        c == digit(n as nat),
        is_digit(c),
{
    match n {
        0 => '0',
        1 => '1',
        2 => '2',
        3 => '3',
        4 => '4',
        5 => '5',
        6 => '6',
        7 => '7',
        8 => '8',
        _ => '9',
    }
}

/// A natural number in decimal.
pub fn decimal(n: u64) -> (r: String)
    ensures
        r@ == dec(n as nat),
    decreases n,
{
    if n < 10 {
        let mut s = String::new();
        s.push(digit_char(n));
        assert(s@ =~= seq![digit(n as nat)]);
        s
    } else {
        let mut s = decimal(n / 10);
        s.push(digit_char(n % 10));
        s
    }
}

/// A wide natural number in decimal.
pub fn decimal_wide(n: u128) -> (r: String)
    ensures
        r@ == dec(n as nat),
    decreases n,
{
    if n < 10 {
        decimal(n as u64)
    } else {
        let mut s = decimal_wide(n / 10);
        s.push(digit_char((n % 10) as u64));
        s
    }
}

/// A signed integer in decimal.
pub fn decimal_signed(i: i64) -> (r: String)
    ensures
        r@ == dec_int(i as int),
{
    if i < 0 {
        let mut s = String::new();
        s.push('-');
        assert(s@ =~= seq!['-']);
        let magnitude: u64 = if i == i64::MIN {
            0x8000_0000_0000_0000
        } else {
            (-i) as u64
        };
        s.append(decimal(magnitude).as_str());
        s
    } else {
        decimal(i as u64)
    }
}

/// A longer run of digits has no smaller value.
pub proof fn digits_value_bound(s: Seq<char>, i: int)
    requires
        all_digits(s),
        0 <= i <= s.len(),
    ensures
        digits_value(s.take(i)) <= digits_value(s),
    decreases s.len(),
{
    if i == s.len() {
        assert(s.take(i) =~= s);
    } else {
        let t = s.drop_last();
        assert(is_digit(s[s.len() - 1]));
        assert forall|j: int| 0 <= j < t.len() implies is_digit(#[trigger] t[j]) by {
            assert(is_digit(s[j]));
        }
        digits_value_bound(t, i);
        assert(t.take(i) =~= s.take(i));
    }
}

/// The value of the digits `v[from..]` when there is at least one, all are digits
/// and the value is at most `max`.
pub fn read_digits(v: &Vec<char>, from: usize, max: u64) -> (r: Option<u64>)
    requires
        from <= v@.len(),
    ensures
        ({
            let body = v@.skip(from as int);
            match r {
                Some(n) => body.len() > 0 && all_digits(body) && digits_value(body) == n && n <= max,
                None => !(body.len() > 0 && all_digits(body) && digits_value(body) <= max),
            }
        }),
{
    if from == v.len() {
        return None;
    }
    let ghost body = v@.skip(from as int);
    let mut n: u64 = 0;
    let mut i: usize = from;
    let mut over: bool = false;
    while i < v.len()
        invariant
            from <= i <= v@.len(),
            body == v@.skip(from as int),
            forall|j: int| 0 <= j < i - from ==> is_digit(#[trigger] body[j]),
            !over ==> n == digits_value(body.take(i - from)) && n <= max,
            over ==> digits_value(body.take(i - from)) > max,
        decreases v@.len() - i,
    {
        let c = v[i];
        if !('0' <= c && c <= '9') {
            assert(body[i - from] == c);
            return None;
        }
        proof {
            assert(body[i - from] == c);
            let t = body.take(i + 1 - from);
            assert(t.drop_last() =~= body.take(i - from));
            assert(t.last() == c);
        }
        let d: u64 = (c as u32 - '0' as u32) as u64;
        if !over {
            if n > max / 10 || d > max || n * 10 > max - d {
                over = true;
            } else {
                n = n * 10 + d;
            }
        }
        i = i + 1;
    }
    proof {
        assert(body.take(v@.len() - from) =~= body);
    }
    if over {
        None
    } else {
        Some(n)
    }
}

/// Read an unsigned integer of at most `max`, as `str::parse` does.
pub fn parse_unsigned(s: &str, max: u64) -> (r: Option<u64>)
    ensures
        match r {
            Some(n) => read_unsigned(s@, max as nat) == Some(n as nat),
            None => read_unsigned(s@, max as nat) is None,
        },
{
    let v = chars(s);
    proof {
        assert(v@.skip(0) =~= v@);
        assert(v@.len() > 0 ==> v@.skip(1) =~= v@.drop_first());
    }
    let from: usize = if v.len() > 0 && v[0] == '+' {
        1
    } else {
        0
    };
    read_digits(&v, from, max)
}

/// Read an `i64`, as `str::parse` does.
pub fn parse_i64(s: &str) -> (r: Option<i64>)
    ensures
        match r {
            Some(n) => read_signed(s@, i64::MIN as int, i64::MAX as int) == Some(n as int),
            None => read_signed(s@, i64::MIN as int, i64::MAX as int) is None,
        },
{
    let v = chars(s);
    proof {
        assert(v@.skip(0) =~= v@);
        assert(v@.len() > 0 ==> v@.skip(1) =~= v@.drop_first());
    }
    if v.len() > 0 && v[0] == '-' {
        match read_digits(&v, 1, 0x8000_0000_0000_0000) {
            Some(n) => if n == 0x8000_0000_0000_0000 {
                Some(i64::MIN)
            } else {
                Some(-(n as i64))
            },
            None => None,
        }
    } else {
        let from: usize = if v.len() > 0 && v[0] == '+' {
            1
        } else {
            0
        };
        match read_digits(&v, from, 0x7fff_ffff_ffff_ffff) {
            Some(n) => Some(n as i64),
            None => None,
        }
    }
}

// ---------------------------------------------------------------- laws of decimal

/// A rendered natural number is a non-empty run of digits that reads back as the
/// number.
pub proof fn decimal_reads_back(n: nat)
    ensures
        dec(n).len() > 0,
        all_digits(dec(n)),
        digits_value(dec(n)) == n,
    decreases n,
{
    if n < 10 {
        assert(dec(n).drop_last() =~= Seq::empty());
        assert(digits_value(Seq::empty()) == 0);
    } else {
        decimal_reads_back(n / 10);
        let d = dec(n);
        assert(d.drop_last() =~= dec(n / 10));
        assert(d.last() == digit(n % 10));
        assert forall|i: int| 0 <= i < d.len() implies is_digit(#[trigger] d[i]) by {
            if i < d.len() - 1 {
                assert(d[i] == dec(n / 10)[i]);
            }
        }
    }
}

/// An `i64` rendered in decimal is read back as itself.
pub proof fn signed_decimal_round_trips(i: int)
    requires
        i64::MIN <= i <= i64::MAX,
    ensures
        read_signed(dec_int(i), i64::MIN as int, i64::MAX as int) == Some(i),
{
    if i < 0 {
        decimal_reads_back((-i) as nat);
        assert(dec_int(i).drop_first() =~= dec((-i) as nat));
    } else {
        decimal_reads_back(i as nat);
        assert(is_digit(dec(i as nat)[0]));
    }
}

/// An unsigned integer within its bound rendered in decimal is read back as itself.
pub proof fn unsigned_decimal_round_trips(n: nat, max: nat)
    requires
        n <= max,
    ensures
        read_unsigned(dec(n), max) == Some(n),
{
    decimal_reads_back(n);
    assert(is_digit(dec(n)[0]));
}

proof fn split_of_append(a: Seq<char>, sep: char, b: Seq<char>)
    requires
        !b.contains(sep),
    ensures
        split(a + seq![sep] + b, sep) == split(a, sep).push(b),
    decreases a.len(),
{
    let s = a + seq![sep] + b;
    let at = find(a, sep);
    find_bounds(a, sep);
    find_bounds(b, sep);
    assert forall|j: int| 0 <= j < at implies s[j] != sep by {
        assert(s[j] == a[j]);
    }
    find_is(s, sep, at);
    if at < a.len() {
        let rest = a.skip(at + 1);
        assert(s.skip(at + 1) =~= rest + seq![sep] + b);
        split_of_append(rest, sep, b);
        assert(s.take(at) =~= a.take(at));
        assert(seq![s.take(at)] + split(rest, sep).push(b) =~= (seq![a.take(at)] + split(
            rest,
            sep,
        )).push(b));
    } else {
        assert(s.take(at) =~= a);
        assert(s.skip(at + 1) =~= b);
        assert(split(b, sep) =~= seq![b]);
        assert(split(a, sep) =~= seq![a]);
        assert(seq![a] + seq![b] =~= seq![a].push(b));
    }
}

/// Joined parts that hold no separator come apart again.
pub proof fn split_of_join(parts: Seq<Seq<char>>, sep: char)
    requires
        parts.len() > 0,
        forall|i: int| 0 <= i < parts.len() ==> !(#[trigger] parts[i]).contains(sep),
    ensures
        split(join(parts, seq![sep]), sep) == parts,
    decreases parts.len(),
{
    assert(!parts[parts.len() - 1].contains(sep));
    if parts.len() == 1 {
        assert(!parts[0].contains(sep));
        find_bounds(parts[0], sep);
        assert(split(parts[0], sep) =~= parts);
    } else {
        let head = parts.drop_last();
        split_of_join(head, sep);
        split_of_append(join(head, seq![sep]), sep, parts.last());
        assert(head.push(parts.last()) =~= parts);
    }
}

} // verus!
