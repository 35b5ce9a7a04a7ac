//! What holds of the selector language as a whole: a selector that is written and
//! read again is the same selector, and what a clause, a selector and a set of
//! selectors admit.

use crate::selector::{
    clause_admits, clause_expr, clause_exprs, exprs_of, hits, keep_pieces, match_expr,
    read_alternatives, read_clause, read_clauses, read_match, read_selector, selector_admits,
    selector_expr, set_admits, top_pieces, ClauseV, MatchV, SelectorErrorV,
};
use crate::tag::{
    expr_of, exponent, float_expr, nameable, read_value, render, tag_eq, tag_lt, trimmed_already,
    value_round_trips, Floats, TagErrorV, TagV,
};
use crate::text::{
    after_plus, contains_text, dec, decimal_reads_back, find, find_bounds, find_is, find_text,
    find_text_is, find_text_none, is_digit, is_space, join, read_signed, split, split_of_join, stands_at, trim,
    trim_end_is_take, trim_start_is_skip,
};
use crate::vocab::writes_powers;
use vstd::prelude::*;

verus! {

// ---------------------------------------------------------------- text lemmas

/// Where the trimmed text stands in the whole.
pub proof fn trim_bounds(s: Seq<char>) -> (r: (int, int))
    ensures
        0 <= r.0 <= r.1 <= s.len(),
        trim(s) == s.subrange(r.0, r.1),
        r.0 < r.1 ==> !is_space(s[r.0]) && !is_space(s[r.1 - 1]),
        forall|j: int| 0 <= j < r.0 || r.1 <= j < s.len() ==> is_space(#[trigger] s[j]),
{
    let lo = space_end(s, 0);
    trim_start_is_skip(s, lo);
    let t = s.skip(lo);
    let hi = space_start(t, t.len() as int);
    trim_end_is_take(t, hi);
    assert forall|j: int| 0 <= j < lo || lo + hi <= j < s.len() implies is_space(#[trigger] s[j]) by {
        if j >= lo {
            assert(s[j] == t[j - lo]);
        }
    }
    assert(t.take(hi) =~= s.subrange(lo, lo + hi));
    if hi > 0 {
        if lo == s.len() {
            assert(t.len() == 0);
        }
        assert(t[hi - 1] == s[lo + hi - 1]);
    }
    (lo, lo + hi)
}

proof fn space_end(s: Seq<char>, from: int) -> (r: int)
    requires
        0 <= from <= s.len(),
    ensures
        from <= r <= s.len(),
        forall|j: int| from <= j < r ==> is_space(#[trigger] s[j]),
        r == s.len() || !is_space(s[r]),
    decreases s.len() - from,
{
    if from < s.len() && is_space(s[from]) {
        space_end(s, from + 1)
    } else {
        from
    }
}

proof fn space_start(s: Seq<char>, to: int) -> (r: int)
    requires
        0 <= to <= s.len(),
    ensures
        0 <= r <= to,
        forall|j: int| r <= j < to ==> is_space(#[trigger] s[j]),
        r == 0 || !is_space(s[r - 1]),
    decreases to,
{
    if to > 0 && is_space(s[to - 1]) {
        space_start(s, to - 1)
    } else {
        to
    }
}

/// Trimming twice is trimming once.
pub proof fn trim_twice(s: Seq<char>)
    ensures
        trim(trim(s)) == trim(s),
{
    let (lo, hi) = trim_bounds(s);
    let t = trim(s);
    if lo < hi {
        assert(t[0] == s[lo]);
        assert(t.last() == s[hi - 1]);
        trimmed_already(t);
    } else {
        trim_start_is_skip(t, 0);
        assert(t.skip(0) =~= t);
        trim_end_is_take(t, 0);
        assert(t.take(0) =~= t);
    }
}

/// A part of a text holds no character that the text does not hold.
proof fn part_avoids(s: Seq<char>, lo: int, hi: int, c: char)
    requires
        0 <= lo <= hi <= s.len(),
        !s.contains(c),
    ensures
        !s.subrange(lo, hi).contains(c),
{
    let t = s.subrange(lo, hi);
    if t.contains(c) {
        let i = choose|i: int| 0 <= i < t.len() && t[i] == c;
        assert(s[lo + i] == c);
    }
}

proof fn trim_avoids(s: Seq<char>, c: char)
    requires
        !s.contains(c),
    ensures
        !trim(s).contains(c),
{
    let (lo, hi) = trim_bounds(s);
    part_avoids(s, lo, hi, c);
}

/// Two dots side by side.
proof fn dots_at(s: Seq<char>, at: int)
    ensures
        stands_at(s, ".."@, at) <==> 0 <= at < s.len() - 1 && s[at] == '.' && s[at + 1] == '.',
{
    reveal_strlit("..");
    assert(".."@ =~= seq!['.', '.']);
    if 0 <= at < s.len() - 1 {
        let t = s.subrange(at, at + 2);
        assert(t[0] == s[at] && t[1] == s[at + 1]);
        if s[at] == '.' && s[at + 1] == '.' {
            assert(t =~= ".."@);
        }
    }
}

proof fn part_has_no_dots(s: Seq<char>, lo: int, hi: int)
    requires
        0 <= lo <= hi <= s.len(),
        !contains_text(s, ".."@),
    ensures
        !contains_text(s.subrange(lo, hi), ".."@),
{
    let t = s.subrange(lo, hi);
    if contains_text(t, ".."@) {
        let at = choose|at: int| stands_at(t, ".."@, at);
        dots_at(t, at);
        dots_at(s, lo + at);
        assert(stands_at(s, ".."@, lo + at));
    }
}

/// A text without dots holds no two of them.
proof fn no_dot_no_dots(s: Seq<char>)
    requires
        !s.contains('.'),
    ensures
        !contains_text(s, ".."@),
{
    if contains_text(s, ".."@) {
        let at = choose|at: int| stands_at(s, ".."@, at);
        dots_at(s, at);
        assert(s.contains(s[at]));
    }
}

proof fn no_dots_is_none(s: Seq<char>)
    ensures
        find_text(s, ".."@) is None <==> !contains_text(s, ".."@),
        match find_text(s, ".."@) {
            Some(at) => 0 <= at <= s.len() - 2 && stands_at(s, ".."@, at) && !contains_text(
                s.take(at),
                ".."@,
            ),
            None => true,
        },
    decreases s.len(),
{
    if !contains_text(s, ".."@) {
        find_text_none(s, ".."@);
    } else {
        let at = choose|at: int| stands_at(s, ".."@, at);
        let first = first_dots(s, 0, at);
        find_text_is(s, ".."@, first);
        dots_at(s, first);
        let head = s.take(first);
        if contains_text(head, ".."@) {
            let j = choose|j: int| stands_at(head, ".."@, j);
            dots_at(head, j);
            dots_at(s, j);
        }
    }
}

proof fn first_dots(s: Seq<char>, from: int, at: int) -> (r: int)
    requires
        0 <= from <= at,
        stands_at(s, ".."@, at),
        forall|j: int| 0 <= j < from ==> !stands_at(s, ".."@, j),
    ensures
        0 <= r <= at,
        stands_at(s, ".."@, r),
        forall|j: int| 0 <= j < r ==> !stands_at(s, ".."@, j),
    decreases at - from,
{
    if stands_at(s, ".."@, from) {
        from
    } else {
        first_dots(s, from + 1, at)
    }
}

proof fn join_avoids(parts: Seq<Seq<char>>, sep: Seq<char>, c: char)
    requires
        forall|i: int| 0 <= i < parts.len() ==> !(#[trigger] parts[i]).contains(c),
        !sep.contains(c),
    ensures
        !join(parts, sep).contains(c),
    decreases parts.len(),
{
    if parts.len() > 1 {
        let head = parts.drop_last();
        join_avoids(head, sep, c);
        let j = join(parts, sep);
        if j.contains(c) {
            let i = choose|i: int| 0 <= i < j.len() && j[i] == c;
            let a = join(head, sep);
            if i < a.len() {
                assert(a[i] == c);
                assert(a.contains(c));
            } else if i < a.len() + sep.len() {
                assert(sep[i - a.len()] == c);
            } else {
                assert(parts.last()[i - a.len() - sep.len()] == c);
                assert(!parts[parts.len() - 1].contains(c));
            }
        }
    }
}

/// Joining non-empty parts begins with the first and ends with the last.
proof fn join_ends(parts: Seq<Seq<char>>, sep: Seq<char>)
    requires
        parts.len() > 0,
        forall|i: int| 0 <= i < parts.len() ==> (#[trigger] parts[i]).len() > 0,
    ensures
        join(parts, sep).len() > 0,
        join(parts, sep)[0] == parts[0][0],
        join(parts, sep).last() == parts.last().last(),
    decreases parts.len(),
{
    assert(parts[parts.len() - 1].len() > 0);
    if parts.len() > 1 {
        join_ends(parts.drop_last(), sep);
    } else {
        assert(parts[0].len() > 0);
    }
}

proof fn join_has_no_dots(parts: Seq<Seq<char>>)
    requires
        forall|i: int| 0 <= i < parts.len() ==> !contains_text(#[trigger] parts[i], ".."@),
    ensures
        !contains_text(join(parts, "|"@), ".."@),
    decreases parts.len(),
{
    reveal_strlit("|");
    if parts.len() == 0 {
        no_dot_no_dots(join(parts, "|"@));
    } else if parts.len() == 1 {
        assert(!contains_text(parts[0], ".."@));
    } else {
        let head = parts.drop_last();
        join_has_no_dots(head);
        let a = join(head, "|"@);
        let b = parts.last();
        assert(!contains_text(parts[parts.len() - 1], ".."@));
        let j = join(parts, "|"@);
        assert(j =~= a + "|"@ + b);
        if contains_text(j, ".."@) {
            let at = choose|at: int| stands_at(j, ".."@, at);
            dots_at(j, at);
            assert(j[a.len() as int] == '|');
            if at + 1 < a.len() {
                dots_at(a, at);
                assert(stands_at(a, ".."@, at));
            } else if at > a.len() {
                dots_at(b, at - a.len() - 1);
                assert(stands_at(b, ".."@, at - a.len() - 1));
            }
        }
    }
}

proof fn keep_all(parts: Seq<Seq<char>>)
    requires
        forall|i: int|
            0 <= i < parts.len() ==> (#[trigger] parts[i]).len() > 0 && trim(parts[i]) == parts[i],
    ensures
        keep_pieces(parts) == parts,
    decreases parts.len(),
{
    if parts.len() > 0 {
        keep_all(parts.drop_last());
        assert(parts[parts.len() - 1].len() > 0);
        assert(parts.drop_last().push(parts.last()) =~= parts);
    } else {
        assert(keep_pieces(parts) =~= parts);
    }
}

/// Joined parts come apart again.
proof fn pieces_of_join(parts: Seq<Seq<char>>, sep: char)
    requires
        parts.len() > 0,
        forall|i: int|
            0 <= i < parts.len() ==> !(#[trigger] parts[i]).contains(sep) && parts[i].len() > 0
                && trim(parts[i]) == parts[i],
    ensures
        top_pieces(join(parts, seq![sep]), sep) == parts,
{
    split_of_join(parts, sep);
    keep_all(parts);
}

/// A piece of a split text is a part of it and holds no separator.
proof fn piece_of_split(s: Seq<char>, sep: char, i: int) -> (r: (int, int))
    requires
        0 <= i < split(s, sep).len(),
    ensures
        0 <= r.0 <= r.1 <= s.len(),
        split(s, sep)[i] == s.subrange(r.0, r.1),
        !split(s, sep)[i].contains(sep),
    decreases s.len(),
{
    let at = find(s, sep);
    find_bounds(s, sep);
    if at == s.len() {
        assert(s.subrange(0, s.len() as int) =~= s);
        (0, s.len() as int)
    } else if i == 0 {
        let t = s.take(at);
        assert(t =~= s.subrange(0, at));
        if t.contains(sep) {
            let j = choose|j: int| 0 <= j < t.len() && t[j] == sep;
            assert(s[j] == sep);
        }
        (0, at)
    } else {
        let rest = s.skip(at + 1);
        assert(split(s, sep)[i] == split(rest, sep)[i - 1]);
        let (lo, hi) = piece_of_split(rest, sep, i - 1);
        assert(rest.subrange(lo, hi) =~= s.subrange(at + 1 + lo, at + 1 + hi));
        (at + 1 + lo, at + 1 + hi)
    }
}

/// A kept piece is the trimming of some piece.
proof fn kept_piece(parts: Seq<Seq<char>>, i: int) -> (r: int)
    requires
        0 <= i < keep_pieces(parts).len(),
    ensures
        0 <= r < parts.len(),
        keep_pieces(parts)[i] == trim(parts[r]),
        keep_pieces(parts)[i].len() > 0,
    decreases parts.len(),
{
    let rest = keep_pieces(parts.drop_last());
    if i < rest.len() {
        let j = kept_piece(parts.drop_last(), i);
        assert(parts.drop_last()[j] == parts[j]);
        j
    } else {
        parts.len() - 1
    }
}

/// What holds of every kept piece: it is trimmed, it is not empty, it holds no
/// separator, and it is a part of the text.
proof fn top_piece(s: Seq<char>, sep: char, i: int)
    requires
        0 <= i < top_pieces(s, sep).len(),
    ensures
        top_pieces(s, sep)[i].len() > 0,
        trim(top_pieces(s, sep)[i]) == top_pieces(s, sep)[i],
        !top_pieces(s, sep)[i].contains(sep),
        forall|c: char| !s.contains(c) ==> !(#[trigger] top_pieces(s, sep)[i].contains(c)),
        !contains_text(s, ".."@) ==> !contains_text(top_pieces(s, sep)[i], ".."@),
{
    let parts = split(s, sep);
    let j = kept_piece(parts, i);
    let (lo, hi) = piece_of_split(s, sep, j);
    trim_avoids(parts[j], sep);
    trim_twice(parts[j]);
    assert forall|c: char| !s.contains(c) implies !(#[trigger] top_pieces(s, sep)[i].contains(
        c,
    )) by {
        part_avoids(s, lo, hi, c);
        trim_avoids(parts[j], c);
    }
    if !contains_text(s, ".."@) {
        part_has_no_dots(s, lo, hi);
        let (a, b) = trim_bounds(parts[j]);
        part_has_no_dots(parts[j], a, b);
    }
}

// ---------------------------------------------------------------- values

/// A written integer is made of digits, a caret and a minus sign.
proof fn int_expr_shape(i: int, powers: bool)
    ensures
        ({
            let t = expr_of(TagV::Int(i), powers);
            &&& t.len() > 0
            &&& forall|j: int|
                0 <= j < t.len() ==> is_digit(#[trigger] t[j]) || t[j] == '^' || t[j] == '-'
        }),
{
    reveal_strlit("2^");
    let t = expr_of(TagV::Int(i), powers);
    if powers && exponent(i) is Some {
        let n = exponent(i)->Some_0;
        decimal_reads_back(n);
        assert forall|j: int| 0 <= j < t.len() implies is_digit(#[trigger] t[j]) || t[j] == '^'
            || t[j] == '-' by {
            if j >= 2 {
                assert(t[j] == dec(n)[j - 2]);
            }
        }
    } else {
        let m = (if i < 0 {
            -i
        } else {
            i
        }) as nat;
        decimal_reads_back(m);
        assert forall|j: int| 0 <= j < t.len() implies is_digit(#[trigger] t[j]) || t[j] == '^'
            || t[j] == '-' by {
            if i < 0 && j > 0 {
                assert(t[j] == dec(m)[j - 1]);
            } else if i >= 0 {
                assert(t[j] == dec(m)[j]);
            }
        }
    }
}

/// A written integer or boolean holds none of the characters of the grammar.
proof fn plain_expr(v: TagV, powers: bool)
    requires
        v is Int || v is Bool,
    ensures
        ({
            let t = expr_of(v, powers);
            &&& t.len() > 0 && trim(t) == t
            &&& !t.contains(',') && !t.contains('|') && !t.contains('.')
            &&& t.last() != '.'
            &&& t != "*"@
        }),
{
    reveal_strlit("true");
    reveal_strlit("false");
    reveal_strlit("*");
    let t = expr_of(v, powers);
    match v {
        TagV::Int(i) => {
            int_expr_shape(i, powers);
            assert(is_digit(t[0]) || t[0] == '^' || t[0] == '-');
            assert(is_digit(t[t.len() - 1]) || t[t.len() - 1] == '^' || t[t.len() - 1] == '-');
        },
        _ => {},
    }
    trimmed_already(t);
    if t == "*"@ {
        assert(t[0] == '*');
    }
}

/// A nameable value is written as a trimmed, non-empty text.
proof fn expr_is_trimmed(v: TagV, powers: bool, floats: Floats)
    requires
        nameable(v, floats),
    ensures
        expr_of(v, powers).len() > 0,
        trim(expr_of(v, powers)) == expr_of(v, powers),
{
    if v is Int || v is Bool {
        plain_expr(v, powers);
    }
}

// ---------------------------------------------------------------- the round trip

/// A value that can stand in a list of alternatives.
pub open spec fn alternative(v: TagV, powers: bool, floats: Floats) -> bool {
    let t = expr_of(v, powers);
    nameable(v, floats) && !t.contains(',') && !t.contains('|') && !contains_text(t, ".."@)
}

/// A clause whose text means the clause: its key and its values hold none of the
/// characters that the grammar gives a meaning to.
pub open spec fn canonical_clause(c: ClauseV, floats: Floats) -> bool {
    let powers = writes_powers(c.key);
    &&& c.key.len() > 0
    &&& trim(c.key) == c.key
    &&& !c.key.contains('=') && !c.key.contains(',')
    &&& c.negated || c.key[0] != '!'
    &&& match c.matcher {
        MatchV::Any => true,
        MatchV::OneOf(vs) => {
            &&& vs.len() > 0
            &&& forall|i: int| 0 <= i < vs.len() ==> alternative(#[trigger] vs[i], powers, floats)
            &&& vs.len() == 1 ==> render(vs[0]) != "*"@
        },
        MatchV::Range { lo, hi } => {
            &&& nameable(lo, floats) && nameable(hi, floats)
            &&& !expr_of(lo, powers).contains(',') && !expr_of(hi, powers).contains(',')
            &&& !contains_text(expr_of(lo, powers), ".."@) && expr_of(lo, powers).last() != '.'
            &&& !tag_lt(hi, lo)
        },
    }
}

/// What is claimed of the text of a matcher: it is trimmed, is not empty, holds no
/// comma, and reads as the matcher.
spec fn match_reads_back(c: ClauseV, floats: Floats) -> bool {
    let t = match_expr(c.matcher, writes_powers(c.key));
    &&& t.len() > 0 && trim(t) == t && !t.contains(',')
    &&& read_match(t, c.key, floats) == Ok::<MatchV, SelectorErrorV>(c.matcher)
}

proof fn any_round_trips(c: ClauseV, floats: Floats)
    requires
        c.matcher is Any,
    ensures
        match_reads_back(c, floats),
{
    reveal_strlit("*");
    trimmed_already("*"@);
}

/// Several alternatives, or one that is not `*`, are not written as `*`.
proof fn alternatives_are_no_star(vs: Seq<TagV>, powers: bool)
    requires
        vs.len() > 0,
        forall|i: int| 0 <= i < vs.len() ==> expr_of(#[trigger] vs[i], powers).len() > 0,
        vs.len() == 1 ==> render(vs[0]) != "*"@,
    ensures
        join(exprs_of(vs, powers), "|"@) != "*"@,
{
    reveal_strlit("*");
    reveal_strlit("|");
    let parts = exprs_of(vs, powers);
    let t = join(parts, "|"@);
    if vs.len() == 1 {
        assert(t == expr_of(vs[0], powers));
        match vs[0] {
            TagV::Int(i) => {
                plain_expr(vs[0], powers);
            },
            _ => {},
        }
    } else {
        let head = parts.drop_last();
        assert forall|i: int| 0 <= i < head.len() implies (#[trigger] head[i]).len() > 0 by {
            assert(expr_of(vs[i], powers).len() > 0);
        }
        join_ends(head, "|"@);
        assert(expr_of(vs[vs.len() - 1], powers).len() > 0);
        assert(t =~= join(head, "|"@) + "|"@ + parts.last());
    }
}

#[verifier::spinoff_prover]
proof fn alternatives_round_trip(c: ClauseV, vs: Seq<TagV>, floats: Floats)
    requires
        canonical_clause(c, floats),
        c.matcher == MatchV::OneOf(vs),
    ensures
        match_reads_back(c, floats),
{
    reveal_strlit("|");
    let powers = writes_powers(c.key);
    let t = match_expr(c.matcher, powers);
    let parts = exprs_of(vs, powers);
    assert("|"@ =~= seq!['|']);
    assert forall|i: int| 0 <= i < parts.len() implies !(#[trigger] parts[i]).contains('|')
        && !parts[i].contains(',') && parts[i].len() > 0 && trim(parts[i]) == parts[i]
        && !contains_text(parts[i], ".."@) by {
        assert(alternative(vs[i], powers, floats));
        expr_is_trimmed(vs[i], powers, floats);
    }
    pieces_of_join(parts, '|');
    join_avoids(parts, "|"@, ',');
    join_ends(parts, "|"@);
    join_has_no_dots(parts);
    no_dots_is_none(t);
    ends_are_trimmed(parts[0]);
    ends_are_trimmed(parts[parts.len() - 1]);
    trimmed_already(t);
    alternatives_read(vs, powers, c.key, floats);
    assert forall|i: int| 0 <= i < vs.len() implies expr_of(#[trigger] vs[i], powers).len() > 0 by {
        assert(parts[i].len() > 0);
    }
    alternatives_are_no_star(vs, powers);
}

#[verifier::spinoff_prover]
proof fn range_round_trips(c: ClauseV, lo: TagV, hi: TagV, floats: Floats)
    requires
        canonical_clause(c, floats),
        c.matcher == (MatchV::Range { lo, hi }),
    ensures
        match_reads_back(c, floats),
{
    reveal_strlit("*");
    reveal_strlit("..");
    let powers = writes_powers(c.key);
    let t = match_expr(c.matcher, powers);
    let l = expr_of(lo, powers);
    let h = expr_of(hi, powers);
    expr_is_trimmed(lo, powers, floats);
    expr_is_trimmed(hi, powers, floats);
    value_round_trips(lo, powers, floats);
    value_round_trips(hi, powers, floats);
    ends_are_trimmed(l);
    ends_are_trimmed(h);
    assert(t[0] == l[0] && t.last() == h.last());
    trimmed_already(t);
    if t.contains(',') {
        let i = choose|i: int| 0 <= i < t.len() && t[i] == ',';
        if i < l.len() {
            assert(l[i] == ',');
        } else if i >= l.len() + 2 {
            assert(h[i - l.len() - 2] == ',');
        }
    }
    let at = l.len() as int;
    dots_at(t, at);
    assert(t[at] == '.' && t[at + 1] == '.');
    assert forall|j: int| 0 <= j < at implies !stands_at(t, ".."@, j) by {
        dots_at(t, j);
        dots_at(l, j);
        if stands_at(t, ".."@, j) {
            if j + 1 < at {
                assert(stands_at(l, ".."@, j));
            } else {
                assert(t[j] == l.last());
            }
        }
    }
    find_text_is(t, ".."@, at);
    assert(t.take(at) =~= l);
    assert(t.skip(at + 2) =~= h);
    assert(t.len() > 1);
}

/// The text of a matcher reads as the matcher.
proof fn match_round_trips(c: ClauseV, floats: Floats)
    requires
        canonical_clause(c, floats),
    ensures
        match_reads_back(c, floats),
{
    match c.matcher {
        MatchV::Any => {
            any_round_trips(c, floats);
        },
        MatchV::OneOf(vs) => {
            alternatives_round_trip(c, vs, floats);
        },
        MatchV::Range { lo, hi } => {
            range_round_trips(c, lo, hi, floats);
        },
    }
}

/// The ends of a trimmed text are no white space.
proof fn ends_are_trimmed(t: Seq<char>)
    requires
        t.len() > 0,
        trim(t) == t,
    ensures
        !is_space(t[0]),
        !is_space(t.last()),
{
    let (lo, hi) = trim_bounds(t);
    assert(t.len() == hi - lo);
}

proof fn alternatives_read(vs: Seq<TagV>, powers: bool, key: Seq<char>, floats: Floats)
    requires
        forall|i: int| 0 <= i < vs.len() ==> alternative(#[trigger] vs[i], powers, floats),
    ensures
        read_alternatives(exprs_of(vs, powers), key, floats) == Ok::<Seq<TagV>, SelectorErrorV>(vs),
    decreases vs.len(),
{
    let parts = exprs_of(vs, powers);
    if vs.len() > 0 {
        let head = vs.drop_last();
        alternatives_read(head, powers, key, floats);
        assert(parts.drop_last() =~= exprs_of(head, powers));
        assert(alternative(vs[vs.len() - 1], powers, floats));
        value_round_trips(vs.last(), powers, floats);
        assert(head.push(vs.last()) =~= vs);
    } else {
        assert(vs =~= Seq::empty());
    }
}

/// The text of a clause is trimmed, is not empty, holds no comma, and reads as the
/// clause.
proof fn clause_round_trips(c: ClauseV, floats: Floats)
    requires
        canonical_clause(c, floats),
    ensures
        clause_expr(c).len() > 0,
        trim(clause_expr(c)) == clause_expr(c),
        !clause_expr(c).contains(','),
        read_clause(clause_expr(c), floats) == Ok::<ClauseV, SelectorErrorV>(c),
{
    match_round_trips(c, floats);
    reveal_strlit("!");
    reveal_strlit("");
    reveal_strlit("=");
    let m = match_expr(c.matcher, writes_powers(c.key));
    let body = c.key + "="@ + m;
    let raw = clause_expr(c);
    ends_are_trimmed(m);
    ends_are_trimmed(c.key);
    assert(body[0] == c.key[0] && body.last() == m.last());
    trimmed_already(body);
    if c.negated {
        assert(raw =~= "!"@ + body);
        assert("!"@.is_prefix_of(raw));
        assert(raw.skip(1) =~= body);
        assert(raw[0] == '!' && raw.last() == m.last());
    } else {
        assert(raw =~= body);
        if "!"@.is_prefix_of(raw) {
            assert("!"@[0] == '!');
            assert(raw[0] == '!');
        }
    }
    trimmed_already(raw);
    if raw.contains(',') {
        let i = choose|i: int| 0 <= i < raw.len() && raw[i] == ',';
        let shift = if c.negated {
            1int
        } else {
            0int
        };
        if i >= shift {
            assert(body[i - shift] == ',');
            if i - shift < c.key.len() {
                assert(c.key[i - shift] == ',');
            } else if i - shift > c.key.len() {
                assert(m[i - shift - c.key.len() - 1] == ',');
            }
        }
    }
    let at = c.key.len() as int;
    assert(body[at] == '=');
    assert forall|j: int| 0 <= j < at implies body[j] != '=' by {
        assert(body[j] == c.key[j]);
        assert(c.key.contains(c.key[j]));
    }
    find_is(body, '=', at);
    assert(body.take(at) =~= c.key);
    assert(body.skip(at + 1) =~= m);
}

proof fn clauses_read(s: Seq<ClauseV>, floats: Floats)
    requires
        forall|i: int| 0 <= i < s.len() ==> canonical_clause(#[trigger] s[i], floats),
    ensures
        read_clauses(clause_exprs(s), floats) == Ok::<Seq<ClauseV>, SelectorErrorV>(s),
    decreases s.len(),
{
    let parts = clause_exprs(s);
    if s.len() > 0 {
        let head = s.drop_last();
        clauses_read(head, floats);
        assert(parts.drop_last() =~= clause_exprs(head));
        assert(canonical_clause(s[s.len() - 1], floats));
        clause_round_trips(s.last(), floats);
        assert(head.push(s.last()) =~= s);
    } else {
        assert(s =~= Seq::empty());
    }
}

/// A selector of canonical clauses is read back from its own text.
pub proof fn canonical_selector_round_trips(s: Seq<ClauseV>, floats: Floats)
    requires
        s.len() > 0,
        forall|i: int| 0 <= i < s.len() ==> canonical_clause(#[trigger] s[i], floats),
    ensures
        read_selector(selector_expr(s), floats) == Ok::<Seq<ClauseV>, SelectorErrorV>(s),
{
    reveal_strlit(",");
    assert(","@ =~= seq![',']);
    let parts = clause_exprs(s);
    assert forall|i: int| 0 <= i < parts.len() implies !(#[trigger] parts[i]).contains(',')
        && parts[i].len() > 0 && trim(parts[i]) == parts[i] by {
        assert(canonical_clause(s[i], floats));
        clause_round_trips(s[i], floats);
    }
    pieces_of_join(parts, ',');
    clauses_read(s, floats);
}

// ---------------------------------------------------------------- what was read can be written

/// A number with a fraction has the text that the machine prints for it.
pub open spec fn plain_float(v: TagV, floats: Floats) -> bool {
    v matches TagV::Float { bits, text } ==> floats.prints(bits, text)
}

/// What is written of a plain number with a fraction is made of digits, dots and a minus
/// sign, and is no integer.
proof fn float_expr_shape(v: TagV, floats: Floats)
    requires
        v is Float,
        plain_float(v, floats),
    ensures
        nameable(v, floats),
        ({
            let t = float_expr(v->text);
            &&& forall|i: int|
                0 <= i < t.len() ==> is_digit(#[trigger] t[i]) || t[i] == '-' || t[i] == '.'
            &&& !t.contains(',') && !t.contains('|') && !t.contains('*')
            &&& !contains_text(t, ".."@) && t.last() != '.'
        }),
{
    reveal_strlit("2^");
    reveal_strlit(".0");
    let text = v->text;
    let t = float_expr(text);
    assert forall|i: int| 0 <= i < t.len() implies is_digit(#[trigger] t[i]) || t[i] == '-' || t[i]
        == '.' by {
        if i < text.len() {
            assert(t[i] == text[i]);
        }
    }
    assert(is_digit(t[0]) || t[0] == '-' || t[0] == '.');
    let z = t.len() - 1;
    assert(is_digit(t[z]) || t[z] == '-' || t[z] == '.');
    trimmed_already(t);
    if "2^"@.is_prefix_of(t) {
        assert("2^"@[1] == '^');
        assert(t[1] == '^');
    }
    if t.contains(',') || t.contains('|') || t.contains('*') {
        let i = choose|i: int| 0 <= i < t.len() && (t[i] == ',' || t[i] == '|' || t[i] == '*');
        assert(is_digit(t[i]) || t[i] == '-' || t[i] == '.');
    }
    if t != text {
        if contains_text(t, ".."@) {
            let at = choose|at: int| stands_at(t, ".."@, at);
            dots_at(t, at);
            if at + 1 < text.len() {
                dots_at(text, at);
                assert(stands_at(text, ".."@, at));
            }
        }
        fractions_are_no_integers(text);
    }
}

/// With its fraction spelled out, a text is no integer.
proof fn fractions_are_no_integers(text: Seq<char>)
    ensures
        read_signed(text + ".0"@, i64::MIN as int, i64::MAX as int) is None,
{
    reveal_strlit(".0");
    let t = text + ".0"@;
    let n = text.len() as int;
    assert(t[n] == '.');
    if n > 0 {
        let body = if t[0] == '-' {
            t.drop_first()
        } else {
            after_plus(t)
        };
        if body.len() < t.len() {
            assert(body[n - 1] == '.');
        } else {
            assert(body[n] == '.');
        }
    } else {
        assert(t[0] == '.');
        assert(after_plus(t) == t);
    }
}

/// A value that was read is nameable, and its text holds no character that the
/// text it was read from did not hold.
proof fn read_value_is_plain(t: Seq<char>, v: TagV, powers: bool, floats: Floats)
    requires
        read_value(t, floats) == Ok::<TagV, TagErrorV>(v),
        floats.faithful() || plain_float(v, floats),
    ensures
        nameable(v, floats),
        plain_float(v, floats),
        !t.contains(',') ==> !expr_of(v, powers).contains(','),
        !t.contains('|') ==> !expr_of(v, powers).contains('|'),
        !contains_text(t, ".."@) ==> !contains_text(expr_of(v, powers), ".."@),
        v is Word || expr_of(v, powers).last() != '.',
        v matches TagV::Word(w) ==> expr_of(v, powers) == w && w.len() > 0,
{
    reveal_strlit("2^");
    reveal_strlit("true");
    reveal_strlit("false");
    let w = trim(t);
    trim_twice(t);
    let (lo, hi) = trim_bounds(t);
    match v {
        TagV::Int(i) => {
            plain_expr(v, powers);
            no_dot_no_dots(expr_of(v, powers));
            if "2^"@.is_prefix_of(w) {
                let n = crate::text::read_unsigned(w.skip(2), u32::MAX as nat)->Some_0;
                vstd::arithmetic::power2::lemma2_to64();
                vstd::arithmetic::power2::lemma2_to64_rest();
                vstd::arithmetic::power2::lemma_pow2_strictly_increases(n, 63);
            }
        },
        TagV::Bool(b) => {
            plain_expr(v, powers);
            no_dot_no_dots(expr_of(v, powers));
        },
        TagV::Word(x) => {
            if !t.contains(',') {
                trim_avoids(t, ',');
            }
            if !t.contains('|') {
                trim_avoids(t, '|');
            }
            if !contains_text(t, ".."@) {
                part_has_no_dots(t, lo, hi);
            }
        },
        TagV::Float { .. } => {
            assert(floats.reading(w) is Finite);
            float_expr_shape(v, floats);
        },
    }
}

proof fn alternative_at(parts: Seq<Seq<char>>, key: Seq<char>, vs: Seq<TagV>, i: int, floats: Floats)
    requires
        read_alternatives(parts, key, floats) == Ok::<Seq<TagV>, SelectorErrorV>(vs),
        0 <= i < vs.len(),
    ensures
        vs.len() == parts.len(),
        read_value(parts[i], floats) == Ok::<TagV, TagErrorV>(vs[i]),
    decreases parts.len(),
{
    alternatives_len(parts, key, vs, floats);
    if i < parts.len() - 1 {
        let head = read_alternatives(parts.drop_last(), key, floats)->Ok_0;
        alternatives_len(parts.drop_last(), key, head, floats);
        alternative_at(parts.drop_last(), key, head, i, floats);
    }
}

proof fn alternatives_len(parts: Seq<Seq<char>>, key: Seq<char>, vs: Seq<TagV>, floats: Floats)
    requires
        read_alternatives(parts, key, floats) == Ok::<Seq<TagV>, SelectorErrorV>(vs),
    ensures
        vs.len() == parts.len(),
    decreases parts.len(),
{
    if parts.len() > 0 {
        let head = read_alternatives(parts.drop_last(), key, floats)->Ok_0;
        alternatives_len(parts.drop_last(), key, head, floats);
    }
}

proof fn clause_read_at(parts: Seq<Seq<char>>, s: Seq<ClauseV>, i: int, floats: Floats)
    requires
        read_clauses(parts, floats) == Ok::<Seq<ClauseV>, SelectorErrorV>(s),
        0 <= i < s.len(),
    ensures
        s.len() == parts.len(),
        read_clause(parts[i], floats) == Ok::<ClauseV, SelectorErrorV>(s[i]),
    decreases parts.len(),
{
    clauses_len(parts, s, floats);
    if i < parts.len() - 1 {
        let head = read_clauses(parts.drop_last(), floats)->Ok_0;
        clauses_len(parts.drop_last(), head, floats);
        clause_read_at(parts.drop_last(), head, i, floats);
    }
}

proof fn clauses_len(parts: Seq<Seq<char>>, s: Seq<ClauseV>, floats: Floats)
    requires
        read_clauses(parts, floats) == Ok::<Seq<ClauseV>, SelectorErrorV>(s),
    ensures
        s.len() == parts.len(),
    decreases parts.len(),
{
    if parts.len() > 0 {
        let head = read_clauses(parts.drop_last(), floats)->Ok_0;
        clauses_len(parts.drop_last(), head, floats);
    }
}

/// A matcher that was read from a text without a comma can be written.
proof fn read_match_is_canonical(value: Seq<char>, c: ClauseV, floats: Floats)
    requires
        !value.contains(','),
        read_match(value, c.key, floats) == Ok::<MatchV, SelectorErrorV>(c.matcher),
        floats.faithful(),
        c.key.len() > 0,
        trim(c.key) == c.key,
        !c.key.contains('=') && !c.key.contains(','),
        c.negated || c.key[0] != '!',
    ensures
        canonical_clause(c, floats),
{
    reveal_strlit("*");
    reveal_strlit("true");
    reveal_strlit("false");
    let powers = writes_powers(c.key);
    no_dots_is_none(value);
    match c.matcher {
        MatchV::Any => {},
        MatchV::OneOf(vs) => {
            let parts = top_pieces(value, '|');
            assert forall|i: int| 0 <= i < vs.len() implies alternative(
                #[trigger] vs[i],
                powers,
                floats,
            ) by {
                alternative_at(parts, c.key, vs, i, floats);
                top_piece(value, '|', i);
                read_value_is_plain(parts[i], vs[i], powers, floats);
            }
            if vs.len() == 1 {
                assert(alternative(vs[0], powers, floats));
                if render(vs[0]) == "*"@ {
                    match vs[0] {
                        TagV::Int(i) => {
                            plain_expr(vs[0], false);
                        },
                        TagV::Float { .. } => {
                            alternative_at(parts, c.key, vs, 0, floats);
                            read_value_is_plain(parts[0], vs[0], powers, floats);
                            float_text_is_no_star(vs[0], floats);
                        },
                        _ => {},
                    }
                }
            }
        },
        MatchV::Range { lo, hi } => {
            let at = find_text(value, ".."@)->Some_0;
            let l = value.take(at);
            let h = value.skip(at + 2);
            assert(l =~= value.subrange(0, at));
            assert(h =~= value.subrange(at + 2, value.len() as int));
            part_avoids(value, 0, at, ',');
            part_avoids(value, at + 2, value.len() as int, ',');
            read_value_is_plain(l, lo, powers, floats);
            read_value_is_plain(h, hi, powers, floats);
        },
    }
}

/// The key of a clause that was read from a trimmed text without a comma.
proof fn read_key_is_plain(raw: Seq<char>, c: ClauseV, floats: Floats)
    requires
        raw.len() > 0,
        trim(raw) == raw,
        !raw.contains(','),
        read_clause(raw, floats) == Ok::<ClauseV, SelectorErrorV>(c),
    ensures
        c.key.len() > 0,
        trim(c.key) == c.key,
        !c.key.contains('=') && !c.key.contains(','),
        c.negated || c.key[0] != '!',
{
    reveal_strlit("!");
    let negated = "!"@.is_prefix_of(raw);
    let body = if negated {
        trim(raw.skip(1))
    } else {
        raw
    };
    if negated {
        assert(raw.skip(1) =~= raw.subrange(1, raw.len() as int));
        part_avoids(raw, 1, raw.len() as int, ',');
        trim_avoids(raw.skip(1), ',');
    }
    let at = find(body, '=');
    find_bounds(body, '=');
    let k = body.take(at);
    assert(k =~= body.subrange(0, at));
    part_avoids(body, 0, at, ',');
    trim_avoids(k, ',');
    trim_twice(k);
    if k.contains('=') {
        let j = choose|j: int| 0 <= j < k.len() && k[j] == '=';
        assert(body[j] == '=');
    }
    trim_avoids(k, '=');
    if !negated {
        ends_are_trimmed(raw);
        if raw[0] == '!' {
            assert("!"@ =~= raw.subrange(0, 1));
            assert("!"@.is_prefix_of(raw));
        }
        assert(k[0] == raw[0]);
        trim_keeps_first(k);
    }
}

/// A clause that was read from a trimmed text without a comma can be written.
proof fn read_clause_is_canonical(raw: Seq<char>, c: ClauseV, floats: Floats)
    requires
        raw.len() > 0,
        trim(raw) == raw,
        !raw.contains(','),
        read_clause(raw, floats) == Ok::<ClauseV, SelectorErrorV>(c),
        floats.faithful(),
    ensures
        canonical_clause(c, floats),
{
    reveal_strlit("!");
    read_key_is_plain(raw, c, floats);
    let negated = "!"@.is_prefix_of(raw);
    let body = if negated {
        trim(raw.skip(1))
    } else {
        raw
    };
    if negated {
        assert(raw.skip(1) =~= raw.subrange(1, raw.len() as int));
        part_avoids(raw, 1, raw.len() as int, ',');
        trim_avoids(raw.skip(1), ',');
    }
    let at = find(body, '=');
    find_bounds(body, '=');
    let v = body.skip(at + 1);
    assert(v =~= body.subrange(at + 1, body.len() as int));
    part_avoids(body, at + 1, body.len() as int, ',');
    trim_avoids(v, ',');
    read_match_is_canonical(trim(v), c, floats);
}

/// Trimming keeps a first character that is no white space.
proof fn trim_keeps_first(s: Seq<char>)
    requires
        s.len() > 0,
        !is_space(s[0]),
    ensures
        trim(s).len() > 0,
        trim(s)[0] == s[0],
{
    trim_start_is_skip(s, 0);
    assert(s.skip(0) =~= s);
    let hi = space_start(s, s.len() as int);
    trim_end_is_take(s, hi);
    if hi == 0 {
        assert(is_space(s[0]));
    }
}

/// What was read can be written and read again: the text of a selector that was
/// read from any expression reads as the same selector.
pub proof fn selector_round_trips(expr: Seq<char>, s: Seq<ClauseV>, floats: Floats)
    requires
        read_selector(expr, floats) == Ok::<Seq<ClauseV>, SelectorErrorV>(s),
        floats.faithful(),
    ensures
        read_selector(selector_expr(s), floats) == Ok::<Seq<ClauseV>, SelectorErrorV>(s),
{
    let parts = top_pieces(expr, ',');
    assert forall|i: int| 0 <= i < s.len() implies canonical_clause(#[trigger] s[i], floats) by {
        clause_read_at(parts, s, i, floats);
        top_piece(expr, ',', i);
        read_clause_is_canonical(parts[i], s[i], floats);
    }
    canonical_selector_round_trips(s, floats);
}

// ---------------------------------------------------------------- what admits itself

/// A text without a separator is one piece, if any.
proof fn lone_piece(s: Seq<char>, sep: char)
    requires
        !s.contains(sep),
    ensures
        top_pieces(s, sep) == if trim(s).len() > 0 {
            seq![trim(s)]
        } else {
            Seq::empty()
        },
{
    find_bounds(s, sep);
    assert(split(s, sep) =~= seq![s]);
    reveal_with_fuel(keep_pieces, 2);
    assert(seq![s].drop_last() =~= Seq::<Seq<char>>::empty());
    assert(top_pieces(s, sep) =~= if trim(s).len() > 0 {
        seq![trim(s)]
    } else {
        Seq::empty()
    });
}

/// A clause that starts with its own key is not negated, and its value is the rest.
proof fn clause_on_its_key(key: Seq<char>, rest: Seq<char>, c: ClauseV, floats: Floats)
    requires
        key.len() > 0,
        trim(key) == key,
        !key.contains('='),
        read_clause(key + seq!['='] + rest, floats) == Ok::<ClauseV, SelectorErrorV>(c),
        c.key == key,
    ensures
        !c.negated,
        key[0] != '!',
        read_match(trim(rest), key, floats) == Ok::<MatchV, SelectorErrorV>(c.matcher),
{
    reveal_strlit("!");
    let raw = key + seq!['='] + rest;
    if "!"@.is_prefix_of(raw) {
        let tail = raw.skip(1);
        let body = trim(tail);
        let (lo, hi) = trim_bounds(tail);
        let at = find(body, '=');
        find_bounds(body, '=');
        assert(tail[key.len() - 1] == '=');
        assert(lo < key.len() <= hi);
        assert(body[key.len() - 1 - lo] == '=');
        assert(at < key.len());
        let (x, y) = trim_bounds(body.take(at));
        assert(trim(body.take(at)).len() <= at < key.len());
        assert(false);
    } else {
        assert(raw[0] == key[0]);
        if key[0] == '!' {
            assert("!"@ =~= raw.subrange(0, 1));
        }
        assert forall|j: int| 0 <= j < key.len() implies raw[j] != '=' by {
            assert(key[j] == raw[j]);
            assert(key.contains(key[j]));
        }
        find_is(raw, '=', key.len() as int);
        assert(raw.take(key.len() as int) =~= key);
        assert(raw.skip(key.len() as int + 1) =~= rest);
    }
}

/// The text of a value that is no word holds none of the grammar's characters.
proof fn numbers_are_plain(v: TagV, floats: Floats)
    requires
        !(v is Word),
        plain_float(v, floats),
    ensures
        !render(v).contains(',') && !render(v).contains('|') && !contains_text(render(v), ".."@),
        trim(render(v)) != "*"@,
{
    match v {
        TagV::Float { bits, text } => {
            if text.contains(',') || text.contains('|') {
                let i = choose|i: int| 0 <= i < text.len() && (text[i] == ',' || text[i] == '|');
                assert(is_digit(text[i]) || text[i] == '-' || text[i] == '.');
            }
            float_text_is_no_star(v, floats);
        },
        _ => {
            plain_expr(v, false);
            assert(expr_of(v, false) == render(v));
            no_dot_no_dots(render(v));
        },
    }
}

proof fn float_text_is_no_star(v: TagV, floats: Floats)
    requires
        v is Float,
        plain_float(v, floats),
    ensures
        trim(render(v)) != "*"@,
        render(v) != "*"@,
{
    reveal_strlit("*");
    let text = v->text;
    assert(is_digit(text[0]) || text[0] == '-' || text[0] == '.');
    let z = text.len() - 1;
    assert(is_digit(text[z]) || text[z] == '-' || text[z] == '.');
    trimmed_already(text);
    assert("*"@[0] == '*');
}

/// A text that trims to `*` once the white space at its end is cut off trims to `*`.
proof fn star_in_space(t: Seq<char>, n: int)
    requires
        0 <= n <= t.len(),
        forall|j: int| n <= j < t.len() ==> is_space(#[trigger] t[j]),
        trim(t.take(n)) == "*"@,
    ensures
        trim(t) == "*"@,
{
    reveal_strlit("*");
    let (x, y) = trim_bounds(t.take(n));
    let (a, b) = trim_bounds(t);
    assert("*"@.len() == 1 && "*"@[0] == '*');
    assert(y == x + 1);
    assert(t[x] == '*') by {
        assert(t.take(n).subrange(x, y)[0] == t[x]);
    }
    assert(!is_space(t[x]));
    assert forall|j: int| 0 <= j < t.len() && j != x implies is_space(#[trigger] t[j]) by {
        if j < n {
            assert(t.take(n)[j] == t[j]);
        }
    }
    assert(a <= x < b);
    assert(a == x && b == x + 1);
    assert(trim(t) =~= "*"@);
}

/// A value that reads as itself behind a key can be pinned and printed: the clause that
/// pins the key to the value is read from its own text.
pub proof fn what_means_itself_can_be_written(
    key: Seq<char>,
    v: TagV,
    s: Seq<ClauseV>,
    floats: Floats,
)
    requires
        read_selector(key + "="@ + render(v), floats) == Ok::<Seq<ClauseV>, SelectorErrorV>(s),
        selector_admits(s, map![key => v], Seq::empty()),
        v matches TagV::Word(w) ==> !w.contains(',') && !w.contains('|') && !contains_text(
            w,
            ".."@,
        ) && trim(w) != "*"@,
        plain_float(v, floats),
    ensures
        canonical_clause(
            ClauseV { key, matcher: MatchV::OneOf(seq![v]), negated: false },
            floats,
        ),
{
    reveal_strlit("=");
    let t = render(v);
    let expr = key + "="@ + t;
    assert(expr =~= key + seq!['='] + t);
    let parts = top_pieces(expr, ',');
    clause_read_at(parts, s, 0, floats);
    top_piece(expr, ',', 0);
    read_key_is_plain(parts[0], s[0], floats);
    assert(clause_admits(s[0], map![key => v]));
    assert(s[0].key == key);
    if !(v is Word) {
        numbers_are_plain(v, floats);
    }
    if expr.contains(',') {
        let i = choose|i: int| 0 <= i < expr.len() && expr[i] == ',';
        if i < key.len() {
            assert(key[i] == ',');
        } else if i > key.len() {
            assert(t[i - key.len() - 1] == ',');
        }
    }
    lone_piece(expr, ',');
    let (lo, hi) = trim_bounds(expr);
    ends_are_trimmed(key);
    assert(!is_space(expr[0]));
    assert(expr[key.len() as int] == '=');
    assert(lo == 0 && hi > key.len());
    let n = hi - key.len() - 1;
    let rest = t.take(n);
    assert(parts[0] =~= key + seq!['='] + rest);
    clause_on_its_key(key, rest, s[0], floats);
    let val = trim(rest);
    assert(rest =~= t.subrange(0, n));
    let (x, y) = trim_bounds(rest);
    part_avoids(t, 0, n, ',');
    part_avoids(t, 0, n, '|');
    part_has_no_dots(t, 0, n);
    trim_avoids(rest, ',');
    trim_avoids(rest, '|');
    part_has_no_dots(rest, x, y);
    assert forall|j: int| n <= j < t.len() implies is_space(#[trigger] t[j]) by {
        assert(expr[key.len() + 1 + j] == t[j]);
    }
    if val == "*"@ {
        star_in_space(t, n);
    }
    reads_as_itself(key, val, v, s[0].matcher, floats);
}

proof fn reads_as_itself(key: Seq<char>, val: Seq<char>, v: TagV, m: MatchV, floats: Floats)
    requires
        key.len() > 0,
        trim(key) == key,
        !key.contains('=') && !key.contains(','),
        key[0] != '!',
        !val.contains(',') && !val.contains('|') && !contains_text(val, ".."@),
        val != "*"@,
        read_match(val, key, floats) == Ok::<MatchV, SelectorErrorV>(m),
        hits(m, v),
        v matches TagV::Word(w) ==> trim(w) != "*"@,
        plain_float(v, floats),
    ensures
        canonical_clause(
            ClauseV { key, matcher: MatchV::OneOf(seq![v]), negated: false },
            floats,
        ),
{
    reveal_strlit("*");
    reveal_strlit("true");
    reveal_strlit("false");
    let powers = writes_powers(key);
    no_dots_is_none(val);
    lone_piece(val, '|');
    let parts = top_pieces(val, '|');
    let vs = m->OneOf_0;
    alternatives_len(parts, key, vs, floats);
    alternative_at(parts, key, vs, 0, floats);
    top_piece(val, '|', 0);
    let x = vs[0];
    assert(tag_eq(x, v));
    trimmed_already("*"@);
    match v {
        TagV::Float { .. } => {
            float_expr_shape(v, floats);
            float_text_is_no_star(v, floats);
        },
        _ => {
            read_value_is_plain(parts[0], v, powers, floats);
            if !(v is Word) {
                plain_expr(v, false);
            }
        },
    }
    let one = seq![v];
    assert forall|i: int| 0 <= i < one.len() implies alternative(#[trigger] one[i], powers, floats) by {
        assert(one[i] == v);
    }
}

// ---------------------------------------------------------------- what is admitted

/// A missing key satisfies no clause, negated or not.
pub proof fn missing_key_is_never_admitted(c: ClauseV, tags: Map<Seq<char>, TagV>)
    requires
        !tags.dom().contains(c.key),
    ensures
        !clause_admits(c, tags),
        !clause_admits(ClauseV { negated: !c.negated, ..c }, tags),
{
}

/// Where the key is present, exactly one of a clause and its negation admits.
pub proof fn negation_is_exact(c: ClauseV, tags: Map<Seq<char>, TagV>)
    requires
        tags.dom().contains(c.key),
    ensures
        clause_admits(c, tags) != clause_admits(ClauseV { negated: !c.negated, ..c }, tags),
{
}

/// No selector at all admits everything.
pub proof fn empty_set_admits_everything(tags: Map<Seq<char>, TagV>, params: Seq<Seq<char>>)
    ensures
        set_admits(Seq::empty(), tags, params),
{
}

/// Selectors union: a set of two non-empty halves admits what one of them admits.
pub proof fn selectors_union(
    a: Seq<Seq<ClauseV>>,
    b: Seq<Seq<ClauseV>>,
    tags: Map<Seq<char>, TagV>,
    params: Seq<Seq<char>>,
)
    requires
        a.len() > 0,
        b.len() > 0,
    ensures
        set_admits(a + b, tags, params) == (set_admits(a, tags, params) || set_admits(
            b,
            tags,
            params,
        )),
{
    let c = a + b;
    if set_admits(c, tags, params) {
        let i = choose|i: int| 0 <= i < c.len() && selector_admits(#[trigger] c[i], tags, params);
        if i < a.len() {
            assert(selector_admits(a[i], tags, params));
        } else {
            assert(selector_admits(b[i - a.len()], tags, params));
        }
    }
    if set_admits(a, tags, params) {
        let i = choose|i: int| 0 <= i < a.len() && selector_admits(#[trigger] a[i], tags, params);
        assert(selector_admits(c[i], tags, params));
    }
    if set_admits(b, tags, params) {
        let i = choose|i: int| 0 <= i < b.len() && selector_admits(#[trigger] b[i], tags, params);
        assert(selector_admits(c[i + a.len()], tags, params));
    }
}

/// Clauses on a param axis are deferred: a point that a selector admits belongs to
/// a case that the selector admits, when the point only adds the case's params to
/// the case's tags.
pub proof fn admitted_points_come_from_admitted_cases(
    s: Seq<ClauseV>,
    fixed: Map<Seq<char>, TagV>,
    point: Map<Seq<char>, TagV>,
    params: Seq<Seq<char>>,
)
    requires
        selector_admits(s, point, Seq::empty()),
        forall|k: Seq<char>|
            !params.contains(k) && #[trigger] point.dom().contains(k) ==> fixed.dom().contains(k)
                && fixed[k] == point[k],
    ensures
        selector_admits(s, fixed, params),
{
    assert forall|i: int| 0 <= i < s.len() && !params.contains((#[trigger] s[i]).key) implies clause_admits(
        s[i],
        fixed,
    ) by {
        assert(!Seq::<Seq<char>>::empty().contains(s[i].key));
        assert(clause_admits(s[i], point));
    }
}

} // verus!

