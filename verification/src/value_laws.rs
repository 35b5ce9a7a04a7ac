//! What values promise: how they compare, what falls under a matcher, and which of them a
//! vocabulary takes.

use crate::case::{width, CaseV};
use crate::catalog::{differs_at, shared_runner, varies};
use crate::data::DataV;
use crate::selector::{hits, listed, MatchV};
use crate::tag::{expr_of, render, tag_eq, tag_lt, total_key, TagErrorV, TagV};
use crate::text::{digits_value, text_lt, text_lt_irreflexive, text_lt_total, text_lt_transitive};
use crate::version::{semver_parts, semver_reading};
use crate::vocab::{core_def, core_verdict};
use vstd::prelude::*;

verus! {

/// A range holds every number from its lower end to its upper one, both ends too, and no
/// other.
pub proof fn ranges_hold_both_ends(lo: int, hi: int, v: int)
    ensures
        hits(MatchV::Range { lo: TagV::Int(lo), hi: TagV::Int(hi) }, TagV::Int(v)) <==> lo <= v
            <= hi,
{
}

/// A list of values holds those values, and a wildcard holds any.
pub proof fn lists_hold_their_values(vs: Seq<TagV>, v: TagV)
    ensures
        forall|i: int| 0 <= i < vs.len() ==> hits(MatchV::OneOf(vs), #[trigger] vs[i]),
        hits(MatchV::OneOf(vs), v) ==> exists|i: int| 0 <= i < vs.len() && tag_eq(#[trigger] vs[i], v),
        hits(MatchV::Any, v),
        hits(MatchV::OneOf(seq![v]), v),
{
    assert forall|i: int| 0 <= i < vs.len() implies hits(MatchV::OneOf(vs), #[trigger] vs[i]) by {
        assert(tag_eq(vs[i], vs[i]));
        assert(listed(vs, vs[i]));
    }
    assert(seq![v][0] == v);
    assert(tag_eq(seq![v][0], v));
    assert(listed(seq![v], v));
}

/// Numbers are ordered as numbers, words as texts, and what is off comes before what is on;
/// of two values that differ, one comes before the other.
pub proof fn values_are_ordered(a: TagV, b: TagV, c: TagV)
    ensures
        a matches TagV::Int(x) ==> b matches TagV::Int(y) ==> (tag_lt(a, b) <==> x < y),
        a matches TagV::Word(x) ==> b matches TagV::Word(y) ==> (tag_lt(a, b) <==> text_lt(x, y)),
        tag_lt(TagV::Bool(false), TagV::Bool(true)),
        tag_lt(a, b) || tag_lt(b, a) || tag_eq(a, b),
        !(tag_lt(a, b) && tag_lt(b, a)),
        tag_lt(a, b) && tag_lt(b, c) ==> tag_lt(a, c),
        a is Word && b is Int ==> tag_lt(a, b),
        a is Int && b is Float ==> tag_lt(a, b),
        a is Float && b is Bool ==> tag_lt(a, b),
{
    match (a, b) {
        (TagV::Word(x), TagV::Word(y)) => {
            text_lt_total(x, y);
            if text_lt(x, y) && text_lt(y, x) {
                text_lt_transitive(x, y, x);
                text_lt_irreflexive(x);
            }
            if let TagV::Word(z) = c {
                if text_lt(x, y) && text_lt(y, z) {
                    text_lt_transitive(x, y, z);
                }
            }
        },
        _ => {},
    }
}

/// Numbers with a fraction are ordered by their bits: of two that are not negative the one
/// of more bits is greater, of two that are negative the one of fewer, and a negative one
/// is below the others.
pub proof fn fractions_are_ordered(x: u64, y: u64)
    ensures
        x < y && y < 0x8000_0000_0000_0000 ==> total_key(x) < total_key(y),
        0x8000_0000_0000_0000 <= x && x < y ==> total_key(y) < total_key(x),
        y < 0x8000_0000_0000_0000 && x >= 0x8000_0000_0000_0000 ==> total_key(x) < total_key(y),
        total_key(x) == total_key(y) ==> x == y,
{
}

/// A core key takes a value exactly where it takes any, or lists it as it is written; a key
/// that is none takes nothing.
pub proof fn only_listed_values_are_taken(key: Seq<char>, value: TagV)
    ensures
        core_def(key) is None ==> core_verdict(key, value) == Err::<(), TagErrorV>(
            TagErrorV::UnknownKey(key),
        ),
        core_def(key) is Some ==> (core_verdict(key, value) is Ok <==> match core_def(
            key,
        )->Some_0.allowed {
            Some(list) => list.contains(render(value)),
            None => true,
        }),
        core_def(key) is Some && core_verdict(key, value) is Err ==> (core_verdict(
            key,
            value,
        )->Err_0 matches TagErrorV::NotAllowed { key: k, value: v, .. } && k == key && v == render(
            value,
        )),
{
}

/// Values that are written alike in a selector are the same number or the same word.
pub proof fn values_are_written_as_they_are(a: int, w: Seq<char>, powers: bool)
    ensures
        expr_of(TagV::Word(w), powers) == w,
        expr_of(TagV::Int(a), false) == render(TagV::Int(a)),
        render(TagV::Bool(true)) != render(TagV::Bool(false)),
{
    reveal_strlit("true");
    reveal_strlit("false");
    assert("true"@.len() == 4 && "false"@.len() == 5);
}

/// A version keeps its numbers, and is a pre-release or a build exactly where it says so.
pub proof fn versions_keep_their_parts(text: Seq<char>)
    ensures
        match semver_parts(text) {
            Ok(p) => {
                &&& semver_reading(text) is Ok
                &&& semver_reading(text)->Ok_0.major == p.0
                &&& semver_reading(text)->Ok_0.minor == p.1
                &&& semver_reading(text)->Ok_0.patch == p.2
                &&& semver_reading(text)->Ok_0.pre_release <==> p.3 != Seq::<char>::empty()
                &&& semver_reading(text)->Ok_0.build <==> p.4 != Seq::<char>::empty()
            },
            Err(e) => semver_reading(text) is Err && semver_reading(text)->Err_0 == e,
        },
{
    if let Ok(p) = semver_parts(text) {
        if p.3.len() == 0 {
            assert(p.3 =~= Seq::<char>::empty());
        }
        if p.4.len() == 0 {
            assert(p.4 =~= Seq::<char>::empty());
        }
    }
}

/// A scalar takes as many bytes as the bits in its name make, whatever else is the default.
pub proof fn scalars_are_as_wide_as_their_name(
    tags: Map<Seq<char>, TagV>,
    key: Seq<char>,
    default: int,
)
    requires
        tags.dom().contains(key),
    ensures
        ({
            let name = render(tags[key]);
            name == "f32"@ || name == "u32"@ || name == "f64"@ || name == "u64"@ || name == "u16"@
                ==> 8 * width(tags, key, default) == digits_value(name.skip(1))
        }),
{
    let name = render(tags[key]);
    reveal_strlit("f32");
    reveal_strlit("u32");
    reveal_strlit("f64");
    reveal_strlit("u64");
    reveal_strlit("u16");
    assert("f32"@[1] == '3' && "u32"@[1] == '3' && "f64"@[1] == '6' && "u64"@[1] == '6' && "u16"@[1]
        == '1');
    if name == "f32"@ || name == "u32"@ || name == "f64"@ || name == "u64"@ || name == "u16"@ {
        let t = name.skip(1);
        reveal_with_fuel(digits_value, 3);
        assert(t.len() == 2);
        assert(t.drop_last() =~= seq![t[0]]);
        assert(t.drop_last().drop_last() =~= Seq::<char>::empty());
        assert(t[0] == name[1] && t[1] == name[2]);
    }
}

/// A runner is shared by some cases exactly where there is a case and every one of them
/// has it.
pub proof fn shared_runners_are_everyones(cases: Seq<CaseV>, t: Seq<char>, i: int)
    ensures
        shared_runner(cases, t) && 0 <= i < cases.len() ==> cases[i].runners.contains(t),
        0 <= i < cases.len() && !cases[i].runners.contains(t) ==> !shared_runner(cases, t),
        cases.len() == 0 ==> !shared_runner(cases, t),
        cases.len() == 1 && cases[0].runners.contains(t) ==> shared_runner(cases, t),
{
}

/// A column is shown exactly where two cases differ under it.
pub proof fn columns_are_where_cases_differ(cases: Seq<CaseV>, key: Seq<char>, i: int, j: int)
    requires
        0 <= i < cases.len(),
        0 <= j < cases.len(),
    ensures
        cases[i].tags.dom().contains(key) && !cases[j].tags.dom().contains(key) ==> varies(cases, key),
        cases[i].tags.dom().contains(key) && cases[j].tags.dom().contains(key) && !tag_eq(
            cases[i].tags[key],
            cases[j].tags[key],
        ) ==> varies(cases, key),
        cases.len() == 1 ==> !varies(cases, key),
{
    if cases[i].tags.dom().contains(key) && !cases[j].tags.dom().contains(key) {
        assert(differs_at(cases, key, i, j));
    }
    if cases[i].tags.dom().contains(key) && cases[j].tags.dom().contains(key) && !tag_eq(
        cases[i].tags[key],
        cases[j].tags[key],
    ) {
        assert(differs_at(cases, key, i, j));
    }
}

/// What a table says of a key is what stands under the first entry of that key.
pub proof fn the_first_entry_of_a_key_counts(
    entries: Seq<(Seq<char>, DataV)>,
    key: Seq<char>,
    i: int,
)
    requires
        0 <= i < entries.len(),
        entries[i].0 == key,
        forall|j: int| 0 <= j < i ==> (#[trigger] entries[j]).0 != key,
    ensures
        DataV::Table(entries).get(key) == Some(entries[i].1),
    decreases entries.len(),
{
    if i > 0 {
        let rest = entries.drop_first();
        assert forall|j: int| 0 <= j < i - 1 implies (#[trigger] rest[j]).0 != key by {
            assert(rest[j] == entries[j + 1]);
        }
        assert(entries[0].0 != key);
        the_first_entry_of_a_key_counts(rest, key, i - 1);
    }
}

} // verus!
