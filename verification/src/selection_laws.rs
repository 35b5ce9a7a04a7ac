//! What a selection keeps and in what order, what it costs, and what it is told of.

use crate::case::{
    admitted, domain_values, footprint, kept, passes, passing, point_ms, reachable, some_pass,
    some_reach, spread, strides, taken, takes_value, axis_names, CaseV, DomainV, ParamV, Runner,
};
use crate::catalog::{
    bare_bound, bare_ref, declared_by, facts_in, heavy_points, points_with_id, reached,
    release_part, runnable, supporting, supports, surviving, total_ms, unmet_by,
    DriverFactsV, SubjectFactsV,
};
use crate::harness::Budget;
use crate::selector::{selector_admits, set_admits, ClauseV, MatchV};
use crate::tag::{render, tag_eq, TagV};
use crate::version::{at_least, numbers_lt, semver_reading, SemVer};
use vstd::prelude::*;

verus! {

// ---------------------------------------------------------------- domains

/// A range of integers goes from its lower end up in equal steps, as far as its upper end
/// and no farther: the upper end is in it where a step lands there.
pub proof fn ranges_step_from_end_to_end(lo: int, hi: int, step: int, i: int)
    requires
        step > 0,
        0 <= i,
    ensures
        i < strides(lo, hi, step).len() <==> lo + i * step <= hi,
        i < strides(lo, hi, step).len() ==> strides(lo, hi, step)[i] == TagV::Int(lo + i * step),
    decreases i,
{
    if lo <= hi {
        let rest = strides(lo + step, hi, step);
        assert(strides(lo, hi, step).len() == 1 + rest.len());
        if i > 0 {
            ranges_step_from_end_to_end(lo + step, hi, step, i - 1);
            assert(lo + step + (i - 1) * step == lo + i * step) by (nonlinear_arith);
            if i < strides(lo, hi, step).len() {
                assert(strides(lo, hi, step)[i] == rest[i - 1]);
            }
        } else {
            assert(0 * step == 0);
        }
    } else {
        assert(i * step >= 0) by (nonlinear_arith)
            requires
                i >= 0,
                step > 0,
        ;
    }
}

/// An integer is a value of a range exactly when a step lands on it.
pub proof fn ranges_hold_what_they_step_on(lo: int, hi: int, step: int, n: int)
    requires
        step > 0,
    ensures
        (exists|k: int| 0 <= k && #[trigger] (lo + k * step) == n && n <= hi) <==> domain_values(
            DomainV::IntRange { lo, hi, step },
        )->Some_0.contains(TagV::Int(n)),
{
    let all = strides(lo, hi, step);
    if exists|k: int| 0 <= k && #[trigger] (lo + k * step) == n && n <= hi {
        let k = choose|k: int| 0 <= k && #[trigger] (lo + k * step) == n && n <= hi;
        ranges_step_from_end_to_end(lo, hi, step, k);
        assert(all[k] == TagV::Int(n));
    }
    if all.contains(TagV::Int(n)) {
        let k = choose|k: int| 0 <= k < all.len() && all[k] == TagV::Int(n);
        ranges_step_from_end_to_end(lo, hi, step, k);
        assert(lo + k * step == n);
    }
}

// ---------------------------------------------------------------- what is kept

/// A clause keeps the values that pass it, and only those, where they stood.
pub proof fn clauses_keep_what_passes(c: ClauseV, vs: Seq<TagV>)
    ensures
        passing(c, vs) == vs.filter(|v: TagV| passes(c, v)),
    decreases vs.len(),
{
    reveal(Seq::filter);
    if vs.len() > 0 {
        clauses_keep_what_passes(c, vs.drop_last());
    } else {
        assert(vs =~= Seq::empty());
    }
}

/// An axis keeps the literals that it takes, and only those, where they stood.
pub proof fn axes_keep_what_they_take(p: ParamV, vs: Seq<TagV>)
    ensures
        taken(p, vs) == vs.filter(|v: TagV| takes_value(p, v)),
    decreases vs.len(),
{
    reveal(Seq::filter);
    if vs.len() > 0 {
        axes_keep_what_they_take(p, vs.drop_last());
    } else {
        assert(vs =~= Seq::empty());
    }
}

/// A selection keeps the values of a list that one of its selectors asks for, where they
/// stood.
pub proof fn selections_keep_what_is_asked_for(p: ParamV, set: Seq<Seq<ClauseV>>, vs: Seq<TagV>)
    ensures
        kept(p, set, false, vs) == vs.filter(|v: TagV| some_pass(set, p.key, v)),
        kept(p, set, true, vs) == vs.filter(
            |v: TagV| some_pass(set, p.key, v) || tag_eq(v, p.default),
        ),
    decreases vs.len(),
{
    reveal(Seq::filter);
    if vs.len() > 0 {
        selections_keep_what_is_asked_for(p, set, vs.drop_last());
    } else {
        assert(vs =~= Seq::empty());
    }
}

/// A selector keeps the points that it admits, and a selection those that a selector
/// reaches, where they stood.
pub proof fn points_stay_where_they_stood(
    c: CaseV,
    s: Seq<ClauseV>,
    set: Seq<Seq<ClauseV>>,
    points: Seq<Map<Seq<char>, TagV>>,
)
    ensures
        admitted(points, s) == points.filter(
            |p: Map<Seq<char>, TagV>| selector_admits(s, p, Seq::empty()),
        ),
        reachable(c, set, points) == points.filter(
            |p: Map<Seq<char>, TagV>| some_reach(c, set, p),
        ),
    decreases points.len(),
{
    reveal(Seq::filter);
    if points.len() > 0 {
        points_stay_where_they_stood(c, s, set, points.drop_last());
    } else {
        assert(points =~= Seq::empty());
    }
}

/// A case of the catalog survives a selection exactly when the selection admits its tags
/// and its driver is the one of the pin; the others are left out, and the order stays.
pub proof fn cases_stay_where_they_stood(
    cases: Seq<CaseV>,
    list: Seq<(Seq<char>, SubjectFactsV)>,
    set: Seq<Seq<ClauseV>>,
    subject: Seq<char>,
)
    ensures
        surviving(cases, list, set) == cases.filter(
            |c: CaseV| set_admits(set, c.tags, axis_names(c.params)) && runnable(list, c),
        ),
        declared_by(cases, subject) == cases.filter(|c: CaseV| c.subject == subject),
    decreases cases.len(),
{
    reveal(Seq::filter);
    if cases.len() > 0 {
        cases_stay_where_they_stood(cases.drop_last(), list, set, subject);
    } else {
        assert(cases =~= Seq::empty());
    }
}

/// An axis varies fastest when it is spread last: point `i` with value `j` stands at place
/// `i * values + j`.
pub proof fn the_last_axis_varies_fastest(
    points: Seq<Map<Seq<char>, TagV>>,
    key: Seq<char>,
    vs: Seq<TagV>,
    i: int,
    j: int,
)
    requires
        0 <= i < points.len(),
        0 <= j < vs.len(),
    ensures
        spread(points, key, vs).len() == points.len() * vs.len(),
        0 <= i * vs.len() + j < points.len() * vs.len(),
        spread(points, key, vs)[i * vs.len() + j] == points[i].insert(key, vs[j]),
    decreases points.len(),
{
    let t = points.drop_last();
    let n = vs.len() as int;
    let m = t.len() as int;
    assert((m + 1) * n == m * n + n) by (nonlinear_arith);
    spread_count(t, key, vs);
    if i < m {
        the_last_axis_varies_fastest(t, key, vs, i, j);
        assert(spread(points, key, vs)[i * n + j] == spread(t, key, vs)[i * n + j]);
    }
}

proof fn spread_count(points: Seq<Map<Seq<char>, TagV>>, key: Seq<char>, vs: Seq<TagV>)
    ensures
        spread(points, key, vs).len() == points.len() * vs.len(),
    decreases points.len(),
{
    if points.len() > 0 {
        spread_count(points.drop_last(), key, vs);
        let m = points.len() - 1;
        let n = vs.len() as int;
        assert((m + 1) * n == m * n + n) by (nonlinear_arith);
    } else {
        assert(0 * vs.len() == 0);
    }
}

// ---------------------------------------------------------------- memory

/// Every point that needs more than the budget is named, and no other, in their order.
pub proof fn heavy_points_are_named(points: Seq<(CaseV, Map<Seq<char>, TagV>)>, budget: int)
    ensures
        heavy_points(points, budget) == points.filter_map(
            |p: (CaseV, Map<Seq<char>, TagV>)|
                if footprint(p.1) matches Some(n) && n > budget {
                    Some(p.1)
                } else {
                    None
                },
        ),
    decreases points.len(),
{
    if points.len() > 0 {
        let t = points.drop_last();
        heavy_points_are_named(t, budget);
        let f = footprint(points.last().1);
        if f is Some && f->Some_0 > budget {
            assert(heavy_points(points, budget) =~= heavy_points(t, budget) + seq![
                points.last().1,
            ]);
        }
    }
}

/// Do the tags give a positive integer under a key?
pub open spec fn says(tags: Map<Seq<char>, TagV>, key: Seq<char>, n: int) -> bool {
    tags.dom().contains(key) && tags[key] == TagV::Int(n) && n > 0
}

/// Do the tags name this scalar under a key?
pub open spec fn names(tags: Map<Seq<char>, TagV>, key: Seq<char>, scalar: Seq<char>) -> bool {
    tags.dom().contains(key) && render(tags[key]) == scalar
}

/// The footprint of a point grows with what it stores: a row of coordinates and an index
/// for each point of the tree, eight bytes for a 64-bit scalar, four for a 32-bit one,
/// two for a 16-bit one.
pub proof fn footprints_count_what_is_stored(tags: Map<Seq<char>, TagV>, n: int, d: int)
    requires
        says(tags, "tree_size"@, n),
        says(tags, "dims"@, d),
    ensures
        names(tags, "axis"@, "f64"@) && names(tags, "idx"@, "u32"@) ==> footprint(tags) == Some(
            n * (8 * d + 4),
        ),
        names(tags, "axis"@, "f32"@) && names(tags, "idx"@, "u32"@) ==> footprint(tags) == Some(
            n * (4 * d + 4),
        ),
        names(tags, "axis"@, "f64"@) && names(tags, "idx"@, "u64"@) ==> footprint(tags) == Some(
            n * (8 * d + 8),
        ),
        names(tags, "axis"@, "f32"@) && names(tags, "idx"@, "u16"@) ==> footprint(tags) == Some(
            n * (4 * d + 2),
        ),
        !tags.dom().contains("axis"@) && !tags.dom().contains("idx"@) ==> footprint(tags) == Some(
            n * (8 * d + 4),
        ),
{
    reveal_strlit("f32");
    reveal_strlit("f64");
    reveal_strlit("u32");
    reveal_strlit("u64");
    reveal_strlit("u16");
    assert("f32"@[0] == 'f' && "f32"@[1] == '3' && "f64"@[1] == '6' && "u16"@[1] == '1');
    assert("u32"@[0] == 'u' && "u32"@[1] == '3' && "u64"@[0] == 'u' && "u64"@[1] == '6');
    assert("f64"@[0] == 'f' && "u16"@[0] == 'u');
    assert(d * 8 == 8 * d && d * 4 == 4 * d);
}

// ---------------------------------------------------------------- time

/// The ids of cases are distinct.
pub open spec fn distinct_ids(cases: Seq<CaseV>) -> bool {
    forall|i: int, j: int|
        0 <= i < j < cases.len() ==> (#[trigger] cases[i]).id != (#[trigger] cases[j]).id
}

/// Every point is of one of the cases.
pub open spec fn are_of(points: Seq<(CaseV, Map<Seq<char>, TagV>)>, cases: Seq<CaseV>) -> bool {
    forall|k: int|
        0 <= k < points.len() ==> exists|i: int|
            0 <= i < cases.len() && (#[trigger] cases[i]).id == (#[trigger] points[k]).0.id
}

spec fn counted(cases: Seq<CaseV>, points: Seq<(CaseV, Map<Seq<char>, TagV>)>) -> int
    decreases cases.len(),
{
    if cases.len() == 0 {
        0
    } else {
        counted(cases.drop_last(), points) + points_with_id(points, cases.last().id)
    }
}

spec fn one_if(cases: Seq<CaseV>, id: Seq<char>) -> int
    decreases cases.len(),
{
    if cases.len() == 0 {
        0
    } else {
        one_if(cases.drop_last(), id) + (if cases.last().id == id {
            1int
        } else {
            0int
        })
    }
}

proof fn one_point_more(
    cases: Seq<CaseV>,
    points: Seq<(CaseV, Map<Seq<char>, TagV>)>,
)
    requires
        points.len() > 0,
    ensures
        counted(cases, points) == counted(cases, points.drop_last()) + one_if(
            cases,
            points.last().0.id,
        ),
    decreases cases.len(),
{
    if cases.len() > 0 {
        one_point_more(cases.drop_last(), points);
    }
}

proof fn none_of(cases: Seq<CaseV>, id: Seq<char>)
    requires
        forall|i: int| 0 <= i < cases.len() ==> (#[trigger] cases[i]).id != id,
    ensures
        one_if(cases, id) == 0,
    decreases cases.len(),
{
    if cases.len() > 0 {
        assert(cases[cases.len() - 1].id != id);
        let t = cases.drop_last();
        assert forall|i: int| 0 <= i < t.len() implies (#[trigger] t[i]).id != id by {
            assert(cases[i].id != id);
        }
        none_of(t, id);
    }
}

proof fn one_of(cases: Seq<CaseV>, id: Seq<char>, i: int)
    requires
        distinct_ids(cases),
        0 <= i < cases.len(),
        cases[i].id == id,
    ensures
        one_if(cases, id) == 1,
    decreases cases.len(),
{
    let t = cases.drop_last();
    assert forall|a: int, b: int| 0 <= a < b < t.len() implies (#[trigger] t[a]).id != (
    #[trigger] t[b]).id by {
        assert(cases[a].id != cases[b].id);
    }
    if i < t.len() {
        assert(cases[i].id != cases[cases.len() - 1].id);
        one_of(t, id, i);
    } else {
        assert forall|k: int| 0 <= k < t.len() implies (#[trigger] t[k]).id != id by {
            assert(cases[k].id != cases[i].id);
        }
        none_of(t, id);
    }
}

proof fn every_point_counts(cases: Seq<CaseV>, points: Seq<(CaseV, Map<Seq<char>, TagV>)>)
    requires
        distinct_ids(cases),
        are_of(points, cases),
    ensures
        counted(cases, points) == points.len(),
    decreases points.len(),
{
    if points.len() == 0 {
        nothing_counts(cases, points);
    } else {
        let t = points.drop_last();
        assert forall|k: int| 0 <= k < t.len() implies exists|i: int|
            0 <= i < cases.len() && (#[trigger] cases[i]).id == (#[trigger] t[k]).0.id by {
            assert(points[k] == t[k]);
        }
        every_point_counts(cases, t);
        one_point_more(cases, points);
        assert(points[points.len() - 1] == points.last());
        let i = choose|i: int|
            0 <= i < cases.len() && (#[trigger] cases[i]).id == points[points.len() - 1].0.id;
        one_of(cases, points.last().0.id, i);
    }
}

proof fn nothing_counts(cases: Seq<CaseV>, points: Seq<(CaseV, Map<Seq<char>, TagV>)>)
    requires
        points.len() == 0,
    ensures
        counted(cases, points) == 0,
    decreases cases.len(),
{
    if cases.len() > 0 {
        nothing_counts(cases.drop_last(), points);
    }
}

proof fn counts_are_points(points: Seq<(CaseV, Map<Seq<char>, TagV>)>, id: Seq<char>)
    ensures
        points_with_id(points, id) <= points.len(),
    decreases points.len(),
{
    if points.len() > 0 {
        counts_are_points(points.drop_last(), id);
    }
}

proof fn total_is_counted(
    cases: Seq<CaseV>,
    points: Seq<(CaseV, Map<Seq<char>, TagV>)>,
    runner: Runner,
    budget: Budget,
)
    requires
        points.len() <= u32::MAX,
    ensures
        total_ms(cases, points, runner, budget) == point_ms(runner, budget) * counted(cases, points),
    decreases cases.len(),
{
    let each = point_ms(runner, budget);
    if cases.len() > 0 {
        let t = cases.drop_last();
        total_is_counted(t, points, runner, budget);
        let n = points_with_id(points, cases.last().id) as int;
        counts_are_points(points, cases.last().id);
        assert(each * (counted(t, points) + n) == each * counted(t, points) + each * n)
            by (nonlinear_arith);
    } else {
        assert(each * 0 == 0);
    }
}

/// An estimate is what its points take, one after the other: under criterion each is
/// warmed up and measured; under perf each pays its process besides; the other runners
/// measure nothing. (Left out are selections of more points than a 32-bit count holds.)
pub proof fn estimates_add_up(
    cases: Seq<CaseV>,
    points: Seq<(CaseV, Map<Seq<char>, TagV>)>,
    budget: Budget,
)
    requires
        distinct_ids(cases),
        are_of(points, cases),
        points.len() <= u32::MAX,
    ensures
        total_ms(cases, points, Runner::Criterion, budget) == points.len() * (budget.warm_up_ms
            + budget.measurement_ms),
        total_ms(cases, points, Runner::Perf, budget) == points.len() * (budget.warm_up_ms
            + budget.measurement_ms + 2_000),
        total_ms(cases, points, Runner::Asm, budget) == 0,
        total_ms(cases, points, Runner::Mca, budget) == 0,
{
    every_point_counts(cases, points);
    total_is_counted(cases, points, Runner::Criterion, budget);
    total_is_counted(cases, points, Runner::Perf, budget);
    total_is_counted(cases, points, Runner::Asm, budget);
    total_is_counted(cases, points, Runner::Mca, budget);
    let n = points.len() as int;
    let a = budget.warm_up_ms + budget.measurement_ms;
    assert(a * n == n * a) by (nonlinear_arith);
    assert((a + 2_000) * n == n * (a + 2_000)) by (nonlinear_arith);
    assert(0 * n == 0);
}

// ---------------------------------------------------------------- what is reported

/// A request that is met is not reported: where every value that a selection asks for is
/// carried by some point, nothing is said.
pub proof fn met_requests_are_not_reported(
    points: Seq<(CaseV, Map<Seq<char>, TagV>)>,
    set: Seq<Seq<ClauseV>>,
    t: Seq<char>,
)
    requires
        forall|i: int, j: int|
            0 <= i < set.len() && 0 <= j < set[i].len() ==> (#[trigger] set[i][j]).negated || (
            match set[i][j].matcher {
                MatchV::OneOf(vs) => forall|k: int|
                    0 <= k < vs.len() ==> reached(
                        points,
                        set[i][j].key,
                        MatchV::OneOf(seq![#[trigger] vs[k]]),
                    ),
                m => reached(points, set[i][j].key, m),
            }),
    ensures
        !unmet_by(points, set, t),
{
    if unmet_by(points, set, t) {
        let (i, j) = choose|i: int, j: int|
            0 <= i < set.len() && 0 <= j < set[i].len() && crate::catalog::unmet(
                points,
                #[trigger] set[i][j],
                t,
            );
        let c = set[i][j];
        if let MatchV::OneOf(vs) = c.matcher {
            let k = choose|k: int|
                0 <= k < vs.len() && t == c.key + "="@ + crate::tag::expr_of(
                    #[trigger] vs[k],
                    crate::vocab::writes_powers(c.key),
                ) && !reached(points, c.key, MatchV::OneOf(seq![vs[k]]));
            assert(reached(points, c.key, MatchV::OneOf(seq![vs[k]])));
        }
    }
}

// ---------------------------------------------------------------- drivers

/// The facts of a name are those of its first entry.
pub proof fn facts_are_found_by_name(list: Seq<(Seq<char>, SubjectFactsV)>, i: int)
    requires
        0 <= i < list.len(),
        forall|j: int| 0 <= j < i ==> (#[trigger] list[j]).0 != list[i].0,
    ensures
        facts_in(list, list[i].0) == Some(list[i].1),
    decreases i,
{
    if i > 0 {
        assert(list[0].0 != list[i].0);
        let t = list.drop_first();
        assert forall|j: int| 0 <= j < i - 1 implies (#[trigger] t[j]).0 != t[i - 1].0 by {
            assert(list[j + 1].0 != list[i].0);
        }
        facts_are_found_by_name(t, i - 1);
    }
}

/// A pin is read as the version in it: without the leading `v`, `V` and `.`, and up to
/// the first `-` or `+`.
pub proof fn pins_are_read_as_versions(head: Seq<char>, version: Seq<char>, tail: Seq<char>)
    requires
        forall|i: int|
            0 <= i < head.len() ==> (#[trigger] head[i] == 'v' || head[i] == 'V' || head[i]
                == '.'),
        version.len() > 0,
        version[0] != 'v' && version[0] != 'V' && version[0] != '.',
        !version.contains('-') && !version.contains('+'),
        tail.len() > 0 ==> tail[0] == '-' || tail[0] == '+',
    ensures
        release_part(bare_ref(head + version + tail)) == version,
{
    let rest = version + tail;
    assert(head + version + tail =~= head + rest);
    strip_head(head, rest);
    cut_tail(version, tail);
}

proof fn strip_head(head: Seq<char>, rest: Seq<char>)
    requires
        forall|i: int|
            0 <= i < head.len() ==> (#[trigger] head[i] == 'v' || head[i] == 'V' || head[i]
                == '.'),
        rest.len() > 0,
        rest[0] != 'v' && rest[0] != 'V' && rest[0] != '.',
    ensures
        bare_ref(head + rest) == rest,
    decreases head.len(),
{
    if head.len() == 0 {
        assert(head + rest =~= rest);
    } else {
        assert((head + rest)[0] == head[0]);
        let t = head.drop_first();
        assert((head + rest).drop_first() =~= t + rest);
        assert forall|i: int| 0 <= i < t.len() implies (#[trigger] t[i] == 'v' || t[i] == 'V'
            || t[i] == '.') by {
            assert(head[i + 1] == 'v' || head[i + 1] == 'V' || head[i + 1] == '.');
        }
        strip_head(t, rest);
    }
}

proof fn cut_tail(version: Seq<char>, tail: Seq<char>)
    requires
        !version.contains('-') && !version.contains('+'),
        tail.len() > 0 ==> tail[0] == '-' || tail[0] == '+',
    ensures
        release_part(version + tail) == version,
    decreases version.len(),
{
    if version.len() == 0 {
        assert(version + tail =~= tail);
        assert(version =~= Seq::empty());
    } else {
        assert(version.contains(version[0]));
        let t = version.drop_first();
        assert((version + tail).drop_first() =~= t + tail);
        assert forall|c: char| t.contains(c) implies version.contains(c) by {
            let i = choose|i: int| 0 <= i < t.len() && t[i] == c;
            assert(version[i + 1] == c);
        }
        assert(!t.contains('-') && !t.contains('+'));
        cut_tail(t, tail);
        assert(seq![version[0]] + t =~= version);
    }
}

/// A driver's range holds its lower end and not its upper one: a release is supported
/// exactly when it is not below the one and is below the other.
pub proof fn ranges_hold_their_lower_end_only(
    d: DriverFactsV,
    lo: Seq<char>,
    hi: Seq<char>,
    min: SemVer,
    max: SemVer,
    v: SemVer,
)
    requires
        v.is_release() && min.is_release() && max.is_release(),
        semver_reading(bare_bound(lo)) == Ok::<SemVer, Seq<char>>(min),
        semver_reading(bare_bound(hi)) == Ok::<SemVer, Seq<char>>(max),
    ensures
        d.min_supported_semver == Some(lo) && d.max_supported_semver == Some(hi) ==> (supports(d, v)
            <==> !numbers_lt(v, min) && numbers_lt(v, max)),
        d.min_supported_semver == Some(lo) && d.max_supported_semver is None ==> (supports(d, v)
            <==> !numbers_lt(v, min)),
        d.min_supported_semver is None && d.max_supported_semver == Some(hi) ==> (supports(d, v)
            <==> numbers_lt(v, max)),
        d.min_supported_semver is None && d.max_supported_semver is None ==> supports(d, v),
{
}

/// Versions are ordered by their numbers, the major one first: exactly one of two is
/// below the other unless all three agree, and a release is at least its own pre-release.
pub proof fn versions_are_ordered(a: SemVer, b: SemVer)
    ensures
        !(numbers_lt(a, b) && numbers_lt(b, a)),
        !numbers_lt(a, b) && !numbers_lt(b, a) ==> a.major == b.major && a.minor == b.minor
            && a.patch == b.patch,
        a.major < b.major ==> numbers_lt(a, b),
        a.major == b.major && a.minor < b.minor ==> numbers_lt(a, b),
        a.major == b.major && a.minor == b.minor && a.patch < b.patch ==> numbers_lt(a, b),
        at_least(a, a) || a.build,
        a.is_release() && b.is_release() ==> (at_least(a, b) <==> !numbers_lt(a, b)),
{
}

/// The drivers that fit are those whose range holds the version, where they stood.
pub proof fn drivers_stay_where_they_stood(drivers: Seq<DriverFactsV>, v: SemVer)
    ensures
        supporting(drivers, v) == drivers.filter(|d: DriverFactsV| supports(d, v)),
    decreases drivers.len(),
{
    reveal(Seq::filter);
    if drivers.len() > 0 {
        drivers_stay_where_they_stood(drivers.drop_last(), v);
    } else {
        assert(drivers =~= Seq::empty());
    }
}

} // verus!
