//! What a catalog promises of a selection: repeated selectors are a union whose order does
//! not show, every point belongs to a case that matches, an axis that a selector does not
//! ask about stays at its default, no value leaves its domain, and sweeping a run-time axis
//! builds nothing new.

use crate::case::{
    admitted, axis_names, axis_values, combinations, domain_values, expansion, grid, holds_point,
    kept, passes, passing, point_ms, reach, reachable, some_ask, some_pass, some_reach, some_skip,
    spelled_out, spread, swept, swept_by, taken, takes_value, the_clause, with_values, CaseV, ParamV,
    Runner,
};
use crate::catalog::{
    axis_at, driver_of_pin, matching_cases, points_of, points_with_id, reached, runnable,
    selected_points, supporting, supports, surviving, total_ms, unmet, unmet_by, CatalogV,
    DriverFactsV, SubjectFactsV,
};
use crate::harness::Budget;
use crate::selector::{
    clause_admits, constrains, hits, listed, selector_admits, set_admits, ClauseV, MatchV,
};
use crate::tag::{expr_of, same_tags, tag_eq, TagV};
use crate::version::SemVer;
use crate::vocab::writes_powers;
use vstd::prelude::*;

verus! {

/// A case has at most one axis of a name.
pub open spec fn distinct_axes(c: CaseV) -> bool {
    forall|i: int, j: int|
        0 <= i < j < c.params.len() ==> (#[trigger] c.params[i]).key != (#[trigger] c.params[j]).key
}

/// Where a spread point comes from: the point it extends and the value it adds.
pub proof fn spread_from(points: Seq<Map<Seq<char>, TagV>>, key: Seq<char>, vs: Seq<TagV>, k: int) -> (r: (
    int,
    int,
))
    requires
        0 <= k < spread(points, key, vs).len(),
    ensures
        0 <= r.0 < points.len(),
        0 <= r.1 < vs.len(),
        spread(points, key, vs)[k] == points[r.0].insert(key, vs[r.1]),
    decreases points.len(),
{
    let rest = spread(points.drop_last(), key, vs);
    if k < rest.len() {
        spread_from(points.drop_last(), key, vs, k)
    } else {
        (points.len() - 1, k - rest.len())
    }
}

/// Where an admitted point stood among all points.
pub proof fn admitted_from(points: Seq<Map<Seq<char>, TagV>>, s: Seq<ClauseV>, k: int) -> (i: int)
    requires
        0 <= k < admitted(points, s).len(),
    ensures
        0 <= i < points.len(),
        admitted(points, s)[k] == points[i],
    decreases points.len(),
{
    let rest = admitted(points.drop_last(), s);
    if k < rest.len() {
        admitted_from(points.drop_last(), s, k)
    } else {
        points.len() - 1
    }
}

/// A combination keeps the tags off the axes, and every axis has a value to sweep.
pub proof fn combination_facts(
    tags: Map<Seq<char>, TagV>,
    params: Seq<ParamV>,
    s: Seq<ClauseV>,
    k: int,
)
    requires
        0 <= k < combinations(tags, params, s).len(),
    ensures
        forall|key: Seq<char>|
            !axis_names(params).contains(key) ==> {
                &&& #[trigger] combinations(tags, params, s)[k].dom().contains(key)
                    == tags.dom().contains(key)
                &&& tags.dom().contains(key) ==> combinations(tags, params, s)[k][key] == tags[key]
            },
        forall|j: int| 0 <= j < params.len() ==> swept(#[trigger] params[j], s).len() > 0,
    decreases params.len(),
{
    if params.len() > 0 {
        let t = params.drop_last();
        let p = params.last();
        let inner = combinations(tags, t, s);
        let (a, b) = spread_from(inner, p.key, swept(p, s), k);
        combination_facts(tags, t, s, a);
        let m = combinations(tags, params, s)[k];
        assert forall|key: Seq<char>| !axis_names(params).contains(key) implies {
            &&& #[trigger] m.dom().contains(key) == tags.dom().contains(key)
            &&& tags.dom().contains(key) ==> m[key] == tags[key]
        } by {
            assert(axis_names(params)[params.len() - 1] == p.key);
            if axis_names(t).contains(key) {
                let i = choose|i: int| 0 <= i < axis_names(t).len() && axis_names(t)[i] == key;
                assert(axis_names(params)[i] == key);
            }
            assert(inner[a].dom().contains(key) == tags.dom().contains(key));
            assert(key != p.key);
        }
        assert forall|j: int| 0 <= j < params.len() implies swept(
            #[trigger] params[j],
            s,
        ).len() > 0 by {
            if j < t.len() {
                assert(t[j] == params[j]);
            }
        }
    }
}

/// Where a point comes from: its case and its place among the points of the case.
pub proof fn points_from(cases: Seq<CaseV>, set: Seq<Seq<ClauseV>>, k: int) -> (r: (int, int))
    requires
        0 <= k < points_of(cases, set).len(),
    ensures
        0 <= r.0 < cases.len(),
        0 <= r.1 < expansion(cases[r.0], set).len(),
        points_of(cases, set)[k] == (cases[r.0], expansion(cases[r.0], set)[r.1]),
    decreases cases.len(),
{
    let rest = points_of(cases.drop_last(), set);
    if k < rest.len() {
        points_from(cases.drop_last(), set, k)
    } else {
        (cases.len() - 1, k - rest.len())
    }
}

/// Where a matching case stands in the catalog.
pub proof fn survivor_from(
    cases: Seq<CaseV>,
    list: Seq<(Seq<char>, SubjectFactsV)>,
    set: Seq<Seq<ClauseV>>,
    k: int,
) -> (i: int)
    requires
        0 <= k < surviving(cases, list, set).len(),
    ensures
        0 <= i < cases.len(),
        surviving(cases, list, set)[k] == cases[i],
        set_admits(set, cases[i].tags, axis_names(cases[i].params)),
        runnable(list, cases[i]),
    decreases cases.len(),
{
    let rest = surviving(cases.drop_last(), list, set);
    if k < rest.len() {
        survivor_from(cases.drop_last(), list, set, k)
    } else {
        cases.len() - 1
    }
}

/// What is found as the place of an axis is the first axis of that name.
pub proof fn axis_at_bounds(params: Seq<ParamV>, key: Seq<char>)
    ensures
        0 <= axis_at(params, key) <= params.len(),
        axis_at(params, key) < params.len() ==> params[axis_at(params, key)].key == key,
        forall|i: int| 0 <= i < axis_at(params, key) ==> (#[trigger] params[i]).key != key,
    decreases params.len(),
{
    if params.len() > 0 && params[0].key != key {
        let t = params.drop_first();
        axis_at_bounds(t, key);
        assert forall|i: int| 0 <= i < axis_at(params, key) implies (#[trigger] params[i]).key
            != key by {
            if i > 0 {
                assert(t[i - 1].key != key);
            }
        }
    }
}

/// What a selector reaches, it admits.
proof fn admitted_is_admitted(points: Seq<Map<Seq<char>, TagV>>, s: Seq<ClauseV>, k: int)
    requires
        0 <= k < admitted(points, s).len(),
    ensures
        selector_admits(s, admitted(points, s)[k], Seq::empty()),
    decreases points.len(),
{
    let rest = admitted(points.drop_last(), s);
    if k < rest.len() {
        admitted_is_admitted(points.drop_last(), s, k);
    }
}

/// Is this one of the selection's selectors? A selection without any is the selector
/// that asks for nothing.
pub open spec fn is_selected_by(set: Seq<Seq<ClauseV>>, s: Seq<ClauseV>) -> bool {
    if set.len() == 0 {
        s == Seq::<ClauseV>::empty()
    } else {
        set.contains(s)
    }
}

/// A combination of a selection keeps the tags off the axes.
proof fn grid_facts(
    tags: Map<Seq<char>, TagV>,
    params: Seq<ParamV>,
    set: Seq<Seq<ClauseV>>,
    k: int,
)
    requires
        0 <= k < grid(tags, params, set).len(),
    ensures
        forall|key: Seq<char>|
            !axis_names(params).contains(key) ==> {
                &&& #[trigger] grid(tags, params, set)[k].dom().contains(key)
                    == tags.dom().contains(key)
                &&& tags.dom().contains(key) ==> grid(tags, params, set)[k][key] == tags[key]
            },
    decreases params.len(),
{
    if params.len() > 0 {
        let t = params.drop_last();
        let p = params.last();
        let inner = grid(tags, t, set);
        let (a, b) = spread_from(inner, p.key, axis_values(p, set), k);
        grid_facts(tags, t, set, a);
        let m = grid(tags, params, set)[k];
        assert forall|key: Seq<char>| !axis_names(params).contains(key) implies {
            &&& #[trigger] m.dom().contains(key) == tags.dom().contains(key)
            &&& tags.dom().contains(key) ==> m[key] == tags[key]
        } by {
            assert(axis_names(params)[params.len() - 1] == p.key);
            if axis_names(t).contains(key) {
                let i = choose|i: int| 0 <= i < axis_names(t).len() && axis_names(t)[i] == key;
                assert(axis_names(params)[i] == key);
            }
            assert(inner[a].dom().contains(key) == tags.dom().contains(key));
            assert(key != p.key);
        }
    }
}

/// Where a reachable point stood among all points.
proof fn reachable_from(
    c: CaseV,
    set: Seq<Seq<ClauseV>>,
    points: Seq<Map<Seq<char>, TagV>>,
    k: int,
) -> (i: int)
    requires
        0 <= k < reachable(c, set, points).len(),
    ensures
        0 <= i < points.len(),
        reachable(c, set, points)[k] == points[i],
        some_reach(c, set, points[i]),
    decreases points.len(),
{
    let t = points.drop_last();
    let rest = reachable(c, set, t);
    if k < rest.len() {
        let i = reachable_from(c, set, t, k);
        assert(t[i] == points[i]);
        i
    } else {
        points.len() - 1
    }
}

/// What some selector reaches is reachable.
proof fn reachable_at(
    c: CaseV,
    set: Seq<Seq<ClauseV>>,
    points: Seq<Map<Seq<char>, TagV>>,
    i: int,
) -> (k: int)
    requires
        0 <= i < points.len(),
        some_reach(c, set, points[i]),
    ensures
        0 <= k < reachable(c, set, points).len(),
        reachable(c, set, points)[k] == points[i],
    decreases points.len(),
{
    let t = points.drop_last();
    let rest = reachable(c, set, t);
    if i == points.len() - 1 {
        rest.len() as int
    } else {
        let k = reachable_at(c, set, t, i);
        assert(reachable(c, set, points)[k] == rest[k]);
        k
    }
}

/// Where a point of an expansion comes from: the selector that reaches it, and its
/// place there.
pub proof fn expansion_from(c: CaseV, set: Seq<Seq<ClauseV>>, k: int) -> (r: (Seq<ClauseV>, int))
    requires
        0 <= k < expansion(c, set).len(),
    ensures
        is_selected_by(set, r.0),
        0 <= r.1 < reach(c, r.0).len(),
        same_tags(reach(c, r.0)[r.1], expansion(c, set)[k]),
{
    if set.len() == 0 {
        (Seq::empty(), k)
    } else {
        let points = grid(c.tags, c.params, set);
        let g = reachable_from(c, set, points, k);
        let i = choose|i: int|
            0 <= i < set.len() && holds_point(reach(c, #[trigger] set[i]), points[g]);
        let alone = reach(c, set[i]);
        let e = choose|e: int| 0 <= e < alone.len() && same_tags(#[trigger] alone[e], points[g]);
        assert(set.contains(set[i]));
        (set[i], e)
    }
}

/// The points of an expansion carry the case's tags off its axes.
proof fn expansion_keeps_tags(c: CaseV, set: Seq<Seq<ClauseV>>, k: int)
    requires
        0 <= k < expansion(c, set).len(),
    ensures
        forall|key: Seq<char>|
            !axis_names(c.params).contains(key) ==> {
                &&& #[trigger] expansion(c, set)[k].dom().contains(key) == c.tags.dom().contains(
                    key,
                )
                &&& c.tags.dom().contains(key) ==> expansion(c, set)[k][key] == c.tags[key]
            },
{
    if set.len() == 0 {
        reach_facts(c, Seq::empty(), k);
    } else {
        let points = grid(c.tags, c.params, set);
        let g = reachable_from(c, set, points, k);
        grid_facts(c.tags, c.params, set, g);
    }
}

/// Equal values are on the same side of a matcher.
proof fn equals_hit_alike(m: MatchV, a: TagV, b: TagV)
    requires
        tag_eq(a, b),
    ensures
        hits(m, a) == hits(m, b),
{
    if let MatchV::OneOf(vs) = m {
        if listed(vs, a) {
            let i = choose|i: int| 0 <= i < vs.len() && tag_eq(#[trigger] vs[i], a);
            assert(tag_eq(vs[i], b));
        }
        if listed(vs, b) {
            let i = choose|i: int| 0 <= i < vs.len() && tag_eq(#[trigger] vs[i], b);
            assert(tag_eq(vs[i], a));
        }
    }
}

/// What is admitted of a point is admitted of the same point.
proof fn same_tags_are_admitted_alike(
    s: Seq<ClauseV>,
    a: Map<Seq<char>, TagV>,
    b: Map<Seq<char>, TagV>,
)
    requires
        same_tags(a, b),
        selector_admits(s, a, Seq::empty()),
    ensures
        selector_admits(s, b, Seq::empty()),
{
    assert forall|i: int| 0 <= i < s.len() implies clause_admits(#[trigger] s[i], b) by {
        assert(clause_admits(s[i], a));
        assert(a.dom().contains(s[i].key) == b.dom().contains(s[i].key));
        equals_hit_alike(s[i].matcher, a[s[i].key], b[s[i].key]);
    }
}

/// What a selector reaches of a case carries the case's tags off its axes, so the
/// selector meets the case; and the selector admits it.
pub proof fn reach_facts(c: CaseV, s: Seq<ClauseV>, e: int)
    requires
        0 <= e < reach(c, s).len(),
    ensures
        selector_admits(s, reach(c, s)[e], Seq::empty()),
        selector_admits(s, c.tags, axis_names(c.params)),
        forall|key: Seq<char>|
            !axis_names(c.params).contains(key) ==> {
                &&& #[trigger] reach(c, s)[e].dom().contains(key) == c.tags.dom().contains(key)
                &&& c.tags.dom().contains(key) ==> reach(c, s)[e][key] == c.tags[key]
            },
{
    let all = combinations(c.tags, c.params, s);
    let from = admitted_from(all, s, e);
    combination_facts(c.tags, c.params, s, from);
    admitted_is_admitted(all, s, e);
    let m = reach(c, s)[e];
    assert(m == all[from]);
    assert forall|key: Seq<char>| !axis_names(c.params).contains(key) implies {
        &&& #[trigger] m.dom().contains(key) == c.tags.dom().contains(key)
        &&& c.tags.dom().contains(key) ==> m[key] == c.tags[key]
    } by {
        assert(all[from].dom().contains(key) == c.tags.dom().contains(key));
    }
    assert forall|i: int|
        0 <= i < s.len() && !axis_names(c.params).contains((#[trigger] s[i]).key) implies clause_admits(
        s[i],
        c.tags,
    ) by {
        assert(clause_admits(s[i], m));
        assert(m.dom().contains(s[i].key) == c.tags.dom().contains(s[i].key));
    }
}

/// Every point belongs to a case that matches the selection, carries that case's tags
/// off its axes, and is admitted by the selection as a whole.
pub proof fn points_belong_to_matching_cases(cat: CatalogV, set: Seq<Seq<ClauseV>>, k: int)
    requires
        0 <= k < selected_points(cat, set).len(),
    ensures
        ({
            let (c, tags) = selected_points(cat, set)[k];
            &&& matching_cases(cat, set).contains(c)
            &&& set_admits(set, tags, Seq::empty())
            &&& forall|key: Seq<char>|
                !axis_names(c.params).contains(key) ==> {
                    &&& #[trigger] tags.dom().contains(key) == c.tags.dom().contains(key)
                    &&& tags.dom().contains(key) ==> tags[key] == c.tags[key]
                }
        }),
{
    let cases = matching_cases(cat, set);
    let (i, e) = points_from(cases, set, k);
    let c = cases[i];
    let (s, q) = expansion_from(c, set, e);
    reach_facts(c, s, q);
    let tags = selected_points(cat, set)[k].1;
    same_tags_are_admitted_alike(s, reach(c, s)[q], tags);
    if set.len() > 0 {
        let h = choose|h: int| 0 <= h < set.len() && set[h] == s;
        assert(selector_admits(set[h], tags, Seq::empty()));
    }
    expansion_keeps_tags(c, set, e);
    assert(tags == expansion(c, set)[e]);
}

/// Every combination has, on every axis, a value that the axis is swept over.
proof fn axes_take_swept_values(
    tags: Map<Seq<char>, TagV>,
    params: Seq<ParamV>,
    s: Seq<ClauseV>,
    k: int,
    j: int,
)
    requires
        0 <= k < combinations(tags, params, s).len(),
        0 <= j < params.len(),
        forall|a: int, b: int|
            0 <= a < b < params.len() ==> (#[trigger] params[a]).key != (#[trigger] params[b]).key,
    ensures
        combinations(tags, params, s)[k].dom().contains(params[j].key),
        swept(params[j], s).contains(combinations(tags, params, s)[k][params[j].key]),
    decreases params.len(),
{
    let t = params.drop_last();
    let p = params.last();
    let inner = combinations(tags, t, s);
    let (a, b) = spread_from(inner, p.key, swept(p, s), k);
    if j < t.len() {
        assert forall|a: int, b: int| 0 <= a < b < t.len() implies (#[trigger] t[a]).key != (
        #[trigger] t[b]).key by {
            assert(params[a].key != params[b].key);
        }
        axes_take_swept_values(tags, t, s, a, j);
        assert(params[j].key != params[params.len() - 1].key);
    } else {
        assert(swept(p, s)[b] == swept(p, s)[b]);
    }
}

/// A point is what one of the selectors asks for: the selector admits it, and on every
/// axis of its case it takes a value that the selector sweeps the axis over, which is
/// the default where the selector says nothing about the axis.
pub proof fn points_take_swept_values(cat: CatalogV, set: Seq<Seq<ClauseV>>, k: int) -> (s: Seq<
    ClauseV,
>)
    requires
        0 <= k < selected_points(cat, set).len(),
        distinct_axes(selected_points(cat, set)[k].0),
    ensures
        is_selected_by(set, s),
        selector_admits(s, selected_points(cat, set)[k].1, Seq::empty()),
        ({
            let (c, tags) = selected_points(cat, set)[k];
            forall|j: int|
                0 <= j < c.params.len() ==> {
                    &&& tags.dom().contains((#[trigger] c.params[j]).key)
                    &&& listed(swept(c.params[j], s), tags[c.params[j].key])
                    &&& !constrains(s, c.params[j].key) ==> tag_eq(
                        c.params[j].default,
                        tags[c.params[j].key],
                    )
                }
        }),
{
    let cases = matching_cases(cat, set);
    let (i, e) = points_from(cases, set, k);
    let c = cases[i];
    let (s, q) = expansion_from(c, set, e);
    reach_facts(c, s, q);
    let all = combinations(c.tags, c.params, s);
    let from = admitted_from(all, s, q);
    let tags = selected_points(cat, set)[k].1;
    let own = reach(c, s)[q];
    assert(own == all[from]);
    same_tags_are_admitted_alike(s, own, tags);
    assert forall|j: int| 0 <= j < c.params.len() implies {
        &&& tags.dom().contains((#[trigger] c.params[j]).key)
        &&& listed(swept(c.params[j], s), tags[c.params[j].key])
        &&& !constrains(s, c.params[j].key) ==> tag_eq(
            c.params[j].default,
            tags[c.params[j].key],
        )
    } by {
        let key = c.params[j].key;
        let vs = swept(c.params[j], s);
        axes_take_swept_values(c.tags, c.params, s, from, j);
        assert(own.dom().contains(key) == tags.dom().contains(key));
        let v = choose|v: int| 0 <= v < vs.len() && vs[v] == own[key];
        assert(tag_eq(vs[v], tags[key]));
    }
    s
}

proof fn passing_is_member(c: ClauseV, members: Seq<TagV>, k: int)
    requires
        0 <= k < passing(c, members).len(),
    ensures
        members.contains(passing(c, members)[k]),
        passes(c, passing(c, members)[k]),
    decreases members.len(),
{
    let t = members.drop_last();
    let rest = passing(c, t);
    if k < rest.len() {
        passing_is_member(c, t, k);
        let i = choose|i: int| 0 <= i < t.len() && t[i] == rest[k];
        assert(members[i] == rest[k]);
    } else {
        assert(members[members.len() - 1] == members.last());
    }
}

proof fn passing_has(c: ClauseV, members: Seq<TagV>, i: int)
    requires
        0 <= i < members.len(),
        passes(c, members[i]),
    ensures
        passing(c, members).contains(members[i]),
    decreases members.len(),
{
    let rest = passing(c, members.drop_last());
    let all = passing(c, members);
    if i < members.len() - 1 {
        passing_has(c, members.drop_last(), i);
        let k = choose|k: int| 0 <= k < rest.len() && rest[k] == members[i];
        assert(all[k] == members[i]);
    } else {
        assert(all[rest.len() as int] == members[i]);
    }
}

/// A selector that asks about an axis with a closed domain sweeps it over exactly the
/// values of the domain that its clause admits.
pub proof fn sweeps_are_what_is_admitted(p: ParamV, s: Seq<ClauseV>, v: TagV)
    requires
        domain_values(p.domain) is Some,
        constrains(s, p.key),
    ensures
        swept(p, s).contains(v) <==> domain_values(p.domain)->Some_0.contains(v) && passes(
            the_clause(s, p.key),
            v,
        ),
{
    let members = domain_values(p.domain)->Some_0;
    let c = the_clause(s, p.key);
    if swept(p, s).contains(v) {
        let k = choose|k: int| 0 <= k < swept(p, s).len() && swept(p, s)[k] == v;
        passing_is_member(c, members, k);
    }
    if members.contains(v) && passes(c, v) {
        let i = choose|i: int| 0 <= i < members.len() && members[i] == v;
        passing_has(c, members, i);
    }
}

proof fn taken_is_taken(p: ParamV, vs: Seq<TagV>, k: int)
    requires
        0 <= k < taken(p, vs).len(),
    ensures
        takes_value(p, taken(p, vs)[k]),
        vs.contains(taken(p, vs)[k]),
    decreases vs.len(),
{
    let t = vs.drop_last();
    let rest = taken(p, t);
    if k < rest.len() {
        taken_is_taken(p, t, k);
        let i = choose|i: int| 0 <= i < t.len() && t[i] == rest[k];
        assert(vs[i] == rest[k]);
    } else {
        assert(vs[vs.len() - 1] == vs.last());
    }
}

/// No sweep leaves the domain, nor what the selector admits: a value that an axis is
/// swept over is the default, or a value of the domain, and passes the selector's clause
/// on the axis where there is one.
pub proof fn sweeps_stay_in_the_domain(p: ParamV, s: Seq<ClauseV>, v: TagV)
    requires
        swept(p, s).contains(v),
    ensures
        match domain_values(p.domain) {
            Some(members) => members.contains(v) || (v == p.default && !constrains(s, p.key)),
            None => takes_value(p, v),
        },
        constrains(s, p.key) ==> passes(the_clause(s, p.key), v),
{
    let all = swept(p, s);
    let k = choose|k: int| 0 <= k < all.len() && all[k] == v;
    if constrains(s, p.key) {
        let c = the_clause(s, p.key);
        match domain_values(p.domain) {
            Some(members) => {
                passing_is_member(c, members, k);
            },
            None => match c.matcher {
                MatchV::OneOf(vs) if !c.negated => {
                    taken_is_taken(p, vs, k);
                    let i = choose|i: int| 0 <= i < vs.len() && vs[i] == v;
                    assert(tag_eq(vs[i], v));
                },
                _ => {
                    passing_is_member(c, seq![p.default], k);
                },
            },
        }
    }
}

// ---------------------------------------------------------------- unions

proof fn same_tags_chain(a: Map<Seq<char>, TagV>, b: Map<Seq<char>, TagV>, c: Map<Seq<char>, TagV>)
    requires
        same_tags(a, b),
        same_tags(b, c),
    ensures
        same_tags(a, c),
{
    assert forall|k: Seq<char>|
        (#[trigger] a.dom().contains(k)) == c.dom().contains(k) && (a.dom().contains(k) ==> tag_eq(
            a[k],
            c[k],
        )) by {
        assert(a.dom().contains(k) == b.dom().contains(k));
        assert(b.dom().contains(k) == c.dom().contains(k));
    }
}

proof fn same_tags_back(a: Map<Seq<char>, TagV>, b: Map<Seq<char>, TagV>)
    requires
        same_tags(a, b),
    ensures
        same_tags(b, a),
{
    assert forall|k: Seq<char>|
        (#[trigger] b.dom().contains(k)) == a.dom().contains(k) && (b.dom().contains(k) ==> tag_eq(
            b[k],
            a[k],
        )) by {
        assert(a.dom().contains(k) == b.dom().contains(k));
    }
}

/// The values of one selector are what it asks for.
proof fn one_selector_keeps(p: ParamV, s: Seq<ClauseV>, vs: Seq<TagV>)
    requires
        constrains(s, p.key),
    ensures
        kept(p, seq![s], false, vs) == passing(the_clause(s, p.key), vs),
    decreases vs.len(),
{
    if vs.len() > 0 {
        one_selector_keeps(p, s, vs.drop_last());
        let set = seq![s];
        assert(set[0] == s);
        assert(some_pass(set, p.key, vs.last()) == passes(the_clause(s, p.key), vs.last()));
    }
}

proof fn joins_nothing(more: Seq<TagV>)
    ensures
        with_values(Seq::empty(), more) == more,
    decreases more.len(),
{
    if more.len() > 0 {
        joins_nothing(more.drop_last());
        assert(more.drop_last().push(more.last()) =~= more);
    } else {
        assert(more =~= Seq::empty());
    }
}

/// With one selector, an axis has the values that the selector sweeps it over.
proof fn one_selector_sweeps(p: ParamV, s: Seq<ClauseV>)
    ensures
        axis_values(p, seq![s]) == swept(p, s),
{
    let set = seq![s];
    assert(set[0] == s);
    assert(some_ask(set, p.key) == constrains(s, p.key));
    assert(some_skip(set, p.key) == !constrains(s, p.key));
    if constrains(s, p.key) {
        match domain_values(p.domain) {
            Some(members) => {
                one_selector_keeps(p, s, members);
            },
            None => {
                assert(set.drop_last() =~= Seq::<Seq<ClauseV>>::empty());
                assert(spelled_out(p, set.drop_last()) =~= Seq::empty());
                joins_nothing(swept(p, s));
            },
        }
    }
}

proof fn one_selector_combines(tags: Map<Seq<char>, TagV>, params: Seq<ParamV>, s: Seq<ClauseV>)
    ensures
        grid(tags, params, seq![s]) == combinations(tags, params, s),
    decreases params.len(),
{
    if params.len() > 0 {
        one_selector_combines(tags, params.drop_last(), s);
        one_selector_sweeps(params.last(), s);
    }
}

/// Of what a selector combines, it reaches what it admits.
proof fn reachable_is_admitted(c: CaseV, s: Seq<ClauseV>, points: Seq<Map<Seq<char>, TagV>>)
    requires
        forall|i: int|
            0 <= i < points.len() ==> combinations(c.tags, c.params, s).contains(
                #[trigger] points[i],
            ),
    ensures
        reachable(c, seq![s], points) == admitted(points, s),
    decreases points.len(),
{
    if points.len() > 0 {
        let t = points.drop_last();
        assert forall|i: int| 0 <= i < t.len() implies combinations(
            c.tags,
            c.params,
            s,
        ).contains(#[trigger] t[i]) by {
            assert(t[i] == points[i]);
        }
        reachable_is_admitted(c, s, t);
        let set = seq![s];
        assert(set[0] == s);
        let p = points.last();
        let all = combinations(c.tags, c.params, s);
        assert(all.contains(points[points.len() - 1]));
        let alone = reach(c, s);
        if some_reach(c, set, p) {
            let e = choose|e: int| 0 <= e < alone.len() && same_tags(#[trigger] alone[e], p);
            reach_facts(c, s, e);
            same_tags_are_admitted_alike(s, alone[e], p);
        }
        if selector_admits(s, p, Seq::empty()) {
            let i = choose|i: int| 0 <= i < all.len() && all[i] == p;
            let e = admitted_at(all, s, i);
            assert(same_tags(alone[e], p));
            assert(holds_point(reach(c, set[0]), p));
        }
    }
}

/// Where a point that a selector admits stands among those that it admits.
pub proof fn admitted_at(points: Seq<Map<Seq<char>, TagV>>, s: Seq<ClauseV>, i: int) -> (k: int)
    requires
        0 <= i < points.len(),
        selector_admits(s, points[i], Seq::empty()),
    ensures
        0 <= k < admitted(points, s).len(),
        admitted(points, s)[k] == points[i],
    decreases points.len(),
{
    let rest = admitted(points.drop_last(), s);
    if i == points.len() - 1 {
        rest.len() as int
    } else {
        let k = admitted_at(points.drop_last(), s, i);
        assert(admitted(points, s)[k] == rest[k]);
        k
    }
}

/// With one selector, an expansion is what the selector reaches.
pub proof fn one_selector_reaches(c: CaseV, s: Seq<ClauseV>)
    ensures
        expansion(c, seq![s]) == reach(c, s),
{
    one_selector_combines(c.tags, c.params, s);
    reachable_is_admitted(c, s, combinations(c.tags, c.params, s));
}

/// A list that keeps what is asked for lists a value exactly when it is one of the
/// values, and is asked for.
proof fn kept_lists(
    p: ParamV,
    set: Seq<Seq<ClauseV>>,
    with_default: bool,
    vs: Seq<TagV>,
    v: TagV,
)
    ensures
        listed(kept(p, set, with_default, vs), v) <==> listed(vs, v) && (some_pass(set, p.key, v)
            || (with_default && tag_eq(p.default, v))),
    decreases vs.len(),
{
    if vs.len() > 0 {
        let t = vs.drop_last();
        let rest = kept(p, set, with_default, t);
        let all = kept(p, set, with_default, vs);
        kept_lists(p, set, with_default, t, v);
        if listed(t, v) {
            let i = choose|i: int| 0 <= i < t.len() && tag_eq(#[trigger] t[i], v);
            assert(tag_eq(vs[i], v));
        }
        if listed(rest, v) {
            let i = choose|i: int| 0 <= i < rest.len() && tag_eq(#[trigger] rest[i], v);
            assert(tag_eq(all[i], v));
        }
        if tag_eq(vs.last(), v) {
            some_pass_alike(set, p.key, vs.last(), v);
            assert(tag_eq(vs[vs.len() - 1], v));
            if all.len() > rest.len() {
                assert(tag_eq(all[rest.len() as int], v));
            }
        }
        if listed(all, v) && !listed(rest, v) {
            let i = choose|i: int| 0 <= i < all.len() && tag_eq(#[trigger] all[i], v);
            if i < rest.len() {
                assert(tag_eq(rest[i], v));
            }
        }
        if listed(vs, v) && !listed(t, v) {
            let i = choose|i: int| 0 <= i < vs.len() && tag_eq(#[trigger] vs[i], v);
            if i < t.len() {
                assert(tag_eq(t[i], v));
            }
        }
    }
}

proof fn some_pass_alike(set: Seq<Seq<ClauseV>>, key: Seq<char>, a: TagV, b: TagV)
    requires
        tag_eq(a, b),
    ensures
        some_pass(set, key, a) == some_pass(set, key, b),
{
    if some_pass(set, key, a) {
        let i = choose|i: int|
            0 <= i < set.len() && constrains(#[trigger] set[i], key) && passes(
                the_clause(set[i], key),
                a,
            );
        equals_hit_alike(the_clause(set[i], key).matcher, a, b);
        assert(passes(the_clause(set[i], key), b));
    }
    if some_pass(set, key, b) {
        let i = choose|i: int|
            0 <= i < set.len() && constrains(#[trigger] set[i], key) && passes(
                the_clause(set[i], key),
                b,
            );
        equals_hit_alike(the_clause(set[i], key).matcher, a, b);
        assert(passes(the_clause(set[i], key), a));
    }
}

/// What passes a clause is listed exactly when it is one of the values and passes.
proof fn passing_lists(c: ClauseV, vs: Seq<TagV>, v: TagV)
    ensures
        listed(passing(c, vs), v) <==> listed(vs, v) && passes(c, v),
{
    let all = passing(c, vs);
    if listed(all, v) {
        let k = choose|k: int| 0 <= k < all.len() && tag_eq(#[trigger] all[k], v);
        passing_is_member(c, vs, k);
        let i = choose|i: int| 0 <= i < vs.len() && vs[i] == all[k];
        assert(tag_eq(vs[i], v));
        equals_hit_alike(c.matcher, all[k], v);
    }
    if listed(vs, v) && passes(c, v) {
        let i = choose|i: int| 0 <= i < vs.len() && tag_eq(#[trigger] vs[i], v);
        equals_hit_alike(c.matcher, vs[i], v);
        passing_has(c, vs, i);
        let k = choose|k: int| 0 <= k < all.len() && all[k] == vs[i];
        assert(tag_eq(all[k], v));
    }
}

proof fn spelled_out_lists(p: ParamV, set: Seq<Seq<ClauseV>>, v: TagV)
    ensures
        listed(spelled_out(p, set), v) <==> exists|i: int|
            0 <= i < set.len() && constrains(#[trigger] set[i], p.key) && listed(
                swept(p, set[i]),
                v,
            ),
    decreases set.len(),
{
    if set.len() > 0 {
        let t = set.drop_last();
        spelled_out_lists(p, t, v);
        with_values_lists_both(spelled_out(p, t), swept(p, set.last()), v);
        if listed(spelled_out(p, t), v) {
            let i = choose|i: int|
                0 <= i < t.len() && constrains(#[trigger] t[i], p.key) && listed(swept(p, t[i]), v);
            assert(set[i] == t[i]);
        }
        if constrains(set.last(), p.key) && listed(swept(p, set.last()), v) {
            assert(set[set.len() - 1] == set.last());
        }
        if exists|i: int|
            0 <= i < set.len() && constrains(#[trigger] set[i], p.key) && listed(
                swept(p, set[i]),
                v,
            ) {
            let i = choose|i: int|
                0 <= i < set.len() && constrains(#[trigger] set[i], p.key) && listed(
                    swept(p, set[i]),
                    v,
                );
            if i < t.len() {
                assert(t[i] == set[i]);
            }
        }
    }
}

/// What a selection asks for on an axis is what some selector that asks sweeps it over.
pub proof fn what_is_asked_unites(p: ParamV, set: Seq<Seq<ClauseV>>, v: TagV)
    requires
        some_ask(set, p.key),
    ensures
        listed(swept_by(p, set), v) <==> exists|i: int|
            0 <= i < set.len() && constrains(#[trigger] set[i], p.key) && listed(
                swept(p, set[i]),
                v,
            ),
{
    match domain_values(p.domain) {
        Some(members) => {
            kept_lists(p, set, false, members, v);
            if listed(swept_by(p, set), v) {
                let i = choose|i: int|
                    0 <= i < set.len() && constrains(#[trigger] set[i], p.key) && passes(
                        the_clause(set[i], p.key),
                        v,
                    );
                passing_lists(the_clause(set[i], p.key), members, v);
                assert(listed(swept(p, set[i]), v));
            }
            if exists|i: int|
                0 <= i < set.len() && constrains(#[trigger] set[i], p.key) && listed(
                    swept(p, set[i]),
                    v,
                ) {
                let i = choose|i: int|
                    0 <= i < set.len() && constrains(#[trigger] set[i], p.key) && listed(
                        swept(p, set[i]),
                        v,
                    );
                passing_lists(the_clause(set[i], p.key), members, v);
                assert(some_pass(set, p.key, v));
            }
        },
        None => {
            spelled_out_lists(p, set, v);
        },
    }
}

/// The points of a selection have on an axis what any of its selectors sweeps it over:
/// one that says nothing about the axis brings the default, whatever the others pin.
pub proof fn sweeps_unite(p: ParamV, set: Seq<Seq<ClauseV>>, v: TagV)
    requires
        set.len() > 0,
    ensures
        listed(axis_values(p, set), v) <==> exists|i: int|
            0 <= i < set.len() && listed(swept(p, #[trigger] set[i]), v),
{
    let default = seq![p.default];
    let all = axis_values(p, set);
    assert(listed(default, v) <==> tag_eq(p.default, v)) by {
        assert(default[0] == p.default);
    }
    if some_ask(set, p.key) {
        what_is_asked_unites(p, set, v);
        let asked = swept_by(p, set);
        if some_skip(set, p.key) {
            let h = choose|h: int| 0 <= h < set.len() && !constrains(#[trigger] set[h], p.key);
            assert(swept(p, set[h]) == default);
            match domain_values(p.domain) {
                Some(members) => {
                    kept_lists(p, set, false, members, v);
                    kept_lists(p, set, true, members, v);
                    let k = kept(p, set, true, members);
                    if listed(members, p.default) {
                        if tag_eq(p.default, v) {
                            let i = choose|i: int|
                                0 <= i < members.len() && tag_eq(#[trigger] members[i], p.default);
                            assert(tag_eq(members[i], v));
                        }
                    } else {
                        assert(all[k.len() as int] == p.default);
                        if listed(k, v) {
                            let i = choose|i: int| 0 <= i < k.len() && tag_eq(#[trigger] k[i], v);
                            assert(tag_eq(all[i], v));
                        }
                        if listed(all, v) && !listed(k, v) {
                            let i = choose|i: int|
                                0 <= i < all.len() && tag_eq(#[trigger] all[i], v);
                            if i < k.len() {
                                assert(tag_eq(k[i], v));
                            }
                        }
                    }
                },
                None => {
                    with_values_lists_both(spelled_out(p, set), default, v);
                },
            }
            assert(listed(all, v) <==> listed(asked, v) || tag_eq(p.default, v));
        }
    } else {
        assert(swept(p, set[0]) == default);
    }
    if listed(all, v) {
        if some_ask(set, p.key) && listed(swept_by(p, set), v) {
            let i = choose|i: int|
                0 <= i < set.len() && constrains(#[trigger] set[i], p.key) && listed(
                    swept(p, set[i]),
                    v,
                );
            assert(listed(swept(p, set[i]), v));
        }
    }
    if exists|i: int| 0 <= i < set.len() && listed(swept(p, #[trigger] set[i]), v) {
        let i = choose|i: int| 0 <= i < set.len() && listed(swept(p, #[trigger] set[i]), v);
        if !constrains(set[i], p.key) {
            assert(swept(p, set[i]) == default);
        }
    }
}

/// Every point that a selector combines is among the combinations of the selection.
proof fn grid_has(
    tags: Map<Seq<char>, TagV>,
    params: Seq<ParamV>,
    set: Seq<Seq<ClauseV>>,
    h: int,
    k: int,
) -> (g: int)
    requires
        0 <= h < set.len(),
        0 <= k < combinations(tags, params, set[h]).len(),
    ensures
        0 <= g < grid(tags, params, set).len(),
        same_tags(combinations(tags, params, set[h])[k], grid(tags, params, set)[g]),
    decreases params.len(),
{
    if params.len() == 0 {
        0
    } else {
        let t = params.drop_last();
        let p = params.last();
        let own = swept(p, set[h]);
        let (a, b) = spread_from(combinations(tags, t, set[h]), p.key, own, k);
        let ga = grid_has(tags, t, set, h, a);
        let vs = axis_values(p, set);
        assert(tag_eq(own[b], own[b]));
        assert(listed(swept(p, set[h]), own[b]));
        sweeps_unite(p, set, own[b]);
        let gb = choose|i: int| 0 <= i < vs.len() && tag_eq(#[trigger] vs[i], own[b]);
        let g = spread_at(grid(tags, t, set), p.key, vs, ga, gb);
        let x = combinations(tags, t, set[h])[a];
        let y = grid(tags, t, set)[ga];
        assert forall|key: Seq<char>|
            (#[trigger] x.insert(p.key, own[b]).dom().contains(key)) == y.insert(
                p.key,
                vs[gb],
            ).dom().contains(key) && (x.insert(p.key, own[b]).dom().contains(key) ==> tag_eq(
                x.insert(p.key, own[b])[key],
                y.insert(p.key, vs[gb])[key],
            )) by {
            assert(x.dom().contains(key) == y.dom().contains(key));
        }
        g
    }
}

/// Where a point extended by a value stands among the spread points.
pub proof fn spread_at(
    points: Seq<Map<Seq<char>, TagV>>,
    key: Seq<char>,
    vs: Seq<TagV>,
    i: int,
    j: int,
) -> (k: int)
    requires
        0 <= i < points.len(),
        0 <= j < vs.len(),
    ensures
        0 <= k < spread(points, key, vs).len(),
        spread(points, key, vs)[k] == points[i].insert(key, vs[j]),
    decreases points.len(),
{
    let rest = spread(points.drop_last(), key, vs);
    if i == points.len() - 1 {
        rest.len() + j
    } else {
        let k = spread_at(points.drop_last(), key, vs, i, j);
        assert(spread(points, key, vs)[k] == rest[k]);
        k
    }
}

/// Repeated selectors are a union: a case has a point under a selection exactly when it
/// has the point under one of the selectors alone. What one selector pins does not touch
/// the others.
pub proof fn expansions_unite(c: CaseV, set: Seq<Seq<ClauseV>>, p: Map<Seq<char>, TagV>)
    requires
        set.len() > 0,
    ensures
        holds_point(expansion(c, set), p) <==> exists|i: int|
            0 <= i < set.len() && holds_point(expansion(c, seq![#[trigger] set[i]]), p),
{
    let all = expansion(c, set);
    let points = grid(c.tags, c.params, set);
    if holds_point(all, p) {
        let k = choose|k: int| 0 <= k < all.len() && same_tags(#[trigger] all[k], p);
        let (s, q) = expansion_from(c, set, k);
        let i = choose|i: int| 0 <= i < set.len() && set[i] == s;
        one_selector_reaches(c, set[i]);
        same_tags_chain(reach(c, s)[q], all[k], p);
        assert(same_tags(expansion(c, seq![set[i]])[q], p));
    }
    if exists|i: int| 0 <= i < set.len() && holds_point(expansion(c, seq![#[trigger] set[i]]), p) {
        let i = choose|i: int|
            0 <= i < set.len() && holds_point(expansion(c, seq![#[trigger] set[i]]), p);
        one_selector_reaches(c, set[i]);
        let alone = reach(c, set[i]);
        let q = choose|q: int| 0 <= q < alone.len() && same_tags(#[trigger] alone[q], p);
        let from = admitted_from(combinations(c.tags, c.params, set[i]), set[i], q);
        let g = grid_has(c.tags, c.params, set, i, from);
        assert(same_tags(alone[q], points[g]));
        assert(holds_point(reach(c, set[i]), points[g]));
        let k = reachable_at(c, set, points, g);
        assert(same_tags(points[g], alone[q])) by {
            same_tags_back(alone[q], points[g]);
        }
        same_tags_chain(points[g], alone[q], p);
        assert(same_tags(all[k], p));
    }
}

/// A case that the selection admits is among those that match.
pub proof fn survivor_at(
    cases: Seq<CaseV>,
    list: Seq<(Seq<char>, SubjectFactsV)>,
    set: Seq<Seq<ClauseV>>,
    i: int,
) -> (k: int)
    requires
        0 <= i < cases.len(),
        set_admits(set, cases[i].tags, axis_names(cases[i].params)),
        runnable(list, cases[i]),
    ensures
        0 <= k < surviving(cases, list, set).len(),
        surviving(cases, list, set)[k] == cases[i],
    decreases cases.len(),
{
    let rest = surviving(cases.drop_last(), list, set);
    if i == cases.len() - 1 {
        rest.len() as int
    } else {
        let k = survivor_at(cases.drop_last(), list, set, i);
        assert(surviving(cases, list, set)[k] == rest[k]);
        k
    }
}

/// Every point of a case's expansion is a point of the cases.
proof fn points_at(cases: Seq<CaseV>, set: Seq<Seq<ClauseV>>, i: int, e: int) -> (k: int)
    requires
        0 <= i < cases.len(),
        0 <= e < expansion(cases[i], set).len(),
    ensures
        0 <= k < points_of(cases, set).len(),
        points_of(cases, set)[k] == (cases[i], expansion(cases[i], set)[e]),
    decreases cases.len(),
{
    let rest = points_of(cases.drop_last(), set);
    if i == cases.len() - 1 {
        rest.len() + e
    } else {
        let k = points_at(cases.drop_last(), set, i, e);
        assert(points_of(cases, set)[k] == rest[k]);
        k
    }
}

/// Is the point of this case among those selected?
pub open spec fn selects(
    cat: CatalogV,
    set: Seq<Seq<ClauseV>>,
    c: CaseV,
    p: Map<Seq<char>, TagV>,
) -> bool {
    exists|k: int|
        0 <= k < selected_points(cat, set).len() && (#[trigger] selected_points(cat, set)[k]).0 == c
            && same_tags(selected_points(cat, set)[k].1, p)
}

/// A catalog that selects a point of a case holds the case, which can be run, and its
/// expansion holds the point.
proof fn selected_from(
    cat: CatalogV,
    set: Seq<Seq<ClauseV>>,
    c: CaseV,
    p: Map<Seq<char>, TagV>,
) -> (h: int)
    requires
        selects(cat, set, c, p),
    ensures
        0 <= h < cat.cases.len(),
        cat.cases[h] == c,
        runnable(cat.subjects, c),
        holds_point(expansion(c, set), p),
{
    let points = selected_points(cat, set);
    let k = choose|k: int|
        0 <= k < points.len() && (#[trigger] points[k]).0 == c && same_tags(points[k].1, p);
    let (i, e) = points_from(matching_cases(cat, set), set, k);
    assert(same_tags(expansion(c, set)[e], p));
    survivor_from(cat.cases, cat.subjects, set, i)
}

/// A case that can be run, of whose points the selection reaches one, brings that point.
proof fn selected_at(
    cat: CatalogV,
    set: Seq<Seq<ClauseV>>,
    h: int,
    p: Map<Seq<char>, TagV>,
)
    requires
        0 <= h < cat.cases.len(),
        runnable(cat.subjects, cat.cases[h]),
        holds_point(expansion(cat.cases[h], set), p),
    ensures
        selects(cat, set, cat.cases[h], p),
{
    let c = cat.cases[h];
    let all = expansion(c, set);
    let e = choose|e: int| 0 <= e < all.len() && same_tags(#[trigger] all[e], p);
    let (s, q) = expansion_from(c, set, e);
    reach_facts(c, s, q);
    assert(set_admits(set, c.tags, axis_names(c.params))) by {
        if set.len() > 0 {
            let i = choose|i: int| 0 <= i < set.len() && set[i] == s;
            assert(selector_admits(set[i], c.tags, axis_names(c.params)));
        }
    }
    let i = survivor_at(cat.cases, cat.subjects, set, h);
    let k = points_at(matching_cases(cat, set), set, i, e);
    assert(selected_points(cat, set)[k].0 == c);
}

/// Repeated selectors select the union of what each selects, over the whole catalog.
pub proof fn selections_unite(
    cat: CatalogV,
    set: Seq<Seq<ClauseV>>,
    c: CaseV,
    p: Map<Seq<char>, TagV>,
)
    requires
        set.len() > 0,
    ensures
        selects(cat, set, c, p) <==> exists|i: int|
            0 <= i < set.len() && selects(cat, seq![#[trigger] set[i]], c, p),
{
    expansions_unite(c, set, p);
    if selects(cat, set, c, p) {
        let h = selected_from(cat, set, c, p);
        let i = choose|i: int|
            0 <= i < set.len() && holds_point(expansion(c, seq![#[trigger] set[i]]), p);
        selected_at(cat, seq![set[i]], h, p);
    }
    if exists|i: int| 0 <= i < set.len() && selects(cat, seq![#[trigger] set[i]], c, p) {
        let i = choose|i: int| 0 <= i < set.len() && selects(cat, seq![#[trigger] set[i]], c, p);
        let h = selected_from(cat, seq![set[i]], c, p);
        selected_at(cat, set, h, p);
    }
}

proof fn with_values_lists_both(vs: Seq<TagV>, more: Seq<TagV>, v: TagV)
    ensures
        listed(with_values(vs, more), v) <==> listed(vs, v) || listed(more, v),
    decreases more.len(),
{
    if more.len() > 0 {
        let t = more.drop_last();
        let rest = with_values(vs, t);
        let all = with_values(vs, more);
        with_values_lists_both(vs, t, v);
        if listed(rest, v) {
            let i = choose|i: int| 0 <= i < rest.len() && tag_eq(#[trigger] rest[i], v);
            assert(tag_eq(all[i], v));
        }
        if listed(t, v) {
            let i = choose|i: int| 0 <= i < t.len() && tag_eq(#[trigger] t[i], v);
            assert(tag_eq(more[i], v));
        }
        if listed(all, v) && !listed(rest, v) {
            let i = choose|i: int| 0 <= i < all.len() && tag_eq(#[trigger] all[i], v);
            if i < rest.len() {
                assert(tag_eq(rest[i], v));
            }
            assert(tag_eq(more[more.len() - 1], v));
        }
        if listed(more, v) && !listed(t, v) {
            let i = choose|i: int| 0 <= i < more.len() && tag_eq(#[trigger] more[i], v);
            if i < t.len() {
                assert(tag_eq(t[i], v));
            }
            if listed(vs, more.last()) {
                let j = choose|j: int| 0 <= j < vs.len() && tag_eq(#[trigger] vs[j], more.last());
                assert(tag_eq(vs[j], v));
            } else {
                assert(tag_eq(all[rest.len() as int], v));
            }
        }
    }
}

// ---------------------------------------------------------------- the order of selectors

/// Two selections of the same selectors, in whatever order and however often.
pub open spec fn same_selectors(a: Seq<Seq<ClauseV>>, b: Seq<Seq<ClauseV>>) -> bool {
    forall|s: Seq<ClauseV>| #[trigger] a.contains(s) == b.contains(s)
}

/// Every axis of the case has a domain that can be listed.
pub open spec fn closed_axes(params: Seq<ParamV>) -> bool {
    forall|i: int| 0 <= i < params.len() ==> domain_values((#[trigger] params[i]).domain) is Some
}

proof fn same_values_kept(
    p: ParamV,
    a: Seq<Seq<ClauseV>>,
    b: Seq<Seq<ClauseV>>,
    with_default: bool,
    vs: Seq<TagV>,
)
    requires
        same_selectors(a, b),
    ensures
        kept(p, a, with_default, vs) == kept(p, b, with_default, vs),
    decreases vs.len(),
{
    if vs.len() > 0 {
        same_values_kept(p, a, b, with_default, vs.drop_last());
        pass_carries_over(a, b, p.key, vs.last());
        pass_carries_over(b, a, p.key, vs.last());
    }
}

proof fn pass_carries_over(
    a: Seq<Seq<ClauseV>>,
    b: Seq<Seq<ClauseV>>,
    key: Seq<char>,
    v: TagV,
)
    requires
        same_selectors(a, b),
    ensures
        some_pass(a, key, v) ==> some_pass(b, key, v),
{
    if some_pass(a, key, v) {
        let i = choose|i: int|
            0 <= i < a.len() && constrains(#[trigger] a[i], key) && passes(
                the_clause(a[i], key),
                v,
            );
        assert(a.contains(a[i]));
        let j = choose|j: int| 0 <= j < b.len() && b[j] == a[i];
        assert(constrains(b[j], key));
    }
}

proof fn asking_carries_over(a: Seq<Seq<ClauseV>>, b: Seq<Seq<ClauseV>>, key: Seq<char>)
    requires
        same_selectors(a, b),
    ensures
        some_ask(a, key) ==> some_ask(b, key),
        some_skip(a, key) ==> some_skip(b, key),
{
    if some_ask(a, key) {
        let i = choose|i: int| 0 <= i < a.len() && constrains(#[trigger] a[i], key);
        assert(a.contains(a[i]));
        let j = choose|j: int| 0 <= j < b.len() && b[j] == a[i];
        assert(constrains(b[j], key));
    }
    if some_skip(a, key) {
        let i = choose|i: int| 0 <= i < a.len() && !constrains(#[trigger] a[i], key);
        assert(a.contains(a[i]));
        let j = choose|j: int| 0 <= j < b.len() && b[j] == a[i];
        assert(!constrains(b[j], key));
    }
}

/// The values that a selection asks for on an axis whose domain can be listed do not
/// depend on the order of its selectors.
pub proof fn values_ignore_the_order(p: ParamV, a: Seq<Seq<ClauseV>>, b: Seq<Seq<ClauseV>>)
    requires
        same_selectors(a, b),
        domain_values(p.domain) is Some,
    ensures
        swept_by(p, a) == swept_by(p, b),
        axis_values(p, a) == axis_values(p, b),
{
    let members = domain_values(p.domain)->Some_0;
    asking_carries_over(a, b, p.key);
    asking_carries_over(b, a, p.key);
    same_values_kept(p, a, b, false, members);
    same_values_kept(p, a, b, true, members);
}

proof fn same_grid(
    tags: Map<Seq<char>, TagV>,
    params: Seq<ParamV>,
    a: Seq<Seq<ClauseV>>,
    b: Seq<Seq<ClauseV>>,
)
    requires
        same_selectors(a, b),
        closed_axes(params),
    ensures
        grid(tags, params, a) == grid(tags, params, b),
    decreases params.len(),
{
    if params.len() > 0 {
        let t = params.drop_last();
        assert forall|i: int| 0 <= i < t.len() implies domain_values(
            (#[trigger] t[i]).domain,
        ) is Some by {
            assert(t[i] == params[i]);
        }
        same_grid(tags, t, a, b);
        assert(domain_values(params[params.len() - 1].domain) is Some);
        values_ignore_the_order(params.last(), a, b);
    }
}

proof fn reaching_carries_over(
    c: CaseV,
    a: Seq<Seq<ClauseV>>,
    b: Seq<Seq<ClauseV>>,
    p: Map<Seq<char>, TagV>,
)
    requires
        same_selectors(a, b),
    ensures
        some_reach(c, a, p) ==> some_reach(c, b, p),
{
    if some_reach(c, a, p) {
        let i = choose|i: int| 0 <= i < a.len() && holds_point(reach(c, #[trigger] a[i]), p);
        assert(a.contains(a[i]));
        let j = choose|j: int| 0 <= j < b.len() && b[j] == a[i];
        assert(holds_point(reach(c, b[j]), p));
    }
}

proof fn same_reachable(
    c: CaseV,
    a: Seq<Seq<ClauseV>>,
    b: Seq<Seq<ClauseV>>,
    points: Seq<Map<Seq<char>, TagV>>,
)
    requires
        same_selectors(a, b),
    ensures
        reachable(c, a, points) == reachable(c, b, points),
    decreases points.len(),
{
    if points.len() > 0 {
        same_reachable(c, a, b, points.drop_last());
        reaching_carries_over(c, a, b, points.last());
        reaching_carries_over(c, b, a, points.last());
    }
}

/// The order of the selectors does not show: where the axes of a case have domains that
/// can be listed, the same selectors give the same points, in the same order.
pub proof fn expansions_ignore_the_order(c: CaseV, a: Seq<Seq<ClauseV>>, b: Seq<Seq<ClauseV>>)
    requires
        same_selectors(a, b),
        closed_axes(c.params),
    ensures
        expansion(c, a) == expansion(c, b),
{
    if a.len() > 0 {
        assert(a.contains(a[0]));
        let j = choose|j: int| 0 <= j < b.len() && b[j] == a[0];
        assert(b.len() > j);
    }
    if b.len() > 0 {
        assert(b.contains(b[0]) && a.contains(b[0]));
        let j = choose|j: int| 0 <= j < a.len() && a[j] == b[0];
        assert(a.len() > j);
    }
    same_grid(c.tags, c.params, a, b);
    same_reachable(c, a, b, grid(c.tags, c.params, a));
}

// ---------------------------------------------------------------- builds

/// Two selectors that differ only in what they ask of run-time axes.
pub open spec fn differ_at_run_time(a: Seq<ClauseV>, b: Seq<ClauseV>, cases: Seq<CaseV>) -> bool {
    &&& a.len() == b.len()
    &&& forall|i: int|
        0 <= i < a.len() ==> (#[trigger] a[i]).key == b[i].key && (a[i] == b[i] || swept_by_all(
            cases,
            a[i].key,
        ))
}

/// An axis of every case.
pub open spec fn swept_by_all(cases: Seq<CaseV>, key: Seq<char>) -> bool {
    forall|c: int| 0 <= c < cases.len() ==> axis_names((#[trigger] cases[c]).params).contains(key)
}

proof fn same_survivors(
    cases: Seq<CaseV>,
    list: Seq<(Seq<char>, SubjectFactsV)>,
    a: Seq<ClauseV>,
    b: Seq<ClauseV>,
)
    requires
        differ_at_run_time(a, b, cases),
    ensures
        surviving(cases, list, seq![a]) == surviving(cases, list, seq![b]),
    decreases cases.len(),
{
    if cases.len() > 0 {
        let t = cases.drop_last();
        let c = cases.last();
        assert forall|i: int| 0 <= i < a.len() implies (#[trigger] a[i]).key == b[i].key && (a[i]
            == b[i] || swept_by_all(t, a[i].key)) by {
            if swept_by_all(cases, a[i].key) {
                assert forall|c: int| 0 <= c < t.len() implies axis_names(
                    (#[trigger] t[c]).params,
                ).contains(a[i].key) by {
                    assert(axis_names(cases[c].params).contains(a[i].key));
                }
            }
        }
        same_survivors(t, list, a, b);
        let axes = axis_names(c.params);
        assert(seq![a][0] == a && seq![b][0] == b);
        assert(selector_admits(a, c.tags, axes) == selector_admits(b, c.tags, axes)) by {
            assert forall|i: int| 0 <= i < a.len() && !axes.contains((#[trigger] a[i]).key) implies a[i]
                == b[i] by {
                if a[i] != b[i] {
                    assert(axis_names(cases[cases.len() - 1].params).contains(a[i].key));
                }
            }
            if selector_admits(a, c.tags, axes) {
                assert forall|i: int| 0 <= i < b.len() && !axes.contains((#[trigger] b[i]).key)
                    implies clause_admits(b[i], c.tags) by {
                    assert(a[i].key == b[i].key);
                    assert(clause_admits(a[i], c.tags));
                }
            }
            if selector_admits(b, c.tags, axes) {
                assert forall|i: int| 0 <= i < a.len() && !axes.contains((#[trigger] a[i]).key)
                    implies clause_admits(a[i], c.tags) by {
                    assert(clause_admits(b[i], c.tags));
                }
            }
        }
        assert(set_admits(seq![a], c.tags, axes) == selector_admits(a, c.tags, axes));
        assert(set_admits(seq![b], c.tags, axes) == selector_admits(b, c.tags, axes));
    }
}

/// Sweeping builds nothing new: two selections that differ only in what they ask of
/// axes every case has match the same cases, so the drivers to build are the same,
/// however many points each carries.
pub proof fn sweeping_builds_nothing_new(cat: CatalogV, a: Seq<ClauseV>, b: Seq<ClauseV>)
    requires
        differ_at_run_time(a, b, cat.cases),
    ensures
        matching_cases(cat, seq![a]) == matching_cases(cat, seq![b]),
{
    same_survivors(cat.cases, cat.subjects, a, b);
}

// ---------------------------------------------------------------- nothing asked for

proof fn one_combination(tags: Map<Seq<char>, TagV>, params: Seq<ParamV>)
    ensures
        combinations(tags, params, Seq::empty()).len() == 1,
    decreases params.len(),
{
    if params.len() > 0 {
        one_combination(tags, params.drop_last());
        let inner = combinations(tags, params.drop_last(), Seq::empty());
        let vs = swept(params.last(), Seq::empty());
        assert(vs.len() == 1);
        assert(spread(inner.drop_last(), params.last().key, vs).len() == 0);
    }
}

proof fn one_point_each(cases: Seq<CaseV>)
    ensures
        points_of(cases, Seq::empty()).len() == cases.len(),
    decreases cases.len(),
{
    if cases.len() > 0 {
        one_point_each(cases.drop_last());
        let c = cases.last();
        let all = combinations(c.tags, c.params, Seq::empty());
        one_combination(c.tags, c.params);
        assert(admitted(all.drop_last(), Seq::empty()).len() == 0);
        assert(selector_admits(Seq::empty(), all.last(), Seq::empty()));
    }
}

/// Asking for nothing sweeps nothing: without a selector every case has exactly one
/// point, with each axis at its default.
pub proof fn nothing_asked_one_point_each(cat: CatalogV)
    ensures
        selected_points(cat, Seq::empty()).len() == matching_cases(cat, Seq::empty()).len(),
{
    one_point_each(matching_cases(cat, Seq::empty()));
}

// ---------------------------------------------------------------- the estimate

proof fn has_points(points: Seq<(CaseV, Map<Seq<char>, TagV>)>, k: int)
    requires
        0 <= k < points.len(),
    ensures
        points_with_id(points, points[k].0.id) > 0,
    decreases points.len(),
{
    if k < points.len() - 1 {
        has_points(points.drop_last(), k);
    }
}

proof fn counts_fit(points: Seq<(CaseV, Map<Seq<char>, TagV>)>, id: Seq<char>)
    ensures
        points_with_id(points, id) <= points.len(),
    decreases points.len(),
{
    if points.len() > 0 {
        counts_fit(points.drop_last(), id);
    }
}

proof fn perf_is_dearer(
    cases: Seq<CaseV>,
    points: Seq<(CaseV, Map<Seq<char>, TagV>)>,
    budget: Budget,
)
    requires
        points.len() <= u32::MAX,
    ensures
        total_ms(cases, points, Runner::Perf, budget) >= total_ms(
            cases,
            points,
            Runner::Criterion,
            budget,
        ),
        (exists|i: int| 0 <= i < cases.len() && points_with_id(points, #[trigger] cases[i].id) > 0)
            ==> total_ms(cases, points, Runner::Perf, budget) > total_ms(
            cases,
            points,
            Runner::Criterion,
            budget,
        ),
    decreases cases.len(),
{
    if cases.len() > 0 {
        let t = cases.drop_last();
        perf_is_dearer(t, points, budget);
        let n = points_with_id(points, cases.last().id);
        counts_fit(points, cases.last().id);
        let c = point_ms(Runner::Criterion, budget);
        let p = point_ms(Runner::Perf, budget);
        assert(n as u32 == n);
        assert(p * n >= c * n && (n > 0 ==> p * n > c * n)) by (nonlinear_arith)
            requires
                p > c,
                n >= 0,
        ;
        if exists|i: int| 0 <= i < cases.len() && points_with_id(points, #[trigger] cases[i].id) > 0 {
            let i = choose|i: int|
                0 <= i < cases.len() && points_with_id(points, #[trigger] cases[i].id) > 0;
            if i < t.len() {
                assert(t[i] == cases[i]);
                assert(points_with_id(points, t[i].id) > 0);
            }
        }
    }
}

/// A perf run starts a process for each point, so it is estimated higher than a
/// criterion run of the same points, whatever the budget. (Left out are selections of
/// more points than a 32-bit count holds.)
pub proof fn perf_is_estimated_higher(cat: CatalogV, set: Seq<Seq<ClauseV>>, budget: Budget)
    requires
        0 < selected_points(cat, set).len() <= u32::MAX,
    ensures
        total_ms(matching_cases(cat, set), selected_points(cat, set), Runner::Perf, budget)
            > total_ms(
            matching_cases(cat, set),
            selected_points(cat, set),
            Runner::Criterion,
            budget,
        ),
{
    let cases = matching_cases(cat, set);
    let points = selected_points(cat, set);
    let (i, e) = points_from(cases, set, 0);
    has_points(points, 0);
    assert(points_with_id(points, cases[i].id) > 0);
    perf_is_dearer(cases, points, budget);
}

// ---------------------------------------------------------------- the driver

proof fn supporting_from(drivers: Seq<DriverFactsV>, v: SemVer, k: int) -> (i: int)
    requires
        0 <= k < supporting(drivers, v).len(),
    ensures
        0 <= i < drivers.len(),
        drivers[i] == supporting(drivers, v)[k],
        supports(drivers[i], v),
    decreases drivers.len(),
{
    let rest = supporting(drivers.drop_last(), v);
    if k < rest.len() {
        supporting_from(drivers.drop_last(), v, k)
    } else {
        drivers.len() - 1
    }
}

proof fn at_most_one(drivers: Seq<DriverFactsV>, v: SemVer, i: int, j: int)
    requires
        0 <= i < j < drivers.len(),
        supports(drivers[i], v),
        supports(drivers[j], v),
    ensures
        supporting(drivers, v).len() > 1,
    decreases drivers.len(),
{
    let t = drivers.drop_last();
    if j < t.len() {
        at_most_one(t, v, i, j);
    } else {
        some_support(t, v, i);
    }
}

proof fn some_support(drivers: Seq<DriverFactsV>, v: SemVer, i: int)
    requires
        0 <= i < drivers.len(),
        supports(drivers[i], v),
    ensures
        supporting(drivers, v).len() > 0,
    decreases drivers.len(),
{
    if i < drivers.len() - 1 {
        some_support(drivers.drop_last(), v, i);
    }
}

/// The driver chosen for a pin is the one declared driver whose range holds the pinned
/// version: none is chosen outside its range, nor where two would do.
pub proof fn the_chosen_driver_fits(
    subject: Seq<char>,
    pinned_ref: Seq<char>,
    drivers: Seq<DriverFactsV>,
    reading: Result<SemVer, Seq<char>>,
) -> (i: int)
    requires
        driver_of_pin(subject, pinned_ref, drivers, reading) is Ok,
        reading matches Ok(v) ==> v.is_release(),
    ensures
        reading is Ok,
        0 <= i < drivers.len(),
        driver_of_pin(subject, pinned_ref, drivers, reading) == Ok::<DriverFactsV, Seq<char>>(
            drivers[i],
        ),
        supports(drivers[i], reading->Ok_0),
        forall|j: int|
            0 <= j < drivers.len() && j != i ==> !supports(#[trigger] drivers[j], reading->Ok_0),
{
    let v = reading->Ok_0;
    let i = supporting_from(drivers, v, 0);
    assert forall|j: int| 0 <= j < drivers.len() && j != i implies !supports(
        #[trigger] drivers[j],
        v,
    ) by {
        if supports(drivers[j], v) {
            if i < j {
                at_most_one(drivers, v, i, j);
            } else {
                at_most_one(drivers, v, j, i);
            }
        }
    }
    i
}

// ---------------------------------------------------------------- what was not reached

/// An unmet request is reported, never silently narrowed: each clause that asks for
/// something and that no point meets has a line in the report.
pub proof fn unmet_requests_are_reported(
    points: Seq<(CaseV, Map<Seq<char>, TagV>)>,
    set: Seq<Seq<ClauseV>>,
    i: int,
    j: int,
) -> (t: Seq<char>)
    requires
        0 <= i < set.len(),
        0 <= j < set[i].len(),
        !set[i][j].negated,
        set[i][j].matcher matches MatchV::OneOf(vs) ==> vs.len() > 0,
        !reached(points, set[i][j].key, set[i][j].matcher),
    ensures
        unmet_by(points, set, t),
{
    let c = set[i][j];
    let powers = writes_powers(c.key);
    match c.matcher {
        MatchV::OneOf(vs) => {
            let t = c.key + "="@ + expr_of(vs[0], powers);
            let first = seq![vs[0]];
            assert(!reached(points, c.key, MatchV::OneOf(first))) by {
                if reached(points, c.key, MatchV::OneOf(first)) {
                    let k = choose|k: int|
                        0 <= k < points.len() && (#[trigger] points[k]).1.dom().contains(c.key)
                            && hits(MatchV::OneOf(first), points[k].1[c.key]);
                    assert(tag_eq(first[0], points[k].1[c.key]));
                    assert(listed(vs, points[k].1[c.key]));
                }
            }
            assert(unmet(points, set[i][j], t));
            t
        },
        MatchV::Range { lo, hi } => {
            let t = c.key + "="@ + expr_of(lo, powers) + ".."@ + expr_of(hi, powers);
            assert(unmet(points, set[i][j], t));
            t
        },
        MatchV::Any => {
            let t = c.key + "=*"@;
            assert(unmet(points, set[i][j], t));
            t
        },
    }
}

/// Where nothing is selected at all, every clause that asks for something is reported.
pub proof fn an_empty_selection_is_explained(set: Seq<Seq<ClauseV>>, i: int, j: int) -> (t: Seq<char>)
    requires
        0 <= i < set.len(),
        0 <= j < set[i].len(),
        !set[i][j].negated,
        set[i][j].matcher matches MatchV::OneOf(vs) ==> vs.len() > 0,
    ensures
        unmet_by(Seq::empty(), set, t),
{
    unmet_requests_are_reported(Seq::empty(), set, i, j)
}

} // verus!
