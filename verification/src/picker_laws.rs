//! The picker never leads into an empty run: every value it offers keeps the selection
//! non-empty.

use crate::case::{
    axis_names, combinations, domain_values, expansion, reach, runner_name, swept, taken,
    takes_value, the_clause, CaseV, ParamV, Runner,
};
use crate::catalog::{
    axis_at, has_axis, matching_cases, offered, offers, points_of, selected_points, sweeps,
    CatalogV,
};
use crate::catalog_laws::{
    admitted_at, admitted_from, axis_at_bounds, combination_facts, distinct_axes,
    one_selector_reaches, points_from, reach_facts, spread_at, survivor_at, survivor_from,
    sweeps_are_what_is_admitted, sweeps_stay_in_the_domain,
};
use crate::picker::{
    above, below, choices_stay_tidy, command_text, is_facet, minimised,
    minimising_selects_the_same, narrowing, pin, pinned_values, same_points, selection_of, tidy,
    with_choice, CaseModel, Facet,
};
use crate::selector::{
    clause_admits, clause_at, clause_at_bounds, constrains, hits, listed, read_selector,
    selector_admits, selector_expr, set_admits, set_exprs, ClauseV, MatchV, SelectorErrorV,
};
use crate::selector_laws::{canonical_clause, canonical_selector_round_trips};
use crate::tag::{tag_eq, values, Floats, TagV};
use crate::text::{text_lt, text_lt_irreflexive, text_lt_total, text_lt_transitive};
use vstd::prelude::*;

verus! {

// ---------------------------------------------------------------- expansions

/// The combination that takes the first value of every axis.
proof fn first_combination(
    tags: Map<Seq<char>, TagV>,
    params: Seq<ParamV>,
    s: Seq<ClauseV>,
) -> (m: Map<Seq<char>, TagV>)
    requires
        forall|j: int| 0 <= j < params.len() ==> swept(#[trigger] params[j], s).len() > 0,
        forall|i: int, j: int|
            0 <= i < j < params.len() ==> (#[trigger] params[i]).key != (#[trigger] params[j]).key,
    ensures
        combinations(tags, params, s).contains(m),
        forall|key: Seq<char>|
            !axis_names(params).contains(key) ==> {
                &&& #[trigger] m.dom().contains(key) == tags.dom().contains(key)
                &&& tags.dom().contains(key) ==> m[key] == tags[key]
            },
        forall|j: int|
            0 <= j < params.len() ==> m.dom().contains((#[trigger] params[j]).key)
                && m[params[j].key] == swept(params[j], s)[0],
    decreases params.len(),
{
    if params.len() == 0 {
        assert(combinations(tags, params, s)[0] == tags);
        tags
    } else {
        let t = params.drop_last();
        let p = params.last();
        assert forall|j: int| 0 <= j < t.len() implies swept(#[trigger] t[j], s).len() > 0 by {
            assert(t[j] == params[j]);
        }
        assert forall|i: int, j: int| 0 <= i < j < t.len() implies (#[trigger] t[i]).key != (
        #[trigger] t[j]).key by {
            assert(params[i].key != params[j].key);
        }
        let inner = combinations(tags, t, s);
        let n = first_combination(tags, t, s);
        let i = choose|i: int| 0 <= i < inner.len() && inner[i] == n;
        let vs = swept(p, s);
        assert(swept(params[params.len() - 1], s).len() > 0);
        let k = spread_at(inner, p.key, vs, i, 0);
        let m = n.insert(p.key, vs[0]);
        assert(combinations(tags, params, s)[k] == m);
        assert forall|key: Seq<char>| !axis_names(params).contains(key) implies {
            &&& #[trigger] m.dom().contains(key) == tags.dom().contains(key)
            &&& tags.dom().contains(key) ==> m[key] == tags[key]
        } by {
            assert(axis_names(params)[params.len() - 1] == p.key);
            if axis_names(t).contains(key) {
                let i = choose|i: int| 0 <= i < axis_names(t).len() && axis_names(t)[i] == key;
                assert(axis_names(params)[i] == key);
            }
            assert(n.dom().contains(key) == tags.dom().contains(key));
        }
        assert forall|j: int| 0 <= j < params.len() implies m.dom().contains(
            (#[trigger] params[j]).key,
        ) && m[params[j].key] == swept(params[j], s)[0] by {
            if j < t.len() {
                assert(t[j] == params[j]);
                assert(params[j].key != params[params.len() - 1].key);
            }
        }
        m
    }
}

/// Pinned keys reach of a case what their clauses reach.
proof fn pinned_reach(c: CaseV, s: Seq<ClauseV>)
    ensures
        expansion(c, selection_of(s)) == reach(c, s),
{
    if s.len() > 0 {
        one_selector_reaches(c, s);
    } else {
        assert(s =~= Seq::<ClauseV>::empty());
    }
}

/// Pins that a case meets, with a value left on every axis, reach a point of it.
proof fn reaches_a_point(c: CaseV, s: Seq<ClauseV>)
    requires
        tidy(s),
        distinct_axes(c),
        selector_admits(s, c.tags, axis_names(c.params)),
        forall|j: int| 0 <= j < c.params.len() ==> swept(#[trigger] c.params[j], s).len() > 0,
    ensures
        reach(c, s).len() > 0,
{
    let m = first_combination(c.tags, c.params, s);
    let all = combinations(c.tags, c.params, s);
    assert forall|i: int| 0 <= i < s.len() implies clause_admits(#[trigger] s[i], m) by {
        let key = s[i].key;
        if axis_names(c.params).contains(key) {
            let j = choose|j: int|
                0 <= j < axis_names(c.params).len() && axis_names(c.params)[j] == key;
            let p = c.params[j];
            assert(swept(c.params[j], s).len() > 0);
            one_clause(s, i);
            let v = swept(p, s)[0];
            assert(swept(p, s).contains(v));
            sweeps_stay_in_the_domain(p, s, v);
            assert(m.dom().contains(c.params[j].key));
        } else {
            assert(clause_admits(s[i], c.tags));
            assert(m.dom().contains(key) == c.tags.dom().contains(key));
        }
    }
    let k = choose|k: int| 0 <= k < all.len() && all[k] == m;
    admitted_at(all, s, k);
}

/// The clause on a key is the only one.
proof fn one_clause(s: Seq<ClauseV>, i: int)
    requires
        tidy(s),
        0 <= i < s.len(),
    ensures
        clause_at(s, s[i].key) == i,
        constrains(s, s[i].key),
        the_clause(s, s[i].key) == s[i],
{
    clause_at_bounds(s, s[i].key);
    let k = clause_at(s, s[i].key);
    text_lt_irreflexive(s[i].key);
    if k < i {
        assert(text_lt(s[k].key, s[i].key));
    } else if k > i {
        assert(s[i].key != s[i].key);
    }
}

// ---------------------------------------------------------------- choices

/// What `below` and `above` hold stands on other keys.
proof fn sides_avoid_key(s: Seq<ClauseV>, key: Seq<char>)
    ensures
        forall|i: int| 0 <= i < below(s, key).len() ==> (#[trigger] below(s, key)[i]).key != key,
        forall|i: int| 0 <= i < above(s, key).len() ==> (#[trigger] above(s, key)[i]).key != key,
    decreases s.len(),
{
    text_lt_irreflexive(key);
    if s.len() > 0 {
        let t = s.drop_last();
        sides_avoid_key(t, key);
        let (b, rb) = (below(s, key), below(t, key));
        assert forall|i: int| 0 <= i < b.len() implies (#[trigger] b[i]).key != key by {
            if i < rb.len() {
                assert(b[i] == rb[i]);
            }
        }
        let (a, ra) = (above(s, key), above(t, key));
        assert forall|i: int| 0 <= i < a.len() implies (#[trigger] a[i]).key != key by {
            if i < ra.len() {
                assert(a[i] == ra[i]);
            }
        }
    }
}

/// The clauses of a choice, against those of the choice cleared.
proof fn choice_clauses(s: Seq<ClauseV>, key: Seq<char>, v: TagV)
    ensures
        ({
            let free = with_choice(s, key, Seq::empty());
            let one = with_choice(s, key, seq![v]);
            let n = below(s, key).len() as int;
            &&& one.len() == free.len() + 1
            &&& one[n] == (ClauseV { key, matcher: MatchV::OneOf(seq![v]), negated: false })
            &&& forall|i: int| 0 <= i < n ==> #[trigger] one[i] == free[i]
            &&& forall|i: int| n < i < one.len() ==> #[trigger] one[i] == free[i - 1]
            &&& forall|i: int| 0 <= i < free.len() ==> (#[trigger] free[i]).key != key
            &&& n < one.len()
        }),
{
    sides_avoid_key(s, key);
    let free = with_choice(s, key, Seq::empty());
    let n = below(s, key).len() as int;
    assert forall|i: int| 0 <= i < free.len() implies (#[trigger] free[i]).key != key by {
        if i < n {
            assert(free[i] == below(s, key)[i]);
        } else {
            assert(free[i] == above(s, key)[i - n]);
        }
    }
}

/// On another key, the choice changes nothing of what an axis is swept over.
proof fn other_axes_stay(p: ParamV, s: Seq<ClauseV>, key: Seq<char>, v: TagV)
    requires
        tidy(s),
        p.key != key,
    ensures
        swept(p, with_choice(s, key, seq![v])) == swept(p, with_choice(s, key, Seq::empty())),
{
    let free = with_choice(s, key, Seq::empty());
    let one = with_choice(s, key, seq![v]);
    choice_clauses(s, key, v);
    choices_stay_tidy(s, key, Seq::empty());
    choices_stay_tidy(s, key, seq![v]);
    let n = below(s, key).len() as int;
    clause_at_bounds(free, p.key);
    clause_at_bounds(one, p.key);
    if constrains(free, p.key) {
        let i = clause_at(free, p.key);
        let j = if i < n {
            i
        } else {
            i + 1
        };
        assert(one[j] == free[i]);
        one_clause(one, j);
        assert(the_clause(one, p.key) == the_clause(free, p.key));
    } else if constrains(one, p.key) {
        let j = clause_at(one, p.key);
        if j < n {
            assert(free[j].key == p.key);
            one_clause(free, j);
        } else if j > n {
            assert(free[j - 1].key == p.key);
            one_clause(free, j - 1);
        }
    }
}

/// A pin to a value that the axis offers leaves the axis a value.
proof fn chosen_axis_has_a_value(p: ParamV, s: Seq<ClauseV>, v: TagV)
    requires
        tidy(s),
        listed(offered(p), v),
    ensures
        swept(p, with_choice(s, p.key, seq![v])).len() > 0,
{
    let one = with_choice(s, p.key, seq![v]);
    choice_clauses(s, p.key, v);
    choices_stay_tidy(s, p.key, seq![v]);
    let n = below(s, p.key).len() as int;
    one_clause(one, n);
    match domain_values(p.domain) {
        Some(members) => {
            let i = choose|i: int| 0 <= i < members.len() && tag_eq(#[trigger] members[i], v);
            assert(tag_eq(seq![v][0], members[i]));
            assert(hits(the_clause(one, p.key).matcher, members[i]));
            assert(members.contains(members[i]));
            sweeps_are_what_is_admitted(p, one, members[i]);
        },
        None => {
            assert(tag_eq(offered(p)[0], v));
            assert(takes_value(p, v));
            assert(taken(p, seq![v]).len() > 0) by {
                assert(seq![v].last() == v);
            }
        },
    }
}

/// A case that met the pins without the key meets them with it, where the key is an
/// axis of the case or its tag has the value.
proof fn still_admitted(c: CaseV, s: Seq<ClauseV>, key: Seq<char>, v: TagV)
    requires
        tidy(s),
        set_admits(selection_of(with_choice(s, key, Seq::empty())), c.tags, axis_names(c.params)),
        axis_names(c.params).contains(key) || (c.tags.dom().contains(key) && tag_eq(
            c.tags[key],
            v,
        )),
    ensures
        selector_admits(with_choice(s, key, seq![v]), c.tags, axis_names(c.params)),
{
    let free = with_choice(s, key, Seq::empty());
    let one = with_choice(s, key, seq![v]);
    choice_clauses(s, key, v);
    let n = below(s, key).len() as int;
    let axes = axis_names(c.params);
    assert forall|i: int| 0 <= i < one.len() && !axes.contains((#[trigger] one[i]).key) implies
        clause_admits(one[i], c.tags) by {
        if i == n {
            assert(tag_eq(seq![v][0], c.tags[key]));
        } else {
            let j = if i < n {
                i
            } else {
                i - 1
            };
            assert(one[i] == free[j]);
            let set = selection_of(free);
            assert(set =~= seq![free]);
            let k = choose|k: int| 0 <= k < set.len() && selector_admits(#[trigger] set[k], c.tags, axes);
            assert(set[k] == free);
            assert(clause_admits(free[j], c.tags));
        }
    }
}

// ---------------------------------------------------------------- points

proof fn points_have(cases: Seq<CaseV>, set: Seq<Seq<ClauseV>>, i: int)
    requires
        0 <= i < cases.len(),
        expansion(cases[i], set).len() > 0,
    ensures
        points_of(cases, set).len() > 0,
    decreases cases.len(),
{
    if i < cases.len() - 1 {
        points_have(cases.drop_last(), set, i);
    }
}

/// A case that has points without the key, and on which the value can stand, has
/// points with it.
proof fn choice_reaches(cat: CatalogV, s: Seq<ClauseV>, key: Seq<char>, v: TagV, i: int)
    requires
        tidy(s),
        0 <= i < matching_cases(cat, selection_of(with_choice(s, key, Seq::empty()))).len(),
        ({
            let free = selection_of(with_choice(s, key, Seq::empty()));
            let c = matching_cases(cat, free)[i];
            &&& distinct_axes(c)
            &&& expansion(c, free).len() > 0
            &&& if has_axis(c, key) {
                listed(offered(c.params[axis_at(c.params, key)]), v)
            } else {
                c.tags.dom().contains(key) && tag_eq(c.tags[key], v)
            }
        }),
    ensures
        selected_points(cat, selection_of(with_choice(s, key, seq![v]))).len() > 0,
{
    let free = selection_of(with_choice(s, key, Seq::empty()));
    let one = with_choice(s, key, seq![v]);
    let set = selection_of(one);
    let h = survivor_from(cat.cases, cat.subjects, free, i);
    let c = cat.cases[h];
    choice_clauses(s, key, v);
    choices_stay_tidy(s, key, seq![v]);
    assert(set =~= seq![one]);
    axis_at_bounds(c.params, key);
    let a = axis_at(c.params, key);
    if has_axis(c, key) {
        assert(axis_names(c.params)[a] == key);
    }
    still_admitted(c, s, key, v);
    assert(set[0] == one);
    assert(set_admits(set, c.tags, axis_names(c.params)));
    let clear = with_choice(s, key, Seq::empty());
    pinned_reach(c, clear);
    pinned_reach(c, one);
    let all = combinations(c.tags, c.params, clear);
    let from = admitted_from(all, clear, 0);
    combination_facts(c.tags, c.params, clear, from);
    assert forall|j: int| 0 <= j < c.params.len() implies swept(#[trigger] c.params[j], one).len()
        > 0 by {
        let p = c.params[j];
        assert(swept(c.params[j], clear).len() > 0);
        if p.key == key {
            assert(has_axis(c, key));
            if j != a {
                if a < j {
                    assert(c.params[a].key != c.params[j].key);
                } else {
                    assert(c.params[j].key != c.params[a].key);
                }
            }
            chosen_axis_has_a_value(p, s, v);
        } else {
            other_axes_stay(p, s, key, v);
        }
    }
    reaches_a_point(c, one);
    let k = survivor_at(cat.cases, cat.subjects, set, h);
    points_have(matching_cases(cat, set), set, k);
}

/// The picker never offers a value that would empty the selection: whatever is pinned,
/// pinning a key to a value that is offered for it leaves points to run.
pub proof fn offered_values_reach_points(cat: CatalogV, s: Seq<ClauseV>, key: Seq<char>, v: TagV)
    requires
        tidy(s),
        forall|i: int| 0 <= i < cat.cases.len() ==> distinct_axes(#[trigger] cat.cases[i]),
        ({
            let free = selection_of(with_choice(s, key, Seq::empty()));
            offers(matching_cases(cat, free), selected_points(cat, free), free, key, v)
        }),
    ensures
        selected_points(cat, selection_of(with_choice(s, key, seq![v]))).len() > 0,
{
    let free = selection_of(with_choice(s, key, Seq::empty()));
    let cases = matching_cases(cat, free);
    let points = selected_points(cat, free);
    if exists|i: int| 0 <= i < cases.len() && sweeps(#[trigger] cases[i], free, key) {
        let i = choose|i: int|
            0 <= i < cases.len() && sweeps(#[trigger] cases[i], free, key) && listed(
                offered(cases[i].params[axis_at(cases[i].params, key)]),
                v,
            );
        let h = survivor_from(cat.cases, cat.subjects, free, i);
        assert(distinct_axes(cat.cases[h]));
        choice_reaches(cat, s, key, v, i);
    } else {
        let k = choose|k: int|
            0 <= k < points.len() && (#[trigger] points[k]).1.dom().contains(key) && tag_eq(
                points[k].1[key],
                v,
            );
        let (i, e) = points_from(cases, free, k);
        let c = cases[i];
        let h = survivor_from(cat.cases, cat.subjects, free, i);
        assert(distinct_axes(cat.cases[h]));
        assert(!sweeps(cases[i], free, key));
        let clear = with_choice(s, key, Seq::empty());
        pinned_reach(c, clear);
        reach_facts(c, clear, e);
        axis_at_bounds(c.params, key);
        assert(!axis_names(c.params).contains(key)) by {
            if axis_names(c.params).contains(key) {
                let j = choose|j: int|
                    0 <= j < axis_names(c.params).len() && axis_names(c.params)[j] == key;
                assert(c.params[j].key == key);
            }
        }
        assert(reach(c, clear)[e].dom().contains(key) == c.tags.dom().contains(key));
        choice_reaches(cat, s, key, v, i);
    }
}

// ---------------------------------------------------------------- choosing again

proof fn below_of_two(a: Seq<ClauseV>, b: Seq<ClauseV>, key: Seq<char>)
    ensures
        below(a + b, key) == below(a, key) + below(b, key),
    decreases b.len(),
{
    if b.len() == 0 {
        assert(a + b =~= a);
    } else {
        below_of_two(a, b.drop_last(), key);
        assert((a + b).drop_last() =~= a + b.drop_last());
        assert((a + b).last() == b.last());
    }
    assert(below(a + b, key) =~= below(a, key) + below(b, key));
}

proof fn above_of_two(a: Seq<ClauseV>, b: Seq<ClauseV>, key: Seq<char>)
    ensures
        above(a + b, key) == above(a, key) + above(b, key),
    decreases b.len(),
{
    if b.len() == 0 {
        assert(a + b =~= a);
    } else {
        above_of_two(a, b.drop_last(), key);
        assert((a + b).drop_last() =~= a + b.drop_last());
        assert((a + b).last() == b.last());
    }
    assert(above(a + b, key) =~= above(a, key) + above(b, key));
}

proof fn not_both_ways(a: Seq<char>, b: Seq<char>)
    ensures
        !(text_lt(a, b) && text_lt(b, a)),
{
    if text_lt(a, b) && text_lt(b, a) {
        text_lt_transitive(a, b, a);
        text_lt_irreflexive(a);
    }
}

proof fn sides_settle(s: Seq<ClauseV>, key: Seq<char>)
    ensures
        below(below(s, key), key) == below(s, key),
        above(above(s, key), key) == above(s, key),
        below(above(s, key), key) == Seq::<ClauseV>::empty(),
        above(below(s, key), key) == Seq::<ClauseV>::empty(),
    decreases s.len(),
{
    if s.len() > 0 {
        sides_settle(s.drop_last(), key);
        not_both_ways(s.last().key, key);
        let b = below(s.drop_last(), key);
        let a = above(s.drop_last(), key);
        assert(b.push(s.last()).drop_last() =~= b);
        assert(a.push(s.last()).drop_last() =~= a);
    }
}

/// The last choice for a key is the one that counts: choosing twice is choosing once.
pub proof fn the_last_choice_counts(s: Seq<ClauseV>, key: Seq<char>, first: Seq<TagV>, vs: Seq<TagV>)
    ensures
        with_choice(with_choice(s, key, first), key, vs) == with_choice(s, key, vs),
{
    let b = below(s, key);
    let a = above(s, key);
    let p = pin(key, first);
    sides_settle(s, key);
    text_lt_irreflexive(key);
    below_of_two(b + p, a, key);
    below_of_two(b, p, key);
    above_of_two(b + p, a, key);
    above_of_two(b, p, key);
    assert(p.len() > 0 ==> p.drop_last() =~= Seq::<ClauseV>::empty());
    reveal_with_fuel(below, 2);
    reveal_with_fuel(above, 2);
    assert(below(p, key) =~= Seq::<ClauseV>::empty());
    assert(above(p, key) =~= Seq::<ClauseV>::empty());
    assert(below(with_choice(s, key, first), key) =~= b);
    assert(above(with_choice(s, key, first), key) =~= a);
}

/// A choice can always be widened again: what is offered for a key does not depend on
/// what the key is pinned to.
pub proof fn choices_can_be_widened(
    cat: CatalogV,
    s: Seq<ClauseV>,
    key: Seq<char>,
    vs: Seq<TagV>,
    before: Facet,
    after: Facet,
)
    requires
        is_facet(before, cat, s, key),
        is_facet(after, cat, with_choice(s, key, vs), key),
    ensures
        forall|v: TagV|
            #[trigger] listed(values(after.values@), v) == listed(values(before.values@), v),
{
    the_last_choice_counts(s, key, vs, Seq::empty());
    assert forall|v: TagV|
        #[trigger] listed(values(after.values@), v) == listed(values(before.values@), v) by {
        let free = selection_of(with_choice(s, key, Seq::empty()));
        assert(listed(values(before.values@), v) == offers(
            matching_cases(cat, free),
            selected_points(cat, free),
            free,
            key,
            v,
        ));
    }
}

// ---------------------------------------------------------------- the printed command

/// The selection can be written down: the text of each clause means the clause.
pub open spec fn canonical(s: Seq<ClauseV>, floats: Floats) -> bool {
    forall|i: int| 0 <= i < s.len() ==> canonical_clause(#[trigger] s[i], floats)
}

proof fn narrowing_drops(
    cat: CatalogV,
    kept: Seq<ClauseV>,
    n: nat,
    target: Seq<(CaseModel, Map<Seq<char>, TagV>)>,
    floats: Floats,
)
    requires
        n <= kept.len(),
        canonical(kept, floats),
    ensures
        canonical(narrowing(cat, kept, n, target), floats),
    decreases n,
{
    if n > 0 {
        let without = kept.remove(n - 1);
        if same_points(selected_points(cat, selection_of(without)), target) {
            assert forall|i: int| 0 <= i < without.len() implies canonical_clause(
                #[trigger] without[i],
                floats,
            ) by {
                if i < n - 1 {
                    assert(without[i] == kept[i]);
                } else {
                    assert(without[i] == kept[i + 1]);
                }
            }
            narrowing_drops(cat, without, (n - 1) as nat, target, floats);
        } else {
            narrowing_drops(cat, kept, (n - 1) as nat, target, floats);
        }
    }
}

/// The printed command means what was picked: what stands between its quotes is read as
/// the minimised selection, and that selects exactly the points that were picked. With
/// nothing left to narrow by, the command selects without an expression.
pub open spec fn reads_back(cat: CatalogV, s: Seq<ClauseV>, runner: Runner, floats: Floats) -> bool {
    let left = minimised(cat, s);
    let start = "spatial-bench run --runner "@ + runner_name(runner);
    &&& command_text(runner, selection_of(left)) == if left.len() == 0 {
        start
    } else {
        start + " --select '"@ + selector_expr(left) + "'"@
    }
    &&& left.len() > 0 ==> read_selector(selector_expr(left), floats) == Ok::<
        Seq<ClauseV>,
        SelectorErrorV,
    >(left)
    &&& same_points(
        selected_points(cat, selection_of(left)),
        selected_points(cat, selection_of(s)),
    )
}

/// The printed command can be run again, wherever the text of each pin means the pin.
pub proof fn printed_commands_read_back(
    cat: CatalogV,
    s: Seq<ClauseV>,
    runner: Runner,
    floats: Floats,
)
    requires
        canonical(s, floats),
    ensures
        reads_back(cat, s, runner, floats),
{
    let left = minimised(cat, s);
    minimising_selects_the_same(cat, s);
    narrowing_drops(cat, s, s.len(), selected_points(cat, selection_of(s)), floats);
    if left.len() > 0 {
        canonical_selector_round_trips(left, floats);
        assert(set_exprs(selection_of(left)).len() == 1);
        assert(set_exprs(selection_of(left))[0] == selector_expr(left));
    }
}

/// What is left of a selection is some of its clauses, and one that narrows nothing does
/// not stay at its end.
pub proof fn clauses_that_narrow_nothing_are_dropped(cat: CatalogV, s: Seq<ClauseV>)
    ensures
        minimised(cat, s).len() <= s.len(),
        forall|i: int|
            0 <= i < minimised(cat, s).len() ==> s.contains(#[trigger] minimised(cat, s)[i]),
        s.len() > 0 && same_points(
            selected_points(cat, selection_of(s.drop_last())),
            selected_points(cat, selection_of(s)),
        ) ==> minimised(cat, s).len() < s.len(),
{
    let target = selected_points(cat, selection_of(s));
    clauses_are_kept(cat, s, s.len(), target);
    if s.len() > 0 {
        let without = s.remove(s.len() - 1);
        assert(without =~= s.drop_last());
        clauses_are_kept(cat, without, (s.len() - 1) as nat, target);
    }
}

proof fn clauses_are_kept(
    cat: CatalogV,
    s: Seq<ClauseV>,
    n: nat,
    target: Seq<(CaseV, Map<Seq<char>, TagV>)>,
)
    requires
        n <= s.len(),
    ensures
        narrowing(cat, s, n, target).len() <= s.len(),
        forall|i: int|
            0 <= i < narrowing(cat, s, n, target).len() ==> s.contains(
                #[trigger] narrowing(cat, s, n, target)[i],
            ),
    decreases n,
{
    if n > 0 {
        let without = s.remove(n - 1);
        clauses_are_kept(cat, without, (n - 1) as nat, target);
        clauses_are_kept(cat, s, (n - 1) as nat, target);
        assert forall|c: ClauseV| #[trigger] without.contains(c) implies s.contains(c) by {
            let k = without.index_of(c);
            if k < n - 1 {
                assert(s[k] == c);
            } else {
                assert(s[k + 1] == c);
            }
        }
    } else {
        assert forall|i: int| 0 <= i < s.len() implies s.contains(#[trigger] s[i]) by {}
    }
}

/// What a key was pinned to last is what is shown as chosen for it.
pub proof fn the_last_choice_is_shown(s: Seq<ClauseV>, key: Seq<char>, vs: Seq<TagV>)
    ensures
        pinned_values(with_choice(s, key, vs), key) == vs,
{
    let t = with_choice(s, key, vs);
    let low = below(s, key);
    let high = above(s, key);
    others_are_not_the_key(s, key);
    clause_at_bounds(t, key);
    let at = clause_at(t, key);
    if vs.len() == 0 {
        assert(t =~= low + high);
        assert forall|i: int| 0 <= i < t.len() implies t[i].key != key by {
            if i < low.len() {
                assert(t[i] == low[i]);
            } else {
                assert(t[i] == high[i - low.len()]);
            }
        }
        assert(vs =~= Seq::<TagV>::empty());
    } else {
        let n = low.len() as int;
        assert(t[n] == ClauseV { key, matcher: MatchV::OneOf(vs), negated: false });
        assert forall|i: int| 0 <= i < t.len() && i != n implies t[i].key != key by {
            if i < n {
                assert(t[i] == low[i]);
            } else {
                assert(t[i] == high[i - n - 1]);
            }
        }
    }
}

proof fn others_are_not_the_key(s: Seq<ClauseV>, key: Seq<char>)
    ensures
        forall|i: int| 0 <= i < below(s, key).len() ==> (#[trigger] below(s, key)[i]).key != key,
        forall|i: int| 0 <= i < above(s, key).len() ==> (#[trigger] above(s, key)[i]).key != key,
    decreases s.len(),
{
    if s.len() > 0 {
        others_are_not_the_key(s.drop_last(), key);
        text_lt_irreflexive(key);
    }
}

/// Pinning one key leaves what the others are pinned to.
pub proof fn other_choices_stay(s: Seq<ClauseV>, key: Seq<char>, vs: Seq<TagV>, c: ClauseV)
    requires
        c.key != key,
    ensures
        with_choice(s, key, vs).contains(c) <==> s.contains(c),
{
    text_lt_total(c.key, key);
    sides_hold(s, key, c);
    let (lo, mid, hi) = (below(s, key), pin(key, vs), above(s, key));
    let t = with_choice(s, key, vs);
    if lo.contains(c) {
        assert(t[lo.index_of(c)] == c);
    }
    if hi.contains(c) {
        assert(t[lo.len() + mid.len() + hi.index_of(c)] == c);
    }
    if t.contains(c) {
        let i = t.index_of(c);
        if i < lo.len() {
            assert(lo[i] == c);
        } else if i < lo.len() + mid.len() {
            assert(mid[i - lo.len()] == c);
        } else {
            assert(hi[i - lo.len() - mid.len()] == c);
        }
    }
}

proof fn sides_hold(s: Seq<ClauseV>, key: Seq<char>, c: ClauseV)
    ensures
        below(s, key).contains(c) <==> s.contains(c) && text_lt(c.key, key),
        above(s, key).contains(c) <==> s.contains(c) && text_lt(key, c.key),
    decreases s.len(),
{
    if s.len() > 0 {
        let front = s.drop_last();
        sides_hold(front, key, c);
        assert(s[s.len() - 1] == s.last());
        if s.contains(c) && c != s.last() {
            assert(front[s.index_of(c)] == c);
        }
        if front.contains(c) {
            assert(s[front.index_of(c)] == c);
        }
        let (b, a) = (below(front, key), above(front, key));
        if text_lt(s.last().key, key) {
            let all = below(s, key);
            assert(all[b.len() as int] == s.last());
            if b.contains(c) {
                assert(all[b.index_of(c)] == c);
            }
            if all.contains(c) && c != s.last() {
                assert(b[all.index_of(c)] == c);
            }
        }
        if text_lt(key, s.last().key) {
            let all = above(s, key);
            assert(all[a.len() as int] == s.last());
            if a.contains(c) {
                assert(all[a.index_of(c)] == c);
            }
            if all.contains(c) && c != s.last() {
                assert(a[all.index_of(c)] == c);
            }
        }
    }
}

} // verus!
