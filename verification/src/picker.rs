//! The interactive picker's logic, kept separate from its terminal rendering.
//!
//! The picker walks the tag keys present in the catalog and offers, for each, only the
//! values that keep the selection non-empty, so an empty run cannot be constructed by
//! accident.

use crate::case::{runner_name, Runner, PROCESS_OVERHEAD_MS};
use crate::catalog::{
    case_refs, matching_cases, offers, point_refs, selected_points, shared_runner, total_ms, unmet_by,
    Catalog, CatalogV,
};
use crate::harness::Budget;
use crate::ordered::{
    ascending_texts, ascending_where, ascending_where_is, distinct_texts, strictly_ascending,
};
use crate::selector::{
    clause_at, clauses_of, constrains, copy_values, listed, set_exprs, Clause, ClauseV, Match,
    MatchV, Selector, SelectorSet,
};
use crate::tag::{entry_map_at, equal_tags, is_entry, same_tags, values, TagMap, TagV, TagValue};
use crate::text::{
    before, join, joined, same, text_lt, text_lt_irreflexive, text_lt_transitive, texts,
};
use vstd::prelude::*;

verus! {

/// One offerable key and the values still reachable for it.
#[derive(Debug)]
pub struct Facet {
    pub key: String,
    pub values: Vec<TagValue>,
    /// Values the current selection has pinned. Empty means unconstrained.
    pub chosen: Vec<TagValue>,
}

/// What the picker shows for the current selection.
#[derive(Debug)]
pub struct Preview {
    pub cases: usize,
    pub points: usize,
    pub runners: Vec<String>,
    /// Predicted milliseconds.
    pub estimate: u128,
    /// Requested values that reach nothing. Surfaced before the run rather than
    /// silently yielding a smaller matrix than asked for.
    pub unsatisfied: Vec<String>,
}

/// A selection being built up.
#[derive(Debug)]
pub struct Picker {
    chosen: Vec<Clause>,
}

impl View for Picker {
    type V = Seq<ClauseV>;

    closed spec fn view(&self) -> Seq<ClauseV> {
        clauses_of(self.chosen@)
    }
}

/// What a picker holds: one clause for each pinned key, in the order of the keys, each
/// naming the values it is pinned to.
pub open spec fn tidy(s: Seq<ClauseV>) -> bool {
    &&& forall|i: int, j: int|
        0 <= i < j < s.len() ==> text_lt((#[trigger] s[i]).key, (#[trigger] s[j]).key)
    &&& forall|i: int| 0 <= i < s.len() ==> pins(#[trigger] s[i])
}

/// A clause that pins a key to some values.
pub open spec fn pins(c: ClauseV) -> bool {
    !c.negated && (c.matcher matches MatchV::OneOf(vs) && vs.len() > 0)
}

/// The selection that pinned keys make.
pub open spec fn selection_of(s: Seq<ClauseV>) -> Seq<Seq<ClauseV>> {
    if s.len() == 0 {
        Seq::empty()
    } else {
        seq![s]
    }
}

/// The clauses on keys before a key.
pub open spec fn below(s: Seq<ClauseV>, key: Seq<char>) -> Seq<ClauseV>
    decreases s.len(),
{
    if s.len() == 0 {
        Seq::empty()
    } else {
        let rest = below(s.drop_last(), key);
        if text_lt(s.last().key, key) {
            rest.push(s.last())
        } else {
            rest
        }
    }
}

/// The clauses on keys behind a key.
pub open spec fn above(s: Seq<ClauseV>, key: Seq<char>) -> Seq<ClauseV>
    decreases s.len(),
{
    if s.len() == 0 {
        Seq::empty()
    } else {
        let rest = above(s.drop_last(), key);
        if text_lt(key, s.last().key) {
            rest.push(s.last())
        } else {
            rest
        }
    }
}

/// The pin of a key to some values; none pins nothing.
pub open spec fn pin(key: Seq<char>, vs: Seq<TagV>) -> Seq<ClauseV> {
    if vs.len() == 0 {
        Seq::empty()
    } else {
        seq![ClauseV { key, matcher: MatchV::OneOf(vs), negated: false }]
    }
}

/// Pinned keys with one key pinned anew.
pub open spec fn with_choice(s: Seq<ClauseV>, key: Seq<char>, vs: Seq<TagV>) -> Seq<ClauseV> {
    below(s, key) + pin(key, vs) + above(s, key)
}

/// The values that a key is pinned to.
pub open spec fn pinned_values(s: Seq<ClauseV>, key: Seq<char>) -> Seq<TagV> {
    if constrains(s, key) {
        match s[clause_at(s, key)].matcher {
            MatchV::OneOf(vs) => vs,
            _ => Seq::empty(),
        }
    } else {
        Seq::empty()
    }
}

proof fn below_is_ordered(s: Seq<ClauseV>, key: Seq<char>)
    requires
        tidy(s),
    ensures
        tidy(below(s, key)),
        forall|i: int|
            0 <= i < below(s, key).len() ==> text_lt((#[trigger] below(s, key)[i]).key, key)
                && s.contains(below(s, key)[i]),
    decreases s.len(),
{
    if s.len() > 0 {
        let t = s.drop_last();
        assert forall|i: int, j: int| 0 <= i < j < t.len() implies text_lt(
            (#[trigger] t[i]).key,
            (#[trigger] t[j]).key,
        ) by {
            assert(text_lt(s[i].key, s[j].key));
        }
        assert forall|i: int| 0 <= i < t.len() implies pins(#[trigger] t[i]) by {
            assert(pins(s[i]));
        }
        below_is_ordered(t, key);
        let (b, r) = (below(s, key), below(t, key));
        assert(pins(s[s.len() - 1]));
        assert forall|i: int| 0 <= i < b.len() implies text_lt((#[trigger] b[i]).key, key)
            && s.contains(b[i]) && pins(b[i]) by {
            if i < r.len() {
                assert(b[i] == r[i]);
                let k = choose|k: int| 0 <= k < t.len() && t[k] == r[i];
                assert(s[k] == r[i]);
            } else {
                assert(s[s.len() - 1] == b[i]);
            }
        }
        assert forall|i: int, j: int| 0 <= i < j < b.len() implies text_lt(
            (#[trigger] b[i]).key,
            (#[trigger] b[j]).key,
        ) by {
            if j < r.len() {
                assert(b[i] == r[i] && b[j] == r[j]);
            } else {
                assert(b[i] == r[i]);
                let k = choose|k: int| 0 <= k < t.len() && t[k] == r[i];
                assert(text_lt(s[k].key, s[s.len() - 1].key));
            }
        }
    }
}

proof fn above_is_ordered(s: Seq<ClauseV>, key: Seq<char>)
    requires
        tidy(s),
    ensures
        tidy(above(s, key)),
        forall|i: int|
            0 <= i < above(s, key).len() ==> text_lt(key, (#[trigger] above(s, key)[i]).key)
                && s.contains(above(s, key)[i]),
    decreases s.len(),
{
    if s.len() > 0 {
        let t = s.drop_last();
        assert forall|i: int, j: int| 0 <= i < j < t.len() implies text_lt(
            (#[trigger] t[i]).key,
            (#[trigger] t[j]).key,
        ) by {
            assert(text_lt(s[i].key, s[j].key));
        }
        assert forall|i: int| 0 <= i < t.len() implies pins(#[trigger] t[i]) by {
            assert(pins(s[i]));
        }
        above_is_ordered(t, key);
        let (b, r) = (above(s, key), above(t, key));
        assert(pins(s[s.len() - 1]));
        assert forall|i: int| 0 <= i < b.len() implies text_lt(key, (#[trigger] b[i]).key)
            && s.contains(b[i]) && pins(b[i]) by {
            if i < r.len() {
                assert(b[i] == r[i]);
                let k = choose|k: int| 0 <= k < t.len() && t[k] == r[i];
                assert(s[k] == r[i]);
            } else {
                assert(s[s.len() - 1] == b[i]);
            }
        }
        assert forall|i: int, j: int| 0 <= i < j < b.len() implies text_lt(
            (#[trigger] b[i]).key,
            (#[trigger] b[j]).key,
        ) by {
            if j < r.len() {
                assert(b[i] == r[i] && b[j] == r[j]);
            } else {
                assert(b[i] == r[i]);
                let k = choose|k: int| 0 <= k < t.len() && t[k] == r[i];
                assert(text_lt(s[k].key, s[s.len() - 1].key));
            }
        }
    }
}

/// A choice leaves the pins tidy.
pub proof fn choices_stay_tidy(s: Seq<ClauseV>, key: Seq<char>, vs: Seq<TagV>)
    requires
        tidy(s),
    ensures
        tidy(with_choice(s, key, vs)),
{
    below_is_ordered(s, key);
    above_is_ordered(s, key);
    let (lo, mid, hi) = (below(s, key), pin(key, vs), above(s, key));
    let r = with_choice(s, key, vs);
    let (a, b) = (lo.len() as int, (lo.len() + mid.len()) as int);
    assert forall|i: int, j: int| 0 <= i < j < r.len() implies text_lt(
        (#[trigger] r[i]).key,
        (#[trigger] r[j]).key,
    ) by {
        if i < a {
            assert(r[i] == lo[i]);
        } else if i < b {
            assert(r[i] == mid[i - a]);
        } else {
            assert(r[i] == hi[i - b]);
        }
        if j < a {
            assert(r[j] == lo[j]);
        } else if j < b {
            assert(r[j] == mid[j - a]);
        } else {
            assert(r[j] == hi[j - b]);
        }
        if i < a && j >= b {
            text_lt_transitive(r[i].key, key, r[j].key);
        }
    }
    assert forall|i: int| 0 <= i < r.len() implies pins(#[trigger] r[i]) by {
        if i < a {
            assert(r[i] == lo[i]);
        } else if i < b {
            assert(r[i] == mid[i - a]);
        } else {
            assert(r[i] == hi[i - b]);
        }
    }
}

// ---------------------------------------------------------------- facets

/// Does some point carry the key?
pub open spec fn carried(points: Seq<(CaseModel, Map<Seq<char>, TagV>)>, key: Seq<char>) -> bool {
    exists|i: int| 0 <= i < points.len() && (#[trigger] points[i]).1.dom().contains(key)
}

pub type CaseModel = crate::case::CaseV;

/// What a selection comes to.
pub open spec fn is_preview(
    p: Preview,
    cat: CatalogV,
    s: Seq<ClauseV>,
    runner: Runner,
    budget: Budget,
) -> bool {
    let set = selection_of(s);
    let cases = matching_cases(cat, set);
    let points = selected_points(cat, set);
    &&& p.cases == cases.len()
    &&& p.points == points.len()
    &&& p.estimate == total_ms(cases, points, runner, budget)
    &&& ascending_texts(texts(p.runners@))
    &&& forall|t: Seq<char>| #[trigger] texts(p.runners@).contains(t) == shared_runner(cases, t)
    &&& ascending_texts(texts(p.unsatisfied@))
    &&& forall|t: Seq<char>|
        #[trigger] texts(p.unsatisfied@).contains(t) == unmet_by(points, set, t)
}

/// The keys that selected points carry, in order.
pub open spec fn facet_keys(cat: CatalogV, s: Seq<ClauseV>) -> Seq<Seq<char>> {
    ascending_where(|t: Seq<char>| carried(selected_points(cat, selection_of(s)), t))
}

/// What is offered for a key: the values reachable if this key alone were
/// unconstrained, so a choice can always be widened again.
pub open spec fn is_facet(f: Facet, cat: CatalogV, s: Seq<ClauseV>, key: Seq<char>) -> bool {
    let free = selection_of(with_choice(s, key, Seq::empty()));
    &&& f.key@ == key
    &&& strictly_ascending::<TagValue>(values(f.values@))
    &&& forall|v: TagV|
        #[trigger] listed(values(f.values@), v) == offers(
            matching_cases(cat, free),
            selected_points(cat, free),
            free,
            key,
            v,
        )
    &&& values(f.chosen@) == pinned_values(s, key)
}

fn point_keys(points: &Vec<(&crate::case::Case, TagMap)>) -> (r: Vec<String>)
    ensures
        texts(r@) == ascending_where(|t: Seq<char>| carried(point_refs(points@), t)),
{
    let ghost all = point_refs(points@);
    let mut found: Vec<String> = Vec::new();
    let mut i: usize = 0;
    while i < points.len()
        invariant
            i <= points@.len(),
            all == point_refs(points@),
            forall|t: Seq<char>|
                #[trigger] texts(found@).contains(t) == carried(all.take(i as int), t),
        decreases points@.len() - i,
    {
        let ghost head = all.take(i as int);
        let ghost more = all.take(i + 1);
        let entries = points[i].1.entries();
        let ghost map = points@[i as int].1@;
        let ghost start = texts(found@);
        assert(more =~= head.push((points@[i as int].0@, map)));
        let mut j: usize = 0;
        assert(start + Seq::<Seq<char>>::empty() =~= start);
        while j < entries.len()
            invariant
                j <= entries@.len(),
                texts(found@).len() == start.len() + j,
                forall|k: int| 0 <= k < start.len() ==> texts(found@)[k] == start[k],
                forall|k: int|
                    0 <= k < j ==> texts(found@)[start.len() + k] == (#[trigger] entries@[k]).0@,
            decreases entries@.len() - j,
        {
            let ghost prior = texts(found@);
            found.push(entries[j].0.clone());
            assert(texts(found@) =~= prior.push(entries@[j as int].0@));
            j = j + 1;
        }
        proof {
            let now = texts(found@);
            assert forall|t: Seq<char>| #[trigger] now.contains(t) == carried(more, t) by {
                assert(start.contains(t) == carried(head, t));
                if now.contains(t) {
                    let k = choose|k: int| 0 <= k < now.len() && now[k] == t;
                    if k < start.len() {
                        assert(start[k] == t);
                        let h = choose|h: int|
                            0 <= h < head.len() && (#[trigger] head[h]).1.dom().contains(t);
                        assert(more[h] == head[h]);
                    } else {
                        let e = k - start.len();
                        assert(entries@[e].0@ == t);
                        entry_map_at(entries@, e);
                        assert(more[head.len() as int].1.dom().contains(t));
                    }
                }
                if carried(more, t) {
                    let h = choose|h: int|
                        0 <= h < more.len() && (#[trigger] more[h]).1.dom().contains(t);
                    if h < head.len() {
                        assert(head[h] == more[h]);
                        assert(start.contains(t));
                        let k = choose|k: int| 0 <= k < start.len() && start[k] == t;
                        assert(now[k] == t);
                    } else {
                        assert(map.dom().contains(t));
                        let e = choose|e: int| is_entry(entries@, e, t);
                        assert(entries@[e].0@ == t);
                        assert(now[start.len() + e] == t);
                    }
                }
            }
        }
        i = i + 1;
    }
    assert(all.take(points@.len() as int) =~= all);
    let ghost listing = texts(found@);
    let r = distinct_texts(found);
    proof {
        let test = |t: Seq<char>| carried(all, t);
        assert forall|t: Seq<char>| #[trigger] texts(r@).contains(t) == test(t) by {
            assert(texts(r@).contains(t) == listing.contains(t));
        }
        ascending_where_is(texts(r@), test);
    }
    r
}

// ---------------------------------------------------------------- the same points

/// The same points, in the same order.
pub open spec fn same_points(
    a: Seq<(CaseModel, Map<Seq<char>, TagV>)>,
    b: Seq<(CaseModel, Map<Seq<char>, TagV>)>,
) -> bool {
    &&& a.len() == b.len()
    &&& forall|i: int|
        0 <= i < a.len() ==> (#[trigger] a[i]).0.id == b[i].0.id && same_tags(a[i].1, b[i].1)
}

fn equal_points(
    a: &Vec<(&crate::case::Case, TagMap)>,
    b: &Vec<(&crate::case::Case, TagMap)>,
) -> (r: bool)
    ensures
        r == same_points(point_refs(a@), point_refs(b@)),
{
    if a.len() != b.len() {
        return false;
    }
    let ghost x = point_refs(a@);
    let ghost y = point_refs(b@);
    let mut i: usize = 0;
    while i < a.len()
        invariant
            i <= a@.len(),
            a@.len() == b@.len(),
            x == point_refs(a@),
            y == point_refs(b@),
            forall|j: int|
                0 <= j < i ==> (#[trigger] x[j]).0.id == y[j].0.id && same_tags(x[j].1, y[j].1),
        decreases a@.len() - i,
    {
        let fine = same(a[i].0.id.as_str(), b[i].0.id.as_str()) && equal_tags(&a[i].1, &b[i].1);
        if !fine {
            assert(x[i as int].0.id != y[i as int].0.id || !same_tags(
                x[i as int].1,
                y[i as int].1,
            ));
            return false;
        }
        i = i + 1;
    }
    true
}

proof fn same_points_as_itself(a: Seq<(CaseModel, Map<Seq<char>, TagV>)>)
    ensures
        same_points(a, a),
{
}

/// The clauses left of those before `n` once each that narrows nothing is dropped,
/// from the last to the first.
pub open spec fn narrowing(
    cat: CatalogV,
    kept: Seq<ClauseV>,
    n: nat,
    target: Seq<(CaseModel, Map<Seq<char>, TagV>)>,
) -> Seq<ClauseV>
    decreases n,
{
    if n == 0 {
        kept
    } else {
        let without = kept.remove(n - 1);
        if same_points(selected_points(cat, selection_of(without)), target) {
            narrowing(cat, without, (n - 1) as nat, target)
        } else {
            narrowing(cat, kept, (n - 1) as nat, target)
        }
    }
}

/// A selection with the clauses removed that narrow nothing.
pub open spec fn minimised(cat: CatalogV, s: Seq<ClauseV>) -> Seq<ClauseV> {
    narrowing(cat, s, s.len(), selected_points(cat, selection_of(s)))
}

proof fn narrowing_selects_the_same(
    cat: CatalogV,
    kept: Seq<ClauseV>,
    n: nat,
    target: Seq<(CaseModel, Map<Seq<char>, TagV>)>,
)
    requires
        same_points(selected_points(cat, selection_of(kept)), target),
        n <= kept.len(),
    ensures
        same_points(selected_points(cat, selection_of(narrowing(cat, kept, n, target))), target),
    decreases n,
{
    if n > 0 {
        let without = kept.remove(n - 1);
        if same_points(selected_points(cat, selection_of(without)), target) {
            narrowing_selects_the_same(cat, without, (n - 1) as nat, target);
        } else {
            narrowing_selects_the_same(cat, kept, (n - 1) as nat, target);
        }
    }
}

/// Minimising does not change what is selected: the shortened selection has exactly
/// the points of the full one.
pub proof fn minimising_selects_the_same(cat: CatalogV, s: Seq<ClauseV>)
    ensures
        same_points(
            selected_points(cat, selection_of(minimised(cat, s))),
            selected_points(cat, selection_of(s)),
        ),
{
    same_points_as_itself(selected_points(cat, selection_of(s)));
    narrowing_selects_the_same(cat, s, s.len(), selected_points(cat, selection_of(s)));
}

// ---------------------------------------------------------------- the picker

/// The command that runs a selection.
pub open spec fn command_text(runner: Runner, set: Seq<Seq<ClauseV>>) -> Seq<char> {
    if set.len() == 0 {
        "spatial-bench run --runner "@ + runner_name(runner)
    } else {
        "spatial-bench run --runner "@ + runner_name(runner) + " --select '"@ + join(
            set_exprs(set),
            "' --select '"@,
        ) + "'"@
    }
}

fn copy_clauses(list: &Vec<Clause>) -> (r: Vec<Clause>)
    ensures
        clauses_of(r@) == clauses_of(list@),
{
    let mut r: Vec<Clause> = Vec::new();
    let mut i: usize = 0;
    while i < list.len()
        invariant
            i <= list@.len(),
            r@.len() == i,
            forall|j: int| 0 <= j < i ==> (#[trigger] r@[j])@ == list@[j]@,
        decreases list@.len() - i,
    {
        r.push(list[i].clone());
        i = i + 1;
    }
    assert(clauses_of(r@) =~= clauses_of(list@));
    r
}

fn select(clauses: Vec<Clause>) -> (r: SelectorSet)
    ensures
        r@ == selection_of(clauses_of(clauses@)),
{
    if clauses.len() == 0 {
        let selectors: Vec<Selector> = Vec::new();
        let r = SelectorSet { selectors };
        assert(r@ =~= Seq::empty());
        r
    } else {
        let selector = Selector { clauses };
        let r = SelectorSet { selectors: vec![selector] };
        assert(r@ =~= seq![clauses_of(clauses@)]);
        r
    }
}

fn render(runner: Runner, selection: &SelectorSet) -> (r: String)
    ensures
        r@ == command_text(runner, selection@),
{
    let mut s = "spatial-bench run --runner ".to_owned();
    s.append(runner.as_str());
    if selection.selectors.len() == 0 {
        return s;
    }
    s.append(" --select '");
    s.append(joined(&selection.to_exprs(), "' --select '").as_str());
    s.append("'");
    s
}

impl Clone for Picker {
    fn clone(&self) -> (r: Self)
        ensures
            r@ == self@,
    {
        proof {
            use_type_invariant(self);
        }
        let chosen = copy_clauses(&self.chosen);
        Picker { chosen }
    }
}

impl Picker {
    #[verifier::type_invariant]
    spec fn is_tidy(self) -> bool {
        tidy(clauses_of(self.chosen@))
    }

    pub fn new() -> (r: Self)
        ensures
            r@ == Seq::<ClauseV>::empty(),
    {
        let r = Picker { chosen: Vec::new() };
        assert(r@ =~= Seq::empty());
        r
    }

    pub fn selection(&self) -> (r: SelectorSet)
        ensures
            r@ == selection_of(self@),
            tidy(self@),
    {
        proof {
            use_type_invariant(self);
        }
        select(copy_clauses(&self.chosen))
    }

    /// Pin a key to a set of values. An empty set clears the key. Clauses stay in the
    /// order of their keys, so the printed command does not churn as choices are
    /// revised.
    pub fn choose_values(&mut self, key: &str, vs: Vec<TagValue>)
        ensures
            final(self)@ == with_choice(old(self)@, key@, values(vs@)),
    {
        proof {
            use_type_invariant(&*self);
            choices_stay_tidy(self@, key@, values(vs@));
        }
        let ghost s = clauses_of(self.chosen@);
        let ghost wanted = values(vs@);
        let mut lo: Vec<Clause> = Vec::new();
        let mut hi: Vec<Clause> = Vec::new();
        let mut i: usize = 0;
        assert(clauses_of(lo@) =~= Seq::empty());
        assert(clauses_of(hi@) =~= Seq::empty());
        while i < self.chosen.len()
            invariant
                i <= self.chosen@.len(),
                s == clauses_of(self.chosen@),
                clauses_of(lo@) == below(s.take(i as int), key@),
                clauses_of(hi@) == above(s.take(i as int), key@),
            decreases self.chosen@.len() - i,
        {
            let ghost (a, b) = (clauses_of(lo@), clauses_of(hi@));
            proof {
                let t = s.take(i + 1);
                assert(t.drop_last() =~= s.take(i as int));
                assert(t.last() == self.chosen@[i as int]@);
                let k = self.chosen@[i as int]@.key;
                if text_lt(k, key@) && text_lt(key@, k) {
                    text_lt_transitive(k, key@, k);
                    text_lt_irreflexive(k);
                }
            }
            if before(self.chosen[i].key.as_str(), key) {
                lo.push(self.chosen[i].clone());
                assert(clauses_of(lo@) =~= a.push(self.chosen@[i as int]@));
            } else if before(key, self.chosen[i].key.as_str()) {
                hi.push(self.chosen[i].clone());
                assert(clauses_of(hi@) =~= b.push(self.chosen@[i as int]@));
            }
            i = i + 1;
        }
        assert(s.take(s.len() as int) =~= s);
        let ghost (a, b) = (clauses_of(lo@), clauses_of(hi@));
        let mut all = lo;
        if vs.len() > 0 {
            let clause = Clause {
                key: key.to_owned(),
                matcher: Match::OneOf(vs),
                negated: false,
            };
            all.push(clause);
        }
        proof {
            assert(clauses_of(all@) =~= a + pin(key@, wanted));
        }
        let ghost head = clauses_of(all@);
        all.append(&mut hi);
        assert(clauses_of(all@) =~= head + b);
        self.chosen = all;
    }

    /// The values that a key is pinned to.
    pub fn pinned(&self, key: &str) -> (r: Vec<TagValue>)
        ensures
            values(r@) == pinned_values(self@, key@),
    {
        let ghost s = clauses_of(self.chosen@);
        let mut i: usize = 0;
        assert(s.skip(0) =~= s);
        while i < self.chosen.len()
            invariant
                i <= self.chosen@.len(),
                s == clauses_of(self.chosen@),
                clause_at(s, key@) == i + clause_at(s.skip(i as int), key@),
            decreases self.chosen@.len() - i,
        {
            assert(s.skip(i as int).drop_first() =~= s.skip(i + 1));
            assert(s.skip(i as int)[0] == self.chosen@[i as int]@);
            if same(self.chosen[i].key.as_str(), key) {
                return match &self.chosen[i].matcher {
                    Match::OneOf(vs) => copy_values(vs),
                    _ => {
                        let none: Vec<TagValue> = Vec::new();
                        assert(values(none@) =~= Seq::empty());
                        none
                    },
                };
            }
            i = i + 1;
        }
        assert(s.skip(s.len() as int).len() == 0);
        let none: Vec<TagValue> = Vec::new();
        assert(values(none@) =~= Seq::empty());
        none
    }

    /// Keys worth offering, with the values still reachable for each.
    ///
    /// A key with only one reachable value is still listed: it tells the reader what
    /// the selection has already narrowed to.
    pub fn facets(&self, catalog: &Catalog) -> (r: Vec<Facet>)
        ensures
            ({
                let keys = facet_keys(catalog@, self@);
                &&& r@.len() == keys.len()
                &&& forall|i: int|
                    0 <= i < r@.len() ==> is_facet(#[trigger] r@[i], catalog@, self@, keys[i])
            }),
    {
        let selection = self.selection();
        let points = catalog.points(&selection);
        let keys = point_keys(&points);
        let ghost names = facet_keys(catalog@, self@);
        let mut r: Vec<Facet> = Vec::new();
        let mut i: usize = 0;
        while i < keys.len()
            invariant
                i <= keys@.len(),
                texts(keys@) == names,
                r@.len() == i,
                forall|j: int| 0 <= j < i ==> is_facet(#[trigger] r@[j], catalog@, self@, names[j]),
            decreases keys@.len() - i,
        {
            assert(texts(keys@)[i as int] == keys@[i as int]@);
            let mut free = self.clone();
            let none: Vec<TagValue> = Vec::new();
            assert(values(none@) =~= Seq::empty());
            free.choose_values(keys[i].as_str(), none);
            let vs = catalog.values_for(keys[i].as_str(), &free.selection());
            let facet = Facet {
                key: keys[i].clone(),
                values: vs,
                chosen: self.pinned(keys[i].as_str()),
            };
            r.push(facet);
            assert(is_facet(r@[i as int], catalog@, self@, names[i as int]));
            i = i + 1;
        }
        r
    }

    pub fn preview(&self, catalog: &Catalog, runner: Runner, budget: &Budget) -> (r: Preview)
        requires
            budget.warm_up_ms + budget.measurement_ms + PROCESS_OVERHEAD_MS <= u64::MAX,
            catalog@.cases.len() <= u32::MAX,
        ensures
            is_preview(r, catalog@, self@, runner, *budget),
    {
        let selection = self.selection();
        let cases = catalog.matching(&selection);
        let points = catalog.points(&selection);
        assert(case_refs(cases@).len() == cases@.len());
        assert(point_refs(points@).len() == points@.len());
        Preview {
            cases: cases.len(),
            points: points.len(),
            runners: catalog.runners_for(&selection),
            estimate: catalog.estimate(&selection, runner, budget),
            unsatisfied: catalog.unsatisfied(&selection),
        }
    }

    /// The selection with clauses that narrow nothing removed.
    ///
    /// The picker pins a key whenever you touch it, including keys with only one
    /// reachable value, so a fully-explored selection accumulates a clause per facet.
    /// Echoing all of them produces a repro line too long to read or paste. A clause
    /// whose removal leaves the points unchanged is dropped: the shortened expression
    /// selects exactly the same points.
    pub fn minimal(&self, catalog: &Catalog) -> (r: SelectorSet)
        ensures
            r@ == selection_of(minimised(catalog@, self@)),
    {
        let full = self.selection();
        let target = catalog.points(&full);
        let ghost goal = selected_points(catalog@, selection_of(self@));
        let mut kept = copy_clauses(&self.chosen);
        let mut n: usize = kept.len();
        while n > 0
            invariant
                n <= kept@.len(),
                goal == point_refs(target@),
                minimised(catalog@, self@) == narrowing(
                    catalog@,
                    clauses_of(kept@),
                    n as nat,
                    goal,
                ),
            decreases n,
        {
            let mut without = copy_clauses(&kept);
            let ghost before = clauses_of(kept@);
            without.remove(n - 1);
            assert(clauses_of(without@) =~= before.remove(n - 1));
            let candidate = select(copy_clauses(&without));
            let points = catalog.points(&candidate);
            if equal_points(&points, &target) {
                kept = without;
            }
            n = n - 1;
        }
        select(kept)
    }

    /// The non-interactive equivalent of the current selection, minimised. This is the
    /// line printed for reuse in CI.
    pub fn command_for(&self, runner: Runner, catalog: &Catalog) -> (r: String)
        ensures
            r@ == command_text(runner, selection_of(minimised(catalog@, self@))),
    {
        render(runner, &self.minimal(catalog))
    }

    /// Unminimised form, for callers with no catalog to hand.
    pub fn command(&self, runner: Runner) -> (r: String)
        ensures
            r@ == command_text(runner, selection_of(self@)),
    {
        render(runner, &self.selection())
    }
}

} // verus!
