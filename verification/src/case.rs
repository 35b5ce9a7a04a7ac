//! Cases: what can be measured, and how.

use crate::adapter::Adapter;
use crate::catalog_laws::one_selector_reaches;
use crate::harness::Budget;
use crate::ordered::{ascending, models, sorted, Ordered};
use crate::selector::{
    clause_at, constrains, copy_values, hits, listed, lists, selector_admits, Clause, ClauseV, Match,
    MatchV, Selector, SelectorSet,
};
use crate::tag::{equal_tags, render, same_tags, tag_eq, values, TagMap, TagV, TagValue};
use crate::text::{option_text, same, texts};
use vstd::prelude::*;

verus! {

/// Process start plus tree build, paid per point under `perf`.
pub const PROCESS_OVERHEAD_MS: u64 = 2_000;

/// Which measurement backend can drive a case.
#[derive(Clone, Copy, Debug, PartialEq, Eq, Structural)]
pub enum Runner {
    /// criterion sweep; many points per process.
    Criterion,
    /// `perf stat`; counters attribute to a process, so one point per process.
    Perf,
    /// Emits artefacts rather than points.
    Asm,
    Mca,
}

pub open spec fn runner_name(r: Runner) -> Seq<char> {
    match r {
        Runner::Criterion => "criterion"@,
        Runner::Perf => "perf"@,
        Runner::Asm => "asm"@,
        Runner::Mca => "mca"@,
    }
}

/// The runner of this name.
pub open spec fn runner_of(name: Seq<char>) -> Option<Runner> {
    if name == "criterion"@ {
        Some(Runner::Criterion)
    } else if name == "perf"@ {
        Some(Runner::Perf)
    } else if name == "asm"@ {
        Some(Runner::Asm)
    } else if name == "mca"@ {
        Some(Runner::Mca)
    } else {
        None
    }
}

impl Runner {
    /// The runner a manifest's `runners` list names.
    pub fn parse(raw: &str) -> (r: Option<Self>)
        ensures
            r == runner_of(raw@),
    {
        if same(raw, "criterion") {
            Some(Runner::Criterion)
        } else if same(raw, "perf") {
            Some(Runner::Perf)
        } else if same(raw, "asm") {
            Some(Runner::Asm)
        } else if same(raw, "mca") {
            Some(Runner::Mca)
        } else {
            None
        }
    }

    pub fn as_str(self) -> (r: &'static str)
        ensures
            r@ == runner_name(self),
    {
        match self {
            Runner::Criterion => "criterion",
            Runner::Perf => "perf",
            Runner::Asm => "asm",
            Runner::Mca => "mca",
        }
    }

    pub fn to_string(&self) -> (r: String)
        ensures
            r@ == runner_name(*self),
    {
        self.as_str().to_owned()
    }

    /// Runners the engine can actually execute. `Asm` and `Mca` emit artefacts
    /// rather than points and have no run path; the picker offers only implemented
    /// runners, because a menu item that ends in a refusal is not a choice.
    pub fn implemented(self) -> (r: bool)
        ensures
            r == (self is Criterion || self is Perf),
    {
        match self {
            Runner::Criterion => true,
            Runner::Perf => true,
            _ => false,
        }
    }
}

/// A runner's name reads as the runner, and no other name does.
pub proof fn runner_names_round_trip(r: Runner, name: Seq<char>)
    ensures
        runner_of(runner_name(r)) == Some(r),
        runner_of(name) == Some(r) ==> name == runner_name(r),
{
    reveal_strlit("criterion");
    reveal_strlit("perf");
    reveal_strlit("asm");
    reveal_strlit("mca");
    assert("perf"@.len() == 4 && "asm"@.len() == 3 && "mca"@.len() == 3);
    assert("asm"@[0] != "mca"@[0]);
}

// ---------------------------------------------------------------- params

/// The domain of a param axis.
#[derive(Debug)]
pub enum ParamDomain {
    /// An explicit set, e.g. tree sizes `2^16..=2^25`.
    Values(Vec<TagValue>),
    /// Inclusive integer range with a step, for large sweeps.
    IntRange { lo: i64, hi: i64, step: i64 },
    /// Any positive integer; the case supplies a default.
    AnyInt,
    /// Any number; the case supplies a default.
    AnyFloat,
}

pub enum DomainV {
    Values(Seq<TagV>),
    IntRange { lo: int, hi: int, step: int },
    AnyInt,
    AnyFloat,
}

impl View for ParamDomain {
    type V = DomainV;

    open spec fn view(&self) -> DomainV {
        match self {
            ParamDomain::Values(v) => DomainV::Values(values(v@)),
            ParamDomain::IntRange { lo, hi, step } => DomainV::IntRange {
                lo: *lo as int,
                hi: *hi as int,
                step: *step as int,
            },
            ParamDomain::AnyInt => DomainV::AnyInt,
            ParamDomain::AnyFloat => DomainV::AnyFloat,
        }
    }
}

/// The integers from `lo` to `hi` in strides.
pub open spec fn strides(lo: int, hi: int, stride: int) -> Seq<TagV>
    decreases
            if lo <= hi {
                hi - lo + 1
            } else {
                0
            },
{
    if lo > hi || stride <= 0 {
        Seq::empty()
    } else {
        seq![TagV::Int(lo)] + strides(lo + stride, hi, stride)
    }
}

/// The members of a finite domain; nothing for an open one.
pub open spec fn domain_values(d: DomainV) -> Option<Seq<TagV>> {
    match d {
        DomainV::Values(vs) => Some(vs),
        DomainV::IntRange { lo, hi, step } => Some(strides(lo, hi, step)),
        DomainV::AnyInt => None,
        DomainV::AnyFloat => None,
    }
}

impl Clone for ParamDomain {
    fn clone(&self) -> (r: Self)
        ensures
            r@ == self@,
    {
        match self {
            ParamDomain::Values(v) => ParamDomain::Values(copy_values(v)),
            ParamDomain::IntRange { lo, hi, step } => ParamDomain::IntRange {
                lo: *lo,
                hi: *hi,
                step: *step,
            },
            ParamDomain::AnyInt => ParamDomain::AnyInt,
            ParamDomain::AnyFloat => ParamDomain::AnyFloat,
        }
    }
}

/// A range advances.
pub open spec fn steps_forward(d: DomainV) -> bool {
    d matches DomainV::IntRange { step, .. } ==> step > 0
}

impl ParamDomain {
    /// Concrete values, when the domain is finite. `None` for open domains, which
    /// the interactive picker cannot offer as a list.
    pub fn enumerate(&self) -> (r: Option<Vec<TagValue>>)
        requires
            steps_forward(self@),
        ensures
            match r {
                Some(v) => domain_values(self@) == Some(values(v@)),
                None => domain_values(self@) is None,
            },
    {
        match self {
            ParamDomain::Values(v) => Some(copy_values(v)),
            ParamDomain::IntRange { lo, hi, step } => Some(int_strides(*lo, *hi, *step)),
            ParamDomain::AnyInt => None,
            ParamDomain::AnyFloat => None,
        }
    }
}

fn int_strides(lo: i64, hi: i64, step: i64) -> (r: Vec<TagValue>)
    requires
        step > 0,
    ensures
        values(r@) == strides(lo as int, hi as int, step as int),
{
    let mut r: Vec<TagValue> = Vec::new();
    let mut at: i128 = lo as i128;
    assert(values(r@) + strides(lo as int, hi as int, step as int) =~= strides(
        lo as int,
        hi as int,
        step as int,
    ));
    while at <= hi as i128
        invariant
            step > 0,
            i64::MIN <= at <= i64::MAX + step,
            values(r@) + strides(at as int, hi as int, step as int) == strides(
                lo as int,
                hi as int,
                step as int,
            ),
        decreases
                if at <= hi {
                    hi - at + 1
                } else {
                    0
                },
    {
        let ghost before = values(r@);
        r.push(TagValue::Int(at as i64));
        proof {
            assert(values(r@) =~= before.push(TagV::Int(at as int)));
            assert(before + (seq![TagV::Int(at as int)] + strides(
                at + step,
                hi as int,
                step as int,
            )) =~= before.push(TagV::Int(at as int)) + strides(at + step, hi as int, step as int));
        }
        at = at + step as i128;
    }
    assert(values(r@) + Seq::<TagV>::empty() =~= values(r@));
    r
}

#[derive(Debug)]
pub struct Param {
    pub key: String,
    pub domain: ParamDomain,
    pub default: TagValue,
}

pub struct ParamV {
    pub key: Seq<char>,
    pub domain: DomainV,
    pub default: TagV,
}

impl View for Param {
    type V = ParamV;

    open spec fn view(&self) -> ParamV {
        ParamV { key: self.key@, domain: self.domain@, default: self.default@ }
    }
}

impl Clone for Param {
    fn clone(&self) -> (r: Self)
        ensures
            r@ == self@,
    {
        Param { key: self.key.clone(), domain: self.domain.clone(), default: self.default.clone() }
    }
}

pub open spec fn params_of(v: Seq<Param>) -> Seq<ParamV> {
    Seq::new(v.len(), |i: int| v[i]@)
}

/// The first clause that a selector puts on the key.
pub open spec fn the_clause(s: Seq<ClauseV>, key: Seq<char>) -> ClauseV {
    s[clause_at(s, key)]
}

/// Is the value on the wanted side of the clause's matcher?
pub open spec fn passes(c: ClauseV, value: TagV) -> bool {
    hits(c.matcher, value) != c.negated
}

/// The values that pass a clause, in order.
pub open spec fn passing(c: ClauseV, vs: Seq<TagV>) -> Seq<TagV>
    decreases vs.len(),
{
    if vs.len() == 0 {
        Seq::empty()
    } else {
        let rest = passing(c, vs.drop_last());
        if passes(c, vs.last()) {
            rest.push(vs.last())
        } else {
            rest
        }
    }
}

/// Does an axis with an open domain take the value? A positive integer or a number, by
/// the domain, and the default in any case.
pub open spec fn takes_value(p: ParamV, v: TagV) -> bool {
    ||| tag_eq(v, p.default)
    ||| match p.domain {
        DomainV::AnyInt => v matches TagV::Int(i) && i > 0,
        DomainV::AnyFloat => v is Float || v is Int,
        _ => false,
    }
}

/// The values of a list that an axis with an open domain takes, in order.
pub open spec fn taken(p: ParamV, vs: Seq<TagV>) -> Seq<TagV>
    decreases vs.len(),
{
    if vs.len() == 0 {
        Seq::empty()
    } else {
        let rest = taken(p, vs.drop_last());
        if takes_value(p, vs.last()) {
            rest.push(vs.last())
        } else {
            rest
        }
    }
}

/// The values that a selector sweeps an axis over: every value of the domain that it
/// admits; the default where it says nothing about the axis. An open domain cannot be
/// listed, so there the selector's own literals are the sweep, and a clause that spells
/// out none (a range, a wildcard, a negation) stands for the default where it admits it.
pub open spec fn swept(p: ParamV, s: Seq<ClauseV>) -> Seq<TagV> {
    if !constrains(s, p.key) {
        seq![p.default]
    } else {
        let c = the_clause(s, p.key);
        match domain_values(p.domain) {
            Some(members) => passing(c, members),
            None => match c.matcher {
                MatchV::OneOf(vs) if !c.negated => taken(p, vs),
                _ => passing(c, seq![p.default]),
            },
        }
    }
}

/// Two lists of values as one; what the first has, the second does not bring again.
pub open spec fn with_values(vs: Seq<TagV>, more: Seq<TagV>) -> Seq<TagV>
    decreases more.len(),
{
    if more.len() == 0 {
        vs
    } else {
        let rest = with_values(vs, more.drop_last());
        if listed(vs, more.last()) {
            rest
        } else {
            rest.push(more.last())
        }
    }
}

/// Does a selector of the selection ask about the axis?
pub open spec fn some_ask(set: Seq<Seq<ClauseV>>, key: Seq<char>) -> bool {
    exists|i: int| 0 <= i < set.len() && constrains(#[trigger] set[i], key)
}

/// Does a selector of the selection say nothing about the axis?
pub open spec fn some_skip(set: Seq<Seq<ClauseV>>, key: Seq<char>) -> bool {
    exists|i: int| 0 <= i < set.len() && !constrains(#[trigger] set[i], key)
}

/// Does the value pass the clause that some selector puts on the axis?
pub open spec fn some_pass(set: Seq<Seq<ClauseV>>, key: Seq<char>, v: TagV) -> bool {
    exists|i: int|
        0 <= i < set.len() && constrains(#[trigger] set[i], key) && passes(
            the_clause(set[i], key),
            v,
        )
}

/// The values of a list that some selector asks for, in the order of the list; with the
/// default, where it has a place there too.
pub open spec fn kept(
    p: ParamV,
    set: Seq<Seq<ClauseV>>,
    with_default: bool,
    vs: Seq<TagV>,
) -> Seq<TagV>
    decreases vs.len(),
{
    if vs.len() == 0 {
        Seq::empty()
    } else {
        let rest = kept(p, set, with_default, vs.drop_last());
        if some_pass(set, p.key, vs.last()) || (with_default && tag_eq(vs.last(), p.default)) {
            rest.push(vs.last())
        } else {
            rest
        }
    }
}

/// What the selectors that ask about an axis with an open domain sweep it over, one
/// selector after the other.
pub open spec fn spelled_out(p: ParamV, set: Seq<Seq<ClauseV>>) -> Seq<TagV>
    decreases set.len(),
{
    if set.len() == 0 {
        Seq::empty()
    } else {
        let rest = spelled_out(p, set.drop_last());
        if constrains(set.last(), p.key) {
            with_values(rest, swept(p, set.last()))
        } else {
            rest
        }
    }
}

/// The values that a selection asks for on an axis: those of the domain, in its order,
/// that pass the clause of some selector; the default where no selector asks. An open
/// domain has no order of its own, so there the selectors give it.
pub open spec fn swept_by(p: ParamV, set: Seq<Seq<ClauseV>>) -> Seq<TagV> {
    if !some_ask(set, p.key) {
        seq![p.default]
    } else {
        match domain_values(p.domain) {
            Some(members) => kept(p, set, false, members),
            None => spelled_out(p, set),
        }
    }
}

/// The values that the points of a selection have on an axis. A selector that says
/// nothing about the axis leaves it at the default, so there the default joins what the
/// others ask for: at its place in the domain, or at the end where it has none.
pub open spec fn axis_values(p: ParamV, set: Seq<Seq<ClauseV>>) -> Seq<TagV> {
    if some_ask(set, p.key) && some_skip(set, p.key) {
        match domain_values(p.domain) {
            Some(members) => if listed(members, p.default) {
                kept(p, set, true, members)
            } else {
                kept(p, set, true, members).push(p.default)
            },
            None => with_values(spelled_out(p, set), seq![p.default]),
        }
    } else {
        swept_by(p, set)
    }
}

fn passing_values(c: &Clause, vs: &Vec<TagValue>) -> (r: Vec<TagValue>)
    ensures
        values(r@) == passing(c@, values(vs@)),
{
    let mut r: Vec<TagValue> = Vec::new();
    let mut i: usize = 0;
    assert(values(r@) =~= Seq::empty());
    while i < vs.len()
        invariant
            i <= vs@.len(),
            values(r@) == passing(c@, values(vs@).take(i as int)),
        decreases vs@.len() - i,
    {
        let ghost before = values(r@);
        proof {
            let t = values(vs@).take(i + 1);
            assert(t.drop_last() =~= values(vs@).take(i as int));
            assert(t.last() == vs@[i as int]@);
        }
        if c.matcher.hits(&vs[i]) != c.negated {
            r.push(vs[i].clone());
            assert(values(r@) =~= before.push(vs@[i as int]@));
        }
        i = i + 1;
    }
    assert(values(vs@).take(vs@.len() as int) =~= values(vs@));
    r
}

fn add_values(vs: &mut Vec<TagValue>, more: Vec<TagValue>)
    ensures
        values(final(vs)@) == with_values(values(old(vs)@), values(more@)),
{
    let ghost was = values(vs@);
    let known = copy_values(vs);
    let mut i: usize = 0;
    while i < more.len()
        invariant
            i <= more@.len(),
            values(known@) == was,
            values(vs@) == with_values(was, values(more@).take(i as int)),
        decreases more@.len() - i,
    {
        let ghost before = values(vs@);
        proof {
            let t = values(more@).take(i + 1);
            assert(t.drop_last() =~= values(more@).take(i as int));
            assert(t.last() == more@[i as int]@);
        }
        if !lists(&known, &more[i]) {
            vs.push(more[i].clone());
            assert(values(vs@) =~= before.push(more@[i as int]@));
        }
        i = i + 1;
    }
    assert(values(more@).take(more@.len() as int) =~= values(more@));
}

impl Param {
    fn takes(&self, v: &TagValue) -> (r: bool)
        ensures
            r == takes_value(self@, v@),
    {
        if v.same_as(&self.default) {
            return true;
        }
        match (&self.domain, v) {
            (ParamDomain::AnyInt, TagValue::Int(i)) => *i > 0,
            (ParamDomain::AnyFloat, TagValue::Int(_)) => true,
            (ParamDomain::AnyFloat, TagValue::Float(_)) => true,
            _ => false,
        }
    }

    fn taken(&self, vs: &Vec<TagValue>) -> (r: Vec<TagValue>)
        ensures
            values(r@) == taken(self@, values(vs@)),
    {
        let mut r: Vec<TagValue> = Vec::new();
        let mut i: usize = 0;
        assert(values(r@) =~= Seq::empty());
        while i < vs.len()
            invariant
                i <= vs@.len(),
                values(r@) == taken(self@, values(vs@).take(i as int)),
            decreases vs@.len() - i,
        {
            let ghost before = values(r@);
            proof {
                let t = values(vs@).take(i + 1);
                assert(t.drop_last() =~= values(vs@).take(i as int));
                assert(t.last() == vs@[i as int]@);
            }
            if self.takes(&vs[i]) {
                r.push(vs[i].clone());
                assert(values(r@) =~= before.push(vs@[i as int]@));
            }
            i = i + 1;
        }
        assert(values(vs@).take(vs@.len() as int) =~= values(vs@));
        r
    }

    /// Every value in the domain one selector admits; the default when the selector
    /// says nothing about this axis.
    pub fn values_under(&self, s: &Selector) -> (r: Vec<TagValue>)
        requires
            steps_forward(self@.domain),
        ensures
            values(r@) == swept(self@, s@),
    {
        let only = self.only_default();
        let c = match s.clause_for(self.key.as_str()) {
            Some(c) => c,
            None => {
                return only;
            },
        };
        assert(c@ == the_clause(s@, self@.key));
        match self.domain.enumerate() {
            Some(members) => passing_values(c, &members),
            None => match &c.matcher {
                Match::OneOf(vs) => if c.negated {
                    passing_values(c, &only)
                } else {
                    self.taken(vs)
                },
                _ => passing_values(c, &only),
            },
        }
    }

    /// Does a selector of the selection ask about this axis, and does one say nothing?
    fn asked(&self, sel: &SelectorSet) -> (r: (bool, bool))
        ensures
            r.0 == some_ask(sel@, self@.key),
            r.1 == some_skip(sel@, self@.key),
    {
        let mut ask = false;
        let mut skip = false;
        let mut i: usize = 0;
        while i < sel.selectors.len()
            invariant
                i <= sel.selectors@.len(),
                ask == exists|j: int| 0 <= j < i && constrains(#[trigger] sel@[j], self@.key),
                skip == exists|j: int| 0 <= j < i && !constrains(#[trigger] sel@[j], self@.key),
            decreases sel.selectors@.len() - i,
        {
            assert(sel@[i as int] == sel.selectors@[i as int]@);
            match sel.selectors[i].clause_for(self.key.as_str()) {
                Some(_) => {
                    ask = true;
                },
                None => {
                    skip = true;
                },
            }
            i = i + 1;
        }
        (ask, skip)
    }

    /// Does the value pass the clause that some selector puts on this axis?
    fn passes_some(&self, sel: &SelectorSet, v: &TagValue) -> (r: bool)
        ensures
            r == some_pass(sel@, self@.key, v@),
    {
        let mut i: usize = 0;
        while i < sel.selectors.len()
            invariant
                i <= sel.selectors@.len(),
                forall|j: int|
                    0 <= j < i && constrains(#[trigger] sel@[j], self@.key) ==> !passes(
                        the_clause(sel@[j], self@.key),
                        v@,
                    ),
            decreases sel.selectors@.len() - i,
        {
            assert(sel@[i as int] == sel.selectors@[i as int]@);
            match sel.selectors[i].clause_for(self.key.as_str()) {
                Some(c) => {
                    if c.matcher.hits(v) != c.negated {
                        return true;
                    }
                },
                None => {},
            }
            i = i + 1;
        }
        false
    }

    fn kept(&self, sel: &SelectorSet, with_default: bool, vs: &Vec<TagValue>) -> (r: Vec<TagValue>)
        ensures
            values(r@) == kept(self@, sel@, with_default, values(vs@)),
    {
        let mut r: Vec<TagValue> = Vec::new();
        let mut i: usize = 0;
        assert(values(r@) =~= Seq::empty());
        while i < vs.len()
            invariant
                i <= vs@.len(),
                values(r@) == kept(self@, sel@, with_default, values(vs@).take(i as int)),
            decreases vs@.len() - i,
        {
            let ghost before = values(r@);
            proof {
                let t = values(vs@).take(i + 1);
                assert(t.drop_last() =~= values(vs@).take(i as int));
                assert(t.last() == vs@[i as int]@);
            }
            if self.passes_some(sel, &vs[i]) || (with_default && vs[i].same_as(&self.default)) {
                r.push(vs[i].clone());
                assert(values(r@) =~= before.push(vs@[i as int]@));
            }
            i = i + 1;
        }
        assert(values(vs@).take(vs@.len() as int) =~= values(vs@));
        r
    }

    fn spelled_out(&self, sel: &SelectorSet) -> (r: Vec<TagValue>)
        requires
            steps_forward(self@.domain),
        ensures
            values(r@) == spelled_out(self@, sel@),
    {
        let mut r: Vec<TagValue> = Vec::new();
        assert(values(r@) =~= Seq::empty());
        let mut i: usize = 0;
        while i < sel.selectors.len()
            invariant
                i <= sel.selectors@.len(),
                steps_forward(self@.domain),
                values(r@) == spelled_out(self@, sel@.take(i as int)),
            decreases sel.selectors@.len() - i,
        {
            proof {
                let t = sel@.take(i + 1);
                assert(t.drop_last() =~= sel@.take(i as int));
                assert(t.last() == sel.selectors@[i as int]@);
            }
            if sel.selectors[i].clause_for(self.key.as_str()).is_some() {
                let more = self.values_under(&sel.selectors[i]);
                add_values(&mut r, more);
            }
            i = i + 1;
        }
        assert(sel@.take(sel@.len() as int) =~= sel@);
        r
    }

    fn only_default(&self) -> (r: Vec<TagValue>)
        ensures
            values(r@) == seq![self@.default],
    {
        let mut only: Vec<TagValue> = Vec::new();
        only.push(self.default.clone());
        assert(values(only@) =~= seq![self@.default]);
        only
    }

    /// Every value in the domain this selection admits; the default when it says
    /// nothing about this axis. Several selectors are a union, so a value counts when
    /// any of them admits it.
    pub fn selected_values(&self, sel: &SelectorSet) -> (r: Vec<TagValue>)
        requires
            steps_forward(self@.domain),
        ensures
            values(r@) == swept_by(self@, sel@),
    {
        if !self.asked(sel).0 {
            return self.only_default();
        }
        match self.domain.enumerate() {
            Some(members) => self.kept(sel, false, &members),
            None => self.spelled_out(sel),
        }
    }

    /// The values that the points of this selection have on this axis: what is asked
    /// for, and the default where a selector does not ask.
    fn values_across(&self, sel: &SelectorSet) -> (r: Vec<TagValue>)
        requires
            steps_forward(self@.domain),
        ensures
            values(r@) == axis_values(self@, sel@),
    {
        let (ask, skip) = self.asked(sel);
        if !(ask && skip) {
            return self.selected_values(sel);
        }
        match self.domain.enumerate() {
            Some(members) => {
                let mut r = self.kept(sel, true, &members);
                if !lists(&members, &self.default) {
                    let ghost before = values(r@);
                    r.push(self.default.clone());
                    assert(values(r@) =~= before.push(self@.default));
                }
                r
            },
            None => {
                let mut r = self.spelled_out(sel);
                add_values(&mut r, self.only_default());
                r
            },
        }
    }
}

// ---------------------------------------------------------------- cases

/// One measurable thing.
#[derive(Debug)]
pub struct Case {
    /// Stable, human-readable handle. Used in logs and error messages only; never
    /// parsed, never the identity.
    pub id: String,
    /// The subject that declared it, i.e. which manifest it came from.
    pub subject: String,
    /// How to execute it, typed at manifest load.
    pub adapter: Adapter,
    /// Engine crate providing this subject's driver. rust-codegen only; an exec
    /// driver is a program beside the manifest, not a crate.
    pub driver_crate: Option<String>,
    /// Two-phase only: macro a generated program invokes.
    pub driver_macro: Option<String>,
    /// exec only: the driver's language and entry file.
    pub driver_lang: Option<String>,
    pub driver_entry: Option<String>,
    /// Which driver block this case belongs to: the driver whose supported range
    /// contains the pinned library version.
    pub driver: String,
    /// Fixed identity tags.
    pub tags: TagMap,
    /// Axes this case can be swept over.
    pub params: Vec<Param>,
    pub runners: Vec<String>,
    /// Tag keys that are generic parameters of this subject. Two cases sharing
    /// these values share a generated binary, however their runtime axes differ.
    pub compile_time_keys: Vec<String>,
}

/// A case by its contents.
pub struct CaseV {
    pub id: Seq<char>,
    pub subject: Seq<char>,
    pub adapter: Adapter,
    pub driver_crate: Option<Seq<char>>,
    pub driver_macro: Option<Seq<char>>,
    pub driver_lang: Option<Seq<char>>,
    pub driver_entry: Option<Seq<char>>,
    pub driver: Seq<char>,
    pub tags: Map<Seq<char>, TagV>,
    pub params: Seq<ParamV>,
    pub runners: Seq<Seq<char>>,
    pub compile_time_keys: Seq<Seq<char>>,
}

impl View for Case {
    type V = CaseV;

    open spec fn view(&self) -> CaseV {
        CaseV {
            id: self.id@,
            subject: self.subject@,
            adapter: self.adapter,
            driver_crate: option_text(self.driver_crate),
            driver_macro: option_text(self.driver_macro),
            driver_lang: option_text(self.driver_lang),
            driver_entry: option_text(self.driver_entry),
            driver: self.driver@,
            tags: self.tags@,
            params: params_of(self.params@),
            runners: texts(self.runners@),
            compile_time_keys: texts(self.compile_time_keys@),
        }
    }
}

pub open spec fn cases_of(v: Seq<Case>) -> Seq<CaseV> {
    Seq::new(v.len(), |i: int| v[i]@)
}

/// Every range of the case advances.
pub open spec fn sweepable(c: CaseV) -> bool {
    forall|i: int| 0 <= i < c.params.len() ==> steps_forward((#[trigger] c.params[i]).domain)
}

/// The names of a case's axes.
pub open spec fn axis_names(params: Seq<ParamV>) -> Seq<Seq<char>> {
    Seq::new(params.len(), |i: int| params[i].key)
}

/// The compile-time keys that the tags hold, with their values as written.
pub open spec fn coordinate(keys: Seq<Seq<char>>, tags: Map<Seq<char>, TagV>) -> Seq<
    (Seq<char>, Seq<char>),
>
    decreases keys.len(),
{
    if keys.len() == 0 {
        Seq::empty()
    } else {
        let rest = coordinate(keys.drop_last(), tags);
        if tags.dom().contains(keys.last()) {
            rest.push((keys.last(), render(tags[keys.last()])))
        } else {
            rest
        }
    }
}

/// `s` holds the compile-time coordinate of a case, in ascending order.
pub open spec fn is_compile_time_key(c: CaseV, s: Seq<(Seq<char>, Seq<char>)>) -> bool {
    &&& ascending::<(String, String)>(s)
    &&& s.to_multiset() == coordinate(c.compile_time_keys, c.tags).to_multiset()
}

/// Each point with each value of an axis.
pub open spec fn spread(
    points: Seq<Map<Seq<char>, TagV>>,
    key: Seq<char>,
    vs: Seq<TagV>,
) -> Seq<Map<Seq<char>, TagV>>
    decreases points.len(),
{
    if points.len() == 0 {
        Seq::empty()
    } else {
        spread(points.drop_last(), key, vs) + Seq::new(
            vs.len(),
            |i: int| points.last().insert(key, vs[i]),
        )
    }
}

/// Every combination of the values that a selector sweeps, before the selector judges
/// the whole point.
pub open spec fn combinations(
    tags: Map<Seq<char>, TagV>,
    params: Seq<ParamV>,
    s: Seq<ClauseV>,
) -> Seq<Map<Seq<char>, TagV>>
    decreases params.len(),
{
    if params.len() == 0 {
        seq![tags]
    } else {
        spread(
            combinations(tags, params.drop_last(), s),
            params.last().key,
            swept(params.last(), s),
        )
    }
}

/// The points that a selector admits, in order.
pub open spec fn admitted(points: Seq<Map<Seq<char>, TagV>>, s: Seq<ClauseV>) -> Seq<
    Map<Seq<char>, TagV>,
>
    decreases points.len(),
{
    if points.len() == 0 {
        Seq::empty()
    } else {
        let rest = admitted(points.drop_last(), s);
        if selector_admits(s, points.last(), Seq::empty()) {
            rest.push(points.last())
        } else {
            rest
        }
    }
}

/// The fully resolved points of a case under one selector.
pub open spec fn reach(c: CaseV, s: Seq<ClauseV>) -> Seq<Map<Seq<char>, TagV>> {
    admitted(combinations(c.tags, c.params, s), s)
}

/// Is the point one of these?
pub open spec fn holds_point(points: Seq<Map<Seq<char>, TagV>>, p: Map<Seq<char>, TagV>) -> bool {
    exists|i: int| 0 <= i < points.len() && same_tags(#[trigger] points[i], p)
}

/// Is the point one that some selector reaches by itself?
pub open spec fn some_reach(
    c: CaseV,
    set: Seq<Seq<ClauseV>>,
    p: Map<Seq<char>, TagV>,
) -> bool {
    exists|i: int| 0 <= i < set.len() && holds_point(reach(c, #[trigger] set[i]), p)
}

/// Every combination of the values that the points of a selection have on the axes.
pub open spec fn grid(
    tags: Map<Seq<char>, TagV>,
    params: Seq<ParamV>,
    set: Seq<Seq<ClauseV>>,
) -> Seq<Map<Seq<char>, TagV>>
    decreases params.len(),
{
    if params.len() == 0 {
        seq![tags]
    } else {
        spread(
            grid(tags, params.drop_last(), set),
            params.last().key,
            axis_values(params.last(), set),
        )
    }
}

/// The points that some selector reaches by itself, in order.
pub open spec fn reachable(
    c: CaseV,
    set: Seq<Seq<ClauseV>>,
    points: Seq<Map<Seq<char>, TagV>>,
) -> Seq<Map<Seq<char>, TagV>>
    decreases points.len(),
{
    if points.len() == 0 {
        Seq::empty()
    } else {
        let rest = reachable(c, set, points.drop_last());
        if some_reach(c, set, points.last()) {
            rest.push(points.last())
        } else {
            rest
        }
    }
}

/// The fully resolved points of a case under a selection: the union of what each
/// selector reaches, in the order of the axes and of their values; with nothing
/// selected, what every axis at its default makes.
pub open spec fn expansion(c: CaseV, set: Seq<Seq<ClauseV>>) -> Seq<Map<Seq<char>, TagV>> {
    if set.len() == 0 {
        reach(c, Seq::empty())
    } else {
        reachable(c, set, grid(c.tags, c.params, set))
    }
}

pub open spec fn maps(v: Seq<TagMap>) -> Seq<Map<Seq<char>, TagV>> {
    Seq::new(v.len(), |i: int| v[i]@)
}

/// A positive integer tag.
pub open spec fn positive(tags: Map<Seq<char>, TagV>, key: Seq<char>) -> Option<int> {
    if tags.dom().contains(key) {
        match tags[key] {
            TagV::Int(i) => if i > 0 {
                Some(i)
            } else {
                None
            },
            _ => None,
        }
    } else {
        None
    }
}

/// The bytes of a scalar type by its name.
pub open spec fn width(tags: Map<Seq<char>, TagV>, key: Seq<char>, default: int) -> int {
    if tags.dom().contains(key) {
        let name = render(tags[key]);
        if name == "f32"@ || name == "u32"@ {
            4
        } else if name == "f64"@ || name == "u64"@ {
            8
        } else if name == "u16"@ {
            2
        } else {
            default
        }
    } else {
        default
    }
}

/// The raw storage of a point: one row of coordinates and an index per point of
/// the tree.
pub open spec fn footprint(tags: Map<Seq<char>, TagV>) -> Option<int> {
    match (positive(tags, "tree_size"@), positive(tags, "dims"@)) {
        (Some(points), Some(dims)) => Some(
            points * (dims * width(tags, "axis"@, 8) + width(tags, "idx"@, 4)),
        ),
        _ => None,
    }
}

/// Milliseconds that one point takes.
pub open spec fn point_ms(runner: Runner, budget: Budget) -> int {
    match runner {
        Runner::Criterion => budget.warm_up_ms + budget.measurement_ms,
        Runner::Perf => budget.warm_up_ms + budget.measurement_ms + PROCESS_OVERHEAD_MS,
        _ => 0,
    }
}

fn positive_int(tags: &TagMap, key: &str) -> (r: Option<u64>)
    ensures
        match r {
            Some(n) => positive(tags@, key@) == Some(n as int) && n <= i64::MAX,
            None => positive(tags@, key@) is None,
        },
{
    match tags.get(key) {
        Some(TagValue::Int(i)) => if *i > 0 {
            Some(*i as u64)
        } else {
            None
        },
        _ => None,
    }
}

fn scalar_width(tags: &TagMap, key: &str, default: u64) -> (r: u64)
    requires
        default <= 8,
    ensures
        r == width(tags@, key@, default as int),
        r <= 8,
{
    match tags.get(key) {
        Some(v) => {
            let name = v.to_string();
            let n = name.as_str();
            if same(n, "f32") || same(n, "u32") {
                4
            } else if same(n, "f64") || same(n, "u64") {
                8
            } else if same(n, "u16") {
                2
            } else {
                default
            }
        },
        None => default,
    }
}

impl Case {
    /// The compile-time coordinate of this case: the values that decide which
    /// monomorphisation it needs. Cases with equal keys share one build.
    pub fn compile_time_key(&self) -> (r: Vec<(String, String)>)
        ensures
            is_compile_time_key(self@, models(r@)),
    {
        let mut out: Vec<(String, String)> = Vec::new();
        let mut i: usize = 0;
        assert(models(out@) =~= Seq::empty());
        while i < self.compile_time_keys.len()
            invariant
                i <= self.compile_time_keys@.len(),
                models(out@) == coordinate(
                    texts(self.compile_time_keys@).take(i as int),
                    self.tags@,
                ),
            decreases self.compile_time_keys@.len() - i,
        {
            let ghost before = models(out@);
            proof {
                let t = texts(self.compile_time_keys@).take(i + 1);
                assert(t.drop_last() =~= texts(self.compile_time_keys@).take(i as int));
                assert(t.last() == self.compile_time_keys@[i as int]@);
            }
            match self.tags.get(self.compile_time_keys[i].as_str()) {
                Some(v) => {
                    let pair = (self.compile_time_keys[i].clone(), v.to_string());
                    let ghost m = pair.model();
                    out.push(pair);
                    assert(models(out@) =~= before.push(m));
                },
                None => {},
            }
            i = i + 1;
        }
        assert(texts(self.compile_time_keys@).take(self.compile_time_keys@.len() as int) =~= texts(
            self.compile_time_keys@,
        ));
        sorted(out)
    }

    /// The param axes this case sweeps, for the selector's deferral rule.
    pub fn param_keys(&self) -> (r: Vec<String>)
        ensures
            texts(r@) == axis_names(self@.params),
    {
        let mut r: Vec<String> = Vec::new();
        let mut i: usize = 0;
        while i < self.params.len()
            invariant
                i <= self.params@.len(),
                r@.len() == i,
                forall|j: int| 0 <= j < i ==> (#[trigger] r@[j])@ == self.params@[j].key@,
            decreases self.params@.len() - i,
        {
            r.push(self.params[i].key.clone());
            i = i + 1;
        }
        assert(texts(r@) =~= axis_names(self@.params));
        r
    }

    /// The fully-resolved tag maps that one selector reaches.
    ///
    /// A param constrained by the selector is swept over the constrained values; an
    /// unconstrained one contributes only its default. That is what lets one
    /// expression both choose cases and pin sweeps without a second flag.
    pub fn expand_under(&self, s: &Selector) -> (r: Vec<TagMap>)
        requires
            sweepable(self@),
        ensures
            maps(r@) == reach(self@, s@),
    {
        let mut points: Vec<TagMap> = Vec::new();
        points.push(self.tags.clone());
        assert(maps(points@) =~= seq![self@.tags]);
        let mut i: usize = 0;
        assert(params_of(self.params@).take(0) =~= Seq::empty());
        while i < self.params.len()
            invariant
                i <= self.params@.len(),
                sweepable(self@),
                maps(points@) == combinations(self@.tags, self@.params.take(i as int), s@),
            decreases self.params@.len() - i,
        {
            proof {
                let t = self@.params.take(i + 1);
                assert(t.drop_last() =~= self@.params.take(i as int));
                assert(t.last() == self@.params[i as int]);
                assert(steps_forward(self@.params[i as int].domain));
            }
            let vs = self.params[i].values_under(s);
            points = spread_points(&points, self.params[i].key.as_str(), &vs);
            i = i + 1;
        }
        assert(self@.params.take(self.params@.len() as int) =~= self@.params);
        let mut r: Vec<TagMap> = Vec::new();
        let mut j: usize = 0;
        assert(maps(r@) =~= Seq::empty());
        while j < points.len()
            invariant
                j <= points@.len(),
                maps(r@) == admitted(maps(points@).take(j as int), s@),
            decreases points@.len() - j,
        {
            let ghost before = maps(r@);
            proof {
                let t = maps(points@).take(j + 1);
                assert(t.drop_last() =~= maps(points@).take(j as int));
                assert(t.last() == points@[j as int]@);
            }
            if s.admits_point(&points[j]) {
                r.push(points[j].clone());
                assert(maps(r@) =~= before.push(points@[j as int]@));
            }
            j = j + 1;
        }
        assert(maps(points@).take(points@.len() as int) =~= maps(points@));
        r
    }

    /// Every combination of the values that the points of a selection have.
    fn combine(&self, sel: &SelectorSet) -> (points: Vec<TagMap>)
        requires
            sweepable(self@),
        ensures
            maps(points@) == grid(self@.tags, self@.params, sel@),
    {
        let mut points: Vec<TagMap> = Vec::new();
        points.push(self.tags.clone());
        assert(maps(points@) =~= seq![self@.tags]);
        let mut i: usize = 0;
        assert(params_of(self.params@).take(0) =~= Seq::empty());
        while i < self.params.len()
            invariant
                i <= self.params@.len(),
                sweepable(self@),
                maps(points@) == grid(self@.tags, self@.params.take(i as int), sel@),
            decreases self.params@.len() - i,
        {
            proof {
                let t = self@.params.take(i + 1);
                assert(t.drop_last() =~= self@.params.take(i as int));
                assert(t.last() == self@.params[i as int]);
                assert(steps_forward(self@.params[i as int].domain));
            }
            let vs = self.params[i].values_across(sel);
            points = spread_points(&points, self.params[i].key.as_str(), &vs);
            i = i + 1;
        }
        assert(self@.params.take(self.params@.len() as int) =~= self@.params);
        points
    }

    /// Expand into one fully-resolved tag map per data point.
    ///
    /// Several selectors are a union: each sweeps what it constrains and leaves the
    /// rest at its default, and a point that two of them reach is there once. With no
    /// selector every param contributes its default. The points come in the order of
    /// the axes and of their values, however the selectors are ordered.
    pub fn expand(&self, sel: &SelectorSet) -> (r: Vec<TagMap>)
        requires
            sweepable(self@),
        ensures
            maps(r@) == expansion(self@, sel@),
    {
        if sel.selectors.len() == 0 {
            let nothing = Selector { clauses: Vec::new() };
            assert(nothing@ =~= Seq::<ClauseV>::empty());
            return self.expand_under(&nothing);
        }
        if sel.selectors.len() == 1 {
            proof {
                one_selector_reaches(self@, sel.selectors@[0]@);
                assert(sel@ =~= seq![sel.selectors@[0]@]);
            }
            return self.expand_under(&sel.selectors[0]);
        }
        let mut alone: Vec<Vec<TagMap>> = Vec::new();
        let mut i: usize = 0;
        while i < sel.selectors.len()
            invariant
                i <= sel.selectors@.len(),
                sweepable(self@),
                alone@.len() == i,
                forall|j: int| 0 <= j < i ==> maps((#[trigger] alone@[j])@) == reach(self@, sel@[j]),
            decreases sel.selectors@.len() - i,
        {
            assert(sel@[i as int] == sel.selectors@[i as int]@);
            alone.push(self.expand_under(&sel.selectors[i]));
            i = i + 1;
        }
        let points = self.combine(sel);
        let mut r: Vec<TagMap> = Vec::new();
        let mut k: usize = 0;
        assert(maps(r@) =~= Seq::empty());
        while k < points.len()
            invariant
                k <= points@.len(),
                alone@.len() == sel@.len(),
                forall|j: int|
                    0 <= j < alone@.len() ==> maps((#[trigger] alone@[j])@) == reach(self@, sel@[j]),
                maps(r@) == reachable(self@, sel@, maps(points@).take(k as int)),
            decreases points@.len() - k,
        {
            let ghost before = maps(r@);
            proof {
                let t = maps(points@).take(k + 1);
                assert(t.drop_last() =~= maps(points@).take(k as int));
                assert(t.last() == points@[k as int]@);
            }
            let found = among_any(&alone, &points[k]);
            assert(found == some_reach(self@, sel@, points@[k as int]@)) by {
                if found {
                    let j = choose|j: int|
                        0 <= j < alone@.len() && holds_point(
                            maps((#[trigger] alone@[j])@),
                            points@[k as int]@,
                        );
                    assert(holds_point(reach(self@, sel@[j]), points@[k as int]@));
                }
                if some_reach(self@, sel@, points@[k as int]@) {
                    let j = choose|j: int|
                        0 <= j < sel@.len() && holds_point(
                            reach(self@, #[trigger] sel@[j]),
                            points@[k as int]@,
                        );
                    assert(holds_point(maps(alone@[j]@), points@[k as int]@));
                }
            }
            if found {
                r.push(points[k].clone());
                assert(maps(r@) =~= before.push(points@[k as int]@));
            }
            k = k + 1;
        }
        assert(maps(points@).take(points@.len() as int) =~= maps(points@));
        r
    }

    /// Lower bound on the resident bytes a point needs: the raw coordinate and
    /// index storage, ignoring stem and leaf overhead and any transient build
    /// scratch.
    ///
    /// The real ceiling on `tree_size` is host memory, which is per-machine and
    /// therefore cannot be a constant in a subject manifest. A manifest declares
    /// the range worth sweeping; the engine decides what fits at run time.
    pub fn footprint_bytes(tags: &TagMap) -> (r: Option<u64>)
        requires
            footprint(tags@) is Some ==> footprint(tags@)->Some_0 <= u64::MAX,
        ensures
            match r {
                Some(n) => footprint(tags@) == Some(n as int),
                None => footprint(tags@) is None,
            },
    {
        let points = match positive_int(tags, "tree_size") {
            Some(n) => n,
            None => {
                return None;
            },
        };
        let dims = match positive_int(tags, "dims") {
            Some(n) => n,
            None => {
                return None;
            },
        };
        let a = scalar_width(tags, "axis", 8);
        let b = scalar_width(tags, "idx", 4);
        proof {
            let row = dims as int * a as int + b as int;
            assert(points as int * row >= row) by (nonlinear_arith)
                requires
                    points >= 1,
                    row >= 0,
            ;
            assert(dims as int * a as int >= 0) by (nonlinear_arith)
                requires
                    dims >= 0,
                    a >= 0,
            ;
        }
        Some(points * (dims * a + b))
    }

    /// Does the footprint of a point exceed the budget? A point without a
    /// footprint does not.
    pub fn exceeds(tags: &TagMap, budget_bytes: u64) -> (r: bool)
        ensures
            r == (footprint(tags@) is Some && footprint(tags@)->Some_0 > budget_bytes),
    {
        match (positive_int(tags, "tree_size"), positive_int(tags, "dims")) {
            (Some(points), Some(dims)) => {
                let a = scalar_width(tags, "axis", 8);
                let b = scalar_width(tags, "idx", 4);
                proof {
                    assert(dims as int * a as int <= i64::MAX * 8) by (nonlinear_arith)
                        requires
                            0 <= dims <= i64::MAX,
                            0 <= a <= 8,
                    ;
                    assert(dims as int * a as int >= 0) by (nonlinear_arith)
                        requires
                            dims >= 0,
                            a >= 0,
                    ;
                }
                let row: u128 = dims as u128 * a as u128 + b as u128;
                let each: u128 = (budget_bytes / points) as u128;
                proof {
                    let p = points as int;
                    let m = budget_bytes as int;
                    let w = row as int;
                    assert((p * w > m) == (w > m / p)) by (nonlinear_arith)
                        requires
                            p >= 1,
                            m >= 0,
                            w >= 0,
                    ;
                }
                row > each
            },
            _ => false,
        }
    }

    /// Predicted wall-clock milliseconds for `points` data points of this case.
    ///
    /// Deliberately crude, and stated as such in the menu: it is warm-up plus
    /// measurement per point, and for `perf` a per-process overhead, because perf
    /// attributes counters to a process and so runs one point per process rather
    /// than sweeping inside one.
    ///
    /// Compile time is not counted: it is amortised across every case sharing a
    /// subject and cannot be attributed to one case.
    pub fn estimate(&self, runner: Runner, points: usize, budget: &Budget) -> (r: u128)
        requires
            budget.warm_up_ms + budget.measurement_ms + PROCESS_OVERHEAD_MS <= u64::MAX,
        ensures
            r == point_ms(runner, *budget) * (points as u32),
    {
        let n: u32 = points as u32;
        let each: u64 = match runner {
            Runner::Criterion => budget.warm_up_ms + budget.measurement_ms,
            Runner::Perf => budget.warm_up_ms + budget.measurement_ms + PROCESS_OVERHEAD_MS,
            _ => 0,
        };
        proof {
            assert(each as int * n as int <= u64::MAX * u32::MAX) by (nonlinear_arith)
                requires
                    0 <= each <= u64::MAX,
                    0 <= n <= u32::MAX,
            ;
            assert(each as int * n as int >= 0) by (nonlinear_arith)
                requires
                    each >= 0,
                    n >= 0,
            ;
        }
        each as u128 * n as u128
    }
}

/// Is the point one of these?
fn among(points: &Vec<TagMap>, p: &TagMap) -> (r: bool)
    ensures
        r == holds_point(maps(points@), p@),
{
    let mut i: usize = 0;
    while i < points.len()
        invariant
            i <= points@.len(),
            forall|j: int| 0 <= j < i ==> !same_tags(#[trigger] maps(points@)[j], p@),
        decreases points@.len() - i,
    {
        assert(maps(points@)[i as int] == points@[i as int]@);
        if equal_tags(&points[i], p) {
            return true;
        }
        i = i + 1;
    }
    false
}

/// Is the point in one of these lists?
fn among_any(lists: &Vec<Vec<TagMap>>, p: &TagMap) -> (r: bool)
    ensures
        r == exists|j: int|
            0 <= j < lists@.len() && holds_point(maps((#[trigger] lists@[j])@), p@),
{
    let mut i: usize = 0;
    while i < lists.len()
        invariant
            i <= lists@.len(),
            forall|j: int| 0 <= j < i ==> !holds_point(maps((#[trigger] lists@[j])@), p@),
        decreases lists@.len() - i,
    {
        if among(&lists[i], p) {
            return true;
        }
        i = i + 1;
    }
    false
}

/// Each point with each value of an axis.
pub fn spread_points(points: &Vec<TagMap>, key: &str, vs: &Vec<TagValue>) -> (r: Vec<TagMap>)
    ensures
        maps(r@) == spread(maps(points@), key@, values(vs@)),
{
    let mut r: Vec<TagMap> = Vec::new();
    let mut i: usize = 0;
    assert(maps(r@) =~= Seq::empty());
    while i < points.len()
        invariant
            i <= points@.len(),
            maps(r@) == spread(maps(points@).take(i as int), key@, values(vs@)),
        decreases points@.len() - i,
    {
        let ghost before = maps(r@);
        let ghost row = Seq::new(vs@.len(), |k: int| points@[i as int]@.insert(key@, vs@[k]@));
        let mut k: usize = 0;
        while k < vs.len()
            invariant
                k <= vs@.len(),
                i < points@.len(),
                row == Seq::new(vs@.len(), |k: int| points@[i as int]@.insert(key@, vs@[k]@)),
                maps(r@) == before + row.take(k as int),
            decreases vs@.len() - k,
        {
            let ghost so_far = maps(r@);
            let mut tags = points[i].clone();
            tags.insert(key, vs[k].clone());
            r.push(tags);
            proof {
                assert(maps(r@) =~= so_far.push(row[k as int]));
                assert(maps(r@) =~= before + row.take(k + 1));
            }
            k = k + 1;
        }
        proof {
            let t = maps(points@).take(i + 1);
            assert(t.drop_last() =~= maps(points@).take(i as int));
            assert(t.last() == points@[i as int]@);
            assert(row.take(vs@.len() as int) =~= row);
            assert(row =~= Seq::new(
                values(vs@).len(),
                |j: int| t.last().insert(key@, values(vs@)[j]),
            ));
        }
        i = i + 1;
    }
    assert(maps(points@).take(points@.len() as int) =~= maps(points@));
    r
}

} // verus!
