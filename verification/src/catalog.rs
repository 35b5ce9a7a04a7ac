//! The catalog: every case, validated, queryable.

use crate::case::{
    axis_names, cases_of, domain_values, expansion, footprint, is_compile_time_key, maps,
    params_of, point_ms, steps_forward, sweepable, Case, CaseV, ParamV, Runner, PROCESS_OVERHEAD_MS,
};
use crate::harness::Budget;
use crate::manifest::{Build, BuildV, Source, SourceV};
use crate::ordered::{
    add_distinct, ascending_texts, distinct_texts, level, level_texts_are_equal,
    level_values_are_same, member, models, strictly_ascending, Ordered,
};
use crate::selector::{listed, hits, set_admits, ClauseV, Match, MatchV, SelectorSet};
use crate::tag::{expr_of, tag_eq, values, TagMap, TagV, TagValue};
use crate::text::{copy_option, copy_texts, dec, holds, join, joined, option_text, same, texts};
use crate::version::{at_least, read_semver, semver_reading, SemVer};
use crate::vocab::{lookup, writes_powers, ExtV, Vocabulary};
use vstd::prelude::*;

verus! {

/// The build-relevant slice of one driver block.
#[derive(Debug)]
pub struct DriverFacts {
    pub name: String,
    pub min_supported_semver: Option<String>,
    pub max_supported_semver: Option<String>,
    pub version: Option<String>,
    pub path: Option<String>,
    pub features: Vec<String>,
    pub rustflags: Option<String>,
    pub macro_name: Option<String>,
    pub crate_name: Option<String>,
}

/// A [`DriverFacts`] by its contents.
pub struct DriverFactsV {
    pub name: Seq<char>,
    pub min_supported_semver: Option<Seq<char>>,
    pub max_supported_semver: Option<Seq<char>>,
    pub version: Option<Seq<char>>,
    pub path: Option<Seq<char>>,
    pub features: Seq<Seq<char>>,
    pub rustflags: Option<Seq<char>>,
    pub macro_name: Option<Seq<char>>,
    pub crate_name: Option<Seq<char>>,
}

impl View for DriverFacts {
    type V = DriverFactsV;

    open spec fn view(&self) -> DriverFactsV {
        DriverFactsV {
            name: self.name@,
            min_supported_semver: option_text(self.min_supported_semver),
            max_supported_semver: option_text(self.max_supported_semver),
            version: option_text(self.version),
            path: option_text(self.path),
            features: texts(self.features@),
            rustflags: option_text(self.rustflags),
            macro_name: option_text(self.macro_name),
            crate_name: option_text(self.crate_name),
        }
    }
}

impl Clone for DriverFacts {
    fn clone(&self) -> (r: Self)
        ensures
            r@ == self@,
    {
        let r = DriverFacts {
            name: self.name.clone(),
            min_supported_semver: copy_option(&self.min_supported_semver),
            max_supported_semver: copy_option(&self.max_supported_semver),
            version: copy_option(&self.version),
            path: copy_option(&self.path),
            features: copy_texts(&self.features),
            rustflags: copy_option(&self.rustflags),
            macro_name: copy_option(&self.macro_name),
            crate_name: copy_option(&self.crate_name),
        };
        r
    }
}

/// Per-subject facts a build needs, kept from the manifest after lowering.
#[derive(Debug)]
pub struct SubjectFacts {
    pub pinned_ref: String,
    /// `cargo-git` (a crate cargo can fetch itself), `git` (a repository the
    /// engine's build recipe handles) or `pypi`.
    pub source_kind: String,
    pub repo: Option<String>,
    /// Published version of the subject's driver crate, for builds with no engine
    /// source tree to depend on by path.
    pub driver_version: Option<String>,
    /// The exact revision the manifest pins its ref to, when declared. The build
    /// refuses a ref that resolves to anything else.
    pub expected_sha: Option<String>,
    pub source_package: Option<String>,
    /// Driver assets relative to the manifest's own directory, when declared.
    pub driver_path: Option<String>,
    /// The exec build recipe. rust-codegen subjects carry none.
    pub build: Option<Build>,
    /// The directory this subject's manifest was loaded from, the anchor for
    /// manifest-relative driver assets.
    pub manifest_dir: String,
    pub features: Vec<String>,
    pub min_rustc: Option<String>,
    pub rustflags: Option<String>,
    /// One per driver block, each scoped to a version range of the library under
    /// test. The pin's version selects which one runs.
    pub drivers: Vec<DriverFacts>,
}

/// A [`SubjectFacts`] by its contents.
pub struct SubjectFactsV {
    pub pinned_ref: Seq<char>,
    pub source_kind: Seq<char>,
    pub repo: Option<Seq<char>>,
    pub driver_version: Option<Seq<char>>,
    pub expected_sha: Option<Seq<char>>,
    pub source_package: Option<Seq<char>>,
    pub driver_path: Option<Seq<char>>,
    pub build: Option<BuildV>,
    pub manifest_dir: Seq<char>,
    pub features: Seq<Seq<char>>,
    pub min_rustc: Option<Seq<char>>,
    pub rustflags: Option<Seq<char>>,
    pub drivers: Seq<DriverFactsV>,
}

impl View for SubjectFacts {
    type V = SubjectFactsV;

    open spec fn view(&self) -> SubjectFactsV {
        SubjectFactsV {
            pinned_ref: self.pinned_ref@,
            source_kind: self.source_kind@,
            repo: option_text(self.repo),
            driver_version: option_text(self.driver_version),
            expected_sha: option_text(self.expected_sha),
            source_package: option_text(self.source_package),
            driver_path: option_text(self.driver_path),
            build: match self.build {
                Some(x) => Some(x@),
                None => None,
            },
            manifest_dir: self.manifest_dir@,
            features: texts(self.features@),
            min_rustc: option_text(self.min_rustc),
            rustflags: option_text(self.rustflags),
            drivers: Seq::new(self.drivers@.len(), |i: int| self.drivers@[i]@),
        }
    }
}

impl Clone for SubjectFacts {
    fn clone(&self) -> (r: Self)
        ensures
            r@ == self@,
    {
        let mut drivers: Vec<DriverFacts> = Vec::new();
        let mut i: usize = 0;
        while i < self.drivers.len()
            invariant
                i <= self.drivers@.len(),
                drivers@.len() == i,
                forall|j: int| 0 <= j < i ==> (#[trigger] drivers@[j])@ == self.drivers@[j]@,
            decreases self.drivers@.len() - i,
        {
            drivers.push(self.drivers[i].clone());
            i = i + 1;
        }
        let r = SubjectFacts {
            pinned_ref: self.pinned_ref.clone(),
            source_kind: self.source_kind.clone(),
            repo: copy_option(&self.repo),
            driver_version: copy_option(&self.driver_version),
            expected_sha: copy_option(&self.expected_sha),
            source_package: copy_option(&self.source_package),
            driver_path: copy_option(&self.driver_path),
            build: match &self.build {
                Some(x) => Some(x.clone()),
                None => None,
            },
            manifest_dir: self.manifest_dir.clone(),
            features: copy_texts(&self.features),
            min_rustc: copy_option(&self.min_rustc),
            rustflags: copy_option(&self.rustflags),
            drivers,
        };
        assert(r@.drivers =~= self@.drivers);
        r
    }
}

pub struct Catalog {
    cases: Vec<Case>,
    vocab: Vocabulary,
    subjects: Vec<(String, SubjectFacts)>,
}

/// A catalog by its contents.
pub struct CatalogV {
    pub cases: Seq<CaseV>,
    pub vocab: Seq<ExtV>,
    pub subjects: Seq<(Seq<char>, SubjectFactsV)>,
}

pub open spec fn entries_of(v: Seq<(String, SubjectFacts)>) -> Seq<(Seq<char>, SubjectFactsV)> {
    Seq::new(v.len(), |i: int| (v[i].0@, v[i].1@))
}

impl View for Catalog {
    type V = CatalogV;

    closed spec fn view(&self) -> CatalogV {
        CatalogV {
            cases: cases_of(self.cases@),
            vocab: self.vocab@,
            subjects: entries_of(self.subjects@),
        }
    }
}

/// Every case can be swept.
pub open spec fn all_sweepable(cases: Seq<CaseV>) -> bool {
    forall|i: int| 0 <= i < cases.len() ==> sweepable(#[trigger] cases[i])
}

// ---------------------------------------------------------------- subjects

/// The facts that a list first gives for a name.
pub open spec fn facts_in(list: Seq<(Seq<char>, SubjectFactsV)>, name: Seq<char>) -> Option<
    SubjectFactsV,
>
    decreases list.len(),
{
    if list.len() == 0 {
        None
    } else if list[0].0 == name {
        Some(list[0].1)
    } else {
        facts_in(list.drop_first(), name)
    }
}

/// A pinned ref without the leading `v`, `V` and `.` that tags carry.
pub open spec fn bare_ref(s: Seq<char>) -> Seq<char>
    decreases s.len(),
{
    if s.len() > 0 && (s[0] == 'v' || s[0] == 'V' || s[0] == '.') {
        bare_ref(s.drop_first())
    } else {
        s
    }
}

/// What stands before the first `-` or `+`.
pub open spec fn release_part(s: Seq<char>) -> Seq<char>
    decreases s.len(),
{
    if s.len() == 0 || s[0] == '-' || s[0] == '+' {
        Seq::empty()
    } else {
        seq![s[0]] + release_part(s.drop_first())
    }
}

/// A bound without its leading `v`s.
pub open spec fn bare_bound(s: Seq<char>) -> Seq<char>
    decreases s.len(),
{
    if s.len() > 0 && s[0] == 'v' {
        bare_bound(s.drop_first())
    } else {
        s
    }
}

/// Is the version not below a bound? An absent bound, or one that is no version,
/// is open.
pub open spec fn above_min(bound: Option<Seq<char>>, v: SemVer) -> bool {
    match bound {
        Some(t) => match semver_reading(bare_bound(t)) {
            Ok(m) => at_least(v, m),
            Err(_) => true,
        },
        None => true,
    }
}

/// Is the version below a bound? An absent bound, or one that is no version, is
/// open.
pub open spec fn below_max(bound: Option<Seq<char>>, v: SemVer) -> bool {
    match bound {
        Some(t) => match semver_reading(bare_bound(t)) {
            Ok(m) => !at_least(v, m),
            Err(_) => true,
        },
        None => true,
    }
}

/// Does the driver's supported range contain the version? Inclusive at the bottom,
/// exclusive at the top.
pub open spec fn supports(d: DriverFactsV, v: SemVer) -> bool {
    above_min(d.min_supported_semver, v) && below_max(d.max_supported_semver, v)
}

/// The drivers whose range contains the version, in order.
pub open spec fn supporting(drivers: Seq<DriverFactsV>, v: SemVer) -> Seq<DriverFactsV>
    decreases drivers.len(),
{
    if drivers.len() == 0 {
        Seq::empty()
    } else {
        let rest = supporting(drivers.drop_last(), v);
        if supports(drivers.last(), v) {
            rest.push(drivers.last())
        } else {
            rest
        }
    }
}

pub open spec fn version_text(v: SemVer) -> Seq<char> {
    dec(v.major as nat) + "."@ + dec(v.minor as nat) + "."@ + dec(v.patch as nat)
}

/// The driver that a subject's pin selects, or why there is none.
pub open spec fn driver_choice(
    list: Seq<(Seq<char>, SubjectFactsV)>,
    subject: Seq<char>,
) -> Result<DriverFactsV, Seq<char>> {
    match facts_in(list, subject) {
        None => Err(subject + ": no such subject"@),
        Some(facts) => driver_of_pin(subject, facts.pinned_ref, facts.drivers, semver_reading(
            release_part(bare_ref(facts.pinned_ref)),
        )),
    }
}

/// The driver for a pin, given how the pin reads as a version.
pub open spec fn driver_of_pin(
    subject: Seq<char>,
    pinned_ref: Seq<char>,
    drivers: Seq<DriverFactsV>,
    reading: Result<SemVer, Seq<char>>,
) -> Result<DriverFactsV, Seq<char>> {
    match reading {
        Err(e) => Err(
            subject + ": the pinned ref `"@ + pinned_ref
                + "` is not a semver version, so no driver range can be selected: "@ + e,
        ),
        Ok(v) => {
            let fit = supporting(drivers, v);
            if fit.len() == 0 {
                Err(
                    subject + ": the pinned version "@ + version_text(v)
                        + " is outside every driver's supported range"@,
                )
            } else if fit.len() > 1 {
                Err(
                    subject + ": the pinned version "@ + version_text(v)
                        + " is inside more than one driver's supported range — tighten the ranges"@,
                )
            } else {
                Ok(fit[0])
            }
        },
    }
}

/// A text without the leading characters that satisfy a test.
fn bare_ref_of(s: &str) -> (r: String)
    ensures
        r@ == release_part(bare_ref(s@)),
        !r@.contains('-') && !r@.contains('+'),
{
    let v = crate::text::chars(s);
    let mut lo: usize = 0;
    assert(v@.skip(0) =~= v@);
    while lo < v.len() && (v[lo] == 'v' || v[lo] == 'V' || v[lo] == '.')
        invariant
            lo <= v@.len(),
            bare_ref(s@) == bare_ref(v@.skip(lo as int)),
        decreases v@.len() - lo,
    {
        assert(v@.skip(lo as int).drop_first() =~= v@.skip(lo + 1));
        lo = lo + 1;
    }
    let mut r = String::new();
    let mut hi: usize = lo;
    assert(r@ + release_part(v@.skip(lo as int)) =~= release_part(v@.skip(lo as int)));
    while hi < v.len() && v[hi] != '-' && v[hi] != '+'
        invariant
            lo <= hi <= v@.len(),
            r@ + release_part(v@.skip(hi as int)) == release_part(bare_ref(s@)),
            forall|j: int| 0 <= j < r@.len() ==> r@[j] != '-' && r@[j] != '+',
        decreases v@.len() - hi,
    {
        let ghost before = r@;
        r.push(v[hi]);
        proof {
            let t = v@.skip(hi as int);
            assert(t.drop_first() =~= v@.skip(hi + 1));
            assert(before + (seq![v@[hi as int]] + release_part(t.drop_first())) =~= before.push(
                v@[hi as int],
            ) + release_part(t.drop_first()));
        }
        hi = hi + 1;
    }
    assert(r@ + release_part(v@.skip(hi as int)) =~= r@);
    r
}

fn bare_bound_of(s: &str) -> (r: String)
    ensures
        r@ == bare_bound(s@),
{
    let v = crate::text::chars(s);
    let mut lo: usize = 0;
    assert(v@.skip(0) =~= v@);
    while lo < v.len() && v[lo] == 'v'
        invariant
            lo <= v@.len(),
            bare_bound(s@) == bare_bound(v@.skip(lo as int)),
        decreases v@.len() - lo,
    {
        assert(v@.skip(lo as int).drop_first() =~= v@.skip(lo + 1));
        lo = lo + 1;
    }
    let n: usize = v.len();
    assert(v@.subrange(lo as int, n as int) =~= v@.skip(lo as int));
    crate::text::text_of(&v, lo, n)
}

/// How a bound reads as a version.
fn read_bound(bound: &Option<String>) -> (r: Option<SemVer>)
    ensures
        r == match option_text(*bound) {
            Some(t) => match semver_reading(bare_bound(t)) {
                Ok(m) => Some(m),
                Err(_) => None::<SemVer>,
            },
            None => None,
        },
{
    match bound {
        None => None,
        Some(t) => match read_semver(bare_bound_of(t.as_str()).as_str()) {
            Ok(m) => Some(m),
            Err(_) => None,
        },
    }
}

impl DriverFacts {
    /// Does this driver's supported range contain the version?
    pub fn supports(&self, v: &SemVer) -> (r: bool)
        requires
            v.is_release(),
        ensures
            r == supports(self@, *v),
    {
        let above = match read_bound(&self.min_supported_semver) {
            Some(m) => v.reaches(&m),
            None => true,
        };
        let below = match read_bound(&self.max_supported_semver) {
            Some(m) => !v.reaches(&m),
            None => true,
        };
        above && below
    }
}

/// The driver for a pin, given how the pin reads as a version.
pub fn choose_driver<'a>(
    subject: &str,
    pinned_ref: &str,
    drivers: &'a Vec<DriverFacts>,
    reading: Result<SemVer, String>,
) -> (r: Result<&'a DriverFacts, String>)
    requires
        reading matches Ok(v) ==> v.is_release(),
    ensures
        ({
            let read: Result<SemVer, Seq<char>> = match reading {
                Ok(v) => Ok(v),
                Err(e) => Err(e@),
            };
            let want = driver_of_pin(
                subject@,
                pinned_ref@,
                Seq::new(drivers@.len(), |i: int| drivers@[i]@),
                read,
            );
            match r {
                Ok(d) => want == Ok::<DriverFactsV, Seq<char>>(d@),
                Err(e) => want == Err::<DriverFactsV, Seq<char>>(e@),
            }
        }),
{
    match reading {
        Err(e) => {
            let mut m = subject.to_owned();
            m.append(": the pinned ref `");
            m.append(pinned_ref);
            m.append("` is not a semver version, so no driver range can be selected: ");
            m.append(e.as_str());
            Err(m)
        },
        Ok(v) => {
            let ghost list = Seq::new(drivers@.len(), |i: int| drivers@[i]@);
            let mut first: usize = 0;
            let mut count: usize = 0;
            let mut i: usize = 0;
            while i < drivers.len()
                invariant
                    i <= drivers@.len(),
                    count <= i,
                    v.is_release(),
                    list == Seq::new(drivers@.len(), |i: int| drivers@[i]@),
                    count == supporting(list.take(i as int), v).len(),
                    count > 0 ==> first < drivers@.len() && supporting(list.take(i as int), v)[0]
                        == drivers@[first as int]@,
                decreases drivers@.len() - i,
            {
                proof {
                    let t = list.take(i + 1);
                    assert(t.drop_last() =~= list.take(i as int));
                    assert(t.last() == drivers@[i as int]@);
                }
                if drivers[i].supports(&v) {
                    if count == 0 {
                        first = i;
                    }
                    count = count + 1;
                }
                i = i + 1;
            }
            assert(list.take(drivers@.len() as int) =~= list);
            if count == 1 {
                return Ok(&drivers[first]);
            }
            let mut m = subject.to_owned();
            m.append(": the pinned version ");
            m.append(v.to_string().as_str());
            if count == 0 {
                m.append(" is outside every driver's supported range");
            } else {
                m.append(" is inside more than one driver's supported range — tighten the ranges");
            }
            Err(m)
        },
    }
}

// ---------------------------------------------------------------- selections

/// Is the case one of this pin's driver?
pub open spec fn runnable(list: Seq<(Seq<char>, SubjectFactsV)>, c: CaseV) -> bool {
    driver_choice(list, c.subject) matches Ok(d) && d.name == c.driver
}

/// The cases that survive a selection, in order.
pub open spec fn surviving(
    cases: Seq<CaseV>,
    list: Seq<(Seq<char>, SubjectFactsV)>,
    set: Seq<Seq<ClauseV>>,
) -> Seq<CaseV>
    decreases cases.len(),
{
    if cases.len() == 0 {
        Seq::empty()
    } else {
        let rest = surviving(cases.drop_last(), list, set);
        let c = cases.last();
        if set_admits(set, c.tags, axis_names(c.params)) && runnable(list, c) {
            rest.push(c)
        } else {
            rest
        }
    }
}

/// The cases of a catalog that match a selection.
pub open spec fn matching_cases(cat: CatalogV, set: Seq<Seq<ClauseV>>) -> Seq<CaseV> {
    surviving(cat.cases, cat.subjects, set)
}

/// The points of some cases, case by case.
pub open spec fn points_of(cases: Seq<CaseV>, set: Seq<Seq<ClauseV>>) -> Seq<
    (CaseV, Map<Seq<char>, TagV>),
>
    decreases cases.len(),
{
    if cases.len() == 0 {
        Seq::empty()
    } else {
        let c = cases.last();
        let e = expansion(c, set);
        points_of(cases.drop_last(), set) + Seq::new(e.len(), |i: int| (c, e[i]))
    }
}

/// The fully resolved points of a selection.
pub open spec fn selected_points(cat: CatalogV, set: Seq<Seq<ClauseV>>) -> Seq<
    (CaseV, Map<Seq<char>, TagV>),
> {
    points_of(matching_cases(cat, set), set)
}

pub open spec fn case_refs(v: Seq<&Case>) -> Seq<CaseV> {
    Seq::new(v.len(), |i: int| v[i]@)
}

pub open spec fn point_refs(v: Seq<(&Case, TagMap)>) -> Seq<(CaseV, Map<Seq<char>, TagV>)> {
    Seq::new(v.len(), |i: int| (v[i].0@, v[i].1@))
}

/// How many points belong to the case of this id.
pub open spec fn points_with_id(points: Seq<(CaseV, Map<Seq<char>, TagV>)>, id: Seq<char>) -> nat
    decreases points.len(),
{
    if points.len() == 0 {
        0
    } else {
        points_with_id(points.drop_last(), id) + (if points.last().0.id == id {
            1nat
        } else {
            0nat
        })
    }
}

/// Predicted milliseconds of some cases of a selection.
pub open spec fn total_ms(
    cases: Seq<CaseV>,
    points: Seq<(CaseV, Map<Seq<char>, TagV>)>,
    runner: Runner,
    budget: Budget,
) -> int
    decreases cases.len(),
{
    if cases.len() == 0 {
        0
    } else {
        total_ms(cases.drop_last(), points, runner, budget) + point_ms(runner, budget)
            * (points_with_id(points, cases.last().id) as u32)
    }
}

/// Does some point carry this value under the key?
pub open spec fn reached(
    points: Seq<(CaseV, Map<Seq<char>, TagV>)>,
    key: Seq<char>,
    m: MatchV,
) -> bool {
    exists|i: int|
        0 <= i < points.len() && (#[trigger] points[i]).1.dom().contains(key) && hits(
            m,
            points[i].1[key],
        )
}

/// `t` names a value of the list that no point carries.
pub open spec fn unmet_alternative(
    points: Seq<(CaseV, Map<Seq<char>, TagV>)>,
    key: Seq<char>,
    vs: Seq<TagV>,
    t: Seq<char>,
) -> bool {
    exists|i: int|
        0 <= i < vs.len() && t == key + "="@ + expr_of(#[trigger] vs[i], writes_powers(key))
            && !reached(points, key, MatchV::OneOf(seq![vs[i]]))
}

/// `t` names a request of the clause that no point meets.
pub open spec fn unmet(
    points: Seq<(CaseV, Map<Seq<char>, TagV>)>,
    c: ClauseV,
    t: Seq<char>,
) -> bool {
    let powers = writes_powers(c.key);
    &&& !c.negated
    &&& match c.matcher {
        MatchV::OneOf(vs) => unmet_alternative(points, c.key, vs, t),
        MatchV::Range { lo, hi } => t == c.key + "="@ + expr_of(lo, powers) + ".."@ + expr_of(
            hi,
            powers,
        ) && !reached(points, c.key, c.matcher),
        MatchV::Any => t == c.key + "=*"@ && !reached(points, c.key, c.matcher),
    }
}

/// `t` names a request of a selection that no point meets.
pub open spec fn unmet_by(
    points: Seq<(CaseV, Map<Seq<char>, TagV>)>,
    set: Seq<Seq<ClauseV>>,
    t: Seq<char>,
) -> bool {
    exists|i: int, j: int|
        0 <= i < set.len() && 0 <= j < set[i].len() && unmet(points, #[trigger] set[i][j], t)
}

/// The points whose footprint exceeds the budget, in order.
pub open spec fn heavy_points(
    points: Seq<(CaseV, Map<Seq<char>, TagV>)>,
    budget: int,
) -> Seq<Map<Seq<char>, TagV>>
    decreases points.len(),
{
    if points.len() == 0 {
        Seq::empty()
    } else {
        let rest = heavy_points(points.drop_last(), budget);
        let f = footprint(points.last().1);
        if f is Some && f->Some_0 > budget {
            rest.push(points.last().1)
        } else {
            rest
        }
    }
}

/// The first axis of this name.
pub open spec fn axis_at(params: Seq<ParamV>, key: Seq<char>) -> int
    decreases params.len(),
{
    if params.len() == 0 || params[0].key == key {
        0
    } else {
        1 + axis_at(params.drop_first(), key)
    }
}

pub open spec fn has_axis(c: CaseV, key: Seq<char>) -> bool {
    axis_at(c.params, key) < c.params.len()
}

/// The values that an axis offers: its domain, or its default where the domain is
/// open.
pub open spec fn offered(p: ParamV) -> Seq<TagV> {
    match domain_values(p.domain) {
        Some(vs) => vs,
        None => seq![p.default],
    }
}

/// Is the case still reachable under the selection, and swept over the key?
pub open spec fn sweeps(c: CaseV, set: Seq<Seq<ClauseV>>, key: Seq<char>) -> bool {
    has_axis(c, key) && expansion(c, set).len() > 0
}

/// Is the value offered for a key among the cases still reachable?
pub open spec fn offers(
    cases: Seq<CaseV>,
    points: Seq<(CaseV, Map<Seq<char>, TagV>)>,
    set: Seq<Seq<ClauseV>>,
    key: Seq<char>,
    v: TagV,
) -> bool {
    if exists|i: int| 0 <= i < cases.len() && sweeps(#[trigger] cases[i], set, key) {
        exists|i: int|
            0 <= i < cases.len() && sweeps(#[trigger] cases[i], set, key) && listed(
                offered(cases[i].params[axis_at(cases[i].params, key)]),
                v,
            )
    } else {
        exists|i: int|
            0 <= i < points.len() && (#[trigger] points[i]).1.dom().contains(key) && tag_eq(
                points[i].1[key],
                v,
            )
    }
}

/// A build: a subject with one compile-time coordinate.
pub open spec fn is_unit(c: CaseV, unit: (Seq<char>, Seq<(Seq<char>, Seq<char>)>)) -> bool {
    unit.0 == c.subject && is_compile_time_key(c, unit.1)
}

/// Does some case need this build?
pub open spec fn built_for(
    cases: Seq<CaseV>,
    unit: (Seq<char>, Seq<(Seq<char>, Seq<char>)>),
) -> bool {
    exists|c: int| 0 <= c < cases.len() && is_unit(#[trigger] cases[c], unit)
}

/// Is the build that a case needs among these?
pub open spec fn has_unit(
    units: Seq<(Seq<char>, Seq<(Seq<char>, Seq<char>)>)>,
    c: CaseV,
) -> bool {
    exists|i: int| 0 <= i < units.len() && is_unit(c, #[trigger] units[i])
}

/// Do two cases differ under a key? A case without the key differs from one with it.
pub open spec fn differs_at(cases: Seq<CaseV>, key: Seq<char>, i: int, j: int) -> bool {
    let (a, b) = (cases[i].tags, cases[j].tags);
    &&& 0 <= i < cases.len() && 0 <= j < cases.len()
    &&& a.dom().contains(key) != b.dom().contains(key) || (a.dom().contains(key) && !tag_eq(
        a[key],
        b[key],
    ))
}

/// Does the value under a key differ among the cases?
pub open spec fn varies(cases: Seq<CaseV>, key: Seq<char>) -> bool {
    exists|i: int, j: int| #[trigger] differs_at(cases, key, i, j)
}

impl Catalog {
    #[verifier::type_invariant]
    spec fn inv(self) -> bool {
        all_sweepable(cases_of(self.cases@))
    }

    pub fn new(cases: Vec<Case>, vocab: Vocabulary, subjects: Vec<(String, SubjectFacts)>) -> (r: Self)
        requires
            all_sweepable(cases_of(cases@)),
        ensures
            r@.cases == cases_of(cases@),
            r@.vocab == vocab@,
            r@.subjects == entries_of(subjects@),
    {
        Catalog { cases, vocab, subjects }
    }

    /// An empty catalog. Cases only ever arrive by loading vendored subject
    /// manifests.
    pub fn empty() -> (r: Self)
        ensures
            r@.cases == Seq::<CaseV>::empty(),
            r@.vocab == Seq::<ExtV>::empty(),
            r@.subjects == Seq::<(Seq<char>, SubjectFactsV)>::empty(),
    {
        let r = Catalog { cases: Vec::new(), vocab: Vocabulary::default(), subjects: Vec::new() };
        assert(r@.cases =~= Seq::<CaseV>::empty());
        assert(r@.subjects =~= Seq::<(Seq<char>, SubjectFactsV)>::empty());
        r
    }

    /// The facts of a subject.
    pub fn facts(&self, subject: &str) -> (r: Option<&SubjectFacts>)
        ensures
            match r {
                Some(f) => facts_in(self@.subjects, subject@) == Some(f@),
                None => facts_in(self@.subjects, subject@) is None,
            },
    {
        let ghost list = self@.subjects;
        let mut i: usize = 0;
        assert(list.skip(0) =~= list);
        while i < self.subjects.len()
            invariant
                i <= self.subjects@.len(),
                list == entries_of(self.subjects@),
                facts_in(list, subject@) == facts_in(list.skip(i as int), subject@),
            decreases self.subjects@.len() - i,
        {
            assert(list.skip(i as int).drop_first() =~= list.skip(i + 1));
            assert(list.skip(i as int)[0] == (
                self.subjects@[i as int].0@,
                self.subjects@[i as int].1@,
            ));
            if same(self.subjects[i].0.as_str(), subject) {
                return Some(&self.subjects[i].1);
            }
            i = i + 1;
        }
        None
    }

    /// The driver this subject's pin selects: the one whose supported range
    /// contains the version the pin names. Ranges are inclusive at the bottom and
    /// exclusive at the top; a missing bound is open. A pin outside every range, or
    /// matching several, is refused.
    pub fn selected_driver(&self, subject: &str) -> (r: Result<&DriverFacts, String>)
        ensures
            match r {
                Ok(d) => driver_choice(self@.subjects, subject@) == Ok::<DriverFactsV, Seq<char>>(
                    d@,
                ),
                Err(e) => driver_choice(self@.subjects, subject@) == Err::<DriverFactsV, Seq<char>>(
                    e@,
                ),
            },
    {
        match self.facts(subject) {
            None => {
                let mut m = subject.to_owned();
                m.append(": no such subject");
                Err(m)
            },
            Some(facts) => {
                let reading = read_semver(bare_ref_of(facts.pinned_ref.as_str()).as_str());
                choose_driver(subject, facts.pinned_ref.as_str(), &facts.drivers, reading)
            },
        }
    }

    /// The revision a subject is pinned to.
    pub fn pinned_ref(&self, subject: &str) -> (r: Option<String>)
        ensures
            option_text(r) == match facts_in(self@.subjects, subject@) {
                Some(f) => Some(f.pinned_ref),
                None => None,
            },
    {
        match self.facts(subject) {
            Some(f) => Some(f.pinned_ref.clone()),
            None => None,
        }
    }

    /// A subject's declared source: kind, repository and pin.
    pub fn source(&self, subject: &str) -> (r: Option<(String, Option<String>, String)>)
        ensures
            match r {
                Some(s) => facts_in(self@.subjects, subject@) matches Some(f) && s.0@
                    == f.source_kind && option_text(s.1) == f.repo && s.2@ == f.pinned_ref,
                None => facts_in(self@.subjects, subject@) is None,
            },
    {
        match self.facts(subject) {
            Some(f) => Some((f.source_kind.clone(), copy_option(&f.repo), f.pinned_ref.clone())),
            None => None,
        }
    }

    /// The facts of the driver the pin selects, when its range holds.
    pub fn selected_driver_facts(&self, subject: &str) -> (r: Option<&DriverFacts>)
        ensures
            match r {
                Some(d) => driver_choice(self@.subjects, subject@) == Ok::<DriverFactsV, Seq<char>>(
                    d@,
                ),
                None => driver_choice(self@.subjects, subject@) is Err,
            },
    {
        match self.selected_driver(subject) {
            Ok(d) => Some(d),
            Err(_) => None,
        }
    }

    /// The published driver-crate version a source-less build should depend on: the
    /// pin-selected driver's. Absent means the driver crate has never been
    /// published; honest refusal beats a guessed version.
    pub fn driver_version(&self, subject: &str) -> (r: Option<String>)
        ensures
            option_text(r) == match driver_choice(self@.subjects, subject@) {
                Ok(d) => d.version,
                Err(_) => None,
            },
    {
        match self.selected_driver_facts(subject) {
            Some(d) => copy_option(&d.version),
            None => None,
        }
    }

    /// Where the pin-selected driver's assets should stand: its path resolved
    /// against the manifest's own directory. `None` when the manifest declares
    /// none. Whether the directory is there is for the caller to see.
    pub fn manifest_driver_path(&self, subject: &str) -> (r: Option<String>)
        ensures
            option_text(r) == match (
                facts_in(self@.subjects, subject@),
                driver_choice(self@.subjects, subject@),
            ) {
                (Some(f), Ok(d)) => match d.path {
                    Some(p) => Some(crate::paths::path_join(f.manifest_dir, p)),
                    None => None,
                },
                _ => None,
            },
    {
        match (self.facts(subject), self.selected_driver_facts(subject)) {
            (Some(f), Some(d)) => match &d.path {
                Some(p) => Some(crate::paths::joined_path(f.manifest_dir.as_str(), p.as_str())),
                None => None,
            },
            _ => None,
        }
    }

    /// The exact revision the manifest pins its ref to, when declared.
    pub fn expected_sha(&self, subject: &str) -> (r: Option<String>)
        ensures
            option_text(r) == match facts_in(self@.subjects, subject@) {
                Some(f) => f.expected_sha,
                None => None,
            },
    {
        match self.facts(subject) {
            Some(f) => copy_option(&f.expected_sha),
            None => None,
        }
    }

    /// The directory this subject's manifest was loaded from.
    pub fn manifest_dir(&self, subject: &str) -> (r: Option<String>)
        ensures
            option_text(r) == match facts_in(self@.subjects, subject@) {
                Some(f) => Some(f.manifest_dir),
                None => None,
            },
    {
        match self.facts(subject) {
            Some(f) => Some(f.manifest_dir.clone()),
            None => None,
        }
    }

    /// The exec build recipe, when the subject declares one.
    pub fn build(&self, subject: &str) -> (r: Option<Build>)
        ensures
            (match r {
                Some(b) => Some(b@),
                None => None::<BuildV>,
            }) == match facts_in(self@.subjects, subject@) {
                Some(f) => f.build,
                None => None,
            },
    {
        match self.facts(subject) {
            Some(f) => match &f.build {
                Some(b) => Some(b.clone()),
                None => None,
            },
            None => None,
        }
    }

    /// The subject's full source pin, put together for the exec builders.
    pub fn source_full(&self, subject: &str) -> (r: Result<Source, String>)
        ensures
            match r {
                Ok(s) => facts_in(self@.subjects, subject@) matches Some(f) && s@ == (SourceV {
                    kind: f.source_kind,
                    repo: f.repo,
                    package: f.source_package,
                    pinned_ref: f.pinned_ref,
                    sha: f.expected_sha,
                }),
                Err(e) => facts_in(self@.subjects, subject@) is None && e@ == "no subject "@
                    + subject@ + " in the catalog"@,
            },
    {
        match self.facts(subject) {
            Some(f) => Ok(
                Source {
                    kind: f.source_kind.clone(),
                    repo: copy_option(&f.repo),
                    package: copy_option(&f.source_package),
                    pinned_ref: f.pinned_ref.clone(),
                    sha: copy_option(&f.expected_sha),
                },
            ),
            None => {
                let mut m = "no subject ".to_owned();
                m.append(subject);
                m.append(" in the catalog");
                Err(m)
            },
        }
    }

    /// Cargo features a subject is built with.
    pub fn features(&self, subject: &str) -> (r: Vec<String>)
        ensures
            texts(r@) == match driver_choice(self@.subjects, subject@) {
                Ok(d) => d.features,
                Err(_) => Seq::empty(),
            },
    {
        match self.selected_driver_facts(subject) {
            Some(d) => copy_texts(&d.features),
            None => {
                let r: Vec<String> = Vec::new();
                assert(texts(r@) =~= Seq::empty());
                r
            },
        }
    }

    /// RUSTFLAGS a subject's driver is built with.
    pub fn rustflags(&self, subject: &str) -> (r: Option<String>)
        ensures
            option_text(r) == match driver_choice(self@.subjects, subject@) {
                Ok(d) => d.rustflags,
                Err(_) => None,
            },
    {
        match self.selected_driver_facts(subject) {
            Some(d) => copy_option(&d.rustflags),
            None => None,
        }
    }

    /// Any RUSTFLAGS in play, for the run record. Distinct values across subjects
    /// are joined so the record cannot imply a single setting applied.
    pub fn rustflags_any(&self) -> (r: Option<String>)
        ensures
            r is None <==> !some_rustflags(self@.subjects),
            r matches Some(t) ==> exists|all: Seq<Seq<char>>|
                #![trigger join(all, "; "@)]
                t@ == join(all, "; "@) && ascending_texts(all) && forall|f: Seq<char>|
                    #[trigger] all.contains(f) == uses_rustflags(self@.subjects, f),
    {
        let ghost list = self@.subjects;
        let mut all: Vec<String> = Vec::new();
        let mut i: usize = 0;
        while i < self.subjects.len()
            invariant
                i <= self.subjects@.len(),
                list == entries_of(self.subjects@),
                forall|f: Seq<char>|
                    #[trigger] texts(all@).contains(f) == uses_rustflags(list.take(i as int), f),
                all@.len() > 0 <==> some_rustflags(list.take(i as int)),
            decreases self.subjects@.len() - i,
        {
            let ghost before = all@;
            let ghost head = list.take(i as int);
            let ghost more = list.take(i + 1);
            proof {
                assert(more =~= head.push(list[i as int]));
            }
            if let Some(f) = &self.subjects[i].1.rustflags {
                all.push(f.clone());
                proof {
                    assert(texts(all@) =~= texts(before).push(f@));
                    assert(more[i as int].1.rustflags == Some(f@));
                    assert(some_rustflags(more));
                }
            }
            proof {
                assert forall|f: Seq<char>| #[trigger] texts(all@).contains(f) == uses_rustflags(
                    more,
                    f,
                ) by {
                    assert(texts(before).contains(f) == uses_rustflags(head, f));
                    if uses_rustflags(head, f) {
                        let j = choose|j: int|
                            0 <= j < head.len() && (#[trigger] head[j]).1.rustflags == Some(f);
                        assert(more[j].1.rustflags == Some(f));
                        let k = choose|k: int|
                            0 <= k < texts(before).len() && texts(before)[k] == f;
                        assert(texts(all@)[k] == f);
                    }
                    if uses_rustflags(more, f) {
                        let j = choose|j: int|
                            0 <= j < more.len() && (#[trigger] more[j]).1.rustflags == Some(f);
                        if j < i {
                            assert(head[j].1.rustflags == Some(f));
                        } else {
                            assert(texts(all@)[all@.len() - 1] == f);
                        }
                    }
                    if texts(all@).contains(f) {
                        let k = choose|k: int|
                            0 <= k < texts(all@).len() && texts(all@)[k] == f;
                        if k < before.len() {
                            assert(texts(before)[k] == f);
                        } else {
                            assert(more[i as int].1.rustflags == Some(f));
                        }
                    }
                }
                if some_rustflags(head) {
                    let j = choose|j: int|
                        0 <= j < head.len() && (#[trigger] head[j]).1.rustflags is Some;
                    assert(more[j].1.rustflags is Some);
                }
                if some_rustflags(more) {
                    let j = choose|j: int|
                        0 <= j < more.len() && (#[trigger] more[j]).1.rustflags is Some;
                    if j < i {
                        assert(head[j].1.rustflags is Some);
                    }
                }
            }
            i = i + 1;
        }
        assert(list.take(self.subjects@.len() as int) =~= list);
        if all.len() == 0 {
            return None;
        }
        let sorted = distinct_texts(all);
        assert(texts(sorted@) == texts(sorted@));
        Some(joined(&sorted, "; "))
    }

    /// Lowest rustc a subject builds with, if it declares one.
    pub fn min_rustc(&self, subject: &str) -> (r: Option<String>)
        ensures
            option_text(r) == match facts_in(self@.subjects, subject@) {
                Some(f) => f.min_rustc,
                None => None,
            },
    {
        match self.facts(subject) {
            Some(f) => copy_option(&f.min_rustc),
            None => None,
        }
    }

    /// The vocabulary in force: engine core plus every loaded subject's namespaced
    /// extensions.
    pub fn vocabulary(&self) -> (r: &Vocabulary)
        ensures
            r@ == self@.vocab,
    {
        &self.vocab
    }

    pub fn cases(&self) -> (r: &Vec<Case>)
        ensures
            cases_of(r@) == self@.cases,
            all_sweepable(cases_of(r@)),
    {
        proof {
            use_type_invariant(self);
        }
        &self.cases
    }

    /// Cases declared by one subject.
    pub fn for_subject<'a>(&'a self, subject: &str) -> (r: Vec<&'a Case>)
        ensures
            case_refs(r@) == declared_by(self@.cases, subject@),
    {
        let mut r: Vec<&'a Case> = Vec::new();
        let mut i: usize = 0;
        assert(case_refs(r@) =~= Seq::empty());
        while i < self.cases.len()
            invariant
                i <= self.cases@.len(),
                case_refs(r@) == declared_by(cases_of(self.cases@).take(i as int), subject@),
            decreases self.cases@.len() - i,
        {
            let ghost before = case_refs(r@);
            proof {
                let t = cases_of(self.cases@).take(i + 1);
                assert(t.drop_last() =~= cases_of(self.cases@).take(i as int));
                assert(t.last() == self.cases@[i as int]@);
            }
            if same(self.cases[i].subject.as_str(), subject) {
                r.push(&self.cases[i]);
                assert(case_refs(r@) =~= before.push(self.cases@[i as int]@));
            }
            i = i + 1;
        }
        assert(cases_of(self.cases@).take(self.cases@.len() as int) =~= cases_of(self.cases@));
        r
    }

    /// Cases surviving a selector's identity clauses, under the driver the pin
    /// selects. Param clauses are deferred to expansion, so a case is not filtered
    /// out by a sweep it has not resolved yet.
    ///
    /// A driver scoped to another version range is not this pin's driver, and its
    /// cases drop out of every count, plan and run. A pin that selects nothing
    /// contributes no cases.
    pub fn matching<'a>(&'a self, sel: &SelectorSet) -> (r: Vec<&'a Case>)
        ensures
            case_refs(r@) == matching_cases(self@, sel@),
            all_sweepable(case_refs(r@)),
    {
        proof {
            use_type_invariant(self);
        }
        let ghost all = cases_of(self.cases@);
        let ghost list = self@.subjects;
        let mut r: Vec<&'a Case> = Vec::new();
        let mut i: usize = 0;
        assert(case_refs(r@) =~= Seq::empty());
        while i < self.cases.len()
            invariant
                i <= self.cases@.len(),
                all == cases_of(self.cases@),
                list == self@.subjects,
                all_sweepable(all),
                all_sweepable(case_refs(r@)),
                case_refs(r@) == surviving(all.take(i as int), list, sel@),
            decreases self.cases@.len() - i,
        {
            let ghost before = case_refs(r@);
            proof {
                let t = all.take(i + 1);
                assert(t.drop_last() =~= all.take(i as int));
                assert(t.last() == self.cases@[i as int]@);
            }
            let case = &self.cases[i];
            if sel.admits_case(&case.tags, &case.param_keys()) {
                let kept = match self.selected_driver(case.subject.as_str()) {
                    Ok(d) => same(d.name.as_str(), case.driver.as_str()),
                    Err(_) => false,
                };
                if kept {
                    r.push(case);
                    proof {
                        assert(case_refs(r@) =~= before.push(case@));
                        assert(sweepable(all[i as int]));
                    }
                }
            }
            i = i + 1;
        }
        assert(all.take(self.cases@.len() as int) =~= all);
        r
    }

    /// Fully-resolved data points for a selection: what the menu counts and the
    /// runner executes.
    pub fn points<'a>(&'a self, sel: &SelectorSet) -> (r: Vec<(&'a Case, TagMap)>)
        ensures
            point_refs(r@) == selected_points(self@, sel@),
    {
        let cases = self.matching(sel);
        let ghost all = case_refs(cases@);
        let mut r: Vec<(&'a Case, TagMap)> = Vec::new();
        let mut i: usize = 0;
        assert(point_refs(r@) =~= Seq::empty());
        while i < cases.len()
            invariant
                i <= cases@.len(),
                all == case_refs(cases@),
                all_sweepable(all),
                point_refs(r@) == points_of(all.take(i as int), sel@),
            decreases cases@.len() - i,
        {
            let ghost before = point_refs(r@);
            let case: &'a Case = cases[i];
            assert(sweepable(all[i as int]));
            let mut points = case.expand(sel);
            let ghost e = expansion(case@, sel@);
            let n: usize = points.len();
            let mut back: Vec<(&'a Case, TagMap)> = Vec::new();
            // The points leave their list from its end, so they are put in order
            // again by a second pass.
            while points.len() > 0
                invariant
                    n == e.len(),
                    points@.len() + back@.len() == n,
                    maps(points@) == e.take(points@.len() as int),
                    forall|k: int|
                        0 <= k < back@.len() ==> (#[trigger] back@[k]).0@ == case@ && back@[k].1@
                            == e[n - 1 - k],
                decreases points@.len(),
            {
                let ghost was = points@;
                match points.pop() {
                    Some(t) => {
                        assert(maps(was)[was.len() - 1] == t@);
                        back.push((case, t));
                        assert(maps(points@) =~= e.take(points@.len() as int)) by {
                            assert forall|k: int| 0 <= k < points@.len() implies maps(points@)[k]
                                == e[k] by {
                                assert(maps(was)[k] == e.take(was.len() as int)[k]);
                            }
                        }
                    },
                    None => {},
                }
            }
            let ghost row = Seq::new(e.len(), |k: int| (case@, e[k]));
            while back.len() > 0
                invariant
                    n == e.len(),
                    back@.len() <= n,
                    row == Seq::new(e.len(), |k: int| (case@, e[k])),
                    forall|k: int|
                        0 <= k < back@.len() ==> (#[trigger] back@[k]).0@ == case@ && back@[k].1@
                            == e[n - 1 - k],
                    point_refs(r@) == before + row.take(n - back@.len()),
                decreases back@.len(),
            {
                let ghost so_far = point_refs(r@);
                let ghost was = back@;
                match back.pop() {
                    Some(p) => {
                        assert(was[was.len() - 1] == p);
                        r.push(p);
                        proof {
                            let at = n - was.len();
                            assert(point_refs(r@) =~= so_far.push(row[at]));
                            assert(row.take(at + 1) =~= row.take(at).push(row[at]));
                            assert(point_refs(r@) =~= before + row.take(at + 1));
                        }
                    },
                    None => {},
                }
            }
            proof {
                let t = all.take(i + 1);
                assert(t.drop_last() =~= all.take(i as int));
                assert(t.last() == case@);
                assert(row.take(n as int) =~= row);
            }
            i = i + 1;
        }
        assert(all.take(cases@.len() as int) =~= all);
        r
    }

    /// Predicted wall-clock milliseconds for a selection.
    pub fn estimate(&self, sel: &SelectorSet, runner: Runner, budget: &Budget) -> (r: u128)
        requires
            budget.warm_up_ms + budget.measurement_ms + PROCESS_OVERHEAD_MS <= u64::MAX,
            self@.cases.len() <= u32::MAX,
        ensures
            r == total_ms(
                matching_cases(self@, sel@),
                selected_points(self@, sel@),
                runner,
                *budget,
            ),
    {
        let points = self.points(sel);
        let cases = self.matching(sel);
        let ghost all = case_refs(cases@);
        let ghost ps = point_refs(points@);
        proof {
            surviving_is_no_longer(self@.cases, self@.subjects, sel@);
        }
        let mut total: u128 = 0;
        let mut i: usize = 0;
        while i < cases.len()
            invariant
                i <= cases@.len(),
                cases@.len() <= u32::MAX,
                all == case_refs(cases@),
                ps == point_refs(points@),
                budget.warm_up_ms + budget.measurement_ms + PROCESS_OVERHEAD_MS <= u64::MAX,
                total == total_ms(all.take(i as int), ps, runner, *budget),
                total <= i * (u64::MAX * u32::MAX),
            decreases cases@.len() - i,
        {
            let n = count_points(&points, cases[i].id.as_str());
            let ms = cases[i].estimate(runner, n, budget);
            proof {
                let t = all.take(i + 1);
                assert(t.drop_last() =~= all.take(i as int));
                assert(t.last() == cases@[i as int]@);
                let each = point_ms(runner, *budget);
                let k = n as u32;
                assert(each * k <= u64::MAX * u32::MAX) by (nonlinear_arith)
                    requires
                        0 <= each <= u64::MAX,
                        0 <= k <= u32::MAX,
                ;
                assert((i + 1) * (u64::MAX * u32::MAX) == i * (u64::MAX * u32::MAX) + u64::MAX
                    * u32::MAX) by (nonlinear_arith);
                assert((i + 1) * (u64::MAX * u32::MAX) <= u128::MAX) by (nonlinear_arith)
                    requires
                        i + 1 <= u32::MAX,
                        i >= 0,
                ;
            }
            total = total + ms;
            i = i + 1;
        }
        assert(all.take(cases@.len() as int) =~= all);
        total
    }

    /// Tag keys whose value differs across the matching cases: the columns worth
    /// showing, so a listing does not repeat what every row shares.
    pub fn varying_keys(&self, sel: &SelectorSet) -> (r: Vec<String>)
        ensures
            ascending_texts(texts(r@)),
            forall|k: Seq<char>|
                #[trigger] texts(r@).contains(k) == varies(matching_cases(self@, sel@), k),
    {
        let cases = self.matching(sel);
        let ghost all = case_refs(cases@);
        let mut keys: Vec<String> = Vec::new();
        let mut i: usize = 0;
        while i < cases.len()
            invariant
                i <= cases@.len(),
                all == case_refs(cases@),
                forall|k: Seq<char>|
                    #[trigger] texts(keys@).contains(k) ==> exists|h: int|
                        0 <= h < i && (#[trigger] all[h]).tags.dom().contains(k) && varies(all, k),
                forall|k: Seq<char>, h: int|
                    0 <= h < i && (#[trigger] all[h]).tags.dom().contains(k) && varies(all, k)
                        ==> #[trigger] texts(keys@).contains(k),
            decreases cases@.len() - i,
        {
            let entries = cases[i].tags.entries();
            let ghost start = keys@;
            let mut j: usize = 0;
            while j < entries.len()
                invariant
                    j <= entries@.len(),
                    i < cases@.len(),
                    all == case_refs(cases@),
                    crate::tag::ascending(entries@),
                    crate::tag::entry_map(entries@) == cases@[i as int].tags@,
                    start.len() <= keys@.len(),
                    forall|h: int| 0 <= h < start.len() ==> keys@[h] == start[h],
                    forall|h: int|
                        start.len() <= h < keys@.len() ==> varies(all, (#[trigger] keys@[h])@)
                            && all[i as int].tags.dom().contains(keys@[h]@),
                    forall|h: int|
                        0 <= h < j && varies(all, (#[trigger] entries@[h]).0@) ==> texts(
                            keys@,
                        ).contains(entries@[h].0@),
                decreases entries@.len() - j,
            {
                let ghost was = keys@;
                proof {
                    crate::tag::entry_map_at(entries@, j as int);
                    assert(all[i as int] == cases@[i as int]@);
                }
                if differs(&cases, entries[j].0.as_str()) {
                    keys.push(entries[j].0.clone());
                    assert(texts(keys@)[keys@.len() - 1] == entries@[j as int].0@);
                }
                proof {
                    assert forall|h: int|
                        0 <= h < j + 1 && varies(all, (#[trigger] entries@[h]).0@) implies texts(
                        keys@,
                    ).contains(entries@[h].0@) by {
                        if h < j {
                            let k = choose|k: int|
                                0 <= k < texts(was).len() && texts(was)[k] == entries@[h].0@;
                            assert(texts(keys@)[k] == entries@[h].0@);
                        }
                    }
                }
                j = j + 1;
            }
            proof {
                assert forall|k: Seq<char>| #[trigger] texts(keys@).contains(k) implies exists|h: int|
                    0 <= h < i + 1 && (#[trigger] all[h]).tags.dom().contains(k) && varies(all, k) by {
                    let p = choose|p: int| 0 <= p < texts(keys@).len() && texts(keys@)[p] == k;
                    if p < start.len() {
                        assert(texts(start)[p] == k);
                        assert(texts(start).contains(k));
                        let h = choose|h: int|
                            0 <= h < i && (#[trigger] all[h]).tags.dom().contains(k) && varies(all, k);
                        assert(all[h].tags.dom().contains(k));
                    } else {
                        assert(keys@[p]@ == k);
                        assert(all[i as int].tags.dom().contains(k));
                    }
                }
                assert forall|k: Seq<char>, h: int|
                    0 <= h < i + 1 && (#[trigger] all[h]).tags.dom().contains(k) && varies(all, k)
                    implies #[trigger] texts(keys@).contains(k) by {
                    if h < i {
                        assert(texts(start).contains(k));
                        let p = choose|p: int| 0 <= p < texts(start).len() && texts(start)[p] == k;
                        assert(texts(keys@)[p] == k);
                    } else {
                        let e = choose|e: int| crate::tag::is_entry(entries@, e, k);
                        assert(entries@[e].0@ == k);
                    }
                }
            }
            i = i + 1;
        }
        let ghost found = keys@;
        let r = distinct_texts(keys);
        proof {
            assert forall|k: Seq<char>| #[trigger] texts(r@).contains(k) == varies(all, k) by {
                assert(texts(r@).contains(k) == texts(found).contains(k));
                if varies(all, k) {
                    let (a, b) = choose|a: int, b: int| #[trigger] differs_at(all, k, a, b);
                    assert(all[a].tags.dom().contains(k) || all[b].tags.dom().contains(k));
                }
            }
        }
        r
    }

    /// Selector values that reached no point at all.
    ///
    /// Asking for `tree_size=2^26` when nothing offers it should say so rather than
    /// quietly returning a smaller matrix: a comparison silently missing what you
    /// asked for is the failure mode this whole design exists to stop. A value that
    /// reaches some subject but not others is not reported, and neither is a
    /// negation: there is nothing odd about excluding something that does not
    /// exist.
    pub fn unsatisfied(&self, sel: &SelectorSet) -> (r: Vec<String>)
        ensures
            ascending_texts(texts(r@)),
            forall|t: Seq<char>|
                #[trigger] texts(r@).contains(t) == unmet_by(
                    selected_points(self@, sel@),
                    sel@,
                    t,
                ),
    {
        let points = self.points(sel);
        let ghost ps = point_refs(points@);
        let mut missing: Vec<String> = Vec::new();
        let mut i: usize = 0;
        while i < sel.selectors.len()
            invariant
                i <= sel.selectors@.len(),
                ps == point_refs(points@),
                forall|t: Seq<char>|
                    #[trigger] texts(missing@).contains(t) == unmet_by(ps, sel@.take(i as int), t),
            decreases sel.selectors@.len() - i,
        {
            let clauses = &sel.selectors[i].clauses;
            let ghost start = missing@;
            let ghost list = sel@[i as int];
            let mut j: usize = 0;
            while j < clauses.len()
                invariant
                    j <= clauses@.len(),
                    ps == point_refs(points@),
                    list == crate::selector::clauses_of(clauses@),
                    forall|t: Seq<char>|
                        #[trigger] texts(missing@).contains(t) == (texts(start).contains(t)
                            || exists|h: int| 0 <= h < j && unmet(ps, #[trigger] list[h], t)),
                decreases clauses@.len() - j,
            {
                let ghost was = missing@;
                let mut more = unmet_requests(&points, &clauses[j]);
                let ghost added = more@;
                missing.append(&mut more);
                proof {
                    assert(texts(missing@) =~= texts(was) + texts(added));
                    assert forall|t: Seq<char>| #[trigger] texts(missing@).contains(t) == (texts(
                        start,
                    ).contains(t) || exists|h: int|
                        0 <= h < j + 1 && unmet(ps, #[trigger] list[h], t)) by {
                        contains_of_append(texts(was), texts(added), t);
                        assert(texts(was).contains(t) == (texts(start).contains(t) || exists|h: int|
                            0 <= h < j && unmet(ps, #[trigger] list[h], t)));
                        assert(texts(added).contains(t) == unmet(ps, list[j as int], t));
                        if exists|h: int| 0 <= h < j && unmet(ps, #[trigger] list[h], t) {
                            let h = choose|h: int| 0 <= h < j && unmet(ps, #[trigger] list[h], t);
                            assert(unmet(ps, list[h], t));
                        }
                        if exists|h: int| 0 <= h < j + 1 && unmet(ps, #[trigger] list[h], t) {
                            let h = choose|h: int|
                                0 <= h < j + 1 && unmet(ps, #[trigger] list[h], t);
                            if h < j {
                                assert(unmet(ps, list[h], t));
                            }
                        }
                    }
                }
                j = j + 1;
            }
            proof {
                let head = sel@.take(i as int);
                let more = sel@.take(i + 1);
                assert(more =~= head.push(list));
                assert forall|t: Seq<char>| #[trigger] texts(missing@).contains(t) == unmet_by(
                    ps,
                    more,
                    t,
                ) by {
                    assert(texts(start).contains(t) == unmet_by(ps, head, t));
                    if unmet_by(ps, head, t) {
                        let (a, b) = choose|a: int, b: int|
                            0 <= a < head.len() && 0 <= b < head[a].len() && unmet(
                                ps,
                                #[trigger] head[a][b],
                                t,
                            );
                        assert(unmet(ps, more[a][b], t));
                    }
                    if exists|h: int| 0 <= h < list.len() && unmet(ps, #[trigger] list[h], t) {
                        let h = choose|h: int| 0 <= h < list.len() && unmet(ps, #[trigger] list[h], t);
                        assert(unmet(ps, more[i as int][h], t));
                    }
                    if unmet_by(ps, more, t) {
                        let (a, b) = choose|a: int, b: int|
                            0 <= a < more.len() && 0 <= b < more[a].len() && unmet(
                                ps,
                                #[trigger] more[a][b],
                                t,
                            );
                        if a < i {
                            assert(unmet(ps, head[a][b], t));
                        } else {
                            assert(unmet(ps, list[b], t));
                        }
                    }
                }
            }
            i = i + 1;
        }
        assert(sel@.take(sel@.len() as int) =~= sel@);
        distinct_texts(missing)
    }

    /// Points whose estimated footprint exceeds `budget_bytes`.
    ///
    /// The engine warns rather than refuses: the estimate is a lower bound, and the
    /// operator may know better than it does.
    pub fn over_budget(&self, sel: &SelectorSet, budget_bytes: u64) -> (r: Vec<TagMap>)
        ensures
            maps(r@) == heavy_points(selected_points(self@, sel@), budget_bytes as int),
    {
        let points = self.points(sel);
        let ghost ps = point_refs(points@);
        let mut r: Vec<TagMap> = Vec::new();
        let mut i: usize = 0;
        assert(maps(r@) =~= Seq::empty());
        while i < points.len()
            invariant
                i <= points@.len(),
                ps == point_refs(points@),
                maps(r@) == heavy_points(ps.take(i as int), budget_bytes as int),
            decreases points@.len() - i,
        {
            let ghost before = maps(r@);
            proof {
                let t = ps.take(i + 1);
                assert(t.drop_last() =~= ps.take(i as int));
                assert(t.last() == (points@[i as int].0@, points@[i as int].1@));
            }
            if Case::exceeds(&points[i].1, budget_bytes) {
                r.push(points[i].1.clone());
                assert(maps(r@) =~= before.push(points@[i as int].1@));
            }
            i = i + 1;
        }
        assert(ps.take(points@.len() as int) =~= ps);
        r
    }

    /// Values a key can be given, among cases still reachable under a partial
    /// selection. Drives the interactive picker, so an empty set cannot be
    /// constructed by accident.
    ///
    /// For a param axis this is the declared domain, not the value a point
    /// currently resolves to: an unconstrained param contributes only its default,
    /// so reporting resolved values would offer a single tree size and make the
    /// rest unreachable from the menu.
    pub fn values_for(&self, key: &str, partial: &SelectorSet) -> (r: Vec<TagValue>)
        ensures
            strictly_ascending::<TagValue>(values(r@)),
            forall|v: TagV|
                #[trigger] listed(values(r@), v) == offers(
                    matching_cases(self@, partial@),
                    selected_points(self@, partial@),
                    partial@,
                    key@,
                    v,
                ),
    {
        let cases = self.matching(partial);
        let ghost all = case_refs(cases@);
        let ghost ps = selected_points(self@, partial@);
        let ghost set = partial@;
        let mut seen: Vec<TagValue> = Vec::new();
        let mut is_param: bool = false;
        let mut i: usize = 0;
        while i < cases.len()
            invariant
                i <= cases@.len(),
                all == case_refs(cases@),
                all_sweepable(all),
                set == partial@,
                is_param == (exists|h: int| 0 <= h < i && sweeps(#[trigger] all[h], set, key@)),
                strictly_ascending::<TagValue>(models(seen@)),
                forall|v: TagV|
                    #[trigger] member::<TagValue>(models(seen@), v) == (exists|h: int|
                        0 <= h < i && sweeps(#[trigger] all[h], set, key@) && listed(
                            offered(all[h].params[axis_at(all[h].params, key@)]),
                            v,
                        )),
            decreases cases@.len() - i,
        {
            let ghost before = models(seen@);
            assert(sweepable(all[i as int]));
            match reachable_offer(cases[i], key, partial) {
                None => {
                    proof {
                        assert(!sweeps(all[i as int], set, key@));
                        assert forall|v: TagV| #[trigger] member::<TagValue>(models(seen@), v) == (
                        exists|h: int|
                            0 <= h < i + 1 && sweeps(#[trigger] all[h], set, key@) && listed(
                                offered(all[h].params[axis_at(all[h].params, key@)]),
                                v,
                            )) by {
                            assert(member::<TagValue>(before, v) == (exists|h: int|
                                0 <= h < i && sweeps(#[trigger] all[h], set, key@) && listed(
                                    offered(all[h].params[axis_at(all[h].params, key@)]),
                                    v,
                                )));
                        }
                    }
                },
                Some(vs) => {
                    let ghost row = values(vs@);
                    is_param = true;
                    assert(sweeps(all[i as int], set, key@));
                    add_all(&mut seen, vs);
                    proof {
                        assert forall|v: TagV| #[trigger] member::<TagValue>(models(seen@), v) == (
                        exists|h: int|
                            0 <= h < i + 1 && sweeps(#[trigger] all[h], set, key@) && listed(
                                offered(all[h].params[axis_at(all[h].params, key@)]),
                                v,
                            )) by {
                            assert(member::<TagValue>(before, v) == (exists|h: int|
                                0 <= h < i && sweeps(#[trigger] all[h], set, key@) && listed(
                                    offered(all[h].params[axis_at(all[h].params, key@)]),
                                    v,
                                )));
                            assert(listed(row, v) == listed(
                                offered(
                                    all[i as int].params[axis_at(all[i as int].params, key@)],
                                ),
                                v,
                            ));
                        }
                    }
                },
            }
            i = i + 1;
        }
        if !is_param {
            let points = self.points(partial);
            let mut j: usize = 0;
            proof {
                assert forall|v: TagV| !(#[trigger] member::<TagValue>(models(seen@), v)) by {}
            }
            while j < points.len()
                invariant
                    j <= points@.len(),
                    ps == point_refs(points@),
                    strictly_ascending::<TagValue>(models(seen@)),
                    forall|v: TagV|
                        #[trigger] member::<TagValue>(models(seen@), v) == (exists|h: int|
                            0 <= h < j && (#[trigger] ps[h]).1.dom().contains(key@) && tag_eq(
                                ps[h].1[key@],
                                v,
                            )),
                decreases points@.len() - j,
            {
                let ghost before = models(seen@);
                assert(ps[j as int] == (points@[j as int].0@, points@[j as int].1@));
                if let Some(v) = points[j].1.get(key) {
                    let ghost m = v@;
                    add_distinct(&mut seen, v.clone());
                    proof {
                        assert forall|u: TagV| level::<TagValue>(m, u) == tag_eq(m, u) by {
                            level_values_are_same(m, u);
                        }
                    }
                }
                proof {
                    assert forall|v: TagV| #[trigger] member::<TagValue>(models(seen@), v) == (
                    exists|h: int|
                        0 <= h < j + 1 && (#[trigger] ps[h]).1.dom().contains(key@) && tag_eq(
                            ps[h].1[key@],
                            v,
                        )) by {
                        assert(member::<TagValue>(before, v) == (exists|h: int|
                            0 <= h < j && (#[trigger] ps[h]).1.dom().contains(key@) && tag_eq(
                                ps[h].1[key@],
                                v,
                            )));
                    }
                }
                j = j + 1;
            }
        }
        proof {
            assert(models(seen@) =~= values(seen@));
            assert forall|v: TagV| #[trigger] listed(values(seen@), v) == offers(all, ps, set, key@, v) by {
                member_is_listed(values(seen@), v);
                assert(member::<TagValue>(models(seen@), v) == listed(values(seen@), v));
            }
        }
        seen
    }

    /// Distinct compile-time coordinates in a selection: one generated binary per
    /// entry, however many runtime points each carries.
    ///
    /// This is the number that decides how long a run spends compiling, so the menu
    /// reports it separately from the point count.
    pub fn build_units(&self, sel: &SelectorSet) -> (r: Vec<(String, Vec<(String, String)>)>)
        ensures
            strictly_ascending::<(String, Vec<(String, String)>)>(models(r@)),
            forall|i: int|
                0 <= i < r@.len() ==> built_for(
                    matching_cases(self@, sel@),
                    #[trigger] models(r@)[i],
                ),
            forall|c: int|
                0 <= c < matching_cases(self@, sel@).len() ==> has_unit(
                    models(r@),
                    #[trigger] matching_cases(self@, sel@)[c],
                ),
    {
        let cases = self.matching(sel);
        let ghost all = case_refs(cases@);
        let mut r: Vec<(String, Vec<(String, String)>)> = Vec::new();
        let mut n: usize = 0;
        while n < cases.len()
            invariant
                n <= cases@.len(),
                all == case_refs(cases@),
                strictly_ascending::<(String, Vec<(String, String)>)>(models(r@)),
                forall|i: int| 0 <= i < r@.len() ==> built_for(all, #[trigger] models(r@)[i]),
                forall|c: int| 0 <= c < n ==> has_unit(models(r@), #[trigger] all[c]),
            decreases cases@.len() - n,
        {
            let ghost before = models(r@);
            let unit = (cases[n].subject.clone(), cases[n].compile_time_key());
            let ghost m = unit.model();
            proof {
                assert(is_unit(all[n as int], m));
                assert(built_for(all, m));
            }
            add_distinct(&mut r, unit);
            proof {
                let after = models(r@);
                assert forall|i: int| 0 <= i < after.len() implies built_for(
                    all,
                    #[trigger] after[i],
                ) by {
                    unit_is_member(after, i);
                    if !level::<(String, Vec<(String, String)>)>(m, after[i]) {
                        assert(member::<(String, Vec<(String, String)>)>(before, after[i]));
                        let h = member_unit(before, after[i]);
                        assert(built_for(all, before[h]));
                    } else {
                        level_units_are_equal(m, after[i]);
                    }
                }
                assert forall|c: int| 0 <= c < n + 1 implies has_unit(after, #[trigger] all[c]) by {
                    if c < n {
                        assert(has_unit(before, all[c]));
                        let h = choose|h: int|
                            0 <= h < before.len() && is_unit(all[c], #[trigger] before[h]);
                        unit_is_member(before, h);
                        assert(member::<(String, Vec<(String, String)>)>(after, before[h]));
                        let i = member_unit(after, before[h]);
                        assert(is_unit(all[c], after[i]));
                    } else {
                        crate::ordered::lt_irreflexive::<(String, Vec<(String, String)>)>(m);
                        assert(member::<(String, Vec<(String, String)>)>(after, m));
                        let i = member_unit(after, m);
                        assert(is_unit(all[c], after[i]));
                    }
                }
            }
            n = n + 1;
        }
        r
    }

    /// Measurement backends every matching case supports. Intersection, not union:
    /// offering a runner that only some cases can use would silently drop the rest
    /// from the run.
    pub fn runners_for(&self, sel: &SelectorSet) -> (r: Vec<String>)
        ensures
            ascending_texts(texts(r@)),
            forall|t: Seq<char>|
                #[trigger] texts(r@).contains(t) == shared_runner(
                    matching_cases(self@, sel@),
                    t,
                ),
    {
        let cases = self.matching(sel);
        let ghost all = case_refs(cases@);
        let mut common: Vec<String> = Vec::new();
        if cases.len() == 0 {
            return common;
        }
        let first = &cases[0].runners;
        let mut i: usize = 0;
        while i < first.len()
            invariant
                i <= first@.len(),
                cases@.len() > 0,
                all == case_refs(cases@),
                texts(first@) == all[0].runners,
                forall|t: Seq<char>|
                    #[trigger] texts(common@).contains(t) == (texts(first@).take(
                        i as int,
                    ).contains(t) && shared_runner(all, t)),
            decreases first@.len() - i,
        {
            let ghost before = common@;
            let ghost name = first@[i as int]@;
            let ghost head = texts(first@).take(i as int);
            let ghost more = texts(first@).take(i + 1);
            assert(more =~= head.push(name));
            let shared = all_run(&cases, first[i].as_str());
            if shared {
                common.push(first[i].clone());
                assert(texts(common@) =~= texts(before).push(name));
            }
            proof {
                assert forall|t: Seq<char>| #[trigger] texts(common@).contains(t) == (more.contains(t)
                    && shared_runner(all, t)) by {
                    contains_of_append(head, seq![name], t);
                    assert(head + seq![name] =~= more);
                    assert(seq![name].contains(t) == (t == name)) by {
                        if t == name {
                            assert(seq![name][0] == t);
                        }
                    }
                    assert(texts(before).contains(t) == (head.contains(t) && shared_runner(all, t)));
                    if shared {
                        contains_of_append(texts(before), seq![name], t);
                        assert(texts(before) + seq![name] =~= texts(common@));
                    }
                }
            }
            i = i + 1;
        }
        let ghost found = common@;
        let r = distinct_texts(common);
        proof {
            assert(texts(first@).take(first@.len() as int) =~= texts(first@));
            assert forall|t: Seq<char>| #[trigger] texts(r@).contains(t) == shared_runner(all, t) by {
                assert(texts(r@).contains(t) == texts(found).contains(t));
                if shared_runner(all, t) {
                    assert(all[0].runners.contains(t));
                }
            }
        }
        r
    }
}

/// Does some subject declare RUSTFLAGS?
pub open spec fn some_rustflags(list: Seq<(Seq<char>, SubjectFactsV)>) -> bool {
    exists|i: int| 0 <= i < list.len() && (#[trigger] list[i]).1.rustflags is Some
}

/// Does some subject declare these RUSTFLAGS?
pub open spec fn uses_rustflags(list: Seq<(Seq<char>, SubjectFactsV)>, f: Seq<char>) -> bool {
    exists|i: int| 0 <= i < list.len() && (#[trigger] list[i]).1.rustflags == Some(f)
}

/// The cases that a subject declares, in order.
pub open spec fn declared_by(cases: Seq<CaseV>, subject: Seq<char>) -> Seq<CaseV>
    decreases cases.len(),
{
    if cases.len() == 0 {
        Seq::empty()
    } else {
        let rest = declared_by(cases.drop_last(), subject);
        if cases.last().subject == subject {
            rest.push(cases.last())
        } else {
            rest
        }
    }
}

/// A runner that every case supports, where there is a case at all.
pub open spec fn shared_runner(cases: Seq<CaseV>, t: Seq<char>) -> bool {
    cases.len() > 0 && forall|i: int| 0 <= i < cases.len() ==> (#[trigger] cases[i]).runners.contains(t)
}

proof fn contains_of_append(a: Seq<Seq<char>>, b: Seq<Seq<char>>, t: Seq<char>)
    ensures
        (a + b).contains(t) == (a.contains(t) || b.contains(t)),
{
    let c = a + b;
    if c.contains(t) {
        let i = choose|i: int| 0 <= i < c.len() && c[i] == t;
        if i < a.len() {
            assert(a[i] == t);
        } else {
            assert(b[i - a.len()] == t);
        }
    }
    if a.contains(t) {
        let i = choose|i: int| 0 <= i < a.len() && a[i] == t;
        assert(c[i] == t);
    }
    if b.contains(t) {
        let i = choose|i: int| 0 <= i < b.len() && b[i] == t;
        assert(c[a.len() + i] == t);
    }
}

proof fn surviving_is_no_longer(
    cases: Seq<CaseV>,
    list: Seq<(Seq<char>, SubjectFactsV)>,
    set: Seq<Seq<ClauseV>>,
)
    ensures
        surviving(cases, list, set).len() <= cases.len(),
    decreases cases.len(),
{
    if cases.len() > 0 {
        surviving_is_no_longer(cases.drop_last(), list, set);
    }
}

/// A value is level with a member of a list when it is one of the list.
proof fn member_is_listed(s: Seq<TagV>, v: TagV)
    ensures
        member::<TagValue>(s, v) == listed(s, v),
{
    if member::<TagValue>(s, v) {
        let i = choose|i: int| 0 <= i < s.len() && level::<TagValue>(#[trigger] s[i], v);
        level_values_are_same(s[i], v);
        assert(tag_eq(s[i], v));
    }
    if listed(s, v) {
        let i = choose|i: int| 0 <= i < s.len() && tag_eq(#[trigger] s[i], v);
        level_values_are_same(s[i], v);
        assert(level::<TagValue>(s[i], v));
    }
}

/// Lists of pairs of texts are level only when they are equal.
pub proof fn level_coordinates_are_equal(
    a: Seq<(Seq<char>, Seq<char>)>,
    b: Seq<(Seq<char>, Seq<char>)>,
)
    requires
        level::<Vec<(String, String)>>(a, b),
    ensures
        a == b,
    decreases a.len(),
{
    if a.len() > 0 && b.len() > 0 {
        let (x, y) = (a[0], b[0]);
        <(String, String) as Ordered>::asymmetric(x, y);
        level_texts_are_equal(x.0, y.0);
        level_texts_are_equal(x.1, y.1);
        <String as Ordered>::asymmetric(x.0, y.0);
        <String as Ordered>::asymmetric(x.1, y.1);
        assert(x == y);
        level_coordinates_are_equal(a.drop_first(), b.drop_first());
        assert(a =~= seq![x] + a.drop_first());
        assert(b =~= seq![y] + b.drop_first());
    } else {
        assert(a =~= b);
    }
}

/// Builds are level only when they are equal.
proof fn level_units_are_equal(
    a: (Seq<char>, Seq<(Seq<char>, Seq<char>)>),
    b: (Seq<char>, Seq<(Seq<char>, Seq<char>)>),
)
    requires
        level::<(String, Vec<(String, String)>)>(a, b),
    ensures
        a == b,
{
    level_texts_are_equal(a.0, b.0);
    <String as Ordered>::asymmetric(a.0, b.0);
    level_coordinates_are_equal(a.1, b.1);
}

proof fn unit_is_member(units: Seq<(Seq<char>, Seq<(Seq<char>, Seq<char>)>)>, i: int)
    requires
        0 <= i < units.len(),
    ensures
        member::<(String, Vec<(String, String)>)>(units, units[i]),
{
    crate::ordered::each_is_member::<(String, Vec<(String, String)>)>(units, i);
}

proof fn member_unit(
    units: Seq<(Seq<char>, Seq<(Seq<char>, Seq<char>)>)>,
    unit: (Seq<char>, Seq<(Seq<char>, Seq<char>)>),
) -> (i: int)
    requires
        member::<(String, Vec<(String, String)>)>(units, unit),
    ensures
        0 <= i < units.len(),
        units[i] == unit,
{
    let i = crate::ordered::place_of_member::<(String, Vec<(String, String)>)>(units, unit);
    level_units_are_equal(units[i], unit);
    i
}

fn count_points(points: &Vec<(&Case, TagMap)>, id: &str) -> (r: usize)
    ensures
        r == points_with_id(point_refs(points@), id@),
{
    let ghost ps = point_refs(points@);
    let mut n: usize = 0;
    let mut i: usize = 0;
    while i < points.len()
        invariant
            i <= points@.len(),
            n <= i,
            ps == point_refs(points@),
            n == points_with_id(ps.take(i as int), id@),
        decreases points@.len() - i,
    {
        proof {
            let t = ps.take(i + 1);
            assert(t.drop_last() =~= ps.take(i as int));
            assert(t.last().0 == points@[i as int].0@);
        }
        if same(points[i].0.id.as_str(), id) {
            n = n + 1;
        }
        i = i + 1;
    }
    assert(ps.take(points@.len() as int) =~= ps);
    n
}

/// Does the value under a key differ among the cases? Each is held against the first.
fn differs(cases: &Vec<&Case>, key: &str) -> (r: bool)
    ensures
        r == varies(case_refs(cases@), key@),
{
    let ghost all = case_refs(cases@);
    if cases.len() == 0 {
        return false;
    }
    let first = cases[0].tags.get(key);
    assert(all[0] == cases@[0]@);
    let mut j: usize = 1;
    while j < cases.len()
        invariant
            1 <= j <= cases@.len(),
            all == case_refs(cases@),
            match first {
                Some(a) => all[0].tags.dom().contains(key@) && all[0].tags[key@] == a@,
                None => !all[0].tags.dom().contains(key@),
            },
            forall|h: int| 0 <= h < j ==> !(#[trigger] differs_at(all, key@, 0, h)),
        decreases cases@.len() - j,
    {
        assert(all[j as int] == cases@[j as int]@);
        let alike = match (first, cases[j].tags.get(key)) {
            (Some(a), Some(b)) => a.same_as(b),
            (None, None) => true,
            _ => false,
        };
        if !alike {
            assert(differs_at(all, key@, 0, j as int));
            return true;
        }
        j = j + 1;
    }
    proof {
        assert forall|x: int, y: int| !(#[trigger] differs_at(all, key@, x, y)) by {
            if differs_at(all, key@, x, y) {
                assert(!differs_at(all, key@, 0, x));
                assert(!differs_at(all, key@, 0, y));
            }
        }
    }
    false
}

/// Does some point carry a value that the matcher hits?
fn some_point_hits(points: &Vec<(&Case, TagMap)>, key: &str, m: &Match) -> (r: bool)
    ensures
        r == reached(point_refs(points@), key@, m@),
{
    let ghost ps = point_refs(points@);
    let mut i: usize = 0;
    while i < points.len()
        invariant
            i <= points@.len(),
            ps == point_refs(points@),
            forall|h: int|
                0 <= h < i ==> !((#[trigger] ps[h]).1.dom().contains(key@) && hits(
                    m@,
                    ps[h].1[key@],
                )),
        decreases points@.len() - i,
    {
        assert(ps[i as int].1 == points@[i as int].1@);
        if let Some(v) = points[i].1.get(key) {
            if m.hits(v) {
                return true;
            }
        }
        i = i + 1;
    }
    false
}

/// The values of a list that no point carries, as written.
fn unmet_values(points: &Vec<(&Case, TagMap)>, key: &str, wanted: &Vec<TagValue>) -> (r: Vec<String>)
    ensures
        forall|t: Seq<char>|
            #[trigger] texts(r@).contains(t) == unmet_alternative(
                point_refs(points@),
                key@,
                values(wanted@),
                t,
            ),
{
    let ghost ps = point_refs(points@);
    let ghost vs = values(wanted@);
    let powers = match lookup(key) {
        Some(d) => d.pow2,
        None => false,
    };
    let mut r: Vec<String> = Vec::new();
    let mut i: usize = 0;
    while i < wanted.len()
        invariant
            i <= wanted@.len(),
            ps == point_refs(points@),
            vs == values(wanted@),
            powers == writes_powers(key@),
            forall|t: Seq<char>|
                #[trigger] texts(r@).contains(t) == unmet_alternative(
                    ps,
                    key@,
                    vs.take(i as int),
                    t,
                ),
        decreases wanted@.len() - i,
    {
        let ghost before = r@;
        let ghost v = vs[i as int];
        let mut one: Vec<TagValue> = Vec::new();
        one.push(wanted[i].clone());
        assert(values(one@) =~= seq![v]);
        let mut text = key.to_owned();
        text.append("=");
        text.append(wanted[i].to_expr(powers).as_str());
        let ghost w = text@;
        let met = some_point_hits(points, key, &Match::OneOf(one));
        if !met {
            r.push(text);
            assert(texts(r@) =~= texts(before).push(w));
        }
        proof {
            let head = vs.take(i as int);
            let more = vs.take(i + 1);
            assert forall|t: Seq<char>| #[trigger] texts(r@).contains(t) == unmet_alternative(
                ps,
                key@,
                more,
                t,
            ) by {
                assert(texts(before).contains(t) == unmet_alternative(ps, key@, head, t));
                if unmet_alternative(ps, key@, head, t) {
                    let h = choose|h: int|
                        0 <= h < head.len() && t == key@ + "="@ + expr_of(
                            #[trigger] head[h],
                            powers,
                        ) && !reached(ps, key@, MatchV::OneOf(seq![head[h]]));
                    assert(more[h] == head[h]);
                }
                if unmet_alternative(ps, key@, more, t) {
                    let h = choose|h: int|
                        0 <= h < more.len() && t == key@ + "="@ + expr_of(
                            #[trigger] more[h],
                            powers,
                        ) && !reached(ps, key@, MatchV::OneOf(seq![more[h]]));
                    if h < i {
                        assert(more[h] == head[h]);
                    }
                }
                if !met {
                    contains_of_append(texts(before), seq![w], t);
                    assert(texts(before) + seq![w] =~= texts(r@));
                    assert(seq![w].contains(t) == (t == w)) by {
                        if t == w {
                            assert(seq![w][0] == t);
                        }
                    }
                    assert(more[i as int] == v);
                }
            }
        }
        i = i + 1;
    }
    assert(vs.take(wanted@.len() as int) =~= vs);
    r
}

/// The requests of a clause that no point meets, as written.
fn unmet_requests(points: &Vec<(&Case, TagMap)>, clause: &crate::selector::Clause) -> (r: Vec<String>)
    ensures
        forall|t: Seq<char>|
            #[trigger] texts(r@).contains(t) == unmet(point_refs(points@), clause@, t),
{
    let ghost ps = point_refs(points@);
    let mut r: Vec<String> = Vec::new();
    if clause.negated {
        return r;
    }
    let powers = match lookup(clause.key.as_str()) {
        Some(d) => d.pow2,
        None => false,
    };
    match &clause.matcher {
        Match::OneOf(wanted) => {
            return unmet_values(points, clause.key.as_str(), wanted);
        },
        Match::Range { lo, hi } => {
            if !some_point_hits(points, clause.key.as_str(), &clause.matcher) {
                let mut text = clause.key.clone();
                text.append("=");
                text.append(lo.to_expr(powers).as_str());
                text.append("..");
                text.append(hi.to_expr(powers).as_str());
                let ghost w = text@;
                r.push(text);
                proof {
                    assert(texts(r@)[0] == w);
                    assert forall|t: Seq<char>| #[trigger] texts(r@).contains(t) == unmet(
                        ps,
                        clause@,
                        t,
                    ) by {}
                }
            }
        },
        Match::Any => {
            if !some_point_hits(points, clause.key.as_str(), &clause.matcher) {
                let mut text = clause.key.clone();
                text.append("=*");
                let ghost w = text@;
                r.push(text);
                proof {
                    assert(texts(r@)[0] == w);
                    assert forall|t: Seq<char>| #[trigger] texts(r@).contains(t) == unmet(
                        ps,
                        clause@,
                        t,
                    ) by {}
                }
            }
        },
    }
    r
}

/// What a case's axis of this name offers, if it has one and can be reached.
fn reachable_offer(case: &Case, key: &str, sel: &SelectorSet) -> (r: Option<Vec<TagValue>>)
    requires
        sweepable(case@),
    ensures
        match r {
            Some(vs) => sweeps(case@, sel@, key@) && values(vs@) == offered(
                case@.params[axis_at(case@.params, key@)],
            ),
            None => !sweeps(case@, sel@, key@),
        },
{
    let points = case.expand(sel);
    assert(maps(points@).len() == points@.len());
    if points.len() == 0 {
        return None;
    }
    axis_offer(case, key)
}

/// What a case's axis of this name offers, if it has one.
fn axis_offer(case: &Case, key: &str) -> (r: Option<Vec<TagValue>>)
    requires
        sweepable(case@),
    ensures
        match r {
            Some(vs) => has_axis(case@, key@) && values(vs@) == offered(
                case@.params[axis_at(case@.params, key@)],
            ),
            None => !has_axis(case@, key@),
        },
{
    let ghost ps = case@.params;
    let mut i: usize = 0;
    assert(ps.skip(0) =~= ps);
    while i < case.params.len()
        invariant
            i <= case.params@.len(),
            ps == params_of(case.params@),
            sweepable(case@),
            ps == case@.params,
            axis_at(ps, key@) == i + axis_at(ps.skip(i as int), key@),
        decreases case.params@.len() - i,
    {
        assert(ps.skip(i as int).drop_first() =~= ps.skip(i + 1));
        assert(ps.skip(i as int)[0] == case.params@[i as int]@);
        if same(case.params[i].key.as_str(), key) {
            assert(steps_forward(ps[i as int].domain));
            return match case.params[i].domain.enumerate() {
                Some(vs) => Some(vs),
                None => {
                    let mut vs: Vec<TagValue> = Vec::new();
                    vs.push(case.params[i].default.clone());
                    assert(values(vs@) =~= seq![ps[i as int].default]);
                    Some(vs)
                },
            };
        }
        i = i + 1;
    }
    None
}

/// Put all the values of a list into an ascending list without repetitions.
fn add_all(seen: &mut Vec<TagValue>, vs: Vec<TagValue>)
    requires
        strictly_ascending::<TagValue>(models(old(seen)@)),
    ensures
        strictly_ascending::<TagValue>(models(final(seen)@)),
        forall|v: TagV|
            #[trigger] member::<TagValue>(models(final(seen)@), v) == (member::<TagValue>(
                models(old(seen)@),
                v,
            ) || listed(values(vs@), v)),
{
    let ghost start = models(seen@);
    let mut i: usize = 0;
    while i < vs.len()
        invariant
            i <= vs@.len(),
            strictly_ascending::<TagValue>(models(seen@)),
            forall|v: TagV|
                #[trigger] member::<TagValue>(models(seen@), v) == (member::<TagValue>(start, v)
                    || exists|h: int| 0 <= h < i && tag_eq(#[trigger] values(vs@)[h], v)),
        decreases vs@.len() - i,
    {
        let ghost before = models(seen@);
        let ghost m = values(vs@)[i as int];
        add_distinct(seen, vs[i].clone());
        proof {
            assert forall|v: TagV| #[trigger] member::<TagValue>(models(seen@), v) == (member::<
                TagValue,
            >(start, v) || exists|h: int|
                0 <= h < i + 1 && tag_eq(#[trigger] values(vs@)[h], v)) by {
                level_values_are_same(m, v);
                assert(member::<TagValue>(before, v) == (member::<TagValue>(start, v) || exists|h: int|
                    0 <= h < i && tag_eq(#[trigger] values(vs@)[h], v)));
            }
        }
        i = i + 1;
    }
}

/// Does every case support the runner?
fn all_run(cases: &Vec<&Case>, runner: &str) -> (r: bool)
    requires
        cases@.len() > 0,
    ensures
        r == shared_runner(case_refs(cases@), runner@),
{
    let ghost all = case_refs(cases@);
    let mut i: usize = 0;
    while i < cases.len()
        invariant
            i <= cases@.len(),
            all == case_refs(cases@),
            forall|h: int| 0 <= h < i ==> (#[trigger] all[h]).runners.contains(runner@),
        decreases cases@.len() - i,
    {
        assert(all[i as int] == cases@[i as int]@);
        if !holds(&cases[i].runners, runner) {
            return false;
        }
        i = i + 1;
    }
    true
}

} // verus!
