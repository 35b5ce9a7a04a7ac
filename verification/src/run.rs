//! The run pipeline: everything decided between a resolved selection and a written
//! run document.
//!
//! Toolchain resolution, feasibility warnings, per-subject requests and specs,
//! provenance from the lockfile, and the document's header. Errors are user-facing
//! strings: every failure here is terminal for the run.

use crate::adapter::{
    Adapter, CodegenInputs, CodegenInputsV, Prepared, SubjectRequest, SubjectRequestV,
};
use crate::case::{maps, runner_name, Case, CaseV, Runner};
use crate::catalog::{
    case_refs, declared_by, driver_choice, facts_in, heavy_points, matching_cases, point_refs,
    selected_points, Catalog, CatalogV,
};
use crate::exec::{ExecInputs, ExecInputsV};
use crate::harness::{Budget, CaseSpec, CaseSpecV, RunSpec, RunSpecV, HARNESS_VERSION};
use crate::machine::{machine_hash, Machine};
use crate::manifest::{manifest_error_text, SourceV};
use crate::ordered::{ascending_where, ascending_where_is, distinct_texts};
use crate::package::{isa_flags, isa_rustflags};
use crate::paths::{joined_path, path_join};
use crate::resolve::{
    driver_place, driver_source, override_of, overrides, revision, subject_override, subject_place,
    subject_rev, subject_source, Inputs, Places, SubjectPath, SubjectPathV,
};
use crate::schema::{
    Context, ContextV, NamedSubject, NamedSubjectV, Run, RunV, Source, SourceV as RunSourceV,
    SubjectProvenance, SubjectProvenanceV, Toolchain, ToolchainV,
};
use crate::selector::{set_exprs, ClauseV, SelectorSet};
use crate::tag::{render, TagMap, TagV};
use crate::text::{copy_option, debug_text, dec, decimal, join, option_text, same, texts};
use crate::toolchain::{resolution, resolve, version_text, Floor, Version};
use crate::vocab::{namespace, namespace_of};
use vstd::prelude::*;

verus! {

/// One run's inputs, resolved by the caller.
pub struct RunConfig<'a> {
    pub catalog: &'a Catalog,
    pub selection: &'a SelectorSet,
    pub runner: Runner,
    /// Pin the toolchain. Refused if below any selected subject's floor.
    pub rustc: Option<&'a str>,
    /// Proceed with no fingerprint file; the dataset should reject the run.
    pub allow_unfingerprinted: bool,
    /// The random seed for the dataset generator.
    pub random_seed: u64,
    /// Where generated packages are built. Engine output, never sources.
    pub build_root: String,
    /// An engine source checkout for driver path dependencies, if one is reachable.
    /// `None` means drivers come from the versions their manifests pin.
    pub engine_root: Option<String>,
    /// Working-tree overrides. Such runs record a checkout rather than a revision and
    /// are marked dirty.
    pub subject_paths: Vec<SubjectPath>,
}

/// What a dry run reports, per subject: the compile-time cost and the cache key that
/// identifies the build.
#[derive(Debug)]
pub struct SubjectPlan {
    pub subject: String,
    pub combinations: usize,
    pub cache_key: String,
}

/// A [`SubjectPlan`] by its contents.
pub struct SubjectPlanV {
    pub subject: Seq<char>,
    pub combinations: usize,
    pub cache_key: Seq<char>,
}

impl View for SubjectPlan {
    type V = SubjectPlanV;

    open spec fn view(&self) -> SubjectPlanV {
        SubjectPlanV {
            subject: self.subject@,
            combinations: self.combinations,
            cache_key: self.cache_key@,
        }
    }
}

impl Clone for SubjectPlan {
    fn clone(&self) -> (r: Self)
        ensures
            r@ == self@,
    {
        let r = SubjectPlan {
            subject: self.subject.clone(),
            combinations: self.combinations,
            cache_key: self.cache_key.clone(),
        };
        r
    }
}

/// A dry run's plan: the one toolchain everything will build with, and what each
/// subject's build will be.
#[derive(Debug)]
pub struct RunPlan {
    /// `None`: no rust subjects in the selection.
    pub toolchain: Option<Version>,
    pub subjects: Vec<SubjectPlan>,
}

/// A [`RunPlan`] by its contents.
pub struct RunPlanV {
    pub toolchain: Option<Version>,
    pub subjects: Seq<SubjectPlanV>,
}

impl View for RunPlan {
    type V = RunPlanV;

    open spec fn view(&self) -> RunPlanV {
        RunPlanV {
            toolchain: self.toolchain,
            subjects: Seq::new(self.subjects@.len(), |i: int| self.subjects@[i]@),
        }
    }
}

impl Clone for RunPlan {
    fn clone(&self) -> (r: Self)
        ensures
            r@ == self@,
    {
        let mut subjects: Vec<SubjectPlan> = Vec::new();
        let mut i: usize = 0;
        while i < self.subjects.len()
            invariant
                i <= self.subjects@.len(),
                subjects@.len() == i,
                forall|j: int| 0 <= j < i ==> (#[trigger] subjects@[j])@ == self.subjects@[j]@,
            decreases self.subjects@.len() - i,
        {
            subjects.push(self.subjects[i].clone());
            i = i + 1;
        }
        let r = RunPlan {
            toolchain: self.toolchain,
            subjects,
        };
        assert(r@.subjects =~= self@.subjects);
        r
    }
}

/// What a completed run produced.
#[derive(Debug)]
pub struct RunOutcome {
    /// Where the run document was written.
    pub path: String,
    pub points: usize,
    pub toolchain: Option<Version>,
}

/// A [`RunOutcome`] by its contents.
pub struct RunOutcomeV {
    pub path: Seq<char>,
    pub points: usize,
    pub toolchain: Option<Version>,
}

impl View for RunOutcome {
    type V = RunOutcomeV;

    open spec fn view(&self) -> RunOutcomeV {
        RunOutcomeV {
            path: self.path@,
            points: self.points,
            toolchain: self.toolchain,
        }
    }
}

impl Clone for RunOutcome {
    fn clone(&self) -> (r: Self)
        ensures
            r@ == self@,
    {
        let r = RunOutcome {
            path: self.path.clone(),
            points: self.points,
            toolchain: self.toolchain,
        };
        r
    }
}

// ---------------------------------------------------------------- subjects

/// One subject's cases of a selection.
pub struct SubjectCases<'a> {
    pub subject: String,
    pub cases: Vec<&'a Case>,
}

pub open spec fn groups(v: Seq<SubjectCases>) -> Seq<(Seq<char>, Seq<CaseV>)> {
    Seq::new(v.len(), |i: int| (v[i].subject@, case_refs(v[i].cases@)))
}

/// Does some case belong to the subject?
pub open spec fn has_case(cases: Seq<CaseV>, subject: Seq<char>) -> bool {
    exists|i: int| 0 <= i < cases.len() && (#[trigger] cases[i]).subject == subject
}

/// The subjects of some cases, in order.
pub open spec fn subjects_of(cases: Seq<CaseV>) -> Seq<Seq<char>> {
    ascending_where(|t: Seq<char>| has_case(cases, t))
}

/// The cases of a selection by subject, subjects in order.
pub open spec fn grouped(cases: Seq<CaseV>) -> Seq<(Seq<char>, Seq<CaseV>)> {
    let names = subjects_of(cases);
    Seq::new(names.len(), |i: int| (names[i], declared_by(cases, names[i])))
}

fn cases_for<'a>(cases: &Vec<&'a Case>, subject: &str) -> (r: Vec<&'a Case>)
    ensures
        case_refs(r@) == declared_by(case_refs(cases@), subject@),
{
    let ghost all = case_refs(cases@);
    let mut r: Vec<&'a Case> = Vec::new();
    let mut i: usize = 0;
    assert(case_refs(r@) =~= Seq::empty());
    while i < cases.len()
        invariant
            i <= cases@.len(),
            all == case_refs(cases@),
            case_refs(r@) == declared_by(all.take(i as int), subject@),
        decreases cases@.len() - i,
    {
        let ghost before = case_refs(r@);
        proof {
            let t = all.take(i + 1);
            assert(t.drop_last() =~= all.take(i as int));
            assert(t.last() == cases@[i as int]@);
        }
        if same(cases[i].subject.as_str(), subject) {
            r.push(cases[i]);
            assert(case_refs(r@) =~= before.push(cases@[i as int]@));
        }
        i = i + 1;
    }
    assert(all.take(cases@.len() as int) =~= all);
    r
}

/// The subjects of some cases, in order.
pub fn subject_names(cases: &Vec<&Case>) -> (r: Vec<String>)
    ensures
        texts(r@) == subjects_of(case_refs(cases@)),
        forall|i: int| 0 <= i < r@.len() ==> has_case(case_refs(cases@), (#[trigger] r@[i])@),
{
    let ghost all = case_refs(cases@);
    let mut names: Vec<String> = Vec::new();
    let mut i: usize = 0;
    while i < cases.len()
        invariant
            i <= cases@.len(),
            all == case_refs(cases@),
            names@.len() == i,
            forall|j: int| 0 <= j < i ==> (#[trigger] names@[j])@ == all[j].subject,
        decreases cases@.len() - i,
    {
        names.push(cases[i].subject.clone());
        i = i + 1;
    }
    let ghost listed = texts(names@);
    let r = distinct_texts(names);
    proof {
        let test = |t: Seq<char>| has_case(all, t);
        assert forall|t: Seq<char>| #[trigger] texts(r@).contains(t) == test(t) by {
            if listed.contains(t) {
                let j = choose|j: int| 0 <= j < listed.len() && listed[j] == t;
                assert(all[j].subject == t);
            }
            if has_case(all, t) {
                let j = choose|j: int| 0 <= j < all.len() && (#[trigger] all[j]).subject == t;
                assert(listed[j] == t);
            }
        }
        ascending_where_is(texts(r@), test);
        assert forall|i: int| 0 <= i < r@.len() implies has_case(all, (#[trigger] r@[i])@) by {
            assert(texts(r@)[i] == r@[i]@);
            assert(texts(r@).contains(texts(r@)[i]));
        }
    }
    r
}

proof fn subjects_declare_cases(cases: Seq<CaseV>, subject: Seq<char>)
    requires
        has_case(cases, subject),
    ensures
        declared_by(cases, subject).len() > 0,
    decreases cases.len(),
{
    let i = choose|i: int| 0 <= i < cases.len() && (#[trigger] cases[i]).subject == subject;
    if i < cases.len() - 1 {
        assert(cases.drop_last()[i].subject == subject);
        subjects_declare_cases(cases.drop_last(), subject);
    }
}

/// The cases of a selection by subject.
pub fn by_subject<'a>(catalog: &'a Catalog, selection: &SelectorSet) -> (r: Vec<SubjectCases<'a>>)
    ensures
        groups(r@) == grouped(matching_cases(catalog@, selection@)),
        forall|i: int| 0 <= i < r@.len() ==> (#[trigger] r@[i]).cases@.len() > 0,
{
    let cases = catalog.matching(selection);
    let names = subject_names(&cases);
    let ghost all = case_refs(cases@);
    let mut r: Vec<SubjectCases<'a>> = Vec::new();
    let mut i: usize = 0;
    while i < names.len()
        invariant
            i <= names@.len(),
            all == case_refs(cases@),
            texts(names@) == subjects_of(all),
            forall|j: int| 0 <= j < names@.len() ==> has_case(all, (#[trigger] names@[j])@),
            r@.len() == i,
            forall|j: int|
                0 <= j < i ==> (#[trigger] r@[j]).subject@ == names@[j]@ && case_refs(r@[j].cases@)
                    == declared_by(all, names@[j]@),
            forall|j: int| 0 <= j < i ==> (#[trigger] r@[j]).cases@.len() > 0,
        decreases names@.len() - i,
    {
        proof {
            subjects_declare_cases(all, names@[i as int]@);
        }
        r.push(
            SubjectCases {
                subject: names[i].clone(),
                cases: cases_for(&cases, names[i].as_str()),
            },
        );
        assert(case_refs(r@[i as int].cases@).len() == r@[i as int].cases@.len());
        i = i + 1;
    }
    proof {
        let g = groups(r@);
        assert forall|j: int| 0 <= j < g.len() implies g[j] == grouped(all)[j] by {
            assert(r@[j].subject@ == texts(names@)[j]);
        }
        assert(g =~= grouped(all));
    }
    r
}

// ---------------------------------------------------------------- the toolchain

/// The floors of subjects, in their order.
pub open spec fn floors_for(cat: CatalogV, names: Seq<Seq<char>>) -> Seq<
    (Seq<char>, Option<Seq<char>>),
> {
    Seq::new(
        names.len(),
        |i: int|
            (
                names[i],
                match facts_in(cat.subjects, names[i]) {
                    Some(f) => f.min_rustc,
                    None => None,
                },
            ),
    )
}

/// The one toolchain that subjects build with.
pub open spec fn common_toolchain(
    cat: CatalogV,
    names: Seq<Seq<char>>,
    pinned: Option<Seq<char>>,
) -> Result<Option<Version>, Seq<char>> {
    match resolution(floors_for(cat, names), pinned) {
        Err(e) => Err(manifest_error_text(e)),
        Ok(v) => if v == Version(0, 0, 0) {
            Ok(None)
        } else {
            Ok(Some(v))
        },
    }
}

pub open spec fn option_str(s: Option<&str>) -> Option<Seq<char>> {
    match s {
        Some(t) => Some(t@),
        None => None,
    }
}

/// The one toolchain that subjects build with: the highest floor among them, or the
/// caller's pin. `None` where neither asks for one.
pub fn toolchain_for(catalog: &Catalog, names: &Vec<String>, pinned: Option<&str>) -> (r: Result<
    Option<Version>,
    String,
>)
    ensures
        (match r {
            Ok(v) => Ok(v),
            Err(e) => Err(e@),
        }) == common_toolchain(catalog@, texts(names@), option_str(pinned)),
{
    let mut floors: Vec<Floor> = Vec::new();
    let ghost want = floors_for(catalog@, texts(names@));
    let mut i: usize = 0;
    while i < names.len()
        invariant
            i <= names@.len(),
            want == floors_for(catalog@, texts(names@)),
            floors@.len() == i,
            forall|j: int|
                0 <= j < i ==> ((#[trigger] floors@[j]).0@, option_text(floors@[j].1)) == want[j],
        decreases names@.len() - i,
    {
        floors.push((names[i].clone(), catalog.min_rustc(names[i].as_str())));
        i = i + 1;
    }
    assert(crate::toolchain::floors_of(floors@) =~= want);
    match resolve(&floors, pinned) {
        Err(e) => Err(e.to_string()),
        Ok(v) => if v.0 == 0 && v.1 == 0 && v.2 == 0 {
            Ok(None)
        } else {
            Ok(Some(v))
        },
    }
}

/// The one toolchain every Rust subject in this selection builds with.
pub fn resolve_toolchain(config: &RunConfig) -> (r: Result<Option<Version>, String>)
    ensures
        (match r {
            Ok(v) => Ok(v),
            Err(e) => Err(e@),
        }) == common_toolchain(
            config.catalog@,
            subjects_of(matching_cases(config.catalog@, config.selection@)),
            option_str(config.rustc),
        ),
{
    let cases = config.catalog.matching(config.selection);
    let names = subject_names(&cases);
    toolchain_for(config.catalog, &names, config.rustc)
}

// ---------------------------------------------------------------- requests

/// Does some case of the subject carry this instruction set?
pub open spec fn uses_isa(cases: Seq<CaseV>, subject: Seq<char>, isa: Seq<char>) -> bool {
    exists|i: int|
        0 <= i < cases.len() && (#[trigger] cases[i]).subject == subject
            && cases[i].tags.contains_key("isa"@) && render(cases[i].tags["isa"@]) == isa
}

/// The instruction sets among a subject's cases, in order.
pub open spec fn isas_of(cases: Seq<CaseV>, subject: Seq<char>) -> Seq<Seq<char>> {
    ascending_where(|t: Seq<char>| uses_isa(cases, subject, t))
}

/// How a set of texts is written.
pub open spec fn debug_set(list: Seq<Seq<char>>) -> Seq<char> {
    "{"@ + join(Seq::new(list.len(), |i: int| debug_text(list[i])), ", "@) + "}"@
}

/// The compiler flags that a selection gives a subject.
pub open spec fn flags_for(cat: CatalogV, set: Seq<Seq<ClauseV>>, subject: Seq<char>) -> Result<
    Option<Seq<char>>,
    Seq<char>,
> {
    let isas = isas_of(matching_cases(cat, set), subject);
    if isas.len() == 0 {
        Ok(
            match driver_choice(cat.subjects, subject) {
                Ok(d) => d.rustflags,
                Err(_) => None,
            },
        )
    } else if isas.len() == 1 {
        match isa_flags(isas[0]) {
            Some(f) => Ok(Some(f)),
            None => Err(
                subject + ": unknown isa `"@ + isas[0] + "` — the value is not in the vocabulary"@,
            ),
        }
    } else {
        Err(
            subject + ": the selection spans several isa values "@ + debug_set(isas)
                + "; ISA drives the compiler, so narrow the selection to one"@,
        )
    }
}

fn quoted_set(list: &Vec<String>) -> (r: String)
    ensures
        r@ == debug_set(texts(list@)),
{
    let mut parts: Vec<String> = Vec::new();
    let mut i: usize = 0;
    while i < list.len()
        invariant
            i <= list@.len(),
            parts@.len() == i,
            forall|j: int| 0 <= j < i ==> (#[trigger] parts@[j])@ == debug_text(list@[j]@),
        decreases list@.len() - i,
    {
        parts.push(crate::text::quoted(list[i].as_str()));
        i = i + 1;
    }
    assert(texts(parts@) =~= Seq::new(
        texts(list@).len(),
        |i: int| debug_text(texts(list@)[i]),
    ));
    let mut s = "{".to_owned();
    s.append(crate::text::joined(&parts, ", ").as_str());
    s.append("}");
    s
}

fn subject_isas(cases: &Vec<&Case>, subject: &str) -> (r: Vec<String>)
    ensures
        texts(r@) == isas_of(case_refs(cases@), subject@),
{
    let ghost all = case_refs(cases@);
    let mut found: Vec<String> = Vec::new();
    let mut i: usize = 0;
    while i < cases.len()
        invariant
            i <= cases@.len(),
            all == case_refs(cases@),
            forall|t: Seq<char>|
                #[trigger] texts(found@).contains(t) == uses_isa(all.take(i as int), subject@, t),
        decreases cases@.len() - i,
    {
        let ghost head = all.take(i as int);
        let ghost more = all.take(i + 1);
        let ghost before = texts(found@);
        let ghost mut value: Option<Seq<char>> = None;
        let case = cases[i];
        assert(more =~= head.push(case@));
        if same(case.subject.as_str(), subject) {
            if let Some(v) = case.tags.get("isa") {
                let text = v.to_string();
                proof {
                    value = Some(text@);
                }
                found.push(text);
                assert(texts(found@) =~= before.push(text@));
            }
        }
        proof {
            assert forall|t: Seq<char>| #[trigger] texts(found@).contains(t) == uses_isa(
                more,
                subject@,
                t,
            ) by {
                assert(before.contains(t) == uses_isa(head, subject@, t));
                if uses_isa(more, subject@, t) {
                    let j = choose|j: int|
                        0 <= j < more.len() && (#[trigger] more[j]).subject == subject@
                            && more[j].tags.contains_key("isa"@) && render(more[j].tags["isa"@])
                            == t;
                    if j < head.len() {
                        assert(head[j] == more[j]);
                        assert(before.contains(t));
                        let k = choose|k: int| 0 <= k < before.len() && before[k] == t;
                        assert(texts(found@)[k] == t);
                    } else {
                        assert(value == Some(t));
                        assert(texts(found@)[before.len() as int] == t);
                    }
                }
                if texts(found@).contains(t) {
                    let k = choose|k: int| 0 <= k < texts(found@).len() && texts(found@)[k] == t;
                    if k < before.len() {
                        assert(before[k] == t);
                        let j = choose|j: int|
                            0 <= j < head.len() && (#[trigger] head[j]).subject == subject@
                                && head[j].tags.contains_key("isa"@) && render(
                                head[j].tags["isa"@],
                            ) == t;
                        assert(more[j] == head[j]);
                    } else {
                        assert(more[head.len() as int] == case@);
                    }
                }
            }
        }
        i = i + 1;
    }
    assert(all.take(cases@.len() as int) =~= all);
    let ghost listed = texts(found@);
    let r = distinct_texts(found);
    proof {
        let test = |t: Seq<char>| uses_isa(all, subject@, t);
        assert forall|t: Seq<char>| #[trigger] texts(r@).contains(t) == test(t) by {
            assert(texts(r@).contains(t) == listed.contains(t));
        }
        ascending_where_is(texts(r@), test);
    }
    r
}

/// The selected cases' `isa` tag is a compiler input: it decides the build flags
/// outright (replacing the manifest's own target flags, which exist only for subjects
/// that do not declare an ISA). A selection spanning several values would need
/// differently compiled binaries in one run, so it is refused rather than silently
/// measuring one of them.
pub fn isa_resolved_rustflags(catalog: &Catalog, selection: &SelectorSet, subject: &str) -> (r: Result<
    Option<String>,
    String,
>)
    ensures
        (match r {
            Ok(f) => Ok(option_text(f)),
            Err(e) => Err(e@),
        }) == flags_for(catalog@, selection@, subject@),
{
    let cases = catalog.matching(selection);
    let isas = subject_isas(&cases, subject);
    if isas.len() == 0 {
        return Ok(catalog.rustflags(subject));
    }
    if isas.len() == 1 {
        assert(texts(isas@)[0] == isas@[0]@);
        return match isa_rustflags(isas[0].as_str()) {
            Some(f) => Ok(Some(f.to_owned())),
            None => {
                let mut s = subject.to_owned();
                s.append(": unknown isa `");
                s.append(isas[0].as_str());
                s.append("` — the value is not in the vocabulary");
                Err(s)
            },
        };
    }
    let mut s = subject.to_owned();
    s.append(": the selection spans several isa values ");
    s.append(quoted_set(&isas).as_str());
    s.append("; ISA drives the compiler, so narrow the selection to one");
    Err(s)
}

/// The exec inputs of a subject.
pub open spec fn exec_inputs_of(cat: CatalogV, subject: Seq<char>, c: CaseV) -> Result<
    ExecInputsV,
    Seq<char>,
> {
    let facts = facts_in(cat.subjects, subject);
    if facts is None || facts->Some_0.build is None {
        Err(subject + " declares the exec adapter but no build recipe"@)
    } else {
        let f = facts->Some_0;
        match (c.driver_entry, c.driver_lang) {
            (None, _) => Err(subject + " declares no driver entry"@),
            (_, None) => Err(subject + " declares no driver language"@),
            (Some(entry), Some(lang)) => Ok(
                ExecInputsV {
                    manifest_dir: f.manifest_dir,
                    lang,
                    entry: path_join(f.manifest_dir, entry),
                    build: f.build->Some_0,
                    source: SourceV {
                        kind: f.source_kind,
                        repo: f.repo,
                        package: f.source_package,
                        pinned_ref: f.pinned_ref,
                        sha: f.expected_sha,
                    },
                    expected_sha: f.expected_sha,
                },
            ),
        }
    }
}

fn missing(subject: &str, what: &str) -> (r: String)
    ensures
        r@ == subject@ + what@,
{
    let mut s = subject.to_owned();
    s.append(what);
    s
}

fn exec_inputs(catalog: &Catalog, subject: &str, case: &Case) -> (r: Result<ExecInputs, String>)
    ensures
        (match r {
            Ok(i) => Ok(i@),
            Err(e) => Err(e@),
        }) == exec_inputs_of(catalog@, subject@, case@),
{
    let build = match catalog.build(subject) {
        Some(b) => b,
        None => {
            return Err(missing(subject, " declares the exec adapter but no build recipe"));
        },
    };
    let dir = match catalog.manifest_dir(subject) {
        Some(d) => d,
        None => {
            return Err(missing(subject, " has no manifest directory"));
        },
    };
    let entry = match &case.driver_entry {
        Some(e) => joined_path(dir.as_str(), e.as_str()),
        None => {
            return Err(missing(subject, " declares no driver entry"));
        },
    };
    let lang = match &case.driver_lang {
        Some(l) => l.clone(),
        None => {
            return Err(missing(subject, " declares no driver language"));
        },
    };
    let source = match catalog.source_full(subject) {
        Ok(s) => s,
        Err(e) => {
            return Err(e);
        },
    };
    Ok(
        ExecInputs {
            manifest_dir: dir,
            lang,
            entry,
            build,
            source,
            expected_sha: catalog.expected_sha(subject),
        },
    )
}

/// The codegen inputs of a subject. `flags` is what its compiler flags resolved to.
pub open spec fn codegen_inputs_of(
    cat: CatalogV,
    engine_root: Option<Seq<char>>,
    paths: Seq<SubjectPathV>,
    subject: Seq<char>,
    c: CaseV,
    there: Places,
    flags: Result<Option<Seq<char>>, Seq<char>>,
) -> Result<CodegenInputsV, Seq<char>> {
    match c.driver_crate {
        None => Err(subject + " declares no driver crate"@),
        Some(driver_crate) => match driver_place(cat, engine_root, subject, driver_crate, there) {
            Err(e) => Err(e),
            Ok((driver_source, driver_rev)) => match subject_place(cat, paths, subject) {
                Err(e) => Err(e),
                Ok(subject_source) => match c.driver_macro {
                    None => Err(subject + " declares no driver macro"@),
                    Some(driver_macro) => match flags {
                        Err(e) => Err(e),
                        Ok(rustflags) => Ok(
                            CodegenInputsV {
                                driver_crate,
                                driver_macro,
                                driver_source,
                                driver_rev,
                                subject_crate: namespace(subject),
                                subject_source,
                                subject_rev: revision(cat, paths, subject),
                                features: match driver_choice(cat.subjects, subject) {
                                    Ok(d) => d.features,
                                    Err(_) => Seq::empty(),
                                },
                                rustflags,
                            },
                        ),
                    },
                },
            },
        },
    }
}

pub open spec fn flags_result(flags: Result<Option<String>, String>) -> Result<
    Option<Seq<char>>,
    Seq<char>,
> {
    match flags {
        Ok(f) => Ok(option_text(f)),
        Err(e) => Err(e@),
    }
}

fn codegen_inputs(
    inputs: &Inputs,
    subject: &str,
    case: &Case,
    there: Places,
    flags: Result<Option<String>, String>,
) -> (r: Result<CodegenInputs, String>)
    ensures
        (match r {
            Ok(i) => Ok(i@),
            Err(e) => Err(e@),
        }) == codegen_inputs_of(
            inputs.catalog@,
            option_text(*inputs.engine_root),
            overrides(inputs.subject_paths@),
            subject@,
            case@,
            there,
            flags_result(flags),
        ),
{
    let driver_crate = match &case.driver_crate {
        Some(c) => c.clone(),
        None => {
            return Err(missing(subject, " declares no driver crate"));
        },
    };
    let (driver, driver_rev) = match driver_source(inputs, subject, driver_crate.as_str(), there) {
        Ok(d) => d,
        Err(e) => {
            return Err(e);
        },
    };
    let source = match subject_source(inputs, subject) {
        Ok(s) => s,
        Err(e) => {
            return Err(e);
        },
    };
    let driver_macro = match &case.driver_macro {
        Some(m) => m.clone(),
        None => {
            return Err(missing(subject, " declares no driver macro"));
        },
    };
    let rustflags = match flags {
        Ok(f) => f,
        Err(e) => {
            return Err(e);
        },
    };
    Ok(
        CodegenInputs {
            driver_crate,
            driver_macro,
            driver_source: driver,
            driver_rev,
            subject_crate: namespace_of(subject).to_owned(),
            subject_source: source,
            subject_rev: subject_rev(inputs, subject),
            features: inputs.catalog.features(subject),
            rustflags,
        },
    )
}

/// One subject's share of a build. Inputs are resolved only for the adapter that
/// needs them.
pub open spec fn request_of(
    inputs: Inputs,
    build_root: Seq<char>,
    subject: Seq<char>,
    c: CaseV,
    toolchain: Option<Version>,
    there: Places,
    flags: Result<Option<Seq<char>>, Seq<char>>,
) -> Result<SubjectRequestV, Seq<char>> {
    let bare = SubjectRequestV {
        subject,
        adapter: c.adapter,
        build_root,
        toolchain: match toolchain {
            Some(v) => v,
            None => Version(0, 0, 0),
        },
        engine_root: option_text(*inputs.engine_root),
        codegen: None,
        exec_inputs: None,
    };
    match c.adapter {
        Adapter::Exec => match exec_inputs_of(inputs.catalog@, subject, c) {
            Err(e) => Err(e),
            Ok(i) => Ok(SubjectRequestV { exec_inputs: Some(i), ..bare }),
        },
        Adapter::RustCodegen => match codegen_inputs_of(
            inputs.catalog@,
            option_text(*inputs.engine_root),
            overrides(inputs.subject_paths@),
            subject,
            c,
            there,
            flags,
        ) {
            Err(e) => Err(e),
            Ok(i) => Ok(SubjectRequestV { codegen: Some(i), ..bare }),
        },
    }
}

/// One subject's share of a build, put together for the dispatch. An exec subject's
/// driver is built by the language builder from the manifest's own recipe and pin; a
/// rust subject's is generated and built against its resolved sources.
pub fn build_request(
    inputs: &Inputs,
    build_root: &str,
    subject: &str,
    first_case: &Case,
    toolchain: Option<Version>,
    there: Places,
    flags: Result<Option<String>, String>,
) -> (r: Result<SubjectRequest, String>)
    ensures
        (match r {
            Ok(q) => Ok(q@),
            Err(e) => Err(e@),
        }) == request_of(
            *inputs,
            build_root@,
            subject@,
            first_case@,
            toolchain,
            there,
            flags_result(flags),
        ),
{
    let mut environment = None;
    let mut codegen = None;
    match first_case.adapter {
        Adapter::Exec => match exec_inputs(inputs.catalog, subject, first_case) {
            Ok(i) => {
                environment = Some(i);
            },
            Err(e) => {
                return Err(e);
            },
        },
        Adapter::RustCodegen => match codegen_inputs(inputs, subject, first_case, there, flags) {
            Ok(i) => {
                codegen = Some(i);
            },
            Err(e) => {
                return Err(e);
            },
        },
    }
    Ok(
        SubjectRequest {
            subject: subject.to_owned(),
            adapter: first_case.adapter,
            build_root: build_root.to_owned(),
            toolchain: match toolchain {
                Some(v) => v,
                None => Version(0, 0, 0),
            },
            engine_root: copy_option(inputs.engine_root),
            codegen,
            exec_inputs: environment,
        },
    )
}

/// One subject's share of a run, with the compiler flags that its selection gives.
pub fn subject_request(
    config: &RunConfig,
    subject: &str,
    first_case: &Case,
    toolchain: Option<Version>,
    there: Places,
) -> (r: Result<SubjectRequest, String>)
    ensures
        (match r {
            Ok(q) => Ok(q@),
            Err(e) => Err(e@),
        }) == request_of(
            Inputs {
                catalog: config.catalog,
                engine_root: &config.engine_root,
                subject_paths: &config.subject_paths,
            },
            config.build_root@,
            subject@,
            first_case@,
            toolchain,
            there,
            flags_for(config.catalog@, config.selection@, subject@),
        ),
{
    let inputs = Inputs {
        catalog: config.catalog,
        engine_root: &config.engine_root,
        subject_paths: &config.subject_paths,
    };
    let flags = isa_resolved_rustflags(config.catalog, config.selection, subject);
    build_request(
        &inputs,
        config.build_root.as_str(),
        subject,
        first_case,
        toolchain,
        there,
        flags,
    )
}

/// What a dry run says of a subject.
pub fn subject_plan(subject: &str, prepared: &Prepared) -> (r: SubjectPlan)
    ensures
        r@ == (SubjectPlanV {
            subject: subject@,
            combinations: prepared@.generated.combinations,
            cache_key: prepared@.generated.cache_key,
        }),
{
    SubjectPlan {
        subject: subject.to_owned(),
        combinations: prepared.generated.combinations,
        cache_key: prepared.generated.cache_key.clone(),
    }
}

// ---------------------------------------------------------------- specs

/// What a driver is told of a point.
pub open spec fn case_spec(
    point: (CaseV, Map<Seq<char>, TagV>),
    generator: Seq<char>,
    seed: u64,
) -> CaseSpecV {
    CaseSpecV {
        id: point.0.id,
        tags: point.1,
        dataset_generator: generator,
        dataset: if point.1.contains_key("dataset"@) {
            render(point.1["dataset"@])
        } else {
            ""@
        },
        random_seed: seed,
    }
}

/// What a driver is told of a subject's points, in their order.
pub open spec fn case_specs(
    points: Seq<(CaseV, Map<Seq<char>, TagV>)>,
    subject: Seq<char>,
    generator: Seq<char>,
    seed: u64,
) -> Seq<CaseSpecV>
    decreases points.len(),
{
    if points.len() == 0 {
        Seq::empty()
    } else {
        let rest = case_specs(points.drop_last(), subject, generator, seed);
        if points.last().0.subject == subject {
            rest.push(case_spec(points.last(), generator, seed))
        } else {
            rest
        }
    }
}

pub open spec fn default_budget() -> Budget {
    Budget { warm_up_ms: 3_000, measurement_ms: 5_000, sample_size: 30 }
}

pub open spec fn spec_of(cases: Seq<CaseSpecV>) -> RunSpecV {
    RunSpecV { harness_version: HARNESS_VERSION, budget: default_budget(), cases }
}

/// The processes that a run of a subject takes: under criterion one, which sweeps
/// every point; under perf one for each point, since counters are attributed to a
/// process. The other runners emit artefacts rather than points.
pub open spec fn processes(
    runner: Runner,
    subject: Seq<char>,
    specs: Seq<CaseSpecV>,
) -> Result<Seq<RunSpecV>, Seq<char>> {
    match runner {
        Runner::Criterion => Ok(seq![spec_of(specs)]),
        Runner::Perf => Ok(Seq::new(specs.len(), |i: int| spec_of(seq![specs[i]]))),
        _ => Err(
            subject + ": the "@ + runner_name(runner)
                + " runner emits artefacts rather than points — no measurement this pipeline can run"@,
        ),
    }
}

fn specs_for(points: &Vec<(&Case, TagMap)>, subject: &str, generator: &str, seed: u64) -> (r: Vec<
    CaseSpec,
>)
    ensures
        Seq::new(r@.len(), |i: int| r@[i]@) == case_specs(
            point_refs(points@),
            subject@,
            generator@,
            seed,
        ),
{
    let ghost all = point_refs(points@);
    let mut r: Vec<CaseSpec> = Vec::new();
    let mut i: usize = 0;
    assert(Seq::new(r@.len(), |i: int| r@[i]@) =~= Seq::empty());
    while i < points.len()
        invariant
            i <= points@.len(),
            all == point_refs(points@),
            Seq::new(r@.len(), |i: int| r@[i]@) == case_specs(
                all.take(i as int),
                subject@,
                generator@,
                seed,
            ),
        decreases points@.len() - i,
    {
        let ghost before = Seq::new(r@.len(), |i: int| r@[i]@);
        proof {
            let t = all.take(i + 1);
            assert(t.drop_last() =~= all.take(i as int));
            assert(t.last() == (points@[i as int].0@, points@[i as int].1@));
        }
        let (case, tags) = &points[i];
        if same(case.subject.as_str(), subject) {
            let dataset = match tags.get("dataset") {
                Some(v) => v.to_string(),
                None => "".to_owned(),
            };
            let spec = CaseSpec {
                id: case.id.clone(),
                tags: tags.clone(),
                dataset_generator: generator.to_owned(),
                dataset,
                random_seed: seed,
            };
            r.push(spec);
            assert(Seq::new(r@.len(), |i: int| r@[i]@) =~= before.push(spec@));
        }
        i = i + 1;
    }
    assert(all.take(points@.len() as int) =~= all);
    r
}

/// The specs to hand to a subject's driver, one for each process to run.
pub fn run_specs(
    runner: Runner,
    points: &Vec<(&Case, TagMap)>,
    subject: &str,
    generator: &str,
    seed: u64,
) -> (r: Result<Vec<RunSpec>, String>)
    ensures
        (match r {
            Ok(v) => Ok(Seq::new(v@.len(), |i: int| v@[i]@)),
            Err(e) => Err(e@),
        }) == processes(
            runner,
            subject@,
            case_specs(point_refs(points@), subject@, generator@, seed),
        ),
{
    let budget = Budget::default();
    match runner {
        Runner::Criterion => {
            let cases = specs_for(points, subject, generator, seed);
            let spec = RunSpec { harness_version: HARNESS_VERSION, budget, cases };
            let v = vec![spec];
            assert(Seq::new(v@.len(), |i: int| v@[i]@) =~= seq![spec@]);
            Ok(v)
        },
        Runner::Perf => {
            let mut cases = specs_for(points, subject, generator, seed);
            let ghost specs = Seq::new(cases@.len(), |i: int| cases@[i]@);
            let mut v: Vec<RunSpec> = Vec::new();
            let len = cases.len();
            let mut i: usize = 0;
            while i < len
                invariant
                    i <= len,
                    len == specs.len(),
                    cases@.len() == len - i,
                    budget == default_budget(),
                    forall|j: int| 0 <= j < len - i ==> (#[trigger] cases@[j])@ == specs[i + j],
                    v@.len() == i,
                    forall|j: int| 0 <= j < i ==> (#[trigger] v@[j])@ == spec_of(seq![specs[j]]),
                decreases len - i,
            {
                assert(cases@[0]@ == specs[i as int]);
                let ghost old_cases = cases@;
                let case = cases.remove(0);
                assert forall|j: int| 0 <= j < len - i - 1 implies (#[trigger] cases@[j])@
                    == specs[i + 1 + j] by {
                    assert(cases@[j] == old_cases[j + 1]);
                    assert(old_cases[j + 1]@ == specs[i + (j + 1)]);
                }
                let one = vec![case];
                let spec = RunSpec { harness_version: HARNESS_VERSION, budget, cases: one };
                assert(spec@.cases =~= seq![specs[i as int]]);
                v.push(spec);
                i = i + 1;
            }
            assert(Seq::new(v@.len(), |i: int| v@[i]@) =~= Seq::new(
                specs.len(),
                |i: int| spec_of(seq![specs[i]]),
            ));
            Ok(v)
        },
        Runner::Asm | Runner::Mca => {
            let mut s = subject.to_owned();
            s.append(": the ");
            s.append(runner.as_str());
            s.append(
                " runner emits artefacts rather than points — no measurement this pipeline can run",
            );
            Err(s)
        },
    }
}

/// How many points belong to a subject.
pub open spec fn count_for(points: Seq<(CaseV, Map<Seq<char>, TagV>)>, subject: Seq<char>) -> nat
    decreases points.len(),
{
    if points.len() == 0 {
        0
    } else {
        count_for(points.drop_last(), subject) + (if points.last().0.subject == subject {
            1nat
        } else {
            0nat
        })
    }
}

/// A perf run is one point per process: each process measures exactly one case, and
/// every point of the subject has its process.
pub proof fn perf_runs_one_point_per_process(
    points: Seq<(CaseV, Map<Seq<char>, TagV>)>,
    subject: Seq<char>,
    generator: Seq<char>,
    seed: u64,
)
    ensures
        processes(Runner::Perf, subject, case_specs(points, subject, generator, seed)) is Ok,
        ({
            let p = processes(
                Runner::Perf,
                subject,
                case_specs(points, subject, generator, seed),
            )->Ok_0;
            &&& p.len() == count_for(points, subject)
            &&& forall|i: int| 0 <= i < p.len() ==> (#[trigger] p[i]).cases.len() == 1
        }),
    decreases points.len(),
{
    if points.len() > 0 {
        perf_runs_one_point_per_process(points.drop_last(), subject, generator, seed);
    }
}

// ---------------------------------------------------------------- feasibility

pub open spec fn memory_warning(tags: Map<Seq<char>, TagV>, total: u64) -> Seq<char> {
    "warning: tree_size "@ + (if tags.contains_key("tree_size"@) {
        render(tags["tree_size"@])
    } else {
        ""@
    }) + " needs more than half this host's "@ + dec((total / 0x4000_0000) as nat)
        + " GiB (lower-bound estimate); run at your own risk"@
}

/// The warnings of a run: one for each point that needs more than half the memory.
pub open spec fn warnings_of(
    points: Seq<(CaseV, Map<Seq<char>, TagV>)>,
    total: Option<u64>,
) -> Seq<Seq<char>> {
    match total {
        None => Seq::empty(),
        Some(t) => {
            let heavy = heavy_points(points, (t / 2) as int);
            Seq::new(heavy.len(), |i: int| memory_warning(heavy[i], t))
        },
    }
}

/// A manifest's ranges say what is worth sweeping; what actually fits is a
/// per-machine memory question, answered with a warning rather than a refusal: the
/// estimate ignores tree overhead, and the operator may know better than it does.
pub fn memory_warnings(catalog: &Catalog, selection: &SelectorSet, machine: &Machine) -> (r: Vec<
    String,
>)
    ensures
        texts(r@) == warnings_of(
            selected_points(catalog@, selection@),
            machine@.mem.total_bytes,
        ),
{
    let mut r: Vec<String> = Vec::new();
    match machine.mem.total_bytes {
        None => {
            assert(texts(r@) =~= Seq::empty());
        },
        Some(total) => {
            let heavy = catalog.over_budget(selection, total / 2);
            let ghost all = maps(heavy@);
            let mut i: usize = 0;
            while i < heavy.len()
                invariant
                    i <= heavy@.len(),
                    all == maps(heavy@),
                    r@.len() == i,
                    forall|j: int| 0 <= j < i ==> (#[trigger] r@[j])@ == memory_warning(all[j], total),
                decreases heavy@.len() - i,
            {
                let size = match heavy[i].get("tree_size") {
                    Some(v) => v.to_string(),
                    None => "".to_owned(),
                };
                let mut s = "warning: tree_size ".to_owned();
                s.append(size.as_str());
                s.append(" needs more than half this host's ");
                s.append(decimal(total / 0x4000_0000).as_str());
                s.append(" GiB (lower-bound estimate); run at your own risk");
                r.push(s);
                i = i + 1;
            }
            assert(texts(r@) =~= warnings_of(
                selected_points(catalog@, selection@),
                machine@.mem.total_bytes,
            ));
        },
    }
    r
}

/// Whether there is anything to run.
pub fn begin(points: usize) -> (r: Result<(), String>)
    ensures
        match r {
            Ok(_) => points > 0,
            Err(e) => points == 0 && e@ == "that selection matches no data points"@,
        },
{
    if points == 0 {
        Err("that selection matches no data points".to_owned())
    } else {
        Ok(())
    }
}

/// What to say when a build starts.
pub fn building_line(subject: &str, dir: &str, toolchain: Option<Version>) -> (r: String)
    ensures
        r@ == "building "@ + subject@ + " in "@ + dir@ + match toolchain {
            Some(v) => " (rustc "@ + version_text(v) + ")"@,
            None => " (no rust subjects)"@,
        },
{
    let mut s = "building ".to_owned();
    s.append(subject);
    s.append(" in ");
    s.append(dir);
    match toolchain {
        Some(v) => {
            let mut t = " (rustc ".to_owned();
            t.append(v.to_string().as_str());
            t.append(")");
            s.append(t.as_str());
        },
        None => s.append(" (no rust subjects)"),
    }
    s
}

// ---------------------------------------------------------------- provenance

/// Whether the revision that cargo locked is the one that the manifest pins.
pub open spec fn pin_verdict(
    subject: Seq<char>,
    expected: Seq<char>,
    resolved: Option<Seq<char>>,
) -> Result<(), Seq<char>> {
    match resolved {
        None => Err(
            subject
                + ": the pin cannot be verified — the lockfile records no git revision for it"@,
        ),
        Some(sha) => if sha == expected {
            Ok(())
        } else {
            Err(
                subject + ": the pin moved — the manifest expects "@ + expected
                    + " but cargo resolved "@ + sha
                    + ". If the new revision is intended, update the manifest's pinned_ref and sha together."@,
            )
        },
    }
}

/// The manifest may pin the exact revision its ref must resolve to. The comparison
/// runs against what cargo actually locked, so a moved tag is refused at build time,
/// naming both revisions.
pub fn enforce_sha(subject: &str, expected: &str, resolved: Option<&str>) -> (r: Result<(), String>)
    ensures
        (match r {
            Ok(_) => Ok(()),
            Err(e) => Err(e@),
        }) == pin_verdict(subject@, expected@, option_str(resolved)),
{
    match resolved {
        None => {
            let mut s = subject.to_owned();
            s.append(
                ": the pin cannot be verified — the lockfile records no git revision for it",
            );
            Err(s)
        },
        Some(sha) => {
            if same(sha, expected) {
                return Ok(());
            }
            let mut s = subject.to_owned();
            s.append(": the pin moved — the manifest expects ");
            s.append(expected);
            s.append(" but cargo resolved ");
            s.append(sha);
            s.append(
                ". If the new revision is intended, update the manifest's pinned_ref and sha together.",
            );
            Err(s)
        },
    }
}

/// What cargo locked for a subject: its version, and the revision where it came from
/// a repository.
pub struct Locked {
    pub version: String,
    pub sha: Option<String>,
}

/// The revision that a run must have built: the manifest's, where it declares one;
/// none for a working tree, which has no revision, and none for an exec subject,
/// whose builder verified it.
pub open spec fn enforced(
    cat: CatalogV,
    paths: Seq<SubjectPathV>,
    subject: Seq<char>,
    adapter: Adapter,
) -> Option<Seq<char>> {
    if override_of(paths, subject) is Some || adapter == Adapter::Exec {
        None
    } else {
        match facts_in(cat.subjects, subject) {
            Some(f) => f.expected_sha,
            None => None,
        }
    }
}

pub open spec fn pin_of(cat: CatalogV, subject: Seq<char>) -> Seq<char> {
    match facts_in(cat.subjects, subject) {
        Some(f) => f.pinned_ref,
        None => ""@,
    }
}

pub open spec fn locked_sha(locked: Option<Locked>) -> Option<Seq<char>> {
    match locked {
        Some(l) => option_text(l.sha),
        None => None,
    }
}

/// What a run records of a subject: what cargo resolved, from the lockfile, after the
/// pinned revision was enforced.
pub open spec fn recorded_provenance(
    cat: CatalogV,
    paths: Seq<SubjectPathV>,
    subject: Seq<char>,
    adapter: Adapter,
    locked: Option<Locked>,
    resolved_sha: Option<Seq<char>>,
) -> Result<SubjectProvenanceV, Seq<char>> {
    let verdict = match enforced(cat, paths, subject, adapter) {
        Some(expected) => pin_verdict(subject, expected, locked_sha(locked)),
        None => Ok(()),
    };
    match verdict {
        Err(e) => Err(e),
        Ok(_) => Ok(
            SubjectProvenanceV {
                version: match locked {
                    Some(l) => l.version@,
                    None => pin_of(cat, subject),
                },
                pinned_ref: pin_of(cat, subject),
                sha: if locked_sha(locked) is Some {
                    locked_sha(locked)
                } else {
                    resolved_sha
                },
            },
        ),
    }
}

/// What a run records of a subject.
pub fn provenance(
    config: &RunConfig,
    subject: &str,
    adapter: Adapter,
    locked: &Option<Locked>,
    resolved_sha: &Option<String>,
) -> (r: Result<SubjectProvenance, String>)
    ensures
        (match r {
            Ok(p) => Ok(p@),
            Err(e) => Err(e@),
        }) == recorded_provenance(
            config.catalog@,
            overrides(config.subject_paths@),
            subject@,
            adapter,
            *locked,
            option_text(*resolved_sha),
        ),
{
    let pin = match config.catalog.pinned_ref(subject) {
        Some(p) => p,
        None => "".to_owned(),
    };
    let overridden = subject_override(&config.subject_paths, subject).is_some();
    let expected = if overridden || adapter == Adapter::Exec {
        None
    } else {
        config.catalog.expected_sha(subject)
    };
    let sha = match locked {
        Some(l) => copy_option(&l.sha),
        None => None,
    };
    if let Some(expected) = expected {
        let resolved = match &sha {
            Some(s) => Some(s.as_str()),
            None => None,
        };
        if let Err(e) = enforce_sha(subject, expected.as_str(), resolved) {
            return Err(e);
        }
    }
    Ok(
        SubjectProvenance {
            version: match locked {
                Some(l) => l.version.clone(),
                None => pin.clone(),
            },
            pinned_ref: pin,
            sha: match sha {
                Some(s) => Some(s),
                None => copy_option(resolved_sha),
            },
        },
    )
}

/// A manifest-pinned revision is enforced, not merely recorded: a rust subject built
/// from its pin is recorded with that revision or not at all.
pub proof fn a_pinned_revision_is_recorded(
    cat: CatalogV,
    paths: Seq<SubjectPathV>,
    subject: Seq<char>,
    locked: Option<Locked>,
    resolved_sha: Option<Seq<char>>,
)
    requires
        override_of(paths, subject) is None,
        facts_in(cat.subjects, subject) is Some,
        facts_in(cat.subjects, subject)->Some_0.expected_sha is Some,
    ensures
        match recorded_provenance(
            cat,
            paths,
            subject,
            Adapter::RustCodegen,
            locked,
            resolved_sha,
        ) {
            Ok(p) => p.sha == facts_in(cat.subjects, subject)->Some_0.expected_sha,
            Err(_) => true,
        },
{
}

// ---------------------------------------------------------------- the document

/// Everything the run header records.
pub struct RunHeader<'a> {
    pub selection: &'a SelectorSet,
    pub runner: Runner,
    pub toolchain: Option<Version>,
    pub rustflags: Option<String>,
    pub overrides: &'a Vec<SubjectPath>,
    pub machine: &'a Machine,
    pub subjects: Vec<NamedSubject>,
    /// The fingerprint file this run validated against, when one did.
    pub fingerprint: Option<String>,
    pub started_at: String,
}

/// What the clock and the host add to a header.
pub struct RunFacts {
    pub run_id: String,
    pub finished_at: String,
    pub context: Context,
    /// The processor architecture.
    pub host: String,
    /// The engine's version: the schema and harness live here, so this is the version
    /// a dataset reader compares against.
    pub crate_version: String,
}

/// The runner that a header names.
pub open spec fn header_runner(runner: Runner) -> Seq<char> {
    match runner {
        Runner::Perf => "perf"@,
        _ => "criterion"@,
    }
}

pub open spec fn named_subjects(v: Seq<NamedSubject>) -> Seq<NamedSubjectV> {
    Seq::new(v.len(), |i: int| v[i]@)
}

/// The header of a run document.
pub open spec fn header_of(h: RunHeader, facts: RunFacts) -> RunV {
    RunV {
        run_id: facts.run_id@,
        started_at: h.started_at@,
        finished_at: facts.finished_at@,
        runner: header_runner(h.runner),
        selectors: set_exprs(h.selection@),
        machine_hash: machine_hash(h.machine@),
        machine: h.machine@,
        context: ContextV { fingerprint: option_text(h.fingerprint), ..facts.context@ },
        toolchain: ToolchainV {
            rustc: match h.toolchain {
                Some(v) => version_text(v),
                None => "none (no rust subjects)"@,
            },
            host: facts.host@,
            target_cpu: None,
            rustflags: option_text(h.rustflags),
            features: Seq::empty(),
            cargo_profile: "release"@,
            opt_level: Some("3"@),
        },
        source: RunSourceV {
            git_sha: None,
            git_dirty: h.overrides@.len() > 0,
            crate_version: facts.crate_version@,
        },
        subjects: named_subjects(h.subjects@),
    }
}

/// The header of a run document. A working-tree build has no revision to record and is
/// marked dirty, so the dataset can reject it rather than treating it as reproducible;
/// the source of trust for the machine hash is recorded.
pub fn run_header(h: RunHeader, facts: RunFacts) -> (r: Run)
    ensures
        r@ == header_of(h, facts),
{
    let features: Vec<String> = Vec::new();
    assert(texts(features@) =~= Seq::empty());
    let c = facts.context;
    Run {
        run_id: facts.run_id,
        started_at: h.started_at,
        finished_at: facts.finished_at,
        runner: match h.runner {
            Runner::Perf => "perf".to_owned(),
            _ => "criterion".to_owned(),
        },
        selectors: h.selection.to_exprs(),
        machine_hash: h.machine.hash(),
        machine: h.machine.clone(),
        context: Context { fingerprint: h.fingerprint, ..c },
        toolchain: Toolchain {
            rustc: match h.toolchain {
                Some(v) => v.to_string(),
                None => "none (no rust subjects)".to_owned(),
            },
            host: facts.host,
            target_cpu: None,
            rustflags: h.rustflags,
            features,
            cargo_profile: "release".to_owned(),
            opt_level: Some("3".to_owned()),
        },
        source: Source {
            git_sha: None,
            git_dirty: h.overrides.len() > 0,
            crate_version: facts.crate_version,
        },
        subjects: h.subjects,
    }
}

/// Engine output root: build directories and run documents live here, never in a
/// checkout.
pub fn data_dir(xdg_data_home: Option<&str>, home: Option<&str>) -> (r: String)
    ensures
        r@ == path_join(
            match (xdg_data_home, home) {
                (Some(x), _) => x@,
                (None, Some(h)) => path_join(h@, ".local/share"@),
                (None, None) => "."@,
            },
            "spatial-bench"@,
        ),
{
    let base = match (xdg_data_home, home) {
        (Some(x), _) => x.to_owned(),
        (None, Some(h)) => joined_path(h, ".local/share"),
        (None, None) => ".".to_owned(),
    };
    joined_path(base.as_str(), "spatial-bench")
}

/// The dataset generator: beside the program where it is there, or by its name.
pub fn dataset_generator(beside: Option<&str>) -> (r: String)
    ensures
        r@ == match beside {
            Some(p) => p@,
            None => "spatial-bench-dataset"@,
        },
{
    match beside {
        Some(p) => p.to_owned(),
        None => "spatial-bench-dataset".to_owned(),
    }
}

} // verus!
