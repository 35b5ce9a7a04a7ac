//! A run, one step at a time: each selected subject is prepared, built and driven, and
//! what it was built from is recorded.
//!
//! The steps that only the outside can take are asked for and answered; what follows
//! from each answer is decided here.

use crate::adapter::{Adapter, Prepared, PreparedV};
use crate::case::Runner;
use crate::catalog::{case_refs, matching_cases, point_refs, selected_points, CatalogV};
use crate::harness::{RunSpec, RunSpecV};
use crate::resolve::{overrides, SubjectPathV};
use crate::run::{
    begin, by_subject, case_specs, common_toolchain, grouped, groups, named_subjects, option_str,
    processes, provenance, recorded_provenance, resolve_toolchain, run_specs, subjects_of, Locked,
    RunConfig,
};
use crate::schema::{NamedSubject, NamedSubjectV};
use crate::selector::ClauseV;
use crate::toolchain::Version;
use vstd::prelude::*;

verus! {

/// What a run is about.
pub struct AboutV {
    pub cat: CatalogV,
    pub set: Seq<Seq<ClauseV>>,
    pub runner: Runner,
    pub seed: u64,
    pub paths: Seq<SubjectPathV>,
    pub generator: Seq<char>,
}

/// Where a run stands with the subject that is its turn.
pub enum ExecutionAt<P> {
    Prepare,
    Compile { prepared: Prepared, specs: Vec<RunSpec> },
    Measure { prepared: Prepared, specs: Vec<RunSpec>, next: usize, points: Vec<P> },
    Lock { prepared: Prepared, points: Vec<P> },
    Finished,
}

pub enum ExecutionAtV<P> {
    Prepare,
    Compile { prepared: PreparedV, specs: Seq<RunSpecV> },
    Measure { prepared: PreparedV, specs: Seq<RunSpecV>, next: int, points: Seq<P> },
    Lock { prepared: PreparedV, points: Seq<P> },
    Finished,
}

pub open spec fn specs_of(v: Seq<RunSpec>) -> Seq<RunSpecV> {
    Seq::new(v.len(), |i: int| v[i]@)
}

impl<P> View for ExecutionAt<P> {
    type V = ExecutionAtV<P>;

    open spec fn view(&self) -> ExecutionAtV<P> {
        match self {
            ExecutionAt::Prepare => ExecutionAtV::Prepare,
            ExecutionAt::Compile { prepared, specs } => ExecutionAtV::Compile {
                prepared: prepared@,
                specs: specs_of(specs@),
            },
            ExecutionAt::Measure { prepared, specs, next, points } => ExecutionAtV::Measure {
                prepared: prepared@,
                specs: specs_of(specs@),
                next: *next as int,
                points: points@,
            },
            ExecutionAt::Lock { prepared, points } => ExecutionAtV::Lock {
                prepared: prepared@,
                points: points@,
            },
            ExecutionAt::Finished => ExecutionAtV::Finished,
        }
    }
}

/// A run under way.
pub struct Execution<'a, P> {
    config: &'a RunConfig<'a>,
    generator: String,
    toolchain: Option<Version>,
    subjects: Vec<(String, Adapter)>,
    turn: usize,
    at: ExecutionAt<P>,
    collected: Vec<P>,
    recorded: Vec<NamedSubject>,
}

pub struct ExecutionV<P> {
    pub about: AboutV,
    pub toolchain: Option<Version>,
    pub subjects: Seq<(Seq<char>, Adapter)>,
    pub turn: int,
    pub at: ExecutionAtV<P>,
    pub collected: Seq<P>,
    pub recorded: Seq<NamedSubjectV>,
}

pub open spec fn about(config: RunConfig, generator: Seq<char>) -> AboutV {
    AboutV {
        cat: config.catalog@,
        set: config.selection@,
        runner: config.runner,
        seed: config.random_seed,
        paths: overrides(config.subject_paths@),
        generator,
    }
}

pub open spec fn named_adapters(v: Seq<(String, Adapter)>) -> Seq<(Seq<char>, Adapter)> {
    Seq::new(v.len(), |i: int| (v[i].0@, v[i].1))
}

impl<'a, P> View for Execution<'a, P> {
    type V = ExecutionV<P>;

    closed spec fn view(&self) -> ExecutionV<P> {
        ExecutionV {
            about: about(*self.config, self.generator@),
            toolchain: self.toolchain,
            subjects: named_adapters(self.subjects@),
            turn: self.turn as int,
            at: self.at@,
            collected: self.collected@,
            recorded: named_subjects(self.recorded@),
        }
    }
}

/// The subjects of a run in order, each with the adapter of its first case.
pub open spec fn run_subjects(a: AboutV) -> Seq<(Seq<char>, Adapter)> {
    let g = grouped(matching_cases(a.cat, a.set));
    Seq::new(g.len(), |i: int| (g[i].0, g[i].1[0].adapter))
}

/// Something that the outside has to do next.
#[derive(Clone, Copy, Debug, PartialEq, Eq, Structural)]
pub enum Wanted {
    /// Generate and materialise the subject whose turn it is.
    Prepare,
    /// Compile what was prepared.
    Compile,
    /// Drive what was prepared with the next spec.
    Measure,
    /// Read the lockfile of what was built.
    Lock,
    Nothing,
}

pub open spec fn wanted<P>(s: ExecutionV<P>) -> Wanted {
    match s.at {
        ExecutionAtV::Prepare => Wanted::Prepare,
        ExecutionAtV::Compile { .. } => Wanted::Compile,
        ExecutionAtV::Measure { .. } => Wanted::Measure,
        ExecutionAtV::Lock { .. } => Wanted::Lock,
        ExecutionAtV::Finished => Wanted::Nothing,
    }
}

/// What came of it.
pub enum Event<P> {
    Prepared(Result<Prepared, String>),
    Compiled(Result<(), String>),
    Measured(Result<Vec<P>, String>),
    Locked(Option<Locked>),
}

pub open spec fn answers<P>(want: Wanted, e: Event<P>) -> bool {
    match want {
        Wanted::Prepare => e is Prepared,
        Wanted::Compile => e is Compiled,
        Wanted::Measure => e is Measured,
        Wanted::Lock => e is Locked,
        Wanted::Nothing => false,
    }
}

/// What a subject's driver is told, one spec for each process.
pub open spec fn turn_specs<P>(s: ExecutionV<P>) -> Result<Seq<RunSpecV>, Seq<char>> {
    let subject = s.subjects[s.turn].0;
    processes(
        s.about.runner,
        subject,
        case_specs(
            selected_points(s.about.cat, s.about.set),
            subject,
            s.about.generator,
            s.about.seed,
        ),
    )
}

/// Measure next, or, where nothing is left to measure, ask what was built.
pub open spec fn to_measure<P>(
    prepared: PreparedV,
    specs: Seq<RunSpecV>,
    next: int,
    points: Seq<P>,
) -> ExecutionAtV<P> {
    if next < specs.len() {
        ExecutionAtV::Measure { prepared, specs, next, points }
    } else {
        ExecutionAtV::Lock { prepared, points }
    }
}

pub open spec fn to_turn<P>(s: ExecutionV<P>, turn: int) -> ExecutionAtV<P> {
    if turn < s.subjects.len() {
        ExecutionAtV::Prepare
    } else {
        ExecutionAtV::Finished
    }
}

/// How a run goes on.
///
/// A perf run builds its binary once, before the processes that it measures; a
/// criterion run's one process is built and driven together. What a subject was built
/// from is enforced and recorded before its points are kept.
pub open spec fn execution_next<P>(s: ExecutionV<P>, e: Event<P>) -> Result<
    ExecutionV<P>,
    Seq<char>,
> {
    match (s.at, e) {
        (ExecutionAtV::Prepare, Event::Prepared(r)) => match r {
            Err(m) => Err(m@),
            Ok(p) => match turn_specs(s) {
                Err(m) => Err(m),
                Ok(specs) => Ok(
                    ExecutionV {
                        at: if s.about.runner is Perf && p@.adapter == Adapter::RustCodegen {
                            ExecutionAtV::Compile { prepared: p@, specs }
                        } else {
                            to_measure(p@, specs, 0, Seq::empty())
                        },
                        ..s
                    },
                ),
            },
        },
        (ExecutionAtV::Compile { prepared, specs }, Event::Compiled(r)) => match r {
            Err(m) => Err(m@),
            Ok(_) => Ok(ExecutionV { at: to_measure(prepared, specs, 0, Seq::empty()), ..s }),
        },
        (
            ExecutionAtV::Measure { prepared, specs, next, points },
            Event::Measured(r),
        ) => match r {
            Err(m) => Err(m@),
            Ok(more) => Ok(
                ExecutionV { at: to_measure(prepared, specs, next + 1, points + more@), ..s },
            ),
        },
        (ExecutionAtV::Lock { prepared, points }, Event::Locked(locked)) => {
            let (subject, adapter) = s.subjects[s.turn];
            match recorded_provenance(
                s.about.cat,
                s.about.paths,
                subject,
                adapter,
                locked,
                prepared.resolved_sha,
            ) {
                Err(m) => Err(m),
                Ok(p) => Ok(
                    ExecutionV {
                        turn: s.turn + 1,
                        at: to_turn(s, s.turn + 1),
                        collected: s.collected + points,
                        recorded: s.recorded.push(NamedSubjectV { name: subject, provenance: p }),
                        ..s
                    },
                ),
            }
        },
        _ => Err(Seq::empty()),
    }
}

/// A run records one subject for each turn taken, under its name, and knows which spec
/// comes next.
pub open spec fn steady<P>(s: ExecutionV<P>) -> bool {
    &&& 0 <= s.turn <= s.subjects.len()
    &&& (s.at is Finished <==> s.turn == s.subjects.len())
    &&& s.recorded.len() == s.turn
    &&& forall|i: int| 0 <= i < s.turn ==> (#[trigger] s.recorded[i]).name == s.subjects[i].0
    &&& s.at matches ExecutionAtV::Measure { specs, next, .. } ==> 0 <= next < specs.len()
}

pub open spec fn started<P>(a: AboutV, toolchain: Option<Version>) -> ExecutionV<P> {
    let subjects = run_subjects(a);
    ExecutionV {
        about: a,
        toolchain,
        subjects,
        turn: 0,
        at: if subjects.len() > 0 {
            ExecutionAtV::Prepare
        } else {
            ExecutionAtV::Finished
        },
        collected: Seq::empty(),
        recorded: Seq::empty(),
    }
}

/// How a run begins: not at all where nothing is selected, and with one toolchain for
/// every subject.
pub open spec fn execution_start<P>(a: AboutV, pinned: Option<Seq<char>>) -> Result<
    ExecutionV<P>,
    Seq<char>,
> {
    if selected_points(a.cat, a.set).len() == 0 {
        Err("that selection matches no data points"@)
    } else {
        match common_toolchain(a.cat, subjects_of(matching_cases(a.cat, a.set)), pinned) {
            Err(m) => Err(m),
            Ok(toolchain) => Ok(started(a, toolchain)),
        }
    }
}

pub open spec fn execution_result<P>(r: Result<Execution<P>, String>) -> Result<
    ExecutionV<P>,
    Seq<char>,
> {
    match r {
        Ok(s) => Ok(s@),
        Err(e) => Err(e@),
    }
}

impl<'a, P> Execution<'a, P> {
    /// Begin a run.
    pub fn start(config: &'a RunConfig<'a>, generator: &str) -> (r: Result<Self, String>)
        ensures
            execution_result(r) == execution_start::<P>(
                about(*config, generator@),
                option_str(config.rustc),
            ),
            r matches Ok(s) ==> steady(s@),
    {
        let points = config.catalog.points(config.selection);
        assert(point_refs(points@).len() == points@.len());
        match begin(points.len()) {
            Err(e) => {
                return Err(e);
            },
            Ok(_) => {},
        }
        let toolchain = match resolve_toolchain(config) {
            Err(e) => {
                return Err(e);
            },
            Ok(v) => v,
        };
        let list = by_subject(config.catalog, config.selection);
        let ghost a = about(*config, generator@);
        let ghost g = grouped(matching_cases(a.cat, a.set));
        let mut subjects: Vec<(String, Adapter)> = Vec::new();
        let mut i: usize = 0;
        while i < list.len()
            invariant
                i <= list@.len(),
                groups(list@) == g,
                forall|j: int| 0 <= j < list@.len() ==> (#[trigger] list@[j]).cases@.len() > 0,
                g == grouped(matching_cases(a.cat, a.set)),
                subjects@.len() == i,
                forall|j: int|
                    0 <= j < i ==> (#[trigger] subjects@[j]).0@ == g[j].0 && subjects@[j].1
                        == g[j].1[0].adapter,
            decreases list@.len() - i,
        {
            proof {
                assert(groups(list@)[i as int] == g[i as int]);
                assert(case_refs(list@[i as int].cases@)[0] == list@[i as int].cases@[0]@);
            }
            subjects.push((list[i].subject.clone(), list[i].cases[0].adapter));
            i = i + 1;
        }
        assert(groups(list@).len() == list@.len());
        assert(named_adapters(subjects@) =~= run_subjects(a));
        let at = if subjects.len() > 0 {
            ExecutionAt::Prepare
        } else {
            ExecutionAt::Finished
        };
        let r = Execution {
            config,
            generator: generator.to_owned(),
            toolchain,
            subjects,
            turn: 0,
            at,
            collected: Vec::new(),
            recorded: Vec::new(),
        };
        assert(r@.recorded =~= Seq::empty());
        Ok(r)
    }

    /// What has to be done next.
    pub fn wanted(&self) -> (r: Wanted)
        ensures
            r == wanted(self@),
    {
        match &self.at {
            ExecutionAt::Prepare => Wanted::Prepare,
            ExecutionAt::Compile { .. } => Wanted::Compile,
            ExecutionAt::Measure { .. } => Wanted::Measure,
            ExecutionAt::Lock { .. } => Wanted::Lock,
            ExecutionAt::Finished => Wanted::Nothing,
        }
    }

    /// The toolchain that every rust subject is built with.
    pub fn toolchain(&self) -> (r: Option<Version>)
        ensures
            r == self@.toolchain,
    {
        self.toolchain
    }

    /// The subject whose turn it is.
    pub fn subject(&self) -> (r: Option<&String>)
        requires
            steady(self@),
        ensures
            r matches Some(s) ==> self@.turn < self@.subjects.len() && s@
                == self@.subjects[self@.turn].0,
            r is None <==> self@.at is Finished,
    {
        if self.turn < self.subjects.len() {
            assert(self@.subjects[self.turn as int].0 == self.subjects@[self.turn as int].0@);
            Some(&self.subjects[self.turn].0)
        } else {
            None
        }
    }

    /// What was prepared for it.
    pub fn prepared(&self) -> (r: Option<&Prepared>)
        ensures
            (match r {
                Some(p) => Some(p@),
                None => None,
            }) == (match self@.at {
                ExecutionAtV::Compile { prepared, .. } => Some(prepared),
                ExecutionAtV::Measure { prepared, .. } => Some(prepared),
                ExecutionAtV::Lock { prepared, .. } => Some(prepared),
                _ => None,
            }),
    {
        match &self.at {
            ExecutionAt::Compile { prepared, .. } => Some(prepared),
            ExecutionAt::Measure { prepared, .. } => Some(prepared),
            ExecutionAt::Lock { prepared, .. } => Some(prepared),
            _ => None,
        }
    }

    /// The spec to measure with.
    pub fn spec(&self) -> (r: Option<&RunSpec>)
        requires
            steady(self@),
        ensures
            (match r {
                Some(p) => Some(p@),
                None => None,
            }) == (match self@.at {
                ExecutionAtV::Measure { specs, next, .. } => Some(specs[next]),
                _ => None,
            }),
    {
        match &self.at {
            ExecutionAt::Measure { specs, next, .. } => {
                assert(specs_of(specs@)[*next as int] == specs@[*next as int]@);
                Some(&specs[*next])
            },
            _ => None,
        }
    }

    fn measuring(prepared: Prepared, specs: Vec<RunSpec>, next: usize, points: Vec<P>) -> (r: ExecutionAt<
        P,
    >)
        ensures
            r@ == to_measure(prepared@, specs_of(specs@), next as int, points@),
    {
        if next < specs.len() {
            ExecutionAt::Measure { prepared, specs, next, points }
        } else {
            ExecutionAt::Lock { prepared, points }
        }
    }

    fn moved(self, at: ExecutionAt<P>) -> (r: Self)
        ensures
            r@ == (ExecutionV { at: at@, ..self@ }),
    {
        Execution {
            config: self.config,
            generator: self.generator,
            toolchain: self.toolchain,
            subjects: self.subjects,
            turn: self.turn,
            at,
            collected: self.collected,
            recorded: self.recorded,
        }
    }

    fn specs(&self) -> (r: Result<Vec<RunSpec>, String>)
        requires
            steady(self@),
            self@.at is Prepare,
        ensures
            (match r {
                Ok(v) => Ok(specs_of(v@)),
                Err(e) => Err(e@),
            }) == turn_specs(self@),
    {
        let points = self.config.catalog.points(self.config.selection);
        assert(self@.subjects[self.turn as int].0 == self.subjects@[self.turn as int].0@);
        let r = run_specs(
            self.config.runner,
            &points,
            self.subjects[self.turn].0.as_str(),
            self.generator.as_str(),
            self.config.random_seed,
        );
        proof {
            match &r {
                Ok(v) => {
                    assert(specs_of(v@) =~= Seq::new(v@.len(), |i: int| v@[i]@));
                },
                Err(_) => {},
            }
        }
        r
    }

    fn after_preparing(self, p: Prepared) -> (r: Result<Self, String>)
        requires
            steady(self@),
            self@.at is Prepare,
        ensures
            execution_result(r) == execution_next(
                self@,
                Event::Prepared(Ok::<Prepared, String>(p)),
            ),
            r matches Ok(s) ==> steady(s@),
    {
        let specs = match self.specs() {
            Err(m) => {
                return Err(m);
            },
            Ok(v) => v,
        };
        let at = if self.config.runner == Runner::Perf && p.adapter == Adapter::RustCodegen {
            ExecutionAt::Compile { prepared: p, specs }
        } else {
            let none: Vec<P> = Vec::new();
            assert(none@ =~= Seq::empty());
            Self::measuring(p, specs, 0, none)
        };
        Ok(self.moved(at))
    }

    fn after_locking(self, prepared: Prepared, points: Vec<P>, locked: &Option<Locked>) -> (r: Result<
        Self,
        String,
    >)
        requires
            steady(self@),
            self@.turn < self@.subjects.len(),
        ensures
            execution_result(r) == execution_next(
                ExecutionV {
                    at: ExecutionAtV::Lock { prepared: prepared@, points: points@ },
                    ..self@
                },
                Event::Locked(*locked),
            ),
            r matches Ok(s) ==> steady(s@),
    {
        let turn = self.turn;
        assert(self@.subjects[turn as int] == (
            self.subjects@[turn as int].0@,
            self.subjects@[turn as int].1,
        ));
        let name = self.subjects[turn].0.clone();
        let adapter = self.subjects[turn].1;
        let record = match provenance(
            self.config,
            name.as_str(),
            adapter,
            locked,
            &prepared.resolved_sha,
        ) {
            Err(m) => {
                return Err(m);
            },
            Ok(p) => NamedSubject { name, provenance: p },
        };
        let mut collected = self.collected;
        let mut points = points;
        let ghost all = collected@ + points@;
        collected.append(&mut points);
        assert(collected@ =~= all);
        let mut recorded = self.recorded;
        let ghost before = named_subjects(recorded@);
        recorded.push(record);
        assert(named_subjects(recorded@) =~= before.push(record@));
        let more = self.subjects.len() - turn > 1;
        Ok(
            Execution {
                config: self.config,
                generator: self.generator,
                toolchain: self.toolchain,
                subjects: self.subjects,
                turn: turn + 1,
                at: if more {
                    ExecutionAt::Prepare
                } else {
                    ExecutionAt::Finished
                },
                collected,
                recorded,
            },
        )
    }

    /// Go on once what was wanted is done.
    pub fn next(self, event: Event<P>) -> (r: Result<Self, String>)
        requires
            steady(self@),
            answers(wanted(self@), event),
        ensures
            execution_result(r) == execution_next(self@, event),
            r matches Ok(s) ==> steady(s@),
    {
        let Execution { config, generator, toolchain, subjects, turn, at, collected, recorded } =
            self;
        let rest: Execution<'a, P> = Execution {
            config,
            generator,
            toolchain,
            subjects,
            turn,
            at: ExecutionAt::Prepare,
            collected,
            recorded,
        };
        match (at, event) {
            (ExecutionAt::Prepare, Event::Prepared(r)) => match r {
                Err(m) => Err(m),
                Ok(p) => rest.after_preparing(p),
            },
            (ExecutionAt::Compile { prepared, specs }, Event::Compiled(r)) => match r {
                Err(m) => Err(m),
                Ok(_) => {
                    let none: Vec<P> = Vec::new();
                    assert(none@ =~= Seq::empty());
                    Ok(rest.moved(Self::measuring(prepared, specs, 0, none)))
                },
            },
            (
                ExecutionAt::Measure { prepared, specs, next, points },
                Event::Measured(r),
            ) => match r {
                Err(m) => Err(m),
                Ok(more) => {
                    let mut more = more;
                    let mut points = points;
                    let ghost all = points@ + more@;
                    points.append(&mut more);
                    assert(points@ =~= all);
                    assert(specs_of(specs@).len() == specs@.len());
                    let last = specs.len() - next == 1;
                    Ok(
                        rest.moved(
                            if last {
                                ExecutionAt::Lock { prepared, points }
                            } else {
                                Self::measuring(prepared, specs, next + 1, points)
                            },
                        ),
                    )
                },
            },
            (ExecutionAt::Lock { prepared, points }, Event::Locked(locked)) => rest.after_locking(
                prepared,
                points,
                &locked,
            ),
            _ => Err(String::new()),
        }
    }

    /// What a finished run measured, and what each subject was built from.
    pub fn finish(self) -> (r: (Vec<P>, Vec<NamedSubject>))
        ensures
            r.0@ == self@.collected,
            named_subjects(r.1@) == self@.recorded,
    {
        (self.collected, self.recorded)
    }
}

// ---------------------------------------------------------------- laws

/// How many answers the subject whose turn it is still waits for, at most, once it is
/// prepared.
pub open spec fn turn_left<P>(s: ExecutionV<P>) -> int {
    match s.at {
        ExecutionAtV::Compile { specs, .. } => specs.len() as int + 2,
        ExecutionAtV::Measure { specs, next, .. } => specs.len() - next + 1,
        ExecutionAtV::Lock { .. } => 1,
        _ => 0,
    }
}

/// A run ends: each answer takes a subject on, and after a bounded number of them the
/// next subject's turn comes.
pub proof fn runs_end<P>(s: ExecutionV<P>, e: Event<P>)
    requires
        steady(s),
        answers(wanted(s), e),
    ensures
        execution_next(s, e) matches Ok(n) ==> {
            &&& steady(n)
            &&& n.subjects == s.subjects
            &&& n.turn == s.turn || n.turn == s.turn + 1
            &&& n.turn == s.turn && !(s.at is Prepare) ==> 0 < turn_left(n) < turn_left(s)
            &&& n.turn == s.turn && s.at is Prepare ==> !(n.at is Prepare)
        },
{
}

/// A finished run has recorded every subject, in order.
pub proof fn finished_runs_record_every_subject<P>(s: ExecutionV<P>)
    requires
        steady(s),
        s.at is Finished,
    ensures
        s.recorded.len() == s.subjects.len(),
        forall|i: int|
            0 <= i < s.subjects.len() ==> (#[trigger] s.recorded[i]).name == s.subjects[i].0,
{
}

/// Points are only ever added, behind those that were collected before.
pub proof fn points_are_kept<P>(s: ExecutionV<P>, e: Event<P>)
    ensures
        execution_next(s, e) matches Ok(n) ==> s.collected.is_prefix_of(n.collected)
            && s.recorded.is_prefix_of(n.recorded),
{
}

/// Under perf a rust subject is compiled once, before the first of its processes.
pub proof fn perf_compiles_first<P>(s: ExecutionV<P>, p: Prepared)
    requires
        s.at is Prepare,
        s.about.runner is Perf,
        p@.adapter == Adapter::RustCodegen,
    ensures
        execution_next(s, Event::Prepared(Ok::<Prepared, String>(p))) matches Ok(n) ==> n.at
            is Compile,
{
}

} // verus!
