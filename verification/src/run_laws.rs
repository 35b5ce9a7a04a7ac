//! What a run promises of its drivers: each is handed its own points, all of them, in
//! their order and with every tag resolved.

use crate::adapter::{Adapter, Prepared};
use crate::case::{footprint, runner_name, runner_names_round_trip, runner_of, CaseV, Runner};
use crate::catalog::{facts_in, selected_points, CatalogV, SubjectFactsV};
use crate::exec_laws::stands_between;
use crate::execute::{execution_next, Event, ExecutionAtV, ExecutionV};
use crate::harness::{items_of, CaseSpecV, DriverLine, HarnessErrorV, Listing};
use crate::machine::machine_hash;
use crate::measure::budget_fault;
use crate::resolve::{override_of, SubjectPathV};
use crate::run::{
    case_specs, count_for, header_of, memory_warning, processes, recorded_provenance, warnings_of,
    Locked, RunFacts, RunHeader,
};
use crate::selector::set_exprs;
use crate::tag::{render, TagV};
use crate::text::{contains_text, dec, trim};
use crate::toolchain::{read_version, versions_read_back};
use vstd::prelude::*;

verus! {

/// The points of a selection that belong to a subject, in their order.
pub open spec fn points_for(
    points: Seq<(CaseV, Map<Seq<char>, TagV>)>,
    subject: Seq<char>,
) -> Seq<(CaseV, Map<Seq<char>, TagV>)> {
    points.filter(|p: (CaseV, Map<Seq<char>, TagV>)| p.0.subject == subject)
}

/// Is a driver told of the point as it is: under its case's id, with every tag that it
/// has and no other?
pub open spec fn tells_of(spec: CaseSpecV, point: (CaseV, Map<Seq<char>, TagV>)) -> bool {
    &&& spec.id == point.0.id
    &&& forall|key: Seq<char>| #[trigger]
        spec.tags.dom().contains(key) == point.1.dom().contains(key)
    &&& forall|key: Seq<char>| #[trigger]
        point.1.dom().contains(key) ==> spec.tags[key] == point.1[key]
}

/// A driver is told of exactly its subject's points: the case at a place is the point at
/// that place, with the value of every axis that was selected.
pub proof fn drivers_get_their_points(
    points: Seq<(CaseV, Map<Seq<char>, TagV>)>,
    subject: Seq<char>,
    generator: Seq<char>,
    seed: u64,
)
    ensures
        case_specs(points, subject, generator, seed).len() == points_for(points, subject).len(),
        forall|i: int|
            0 <= i < points_for(points, subject).len() ==> tells_of(
                #[trigger] case_specs(points, subject, generator, seed)[i],
                points_for(points, subject)[i],
            ),
    decreases points.len(),
{
    reveal(Seq::filter);
    let specs = case_specs(points, subject, generator, seed);
    let own = points_for(points, subject);
    if points.len() > 0 {
        let t = points.drop_last();
        drivers_get_their_points(t, subject, generator, seed);
        let rest = case_specs(t, subject, generator, seed);
        let few = points_for(t, subject);
        assert forall|i: int| 0 <= i < own.len() implies tells_of(#[trigger] specs[i], own[i]) by {
            if i < few.len() {
                assert(specs[i] == rest[i]);
                assert(own[i] == few[i]);
                assert(tells_of(rest[i], few[i]));
            }
        }
    }
}

/// Every case of a driver names the generator, the seed and the dataset of its own point.
pub proof fn drivers_get_the_dataset_of_each_point(
    points: Seq<(CaseV, Map<Seq<char>, TagV>)>,
    subject: Seq<char>,
    generator: Seq<char>,
    seed: u64,
    i: int,
)
    requires
        0 <= i < case_specs(points, subject, generator, seed).len(),
    ensures
        ({
            let c = case_specs(points, subject, generator, seed)[i];
            &&& c.dataset_generator == generator
            &&& c.random_seed == seed
            &&& c.tags.dom().contains("dataset"@) ==> c.dataset == render(c.tags["dataset"@])
            &&& !c.tags.dom().contains("dataset"@) ==> c.dataset.len() == 0
        }),
    decreases points.len(),
{
    reveal_strlit("");
    let rest = case_specs(points.drop_last(), subject, generator, seed);
    if i < rest.len() {
        drivers_get_the_dataset_of_each_point(points.drop_last(), subject, generator, seed, i);
    }
}

/// Points that differ in an axis are told apart: so are the cases that a driver gets of
/// them.
pub proof fn differing_points_give_differing_cases(
    points: Seq<(CaseV, Map<Seq<char>, TagV>)>,
    subject: Seq<char>,
    generator: Seq<char>,
    seed: u64,
    i: int,
    j: int,
    key: Seq<char>,
)
    requires
        0 <= i < points_for(points, subject).len(),
        0 <= j < points_for(points, subject).len(),
        points_for(points, subject)[i].1.dom().contains(key),
        points_for(points, subject)[j].1.dom().contains(key),
        points_for(points, subject)[i].1[key] != points_for(points, subject)[j].1[key],
    ensures
        case_specs(points, subject, generator, seed)[i].tags[key] != case_specs(
            points,
            subject,
            generator,
            seed,
        )[j].tags[key],
{
    drivers_get_their_points(points, subject, generator, seed);
    let specs = case_specs(points, subject, generator, seed);
    assert(tells_of(specs[i], points_for(points, subject)[i]));
    assert(tells_of(specs[j], points_for(points, subject)[j]));
}

/// A criterion run is one process that measures every point of the subject; a perf run
/// measures the points one process at a time, in their order. Nothing is measured twice,
/// and nothing is left out.
pub proof fn processes_measure_every_point(
    points: Seq<(CaseV, Map<Seq<char>, TagV>)>,
    subject: Seq<char>,
    generator: Seq<char>,
    seed: u64,
)
    ensures
        ({
            let own = points_for(points, subject);
            let specs = case_specs(points, subject, generator, seed);
            &&& processes(Runner::Criterion, subject, specs) matches Ok(p) && p.len() == 1
                && p[0].cases.len() == own.len() && forall|i: int|
                0 <= i < own.len() ==> tells_of(#[trigger] p[0].cases[i], own[i])
            &&& processes(Runner::Perf, subject, specs) matches Ok(p) && p.len() == own.len()
                && forall|i: int|
                0 <= i < own.len() ==> (#[trigger] p[i]).cases.len() == 1 && tells_of(
                    p[i].cases[0],
                    own[i],
                )
        }),
{
    drivers_get_their_points(points, subject, generator, seed);
    let own = points_for(points, subject);
    let specs = case_specs(points, subject, generator, seed);
    let one = processes(Runner::Criterion, subject, specs)->Ok_0;
    assert(one[0].cases == specs);
    assert forall|i: int| 0 <= i < own.len() implies tells_of(#[trigger] one[0].cases[i], own[i]) by {
        assert(tells_of(specs[i], own[i]));
    }
    let many = processes(Runner::Perf, subject, specs)->Ok_0;
    assert forall|i: int| 0 <= i < own.len() implies (#[trigger] many[i]).cases.len() == 1
        && tells_of(many[i].cases[0], own[i]) by {
        assert(many[i].cases[0] == specs[i]);
        assert(tells_of(specs[i], own[i]));
    }
}

/// Every process of a run is given the same contract version and the same budget, however
/// its points are spread over processes: timings of two processes are comparable.
pub proof fn processes_share_one_budget(
    a: Runner,
    b: Runner,
    subject: Seq<char>,
    specs: Seq<CaseSpecV>,
    i: int,
    j: int,
)
    requires
        processes(a, subject, specs) matches Ok(p) && 0 <= i < p.len(),
        processes(b, subject, specs) matches Ok(p) && 0 <= j < p.len(),
    ensures
        processes(a, subject, specs)->Ok_0[i].budget == processes(b, subject, specs)->Ok_0[j].budget,
        processes(a, subject, specs)->Ok_0[i].harness_version == processes(
            b,
            subject,
            specs,
        )->Ok_0[j].harness_version,
        processes(a, subject, specs)->Ok_0[i].budget.measurement_ms > 0,
        processes(a, subject, specs)->Ok_0[i].budget.sample_size >= 10,
{
}

// ---------------------------------------------------------------- a driver's output

/// What a line of a driver's listing holds, unless it is blank.
pub open spec fn line_item<T>(line: DriverLine<T>) -> Option<T> {
    if line.text is Ok && trim(line.text->Ok_0@).len() > 0 && line.item is Ok {
        Some(line.item->Ok_0)
    } else {
        None
    }
}

/// Can the line be taken: read, and blank or parsed?
pub open spec fn is_sound<T>(line: DriverLine<T>) -> bool {
    line.text is Ok && (trim(line.text->Ok_0@).len() == 0 || line.item is Ok)
}

/// A listing that reads gives the item of each line that is not blank, in order, each
/// once; it reads exactly when every line can be taken.
pub proof fn listings_keep_every_item<T>(lines: Seq<DriverLine<T>>, listing: Listing)
    ensures
        items_of(lines, listing) is Ok <==> forall|i: int|
            0 <= i < lines.len() ==> is_sound(#[trigger] lines[i]),
        items_of(lines, listing) matches Ok(items) ==> items == lines.filter_map(
            |line: DriverLine<T>| line_item(line),
        ),
    decreases lines.len(),
{
    if lines.len() > 0 {
        let t = lines.drop_last();
        listings_keep_every_item(t, listing);
        assert(lines[lines.len() - 1] == lines.last());
        if forall|i: int| 0 <= i < t.len() ==> is_sound(#[trigger] t[i]) {
            assert forall|i: int| 0 <= i < t.len() implies is_sound(#[trigger] lines[i]) by {
                assert(is_sound(t[i]));
            }
        } else {
            let i = choose|i: int| 0 <= i < t.len() && !is_sound(#[trigger] t[i]);
            assert(!is_sound(lines[i]));
        }
        let f = |line: DriverLine<T>| line_item(line);
        if let Ok(items) = items_of(lines, listing) {
            let before = items_of(t, listing)->Ok_0;
            assert(before == t.filter_map(f));
            match f(lines.last()) {
                Some(x) => {
                    assert(items =~= before + seq![x]);
                },
                None => {},
            }
        }
    }
}

/// A listing with a line that cannot be taken is refused for the first such line, by its
/// number.
pub proof fn the_first_bad_line_is_named<T>(lines: Seq<DriverLine<T>>, i: int)
    requires
        0 <= i < lines.len() <= usize::MAX,
        !is_sound(lines[i]),
        forall|j: int| 0 <= j < i ==> is_sound(#[trigger] lines[j]),
    ensures
        items_of(lines, Listing::Points) == Err::<Seq<T>, HarnessErrorV>(
            match lines[i].text {
                Err(e) => HarnessErrorV::Io(e@),
                Ok(_) => HarnessErrorV::BadPoint {
                    line: (i + 1) as usize,
                    err: lines[i].item->Err_0@,
                },
            },
        ),
    decreases lines.len(),
{
    let t = lines.drop_last();
    if i < t.len() {
        assert forall|j: int| 0 <= j < i implies is_sound(#[trigger] t[j]) by {
            assert(is_sound(lines[j]));
        }
        the_first_bad_line_is_named(t, i);
    } else {
        assert forall|j: int| 0 <= j < t.len() implies is_sound(#[trigger] t[j]) by {
            assert(is_sound(lines[j]));
        }
        listings_keep_every_item(t, Listing::Points);
    }
}

// ---------------------------------------------------------------- the run as a whole

/// The points that an answer brings.
pub open spec fn brought<P>(e: Event<P>) -> Seq<P> {
    match e {
        Event::Measured(Ok(points)) => points@,
        _ => Seq::empty(),
    }
}

/// Everything that answers bring, in order.
pub open spec fn all_brought<P>(events: Seq<Event<P>>) -> Seq<P>
    decreases events.len(),
{
    if events.len() == 0 {
        Seq::empty()
    } else {
        all_brought(events.drop_last()) + brought(events.last())
    }
}

/// Where a run stands after some answers, where none of them ended it.
pub open spec fn after<P>(s: ExecutionV<P>, events: Seq<Event<P>>) -> Option<ExecutionV<P>>
    decreases events.len(),
{
    if events.len() == 0 {
        Some(s)
    } else {
        match after(s, events.drop_last()) {
            Some(n) => match execution_next(n, events.last()) {
                Ok(m) => Some(m),
                Err(_) => None,
            },
            None => None,
        }
    }
}

/// The points of the subject whose turn it is.
spec fn pending<P>(s: ExecutionV<P>) -> Seq<P> {
    match s.at {
        ExecutionAtV::Measure { points, .. } => points,
        ExecutionAtV::Lock { points, .. } => points,
        _ => Seq::empty(),
    }
}

proof fn nothing_is_lost_on_the_way<P>(s: ExecutionV<P>, events: Seq<Event<P>>)
    requires
        s.at is Prepare || s.at is Finished,
        after(s, events) is Some,
    ensures
        after(s, events)->Some_0.collected + pending(after(s, events)->Some_0) == s.collected
            + all_brought(events),
    decreases events.len(),
{
    if events.len() > 0 {
        let t = events.drop_last();
        nothing_is_lost_on_the_way(s, t);
        let m = after(s, t)->Some_0;
        let n = after(s, events)->Some_0;
        let e = events.last();
        assert(n.collected + pending(n) =~= m.collected + pending(m) + brought(e));
        assert(s.collected + all_brought(events) =~= s.collected + all_brought(t) + brought(e));
    } else {
        assert(s.collected + pending(s) =~= s.collected + all_brought(events));
    }
}

/// A finished run holds every point that was measured, in the order in which they came,
/// and nothing else.
pub proof fn runs_keep_every_measured_point<P>(s: ExecutionV<P>, events: Seq<Event<P>>)
    requires
        s.at is Prepare || s.at is Finished,
        s.collected.len() == 0,
        after(s, events) matches Some(n) && n.at is Finished,
    ensures
        after(s, events)->Some_0.collected == all_brought(events),
{
    nothing_is_lost_on_the_way(s, events);
    let n = after(s, events)->Some_0;
    assert(n.collected + pending(n) =~= n.collected);
    assert(s.collected + all_brought(events) =~= all_brought(events));
}

/// A subject is measured by each of its processes in turn: where one has answered, the
/// next one is asked, and where all have, what was built is asked for.
pub proof fn processes_are_measured_in_turn<P>(s: ExecutionV<P>, e: Event<P>)
    requires
        s.at is Measure,
        e matches Event::Measured(r) && r is Ok,
    ensures
        execution_next(s, e) matches Ok(n) && n.turn == s.turn && if s.at->next + 1
            < s.at->Measure_specs.len() {
            n.at is Measure && n.at->next == s.at->next + 1 && n.at->Measure_specs
                == s.at->Measure_specs
        } else {
            n.at is Lock
        },
{
}

/// The subject whose turn it is is measured on its own points: the specs of its processes
/// are those of the points of the selection that belong to it, from the first on.
pub proof fn turns_measure_their_own_points<P>(s: ExecutionV<P>, p: Prepared)
    requires
        s.at is Prepare,
        0 <= s.turn < s.subjects.len(),
        s.about.runner is Criterion,
        execution_next(s, Event::Prepared(Ok(p))) is Ok,
    ensures
        ({
            let own = points_for(selected_points(s.about.cat, s.about.set), s.subjects[s.turn].0);
            let n = execution_next(s, Event::Prepared(Ok(p)))->Ok_0;
            n.at matches ExecutionAtV::Measure { prepared, specs, next, points } && prepared == p@
                && next == 0 && points.len() == 0 && specs.len() == 1 && specs[0].cases.len()
                == own.len() && forall|i: int|
                0 <= i < own.len() ==> tells_of(#[trigger] specs[0].cases[i], own[i])
        }),
{
    processes_measure_every_point(
        selected_points(s.about.cat, s.about.set),
        s.subjects[s.turn].0,
        s.about.generator,
        s.about.seed,
    );
}

/// A failure ends a run: no document is written of what is left.
pub proof fn failures_end_a_run<P>(s: ExecutionV<P>, e: Event<P>)
    requires
        match e {
            Event::Prepared(r) => r is Err,
            Event::Compiled(r) => r is Err,
            Event::Measured(r) => r is Err,
            Event::Locked(_) => false,
        },
    ensures
        execution_next(s, e) is Err,
{
}

// ---------------------------------------------------------------- what is recorded

/// What is recorded of a subject is what was built: the version and the revision that the
/// lockfile names, or, without one, the pin and the revision that the builder found; the
/// pin itself in any case.
pub proof fn provenance_is_what_was_built(
    cat: CatalogV,
    paths: Seq<SubjectPathV>,
    subject: Seq<char>,
    adapter: Adapter,
    locked: Option<Locked>,
    resolved_sha: Option<Seq<char>>,
    facts: SubjectFactsV,
)
    requires
        facts_in(cat.subjects, subject) == Some(facts),
    ensures
        recorded_provenance(cat, paths, subject, adapter, locked, resolved_sha) matches Ok(p) ==> {
            &&& p.pinned_ref == facts.pinned_ref
            &&& locked matches Some(l) ==> p.version == l.version@ && (l.sha matches Some(sha)
                ==> p.sha == Some(sha@)) && (l.sha is None ==> p.sha == resolved_sha)
            &&& locked is None ==> p.version == facts.pinned_ref && p.sha == resolved_sha
        },
        override_of(paths, subject) is None && adapter == Adapter::RustCodegen ==> (
        facts.expected_sha matches Some(expected) ==> (recorded_provenance(
            cat,
            paths,
            subject,
            adapter,
            locked,
            resolved_sha,
        ) is Ok <==> (locked matches Some(l) && (l.sha matches Some(sha) && sha@ == expected)))),
        override_of(paths, subject) is Some || adapter == Adapter::Exec || facts.expected_sha is None
            ==> recorded_provenance(cat, paths, subject, adapter, locked, resolved_sha) is Ok,
{
}

/// A run's header says what was run: when it began and ended, under which runner, on
/// which selection and machine, with which compiler and flags, and of which subjects; it
/// is dirty exactly when a working tree was built.
pub proof fn headers_say_what_was_run(h: RunHeader, facts: RunFacts)
    ensures
        ({
            let r = header_of(h, facts);
            &&& r.run_id == facts.run_id@
            &&& r.started_at == h.started_at@
            &&& r.finished_at == facts.finished_at@
            &&& h.runner is Criterion || h.runner is Perf ==> runner_of(r.runner) == Some(h.runner)
            &&& r.selectors == set_exprs(h.selection@)
            &&& r.machine == h.machine@
            &&& r.machine_hash == machine_hash(h.machine@)
            &&& r.context.fingerprint == (match h.fingerprint {
                Some(f) => Some(f@),
                None => None,
            })
            &&& r.context.kernel == facts.context@.kernel
            &&& r.context.governor == facts.context@.governor
            &&& r.context.smt == facts.context@.smt
            &&& r.context.boost == facts.context@.boost
            &&& h.toolchain matches Some(v) ==> read_version(r.toolchain.rustc) == Some(v)
            &&& r.toolchain.host == facts.host@
            &&& r.toolchain.rustflags == (match h.rustflags {
                Some(f) => Some(f@),
                None => None,
            })
            &&& r.source.git_dirty <==> h.overrides@.len() > 0
            &&& r.source.crate_version == facts.crate_version@
            &&& r.subjects.len() == h.subjects@.len()
            &&& forall|i: int|
                0 <= i < r.subjects.len() ==> #[trigger] r.subjects[i] == h.subjects@[i]@
        }),
{
    runner_names_round_trip(h.runner, runner_name(h.runner));
    if let Some(v) = h.toolchain {
        versions_read_back(v);
    }
}

/// A host short of memory is warned of each point that needs more than half of it, and of
/// no other.
pub proof fn warnings_name_the_heavy_points(
    points: Seq<(CaseV, Map<Seq<char>, TagV>)>,
    total: u64,
)
    ensures
        warnings_of(points, Some(total)).len() == points.filter(
            |p: (CaseV, Map<Seq<char>, TagV>)|
                footprint(p.1) matches Some(n) && n > total as int / 2,
        ).len(),
        warnings_of(points, None).len() == 0,
    decreases points.len(),
{
    reveal(Seq::filter);
    if points.len() > 0 {
        warnings_name_the_heavy_points(points.drop_last(), total);
    }
}

/// Every process of a run warms up for three seconds, measures for five and takes thirty
/// samples.
pub proof fn processes_have_the_default_budget(
    runner: Runner,
    subject: Seq<char>,
    specs: Seq<CaseSpecV>,
    i: int,
)
    requires
        processes(runner, subject, specs) is Ok,
        0 <= i < processes(runner, subject, specs)->Ok_0.len(),
    ensures
        processes(runner, subject, specs)->Ok_0[i].budget.warm_up_ms == 3_000,
        processes(runner, subject, specs)->Ok_0[i].budget.measurement_ms == 5_000,
        processes(runner, subject, specs)->Ok_0[i].budget.sample_size == 30,
        budget_fault(processes(runner, subject, specs)->Ok_0[i].budget, 1) is None,
{
}

/// A warning names the size of the tree and the whole gibibytes that the host has.
pub proof fn warnings_say_how_much_there_is(tags: Map<Seq<char>, TagV>, total: u64) -> (g: nat)
    ensures
        g * 0x4000_0000 <= total < (g + 1) * 0x4000_0000,
        contains_text(memory_warning(tags, total), "this host's "@ + dec(g) + " GiB"@),
        tags.contains_key("tree_size"@) ==> contains_text(
            memory_warning(tags, total),
            "tree_size "@ + render(tags["tree_size"@]),
        ),
{
    let g = (total / 0x4000_0000) as nat;
    let size = if tags.contains_key("tree_size"@) {
        render(tags["tree_size"@])
    } else {
        ""@
    };
    let s = memory_warning(tags, total);
    let (a, b) = ("warning: tree_size "@, " needs more than half this host's "@);
    let c = " GiB (lower-bound estimate); run at your own risk"@;
    assert(s == a + size + b + dec(g) + c);
    reveal_strlit("warning: tree_size ");
    reveal_strlit("tree_size ");
    reveal_strlit(" needs more than half this host's ");
    reveal_strlit("this host's ");
    reveal_strlit(" GiB (lower-bound estimate); run at your own risk");
    reveal_strlit(" GiB");
    assert(a =~= a.take(9) + "tree_size "@);
    assert(s =~= a.take(9) + ("tree_size "@ + size) + (b + dec(g) + c));
    stands_between(a.take(9), "tree_size "@ + size, b + dec(g) + c);
    let front = b.take(b.len() - 12);
    assert(b =~= front + "this host's "@);
    assert(c =~= " GiB"@ + c.skip(4));
    let told = "this host's "@ + dec(g) + " GiB"@;
    assert(s =~= (a + size + front) + told + c.skip(4));
    stands_between(a + size + front, told, c.skip(4));
    g
}

/// As many points are counted for a subject as it has.
pub proof fn points_are_counted_by_subject(
    points: Seq<(CaseV, Map<Seq<char>, TagV>)>,
    subject: Seq<char>,
)
    ensures
        count_for(points, subject) == points_for(points, subject).len(),
    decreases points.len(),
{
    reveal(Seq::filter);
    if points.len() > 0 {
        points_are_counted_by_subject(points.drop_last(), subject);
    }
}

} // verus!
