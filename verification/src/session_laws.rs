//! What is promised of how the parts of a session begin and end: what starts a run or a
//! build, what counts as its output, and what a driver is held to.

use crate::adapter::{
    compiles_as, environment_started, invoked, Adapter, Preparation, PreparedV, RunError,
    SubjectRequestV,
};
use crate::calendar::{compact, padded};
use crate::case::{coordinate, is_compile_time_key, CaseV, Runner};
use crate::catalog::{matching_cases, selected_points};
use crate::chart::{deepened, document_result, is_document, series_colours, title_text};
use crate::cli::{left_in, machine_lines_of, right_in, toolchain_text};
use crate::conform::{
    checked_subjects, conformance_of, has_coordinate, keys_of, lists, needed, KeyV,
    SubjectConformance,
};
use crate::data::{json_document, DataV};
use crate::exec::{cxx_start, ExecBuild, ExecInputsV};
use crate::exec_laws::{run_together, stands_between, stands_inside};
use crate::execute::{execution_start, run_subjects, AboutV, ExecutionAtV};
use crate::fingerprint::{body_text, checksum_text, file_text, head_text, tables_text, FingerprintV};
use crate::harness::{driver_output, Budget};
use crate::layout::{is_row, row_middle, LegendRow};
use crate::machine::{machine_hash, MachineV};
use crate::measure::{budget_fault, latest_dir};
use crate::menu::{
    facet_row, marked_runners, preview_lines, row, runner_row, shown_lines, shown_values,
};
use crate::package::{locked, locked_in, CompileCommand, Outcome};
use crate::perf::{perf_output, perf_report, safe_text, PerfRun};
use crate::picker::{Facet, Preview};
use crate::run::{common_toolchain, subjects_of};
use crate::schema::{be_bytes32, be_bytes64, id_material};
use crate::selector::{read_selector, read_selectors, ClauseV, SelectorErrorV};
use crate::tag::{render, Floats, TagV};
use crate::text::{contains_text, dec, join, option_text, texts};
use crate::toolchain::{cargo_line, version_text, Version};
use vstd::prelude::*;

verus! {

/// Did a program end well, and say this?
pub open spec fn ended_with(out: Outcome, words: Seq<char>) -> bool {
    match out {
        Outcome::Exited { success, stdout, .. } => success && stdout@ == words,
        Outcome::NotStarted(_) => false,
    }
}

/// A run starts only where something is selected, with the first subject's build, nothing
/// measured yet, and the one toolchain of all its subjects.
pub proof fn runs_start_with_what_is_selected<P>(a: AboutV, pinned: Option<Seq<char>>)
    ensures
        selected_points(a.cat, a.set).len() == 0 ==> execution_start::<P>(a, pinned) is Err,
        selected_points(a.cat, a.set).len() > 0 && common_toolchain(
            a.cat,
            subjects_of(matching_cases(a.cat, a.set)),
            pinned,
        ) is Ok ==> execution_start::<P>(a, pinned) is Ok,
        execution_start::<P>(a, pinned) is Ok ==> ({
            let s = execution_start::<P>(a, pinned)->Ok_0;
            &&& s.about == a
            &&& s.subjects == run_subjects(a)
            &&& s.turn == 0
            &&& s.collected.len() == 0
            &&& s.recorded.len() == 0
            &&& s.subjects.len() > 0 ==> s.at == ExecutionAtV::<P>::Prepare
            &&& s.subjects.len() == 0 ==> s.at == ExecutionAtV::<P>::Finished
            &&& common_toolchain(a.cat, subjects_of(matching_cases(a.cat, a.set)), pinned) == Ok::<
                Option<Version>,
                Seq<char>,
            >(s.toolchain)
        }),
{
}

/// What a driver said is its output exactly where it ended well.
pub proof fn drivers_are_heard_where_they_end_well(binary: Seq<char>, out: Outcome, words: Seq<char>)
    ensures
        driver_output(binary, out) is Ok && driver_output(binary, out)->Ok_0 == words <==> ended_with(
            out,
            words,
        ),
{
}

/// A driver is heard only where its compile, if there was one, ended well too.
pub proof fn drivers_are_compiled_before_they_are_heard(
    named: Seq<char>,
    compiling: Option<Outcome>,
    driving: Outcome,
    words: Seq<char>,
)
    ensures
        invoked(named, compiling, driving) is Ok && invoked(named, compiling, driving)->Ok_0 == words
            <==> ended_with(driving, words) && (match compiling {
            Some(Outcome::Exited { success, .. }) => success,
            Some(Outcome::NotStarted(_)) => false,
            None => true,
        }),
{
}

/// A rust driver is compiled in its own directory, with its own flags, by cargo as it is
/// told of the run's toolchain; any other driver is not compiled again.
pub proof fn drivers_are_compiled_where_they_stand(
    p: PreparedV,
    active: Option<Version>,
    command: Option<CompileCommand>,
)
    requires
        compiles_as(p, active, command),
    ensures
        command is Some <==> p.adapter == Adapter::RustCodegen,
        command is Some ==> {
            &&& command->Some_0.dir@ == p.dir
            &&& option_text(command->Some_0.rustflags) == p.rustflags
            &&& cargo_line(p.toolchain, active).is_prefix_of(texts(command->Some_0.argv@))
            &&& texts(command->Some_0.argv@).contains("--release"@)
        },
{
    if let Some(c) = command {
        let argv = texts(c.argv@);
        let line = cargo_line(p.toolchain, active);
        assert(argv.subrange(0, line.len() as int) =~= line);
        assert(argv[line.len() as int + 1] == "--release"@);
    }
}

/// The builder of a driver is that of its language, and it is given all that was resolved;
/// a language that has none is refused.
pub proof fn builders_go_by_language(
    request: SubjectRequestV,
    inputs: ExecInputsV,
    process: u32,
    r: Result<Preparation, RunError>,
)
    requires
        environment_started(request, inputs, process, r),
    ensures
        r is Ok ==> inputs.lang == "cxx"@ || inputs.lang == "python"@,
        r is Ok && inputs.lang == "python"@ ==> (r->Ok_0 matches Preparation::Environment(
            ExecBuild::Python(p),
        ) && p@.inputs == inputs && p@.subject == request.subject && p@.build_root
            == request.build_root),
        r is Ok && inputs.lang == "cxx"@ ==> (r->Ok_0 matches Preparation::Environment(
            ExecBuild::Cxx(c),
        ) && c@.inputs == inputs && c@.subject == request.subject && c@.build_root
            == request.build_root && c@.at is Lib),
        inputs.lang == "python"@ ==> r is Ok,
        inputs.lang == "cxx"@ && inputs.source.kind == "git"@ && inputs.source.repo is Some ==> r is Ok,
{
    reveal_strlit("cxx");
    reveal_strlit("python");
    assert("cxx"@.len() == 3 && "python"@.len() == 6);
}

/// A C++ build fetches the library that its manifest pins.
pub proof fn cxx_builds_fetch_their_library(
    subject: Seq<char>,
    inputs: ExecInputsV,
    build_root: Seq<char>,
    process: u32,
)
    ensures
        match cxx_start(subject, inputs, build_root, process) {
            Ok(c) => {
                &&& c.inputs == inputs
                &&& c.at is Lib
                &&& Some(c.at->Lib_0.repo) == inputs.source.repo
                &&& c.at->Lib_0.reference == inputs.source.pinned_ref
                &&& c.at->Lib_0.expected == inputs.expected_sha
            },
            Err(_) => inputs.source.kind != "git"@ || inputs.source.repo is None,
        },
{
}

/// Asked for one subject, a check looks at it alone; asked for none, at all of them.
pub proof fn checks_look_at_what_is_asked_for(cases: Seq<CaseV>, wanted: Option<Seq<char>>)
    ensures
        match checked_subjects(cases, wanted) {
            Ok(names) => match wanted {
                None => names == subjects_of(cases),
                Some(f) => names.len() == 1 && names[0] == f && subjects_of(cases).contains(f),
            },
            Err(_) => wanted is Some && !subjects_of(cases).contains(wanted->Some_0),
        },
{
}

/// A driver that matches its manifest has a registration for every case, and every one of
/// its registrations is some case's.
pub proof fn matching_drivers_have_every_case(
    r: SubjectConformance,
    subject: Seq<char>,
    cases: Seq<CaseV>,
    actual: Seq<KeyV>,
    keys: Seq<KeyV>,
)
    requires
        conformance_of(r, subject, cases, actual, keys),
        r.missing_in_driver@.len() == 0,
        r.extra_in_driver@.len() == 0,
    ensures
        forall|c: int| 0 <= c < cases.len() ==> registered(actual, #[trigger] cases[c]),
        forall|i: int| 0 <= i < actual.len() ==> lists(keys, #[trigger] actual[i]),
        forall|i: int| 0 <= i < keys.len() ==> needed(cases, #[trigger] keys[i]),
{
    let (missing, extra) = (
        keys_of(r.missing_in_driver@),
        keys_of(r.extra_in_driver@),
    );
    assert(missing.len() == 0 && extra.len() == 0);
    assert forall|c: int| 0 <= c < cases.len() implies registered(actual, #[trigger] cases[c]) by {
        assert(has_coordinate(keys, cases[c]));
        let i = choose|i: int| 0 <= i < keys.len() && is_compile_time_key(cases[c], #[trigger] keys[i]);
        if !lists(actual, keys[i]) {
            assert(lists(missing, keys[i]));
        }
        assert(is_compile_time_key(cases[c], keys[i]) && lists(actual, keys[i]));
    }
    assert forall|i: int| 0 <= i < actual.len() implies lists(keys, #[trigger] actual[i]) by {
        if !lists(keys, actual[i]) {
            assert(lists(extra, actual[i]));
        }
    }
}

/// Does a driver have a registration at the coordinate of the case?
pub open spec fn registered(actual: Seq<KeyV>, c: CaseV) -> bool {
    exists|k: KeyV| #[trigger] is_compile_time_key(c, k) && lists(actual, k)
}

/// The coordinate of a case has each compile-time key that the case is tagged with, with
/// the value of that tag, and nothing else.
pub proof fn coordinates_hold_the_compile_time_tags(
    keys: Seq<Seq<char>>,
    tags: Map<Seq<char>, TagV>,
    k: Seq<char>,
    v: Seq<char>,
)
    ensures
        coordinate(keys, tags).contains((k, v)) <==> keys.contains(k) && tags.dom().contains(k)
            && render(tags[k]) == v,
    decreases keys.len(),
{
    if keys.len() > 0 {
        let front = keys.drop_last();
        let rest = coordinate(front, tags);
        let all = coordinate(keys, tags);
        let last = keys.last();
        coordinates_hold_the_compile_time_tags(front, tags, k, v);
        assert(keys[keys.len() - 1] == last);
        if keys.contains(k) && k != last {
            assert(front[keys.index_of(k)] == k);
        }
        if front.contains(k) {
            assert(keys[front.index_of(k)] == k);
        }
        if tags.dom().contains(last) {
            assert(all[rest.len() as int] == (last, render(tags[last])));
            if rest.contains((k, v)) {
                assert(all[rest.index_of((k, v))] == (k, v));
            }
            if all.contains((k, v)) && (k, v) != (last, render(tags[last])) {
                assert(rest[all.index_of((k, v))] == (k, v));
            }
        }
    }
}

/// A budget is refused exactly where there is nothing to measure, too few samples, or no
/// time to measure in.
pub proof fn budgets_are_refused_for_a_reason(budget: Budget, batch: u64)
    ensures
        budget_fault(budget, batch) is Some <==> batch == 0 || budget.sample_size < 10
            || budget.warm_up_ms == 0 || budget.measurement_ms == 0,
{
}

/// What is measured and what is counted of two cases stand in different places, where
/// their names differ once they are made safe.
pub proof fn measured_cases_stand_apart(temp: Seq<char>, process: u32, a: Seq<char>, b: Seq<char>)
    requires
        safe_text(a) != safe_text(b),
    ensures
        perf_report(temp, process, a) != perf_report(temp, process, b),
        latest_dir(temp, process, a) != latest_dir(temp, process, b),
{
    reveal_strlit("/");
    reveal_strlit("new");
    reveal_strlit(".json");
    reveal_strlit("case");
    safe_is_relative(a);
    safe_is_relative(b);
    let (x, y) = (safe_text(a), safe_text(b));
    let (p, q) = (perf_report(temp, process, a), perf_report(temp, process, b));
    if p == q {
        let n = p.len() - (x + ".json"@).len();
        assert(p.skip(n) =~= x + ".json"@);
        assert(q.skip(n) =~= y + ".json"@);
        assert(x =~= (x + ".json"@).take(x.len() as int));
        assert(y =~= (y + ".json"@).take(x.len() as int));
    }
    let (p, q) = (latest_dir(temp, process, a), latest_dir(temp, process, b));
    if p == q {
        let n = p.len() - (x + "/new"@).len();
        reveal_strlit("/new");
        assert(x.last() != '/' && y.last() != '/');
        assert(p.skip(n) =~= x + "/new"@);
        assert(q.skip(n) =~= y + "/new"@);
        assert(x =~= (x + "/new"@).take(x.len() as int));
        assert(y =~= (y + "/new"@).take(x.len() as int));
    }
}

proof fn safe_is_relative(a: Seq<char>)
    ensures
        safe_text(a).len() > 0,
        safe_text(a)[0] != '/',
        safe_text(a).last() != '/',
        a.len() > 0 ==> safe_text(a).len() == a.len(),
{
    reveal_strlit("case");
}

/// What a driver said under perf is its output exactly where the run ended well.
pub proof fn counted_drivers_are_heard_where_they_end_well(run: PerfRun, report: Seq<char>)
    ensures
        perf_output(run, report) is Ok <==> (run matches PerfRun::Exited { success, .. } && success),
        match run {
            PerfRun::Exited { success, stdout, .. } => if success {
                perf_output(run, report)->Ok_0 == stdout@
            } else {
                report.is_suffix_of(perf_output(run, report)->Err_0)
            },
            PerfRun::NotStarted(e) => e@.is_suffix_of(perf_output(run, report)->Err_0),
            PerfRun::NotWritten(e) => e@.is_suffix_of(perf_output(run, report)->Err_0),
            PerfRun::NotWaited(e) => e@.is_suffix_of(perf_output(run, report)->Err_0),
            PerfRun::NoInput => true,
        },
{
    if perf_output(run, report) is Err {
        let text = perf_output(run, report)->Err_0;
        match run {
            PerfRun::Exited { .. } => {
                assert(text.subrange(text.len() - report.len(), text.len() as int) =~= report);
            },
            PerfRun::NotStarted(e) => {
                assert(text.subrange(text.len() - e@.len(), text.len() as int) =~= e@);
            },
            PerfRun::NotWritten(e) => {
                assert(text.subrange(text.len() - e@.len(), text.len() as int) =~= e@);
            },
            PerfRun::NotWaited(e) => {
                assert(text.subrange(text.len() - e@.len(), text.len() as int) =~= e@);
            },
            PerfRun::NoInput => {},
        }
    }
}

/// A default title names the metric before the tag that tells the series apart, the
/// runner, and the selection.
pub proof fn titles_name_what_is_shown(
    metric: Seq<char>,
    series_tag: Seq<char>,
    x_tag: Option<Seq<char>>,
    runner: Seq<char>,
    selection: Seq<char>,
)
    ensures
        ({
            let t = title_text(metric, series_tag, x_tag, runner, selection);
            &&& (metric + " by "@ + series_tag).is_prefix_of(t)
            &&& contains_text(t, runner)
            &&& selection.is_suffix_of(t)
            &&& x_tag is Some ==> contains_text(t, "scaling"@)
            &&& x_tag is None ==> contains_text(t, "comparison"@)
        }),
{
    let t = title_text(metric, series_tag, x_tag, runner, selection);
    let what = if x_tag is Some {
        "scaling"@
    } else {
        "comparison"@
    };
    let front = metric + " by "@ + series_tag;
    let list = seq![metric, " by "@, series_tag, " — "@, what, " ("@, runner, ")\n"@, selection];
    reveal_with_fuel(run_together, 10);
    assert(run_together(list, 9) == t);
    stands_inside(list, 9, 4);
    stands_inside(list, 9, 6);
    assert(t.subrange(0, front.len() as int) =~= front);
    assert(t.subrange(t.len() - selection.len(), t.len() as int) =~= selection);
}

/// No two of the colours that series are drawn in are the same, and an outline is never
/// the colour of what it is around.
pub proof fn series_are_told_apart_by_colour(i: int, j: int)
    requires
        0 <= i < j < series_colours().len(),
    ensures
        series_colours()[i] != series_colours()[j],
        deepened(series_colours()[i]) != series_colours()[i],
        deepened(series_colours()[j]) != series_colours()[j],
{
}

/// A file is a document by the end of its name, which is not all of it.
pub proof fn documents_end_in_their_format(name: Seq<char>)
    ensures
        is_document(name + ".json"@) <==> name.len() > 0,
        is_document(name) ==> exists|stem: Seq<char>| stem.len() > 0 && #[trigger] (stem + ".json"@) == name,
{
    reveal_strlit(".json");
    let s = name + ".json"@;
    assert(s.subrange(s.len() - 5, s.len() as int) =~= ".json"@);
    if is_document(name) {
        let stem = name.take(name.len() - 5);
        assert(name.subrange(name.len() - 5, name.len() as int) =~= ".json"@);
        assert(stem + ".json"@ =~= name);
    }
}

/// A file that could not be read, or that is no JSON, is refused with what was said of it.
pub proof fn unreadable_documents_are_refused(
    read: Result<Seq<char>, Seq<char>>,
    floats: Floats,
)
    ensures
        read is Err ==> document_result(read, floats) is Err && read->Err_0.is_suffix_of(
            document_result(read, floats)->Err_0,
        ),
        read is Ok && json_document(read->Ok_0) is Err ==> document_result(read, floats) is Err
            && json_document(read->Ok_0)->Err_0.is_suffix_of(document_result(read, floats)->Err_0),
{
    match read {
        Err(e) => {
            let t = document_result(read, floats)->Err_0;
            assert(t.subrange(t.len() - e.len(), t.len() as int) =~= e);
        },
        Ok(text) => {
            if let Err(e) = json_document(text) {
                let t = document_result(read, floats)->Err_0;
                assert(t.subrange(t.len() - e.len(), t.len() as int) =~= e);
            }
        },
    }
}

/// A fingerprint file holds the checksum of its own body.
pub proof fn files_hold_their_checksum(f: FingerprintV)
    ensures
        contains_text(file_text(f), "checksum = \""@ + checksum_text(body_text(f)) + "\"\n"@),
{
    let head = head_text(f);
    let tables = tables_text(f);
    let line = "checksum = \""@ + checksum_text(body_text(f)) + "\"\n"@;
    reveal_strlit("checksum = \"");
    reveal_strlit("checksum");
    reveal_strlit(" = ");
    reveal_strlit("\"");
    reveal_strlit("\n");
    reveal_strlit("\"\n");
    assert("checksum = \""@ =~= "checksum"@ + " = "@ + "\""@);
    assert("\"\n"@ =~= "\""@ + "\n"@);
    assert(file_text(f) =~= head + line + tables);
    stands_between(head, line, tables);
}

/// A lockfile is asked about the packages that it lists; one that lists none knows none.
pub proof fn lockfiles_are_asked_about_their_packages(lock: DataV, name: Seq<char>)
    ensures
        locked_in(None, name) is None,
        match lock.get("package"@) {
            Some(DataV::List(list)) => locked_in(Some(lock), name) == locked(list, name),
            _ => locked_in(Some(lock), name) is None,
        },
{
}

/// What an id is drawn from tells the clock, the process and the count apart: no two draws
/// of one machine have the same.
pub proof fn draws_are_told_apart(
    nanos: u32,
    process: u32,
    count: u64,
    nanos2: u32,
    process2: u32,
    count2: u64,
)
    requires
        id_material(nanos, process, count) == id_material(nanos2, process2, count2),
    ensures
        nanos == nanos2,
        process == process2,
        count == count2,
{
    let (s, t) = (id_material(nanos, process, count), id_material(nanos2, process2, count2));
    assert(s.subrange(0, 4) =~= be_bytes32(nanos) && t.subrange(0, 4) =~= be_bytes32(nanos2));
    assert(s.subrange(4, 8) =~= be_bytes32(process) && t.subrange(4, 8) =~= be_bytes32(process2));
    assert(s.subrange(8, 16) =~= be_bytes64(count) && t.subrange(8, 16) =~= be_bytes64(count2));
    four_bytes_tell(nanos, nanos2);
    four_bytes_tell(process, process2);
    let (a, b) = (be_bytes64(count), be_bytes64(count2));
    let (h, l) = ((count / 0x1_0000_0000) as u32, (count % 0x1_0000_0000) as u32);
    let (h2, l2) = ((count2 / 0x1_0000_0000) as u32, (count2 % 0x1_0000_0000) as u32);
    assert(a.subrange(0, 4) =~= be_bytes32(h) && b.subrange(0, 4) =~= be_bytes32(h2));
    assert(a.subrange(4, 8) =~= be_bytes32(l) && b.subrange(4, 8) =~= be_bytes32(l2));
    four_bytes_tell(h, h2);
    four_bytes_tell(l, l2);
}

proof fn four_bytes_tell(a: u32, b: u32)
    requires
        be_bytes32(a) == be_bytes32(b),
    ensures
        a == b,
{
    let (x, y) = (be_bytes32(a), be_bytes32(b));
    assert(x[0] == y[0] && x[1] == y[1] && x[2] == y[2] && x[3] == y[3]);
    four_bytes_make(a);
    four_bytes_make(b);
}

proof fn four_bytes_make(n: u32)
    ensures
        ({
            let x = be_bytes32(n);
            n == x[0] * 0x100_0000 + x[1] * 0x1_0000 + x[2] * 0x100 + x[3]
        }),
{
    let (h, l) = (n / 0x1_0000, n % 0x1_0000);
    assert(n == h * 0x1_0000 + l);
    assert(n / 0x100_0000 == h / 0x100);
    assert(n / 0x100 % 0x100 == l / 0x100) by {
        assert(n / 0x100 == h * 0x100 + l / 0x100);
    }
    assert(n % 0x100 == l % 0x100);
    assert(h == (h / 0x100) * 0x100 + h % 0x100);
    assert(l == (l / 0x100) * 0x100 + l % 0x100);
}

/// Several expressions are read each by itself, in order; the first that cannot be read is
/// the one that is complained of.
pub proof fn expressions_are_read_one_by_one(exprs: Seq<Seq<char>>, floats: Floats)
    ensures
        match read_selectors(exprs, floats) {
            Ok(ss) => {
                &&& ss.len() == exprs.len()
                &&& forall|i: int|
                    0 <= i < exprs.len() ==> read_selector(#[trigger] exprs[i], floats) == Ok::<
                        Seq<ClauseV>,
                        SelectorErrorV,
                    >(ss[i])
            },
            Err(e) => first_unread(exprs, floats, e),
        },
    decreases exprs.len(),
{
    if exprs.len() > 0 {
        let front = exprs.drop_last();
        expressions_are_read_one_by_one(front, floats);
        match read_selectors(front, floats) {
            Ok(ss) => {
                assert forall|j: int| 0 <= j < front.len() implies read_selector(
                    #[trigger] exprs[j],
                    floats,
                ) == Ok::<Seq<ClauseV>, SelectorErrorV>(ss[j]) by {
                    assert(front[j] == exprs[j]);
                }
                if let Err(e) = read_selector(exprs.last(), floats) {
                    assert(read_selector(exprs[exprs.len() - 1], floats) == Err::<
                        Seq<ClauseV>,
                        SelectorErrorV,
                    >(e));
                    assert(first_unread(exprs, floats, e));
                }
            },
            Err(e) => {
                let i = choose|i: int|
                    0 <= i < front.len() && read_selector(#[trigger] front[i], floats) == Err::<
                        Seq<ClauseV>,
                        SelectorErrorV,
                    >(e) && (forall|j: int|
                        0 <= j < i ==> (#[trigger] read_selector(front[j], floats)) is Ok);
                assert(exprs[i] == front[i]);
                assert forall|j: int| 0 <= j < i implies (#[trigger] read_selector(
                    exprs[j],
                    floats,
                )) is Ok by {
                    assert(read_selector(front[j], floats) is Ok);
                }
            },
        }
    }
}

/// Is this the error of the first expression that cannot be read?
pub open spec fn first_unread(exprs: Seq<Seq<char>>, floats: Floats, e: SelectorErrorV) -> bool {
    exists|i: int|
        0 <= i < exprs.len() && read_selector(#[trigger] exprs[i], floats) == Err::<
            Seq<ClauseV>,
            SelectorErrorV,
        >(e) && (forall|j: int| 0 <= j < i ==> (#[trigger] read_selector(exprs[j], floats)) is Ok)
}

/// The rows of the menu are the runner's and then one for each key, in order and numbered
/// from one, each under its own key.
pub proof fn rows_are_numbered_in_order(
    offered: Seq<Runner>,
    runner: Runner,
    facets: Seq<Facet>,
    preview: Preview,
    i: int,
)
    requires
        0 <= i < facets.len(),
    ensures
        shown_lines(offered, runner, facets, preview).len() >= facets.len() + 2,
        contains_text(shown_lines(offered, runner, facets, preview)[0], "runner"@),
        contains_text(
            shown_lines(offered, runner, facets, preview)[i + 1],
            dec((i + 2) as nat) + ". "@,
        ),
        contains_text(shown_lines(offered, runner, facets, preview)[i + 1], facets[i].key@),
{
    let lines = shown_lines(offered, runner, facets, preview);
    assert(preview_lines(preview).len() >= 1);
    assert(lines[0] == runner_row(offered, runner));
    assert(lines[i + 1] == facet_row((i + 2) as nat, facets[i]));
    row_tells(
        1,
        "runner"@,
        join(marked_runners(offered, runner), "  "@),
    );
    let f = facets[i];
    let rest = join(shown_values(f), "  "@) + (if f.values@.len() > 8 {
        "   … "@ + dec((f.values@.len() - 8) as nat) + " more"@
    } else {
        Seq::empty()
    });
    row_tells((i + 2) as nat, f.key@, rest);
}

proof fn row_tells(n: nat, key: Seq<char>, rest: Seq<char>)
    ensures
        contains_text(row(n, key, rest), dec(n) + ". "@),
        contains_text(row(n, key, rest), key),
{
    let s = row(n, key, rest);
    let d = right_in(dec(n), 3);
    let k = left_in(key, 22);
    assert(s == d + ". "@ + k + " "@ + rest);
    let pad = d.take(d.len() - dec(n).len());
    assert(d =~= pad + dec(n));
    let number = dec(n) + ". "@;
    assert(s =~= pad + number + (k + " "@ + rest));
    stands_between(pad, number, k + " "@ + rest);
    let gap = k.skip(key.len() as int);
    assert(k =~= key + gap);
    assert(s =~= (d + ". "@) + key + (gap + " "@ + rest));
    stands_between(d + ". "@, key, gap + " "@ + rest);
}

/// A toolchain is told by its version, where there is one.
pub proof fn toolchains_are_told_by_version(v: Version)
    ensures
        version_text(v).is_suffix_of(toolchain_text(Some(v))),
{
    let t = toolchain_text(Some(v));
    let w = version_text(v);
    assert(t.subrange(t.len() - w.len(), t.len() as int) =~= w);
}

/// A machine is told by its hash, and as complete exactly where all of it was read.
pub proof fn machines_are_told_by_hash(m: MachineV)
    ensures
        contains_text(machine_lines_of(m, false)[0], machine_hash(m)),
        m.hash_observed.len() == m.hash_components.len() <==> machine_lines_of(m, false).len() == 1,
        m.hash_observed.len() == m.hash_components.len() ==> contains_text(
            machine_lines_of(m, false)[0],
            "(complete)"@,
        ),
        m.hash_observed.len() != m.hash_components.len() ==> contains_text(
            machine_lines_of(m, false)[0],
            "(degraded)"@,
        ),
{
    reveal_strlit(" (complete)");
    reveal_strlit(" (degraded)");
    reveal_strlit("(complete)");
    reveal_strlit("(degraded)");
    reveal_strlit(" ");
    let line = machine_lines_of(m, false)[0];
    let none = Seq::<char>::empty();
    if m.hash_observed.len() == m.hash_components.len() {
        stands_between("machine "@, machine_hash(m), " (complete)"@);
        assert(" (complete)"@ =~= " "@ + "(complete)"@);
        assert(line =~= ("machine "@ + machine_hash(m) + " "@) + "(complete)"@ + none);
        stands_between("machine "@ + machine_hash(m) + " "@, "(complete)"@, none);
    } else {
        stands_between("machine "@, machine_hash(m), " (degraded)"@);
        assert(" (degraded)"@ =~= " "@ + "(degraded)"@);
        assert(line =~= ("machine "@ + machine_hash(m) + " "@) + "(degraded)"@ + none);
        stands_between("machine "@ + machine_hash(m) + " "@, "(degraded)"@, none);
    }
}

/// A row of a legend has its swatch before its name, both on the row's own line.
pub proof fn swatches_stand_before_names(
    row: LegendRow,
    left: int,
    top: int,
    label_size: int,
    i: int,
)
    requires
        is_row(row, left, top, label_size, i),
        label_size >= 0,
    ensures
        left < row.swatch.0.0 < row.swatch.1.0 < row.name_at.0,
        row.swatch.0.1 + row.swatch.1.1 == 2 * row_middle(top, label_size, i),
        row.swatch.0.1 < row.swatch.1.1,
        row.name_at.1 <= row_middle(top, label_size, i) <= row.name_at.1 + label_size,
{
}

proof fn two_digits(n: nat)
    requires
        n < 100,
    ensures
        padded(dec(n), 2).len() == 2,
        padded(dec(n), 2)[0] as int == '0' as int + n / 10,
        padded(dec(n), 2)[1] as int == '0' as int + n % 10,
{
    reveal_with_fuel(dec, 3);
}

/// A moment's compact stamp tells it apart: no two dates and times of day are stamped
/// alike.
pub proof fn compact_stamps_tell_moments_apart(
    y: nat,
    a: (nat, nat, nat, nat, nat),
    z: nat,
    b: (nat, nat, nat, nat, nat),
)
    requires
        a.0 < 100 && a.1 < 100 && a.2 < 100 && a.3 < 100 && a.4 < 100,
        b.0 < 100 && b.1 < 100 && b.2 < 100 && b.3 < 100 && b.4 < 100,
        compact(y, a.0, a.1, a.2, a.3, a.4) == compact(z, b.0, b.1, b.2, b.3, b.4),
    ensures
        a == b,
        padded(dec(y), 4) == padded(dec(z), 4),
{
    two_digits(a.0);
    two_digits(a.1);
    two_digits(a.2);
    two_digits(a.3);
    two_digits(a.4);
    two_digits(b.0);
    two_digits(b.1);
    two_digits(b.2);
    two_digits(b.3);
    two_digits(b.4);
    reveal_strlit("-");
    let s = compact(y, a.0, a.1, a.2, a.3, a.4);
    let t = compact(z, b.0, b.1, b.2, b.3, b.4);
    let n = padded(dec(y), 4).len() as int;
    assert(s.len() == n + 11 && t.len() == padded(dec(z), 4).len() + 11);
    assert(s.take(n) =~= padded(dec(y), 4));
    assert(t.take(n) =~= padded(dec(z), 4));
    assert(s.subrange(n, n + 2) =~= padded(dec(a.0), 2) && t.subrange(n, n + 2) =~= padded(dec(b.0), 2));
    assert(s.subrange(n + 2, n + 4) =~= padded(dec(a.1), 2) && t.subrange(n + 2, n + 4) =~= padded(
        dec(b.1),
        2,
    ));
    assert(s.subrange(n + 5, n + 7) =~= padded(dec(a.2), 2) && t.subrange(n + 5, n + 7) =~= padded(
        dec(b.2),
        2,
    ));
    assert(s.subrange(n + 7, n + 9) =~= padded(dec(a.3), 2) && t.subrange(n + 7, n + 9) =~= padded(
        dec(b.3),
        2,
    ));
    assert(s.subrange(n + 9, n + 11) =~= padded(dec(a.4), 2) && t.subrange(n + 9, n + 11) =~= padded(
        dec(b.4),
        2,
    ));
}

/// A compact stamp starts with the year, the month and the day, in this order.
pub proof fn compact_stamps_start_with_the_date(y: nat, mo: nat, d: nat, h: nat, m: nat, s: nat)
    requires
        mo < 100,
        d < 100,
        padded(dec(y), 4).len() == 4,
    ensures
        compact(y, mo, d, h, m, s).take(8) == padded(dec(y), 4) + padded(dec(mo), 2) + padded(
            dec(d),
            2,
        ),
        compact(y, mo, d, h, m, s)[8] == '-',
{
    reveal_strlit("-");
    two_digits(mo);
    two_digits(d);
    assert(compact(y, mo, d, h, m, s).take(8) =~= padded(dec(y), 4) + padded(dec(mo), 2) + padded(
        dec(d),
        2,
    ));
}

} // verus!
