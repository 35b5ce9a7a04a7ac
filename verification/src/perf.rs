//! The perf runner: same cases, different measurement.
//!
//! `perf stat` attributes counters to a process, so a perf run executes one case per
//! process: the built driver receives a single-case spec, and the counters cover
//! process start, tree build, warm-up and measurement together. Perf points carry
//! the same tags as criterion points with different metrics: timing and counters
//! join on the tag tuple.

use crate::data::{json_document, parse_json, Data, DataV};
use crate::harness::RunSpec;
use crate::package::{code_string, code_text};
use crate::paths::{joined_path, path_join};
use crate::schema::{is_alphanumeric, Metric, MetricV};
use crate::tag::{FloatReading, Floats, ReadingV};
use crate::text::{
    chars, dec, decimal, lines, outcome_text, pieces, same, split, split_lines, texts,
    trim, trimmed,
};
use vstd::prelude::*;

verus! {

// ---------------------------------------------------------------- names

/// An identifier as a file or directory name.
pub open spec fn safe_text(raw: Seq<char>) -> Seq<char> {
    if raw.len() == 0 {
        "case"@
    } else {
        Seq::new(
            raw.len(),
            |i: int|
                if is_alphanumeric(raw[i]) || raw[i] == '-' || raw[i] == '_' {
                    raw[i]
                } else {
                    '_'
                },
        )
    }
}

/// Identifiers contain `:`, which no filename wants.
pub fn safe_id(raw: &str) -> (r: String)
    ensures
        r@ == safe_text(raw@),
{
    let v = chars(raw);
    if v.len() == 0 {
        return "case".to_owned();
    }
    let mut out = String::new();
    let mut i: usize = 0;
    while i < v.len()
        invariant
            i <= v@.len(),
            v@ == raw@,
            v@.len() > 0,
            out@.len() == i,
            forall|j: int| 0 <= j < i ==> #[trigger] out@[j] == safe_text(raw@)[j],
        decreases v@.len() - i,
    {
        let c = v[i];
        if ('0' <= c && c <= '9') || ('a' <= c && c <= 'z') || ('A' <= c && c <= 'Z') || c == '-'
            || c == '_' {
            out.push(c);
        } else {
            out.push('_');
        }
        i = i + 1;
    }
    assert(out@ =~= safe_text(raw@));
    out
}

/// A safe name is its own safe name, and none is empty.
pub proof fn safe_names_are_settled(raw: Seq<char>)
    ensures
        safe_text(raw).len() > 0,
        safe_text(safe_text(raw)) == safe_text(raw),
{
    reveal_strlit("case");
    assert(safe_text(safe_text(raw)) =~= safe_text(raw));
}

// ---------------------------------------------------------------- one point

/// What a perf run of one case needs done: a directory to make, a report to write
/// into it, and the command that writes it.
#[derive(Debug)]
pub struct PerfCall {
    pub work_dir: String,
    pub report: String,
    pub argv: Vec<String>,
}

pub open spec fn perf_dir(temp: Seq<char>, process: u32) -> Seq<char> {
    path_join(temp, "spatial-bench-perf-"@ + dec(process as nat))
}

pub open spec fn perf_report(temp: Seq<char>, process: u32, id: Seq<char>) -> Seq<char> {
    path_join(perf_dir(temp, process), safe_text(id) + ".json"@)
}

/// Plan the measurement of one point: the built driver under `perf stat`, with a
/// single-case spec on stdin.
///
/// The one-point-per-process model is the whole shape of a perf run; a multi-case
/// spec here would mean counters attributed to several measurements at once.
///
/// The report is kept under the temporary directory for post-mortems.
pub fn perf_call(temp: &str, process: u32, program: &Vec<String>, spec: &RunSpec) -> (r: Result<
    PerfCall,
    String,
>)
    ensures
        r is Ok <==> spec@.cases.len() == 1,
        r matches Ok(call) ==> {
            &&& call.work_dir@ == perf_dir(temp@, process)
            &&& call.report@ == perf_report(temp@, process, spec@.cases[0].id)
            &&& texts(call.argv@) == seq![
                "perf"@,
                "stat"@,
                "-j"@,
                "-o"@,
                perf_report(temp@, process, spec@.cases[0].id),
                "--"@,
            ] + texts(program@)
        },
        r matches Err(e) ==> e@ == "a perf point measures exactly one case, got "@ + dec(
            spec@.cases.len(),
        ),
{
    if spec.cases.len() != 1 {
        let mut e = "a perf point measures exactly one case, got ".to_owned();
        e.append(decimal(spec.cases.len() as u64).as_str());
        return Err(e);
    }
    let mut name = "spatial-bench-perf-".to_owned();
    name.append(decimal(process as u64).as_str());
    let work_dir = joined_path(temp, name.as_str());
    let mut file = safe_id(spec.cases[0].id.as_str());
    file.append(".json");
    let report = joined_path(work_dir.as_str(), file.as_str());
    let mut argv: Vec<String> = Vec::new();
    argv.push("perf".to_owned());
    argv.push("stat".to_owned());
    argv.push("-j".to_owned());
    argv.push("-o".to_owned());
    argv.push(report.clone());
    argv.push("--".to_owned());
    let ghost head = texts(argv@);
    let mut i: usize = 0;
    assert(texts(argv@) =~= head + texts(program@).take(0));
    while i < program.len()
        invariant
            i <= program@.len(),
            texts(argv@) == head + texts(program@).take(i as int),
        decreases program@.len() - i,
    {
        let ghost before = texts(argv@);
        argv.push(program[i].clone());
        assert(texts(argv@) =~= before.push(program@[i as int]@));
        assert(texts(program@).take(i + 1) =~= texts(program@).take(i as int).push(
            program@[i as int]@,
        ));
        assert(texts(argv@) =~= head + texts(program@).take(i + 1));
        i = i + 1;
    }
    assert(texts(program@).take(i as int) =~= texts(program@));
    assert(head =~= seq!["perf"@, "stat"@, "-j"@, "-o"@, report@, "--"@]);
    Ok(PerfCall { work_dir, report, argv })
}

/// How far a perf run came.
#[derive(Debug)]
pub enum PerfRun {
    NotStarted(String),
    NoInput,
    NotWritten(String),
    NotWaited(String),
    Exited { success: bool, code: Option<i32>, stdout: String },
}

/// What the end of a perf run says: the driver's output, or why there is none.
pub open spec fn perf_output(run: PerfRun, report: Seq<char>) -> Result<Seq<char>, Seq<char>> {
    match run {
        PerfRun::NotStarted(e) => Err("could not run perf (is it installed?): "@ + e@),
        PerfRun::NoInput => Err("perf child stdin was not piped"@),
        PerfRun::NotWritten(e) => Err("writing the spec to perf failed: "@ + e@),
        PerfRun::NotWaited(e) => Err("waiting for the perf run failed: "@ + e@),
        PerfRun::Exited { success, code, stdout } => if success {
            Ok(stdout@)
        } else {
            Err(
                "the perf run failed with "@ + code_text(code) + "; perf's report is at "@ + report,
            )
        },
    }
}

/// The driver's output, or why there is none. Perf's own diagnostics are inherited
/// on stderr; the report may or may not exist depending on where it failed.
pub fn perf_outcome(run: &PerfRun, report: &str) -> (r: Result<String, String>)
    ensures
        outcome_text(r) == perf_output(*run, report@),
{
    match run {
        PerfRun::NotStarted(e) => {
            let mut s = "could not run perf (is it installed?): ".to_owned();
            s.append(e.as_str());
            Err(s)
        },
        PerfRun::NoInput => Err("perf child stdin was not piped".to_owned()),
        PerfRun::NotWritten(e) => {
            let mut s = "writing the spec to perf failed: ".to_owned();
            s.append(e.as_str());
            Err(s)
        },
        PerfRun::NotWaited(e) => {
            let mut s = "waiting for the perf run failed: ".to_owned();
            s.append(e.as_str());
            Err(s)
        },
        PerfRun::Exited { success, code, stdout } => if *success {
            Ok(stdout.clone())
        } else {
            let mut s = "the perf run failed with ".to_owned();
            s.append(code_string(code).as_str());
            s.append("; perf's report is at ");
            s.append(report);
            Err(s)
        },
    }
}

/// The one point of a single-case run.
pub fn single_point<T>(points: Vec<T>) -> (r: Result<T, String>)
    ensures
        r is Ok <==> points@.len() == 1,
        r matches Ok(p) ==> p == points@[0],
        r matches Err(e) ==> e@ == "a single-case spec must yield exactly one point, got "@ + dec(
            points@.len(),
        ),
{
    let mut points = points;
    if points.len() != 1 {
        let mut e = "a single-case spec must yield exactly one point, got ".to_owned();
        e.append(decimal(points.len() as u64).as_str());
        return Err(e);
    }
    Ok(points.remove(0))
}

// ---------------------------------------------------------------- counters

/// A counter of a perf report: the metric it is, its value as written, its unit.
#[derive(Debug)]
pub struct Counter {
    pub name: String,
    pub value: String,
    pub unit: String,
}

/// A [`Counter`] by its contents.
pub struct CounterV {
    pub name: Seq<char>,
    pub value: Seq<char>,
    pub unit: Seq<char>,
}

impl View for Counter {
    type V = CounterV;

    open spec fn view(&self) -> CounterV {
        CounterV { name: self.name@, value: self.value@, unit: self.unit@ }
    }
}

/// The counters by their contents.
pub open spec fn counters(v: Seq<Counter>) -> Seq<CounterV> {
    Seq::new(v.len(), |i: int| v[i]@)
}

/// The metric that a perf event is, and its unit.
///
/// Names vary across perf versions (`cpu-cycles` here, `cycles` there) and acquire a
/// `:u` suffix when the kernel limits measurement to user space, so matching is on
/// the name before the colon.
pub open spec fn metric_of(event: Seq<char>) -> Option<(Seq<char>, Seq<char>)> {
    let base = split(event, ':')[0];
    if base == "cycles"@ || base == "cpu-cycles"@ {
        Some(("cycles"@, "count"@))
    } else if base == "instructions"@ {
        Some(("instructions"@, "count"@))
    } else if base == "branch-misses"@ {
        Some(("branch_misses"@, "count"@))
    } else if base == "task-clock"@ {
        Some(("task_clock"@, "ms"@))
    } else {
        None
    }
}

fn metric_for(event: &str) -> (r: Option<(&'static str, &'static str)>)
    ensures
        (match r {
            Some(p) => Some((p.0@, p.1@)),
            None => None,
        }) == metric_of(event@),
{
    let parts = pieces(event, ':');
    assert(split(event@, ':').len() > 0);
    assert(texts(parts@).len() == parts@.len());
    assert(texts(parts@)[0] == parts@[0]@);
    let base = parts[0].as_str();
    if same(base, "cycles") || same(base, "cpu-cycles") {
        Some(("cycles", "count"))
    } else if same(base, "instructions") {
        Some(("instructions", "count"))
    } else if same(base, "branch-misses") {
        Some(("branch_misses", "count"))
    } else if same(base, "task-clock") {
        Some(("task_clock", "ms"))
    } else {
        None
    }
}

/// A text without its thousands separators.
pub open spec fn without_commas(s: Seq<char>) -> Seq<char>
    decreases s.len(),
{
    if s.len() == 0 {
        Seq::empty()
    } else if s.last() == ',' {
        without_commas(s.drop_last())
    } else {
        without_commas(s.drop_last()).push(s.last())
    }
}

/// A counter's text as the number it should be.
pub fn counter_text(raw: &str) -> (r: String)
    ensures
        r@ == trim(without_commas(raw@)),
{
    let v = chars(raw);
    let mut out = String::new();
    let mut i: usize = 0;
    assert(out@ =~= without_commas(v@.take(0)));
    while i < v.len()
        invariant
            i <= v@.len(),
            out@ == without_commas(v@.take(i as int)),
        decreases v@.len() - i,
    {
        assert(v@.take(i + 1).drop_last() =~= v@.take(i as int));
        if v[i] != ',' {
            out.push(v[i]);
        }
        i = i + 1;
    }
    assert(v@.take(i as int) =~= v@);
    trimmed(out.as_str()).to_owned()
}

/// The value of a counter, where it has one. Perf writes values as texts, thousands
/// separators included on some versions, and `<not counted>` for an event that never
/// ran.
pub open spec fn counter_value(value: DataV, floats: Floats) -> Option<Seq<char>> {
    match value {
        DataV::Number { text, .. } => Some(text),
        DataV::Text(s) => {
            let t = trim(without_commas(s));
            if floats.reading(t) == ReadingV::NotAFloat {
                None
            } else {
                Some(t)
            }
        },
        _ => None,
    }
}

/// What one entry of a report counts, where it is a known event that ran.
pub open spec fn entry_counter(entry: DataV, floats: Floats) -> Option<CounterV> {
    match entry.get("event"@) {
        Some(DataV::Text(event)) => match entry.get("counter-value"@) {
            Some(raw) => match (counter_value(raw, floats), metric_of(event)) {
                (Some(value), Some(m)) => Some(CounterV { name: m.0, value, unit: m.1 }),
                _ => None,
            },
            None => None,
        },
        _ => None,
    }
}

/// What one entry of a report counts. Unknown events, and counters perf could not
/// collect, count nothing: the metrics are open, and a partially instrumented point
/// whose tags still join beats a refused run.
pub fn counter_of(entry: &Data, floats: &Floats) -> (r: Option<Counter>)
    ensures
        (match r {
            Some(c) => Some(c@),
            None => None,
        }) == entry_counter(entry@, *floats),
{
    let event = match entry.text_at("event") {
        Some(e) => e,
        None => {
            return None;
        },
    };
    let raw = match entry.get("counter-value") {
        Some(v) => v,
        None => {
            return None;
        },
    };
    let value: String = match raw {
        Data::Number(n) => n.text.clone(),
        Data::Text(s) => {
            let t = counter_text(s.as_str());
            match floats.read(t.as_str()) {
                FloatReading::NotAFloat => {
                    return None;
                },
                _ => t,
            }
        },
        _ => {
            return None;
        },
    };
    match metric_for(event.as_str()) {
        Some((name, unit)) => Some(
            Counter { name: name.to_owned(), value, unit: unit.to_owned() },
        ),
        None => None,
    }
}

pub open spec fn not_json(line: nat, err: Seq<char>) -> Seq<char> {
    "perf's report line "@ + dec(line) + " is not JSON: "@ + err
}

/// The counters of a report's lines, in their order. A line that does not parse is an
/// error, not a skipped counter; blank lines are skipped.
pub open spec fn report_counters(report: Seq<Seq<char>>, floats: Floats) -> Result<
    Seq<CounterV>,
    Seq<char>,
>
    decreases report.len(),
{
    if report.len() == 0 {
        Ok(Seq::empty())
    } else {
        match report_counters(report.drop_last(), floats) {
            Err(e) => Err(e),
            Ok(found) => {
                let line = trim(report.last());
                if line.len() == 0 {
                    Ok(found)
                } else {
                    match json_document(line) {
                        Err(e) => Err(not_json(report.len(), e)),
                        Ok(entry) => match entry_counter(entry, floats) {
                            Some(c) => Ok(found.push(c)),
                            None => Ok(found),
                        },
                    }
                }
            },
        }
    }
}

proof fn report_stops(report: Seq<Seq<char>>, i: int, floats: Floats)
    requires
        0 <= i <= report.len(),
        report_counters(report.take(i), floats) is Err,
    ensures
        report_counters(report, floats) == report_counters(report.take(i), floats),
    decreases report.len() - i,
{
    if i < report.len() {
        assert(report.take(i + 1).drop_last() =~= report.take(i));
        report_stops(report, i + 1, floats);
    } else {
        assert(report.take(i) =~= report);
    }
}

pub open spec fn counters_result(r: Result<Vec<Counter>, String>) -> Result<
    Seq<CounterV>,
    Seq<char>,
> {
    match r {
        Ok(v) => Ok(counters(v@)),
        Err(e) => Err(e@),
    }
}

/// The counters that a perf report carries.
///
/// `perf stat -j` writes JSON lines: one object per event, one per line. A line that
/// does not parse is an error: an unparsed counter is a hole in the measurement that
/// nothing downstream would report.
pub fn counters_from_json(raw: &str, floats: &Floats) -> (r: Result<Vec<Counter>, String>)
    ensures
        counters_result(r) == report_counters(lines(raw@), *floats),
{
    let all = split_lines(raw);
    let ghost report = texts(all@);
    let mut out: Vec<Counter> = Vec::new();
    let mut i: usize = 0;
    assert(counters(out@) =~= Seq::empty());
    assert(report_counters(report.take(0), *floats) == Ok::<Seq<CounterV>, Seq<char>>(
        Seq::<CounterV>::empty(),
    ));
    while i < all.len()
        invariant
            i <= all@.len(),
            report == texts(all@),
            report == lines(raw@),
            report_counters(report.take(i as int), *floats) == Ok::<Seq<CounterV>, Seq<char>>(
                counters(out@),
            ),
        decreases all@.len() - i,
    {
        proof {
            assert(report.take(i + 1).drop_last() =~= report.take(i as int));
            assert(report.take(i + 1).last() == all@[i as int]@);
        }
        let line = trimmed(all[i].as_str());
        if !line.is_empty() {
            match parse_json(line) {
                Err(e) => {
                    let mut s = "perf's report line ".to_owned();
                    s.append(decimal(i as u64 + 1).as_str());
                    s.append(" is not JSON: ");
                    s.append(e.as_str());
                    proof {
                        report_stops(report, i + 1, *floats);
                    }
                    return Err(s);
                },
                Ok(entry) => {
                    match counter_of(&entry, floats) {
                        Some(c) => {
                            let ghost before = out@;
                            out.push(c);
                            assert(counters(out@) =~= counters(before).push(c@));
                        },
                        None => {},
                    }
                },
            }
        }
        i = i + 1;
    }
    assert(report.take(i as int) =~= report);
    Ok(out)
}

/// The texts that a report's lines give as counter values, as numbers to be read.
pub open spec fn report_texts(report: Seq<Seq<char>>) -> Seq<Seq<char>>
    decreases report.len(),
{
    if report.len() == 0 {
        Seq::empty()
    } else {
        let found = report_texts(report.drop_last());
        match json_document(trim(report.last())) {
            Ok(entry) => match entry.get("counter-value"@) {
                Some(DataV::Text(s)) => found.push(trim(without_commas(s))),
                _ => found,
            },
            Err(_) => found,
        }
    }
}

/// The texts that have to be read as numbers before the counters of a report can be
/// told.
pub fn counter_texts(raw: &str) -> (r: Vec<String>)
    ensures
        texts(r@) == report_texts(lines(raw@)),
{
    let all = split_lines(raw);
    let ghost report = texts(all@);
    let mut out: Vec<String> = Vec::new();
    let mut i: usize = 0;
    assert(texts(out@) =~= report_texts(report.take(0)));
    while i < all.len()
        invariant
            i <= all@.len(),
            report == texts(all@),
            texts(out@) == report_texts(report.take(i as int)),
        decreases all@.len() - i,
    {
        proof {
            assert(report.take(i + 1).drop_last() =~= report.take(i as int));
            assert(report.take(i + 1).last() == all@[i as int]@);
        }
        match parse_json(trimmed(all[i].as_str())) {
            Ok(entry) => {
                match entry.text_at("counter-value") {
                    Some(s) => {
                        let ghost before = texts(out@);
                        let t = counter_text(s.as_str());
                        out.push(t);
                        assert(texts(out@) =~= before.push(t@));
                    },
                    None => {},
                }
            },
            Err(_) => {},
        }
        i = i + 1;
    }
    assert(report.take(i as int) =~= report);
    out
}

// ---------------------------------------------------------------- onto the point

/// The metric of this name.
pub open spec fn metric_in(metrics: Seq<(String, Metric)>, name: Seq<char>) -> Option<MetricV>
    decreases metrics.len(),
{
    if metrics.len() == 0 {
        None
    } else if metrics.last().0@ == name {
        Some(metrics.last().1@)
    } else {
        metric_in(metrics.drop_last(), name)
    }
}

/// A counter as a metric: a value without bounds.
pub open spec fn as_metric(c: CounterV) -> MetricV {
    MetricV { point: c.value, lower: None, upper: None, unit: c.unit }
}

/// What counters say of a name; the last one counts.
pub open spec fn counted(cs: Seq<CounterV>, name: Seq<char>) -> Option<MetricV>
    decreases cs.len(),
{
    if cs.len() == 0 {
        None
    } else if cs.last().name == name {
        Some(as_metric(cs.last()))
    } else {
        counted(cs.drop_last(), name)
    }
}

/// The metrics of a point once counters are merged onto it.
pub open spec fn merged(
    metrics: Seq<(String, Metric)>,
    cs: Seq<CounterV>,
    name: Seq<char>,
) -> Option<MetricV> {
    match counted(cs, name) {
        Some(m) => Some(m),
        None => metric_in(metrics, name),
    }
}

pub open spec fn distinct_names(metrics: Seq<(String, Metric)>) -> bool {
    forall|i: int, j: int|
        0 <= i < j < metrics.len() ==> (#[trigger] metrics[i]).0@ != (#[trigger] metrics[j]).0@
}

proof fn metric_at(metrics: Seq<(String, Metric)>, i: int)
    requires
        distinct_names(metrics),
        0 <= i < metrics.len(),
    ensures
        metric_in(metrics, metrics[i].0@) == Some(metrics[i].1@),
    decreases metrics.len(),
{
    if i < metrics.len() - 1 {
        metric_at(metrics.drop_last(), i);
    }
}

proof fn metric_of_none(metrics: Seq<(String, Metric)>, name: Seq<char>)
    requires
        forall|i: int| 0 <= i < metrics.len() ==> (#[trigger] metrics[i]).0@ != name,
    ensures
        metric_in(metrics, name) is None,
    decreases metrics.len(),
{
    if metrics.len() > 0 {
        metric_of_none(metrics.drop_last(), name);
    }
}

proof fn metric_replaced(metrics: Seq<(String, Metric)>, at: int, entry: (String, Metric), name: Seq<char>)
    requires
        distinct_names(metrics),
        0 <= at < metrics.len(),
        entry.0@ == metrics[at].0@,
    ensures
        distinct_names(metrics.update(at, entry)),
        metric_in(metrics.update(at, entry), name) == (if name == entry.0@ {
            Some(entry.1@)
        } else {
            metric_in(metrics, name)
        }),
    decreases metrics.len(),
{
    let updated = metrics.update(at, entry);
    if name == entry.0@ {
        metric_at(updated, at);
    } else if at < metrics.len() - 1 {
        metric_replaced(metrics.drop_last(), at, entry, name);
        assert(updated.drop_last() =~= metrics.drop_last().update(at, entry));
    } else {
        assert(updated.drop_last() =~= metrics.drop_last());
    }
}

fn set_metric(metrics: &mut Vec<(String, Metric)>, name: &str, metric: Metric)
    requires
        distinct_names(old(metrics)@),
    ensures
        distinct_names(final(metrics)@),
        forall|n: Seq<char>|
            metric_in(final(metrics)@, n) == (if n == name@ {
                Some(metric@)
            } else {
                metric_in(old(metrics)@, n)
            }),
{
    let ghost before = metrics@;
    let mut i: usize = 0;
    while i < metrics.len()
        invariant
            i <= metrics@.len(),
            metrics@ == before,
            before == old(metrics)@,
            distinct_names(before),
            forall|j: int| 0 <= j < i ==> (#[trigger] before[j]).0@ != name@,
        decreases metrics@.len() - i,
    {
        if same(metrics[i].0.as_str(), name) {
            let key = metrics[i].0.clone();
            metrics.set(i, (key, metric));
            proof {
                let e = metrics@[i as int];
                assert(metrics@ =~= before.update(i as int, e));
                assert forall|n: Seq<char>|
                    metric_in(metrics@, n) == (if n == name@ {
                        Some(metric@)
                    } else {
                        metric_in(before, n)
                    }) by {
                    metric_replaced(before, i as int, e, n);
                }
                metric_replaced(before, i as int, e, name@);
            }
            return;
        }
        i = i + 1;
    }
    metrics.push((name.to_owned(), metric));
    proof {
        assert(metrics@.drop_last() =~= before);
        metric_of_none(before, name@);
    }
}

/// Merge a report's counters onto a point's metrics. What the driver measured itself
/// is not disturbed: a name that no counter has keeps its metric.
pub fn merge_counters(metrics: &mut Vec<(String, Metric)>, found: &Vec<Counter>)
    requires
        distinct_names(old(metrics)@),
    ensures
        distinct_names(final(metrics)@),
        forall|n: Seq<char>|
            metric_in(final(metrics)@, n) == merged(old(metrics)@, counters(found@), n),
{
    let ghost before = metrics@;
    let ghost cs = counters(found@);
    let mut i: usize = 0;
    assert(cs.take(0) =~= Seq::<CounterV>::empty());
    while i < found.len()
        invariant
            i <= found@.len(),
            cs == counters(found@),
            distinct_names(metrics@),
            forall|n: Seq<char>| metric_in(metrics@, n) == merged(before, cs.take(i as int), n),
        decreases found@.len() - i,
    {
        proof {
            assert(cs.take(i + 1).drop_last() =~= cs.take(i as int));
            assert(cs.take(i + 1).last() == found@[i as int]@);
        }
        let c = &found[i];
        let metric = Metric {
            point: c.value.clone(),
            lower: None,
            upper: None,
            unit: c.unit.clone(),
        };
        assert(metric@ == as_metric(c@));
        set_metric(metrics, c.name.as_str(), metric);
        i = i + 1;
    }
    assert(cs.take(i as int) =~= cs);
}

/// No event that perf counts is named like a latency.
pub proof fn latency_is_never_counted(event: Seq<char>)
    ensures
        metric_of(event) matches Some(m) ==> m.0 != "latency_ns"@,
{
    reveal_strlit("latency_ns");
    reveal_strlit("cycles");
    reveal_strlit("instructions");
    reveal_strlit("branch_misses");
    reveal_strlit("task_clock");
    assert("latency_ns"@[0] == 'l');
    assert("cycles"@[0] == 'c');
    assert("instructions"@[0] == 'i');
    assert("branch_misses"@[0] == 'b');
    assert("task_clock"@[0] == 't');
}

} // verus!
