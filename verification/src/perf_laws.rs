//! What the perf runner promises of a report: each counter keeps its own name and value,
//! every line is accounted for, and the driver's own metrics stay.

use crate::data::{json_document, DataV};
use crate::perf::{
    as_metric, counted, entry_counter, merged, metric_in, metric_of, not_json, report_counters,
    safe_text, without_commas, CounterV,
};
use crate::schema::{is_alphanumeric, Metric, MetricV};
use crate::tag::{Floats, ReadingV};
use crate::text::{find, find_is, split, trim};
use vstd::prelude::*;

verus! {

// ---------------------------------------------------------------- names

/// Is this the event's own name: what stands before its first colon?
pub open spec fn is_event_name(event: Seq<char>, name: Seq<char>) -> bool {
    &&& name.len() <= event.len()
    &&& forall|i: int| 0 <= i < name.len() ==> name[i] == event[i] && name[i] != ':'
    &&& name.len() < event.len() ==> event[name.len() as int] == ':'
}

/// A name with its hyphens written as underscores.
pub open spec fn underscored(name: Seq<char>) -> Seq<char> {
    Seq::new(
        name.len(),
        |i: int|
            if name[i] == '-' {
                '_'
            } else {
                name[i]
            },
    )
}

/// The events that are counted.
pub open spec fn is_known_event(name: Seq<char>) -> bool {
    name == "cycles"@ || name == "cpu-cycles"@ || name == "instructions"@ || name
        == "branch-misses"@ || name == "task-clock"@
}

proof fn event_name_is_split(event: Seq<char>, name: Seq<char>)
    requires
        is_event_name(event, name),
    ensures
        split(event, ':')[0] == name,
{
    find_is(event, ':', name.len() as int);
    assert(find(event, ':') == name.len());
    assert(event.take(name.len() as int) =~= name);
    assert(event.take(event.len() as int) =~= event);
}

/// A metric is named after its event: the event's own name with underscores for hyphens,
/// whatever follows its colon. Only the cycles have two names for one event. Time is in
/// milliseconds, anything else is a count.
pub proof fn metrics_are_named_after_events(event: Seq<char>, name: Seq<char>)
    requires
        is_event_name(event, name),
    ensures
        metric_of(event) is Some <==> is_known_event(name),
        metric_of(event) matches Some(m) ==> {
            &&& name != "cpu-cycles"@ ==> m.0 == underscored(name)
            &&& name == "cpu-cycles"@ ==> m.0 == "cycles"@
            &&& name == "task-clock"@ ==> m.1 == "ms"@
            &&& name != "task-clock"@ ==> m.1 == "count"@
        },
{
    event_name_is_split(event, name);
    reveal_strlit("cycles");
    reveal_strlit("cpu-cycles");
    reveal_strlit("instructions");
    reveal_strlit("branch-misses");
    reveal_strlit("branch_misses");
    reveal_strlit("task-clock");
    reveal_strlit("task_clock");
    assert("cycles"@.len() == 6 && "cpu-cycles"@.len() == 10 && "instructions"@.len() == 12);
    assert("task-clock"@[0] == 't' && "cpu-cycles"@[0] == 'c' && "branch-misses"@[0] == 'b');
    assert("cycles"@[0] == 'c' && "instructions"@[0] == 'i');
    assert("cycles"@ =~= underscored("cycles"@));
    assert("instructions"@ =~= underscored("instructions"@));
    assert("branch_misses"@ =~= underscored("branch-misses"@));
    assert("task_clock"@ =~= underscored("task-clock"@));
}

/// Two events that are counted go by one metric only where they are one event, or both
/// are cycles.
pub proof fn metrics_tell_events_apart(a: Seq<char>, x: Seq<char>, b: Seq<char>, y: Seq<char>)
    requires
        is_event_name(a, x),
        is_event_name(b, y),
        metric_of(a) matches Some(m) && metric_of(b) matches Some(n) && m.0 == n.0,
        x != "cpu-cycles"@,
        y != "cpu-cycles"@,
    ensures
        x == y,
{
    metrics_are_named_after_events(a, x);
    metrics_are_named_after_events(b, y);
    reveal_strlit("cycles");
    reveal_strlit("instructions");
    reveal_strlit("branch-misses");
    reveal_strlit("task-clock");
    assert("cycles"@[0] == 'c' && "instructions"@[0] == 'i' && "branch-misses"@[0] == 'b'
        && "task-clock"@[0] == 't');
    assert(underscored(x)[0] == underscored(y)[0]);
}

// ---------------------------------------------------------------- values

/// A text loses its commas and nothing else.
proof fn commas_are_dropped(s: Seq<char>)
    ensures
        without_commas(s) == s.filter(|c: char| c != ','),
    decreases s.len(),
{
    reveal(Seq::filter);
    if s.len() > 0 {
        commas_are_dropped(s.drop_last());
    } else {
        assert(s =~= Seq::empty());
    }
}

/// An entry of a known event gives a counter of that event with the entry's own value: a
/// number as it is written, a text without its commas and the space around it.
pub proof fn counters_keep_their_values(
    entry: DataV,
    event: Seq<char>,
    name: Seq<char>,
    floats: Floats,
)
    requires
        entry.get("event"@) == Some(DataV::Text(event)),
        is_event_name(event, name),
        is_known_event(name),
    ensures
        entry.get("counter-value"@) matches Some(DataV::Number { natural, integer, text }) ==> {
            &&& entry_counter(entry, floats) matches Some(c) && c.value == text && (name
                != "cpu-cycles"@ ==> c.name == underscored(name))
        },
        entry.get("counter-value"@) matches Some(DataV::Text(s)) ==> {
            let number = trim(s.filter(|c: char| c != ','));
            if floats.reading(number) == ReadingV::NotAFloat {
                entry_counter(entry, floats) is None
            } else {
                entry_counter(entry, floats) matches Some(c) && c.value == number && (name
                    != "cpu-cycles"@ ==> c.name == underscored(name))
            }
        },
{
    metrics_are_named_after_events(event, name);
    if let Some(DataV::Text(s)) = entry.get("counter-value"@) {
        commas_are_dropped(s);
    }
}

// ---------------------------------------------------------------- reports

/// What a line of a report counts, where it counts anything.
pub open spec fn line_counter(line: Seq<char>, floats: Floats) -> Option<CounterV> {
    match json_document(trim(line)) {
        Ok(entry) => if trim(line).len() == 0 {
            None
        } else {
            entry_counter(entry, floats)
        },
        Err(_) => None,
    }
}

pub open spec fn is_broken(line: Seq<char>) -> bool {
    trim(line).len() > 0 && json_document(trim(line)) is Err
}

/// A report that reads gives the counter of each of its lines, in their order, each once;
/// one with a broken line does not read, and the first such line is named.
pub proof fn reports_keep_every_counter(report: Seq<Seq<char>>, floats: Floats)
    ensures
        report_counters(report, floats) is Ok <==> forall|i: int|
            0 <= i < report.len() ==> !is_broken(#[trigger] report[i]),
        report_counters(report, floats) matches Ok(found) ==> found == report.filter_map(
            |line: Seq<char>| line_counter(line, floats),
        ),
        report_counters(report, floats) matches Err(e) ==> exists|i: int|
            #![trigger report[i]]
            0 <= i < report.len() && is_broken(report[i]) && e == not_json(
                (i + 1) as nat,
                json_document(trim(report[i]))->Err_0,
            ) && forall|j: int| 0 <= j < i ==> !is_broken(#[trigger] report[j]),
    decreases report.len(),
{
    if report.len() > 0 {
        let t = report.drop_last();
        reports_keep_every_counter(t, floats);
        assert forall|i: int| 0 <= i < t.len() implies t[i] == report[i] by {}
        let all = report_counters(report, floats);
        match report_counters(t, floats) {
            Err(e) => {
                let i = choose|i: int|
                    #![trigger t[i]]
                    0 <= i < t.len() && is_broken(t[i]) && e == not_json(
                        (i + 1) as nat,
                        json_document(trim(t[i]))->Err_0,
                    ) && forall|j: int| 0 <= j < i ==> !is_broken(#[trigger] t[j]);
                assert(is_broken(report[i]));
                assert forall|j: int| 0 <= j < i implies !is_broken(#[trigger] report[j]) by {
                    assert(!is_broken(t[j]));
                }
            },
            Ok(found) => {
                assert forall|j: int| 0 <= j < t.len() implies !is_broken(#[trigger] report[j]) by {
                    assert(!is_broken(t[j]));
                }
                assert(report[report.len() - 1] == report.last());
                let f = |line: Seq<char>| line_counter(line, floats);
                assert(found == t.filter_map(f));
                if let Ok(more) = all {
                    match f(report.last()) {
                        Some(c) => {
                            assert(more =~= found + seq![c]);
                        },
                        None => {},
                    }
                }
            },
        }
    }
}

// ---------------------------------------------------------------- onto the point

/// Merging counters sets the metric of each name that was counted to the last value
/// counted for it, without bounds; every other metric stays as the driver measured it.
pub proof fn merging_sets_what_was_counted(
    metrics: Seq<(String, Metric)>,
    cs: Seq<CounterV>,
    name: Seq<char>,
)
    ensures
        forall|i: int|
            #![trigger cs[i]]
            0 <= i < cs.len() && cs[i].name == name && (forall|j: int|
                i < j < cs.len() ==> (#[trigger] cs[j]).name != name) ==> merged(metrics, cs, name)
                == Some(
                MetricV { point: cs[i].value, lower: None, upper: None, unit: cs[i].unit },
            ),
        (forall|i: int| 0 <= i < cs.len() ==> (#[trigger] cs[i]).name != name) ==> merged(
            metrics,
            cs,
            name,
        ) == metric_in(metrics, name),
{
    assert forall|i: int|
        #![trigger cs[i]]
        0 <= i < cs.len() && cs[i].name == name && (forall|j: int|
            i < j < cs.len() ==> (#[trigger] cs[j]).name != name) implies counted(cs, name) == Some(
        as_metric(cs[i]),
    ) by {
        last_counts(cs, name, i);
    }
    if forall|i: int| 0 <= i < cs.len() ==> (#[trigger] cs[i]).name != name {
        never_counted(cs, name);
    }
}

proof fn last_counts(cs: Seq<CounterV>, name: Seq<char>, i: int)
    requires
        0 <= i < cs.len(),
        cs[i].name == name,
        forall|j: int| i < j < cs.len() ==> (#[trigger] cs[j]).name != name,
    ensures
        counted(cs, name) == Some(as_metric(cs[i])),
    decreases cs.len(),
{
    if i < cs.len() - 1 {
        assert(cs[cs.len() - 1].name != name);
        let t = cs.drop_last();
        assert forall|j: int| i < j < t.len() implies (#[trigger] t[j]).name != name by {
            assert(cs[j].name != name);
        }
        last_counts(t, name, i);
    }
}

proof fn never_counted(cs: Seq<CounterV>, name: Seq<char>)
    requires
        forall|i: int| 0 <= i < cs.len() ==> (#[trigger] cs[i]).name != name,
    ensures
        counted(cs, name) is None,
    decreases cs.len(),
{
    if cs.len() > 0 {
        assert(cs[cs.len() - 1].name != name);
        let t = cs.drop_last();
        assert forall|j: int| 0 <= j < t.len() implies (#[trigger] t[j]).name != name by {
            assert(cs[j].name != name);
        }
        never_counted(t, name);
    }
}

/// A metric is found under its own name, the last one of that name.
pub proof fn metrics_are_found_by_name(metrics: Seq<(String, Metric)>, i: int)
    requires
        0 <= i < metrics.len(),
        forall|j: int|
            i < j < metrics.len() ==> (#[trigger] metrics[j]).0@ != metrics[i].0@,
    ensures
        metric_in(metrics, metrics[i].0@) == Some(metrics[i].1@),
    decreases metrics.len(),
{
    if i < metrics.len() - 1 {
        assert(metrics[metrics.len() - 1].0@ != metrics[i].0@);
        let t = metrics.drop_last();
        assert forall|j: int| i < j < t.len() implies (#[trigger] t[j]).0@ != t[i].0@ by {
            assert(metrics[j].0@ != metrics[i].0@);
        }
        metrics_are_found_by_name(t, i);
    }
}

/// A safe name keeps every letter, digit, hyphen and underscore where it stands, and has an
/// underscore for everything else.
pub proof fn safe_names_keep_their_letters(raw: Seq<char>, i: int)
    requires
        0 <= i < raw.len(),
    ensures
        safe_text(raw).len() == raw.len(),
        is_alphanumeric(raw[i]) || raw[i] == '-' || raw[i] == '_' ==> safe_text(raw)[i] == raw[i],
        !(is_alphanumeric(raw[i]) || raw[i] == '-') ==> safe_text(raw)[i] == '_',
{
}

} // verus!
