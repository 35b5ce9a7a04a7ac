//! What a chart promises of the documents behind it: every metric of every point is a
//! measurement, with its own value and bounds, and what is shown at a place is the first
//! measurement that was chosen for it.

use crate::chart::{
    all_measurements, capped, chart_key, charts_show_what_was_chosen, chosen, documents, faults,
    latest, loaded, measured, of_all, point_measurements, shown, tag_in, tags_in, AxesV, LoadError,
    LoadErrorV, LoadedDoc, LoadedDocV, MeasurementV,
};
use crate::data::DataV;
use crate::schema::SCHEMA_VERSION;
use crate::selector::{set_admits, ClauseV};
use crate::tag::{render, Floats, ReadingV, TagV};
use crate::text::dec_int;
use vstd::prelude::*;

verus! {

// ---------------------------------------------------------------- measurements

/// Is this the number that a metric holds under a name: as it is written, or nothing
/// where no number stands there?
pub open spec fn is_number_under(metric: DataV, key: Seq<char>, held: Option<Seq<char>>) -> bool {
    match metric.get(key) {
        Some(DataV::Number { text, .. }) => held == Some(text),
        _ => held is None,
    }
}

/// Is the measurement this metric of a point: its value, and the bounds on either side of
/// it where the metric has them?
pub open spec fn measures(
    m: MeasurementV,
    metric: (Seq<char>, DataV),
    tags: Map<Seq<char>, TagV>,
    run_id: Seq<char>,
) -> bool {
    &&& m.metric_name == metric.0
    &&& is_number_under(metric.1, "point"@, m.y)
    &&& is_number_under(metric.1, "lower"@, m.lower)
    &&& is_number_under(metric.1, "upper"@, m.upper)
    &&& m.tags == tags
    &&& m.run_id == run_id
    &&& tags.dom().contains("impl"@) ==> m.series == render(tags["impl"@])
}

/// A point of a document that reads: its tags, and its metrics.
pub open spec fn reads_as(
    point: DataV,
    tags: Map<Seq<char>, TagV>,
    metrics: Seq<(Seq<char>, DataV)>,
    floats: Floats,
) -> bool {
    &&& point.get("tags"@) matches Some(DataV::Table(table)) && tags_in(table, floats) == Some(tags)
    &&& point.get("metrics"@) == Some(DataV::Table(metrics))
}

/// A point is measured by each of its metrics: a metric with a value and bounds gives a
/// measurement with that value between those bounds, and one with a value alone gives a
/// measurement without bounds.
pub proof fn points_are_measured_by_each_metric(
    point: DataV,
    tags: Map<Seq<char>, TagV>,
    metrics: Seq<(Seq<char>, DataV)>,
    run_id: Seq<char>,
    floats: Floats,
)
    requires
        reads_as(point, tags, metrics, floats),
    ensures
        point_measurements(point, run_id, floats).len() == metrics.len(),
        forall|j: int|
            0 <= j < metrics.len() ==> measures(
                #[trigger] point_measurements(point, run_id, floats)[j],
                metrics[j],
                tags,
                run_id,
            ),
{
    let ms = point_measurements(point, run_id, floats);
    assert forall|j: int| 0 <= j < metrics.len() implies measures(
        #[trigger] ms[j],
        metrics[j],
        tags,
        run_id,
    ) by {
        assert(ms[j] == measured(metrics[j], run_id, tags));
    }
}

proof fn measurement_of(points: Seq<DataV>, run_id: Seq<char>, floats: Floats, i: int, j: int) -> (k: int)
    requires
        0 <= i < points.len(),
        0 <= j < point_measurements(points[i], run_id, floats).len(),
    ensures
        0 <= k < all_measurements(points, run_id, floats).len(),
        all_measurements(points, run_id, floats)[k] == point_measurements(
            points[i],
            run_id,
            floats,
        )[j],
    decreases points.len(),
{
    let rest = all_measurements(points.drop_last(), run_id, floats);
    if i == points.len() - 1 {
        rest.len() + j
    } else {
        let k = measurement_of(points.drop_last(), run_id, floats, i, j);
        assert(all_measurements(points, run_id, floats)[k] == rest[k]);
        k
    }
}

proof fn measurement_from(points: Seq<DataV>, run_id: Seq<char>, floats: Floats, k: int) -> (r: (
    int,
    int,
))
    requires
        0 <= k < all_measurements(points, run_id, floats).len(),
    ensures
        0 <= r.0 < points.len(),
        0 <= r.1 < point_measurements(points[r.0], run_id, floats).len(),
        all_measurements(points, run_id, floats)[k] == point_measurements(
            points[r.0],
            run_id,
            floats,
        )[r.1],
    decreases points.len(),
{
    let rest = all_measurements(points.drop_last(), run_id, floats);
    if k < rest.len() {
        measurement_from(points.drop_last(), run_id, floats, k)
    } else {
        (points.len() - 1, k - rest.len())
    }
}

/// Loading loses nothing: every metric of every point of a document that reads is among
/// its measurements, with its value, its bounds and its tags, under the document's run.
pub proof fn documents_keep_every_metric(
    doc: DataV,
    floats: Floats,
    points: Seq<DataV>,
    i: int,
    tags: Map<Seq<char>, TagV>,
    metrics: Seq<(Seq<char>, DataV)>,
    j: int,
) -> (k: int)
    requires
        loaded(doc, floats) is Ok,
        doc.get("points"@) == Some(DataV::List(points)),
        0 <= i < points.len(),
        reads_as(points[i], tags, metrics, floats),
        0 <= j < metrics.len(),
    ensures
        0 <= k < loaded(doc, floats)->Ok_0.measurements.len(),
        measures(
            loaded(doc, floats)->Ok_0.measurements[k],
            metrics[j],
            tags,
            loaded(doc, floats)->Ok_0.meta.run_id,
        ),
{
    let d = loaded(doc, floats)->Ok_0;
    points_are_measured_by_each_metric(points[i], tags, metrics, d.meta.run_id, floats);
    let k = measurement_of(points, d.meta.run_id, floats, i, j);
    assert(measures(
        point_measurements(points[i], d.meta.run_id, floats)[j],
        metrics[j],
        tags,
        d.meta.run_id,
    ));
    k
}

/// Loading makes nothing up: every measurement of a document is a metric of one of its
/// points.
pub proof fn measurements_come_from_documents(
    doc: DataV,
    floats: Floats,
    points: Seq<DataV>,
    k: int,
) -> (r: (int, Map<Seq<char>, TagV>, Seq<(Seq<char>, DataV)>, int))
    requires
        loaded(doc, floats) is Ok,
        doc.get("points"@) == Some(DataV::List(points)),
        0 <= k < loaded(doc, floats)->Ok_0.measurements.len(),
    ensures
        0 <= r.0 < points.len(),
        reads_as(points[r.0], r.1, r.2, floats),
        0 <= r.3 < r.2.len(),
        measures(
            loaded(doc, floats)->Ok_0.measurements[k],
            r.2[r.3],
            r.1,
            loaded(doc, floats)->Ok_0.meta.run_id,
        ),
{
    let d = loaded(doc, floats)->Ok_0;
    let (i, j) = measurement_from(points, d.meta.run_id, floats, k);
    let tags = tags_in(points[i].get("tags"@)->Some_0->Table_0, floats)->Some_0;
    let metrics = points[i].get("metrics"@)->Some_0->Table_0;
    points_are_measured_by_each_metric(points[i], tags, metrics, d.meta.run_id, floats);
    assert(measures(
        point_measurements(points[i], d.meta.run_id, floats)[j],
        metrics[j],
        tags,
        d.meta.run_id,
    ));
    (i, tags, metrics, j)
}

/// A document says of its run what stands under each name.
pub proof fn documents_name_their_run(doc: DataV, floats: Floats)
    requires
        loaded(doc, floats) is Ok,
    ensures
        doc.get("run"@) matches Some(run) && ({
            let meta = loaded(doc, floats)->Ok_0.meta;
            &&& run.get("run_id"@) matches Some(DataV::Text(t)) ==> meta.run_id == t
            &&& run.get("started_at"@) matches Some(DataV::Text(t)) ==> meta.started_at == t
            &&& run.get("runner"@) matches Some(DataV::Text(t)) ==> meta.runner == t
            &&& run.get("machine_hash"@) matches Some(DataV::Text(t)) ==> meta.machine_hash == t
        }),
{
}

/// A tag of a document is the value that stands under its name, the last one where a name
/// stands twice: a text as a word, a whole number as an integer, another number by its
/// bits.
pub proof fn tags_are_what_stands_under_their_names(
    table: Seq<(Seq<char>, DataV)>,
    floats: Floats,
    i: int,
)
    requires
        tags_in(table, floats) is Some,
        0 <= i < table.len(),
        forall|j: int| i < j < table.len() ==> (#[trigger] table[j]).0 != table[i].0,
    ensures
        ({
            let tags = tags_in(table, floats)->Some_0;
            let key = table[i].0;
            &&& tags.dom().contains(key)
            &&& match table[i].1 {
                DataV::Text(s) => tags[key] == TagV::Word(s),
                DataV::Bool(b) => tags[key] == TagV::Bool(b),
                DataV::Number { integer: Some(n), .. } => tags[key] == TagV::Int(n as int),
                DataV::Number { integer: None, text, .. } => floats.reading(text) matches
                    ReadingV::Finite { bits, text: t } && tags[key] == (TagV::Float {
                    bits,
                    text: t,
                }),
                _ => false,
            }
        }),
    decreases table.len(),
{
    assert(tag_in(table.last().1, floats) is Some);
    if i < table.len() - 1 {
        assert(table[table.len() - 1].0 != table[i].0);
        let t = table.drop_last();
        assert forall|j: int| i < j < t.len() implies (#[trigger] t[j]).0 != t[i].0 by {
            assert(table[j].0 != table[i].0);
        }
        tags_are_what_stands_under_their_names(t, floats, i);
    }
}

// ---------------------------------------------------------------- what is shown

/// What a chart shows at a place of a series is the first measurement that was chosen for
/// it: its value, and its bounds.
pub proof fn the_first_chosen_is_shown(
    ms: Seq<MeasurementV>,
    set: Seq<Seq<ClauseV>>,
    axes: AxesV,
    floats: Floats,
    i: int,
)
    requires
        0 <= i < ms.len(),
        ms[i].metric_name == axes.metric,
        set_admits(set, ms[i].tags, Seq::empty()),
        forall|j: int|
            0 <= j < i && (#[trigger] ms[j]).metric_name == axes.metric && set_admits(
                set,
                ms[j].tags,
                Seq::empty(),
            ) ==> chart_key(ms[j], axes, floats) != chart_key(ms[i], axes, floats),
    ensures
        ({
            let shown = latest(ms, set, axes, floats);
            let key = chart_key(ms[i], axes, floats);
            &&& shown.dom().contains(key)
            &&& shown[key].y == ms[i].y
            &&& shown[key].lower == ms[i].lower
            &&& shown[key].upper == ms[i].upper
        }),
    decreases ms.len(),
{
    let t = ms.drop_last();
    let seen = latest(t, set, axes, floats);
    let key = chart_key(ms[i], axes, floats);
    if i < ms.len() - 1 {
        assert forall|j: int|
            0 <= j < i && (#[trigger] t[j]).metric_name == axes.metric && set_admits(
                set,
                t[j].tags,
                Seq::empty(),
            ) implies chart_key(t[j], axes, floats) != chart_key(t[i], axes, floats) by {
            assert(t[j] == ms[j]);
        }
        the_first_chosen_is_shown(t, set, axes, floats, i);
    } else {
        if seen.dom().contains(key) {
            charts_show_what_was_chosen(t, set, axes, floats);
            let j = choose|j: int|
                0 <= j < t.len() && chosen(#[trigger] t[j], set, axes) && chart_key(
                    t[j],
                    axes,
                    floats,
                ) == key && shown(t[j]) == seen[key];
            assert(t[j] == ms[j]);
        }
    }
}

/// A measurement stands in the series that its series tag names, at the number that its
/// x tag is; a measurement without them stands in the unnamed series, at zero.
pub proof fn measurements_stand_where_their_tags_say(m: MeasurementV, axes: AxesV, floats: Floats)
    ensures
        ({
            let key = chart_key(m, axes, floats);
            &&& m.tags.dom().contains(axes.series_tag) ==> key.0 == render(m.tags[axes.series_tag])
            &&& !m.tags.dom().contains(axes.series_tag) ==> key.0.len() == 0
            &&& axes.x_tag is None ==> key.1 == 0
            &&& axes.x_tag matches Some(x) ==> if m.tags.dom().contains(x) {
                match m.tags[x] {
                    TagV::Float { bits, .. } => key.1 == bits,
                    TagV::Int(n) => floats.reading(dec_int(n)) matches ReadingV::Finite {
                        bits,
                        text,
                    } ==> key.1 == bits,
                    _ => key.1 == 0,
                }
            } else {
                key.1 == 0
            }
        }),
{
}

/// Documents are charted one after the other, each with all of its measurements.
pub proof fn documents_follow_one_another(a: Seq<LoadedDocV>, b: Seq<LoadedDocV>)
    ensures
        of_all(a + b) == of_all(a) + of_all(b),
        forall|d: LoadedDocV| #[trigger] of_all(seq![d]) == d.measurements,
    decreases b.len(),
{
    assert forall|d: LoadedDocV| #[trigger] of_all(seq![d]) == d.measurements by {
        let one = seq![d];
        assert(one.drop_last() =~= Seq::empty());
        assert(of_all(one.drop_last()) =~= Seq::empty());
        assert(of_all(one) =~= d.measurements);
    }
    if b.len() == 0 {
        assert(a + b =~= a);
        assert(of_all(a) + of_all(b) =~= of_all(a));
    } else {
        documents_follow_one_another(a, b.drop_last());
        assert((a + b).drop_last() =~= a + b.drop_last());
        assert((a + b).last() == b.last());
        assert(of_all(a + b) =~= of_all(a) + of_all(b));
    }
}

/// What loaded is charted and what did not is reported, each in its order, nothing twice.
pub proof fn loads_are_told_apart(rs: Seq<Result<LoadedDoc, LoadError>>)
    ensures
        documents(rs) == rs.filter_map(
            |r: Result<LoadedDoc, LoadError>|
                match r {
                    Ok(d) => Some(d@),
                    Err(_) => None::<LoadedDocV>,
                },
        ),
        faults(rs) == rs.filter_map(
            |r: Result<LoadedDoc, LoadError>|
                match r {
                    Ok(_) => None::<LoadErrorV>,
                    Err(e) => Some(e@),
                },
        ),
        documents(rs).len() + faults(rs).len() == rs.len(),
    decreases rs.len(),
{
    if rs.len() > 0 {
        loads_are_told_apart(rs.drop_last());
        match rs.last() {
            Ok(d) => {
                assert(documents(rs) =~= documents(rs.drop_last()) + seq![d@]);
            },
            Err(e) => {
                assert(faults(rs) =~= faults(rs.drop_last()) + seq![e@]);
            },
        }
    }
}

/// A limit keeps the first ones, as many as it allows and no fewer than there are.
pub proof fn limits_keep_the_first<T>(s: Seq<T>, most: nat)
    ensures
        capped(s, most).len() == (if s.len() < most {
            s.len()
        } else {
            most
        }),
        forall|i: int| 0 <= i < capped(s, most).len() ==> #[trigger] capped(s, most)[i] == s[i],
{
}

/// A document of another schema is not read.
pub proof fn other_schemas_are_not_read(doc: DataV, floats: Floats)
    ensures
        loaded(doc, floats) is Ok ==> doc.get("schema_version"@) is Some && doc.get(
            "schema_version"@,
        )->Some_0.as_natural() is Some && doc.get("schema_version"@)->Some_0.as_natural()->Some_0
            == SCHEMA_VERSION,
{
}

} // verus!
