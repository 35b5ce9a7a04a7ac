//! The chart model: run documents become plottable series.
//!
//! A chart is one or more series of points with a confidence interval; the selector
//! language picks the points, the series tag groups them, and one point is kept for
//! each place of a series: the latest.
//!
//! A measured number is kept as it is written in its document, and a place on the x
//! axis as the bit pattern of its binary64 number.

use crate::data::{
    entries_of, get_text, json_document, parse_json, views, Data, DataV,
};
use crate::ordered::ascending_lists_agree;
use crate::schema::SCHEMA_VERSION;
use crate::selector::{set_admits, ClauseV, SelectorSet};
use crate::tag::{render, total_key, FloatReading, Floats, ReadingV, TagMap, TagV, TagValue};
use crate::text::{
    before, copy_option, dec, dec_int, decimal, decimal_signed, ends_with, join, joined, option_text,
    same,
    text_lt, texts, text_lt_irreflexive, text_lt_total, text_lt_transitive,
};
use vstd::prelude::*;

verus! {

// ---------------------------------------------------------------- documents

/// One run document's metadata, as far as the chart cares.
#[derive(Debug)]
pub struct RunMeta {
    pub run_id: String,
    pub started_at: String,
    pub runner: String,
    pub machine_hash: String,
}

/// A [`RunMeta`] by its contents.
pub struct RunMetaV {
    pub run_id: Seq<char>,
    pub started_at: Seq<char>,
    pub runner: Seq<char>,
    pub machine_hash: Seq<char>,
}

impl View for RunMeta {
    type V = RunMetaV;

    open spec fn view(&self) -> RunMetaV {
        RunMetaV {
            run_id: self.run_id@,
            started_at: self.started_at@,
            runner: self.runner@,
            machine_hash: self.machine_hash@,
        }
    }
}

impl Clone for RunMeta {
    fn clone(&self) -> (r: Self)
        ensures
            r@ == self@,
    {
        let r = RunMeta {
            run_id: self.run_id.clone(),
            started_at: self.started_at.clone(),
            runner: self.runner.clone(),
            machine_hash: self.machine_hash.clone(),
        };
        r
    }
}

/// A measurement: which series it belongs to, its place, the metric's value, and the
/// confidence bounds when the document carried them.
#[derive(Debug)]
pub struct Measurement {
    pub series: String,
    /// Zero until a chart places it.
    pub x: u64,
    /// Absent where the document holds no number.
    pub y: Option<String>,
    pub lower: Option<String>,
    pub upper: Option<String>,
    pub run_id: String,
    /// Which metric this measurement is; the chart plots one.
    pub metric_name: String,
    /// The point's full tag map, for selector matching and for its place.
    pub tags: TagMap,
}

/// A [`Measurement`] by its contents.
pub struct MeasurementV {
    pub series: Seq<char>,
    pub x: u64,
    pub y: Option<Seq<char>>,
    pub lower: Option<Seq<char>>,
    pub upper: Option<Seq<char>>,
    pub run_id: Seq<char>,
    pub metric_name: Seq<char>,
    pub tags: Map<Seq<char>, TagV>,
}

impl View for Measurement {
    type V = MeasurementV;

    open spec fn view(&self) -> MeasurementV {
        MeasurementV {
            series: self.series@,
            x: self.x,
            y: option_text(self.y),
            lower: option_text(self.lower),
            upper: option_text(self.upper),
            run_id: self.run_id@,
            metric_name: self.metric_name@,
            tags: self.tags@,
        }
    }
}

pub open spec fn measurements(v: Seq<Measurement>) -> Seq<MeasurementV> {
    Seq::new(v.len(), |i: int| v[i]@)
}

/// What one run document contributed, as far as loading cares.
#[derive(Debug)]
pub struct LoadedDoc {
    pub meta: RunMeta,
    pub measurements: Vec<Measurement>,
}

/// A [`LoadedDoc`] by its contents.
pub struct LoadedDocV {
    pub meta: RunMetaV,
    pub measurements: Seq<MeasurementV>,
}

impl View for LoadedDoc {
    type V = LoadedDocV;

    open spec fn view(&self) -> LoadedDocV {
        LoadedDocV { meta: self.meta@, measurements: measurements(self.measurements@) }
    }
}

/// Why a document could not be loaded.
#[derive(Debug)]
pub struct LoadError {
    pub path: String,
    pub message: String,
}

/// A [`LoadError`] by its contents.
pub struct LoadErrorV {
    pub path: Seq<char>,
    pub message: Seq<char>,
}

impl View for LoadError {
    type V = LoadErrorV;

    open spec fn view(&self) -> LoadErrorV {
        LoadErrorV {
            path: self.path@,
            message: self.message@,
        }
    }
}

impl Clone for LoadError {
    fn clone(&self) -> (r: Self)
        ensures
            r@ == self@,
    {
        let r = LoadError {
            path: self.path.clone(),
            message: self.message.clone(),
        };
        r
    }
}

/// How a load error is written.
pub open spec fn load_error_text(e: LoadErrorV) -> Seq<char> {
    e.path + ": "@ + e.message
}

impl LoadError {
    pub fn to_string(&self) -> (r: String)
        ensures
            r@ == load_error_text(self@),
    {
        let mut s = self.path.clone();
        s.append(": ");
        s.append(self.message.as_str());
        s
    }
}

/// The tag value that a document's value stands for: a text is a word, a whole number
/// that fits is an integer, any other number has a fraction.
pub open spec fn tag_in(d: DataV, floats: Floats) -> Option<TagV> {
    match d {
        DataV::Text(s) => Some(TagV::Word(s)),
        DataV::Number { integer, text, .. } => match integer {
            Some(i) => Some(TagV::Int(i as int)),
            None => match floats.reading(text) {
                ReadingV::Finite { bits, text } => Some(TagV::Float { bits, text }),
                _ => None,
            },
        },
        DataV::Bool(b) => Some(TagV::Bool(b)),
        _ => None,
    }
}

/// The tags of a table; nothing where one of its values is no tag value.
pub open spec fn tags_in(entries: Seq<(Seq<char>, DataV)>, floats: Floats) -> Option<
    Map<Seq<char>, TagV>,
>
    decreases entries.len(),
{
    if entries.len() == 0 {
        Some(Map::empty())
    } else {
        match (tags_in(entries.drop_last(), floats), tag_in(entries.last().1, floats)) {
            (Some(tags), Some(v)) => Some(tags.insert(entries.last().0, v)),
            _ => None,
        }
    }
}

fn tag_of(d: &Data, floats: &Floats) -> (r: Option<TagValue>)
    ensures
        (match r {
            Some(v) => Some(v@),
            None => None,
        }) == tag_in(d@, *floats),
{
    match d {
        Data::Text(s) => Some(TagValue::Word(s.clone())),
        Data::Number(n) => match n.integer {
            Some(i) => Some(TagValue::Int(i)),
            None => match floats.read(n.text.as_str()) {
                FloatReading::Finite(f) => Some(TagValue::Float(f)),
                _ => None,
            },
        },
        Data::Bool(b) => Some(TagValue::Bool(*b)),
        _ => None,
    }
}

proof fn tags_stop(entries: Seq<(Seq<char>, DataV)>, i: int, floats: Floats)
    requires
        0 <= i <= entries.len(),
        tags_in(entries.take(i), floats) is None,
    ensures
        tags_in(entries, floats) is None,
    decreases entries.len() - i,
{
    if i < entries.len() {
        assert(entries.take(i + 1).drop_last() =~= entries.take(i));
        tags_stop(entries, i + 1, floats);
    } else {
        assert(entries.take(i) =~= entries);
    }
}

fn tags_of(table: &Vec<(String, Data)>, floats: &Floats) -> (r: Option<TagMap>)
    ensures
        (match r {
            Some(m) => Some(m@),
            None => None,
        }) == tags_in(entries_of(table@), *floats),
{
    let ghost all = entries_of(table@);
    let mut tags = TagMap::new();
    let mut i: usize = 0;
    assert(tags_in(all.take(0), *floats) == Some(Map::<Seq<char>, TagV>::empty()));
    while i < table.len()
        invariant
            i <= table@.len(),
            all == entries_of(table@),
            tags_in(all.take(i as int), *floats) == Some(tags@),
        decreases table@.len() - i,
    {
        proof {
            assert(all.take(i + 1).drop_last() =~= all.take(i as int));
            assert(all.take(i + 1).last() == (table@[i as int].0@, table@[i as int].1@));
        }
        match tag_of(&table[i].1, floats) {
            Some(v) => {
                tags.insert(table[i].0.as_str(), v);
            },
            None => {
                proof {
                    tags_stop(all, i + 1, *floats);
                }
                return None;
            },
        }
        i = i + 1;
    }
    assert(all.take(i as int) =~= all);
    Some(tags)
}

pub open spec fn text_or_empty(s: Option<Seq<char>>) -> Seq<char> {
    match s {
        Some(t) => t,
        None => Seq::empty(),
    }
}

/// What a tag says, as it is written; nothing where it is absent.
pub open spec fn tag_text(tags: Map<Seq<char>, TagV>, key: Seq<char>) -> Seq<char> {
    if tags.dom().contains(key) {
        render(tags[key])
    } else {
        Seq::empty()
    }
}

pub open spec fn number_in(d: DataV, key: Seq<char>) -> Option<Seq<char>> {
    match d.get(key) {
        Some(v) => v.as_number(),
        None => None,
    }
}

pub open spec fn measured(
    metric: (Seq<char>, DataV),
    run_id: Seq<char>,
    tags: Map<Seq<char>, TagV>,
) -> MeasurementV {
    MeasurementV {
        series: tag_text(tags, "impl"@),
        x: 0,
        y: number_in(metric.1, "point"@),
        lower: number_in(metric.1, "lower"@),
        upper: number_in(metric.1, "upper"@),
        run_id,
        metric_name: metric.0,
        tags,
    }
}

/// The measurements of one point: one for each of its metrics; none where its tags or
/// its metrics do not read.
pub open spec fn point_measurements(point: DataV, run_id: Seq<char>, floats: Floats) -> Seq<
    MeasurementV,
> {
    match point.get("tags"@) {
        Some(DataV::Table(table)) => match tags_in(table, floats) {
            Some(tags) => match point.get("metrics"@) {
                Some(DataV::Table(metrics)) => Seq::new(
                    metrics.len(),
                    |i: int| measured(metrics[i], run_id, tags),
                ),
                _ => Seq::empty(),
            },
            None => Seq::empty(),
        },
        _ => Seq::empty(),
    }
}

pub open spec fn all_measurements(points: Seq<DataV>, run_id: Seq<char>, floats: Floats) -> Seq<
    MeasurementV,
>
    decreases points.len(),
{
    if points.len() == 0 {
        Seq::empty()
    } else {
        all_measurements(points.drop_last(), run_id, floats) + point_measurements(
            points.last(),
            run_id,
            floats,
        )
    }
}

pub open spec fn meta_in(run: DataV) -> RunMetaV {
    RunMetaV {
        run_id: text_or_empty(get_text(Some(run), "run_id"@)),
        started_at: text_or_empty(get_text(Some(run), "started_at"@)),
        runner: text_or_empty(get_text(Some(run), "runner"@)),
        machine_hash: text_or_empty(get_text(Some(run), "machine_hash"@)),
    }
}

/// What a document holds, or what it lacks. The document's own schema version gates
/// anything that is not known here.
pub open spec fn loaded(doc: DataV, floats: Floats) -> Result<LoadedDocV, Seq<char>> {
    match doc.get("schema_version"@) {
        Some(v) => match v.as_natural() {
            Some(schema) => if schema != SCHEMA_VERSION {
                Err("schema "@ + dec(schema as nat) + " is not ours"@)
            } else {
                match doc.get("run"@) {
                    Some(run) => match doc.get("points"@) {
                        Some(DataV::List(points)) => Ok(
                            LoadedDocV {
                                meta: meta_in(run),
                                measurements: all_measurements(
                                    points,
                                    meta_in(run).run_id,
                                    floats,
                                ),
                            },
                        ),
                        _ => Err("missing points"@),
                    },
                    None => Err("missing run"@),
                }
            },
            None => Err("missing schema_version"@),
        },
        None => Err("missing schema_version"@),
    }
}

pub open spec fn loaded_at(path: Seq<char>, r: Result<LoadedDocV, Seq<char>>) -> Result<
    LoadedDocV,
    LoadErrorV,
> {
    match r {
        Ok(d) => Ok(d),
        Err(message) => Err(LoadErrorV { path, message }),
    }
}

pub open spec fn load_result(r: Result<LoadedDoc, LoadError>) -> Result<LoadedDocV, LoadErrorV> {
    match r {
        Ok(d) => Ok(d@),
        Err(e) => Err(e@),
    }
}

fn owned_text(run: &Data, key: &str) -> (r: String)
    ensures
        r@ == text_or_empty(get_text(Some(run@), key@)),
{
    match run.text_at(key) {
        Some(s) => s.clone(),
        None => {
            let s = String::new();
            assert(s@ =~= Seq::empty());
            s
        },
    }
}

fn owned_tag(tags: &TagMap, key: &str) -> (r: String)
    ensures
        r@ == tag_text(tags@, key@),
{
    match tags.get(key) {
        Some(v) => v.to_string(),
        None => {
            let s = String::new();
            assert(s@ =~= Seq::empty());
            s
        },
    }
}

fn owned_number(d: &Data, key: &str) -> (r: Option<String>)
    ensures
        option_text(r) == number_in(d@, key@),
{
    match d.get(key) {
        Some(v) => match v.as_number() {
            Some(s) => Some(s.clone()),
            None => None,
        },
        None => None,
    }
}

fn read_point(point: &Data, run_id: &str, floats: &Floats, out: &mut Vec<Measurement>)
    ensures
        measurements(final(out)@) == measurements(old(out)@) + point_measurements(
            point@,
            run_id@,
            *floats,
        ),
{
    let ghost start = measurements(out@);
    assert(start + Seq::<MeasurementV>::empty() =~= start);
    let table = match point.get("tags") {
        Some(v) => match v.as_table() {
            Some(t) => t,
            None => {
                return;
            },
        },
        None => {
            return;
        },
    };
    let tags = match tags_of(table, floats) {
        Some(t) => t,
        None => {
            return;
        },
    };
    let metrics = match point.get("metrics") {
        Some(v) => match v.as_table() {
            Some(t) => t,
            None => {
                return;
            },
        },
        None => {
            return;
        },
    };
    let ghost added = point_measurements(point@, run_id@, *floats);
    let mut i: usize = 0;
    assert(measurements(out@) =~= start + added.take(0));
    while i < metrics.len()
        invariant
            i <= metrics@.len() == added.len(),
            forall|j: int|
                0 <= j < added.len() ==> #[trigger] added[j] == measured(
                    entries_of(metrics@)[j],
                    run_id@,
                    tags@,
                ),
            measurements(out@) == start + added.take(i as int),
        decreases metrics@.len() - i,
    {
        let m = Measurement {
            series: owned_tag(&tags, "impl"),
            x: 0,
            y: owned_number(&metrics[i].1, "point"),
            lower: owned_number(&metrics[i].1, "lower"),
            upper: owned_number(&metrics[i].1, "upper"),
            run_id: run_id.to_owned(),
            metric_name: metrics[i].0.clone(),
            tags: tags.clone(),
        };
        let ghost before = out@;
        out.push(m);
        proof {
            assert(entries_of(metrics@)[i as int] == (
                metrics@[i as int].0@,
                metrics@[i as int].1@,
            ));
            assert(m@ == added[i as int]);
            assert(measurements(out@) =~= measurements(before).push(m@));
            assert(added.take(i + 1) =~= added.take(i as int).push(added[i as int]));
            assert(measurements(out@) =~= start + added.take(i + 1));
        }
        i = i + 1;
    }
    assert(added.take(i as int) =~= added);
}

fn bad(path: &str, message: &str) -> (r: LoadError)
    ensures
        r@ == (LoadErrorV { path: path@, message: message@ }),
{
    LoadError { path: path.to_owned(), message: message.to_owned() }
}

/// Load a run document that has been read as JSON.
pub fn document_of(path: &str, doc: &Data, floats: &Floats) -> (r: Result<LoadedDoc, LoadError>)
    ensures
        load_result(r) == loaded_at(path@, loaded(doc@, *floats)),
{
    let schema: u64 = match doc.get("schema_version") {
        Some(v) => match v.as_natural() {
            Some(n) => n,
            None => {
                return Err(bad(path, "missing schema_version"));
            },
        },
        None => {
            return Err(bad(path, "missing schema_version"));
        },
    };
    if schema != SCHEMA_VERSION as u64 {
        let mut m = "schema ".to_owned();
        m.append(decimal(schema).as_str());
        m.append(" is not ours");
        return Err(bad(path, m.as_str()));
    }
    let run = match doc.get("run") {
        Some(v) => v,
        None => {
            return Err(bad(path, "missing run"));
        },
    };
    let meta = RunMeta {
        run_id: owned_text(run, "run_id"),
        started_at: owned_text(run, "started_at"),
        runner: owned_text(run, "runner"),
        machine_hash: owned_text(run, "machine_hash"),
    };
    let points = match doc.get("points") {
        Some(v) => match v.as_list() {
            Some(l) => l,
            None => {
                return Err(bad(path, "missing points"));
            },
        },
        None => {
            return Err(bad(path, "missing points"));
        },
    };
    let ghost all = views(points@);
    let mut out: Vec<Measurement> = Vec::new();
    let mut i: usize = 0;
    assert(measurements(out@) =~= all_measurements(all.take(0), meta@.run_id, *floats));
    while i < points.len()
        invariant
            i <= points@.len(),
            all == views(points@),
            measurements(out@) == all_measurements(all.take(i as int), meta@.run_id, *floats),
        decreases points@.len() - i,
    {
        proof {
            assert(all.take(i + 1).drop_last() =~= all.take(i as int));
            assert(all.take(i + 1).last() == points@[i as int]@);
        }
        read_point(&points[i], meta.run_id.as_str(), floats, &mut out);
        i = i + 1;
    }
    assert(all.take(i as int) =~= all);
    Ok(LoadedDoc { meta, measurements: out })
}

/// What a document's text, or the failure to read it, comes to.
pub open spec fn document_result(read: Result<Seq<char>, Seq<char>>, floats: Floats) -> Result<
    LoadedDocV,
    Seq<char>,
> {
    match read {
        Err(e) => Err("cannot read: "@ + e),
        Ok(text) => match json_document(text) {
            Err(e) => Err("bad JSON: "@ + e),
            Ok(doc) => loaded(doc, floats),
        },
    }
}

/// Load one run document from its text, or say why it cannot be.
pub fn load_document(path: &str, read: &Result<String, String>, floats: &Floats) -> (r: Result<
    LoadedDoc,
    LoadError,
>)
    ensures
        load_result(r) == loaded_at(
            path@,
            document_result(crate::text::outcome_text(*read), *floats),
        ),
{
    match read {
        Err(e) => {
            let mut m = "cannot read: ".to_owned();
            m.append(e.as_str());
            Err(bad(path, m.as_str()))
        },
        Ok(text) => match parse_json(text.as_str()) {
            Err(e) => {
                let mut m = "bad JSON: ".to_owned();
                m.append(e.as_str());
                Err(bad(path, m.as_str()))
            },
            Ok(doc) => document_of(path, &doc, floats),
        },
    }
}

// ---------------------------------------------------------------- numbers to be read

/// The numbers of a document that are no integers, as they are written.
pub open spec fn fractions_in(d: DataV) -> Seq<Seq<char>>
    decreases d,
{
    match d {
        DataV::Number { integer, text, .. } => if integer is None {
            seq![text]
        } else {
            Seq::empty()
        },
        DataV::List(items) => fractions_in_items(items),
        DataV::Table(entries) => fractions_in_entries(entries),
        _ => Seq::empty(),
    }
}

pub open spec fn fractions_in_items(items: Seq<DataV>) -> Seq<Seq<char>>
    decreases items,
{
    if items.len() == 0 {
        Seq::empty()
    } else {
        fractions_in_items(items.drop_last()) + fractions_in(items.last())
    }
}

pub open spec fn fractions_in_entries(entries: Seq<(Seq<char>, DataV)>) -> Seq<Seq<char>>
    decreases entries,
{
    if entries.len() == 0 {
        Seq::empty()
    } else {
        fractions_in_entries(entries.drop_last()) + fractions_in(entries.last().1)
    }
}

fn collect_fractions(d: &Data, out: &mut Vec<String>)
    ensures
        texts(final(out)@) == texts(old(out)@) + fractions_in(d@),
    decreases *d,
{
    let ghost start = texts(out@);
    match d {
        Data::Number(n) => {
            if n.integer.is_none() {
                out.push(n.text.clone());
                assert(texts(out@) =~= start + fractions_in(d@));
            } else {
                assert(texts(out@) =~= start + fractions_in(d@));
            }
        },
        Data::List(items) => {
            let ghost all = d@->List_0;
            let mut i: usize = 0;
            assert(texts(out@) =~= start + fractions_in_items(all.take(0)));
            while i < items.len()
                invariant
                    *d == Data::List(*items),
                    all == d@->List_0,
                    i <= items@.len() == all.len(),
                    texts(out@) == start + fractions_in_items(all.take(i as int)),
                decreases items@.len() - i,
            {
                assert(all.take(i + 1).drop_last() =~= all.take(i as int));
                assert(all[i as int] == items@[i as int]@);
                collect_fractions(&items[i], out);
                assert(texts(out@) =~= start + fractions_in_items(all.take(i + 1)));
                i = i + 1;
            }
            assert(all.take(i as int) =~= all);
        },
        Data::Table(entries) => {
            let ghost all = d@->Table_0;
            let mut i: usize = 0;
            assert(texts(out@) =~= start + fractions_in_entries(all.take(0)));
            while i < entries.len()
                invariant
                    *d == Data::Table(*entries),
                    all == d@->Table_0,
                    i <= entries@.len() == all.len(),
                    texts(out@) == start + fractions_in_entries(all.take(i as int)),
                decreases entries@.len() - i,
            {
                assert(all.take(i + 1).drop_last() =~= all.take(i as int));
                assert(all[i as int] == (entries@[i as int].0@, entries@[i as int].1@));
                collect_fractions(&entries[i].1, out);
                assert(texts(out@) =~= start + fractions_in_entries(all.take(i + 1)));
                i = i + 1;
            }
            assert(all.take(i as int) =~= all);
        },
        _ => {
            assert(texts(out@) =~= start + fractions_in(d@));
        },
    }
}

/// The texts that have to be read as numbers before a document can be loaded.
pub fn fractions(text: &str) -> (r: Vec<String>)
    ensures
        texts(r@) == (match json_document(text@) {
            Ok(doc) => fractions_in(doc),
            Err(_) => Seq::empty(),
        }),
{
    let mut out: Vec<String> = Vec::new();
    assert(texts(out@) =~= Seq::empty());
    match parse_json(text) {
        Ok(doc) => {
            collect_fractions(&doc, &mut out);
            assert(texts(out@) =~= fractions_in(doc@));
        },
        Err(_) => {},
    }
    out
}

// ---------------------------------------------------------------- which documents

/// Whether a file name is that of a document.
pub open spec fn is_document(name: Seq<char>) -> bool {
    name.len() > 5 && ".json"@.is_suffix_of(name)
}

pub fn document_name(name: &str) -> (r: bool)
    ensures
        r == is_document(name@),
{
    name.unicode_len() > 5 && ends_with(name, ".json")
}

/// A file found: its name, which starts with the time of its run, and its path.
pub type Found = (String, String);

pub open spec fn found(v: Seq<Found>) -> Seq<(Seq<char>, Seq<char>)> {
    Seq::new(v.len(), |i: int| (v[i].0@, v[i].1@))
}

/// Where a file goes among files from the newest to the oldest: behind all that are
/// not older.
pub open spec fn place_of(list: Seq<(Seq<char>, Seq<char>)>, name: Seq<char>) -> int
    decreases list.len(),
{
    if list.len() == 0 || text_lt(list[0].0, name) {
        0
    } else {
        1 + place_of(list.drop_first(), name)
    }
}

/// The files from the newest to the oldest; files of one name keep their order.
pub open spec fn newest_first(files: Seq<(Seq<char>, Seq<char>)>) -> Seq<(Seq<char>, Seq<char>)>
    decreases files.len(),
{
    if files.len() == 0 {
        Seq::empty()
    } else {
        let list = newest_first(files.drop_last());
        list.insert(place_of(list, files.last().0), files.last())
    }
}

pub open spec fn capped<T>(s: Seq<T>, most: nat) -> Seq<T> {
    if s.len() <= most {
        s
    } else {
        s.take(most as int)
    }
}

proof fn place_is(list: Seq<(Seq<char>, Seq<char>)>, name: Seq<char>, at: int)
    requires
        0 <= at <= list.len(),
        forall|i: int| 0 <= i < at ==> !text_lt((#[trigger] list[i]).0, name),
        at < list.len() ==> text_lt(list[at].0, name),
    ensures
        place_of(list, name) == at,
    decreases at,
{
    if at > 0 {
        assert(!text_lt(list[0].0, name));
        let rest = list.drop_first();
        assert forall|i: int| 0 <= i < at - 1 implies !text_lt((#[trigger] rest[i]).0, name) by {
            assert(rest[i] == list[i + 1]);
        }
        place_is(rest, name, at - 1);
    }
}

/// Names descend.
pub open spec fn descending(list: Seq<(Seq<char>, Seq<char>)>) -> bool {
    forall|i: int, j: int|
        0 <= i < j < list.len() ==> !text_lt((#[trigger] list[i]).0, (#[trigger] list[j]).0)
}

proof fn place_bounds(list: Seq<(Seq<char>, Seq<char>)>, name: Seq<char>)
    ensures
        0 <= place_of(list, name) <= list.len(),
        forall|i: int|
            0 <= i < place_of(list, name) ==> !text_lt((#[trigger] list[i]).0, name),
        place_of(list, name) < list.len() ==> text_lt(list[place_of(list, name)].0, name),
    decreases list.len(),
{
    if list.len() > 0 && !text_lt(list[0].0, name) {
        let rest = list.drop_first();
        place_bounds(rest, name);
        assert forall|i: int| 0 <= i < place_of(list, name) implies !text_lt(
            (#[trigger] list[i]).0,
            name,
        ) by {
            if i > 0 {
                assert(rest[i - 1] == list[i]);
            }
        }
    }
}

/// The newest comes first, and no file is lost or made up.
pub proof fn newest_come_first(files: Seq<(Seq<char>, Seq<char>)>)
    ensures
        descending(newest_first(files)),
        newest_first(files).to_multiset() == files.to_multiset(),
    decreases files.len(),
{
    broadcast use vstd::seq_lib::group_to_multiset_ensures;

    if files.len() > 0 {
        let rest = files.drop_last();
        let list = newest_first(rest);
        let last = files.last();
        newest_come_first(rest);
        place_bounds(list, last.0);
        let at = place_of(list, last.0);
        let all = list.insert(at, last);
        assert forall|i: int, j: int| 0 <= i < j < all.len() implies !text_lt(
            (#[trigger] all[i]).0,
            (#[trigger] all[j]).0,
        ) by {
            let a = if i < at {
                i
            } else {
                i - 1
            };
            let b = if j < at {
                j
            } else {
                j - 1
            };
            if i == at {
                // everything behind the place is older
                assert(text_lt(list[at].0, last.0));
                if b > at {
                    text_lt_total(list[at].0, list[b].0);
                    if list[at].0 != list[b].0 {
                        text_lt_transitive(list[b].0, list[at].0, last.0);
                    }
                }
                if text_lt(last.0, list[b].0) {
                    text_lt_transitive(last.0, list[b].0, last.0);
                    text_lt_irreflexive(last.0);
                }
            } else if j == at {
                assert(!text_lt(list[i].0, last.0));
            } else {
                assert(all[i] == list[a] && all[j] == list[b]);
            }
        }
        assert(files =~= rest.push(last));
        vstd::seq_lib::to_multiset_insert(list, at, last);
    } else {
        assert(files =~= Seq::empty());
    }
}

/// The newest of the files that were found, at most `latest` of them.
pub fn newest(files: &Vec<Found>, latest: usize) -> (r: Vec<Found>)
    ensures
        found(r@) == capped(newest_first(found(files@)), latest as nat),
{
    let ghost all = found(files@);
    let mut list: Vec<Found> = Vec::new();
    let mut i: usize = 0;
    assert(found(list@) =~= newest_first(all.take(0)));
    while i < files.len()
        invariant
            i <= files@.len(),
            all == found(files@),
            found(list@) == newest_first(all.take(i as int)),
        decreases files@.len() - i,
    {
        proof {
            assert(all.take(i + 1).drop_last() =~= all.take(i as int));
            assert(all.take(i + 1).last() == (files@[i as int].0@, files@[i as int].1@));
        }
        let name = files[i].0.as_str();
        let mut at: usize = 0;
        while at < list.len() && !before(list[at].0.as_str(), name)
            invariant
                at <= list@.len(),
                forall|j: int| 0 <= j < at ==> !text_lt((#[trigger] found(list@)[j]).0, name@),
            decreases list@.len() - at,
        {
            at = at + 1;
        }
        let ghost before = found(list@);
        proof {
            place_is(before, name@, at as int);
        }
        let entry = (files[i].0.clone(), files[i].1.clone());
        list.insert(at, entry);
        assert(found(list@) =~= before.insert(at as int, (entry.0@, entry.1@)));
        i = i + 1;
    }
    assert(all.take(i as int) =~= all);
    let ghost whole = found(list@);
    while list.len() > latest
        invariant
            found(list@) == whole.take(list@.len() as int),
            list@.len() <= whole.len(),
            whole.len() > latest ==> list@.len() >= latest,
            whole.len() <= latest ==> list@.len() == whole.len(),
        decreases list@.len(),
    {
        let ghost held = list@;
        list.pop();
        assert(found(list@) =~= found(held).drop_last());
        assert(found(list@) =~= whole.take(list@.len() as int));
    }
    assert(whole.take(whole.len() as int) =~= whole);
    list
}

pub open spec fn documents(rs: Seq<Result<LoadedDoc, LoadError>>) -> Seq<LoadedDocV>
    decreases rs.len(),
{
    if rs.len() == 0 {
        Seq::empty()
    } else {
        match rs.last() {
            Ok(d) => documents(rs.drop_last()).push(d@),
            Err(_) => documents(rs.drop_last()),
        }
    }
}

pub open spec fn faults(rs: Seq<Result<LoadedDoc, LoadError>>) -> Seq<LoadErrorV>
    decreases rs.len(),
{
    if rs.len() == 0 {
        Seq::empty()
    } else {
        match rs.last() {
            Ok(_) => faults(rs.drop_last()),
            Err(e) => faults(rs.drop_last()).push(e@),
        }
    }
}

pub open spec fn docs_of(v: Seq<LoadedDoc>) -> Seq<LoadedDocV> {
    Seq::new(v.len(), |i: int| v[i]@)
}

pub open spec fn errors_of(v: Seq<LoadError>) -> Seq<LoadErrorV> {
    Seq::new(v.len(), |i: int| v[i]@)
}

/// What loading came to: the documents, and the ones that were skipped. A
/// half-finished file among the runs must not poison the chart; only when nothing at
/// all loads is it an error, the first.
pub fn load_runs(loads: Vec<Result<LoadedDoc, LoadError>>) -> (r: Result<
    (Vec<LoadedDoc>, Vec<LoadError>),
    LoadError,
>)
    ensures
        r is Err <==> documents(loads@).len() == 0 && faults(loads@).len() > 0,
        r matches Ok(p) ==> docs_of(p.0@) == documents(loads@) && errors_of(p.1@) == faults(loads@),
        r matches Err(e) ==> e@ == faults(loads@)[0],
{
    let ghost all = loads@;
    let mut rest = loads;
    let mut docs: Vec<LoadedDoc> = Vec::new();
    let mut errors: Vec<LoadError> = Vec::new();
    assert(all.take(0) =~= Seq::empty());
    assert(docs_of(docs@) =~= documents(all.take(0)));
    assert(errors_of(errors@) =~= faults(all.take(0)));
    let ghost mut done: int = 0;
    assert(all.skip(0) =~= all);
    while rest.len() > 0
        invariant
            0 <= done <= all.len(),
            rest@ == all.skip(done),
            docs_of(docs@) == documents(all.take(done)),
            errors_of(errors@) == faults(all.take(done)),
        decreases rest@.len(),
    {
        let ghost d0 = docs@;
        let ghost e0 = errors@;
        let next = rest.remove(0);
        proof {
            assert(all.take(done + 1).drop_last() =~= all.take(done));
            assert(all.take(done + 1).last() == next);
            assert(rest@ =~= all.skip(done + 1));
        }
        match next {
            Ok(d) => {
                docs.push(d);
                assert(docs_of(docs@) =~= docs_of(d0).push(d@));
            },
            Err(e) => {
                errors.push(e);
                assert(errors_of(errors@) =~= errors_of(e0).push(e@));
            },
        }
        proof {
            done = done + 1;
        }
    }
    proof {
        assert(all.take(done) =~= all);
        assert(docs_of(docs@).len() == docs@.len());
        assert(errors_of(errors@).len() == errors@.len());
    }
    if docs.len() == 0 && errors.len() > 0 {
        let first = errors.remove(0);
        assert(first@ == faults(all)[0]);
        return Err(first);
    }
    Ok((docs, errors))
}

/// What is said of a document that was skipped.
pub fn skipped(e: &LoadError) -> (r: String)
    ensures
        r@ == "warning: skipped a run document: "@ + load_error_text(e@),
{
    let mut s = "warning: skipped a run document: ".to_owned();
    s.append(e.to_string().as_str());
    s
}

// ---------------------------------------------------------------- series

/// A point of a series: its place, its value, and its confidence bounds.
#[derive(Debug)]
pub struct Plotted {
    pub x: u64,
    pub y: Option<String>,
    pub lower: Option<String>,
    pub upper: Option<String>,
}

/// What a point of a series shows.
pub struct ShownV {
    pub y: Option<Seq<char>>,
    pub lower: Option<Seq<char>>,
    pub upper: Option<Seq<char>>,
}

/// A series of a chart, ready to plot: its points by their place.
#[derive(Debug)]
pub struct Series {
    pub name: String,
    pub points: Vec<Plotted>,
}

pub struct SeriesV {
    pub name: Seq<char>,
    pub points: Seq<(u64, ShownV)>,
}

impl View for Plotted {
    type V = (u64, ShownV);

    open spec fn view(&self) -> (u64, ShownV) {
        (
            self.x,
            ShownV {
                y: option_text(self.y),
                lower: option_text(self.lower),
                upper: option_text(self.upper),
            },
        )
    }
}

pub open spec fn plotted(v: Seq<Plotted>) -> Seq<(u64, ShownV)> {
    Seq::new(v.len(), |i: int| v[i]@)
}

impl View for Series {
    type V = SeriesV;

    open spec fn view(&self) -> SeriesV {
        SeriesV { name: self.name@, points: plotted(self.points@) }
    }
}

pub open spec fn chart_of(v: Seq<Series>) -> Seq<SeriesV> {
    Seq::new(v.len(), |i: int| v[i]@)
}

/// The place of a tag's value on the x axis: a number's own, and zero for anything
/// that is no number.
pub open spec fn coordinate(tags: Map<Seq<char>, TagV>, key: Option<Seq<char>>, floats: Floats) -> u64 {
    match key {
        Some(k) => if tags.dom().contains(k) {
            match tags[k] {
                TagV::Int(i) => match floats.reading(dec_int(i)) {
                    ReadingV::Finite { bits, .. } => bits,
                    _ => 0,
                },
                TagV::Float { bits, .. } => bits,
                _ => 0,
            }
        } else {
            0
        },
        None => 0,
    }
}

/// What a chart is asked to show: which metric, along which tag, grouped by which.
pub struct AxesV {
    pub metric: Seq<char>,
    pub x_tag: Option<Seq<char>>,
    pub series_tag: Seq<char>,
}

pub open spec fn chosen(m: MeasurementV, set: Seq<Seq<ClauseV>>, axes: AxesV) -> bool {
    m.metric_name == axes.metric && set_admits(set, m.tags, Seq::empty())
}

pub open spec fn chart_key(m: MeasurementV, axes: AxesV, floats: Floats) -> (Seq<char>, u64) {
    (tag_text(m.tags, axes.series_tag), coordinate(m.tags, axes.x_tag, floats))
}

pub open spec fn shown(m: MeasurementV) -> ShownV {
    ShownV { y: m.y, lower: m.lower, upper: m.upper }
}

/// The chart's content: what each place of each series shows. Documents come newest
/// first, and the first measurement seen for a place wins.
pub open spec fn latest(
    ms: Seq<MeasurementV>,
    set: Seq<Seq<ClauseV>>,
    axes: AxesV,
    floats: Floats,
) -> Map<(Seq<char>, u64), ShownV>
    decreases ms.len(),
{
    if ms.len() == 0 {
        Map::empty()
    } else {
        let seen = latest(ms.drop_last(), set, axes, floats);
        let m = ms.last();
        let key = chart_key(m, axes, floats);
        if chosen(m, set, axes) && !seen.dom().contains(key) {
            seen.insert(key, shown(m))
        } else {
            seen
        }
    }
}

/// All measurements of some documents, in their order.
pub open spec fn of_all(docs: Seq<LoadedDocV>) -> Seq<MeasurementV>
    decreases docs.len(),
{
    if docs.len() == 0 {
        Seq::empty()
    } else {
        of_all(docs.drop_last()) + docs.last().measurements
    }
}

pub open spec fn names_ascend(chart: Seq<SeriesV>) -> bool {
    forall|i: int, j: int|
        0 <= i < j < chart.len() ==> text_lt((#[trigger] chart[i]).name, (#[trigger] chart[j]).name)
}

/// Places ascend in the order of the numbers they are.
pub open spec fn places_ascend(points: Seq<(u64, ShownV)>) -> bool {
    forall|i: int, j: int|
        0 <= i < j < points.len() ==> total_key((#[trigger] points[i]).0) < total_key(
            (#[trigger] points[j]).0,
        )
}

pub open spec fn has_point(s: SeriesV, x: u64) -> bool {
    exists|a: int| 0 <= a < s.points.len() && (#[trigger] s.points[a]).0 == x
}

pub open spec fn lists_key(chart: Seq<SeriesV>, key: (Seq<char>, u64)) -> bool {
    exists|i: int|
        0 <= i < chart.len() && (#[trigger] chart[i]).name == key.0 && has_point(chart[i], key.1)
}

/// A chart lists a content: its series by their names, each with its points by their
/// places, every place of the content and nothing else.
pub open spec fn lists(chart: Seq<SeriesV>, content: Map<(Seq<char>, u64), ShownV>) -> bool {
    &&& names_ascend(chart)
    &&& forall|i: int|
        0 <= i < chart.len() ==> (#[trigger] chart[i]).points.len() > 0 && places_ascend(
            chart[i].points,
        )
    &&& forall|i: int, a: int|
        0 <= i < chart.len() && 0 <= a < chart[i].points.len() ==> content.dom().contains(
            (chart[i].name, (#[trigger] chart[i].points[a]).0),
        ) && content[(chart[i].name, chart[i].points[a].0)] == chart[i].points[a].1
    &&& forall|key: (Seq<char>, u64)| #[trigger]
        content.dom().contains(key) ==> lists_key(chart, key)
}

proof fn key_of_bits_differs(a: u64, b: u64)
    requires
        total_key(a) == total_key(b),
    ensures
        a == b,
{
}

/// A new series takes its place among the names.
proof fn a_new_series(
    chart: Seq<SeriesV>,
    content: Map<(Seq<char>, u64), ShownV>,
    at: int,
    name: Seq<char>,
    x: u64,
    v: ShownV,
)
    requires
        lists(chart, content),
        0 <= at <= chart.len(),
        forall|i: int| 0 <= i < at ==> text_lt((#[trigger] chart[i]).name, name),
        at < chart.len() ==> text_lt(name, chart[at].name),
    ensures
        !content.dom().contains((name, x)),
        lists(
            chart.insert(at, SeriesV { name, points: seq![(x, v)] }),
            content.insert((name, x), v),
        ),
{
    let s = SeriesV { name, points: seq![(x, v)] };
    let out = chart.insert(at, s);
    let after = content.insert((name, x), v);
    assert forall|i: int| 0 <= i < chart.len() implies (#[trigger] chart[i]).name != name by {
        if i >= at {
            if i > at {
                text_lt_transitive(name, chart[at].name, chart[i].name);
            }
        }
        text_lt_irreflexive(name);
    }
    if content.dom().contains((name, x)) {
        assert(lists_key(chart, (name, x)));
    }
    assert forall|i: int, j: int| 0 <= i < j < out.len() implies text_lt(
        (#[trigger] out[i]).name,
        (#[trigger] out[j]).name,
    ) by {
        if i == at {
            if j - 1 > at {
                text_lt_transitive(name, chart[at].name, chart[j - 1].name);
            }
        } else if j == at {
        } else {
            let a = if i < at {
                i
            } else {
                i - 1
            };
            let b = if j < at {
                j
            } else {
                j - 1
            };
            assert(out[i] == chart[a] && out[j] == chart[b]);
        }
    }
    assert forall|i: int| 0 <= i < out.len() implies (#[trigger] out[i]).points.len() > 0
        && places_ascend(out[i].points) by {
        if i != at {
            let a = if i < at {
                i
            } else {
                i - 1
            };
            assert(out[i] == chart[a]);
        }
    }
    assert forall|i: int, a: int|
        0 <= i < out.len() && 0 <= a < out[i].points.len() implies after.dom().contains(
        (out[i].name, (#[trigger] out[i].points[a]).0),
    ) && after[(out[i].name, out[i].points[a].0)] == out[i].points[a].1 by {
        if i != at {
            let b = if i < at {
                i
            } else {
                i - 1
            };
            assert(out[i] == chart[b]);
            assert(chart[b].points[a] == out[i].points[a]);
        }
    }
    assert forall|key: (Seq<char>, u64)| #[trigger] after.dom().contains(key) implies lists_key(
        out,
        key,
    ) by {
        if key == (name, x) {
            assert(out[at] == s);
            assert(s.points[0].0 == x);
            assert(has_point(out[at], x));
        } else {
            assert(content.dom().contains(key));
            let b = choose|i: int|
                0 <= i < chart.len() && (#[trigger] chart[i]).name == key.0 && has_point(
                    chart[i],
                    key.1,
                );
            let i = if b < at {
                b
            } else {
                b + 1
            };
            assert(out[i] == chart[b]);
        }
    }
}

proof fn points_make_room(points: Seq<(u64, ShownV)>, q: int, x: u64, v: ShownV)
    requires
        places_ascend(points),
        0 <= q <= points.len(),
        forall|a: int| 0 <= a < q ==> total_key((#[trigger] points[a]).0) < total_key(x),
        q < points.len() ==> total_key(x) < total_key(points[q].0),
    ensures
        places_ascend(points.insert(q, (x, v))),
        forall|a: int| 0 <= a < points.len() ==> (#[trigger] points[a]).0 != x,
{
    let all = points.insert(q, (x, v));
    assert forall|a: int| 0 <= a < points.len() implies (#[trigger] points[a]).0 != x by {
        if a > q {
            assert(total_key(points[q].0) < total_key(points[a].0));
        }
    }
    assert forall|i: int, j: int| 0 <= i < j < all.len() implies total_key((#[trigger] all[i]).0)
        < total_key((#[trigger] all[j]).0) by {
        if i == q {
            if j - 1 > q {
                assert(total_key(points[q].0) < total_key(points[j - 1].0));
            }
            assert(all[j] == points[j - 1]);
        } else if j == q {
            assert(all[i] == points[i]);
        } else {
            let a = if i < q {
                i
            } else {
                i - 1
            };
            let b = if j < q {
                j
            } else {
                j - 1
            };
            assert(all[i] == points[a] && all[j] == points[b]);
        }
    }
}

proof fn not_listed(chart: Seq<SeriesV>, content: Map<(Seq<char>, u64), ShownV>, at: int, x: u64)
    requires
        lists(chart, content),
        0 <= at < chart.len(),
        forall|a: int|
            0 <= a < chart[at].points.len() ==> (#[trigger] chart[at].points[a]).0 != x,
    ensures
        !content.dom().contains((chart[at].name, x)),
{
    let name = chart[at].name;
    if content.dom().contains((name, x)) {
        assert(lists_key(chart, (name, x)));
        let b = choose|i: int|
            0 <= i < chart.len() && (#[trigger] chart[i]).name == name && has_point(chart[i], x);
        text_lt_irreflexive(name);
        assert(b == at);
    }
}

/// A new place takes its own within its series.
proof fn a_new_place(
    chart: Seq<SeriesV>,
    content: Map<(Seq<char>, u64), ShownV>,
    at: int,
    q: int,
    x: u64,
    v: ShownV,
)
    requires
        lists(chart, content),
        0 <= at < chart.len(),
        0 <= q <= chart[at].points.len(),
        forall|a: int|
            0 <= a < q ==> total_key((#[trigger] chart[at].points[a]).0) < total_key(x),
        q < chart[at].points.len() ==> total_key(x) < total_key(chart[at].points[q].0),
    ensures
        !content.dom().contains((chart[at].name, x)),
        lists(
            chart.update(
                at,
                SeriesV { name: chart[at].name, points: chart[at].points.insert(q, (x, v)) },
            ),
            content.insert((chart[at].name, x), v),
        ),
{
    let old_points = chart[at].points;
    let points = old_points.insert(q, (x, v));
    let name = chart[at].name;
    let s = SeriesV { name, points };
    let out = chart.update(at, s);
    let after = content.insert((name, x), v);
    points_make_room(old_points, q, x, v);
    not_listed(chart, content, at, x);
    assert(names_ascend(out)) by {
        assert forall|i: int, j: int| 0 <= i < j < out.len() implies text_lt(
            (#[trigger] out[i]).name,
            (#[trigger] out[j]).name,
        ) by {
            assert(out[i].name == chart[i].name && out[j].name == chart[j].name);
        }
    }
    assert forall|i: int, a: int|
        0 <= i < out.len() && 0 <= a < out[i].points.len() implies after.dom().contains(
        (out[i].name, (#[trigger] out[i].points[a]).0),
    ) && after[(out[i].name, out[i].points[a].0)] == out[i].points[a].1 by {
        if i != at {
            assert(chart[i].points[a] == out[i].points[a]);
            text_lt_irreflexive(name);
            assert(chart[i].name != name);
        } else if a != q {
            let b = if a < q {
                a
            } else {
                a - 1
            };
            assert(chart[at].points[b] == points[a]);
            assert(old_points[b].0 != x);
        }
    }
    assert forall|key: (Seq<char>, u64)| #[trigger] after.dom().contains(key) implies lists_key(
        out,
        key,
    ) by {
        if key == (name, x) {
            assert(out[at] == s);
            assert(out[at].points[q].0 == x);
            assert(has_point(out[at], x));
        } else {
            assert(content.dom().contains(key));
            let b = choose|i: int|
                0 <= i < chart.len() && (#[trigger] chart[i]).name == key.0 && has_point(
                    chart[i],
                    key.1,
                );
            if b == at {
                let a = choose|a: int|
                    0 <= a < old_points.len() && (#[trigger] old_points[a]).0 == key.1;
                let c = if a < q {
                    a
                } else {
                    a + 1
                };
                assert(out[at] == s);
                assert(out[at].points[c] == old_points[a]);
                assert(has_point(out[at], key.1));
            } else {
                assert(out[b] == chart[b]);
            }
        }
    }
}

proof fn listed_already(
    chart: Seq<SeriesV>,
    content: Map<(Seq<char>, u64), ShownV>,
    at: int,
    q: int,
)
    requires
        lists(chart, content),
        0 <= at < chart.len(),
        0 <= q < chart[at].points.len(),
    ensures
        content.dom().contains((chart[at].name, chart[at].points[q].0)),
{
    let p = chart[at].points[q];
}

fn numeric_before(a: u64, b: u64) -> (r: bool)
    ensures
        r == (total_key(a) < total_key(b)),
{
    let low: u64 = 0x8000_0000_0000_0000;
    if a < low {
        b < low && a < b
    } else {
        b < low || b < a
    }
}

/// Show a point at its place, unless something is shown there already.
fn place(chart: &mut Vec<Series>, name: String, point: Plotted, Ghost(content): Ghost<
    Map<(Seq<char>, u64), ShownV>,
>)
    requires
        lists(chart_of(old(chart)@), content),
    ensures
        lists(
            chart_of(final(chart)@),
            if content.dom().contains((name@, point.x)) {
                content
            } else {
                content.insert((name@, point.x), point@.1)
            },
        ),
{
    let ghost start = chart_of(chart@);
    let mut at: usize = 0;
    while at < chart.len() && before(chart[at].name.as_str(), name.as_str())
        invariant
            at <= chart@.len(),
            start == chart_of(chart@),
            forall|i: int| 0 <= i < at ==> text_lt((#[trigger] start[i]).name, name@),
        decreases chart@.len() - at,
    {
        assert(start[at as int] == chart@[at as int]@);
        at = at + 1;
    }
    if at < chart.len() && same(chart[at].name.as_str(), name.as_str()) {
        assert(start[at as int] == chart@[at as int]@);
        let mut q: usize = 0;
        while q < chart[at as usize].points.len() && numeric_before(chart[at].points[q].x, point.x)
            invariant
                at < chart@.len(),
                start == chart_of(chart@),
                start[at as int] == chart@[at as int]@,
                q <= chart@[at as int].points@.len(),
                forall|a: int|
                    0 <= a < q ==> total_key((#[trigger] start[at as int].points[a]).0) < total_key(
                        point.x,
                    ),
            decreases chart@[at as int].points@.len() - q,
        {
            assert(start[at as int].points[q as int] == chart@[at as int].points@[q as int]@);
            q = q + 1;
        }
        if q < chart[at].points.len() {
            assert(start[at as int].points[q as int] == chart@[at as int].points@[q as int]@);
        }
        if q < chart[at].points.len() && chart[at].points[q].x == point.x {
            proof {
                listed_already(start, content, at as int, q as int);
            }
            return;
        }
        proof {
            if q < start[at as int].points.len() {
                let p = start[at as int].points[q as int];
                if total_key(p.0) == total_key(point.x) {
                    key_of_bits_differs(p.0, point.x);
                }
            }
            a_new_place(start, content, at as int, q as int, point.x, point@.1);
        }
        let mut s = chart.remove(at);
        let ghost s0 = s@;
        s.points.insert(q, point);
        assert(s@.points =~= s0.points.insert(q as int, point@));
        chart.insert(at, s);
        assert(chart_of(chart@) =~= start.update(
            at as int,
            SeriesV { name: s0.name, points: s0.points.insert(q as int, point@) },
        ));
    } else {
        proof {
            if at < start.len() {
                assert(start[at as int] == chart@[at as int]@);
                text_lt_total(start[at as int].name, name@);
            }
            a_new_series(start, content, at as int, name@, point.x, point@.1);
        }
        let mut points: Vec<Plotted> = Vec::new();
        points.push(point);
        let s = Series { name, points };
        assert(s@.points =~= seq![point@]);
        chart.insert(at, s);
        assert(chart_of(chart@) =~= start.insert(at as int, s@));
    }
}

fn coordinate_of(tags: &TagMap, key: Option<&str>, floats: &Floats) -> (r: u64)
    ensures
        r == coordinate(
            tags@,
            match key {
                Some(k) => Some(k@),
                None => None,
            },
            *floats,
        ),
{
    match key {
        Some(k) => match tags.get(k) {
            Some(TagValue::Int(i)) => match floats.read(decimal_signed(*i).as_str()) {
                FloatReading::Finite(f) => f.bits,
                _ => 0,
            },
            Some(TagValue::Float(f)) => f.bits,
            _ => 0,
        },
        None => 0,
    }
}

proof fn latest_over(
    a: Seq<MeasurementV>,
    b: Seq<MeasurementV>,
    i: int,
)
    requires
        0 <= i < b.len(),
    ensures
        (a + b.take(i + 1)).drop_last() == a + b.take(i),
        (a + b.take(i + 1)).last() == b[i],
{
    assert((a + b.take(i + 1)).drop_last() =~= a + b.take(i));
}

/// Build a chart from loaded runs.
///
/// - `selector` filters points by their tag maps, in the same grammar as runs.
/// - `metric` picks which metric to plot.
/// - `x_tag` is the axis; without one every point is at zero.
/// - `series_tag` groups the points.
/// - Documents arrive newest first and the first point seen for a place of a series
///   wins.
pub fn build_series(
    docs: &Vec<LoadedDoc>,
    selector: &SelectorSet,
    metric: &str,
    x_tag: Option<&str>,
    series_tag: &str,
    floats: &Floats,
) -> (r: Vec<Series>)
    ensures
        lists(
            chart_of(r@),
            latest(
                of_all(docs_of(docs@)),
                selector@,
                AxesV {
                    metric: metric@,
                    x_tag: match x_tag {
                        Some(k) => Some(k@),
                        None => None,
                    },
                    series_tag: series_tag@,
                },
                *floats,
            ),
        ),
{
    let ghost axes = AxesV {
        metric: metric@,
        x_tag: match x_tag {
            Some(k) => Some(k@),
            None => None,
        },
        series_tag: series_tag@,
    };
    let ghost all = docs_of(docs@);
    let mut chart: Vec<Series> = Vec::new();
    let mut d: usize = 0;
    assert(of_all(all.take(0)) =~= Seq::empty());
    while d < docs.len()
        invariant
            d <= docs@.len(),
            all == docs_of(docs@),
            axes == (AxesV {
                metric: metric@,
                x_tag: match x_tag {
                    Some(k) => Some(k@),
                    None => None,
                },
                series_tag: series_tag@,
            }),
            lists(chart_of(chart@), latest(of_all(all.take(d as int)), selector@, axes, *floats)),
        decreases docs@.len() - d,
    {
        let ghost done = of_all(all.take(d as int));
        let ghost ms = measurements(docs@[d as int].measurements@);
        let mut i: usize = 0;
        assert(done + ms.take(0) =~= done);
        while i < docs[d].measurements.len()
            invariant
                d < docs@.len(),
                i <= docs@[d as int].measurements@.len(),
                ms == measurements(docs@[d as int].measurements@),
                axes == (AxesV {
                    metric: metric@,
                    x_tag: match x_tag {
                        Some(k) => Some(k@),
                        None => None,
                    },
                    series_tag: series_tag@,
                }),
                lists(
                    chart_of(chart@),
                    latest(done + ms.take(i as int), selector@, axes, *floats),
                ),
            decreases docs@[d as int].measurements@.len() - i,
        {
            let m = &docs[d].measurements[i];
            proof {
                assert(ms[i as int] == m@);
                latest_over(done, ms, i as int);
            }
            if same(m.metric_name.as_str(), metric) && selector.admits_point(&m.tags) {
                let name = owned_tag(&m.tags, series_tag);
                let x = coordinate_of(&m.tags, x_tag, floats);
                let point = Plotted {
                    x,
                    y: copy_option(&m.y),
                    lower: copy_option(&m.lower),
                    upper: copy_option(&m.upper),
                };
                place(
                    &mut chart,
                    name,
                    point,
                    Ghost(latest(done + ms.take(i as int), selector@, axes, *floats)),
                );
            }
            i = i + 1;
        }
        proof {
            assert(ms.take(i as int) =~= ms);
            assert(all.take(d + 1).drop_last() =~= all.take(d as int));
            assert(all.take(d + 1).last() == docs@[d as int]@);
        }
        d = d + 1;
    }
    assert(all.take(d as int) =~= all);
    chart
}

/// What was seen first stays: older documents never change what a chart shows.
pub proof fn the_latest_wins(
    newer: Seq<MeasurementV>,
    older: Seq<MeasurementV>,
    set: Seq<Seq<ClauseV>>,
    axes: AxesV,
    floats: Floats,
    key: (Seq<char>, u64),
)
    requires
        latest(newer, set, axes, floats).dom().contains(key),
    ensures
        latest(newer + older, set, axes, floats).dom().contains(key),
        latest(newer + older, set, axes, floats)[key] == latest(newer, set, axes, floats)[key],
    decreases older.len(),
{
    if older.len() == 0 {
        assert(newer + older =~= newer);
    } else {
        the_latest_wins(newer, older.drop_last(), set, axes, floats, key);
        assert((newer + older).drop_last() =~= newer + older.drop_last());
    }
}

/// Everything that a chart shows was chosen, and everything chosen has its place
/// shown.
pub proof fn charts_show_what_was_chosen(
    ms: Seq<MeasurementV>,
    set: Seq<Seq<ClauseV>>,
    axes: AxesV,
    floats: Floats,
)
    ensures
        forall|i: int|
            0 <= i < ms.len() && chosen(#[trigger] ms[i], set, axes) ==> latest(
                ms,
                set,
                axes,
                floats,
            ).dom().contains(chart_key(ms[i], axes, floats)),
        forall|key: (Seq<char>, u64)| #[trigger]
            latest(ms, set, axes, floats).dom().contains(key) ==> exists|i: int|
                0 <= i < ms.len() && chosen(#[trigger] ms[i], set, axes) && chart_key(
                    ms[i],
                    axes,
                    floats,
                ) == key && shown(ms[i]) == latest(ms, set, axes, floats)[key],
    decreases ms.len(),
{
    if ms.len() > 0 {
        let rest = ms.drop_last();
        charts_show_what_was_chosen(rest, set, axes, floats);
        let seen = latest(rest, set, axes, floats);
        let all = latest(ms, set, axes, floats);
        assert forall|i: int| 0 <= i < ms.len() && chosen(#[trigger] ms[i], set, axes) implies all
            .dom().contains(chart_key(ms[i], axes, floats)) by {
            if i < rest.len() {
                assert(rest[i] == ms[i]);
            }
        }
        assert forall|key: (Seq<char>, u64)| #[trigger] all.dom().contains(key) implies exists|
            i: int,
        |
            0 <= i < ms.len() && chosen(#[trigger] ms[i], set, axes) && chart_key(
                ms[i],
                axes,
                floats,
            ) == key && shown(ms[i]) == all[key] by {
            if seen.dom().contains(key) {
                let i = choose|i: int|
                    0 <= i < rest.len() && chosen(#[trigger] rest[i], set, axes) && chart_key(
                        rest[i],
                        axes,
                        floats,
                    ) == key && shown(rest[i]) == seen[key];
                assert(ms[i] == rest[i]);
            } else {
                assert(ms[ms.len() - 1] == ms.last());
            }
        }
    }
}

// ---------------------------------------------------------------- what to draw

/// Bars compare implementations; lines show scaling along an axis.
#[derive(Clone, Copy, Debug, PartialEq, Eq, Structural)]
pub enum Kind {
    Auto,
    Bars,
    Lines,
}

#[derive(Clone, Copy, Debug, PartialEq, Eq, Structural)]
pub enum Scale {
    Log,
    Linear,
}

/// Whether bars are drawn: as asked, or, where nothing was asked, without an axis.
pub fn draws_bars(kind: Kind, has_axis: bool) -> (r: bool)
    ensures
        r == (kind == Kind::Bars || (kind == Kind::Auto && !has_axis)),
{
    match kind {
        Kind::Bars => true,
        Kind::Lines => false,
        Kind::Auto => !has_axis,
    }
}

pub open spec fn title_text(
    metric: Seq<char>,
    series_tag: Seq<char>,
    x_tag: Option<Seq<char>>,
    runner: Seq<char>,
    selection: Seq<char>,
) -> Seq<char> {
    metric + " by "@ + series_tag + " — "@ + (if x_tag is Some {
        "scaling"@
    } else {
        "comparison"@
    }) + " ("@ + runner + ")\n"@ + selection
}

/// The chart title, from the selection and mode.
pub fn title_for(
    metric: &str,
    series_tag: &str,
    x_tag: Option<&str>,
    runner: &str,
    selection: &str,
) -> (r: String)
    ensures
        r@ == title_text(
            metric@,
            series_tag@,
            match x_tag {
                Some(k) => Some(k@),
                None => None,
            },
            runner@,
            selection@,
        ),
{
    let mut s = metric.to_owned();
    s.append(" by ");
    s.append(series_tag);
    s.append(" — ");
    s.append(
        if x_tag.is_some() {
            "scaling"
        } else {
            "comparison"
        },
    );
    s.append(" (");
    s.append(runner);
    s.append(")\n");
    s.append(selection);
    s
}

/// The chart's configuration besides its data.
#[derive(Debug)]
pub struct ChartSpec {
    pub title: String,
    pub y_desc: String,
    pub x_desc: String,
    pub bars: bool,
    pub log_y: bool,
    pub width: u32,
    pub height: u32,
    pub dark: bool,
}

/// What the user asked of a chart.
#[derive(Debug)]
pub struct ChartRequest {
    pub selects: Vec<String>,
    pub metric: String,
    pub x: Option<String>,
    pub series: String,
    pub kind: Kind,
    pub scale: Scale,
    pub title: Option<String>,
    /// The canvas, in terminal cells.
    pub width: u32,
    pub height: u32,
    pub light: bool,
}

pub open spec fn default_title(request: ChartRequest, runner: Seq<char>) -> Seq<char> {
    title_text(
        request.metric@,
        request.series@,
        option_text(request.x),
        runner,
        if request.selects@.len() == 0 {
            "everything"@
        } else {
            join(texts(request.selects@), " & "@)
        },
    )
}

/// The configuration of a chart for a request, over documents whose newest came from
/// `runner`, on a terminal with cells of `cell` pixels.
pub fn chart_spec(request: &ChartRequest, runner: &str, cell: (u32, u32)) -> (r: ChartSpec)
    requires
        request.width * cell.0 <= u32::MAX,
        request.height * cell.1 <= u32::MAX,
    ensures
        r.title@ == (match request.title {
            Some(t) => t@,
            None => default_title(*request, runner@),
        }),
        r.y_desc@ == request.metric@,
        r.x_desc@ == (match request.x {
            Some(x) => x@,
            None => "case"@,
        }),
        r.bars == (request.kind == Kind::Bars || (request.kind == Kind::Auto && request.x is None)),
        r.log_y == (request.scale == Scale::Log),
        r.width == request.width * cell.0,
        r.height == request.height * cell.1,
        r.dark == !request.light,
{
    let title = match &request.title {
        Some(t) => t.clone(),
        None => {
            let selection = if request.selects.len() == 0 {
                "everything".to_owned()
            } else {
                joined(&request.selects, " & ")
            };
            let x = match &request.x {
                Some(x) => Some(x.as_str()),
                None => None,
            };
            title_for(
                request.metric.as_str(),
                request.series.as_str(),
                x,
                runner,
                selection.as_str(),
            )
        },
    };
    ChartSpec {
        title,
        y_desc: request.metric.clone(),
        x_desc: match &request.x {
            Some(x) => x.clone(),
            None => "case".to_owned(),
        },
        bars: draws_bars(request.kind, request.x.is_some()),
        log_y: request.scale == Scale::Log,
        width: request.width * cell.0,
        height: request.height * cell.1,
        dark: !request.light,
    }
}

/// The size of the buffer that a chart is rendered into: three bytes per pixel.
pub fn buffer_len(spec: &ChartSpec) -> (r: usize)
    requires
        spec.width * spec.height * 3 <= usize::MAX,
    ensures
        r == spec.width * spec.height * 3,
{
    let w = spec.width as usize;
    let h = spec.height as usize;
    proof {
        assert(w * h <= spec.width * spec.height * 3) by (nonlinear_arith)
            requires
                w == spec.width,
                h == spec.height,
        ;
    }
    w * h * 3
}

/// The newest documents, or what is said when there are none.
pub fn require_documents(docs: &Vec<LoadedDoc>, dirs: &Vec<String>) -> (r: Result<(), String>)
    ensures
        r is Ok <==> docs@.len() > 0,
        r matches Err(e) ==> e@ == "no run documents found in "@ + join(texts(dirs@), ", "@)
            + " — run something first, or point --from at a directory that has them"@,
{
    if docs.len() > 0 {
        return Ok(());
    }
    let mut s = "no run documents found in ".to_owned();
    s.append(joined(dirs, ", ").as_str());
    s.append(" — run something first, or point --from at a directory that has them");
    Err(s)
}

/// A chart with nothing to show is refused.
pub fn require_data(chart: &Vec<Series>) -> (r: Result<(), String>)
    ensures
        r is Ok <==> exists|i: int|
            0 <= i < chart@.len() && (#[trigger] chart@[i]).points@.len() > 0,
        r matches Err(e) ==> e@ == "that selection matched no data in the loaded runs"@,
{
    let mut i: usize = 0;
    while i < chart.len()
        invariant
            i <= chart@.len(),
            forall|j: int| 0 <= j < i ==> (#[trigger] chart@[j]).points@.len() == 0,
        decreases chart@.len() - i,
    {
        if chart[i].points.len() > 0 {
            assert(chart@[i as int].points@.len() > 0);
            return Ok(());
        }
        i = i + 1;
    }
    Err("that selection matched no data in the loaded runs".to_owned())
}

/// Where a chart goes besides a file.
#[derive(Debug)]
pub struct Showing {
    pub no_image: bool,
    pub saves: bool,
    pub force_image: bool,
    pub tty: bool,
    pub likely_supported: bool,
}

/// Whether the chart is shown in the terminal, or why it can be neither shown nor
/// left out.
pub fn shows_image(s: &Showing) -> (r: Result<bool, String>)
    ensures
        r == Ok::<bool, String>(false) <==> s.no_image && s.saves,
        r == Ok::<bool, String>(true) <==> !s.no_image && (s.force_image || (s.tty
            && s.likely_supported)),
        r matches Err(e) ==> e@ == (if s.no_image {
            "--no-image without --save has nothing to show; add --save out.png"@
        } else {
            "this terminal does not appear to support the kitty graphics protocol; use --save out.png to write the chart to a file"@
        }),
{
    if s.no_image {
        if !s.saves {
            return Err(
                "--no-image without --save has nothing to show; add --save out.png".to_owned(),
            );
        }
        return Ok(false);
    }
    if !(s.force_image || (s.tty && s.likely_supported)) {
        return Err(
            "this terminal does not appear to support the kitty graphics protocol; use --save out.png to write the chart to a file".to_owned(),
        );
    }
    Ok(true)
}

// ---------------------------------------------------------------- how it looks

/// A colour: red, green, blue.
#[derive(Clone, Copy, Debug, PartialEq, Eq, Structural)]
pub struct Rgb {
    pub r: u8,
    pub g: u8,
    pub b: u8,
}

#[derive(Debug)]
pub struct Palette {
    pub bg: Rgb,
    pub fg: Rgb,
    pub grid: Rgb,
    pub series: Vec<Rgb>,
}

pub open spec fn series_colours() -> Seq<Rgb> {
    seq![
        Rgb { r: 0x42, g: 0x84, b: 0xF4 },
        Rgb { r: 0xF4, g: 0x6A, b: 0x42 },
        Rgb { r: 0x2C, g: 0xA5, b: 0x5C },
        Rgb { r: 0x9B, g: 0x51, b: 0xE0 },
        Rgb { r: 0xE6, g: 0xB8, b: 0x1E },
        Rgb { r: 0x18, g: 0xA9, b: 0x9B },
    ]
}

/// A colour for a light ground.
pub open spec fn deepened(c: Rgb) -> Rgb {
    Rgb { r: (c.r / 2 + 32) as u8, g: (c.g / 2 + 32) as u8, b: (c.b / 2 + 32) as u8 }
}

/// The colours of a theme.
pub fn palette(dark: bool) -> (r: Palette)
    ensures
        r.series@.len() == 6,
        dark ==> r.bg == (Rgb { r: 0x1E, g: 0x1E, b: 0x24 }) && r.fg == (Rgb {
            r: 0xE8,
            g: 0xE8,
            b: 0xE8,
        }) && r.grid == (Rgb { r: 0x3A, g: 0x3A, b: 0x44 }) && r.series@ == series_colours(),
        !dark ==> r.bg == (Rgb { r: 0xFF, g: 0xFF, b: 0xFF }) && r.fg == (Rgb { r: 0, g: 0, b: 0 })
            && r.grid == (Rgb { r: 0xC0, g: 0xC0, b: 0xC8 }) && r.series@ == Seq::new(
            6,
            |i: int| deepened(series_colours()[i]),
        ),
{
    let series: Vec<Rgb> = vec![
        Rgb { r: 0x42, g: 0x84, b: 0xF4 },
        Rgb { r: 0xF4, g: 0x6A, b: 0x42 },
        Rgb { r: 0x2C, g: 0xA5, b: 0x5C },
        Rgb { r: 0x9B, g: 0x51, b: 0xE0 },
        Rgb { r: 0xE6, g: 0xB8, b: 0x1E },
        Rgb { r: 0x18, g: 0xA9, b: 0x9B },
    ];
    assert(series@ =~= series_colours());
    if dark {
        return Palette {
            bg: Rgb { r: 0x1E, g: 0x1E, b: 0x24 },
            fg: Rgb { r: 0xE8, g: 0xE8, b: 0xE8 },
            grid: Rgb { r: 0x3A, g: 0x3A, b: 0x44 },
            series,
        };
    }
    let mut deep: Vec<Rgb> = Vec::new();
    let mut i: usize = 0;
    while i < series.len()
        invariant
            i <= series@.len() == 6,
            series@ == series_colours(),
            deep@.len() == i,
            forall|j: int| 0 <= j < i ==> #[trigger] deep@[j] == deepened(series_colours()[j]),
        decreases series@.len() - i,
    {
        let c = series[i];
        deep.push(Rgb { r: c.r / 2 + 32, g: c.g / 2 + 32, b: c.b / 2 + 32 });
        i = i + 1;
    }
    assert(deep@ =~= Seq::new(6, |i: int| deepened(series_colours()[i])));
    Palette {
        bg: Rgb { r: 0xFF, g: 0xFF, b: 0xFF },
        fg: Rgb { r: 0, g: 0, b: 0 },
        grid: Rgb { r: 0xC0, g: 0xC0, b: 0xC8 },
        series: deep,
    }
}

/// Half the width of a bar, in pixels: a third of the distance between the first two
/// bars, within bounds; a default for a single bar.
pub fn bar_half_width(first: Option<i32>, second: Option<i32>) -> (r: i32)
    requires
        first is Some && second is Some ==> i32::MIN < second->Some_0 - first->Some_0 <= i32::MAX,
    ensures
        r == (if first is Some && second is Some {
            let d = second->Some_0 - first->Some_0;
            let third = (if d < 0 {
                -d
            } else {
                d
            }) / 3;
            if third < 8 {
                8
            } else if third > 120 {
                120
            } else {
                third
            }
        } else {
            40
        }),
{
    match (first, second) {
        (Some(a), Some(b)) => {
            let d = b - a;
            let third = (if d < 0 {
                -d
            } else {
                d
            }) / 3;
            if third < 8 {
                8
            } else if third > 120 {
                120
            } else {
                third
            }
        },
        _ => 40,
    }
}

// ---------------------------------------------------------------- one chart

proof fn ascending_numbers_agree(a: Seq<int>, b: Seq<int>)
    requires
        forall|i: int, j: int| 0 <= i < j < a.len() ==> #[trigger] a[i] < #[trigger] a[j],
        forall|i: int, j: int| 0 <= i < j < b.len() ==> #[trigger] b[i] < #[trigger] b[j],
        forall|n: int| #[trigger] a.contains(n) == b.contains(n),
    ensures
        a == b,
    decreases a.len(),
{
    if a.len() == 0 {
        if b.len() > 0 {
            assert(b.contains(b[0]));
            assert(a.contains(b[0]));
        }
        assert(a =~= b);
    } else {
        assert(a.contains(a[0]));
        assert(b.contains(a[0]));
        let (x, y) = (a.last(), b.last());
        assert(a.contains(a[a.len() - 1]));
        assert(b.contains(b[b.len() - 1]));
        assert(a.contains(x) == b.contains(x));
        assert(a.contains(y) == b.contains(y));
        let i = choose|i: int| 0 <= i < b.len() && b[i] == x;
        let j = choose|j: int| 0 <= j < a.len() && a[j] == y;
        assert(x == y);
        let (c, d) = (a.drop_last(), b.drop_last());
        assert forall|n: int| #[trigger] c.contains(n) == d.contains(n) by {
            if c.contains(n) {
                let k = choose|k: int| 0 <= k < c.len() && c[k] == n;
                assert(a[k] == n && n < x);
                assert(a.contains(a[k]));
                let m = choose|m: int| 0 <= m < b.len() && b[m] == n;
                assert(d[m] == n);
            }
            if d.contains(n) {
                let k = choose|k: int| 0 <= k < d.len() && d[k] == n;
                assert(b[k] == n && n < y);
                assert(b.contains(b[k]));
                assert(a.contains(n) == b.contains(n));
                let m = choose|m: int| 0 <= m < a.len() && a[m] == n;
                assert(c[m] == n);
            }
        }
        ascending_numbers_agree(c, d);
        assert(a =~= c.push(x));
        assert(b =~= d.push(y));
    }
}

spec fn names_in(chart: Seq<SeriesV>) -> Seq<Seq<char>> {
    Seq::new(chart.len(), |i: int| chart[i].name)
}

spec fn keys_in(points: Seq<(u64, ShownV)>) -> Seq<int> {
    Seq::new(points.len(), |i: int| total_key(points[i].0))
}

proof fn a_name_is_shared(
    a: Seq<SeriesV>,
    b: Seq<SeriesV>,
    content: Map<(Seq<char>, u64), ShownV>,
    i: int,
)
    requires
        lists(a, content),
        lists(b, content),
        0 <= i < a.len(),
    ensures
        names_in(b).contains(a[i].name),
{
    let p = a[i].points[0];
    let key = (a[i].name, p.0);
    assert(content.dom().contains(key));
    assert(lists_key(b, key));
    let j = choose|j: int|
        0 <= j < b.len() && (#[trigger] b[j]).name == key.0 && has_point(b[j], key.1);
    assert(names_in(b)[j] == key.0);
}

proof fn a_place_is_shared(
    a: Seq<SeriesV>,
    b: Seq<SeriesV>,
    content: Map<(Seq<char>, u64), ShownV>,
    i: int,
    q: int,
)
    requires
        lists(a, content),
        lists(b, content),
        0 <= i < a.len(),
        i < b.len(),
        a[i].name == b[i].name,
        0 <= q < a[i].points.len(),
    ensures
        has_point(b[i], a[i].points[q].0),
{
    let key = (a[i].name, a[i].points[q].0);
    assert(content.dom().contains(key));
    assert(lists_key(b, key));
    let j = choose|j: int|
        0 <= j < b.len() && (#[trigger] b[j]).name == key.0 && has_point(b[j], key.1);
    text_lt_irreflexive(key.0);
    assert(j == i);
}

/// A content is listed in one way only.
pub proof fn a_content_has_one_chart(
    a: Seq<SeriesV>,
    b: Seq<SeriesV>,
    content: Map<(Seq<char>, u64), ShownV>,
)
    requires
        lists(a, content),
        lists(b, content),
    ensures
        a == b,
{
    let (na, nb) = (names_in(a), names_in(b));
    assert forall|t: Seq<char>| #[trigger] na.contains(t) == nb.contains(t) by {
        if na.contains(t) {
            let i = choose|i: int| 0 <= i < na.len() && na[i] == t;
            a_name_is_shared(a, b, content, i);
        }
        if nb.contains(t) {
            let i = choose|i: int| 0 <= i < nb.len() && nb[i] == t;
            a_name_is_shared(b, a, content, i);
        }
    }
    assert forall|i: int, j: int| 0 <= i < j < na.len() implies text_lt(
        #[trigger] na[i],
        #[trigger] na[j],
    ) by {
        assert(text_lt(a[i].name, a[j].name));
    }
    assert forall|i: int, j: int| 0 <= i < j < nb.len() implies text_lt(
        #[trigger] nb[i],
        #[trigger] nb[j],
    ) by {
        assert(text_lt(b[i].name, b[j].name));
    }
    ascending_lists_agree(na, nb);
    assert forall|i: int| 0 <= i < a.len() implies a[i] == b[i] by {
        assert(na[i] == nb[i]);
        same_points(a, b, content, i);
    }
    assert(a =~= b);
}

proof fn same_points(
    a: Seq<SeriesV>,
    b: Seq<SeriesV>,
    content: Map<(Seq<char>, u64), ShownV>,
    i: int,
)
    requires
        lists(a, content),
        lists(b, content),
        0 <= i < a.len(),
        i < b.len(),
        a[i].name == b[i].name,
    ensures
        a[i].points == b[i].points,
{
    let (p, q) = (a[i].points, b[i].points);
    let (ka, kb) = (keys_in(p), keys_in(q));
    assert forall|n: int| #[trigger] ka.contains(n) == kb.contains(n) by {
        if ka.contains(n) {
            let k = choose|k: int| 0 <= k < ka.len() && ka[k] == n;
            a_place_is_shared(a, b, content, i, k);
            let m = choose|m: int| 0 <= m < q.len() && (#[trigger] q[m]).0 == p[k].0;
            assert(kb[m] == n);
        }
        if kb.contains(n) {
            let k = choose|k: int| 0 <= k < kb.len() && kb[k] == n;
            a_place_is_shared(b, a, content, i, k);
            let m = choose|m: int| 0 <= m < p.len() && (#[trigger] p[m]).0 == q[k].0;
            assert(ka[m] == n);
        }
    }
    assert(places_ascend(p) && places_ascend(q));
    assert forall|x: int, y: int| 0 <= x < y < ka.len() implies #[trigger] ka[x] < #[trigger] ka[y] by {
        assert(total_key(p[x].0) < total_key(p[y].0));
    }
    assert forall|x: int, y: int| 0 <= x < y < kb.len() implies #[trigger] kb[x] < #[trigger] kb[y] by {
        assert(total_key(q[x].0) < total_key(q[y].0));
    }
    ascending_numbers_agree(ka, kb);
    assert forall|k: int| 0 <= k < p.len() implies p[k] == q[k] by {
        assert(ka[k] == kb[k]);
        key_of_bits_differs(p[k].0, q[k].0);
        assert(content[(a[i].name, a[i].points[k].0)] == a[i].points[k].1);
        assert(content[(b[i].name, b[i].points[k].0)] == b[i].points[k].1);
    }
    assert(p =~= q);
}

} // verus!
