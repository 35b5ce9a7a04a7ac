//! Documents as trees: what a JSON or a TOML text holds.
//!
//! The readers are serde_json and toml; what follows from a document is decided on
//! the tree.

use crate::text::same;
use serde_json::Value as Json;
use toml::Value as Toml;
use vstd::prelude::*;

verus! {

/// A document, or a part of one.
#[derive(Debug)]
pub enum Data {
    Null,
    Bool(bool),
    Number(Number),
    Text(String),
    /// A TOML moment, as written.
    Moment(String),
    List(Vec<Data>),
    Table(Vec<(String, Data)>),
}

/// A number: as an unsigned and as a signed integer where it is one that fits, and
/// as it is written.
#[derive(Debug)]
pub struct Number {
    pub natural: Option<u64>,
    pub integer: Option<i64>,
    pub text: String,
}

/// A [`Data`] by its contents.
pub enum DataV {
    Null,
    Bool(bool),
    Number { natural: Option<u64>, integer: Option<i64>, text: Seq<char> },
    Text(Seq<char>),
    Moment(Seq<char>),
    List(Seq<DataV>),
    Table(Seq<(Seq<char>, DataV)>),
}

pub open spec fn contents(d: Data) -> DataV
    decreases d,
{
    match d {
        Data::Null => DataV::Null,
        Data::Bool(b) => DataV::Bool(b),
        Data::Number(n) => DataV::Number { natural: n.natural, integer: n.integer, text: n.text@ },
        Data::Text(s) => DataV::Text(s@),
        Data::Moment(s) => DataV::Moment(s@),
        Data::List(items) => DataV::List(
            Seq::new(
                items@.len(),
                |i: int|
                    if 0 <= i < items@.len() {
                        contents(items@[i])
                    } else {
                        DataV::Null
                    },
            ),
        ),
        Data::Table(entries) => DataV::Table(
            Seq::new(
                entries@.len(),
                |i: int|
                    if 0 <= i < entries@.len() {
                        (entries@[i].0@, contents(entries@[i].1))
                    } else {
                        (Seq::empty(), DataV::Null)
                    },
            ),
        ),
    }
}

impl View for Data {
    type V = DataV;

    open spec fn view(&self) -> DataV {
        contents(*self)
    }
}

/// A `serde_json::Value`.
#[verifier::external_type_specification]
#[verifier::external_body]
pub struct ExJsonValue(serde_json::Value);

/// A `toml::Value`.
#[verifier::external_type_specification]
#[verifier::external_body]
pub struct ExTomlValue(toml::Value);

/// What serde_json makes of a text: the document, or the words of its error.
pub uninterp spec fn json_document(text: Seq<char>) -> Result<DataV, Seq<char>>;

/// What toml makes of a text, where it reads it.
pub uninterp spec fn toml_document(text: Seq<char>) -> Option<DataV>;

/// A `serde_json::Value` as a tree, variant by variant. An object's entries come in
/// the order of the map that holds them.
#[verifier::external_body]
fn from_json(value: Json) -> Data {
    match value {
        Json::Null => Data::Null,
        Json::Bool(b) => Data::Bool(b),
        Json::Number(n) => {
            Data::Number(Number { natural: n.as_u64(), integer: n.as_i64(), text: n.to_string() })
        },
        Json::String(s) => Data::Text(s),
        Json::Array(a) => Data::List(a.into_iter().map(from_json).collect()),
        Json::Object(o) => {
            Data::Table(o.into_iter().map(|(k, v)| (k, from_json(v))).collect())
        },
    }
}

/// A `toml::Value` as a tree, variant by variant.
#[verifier::external_body]
fn from_toml(value: Toml) -> Data {
    match value {
        Toml::String(s) => Data::Text(s),
        Toml::Integer(i) => {
            Data::Number(Number { natural: i.try_into().ok(), integer: Some(i), text: i.to_string() })
        },
        Toml::Float(f) => {
            Data::Number(Number { natural: None, integer: None, text: f.to_string() })
        },
        Toml::Boolean(b) => Data::Bool(b),
        Toml::Datetime(d) => Data::Moment(d.to_string()),
        Toml::Array(a) => Data::List(a.into_iter().map(from_toml).collect()),
        Toml::Table(t) => Data::Table(t.into_iter().map(|(k, v)| (k, from_toml(v))).collect()),
    }
}

pub open spec fn read_result(r: Result<Data, String>) -> Result<DataV, Seq<char>> {
    match r {
        Ok(d) => Ok(d@),
        Err(e) => Err(e@),
    }
}

/// `serde_json::from_str` into a `serde_json::Value`: the document that the text
/// holds, or the error's own words. The outcome depends on the text alone.
#[verifier::external_body]
pub(crate) fn parse_json(text: &str) -> (r: Result<Data, String>)
    ensures
        read_result(r) == json_document(text@),
{
    match serde_json::from_str::<Json>(text) {
        Ok(value) => Ok(from_json(value)),
        Err(e) => Err(e.to_string()),
    }
}

/// `toml::from_str` into a `toml::Value`: the document that the text holds, or
/// nothing where it is no TOML. The outcome depends on the text alone.
#[verifier::external_body]
pub(crate) fn parse_toml(text: &str) -> (r: Option<Data>)
    ensures
        (match r {
            Some(d) => Some(d@),
            None => None,
        }) == toml_document(text@),
{
    toml::from_str::<toml::Value>(text).ok().map(from_toml)
}

// ---------------------------------------------------------------- looking inside

/// The first entry of this name.
pub open spec fn entry_in(entries: Seq<(Seq<char>, DataV)>, key: Seq<char>) -> Option<DataV>
    decreases entries.len(),
{
    if entries.len() == 0 {
        None
    } else if entries[0].0 == key {
        Some(entries[0].1)
    } else {
        entry_in(entries.drop_first(), key)
    }
}

impl DataV {
    /// What a table holds under a key; nothing of anything but a table.
    pub open spec fn get(self, key: Seq<char>) -> Option<DataV> {
        match self {
            DataV::Table(entries) => entry_in(entries, key),
            _ => None,
        }
    }

    pub open spec fn as_text(self) -> Option<Seq<char>> {
        match self {
            DataV::Text(s) => Some(s),
            _ => None,
        }
    }

    pub open spec fn as_natural(self) -> Option<u64> {
        match self {
            DataV::Number { natural, .. } => natural,
            _ => None,
        }
    }

    pub open spec fn as_bool(self) -> Option<bool> {
        match self {
            DataV::Bool(b) => Some(b),
            _ => None,
        }
    }

    pub open spec fn as_list(self) -> Option<Seq<DataV>> {
        match self {
            DataV::List(items) => Some(items),
            _ => None,
        }
    }

    pub open spec fn as_table(self) -> Option<Seq<(Seq<char>, DataV)>> {
        match self {
            DataV::Table(entries) => Some(entries),
            _ => None,
        }
    }

    /// A number as it is written.
    pub open spec fn as_number(self) -> Option<Seq<char>> {
        match self {
            DataV::Number { text, .. } => Some(text),
            _ => None,
        }
    }
}

pub open spec fn get_text(d: Option<DataV>, key: Seq<char>) -> Option<Seq<char>> {
    match d {
        Some(t) => match t.get(key) {
            Some(v) => v.as_text(),
            None => None,
        },
        None => None,
    }
}

impl Data {
    pub fn get(&self, key: &str) -> (r: Option<&Data>)
        ensures
            (match r {
                Some(d) => Some(d@),
                None => None,
            }) == self@.get(key@),
    {
        match self {
            Data::Table(entries) => {
                let ghost all = self@->Table_0;
                let mut i: usize = 0;
                assert(all.skip(0) =~= all);
                while i < entries.len()
                    invariant
                        *self == Data::Table(*entries),
                        all == self@->Table_0,
                        i <= entries@.len() == all.len(),
                        entry_in(all, key@) == entry_in(all.skip(i as int), key@),
                    decreases entries@.len() - i,
                {
                    assert(all.skip(i as int)[0] == (entries@[i as int].0@, entries@[i as int].1@));
                    if same(entries[i].0.as_str(), key) {
                        return Some(&entries[i].1);
                    }
                    assert(all.skip(i as int).drop_first() =~= all.skip(i + 1));
                    i = i + 1;
                }
                None
            },
            _ => None,
        }
    }

    pub fn as_text(&self) -> (r: Option<&String>)
        ensures
            (match r {
                Some(s) => Some(s@),
                None => None,
            }) == self@.as_text(),
    {
        match self {
            Data::Text(s) => Some(s),
            _ => None,
        }
    }

    pub fn as_natural(&self) -> (r: Option<u64>)
        ensures
            r == self@.as_natural(),
    {
        match self {
            Data::Number(n) => n.natural,
            _ => None,
        }
    }

    pub fn as_bool(&self) -> (r: Option<bool>)
        ensures
            r == self@.as_bool(),
    {
        match self {
            Data::Bool(b) => Some(*b),
            _ => None,
        }
    }

    pub fn as_list(&self) -> (r: Option<&Vec<Data>>)
        ensures
            r is Some <==> self@.as_list() is Some,
            r is Some ==> views(r->Some_0@) == self@.as_list()->Some_0,
    {
        match self {
            Data::List(items) => {
                assert(views(items@) =~= self@->List_0);
                Some(items)
            },
            _ => None,
        }
    }

    pub fn as_table(&self) -> (r: Option<&Vec<(String, Data)>>)
        ensures
            r is Some <==> self@.as_table() is Some,
            r is Some ==> entries_of(r->Some_0@) == self@.as_table()->Some_0,
    {
        match self {
            Data::Table(entries) => {
                assert(entries_of(entries@) =~= self@->Table_0);
                Some(entries)
            },
            _ => None,
        }
    }

    pub fn as_number(&self) -> (r: Option<&String>)
        ensures
            (match r {
                Some(s) => Some(s@),
                None => None,
            }) == self@.as_number(),
    {
        match self {
            Data::Number(n) => Some(&n.text),
            _ => None,
        }
    }

    /// The text that a table holds under a key.
    pub fn text_at(&self, key: &str) -> (r: Option<&String>)
        ensures
            (match r {
                Some(s) => Some(s@),
                None => None,
            }) == get_text(Some(self@), key@),
    {
        match self.get(key) {
            Some(d) => d.as_text(),
            None => None,
        }
    }
}

pub open spec fn views(items: Seq<Data>) -> Seq<DataV> {
    Seq::new(items.len(), |i: int| items[i]@)
}

pub open spec fn entries_of(entries: Seq<(String, Data)>) -> Seq<(Seq<char>, DataV)> {
    Seq::new(entries.len(), |i: int| (entries[i].0@, entries[i].1@))
}

fn copied(d: &Data) -> (r: Data)
    ensures
        r@ == d@,
    decreases *d,
{
    match d {
        Data::Null => Data::Null,
        Data::Bool(b) => Data::Bool(*b),
        Data::Number(n) => Data::Number(
            Number { natural: n.natural, integer: n.integer, text: n.text.clone() },
        ),
        Data::Text(s) => Data::Text(s.clone()),
        Data::Moment(s) => Data::Moment(s.clone()),
        Data::List(items) => {
            let mut out: Vec<Data> = Vec::new();
            let mut i: usize = 0;
            while i < items.len()
                invariant
                    *d == Data::List(*items),
                    i <= items@.len(),
                    out@.len() == i,
                    forall|j: int| 0 <= j < i ==> (#[trigger] out@[j])@ == items@[j]@,
                decreases items@.len() - i,
            {
                let item = &items[i];
                assert(d->List_0@[i as int] == *item);
                out.push(copied(item));
                i = i + 1;
            }
            let r = Data::List(out);
            assert(r@->List_0 =~= d@->List_0);
            r
        },
        Data::Table(entries) => {
            let mut out: Vec<(String, Data)> = Vec::new();
            let mut i: usize = 0;
            while i < entries.len()
                invariant
                    *d == Data::Table(*entries),
                    i <= entries@.len(),
                    out@.len() == i,
                    forall|j: int|
                        0 <= j < i ==> (#[trigger] out@[j]).0@ == entries@[j].0@ && out@[j].1@
                            == entries@[j].1@,
                decreases entries@.len() - i,
            {
                let item = &entries[i].1;
                assert(d->Table_0@[i as int].1 == *item);
                out.push((entries[i].0.clone(), copied(item)));
                i = i + 1;
            }
            let r = Data::Table(out);
            assert(r@->Table_0 =~= d@->Table_0);
            r
        },
    }
}

impl Clone for Data {
    fn clone(&self) -> (r: Self)
        ensures
            r@ == self@,
    {
        copied(self)
    }
}

// ---------------------------------------------------------------- without nulls

/// The document with every null taken out, at every depth.
pub open spec fn without_nulls(d: DataV) -> DataV
    decreases d,
{
    match d {
        DataV::List(items) => DataV::List(items_without_nulls(items)),
        DataV::Table(entries) => DataV::Table(entries_without_nulls(entries)),
        other => other,
    }
}

pub open spec fn items_without_nulls(items: Seq<DataV>) -> Seq<DataV>
    decreases items,
{
    if items.len() == 0 {
        Seq::empty()
    } else {
        let rest = items_without_nulls(items.drop_last());
        if items.last() is Null {
            rest
        } else {
            rest.push(without_nulls(items.last()))
        }
    }
}

pub open spec fn entries_without_nulls(entries: Seq<(Seq<char>, DataV)>) -> Seq<(Seq<char>, DataV)>
    decreases entries,
{
    if entries.len() == 0 {
        Seq::empty()
    } else {
        let rest = entries_without_nulls(entries.drop_last());
        if entries.last().1 is Null {
            rest
        } else {
            rest.push((entries.last().0, without_nulls(entries.last().1)))
        }
    }
}

/// Whether no null stands below the top.
pub open spec fn holds_no_null(d: DataV) -> bool
    decreases d,
{
    match d {
        DataV::List(items) => forall|i: int|
            0 <= i < items.len() ==> !((#[trigger] items[i]) is Null) && holds_no_null(items[i]),
        DataV::Table(entries) => forall|i: int|
            0 <= i < entries.len() ==> !((#[trigger] entries[i]).1 is Null) && holds_no_null(
                entries[i].1,
            ),
        _ => true,
    }
}

/// Stripping leaves no null behind.
pub proof fn stripping_leaves_no_null(d: DataV)
    ensures
        holds_no_null(without_nulls(d)),
    decreases d,
{
    match d {
        DataV::List(items) => {
            stripped_items_hold_no_null(items);
        },
        DataV::Table(entries) => {
            stripped_entries_hold_no_null(entries);
        },
        _ => {},
    }
}

proof fn stripped_items_hold_no_null(items: Seq<DataV>)
    ensures
        forall|i: int|
            0 <= i < items_without_nulls(items).len() ==> !((#[trigger] items_without_nulls(
                items,
            )[i]) is Null) && holds_no_null(items_without_nulls(items)[i]),
    decreases items,
{
    if items.len() > 0 {
        stripped_items_hold_no_null(items.drop_last());
        if !(items.last() is Null) {
            stripping_leaves_no_null(items.last());
        }
    }
}

proof fn stripped_entries_hold_no_null(entries: Seq<(Seq<char>, DataV)>)
    ensures
        forall|i: int|
            0 <= i < entries_without_nulls(entries).len() ==> !((#[trigger] entries_without_nulls(
                entries,
            )[i]).1 is Null) && holds_no_null(entries_without_nulls(entries)[i].1),
    decreases entries,
{
    if entries.len() > 0 {
        stripped_entries_hold_no_null(entries.drop_last());
        if !(entries.last().1 is Null) {
            stripping_leaves_no_null(entries.last().1);
        }
    }
}

/// A document with nothing to strip stays as it is.
pub proof fn stripping_keeps_the_rest(d: DataV)
    requires
        holds_no_null(d),
    ensures
        without_nulls(d) == d,
    decreases d,
{
    match d {
        DataV::List(items) => {
            kept_items(items);
        },
        DataV::Table(entries) => {
            kept_entries(entries);
        },
        _ => {},
    }
}

proof fn kept_items(items: Seq<DataV>)
    requires
        forall|i: int|
            0 <= i < items.len() ==> !((#[trigger] items[i]) is Null) && holds_no_null(items[i]),
    ensures
        items_without_nulls(items) == items,
    decreases items,
{
    if items.len() > 0 {
        kept_items(items.drop_last());
        stripping_keeps_the_rest(items.last());
        assert(items_without_nulls(items) =~= items);
    } else {
        assert(items =~= Seq::empty());
    }
}

proof fn kept_entries(entries: Seq<(Seq<char>, DataV)>)
    requires
        forall|i: int|
            0 <= i < entries.len() ==> !((#[trigger] entries[i]).1 is Null) && holds_no_null(
                entries[i].1,
            ),
    ensures
        entries_without_nulls(entries) == entries,
    decreases entries,
{
    if entries.len() > 0 {
        kept_entries(entries.drop_last());
        stripping_keeps_the_rest(entries.last().1);
        assert(entries_without_nulls(entries) =~= entries);
    } else {
        assert(entries =~= Seq::empty());
    }
}

/// Remove every null value from a document, at every depth: TOML has no null.
pub fn strip_nulls(value: &Data) -> (r: Data)
    ensures
        r@ == without_nulls(value@),
    decreases *value,
{
    match value {
        Data::Null => Data::Null,
        Data::Bool(b) => Data::Bool(*b),
        Data::Number(n) => Data::Number(
            Number { natural: n.natural, integer: n.integer, text: n.text.clone() },
        ),
        Data::Text(s) => Data::Text(s.clone()),
        Data::Moment(s) => Data::Moment(s.clone()),
        Data::List(items) => {
            let ghost all = value@->List_0;
            let mut kept: Vec<Data> = Vec::new();
            let mut i: usize = 0;
            assert(views(kept@) =~= items_without_nulls(all.take(0)));
            while i < items.len()
                invariant
                    *value == Data::List(*items),
                    all == value@->List_0,
                    i <= items@.len() == all.len(),
                    views(kept@) == items_without_nulls(all.take(i as int)),
                decreases items@.len() - i,
            {
                assert(all.take(i + 1).drop_last() =~= all.take(i as int));
                assert(all[i as int] == items@[i as int]@);
                match &items[i] {
                    Data::Null => {},
                    other => {
                        let ghost before = kept@;
                        let stripped = strip_nulls(other);
                        kept.push(stripped);
                        assert(views(kept@) =~= views(before).push(stripped@));
                    },
                }
                i = i + 1;
            }
            assert(all.take(i as int) =~= all);
            let r = Data::List(kept);
            assert(r@->List_0 =~= views(kept@));
            r
        },
        Data::Table(entries) => {
            let ghost all = value@->Table_0;
            let mut kept: Vec<(String, Data)> = Vec::new();
            let mut i: usize = 0;
            assert(entries_of(kept@) =~= entries_without_nulls(all.take(0)));
            while i < entries.len()
                invariant
                    *value == Data::Table(*entries),
                    all == value@->Table_0,
                    i <= entries@.len() == all.len(),
                    entries_of(kept@) == entries_without_nulls(all.take(i as int)),
                decreases entries@.len() - i,
            {
                assert(all.take(i + 1).drop_last() =~= all.take(i as int));
                assert(all[i as int] == (entries@[i as int].0@, entries@[i as int].1@));
                match &entries[i].1 {
                    Data::Null => {},
                    other => {
                        let ghost before = kept@;
                        let stripped = strip_nulls(other);
                        kept.push((entries[i].0.clone(), stripped));
                        assert(entries_of(kept@) =~= entries_of(before).push(
                            (entries@[i as int].0@, stripped@),
                        ));
                    },
                }
                i = i + 1;
            }
            assert(all.take(i as int) =~= all);
            let r = Data::Table(kept);
            assert(r@->Table_0 =~= entries_of(kept@));
            r
        },
    }
}

// ---------------------------------------------------------------- as TOML

/// Why a document has no TOML text.
#[derive(Debug)]
pub enum TomlFault {
    /// TOML has no such value.
    Conversion(String),
    /// TOML cannot write it in this place.
    Serialization(String),
}

pub enum TomlFaultV {
    Conversion(Seq<char>),
    Serialization(Seq<char>),
}

pub open spec fn toml_result(r: Result<String, TomlFault>) -> Result<Seq<char>, TomlFaultV> {
    match r {
        Ok(s) => Ok(s@),
        Err(TomlFault::Conversion(e)) => Err(TomlFaultV::Conversion(e@)),
        Err(TomlFault::Serialization(e)) => Err(TomlFaultV::Serialization(e@)),
    }
}

/// What a JSON document is as a TOML one, or the words in which the conversion is refused.
pub uninterp spec fn toml_conversion(d: DataV) -> Result<DataV, Seq<char>>;

/// A TOML document as toml writes it, or the words in which it refuses to.
pub uninterp spec fn toml_pretty(d: DataV) -> Result<Seq<char>, Seq<char>>;

/// A document as TOML text: converted, then written.
pub open spec fn toml_text(d: DataV) -> Result<Seq<char>, TomlFaultV> {
    match toml_conversion(d) {
        Err(e) => Err(TomlFaultV::Conversion(e)),
        Ok(v) => match toml_pretty(v) {
            Err(e) => Err(TomlFaultV::Serialization(e)),
            Ok(s) => Ok(s),
        },
    }
}

/// A tree as a `serde_json::Value`, variant by variant; a number as the integer that it
/// is, else as the number that its text reads as.
#[verifier::external_body]
fn to_json(data: &Data) -> Json {
    match data {
        Data::Null => Json::Null,
        Data::Bool(b) => Json::Bool(*b),
        Data::Number(n) => n.natural.map(Json::from)
            .or(n.integer.map(Json::from))
            .or_else(|| n.text.parse().ok().and_then(serde_json::Number::from_f64).map(|f| f.into()))
            .unwrap_or_default(),
        Data::Text(s) | Data::Moment(s) => Json::String(s.clone()),
        Data::List(items) => Json::Array(items.iter().map(to_json).collect()),
        Data::Table(entries) => Json::Object(
            entries.iter().map(|(k, v)| (k.clone(), to_json(v))).collect(),
        ),
    }
}

/// A tree as a `toml::Value`, variant by variant; a number as the integer that it is, else
/// as the number that its text reads as. TOML has no null: an empty text stands for one.
#[verifier::external_body]
fn to_toml(data: &Data) -> Toml {
    match data {
        Data::Null => Toml::String(String::new()),
        Data::Bool(b) => Toml::Boolean(*b),
        Data::Number(n) => n.integer.map(Toml::Integer)
            .unwrap_or_else(|| Toml::Float(n.text.parse().unwrap_or_default())),
        Data::Text(s) => Toml::String(s.clone()),
        Data::Moment(s) => s.parse().map_or_else(|_| Toml::String(s.clone()), Toml::Datetime),
        Data::List(items) => Toml::Array(items.iter().map(to_toml).collect()),
        Data::Table(entries) => {
            Toml::Table(entries.iter().map(|(k, v)| (k.clone(), to_toml(v))).collect())
        },
    }
}

/// `serde_json::from_value` into a `toml::Value`: the document as a TOML one, which holds
/// no null, or the error's own words. The outcome depends on the document alone.
#[verifier::external_body]
fn convert_to_toml(data: &Data) -> (r: Result<Data, String>)
    ensures
        read_result(r) == toml_conversion(data@),
        r matches Ok(d) ==> !(d@ is Null) && holds_no_null(d@),
{
    match serde_json::from_value::<Toml>(to_json(data)) {
        Ok(value) => Ok(from_toml(value)),
        Err(e) => Err(e.to_string()),
    }
}

/// `toml::to_string_pretty` of a `toml::Value`: the TOML text of a document without nulls,
/// or the error's own words. The outcome depends on the document alone.
#[verifier::external_body]
fn write_pretty(data: &Data) -> (r: Result<String, String>)
    requires
        !(data@ is Null) && holds_no_null(data@),
    ensures
        crate::text::outcome_text(r) == toml_pretty(data@),
{
    toml::to_string_pretty(&to_toml(data)).map_err(|e| e.to_string())
}

/// The TOML text of a document, or which of the two steps refused it and in what words.
fn write_toml(data: &Data) -> (r: Result<String, TomlFault>)
    ensures
        toml_result(r) == toml_text(data@),
{
    match convert_to_toml(data) {
        Err(e) => Err(TomlFault::Conversion(e)),
        Ok(value) => match write_pretty(&value) {
            Err(e) => Err(TomlFault::Serialization(e)),
            Ok(s) => Ok(s),
        },
    }
}

/// What writing a document as TOML gives, once toml has answered.
pub open spec fn toml_answer(written: Result<Seq<char>, TomlFaultV>) -> Result<Seq<char>, Seq<char>> {
    match written {
        Ok(s) => Ok(s),
        Err(TomlFaultV::Conversion(e)) => Err("JSON to TOML conversion: "@ + e),
        Err(TomlFaultV::Serialization(e)) => Err("TOML serialization: "@ + e),
    }
}

/// The answer to the user when toml has written, or refused to write, a document.
pub fn toml_outcome(written: Result<String, TomlFault>) -> (r: Result<String, String>)
    ensures
        crate::text::outcome_text(r) == toml_answer(toml_result(written)),
{
    match written {
        Ok(s) => Ok(s),
        Err(TomlFault::Conversion(e)) => {
            let mut m = "JSON to TOML conversion: ".to_owned();
            m.append(e.as_str());
            Err(m)
        },
        Err(TomlFault::Serialization(e)) => {
            let mut m = "TOML serialization: ".to_owned();
            m.append(e.as_str());
            Err(m)
        },
    }
}

/// Convert a document to TOML text: its nulls are stripped first, since TOML has
/// none.
pub fn json_to_toml(value: &Data) -> (r: Result<String, String>)
    ensures
        crate::text::outcome_text(r) == toml_answer(toml_text(without_nulls(value@))),
{
    let cleaned = strip_nulls(value);
    toml_outcome(write_toml(&cleaned))
}

} // verus!
