//! Tag keys and values, the atoms of benchmark identity.
//!
//! A data point is identified by its tag map and nothing else. There is no name
//! to parse: everything a chart needs to group, facet or filter is a key here.

use crate::text::{
    all_digits, contains_text, dec, dec_int, decimal, decimal_reads_back, decimal_signed, is_digit,
    parse_i64, parse_unsigned, read_signed, read_unsigned, same, signed_decimal_round_trips,
    strip_prefix, text_lt, text_lt_irreflexive, text_lt_total, text_lt_transitive, texts, trim,
    trim_end_is_take, trim_start_is_skip, trimmed,
    unsigned_decimal_round_trips,
};
use vstd::arithmetic::power2::{lemma_pow2_strictly_increases, lemma_pow2_unfold, pow2};
use vstd::prelude::*;

verus! {

// ---------------------------------------------------------------- numbers with a fraction

/// A finite binary64 number: its bit pattern, which is its identity, and the
/// shortest decimal text that reads back as it, which is how it is written.
#[derive(Debug)]
pub struct F64Ord {
    pub bits: u64,
    pub text: String,
}

impl PartialEq for F64Ord {
    fn eq(&self, other: &Self) -> (r: bool) {
        self.bits == other.bits
    }
}

impl vstd::std_specs::cmp::PartialEqSpecImpl for F64Ord {
    open spec fn obeys_eq_spec() -> bool {
        true
    }

    open spec fn eq_spec(&self, other: &Self) -> bool {
        self.bits == other.bits
    }
}

impl Eq for F64Ord {

}

impl Clone for F64Ord {
    fn clone(&self) -> (r: Self)
        ensures
            r.bits == self.bits,
            r.text@ == self.text@,
    {
        F64Ord { bits: self.bits, text: self.text.clone() }
    }
}

/// The place of a bit pattern in the IEEE 754 total order: patterns with the sign
/// bit set descend below all the others.
pub open spec fn total_key(bits: u64) -> int {
    if bits < 0x8000_0000_0000_0000 {
        bits as int
    } else {
        0x7fff_ffff_ffff_ffff - bits as int
    }
}

/// What reading a text as a binary64 number gives.
#[derive(Debug, PartialEq, Eq)]
pub enum FloatReading {
    NotAFloat,
    /// `nan` and `inf` read as numbers; they are not usable identities.
    NonFinite,
    Finite(F64Ord),
}

/// What reading some texts as numbers gives. A text that is not listed is no
/// number.
#[derive(Debug)]
pub struct Floats {
    pub entries: Vec<(String, FloatReading)>,
}

/// A reading by its contents.
pub enum ReadingV {
    NotAFloat,
    NonFinite,
    Finite { bits: u64, text: Seq<char> },
}

impl View for FloatReading {
    type V = ReadingV;

    open spec fn view(&self) -> ReadingV {
        match self {
            FloatReading::NotAFloat => ReadingV::NotAFloat,
            FloatReading::NonFinite => ReadingV::NonFinite,
            FloatReading::Finite(f) => ReadingV::Finite { bits: f.bits, text: f.text@ },
        }
    }
}

/// The first entry for `text` decides.
pub open spec fn reading_in(entries: Seq<(String, FloatReading)>, text: Seq<char>) -> ReadingV
    decreases entries.len(),
{
    if entries.len() == 0 {
        ReadingV::NotAFloat
    } else if entries[0].0@ == text {
        entries[0].1@
    } else {
        reading_in(entries.drop_first(), text)
    }
}

impl Floats {
    pub open spec fn reading(self, text: Seq<char>) -> ReadingV {
        reading_in(self.entries@, text)
    }

    /// The text is what the machine prints for the number: a plain decimal that, written
    /// for a selector expression, reads as the number again.
    pub open spec fn prints(self, bits: u64, text: Seq<char>) -> bool {
        &&& text.len() > 0
        &&& forall|i: int|
            0 <= i < text.len() ==> is_digit(#[trigger] text[i]) || text[i] == '-' || text[i] == '.'
        &&& !contains_text(text, ".."@) && text.last() != '.'
        &&& self.reading(float_expr(text)) == ReadingV::Finite { bits, text }
    }

    /// The machine reads what it prints: every number that it reads is one that it prints.
    pub open spec fn faithful(self) -> bool {
        forall|t: Seq<char>|
            (#[trigger] self.reading(t)) matches ReadingV::Finite { bits, text } ==> self.prints(
                bits,
                text,
            )
    }

    /// No text is a number.
    pub fn none() -> (r: Self)
        ensures
            forall|t: Seq<char>| r.reading(t) == ReadingV::NotAFloat,
    {
        Floats { entries: Vec::new() }
    }

    pub fn read(&self, text: &str) -> (r: FloatReading)
        ensures
            r@ == self.reading(text@),
    {
        let mut i: usize = 0;
        assert(self.entries@.skip(0) =~= self.entries@);
        while i < self.entries.len()
            invariant
                i <= self.entries@.len(),
                self.reading(text@) == reading_in(self.entries@.skip(i as int), text@),
            decreases self.entries@.len() - i,
        {
            assert(self.entries@.skip(i as int).drop_first() =~= self.entries@.skip(i + 1));
            if same(self.entries[i].0.as_str(), text) {
                return match &self.entries[i].1 {
                    FloatReading::NotAFloat => FloatReading::NotAFloat,
                    FloatReading::NonFinite => FloatReading::NonFinite,
                    FloatReading::Finite(f) => FloatReading::Finite(f.clone()),
                };
            }
            i = i + 1;
        }
        FloatReading::NotAFloat
    }
}

// ---------------------------------------------------------------- values

/// A tag value. Deliberately narrow: these end up in filenames, selector
/// expressions and chart legends, so arbitrary nesting is not wanted.
#[derive(Debug, PartialEq, Eq)]
pub enum TagValue {
    /// `stem=eytzinger`, `axis=f64`
    Word(String),
    /// `k=5`, `tree_size=1048576`
    Int(i64),
    /// `radius=0.05`, `epsilon=0.01`
    Float(F64Ord),
    /// `hugepages=on` is a `Word`, not this; reserve `Bool` for genuinely binary
    /// axes that read naturally as true/false.
    Bool(bool),
}

/// A tag value by its contents.
pub enum TagV {
    Word(Seq<char>),
    Int(int),
    Float { bits: u64, text: Seq<char> },
    Bool(bool),
}

impl View for TagValue {
    type V = TagV;

    open spec fn view(&self) -> TagV {
        match self {
            TagValue::Word(w) => TagV::Word(w@),
            TagValue::Int(i) => TagV::Int(*i as int),
            TagValue::Float(f) => TagV::Float { bits: f.bits, text: f.text@ },
            TagValue::Bool(b) => TagV::Bool(*b),
        }
    }
}

/// A list of tag values by their contents.
pub open spec fn values(v: Seq<TagValue>) -> Seq<TagV> {
    Seq::new(v.len(), |i: int| v[i]@)
}

/// Equality of values: numbers with a fraction are equal when their bits are.
pub open spec fn tag_eq(a: TagV, b: TagV) -> bool {
    match (a, b) {
        (TagV::Float { bits: x, .. }, TagV::Float { bits: y, .. }) => x == y,
        _ => a == b,
    }
}

pub open spec fn rank(v: TagV) -> int {
    match v {
        TagV::Word(_) => 0,
        TagV::Int(_) => 1,
        TagV::Float { .. } => 2,
        TagV::Bool(_) => 3,
    }
}

/// Strict order of values: words before integers before numbers with a fraction
/// before booleans, and within each shape its own order.
pub open spec fn tag_lt(a: TagV, b: TagV) -> bool {
    match (a, b) {
        (TagV::Word(x), TagV::Word(y)) => text_lt(x, y),
        (TagV::Int(x), TagV::Int(y)) => x < y,
        (TagV::Float { bits: x, .. }, TagV::Float { bits: y, .. }) => total_key(x) < total_key(y),
        (TagV::Bool(x), TagV::Bool(y)) => !x && y,
        _ => rank(a) < rank(b),
    }
}

pub open spec fn tag_le(a: TagV, b: TagV) -> bool {
    tag_lt(a, b) || tag_eq(a, b)
}

/// How a value is written.
pub open spec fn render(v: TagV) -> Seq<char> {
    match v {
        TagV::Word(w) => w,
        TagV::Int(i) => dec_int(i),
        TagV::Float { text, .. } => text,
        TagV::Bool(b) => if b {
            "true"@
        } else {
            "false"@
        },
    }
}

/// The exponent of a positive power of two.
pub open spec fn exponent(i: int) -> Option<nat>
    decreases i,
{
    if i <= 0 {
        None
    } else if i == 1 {
        Some(0)
    } else if i % 2 == 0 {
        match exponent(i / 2) {
            Some(n) => Some(n + 1),
            None => None,
        }
    } else {
        None
    }
}

/// How a number with a fraction is written in a selector expression: where its text would
/// read as an integer, with the fraction spelled out.
pub open spec fn float_expr(text: Seq<char>) -> Seq<char> {
    if read_signed(text, i64::MIN as int, i64::MAX as int) is Some {
        text + ".0"@
    } else {
        text
    }
}

/// How a value is written in a selector expression; with `powers`, a power of two
/// as `2^N`.
pub open spec fn expr_of(v: TagV, powers: bool) -> Seq<char> {
    match v {
        TagV::Int(i) if powers && exponent(i) is Some => "2^"@ + dec(exponent(i)->Some_0),
        TagV::Float { text, .. } => float_expr(text),
        _ => render(v),
    }
}

/// How a value in a selector expression is read.
pub open spec fn read_value(raw: Seq<char>, floats: Floats) -> Result<TagV, TagErrorV> {
    let t = trim(raw);
    if t.len() == 0 {
        Err(TagErrorV::BadValue { key: ""@, raw: t })
    } else if "2^"@.is_prefix_of(t) {
        match read_unsigned(t.skip(2), u32::MAX as nat) {
            Some(n) => if n < 63 {
                Ok(TagV::Int(pow2(n) as int))
            } else {
                Err(TagErrorV::BadValue { key: ""@, raw: t })
            },
            None => Err(TagErrorV::BadValue { key: ""@, raw: t }),
        }
    } else {
        match read_signed(t, i64::MIN as int, i64::MAX as int) {
            Some(i) => Ok(TagV::Int(i)),
            None => match floats.reading(t) {
                ReadingV::Finite { bits, text } => Ok(TagV::Float { bits, text }),
                ReadingV::NonFinite => Err(TagErrorV::NaN),
                ReadingV::NotAFloat => if t == "true"@ {
                    Ok(TagV::Bool(true))
                } else if t == "false"@ {
                    Ok(TagV::Bool(false))
                } else {
                    Ok(TagV::Word(t))
                },
            },
        }
    }
}

/// Two to the power of the exponent is the number again.
pub proof fn exponent_is_log(i: int)
    ensures
        match exponent(i) {
            Some(n) => i == pow2(n),
            None => true,
        },
    decreases i,
{
    vstd::arithmetic::power2::lemma2_to64();
    if i > 1 && i % 2 == 0 {
        exponent_is_log(i / 2);
        match exponent(i / 2) {
            Some(n) => {
                lemma_pow2_unfold(n + 1);
            },
            None => {},
        }
    }
}

/// A power of two has its exponent.
pub proof fn exponent_of_pow2(n: nat)
    ensures
        exponent(pow2(n) as int) == Some(n),
        pow2(n) >= 1,
    decreases n,
{
    vstd::arithmetic::power2::lemma2_to64();
    if n > 0 {
        lemma_pow2_unfold(n);
        exponent_of_pow2((n - 1) as nat);
    }
}

/// `2^n` as a machine integer.
pub fn power_of_two(n: u64) -> (r: i64)
    requires
        n < 63,
    ensures
        r == pow2(n as nat),
{
    let mut v: i64 = 1;
    let mut i: u64 = 0;
    proof {
        vstd::arithmetic::power2::lemma2_to64();
    }
    while i < n
        invariant
            i <= n < 63,
            v == pow2(i as nat),
        decreases n - i,
    {
        proof {
            vstd::arithmetic::power2::lemma2_to64();
            vstd::arithmetic::power2::lemma2_to64_rest();
            lemma_pow2_unfold((i + 1) as nat);
            if i < 61 {
                lemma_pow2_strictly_increases(i as nat, 61);
            }
        }
        v = v * 2;
        i = i + 1;
    }
    v
}

/// The exponent of a positive power of two, if it is one.
fn log_two(i: i64) -> (r: Option<u64>)
    ensures
        match r {
            Some(n) => exponent(i as int) == Some(n as nat),
            None => exponent(i as int) is None,
        },
{
    if i <= 0 {
        return None;
    }
    let mut v: i64 = i;
    let mut n: u64 = 0;
    while v % 2 == 0
        invariant
            1 <= v <= i,
            n + v <= i,
            match exponent(v as int) {
                Some(k) => exponent(i as int) == Some((k + n) as nat),
                None => exponent(i as int) is None,
            },
        decreases v,
    {
        v = v / 2;
        n = n + 1;
    }
    if v == 1 {
        Some(n)
    } else {
        None
    }
}

impl F64Ord {
    /// Strictly before in the total order.
    pub fn before(&self, other: &Self) -> (r: bool)
        ensures
            r == (total_key(self.bits) < total_key(other.bits)),
    {
        let half: u64 = 0x8000_0000_0000_0000;
        if self.bits < half {
            other.bits < half && self.bits < other.bits
        } else {
            other.bits < half || other.bits < self.bits
        }
    }
}

impl Clone for TagValue {
    fn clone(&self) -> (r: Self)
        ensures
            r@ == self@,
    {
        match self {
            TagValue::Word(w) => TagValue::Word(w.clone()),
            TagValue::Int(i) => TagValue::Int(*i),
            TagValue::Float(f) => TagValue::Float(f.clone()),
            TagValue::Bool(b) => TagValue::Bool(*b),
        }
    }
}

impl TagValue {
    /// The same value.
    pub fn same_as(&self, other: &Self) -> (r: bool)
        ensures
            r == tag_eq(self@, other@),
    {
        match (self, other) {
            (TagValue::Word(a), TagValue::Word(b)) => same(a.as_str(), b.as_str()),
            (TagValue::Int(a), TagValue::Int(b)) => *a == *b,
            (TagValue::Float(a), TagValue::Float(b)) => a.bits == b.bits,
            (TagValue::Bool(a), TagValue::Bool(b)) => *a == *b,
            _ => false,
        }
    }

    /// Strictly before in the order of values.
    pub fn before(&self, other: &Self) -> (r: bool)
        ensures
            r == tag_lt(self@, other@),
    {
        match (self, other) {
            (TagValue::Word(a), TagValue::Word(b)) => crate::text::before(a.as_str(), b.as_str()),
            (TagValue::Int(a), TagValue::Int(b)) => *a < *b,
            (TagValue::Float(a), TagValue::Float(b)) => a.before(b),
            (TagValue::Bool(a), TagValue::Bool(b)) => !*a && *b,
            (TagValue::Word(_), _) => true,
            (TagValue::Int(_), TagValue::Float(_)) => true,
            (TagValue::Int(_), TagValue::Bool(_)) => true,
            (TagValue::Float(_), TagValue::Bool(_)) => true,
            _ => false,
        }
    }

    /// The value as written.
    pub fn to_string(&self) -> (r: String)
        ensures
            r@ == render(self@),
    {
        match self {
            TagValue::Word(w) => w.clone(),
            TagValue::Int(i) => decimal_signed(*i),
            TagValue::Float(f) => f.text.clone(),
            TagValue::Bool(b) => if *b {
                "true".to_owned()
            } else {
                "false".to_owned()
            },
        }
    }

    /// Read a value as written in a selector expression.
    ///
    /// `2^20` expands to `1048576`: the sizes are always powers of two and the
    /// exponent is what anyone actually says out loud. `floats` says which texts
    /// are numbers with a fraction.
    pub fn parse(raw: &str, floats: &Floats) -> (r: Result<Self, TagError>)
        ensures
            match r {
                Ok(v) => read_value(raw@, *floats) == Ok::<TagV, TagErrorV>(v@),
                Err(e) => read_value(raw@, *floats) == Err::<TagV, TagErrorV>(e@),
            },
    {
        let t = trimmed(raw);
        proof {
            reveal_strlit("2^");
            assert("2^"@.len() == 2);
            reveal_strlit("");
            assert(""@ =~= Seq::empty());
        }
        if t.is_empty() {
            return Err(TagError::BadValue { key: "".to_owned(), raw: t.to_owned() });
        }
        if let Some(rest) = strip_prefix(t, "2^") {
            return match parse_unsigned(rest, u32::MAX as u64) {
                Some(n) => if n < 63 {
                    Ok(TagValue::Int(power_of_two(n)))
                } else {
                    Err(TagError::BadValue { key: "".to_owned(), raw: t.to_owned() })
                },
                None => Err(TagError::BadValue { key: "".to_owned(), raw: t.to_owned() }),
            };
        }
        if let Some(i) = parse_i64(t) {
            return Ok(TagValue::Int(i));
        }
        match floats.read(t) {
            FloatReading::Finite(f) => Ok(TagValue::Float(f)),
            FloatReading::NonFinite => Err(TagError::NaN),
            FloatReading::NotAFloat => if same(t, "true") {
                Ok(TagValue::Bool(true))
            } else if same(t, "false") {
                Ok(TagValue::Bool(false))
            } else {
                Ok(TagValue::Word(t.to_owned()))
            },
        }
    }

    /// Render for a selector expression, to be read back by [`Self::parse`]. `pow2` asks
    /// for `2^20` rather than `1048576`, which is what makes a printed command readable
    /// for tree sizes. A whole number with a fraction keeps it, as in `1.0`: without, it
    /// would be read as an integer.
    pub fn to_expr(&self, pow2: bool) -> (r: String)
        ensures
            r@ == expr_of(self@, pow2),
    {
        if pow2 {
            if let TagValue::Int(i) = self {
                if let Some(n) = log_two(*i) {
                    let mut s = "2^".to_owned();
                    s.append(decimal(n).as_str());
                    return s;
                }
            }
        }
        if let TagValue::Float(f) = self {
            let mut s = f.text.clone();
            if parse_i64(f.text.as_str()).is_some() {
                s.append(".0");
            }
            return s;
        }
        self.to_string()
    }
}

// ---------------------------------------------------------------- errors

#[derive(Debug, PartialEq, Eq)]
pub enum TagError {
    UnknownKey(String),
    BadValue { key: String, raw: String },
    NotAllowed { key: String, value: String, allowed: Vec<String> },
    BadExtension { key: String, reason: String },
    NaN,
}

/// A tag error by its contents.
pub enum TagErrorV {
    UnknownKey(Seq<char>),
    BadValue { key: Seq<char>, raw: Seq<char> },
    NotAllowed { key: Seq<char>, value: Seq<char>, allowed: Seq<Seq<char>> },
    BadExtension { key: Seq<char>, reason: Seq<char> },
    NaN,
}

impl View for TagError {
    type V = TagErrorV;

    open spec fn view(&self) -> TagErrorV {
        match self {
            TagError::UnknownKey(k) => TagErrorV::UnknownKey(k@),
            TagError::BadValue { key, raw } => TagErrorV::BadValue { key: key@, raw: raw@ },
            TagError::NotAllowed { key, value, allowed } => TagErrorV::NotAllowed {
                key: key@,
                value: value@,
                allowed: texts(allowed@),
            },
            TagError::BadExtension { key, reason } => TagErrorV::BadExtension {
                key: key@,
                reason: reason@,
            },
            TagError::NaN => TagErrorV::NaN,
        }
    }
}

/// What an error says.
pub open spec fn tag_error_message(e: TagErrorV) -> Seq<char> {
    match e {
        TagErrorV::UnknownKey(k) => "unknown tag key `"@ + k + "`"@,
        TagErrorV::BadValue { key, raw } => "`"@ + raw + "` is not a value for `"@ + key + "`"@,
        TagErrorV::NotAllowed { key, value, allowed } => {
            let base = "value `"@ + value + "` is not allowed for `"@ + key + "` (allowed: "@
                + crate::text::join(allowed, ", "@) + ")"@;
            if key == "impl"@ {
                base + "; a new subject belongs in `UNIVERSAL`"@
            } else {
                base
            }
        },
        TagErrorV::BadExtension { key, reason } => "extension key `"@ + key + "` "@ + reason,
        TagErrorV::NaN => "a value must be a finite number"@,
    }
}

impl TagError {
    pub fn to_string(&self) -> (r: String)
        ensures
            r@ == tag_error_message(self@),
    {
        match self {
            TagError::UnknownKey(k) => {
                let mut s = "unknown tag key `".to_owned();
                s.append(k.as_str());
                s.append("`");
                s
            },
            TagError::BadValue { key, raw } => {
                let mut s = "`".to_owned();
                s.append(raw.as_str());
                s.append("` is not a value for `");
                s.append(key.as_str());
                s.append("`");
                s
            },
            TagError::NotAllowed { key, value, allowed } => {
                let mut s = "value `".to_owned();
                s.append(value.as_str());
                s.append("` is not allowed for `");
                s.append(key.as_str());
                s.append("` (allowed: ");
                s.append(crate::text::joined(allowed, ", ").as_str());
                s.append(")");
                if same(key.as_str(), "impl") {
                    s.append("; a new subject belongs in `UNIVERSAL`");
                }
                s
            },
            TagError::BadExtension { key, reason } => {
                let mut s = "extension key `".to_owned();
                s.append(key.as_str());
                s.append("` ");
                s.append(reason.as_str());
                s
            },
            TagError::NaN => "a value must be a finite number".to_owned(),
        }
    }
}

// ---------------------------------------------------------------- conversions

/// Conversion of plain values to tag values.
pub trait IntoTagValue: Sized {
    /// The value that stands for this one.
    spec fn tag_of(self) -> TagV;

    fn into_tag_value(self) -> (r: TagValue)
        ensures
            r@ == self.tag_of(),
    ;
}

impl IntoTagValue for &str {
    open spec fn tag_of(self) -> TagV {
        TagV::Word(self@)
    }

    fn into_tag_value(self) -> (r: TagValue) {
        TagValue::Word(self.to_owned())
    }
}

impl IntoTagValue for i64 {
    open spec fn tag_of(self) -> TagV {
        TagV::Int(self as int)
    }

    fn into_tag_value(self) -> (r: TagValue) {
        TagValue::Int(self)
    }
}

impl IntoTagValue for i32 {
    open spec fn tag_of(self) -> TagV {
        TagV::Int(self as int)
    }

    fn into_tag_value(self) -> (r: TagValue) {
        TagValue::Int(self as i64)
    }
}

impl IntoTagValue for usize {
    /// Wraps around above the largest `i64`.
    open spec fn tag_of(self) -> TagV {
        TagV::Int((self as i64) as int)
    }

    fn into_tag_value(self) -> (r: TagValue) {
        TagValue::Int(self as i64)
    }
}

impl IntoTagValue for bool {
    open spec fn tag_of(self) -> TagV {
        TagV::Bool(self)
    }

    fn into_tag_value(self) -> (r: TagValue) {
        TagValue::Bool(self)
    }
}

impl IntoTagValue for F64Ord {
    open spec fn tag_of(self) -> TagV {
        TagV::Float { bits: self.bits, text: self.text@ }
    }

    fn into_tag_value(self) -> (r: TagValue) {
        TagValue::Float(self)
    }
}

// ---------------------------------------------------------------- tag maps

/// A complete, ordered tag map. The entries stand in the order of their keys and
/// no key stands twice, so two points with the same identity are written alike.
#[derive(Debug, PartialEq, Eq)]
pub struct TagMap {
    entries: Vec<(String, TagValue)>,
}

/// Strictly ascending keys.
pub open spec fn ascending(e: Seq<(String, TagValue)>) -> bool {
    forall|i: int, j: int|
        0 <= i < j < e.len() ==> text_lt((#[trigger] e[i]).0@, (#[trigger] e[j]).0@)
}

pub open spec fn is_entry(e: Seq<(String, TagValue)>, i: int, key: Seq<char>) -> bool {
    0 <= i < e.len() && e[i].0@ == key
}

/// The map that a list of entries stands for.
pub open spec fn entry_map(e: Seq<(String, TagValue)>) -> Map<Seq<char>, TagV> {
    Map::new(
        |key: Seq<char>| exists|i: int| is_entry(e, i, key),
        |key: Seq<char>| e[choose|i: int| is_entry(e, i, key)].1@,
    )
}

/// Every entry is in the map.
pub proof fn entry_map_at(e: Seq<(String, TagValue)>, i: int)
    requires
        ascending(e),
        0 <= i < e.len(),
    ensures
        entry_map(e).dom().contains(e[i].0@),
        entry_map(e)[e[i].0@] == e[i].1@,
{
    let key = e[i].0@;
    assert(is_entry(e, i, key));
    let j = choose|j: int| is_entry(e, j, key);
    if i < j {
        text_lt_irreflexive(key);
    } else if j < i {
        text_lt_irreflexive(key);
    }
}

impl View for TagMap {
    type V = Map<Seq<char>, TagV>;

    closed spec fn view(&self) -> Map<Seq<char>, TagV> {
        entry_map(self.entries@)
    }
}

impl TagMap {
    #[verifier::type_invariant]
    spec fn ordered(self) -> bool {
        ascending(self.entries@)
    }

    pub fn new() -> (r: Self)
        ensures
            r@ == Map::<Seq<char>, TagV>::empty(),
    {
        let r = TagMap { entries: Vec::new() };
        assert(r@ =~= Map::<Seq<char>, TagV>::empty()) by {
            assert forall|key: Seq<char>| !r@.dom().contains(key) by {
                assert(forall|i: int| !is_entry(r.entries@, i, key));
            }
        }
        r
    }

    /// The entries in the order of their keys.
    pub fn entries(&self) -> (r: &Vec<(String, TagValue)>)
        ensures
            ascending(r@),
            self@ == entry_map(r@),
    {
        proof {
            use_type_invariant(self);
        }
        &self.entries
    }

    /// The first position whose key is not before `key`.
    fn place(&self, key: &str) -> (at: usize)
        ensures
            at <= self.entries@.len(),
            forall|i: int| 0 <= i < at ==> text_lt((#[trigger] self.entries@[i]).0@, key@),
            at < self.entries@.len() ==> !text_lt(self.entries@[at as int].0@, key@),
    {
        let mut at: usize = 0;
        while at < self.entries.len() && crate::text::before(self.entries[at].0.as_str(), key)
            invariant
                at <= self.entries@.len(),
                forall|i: int| 0 <= i < at ==> text_lt((#[trigger] self.entries@[i]).0@, key@),
            decreases self.entries@.len() - at,
        {
            at = at + 1;
        }
        at
    }

    pub fn get(&self, key: &str) -> (r: Option<&TagValue>)
        ensures
            match r {
                Some(v) => self@.dom().contains(key@) && self@[key@] == v@,
                None => !self@.dom().contains(key@),
            },
    {
        proof {
            use_type_invariant(self);
        }
        let at = self.place(key);
        if at < self.entries.len() && same(self.entries[at].0.as_str(), key) {
            proof {
                entry_map_at(self.entries@, at as int);
            }
            return Some(&self.entries[at].1);
        }
        proof {
            let e = self.entries@;
            assert forall|i: int| !is_entry(e, i, key@) by {
                if is_entry(e, i, key@) {
                    text_lt_irreflexive(key@);
                    assert(i >= at);
                    if i > at {
                        text_lt_total(e[at as int].0@, key@);
                        text_lt_transitive(key@, e[at as int].0@, e[i].0@);
                    }
                }
            }
        }
        None
    }

    /// Set the value of `key`.
    pub fn insert(&mut self, key: &str, value: TagValue)
        ensures
            final(self)@ == old(self)@.insert(key@, value@),
    {
        proof {
            use_type_invariant(&*self);
        }
        let at = self.place(key);
        let mut entries: Vec<(String, TagValue)> = Vec::new();
        let ghost e = self.entries@;
        let n: usize = self.entries.len();
        let present = at < n && same(self.entries[at].0.as_str(), key);
        let owned = key.to_owned();
        std::mem::swap(&mut entries, &mut self.entries);
        if present {
            entries.set(at, (owned, value));
        } else {
            entries.insert(at, (owned, value));
        }
        proof {
            let f = entries@;
            text_lt_irreflexive(key@);
            if !present && at < n {
                text_lt_total(e[at as int].0@, key@);
            }
            assert forall|i: int| 0 <= i < n && i >= at && !present implies text_lt(
                key@,
                (#[trigger] e[i]).0@,
            ) by {
                if i > at {
                    text_lt_transitive(key@, e[at as int].0@, e[i].0@);
                }
            }
            assert(ascending(f)) by {
                assert forall|i: int, j: int| 0 <= i < j < f.len() implies text_lt(
                    (#[trigger] f[i]).0@,
                    (#[trigger] f[j]).0@,
                ) by {
                    if present {
                        assert(f[i].0@ == e[i].0@ && f[j].0@ == e[j].0@);
                    } else if j < at {
                        assert(f[i] == e[i] && f[j] == e[j]);
                    } else if j == at {
                        assert(f[i] == e[i]);
                    } else if i < at {
                        assert(f[i] == e[i] && f[j] == e[j - 1]);
                    } else if i == at {
                        assert(f[j] == e[j - 1]);
                    } else {
                        assert(f[i] == e[i - 1] && f[j] == e[j - 1]);
                    }
                }
            }
            let want = entry_map(e).insert(key@, value@);
            assert forall|k: Seq<char>| entry_map(f).dom().contains(k) == want.dom().contains(k) by {
                if want.dom().contains(k) {
                    if k == key@ {
                        assert(is_entry(f, at as int, k));
                    } else {
                        let i = choose|i: int| is_entry(e, i, k);
                        if present || i < at {
                            assert(is_entry(f, i, k));
                        } else {
                            assert(is_entry(f, i + 1, k));
                        }
                    }
                }
                if entry_map(f).dom().contains(k) {
                    let i = choose|i: int| is_entry(f, i, k);
                    if i != at {
                        if present || i < at {
                            assert(is_entry(e, i, k));
                        } else {
                            assert(is_entry(e, i - 1, k));
                        }
                    }
                }
            }
            assert forall|k: Seq<char>| want.dom().contains(k) implies entry_map(f)[k] == want[k] by {
                assert(entry_map(f).dom().contains(k));
                let i = choose|i: int| is_entry(f, i, k);
                entry_map_at(f, i);
                if i == at {
                    assert(k == key@);
                } else if present || i < at {
                    entry_map_at(e, i);
                    assert(f[i] == e[i]);
                } else {
                    entry_map_at(e, i - 1);
                    assert(f[i] == e[i - 1]);
                }
                if i != at && k == key@ {
                    entry_map_at(f, at as int);
                }
            }
            assert(entry_map(f) =~= want);
        }
        self.entries = entries;
    }
}

impl Clone for TagMap {
    fn clone(&self) -> (r: Self)
        ensures
            r@ == self@,
    {
        proof {
            use_type_invariant(self);
        }
        let ghost e = self.entries@;
        let mut entries: Vec<(String, TagValue)> = Vec::new();
        let mut i: usize = 0;
        while i < self.entries.len()
            invariant
                i <= self.entries@.len(),
                e == self.entries@,
                entries@.len() == i,
                forall|j: int|
                    0 <= j < i ==> (#[trigger] entries@[j]).0@ == e[j].0@ && entries@[j].1@ == e[j].1@,
            decreases self.entries@.len() - i,
        {
            entries.push((self.entries[i].0.clone(), self.entries[i].1.clone()));
            i = i + 1;
        }
        proof {
            let f = entries@;
            assert(ascending(f)) by {
                assert forall|i: int, j: int| 0 <= i < j < f.len() implies text_lt(
                    (#[trigger] f[i]).0@,
                    (#[trigger] f[j]).0@,
                ) by {
                    assert(text_lt(e[i].0@, e[j].0@));
                }
            }
            assert forall|k: Seq<char>| entry_map(f).dom().contains(k) == entry_map(e).dom().contains(k) by {
                if entry_map(e).dom().contains(k) {
                    let i = choose|i: int| is_entry(e, i, k);
                    assert(is_entry(f, i, k));
                }
                if entry_map(f).dom().contains(k) {
                    let i = choose|i: int| is_entry(f, i, k);
                    assert(is_entry(e, i, k));
                }
            }
            assert forall|k: Seq<char>| entry_map(e).dom().contains(k) implies entry_map(f)[k]
                == entry_map(e)[k] by {
                let i = choose|i: int| is_entry(e, i, k);
                entry_map_at(e, i);
                entry_map_at(f, i);
            }
            assert(entry_map(f) =~= entry_map(e));
        }
        TagMap { entries }
    }
}

// ---------------------------------------------------------------- laws

/// A value that a selector expression can name: one whose text is read as that
/// value again.
///
/// A word must not look like anything else; a number with a fraction must read as
/// itself and not as an integer.
pub open spec fn nameable(v: TagV, floats: Floats) -> bool {
    let t = render(v);
    match v {
        TagV::Int(i) => i64::MIN <= i <= i64::MAX,
        TagV::Word(w) => {
            &&& w.len() > 0 && trim(w) == w
            &&& !"2^"@.is_prefix_of(w)
            &&& read_signed(w, i64::MIN as int, i64::MAX as int) is None
            &&& floats.reading(w) is NotAFloat
            &&& w != "true"@ && w != "false"@
        },
        TagV::Float { bits, text } => {
            let w = float_expr(text);
            &&& w.len() > 0 && trim(w) == w
            &&& !"2^"@.is_prefix_of(w)
            &&& read_signed(w, i64::MIN as int, i64::MAX as int) is None
            &&& floats.reading(w) == ReadingV::Finite { bits, text }
        },
        TagV::Bool(_) => floats.reading(t) is NotAFloat,
    }
}

/// A text without leading or trailing white space is its own trimming.
pub proof fn trimmed_already(s: Seq<char>)
    requires
        s.len() > 0,
        !crate::text::is_space(s[0]),
        !crate::text::is_space(s.last()),
    ensures
        trim(s) == s,
{
    trim_start_is_skip(s, 0);
    assert(s.skip(0) =~= s);
    trim_end_is_take(s, s.len() as int);
    assert(s.take(s.len() as int) =~= s);
}

/// A value written for a selector expression, with or without powers of two
/// written as such, is read back as the same value.
pub proof fn value_round_trips(v: TagV, powers: bool, floats: Floats)
    requires
        nameable(v, floats),
    ensures
        read_value(expr_of(v, powers), floats) == Ok::<TagV, TagErrorV>(v),
{
    reveal_strlit("2^");
    reveal_strlit("true");
    reveal_strlit("false");
    let t = expr_of(v, powers);
    match v {
        TagV::Int(i) => {
            if powers && exponent(i) is Some {
                let n = exponent(i)->Some_0;
                exponent_is_log(i);
                decimal_reads_back(n);
                assert(is_digit(dec(n)[0]));
                assert(is_digit(dec(n).last()));
                assert(t[0] == '2');
                assert(t.last() == dec(n).last());
                trimmed_already(t);
                assert("2^"@.is_prefix_of(t));
                assert(t.skip(2) =~= dec(n));
                if n >= 63 {
                    vstd::arithmetic::power2::lemma2_to64();
                    vstd::arithmetic::power2::lemma2_to64_rest();
                    if n > 63 {
                        lemma_pow2_strictly_increases(63, n);
                    }
                }
                unsigned_decimal_round_trips(n, u32::MAX as nat);
            } else {
                signed_decimal_round_trips(i);
                decimal_reads_back((if i < 0 { -i } else { i }) as nat);
                let d = dec((if i < 0 { -i } else { i }) as nat);
                assert(is_digit(d[0]) && is_digit(d.last()));
                assert(t.last() == d.last());
                trimmed_already(t);
                if "2^"@.is_prefix_of(t) {
                    assert("2^"@[1] == '^');
                    assert(t[1] == '^');
                    if i < 0 {
                        assert(t[0] == '-');
                    } else {
                        assert(is_digit(d[1]));
                    }
                }
            }
        },
        TagV::Bool(b) => {
            trimmed_already(t);
            assert(t[0] == 't' || t[0] == 'f');
            if "2^"@.is_prefix_of(t) {
                assert("2^"@[0] == '2');
                assert(t[0] == '2');
            }
            assert(t[1] == 'r' || t[1] == 'a');
            assert(!is_digit(t[1]));
            assert(crate::text::after_plus(t) == t);
            assert(!all_digits(t));
            assert("true"@.len() == 4 && "false"@.len() == 5);
        },
        _ => {},
    }
}

/// The same keys, with the same values.
pub open spec fn same_tags(a: Map<Seq<char>, TagV>, b: Map<Seq<char>, TagV>) -> bool {
    forall|k: Seq<char>|
        (#[trigger] a.dom().contains(k)) == b.dom().contains(k) && (a.dom().contains(k) ==> tag_eq(
            a[k],
            b[k],
        ))
}

/// Do two maps have the same keys, with the same values?
pub fn equal_tags(a: &TagMap, b: &TagMap) -> (r: bool)
    ensures
        r == same_tags(a@, b@),
{
    let x = a.entries();
    let y = b.entries();
    let mut i: usize = 0;
    while i < x.len()
        invariant
            i <= x@.len(),
            a@ == entry_map(x@),
            ascending(x@),
            forall|j: int|
                0 <= j < i ==> b@.dom().contains((#[trigger] x@[j]).0@) && tag_eq(
                    a@[x@[j].0@],
                    b@[x@[j].0@],
                ),
        decreases x@.len() - i,
    {
        proof {
            entry_map_at(x@, i as int);
        }
        match b.get(x[i].0.as_str()) {
            None => {
                assert(a@.dom().contains(x@[i as int].0@));
                return false;
            },
            Some(v) => {
                if !x[i].1.same_as(v) {
                    assert(a@.dom().contains(x@[i as int].0@));
                    return false;
                }
            },
        }
        i = i + 1;
    }
    let mut j: usize = 0;
    while j < y.len()
        invariant
            j <= y@.len(),
            b@ == entry_map(y@),
            ascending(y@),
            forall|k: int| 0 <= k < j ==> a@.dom().contains((#[trigger] y@[k]).0@),
        decreases y@.len() - j,
    {
        proof {
            entry_map_at(y@, j as int);
        }
        if a.get(y[j].0.as_str()).is_none() {
            assert(b@.dom().contains(y@[j as int].0@));
            assert(!a@.dom().contains(y@[j as int].0@));
            return false;
        }
        j = j + 1;
    }
    proof {
        assert forall|k: Seq<char>|
            (#[trigger] a@.dom().contains(k)) == b@.dom().contains(k) && (a@.dom().contains(k)
                ==> tag_eq(a@[k], b@[k])) by {
            if a@.dom().contains(k) {
                let e = choose|e: int| is_entry(x@, e, k);
                assert(b@.dom().contains(x@[e].0@));
            }
            if b@.dom().contains(k) {
                let e = choose|e: int| is_entry(y@, e, k);
                assert(a@.dom().contains(y@[e].0@));
            }
        }
    }
    true
}

} // verus!
