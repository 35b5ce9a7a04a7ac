//! The selector language.
//!
//! ```text
//! impl=kiddo_v6,query=exact_nn,axis=f64,k=1|5|20,tree_size=2^20..2^26
//! ```
//!
//! `,` = AND; `|` = OR within a key; `..` = inclusive range; `*` = key must exist;
//! `!key=value` = negate. Repeating a selector unions the matched sets.
//!
//! The same expression both filters which cases run and pins which param values
//! are swept, so there is no separate flag to keep in sync.

use crate::tag::{expr_of, read_value, tag_eq, tag_le, tag_lt, values, Floats, TagMap, TagV, TagValue};
use crate::text::{
    chars, debug_text, dec, decimal, find, find_bounds, find_text, holds, join, joined, pieces,
    quoted, same, split, split_once, split_once_text, strip_prefix, texts, trim, trimmed,
};
use crate::vocab::{lookup, writes_powers};
use vstd::prelude::*;

verus! {

#[derive(Debug, PartialEq, Eq)]
pub enum Match {
    /// `k=1|5|20`
    OneOf(Vec<TagValue>),
    /// `tree_size=2^20..2^26`, inclusive
    Range { lo: TagValue, hi: TagValue },
    /// `stem=*`: any value, but the key must be present.
    Any,
}

#[derive(Debug, PartialEq, Eq)]
pub struct Clause {
    pub key: String,
    pub matcher: Match,
    /// `!key=value`. Negation still requires the key to be present, so
    /// `!kiddo.stem=eytzinger` does not admit a subject that has no stem at all.
    pub negated: bool,
}

/// A conjunction of clauses. Several selectors are unioned by [`SelectorSet`].
#[derive(Debug, PartialEq, Eq)]
pub struct Selector {
    pub clauses: Vec<Clause>,
}

#[derive(Debug, PartialEq, Eq)]
pub struct SelectorSet {
    pub selectors: Vec<Selector>,
}

#[derive(Debug, PartialEq, Eq)]
pub enum SelectorError {
    UnknownKey(String),
    Syntax { at: usize, msg: String },
    BadValue { key: String, raw: String },
    /// e.g. `tree_size=2^26..2^20`
    InvertedRange { key: String },
}

// ---------------------------------------------------------------- models

pub enum MatchV {
    OneOf(Seq<TagV>),
    Range { lo: TagV, hi: TagV },
    Any,
}

pub struct ClauseV {
    pub key: Seq<char>,
    pub matcher: MatchV,
    pub negated: bool,
}

pub enum SelectorErrorV {
    UnknownKey(Seq<char>),
    Syntax { at: int, msg: Seq<char> },
    BadValue { key: Seq<char>, raw: Seq<char> },
    InvertedRange { key: Seq<char> },
}

impl View for Match {
    type V = MatchV;

    open spec fn view(&self) -> MatchV {
        match self {
            Match::OneOf(vs) => MatchV::OneOf(values(vs@)),
            Match::Range { lo, hi } => MatchV::Range { lo: lo@, hi: hi@ },
            Match::Any => MatchV::Any,
        }
    }
}

impl View for Clause {
    type V = ClauseV;

    open spec fn view(&self) -> ClauseV {
        ClauseV { key: self.key@, matcher: self.matcher@, negated: self.negated }
    }
}

pub open spec fn clauses_of(v: Seq<Clause>) -> Seq<ClauseV> {
    Seq::new(v.len(), |i: int| v[i]@)
}

impl View for Selector {
    type V = Seq<ClauseV>;

    open spec fn view(&self) -> Seq<ClauseV> {
        clauses_of(self.clauses@)
    }
}

pub open spec fn selectors_of(v: Seq<Selector>) -> Seq<Seq<ClauseV>> {
    Seq::new(v.len(), |i: int| v[i]@)
}

impl View for SelectorSet {
    type V = Seq<Seq<ClauseV>>;

    open spec fn view(&self) -> Seq<Seq<ClauseV>> {
        selectors_of(self.selectors@)
    }
}

impl View for SelectorError {
    type V = SelectorErrorV;

    open spec fn view(&self) -> SelectorErrorV {
        match self {
            SelectorError::UnknownKey(k) => SelectorErrorV::UnknownKey(k@),
            SelectorError::Syntax { at, msg } => SelectorErrorV::Syntax { at: *at as int, msg: msg@ },
            SelectorError::BadValue { key, raw } => SelectorErrorV::BadValue { key: key@, raw: raw@ },
            SelectorError::InvertedRange { key } => SelectorErrorV::InvertedRange { key: key@ },
        }
    }
}

/// How a selector error is written.
pub open spec fn selector_error_text(e: SelectorErrorV) -> Seq<char> {
    match e {
        SelectorErrorV::UnknownKey(x) => "UnknownKey("@ + debug_text(x) + ")"@,
        SelectorErrorV::Syntax { at, msg } => "Syntax { at: "@ + dec(at as nat) + ", msg: "@ + debug_text(msg) + " }"@,
        SelectorErrorV::BadValue { key, raw } => "BadValue { key: "@ + debug_text(key) + ", raw: "@ + debug_text(raw) + " }"@,
        SelectorErrorV::InvertedRange { key } => "InvertedRange { key: "@ + debug_text(key) + " }"@,
    }
}

impl SelectorError {
    pub fn to_string(&self) -> (r: String)
        ensures
            r@ == selector_error_text(self@),
    {
        match self {
            SelectorError::UnknownKey(x) => {
                let mut s = "UnknownKey(".to_owned();
                s.append(quoted(x.as_str()).as_str());
                s.append(")");
                s
            },
            SelectorError::Syntax { at, msg } => {
                let mut s = "Syntax { at: ".to_owned();
                s.append(decimal(*at as u64).as_str());
                s.append(", msg: ");
                s.append(quoted(msg.as_str()).as_str());
                s.append(" }");
                s
            },
            SelectorError::BadValue { key, raw } => {
                let mut s = "BadValue { key: ".to_owned();
                s.append(quoted(key.as_str()).as_str());
                s.append(", raw: ");
                s.append(quoted(raw.as_str()).as_str());
                s.append(" }");
                s
            },
            SelectorError::InvertedRange { key } => {
                let mut s = "InvertedRange { key: ".to_owned();
                s.append(quoted(key.as_str()).as_str());
                s.append(" }");
                s
            },
        }
    }
}

// ---------------------------------------------------------------- what a selector admits

/// Is the value one of the list?
pub open spec fn listed(vs: Seq<TagV>, value: TagV) -> bool {
    exists|i: int| 0 <= i < vs.len() && tag_eq(#[trigger] vs[i], value)
}

/// Does a value fall under a matcher?
pub open spec fn hits(m: MatchV, value: TagV) -> bool {
    match m {
        MatchV::Any => true,
        MatchV::OneOf(vs) => listed(vs, value),
        MatchV::Range { lo, hi } => tag_le(lo, value) && tag_le(value, hi),
    }
}

/// A clause admits a tag map that holds its key with a value on the wanted side of
/// the matcher.
pub open spec fn clause_admits(c: ClauseV, tags: Map<Seq<char>, TagV>) -> bool {
    tags.dom().contains(c.key) && hits(c.matcher, tags[c.key]) != c.negated
}

/// Every clause admits, but for those whose key is one of `params`.
pub open spec fn selector_admits(
    s: Seq<ClauseV>,
    tags: Map<Seq<char>, TagV>,
    params: Seq<Seq<char>>,
) -> bool {
    forall|i: int|
        0 <= i < s.len() && !params.contains((#[trigger] s[i]).key) ==> clause_admits(s[i], tags)
}

/// Some selector admits; no selector at all admits everything.
pub open spec fn set_admits(
    set: Seq<Seq<ClauseV>>,
    tags: Map<Seq<char>, TagV>,
    params: Seq<Seq<char>>,
) -> bool {
    set.len() == 0 || exists|i: int|
        0 <= i < set.len() && selector_admits(#[trigger] set[i], tags, params)
}

/// Where a selector first constrains `key`; its length when it does not.
pub open spec fn clause_at(s: Seq<ClauseV>, key: Seq<char>) -> int
    decreases s.len(),
{
    if s.len() == 0 || s[0].key == key {
        0
    } else {
        1 + clause_at(s.drop_first(), key)
    }
}

/// What is found as the place of a key is the first clause on it.
pub proof fn clause_at_bounds(s: Seq<ClauseV>, key: Seq<char>)
    ensures
        0 <= clause_at(s, key) <= s.len(),
        clause_at(s, key) < s.len() ==> s[clause_at(s, key)].key == key,
        forall|i: int| 0 <= i < clause_at(s, key) ==> (#[trigger] s[i]).key != key,
    decreases s.len(),
{
    if s.len() > 0 && s[0].key != key {
        let t = s.drop_first();
        clause_at_bounds(t, key);
        assert forall|i: int| 0 <= i < clause_at(s, key) implies (#[trigger] s[i]).key != key by {
            if i > 0 {
                assert(t[i - 1].key != key);
            }
        }
    }
}

/// Does the selector constrain `key`?
pub open spec fn constrains(s: Seq<ClauseV>, key: Seq<char>) -> bool {
    clause_at(s, key) < s.len()
}

// ---------------------------------------------------------------- how a selector is read

/// The trimmed pieces that are not empty.
pub open spec fn keep_pieces(parts: Seq<Seq<char>>) -> Seq<Seq<char>>
    decreases parts.len(),
{
    if parts.len() == 0 {
        Seq::empty()
    } else {
        let rest = keep_pieces(parts.drop_last());
        let t = trim(parts.last());
        if t.len() > 0 {
            rest.push(t)
        } else {
            rest
        }
    }
}

pub open spec fn top_pieces(s: Seq<char>, sep: char) -> Seq<Seq<char>> {
    keep_pieces(split(s, sep))
}

/// The values of `a|b|c`; the first that cannot be read is named.
pub open spec fn read_alternatives(
    parts: Seq<Seq<char>>,
    key: Seq<char>,
    floats: Floats,
) -> Result<Seq<TagV>, SelectorErrorV>
    decreases parts.len(),
{
    if parts.len() == 0 {
        Ok(Seq::empty())
    } else {
        match read_alternatives(parts.drop_last(), key, floats) {
            Err(e) => Err(e),
            Ok(vs) => match read_value(parts.last(), floats) {
                Ok(v) => Ok(vs.push(v)),
                Err(_) => Err(SelectorErrorV::BadValue { key, raw: parts.last() }),
            },
        }
    }
}

/// A word that ends in a dot cannot stand before the dots of a range.
pub open spec fn ends_in_dot(v: TagV) -> bool {
    v matches TagV::Word(w) && w.len() > 0 && w.last() == '.'
}

/// A `*` that is the only alternative, as in `k=*|`, would be written as the wildcard.
pub open spec fn lone_star(vs: Seq<TagV>) -> bool {
    vs.len() == 1 && vs[0] == TagV::Word("*"@)
}

/// The right-hand side of a clause. What is read can be written: a form whose text would
/// mean something else is refused.
pub open spec fn read_match(
    value: Seq<char>,
    key: Seq<char>,
    floats: Floats,
) -> Result<MatchV, SelectorErrorV> {
    if value == "*"@ {
        Ok(MatchV::Any)
    } else {
        match find_text(value, ".."@) {
            Some(at) => {
                let lo = value.take(at);
                let hi = value.skip(at + 2);
                match (read_value(lo, floats), read_value(hi, floats)) {
                    (Ok(l), Ok(h)) => if ends_in_dot(l) {
                        Err(SelectorErrorV::BadValue { key, raw: lo })
                    } else if tag_lt(h, l) {
                        Err(SelectorErrorV::InvertedRange { key })
                    } else {
                        Ok(MatchV::Range { lo: l, hi: h })
                    },
                    (Ok(_), Err(_)) => Err(SelectorErrorV::BadValue { key, raw: hi }),
                    (Err(_), _) => Err(SelectorErrorV::BadValue { key, raw: lo }),
                }
            },
            None => match read_alternatives(top_pieces(value, '|'), key, floats) {
                Err(e) => Err(e),
                Ok(vs) => if vs.len() == 0 || lone_star(vs) {
                    Err(SelectorErrorV::BadValue { key, raw: value })
                } else {
                    Ok(MatchV::OneOf(vs))
                },
            },
        }
    }
}

/// One `key=value` clause, with or without a leading `!`.
pub open spec fn read_clause(raw: Seq<char>, floats: Floats) -> Result<ClauseV, SelectorErrorV> {
    let negated = "!"@.is_prefix_of(raw);
    let body = if negated {
        trim(raw.skip(1))
    } else {
        raw
    };
    let at = find(body, '=');
    if at == body.len() {
        Err(SelectorErrorV::Syntax { at: 0, msg: "`"@ + raw + "` is not key=value"@ })
    } else {
        let key = trim(body.take(at));
        if key.len() == 0 {
            Err(SelectorErrorV::Syntax { at: 0, msg: "missing key"@ })
        } else {
            match read_match(trim(body.skip(at + 1)), key, floats) {
                Ok(matcher) => Ok(ClauseV { key, matcher, negated }),
                Err(e) => Err(e),
            }
        }
    }
}

/// All the clauses; the first that cannot be read decides the error.
pub open spec fn read_clauses(
    parts: Seq<Seq<char>>,
    floats: Floats,
) -> Result<Seq<ClauseV>, SelectorErrorV>
    decreases parts.len(),
{
    if parts.len() == 0 {
        Ok(Seq::empty())
    } else {
        match read_clauses(parts.drop_last(), floats) {
            Err(e) => Err(e),
            Ok(cs) => match read_clause(parts.last(), floats) {
                Ok(c) => Ok(cs.push(c)),
                Err(e) => Err(e),
            },
        }
    }
}

/// A selector expression.
pub open spec fn read_selector(expr: Seq<char>, floats: Floats) -> Result<
    Seq<ClauseV>,
    SelectorErrorV,
> {
    match read_clauses(top_pieces(expr, ','), floats) {
        Err(e) => Err(e),
        Ok(cs) => if cs.len() == 0 {
            Err(SelectorErrorV::Syntax { at: 0, msg: "empty selector"@ })
        } else {
            Ok(cs)
        },
    }
}

/// Several expressions, in order.
pub open spec fn read_selectors(exprs: Seq<Seq<char>>, floats: Floats) -> Result<
    Seq<Seq<ClauseV>>,
    SelectorErrorV,
>
    decreases exprs.len(),
{
    if exprs.len() == 0 {
        Ok(Seq::empty())
    } else {
        match read_selectors(exprs.drop_last(), floats) {
            Err(e) => Err(e),
            Ok(ss) => match read_selector(exprs.last(), floats) {
                Ok(s) => Ok(ss.push(s)),
                Err(e) => Err(e),
            },
        }
    }
}

// ---------------------------------------------------------------- how a selector is written

pub open spec fn exprs_of(vs: Seq<TagV>, powers: bool) -> Seq<Seq<char>> {
    Seq::new(vs.len(), |i: int| expr_of(vs[i], powers))
}

pub open spec fn match_expr(m: MatchV, powers: bool) -> Seq<char> {
    match m {
        MatchV::Any => "*"@,
        MatchV::OneOf(vs) => join(exprs_of(vs, powers), "|"@),
        MatchV::Range { lo, hi } => expr_of(lo, powers) + ".."@ + expr_of(hi, powers),
    }
}

pub open spec fn clause_expr(c: ClauseV) -> Seq<char> {
    let mark = if c.negated {
        "!"@
    } else {
        ""@
    };
    mark + c.key + "="@ + match_expr(c.matcher, writes_powers(c.key))
}

pub open spec fn clause_exprs(s: Seq<ClauseV>) -> Seq<Seq<char>> {
    Seq::new(s.len(), |i: int| clause_expr(s[i]))
}

pub open spec fn selector_expr(s: Seq<ClauseV>) -> Seq<char> {
    join(clause_exprs(s), ","@)
}

pub open spec fn set_exprs(set: Seq<Seq<ClauseV>>) -> Seq<Seq<char>> {
    Seq::new(set.len(), |i: int| selector_expr(set[i]))
}

// ---------------------------------------------------------------- executable code

/// A copy of a list of values.
pub fn copy_values(vs: &Vec<TagValue>) -> (r: Vec<TagValue>)
    ensures
        values(r@) == values(vs@),
{
    let mut r: Vec<TagValue> = Vec::new();
    let mut i: usize = 0;
    while i < vs.len()
        invariant
            i <= vs@.len(),
            r@.len() == i,
            forall|j: int| 0 <= j < i ==> (#[trigger] r@[j])@ == vs@[j]@,
        decreases vs@.len() - i,
    {
        r.push(vs[i].clone());
        i = i + 1;
    }
    assert(values(r@) =~= values(vs@));
    r
}

impl Clone for Match {
    fn clone(&self) -> (r: Self)
        ensures
            r@ == self@,
    {
        match self {
            Match::OneOf(vs) => Match::OneOf(copy_values(vs)),
            Match::Range { lo, hi } => Match::Range { lo: lo.clone(), hi: hi.clone() },
            Match::Any => Match::Any,
        }
    }
}

impl Clone for Clause {
    fn clone(&self) -> (r: Self)
        ensures
            r@ == self@,
    {
        Clause { key: self.key.clone(), matcher: self.matcher.clone(), negated: self.negated }
    }
}

impl Clone for Selector {
    fn clone(&self) -> (r: Self)
        ensures
            r@ == self@,
    {
        let mut clauses: Vec<Clause> = Vec::new();
        let mut i: usize = 0;
        while i < self.clauses.len()
            invariant
                i <= self.clauses@.len(),
                clauses@.len() == i,
                forall|j: int| 0 <= j < i ==> (#[trigger] clauses@[j])@ == self.clauses@[j]@,
            decreases self.clauses@.len() - i,
        {
            clauses.push(self.clauses[i].clone());
            i = i + 1;
        }
        assert(clauses_of(clauses@) =~= clauses_of(self.clauses@));
        Selector { clauses }
    }
}

impl Clone for SelectorSet {
    fn clone(&self) -> (r: Self)
        ensures
            r@ == self@,
    {
        let mut selectors: Vec<Selector> = Vec::new();
        let mut i: usize = 0;
        while i < self.selectors.len()
            invariant
                i <= self.selectors@.len(),
                selectors@.len() == i,
                forall|j: int| 0 <= j < i ==> (#[trigger] selectors@[j])@ == self.selectors@[j]@,
            decreases self.selectors@.len() - i,
        {
            selectors.push(self.selectors[i].clone());
            i = i + 1;
        }
        assert(selectors_of(selectors@) =~= selectors_of(self.selectors@));
        SelectorSet { selectors }
    }
}

/// Is the value one of the list?
pub fn lists(vs: &Vec<TagValue>, value: &TagValue) -> (r: bool)
    ensures
        r == listed(values(vs@), value@),
{
    let mut i: usize = 0;
    while i < vs.len()
        invariant
            i <= vs@.len(),
            forall|j: int| 0 <= j < i ==> !tag_eq(#[trigger] values(vs@)[j], value@),
        decreases vs@.len() - i,
    {
        if vs[i].same_as(value) {
            assert(tag_eq(values(vs@)[i as int], value@));
            return true;
        }
        i = i + 1;
    }
    false
}

impl Match {
    /// Does a value fall under this matcher?
    pub fn hits(&self, value: &TagValue) -> (r: bool)
        ensures
            r == hits(self@, value@),
    {
        match self {
            Match::Any => true,
            Match::OneOf(vs) => lists(vs, value),
            Match::Range { lo, hi } => {
                (lo.before(value) || lo.same_as(value)) && (value.before(hi) || value.same_as(hi))
            },
        }
    }
}

impl Clause {
    /// Does a tag map satisfy this clause?
    ///
    /// A missing key never satisfies, negated or not.
    pub fn admits(&self, tags: &TagMap) -> (r: bool)
        ensures
            r == clause_admits(self@, tags@),
    {
        match tags.get(self.key.as_str()) {
            None => false,
            Some(value) => self.matcher.hits(value) != self.negated,
        }
    }

    /// The clause as written.
    pub fn to_expr(&self) -> (r: String)
        ensures
            r@ == clause_expr(self@),
    {
        let powers = match lookup(self.key.as_str()) {
            Some(d) => d.pow2,
            None => false,
        };
        let mut s = if self.negated {
            "!".to_owned()
        } else {
            "".to_owned()
        };
        s.append(self.key.as_str());
        s.append("=");
        match &self.matcher {
            Match::Any => {
                s.append("*");
            },
            Match::OneOf(vs) => {
                let mut parts: Vec<String> = Vec::new();
                let mut i: usize = 0;
                while i < vs.len()
                    invariant
                        i <= vs@.len(),
                        parts@.len() == i,
                        forall|j: int|
                            0 <= j < i ==> (#[trigger] parts@[j])@ == expr_of(vs@[j]@, powers),
                    decreases vs@.len() - i,
                {
                    parts.push(vs[i].to_expr(powers));
                    i = i + 1;
                }
                assert(texts(parts@) =~= exprs_of(values(vs@), powers));
                s.append(joined(&parts, "|").as_str());
            },
            Match::Range { lo, hi } => {
                let mut t = lo.to_expr(powers);
                t.append("..");
                t.append(hi.to_expr(powers).as_str());
                s.append(t.as_str());
            },
        }
        s
    }
}

/// The trimmed, non-empty pieces of an expression.
pub fn split_top(expr: &str, sep: char) -> (r: Vec<String>)
    ensures
        texts(r@) == top_pieces(expr@, sep),
{
    let parts = pieces(expr, sep);
    let mut r: Vec<String> = Vec::new();
    let mut i: usize = 0;
    assert(texts(r@) =~= Seq::empty());
    while i < parts.len()
        invariant
            i <= parts@.len(),
            texts(r@) == keep_pieces(texts(parts@).take(i as int)),
        decreases parts@.len() - i,
    {
        let ghost before = texts(r@);
        proof {
            let t = texts(parts@).take(i + 1);
            assert(t.drop_last() =~= texts(parts@).take(i as int));
            assert(t.last() == parts@[i as int]@);
        }
        let t = trimmed(parts[i].as_str());
        if !t.is_empty() {
            r.push(t.to_owned());
            assert(texts(r@) =~= before.push(t@));
        }
        i = i + 1;
    }
    assert(texts(parts@).take(parts@.len() as int) =~= texts(parts@));
    r
}

fn last_is(s: &str, c: char) -> (r: bool)
    ensures
        r == (s@.len() > 0 && s@.last() == c),
{
    let v = chars(s);
    v.len() > 0 && v[v.len() - 1] == c
}

/// The right-hand side of a clause.
fn parse_match(value: &str, key: &str, floats: &Floats) -> (r: Result<Match, SelectorError>)
    ensures
        match r {
            Ok(m) => read_match(value@, key@, *floats) == Ok::<MatchV, SelectorErrorV>(m@),
            Err(e) => read_match(value@, key@, *floats) == Err::<MatchV, SelectorErrorV>(e@),
        },
{
    if same(value, "*") {
        return Ok(Match::Any);
    }
    proof {
        reveal_strlit("..");
    }
    if let Some((lo_text, hi_text)) = split_once_text(value, "..") {
        let lo = match TagValue::parse(lo_text, floats) {
            Ok(v) => v,
            Err(_) => {
                return Err(SelectorError::BadValue { key: key.to_owned(), raw: lo_text.to_owned() });
            },
        };
        let hi = match TagValue::parse(hi_text, floats) {
            Ok(v) => v,
            Err(_) => {
                return Err(SelectorError::BadValue { key: key.to_owned(), raw: hi_text.to_owned() });
            },
        };
        let dotted = match &lo {
            TagValue::Word(w) => last_is(w.as_str(), '.'),
            _ => false,
        };
        if dotted {
            return Err(SelectorError::BadValue { key: key.to_owned(), raw: lo_text.to_owned() });
        }
        if hi.before(&lo) {
            return Err(SelectorError::InvertedRange { key: key.to_owned() });
        }
        return Ok(Match::Range { lo, hi });
    }
    let parts = split_top(value, '|');
    let mut vs: Vec<TagValue> = Vec::new();
    let mut i: usize = 0;
    assert(values(vs@) =~= Seq::<TagV>::empty());
    while i < parts.len()
        invariant
            i <= parts@.len(),
            texts(parts@) == top_pieces(value@, '|'),
            read_alternatives(texts(parts@).take(i as int), key@, *floats) == Ok::<
                Seq<TagV>,
                SelectorErrorV,
            >(values(vs@)),
            find_text(value@, ".."@) is None,
            value@ != "*"@,
        decreases parts@.len() - i,
    {
        let ghost before = values(vs@);
        proof {
            let t = texts(parts@).take(i + 1);
            assert(t.drop_last() =~= texts(parts@).take(i as int));
            assert(t.last() == parts@[i as int]@);
        }
        match TagValue::parse(parts[i].as_str(), floats) {
            Ok(v) => {
                vs.push(v);
                assert(values(vs@) =~= before.push(v@));
            },
            Err(_) => {
                proof {
                    alternatives_fail(texts(parts@), i + 1, key@, *floats);
                }
                return Err(
                    SelectorError::BadValue { key: key.to_owned(), raw: parts[i].clone() },
                );
            },
        }
        i = i + 1;
    }
    assert(texts(parts@).take(parts@.len() as int) =~= texts(parts@));
    let lone = vs.len() == 1 && match &vs[0] {
        TagValue::Word(w) => same(w.as_str(), "*"),
        _ => false,
    };
    assert(lone == lone_star(values(vs@))) by {
        if vs@.len() == 1 {
            assert(values(vs@)[0] == vs@[0]@);
        }
    }
    if vs.len() == 0 || lone {
        return Err(SelectorError::BadValue { key: key.to_owned(), raw: value.to_owned() });
    }
    Ok(Match::OneOf(vs))
}

/// A value that cannot be read decides the error, whatever follows it.
proof fn alternatives_fail(parts: Seq<Seq<char>>, i: int, key: Seq<char>, floats: Floats)
    requires
        0 <= i <= parts.len(),
        read_alternatives(parts.take(i), key, floats) is Err,
    ensures
        read_alternatives(parts, key, floats) == read_alternatives(parts.take(i), key, floats),
    decreases parts.len(),
{
    if i == parts.len() {
        assert(parts.take(i) =~= parts);
    } else {
        assert(parts.drop_last().take(i) =~= parts.take(i));
        alternatives_fail(parts.drop_last(), i, key, floats);
    }
}

/// A clause that cannot be read decides the error, whatever follows it.
proof fn clauses_fail(parts: Seq<Seq<char>>, i: int, floats: Floats)
    requires
        0 <= i <= parts.len(),
        read_clauses(parts.take(i), floats) is Err,
    ensures
        read_clauses(parts, floats) == read_clauses(parts.take(i), floats),
    decreases parts.len(),
{
    if i == parts.len() {
        assert(parts.take(i) =~= parts);
    } else {
        assert(parts.drop_last().take(i) =~= parts.take(i));
        clauses_fail(parts.drop_last(), i, floats);
    }
}

/// An expression that cannot be read decides the error, whatever follows it.
proof fn selectors_fail(exprs: Seq<Seq<char>>, i: int, floats: Floats)
    requires
        0 <= i <= exprs.len(),
        read_selectors(exprs.take(i), floats) is Err,
    ensures
        read_selectors(exprs, floats) == read_selectors(exprs.take(i), floats),
    decreases exprs.len(),
{
    if i == exprs.len() {
        assert(exprs.take(i) =~= exprs);
    } else {
        assert(exprs.drop_last().take(i) =~= exprs.take(i));
        selectors_fail(exprs.drop_last(), i, floats);
    }
}

impl Selector {
    /// Read a selector expression. `floats` says which texts are numbers with a
    /// fraction.
    pub fn parse(expr: &str, floats: &Floats) -> (r: Result<Self, SelectorError>)
        ensures
            match r {
                Ok(s) => read_selector(expr@, *floats) == Ok::<Seq<ClauseV>, SelectorErrorV>(s@),
                Err(e) => read_selector(expr@, *floats) == Err::<Seq<ClauseV>, SelectorErrorV>(e@),
            },
    {
        let parts = split_top(expr, ',');
        let mut clauses: Vec<Clause> = Vec::new();
        let mut i: usize = 0;
        assert(clauses_of(clauses@) =~= Seq::<ClauseV>::empty());
        while i < parts.len()
            invariant
                i <= parts@.len(),
                texts(parts@) == top_pieces(expr@, ','),
                read_clauses(texts(parts@).take(i as int), *floats) == Ok::<
                    Seq<ClauseV>,
                    SelectorErrorV,
                >(clauses_of(clauses@)),
            decreases parts@.len() - i,
        {
            let ghost before = clauses_of(clauses@);
            proof {
                let t = texts(parts@).take(i + 1);
                assert(t.drop_last() =~= texts(parts@).take(i as int));
                assert(t.last() == parts@[i as int]@);
            }
            match Self::parse_clause(parts[i].as_str(), floats) {
                Ok(c) => {
                    clauses.push(c);
                    assert(clauses_of(clauses@) =~= before.push(c@));
                },
                Err(e) => {
                    proof {
                        clauses_fail(texts(parts@), i + 1, *floats);
                    }
                    return Err(e);
                },
            }
            i = i + 1;
        }
        assert(texts(parts@).take(parts@.len() as int) =~= texts(parts@));
        if clauses.len() == 0 {
            return Err(SelectorError::Syntax { at: 0, msg: "empty selector".to_owned() });
        }
        Ok(Selector { clauses })
    }

    fn parse_clause(raw: &str, floats: &Floats) -> (r: Result<Clause, SelectorError>)
        ensures
            match r {
                Ok(c) => read_clause(raw@, *floats) == Ok::<ClauseV, SelectorErrorV>(c@),
                Err(e) => read_clause(raw@, *floats) == Err::<ClauseV, SelectorErrorV>(e@),
            },
    {
        proof {
            reveal_strlit("!");
        }
        let (negated, body) = match strip_prefix(raw, "!") {
            Some(rest) => (true, trimmed(rest)),
            None => (false, raw),
        };
        proof {
            find_bounds(body@, '=');
        }
        match split_once(body, '=') {
            None => {
                let mut msg = "`".to_owned();
                msg.append(raw);
                msg.append("` is not key=value");
                Err(SelectorError::Syntax { at: 0, msg })
            },
            Some((k, v)) => {
                let key = trimmed(k);
                let value = trimmed(v);
                if key.is_empty() {
                    return Err(SelectorError::Syntax { at: 0, msg: "missing key".to_owned() });
                }
                match parse_match(value, key, floats) {
                    Ok(matcher) => Ok(Clause { key: key.to_owned(), matcher, negated }),
                    Err(e) => Err(e),
                }
            },
        }
    }

    /// Keys this selector constrains, in the order of its clauses.
    pub fn keys(&self) -> (r: Vec<String>)
        ensures
            texts(r@) == Seq::new(self@.len(), |i: int| self@[i].key),
    {
        let mut r: Vec<String> = Vec::new();
        let mut i: usize = 0;
        while i < self.clauses.len()
            invariant
                i <= self.clauses@.len(),
                r@.len() == i,
                forall|j: int| 0 <= j < i ==> (#[trigger] r@[j])@ == self.clauses@[j].key@,
            decreases self.clauses@.len() - i,
        {
            r.push(self.clauses[i].key.clone());
            i = i + 1;
        }
        assert(texts(r@) =~= Seq::new(self@.len(), |i: int| self@[i].key));
        r
    }

    /// The first clause constraining `key`, if any.
    pub fn clause_for(&self, key: &str) -> (r: Option<&Clause>)
        ensures
            match r {
                Some(c) => constrains(self@, key@) && 0 <= clause_at(self@, key@) && c@
                    == self@[clause_at(self@, key@)],
                None => !constrains(self@, key@),
            },
    {
        let mut i: usize = 0;
        assert(self@.skip(0) =~= self@);
        while i < self.clauses.len()
            invariant
                i <= self.clauses@.len(),
                clause_at(self@, key@) == i + clause_at(self@.skip(i as int), key@),
            decreases self.clauses@.len() - i,
        {
            assert(self@.skip(i as int).drop_first() =~= self@.skip(i + 1));
            assert(self@.skip(i as int)[0] == self.clauses@[i as int]@);
            if same(self.clauses[i].key.as_str(), key) {
                return Some(&self.clauses[i]);
            }
            i = i + 1;
        }
        None
    }

    /// Do a case's fixed tags survive?
    ///
    /// Clauses naming one of the case's param axes are deferred to the expansion
    /// of the case: a case whose `k` is fixed at 1 must not be filtered out by a
    /// `tree_size` constraint it has not resolved yet.
    pub fn admits_case(&self, tags: &TagMap, params: &Vec<String>) -> (r: bool)
        ensures
            r == selector_admits(self@, tags@, texts(params@)),
    {
        let mut i: usize = 0;
        while i < self.clauses.len()
            invariant
                i <= self.clauses@.len(),
                forall|j: int|
                    0 <= j < i && !texts(params@).contains((#[trigger] self@[j]).key)
                        ==> clause_admits(self@[j], tags@),
            decreases self.clauses@.len() - i,
        {
            if !holds(params, self.clauses[i].key.as_str()) && !self.clauses[i].admits(tags) {
                assert(!clause_admits(self@[i as int], tags@));
                return false;
            }
            i = i + 1;
        }
        true
    }

    /// Does a fully-resolved data point survive?
    pub fn admits_point(&self, tags: &TagMap) -> (r: bool)
        ensures
            r == selector_admits(self@, tags@, Seq::empty()),
    {
        let none: Vec<String> = Vec::new();
        assert(texts(none@) =~= Seq::empty());
        self.admits_case(tags, &none)
    }

    /// Canonical form. This is the command that the interactive picker prints, so
    /// it reads back as this selector.
    pub fn to_expr(&self) -> (r: String)
        ensures
            r@ == selector_expr(self@),
    {
        let mut parts: Vec<String> = Vec::new();
        let mut i: usize = 0;
        while i < self.clauses.len()
            invariant
                i <= self.clauses@.len(),
                parts@.len() == i,
                forall|j: int| 0 <= j < i ==> (#[trigger] parts@[j])@ == clause_expr(self@[j]),
            decreases self.clauses@.len() - i,
        {
            parts.push(self.clauses[i].to_expr());
            i = i + 1;
        }
        assert(texts(parts@) =~= clause_exprs(self@));
        joined(&parts, ",")
    }
}

impl Default for SelectorSet {
    fn default() -> (r: Self)
        ensures
            r@ == Seq::<Seq<ClauseV>>::empty(),
    {
        let r = SelectorSet { selectors: Vec::new() };
        assert(r@ =~= Seq::<Seq<ClauseV>>::empty());
        r
    }
}

impl SelectorSet {
    /// Read several expressions. An empty set matches everything.
    pub fn parse_all(exprs: &Vec<String>, floats: &Floats) -> (r: Result<Self, SelectorError>)
        ensures
            match r {
                Ok(s) => read_selectors(texts(exprs@), *floats) == Ok::<
                    Seq<Seq<ClauseV>>,
                    SelectorErrorV,
                >(s@),
                Err(e) => read_selectors(texts(exprs@), *floats) == Err::<
                    Seq<Seq<ClauseV>>,
                    SelectorErrorV,
                >(e@),
            },
    {
        let mut selectors: Vec<Selector> = Vec::new();
        let mut i: usize = 0;
        assert(selectors_of(selectors@) =~= Seq::<Seq<ClauseV>>::empty());
        while i < exprs.len()
            invariant
                i <= exprs@.len(),
                read_selectors(texts(exprs@).take(i as int), *floats) == Ok::<
                    Seq<Seq<ClauseV>>,
                    SelectorErrorV,
                >(selectors_of(selectors@)),
            decreases exprs@.len() - i,
        {
            let ghost before = selectors_of(selectors@);
            proof {
                let t = texts(exprs@).take(i + 1);
                assert(t.drop_last() =~= texts(exprs@).take(i as int));
                assert(t.last() == exprs@[i as int]@);
            }
            match Selector::parse(exprs[i].as_str(), floats) {
                Ok(s) => {
                    selectors.push(s);
                    assert(selectors_of(selectors@) =~= before.push(s@));
                },
                Err(e) => {
                    proof {
                        selectors_fail(texts(exprs@), i + 1, *floats);
                    }
                    return Err(e);
                },
            }
            i = i + 1;
        }
        assert(texts(exprs@).take(exprs@.len() as int) =~= texts(exprs@));
        Ok(SelectorSet { selectors })
    }

    pub fn admits_case(&self, tags: &TagMap, params: &Vec<String>) -> (r: bool)
        ensures
            r == set_admits(self@, tags@, texts(params@)),
    {
        if self.selectors.len() == 0 {
            return true;
        }
        let mut i: usize = 0;
        while i < self.selectors.len()
            invariant
                i <= self.selectors@.len(),
                forall|j: int|
                    0 <= j < i ==> !selector_admits(#[trigger] self@[j], tags@, texts(params@)),
            decreases self.selectors@.len() - i,
        {
            if self.selectors[i].admits_case(tags, params) {
                assert(selector_admits(self@[i as int], tags@, texts(params@)));
                return true;
            }
            i = i + 1;
        }
        false
    }

    pub fn admits_point(&self, tags: &TagMap) -> (r: bool)
        ensures
            r == set_admits(self@, tags@, Seq::empty()),
    {
        let none: Vec<String> = Vec::new();
        assert(texts(none@) =~= Seq::empty());
        self.admits_case(tags, &none)
    }

    pub fn to_exprs(&self) -> (r: Vec<String>)
        ensures
            texts(r@) == set_exprs(self@),
    {
        let mut r: Vec<String> = Vec::new();
        let mut i: usize = 0;
        while i < self.selectors.len()
            invariant
                i <= self.selectors@.len(),
                r@.len() == i,
                forall|j: int| 0 <= j < i ==> (#[trigger] r@[j])@ == selector_expr(self@[j]),
            decreases self.selectors@.len() - i,
        {
            r.push(self.selectors[i].to_expr());
            i = i + 1;
        }
        assert(texts(r@) =~= set_exprs(self@));
        r
    }
}

} // verus!
