//! Loading and validating vendored subject manifests.

use crate::adapter::{adapter_of, Adapter};
use crate::case::{
    cases_of, maps, params_of, spread, spread_points, steps_forward, sweepable, Case, CaseV,
    DomainV, Param, ParamDomain, ParamV,
};
use crate::catalog::{
    all_sweepable, entries_of, facts_in, Catalog, DriverFacts, DriverFactsV, SubjectFacts,
    SubjectFactsV,
};
use crate::catalog_laws::distinct_axes;
use crate::catalog_load_laws::{axes_ascend, cases_belong_to_their_subject, loaded_axes_are_distinct};
use crate::manifest::{
    CaseDecl, Driver, Manifest, ManifestError, ManifestErrorV, ParamDecl, TomlValue, VocabKey,
    MANIFEST_SCHEMA,
};
use crate::ordered::{ascending, models, sort_texts, sorted, sorted_texts, Ordered};
use crate::package::{commit_id, is_commit_id};
use crate::results::{collect, collect_step, collect_stops, first_fault, first_fault_at};
use crate::selector::{read_selector, selector_admits, Selector};
use crate::tag::{
    entry_map, entry_map_at, is_entry, read_value, render, tag_eq, tag_error_message, values,
    Floats, TagMap, TagV, TagValue,
};
use crate::text::{
    chars, contains, contains_text, copy_option, copy_texts, dec, decimal, find_text, option_text,
    parse_i64, parse_unsigned, quoted, debug_text, read_signed, read_unsigned, same, split_once_text, strip_prefix,
    text_le, text_lt, text_lt_irreflexive, text_lt_transitive, texts, trim, trimmed,
};
use crate::vocab::{
    exts, is_core, lookup, namespace, namespace_of, vocabulary_verdict, ExtKey, ExtV, Vocabulary,
};
use vstd::arithmetic::power2::pow2;
use vstd::prelude::*;

verus! {

// ---------------------------------------------------------------- values

/// Why a tag value cannot stand in a selector, if it cannot: it must be expressible
/// in the selector language and mean itself when parsed back.
pub open spec fn selector_fault(
    key: Seq<char>,
    v: TagV,
    subject: Seq<char>,
    floats: Floats,
) -> Option<ManifestErrorV> {
    let value = render(v);
    if v matches TagV::Word(w) && (w.contains(',') || w.contains('|') || contains_text(w, ".."@)
        || trim(w) == "*"@) {
        Some(
            ManifestErrorV::BadSelectorValue {
                subject,
                key,
                value,
                why:
                    "the selector language cannot express it: it contains `,`, `|`, `..`, or reads as the wildcard `*`"@,
            },
        )
    } else {
        match read_selector(key + "="@ + value, floats) {
            Err(_) => Some(
                ManifestErrorV::BadSelectorValue {
                    subject,
                    key,
                    value,
                    why: "cannot be written into a selector clause"@,
                },
            ),
            Ok(s) => if selector_admits(s, map![key => v], Seq::empty()) {
                None
            } else {
                Some(
                    ManifestErrorV::BadSelectorValue {
                        subject,
                        key,
                        value,
                        why: "does not mean itself when parsed back out of a selector"@,
                    },
                )
            },
        }
    }
}

/// The tag value that a manifest value stands for, before it is held against the
/// selector language.
pub open spec fn plain_value(
    raw: TomlValue,
    key: Seq<char>,
    subject: Seq<char>,
    floats: Floats,
) -> Result<TagV, ManifestErrorV> {
    match raw {
        TomlValue::Text(s) => match read_value(s@, floats) {
            Ok(v) => Ok(v),
            Err(_) => Err(
                ManifestErrorV::UnknownKey { subject, key: key + ": bad value `"@ + s@ + "`"@ },
            ),
        },
        TomlValue::Integer(i) => Ok(TagV::Int(i as int)),
        TomlValue::Float(f) => Ok(TagV::Float { bits: f.bits, text: f.text@ }),
        TomlValue::Boolean(b) => Ok(TagV::Bool(b)),
        TomlValue::Other(t) => Err(
            ManifestErrorV::UnknownKey { subject, key: key + ": unsupported value "@ + t@ },
        ),
    }
}

/// The tag value that a manifest value stands for.
pub open spec fn toml_tag(
    raw: TomlValue,
    key: Seq<char>,
    subject: Seq<char>,
    floats: Floats,
) -> Result<TagV, ManifestErrorV> {
    match plain_value(raw, key, subject, floats) {
        Err(e) => Err(e),
        Ok(v) => match selector_fault(key, v, subject, floats) {
            Some(e) => Err(e),
            None => Ok(v),
        },
    }
}

/// A list of manifest values.
pub open spec fn toml_tags_of(
    raws: Seq<TomlValue>,
    key: Seq<char>,
    subject: Seq<char>,
    floats: Floats,
) -> Result<Seq<TagV>, ManifestErrorV> {
    collect(Seq::new(raws.len(), |i: int| toml_tag(raws[i], key, subject, floats)))
}

/// A table of manifest values, as a tag map.
pub open spec fn tag_table(
    raw: Seq<(String, TomlValue)>,
    subject: Seq<char>,
    floats: Floats,
) -> Result<Map<Seq<char>, TagV>, ManifestErrorV>
    decreases raw.len(),
{
    if raw.len() == 0 {
        Ok(Map::empty())
    } else {
        match tag_table(raw.drop_last(), subject, floats) {
            Err(e) => Err(e),
            Ok(m) => match toml_tag(raw.last().1, raw.last().0@, subject, floats) {
                Ok(v) => Ok(m.insert(raw.last().0@, v)),
                Err(e) => Err(e),
            },
        }
    }
}

proof fn tag_table_stops(raw: Seq<(String, TomlValue)>, i: int, subject: Seq<char>, floats: Floats)
    requires
        0 <= i <= raw.len(),
        tag_table(raw.take(i), subject, floats) is Err,
    ensures
        tag_table(raw, subject, floats) == tag_table(raw.take(i), subject, floats),
    decreases raw.len(),
{
    if i == raw.len() {
        assert(raw.take(i) =~= raw);
    } else {
        assert(raw.drop_last().take(i) =~= raw.take(i));
        tag_table_stops(raw.drop_last(), i, subject, floats);
    }
}

/// A result over the contents of its value and of its error.
pub open spec fn tag_result(r: Result<TagValue, ManifestError>) -> Result<TagV, ManifestErrorV> {
    match r {
        Ok(v) => Ok(v@),
        Err(e) => Err(e@),
    }
}

fn has_char(s: &str, c: char) -> (r: bool)
    ensures
        r == s@.contains(c),
{
    let v = chars(s);
    let at = crate::text::find_from(&v, c, 0);
    proof {
        assert(v@.skip(0) =~= v@);
        crate::text::find_bounds(v@, c);
    }
    at < v.len()
}

/// Every tag value is selector-addressable, so it must be expressible in the
/// selector language and mean itself when parsed back. `a|b` would split into an
/// OR, `a,b` into two clauses, `a..b` into a range, `*` into "key exists"; all
/// silently wrong in a chart, so they are load errors rather than values a selector
/// cannot say.
pub fn ensure_selectable(key: &str, value: &TagValue, subject: &str, floats: &Floats) -> (r: Result<
    (),
    ManifestError,
>)
    ensures
        match r {
            Ok(_) => selector_fault(key@, value@, subject@, *floats) is None,
            Err(e) => selector_fault(key@, value@, subject@, *floats) == Some(e@),
        },
{
    let text = value.to_string();
    if let TagValue::Word(word) = value {
        let w = word.as_str();
        if has_char(w, ',') || has_char(w, '|') || contains(w, "..") || same(
            trimmed(w),
            "*",
        ) {
            return Err(
                ManifestError::BadSelectorValue {
                    subject: subject.to_owned(),
                    key: key.to_owned(),
                    value: text,
                    why:
                        "the selector language cannot express it: it contains `,`, `|`, `..`, or reads as the wildcard `*`".to_owned(),
                },
            );
        }
    }
    // Whatever the shape, it must survive a round trip through the selector: parse
    // `key=<value>` and require the clause to admit exactly this value.
    let mut expr = key.to_owned();
    expr.append("=");
    expr.append(text.as_str());
    match Selector::parse(expr.as_str(), floats) {
        Err(_) => Err(
            ManifestError::BadSelectorValue {
                subject: subject.to_owned(),
                key: key.to_owned(),
                value: text,
                why: "cannot be written into a selector clause".to_owned(),
            },
        ),
        Ok(parsed) => {
            let mut probe = TagMap::new();
            probe.insert(key, value.clone());
            assert(probe@ =~= map![key@ => value@]);
            if parsed.admits_point(&probe) {
                Ok(())
            } else {
                Err(
                    ManifestError::BadSelectorValue {
                        subject: subject.to_owned(),
                        key: key.to_owned(),
                        value: text,
                        why: "does not mean itself when parsed back out of a selector".to_owned(),
                    },
                )
            }
        },
    }
}

fn tag_value(raw: &TomlValue, key: &str, subject: &str, floats: &Floats) -> (r: Result<
    TagValue,
    ManifestError,
>)
    ensures
        tag_result(r) == toml_tag(*raw, key@, subject@, *floats),
{
    let value = match raw {
        TomlValue::Text(s) => match TagValue::parse(s.as_str(), floats) {
            Ok(v) => v,
            Err(_) => {
                let mut k = key.to_owned();
                k.append(": bad value `");
                k.append(s.as_str());
                k.append("`");
                return Err(ManifestError::UnknownKey { subject: subject.to_owned(), key: k });
            },
        },
        TomlValue::Integer(i) => TagValue::Int(*i),
        TomlValue::Float(f) => TagValue::Float(f.clone()),
        TomlValue::Boolean(b) => TagValue::Bool(*b),
        TomlValue::Other(t) => {
            let mut k = key.to_owned();
            k.append(": unsupported value ");
            k.append(t.as_str());
            return Err(ManifestError::UnknownKey { subject: subject.to_owned(), key: k });
        },
    };
    match ensure_selectable(key, &value, subject, floats) {
        Ok(_) => Ok(value),
        Err(e) => Err(e),
    }
}

fn tag_values(raws: &Vec<TomlValue>, key: &str, subject: &str, floats: &Floats) -> (r: Result<
    Vec<TagValue>,
    ManifestError,
>)
    ensures
        match r {
            Ok(vs) => toml_tags_of(raws@, key@, subject@, *floats) == Ok::<
                Seq<TagV>,
                ManifestErrorV,
            >(values(vs@)),
            Err(e) => toml_tags_of(raws@, key@, subject@, *floats) == Err::<
                Seq<TagV>,
                ManifestErrorV,
            >(e@),
        },
{
    let ghost rs = Seq::new(raws@.len(), |i: int| toml_tag(raws@[i], key@, subject@, *floats));
    let mut vs: Vec<TagValue> = Vec::new();
    let mut i: usize = 0;
    proof {
        assert(values(vs@) =~= Seq::empty());
        assert(rs.take(0) =~= Seq::empty());
    }
    while i < raws.len()
        invariant
            i <= raws@.len(),
            rs == Seq::new(raws@.len(), |i: int| toml_tag(raws@[i], key@, subject@, *floats)),
            collect(rs.take(i as int)) == Ok::<Seq<TagV>, ManifestErrorV>(values(vs@)),
        decreases raws@.len() - i,
    {
        let ghost before = values(vs@);
        proof {
            collect_step(rs, i as int);
        }
        match tag_value(&raws[i], key, subject, floats) {
            Ok(v) => {
                vs.push(v);
                assert(values(vs@) =~= before.push(v@));
            },
            Err(e) => {
                proof {
                    collect_stops(rs, i + 1);
                }
                return Err(e);
            },
        }
        i = i + 1;
    }
    assert(rs.take(raws@.len() as int) =~= rs);
    Ok(vs)
}

fn toml_tags(raw: &Vec<(String, TomlValue)>, subject: &str, floats: &Floats) -> (r: Result<
    TagMap,
    ManifestError,
>)
    ensures
        match r {
            Ok(m) => tag_table(raw@, subject@, *floats) == Ok::<
                Map<Seq<char>, TagV>,
                ManifestErrorV,
            >(m@),
            Err(e) => tag_table(raw@, subject@, *floats) == Err::<
                Map<Seq<char>, TagV>,
                ManifestErrorV,
            >(e@),
        },
{
    let mut m = TagMap::new();
    let mut i: usize = 0;
    while i < raw.len()
        invariant
            i <= raw@.len(),
            tag_table(raw@.take(i as int), subject@, *floats) == Ok::<
                Map<Seq<char>, TagV>,
                ManifestErrorV,
            >(m@),
        decreases raw@.len() - i,
    {
        proof {
            assert(raw@.take(i + 1).drop_last() =~= raw@.take(i as int));
            assert(raw@.take(i + 1).last() == raw@[i as int]);
        }
        match tag_value(&raw[i].1, raw[i].0.as_str(), subject, floats) {
            Ok(v) => {
                m.insert(raw[i].0.as_str(), v);
            },
            Err(e) => {
                proof {
                    tag_table_stops(raw@, i + 1, subject@, *floats);
                }
                return Err(e);
            },
        }
        i = i + 1;
    }
    assert(raw@.take(raw@.len() as int) =~= raw@);
    Ok(m)
}

// ---------------------------------------------------------------- params

/// The powers of two from one exponent to another.
pub open spec fn powers(lo: nat, hi: nat) -> Seq<TagV> {
    Seq::new((hi - lo + 1) as nat, |i: int| TagV::Int(pow2((lo + i) as nat) as int))
}

/// `"2^16..2^25"` enumerates powers of two; `"1..16"` a plain integer range.
pub open spec fn range_domain(raw: Seq<char>, key: Seq<char>, subject: Seq<char>) -> Result<
    DomainV,
    ManifestErrorV,
> {
    let bad = ManifestErrorV::UnknownKey {
        subject,
        key: key + ": cannot parse range `"@ + raw + "`"@,
    };
    match find_text(raw, ".."@) {
        None => Err(bad),
        Some(at) => {
            let lo = trim(raw.take(at));
            let hi = trim(raw.skip(at + 2));
            if "2^"@.is_prefix_of(lo) && "2^"@.is_prefix_of(hi) {
                match (
                    read_unsigned(lo.skip(2), u32::MAX as nat),
                    read_unsigned(hi.skip(2), u32::MAX as nat),
                ) {
                    (Some(l), Some(h)) => if l <= h && h < 63 {
                        Ok(DomainV::Values(powers(l, h)))
                    } else {
                        Err(bad)
                    },
                    _ => Err(bad),
                }
            } else {
                match (
                    read_signed(lo, i64::MIN as int, i64::MAX as int),
                    read_signed(hi, i64::MIN as int, i64::MAX as int),
                ) {
                    (Some(l), Some(h)) => if l <= h {
                        Ok(DomainV::IntRange { lo: l, hi: h, step: 1 })
                    } else {
                        Err(bad)
                    },
                    _ => Err(bad),
                }
            }
        },
    }
}

/// The domain of a declared axis.
pub open spec fn declared_domain(
    decl: ParamDecl,
    key: Seq<char>,
    subject: Seq<char>,
    floats: Floats,
) -> Result<DomainV, ManifestErrorV> {
    match decl.range {
        Some(range) => range_domain(range@, key, subject),
        None => if decl.values@.len() > 0 {
            match toml_tags_of(decl.values@, key, subject, floats) {
                Ok(vs) => Ok(DomainV::Values(vs)),
                Err(e) => Err(e),
            }
        } else if option_text(decl.kind) == Some("float"@) {
            Ok(DomainV::AnyFloat)
        } else {
            Ok(DomainV::AnyInt)
        },
    }
}

/// A declared axis.
pub open spec fn declared_param(
    decl: ParamDecl,
    key: Seq<char>,
    subject: Seq<char>,
    floats: Floats,
) -> Result<ParamV, ManifestErrorV> {
    match declared_domain(decl, key, subject, floats) {
        Err(e) => Err(e),
        Ok(domain) => match decl.default {
            None => Err(ManifestErrorV::UnknownKey { subject, key: key + " has no default"@ }),
            Some(d) => match toml_tag(d, key, subject, floats) {
                Ok(default) => Ok(ParamV { key, domain, default }),
                Err(e) => Err(e),
            },
        },
    }
}

pub open spec fn declared_params(
    params: Seq<(String, ParamDecl)>,
    subject: Seq<char>,
    floats: Floats,
) -> Result<Seq<ParamV>, ManifestErrorV> {
    collect(
        Seq::new(
            params.len(),
            |i: int| declared_param(params[i].1, params[i].0@, subject, floats),
        ),
    )
}

fn bad_range(raw: &str, key: &str, subject: &str) -> (r: ManifestError)
    ensures
        r@ == (ManifestErrorV::UnknownKey {
            subject: subject@,
            key: key@ + ": cannot parse range `"@ + raw@ + "`"@,
        }),
{
    let mut k = key.to_owned();
    k.append(": cannot parse range `");
    k.append(raw);
    k.append("`");
    ManifestError::UnknownKey { subject: subject.to_owned(), key: k }
}

fn power_list(lo: u64, hi: u64) -> (r: Vec<TagValue>)
    requires
        lo <= hi < 63,
    ensures
        values(r@) == powers(lo as nat, hi as nat),
{
    let mut r: Vec<TagValue> = Vec::new();
    let mut n: u64 = lo;
    while n <= hi
        invariant
            lo <= n <= hi + 1,
            hi < 63,
            r@.len() == n - lo,
            forall|j: int|
                0 <= j < r@.len() ==> (#[trigger] r@[j])@ == TagV::Int(pow2((lo + j) as nat) as int),
        decreases hi + 1 - n,
    {
        r.push(TagValue::Int(crate::tag::power_of_two(n)));
        n = n + 1;
    }
    assert(values(r@) =~= powers(lo as nat, hi as nat));
    r
}

/// `"2^16..2^25"` enumerates powers of two; `"1..16"` a plain integer range.
/// Enumerating rather than storing endpoints keeps a param domain something the
/// interactive picker can offer as concrete choices.
fn parse_range(raw: &str, key: &str, subject: &str) -> (r: Result<ParamDomain, ManifestError>)
    ensures
        match r {
            Ok(d) => range_domain(raw@, key@, subject@) == Ok::<DomainV, ManifestErrorV>(d@)
                && steps_forward(d@),
            Err(e) => range_domain(raw@, key@, subject@) == Err::<DomainV, ManifestErrorV>(e@),
        },
{
    proof {
        reveal_strlit("..");
        reveal_strlit("2^");
        assert("2^"@.len() == 2);
    }
    match split_once_text(raw, "..") {
        None => Err(bad_range(raw, key, subject)),
        Some((a, b)) => {
            let lo = trimmed(a);
            let hi = trimmed(b);
            match (strip_prefix(lo, "2^"), strip_prefix(hi, "2^")) {
                (Some(l), Some(h)) => match (
                    parse_unsigned(l, u32::MAX as u64),
                    parse_unsigned(h, u32::MAX as u64),
                ) {
                    (Some(l), Some(h)) => if l <= h && h < 63 {
                        Ok(ParamDomain::Values(power_list(l, h)))
                    } else {
                        Err(bad_range(raw, key, subject))
                    },
                    _ => Err(bad_range(raw, key, subject)),
                },
                _ => match (parse_i64(lo), parse_i64(hi)) {
                    (Some(l), Some(h)) => if l <= h {
                        Ok(ParamDomain::IntRange { lo: l, hi: h, step: 1 })
                    } else {
                        Err(bad_range(raw, key, subject))
                    },
                    _ => Err(bad_range(raw, key, subject)),
                },
            }
        },
    }
}

fn lower_param(decl: &ParamDecl, key: &str, subject: &str, floats: &Floats) -> (r: Result<
    Param,
    ManifestError,
>)
    ensures
        match r {
            Ok(p) => declared_param(*decl, key@, subject@, *floats) == Ok::<ParamV, ManifestErrorV>(
                p@,
            ) && steps_forward(p@.domain),
            Err(e) => declared_param(*decl, key@, subject@, *floats) == Err::<
                ParamV,
                ManifestErrorV,
            >(e@),
        },
{
    let domain = match &decl.range {
        Some(range) => match parse_range(range.as_str(), key, subject) {
            Ok(d) => d,
            Err(e) => {
                return Err(e);
            },
        },
        None => if decl.values.len() > 0 {
            match tag_values(&decl.values, key, subject, floats) {
                Ok(vs) => ParamDomain::Values(vs),
                Err(e) => {
                    return Err(e);
                },
            }
        } else {
            let float = match &decl.kind {
                Some(k) => same(k.as_str(), "float"),
                None => false,
            };
            if float {
                ParamDomain::AnyFloat
            } else {
                ParamDomain::AnyInt
            }
        },
    };
    match &decl.default {
        None => {
            let mut k = key.to_owned();
            k.append(" has no default");
            Err(ManifestError::UnknownKey { subject: subject.to_owned(), key: k })
        },
        Some(d) => match tag_value(d, key, subject, floats) {
            Ok(default) => Ok(Param { key: key.to_owned(), domain, default }),
            Err(e) => Err(e),
        },
    }
}

fn lower_params(params: &Vec<(String, ParamDecl)>, subject: &str, floats: &Floats) -> (r: Result<
    Vec<Param>,
    ManifestError,
>)
    ensures
        match r {
            Ok(ps) => declared_params(params@, subject@, *floats) == Ok::<
                Seq<ParamV>,
                ManifestErrorV,
            >(params_of(ps@)) && forall|i: int|
                0 <= i < ps@.len() ==> steps_forward((#[trigger] params_of(ps@)[i]).domain),
            Err(e) => declared_params(params@, subject@, *floats) == Err::<
                Seq<ParamV>,
                ManifestErrorV,
            >(e@),
        },
{
    let ghost rs = Seq::new(
        params@.len(),
        |i: int| declared_param(params@[i].1, params@[i].0@, subject@, *floats),
    );
    let mut ps: Vec<Param> = Vec::new();
    let mut i: usize = 0;
    proof {
        assert(params_of(ps@) =~= Seq::empty());
        assert(rs.take(0) =~= Seq::empty());
    }
    while i < params.len()
        invariant
            i <= params@.len(),
            rs == Seq::new(
                params@.len(),
                |i: int| declared_param(params@[i].1, params@[i].0@, subject@, *floats),
            ),
            collect(rs.take(i as int)) == Ok::<Seq<ParamV>, ManifestErrorV>(params_of(ps@)),
            forall|j: int| 0 <= j < ps@.len() ==> steps_forward((#[trigger] params_of(ps@)[j]).domain),
        decreases params@.len() - i,
    {
        let ghost before = params_of(ps@);
        proof {
            collect_step(rs, i as int);
        }
        match lower_param(&params[i].1, params[i].0.as_str(), subject, floats) {
            Ok(p) => {
                ps.push(p);
                proof {
                    assert(params_of(ps@) =~= before.push(p@));
                    assert forall|j: int| 0 <= j < ps@.len() implies steps_forward(
                        (#[trigger] params_of(ps@)[j]).domain,
                    ) by {
                        if j < before.len() {
                            assert(steps_forward(before[j].domain));
                        }
                    }
                }
            },
            Err(e) => {
                proof {
                    collect_stops(rs, i + 1);
                }
                return Err(e);
            },
        }
        i = i + 1;
    }
    assert(rs.take(params@.len() as int) =~= rs);
    Ok(ps)
}

// ---------------------------------------------------------------- the matrix

/// Cartesian product of the `matrix` axes over some base tags, in a deterministic
/// order. An axis without values leaves nothing, and the axes behind it are not
/// looked at.
pub open spec fn matrix_points(
    base: Map<Seq<char>, TagV>,
    axes: Seq<(String, Vec<TomlValue>)>,
    subject: Seq<char>,
    floats: Floats,
) -> Result<Seq<Map<Seq<char>, TagV>>, ManifestErrorV>
    decreases axes.len(),
{
    if axes.len() == 0 {
        Ok(seq![base])
    } else {
        match matrix_points(base, axes.drop_last(), subject, floats) {
            Err(e) => Err(e),
            Ok(points) => if points.len() == 0 {
                Ok(points)
            } else {
                match toml_tags_of(axes.last().1@, axes.last().0@, subject, floats) {
                    Err(e) => Err(e),
                    Ok(vs) => Ok(spread(points, axes.last().0@, vs)),
                }
            },
        }
    }
}

proof fn matrix_stops(
    base: Map<Seq<char>, TagV>,
    axes: Seq<(String, Vec<TomlValue>)>,
    i: int,
    subject: Seq<char>,
    floats: Floats,
)
    requires
        0 <= i <= axes.len(),
        matrix_points(base, axes.take(i), subject, floats) is Err,
    ensures
        matrix_points(base, axes, subject, floats) == matrix_points(
            base,
            axes.take(i),
            subject,
            floats,
        ),
    decreases axes.len(),
{
    if i == axes.len() {
        assert(axes.take(i) =~= axes);
    } else {
        assert(axes.drop_last().take(i) =~= axes.take(i));
        matrix_stops(base, axes.drop_last(), i, subject, floats);
    }
}

fn expand_matrix(
    base: &TagMap,
    matrix: &Vec<(String, Vec<TomlValue>)>,
    subject: &str,
    floats: &Floats,
) -> (r: Result<Vec<TagMap>, ManifestError>)
    ensures
        match r {
            Ok(ps) => matrix_points(base@, matrix@, subject@, *floats) == Ok::<
                Seq<Map<Seq<char>, TagV>>,
                ManifestErrorV,
            >(maps(ps@)),
            Err(e) => matrix_points(base@, matrix@, subject@, *floats) == Err::<
                Seq<Map<Seq<char>, TagV>>,
                ManifestErrorV,
            >(e@),
        },
{
    let mut points: Vec<TagMap> = Vec::new();
    points.push(base.clone());
    assert(maps(points@) =~= seq![base@]);
    let mut i: usize = 0;
    while i < matrix.len()
        invariant
            i <= matrix@.len(),
            matrix_points(base@, matrix@.take(i as int), subject@, *floats) == Ok::<
                Seq<Map<Seq<char>, TagV>>,
                ManifestErrorV,
            >(maps(points@)),
        decreases matrix@.len() - i,
    {
        proof {
            assert(matrix@.take(i + 1).drop_last() =~= matrix@.take(i as int));
            assert(matrix@.take(i + 1).last() == matrix@[i as int]);
            assert(maps(points@).len() == points@.len());
        }
        if points.len() > 0 {
            match tag_values(&matrix[i].1, matrix[i].0.as_str(), subject, floats) {
                Ok(vs) => {
                    points = spread_points(&points, matrix[i].0.as_str(), &vs);
                },
                Err(e) => {
                    proof {
                        matrix_stops(base@, matrix@, i + 1, subject@, *floats);
                    }
                    return Err(e);
                },
            }
        }
        i = i + 1;
    }
    assert(matrix@.take(matrix@.len() as int) =~= matrix@);
    Ok(points)
}

// ---------------------------------------------------------------- drivers

/// Why a driver block is refused, if it is.
pub open spec fn driver_fault(d: Driver, has_build: bool, subject: Seq<char>) -> Option<
    ManifestErrorV,
> {
    match adapter_of(d.adapter@) {
        None => Some(ManifestErrorV::UnknownAdapter { subject, found: d.adapter@ }),
        Some(Adapter::RustCodegen) => if d.macro_name is None {
            Some(
                ManifestErrorV::UnknownKey {
                    subject,
                    key: "driver `"@ + d.name@
                        + "`: driver.macro is required for the rust-codegen adapter"@,
                },
            )
        } else if d.crate_name is None {
            Some(
                ManifestErrorV::UnknownKey {
                    subject,
                    key: "driver `"@ + d.name@
                        + "`: driver.crate is required for the rust-codegen adapter"@,
                },
            )
        } else {
            None
        },
        Some(Adapter::Exec) => {
            let lang = match d.lang {
                Some(l) => l@,
                None => "(missing)"@,
            };
            if d.lang is None || (lang != "cxx"@ && lang != "python"@) {
                Some(
                    ManifestErrorV::UnknownKey {
                        subject,
                        key: "driver `"@ + d.name@ + "`: driver.lang "@ + debug_text(lang)
                            + " — exec subjects declare `cxx` or `python`"@,
                    },
                )
            } else if d.entry is None {
                Some(
                    ManifestErrorV::UnknownKey {
                        subject,
                        key: "driver `"@ + d.name@
                            + "`: driver.entry is required for exec subjects"@,
                    },
                )
            } else if !has_build {
                Some(
                    ManifestErrorV::UnknownKey {
                        subject,
                        key: "a [build] recipe is required for exec subjects"@,
                    },
                )
            } else {
                None
            }
        },
    }
}

/// A compile-time key of a driver that is no core key.
pub open spec fn generic_fault(d: Driver, subject: Seq<char>) -> Option<ManifestErrorV> {
    first_fault(
        Seq::new(
            d.compile_time@.len(),
            |i: int|
                if is_core(d.compile_time@[i]@) {
                    None
                } else {
                    Some(
                        ManifestErrorV::UnknownKey {
                            subject,
                            key: "driver `"@ + d.name@ + "`: compile_time names `"@
                                + d.compile_time@[i]@ + "`, not a core key"@,
                        },
                    )
                },
        ),
    )
}

fn driver_key(name: &str, rest: &str) -> (r: String)
    ensures
        r@ == "driver `"@ + name@ + rest@,
{
    let mut k = "driver `".to_owned();
    k.append(name);
    k.append(rest);
    k
}

fn check_driver(d: &Driver, has_build: bool, subject: &str) -> (r: Result<(), ManifestError>)
    ensures
        match r {
            Ok(_) => driver_fault(*d, has_build, subject@) is None,
            Err(e) => driver_fault(*d, has_build, subject@) == Some(e@),
        },
{
    match Adapter::parse(d.adapter.as_str()) {
        None => Err(
            ManifestError::UnknownAdapter { subject: subject.to_owned(), found: d.adapter.clone() },
        ),
        Some(Adapter::RustCodegen) => {
            if d.macro_name.is_none() {
                return Err(
                    ManifestError::UnknownKey {
                        subject: subject.to_owned(),
                        key: driver_key(
                            d.name.as_str(),
                            "`: driver.macro is required for the rust-codegen adapter",
                        ),
                    },
                );
            }
            if d.crate_name.is_none() {
                return Err(
                    ManifestError::UnknownKey {
                        subject: subject.to_owned(),
                        key: driver_key(
                            d.name.as_str(),
                            "`: driver.crate is required for the rust-codegen adapter",
                        ),
                    },
                );
            }
            Ok(())
        },
        Some(Adapter::Exec) => {
            let known = match &d.lang {
                Some(l) => same(l.as_str(), "cxx") || same(l.as_str(), "python"),
                None => false,
            };
            if !known {
                let mut k = driver_key(d.name.as_str(), "`: driver.lang ");
                let shown = match &d.lang {
                    Some(l) => quoted(l.as_str()),
                    None => quoted("(missing)"),
                };
                k.append(shown.as_str());
                k.append(" — exec subjects declare `cxx` or `python`");
                return Err(ManifestError::UnknownKey { subject: subject.to_owned(), key: k });
            }
            if d.entry.is_none() {
                return Err(
                    ManifestError::UnknownKey {
                        subject: subject.to_owned(),
                        key: driver_key(
                            d.name.as_str(),
                            "`: driver.entry is required for exec subjects",
                        ),
                    },
                );
            }
            if !has_build {
                return Err(
                    ManifestError::UnknownKey {
                        subject: subject.to_owned(),
                        key: "a [build] recipe is required for exec subjects".to_owned(),
                    },
                );
            }
            Ok(())
        },
    }
}

fn check_generic(d: &Driver, subject: &str) -> (r: Result<(), ManifestError>)
    ensures
        match r {
            Ok(_) => generic_fault(*d, subject@) is None,
            Err(e) => generic_fault(*d, subject@) == Some(e@),
        },
{
    let ghost fs = Seq::new(
        d.compile_time@.len(),
        |i: int|
            if is_core(d.compile_time@[i]@) {
                None
            } else {
                Some(
                    ManifestErrorV::UnknownKey {
                        subject: subject@,
                        key: "driver `"@ + d.name@ + "`: compile_time names `"@
                            + d.compile_time@[i]@ + "`, not a core key"@,
                    },
                )
            },
    );
    let mut i: usize = 0;
    while i < d.compile_time.len()
        invariant
            i <= d.compile_time@.len(),
            fs.len() == d.compile_time@.len(),
            generic_fault(*d, subject@) == first_fault(fs),
            forall|j: int|
                0 <= j < fs.len() ==> (#[trigger] fs[j]) == if is_core(d.compile_time@[j]@) {
                    None
                } else {
                    Some(
                        ManifestErrorV::UnknownKey {
                            subject: subject@,
                            key: "driver `"@ + d.name@ + "`: compile_time names `"@
                                + d.compile_time@[j]@ + "`, not a core key"@,
                        },
                    )
                },
            forall|j: int| 0 <= j < i ==> (#[trigger] fs[j]) is None,
        decreases d.compile_time@.len() - i,
    {
        if lookup(d.compile_time[i].as_str()).is_none() {
            let mut k = driver_key(d.name.as_str(), "`: compile_time names `");
            k.append(d.compile_time[i].as_str());
            k.append("`, not a core key");
            proof {
                first_fault_at(fs, i as int);
            }
            return Err(ManifestError::UnknownKey { subject: subject.to_owned(), key: k });
        }
        i = i + 1;
    }
    proof {
        first_fault_at(fs, i as int);
    }
    Ok(())
}

// ---------------------------------------------------------------- vocabulary

/// A key of a subject's own vocabulary, namespaced.
pub open spec fn own_key(subject: Seq<char>, key: Seq<char>) -> Seq<char> {
    namespace(subject) + "."@ + key
}

/// Why a declared value is refused, if it is: a value no case happens to use is
/// still vocabulary the selector must be able to say.
pub open spec fn declared_value_fault(
    key: Seq<char>,
    raw: Seq<char>,
    subject: Seq<char>,
    floats: Floats,
) -> Option<ManifestErrorV> {
    match read_value(raw, floats) {
        Err(_) => Some(
            ManifestErrorV::UnknownKey {
                subject,
                key: own_key(subject, key) + ": bad declared value `"@ + raw + "`"@,
            },
        ),
        Ok(v) => selector_fault(own_key(subject, key), v, subject, floats),
    }
}

/// The first refused value of one declared key.
pub open spec fn declared_key_fault(
    key: Seq<char>,
    decl: VocabKey,
    subject: Seq<char>,
    floats: Floats,
) -> Option<ManifestErrorV> {
    match decl.values {
        None => None,
        Some(raws) => first_fault(
            Seq::new(
                raws@.len(),
                |i: int| declared_value_fault(key, raws@[i]@, subject, floats),
            ),
        ),
    }
}

/// The first refused value of a declared vocabulary.
pub open spec fn vocab_fault(
    vocab: Seq<(String, VocabKey)>,
    subject: Seq<char>,
    floats: Floats,
) -> Option<ManifestErrorV> {
    first_fault(
        Seq::new(
            vocab.len(),
            |i: int| declared_key_fault(vocab[i].0@, vocab[i].1, subject, floats),
        ),
    )
}

/// The extension keys that a manifest declares.
pub open spec fn declared_exts(vocab: Seq<(String, VocabKey)>, subject: Seq<char>) -> Seq<ExtV> {
    Seq::new(
        vocab.len(),
        |i: int|
            ExtV {
                subject,
                key: own_key(subject, vocab[i].0@),
                allowed: match vocab[i].1.values {
                    Some(vs) => Some(texts(vs@)),
                    None => None,
                },
                compile_time: vocab[i].1.compile_time,
            },
    )
}

fn own_key_of(subject: &str, key: &str) -> (r: String)
    ensures
        r@ == own_key(subject@, key@),
{
    let mut k = namespace_of(subject).to_owned();
    k.append(".");
    k.append(key);
    k
}

fn check_declared_key(key: &str, decl: &VocabKey, subject: &str, floats: &Floats) -> (r: Result<
    (),
    ManifestError,
>)
    ensures
        match r {
            Ok(_) => declared_key_fault(key@, *decl, subject@, *floats) is None,
            Err(e) => declared_key_fault(key@, *decl, subject@, *floats) == Some(e@),
        },
{
    match &decl.values {
        None => Ok(()),
        Some(raws) => {
            let ghost fs = Seq::new(
                raws@.len(),
                |i: int| declared_value_fault(key@, raws@[i]@, subject@, *floats),
            );
            let own = own_key_of(subject, key);
            let mut i: usize = 0;
            while i < raws.len()
                invariant
                    i <= raws@.len(),
                    own@ == own_key(subject@, key@),
                    fs == Seq::new(
                        raws@.len(),
                        |i: int| declared_value_fault(key@, raws@[i]@, subject@, *floats),
                    ),
                    declared_key_fault(key@, *decl, subject@, *floats) == first_fault(fs),
                    forall|j: int| 0 <= j < i ==> (#[trigger] fs[j]) is None,
                decreases raws@.len() - i,
            {
                match TagValue::parse(raws[i].as_str(), floats) {
                    Err(_) => {
                        let mut k = own.clone();
                        k.append(": bad declared value `");
                        k.append(raws[i].as_str());
                        k.append("`");
                        proof {
                            first_fault_at(fs, i as int);
                        }
                        return Err(ManifestError::UnknownKey { subject: subject.to_owned(), key: k });
                    },
                    Ok(v) => match ensure_selectable(own.as_str(), &v, subject, floats) {
                        Ok(_) => {},
                        Err(e) => {
                            proof {
                                first_fault_at(fs, i as int);
                            }
                            return Err(e);
                        },
                    },
                }
                i = i + 1;
            }
            proof {
                first_fault_at(fs, i as int);
            }
            Ok(())
        },
    }
}

fn check_vocab(vocab: &Vec<(String, VocabKey)>, subject: &str, floats: &Floats) -> (r: Result<
    (),
    ManifestError,
>)
    ensures
        match r {
            Ok(_) => vocab_fault(vocab@, subject@, *floats) is None,
            Err(e) => vocab_fault(vocab@, subject@, *floats) == Some(e@),
        },
{
    let ghost fs = Seq::new(
        vocab@.len(),
        |i: int| declared_key_fault(vocab@[i].0@, vocab@[i].1, subject@, *floats),
    );
    let mut i: usize = 0;
    while i < vocab.len()
        invariant
            i <= vocab@.len(),
            fs == Seq::new(
                vocab@.len(),
                |i: int| declared_key_fault(vocab@[i].0@, vocab@[i].1, subject@, *floats),
            ),
            forall|j: int| 0 <= j < i ==> (#[trigger] fs[j]) is None,
        decreases vocab@.len() - i,
    {
        match check_declared_key(vocab[i].0.as_str(), &vocab[i].1, subject, floats) {
            Ok(_) => {},
            Err(e) => {
                proof {
                    first_fault_at(fs, i as int);
                }
                return Err(e);
            },
        }
        i = i + 1;
    }
    proof {
        first_fault_at(fs, i as int);
    }
    Ok(())
}

fn lower_vocab(vocab: &Vec<(String, VocabKey)>, subject: &str) -> (r: Vec<ExtKey>)
    ensures
        exts(r@) == declared_exts(vocab@, subject@),
{
    let mut r: Vec<ExtKey> = Vec::new();
    let mut i: usize = 0;
    while i < vocab.len()
        invariant
            i <= vocab@.len(),
            r@.len() == i,
            forall|j: int|
                0 <= j < i ==> (#[trigger] r@[j])@ == declared_exts(vocab@, subject@)[j],
        decreases vocab@.len() - i,
    {
        let allowed = match &vocab[i].1.values {
            Some(vs) => Some(copy_texts(vs)),
            None => None,
        };
        r.push(
            ExtKey {
                subject: subject.to_owned(),
                key: own_key_of(subject, vocab[i].0.as_str()),
                allowed,
                compile_time: vocab[i].1.compile_time,
            },
        );
        i = i + 1;
    }
    assert(exts(r@) =~= declared_exts(vocab@, subject@));
    r
}

// ---------------------------------------------------------------- cases

/// The key of the label that the runner computes.
pub open spec fn label_key() -> Seq<char> {
    "defaults_or_tuned"@
}

/// Declared defaults, read.
pub open spec fn declared_defaults(
    defaults: Seq<(String, TomlValue)>,
    subject: Seq<char>,
    floats: Floats,
) -> Result<Seq<TagV>, ManifestErrorV> {
    collect(
        Seq::new(
            defaults.len(),
            |i: int| toml_tag(defaults[i].1, defaults[i].0@, subject, floats),
        ),
    )
}

/// Do the tags hold every declared default?
pub open spec fn at_defaults(
    tags: Map<Seq<char>, TagV>,
    keys: Seq<(String, TomlValue)>,
    defaults: Seq<TagV>,
) -> bool {
    forall|i: int|
        0 <= i < defaults.len() ==> tags.dom().contains((#[trigger] keys[i]).0@) && tag_eq(
            tags[keys[i].0@],
            defaults[i],
        )
}

/// The tags of a case with the computed label: `default` when every declared
/// default matches, `tuned` when any differs.
pub open spec fn labelled(
    tags: Map<Seq<char>, TagV>,
    keys: Seq<(String, TomlValue)>,
    defaults: Seq<TagV>,
) -> Map<Seq<char>, TagV> {
    tags.insert(
        label_key(),
        TagV::Word(
            if at_defaults(tags, keys, defaults) {
                "default"@
            } else {
                "tuned"@
            },
        ),
    )
}

pub open spec fn has_key<T>(table: Seq<(String, T)>, key: Seq<char>) -> bool {
    exists|i: int| 0 <= i < table.len() && (#[trigger] table[i]).0@ == key
}

/// The first driver of this name.
pub open spec fn driver_at(drivers: Seq<Driver>, name: Seq<char>) -> int
    decreases drivers.len(),
{
    if drivers.len() == 0 || drivers[0].name@ == name {
        0
    } else {
        1 + driver_at(drivers.drop_first(), name)
    }
}

/// The driver that a case runs under: the one it names, or the only one.
pub open spec fn driver_name(m: Manifest, decl: CaseDecl) -> Option<Seq<char>> {
    match decl.driver {
        Some(d) => Some(d@),
        None => if m.drivers@.len() == 1 {
            Some(m.drivers@[0].name@)
        } else {
            None
        },
    }
}

/// The extension keys that are generic parameters.
pub open spec fn generic_exts(ext: Seq<ExtV>) -> Seq<Seq<char>>
    decreases ext.len(),
{
    if ext.len() == 0 {
        Seq::empty()
    } else {
        let rest = generic_exts(ext.drop_last());
        if ext.last().compile_time {
            rest.push(ext.last().key)
        } else {
            rest
        }
    }
}

/// The generic parameters of the cases of a driver, sorted so generated source is
/// byte-identical run to run.
pub open spec fn generic_keys(ext: Seq<ExtV>, d: Driver) -> Seq<Seq<char>> {
    sorted_texts(generic_exts(ext) + texts(d.compile_time@))
}

/// The case of one combination.
pub open spec fn lowered_case(
    m: Manifest,
    ext: Seq<ExtV>,
    d: Driver,
    adapter: Adapter,
    decl: CaseDecl,
    params: Seq<ParamV>,
    tags: Map<Seq<char>, TagV>,
    index: nat,
) -> CaseV {
    CaseV {
        id: m.name@ + ":"@ + dec(index),
        subject: m.name@,
        adapter,
        driver_crate: option_text(d.crate_name),
        driver_macro: option_text(d.macro_name),
        driver_lang: option_text(d.lang),
        driver_entry: option_text(d.entry),
        driver: d.name@,
        tags,
        params,
        runners: texts(decl.runners@),
        compile_time_keys: generic_keys(ext, d),
    }
}

/// The cases of one declaration, numbered from `start`.
pub open spec fn declared_cases(
    m: Manifest,
    ext: Seq<ExtV>,
    defaults: Seq<TagV>,
    decl: CaseDecl,
    start: nat,
    floats: Floats,
) -> Result<Seq<CaseV>, ManifestErrorV> {
    let subject = m.name@;
    if has_key(decl.tags@, label_key()) || has_key(decl.matrix@, label_key()) {
        Err(
            ManifestErrorV::UnknownKey {
                subject,
                key:
                    "defaults_or_tuned: the runner labels each case from the manifest's [defaults]; declare [defaults] instead"@,
            },
        )
    } else {
        match tag_table(decl.tags@, subject, floats) {
            Err(e) => Err(e),
            Ok(base) => if base.dom().contains("impl"@) && render(base["impl"@]) != subject {
                Err(ManifestErrorV::ImplMismatch { subject, found: render(base["impl"@]) })
            } else {
                match matrix_points(base, decl.matrix@, subject, floats) {
                    Err(e) => Err(e),
                    Ok(points) => if points.len() == 0 {
                        Ok(Seq::empty())
                    } else {
                        match attribution_fault(points, subject) {
                            Some(e) => Err(e),
                            None => cases_at(m, ext, defaults, decl, points, start, floats),
                        }
                    },
                }
            },
        }
    }
}

/// What is wrong with the `impl` tag of a case: it must be there and name the subject.
pub open spec fn impl_fault(tags: Map<Seq<char>, TagV>, subject: Seq<char>) -> Option<
    ManifestErrorV,
> {
    if tags.dom().contains("impl"@) {
        if render(tags["impl"@]) == subject {
            None
        } else {
            Some(ManifestErrorV::ImplMismatch { subject, found: render(tags["impl"@]) })
        }
    } else {
        Some(ManifestErrorV::ImplMismatch { subject, found: ""@ })
    }
}

/// A case is its subject's own: it is attributed to it, and carries its name as the `impl`
/// tag.
pub open spec fn carries_subject(c: CaseV, subject: Seq<char>) -> bool {
    c.subject == subject && c.tags.dom().contains("impl"@) && render(c.tags["impl"@]) == subject
}

/// The first combination that is not the subject's own.
pub open spec fn attribution_fault(
    points: Seq<Map<Seq<char>, TagV>>,
    subject: Seq<char>,
) -> Option<ManifestErrorV> {
    first_fault(Seq::new(points.len(), |i: int| impl_fault(points[i], subject)))
}

/// The cases of some points of a declaration.
pub open spec fn cases_at(
    m: Manifest,
    ext: Seq<ExtV>,
    defaults: Seq<TagV>,
    decl: CaseDecl,
    points: Seq<Map<Seq<char>, TagV>>,
    start: nat,
    floats: Floats,
) -> Result<Seq<CaseV>, ManifestErrorV> {
    let subject = m.name@;
    match driver_name(m, decl) {
        None => Err(
            ManifestErrorV::UnknownKey {
                subject,
                key:
                    "case is missing its driver reference, which is required when the manifest declares several [[driver]] blocks"@,
            },
        ),
        Some(name) => {
            let at = driver_at(m.drivers@, name);
            if at >= m.drivers@.len() {
                Err(
                    ManifestErrorV::UnknownKey {
                        subject,
                        key: "case references unknown driver `"@ + name + "`"@,
                    },
                )
            } else {
                let d = m.drivers@[at];
                match adapter_of(d.adapter@) {
                    None => Err(ManifestErrorV::UnknownAdapter { subject, found: d.adapter@ }),
                    Some(adapter) => match declared_params(decl.params@, subject, floats) {
                        Err(e) => Err(e),
                        Ok(params) => Ok(
                            Seq::new(
                                points.len(),
                                |i: int|
                                    lowered_case(
                                        m,
                                        ext,
                                        d,
                                        adapter,
                                        decl,
                                        params,
                                        labelled(points[i], m.defaults@, defaults),
                                        (start + i) as nat,
                                    ),
                            ),
                        ),
                    },
                }
            }
        },
    }
}

/// The cases of several declarations, numbered through.
pub open spec fn all_cases(
    m: Manifest,
    ext: Seq<ExtV>,
    defaults: Seq<TagV>,
    decls: Seq<CaseDecl>,
    floats: Floats,
) -> Result<Seq<CaseV>, ManifestErrorV>
    decreases decls.len(),
{
    if decls.len() == 0 {
        Ok(Seq::empty())
    } else {
        match all_cases(m, ext, defaults, decls.drop_last(), floats) {
            Err(e) => Err(e),
            Ok(cs) => match declared_cases(m, ext, defaults, decls.last(), cs.len(), floats) {
                Err(e) => Err(e),
                Ok(more) => Ok(cs + more),
            },
        }
    }
}

proof fn all_cases_stops(
    m: Manifest,
    ext: Seq<ExtV>,
    defaults: Seq<TagV>,
    decls: Seq<CaseDecl>,
    i: int,
    floats: Floats,
)
    requires
        0 <= i <= decls.len(),
        all_cases(m, ext, defaults, decls.take(i), floats) is Err,
    ensures
        all_cases(m, ext, defaults, decls, floats) == all_cases(
            m,
            ext,
            defaults,
            decls.take(i),
            floats,
        ),
    decreases decls.len(),
{
    if i == decls.len() {
        assert(decls.take(i) =~= decls);
    } else {
        assert(decls.drop_last().take(i) =~= decls.take(i));
        all_cases_stops(m, ext, defaults, decls.drop_last(), i, floats);
    }
}

/// What is wrong with a manifest before its defaults and cases are read, if
/// anything is.
pub open spec fn header_fault(m: Manifest, floats: Floats) -> Option<ManifestErrorV> {
    let subject = m.name@;
    if m.domain@ != "spatial_index"@ {
        Some(ManifestErrorV::UnknownDomain { subject, domain: m.domain@ })
    } else if trim(m.source.pinned_ref@).len() == 0 {
        Some(ManifestErrorV::MissingPin { subject })
    } else if m.source.kind@ != "cargo-git"@ && m.source.kind@ != "git"@ && m.source.kind@
        != "pypi"@ {
        Some(ManifestErrorV::UnknownSourceKind { subject, found: m.source.kind@ })
    } else if m.source.sha is Some && !commit_id(m.source.sha->Some_0@) {
        Some(ManifestErrorV::BadSha { subject, found: m.source.sha->Some_0@ })
    } else {
        let driver = first_fault(
            Seq::new(
                m.drivers@.len(),
                |i: int| driver_fault(m.drivers@[i], m.build is Some, subject),
            ),
        );
        if driver is Some {
            driver
        } else if vocab_fault(m.vocab@, subject, floats) is Some {
            vocab_fault(m.vocab@, subject, floats)
        } else {
            first_fault(
                Seq::new(m.drivers@.len(), |i: int| generic_fault(m.drivers@[i], subject)),
            )
        }
    }
}

/// The cases and the extension keys of a manifest, or the first thing that is wrong
/// with it.
pub open spec fn lowering(m: Manifest, floats: Floats) -> Result<
    (Seq<CaseV>, Seq<ExtV>),
    ManifestErrorV,
> {
    let subject = m.name@;
    let ext = declared_exts(m.vocab@, subject);
    match header_fault(m, floats) {
        Some(e) => Err(e),
        None => match declared_defaults(m.defaults@, subject, floats) {
            Err(e) => Err(e),
            Ok(defaults) => if m.drivers@.len() == 0 {
                Err(
                    ManifestErrorV::UnknownKey {
                        subject,
                        key: "no [[driver]] block — the engine cannot build this subject"@,
                    },
                )
            } else if has_key(m.defaults@, label_key()) {
                Err(
                    ManifestErrorV::UnknownKey {
                        subject,
                        key: "defaults.defaults_or_tuned — the label is computed, not declared"@,
                    },
                )
            } else {
                match all_cases(m, ext, defaults, m.cases@, floats) {
                    Err(e) => Err(e),
                    Ok(cases) => Ok((cases, ext)),
                }
            },
        },
    }
}

fn read_defaults(table: &Vec<(String, TomlValue)>, subject: &str, floats: &Floats) -> (r: Result<
    Vec<TagValue>,
    ManifestError,
>)
    ensures
        match r {
            Ok(vs) => declared_defaults(table@, subject@, *floats) == Ok::<
                Seq<TagV>,
                ManifestErrorV,
            >(values(vs@)) && vs@.len() == table@.len(),
            Err(e) => declared_defaults(table@, subject@, *floats) == Err::<
                Seq<TagV>,
                ManifestErrorV,
            >(e@),
        },
{
    let ghost rs = Seq::new(
        table@.len(),
        |i: int| toml_tag(table@[i].1, table@[i].0@, subject@, *floats),
    );
    let mut vs: Vec<TagValue> = Vec::new();
    let mut i: usize = 0;
    proof {
        assert(values(vs@) =~= Seq::empty());
        assert(rs.take(0) =~= Seq::empty());
    }
    while i < table.len()
        invariant
            i <= table@.len(),
            vs@.len() == i,
            rs == Seq::new(
                table@.len(),
                |i: int| toml_tag(table@[i].1, table@[i].0@, subject@, *floats),
            ),
            collect(rs.take(i as int)) == Ok::<Seq<TagV>, ManifestErrorV>(values(vs@)),
        decreases table@.len() - i,
    {
        let ghost before = values(vs@);
        proof {
            collect_step(rs, i as int);
        }
        match tag_value(&table[i].1, table[i].0.as_str(), subject, floats) {
            Ok(v) => {
                vs.push(v);
                assert(values(vs@) =~= before.push(v@));
            },
            Err(e) => {
                proof {
                    collect_stops(rs, i + 1);
                }
                return Err(e);
            },
        }
        i = i + 1;
    }
    assert(rs.take(table@.len() as int) =~= rs);
    Ok(vs)
}

fn names_key<T>(table: &Vec<(String, T)>, key: &str) -> (r: bool)
    ensures
        r == has_key(table@, key@),
{
    let mut i: usize = 0;
    while i < table.len()
        invariant
            i <= table@.len(),
            forall|j: int| 0 <= j < i ==> (#[trigger] table@[j]).0@ != key@,
        decreases table@.len() - i,
    {
        if same(table[i].0.as_str(), key) {
            return true;
        }
        i = i + 1;
    }
    false
}

/// Put the computed label on a case's tags.
fn label_tags(tags: &mut TagMap, table: &Vec<(String, TomlValue)>, defaults: &Vec<TagValue>)
    requires
        defaults@.len() == table@.len(),
    ensures
        final(tags)@ == labelled(old(tags)@, table@, values(defaults@)),
{
    let mut all: bool = true;
    let mut i: usize = 0;
    while i < table.len()
        invariant
            i <= table@.len() == defaults@.len(),
            tags@ == old(tags)@,
            all == (forall|j: int|
                0 <= j < i ==> tags@.dom().contains((#[trigger] table@[j]).0@) && tag_eq(
                    tags@[table@[j].0@],
                    values(defaults@)[j],
                )),
        decreases table@.len() - i,
    {
        let ghost t = table@[i as int];
        let matches_default = match tags.get(table[i].0.as_str()) {
            Some(v) => v.same_as(&defaults[i]),
            None => false,
        };
        all = all && matches_default;
        i = i + 1;
    }
    let label = if all {
        "default"
    } else {
        "tuned"
    };
    tags.insert("defaults_or_tuned", TagValue::Word(label.to_owned()));
}

fn find_driver(drivers: &Vec<Driver>, name: &str) -> (r: Option<usize>)
    ensures
        match r {
            Some(i) => i == driver_at(drivers@, name@) && i < drivers@.len() && drivers@[i as int].name@
                == name@,
            None => driver_at(drivers@, name@) >= drivers@.len(),
        },
{
    let mut i: usize = 0;
    assert(drivers@.skip(0) =~= drivers@);
    while i < drivers.len()
        invariant
            i <= drivers@.len(),
            driver_at(drivers@, name@) == i + driver_at(drivers@.skip(i as int), name@),
        decreases drivers@.len() - i,
    {
        assert(drivers@.skip(i as int).drop_first() =~= drivers@.skip(i + 1));
        if same(drivers[i].name.as_str(), name) {
            return Some(i);
        }
        i = i + 1;
    }
    None
}

fn generic_key_list(ext: &Vec<ExtKey>, d: &Driver) -> (r: Vec<String>)
    ensures
        texts(r@) == generic_keys(exts(ext@), *d),
{
    let mut keys: Vec<String> = Vec::new();
    let mut i: usize = 0;
    assert(texts(keys@) =~= Seq::empty());
    while i < ext.len()
        invariant
            i <= ext@.len(),
            texts(keys@) == generic_exts(exts(ext@).take(i as int)),
        decreases ext@.len() - i,
    {
        let ghost before = texts(keys@);
        proof {
            let t = exts(ext@).take(i + 1);
            assert(t.drop_last() =~= exts(ext@).take(i as int));
            assert(t.last() == ext@[i as int]@);
        }
        if ext[i].compile_time {
            keys.push(ext[i].key.clone());
            assert(texts(keys@) =~= before.push(ext@[i as int].key@));
        }
        i = i + 1;
    }
    assert(exts(ext@).take(ext@.len() as int) =~= exts(ext@));
    let ghost before = texts(keys@);
    let mut more = copy_texts(&d.compile_time);
    let ghost added = texts(more@);
    keys.append(&mut more);
    assert(texts(keys@) =~= before + added);
    sort_texts(keys)
}

fn copy_params(ps: &Vec<Param>) -> (r: Vec<Param>)
    ensures
        params_of(r@) == params_of(ps@),
{
    let mut r: Vec<Param> = Vec::new();
    let mut i: usize = 0;
    while i < ps.len()
        invariant
            i <= ps@.len(),
            r@.len() == i,
            forall|j: int| 0 <= j < i ==> (#[trigger] r@[j])@ == ps@[j]@,
        decreases ps@.len() - i,
    {
        r.push(ps[i].clone());
        i = i + 1;
    }
    assert(params_of(r@) =~= params_of(ps@));
    r
}

/// What was added to a list of cases, or why nothing was.
pub open spec fn added(before: Seq<Case>, after: Seq<Case>, r: Result<(), ManifestError>) -> Result<
    Seq<CaseV>,
    ManifestErrorV,
> {
    match r {
        Ok(_) => Ok(cases_of(after).skip(before.len() as int)),
        Err(e) => Err(e@),
    }
}

/// Add the cases of some points of a declaration.
fn build_cases(
    m: &Manifest,
    ext: &Vec<ExtKey>,
    defaults: &Vec<TagValue>,
    decl: &CaseDecl,
    points: &Vec<TagMap>,
    cases: &mut Vec<Case>,
    floats: &Floats,
) -> (r: Result<(), ManifestError>)
    requires
        defaults@.len() == m.defaults@.len(),
        all_sweepable(cases_of(old(cases)@)),
    ensures
        added(old(cases)@, final(cases)@, r) == cases_at(
            *m,
            exts(ext@),
            values(defaults@),
            *decl,
            maps(points@),
            old(cases)@.len(),
            *floats,
        ),
        r is Ok ==> old(cases)@.is_prefix_of(final(cases)@) && all_sweepable(cases_of(final(cases)@)),
{
    let name = match &decl.driver {
        Some(d) => d.clone(),
        None => if m.drivers.len() == 1 {
            m.drivers[0].name.clone()
        } else {
            return Err(
                ManifestError::UnknownKey {
                    subject: m.name.clone(),
                    key:
                        "case is missing its driver reference, which is required when the manifest declares several [[driver]] blocks".to_owned(),
                },
            );
        },
    };
    let at = match find_driver(&m.drivers, name.as_str()) {
        Some(i) => i,
        None => {
            let mut k = "case references unknown driver `".to_owned();
            k.append(name.as_str());
            k.append("`");
            return Err(ManifestError::UnknownKey { subject: m.name.clone(), key: k });
        },
    };
    let d = &m.drivers[at];
    let adapter = match Adapter::parse(d.adapter.as_str()) {
        Some(a) => a,
        None => {
            return Err(
                ManifestError::UnknownAdapter { subject: m.name.clone(), found: d.adapter.clone() },
            );
        },
    };
    let params = match lower_params(&decl.params, m.name.as_str(), floats) {
        Ok(ps) => ps,
        Err(e) => {
            return Err(e);
        },
    };
    let keys = generic_key_list(ext, d);
    let ghost pv = params_of(params@);
    let ghost pts = maps(points@);
    let ghost before = cases@;
    let ghost start = cases@.len();
    let mut i: usize = 0;
    while i < points.len()
        invariant
            i <= points@.len(),
            defaults@.len() == m.defaults@.len(),
            pts == maps(points@),
            pv == params_of(params@),
            at < m.drivers@.len(),
            d == m.drivers@[at as int],
            d.name@ == name@,
            texts(keys@) == generic_keys(exts(ext@), *d),
            start == before.len(),
            cases@.len() == start + i,
            before.is_prefix_of(cases@),
            forall|j: int|
                0 <= j < i ==> (#[trigger] cases@[start + j])@ == lowered_case(
                    *m,
                    exts(ext@),
                    *d,
                    adapter,
                    *decl,
                    pv,
                    labelled(pts[j], m.defaults@, values(defaults@)),
                    (start + j) as nat,
                ),
        decreases points@.len() - i,
    {
        let ghost was = cases@;
        let mut tags = points[i].clone();
        label_tags(&mut tags, &m.defaults, defaults);
        let mut id = m.name.clone();
        id.append(":");
        id.append(decimal(cases.len() as u64).as_str());
        cases.push(
            Case {
                id,
                subject: m.name.clone(),
                adapter,
                driver_crate: copy_option(&d.crate_name),
                driver_macro: copy_option(&d.macro_name),
                driver_lang: copy_option(&d.lang),
                driver_entry: copy_option(&d.entry),
                driver: name.clone(),
                tags,
                params: copy_params(&params),
                runners: copy_texts(&decl.runners),
                compile_time_keys: copy_texts(&keys),
            },
        );
        proof {
            assert(before.is_prefix_of(cases@)) by {
                assert forall|j: int| 0 <= j < before.len() implies before[j] == cases@[j] by {
                    assert(before[j] == was[j]);
                }
            }
            assert forall|j: int| 0 <= j < i + 1 implies (#[trigger] cases@[start + j])@
                == lowered_case(
                *m,
                exts(ext@),
                *d,
                adapter,
                *decl,
                pv,
                labelled(pts[j], m.defaults@, values(defaults@)),
                (start + j) as nat,
            ) by {
                if j < i {
                    assert(cases@[start + j] == was[start + j]);
                }
            }
        }
        i = i + 1;
    }
    proof {
        let want = Seq::new(
            pts.len(),
            |i: int|
                lowered_case(
                    *m,
                    exts(ext@),
                    *d,
                    adapter,
                    *decl,
                    pv,
                    labelled(pts[i], m.defaults@, values(defaults@)),
                    (start + i) as nat,
                ),
        );
        let got = cases_of(cases@).skip(start as int);
        assert(got =~= want) by {
            assert forall|j: int| 0 <= j < want.len() implies got[j] == want[j] by {
                assert(got[j] == cases@[start + j]@);
            }
        }
        assert forall|j: int| 0 <= j < cases_of(cases@).len() implies sweepable(
            #[trigger] cases_of(cases@)[j],
        ) by {
            if j < start {
                assert(before[j] == cases@[j]);
                assert(sweepable(cases_of(before)[j]));
            } else {
                assert(cases@[start + (j - start)]@.params == pv);
            }
        }
    }
    Ok(())
}

/// A subject must not declare cases attributed to another, or vendoring everything in
/// one place would buy nothing: every combination carries the subject's name.
fn check_attribution(points: &Vec<TagMap>, subject: &str) -> (r: Result<(), ManifestError>)
    ensures
        match r {
            Ok(_) => attribution_fault(maps(points@), subject@) is None,
            Err(e) => attribution_fault(maps(points@), subject@) == Some(e@),
        },
{
    let ghost fs = Seq::new(maps(points@).len(), |i: int| impl_fault(maps(points@)[i], subject@));
    let mut i: usize = 0;
    while i < points.len()
        invariant
            i <= points@.len(),
            fs == Seq::new(maps(points@).len(), |i: int| impl_fault(maps(points@)[i], subject@)),
            forall|j: int| 0 <= j < i ==> (#[trigger] fs[j]) is None,
        decreases points@.len() - i,
    {
        assert(fs[i as int] == impl_fault(points@[i as int]@, subject@));
        let found = match points[i].get("impl") {
            Some(v) => Some(v.to_string()),
            None => None,
        };
        let own = match &found {
            Some(text) => same(text.as_str(), subject),
            None => false,
        };
        if !own {
            proof {
                first_fault_at(fs, i as int);
            }
            let text = match found {
                Some(text) => text,
                None => "".to_owned(),
            };
            return Err(ManifestError::ImplMismatch { subject: subject.to_owned(), found: text });
        }
        i = i + 1;
    }
    proof {
        first_fault_at(fs, i as int);
    }
    Ok(())
}

/// Add the cases of one declaration.
fn lower_case(
    m: &Manifest,
    ext: &Vec<ExtKey>,
    defaults: &Vec<TagValue>,
    decl: &CaseDecl,
    cases: &mut Vec<Case>,
    floats: &Floats,
) -> (r: Result<(), ManifestError>)
    requires
        defaults@.len() == m.defaults@.len(),
        all_sweepable(cases_of(old(cases)@)),
    ensures
        added(old(cases)@, final(cases)@, r) == declared_cases(
            *m,
            exts(ext@),
            values(defaults@),
            *decl,
            old(cases)@.len(),
            *floats,
        ),
        r is Ok ==> old(cases)@.is_prefix_of(final(cases)@) && all_sweepable(cases_of(final(cases)@)),
{
    if names_key(&decl.tags, "defaults_or_tuned") || names_key(&decl.matrix, "defaults_or_tuned") {
        return Err(
            ManifestError::UnknownKey {
                subject: m.name.clone(),
                key:
                    "defaults_or_tuned: the runner labels each case from the manifest's [defaults]; declare [defaults] instead".to_owned(),
            },
        );
    }
    let base = match toml_tags(&decl.tags, m.name.as_str(), floats) {
        Ok(b) => b,
        Err(e) => {
            return Err(e);
        },
    };
    if let Some(found) = base.get("impl") {
        let text = found.to_string();
        if !same(text.as_str(), m.name.as_str()) {
            return Err(ManifestError::ImplMismatch { subject: m.name.clone(), found: text });
        }
    }
    match expand_matrix(&base, &decl.matrix, m.name.as_str(), floats) {
        Err(e) => Err(e),
        Ok(points) => {
            assert(maps(points@).len() == points@.len());
            if points.len() == 0 {
                assert(cases_of(cases@).skip(cases@.len() as int) =~= Seq::empty());
                return Ok(());
            }
            if let Err(e) = check_attribution(&points, m.name.as_str()) {
                return Err(e);
            }
            build_cases(m, ext, defaults, decl, &points, cases, floats)
        },
    }
}

/// Check everything in a manifest that comes before its defaults and cases.
fn check_header(m: &Manifest, floats: &Floats) -> (r: Result<(), ManifestError>)
    ensures
        match r {
            Ok(_) => header_fault(*m, *floats) is None,
            Err(e) => header_fault(*m, *floats) == Some(e@),
        },
{
    let subject = m.name.as_str();
    if crate::vocab::domain(m.domain.as_str()).is_none() {
        return Err(
            ManifestError::UnknownDomain { subject: m.name.clone(), domain: m.domain.clone() },
        );
    }
    if trimmed(m.source.pinned_ref.as_str()).is_empty() {
        return Err(ManifestError::MissingPin { subject: m.name.clone() });
    }
    // The source kind is typed here or nowhere, so a typo is a load error, not a
    // run-time surprise phrased as "not implemented".
    let kind = m.source.kind.as_str();
    if !same(kind, "cargo-git") && !same(kind, "git") && !same(kind, "pypi") {
        return Err(
            ManifestError::UnknownSourceKind { subject: m.name.clone(), found: m.source.kind.clone() },
        );
    }
    if let Some(sha) = &m.source.sha {
        if !is_commit_id(sha.as_str()) {
            return Err(ManifestError::BadSha { subject: m.name.clone(), found: sha.clone() });
        }
    }
    let ghost fs = Seq::new(
        m.drivers@.len(),
        |i: int| driver_fault(m.drivers@[i], m.build is Some, subject@),
    );
    let has_build = m.build.is_some();
    let mut i: usize = 0;
    while i < m.drivers.len()
        invariant
            i <= m.drivers@.len(),
            has_build == m.build is Some,
            subject@ == m.name@,
            m.domain@ == "spatial_index"@,
            trim(m.source.pinned_ref@).len() > 0,
            m.source.kind@ == "cargo-git"@ || m.source.kind@ == "git"@ || m.source.kind@ == "pypi"@,
            m.source.sha is None || commit_id(m.source.sha->Some_0@),
            fs == Seq::new(
                m.drivers@.len(),
                |i: int| driver_fault(m.drivers@[i], m.build is Some, subject@),
            ),
            forall|j: int| 0 <= j < i ==> (#[trigger] fs[j]) is None,
        decreases m.drivers@.len() - i,
    {
        match check_driver(&m.drivers[i], has_build, subject) {
            Ok(_) => {},
            Err(e) => {
                proof {
                    first_fault_at(fs, i as int);
                }
                return Err(e);
            },
        }
        i = i + 1;
    }
    proof {
        first_fault_at(fs, i as int);
    }
    match check_vocab(&m.vocab, subject, floats) {
        Ok(_) => {},
        Err(e) => {
            return Err(e);
        },
    }
    let ghost gs = Seq::new(m.drivers@.len(), |i: int| generic_fault(m.drivers@[i], subject@));
    let mut j: usize = 0;
    while j < m.drivers.len()
        invariant
            j <= m.drivers@.len(),
            header_fault(*m, *floats) == first_fault(gs),
            gs == Seq::new(m.drivers@.len(), |i: int| generic_fault(m.drivers@[i], subject@)),
            forall|k: int| 0 <= k < j ==> (#[trigger] gs[k]) is None,
        decreases m.drivers@.len() - j,
    {
        match check_generic(&m.drivers[j], subject) {
            Ok(_) => {},
            Err(e) => {
                proof {
                    first_fault_at(gs, j as int);
                }
                return Err(e);
            },
        }
        j = j + 1;
    }
    proof {
        first_fault_at(gs, j as int);
    }
    Ok(())
}

/// The axes of a case come in the order of their names.
pub open spec fn axes_in_order(c: CaseV) -> bool {
    forall|i: int, j: int|
        0 <= i < j < c.params.len() ==> text_lt(
            (#[trigger] c.params[i]).key,
            (#[trigger] c.params[j]).key,
        )
}

/// Turn one manifest into concrete cases, expanding `matrix` into the cartesian
/// product. This is where a sweep stops being a nested loop in a bench file and
/// becomes data.
pub fn lower(manifest: &Manifest, floats: &Floats) -> (r: Result<
    (Vec<Case>, Vec<ExtKey>),
    ManifestError,
>)
    requires
        manifest.in_order(),
    ensures
        match r {
            Ok(p) => lowering(*manifest, *floats) == Ok::<(Seq<CaseV>, Seq<ExtV>), ManifestErrorV>(
                (cases_of(p.0@), exts(p.1@)),
            ) && all_sweepable(cases_of(p.0@)),
            Err(e) => lowering(*manifest, *floats) == Err::<
                (Seq<CaseV>, Seq<ExtV>),
                ManifestErrorV,
            >(e@),
        },
        r matches Ok(p) ==> forall|i: int|
            0 <= i < p.0@.len() ==> carries_subject((#[trigger] p.0@[i])@, manifest.name@)
                && axes_in_order(p.0@[i]@),
{
    match check_header(manifest, floats) {
        Ok(_) => {},
        Err(e) => {
            return Err(e);
        },
    }
    let subject = manifest.name.as_str();
    let ext = lower_vocab(&manifest.vocab, subject);
    // Read the declared defaults once: a mistyped value is a load error, not a
    // silent stream of "tuned" labels.
    let defaults = match read_defaults(&manifest.defaults, subject, floats) {
        Ok(d) => d,
        Err(e) => {
            return Err(e);
        },
    };
    if manifest.drivers.len() == 0 {
        return Err(
            ManifestError::UnknownKey {
                subject: manifest.name.clone(),
                key: "no [[driver]] block — the engine cannot build this subject".to_owned(),
            },
        );
    }
    if names_key(&manifest.defaults, "defaults_or_tuned") {
        return Err(
            ManifestError::UnknownKey {
                subject: manifest.name.clone(),
                key: "defaults.defaults_or_tuned — the label is computed, not declared".to_owned(),
            },
        );
    }
    let mut cases: Vec<Case> = Vec::new();
    let mut i: usize = 0;
    let ghost ev = exts(ext@);
    let ghost dv = values(defaults@);
    proof {
        assert(cases_of(cases@) =~= Seq::empty());
        assert(manifest.cases@.take(0) =~= Seq::empty());
    }
    while i < manifest.cases.len()
        invariant
            i <= manifest.cases@.len(),
            ev == exts(ext@),
            dv == values(defaults@),
            defaults@.len() == manifest.defaults@.len(),
            all_sweepable(cases_of(cases@)),
            lowering(*manifest, *floats) == match all_cases(
                *manifest,
                ev,
                dv,
                manifest.cases@,
                *floats,
            ) {
                Err(e) => Err::<(Seq<CaseV>, Seq<ExtV>), ManifestErrorV>(e),
                Ok(cs) => Ok((cs, ev)),
            },
            all_cases(*manifest, ev, dv, manifest.cases@.take(i as int), *floats) == Ok::<
                Seq<CaseV>,
                ManifestErrorV,
            >(cases_of(cases@)),
        decreases manifest.cases@.len() - i,
    {
        let ghost before = cases@;
        proof {
            let t = manifest.cases@.take(i + 1);
            assert(t.drop_last() =~= manifest.cases@.take(i as int));
            assert(t.last() == manifest.cases@[i as int]);
            assert(cases_of(cases@).len() == cases@.len());
        }
        match lower_case(manifest, &ext, &defaults, &manifest.cases[i], &mut cases, floats) {
            Ok(_) => {
                proof {
                    let more = cases_of(cases@).skip(before.len() as int);
                    assert(cases_of(cases@) =~= cases_of(before) + more) by {
                        assert forall|j: int| 0 <= j < before.len() implies cases_of(cases@)[j]
                            == cases_of(before)[j] by {
                            assert(before[j] == cases@[j]);
                        }
                    }
                }
            },
            Err(e) => {
                proof {
                    all_cases_stops(*manifest, ev, dv, manifest.cases@, i + 1, *floats);
                }
                return Err(e);
            },
        }
        i = i + 1;
    }
    proof {
        assert(manifest.cases@.take(manifest.cases@.len() as int) =~= manifest.cases@);
        let cs = cases_of(cases@);
        assert forall|i: int| 0 <= i < cases@.len() implies carries_subject(
            (#[trigger] cases@[i])@,
            manifest.name@,
        ) && axes_in_order(cases@[i]@) by {
            assert(cs[i] == cases@[i]@);
            cases_belong_to_their_subject(*manifest, *floats, i);
            axes_ascend(*manifest, *floats, i);
        }
    }
    Ok((cases, ext))
}

// ---------------------------------------------------------------- loading

/// One directory of the catalog: where it is, and its manifest as it was read, if
/// it holds one.
pub struct SubjectDir {
    pub dir: String,
    pub manifest: Option<Result<Manifest, ManifestError>>,
}

/// Where a manifest was read, what it lists is in order.
pub open spec fn tables_in_order(d: SubjectDir) -> bool {
    d.manifest matches Some(Ok(m)) ==> m.in_order()
}

impl Ordered for SubjectDir {
    type M = SubjectDir;

    open spec fn model(&self) -> SubjectDir {
        *self
    }

    open spec fn lt(a: SubjectDir, b: SubjectDir) -> bool {
        text_lt(a.dir@, b.dir@)
    }

    proof fn asymmetric(a: SubjectDir, b: SubjectDir) {
        <String as Ordered>::asymmetric(a.dir@, b.dir@);
    }

    proof fn comparable(a: SubjectDir, b: SubjectDir, c: SubjectDir) {
        <String as Ordered>::comparable(a.dir@, b.dir@, c.dir@);
    }

    fn before(&self, other: &Self) -> (r: bool) {
        crate::text::before(self.dir.as_str(), other.dir.as_str())
    }
}

/// Hold a manifest that was read against the schema this engine knows. What could
/// not be read stays unread.
pub fn parse(path: &str, read: Result<Manifest, ManifestError>) -> (r: Result<Manifest, ManifestError>)
    ensures
        match read {
            Err(e) => r == Err::<Manifest, ManifestError>(e),
            Ok(m) => if m.schema == MANIFEST_SCHEMA {
                r == Ok::<Manifest, ManifestError>(m)
            } else {
                r matches Err(e) && e@ == (ManifestErrorV::UnsupportedSchema {
                    path: path@,
                    found: m.schema,
                })
            },
        },
{
    match read {
        Err(e) => Err(e),
        Ok(m) => if m.schema != MANIFEST_SCHEMA {
            Err(ManifestError::UnsupportedSchema { path: path.to_owned(), found: m.schema })
        } else {
            Ok(m)
        },
    }
}

/// The facts of one driver block.
pub open spec fn driver_facts(d: Driver) -> DriverFactsV {
    DriverFactsV {
        name: d.name@,
        min_supported_semver: option_text(d.min_supported_semver),
        max_supported_semver: option_text(d.max_supported_semver),
        version: option_text(d.version),
        path: option_text(d.path),
        features: texts(d.features@),
        rustflags: option_text(d.rustflags),
        macro_name: option_text(d.macro_name),
        crate_name: option_text(d.crate_name),
    }
}

/// The facts of a subject that a build needs.
pub open spec fn subject_facts(m: Manifest, dir: Seq<char>) -> SubjectFactsV {
    let first = m.drivers@[0];
    SubjectFactsV {
        pinned_ref: m.source.pinned_ref@,
        source_kind: m.source.kind@,
        repo: option_text(m.source.repo),
        driver_version: option_text(first.version),
        expected_sha: option_text(m.source.sha),
        source_package: option_text(m.source.package),
        driver_path: option_text(first.path),
        build: match m.build {
            Some(b) => Some(b@),
            None => None,
        },
        manifest_dir: dir,
        features: texts(first.features@),
        min_rustc: match m.toolchain {
            Some(t) => option_text(t.min_rustc),
            None => None,
        },
        rustflags: option_text(first.rustflags),
        drivers: Seq::new(m.drivers@.len(), |i: int| driver_facts(m.drivers@[i])),
    }
}

fn driver_facts_of(d: &Driver) -> (r: DriverFacts)
    ensures
        r@ == driver_facts(*d),
{
    DriverFacts {
        name: d.name.clone(),
        min_supported_semver: copy_option(&d.min_supported_semver),
        max_supported_semver: copy_option(&d.max_supported_semver),
        version: copy_option(&d.version),
        path: copy_option(&d.path),
        features: copy_texts(&d.features),
        rustflags: copy_option(&d.rustflags),
        macro_name: copy_option(&d.macro_name),
        crate_name: copy_option(&d.crate_name),
    }
}

fn subject_facts_of(m: &Manifest, dir: &str) -> (r: SubjectFacts)
    requires
        m.drivers@.len() > 0,
    ensures
        r@ == subject_facts(*m, dir@),
{
    let first = &m.drivers[0];
    let mut drivers: Vec<DriverFacts> = Vec::new();
    let mut i: usize = 0;
    while i < m.drivers.len()
        invariant
            i <= m.drivers@.len(),
            drivers@.len() == i,
            forall|j: int| 0 <= j < i ==> (#[trigger] drivers@[j])@ == driver_facts(m.drivers@[j]),
        decreases m.drivers@.len() - i,
    {
        drivers.push(driver_facts_of(&m.drivers[i]));
        i = i + 1;
    }
    let min_rustc = match &m.toolchain {
        Some(t) => copy_option(&t.min_rustc),
        None => None,
    };
    let build = match &m.build {
        Some(b) => Some(b.clone()),
        None => None,
    };
    let r = SubjectFacts {
        pinned_ref: m.source.pinned_ref.clone(),
        source_kind: m.source.kind.clone(),
        repo: copy_option(&m.source.repo),
        driver_version: copy_option(&first.version),
        expected_sha: copy_option(&m.source.sha),
        source_package: copy_option(&m.source.package),
        driver_path: copy_option(&first.path),
        build,
        manifest_dir: dir.to_owned(),
        features: copy_texts(&first.features),
        min_rustc,
        rustflags: copy_option(&first.rustflags),
        drivers,
    };
    assert(r@.drivers =~= subject_facts(*m, dir@).drivers);
    r
}

/// A list of facts with the facts of one subject set.
pub open spec fn put_facts(
    list: Seq<(Seq<char>, SubjectFactsV)>,
    name: Seq<char>,
    facts: SubjectFactsV,
) -> Seq<(Seq<char>, SubjectFactsV)>
    decreases list.len(),
{
    if list.len() == 0 {
        seq![(name, facts)]
    } else if list[0].0 == name {
        seq![(name, facts)] + list.drop_first()
    } else {
        seq![list[0]] + put_facts(list.drop_first(), name, facts)
    }
}

proof fn put_facts_at(
    list: Seq<(Seq<char>, SubjectFactsV)>,
    name: Seq<char>,
    facts: SubjectFactsV,
    at: int,
)
    requires
        0 <= at <= list.len(),
        forall|j: int| 0 <= j < at ==> (#[trigger] list[j]).0 != name,
        at < list.len() ==> list[at].0 == name,
    ensures
        put_facts(list, name, facts) == if at < list.len() {
            list.update(at, (name, facts))
        } else {
            list.push((name, facts))
        },
    decreases list.len(),
{
    if list.len() == 0 {
        assert(list.push((name, facts)) =~= seq![(name, facts)]);
    } else if at == 0 {
        assert(list.update(0, (name, facts)) =~= seq![(name, facts)] + list.drop_first());
    } else {
        let t = list.drop_first();
        assert(list[0].0 != name);
        assert forall|j: int| 0 <= j < at - 1 implies (#[trigger] t[j]).0 != name by {
            assert(list[j + 1].0 != name);
        }
        put_facts_at(t, name, facts, at - 1);
        if at < list.len() {
            assert(seq![list[0]] + t.update(at - 1, (name, facts)) =~= list.update(
                at,
                (name, facts),
            ));
        } else {
            assert(seq![list[0]] + t.push((name, facts)) =~= list.push((name, facts)));
        }
    }
}

/// The facts that were put for a name are the facts of the name.
pub proof fn put_facts_are_found(
    list: Seq<(Seq<char>, SubjectFactsV)>,
    name: Seq<char>,
    facts: SubjectFactsV,
    other: Seq<char>,
)
    ensures
        facts_in(put_facts(list, name, facts), name) == Some(facts),
        other != name ==> facts_in(put_facts(list, name, facts), other) == facts_in(list, other),
    decreases list.len(),
{
    let p = put_facts(list, name, facts);
    if list.len() == 0 {
        assert(p.drop_first() =~= list);
    } else if list[0].0 == name {
        assert(p.drop_first() =~= list.drop_first());
    } else {
        put_facts_are_found(list.drop_first(), name, facts, other);
        assert(p.drop_first() =~= put_facts(list.drop_first(), name, facts));
    }
}

fn set_facts(list: &mut Vec<(String, SubjectFacts)>, name: &str, facts: SubjectFacts)
    ensures
        entries_of(final(list)@) == put_facts(entries_of(old(list)@), name@, facts@),
{
    let ghost before = entries_of(list@);
    let mut at: usize = 0;
    while at < list.len() && !same(list[at].0.as_str(), name)
        invariant
            at <= list@.len(),
            before == entries_of(list@),
            forall|j: int| 0 <= j < at ==> (#[trigger] before[j]).0 != name@,
        decreases list@.len() - at,
    {
        assert(before[at as int].0 == list@[at as int].0@);
        at = at + 1;
    }
    proof {
        if at < list@.len() {
            assert(before[at as int].0 == list@[at as int].0@);
        }
        put_facts_at(before, name@, facts@, at as int);
    }
    if at < list.len() {
        list.set(at, (name.to_owned(), facts));
    } else {
        list.push((name.to_owned(), facts));
    }
    assert(entries_of(list@) =~= put_facts(before, name@, facts@));
}

/// A catalog in the making.
pub struct Loading {
    pub cases: Seq<CaseV>,
    pub vocab: Seq<ExtV>,
    pub subjects: Seq<(Seq<char>, SubjectFactsV)>,
}

/// What one more directory adds.
pub open spec fn load_step(l: Loading, d: SubjectDir, floats: Floats) -> Result<
    Loading,
    ManifestErrorV,
> {
    match d.manifest {
        None => Ok(l),
        Some(Err(e)) => Err(e@),
        Some(Ok(m)) => match lowering(m, floats) {
            Err(e) => Err(e),
            Ok(p) => match crate::vocab::first_fault(m.name@, p.1) {
                Some(e) => Err(
                    ManifestErrorV::Vocab { subject: m.name@, message: tag_error_message(e) },
                ),
                None => Ok(
                    Loading {
                        cases: l.cases + p.0,
                        vocab: l.vocab + p.1,
                        subjects: put_facts(l.subjects, m.name@, subject_facts(m, d.dir@)),
                    },
                ),
            },
        },
    }
}

/// What all the directories add, in order.
pub open spec fn load_all(order: Seq<SubjectDir>, floats: Floats) -> Result<Loading, ManifestErrorV>
    decreases order.len(),
{
    if order.len() == 0 {
        Ok(Loading { cases: Seq::empty(), vocab: Seq::empty(), subjects: Seq::empty() })
    } else {
        match load_all(order.drop_last(), floats) {
            Err(e) => Err(e),
            Ok(l) => load_step(l, order.last(), floats),
        }
    }
}

proof fn load_all_stops(order: Seq<SubjectDir>, i: int, floats: Floats)
    requires
        0 <= i <= order.len(),
        load_all(order.take(i), floats) is Err,
    ensures
        load_all(order, floats) == load_all(order.take(i), floats),
    decreases order.len(),
{
    if i == order.len() {
        assert(order.take(i) =~= order);
    } else {
        assert(order.drop_last().take(i) =~= order.take(i));
        load_all_stops(order.drop_last(), i, floats);
    }
}

/// A key whose value the vocabulary refuses.
pub open spec fn refused_key(tags: Map<Seq<char>, TagV>, vocab: Seq<ExtV>, key: Seq<char>) -> bool {
    tags.dom().contains(key) && vocabulary_verdict(vocab, key, tags[key]) is Err
}

/// The refused key that comes first.
pub open spec fn first_refused(tags: Map<Seq<char>, TagV>, vocab: Seq<ExtV>, key: Seq<char>) -> bool {
    refused_key(tags, vocab, key) && forall|other: Seq<char>|
        #[trigger] refused_key(tags, vocab, other) ==> text_le(key, other)
}

/// The subject that a case's tags name.
pub open spec fn tagged_subject(tags: Map<Seq<char>, TagV>) -> Seq<char> {
    if tags.dom().contains("impl"@) {
        render(tags["impl"@])
    } else {
        ""@
    }
}

/// What the vocabulary says of a case, if it refuses it: its first refused key
/// decides.
pub open spec fn case_fault(c: CaseV, vocab: Seq<ExtV>) -> Option<ManifestErrorV> {
    if exists|key: Seq<char>| first_refused(c.tags, vocab, key) {
        let key = choose|key: Seq<char>| first_refused(c.tags, vocab, key);
        Some(
            ManifestErrorV::Vocab {
                subject: tagged_subject(c.tags),
                message: tag_error_message(
                    vocabulary_verdict(vocab, key, c.tags[key])->Err_0,
                ),
            },
        )
    } else {
        None
    }
}

/// The catalog of some directories, taken in this order, or the first thing that is
/// wrong with them. Validation happens after every manifest is in, so a case may
/// reference an extension key declared by the subject it belongs to.
pub open spec fn loaded(order: Seq<SubjectDir>, floats: Floats) -> Result<Loading, ManifestErrorV> {
    match load_all(order, floats) {
        Err(e) => Err(e),
        Ok(l) => match first_fault(
            Seq::new(l.cases.len(), |i: int| case_fault(l.cases[i], l.vocab)),
        ) {
            Some(e) => Err(e),
            None => Ok(l),
        },
    }
}

proof fn first_refused_is_unique(
    tags: Map<Seq<char>, TagV>,
    vocab: Seq<ExtV>,
    a: Seq<char>,
    b: Seq<char>,
)
    requires
        first_refused(tags, vocab, a),
        first_refused(tags, vocab, b),
    ensures
        a == b,
{
    assert(refused_key(tags, vocab, a) && refused_key(tags, vocab, b));
    if a != b {
        text_lt_transitive(a, b, a);
        text_lt_irreflexive(a);
    }
}

fn check_case(c: &Case, vocab: &Vocabulary) -> (r: Result<(), ManifestError>)
    ensures
        match r {
            Ok(_) => case_fault(c@, vocab@) is None,
            Err(e) => case_fault(c@, vocab@) == Some(e@),
        },
{
    let entries = c.tags.entries();
    let mut i: usize = 0;
    while i < entries.len()
        invariant
            i <= entries@.len(),
            crate::tag::ascending(entries@),
            entry_map(entries@) == c@.tags,
            forall|j: int|
                0 <= j < i ==> !refused_key(c@.tags, vocab@, (#[trigger] entries@[j]).0@),
        decreases entries@.len() - i,
    {
        proof {
            entry_map_at(entries@, i as int);
        }
        match vocab.validate(entries[i].0.as_str(), &entries[i].1) {
            Ok(_) => {},
            Err(e) => {
                let ghost key = entries@[i as int].0@;
                proof {
                    assert(refused_key(c@.tags, vocab@, key));
                    assert forall|other: Seq<char>| #[trigger] refused_key(c@.tags, vocab@, other) implies text_le(
                        key,
                        other,
                    ) by {
                        let j = choose|j: int| is_entry(entries@, j, other);
                        assert(entries@[j].0@ == other);
                        if j > i {
                            assert(text_lt(entries@[i as int].0@, entries@[j].0@));
                        }
                    }
                    assert(first_refused(c@.tags, vocab@, key));
                    let chosen = choose|k: Seq<char>| first_refused(c@.tags, vocab@, k);
                    first_refused_is_unique(c@.tags, vocab@, key, chosen);
                }
                let subject = match c.tags.get("impl") {
                    Some(v) => v.to_string(),
                    None => "".to_owned(),
                };
                return Err(ManifestError::Vocab { subject, message: e.to_string() });
            },
        }
        i = i + 1;
    }
    proof {
        assert forall|key: Seq<char>| !first_refused(c@.tags, vocab@, key) by {
            if first_refused(c@.tags, vocab@, key) {
                let j = choose|j: int| is_entry(entries@, j, key);
                assert(entries@[j].0@ == key);
            }
        }
    }
    Ok(())
}

/// What a directory's manifest is, without owning it.
fn manifest_of(d: &SubjectDir) -> (r: Option<Result<&Manifest, ManifestError>>)
    ensures
        match r {
            None => d.manifest is None,
            Some(Ok(m)) => d.manifest == Some(Ok::<Manifest, ManifestError>(*m)),
            Some(Err(e)) => d.manifest matches Some(Err(f)) && e@ == f@,
        },
{
    match &d.manifest {
        None => None,
        Some(Ok(m)) => Some(Ok(m)),
        Some(Err(e)) => Some(Err(copy_error(e))),
    }
}

fn copy_error(e: &ManifestError) -> (r: ManifestError)
    ensures
        r@ == e@,
{
    match e {
        ManifestError::Io { path, err } => ManifestError::Io { path: path.clone(), err: err.clone() },
        ManifestError::Toml { path, err } => ManifestError::Toml {
            path: path.clone(),
            err: err.clone(),
        },
        ManifestError::UnsupportedSchema { path, found } => ManifestError::UnsupportedSchema {
            path: path.clone(),
            found: *found,
        },
        ManifestError::ImplMismatch { subject, found } => ManifestError::ImplMismatch {
            subject: subject.clone(),
            found: found.clone(),
        },
        ManifestError::UnknownKey { subject, key } => ManifestError::UnknownKey {
            subject: subject.clone(),
            key: key.clone(),
        },
        ManifestError::BadNamespace { subject, key } => ManifestError::BadNamespace {
            subject: subject.clone(),
            key: key.clone(),
        },
        ManifestError::MissingPin { subject } => ManifestError::MissingPin { subject: subject.clone() },
        ManifestError::UnknownDomain { subject, domain } => ManifestError::UnknownDomain {
            subject: subject.clone(),
            domain: domain.clone(),
        },
        ManifestError::ToolchainBelowFloor { subject, floor, pinned } => ManifestError::ToolchainBelowFloor {
            subject: subject.clone(),
            floor: floor.clone(),
            pinned: pinned.clone(),
        },
        ManifestError::UnknownAdapter { subject, found } => ManifestError::UnknownAdapter {
            subject: subject.clone(),
            found: found.clone(),
        },
        ManifestError::UnknownSourceKind { subject, found } => ManifestError::UnknownSourceKind {
            subject: subject.clone(),
            found: found.clone(),
        },
        ManifestError::Vocab { subject, message } => ManifestError::Vocab {
            subject: subject.clone(),
            message: message.clone(),
        },
        ManifestError::BadSelectorValue { subject, key, value, why } => ManifestError::BadSelectorValue {
            subject: subject.clone(),
            key: key.clone(),
            value: value.clone(),
            why: why.clone(),
        },
        ManifestError::BadSha { subject, found } => ManifestError::BadSha {
            subject: subject.clone(),
            found: found.clone(),
        },
    }
}

/// Manifests that lower have a driver.
proof fn lowered_has_driver(m: Manifest, floats: Floats)
    requires
        lowering(m, floats) is Ok,
    ensures
        m.drivers@.len() > 0,
{
}

/// A result over the contents of a catalog and of an error.
pub open spec fn catalog_result(r: Result<Catalog, ManifestError>) -> Result<Loading, ManifestErrorV> {
    match r {
        Ok(c) => Ok(Loading { cases: c@.cases, vocab: c@.vocab, subjects: c@.subjects }),
        Err(e) => Err(e@),
    }
}

/// Load every subject, merge their vocabularies, expand each case's `matrix`, and
/// validate the result.
///
/// The directories are taken in the order of their names, whatever order they come
/// in: the catalog, and therefore every enumeration and estimate built from it,
/// must not depend on the order in which a directory is listed.
pub fn load_dir(entries: Vec<SubjectDir>, floats: &Floats) -> (r: Result<Catalog, ManifestError>)
    requires
        forall|i: int| 0 <= i < entries@.len() ==> tables_in_order(#[trigger] entries@[i]),
    ensures
        exists|order: Seq<SubjectDir>|
            #![trigger loaded(order, *floats)]
            ascending::<SubjectDir>(order) && order.to_multiset() == entries@.to_multiset()
                && catalog_result(r) == loaded(order, *floats),
        r matches Ok(c) ==> forall|i: int|
            0 <= i < c@.cases.len() ==> distinct_axes(#[trigger] c@.cases[i]),
{
    let ghost given = entries@;
    let sorted_entries = sorted(entries);
    let ghost order = sorted_entries@;
    proof {
        assert(models(order) =~= order);
        assert(models(given) =~= given);
        assert forall|i: int| 0 <= i < order.len() implies tables_in_order(
            #[trigger] order[i],
        ) by {
            broadcast use vstd::seq_lib::group_to_multiset_ensures;

            assert(order.contains(order[i]));
            assert(order.to_multiset().count(order[i]) > 0);
            assert(given.contains(order[i]));
        }
    }
    let mut vocab = Vocabulary::default();
    let mut cases: Vec<Case> = Vec::new();
    let mut subjects: Vec<(String, SubjectFacts)> = Vec::new();
    let mut i: usize = 0;
    proof {
        assert(cases_of(cases@) =~= Seq::empty());
        assert(entries_of(subjects@) =~= Seq::empty());
        assert(order.take(0) =~= Seq::empty());
    }
    while i < sorted_entries.len()
        invariant
            i <= sorted_entries@.len(),
            order == sorted_entries@,
            ascending::<SubjectDir>(order),
            order.to_multiset() == given.to_multiset(),
            given == entries@,
            forall|d: int| 0 <= d < order.len() ==> tables_in_order(#[trigger] order[d]),
            all_sweepable(cases_of(cases@)),
            load_all(order.take(i as int), *floats) == Ok::<Loading, ManifestErrorV>(
                Loading {
                    cases: cases_of(cases@),
                    vocab: vocab@,
                    subjects: entries_of(subjects@),
                },
            ),
        decreases sorted_entries@.len() - i,
    {
        proof {
            let t = order.take(i + 1);
            assert(t.drop_last() =~= order.take(i as int));
            assert(t.last() == order[i as int]);
            assert(tables_in_order(order[i as int]));
        }
        let ghost before = cases@;
        match manifest_of(&sorted_entries[i]) {
            None => {},
            Some(Err(e)) => {
                proof {
                    load_all_stops(order, i + 1, *floats);
                    assert(loaded(order, *floats) == Err::<Loading, ManifestErrorV>(e@));
                }
                return Err(e);
            },
            Some(Ok(m)) => match lower(m, floats) {
                Err(e) => {
                    proof {
                        load_all_stops(order, i + 1, *floats);
                        assert(loaded(order, *floats) == Err::<Loading, ManifestErrorV>(e@));
                    }
                    return Err(e);
                },
                Ok((mut more, ext)) => {
                    let ghost mv = more@;
                    proof {
                        lowered_has_driver(*m, *floats);
                    }
                    match vocab.extend(m.name.as_str(), ext) {
                        Err(e) => {
                            let err = ManifestError::Vocab {
                                subject: m.name.clone(),
                                message: e.to_string(),
                            };
                            proof {
                                load_all_stops(order, i + 1, *floats);
                                assert(loaded(order, *floats) == Err::<Loading, ManifestErrorV>(
                                    err@,
                                ));
                            }
                            return Err(err);
                        },
                        Ok(_) => {},
                    }
                    set_facts(
                        &mut subjects,
                        m.name.as_str(),
                        subject_facts_of(m, sorted_entries[i].dir.as_str()),
                    );
                    cases.append(&mut more);
                    proof {
                        assert(cases_of(cases@) =~= cases_of(before) + cases_of(mv));
                        assert forall|j: int| 0 <= j < cases_of(cases@).len() implies sweepable(
                            #[trigger] cases_of(cases@)[j],
                        ) by {
                            if j < before.len() {
                                assert(sweepable(cases_of(before)[j]));
                            } else {
                                assert(sweepable(cases_of(mv)[j - before.len()]));
                            }
                        }
                    }
                },
            },
        }
        i = i + 1;
    }
    assert(order.take(sorted_entries@.len() as int) =~= order);
    let ghost cv = cases_of(cases@);
    let ghost fs = Seq::new(cv.len(), |i: int| case_fault(cv[i], vocab@));
    let mut j: usize = 0;
    while j < cases.len()
        invariant
            j <= cases@.len(),
            cv == cases_of(cases@),
            fs == Seq::new(cv.len(), |i: int| case_fault(cv[i], vocab@)),
            forall|k: int| 0 <= k < j ==> (#[trigger] fs[k]) is None,
            ascending::<SubjectDir>(order),
            order.to_multiset() == given.to_multiset(),
            given == entries@,
            forall|d: int| 0 <= d < order.len() ==> tables_in_order(#[trigger] order[d]),
            load_all(order, *floats) == Ok::<Loading, ManifestErrorV>(
                Loading { cases: cv, vocab: vocab@, subjects: entries_of(subjects@) },
            ),
        decreases cases@.len() - j,
    {
        match check_case(&cases[j], &vocab) {
            Ok(_) => {},
            Err(e) => {
                proof {
                    first_fault_at(fs, j as int);
                    assert(loaded(order, *floats) == Err::<Loading, ManifestErrorV>(e@));
                }
                return Err(e);
            },
        }
        j = j + 1;
    }
    proof {
        first_fault_at(fs, j as int);
        assert(loaded(order, *floats) is Ok);
        assert forall|i: int| 0 <= i < cv.len() implies distinct_axes(#[trigger] cv[i]) by {
            loaded_axes_are_distinct(order, *floats, i);
        }
    }
    Ok(Catalog::new(cases, vocab, subjects))
}

} // verus!
