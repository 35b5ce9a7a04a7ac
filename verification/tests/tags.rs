//! Tag values, selectors and the vocabulary.

use spatial_bench::selector::{Clause, Match, Selector, SelectorError, SelectorSet};
use spatial_bench::tag::{F64Ord, FloatReading, Floats, IntoTagValue, TagError, TagMap, TagValue};
use spatial_bench::vocab::{domain, key_str, lookup, namespace_of, validate, ExtKey, Vocabulary};

/// What the machine's own parser makes of each text.
fn floats(texts: &[&str]) -> Floats {
    let entries = texts
        .iter()
        .map(|t| {
            let reading = match t.parse::<f64>() {
                Err(_) => FloatReading::NotAFloat,
                Ok(v) if !v.is_finite() => FloatReading::NonFinite,
                Ok(v) => FloatReading::Finite(F64Ord {
                    bits: v.to_bits(),
                    text: format!("{v}"),
                }),
            };
            (t.to_string(), reading)
        })
        .collect();
    Floats { entries }
}

fn tag(raw: &str) -> Result<TagValue, TagError> {
    TagValue::parse(raw, &floats(&[raw]))
}

fn selector(expr: &str) -> Result<Selector, SelectorError> {
    Selector::parse(expr, &floats(&["nonsense", "value", "uniform", "0.5"]))
}

fn selectors(exprs: &[&str]) -> Result<SelectorSet, SelectorError> {
    let exprs: Vec<String> = exprs.iter().map(|e| e.to_string()).collect();
    SelectorSet::parse_all(&exprs, &Floats::none())
}

fn word(w: &str) -> TagValue {
    TagValue::Word(w.to_string())
}

// ---------------------------------------------------------------- tag values

#[test]
fn parses_each_value_shape() {
    assert_eq!(
        tag("eytzinger").unwrap(),
        TagValue::Word("eytzinger".into())
    );
    assert_eq!(tag("f64").unwrap(), TagValue::Word("f64".into()));
    assert_eq!(tag("20").unwrap(), TagValue::Int(20));
    assert_eq!(tag("-3").unwrap(), TagValue::Int(-3));
    assert_eq!(tag("true").unwrap(), TagValue::Bool(true));
    assert_eq!(
        tag("0.05").unwrap(),
        TagValue::Float(F64Ord {
            bits: 0.05f64.to_bits(),
            text: "0.05".into()
        })
    );
}

#[test]
fn expands_power_of_two_shorthand() {
    assert_eq!(tag("2^20").unwrap(), TagValue::Int(1_048_576));
    assert_eq!(tag("2^0").unwrap(), TagValue::Int(1));
    // No shorthand survives into a tag map; downstream only ever sees ints.
    assert!(tag("2^64").is_err());
    assert!(tag("2^x").is_err());
}

/// `nan` and `inf` parse as f64 but would break the total order the tag map
/// depends on for canonical serialisation.
#[test]
fn rejects_non_finite_floats() {
    assert!(matches!(tag("nan"), Err(TagError::NaN)));
    assert!(matches!(tag("inf"), Err(TagError::NaN)));
    assert!(matches!(tag("-inf"), Err(TagError::NaN)));
}

#[test]
fn pow2_rendering_round_trips() {
    for raw in ["2^16", "2^20", "2^25"] {
        let v = tag(raw).unwrap();
        assert_eq!(v.to_expr(true), raw);
        assert_eq!(tag(&v.to_expr(true)).unwrap(), v);
    }
    // Not a power of two, so it stays literal even when pow2 is asked for.
    assert_eq!(tag("1000").unwrap().to_expr(true), "1000");
    assert_eq!(tag("2^20").unwrap().to_expr(false), "1048576");
}

#[test]
fn empty_values_and_wide_exponents_are_bad_values() {
    assert!(matches!(tag(""), Err(TagError::BadValue { .. })));
    assert!(matches!(tag("2^63"), Err(TagError::BadValue { .. })));
    assert_eq!(tag("2^62").unwrap(), TagValue::Int(1 << 62));
    assert_eq!(tag(" 7 ").unwrap(), TagValue::Int(7));
    assert_eq!(tag("9223372036854775808").unwrap().to_string(), "9223372036854776000");
}

#[test]
fn values_keep_a_total_order() {
    let low = tag("-1.5").unwrap();
    let high = tag("0.25").unwrap();
    assert!(low.before(&high) && !high.before(&low));
    assert!(TagValue::Int(-3).before(&TagValue::Int(4)));
    assert!(word("f32").before(&word("f64")));
    assert!(!word("f64").before(&word("f64")));
    assert!(word("f64").same_as(&word("f64")));
}

#[test]
fn tag_maps_stay_sorted_and_replace() {
    let mut tags = TagMap::new();
    tags.insert("k", 1i32.into_tag_value());
    tags.insert("axis", "f64".into_tag_value());
    tags.insert("k", 5usize.into_tag_value());
    let keys: Vec<&str> = tags.entries().iter().map(|(k, _)| k.as_str()).collect();
    assert_eq!(keys, vec!["axis", "k"]);
    assert_eq!(tags.get("k"), Some(&TagValue::Int(5)));
    assert_eq!(tags.get("dims"), None);
    assert_eq!(true.into_tag_value(), TagValue::Bool(true));
}

#[test]
fn tag_errors_say_what_is_wrong() {
    assert_eq!(
        TagError::UnknownKey("kk".into()).to_string(),
        "unknown tag key `kk`"
    );
    let text = TagError::NotAllowed {
        key: "impl".into(),
        value: "newsptree".into(),
        allowed: vec!["kiddo".into()],
    }
    .to_string();
    assert!(text.contains("newsptree") && text.contains("UNIVERSAL"), "{text}");
}

// ---------------------------------------------------------------- selectors

fn point() -> TagMap {
    let mut tags = TagMap::new();
    tags.insert(key_str("impl_"), "kiddo_v6".into_tag_value());
    tags.insert(key_str("query"), "exact_nn".into_tag_value());
    tags.insert(key_str("k"), 1i32.into_tag_value());
    tags.insert(key_str("dims"), 3i32.into_tag_value());
    tags.insert(key_str("axis"), "f64".into_tag_value());
    tags.insert(key_str("tree_size"), 1_048_576usize.into_tag_value());
    tags.insert(key_str("query_count"), 1000usize.into_tag_value());
    tags
}

#[test]
fn parses_the_documented_grammar() {
    let s = selector("impl=kiddo_v6,k=1|5|20,tree_size=2^20..2^26,axis=*,!query=build").unwrap();
    assert_eq!(s.clauses.len(), 5);
    assert_eq!(s.clause_for("axis").unwrap().matcher, Match::Any);
    assert!(s.clause_for("query").unwrap().negated);
    assert_eq!(
        s.clause_for("k").unwrap().matcher,
        Match::OneOf(vec![TagValue::Int(1), TagValue::Int(5), TagValue::Int(20)])
    );
}

#[test]
fn and_within_a_selector() {
    assert!(selector("impl=kiddo_v6,axis=f64")
        .unwrap()
        .admits_point(&point()));
    assert!(!selector("impl=kiddo_v6,axis=f32")
        .unwrap()
        .admits_point(&point()));
}

#[test]
fn or_within_a_key() {
    assert!(selector("k=1|5|20").unwrap().admits_point(&point()));
    assert!(!selector("k=5|20").unwrap().admits_point(&point()));
}

#[test]
fn inclusive_ranges() {
    for expr in ["tree_size=2^20..2^26", "tree_size=2^16..2^20"] {
        assert!(selector(expr).unwrap().admits_point(&point()), "{expr}");
    }
    assert!(!selector("tree_size=2^21..2^26")
        .unwrap()
        .admits_point(&point()));
    assert_eq!(
        selector("tree_size=2^26..2^20"),
        Err(SelectorError::InvertedRange {
            key: "tree_size".into()
        })
    );
}

/// A missing key never satisfies a clause, negated or not. So a selector
/// asking about `kiddo.stem` excludes a subject that has no stem, rather
/// than admitting it vacuously.
#[test]
fn negation_still_requires_the_key() {
    assert!(selector("!k=50").unwrap().admits_point(&point()));
    assert!(!selector("!k=1").unwrap().admits_point(&point()));
    assert!(!selector("!kiddo.stem=eytzinger")
        .unwrap()
        .admits_point(&point()));
    assert!(!selector("kiddo.stem=*").unwrap().admits_point(&point()));
}

/// Param clauses are deferred: a case has not resolved its sweep yet, so a
/// constraint on a param must not filter the case out.
#[test]
fn param_clauses_are_deferred_at_case_level() {
    let mut case_tags = TagMap::new();
    case_tags.insert("impl", "kiddo_v6".into_tag_value());
    case_tags.insert("query", "exact_nn".into_tag_value());
    case_tags.insert("k", 1i32.into_tag_value());
    case_tags.insert("axis", "f64".into_tag_value());
    let sel = selector("impl=kiddo_v6,tree_size=2^26").unwrap();
    let params = vec!["tree_size".to_string(), "query_count".to_string()];
    assert!(sel.admits_case(&case_tags, &params));
    // …but it does apply once the point is resolved.
    assert!(!sel.admits_point(&point()));
}

#[test]
fn repeated_selectors_union() {
    let set = selectors(&["axis=f32", "k=1"]).unwrap();
    assert!(set.admits_point(&point()));
    let set = selectors(&["axis=f32", "k=99"]).unwrap();
    assert!(!set.admits_point(&point()));
}

#[test]
fn empty_set_matches_everything() {
    assert!(SelectorSet::default().admits_point(&point()));
}

/// The printed repro line has to parse back to the same selection, or CI
/// would not reproduce what the interactive picker ran.
#[test]
fn canonical_form_round_trips() {
    for expr in [
        "impl=kiddo_v6,k=1|5|20,tree_size=2^20..2^26",
        "axis=*,!query=build",
        "tree_size=2^20|2^23|2^26,query_count=1000",
        "kiddo.stem=eytzinger|donnelly_cyclic_simd_full",
    ] {
        let parsed = selector(expr).unwrap();
        let rendered = parsed.to_expr();
        assert_eq!(rendered, expr, "canonical form changed");
        assert_eq!(selector(&rendered).unwrap(), parsed);
    }
}

/// What is read can be written and read again, whole numbers with a fraction too.
#[test]
fn whole_floats_keep_their_fraction() {
    let known = floats(&["1.0", "-0.0", "2.50", "2.5", "1e3", "1000.0", ".5", "0.5"]);
    for (expr, written) in [
        ("radius=1.0", "radius=1.0"),
        ("radius=-0.0", "radius=-0.0"),
        ("radius=2.50|1e3", "radius=2.5|1000.0"),
        ("radius=.5..1.0", "radius=0.5..1.0"),
        ("!radius=1.0", "!radius=1.0"),
    ] {
        let parsed = Selector::parse(expr, &known).unwrap();
        assert_eq!(parsed.to_expr(), written);
        assert_eq!(Selector::parse(written, &known).unwrap(), parsed);
    }
    assert_eq!(tag("1.0").unwrap().to_expr(true), "1.0");
    assert_eq!(tag("1").unwrap().to_expr(false), "1");
    assert_eq!(tag("1.0").unwrap().to_string(), "1");
}

/// A form that would be written as something else is refused.
#[test]
fn forms_that_cannot_be_written_are_refused() {
    assert_eq!(
        selector("k=*|"),
        Err(SelectorError::BadValue {
            key: "k".into(),
            raw: "*|".into()
        })
    );
    assert_eq!(
        selector("k=a. ..b"),
        Err(SelectorError::BadValue {
            key: "k".into(),
            raw: "a. ".into()
        })
    );
    for expr in ["k=*|a", "k=-...b", "k=a|b.", "k=a..b."] {
        let parsed = selector(expr).unwrap();
        assert_eq!(selector(&parsed.to_expr()).unwrap(), parsed, "{expr}");
    }
}

#[test]
fn rejects_malformed_input() {
    assert!(selector("nonsense").is_err());
    assert!(selector("=value").is_err());
    assert!(selector("").is_err());
    assert!(selector("k=2^99").is_err());
}

#[test]
fn each_selector_error_names_its_cause() {
    assert!(matches!(selector("nonsense"), Err(SelectorError::Syntax { at: 0, .. })));
    assert_eq!(
        selector("k=2^99"),
        Err(SelectorError::BadValue {
            key: "k".into(),
            raw: "2^99".into()
        })
    );
    assert_eq!(
        SelectorError::InvertedRange { key: "k".into() }.to_string(),
        "InvertedRange { key: \"k\" }"
    );
    assert_eq!(
        SelectorError::UnknownKey("a\"b".into()).to_string(),
        "UnknownKey(\"a\\\"b\")"
    );
}

#[test]
fn one_selector_of_a_set_is_enough() {
    let set = selectors(&["k=2", "axis=f64"]).unwrap();
    assert_eq!(set.to_exprs(), vec!["k=2".to_string(), "axis=f64".to_string()]);
    assert!(set.admits_point(&point()));
    let clause = Clause {
        key: "k".into(),
        matcher: Match::Range {
            lo: TagValue::Int(0),
            hi: TagValue::Int(1),
        },
        negated: false,
    };
    assert!(clause.admits(&point()));
    assert_eq!(clause.to_expr(), "k=0..1");
}

// ---------------------------------------------------------------- vocabulary

#[test]
fn core_keys_are_closed() {
    assert!(lookup("tree_size").unwrap().pow2);
    assert!(lookup("stem").is_none());
    assert!(domain("spatial_index").is_some());
    assert!(domain("graph").is_none());
    assert!(validate("axis", &word("f64")).is_ok());
    assert!(matches!(
        validate("axis", &word("f16")),
        Err(TagError::NotAllowed { .. })
    ));
    assert!(matches!(
        validate("stem", &word("x")),
        Err(TagError::UnknownKey(_))
    ));
}

#[test]
fn extensions_stay_in_their_namespace() {
    assert_eq!(namespace_of("kiddo_v6"), "kiddo");
    assert_eq!(namespace_of("nanoflann"), "nanoflann");
    let mut vocab = Vocabulary::default();
    let stem = ExtKey {
        subject: "kiddo_v6".into(),
        key: "kiddo.stem".into(),
        allowed: Some(vec!["eytzinger".into()]),
        compile_time: true,
    };
    vocab.extend("kiddo_v6", vec![stem]).unwrap();
    assert!(vocab.knows("kiddo.stem") && vocab.knows("axis") && !vocab.knows("stem"));
    assert!(vocab.validate("kiddo.stem", &word("eytzinger")).is_ok());
    assert!(matches!(
        vocab.validate("kiddo.stem", &word("van_emde_boas")),
        Err(TagError::NotAllowed { .. })
    ));
    let stray = ExtKey {
        subject: "kiddo_v6".into(),
        key: "nanoflann.stem".into(),
        allowed: None,
        compile_time: false,
    };
    assert!(matches!(
        vocab.extend("kiddo_v6", vec![stray]),
        Err(TagError::BadExtension { .. })
    ));
}
