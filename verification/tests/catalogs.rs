//! Subject manifests, the catalog they make, and what a run plans from it.

use spatial_bench::adapter::{
    environment, outcome, prepare, Adapter, CodegenInputs, Preparation, RunError, SubjectRequest,
};
use spatial_bench::case::{Case, Param, ParamDomain, Runner};
use spatial_bench::cli::{
    conform_report, conform_verdict, list_table, plan_lines, render, run_summary, subject_lines,
    toolchain_line, unsatisfied_warning,
};
use spatial_bench::catalog::Catalog;
use spatial_bench::catalog_load::{load_dir, parse, SubjectDir};
use spatial_bench::load_subjects;
use spatial_bench::conform::{conform, subjects as conform_subjects, ConformConfig, ConformReport};
use spatial_bench::exec::{CxxStep, ExecBuild};
use spatial_bench::execute::{Event, Execution, Wanted};
use spatial_bench::harness::Budget;
use spatial_bench::machine::Machine;
use spatial_bench::menu::{runner_choices, runs_now, value_choices, Menu, Turn};
use spatial_bench::manifest::{
    Build, CaseDecl, Driver, Manifest, ManifestError, ParamDecl, Source, TomlValue, Toolchain,
    VocabKey, MANIFEST_SCHEMA,
};
use spatial_bench::package::{DriverSource, Generated, Outcome, SubjectSource};
use spatial_bench::picker::Picker;
use spatial_bench::resolve::{driver_source, subject_source, Inputs, Places, SubjectPath};
use spatial_bench::run::{
    begin, by_subject, data_dir, isa_resolved_rustflags, memory_warnings, provenance,
    resolve_toolchain, run_specs, subject_plan, subject_request, Locked, RunConfig, RunPlan,
    SubjectPlan,
};
use spatial_bench::selector::{Selector, SelectorSet};
use spatial_bench::steps::{Reply, Request};
use spatial_bench::tag::{F64Ord, Floats, IntoTagValue, TagMap, TagValue};
use spatial_bench::toolchain::Version;
use spatial_bench::vocab::{domain, lookup};

// ---------------------------------------------------------------- reading manifests

fn text(v: Option<&toml::Value>) -> Option<String> {
    v.and_then(|v| v.as_str()).map(|s| s.to_string())
}

fn words(v: Option<&toml::Value>) -> Vec<String> {
    match v.and_then(|v| v.as_array()) {
        Some(list) => list.iter().map(|s| s.as_str().unwrap().to_string()).collect(),
        None => vec![],
    }
}

fn value(v: &toml::Value) -> TomlValue {
    match v {
        toml::Value::String(s) => TomlValue::Text(s.clone()),
        toml::Value::Integer(i) => TomlValue::Integer(*i),
        toml::Value::Float(f) => TomlValue::Float(F64Ord {
            bits: f.to_bits(),
            text: format!("{f}"),
        }),
        toml::Value::Boolean(b) => TomlValue::Boolean(*b),
        other => TomlValue::Other(other.to_string()),
    }
}

fn table(v: Option<&toml::Value>) -> Vec<(String, toml::Value)> {
    match v.and_then(|v| v.as_table()) {
        Some(t) => t.iter().map(|(k, v)| (k.clone(), v.clone())).collect(),
        None => vec![],
    }
}

fn driver(v: &toml::Value) -> Driver {
    Driver {
        name: text(v.get("name")).unwrap(),
        min_supported_semver: text(v.get("min_supported_semver")),
        max_supported_semver: text(v.get("max_supported_semver")),
        adapter: text(v.get("adapter")).unwrap(),
        crate_name: text(v.get("crate")),
        lang: text(v.get("lang")),
        entry: text(v.get("entry")),
        path: text(v.get("path")),
        version: text(v.get("version")),
        features: words(v.get("features")),
        rustflags: text(v.get("rustflags")),
        macro_name: text(v.get("macro")),
        compile_time: words(v.get("compile_time")),
    }
}

fn case_decl(v: &toml::Value) -> CaseDecl {
    CaseDecl {
        runners: words(v.get("runners")),
        matrix: table(v.get("matrix"))
            .iter()
            .map(|(k, v)| (k.clone(), v.as_array().unwrap().iter().map(value).collect()))
            .collect(),
        tags: table(v.get("tags"))
            .iter()
            .map(|(k, v)| (k.clone(), value(v)))
            .collect(),
        params: table(v.get("params"))
            .iter()
            .map(|(k, v)| {
                let decl = ParamDecl {
                    range: text(v.get("range")),
                    kind: text(v.get("kind")),
                    default: v.get("default").map(value),
                    values: v
                        .get("values")
                        .and_then(|v| v.as_array())
                        .map(|l| l.iter().map(value).collect())
                        .unwrap_or_default(),
                };
                (k.clone(), decl)
            })
            .collect(),
        driver: text(v.get("driver")),
    }
}

/// The manifest that a file's text declares.
fn manifest(toml_text: &str) -> Result<Manifest, ManifestError> {
    let v: toml::Value = match toml::from_str(toml_text) {
        Ok(v) => v,
        Err(e) => {
            return Err(ManifestError::Toml {
                path: "subject.toml".into(),
                err: e.to_string(),
            })
        }
    };
    let source = v.get("source").unwrap();
    let read = Manifest {
        schema: v.get("schema").and_then(|v| v.as_integer()).unwrap() as u32,
        name: text(v.get("name")).unwrap(),
        domain: text(v.get("domain")).unwrap(),
        source: Source {
            kind: text(source.get("kind")).unwrap(),
            repo: text(source.get("repo")),
            package: text(source.get("package")),
            pinned_ref: text(source.get("pinned_ref")).unwrap(),
            sha: text(source.get("sha")),
        },
        toolchain: v.get("toolchain").map(|t| Toolchain {
            min_rustc: text(t.get("min_rustc")),
        }),
        build: v.get("build").map(|b| Build {
            kind: text(b.get("kind")).unwrap(),
            shim: text(b.get("shim")),
            std: text(b.get("std")),
            flags: words(b.get("flags")),
            compile_time_dims: b
                .get("compile_time_dims")
                .and_then(|v| v.as_array())
                .map(|l| l.iter().map(|n| n.as_integer().unwrap() as u32).collect())
                .unwrap_or_default(),
            include_dirs: words(b.get("include")),
            cmake: None,
        }),
        drivers: v
            .get("driver")
            .and_then(|v| v.as_array())
            .map(|l| l.iter().map(driver).collect())
            .unwrap_or_default(),
        vocab: table(v.get("vocab"))
            .iter()
            .map(|(k, v)| {
                let key = VocabKey {
                    values: v.get("values").map(|_| words(v.get("values"))),
                    kind: text(v.get("kind")),
                    compile_time: v.get("compile_time").and_then(|b| b.as_bool()).unwrap_or(false),
                };
                (k.clone(), key)
            })
            .collect(),
        defaults: table(v.get("defaults"))
            .iter()
            .map(|(k, v)| (k.clone(), value(v)))
            .collect(),
        cases: v
            .get("case")
            .and_then(|v| v.as_array())
            .map(|l| l.iter().map(case_decl).collect())
            .unwrap_or_default(),
    };
    parse("subject.toml", Ok(read))
}

fn load(subjects: &[(&str, String)]) -> Result<Catalog, ManifestError> {
    let entries = subjects
        .iter()
        .map(|(dir, toml_text)| SubjectDir {
            dir: format!("subjects/{dir}"),
            manifest: Some(manifest(toml_text)),
        })
        .collect();
    load_subjects(entries, &Floats::none())
}

// ---------------------------------------------------------------- the subjects

const PARAMS: &str = "[case.params.tree_size]\nrange = \"2^16..2^29\"\ndefault = 1048576\n\
    [case.params.query_count]\nkind = \"int\"\ndefault = 1000\n";

const FEW_QUERIES: &str = "[case.params.tree_size]\nrange = \"2^16..2^29\"\ndefault = 1048576\n\
    [case.params.query_count]\nkind = \"int\"\ndefault = 100\n";

const STEMS: &str = "[\"eytzinger\", \"eytzinger_pf\", \"veb\", \"sorted\", \"donnelly\", \
    \"donnelly_marker\", \"donnelly_simd\", \"donnelly_cyclic_simd\", \"donnelly_cyclic_simd_full\"]";

fn kiddo_case(driver: &str, name: &str, tags: &str, matrix: &str, params: &str) -> String {
    format!(
        "[[case]]\ndriver = \"{driver}\"\nrunners = [\"criterion\", \"perf\"]\n\
         [case.tags]\nimpl = \"{name}\"\ndims = 3\nidx = \"u32\"\nmetric = \"squared_euclidean\"\n\
         dataset = \"uniform\"\nparallelism = \"single_threaded\"\nquery_batching = \"single_query\"\n\
         {tags}\n[case.matrix]\n{matrix}\n{params}"
    )
}

/// kiddo declares 109 cases for its current driver and 14 for the one before.
fn kiddo() -> String {
    let head = format!(
        "schema = 1\nname = \"kiddo\"\ndomain = \"spatial_index\"\n\
         [source]\nkind = \"cargo-git\"\nrepo = \"https://github.com/sdd/kiddo\"\npinned_ref = \"v6.1.0\"\n\
         [toolchain]\nmin_rustc = \"1.89.0\"\n\
         [[driver]]\nname = \"v6\"\nadapter = \"rust-codegen\"\ncrate = \"spatial-bench-kiddo-v6\"\n\
         macro = \"bench_case\"\nmin_supported_semver = \"6.0.0\"\ncompile_time = [\"axis\", \"dims\"]\n\
         version = \"0.1.0\"\nfeatures = [\"test_utils\"]\n\
         [[driver]]\nname = \"v5\"\nadapter = \"rust-codegen\"\ncrate = \"spatial-bench-kiddo-v5\"\n\
         macro = \"bench_case\"\nmax_supported_semver = \"6.0.0\"\ncompile_time = [\"axis\", \"dims\"]\n\
         [vocab.stem]\nvalues = {STEMS}\ncompile_time = true\n\
         [vocab.leaf]\nvalues = [\"flatvec\", \"vec_of_arenas\"]\ncompile_time = true\n\
         [vocab.bucket]\nkind = \"int\"\ncompile_time = true\n\
         [vocab.storage]\nvalues = [\"heap\", \"mmap\"]\n\
         [vocab.hugepages]\nvalues = [\"on\", \"off\"]\n\
         [defaults]\n\"kiddo.stem\" = \"eytzinger\"\n\"kiddo.leaf\" = \"vec_of_arenas\"\n"
    );
    let axes = "axis = [\"f32\", \"f64\"]";
    let ks = "k = [1, 5, 20, 50]";
    let tuned = "isa = \"avx512\"\n\"kiddo.stem\" = \"eytzinger\"\n\"kiddo.leaf\" = \"flatvec\"\n\"kiddo.bucket\" = 32";
    let plain = "isa = \"scalar\"\n\"kiddo.stem\" = \"eytzinger\"\n\"kiddo.leaf\" = \"vec_of_arenas\"\n\"kiddo.bucket\" = 32";
    let other = "isa = \"avx2\"\n\"kiddo.leaf\" = \"flatvec\"\n\"kiddo.bucket\" = 32";
    let other_stems = STEMS.replace("\"eytzinger\", ", "");
    let both = "\"kiddo.storage\" = [\"heap\", \"mmap\"]";
    let mut cases = vec![
        // 16 tuned and 8 plain exact searches over the first stem.
        kiddo_case("v6", "kiddo", &format!("query = \"exact_nn\"\n{tuned}"), &format!("{axes}\n{ks}\n{both}"), PARAMS),
        kiddo_case("v6", "kiddo", &format!("query = \"exact_nn\"\n{plain}\n\"kiddo.storage\" = \"heap\""), &format!("{axes}\n{ks}"), PARAMS),
        // 8 radius, 8 best-n and 4 nearest-n-within searches over the first stem.
        kiddo_case("v6", "kiddo", tuned, &format!("{axes}\nquery = [\"within_radius\", \"within_unsorted\"]\n{both}"), FEW_QUERIES),
        kiddo_case("v6", "kiddo", &format!("query = \"best_n_within\"\n{tuned}\n\"kiddo.storage\" = \"heap\""), &format!("{axes}\n{ks}"), FEW_QUERIES),
        kiddo_case("v6", "kiddo", &format!("query = \"nearest_n_within\"\n{plain}"), &format!("{axes}\n{both}"), FEW_QUERIES),
        // 64 exact searches over the other eight stems, and one approximate search.
        kiddo_case("v6", "kiddo", &format!("query = \"exact_nn\"\n{other}\n\"kiddo.storage\" = \"heap\""), &format!("{axes}\n{ks}\n\"kiddo.stem\" = {other_stems}"), PARAMS),
        kiddo_case("v6", "kiddo", &format!("query = \"approx_nn\"\n{other}\n\"kiddo.storage\" = \"heap\"\naxis = \"f64\"\n\"kiddo.stem\" = \"donnelly\""), "", FEW_QUERIES),
    ];
    // The older driver: 14 cases over seven values of k.
    cases.push(kiddo_case("v5", "kiddo", &format!("query = \"exact_nn\"\n{plain}\n\"kiddo.storage\" = \"heap\""), &format!("{axes}\nk = [1, 2, 5, 10, 20, 50, 100]"), PARAMS));
    head + &cases.concat()
}

fn nanoflann(tags: &str, vocab: &str) -> String {
    format!(
        "schema = 1\nname = \"nanoflann\"\ndomain = \"spatial_index\"\n\
         [source]\nkind = \"git\"\nrepo = \"https://github.com/jlblancoc/nanoflann\"\npinned_ref = \"v1.7.0\"\n\
         [build]\nkind = \"cxx\"\nshim = \"shim.cpp\"\nstd = \"c++17\"\nflags = [\"-O3\"]\n\
         compile_time_dims = [3, 4]\ninclude = [\"include\"]\n\
         [[driver]]\nname = \"default\"\nadapter = \"exec\"\nlang = \"cxx\"\nentry = \"shim.cpp\"\n\
         {vocab}\
         [[case]]\nrunners = [\"criterion\", \"perf\"]\n\
         [case.tags]\nimpl = \"nanoflann\"\nquery = \"exact_nn\"\ndims = 3\nidx = \"u32\"\n\
         metric = \"squared_euclidean\"\ndataset = \"uniform\"\nisa = \"scalar\"\n\
         parallelism = \"single_threaded\"\nquery_batching = \"single_query\"\n{tags}\
         [case.matrix]\naxis = [\"f32\", \"f64\"]\nk = [1, 5, 20, 50]\n{PARAMS}"
    )
}

fn pykdtree(isas: &str) -> String {
    format!(
        "schema = 1\nname = \"pykdtree\"\ndomain = \"spatial_index\"\n\
         [source]\nkind = \"pypi\"\npackage = \"pykdtree\"\npinned_ref = \"1.4.1\"\n\
         [build]\nkind = \"python\"\n\
         [[driver]]\nname = \"default\"\nadapter = \"exec\"\nlang = \"python\"\nentry = \"driver.py\"\n\
         [[case]]\nrunners = [\"criterion\", \"perf\"]\n\
         [case.tags]\nimpl = \"pykdtree\"\nquery = \"exact_nn\"\ndims = 3\nidx = \"u32\"\n\
         metric = \"squared_euclidean\"\ndataset = \"uniform\"\n\
         parallelism = \"single_threaded\"\nquery_batching = \"batch_query\"\n\
         [case.matrix]\nk = [1, 5, 20, 50]\n{isas}\n{PARAMS}"
    )
}

fn subjects() -> Vec<(&'static str, String)> {
    vec![
        ("nanoflann", nanoflann("\"nanoflann.leaf_max_size\" = 10\n", "[vocab.leaf_max_size]\nkind = \"int\"\n")),
        ("kiddo", kiddo()),
        // Four of its cases again, at another instruction set.
        ("pykdtree", pykdtree("isa = [\"scalar\"]\naxis = [\"f32\", \"f64\"]")
            + &format!(
                "[[case]]\nrunners = [\"criterion\", \"perf\"]\n\
                 [case.tags]\nimpl = \"pykdtree\"\nquery = \"exact_nn\"\ndims = 3\nidx = \"u32\"\n\
                 axis = \"f64\"\nisa = \"avx2\"\n[case.matrix]\nk = [1, 5, 20, 50]\n{PARAMS}"
            )),
    ]
}

fn catalog() -> Catalog {
    load(&subjects()).unwrap_or_else(|e| panic!("the manifests should load: {e:?}"))
}

fn subject_manifest(name: &str) -> Manifest {
    let all = subjects();
    let (_, toml_text) = all.iter().find(|(n, _)| *n == name).unwrap();
    manifest(toml_text).unwrap_or_else(|e| panic!("{name}: {e:?}"))
}

fn select(exprs: &[&str]) -> SelectorSet {
    let exprs: Vec<String> = exprs.iter().map(|e| e.to_string()).collect();
    SelectorSet::parse_all(&exprs, &Floats::none()).unwrap()
}

// ---------------------------------------------------------------- loading

/// Both vendored manifests parse under the current schema.
#[test]
fn vendored_manifests_parse() {
    for name in ["kiddo", "nanoflann"] {
        let manifest = subject_manifest(name);
        assert_eq!(manifest.schema, MANIFEST_SCHEMA);
        assert!(!manifest.cases.is_empty(), "{name} declares no cases");
    }
}

/// Every subject names a domain the engine knows, so its cases are written
/// against a core vocabulary that actually exists.
#[test]
fn every_subject_declares_a_known_domain() {
    for name in ["kiddo", "nanoflann"] {
        let manifest = subject_manifest(name);
        assert!(
            domain(&manifest.domain).is_some(),
            "{name}: unknown domain `{}`",
            manifest.domain
        );
    }
}

/// Every subject is pinned. Without this a dataset spanning months is not
/// comparable and nothing records why.
#[test]
fn every_subject_is_pinned() {
    for name in ["kiddo", "nanoflann"] {
        let manifest = subject_manifest(name);
        assert!(!manifest.source.pinned_ref.is_empty(), "{name} is unpinned");
    }
}

/// One minimal valid manifest per name, with a source kind and any extra TOML.
fn fixture(name: &str, source_kind: &str, extra: &str) -> String {
    format!(
        "schema = 1\n\
         name = \"{name}\"\n\
         domain = \"spatial_index\"\n\
         [source]\n\
         kind = \"{source_kind}\"\n\
         repo = \"https://example.com/{name}\"\n\
         pinned_ref = \"v1\"\n\
         [[driver]]\n\
         name = \"default\"\n\
         adapter = \"rust-codegen\"\n\
         crate = \"{name}-driver\"\n\
         macro = \"bench_case\"\n\
         {extra}\
         [[case]]\n\
         runners = [\"criterion\"]\n\
         tags.impl = \"{name}\"\n"
    )
}

/// A `[source] kind` the engine does not build is a load error naming the subject —
/// the same closed-vocabulary rule as the adapter, so a typo is not discovered as
/// "not implemented" minutes into a run.
#[test]
fn an_unknown_source_kind_is_rejected_at_load() {
    match load(&[("odd", fixture("odd", "cvs", ""))]) {
        Err(ManifestError::UnknownSourceKind { subject, found }) => {
            assert_eq!(subject, "odd");
            assert_eq!(found, "cvs");
        }
        Ok(_) => panic!("expected a source-kind rejection, got a loaded catalog"),
        Err(other) => panic!("expected a source-kind rejection, got {other:?}"),
    }
}

/// A value the selector language cannot express is a load error — `a|b` would split
/// into an OR and silently select the wrong things. Declared vocabulary is checked
/// too, since it is what the picker offers.
#[test]
fn selector_unexpressible_values_are_rejected_at_load() {
    let odd = fixture(
        "odd",
        "cargo-git",
        "[vocab]\nstorage.values = [\"heap\", \"a|b\"]\n",
    );
    match load(&[("odd", odd)]) {
        Err(ManifestError::BadSelectorValue { key, value, .. }) => {
            assert_eq!(key, "odd.storage");
            assert_eq!(value, "a|b");
        }
        Ok(_) => panic!("expected a selector-value rejection, got a loaded catalog"),
        Err(other) => panic!("expected a selector-value rejection, got {other:?}"),
    }
}

/// A vocabulary violation names the remedy — a new `impl` value is an engine change
/// in `UNIVERSAL`, not a manifest bug.
#[test]
fn a_vocabulary_violation_names_the_remedy() {
    match load(&[("newsptree", fixture("newsptree", "cargo-git", ""))]) {
        Err(ManifestError::Vocab { subject, message }) => {
            assert_eq!(subject, "newsptree");
            assert!(
                message.contains("UNIVERSAL"),
                "the remedy must be named: {message}"
            );
        }
        Ok(_) => panic!("expected a vocabulary rejection, got a loaded catalog"),
        Err(other) => panic!("expected a vocabulary rejection, got {other:?}"),
    }
}

/// A manifest naming an adapter this engine does not know is a load error
/// naming the subject — not a run-time surprise. The closed-vocabulary
/// rule applies to the manifest itself.
#[test]
fn an_unknown_adapter_is_rejected_at_load() {
    let weird = "schema = 1\n\
         name = \"weird\"\n\
         domain = \"spatial_index\"\n\
         [source]\n\
         kind = \"cargo-git\"\n\
         repo = \"https://example.com/weird\"\n\
         pinned_ref = \"v1\"\n\
         [[driver]]\n\
         name = \"default\"\n\
         adapter = \"rust-coden\"\n\
         crate = \"weird-driver\"\n\
         [[case]]\n\
         runners = [\"criterion\"]\n\
         tags.impl = \"weird\"\n";
    match load(&[("weird", weird.to_string())]) {
        Err(ManifestError::UnknownAdapter { subject, found }) => {
            assert_eq!(subject, "weird");
            assert_eq!(found, "rust-coden");
        }
        Ok(_) => panic!("expected an adapter rejection, got a loaded catalog"),
        Err(other) => panic!("expected an adapter rejection, got {other:?}"),
    }
}

/// A two-phase driver without a macro cannot generate anything; caught
/// where the manifest is read, not minutes into a run.
#[test]
fn a_codegen_driver_without_a_macro_is_rejected_at_load() {
    let silent = "schema = 1\n\
         name = \"silent\"\n\
         domain = \"spatial_index\"\n\
         [source]\n\
         kind = \"cargo-git\"\n\
         repo = \"https://example.com/silent\"\n\
         pinned_ref = \"v1\"\n\
         [[driver]]\n\
         name = \"default\"\n\
         adapter = \"rust-codegen\"\n\
         crate = \"silent-driver\"\n\
         [[case]]\n\
         runners = [\"criterion\"]\n\
         tags.impl = \"silent\"\n";
    match load(&[("silent", silent.to_string())]) {
        Err(ManifestError::UnknownKey { subject, key }) => {
            assert_eq!(subject, "silent");
            assert!(key.contains("driver.macro"), "{key}");
        }
        Ok(_) => panic!("expected a macro rejection, got a loaded catalog"),
        Err(other) => panic!("expected a macro rejection, got {other:?}"),
    }
}

fn refusal(toml_text: String) -> ManifestError {
    match load(&[("kiddo", toml_text)]) {
        Err(e) => e,
        Ok(_) => panic!("expected a refusal"),
    }
}

#[test]
fn each_broken_manifest_is_refused_for_its_own_reason() {
    let good = fixture("kiddo", "cargo-git", "");
    assert!(load(&[("kiddo", good.clone())]).is_ok());
    assert!(matches!(
        refusal(good.replace("schema = 1", "schema = 2")),
        ManifestError::UnsupportedSchema { found: 2, .. }
    ));
    assert!(matches!(
        refusal(good.replace("spatial_index", "graph")),
        ManifestError::UnknownDomain { .. }
    ));
    assert!(matches!(
        refusal(good.replace("pinned_ref = \"v1\"", "pinned_ref = \" \"")),
        ManifestError::MissingPin { .. }
    ));
    assert!(matches!(
        refusal(good.replace("pinned_ref = \"v1\"", "pinned_ref = \"v1\"\nsha = \"abc\"")),
        ManifestError::BadSha { .. }
    ));
    assert!(matches!(
        refusal(good.replace("tags.impl = \"kiddo\"", "tags.impl = \"nanoflann\"")),
        ManifestError::ImplMismatch { .. }
    ));
    // The matrix is merged before the name is held against the subject's.
    for found in ["nanoflann", "pykdtree"] {
        let swept = format!("{good}matrix.impl = [\"kiddo\", \"{found}\"]\n");
        assert_eq!(
            refusal(swept).to_string(),
            ManifestError::ImplMismatch {
                subject: "kiddo".into(),
                found: found.into()
            }
            .to_string()
        );
    }
    assert!(load(&[("kiddo", format!("{good}matrix.impl = [\"kiddo\"]\n"))]).is_ok());
    assert!(matches!(
        refusal(good.replace("tags.impl = \"kiddo\"", "tags.k = 1")),
        ManifestError::ImplMismatch { found, .. } if found.is_empty()
    ));
    assert!(matches!(
        refusal(format!("{good}tags.query = \" *\"\n")),
        ManifestError::BadSelectorValue { .. }
    ));
    assert!(matches!(
        refusal(format!("{good}tags.stem = \"x\"\n")),
        ManifestError::Vocab { .. } | ManifestError::UnknownKey { .. }
    ));
    assert!(matches!(refusal("schema = [".into()), ManifestError::Toml { .. }));
    let io = ManifestError::Io {
        path: "subjects".into(),
        err: "denied".into(),
    };
    assert!(io.to_string().contains("denied"));
}

#[test]
fn a_directory_without_a_manifest_is_passed_over() {
    let entries = vec![
        SubjectDir {
            dir: "subjects/notes".into(),
            manifest: None,
        },
        SubjectDir {
            dir: "subjects/kiddo".into(),
            manifest: Some(manifest(&fixture("kiddo", "cargo-git", ""))),
        },
    ];
    let catalog = match load_dir(entries, &Floats::none()) {
        Ok(c) => c,
        Err(e) => panic!("{e:?}"),
    };
    assert_eq!(catalog.cases().len(), 1);
    assert_eq!(catalog.manifest_dir("kiddo").as_deref(), Some("subjects/kiddo"));
}

/// A case's `impl` must match the manifest that declares it, so no subject
/// can contribute cases attributed to another.
#[test]
fn cases_are_attributed_to_their_own_subject() {
    for name in ["kiddo", "nanoflann"] {
        let manifest = subject_manifest(name);
        for case in &manifest.cases {
            let decl = case.tags.iter().find(|(k, _)| k == "impl").and_then(|(_, v)| match v {
                TomlValue::Text(s) => Some(s.as_str()),
                _ => None,
            });
            assert_eq!(
                decl,
                Some(manifest.name.as_str()),
                "{name}: impl tag mismatch"
            );
        }
    }
}

/// kiddo is vendored on exactly the same terms as an unwilling third party.
/// If this ever fails, the trust argument has been quietly abandoned.
#[test]
fn kiddo_has_no_privileged_path() {
    let kiddo = subject_manifest("kiddo");
    let nanoflann = subject_manifest("nanoflann");
    assert_eq!(kiddo.schema, nanoflann.schema);
    assert!(!kiddo.source.pinned_ref.is_empty());
    assert!(
        !kiddo.cases.is_empty() && !nanoflann.cases.is_empty(),
        "both subjects declare cases through the same manifest format"
    );
}

/// The matrix expands into real cases.
#[test]
fn matrix_expands_into_cases() {
    let catalog = catalog();
    // for_subject is the unfiltered per-subject view: 109 v6-driver cases
    // plus 14 v5-driver cases, which the pin's driver selection filters
    // out of matching().
    assert_eq!(catalog.for_subject("kiddo").len(), 123);
    assert_eq!(catalog.for_subject("nanoflann").len(), 8);
    assert_eq!(catalog.selected_driver("kiddo").unwrap().name, "v6");
    assert!(catalog.selected_driver("absent").is_err());
}

/// Extension keys arrive namespaced by subject, not by subject *version*:
/// `kiddo.stem`, so a v7 manifest later does not split a chart that should
/// stay continuous.
#[test]
fn extensions_are_namespaced_without_the_version() {
    let catalog = catalog();
    let vocab = catalog.vocabulary();
    assert!(vocab.knows("kiddo.stem"));
    assert!(vocab.knows("nanoflann.leaf_max_size"));
    assert!(
        !vocab.knows("pykdtree.stem"),
        "one subject's extension must not leak into another's namespace"
    );
    assert!(
        !vocab.knows("stem"),
        "extension must not leak into the core"
    );
}

/// An unconstrained param contributes only its default, so enumerating the
/// catalog does not silently plan a 10x sweep nobody asked for.
#[test]
fn unconstrained_params_use_their_default() {
    let catalog = catalog();
    let all = catalog.points(&SelectorSet::default());
    assert_eq!(
        all.len(),
        109 + 8 + 12,
        "one point per case at default params"
    );
    // Only the exact_nn cases have the default query_count of 1000; the
    // within/nnw/bnw cases use 100 by design.
    let exact_nn_count = all
        .iter()
        .filter(|(_, tags)| {
            tags.get("query").map(|v| v.to_string()) == Some("exact_nn".to_owned())
        })
        .count();
    assert_eq!(exact_nn_count, 108, "108 exact_nn points at default params");
    for (_, tags) in all.iter().filter(|(_, tags)| {
        tags.get("query").map(|v| v.to_string()) == Some("exact_nn".to_owned())
    }) {
        assert_eq!(tags.get("tree_size"), Some(&TagValue::Int(1 << 20)));
        assert_eq!(tags.get("query_count"), Some(&TagValue::Int(1000)));
    }
}

/// …and a constrained one sweeps exactly the constrained values.
#[test]
fn constrained_params_sweep() {
    let catalog = catalog();
    let sel = select(&["impl=kiddo,k=1,kiddo.stem=eytzinger,tree_size=2^20|2^23|2^26"]);
    let points = catalog.points(&sel);
    assert_eq!(points.len(), 8 * 3, "8 monomorphisations x 3 sizes at k=1");
    // 2^26 must be reachable: the declared range is what is worth sweeping,
    // not a capability limit. What actually fits is a memory question the
    // engine answers per machine.
    let sizes: std::collections::BTreeSet<String> = points
        .iter()
        .filter_map(|(_, t)| t.get("tree_size").map(|v| v.to_string()))
        .collect();
    assert_eq!(sizes.len(), 3);
}

/// A range over an enumerable domain expands to the domain members inside
/// it, not to its endpoints.
#[test]
fn ranges_expand_within_the_declared_domain() {
    let catalog = catalog();
    let sel = select(&["impl=kiddo,k=1,axis=f64,kiddo.stem=eytzinger,tree_size=2^16..2^19"]);
    let points = catalog.points(&sel);
    assert_eq!(
        points.len(),
        4 * 4,
        "four cases over 2^16, 2^17, 2^18, 2^19"
    );
}

fn point_subjects(catalog: &Catalog, sel: &SelectorSet) -> std::collections::BTreeSet<String> {
    catalog
        .points(sel)
        .iter()
        .map(|(c, _)| c.subject.clone())
        .collect()
}

/// A cross-subject selection is the point of the shared domain core: both
/// subjects name `k` and `axis` identically, so one selector reaches both.
#[test]
fn one_selector_reaches_both_subjects() {
    let catalog = catalog();
    let sel = select(&["query=exact_nn,k=20,axis=f64"]);
    let subjects = point_subjects(&catalog, &sel);
    assert_eq!(subjects.len(), 3, "core vocabulary should span subjects");
}

/// Extension keys stay private to their subject: asking about kiddo's stem
/// excludes nanoflann rather than matching it vacuously.
#[test]
fn extension_selection_excludes_other_subjects() {
    let catalog = catalog();
    let sel = select(&["kiddo.stem=eytzinger"]);
    let subjects = point_subjects(&catalog, &sel);
    assert_eq!(subjects, ["kiddo".to_string()].into_iter().collect());
}

/// Load order must not depend on readdir order, or two machines would build
/// different-looking catalogs from identical inputs.
#[test]
fn load_is_deterministic() {
    let a = catalog();
    let mut reversed = subjects();
    reversed.reverse();
    let b = match load(&reversed) {
        Ok(c) => c,
        Err(e) => panic!("{e:?}"),
    };
    let ids: Vec<_> = a.cases().iter().map(|c| c.id.clone()).collect();
    let ids2: Vec<_> = b.cases().iter().map(|c| c.id.clone()).collect();
    assert_eq!(ids, ids2);
}

/// What one selector pins does not touch the others.
#[test]
fn repeated_selectors_select_the_union_of_their_points() {
    let catalog = catalog();
    let (a, b) = ("impl=kiddo,axis=f32", "impl=kiddo,axis=f64,tree_size=2^16");
    let both = catalog.points(&select(&[a, b]));
    let sizes = (
        catalog.points(&select(&[a])).len(),
        catalog.points(&select(&[b])).len(),
    );
    assert!(sizes.0 > 0 && sizes.1 > 0);
    assert_eq!(both.len(), sizes.0 + sizes.1);
    for (_, tags) in &both {
        let size = if tags.get("axis") == Some(&word("f32")) { 1 << 20 } else { 1 << 16 };
        assert_eq!(tags.get("tree_size"), Some(&TagValue::Int(size)));
    }
    // A point that two selectors reach is there once.
    let wide = catalog.points(&select(&["impl=kiddo,k=1|5"])).len();
    assert_eq!(catalog.points(&select(&["impl=kiddo,k=1", "impl=kiddo,k=1|5"])).len(), wide);

    let case = catalog.cases()[0].params.iter().find(|p| p.key == "tree_size").unwrap();
    assert_eq!(
        case.selected_values(&select(&["axis=f32", "tree_size=2^16"])),
        vec![TagValue::Int(1 << 16)]
    );
    assert_eq!(case.selected_values(&SelectorSet::default()), vec![TagValue::Int(1 << 20)]);
}

/// Values come in the order of the domain, however the selectors are ordered.
#[test]
fn the_order_of_selectors_does_not_show() {
    let ints = |vs: &[i64]| vs.iter().map(|v| TagValue::Int(*v)).collect::<Vec<_>>();
    let k = Param {
        key: "k".into(),
        domain: ParamDomain::Values(ints(&[1, 5, 20])),
        default: TagValue::Int(5),
    };
    assert_eq!(k.selected_values(&select(&["k=5", "k=1"])), ints(&[1, 5]));
    assert_eq!(k.selected_values(&select(&["k=20", "k=1..5"])), ints(&[1, 5, 20]));
    assert_eq!(k.selected_values(&select(&["k=20", "axis=f32"])), ints(&[20]));
    assert_eq!(k.selected_values(&select(&["k=7"])), ints(&[]));
    assert_eq!(k.selected_values(&select(&["!k=5"])), ints(&[1, 20]));
    assert_eq!(k.selected_values(&select(&["axis=f32"])), ints(&[5]));

    let catalog = catalog();
    let tags = |exprs: &[&str]| -> Vec<TagMap> {
        catalog
            .points(&select(exprs))
            .into_iter()
            .map(|(_, tags)| tags)
            .collect()
    };
    let one = tags(&["impl=nanoflann,axis=f32,k=1|5|20"]);
    assert!(one.len() > 1);
    assert_eq!(tags(&["impl=nanoflann,axis=f32,k=20", "impl=nanoflann,axis=f32,k=1|5"]), one);
    let (a, b) = ("impl=kiddo,axis=f64,tree_size=2^16", "impl=kiddo,axis=f64,k=5");
    assert_eq!(tags(&[a, b]), tags(&[b, a]));
    // The default of the selector that does not ask keeps its place in the domain.
    let one = "impl=nanoflann,axis=f32";
    let (large, small) = (format!("{one},tree_size=2^22"), format!("{one},tree_size=2^16"));
    let sizes: Vec<TagValue> = tags(&[&large, one, &small])
        .iter()
        .map(|t| t.get("tree_size").unwrap().clone())
        .collect();
    assert_eq!(sizes[..3].to_vec(), ints(&[1 << 16, 1 << 20, 1 << 22]));
}

/// A manifest lists its tables by their keys.
#[test]
fn tables_come_in_the_order_of_their_keys() {
    let extra = "[defaults]\naxis = \"f32\"\nquery = \"nearest_one\"\n";
    let mut m = manifest(&fixture("kiddo", "cargo-git", extra)).unwrap();
    assert!(m.is_in_order());
    m.defaults.swap(0, 1);
    assert!(!m.is_in_order());
    m.defaults.truncate(1);
    assert!(m.is_in_order());
    m.cases[0].tags.push(("impl".into(), TomlValue::Integer(1)));
    assert!(!m.is_in_order());
}

/// An axis with an open domain is swept over the literals that it takes; a clause
/// without any stands for the default where it admits it.
#[test]
fn open_domains_sweep_what_is_spelled_out() {
    let catalog = catalog();
    let counts = |expr: &str| {
        let mut found: Vec<i64> = catalog
            .points(&select(&[expr]))
            .iter()
            .filter_map(|(_, t)| match t.get("query_count") {
                Some(TagValue::Int(i)) => Some(*i),
                _ => None,
            })
            .collect();
        found.sort();
        found.dedup();
        found
    };
    let one = "impl=nanoflann";
    let default = counts(one);
    assert_eq!(default.len(), 1);
    assert_eq!(counts(&format!("{one},query_count=7|5")), vec![5, 7]);
    assert_eq!(counts(&format!("{one},query_count=*")), default);
    assert_eq!(counts(&format!("{one},query_count=1..100000")), default);
    assert_eq!(counts(&format!("{one},!query_count=7")), default);
    assert!(counts(&format!("{one},!query_count={}", default[0])).is_empty());
    assert!(counts(&format!("{one},query_count=0|many")).is_empty());
    assert_eq!(
        catalog.unsatisfied(&select(&[&format!("{one},query_count=7|many")])),
        vec!["query_count=many".to_string()]
    );
}

/// A key that some rows lack is no shared one, in whatever order the rows come.
#[test]
fn a_key_that_is_sometimes_missing_varies() {
    let plain = fixture("kiddo", "cargo-git", "").replace("\"v1\"", "\"v1.0.0\"");
    let case = "[[case]]\nrunners = [\"criterion\"]\ntags.impl = \"kiddo\"\ntags.k = 1\n";
    let last = format!("{plain}{case}{case}");
    let first = format!("{}{case}", plain.replace("tags.impl = \"kiddo\"\n", "tags.impl = \"kiddo\"\ntags.k = 1\n"))
        + "[[case]]\nrunners = [\"criterion\"]\ntags.impl = \"kiddo\"\n";
    for text in [last, first] {
        let catalog = load(&[("kiddo", text)]).unwrap();
        assert_eq!(catalog.matching(&SelectorSet::default()).len(), 3);
        assert_eq!(catalog.varying_keys(&SelectorSet::default()), vec!["k".to_string()]);
    }
}

/// With nothing asked for, nothing is swept.
#[test]
fn without_a_selector_every_case_has_one_point() {
    let catalog = catalog();
    let all = SelectorSet::default();
    assert_eq!(catalog.points(&all).len(), catalog.matching(&all).len());
    assert_eq!(catalog.points(&all).len(), 129);
}

/// Every declared value, written as a clause on its key, reaches its own case.
#[test]
fn loaded_values_select_themselves() {
    let catalog = catalog();
    for case in catalog.cases() {
        for (key, value) in case.tags.entries() {
            let expr = format!("{key}={}", value.to_string());
            let clause = Selector::parse(&expr, &Floats::none()).unwrap();
            assert!(clause.admits_point(&case.tags), "{expr}");
        }
    }
}

/// A pinned version outside every range, or inside two, has no driver.
#[test]
fn one_driver_fits_the_pin() {
    let catalog = catalog();
    assert_eq!(catalog.selected_driver("kiddo").unwrap().name, "v6");
    let none = kiddo().replace("min_supported_semver = \"6.0.0\"", "min_supported_semver = \"7.0.0\"");
    let c = load(&[("kiddo", none)]).unwrap();
    assert!(c
        .selected_driver("kiddo")
        .err()
        .unwrap()
        .ends_with("is outside every driver's supported range"));
    let two = kiddo().replace("max_supported_semver = \"6.0.0\"", "max_supported_semver = \"9.0.0\"");
    let c = load(&[("kiddo", two)]).unwrap();
    assert!(c
        .selected_driver("kiddo")
        .err()
        .unwrap()
        .contains("is inside more than one driver's supported range"));
}

/// Non-core keys must be namespaced under their subject, so `kiddo.stem` and
/// a future `pkdtree.stem` cannot collide.
#[test]
fn extension_keys_are_namespaced() {
    for (name, prefix) in [("kiddo", "kiddo."), ("nanoflann", "nanoflann.")] {
        let manifest = subject_manifest(name);
        for case in &manifest.cases {
            for (key, _) in &case.tags {
                if lookup(key).is_none() {
                    assert!(
                        key.starts_with(prefix),
                        "{name}: `{key}` is neither core nor namespaced under `{prefix}`"
                    );
                }
            }
        }
    }
}

// ---------------------------------------------------------------- the catalog

/// Compile-time keys come from the manifest's `compile_time` markings, and
/// only those drive code generation.
#[test]
fn compile_time_keys_are_the_generic_parameters() {
    let catalog = catalog();
    let case = catalog.for_subject("kiddo")[0];
    let keys = &case.compile_time_keys;
    assert!(keys.contains(&"kiddo.stem".to_string()));
    assert!(keys.contains(&"kiddo.leaf".to_string()));
    assert!(keys.contains(&"kiddo.bucket".to_string()));
    assert!(
        !keys.contains(&"kiddo.storage".to_string()),
        "runtime, not generic"
    );

    // nanoflann resolves its templates in the shim, so it generates nothing.
    let nano = catalog.for_subject("nanoflann")[0];
    assert!(nano.compile_time_keys.is_empty());
}

/// Sweeping a runtime axis must not add builds. This is the property the
/// whole two-phase design exists for: compile time scales with the
/// selection's generic combinations, not with its point count.
#[test]
fn runtime_sweeps_do_not_multiply_builds() {
    let catalog = catalog();
    let one = select(&["impl=kiddo,k=1,axis=f64,kiddo.stem=eytzinger,tree_size=2^20"]);
    let many = select(&["impl=kiddo,k=1,axis=f64,kiddo.stem=eytzinger,tree_size=2^16..2^25"]);

    assert_eq!(catalog.points(&one).len(), 4);
    assert_eq!(catalog.points(&many).len(), 40);
    assert_eq!(
        catalog.build_units(&one).len(),
        catalog.build_units(&many).len(),
        "ten tree sizes is still one build"
    );
}

/// …whereas a compile-time axis does add builds, one per combination.
#[test]
fn compile_time_axes_add_one_build_each() {
    let catalog = catalog();
    // Every generic combination is a build: nine strategies over two
    // scalars. k is a runtime axis, so its four values add none.
    let all_kiddo = select(&["impl=kiddo"]);
    assert_eq!(catalog.build_units(&all_kiddo).len(), 9 * 2 + 2);
    assert_eq!(catalog.points(&all_kiddo).len(), 109);

    let one = select(&["impl=kiddo,axis=f64,kiddo.stem=eytzinger"]);
    assert_eq!(catalog.build_units(&one).len(), 2);
    // tuned flatvec + default vec_of_arenas are two monomorphisations of
    // the same stem/axis; 12 exact_nn + 4 within + 4 bnw + 2 nnw points
    // match the selection.
    assert_eq!(
        catalog.points(&one).len(),
        22,
        "the tuned and default cases match the stem/axis selection"
    );

    // nanoflann and pykdtree resolve in their exec builders, so each is
    // one build.
    let both = catalog.build_units(&SelectorSet::default());
    assert!(
        both.len() >= 9 * 2 + 2 + 1 + 1,
        "the default catalog includes every kiddo combination and the exec subjects"
    );
}

/// Intersection, not union: offering a runner only some cases support would
/// silently drop the rest of the selection.
#[test]
fn runners_are_the_intersection_across_matching_cases() {
    let catalog = catalog();
    let all = catalog.runners_for(&SelectorSet::default());
    assert_eq!(all, vec!["criterion".to_string(), "perf".to_string()]);
    let none = catalog.runners_for(&select(&["impl=nope"]));
    assert!(none.is_empty());
}

/// A narrow request reports its own runtime, not the whole catalog's.
#[test]
fn estimate_scales_with_its_own_selection() {
    let catalog = catalog();
    let budget = Budget::default();
    let all = catalog.estimate(&SelectorSet::default(), Runner::Criterion, &budget);
    let narrow = catalog.estimate(&select(&["impl=kiddo,k=1"]), Runner::Criterion, &budget);
    assert!(
        narrow < all,
        "narrow {narrow:?} should be under all {all:?}"
    );
    // Every selected case takes one warm-up + measurement budget.
    let budget_per_point = std::time::Duration::from_secs(8).as_millis();
    assert_eq!(
        all,
        budget_per_point * catalog.points(&SelectorSet::default()).len() as u128
    );
    assert_eq!(
        narrow,
        budget_per_point * catalog.points(&select(&["impl=kiddo,k=1"])).len() as u128
    );
}

/// A listing should only column what actually differs.
#[test]
fn varying_keys_excludes_what_every_case_shares() {
    let catalog = catalog();
    let keys = catalog.varying_keys(&select(&["impl=kiddo"]));
    assert!(keys.contains(&"k".to_string()));
    assert!(keys.contains(&"axis".to_string()));
    assert!(!keys.contains(&"impl".to_string()), "shared by every row");
}

/// A requested value nothing can serve is reported, not silently dropped.
#[test]
fn unreachable_selector_values_are_reported() {
    let catalog = catalog();
    let sel = select(&["impl=kiddo,k=1|999"]);
    assert_eq!(catalog.unsatisfied(&sel), vec!["k=999".to_string()]);
}

/// A range that reaches nothing is reported like an unmet value. An empty
/// expansion reports every unsatisfied clause, because every clause
/// reached no point; the range is in the list with the reason visible.
#[test]
fn unreachable_ranges_are_reported() {
    let catalog = catalog();
    let sel = select(&["impl=kiddo,tree_size=2^40..2^41"]);
    assert_eq!(
        catalog.unsatisfied(&sel),
        vec!["impl=kiddo".to_string(), "tree_size=2^40..2^41".to_string()]
    );
}

/// `key=*` asks that the key exist at all. A key no case carries
/// empties the selection, and the existence requirement is in the report
/// with everything else it took down.
#[test]
fn an_existence_requirement_reaching_nothing_is_reported() {
    let catalog = catalog();
    // kiddo declares `hugepages` vocabulary but no case sets it, so the
    // key exists in the vocabulary and in no point.
    let sel = select(&["impl=kiddo,kiddo.hugepages=*"]);
    assert_eq!(
        catalog.unsatisfied(&sel),
        vec!["impl=kiddo".to_string(), "kiddo.hugepages=*".to_string()]
    );
}

/// …but a value every case serves is not reported.
#[test]
fn satisfied_values_are_not_reported() {
    let catalog = catalog();
    let sel = select(&["impl=kiddo,k=1|5|20|50"]);
    assert!(catalog.unsatisfied(&sel).is_empty());
}

fn sized(axis: &str) -> TagMap {
    let mut tags = TagMap::new();
    tags.insert("tree_size", (1usize << 26).into_tag_value());
    tags.insert("dims", 3i32.into_tag_value());
    tags.insert("axis", axis.into_tag_value());
    tags.insert("idx", "u32".into_tag_value());
    tags
}

/// 2^26 f64 at K=3 is roughly 1.7 GB of raw storage — comfortably real on a
/// 64 GB box, which is exactly why the ceiling cannot be a manifest constant.
#[test]
fn footprint_tracks_scalar_and_dimensionality() {
    let big = Case::footprint_bytes(&sized("f64")).unwrap();
    let small = Case::footprint_bytes(&sized("f32")).unwrap();
    assert_eq!(big, (1u64 << 26) * (3 * 8 + 4));
    assert!(big > small, "f64 must cost more per point than f32");
    assert!((1.6e9..1.9e9).contains(&(big as f64)), "got {big} bytes");
    assert!(Case::exceeds(&sized("f64"), 1 << 30) && !Case::exceeds(&sized("f64"), 1 << 40));
}

#[test]
fn over_budget_flags_only_what_exceeds_it() {
    let catalog = catalog();
    let sel = select(&["impl=kiddo,k=1,axis=f64,kiddo.stem=eytzinger,tree_size=2^16|2^29"]);
    let over = catalog.over_budget(&sel, 1 << 30); // 1 GiB
    assert_eq!(over.len(), 4, "only 2^29 should exceed a 1 GiB budget");
    assert_eq!(
        over[0].get("tree_size"),
        Some(&TagValue::Int(1 << 29))
    );
}

#[test]
fn the_defaults_label_is_computed() {
    let catalog = catalog();
    let plain = catalog.points(&select(&["impl=kiddo,defaults_or_tuned=default"]));
    assert_eq!(plain.len(), 12, "the plain leaf under the plain stem");
    for (case, _) in plain {
        assert_eq!(case.tags.get("kiddo.leaf").map(|v| v.to_string()).as_deref(), Some("vec_of_arenas"));
    }
}

#[test]
fn domains_enumerate_what_they_can() {
    let range = ParamDomain::IntRange { lo: 1, hi: 10, step: 4 };
    assert_eq!(
        range.enumerate(),
        Some(vec![TagValue::Int(1), TagValue::Int(5), TagValue::Int(9)])
    );
    assert_eq!(ParamDomain::AnyInt.enumerate(), None);
    assert_eq!(ParamDomain::AnyFloat.enumerate(), None);
}

// ---------------------------------------------------------------- preparing a subject

/// An exec request without its inputs is a caller bug, refused rather than guessed
/// at.
#[test]
fn exec_prepare_without_inputs_is_refused() {
    let catalog = catalog();
    let case = catalog.for_subject("nanoflann")[0];
    let request = SubjectRequest {
        subject: "nanoflann".into(),
        adapter: case.adapter,
        build_root: "/tmp/sb-adapter-exec".into(),
        toolchain: Version(0, 0, 0),
        engine_root: None,
        codegen: None,
        exec_inputs: None,
    };
    match prepare(&request, None, false, 7) {
        Err(RunError::BadManifest { subject, what }) => {
            assert_eq!(subject, "nanoflann");
            assert!(what.contains("exec inputs"), "{what}");
        }
        Err(other) => panic!("expected a BadManifest refusal, got {other:?}"),
        Ok(_) => panic!("expected a refusal, got a prepared run"),
    }
}

fn codegen_request(adapter: Adapter) -> SubjectRequest {
    SubjectRequest {
        subject: "kiddo_v6".into(),
        adapter,
        build_root: "/tmp/sb-adapter-prepare".into(),
        toolchain: Version(1, 89, 0),
        engine_root: None,
        exec_inputs: None,
        codegen: Some(CodegenInputs {
            driver_crate: "spatial-bench-kiddo-v6".into(),
            driver_macro: "bench_case".into(),
            driver_source: DriverSource::Path("/engine/crates/sb".into()),
            driver_rev: "path:/engine".into(),
            subject_crate: "kiddo".into(),
            subject_source: SubjectSource::Path("/engine/kiddo".into()),
            subject_rev: "v6.1.0".into(),
            features: vec!["test_utils".into()],
            rustflags: None,
        }),
    }
}

/// The rust-codegen path prepares a real package from the real manifest.
#[test]
fn rust_codegen_prepares_a_materialised_package() {
    let catalog = catalog();
    let request = codegen_request(catalog.for_subject("kiddo")[0].adapter);
    let generated = Generated {
        source: "bench_case!(axis = f64);\n".into(),
        cache_key: "0123456789abcdef".into(),
        combinations: 1,
    };
    let (package, prepared) = match prepare(&request, Some(&generated), false, 7) {
        Ok(Preparation::Package { package, prepared }) => (package, prepared),
        _ => panic!("expected a package"),
    };
    assert_eq!(prepared.adapter, Adapter::RustCodegen);
    assert!(
        package.main.contains("bench_case!("),
        "the materialised package invokes the driver macro"
    );
    assert!(
        prepared.dir.ends_with(&prepared.generated.cache_key),
        "the package directory is keyed by the cache key"
    );
    assert!(matches!(
        prepare(&request, None, false, 7),
        Err(RunError::NotImplemented { .. })
    ));
    let failed = Outcome::NotStarted("gone".into());
    assert!(matches!(
        outcome("driver", Some(&failed), &failed),
        Err(RunError::Build(_))
    ));
    assert!(matches!(outcome("driver", None, &failed), Err(RunError::Harness(_))));
}

// ---------------------------------------------------------------- running

fn config<'a>(catalog: &'a Catalog, selection: &'a SelectorSet, runner: Runner) -> RunConfig<'a> {
    RunConfig {
        catalog,
        selection,
        runner,
        rustc: None,
        allow_unfingerprinted: true,
        random_seed: 42,
        build_root: "/tmp/sb-run".into(),
        engine_root: None,
        subject_paths: vec![],
    }
}

const NOWHERE: Places = Places {
    in_manifest: false,
    in_engine: false,
};

/// kiddo declares a 1.89.0 floor, so that is the toolchain the whole run
/// builds with — the header records what this function resolved.
#[test]
fn toolchain_is_the_highest_declared_floor() {
    let catalog = catalog();
    let selection = select(&["impl=kiddo"]);
    let config = config(&catalog, &selection, Runner::Criterion);
    assert_eq!(resolve_toolchain(&config).unwrap(), Some(Version(1, 89, 0)));
}

/// A dry run plans real builds: the manifest's compile-time axes become
/// combinations, and the toolchain matches the floors.
#[test]
fn plan_reports_combinations_per_subject() {
    let catalog = catalog();
    let selection = select(&["impl=kiddo,kiddo.stem=eytzinger,isa=avx512"]);
    let config = config(&catalog, &selection, Runner::Criterion);
    assert_eq!(resolve_toolchain(&config).unwrap(), Some(Version(1, 89, 0)));
    let subjects = by_subject(&catalog, &selection);
    assert_eq!(subjects.len(), 1);
    let kiddo = &subjects[0];
    assert_eq!(kiddo.subject, "kiddo");
    // Two scalars over one stem and one leaf: two monomorphisations.
    assert_eq!(catalog.build_units(&selection).len(), 2);
    // The instruction set that was asked for is what the package is built with.
    let request = subject_request(&config, "kiddo", kiddo.cases[0], Some(Version(1, 89, 0)), NOWHERE).unwrap();
    let codegen = request.codegen.unwrap();
    assert_eq!(codegen.rustflags.as_deref(), Some("-C target-cpu=x86-64-v4"));
    assert_eq!(codegen.features, vec!["test_utils".to_string()]);
}

/// exec subjects plan through their language builder — the plan
/// fetches/compiles the shim environment (cached) and reports its
/// specialisation count, exactly like a rust subject's plan.
#[test]
fn planning_an_exec_subject_plans_its_build() {
    let catalog = catalog();
    let selection = select(&["impl=nanoflann"]);
    let config = config(&catalog, &selection, Runner::Criterion);
    let subjects = by_subject(&catalog, &selection);
    assert_eq!(subjects.len(), 1);
    let toolchain = resolve_toolchain(&config).unwrap();
    let request = subject_request(&config, "nanoflann", subjects[0].cases[0], toolchain, NOWHERE).unwrap();
    let mut build = match prepare(&request, None, false, 7) {
        Ok(Preparation::Environment(ExecBuild::Cxx(b))) => b,
        _ => panic!("expected an environment"),
    };
    let done = |stdout: &str| {
        Reply::Ran(Outcome::Exited {
            success: true,
            code: Some(0),
            stdout: stdout.into(),
            stderr: String::new(),
        })
    };
    let mut finished = None;
    while finished.is_none() {
        let reply = match build.request() {
            Request::Run(_) => done("0123456789abcdef0123456789abcdef01234567\n"),
            Request::Read(_) => Reply::Text(Ok("// shim\n".into())),
            Request::Exists(_) => Reply::Present(false),
            _ => Reply::Done(Ok(())),
        };
        match build.next(&reply).unwrap() {
            CxxStep::Again(next) => build = next,
            CxxStep::Finished { built, dir } => {
                finished = Some((built, dir));
                break;
            }
        }
    }
    let prepared = match environment(&request, Ok(finished.unwrap())) {
        Ok(p) => p,
        Err(e) => panic!("{e:?}"),
    };
    let nanoflann = subject_plan("nanoflann", &prepared);
    assert_eq!(nanoflann.subject, "nanoflann");
    // The manifest declares compile_time_dims [3, 4]: two specialisations.
    assert_eq!(nanoflann.combinations, 2);
    assert!(matches!(
        environment(&request, Err("no compiler".into())),
        Err(RunError::Exec { .. })
    ));
}

/// Planning a perf run works — the runner exists, so the plan does not refuse it.
#[test]
fn a_perf_run_is_planned_like_any_other() {
    let catalog = catalog();
    let selection = select(&["impl=kiddo,k=1,isa=avx512"]);
    let plan = by_subject(&catalog, &selection);
    assert_eq!(plan.len(), 1);
    let points = catalog.points(&selection);
    let specs = run_specs(Runner::Perf, &points, "kiddo", "generate", 42).unwrap();
    assert_eq!(specs.len(), points.len(), "one process per point");
    assert!(specs.iter().all(|s| s.cases.len() == 1));
    let together = run_specs(Runner::Criterion, &points, "kiddo", "generate", 42).unwrap();
    assert_eq!(together.len(), 1);
    assert_eq!(together[0].cases.len(), points.len());
    assert!(run_specs(Runner::Asm, &points, "kiddo", "generate", 42).is_err());
}

#[test]
fn one_run_has_one_instruction_set() {
    let catalog = catalog();
    let one = select(&["impl=kiddo,isa=avx2"]);
    assert_eq!(
        isa_resolved_rustflags(&catalog, &one, "kiddo").unwrap().as_deref(),
        Some("-C target-cpu=x86-64-v3")
    );
    assert!(isa_resolved_rustflags(&catalog, &select(&["impl=kiddo"]), "kiddo").is_err());
}

#[test]
fn sources_resolve_from_the_nearest_place() {
    let catalog = catalog();
    let overrides = vec![SubjectPath {
        name: "kiddo".into(),
        path: "/w/kiddo".into(),
    }];
    let none = vec![];
    let engine = Some("/engine".to_string());
    let local = Inputs {
        catalog: &catalog,
        engine_root: &engine,
        subject_paths: &overrides,
    };
    assert!(matches!(subject_source(&local, "kiddo"), Ok(SubjectSource::Path(p)) if p == "/w/kiddo"));
    let in_engine = Places {
        in_manifest: false,
        in_engine: true,
    };
    assert!(matches!(
        driver_source(&local, "kiddo", "spatial-bench-kiddo-v6", in_engine),
        Ok((DriverSource::Path(_), _))
    ));
    let published = Inputs {
        catalog: &catalog,
        engine_root: &engine,
        subject_paths: &none,
    };
    assert!(matches!(
        subject_source(&published, "kiddo"),
        Ok(SubjectSource::Git { reference, .. }) if reference == "v6.1.0"
    ));
    assert!(matches!(
        driver_source(&published, "kiddo", "spatial-bench-kiddo-v6", NOWHERE),
        Ok((DriverSource::Registry { version }, _)) if version == "0.1.0"
    ));
    assert!(subject_source(&published, "absent").is_err());
}

#[test]
fn a_run_says_what_it_will_not_do() {
    assert!(begin(0).is_err());
    assert!(begin(1).is_ok());
    let catalog = catalog();
    let selection = select(&["impl=kiddo,k=1,axis=f64,kiddo.stem=eytzinger,tree_size=2^29"]);
    let mut machine = Machine::unknown();
    assert!(memory_warnings(&catalog, &selection, &machine).is_empty());
    machine.mem.total_bytes = Some(1 << 30);
    assert!(!memory_warnings(&catalog, &selection, &machine).is_empty());
    machine.mem.total_bytes = Some(1 << 40);
    assert!(memory_warnings(&catalog, &selection, &machine).is_empty());
    assert_eq!(data_dir(Some("/data"), Some("/home/x")), "/data/spatial-bench");
    assert_eq!(data_dir(None, Some("/home/x")), "/home/x/.local/share/spatial-bench");
}

#[test]
fn provenance_quotes_what_was_built() {
    let catalog = catalog();
    let selection = select(&["impl=kiddo"]);
    let config = config(&catalog, &selection, Runner::Criterion);
    let locked = Some(Locked {
        version: "6.1.0".into(),
        sha: Some("a".repeat(40)),
    });
    let p = provenance(&config, "kiddo", Adapter::RustCodegen, &locked, &None).unwrap();
    assert_eq!(p.version, "6.1.0");
    assert_eq!(p.sha, Some("a".repeat(40)));
    let sha = Some("b".repeat(40));
    let exec = provenance(&config, "nanoflann", Adapter::Exec, &None, &sha).unwrap();
    assert_eq!((exec.pinned_ref.as_str(), exec.sha), ("v1.7.0", sha));
}

// ---------------------------------------------------------------- executing

fn prepared_for(request: &SubjectRequest) -> spatial_bench::adapter::Prepared {
    let generated = Generated {
        source: "fn main() {}\n".into(),
        cache_key: "abc".into(),
        combinations: 1,
    };
    match prepare(request, Some(&generated), false, 7) {
        Ok(Preparation::Package { prepared, .. }) => prepared,
        _ => panic!("expected a package"),
    }
}

/// Every subject is prepared, measured and recorded; perf compiles before it measures.
#[test]
fn a_run_visits_every_subject_and_keeps_every_point() {
    let catalog = catalog();
    let selection = select(&["impl=kiddo,k=1,isa=avx512,axis=f64"]);
    let expected = catalog.points(&selection).len();
    for runner in [Runner::Criterion, Runner::Perf] {
        let config = config(&catalog, &selection, runner);
        let mut run: Execution<u32> = Execution::start(&config, "generate").unwrap();
        assert_eq!(run.toolchain(), Some(Version(1, 89, 0)));
        let mut order = vec![];
        let mut measured = 0u32;
        for _ in 0..200 {
            let wanted = run.wanted();
            if wanted == Wanted::Nothing {
                break;
            }
            if order.last() != Some(&wanted) {
                order.push(wanted);
            }
            let event = match wanted {
                Wanted::Prepare => {
                    assert_eq!(run.subject().map(|s| s.as_str()), Some("kiddo"));
                    Event::Prepared(Ok(prepared_for(&codegen_request(Adapter::RustCodegen))))
                }
                Wanted::Compile => Event::Compiled(Ok(())),
                Wanted::Measure => {
                    let cases = run.spec().unwrap().cases.len() as u32;
                    let points = (measured..measured + cases).collect();
                    measured += cases;
                    Event::Measured(Ok(points))
                }
                Wanted::Lock => Event::Locked(Some(Locked {
                    version: "6.1.0".into(),
                    sha: None,
                })),
                Wanted::Nothing => unreachable!(),
            };
            run = match run.next(event) {
                Ok(next) => next,
                Err(e) => panic!("{e}"),
            };
        }
        let (points, recorded) = run.finish();
        assert_eq!(points, (0..expected as u32).collect::<Vec<_>>());
        assert_eq!(recorded.len(), 1);
        assert_eq!(recorded[0].name, "kiddo");
        if runner == Runner::Perf {
            assert_eq!(order, vec![Wanted::Prepare, Wanted::Compile, Wanted::Measure, Wanted::Lock]);
        } else {
            assert_eq!(order, vec![Wanted::Prepare, Wanted::Measure, Wanted::Lock]);
        }
    }
}

#[test]
fn a_failed_step_ends_the_run() {
    let catalog = catalog();
    let selection = select(&["impl=kiddo,k=1,isa=avx512"]);
    let config = config(&catalog, &selection, Runner::Criterion);
    let run: Execution<u32> = Execution::start(&config, "generate").unwrap();
    let failed = run.next(Event::Prepared(Err("no disk".into())));
    assert!(matches!(failed, Err(e) if e.contains("no disk")));
    let nothing = select(&["impl=kiddo,k=999"]);
    let empty = RunConfig {
        selection: &nothing,
        ..config
    };
    assert!(Execution::<u32>::start(&empty, "generate").is_err());
}

// ---------------------------------------------------------------- conforming

#[test]
fn a_driver_conforms_by_the_set_of_its_cases() {
    let catalog = catalog();
    let all = ConformConfig {
        catalog: &catalog,
        subject: Some("kiddo"),
        build_root: "/b".into(),
        engine_root: None,
        subject_paths: vec![],
    };
    assert_eq!(conform_subjects(&all).unwrap(), vec!["kiddo".to_string()]);
    let cases = catalog.matching(&select(&["impl=kiddo"]));
    let registered: Vec<_> = cases.iter().map(|c| c.compile_time_key()).collect();
    let report = ConformReport {
        subjects: vec![conform("kiddo", &cases, &registered)],
    };
    assert!(report.all_match());
    let partial = conform("kiddo", &cases, &vec![registered[0].clone()]);
    assert!(!partial.is_match());
    assert_eq!(partial.missing_in_driver.len(), 19);
}

// ---------------------------------------------------------------- picking

/// A catalog of an older kiddo: 72 of its cases, eight of nanoflann, eight of pykdtree.
fn picker_catalog() -> Catalog {
    let kiddo_v6 = format!(
        "schema = 1\nname = \"kiddo_v6\"\ndomain = \"spatial_index\"\n\
         [source]\nkind = \"cargo-git\"\nrepo = \"https://github.com/sdd/kiddo\"\npinned_ref = \"v6.1.0\"\n\
         [[driver]]\nname = \"v6\"\nadapter = \"rust-codegen\"\ncrate = \"spatial-bench-kiddo-v6\"\n\
         macro = \"bench_case\"\ncompile_time = [\"axis\"]\n\
         [vocab.stem]\nvalues = {STEMS}\ncompile_time = true\n\
         [vocab.leaf]\nvalues = [\"flatvec\"]\ncompile_time = true\n\
         [vocab.bucket]\nkind = \"int\"\ncompile_time = true\n\
         [vocab.storage]\nvalues = [\"heap\"]\n"
    ) + &kiddo_case(
        "v6",
        "kiddo_v6",
        "query = \"exact_nn\"\nisa = \"avx2\"\n\"kiddo.leaf\" = \"flatvec\"\n\"kiddo.bucket\" = 32\n\"kiddo.storage\" = \"heap\"",
        &format!("axis = [\"f32\", \"f64\"]\nk = [1, 5, 20, 50]\n\"kiddo.stem\" = {STEMS}"),
        PARAMS,
    );
    let subjects = [
        ("kiddo_v6", kiddo_v6),
        ("nanoflann", nanoflann("", "")),
        ("pykdtree", pykdtree("isa = [\"scalar\"]\naxis = [\"f32\", \"f64\"]")),
    ];
    load(&subjects).unwrap_or_else(|e| panic!("the manifests should load: {e:?}"))
}

fn word(s: &str) -> TagValue {
    TagValue::Word(s.to_owned())
}

#[test]
fn offers_every_key_present_in_the_catalog() {
    let facets = Picker::new().facets(&picker_catalog());
    let keys: Vec<&str> = facets.iter().map(|f| f.key.as_str()).collect();
    for expected in ["impl", "query", "k", "axis", "tree_size", "kiddo.stem"] {
        assert!(
            keys.contains(&expected),
            "missing facet {expected}; got {keys:?}"
        );
    }
}

#[test]
fn narrows_the_offered_values_as_choices_are_made() {
    let catalog = picker_catalog();
    let mut picker = Picker::new();
    let before = picker
        .facets(&catalog)
        .into_iter()
        .find(|f| f.key == "kiddo.stem")
        .unwrap();
    assert_eq!(before.values.len(), 9, "every declared stem strategy");

    picker.choose_values("impl", vec![word("nanoflann")]);
    let after = picker.facets(&catalog);
    assert!(
        !after.iter().any(|f| f.key == "kiddo.stem"),
        "kiddo's private axes should vanish once only nanoflann is selected"
    );
}

/// The picker must never offer a value that would empty the selection.
#[test]
fn never_offers_a_value_that_yields_no_points() {
    let catalog = picker_catalog();
    let mut picker = Picker::new();
    picker.choose_values("impl", vec![word("kiddo_v6")]);
    for facet in picker.facets(&catalog) {
        for value in &facet.values {
            let mut probe = picker.clone();
            probe.choose_values(&facet.key, vec![value.clone()]);
            assert!(
                !catalog.points(&probe.selection()).is_empty(),
                "{}={} empties the selection",
                facet.key,
                value.to_string()
            );
        }
    }
}

/// A choice can always be widened again: the values offered for a key ignore
/// that key's own current pin.
#[test]
fn a_pinned_key_still_offers_its_alternatives() {
    let catalog = picker_catalog();
    let mut picker = Picker::new();
    picker.choose_values("axis", vec![word("f64")]);
    let facet = picker
        .facets(&catalog)
        .into_iter()
        .find(|f| f.key == "axis")
        .unwrap();
    assert_eq!(facet.values.len(), 2, "f32 must still be offerable");
    assert_eq!(facet.chosen, vec![word("f64")]);
}

/// A param axis must offer its whole declared domain. An unconstrained
/// param resolves to its default, so offering resolved values would show one
/// tree size and make every other unreachable from the menu.
#[test]
fn param_facets_offer_the_declared_domain_not_the_default() {
    let catalog = picker_catalog();
    let facet = Picker::new()
        .facets(&catalog)
        .into_iter()
        .find(|f| f.key == "tree_size")
        .unwrap();
    assert_eq!(facet.values.len(), 14, "2^16..2^29 inclusive");
    assert!(facet.values.contains(&TagValue::Int(1 << 16)));
    assert!(facet.values.contains(&TagValue::Int(1 << 29)));
}

#[test]
fn preview_counts_cases_points_and_runners() {
    let catalog = picker_catalog();
    let mut picker = Picker::new();
    picker.choose_values("impl", vec![word("kiddo_v6")]);
    let preview = picker.preview(&catalog, Runner::Criterion, &Budget::default());
    assert_eq!(preview.cases, 72);
    assert_eq!(preview.points, 72);
    assert_eq!(
        preview.runners,
        vec!["criterion".to_string(), "perf".to_string()]
    );
    assert!(preview.unsatisfied.is_empty());
}

/// perf runs one point per process, so its estimate must exceed criterion's
/// for the same selection.
#[test]
fn perf_is_estimated_higher_than_criterion() {
    let catalog = picker_catalog();
    let picker = Picker::new();
    let budget = Budget::default();
    let c = picker
        .preview(&catalog, Runner::Criterion, &budget)
        .estimate;
    let p = picker.preview(&catalog, Runner::Perf, &budget).estimate;
    assert!(p > c, "perf {p:?} should exceed criterion {c:?}");
    assert_eq!(
        c,
        std::time::Duration::from_secs(8).as_millis() * 88,
        "88 points at warm-up+measurement (72 kiddo + 8 nanoflann + 8 pykdtree)"
    );
}

#[test]
fn preview_surfaces_unreachable_requests() {
    let catalog = picker_catalog();
    let mut picker = Picker::new();
    picker.choose_values("k", vec![TagValue::Int(1), TagValue::Int(999)]);
    let preview = picker.preview(&catalog, Runner::Criterion, &Budget::default());
    assert_eq!(preview.unsatisfied, vec!["k=999".to_string()]);
}

/// The printed command is the CI repro line, so it must parse back to the
/// same selection it was generated from.
#[test]
fn printed_command_round_trips() {
    let mut picker = Picker::new();
    picker.choose_values("impl", vec![word("kiddo_v6")]);
    picker.choose_values("k", vec![TagValue::Int(1), TagValue::Int(5)]);
    picker.choose_values("tree_size", vec![TagValue::Int(1 << 20)]);

    let command = picker.command(Runner::Criterion);
    assert_eq!(
        command,
        "spatial-bench run --runner criterion \
         --select 'impl=kiddo_v6,k=1|5,tree_size=2^20'"
    );

    let expr = command.split('\'').nth(1).unwrap();
    assert_eq!(
        Selector::parse(expr, &Floats::none()).unwrap(),
        picker.selection().selectors[0]
    );
}

/// A selection that pins every facet must still print a readable line. Only
/// the clauses that actually narrow the point set survive.
#[test]
fn the_repro_line_drops_clauses_that_narrow_nothing() {
    let catalog = picker_catalog();
    let mut picker = Picker::new();
    // Pin every facet, as walking the whole menu does.
    for facet in Picker::new().facets(&catalog) {
        if let Some(first) = facet.values.first() {
            picker.choose_values(&facet.key, vec![first.clone()]);
        }
    }
    let full = picker.selection();
    let minimal = picker.minimal(&catalog);

    assert!(
        full.selectors[0].clauses.len() >= 14,
        "the picker pinned everything"
    );
    assert!(
        minimal.selectors[0].clauses.len() < full.selectors[0].clauses.len(),
        "redundant clauses should be dropped"
    );
    assert_eq!(
        catalog.points(&minimal).len(),
        catalog.points(&full).len(),
        "minimising must not change what is selected"
    );

    // `dims` has one reachable value, so constraining it narrows nothing.
    let keys: Vec<String> = minimal.selectors[0]
        .clauses
        .iter()
        .map(|c| c.key.to_string())
        .collect();
    assert!(!keys.contains(&"dims".to_string()), "got {keys:?}");
}

#[test]
fn an_empty_selection_prints_a_runnable_command() {
    assert_eq!(
        Picker::new().command(Runner::Criterion),
        "spatial-bench run --runner criterion"
    );
}

#[test]
fn clearing_a_choice_unpins_its_key() {
    let mut picker = Picker::new();
    picker.choose_values("k", vec![TagValue::Int(1)]);
    picker.choose_values("axis", vec![word("f64")]);
    picker.choose_values("k", vec![TagValue::Int(5)]);
    assert_eq!(picker.pinned("k"), vec![TagValue::Int(5)]);
    picker.choose_values("k", vec![]);
    assert!(picker.pinned("k").is_empty());
    assert_eq!(picker.selection().to_exprs(), vec!["axis=f64".to_string()]);
}

// ---------------------------------------------------------------- the menu

fn again(turn: Turn) -> (Menu, Vec<String>) {
    match turn {
        Turn::Again(menu, lines) => (menu, lines),
        other => panic!("expected another turn, got {other:?}"),
    }
}

#[test]
fn the_menu_walks_to_a_selection() {
    let catalog = picker_catalog();
    let facets = Picker::new().facets(&catalog);
    let impl_row = facets.iter().position(|f| f.key == "impl").unwrap() + 2;
    let menu = Menu::new();
    let shown = menu.display(&catalog, &Budget::default());
    assert!(shown.iter().any(|l| l.contains("impl")), "{shown:?}");
    let (menu, _) = again(menu.answer(&catalog, Some(&impl_row.to_string())));
    let choices = menu.display(&catalog, &Budget::default());
    assert!(choices.iter().any(|l| l.contains("kiddo_v6")), "{choices:?}");
    let (menu, _) = again(menu.answer(&catalog, Some("1")));
    assert_eq!(menu.picker.pinned("impl"), vec![word("kiddo_v6")]);
    let (menu, _) = again(menu.answer(&catalog, Some("r")));
    assert!(menu.picker.pinned("impl").is_empty());
    assert!(matches!(menu.answer(&catalog, Some("d")), Turn::Done(_)));
    assert!(matches!(Menu::new().answer(&catalog, Some("q")), Turn::Quit));
    assert!(matches!(Menu::new().answer(&catalog, None), Turn::Done(_)));
    let (_, refused) = again(Menu::new().answer(&catalog, Some("999")));
    assert_eq!(refused, vec!["  no such row: 999".to_string()]);
    let (_, refused) = again(Menu::new().answer(&catalog, Some("x")));
    assert_eq!(refused, vec!["  not a number: x".to_string()]);
}

#[test]
fn the_menu_offers_runners_and_values() {
    let lines = runner_choices(&vec![Runner::Criterion, Runner::Perf], &vec![Runner::Asm], Runner::Perf);
    assert!(lines.iter().any(|l| l.contains("perf")), "{lines:?}");
    let values = value_choices("tree_size", &vec![TagValue::Int(1 << 20)]);
    assert!(values[0].contains("2^20"), "{values:?}");
    assert!(runs_now(Some("")) && runs_now(Some("y")) && !runs_now(Some("n")));
}

// ---------------------------------------------------------------- listings

#[test]
fn listings_show_what_differs() {
    let catalog = picker_catalog();
    let selection = select(&["impl=nanoflann"]);
    let lines = list_table(&catalog, &selection);
    assert!(lines[0].contains("axis") && lines[0].contains("k"), "{lines:?}");
    assert!(!lines[0].contains("dims"), "{lines:?}");
    let subjects = subject_lines(&catalog);
    assert!(subjects.iter().any(|l| l.contains("nanoflann") && l.contains("8")), "{subjects:?}");
    assert_eq!(render("tree_size", &TagValue::Int(1 << 20)), "2^20");
    assert_eq!(render("k", &TagValue::Int(16)), "16");
}

#[test]
fn summaries_count_what_will_run() {
    let line = run_summary(2, 3, 1, 24_000).unwrap();
    assert!(line.contains('2') && line.contains('3') && line.contains("24s"), "{line}");
    assert!(run_summary(0, 0, 0, 0).is_err());
    assert_eq!(unsatisfied_warning(&vec![]), None);
    assert!(unsatisfied_warning(&vec!["k=999".into()]).unwrap().contains("k=999"));
    assert!(toolchain_line(&Some(Version(1, 89, 0))).contains("1.89.0"));
    let plan = RunPlan {
        toolchain: None,
        subjects: vec![SubjectPlan {
            subject: "kiddo".into(),
            combinations: 2,
            cache_key: "abc".into(),
        }],
    };
    assert!(plan_lines(&plan).iter().any(|l| l.contains("kiddo") && l.contains("abc")));
}

#[test]
fn conformance_is_reported_both_ways() {
    let catalog = picker_catalog();
    let cases = catalog.matching(&select(&["impl=kiddo_v6"]));
    let registered: Vec<_> = cases.iter().map(|c| c.compile_time_key()).collect();
    let whole = conform("kiddo_v6", &cases, &registered);
    assert!(conform_report(&whole)[0].contains("kiddo_v6"));
    let good = ConformReport { subjects: vec![whole] };
    assert!(conform_verdict(&good).is_ok());
    let bad = ConformReport {
        subjects: vec![conform("kiddo_v6", &cases, &vec![])],
    };
    assert!(conform_verdict(&bad).is_err());
}
