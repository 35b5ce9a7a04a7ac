//! Toolchains, packages, exec environments, the driver harness and perf.

use spatial_bench::adapter::Adapter;
use spatial_bench::case::Runner;
use spatial_bench::conform::compare_sets;
use spatial_bench::exec::{
    dims_hpp, prepare as prepare_exec, to_install, CxxStep, ExecBuild, ExecInputs, Fetch, FetchStep,
    PythonStep,
};
use spatial_bench::harness::{
    drive, read_points, read_registrations, read_spec, Budget, CaseSpec, DriverLine, HarnessError,
    RunSpec, HARNESS_VERSION,
};
use spatial_bench::manifest::{Build, CmakeBuild, CmakeDependency, ManifestError, Source};
use spatial_bench::measure::{check_budget, criterion_files, sample_count};
use spatial_bench::package::{
    built_subject, compile, compiled, isa_rustflags, materialise, write_if_changed, BuildError,
    BuildRequest, DriverSource, Generated, Outcome, SubjectSource,
};
use spatial_bench::perf::{
    counter_texts, counters_from_json, merge_counters, perf_call, perf_outcome, safe_id,
    single_point, Counter, PerfRun,
};
use spatial_bench::run::enforce_sha;
use spatial_bench::schema::Metric;
use spatial_bench::steps::{Reply, Request};
use spatial_bench::tag::{F64Ord, FloatReading, Floats, IntoTagValue, TagMap, TagValue};
use spatial_bench::toolchain::{cargo, parse_rustc_version, resolve, Version};
use spatial_bench::version::read_semver;

// ---------------------------------------------------------------- toolchains

#[test]
fn versions_compare_numerically_not_lexically() {
    assert!(Version::parse("1.100.0").unwrap() > Version::parse("1.89.0").unwrap());
    assert!(Version::parse("1.89").unwrap() == Version::parse("1.89.0").unwrap());
    assert!(Version::parse("2.0.0").unwrap() > Version::parse("1.99.99").unwrap());
    assert!(Version::parse("1.89.x").is_none());
    assert!(Version::parse("1.2.3.4").is_none());
    assert!(Version::parse("1.89.0")
        .unwrap()
        .below(&Version::parse("1.100.0").unwrap()));
}

#[test]
fn versions_read_back_from_their_text() {
    let v = Version::parse(" 1.89 ").unwrap();
    assert_eq!(v.to_string(), "1.89.0");
    assert_eq!(Version::parse(&v.to_string()), Some(v));
}

fn floors() -> Vec<(String, Option<String>)> {
    vec![
        ("kiddo".into(), Some("1.89.0".into())),
        ("other".into(), Some("1.75.0".into())),
        ("nanoflann".into(), None), // not a Rust subject
    ]
}

/// The lowest version that satisfies everyone.
#[test]
fn unpinned_resolves_to_the_highest_floor() {
    assert_eq!(resolve(&floors(), None).unwrap(), Version(1, 89, 0));
}

#[test]
fn a_pin_at_or_above_every_floor_is_accepted() {
    assert_eq!(
        resolve(&floors(), Some("1.89.0")).unwrap(),
        Version(1, 89, 0)
    );
    assert_eq!(
        resolve(&floors(), Some("1.92.1")).unwrap(),
        Version(1, 92, 1)
    );
}

/// Refused, rather than silently dropping kiddo from the comparison.
#[test]
fn a_pin_below_a_floor_is_refused_naming_the_subject() {
    match resolve(&floors(), Some("1.80.0")) {
        Err(ManifestError::ToolchainBelowFloor {
            subject,
            floor,
            pinned,
        }) => {
            assert_eq!(subject, "kiddo");
            assert_eq!(floor, "1.89.0");
            assert_eq!(pinned, "1.80.0");
        }
        other => panic!("expected refusal, got {other:?}"),
    }
}

#[test]
fn no_rust_subjects_means_no_constraint() {
    let none = vec![("nanoflann".to_string(), None)];
    assert_eq!(resolve(&none, None).unwrap(), Version(0, 0, 0));
    assert_eq!(resolve(&none, Some("1.89.0")).unwrap(), Version(1, 89, 0));
}

#[test]
fn active_rustc_versions_parse_despite_channel_suffixes() {
    assert_eq!(
        parse_rustc_version("rustc 1.98.0-nightly (01dfd7924 2026-06-15)"),
        Some(Version(1, 98, 0))
    );
    assert_eq!(
        parse_rustc_version("rustc 1.89.0 (29tich 2026-06-15)"),
        Some(Version(1, 89, 0))
    );
    assert_eq!(parse_rustc_version("not rustc at all"), None);
}

#[test]
fn cargo_switches_toolchain_only_when_it_must() {
    let floor = Version(1, 89, 0);
    assert_eq!(cargo(&floor, Some(Version(1, 89, 0))), vec!["cargo"]);
    let switched = cargo(&floor, Some(Version(1, 80, 0)));
    assert_eq!(switched, vec!["cargo", "+1.89.0"]);
    assert_eq!(cargo(&Version(0, 0, 0), None), vec!["cargo"]);
    assert_eq!(floor.to_string(), "1.89.0");
}

/// Versions are read by the semver crate: a pre-release is told from a release.
#[test]
fn semantic_versions_are_read_strictly() {
    let v = read_semver("6.0.0-alpha.4").unwrap();
    assert_eq!((v.major, v.minor, v.patch), (6, 0, 0));
    assert!(v.pre_release && !v.build);
    assert!(!read_semver("6.1.0").unwrap().pre_release);
    assert!(read_semver("6.1").is_err());
    assert!(read_semver("6.1.0").unwrap().reaches(&read_semver("6.0.9").unwrap()));
}

// ---------------------------------------------------------------- runners and adapters

/// The picker offers runners by name, so the strings and the implemented set are
/// contract, not presentation.
#[test]
fn runner_strings_parse_and_implemented_is_criterion_only() {
    assert_eq!(Runner::parse("criterion"), Some(Runner::Criterion));
    assert_eq!(Runner::parse("perf"), Some(Runner::Perf));
    assert!(Runner::parse("nope").is_none());
    assert!(Runner::Criterion.implemented());
    assert!(Runner::Perf.implemented(), "the perf runner");
    assert_eq!(Runner::Perf.to_string(), "perf");
    assert!(!Runner::Asm.implemented());
}

#[test]
fn adapter_strings_parse_to_known_kinds_only() {
    assert_eq!(Adapter::parse("rust-codegen"), Some(Adapter::RustCodegen));
    assert_eq!(Adapter::parse("exec"), Some(Adapter::Exec));
    // Near misses that a typo would produce: refused, not guessed.
    for bad in ["rust_codegen", "rust codegen", "rust-coden", "criterion"] {
        assert_eq!(Adapter::parse(bad), None, "{bad}");
    }
}

// ---------------------------------------------------------------- conformance

fn pairs(flat: &[(&str, &str)]) -> Vec<(String, String)> {
    flat.iter()
        .map(|(k, v)| (k.to_string(), v.to_string()))
        .collect()
}

/// The three conformance outcomes: equal sets, a declared case the driver
/// lacks, and a registration the manifest does not declare. Both drift
/// directions must surface — either one alone would hide a hole or a lie.
#[test]
fn set_equality_reports_both_drift_directions() {
    let e1 = pairs(&[("axis", "f64"), ("kiddo.stem", "eytzinger")]);
    let e2 = pairs(&[("axis", "f32"), ("kiddo.stem", "eytzinger")]);
    let expected = vec![e1.clone(), e2.clone()];

    // Match.
    let (missing, extra) = compare_sets(&expected, &vec![e2.clone(), e1.clone()]);
    assert!(missing.is_empty() && extra.is_empty());

    // A declared case the driver does not contain.
    let (missing, extra) = compare_sets(&expected, &vec![e1.clone()]);
    assert_eq!(missing, vec![e2.clone()]);
    assert!(extra.is_empty());

    // A registration the manifest does not declare, on top of a complete
    // driver: the extra is the only drift.
    let stale = pairs(&[("axis", "f64"), ("kiddo.stem", "donnelly")]);
    let (missing, extra) = compare_sets(&expected, &vec![e1, e2, stale.clone()]);
    assert!(missing.is_empty());
    assert_eq!(extra, vec![stale]);
}

/// Comparing the other way round swaps what is missing and what is extra.
#[test]
fn comparing_back_swaps_the_drift() {
    let e1 = pairs(&[("axis", "f64"), ("kiddo.stem", "eytzinger")]);
    let e2 = pairs(&[("kiddo.stem", "eytzinger"), ("axis", "f32")]);
    let e3 = pairs(&[("axis", "f32"), ("kiddo.stem", "donnelly")]);
    let a = vec![e1.clone(), e2, e1.clone()];
    let b = vec![e3, e1];
    let (missing, extra) = compare_sets(&a, &b);
    assert_eq!((missing.len(), extra.len()), (1, 1));
    assert_eq!(compare_sets(&b, &a), (extra, missing));
}

#[test]
fn a_subject_with_no_declared_cases_matches_trivially() {
    let (missing, extra) = compare_sets(&vec![], &vec![]);
    assert!(missing.is_empty() && extra.is_empty());
}

// ---------------------------------------------------------------- generated packages

fn request(source: SubjectSource) -> BuildRequest {
    BuildRequest {
        subject: "kiddo_v6".into(),
        driver_crate: "spatial-bench-kiddo-v6".into(),
        driver_source: DriverSource::Path("/engine/crates/spatial-bench-kiddo-v6".into()),
        engine_root: Some("/engine".into()),
        subject_crate: "kiddo".into(),
        subject_source: source,
        features: vec!["test_utils".into()],
        rustflags: None,
        generated: Generated {
            source: "fn main() {}\n".into(),
            cache_key: "abc123".into(),
            combinations: 1,
        },
    }
}

#[test]
fn writes_a_package_keyed_by_the_cache_key() {
    let package = materialise(
        "/tmp/sb-build",
        &request(SubjectSource::Path("/w/kiddo".into())),
        false,
    );

    assert!(package.dir.ends_with("kiddo_v6/abc123"));
    assert!(package.manifest.contains(r#"kiddo = { path = "/w/kiddo""#));
    assert!(
        package.manifest.contains("opt-level = 3"),
        "an unoptimised benchmark is meaningless"
    );
    assert_eq!(package.main, "fn main() {}\n");
}

#[test]
fn a_tag_pin_is_pinned_by_tag() {
    let package = materialise(
        "/tmp/sb-build-git",
        &request(SubjectSource::Git {
            repo: "https://github.com/sdd/kiddo".into(),
            reference: "v6.0.0-alpha.4".into(),
        }),
        false,
    );
    assert!(package.manifest.contains(r#"tag = "v6.0.0-alpha.4""#));
}

/// A full commit sha pins by `rev`, because that is what it is.
#[test]
fn a_sha_pin_is_pinned_by_rev() {
    let sha = "c299dde1".repeat(5); // 40 hex chars
    let package = materialise(
        "/tmp/sb-build-sha",
        &request(SubjectSource::Git {
            repo: "https://github.com/sdd/kiddo".into(),
            reference: sha.clone(),
        }),
        false,
    );
    assert!(package.manifest.contains(&format!("rev = \"{sha}\"")));
    assert!(!package.manifest.contains("tag ="));
}

/// The lockfile records what cargo actually resolved and fetched, so the run
/// header can quote it.
#[test]
fn built_subject_reads_version_and_sha_from_the_lock() {
    let lock = "[[package]]\nname = \"other\"\nversion = \"1.0.0\"\n\n\
         [[package]]\nname = \"kiddo\"\nversion = \"6.0.0-alpha.4\"\n\
         source = \"git+https://github.com/sdd/kiddo?tag=v6.0.0-alpha.4#c299dde1234567890abcdef\"\n";
    assert_eq!(
        built_subject(lock, "kiddo"),
        Some((
            "6.0.0-alpha.4".to_owned(),
            Some("c299dde1234567890abcdef".to_owned())
        ))
    );
    // A path dependency has no source line; the version still records.
    assert_eq!(
        built_subject(lock, "other"),
        Some(("1.0.0".to_owned(), None))
    );
    assert_eq!(built_subject(lock, "absent"), None);
    assert_eq!(built_subject("not = = toml", "kiddo"), None);
}

/// An installed binary with no reachable source tree depends on the
/// published crate instead — the branch that makes `cargo install`
/// self-contained once driver crates are published.
#[test]
fn a_registry_driver_depends_by_version() {
    let mut req = request(SubjectSource::Path("/w/kiddo".into()));
    req.driver_source = DriverSource::Registry {
        version: "0.1.0".into(),
    };
    let package = materialise("/tmp/sb-build-reg", &req, false);
    assert!(package
        .manifest
        .contains("spatial-bench-kiddo-v6 = \"0.1.0\""));
    assert!(!package.manifest.contains("path = \"/engine"));
}

/// Rewriting an identical file would bump its mtime and force cargo to
/// rebuild a package that has not changed.
#[test]
fn an_unchanged_package_is_not_rewritten() {
    let req = request(SubjectSource::Path("/w/kiddo".into()));
    let before = materialise("/tmp/sb-build-idem", &req, true);
    let after = materialise("/tmp/sb-build-idem", &req, true);
    assert_eq!(before.main, after.main);
    assert!(!write_if_changed(Some(&before.main), &after.main));
    assert!(!write_if_changed(Some(&before.manifest), &after.manifest));
    assert!(write_if_changed(None, &after.main));
    assert!(write_if_changed(Some("fn main() { }\n"), &after.main));
}

#[test]
fn an_engine_checkout_patches_its_own_crates() {
    let req = request(SubjectSource::Path("/w/kiddo".into()));
    let with_engine = materialise("/b", &req, true).manifest;
    assert!(with_engine.contains("[patch.crates-io]"));
    assert!(with_engine.contains("path = \"/engine/crates/spatial-bench-core\""));
    assert!(!materialise("/b", &req, false).manifest.contains("[patch.crates-io]"));
}

#[test]
fn compiling_says_what_it_runs_and_how_it_failed() {
    let flags = isa_rustflags("avx2").map(|f| f.to_string());
    assert!(flags.is_some() && isa_rustflags("sse9").is_none());
    let command = compile("/b/kiddo/abc", &Version(1, 89, 0), Some(Version(1, 90, 0)), &flags);
    assert_eq!(command.dir, "/b/kiddo/abc");
    assert_eq!(command.rustflags, flags);
    assert_eq!(command.argv[0], "cargo");

    let exited = |success: bool| Outcome::Exited {
        success,
        code: Some(101),
        stdout: String::new(),
        stderr: "error[E0308]".into(),
    };
    assert_eq!(compiled(&exited(true)), Ok(()));
    assert_eq!(
        compiled(&exited(false)),
        Err(BuildError::Cargo {
            status: Some(101),
            stderr: "error[E0308]".into()
        })
    );
    assert_eq!(
        compiled(&Outcome::NotStarted("no such file".into())),
        Err(BuildError::Spawn("no such file".into()))
    );
    let io = BuildError::Io {
        path: "p".into(),
        err: "denied".into(),
    };
    assert!(io.to_string().contains("denied"));
}

/// A manifest-pinned sha is enforced against what cargo actually resolved — a moved
/// tag is refused at build time, naming both revisions.
#[test]
fn a_moved_tag_is_refused_by_name() {
    let expected = "0123456789abcdef0123456789abcdef01234567";
    assert!(enforce_sha("kiddo", expected, Some(expected)).is_ok());

    let resolved = "fedcba9876543210fedcba9876543210fedcba98";
    let err = enforce_sha("kiddo", expected, Some(resolved)).unwrap_err();
    assert!(
        err.contains(expected) && err.contains(resolved) && err.contains("pin moved"),
        "{err}"
    );

    // No revision in the lockfile at all: unverifiable is also a refusal.
    assert!(enforce_sha("kiddo", expected, None).is_err());
}

// ---------------------------------------------------------------- exec environments

fn git_source(reference: &str) -> Source {
    Source {
        kind: "git".into(),
        repo: Some("https://example.com/lib".into()),
        package: None,
        pinned_ref: reference.into(),
        sha: None,
    }
}

fn ran(stdout: &str) -> Reply {
    Reply::Ran(Outcome::Exited {
        success: true,
        code: Some(0),
        stdout: stdout.into(),
        stderr: String::new(),
    })
}

/// What a host answers on which everything works and nothing exists yet.
fn answer(request: &Request, sha: &str) -> Reply {
    match request {
        Request::Run(argv) => {
            if argv.iter().any(|a| a == "rev-parse") {
                ran(&format!("{sha}\n"))
            } else if argv.iter().any(|a| a == "--version") {
                ran("tool 14.2\nmore\n")
            } else {
                ran("")
            }
        }
        Request::Read(path) => {
            if path.ends_with("shim.cpp") || path.ends_with("driver.py") {
                Reply::Text(Ok("source".into()))
            } else {
                Reply::Text(Err("no such file".into()))
            }
        }
        Request::Exists(_) => Reply::Present(false),
        _ => Reply::Done(Ok(())),
    }
}

fn fetch(source: &Source, expected: Option<String>, sha: &str) -> Result<(String, String), String> {
    let mut fetch = Fetch::start("nanoflann", source, expected, "/b/lib", 7)?;
    for _ in 0..20 {
        let reply = answer(&fetch.request(), sha);
        match fetch.next(&reply)? {
            FetchStep::Again(next) => fetch = next,
            FetchStep::Finished { dir, sha } => return Ok((dir, sha)),
        }
    }
    panic!("a fetch ends");
}

#[test]
fn a_fetch_lands_under_the_revision_it_found() {
    let sha = "0123456789abcdef0123456789abcdef01234567";
    let found = fetch(&git_source("v1.7.0"), None, sha).unwrap();
    assert_eq!(found, (format!("/b/lib/{sha}"), sha.to_string()));
    assert_eq!(fetch(&git_source(sha), None, sha).unwrap().1, sha);
    let other = "f".repeat(40);
    let err = fetch(&git_source("v1.7.0"), Some(other.clone()), sha).unwrap_err();
    assert!(err.contains(sha) && err.contains(&other), "{err}");
    let mut local = git_source("v1");
    local.kind = "pypi".into();
    assert!(fetch(&local, None, sha).is_err());
    let mut nowhere = git_source("v1");
    nowhere.repo = None;
    assert!(fetch(&nowhere, None, sha).unwrap_err().contains("declares no repo"));
}

fn inputs(lang: &str, entry: &str, cmake: Option<CmakeBuild>) -> ExecInputs {
    ExecInputs {
        manifest_dir: "/subjects/nanoflann".into(),
        lang: lang.into(),
        entry: entry.into(),
        build: Build {
            kind: "cxx".into(),
            shim: Some("shim.cpp".into()),
            std: Some("c++17".into()),
            flags: vec!["-O3".into()],
            compile_time_dims: vec![3, 4],
            include_dirs: vec!["include".into()],
            cmake,
        },
        source: git_source("v1.7.0"),
        expected_sha: None,
    }
}

fn build_cxx(inputs: &ExecInputs) -> (Vec<Request>, usize, Option<String>) {
    let mut asked = Vec::new();
    let mut build = match prepare_exec("nanoflann", inputs, "/b", 7) {
        Ok(ExecBuild::Cxx(b)) => b,
        _ => panic!("a cxx subject builds as one"),
    };
    for _ in 0..60 {
        let request = build.request();
        let reply = answer(&request, &"a".repeat(40));
        asked.push(request);
        match build.next(&reply).unwrap() {
            CxxStep::Again(next) => build = next,
            CxxStep::Finished { built, dir } => {
                assert!(built.program[0].starts_with(&dir), "{dir}");
                return (asked, built.combinations, built.resolved_sha);
            }
        }
    }
    panic!("a build ends");
}

/// The manifest declares dimensions 3 and 4: two specialisations in one binary.
#[test]
fn a_cxx_environment_builds_one_specialisation_per_dimension() {
    let (asked, combinations, sha) = build_cxx(&inputs("cxx", "shim.cpp", None));
    assert_eq!(combinations, 2);
    assert_eq!(sha, Some("a".repeat(40)));
    let compiles = asked.iter().any(|r| match r {
        Request::Run(argv) => argv.iter().any(|a| a == "-std=c++17"),
        _ => false,
    });
    assert!(compiles, "{asked:?}");
    let header = asked.iter().any(|r| match r {
        Request::Write { content, .. } => content == &dims_hpp(&vec![3, 4]),
        _ => false,
    });
    assert!(header, "{asked:?}");
    assert!(dims_hpp(&vec![3, 4]).contains("case 4: { f(std::integral_constant<int, 4>{}); return true; }"));
}

#[test]
fn a_cmake_recipe_fetches_its_dependency_first() {
    let recipe = CmakeBuild {
        source_dir: None,
        configure: vec!["-DTESTS=OFF".into()],
        target: Some("lib".into()),
        include_dirs: vec![],
        libraries: vec!["lib.a".into()],
        dependency: vec![CmakeDependency {
            name: "eigen".into(),
            repo: "https://example.com/eigen".into(),
            pinned_ref: "3.4".into(),
            sha: "a".repeat(40),
            cmake_var: "EIGEN_DIR".into(),
        }],
    };
    let (asked, _, _) = build_cxx(&inputs("cxx", "shim.cpp", Some(recipe)));
    let configured = asked.iter().any(|r| match r {
        Request::Run(argv) => {
            argv[0] == "cmake" && argv.iter().any(|a| a.starts_with("-DEIGEN_DIR="))
        }
        _ => false,
    });
    assert!(configured, "{asked:?}");
}

#[test]
fn a_python_environment_installs_the_pinned_package() {
    let mut inputs = inputs("python", "driver.py", None);
    inputs.source = Source {
        kind: "pypi".into(),
        repo: None,
        package: Some("pykdtree".into()),
        pinned_ref: "1.4.1".into(),
        sha: None,
    };
    assert_eq!(to_install("pykdtree", &inputs.source).unwrap(), "pykdtree==1.4.1");
    let mut build = match prepare_exec("pykdtree", &inputs, "/b", 7) {
        Ok(ExecBuild::Python(b)) => b,
        _ => panic!("a python subject builds as one"),
    };
    let mut marker = None;
    for _ in 0..20 {
        let request = build.request();
        let reply = answer(&request, "");
        if let Request::Write { content, .. } = &request {
            marker = Some(content.clone());
        }
        match build.next(&reply).unwrap() {
            PythonStep::Again(next) => build = next,
            PythonStep::Finished { built, .. } => {
                assert_eq!(marker.as_deref(), Some("pykdtree==1.4.1\n"));
                assert!(built.program[0].ends_with("venv/bin/python"));
                return;
            }
        }
    }
    panic!("a build ends");
}

#[test]
fn unknown_languages_are_refused() {
    assert!(prepare_exec("x", &inputs("fortran", "x.f90", None), "/b", 7).is_err());
}

// ---------------------------------------------------------------- the harness

fn spec() -> RunSpec {
    let mut tags = TagMap::new();
    tags.insert("impl", "kiddo_v6".into_tag_value());
    tags.insert("query", "exact_nn".into_tag_value());
    tags.insert("k", 1i32.into_tag_value());
    tags.insert("dims", 3i32.into_tag_value());
    tags.insert("axis", "f64".into_tag_value());
    tags.insert("tree_size", 1_048_576usize.into_tag_value());
    tags.insert("query_count", 1000usize.into_tag_value());
    RunSpec {
        harness_version: HARNESS_VERSION,
        budget: Budget::default(),
        cases: vec![CaseSpec {
            id: "kiddo_v6:0".into(),
            tags,
            dataset_generator: String::new(),
            dataset: "uniform".into(),
            random_seed: 42,
        }],
    }
}

/// A spec as it goes down the pipe.
fn spec_to_json(s: &RunSpec) -> String {
    let cases: Vec<serde_json::Value> = s
        .cases
        .iter()
        .map(|c| {
            let mut tags = serde_json::Map::new();
            for (key, value) in c.tags.entries() {
                let value = match value {
                    TagValue::Int(i) => serde_json::Value::from(*i),
                    TagValue::Bool(b) => serde_json::Value::from(*b),
                    other => serde_json::Value::from(other.to_string()),
                };
                tags.insert(key.clone(), value);
            }
            let mut case = serde_json::Map::new();
            case.insert("id".into(), serde_json::Value::from(c.id.clone()));
            case.insert("tags".into(), serde_json::Value::Object(tags));
            case.insert("dataset".into(), serde_json::Value::from(c.dataset.clone()));
            case.insert("random_seed".into(), serde_json::Value::from(c.random_seed));
            serde_json::Value::Object(case)
        })
        .collect();
    let mut spec = serde_json::Map::new();
    spec.insert("harness_version".into(), serde_json::Value::from(s.harness_version));
    spec.insert("cases".into(), serde_json::Value::from(cases));
    serde_json::to_string(&spec).unwrap()
}

/// The spec that a driver finds on its input.
fn spec_from_json(json: &str) -> Result<RunSpec, String> {
    let doc: serde_json::Value = serde_json::from_str(json).map_err(|e| e.to_string())?;
    let version = doc.get("harness_version").and_then(|v| v.as_u64());
    let cases = doc.get("cases").and_then(|v| v.as_array());
    let (version, cases) = match (version, cases) {
        (Some(v), Some(c)) => (v, c),
        _ => return Err("missing field".into()),
    };
    let cases = cases
        .iter()
        .map(|c| {
            let mut tags = TagMap::new();
            for (key, value) in c["tags"].as_object().unwrap() {
                let value = match value.as_i64() {
                    Some(i) => TagValue::Int(i),
                    None => TagValue::Word(value.as_str().unwrap().to_string()),
                };
                tags.insert(key, value);
            }
            CaseSpec {
                id: c["id"].as_str().unwrap().into(),
                tags,
                dataset_generator: String::new(),
                dataset: c["dataset"].as_str().unwrap().into(),
                random_seed: c["random_seed"].as_u64().unwrap(),
            }
        })
        .collect();
    Ok(RunSpec {
        harness_version: version as u32,
        budget: Budget::default(),
        cases,
    })
}

#[test]
fn spec_round_trips() {
    let json = spec_to_json(&spec());
    let back = read_spec(spec_from_json(&json)).unwrap();
    assert_eq!(back.cases[0].id, "kiddo_v6:0");
    assert_eq!(back.cases[0].integer("tree_size"), Some(1 << 20));
    assert_eq!(back.cases[0].word("query").as_deref(), Some("exact_nn"));
    assert_eq!(back.cases[0].random_seed, 42);
    assert_eq!(back.cases[0].integer("query"), None);
    assert!(matches!(
        read_spec(spec_from_json("not json")),
        Err(HarnessError::Malformed(_))
    ));
}

/// A driver built against an older contract must refuse, not guess.
#[test]
fn a_mismatched_contract_version_is_refused() {
    let mut s = spec();
    s.harness_version = 99;
    let json = spec_to_json(&s);
    assert!(matches!(
        read_spec(spec_from_json(&json)),
        Err(HarnessError::Version {
            expected: HARNESS_VERSION,
            found: 99
        })
    ));
}

/// The lines of a driver's output, each with what a parser made of it.
fn lines(output: &str, needs: &str) -> Vec<DriverLine<serde_json::Value>> {
    output
        .lines()
        .map(|line| {
            let item = match serde_json::from_str::<serde_json::Value>(line) {
                Err(e) => Err(e.to_string()),
                Ok(v) if v.get(needs).is_some() => Ok(v),
                Ok(_) => Err("missing field".to_string()),
            };
            DriverLine {
                text: Ok(line.to_string()),
                item,
            }
        })
        .collect()
}

const POINT: &str = "{\"tags\":{\"impl\":\"kiddo_v6\",\"k\":1},\"metrics\":{\"latency_ns\":{\"point\":131.2,\"lower\":131.0,\"upper\":131.4,\"unit\":\"ns/query\"}}}\n";

#[test]
fn points_round_trip_as_json_lines() {
    let buf = format!("{POINT}{POINT}");
    let back = read_points(lines(&buf, "metrics")).unwrap();
    assert_eq!(back.len(), 2);
    let point = back[0]["metrics"]["latency_ns"]["point"].as_f64().unwrap();
    assert!((point - 131.2).abs() < 1e-9);
}

/// A point that fails to parse is an error, not a silent drop: a missing
/// point is a hole in a comparison that nothing else would report.
#[test]
fn an_unparseable_line_is_an_error() {
    let input = "{\"not\": \"a point\"}\n";
    assert!(matches!(
        read_points(lines(input, "metrics")),
        Err(HarnessError::BadPoint { line: 1, .. })
    ));
}

#[test]
fn blank_lines_are_skipped() {
    let buf = format!("{POINT}\n\n");
    assert_eq!(read_points(lines(&buf, "metrics")).unwrap().len(), 1);
}

fn reg(k1: &str, v1: &str, k2: &str, v2: &str) -> Vec<(String, String)> {
    vec![
        (k1.to_owned(), v1.to_owned()),
        (k2.to_owned(), v2.to_owned()),
    ]
}

#[test]
fn registrations_round_trip_as_json_lines() {
    let a = reg("axis", "f64", "kiddo.stem", "eytzinger");
    let b = reg("axis", "f32", "kiddo.stem", "donnelly");
    let mut buf = String::new();
    for registration in [&a, &b] {
        let pairs = serde_json::to_string(registration).unwrap();
        buf.push_str(&format!("{{\"compile_time\":{pairs}}}\n"));
    }
    let back: Vec<Vec<(String, String)>> = read_registrations(lines(&buf, "compile_time"))
        .unwrap()
        .into_iter()
        .map(|v| serde_json::from_value(v["compile_time"].clone()).unwrap())
        .collect();
    assert_eq!(back, vec![a, b]);
}

/// Same line discipline as points: blank lines are nothing, a malformed
/// line is an error rather than a silently dropped registration — a drop
/// would read as a conformance match.
#[test]
fn registration_listing_rejects_malformed_lines() {
    assert_eq!(read_registrations(lines("\n", "compile_time")).unwrap().len(), 0);
    assert!(matches!(
        read_registrations(lines("{\"nope\": 1}\n", "compile_time")),
        Err(HarnessError::BadRegistration { line: 1, .. })
    ));
}

#[test]
fn a_failing_driver_is_named() {
    let unreadable: Vec<DriverLine<u32>> = vec![DriverLine {
        text: Err("closed".into()),
        item: Err(String::new()),
    }];
    assert_eq!(read_points(unreadable), Err(HarnessError::Io("closed".into())));
    let failed = Outcome::Exited {
        success: false,
        code: Some(3),
        stdout: String::new(),
        stderr: String::new(),
    };
    assert_eq!(
        drive("/b/driver", &failed),
        Err(HarnessError::DriverExit {
            binary: "/b/driver".into(),
            code: Some(3)
        })
    );
    assert_eq!(
        drive("/b/driver", &Outcome::NotStarted("denied".into())),
        Err(HarnessError::Spawn {
            binary: "/b/driver".into(),
            err: "denied".into()
        })
    );
}

// ---------------------------------------------------------------- perf

/// The shape of `perf stat -j`: string counter values, `:u` event suffixes,
/// `cpu-cycles` naming, and a `<not counted>` entry.
fn fixture() -> String {
    [
        r#"{"counter-value" : "12.345678", "unit" : "msec", "event" : "task-clock:u", "event-runtime" : 12345678}"#,
        r#"{"counter-value" : "48,120,331.000000", "unit" : "", "event" : "cpu-cycles:u"}"#,
        r#"{"counter-value" : "90412337.000000", "unit" : "", "event" : "instructions:u"}"#,
        r#"{"counter-value" : "20117.000000", "unit" : "", "event" : "branch-misses:u"}"#,
        r#"{"counter-value" : "<not counted>", "unit" : "", "event" : "LLC-load-misses:u"}"#,
        r#"{"counter-value" : "<not counted>", "unit" : "", "event" : "cycles:k"}"#,
        "",
    ]
    .join("\n")
}

fn readings(raw: &str) -> Floats {
    let entries = counter_texts(raw)
        .into_iter()
        .map(|t| {
            let reading = match t.parse::<f64>() {
                Err(_) => FloatReading::NotAFloat,
                Ok(v) => FloatReading::Finite(F64Ord {
                    bits: v.to_bits(),
                    text: format!("{v}"),
                }),
            };
            (t, reading)
        })
        .collect();
    Floats { entries }
}

#[test]
fn parses_the_known_counters_from_a_real_report() {
    let raw = fixture();
    let counters = counters_from_json(&raw, &readings(&raw)).unwrap();
    let find = |name: &str| -> &Counter {
        counters
            .iter()
            .find(|c| c.name == name)
            .unwrap_or_else(|| panic!("no {name} in {counters:?}"))
    };
    let value = |name: &str| find(name).value.parse::<f64>().unwrap();
    assert_eq!((find("cycles").name.as_str(), find("cycles").unit.as_str()), ("cycles", "count"));
    assert!(value("cycles") > 0.0, "a real workload has cycles");

    assert!(value("instructions") > 0.0);
    assert!(value("task_clock") > 0.0);
    assert!(value("branch_misses") >= 0.0);

    // The mapped metric names only: no perf spellings leak through.
    assert!(!counters.iter().any(|c| c.name == "cpu-cycles"));
    assert_eq!(value("cycles"), 48_120_331.0);
    assert_eq!(counters.len(), 4, "what never ran is not counted");
}

fn metric<'a>(metrics: &'a [(String, Metric)], name: &str) -> &'a Metric {
    &metrics.iter().find(|(n, _)| n == name).unwrap().1
}

/// `merge_counters` adds the counters to a point's open metrics map
/// without touching the latency the driver measured.
#[test]
fn counters_merge_onto_the_point_without_disturbing_latency() {
    let raw = fixture();
    let counters = counters_from_json(&raw, &readings(&raw)).unwrap();
    let mut metrics = vec![(
        "latency_ns".to_owned(),
        Metric {
            point: "77.5".into(),
            lower: Some("77.0".into()),
            upper: Some("78.0".into()),
            unit: "ns/query".to_owned(),
        },
    )];

    merge_counters(&mut metrics, &counters);
    assert_eq!(metric(&metrics, "latency_ns").point.parse::<f64>(), Ok(77.5));
    assert!(metric(&metrics, "cycles").point.parse::<f64>().unwrap() > 0.0);
    assert!(metric(&metrics, "instructions").point.parse::<f64>().unwrap() > 0.0);
    assert_eq!(metric(&metrics, "cycles").unit, "count");
    assert_eq!(metric(&metrics, "task_clock").unit, "ms");
    // A second report replaces the counters of the first.
    merge_counters(&mut metrics, &counters);
    assert_eq!(metrics.len(), 5);
}

/// An unparseable report is an error, not a silently empty point — but it
/// errors at the report read, leaving the point's own metrics intact.
#[test]
fn an_unreadable_report_is_an_error() {
    let err = counters_from_json("not json", &Floats::none()).unwrap_err();
    assert!(err.starts_with("perf's report line 1 is not JSON: "), "{err}");
    let late = counters_from_json("\n\n{}\nnot json\n", &Floats::none()).unwrap_err();
    assert!(late.starts_with("perf's report line 4 is not JSON: "), "{late}");
}

#[test]
fn perf_measures_one_case_per_process() {
    let program = vec!["/b/driver".to_string()];
    let call = perf_call("/tmp", 7, &program, &spec()).unwrap();
    assert_eq!(call.work_dir, "/tmp/spatial-bench-perf-7");
    assert_eq!(call.report, "/tmp/spatial-bench-perf-7/kiddo_v6_0.json");
    assert_eq!(
        call.argv,
        vec!["perf", "stat", "-j", "-o", "/tmp/spatial-bench-perf-7/kiddo_v6_0.json", "--", "/b/driver"]
    );
    let mut two = spec();
    two.cases.push(spec().cases.remove(0));
    assert!(perf_call("/tmp", 7, &program, &two).unwrap_err().ends_with("got 2"));
    assert_eq!(single_point(vec![5]), Ok(5));
    assert!(single_point::<u8>(vec![]).is_err());
    let failed = PerfRun::Exited {
        success: false,
        code: Some(1),
        stdout: String::new(),
    };
    assert!(perf_outcome(&failed, "/r.json").unwrap_err().ends_with("perf's report is at /r.json"));
    assert!(perf_outcome(&PerfRun::NotStarted("gone".into()), "/r").unwrap_err().contains("is it installed?"));
    assert!(perf_outcome(&PerfRun::NoInput, "/r").is_err());
    assert!(perf_outcome(&PerfRun::NotWritten("x".into()), "/r").is_err());
    assert!(perf_outcome(&PerfRun::NotWaited("x".into()), "/r").is_err());
}

// ---------------------------------------------------------------- measuring

#[test]
fn ids_are_sanitised_for_directory_names() {
    assert_eq!(safe_id("kiddo_v6:0"), "kiddo_v6_0");
    assert_eq!(safe_id("a/b c"), "a_b_c");
    assert_eq!(safe_id(""), "case");
    assert_eq!(safe_id(&safe_id("a/b c")), "a_b_c");
}

/// An impossible budget is refused with the reason, not silently clamped into a
/// measurement the contract did not ask for.
#[test]
fn an_impossible_budget_is_refused_not_clamped() {
    let too_few_samples = Budget {
        warm_up_ms: 10,
        measurement_ms: 100,
        sample_size: 5,
    };
    let err = check_budget(&too_few_samples, 1000).unwrap_err();
    assert!(err.contains("sample_size") && err.contains("10"), "{err}");

    let zero_warm_up = Budget {
        warm_up_ms: 0,
        measurement_ms: 100,
        sample_size: 10,
    };
    assert!(check_budget(&zero_warm_up, 1000)
        .unwrap_err()
        .contains("non-zero"));
    assert!(check_budget(&Budget::default(), 0).is_err());
    assert!(check_budget(&Budget::default(), 1000).is_ok());
}

#[test]
fn criterion_leaves_its_files_where_they_are_looked_for() {
    let files = criterion_files("/tmp", 7, "kiddo_v6:0");
    assert_eq!(files.out_dir, "/tmp/spatial-bench-driver-7");
    assert_eq!(files.estimates, "/tmp/spatial-bench-driver-7/kiddo_v6_0/new/estimates.json");
    assert_eq!(files.sample, "/tmp/spatial-bench-driver-7/kiddo_v6_0/new/sample.json");
    assert_eq!(sample_count(Some("{\"times\":[1.5,2.5,3.0]}")), Some(3));
    assert_eq!(sample_count(Some("{\"times\":7}")), None);
    assert_eq!(sample_count(Some("nope")), None);
    assert_eq!(sample_count(None), None);
}
