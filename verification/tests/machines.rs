//! Machines, fingerprints, run documents and their paths.

use spatial_bench::calendar::{chrono_like_timestamp, civil_from_days, utc_timestamp};
use spatial_bench::context::{pretty_os_name, probe, HostContext};
use spatial_bench::data::{json_to_toml, Data, Number};
use spatial_bench::digest::{base32_crockford, cache_key_of, hash_bytes, to_hex};
use spatial_bench::fingerprint::{
    checksum, path as fingerprint_path, toml_str, validate_for_run, Fingerprint, FingerprintError,
    Found, Privileged, RootReadings, Unprivileged, ValidatedHost, FINGERPRINT_SCHEMA,
};
use spatial_bench::machine::{
    count_processors, hash_components, is_root, meminfo_fits, parse_cpu_cores, parse_cpu_model,
    parse_dimm_timings, parse_dmidecode, parse_lspci_chipset, parse_meminfo_total, Board,
    Component, HostReadings, Machine, PrivilegedError, HASH_PREFIX_CHARS, HASH_SUFFIX_CHARS,
    UNKNOWN_SUFFIX,
};
use spatial_bench::schema::{
    basic_timestamp, result_path, slug, Context, IdClock, PathError, Run, Source, Toolchain,
};

fn full() -> Machine {
    let mut m = Machine::unknown();
    m.cpu_model = Some("AMD Ryzen 9 9950X 16-Core Processor".into());
    m.cpu_base_mhz = Some(4300);
    m.mem.speed_mts = Some(6000);
    m.mem.timings = Some("30-36-36-96".into());
    m.board = Board {
        vendor: Some("ASUSTeK".into()),
        name: Some("ROG STRIX X870E-E".into()),
    };
    m.chipset = Some("AMD X870E".into());
    m.refresh_observed();
    m
}

#[test]
fn hash_is_two_tiers_prefix_dash_suffix() {
    let h = full().hash();
    let (prefix, suffix) = h.split_once('-').expect("two-part shape");
    assert_eq!(prefix.len(), HASH_PREFIX_CHARS);
    assert_eq!(suffix.len(), HASH_SUFFIX_CHARS);
    assert!(
        h.chars()
            .all(|c| c.is_ascii_lowercase() || c.is_ascii_digit() || c == '-'),
        "{h}"
    );
}

/// The point of the two-part shape: what a run can verify differs between
/// an unprivileged probe and a capture, but the machine does not. The
/// prefix is identical; only the suffix moves, and an unverified probe
/// says UNKNOWN outright.
#[test]
fn the_prefix_survives_a_change_in_what_was_verified() {
    let capture = full();
    let mut probe = full();
    probe.mem.speed_mts = None;
    probe.mem.timings = None;
    probe.refresh_observed();

    assert_eq!(capture.unprivileged_hash(), probe.unprivileged_hash());
    assert_eq!(probe.privileged_hash(), UNKNOWN_SUFFIX);
    assert_ne!(capture.privileged_hash(), probe.privileged_hash());
    assert_ne!(capture.hash(), probe.hash());
}

#[test]
fn same_hardware_hashes_the_same() {
    assert_eq!(full().hash(), full().hash());
}

#[test]
fn changing_any_component_changes_the_hash() {
    let base = full().hash();
    let mut cpu = full();
    cpu.cpu_model = Some("AMD Ryzen 9 7950X 16-Core Processor".into());
    let mut mem = full();
    mem.mem.timings = Some("32-38-38-96".into());
    let mut board = full();
    board.board.name = Some("ROG STRIX B650E-F".into());
    for (label, other) in [
        ("cpu", cpu.hash()),
        ("mem timings", mem.hash()),
        ("board", board.hash()),
    ] {
        assert_ne!(base, other, "{label} change should break continuity");
    }
}

/// The point of hashing the observed set: a run without root did not verify
/// the same things as one with it, so it must not silently share a history.
#[test]
fn a_degraded_probe_does_not_collide_with_a_full_one() {
    let mut degraded = full();
    degraded.mem.speed_mts = None;
    degraded.mem.timings = None;
    degraded.refresh_observed();

    assert!(degraded.is_degraded());
    assert!(!full().is_degraded());
    assert_ne!(degraded.hash(), full().hash());
}

/// Two machines differing only in a component neither could read still hash
/// differently if anything they *did* read differs.
#[test]
fn degraded_hashes_still_distinguish_what_was_seen() {
    let mut a = full();
    a.mem.timings = None;
    a.refresh_observed();
    let mut b = a.clone();
    b.cpu_base_mhz = Some(3800);
    b.refresh_observed();
    assert_ne!(a.hash(), b.hash());
}

#[test]
fn explain_names_every_component_and_flags_degradation() {
    let text = full().explain();
    for component in hash_components() {
        assert!(
            text.contains(&format!("{component:?}")),
            "missing {component:?}"
        );
    }
    assert!(!text.contains("DEGRADED"));

    let mut partial = full();
    partial.mem.timings = None;
    partial.refresh_observed();
    let text = partial.explain();
    assert!(text.contains("DEGRADED"));
    assert!(text.contains("unreadable without root"));
}

// ---------------------------------------------------------------- parsers

const CPUINFO: &str = "processor\t: 0\nvendor_id\t: AuthenticAMD\nmodel name\t: AMD Ryzen 9 9950X 16-Core Processor\ncpu cores\t: 16\nprocessor\t: 1\n";

#[test]
fn cpuinfo_parses() {
    assert_eq!(
        parse_cpu_model(CPUINFO).as_deref(),
        Some("AMD Ryzen 9 9950X 16-Core Processor")
    );
    assert_eq!(parse_cpu_cores(CPUINFO), Some(16));
    assert_eq!(count_processors(CPUINFO), 2);
}

#[test]
fn meminfo_parses_kib_to_bytes() {
    // Rounded down to 64 MiB; a value already on a 64 MiB multiple is exact.
    assert_eq!(
        parse_meminfo_total("MemTotal:       32732160 kB\n"),
        Some(499 * (64 << 20))
    );
    assert_eq!(
        parse_meminfo_total("MemTotal:       32768000 kB\n"),
        Some(500 * (64 << 20))
    );
}

#[test]
fn dmidecode_prefers_configured_speed_and_skips_blank_parts() {
    let raw = "Memory Device\n\tSpeed: 5600 MT/s\n\tPart Number: F5-6000J3036G32GX2-TZ5NR\n\tConfigured Memory Speed: 6000 MT/s\n\tPart Number: Not Specified\n";
    let (speed, parts) = parse_dmidecode(raw);
    assert_eq!(speed, Some(6000));
    assert_eq!(parts, vec!["F5-6000J3036G32GX2-TZ5NR".to_owned()]);
}

/// An empty slot has no configured speed; the machine still runs at the other's.
#[test]
fn an_empty_slot_does_not_reset_the_configured_speed() {
    let out = "\tSpeed: 5600 MT/s\n\tConfigured Memory Speed: 6000 MT/s\n\tConfigured Memory Speed: Unknown\n";
    assert_eq!(parse_dmidecode(out), (Some(6000), vec![]));
    let later = format!("{out}\tConfigured Memory Speed: 5200 MT/s\n");
    assert_eq!(parse_dmidecode(&later).0, Some(5200));
}

#[test]
fn dmidecode_falls_back_to_rated_speed() {
    let (speed, _) = parse_dmidecode("\tSpeed: 5600 MT/s\n");
    assert_eq!(speed, Some(5600));
}

#[test]
fn dimm_timings_parse_four_hyphenated_numbers() {
    let raw = "---=== Timings at Standard Speed ===---\ntCL-tRCD-tRP-tRAS as DDR5-6000: 30-36-36-96\n";
    assert_eq!(parse_dimm_timings(raw).as_deref(), Some("30-36-36-96"));
    // Three groups, or none, is not a timing set.
    assert_eq!(parse_dimm_timings("tCL-tRCD-tRP-tRAS: 30-36-36\n"), None);
    assert_eq!(parse_dimm_timings("no numbers here\n"), None);
}

#[test]
fn lspci_takes_the_host_bridge_description() {
    let raw = "00:00.0 Host bridge: Advanced Micro Devices, Inc. [AMD] Device 1482 (rev 01)\n01:00.0 VGA compatible controller [0300]: AMD Device 1482\n";
    assert_eq!(
        parse_lspci_chipset(raw).as_deref(),
        Some("Advanced Micro Devices, Inc. [AMD] Device 1482")
    );
    // A trailing PCI ID, should lspci ever emit one, is stripped while the
    // embedded vendor bracket is not.
    let id = "00:00.0 Host bridge: Advanced Micro Devices, Inc. [AMD] Device 1482 [1022:1482]\n";
    assert_eq!(
        parse_lspci_chipset(id).as_deref(),
        Some("Advanced Micro Devices, Inc. [AMD] Device 1482")
    );
    assert_eq!(parse_lspci_chipset("no bridge here"), None);
}

fn host() -> HostReadings {
    HostReadings {
        cpuinfo: Some(CPUINFO.into()),
        base_frequency: Some("4300000\n".into()),
        nominal_freq: None,
        meminfo: Some("MemTotal:       32768000 kB\n".into()),
        board_vendor: Some("ASUSTeK\n".into()),
        board_name: Some("ROG STRIX X870E-E\n".into()),
        lspci: Some("00:00.0 Host bridge: AMD X870E (rev 01)\n".into()),
    }
}

#[test]
fn a_probe_reads_what_it_was_given() {
    assert!(meminfo_fits("MemTotal:       32768000 kB\n"));
    let machine = Machine::probe(&host());
    assert_eq!(machine.cpu_base_mhz, Some(4300));
    assert_eq!(machine.threads_online, Some(2));
    assert_eq!(machine.mem.total_bytes, Some(500 * (64 << 20)));
    assert_eq!(machine.chipset.as_deref(), Some("AMD X870E"));
    assert!(machine.is_degraded());
    assert!(machine.hash().ends_with("-UNKNOWN"));
    assert!(machine.has(Component::Board) && !machine.has(Component::MemTimings));
}

#[test]
fn privileged_readings_complete_a_probe() {
    let dmidecode = Some("\tConfigured Memory Speed: 6000 MT/s\n".to_string());
    let dimms = Some("tCL-tRCD-tRP-tRAS as DDR5-6000: 30-36-36-96\n".to_string());
    let mut machine = Machine::probe(&host());
    assert_eq!(
        machine.add_privileged(false, &dmidecode, &dimms),
        Err(PrivilegedError::NotRoot)
    );
    assert_eq!(
        machine.add_privileged(true, &None, &dimms),
        Err(PrivilegedError::DmidecodeMissing)
    );
    assert_eq!(machine.add_privileged(true, &dmidecode, &dimms), Ok(()));
    assert!(!machine.is_degraded());
    // A second look at the same machine sees the same components.
    let seen = machine.hash();
    machine.refresh_observed();
    assert_eq!(machine.hash(), seen);
    assert!(is_root("Name:\tx\nUid:\t0\t0\t0\t0\n"));
    assert!(!is_root("Name:\tx\nUid:\t1000\t0\t0\t0\n"));
}

// ---------------------------------------------------------------- fingerprints

fn fingerprint() -> Fingerprint {
    let mut machine = Machine::unknown();
    machine.cpu_model = Some("AMD Ryzen 9 9950X 16-Core Processor".into());
    machine.cpu_base_mhz = Some(4300);
    machine.mem.total_bytes = Some(64 * 1024 * 1024 * 1024);
    machine.mem.speed_mts = Some(6000);
    machine.mem.timings = Some("30-36-36-96".into());
    machine.mem.parts = vec!["F5-6000J3036G32GX2-TZ5NR".into()];
    machine.board = Board {
        vendor: Some("ASUSTeK".into()),
        name: Some("ROG STRIX X870E-E".into()),
    };
    machine.chipset = Some("Advanced Micro Devices, Inc. [AMD] Device 1482".into());
    machine.refresh_observed();

    Fingerprint {
        schema: FINGERPRINT_SCHEMA,
        taken: "2026-08-29T11:02:19Z".into(),
        machine: machine.hash(),
        unprivileged: Unprivileged {
            cpu_model: machine.cpu_model.clone(),
            cpu_base_mhz: machine.cpu_base_mhz,
            board_vendor: machine.board.vendor.clone(),
            board_name: machine.board.name.clone(),
            chipset: machine.chipset.clone(),
            mem_total_bytes: machine.mem.total_bytes,
        },
        privileged: Privileged {
            mem_speed_mts: machine.mem.speed_mts,
            mem_timings: machine.mem.timings.clone(),
            mem_parts: machine.mem.parts.clone(),
        },
        checksum: String::new(),
    }
}

/// The fingerprint that a file's text describes.
fn read_back(text: &str) -> Fingerprint {
    let file: toml::Value = toml::from_str(text).unwrap();
    let words = |v: Option<&toml::Value>| v.and_then(|v| v.as_str()).map(|s| s.to_string());
    let number = |v: Option<&toml::Value>| v.and_then(|v| v.as_integer());
    let unprivileged = file.get("unprivileged");
    let privileged = file.get("privileged");
    let up = |key: &str| unprivileged.and_then(|t| t.get(key));
    let p = |key: &str| privileged.and_then(|t| t.get(key));
    Fingerprint {
        schema: number(file.get("schema")).unwrap() as u32,
        taken: words(file.get("taken")).unwrap(),
        machine: words(file.get("machine")).unwrap(),
        unprivileged: Unprivileged {
            cpu_model: words(up("cpu_model")),
            cpu_base_mhz: number(up("cpu_base_mhz")).map(|n| n as u32),
            board_vendor: words(up("board_vendor")),
            board_name: words(up("board_name")),
            chipset: words(up("chipset")),
            mem_total_bytes: number(up("mem_total_bytes")).map(|n| n as u64),
        },
        privileged: Privileged {
            mem_speed_mts: number(p("mem_speed_mts")).map(|n| n as u32),
            mem_timings: words(p("mem_timings")),
            mem_parts: p("mem_parts")
                .and_then(|v| v.as_array())
                .map(|v| v.iter().map(|s| s.as_str().unwrap().to_string()).collect())
                .unwrap_or_default(),
        },
        checksum: words(file.get("checksum")).unwrap_or_default(),
    }
}

/// The round-trip the checksum depends on: parse what was written,
/// re-render, and the body is byte-identical.
#[test]
fn written_files_verify() {
    let loaded = read_back(&fingerprint().render_file());
    assert!(loaded.accept("fingerprint.toml").is_ok());
    assert_eq!(loaded.machine, fingerprint().machine);
    assert!(loaded.verify_checksum("fingerprint.toml").is_ok());
}

#[test]
fn the_body_round_trips_through_the_parser() {
    let file = fingerprint();
    let body = file.render_body();
    let parsed = read_back(&file.render_file());
    assert_eq!(parsed.render_body(), body);
    assert_eq!(parsed.checksum, checksum(&body));
}

/// An edited field invalidates the checksum: that is the whole point of
/// the field. `machine` is edited here because it is not covered by
/// validate_against — only the checksum catches it.
#[test]
fn an_edit_breaks_the_checksum() {
    let mut file = fingerprint();
    file.checksum = checksum(&file.render_body());
    assert!(file.verify_checksum("f").is_ok());

    file.machine = "zzzzzz".into();
    assert!(file.verify_checksum("f").is_err());
}

#[test]
fn hardware_change_is_detected_field_by_field() {
    let file = fingerprint();
    let mut host = file.machine().unwrap();

    assert!(file.validate_against(&host).is_ok());

    host.cpu_model = Some("AMD Ryzen 9 7950X".into());
    match file.validate_against(&host) {
        Err(FingerprintError::HardwareChanged {
            field,
            expected,
            found,
        }) => {
            assert_eq!(field, "cpu_model");
            assert_eq!(expected, "AMD Ryzen 9 9950X 16-Core Processor");
            assert_eq!(found, "AMD Ryzen 9 7950X");
        }
        other => panic!("expected HardwareChanged, got {other:?}"),
    }

    // A component that became unreadable is also a change: hardware did
    // not go away quietly.
    let mut unreadable = file.machine().unwrap();
    unreadable.chipset = None;
    assert!(matches!(
        file.validate_against(&unreadable),
        Err(FingerprintError::HardwareChanged { field, .. }) if field == "chipset"
    ));
}

/// A RAM upgrade is a hardware change: the total is compared even though
/// it is not a hash component.
#[test]
fn a_changed_memory_total_is_a_hardware_change() {
    let file = fingerprint();
    let mut host = file.machine().unwrap();
    assert!(file.validate_against(&host).is_ok());

    host.mem.total_bytes = Some(32 * 1024 * 1024 * 1024);
    assert!(matches!(
        file.validate_against(&host),
        Err(FingerprintError::HardwareChanged { field, expected, found })
            if field == "mem_total_bytes"
                && expected == "68719476736"
                && found == "34359738368"
    ));

    // Unreadable counts as changed, same as every other field.
    let mut unreadable = file.machine().unwrap();
    unreadable.mem.total_bytes = None;
    assert!(matches!(
        file.validate_against(&unreadable),
        Err(FingerprintError::HardwareChanged { field, .. }) if field == "mem_total_bytes"
    ));
}

/// The reconstructed machine carries the memory total, so the run-time
/// footprint warning works on fingerprinted machines — the check fires
/// there or nowhere, since the run's machine comes from the file.
#[test]
fn machine_reconstruction_carries_memory_total() {
    let machine = fingerprint().machine().unwrap();
    assert_eq!(machine.mem.total_bytes, Some(64 * 1024 * 1024 * 1024));
}

/// A degraded fingerprint (timings unreadable at capture) still validates
/// and still reconstructs a machine whose hash matches.
#[test]
fn a_degraded_capture_still_validates() {
    // Captured without decode-dimms: timings absent, so the hash excludes
    // them — and the recorded hash is the degraded one, or the file would
    // disagree with itself.
    let mut machine = fingerprint().machine().unwrap();
    machine.mem.timings = None;
    machine.refresh_observed();
    let mut file = fingerprint();
    file.machine = machine.hash();
    file.privileged.mem_timings = None;
    file.checksum = checksum(&file.render_body());

    let reloaded = file.machine().unwrap();
    assert!(reloaded.is_degraded());
    assert_eq!(reloaded.hash(), file.machine);
    assert!(file.validate_against(&machine).is_ok());
}

/// A fingerprint captured by a previous engine generation (hash width
/// changed under it) is not tampering: checksum intact, host matching.
/// A run bails by default — continuity is severed whether we like it or
/// not — but an operator who has opted out of fingerprint trust may
/// proceed, degraded.
#[test]
fn a_stale_generation_capture_bails_but_is_overridable() {
    let mut stale = Fingerprint::capture(&host(), None, "2026-08-29T11:02:19Z").unwrap();
    stale.machine = "abc123".into(); // a previous generation's 6-char width
    stale.checksum = checksum(&stale.render_body());
    let stale = read_back(&stale.render_file());

    let path = "fingerprint.toml";
    let err = match validate_for_run(path, &Found::File(stale.clone()), Machine::probe(&host()), false) {
        Err(e) => e,
        Ok(_) => panic!("a stale capture must not pass unnoticed"),
    };
    assert!(err.contains("previous engine generation"), "{err}");

    let host = validate_for_run(path, &Found::File(stale), Machine::probe(&host()), true).unwrap();
    // An unverified run records no fingerprint source.
    assert!(host.fingerprint.is_none());
    assert!(
        host.machine.is_degraded(),
        "an unverified run hashes what it probed"
    );
}

fn vouch(found: Found, allow: bool) -> Result<ValidatedHost, String> {
    validate_for_run("/etc/fp.toml", &found, Machine::probe(&host()), allow)
}

/// Allowing an unfingerprinted run does not let a mismatch pass.
#[test]
fn a_mismatch_is_not_overridable() {
    let unverified = vouch(Found::Nothing, true).unwrap();
    assert!(unverified.fingerprint.is_none() && unverified.warning.is_some());

    let captured = Fingerprint::capture(&host(), None, "2026-08-29T11:02:19Z").unwrap();
    let file = read_back(&captured.render_file());
    let verified = vouch(Found::File(file.clone()), true).unwrap();
    assert!(verified.fingerprint.is_some() && verified.warning.is_none());

    let mut edited = file;
    edited.taken = "2027".into();
    assert!(vouch(Found::File(edited), true).is_err());

    let mut elsewhere = host();
    elsewhere.cpuinfo = elsewhere.cpuinfo.map(|t| t.replace("model name\t: ", "model name\t: Other "));
    let other = Fingerprint::capture(&elsewhere, None, "2026-08-29T11:02:19Z").unwrap();
    let foreign = read_back(&other.render_file());
    assert!(vouch(Found::File(foreign), true).is_err());
}

#[test]
fn a_refused_fingerprint_says_why() {
    assert!(vouch(Found::Nothing, false).is_err());
    assert!(vouch(Found::Nothing, true).unwrap().fingerprint.is_none());
    assert!(vouch(Found::Unreadable("denied".into()), false).is_err());
    assert!(vouch(Found::Malformed("line 1".into()), false).is_err());

    let captured = Fingerprint::capture(
        &host(),
        Some(&RootReadings {
            root: true,
            dmidecode: Some("\tConfigured Memory Speed: 6000 MT/s\n".into()),
            decode_dimms: Some("tCL-tRCD-tRP-tRAS as DDR5-6000: 30-36-36-96\n".into()),
        }),
        "2026-08-29T11:02:19Z",
    )
    .unwrap();
    let file = read_back(&captured.render_file());
    let passed = vouch(Found::File(file.clone()), false).unwrap();
    assert_eq!(passed.fingerprint.as_deref(), Some("/etc/fp.toml"));
    assert!(!passed.machine.is_degraded());
    assert_eq!(passed.machine.hash(), file.machine);

    let mut other_schema = file.clone();
    other_schema.schema = 9;
    assert_eq!(
        other_schema.accept("p"),
        Err(FingerprintError::Schema {
            path: "p".into(),
            found: 9
        })
    );
    let mut edited = file.clone();
    edited.taken = "2027".into();
    assert_eq!(
        edited.accept("p"),
        Err(FingerprintError::Checksum { path: "p".into() })
    );
    let mut lying = file;
    lying.unprivileged.chipset = Some("Other".into());
    assert!(matches!(
        lying.machine(),
        Err(FingerprintError::MachineHashMismatch { .. })
    ));
}

#[test]
fn capture_needs_root_for_what_only_root_can_read() {
    let not_root = RootReadings {
        root: false,
        dmidecode: None,
        decode_dimms: None,
    };
    assert!(matches!(
        Fingerprint::capture(&host(), Some(&not_root), "t"),
        Err(FingerprintError::NotRoot)
    ));
    let no_tool = RootReadings {
        root: true,
        dmidecode: None,
        decode_dimms: None,
    };
    assert!(matches!(
        Fingerprint::capture(&host(), Some(&no_tool), "t"),
        Err(FingerprintError::DmidecodeMissing)
    ));
    let probed = Fingerprint::capture(&host(), None, "t").unwrap();
    assert!(probed.machine.ends_with("-UNKNOWN"));
    assert_eq!(fingerprint_path(Some("/x/fp.toml")), "/x/fp.toml");
    assert_eq!(fingerprint_path(None), "/etc/spatial-bench/fingerprint.toml");
}

/// The checksum is the first eight bytes of HMAC-SHA-256 under the published key.
#[test]
fn checksums_are_keyed_digests() {
    assert_eq!(checksum(""), "69:8f:67:ed:df:8b:5f:a2");
    assert_ne!(checksum("a"), checksum("b"));
    assert_eq!(toml_str("a\"b\\c"), "\"a\\\"b\\\\c\"");
}

// ---------------------------------------------------------------- digests

#[test]
fn digests_are_blake3() {
    assert_eq!(
        to_hex(&hash_bytes(b"")),
        "af1349b9f5f9a1a6a0404dea36dcc9499bcb25c9adc112b7cc9a93cae41f3262"
    );
    assert_eq!(base32_crockford(&[0xff, 0x00, 0xff, 0x00, 0xff], 8), "zw0fy07z");
    let bytes = [0xa1, 0xb2, 0xc3, 0xd4, 0xe5, 0xf6, 0x07, 0x18, 0x29, 0x3a];
    assert_eq!(base32_crockford(&bytes, 12), "3cp3tkjzc1rr");
    assert_eq!(base32_crockford(&bytes, 13), "b5gymwqv0e619");
    assert_eq!(cache_key_of("x").len(), 16);
    assert_ne!(cache_key_of("x"), cache_key_of("y"));
}

// ---------------------------------------------------------------- run documents

fn run() -> Run {
    Run {
        run_id: "01K2Y7F3M8QWABCD".into(),
        started_at: "2026-08-04T12:34:56.789Z".into(),
        finished_at: "2026-08-04T12:51:02.114Z".into(),
        runner: "criterion".into(),
        selectors: vec![],
        machine_hash: "k7f2qa".into(),
        machine: Machine::unknown(),
        context: Context {
            kernel: None,
            os: None,
            bench_profile: None,
            governor: None,
            smt: None,
            boost: None,
            isolated_cpus: None,
            fingerprint: None,
        },
        toolchain: Toolchain {
            rustc: "1.89.0".into(),
            host: "x86_64-unknown-linux-gnu".into(),
            target_cpu: None,
            rustflags: None,
            features: vec![],
            cargo_profile: "bench".into(),
            opt_level: None,
        },
        source: Source {
            git_sha: None,
            git_dirty: false,
            crate_version: "0".into(),
        },
        subjects: vec![],
    }
}

#[test]
fn builds_a_sortable_colon_free_path() {
    let path = result_path("datasets", &run()).unwrap();
    assert_eq!(
        path,
        "datasets/2026-08/20260804T123456Z-k7f2qa-criterion-01K2Y7F3.json"
    );
    assert!(!path.contains(':'), "colons are illegal on Windows");
}

/// Lexical order must equal chronological order, or a dataset directory
/// cannot be browsed or bisected by time.
#[test]
fn lexical_order_is_chronological() {
    let mut a = run();
    a.started_at = "2026-08-04T09:00:00Z".into();
    let mut b = run();
    b.started_at = "2026-08-04T12:34:56.789Z".into();
    let mut c = run();
    c.started_at = "2026-12-31T23:59:59Z".into();
    let root = "d";
    let mut paths: Vec<String> = [&a, &b, &c]
        .iter()
        .map(|r| result_path(root, r).unwrap())
        .collect();
    let sorted = {
        let mut p = paths.clone();
        p.sort();
        p
    };
    assert_eq!(paths, sorted);
    paths.dedup();
    assert_eq!(paths.len(), 3);
}

#[test]
fn month_directories_bound_directory_size() {
    let mut r = run();
    r.started_at = "2026-12-31T23:59:59Z".into();
    let path = result_path("d", &r).unwrap();
    assert!(path.starts_with("d/2026-12"));
}

#[test]
fn rejects_a_timestamp_it_cannot_read() {
    for bad in ["not-a-time", "2026-08-04", "2026-08-04T12:34"] {
        let mut r = run();
        r.started_at = bad.into();
        assert!(result_path("d", &r).is_err(), "{bad}");
    }
}

#[test]
fn path_errors_are_told_apart() {
    let mut r = run();
    r.run_id = "".into();
    assert_eq!(result_path("d", &r), Err(PathError::MissingRunId));
    assert_eq!(
        basic_timestamp("soon"),
        Err(PathError::BadTimestamp("soon".into()))
    );
    assert_eq!(PathError::MissingRunId.to_string(), "MissingRunId");
    assert_eq!(slug("a b/c"), "a-b-c");
}

// ---------------------------------------------------------------- run ids

const CROCKFORD: &[u8] = b"0123456789ABCDEFGHJKMNPQRSTVWXYZ";

/// The first 10 characters carry the 48-bit millisecond timestamp: digit 0
/// occupies bits 47..=45, digit i occupies 45-5i down.
fn decode_ms(id: &str) -> u128 {
    id.chars()
        .take(10)
        .enumerate()
        .map(|(i, c)| {
            let digit = CROCKFORD
                .iter()
                .position(|a| *a == c as u8)
                .expect("crockford");
            u128::from(digit as u32) << (45 - 5 * i)
        })
        .sum()
}

fn now_ms() -> u128 {
    std::time::SystemTime::now()
        .duration_since(std::time::UNIX_EPOCH)
        .unwrap_or_default()
        .as_millis()
}

fn ulid(clock: &mut IdClock, millis: u128) -> String {
    clock.ulid(millis, 123_456_789, 4242, 7)
}

#[test]
fn ulids_are_26_crockford_characters() {
    let id = ulid(&mut IdClock::new(), now_ms());
    assert_eq!(id.len(), 26, "{id}");
    assert!(id.chars().all(|c| CROCKFORD.contains(&(c as u8))), "{id}");
}

/// The whole point of the format: ids order by time, so a dataset or a
/// directory listing reads chronologically.
#[test]
fn ulids_sort_by_time() {
    let now = now_ms();
    let id = ulid(&mut IdClock::new(), now_ms());
    let decoded = decode_ms(&id);
    assert!(
        decoded.abs_diff(now) < 5_000,
        "decoded {decoded} vs wall clock {now}"
    );
}

/// Consecutive ids in one process never sort backwards and never collide,
/// including within a single millisecond — the monotonic guard.
#[test]
fn consecutive_ulids_are_strictly_increasing() {
    let mut clock = IdClock::new();
    let now = now_ms();
    let a = ulid(&mut clock, now);
    let b = ulid(&mut clock, now);
    assert!(a < b, "{a} then {b}");
    assert_ne!(a, b);

    // And the increase is in the value, not just the string: the pair
    // remains time-ordered when decoded.
    assert!(decode_ms(&a) <= decode_ms(&b));

    // A clock that went backwards does not take the ids with it.
    let c = ulid(&mut clock, now - 60_000);
    assert!(b < c, "{b} then {c}");
}

/// `result_path` ties the filename to the run id via its first eight
/// characters — with a ULID those are timestamp-derived, which is the
/// design's intent: the suffix is meaningful, and two real runs cannot
/// share them, since each takes far longer than the millisecond they
/// encode.
#[test]
fn a_generated_run_id_names_its_file() {
    let mut r = run();
    r.run_id = ulid(&mut IdClock::new(), now_ms());
    let path = result_path("d", &r).unwrap();
    let name = path.rsplit('/').next().unwrap();
    let first8: String = r.run_id.chars().take(8).collect();
    assert!(
        name.ends_with(&format!("-{first8}.json")),
        "{name} should end with {first8}"
    );
}

// ---------------------------------------------------------------- time and host context

#[test]
fn days_become_dates() {
    assert_eq!(civil_from_days(0), (1970, 1, 1));
    assert_eq!(civil_from_days(-1), (1969, 12, 31));
    assert_eq!(civil_from_days(11_016), (2000, 2, 29));
    assert_eq!(civil_from_days(20_669), (2026, 8, 4));
}

#[test]
fn seconds_become_timestamps() {
    assert_eq!(utc_timestamp(0), "1970-01-01T00:00:00Z");
    assert_eq!(utc_timestamp(1_785_847_496), "2026-08-04T12:44:56Z");
    assert_eq!(chrono_like_timestamp(1_785_847_496), "20260804-124456");
    assert_eq!(utc_timestamp(951_782_400), "2000-02-29T00:00:00Z");
    let clock = [0, 59, 60, 86_399, 86_400, 951_782_400, 1_785_847_496, 253_402_300_799];
    for pair in clock.windows(2) {
        assert!(utc_timestamp(pair[0]) < utc_timestamp(pair[1]));
    }
}

#[test]
fn the_host_context_is_read_leniently() {
    let host = HostContext {
        kernel: Some("6.18.0\n".into()),
        os_release: Some("NAME=\"Arch\"\nPRETTY_NAME=\"Arch Linux\"\n".into()),
        bench_profile: None,
        governor: Some("performance\n".into()),
        smt: Some("1\n".into()),
        boost: Some("0\n".into()),
        isolated_cpus: Some("\n".into()),
    };
    let context = probe(&host);
    assert_eq!(context.kernel.as_deref(), Some("6.18.0"));
    assert_eq!(context.os.as_deref(), Some("Arch Linux"));
    assert_eq!(context.governor.as_deref(), Some("performance"));
    assert_eq!((context.smt, context.boost), (Some(true), Some(false)));
    assert_eq!(pretty_os_name(&Some("ID=arch\n".into())), None);
}

// ---------------------------------------------------------------- documents as data

fn text(s: &str) -> Data {
    Data::Text(s.into())
}

#[test]
fn documents_become_toml_without_their_nulls() {
    let machine = Data::Table(vec![
        ("cpu_model".into(), text("Ryzen")),
        ("chipset".into(), Data::Null),
        ("degraded".into(), Data::Bool(false)),
        (
            "mem".into(),
            Data::Table(vec![(
                "speed_mts".into(),
                Data::Number(Number {
                    natural: Some(6000),
                    integer: Some(6000),
                    text: "6000".into(),
                }),
            )]),
        ),
    ]);
    let written = json_to_toml(&machine).unwrap();
    let back: toml::Value = toml::from_str(&written).unwrap();
    assert_eq!(back.get("cpu_model").and_then(|v| v.as_str()), Some("Ryzen"));
    assert_eq!(back.get("degraded").and_then(|v| v.as_bool()), Some(false));
    assert!(back.get("chipset").is_none());
    assert_eq!(
        back.get("mem")
            .and_then(|v| v.get("speed_mts"))
            .and_then(|v| v.as_integer()),
        Some(6000)
    );
    assert!(json_to_toml(&text("not a table")).is_err());
}

fn number(natural: Option<u64>, integer: Option<i64>, text: &str) -> Data {
    Data::Number(Number {
        natural,
        integer,
        text: text.into(),
    })
}

/// A number comes out as it went in, to the last bit.
#[test]
fn numbers_survive_the_way_to_toml() {
    for text in ["0.30000000000000004", "2.2250738585072014e-308", "7.038531e-26", "1.0"] {
        let doc = Data::Table(vec![("v".into(), number(None, None, text))]);
        let back: toml::Value = toml::from_str(&json_to_toml(&doc).unwrap()).unwrap();
        let got = back.get("v").and_then(|v| v.as_float()).unwrap();
        assert_eq!(got.to_bits(), text.parse::<f64>().unwrap().to_bits(), "{text}");
    }
    let small = number(None, Some(-7), "-7");
    let large = number(Some(u64::MAX), None, "18446744073709551615");
    assert_eq!(json_to_toml(&Data::Table(vec![("v".into(), small)])).unwrap(), "v = -7\n");
    assert!(json_to_toml(&Data::Table(vec![("v".into(), large)]))
        .err()
        .unwrap()
        .starts_with("JSON to TOML conversion: "));
    assert!(json_to_toml(&number(None, Some(1), "1"))
        .err()
        .unwrap()
        .starts_with("TOML serialization: "));
}
