//! Charts, terminal images, datasets, submissions and what the command line prints.

use spatial_bench::chart::{
    bar_half_width, buffer_len, build_series, chart_spec, document_name, draws_bars, fractions,
    load_document, load_runs, newest, palette, require_data, require_documents, shows_image,
    skipped, ChartRequest, Kind, LoadedDoc, Rgb, Scale, Showing,
};
use spatial_bench::cli::{
    align_left, align_right, capture_lines, discover_chart, environment_note, fingerprint_line,
    human, install_guidance, machine_lines, render_pairs, selector_fault, subject_dir,
    subject_path, subject_paths, subjects_beside, subjects_dir,
};
use spatial_bench::dataset::{
    generate_uniform_f32, generate_uniform_f64, parse_options, query_seed, unit32, unit64,
    write_header, write_points, ByteOrder, ChaCha8, DType, Kind as Distribution,
};
use spatial_bench::fingerprint::FingerprintError;
use spatial_bench::kitty::{
    base64, likely_supported, probe, reserve, transmission, Image, TerminalHints, CHUNK,
};
use spatial_bench::layout::{bar_marks, legend, whisker};
use spatial_bench::machine::Machine;
use spatial_bench::package::Outcome;
use spatial_bench::selector::{SelectorError, SelectorSet};
use spatial_bench::submit::{
    counted_line, has_month, select_runs, RunFile, Submit, SubmitReply, SubmitRequest, SubmitStep,
};
use spatial_bench::tag::{F64Ord, FloatReading, Floats};
use spatial_bench::term::{cell_size, is_complete};

// ---------------------------------------------------------------- images in a terminal

fn decode64(data: &[u8]) -> Vec<u8> {
    fn val(c: u8) -> Option<u32> {
        match c {
            b'A'..=b'Z' => Some((c - b'A') as u32),
            b'a'..=b'z' => Some((c - b'a' + 26) as u32),
            b'0'..=b'9' => Some((c - b'0' + 52) as u32),
            b'+' => Some(62),
            b'/' => Some(63),
            _ => None,
        }
    }
    let mut out = Vec::new();
    let mut acc = 0u32;
    let mut bits = 0;
    for &c in data {
        if c == b'=' {
            break;
        }
        acc = (acc << 6) | val(c).unwrap();
        bits += 6;
        if bits >= 8 {
            bits -= 8;
            out.push((acc >> bits) as u8);
        }
    }
    out
}

#[test]
fn base64_round_trips() {
    for len in [0usize, 1, 2, 3, 4, 5, 100, 4095, 4096, 4097, 10_000] {
        let data: Vec<u8> = (0..len).map(|i| (i * 7 + 13) as u8).collect();
        let encoded = base64(&data);
        assert_eq!(decode64(&encoded), data, "length {len}");
    }
}

fn b64_len(bytes: usize) -> usize {
    bytes.div_ceil(3) * 4
}

#[test]
fn transmission_chunks_and_flags_are_wellformed() {
    // 8 pixels = 24 bytes RGB → base64 32 chars → one chunk.
    let image = Image {
        width: 4,
        height: 2,
        rgb: vec![0xAB; 24],
        cell_width_px: 10,
        cell_height_px: 20,
    };
    assert_eq!(image.cells(), (1, 1));
    let b64 = base64(&image.rgb);
    assert!(b64.len() <= CHUNK, "small images are one chunk");
    assert!(b64.starts_with(b"q6urq6ur"), "known prefix");

    // A large buffer splits into chunks of exactly CHUNK with correct m
    // flags: 1 for all but the last, 0 for the last.
    let big = vec![0u8; 6000 * 3];
    let encoded = base64(&big);
    let chunks: Vec<&[u8]> = encoded.chunks(CHUNK).collect();
    assert!(chunks.len() > 1);
    for (i, c) in chunks.iter().enumerate() {
        assert_eq!(c.len(), CHUNK.min(b64_len(6000 * 3) - i * CHUNK));
    }
    let frames = transmission(&Image {
        width: 100,
        height: 60,
        rgb: big,
        cell_width_px: 10,
        cell_height_px: 20,
    });
    assert_eq!(frames.len(), chunks.len());
    for (i, frame) in frames.iter().enumerate() {
        let more = if i + 1 < frames.len() { "m=1" } else { "m=0" };
        let control = frame.split(';').next().unwrap();
        assert!(control.ends_with(more), "{control}");
        assert_eq!(i == 0, control.contains("a=T"), "{control}");
    }
    let payload: String = frames
        .iter()
        .map(|f| f.split(';').nth(1).unwrap().trim_end_matches("\x1b\\"))
        .collect();
    assert_eq!(payload.as_bytes(), encoded.as_slice());
}

#[test]
fn terminals_are_asked_what_they_can_do() {
    let mut hints = TerminalHints {
        kitty_window: false,
        ghostty_resources: false,
        wezterm_executable: false,
        program: Some("xterm".into()),
    };
    assert!(!likely_supported(&hints));
    hints.kitty_window = true;
    assert!(likely_supported(&hints));
    assert!(probe(Some("\x1b_Gi=31;OK\x1b\\\x1b[?62c")));
    assert!(!probe(Some("\x1b[?62c")));
    assert!(!probe(None));
    assert_eq!(cell_size(Some("\x1b[6;20;10t")), (10, 20));
    assert_eq!(cell_size(Some("\x1b[6;36;18t")), (18, 36));
    assert_eq!(cell_size(Some("\x1b[6;0;18t")), (10, 20));
    assert_eq!(cell_size(None), (10, 20));
    assert!(is_complete("\x1b_Gi=31;OK\x1b\\\x1b[?62c") && !is_complete("\x1b_Gi=31;OK"));
    assert_eq!(reserve(2), "\r\n\r\n\n");
}

// ---------------------------------------------------------------- datasets

#[test]
fn the_stream_is_chacha_with_eight_rounds() {
    let mut rng = ChaCha8::new(42);
    let words: Vec<u32> = (0..40).map(|_| rng.next_u32()).collect();
    assert_eq!(words[..4], [962419617, 2928721845, 628724104, 4081401798]);
    assert_eq!(words[16..18], [2697858048, 3312488290]);
    assert_eq!(words[39], 328096864);
    assert_eq!(
        ChaCha8::new(42).next_u64(),
        (2928721845u64 << 32) | 962419617
    );
}

#[test]
fn units_are_the_floats_they_stand_for() {
    for k in [0u64, 1, 3, 0x1f_ffff_ffff_ffff, 6_141_803_123_456_789] {
        let expected = (k as f64) * (1.0 / 9007199254740992.0);
        assert_eq!(unit64(k), expected.to_bits(), "{k}");
    }
    for k in [0u32, 1, 3, 0xff_ffff, 7_654_321] {
        let expected = (k as f32) * (1.0 / 16777216.0);
        assert_eq!(unit32(k), expected.to_bits(), "{k}");
    }
}

#[test]
fn uniform_points_match_the_reference_stream() {
    let bytes = generate_uniform_f64(ByteOrder::Little, 42, 3, 2);
    assert_eq!(bytes.len(), 3 * 2 * 8);
    let first = f64::from_le_bytes(bytes[..8].try_into().unwrap());
    assert_eq!(first, 0.6818961923066714);
    let single = generate_uniform_f32(ByteOrder::Big, 42, 3, 2);
    assert_eq!(single.len(), 3 * 2 * 4);
    let first = f32::from_be_bytes(single[..4].try_into().unwrap());
    assert_eq!(first, ((962419617u32 >> 8) as f32) / 16777216.0);
}

#[test]
fn headers_tell_the_reader_what_follows() {
    let mut out = Vec::new();
    write_header(&mut out, ByteOrder::Little, 3, &DType::F64, 1000, 100);
    write_points(&mut out, &vec![1, 2, 3]);
    assert_eq!(&out[..4], b"SBDS");
    assert_eq!(out[4..8], 1u32.to_le_bytes());
    assert_eq!(out[8..12], 3u32.to_le_bytes());
    assert_eq!(out[12], 1);
    assert_eq!(out[13..21], 1000u64.to_le_bytes());
    assert_eq!(out[21..29], 100u64.to_le_bytes());
    assert_eq!(out[29..], [1, 2, 3]);
    assert_eq!(query_seed(42), 43);
    assert_eq!(query_seed(u64::MAX), 0);
    assert_eq!(DType::from_str("f32"), Some(DType::F32));
    assert_eq!(DType::from_str("f16"), None);
    assert_eq!(DType::F32.as_u8(), 0);
    assert_eq!(Distribution::from_str("gaussian"), Some(Distribution::Gaussian));
}

#[test]
fn options_fall_back_to_their_defaults() {
    let args = |line: &str| line.split(' ').map(|s| s.to_string()).collect::<Vec<_>>();
    let o = parse_options(&args("gen --dims 4 --dtype f32 --seed x --tree-count 7 --kind"));
    assert_eq!(o.dims, 4);
    assert_eq!(o.dtype, DType::F32);
    assert_eq!(o.seed, 42);
    assert_eq!((o.tree_count, o.query_count), (7, 100));
    assert_eq!(o.kind, "");
    assert_eq!(parse_options(&args("gen")).kind, "uniform");
}

// ---------------------------------------------------------------- charts

fn floats(texts: &[String]) -> Floats {
    let entries = texts
        .iter()
        .map(|t| {
            let reading = match t.parse::<f64>() {
                Ok(v) => FloatReading::Finite(F64Ord {
                    bits: v.to_bits(),
                    text: format!("{v}"),
                }),
                Err(_) => FloatReading::NotAFloat,
            };
            (t.clone(), reading)
        })
        .collect();
    Floats { entries }
}

fn document(run_id: &str, sizes: &[(u64, f64)]) -> String {
    let points: Vec<String> = sizes
        .iter()
        .map(|(size, y)| {
            format!(
                "{{\"tags\":{{\"impl\":\"kiddo\",\"tree_size\":{size}}},\
                 \"metrics\":{{\"latency_ns\":{{\"point\":{y},\"lower\":{y},\"unit\":\"ns\"}}}}}}"
            )
        })
        .collect();
    format!(
        "{{\"schema_version\":1,\"run\":{{\"run_id\":\"{run_id}\",\"started_at\":\"s\",\
         \"runner\":\"criterion\",\"machine_hash\":\"h\"}},\"points\":[{}]}}",
        points.join(",")
    )
}

fn loaded(text: &str) -> LoadedDoc {
    let readings = floats(&fractions(text));
    match load_document("doc.json", &Ok(text.to_string()), &readings) {
        Ok(d) => d,
        Err(e) => panic!("{}", e.to_string()),
    }
}

fn refused(text: &str) -> String {
    match load_document("doc.json", &Ok(text.to_string()), &Floats::none()) {
        Ok(_) => panic!("expected a refusal of {text}"),
        Err(e) => e.message,
    }
}

#[test]
fn documents_load_or_say_why_not() {
    let doc = loaded(&document("01A", &[(1024, 5.25)]));
    assert_eq!(doc.meta.run_id, "01A");
    assert_eq!(doc.measurements.len(), 1);
    assert_eq!(doc.measurements[0].series, "kiddo");
    assert_eq!(doc.measurements[0].y.as_deref(), Some("5.25"));
    assert_eq!(doc.measurements[0].upper, None);
    assert_eq!(refused("{}"), "missing schema_version");
    assert_eq!(refused("{\"schema_version\":9}"), "schema 9 is not ours");
    assert_eq!(refused("{\"schema_version\":1}"), "missing run");
    assert_eq!(refused("{\"schema_version\":1,\"run\":{}}"), "missing points");
    assert!(refused("nope").starts_with("bad JSON: "));
    let unread = load_document("d", &Err("denied".into()), &Floats::none());
    assert!(matches!(unread, Err(e) if e.message == "cannot read: denied"));
}

#[test]
fn the_newest_files_come_first() {
    let file = |n: &str| (n.to_string(), format!("/runs/{n}"));
    let files = vec![file("20260101"), file("20260301"), file("20260201")];
    let names: Vec<String> = newest(&files, 2).into_iter().map(|(n, _)| n).collect();
    assert_eq!(names, vec!["20260301".to_string(), "20260201".to_string()]);
    assert_eq!(newest(&files, 9).len(), 3);
    assert!(document_name("a.json") && !document_name("a.toml"));
}

#[test]
fn a_broken_document_does_not_hide_the_others() {
    let good = || load_document("a", &Ok(document("01A", &[])), &Floats::none());
    let bad = || load_document("b", &Ok("{}".into()), &Floats::none());
    let (docs, errors) = match load_runs(vec![good(), bad()]) {
        Ok(p) => p,
        Err(e) => panic!("{}", e.to_string()),
    };
    assert_eq!((docs.len(), errors.len()), (1, 1));
    assert!(skipped(&errors[0]).contains("missing schema_version"));
    assert!(load_runs(vec![bad()]).is_err());
    assert!(require_documents(&docs, &vec!["/runs".into()]).is_ok());
    assert!(require_documents(&vec![], &vec!["/runs".into()]).is_err());
}

#[test]
fn the_latest_measurement_of_a_place_wins() {
    let docs = vec![
        loaded(&document("02B", &[(2048, 9.5), (1024, 7.5)])),
        loaded(&document("01A", &[(1024, 5.5), (4096, 11.5)])),
    ];
    let sizes = floats(&["1024".into(), "2048".into(), "4096".into()]);
    let everything = SelectorSet::default();
    let chart = build_series(&docs, &everything, "latency_ns", Some("tree_size"), "impl", &sizes);
    assert_eq!(chart.len(), 1);
    assert_eq!(chart[0].name, "kiddo");
    let points: Vec<(f64, &str)> = chart[0]
        .points
        .iter()
        .map(|p| (f64::from_bits(p.x), p.y.as_deref().unwrap()))
        .collect();
    assert_eq!(points, vec![(1024.0, "7.5"), (2048.0, "9.5"), (4096.0, "11.5")]);
    assert!(require_data(&chart).is_ok());
    let none = build_series(&docs, &everything, "cycles", None, "impl", &sizes);
    assert!(none.is_empty() && require_data(&none).is_err());
}

fn chart_request() -> ChartRequest {
    ChartRequest {
        selects: vec!["impl=kiddo".into(), "k=1".into()],
        metric: "latency_ns".into(),
        x: Some("tree_size".into()),
        series: "impl".into(),
        kind: Kind::Auto,
        scale: Scale::Log,
        title: None,
        width: 80,
        height: 24,
        light: false,
    }
}

#[test]
fn a_chart_is_sized_in_cells() {
    let spec = chart_spec(&chart_request(), "criterion", (10, 20));
    assert_eq!((spec.width, spec.height), (800, 480));
    assert_eq!(buffer_len(&spec), 800 * 480 * 3);
    assert!(spec.log_y && spec.dark && !spec.bars);
    assert_eq!(
        spec.title,
        "latency_ns by impl — scaling (criterion)\nimpl=kiddo & k=1"
    );
    assert!(draws_bars(Kind::Auto, false) && !draws_bars(Kind::Auto, true));
    assert!(draws_bars(Kind::Bars, true) && !draws_bars(Kind::Lines, false));
    assert_eq!(bar_half_width(None, None), 40);
    assert_eq!(bar_half_width(Some(100), Some(160)), 20);
    assert_eq!(bar_half_width(Some(0), Some(3)), 8);
    assert_eq!(bar_half_width(Some(0), Some(3000)), 120);
    let light = palette(false);
    assert_eq!(light.bg, Rgb { r: 255, g: 255, b: 255 });
    assert_eq!(light.series.len(), palette(true).series.len());
}

#[test]
fn marks_stand_where_the_data_is() {
    let marks = bar_marks(100, 50, 400, 20, 13);
    assert_eq!((marks.foot, marks.head), ((80, 400), (120, 50)));
    assert_eq!((marks.value_at, marks.name_at), ((100, 33), (100, 410)));
    assert_eq!(whisker(Some(60), Some(40)), Some((40, 60)));
    assert_eq!(whisker(Some(40), None), None);
    let names = vec!["kiddo".to_string(), "nanoflann".to_string()];
    let place = legend(&names, 13, 21, 800).unwrap();
    // Nine letters at six pixels, and two lines of 21 to the sides.
    assert_eq!((place.left, place.right), (696, 792));
    assert_eq!((place.top, place.bottom), (33, 87));
    assert_eq!(place.rows.len(), 2);
    assert_eq!(place.rows[0].swatch, ((704, 46), (718, 56)));
    assert_eq!(place.rows[0].name_at, (724, 45));
    assert!(place.rows[1].swatch.0 .1 > place.rows[0].swatch.1 .1);
    assert!(place.rows[1].swatch.1 .1 < place.bottom);
    assert!(legend(&names, 13, 21, i32::MIN).is_none());
}

#[test]
fn an_image_is_shown_only_where_it_can_be() {
    let mut showing = Showing {
        no_image: false,
        saves: false,
        force_image: false,
        tty: true,
        likely_supported: true,
    };
    assert_eq!(shows_image(&showing), Ok(true));
    showing.tty = false;
    assert!(shows_image(&showing).unwrap_err().contains("kitty graphics protocol"));
    showing.force_image = true;
    assert_eq!(shows_image(&showing), Ok(true));
    showing.no_image = true;
    assert!(shows_image(&showing).unwrap_err().contains("--save"));
    showing.saves = true;
    assert_eq!(shows_image(&showing), Ok(false));
}

// ---------------------------------------------------------------- submissions

fn run_file(name: &str, dirty: bool, sha: &str) -> RunFile {
    RunFile {
        name: name.into(),
        path: format!("/runs/{name}"),
        text: Some(format!(
            "{{\"schema_version\":1,\"run\":{{\"machine_hash\":\"abc\",\"machine\":{{\"cpu_model\":\"Ryzen\",\"chipset\":null}},\
             \"source\":{{\"git_dirty\":{dirty}}},\"subjects\":{{\"kiddo\":{{\"sha\":{sha}}}}}}},\"points\":[]}}"
        )),
    }
}

#[test]
fn only_reproducible_runs_are_submitted() {
    let files = vec![
        run_file("20260804T1.json", false, "\"abc\""),
        run_file("20260804T2.json", true, "\"abc\""),
        run_file("20260804T3.json", false, "null"),
    ];
    let (runs, skipped) = select_runs(&files).unwrap();
    assert_eq!(runs.len(), 1);
    assert_eq!(runs[0].machine_hash, "abc");
    assert_eq!(skipped, 2);
    assert_eq!(counted_line(1, 2), "1 submittable run(s), 2 skipped");
    let none = select_runs(&listed(&files[1..]));
    assert!(none.unwrap_err().contains("2 skipped"));
    assert!(has_month("20260804T1.json") && !has_month("abc"));
}

/// The same run files in a list of their own.
fn listed(files: &[RunFile]) -> Vec<RunFile> {
    files
        .iter()
        .map(|f| RunFile {
            name: f.name.clone(),
            path: f.path.clone(),
            text: f.text.clone(),
        })
        .collect()
}

fn ran(stdout: &str) -> SubmitReply {
    SubmitReply::Ran(Outcome::Exited {
        success: true,
        code: Some(0),
        stdout: stdout.into(),
        stderr: String::new(),
    })
}

fn submission(status: &str) -> (Vec<SubmitRequest>, Option<String>) {
    let (runs, _) = select_runs(&vec![run_file("20260804T1.json", false, "\"abc\"")]).unwrap();
    let mut submit = Submit::start("/results", "/runs", "20260804T120000Z", runs);
    let mut asked = Vec::new();
    for _ in 0..40 {
        let request = submit.request();
        let reply = match &request {
            SubmitRequest::Exists(_) => SubmitReply::Present(false),
            SubmitRequest::RunIn { argv, .. } if argv[1] == "status" => ran(status),
            SubmitRequest::RunIn { .. } | SubmitRequest::Run(_) => ran(""),
            _ => SubmitReply::Done(Ok(())),
        };
        asked.push(request);
        match submit.next(&reply).unwrap() {
            SubmitStep::Next(next) => submit = next,
            SubmitStep::Finished { message, .. } => return (asked, message),
        }
    }
    panic!("a submission ends");
}

#[test]
fn a_submission_copies_records_and_proposes() {
    let (asked, message) = submission(" M datasets\n");
    assert_eq!(message.as_deref(), Some("submitted 1 run document(s)"));
    let copied = asked.iter().any(|r| matches!(r, SubmitRequest::Copy { to, .. }
        if to == "/results/datasets/2026-08/20260804T1.json"));
    assert!(copied, "{asked:?}");
    let recorded = asked.iter().any(|r| matches!(r, SubmitRequest::Write { path, content }
        if path.contains("abc") && content == "cpu_model = \"Ryzen\"\n"));
    assert!(recorded, "{asked:?}");
    assert!(matches!(asked.last(), Some(SubmitRequest::Run(argv)) if argv[0] == "gh"));
}

#[test]
fn nothing_new_is_not_committed() {
    let (asked, message) = submission("\n");
    assert_eq!(message, None);
    let committed = asked.iter().any(|r| matches!(r, SubmitRequest::RunIn { argv, .. }
        if argv[1] == "commit" || argv[1] == "push"));
    assert!(!committed, "{asked:?}");
}

// ---------------------------------------------------------------- the command line

#[test]
fn durations_read_like_durations() {
    assert_eq!(human(999), "0s");
    assert_eq!(human(59_999), "59s");
    assert_eq!(human(61_000), "1m01s");
    assert_eq!(human(3_600_000), "1h00m");
    assert_eq!(align_left("ab", 4), "ab  ");
    assert_eq!(align_right("ab", 4), "  ab");
    assert_eq!(align_left("abcde", 4), "abcde");
}

#[test]
fn subject_overrides_are_named_paths() {
    let found = subject_path("kiddo=/w/kiddo", &Ok("/w/kiddo".into())).unwrap();
    assert_eq!((found.name.as_str(), found.path.as_str()), ("kiddo", "/w/kiddo"));
    assert_eq!(subject_dir("kiddo=../kiddo").as_deref(), Some("../kiddo"));
    assert_eq!(subject_dir("kiddo"), None);
    assert!(subject_path("kiddo", &Ok("/w".into())).is_err());
    assert!(subject_path("kiddo=/nowhere", &Err("no such file".into())).is_err());
    let all = subject_paths(
        &vec!["a=/a".into(), "b=/b".into()],
        &vec![Ok("/a".into()), Ok("/b".into())],
    );
    assert_eq!(all.unwrap().len(), 2);
}

#[test]
fn places_are_looked_for_in_order() {
    assert_eq!(subjects_dir(Some("/s"), Some("/b")).unwrap(), "/s");
    assert_eq!(subjects_dir(None, Some("/b")).unwrap(), "/b");
    assert!(subjects_dir(None, None).is_err());
    assert!(subjects_beside("/w").starts_with("/w/"));
    let candidates = discover_chart(Some("/named"), Some("/beside"), &vec!["/usr/bin".into()]);
    assert_eq!(candidates[0], "/named");
    assert!(candidates.len() >= 1);
    assert!(!install_guidance(true).is_empty());
    assert_eq!(render_pairs(&vec![("axis".into(), "f64".into())]), "axis=f64");
}

#[test]
fn faults_are_told_in_words() {
    let fault = selector_fault(&SelectorError::UnknownKey("kk".into()));
    assert!(fault.contains("kk"), "{fault}");
    let lines = machine_lines(&Machine::unknown(), true);
    assert!(!lines.is_empty());
    let bad = fingerprint_line("/etc/fp", &Err(FingerprintError::NotRoot));
    assert!(bad.contains("/etc/fp"), "{bad}");
    assert!(capture_lines("/etc/fp", "abc").iter().any(|l| l.contains("abc")));
    assert!(environment_note("FP", "/etc/fp").contains("/etc/fp"));
}
