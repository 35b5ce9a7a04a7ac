//! What the command line says: how results are rendered, and where things are looked
//! for.

use crate::calendar::{pad, padded};
use crate::case::{Case, CaseV};
use crate::catalog::{
    case_refs, declared_by, facts_in, matching_cases, point_refs, points_with_id, selected_points,
    varies, Catalog, CatalogV,
};
use crate::conform::{CaseKey, ConformReport, KeyV, SubjectConformance};
use crate::fingerprint::{
    capture_command, fingerprint_message, Fingerprint, FingerprintError, CAPTURE_COMMAND,
};
use crate::machine::{explanation, machine_hash, Machine, MachineV};
use crate::manifest::{manifest_error_text, ManifestError};
use crate::ordered::{ascending_where, ascending_where_is};
use crate::package::{toml_safe, toml_safe_path};
use crate::paths::{joined_path, path_join};
use crate::resolve::{overrides, SubjectPath, SubjectPathV};
use crate::results::{collect, collect_step, collect_stops};
use crate::run::{subject_names, subjects_of, RunPlan, SubjectPlanV};
use crate::selector::{selector_error_text, SelectorError, SelectorSet};
use crate::tag::{ascending, entry_map, expr_of, render as render_tag, TagMap, TagV, TagValue};
use crate::text::{
    dec, decimal, decimal_wide, find, find_bounds, join, joined, option_text, outcome_text,
    same, split_once, texts,
};
use crate::toolchain::{version_text, Version};
use crate::vocab::{lookup, writes_powers};
use vstd::prelude::*;

verus! {

// ---------------------------------------------------------------- columns

/// A text with space behind it, to a width.
pub open spec fn left_in(s: Seq<char>, width: nat) -> Seq<char> {
    if s.len() < width {
        s + Seq::new((width - s.len()) as nat, |i: int| ' ')
    } else {
        s
    }
}

/// A text with space before it, to a width.
pub open spec fn right_in(s: Seq<char>, width: nat) -> Seq<char> {
    if s.len() < width {
        Seq::new((width - s.len()) as nat, |i: int| ' ') + s
    } else {
        s
    }
}

fn spaces(n: usize) -> (r: String)
    ensures
        r@ == Seq::new(n as nat, |i: int| ' '),
{
    let mut s = String::new();
    let mut i: usize = 0;
    assert(s@ =~= Seq::new(0nat, |j: int| ' '));
    while i < n
        invariant
            i <= n,
            s@ == Seq::new(i as nat, |j: int| ' '),
        decreases n - i,
    {
        s.push(' ');
        i = i + 1;
        assert(s@ =~= Seq::new(i as nat, |j: int| ' '));
    }
    s
}

pub fn align_left(s: &str, width: usize) -> (r: String)
    ensures
        r@ == left_in(s@, width as nat),
{
    let n = s.unicode_len();
    let mut out = s.to_owned();
    if n < width {
        out.append(spaces(width - n).as_str());
    }
    out
}

pub fn align_right(s: &str, width: usize) -> (r: String)
    ensures
        r@ == right_in(s@, width as nat),
{
    let n = s.unicode_len();
    if n < width {
        let mut out = spaces(width - n);
        out.append(s);
        out
    } else {
        s.to_owned()
    }
}

// ---------------------------------------------------------------- durations

/// A duration for a reader, from seconds.
pub open spec fn human_text(secs: nat) -> Seq<char> {
    if secs < 60 {
        dec(secs) + "s"@
    } else if secs < 3600 {
        dec(secs / 60) + "m"@ + padded(dec(secs % 60), 2) + "s"@
    } else {
        dec(secs / 3600) + "h"@ + padded(dec((secs % 3600) / 60), 2) + "m"@
    }
}

/// A duration for a reader, from milliseconds.
pub fn human(ms: u128) -> (r: String)
    ensures
        r@ == human_text((ms / 1000) as nat),
{
    let secs: u128 = ms / 1000;
    if secs < 60 {
        let mut s = decimal_wide(secs);
        s.append("s");
        s
    } else if secs < 3600 {
        let mut s = decimal_wide(secs / 60);
        s.append("m");
        s.append(pad((secs % 60) as u64, 2).as_str());
        s.append("s");
        s
    } else {
        let mut s = decimal_wide(secs / 3600);
        s.append("h");
        s.append(pad(((secs % 3600) / 60) as u64, 2).as_str());
        s.append("m");
        s
    }
}

// ---------------------------------------------------------------- values and pairs

/// A value as it would be selected under a key.
pub fn render(key: &str, value: &TagValue) -> (r: String)
    ensures
        r@ == expr_of(value@, writes_powers(key@)),
{
    let powers = match lookup(key) {
        Some(d) => d.pow2,
        None => false,
    };
    value.to_expr(powers)
}

pub open spec fn pair_text(p: (Seq<char>, Seq<char>)) -> Seq<char> {
    p.0 + "="@ + p.1
}

pub open spec fn pairs_of(v: Seq<(String, String)>) -> KeyV {
    Seq::new(v.len(), |i: int| (v[i].0@, v[i].1@))
}

/// Pairs as they would stand in a selector.
pub open spec fn pairs_text(pairs: KeyV) -> Seq<char> {
    join(Seq::new(pairs.len(), |i: int| pair_text(pairs[i])), ","@)
}

/// A compile-time key as it would appear in a selector, for drift reports.
pub fn render_pairs(pairs: &Vec<(String, String)>) -> (r: String)
    ensures
        r@ == pairs_text(pairs_of(pairs@)),
{
    let ghost all = Seq::new(pairs@.len(), |i: int| pair_text(pairs_of(pairs@)[i]));
    let mut parts: Vec<String> = Vec::new();
    let mut i: usize = 0;
    while i < pairs.len()
        invariant
            i <= pairs@.len(),
            all == Seq::new(pairs@.len(), |i: int| pair_text(pairs_of(pairs@)[i])),
            parts@.len() == i,
            forall|j: int| 0 <= j < i ==> (#[trigger] parts@[j])@ == all[j],
        decreases pairs@.len() - i,
    {
        let mut s = pairs[i].0.clone();
        s.append("=");
        s.append(pairs[i].1.as_str());
        parts.push(s);
        i = i + 1;
    }
    assert(texts(parts@) =~= all);
    joined(&parts, ",")
}

// ---------------------------------------------------------------- where things are

/// What a `--subject-path` names, and what its directory resolved to.
pub open spec fn named_tree(raw: Seq<char>, resolved: Result<Seq<char>, Seq<char>>) -> Result<
    SubjectPathV,
    Seq<char>,
> {
    let at = find(raw, '=');
    if at >= raw.len() {
        Err("--subject-path wants NAME=DIR, got `"@ + raw + "`"@)
    } else {
        let name = raw.take(at);
        match resolved {
            Err(e) => Err("--subject-path "@ + name + ": "@ + raw.skip(at + 1) + ": "@ + e),
            Ok(dir) => if toml_safe(dir) {
                Ok(SubjectPathV { name, path: dir })
            } else {
                Err(
                    "--subject-path "@ + name
                        + ": the directory path contains a quote, backslash or newline, which cannot be written safely into a generated manifest"@,
                )
            },
        }
    }
}

/// Read one `--subject-path`: its name, and its directory as it was resolved. The path
/// is written into a generated manifest; a quote, backslash or newline in it would
/// corrupt that.
pub fn subject_path(raw: &str, resolved: &Result<String, String>) -> (r: Result<
    SubjectPath,
    String,
>)
    ensures
        (match r {
            Ok(p) => Ok(p@),
            Err(e) => Err(e@),
        }) == named_tree(raw@, outcome_text(*resolved)),
{
    proof {
        find_bounds(raw@, '=');
    }
    match split_once(raw, '=') {
        None => {
            let mut s = "--subject-path wants NAME=DIR, got `".to_owned();
            s.append(raw);
            s.append("`");
            Err(s)
        },
        Some((name, dir)) => match resolved {
            Err(e) => {
                let mut s = "--subject-path ".to_owned();
                s.append(name);
                s.append(": ");
                s.append(dir);
                s.append(": ");
                s.append(e.as_str());
                Err(s)
            },
            Ok(path) => if toml_safe_path(path.as_str()) {
                Ok(SubjectPath { name: name.to_owned(), path: path.clone() })
            } else {
                let mut s = "--subject-path ".to_owned();
                s.append(name);
                s.append(
                    ": the directory path contains a quote, backslash or newline, which cannot be written safely into a generated manifest",
                );
                Err(s)
            },
        },
    }
}

/// The directory that a `--subject-path` asks for, where it asks for one.
pub fn subject_dir(raw: &str) -> (r: Option<String>)
    ensures
        option_text(r) == (if find(raw@, '=') < raw@.len() {
            Some(raw@.skip(find(raw@, '=') + 1))
        } else {
            None
        }),
{
    proof {
        find_bounds(raw@, '=');
    }
    match split_once(raw, '=') {
        Some((_, dir)) => Some(dir.to_owned()),
        None => None,
    }
}

pub open spec fn named_trees(raws: Seq<Seq<char>>, resolved: Seq<Result<Seq<char>, Seq<char>>>) -> Seq<
    Result<SubjectPathV, Seq<char>>,
> {
    Seq::new(raws.len(), |i: int| named_tree(raws[i], resolved[i]))
}

pub open spec fn outcomes(v: Seq<Result<String, String>>) -> Seq<Result<Seq<char>, Seq<char>>> {
    Seq::new(v.len(), |i: int| outcome_text(v[i]))
}

/// The working trees given on the command line, the last given first: for a name that
/// is given twice the last one counts. The first fault refuses them all.
pub fn subject_paths(raws: &Vec<String>, resolved: &Vec<Result<String, String>>) -> (r: Result<
    Vec<SubjectPath>,
    String,
>)
    requires
        raws@.len() == resolved@.len(),
    ensures
        (match r {
            Ok(v) => Ok(overrides(v@)),
            Err(e) => Err(e@),
        }) == (match collect(named_trees(texts(raws@), outcomes(resolved@))) {
            Ok(s) => Ok(s.reverse()),
            Err(e) => Err(e),
        }),
{
    let ghost all = named_trees(texts(raws@), outcomes(resolved@));
    let mut out: Vec<SubjectPath> = Vec::new();
    let mut i: usize = 0;
    assert(all.take(0) =~= Seq::empty());
    assert(overrides(out@) =~= Seq::<SubjectPathV>::empty().reverse());
    while i < raws.len()
        invariant
            i <= raws@.len() == resolved@.len(),
            all == named_trees(texts(raws@), outcomes(resolved@)),
            collect(all.take(i as int)) is Ok,
            overrides(out@) == (collect(all.take(i as int))->Ok_0).reverse(),
        decreases raws@.len() - i,
    {
        proof {
            collect_step(all, i as int);
            assert(all[i as int] == named_tree(
                raws@[i as int]@,
                outcome_text(resolved@[i as int]),
            ));
        }
        match subject_path(raws[i].as_str(), &resolved[i]) {
            Err(e) => {
                proof {
                    collect_stops(all, i + 1);
                }
                return Err(e);
            },
            Ok(p) => {
                let ghost before = overrides(out@);
                let ghost seen = collect(all.take(i as int))->Ok_0;
                out.insert(0, p);
                proof {
                    assert(overrides(out@) =~= before.insert(0, p@));
                    assert(seen.push(p@).reverse() =~= seen.reverse().insert(0, p@));
                }
            },
        }
        i = i + 1;
    }
    assert(all.take(i as int) =~= all);
    Ok(out)
}

/// Where the catalog is looked for beside the engine: the conventional sibling
/// checkout.
pub fn subjects_beside(parent: &str) -> (r: String)
    ensures
        r@ == path_join(path_join(parent@, "spatial-bench-benchers"@), "subjects"@),
{
    joined_path(joined_path(parent, "spatial-bench-benchers").as_str(), "subjects")
}

/// The directory of the subject manifests: the one that was named, or the one found
/// beside the engine.
pub fn subjects_dir(named: Option<&str>, beside: Option<&str>) -> (r: Result<String, String>)
    ensures
        outcome_text(r) == (match (named, beside) {
            (Some(dir), _) => Ok(dir@),
            (None, Some(dir)) => Ok(dir@),
            (None, None) => Err(
                "cannot find the subjects directory. The catalog lives in the spatial-bench-benchers repo: pass --subjects <bencher>/subjects or set SPATIAL_BENCH_SUBJECTS"@,
            ),
        }),
{
    match (named, beside) {
        (Some(dir), _) => Ok(dir.to_owned()),
        (None, Some(dir)) => Ok(dir.to_owned()),
        (None, None) => Err(
            "cannot find the subjects directory. The catalog lives in the spatial-bench-benchers repo: pass --subjects <bencher>/subjects or set SPATIAL_BENCH_SUBJECTS".to_owned(),
        ),
    }
}

/// What is said when manifests do not load.
pub fn load_fault(dir: &str, e: &ManifestError) -> (r: String)
    ensures
        r@ == "loading manifests from "@ + dir@ + ": "@ + manifest_error_text(e@),
{
    let mut s = "loading manifests from ".to_owned();
    s.append(dir);
    s.append(": ");
    s.append(e.to_string().as_str());
    s
}

/// What is said of a selector that does not read.
pub fn selector_fault(e: &SelectorError) -> (r: String)
    ensures
        r@ == "bad selector: "@ + selector_error_text(e@),
{
    let mut s = "bad selector: ".to_owned();
    s.append(e.to_string().as_str());
    s
}

pub open spec fn chart_in(dir: Seq<char>) -> Seq<char> {
    path_join(dir, "spatial-bench-chart"@)
}

/// Where the charting tool is looked for, in order: where the environment says, beside
/// this program, then along the search path.
pub open spec fn chart_places(
    named: Option<Seq<char>>,
    beside: Option<Seq<char>>,
    path: Seq<Seq<char>>,
) -> Seq<Seq<char>> {
    (match named {
        Some(p) => seq![p],
        None => Seq::empty(),
    }) + (match beside {
        Some(dir) => seq![chart_in(dir)],
        None => Seq::empty(),
    }) + Seq::new(path.len(), |i: int| chart_in(path[i]))
}

pub fn discover_chart(named: Option<&str>, beside: Option<&str>, path: &Vec<String>) -> (r: Vec<
    String,
>)
    ensures
        texts(r@) == chart_places(
            match named {
                Some(p) => Some(p@),
                None => None,
            },
            match beside {
                Some(d) => Some(d@),
                None => None,
            },
            texts(path@),
        ),
{
    let mut out: Vec<String> = Vec::new();
    match named {
        Some(p) => {
            out.push(p.to_owned());
            assert(texts(out@) =~= seq![p@]);
        },
        None => {
            assert(texts(out@) =~= Seq::empty());
        },
    }
    let ghost first = texts(out@);
    match beside {
        Some(dir) => {
            out.push(joined_path(dir, "spatial-bench-chart"));
            assert(texts(out@) =~= first + seq![chart_in(dir@)]);
        },
        None => {
            assert(texts(out@) =~= first + Seq::empty());
        },
    }
    let ghost head = texts(out@);
    let ghost tail = Seq::new(path@.len(), |i: int| chart_in(texts(path@)[i]));
    let mut i: usize = 0;
    assert(texts(out@) =~= head + tail.take(0));
    while i < path.len()
        invariant
            i <= path@.len(),
            tail == Seq::new(path@.len(), |i: int| chart_in(texts(path@)[i])),
            texts(out@) == head + tail.take(i as int),
        decreases path@.len() - i,
    {
        let ghost before = texts(out@);
        let place = joined_path(path[i].as_str(), "spatial-bench-chart");
        out.push(place);
        proof {
            assert(texts(out@) =~= before.push(place@));
            assert(tail.take(i + 1) =~= tail.take(i as int).push(tail[i as int]));
            assert(texts(out@) =~= head + tail.take(i + 1));
        }
        i = i + 1;
    }
    assert(tail.take(i as int) =~= tail);
    out
}

/// The guidance when the charting tool is absent.
pub fn install_guidance(in_source: bool) -> (r: String)
    ensures
        r@
            == "the charting tool is not installed.\n\n  spatial-bench chart is provided by the `spatial-bench-charting` \\\n  crate, installed separately so the bench runner stays lean.\\n\n  Install it:\n      "@
            + (if in_source {
            "cargo install --path crates/spatial-bench-charting"@
        } else {
            "cargo install spatial-bench-charting"@
        }) + "\n\n  Or point SPATIAL_BENCH_CHART at an existing binary."@,
{
    let mut s =
        "the charting tool is not installed.\n\n  spatial-bench chart is provided by the `spatial-bench-charting` \\\n  crate, installed separately so the bench runner stays lean.\\n\n  Install it:\n      ".to_owned();
    s.append(
        if in_source {
            "cargo install --path crates/spatial-bench-charting"
        } else {
            "cargo install spatial-bench-charting"
        },
    );
    s.append("\n\n  Or point SPATIAL_BENCH_CHART at an existing binary.");
    s
}

// ---------------------------------------------------------------- conformance

/// What a line says of a subject's driver.
pub open spec fn conform_line(s: SubjectConformance, verdict: Seq<char>) -> Seq<char> {
    left_in(s.subject@, 20) + " "@ + dec(s.manifest_cases as nat) + " manifest cases, "@ + dec(
        s.driver_registrations as nat,
    ) + " driver registrations — "@ + verdict
}

pub open spec fn drift_lines(label: Seq<char>, keys: Seq<CaseKey>) -> Seq<Seq<char>> {
    Seq::new(keys.len(), |i: int| label + pairs_text(pairs_of(keys[i]@)))
}

/// What is said of a subject: that it matches, or how it drifted.
pub open spec fn conform_lines(s: SubjectConformance) -> Seq<Seq<char>> {
    if s.matches() {
        seq![conform_line(s, "match"@)]
    } else {
        seq![conform_line(s, "DRIFT"@)] + drift_lines(
            "  missing in driver: "@,
            s.missing_in_driver@,
        ) + drift_lines("  not in manifest:  "@, s.extra_in_driver@)
    }
}

fn add_drift(out: &mut Vec<String>, label: &str, keys: &Vec<CaseKey>)
    ensures
        texts(final(out)@) == texts(old(out)@) + drift_lines(label@, keys@),
{
    let ghost start = texts(out@);
    let ghost all = drift_lines(label@, keys@);
    let mut i: usize = 0;
    assert(texts(out@) =~= start + all.take(0));
    while i < keys.len()
        invariant
            i <= keys@.len(),
            all == drift_lines(label@, keys@),
            texts(out@) == start + all.take(i as int),
        decreases keys@.len() - i,
    {
        let ghost before = texts(out@);
        let mut s = label.to_owned();
        s.append(render_pairs(&keys[i]).as_str());
        out.push(s);
        proof {
            assert(texts(out@) =~= before.push(s@));
            assert(all.take(i + 1) =~= all.take(i as int).push(all[i as int]));
            assert(texts(out@) =~= start + all.take(i + 1));
        }
        i = i + 1;
    }
    assert(all.take(i as int) =~= all);
}

/// The lines of a conformance report for one subject.
pub fn conform_report(s: &SubjectConformance) -> (r: Vec<String>)
    ensures
        texts(r@) == conform_lines(*s),
{
    let good = s.is_match();
    let mut line = align_left(s.subject.as_str(), 20);
    line.append(" ");
    line.append(decimal(s.manifest_cases as u64).as_str());
    line.append(" manifest cases, ");
    line.append(decimal(s.driver_registrations as u64).as_str());
    line.append(" driver registrations — ");
    line.append(
        if good {
            "match"
        } else {
            "DRIFT"
        },
    );
    let mut out: Vec<String> = Vec::new();
    out.push(line);
    assert(texts(out@) =~= seq![line@]);
    if !good {
        add_drift(&mut out, "  missing in driver: ", &s.missing_in_driver);
        add_drift(&mut out, "  not in manifest:  ", &s.extra_in_driver);
    }
    out
}

/// Whether conformance holds, or what is said when a driver drifted.
pub fn conform_verdict(report: &ConformReport) -> (r: Result<(), String>)
    ensures
        r is Ok <==> forall|i: int|
            0 <= i < report.subjects@.len() ==> (#[trigger] report.subjects@[i]).matches(),
        r matches Err(e) ==> e@ == "conform failed: a driver does not match its manifest"@,
{
    if report.all_match() {
        Ok(())
    } else {
        Err("conform failed: a driver does not match its manifest".to_owned())
    }
}

// ---------------------------------------------------------------- listing

pub open spec fn shown_tags(entries: Seq<(String, TagValue)>) -> KeyV {
    Seq::new(entries.len(), |i: int| (entries[i].0@, render_tag(entries[i].1@)))
}

/// A point's tags as a selector would name them, by key.
pub fn tag_line(tags: &TagMap) -> (r: String)
    ensures
        exists|entries: Seq<(String, TagValue)>|
            #![trigger entry_map(entries)]
            ascending(entries) && tags@ == entry_map(entries) && r@
                == pairs_text(shown_tags(entries)),
{
    let entries = tags.entries();
    let mut pairs: Vec<(String, String)> = Vec::new();
    let mut i: usize = 0;
    while i < entries.len()
        invariant
            i <= entries@.len(),
            pairs@.len() == i,
            forall|j: int|
                0 <= j < i ==> (#[trigger] pairs@[j]).0@ == entries@[j].0@ && pairs@[j].1@
                    == render_tag(entries@[j].1@),
        decreases entries@.len() - i,
    {
        pairs.push((entries[i].0.clone(), entries[i].1.to_string()));
        i = i + 1;
    }
    assert(pairs_of(pairs@) =~= shown_tags(entries@));
    let r = render_pairs(&pairs);
    assert(tags@ == entry_map(entries@));
    r
}

/// What a case has under a column's key.
pub open spec fn cell(c: CaseV, key: Seq<char>) -> Seq<char> {
    left_in(
        if c.tags.dom().contains(key) {
            render_tag(c.tags[key])
        } else {
            "-"@
        },
        12,
    )
}

pub open spec fn cells(c: CaseV, columns: Seq<Seq<char>>) -> Seq<char>
    decreases columns.len(),
{
    if columns.len() == 0 {
        Seq::empty()
    } else {
        cells(c, columns.drop_last()) + cell(c, columns.last())
    }
}

pub open spec fn heads(columns: Seq<Seq<char>>) -> Seq<char>
    decreases columns.len(),
{
    if columns.len() == 0 {
        Seq::empty()
    } else {
        heads(columns.drop_last()) + left_in(columns.last(), 12)
    }
}

pub open spec fn table_row(c: CaseV, columns: Seq<Seq<char>>, points: nat) -> Seq<char> {
    left_in(c.subject, 20) + " "@ + cells(c, columns) + "  "@ + right_in(dec(points), 7)
}

pub open spec fn table_head(columns: Seq<Seq<char>>) -> Seq<char> {
    left_in("subject"@, 20) + " "@ + heads(columns) + "  "@ + right_in("points"@, 7)
}

/// The columns of a table: only the tags that actually differ across matching cases;
/// the ones every row shares would bury the distinctions.
pub open spec fn table_columns(cases: Seq<CaseV>) -> Seq<Seq<char>> {
    ascending_where(|k: Seq<char>| varies(cases, k))
}

pub open spec fn table_lines(
    cases: Seq<CaseV>,
    points: Seq<(CaseV, Map<Seq<char>, TagV>)>,
) -> Seq<Seq<char>> {
    let columns = table_columns(cases);
    seq![table_head(columns)] + Seq::new(
        cases.len(),
        |i: int| table_row(cases[i], columns, points_with_id(points, cases[i].id)),
    ) + seq!["\n"@ + dec(cases.len()) + " cases, "@ + dec(points.len()) + " points"@]
}

fn case_cells(tags: &TagMap, columns: &Vec<String>, Ghost(c): Ghost<CaseV>) -> (r: String)
    requires
        tags@ == c.tags,
    ensures
        r@ == cells(c, texts(columns@)),
{
    let ghost all = texts(columns@);
    let mut s = String::new();
    let mut i: usize = 0;
    assert(s@ =~= cells(c, all.take(0)));
    while i < columns.len()
        invariant
            i <= columns@.len(),
            all == texts(columns@),
            tags@ == c.tags,
            s@ == cells(c, all.take(i as int)),
        decreases columns@.len() - i,
    {
        proof {
            assert(all.take(i + 1).drop_last() =~= all.take(i as int));
            assert(all.take(i + 1).last() == columns@[i as int]@);
        }
        let text = match tags.get(columns[i].as_str()) {
            Some(v) => v.to_string(),
            None => "-".to_owned(),
        };
        s.append(align_left(text.as_str(), 12).as_str());
        i = i + 1;
    }
    assert(all.take(i as int) =~= all);
    s
}

fn column_heads(columns: &Vec<String>) -> (r: String)
    ensures
        r@ == heads(texts(columns@)),
{
    let ghost all = texts(columns@);
    let mut s = String::new();
    let mut i: usize = 0;
    assert(s@ =~= heads(all.take(0)));
    while i < columns.len()
        invariant
            i <= columns@.len(),
            all == texts(columns@),
            s@ == heads(all.take(i as int)),
        decreases columns@.len() - i,
    {
        proof {
            assert(all.take(i + 1).drop_last() =~= all.take(i as int));
            assert(all.take(i + 1).last() == columns@[i as int]@);
        }
        s.append(align_left(columns[i].as_str(), 12).as_str());
        i = i + 1;
    }
    assert(all.take(i as int) =~= all);
    s
}

fn count_points(points: &Vec<(&Case, TagMap)>, id: &str) -> (r: usize)
    ensures
        r == points_with_id(point_refs(points@), id@),
{
    let ghost all = point_refs(points@);
    let mut n: usize = 0;
    let mut i: usize = 0;
    assert(points_with_id(all.take(0), id@) == 0);
    while i < points.len()
        invariant
            i <= points@.len(),
            all == point_refs(points@),
            n <= i,
            n == points_with_id(all.take(i as int), id@),
        decreases points@.len() - i,
    {
        proof {
            assert(all.take(i + 1).drop_last() =~= all.take(i as int));
            assert(all.take(i + 1).last() == (points@[i as int].0@, points@[i as int].1@));
        }
        if same(points[i].0.id.as_str(), id) {
            n = n + 1;
        }
        i = i + 1;
    }
    assert(all.take(i as int) =~= all);
    n
}

/// The cases of a selection as a table.
pub fn list_table(catalog: &Catalog, selection: &SelectorSet) -> (r: Vec<String>)
    ensures
        texts(r@) == table_lines(
            matching_cases(catalog@, selection@),
            selected_points(catalog@, selection@),
        ),
{
    let cases = catalog.matching(selection);
    let points = catalog.points(selection);
    let columns = catalog.varying_keys(selection);
    let ghost all = case_refs(cases@);
    let ghost ps = point_refs(points@);
    let ghost cols = table_columns(all);
    proof {
        ascending_where_is(texts(columns@), |k: Seq<char>| varies(all, k));
    }
    let mut head = align_left("subject", 20);
    head.append(" ");
    head.append(column_heads(&columns).as_str());
    head.append("  ");
    head.append(align_right("points", 7).as_str());
    let mut out: Vec<String> = Vec::new();
    out.push(head);
    let ghost rows = Seq::new(
        all.len(),
        |i: int| table_row(all[i], cols, points_with_id(ps, all[i].id)),
    );
    let mut i: usize = 0;
    assert(texts(out@) =~= seq![table_head(cols)] + rows.take(0));
    while i < cases.len()
        invariant
            i <= cases@.len(),
            all == case_refs(cases@),
            ps == point_refs(points@),
            cols == texts(columns@),
            rows == Seq::new(
                all.len(),
                |i: int| table_row(all[i], cols, points_with_id(ps, all[i].id)),
            ),
            texts(out@) == seq![table_head(cols)] + rows.take(i as int),
        decreases cases@.len() - i,
    {
        let ghost before = texts(out@);
        let case = cases[i];
        let n = count_points(&points, case.id.as_str());
        let mut row = align_left(case.subject.as_str(), 20);
        row.append(" ");
        row.append(case_cells(&case.tags, &columns, Ghost(case@)).as_str());
        row.append("  ");
        row.append(align_right(decimal(n as u64).as_str(), 7).as_str());
        out.push(row);
        proof {
            assert(all[i as int] == case@);
            assert(row@ == rows[i as int]);
            assert(texts(out@) =~= before.push(row@));
            assert(rows.take(i + 1) =~= rows.take(i as int).push(rows[i as int]));
            assert(texts(out@) =~= seq![table_head(cols)] + rows.take(i + 1));
        }
        i = i + 1;
    }
    let ghost before = texts(out@);
    let mut foot = "\n".to_owned();
    foot.append(decimal(cases.len() as u64).as_str());
    foot.append(" cases, ");
    foot.append(decimal(points.len() as u64).as_str());
    foot.append(" points");
    out.push(foot);
    proof {
        assert(rows.take(i as int) =~= rows);
        assert(texts(out@) =~= before.push(foot@));
        assert(all.len() == cases@.len() && ps.len() == points@.len());
        assert(texts(out@) =~= table_lines(all, ps));
    }
    out
}

/// A subject, its pin, and how many cases it declares.
pub open spec fn subject_line(cat: CatalogV, name: Seq<char>) -> Seq<char> {
    left_in(name, 20) + " "@ + left_in(
        match facts_in(cat.subjects, name) {
            Some(f) => f.pinned_ref,
            None => Seq::empty(),
        },
        20,
    ) + " "@ + right_in(dec(declared_by(cat.cases, name).len()), 3) + " cases"@
}

/// The libraries under test, their pinned refs and case counts.
pub fn subject_lines(catalog: &Catalog) -> (r: Vec<String>)
    ensures
        texts(r@) == Seq::new(
            subjects_of(catalog@.cases).len(),
            |i: int| subject_line(catalog@, subjects_of(catalog@.cases)[i]),
        ),
{
    let cases = catalog.cases();
    let mut refs: Vec<&Case> = Vec::new();
    let mut i: usize = 0;
    while i < cases.len()
        invariant
            i <= cases@.len(),
            refs@.len() == i,
            forall|j: int| 0 <= j < i ==> (#[trigger] refs@[j])@ == cases@[j]@,
        decreases cases@.len() - i,
    {
        refs.push(&cases[i]);
        i = i + 1;
    }
    assert(case_refs(refs@) =~= catalog@.cases);
    let names = subject_names(&refs);
    let ghost want = subjects_of(catalog@.cases);
    let mut out: Vec<String> = Vec::new();
    let mut k: usize = 0;
    while k < names.len()
        invariant
            k <= names@.len(),
            texts(names@) == want,
            out@.len() == k,
            forall|j: int| 0 <= j < k ==> (#[trigger] out@[j])@ == subject_line(catalog@, want[j]),
        decreases names@.len() - k,
    {
        let name = names[k].as_str();
        assert(texts(names@)[k as int] == name@);
        let declared = catalog.for_subject(name);
        assert(case_refs(declared@).len() == declared@.len());
        let pin = match catalog.pinned_ref(name) {
            Some(p) => p,
            None => {
                let none = String::new();
                assert(none@ =~= Seq::empty());
                none
            },
        };
        let mut s = align_left(name, 20);
        s.append(" ");
        s.append(align_left(pin.as_str(), 20).as_str());
        s.append(" ");
        s.append(align_right(decimal(declared.len() as u64).as_str(), 3).as_str());
        s.append(" cases");
        out.push(s);
        k = k + 1;
    }
    assert(texts(out@) =~= Seq::new(want.len(), |i: int| subject_line(catalog@, want[i])));
    out
}

// ---------------------------------------------------------------- running

/// What is said before a run: how much it is, and how long it should take.
pub fn run_summary(cases: usize, points: usize, builds: usize, estimate: u128) -> (r: Result<
    String,
    String,
>)
    ensures
        outcome_text(r) == (if points == 0 {
            Err("that selection matches no data points"@)
        } else {
            Ok(
                dec(cases as nat) + " cases, "@ + dec(points as nat) + " points, "@ + dec(
                    builds as nat,
                ) + " build(s), ~"@ + human_text((estimate / 1000) as nat),
            )
        }),
{
    if points == 0 {
        return Err("that selection matches no data points".to_owned());
    }
    let mut s = decimal(cases as u64);
    s.append(" cases, ");
    s.append(decimal(points as u64).as_str());
    s.append(" points, ");
    s.append(decimal(builds as u64).as_str());
    s.append(" build(s), ~");
    s.append(human(estimate).as_str());
    Ok(s)
}

/// What is said of selected values that reach nothing; nothing where all do.
pub fn unsatisfied_warning(missing: &Vec<String>) -> (r: Option<String>)
    ensures
        option_text(r) == (if missing@.len() == 0 {
            None
        } else {
            Some("\nwarning: these reached no case at all: "@ + join(texts(missing@), ", "@))
        }),
{
    if missing.len() == 0 {
        return None;
    }
    let mut s = "\nwarning: these reached no case at all: ".to_owned();
    s.append(joined(missing, ", ").as_str());
    Some(s)
}

pub open spec fn toolchain_text(v: Option<Version>) -> Seq<char> {
    "toolchain: "@ + (match v {
        Some(v) => version_text(v),
        None => "none (no rust subjects)"@,
    })
}

pub fn toolchain_line(v: &Option<Version>) -> (r: String)
    ensures
        r@ == toolchain_text(*v),
{
    let mut s = "toolchain: ".to_owned();
    match v {
        Some(v) => s.append(v.to_string().as_str()),
        None => s.append("none (no rust subjects)"),
    }
    s
}

pub open spec fn plan_line(p: SubjectPlanV) -> Seq<char> {
    "  "@ + p.subject + ": "@ + dec(p.combinations as nat) + " combination(s), key "@ + p.cache_key
}

/// A dry run's plan as lines.
pub fn plan_lines(plan: &RunPlan) -> (r: Vec<String>)
    ensures
        texts(r@) == seq![toolchain_text(plan@.toolchain)] + Seq::new(
            plan@.subjects.len(),
            |i: int| plan_line(plan@.subjects[i]),
        ),
{
    let mut out: Vec<String> = Vec::new();
    out.push(toolchain_line(&plan.toolchain));
    let ghost head = seq![toolchain_text(plan@.toolchain)];
    let ghost all = Seq::new(plan@.subjects.len(), |i: int| plan_line(plan@.subjects[i]));
    let mut i: usize = 0;
    assert(texts(out@) =~= head + all.take(0));
    while i < plan.subjects.len()
        invariant
            i <= plan.subjects@.len(),
            all == Seq::new(plan@.subjects.len(), |i: int| plan_line(plan@.subjects[i])),
            texts(out@) == head + all.take(i as int),
        decreases plan.subjects@.len() - i,
    {
        let ghost before = texts(out@);
        let p = &plan.subjects[i];
        let mut s = "  ".to_owned();
        s.append(p.subject.as_str());
        s.append(": ");
        s.append(decimal(p.combinations as u64).as_str());
        s.append(" combination(s), key ");
        s.append(p.cache_key.as_str());
        out.push(s);
        proof {
            assert(plan@.subjects[i as int] == plan.subjects@[i as int]@);
            assert(texts(out@) =~= before.push(s@));
            assert(all.take(i + 1) =~= all.take(i as int).push(all[i as int]));
            assert(texts(out@) =~= head + all.take(i + 1));
        }
        i = i + 1;
    }
    assert(all.take(i as int) =~= all);
    out
}

// ---------------------------------------------------------------- the machine

pub open spec fn machine_lines_of(m: MachineV, explain: bool) -> Seq<Seq<char>> {
    if explain {
        seq![explanation(m)]
    } else if m.hash_observed.len() != m.hash_components.len() {
        seq![
            "machine "@ + machine_hash(m) + " (degraded)"@,
            "  some components are unreadable; a full hash needs `"@ + CAPTURE_COMMAND@ + "`"@,
        ]
    } else {
        seq!["machine "@ + machine_hash(m) + " (complete)"@]
    }
}

/// What is said of a machine.
pub fn machine_lines(machine: &Machine, explain: bool) -> (r: Vec<String>)
    ensures
        texts(r@) == machine_lines_of(machine@, explain),
{
    let mut out: Vec<String> = Vec::new();
    if explain {
        out.push(machine.explain());
        assert(texts(out@) =~= machine_lines_of(machine@, explain));
        return out;
    }
    let mut s = "machine ".to_owned();
    s.append(machine.hash().as_str());
    if machine.is_degraded() {
        s.append(" (degraded)");
        out.push(s);
        let mut t = "  some components are unreadable; a full hash needs `".to_owned();
        t.append(capture_command().as_str());
        t.append("`");
        out.push(t);
    } else {
        s.append(" (complete)");
        out.push(s);
    }
    assert(texts(out@) =~= machine_lines_of(machine@, explain));
    out
}

/// Whether this host still matches the fingerprint on record, in words.
pub fn fingerprint_line(path: &str, validated: &Result<Machine, FingerprintError>) -> (r: String)
    ensures
        r@ == (match *validated {
            Ok(m) => "fingerprint "@ + path@ + ": machine "@ + machine_hash(m@)
                + " matches this host"@,
            Err(e) => "fingerprint "@ + path@ + ": "@ + fingerprint_message(e@),
        }),
{
    let mut s = "fingerprint ".to_owned();
    s.append(path);
    match validated {
        Ok(m) => {
            s.append(": machine ");
            s.append(m.hash().as_str());
            s.append(" matches this host");
        },
        Err(e) => {
            s.append(": ");
            s.append(e.to_string().as_str());
        },
    }
    s
}

/// What a capture that writes nothing says.
pub fn capture_lines(path: &str, machine: &str) -> (r: Vec<String>)
    ensures
        texts(r@) == seq![
            "would write "@ + path@ + " (machine "@ + machine@ + ")"@,
            "capture the root-only block once per machine with `"@ + CAPTURE_COMMAND@ + "`"@,
        ],
{
    let mut a = "would write ".to_owned();
    a.append(path);
    a.append(" (machine ");
    a.append(machine);
    a.append(")");
    let mut b = "capture the root-only block once per machine with `".to_owned();
    b.append(capture_command().as_str());
    b.append("`");
    let mut out: Vec<String> = Vec::new();
    out.push(a);
    out.push(b);
    assert(texts(out@) =~= seq![a@, b@]);
    out
}

/// What is said before a capture is written where the environment names a path: a
/// privileged process often has its environment reset, so the path that was set may
/// not be the path that is written.
pub fn environment_note(named: &str, path: &str) -> (r: String)
    ensures
        r@ == "note: SPATIAL_BENCH_FINGERPRINT is set to "@ + named@
            + "; under sudo this variable may be dropped and the capture writes to "@ + path@
            + ". To keep the env path: sudo --preserve-env=SPATIAL_BENCH_FINGERPRINT …"@,
{
    let mut s = "note: SPATIAL_BENCH_FINGERPRINT is set to ".to_owned();
    s.append(named);
    s.append("; under sudo this variable may be dropped and the capture writes to ");
    s.append(path);
    s.append(". To keep the env path: sudo --preserve-env=SPATIAL_BENCH_FINGERPRINT …");
    s
}

/// What is said once a fingerprint is written.
pub fn written_lines(path: &str, file: &Fingerprint) -> (r: Vec<String>)
    ensures
        texts(r@) == seq![
            "wrote "@ + path@ + " (machine "@ + file.machine@ + ", taken "@ + file.taken@ + ")"@,
        ] + (if file.privileged.mem_timings is None {
            seq![
                "note: memory timings were unreadable (decode-dimms absent or theeeprom modules are not loaded), so the hash is degraded.This is normal on many boards."@,
            ]
        } else {
            Seq::empty()
        }),
{
    let mut a = "wrote ".to_owned();
    a.append(path);
    a.append(" (machine ");
    a.append(file.machine.as_str());
    a.append(", taken ");
    a.append(file.taken.as_str());
    a.append(")");
    let mut out: Vec<String> = Vec::new();
    out.push(a);
    assert(texts(out@) =~= seq![a@]);
    if file.privileged.mem_timings.is_none() {
        let ghost before = texts(out@);
        out.push(
            "note: memory timings were unreadable (decode-dimms absent or theeeprom modules are not loaded), so the hash is degraded.This is normal on many boards.".to_owned(),
        );
        assert(texts(out@) =~= before + seq![
            "note: memory timings were unreadable (decode-dimms absent or theeeprom modules are not loaded), so the hash is degraded.This is normal on many boards."@,
        ]);
    } else {
        assert(texts(out@) =~= seq![a@] + Seq::empty());
    }
    out
}

} // verus!
