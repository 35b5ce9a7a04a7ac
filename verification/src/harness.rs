//! The harness contract: what the engine sends a driver, and what a driver must
//! send back.
//!
//! This is the comparability guarantee. Because the engine owns the harness for
//! every subject, every driver receives the same generator seeds, the same tree
//! sizes and the same query counts, and reports the same shape.
//!
//! Transport is deliberately dull: a [`RunSpec`] as JSON on stdin, points as JSON
//! Lines on stdout, diagnostics on stderr. Any language can implement it.

use crate::package::{code_string, code_text, Outcome};
use crate::tag::{render, TagMap, TagV, TagValue};
use crate::text::{debug_text, dec, decimal, quoted, trim, trimmed};
use vstd::prelude::*;

verus! {

/// Bumped when the contract changes shape. A driver refuses a spec it does not
/// recognise rather than guessing.
pub const HARNESS_VERSION: u32 = 2;

/// Fixed seeds, so every subject in a run sees byte-identical data and two runs are
/// comparable. They are part of the contract, not a per-driver choice and not a
/// per-run setting: changing them changes every number ever recorded.
pub const POINT_SEED: u64 = 0x5eed_0000_0000_0301;

pub const QUERY_SEED: u64 = 0x5eed_0000_0000_0302;

#[derive(Clone, Copy, Debug, PartialEq, Eq, Structural)]
pub struct Budget {
    pub warm_up_ms: u64,
    pub measurement_ms: u64,
    pub sample_size: u32,
}

impl Default for Budget {
    fn default() -> (r: Self)
        ensures
            r == (Budget { warm_up_ms: 3_000, measurement_ms: 5_000, sample_size: 30 }),
    {
        Budget { warm_up_ms: 3_000, measurement_ms: 5_000, sample_size: 30 }
    }
}

/// One data point to measure. Its tags are already fully resolved: the compile-time
/// axes were baked in when the driver was generated, and the runtime axes are here.
#[derive(Debug)]
pub struct CaseSpec {
    pub id: String,
    pub tags: TagMap,
    /// The dataset generator binary path. The driver spawns it to obtain
    /// construction and query points.
    pub dataset_generator: String,
    /// The dataset kind, passed to the generator.
    pub dataset: String,
    /// The random seed, passed to the generator.
    pub random_seed: u64,
}

/// A [`CaseSpec`] by its contents.
pub struct CaseSpecV {
    pub id: Seq<char>,
    pub tags: Map<Seq<char>, TagV>,
    pub dataset_generator: Seq<char>,
    pub dataset: Seq<char>,
    pub random_seed: u64,
}

impl View for CaseSpec {
    type V = CaseSpecV;

    open spec fn view(&self) -> CaseSpecV {
        CaseSpecV {
            id: self.id@,
            tags: self.tags@,
            dataset_generator: self.dataset_generator@,
            dataset: self.dataset@,
            random_seed: self.random_seed,
        }
    }
}

impl Clone for CaseSpec {
    fn clone(&self) -> (r: Self)
        ensures
            r@ == self@,
    {
        let r = CaseSpec {
            id: self.id.clone(),
            tags: self.tags.clone(),
            dataset_generator: self.dataset_generator.clone(),
            dataset: self.dataset.clone(),
            random_seed: self.random_seed,
        };
        r
    }
}

#[derive(Debug)]
pub struct RunSpec {
    pub harness_version: u32,
    pub budget: Budget,
    pub cases: Vec<CaseSpec>,
}

/// A [`RunSpec`] by its contents.
pub struct RunSpecV {
    pub harness_version: u32,
    pub budget: Budget,
    pub cases: Seq<CaseSpecV>,
}

impl View for RunSpec {
    type V = RunSpecV;

    open spec fn view(&self) -> RunSpecV {
        RunSpecV {
            harness_version: self.harness_version,
            budget: self.budget,
            cases: Seq::new(self.cases@.len(), |i: int| self.cases@[i]@),
        }
    }
}

impl Clone for RunSpec {
    fn clone(&self) -> (r: Self)
        ensures
            r@ == self@,
    {
        let mut cases: Vec<CaseSpec> = Vec::new();
        let mut i: usize = 0;
        while i < self.cases.len()
            invariant
                i <= self.cases@.len(),
                cases@.len() == i,
                forall|j: int| 0 <= j < i ==> (#[trigger] cases@[j])@ == self.cases@[j]@,
            decreases self.cases@.len() - i,
        {
            cases.push(self.cases[i].clone());
            i = i + 1;
        }
        let r = RunSpec {
            harness_version: self.harness_version,
            budget: self.budget,
            cases,
        };
        assert(r@.cases =~= self@.cases);
        r
    }
}

/// What went wrong between the engine and a driver.
#[allow(inconsistent_fields)]
#[derive(Debug, PartialEq, Eq)]
pub enum HarnessError {
    Version { expected: u32, found: u32 },
    Malformed(String),
    BadPoint { line: usize, err: String },
    /// A registration-list line (the driver's `--list` mode) failed to parse.
    BadRegistration { line: usize, err: String },
    Io(String),
    /// The driver binary could not be spawned at all.
    Spawn { binary: String, err: String },
    /// The driver exited non-zero; its diagnostics are on stderr, inherited.
    DriverExit { binary: String, code: Option<i32> },
}

/// A [`HarnessError`] by its contents.
#[allow(inconsistent_fields)]
pub enum HarnessErrorV {
    Version { expected: u32, found: u32 },
    Malformed(Seq<char>),
    BadPoint { line: usize, err: Seq<char> },
    BadRegistration { line: usize, err: Seq<char> },
    Io(Seq<char>),
    Spawn { binary: Seq<char>, err: Seq<char> },
    DriverExit { binary: Seq<char>, code: Option<i32> },
}

impl View for HarnessError {
    type V = HarnessErrorV;

    open spec fn view(&self) -> HarnessErrorV {
        match self {
            HarnessError::Version { expected, found } => HarnessErrorV::Version { expected: *expected, found: *found },
            HarnessError::Malformed(x) => HarnessErrorV::Malformed(x@),
            HarnessError::BadPoint { line, err } => HarnessErrorV::BadPoint { line: *line, err: err@ },
            HarnessError::BadRegistration { line, err } => HarnessErrorV::BadRegistration { line: *line, err: err@ },
            HarnessError::Io(x) => HarnessErrorV::Io(x@),
            HarnessError::Spawn { binary, err } => HarnessErrorV::Spawn { binary: binary@, err: err@ },
            HarnessError::DriverExit { binary, code } => HarnessErrorV::DriverExit { binary: binary@, code: *code },
        }
    }
}

impl CaseSpec {
    /// A runtime tag as an integer, e.g. `tree_size`.
    pub fn integer(&self, key: &str) -> (r: Option<i64>)
        ensures
            r == if self@.tags.contains_key(key@) {
                match self@.tags[key@] {
                    TagV::Int(i) => Some(i as i64),
                    _ => None,
                }
            } else {
                None
            },
    {
        match self.tags.get(key) {
            Some(TagValue::Int(i)) => Some(*i),
            _ => None,
        }
    }

    /// A runtime tag as a string, e.g. `query`.
    pub fn word(&self, key: &str) -> (r: Option<String>)
        ensures
            crate::text::option_text(r) == if self@.tags.contains_key(key@) {
                Some(render(self@.tags[key@]))
            } else {
                None
            },
    {
        match self.tags.get(key) {
            Some(v) => Some(v.to_string()),
            None => None,
        }
    }
}

/// Accept a spec that was read, or refuse one of another contract. Drivers call this;
/// it is here so every driver agrees on version checking.
pub fn read_spec(parsed: Result<RunSpec, String>) -> (r: Result<RunSpec, HarnessError>)
    ensures
        match parsed {
            Err(e) => r matches Err(f) && f@ == HarnessErrorV::Malformed(e@),
            Ok(spec) => if spec@.harness_version == HARNESS_VERSION {
                r == Ok::<RunSpec, HarnessError>(spec)
            } else {
                r matches Err(f) && f@ == (HarnessErrorV::Version {
                    expected: HARNESS_VERSION,
                    found: spec@.harness_version,
                })
            },
        },
{
    match parsed {
        Err(e) => Err(HarnessError::Malformed(e)),
        Ok(spec) => if spec.harness_version != HARNESS_VERSION {
            Err(
                HarnessError::Version { expected: HARNESS_VERSION, found: spec.harness_version },
            )
        } else {
            Ok(spec)
        },
    }
}

// ---------------------------------------------------------------- line discipline

/// A line that a driver printed, with what a parser makes of it.
pub struct DriverLine<T> {
    /// The line, or why it could not be read.
    pub text: Result<String, String>,
    /// The item it holds, or the parser's words.
    pub item: Result<T, String>,
}

/// A line without anything on it.
pub open spec fn blank<T>(line: DriverLine<T>) -> bool {
    line.text is Ok && trim(line.text->Ok_0@).len() == 0
}

/// How a line that does not parse is reported.
#[derive(Clone, Copy, Debug, PartialEq, Eq, Structural)]
pub enum Listing {
    Points,
    Registrations,
}

pub open spec fn bad_line(listing: Listing, line: usize, err: Seq<char>) -> HarnessErrorV {
    match listing {
        Listing::Points => HarnessErrorV::BadPoint { line, err },
        Listing::Registrations => HarnessErrorV::BadRegistration { line, err },
    }
}

/// What the lines of a listing hold: blank lines are skipped; the first line that
/// cannot be read or does not parse is an error rather than a silent drop, because a
/// dropped item is a hole in a comparison that nothing else would report.
pub open spec fn items_of<T>(lines: Seq<DriverLine<T>>, listing: Listing) -> Result<
    Seq<T>,
    HarnessErrorV,
>
    decreases lines.len(),
{
    if lines.len() == 0 {
        Ok(Seq::empty())
    } else {
        match items_of(lines.drop_last(), listing) {
            Err(e) => Err(e),
            Ok(items) => {
                let line = lines.last();
                match line.text {
                    Err(e) => Err(HarnessErrorV::Io(e@)),
                    Ok(_) => if blank(line) {
                        Ok(items)
                    } else {
                        match line.item {
                            Ok(t) => Ok(items.push(t)),
                            Err(e) => Err(bad_line(listing, lines.len() as usize, e@)),
                        }
                    },
                }
            },
        }
    }
}

proof fn items_stop<T>(lines: Seq<DriverLine<T>>, listing: Listing, i: int)
    requires
        0 <= i <= lines.len(),
        items_of(lines.take(i), listing) is Err,
    ensures
        items_of(lines, listing) == items_of(lines.take(i), listing),
    decreases lines.len() - i,
{
    if i < lines.len() {
        let t = lines.take(i + 1);
        assert(t.drop_last() =~= lines.take(i));
        items_stop(lines, listing, i + 1);
    } else {
        assert(lines.take(i) =~= lines);
    }
}

/// The items of a listing.
pub fn read_items<T>(lines: Vec<DriverLine<T>>, listing: Listing) -> (r: Result<
    Vec<T>,
    HarnessError,
>)
    ensures
        (match r {
            Ok(v) => Ok(v@),
            Err(e) => Err(e@),
        }) == items_of(lines@, listing),
{
    let ghost all = lines@;
    let mut rest = lines;
    let mut out: Vec<T> = Vec::new();
    let mut n: usize = 0;
    let len = rest.len();
    assert(all.skip(0) =~= all);
    assert(out@ =~= Seq::empty());
    assert(all.take(0) =~= Seq::empty());
    while n < len
        invariant
            n <= len,
            len == all.len(),
            all == lines@,
            rest@ == all.skip(n as int),
            items_of(all.take(n as int), listing) == Ok::<Seq<T>, HarnessErrorV>(out@),
        decreases len - n,
    {
        let ghost t = all.take(n + 1);
        proof {
            assert(t.drop_last() =~= all.take(n as int));
            assert(t.last() == all[n as int]);
            assert(rest@[0] == all[n as int]);
        }
        let line = rest.remove(0);
        assert(rest@ =~= all.skip(n + 1));
        n = n + 1;
        match line.text {
            Err(e) => {
                proof {
                    items_stop(all, listing, n as int);
                }
                return Err(HarnessError::Io(e));
            },
            Ok(text) => {
                if !trimmed(text.as_str()).is_empty() {
                    match line.item {
                        Ok(item) => {
                            out.push(item);
                        },
                        Err(err) => {
                            proof {
                                items_stop(all, listing, n as int);
                            }
                            return Err(
                                match listing {
                                    Listing::Points => HarnessError::BadPoint { line: n, err },
                                    Listing::Registrations => HarnessError::BadRegistration {
                                        line: n,
                                        err,
                                    },
                                },
                            );
                        },
                    }
                }
            },
        }
    }
    assert(all.take(len as int) =~= all);
    Ok(out)
}

/// The points that a driver printed.
pub fn read_points<T>(lines: Vec<DriverLine<T>>) -> (r: Result<Vec<T>, HarnessError>)
    ensures
        (match r {
            Ok(v) => Ok(v@),
            Err(e) => Err(e@),
        }) == items_of(lines@, Listing::Points),
{
    read_items(lines, Listing::Points)
}

/// A driver's registration list. Same line discipline as [`read_points`]: a silently
/// dropped registration would read as a conformance match.
pub fn read_registrations<T>(lines: Vec<DriverLine<T>>) -> (r: Result<Vec<T>, HarnessError>)
    ensures
        (match r {
            Ok(v) => Ok(v@),
            Err(e) => Err(e@),
        }) == items_of(lines@, Listing::Registrations),
{
    read_items(lines, Listing::Registrations)
}

/// How many lines are not blank.
pub open spec fn filled<T>(lines: Seq<DriverLine<T>>) -> nat
    decreases lines.len(),
{
    if lines.len() == 0 {
        0
    } else {
        filled(lines.drop_last()) + (if blank(lines.last()) {
            0nat
        } else {
            1nat
        })
    }
}

/// Nothing is dropped: a listing that reads gives one item for every line that is
/// not blank.
pub proof fn no_line_is_dropped<T>(lines: Seq<DriverLine<T>>, listing: Listing)
    requires
        items_of(lines, listing) is Ok,
    ensures
        items_of(lines, listing)->Ok_0.len() == filled(lines),
    decreases lines.len(),
{
    if lines.len() > 0 {
        no_line_is_dropped(lines.drop_last(), listing);
    }
}

// ---------------------------------------------------------------- driving

/// What a driver's end says: its output, or why there is none.
pub open spec fn driver_output(binary: Seq<char>, out: Outcome) -> Result<
    Seq<char>,
    HarnessErrorV,
> {
    match out {
        Outcome::NotStarted(e) => Err(HarnessErrorV::Spawn { binary, err: e@ }),
        Outcome::Exited { success, code, stdout, .. } => if success {
            Ok(stdout@)
        } else {
            Err(HarnessErrorV::DriverExit { binary, code })
        },
    }
}

/// What a run of a driver came to: the spec as JSON on stdin, points as JSON Lines on
/// stdout, diagnostics inherited on stderr.
pub fn drive(binary: &str, out: &Outcome) -> (r: Result<String, HarnessError>)
    ensures
        (match r {
            Ok(s) => Ok(s@),
            Err(e) => Err(e@),
        }) == driver_output(binary@, *out),
{
    match out {
        Outcome::NotStarted(e) => Err(
            HarnessError::Spawn { binary: binary.to_owned(), err: e.clone() },
        ),
        Outcome::Exited { success, code, stdout, .. } => if *success {
            Ok(stdout.clone())
        } else {
            Err(HarnessError::DriverExit { binary: binary.to_owned(), code: *code })
        },
    }
}

/// How an error of the harness is written.
pub open spec fn harness_error_text(e: HarnessErrorV) -> Seq<char> {
    match e {
        HarnessErrorV::Version { expected, found } => "Version { expected: "@ + dec(
            expected as nat,
        ) + ", found: "@ + dec(found as nat) + " }"@,
        HarnessErrorV::Malformed(s) => "Malformed("@ + debug_text(s) + ")"@,
        HarnessErrorV::BadPoint { line, err } => "BadPoint { line: "@ + dec(line as nat)
            + ", err: "@ + debug_text(err) + " }"@,
        HarnessErrorV::BadRegistration { line, err } => "BadRegistration { line: "@ + dec(
            line as nat,
        ) + ", err: "@ + debug_text(err) + " }"@,
        HarnessErrorV::Io(s) => "Io("@ + debug_text(s) + ")"@,
        HarnessErrorV::Spawn { binary, err } => "Spawn { binary: "@ + debug_text(binary)
            + ", err: "@ + debug_text(err) + " }"@,
        HarnessErrorV::DriverExit { binary, code } => "DriverExit { binary: "@ + debug_text(binary)
            + ", code: "@ + code_text(code) + " }"@,
    }
}

impl HarnessError {
    pub fn to_string(&self) -> (r: String)
        ensures
            r@ == harness_error_text(self@),
    {
        match self {
            HarnessError::Version { expected, found } => {
                let mut s = "Version { expected: ".to_owned();
                s.append(decimal(*expected as u64).as_str());
                s.append(", found: ");
                s.append(decimal(*found as u64).as_str());
                s.append(" }");
                s
            },
            HarnessError::Malformed(m) => {
                let mut s = "Malformed(".to_owned();
                s.append(quoted(m.as_str()).as_str());
                s.append(")");
                s
            },
            HarnessError::BadPoint { line, err } => {
                let mut s = "BadPoint { line: ".to_owned();
                s.append(decimal(*line as u64).as_str());
                s.append(", err: ");
                s.append(quoted(err.as_str()).as_str());
                s.append(" }");
                s
            },
            HarnessError::BadRegistration { line, err } => {
                let mut s = "BadRegistration { line: ".to_owned();
                s.append(decimal(*line as u64).as_str());
                s.append(", err: ");
                s.append(quoted(err.as_str()).as_str());
                s.append(" }");
                s
            },
            HarnessError::Io(m) => {
                let mut s = "Io(".to_owned();
                s.append(quoted(m.as_str()).as_str());
                s.append(")");
                s
            },
            HarnessError::Spawn { binary, err } => {
                let mut s = "Spawn { binary: ".to_owned();
                s.append(quoted(binary.as_str()).as_str());
                s.append(", err: ");
                s.append(quoted(err.as_str()).as_str());
                s.append(" }");
                s
            },
            HarnessError::DriverExit { binary, code } => {
                let mut s = "DriverExit { binary: ".to_owned();
                s.append(quoted(binary.as_str()).as_str());
                s.append(", code: ");
                s.append(code_string(code).as_str());
                s.append(" }");
                s
            },
        }
    }
}

} // verus!
