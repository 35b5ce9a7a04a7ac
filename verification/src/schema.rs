//! The on-disk result schema: what a run records of itself, where its document
//! belongs, and how runs are named.
//!
//! One document per run. `SCHEMA_VERSION` gates every reader; charting tools refuse
//! anything they do not know.

use crate::digest::{be_value, blake3_digest, hash_bytes};
use crate::machine::{Machine, MachineV};
use crate::paths::{joined_path, path_join};
use crate::text::{
    chars, copy_option, copy_texts, debug_text, find, find_bounds, is_digit, option_text, quoted,
    text_of, texts, until, until_is_take,
};
use vstd::prelude::*;

verus! {

pub const SCHEMA_VERSION: u32 = 1;

/// A subject's build identity: the declared pin, the version cargo resolved, and the
/// revision it actually built.
///
/// A working-tree build has no revision to record: it records the pin it ignored and
/// marks the version as a working tree, so the dataset can reject it rather than
/// treating it as reproducible.
#[derive(Debug)]
pub struct SubjectProvenance {
    pub version: String,
    pub pinned_ref: String,
    pub sha: Option<String>,
}

/// A [`SubjectProvenance`] by its contents.
pub struct SubjectProvenanceV {
    pub version: Seq<char>,
    pub pinned_ref: Seq<char>,
    pub sha: Option<Seq<char>>,
}

impl View for SubjectProvenance {
    type V = SubjectProvenanceV;

    open spec fn view(&self) -> SubjectProvenanceV {
        SubjectProvenanceV {
            version: self.version@,
            pinned_ref: self.pinned_ref@,
            sha: option_text(self.sha),
        }
    }
}

impl Clone for SubjectProvenance {
    fn clone(&self) -> (r: Self)
        ensures
            r@ == self@,
    {
        let r = SubjectProvenance {
            version: self.version.clone(),
            pinned_ref: self.pinned_ref.clone(),
            sha: copy_option(&self.sha),
        };
        r
    }
}

/// One measured quantity. Its numbers are kept as they are written in a document.
#[derive(Debug)]
pub struct Metric {
    pub point: String,
    pub lower: Option<String>,
    pub upper: Option<String>,
    pub unit: String,
}

/// A [`Metric`] by its contents.
pub struct MetricV {
    pub point: Seq<char>,
    pub lower: Option<Seq<char>>,
    pub upper: Option<Seq<char>>,
    pub unit: Seq<char>,
}

impl View for Metric {
    type V = MetricV;

    open spec fn view(&self) -> MetricV {
        MetricV {
            point: self.point@,
            lower: option_text(self.lower),
            upper: option_text(self.upper),
            unit: self.unit@,
        }
    }
}

impl Clone for Metric {
    fn clone(&self) -> (r: Self)
        ensures
            r@ == self@,
    {
        let r = Metric {
            point: self.point.clone(),
            lower: copy_option(&self.lower),
            upper: copy_option(&self.upper),
            unit: self.unit.clone(),
        };
        r
    }
}

/// Run-level environment. Deliberately not part of point identity: this is what lets
/// one chart overlay the same case across kernels or boot profiles.
#[derive(Debug)]
pub struct Context {
    pub kernel: Option<String>,
    pub os: Option<String>,
    /// `None` on an unlabelled boot.
    pub bench_profile: Option<String>,
    pub governor: Option<String>,
    pub smt: Option<bool>,
    pub boost: Option<bool>,
    pub isolated_cpus: Option<String>,
    /// The fingerprint file this run validated against, when one existed. `None`
    /// means the run proceeded unverified, and the dataset should treat the machine
    /// hash accordingly.
    pub fingerprint: Option<String>,
}

/// A [`Context`] by its contents.
pub struct ContextV {
    pub kernel: Option<Seq<char>>,
    pub os: Option<Seq<char>>,
    pub bench_profile: Option<Seq<char>>,
    pub governor: Option<Seq<char>>,
    pub smt: Option<bool>,
    pub boost: Option<bool>,
    pub isolated_cpus: Option<Seq<char>>,
    pub fingerprint: Option<Seq<char>>,
}

impl View for Context {
    type V = ContextV;

    open spec fn view(&self) -> ContextV {
        ContextV {
            kernel: option_text(self.kernel),
            os: option_text(self.os),
            bench_profile: option_text(self.bench_profile),
            governor: option_text(self.governor),
            smt: self.smt,
            boost: self.boost,
            isolated_cpus: option_text(self.isolated_cpus),
            fingerprint: option_text(self.fingerprint),
        }
    }
}

impl Clone for Context {
    fn clone(&self) -> (r: Self)
        ensures
            r@ == self@,
    {
        let r = Context {
            kernel: copy_option(&self.kernel),
            os: copy_option(&self.os),
            bench_profile: copy_option(&self.bench_profile),
            governor: copy_option(&self.governor),
            smt: self.smt,
            boost: self.boost,
            isolated_cpus: copy_option(&self.isolated_cpus),
            fingerprint: copy_option(&self.fingerprint),
        };
        r
    }
}

#[derive(Debug)]
pub struct Toolchain {
    pub rustc: String,
    pub host: String,
    pub target_cpu: Option<String>,
    pub rustflags: Option<String>,
    pub features: Vec<String>,
    pub cargo_profile: String,
    pub opt_level: Option<String>,
}

/// A [`Toolchain`] by its contents.
pub struct ToolchainV {
    pub rustc: Seq<char>,
    pub host: Seq<char>,
    pub target_cpu: Option<Seq<char>>,
    pub rustflags: Option<Seq<char>>,
    pub features: Seq<Seq<char>>,
    pub cargo_profile: Seq<char>,
    pub opt_level: Option<Seq<char>>,
}

impl View for Toolchain {
    type V = ToolchainV;

    open spec fn view(&self) -> ToolchainV {
        ToolchainV {
            rustc: self.rustc@,
            host: self.host@,
            target_cpu: option_text(self.target_cpu),
            rustflags: option_text(self.rustflags),
            features: texts(self.features@),
            cargo_profile: self.cargo_profile@,
            opt_level: option_text(self.opt_level),
        }
    }
}

impl Clone for Toolchain {
    fn clone(&self) -> (r: Self)
        ensures
            r@ == self@,
    {
        let r = Toolchain {
            rustc: self.rustc.clone(),
            host: self.host.clone(),
            target_cpu: copy_option(&self.target_cpu),
            rustflags: copy_option(&self.rustflags),
            features: copy_texts(&self.features),
            cargo_profile: self.cargo_profile.clone(),
            opt_level: copy_option(&self.opt_level),
        };
        r
    }
}

#[derive(Debug)]
pub struct Source {
    pub git_sha: Option<String>,
    pub git_dirty: bool,
    pub crate_version: String,
}

/// A [`Source`] by its contents.
pub struct SourceV {
    pub git_sha: Option<Seq<char>>,
    pub git_dirty: bool,
    pub crate_version: Seq<char>,
}

impl View for Source {
    type V = SourceV;

    open spec fn view(&self) -> SourceV {
        SourceV {
            git_sha: option_text(self.git_sha),
            git_dirty: self.git_dirty,
            crate_version: self.crate_version@,
        }
    }
}

impl Clone for Source {
    fn clone(&self) -> (r: Self)
        ensures
            r@ == self@,
    {
        let r = Source {
            git_sha: copy_option(&self.git_sha),
            git_dirty: self.git_dirty,
            crate_version: self.crate_version.clone(),
        };
        r
    }
}

#[derive(Debug)]
pub struct Provenance {
    /// The criterion id this came from, kept only for traceability.
    pub criterion_id: Option<String>,
}

/// A [`Provenance`] by its contents.
pub struct ProvenanceV {
    pub criterion_id: Option<Seq<char>>,
}

impl View for Provenance {
    type V = ProvenanceV;

    open spec fn view(&self) -> ProvenanceV {
        ProvenanceV {
            criterion_id: option_text(self.criterion_id),
        }
    }
}

impl Clone for Provenance {
    fn clone(&self) -> (r: Self)
        ensures
            r@ == self@,
    {
        let r = Provenance {
            criterion_id: copy_option(&self.criterion_id),
        };
        r
    }
}

#[derive(Debug)]
pub struct Run {
    /// ULID: sorts by time, unique across machines; see [`IdClock::ulid`].
    pub run_id: String,
    pub started_at: String,
    pub finished_at: String,
    pub runner: String,
    /// Canonical selector expressions, exactly as the repro line prints them.
    pub selectors: Vec<String>,
    /// The full continuity hash. The dataset's join key: charts join on the whole
    /// string, never the prefix alone, which would merge unverified runs into
    /// verified history.
    pub machine_hash: String,
    pub machine: Machine,
    pub context: Context,
    pub toolchain: Toolchain,
    pub source: Source,
    /// What each subject actually was when this run built it, by name.
    pub subjects: Vec<NamedSubject>,
}

/// A [`Run`] by its contents.
pub struct RunV {
    pub run_id: Seq<char>,
    pub started_at: Seq<char>,
    pub finished_at: Seq<char>,
    pub runner: Seq<char>,
    pub selectors: Seq<Seq<char>>,
    pub machine_hash: Seq<char>,
    pub machine: MachineV,
    pub context: ContextV,
    pub toolchain: ToolchainV,
    pub source: SourceV,
    pub subjects: Seq<NamedSubjectV>,
}

impl View for Run {
    type V = RunV;

    open spec fn view(&self) -> RunV {
        RunV {
            run_id: self.run_id@,
            started_at: self.started_at@,
            finished_at: self.finished_at@,
            runner: self.runner@,
            selectors: texts(self.selectors@),
            machine_hash: self.machine_hash@,
            machine: self.machine@,
            context: self.context@,
            toolchain: self.toolchain@,
            source: self.source@,
            subjects: Seq::new(self.subjects@.len(), |i: int| self.subjects@[i]@),
        }
    }
}

impl Clone for Run {
    fn clone(&self) -> (r: Self)
        ensures
            r@ == self@,
    {
        let mut subjects: Vec<NamedSubject> = Vec::new();
        let mut i: usize = 0;
        while i < self.subjects.len()
            invariant
                i <= self.subjects@.len(),
                subjects@.len() == i,
                forall|j: int| 0 <= j < i ==> (#[trigger] subjects@[j])@ == self.subjects@[j]@,
            decreases self.subjects@.len() - i,
        {
            subjects.push(self.subjects[i].clone());
            i = i + 1;
        }
        let r = Run {
            run_id: self.run_id.clone(),
            started_at: self.started_at.clone(),
            finished_at: self.finished_at.clone(),
            runner: self.runner.clone(),
            selectors: copy_texts(&self.selectors),
            machine_hash: self.machine_hash.clone(),
            machine: self.machine.clone(),
            context: self.context.clone(),
            toolchain: self.toolchain.clone(),
            source: self.source.clone(),
            subjects,
        };
        assert(r@.subjects =~= self@.subjects);
        r
    }
}

/// A subject of a run.
#[derive(Debug)]
pub struct NamedSubject {
    pub name: String,
    pub provenance: SubjectProvenance,
}

/// A [`NamedSubject`] by its contents.
pub struct NamedSubjectV {
    pub name: Seq<char>,
    pub provenance: SubjectProvenanceV,
}

impl View for NamedSubject {
    type V = NamedSubjectV;

    open spec fn view(&self) -> NamedSubjectV {
        NamedSubjectV {
            name: self.name@,
            provenance: self.provenance@,
        }
    }
}

impl Clone for NamedSubject {
    fn clone(&self) -> (r: Self)
        ensures
            r@ == self@,
    {
        let r = NamedSubject {
            name: self.name.clone(),
            provenance: self.provenance.clone(),
        };
        r
    }
}

#[allow(inconsistent_fields)]
#[derive(Debug, PartialEq, Eq)]
pub enum PathError {
    BadTimestamp(String),
    MissingRunId,
}

/// A [`PathError`] by its contents.
#[allow(inconsistent_fields)]
pub enum PathErrorV {
    BadTimestamp(Seq<char>),
    MissingRunId,
}

impl View for PathError {
    type V = PathErrorV;

    open spec fn view(&self) -> PathErrorV {
        match self {
            PathError::BadTimestamp(x) => PathErrorV::BadTimestamp(x@),
            PathError::MissingRunId => PathErrorV::MissingRunId,
        }
    }
}

// ---------------------------------------------------------------- run ids

/// Crockford's alphabet, in upper case.
pub const ID_ALPHABET: &'static str = "0123456789ABCDEFGHJKMNPQRSTVWXYZ";

pub open spec fn id_symbol(d: nat) -> char {
    ID_ALPHABET@[d as int]
}

/// The lowest `n` digits of a number in base 32, the most significant first.
pub open spec fn id_text(v: nat, n: nat) -> Seq<char>
    decreases n,
{
    if n == 0 {
        Seq::empty()
    } else {
        id_text(v / 32, (n - 1) as nat).push(id_symbol(v % 32))
    }
}

fn id_digits(v: u128, n: usize) -> (r: String)
    ensures
        r@ == id_text(v as nat, n as nat),
    decreases n,
{
    if n == 0 {
        let s = String::new();
        assert(s@ =~= id_text(v as nat, 0));
        s
    } else {
        let mut s = id_digits(v / 32, n - 1);
        proof {
            reveal_strlit("0123456789ABCDEFGHJKMNPQRSTVWXYZ");
        }
        s.push(ID_ALPHABET.get_char((v % 32) as usize));
        s
    }
}

/// Encode a ULID value: 26 digits of five bits, most significant first, over 2 pad
/// bits, 48 time bits and 80 random bits.
pub fn encode(value: u128) -> (r: String)
    ensures
        r@ == id_text(value as nat, 26),
{
    id_digits(value, 26)
}

/// The number of values that the random part takes.
pub const RANDOM_SPAN: u128 = 0x1_0000_0000_0000_0000_0000;

/// The number of values that the time part takes.
pub const TIME_SPAN: u128 = 0x1_0000_0000_0000;

/// The four bytes of a number, the most significant first.
pub open spec fn be_bytes32(n: u32) -> Seq<u8> {
    seq![
        (n / 0x100_0000) as u8,
        (n / 0x1_0000 % 0x100) as u8,
        (n / 0x100 % 0x100) as u8,
        (n % 0x100) as u8,
    ]
}

/// The eight bytes of a number, the most significant first.
pub open spec fn be_bytes64(n: u64) -> Seq<u8> {
    be_bytes32((n / 0x1_0000_0000) as u32) + be_bytes32((n % 0x1_0000_0000) as u32)
}

/// What the random part is drawn from: the sub-millisecond clock, the process, and
/// how many ids the process has made.
pub open spec fn id_material(nanos: u32, process: u32, count: u64) -> Seq<u8> {
    be_bytes32(nanos) + be_bytes32(process) + be_bytes64(count)
}

/// The random part: the first ten bytes of the material's digest.
pub open spec fn id_random(nanos: u32, process: u32, count: u64) -> nat {
    be_value(blake3_digest(id_material(nanos, process, count)).take(10))
}

/// The value of an id before the guard.
pub open spec fn id_value(millis: u128, random: nat) -> nat {
    (millis % TIME_SPAN) as nat * RANDOM_SPAN as nat + random
}

/// The guard: an id is never at or below the one before it.
pub open spec fn next_value(last: nat, value: nat) -> nat {
    if value <= last {
        last + 1
    } else {
        value
    }
}

fn push_be32(out: &mut Vec<u8>, n: u32)
    ensures
        final(out)@ == old(out)@ + be_bytes32(n),
{
    let ghost start = out@;
    out.push((n / 0x100_0000) as u8);
    out.push((n / 0x1_0000 % 0x100) as u8);
    out.push((n / 0x100 % 0x100) as u8);
    out.push((n % 0x100) as u8);
    assert(out@ =~= start + be_bytes32(n));
}

proof fn be_value_small(bytes: Seq<u8>)
    requires
        bytes.len() <= 10,
    ensures
        bytes.len() <= 9 ==> be_value(bytes) < 0x100_0000_0000_0000_0000,
        be_value(bytes) < RANDOM_SPAN,
    decreases bytes.len(),
{
    reveal_with_fuel(be_value, 11);
    if bytes.len() > 0 {
        let t = bytes.drop_last();
        be_value_small(t);
        if bytes.len() <= 9 {
            be_value_tiny(t);
        }
    }
}

proof fn be_value_tiny(bytes: Seq<u8>)
    requires
        bytes.len() <= 8,
    ensures
        be_value(bytes) < 0x1_0000_0000_0000_0000,
    decreases bytes.len(),
{
    crate::digest::be_value_bound(bytes);
}

fn random_part(nanos: u32, process: u32, count: u64) -> (r: u128)
    ensures
        r == id_random(nanos, process, count),
        r < RANDOM_SPAN,
{
    let mut material: Vec<u8> = Vec::new();
    push_be32(&mut material, nanos);
    push_be32(&mut material, process);
    push_be32(&mut material, (count / 0x1_0000_0000) as u32);
    push_be32(&mut material, (count % 0x1_0000_0000) as u32);
    assert(material@ =~= id_material(nanos, process, count));
    let digest = hash_bytes(material.as_slice());
    let mut rand: u128 = 0;
    let mut i: usize = 0;
    while i < 10
        invariant
            i <= 10,
            digest@.len() == 32,
            rand == be_value(digest@.take(i as int)),
        decreases 10 - i,
    {
        proof {
            let t = digest@.take(i + 1);
            assert(t.drop_last() =~= digest@.take(i as int));
            assert(t.last() == digest@[i as int]);
            be_value_small(digest@.take(i as int));
        }
        rand = rand * 256 + digest[i] as u128;
        i = i + 1;
    }
    proof {
        be_value_small(digest@.take(10));
    }
    rand
}

/// The last id that a process handed out, by its value.
#[derive(Debug)]
pub struct IdClock {
    pub last: u128,
}

impl IdClock {
    pub fn new() -> (r: Self)
        ensures
            r.last == 0,
    {
        IdClock { last: 0 }
    }

    /// A run id: a ULID, 26 Crockford-base32 characters carrying a 48-bit Unix
    /// millisecond timestamp above 80 bits of randomness, so ids sort
    /// lexicographically by time and stay unique across machines without
    /// coordination. The random bits are a digest over the sub-millisecond clock,
    /// the process id and a process-wide counter, and a monotonic guard makes
    /// consecutive ids within one process strictly increasing.
    pub fn ulid(&mut self, millis: u128, nanos: u32, process: u32, count: u64) -> (r: String)
        requires
            old(self).last < u128::MAX,
        ensures
            final(self).last == next_value(
                old(self).last as nat,
                id_value(millis, id_random(nanos, process, count)),
            ),
            final(self).last > old(self).last,
            r@ == id_text(final(self).last as nat, 26),
    {
        let rand = random_part(nanos, process, count);
        let ms = millis % TIME_SPAN;
        assert(ms * RANDOM_SPAN + rand <= u128::MAX) by {
            assert(ms * RANDOM_SPAN <= (TIME_SPAN - 1) * RANDOM_SPAN) by (nonlinear_arith)
                requires
                    ms <= TIME_SPAN - 1,
            ;
        }
        let value: u128 = ms * RANDOM_SPAN + rand;
        if value <= self.last {
            self.last = self.last + 1;
        } else {
            self.last = value;
        }
        encode(self.last)
    }
}

/// How an error of a path is written.
pub open spec fn path_error_text(e: PathErrorV) -> Seq<char> {
    match e {
        PathErrorV::BadTimestamp(x) => "BadTimestamp("@ + debug_text(x) + ")"@,
        PathErrorV::MissingRunId => "MissingRunId"@,
    }
}

impl PathError {
    pub fn to_string(&self) -> (r: String)
        ensures
            r@ == path_error_text(self@),
    {
        match self {
            PathError::BadTimestamp(x) => {
                let mut s = "BadTimestamp(".to_owned();
                s.append(quoted(x.as_str()).as_str());
                s.append(")");
                s
            },
            PathError::MissingRunId => "MissingRunId".to_owned(),
        }
    }
}

// ---------------------------------------------------------------- where a run belongs

pub open spec fn is_alphanumeric(c: char) -> bool {
    '0' <= c <= '9' || 'a' <= c <= 'z' || 'A' <= c <= 'Z'
}

/// A path component kept to characters that are safe everywhere.
pub open spec fn slug_text(raw: Seq<char>) -> Seq<char> {
    if raw.len() == 0 {
        "unknown"@
    } else {
        Seq::new(
            raw.len(),
            |i: int|
                if is_alphanumeric(raw[i]) {
                    raw[i]
                } else {
                    '-'
                },
        )
    }
}

/// The digits of a text.
pub open spec fn digits_of(s: Seq<char>) -> Seq<char>
    decreases s.len(),
{
    if s.len() == 0 {
        Seq::empty()
    } else if is_digit(s.last()) {
        digits_of(s.drop_last()).push(s.last())
    } else {
        digits_of(s.drop_last())
    }
}

pub open spec fn ends_time(c: char) -> bool {
    c == '.' || c == 'Z' || c == '+'
}

/// The digits of the date and of the time of day in a timestamp: eight and six.
pub open spec fn stamp_digits(iso: Seq<char>) -> Option<(Seq<char>, Seq<char>)> {
    let at = find(iso, 'T');
    if at >= iso.len() {
        None
    } else {
        let date = digits_of(iso.take(at));
        let time = digits_of(until(iso.skip(at + 1), |c: char| ends_time(c)));
        if date.len() == 8 && time.len() == 6 {
            Some((date, time))
        } else {
            None
        }
    }
}

/// The year and month of a date's digits.
pub open spec fn month_text(date: Seq<char>) -> Seq<char> {
    date.take(4) + "-"@ + date.subrange(4, 6)
}

/// A timestamp in ISO basic form.
pub open spec fn stamp_text(date: Seq<char>, time: Seq<char>) -> Seq<char> {
    date + "T"@ + time + "Z"@
}

/// The head of a run id that its file is named by.
pub open spec fn short_id(run_id: Seq<char>) -> Seq<char> {
    if run_id.len() <= 8 {
        run_id
    } else {
        run_id.take(8)
    }
}

/// The name of a run's document.
pub open spec fn document_name(date: Seq<char>, time: Seq<char>, run: RunV) -> Seq<char> {
    stamp_text(date, time) + "-"@ + slug_text(run.machine_hash) + "-"@ + slug_text(run.runner)
        + "-"@ + short_id(run.run_id) + ".json"@
}

/// Where a run's document belongs.
pub open spec fn document_path(root: Seq<char>, run: RunV) -> Result<Seq<char>, PathErrorV> {
    match stamp_digits(run.started_at) {
        None => Err(PathErrorV::BadTimestamp(run.started_at)),
        Some((date, time)) => if run.run_id.len() == 0 {
            Err(PathErrorV::MissingRunId)
        } else {
            Ok(path_join(path_join(root, month_text(date)), document_name(date, time, run)))
        },
    }
}

pub open spec fn path_result(r: Result<String, PathError>) -> Result<Seq<char>, PathErrorV> {
    match r {
        Ok(p) => Ok(p@),
        Err(e) => Err(e@),
    }
}

/// Keep a path component to characters that are safe everywhere.
pub fn slug(raw: &str) -> (r: String)
    ensures
        r@ == slug_text(raw@),
{
    let v = chars(raw);
    if v.len() == 0 {
        return "unknown".to_owned();
    }
    let mut out = String::new();
    let mut i: usize = 0;
    while i < v.len()
        invariant
            i <= v@.len(),
            v@ == raw@,
            v@.len() > 0,
            out@.len() == i,
            forall|j: int| 0 <= j < i ==> #[trigger] out@[j] == slug_text(raw@)[j],
        decreases v@.len() - i,
    {
        let c = v[i];
        if ('0' <= c && c <= '9') || ('a' <= c && c <= 'z') || ('A' <= c && c <= 'Z') {
            out.push(c);
        } else {
            out.push('-');
        }
        i = i + 1;
    }
    assert(out@ =~= slug_text(raw@));
    out
}

fn only_digits(v: &Vec<char>, lo: usize, hi: usize) -> (r: Vec<char>)
    requires
        lo <= hi <= v@.len(),
    ensures
        r@ == digits_of(v@.subrange(lo as int, hi as int)),
{
    let ghost s = v@.subrange(lo as int, hi as int);
    let mut out: Vec<char> = Vec::new();
    let mut i: usize = lo;
    assert(out@ =~= digits_of(s.take(0)));
    while i < hi
        invariant
            lo <= i <= hi <= v@.len(),
            s == v@.subrange(lo as int, hi as int),
            out@ == digits_of(s.take(i - lo)),
        decreases hi - i,
    {
        proof {
            let t = s.take(i - lo + 1);
            assert(t.drop_last() =~= s.take(i - lo));
            assert(t.last() == v@[i as int]);
        }
        let c = v[i];
        if '0' <= c && c <= '9' {
            out.push(c);
        }
        i = i + 1;
    }
    assert(s.take(hi - lo) =~= s);
    out
}

/// `2026-08-04T12:34:56.789Z` becomes `2026-08` and `20260804T123456Z`.
///
/// Sub-second precision is dropped: the run id already guarantees uniqueness, and a
/// millisecond in the name implies the timestamp is more precise about when a
/// multi-minute run happened than it really is.
pub fn basic_timestamp(iso: &str) -> (r: Result<(String, String), PathError>)
    ensures
        match r {
            Ok((month, stamp)) => match stamp_digits(iso@) {
                Some((date, time)) => month@ == month_text(date) && stamp@ == stamp_text(date, time),
                None => false,
            },
            Err(e) => stamp_digits(iso@) is None && e@ == PathErrorV::BadTimestamp(iso@),
        },
{
    let v = chars(iso);
    let at = crate::text::find_from(&v, 'T', 0);
    proof {
        assert(v@.skip(0) =~= v@);
        find_bounds(iso@, 'T');
    }
    if at >= v.len() {
        return Err(PathError::BadTimestamp(iso.to_owned()));
    }
    let mut end: usize = at + 1;
    let ghost rest = iso@.skip(at + 1);
    let ghost stop = |c: char| ends_time(c);
    while end < v.len() && v[end] != '.' && v[end] != 'Z' && v[end] != '+'
        invariant
            at < end <= v@.len(),
            v@ == iso@,
            rest == iso@.skip(at + 1),
            stop == (|c: char| ends_time(c)),
            forall|j: int| 0 <= j < end - at - 1 ==> !stop(#[trigger] rest[j]),
        decreases v@.len() - end,
    {
        assert(rest[end - at - 1] == v@[end as int]);
        end = end + 1;
    }
    proof {
        if end < v@.len() {
            assert(rest[end - at - 1] == v@[end as int]);
            assert(stop(rest[end - at - 1]));
        }
        until_is_take(rest, stop, end - at - 1);
        assert(v@.subrange(0, at as int) =~= iso@.take(at as int));
        assert(v@.subrange(at + 1, end as int) =~= rest.take(end - at - 1));
    }
    let date = only_digits(&v, 0, at);
    let time = only_digits(&v, at + 1, end);
    if date.len() != 8 || time.len() != 6 {
        return Err(PathError::BadTimestamp(iso.to_owned()));
    }
    let mut month = text_of(&date, 0, 4);
    month.append("-");
    month.append(text_of(&date, 4, 6).as_str());
    let mut stamp = text_of(&date, 0, 8);
    stamp.append("T");
    stamp.append(text_of(&time, 0, 6).as_str());
    stamp.append("Z");
    proof {
        assert(date@.subrange(0, 4) =~= date@.take(4));
        assert(date@.subrange(0, 8) =~= date@);
        assert(time@.subrange(0, 6) =~= time@);
    }
    Ok((month, stamp))
}

/// Where a run's document belongs:
/// `<root>/YYYY-MM/<timestamp>-<machine>-<runner>-<runid>.json`
///
/// The timestamp is ISO basic form (no separators) so it sorts lexicographically by
/// time and contains no colon, which is illegal in Windows filenames: the charting
/// tools read this dataset from anywhere, even though runs only happen on Linux.
pub fn result_path(root: &str, run: &Run) -> (r: Result<String, PathError>)
    ensures
        path_result(r) == document_path(root@, run@),
{
    let (month, stamp) = match basic_timestamp(run.started_at.as_str()) {
        Ok(p) => p,
        Err(e) => {
            return Err(e);
        },
    };
    let id = chars(run.run_id.as_str());
    if id.len() == 0 {
        return Err(PathError::MissingRunId);
    }
    let keep: usize = if id.len() <= 8 {
        id.len()
    } else {
        8
    };
    let runid = text_of(&id, 0, keep);
    assert(runid@ =~= short_id(run.run_id@));
    let mut name = stamp;
    name.append("-");
    name.append(slug(run.machine_hash.as_str()).as_str());
    name.append("-");
    name.append(slug(run.runner.as_str()).as_str());
    name.append("-");
    name.append(runid.as_str());
    name.append(".json");
    let dir = joined_path(root, month.as_str());
    Ok(joined_path(dir.as_str(), name.as_str()))
}

} // verus!
