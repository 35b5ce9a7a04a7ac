//! The machine fingerprint file.
//!
//! Two-phase: a privileged capture once per machine, unprivileged validation on
//! every run. Before measuring, the engine compares the host's unprivileged
//! components against the file; a partial match bails, because a stale fingerprint
//! would attribute new hardware's numbers to the old machine's history, which is
//! worse than refusing to run.
//!
//! The `checksum` field is tamper-evidence, not tamper-resistance: an HMAC-SHA256
//! over the canonical file body, keyed by a constant. It catches an accidental edit
//! or a file copied from another machine and adjusted; it stops nobody who wants to
//! forge a result, and is never described as a signature anywhere.

use crate::digest::{hex_byte, hex_pair};
use crate::machine::{
    machine_hash, probed, refresh_is_stable, refreshed, unknown_machine, with_memory, Board, BoardV,
    HostReadings, Machine, MachineV, Memory, MemoryV, PrivilegedError,
};
use crate::text::{
    chars, copy_option, copy_texts, dec, decimal, join, joined, option_text, same, texts,
};
use vstd::prelude::*;
use vstd::utf8::encode_utf8;

verus! {

pub const FINGERPRINT_SCHEMA: u32 = 1;

/// Keyed with a constant that ships in the open, deliberately: a passing check is
/// evidence of an unedited file, not of provenance.
pub const CHECKSUM_KEY: &'static str = "spatial-bench fingerprint checksum v1";

/// The exact command that (re)captures this machine, for error messages.
pub const CAPTURE_COMMAND: &'static str = "sudo spatial-bench fingerprint --write";

pub const DEFAULT_PATH: &'static str = "/etc/spatial-bench/fingerprint.toml";

/// Re-validated on every run, without root.
#[derive(Debug)]
pub struct Unprivileged {
    pub cpu_model: Option<String>,
    pub cpu_base_mhz: Option<u32>,
    pub board_vendor: Option<String>,
    pub board_name: Option<String>,
    pub chipset: Option<String>,
    /// Total usable RAM. Not a hash component (the kit's speed and timings are) but
    /// a hardware fact: a change is a change, and the footprint check needs it on
    /// fingerprinted machines, where the run's machine comes from this file.
    pub mem_total_bytes: Option<u64>,
}

/// A [`Unprivileged`] by its contents.
pub struct UnprivilegedV {
    pub cpu_model: Option<Seq<char>>,
    pub cpu_base_mhz: Option<u32>,
    pub board_vendor: Option<Seq<char>>,
    pub board_name: Option<Seq<char>>,
    pub chipset: Option<Seq<char>>,
    pub mem_total_bytes: Option<u64>,
}

impl View for Unprivileged {
    type V = UnprivilegedV;

    open spec fn view(&self) -> UnprivilegedV {
        UnprivilegedV {
            cpu_model: option_text(self.cpu_model),
            cpu_base_mhz: self.cpu_base_mhz,
            board_vendor: option_text(self.board_vendor),
            board_name: option_text(self.board_name),
            chipset: option_text(self.chipset),
            mem_total_bytes: self.mem_total_bytes,
        }
    }
}

impl Clone for Unprivileged {
    fn clone(&self) -> (r: Self)
        ensures
            r@ == self@,
    {
        let r = Unprivileged {
            cpu_model: copy_option(&self.cpu_model),
            cpu_base_mhz: self.cpu_base_mhz,
            board_vendor: copy_option(&self.board_vendor),
            board_name: copy_option(&self.board_name),
            chipset: copy_option(&self.chipset),
            mem_total_bytes: self.mem_total_bytes,
        };
        r
    }
}

/// Captured once, under root.
#[derive(Debug)]
pub struct Privileged {
    pub mem_speed_mts: Option<u32>,
    pub mem_timings: Option<String>,
    pub mem_parts: Vec<String>,
}

/// A [`Privileged`] by its contents.
pub struct PrivilegedV {
    pub mem_speed_mts: Option<u32>,
    pub mem_timings: Option<Seq<char>>,
    pub mem_parts: Seq<Seq<char>>,
}

impl View for Privileged {
    type V = PrivilegedV;

    open spec fn view(&self) -> PrivilegedV {
        PrivilegedV {
            mem_speed_mts: self.mem_speed_mts,
            mem_timings: option_text(self.mem_timings),
            mem_parts: texts(self.mem_parts@),
        }
    }
}

impl Clone for Privileged {
    fn clone(&self) -> (r: Self)
        ensures
            r@ == self@,
    {
        let r = Privileged {
            mem_speed_mts: self.mem_speed_mts,
            mem_timings: copy_option(&self.mem_timings),
            mem_parts: copy_texts(&self.mem_parts),
        };
        r
    }
}

#[derive(Debug)]
pub struct Fingerprint {
    pub schema: u32,
    pub taken: String,
    /// The continuity hash of the machine this file describes.
    pub machine: String,
    pub unprivileged: Unprivileged,
    pub privileged: Privileged,
    pub checksum: String,
}

/// A [`Fingerprint`] by its contents.
pub struct FingerprintV {
    pub schema: u32,
    pub taken: Seq<char>,
    pub machine: Seq<char>,
    pub unprivileged: UnprivilegedV,
    pub privileged: PrivilegedV,
    pub checksum: Seq<char>,
}

impl View for Fingerprint {
    type V = FingerprintV;

    open spec fn view(&self) -> FingerprintV {
        FingerprintV {
            schema: self.schema,
            taken: self.taken@,
            machine: self.machine@,
            unprivileged: self.unprivileged@,
            privileged: self.privileged@,
            checksum: self.checksum@,
        }
    }
}

impl Clone for Fingerprint {
    fn clone(&self) -> (r: Self)
        ensures
            r@ == self@,
    {
        let r = Fingerprint {
            schema: self.schema,
            taken: self.taken.clone(),
            machine: self.machine.clone(),
            unprivileged: self.unprivileged.clone(),
            privileged: self.privileged.clone(),
            checksum: self.checksum.clone(),
        };
        r
    }
}

/// Why a fingerprint was not accepted.
#[allow(inconsistent_fields)]
#[derive(Debug, PartialEq, Eq)]
pub enum FingerprintError {
    Io { path: String, err: String },
    Toml { path: String, err: String },
    Schema { path: String, found: u32 },
    /// The body no longer matches its checksum: the file was edited or copied from
    /// another machine and adjusted. Re-capture.
    Checksum { path: String },
    /// The components disagree with the recorded machine hash.
    MachineHashMismatch { recorded: String, recomputed: String },
    /// The recorded hash has a different width than this engine computes: a
    /// fingerprint captured by an older engine generation, not a forgery.
    StaleCapture { recorded: String },
    /// Hardware changed, or the file came from another machine.
    HardwareChanged { field: String, expected: String, found: String },
    NotRoot,
    DmidecodeMissing,
}

/// A [`FingerprintError`] by its contents.
#[allow(inconsistent_fields)]
pub enum FingerprintErrorV {
    Io { path: Seq<char>, err: Seq<char> },
    Toml { path: Seq<char>, err: Seq<char> },
    Schema { path: Seq<char>, found: u32 },
    Checksum { path: Seq<char> },
    MachineHashMismatch { recorded: Seq<char>, recomputed: Seq<char> },
    StaleCapture { recorded: Seq<char> },
    HardwareChanged { field: Seq<char>, expected: Seq<char>, found: Seq<char> },
    NotRoot,
    DmidecodeMissing,
}

impl View for FingerprintError {
    type V = FingerprintErrorV;

    open spec fn view(&self) -> FingerprintErrorV {
        match self {
            FingerprintError::Io { path, err } => FingerprintErrorV::Io { path: path@, err: err@ },
            FingerprintError::Toml { path, err } => FingerprintErrorV::Toml { path: path@, err: err@ },
            FingerprintError::Schema { path, found } => FingerprintErrorV::Schema { path: path@, found: *found },
            FingerprintError::Checksum { path } => FingerprintErrorV::Checksum { path: path@ },
            FingerprintError::MachineHashMismatch { recorded, recomputed } => FingerprintErrorV::MachineHashMismatch { recorded: recorded@, recomputed: recomputed@ },
            FingerprintError::StaleCapture { recorded } => FingerprintErrorV::StaleCapture { recorded: recorded@ },
            FingerprintError::HardwareChanged { field, expected, found } => FingerprintErrorV::HardwareChanged { field: field@, expected: expected@, found: found@ },
            FingerprintError::NotRoot => FingerprintErrorV::NotRoot,
            FingerprintError::DmidecodeMissing => FingerprintErrorV::DmidecodeMissing,
        }
    }
}

/// Where the fingerprint lives. Machine-scoped rather than per-user or
/// per-checkout: it describes hardware, and one machine with six worktrees has one
/// fingerprint. The environment variable, when set, overrides for containers and CI.
pub fn path(overriding: Option<&str>) -> (r: String)
    ensures
        r@ == match overriding {
            Some(p) => p@,
            None => DEFAULT_PATH@,
        },
{
    match overriding {
        Some(p) => p.to_owned(),
        None => DEFAULT_PATH.to_owned(),
    }
}

pub fn capture_command() -> (r: String)
    ensures
        r@ == CAPTURE_COMMAND@,
{
    CAPTURE_COMMAND.to_owned()
}

// ---------------------------------------------------------------- the checksum

/// The HMAC-SHA256 of some bytes under a key.
pub uninterp spec fn hmac_sha256(key: Seq<u8>, body: Seq<u8>) -> Seq<u8>;

/// `hmac::Hmac::<sha2::Sha256>`: made from a key (`new_from_slice` takes a key of
/// any length), fed the bytes and finalized, it gives a code that is a function of
/// the key and the bytes, 32 bytes long.
#[verifier::external_body]
fn hmac_code(key: &[u8], body: &[u8]) -> (r: Vec<u8>)
    ensures
        r@ == hmac_sha256(key@, body@),
        r@.len() == 32,
{
    let mut mac = <hmac::Hmac<sha2::Sha256> as hmac::Mac>::new_from_slice(key).expect(
        "a key of any length",
    );
    hmac::Mac::update(&mut mac, body);
    hmac::Mac::finalize(mac).into_bytes().to_vec()
}

/// Bytes in hexadecimal, each by itself.
pub open spec fn hex_bytes(bytes: Seq<u8>) -> Seq<Seq<char>> {
    Seq::new(bytes.len(), |i: int| hex_byte(bytes[i]))
}

/// How a code is written: its first eight bytes, with colons between.
pub open spec fn written_code(code: Seq<u8>) -> Seq<char> {
    join(hex_bytes(code.take(8)), ":"@)
}

/// HMAC-SHA256 over the canonical body, truncated and colon-separated so it reads as
/// bytes rather than one opaque blob.
pub open spec fn checksum_text(body: Seq<char>) -> Seq<char> {
    written_code(hmac_sha256(encode_utf8(CHECKSUM_KEY@), encode_utf8(body)))
}

/// How a code is written.
pub fn write_code(code: &Vec<u8>) -> (r: String)
    requires
        code@.len() >= 8,
    ensures
        r@ == written_code(code@),
{
    let mut parts: Vec<String> = Vec::new();
    let mut i: usize = 0;
    while i < 8
        invariant
            i <= 8,
            code@.len() >= 8,
            parts@.len() == i,
            forall|j: int| 0 <= j < i ==> (#[trigger] parts@[j])@ == hex_byte(code@[j]),
        decreases 8 - i,
    {
        parts.push(hex_pair(code[i]));
        i = i + 1;
    }
    assert(texts(parts@) =~= hex_bytes(code@.take(8)));
    joined(&parts, ":")
}

pub fn checksum(body: &str) -> (r: String)
    ensures
        r@ == checksum_text(body@),
{
    let code = hmac_code(CHECKSUM_KEY.as_bytes(), body.as_bytes());
    write_code(&code)
}

// ---------------------------------------------------------------- rendering

/// A character of a basic string, with what would end or break it escaped.
pub open spec fn escaped_char(c: char) -> Seq<char> {
    if c == '\\' {
        seq!['\\', '\\']
    } else if c == '"' {
        seq!['\\', '"']
    } else {
        seq![c]
    }
}

pub open spec fn escaped(s: Seq<char>) -> Seq<char>
    decreases s.len(),
{
    if s.len() == 0 {
        Seq::empty()
    } else {
        escaped(s.drop_last()) + escaped_char(s.last())
    }
}

/// A TOML basic string.
pub open spec fn toml_text(s: Seq<char>) -> Seq<char> {
    "\""@ + escaped(s) + "\""@
}

/// A TOML basic string, escaping only what can appear in hardware names.
pub fn toml_str(raw: &str) -> (r: String)
    ensures
        r@ == toml_text(raw@),
{
    let v = chars(raw);
    let mut out = "\"".to_owned();
    let ghost start = out@;
    let mut i: usize = 0;
    assert(start + escaped(v@.take(0)) =~= start);
    while i < v.len()
        invariant
            i <= v@.len(),
            out@ == start + escaped(v@.take(i as int)),
        decreases v@.len() - i,
    {
        let ghost before = escaped(v@.take(i as int));
        proof {
            let t = v@.take(i + 1);
            assert(t.drop_last() =~= v@.take(i as int));
            assert(t.last() == v@[i as int]);
        }
        let c = v[i];
        if c == '\\' {
            out.push('\\');
            out.push('\\');
        } else if c == '"' {
            out.push('\\');
            out.push('"');
        } else {
            out.push(c);
        }
        assert(out@ =~= start + (before + escaped_char(c)));
        i = i + 1;
    }
    assert(v@.take(v@.len() as int) =~= v@);
    out.append("\"");
    out
}

/// One key and its value on a line.
pub open spec fn key_line(key: Seq<char>, value: Seq<char>) -> Seq<char> {
    key + " = "@ + value + "\n"@
}

/// A key whose value may be absent.
pub open spec fn text_line(key: Seq<char>, value: Option<Seq<char>>) -> Seq<char> {
    match value {
        Some(v) => key_line(key, toml_text(v)),
        None => Seq::empty(),
    }
}

pub open spec fn number_line(key: Seq<char>, value: Option<nat>) -> Seq<char> {
    match value {
        Some(n) => key_line(key, dec(n)),
        None => Seq::empty(),
    }
}

pub open spec fn toml_texts(list: Seq<Seq<char>>) -> Seq<Seq<char>> {
    Seq::new(list.len(), |i: int| toml_text(list[i]))
}

pub open spec fn list_line(key: Seq<char>, list: Seq<Seq<char>>) -> Seq<char> {
    if list.len() == 0 {
        Seq::empty()
    } else {
        key_line(key, "["@ + join(toml_texts(list), ", "@) + "]"@)
    }
}

pub open spec fn as_nat32(n: Option<u32>) -> Option<nat> {
    match n {
        Some(v) => Some(v as nat),
        None => None,
    }
}

pub open spec fn as_nat64(n: Option<u64>) -> Option<nat> {
    match n {
        Some(v) => Some(v as nat),
        None => None,
    }
}

/// The top-level keys, before any table header.
pub open spec fn head_text(f: FingerprintV) -> Seq<char> {
    key_line("schema"@, dec(f.schema as nat)) + key_line("taken"@, toml_text(f.taken)) + key_line(
        "machine"@,
        toml_text(f.machine),
    )
}

/// The table sections.
pub open spec fn tables_text(f: FingerprintV) -> Seq<char> {
    "\n[unprivileged]\n"@ + text_line("cpu_model"@, f.unprivileged.cpu_model) + number_line(
        "cpu_base_mhz"@,
        as_nat32(f.unprivileged.cpu_base_mhz),
    ) + text_line("board_vendor"@, f.unprivileged.board_vendor) + text_line(
        "board_name"@,
        f.unprivileged.board_name,
    ) + text_line("chipset"@, f.unprivileged.chipset) + number_line(
        "mem_total_bytes"@,
        as_nat64(f.unprivileged.mem_total_bytes),
    ) + "\n[privileged]\n"@ + number_line("mem_speed_mts"@, as_nat32(f.privileged.mem_speed_mts))
        + text_line("mem_timings"@, f.privileged.mem_timings) + list_line(
        "mem_parts"@,
        f.privileged.mem_parts,
    )
}

/// The canonical body: every field in a fixed order, absent ones skipped, strings
/// escaped alike. This is the checksum's input.
pub open spec fn body_text(f: FingerprintV) -> Seq<char> {
    head_text(f) + tables_text(f)
}

/// The file: the body with the checksum among the top-level keys, since a key after
/// a table header belongs to that table.
pub open spec fn file_text(f: FingerprintV) -> Seq<char> {
    head_text(f) + key_line("checksum"@, "\""@ + checksum_text(body_text(f)) + "\""@)
        + tables_text(f)
}

fn push_line(out: &mut String, key: &str, value: &str)
    ensures
        final(out)@ == old(out)@ + key_line(key@, value@),
{
    let mut line = key.to_owned();
    line.append(" = ");
    line.append(value);
    line.append("\n");
    out.append(line.as_str());
}

fn push_text(out: &mut String, key: &str, value: &Option<String>)
    ensures
        final(out)@ == old(out)@ + text_line(key@, option_text(*value)),
{
    match value {
        Some(v) => push_line(out, key, toml_str(v.as_str()).as_str()),
        None => {
            assert(out@ =~= out@ + Seq::<char>::empty());
        },
    }
}

fn push_number(out: &mut String, key: &str, value: Option<u64>)
    ensures
        final(out)@ == old(out)@ + number_line(key@, as_nat64(value)),
{
    match value {
        Some(v) => push_line(out, key, decimal(v).as_str()),
        None => {
            assert(out@ =~= out@ + Seq::<char>::empty());
        },
    }
}

fn push_list(out: &mut String, key: &str, list: &Vec<String>)
    ensures
        final(out)@ == old(out)@ + list_line(key@, texts(list@)),
{
    if list.len() == 0 {
        assert(out@ =~= out@ + Seq::<char>::empty());
        return ;
    }
    let mut parts: Vec<String> = Vec::new();
    let mut i: usize = 0;
    while i < list.len()
        invariant
            i <= list@.len(),
            parts@.len() == i,
            forall|j: int| 0 <= j < i ==> (#[trigger] parts@[j])@ == toml_text(list@[j]@),
        decreases list@.len() - i,
    {
        parts.push(toml_str(list[i].as_str()));
        i = i + 1;
    }
    assert(texts(parts@) =~= toml_texts(texts(list@)));
    let mut value = "[".to_owned();
    value.append(joined(&parts, ", ").as_str());
    value.append("]");
    push_line(out, key, value.as_str());
}

fn widened(n: Option<u32>) -> (r: Option<u64>)
    ensures
        as_nat64(r) == as_nat32(n),
{
    match n {
        Some(v) => Some(v as u64),
        None => None,
    }
}

// ---------------------------------------------------------------- comparing

/// The machine that a fingerprint's components describe.
pub open spec fn described(f: FingerprintV) -> MachineV {
    refreshed(
        MachineV {
            cpu_model: f.unprivileged.cpu_model,
            cpu_base_mhz: f.unprivileged.cpu_base_mhz,
            board: BoardV { vendor: f.unprivileged.board_vendor, name: f.unprivileged.board_name },
            chipset: f.unprivileged.chipset,
            mem: MemoryV {
                total_bytes: f.unprivileged.mem_total_bytes,
                speed_mts: f.privileged.mem_speed_mts,
                timings: f.privileged.mem_timings,
                parts: f.privileged.mem_parts,
            },
            ..unknown_machine()
        },
    )
}

/// How often a character occurs.
pub open spec fn occurrences(s: Seq<char>, c: char) -> nat
    decreases s.len(),
{
    if s.len() == 0 {
        0
    } else {
        occurrences(s.drop_last(), c) + (if s.last() == c {
            1nat
        } else {
            0nat
        })
    }
}

/// The same length in bytes, and as many hyphens.
pub open spec fn same_shape(a: Seq<char>, b: Seq<char>) -> bool {
    &&& encode_utf8(a).len() == encode_utf8(b).len()
    &&& occurrences(a, '-') == occurrences(b, '-')
}

/// What rebuilding the machine of a fingerprint gives: the components must hash to
/// what the file records.
pub open spec fn rebuilt(f: FingerprintV) -> Result<MachineV, FingerprintErrorV> {
    let m = described(f);
    let hash = machine_hash(m);
    if !same_shape(f.machine, hash) {
        Err(FingerprintErrorV::StaleCapture { recorded: f.machine })
    } else if hash != f.machine {
        Err(FingerprintErrorV::MachineHashMismatch { recorded: f.machine, recomputed: hash })
    } else {
        Ok(m)
    }
}

pub open spec fn text_or_unreadable(s: Option<Seq<char>>) -> Seq<char> {
    match s {
        Some(t) => t,
        None => "unreadable"@,
    }
}

pub open spec fn number_text(n: Option<nat>) -> Option<Seq<char>> {
    match n {
        Some(v) => Some(dec(v)),
        None => None,
    }
}

/// A recorded component that the host does not have.
pub open spec fn text_change(
    field: Seq<char>,
    want: Option<Seq<char>>,
    got: Option<Seq<char>>,
) -> Option<FingerprintErrorV> {
    match want {
        Some(w) => if got == Some(w) {
            None
        } else {
            Some(
                FingerprintErrorV::HardwareChanged {
                    field,
                    expected: w,
                    found: text_or_unreadable(got),
                },
            )
        },
        None => None,
    }
}

pub open spec fn number_change(
    field: Seq<char>,
    want: Option<nat>,
    got: Option<nat>,
) -> Option<FingerprintErrorV> {
    match want {
        Some(w) => if got == Some(w) {
            None
        } else {
            Some(
                FingerprintErrorV::HardwareChanged {
                    field,
                    expected: dec(w),
                    found: text_or_unreadable(number_text(got)),
                },
            )
        },
        None => None,
    }
}

/// The comparisons of a fingerprint with a host, in order.
pub open spec fn changes(u: UnprivilegedV, host: MachineV) -> Seq<Option<FingerprintErrorV>> {
    seq![
        text_change("cpu_model"@, u.cpu_model, host.cpu_model),
        number_change("cpu_base_mhz"@, as_nat32(u.cpu_base_mhz), as_nat32(host.cpu_base_mhz)),
        text_change("board_vendor"@, u.board_vendor, host.board.vendor),
        text_change("board_name"@, u.board_name, host.board.name),
        text_change("chipset"@, u.chipset, host.chipset),
        number_change(
            "mem_total_bytes"@,
            as_nat64(u.mem_total_bytes),
            as_nat64(host.mem.total_bytes),
        ),
    ]
}

/// The first difference between a fingerprint and a host.
pub open spec fn first_change(u: UnprivilegedV, host: MachineV) -> Option<FingerprintErrorV> {
    let c = changes(u, host);
    if c[0] is Some {
        c[0]
    } else if c[1] is Some {
        c[1]
    } else if c[2] is Some {
        c[2]
    } else if c[3] is Some {
        c[3]
    } else if c[4] is Some {
        c[4]
    } else {
        c[5]
    }
}

pub open spec fn result_of(fault: Option<FingerprintErrorV>) -> Result<(), FingerprintErrorV> {
    match fault {
        Some(e) => Err(e),
        None => Ok(()),
    }
}

pub open spec fn verdict(r: Result<(), FingerprintError>) -> Result<(), FingerprintErrorV> {
    match r {
        Ok(_) => Ok(()),
        Err(e) => Err(e@),
    }
}

pub open spec fn machine_verdict(r: Result<Machine, FingerprintError>) -> Result<
    MachineV,
    FingerprintErrorV,
> {
    match r {
        Ok(m) => Ok(m@),
        Err(e) => Err(e@),
    }
}

/// Whether the checksum is the body's.
pub open spec fn checksum_holds(f: FingerprintV) -> bool {
    f.checksum == checksum_text(body_text(f))
}

/// What validating against a host gives: checksum first, then the unprivileged
/// block, then the machine the file describes.
pub open spec fn validated(f: FingerprintV, path: Seq<char>, host: MachineV) -> Result<
    MachineV,
    FingerprintErrorV,
> {
    if !checksum_holds(f) {
        Err(FingerprintErrorV::Checksum { path })
    } else {
        match first_change(f.unprivileged, host) {
            Some(e) => Err(e),
            None => rebuilt(f),
        }
    }
}

/// What a loaded file gives before it is compared with anything.
pub open spec fn accepted_file(f: FingerprintV, path: Seq<char>) -> Result<(), FingerprintErrorV> {
    if f.schema != FINGERPRINT_SCHEMA {
        Err(FingerprintErrorV::Schema { path, found: f.schema })
    } else if !checksum_holds(f) {
        Err(FingerprintErrorV::Checksum { path })
    } else {
        Ok(())
    }
}

fn text_differs(field: &str, want: &Option<String>, got: &Option<String>) -> (r: Option<FingerprintError>)
    ensures
        (match r {
            Some(e) => Some(e@),
            None => None,
        }) == text_change(field@, option_text(*want), option_text(*got)),
{
    match want {
        None => None,
        Some(w) => match got {
            Some(g) => if same(w.as_str(), g.as_str()) {
                None
            } else {
                Some(
                    FingerprintError::HardwareChanged {
                        field: field.to_owned(),
                        expected: w.clone(),
                        found: g.clone(),
                    },
                )
            },
            None => Some(
                FingerprintError::HardwareChanged {
                    field: field.to_owned(),
                    expected: w.clone(),
                    found: "unreadable".to_owned(),
                },
            ),
        },
    }
}

fn number_differs(field: &str, want: Option<u64>, got: Option<u64>) -> (r: Option<FingerprintError>)
    ensures
        (match r {
            Some(e) => Some(e@),
            None => None,
        }) == number_change(field@, as_nat64(want), as_nat64(got)),
{
    match want {
        None => None,
        Some(w) => match got {
            Some(g) => if w == g {
                None
            } else {
                Some(
                    FingerprintError::HardwareChanged {
                        field: field.to_owned(),
                        expected: decimal(w),
                        found: decimal(g),
                    },
                )
            },
            None => Some(
                FingerprintError::HardwareChanged {
                    field: field.to_owned(),
                    expected: decimal(w),
                    found: "unreadable".to_owned(),
                },
            ),
        },
    }
}

fn count_hyphens(s: &str) -> (r: usize)
    ensures
        r == occurrences(s@, '-'),
{
    let v = chars(s);
    let mut n: usize = 0;
    let mut i: usize = 0;
    while i < v.len()
        invariant
            i <= v@.len(),
            n <= i,
            n == occurrences(v@.take(i as int), '-'),
        decreases v@.len() - i,
    {
        proof {
            let t = v@.take(i + 1);
            assert(t.drop_last() =~= v@.take(i as int));
            assert(t.last() == v@[i as int]);
        }
        if v[i] == '-' {
            n = n + 1;
        }
        i = i + 1;
    }
    assert(v@.take(v@.len() as int) =~= v@);
    n
}

/// What a capture records of a machine.
pub open spec fn recorded(m: MachineV, taken: Seq<char>) -> FingerprintV {
    FingerprintV {
        schema: FINGERPRINT_SCHEMA,
        taken,
        machine: machine_hash(m),
        unprivileged: UnprivilegedV {
            cpu_model: m.cpu_model,
            cpu_base_mhz: m.cpu_base_mhz,
            board_vendor: m.board.vendor,
            board_name: m.board.name,
            chipset: m.chipset,
            mem_total_bytes: m.mem.total_bytes,
        },
        privileged: PrivilegedV {
            mem_speed_mts: m.mem.speed_mts,
            mem_timings: m.mem.timings,
            mem_parts: m.mem.parts,
        },
        checksum: ""@,
    }
}

/// The root-only readings of a host: whether the process runs as root, and what the
/// two tools printed.
pub struct RootReadings {
    pub root: bool,
    pub dmidecode: Option<String>,
    pub decode_dimms: Option<String>,
}

impl PrivilegedError {
    fn as_fingerprint_error(self) -> (r: FingerprintError)
        ensures
            r@ == privileged_fault(self),
    {
        match self {
            PrivilegedError::NotRoot => FingerprintError::NotRoot,
            PrivilegedError::DmidecodeMissing => FingerprintError::DmidecodeMissing,
        }
    }
}

pub open spec fn privileged_fault(e: PrivilegedError) -> FingerprintErrorV {
    match e {
        PrivilegedError::NotRoot => FingerprintErrorV::NotRoot,
        PrivilegedError::DmidecodeMissing => FingerprintErrorV::DmidecodeMissing,
    }
}

impl Fingerprint {
    /// Record a machine.
    pub fn record(m: &Machine, taken: &str) -> (r: Self)
        ensures
            r@ == recorded(m@, taken@),
    {
        Fingerprint {
            schema: FINGERPRINT_SCHEMA,
            taken: taken.to_owned(),
            machine: m.hash(),
            unprivileged: Unprivileged {
                cpu_model: copy_option(&m.cpu_model),
                cpu_base_mhz: m.cpu_base_mhz,
                board_vendor: copy_option(&m.board.vendor),
                board_name: copy_option(&m.board.name),
                chipset: copy_option(&m.chipset),
                mem_total_bytes: m.mem.total_bytes,
            },
            privileged: Privileged {
                mem_speed_mts: m.mem.speed_mts,
                mem_timings: copy_option(&m.mem.timings),
                mem_parts: copy_texts(&m.mem.parts),
            },
            checksum: "".to_owned(),
        }
    }

    /// Capture a machine from the host's readings. With root-only readings the
    /// privileged block is taken in, and the capture fails with `NotRoot` or
    /// `DmidecodeMissing` when it cannot be; a missing `decode-dimms` merely leaves
    /// timings absent, which degrades the hash rather than the capture.
    pub fn capture(host: &HostReadings, privileged: Option<&RootReadings>, taken: &str) -> (r: Result<
        Self,
        FingerprintError,
    >)
        requires
            crate::machine::meminfo_readable(host.meminfo),
        ensures
            match r {
                Ok(f) => exists|probe: MachineV, m: MachineV|
                    #![trigger probed(*host, probe), recorded(m, taken@)]
                    {
                        &&& probed(*host, probe)
                        &&& f@ == recorded(m, taken@)
                        &&& m == refreshed(m)
                        &&& match privileged {
                            None => m == probe,
                            Some(p) => p.root && p.dmidecode is Some && with_memory(
                                probe,
                                m,
                                crate::machine::dmi_lines(
                                    crate::text::lines(p.dmidecode->Some_0@),
                                ),
                                option_text(p.decode_dimms),
                            ),
                        }
                    },
                Err(e) => match privileged {
                    None => false,
                    Some(p) => (!p.root && e@ is NotRoot) || (p.root && p.dmidecode is None
                        && e@ is DmidecodeMissing),
                },
            },
    {
        let mut m = Machine::probe(host);
        let ghost probe = m@;
        if let Some(p) = privileged {
            if let Err(e) = m.add_privileged(p.root, &p.dmidecode, &p.decode_dimms) {
                return Err(e.as_fingerprint_error());
            }
        }
        let f = Fingerprint::record(&m, taken);
        assert(probed(*host, probe) && f@ == recorded(m@, taken@));
        proof {
            if privileged is Some {
                refresh_is_stable(
                    MachineV {
                        mem: MemoryV { total_bytes: probe.mem.total_bytes, ..m@.mem },
                        ..probe
                    },
                );
            }
            assert(m@ == refreshed(m@));
        }
        Ok(f)
    }

    /// The machine this file describes, rebuilt from its components. The rebuilt
    /// hash must equal the recorded one: a file whose components disagree with its
    /// own `machine` field was edited by hand.
    pub fn machine(&self) -> (r: Result<Machine, FingerprintError>)
        ensures
            machine_verdict(r) == rebuilt(self@),
    {
        let mut m = Machine::unknown();
        m.cpu_model = copy_option(&self.unprivileged.cpu_model);
        m.cpu_base_mhz = self.unprivileged.cpu_base_mhz;
        m.board = Board {
            vendor: copy_option(&self.unprivileged.board_vendor),
            name: copy_option(&self.unprivileged.board_name),
        };
        m.chipset = copy_option(&self.unprivileged.chipset);
        m.mem = Memory {
            total_bytes: self.unprivileged.mem_total_bytes,
            speed_mts: self.privileged.mem_speed_mts,
            timings: copy_option(&self.privileged.mem_timings),
            parts: copy_texts(&self.privileged.mem_parts),
        };
        m.refresh_observed();
        let recomputed = m.hash();
        if !Self::same_hash_shape(self.machine.as_str(), recomputed.as_str()) {
            return Err(FingerprintError::StaleCapture { recorded: self.machine.clone() });
        }
        if !same(recomputed.as_str(), self.machine.as_str()) {
            return Err(
                FingerprintError::MachineHashMismatch { recorded: self.machine.clone(), recomputed },
            );
        }
        Ok(m)
    }

    /// The hash's shape. Any other shape is a previous generation.
    pub fn same_hash_shape(a: &str, b: &str) -> (r: bool)
        ensures
            r == same_shape(a@, b@),
    {
        a.as_bytes().len() == b.as_bytes().len() && count_hyphens(a) == count_hyphens(b)
    }

    /// Validate against a host: checksum first, then the unprivileged block, field by
    /// field. Returns the machine the run should record: the file's, which includes
    /// the privileged components an unprivileged run cannot read for itself.
    pub fn validate(&self, path: &str, host: &Machine) -> (r: Result<Machine, FingerprintError>)
        ensures
            machine_verdict(r) == validated(self@, path@, host@),
    {
        if let Err(e) = self.verify_checksum(path) {
            return Err(e);
        }
        if let Err(e) = self.validate_against(host) {
            return Err(e);
        }
        self.machine()
    }

    /// The comparison half of [`Fingerprint::validate`].
    pub fn validate_against(&self, host: &Machine) -> (r: Result<(), FingerprintError>)
        ensures
            verdict(r) == result_of(first_change(self@.unprivileged, host@)),
    {
        let u = &self.unprivileged;
        if let Some(e) = text_differs("cpu_model", &u.cpu_model, &host.cpu_model) {
            return Err(e);
        }
        if let Some(e) = number_differs(
            "cpu_base_mhz",
            widened(u.cpu_base_mhz),
            widened(host.cpu_base_mhz),
        ) {
            return Err(e);
        }
        if let Some(e) = text_differs("board_vendor", &u.board_vendor, &host.board.vendor) {
            return Err(e);
        }
        if let Some(e) = text_differs("board_name", &u.board_name, &host.board.name) {
            return Err(e);
        }
        if let Some(e) = text_differs("chipset", &u.chipset, &host.chipset) {
            return Err(e);
        }
        // A RAM upgrade is a hardware change like any other, so the total is compared
        // too even though it is not a hash component.
        if let Some(e) = number_differs("mem_total_bytes", u.mem_total_bytes, host.mem.total_bytes) {
            return Err(e);
        }
        Ok(())
    }

    /// Whether a file read from `path` may be used at all: its schema is known and
    /// its checksum is its body's.
    pub fn accept(&self, path: &str) -> (r: Result<(), FingerprintError>)
        ensures
            verdict(r) == accepted_file(self@, path@),
    {
        if self.schema != FINGERPRINT_SCHEMA {
            return Err(FingerprintError::Schema { path: path.to_owned(), found: self.schema });
        }
        self.verify_checksum(path)
    }

    /// The file's text: body plus checksum. The checksum covers exactly the
    /// characters of the body as rendered here, so verification is a re-render.
    pub fn render_file(&self) -> (r: String)
        ensures
            r@ == file_text(self@),
    {
        let mut quoted = "\"".to_owned();
        quoted.append(checksum(self.render_body().as_str()).as_str());
        quoted.append("\"");
        let mut file = self.render_head();
        push_line(&mut file, "checksum", quoted.as_str());
        file.append(self.render_tables().as_str());
        file
    }

    pub fn verify_checksum(&self, path: &str) -> (r: Result<(), FingerprintError>)
        ensures
            verdict(r) == if checksum_holds(self@) {
                Ok::<(), FingerprintErrorV>(())
            } else {
                Err(FingerprintErrorV::Checksum { path: path@ })
            },
    {
        let want = checksum(self.render_body().as_str());
        if same(want.as_str(), self.checksum.as_str()) {
            Ok(())
        } else {
            Err(FingerprintError::Checksum { path: path.to_owned() })
        }
    }

    /// The canonical body, which is the checksum's input.
    pub fn render_body(&self) -> (r: String)
        ensures
            r@ == body_text(self@),
    {
        let mut out = self.render_head();
        out.append(self.render_tables().as_str());
        out
    }

    /// Top-level keys, before any table header.
    pub fn render_head(&self) -> (r: String)
        ensures
            r@ == head_text(self@),
    {
        let mut out = "".to_owned();
        push_line(&mut out, "schema", decimal(self.schema as u64).as_str());
        push_line(&mut out, "taken", toml_str(self.taken.as_str()).as_str());
        push_line(&mut out, "machine", toml_str(self.machine.as_str()).as_str());
        proof {
            reveal_strlit("");
            assert(out@ =~= head_text(self@));
        }
        out
    }

    /// The table sections.
    pub fn render_tables(&self) -> (r: String)
        ensures
            r@ == tables_text(self@),
    {
        let mut out = "\n[unprivileged]\n".to_owned();
        push_text(&mut out, "cpu_model", &self.unprivileged.cpu_model);
        push_number(&mut out, "cpu_base_mhz", widened(self.unprivileged.cpu_base_mhz));
        push_text(&mut out, "board_vendor", &self.unprivileged.board_vendor);
        push_text(&mut out, "board_name", &self.unprivileged.board_name);
        push_text(&mut out, "chipset", &self.unprivileged.chipset);
        push_number(&mut out, "mem_total_bytes", self.unprivileged.mem_total_bytes);
        out.append("\n[privileged]\n");
        push_number(&mut out, "mem_speed_mts", widened(self.privileged.mem_speed_mts));
        push_text(&mut out, "mem_timings", &self.privileged.mem_timings);
        push_list(&mut out, "mem_parts", &self.privileged.mem_parts);
        out
    }
}

// ---------------------------------------------------------------- messages

pub open spec fn fingerprint_message(e: FingerprintErrorV) -> Seq<char> {
    match e {
        FingerprintErrorV::Io { path, err } => path + ": "@ + err,
        FingerprintErrorV::Toml { path, err } => path + " is not a fingerprint file: "@ + err,
        FingerprintErrorV::Schema { path, found } => path + " uses fingerprint schema "@ + dec(
            found as nat,
        ) + "; this engine knows "@ + dec(FINGERPRINT_SCHEMA as nat),
        FingerprintErrorV::Checksum { path } => "checksum mismatch: "@ + path
            + " was edited or copied from another machine; re-capture it with `"@
            + CAPTURE_COMMAND@ + "`"@,
        FingerprintErrorV::MachineHashMismatch { recorded, recomputed } =>
            "the fingerprint's components hash to "@ + recomputed + " but the file records "@
            + recorded + "; it was hand-edited"@,
        FingerprintErrorV::StaleCapture { recorded } =>
            "the fingerprint records a hash of a previous engine generation ("@ + recorded
            + "); re-capture it with `"@ + CAPTURE_COMMAND@ + "`"@,
        FingerprintErrorV::HardwareChanged { field, expected, found } =>
            "hardware changed, or this fingerprint came from another machine: "@ + field
            + " is now `"@ + found + "`, the fingerprint says `"@ + expected
            + "`. Re-capture with `"@ + CAPTURE_COMMAND@ + "`"@,
        FingerprintErrorV::NotRoot => "capturing the privileged block needs root: run `"@
            + CAPTURE_COMMAND@ + "`"@,
        FingerprintErrorV::DmidecodeMissing =>
            "dmidecode is not installed; the memory block cannot be captured without it (apt install dmidecode, or your distro's equivalent)"@,
    }
}

impl FingerprintError {
    pub fn to_string(&self) -> (r: String)
        ensures
            r@ == fingerprint_message(self@),
    {
        match self {
            FingerprintError::Io { path, err } => {
                let mut s = path.clone();
                s.append(": ");
                s.append(err.as_str());
                s
            },
            FingerprintError::Toml { path, err } => {
                let mut s = path.clone();
                s.append(" is not a fingerprint file: ");
                s.append(err.as_str());
                s
            },
            FingerprintError::Schema { path, found } => {
                let mut s = path.clone();
                s.append(" uses fingerprint schema ");
                s.append(decimal(*found as u64).as_str());
                s.append("; this engine knows ");
                s.append(decimal(FINGERPRINT_SCHEMA as u64).as_str());
                s
            },
            FingerprintError::Checksum { path } => {
                let mut s = "checksum mismatch: ".to_owned();
                s.append(path.as_str());
                s.append(" was edited or copied from another machine; re-capture it with `");
                s.append(CAPTURE_COMMAND);
                s.append("`");
                s
            },
            FingerprintError::MachineHashMismatch { recorded, recomputed } => {
                let mut s = "the fingerprint's components hash to ".to_owned();
                s.append(recomputed.as_str());
                s.append(" but the file records ");
                s.append(recorded.as_str());
                s.append("; it was hand-edited");
                s
            },
            FingerprintError::StaleCapture { recorded } => {
                let mut s =
                    "the fingerprint records a hash of a previous engine generation (".to_owned();
                s.append(recorded.as_str());
                s.append("); re-capture it with `");
                s.append(CAPTURE_COMMAND);
                s.append("`");
                s
            },
            FingerprintError::HardwareChanged { field, expected, found } => {
                let mut s =
                    "hardware changed, or this fingerprint came from another machine: ".to_owned();
                s.append(field.as_str());
                s.append(" is now `");
                s.append(found.as_str());
                s.append("`, the fingerprint says `");
                s.append(expected.as_str());
                s.append("`. Re-capture with `");
                s.append(CAPTURE_COMMAND);
                s.append("`");
                s
            },
            FingerprintError::NotRoot => {
                let mut s = "capturing the privileged block needs root: run `".to_owned();
                s.append(CAPTURE_COMMAND);
                s.append("`");
                s
            },
            FingerprintError::DmidecodeMissing =>
                "dmidecode is not installed; the memory block cannot be captured without it (apt install dmidecode, or your distro's equivalent)".to_owned(),
        }
    }
}

// ---------------------------------------------------------------- before a run

/// The host a run validated against: the machine to record, and the fingerprint file
/// that vouched for it. `fingerprint` is `None` when the run proceeded unverified.
pub struct ValidatedHost {
    pub machine: Machine,
    pub fingerprint: Option<String>,
    /// What to tell the operator of an unverified run.
    pub warning: Option<String>,
}

/// A [`ValidatedHost`] by its contents.
pub struct ValidatedHostV {
    pub machine: MachineV,
    pub fingerprint: Option<Seq<char>>,
    pub warning: Option<Seq<char>>,
}

impl View for ValidatedHost {
    type V = ValidatedHostV;

    open spec fn view(&self) -> ValidatedHostV {
        ValidatedHostV {
            machine: self.machine@,
            fingerprint: option_text(self.fingerprint),
            warning: option_text(self.warning),
        }
    }
}

/// What was found where the fingerprint should be.
pub enum Found {
    Nothing,
    /// The file could not be read.
    Unreadable(String),
    /// The file is not a fingerprint; the parser's words.
    Malformed(String),
    File(Fingerprint),
}

pub open spec fn stale_warning(path: Seq<char>, recorded: Seq<char>) -> Seq<char> {
    "warning: the fingerprint at "@ + path + " is from an older engine generation ("@ + recorded
        + "); continuing unverified. This run's machine hash is degraded and the dataset should reject it."@
}

pub open spec fn missing_warning(path: Seq<char>) -> Seq<char> {
    "warning: no fingerprint at "@ + path
        + "; continuing unverified. This run's machine hash is degraded and the dataset should reject it."@
}

pub open spec fn missing_message(path: Seq<char>) -> Seq<char> {
    "no machine fingerprint at "@ + path + ".\nCapture one once per machine:\n    "@
        + CAPTURE_COMMAND@ + "\nOr override for this run only: --allow-unfingerprinted"@
}

/// The run-time gate:
///
/// - a file whose checksum and hardware agree: the file's machine;
/// - a capture of an older engine generation: refused, unless unverified runs are
///   allowed, in which case what was probed;
/// - any other fault of the file: refused;
/// - no file: refused with the exact capture command, unless unverified runs are
///   allowed, in which case what was probed.
pub open spec fn gate(path: Seq<char>, found: Found, host: MachineV, allow: bool) -> Result<
    ValidatedHostV,
    Seq<char>,
> {
    match found {
        Found::Nothing => if allow {
            Ok(
                ValidatedHostV {
                    machine: host,
                    fingerprint: None,
                    warning: Some(missing_warning(path)),
                },
            )
        } else {
            Err(missing_message(path))
        },
        Found::Unreadable(err) => Err(
            fingerprint_message(FingerprintErrorV::Io { path, err: err@ }),
        ),
        Found::Malformed(err) => Err(
            fingerprint_message(FingerprintErrorV::Toml { path, err: err@ }),
        ),
        Found::File(f) => match accepted_file(f@, path) {
            Err(e) => Err(fingerprint_message(e)),
            Ok(_) => match validated(f@, path, host) {
                Ok(m) => Ok(
                    ValidatedHostV { machine: m, fingerprint: Some(path), warning: None },
                ),
                Err(e) => if allow && e is StaleCapture {
                    Ok(
                        ValidatedHostV {
                            machine: host,
                            fingerprint: None,
                            warning: Some(stale_warning(path, e->StaleCapture_recorded)),
                        },
                    )
                } else {
                    Err(fingerprint_message(e))
                },
            },
        },
    }
}

pub open spec fn gate_result(r: Result<ValidatedHost, String>) -> Result<ValidatedHostV, Seq<char>> {
    match r {
        Ok(h) => Ok(h@),
        Err(e) => Err(e@),
    }
}

/// Every run calls this before measuring, with what was found at the fingerprint's
/// path and with an unprivileged probe of the host.
pub fn validate_for_run(path: &str, found: &Found, host: Machine, allow_unfingerprinted: bool) -> (r: Result<
    ValidatedHost,
    String,
>)
    ensures
        gate_result(r) == gate(path@, *found, host@, allow_unfingerprinted),
{
    match found {
        Found::Nothing => {
            if allow_unfingerprinted {
                let mut w = "warning: no fingerprint at ".to_owned();
                w.append(path);
                w.append(
                    "; continuing unverified. This run's machine hash is degraded and the dataset should reject it.",
                );
                return Ok(ValidatedHost { machine: host, fingerprint: None, warning: Some(w) });
            }
            let mut s = "no machine fingerprint at ".to_owned();
            s.append(path);
            s.append(".\nCapture one once per machine:\n    ");
            s.append(CAPTURE_COMMAND);
            s.append("\nOr override for this run only: --allow-unfingerprinted");
            Err(s)
        },
        Found::Unreadable(err) => Err(
            FingerprintError::Io { path: path.to_owned(), err: err.clone() }.to_string(),
        ),
        Found::Malformed(err) => Err(
            FingerprintError::Toml { path: path.to_owned(), err: err.clone() }.to_string(),
        ),
        Found::File(f) => {
            if let Err(e) = f.accept(path) {
                return Err(e.to_string());
            }
            match f.validate(path, &host) {
                Ok(machine) => Ok(
                    ValidatedHost { machine, fingerprint: Some(path.to_owned()), warning: None },
                ),
                Err(e) => {
                    if allow_unfingerprinted {
                        if let FingerprintError::StaleCapture { recorded } = &e {
                            let mut w = "warning: the fingerprint at ".to_owned();
                            w.append(path);
                            w.append(" is from an older engine generation (");
                            w.append(recorded.as_str());
                            w.append(
                                "); continuing unverified. This run's machine hash is degraded and the dataset should reject it.",
                            );
                            return Ok(
                                ValidatedHost {
                                    machine: host,
                                    fingerprint: None,
                                    warning: Some(w),
                                },
                            );
                        }
                    }
                    Err(e.to_string())
                },
            }
        },
    }
}

} // verus!
