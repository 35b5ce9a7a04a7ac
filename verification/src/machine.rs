//! Machine fingerprint and continuity hash.
//!
//! The hash answers exactly one question: is this the same machine, such that
//! numbers are comparable over time? Hardware only. Kernel, OS and toolchain change
//! constantly and live in run context, where they can be faceted without severing
//! benchmark continuity.
//!
//! The hash's shape and inputs are permanent in practice: once a dataset holds rows,
//! any change here severs every historical row's continuity.
//!
//! The hash is two-part: `<10 unprivileged chars>-<5 privileged chars or UNKNOWN>`.
//! The prefix is the machine's identity, recomputable by any run; the suffix is what
//! only a fingerprint capture verified, or the literal `UNKNOWN`.

use crate::digest::{
    base32_crockford, be_value, blake3_digest, bytes_for, crockford, crockford_shape, hash_bytes, short_heads_are_whole,
    head, ALPHABET,
};
use crate::ordered::{ascending_texts, distinct_texts};
use crate::package::is_hex;
use crate::text::{
    chars, contains, contains_text, copy_option, copy_texts, dec, decimal, find, find_bounds,
    find_last_text, find_text, is_digit, lines, option_text, parse_unsigned, pieces, read_unsigned,
    rsplit_once_text, same, split, split_lines, split_once, split_once_text, split_words,
    starts_with, strip_prefix, strip_suffix, texts, trim, trimmed, words,
};
use vstd::prelude::*;
use vstd::utf8::encode_utf8;

verus! {

/// The components that feed the hash, in canonical order.
#[derive(Clone, Copy, Debug, PartialEq, Eq, PartialOrd, Ord, Structural)]
pub enum Component {
    CpuModel,
    CpuBaseMhz,
    MemSpeedMts,
    MemTimings,
    Board,
    Chipset,
}

/// The hash's shape: `<10 unprivileged chars>-<5 privileged chars or UNKNOWN>`.
pub const HASH_PREFIX_CHARS: usize = 10;

pub const HASH_SUFFIX_CHARS: usize = 5;

/// The privileged half's sentinel: memory was never verified. Uppercase so it
/// cannot be mistaken for base32 output.
pub const UNKNOWN_SUFFIX: &'static str = "UNKNOWN";

/// `/proc/meminfo`'s MemTotal is usable memory: the kernel's reservations shift it
/// by a few megabytes between boots on identical hardware, so the raw figure is
/// rounded down to 64 MiB before anything stores or compares it. A real RAM upgrade
/// moves the value by a full 64 MiB step; a reboot must not move it at all.
pub const MEM_TOTAL_ROUNDING: u64 = 0x400_0000;

#[derive(Debug)]
pub struct Board {
    pub vendor: Option<String>,
    pub name: Option<String>,
}

/// A [`Board`] by its contents.
pub struct BoardV {
    pub vendor: Option<Seq<char>>,
    pub name: Option<Seq<char>>,
}

impl View for Board {
    type V = BoardV;

    open spec fn view(&self) -> BoardV {
        BoardV {
            vendor: option_text(self.vendor),
            name: option_text(self.name),
        }
    }
}

impl Clone for Board {
    fn clone(&self) -> (r: Self)
        ensures
            r@ == self@,
    {
        let r = Board {
            vendor: copy_option(&self.vendor),
            name: copy_option(&self.name),
        };
        r
    }
}

#[derive(Debug)]
pub struct Memory {
    pub total_bytes: Option<u64>,
    pub speed_mts: Option<u32>,
    /// e.g. "30-36-36-96"
    pub timings: Option<String>,
    /// DIMM part numbers, sorted and deduplicated. Informational: not a hash
    /// component, since the same memory kit is what the timings describe.
    pub parts: Vec<String>,
}

/// A [`Memory`] by its contents.
pub struct MemoryV {
    pub total_bytes: Option<u64>,
    pub speed_mts: Option<u32>,
    pub timings: Option<Seq<char>>,
    pub parts: Seq<Seq<char>>,
}

impl View for Memory {
    type V = MemoryV;

    open spec fn view(&self) -> MemoryV {
        MemoryV {
            total_bytes: self.total_bytes,
            speed_mts: self.speed_mts,
            timings: option_text(self.timings),
            parts: texts(self.parts@),
        }
    }
}

impl Clone for Memory {
    fn clone(&self) -> (r: Self)
        ensures
            r@ == self@,
    {
        let r = Memory {
            total_bytes: self.total_bytes,
            speed_mts: self.speed_mts,
            timings: copy_option(&self.timings),
            parts: copy_texts(&self.parts),
        };
        r
    }
}

#[derive(Debug)]
pub struct Machine {
    /// Every component the hash would cover.
    pub hash_components: Vec<Component>,
    /// Those actually readable on this host.
    pub hash_observed: Vec<Component>,
    /// True when `hash_observed` is a strict subset of `hash_components`.
    pub degraded: bool,
    pub cpu_model: Option<String>,
    pub cpu_base_mhz: Option<u32>,
    pub cores_physical: Option<u32>,
    pub threads_online: Option<u32>,
    pub mem: Memory,
    pub board: Board,
    pub chipset: Option<String>,
}

/// A [`Machine`] by its contents.
pub struct MachineV {
    pub hash_components: Seq<Component>,
    pub hash_observed: Seq<Component>,
    pub degraded: bool,
    pub cpu_model: Option<Seq<char>>,
    pub cpu_base_mhz: Option<u32>,
    pub cores_physical: Option<u32>,
    pub threads_online: Option<u32>,
    pub mem: MemoryV,
    pub board: BoardV,
    pub chipset: Option<Seq<char>>,
}

impl View for Machine {
    type V = MachineV;

    open spec fn view(&self) -> MachineV {
        MachineV {
            hash_components: self.hash_components@,
            hash_observed: self.hash_observed@,
            degraded: self.degraded,
            cpu_model: option_text(self.cpu_model),
            cpu_base_mhz: self.cpu_base_mhz,
            cores_physical: self.cores_physical,
            threads_online: self.threads_online,
            mem: self.mem@,
            board: self.board@,
            chipset: option_text(self.chipset),
        }
    }
}

impl Clone for Machine {
    fn clone(&self) -> (r: Self)
        ensures
            r@ == self@,
    {
        let mut hash_components: Vec<Component> = Vec::new();
        let mut i: usize = 0;
        while i < self.hash_components.len()
            invariant
                i <= self.hash_components@.len(),
                hash_components@ == self.hash_components@.take(i as int),
            decreases self.hash_components@.len() - i,
        {
            hash_components.push(self.hash_components[i]);
            i = i + 1;
        }
        assert(hash_components@ =~= self.hash_components@);
        let mut hash_observed: Vec<Component> = Vec::new();
        i = 0;
        while i < self.hash_observed.len()
            invariant
                i <= self.hash_observed@.len(),
                hash_observed@ == self.hash_observed@.take(i as int),
            decreases self.hash_observed@.len() - i,
        {
            hash_observed.push(self.hash_observed[i]);
            i = i + 1;
        }
        assert(hash_observed@ =~= self.hash_observed@);
        let r = Machine {
            hash_components,
            hash_observed,
            degraded: self.degraded,
            cpu_model: copy_option(&self.cpu_model),
            cpu_base_mhz: self.cpu_base_mhz,
            cores_physical: self.cores_physical,
            threads_online: self.threads_online,
            mem: self.mem.clone(),
            board: self.board.clone(),
            chipset: copy_option(&self.chipset),
        };
        r
    }
}

/// Every component, in canonical order.
pub open spec fn every_component() -> Seq<Component> {
    seq![
        Component::CpuModel,
        Component::CpuBaseMhz,
        Component::MemSpeedMts,
        Component::MemTimings,
        Component::Board,
        Component::Chipset,
    ]
}

/// Every component, in canonical order.
pub fn hash_components() -> (r: Vec<Component>)
    ensures
        r@ == every_component(),
{
    let r = vec![
        Component::CpuModel,
        Component::CpuBaseMhz,
        Component::MemSpeedMts,
        Component::MemTimings,
        Component::Board,
        Component::Chipset,
    ];
    assert(r@ =~= every_component());
    r
}

/// Does reading the component need root?
pub open spec fn root_only(c: Component) -> bool {
    c is MemSpeedMts || c is MemTimings
}

pub open spec fn component_name(c: Component) -> Seq<char> {
    match c {
        Component::CpuModel => "CpuModel"@,
        Component::CpuBaseMhz => "CpuBaseMhz"@,
        Component::MemSpeedMts => "MemSpeedMts"@,
        Component::MemTimings => "MemTimings"@,
        Component::Board => "Board"@,
        Component::Chipset => "Chipset"@,
    }
}

pub open spec fn component_source(c: Component) -> Seq<char> {
    match c {
        Component::CpuModel => "/proc/cpuinfo: model name"@,
        Component::CpuBaseMhz => "/sys/devices/system/cpu/cpu0/cpufreq/base_frequency, else DMI"@,
        Component::MemSpeedMts => "dmidecode -t 17 (root)"@,
        Component::MemTimings => "dmidecode -t 17 (root), else decode-dimms"@,
        Component::Board => "/sys/devices/virtual/dmi/id/board_{vendor,name}"@,
        Component::Chipset => "lspci"@,
    }
}

impl Component {
    /// Whether reading this component needs root on Linux.
    pub fn needs_root(self) -> (r: bool)
        ensures
            r == root_only(self),
    {
        match self {
            Component::MemSpeedMts => true,
            Component::MemTimings => true,
            _ => false,
        }
    }

    /// Where the value comes from.
    pub fn source(self) -> (r: &'static str)
        ensures
            r@ == component_source(self),
    {
        match self {
            Component::CpuModel => "/proc/cpuinfo: model name",
            Component::CpuBaseMhz => "/sys/devices/system/cpu/cpu0/cpufreq/base_frequency, else DMI",
            Component::MemSpeedMts => "dmidecode -t 17 (root)",
            Component::MemTimings => "dmidecode -t 17 (root), else decode-dimms",
            Component::Board => "/sys/devices/virtual/dmi/id/board_{vendor,name}",
            Component::Chipset => "lspci",
        }
    }

    /// The name that stands for the component in the hash's input.
    pub fn name(self) -> (r: &'static str)
        ensures
            r@ == component_name(self),
    {
        match self {
            Component::CpuModel => "CpuModel",
            Component::CpuBaseMhz => "CpuBaseMhz",
            Component::MemSpeedMts => "MemSpeedMts",
            Component::MemTimings => "MemTimings",
            Component::Board => "Board",
            Component::Chipset => "Chipset",
        }
    }
}

// ---------------------------------------------------------------- the hash

/// Was the component read?
pub open spec fn observed(m: MachineV, c: Component) -> bool {
    match c {
        Component::CpuModel => m.cpu_model is Some,
        Component::CpuBaseMhz => m.cpu_base_mhz is Some,
        Component::MemSpeedMts => m.mem.speed_mts is Some,
        Component::MemTimings => m.mem.timings is Some,
        Component::Board => m.board.vendor is Some || m.board.name is Some,
        Component::Chipset => m.chipset is Some,
    }
}

pub open spec fn text_or_empty(s: Option<Seq<char>>) -> Seq<char> {
    match s {
        Some(t) => t,
        None => ""@,
    }
}

pub open spec fn number_or_empty(n: Option<u32>) -> Seq<char> {
    match n {
        Some(v) => dec(v as nat),
        None => ""@,
    }
}

/// The value of a component as written.
pub open spec fn component_value(m: MachineV, c: Component) -> Seq<char> {
    match c {
        Component::CpuModel => text_or_empty(m.cpu_model),
        Component::CpuBaseMhz => number_or_empty(m.cpu_base_mhz),
        Component::MemSpeedMts => number_or_empty(m.mem.speed_mts),
        Component::MemTimings => text_or_empty(m.mem.timings),
        Component::Board => text_or_empty(m.board.vendor) + "/"@ + text_or_empty(m.board.name),
        Component::Chipset => text_or_empty(m.chipset),
    }
}

/// The components of a list of which a test holds, in order.
pub open spec fn kept(list: Seq<Component>, test: spec_fn(Component) -> bool) -> Seq<Component>
    decreases list.len(),
{
    if list.len() == 0 {
        Seq::empty()
    } else {
        let rest = kept(list.drop_last(), test);
        if test(list.last()) {
            rest.push(list.last())
        } else {
            rest
        }
    }
}

/// The components of one privilege tier.
pub open spec fn tier(list: Seq<Component>, root: bool) -> Seq<Component> {
    kept(list, |c: Component| root_only(c) == root)
}

/// The names of components, each with a semicolon.
pub open spec fn name_list(list: Seq<Component>) -> Seq<char>
    decreases list.len(),
{
    if list.len() == 0 {
        Seq::empty()
    } else {
        name_list(list.drop_last()) + component_name(list.last()) + ";"@
    }
}

/// The values of components, each behind its name.
pub open spec fn value_list(m: MachineV, list: Seq<Component>) -> Seq<char>
    decreases list.len(),
{
    if list.len() == 0 {
        Seq::empty()
    } else {
        value_list(m, list.drop_last()) + component_name(list.last()) + "="@ + component_value(
            m,
            list.last(),
        ) + ";"@
    }
}

/// What a tier's hash is taken of: the observed set before any value, so that two
/// probes that read different components do not share an input.
pub open spec fn canonical(m: MachineV, list: Seq<Component>) -> Seq<char> {
    name_list(list) + "|"@ + value_list(m, list)
}

pub open spec fn tier_hash(m: MachineV, list: Seq<Component>, chars: nat) -> Seq<char> {
    crockford(
        be_value(head(blake3_digest(encode_utf8(canonical(m, list))), bytes_for(chars))),
        chars,
    )
}

pub open spec fn prefix_hash(m: MachineV) -> Seq<char> {
    tier_hash(m, tier(m.hash_observed, false), 10)
}

pub open spec fn suffix_hash(m: MachineV) -> Seq<char> {
    let list = tier(m.hash_observed, true);
    if list.len() == 0 {
        UNKNOWN_SUFFIX@
    } else {
        tier_hash(m, list, 5)
    }
}

pub open spec fn machine_hash(m: MachineV) -> Seq<char> {
    prefix_hash(m) + "-"@ + suffix_hash(m)
}

/// A machine with the record of what was read brought up to date.
pub open spec fn refreshed(m: MachineV) -> MachineV {
    let list = kept(every_component(), |c: Component| observed(m, c));
    MachineV { hash_observed: list, degraded: list.len() != m.hash_components.len(), ..m }
}

/// A machine with nothing observed.
pub open spec fn unknown_machine() -> MachineV {
    MachineV {
        hash_components: every_component(),
        hash_observed: Seq::empty(),
        degraded: true,
        cpu_model: None,
        cpu_base_mhz: None,
        cores_physical: None,
        threads_online: None,
        mem: MemoryV { total_bytes: None, speed_mts: None, timings: None, parts: Seq::empty() },
        board: BoardV { vendor: None, name: None },
        chipset: None,
    }
}

/// One line of the account of a machine.
pub open spec fn component_line(m: MachineV, c: Component) -> Seq<char> {
    let shown = if observed(m, c) {
        "ok  ] "@ + component_name(c) + ": "@ + component_value(m, c)
    } else if root_only(c) {
        "MISS] "@ + component_name(c) + ": unreadable without root"@
    } else {
        "MISS] "@ + component_name(c) + ": unreadable"@
    };
    "  ["@ + shown + "\n         from "@ + component_source(c) + "\n"@
}

pub open spec fn component_lines(m: MachineV, list: Seq<Component>) -> Seq<char>
    decreases list.len(),
{
    if list.len() == 0 {
        Seq::empty()
    } else {
        component_lines(m, list.drop_last()) + component_line(m, list.last())
    }
}

/// The account of what was and was not readable.
pub open spec fn explanation(m: MachineV) -> Seq<char> {
    "machine hash: "@ + machine_hash(m) + "\n"@ + (if m.hash_observed.len()
        != m.hash_components.len() {
        DEGRADED_NOTE@
    } else {
        ""@
    }) + component_lines(m, m.hash_components)
}

pub const DEGRADED_NOTE: &'static str = "  DEGRADED: some components were unreadable; this hash will not match one\n                   taken on the same machine with them present, by design.\n";

fn option_or_empty(s: &Option<String>) -> (r: String)
    ensures
        r@ == text_or_empty(option_text(*s)),
{
    match s {
        Some(t) => t.clone(),
        None => "".to_owned(),
    }
}

fn option_number(n: &Option<u32>) -> (r: String)
    ensures
        r@ == number_or_empty(*n),
{
    match n {
        Some(v) => decimal(*v as u64),
        None => "".to_owned(),
    }
}

impl Machine {
    /// A machine with nothing observed, the starting point for a probe.
    pub fn unknown() -> (r: Self)
        ensures
            r@ == unknown_machine(),
    {
        let r = Machine {
            hash_components: hash_components(),
            hash_observed: Vec::new(),
            degraded: true,
            cpu_model: None,
            cpu_base_mhz: None,
            cores_physical: None,
            threads_online: None,
            mem: Memory { total_bytes: None, speed_mts: None, timings: None, parts: Vec::new() },
            board: Board { vendor: None, name: None },
            chipset: None,
        };
        assert(r@.mem.parts =~= Seq::empty());
        assert(r@.hash_observed =~= Seq::empty());
        r
    }

    /// Recompute `hash_observed` and `degraded` from which fields are populated.
    pub fn refresh_observed(&mut self)
        ensures
            final(self)@ == refreshed(old(self)@),
    {
        let ghost m = self@;
        let ghost test = |c: Component| observed(m, c);
        let all = hash_components();
        let mut list: Vec<Component> = Vec::new();
        let mut i: usize = 0;
        assert(list@ =~= kept(all@.take(0), test));
        while i < all.len()
            invariant
                i <= all@.len(),
                all@ == every_component(),
                m == self@,
                test == (|c: Component| observed(m, c)),
                list@ == kept(all@.take(i as int), test),
            decreases all@.len() - i,
        {
            proof {
                let t = all@.take(i + 1);
                assert(t.drop_last() =~= all@.take(i as int));
                assert(t.last() == all@[i as int]);
            }
            if self.has(all[i]) {
                list.push(all[i]);
            }
            i = i + 1;
        }
        assert(all@.take(all@.len() as int) =~= all@);
        self.hash_observed = list;
        self.degraded = self.hash_observed.len() != self.hash_components.len();
    }

    pub fn has(&self, component: Component) -> (r: bool)
        ensures
            r == observed(self@, component),
    {
        match component {
            Component::CpuModel => self.cpu_model.is_some(),
            Component::CpuBaseMhz => self.cpu_base_mhz.is_some(),
            Component::MemSpeedMts => self.mem.speed_mts.is_some(),
            Component::MemTimings => self.mem.timings.is_some(),
            Component::Board => self.board.vendor.is_some() || self.board.name.is_some(),
            Component::Chipset => self.chipset.is_some(),
        }
    }

    pub fn value_of(&self, component: Component) -> (r: String)
        ensures
            r@ == component_value(self@, component),
    {
        match component {
            Component::CpuModel => option_or_empty(&self.cpu_model),
            Component::CpuBaseMhz => option_number(&self.cpu_base_mhz),
            Component::MemSpeedMts => option_number(&self.mem.speed_mts),
            Component::MemTimings => option_or_empty(&self.mem.timings),
            Component::Board => {
                let mut s = option_or_empty(&self.board.vendor);
                s.append("/");
                s.append(option_or_empty(&self.board.name).as_str());
                s
            },
            Component::Chipset => option_or_empty(&self.chipset),
        }
    }

    /// The continuity hash, in two privilege tiers: `<unprivileged>-<privileged>`,
    /// e.g. `e66e3ymtef-k3vxq`, or `e66e3ymtef-UNKNOWN` when memory was never
    /// verified.
    ///
    /// The prefix covers what any run on this box can read: the machine's identity,
    /// stable whether or not a fingerprint exists, and recomputable without root.
    /// The suffix covers what only a fingerprint capture could read; it is the
    /// literal `UNKNOWN` when nothing root-only was determined, so an unverified run
    /// is visibly unverified.
    ///
    /// The full string is the join key. Charts join on all of it, never the prefix
    /// alone: joining on the prefix would merge unverified runs into verified
    /// history.
    pub fn hash(&self) -> (r: String)
        ensures
            r@ == machine_hash(self@),
    {
        let mut s = self.unprivileged_hash();
        s.append("-");
        s.append(self.privileged_hash().as_str());
        s
    }

    /// The unprivileged half: what any run on this box can recompute.
    pub fn unprivileged_hash(&self) -> (r: String)
        ensures
            r@ == prefix_hash(self@),
    {
        self.hash_tier(false, HASH_PREFIX_CHARS)
    }

    /// The privileged half, or the `UNKNOWN` sentinel when nothing root-only was
    /// read: no fingerprint, or a capture whose privileged block is empty.
    pub fn privileged_hash(&self) -> (r: String)
        ensures
            r@ == suffix_hash(self@),
    {
        let list = self.tier_components(true);
        if list.len() == 0 {
            return UNKNOWN_SUFFIX.to_owned();
        }
        self.hash_tier_observed(&list, HASH_SUFFIX_CHARS)
    }

    fn tier_components(&self, root: bool) -> (r: Vec<Component>)
        ensures
            r@ == tier(self@.hash_observed, root),
    {
        let ghost test = |c: Component| root_only(c) == root;
        let ghost all = self.hash_observed@;
        let mut list: Vec<Component> = Vec::new();
        let mut i: usize = 0;
        assert(list@ =~= kept(all.take(0), test));
        while i < self.hash_observed.len()
            invariant
                i <= self.hash_observed@.len(),
                all == self.hash_observed@,
                test == (|c: Component| root_only(c) == root),
                list@ == kept(all.take(i as int), test),
            decreases self.hash_observed@.len() - i,
        {
            proof {
                let t = all.take(i + 1);
                assert(t.drop_last() =~= all.take(i as int));
                assert(t.last() == all[i as int]);
            }
            if self.hash_observed[i].needs_root() == root {
                list.push(self.hash_observed[i]);
            }
            i = i + 1;
        }
        assert(all.take(all.len() as int) =~= all);
        list
    }

    fn hash_tier(&self, root: bool, chars: usize) -> (r: String)
        requires
            chars <= 12,
        ensures
            r@ == tier_hash(self@, tier(self@.hash_observed, root), chars as nat),
    {
        let list = self.tier_components(root);
        self.hash_tier_observed(&list, chars)
    }

    fn hash_tier_observed(&self, list: &Vec<Component>, chars: usize) -> (r: String)
        requires
            chars <= 12,
        ensures
            r@ == tier_hash(self@, list@, chars as nat),
    {
        let mut names = String::new();
        let mut vals = String::new();
        let mut i: usize = 0;
        assert(names@ =~= name_list(list@.take(0)));
        assert(vals@ =~= value_list(self@, list@.take(0)));
        while i < list.len()
            invariant
                i <= list@.len(),
                names@ == name_list(list@.take(i as int)),
                vals@ == value_list(self@, list@.take(i as int)),
            decreases list@.len() - i,
        {
            proof {
                let t = list@.take(i + 1);
                assert(t.drop_last() =~= list@.take(i as int));
                assert(t.last() == list@[i as int]);
            }
            names.append(list[i].name());
            names.append(";");
            vals.append(list[i].name());
            vals.append("=");
            vals.append(self.value_of(list[i]).as_str());
            vals.append(";");
            i = i + 1;
        }
        assert(list@.take(list@.len() as int) =~= list@);
        names.append("|");
        names.append(vals.as_str());
        let digest = hash_bytes(names.as_str().as_bytes());
        proof {
            short_heads_are_whole(digest@, chars as nat);
        }
        base32_crockford(digest.as_slice(), chars)
    }

    /// True when some component the hash covers could not be read here.
    pub fn is_degraded(&self) -> (r: bool)
        ensures
            r == (self@.hash_observed.len() != self@.hash_components.len()),
    {
        self.hash_observed.len() != self.hash_components.len()
    }

    /// Human-readable account of what was and was not readable, and why.
    pub fn explain(&self) -> (r: String)
        ensures
            r@ == explanation(self@),
    {
        let mut out = "machine hash: ".to_owned();
        out.append(self.hash().as_str());
        out.append("\n");
        if self.is_degraded() {
            out.append(DEGRADED_NOTE);
        } else {
            out.append("");
        }
        let ghost start = out@;
        let mut i: usize = 0;
        let ghost list = self.hash_components@;
        assert(start + component_lines(self@, list.take(0)) =~= start);
        while i < self.hash_components.len()
            invariant
                i <= self.hash_components@.len(),
                list == self.hash_components@,
                out@ == start + component_lines(self@, list.take(i as int)),
            decreases self.hash_components@.len() - i,
        {
            let c = self.hash_components[i];
            proof {
                let t = list.take(i + 1);
                assert(t.drop_last() =~= list.take(i as int));
                assert(t.last() == c);
            }
            let mut shown = if self.has(c) {
                let mut s = "ok  ] ".to_owned();
                s.append(c.name());
                s.append(": ");
                s.append(self.value_of(c).as_str());
                s
            } else if c.needs_root() {
                let mut s = "MISS] ".to_owned();
                s.append(c.name());
                s.append(": unreadable without root");
                s
            } else {
                let mut s = "MISS] ".to_owned();
                s.append(c.name());
                s.append(": unreadable");
                s
            };
            let mut line = "  [".to_owned();
            line.append(shown.as_str());
            line.append("\n         from ");
            line.append(c.source());
            line.append("\n");
            out.append(line.as_str());
            proof {
                let before = component_lines(self@, list.take(i as int));
                assert(start + before + component_line(self@, c) =~= start + (before
                    + component_line(self@, c)));
            }
            i = i + 1;
        }
        assert(list.take(list.len() as int) =~= list);
        out
    }
}

// ---------------------------------------------------------------- parsers

/// What stands behind a prefix on the first line that has it.
pub open spec fn after_prefix(ls: Seq<Seq<char>>, prefix: Seq<char>) -> Option<Seq<char>>
    decreases ls.len(),
{
    if ls.len() == 0 {
        None
    } else if prefix.is_prefix_of(ls[0]) {
        Some(ls[0].skip(prefix.len() as int))
    } else {
        after_prefix(ls.drop_first(), prefix)
    }
}

/// What stands behind the first colon.
pub open spec fn after_colon(s: Seq<char>) -> Option<Seq<char>> {
    if find(s, ':') < s.len() {
        Some(s.skip(find(s, ':') + 1))
    } else {
        None
    }
}

/// The model that `/proc/cpuinfo` names first.
pub open spec fn cpu_model_of(text: Seq<char>) -> Option<Seq<char>> {
    match after_prefix(lines(text), "model name"@) {
        Some(rest) => match after_colon(rest) {
            Some(v) => if trim(v).len() > 0 {
                Some(trim(v))
            } else {
                None
            },
            None => None,
        },
        None => None,
    }
}

/// The number of cores that `/proc/cpuinfo` names first.
pub open spec fn cpu_cores_of(text: Seq<char>) -> Option<nat> {
    match after_prefix(lines(text), "cpu cores"@) {
        Some(rest) => match after_colon(rest) {
            Some(v) => read_unsigned(trim(v), u32::MAX as nat),
            None => None,
        },
        None => None,
    }
}

/// How many lines start with a prefix.
pub open spec fn lines_with(ls: Seq<Seq<char>>, prefix: Seq<char>) -> nat
    decreases ls.len(),
{
    if ls.len() == 0 {
        0
    } else {
        lines_with(ls.drop_last(), prefix) + (if prefix.is_prefix_of(ls.last()) {
            1nat
        } else {
            0nat
        })
    }
}

/// The first word.
pub open spec fn first_word(s: Seq<char>) -> Option<Seq<char>> {
    if words(s).len() > 0 {
        Some(words(s)[0])
    } else {
        None
    }
}

/// The kibibytes that `/proc/meminfo` gives as the total.
pub open spec fn meminfo_kib(text: Seq<char>) -> Option<nat> {
    match after_prefix(lines(text), "MemTotal:"@) {
        Some(rest) => match first_word(rest) {
            Some(w) => read_unsigned(w, u64::MAX as nat),
            None => None,
        },
        None => None,
    }
}

/// Bytes rounded down to a whole step.
pub open spec fn rounded_bytes(kib: nat) -> nat {
    kib * 1024 / MEM_TOTAL_ROUNDING as nat * MEM_TOTAL_ROUNDING as nat
}

fn line_after_prefix(text: &str, prefix: &str) -> (r: Option<String>)
    ensures
        option_text(r) == after_prefix(lines(text@), prefix@),
{
    let ls = split_lines(text);
    let ghost all = texts(ls@);
    let mut i: usize = 0;
    assert(all.skip(0) =~= all);
    while i < ls.len()
        invariant
            i <= ls@.len(),
            all == texts(ls@),
            all == lines(text@),
            after_prefix(all, prefix@) == after_prefix(all.skip(i as int), prefix@),
        decreases ls@.len() - i,
    {
        assert(all.skip(i as int).drop_first() =~= all.skip(i + 1));
        assert(all.skip(i as int)[0] == ls@[i as int]@);
        if let Some(rest) = strip_prefix(ls[i].as_str(), prefix) {
            return Some(rest.to_owned());
        }
        i = i + 1;
    }
    None
}

fn text_after_colon<'a>(s: &'a str) -> (r: Option<&'a str>)
    ensures
        (match r {
            Some(t) => Some(t@),
            None => None,
        }) == after_colon(s@),
{
    proof {
        find_bounds(s@, ':');
    }
    match split_once(s, ':') {
        Some((_, v)) => Some(v),
        None => None,
    }
}

pub fn parse_cpu_model(cpuinfo: &str) -> (r: Option<String>)
    ensures
        option_text(r) == cpu_model_of(cpuinfo@),
{
    match line_after_prefix(cpuinfo, "model name") {
        None => None,
        Some(rest) => match text_after_colon(rest.as_str()) {
            None => None,
            Some(v) => {
                let t = trimmed(v);
                if t.is_empty() {
                    None
                } else {
                    Some(t.to_owned())
                }
            },
        },
    }
}

pub fn parse_cpu_cores(cpuinfo: &str) -> (r: Option<u32>)
    ensures
        match r {
            Some(n) => cpu_cores_of(cpuinfo@) == Some(n as nat),
            None => cpu_cores_of(cpuinfo@) is None,
        },
{
    match line_after_prefix(cpuinfo, "cpu cores") {
        None => None,
        Some(rest) => match text_after_colon(rest.as_str()) {
            None => None,
            Some(v) => match parse_unsigned(trimmed(v), u32::MAX as u64) {
                Some(n) => Some(n as u32),
                None => None,
            },
        },
    }
}

pub fn count_processors(cpuinfo: &str) -> (r: u32)
    ensures
        r == lines_with(lines(cpuinfo@), "processor"@) as u32,
{
    let ls = split_lines(cpuinfo);
    let ghost all = texts(ls@);
    let mut n: usize = 0;
    let mut i: usize = 0;
    while i < ls.len()
        invariant
            i <= ls@.len(),
            n <= i,
            all == texts(ls@),
            n == lines_with(all.take(i as int), "processor"@),
        decreases ls@.len() - i,
    {
        proof {
            let t = all.take(i + 1);
            assert(t.drop_last() =~= all.take(i as int));
            assert(t.last() == ls@[i as int]@);
        }
        if starts_with(ls[i].as_str(), "processor") {
            n = n + 1;
        }
        i = i + 1;
    }
    assert(all.take(ls@.len() as int) =~= all);
    n as u32
}

/// Whether the total, where one is given, can be written in bytes.
pub open spec fn meminfo_readable(meminfo: Option<String>) -> bool {
    match option_text(meminfo) {
        Some(t) => match meminfo_kib(t) {
            Some(kib) => kib * 1024 <= u64::MAX,
            None => true,
        },
        None => true,
    }
}

/// Can the total be written in bytes?
pub fn meminfo_fits(meminfo: &str) -> (r: bool)
    ensures
        r == (meminfo_kib(meminfo@) is Some ==> meminfo_kib(meminfo@)->Some_0 * 1024 <= u64::MAX),
{
    match meminfo_total_kib(meminfo) {
        Some(kib) => kib <= u64::MAX / 1024,
        None => true,
    }
}

fn meminfo_total_kib(meminfo: &str) -> (r: Option<u64>)
    ensures
        match r {
            Some(n) => meminfo_kib(meminfo@) == Some(n as nat),
            None => meminfo_kib(meminfo@) is None,
        },
{
    match line_after_prefix(meminfo, "MemTotal:") {
        None => None,
        Some(rest) => {
            let ws = split_words(rest.as_str());
            if ws.len() == 0 {
                return None;
            }
            assert(texts(ws@)[0] == ws@[0]@);
            parse_unsigned(ws[0].as_str(), u64::MAX)
        },
    }
}

pub fn parse_meminfo_total(meminfo: &str) -> (r: Option<u64>)
    requires
        meminfo_kib(meminfo@) is Some ==> meminfo_kib(meminfo@)->Some_0 * 1024 <= u64::MAX,
    ensures
        match r {
            Some(n) => meminfo_kib(meminfo@) is Some && n == rounded_bytes(
                meminfo_kib(meminfo@)->Some_0,
            ),
            None => meminfo_kib(meminfo@) is None,
        },
{
    match meminfo_total_kib(meminfo) {
        Some(kib) => Some(kib * 1024 / MEM_TOTAL_ROUNDING * MEM_TOTAL_ROUNDING),
        None => None,
    }
}

/// A speed in megatransfers: the first word, as a number.
pub open spec fn mts_of(rest: Seq<char>) -> Option<nat> {
    match first_word(rest) {
        Some(w) => read_unsigned(w, u32::MAX as nat),
        None => None,
    }
}

pub fn mts(rest: &str) -> (r: Option<u32>)
    ensures
        match r {
            Some(n) => mts_of(rest@) == Some(n as nat),
            None => mts_of(rest@) is None,
        },
{
    let ws = split_words(rest);
    if ws.len() == 0 {
        return None;
    }
    assert(texts(ws@)[0] == ws@[0]@);
    match parse_unsigned(ws[0].as_str(), u32::MAX as u64) {
        Some(n) => Some(n as u32),
        None => None,
    }
}

/// What `dmidecode` says of the memory, line by line: the configured speed (the
/// last that reads decides; an empty slot has none), the rated speed (the first that
/// reads decides), and the part numbers.
pub struct DmiV {
    pub configured: Option<nat>,
    pub rated: Option<nat>,
    pub parts: Seq<Seq<char>>,
}

pub open spec fn dmi_line(d: DmiV, line: Seq<char>) -> DmiV {
    let t = trim(line);
    let (a, b, c) = ("Configured Memory Speed:"@, "Speed:"@, "Part Number:"@);
    if a.is_prefix_of(t) {
        DmiV {
            configured: match mts_of(t.skip(a.len() as int)) {
                Some(n) => Some(n),
                None => d.configured,
            },
            ..d
        }
    } else if b.is_prefix_of(t) {
        DmiV {
            rated: if d.rated is Some {
                d.rated
            } else {
                mts_of(t.skip(b.len() as int))
            },
            ..d
        }
    } else if c.is_prefix_of(t) {
        let part = trim(t.skip(c.len() as int));
        if part.len() > 0 && part != "Not Specified"@ {
            DmiV { parts: d.parts.push(part), ..d }
        } else {
            d
        }
    } else {
        d
    }
}

pub open spec fn dmi_lines(ls: Seq<Seq<char>>) -> DmiV
    decreases ls.len(),
{
    if ls.len() == 0 {
        DmiV { configured: None, rated: None, parts: Seq::empty() }
    } else {
        dmi_line(dmi_lines(ls.drop_last()), ls.last())
    }
}

/// The speed that the machine runs at: the configured one where it is given.
pub open spec fn dmi_speed(d: DmiV) -> Option<nat> {
    if d.configured is Some {
        d.configured
    } else {
        d.rated
    }
}

pub open spec fn speed_nat(n: Option<u32>) -> Option<nat> {
    match n {
        Some(v) => Some(v as nat),
        None => None,
    }
}

/// Memory speed and part numbers from `dmidecode -t 17`.
///
/// `Configured Memory Speed` is preferred over the DIMM's rated `Speed`: the
/// configured figure is what the machine actually runs at, which is what a
/// continuity hash cares about. A slot that is empty, and so has no speed, does not
/// take back what another slot said.
pub fn parse_dmidecode(out: &str) -> (r: (Option<u32>, Vec<String>))
    ensures
        speed_nat(r.0) == dmi_speed(dmi_lines(lines(out@))),
        ascending_texts(texts(r.1@)),
        forall|p: Seq<char>|
            #[trigger] texts(r.1@).contains(p) == dmi_lines(lines(out@)).parts.contains(p),
{
    let ls = split_lines(out);
    let ghost all = texts(ls@);
    let mut speed: Option<u32> = None;
    let mut rated: Option<u32> = None;
    let mut parts: Vec<String> = Vec::new();
    let mut i: usize = 0;
    assert(texts(parts@) =~= Seq::empty());
    while i < ls.len()
        invariant
            i <= ls@.len(),
            all == texts(ls@),
            dmi_lines(all.take(i as int)) == (DmiV {
                configured: speed_nat(speed),
                rated: speed_nat(rated),
                parts: texts(parts@),
            }),
        decreases ls@.len() - i,
    {
        let ghost before = texts(parts@);
        proof {
            let t = all.take(i + 1);
            assert(t.drop_last() =~= all.take(i as int));
            assert(t.last() == ls@[i as int]@);
        }
        let line = trimmed(ls[i].as_str());
        if let Some(rest) = strip_prefix(line, "Configured Memory Speed:") {
            if let Some(n) = mts(rest) {
                speed = Some(n);
            }
        } else if let Some(rest) = strip_prefix(line, "Speed:") {
            if rated.is_none() {
                rated = mts(rest);
            }
        } else if let Some(rest) = strip_prefix(line, "Part Number:") {
            let part = trimmed(rest);
            if !part.is_empty() && !same(part, "Not Specified") {
                parts.push(part.to_owned());
                assert(texts(parts@) =~= before.push(part@));
            }
        }
        i = i + 1;
    }
    assert(all.take(ls@.len() as int) =~= all);
    let chosen = match speed {
        Some(n) => Some(n),
        None => rated,
    };
    (chosen, distinct_texts(parts))
}

/// Four groups of digits between hyphens.
pub open spec fn is_timing_set(w: Seq<char>) -> bool {
    let groups = split(w, '-');
    &&& groups.len() == 4
    &&& forall|i: int, j: int|
        0 <= i < groups.len() && 0 <= j < groups[i].len() ==> is_digit(#[trigger] groups[i][j])
}

/// The timings on one line of `decode-dimms`: the first word behind the last colon.
pub open spec fn line_timings(l: Seq<char>) -> Option<Seq<char>> {
    if !contains_text(l, "tRCD"@) {
        None
    } else {
        match find_last_text(l, ":"@) {
            None => None,
            Some(at) => match first_word(trim(l.skip(at + 1))) {
                None => None,
                Some(w) => if is_timing_set(w) {
                    Some(w)
                } else {
                    None
                },
            },
        }
    }
}

/// The first line that has timings decides.
pub open spec fn first_timings(ls: Seq<Seq<char>>) -> Option<Seq<char>>
    decreases ls.len(),
{
    if ls.len() == 0 {
        None
    } else if line_timings(ls[0]) is Some {
        line_timings(ls[0])
    } else {
        first_timings(ls.drop_first())
    }
}

fn all_digits_in(s: &str) -> (r: bool)
    ensures
        r == (forall|j: int| 0 <= j < s@.len() ==> is_digit(#[trigger] s@[j])),
{
    let v = chars(s);
    let mut i: usize = 0;
    while i < v.len()
        invariant
            i <= v@.len(),
            v@ == s@,
            forall|j: int| 0 <= j < i ==> is_digit(#[trigger] v@[j]),
        decreases v@.len() - i,
    {
        let c = v[i];
        if !('0' <= c && c <= '9') {
            assert(!is_digit(s@[i as int]));
            return false;
        }
        i = i + 1;
    }
    true
}

fn timing_set(w: &str) -> (r: bool)
    ensures
        r == is_timing_set(w@),
{
    let groups = pieces(w, '-');
    let ghost gs = texts(groups@);
    if groups.len() != 4 {
        return false;
    }
    let mut i: usize = 0;
    while i < groups.len()
        invariant
            i <= groups@.len(),
            gs == texts(groups@),
            gs == split(w@, '-'),
            groups@.len() == 4,
            forall|k: int, j: int|
                0 <= k < i && 0 <= j < gs[k].len() ==> is_digit(#[trigger] gs[k][j]),
        decreases groups@.len() - i,
    {
        assert(gs[i as int] == groups@[i as int]@);
        if !all_digits_in(groups[i].as_str()) {
            proof {
                let j = choose|j: int|
                    0 <= j < groups@[i as int]@.len() && !is_digit(
                        #[trigger] groups@[i as int]@[j],
                    );
                assert(!is_digit(gs[i as int][j]));
            }
            return false;
        }
        i = i + 1;
    }
    true
}

/// Timings from `decode-dimms`, e.g. `tCL-tRCD-tRP-tRAS as DDR5-6000: 30-36-36-96`.
/// DMI has no CAS latency; the SPD does, through this tool.
pub fn parse_dimm_timings(out: &str) -> (r: Option<String>)
    ensures
        option_text(r) == first_timings(lines(out@)),
{
    let ls = split_lines(out);
    let ghost all = texts(ls@);
    let mut i: usize = 0;
    proof {
        assert(all.skip(0) =~= all);
        reveal_strlit(":");
    }
    while i < ls.len()
        invariant
            i <= ls@.len(),
            all == texts(ls@),
            all == lines(out@),
            ":"@.len() == 1,
            first_timings(all) == first_timings(all.skip(i as int)),
        decreases ls@.len() - i,
    {
        assert(all.skip(i as int).drop_first() =~= all.skip(i + 1));
        assert(all.skip(i as int)[0] == ls@[i as int]@);
        let l = ls[i].as_str();
        if contains(l, "tRCD") {
            if let Some((_, after)) = rsplit_once_text(l, ":") {
                let ws = split_words(trimmed(after));
                if ws.len() > 0 {
                    assert(texts(ws@)[0] == ws@[0]@);
                    if timing_set(ws[0].as_str()) {
                        return Some(ws[0].clone());
                    }
                }
            }
        }
        i = i + 1;
    }
    None
}

/// The first line that names the host bridge.
pub open spec fn bridge_line(ls: Seq<Seq<char>>) -> Option<Seq<char>>
    decreases ls.len(),
{
    if ls.len() == 0 {
        None
    } else if contains_text(ls[0], "Host bridge"@) {
        Some(ls[0])
    } else {
        bridge_line(ls.drop_first())
    }
}

/// What stands behind a text.
pub open spec fn behind(s: Seq<char>, pat: Seq<char>) -> Option<Seq<char>> {
    match find_text(s, pat) {
        Some(at) => Some(s.skip(at + pat.len())),
        None => None,
    }
}

/// A description without its revision.
pub open spec fn without_revision(s: Seq<char>) -> Seq<char> {
    match find_text(s, " (rev"@) {
        Some(at) => trim(s.take(at)),
        None => s,
    }
}

/// Two non-empty runs of hexadecimal digits around a colon.
pub open spec fn is_pci_id(s: Seq<char>) -> bool {
    let at = find(s, ':');
    &&& 0 < at < s.len() - 1
    &&& forall|i: int| 0 <= i < s.len() && i != at ==> is_hex(#[trigger] s[i])
}

/// A description without a trailing ` [1234:5678]`; an embedded `[AMD]` stays.
pub open spec fn without_pci_id(s: Seq<char>) -> Seq<char> {
    if s.len() > 0 && s.last() == ']' {
        let head = s.drop_last();
        match find_last_text(head, " ["@) {
            Some(at) => if is_pci_id(head.skip(at + 2)) {
                head.take(at)
            } else {
                s
            },
            None => s,
        }
    } else {
        s
    }
}

/// The description of the host bridge on its line.
pub open spec fn bridge_description(line: Seq<char>) -> Option<Seq<char>> {
    match behind(line, "Host bridge:"@) {
        Some(rest) => Some(trim(rest)),
        None => match behind(line, "\"Host bridge\" "@) {
            Some(rest) => Some(trim(rest)),
            None => None,
        },
    }
}

/// The chipset that `lspci` names.
pub open spec fn chipset_of(text: Seq<char>) -> Option<Seq<char>> {
    match bridge_line(lines(text)) {
        None => None,
        Some(line) => match bridge_description(line) {
            None => None,
            Some(d) => {
                let desc = without_pci_id(without_revision(d));
                if desc.len() > 0 {
                    Some(desc)
                } else {
                    None
                }
            },
        },
    }
}

fn pci_id(s: &str) -> (r: bool)
    ensures
        r == is_pci_id(s@),
{
    let v = chars(s);
    let at = crate::text::find_from(&v, ':', 0);
    assert(v@.skip(0) =~= v@);
    if at == 0 || at >= v.len() || at + 1 == v.len() {
        return false;
    }
    let mut i: usize = 0;
    while i < v.len()
        invariant
            i <= v@.len(),
            v@ == s@,
            at == find(s@, ':'),
            0 < at < v@.len() - 1,
            forall|j: int| 0 <= j < i && j != at ==> is_hex(#[trigger] v@[j]),
        decreases v@.len() - i,
    {
        let c = v[i];
        let hex = ('0' <= c && c <= '9') || ('a' <= c && c <= 'f') || ('A' <= c && c <= 'F');
        if i != at && !hex {
            assert(!is_hex(s@[i as int]));
            return false;
        }
        i = i + 1;
    }
    true
}

fn strip_pci_id<'a>(s: &'a str) -> (r: &'a str)
    ensures
        r@ == without_pci_id(s@),
{
    proof {
        reveal_strlit("]");
        reveal_strlit(" [");
        assert("]"@ =~= seq![']']);
    }
    match strip_suffix(s, "]") {
        None => {
            proof {
                if s@.len() > 0 && s@.last() == ']' {
                    assert(s@.subrange(s@.len() - 1, s@.len() as int) =~= "]"@);
                    assert("]"@.is_suffix_of(s@));
                }
            }
            s
        },
        Some(head) => {
            proof {
                assert(s@.last() == "]"@[0]);
                assert(head@ =~= s@.drop_last());
            }
            match rsplit_once_text(head, " [") {
                None => s,
                Some((h, id)) => if pci_id(id) {
                    h
                } else {
                    s
                },
            }
        },
    }
}

/// `00:00.0 Host bridge: Advanced Micro Devices, Inc. [AMD] Device 1482 (rev 01)`
/// becomes `Advanced Micro Devices, Inc. [AMD] Device 1482`: the trailing revision
/// and PCI id are dropped so a BIOS update that renumbers nothing does not break
/// continuity.
pub fn parse_lspci_chipset(out: &str) -> (r: Option<String>)
    ensures
        option_text(r) == chipset_of(out@),
{
    let ls = split_lines(out);
    let ghost all = texts(ls@);
    let mut i: usize = 0;
    assert(all.skip(0) =~= all);
    while i < ls.len() && !contains(ls[i].as_str(), "Host bridge")
        invariant
            i <= ls@.len(),
            all == texts(ls@),
            bridge_line(all) == bridge_line(all.skip(i as int)),
        decreases ls@.len() - i,
    {
        assert(all.skip(i as int).drop_first() =~= all.skip(i + 1));
        assert(all.skip(i as int)[0] == ls@[i as int]@);
        i = i + 1;
    }
    if i == ls.len() {
        return None;
    }
    assert(all.skip(i as int)[0] == ls@[i as int]@);
    let line = ls[i].as_str();
    let desc = match split_once_text(line, "Host bridge:") {
        Some((_, rest)) => trimmed(rest),
        None => match split_once_text(line, "\"Host bridge\" ") {
            Some((_, rest)) => trimmed(rest),
            None => {
                return None;
            },
        },
    };
    let short = match split_once_text(desc, " (rev") {
        Some((h, _)) => trimmed(h),
        None => desc,
    };
    let bare = strip_pci_id(short);
    if bare.is_empty() {
        None
    } else {
        Some(bare.to_owned())
    }
}

// ---------------------------------------------------------------- probing

/// What the host's files and tools said; `None` where one could not be read.
pub struct HostReadings {
    pub cpuinfo: Option<String>,
    /// cpufreq's base clock in kHz.
    pub base_frequency: Option<String>,
    /// amd_pstate's nominal clock in MHz.
    pub nominal_freq: Option<String>,
    pub meminfo: Option<String>,
    pub board_vendor: Option<String>,
    pub board_name: Option<String>,
    pub lspci: Option<String>,
}

/// A file's content, trimmed, unless nothing is left.
pub open spec fn trimmed_reading(s: Option<Seq<char>>) -> Option<Seq<char>> {
    match s {
        Some(t) => if trim(t).len() > 0 {
            Some(trim(t))
        } else {
            None
        },
        None => None,
    }
}

/// The base clock: kHz from cpufreq where that reads, else MHz from amd_pstate.
pub open spec fn base_mhz(khz: Option<Seq<char>>, mhz: Option<Seq<char>>) -> Option<nat> {
    let first = match khz {
        Some(t) => read_unsigned(trim(t), u32::MAX as nat),
        None => None,
    };
    match first {
        Some(n) => Some(n / 1000),
        None => match mhz {
            Some(t) => read_unsigned(trim(t), u32::MAX as nat),
            None => None,
        },
    }
}

fn read_trimmed(s: &Option<String>) -> (r: Option<String>)
    ensures
        option_text(r) == trimmed_reading(option_text(*s)),
{
    match s {
        Some(t) => {
            let u = trimmed(t.as_str());
            if u.is_empty() {
                None
            } else {
                Some(u.to_owned())
            }
        },
        None => None,
    }
}

/// Base clock, unprivileged. Intel's cpufreq exposes `base_frequency` (kHz);
/// amd_pstate exposes `nominal_freq` (MHz), often empty, in which case the
/// component honestly stays unreadable rather than recording a boost clock under a
/// base-clock name.
pub fn read_base_mhz(khz: &Option<String>, mhz: &Option<String>) -> (r: Option<u32>)
    ensures
        speed_nat(r) == base_mhz(option_text(*khz), option_text(*mhz)),
{
    if let Some(t) = khz {
        if let Some(n) = parse_unsigned(trimmed(t.as_str()), u32::MAX as u64) {
            return Some((n / 1000) as u32);
        }
    }
    match mhz {
        Some(t) => match parse_unsigned(trimmed(t.as_str()), u32::MAX as u64) {
            Some(n) => Some(n as u32),
            None => None,
        },
        None => None,
    }
}

/// The chipset, from what `lspci` printed.
pub fn probe_chipset(lspci: &Option<String>) -> (r: Option<String>)
    ensures
        option_text(r) == match option_text(*lspci) {
            Some(t) => chipset_of(t),
            None => None,
        },
{
    match lspci {
        Some(t) => parse_lspci_chipset(t.as_str()),
        None => None,
    }
}

/// What a probe makes of the readings.
pub open spec fn probed(h: HostReadings, m: MachineV) -> bool {
    let cpu = option_text(h.cpuinfo);
    &&& m.hash_components == every_component()
    &&& m.cpu_model == match cpu {
        Some(t) => cpu_model_of(t),
        None => None,
    }
    &&& speed_nat(m.cores_physical) == match cpu {
        Some(t) => cpu_cores_of(t),
        None => None,
    }
    &&& m.threads_online == match cpu {
        Some(t) => Some(lines_with(lines(t), "processor"@) as u32),
        None => None,
    }
    &&& speed_nat(m.cpu_base_mhz) == base_mhz(option_text(h.base_frequency), option_text(h.nominal_freq))
    &&& m.mem.total_bytes == match option_text(h.meminfo) {
        Some(t) => match meminfo_kib(t) {
            Some(k) => Some(rounded_bytes(k) as u64),
            None => None,
        },
        None => None,
    }
    &&& m.mem.speed_mts is None && m.mem.timings is None && m.mem.parts == Seq::<Seq<char>>::empty()
    &&& m.board.vendor == trimmed_reading(option_text(h.board_vendor))
    &&& m.board.name == trimmed_reading(option_text(h.board_name))
    &&& m.chipset == match option_text(h.lspci) {
        Some(t) => chipset_of(t),
        None => None,
    }
    &&& m == refreshed(m)
}

/// The user id on the first `Uid:` line of `/proc/self/status` is zero.
pub open spec fn root_status(status: Seq<char>) -> bool {
    match after_prefix(lines(status), "Uid:"@) {
        Some(rest) => first_word(rest) == Some("0"@),
        None => false,
    }
}

/// True when running as root, read from what `/proc/self/status` holds.
pub fn is_root(status: &str) -> (r: bool)
    ensures
        r == root_status(status@),
{
    match line_after_prefix(status, "Uid:") {
        None => false,
        Some(rest) => {
            let ws = split_words(rest.as_str());
            if ws.len() == 0 {
                return false;
            }
            assert(texts(ws@)[0] == ws@[0]@);
            same(ws[0].as_str(), "0")
        },
    }
}

/// Why the root-only components could not be read.
#[derive(Clone, Copy, Debug, PartialEq, Eq, Structural)]
pub enum PrivilegedError {
    /// Everything needing root was skipped: not running as root.
    NotRoot,
    /// dmidecode is not installed at any usual location.
    DmidecodeMissing,
}

impl Machine {
    /// What an unprivileged look at the host gives. Never fails: anything unreadable
    /// becomes `None` and drops out of `hash_observed`, leaving a degraded hash,
    /// which is honest, because such a run verified less.
    pub fn probe(h: &HostReadings) -> (r: Self)
        requires
            meminfo_readable(h.meminfo),
        ensures
            probed(*h, r@),
    {
        let mut m = Machine::unknown();
        if let Some(t) = &h.cpuinfo {
            m.cpu_model = parse_cpu_model(t.as_str());
            m.cores_physical = parse_cpu_cores(t.as_str());
            m.threads_online = Some(count_processors(t.as_str()));
        }
        m.cpu_base_mhz = read_base_mhz(&h.base_frequency, &h.nominal_freq);
        if let Some(t) = &h.meminfo {
            m.mem.total_bytes = parse_meminfo_total(t.as_str());
        }
        m.board.vendor = read_trimmed(&h.board_vendor);
        m.board.name = read_trimmed(&h.board_name);
        m.chipset = probe_chipset(&h.lspci);
        let ghost before = m@;
        m.refresh_observed();
        proof {
            refresh_is_stable(before);
        }
        m
    }

    /// Take in the root-only components: memory speed, timings, part numbers.
    ///
    /// Best effort per field: `decode-dimms` being absent leaves timings as they
    /// were, which degrades the hash rather than failing the capture; but an
    /// unreadable core (`dmidecode` missing, or no root) is an error, because a
    /// capture that silently recorded no memory block would look complete.
    pub fn add_privileged(&mut self, root: bool, dmidecode: &Option<String>, dimms: &Option<String>) -> (r: Result<
        (),
        PrivilegedError,
    >)
        ensures
            r == if !root {
                Err::<(), PrivilegedError>(PrivilegedError::NotRoot)
            } else if dmidecode is None {
                Err(PrivilegedError::DmidecodeMissing)
            } else {
                Ok(())
            },
            r is Err ==> final(self)@ == old(self)@,
            r is Ok ==> with_memory(
                old(self)@,
                final(self)@,
                dmi_lines(lines(dmidecode->Some_0@)),
                option_text(*dimms),
            ),
    {
        if !root {
            return Err(PrivilegedError::NotRoot);
        }
        match dmidecode {
            None => Err(PrivilegedError::DmidecodeMissing),
            Some(raw) => {
                let (speed, parts) = parse_dmidecode(raw.as_str());
                self.mem.speed_mts = speed;
                self.mem.parts = parts;
                if let Some(t) = dimms {
                    self.mem.timings = parse_dimm_timings(t.as_str());
                }
                let ghost before = self@;
                self.refresh_observed();
                proof {
                    refresh_is_stable(before);
                }
                Ok(())
            },
        }
    }
}

/// `m` is `before` with what the root-only tools said of its memory.
pub open spec fn with_memory(
    before: MachineV,
    m: MachineV,
    dmi: DmiV,
    dimms: Option<Seq<char>>,
) -> bool {
    &&& m == refreshed(
        MachineV { mem: MemoryV { total_bytes: before.mem.total_bytes, ..m.mem }, ..before },
    )
    &&& speed_nat(m.mem.speed_mts) == dmi_speed(dmi)
    &&& ascending_texts(m.mem.parts)
    &&& forall|p: Seq<char>| #[trigger] m.mem.parts.contains(p) == dmi.parts.contains(p)
    &&& m.mem.timings == match dimms {
        Some(t) => first_timings(lines(t)),
        None => before.mem.timings,
    }
}

// ---------------------------------------------------------------- laws

/// Two machines with the same fields have the same components observed.
pub proof fn kept_agrees(
    list: Seq<Component>,
    a: spec_fn(Component) -> bool,
    b: spec_fn(Component) -> bool,
)
    requires
        forall|i: int| 0 <= i < list.len() ==> a(#[trigger] list[i]) == b(list[i]),
    ensures
        kept(list, a) == kept(list, b),
    decreases list.len(),
{
    if list.len() > 0 {
        assert(a(list[list.len() - 1]) == b(list[list.len() - 1]));
        let t = list.drop_last();
        assert forall|i: int| 0 <= i < t.len() implies a(#[trigger] t[i]) == b(t[i]) by {
            assert(a(list[i]) == b(list[i]));
        }
        kept_agrees(t, a, b);
    }
}

/// Bringing the record of what was read up to date twice changes nothing more.
pub proof fn refresh_is_stable(m: MachineV)
    ensures
        refreshed(refreshed(m)) == refreshed(m),
{
    let r = refreshed(m);
    kept_agrees(every_component(), |c: Component| observed(r, c), |c: Component| observed(m, c));
}

/// What is kept of what was kept.
proof fn kept_of_kept(
    list: Seq<Component>,
    a: spec_fn(Component) -> bool,
    b: spec_fn(Component) -> bool,
)
    ensures
        kept(kept(list, a), b) == kept(list, |c: Component| a(c) && b(c)),
    decreases list.len(),
{
    if list.len() > 0 {
        kept_of_kept(list.drop_last(), a, b);
        let rest = kept(list.drop_last(), a);
        if a(list.last()) {
            assert(rest.push(list.last()).drop_last() =~= rest);
        }
    }
}

proof fn value_list_agrees(a: MachineV, b: MachineV, list: Seq<Component>)
    requires
        forall|i: int|
            0 <= i < list.len() ==> component_value(a, #[trigger] list[i]) == component_value(
                b,
                list[i],
            ),
    ensures
        value_list(a, list) == value_list(b, list),
    decreases list.len(),
{
    if list.len() > 0 {
        let t = list.drop_last();
        assert(component_value(a, list[list.len() - 1]) == component_value(b, list[list.len() - 1]));
        assert forall|i: int| 0 <= i < t.len() implies component_value(a, #[trigger] t[i])
            == component_value(b, t[i]) by {
            assert(component_value(a, list[i]) == component_value(b, list[i]));
        }
        value_list_agrees(a, b, t);
    }
}

proof fn kept_passes(list: Seq<Component>, test: spec_fn(Component) -> bool, i: int)
    requires
        0 <= i < kept(list, test).len(),
    ensures
        test(kept(list, test)[i]),
    decreases list.len(),
{
    let rest = kept(list.drop_last(), test);
    if i < rest.len() {
        kept_passes(list.drop_last(), test, i);
    }
}

/// The prefix is the machine's identity: two up-to-date records that agree on what
/// needs no root have the same prefix, whatever was verified of the memory.
pub proof fn prefix_survives_what_was_verified(a: MachineV, b: MachineV)
    requires
        a == refreshed(a),
        b == refreshed(b),
        a.cpu_model == b.cpu_model,
        a.cpu_base_mhz == b.cpu_base_mhz,
        a.board == b.board,
        a.chipset == b.chipset,
    ensures
        prefix_hash(a) == prefix_hash(b),
{
    let all = every_component();
    let seen_a = |c: Component| observed(a, c);
    let seen_b = |c: Component| observed(b, c);
    let free = |c: Component| root_only(c) == false;
    kept_of_kept(all, seen_a, free);
    kept_of_kept(all, seen_b, free);
    kept_agrees(all, |c: Component| seen_a(c) && free(c), |c: Component| seen_b(c) && free(c));
    let list = tier(a.hash_observed, false);
    assert(list == tier(b.hash_observed, false));
    assert forall|i: int| 0 <= i < list.len() implies component_value(a, #[trigger] list[i])
        == component_value(b, list[i]) by {
        kept_passes(a.hash_observed, free, i);
    }
    value_list_agrees(a, b, list);
}

/// The hash is ten characters, a hyphen, and five characters or `UNKNOWN`; the
/// characters are digits and lower-case letters.
pub proof fn hash_shape(m: MachineV)
    ensures
        prefix_hash(m).len() == 10,
        forall|i: int| 0 <= i < 10 ==> ALPHABET@.contains(#[trigger] prefix_hash(m)[i]),
        machine_hash(m)[10] == '-',
        machine_hash(m).len() == if tier(m.hash_observed, true).len() == 0 {
            18nat
        } else {
            16nat
        },
        tier(m.hash_observed, true).len() == 0 <==> suffix_hash(m) == UNKNOWN_SUFFIX@,
        tier(m.hash_observed, true).len() > 0 ==> forall|i: int|
            0 <= i < 5 ==> ALPHABET@.contains(#[trigger] suffix_hash(m)[i]),
{
    reveal_strlit("-");
    reveal_strlit("UNKNOWN");
    let list = tier(m.hash_observed, true);
    let p = be_value(
        head(
            blake3_digest(encode_utf8(canonical(m, tier(m.hash_observed, false)))),
            bytes_for(10),
        ),
    );
    crockford_shape(p, 10);
    let q = be_value(head(blake3_digest(encode_utf8(canonical(m, list))), bytes_for(5)));
    crockford_shape(q, 5);
    assert(UNKNOWN_SUFFIX@.len() == 7);
}

/// A run that verified nothing root-only never shares a hash with one that did.
pub proof fn unverified_never_collides(a: MachineV, b: MachineV)
    requires
        tier(a.hash_observed, true).len() == 0,
        tier(b.hash_observed, true).len() > 0,
    ensures
        machine_hash(a) != machine_hash(b),
{
    hash_shape(a);
    hash_shape(b);
}

/// The same hardware hashes the same: the hash is a function of the components and
/// of which of them were observed.
pub proof fn same_hardware_same_hash(a: MachineV, b: MachineV)
    requires
        a.hash_observed == b.hash_observed,
        forall|c: Component| #[trigger] component_value(a, c) == component_value(b, c),
    ensures
        machine_hash(a) == machine_hash(b),
{
    value_list_agrees(a, b, tier(a.hash_observed, false));
    value_list_agrees(a, b, tier(a.hash_observed, true));
}

/// A record is degraded exactly when some component could not be read.
pub proof fn degraded_means_something_is_missing(m: MachineV)
    requires
        m == refreshed(m),
        m.hash_components == every_component(),
    ensures
        m.degraded <==> exists|c: Component| !observed(m, c),
{
    let test = |c: Component| observed(m, c);
    reveal_with_fuel(kept, 7);
    let all = every_component();
    assert(all.drop_last() =~= all.take(5));
    assert(all.take(5).drop_last() =~= all.take(4));
    assert(all.take(4).drop_last() =~= all.take(3));
    assert(all.take(3).drop_last() =~= all.take(2));
    assert(all.take(2).drop_last() =~= all.take(1));
    assert(all.take(1).drop_last() =~= all.take(0));
    assert(test(Component::CpuModel) == observed(m, Component::CpuModel));
}

/// The rounded total is a whole number of steps, at most the reading and less than
/// one step below it.
pub proof fn rounding_is_to_whole_steps(kib: nat)
    ensures
        rounded_bytes(kib) % (MEM_TOTAL_ROUNDING as nat) == 0,
        rounded_bytes(kib) <= kib * 1024,
        kib * 1024 < rounded_bytes(kib) + MEM_TOTAL_ROUNDING,
{
    let b = kib * 1024;
    let step = MEM_TOTAL_ROUNDING as nat;
    assert(b / step * step <= b && b < b / step * step + step && (b / step * step) % step == 0)
        by (nonlinear_arith)
        requires
            step == 0x400_0000,
            b >= 0,
    ;
}

/// A component's name is made of letters, and tells the component.
proof fn names_are_plain(c: Component)
    ensures
        component_name(c).len() > 0,
        !component_name(c).contains(';'),
        !component_name(c).contains('|'),
        forall|d: Component| #[trigger] component_name(d) == component_name(c) ==> d == c,
{
    reveal_strlit("CpuModel");
    reveal_strlit("CpuBaseMhz");
    reveal_strlit("MemSpeedMts");
    reveal_strlit("MemTimings");
    reveal_strlit("Board");
    reveal_strlit("Chipset");
    assert("CpuModel"@.len() == 8 && "CpuBaseMhz"@.len() == 10 && "MemSpeedMts"@.len() == 11);
    assert("MemTimings"@.len() == 10 && "Board"@.len() == 5 && "Chipset"@.len() == 7);
    assert("CpuBaseMhz"@[0] == 'C' && "MemTimings"@[0] == 'M');
}

proof fn name_list_shape(list: Seq<Component>)
    ensures
        !name_list(list).contains('|'),
        list.len() > 0 ==> name_list(list).len() > 0 && name_list(list).last() == ';',
        list.len() == 0 ==> name_list(list).len() == 0,
    decreases list.len(),
{
    if list.len() > 0 {
        reveal_strlit(";");
        name_list_shape(list.drop_last());
        names_are_plain(list.last());
        let head = name_list(list.drop_last());
        let name = component_name(list.last());
        let all = name_list(list);
        assert(all.last() == ';');
        if all.contains('|') {
            let i = choose|i: int| 0 <= i < all.len() && all[i] == '|';
            if i < head.len() {
                assert(head[i] == '|');
            } else if i < head.len() + name.len() {
                assert(name[i - head.len()] == '|');
            }
        }
    }
}

proof fn name_lists_tell(a: Seq<Component>, b: Seq<Component>)
    requires
        name_list(a) == name_list(b),
    ensures
        a == b,
    decreases a.len(),
{
    name_list_shape(a);
    name_list_shape(b);
    if a.len() > 0 && b.len() > 0 {
        reveal_strlit(";");
        let x = name_list(a.drop_last());
        let y = name_list(b.drop_last());
        let n = component_name(a.last());
        let m = component_name(b.last());
        let all = name_list(a);
        names_are_plain(a.last());
        names_are_plain(b.last());
        name_list_shape(a.drop_last());
        name_list_shape(b.drop_last());
        assert(all == x + n + ";"@ && all == y + m + ";"@);
        assert(all.len() == x.len() + n.len() + 1 && all.len() == y.len() + m.len() + 1);
        if x.len() > y.len() {
            assert(all[x.len() - 1] == x.last());
            assert(all[x.len() - 1] == m[x.len() - 1 - y.len()]);
        }
        if y.len() > x.len() {
            assert(all[y.len() - 1] == y.last());
            assert(all[y.len() - 1] == n[y.len() - 1 - x.len()]);
        }
        assert(x =~= all.take(x.len() as int));
        assert(y =~= all.take(y.len() as int));
        assert(n =~= all.subrange(x.len() as int, all.len() - 1));
        assert(m =~= all.subrange(y.len() as int, all.len() - 1));
        name_lists_tell(a.drop_last(), b.drop_last());
        assert(a =~= a.drop_last().push(a.last()));
        assert(b =~= b.drop_last().push(b.last()));
    } else {
        assert(a =~= b);
    }
}

/// What was observed is part of what is hashed: two records share a hash input only if
/// the same components were observed.
pub proof fn inputs_tell_what_was_observed(
    m: MachineV,
    n: MachineV,
    a: Seq<Component>,
    b: Seq<Component>,
)
    requires
        canonical(m, a) == canonical(n, b),
    ensures
        a == b,
{
    reveal_strlit("|");
    name_list_shape(a);
    name_list_shape(b);
    let x = name_list(a);
    let y = name_list(b);
    let s = canonical(m, a);
    assert(s == x + "|"@ + value_list(m, a) && s == y + "|"@ + value_list(n, b));
    assert(s[x.len() as int] == '|' && s[y.len() as int] == '|');
    if x.len() < y.len() {
        assert(y[x.len() as int] == '|');
    }
    if y.len() < x.len() {
        assert(x[y.len() as int] == '|');
    }
    assert(x =~= s.take(x.len() as int));
    assert(y =~= s.take(y.len() as int));
    name_lists_tell(a, b);
}

proof fn values_tell(a: MachineV, b: MachineV, list: Seq<Component>, i: int)
    requires
        0 <= i < list.len(),
        component_value(a, list[i]) != component_value(b, list[i]),
        forall|j: int|
            0 <= j < list.len() && j != i ==> component_value(a, #[trigger] list[j])
                == component_value(b, list[j]),
    ensures
        value_list(a, list) != value_list(b, list),
    decreases list.len(),
{
    reveal_strlit(";");
    reveal_strlit("=");
    let t = list.drop_last();
    let x = value_list(a, t);
    let y = value_list(b, t);
    let name = component_name(list.last());
    let u = component_value(a, list.last());
    let v = component_value(b, list.last());
    let s = value_list(a, list);
    assert(s == x + name + "="@ + u + ";"@);
    assert(value_list(b, list) == y + name + "="@ + v + ";"@);
    if i == t.len() {
        assert forall|j: int| 0 <= j < t.len() implies component_value(a, #[trigger] t[j])
            == component_value(b, t[j]) by {
            assert(component_value(a, list[j]) == component_value(b, list[j]));
        }
        value_list_agrees(a, b, t);
        let k = (x.len() + name.len() + 1) as int;
        if s == value_list(b, list) {
            assert(u =~= s.subrange(k, s.len() - 1));
            assert(v =~= s.subrange(k, s.len() - 1));
        }
    } else {
        assert forall|j: int| 0 <= j < t.len() && j != i implies component_value(a, #[trigger] t[j])
            == component_value(b, t[j]) by {
            assert(component_value(a, list[j]) == component_value(b, list[j]));
        }
        assert(t[i] == list[i]);
        values_tell(a, b, t, i);
        assert(u == v) by {
            assert(component_value(a, list[list.len() - 1]) == component_value(
                b,
                list[list.len() - 1],
            ));
        }
        if s == value_list(b, list) {
            assert(x.len() == y.len());
            assert(x =~= s.take(x.len() as int));
            assert(y =~= s.take(x.len() as int));
        }
    }
}

/// A changed component changes what is hashed: two records that observed the same
/// components and differ in one of them do not share a hash input.
pub proof fn a_changed_component_changes_the_input(
    a: MachineV,
    b: MachineV,
    list: Seq<Component>,
    i: int,
)
    requires
        0 <= i < list.len(),
        component_value(a, list[i]) != component_value(b, list[i]),
        forall|j: int|
            0 <= j < list.len() && j != i ==> component_value(a, #[trigger] list[j])
                == component_value(b, list[j]),
    ensures
        canonical(a, list) != canonical(b, list),
{
    values_tell(a, b, list, i);
    let head = name_list(list) + "|"@;
    let s = canonical(a, list);
    if s == canonical(b, list) {
        assert(value_list(a, list) =~= s.skip(head.len() as int));
        assert(value_list(b, list) =~= s.skip(head.len() as int));
    }
}

} // verus!
