//! What is promised of what a host tells of itself: each reading decides on its own fact,
//! and the first line that names a thing is the one that counts.

use crate::context::{context_of, first_with, os_name, HostContext};
use crate::exec_laws::{stands_between, stands_through};
use crate::fingerprint::{
    body_text, checksum_text, gate, hex_bytes, recorded, written_code, Fingerprint, FingerprintV,
    Found,
};
use crate::fingerprint_laws::{capture_describes_its_machine, written_files_verify};
use crate::machine::{
    after_prefix, behind, bridge_line, chipset_of, component_line, component_lines, component_name,
    component_source, component_value, cpu_cores_of, cpu_model_of, dmi_lines, dmi_speed,
    every_component, explanation, first_timings, is_pci_id, is_timing_set, kept, line_timings,
    lines_with, machine_hash, meminfo_kib, mts_of, observed, probed, refreshed, root_only,
    root_status, rounding_is_to_whole_steps, tier, with_memory, without_pci_id, without_revision,
    Component, DmiV, HostReadings, MachineV, DEGRADED_NOTE, MEM_TOTAL_ROUNDING,
};
use crate::package::is_hex;
use crate::tag::trimmed_already;
use crate::text::{
    contains_text, dec, decimal_reads_back, find, find_bounds, find_is, find_last_text,
    find_text_is, find_text_none, is_digit, is_space, join, lines, option_text, split,
    split_of_join, stands_at, trim, unsigned_decimal_round_trips, without_around, without_leading,
    without_trailing, words,
};
use vstd::prelude::*;

verus! {

/// Does some text say no more than white space?
pub open spec fn is_blank(s: Seq<char>) -> bool {
    trim(s).len() == 0
}

/// What a file said, without the white space around it, is what is told, and nothing where
/// it said nothing.
pub open spec fn tells(told: Option<Seq<char>>, reading: Option<String>) -> bool {
    match reading {
        Some(s) => if is_blank(s@) {
            told is None
        } else {
            told == Some(trim(s@))
        },
        None => told is None,
    }
}

/// A switch is told to be on where its file says `1`, off where it says anything else, and
/// not told of where it says nothing.
pub open spec fn tells_switch(told: Option<bool>, reading: Option<String>) -> bool {
    match reading {
        Some(s) => if is_blank(s@) {
            told is None
        } else {
            told == Some(trim(s@) == "1"@)
        },
        None => told is None,
    }
}

/// A run's context tells of each part of the host what that part's own file said.
pub proof fn contexts_tell_what_was_read(host: HostContext)
    ensures
        tells(context_of(host).kernel, host.kernel),
        tells(context_of(host).governor, host.governor),
        tells(context_of(host).isolated_cpus, host.isolated_cpus),
        tells_switch(context_of(host).smt, host.smt),
        tells_switch(context_of(host).boost, host.boost),
        context_of(host).bench_profile == option_text(host.bench_profile),
        context_of(host).fingerprint is None,
        context_of(host).os == os_name(option_text(host.os_release)),
{
}

/// The first line with a prefix is the one that counts.
pub proof fn the_first_named_line_counts(ls: Seq<Seq<char>>, prefix: Seq<char>, i: int)
    requires
        0 <= i < ls.len(),
        prefix.is_prefix_of(ls[i]),
        forall|j: int| 0 <= j < i ==> !prefix.is_prefix_of(#[trigger] ls[j]),
    ensures
        after_prefix(ls, prefix) == Some(ls[i].skip(prefix.len() as int)),
        first_with(ls, prefix) == Some(ls[i].skip(prefix.len() as int)),
    decreases ls.len(),
{
    if i > 0 {
        let rest = ls.drop_first();
        assert forall|j: int| 0 <= j < i - 1 implies !prefix.is_prefix_of(#[trigger] rest[j]) by {
            assert(rest[j] == ls[j + 1]);
        }
        assert(!prefix.is_prefix_of(ls[0]));
        the_first_named_line_counts(rest, prefix, i - 1);
    }
}

/// Where no line has a prefix, nothing is told.
pub proof fn unnamed_things_are_not_told(ls: Seq<Seq<char>>, prefix: Seq<char>)
    requires
        forall|j: int| 0 <= j < ls.len() ==> !prefix.is_prefix_of(#[trigger] ls[j]),
    ensures
        after_prefix(ls, prefix) is None,
        first_with(ls, prefix) is None,
    decreases ls.len(),
{
    if ls.len() > 0 {
        let rest = ls.drop_first();
        assert forall|j: int| 0 <= j < rest.len() implies !prefix.is_prefix_of(#[trigger] rest[j]) by {
            assert(rest[j] == ls[j + 1]);
        }
        unnamed_things_are_not_told(rest, prefix);
    }
}

/// The system is called what stands in quotes behind its name's key.
pub proof fn systems_are_called_by_their_pretty_name(raw: Seq<char>, i: int, name: Seq<char>)
    requires
        0 <= i < lines(raw).len(),
        lines(raw)[i] == "PRETTY_NAME="@ + "\""@ + name + "\""@,
        forall|j: int| 0 <= j < i ==> !"PRETTY_NAME="@.is_prefix_of(#[trigger] lines(raw)[j]),
        name.len() > 0,
        name[0] != '"',
        name.last() != '"',
    ensures
        os_name(Some(raw)) == Some(name),
{
    reveal_strlit("\"");
    let key = "PRETTY_NAME="@;
    let line = lines(raw)[i];
    assert(key =~= line.subrange(0, key.len() as int));
    the_first_named_line_counts(lines(raw), key, i);
    let v = line.skip(key.len() as int);
    assert(v =~= seq!['"'] + name + seq!['"']);
    quotes_come_off(name, '"');
}

proof fn quotes_come_off(name: Seq<char>, c: char)
    requires
        name.len() > 0,
        name[0] != c,
        name.last() != c,
    ensures
        without_around(seq![c] + name + seq![c], c) == name,
{
    reveal_with_fuel(without_leading, 3);
    reveal_with_fuel(without_trailing, 3);
    let v = seq![c] + name + seq![c];
    assert(v.drop_first() =~= name + seq![c]);
    assert((name + seq![c])[0] == name[0]);
    assert((name + seq![c]).drop_last() =~= name);
}

proof fn value_behind_colon(
    text: Seq<char>,
    key: Seq<char>,
    i: int,
    pad: Seq<char>,
    value: Seq<char>,
)
    requires
        0 <= i < lines(text).len(),
        lines(text)[i] == key + pad + ":"@ + value,
        !pad.contains(':'),
        forall|j: int| 0 <= j < i ==> !key.is_prefix_of(#[trigger] lines(text)[j]),
    ensures
        after_prefix(lines(text), key) == Some(pad + ":"@ + value),
        find(pad + ":"@ + value, ':') == pad.len(),
        (pad + ":"@ + value).skip(pad.len() as int + 1) == value,
        find(pad + ":"@ + value, ':') < (pad + ":"@ + value).len(),
{
    reveal_strlit(":");
    let line = lines(text)[i];
    assert(key =~= line.subrange(0, key.len() as int));
    the_first_named_line_counts(lines(text), key, i);
    assert(line.skip(key.len() as int) =~= pad + ":"@ + value);
    let rest = pad + ":"@ + value;
    assert(rest[pad.len() as int] == ':');
    assert forall|j: int| 0 <= j < pad.len() implies rest[j] != ':' by {
        assert(rest[j] == pad[j]);
        assert(pad.contains(pad[j]));
    }
    find_is(rest, ':', pad.len() as int);
    assert(rest.skip(pad.len() as int + 1) =~= value);
}

/// The processor is of the model that is first named, and has as many cores as are first
/// named.
pub proof fn processors_are_what_is_first_named(
    text: Seq<char>,
    i: int,
    pad: Seq<char>,
    value: Seq<char>,
)
    requires
        0 <= i < lines(text).len(),
        !pad.contains(':'),
        trim(value).len() > 0,
    ensures
        lines(text)[i] == "model name"@ + pad + ":"@ + value && (forall|j: int|
            0 <= j < i ==> !"model name"@.is_prefix_of(#[trigger] lines(text)[j]))
            ==> cpu_model_of(text) == Some(trim(value)),
        forall|n: u32|
            lines(text)[i] == "cpu cores"@ + pad + ":"@ + value && trim(value) == #[trigger] dec(
                n as nat,
            ) && (forall|j: int|
                0 <= j < i ==> !"cpu cores"@.is_prefix_of(#[trigger] lines(text)[j]))
                ==> cpu_cores_of(text) == Some(n as nat),
{
    if lines(text)[i] == "model name"@ + pad + ":"@ + value && (forall|j: int|
        0 <= j < i ==> !"model name"@.is_prefix_of(#[trigger] lines(text)[j])) {
        value_behind_colon(text, "model name"@, i, pad, value);
    }
    assert forall|n: u32|
        lines(text)[i] == "cpu cores"@ + pad + ":"@ + value && trim(value) == #[trigger] dec(n as nat)
            && (forall|j: int| 0 <= j < i ==> !"cpu cores"@.is_prefix_of(#[trigger] lines(text)[j]))
        implies cpu_cores_of(text) == Some(n as nat) by {
        value_behind_colon(text, "cpu cores"@, i, pad, value);
        unsigned_decimal_round_trips(n as nat, u32::MAX as nat);
    }
}

/// As many lines as start with a prefix are counted.
pub proof fn named_lines_are_counted(ls: Seq<Seq<char>>, prefix: Seq<char>)
    ensures
        lines_with(ls, prefix) == ls.filter(|l: Seq<char>| prefix.is_prefix_of(l)).len(),
    decreases ls.len(),
{
    reveal(Seq::filter);
    if ls.len() > 0 {
        named_lines_are_counted(ls.drop_last(), prefix);
    }
}

/// The memory is as large as its first line says.
pub proof fn memory_is_what_is_first_named(text: Seq<char>, i: int, rest: Seq<char>, n: u64)
    requires
        0 <= i < lines(text).len(),
        lines(text)[i] == "MemTotal:"@ + rest,
        forall|j: int| 0 <= j < i ==> !"MemTotal:"@.is_prefix_of(#[trigger] lines(text)[j]),
        words(rest).len() > 0,
        words(rest)[0] == dec(n as nat),
    ensures
        meminfo_kib(text) == Some(n as nat),
{
    let key = "MemTotal:"@;
    let line = lines(text)[i];
    assert(key =~= line.subrange(0, key.len() as int));
    the_first_named_line_counts(lines(text), key, i);
    assert(line.skip(key.len() as int) =~= rest);
    unsigned_decimal_round_trips(n as nat, u64::MAX as nat);
}

/// Root is who has the user id zero.
pub proof fn root_has_the_id_zero(status: Seq<char>, i: int, rest: Seq<char>)
    requires
        0 <= i < lines(status).len(),
        lines(status)[i] == "Uid:"@ + rest,
        forall|j: int| 0 <= j < i ==> !"Uid:"@.is_prefix_of(#[trigger] lines(status)[j]),
        words(rest).len() > 0,
    ensures
        root_status(status) == (words(rest)[0] == "0"@),
{
    let key = "Uid:"@;
    let line = lines(status)[i];
    assert(key =~= line.subrange(0, key.len() as int));
    the_first_named_line_counts(lines(status), key, i);
    assert(line.skip(key.len() as int) =~= rest);
}

/// A probe tells of each part of the machine what that part's own file said.
pub proof fn probes_tell_what_was_read(h: HostReadings, m: MachineV)
    requires
        probed(h, m),
    ensures
        tells(m.board.vendor, h.board_vendor),
        tells(m.board.name, h.board_name),
        h.cpuinfo is None ==> m.cpu_model is None && m.cores_physical is None && m.threads_online
            is None,
        h.cpuinfo is Some ==> m.cpu_model == cpu_model_of(h.cpuinfo->Some_0@),
        h.meminfo is None ==> m.mem.total_bytes is None,
        h.lspci is None ==> m.chipset is None,
        h.base_frequency is None && h.nominal_freq is None ==> m.cpu_base_mhz is None,
        forall|khz: u32|
            h.base_frequency is Some && trim(h.base_frequency->Some_0@) == #[trigger] dec(khz as nat)
                ==> m.cpu_base_mhz == Some((khz / 1000) as u32),
        forall|mhz: u32|
            h.base_frequency is None && h.nominal_freq is Some && trim(h.nominal_freq->Some_0@)
                == #[trigger] dec(mhz as nat) ==> m.cpu_base_mhz == Some(mhz),
{
    assert forall|khz: u32|
        h.base_frequency is Some && trim(h.base_frequency->Some_0@) == #[trigger] dec(khz as nat)
        implies m.cpu_base_mhz == Some((khz / 1000) as u32) by {
        unsigned_decimal_round_trips(khz as nat, u32::MAX as nat);
    }
    assert forall|mhz: u32|
        h.base_frequency is None && h.nominal_freq is Some && trim(h.nominal_freq->Some_0@)
            == #[trigger] dec(mhz as nat) implies m.cpu_base_mhz == Some(mhz) by {
        unsigned_decimal_round_trips(mhz as nat, u32::MAX as nat);
    }
}

/// What a line of the memory tables says the speed is set to, where it says so.
pub open spec fn says_configured(line: Seq<char>) -> Option<nat> {
    let key = "Configured Memory Speed:"@;
    if key.is_prefix_of(trim(line)) {
        mts_of(trim(line).skip(key.len() as int))
    } else {
        None
    }
}

/// The speed that the memory is set to is the last that is named; one that cannot be read
/// does not count.
pub proof fn the_last_configured_speed_counts(ls: Seq<Seq<char>>, i: int)
    requires
        0 <= i < ls.len(),
        says_configured(ls[i]) is Some,
        forall|j: int| i < j < ls.len() ==> says_configured(#[trigger] ls[j]) is None,
    ensures
        dmi_lines(ls).configured == says_configured(ls[i]),
        dmi_speed(dmi_lines(ls)) == says_configured(ls[i]),
    decreases ls.len(),
{
    if i < ls.len() - 1 {
        let front = ls.drop_last();
        assert(front[i] == ls[i]);
        assert forall|j: int| i < j < front.len() implies says_configured(#[trigger] front[j]) is None by {
            assert(front[j] == ls[j]);
        }
        the_last_configured_speed_counts(front, i);
        assert(says_configured(ls[ls.len() - 1]) is None);
    }
}

/// What a line of the memory tables says a module can do, where it says so.
pub open spec fn says_rated(line: Seq<char>) -> Option<nat> {
    let key = "Speed:"@;
    if key.is_prefix_of(trim(line)) {
        mts_of(trim(line).skip(key.len() as int))
    } else {
        None
    }
}

/// Where no speed is set, the first that a module can do is the speed.
pub proof fn the_first_rated_speed_counts(ls: Seq<Seq<char>>, i: int)
    requires
        0 <= i < ls.len(),
        forall|j: int| 0 <= j < ls.len() ==> says_configured(#[trigger] ls[j]) is None,
        says_rated(ls[i]) is Some,
        forall|j: int| 0 <= j < i ==> says_rated(#[trigger] ls[j]) is None,
    ensures
        dmi_lines(ls).configured is None,
        dmi_speed(dmi_lines(ls)) == says_rated(ls[i]),
    decreases ls.len(),
{
    reveal_strlit("Configured Memory Speed:");
    reveal_strlit("Speed:");
    let front = ls.drop_last();
    assert forall|j: int| 0 <= j < front.len() implies says_configured(#[trigger] front[j]) is None by {
        assert(front[j] == ls[j]);
    }
    assert(says_configured(ls[ls.len() - 1]) is None);
    let t = trim(ls.last());
    if "Configured Memory Speed:"@.is_prefix_of(t) && "Speed:"@.is_prefix_of(t) {
        assert("Configured Memory Speed:"@[0] == t[0] && "Speed:"@[0] == t[0]);
    }
    if i < ls.len() - 1 {
        assert(front[i] == ls[i]);
        assert forall|j: int| 0 <= j < i implies says_rated(#[trigger] front[j]) is None by {
            assert(front[j] == ls[j]);
        }
        the_first_rated_speed_counts(front, i);
    } else {
        assert forall|j: int| 0 <= j < front.len() implies says_rated(#[trigger] front[j]) is None by {
            assert(front[j] == ls[j]);
        }
        nothing_rated(front);
    }
}

proof fn nothing_rated(ls: Seq<Seq<char>>)
    requires
        forall|j: int| 0 <= j < ls.len() ==> says_configured(#[trigger] ls[j]) is None,
        forall|j: int| 0 <= j < ls.len() ==> says_rated(#[trigger] ls[j]) is None,
    ensures
        dmi_lines(ls).configured is None,
        dmi_lines(ls).rated is None,
    decreases ls.len(),
{
    if ls.len() > 0 {
        let front = ls.drop_last();
        assert forall|j: int| 0 <= j < front.len() implies says_configured(#[trigger] front[j])
            is None && says_rated(front[j]) is None by {
            assert(front[j] == ls[j]);
            assert(says_rated(ls[j]) is None);
        }
        nothing_rated(front);
        assert(says_configured(ls[ls.len() - 1]) is None && says_rated(ls[ls.len() - 1]) is None);
    }
}

/// Every module whose part number is given is listed, in order, and nothing else is.
pub proof fn every_part_is_listed(ls: Seq<Seq<char>>, line: Seq<char>, part: Seq<char>)
    requires
        trim(line) == "Part Number:"@ + part,
    ensures
        trim(part).len() > 0 && trim(part) != "Not Specified"@ ==> dmi_lines(ls.push(line)).parts
            == dmi_lines(ls).parts.push(trim(part)),
        trim(part).len() == 0 || trim(part) == "Not Specified"@ ==> dmi_lines(ls.push(line)).parts
            == dmi_lines(ls).parts,
        dmi_lines(ls.push(line)).configured == dmi_lines(ls).configured,
        dmi_lines(ls.push(line)).rated == dmi_lines(ls).rated,
{
    reveal_strlit("Configured Memory Speed:");
    reveal_strlit("Speed:");
    reveal_strlit("Part Number:");
    let t = trim(line);
    let key = "Part Number:"@;
    assert(t[0] == 'P');
    assert("Speed:"@[0] == 'S' && "Configured Memory Speed:"@[0] == 'C');
    assert(key =~= t.subrange(0, key.len() as int));
    assert(t.skip(key.len() as int) =~= part);
    assert(ls.push(line).drop_last() =~= ls);
    assert(ls.push(line).last() == line);
    if "Speed:"@.is_prefix_of(t) {
        assert("Speed:"@[0] == t[0]);
    }
    if "Configured Memory Speed:"@.is_prefix_of(t) {
        assert("Configured Memory Speed:"@[0] == t[0]);
    }
}

/// What root can read of the memory adds to a machine and changes nothing else of it.
pub proof fn reading_the_memory_keeps_the_rest(
    before: MachineV,
    m: MachineV,
    dmi: DmiV,
    dimms: Option<Seq<char>>,
)
    requires
        with_memory(before, m, dmi, dimms),
    ensures
        m.cpu_model == before.cpu_model,
        m.cpu_base_mhz == before.cpu_base_mhz,
        m.cores_physical == before.cores_physical,
        m.threads_online == before.threads_online,
        m.board == before.board,
        m.chipset == before.chipset,
        m.mem.total_bytes == before.mem.total_bytes,
        dmi.configured is Some ==> m.mem.speed_mts is Some && m.mem.speed_mts->Some_0
            == dmi.configured->Some_0,
        dmi.configured is None && dmi.rated is Some ==> m.mem.speed_mts is Some
            && m.mem.speed_mts->Some_0 == dmi.rated->Some_0,
        forall|p: Seq<char>| #[trigger] m.mem.parts.contains(p) <==> dmi.parts.contains(p),
        dimms is Some ==> m.mem.timings == first_timings(lines(dimms->Some_0)),
{
}

/// The first line that has timings decides on them.
pub proof fn the_first_timings_count(ls: Seq<Seq<char>>, i: int)
    requires
        0 <= i < ls.len(),
        line_timings(ls[i]) is Some,
        forall|j: int| 0 <= j < i ==> line_timings(#[trigger] ls[j]) is None,
    ensures
        first_timings(ls) == line_timings(ls[i]),
        contains_text(ls[i], "tRCD"@),
    decreases ls.len(),
{
    if i > 0 {
        let rest = ls.drop_first();
        assert forall|j: int| 0 <= j < i - 1 implies line_timings(#[trigger] rest[j]) is None by {
            assert(rest[j] == ls[j + 1]);
        }
        assert(line_timings(ls[0]) is None);
        the_first_timings_count(rest, i - 1);
    }
}

/// A description is what stands before its revision, or all of it where it has none.
pub proof fn revisions_come_off(s: Seq<char>, name: Seq<char>, rest: Seq<char>)
    requires
        s == name + " (rev"@ + rest,
        forall|j: int| 0 <= j < name.len() ==> !stands_at(s, " (rev"@, j),
    ensures
        without_revision(s) == trim(name),
        !contains_text(name, " (rev"@) ==> without_revision(name) == name,
{
    let pat = " (rev"@;
    assert(s.subrange(name.len() as int, (name.len() + pat.len()) as int) =~= pat);
    find_text_is(s, pat, name.len() as int);
    assert(s.take(name.len() as int) =~= name);
    if !contains_text(name, pat) {
        assert forall|j: int| 0 <= j <= name.len() implies !stands_at(name, pat, j) by {}
        find_text_none(name, pat);
    }
}

/// A trailing id in brackets comes off a description; brackets that hold something else
/// stay.
pub proof fn ids_come_off(name: Seq<char>, id: Seq<char>)
    ensures
        is_pci_id(id) ==> without_pci_id(name + " ["@ + id + "]"@) == name,
        without_pci_id(name) == name || exists|x: Seq<char>|
            is_pci_id(x) && #[trigger] (without_pci_id(name) + " ["@ + x + "]"@) == name,
{
    reveal_strlit(" [");
    reveal_strlit("]");
    if is_pci_id(id) {
        let s = name + " ["@ + id + "]"@;
        assert(s.last() == ']');
        assert(s.drop_last() =~= name + " ["@ + id);
        find_bounds(id, ':');
        last_bracket(name, id);
        assert((name + " ["@ + id).skip(name.len() as int + 2) =~= id);
        assert((name + " ["@ + id).take(name.len() as int) =~= name);
    }
    if without_pci_id(name) != name {
        let head = name.drop_last();
        bracket_stands(head);
        let at = find_last_text(head, " ["@)->Some_0;
        let x = head.skip(at + 2);
        assert(head.subrange(at, at + 2) =~= " ["@);
        assert(name =~= without_pci_id(name) + " ["@ + x + "]"@);
    }
}

proof fn bracket_stands(s: Seq<char>)
    ensures
        find_last_text(s, " ["@) matches Some(at) ==> 0 <= at <= s.len() - 2 && s.subrange(at, at + 2)
            == " ["@,
    decreases s.len(),
{
    reveal_strlit(" [");
    if " ["@.is_suffix_of(s) {
        assert(s.subrange(s.len() - 2, s.len() as int) =~= " ["@);
    } else if s.len() > 0 {
        let t = s.drop_last();
        bracket_stands(t);
        if let Some(at) = find_last_text(t, " ["@) {
            assert(s.subrange(at, at + 2) =~= t.subrange(at, at + 2));
        }
    }
}

proof fn last_bracket(name: Seq<char>, id: Seq<char>)
    requires
        forall|i: int| 0 <= i < id.len() ==> id[i] == ':' || is_hex(#[trigger] id[i]),
    ensures
        find_last_text(name + " ["@ + id, " ["@) == Some(name.len() as int),
    decreases id.len(),
{
    reveal_strlit(" [");
    let s = name + " ["@ + id;
    if id.len() == 0 {
        assert(s =~= name + " ["@);
        assert(s.subrange(s.len() - 2, s.len() as int) =~= " ["@);
        assert(" ["@.is_suffix_of(s));
    } else {
        assert(is_hex(id[id.len() - 1]) || id[id.len() - 1] == ':');
        assert(s.last() == id.last());
        if " ["@.is_suffix_of(s) {
            assert(" ["@[1] == s.subrange(s.len() - 2, s.len() as int)[1]);
        }
        assert(s.drop_last() =~= name + " ["@ + id.drop_last());
        last_bracket(name, id.drop_last());
    }
}

/// What stands behind a text is what stands behind its first occurrence.
pub proof fn what_is_behind_follows_the_first(s: Seq<char>, pat: Seq<char>, at: int)
    requires
        stands_at(s, pat, at),
        forall|j: int| 0 <= j < at ==> !stands_at(s, pat, j),
    ensures
        behind(s, pat) == Some(s.skip(at + pat.len())),
{
    find_text_is(s, pat, at);
}

/// The components that count are those of which a test holds, in their order.
pub proof fn components_are_filtered(list: Seq<Component>, test: spec_fn(Component) -> bool)
    ensures
        kept(list, test) == list.filter(test),
    decreases list.len(),
{
    reveal(Seq::filter);
    if list.len() > 0 {
        components_are_filtered(list.drop_last(), test);
    }
}

/// Each observed component is in exactly one tier: that of root, or that of everyone.
pub proof fn tiers_share_out_the_components(list: Seq<Component>, c: Component)
    ensures
        tier(list, true).contains(c) <==> list.contains(c) && root_only(c),
        tier(list, false).contains(c) <==> list.contains(c) && !root_only(c),
{
    kept_are_those(list, |x: Component| root_only(x) == true, c);
    kept_are_those(list, |x: Component| root_only(x) == false, c);
}

proof fn kept_are_those(list: Seq<Component>, test: spec_fn(Component) -> bool, c: Component)
    ensures
        kept(list, test).contains(c) <==> list.contains(c) && test(c),
    decreases list.len(),
{
    if list.len() > 0 {
        let front = list.drop_last();
        let rest = kept(front, test);
        let all = kept(list, test);
        kept_are_those(front, test, c);
        if list.contains(c) && c != list.last() {
            assert(front[list.index_of(c)] == c);
        }
        if front.contains(c) {
            assert(list[front.index_of(c)] == c);
        }
        assert(list[list.len() - 1] == list.last());
        if test(list.last()) {
            assert(all[rest.len() as int] == list.last());
            if rest.contains(c) {
                assert(all[rest.index_of(c)] == c);
            }
            if all.contains(c) && c != list.last() {
                assert(rest[all.index_of(c)] == c);
            }
        }
    }
}

/// What was read is what is recorded as read.
pub proof fn what_was_read_is_recorded(m: MachineV)
    ensures
        refreshed(m).hash_observed.contains(Component::CpuModel) <==> m.cpu_model is Some,
        refreshed(m).hash_observed.contains(Component::CpuBaseMhz) <==> m.cpu_base_mhz is Some,
        refreshed(m).hash_observed.contains(Component::MemSpeedMts) <==> m.mem.speed_mts is Some,
        refreshed(m).hash_observed.contains(Component::MemTimings) <==> m.mem.timings is Some,
        refreshed(m).hash_observed.contains(Component::Board) <==> m.board.vendor is Some
            || m.board.name is Some,
        refreshed(m).hash_observed.contains(Component::Chipset) <==> m.chipset is Some,
{
    read_is_recorded(m, Component::CpuModel);
    read_is_recorded(m, Component::CpuBaseMhz);
    read_is_recorded(m, Component::MemSpeedMts);
    read_is_recorded(m, Component::MemTimings);
    read_is_recorded(m, Component::Board);
    read_is_recorded(m, Component::Chipset);
}

proof fn read_is_recorded(m: MachineV, c: Component)
    ensures
        refreshed(m).hash_observed.contains(c) <==> observed(m, c),
{
    let test = |x: Component| observed(m, x);
    kept_are_those(every_component(), test, c);
    let all = every_component();
    match c {
        Component::CpuModel => assert(all[0] == c),
        Component::CpuBaseMhz => assert(all[1] == c),
        Component::MemSpeedMts => assert(all[2] == c),
        Component::MemTimings => assert(all[3] == c),
        Component::Board => assert(all[4] == c),
        Component::Chipset => assert(all[5] == c),
    }
}

/// Each component is known by its own value: where two machines agree on what is written
/// of it, they agree on it.
pub proof fn components_have_their_own_values(a: MachineV, b: MachineV)
    ensures
        a.cpu_model is Some && b.cpu_model is Some && component_value(a, Component::CpuModel)
            == component_value(b, Component::CpuModel) ==> a.cpu_model == b.cpu_model,
        a.cpu_base_mhz is Some && b.cpu_base_mhz is Some && component_value(
            a,
            Component::CpuBaseMhz,
        ) == component_value(b, Component::CpuBaseMhz) ==> a.cpu_base_mhz == b.cpu_base_mhz,
        a.mem.speed_mts is Some && b.mem.speed_mts is Some && component_value(
            a,
            Component::MemSpeedMts,
        ) == component_value(b, Component::MemSpeedMts) ==> a.mem.speed_mts == b.mem.speed_mts,
        a.mem.timings is Some && b.mem.timings is Some && component_value(a, Component::MemTimings)
            == component_value(b, Component::MemTimings) ==> a.mem.timings == b.mem.timings,
        a.chipset is Some && b.chipset is Some && component_value(a, Component::Chipset)
            == component_value(b, Component::Chipset) ==> a.chipset == b.chipset,
        a.board.vendor is Some && b.board.vendor is Some && a.board.name is Some && b.board.name
            is Some && !a.board.vendor->Some_0.contains('/') && !b.board.vendor->Some_0.contains('/')
            && component_value(a, Component::Board) == component_value(b, Component::Board)
            ==> a.board == b.board,
{
    if a.cpu_base_mhz is Some && b.cpu_base_mhz is Some {
        decimal_reads_back(a.cpu_base_mhz->Some_0 as nat);
        decimal_reads_back(b.cpu_base_mhz->Some_0 as nat);
    }
    if a.mem.speed_mts is Some && b.mem.speed_mts is Some {
        decimal_reads_back(a.mem.speed_mts->Some_0 as nat);
        decimal_reads_back(b.mem.speed_mts->Some_0 as nat);
    }
    if a.board.vendor is Some && b.board.vendor is Some && a.board.name is Some && b.board.name
        is Some && !a.board.vendor->Some_0.contains('/') && !b.board.vendor->Some_0.contains('/')
        && component_value(a, Component::Board) == component_value(b, Component::Board) {
        reveal_strlit("/");
        let s = component_value(a, Component::Board);
        let (v, w) = (a.board.vendor->Some_0, b.board.vendor->Some_0);
        let (n, o) = (a.board.name->Some_0, b.board.name->Some_0);
        assert(s == v + "/"@ + n && s == w + "/"@ + o);
        assert(s[v.len() as int] == '/' && s[w.len() as int] == '/');
        if v.len() < w.len() {
            assert(w[v.len() as int] == '/');
        }
        if w.len() < v.len() {
            assert(v[w.len() as int] == '/');
        }
        assert(s.take(v.len() as int) =~= v && s.take(v.len() as int) =~= w);
        assert(s.skip(v.len() as int + 1) =~= n && s.skip(v.len() as int + 1) =~= o);
    }
}

/// The account of a machine names every component, with its value where it was read and
/// where it is read from.
pub proof fn accounts_name_every_component(m: MachineV, i: int)
    requires
        0 <= i < m.hash_components.len(),
    ensures
        contains_text(explanation(m), component_source(m.hash_components[i])),
        observed(m, m.hash_components[i]) ==> contains_text(
            explanation(m),
            component_name(m.hash_components[i]) + ": "@ + component_value(m, m.hash_components[i]),
        ),
        !observed(m, m.hash_components[i]) ==> contains_text(
            explanation(m),
            "MISS] "@ + component_name(m.hash_components[i]),
        ),
{
    let c = m.hash_components[i];
    let line = component_line(m, c);
    line_stands(m, i);
    line_tells(m, c);
    stands_through(explanation(m), line, component_source(c));
    if observed(m, c) {
        stands_through(
            explanation(m),
            line,
            component_name(c) + ": "@ + component_value(m, c),
        );
    } else {
        stands_through(explanation(m), line, "MISS] "@ + component_name(c));
    }
}

proof fn line_stands(m: MachineV, i: int)
    requires
        0 <= i < m.hash_components.len(),
    ensures
        contains_text(explanation(m), component_line(m, m.hash_components[i])),
{
    let list = m.hash_components;
    lines_stand(m, list, i);
    let head = explanation(m).take(explanation(m).len() - component_lines(m, list).len());
    let none = Seq::<char>::empty();
    assert(explanation(m) =~= head + component_lines(m, list) + none);
    stands_between(head, component_lines(m, list), none);
    stands_through(explanation(m), component_lines(m, list), component_line(m, list[i]));
}

proof fn line_tells(m: MachineV, c: Component)
    ensures
        contains_text(component_line(m, c), component_source(c)),
        observed(m, c) ==> contains_text(
            component_line(m, c),
            component_name(c) + ": "@ + component_value(m, c),
        ),
        !observed(m, c) ==> contains_text(component_line(m, c), "MISS] "@ + component_name(c)),
{
    let line = component_line(m, c);
    let from = "\n         from "@;
    let end = from + component_source(c) + "\n"@;
    if observed(m, c) {
        let what = component_name(c) + ": "@ + component_value(m, c);
        let shown = "ok  ] "@ + component_name(c) + ": "@ + component_value(m, c);
        assert(line == "  ["@ + shown + from + component_source(c) + "\n"@);
        stands_between("  ["@ + shown + from, component_source(c), "\n"@);
        assert(shown =~= "ok  ] "@ + what);
        assert(line =~= ("  ["@ + "ok  ] "@) + what + end);
        stands_between("  ["@ + "ok  ] "@, what, end);
    } else {
        let what = "MISS] "@ + component_name(c);
        let why = if root_only(c) {
            ": unreadable without root"@
        } else {
            ": unreadable"@
        };
        assert(line == "  ["@ + (what + why) + from + component_source(c) + "\n"@);
        stands_between("  ["@ + (what + why) + from, component_source(c), "\n"@);
        assert(line =~= "  ["@ + what + (why + end));
        stands_between("  ["@, what, why + end);
    }
}

proof fn lines_stand(m: MachineV, list: Seq<Component>, i: int)
    requires
        0 <= i < list.len(),
    ensures
        contains_text(component_lines(m, list), component_line(m, list[i])),
    decreases list.len(),
{
    let none = Seq::<char>::empty();
    let front = component_lines(m, list.drop_last());
    let last = component_line(m, list.last());
    if i == list.len() - 1 {
        stands_between(front, last, none);
        assert(front + last + none =~= component_lines(m, list));
    } else {
        lines_stand(m, list.drop_last(), i);
        stands_between(none, front, last);
        assert(none + front + last =~= component_lines(m, list));
        stands_through(component_lines(m, list), front, component_line(m, list[i]));
    }
}

/// A capture is accepted on the machine that it was taken of, and stands for all of it.
pub proof fn captures_are_accepted_where_they_were_taken(
    m: MachineV,
    taken: Seq<char>,
    path: Seq<char>,
    f: Fingerprint,
    allow: bool,
)
    requires
        m == refreshed(m),
        m.hash_components == every_component(),
        f@ == (FingerprintV {
            checksum: checksum_text(body_text(recorded(m, taken))),
            ..recorded(m, taken)
        }),
    ensures
        gate(path, Found::File(f), m, allow) is Ok,
        ({
            let h = gate(path, Found::File(f), m, allow)->Ok_0;
            &&& h.fingerprint == Some(path)
            &&& h.warning is None
            &&& h.machine == (MachineV { cores_physical: None, threads_online: None, ..m })
        }),
{
    let r = recorded(m, taken);
    capture_describes_its_machine(m, taken);
    written_files_verify(r);
    assert(body_text(f@) == body_text(r));
}

/// Timings are four numbers with hyphens between; a list of any other length is none.
pub proof fn timings_are_four_numbers(ns: Seq<nat>)
    requires
        ns.len() > 0,
    ensures
        is_timing_set(
            join(Seq::new(ns.len(), |i: int| dec(ns[i])), seq!['-']),
        ) <==> ns.len() == 4,
{
    let parts = Seq::new(ns.len(), |i: int| dec(ns[i]));
    assert forall|i: int| 0 <= i < parts.len() implies !(#[trigger] parts[i]).contains('-') && (
    forall|j: int| 0 <= j < parts[i].len() ==> is_digit(#[trigger] parts[i][j])) by {
        decimal_reads_back(ns[i]);
        assert(parts[i] == dec(ns[i]));
        if parts[i].contains('-') {
            let k = parts[i].index_of('-');
            assert(is_digit(parts[i][k]));
        }
    }
    split_of_join(parts, '-');
    let groups = split(join(parts, seq!['-']), '-');
    assert(groups == parts);
    assert forall|i: int, j: int| 0 <= i < groups.len() && 0 <= j < groups[i].len() implies is_digit(
        #[trigger] groups[i][j],
    ) by {
        assert(!parts[i].contains('-'));
    }
}

proof fn last_colon(a: Seq<char>, b: Seq<char>)
    requires
        !b.contains(':'),
    ensures
        find_last_text(a + seq![':'] + b, ":"@) == Some(a.len() as int),
    decreases b.len(),
{
    reveal_strlit(":");
    let s = a + seq![':'] + b;
    assert(":"@ =~= seq![':']);
    if b.len() == 0 {
        assert(s =~= a + seq![':']);
        assert(s.subrange(s.len() - 1, s.len() as int) =~= ":"@);
        assert(":"@.is_suffix_of(s));
    } else {
        assert(b.contains(b.last()));
        assert(s.last() == b.last());
        if ":"@.is_suffix_of(s) {
            assert(":"@[0] == s.subrange(s.len() - 1, s.len() as int)[0]);
        }
        assert(s.drop_last() =~= a + seq![':'] + b.drop_last());
        assert forall|i: int| 0 <= i < b.drop_last().len() implies b.drop_last()[i] != ':' by {
            assert(b.contains(b[i]));
        }
        last_colon(a, b.drop_last());
    }
}

/// The timings of a line are the first word behind its last colon, where that line tells
/// of timings and that word is one.
pub proof fn timings_stand_behind_the_last_colon(a: Seq<char>, b: Seq<char>)
    requires
        !b.contains(':'),
        words(trim(b)).len() > 0,
    ensures
        contains_text(a + seq![':'] + b, "tRCD"@) && is_timing_set(words(trim(b))[0])
            ==> line_timings(a + seq![':'] + b) == Some(words(trim(b))[0]),
        !contains_text(a + seq![':'] + b, "tRCD"@) || !is_timing_set(words(trim(b))[0])
            ==> line_timings(a + seq![':'] + b) is None,
{
    let s = a + seq![':'] + b;
    last_colon(a, b);
    assert(s.skip(a.len() as int + 1) =~= b);
}

/// The chipset is what the first line of a host bridge calls it, without its revision and
/// its id.
pub proof fn chipsets_are_what_the_bridge_is_called(
    text: Seq<char>,
    i: int,
    front: Seq<char>,
    name: Seq<char>,
    id: Seq<char>,
    rest: Seq<char>,
)
    requires
        0 <= i < lines(text).len(),
        lines(text)[i] == front + "Host bridge:"@ + (name + " ["@ + id + "]"@ + " (rev"@ + rest),
        forall|j: int| 0 <= j < i ==> !contains_text(#[trigger] lines(text)[j], "Host bridge"@),
        forall|j: int| 0 <= j < front.len() ==> !stands_at(lines(text)[i], "Host bridge:"@, j),
        is_pci_id(id),
        name.len() > 1,
        name[0] == ' ',
        !is_space(name[1]),
        trim(name + " ["@ + id + "]"@ + " (rev"@ + rest) == (name + " ["@ + id + "]"@ + " (rev"@
            + rest).skip(1),
        forall|j: int|
            0 <= j < (name.skip(1) + " ["@ + id + "]"@).len() ==> !stands_at(
                name.skip(1) + " ["@ + id + "]"@ + " (rev"@ + rest,
                " (rev"@,
                j,
            ),
    ensures
        chipset_of(text) == Some(name.skip(1)),
{
    let line = lines(text)[i];
    let key = "Host bridge:"@;
    let whole = name + " ["@ + id + "]"@ + " (rev"@ + rest;
    assert(line.subrange(front.len() as int, (front.len() + key.len()) as int) =~= key);
    find_text_is(line, key, front.len() as int);
    assert(line.skip(front.len() as int + key.len()) =~= whole);
    bridge_is_first(lines(text), i, front);
    let bare = name.skip(1);
    let s = bare + " ["@ + id + "]"@ + " (rev"@ + rest;
    assert(whole.skip(1) =~= s);
    let described = bare + " ["@ + id + "]"@;
    revisions_come_off(s, described, rest);
    reveal_strlit("]");
    assert(described[0] == bare[0] && bare[0] == name[1]);
    assert(described.last() == ']');
    trimmed_already(described);
    ids_come_off(bare, id);
}

proof fn bridge_is_first(ls: Seq<Seq<char>>, i: int, front: Seq<char>)
    requires
        0 <= i < ls.len(),
        stands_at(ls[i], "Host bridge:"@, front.len() as int),
        forall|j: int| 0 <= j < i ==> !contains_text(#[trigger] ls[j], "Host bridge"@),
    ensures
        bridge_line(ls) == Some(ls[i]),
    decreases ls.len(),
{
    if i == 0 {
        reveal_strlit("Host bridge:");
        reveal_strlit("Host bridge");
        let at = front.len() as int;
        let l = ls[0];
        assert(l.subrange(at, at + 11) =~= l.subrange(at, at + 12).take(11));
        assert(l.subrange(at, at + 11) =~= "Host bridge"@);
        assert(stands_at(l, "Host bridge"@, at));
    } else {
        let rest = ls.drop_first();
        assert forall|j: int| 0 <= j < i - 1 implies !contains_text(
            #[trigger] rest[j],
            "Host bridge"@,
        ) by {
            assert(rest[j] == ls[j + 1]);
        }
        assert(!contains_text(ls[0], "Host bridge"@));
        assert(rest[i - 1] == ls[i]);
        bridge_is_first(rest, i - 1, front);
    }
}

/// A machine of which something was not read is accounted for with a note that says so;
/// one that was read completely is not.
pub proof fn accounts_note_what_is_missing(m: MachineV)
    ensures
        m.hash_observed.len() != m.hash_components.len() ==> contains_text(
            explanation(m),
            DEGRADED_NOTE@,
        ),
        m.hash_observed.len() == m.hash_components.len() ==> explanation(m).len() == "machine hash: "@.len()
            + machine_hash(m).len() + 1 + component_lines(m, m.hash_components).len(),
        ("machine hash: "@ + machine_hash(m)).is_prefix_of(explanation(m)),
{
    reveal_strlit("");
    reveal_strlit("\n");
    let s = explanation(m);
    let head = "machine hash: "@ + machine_hash(m);
    assert(s.subrange(0, head.len() as int) =~= head);
    if m.hash_observed.len() != m.hash_components.len() {
        stands_between(head + "\n"@, DEGRADED_NOTE@, component_lines(m, m.hash_components));
    }
}

/// A fingerprint's checksum is written as eight bytes, two digits each, with colons
/// between.
pub proof fn checksums_are_eight_bytes(code: Seq<u8>)
    requires
        code.len() >= 8,
    ensures
        written_code(code).len() == 23,
        forall|i: int| 0 <= i < 7 ==> #[trigger] written_code(code)[3 * i + 2] == ':',
{
    reveal_strlit(":");
    let parts = hex_bytes(code.take(8));
    reveal_with_fuel(join, 9);
    assert(parts.len() == 8);
    assert forall|i: int| 0 <= i < 8 implies (#[trigger] parts[i]).len() == 2 by {}
    joined_pairs(parts);
}

proof fn joined_pairs(parts: Seq<Seq<char>>)
    requires
        parts.len() > 0,
        forall|i: int| 0 <= i < parts.len() ==> (#[trigger] parts[i]).len() == 2,
    ensures
        join(parts, ":"@).len() == 3 * parts.len() - 1,
        forall|i: int| 0 <= i < parts.len() - 1 ==> #[trigger] join(parts, ":"@)[3 * i + 2] == ':',
    decreases parts.len(),
{
    reveal_strlit(":");
    if parts.len() > 1 {
        let front = parts.drop_last();
        assert forall|i: int| 0 <= i < front.len() implies (#[trigger] front[i]).len() == 2 by {
            assert(front[i] == parts[i]);
        }
        joined_pairs(front);
        assert forall|i: int| 0 <= i < parts.len() - 1 implies #[trigger] join(parts, ":"@)[3 * i + 2]
            == ':' by {
            if i < front.len() - 1 {
                assert(join(parts, ":"@)[3 * i + 2] == join(front, ":"@)[3 * i + 2]);
            }
        }
    }
}

/// A probe counts a thread for each line that starts one, and takes no more memory than
/// is there and no less than a whole step below it.
pub proof fn probes_count_what_is_there(h: HostReadings, m: MachineV)
    requires
        probed(h, m),
    ensures
        h.cpuinfo is Some ==> m.threads_online == Some(
            lines(h.cpuinfo->Some_0@).filter(
                |l: Seq<char>| "processor"@.is_prefix_of(l),
            ).len() as u32,
        ),
        h.meminfo is Some ==> (match meminfo_kib(h.meminfo->Some_0@) {
            Some(k) => k * 1024 <= u64::MAX ==> m.mem.total_bytes is Some
                && m.mem.total_bytes->Some_0 <= k * 1024 < m.mem.total_bytes->Some_0
                + MEM_TOTAL_ROUNDING && (m.mem.total_bytes->Some_0 as nat) % (MEM_TOTAL_ROUNDING as nat) == 0,
            None => m.mem.total_bytes is None,
        }),
{
    if let Some(t) = h.cpuinfo {
        named_lines_are_counted(lines(t@), "processor"@);
    }
    if let Some(t) = h.meminfo {
        if let Some(k) = meminfo_kib(t@) {
            rounding_is_to_whole_steps(k);
        }
    }
}

/// What needs no root is what a probe can read and what root's reading leaves alone; the
/// rest is read by root only.
pub proof fn root_reads_what_a_probe_cannot(
    h: HostReadings,
    before: MachineV,
    m: MachineV,
    dmi: DmiV,
    dimms: Option<Seq<char>>,
    c: Component,
)
    ensures
        probed(h, before) && observed(before, c) ==> !root_only(c),
        with_memory(before, m, dmi, dimms) && !root_only(c) ==> component_value(m, c)
            == component_value(before, c),
{
}

} // verus!
