//! What a fingerprint promises: a capture describes its machine, a written file
//! verifies, no two captures share a body, and every change of hardware is found.

use crate::exec_laws::stands_between;
use crate::fingerprint::{
    as_nat32, as_nat64, body_text, checksum_holds, checksum_text, described, escaped, escaped_char,
    fingerprint_message, first_change, gate, key_line, list_line, number_line, occurrences,
    rebuilt, recorded, tables_text, text_line, toml_text, toml_texts, Fingerprint,
    FingerprintErrorV, FingerprintV, Found, UnprivilegedV, CAPTURE_COMMAND, FINGERPRINT_SCHEMA,
};
use crate::machine::{
    component_value, degraded_means_something_is_missing, every_component, kept, kept_agrees,
    machine_hash, observed, probed, refreshed, root_only, same_hardware_same_hash, suffix_hash,
    unknown_machine, BoardV, Component, HostReadings, MachineV, MemoryV, UNKNOWN_SUFFIX,
};
use crate::text::{contains_text, dec, decimal_reads_back, is_digit, join};
use vstd::prelude::*;
use vstd::utf8::encode_utf8;

verus! {

/// A capture describes the machine it was taken of: the file rebuilds it (but for
/// the counts of cores and threads, which a capture does not record), its hash is
/// the recorded one, and the machine validates against it.
pub proof fn capture_describes_its_machine(m: MachineV, taken: Seq<char>)
    requires
        m == refreshed(m),
        m.hash_components == every_component(),
    ensures
        rebuilt(recorded(m, taken)) == Ok::<_, FingerprintErrorV>(
            MachineV { cores_physical: None, threads_online: None, ..m },
        ),
        first_change(recorded(m, taken).unprivileged, m) is None,
{
    let f = recorded(m, taken);
    let bare = MachineV { cores_physical: None, threads_online: None, ..m };
    let x = MachineV {
        cpu_model: f.unprivileged.cpu_model,
        cpu_base_mhz: f.unprivileged.cpu_base_mhz,
        board: BoardV { vendor: f.unprivileged.board_vendor, name: f.unprivileged.board_name },
        chipset: f.unprivileged.chipset,
        mem: MemoryV {
            total_bytes: f.unprivileged.mem_total_bytes,
            speed_mts: f.privileged.mem_speed_mts,
            timings: f.privileged.mem_timings,
            parts: f.privileged.mem_parts,
        },
        ..unknown_machine()
    };
    assert(described(f) == refreshed(x));
    kept_agrees(every_component(), |c: Component| observed(m, c), |c: Component| observed(x, c));
    assert(refreshed(x) == bare);
    assert forall|c: Component| #[trigger] component_value(m, c) == component_value(bare, c) by {}
    same_hardware_same_hash(m, bare);
}

/// A file written with the checksum of its body verifies.
pub proof fn written_files_verify(f: FingerprintV)
    ensures
        checksum_holds(FingerprintV { checksum: checksum_text(body_text(f)), ..f }),
{
    let g = FingerprintV { checksum: checksum_text(body_text(f)), ..f };
    assert(body_text(g) == body_text(f));
}

/// A host passes exactly when every component that the file records is the host's;
/// one that became unreadable is a change too.
pub proof fn every_change_is_found(u: UnprivilegedV, host: MachineV)
    ensures
        first_change(u, host) is None <==> {
            &&& u.cpu_model is Some ==> host.cpu_model == u.cpu_model
            &&& u.cpu_base_mhz is Some ==> host.cpu_base_mhz == u.cpu_base_mhz
            &&& u.board_vendor is Some ==> host.board.vendor == u.board_vendor
            &&& u.board_name is Some ==> host.board.name == u.board_name
            &&& u.chipset is Some ==> host.chipset == u.chipset
            &&& u.mem_total_bytes is Some ==> host.mem.total_bytes == u.mem_total_bytes
        },
        first_change(u, host) is Some ==> first_change(u, host)->Some_0 is HardwareChanged,
{
}

proof fn nothing_kept(list: Seq<Component>, test: spec_fn(Component) -> bool)
    requires
        forall|i: int| 0 <= i < list.len() ==> !test(#[trigger] list[i]),
    ensures
        kept(list, test).len() == 0,
    decreases list.len(),
{
    if list.len() > 0 {
        assert(!test(list[list.len() - 1]));
        let t = list.drop_last();
        assert forall|i: int| 0 <= i < t.len() implies !test(#[trigger] t[i]) by {
            assert(!test(list[i]));
        }
        nothing_kept(t, test);
    }
}

proof fn kept_is_tested(list: Seq<Component>, test: spec_fn(Component) -> bool, i: int)
    requires
        0 <= i < kept(list, test).len(),
    ensures
        test(kept(list, test)[i]),
    decreases list.len(),
{
    let rest = kept(list.drop_last(), test);
    if i < rest.len() {
        kept_is_tested(list.drop_last(), test, i);
    }
}

/// An unprivileged probe is visibly unverified: the privileged half of its hash is
/// the sentinel, whatever the host.
pub proof fn a_probe_is_unverified(h: HostReadings, m: MachineV)
    requires
        probed(h, m),
    ensures
        suffix_hash(m) == UNKNOWN_SUFFIX@,
        m.degraded,
{
    let seen = |c: Component| observed(m, c);
    assert(m.hash_observed == kept(every_component(), seen));
    assert forall|i: int| 0 <= i < m.hash_observed.len() implies !(|c: Component|
        root_only(c) == true)(#[trigger] m.hash_observed[i]) by {
        kept_is_tested(every_component(), seen, i);
    }
    nothing_kept(m.hash_observed, |c: Component| root_only(c) == true);
    degraded_means_something_is_missing(m);
    assert(!observed(m, Component::MemTimings));
}

// ---------------------------------------------------------------- the body

proof fn escaped_from_front(s: Seq<char>)
    requires
        s.len() > 0,
    ensures
        escaped(s) == escaped_char(s[0]) + escaped(s.drop_first()),
    decreases s.len(),
{
    if s.len() == 1 {
        assert(s.drop_last() =~= Seq::empty());
        assert(s.drop_first() =~= Seq::empty());
        assert(escaped(s) =~= escaped_char(s[0]) + escaped(s.drop_first()));
    } else {
        escaped_from_front(s.drop_last());
        assert(s.drop_last().drop_first() =~= s.drop_first().drop_last());
        assert(s.drop_first().last() == s.last());
        assert(escaped(s) =~= escaped_char(s[0]) + escaped(s.drop_first()));
    }
}

/// An escaped text ends at its closing quote: what it is, and what follows, can be
/// told from the whole.
proof fn escaped_reads_back(a: Seq<char>, b: Seq<char>, x: Seq<char>, y: Seq<char>)
    requires
        escaped(a) + seq!['"'] + x == escaped(b) + seq!['"'] + y,
    ensures
        a == b,
        x == y,
    decreases a.len(),
{
    let l = escaped(a) + seq!['"'] + x;
    let r = escaped(b) + seq!['"'] + y;
    if a.len() > 0 {
        escaped_from_front(a);
    }
    if b.len() > 0 {
        escaped_from_front(b);
    }
    if a.len() == 0 {
        assert(l[0] == '"');
        if b.len() > 0 {
            assert(r[0] == escaped_char(b[0])[0]);
            assert(false);
        }
        assert(x =~= l.skip(1));
        assert(y =~= r.skip(1));
        assert(a =~= b);
    } else if b.len() == 0 {
        assert(r[0] == '"');
        assert(l[0] == escaped_char(a[0])[0]);
        assert(false);
    } else {
        let (ea, eb) = (escaped_char(a[0]), escaped_char(b[0]));
        assert(l[0] == ea[0]);
        assert(r[0] == eb[0]);
        if ea.len() == 2 {
            assert(l[1] == ea[1]);
        }
        if eb.len() == 2 {
            assert(r[1] == eb[1]);
        }
        assert(a[0] == b[0]);
        let (ra, rb) = (a.drop_first(), b.drop_first());
        assert(l.skip(ea.len() as int) =~= escaped(ra) + seq!['"'] + x);
        assert(r.skip(ea.len() as int) =~= escaped(rb) + seq!['"'] + y);
        escaped_reads_back(ra, rb, x, y);
        assert(a =~= seq![a[0]] + ra);
        assert(b =~= seq![b[0]] + rb);
    }
}

proof fn text_reads_back(a: Seq<char>, b: Seq<char>, x: Seq<char>, y: Seq<char>)
    requires
        toml_text(a) + x == toml_text(b) + y,
    ensures
        a == b,
        x == y,
{
    reveal_strlit("\"");
    assert("\""@ =~= seq!['"']);
    let l = toml_text(a) + x;
    let r = toml_text(b) + y;
    assert(l.skip(1) =~= escaped(a) + seq!['"'] + x);
    assert(r.skip(1) =~= escaped(b) + seq!['"'] + y);
    escaped_reads_back(a, b, x, y);
}

/// A number ends where its line does.
proof fn number_reads_back(n: nat, m: nat, x: Seq<char>, y: Seq<char>)
    requires
        dec(n) + "\n"@ + x == dec(m) + "\n"@ + y,
    ensures
        n == m,
        x == y,
{
    reveal_strlit("\n");
    decimal_reads_back(n);
    decimal_reads_back(m);
    let l = dec(n) + "\n"@ + x;
    let r = dec(m) + "\n"@ + y;
    if dec(n).len() < dec(m).len() {
        let k = dec(n).len() as int;
        assert(l[k] == '\n');
        assert(r[k] == dec(m)[k]);
        assert(is_digit(dec(m)[k]));
        assert(false);
    }
    if dec(m).len() < dec(n).len() {
        let k = dec(m).len() as int;
        assert(r[k] == '\n');
        assert(l[k] == dec(n)[k]);
        assert(is_digit(dec(n)[k]));
        assert(false);
    }
    let k = dec(n).len() as int;
    assert(l.take(k) =~= dec(n));
    assert(r.take(k) =~= dec(m));
    assert(l.skip(k + 1) =~= x);
    assert(r.skip(k + 1) =~= y);
}

/// Which of the entries a tail of the tables starts with, told from its first
/// characters.
spec fn entry(s: Seq<char>) -> int {
    if s.len() == 0 {
        10
    } else if s[0] == '\n' {
        6
    } else if s[0] == 'b' {
        if s[6] == 'v' {
            2
        } else {
            3
        }
    } else if s[0] == 'c' {
        if s[1] == 'h' {
            4
        } else if s[4] == 'm' {
            0
        } else {
            1
        }
    } else if s[4] == 's' {
        7
    } else if s[4] == 'p' {
        9
    } else if s[5] == 'o' {
        5
    } else {
        8
    }
}

spec fn key_of(i: int) -> Seq<char> {
    if i == 0 {
        "cpu_model"@
    } else if i == 1 {
        "cpu_base_mhz"@
    } else if i == 2 {
        "board_vendor"@
    } else if i == 3 {
        "board_name"@
    } else if i == 4 {
        "chipset"@
    } else if i == 5 {
        "mem_total_bytes"@
    } else if i == 7 {
        "mem_speed_mts"@
    } else if i == 8 {
        "mem_timings"@
    } else {
        "mem_parts"@
    }
}

proof fn keys_tell_entries(i: int, rest: Seq<char>)
    requires
        0 <= i < 10,
        i != 6,
    ensures
        entry(key_of(i) + rest) == i,
{
    reveal_strlit("cpu_model");
    reveal_strlit("cpu_base_mhz");
    reveal_strlit("board_vendor");
    reveal_strlit("board_name");
    reveal_strlit("chipset");
    reveal_strlit("mem_total_bytes");
    reveal_strlit("mem_speed_mts");
    reveal_strlit("mem_timings");
    reveal_strlit("mem_parts");
}

proof fn line_tells_entry(i: int, value: Seq<char>, rest: Seq<char>)
    requires
        0 <= i < 10,
        i != 6,
    ensures
        entry(key_line(key_of(i), value) + rest) == i,
        key_line(key_of(i), value) + rest == key_of(i) + " = "@ + (value + "\n"@ + rest),
{
    let tail = " = "@ + value + "\n"@ + rest;
    keys_tell_entries(i, tail);
    assert(key_line(key_of(i), value) + rest =~= key_of(i) + tail);
    assert(key_line(key_of(i), value) + rest =~= key_of(i) + " = "@ + (value + "\n"@ + rest));
}

/// What stands in the tables from an entry on.
spec fn tail(f: FingerprintV, i: int) -> Seq<char>
    decreases 10 - i,
{
    if i < 0 || i >= 10 {
        Seq::empty()
    } else {
        let rest = tail(f, i + 1);
        let u = f.unprivileged;
        let p = f.privileged;
        if i == 0 {
            text_line(key_of(0), u.cpu_model) + rest
        } else if i == 1 {
            number_line(key_of(1), as_nat32(u.cpu_base_mhz)) + rest
        } else if i == 2 {
            text_line(key_of(2), u.board_vendor) + rest
        } else if i == 3 {
            text_line(key_of(3), u.board_name) + rest
        } else if i == 4 {
            text_line(key_of(4), u.chipset) + rest
        } else if i == 5 {
            number_line(key_of(5), as_nat64(u.mem_total_bytes)) + rest
        } else if i == 6 {
            "\n[privileged]\n"@ + rest
        } else if i == 7 {
            number_line(key_of(7), as_nat32(p.mem_speed_mts)) + rest
        } else if i == 8 {
            text_line(key_of(8), p.mem_timings) + rest
        } else {
            list_line(key_of(9), p.mem_parts) + rest
        }
    }
}

proof fn regroup(a: Seq<char>, b: Seq<char>, c: Seq<char>)
    ensures
        a + (b + c) == a + b + c,
{
    assert(a + (b + c) =~= a + b + c);
}

proof fn tables_are_a_tail(f: FingerprintV)
    ensures
        tables_text(f) == "\n[unprivileged]\n"@ + tail(f, 0),
{
    let (u, p) = (f.unprivileged, f.privileged);
    let p0 = "\n[unprivileged]\n"@;
    let l0 = text_line(key_of(0), u.cpu_model);
    let l1 = number_line(key_of(1), as_nat32(u.cpu_base_mhz));
    let l2 = text_line(key_of(2), u.board_vendor);
    let l3 = text_line(key_of(3), u.board_name);
    let l4 = text_line(key_of(4), u.chipset);
    let l5 = number_line(key_of(5), as_nat64(u.mem_total_bytes));
    let l6 = "\n[privileged]\n"@;
    let l7 = number_line(key_of(7), as_nat32(p.mem_speed_mts));
    let l8 = text_line(key_of(8), p.mem_timings);
    let l9 = list_line(key_of(9), p.mem_parts);
    regroup(p0, l0, tail(f, 1));
    let p1 = p0 + l0;
    regroup(p1, l1, tail(f, 2));
    let p2 = p1 + l1;
    regroup(p2, l2, tail(f, 3));
    let p3 = p2 + l2;
    regroup(p3, l3, tail(f, 4));
    let p4 = p3 + l3;
    regroup(p4, l4, tail(f, 5));
    let p5 = p4 + l4;
    regroup(p5, l5, tail(f, 6));
    let p6 = p5 + l5;
    regroup(p6, l6, tail(f, 7));
    let p7 = p6 + l6;
    regroup(p7, l7, tail(f, 8));
    let p8 = p7 + l7;
    regroup(p8, l8, tail(f, 9));
    let p9 = p8 + l8;
    regroup(p9, l9, tail(f, 10));
    assert(tail(f, 10) == Seq::<char>::empty());
    assert(p9 + l9 + Seq::<char>::empty() =~= p9 + l9);
}

proof fn tails_start_late(f: FingerprintV, i: int)
    requires
        0 <= i <= 10,
    ensures
        entry(tail(f, i)) >= i,
    decreases 10 - i,
{
    if i < 10 {
        tails_start_late(f, i + 1);
        let rest = tail(f, i + 1);
        assert(Seq::<char>::empty() + rest =~= rest);
        let u = f.unprivileged;
        let p = f.privileged;
        if i == 0 && u.cpu_model is Some {
            line_tells_entry(0, toml_text(u.cpu_model->Some_0), rest);
        } else if i == 1 && u.cpu_base_mhz is Some {
            line_tells_entry(1, dec(u.cpu_base_mhz->Some_0 as nat), rest);
        } else if i == 2 && u.board_vendor is Some {
            line_tells_entry(2, toml_text(u.board_vendor->Some_0), rest);
        } else if i == 3 && u.board_name is Some {
            line_tells_entry(3, toml_text(u.board_name->Some_0), rest);
        } else if i == 4 && u.chipset is Some {
            line_tells_entry(4, toml_text(u.chipset->Some_0), rest);
        } else if i == 5 && u.mem_total_bytes is Some {
            line_tells_entry(5, dec(u.mem_total_bytes->Some_0 as nat), rest);
        } else if i == 6 {
            reveal_strlit("\n[privileged]\n");
            assert(tail(f, 6)[0] == '\n');
        } else if i == 7 && p.mem_speed_mts is Some {
            line_tells_entry(7, dec(p.mem_speed_mts->Some_0 as nat), rest);
        } else if i == 8 && p.mem_timings is Some {
            line_tells_entry(8, toml_text(p.mem_timings->Some_0), rest);
        } else if i == 9 && p.mem_parts.len() > 0 {
            line_tells_entry(9, "["@ + join(toml_texts(p.mem_parts), ", "@) + "]"@, rest);
        }
    }
}

/// Two texts under one key, each with what follows.
proof fn same_text_line(
    i: int,
    a: Option<Seq<char>>,
    b: Option<Seq<char>>,
    x: Seq<char>,
    y: Seq<char>,
)
    requires
        0 <= i < 10,
        i != 6,
        text_line(key_of(i), a) + x == text_line(key_of(i), b) + y,
        entry(x) > i,
        entry(y) > i,
    ensures
        a == b,
        x == y,
{
    assert(Seq::<char>::empty() + x =~= x);
    assert(Seq::<char>::empty() + y =~= y);
    if a is Some {
        line_tells_entry(i, toml_text(a->Some_0), x);
    }
    if b is Some {
        line_tells_entry(i, toml_text(b->Some_0), y);
    }
    if a is Some && b is Some {
        let k = key_of(i) + " = "@;
        let (p, q) = (toml_text(a->Some_0) + "\n"@ + x, toml_text(b->Some_0) + "\n"@ + y);
        assert((k + p).skip(k.len() as int) =~= p);
        assert((k + q).skip(k.len() as int) =~= q);
        assert(p =~= toml_text(a->Some_0) + ("\n"@ + x));
        assert(q =~= toml_text(b->Some_0) + ("\n"@ + y));
        text_reads_back(a->Some_0, b->Some_0, "\n"@ + x, "\n"@ + y);
        assert(("\n"@ + x).skip("\n"@.len() as int) =~= x);
        assert(("\n"@ + y).skip("\n"@.len() as int) =~= y);
    }
}

proof fn same_number_line(i: int, a: Option<nat>, b: Option<nat>, x: Seq<char>, y: Seq<char>)
    requires
        0 <= i < 10,
        i != 6,
        number_line(key_of(i), a) + x == number_line(key_of(i), b) + y,
        entry(x) > i,
        entry(y) > i,
    ensures
        a == b,
        x == y,
{
    assert(Seq::<char>::empty() + x =~= x);
    assert(Seq::<char>::empty() + y =~= y);
    if a is Some {
        line_tells_entry(i, dec(a->Some_0), x);
    }
    if b is Some {
        line_tells_entry(i, dec(b->Some_0), y);
    }
    if a is Some && b is Some {
        let k = key_of(i) + " = "@;
        let (p, q) = (dec(a->Some_0) + "\n"@ + x, dec(b->Some_0) + "\n"@ + y);
        assert((k + p).skip(k.len() as int) =~= p);
        assert((k + q).skip(k.len() as int) =~= q);
        number_reads_back(a->Some_0, b->Some_0, x, y);
    }
}

proof fn join_from_front(parts: Seq<Seq<char>>, sep: Seq<char>)
    requires
        parts.len() > 1,
    ensures
        join(parts, sep) == parts[0] + sep + join(parts.drop_first(), sep),
    decreases parts.len(),
{
    reveal_with_fuel(join, 3);
    if parts.len() == 2 {
        assert(join(parts, sep) =~= parts[0] + sep + join(parts.drop_first(), sep));
    } else {
        join_from_front(parts.drop_last(), sep);
        assert(parts.drop_last().drop_first() =~= parts.drop_first().drop_last());
        assert(parts.drop_first().last() == parts.last());
        assert(join(parts, sep) =~= parts[0] + sep + join(parts.drop_first(), sep));
    }
}

/// What follows the first string of a list.
spec fn behind_first(a: Seq<Seq<char>>, x: Seq<char>) -> Seq<char> {
    if a.len() > 1 {
        ", "@ + (join(toml_texts(a.drop_first()), ", "@) + "]"@ + x)
    } else {
        "]"@ + x
    }
}

proof fn list_starts(a: Seq<Seq<char>>, x: Seq<char>)
    requires
        a.len() > 0,
    ensures
        join(toml_texts(a), ", "@) + "]"@ + x == toml_text(a[0]) + behind_first(a, x),
        behind_first(a, x).len() > 0,
        a.len() > 1 ==> behind_first(a, x)[0] == ',',
        a.len() == 1 ==> behind_first(a, x)[0] == ']',
        a.len() > 1 ==> behind_first(a, x).skip(2) == join(toml_texts(a.drop_first()), ", "@) + "]"@
            + x,
        a.len() == 1 ==> behind_first(a, x).skip(1) == x,
{
    reveal_strlit(", ");
    reveal_strlit("]");
    let ta = toml_texts(a);
    let sep = ", "@;
    if a.len() > 1 {
        assert(ta.drop_first() =~= toml_texts(a.drop_first()));
        join_from_front(ta, sep);
        let j = join(toml_texts(a.drop_first()), sep);
        assert(toml_text(a[0]) + sep + j + "]"@ + x =~= toml_text(a[0]) + (sep + (j + "]"@ + x)));
        assert((sep + (j + "]"@ + x)).skip(2) =~= j + "]"@ + x);
    } else {
        assert(join(ta, sep) == ta[0]);
        assert(ta[0] + "]"@ + x =~= ta[0] + ("]"@ + x));
        assert(("]"@ + x).skip(1) =~= x);
    }
}

/// A list of strings ends at its bracket.
proof fn list_reads_back(a: Seq<Seq<char>>, b: Seq<Seq<char>>, x: Seq<char>, y: Seq<char>)
    requires
        a.len() > 0,
        b.len() > 0,
        join(toml_texts(a), ", "@) + "]"@ + x == join(toml_texts(b), ", "@) + "]"@ + y,
    ensures
        a == b,
        x == y,
    decreases a.len(),
{
    list_starts(a, x);
    list_starts(b, y);
    text_reads_back(a[0], b[0], behind_first(a, x), behind_first(b, y));
    if a.len() > 1 {
        list_reads_back(a.drop_first(), b.drop_first(), x, y);
        assert(a =~= seq![a[0]] + a.drop_first());
        assert(b =~= seq![b[0]] + b.drop_first());
    } else {
        assert(a =~= b);
    }
}

proof fn same_list_line(a: Seq<Seq<char>>, b: Seq<Seq<char>>)
    requires
        list_line(key_of(9), a) + Seq::empty() == list_line(key_of(9), b) + Seq::empty(),
    ensures
        a == b,
{
    let none = Seq::<char>::empty();
    let open = |l: Seq<Seq<char>>| "["@ + join(toml_texts(l), ", "@) + "]"@;
    if a.len() > 0 {
        line_tells_entry(9, open(a), none);
    }
    if b.len() > 0 {
        line_tells_entry(9, open(b), none);
    }
    assert(none + none =~= none);
    if a.len() > 0 && b.len() > 0 {
        let k = key_of(9) + " = "@;
        let (p, q) = (open(a) + "\n"@ + none, open(b) + "\n"@ + none);
        assert((k + p).skip(k.len() as int) =~= p);
        assert((k + q).skip(k.len() as int) =~= q);
        let (x, y) = ("\n"@ + none, "\n"@ + none);
        let n = "["@.len() as int;
        assert(p.skip(n) =~= join(toml_texts(a), ", "@) + "]"@ + x);
        assert(q.skip(n) =~= join(toml_texts(b), ", "@) + "]"@ + y);
        list_reads_back(a, b, x, y);
    } else {
        assert(a =~= b);
    }
}

/// Two texts under one key, behind which different things may stand.
proof fn same_key_text(k: Seq<char>, a: Seq<char>, b: Seq<char>, x: Seq<char>, y: Seq<char>)
    requires
        key_line(k, toml_text(a)) + x == key_line(k, toml_text(b)) + y,
    ensures
        a == b,
        x == y,
{
    let n = (k + " = "@).len() as int;
    let (p, q) = (key_line(k, toml_text(a)) + x, key_line(k, toml_text(b)) + y);
    assert(p.skip(n) =~= toml_text(a) + ("\n"@ + x));
    assert(q.skip(n) =~= toml_text(b) + ("\n"@ + y));
    text_reads_back(a, b, "\n"@ + x, "\n"@ + y);
    assert(("\n"@ + x).skip("\n"@.len() as int) =~= x);
    assert(("\n"@ + y).skip("\n"@.len() as int) =~= y);
}

proof fn same_key_number(k: Seq<char>, a: nat, b: nat, x: Seq<char>, y: Seq<char>)
    requires
        key_line(k, dec(a)) + x == key_line(k, dec(b)) + y,
    ensures
        a == b,
        x == y,
{
    let n = (k + " = "@).len() as int;
    let (p, q) = (key_line(k, dec(a)) + x, key_line(k, dec(b)) + y);
    assert(p.skip(n) =~= dec(a) + "\n"@ + x);
    assert(q.skip(n) =~= dec(b) + "\n"@ + y);
    number_reads_back(a, b, x, y);
}

proof fn same_unprivileged(f: FingerprintV, g: FingerprintV)
    requires
        tail(f, 0) == tail(g, 0),
    ensures
        f.unprivileged == g.unprivileged,
        tail(f, 6) == tail(g, 6),
{
    let (u, v) = (f.unprivileged, g.unprivileged);
    tails_start_late(f, 1);
    tails_start_late(g, 1);
    same_text_line(0, u.cpu_model, v.cpu_model, tail(f, 1), tail(g, 1));
    tails_start_late(f, 2);
    tails_start_late(g, 2);
    same_number_line(1, as_nat32(u.cpu_base_mhz), as_nat32(v.cpu_base_mhz), tail(f, 2), tail(g, 2));
    tails_start_late(f, 3);
    tails_start_late(g, 3);
    same_text_line(2, u.board_vendor, v.board_vendor, tail(f, 3), tail(g, 3));
    tails_start_late(f, 4);
    tails_start_late(g, 4);
    same_text_line(3, u.board_name, v.board_name, tail(f, 4), tail(g, 4));
    tails_start_late(f, 5);
    tails_start_late(g, 5);
    same_text_line(4, u.chipset, v.chipset, tail(f, 5), tail(g, 5));
    tails_start_late(f, 6);
    tails_start_late(g, 6);
    let (s, t) = (as_nat64(u.mem_total_bytes), as_nat64(v.mem_total_bytes));
    same_number_line(5, s, t, tail(f, 6), tail(g, 6));
}

proof fn same_privileged(f: FingerprintV, g: FingerprintV)
    requires
        tail(f, 6) == tail(g, 6),
    ensures
        f.privileged == g.privileged,
{
    let (p, q) = (f.privileged, g.privileged);
    let n = "\n[privileged]\n"@.len() as int;
    assert(tail(f, 6).skip(n) =~= tail(f, 7));
    assert(tail(g, 6).skip(n) =~= tail(g, 7));
    tails_start_late(f, 8);
    tails_start_late(g, 8);
    same_number_line(7, as_nat32(p.mem_speed_mts), as_nat32(q.mem_speed_mts), tail(f, 8), tail(g, 8));
    tails_start_late(f, 9);
    tails_start_late(g, 9);
    same_text_line(8, p.mem_timings, q.mem_timings, tail(f, 9), tail(g, 9));
    assert(tail(f, 10) == Seq::<char>::empty() && tail(g, 10) == Seq::<char>::empty());
    same_list_line(p.mem_parts, q.mem_parts);
}

/// What stands from the `machine` key on, and from the `taken` key on.
spec fn machine_on(f: FingerprintV) -> Seq<char> {
    key_line("machine"@, toml_text(f.machine)) + tables_text(f)
}

spec fn taken_on(f: FingerprintV) -> Seq<char> {
    key_line("taken"@, toml_text(f.taken)) + machine_on(f)
}

proof fn schema_first(f: FingerprintV)
    ensures
        body_text(f) == key_line("schema"@, dec(f.schema as nat)) + taken_on(f),
{
    let a = key_line("schema"@, dec(f.schema as nat));
    let b = key_line("taken"@, toml_text(f.taken));
    let c = key_line("machine"@, toml_text(f.machine));
    regroup(a, b, machine_on(f));
    regroup(a + b, c, tables_text(f));
}

/// No edit leaves the body as it was: two fingerprints with one body agree in every
/// field that the body holds, so a checksum that still verifies after an edit would
/// be one code for two different bodies.
pub proof fn an_edit_changes_the_body(f: FingerprintV, g: FingerprintV)
    requires
        body_text(f) == body_text(g),
    ensures
        f == (FingerprintV { checksum: f.checksum, ..g }),
{
    schema_first(f);
    schema_first(g);
    same_key_number("schema"@, f.schema as nat, g.schema as nat, taken_on(f), taken_on(g));
    same_key_text("taken"@, f.taken, g.taken, machine_on(f), machine_on(g));
    same_key_text("machine"@, f.machine, g.machine, tables_text(f), tables_text(g));
    tables_are_a_tail(f);
    tables_are_a_tail(g);
    let n = "\n[unprivileged]\n"@.len() as int;
    assert(tables_text(f).skip(n) =~= tail(f, 0));
    assert(tables_text(g).skip(n) =~= tail(g, 0));
    same_unprivileged(f, g);
    same_privileged(f, g);
}

/// Being allowed to run unfingerprinted never lets a mismatch pass: a file whose
/// checksum does not hold, or that describes other hardware, stops the run either way.
pub proof fn a_mismatch_is_never_allowed(
    path: Seq<char>,
    f: Fingerprint,
    host: MachineV,
    allow: bool,
)
    requires
        !checksum_holds(f@) || first_change(f@.unprivileged, host) is Some,
    ensures
        gate(path, Found::File(f), host, allow) is Err,
{
}

/// A run that nothing verified says so: it has a warning exactly when no fingerprint
/// stands behind it, and it goes ahead only where that was allowed.
pub proof fn unverified_runs_are_warned_about(
    path: Seq<char>,
    found: Found,
    host: MachineV,
    allow: bool,
)
    requires
        gate(path, found, host, allow) is Ok,
    ensures
        ({
            let h = gate(path, found, host, allow)->Ok_0;
            &&& h.fingerprint is None <==> h.warning is Some
            &&& h.fingerprint is None ==> allow
        }),
{
}

/// A change of hardware is told with what was recorded and what is there now.
pub proof fn changes_tell_both_sides(u: UnprivilegedV, host: MachineV)
    requires
        first_change(u, host) is Some,
    ensures
        ({
            let e = first_change(u, host)->Some_0;
            &&& e is HardwareChanged
            &&& e->field == "cpu_model"@ ==> u.cpu_model == Some(e->expected) && (host.cpu_model is Some
                ==> host.cpu_model == Some(e->HardwareChanged_found))
            &&& e->field == "board_vendor"@ ==> u.board_vendor == Some(e->expected) && (
            host.board.vendor is Some ==> host.board.vendor == Some(e->HardwareChanged_found))
            &&& e->field == "board_name"@ ==> u.board_name == Some(e->expected) && (host.board.name
                is Some ==> host.board.name == Some(e->HardwareChanged_found))
            &&& e->field == "chipset"@ ==> u.chipset == Some(e->expected) && (host.chipset is Some
                ==> host.chipset == Some(e->HardwareChanged_found))
            &&& e->field == "cpu_base_mhz"@ ==> u.cpu_base_mhz is Some && e->expected == dec(
                u.cpu_base_mhz->Some_0 as nat,
            ) && (host.cpu_base_mhz is Some ==> e->HardwareChanged_found == dec(host.cpu_base_mhz->Some_0 as nat))
            &&& e->field == "mem_total_bytes"@ ==> u.mem_total_bytes is Some && e->expected == dec(
                u.mem_total_bytes->Some_0 as nat,
            ) && (host.mem.total_bytes is Some ==> e->HardwareChanged_found == dec(
                host.mem.total_bytes->Some_0 as nat,
            ))
            &&& u.cpu_model is Some && u.cpu_model != host.cpu_model ==> e->field == "cpu_model"@
            &&& contains_text(fingerprint_message(e), e->field + " is now `"@ + e->HardwareChanged_found + "`"@)
            &&& contains_text(
                fingerprint_message(e),
                "the fingerprint says `"@ + e->expected + "`"@,
            )
        }),
{
    fields_differ();
    let e = first_change(u, host)->Some_0;
    message_tells(e->field, e->expected, e->HardwareChanged_found);
}

proof fn fields_differ()
    ensures
        "cpu_model"@.len() == 9,
        "cpu_base_mhz"@.len() == 12,
        "board_vendor"@.len() == 12,
        "board_name"@.len() == 10,
        "chipset"@.len() == 7,
        "mem_total_bytes"@.len() == 15,
        "cpu_base_mhz"@ != "board_vendor"@,
{
    reveal_strlit("cpu_model");
    reveal_strlit("cpu_base_mhz");
    reveal_strlit("board_vendor");
    reveal_strlit("board_name");
    reveal_strlit("chipset");
    reveal_strlit("mem_total_bytes");
    assert("cpu_base_mhz"@[0] == 'c' && "board_vendor"@[0] == 'b');
}

proof fn message_tells(field: Seq<char>, expected: Seq<char>, found: Seq<char>)
    ensures
        ({
            let m = fingerprint_message(
                FingerprintErrorV::HardwareChanged { field, expected, found },
            );
            &&& contains_text(m, field + " is now `"@ + found + "`"@)
            &&& contains_text(m, "the fingerprint says `"@ + expected + "`"@)
        }),
{
    let m = fingerprint_message(FingerprintErrorV::HardwareChanged { field, expected, found });
    let a = "hardware changed, or this fingerprint came from another machine: "@;
    let b = "`, the fingerprint says `"@;
    let c = "`. Re-capture with `"@;
    let end = CAPTURE_COMMAND@ + "`"@;
    assert(m == a + field + " is now `"@ + found + b + expected + c + CAPTURE_COMMAND@ + "`"@);
    reveal_strlit("`, the fingerprint says `");
    reveal_strlit("`. Re-capture with `");
    reveal_strlit("the fingerprint says `");
    reveal_strlit(", ");
    reveal_strlit("`");
    let x = field + " is now `"@ + found + "`"@;
    let y = "the fingerprint says `"@ + expected + "`"@;
    let rest = c.skip(1) + end;
    assert(b =~= "`"@ + ", "@ + "the fingerprint says `"@);
    assert(c =~= "`"@ + c.skip(1));
    let parts = a + x + ", "@ + y;
    assert(a + field + " is now `"@ + found + b + expected + "`"@ =~= parts);
    assert(m =~= parts + rest);
    assert(m =~= a + x + (", "@ + y + rest));
    stands_between(a, x, ", "@ + y + rest);
    assert(m =~= (a + x + ", "@) + y + rest);
    stands_between(a + x + ", "@, y, rest);
}

/// A file stands for its machine exactly where the machine hashes to what it records. A
/// record of another length, or with other hyphens, is of another generation; any other is
/// an edit.
pub proof fn files_stand_for_what_hashes_alike(f: FingerprintV)
    ensures
        rebuilt(f) is Ok <==> machine_hash(described(f)) == f.machine,
        rebuilt(f) is Ok ==> rebuilt(f)->Ok_0 == described(f),
        encode_utf8(f.machine).len() != encode_utf8(machine_hash(described(f))).len() || occurrences(
            f.machine,
            '-',
        ) != occurrences(machine_hash(described(f)), '-') ==> rebuilt(f) == Err::<
            MachineV,
            FingerprintErrorV,
        >(FingerprintErrorV::StaleCapture { recorded: f.machine }),
        rebuilt(f) is Err && rebuilt(f)->Err_0 is StaleCapture ==> encode_utf8(f.machine).len()
            != encode_utf8(machine_hash(described(f))).len() || occurrences(f.machine, '-')
            != occurrences(machine_hash(described(f)), '-'),
{
}

/// A character occurs as often as it stands in a text.
pub proof fn occurrences_are_counted(s: Seq<char>, c: char)
    ensures
        occurrences(s, c) == s.filter(|x: char| x == c).len(),
    decreases s.len(),
{
    reveal(Seq::filter);
    if s.len() > 0 {
        occurrences_are_counted(s.drop_last(), c);
    }
}

/// A file that cannot be read, or is of another schema, stops a run whether or not unverified
/// ones are allowed.
pub proof fn faulty_files_stop_a_run(
    path: Seq<char>,
    found: Found,
    host: MachineV,
    allow: bool,
)
    ensures
        found is Unreadable || found is Malformed ==> gate(path, found, host, allow) is Err,
        found matches Found::File(f) ==> f.schema != FINGERPRINT_SCHEMA ==> gate(
            path,
            found,
            host,
            allow,
        ) is Err,
        found is Nothing && !allow ==> gate(path, found, host, allow) is Err,
        found is Nothing && allow ==> gate(path, found, host, allow) is Ok && gate(
            path,
            found,
            host,
            allow,
        )->Ok_0.machine == host,
{
}

} // verus!
