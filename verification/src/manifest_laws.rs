//! What loading promises of a manifest: every value, axis, driver and case is what was
//! declared, under its own name and in its own place.

use crate::adapter::{adapter_of, Adapter};
use crate::case::DomainV;
use crate::catalog::facts_in;
use crate::catalog_load::{
    all_cases, cases_at, declared_cases, declared_defaults, declared_exts, declared_key_fault,
    declared_param, declared_value_fault, driver_at, driver_facts, driver_fault, driver_name,
    generic_exts, generic_keys, header_fault, label_key, load_all, lowering, matrix_points,
    put_facts_are_found, range_domain, subject_facts, tag_table, toml_tag, toml_tags_of,
    vocab_fault, SubjectDir,
};
use crate::manifest::{CaseDecl, Driver, Manifest, ManifestErrorV, ParamDecl, TomlValue, VocabKey};
use crate::ordered::{sorted_texts, texts_are_totally_ordered};
use crate::package::commit_id;
use crate::results::{collect, first_fault};
use crate::selection_laws::the_last_axis_varies_fastest;
use crate::selector::{read_selector, selector_admits};
use crate::tag::{read_value, render, trimmed_already, Floats, TagV};
use crate::text::{
    dec, dec_int, decimal_reads_back, find_text, find_text_is, is_digit, option_text, read_signed,
    signed_decimal_round_trips, stands_at, text_le, texts, trim, unsigned_decimal_round_trips,
};
use crate::vocab::{namespace, ExtV};
use vstd::arithmetic::power2::pow2;
use vstd::prelude::*;

verus! {

proof fn collected<T, E>(rs: Seq<Result<T, E>>)
    ensures
        collect(rs) matches Ok(ts) ==> ts.len() == rs.len() && forall|i: int|
            0 <= i < rs.len() ==> rs[i] == Ok::<T, E>(#[trigger] ts[i]),
    decreases rs.len(),
{
    if rs.len() > 0 {
        collected(rs.drop_last());
        if let Ok(ts) = collect(rs) {
            let before = collect(rs.drop_last())->Ok_0;
            assert forall|i: int| 0 <= i < rs.len() implies rs[i] == Ok::<T, E>(#[trigger] ts[i]) by {
                if i < rs.len() - 1 {
                    assert(rs.drop_last()[i] == Ok::<T, E>(before[i]));
                }
            }
        }
    }
}

/// A declared value is taken as what it is: a number as that number, a switch as that
/// switch, and a text as what it would mean in a selector.
pub proof fn values_are_taken_as_declared(
    raw: TomlValue,
    key: Seq<char>,
    subject: Seq<char>,
    floats: Floats,
)
    requires
        toml_tag(raw, key, subject, floats) is Ok,
    ensures
        match raw {
            TomlValue::Integer(i) => toml_tag(raw, key, subject, floats)->Ok_0 == TagV::Int(i as int),
            TomlValue::Boolean(b) => toml_tag(raw, key, subject, floats)->Ok_0 == TagV::Bool(b),
            TomlValue::Float(f) => toml_tag(raw, key, subject, floats)->Ok_0 == (TagV::Float {
                bits: f.bits,
                text: f.text@,
            }),
            TomlValue::Text(s) => read_value(s@, floats) is Ok && toml_tag(
                raw,
                key,
                subject,
                floats,
            )->Ok_0 == read_value(s@, floats)->Ok_0,
            TomlValue::Other(_) => false,
        },
{
}

/// A table of tags holds each key that is declared, with the value declared for it, and no
/// other key.
pub proof fn tables_hold_what_is_declared(
    raw: Seq<(String, TomlValue)>,
    subject: Seq<char>,
    floats: Floats,
    i: int,
)
    requires
        0 <= i < raw.len(),
        tag_table(raw, subject, floats) is Ok,
        forall|j: int| i < j < raw.len() ==> (#[trigger] raw[j]).0@ != raw[i].0@,
    ensures
        tag_table(raw, subject, floats)->Ok_0.dom().contains(raw[i].0@),
        toml_tag(raw[i].1, raw[i].0@, subject, floats) == Ok::<TagV, ManifestErrorV>(
            tag_table(raw, subject, floats)->Ok_0[raw[i].0@],
        ),
        forall|k: Seq<char>| #[trigger]
            tag_table(raw, subject, floats)->Ok_0.dom().contains(k) ==> names_key(raw, k),
    decreases raw.len(),
{
    if i < raw.len() - 1 {
        let front = raw.drop_last();
        assert(front[i] == raw[i]);
        assert forall|j: int| i < j < front.len() implies (#[trigger] front[j]).0@ != front[i].0@ by {
            assert(front[j] == raw[j]);
        }
        tables_hold_what_is_declared(front, subject, floats, i);
        assert(raw[raw.len() - 1].0@ != raw[i].0@);
    }
    table_keys(raw, subject, floats);
}

/// Does some entry have this key?
pub open spec fn names_key(raw: Seq<(String, TomlValue)>, key: Seq<char>) -> bool {
    exists|j: int| 0 <= j < raw.len() && (#[trigger] raw[j]).0@ == key
}

proof fn table_keys(raw: Seq<(String, TomlValue)>, subject: Seq<char>, floats: Floats)
    requires
        tag_table(raw, subject, floats) is Ok,
    ensures
        forall|k: Seq<char>| #[trigger]
            tag_table(raw, subject, floats)->Ok_0.dom().contains(k) ==> names_key(raw, k),
    decreases raw.len(),
{
    if raw.len() > 0 {
        let front = raw.drop_last();
        table_keys(front, subject, floats);
        assert forall|k: Seq<char>| #[trigger]
            tag_table(raw, subject, floats)->Ok_0.dom().contains(k) implies names_key(raw, k) by {
            if k == raw.last().0@ {
                assert(raw[raw.len() - 1].0@ == k);
            } else {
                assert(tag_table(front, subject, floats)->Ok_0.dom().contains(k));
                let j = choose|j: int| 0 <= j < front.len() && (#[trigger] front[j]).0@ == k;
                assert(raw[j].0@ == k);
            }
        }
    }
}

proof fn first_dots(lo: Seq<char>, hi: Seq<char>)
    requires
        !lo.contains('.'),
    ensures
        find_text(lo + ".."@ + hi, ".."@) == Some(lo.len() as int),
        (lo + ".."@ + hi).take(lo.len() as int) == lo,
        (lo + ".."@ + hi).skip(lo.len() as int + 2) == hi,
{
    reveal_strlit("..");
    let s = lo + ".."@ + hi;
    let n = lo.len() as int;
    assert(s.subrange(n, n + 2) =~= ".."@);
    assert forall|j: int| 0 <= j < n implies !stands_at(s, ".."@, j) by {
        if stands_at(s, ".."@, j) {
            assert(s.subrange(j, j + 2)[0] == '.');
            assert(s[j] == lo[j]);
            assert(lo.contains(lo[j]));
        }
    }
    find_text_is(s, ".."@, n);
    assert(s.take(n) =~= lo);
    assert(s.skip(n + 2) =~= hi);
}

proof fn power_is_plain(n: nat)
    ensures
        trim("2^"@ + dec(n)) == "2^"@ + dec(n),
        !("2^"@ + dec(n)).contains('.'),
        "2^"@.is_prefix_of("2^"@ + dec(n)),
        ("2^"@ + dec(n)).skip(2) == dec(n),
{
    reveal_strlit("2^");
    decimal_reads_back(n);
    let s = "2^"@ + dec(n);
    assert(s[0] == '2');
    assert(s.last() == dec(n).last());
    assert(is_digit(dec(n)[dec(n).len() - 1]));
    trimmed_already(s);
    if s.contains('.') {
        let k = s.index_of('.');
        if k >= 2 {
            assert(s[k] == dec(n)[k - 2]);
            assert(is_digit(dec(n)[k - 2]));
        }
    }
    assert(s.subrange(0, 2) =~= "2^"@);
    assert(s.skip(2) =~= dec(n));
}

/// A range between powers of two is every power from the one to the other, each once and
/// in order; one that runs backwards or does not fit is refused.
pub proof fn ranges_of_powers_are_listed(lo: u32, hi: u32, key: Seq<char>, subject: Seq<char>)
    ensures
        ({
            let raw = "2^"@ + dec(lo as nat) + ".."@ + ("2^"@ + dec(hi as nat));
            match range_domain(raw, key, subject) {
                Ok(DomainV::Values(vs)) => {
                    &&& lo <= hi && hi < 63
                    &&& vs.len() == hi - lo + 1
                    &&& forall|i: int|
                        0 <= i < vs.len() ==> #[trigger] vs[i] == TagV::Int(
                            pow2((lo + i) as nat) as int,
                        )
                },
                Ok(_) => false,
                Err(_) => lo > hi || hi >= 63,
            }
        }),
{
    let (l, h) = ("2^"@ + dec(lo as nat), "2^"@ + dec(hi as nat));
    power_is_plain(lo as nat);
    power_is_plain(hi as nat);
    first_dots(l, h);
    unsigned_decimal_round_trips(lo as nat, u32::MAX as nat);
    unsigned_decimal_round_trips(hi as nat, u32::MAX as nat);
}

proof fn number_is_plain(i: i64)
    ensures
        trim(dec_int(i as int)) == dec_int(i as int),
        !dec_int(i as int).contains('.'),
        !"2^"@.is_prefix_of(dec_int(i as int)),
        read_signed(dec_int(i as int), i64::MIN as int, i64::MAX as int) == Some(i as int),
{
    reveal_strlit("2^");
    let s = dec_int(i as int);
    let n = (if i < 0 {
        -(i as int)
    } else {
        i as int
    }) as nat;
    decimal_reads_back(n);
    let d = dec(n);
    assert(forall|k: int| 0 <= k < d.len() ==> is_digit(#[trigger] d[k]));
    assert(s.last() == d.last() && is_digit(d[d.len() - 1]));
    assert(is_digit(d[0]));
    assert(s[0] == '-' || s[0] == d[0]);
    trimmed_already(s);
    if s.contains('.') {
        let k = s.index_of('.');
        if i < 0 && k > 0 {
            assert(s[k] == d[k - 1]);
        }
    }
    if "2^"@.is_prefix_of(s) {
        assert("2^"@[1] == s.subrange(0, 2)[1]);
        if i < 0 {
            assert(s[1] == d[0]);
        } else {
            assert(s[1] == d[1]);
        }
    }
    signed_decimal_round_trips(i as int);
}

/// A range between plain numbers runs from the one to the other in steps of one; one that
/// runs backwards is refused.
pub proof fn ranges_of_numbers_run_in_ones(lo: i64, hi: i64, key: Seq<char>, subject: Seq<char>)
    ensures
        ({
            let raw = dec_int(lo as int) + ".."@ + dec_int(hi as int);
            match range_domain(raw, key, subject) {
                Ok(d) => lo <= hi && d == (DomainV::IntRange { lo: lo as int, hi: hi as int, step: 1 }),
                Err(_) => lo > hi,
            }
        }),
{
    number_is_plain(lo);
    number_is_plain(hi);
    first_dots(dec_int(lo as int), dec_int(hi as int));
}

/// A declared axis has the name, the values and the default that are declared for it; one
/// without a default is refused.
pub proof fn axes_are_what_is_declared(
    decl: ParamDecl,
    key: Seq<char>,
    subject: Seq<char>,
    floats: Floats,
)
    ensures
        decl.default is None ==> declared_param(decl, key, subject, floats) is Err,
        declared_param(decl, key, subject, floats) matches Ok(p) ==> {
            &&& p.key == key
            &&& decl.default is Some
            &&& toml_tag(decl.default->Some_0, key, subject, floats) == Ok::<TagV, ManifestErrorV>(
                p.default,
            )
            &&& decl.range is Some ==> range_domain(decl.range->Some_0@, key, subject) == Ok::<
                DomainV,
                ManifestErrorV,
            >(p.domain)
            &&& decl.range is None && decl.values@.len() > 0 ==> (p.domain matches DomainV::Values(vs)
                && vs.len() == decl.values@.len() && (forall|i: int|
                0 <= i < vs.len() ==> toml_tag(decl.values@[i], key, subject, floats) == Ok::<
                    TagV,
                    ManifestErrorV,
                >(#[trigger] vs[i])))
            &&& decl.range is None && decl.values@.len() == 0 ==> p.domain is AnyInt || p.domain
                is AnyFloat
            &&& p.domain is AnyFloat ==> decl.kind is Some && decl.kind->Some_0@ == "float"@
        },
{
    collected(
        Seq::new(decl.values@.len(), |i: int| toml_tag(decl.values@[i], key, subject, floats)),
    );
}

/// Each combination of the axes before is paired with each value of the next, in order,
/// and keeps what it had of the others.
pub proof fn matrices_pair_every_value(
    base: Map<Seq<char>, TagV>,
    axes: Seq<(String, Vec<TomlValue>)>,
    subject: Seq<char>,
    floats: Floats,
    i: int,
    j: int,
)
    requires
        axes.len() > 0,
        matrix_points(base, axes, subject, floats) is Ok,
        matrix_points(base, axes.drop_last(), subject, floats) is Ok,
        0 <= i < matrix_points(base, axes.drop_last(), subject, floats)->Ok_0.len(),
        0 <= j < axes.last().1@.len(),
    ensures
        ({
            let points = matrix_points(base, axes, subject, floats)->Ok_0;
            let before = matrix_points(base, axes.drop_last(), subject, floats)->Ok_0;
            let (key, raws) = (axes.last().0@, axes.last().1@);
            &&& points.len() == before.len() * raws.len()
            &&& 0 <= i * raws.len() + j < points.len()
            &&& points[i * raws.len() + j].dom().contains(key)
            &&& toml_tag(raws[j], key, subject, floats) == Ok::<TagV, ManifestErrorV>(
                points[i * raws.len() + j][key],
            )
            &&& forall|k: Seq<char>|
                k != key && before[i].dom().contains(k) ==> #[trigger] points[i * raws.len()
                    + j].dom().contains(k) && points[i * raws.len() + j][k] == before[i][k]
        }),
{
    let before = matrix_points(base, axes.drop_last(), subject, floats)->Ok_0;
    let (key, raws) = (axes.last().0@, axes.last().1@);
    let vs = toml_tags_of(raws, key, subject, floats)->Ok_0;
    collected(Seq::new(raws.len(), |k: int| toml_tag(raws[k], key, subject, floats)));
    the_last_axis_varies_fastest(before, key, vs, i, j);
}

/// A driver is refused exactly where something that its adapter needs is missing.
pub proof fn drivers_are_refused_for_a_reason(d: Driver, has_build: bool, subject: Seq<char>)
    ensures
        driver_fault(d, has_build, subject) is None <==> match adapter_of(d.adapter@) {
            None => false,
            Some(Adapter::RustCodegen) => d.macro_name is Some && d.crate_name is Some,
            Some(Adapter::Exec) => d.lang is Some && (d.lang->Some_0@ == "cxx"@ || d.lang->Some_0@
                == "python"@) && d.entry is Some && has_build,
        },
{
}

/// A subject's own keys stand under its namespace, with the values that are declared for
/// them.
pub proof fn vocabularies_are_namespaced(
    vocab: Seq<(String, VocabKey)>,
    subject: Seq<char>,
    i: int,
)
    requires
        0 <= i < vocab.len(),
    ensures
        declared_exts(vocab, subject).len() == vocab.len(),
        declared_exts(vocab, subject)[i].subject == subject,
        declared_exts(vocab, subject)[i].key == namespace(subject) + "."@ + vocab[i].0@,
        declared_exts(vocab, subject)[i].compile_time == vocab[i].1.compile_time,
        declared_exts(vocab, subject)[i].allowed is Some <==> vocab[i].1.values is Some,
        vocab[i].1.values is Some ==> declared_exts(vocab, subject)[i].allowed->Some_0 == texts(
            vocab[i].1.values->Some_0@,
        ),
{
}

/// The generic parameters of a case are its subject's compile-time keys and its driver's,
/// in order, and no others.
pub proof fn generic_keys_are_the_compile_time_ones(ext: Seq<ExtV>, d: Driver, k: Seq<char>)
    ensures
        generic_keys(ext, d).contains(k) <==> (exists|i: int|
            0 <= i < ext.len() && (#[trigger] ext[i]).compile_time && ext[i].key == k) || texts(
            d.compile_time@,
        ).contains(k),
        forall|i: int, j: int|
            0 <= i < j < generic_keys(ext, d).len() ==> text_le(
                #[trigger] generic_keys(ext, d)[i],
                #[trigger] generic_keys(ext, d)[j],
            ),
{
    let (a, b) = (generic_exts(ext), texts(d.compile_time@));
    let leq = |x: Seq<char>, y: Seq<char>| text_le(x, y);
    texts_are_totally_ordered();
    (a + b).lemma_sort_by_ensures(leq);
    let s = sorted_texts(a + b);
    assert(s.to_multiset() == (a + b).to_multiset());
    s.to_multiset_ensures();
    (a + b).to_multiset_ensures();
    assert(s.contains(k) <==> s.to_multiset().count(k) > 0);
    assert((a + b).contains(k) <==> (a + b).to_multiset().count(k) > 0);
    generic_exts_are(ext, k);
    if a.contains(k) {
        assert((a + b)[a.index_of(k)] == k);
    }
    if b.contains(k) {
        assert((a + b)[a.len() + b.index_of(k)] == k);
    }
    if (a + b).contains(k) {
        let i = (a + b).index_of(k);
        if i < a.len() {
            assert(a[i] == k);
        } else {
            assert(b[i - a.len()] == k);
        }
    }
    assert forall|i: int, j: int| 0 <= i < j < s.len() implies text_le(
        #[trigger] s[i],
        #[trigger] s[j],
    ) by {
        assert(leq(s[i], s[j]));
    }
}

proof fn generic_exts_are(ext: Seq<ExtV>, k: Seq<char>)
    ensures
        generic_exts(ext).contains(k) <==> (exists|i: int|
            0 <= i < ext.len() && (#[trigger] ext[i]).compile_time && ext[i].key == k),
    decreases ext.len(),
{
    if ext.len() > 0 {
        let front = ext.drop_last();
        let (rest, all) = (generic_exts(front), generic_exts(ext));
        generic_exts_are(front, k);
        if exists|i: int| 0 <= i < ext.len() && (#[trigger] ext[i]).compile_time && ext[i].key == k {
            let i = choose|i: int|
                0 <= i < ext.len() && (#[trigger] ext[i]).compile_time && ext[i].key == k;
            if i < front.len() {
                assert(front[i] == ext[i]);
            }
        }
        if exists|i: int| 0 <= i < front.len() && (#[trigger] front[i]).compile_time && front[i].key == k {
            let i = choose|i: int|
                0 <= i < front.len() && (#[trigger] front[i]).compile_time && front[i].key == k;
            assert(ext[i] == front[i]);
        }
        if ext.last().compile_time {
            assert(all[rest.len() as int] == ext.last().key);
            assert(ext[ext.len() - 1] == ext.last());
            if rest.contains(k) {
                assert(all[rest.index_of(k)] == k);
            }
            if all.contains(k) && k != ext.last().key {
                assert(rest[all.index_of(k)] == k);
            }
        }
    }
}

/// The first driver of a name is the one that is meant by it.
pub proof fn the_first_driver_of_a_name_counts(drivers: Seq<Driver>, name: Seq<char>, i: int)
    requires
        0 <= i < drivers.len(),
        drivers[i].name@ == name,
        forall|j: int| 0 <= j < i ==> (#[trigger] drivers[j]).name@ != name,
    ensures
        driver_at(drivers, name) == i,
    decreases drivers.len(),
{
    if i > 0 {
        let rest = drivers.drop_first();
        assert forall|j: int| 0 <= j < i - 1 implies (#[trigger] rest[j]).name@ != name by {
            assert(rest[j] == drivers[j + 1]);
        }
        assert(drivers[0].name@ != name);
        the_first_driver_of_a_name_counts(rest, name, i - 1);
    }
}

/// A case runs under the driver that it names, or under the only one; where there are
/// several and it names none, it is refused.
pub proof fn cases_run_under_their_driver(
    m: Manifest,
    ext: Seq<ExtV>,
    defaults: Seq<TagV>,
    decl: CaseDecl,
    points: Seq<Map<Seq<char>, TagV>>,
    start: nat,
    floats: Floats,
    i: int,
)
    requires
        cases_at(m, ext, defaults, decl, points, start, floats) is Ok,
        0 <= i < points.len(),
    ensures
        decl.driver is None ==> m.drivers@.len() == 1,
        ({
            let cases = cases_at(m, ext, defaults, decl, points, start, floats)->Ok_0;
            let c = cases[i];
            let at = driver_at(m.drivers@, c.driver);
            &&& cases.len() == points.len()
            &&& decl.driver is Some ==> c.driver == decl.driver->Some_0@
            &&& decl.driver is None ==> c.driver == m.drivers@[0].name@
            &&& 0 <= at < m.drivers@.len()
            &&& m.drivers@[at].name@ == c.driver
            &&& adapter_of(m.drivers@[at].adapter@) == Some(c.adapter)
            &&& c.driver_crate == option_text(m.drivers@[at].crate_name)
            &&& c.driver_macro == option_text(m.drivers@[at].macro_name)
            &&& c.driver_lang == option_text(m.drivers@[at].lang)
            &&& c.driver_entry == option_text(m.drivers@[at].entry)
            &&& c.runners == texts(decl.runners@)
            &&& c.subject == m.name@
            &&& c.id == m.name@ + ":"@ + dec((start + i) as nat)
            &&& forall|k: Seq<char>|
                points[i].dom().contains(k) && k != label_key()
                    ==> #[trigger] c.tags.dom().contains(k) && c.tags[k] == points[i][k]
        }),
{
    let name = driver_name(m, decl)->Some_0;
    driver_is_there(m.drivers@, name);
    let c = cases_at(m, ext, defaults, decl, points, start, floats)->Ok_0[i];
    assert(c.driver == name) by {
        assert(c.driver == m.drivers@[driver_at(m.drivers@, name)].name@);
    }
}

proof fn driver_is_there(drivers: Seq<Driver>, name: Seq<char>)
    ensures
        0 <= driver_at(drivers, name) <= drivers.len(),
        driver_at(drivers, name) < drivers.len() ==> drivers[driver_at(drivers, name)].name@ == name,
    decreases drivers.len(),
{
    if drivers.len() > 0 && drivers[0].name@ != name {
        driver_is_there(drivers.drop_first(), name);
    }
}

/// The cases of a manifest are numbered through: each has its own id, and its place is in
/// it.
pub proof fn cases_are_numbered_through(m: Manifest, floats: Floats, i: int)
    requires
        lowering(m, floats) is Ok,
        0 <= i < lowering(m, floats)->Ok_0.0.len(),
    ensures
        lowering(m, floats)->Ok_0.0[i].id == m.name@ + ":"@ + dec(i as nat),
        lowering(m, floats)->Ok_0.1 == declared_exts(m.vocab@, m.name@),
{
    let ext = declared_exts(m.vocab@, m.name@);
    let defaults = declared_defaults(m.defaults@, m.name@, floats)->Ok_0;
    numbered(m, ext, defaults, m.cases@, floats, i);
}

proof fn numbered(
    m: Manifest,
    ext: Seq<ExtV>,
    defaults: Seq<TagV>,
    decls: Seq<CaseDecl>,
    floats: Floats,
    i: int,
)
    requires
        all_cases(m, ext, defaults, decls, floats) is Ok,
        0 <= i < all_cases(m, ext, defaults, decls, floats)->Ok_0.len(),
    ensures
        all_cases(m, ext, defaults, decls, floats)->Ok_0[i].id == m.name@ + ":"@ + dec(i as nat),
    decreases decls.len(),
{
    let before = all_cases(m, ext, defaults, decls.drop_last(), floats)->Ok_0;
    if i < before.len() {
        numbered(m, ext, defaults, decls.drop_last(), floats, i);
    } else {
        let decl = decls.last();
        let more = declared_cases(m, ext, defaults, decl, before.len(), floats)->Ok_0;
        let base = tag_table(decl.tags@, m.name@, floats)->Ok_0;
        let points = matrix_points(base, decl.matrix@, m.name@, floats)->Ok_0;
        assert(more[i - before.len()].id == m.name@ + ":"@ + dec(i as nat));
    }
}

/// A manifest gets as far as its cases only where it is of the right domain, pinned, from
/// a known kind of source, and, where it names a revision, names a full one.
pub proof fn manifests_are_refused_for_a_reason(m: Manifest, floats: Floats)
    ensures
        lowering(m, floats) is Ok ==> {
            &&& m.domain@ == "spatial_index"@
            &&& trim(m.source.pinned_ref@).len() > 0
            &&& m.source.kind@ == "cargo-git"@ || m.source.kind@ == "git"@ || m.source.kind@
                == "pypi"@
            &&& m.source.sha is Some ==> commit_id(m.source.sha->Some_0@)
            &&& m.drivers@.len() > 0
        },
        m.domain@ != "spatial_index"@ ==> header_fault(m, floats) is Some && header_fault(
            m,
            floats,
        )->Some_0 is UnknownDomain,
        m.domain@ == "spatial_index"@ && trim(m.source.pinned_ref@).len() == 0 ==> header_fault(
            m,
            floats,
        ) is Some && header_fault(m, floats)->Some_0 is MissingPin,
{
}

/// What a build needs to know of a subject is what its manifest says, each under its own
/// name, with every driver in its place.
pub proof fn facts_are_what_the_manifest_says(m: Manifest, dir: Seq<char>, i: int)
    requires
        0 <= i < m.drivers@.len(),
    ensures
        ({
            let f = subject_facts(m, dir);
            &&& f.pinned_ref == m.source.pinned_ref@
            &&& f.source_kind == m.source.kind@
            &&& f.repo == option_text(m.source.repo)
            &&& f.expected_sha == option_text(m.source.sha)
            &&& f.source_package == option_text(m.source.package)
            &&& f.manifest_dir == dir
            &&& f.build is Some <==> m.build is Some
            &&& m.toolchain is Some ==> f.min_rustc == option_text(m.toolchain->Some_0.min_rustc)
            &&& f.drivers.len() == m.drivers@.len()
            &&& f.drivers[i].name == m.drivers@[i].name@
            &&& f.drivers[i].path == option_text(m.drivers@[i].path)
            &&& f.drivers[i].version == option_text(m.drivers@[i].version)
            &&& f.drivers[i].features == texts(m.drivers@[i].features@)
            &&& f.drivers[i].rustflags == option_text(m.drivers@[i].rustflags)
            &&& f.drivers[i].min_supported_semver == option_text(m.drivers@[i].min_supported_semver)
            &&& f.drivers[i].max_supported_semver == option_text(m.drivers@[i].max_supported_semver)
            &&& f.drivers[i] == driver_facts(m.drivers@[i])
        }),
{
}

/// Every directory that holds a manifest adds that manifest's cases behind those of the
/// directories before it, and what it says of its subject.
pub proof fn directories_add_their_cases(order: Seq<SubjectDir>, d: SubjectDir, floats: Floats)
    requires
        load_all(order, floats) is Ok,
        d.manifest is Some,
        d.manifest->Some_0 is Ok,
        load_all(order.push(d), floats) is Ok,
    ensures
        ({
            let m = d.manifest->Some_0->Ok_0;
            let before = load_all(order, floats)->Ok_0;
            let after = load_all(order.push(d), floats)->Ok_0;
            &&& lowering(m, floats) is Ok
            &&& after.cases == before.cases + lowering(m, floats)->Ok_0.0
            &&& after.vocab == before.vocab + lowering(m, floats)->Ok_0.1
            &&& facts_in(after.subjects, m.name@) == Some(subject_facts(m, d.dir@))
        }),
{
    assert(order.push(d).drop_last() =~= order);
    let m = d.manifest->Some_0->Ok_0;
    let before = load_all(order, floats)->Ok_0;
    put_facts_are_found(before.subjects, m.name@, subject_facts(m, d.dir@), m.name@);
}

proof fn no_fault<E>(fs: Seq<Option<E>>, i: int)
    requires
        first_fault(fs) is None,
        0 <= i < fs.len(),
    ensures
        fs[i] is None,
    decreases fs.len(),
{
    if i > 0 {
        no_fault(fs.drop_first(), i - 1);
    }
}

/// Every value that a subject's own vocabulary declares can be said in a selector and means
/// itself there, whether or not a case uses it.
pub proof fn declared_vocabulary_can_be_said(m: Manifest, floats: Floats, i: int, j: int)
    requires
        lowering(m, floats) is Ok,
        0 <= i < m.vocab@.len(),
        m.vocab@[i].1.values is Some,
        0 <= j < m.vocab@[i].1.values->Some_0@.len(),
    ensures
        ({
            let raw = m.vocab@[i].1.values->Some_0@[j]@;
            let key = namespace(m.name@) + "."@ + m.vocab@[i].0@;
            &&& read_value(raw, floats) is Ok
            &&& read_selector(key + "="@ + render(read_value(raw, floats)->Ok_0), floats) is Ok
            &&& selector_admits(
                read_selector(key + "="@ + render(read_value(raw, floats)->Ok_0), floats)->Ok_0,
                map![key => read_value(raw, floats)->Ok_0],
                Seq::empty(),
            )
        }),
{
    let subject = m.name@;
    let vocab = m.vocab@;
    assert(vocab_fault(vocab, subject, floats) is None);
    no_fault(
        Seq::new(
            vocab.len(),
            |k: int| declared_key_fault(vocab[k].0@, vocab[k].1, subject, floats),
        ),
        i,
    );
    let raws = vocab[i].1.values->Some_0;
    no_fault(
        Seq::new(
            raws@.len(),
            |k: int| declared_value_fault(vocab[i].0@, raws@[k]@, subject, floats),
        ),
        j,
    );
}

} // verus!
