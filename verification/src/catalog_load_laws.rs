//! What loading promises of a catalog as a whole.

use crate::case::{spread, CaseV, ParamV, Runner};
use crate::catalog::CatalogV;
use crate::catalog_laws::{distinct_axes, spread_from};
use crate::catalog_load::{
    all_cases, at_defaults, axes_in_order, carries_subject, case_fault, declared_cases,
    declared_defaults, declared_exts, declared_param, declared_params,
    first_refused, has_key, impl_fault, label_key, labelled, load_all, loaded, lowering, matrix_points,
    refused_key, selector_fault, tables_in_order, tag_table, toml_tag, toml_tags_of, SubjectDir,
};
use crate::manifest::{CaseDecl, Manifest, ManifestErrorV, TomlValue};
use crate::ordered::{ascending, ascending_lists_agree, ascending_texts};
use crate::picker::pins;
use crate::picker_laws::{printed_commands_read_back, reads_back};
use crate::results::{collect, first_fault};
use crate::selector::{
    read_selector, selector_admits, selector_expr, ClauseV, MatchV, SelectorErrorV,
};
use crate::selector_laws::{
    alternative, canonical_clause, canonical_selector_round_trips, plain_float,
    what_means_itself_can_be_written,
};
use crate::tag::{render, tag_eq, Floats, TagV};
use crate::text::{text_le, text_lt, text_lt_irreflexive, text_lt_total, text_lt_transitive};
use crate::vocab::{vocabulary_verdict, writes_powers, ExtV};
use vstd::prelude::*;

verus! {

// ---------------------------------------------------------------- the order of loading

/// No two entries are of one directory.
pub open spec fn distinct_dirs(s: Seq<SubjectDir>) -> bool {
    forall|i: int, j: int| 0 <= i < j < s.len() ==> (#[trigger] s[i]).dir@ != (#[trigger] s[j]).dir@
}

spec fn dirs(s: Seq<SubjectDir>) -> Seq<Seq<char>> {
    Seq::new(s.len(), |i: int| s[i].dir@)
}

proof fn dirs_ascend(s: Seq<SubjectDir>)
    requires
        ascending::<SubjectDir>(s),
        distinct_dirs(s),
    ensures
        ascending_texts(dirs(s)),
{
    assert forall|i: int, j: int| 0 <= i < j < s.len() implies text_lt(
        #[trigger] dirs(s)[i],
        #[trigger] dirs(s)[j],
    ) by {
        assert(s[i].dir@ != s[j].dir@);
        text_lt_total(s[i].dir@, s[j].dir@);
    }
}

proof fn same_members(a: Seq<SubjectDir>, b: Seq<SubjectDir>, e: SubjectDir)
    requires
        a.to_multiset() == b.to_multiset(),
        a.contains(e),
    ensures
        b.contains(e),
{
    broadcast use vstd::seq_lib::group_to_multiset_ensures;
    assert(a.to_multiset().count(e) > 0);
    assert(b.to_multiset().count(e) > 0);
}

proof fn same_dirs(a: Seq<SubjectDir>, b: Seq<SubjectDir>, t: Seq<char>)
    requires
        a.to_multiset() == b.to_multiset(),
        dirs(a).contains(t),
    ensures
        dirs(b).contains(t),
{
    let i = choose|i: int| 0 <= i < dirs(a).len() && dirs(a)[i] == t;
    assert(a.contains(a[i]));
    same_members(a, b, a[i]);
    let j = choose|j: int| 0 <= j < b.len() && b[j] == a[i];
    assert(dirs(b)[j] == t);
}

/// Loading does not depend on the order in which directories are read: however they
/// came, there is one ascending order of them, so one catalog.
pub proof fn loading_ignores_the_order(a: Seq<SubjectDir>, b: Seq<SubjectDir>, floats: Floats)
    requires
        a.to_multiset() == b.to_multiset(),
        distinct_dirs(a),
        distinct_dirs(b),
        ascending::<SubjectDir>(a),
        ascending::<SubjectDir>(b),
    ensures
        a == b,
        loaded(a, floats) == loaded(b, floats),
{
    dirs_ascend(a);
    dirs_ascend(b);
    assert forall|t: Seq<char>| #[trigger] dirs(a).contains(t) == dirs(b).contains(t) by {
        if dirs(a).contains(t) {
            same_dirs(a, b, t);
        }
        if dirs(b).contains(t) {
            same_dirs(b, a, t);
        }
    }
    ascending_lists_agree(dirs(a), dirs(b));
    assert(dirs(a).len() == a.len() && dirs(b).len() == b.len());
    assert forall|i: int| 0 <= i < a.len() implies a[i] == b[i] by {
        assert(a.contains(a[i]));
        same_members(a, b, a[i]);
        let j = choose|j: int| 0 <= j < b.len() && b[j] == a[i];
        assert(dirs(a)[i] == dirs(b)[i]);
        assert(b[i].dir@ == b[j].dir@);
    }
    assert(a =~= b);
}

// ---------------------------------------------------------------- the matrix

/// How many combinations a matrix has: the product of the sizes of its axes.
pub open spec fn matrix_count(axes: Seq<(String, Vec<TomlValue>)>) -> nat
    decreases axes.len(),
{
    if axes.len() == 0 {
        1
    } else {
        matrix_count(axes.drop_last()) * axes.last().1@.len()
    }
}

proof fn collected_len<T, E>(rs: Seq<Result<T, E>>)
    ensures
        collect(rs) matches Ok(ts) ==> ts.len() == rs.len() && forall|i: int|
            0 <= i < rs.len() ==> rs[i] == Ok::<T, E>(#[trigger] ts[i]),
    decreases rs.len(),
{
    if rs.len() > 0 {
        collected_len(rs.drop_last());
        if let Ok(ts) = collect(rs) {
            let before = collect(rs.drop_last())->Ok_0;
            assert forall|i: int| 0 <= i < rs.len() implies rs[i] == Ok::<T, E>(#[trigger] ts[i]) by {
                if i < rs.len() - 1 {
                    assert(rs.drop_last()[i] == Ok::<T, E>(before[i]));
                }
            }
        }
    }
}

proof fn spread_len(points: Seq<Map<Seq<char>, TagV>>, key: Seq<char>, vs: Seq<TagV>)
    ensures
        spread(points, key, vs).len() == points.len() * vs.len(),
    decreases points.len(),
{
    if points.len() > 0 {
        spread_len(points.drop_last(), key, vs);
        let n = points.len() as int;
        let m = vs.len() as int;
        assert((n - 1) * m + m == n * m) by (nonlinear_arith);
    } else {
        assert(points.len() * vs.len() == 0) by (nonlinear_arith)
            requires
                points.len() == 0,
        ;
    }
}

/// A matrix expands into the cartesian product of its axes: as many combinations as
/// its axes have values, multiplied.
pub proof fn matrices_expand_into_products(
    base: Map<Seq<char>, TagV>,
    axes: Seq<(String, Vec<TomlValue>)>,
    subject: Seq<char>,
    floats: Floats,
)
    ensures
        matrix_points(base, axes, subject, floats) matches Ok(points) ==> points.len()
            == matrix_count(axes),
    decreases axes.len(),
{
    if axes.len() > 0 {
        matrices_expand_into_products(base, axes.drop_last(), subject, floats);
        if let Ok(points) = matrix_points(base, axes.drop_last(), subject, floats) {
            let raws = axes.last().1@;
            let key = axes.last().0@;
            if points.len() == 0 {
                assert(0 * raws.len() == 0) by (nonlinear_arith);
            } else {
                collected_len(
                    Seq::new(raws.len(), |i: int| toml_tag(raws[i], key, subject, floats)),
                );
                if let Ok(vs) = toml_tags_of(raws, key, subject, floats) {
                    spread_len(points, key, vs);
                }
            }
        }
    }
}

// ---------------------------------------------------------------- what tags hold

/// Every value of these tags can be said in a selector.
pub open spec fn can_be_said(tags: Map<Seq<char>, TagV>, subject: Seq<char>, floats: Floats) -> bool {
    forall|k: Seq<char>|
        #[trigger] tags.dom().contains(k) ==> selector_fault(k, tags[k], subject, floats) is None
}

proof fn tables_can_be_said(raw: Seq<(String, TomlValue)>, subject: Seq<char>, floats: Floats)
    ensures
        tag_table(raw, subject, floats) matches Ok(tags) ==> tags.dom().finite() && can_be_said(
            tags,
            subject,
            floats,
        ) && forall|k: Seq<char>| #[trigger] tags.dom().contains(k) ==> has_key(raw, k),
    decreases raw.len(),
{
    if raw.len() > 0 {
        tables_can_be_said(raw.drop_last(), subject, floats);
        if let Ok(tags) = tag_table(raw, subject, floats) {
            let before = tag_table(raw.drop_last(), subject, floats)->Ok_0;
            assert forall|k: Seq<char>| #[trigger] tags.dom().contains(k) implies has_key(raw, k) by {
                if k != raw.last().0@ {
                    assert(before.dom().contains(k));
                    let i = choose|i: int|
                        0 <= i < raw.drop_last().len() && (#[trigger] raw.drop_last()[i]).0@ == k;
                    assert(raw[i].0@ == k);
                } else {
                    assert(raw[raw.len() - 1].0@ == k);
                }
            }
            assert forall|k: Seq<char>| #[trigger] tags.dom().contains(k) implies selector_fault(
                k,
                tags[k],
                subject,
                floats,
            ) is None by {
                if k != raw.last().0@ {
                    assert(before.dom().contains(k));
                }
            }
        }
    }
}

/// A combination has the base's tags off the axes, and nothing that cannot be said.
proof fn combinations_can_be_said(
    base: Map<Seq<char>, TagV>,
    axes: Seq<(String, Vec<TomlValue>)>,
    subject: Seq<char>,
    floats: Floats,
    p: int,
)
    requires
        base.dom().finite(),
        can_be_said(base, subject, floats),
        matrix_points(base, axes, subject, floats) is Ok,
        0 <= p < matrix_points(base, axes, subject, floats)->Ok_0.len(),
    ensures
        ({
            let point = matrix_points(base, axes, subject, floats)->Ok_0[p];
            &&& point.dom().finite()
            &&& can_be_said(point, subject, floats)
            &&& forall|k: Seq<char>|
                !has_key(axes, k) ==> (#[trigger] point.dom().contains(k) == base.dom().contains(k))
                    && (base.dom().contains(k) ==> point[k] == base[k])
        }),
    decreases axes.len(),
{
    if axes.len() > 0 {
        let points = matrix_points(base, axes.drop_last(), subject, floats)->Ok_0;
        let raws = axes.last().1@;
        let key = axes.last().0@;
        let vs = toml_tags_of(raws, key, subject, floats)->Ok_0;
        collected_len(Seq::new(raws.len(), |i: int| toml_tag(raws[i], key, subject, floats)));
        let (q, v) = spread_from(points, key, vs, p);
        combinations_can_be_said(base, axes.drop_last(), subject, floats, q);
        let before = points[q];
        let point = matrix_points(base, axes, subject, floats)->Ok_0[p];
        assert(point == before.insert(key, vs[v]));
        assert(toml_tag(raws[v], key, subject, floats) == Ok::<TagV, ManifestErrorV>(vs[v]));
        assert forall|k: Seq<char>| #[trigger] point.dom().contains(k) implies selector_fault(
            k,
            point[k],
            subject,
            floats,
        ) is None by {
            if k != key {
                assert(before.dom().contains(k));
            }
        }
        assert forall|k: Seq<char>| !has_key(axes, k) implies (#[trigger] point.dom().contains(k)
            == base.dom().contains(k)) && (base.dom().contains(k) ==> point[k] == base[k]) by {
            assert(axes[axes.len() - 1].0@ == key);
            assert(k != key);
            if has_key(axes.drop_last(), k) {
                let i = choose|i: int|
                    0 <= i < axes.drop_last().len() && (#[trigger] axes.drop_last()[i]).0@ == k;
                assert(axes[i].0@ == k);
            }
            assert(before.dom().contains(k) == base.dom().contains(k));
        }
    }
}

/// Where a case comes from: its declaration and its combination.
#[verifier::opaque]
spec fn comes_from(m: Manifest, defaults: Seq<TagV>, c: CaseV, decl: CaseDecl, p: int, floats: Floats) -> bool {
    let subject = m.name@;
    &&& !has_key(decl.tags@, label_key()) && !has_key(decl.matrix@, label_key())
    &&& tag_table(decl.tags@, subject, floats) matches Ok(base) && {
        &&& !(base.dom().contains("impl"@) && render(base["impl"@]) != subject)
        &&& matrix_points(base, decl.matrix@, subject, floats) matches Ok(points) && {
            &&& 0 <= p < points.len()
            &&& impl_fault(points[p], subject) is None
            &&& c.tags == labelled(points[p], m.defaults@, defaults)
        }
    }
    &&& declared_params(decl.params@, subject, floats) == Ok::<Seq<ParamV>, ManifestErrorV>(
        c.params,
    )
    &&& c.subject == subject
}

proof fn comes_from_declaration(
    m: Manifest,
    ext: Seq<ExtV>,
    defaults: Seq<TagV>,
    decl: CaseDecl,
    start: nat,
    floats: Floats,
    p: int,
)
    requires
        declared_cases(m, ext, defaults, decl, start, floats) is Ok,
        0 <= p < declared_cases(m, ext, defaults, decl, start, floats)->Ok_0.len(),
    ensures
        comes_from(
            m,
            defaults,
            declared_cases(m, ext, defaults, decl, start, floats)->Ok_0[p],
            decl,
            p,
            floats,
        ),
{
    reveal(comes_from);
    let subject = m.name@;
    let base = tag_table(decl.tags@, subject, floats)->Ok_0;
    let points = matrix_points(base, decl.matrix@, subject, floats)->Ok_0;
    no_fault_anywhere(Seq::new(points.len(), |i: int| impl_fault(points[i], subject)), p);
}

proof fn origin(
    m: Manifest,
    ext: Seq<ExtV>,
    defaults: Seq<TagV>,
    decls: Seq<CaseDecl>,
    floats: Floats,
    i: int,
) -> (o: (int, int))
    requires
        all_cases(m, ext, defaults, decls, floats) is Ok,
        0 <= i < all_cases(m, ext, defaults, decls, floats)->Ok_0.len(),
    ensures
        0 <= o.0 < decls.len(),
        comes_from(
            m,
            defaults,
            all_cases(m, ext, defaults, decls, floats)->Ok_0[i],
            decls[o.0],
            o.1,
            floats,
        ),
    decreases decls.len(),
{
    let cases = all_cases(m, ext, defaults, decls, floats)->Ok_0;
    let before = all_cases(m, ext, defaults, decls.drop_last(), floats)->Ok_0;
    let n = before.len();
    if i < n {
        let o = origin(m, ext, defaults, decls.drop_last(), floats, i);
        assert(cases[i] == before[i]);
        assert(decls.drop_last()[o.0] == decls[o.0]);
        o
    } else {
        let more = declared_cases(m, ext, defaults, decls.last(), n, floats)->Ok_0;
        assert(cases[i] == more[i - n]);
        comes_from_declaration(m, ext, defaults, decls.last(), n, floats, i - n);
        (decls.len() - 1, i - n)
    }
}

/// The defaults that a manifest's cases are labelled by.
pub open spec fn label_defaults(m: Manifest, floats: Floats) -> Seq<TagV> {
    declared_defaults(m.defaults@, m.name@, floats)->Ok_0
}

/// A subject declares cases for itself only: each is attributed to it, and carries its
/// name as the `impl` tag.
pub proof fn cases_belong_to_their_subject(m: Manifest, floats: Floats, i: int)
    requires
        lowering(m, floats) is Ok,
        0 <= i < lowering(m, floats)->Ok_0.0.len(),
    ensures
        carries_subject(lowering(m, floats)->Ok_0.0[i], m.name@),
{
    let ext = declared_exts(m.vocab@, m.name@);
    reveal(comes_from);
    let (d, p) = origin(m, ext, label_defaults(m, floats), m.cases@, floats, i);
    assert("impl"@ != label_key()) by {
        reveal_strlit("impl");
        reveal_strlit("defaults_or_tuned");
        assert("impl"@.len() == 4 && label_key().len() == 17);
    }
}

/// The axes of a case are those that its declaration lists, in the order of their names,
/// so a case has each axis once.
pub proof fn axes_ascend(m: Manifest, floats: Floats, i: int)
    requires
        m.in_order(),
        lowering(m, floats) is Ok,
        0 <= i < lowering(m, floats)->Ok_0.0.len(),
    ensures
        axes_in_order(lowering(m, floats)->Ok_0.0[i]),
        distinct_axes(lowering(m, floats)->Ok_0.0[i]),
{
    let c = lowering(m, floats)->Ok_0.0[i];
    let ext = declared_exts(m.vocab@, m.name@);
    reveal(comes_from);
    let (d, p) = origin(m, ext, label_defaults(m, floats), m.cases@, floats, i);
    let decl = m.cases@[d];
    assert(decl.in_order());
    let rs = Seq::new(
        decl.params@.len(),
        |k: int| declared_param(decl.params@[k].1, decl.params@[k].0@, m.name@, floats),
    );
    collected_len(rs);
    assert forall|a: int, b: int| 0 <= a < b < c.params.len() implies text_lt(
        (#[trigger] c.params[a]).key,
        (#[trigger] c.params[b]).key,
    ) by {
        assert(rs[a] == Ok::<ParamV, ManifestErrorV>(c.params[a]));
        assert(rs[b] == Ok::<ParamV, ManifestErrorV>(c.params[b]));
        assert(text_lt(decl.params@[a].0@, decl.params@[b].0@));
    }
    assert forall|a: int, b: int| 0 <= a < b < c.params.len() implies (#[trigger] c.params[a]).key
        != (#[trigger] c.params[b]).key by {
        text_lt_irreflexive(c.params[a].key);
    }
}

/// The label says what the tags say: a case is labelled `default` exactly when its tags
/// hold every declared default, and `tuned` otherwise.
pub proof fn labels_are_computed(m: Manifest, floats: Floats, i: int)
    requires
        lowering(m, floats) is Ok,
        0 <= i < lowering(m, floats)->Ok_0.0.len(),
    ensures
        ({
            let tags = lowering(m, floats)->Ok_0.0[i].tags;
            &&& tags.dom().contains(label_key())
            &&& tags[label_key()] == TagV::Word(
                if at_defaults(tags, m.defaults@, label_defaults(m, floats)) {
                    "default"@
                } else {
                    "tuned"@
                },
            )
        }),
{
    let c = lowering(m, floats)->Ok_0.0[i];
    let ext = declared_exts(m.vocab@, m.name@);
    let defaults = label_defaults(m, floats);
    reveal(comes_from);
    let (d, p) = origin(m, ext, defaults, m.cases@, floats, i);
    let decl = m.cases@[d];
    let base = tag_table(decl.tags@, m.name@, floats)->Ok_0;
    let point = matrix_points(base, decl.matrix@, m.name@, floats)->Ok_0[p];
    let keys = m.defaults@;
    collected_len(
        Seq::new(keys.len(), |j: int| toml_tag(keys[j].1, keys[j].0@, m.name@, floats)),
    );
    assert(defaults.len() == keys.len());
    assert(at_defaults(c.tags, keys, defaults) == at_defaults(point, keys, defaults)) by {
        assert forall|j: int| 0 <= j < defaults.len() implies (c.tags.dom().contains(
            (#[trigger] keys[j]).0@,
        ) && tag_eq(c.tags[keys[j].0@], defaults[j])) == (point.dom().contains(keys[j].0@) && tag_eq(
            point[keys[j].0@],
            defaults[j],
        )) by {
            assert(!has_key(keys, label_key()));
            assert(keys[j].0@ != label_key());
        }
    }
}

/// What was loaded can be selected: for every declared value of every case, the clause
/// `key=value` is read, and admits the value.
pub proof fn loaded_values_can_be_selected(m: Manifest, floats: Floats, i: int, key: Seq<char>)
    requires
        lowering(m, floats) is Ok,
        0 <= i < lowering(m, floats)->Ok_0.0.len(),
        lowering(m, floats)->Ok_0.0[i].tags.dom().contains(key),
        key != label_key(),
    ensures
        ({
            let v = lowering(m, floats)->Ok_0.0[i].tags[key];
            read_selector(key + "="@ + render(v), floats) matches Ok(s) && selector_admits(
                s,
                map![key => v],
                Seq::empty(),
            )
        }),
{
    let ext = declared_exts(m.vocab@, m.name@);
    reveal(comes_from);
    let (d, p) = origin(m, ext, label_defaults(m, floats), m.cases@, floats, i);
    let decl = m.cases@[d];
    let base = tag_table(decl.tags@, m.name@, floats)->Ok_0;
    tables_can_be_said(decl.tags@, m.name@, floats);
    combinations_can_be_said(base, decl.matrix@, m.name@, floats, p);
    let point = matrix_points(base, decl.matrix@, m.name@, floats)->Ok_0[p];
    assert(point.dom().contains(key));
}

/// What was loaded can be printed: a pin of a key to a declared value is read back from
/// the text that a command shows of it. Of a number with a fraction, the text is what the
/// machine prints.
pub proof fn loaded_values_can_be_printed(m: Manifest, floats: Floats, i: int, key: Seq<char>)
    requires
        lowering(m, floats) is Ok,
        0 <= i < lowering(m, floats)->Ok_0.0.len(),
        lowering(m, floats)->Ok_0.0[i].tags.dom().contains(key),
        key != label_key(),
        plain_float(lowering(m, floats)->Ok_0.0[i].tags[key], floats),
    ensures
        ({
            let v = lowering(m, floats)->Ok_0.0[i].tags[key];
            let pinned = seq![ClauseV { key, matcher: MatchV::OneOf(seq![v]), negated: false }];
            read_selector(selector_expr(pinned), floats) == Ok::<Seq<ClauseV>, SelectorErrorV>(
                pinned,
            )
        }),
{
    let ext = declared_exts(m.vocab@, m.name@);
    reveal(comes_from);
    let (d, p) = origin(m, ext, label_defaults(m, floats), m.cases@, floats, i);
    let decl = m.cases@[d];
    let base = tag_table(decl.tags@, m.name@, floats)->Ok_0;
    tables_can_be_said(decl.tags@, m.name@, floats);
    combinations_can_be_said(base, decl.matrix@, m.name@, floats, p);
    let point = matrix_points(base, decl.matrix@, m.name@, floats)->Ok_0[p];
    assert(point.dom().contains(key));
    let v = point[key];
    assert(selector_fault(key, v, m.name@, floats) is None);
    let s = read_selector(key + "="@ + render(v), floats)->Ok_0;
    what_means_itself_can_be_written(key, v, s, floats);
    let pinned = seq![ClauseV { key, matcher: MatchV::OneOf(seq![v]), negated: false }];
    canonical_selector_round_trips(pinned, floats);
}

/// Every value that a clause pins its key to can be declared: it can be said in a
/// selector, and of a number with a fraction the text is what the machine prints.
pub open spec fn pins_what_can_be_declared(c: ClauseV, floats: Floats) -> bool {
    pins(c) && forall|i: int|
        0 <= i < c.matcher->OneOf_0.len() ==> {
            &&& selector_fault(c.key, #[trigger] c.matcher->OneOf_0[i], ""@, floats) is None
            &&& plain_float(c.matcher->OneOf_0[i], floats)
        }
}

proof fn such_pins_can_be_written(c: ClauseV, floats: Floats)
    requires
        pins_what_can_be_declared(c, floats),
    ensures
        canonical_clause(c, floats),
{
    let vs = c.matcher->OneOf_0;
    let powers = writes_powers(c.key);
    assert forall|i: int| 0 <= i < vs.len() implies canonical_clause(
        ClauseV { key: c.key, matcher: MatchV::OneOf(seq![#[trigger] vs[i]]), negated: false },
        floats,
    ) by {
        let v = vs[i];
        assert(selector_fault(c.key, v, ""@, floats) is None);
        let s = read_selector(c.key + "="@ + render(v), floats)->Ok_0;
        what_means_itself_can_be_written(c.key, v, s, floats);
    }
    assert forall|i: int| 0 <= i < vs.len() implies alternative(#[trigger] vs[i], powers, floats) by {
        let one = ClauseV { key: c.key, matcher: MatchV::OneOf(seq![vs[i]]), negated: false };
        assert(canonical_clause(one, floats));
        assert(alternative(seq![vs[i]][0], powers, floats));
    }
    let first = ClauseV { key: c.key, matcher: MatchV::OneOf(seq![vs[0]]), negated: false };
    assert(canonical_clause(first, floats));
    assert(seq![vs[0]][0] == vs[0]);
}

/// What is picked of a catalog can be run again from the printed command: where keys are
/// pinned to values that a manifest may declare, what stands between the command's quotes
/// is read as a selection of exactly the points that were picked.
pub proof fn picked_commands_read_back(
    cat: CatalogV,
    s: Seq<ClauseV>,
    runner: Runner,
    floats: Floats,
)
    requires
        forall|i: int| 0 <= i < s.len() ==> pins_what_can_be_declared(#[trigger] s[i], floats),
    ensures
        reads_back(cat, s, runner, floats),
{
    assert forall|i: int| 0 <= i < s.len() implies canonical_clause(#[trigger] s[i], floats) by {
        such_pins_can_be_written(s[i], floats);
    }
    printed_commands_read_back(cat, s, runner, floats);
}

// ---------------------------------------------------------------- the vocabulary

proof fn a_first_is_refused(keys: Set<Seq<char>>, key: Seq<char>) -> (first: Seq<char>)
    requires
        keys.finite(),
        keys.contains(key),
    ensures
        keys.contains(first),
        forall|other: Seq<char>| #[trigger] keys.contains(other) ==> text_le(first, other),
    decreases keys.len(),
{
    let rest = keys.remove(key);
    if rest.is_empty() {
        assert forall|other: Seq<char>| #[trigger] keys.contains(other) implies text_le(
            key,
            other,
        ) by {
            if other != key {
                assert(rest.contains(other));
            }
        }
        key
    } else {
        let some = rest.choose();
        let first = a_first_is_refused(rest, some);
        text_lt_total(key, first);
        let lower = if text_lt(key, first) {
            key
        } else {
            first
        };
        assert forall|other: Seq<char>| #[trigger] keys.contains(other) implies text_le(
            lower,
            other,
        ) by {
            if other != key {
                assert(rest.contains(other));
                if lower == key && other != first {
                    text_lt_transitive(key, first, other);
                }
            }
        }
        lower
    }
}

/// The cases of a load come from its manifests.
proof fn loaded_from(order: Seq<SubjectDir>, floats: Floats, i: int) -> (o: (int, int))
    requires
        load_all(order, floats) is Ok,
        0 <= i < load_all(order, floats)->Ok_0.cases.len(),
    ensures
        0 <= o.0 < order.len(),
        order[o.0].manifest matches Some(Ok(m)) && lowering(m, floats) matches Ok(p) && 0 <= o.1
            < p.0.len() && load_all(order, floats)->Ok_0.cases[i] == p.0[o.1],
    decreases order.len(),
{
    let before = load_all(order.drop_last(), floats)->Ok_0;
    if i < before.cases.len() {
        let o = loaded_from(order.drop_last(), floats, i);
        assert(order.drop_last()[o.0] == order[o.0]);
        assert(load_all(order, floats)->Ok_0.cases[i] == before.cases[i]);
        o
    } else {
        (order.len() - 1, i - before.cases.len())
    }
}

proof fn no_fault_anywhere<E>(fs: Seq<Option<E>>, i: int)
    requires
        first_fault(fs) is None,
        0 <= i < fs.len(),
    ensures
        fs[i] is None,
    decreases fs.len(),
{
    if i > 0 {
        no_fault_anywhere(fs.drop_first(), i - 1);
    }
}

/// In a catalog that loads from tables in order, every case has each axis once.
pub proof fn loaded_axes_are_distinct(order: Seq<SubjectDir>, floats: Floats, i: int)
    requires
        loaded(order, floats) is Ok,
        0 <= i < loaded(order, floats)->Ok_0.cases.len(),
        forall|d: int| 0 <= d < order.len() ==> tables_in_order(#[trigger] order[d]),
    ensures
        axes_in_order(loaded(order, floats)->Ok_0.cases[i]),
        distinct_axes(loaded(order, floats)->Ok_0.cases[i]),
{
    let (d, j) = loaded_from(order, floats, i);
    assert(tables_in_order(order[d]));
    axes_ascend(order[d].manifest->Some_0->Ok_0, floats, j);
}

/// The vocabulary is closed: in a catalog that loads, every tag of every case is a core
/// key or a declared extension, with a value that its key allows.
pub proof fn loaded_tags_are_known(order: Seq<SubjectDir>, floats: Floats, i: int, key: Seq<char>)
    requires
        loaded(order, floats) is Ok,
        0 <= i < loaded(order, floats)->Ok_0.cases.len(),
        loaded(order, floats)->Ok_0.cases[i].tags.dom().contains(key),
    ensures
        vocabulary_verdict(
            loaded(order, floats)->Ok_0.vocab,
            key,
            loaded(order, floats)->Ok_0.cases[i].tags[key],
        ) is Ok,
{
    let l = loaded(order, floats)->Ok_0;
    let c = l.cases[i];
    let faults = Seq::new(l.cases.len(), |j: int| case_fault(l.cases[j], l.vocab));
    no_fault_anywhere(faults, i);
    assert(case_fault(c, l.vocab) is None);
    if refused_key(c.tags, l.vocab, key) {
        let (d, j) = loaded_from(order, floats, i);
        let m = order[d].manifest->Some_0->Ok_0;
        let ext = declared_exts(m.vocab@, m.name@);
        reveal(comes_from);
        let (e, p) = origin(m, ext, label_defaults(m, floats), m.cases@, floats, j);
        let decl = m.cases@[e];
        let base = tag_table(decl.tags@, m.name@, floats)->Ok_0;
        tables_can_be_said(decl.tags@, m.name@, floats);
        combinations_can_be_said(base, decl.matrix@, m.name@, floats, p);
        assert(c.tags.dom().finite());
        let bad = c.tags.dom().filter(|k: Seq<char>| refused_key(c.tags, l.vocab, k));
        c.tags.dom().lemma_len_filter(|k: Seq<char>| refused_key(c.tags, l.vocab, k));
        assert(bad.contains(key));
        let first = a_first_is_refused(bad, key);
        assert(first_refused(c.tags, l.vocab, first)) by {
            assert forall|other: Seq<char>| #[trigger] refused_key(
                c.tags,
                l.vocab,
                other,
            ) implies text_le(first, other) by {
                assert(bad.contains(other));
            }
        }
        assert(false);
    }
}

} // verus!
