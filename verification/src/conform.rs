//! The conformance check: does the built driver contain exactly what the manifest
//! declares?
//!
//! The catalog is declared rather than registered, which is safe only while the
//! binaries agree with the declarations: a subject that renamed a strategy, or a
//! manifest that grew a case the driver never grew, is caught here rather than as a
//! hole in a comparison.
//!
//! The check builds but measures nothing, so unlike a run it does not require a
//! machine fingerprint: it makes no claim about numbers, only about coverage.

use crate::adapter::SubjectRequest;
use crate::case::{is_compile_time_key, Case, CaseV};
use crate::catalog::{case_refs, driver_choice, level_coordinates_are_equal, Catalog};
use crate::ordered::{
    ascending, distinct, each_is_member, later_is_not_before, level, lt_irreflexive, lt_transitive,
    member, models, place_of_member, sorted, strictly_ascending, strictly_ascending_lists_agree,
    Ordered,
};
use crate::resolve::{Inputs, Places, SubjectPath};
use crate::run::{build_request, request_of, subject_names, subjects_of, toolchain_for, common_toolchain};
use crate::text::{holds, join, joined, texts};
use crate::toolchain::Version;
use vstd::prelude::*;

verus! {

/// Inputs for checking drivers through the shared source resolution and build path.
pub struct ConformConfig<'a> {
    pub catalog: &'a Catalog,
    /// Check one subject; every subject that declares cases when `None`.
    pub subject: Option<&'a str>,
    /// Where generated packages are built. Engine output, never sources.
    pub build_root: String,
    /// An engine source checkout for driver path dependencies, if one is reachable.
    pub engine_root: Option<String>,
    /// Working-tree overrides.
    pub subject_paths: Vec<SubjectPath>,
}

/// One compile-time coordinate: the (key, value) pairs that identify a
/// monomorphisation.
pub type CaseKey = Vec<(String, String)>;

/// A [`CaseKey`] by its contents.
pub type KeyV = Seq<(Seq<char>, Seq<char>)>;

/// One subject's conformance outcome.
#[derive(Debug)]
pub struct SubjectConformance {
    pub subject: String,
    /// Distinct coordinates among the manifest's cases.
    pub manifest_cases: usize,
    /// Registrations the driver listed.
    pub driver_registrations: usize,
    /// Declared cases the driver does not contain: missing monomorphisations.
    pub missing_in_driver: Vec<CaseKey>,
    /// Registrations no manifest case declares: a stale or over-built driver.
    pub extra_in_driver: Vec<CaseKey>,
}

impl SubjectConformance {
    pub open spec fn matches(&self) -> bool {
        self.missing_in_driver@.len() == 0 && self.extra_in_driver@.len() == 0
    }

    pub fn is_match(&self) -> (r: bool)
        ensures
            r == self.matches(),
    {
        self.missing_in_driver.len() == 0 && self.extra_in_driver.len() == 0
    }
}

#[derive(Debug)]
pub struct ConformReport {
    pub subjects: Vec<SubjectConformance>,
}

impl ConformReport {
    /// Every checked subject matches its manifest.
    pub fn all_match(&self) -> (r: bool)
        ensures
            r == forall|i: int| 0 <= i < self.subjects@.len() ==> (#[trigger] self.subjects@[i]).matches(),
    {
        let mut i: usize = 0;
        while i < self.subjects.len()
            invariant
                i <= self.subjects@.len(),
                forall|j: int| 0 <= j < i ==> (#[trigger] self.subjects@[j]).matches(),
            decreases self.subjects@.len() - i,
        {
            if !self.subjects[i].is_match() {
                return false;
            }
            i = i + 1;
        }
        true
    }
}

// ---------------------------------------------------------------- what is checked

/// The subjects to check: all that declare cases, or the one that was asked for.
pub open spec fn checked_subjects(cases: Seq<CaseV>, wanted: Option<Seq<char>>) -> Result<
    Seq<Seq<char>>,
    Seq<char>,
> {
    let names = subjects_of(cases);
    match wanted {
        None => Ok(names),
        Some(f) => if names.contains(f) {
            Ok(seq![f])
        } else {
            Err(
                "no subject named `"@ + f + "` in the catalog (subjects: "@ + join(names, ", "@)
                    + ")"@,
            )
        },
    }
}

/// The subjects to check.
pub fn subjects(config: &ConformConfig) -> (r: Result<Vec<String>, String>)
    ensures
        (match r {
            Ok(v) => Ok(texts(v@)),
            Err(e) => Err(e@),
        }) == checked_subjects(
            config.catalog@.cases,
            crate::run::option_str(config.subject),
        ),
{
    let cases = config.catalog.cases();
    let mut refs: Vec<&Case> = Vec::new();
    let mut i: usize = 0;
    while i < cases.len()
        invariant
            i <= cases@.len(),
            refs@.len() == i,
            forall|j: int| 0 <= j < i ==> (#[trigger] refs@[j])@ == cases@[j]@,
        decreases cases@.len() - i,
    {
        refs.push(&cases[i]);
        i = i + 1;
    }
    assert(case_refs(refs@) =~= config.catalog@.cases) by {
        assert(crate::case::cases_of(cases@) == config.catalog@.cases);
    }
    let names = subject_names(&refs);
    match config.subject {
        None => Ok(names),
        Some(f) => {
            if !holds(&names, f) {
                let mut s = "no subject named `".to_owned();
                s.append(f);
                s.append("` in the catalog (subjects: ");
                s.append(joined(&names, ", ").as_str());
                s.append(")");
                return Err(s);
            }
            let v = vec![f.to_owned()];
            assert(texts(v@) =~= seq![f@]);
            Ok(v)
        },
    }
}

/// The one toolchain across everything the check builds, resolved exactly as a run
/// would resolve it for the same subjects.
pub fn toolchain(config: &ConformConfig, names: &Vec<String>) -> (r: Result<Option<Version>, String>)
    ensures
        (match r {
            Ok(v) => Ok(v),
            Err(e) => Err(e@),
        }) == common_toolchain(config.catalog@, texts(names@), None),
{
    toolchain_for(config.catalog, names, None)
}

/// One subject's share of a check: what a run of it would build, with the manifest's
/// own compiler flags.
pub fn conform_request(
    config: &ConformConfig,
    subject: &str,
    first_case: &Case,
    toolchain: Option<Version>,
    there: Places,
) -> (r: Result<SubjectRequest, String>)
    ensures
        (match r {
            Ok(q) => Ok(q@),
            Err(e) => Err(e@),
        }) == request_of(
            Inputs {
                catalog: config.catalog,
                engine_root: &config.engine_root,
                subject_paths: &config.subject_paths,
            },
            config.build_root@,
            subject@,
            first_case@,
            toolchain,
            there,
            Ok(
                match driver_choice(config.catalog@.subjects, subject@) {
                    Ok(d) => d.rustflags,
                    Err(_) => None,
                },
            ),
        ),
{
    let inputs = Inputs {
        catalog: config.catalog,
        engine_root: &config.engine_root,
        subject_paths: &config.subject_paths,
    };
    build_request(
        &inputs,
        config.build_root.as_str(),
        subject,
        first_case,
        toolchain,
        there,
        Ok(config.catalog.rustflags(subject)),
    )
}

// ---------------------------------------------------------------- set equality

/// The same pairs, in whatever order.
pub open spec fn same_pairs(a: KeyV, b: KeyV) -> bool {
    a.to_multiset() == b.to_multiset()
}

/// Is the coordinate among these, in whatever order its pairs are?
pub open spec fn lists(keys: Seq<KeyV>, k: KeyV) -> bool {
    exists|i: int| 0 <= i < keys.len() && same_pairs(#[trigger] keys[i], k)
}

/// `out` holds the coordinates of `a` that are not among `b`, each once, its pairs in
/// order, in order.
pub open spec fn difference(out: Seq<KeyV>, a: Seq<KeyV>, b: Seq<KeyV>) -> bool {
    &&& strictly_ascending::<CaseKey>(out)
    &&& forall|i: int|
        0 <= i < out.len() ==> ascending::<(String, String)>(#[trigger] out[i]) && lists(a, out[i])
            && !lists(b, out[i])
    &&& forall|i: int| 0 <= i < a.len() && !lists(b, #[trigger] a[i]) ==> lists(out, a[i])
}

pub open spec fn keys_of(v: Seq<CaseKey>) -> Seq<KeyV> {
    models(v)
}

/// `out` holds the coordinates of `a`, each once, its pairs in order, in order.
pub open spec fn canonical_of(out: Seq<KeyV>, a: Seq<KeyV>) -> bool {
    &&& strictly_ascending::<CaseKey>(out)
    &&& forall|i: int|
        0 <= i < out.len() ==> ascending::<(String, String)>(#[trigger] out[i]) && lists(a, out[i])
    &&& forall|i: int| 0 <= i < a.len() ==> lists(out, #[trigger] a[i])
}

proof fn level_pairs_are_equal(a: (Seq<char>, Seq<char>), b: (Seq<char>, Seq<char>))
    requires
        level::<(String, String)>(a, b),
    ensures
        a == b,
{
    crate::ordered::level_texts_are_equal(a.0, b.0);
    crate::ordered::level_texts_are_equal(a.1, b.1);
    <String as Ordered>::asymmetric(a.0, b.0);
}

/// Pairs in order are told by which pairs they are.
proof fn ordered_pairs_agree(a: KeyV, b: KeyV)
    requires
        ascending::<(String, String)>(a),
        ascending::<(String, String)>(b),
        same_pairs(a, b),
    ensures
        a == b,
{
    let leq = |x: (Seq<char>, Seq<char>), y: (Seq<char>, Seq<char>)|
        !<(String, String) as Ordered>::lt(y, x);
    assert forall|x: (Seq<char>, Seq<char>)| #[trigger] leq(x, x) by {
        lt_irreflexive::<(String, String)>(x);
    }
    assert forall|x: (Seq<char>, Seq<char>), y: (Seq<char>, Seq<char>)|
        #[trigger] leq(x, y) && #[trigger] leq(y, x) implies x == y by {
        level_pairs_are_equal(x, y);
    }
    assert forall|
        x: (Seq<char>, Seq<char>),
        y: (Seq<char>, Seq<char>),
        z: (Seq<char>, Seq<char>),
    | #[trigger] leq(x, y) && #[trigger] leq(y, z) implies leq(x, z) by {
        lt_transitive::<(String, String)>(x, y, z);
    }
    assert forall|x: (Seq<char>, Seq<char>), y: (Seq<char>, Seq<char>)|
        #[trigger] leq(x, y) || #[trigger] leq(y, x) by {
        <(String, String) as Ordered>::asymmetric(x, y);
    }
    assert(vstd::relations::total_ordering(leq));
    assert forall|i: int, j: int| 0 <= i < j < a.len() implies #[trigger] leq(a[i], a[j]) by {
        later_is_not_before::<(String, String)>(a, i, j);
    }
    assert forall|i: int, j: int| 0 <= i < j < b.len() implies #[trigger] leq(b[i], b[j]) by {
        later_is_not_before::<(String, String)>(b, i, j);
    }
    vstd::seq_lib::lemma_sorted_unique(a, b, leq);
}

fn copy_pairs(key: &CaseKey) -> (r: CaseKey)
    ensures
        models(r@) == models(key@),
{
    let mut r: CaseKey = Vec::new();
    let mut i: usize = 0;
    while i < key.len()
        invariant
            i <= key@.len(),
            r@.len() == i,
            forall|j: int| 0 <= j < i ==> (#[trigger] r@[j]).model() == key@[j].model(),
        decreases key@.len() - i,
    {
        r.push((key[i].0.clone(), key[i].1.clone()));
        i = i + 1;
    }
    assert(models(r@) =~= models(key@));
    r
}

/// Each side's pairs are put in order before comparing: a driver lists them in
/// whatever order its registration provides.
fn canonical(keys: &Vec<CaseKey>) -> (r: Vec<CaseKey>)
    ensures
        canonical_of(keys_of(r@), keys_of(keys@)),
{
    let ghost all = keys_of(keys@);
    let mut list: Vec<CaseKey> = Vec::new();
    let mut i: usize = 0;
    while i < keys.len()
        invariant
            i <= keys@.len(),
            all == keys_of(keys@),
            list@.len() == i,
            forall|j: int|
                0 <= j < i ==> ascending::<(String, String)>((#[trigger] list@[j]).model())
                    && same_pairs(list@[j].model(), all[j]),
        decreases keys@.len() - i,
    {
        let key = sorted(copy_pairs(&keys[i]));
        list.push(key);
        i = i + 1;
    }
    let ghost l = models(list@);
    let r = distinct(list);
    proof {
        let out = models(r@);
        assert forall|i: int| 0 <= i < out.len() implies ascending::<(String, String)>(
            #[trigger] out[i],
        ) && lists(all, out[i]) by {
            each_is_member::<CaseKey>(out, i);
            assert(member::<CaseKey>(l, out[i]));
            let j = place_of_member::<CaseKey>(l, out[i]);
            level_coordinates_are_equal(l[j], out[i]);
            assert(same_pairs(all[j], out[i]));
        }
        assert forall|i: int| 0 <= i < all.len() implies lists(out, #[trigger] all[i]) by {
            each_is_member::<CaseKey>(l, i);
            assert(member::<CaseKey>(out, l[i]));
            let j = place_of_member::<CaseKey>(out, l[i]);
            level_coordinates_are_equal(out[j], l[i]);
            assert(same_pairs(out[j], all[i]));
        }
    }
    r
}

fn same_key(a: &CaseKey, b: &CaseKey) -> (r: bool)
    ensures
        r == (models(a@) == models(b@)),
{
    let r = !a.before(b) && !b.before(a);
    proof {
        if r {
            level_coordinates_are_equal(models(a@), models(b@));
        } else if models(a@) == models(b@) {
            lt_irreflexive::<CaseKey>(models(a@));
        }
    }
    r
}

fn has_key(keys: &Vec<CaseKey>, k: &CaseKey) -> (r: bool)
    ensures
        r == exists|i: int| 0 <= i < keys@.len() && #[trigger] keys_of(keys@)[i] == models(k@),
{
    let mut i: usize = 0;
    while i < keys.len()
        invariant
            i <= keys@.len(),
            forall|j: int| 0 <= j < i ==> #[trigger] keys_of(keys@)[j] != models(k@),
        decreases keys@.len() - i,
    {
        if same_key(&keys[i], k) {
            assert(keys_of(keys@)[i as int] == models(k@));
            return true;
        }
        i = i + 1;
    }
    false
}

fn without(a: &Vec<CaseKey>, b: &Vec<CaseKey>) -> (r: Vec<CaseKey>)
    requires
        strictly_ascending::<CaseKey>(keys_of(a@)),
        forall|i: int|
            0 <= i < a@.len() ==> ascending::<(String, String)>(#[trigger] keys_of(a@)[i]),
        forall|i: int|
            0 <= i < b@.len() ==> ascending::<(String, String)>(#[trigger] keys_of(b@)[i]),
    ensures
        difference(keys_of(r@), keys_of(a@), keys_of(b@)),
{
    let ghost all = keys_of(a@);
    let ghost other = keys_of(b@);
    let mut r: Vec<CaseKey> = Vec::new();
    let mut i: usize = 0;
    assert(all.take(0) =~= Seq::empty());
    let ghost mut from: Seq<int> = Seq::empty();
    while i < a.len()
        invariant
            i <= a@.len(),
            all == keys_of(a@),
            other == keys_of(b@),
            strictly_ascending::<CaseKey>(all),
            forall|j: int| 0 <= j < all.len() ==> ascending::<(String, String)>(#[trigger] all[j]),
            forall|j: int|
                0 <= j < other.len() ==> ascending::<(String, String)>(#[trigger] other[j]),
            from.len() == r@.len(),
            forall|j: int|
                0 <= j < from.len() ==> 0 <= #[trigger] from[j] < i && keys_of(r@)[j] == all[from[j]]
                    && !lists(other, all[from[j]]),
            forall|j: int, k: int| 0 <= j < k < from.len() ==> #[trigger] from[j] < #[trigger] from[k],
            forall|j: int|
                0 <= j < i && !lists(other, #[trigger] all[j]) ==> lists(keys_of(r@), all[j]),
        decreases a@.len() - i,
    {
        let ghost before = keys_of(r@);
        let there = has_key(b, &a[i]);
        proof {
            assert(all[i as int] == models(a@[i as int]@));
            if lists(other, all[i as int]) {
                let j = choose|j: int| 0 <= j < other.len() && same_pairs(#[trigger] other[j], all[i as int]);
                ordered_pairs_agree(other[j], all[i as int]);
                assert(there);
            }
            if there {
                let j = choose|j: int| 0 <= j < other.len() && #[trigger] other[j] == all[i as int];
                assert(same_pairs(other[j], all[i as int]));
            }
        }
        if !there {
            let copy = copy_pairs(&a[i]);
            r.push(copy);
            proof {
                let after = keys_of(r@);
                assert(after =~= before.push(all[i as int]));
                let old_from = from;
                from = from.push(i as int);
                assert forall|j: int| 0 <= j < from.len() implies 0 <= #[trigger] from[j] < i + 1
                    && after[j] == all[from[j]] && !lists(other, all[from[j]]) by {
                    if j < old_from.len() {
                        assert(from[j] == old_from[j]);
                        assert(after[j] == before[j]);
                    }
                }
                assert forall|j: int, k: int| 0 <= j < k < from.len() implies #[trigger] from[j]
                    < #[trigger] from[k] by {
                    if k < old_from.len() {
                        assert(from[j] == old_from[j] && from[k] == old_from[k]);
                    } else {
                        assert(from[j] == old_from[j]);
                    }
                }
                assert forall|j: int|
                    0 <= j < i + 1 && !lists(other, #[trigger] all[j]) implies lists(
                    after,
                    all[j],
                ) by {
                    if j < i {
                        assert(lists(before, all[j]));
                        let k = choose|k: int|
                            0 <= k < before.len() && same_pairs(#[trigger] before[k], all[j]);
                        assert(after[k] == before[k]);
                    } else {
                        assert(same_pairs(after[before.len() as int], all[j]));
                    }
                }
            }
        }
        i = i + 1;
    }
    proof {
        let out = keys_of(r@);
        assert forall|i: int| 0 <= i < out.len() implies ascending::<(String, String)>(
            #[trigger] out[i],
        ) && lists(all, out[i]) && !lists(other, out[i]) by {
            assert(out[i] == all[from[i]]);
            assert(same_pairs(all[from[i]], out[i]));
        }
        assert forall|i: int, j: int| 0 <= i < j < out.len() implies <CaseKey as Ordered>::lt(
            #[trigger] out[i],
            #[trigger] out[j],
        ) by {
            assert(out[i] == all[from[i]] && out[j] == all[from[j]]);
        }
    }
    r
}

proof fn listed_through(out: Seq<KeyV>, a: Seq<KeyV>, k: KeyV)
    requires
        canonical_of(out, a),
    ensures
        lists(out, k) == lists(a, k),
{
    if lists(out, k) {
        let i = choose|i: int| 0 <= i < out.len() && same_pairs(#[trigger] out[i], k);
        assert(lists(a, out[i]));
        let j = choose|j: int| 0 <= j < a.len() && same_pairs(#[trigger] a[j], out[i]);
        assert(same_pairs(a[j], k));
    }
    if lists(a, k) {
        let i = choose|i: int| 0 <= i < a.len() && same_pairs(#[trigger] a[i], k);
        assert(lists(out, a[i]));
        let j = choose|j: int| 0 <= j < out.len() && same_pairs(#[trigger] out[j], a[i]);
        assert(same_pairs(out[j], k));
    }
}

proof fn difference_through(out: Seq<KeyV>, x: Seq<KeyV>, y: Seq<KeyV>, a: Seq<KeyV>, b: Seq<KeyV>)
    requires
        canonical_of(x, a),
        canonical_of(y, b),
        difference(out, x, y),
    ensures
        difference(out, a, b),
{
    assert forall|i: int| 0 <= i < out.len() implies ascending::<(String, String)>(
        #[trigger] out[i],
    ) && lists(a, out[i]) && !lists(b, out[i]) by {
        listed_through(x, a, out[i]);
        listed_through(y, b, out[i]);
    }
    assert forall|i: int| 0 <= i < a.len() && !lists(b, #[trigger] a[i]) implies lists(out, a[i]) by {
        listed_through(y, b, a[i]);
        assert(lists(x, a[i]));
        let j = choose|j: int| 0 <= j < x.len() && same_pairs(#[trigger] x[j], a[i]);
        if lists(y, x[j]) {
            let m = choose|m: int| 0 <= m < y.len() && same_pairs(#[trigger] y[m], x[j]);
            assert(same_pairs(y[m], a[i]));
        }
        assert(lists(out, x[j]));
        let k = choose|k: int| 0 <= k < out.len() && same_pairs(#[trigger] out[k], x[j]);
        assert(same_pairs(out[k], a[i]));
    }
}

/// Set equality, both directions, and order-insensitive. A declared case with no
/// registration is a missing monomorphisation; a registration with no declared case
/// is a stale or over-built driver. Both are drift; neither is silently absorbed.
pub fn compare_sets(expected: &Vec<CaseKey>, actual: &Vec<CaseKey>) -> (r: (
    Vec<CaseKey>,
    Vec<CaseKey>,
))
    ensures
        difference(keys_of(r.0@), keys_of(expected@), keys_of(actual@)),
        difference(keys_of(r.1@), keys_of(actual@), keys_of(expected@)),
{
    let e = canonical(expected);
    let a = canonical(actual);
    let missing = without(&e, &a);
    let extra = without(&a, &e);
    proof {
        let (x, y) = (keys_of(expected@), keys_of(actual@));
        difference_through(keys_of(missing@), keys_of(e@), keys_of(a@), x, y);
        difference_through(keys_of(extra@), keys_of(a@), keys_of(e@), y, x);
    }
    (missing, extra)
}

/// Coordinates of one difference are coordinates of the other.
proof fn differences_share(x: Seq<KeyV>, y: Seq<KeyV>, a: Seq<KeyV>, b: Seq<KeyV>, i: int)
    requires
        difference(x, a, b),
        difference(y, a, b),
        0 <= i < x.len(),
    ensures
        y.contains(x[i]),
{
    assert(lists(a, x[i]) && !lists(b, x[i]));
    let k = choose|k: int| 0 <= k < a.len() && same_pairs(#[trigger] a[k], x[i]);
    if lists(b, a[k]) {
        let m = choose|m: int| 0 <= m < b.len() && same_pairs(#[trigger] b[m], a[k]);
        assert(same_pairs(b[m], x[i]));
    }
    assert(lists(y, a[k]));
    let j = choose|j: int| 0 <= j < y.len() && same_pairs(#[trigger] y[j], a[k]);
    assert(ascending::<(String, String)>(y[j]) && ascending::<(String, String)>(x[i]));
    ordered_pairs_agree(y[j], x[i]);
}

/// There is one difference of two lists, so what is reported does not depend on the order
/// in which the coordinates come.
pub proof fn a_difference_is_one(x: Seq<KeyV>, y: Seq<KeyV>, a: Seq<KeyV>, b: Seq<KeyV>)
    requires
        difference(x, a, b),
        difference(y, a, b),
    ensures
        x == y,
{
    assert forall|i: int| 0 <= i < x.len() implies y.contains(#[trigger] x[i]) by {
        differences_share(x, y, a, b, i);
    }
    assert forall|i: int| 0 <= i < y.len() implies x.contains(#[trigger] y[i]) by {
        differences_share(y, x, a, b, i);
    }
    strictly_ascending_lists_agree::<CaseKey>(x, y);
}

/// Comparing the other way round reports the same, the other way round: what was missing
/// is extra, and what was extra is missing.
pub proof fn comparing_back_swaps(
    missing: Seq<KeyV>,
    extra: Seq<KeyV>,
    back_missing: Seq<KeyV>,
    back_extra: Seq<KeyV>,
    expected: Seq<KeyV>,
    actual: Seq<KeyV>,
)
    requires
        difference(missing, expected, actual),
        difference(extra, actual, expected),
        difference(back_missing, actual, expected),
        difference(back_extra, expected, actual),
    ensures
        back_missing == extra,
        back_extra == missing,
{
    a_difference_is_one(back_missing, extra, actual, expected);
    a_difference_is_one(back_extra, missing, expected, actual);
}

/// Nothing is reported exactly when both sides hold the same coordinates.
pub proof fn a_match_is_set_equality(
    missing: Seq<KeyV>,
    extra: Seq<KeyV>,
    expected: Seq<KeyV>,
    actual: Seq<KeyV>,
)
    requires
        difference(missing, expected, actual),
        difference(extra, actual, expected),
    ensures
        missing.len() == 0 && extra.len() == 0 <==> (forall|k: KeyV|
            #[trigger] lists(expected, k) == lists(actual, k)),
{
    if missing.len() == 0 && extra.len() == 0 {
        assert forall|k: KeyV| #[trigger] lists(expected, k) == lists(actual, k) by {
            if lists(expected, k) && !lists(actual, k) {
                let i = choose|i: int| 0 <= i < expected.len() && same_pairs(#[trigger] expected[i], k);
                if lists(actual, expected[i]) {
                    let j = choose|j: int|
                        0 <= j < actual.len() && same_pairs(#[trigger] actual[j], expected[i]);
                    assert(same_pairs(actual[j], k));
                }
                assert(lists(missing, expected[i]));
            }
            if lists(actual, k) && !lists(expected, k) {
                let i = choose|i: int| 0 <= i < actual.len() && same_pairs(#[trigger] actual[i], k);
                if lists(expected, actual[i]) {
                    let j = choose|j: int|
                        0 <= j < expected.len() && same_pairs(#[trigger] expected[j], actual[i]);
                    assert(same_pairs(expected[j], k));
                }
                assert(lists(extra, actual[i]));
            }
        }
    }
    if forall|k: KeyV| #[trigger] lists(expected, k) == lists(actual, k) {
        if missing.len() > 0 {
            assert(lists(expected, missing[0]) && !lists(actual, missing[0]));
        }
        if extra.len() > 0 {
            assert(lists(actual, extra[0]) && !lists(expected, extra[0]));
        }
    }
}

// ---------------------------------------------------------------- one subject

/// `keys` holds the coordinates of the cases, each once, in order.
pub open spec fn declared_keys(keys: Seq<KeyV>, cases: Seq<CaseV>) -> bool {
    &&& strictly_ascending::<CaseKey>(keys)
    &&& forall|i: int| 0 <= i < keys.len() ==> needed(cases, #[trigger] keys[i])
    &&& forall|c: int| 0 <= c < cases.len() ==> has_coordinate(keys, #[trigger] cases[c])
}

/// Some case has the coordinate.
pub open spec fn needed(cases: Seq<CaseV>, k: KeyV) -> bool {
    exists|c: int| 0 <= c < cases.len() && is_compile_time_key(#[trigger] cases[c], k)
}

/// The coordinate of a case is among these.
pub open spec fn has_coordinate(keys: Seq<KeyV>, c: CaseV) -> bool {
    exists|i: int| 0 <= i < keys.len() && is_compile_time_key(c, #[trigger] keys[i])
}

fn manifest_keys(cases: &Vec<&Case>) -> (r: Vec<CaseKey>)
    ensures
        declared_keys(keys_of(r@), case_refs(cases@)),
{
    let ghost all = case_refs(cases@);
    let mut list: Vec<CaseKey> = Vec::new();
    let mut i: usize = 0;
    while i < cases.len()
        invariant
            i <= cases@.len(),
            all == case_refs(cases@),
            list@.len() == i,
            forall|j: int|
                0 <= j < i ==> is_compile_time_key(all[j], (#[trigger] list@[j]).model()),
        decreases cases@.len() - i,
    {
        list.push(cases[i].compile_time_key());
        i = i + 1;
    }
    let ghost l = models(list@);
    let r = distinct(list);
    proof {
        let out = models(r@);
        assert forall|i: int| 0 <= i < out.len() implies needed(all, #[trigger] out[i]) by {
            each_is_member::<CaseKey>(out, i);
            assert(member::<CaseKey>(l, out[i]));
            let j = place_of_member::<CaseKey>(l, out[i]);
            level_coordinates_are_equal(l[j], out[i]);
            assert(is_compile_time_key(all[j], out[i]));
        }
        assert forall|c: int| 0 <= c < all.len() implies has_coordinate(out, #[trigger] all[c]) by {
            each_is_member::<CaseKey>(l, c);
            assert(member::<CaseKey>(out, l[c]));
            let j = place_of_member::<CaseKey>(out, l[c]);
            level_coordinates_are_equal(out[j], l[c]);
            assert(is_compile_time_key(all[c], out[j]));
        }
    }
    r
}

/// What a subject's driver lists, against what its cases declare.
pub open spec fn conformance_of(
    r: SubjectConformance,
    subject: Seq<char>,
    cases: Seq<CaseV>,
    actual: Seq<KeyV>,
    keys: Seq<KeyV>,
) -> bool {
    &&& declared_keys(keys, cases)
    &&& r.subject@ == subject
    &&& r.manifest_cases == keys.len()
    &&& r.driver_registrations == actual.len()
    &&& difference(keys_of(r.missing_in_driver@), keys, actual)
    &&& difference(keys_of(r.extra_in_driver@), actual, keys)
}

/// Check a subject's driver, by its registration list, against the subject's cases.
pub fn conform(subject: &str, cases: &Vec<&Case>, actual: &Vec<CaseKey>) -> (r: SubjectConformance)
    ensures
        exists|keys: Seq<KeyV>|
            #[trigger] conformance_of(r, subject@, case_refs(cases@), keys_of(actual@), keys),
{
    let expected = manifest_keys(cases);
    let (missing_in_driver, extra_in_driver) = compare_sets(&expected, actual);
    let r = SubjectConformance {
        subject: subject.to_owned(),
        manifest_cases: expected.len(),
        driver_registrations: actual.len(),
        missing_in_driver,
        extra_in_driver,
    };
    assert(conformance_of(
        r,
        subject@,
        case_refs(cases@),
        keys_of(actual@),
        keys_of(expected@),
    ));
    r
}

} // verus!
