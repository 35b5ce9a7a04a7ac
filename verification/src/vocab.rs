//! The tag vocabulary, in three tiers.
//!
//! **Universal** keys are true of anything measurable and exist in every domain.
//!
//! **Domain core** keys are engine-owned and shared by every subject declaring
//! that domain. This is what makes a cross-library chart possible: two subjects
//! can only be compared on an axis they both name identically.
//!
//! **Extension** keys are declared by a subject manifest and namespaced under its
//! name: `kiddo.stem`, `nanoflann.leaf_max_size`. Two libraries will both want a
//! key called `layout` and mean different things by it; namespacing keeps them
//! apart.
//!
//! Both tiers are closed: unknown keys are rejected when a manifest loads.

use crate::tag::{render, TagError, TagErrorV, TagValue, TagV};
use crate::text::{copy_texts, find, holds, is_digit, same, split_once, starts_with, strip_suffix, texts};
use vstd::prelude::*;

verus! {

/// What kind of values a key accepts, and whether it is fixed or swept.
#[derive(Clone, Copy, Debug, PartialEq, Eq, Structural)]
pub enum Kind {
    /// Part of a case's fixed identity.
    Identity,
    /// An axis a case is swept over; carries a domain and a default.
    Param,
}

#[derive(Debug)]
pub struct KeyDef {
    pub key: &'static str,
    pub kind: Kind,
    /// `None` = any value of the right shape.
    pub allowed: Option<Vec<&'static str>>,
    /// Render powers of two as `2^N` in selector expressions. Only affects how a
    /// printed command reads; both forms parse to the same value.
    pub pow2: bool,
    pub doc: &'static str,
}

/// A key definition by its contents.
pub struct KeyV {
    pub key: Seq<char>,
    pub kind: Kind,
    pub allowed: Option<Seq<Seq<char>>>,
    pub pow2: bool,
    pub doc: Seq<char>,
}

pub open spec fn words(v: Seq<&'static str>) -> Seq<Seq<char>> {
    Seq::new(v.len(), |i: int| v[i]@)
}

impl View for KeyDef {
    type V = KeyV;

    open spec fn view(&self) -> KeyV {
        KeyV {
            key: self.key@,
            kind: self.kind,
            allowed: match self.allowed {
                Some(a) => Some(words(a@)),
                None => None,
            },
            pow2: self.pow2,
            doc: self.doc@,
        }
    }
}

pub open spec fn keys(v: Seq<KeyDef>) -> Seq<KeyV> {
    Seq::new(v.len(), |i: int| v[i]@)
}

/// A problem shape. Each owns a core vocabulary; adding one is an engine change
/// that cannot disturb an existing domain's data.
#[derive(Debug)]
pub struct Domain {
    pub name: &'static str,
    pub identity: Vec<KeyDef>,
    pub params: Vec<KeyDef>,
}

/// A key whose values form a closed set.
fn closed(key: &'static str, kind: Kind, allowed: Vec<&'static str>, pow2: bool, doc: &'static str) -> (r: KeyDef)
    ensures
        r@ == (KeyV { key: key@, kind, allowed: Some(words(allowed@)), pow2, doc: doc@ }),
{
    KeyDef { key, kind, allowed: Some(allowed), pow2, doc }
}

/// A key that takes any value of the right shape.
fn free(key: &'static str, kind: Kind, pow2: bool, doc: &'static str) -> (r: KeyDef)
    ensures
        r@ == (KeyV { key: key@, kind, allowed: None, pow2, doc: doc@ }),
{
    KeyDef { key, kind, allowed: None, pow2, doc }
}

/// Universal keys: true of anything measurable, so they belong to every domain
/// rather than to any one of them.
pub open spec fn universal_keys() -> Seq<KeyV> {
    seq![
        KeyV { key: "impl"@, kind: Kind::Identity, allowed: Some(seq!["kiddo"@, "kiddo_v6"@, "kiddo_v5"@, "nanoflann"@, "pykdtree"@, "pkdtree"@, "alglib"@, "skdtree"@, "scipy"@, "nearestneighbors_jl"@]), pow2: false, doc: "implementation under test"@ },
        KeyV { key: "query"@, kind: Kind::Identity, allowed: Some(seq!["exact_nn"@, "approx_nn"@, "within_radius"@, "within_unsorted"@, "nearest_n_within"@, "best_n_within"@, "best_n"@, "build"@, "add_points"@]), pow2: false, doc: "operation being measured"@ },
    ]
}

/// Universal keys: true of anything measurable, so they belong to every domain
/// rather than to any one of them.
pub fn universal() -> (r: Vec<KeyDef>)
    ensures
        keys(r@) == universal_keys(),
{
    let mut r: Vec<KeyDef> = Vec::new();
    let allowed: Vec<&'static str> = vec!["kiddo", "kiddo_v6", "kiddo_v5", "nanoflann", "pykdtree", "pkdtree", "alglib", "skdtree", "scipy", "nearestneighbors_jl"];
    assert(words(allowed@) =~= seq!["kiddo"@, "kiddo_v6"@, "kiddo_v5"@, "nanoflann"@, "pykdtree"@, "pkdtree"@, "alglib"@, "skdtree"@, "scipy"@, "nearestneighbors_jl"@]);
    r.push(closed("impl", Kind::Identity, allowed, false, "implementation under test"));
    let allowed: Vec<&'static str> = vec!["exact_nn", "approx_nn", "within_radius", "within_unsorted", "nearest_n_within", "best_n_within", "best_n", "build", "add_points"];
    assert(words(allowed@) =~= seq!["exact_nn"@, "approx_nn"@, "within_radius"@, "within_unsorted"@, "nearest_n_within"@, "best_n_within"@, "best_n"@, "build"@, "add_points"@]);
    r.push(closed("query", Kind::Identity, allowed, false, "operation being measured"));
    assert(keys(r@) =~= universal_keys());
    r
}

/// Core identity keys of the `spatial_index` domain.
pub open spec fn identity_keys() -> Seq<KeyV> {
    seq![
        KeyV { key: "k"@, kind: Kind::Identity, allowed: None, pow2: false, doc: "result count; 1 for nearest-one"@ },
        KeyV { key: "dims"@, kind: Kind::Identity, allowed: None, pow2: false, doc: "dimensionality K"@ },
        KeyV { key: "axis"@, kind: Kind::Identity, allowed: Some(seq!["f32"@, "f64"@]), pow2: false, doc: "scalar type of the axes"@ },
        KeyV { key: "idx"@, kind: Kind::Identity, allowed: Some(seq!["u16"@, "u32"@, "u64"@]), pow2: false, doc: "index type"@ },
        KeyV { key: "metric"@, kind: Kind::Identity, allowed: Some(seq!["squared_euclidean"@, "manhattan"@, "euclidean"@]), pow2: false, doc: "distance metric"@ },
        KeyV { key: "dataset"@, kind: Kind::Identity, allowed: Some(seq!["uniform"@, "gaussian"@]), pow2: false, doc: "the distribution the construction and query points are drawn from"@ },
        KeyV { key: "isa"@, kind: Kind::Identity, allowed: Some(seq!["scalar"@, "avx2"@, "avx512"@, "neon"@]), pow2: false, doc: "instruction set actually exercised"@ },
        KeyV { key: "parallelism"@, kind: Kind::Identity, allowed: Some(seq!["single_threaded"@, "multi_threaded"@]), pow2: false, doc: "how many processor cores the implementation may use"@ },
        KeyV { key: "query_batching"@, kind: Kind::Identity, allowed: Some(seq!["single_query"@, "batch_query"@]), pow2: false, doc: "the shape of the measured operation: one query point through the single-point API, or many through a bulk batch API"@ },
        KeyV { key: "defaults_or_tuned"@, kind: Kind::Identity, allowed: Some(seq!["default"@, "tuned"@]), pow2: false, doc: "runner-computed label: default when every configuration parameter equals the manifest's declared defaults for this library version, tuned when any differs. Manifests cannot declare it; the runner derives it at load"@ },
    ]
}

/// Core identity keys of the `spatial_index` domain.
pub fn identity() -> (r: Vec<KeyDef>)
    ensures
        keys(r@) == identity_keys(),
{
    let mut r: Vec<KeyDef> = Vec::new();
    r.push(free("k", Kind::Identity, false, "result count; 1 for nearest-one"));
    r.push(free("dims", Kind::Identity, false, "dimensionality K"));
    let allowed: Vec<&'static str> = vec!["f32", "f64"];
    assert(words(allowed@) =~= seq!["f32"@, "f64"@]);
    r.push(closed("axis", Kind::Identity, allowed, false, "scalar type of the axes"));
    let allowed: Vec<&'static str> = vec!["u16", "u32", "u64"];
    assert(words(allowed@) =~= seq!["u16"@, "u32"@, "u64"@]);
    r.push(closed("idx", Kind::Identity, allowed, false, "index type"));
    let allowed: Vec<&'static str> = vec!["squared_euclidean", "manhattan", "euclidean"];
    assert(words(allowed@) =~= seq!["squared_euclidean"@, "manhattan"@, "euclidean"@]);
    r.push(closed("metric", Kind::Identity, allowed, false, "distance metric"));
    let allowed: Vec<&'static str> = vec!["uniform", "gaussian"];
    assert(words(allowed@) =~= seq!["uniform"@, "gaussian"@]);
    r.push(closed("dataset", Kind::Identity, allowed, false, "the distribution the construction and query points are drawn from"));
    let allowed: Vec<&'static str> = vec!["scalar", "avx2", "avx512", "neon"];
    assert(words(allowed@) =~= seq!["scalar"@, "avx2"@, "avx512"@, "neon"@]);
    r.push(closed("isa", Kind::Identity, allowed, false, "instruction set actually exercised"));
    let allowed: Vec<&'static str> = vec!["single_threaded", "multi_threaded"];
    assert(words(allowed@) =~= seq!["single_threaded"@, "multi_threaded"@]);
    r.push(closed("parallelism", Kind::Identity, allowed, false, "how many processor cores the implementation may use"));
    let allowed: Vec<&'static str> = vec!["single_query", "batch_query"];
    assert(words(allowed@) =~= seq!["single_query"@, "batch_query"@]);
    r.push(closed("query_batching", Kind::Identity, allowed, false, "the shape of the measured operation: one query point through the single-point API, or many through a bulk batch API"));
    let allowed: Vec<&'static str> = vec!["default", "tuned"];
    assert(words(allowed@) =~= seq!["default"@, "tuned"@]);
    r.push(closed("defaults_or_tuned", Kind::Identity, allowed, false, "runner-computed label: default when every configuration parameter equals the manifest's declared defaults for this library version, tuned when any differs. Manifests cannot declare it; the runner derives it at load"));
    assert(keys(r@) =~= identity_keys());
    r
}

/// Core param axes of the `spatial_index` domain.
pub open spec fn param_keys() -> Seq<KeyV> {
    seq![
        KeyV { key: "tree_size"@, kind: Kind::Param, allowed: None, pow2: true, doc: "point count; write as 2^N in selectors"@ },
        KeyV { key: "query_count"@, kind: Kind::Param, allowed: None, pow2: false, doc: "queries per measurement"@ },
        KeyV { key: "query_batch_size"@, kind: Kind::Param, allowed: None, pow2: false, doc: "query points per batch API call, for batch_query cases"@ },
        KeyV { key: "radius"@, kind: Kind::Param, allowed: None, pow2: false, doc: "radius for within_* queries"@ },
        KeyV { key: "epsilon"@, kind: Kind::Param, allowed: None, pow2: false, doc: "approx_nn error bound"@ },
        KeyV { key: "threads"@, kind: Kind::Param, allowed: None, pow2: false, doc: "worker threads"@ },
    ]
}

/// Core param axes of the `spatial_index` domain.
pub fn params() -> (r: Vec<KeyDef>)
    ensures
        keys(r@) == param_keys(),
{
    let mut r: Vec<KeyDef> = Vec::new();
    r.push(free("tree_size", Kind::Param, true, "point count; write as 2^N in selectors"));
    r.push(free("query_count", Kind::Param, false, "queries per measurement"));
    r.push(free("query_batch_size", Kind::Param, false, "query points per batch API call, for batch_query cases"));
    r.push(free("radius", Kind::Param, false, "radius for within_* queries"));
    r.push(free("epsilon", Kind::Param, false, "approx_nn error bound"));
    r.push(free("threads", Kind::Param, false, "worker threads"));
    assert(keys(r@) =~= param_keys());
    r
}

/// Every core key, universal first.
pub open spec fn core_keys() -> Seq<KeyV> {
    universal_keys() + identity_keys() + param_keys()
}

/// The first definition of `key` in a list.
pub open spec fn first_def(defs: Seq<KeyV>, key: Seq<char>) -> Option<KeyV>
    decreases defs.len(),
{
    if defs.len() == 0 {
        None
    } else if defs[0].key == key {
        Some(defs[0])
    } else {
        first_def(defs.drop_first(), key)
    }
}

/// The core definition of a key.
pub open spec fn core_def(key: Seq<char>) -> Option<KeyV> {
    first_def(core_keys(), key)
}

pub open spec fn is_core(key: Seq<char>) -> bool {
    core_def(key) is Some
}

/// Does the key render powers of two as `2^N`?
pub open spec fn writes_powers(key: Seq<char>) -> bool {
    core_def(key) is Some && core_def(key)->Some_0.pow2
}

/// The domain of this name, if the engine knows it.
pub fn domain(name: &str) -> (r: Option<Domain>)
    ensures
        match r {
            Some(d) => name@ == "spatial_index"@ && d.name@ == name@ && keys(d.identity@)
                == identity_keys() && keys(d.params@) == param_keys(),
            None => name@ != "spatial_index"@,
        },
{
    if same(name, "spatial_index") {
        Some(Domain { name: "spatial_index", identity: identity(), params: params() })
    } else {
        None
    }
}

/// Every core definition, universal first.
fn every_core() -> (r: Vec<KeyDef>)
    ensures
        keys(r@) == core_keys(),
{
    let mut r = universal();
    let mut i = identity();
    let mut p = params();
    let ghost (u, v, w) = (r@, i@, p@);
    r.append(&mut i);
    r.append(&mut p);
    assert(keys(r@) =~= keys(u) + keys(v) + keys(w));
    r
}

/// Look a key up in the universal tier plus the `spatial_index` core.
pub fn lookup(key: &str) -> (r: Option<KeyDef>)
    ensures
        match r {
            Some(d) => core_def(key@) == Some(d@) && d.key@ == key@,
            None => core_def(key@) is None,
        },
{
    let mut defs = every_core();
    assert(keys(defs@).skip(0) =~= keys(defs@));
    let mut i: usize = 0;
    while i < defs.len()
        invariant
            i <= defs@.len(),
            core_def(key@) == first_def(keys(defs@).skip(i as int), key@),
        decreases defs@.len() - i,
    {
        assert(keys(defs@).skip(i as int).drop_first() =~= keys(defs@).skip(i + 1));
        assert(keys(defs@).skip(i as int)[0] == defs@[i as int]@);
        if same(defs[i].key, key) {
            return Some(defs.swap_remove(i));
        }
        i = i + 1;
    }
    None
}

/// Resolve an identifier to its vocabulary key.
///
/// `impl` and `type` are Rust keywords, so a trailing underscore (`impl_`) is
/// accepted and stripped here.
pub fn key_str(ident: &str) -> (r: &'static str)
    requires
        is_core(bare_ident(ident@)),
    ensures
        r@ == bare_ident(ident@),
{
    let trimmed = match strip_suffix(ident, "_") {
        Some(head) => head,
        None => ident,
    };
    proof {
        reveal_strlit("_");
        assert("_"@ =~= seq!['_']);
    }
    match lookup(trimmed) {
        Some(def) => def.key,
        None => "",
    }
}

/// An identifier without its trailing underscore.
pub open spec fn bare_ident(ident: Seq<char>) -> Seq<char> {
    if "_"@.is_suffix_of(ident) {
        ident.take(ident.len() - 1)
    } else {
        ident
    }
}

/// The verdict on a value for a definition of `key`.
pub open spec fn admit_value(key: Seq<char>, allowed: Option<Seq<Seq<char>>>, value: TagV) -> Result<(), TagErrorV> {
    match allowed {
        Some(list) => if list.contains(render(value)) {
            Ok(())
        } else {
            Err(TagErrorV::NotAllowed { key, value: render(value), allowed: list })
        },
        None => Ok(()),
    }
}

/// The verdict on a core key and its value.
pub open spec fn core_verdict(key: Seq<char>, value: TagV) -> Result<(), TagErrorV> {
    match core_def(key) {
        Some(d) => admit_value(key, d.allowed, value),
        None => Err(TagErrorV::UnknownKey(key)),
    }
}

/// A result over an error's contents.
pub open spec fn verdict_of(r: Result<(), TagError>) -> Result<(), TagErrorV> {
    match r {
        Ok(_) => Ok(()),
        Err(e) => Err(e@),
    }
}

/// Owned copies of borrowed words.
fn owned_words(v: &Vec<&'static str>) -> (r: Vec<String>)
    ensures
        texts(r@) == words(v@),
{
    let mut r: Vec<String> = Vec::new();
    let mut i: usize = 0;
    while i < v.len()
        invariant
            i <= v@.len(),
            r@.len() == i,
            forall|j: int| 0 <= j < i ==> r@[j]@ == v@[j]@,
        decreases v@.len() - i,
    {
        r.push(v[i].to_owned());
        i = i + 1;
    }
    assert(texts(r@) =~= words(v@));
    r
}

/// Validate a core key/value pair. Extension keys are checked by
/// [`Vocabulary::validate`], which knows what each subject declared.
pub fn validate(key: &str, value: &TagValue) -> (r: Result<(), TagError>)
    ensures
        verdict_of(r) == core_verdict(key@, value@),
{
    match lookup(key) {
        None => Err(TagError::UnknownKey(key.to_owned())),
        Some(def) => match &def.allowed {
            None => Ok(()),
            Some(allowed) => {
                let list = owned_words(allowed);
                let rendered = value.to_string();
                if holds(&list, rendered.as_str()) {
                    Ok(())
                } else {
                    Err(TagError::NotAllowed { key: key.to_owned(), value: rendered, allowed: list })
                }
            },
        },
    }
}

/// An extension key contributed by a subject manifest, e.g. `kiddo.stem`.
#[derive(Debug)]
pub struct ExtKey {
    /// Owning subject, e.g. `kiddo_v6`.
    pub subject: String,
    /// Namespaced key as written in tags, e.g. `kiddo.stem`.
    pub key: String,
    pub allowed: Option<Vec<String>>,
    /// A generic parameter of its subject; drives two-phase code generation.
    pub compile_time: bool,
}

/// An extension key by its contents.
pub struct ExtV {
    pub subject: Seq<char>,
    pub key: Seq<char>,
    pub allowed: Option<Seq<Seq<char>>>,
    pub compile_time: bool,
}

impl View for ExtKey {
    type V = ExtV;

    open spec fn view(&self) -> ExtV {
        ExtV {
            subject: self.subject@,
            key: self.key@,
            allowed: match self.allowed {
                Some(a) => Some(texts(a@)),
                None => None,
            },
            compile_time: self.compile_time,
        }
    }
}

pub open spec fn exts(v: Seq<ExtKey>) -> Seq<ExtV> {
    Seq::new(v.len(), |i: int| v[i]@)
}

/// Core vocabulary plus every extension contributed by loaded manifests.
#[derive(Debug)]
pub struct Vocabulary {
    pub extensions: Vec<ExtKey>,
}

impl View for Vocabulary {
    type V = Seq<ExtV>;

    open spec fn view(&self) -> Seq<ExtV> {
        exts(self.extensions@)
    }
}

/// Where a list of extensions first declares `key`; its length when it does not.
pub open spec fn ext_at(list: Seq<ExtV>, key: Seq<char>) -> int
    decreases list.len(),
{
    if list.len() == 0 || list[0].key == key {
        0
    } else {
        1 + ext_at(list.drop_first(), key)
    }
}

/// What is found as the place of an extension is the first of that key.
pub proof fn ext_at_bounds(list: Seq<ExtV>, key: Seq<char>)
    ensures
        0 <= ext_at(list, key) <= list.len(),
        ext_at(list, key) < list.len() ==> list[ext_at(list, key)].key == key,
        forall|i: int| 0 <= i < ext_at(list, key) ==> (#[trigger] list[i]).key != key,
    decreases list.len(),
{
    if list.len() > 0 && list[0].key != key {
        let t = list.drop_first();
        ext_at_bounds(t, key);
        assert forall|i: int| 0 <= i < ext_at(list, key) implies (#[trigger] list[i]).key != key by {
            if i > 0 {
                assert(t[i - 1].key != key);
            }
        }
    }
}

pub open spec fn declares(list: Seq<ExtV>, key: Seq<char>) -> bool {
    exists|i: int| 0 <= i < list.len() && (#[trigger] list[i]).key == key
}

/// The verdict on a key and its value: core keys first, then the extensions.
pub open spec fn vocabulary_verdict(list: Seq<ExtV>, key: Seq<char>, value: TagV) -> Result<(), TagErrorV> {
    if is_core(key) {
        core_verdict(key, value)
    } else if declares(list, key) {
        admit_value(key, list[ext_at(list, key)].allowed, value)
    } else {
        Err(TagErrorV::UnknownKey(key))
    }
}

/// The namespace that a subject's extension keys must sit under: the subject's
/// name without a `_v<digits>` ending.
pub open spec fn namespace(subject: Seq<char>) -> Seq<char> {
    let at = find(subject, '_');
    let tail = subject.skip(at + 1);
    if at < subject.len() && tail.len() > 0 && tail[0] == 'v' && (forall|i: int|
        1 <= i < tail.len() ==> is_digit(#[trigger] tail[i])) {
        subject.take(at)
    } else {
        subject
    }
}

/// Why an extension key of a subject is refused, if it is.
pub open spec fn extension_fault(subject: Seq<char>, key: Seq<char>) -> Option<TagErrorV> {
    let prefix = namespace(subject) + "."@;
    if is_core(key) {
        Some(TagErrorV::BadExtension { key, reason: "shadows the core key `"@ + key + "`"@ })
    } else if !prefix.is_prefix_of(key) {
        Some(
            TagErrorV::BadExtension { key, reason: "must be namespaced under `"@ + prefix + "`"@ },
        )
    } else {
        None
    }
}

/// The first fault in a list of extension keys.
pub open spec fn first_fault(subject: Seq<char>, list: Seq<ExtV>) -> Option<TagErrorV>
    decreases list.len(),
{
    if list.len() == 0 {
        None
    } else if extension_fault(subject, list[0].key) is Some {
        extension_fault(subject, list[0].key)
    } else {
        first_fault(subject, list.drop_first())
    }
}

impl Default for Vocabulary {
    fn default() -> (r: Self)
        ensures
            r@ == Seq::<ExtV>::empty(),
    {
        let r = Vocabulary { extensions: Vec::new() };
        assert(r@ =~= Seq::<ExtV>::empty());
        r
    }
}

impl Vocabulary {
    /// Where the key is first declared.
    fn position(&self, key: &str) -> (r: Option<usize>)
        ensures
            match r {
                Some(i) => declares(self@, key@) && i == ext_at(self@, key@) && i < self.extensions@.len(),
                None => !declares(self@, key@),
            },
    {
        let mut i: usize = 0;
        assert(self@.skip(0) =~= self@);
        while i < self.extensions.len()
            invariant
                i <= self.extensions@.len(),
                forall|j: int| 0 <= j < i ==> (#[trigger] self@[j]).key != key@,
                ext_at(self@, key@) == i + ext_at(self@.skip(i as int), key@),
            decreases self.extensions@.len() - i,
        {
            assert(self@.skip(i as int).drop_first() =~= self@.skip(i + 1));
            assert(self@.skip(i as int)[0] == self.extensions@[i as int]@);
            if same(self.extensions[i].key.as_str(), key) {
                assert(self@[i as int].key == key@);
                return Some(i);
            }
            i = i + 1;
        }
        None
    }

    /// Is this key known: core, or an extension of some loaded subject?
    pub fn knows(&self, key: &str) -> (r: bool)
        ensures
            r == (is_core(key@) || declares(self@, key@)),
    {
        lookup(key).is_some() || self.position(key).is_some()
    }

    /// Register a subject's extension keys.
    ///
    /// Rejects an extension that shadows a core key, or that is not namespaced
    /// under its own subject; both would defeat the point of the split. A refusal
    /// registers nothing.
    pub fn extend(&mut self, subject: &str, keys: Vec<ExtKey>) -> (r: Result<(), TagError>)
        ensures
            verdict_of(r) == match first_fault(subject@, exts(keys@)) {
                Some(e) => Err::<(), TagErrorV>(e),
                None => Ok(()),
            },
            final(self)@ == if r is Ok {
                old(self)@ + exts(keys@)
            } else {
                old(self)@
            },
    {
        let mut prefix = namespace_of(subject).to_owned();
        prefix.append(".");
        let ghost list = exts(keys@);
        assert(list.skip(0) =~= list);
        let mut i: usize = 0;
        while i < keys.len()
            invariant
                i <= keys@.len(),
                list == exts(keys@),
                prefix@ == namespace(subject@) + "."@,
                first_fault(subject@, list) == first_fault(subject@, list.skip(i as int)),
            decreases keys@.len() - i,
        {
            assert(list.skip(i as int).drop_first() =~= list.skip(i + 1));
            assert(list.skip(i as int)[0] == keys@[i as int]@);
            if lookup(keys[i].key.as_str()).is_some() {
                let mut reason = "shadows the core key `".to_owned();
                reason.append(keys[i].key.as_str());
                reason.append("`");
                return Err(TagError::BadExtension { key: keys[i].key.clone(), reason });
            }
            if !starts_with(keys[i].key.as_str(), prefix.as_str()) {
                let mut reason = "must be namespaced under `".to_owned();
                reason.append(prefix.as_str());
                reason.append("`");
                return Err(TagError::BadExtension { key: keys[i].key.clone(), reason });
            }
            i = i + 1;
        }
        let mut more = keys;
        self.extensions.append(&mut more);
        assert(self@ =~= old(self)@ + list);
        Ok(())
    }

    /// Validate a key/value pair against core plus loaded extensions.
    pub fn validate(&self, key: &str, value: &TagValue) -> (r: Result<(), TagError>)
        ensures
            verdict_of(r) == vocabulary_verdict(self@, key@, value@),
    {
        if lookup(key).is_some() {
            return validate(key, value);
        }
        match self.position(key) {
            None => Err(TagError::UnknownKey(key.to_owned())),
            Some(i) => match &self.extensions[i].allowed {
                None => Ok(()),
                Some(allowed) => {
                    let rendered = value.to_string();
                    if holds(allowed, rendered.as_str()) {
                        Ok(())
                    } else {
                        Err(
                            TagError::NotAllowed {
                                key: key.to_owned(),
                                value: rendered,
                                allowed: copy_texts(allowed),
                            },
                        )
                    }
                },
            },
        }
    }
}

/// The namespace a subject's extension keys must sit under.
///
/// A subject named `kiddo_v6` namespaces as `kiddo.`: the version belongs in the
/// `impl` tag and the pinned ref, not baked into every extension key, or
/// `kiddo.stem` and `kiddo_v7.stem` would read as unrelated axes and split a chart
/// that should be continuous.
pub fn namespace_of(subject: &str) -> (r: &str)
    ensures
        r@ == namespace(subject@),
{
    match split_once(subject, '_') {
        None => subject,
        Some((head, tail)) => {
            let v = crate::text::chars(tail);
            if v.len() == 0 || v[0] != 'v' {
                return subject;
            }
            let mut i: usize = 1;
            while i < v.len()
                invariant
                    1 <= i <= v@.len(),
                    v@ == subject@.skip(find(subject@, '_') + 1),
                    forall|j: int| 1 <= j < i ==> is_digit(#[trigger] v@[j]),
                decreases v@.len() - i,
            {
                let c = v[i];
                if !('0' <= c && c <= '9') {
                    assert(!is_digit(subject@.skip(find(subject@, '_') + 1)[i as int]));
                    return subject;
                }
                i = i + 1;
            }
            head
        },
    }
}

// ---------------------------------------------------------------- laws

/// A registered extension key never stands in for a core key and always sits
/// under its subject's namespace.
pub proof fn extensions_stay_apart(subject: Seq<char>, list: Seq<ExtV>, i: int)
    requires
        first_fault(subject, list) is None,
        0 <= i < list.len(),
    ensures
        !is_core(list[i].key),
        (namespace(subject) + "."@).is_prefix_of(list[i].key),
    decreases list.len(),
{
    if i > 0 {
        extensions_stay_apart(subject, list.drop_first(), i - 1);
        assert(list.drop_first()[i - 1] == list[i]);
    }
}

/// The vocabulary is closed: a key that is neither core nor declared is refused,
/// whatever its value.
pub proof fn unknown_keys_are_refused(list: Seq<ExtV>, key: Seq<char>, value: TagV)
    ensures
        vocabulary_verdict(list, key, value) is Ok ==> is_core(key) || declares(list, key),
        !is_core(key) && !declares(list, key) ==> vocabulary_verdict(list, key, value) == Err::<
            (),
            TagErrorV,
        >(TagErrorV::UnknownKey(key)),
{
}

/// Versions of one subject share a namespace: a `_v<digits>` ending does not
/// count.
pub proof fn versions_share_a_namespace(name: Seq<char>, version: Seq<char>)
    requires
        !name.contains('_'),
        forall|i: int| 0 <= i < version.len() ==> is_digit(#[trigger] version[i]),
    ensures
        namespace(name + "_v"@ + version) == name,
        namespace(name) == name,
{
    reveal_strlit("_v");
    let subject = name + "_v"@ + version;
    assert(subject[name.len() as int] == '_');
    assert forall|j: int| 0 <= j < name.len() implies subject[j] != '_' by {
        assert(name.contains(name[j]));
    }
    crate::text::find_is(subject, '_', name.len() as int);
    let tail = subject.skip(name.len() as int + 1);
    assert(tail[0] == 'v');
    assert forall|i: int| 1 <= i < tail.len() implies is_digit(#[trigger] tail[i]) by {
        assert(tail[i] == version[i - 1]);
    }
    assert(subject.take(name.len() as int) =~= name);
    crate::text::find_bounds(name, '_');
}

/// Only the tree size is written in powers of two.
pub proof fn tree_size_is_written_in_powers()
    ensures
        writes_powers("tree_size"@),
{
    reveal_strlit("tree_size");
    reveal_strlit("impl");
    reveal_strlit("query");
    reveal_strlit("k");
    reveal_strlit("dims");
    reveal_strlit("axis");
    reveal_strlit("idx");
    reveal_strlit("metric");
    reveal_strlit("dataset");
    reveal_strlit("isa");
    reveal_strlit("parallelism");
    reveal_strlit("query_batching");
    reveal_strlit("defaults_or_tuned");
    reveal_with_fuel(first_def, 14);
    assert(core_keys()[12].key == "tree_size"@);
}

} // verus!
