//! Subject manifests: what `subjects/<name>/subject.toml` declares.
//!
//! Every subject is vendored, so this is the only way a case enters the catalog.
//! The format is data rather than a trait precisely because most subjects are
//! unwilling or unable to participate: the engine has to be able to describe
//! nanoflann without nanoflann's cooperation.
//!
//! Tables come as lists of entries in the order of their keys, each key once: the order
//! of cases, and with it their ids, follows from that.

use crate::tag::F64Ord;
use crate::text::{
    copy_option, copy_texts, debug_text, dec, decimal, option_text, quoted, text_lt, text_lt_transitive,
    texts,
};
use vstd::prelude::*;

verus! {

pub const MANIFEST_SCHEMA: u32 = 1;

/// A value of a manifest table.
#[derive(Debug)]
pub enum TomlValue {
    Text(String),
    Integer(i64),
    Float(F64Ord),
    Boolean(bool),
    /// A date, an array or a table, as it prints: no tag takes one.
    Other(String),
}

/// Where the subject comes from. The engine builds it, so it pins it.
#[derive(Debug)]
pub struct Source {
    pub kind: String,
    pub repo: Option<String>,
    /// The distribution name on PyPI, for `kind = "pypi"` subjects.
    pub package: Option<String>,
    /// Mandatory: results are only comparable over time if the exact built
    /// revision is recorded.
    pub pinned_ref: String,
    /// The exact commit the ref must resolve to. Git tags are mutable: a moved
    /// tag would otherwise compile different code under the same ref name. Declared
    /// here, the build refuses anything else.
    pub sha: Option<String>,
}

/// A [`Source`] by its contents.
pub struct SourceV {
    pub kind: Seq<char>,
    pub repo: Option<Seq<char>>,
    pub package: Option<Seq<char>>,
    pub pinned_ref: Seq<char>,
    pub sha: Option<Seq<char>>,
}

impl View for Source {
    type V = SourceV;

    open spec fn view(&self) -> SourceV {
        SourceV {
            kind: self.kind@,
            repo: option_text(self.repo),
            package: option_text(self.package),
            pinned_ref: self.pinned_ref@,
            sha: option_text(self.sha),
        }
    }
}

impl Clone for Source {
    fn clone(&self) -> (r: Self)
        ensures
            r@ == self@,
    {
        let r = Source {
            kind: self.kind.clone(),
            repo: copy_option(&self.repo),
            package: copy_option(&self.package),
            pinned_ref: self.pinned_ref.clone(),
            sha: copy_option(&self.sha),
        };
        r
    }
}

/// A library that a CMake build needs, pinned like the subject itself.
#[derive(Debug)]
pub struct CmakeDependency {
    pub name: String,
    pub repo: String,
    pub pinned_ref: String,
    pub sha: String,
    /// The CMake variable that names its checkout.
    pub cmake_var: String,
}

/// A [`CmakeDependency`] by its contents.
pub struct CmakeDependencyV {
    pub name: Seq<char>,
    pub repo: Seq<char>,
    pub pinned_ref: Seq<char>,
    pub sha: Seq<char>,
    pub cmake_var: Seq<char>,
}

impl View for CmakeDependency {
    type V = CmakeDependencyV;

    open spec fn view(&self) -> CmakeDependencyV {
        CmakeDependencyV {
            name: self.name@,
            repo: self.repo@,
            pinned_ref: self.pinned_ref@,
            sha: self.sha@,
            cmake_var: self.cmake_var@,
        }
    }
}

impl Clone for CmakeDependency {
    fn clone(&self) -> (r: Self)
        ensures
            r@ == self@,
    {
        let r = CmakeDependency {
            name: self.name.clone(),
            repo: self.repo.clone(),
            pinned_ref: self.pinned_ref.clone(),
            sha: self.sha.clone(),
            cmake_var: self.cmake_var.clone(),
        };
        r
    }
}

/// A deliberately small CMake recipe for a C++ subject source tree.
#[derive(Debug)]
pub struct CmakeBuild {
    /// Source directory relative to the fetched repository; defaults to its root.
    pub source_dir: Option<String>,
    /// Extra arguments passed to the configure step.
    pub configure: Vec<String>,
    /// Optional target to build. With no target, builds the default set.
    pub target: Option<String>,
    /// Header directories relative to the build directory for the shim.
    pub include_dirs: Vec<String>,
    /// Libraries relative to the build directory to pass directly to g++.
    pub libraries: Vec<String>,
    pub dependency: Vec<CmakeDependency>,
}

/// A [`CmakeBuild`] by its contents.
pub struct CmakeBuildV {
    pub source_dir: Option<Seq<char>>,
    pub configure: Seq<Seq<char>>,
    pub target: Option<Seq<char>>,
    pub include_dirs: Seq<Seq<char>>,
    pub libraries: Seq<Seq<char>>,
    pub dependency: Seq<CmakeDependencyV>,
}

impl View for CmakeBuild {
    type V = CmakeBuildV;

    open spec fn view(&self) -> CmakeBuildV {
        CmakeBuildV {
            source_dir: option_text(self.source_dir),
            configure: texts(self.configure@),
            target: option_text(self.target),
            include_dirs: texts(self.include_dirs@),
            libraries: texts(self.libraries@),
            dependency: Seq::new(self.dependency@.len(), |i: int| self.dependency@[i]@),
        }
    }
}

impl Clone for CmakeBuild {
    fn clone(&self) -> (r: Self)
        ensures
            r@ == self@,
    {
        let mut dependency: Vec<CmakeDependency> = Vec::new();
        let mut i: usize = 0;
        while i < self.dependency.len()
            invariant
                i <= self.dependency@.len(),
                dependency@.len() == i,
                forall|j: int| 0 <= j < i ==> (#[trigger] dependency@[j])@ == self.dependency@[j]@,
            decreases self.dependency@.len() - i,
        {
            dependency.push(self.dependency[i].clone());
            i = i + 1;
        }
        let r = CmakeBuild {
            source_dir: copy_option(&self.source_dir),
            configure: copy_texts(&self.configure),
            target: copy_option(&self.target),
            include_dirs: copy_texts(&self.include_dirs),
            libraries: copy_texts(&self.libraries),
            dependency,
        };
        assert(r@.dependency =~= self@.dependency);
        r
    }
}

/// How an exec driver is built.
#[derive(Debug)]
pub struct Build {
    pub kind: String,
    pub shim: Option<String>,
    pub std: Option<String>,
    pub flags: Vec<String>,
    /// Some libraries template their index on dimensionality, so the shim needs one
    /// specialisation per value and a runtime dispatch.
    pub compile_time_dims: Vec<u32>,
    /// Header directories, relative to the library source root.
    pub include_dirs: Vec<String>,
    /// Optional source build performed after the pinned checkout is fetched.
    pub cmake: Option<CmakeBuild>,
}

/// A [`Build`] by its contents.
pub struct BuildV {
    pub kind: Seq<char>,
    pub shim: Option<Seq<char>>,
    pub std: Option<Seq<char>>,
    pub flags: Seq<Seq<char>>,
    pub compile_time_dims: Seq<u32>,
    pub include_dirs: Seq<Seq<char>>,
    pub cmake: Option<CmakeBuildV>,
}

impl View for Build {
    type V = BuildV;

    open spec fn view(&self) -> BuildV {
        BuildV {
            kind: self.kind@,
            shim: option_text(self.shim),
            std: option_text(self.std),
            flags: texts(self.flags@),
            compile_time_dims: self.compile_time_dims@,
            include_dirs: texts(self.include_dirs@),
            cmake: match self.cmake {
                Some(x) => Some(x@),
                None => None,
            },
        }
    }
}

impl Clone for Build {
    fn clone(&self) -> (r: Self)
        ensures
            r@ == self@,
    {
        let mut compile_time_dims: Vec<u32> = Vec::new();
        let mut i: usize = 0;
        while i < self.compile_time_dims.len()
            invariant
                i <= self.compile_time_dims@.len(),
                compile_time_dims@ == self.compile_time_dims@.take(i as int),
            decreases self.compile_time_dims@.len() - i,
        {
            compile_time_dims.push(self.compile_time_dims[i]);
            i = i + 1;
        }
        assert(compile_time_dims@ =~= self.compile_time_dims@);
        let r = Build {
            kind: self.kind.clone(),
            shim: copy_option(&self.shim),
            std: copy_option(&self.std),
            flags: copy_texts(&self.flags),
            compile_time_dims,
            include_dirs: copy_texts(&self.include_dirs),
            cmake: match &self.cmake {
                Some(x) => Some(x.clone()),
                None => None,
            },
        };
        r
    }
}

#[derive(Debug)]
pub struct Driver {
    /// Names the driver within the subject; cases reference it.
    pub name: String,
    /// Lowest library version this driver understands, inclusive. Absent: no lower
    /// bound.
    pub min_supported_semver: Option<String>,
    /// Highest library version this driver understands, exclusive. Absent: no upper
    /// bound.
    pub max_supported_semver: Option<String>,
    /// `exec` for a single-phase driver, `rust-codegen` for a two-phase one.
    pub adapter: String,
    /// Crate providing the driver; rust-codegen only.
    pub crate_name: Option<String>,
    /// Exec only: the driver's language, `cxx` or `python`.
    pub lang: Option<String>,
    /// Exec only: the driver's entry file, relative to this manifest's directory.
    pub entry: Option<String>,
    /// Where the driver's assets live, relative to this manifest's directory. When
    /// set and present, it wins over the engine's own crates and the registry.
    pub path: Option<String>,
    /// Published version of that crate, used when the binary has no engine source
    /// tree to depend on by path.
    pub version: Option<String>,
    /// Cargo features the subject is built with.
    pub features: Vec<String>,
    /// RUSTFLAGS the driver needs. Part of the build cache key.
    pub rustflags: Option<String>,
    /// Two-phase only: the macro a generated program invokes, once per selected
    /// compile-time combination.
    pub macro_name: Option<String>,
    /// Core keys that are generic parameters for this subject.
    pub compile_time: Vec<String>,
}

#[derive(Debug)]
pub struct Toolchain {
    pub min_rustc: Option<String>,
}

#[derive(Debug)]
pub struct VocabKey {
    pub values: Option<Vec<String>>,
    pub kind: Option<String>,
    /// A generic parameter: each value is a separate monomorphisation, so it drives
    /// two-phase code generation. Unmarked keys are runtime arguments and cost
    /// nothing to add to a sweep.
    pub compile_time: bool,
}

#[derive(Debug)]
pub struct ParamDecl {
    /// `"2^16..2^25"`
    pub range: Option<String>,
    pub kind: Option<String>,
    pub default: Option<TomlValue>,
    pub values: Vec<TomlValue>,
}

/// The entries of a table: in ascending order of their keys, each key once.
pub open spec fn is_table<T>(entries: Seq<(String, T)>) -> bool {
    forall|i: int, j: int|
        0 <= i < j < entries.len() ==> text_lt(
            (#[trigger] entries[i]).0@,
            (#[trigger] entries[j]).0@,
        )
}

/// Do the keys ascend?
fn keys_ascend<T>(entries: &Vec<(String, T)>) -> (r: bool)
    ensures
        r == is_table(entries@),
{
    let mut i: usize = 1;
    while i < entries.len()
        invariant
            1 <= i,
            i <= entries@.len() || entries@.len() == 0,
            entries@.len() > 0 ==> is_table(entries@.take(i as int)),
        decreases entries@.len() - i,
    {
        let head = &entries[i - 1];
        let next = &entries[i];
        if !crate::text::before(head.0.as_str(), next.0.as_str()) {
            assert(!is_table(entries@)) by {
                if is_table(entries@) {
                    assert(text_lt(entries@[i - 1].0@, entries@[i as int].0@));
                }
            }
            return false;
        }
        proof {
            let t = entries@.take(i as int);
            let more = entries@.take(i + 1);
            assert forall|a: int, b: int| 0 <= a < b < more.len() implies text_lt(
                (#[trigger] more[a]).0@,
                (#[trigger] more[b]).0@,
            ) by {
                if b < i {
                    assert(text_lt(t[a].0@, t[b].0@));
                } else if a < i - 1 {
                    assert(text_lt(t[a].0@, t[i - 1].0@));
                    text_lt_transitive(t[a].0@, t[i - 1].0@, more[b].0@);
                }
            }
        }
        i = i + 1;
    }
    proof {
        if entries@.len() > 0 {
            assert(entries@.take(i as int) =~= entries@);
        }
    }
    true
}

#[derive(Debug)]
pub struct CaseDecl {
    pub runners: Vec<String>,
    /// Expands this declaration into one case per combination: the sweep is data.
    pub matrix: Vec<(String, Vec<TomlValue>)>,
    pub tags: Vec<(String, TomlValue)>,
    pub params: Vec<(String, ParamDecl)>,
    /// Which driver block this case runs under. Required once the manifest declares
    /// more than one driver; with a single driver it may be omitted.
    pub driver: Option<String>,
}

#[derive(Debug)]
pub struct Manifest {
    pub schema: u32,
    /// Subject name; must equal the `impl` tag of every case it declares.
    pub name: String,
    /// Which domain's core vocabulary this subject's cases are written against.
    pub domain: String,
    pub source: Source,
    /// Lowest rustc this subject builds with. The engine resolves a run's single
    /// toolchain as the highest floor among selected subjects, so a subject states
    /// a floor rather than pinning one.
    pub toolchain: Option<Toolchain>,
    pub build: Option<Build>,
    /// How this subject's driver is built and run. A subject may declare several,
    /// each scoped to a version range of the library under test.
    pub drivers: Vec<Driver>,
    /// Extension keys, namespaced under the subject on use (`kiddo.stem`).
    pub vocab: Vec<(String, VocabKey)>,
    /// The out-of-the-box configuration of the pinned library version: the tag
    /// values its own quick-start entry point produces. The runner labels each case
    /// `defaults_or_tuned = default` when every key here matches the case's tags,
    /// `tuned` when any differs. The label is computed, never declared.
    pub defaults: Vec<(String, TomlValue)>,
    pub cases: Vec<CaseDecl>,
}

impl CaseDecl {
    /// What the declaration lists are tables.
    pub open spec fn in_order(self) -> bool {
        is_table(self.matrix@) && is_table(self.tags@) && is_table(self.params@)
    }

    /// Is what the declaration lists in the order of a table?
    pub fn is_in_order(&self) -> (r: bool)
        ensures
            r == self.in_order(),
    {
        keys_ascend(&self.matrix) && keys_ascend(&self.tags) && keys_ascend(&self.params)
    }
}

impl Manifest {
    /// What the manifest lists are tables.
    pub open spec fn in_order(self) -> bool {
        &&& is_table(self.vocab@)
        &&& is_table(self.defaults@)
        &&& forall|i: int| 0 <= i < self.cases@.len() ==> (#[trigger] self.cases@[i]).in_order()
    }

    /// Is what the manifest lists in the order of a table? A manifest that was read from
    /// a file is.
    pub fn is_in_order(&self) -> (r: bool)
        ensures
            r == self.in_order(),
    {
        if !keys_ascend(&self.vocab) || !keys_ascend(&self.defaults) {
            return false;
        }
        let mut i: usize = 0;
        while i < self.cases.len()
            invariant
                i <= self.cases@.len(),
                forall|j: int| 0 <= j < i ==> (#[trigger] self.cases@[j]).in_order(),
            decreases self.cases@.len() - i,
        {
            if !self.cases[i].is_in_order() {
                return false;
            }
            i = i + 1;
        }
        true
    }
}

#[allow(inconsistent_fields)]
#[derive(Debug, PartialEq, Eq)]
pub enum ManifestError {
    Io { path: String, err: String },
    Toml { path: String, err: String },
    /// Refuses to guess at a format it does not know.
    UnsupportedSchema { path: String, found: u32 },
    /// A case whose `impl` tag disagrees with the manifest name; that would let one
    /// subject declare cases attributed to another.
    ImplMismatch { subject: String, found: String },
    UnknownKey { subject: String, key: String },
    /// An extension key not namespaced under its own subject.
    BadNamespace { subject: String, key: String },
    MissingPin { subject: String },
    /// A domain no build of the engine knows.
    UnknownDomain { subject: String, domain: String },
    /// An explicit toolchain below some selected subject's floor. Refused rather than
    /// dropping the subject: a comparison quietly missing a contender is worse than one
    /// that will not start.
    ToolchainBelowFloor { subject: String, floor: String, pinned: String },
    /// An `adapter` this engine does not know.
    UnknownAdapter { subject: String, found: String },
    /// A source `kind` this engine does not build.
    UnknownSourceKind { subject: String, found: String },
    /// A case's tag violates the vocabulary: unknown key, or a value the key does not
    /// allow. The message names the remedy.
    Vocab { subject: String, message: String },
    /// A tag value the selector language cannot express, or that would not mean itself
    /// when parsed back.
    BadSelectorValue { subject: String, key: String, value: String, why: String },
    /// A declared `sha` that is not a full commit id. Anything shorter would silently
    /// weaken the pin to a prefix match.
    BadSha { subject: String, found: String },
}

/// A [`ManifestError`] by its contents.
#[allow(inconsistent_fields)]
pub enum ManifestErrorV {
    Io { path: Seq<char>, err: Seq<char> },
    Toml { path: Seq<char>, err: Seq<char> },
    UnsupportedSchema { path: Seq<char>, found: u32 },
    ImplMismatch { subject: Seq<char>, found: Seq<char> },
    UnknownKey { subject: Seq<char>, key: Seq<char> },
    BadNamespace { subject: Seq<char>, key: Seq<char> },
    MissingPin { subject: Seq<char> },
    UnknownDomain { subject: Seq<char>, domain: Seq<char> },
    ToolchainBelowFloor { subject: Seq<char>, floor: Seq<char>, pinned: Seq<char> },
    UnknownAdapter { subject: Seq<char>, found: Seq<char> },
    UnknownSourceKind { subject: Seq<char>, found: Seq<char> },
    Vocab { subject: Seq<char>, message: Seq<char> },
    BadSelectorValue { subject: Seq<char>, key: Seq<char>, value: Seq<char>, why: Seq<char> },
    BadSha { subject: Seq<char>, found: Seq<char> },
}

impl View for ManifestError {
    type V = ManifestErrorV;

    open spec fn view(&self) -> ManifestErrorV {
        match self {
            ManifestError::Io { path, err } => ManifestErrorV::Io { path: path@, err: err@ },
            ManifestError::Toml { path, err } => ManifestErrorV::Toml { path: path@, err: err@ },
            ManifestError::UnsupportedSchema { path, found } => ManifestErrorV::UnsupportedSchema { path: path@, found: *found },
            ManifestError::ImplMismatch { subject, found } => ManifestErrorV::ImplMismatch { subject: subject@, found: found@ },
            ManifestError::UnknownKey { subject, key } => ManifestErrorV::UnknownKey { subject: subject@, key: key@ },
            ManifestError::BadNamespace { subject, key } => ManifestErrorV::BadNamespace { subject: subject@, key: key@ },
            ManifestError::MissingPin { subject } => ManifestErrorV::MissingPin { subject: subject@ },
            ManifestError::UnknownDomain { subject, domain } => ManifestErrorV::UnknownDomain { subject: subject@, domain: domain@ },
            ManifestError::ToolchainBelowFloor { subject, floor, pinned } => ManifestErrorV::ToolchainBelowFloor { subject: subject@, floor: floor@, pinned: pinned@ },
            ManifestError::UnknownAdapter { subject, found } => ManifestErrorV::UnknownAdapter { subject: subject@, found: found@ },
            ManifestError::UnknownSourceKind { subject, found } => ManifestErrorV::UnknownSourceKind { subject: subject@, found: found@ },
            ManifestError::Vocab { subject, message } => ManifestErrorV::Vocab { subject: subject@, message: message@ },
            ManifestError::BadSelectorValue { subject, key, value, why } => ManifestErrorV::BadSelectorValue { subject: subject@, key: key@, value: value@, why: why@ },
            ManifestError::BadSha { subject, found } => ManifestErrorV::BadSha { subject: subject@, found: found@ },
        }
    }
}

/// How an error of a manifest is written.
pub open spec fn manifest_error_text(e: ManifestErrorV) -> Seq<char> {
    match e {
        ManifestErrorV::Io { path, err } => "Io { path: "@ + debug_text(path) + ", err: "@ + debug_text(err) + " }"@,
        ManifestErrorV::Toml { path, err } => "Toml { path: "@ + debug_text(path) + ", err: "@ + debug_text(err) + " }"@,
        ManifestErrorV::UnsupportedSchema { path, found } => "UnsupportedSchema { path: "@ + debug_text(path) + ", found: "@ + dec(found as nat) + " }"@,
        ManifestErrorV::ImplMismatch { subject, found } => "ImplMismatch { subject: "@ + debug_text(subject) + ", found: "@ + debug_text(found) + " }"@,
        ManifestErrorV::UnknownKey { subject, key } => "UnknownKey { subject: "@ + debug_text(subject) + ", key: "@ + debug_text(key) + " }"@,
        ManifestErrorV::BadNamespace { subject, key } => "BadNamespace { subject: "@ + debug_text(subject) + ", key: "@ + debug_text(key) + " }"@,
        ManifestErrorV::MissingPin { subject } => "MissingPin { subject: "@ + debug_text(subject) + " }"@,
        ManifestErrorV::UnknownDomain { subject, domain } => "UnknownDomain { subject: "@ + debug_text(subject) + ", domain: "@ + debug_text(domain) + " }"@,
        ManifestErrorV::ToolchainBelowFloor { subject, floor, pinned } => "ToolchainBelowFloor { subject: "@ + debug_text(subject) + ", floor: "@ + debug_text(floor) + ", pinned: "@ + debug_text(pinned) + " }"@,
        ManifestErrorV::UnknownAdapter { subject, found } => "UnknownAdapter { subject: "@ + debug_text(subject) + ", found: "@ + debug_text(found) + " }"@,
        ManifestErrorV::UnknownSourceKind { subject, found } => "UnknownSourceKind { subject: "@ + debug_text(subject) + ", found: "@ + debug_text(found) + " }"@,
        ManifestErrorV::Vocab { subject, message } => "Vocab { subject: "@ + debug_text(subject) + ", message: "@ + debug_text(message) + " }"@,
        ManifestErrorV::BadSelectorValue { subject, key, value, why } => "BadSelectorValue { subject: "@ + debug_text(subject) + ", key: "@ + debug_text(key) + ", value: "@ + debug_text(value) + ", why: "@ + debug_text(why) + " }"@,
        ManifestErrorV::BadSha { subject, found } => "BadSha { subject: "@ + debug_text(subject) + ", found: "@ + debug_text(found) + " }"@,
    }
}

impl ManifestError {
    pub fn to_string(&self) -> (r: String)
        ensures
            r@ == manifest_error_text(self@),
    {
        match self {
            ManifestError::Io { path, err } => {
                let mut s = "Io { path: ".to_owned();
                s.append(quoted(path.as_str()).as_str());
                s.append(", err: ");
                s.append(quoted(err.as_str()).as_str());
                s.append(" }");
                s
            },
            ManifestError::Toml { path, err } => {
                let mut s = "Toml { path: ".to_owned();
                s.append(quoted(path.as_str()).as_str());
                s.append(", err: ");
                s.append(quoted(err.as_str()).as_str());
                s.append(" }");
                s
            },
            ManifestError::UnsupportedSchema { path, found } => {
                let mut s = "UnsupportedSchema { path: ".to_owned();
                s.append(quoted(path.as_str()).as_str());
                s.append(", found: ");
                s.append(decimal(*found as u64).as_str());
                s.append(" }");
                s
            },
            ManifestError::ImplMismatch { subject, found } => {
                let mut s = "ImplMismatch { subject: ".to_owned();
                s.append(quoted(subject.as_str()).as_str());
                s.append(", found: ");
                s.append(quoted(found.as_str()).as_str());
                s.append(" }");
                s
            },
            ManifestError::UnknownKey { subject, key } => {
                let mut s = "UnknownKey { subject: ".to_owned();
                s.append(quoted(subject.as_str()).as_str());
                s.append(", key: ");
                s.append(quoted(key.as_str()).as_str());
                s.append(" }");
                s
            },
            ManifestError::BadNamespace { subject, key } => {
                let mut s = "BadNamespace { subject: ".to_owned();
                s.append(quoted(subject.as_str()).as_str());
                s.append(", key: ");
                s.append(quoted(key.as_str()).as_str());
                s.append(" }");
                s
            },
            ManifestError::MissingPin { subject } => {
                let mut s = "MissingPin { subject: ".to_owned();
                s.append(quoted(subject.as_str()).as_str());
                s.append(" }");
                s
            },
            ManifestError::UnknownDomain { subject, domain } => {
                let mut s = "UnknownDomain { subject: ".to_owned();
                s.append(quoted(subject.as_str()).as_str());
                s.append(", domain: ");
                s.append(quoted(domain.as_str()).as_str());
                s.append(" }");
                s
            },
            ManifestError::ToolchainBelowFloor { subject, floor, pinned } => {
                let mut s = "ToolchainBelowFloor { subject: ".to_owned();
                s.append(quoted(subject.as_str()).as_str());
                s.append(", floor: ");
                s.append(quoted(floor.as_str()).as_str());
                s.append(", pinned: ");
                s.append(quoted(pinned.as_str()).as_str());
                s.append(" }");
                s
            },
            ManifestError::UnknownAdapter { subject, found } => {
                let mut s = "UnknownAdapter { subject: ".to_owned();
                s.append(quoted(subject.as_str()).as_str());
                s.append(", found: ");
                s.append(quoted(found.as_str()).as_str());
                s.append(" }");
                s
            },
            ManifestError::UnknownSourceKind { subject, found } => {
                let mut s = "UnknownSourceKind { subject: ".to_owned();
                s.append(quoted(subject.as_str()).as_str());
                s.append(", found: ");
                s.append(quoted(found.as_str()).as_str());
                s.append(" }");
                s
            },
            ManifestError::Vocab { subject, message } => {
                let mut s = "Vocab { subject: ".to_owned();
                s.append(quoted(subject.as_str()).as_str());
                s.append(", message: ");
                s.append(quoted(message.as_str()).as_str());
                s.append(" }");
                s
            },
            ManifestError::BadSelectorValue { subject, key, value, why } => {
                let mut s = "BadSelectorValue { subject: ".to_owned();
                s.append(quoted(subject.as_str()).as_str());
                s.append(", key: ");
                s.append(quoted(key.as_str()).as_str());
                s.append(", value: ");
                s.append(quoted(value.as_str()).as_str());
                s.append(", why: ");
                s.append(quoted(why.as_str()).as_str());
                s.append(" }");
                s
            },
            ManifestError::BadSha { subject, found } => {
                let mut s = "BadSha { subject: ".to_owned();
                s.append(quoted(subject.as_str()).as_str());
                s.append(", found: ");
                s.append(quoted(found.as_str()).as_str());
                s.append(" }");
                s
            },
        }
    }
}

} // verus!
