//! Materialising and building a generated driver.
//!
//! A generated program needs a package around it: one that depends on the engine's
//! driver crate and on the library under test. The driver crate itself carries no
//! dependency on any subject, which is what lets a build be pointed at a pinned ref
//! or a working tree without anything hardcoding a path.

use crate::data::{get_text, parse_toml, toml_document, views, Data, DataV};
use crate::paths::{joined_path, path_join};
use crate::text::{
    chars, copy_option, copy_texts, debug_list, debug_text, dec_int, decimal_signed, option_text, quoted,
    quoted_list, same, texts,
};
use crate::toolchain::{cargo, cargo_line, Version};
use vstd::prelude::*;

verus! {

/// Where a subject's source comes from for one build.
#[derive(Debug)]
pub enum SubjectSource {
    /// A working tree. Results are marked as such: they record a checkout, not a
    /// revision, so the dataset can reject them.
    Path(String),
    Git { repo: String, reference: String },
}

/// Where the engine's driver crate comes from for one build.
///
/// Running from a source checkout: depend by path, so driver-crate edits are picked
/// up on the next run. An installed binary with no reachable tree: depend on the
/// published crate.
#[derive(Debug)]
pub enum DriverSource {
    Path(String),
    Registry { version: String },
}

/// A [`SubjectSource`] by its contents.
pub enum SubjectSourceV {
    Path(Seq<char>),
    Git { repo: Seq<char>, reference: Seq<char> },
}

/// A [`DriverSource`] by its contents.
pub enum DriverSourceV {
    Path(Seq<char>),
    Registry { version: Seq<char> },
}

impl View for SubjectSource {
    type V = SubjectSourceV;

    open spec fn view(&self) -> SubjectSourceV {
        match self {
            SubjectSource::Path(p) => SubjectSourceV::Path(p@),
            SubjectSource::Git { repo, reference } => SubjectSourceV::Git {
                repo: repo@,
                reference: reference@,
            },
        }
    }
}

impl View for DriverSource {
    type V = DriverSourceV;

    open spec fn view(&self) -> DriverSourceV {
        match self {
            DriverSource::Path(p) => DriverSourceV::Path(p@),
            DriverSource::Registry { version } => DriverSourceV::Registry { version: version@ },
        }
    }
}

impl Clone for SubjectSource {
    fn clone(&self) -> (r: Self)
        ensures
            r@ == self@,
    {
        match self {
            SubjectSource::Path(p) => SubjectSource::Path(p.clone()),
            SubjectSource::Git { repo, reference } => SubjectSource::Git {
                repo: repo.clone(),
                reference: reference.clone(),
            },
        }
    }
}

impl Clone for DriverSource {
    fn clone(&self) -> (r: Self)
        ensures
            r@ == self@,
    {
        match self {
            DriverSource::Path(p) => DriverSource::Path(p.clone()),
            DriverSource::Registry { version } => DriverSource::Registry {
                version: version.clone(),
            },
        }
    }
}

/// A generated driver program.
#[derive(Debug)]
pub struct Generated {
    pub source: String,
    /// Identifies everything the build depends on.
    pub cache_key: String,
    /// How many monomorphisations the selection needs.
    pub combinations: usize,
}

/// A [`Generated`] by its contents.
pub struct GeneratedV {
    pub source: Seq<char>,
    pub cache_key: Seq<char>,
    pub combinations: usize,
}

impl View for Generated {
    type V = GeneratedV;

    open spec fn view(&self) -> GeneratedV {
        GeneratedV {
            source: self.source@,
            cache_key: self.cache_key@,
            combinations: self.combinations,
        }
    }
}

impl Clone for Generated {
    fn clone(&self) -> (r: Self)
        ensures
            r@ == self@,
    {
        let r = Generated {
            source: self.source.clone(),
            cache_key: self.cache_key.clone(),
            combinations: self.combinations,
        };
        r
    }
}

/// Everything the package of one generated driver is made from.
#[derive(Debug)]
pub struct BuildRequest {
    pub subject: String,
    /// Engine crate providing the macro and harness runtime.
    pub driver_crate: String,
    pub driver_source: DriverSource,
    /// The engine checkout to patch the driver crate's own dependencies to. `None`:
    /// no patch; registry versions stand.
    pub engine_root: Option<String>,
    pub subject_crate: String,
    pub subject_source: SubjectSource,
    pub features: Vec<String>,
    pub rustflags: Option<String>,
    pub generated: Generated,
}

/// A [`BuildRequest`] by its contents.
pub struct BuildRequestV {
    pub subject: Seq<char>,
    pub driver_crate: Seq<char>,
    pub driver_source: DriverSourceV,
    pub engine_root: Option<Seq<char>>,
    pub subject_crate: Seq<char>,
    pub subject_source: SubjectSourceV,
    pub features: Seq<Seq<char>>,
    pub rustflags: Option<Seq<char>>,
    pub generated: GeneratedV,
}

impl View for BuildRequest {
    type V = BuildRequestV;

    open spec fn view(&self) -> BuildRequestV {
        BuildRequestV {
            subject: self.subject@,
            driver_crate: self.driver_crate@,
            driver_source: self.driver_source@,
            engine_root: option_text(self.engine_root),
            subject_crate: self.subject_crate@,
            subject_source: self.subject_source@,
            features: texts(self.features@),
            rustflags: option_text(self.rustflags),
            generated: self.generated@,
        }
    }
}

impl Clone for BuildRequest {
    fn clone(&self) -> (r: Self)
        ensures
            r@ == self@,
    {
        let r = BuildRequest {
            subject: self.subject.clone(),
            driver_crate: self.driver_crate.clone(),
            driver_source: self.driver_source.clone(),
            engine_root: copy_option(&self.engine_root),
            subject_crate: self.subject_crate.clone(),
            subject_source: self.subject_source.clone(),
            features: copy_texts(&self.features),
            rustflags: copy_option(&self.rustflags),
            generated: self.generated.clone(),
        };
        r
    }
}

// ---------------------------------------------------------------- pins and paths

pub open spec fn is_hex(c: char) -> bool {
    '0' <= c <= '9' || 'a' <= c <= 'f' || 'A' <= c <= 'F'
}

/// Forty or more hexadecimal digits.
pub open spec fn commit_id(s: Seq<char>) -> bool {
    s.len() >= 40 && forall|i: int| 0 <= i < s.len() ==> is_hex(#[trigger] s[i])
}

/// A 40+ hex-character reference is a commit id; anything else (v6.0.0-alpha.4,
/// main, a short sha) is a ref name.
pub fn is_commit_id(reference: &str) -> (r: bool)
    ensures
        r == commit_id(reference@),
{
    let v = chars(reference);
    let mut i: usize = 0;
    while i < v.len()
        invariant
            i <= v@.len(),
            v@ == reference@,
            forall|j: int| 0 <= j < i ==> is_hex(#[trigger] v@[j]),
        decreases v@.len() - i,
    {
        let c = v[i];
        let hex = ('0' <= c && c <= '9') || ('a' <= c && c <= 'f') || ('A' <= c && c <= 'F');
        if !hex {
            assert(!is_hex(v@[i as int]));
            return false;
        }
        i = i + 1;
    }
    v.len() >= 40
}

/// No quote, backslash or line break.
pub open spec fn toml_safe(s: Seq<char>) -> bool {
    !s.contains('"') && !s.contains('\\') && !s.contains('\n') && !s.contains('\r')
}

/// True when a path can be put into a generated manifest without corrupting it. The
/// generated manifest is text, so a quote, backslash or newline in a path would
/// break keys.
pub fn toml_safe_path(path: &str) -> (r: bool)
    ensures
        r == toml_safe(path@),
{
    let v = chars(path);
    let mut i: usize = 0;
    while i < v.len()
        invariant
            i <= v@.len(),
            v@ == path@,
            forall|j: int|
                0 <= j < i ==> v@[j] != '"' && v@[j] != '\\' && v@[j] != '\n' && v@[j] != '\r',
        decreases v@.len() - i,
    {
        let c = v[i];
        if c == '"' || c == '\\' || c == '\n' || c == '\r' {
            assert(path@.contains(v@[i as int]));
            return false;
        }
        i = i + 1;
    }
    true
}

// ---------------------------------------------------------------- the package

/// The dependency line of the subject.
pub open spec fn subject_dependency(source: SubjectSourceV, features: Seq<Seq<char>>) -> Seq<char> {
    match source {
        SubjectSourceV::Path(p) => "{ path = "@ + debug_text(p) + ", features = "@ + debug_list(
            features,
        ) + " }"@,
        SubjectSourceV::Git { repo, reference } => "{ git = "@ + debug_text(repo) + (if commit_id(
            reference,
        ) {
            ", rev = "@
        } else {
            ", tag = "@
        }) + debug_text(reference) + ", features = "@ + debug_list(features) + " }"@,
    }
}

/// The dependency line of the driver crate.
pub open spec fn driver_dependency(source: DriverSourceV) -> Seq<char> {
    match source {
        DriverSourceV::Path(p) => "{ path = "@ + debug_text(p) + " }"@,
        DriverSourceV::Registry { version } => "\""@ + version + "\""@,
    }
}

/// The table that redirects the driver's own dependencies to an engine checkout.
pub open spec fn patch_table(root: Option<Seq<char>>) -> Seq<char> {
    match root {
        Some(root) => PATCH_HEAD@ + debug_text(path_join(root, "crates/spatial-bench-core"@))
            + " }\nspatial-bench-measure = { path = "@ + debug_text(
            path_join(root, "crates/spatial-bench-measure"@),
        ) + " }\n"@,
        None => ""@,
    }
}

pub const PATCH_HEAD: &'static str = "\n# The engine checkout this run was built from: the driver's version # deps on core + measure resolve here instead of the registry.\n[patch.crates-io]\nspatial-bench-core = { path = ";

pub const MANIFEST_HEAD: &'static str = "# Generated by spatial-bench. Do not edit; this whole directory is output.\n[package]\nname = \"spatial-bench-generated\"\nversion = \"0.0.0\"\nedition = \"2021\"\npublish = false\n\n[[bin]]\nname = \"driver\"\npath = \"src/main.rs\"\n\n[dependencies]\n";

pub const MANIFEST_TAIL: &'static str = "\n\n[profile.release]\n# Benchmarks are meaningless below the optimisation level they ship at.\nopt-level = 3\ndebug = true\n\n# Standalone, even if this directory lands inside a cargo workspace: a\n# non-member package under a workspace root is a build error otherwise.\n# Standalone, even if this directory lands inside a cargo workspace: a\n         # non-member package under a workspace root is a build error otherwise.\n         [workspace]\n";

/// The manifest of the generated package. `patched` names the engine checkout when
/// it holds the crates to redirect to.
pub open spec fn package_manifest(r: BuildRequestV, patched: Option<Seq<char>>) -> Seq<char> {
    MANIFEST_HEAD@ + r.driver_crate + " = "@ + driver_dependency(r.driver_source) + "\n"@
        + r.subject_crate + " = "@ + subject_dependency(r.subject_source, r.features)
        + MANIFEST_TAIL@ + patch_table(patched)
}

/// Where the package of a generated driver stands: keyed by the cache key, so an
/// identical selection reuses a directory and cargo's own incremental state.
pub open spec fn package_dir(root: Seq<char>, subject: Seq<char>, cache_key: Seq<char>) -> Seq<char> {
    path_join(path_join(root, subject), cache_key)
}

/// A generated package: its directory and the contents of its files.
#[derive(Debug)]
pub struct Package {
    pub dir: String,
    pub manifest: String,
    pub main: String,
}

fn subject_line(source: &SubjectSource, features: &Vec<String>) -> (r: String)
    ensures
        r@ == subject_dependency(source@, texts(features@)),
{
    match source {
        SubjectSource::Path(p) => {
            let mut s = "{ path = ".to_owned();
            s.append(quoted(p.as_str()).as_str());
            s.append(", features = ");
            s.append(quoted_list(features).as_str());
            s.append(" }");
            s
        },
        SubjectSource::Git { repo, reference } => {
            let mut s = "{ git = ".to_owned();
            s.append(quoted(repo.as_str()).as_str());
            // A tag unless the pin is a full commit id: naming a tag as a tag keeps
            // the lockfile, and therefore the provenance trail, saying what was
            // meant.
            if is_commit_id(reference.as_str()) {
                s.append(", rev = ");
            } else {
                s.append(", tag = ");
            }
            s.append(quoted(reference.as_str()).as_str());
            s.append(", features = ");
            s.append(quoted_list(features).as_str());
            s.append(" }");
            s
        },
    }
}

fn driver_line(source: &DriverSource) -> (r: String)
    ensures
        r@ == driver_dependency(source@),
{
    match source {
        DriverSource::Path(p) => {
            let mut s = "{ path = ".to_owned();
            s.append(quoted(p.as_str()).as_str());
            s.append(" }");
            s
        },
        DriverSource::Registry { version } => {
            let mut s = "\"".to_owned();
            s.append(version.as_str());
            s.append("\"");
            s
        },
    }
}

fn patch_lines(root: &Option<String>) -> (r: String)
    ensures
        r@ == patch_table(option_text(*root)),
{
    match root {
        Some(root) => {
            let mut s = PATCH_HEAD.to_owned();
            s.append(
                quoted(joined_path(root.as_str(), "crates/spatial-bench-core").as_str()).as_str(),
            );
            s.append(" }\nspatial-bench-measure = { path = ");
            s.append(
                quoted(joined_path(root.as_str(), "crates/spatial-bench-measure").as_str()).as_str(),
            );
            s.append(" }\n");
            s
        },
        None => "".to_owned(),
    }
}

/// The package for a generated driver: its directory and the contents of its
/// files. `has_engine` says whether the engine checkout holds the crates that the
/// driver's own dependencies can be redirected to.
///
/// Paths and manifest strings stand in the generated manifest as values. Subject
/// paths are validated through [`toml_safe_path`]; manifest fields are trusted
/// engine content.
pub fn materialise(root: &str, request: &BuildRequest, has_engine: bool) -> (r: Package)
    ensures
        r.dir@ == package_dir(root@, request.subject@, request.generated.cache_key@),
        r.manifest@ == package_manifest(
            request@,
            if has_engine {
                request@.engine_root
            } else {
                None
            },
        ),
        r.main@ == request.generated.source@,
{
    let dir = joined_path(
        joined_path(root, request.subject.as_str()).as_str(),
        request.generated.cache_key.as_str(),
    );
    let mut m = MANIFEST_HEAD.to_owned();
    m.append(request.driver_crate.as_str());
    m.append(" = ");
    m.append(driver_line(&request.driver_source).as_str());
    m.append("\n");
    m.append(request.subject_crate.as_str());
    m.append(" = ");
    m.append(subject_line(&request.subject_source, &request.features).as_str());
    m.append(MANIFEST_TAIL);
    let patched = if has_engine {
        copy_option(&request.engine_root)
    } else {
        None
    };
    m.append(patch_lines(&patched).as_str());
    Package { dir, manifest: m, main: request.generated.source.clone() }
}

/// Must a file be written? Only one whose content differs, so an unchanged file
/// keeps its time stamp and a cached build stays cached.
pub fn write_if_changed(existing: Option<&str>, content: &str) -> (r: bool)
    ensures
        r == !(existing matches Some(e) && e@ == content@),
{
    match existing {
        Some(e) => !same(e, content),
        None => true,
    }
}

// ---------------------------------------------------------------- what was built

/// What stands behind the last `#`.
pub open spec fn after_last_hash(s: Seq<char>) -> Option<Seq<char>>
    decreases s.len(),
{
    if s.len() == 0 {
        None
    } else if s.last() == '#' {
        Some(Seq::empty())
    } else {
        match after_last_hash(s.drop_last()) {
            Some(t) => Some(t.push(s.last())),
            None => None,
        }
    }
}

/// The version and the revision of the first package of this name.
pub open spec fn locked(packages: Seq<DataV>, name: Seq<char>) -> Option<
    (Seq<char>, Option<Seq<char>>),
>
    decreases packages.len(),
{
    if packages.len() == 0 {
        None
    } else if get_text(Some(packages[0]), "name"@) == Some(name) {
        match get_text(Some(packages[0]), "version"@) {
            Some(v) => Some(
                (
                    v,
                    match get_text(Some(packages[0]), "source"@) {
                        Some(s) => after_last_hash(s),
                        None => None,
                    },
                ),
            ),
            None => None,
        }
    } else {
        locked(packages.drop_first(), name)
    }
}

/// What a lockfile, read as TOML, says of a crate.
pub open spec fn locked_in(lock: Option<DataV>, name: Seq<char>) -> Option<
    (Seq<char>, Option<Seq<char>>),
> {
    match lock {
        Some(document) => match document.get("package"@) {
            Some(packages) => match packages.as_list() {
                Some(list) => locked(list, name),
                None => None,
            },
            None => None,
        },
        None => None,
    }
}

pub open spec fn locked_text(r: Option<(String, Option<String>)>) -> Option<
    (Seq<char>, Option<Seq<char>>),
> {
    match r {
        Some(p) => Some((p.0@, option_text(p.1))),
        None => None,
    }
}

fn revision_in(source: &str) -> (r: Option<String>)
    ensures
        option_text(r) == after_last_hash(source@),
{
    let v = chars(source);
    let n: usize = v.len();
    let mut i: usize = n;
    assert(v@.take(n as int) =~= v@);
    while i > 0
        invariant
            i <= n == v@.len(),
            v@ == source@,
            after_last_hash(source@) == match after_last_hash(v@.take(i as int)) {
                Some(t) => Some(t + v@.subrange(i as int, n as int)),
                None => None,
            },
        decreases i,
    {
        let ghost t = v@.take(i as int);
        proof {
            assert(t.drop_last() =~= v@.take(i - 1));
            assert(t.last() == v@[i - 1]);
        }
        if v[i - 1] == '#' {
            proof {
                assert(Seq::<char>::empty() + v@.subrange(i as int, n as int) =~= v@.subrange(
                    i as int,
                    n as int,
                ));
            }
            return Some(crate::text::text_of(&v, i, n));
        }
        proof {
            if after_last_hash(v@.take(i - 1)) is Some {
                let u = after_last_hash(v@.take(i - 1))->Some_0;
                assert(u.push(v@[i - 1]) + v@.subrange(i as int, n as int) =~= u + v@.subrange(
                    i - 1,
                    n as int,
                ));
            }
        }
        i = i - 1;
    }
    None
}

/// What a lockfile that has been read as TOML says of `crate_name`.
pub fn subject_in_lock(lock: &Option<Data>, crate_name: &str) -> (r: Option<
    (String, Option<String>),
>)
    ensures
        locked_text(r) == locked_in(
            match *lock {
                Some(d) => Some(d@),
                None => None,
            },
            crate_name@,
        ),
{
    let list = match lock {
        Some(document) => match document.get("package") {
            Some(packages) => match packages.as_list() {
                Some(list) => list,
                None => {
                    return None;
                },
            },
            None => {
                return None;
            },
        },
        None => {
            return None;
        },
    };
    let ghost all = views(list@);
    let mut i: usize = 0;
    assert(all.skip(0) =~= all);
    while i < list.len()
        invariant
            i <= list@.len(),
            all == views(list@),
            locked_in(
                match *lock {
                    Some(d) => Some(d@),
                    None => None,
                },
                crate_name@,
            ) == locked(all.skip(i as int), crate_name@),
        decreases list@.len() - i,
    {
        assert(all.skip(i as int).drop_first() =~= all.skip(i + 1));
        assert(all.skip(i as int)[0] == list@[i as int]@);
        let found = match list[i].text_at("name") {
            Some(n) => same(n.as_str(), crate_name),
            None => false,
        };
        if found {
            return match list[i].text_at("version") {
                Some(v) => {
                    let sha = match list[i].text_at("source") {
                        Some(s) => revision_in(s.as_str()),
                        None => None,
                    };
                    Some((v.clone(), sha))
                },
                None => None,
            };
        }
        i = i + 1;
    }
    None
}

/// The version and git revision cargo actually built for `crate_name`, read from
/// the text of the generated package's lockfile.
///
/// A git dependency's lockfile entry is `git+<repo>?tag=<pin>#<sha>`, so the run
/// header can record the exact revision without the engine cloning anything itself.
pub fn built_subject(lock: &str, crate_name: &str) -> (r: Option<(String, Option<String>)>)
    ensures
        locked_text(r) == locked_in(toml_document(lock@), crate_name@),
{
    let document = parse_toml(lock);
    subject_in_lock(&document, crate_name)
}

// ---------------------------------------------------------------- compiling

/// The compiler flags of an instruction set.
pub open spec fn isa_flags(isa: Seq<char>) -> Option<Seq<char>> {
    if isa == "native"@ {
        Some("-C target-cpu=native"@)
    } else if isa == "avx2"@ {
        Some("-C target-cpu=x86-64-v3"@)
    } else if isa == "avx512"@ {
        Some("-C target-cpu=x86-64-v4"@)
    } else if isa == "sve"@ {
        Some("-C target-feature=+sve"@)
    } else if isa == "neon"@ {
        Some("-C target-feature=+neon"@)
    } else if isa == "scalar_only"@ {
        Some(""@)
    } else {
        None
    }
}

/// The instruction set a selection pins is a compiler input: these are the rustc
/// flags each value maps to. A value the host cannot honour fails the build.
pub fn isa_rustflags(isa: &str) -> (r: Option<&'static str>)
    ensures
        (match r {
            Some(f) => Some(f@),
            None => None,
        }) == isa_flags(isa@),
{
    if same(isa, "native") {
        Some("-C target-cpu=native")
    } else if same(isa, "avx2") {
        Some("-C target-cpu=x86-64-v3")
    } else if same(isa, "avx512") {
        Some("-C target-cpu=x86-64-v4")
    } else if same(isa, "sve") {
        Some("-C target-feature=+sve")
    } else if same(isa, "neon") {
        Some("-C target-feature=+neon")
    } else if same(isa, "scalar_only") {
        Some("")
    } else {
        None
    }
}

/// The command that compiles a materialised driver package.
#[derive(Debug)]
pub struct CompileCommand {
    pub argv: Vec<String>,
    /// The directory to run in.
    pub dir: String,
    /// The value of `RUSTFLAGS`, or that it is to be removed.
    pub rustflags: Option<String>,
}

/// Compile a materialised driver package with the run's one toolchain, honouring
/// the subject's RUSTFLAGS.
pub fn compile(dir: &str, toolchain: &Version, active: Option<Version>, rustflags: &Option<String>) -> (r: CompileCommand)
    ensures
        texts(r.argv@) == cargo_line(*toolchain, active) + seq![
            "build"@,
            "--release"@,
            "--bin"@,
            "driver"@,
        ],
        r.dir@ == dir@,
        option_text(r.rustflags) == option_text(*rustflags),
{
    let mut argv = cargo(toolchain, active);
    let ghost head = texts(argv@);
    argv.push("build".to_owned());
    argv.push("--release".to_owned());
    argv.push("--bin".to_owned());
    argv.push("driver".to_owned());
    assert(texts(argv@) =~= head + seq!["build"@, "--release"@, "--bin"@, "driver"@]);
    CompileCommand { argv, dir: dir.to_owned(), rustflags: copy_option(rustflags) }
}

/// How a process ended: it could not be started, or it exited.
#[derive(Debug)]
pub enum Outcome {
    NotStarted(String),
    Exited { success: bool, code: Option<i32>, stdout: String, stderr: String },
}

#[allow(inconsistent_fields)]
#[derive(Debug, PartialEq, Eq)]
pub enum BuildError {
    Io { path: String, err: String },
    Cargo { status: Option<i32>, stderr: String },
    Spawn(String),
}

/// A [`BuildError`] by its contents.
#[allow(inconsistent_fields)]
pub enum BuildErrorV {
    Io { path: Seq<char>, err: Seq<char> },
    Cargo { status: Option<i32>, stderr: Seq<char> },
    Spawn(Seq<char>),
}

impl View for BuildError {
    type V = BuildErrorV;

    open spec fn view(&self) -> BuildErrorV {
        match self {
            BuildError::Io { path, err } => BuildErrorV::Io { path: path@, err: err@ },
            BuildError::Cargo { status, stderr } => BuildErrorV::Cargo { status: *status, stderr: stderr@ },
            BuildError::Spawn(x) => BuildErrorV::Spawn(x@),
        }
    }
}

/// What the compiler's end says: its exit status and its own words verbatim, so the
/// operator sees the real compile error, not a paraphrase.
pub open spec fn compile_result(out: Outcome) -> Result<(), BuildErrorV> {
    match out {
        Outcome::NotStarted(e) => Err(BuildErrorV::Spawn(e@)),
        Outcome::Exited { success, code, stderr, .. } => if success {
            Ok(())
        } else {
            Err(BuildErrorV::Cargo { status: code, stderr: stderr@ })
        },
    }
}

pub fn compiled(out: &Outcome) -> (r: Result<(), BuildError>)
    ensures
        (match r {
            Ok(_) => Ok(()),
            Err(e) => Err(e@),
        }) == compile_result(*out),
{
    match out {
        Outcome::NotStarted(e) => Err(BuildError::Spawn(e.clone())),
        Outcome::Exited { success, code, stderr, .. } => if *success {
            Ok(())
        } else {
            Err(BuildError::Cargo { status: *code, stderr: stderr.clone() })
        },
    }
}

/// How an exit code is written.
pub open spec fn code_text(code: Option<i32>) -> Seq<char> {
    match code {
        Some(n) => "Some("@ + dec_int(n as int) + ")"@,
        None => "None"@,
    }
}

pub fn code_string(code: &Option<i32>) -> (r: String)
    ensures
        r@ == code_text(*code),
{
    match code {
        Some(n) => {
            let mut s = "Some(".to_owned();
            s.append(decimal_signed(*n as i64).as_str());
            s.append(")");
            s
        },
        None => "None".to_owned(),
    }
}

/// What a build error says.
pub open spec fn build_error_text(e: BuildErrorV) -> Seq<char> {
    match e {
        BuildErrorV::Io { path, err } => path + ": "@ + err,
        BuildErrorV::Cargo { status, stderr } => "cargo exited with "@ + code_text(status) + "\n"@
            + stderr,
        BuildErrorV::Spawn(e) => "could not run cargo: "@ + e,
    }
}

impl BuildError {
    pub fn to_string(&self) -> (r: String)
        ensures
            r@ == build_error_text(self@),
    {
        match self {
            BuildError::Io { path, err } => {
                let mut s = path.clone();
                s.append(": ");
                s.append(err.as_str());
                s
            },
            BuildError::Cargo { status, stderr } => {
                let mut s = "cargo exited with ".to_owned();
                s.append(code_string(status).as_str());
                s.append("\n");
                s.append(stderr.as_str());
                s
            },
            BuildError::Spawn(e) => {
                let mut s = "could not run cargo: ".to_owned();
                s.append(e.as_str());
                s
            },
        }
    }
}

// ---------------------------------------------------------------- laws

/// The revision behind the last `#` of a lockfile source is what was written there.
pub proof fn locked_revision_reads_back(repo: Seq<char>, sha: Seq<char>)
    requires
        !sha.contains('#'),
    ensures
        after_last_hash(repo + "#"@ + sha) == Some(sha),
    decreases sha.len(),
{
    reveal_strlit("#");
    let s = repo + "#"@ + sha;
    if sha.len() == 0 {
        assert(s.last() == '#');
        assert(sha =~= Seq::empty());
    } else {
        assert(sha.contains(sha.last()));
        let t = sha.drop_last();
        assert(s.drop_last() =~= repo + "#"@ + t);
        assert(!t.contains('#')) by {
            if t.contains('#') {
                let i = choose|i: int| 0 <= i < t.len() && t[i] == '#';
                assert(sha[i] == '#');
            }
        }
        locked_revision_reads_back(repo, t);
        assert(t.push(sha.last()) =~= sha);
    }
}

} // verus!
