//! Adapters turn a case and its resolved params into data points.
//!
//! The split exists so that a subject unwilling to cooperate is a first-class
//! citizen: `rust-codegen` generates, builds and runs a driver the engine owns,
//! `exec` drives any command at all. Adding a language means adding a manifest,
//! not engine code.
//!
//! [`Adapter::parse`], [`prepare`] and [`run`] are the dispatch point, shared by runs
//! and conformance checks so there is exactly one place that knows what an adapter
//! means.

use crate::exec::{
    cxx_start, prepare as prepare_environment, Built, BuiltV, ExecBuild, ExecInputs, ExecInputsV,
    PythonAt, PythonV,
};
use crate::harness::{drive, driver_output, harness_error_text, HarnessError, HarnessErrorV};
use crate::package::{
    build_error_text, compile, compile_result, compiled, materialise, package_dir, package_manifest,
    BuildError, BuildErrorV, BuildRequest, BuildRequestV, CompileCommand, DriverSource, DriverSourceV,
    Generated, GeneratedV, Outcome, Package, SubjectSource, SubjectSourceV,
};
use crate::paths::{joined_path, path_join};
use crate::text::{copy_option, copy_texts, option_text, same, texts};
use crate::toolchain::{cargo_line, Version};
use vstd::prelude::*;

verus! {

/// How a subject's driver runs: the typed form of a manifest's `adapter` string.
#[derive(Clone, Copy, Debug, PartialEq, Eq, Structural)]
pub enum Adapter {
    /// Two-phase: the engine generates a program of macro invocations, builds it
    /// against the subject, runs it once per sweep.
    RustCodegen,
    /// Single-phase: a command with templated args, one per point; what makes an
    /// unwilling, non-Rust subject measurable at all.
    Exec,
}

pub open spec fn adapter_name(a: Adapter) -> Seq<char> {
    match a {
        Adapter::RustCodegen => "rust-codegen"@,
        Adapter::Exec => "exec"@,
    }
}

/// The adapter of this name.
pub open spec fn adapter_of(name: Seq<char>) -> Option<Adapter> {
    if name == "rust-codegen"@ {
        Some(Adapter::RustCodegen)
    } else if name == "exec"@ {
        Some(Adapter::Exec)
    } else {
        None
    }
}

impl Adapter {
    /// The adapter kinds this engine knows.
    pub fn parse(raw: &str) -> (r: Option<Self>)
        ensures
            r == adapter_of(raw@),
    {
        if same(raw, "rust-codegen") {
            Some(Adapter::RustCodegen)
        } else if same(raw, "exec") {
            Some(Adapter::Exec)
        } else {
            None
        }
    }

    pub fn as_str(self) -> (r: &'static str)
        ensures
            r@ == adapter_name(self),
    {
        match self {
            Adapter::RustCodegen => "rust-codegen",
            Adapter::Exec => "exec",
        }
    }
}

/// An adapter's name reads as the adapter, and no other name does.
pub proof fn adapter_names_round_trip(a: Adapter, name: Seq<char>)
    ensures
        adapter_of(adapter_name(a)) == Some(a),
        adapter_of(name) == Some(a) ==> name == adapter_name(a),
{
    reveal_strlit("rust-codegen");
    reveal_strlit("exec");
    assert("rust-codegen"@.len() == 12 && "exec"@.len() == 4);
}

/// The rust-codegen adapter's inputs. The caller resolves these (engine tree or
/// published crate, pin or working tree) because they are run policy; what they mean
/// is decided here, in the dispatch.
#[derive(Debug)]
pub struct CodegenInputs {
    /// Engine crate providing the macro and harness runtime.
    pub driver_crate: String,
    pub driver_macro: String,
    pub driver_source: DriverSource,
    /// Cache-lane identity for the driver crate. Part of the build cache key.
    pub driver_rev: String,
    pub subject_crate: String,
    pub subject_source: SubjectSource,
    /// The subject's revision for the cache key: its pin, or the working tree's path.
    pub subject_rev: String,
    pub features: Vec<String>,
    pub rustflags: Option<String>,
}

/// A [`CodegenInputs`] by its contents.
pub struct CodegenInputsV {
    pub driver_crate: Seq<char>,
    pub driver_macro: Seq<char>,
    pub driver_source: DriverSourceV,
    pub driver_rev: Seq<char>,
    pub subject_crate: Seq<char>,
    pub subject_source: SubjectSourceV,
    pub subject_rev: Seq<char>,
    pub features: Seq<Seq<char>>,
    pub rustflags: Option<Seq<char>>,
}

impl View for CodegenInputs {
    type V = CodegenInputsV;

    open spec fn view(&self) -> CodegenInputsV {
        CodegenInputsV {
            driver_crate: self.driver_crate@,
            driver_macro: self.driver_macro@,
            driver_source: self.driver_source@,
            driver_rev: self.driver_rev@,
            subject_crate: self.subject_crate@,
            subject_source: self.subject_source@,
            subject_rev: self.subject_rev@,
            features: texts(self.features@),
            rustflags: option_text(self.rustflags),
        }
    }
}

impl Clone for CodegenInputs {
    fn clone(&self) -> (r: Self)
        ensures
            r@ == self@,
    {
        let r = CodegenInputs {
            driver_crate: self.driver_crate.clone(),
            driver_macro: self.driver_macro.clone(),
            driver_source: self.driver_source.clone(),
            driver_rev: self.driver_rev.clone(),
            subject_crate: self.subject_crate.clone(),
            subject_source: self.subject_source.clone(),
            subject_rev: self.subject_rev.clone(),
            features: copy_texts(&self.features),
            rustflags: copy_option(&self.rustflags),
        };
        r
    }
}

/// One subject's share of a run.
///
/// Everything adapter-specific is resolved only when the adapter needs it, so a subject
/// is refused by [`prepare`] with the honest message rather than dying earlier on
/// inputs it never asked for.
#[derive(Debug)]
pub struct SubjectRequest {
    pub subject: String,
    pub adapter: Adapter,
    /// Where generated packages and shims are built. Engine output, never sources.
    pub build_root: String,
    pub toolchain: Version,
    /// The engine checkout to patch driver crates' own dependencies to. `None`:
    /// registry versions stand.
    pub engine_root: Option<String>,
    /// rust-codegen only: everything the two-phase generation and build need.
    pub codegen: Option<CodegenInputs>,
    /// exec only: the manifest's build recipe and source pin.
    pub exec_inputs: Option<ExecInputs>,
}

/// A [`SubjectRequest`] by its contents.
pub struct SubjectRequestV {
    pub subject: Seq<char>,
    pub adapter: Adapter,
    pub build_root: Seq<char>,
    pub toolchain: Version,
    pub engine_root: Option<Seq<char>>,
    pub codegen: Option<CodegenInputsV>,
    pub exec_inputs: Option<ExecInputsV>,
}

impl View for SubjectRequest {
    type V = SubjectRequestV;

    open spec fn view(&self) -> SubjectRequestV {
        SubjectRequestV {
            subject: self.subject@,
            adapter: self.adapter,
            build_root: self.build_root@,
            toolchain: self.toolchain,
            engine_root: option_text(self.engine_root),
            codegen: match self.codegen {
                Some(x) => Some(x@),
                None => None,
            },
            exec_inputs: match self.exec_inputs {
                Some(x) => Some(x@),
                None => None,
            },
        }
    }
}

/// What [`prepare`] produced: generated and materialised, not yet compiled. A dry run
/// stops at this point and prints it.
#[derive(Debug)]
pub struct Prepared {
    /// The package directory, keyed by cache key.
    pub dir: String,
    /// How many monomorphisations the selection needs, and the cache key that
    /// identifies the build.
    pub generated: Generated,
    pub adapter: Adapter,
    pub toolchain: Version,
    pub rustflags: Option<String>,
    /// The argv that runs the driver.
    pub program: Vec<String>,
    /// The library revision actually built against; `None` for rust, where the
    /// lockfile covers it, and for python, where the pinned version is immutable.
    pub resolved_sha: Option<String>,
}

/// A [`Prepared`] by its contents.
pub struct PreparedV {
    pub dir: Seq<char>,
    pub generated: GeneratedV,
    pub adapter: Adapter,
    pub toolchain: Version,
    pub rustflags: Option<Seq<char>>,
    pub program: Seq<Seq<char>>,
    pub resolved_sha: Option<Seq<char>>,
}

impl View for Prepared {
    type V = PreparedV;

    open spec fn view(&self) -> PreparedV {
        PreparedV {
            dir: self.dir@,
            generated: self.generated@,
            adapter: self.adapter,
            toolchain: self.toolchain,
            rustflags: option_text(self.rustflags),
            program: texts(self.program@),
            resolved_sha: option_text(self.resolved_sha),
        }
    }
}

impl Clone for Prepared {
    fn clone(&self) -> (r: Self)
        ensures
            r@ == self@,
    {
        let r = Prepared {
            dir: self.dir.clone(),
            generated: self.generated.clone(),
            adapter: self.adapter,
            toolchain: self.toolchain,
            rustflags: copy_option(&self.rustflags),
            program: copy_texts(&self.program),
            resolved_sha: copy_option(&self.resolved_sha),
        };
        r
    }
}

/// Why a subject's share of a run could not be prepared or executed.
#[allow(inconsistent_fields)]
#[derive(Debug)]
pub enum RunError {
    /// The adapter is known but its engine side does not exist.
    NotImplemented { subject: String, adapter: Adapter, what: String },
    /// A manifest invariant the loader should have caught; defensive only.
    BadManifest { subject: String, what: String },
    /// The exec build or run failed: a venv, a shim compile, a library fetch at its pin.
    Exec { subject: String, message: String },
    Build(BuildError),
    Harness(HarnessError),
}

/// A [`RunError`] by its contents.
#[allow(inconsistent_fields)]
pub enum RunErrorV {
    NotImplemented { subject: Seq<char>, adapter: Adapter, what: Seq<char> },
    BadManifest { subject: Seq<char>, what: Seq<char> },
    Exec { subject: Seq<char>, message: Seq<char> },
    Build(BuildErrorV),
    Harness(HarnessErrorV),
}

impl View for RunError {
    type V = RunErrorV;

    open spec fn view(&self) -> RunErrorV {
        match self {
            RunError::NotImplemented { subject, adapter, what } => RunErrorV::NotImplemented { subject: subject@, adapter: *adapter, what: what@ },
            RunError::BadManifest { subject, what } => RunErrorV::BadManifest { subject: subject@, what: what@ },
            RunError::Exec { subject, message } => RunErrorV::Exec { subject: subject@, message: message@ },
            RunError::Build(x) => RunErrorV::Build(x@),
            RunError::Harness(x) => RunErrorV::Harness(x@),
        }
    }
}

/// What preparing comes to: a package whose files are to be written, or an
/// environment that is to be built.
pub enum Preparation {
    Package { package: Package, prepared: Prepared },
    Environment(ExecBuild),
}

/// The package request of a rust-codegen subject.
pub open spec fn package_request(
    request: SubjectRequestV,
    inputs: CodegenInputsV,
    generated: GeneratedV,
) -> BuildRequestV {
    BuildRequestV {
        subject: request.subject,
        driver_crate: inputs.driver_crate,
        driver_source: inputs.driver_source,
        engine_root: request.engine_root,
        subject_crate: inputs.subject_crate,
        subject_source: inputs.subject_source,
        features: inputs.features,
        rustflags: inputs.rustflags,
        generated,
    }
}

/// What a rust-codegen subject is prepared as.
pub open spec fn package_prepared(
    request: SubjectRequestV,
    inputs: CodegenInputsV,
    generated: GeneratedV,
) -> PreparedV {
    let dir = package_dir(request.build_root, request.subject, generated.cache_key);
    PreparedV {
        dir,
        generated,
        adapter: request.adapter,
        toolchain: request.toolchain,
        rustflags: inputs.rustflags,
        program: seq![path_join(dir, "target/release/driver"@)],
        resolved_sha: None,
    }
}

pub const NO_GENERATOR: &'static str = "no driver program was generated for it";

/// Do the adapter's build-time work. A rust-codegen subject comes with the program
/// that was generated for its cases; an exec subject with the manifest's recipe.
/// Called by runs and by the conformance check alike.
pub fn prepare(
    request: &SubjectRequest,
    generated: Option<&Generated>,
    has_engine: bool,
    process: u32,
) -> (r: Result<Preparation, RunError>)
    ensures
        match request@.adapter {
            Adapter::RustCodegen => match request@.codegen {
                None => r matches Err(e) && e@ == (RunErrorV::BadManifest {
                    subject: request@.subject,
                    what: "a rust-codegen request carries no codegen inputs"@,
                }),
                Some(inputs) => match generated {
                    None => r matches Err(e) && e@ == (RunErrorV::NotImplemented {
                        subject: request@.subject,
                        adapter: Adapter::RustCodegen,
                        what: NO_GENERATOR@,
                    }),
                    Some(g) => {
                        &&& r matches Ok(Preparation::Package { package, prepared })
                        &&& prepared@ == package_prepared(request@, inputs, g@)
                        &&& package.dir@ == prepared@.dir
                        &&& package.main@ == g@.source
                        &&& package.manifest@ == package_manifest(
                            package_request(request@, inputs, g@),
                            if has_engine {
                                request@.engine_root
                            } else {
                                None
                            },
                        )
                    },
                },
            },
            Adapter::Exec => match request@.exec_inputs {
                None => r matches Err(e) && e@ == (RunErrorV::BadManifest {
                    subject: request@.subject,
                    what: "an exec request carries no exec inputs"@,
                }),
                Some(inputs) => environment_started(request@, inputs, process, r),
            },
        },
{
    match request.adapter {
        Adapter::RustCodegen => match &request.codegen {
            None => Err(
                RunError::BadManifest {
                    subject: request.subject.clone(),
                    what: "a rust-codegen request carries no codegen inputs".to_owned(),
                },
            ),
            Some(inputs) => match generated {
                None => Err(
                    RunError::NotImplemented {
                        subject: request.subject.clone(),
                        adapter: Adapter::RustCodegen,
                        what: NO_GENERATOR.to_owned(),
                    },
                ),
                Some(g) => {
                    let build = BuildRequest {
                        subject: request.subject.clone(),
                        driver_crate: inputs.driver_crate.clone(),
                        driver_source: inputs.driver_source.clone(),
                        engine_root: copy_option(&request.engine_root),
                        subject_crate: inputs.subject_crate.clone(),
                        subject_source: inputs.subject_source.clone(),
                        features: copy_texts(&inputs.features),
                        rustflags: copy_option(&inputs.rustflags),
                        generated: g.clone(),
                    };
                    let package = materialise(request.build_root.as_str(), &build, has_engine);
                    let program = vec![
                        joined_path(package.dir.as_str(), "target/release/driver"),
                    ];
                    let prepared = Prepared {
                        dir: package.dir.clone(),
                        generated: g.clone(),
                        adapter: request.adapter,
                        toolchain: request.toolchain,
                        rustflags: copy_option(&inputs.rustflags),
                        program,
                        resolved_sha: None,
                    };
                    assert(build@ == package_request(request@, inputs@, g@));
                    assert(prepared@.program =~= seq![
                        path_join(package.dir@, "target/release/driver"@),
                    ]);
                    Ok(Preparation::Package { package, prepared })
                },
            },
        },
        Adapter::Exec => match &request.exec_inputs {
            None => Err(
                RunError::BadManifest {
                    subject: request.subject.clone(),
                    what: "an exec request carries no exec inputs".to_owned(),
                },
            ),
            Some(inputs) => match prepare_environment(
                request.subject.as_str(),
                inputs,
                request.build_root.as_str(),
                process,
            ) {
                Ok(b) => Ok(Preparation::Environment(b)),
                Err(message) => Err(
                    RunError::Exec { subject: request.subject.clone(), message },
                ),
            },
        },
    }
}

/// The build of an exec subject starts as its language builder has it, and a refusal
/// of the builder is reported for the subject.
pub open spec fn environment_started(
    request: SubjectRequestV,
    inputs: ExecInputsV,
    process: u32,
    r: Result<Preparation, RunError>,
) -> bool {
    if inputs.lang == "cxx"@ {
        match cxx_start(request.subject, inputs, request.build_root, process) {
            Ok(c) => r matches Ok(Preparation::Environment(ExecBuild::Cxx(x))) && x@ == c,
            Err(message) => r matches Err(e) && e@ == (RunErrorV::Exec {
                subject: request.subject,
                message,
            }),
        }
    } else if inputs.lang == "python"@ {
        &&& r matches Ok(Preparation::Environment(ExecBuild::Python(p)))
        &&& p@ == (PythonV {
            subject: request.subject,
            inputs,
            build_root: request.build_root,
            driver: ""@,
            key: ""@,
            at: PythonAt::Entry,
        })
    } else {
        &&& r matches Err(e)
        &&& e@ == (RunErrorV::Exec {
            subject: request.subject,
            message: "exec language `"@ + inputs.lang
                + "` is not one of cxx, python — the manifest loader should have caught this"@,
        })
    }
}

/// What an exec subject is prepared as, once its environment stands.
pub open spec fn environment_prepared(
    request: SubjectRequestV,
    built: BuiltV,
    dir: Seq<char>,
) -> PreparedV {
    PreparedV {
        dir,
        generated: GeneratedV {
            source: ""@,
            cache_key: built.cache_key,
            combinations: built.combinations,
        },
        adapter: request.adapter,
        toolchain: request.toolchain,
        rustflags: None,
        program: built.program,
        resolved_sha: built.resolved_sha,
    }
}

/// Take in what an exec build came to.
pub fn environment(request: &SubjectRequest, outcome: Result<(Built, String), String>) -> (r: Result<
    Prepared,
    RunError,
>)
    ensures
        match outcome {
            Ok((built, dir)) => r matches Ok(p) && p@ == environment_prepared(
                request@,
                built@,
                dir@,
            ),
            Err(message) => r matches Err(e) && e@ == (RunErrorV::Exec {
                subject: request@.subject,
                message: message@,
            }),
        },
{
    match outcome {
        Ok((built, dir)) => Ok(
            Prepared {
                dir,
                generated: Generated {
                    source: "".to_owned(),
                    cache_key: built.cache_key,
                    combinations: built.combinations,
                },
                adapter: request.adapter,
                toolchain: request.toolchain,
                rustflags: None,
                program: built.program,
                resolved_sha: built.resolved_sha,
            },
        ),
        Err(message) => Err(RunError::Exec { subject: request.subject.clone(), message }),
    }
}

/// What driving a prepared subject takes: a compile first, where the adapter builds a
/// driver then, and the program's argv.
pub struct Invocation {
    pub compile: Option<CompileCommand>,
    pub argv: Vec<String>,
}

/// Whether an invocation compiles as the adapter has it: a rust driver is compiled
/// with the run's one toolchain; an exec environment stands already.
pub open spec fn compiles_as(
    p: PreparedV,
    active: Option<Version>,
    command: Option<CompileCommand>,
) -> bool {
    match p.adapter {
        Adapter::Exec => command is None,
        Adapter::RustCodegen => {
            &&& command matches Some(c)
            &&& texts(c.argv@) == cargo_line(p.toolchain, active) + seq![
                "build"@,
                "--release"@,
                "--bin"@,
                "driver"@,
            ]
            &&& c.dir@ == p.dir
            &&& option_text(c.rustflags) == p.rustflags
        },
    }
}

fn compile_of(prepared: &Prepared, active: Option<Version>) -> (r: Option<CompileCommand>)
    ensures
        compiles_as(prepared@, active, r),
{
    match prepared.adapter {
        Adapter::RustCodegen => Some(
            compile(
                prepared.dir.as_str(),
                &prepared.toolchain,
                active,
                &prepared.rustflags,
            ),
        ),
        Adapter::Exec => None,
    }
}

/// The adapter's run-time work: compile (if the adapter builds a driver) and drive the
/// resolved points. The spec arrives fully resolved; the adapter never sees the
/// selector.
pub fn run(prepared: &Prepared, active: Option<Version>) -> (r: Invocation)
    ensures
        compiles_as(prepared@, active, r.compile),
        texts(r.argv@) == prepared@.program,
{
    Invocation { compile: compile_of(prepared, active), argv: copy_texts(&prepared.program) }
}

/// Ask the driver for its registration list: compile (rust) or reuse the built
/// environment (exec), then run it with `--list`.
pub fn list(prepared: &Prepared, active: Option<Version>) -> (r: Invocation)
    ensures
        compiles_as(prepared@, active, r.compile),
        texts(r.argv@) == prepared@.program.push("--list"@),
{
    let mut argv = copy_texts(&prepared.program);
    let ghost head = texts(argv@);
    argv.push("--list".to_owned());
    assert(texts(argv@) =~= head.push("--list"@));
    Invocation { compile: compile_of(prepared, active), argv }
}

/// What an invocation's ends say: a failed compile comes first, then a failed driver.
pub open spec fn invoked(named: Seq<char>, compiling: Option<Outcome>, driving: Outcome) -> Result<
    Seq<char>,
    RunErrorV,
> {
    match compiling {
        Some(out) if compile_result(out) is Err => Err(
            RunErrorV::Build(compile_result(out)->Err_0),
        ),
        _ => match driver_output(named, driving) {
            Ok(stdout) => Ok(stdout),
            Err(e) => Err(RunErrorV::Harness(e)),
        },
    }
}

/// Check the compile of an invocation, before the driver runs.
pub fn check_compile(out: &Outcome) -> (r: Result<(), RunError>)
    ensures
        match compile_result(*out) {
            Ok(_) => r is Ok,
            Err(e) => r matches Err(f) && f@ == RunErrorV::Build(e),
        },
{
    match compiled(out) {
        Ok(_) => Ok(()),
        Err(e) => Err(RunError::Build(e)),
    }
}

/// What an invocation came to.
pub fn outcome(named: &str, compiling: Option<&Outcome>, driving: &Outcome) -> (r: Result<
    String,
    RunError,
>)
    ensures
        (match r {
            Ok(s) => Ok(s@),
            Err(e) => Err(e@),
        }) == invoked(
            named@,
            match compiling {
                Some(o) => Some(*o),
                None => None,
            },
            *driving,
        ),
{
    if let Some(out) = compiling {
        if let Err(e) = check_compile(out) {
            return Err(e);
        }
    }
    match drive(named, driving) {
        Ok(s) => Ok(s),
        Err(e) => Err(RunError::Harness(e)),
    }
}

/// What an error of a run says.
pub open spec fn run_error_text(e: RunErrorV) -> Seq<char> {
    match e {
        RunErrorV::NotImplemented { subject, adapter, what } => "cannot run "@ + subject
            + ": the `"@ + adapter_name(adapter) + "` adapter is not implemented yet — "@ + what,
        RunErrorV::BadManifest { subject, what } => subject + "'s manifest is invalid: "@ + what,
        RunErrorV::Exec { subject, message } => "cannot build or run "@ + subject + ": "@ + message,
        RunErrorV::Build(e) => build_error_text(e),
        RunErrorV::Harness(e) => harness_error_text(e),
    }
}

impl RunError {
    pub fn to_string(&self) -> (r: String)
        ensures
            r@ == run_error_text(self@),
    {
        match self {
            RunError::NotImplemented { subject, adapter, what } => {
                let mut s = "cannot run ".to_owned();
                s.append(subject.as_str());
                s.append(": the `");
                s.append(adapter.as_str());
                s.append("` adapter is not implemented yet — ");
                s.append(what.as_str());
                s
            },
            RunError::BadManifest { subject, what } => {
                let mut s = subject.clone();
                s.append("'s manifest is invalid: ");
                s.append(what.as_str());
                s
            },
            RunError::Exec { subject, message } => {
                let mut s = "cannot build or run ".to_owned();
                s.append(subject.as_str());
                s.append(": ");
                s.append(message.as_str());
                s
            },
            RunError::Build(e) => e.to_string(),
            RunError::Harness(e) => e.to_string(),
        }
    }
}

} // verus!
