//! How a driver that is not a rust crate gets built and invoked, per language.
//!
//! The harness contract is identical for every language, so the only per-language
//! thing here is the build, cached per content hash. A run that never selects a
//! subject never builds it; selecting one builds exactly its environment.
//!
//! A build asks for one thing at a time: a program run, a file read, a directory
//! made. Each machine here says what it asks for next, and what it makes of the
//! answer.

use crate::digest::{cache_key, cache_key_of};
use crate::manifest::{Build, BuildV, CmakeBuild, CmakeBuildV, CmakeDependency, CmakeDependencyV, Source, SourceV};
use crate::package::{commit_id, is_commit_id, Outcome};
use crate::paths::{joined_path, path_join};
use crate::steps::{answers, Reply, Request, RequestV};
use crate::text::{
    copy_option, copy_texts, dec, decimal, join, joined, lines, option_text, same, split_lines, texts,
    trim, trimmed,
};
use vstd::prelude::*;

verus! {

/// What an exec subject's manifest declares, resolved for one build.
#[derive(Debug)]
pub struct ExecInputs {
    /// The subject's manifest directory: the anchor for the entry file.
    pub manifest_dir: String,
    /// `cxx` or `python`.
    pub lang: String,
    /// The driver's entry file, resolved against `manifest_dir`.
    pub entry: String,
    /// The manifest's build recipe.
    pub build: Build,
    /// The manifest's source pin.
    pub source: Source,
    /// The expected library revision, when the manifest declares one. The cxx build
    /// verifies the fetched sources against it.
    pub expected_sha: Option<String>,
}

/// A [`ExecInputs`] by its contents.
pub struct ExecInputsV {
    pub manifest_dir: Seq<char>,
    pub lang: Seq<char>,
    pub entry: Seq<char>,
    pub build: BuildV,
    pub source: SourceV,
    pub expected_sha: Option<Seq<char>>,
}

impl View for ExecInputs {
    type V = ExecInputsV;

    open spec fn view(&self) -> ExecInputsV {
        ExecInputsV {
            manifest_dir: self.manifest_dir@,
            lang: self.lang@,
            entry: self.entry@,
            build: self.build@,
            source: self.source@,
            expected_sha: option_text(self.expected_sha),
        }
    }
}

impl Clone for ExecInputs {
    fn clone(&self) -> (r: Self)
        ensures
            r@ == self@,
    {
        let r = ExecInputs {
            manifest_dir: self.manifest_dir.clone(),
            lang: self.lang.clone(),
            entry: self.entry.clone(),
            build: self.build.clone(),
            source: self.source.clone(),
            expected_sha: copy_option(&self.expected_sha),
        };
        r
    }
}

/// What a successful exec build produced.
#[derive(Debug)]
pub struct Built {
    /// The argv to run the driver: `[binary]` for cxx, `[venv python, driver.py]` for
    /// python. The harness contract's transport is the same either way.
    pub program: Vec<String>,
    /// The library revision actually built against. `None` when the pin is a package
    /// version, whose immutability is the provenance.
    pub resolved_sha: Option<String>,
    /// How many compile-time specialisations the binary carries.
    pub combinations: usize,
    pub cache_key: String,
}

/// A [`Built`] by its contents.
pub struct BuiltV {
    pub program: Seq<Seq<char>>,
    pub resolved_sha: Option<Seq<char>>,
    pub combinations: usize,
    pub cache_key: Seq<char>,
}

impl View for Built {
    type V = BuiltV;

    open spec fn view(&self) -> BuiltV {
        BuiltV {
            program: texts(self.program@),
            resolved_sha: option_text(self.resolved_sha),
            combinations: self.combinations,
            cache_key: self.cache_key@,
        }
    }
}

impl Clone for Built {
    fn clone(&self) -> (r: Self)
        ensures
            r@ == self@,
    {
        let r = Built {
            program: copy_texts(&self.program),
            resolved_sha: copy_option(&self.resolved_sha),
            combinations: self.combinations,
            cache_key: self.cache_key.clone(),
        };
        r
    }
}

/// Where a fetch stands.
#[allow(inconsistent_fields)]
#[derive(Debug)]
pub enum FetchAt {
    MakeTmp,
    Init,
    Remote,
    Fetching,
    Checkout,
    Cloning,
    RevParse,
    Place(String),
    Rename(String),
    Remove(String),
}

/// A [`FetchAt`] by its contents.
#[allow(inconsistent_fields)]
pub enum FetchAtV {
    MakeTmp,
    Init,
    Remote,
    Fetching,
    Checkout,
    Cloning,
    RevParse,
    Place(Seq<char>),
    Rename(Seq<char>),
    Remove(Seq<char>),
}

impl View for FetchAt {
    type V = FetchAtV;

    open spec fn view(&self) -> FetchAtV {
        match self {
            FetchAt::MakeTmp => FetchAtV::MakeTmp,
            FetchAt::Init => FetchAtV::Init,
            FetchAt::Remote => FetchAtV::Remote,
            FetchAt::Fetching => FetchAtV::Fetching,
            FetchAt::Checkout => FetchAtV::Checkout,
            FetchAt::Cloning => FetchAtV::Cloning,
            FetchAt::RevParse => FetchAtV::RevParse,
            FetchAt::Place(x) => FetchAtV::Place(x@),
            FetchAt::Rename(x) => FetchAtV::Rename(x@),
            FetchAt::Remove(x) => FetchAtV::Remove(x@),
        }
    }
}

impl Clone for FetchAt {
    fn clone(&self) -> (r: Self)
        ensures
            r@ == self@,
    {
        match self {
            FetchAt::MakeTmp => FetchAt::MakeTmp,
            FetchAt::Init => FetchAt::Init,
            FetchAt::Remote => FetchAt::Remote,
            FetchAt::Fetching => FetchAt::Fetching,
            FetchAt::Checkout => FetchAt::Checkout,
            FetchAt::Cloning => FetchAt::Cloning,
            FetchAt::RevParse => FetchAt::RevParse,
            FetchAt::Place(x) => FetchAt::Place(x.clone()),
            FetchAt::Rename(x) => FetchAt::Rename(x.clone()),
            FetchAt::Remove(x) => FetchAt::Remove(x.clone()),
        }
    }
}

/// A fetch of library sources at a pin. Keyed by the resolved revision: a moved ref
/// lands in a different directory and is caught by the check.
#[derive(Debug)]
pub struct Fetch {
    pub subject: String,
    pub repo: String,
    pub reference: String,
    pub expected: Option<String>,
    pub root: String,
    pub tmp: String,
    pub at: FetchAt,
}

/// A [`Fetch`] by its contents.
pub struct FetchV {
    pub subject: Seq<char>,
    pub repo: Seq<char>,
    pub reference: Seq<char>,
    pub expected: Option<Seq<char>>,
    pub root: Seq<char>,
    pub tmp: Seq<char>,
    pub at: FetchAtV,
}

impl View for Fetch {
    type V = FetchV;

    open spec fn view(&self) -> FetchV {
        FetchV {
            subject: self.subject@,
            repo: self.repo@,
            reference: self.reference@,
            expected: option_text(self.expected),
            root: self.root@,
            tmp: self.tmp@,
            at: self.at@,
        }
    }
}

impl Clone for Fetch {
    fn clone(&self) -> (r: Self)
        ensures
            r@ == self@,
    {
        let r = Fetch {
            subject: self.subject.clone(),
            repo: self.repo.clone(),
            reference: self.reference.clone(),
            expected: copy_option(&self.expected),
            root: self.root.clone(),
            tmp: self.tmp.clone(),
            at: self.at.clone(),
        };
        r
    }
}

/// A [`FetchStep`] by its contents.
pub enum FetchStepV {
    Again(FetchV),
    Finished { dir: Seq<char>, sha: Seq<char> },
}

/// What a step of a fetch came to: it goes on, or the sources stand in a directory.
pub enum FetchStep {
    Again(Fetch),
    Finished { dir: String, sha: String },
}

pub open spec fn fetch_step(r: Result<FetchStep, String>) -> Result<FetchStepV, Seq<char>> {
    match r {
        Ok(FetchStep::Again(f)) => Ok(FetchStepV::Again(f@)),
        Ok(FetchStep::Finished { dir, sha }) => Ok(FetchStepV::Finished { dir: dir@, sha: sha@ }),
        Err(e) => Err(e@),
    }
}

/// What git printed, trimmed; or why it did not.
pub open spec fn git_output(reply: Reply) -> Result<Seq<char>, Seq<char>> {
    match reply {
        Reply::Ran(Outcome::Exited { success, stdout, stderr, .. }) => if success {
            Ok(trim(stdout@))
        } else {
            Err(stderr@)
        },
        Reply::Ran(Outcome::NotStarted(e)) => Err("could not run git: "@ + e@),
        _ => Err(""@),
    }
}

fn git_result(reply: &Reply) -> (r: Result<String, String>)
    ensures
        (match r {
            Ok(s) => Ok(s@),
            Err(e) => Err(e@),
        }) == git_output(*reply),
{
    match reply {
        Reply::Ran(Outcome::Exited { success, stdout, stderr, .. }) => if *success {
            Ok(trimmed(stdout.as_str()).to_owned())
        } else {
            Err(stderr.clone())
        },
        Reply::Ran(Outcome::NotStarted(e)) => {
            let mut s = "could not run git: ".to_owned();
            s.append(e.as_str());
            Err(s)
        },
        _ => Err("".to_owned()),
    }
}

/// How a fetch starts, or why it cannot: only a git pin can be fetched.
pub open spec fn fetch_start(
    subject: Seq<char>,
    source: SourceV,
    expected: Option<Seq<char>>,
    root: Seq<char>,
    process: u32,
) -> Result<FetchV, Seq<char>> {
    if source.kind != "git"@ {
        Err(
            subject
                + ": cxx exec subjects fetch their library from a git pin; source kind `"@
                + source.kind + "` is not supported yet"@,
        )
    } else {
        match source.repo {
            None => Err(subject + ": source kind git declares no repo"@),
            Some(repo) => Ok(
                FetchV {
                    subject,
                    repo,
                    reference: source.pinned_ref,
                    expected,
                    root,
                    tmp: path_join(root, "tmp-"@ + dec(process as nat)),
                    at: FetchAtV::MakeTmp,
                },
            ),
        }
    }
}

/// What a fetch asks for. A pinned revision is fetched by itself; a tag or branch is
/// cloned.
pub open spec fn fetch_request(f: FetchV) -> RequestV {
    match f.at {
        FetchAtV::MakeTmp => RequestV::MakeDir(f.tmp),
        FetchAtV::Init => RequestV::Run(seq!["git"@, "init"@, "-q"@, f.tmp]),
        FetchAtV::Remote => RequestV::Run(
            seq!["git"@, "-C"@, f.tmp, "remote"@, "add"@, "origin"@, f.repo],
        ),
        FetchAtV::Fetching => RequestV::Run(
            seq!["git"@, "-C"@, f.tmp, "fetch"@, "-q"@, "--depth"@, "1"@, "origin"@, f.reference],
        ),
        FetchAtV::Checkout => RequestV::Run(
            seq!["git"@, "-C"@, f.tmp, "checkout"@, "-q"@, "FETCH_HEAD"@],
        ),
        FetchAtV::Cloning => RequestV::Run(
            seq![
                "git"@,
                "clone"@,
                "-q"@,
                "--depth"@,
                "1"@,
                "--branch"@,
                f.reference,
                f.repo,
                f.tmp,
            ],
        ),
        FetchAtV::RevParse => RequestV::Run(seq!["git"@, "-C"@, f.tmp, "rev-parse"@, "HEAD"@]),
        FetchAtV::Place(sha) => RequestV::Exists(path_join(f.root, sha)),
        FetchAtV::Rename(sha) => RequestV::Rename { from: f.tmp, to: path_join(f.root, sha) },
        FetchAtV::Remove(_) => RequestV::RemoveDir(f.tmp),
    }
}

pub open spec fn moved_to(f: FetchV, at: FetchAtV) -> Result<FetchStepV, Seq<char>> {
    Ok(FetchStepV::Again(FetchV { at, ..f }))
}

pub open spec fn pin_moved(subject: Seq<char>, expected: Seq<char>, resolved: Seq<char>) -> Seq<char> {
    subject + ": the pin moved — the manifest expects "@ + expected
        + " but the library's ref resolves to "@ + resolved
        + ". If the new revision is intended, update the manifest's pinned_ref and sha together."@
}

/// What a fetch makes of an answer. The revision that git names is checked against
/// the expected one before the checkout takes its place.
pub open spec fn fetch_next(f: FetchV, reply: Reply) -> Result<FetchStepV, Seq<char>> {
    match f.at {
        FetchAtV::MakeTmp => match reply {
            Reply::Done(Err(e)) => Err(f.tmp + ": "@ + e@),
            _ => moved_to(
                f,
                if commit_id(f.reference) {
                    FetchAtV::Init
                } else {
                    FetchAtV::Cloning
                },
            ),
        },
        FetchAtV::Init => match git_output(reply) {
            Err(e) => Err(e),
            Ok(_) => moved_to(f, FetchAtV::Remote),
        },
        FetchAtV::Remote => match git_output(reply) {
            Err(e) => Err(e),
            Ok(_) => moved_to(f, FetchAtV::Fetching),
        },
        FetchAtV::Fetching => match git_output(reply) {
            Err(e) => Err(f.subject + ": fetching the pinned sha failed: "@ + e),
            Ok(_) => moved_to(f, FetchAtV::Checkout),
        },
        FetchAtV::Checkout => match git_output(reply) {
            Err(e) => Err(e),
            Ok(_) => moved_to(f, FetchAtV::RevParse),
        },
        FetchAtV::Cloning => match git_output(reply) {
            Err(e) => Err(f.subject + ": cloning the pinned ref failed: "@ + e),
            Ok(_) => moved_to(f, FetchAtV::RevParse),
        },
        FetchAtV::RevParse => match git_output(reply) {
            Err(e) => Err(e),
            Ok(sha) => if f.expected is Some && f.expected->Some_0 != sha {
                Err(pin_moved(f.subject, f.expected->Some_0, sha))
            } else {
                moved_to(f, FetchAtV::Place(sha))
            },
        },
        FetchAtV::Place(sha) => if reply == Reply::Present(true) {
            moved_to(f, FetchAtV::Remove(sha))
        } else {
            moved_to(f, FetchAtV::Rename(sha))
        },
        FetchAtV::Rename(sha) => match reply {
            Reply::Done(Err(e)) => Err(f.tmp + " → "@ + path_join(f.root, sha) + ": "@ + e@),
            _ => Ok(FetchStepV::Finished { dir: path_join(f.root, sha), sha }),
        },
        FetchAtV::Remove(sha) => Ok(FetchStepV::Finished { dir: path_join(f.root, sha), sha }),
    }
}

impl Fetch {
    /// Fetch the library sources at the manifest's pin.
    pub fn start(subject: &str, source: &Source, expected: Option<String>, root: &str, process: u32) -> (r: Result<
        Fetch,
        String,
    >)
        ensures
            (match r {
                Ok(f) => Ok(f@),
                Err(e) => Err(e@),
            }) == fetch_start(subject@, source@, option_text(expected), root@, process),
    {
        if !same(source.kind.as_str(), "git") {
            let mut s = subject.to_owned();
            s.append(
                ": cxx exec subjects fetch their library from a git pin; source kind `",
            );
            s.append(source.kind.as_str());
            s.append("` is not supported yet");
            return Err(s);
        }
        match &source.repo {
            None => {
                let mut s = subject.to_owned();
                s.append(": source kind git declares no repo");
                Err(s)
            },
            Some(repo) => {
                let mut name = "tmp-".to_owned();
                name.append(decimal(process as u64).as_str());
                Ok(
                    Fetch {
                        subject: subject.to_owned(),
                        repo: repo.clone(),
                        reference: source.pinned_ref.clone(),
                        expected,
                        root: root.to_owned(),
                        tmp: joined_path(root, name.as_str()),
                        at: FetchAt::MakeTmp,
                    },
                )
            },
        }
    }

    /// What to do next.
    pub fn request(&self) -> (r: Request)
        ensures
            r@ == fetch_request(self@),
    {
        let tmp = self.tmp.clone();
        match &self.at {
            FetchAt::MakeTmp => Request::MakeDir(tmp),
            FetchAt::Init => {
                let v = vec!["git".to_owned(), "init".to_owned(), "-q".to_owned(), tmp];
                assert(texts(v@) =~= seq!["git"@, "init"@, "-q"@, self.tmp@]);
                Request::Run(v)
            },
            FetchAt::Remote => {
                let v = vec![
                    "git".to_owned(),
                    "-C".to_owned(),
                    tmp,
                    "remote".to_owned(),
                    "add".to_owned(),
                    "origin".to_owned(),
                    self.repo.clone(),
                ];
                assert(texts(v@) =~= fetch_request(self@)->Run_0);
                Request::Run(v)
            },
            FetchAt::Fetching => {
                let v = vec![
                    "git".to_owned(),
                    "-C".to_owned(),
                    tmp,
                    "fetch".to_owned(),
                    "-q".to_owned(),
                    "--depth".to_owned(),
                    "1".to_owned(),
                    "origin".to_owned(),
                    self.reference.clone(),
                ];
                assert(texts(v@) =~= fetch_request(self@)->Run_0);
                Request::Run(v)
            },
            FetchAt::Checkout => {
                let v = vec![
                    "git".to_owned(),
                    "-C".to_owned(),
                    tmp,
                    "checkout".to_owned(),
                    "-q".to_owned(),
                    "FETCH_HEAD".to_owned(),
                ];
                assert(texts(v@) =~= fetch_request(self@)->Run_0);
                Request::Run(v)
            },
            FetchAt::Cloning => {
                let v = vec![
                    "git".to_owned(),
                    "clone".to_owned(),
                    "-q".to_owned(),
                    "--depth".to_owned(),
                    "1".to_owned(),
                    "--branch".to_owned(),
                    self.reference.clone(),
                    self.repo.clone(),
                    tmp,
                ];
                assert(texts(v@) =~= fetch_request(self@)->Run_0);
                Request::Run(v)
            },
            FetchAt::RevParse => {
                let v = vec![
                    "git".to_owned(),
                    "-C".to_owned(),
                    tmp,
                    "rev-parse".to_owned(),
                    "HEAD".to_owned(),
                ];
                assert(texts(v@) =~= fetch_request(self@)->Run_0);
                Request::Run(v)
            },
            FetchAt::Place(sha) => Request::Exists(joined_path(self.root.as_str(), sha.as_str())),
            FetchAt::Rename(sha) => Request::Rename {
                from: tmp,
                to: joined_path(self.root.as_str(), sha.as_str()),
            },
            FetchAt::Remove(_) => Request::RemoveDir(tmp),
        }
    }

    fn with(self, at: FetchAt) -> (r: Result<FetchStep, String>)
        ensures
            fetch_step(r) == moved_to(self@, at@),
    {
        Ok(FetchStep::Again(Fetch { at, ..self }))
    }

    fn finished(&self, sha: &str) -> (r: Result<FetchStep, String>)
        ensures
            fetch_step(r) == Ok::<FetchStepV, Seq<char>>(
                FetchStepV::Finished { dir: path_join(self@.root, sha@), sha: sha@ },
            ),
    {
        Ok(
            FetchStep::Finished {
                dir: joined_path(self.root.as_str(), sha),
                sha: sha.to_owned(),
            },
        )
    }

    fn fault(&self, what: &str, e: &str) -> (r: Result<FetchStep, String>)
        ensures
            fetch_step(r) == Err::<FetchStepV, Seq<char>>(self@.subject + what@ + e@),
    {
        let mut s = self.subject.clone();
        s.append(what);
        s.append(e);
        Err(s)
    }

    /// What the answer to the request leads to.
    pub fn next(self, reply: &Reply) -> (r: Result<FetchStep, String>)
        requires
            answers(fetch_request(self@), *reply),
        ensures
            fetch_step(r) == fetch_next(self@, *reply),
    {
        let at = self.at.clone();
        match at {
            FetchAt::MakeTmp => {
                if let Reply::Done(Err(e)) = reply {
                    let mut s = self.tmp.clone();
                    s.append(": ");
                    s.append(e.as_str());
                    return Err(s);
                }
                if is_commit_id(self.reference.as_str()) {
                    self.with(FetchAt::Init)
                } else {
                    self.with(FetchAt::Cloning)
                }
            },
            FetchAt::Init => match git_result(reply) {
                Err(e) => Err(e),
                Ok(_) => self.with(FetchAt::Remote),
            },
            FetchAt::Remote => match git_result(reply) {
                Err(e) => Err(e),
                Ok(_) => self.with(FetchAt::Fetching),
            },
            FetchAt::Fetching => match git_result(reply) {
                Err(e) => self.fault(": fetching the pinned sha failed: ", e.as_str()),
                Ok(_) => self.with(FetchAt::Checkout),
            },
            FetchAt::Checkout => match git_result(reply) {
                Err(e) => Err(e),
                Ok(_) => self.with(FetchAt::RevParse),
            },
            FetchAt::Cloning => match git_result(reply) {
                Err(e) => self.fault(": cloning the pinned ref failed: ", e.as_str()),
                Ok(_) => self.with(FetchAt::RevParse),
            },
            FetchAt::RevParse => match git_result(reply) {
                Err(e) => Err(e),
                Ok(sha) => {
                    if let Some(expected) = &self.expected {
                        if !same(expected.as_str(), sha.as_str()) {
                            let mut s = self.subject.clone();
                            s.append(": the pin moved — the manifest expects ");
                            s.append(expected.as_str());
                            s.append(" but the library's ref resolves to ");
                            s.append(sha.as_str());
                            s.append(
                                ". If the new revision is intended, update the manifest's pinned_ref and sha together.",
                            );
                            return Err(s);
                        }
                    }
                    self.with(FetchAt::Place(sha))
                },
            },
            FetchAt::Place(sha) => match reply {
                Reply::Present(true) => self.with(FetchAt::Remove(sha)),
                _ => self.with(FetchAt::Rename(sha)),
            },
            FetchAt::Rename(sha) => {
                if let Reply::Done(Err(e)) = reply {
                    let mut s = self.tmp.clone();
                    s.append(" → ");
                    s.append(joined_path(self.root.as_str(), sha.as_str()).as_str());
                    s.append(": ");
                    s.append(e.as_str());
                    return Err(s);
                }
                self.finished(sha.as_str())
            },
            FetchAt::Remove(sha) => self.finished(sha.as_str()),
        }
    }
}

/// The revision that a fetch has settled on.
pub open spec fn settled(f: FetchV) -> Option<Seq<char>> {
    match f.at {
        FetchAtV::Place(sha) => Some(sha),
        FetchAtV::Rename(sha) => Some(sha),
        FetchAtV::Remove(sha) => Some(sha),
        _ => None,
    }
}

/// A fetch has settled on nothing but what was expected.
pub open spec fn keeps_pin(f: FetchV) -> bool {
    settled(f) is Some && f.expected is Some ==> settled(f) == f.expected
}

/// A moved ref never gets through: whatever git answers, a fetch that starts from a
/// manifest settles on, and hands out, only the expected revision, in the directory
/// named by it.
pub proof fn a_moved_ref_is_caught(f: FetchV, reply: Reply)
    requires
        keeps_pin(f),
        answers(fetch_request(f), reply),
    ensures
        match fetch_next(f, reply) {
            Ok(FetchStepV::Again(g)) => keeps_pin(g) && g.expected == f.expected && g.root == f.root,
            Ok(FetchStepV::Finished { dir, sha }) => {
                &&& f.expected is Some ==> sha == f.expected->Some_0
                &&& dir == path_join(f.root, sha)
            },
            Err(_) => true,
        },
{
}

/// How many answers a fetch still needs at most.
pub open spec fn fetch_left(f: FetchV) -> nat {
    match f.at {
        FetchAtV::MakeTmp => 8,
        FetchAtV::Init => 7,
        FetchAtV::Remote => 6,
        FetchAtV::Fetching => 5,
        FetchAtV::Checkout => 4,
        FetchAtV::Cloning => 4,
        FetchAtV::RevParse => 3,
        FetchAtV::Place(_) => 2,
        _ => 1,
    }
}

/// A fetch comes to an end.
pub proof fn fetches_end(f: FetchV, reply: Reply)
    ensures
        match fetch_next(f, reply) {
            Ok(FetchStepV::Again(g)) => fetch_left(g) < fetch_left(f),
            _ => true,
        },
{
}

/// Where a source build stands.
#[allow(inconsistent_fields)]
#[derive(Debug)]
pub enum CmakeAt {
    Dependency(Fetch),
    Configure,
    Building,
}

/// A [`CmakeAt`] by its contents.
#[allow(inconsistent_fields)]
pub enum CmakeAtV {
    Dependency(FetchV),
    Configure,
    Building,
}

impl View for CmakeAt {
    type V = CmakeAtV;

    open spec fn view(&self) -> CmakeAtV {
        match self {
            CmakeAt::Dependency(x) => CmakeAtV::Dependency(x@),
            CmakeAt::Configure => CmakeAtV::Configure,
            CmakeAt::Building => CmakeAtV::Building,
        }
    }
}

impl Clone for CmakeAt {
    fn clone(&self) -> (r: Self)
        ensures
            r@ == self@,
    {
        match self {
            CmakeAt::Dependency(f) => CmakeAt::Dependency(f.clone()),
            CmakeAt::Configure => CmakeAt::Configure,
            CmakeAt::Building => CmakeAt::Building,
        }
    }
}

/// A source build with CMake: each dependency fetched at its pin, then configured and
/// built.
#[derive(Debug)]
pub struct Cmake {
    pub subject: String,
    pub lib_dir: String,
    pub recipe: CmakeBuild,
    pub build_root: String,
    pub process: u32,
    /// The checkouts of the dependencies fetched so far.
    pub fetched: Vec<String>,
    pub at: CmakeAt,
}

/// A [`Cmake`] by its contents.
pub struct CmakeV {
    pub subject: Seq<char>,
    pub lib_dir: Seq<char>,
    pub recipe: CmakeBuildV,
    pub build_root: Seq<char>,
    pub process: u32,
    pub fetched: Seq<Seq<char>>,
    pub at: CmakeAtV,
}

impl View for Cmake {
    type V = CmakeV;

    open spec fn view(&self) -> CmakeV {
        CmakeV {
            subject: self.subject@,
            lib_dir: self.lib_dir@,
            recipe: self.recipe@,
            build_root: self.build_root@,
            process: self.process,
            fetched: texts(self.fetched@),
            at: self.at@,
        }
    }
}

impl Clone for Cmake {
    fn clone(&self) -> (r: Self)
        ensures
            r@ == self@,
    {
        let r = Cmake {
            subject: self.subject.clone(),
            lib_dir: self.lib_dir.clone(),
            recipe: self.recipe.clone(),
            build_root: self.build_root.clone(),
            process: self.process,
            fetched: copy_texts(&self.fetched),
            at: self.at.clone(),
        };
        r
    }
}

/// What a step of a source build came to.
pub enum CmakeStep {
    Again(Cmake),
    Finished(String),
}

/// A [`CmakeStep`] by its contents.
pub enum CmakeStepV {
    Again(CmakeV),
    Finished(Seq<char>),
}

pub open spec fn cmake_step(r: Result<CmakeStep, String>) -> Result<CmakeStepV, Seq<char>> {
    match r {
        Ok(CmakeStep::Again(c)) => Ok(CmakeStepV::Again(c@)),
        Ok(CmakeStep::Finished(dir)) => Ok(CmakeStepV::Finished(dir@)),
        Err(e) => Err(e@),
    }
}

/// The pin of a dependency, as a source.
pub open spec fn dependency_source(d: CmakeDependencyV) -> SourceV {
    SourceV {
        kind: "git"@,
        repo: Some(d.repo),
        package: None,
        pinned_ref: d.pinned_ref,
        sha: Some(d.sha),
    }
}

/// The fetch of a dependency.
pub open spec fn dependency_fetch(c: CmakeV, d: CmakeDependencyV) -> Result<FetchV, Seq<char>> {
    fetch_start(
        c.subject + "-"@ + d.name,
        dependency_source(d),
        Some(d.sha),
        path_join(path_join(path_join(c.build_root, c.subject), "dependencies"@), d.name),
        c.process,
    )
}

/// A source build with as many dependencies fetched as it has checkouts for: on to
/// the next dependency, or to configuring.
pub open spec fn cmake_from(c: CmakeV) -> Result<CmakeV, Seq<char>> {
    let i = c.fetched.len() as int;
    if i < c.recipe.dependency.len() {
        match dependency_fetch(c, c.recipe.dependency[i]) {
            Ok(f) => Ok(CmakeV { at: CmakeAtV::Dependency(f), ..c }),
            Err(e) => Err(e),
        }
    } else {
        Ok(CmakeV { at: CmakeAtV::Configure, ..c })
    }
}

pub open spec fn cmake_start(
    subject: Seq<char>,
    lib_dir: Seq<char>,
    recipe: CmakeBuildV,
    build_root: Seq<char>,
    process: u32,
) -> Result<CmakeV, Seq<char>> {
    cmake_from(
        CmakeV {
            subject,
            lib_dir,
            recipe,
            build_root,
            process,
            fetched: Seq::empty(),
            at: CmakeAtV::Configure,
        },
    )
}

/// Where the sources are built.
pub open spec fn cmake_build_dir(c: CmakeV) -> Seq<char> {
    path_join(path_join(c.build_root, c.subject), "cmake"@)
}

pub open spec fn text_or(s: Option<Seq<char>>, default: Seq<char>) -> Seq<char> {
    match s {
        Some(t) => t,
        None => default,
    }
}

/// The variables that tell CMake where the dependencies stand.
pub open spec fn cmake_variables(deps: Seq<CmakeDependencyV>, fetched: Seq<Seq<char>>) -> Seq<
    Seq<char>,
> {
    Seq::new(
        if deps.len() < fetched.len() {
            deps.len()
        } else {
            fetched.len()
        },
        |i: int| "-D"@ + deps[i].cmake_var + "="@ + fetched[i],
    )
}

pub open spec fn configure_line(c: CmakeV) -> Seq<Seq<char>> {
    seq![
        "cmake"@,
        "-S"@,
        path_join(c.lib_dir, text_or(c.recipe.source_dir, ""@)),
        "-B"@,
        cmake_build_dir(c),
        "-G"@,
        "Ninja"@,
    ] + cmake_variables(c.recipe.dependency, c.fetched) + c.recipe.configure
}

pub open spec fn build_line(c: CmakeV) -> Seq<Seq<char>> {
    let head = seq!["cmake"@, "--build"@, cmake_build_dir(c)];
    match c.recipe.target {
        Some(t) => head + seq!["--target"@, t],
        None => head,
    }
}

/// What a source build asks for.
pub open spec fn cmake_request(c: CmakeV) -> RequestV {
    match c.at {
        CmakeAtV::Dependency(f) => fetch_request(f),
        CmakeAtV::Configure => RequestV::Run(configure_line(c)),
        CmakeAtV::Building => RequestV::Run(build_line(c)),
    }
}

/// What a program's end says, where its failure is reported with its own words.
pub open spec fn run_fault(reply: Reply, not_run: Seq<char>, failed: Seq<char>) -> Option<Seq<char>> {
    match reply {
        Reply::Ran(Outcome::NotStarted(e)) => Some(not_run + e@),
        Reply::Ran(Outcome::Exited { success, stderr, .. }) => if success {
            None
        } else {
            Some(failed + stderr@)
        },
        _ => None,
    }
}

fn fault_of(reply: &Reply, not_run: String, failed: String) -> (r: Option<String>)
    ensures
        option_text(r) == run_fault(*reply, not_run@, failed@),
{
    match reply {
        Reply::Ran(Outcome::NotStarted(e)) => {
            let mut s = not_run;
            s.append(e.as_str());
            Some(s)
        },
        Reply::Ran(Outcome::Exited { success, stderr, .. }) => if *success {
            None
        } else {
            let mut s = failed;
            s.append(stderr.as_str());
            Some(s)
        },
        _ => None,
    }
}

/// What a source build makes of an answer.
pub open spec fn cmake_next(c: CmakeV, reply: Reply) -> Result<CmakeStepV, Seq<char>> {
    match c.at {
        CmakeAtV::Dependency(f) => match fetch_next(f, reply) {
            Err(e) => Err(e),
            Ok(FetchStepV::Again(g)) => Ok(
                CmakeStepV::Again(CmakeV { at: CmakeAtV::Dependency(g), ..c }),
            ),
            Ok(FetchStepV::Finished { dir, .. }) => match cmake_from(
                CmakeV { fetched: c.fetched.push(dir), ..c },
            ) {
                Ok(d) => Ok(CmakeStepV::Again(d)),
                Err(e) => Err(e),
            },
        },
        CmakeAtV::Configure => match run_fault(
            reply,
            "could not configure "@ + c.subject + " with cmake: "@,
            "configuring "@ + c.subject + " from pinned source failed:\n"@,
        ) {
            Some(e) => Err(e),
            None => Ok(CmakeStepV::Again(CmakeV { at: CmakeAtV::Building, ..c })),
        },
        CmakeAtV::Building => match run_fault(
            reply,
            "could not build "@ + c.subject + " with cmake: "@,
            "building "@ + c.subject + " from pinned source failed:\n"@,
        ) {
            Some(e) => Err(e),
            None => Ok(CmakeStepV::Finished(cmake_build_dir(c))),
        },
    }
}

fn around(a: &str, subject: &str, b: &str) -> (r: String)
    ensures
        r@ == a@ + subject@ + b@,
{
    let mut s = a.to_owned();
    s.append(subject);
    s.append(b);
    s
}

fn option_or(s: &Option<String>, default: &str) -> (r: String)
    ensures
        r@ == text_or(option_text(*s), default@),
{
    match s {
        Some(t) => t.clone(),
        None => default.to_owned(),
    }
}

fn push_all(out: &mut Vec<String>, list: &Vec<String>)
    ensures
        texts(final(out)@) == texts(old(out)@) + texts(list@),
{
    let ghost head = texts(out@);
    let mut i: usize = 0;
    assert(head + texts(list@).take(0) =~= head);
    while i < list.len()
        invariant
            i <= list@.len(),
            texts(out@) == head + texts(list@).take(i as int),
        decreases list@.len() - i,
    {
        let ghost before = texts(out@);
        out.push(list[i].clone());
        assert(texts(out@) =~= before.push(list@[i as int]@));
        assert(texts(out@) =~= head + texts(list@).take(i + 1));
        i = i + 1;
    }
    assert(texts(list@).take(list@.len() as int) =~= texts(list@));
}

impl Cmake {
    fn from_here(self) -> (r: Result<Cmake, String>)
        ensures
            (match r {
                Ok(c) => Ok(c@),
                Err(e) => Err(e@),
            }) == cmake_from(self@),
    {
        let i = self.fetched.len();
        if i < self.recipe.dependency.len() {
            let d = &self.recipe.dependency[i];
            let mut name = self.subject.clone();
            name.append("-");
            name.append(d.name.as_str());
            let source = Source {
                kind: "git".to_owned(),
                repo: Some(d.repo.clone()),
                package: None,
                pinned_ref: d.pinned_ref.clone(),
                sha: Some(d.sha.clone()),
            };
            let under = joined_path(
                joined_path(self.build_root.as_str(), self.subject.as_str()).as_str(),
                "dependencies",
            );
            let root = joined_path(under.as_str(), d.name.as_str());
            assert(source@ == dependency_source(self@.recipe.dependency[i as int]));
            match Fetch::start(
                name.as_str(),
                &source,
                Some(d.sha.clone()),
                root.as_str(),
                self.process,
            ) {
                Ok(f) => Ok(Cmake { at: CmakeAt::Dependency(f), ..self }),
                Err(e) => Err(e),
            }
        } else {
            Ok(Cmake { at: CmakeAt::Configure, ..self })
        }
    }

    /// Build a subject's library from its pinned source.
    pub fn start(subject: &str, lib_dir: &str, recipe: &CmakeBuild, build_root: &str, process: u32) -> (r: Result<
        Cmake,
        String,
    >)
        ensures
            (match r {
                Ok(c) => Ok(c@),
                Err(e) => Err(e@),
            }) == cmake_start(subject@, lib_dir@, recipe@, build_root@, process),
    {
        let c = Cmake {
            subject: subject.to_owned(),
            lib_dir: lib_dir.to_owned(),
            recipe: recipe.clone(),
            build_root: build_root.to_owned(),
            process,
            fetched: Vec::new(),
            at: CmakeAt::Configure,
        };
        assert(c@.fetched =~= Seq::empty());
        c.from_here()
    }

    fn build_dir(&self) -> (r: String)
        ensures
            r@ == cmake_build_dir(self@),
    {
        joined_path(
            joined_path(self.build_root.as_str(), self.subject.as_str()).as_str(),
            "cmake",
        )
    }

    fn configure_argv(&self) -> (r: Vec<String>)
        ensures
            texts(r@) == configure_line(self@),
    {
        let source = joined_path(
            self.lib_dir.as_str(),
            option_or(&self.recipe.source_dir, "").as_str(),
        );
        let mut v = vec![
            "cmake".to_owned(),
            "-S".to_owned(),
            source,
            "-B".to_owned(),
            self.build_dir(),
            "-G".to_owned(),
            "Ninja".to_owned(),
        ];
        let ghost head = texts(v@);
        assert(head =~= seq![
            "cmake"@,
            "-S"@,
            source@,
            "-B"@,
            cmake_build_dir(self@),
            "-G"@,
            "Ninja"@,
        ]);
        let ghost vars = cmake_variables(self@.recipe.dependency, self@.fetched);
        let mut i: usize = 0;
        assert(head + vars.take(0) =~= head);
        while i < self.fetched.len() && i < self.recipe.dependency.len()
            invariant
                i <= self.fetched@.len(),
                i <= self.recipe.dependency@.len(),
                vars == cmake_variables(self@.recipe.dependency, self@.fetched),
                texts(v@) == head + vars.take(i as int),
            decreases self.fetched@.len() - i,
        {
            let ghost before = texts(v@);
            let mut s = "-D".to_owned();
            s.append(self.recipe.dependency[i].cmake_var.as_str());
            s.append("=");
            s.append(self.fetched[i].as_str());
            assert(s@ == vars[i as int]);
            v.push(s);
            assert(texts(v@) =~= before.push(s@));
            assert(texts(v@) =~= head + vars.take(i + 1));
            i = i + 1;
        }
        assert(vars.take(i as int) =~= vars);
        push_all(&mut v, &self.recipe.configure);
        v
    }

    /// What to do next.
    pub fn request(&self) -> (r: Request)
        ensures
            r@ == cmake_request(self@),
    {
        match &self.at {
            CmakeAt::Dependency(f) => f.request(),
            CmakeAt::Configure => Request::Run(self.configure_argv()),
            CmakeAt::Building => {
                let mut v = vec!["cmake".to_owned(), "--build".to_owned(), self.build_dir()];
                assert(texts(v@) =~= seq!["cmake"@, "--build"@, cmake_build_dir(self@)]);
                if let Some(t) = &self.recipe.target {
                    v.push("--target".to_owned());
                    v.push(t.clone());
                    assert(texts(v@) =~= build_line(self@));
                }
                Request::Run(v)
            },
        }
    }

    /// What the answer to the request leads to.
    pub fn next(self, reply: &Reply) -> (r: Result<CmakeStep, String>)
        requires
            answers(cmake_request(self@), *reply),
        ensures
            cmake_step(r) == cmake_next(self@, *reply),
    {
        match &self.at {
            CmakeAt::Dependency(f) => match f.clone().next(reply) {
                Err(e) => Err(e),
                Ok(FetchStep::Again(g)) => Ok(
                    CmakeStep::Again(Cmake { at: CmakeAt::Dependency(g), ..self }),
                ),
                Ok(FetchStep::Finished { dir, .. }) => {
                    let mut fetched = copy_texts(&self.fetched);
                    let ghost before = texts(fetched@);
                    fetched.push(dir);
                    assert(texts(fetched@) =~= before.push(dir@));
                    match (Cmake { fetched, ..self }).from_here() {
                        Ok(d) => Ok(CmakeStep::Again(d)),
                        Err(e) => Err(e),
                    }
                },
            },
            CmakeAt::Configure => match fault_of(
                reply,
                around("could not configure ", self.subject.as_str(), " with cmake: "),
                around("configuring ", self.subject.as_str(), " from pinned source failed:\n"),
            ) {
                Some(e) => Err(e),
                None => Ok(CmakeStep::Again(Cmake { at: CmakeAt::Building, ..self })),
            },
            CmakeAt::Building => match fault_of(
                reply,
                around("could not build ", self.subject.as_str(), " with cmake: "),
                around("building ", self.subject.as_str(), " from pinned source failed:\n"),
            ) {
                Some(e) => Err(e),
                None => Ok(CmakeStep::Finished(self.build_dir())),
            },
        }
    }
}

/// How many answers a source build still needs at most.
pub open spec fn cmake_left(c: CmakeV) -> int {
    match c.at {
        CmakeAtV::Dependency(f) => 10 * (c.recipe.dependency.len() - c.fetched.len())
            + fetch_left(f),
        CmakeAtV::Configure => 2,
        CmakeAtV::Building => 1,
    }
}

/// A source build comes to an end.
pub proof fn cmake_ends(c: CmakeV, reply: Reply)
    requires
        c.at is Dependency ==> c.fetched.len() < c.recipe.dependency.len(),
    ensures
        match cmake_next(c, reply) {
            Ok(CmakeStepV::Again(d)) => {
                &&& 0 <= cmake_left(d) < cmake_left(c)
                &&& d.at is Dependency ==> d.fetched.len() < d.recipe.dependency.len()
            },
            _ => true,
        },
{
    if let CmakeAtV::Dependency(f) = c.at {
        fetches_end(f, reply);
    }
}

/// Where the build of a C++ driver stands.
#[allow(inconsistent_fields)]
#[derive(Debug)]
pub enum CxxAt {
    Lib(Fetch),
    Sources(Cmake),
    Compiler,
    Shim,
    MakeDir,
    ReadDims,
    WriteDims,
    Binary,
    Compile,
}

/// A [`CxxAt`] by its contents.
#[allow(inconsistent_fields)]
pub enum CxxAtV {
    Lib(FetchV),
    Sources(CmakeV),
    Compiler,
    Shim,
    MakeDir,
    ReadDims,
    WriteDims,
    Binary,
    Compile,
}

impl View for CxxAt {
    type V = CxxAtV;

    open spec fn view(&self) -> CxxAtV {
        match self {
            CxxAt::Lib(x) => CxxAtV::Lib(x@),
            CxxAt::Sources(x) => CxxAtV::Sources(x@),
            CxxAt::Compiler => CxxAtV::Compiler,
            CxxAt::Shim => CxxAtV::Shim,
            CxxAt::MakeDir => CxxAtV::MakeDir,
            CxxAt::ReadDims => CxxAtV::ReadDims,
            CxxAt::WriteDims => CxxAtV::WriteDims,
            CxxAt::Binary => CxxAtV::Binary,
            CxxAt::Compile => CxxAtV::Compile,
        }
    }
}

/// The build of a C++ driver.
#[derive(Debug)]
pub struct Cxx {
    pub subject: String,
    pub inputs: ExecInputs,
    pub build_root: String,
    pub process: u32,
    /// The library checkout, once fetched.
    pub lib_dir: String,
    /// The revision that the pin resolved to, once fetched.
    pub sha: String,
    pub cmake_dir: Option<String>,
    /// The first line of the compiler's version, once asked.
    pub compiler: String,
    /// The cache key, once the entry was read.
    pub key: String,
    pub at: CxxAt,
}

/// A [`Cxx`] by its contents.
pub struct CxxV {
    pub subject: Seq<char>,
    pub inputs: ExecInputsV,
    pub build_root: Seq<char>,
    pub process: u32,
    pub lib_dir: Seq<char>,
    pub sha: Seq<char>,
    pub cmake_dir: Option<Seq<char>>,
    pub compiler: Seq<char>,
    pub key: Seq<char>,
    pub at: CxxAtV,
}

impl View for Cxx {
    type V = CxxV;

    open spec fn view(&self) -> CxxV {
        CxxV {
            subject: self.subject@,
            inputs: self.inputs@,
            build_root: self.build_root@,
            process: self.process,
            lib_dir: self.lib_dir@,
            sha: self.sha@,
            cmake_dir: option_text(self.cmake_dir),
            compiler: self.compiler@,
            key: self.key@,
            at: self.at@,
        }
    }
}

/// What a step of a build came to.
pub enum CxxStep {
    Again(Cxx),
    Finished { built: Built, dir: String },
}

/// A [`CxxStep`] by its contents.
pub enum CxxStepV {
    Again(CxxV),
    Finished { built: BuiltV, dir: Seq<char> },
}

pub open spec fn cxx_step(r: Result<CxxStep, String>) -> Result<CxxStepV, Seq<char>> {
    match r {
        Ok(CxxStep::Again(c)) => Ok(CxxStepV::Again(c@)),
        Ok(CxxStep::Finished { built, dir }) => Ok(
            CxxStepV::Finished { built: built@, dir: dir@ },
        ),
        Err(e) => Err(e@),
    }
}

pub open spec fn first_line(s: Seq<char>) -> Seq<char> {
    if lines(s).len() > 0 {
        lines(s)[0]
    } else {
        ""@
    }
}

fn line_one(s: &str) -> (r: String)
    ensures
        r@ == first_line(s@),
{
    let ls = split_lines(s);
    if ls.len() > 0 {
        assert(texts(ls@)[0] == ls@[0]@);
        ls[0].clone()
    } else {
        "".to_owned()
    }
}

/// Numbers in decimal.
pub open spec fn dec_all(list: Seq<u32>) -> Seq<Seq<char>> {
    Seq::new(list.len(), |i: int| dec(list[i] as nat))
}

/// The part of a cache key that a dependency gives.
pub open spec fn dependency_material(d: CmakeDependencyV) -> Seq<char> {
    "\u{1}"@ + d.name + "\u{1}"@ + d.repo + "\u{1}"@ + d.pinned_ref + "\u{1}"@ + d.sha + "\u{1}"@
        + d.cmake_var
}

pub open spec fn dependencies_material(ds: Seq<CmakeDependencyV>) -> Seq<char>
    decreases ds.len(),
{
    if ds.len() == 0 {
        Seq::empty()
    } else {
        dependencies_material(ds.drop_last()) + dependency_material(ds.last())
    }
}

/// The part of a cache key that a source build gives.
pub open spec fn cmake_material(recipe: Option<CmakeBuildV>) -> Seq<char> {
    match recipe {
        None => Seq::empty(),
        Some(r) => "\u{1}"@ + join(r.configure, "\u{1}"@) + "\u{1}"@ + text_or(r.target, ""@)
            + "\u{1}"@ + join(r.include_dirs, "\u{1}"@) + "\u{1}"@ + join(r.libraries, "\u{1}"@)
            + dependencies_material(r.dependency),
    }
}

/// What a C++ driver's cache key is taken of: everything that is built, the compiler
/// among it.
pub open spec fn cxx_material(
    shim: Seq<char>,
    build: BuildV,
    sha: Seq<char>,
    compiler: Seq<char>,
) -> Seq<char> {
    "cxx-shim\u{1}"@ + shim + "\u{1}"@ + text_or(build.std, ""@) + "\u{1}"@ + join(
        build.flags,
        "\u{1}"@,
    ) + "\u{1}"@ + join(build.include_dirs, "\u{1}"@) + cmake_material(build.cmake) + "\u{1}"@
        + join(dec_all(build.compile_time_dims), ","@) + "\u{1}"@ + sha + "\u{1}"@ + compiler
}

/// The dimensionalities to specialise for: those declared, or three.
pub open spec fn dims_of(build: BuildV) -> Seq<u32> {
    if build.compile_time_dims.len() == 0 {
        seq![3u32]
    } else {
        build.compile_time_dims
    }
}

pub const DIMS_HEAD: &'static str = "// Generated by spatial-bench exec build — do not edit.\n// The dimensionality specialisations this binary carries.\n#pragma once\n#include <cstdint>\n#include <type_traits>\ntemplate <typename F>\ninline bool dispatch_dims(unsigned dims, F&& f) {\n    switch (dims) {\n";

pub open spec fn dims_case(d: u32) -> Seq<char> {
    "        case "@ + dec(d as nat) + ": { f(std::integral_constant<int, "@ + dec(d as nat)
        + ">{}); return true; }\n"@
}

pub open spec fn dims_cases(dims: Seq<u32>) -> Seq<char>
    decreases dims.len(),
{
    if dims.len() == 0 {
        Seq::empty()
    } else {
        dims_cases(dims.drop_last()) + dims_case(dims.last())
    }
}

/// The dims dispatch header: one specialisation per value.
pub open spec fn dims_text(dims: Seq<u32>) -> Seq<char> {
    DIMS_HEAD@ + dims_cases(dims) + "    }\n    return false;\n}\n"@
}

/// Where a driver is built.
pub open spec fn exec_dir(build_root: Seq<char>, subject: Seq<char>, key: Seq<char>) -> Seq<char> {
    path_join(path_join(path_join(build_root, subject), "exec"@), key)
}

pub open spec fn cxx_dir(c: CxxV) -> Seq<char> {
    exec_dir(c.build_root, c.subject, c.key)
}

/// Paths under a directory, each behind a prefix.
pub open spec fn under(prefix: Seq<char>, base: Seq<char>, list: Seq<Seq<char>>) -> Seq<Seq<char>> {
    Seq::new(list.len(), |i: int| prefix + path_join(base, list[i]))
}

/// The header directories and libraries that the source build offers.
pub open spec fn cmake_includes(c: CxxV) -> Seq<Seq<char>> {
    match (c.inputs.build.cmake, c.cmake_dir) {
        (Some(recipe), Some(dir)) => under("-I"@, dir, recipe.include_dirs),
        _ => Seq::empty(),
    }
}

pub open spec fn cmake_libraries(c: CxxV) -> Seq<Seq<char>> {
    match (c.inputs.build.cmake, c.cmake_dir) {
        (Some(recipe), Some(dir)) => under(""@, dir, recipe.libraries),
        _ => Seq::empty(),
    }
}

pub open spec fn compile_line(c: CxxV) -> Seq<Seq<char>> {
    seq!["g++"@, "-std="@ + text_or(c.inputs.build.std, "c++17"@)] + c.inputs.build.flags + under(
        "-I"@,
        c.lib_dir,
        c.inputs.build.include_dirs,
    ) + cmake_includes(c) + seq![
        "-I"@,
        cxx_dir(c),
        c.inputs.entry,
        "-o"@,
        path_join(cxx_dir(c), "driver"@),
    ] + cmake_libraries(c)
}

/// How a build starts: with the library sources.
pub open spec fn cxx_start(
    subject: Seq<char>,
    inputs: ExecInputsV,
    build_root: Seq<char>,
    process: u32,
) -> Result<CxxV, Seq<char>> {
    match fetch_start(
        subject,
        inputs.source,
        inputs.expected_sha,
        path_join(path_join(build_root, subject), "sources"@),
        process,
    ) {
        Err(e) => Err(e),
        Ok(f) => Ok(
            CxxV {
                subject,
                inputs,
                build_root,
                process,
                lib_dir: ""@,
                sha: ""@,
                cmake_dir: None,
                compiler: ""@,
                key: ""@,
                at: CxxAtV::Lib(f),
            },
        ),
    }
}

/// What a build asks for.
pub open spec fn cxx_request(c: CxxV) -> RequestV {
    match c.at {
        CxxAtV::Lib(f) => fetch_request(f),
        CxxAtV::Sources(m) => cmake_request(m),
        CxxAtV::Compiler => RequestV::Run(seq!["g++"@, "--version"@]),
        CxxAtV::Shim => RequestV::Read(c.inputs.entry),
        CxxAtV::MakeDir => RequestV::MakeDir(cxx_dir(c)),
        CxxAtV::ReadDims => RequestV::Read(path_join(cxx_dir(c), "dims.hpp"@)),
        CxxAtV::WriteDims => RequestV::Write {
            path: path_join(cxx_dir(c), "dims.hpp"@),
            content: dims_text(dims_of(c.inputs.build)),
        },
        CxxAtV::Binary => RequestV::Exists(path_join(cxx_dir(c), "driver"@)),
        CxxAtV::Compile => RequestV::Run(compile_line(c)),
    }
}

pub open spec fn cxx_built(c: CxxV) -> CxxStepV {
    CxxStepV::Finished {
        built: BuiltV {
            program: seq![path_join(cxx_dir(c), "driver"@)],
            resolved_sha: Some(c.sha),
            combinations: dims_of(c.inputs.build).len() as usize,
            cache_key: c.key,
        },
        dir: cxx_dir(c),
    }
}

pub open spec fn cxx_at(c: CxxV, at: CxxAtV) -> Result<CxxStepV, Seq<char>> {
    Ok(CxxStepV::Again(CxxV { at, ..c }))
}

/// What a build makes of an answer.
pub open spec fn cxx_next(c: CxxV, reply: Reply) -> Result<CxxStepV, Seq<char>> {
    match c.at {
        CxxAtV::Lib(f) => match fetch_next(f, reply) {
            Err(e) => Err(e),
            Ok(FetchStepV::Again(g)) => cxx_at(c, CxxAtV::Lib(g)),
            Ok(FetchStepV::Finished { dir, sha }) => {
                let d = CxxV { lib_dir: dir, sha, ..c };
                match c.inputs.build.cmake {
                    None => cxx_at(d, CxxAtV::Compiler),
                    Some(recipe) => match cmake_start(
                        c.subject,
                        dir,
                        recipe,
                        c.build_root,
                        c.process,
                    ) {
                        Err(e) => Err(e),
                        Ok(m) => cxx_at(d, CxxAtV::Sources(m)),
                    },
                }
            },
        },
        CxxAtV::Sources(m) => match cmake_next(m, reply) {
            Err(e) => Err(e),
            Ok(CmakeStepV::Again(n)) => cxx_at(c, CxxAtV::Sources(n)),
            Ok(CmakeStepV::Finished(dir)) => cxx_at(
                CxxV { cmake_dir: Some(dir), ..c },
                CxxAtV::Compiler,
            ),
        },
        CxxAtV::Compiler => match reply {
            Reply::Ran(Outcome::NotStarted(e)) => Err("could not run g++: "@ + e@),
            Reply::Ran(Outcome::Exited { success, stdout, .. }) => if success {
                cxx_at(CxxV { compiler: first_line(stdout@), ..c }, CxxAtV::Shim)
            } else {
                Err("g++ --version failed; a C++ toolchain is required for cxx exec subjects"@)
            },
            _ => Err(""@),
        },
        CxxAtV::Shim => match reply {
            Reply::Text(Ok(shim)) => cxx_at(
                CxxV {
                    key: cache_key(cxx_material(shim@, c.inputs.build, c.sha, c.compiler)),
                    ..c
                },
                CxxAtV::MakeDir,
            ),
            Reply::Text(Err(e)) => Err(c.inputs.entry + ": cannot read the exec entry: "@ + e@),
            _ => Err(""@),
        },
        CxxAtV::MakeDir => match reply {
            Reply::Done(Err(e)) => Err(cxx_dir(c) + ": "@ + e@),
            _ => cxx_at(c, CxxAtV::ReadDims),
        },
        CxxAtV::ReadDims => {
            let found = match reply {
                Reply::Text(Ok(t)) => t@,
                _ => ""@,
            };
            if found == dims_text(dims_of(c.inputs.build)) {
                cxx_at(c, CxxAtV::Binary)
            } else {
                cxx_at(c, CxxAtV::WriteDims)
            }
        },
        CxxAtV::WriteDims => match reply {
            Reply::Done(Err(e)) => Err(path_join(cxx_dir(c), "dims.hpp"@) + ": "@ + e@),
            _ => cxx_at(c, CxxAtV::Binary),
        },
        CxxAtV::Binary => if reply == Reply::Present(true) {
            Ok(cxx_built(c))
        } else {
            cxx_at(c, CxxAtV::Compile)
        },
        CxxAtV::Compile => match run_fault(
            reply,
            "could not run g++: "@,
            "compiling the "@ + c.subject + " shim failed:\n"@,
        ) {
            Some(e) => Err(e),
            None => Ok(cxx_built(c)),
        },
    }
}

fn decimals(list: &Vec<u32>) -> (r: Vec<String>)
    ensures
        texts(r@) == dec_all(list@),
{
    let mut out: Vec<String> = Vec::new();
    let mut i: usize = 0;
    while i < list.len()
        invariant
            i <= list@.len(),
            out@.len() == i,
            forall|j: int| 0 <= j < i ==> (#[trigger] out@[j])@ == dec(list@[j] as nat),
        decreases list@.len() - i,
    {
        out.push(decimal(list[i] as u64));
        i = i + 1;
    }
    assert(texts(out@) =~= dec_all(list@));
    out
}

fn push_dependencies(out: &mut String, ds: &Vec<CmakeDependency>)
    ensures
        final(out)@ == old(out)@ + dependencies_material(
            Seq::new(ds@.len(), |i: int| ds@[i]@),
        ),
{
    let ghost all = Seq::new(ds@.len(), |i: int| ds@[i]@);
    let ghost head = out@;
    let mut i: usize = 0;
    assert(head + dependencies_material(all.take(0)) =~= head);
    while i < ds.len()
        invariant
            i <= ds@.len(),
            all == Seq::new(ds@.len(), |i: int| ds@[i]@),
            out@ == head + dependencies_material(all.take(i as int)),
        decreases ds@.len() - i,
    {
        let ghost before = dependencies_material(all.take(i as int));
        proof {
            let t = all.take(i + 1);
            assert(t.drop_last() =~= all.take(i as int));
            assert(t.last() == ds@[i as int]@);
        }
        let d = &ds[i];
        let mut s = "\u{1}".to_owned();
        s.append(d.name.as_str());
        s.append("\u{1}");
        s.append(d.repo.as_str());
        s.append("\u{1}");
        s.append(d.pinned_ref.as_str());
        s.append("\u{1}");
        s.append(d.sha.as_str());
        s.append("\u{1}");
        s.append(d.cmake_var.as_str());
        out.append(s.as_str());
        assert(out@ =~= head + (before + dependency_material(d@)));
        i = i + 1;
    }
    assert(all.take(all.len() as int) =~= all);
}

fn cmake_key(recipe: &Option<CmakeBuild>) -> (r: String)
    ensures
        r@ == cmake_material(
            match *recipe {
                Some(x) => Some(x@),
                None => None,
            },
        ),
{
    match recipe {
        None => {
            let s = String::new();
            assert(s@ =~= Seq::empty());
            s
        },
        Some(recipe) => {
            let mut s = "\u{1}".to_owned();
            s.append(joined(&recipe.configure, "\u{1}").as_str());
            s.append("\u{1}");
            s.append(option_or(&recipe.target, "").as_str());
            s.append("\u{1}");
            s.append(joined(&recipe.include_dirs, "\u{1}").as_str());
            s.append("\u{1}");
            s.append(joined(&recipe.libraries, "\u{1}").as_str());
            push_dependencies(&mut s, &recipe.dependency);
            s
        },
    }
}

/// What a C++ driver's cache key is taken of.
pub fn cxx_key(shim: &str, build: &Build, sha: &str, compiler: &str) -> (r: String)
    ensures
        r@ == cache_key(cxx_material(shim@, build@, sha@, compiler@)),
{
    let mut s = "cxx-shim\u{1}".to_owned();
    s.append(shim);
    s.append("\u{1}");
    s.append(option_or(&build.std, "").as_str());
    s.append("\u{1}");
    s.append(joined(&build.flags, "\u{1}").as_str());
    s.append("\u{1}");
    s.append(joined(&build.include_dirs, "\u{1}").as_str());
    s.append(cmake_key(&build.cmake).as_str());
    s.append("\u{1}");
    s.append(joined(&decimals(&build.compile_time_dims), ",").as_str());
    s.append("\u{1}");
    s.append(sha);
    s.append("\u{1}");
    s.append(compiler);
    cache_key_of(s.as_str())
}

/// The dims dispatch header the shim includes: one specialisation per value in the
/// manifest's compile-time dimensions, selected at run time by the case's `dims` tag.
pub fn dims_hpp(dims: &Vec<u32>) -> (r: String)
    ensures
        r@ == dims_text(dims@),
{
    let mut out = DIMS_HEAD.to_owned();
    let mut i: usize = 0;
    assert(DIMS_HEAD@ + dims_cases(dims@.take(0)) =~= DIMS_HEAD@);
    while i < dims.len()
        invariant
            i <= dims@.len(),
            out@ == DIMS_HEAD@ + dims_cases(dims@.take(i as int)),
        decreases dims@.len() - i,
    {
        let ghost before = dims_cases(dims@.take(i as int));
        proof {
            let t = dims@.take(i + 1);
            assert(t.drop_last() =~= dims@.take(i as int));
            assert(t.last() == dims@[i as int]);
        }
        let d = decimal(dims[i] as u64);
        let mut s = "        case ".to_owned();
        s.append(d.as_str());
        s.append(": { f(std::integral_constant<int, ");
        s.append(d.as_str());
        s.append(">{}); return true; }\n");
        out.append(s.as_str());
        assert(out@ =~= DIMS_HEAD@ + (before + dims_case(dims@[i as int])));
        i = i + 1;
    }
    assert(dims@.take(dims@.len() as int) =~= dims@);
    out.append("    }\n    return false;\n}\n");
    out
}

fn specialised(build: &Build) -> (r: Vec<u32>)
    ensures
        r@ == dims_of(build@),
{
    if build.compile_time_dims.len() == 0 {
        let v: Vec<u32> = vec![3];
        assert(v@ =~= seq![3u32]);
        return v;
    }
    let mut v: Vec<u32> = Vec::new();
    let mut i: usize = 0;
    while i < build.compile_time_dims.len()
        invariant
            i <= build.compile_time_dims@.len(),
            v@ == build.compile_time_dims@.take(i as int),
        decreases build.compile_time_dims@.len() - i,
    {
        v.push(build.compile_time_dims[i]);
        i = i + 1;
    }
    assert(v@ =~= build.compile_time_dims@);
    v
}

fn push_under(out: &mut Vec<String>, prefix: &str, base: &str, list: &Vec<String>)
    ensures
        texts(final(out)@) == texts(old(out)@) + under(prefix@, base@, texts(list@)),
{
    let ghost head = texts(out@);
    let ghost all = under(prefix@, base@, texts(list@));
    let mut i: usize = 0;
    assert(head + all.take(0) =~= head);
    while i < list.len()
        invariant
            i <= list@.len(),
            all == under(prefix@, base@, texts(list@)),
            texts(out@) == head + all.take(i as int),
        decreases list@.len() - i,
    {
        let ghost before = texts(out@);
        let mut s = prefix.to_owned();
        s.append(joined_path(base, list[i].as_str()).as_str());
        assert(s@ == all[i as int]);
        out.push(s);
        assert(texts(out@) =~= before.push(s@));
        assert(texts(out@) =~= head + all.take(i + 1));
        i = i + 1;
    }
    assert(all.take(list@.len() as int) =~= all);
}

impl Cxx {
    /// Build a C++ driver against its pinned library.
    pub fn start(subject: &str, inputs: &ExecInputs, build_root: &str, process: u32) -> (r: Result<
        Cxx,
        String,
    >)
        ensures
            (match r {
                Ok(c) => Ok(c@),
                Err(e) => Err(e@),
            }) == cxx_start(subject@, inputs@, build_root@, process),
    {
        let root = joined_path(joined_path(build_root, subject).as_str(), "sources");
        match Fetch::start(
            subject,
            &inputs.source,
            copy_option(&inputs.expected_sha),
            root.as_str(),
            process,
        ) {
            Err(e) => Err(e),
            Ok(f) => Ok(
                Cxx {
                    subject: subject.to_owned(),
                    inputs: inputs.clone(),
                    build_root: build_root.to_owned(),
                    process,
                    lib_dir: "".to_owned(),
                    sha: "".to_owned(),
                    cmake_dir: None,
                    compiler: "".to_owned(),
                    key: "".to_owned(),
                    at: CxxAt::Lib(f),
                },
            ),
        }
    }

    fn dir(&self) -> (r: String)
        ensures
            r@ == cxx_dir(self@),
    {
        let under = joined_path(self.build_root.as_str(), self.subject.as_str());
        joined_path(joined_path(under.as_str(), "exec").as_str(), self.key.as_str())
    }

    fn file(&self, name: &str) -> (r: String)
        ensures
            r@ == path_join(cxx_dir(self@), name@),
    {
        joined_path(self.dir().as_str(), name)
    }

    fn compile_argv(&self) -> (r: Vec<String>)
        ensures
            texts(r@) == compile_line(self@),
    {
        let build = &self.inputs.build;
        let mut std = "-std=".to_owned();
        std.append(option_or(&build.std, "c++17").as_str());
        let mut v = vec!["g++".to_owned(), std];
        assert(texts(v@) =~= seq!["g++"@, "-std="@ + text_or(self@.inputs.build.std, "c++17"@)]);
        push_all(&mut v, &build.flags);
        push_under(&mut v, "-I", self.lib_dir.as_str(), &build.include_dirs);
        match (&build.cmake, &self.cmake_dir) {
            (Some(recipe), Some(dir)) => push_under(
                &mut v,
                "-I",
                dir.as_str(),
                &recipe.include_dirs,
            ),
            _ => {
                assert(texts(v@) =~= texts(v@) + Seq::<Seq<char>>::empty());
            },
        }
        let ghost head = texts(v@);
        v.push("-I".to_owned());
        v.push(self.dir());
        v.push(self.inputs.entry.clone());
        v.push("-o".to_owned());
        v.push(self.file("driver"));
        assert(texts(v@) =~= head + seq![
            "-I"@,
            cxx_dir(self@),
            self@.inputs.entry,
            "-o"@,
            path_join(cxx_dir(self@), "driver"@),
        ]);
        match (&build.cmake, &self.cmake_dir) {
            (Some(recipe), Some(dir)) => push_under(&mut v, "", dir.as_str(), &recipe.libraries),
            _ => {
                assert(texts(v@) =~= texts(v@) + Seq::<Seq<char>>::empty());
            },
        }
        v
    }

    /// What to do next.
    pub fn request(&self) -> (r: Request)
        ensures
            r@ == cxx_request(self@),
    {
        match &self.at {
            CxxAt::Lib(f) => f.request(),
            CxxAt::Sources(m) => m.request(),
            CxxAt::Compiler => {
                let v = vec!["g++".to_owned(), "--version".to_owned()];
                assert(texts(v@) =~= seq!["g++"@, "--version"@]);
                Request::Run(v)
            },
            CxxAt::Shim => Request::Read(self.inputs.entry.clone()),
            CxxAt::MakeDir => Request::MakeDir(self.dir()),
            CxxAt::ReadDims => Request::Read(self.file("dims.hpp")),
            CxxAt::WriteDims => Request::Write {
                path: self.file("dims.hpp"),
                content: dims_hpp(&specialised(&self.inputs.build)),
            },
            CxxAt::Binary => Request::Exists(self.file("driver")),
            CxxAt::Compile => Request::Run(self.compile_argv()),
        }
    }

    fn with(self, at: CxxAt) -> (r: Result<CxxStep, String>)
        ensures
            cxx_step(r) == cxx_at(self@, at@),
    {
        Ok(CxxStep::Again(Cxx { at, ..self }))
    }

    fn finished(&self) -> (r: Result<CxxStep, String>)
        ensures
            cxx_step(r) == Ok::<CxxStepV, Seq<char>>(cxx_built(self@)),
    {
        let program = vec![self.file("driver")];
        assert(texts(program@) =~= seq![path_join(cxx_dir(self@), "driver"@)]);
        let built = Built {
            program,
            resolved_sha: Some(self.sha.clone()),
            combinations: specialised(&self.inputs.build).len(),
            cache_key: self.key.clone(),
        };
        Ok(CxxStep::Finished { built, dir: self.dir() })
    }

    /// What the answer to the request leads to.
    pub fn next(self, reply: &Reply) -> (r: Result<CxxStep, String>)
        requires
            answers(cxx_request(self@), *reply),
        ensures
            cxx_step(r) == cxx_next(self@, *reply),
    {
        match &self.at {
            CxxAt::Lib(f) => match f.clone().next(reply) {
                Err(e) => Err(e),
                Ok(FetchStep::Again(g)) => self.with(CxxAt::Lib(g)),
                Ok(FetchStep::Finished { dir, sha }) => {
                    let at = match &self.inputs.build.cmake {
                        None => CxxAt::Compiler,
                        Some(recipe) => match Cmake::start(
                            self.subject.as_str(),
                            dir.as_str(),
                            recipe,
                            self.build_root.as_str(),
                            self.process,
                        ) {
                            Err(e) => {
                                return Err(e);
                            },
                            Ok(m) => CxxAt::Sources(m),
                        },
                    };
                    (Cxx { lib_dir: dir, sha, ..self }).with(at)
                },
            },
            CxxAt::Sources(m) => match m.clone().next(reply) {
                Err(e) => Err(e),
                Ok(CmakeStep::Again(n)) => self.with(CxxAt::Sources(n)),
                Ok(CmakeStep::Finished(dir)) => (Cxx { cmake_dir: Some(dir), ..self }).with(
                    CxxAt::Compiler,
                ),
            },
            CxxAt::Compiler => match reply {
                Reply::Ran(Outcome::NotStarted(e)) => {
                    let mut s = "could not run g++: ".to_owned();
                    s.append(e.as_str());
                    Err(s)
                },
                Reply::Ran(Outcome::Exited { success, stdout, .. }) => {
                    if *success {
                        (Cxx { compiler: line_one(stdout.as_str()), ..self }).with(CxxAt::Shim)
                    } else {
                        Err(
                            "g++ --version failed; a C++ toolchain is required for cxx exec subjects".to_owned(),
                        )
                    }
                },
                _ => Err("".to_owned()),
            },
            CxxAt::Shim => match reply {
                Reply::Text(Ok(shim)) => {
                    let key = cxx_key(
                        shim.as_str(),
                        &self.inputs.build,
                        self.sha.as_str(),
                        self.compiler.as_str(),
                    );
                    (Cxx { key, ..self }).with(CxxAt::MakeDir)
                },
                Reply::Text(Err(e)) => {
                    let mut s = self.inputs.entry.clone();
                    s.append(": cannot read the exec entry: ");
                    s.append(e.as_str());
                    Err(s)
                },
                _ => Err("".to_owned()),
            },
            CxxAt::MakeDir => {
                if let Reply::Done(Err(e)) = reply {
                    let mut s = self.dir();
                    s.append(": ");
                    s.append(e.as_str());
                    return Err(s);
                }
                self.with(CxxAt::ReadDims)
            },
            CxxAt::ReadDims => {
                let want = dims_hpp(&specialised(&self.inputs.build));
                let fresh = match reply {
                    Reply::Text(Ok(t)) => same(t.as_str(), want.as_str()),
                    _ => same("", want.as_str()),
                };
                if fresh {
                    self.with(CxxAt::Binary)
                } else {
                    self.with(CxxAt::WriteDims)
                }
            },
            CxxAt::WriteDims => {
                if let Reply::Done(Err(e)) = reply {
                    let mut s = self.file("dims.hpp");
                    s.append(": ");
                    s.append(e.as_str());
                    return Err(s);
                }
                self.with(CxxAt::Binary)
            },
            CxxAt::Binary => match reply {
                Reply::Present(true) => self.finished(),
                _ => self.with(CxxAt::Compile),
            },
            CxxAt::Compile => match fault_of(
                reply,
                "could not run g++: ".to_owned(),
                around("compiling the ", self.subject.as_str(), " shim failed:\n"),
            ) {
                Some(e) => Err(e),
                None => self.finished(),
            },
        }
    }
}

/// A build goes by the revision that its manifest pins.
pub open spec fn builds_pin(c: CxxV) -> bool {
    match c.at {
        CxxAtV::Lib(f) => keeps_pin(f) && f.expected == c.inputs.expected_sha,
        _ => c.inputs.expected_sha is Some ==> c.inputs.expected_sha == Some(c.sha),
    }
}

/// What is built is what the manifest pins: whatever the answers, a C++ build that
/// finishes names the expected revision as the one it built against.
pub proof fn the_pinned_revision_is_built(c: CxxV, reply: Reply)
    requires
        builds_pin(c),
        answers(cxx_request(c), reply),
    ensures
        match cxx_next(c, reply) {
            Ok(CxxStepV::Again(d)) => builds_pin(d) && d.inputs == c.inputs,
            Ok(CxxStepV::Finished { built, .. }) => c.inputs.expected_sha is Some
                ==> built.resolved_sha == c.inputs.expected_sha,
            Err(_) => true,
        },
{
    if let CxxAtV::Lib(f) = c.at {
        a_moved_ref_is_caught(f, reply);
    }
}

/// How many answers a build still needs at most.
pub open spec fn cxx_left(c: CxxV) -> int {
    match c.at {
        CxxAtV::Lib(f) => 10 + 10 * (cmake_dependencies(c) as int + 1) + fetch_left(f),
        CxxAtV::Sources(m) => 10 + cmake_left(m),
        CxxAtV::Compiler => 7,
        CxxAtV::Shim => 6,
        CxxAtV::MakeDir => 5,
        CxxAtV::ReadDims => 4,
        CxxAtV::WriteDims => 3,
        CxxAtV::Binary => 2,
        CxxAtV::Compile => 1,
    }
}

pub open spec fn cmake_dependencies(c: CxxV) -> nat {
    match c.inputs.build.cmake {
        Some(recipe) => recipe.dependency.len(),
        None => 0,
    }
}

/// A machine inside a build has dependencies left where it fetches one.
pub open spec fn cxx_counts(c: CxxV) -> bool {
    match c.at {
        CxxAtV::Sources(m) => m.at is Dependency ==> m.fetched.len() < m.recipe.dependency.len(),
        _ => true,
    }
}

/// A C++ build comes to an end.
pub proof fn cxx_builds_end(c: CxxV, reply: Reply)
    requires
        cxx_counts(c),
    ensures
        match cxx_next(c, reply) {
            Ok(CxxStepV::Again(d)) => cxx_counts(d) && 0 <= cxx_left(d) < cxx_left(c),
            _ => true,
        },
{
    match c.at {
        CxxAtV::Lib(f) => {
            fetches_end(f, reply);
        },
        CxxAtV::Sources(m) => {
            cmake_ends(m, reply);
        },
        _ => {},
    }
}

/// Where a python environment stands.
#[derive(Clone, Copy, Debug, PartialEq, Eq, Structural)]
pub enum PythonAt {
    Entry,
    Interpreter,
    MakeDir,
    Look,
    Venv,
    Marker,
    Install,
    WriteMarker,
}

/// The environment of a python driver.
#[derive(Debug)]
pub struct Python {
    pub subject: String,
    pub inputs: ExecInputs,
    pub build_root: String,
    /// The entry file's text, once read.
    pub driver: String,
    /// The cache key, once the interpreter was asked.
    pub key: String,
    pub at: PythonAt,
}

/// A [`Python`] by its contents.
pub struct PythonV {
    pub subject: Seq<char>,
    pub inputs: ExecInputsV,
    pub build_root: Seq<char>,
    pub driver: Seq<char>,
    pub key: Seq<char>,
    pub at: PythonAt,
}

impl View for Python {
    type V = PythonV;

    open spec fn view(&self) -> PythonV {
        PythonV {
            subject: self.subject@,
            inputs: self.inputs@,
            build_root: self.build_root@,
            driver: self.driver@,
            key: self.key@,
            at: self.at,
        }
    }
}

/// What a step of an environment came to.
pub enum PythonStep {
    Again(Python),
    Finished { built: Built, dir: String },
}

/// A [`PythonStep`] by its contents.
pub enum PythonStepV {
    Again(PythonV),
    Finished { built: BuiltV, dir: Seq<char> },
}

pub open spec fn python_step(r: Result<PythonStep, String>) -> Result<PythonStepV, Seq<char>> {
    match r {
        Ok(PythonStep::Again(p)) => Ok(PythonStepV::Again(p@)),
        Ok(PythonStep::Finished { built, dir }) => Ok(
            PythonStepV::Finished { built: built@, dir: dir@ },
        ),
        Err(e) => Err(e@),
    }
}

/// What a python driver's cache key is taken of.
pub open spec fn python_material(driver: Seq<char>, source: SourceV, python: Seq<char>) -> Seq<
    char,
> {
    "python-driver\u{1}"@ + driver + "\u{1}"@ + source.kind + "\u{1}"@ + text_or(
        source.package,
        ""@,
    ) + "\u{1}"@ + source.pinned_ref + "\u{1}"@ + python
}

/// What pip installs for a source: a package at its version, a repository at its
/// ref, or nothing.
pub open spec fn installed(subject: Seq<char>, source: SourceV) -> Result<Seq<char>, Seq<char>> {
    if source.kind == "pypi"@ {
        match source.package {
            Some(p) => Ok(p + "=="@ + source.pinned_ref),
            None => Err(subject + ": source kind pypi declares no package name"@),
        }
    } else if source.kind == "git"@ {
        match source.repo {
            Some(r) => Ok("git+"@ + r + "@"@ + source.pinned_ref),
            None => Err(subject + ": source kind git declares no repo"@),
        }
    } else {
        Ok(""@)
    }
}

pub open spec fn python_dir(p: PythonV) -> Seq<char> {
    exec_dir(p.build_root, p.subject, p.key)
}

/// What is being installed, where something is.
pub open spec fn wanted(p: PythonV) -> Seq<char> {
    match installed(p.subject, p.inputs.source) {
        Ok(s) => s,
        Err(_) => ""@,
    }
}

/// What an environment asks for.
pub open spec fn python_request(p: PythonV) -> RequestV {
    match p.at {
        PythonAt::Entry => RequestV::Read(p.inputs.entry),
        PythonAt::Interpreter => RequestV::Run(seq!["python3"@, "--version"@]),
        PythonAt::MakeDir => RequestV::MakeDir(python_dir(p)),
        PythonAt::Look => RequestV::Exists(path_join(python_dir(p), "venv/bin/python"@)),
        PythonAt::Venv => RequestV::Run(
            seq!["python3"@, "-m"@, "venv"@, path_join(python_dir(p), "venv"@)],
        ),
        PythonAt::Marker => RequestV::Read(path_join(python_dir(p), ".installed"@)),
        PythonAt::Install => RequestV::Run(
            seq![
                path_join(python_dir(p), "venv/bin/pip"@),
                "install"@,
                "--quiet"@,
                wanted(p),
            ],
        ),
        PythonAt::WriteMarker => RequestV::Write {
            path: path_join(python_dir(p), ".installed"@),
            content: wanted(p) + "\n"@,
        },
    }
}

pub open spec fn python_built(p: PythonV) -> PythonStepV {
    PythonStepV::Finished {
        built: BuiltV {
            program: seq![path_join(python_dir(p), "venv/bin/python"@), p.inputs.entry],
            resolved_sha: None,
            combinations: 1,
            cache_key: p.key,
        },
        dir: python_dir(p),
    }
}

pub open spec fn python_at(p: PythonV, at: PythonAt) -> Result<PythonStepV, Seq<char>> {
    Ok(PythonStepV::Again(PythonV { at, ..p }))
}

/// Once the environment stands: on to the library, where there is one.
pub open spec fn python_library(p: PythonV) -> Result<PythonStepV, Seq<char>> {
    match installed(p.subject, p.inputs.source) {
        Err(e) => Err(e),
        Ok(s) => if s.len() == 0 {
            Ok(python_built(p))
        } else {
            python_at(p, PythonAt::Marker)
        },
    }
}

/// What an environment makes of an answer.
pub open spec fn python_next(p: PythonV, reply: Reply) -> Result<PythonStepV, Seq<char>> {
    match p.at {
        PythonAt::Entry => match reply {
            Reply::Text(Ok(t)) => python_at(PythonV { driver: t@, ..p }, PythonAt::Interpreter),
            Reply::Text(Err(e)) => Err(p.inputs.entry + ": cannot read the exec entry: "@ + e@),
            _ => Err(""@),
        },
        PythonAt::Interpreter => match reply {
            Reply::Ran(Outcome::NotStarted(e)) => Err("could not run python3: "@ + e@),
            Reply::Ran(Outcome::Exited { stdout, .. }) => python_at(
                PythonV {
                    key: cache_key(
                        python_material(p.driver, p.inputs.source, first_line(stdout@)),
                    ),
                    ..p
                },
                PythonAt::MakeDir,
            ),
            _ => Err(""@),
        },
        PythonAt::MakeDir => match reply {
            Reply::Done(Err(e)) => Err(python_dir(p) + ": "@ + e@),
            _ => python_at(p, PythonAt::Look),
        },
        PythonAt::Look => if reply == Reply::Present(true) {
            python_library(p)
        } else {
            python_at(p, PythonAt::Venv)
        },
        PythonAt::Venv => match run_fault(
            reply,
            "could not run python3 -m venv: "@,
            "creating the "@ + p.subject + " venv failed:\n"@,
        ) {
            Some(e) => Err(e),
            None => python_library(p),
        },
        PythonAt::Marker => {
            let found = match reply {
                Reply::Text(Ok(t)) => t@,
                _ => ""@,
            };
            if found == wanted(p) + "\n"@ {
                Ok(python_built(p))
            } else {
                python_at(p, PythonAt::Install)
            }
        },
        PythonAt::Install => match run_fault(
            reply,
            "could not run pip: "@,
            "installing "@ + wanted(p) + " for "@ + p.subject + " failed:\n"@,
        ) {
            Some(e) => Err(e),
            None => python_at(p, PythonAt::WriteMarker),
        },
        PythonAt::WriteMarker => match reply {
            Reply::Done(Err(e)) => Err(e@),
            _ => Ok(python_built(p)),
        },
    }
}

/// What pip installs for a source.
pub fn to_install(subject: &str, source: &Source) -> (r: Result<String, String>)
    ensures
        (match r {
            Ok(s) => Ok(s@),
            Err(e) => Err(e@),
        }) == installed(subject@, source@),
{
    if same(source.kind.as_str(), "pypi") {
        match &source.package {
            Some(p) => {
                let mut s = p.clone();
                s.append("==");
                s.append(source.pinned_ref.as_str());
                Ok(s)
            },
            None => {
                let mut s = subject.to_owned();
                s.append(": source kind pypi declares no package name");
                Err(s)
            },
        }
    } else if same(source.kind.as_str(), "git") {
        match &source.repo {
            Some(r) => {
                let mut s = "git+".to_owned();
                s.append(r.as_str());
                s.append("@");
                s.append(source.pinned_ref.as_str());
                Ok(s)
            },
            None => {
                let mut s = subject.to_owned();
                s.append(": source kind git declares no repo");
                Err(s)
            },
        }
    } else {
        Ok("".to_owned())
    }
}

impl Python {
    /// Set up a python driver with its pinned library.
    pub fn start(subject: &str, inputs: &ExecInputs, build_root: &str) -> (r: Python)
        ensures
            r@ == (PythonV {
                subject: subject@,
                inputs: inputs@,
                build_root: build_root@,
                driver: ""@,
                key: ""@,
                at: PythonAt::Entry,
            }),
    {
        Python {
            subject: subject.to_owned(),
            inputs: inputs.clone(),
            build_root: build_root.to_owned(),
            driver: "".to_owned(),
            key: "".to_owned(),
            at: PythonAt::Entry,
        }
    }

    fn dir(&self) -> (r: String)
        ensures
            r@ == python_dir(self@),
    {
        let under = joined_path(self.build_root.as_str(), self.subject.as_str());
        joined_path(joined_path(under.as_str(), "exec").as_str(), self.key.as_str())
    }

    fn file(&self, name: &str) -> (r: String)
        ensures
            r@ == path_join(python_dir(self@), name@),
    {
        joined_path(self.dir().as_str(), name)
    }

    fn library(&self) -> (r: String)
        ensures
            r@ == wanted(self@),
    {
        match to_install(self.subject.as_str(), &self.inputs.source) {
            Ok(s) => s,
            Err(_) => "".to_owned(),
        }
    }

    /// What to do next.
    pub fn request(&self) -> (r: Request)
        ensures
            r@ == python_request(self@),
    {
        match self.at {
            PythonAt::Entry => Request::Read(self.inputs.entry.clone()),
            PythonAt::Interpreter => {
                let v = vec!["python3".to_owned(), "--version".to_owned()];
                assert(texts(v@) =~= python_request(self@)->Run_0);
                Request::Run(v)
            },
            PythonAt::MakeDir => Request::MakeDir(self.dir()),
            PythonAt::Look => Request::Exists(self.file("venv/bin/python")),
            PythonAt::Venv => {
                let v = vec![
                    "python3".to_owned(),
                    "-m".to_owned(),
                    "venv".to_owned(),
                    self.file("venv"),
                ];
                assert(texts(v@) =~= python_request(self@)->Run_0);
                Request::Run(v)
            },
            PythonAt::Marker => Request::Read(self.file(".installed")),
            PythonAt::Install => {
                let v = vec![
                    self.file("venv/bin/pip"),
                    "install".to_owned(),
                    "--quiet".to_owned(),
                    self.library(),
                ];
                assert(texts(v@) =~= python_request(self@)->Run_0);
                Request::Run(v)
            },
            PythonAt::WriteMarker => {
                let mut content = self.library();
                content.append("\n");
                Request::Write { path: self.file(".installed"), content }
            },
        }
    }

    fn with(self, at: PythonAt) -> (r: Result<PythonStep, String>)
        ensures
            python_step(r) == python_at(self@, at),
    {
        Ok(PythonStep::Again(Python { at, ..self }))
    }

    fn finished(&self) -> (r: Result<PythonStep, String>)
        ensures
            python_step(r) == Ok::<PythonStepV, Seq<char>>(python_built(self@)),
    {
        let program = vec![self.file("venv/bin/python"), self.inputs.entry.clone()];
        assert(texts(program@) =~= seq![
            path_join(python_dir(self@), "venv/bin/python"@),
            self@.inputs.entry,
        ]);
        let built = Built {
            program,
            resolved_sha: None,
            combinations: 1,
            cache_key: self.key.clone(),
        };
        Ok(PythonStep::Finished { built, dir: self.dir() })
    }

    fn on_to_library(self) -> (r: Result<PythonStep, String>)
        ensures
            python_step(r) == python_library(self@),
    {
        match to_install(self.subject.as_str(), &self.inputs.source) {
            Err(e) => Err(e),
            Ok(s) => {
                if s.as_str().is_empty() {
                    self.finished()
                } else {
                    self.with(PythonAt::Marker)
                }
            },
        }
    }

    /// What the answer to the request leads to.
    pub fn next(self, reply: &Reply) -> (r: Result<PythonStep, String>)
        requires
            answers(python_request(self@), *reply),
        ensures
            python_step(r) == python_next(self@, *reply),
    {
        match self.at {
            PythonAt::Entry => match reply {
                Reply::Text(Ok(t)) => (Python { driver: t.clone(), ..self }).with(
                    PythonAt::Interpreter,
                ),
                Reply::Text(Err(e)) => {
                    let mut s = self.inputs.entry.clone();
                    s.append(": cannot read the exec entry: ");
                    s.append(e.as_str());
                    Err(s)
                },
                _ => Err("".to_owned()),
            },
            PythonAt::Interpreter => match reply {
                Reply::Ran(Outcome::NotStarted(e)) => {
                    let mut s = "could not run python3: ".to_owned();
                    s.append(e.as_str());
                    Err(s)
                },
                Reply::Ran(Outcome::Exited { stdout, .. }) => {
                    let mut m = "python-driver\u{1}".to_owned();
                    m.append(self.driver.as_str());
                    m.append("\u{1}");
                    m.append(self.inputs.source.kind.as_str());
                    m.append("\u{1}");
                    m.append(option_or(&self.inputs.source.package, "").as_str());
                    m.append("\u{1}");
                    m.append(self.inputs.source.pinned_ref.as_str());
                    m.append("\u{1}");
                    m.append(line_one(stdout.as_str()).as_str());
                    let key = cache_key_of(m.as_str());
                    (Python { key, ..self }).with(PythonAt::MakeDir)
                },
                _ => Err("".to_owned()),
            },
            PythonAt::MakeDir => {
                if let Reply::Done(Err(e)) = reply {
                    let mut s = self.dir();
                    s.append(": ");
                    s.append(e.as_str());
                    return Err(s);
                }
                self.with(PythonAt::Look)
            },
            PythonAt::Look => match reply {
                Reply::Present(true) => self.on_to_library(),
                _ => self.with(PythonAt::Venv),
            },
            PythonAt::Venv => match fault_of(
                reply,
                "could not run python3 -m venv: ".to_owned(),
                around("creating the ", self.subject.as_str(), " venv failed:\n"),
            ) {
                Some(e) => Err(e),
                None => self.on_to_library(),
            },
            PythonAt::Marker => {
                let mut want = self.library();
                want.append("\n");
                let done = match reply {
                    Reply::Text(Ok(t)) => same(t.as_str(), want.as_str()),
                    _ => same("", want.as_str()),
                };
                if done {
                    self.finished()
                } else {
                    self.with(PythonAt::Install)
                }
            },
            PythonAt::Install => {
                let mut failed = around("installing ", self.library().as_str(), " for ");
                failed.append(self.subject.as_str());
                failed.append(" failed:\n");
                match fault_of(reply, "could not run pip: ".to_owned(), failed) {
                    Some(e) => Err(e),
                    None => self.with(PythonAt::WriteMarker),
                }
            },
            PythonAt::WriteMarker => {
                if let Reply::Done(Err(e)) = reply {
                    return Err(e.clone());
                }
                self.finished()
            },
        }
    }
}

/// How many answers an environment still needs at most.
pub open spec fn python_left(p: PythonV) -> nat {
    match p.at {
        PythonAt::Entry => 8,
        PythonAt::Interpreter => 7,
        PythonAt::MakeDir => 6,
        PythonAt::Look => 5,
        PythonAt::Venv => 4,
        PythonAt::Marker => 3,
        PythonAt::Install => 2,
        PythonAt::WriteMarker => 1,
    }
}

/// A python environment comes to an end.
pub proof fn python_builds_end(p: PythonV, reply: Reply)
    ensures
        match python_next(p, reply) {
            Ok(PythonStepV::Again(q)) => python_left(q) < python_left(p),
            _ => true,
        },
{
}

// ---------------------------------------------------------------- either language

/// The build of an exec subject, in its language.
pub enum ExecBuild {
    Cxx(Cxx),
    Python(Python),
}

/// Build (or reuse) the driver environment for an exec subject.
///
/// Everything lands under `<build_root>/<subject>/exec/<cache_key>/`, engine output
/// and never sources, and the library sources under
/// `<build_root>/<subject>/sources/<resolved sha>/`, immutable per revision.
pub fn prepare(subject: &str, inputs: &ExecInputs, build_root: &str, process: u32) -> (r: Result<
    ExecBuild,
    String,
>)
    ensures
        if inputs@.lang == "cxx"@ {
            match cxx_start(subject@, inputs@, build_root@, process) {
                Ok(c) => r matches Ok(ExecBuild::Cxx(x)) && x@ == c,
                Err(e) => r matches Err(f) && f@ == e,
            }
        } else if inputs@.lang == "python"@ {
            &&& r matches Ok(ExecBuild::Python(p))
            &&& p@ == (PythonV {
                subject: subject@,
                inputs: inputs@,
                build_root: build_root@,
                driver: ""@,
                key: ""@,
                at: PythonAt::Entry,
            })
        } else {
            &&& r matches Err(f)
            &&& f@ == "exec language `"@ + inputs@.lang
                + "` is not one of cxx, python — the manifest loader should have caught this"@
        },
{
    if same(inputs.lang.as_str(), "cxx") {
        match Cxx::start(subject, inputs, build_root, process) {
            Ok(c) => Ok(ExecBuild::Cxx(c)),
            Err(e) => Err(e),
        }
    } else if same(inputs.lang.as_str(), "python") {
        Ok(ExecBuild::Python(Python::start(subject, inputs, build_root)))
    } else {
        let mut s = "exec language `".to_owned();
        s.append(inputs.lang.as_str());
        s.append("` is not one of cxx, python — the manifest loader should have caught this");
        Err(s)
    }
}

} // verus!
