//! Submitting completed run documents to the dataset repository.
//!
//! Which documents may be submitted is decided from their text. What follows is done
//! one request at a time: the documents are copied into a checkout of the results
//! repository, machines are recorded once each, and the change is committed, pushed
//! and proposed.

use crate::data::{
    entries_of, get_text, json_document, json_to_toml, parse_json, toml_answer, toml_text,
    without_nulls, Data, DataV,
};
use crate::package::Outcome;
use crate::paths::{joined_path, path_join};
use crate::schema::SCHEMA_VERSION;
use crate::text::{
    chars, dec, decimal, option_text, outcome_text, text_of, texts, trim, trimmed,
};
use vstd::prelude::*;

verus! {

// ---------------------------------------------------------------- what may be submitted

#[derive(Clone, Copy, Debug, PartialEq, Eq, Structural)]
pub enum Verdict {
    Submit,
    /// A worktree build, or one without provenance.
    Skip,
    /// No run document at all.
    Ignore,
}

/// Whether a subject's record names the revision that was built.
pub open spec fn has_revision(subject: DataV) -> bool {
    get_text(Some(subject), "sha"@) matches Some(sha) && sha.len() > 0
}

pub open spec fn every_revision(subjects: Seq<(Seq<char>, DataV)>) -> bool {
    forall|i: int| 0 <= i < subjects.len() ==> has_revision((#[trigger] subjects[i]).1)
}

pub open spec fn all_pinned(subjects: Option<DataV>) -> bool {
    match subjects {
        Some(DataV::Table(entries)) => every_revision(entries),
        _ => true,
    }
}

/// Whether the run was built from a worktree with changes in it; a run that does not
/// say counts as one.
pub open spec fn is_dirty(run: DataV) -> bool {
    match run.get("source"@) {
        Some(source) => match source.get("git_dirty"@) {
            Some(d) => match d.as_bool() {
                Some(b) => b,
                None => true,
            },
            None => true,
        },
        None => true,
    }
}

pub open spec fn verdict(doc: DataV) -> Verdict {
    let schema = match doc.get("schema_version"@) {
        Some(v) => v.as_natural(),
        None => None,
    };
    if schema != Some(SCHEMA_VERSION as u64) {
        Verdict::Skip
    } else {
        match doc.get("run"@) {
            None => Verdict::Ignore,
            Some(run) => if is_dirty(run) || !all_pinned(run.get("subjects"@)) {
                Verdict::Skip
            } else {
                Verdict::Submit
            },
        }
    }
}

/// What is submitted was built from a clean tree, and records the revision of each of
/// its subjects.
pub proof fn submitted_runs_are_reproducible(doc: DataV)
    requires
        verdict(doc) == Verdict::Submit,
    ensures
        doc.get("run"@) matches Some(run) && run.get("source"@) matches Some(source) && source.get(
            "git_dirty"@,
        ) == Some(DataV::Bool(false)) && all_pinned(run.get("subjects"@)),
{
}

fn dirty(run: &Data) -> (r: bool)
    ensures
        r == is_dirty(run@),
{
    match run.get("source") {
        Some(source) => match source.get("git_dirty") {
            Some(d) => match d.as_bool() {
                Some(b) => b,
                None => true,
            },
            None => true,
        },
        None => true,
    }
}

fn pinned(subjects: Option<&Data>) -> (r: bool)
    ensures
        r == all_pinned(
            match subjects {
                Some(d) => Some(d@),
                None => None,
            },
        ),
{
    let table = match subjects {
        Some(d) => match d.as_table() {
            Some(t) => t,
            None => {
                return true;
            },
        },
        None => {
            return true;
        },
    };
    let ghost entries = entries_of(table@);
    let mut i: usize = 0;
    while i < table.len()
        invariant
            i <= table@.len(),
            entries == entries_of(table@),
            subjects is Some,
            subjects->Some_0@ == DataV::Table(entries),
            forall|j: int| 0 <= j < i ==> has_revision((#[trigger] entries[j]).1),
        decreases table@.len() - i,
    {
        assert(entries[i as int].1 == table@[i as int].1@);
        let named = match table[i].1.text_at("sha") {
            Some(s) => !s.as_str().is_empty(),
            None => false,
        };
        if !named {
            proof {
                assert(!has_revision(entries[i as int].1));
                assert(!every_revision(entries));
            }
            return false;
        }
        i = i + 1;
    }
    true
}

/// Whether a document that has been read as JSON may be submitted.
pub fn verdict_on(doc: &Data) -> (r: Verdict)
    ensures
        r == verdict(doc@),
{
    let schema = match doc.get("schema_version") {
        Some(v) => v.as_natural(),
        None => None,
    };
    match schema {
        Some(n) => {
            if n != SCHEMA_VERSION as u64 {
                return Verdict::Skip;
            }
        },
        None => {
            return Verdict::Skip;
        },
    }
    match doc.get("run") {
        None => Verdict::Ignore,
        Some(run) => if dirty(run) || !pinned(run.get("subjects")) {
            Verdict::Skip
        } else {
            Verdict::Submit
        },
    }
}

// ---------------------------------------------------------------- the runs to submit

/// A run document found on disk, and its text where it could be read.
#[derive(Debug)]
pub struct RunFile {
    pub name: String,
    pub path: String,
    pub text: Option<String>,
}

pub struct RunFileV {
    pub name: Seq<char>,
    pub path: Seq<char>,
    pub text: Option<Seq<char>>,
}

impl View for RunFile {
    type V = RunFileV;

    open spec fn view(&self) -> RunFileV {
        RunFileV { name: self.name@, path: self.path@, text: option_text(self.text) }
    }
}

pub open spec fn run_files(v: Seq<RunFile>) -> Seq<RunFileV> {
    Seq::new(v.len(), |i: int| v[i]@)
}

/// A run to submit: its document, and the machine that it was measured on.
#[derive(Debug)]
pub struct SubmitRun {
    pub name: String,
    pub path: String,
    pub machine_hash: String,
    pub machine: Option<Data>,
}

pub struct SubmitRunV {
    pub name: Seq<char>,
    pub path: Seq<char>,
    pub machine_hash: Seq<char>,
    pub machine: Option<DataV>,
}

impl View for SubmitRun {
    type V = SubmitRunV;

    open spec fn view(&self) -> SubmitRunV {
        SubmitRunV {
            name: self.name@,
            path: self.path@,
            machine_hash: self.machine_hash@,
            machine: match self.machine {
                Some(d) => Some(d@),
                None => None,
            },
        }
    }
}

pub open spec fn submit_runs(v: Seq<SubmitRun>) -> Seq<SubmitRunV> {
    Seq::new(v.len(), |i: int| v[i]@)
}

/// A document as a run to submit.
pub open spec fn run_in(file: RunFileV, doc: DataV) -> SubmitRunV {
    let run = doc.get("run"@);
    SubmitRunV {
        name: file.name,
        path: file.path,
        machine_hash: match get_text(run, "machine_hash"@) {
            Some(h) => h,
            None => Seq::empty(),
        },
        machine: match run {
            Some(r) => r.get("machine"@),
            None => None,
        },
    }
}

/// What reading a file makes of it; nothing where it could not be read or is no JSON.
pub open spec fn file_document(file: RunFileV) -> Option<DataV> {
    match file.text {
        Some(t) => match json_document(t) {
            Ok(d) => Some(d),
            Err(_) => None,
        },
        None => None,
    }
}

pub open spec fn file_verdict(file: RunFileV) -> Verdict {
    match file_document(file) {
        Some(d) => verdict(d),
        None => Verdict::Ignore,
    }
}

/// The runs to submit among some files, in their order.
pub open spec fn submittable(files: Seq<RunFileV>) -> Seq<SubmitRunV>
    decreases files.len(),
{
    if files.len() == 0 {
        Seq::empty()
    } else {
        let rest = submittable(files.drop_last());
        if file_verdict(files.last()) == Verdict::Submit {
            rest.push(run_in(files.last(), file_document(files.last())->Some_0))
        } else {
            rest
        }
    }
}

/// How many documents were skipped.
pub open spec fn skipped_in(files: Seq<RunFileV>) -> nat
    decreases files.len(),
{
    if files.len() == 0 {
        0
    } else {
        skipped_in(files.drop_last()) + (if file_verdict(files.last()) == Verdict::Skip {
            1nat
        } else {
            0nat
        })
    }
}

proof fn skipped_are_files(files: Seq<RunFileV>)
    ensures
        skipped_in(files) <= files.len(),
    decreases files.len(),
{
    if files.len() > 0 {
        skipped_are_files(files.drop_last());
    }
}

/// A document that has been read as JSON, as a run to submit.
pub fn run_of(file: &RunFile, doc: &Data) -> (r: SubmitRun)
    ensures
        r@ == run_in(file@, doc@),
{
    let run = doc.get("run");
    let machine_hash = match run {
        Some(v) => match v.text_at("machine_hash") {
            Some(h) => h.clone(),
            None => String::new(),
        },
        None => String::new(),
    };
    let machine = match run {
        Some(v) => match v.get("machine") {
            Some(m) => Some(m.clone()),
            None => None,
        },
        None => None,
    };
    let r = SubmitRun { name: file.name.clone(), path: file.path.clone(), machine_hash, machine };
    assert(r@.machine_hash =~= run_in(file@, doc@).machine_hash);
    r
}

/// The runs to submit, and how many documents were skipped; refused when there is
/// none to submit.
pub fn select_runs(files: &Vec<RunFile>) -> (r: Result<(Vec<SubmitRun>, usize), String>)
    ensures
        r is Ok <==> submittable(run_files(files@)).len() > 0,
        r matches Ok(p) ==> submit_runs(p.0@) == submittable(run_files(files@)) && p.1
            == skipped_in(run_files(files@)),
        r matches Err(e) ==> e@ == "no submittable runs found ("@ + dec(
            skipped_in(run_files(files@)),
        ) + " skipped: worktree builds or missing provenance)"@,
{
    let ghost all = run_files(files@);
    let mut out: Vec<SubmitRun> = Vec::new();
    let mut skipped: usize = 0;
    let mut i: usize = 0;
    assert(submit_runs(out@) =~= submittable(all.take(0)));
    while i < files.len()
        invariant
            i <= files@.len(),
            all == run_files(files@),
            submit_runs(out@) == submittable(all.take(i as int)),
            skipped == skipped_in(all.take(i as int)),
            skipped <= i,
        decreases files@.len() - i,
    {
        proof {
            assert(all.take(i + 1).drop_last() =~= all.take(i as int));
            assert(all.take(i + 1).last() == files@[i as int]@);
        }
        match &files[i].text {
            Some(t) => match parse_json(t.as_str()) {
                Ok(doc) => match verdict_on(&doc) {
                    Verdict::Submit => {
                        let ghost before = out@;
                        let run = run_of(&files[i], &doc);
                        out.push(run);
                        assert(submit_runs(out@) =~= submit_runs(before).push(run@));
                    },
                    Verdict::Skip => {
                        skipped = skipped + 1;
                    },
                    Verdict::Ignore => {},
                },
                Err(_) => {},
            },
            None => {},
        }
        i = i + 1;
    }
    assert(all.take(i as int) =~= all);
    assert(submit_runs(out@).len() == out@.len());
    if out.len() == 0 {
        let mut e = "no submittable runs found (".to_owned();
        e.append(decimal(skipped as u64).as_str());
        e.append(" skipped: worktree builds or missing provenance)");
        return Err(e);
    }
    Ok((out, skipped))
}

/// What is said before anything is copied.
pub fn counted_line(runs: usize, skipped: usize) -> (r: String)
    ensures
        r@ == dec(runs as nat) + " submittable run(s), "@ + dec(skipped as nat) + " skipped"@,
{
    let mut s = decimal(runs as u64);
    s.append(" submittable run(s), ");
    s.append(decimal(skipped as u64).as_str());
    s.append(" skipped");
    s
}

// ---------------------------------------------------------------- doing it

/// Whether a name's month can be cut out of it: six characters of one byte each.
pub open spec fn names_a_month(name: Seq<char>) -> bool {
    name.len() >= 6 && forall|i: int| 0 <= i < 6 ==> (#[trigger] name[i] as u32) < 128
}

pub fn has_month(name: &str) -> (r: bool)
    ensures
        r == names_a_month(name@),
{
    let v = chars(name);
    if v.len() < 6 {
        return false;
    }
    let mut i: usize = 0;
    while i < 6
        invariant
            i <= 6 <= v@.len(),
            v@ == name@,
            forall|j: int| 0 <= j < i ==> (#[trigger] name@[j] as u32) < 128,
        decreases 6 - i,
    {
        if v[i] as u32 >= 128 {
            assert(name@[i as int] as u32 >= 128);
            return false;
        }
        i = i + 1;
    }
    true
}

/// The month directory of a document, from its name: `YYYYMM...` goes to `YYYY-MM`.
pub open spec fn month_of(name: Seq<char>) -> Seq<char> {
    name.subrange(0, 4) + "-"@ + name.subrange(4, 6)
}

fn month_dir(name: &str) -> (r: String)
    requires
        names_a_month(name@),
    ensures
        r@ == month_of(name@),
{
    let v = chars(name);
    let mut s = text_of(&v, 0, 4);
    s.append("-");
    s.append(text_of(&v, 4, 6).as_str());
    s
}

/// Where a submission stands.
#[derive(Debug)]
pub enum SubmitAt {
    Datasets,
    Month(usize),
    Copy(usize),
    Machines,
    Known(usize),
    Record(usize, String),
    Checkout,
    Add,
    Status,
    Commit,
    Push,
    Propose,
}

pub enum SubmitAtV {
    Datasets,
    Month(int),
    Copy(int),
    Machines,
    Known(int),
    Record(int, Seq<char>),
    Checkout,
    Add,
    Status,
    Commit,
    Push,
    Propose,
}

impl View for SubmitAt {
    type V = SubmitAtV;

    open spec fn view(&self) -> SubmitAtV {
        match self {
            SubmitAt::Datasets => SubmitAtV::Datasets,
            SubmitAt::Month(i) => SubmitAtV::Month(*i as int),
            SubmitAt::Copy(i) => SubmitAtV::Copy(*i as int),
            SubmitAt::Machines => SubmitAtV::Machines,
            SubmitAt::Known(i) => SubmitAtV::Known(*i as int),
            SubmitAt::Record(i, t) => SubmitAtV::Record(*i as int, t@),
            SubmitAt::Checkout => SubmitAtV::Checkout,
            SubmitAt::Add => SubmitAtV::Add,
            SubmitAt::Status => SubmitAtV::Status,
            SubmitAt::Commit => SubmitAtV::Commit,
            SubmitAt::Push => SubmitAtV::Push,
            SubmitAt::Propose => SubmitAtV::Propose,
        }
    }
}

/// A submission under way.
#[derive(Debug)]
pub struct Submit {
    /// The checkout of the results repository.
    results_dir: String,
    /// Where the documents came from.
    runs_dir: String,
    branch: String,
    runs: Vec<SubmitRun>,
    at: SubmitAt,
}

pub struct SubmitV {
    pub results_dir: Seq<char>,
    pub runs_dir: Seq<char>,
    pub branch: Seq<char>,
    pub runs: Seq<SubmitRunV>,
    pub at: SubmitAtV,
}

impl View for Submit {
    type V = SubmitV;

    closed spec fn view(&self) -> SubmitV {
        SubmitV {
            results_dir: self.results_dir@,
            runs_dir: self.runs_dir@,
            branch: self.branch@,
            runs: submit_runs(self.runs@),
            at: self.at@,
        }
    }
}

/// Something only the outside can do for a submission.
#[derive(Debug)]
pub enum SubmitRequest {
    /// Make a directory and those above it.
    MakeDir(String),
    Copy { from: String, to: String },
    /// Look whether something stands at a path.
    Exists(String),
    Write { path: String, content: String },
    /// Run a program in the checkout and wait for its end.
    RunIn { dir: String, argv: Vec<String> },
    /// Run a program and wait for its end.
    Run(Vec<String>),
}

pub enum SubmitRequestV {
    MakeDir(Seq<char>),
    Copy { from: Seq<char>, to: Seq<char> },
    Exists(Seq<char>),
    Write { path: Seq<char>, content: Seq<char> },
    RunIn { dir: Seq<char>, argv: Seq<Seq<char>> },
    Run(Seq<Seq<char>>),
}

impl View for SubmitRequest {
    type V = SubmitRequestV;

    open spec fn view(&self) -> SubmitRequestV {
        match self {
            SubmitRequest::MakeDir(p) => SubmitRequestV::MakeDir(p@),
            SubmitRequest::Copy { from, to } => SubmitRequestV::Copy { from: from@, to: to@ },
            SubmitRequest::Exists(p) => SubmitRequestV::Exists(p@),
            SubmitRequest::Write { path, content } => SubmitRequestV::Write {
                path: path@,
                content: content@,
            },
            SubmitRequest::RunIn { dir, argv } => SubmitRequestV::RunIn {
                dir: dir@,
                argv: texts(argv@),
            },
            SubmitRequest::Run(argv) => SubmitRequestV::Run(texts(argv@)),
        }
    }
}

/// What a request came to.
#[derive(Debug)]
pub enum SubmitReply {
    Done(Result<(), String>),
    Present(bool),
    Ran(Outcome),
}

pub open spec fn answers(request: SubmitRequestV, reply: SubmitReply) -> bool {
    match request {
        SubmitRequestV::Exists(_) => reply is Present,
        SubmitRequestV::RunIn { .. } => reply is Ran,
        SubmitRequestV::Run(_) => reply is Ran,
        _ => reply is Done,
    }
}

/// How a step ends: with the next one, or with what is said at the end.
#[derive(Debug)]
pub enum SubmitStep {
    Next(Submit),
    Finished { warning: Option<String>, message: Option<String> },
}

pub enum SubmitStepV {
    Next(SubmitV),
    Finished { warning: Option<Seq<char>>, message: Option<Seq<char>> },
}

impl View for SubmitStep {
    type V = SubmitStepV;

    open spec fn view(&self) -> SubmitStepV {
        match self {
            SubmitStep::Next(s) => SubmitStepV::Next(s@),
            SubmitStep::Finished { warning, message } => SubmitStepV::Finished {
                warning: option_text(*warning),
                message: option_text(*message),
            },
        }
    }
}

pub open spec fn step_result(r: Result<SubmitStep, String>) -> Result<SubmitStepV, Seq<char>> {
    match r {
        Ok(s) => Ok(s@),
        Err(e) => Err(e@),
    }
}

pub open spec fn dataset_dir(s: SubmitV, i: int) -> Seq<char> {
    path_join(path_join(s.results_dir, "datasets"@), month_of(s.runs[i].name))
}

pub open spec fn machine_file(s: SubmitV, i: int) -> Seq<char> {
    path_join(path_join(s.results_dir, "machines"@), s.runs[i].machine_hash + ".toml"@)
}

/// What the change is called.
pub open spec fn subject_line(n: nat) -> Seq<char> {
    "submit: "@ + dec(n) + " run document(s)"@
}

pub open spec fn proposal(s: SubmitV) -> Seq<char> {
    "Submits "@ + dec(s.runs.len()) + " run document(s) from "@ + s.runs_dir
        + ".\n\nGenerated by `spatial-bench submit`."@
}

/// What a submission asks for where it stands.
pub open spec fn submit_request(s: SubmitV) -> SubmitRequestV {
    match s.at {
        SubmitAtV::Datasets => SubmitRequestV::MakeDir(path_join(s.results_dir, "datasets"@)),
        SubmitAtV::Month(i) => SubmitRequestV::MakeDir(dataset_dir(s, i)),
        SubmitAtV::Copy(i) => SubmitRequestV::Copy {
            from: s.runs[i].path,
            to: path_join(dataset_dir(s, i), s.runs[i].name),
        },
        SubmitAtV::Machines => SubmitRequestV::MakeDir(path_join(s.results_dir, "machines"@)),
        SubmitAtV::Known(i) => SubmitRequestV::Exists(machine_file(s, i)),
        SubmitAtV::Record(i, content) => SubmitRequestV::Write {
            path: machine_file(s, i),
            content,
        },
        SubmitAtV::Checkout => SubmitRequestV::RunIn {
            dir: s.results_dir,
            argv: seq!["git"@, "checkout"@, "-B"@, s.branch, "main"@],
        },
        SubmitAtV::Add => SubmitRequestV::RunIn {
            dir: s.results_dir,
            argv: seq!["git"@, "add"@, "-A"@],
        },
        SubmitAtV::Status => SubmitRequestV::RunIn {
            dir: s.results_dir,
            argv: seq!["git"@, "status"@, "--short"@],
        },
        SubmitAtV::Commit => SubmitRequestV::RunIn {
            dir: s.results_dir,
            argv: seq!["git"@, "commit"@, "-m"@, subject_line(s.runs.len())],
        },
        SubmitAtV::Push => SubmitRequestV::RunIn {
            dir: s.results_dir,
            argv: seq!["git"@, "push"@, "-u"@, "origin"@, s.branch],
        },
        SubmitAtV::Propose => SubmitRequestV::Run(
            seq![
                "gh"@,
                "pr"@,
                "create"@,
                "--repo"@,
                "spatial-bench/spatial-bench-results"@,
                "--base"@,
                "main"@,
                "--head"@,
                s.branch,
                "--title"@,
                subject_line(s.runs.len()),
                "--body"@,
                proposal(s),
            ],
        ),
    }
}

pub open spec fn moved(s: SubmitV, at: SubmitAtV) -> Result<SubmitStepV, Seq<char>> {
    Ok(SubmitStepV::Next(SubmitV { at, ..s }))
}

pub open spec fn after_copy(s: SubmitV, i: int) -> SubmitAtV {
    if i + 1 < s.runs.len() {
        SubmitAtV::Month(i + 1)
    } else {
        SubmitAtV::Machines
    }
}

pub open spec fn after_machine(s: SubmitV, i: int) -> SubmitAtV {
    if i + 1 < s.runs.len() {
        SubmitAtV::Known(i + 1)
    } else {
        SubmitAtV::Checkout
    }
}

/// What git's end says: its output, or its own words.
pub open spec fn git_answer(out: Outcome) -> Result<Seq<char>, Seq<char>> {
    match out {
        Outcome::NotStarted(e) => Err("git: "@ + e@),
        Outcome::Exited { success, stdout, stderr, .. } => if success {
            Ok(stdout@)
        } else {
            Err(stderr@)
        },
    }
}

/// How a submission goes on once its request is answered.
pub open spec fn submit_next(s: SubmitV, reply: SubmitReply) -> Result<SubmitStepV, Seq<char>> {
    match (s.at, reply) {
        (SubmitAtV::Datasets, SubmitReply::Done(r)) => match r {
            Ok(_) => moved(s, SubmitAtV::Month(0)),
            Err(e) => Err(e@),
        },
        (SubmitAtV::Month(i), SubmitReply::Done(r)) => match r {
            Ok(_) => moved(s, SubmitAtV::Copy(i)),
            Err(e) => Err(e@),
        },
        (SubmitAtV::Copy(i), SubmitReply::Done(r)) => match r {
            Ok(_) => moved(s, after_copy(s, i)),
            Err(e) => Err("copying "@ + s.runs[i].name + ": "@ + e@),
        },
        (SubmitAtV::Machines, SubmitReply::Done(r)) => match r {
            Ok(_) => moved(s, SubmitAtV::Known(0)),
            Err(e) => Err(e@),
        },
        (SubmitAtV::Known(i), SubmitReply::Present(there)) => if there {
            moved(s, after_machine(s, i))
        } else {
            match s.runs[i].machine {
                None => moved(s, after_machine(s, i)),
                Some(machine) => match toml_answer(toml_text(without_nulls(machine))) {
                    Ok(content) => moved(s, SubmitAtV::Record(i, content)),
                    Err(e) => Err(e),
                },
            }
        },
        (SubmitAtV::Record(i, _), SubmitReply::Done(r)) => match r {
            Ok(_) => moved(s, after_machine(s, i)),
            Err(e) => Err(e@),
        },
        (SubmitAtV::Checkout, SubmitReply::Ran(out)) => match git_answer(out) {
            Ok(_) => moved(s, SubmitAtV::Add),
            Err(e) => Err(e),
        },
        (SubmitAtV::Add, SubmitReply::Ran(out)) => match git_answer(out) {
            Ok(_) => moved(s, SubmitAtV::Status),
            Err(e) => Err(e),
        },
        (SubmitAtV::Status, SubmitReply::Ran(out)) => match git_answer(out) {
            Ok(changes) => if trim(changes).len() == 0 {
                Ok(SubmitStepV::Finished { warning: None, message: None })
            } else {
                moved(s, SubmitAtV::Commit)
            },
            Err(e) => Err(e),
        },
        (SubmitAtV::Commit, SubmitReply::Ran(out)) => match git_answer(out) {
            Ok(_) => moved(s, SubmitAtV::Push),
            Err(e) => Err(e),
        },
        (SubmitAtV::Push, SubmitReply::Ran(out)) => match git_answer(out) {
            Ok(_) => moved(s, SubmitAtV::Propose),
            Err(e) => Err(e),
        },
        (SubmitAtV::Propose, SubmitReply::Ran(out)) => match out {
            Outcome::NotStarted(e) => Err("could not run gh: "@ + e@),
            Outcome::Exited { success, stderr, .. } => Ok(
                SubmitStepV::Finished {
                    warning: if success {
                        None
                    } else {
                        Some(
                            "warning: could not open the PR (the branch is pushed):\n"@ + stderr@,
                        )
                    },
                    message: Some("submitted "@ + dec(s.runs.len()) + " run document(s)"@),
                },
            ),
        },
        _ => Err(Seq::empty()),
    }
}

/// Whether a submission points at a run that it has.
pub open spec fn on_course(s: SubmitV) -> bool {
    &&& s.runs.len() > 0
    &&& forall|i: int| 0 <= i < s.runs.len() ==> names_a_month((#[trigger] s.runs[i]).name)
    &&& match s.at {
        SubmitAtV::Month(i) => 0 <= i < s.runs.len(),
        SubmitAtV::Copy(i) => 0 <= i < s.runs.len(),
        SubmitAtV::Known(i) => 0 <= i < s.runs.len(),
        SubmitAtV::Record(i, _) => 0 <= i < s.runs.len(),
        _ => true,
    }
}

fn put(argv: &mut Vec<String>, word: &str)
    ensures
        texts(final(argv)@) == texts(old(argv)@).push(word@),
{
    argv.push(word.to_owned());
    assert(texts(argv@) =~= texts(old(argv)@).push(word@));
}

fn git_result(out: &Outcome) -> (r: Result<String, String>)
    ensures
        outcome_text(r) == git_answer(*out),
{
    match out {
        Outcome::NotStarted(e) => {
            let mut s = "git: ".to_owned();
            s.append(e.as_str());
            Err(s)
        },
        Outcome::Exited { success, stdout, stderr, .. } => if *success {
            Ok(stdout.clone())
        } else {
            Err(stderr.clone())
        },
    }
}

fn line(words: &[&str], last: Option<&str>) -> (r: Vec<String>)
    ensures
        texts(r@) == Seq::new(words@.len(), |i: int| words@[i]@) + (match last {
            Some(s) => seq![s@],
            None => Seq::empty(),
        }),
{
    let ghost all = Seq::new(words@.len(), |i: int| words@[i]@);
    let mut out: Vec<String> = Vec::new();
    let mut i: usize = 0;
    while i < words.len()
        invariant
            i <= words@.len(),
            all == Seq::new(words@.len(), |i: int| words@[i]@),
            out@.len() == i,
            forall|j: int| 0 <= j < i ==> (#[trigger] out@[j])@ == all[j],
        decreases words@.len() - i,
    {
        out.push(words[i].to_owned());
        i = i + 1;
    }
    assert(texts(out@) =~= all);
    match last {
        Some(s) => {
            out.push(s.to_owned());
            assert(texts(out@) =~= all + seq![s@]);
        },
        None => {
            assert(texts(out@) =~= all + Seq::empty());
        },
    }
    out
}

impl Submit {
    /// The branch of a submission made at a moment.
    pub fn branch_for(timestamp: &str) -> (r: String)
        ensures
            r@ == "submit/"@ + timestamp@,
    {
        let mut s = "submit/".to_owned();
        s.append(timestamp);
        s
    }

    /// Start to submit some runs.
    pub fn start(results_dir: &str, runs_dir: &str, timestamp: &str, runs: Vec<SubmitRun>) -> (r: Submit)
        requires
            runs@.len() > 0,
            forall|i: int| 0 <= i < runs@.len() ==> names_a_month((#[trigger] runs@[i]).name@),
        ensures
            r@ == (SubmitV {
                results_dir: results_dir@,
                runs_dir: runs_dir@,
                branch: "submit/"@ + timestamp@,
                runs: submit_runs(runs@),
                at: SubmitAtV::Datasets,
            }),
            on_course(r@),
    {
        Submit {
            results_dir: results_dir.to_owned(),
            runs_dir: runs_dir.to_owned(),
            branch: Self::branch_for(timestamp),
            runs,
            at: SubmitAt::Datasets,
        }
    }

    fn month_path(&self, i: usize) -> (r: String)
        requires
            on_course(self@),
            i < self.runs@.len(),
        ensures
            r@ == dataset_dir(self@, i as int),
    {
        assert(self@.runs[i as int] == self.runs@[i as int]@);
        let datasets = joined_path(self.results_dir.as_str(), "datasets");
        joined_path(datasets.as_str(), month_dir(self.runs[i].name.as_str()).as_str())
    }

    fn machine_path(&self, i: usize) -> (r: String)
        requires
            i < self.runs@.len(),
        ensures
            r@ == machine_file(self@, i as int),
    {
        assert(self@.runs[i as int] == self.runs@[i as int]@);
        let machines = joined_path(self.results_dir.as_str(), "machines");
        let mut name = self.runs[i].machine_hash.clone();
        name.append(".toml");
        joined_path(machines.as_str(), name.as_str())
    }

    fn subject(&self) -> (r: String)
        ensures
            r@ == subject_line(self@.runs.len()),
    {
        let mut s = "submit: ".to_owned();
        s.append(decimal(self.runs.len() as u64).as_str());
        s.append(" run document(s)");
        s
    }

    fn in_checkout(&self, argv: Vec<String>) -> (r: SubmitRequest)
        ensures
            r@ == (SubmitRequestV::RunIn { dir: self@.results_dir, argv: texts(argv@) }),
    {
        SubmitRequest::RunIn { dir: self.results_dir.clone(), argv }
    }

    fn propose(&self) -> (r: SubmitRequest)
        ensures
            r@ == submit_request(SubmitV { at: SubmitAtV::Propose, ..self@ }),
    {
        let mut body = "Submits ".to_owned();
        body.append(decimal(self.runs.len() as u64).as_str());
        body.append(" run document(s) from ");
        body.append(self.runs_dir.as_str());
        body.append(".\n\nGenerated by `spatial-bench submit`.");
        let mut argv = line(
            &[
                "gh",
                "pr",
                "create",
                "--repo",
                "spatial-bench/spatial-bench-results",
                "--base",
                "main",
                "--head",
            ],
            Some(self.branch.as_str()),
        );
        put(&mut argv, "--title");
        put(&mut argv, self.subject().as_str());
        put(&mut argv, "--body");
        put(&mut argv, body.as_str());
        assert(texts(argv@) =~= submit_request(SubmitV { at: SubmitAtV::Propose, ..self@ })->Run_0);
        SubmitRequest::Run(argv)
    }

    /// What has to be done next.
    pub fn request(&self) -> (r: SubmitRequest)
        requires
            on_course(self@),
        ensures
            r@ == submit_request(self@),
    {
        match &self.at {
            SubmitAt::Datasets => SubmitRequest::MakeDir(
                joined_path(self.results_dir.as_str(), "datasets"),
            ),
            SubmitAt::Month(i) => SubmitRequest::MakeDir(self.month_path(*i)),
            SubmitAt::Copy(i) => {
                assert(self@.runs[*i as int] == self.runs@[*i as int]@);
                let dir = self.month_path(*i);
                SubmitRequest::Copy {
                    from: self.runs[*i].path.clone(),
                    to: joined_path(dir.as_str(), self.runs[*i].name.as_str()),
                }
            },
            SubmitAt::Machines => SubmitRequest::MakeDir(
                joined_path(self.results_dir.as_str(), "machines"),
            ),
            SubmitAt::Known(i) => SubmitRequest::Exists(self.machine_path(*i)),
            SubmitAt::Record(i, content) => SubmitRequest::Write {
                path: self.machine_path(*i),
                content: content.clone(),
            },
            SubmitAt::Checkout => {
                let mut argv = line(&["git", "checkout", "-B"], Some(self.branch.as_str()));
                put(&mut argv, "main");
                assert(texts(argv@) =~= seq!["git"@, "checkout"@, "-B"@, self@.branch, "main"@]);
                self.in_checkout(argv)
            },
            SubmitAt::Add => {
                let argv = line(&["git", "add", "-A"], None);
                assert(texts(argv@) =~= seq!["git"@, "add"@, "-A"@]);
                self.in_checkout(argv)
            },
            SubmitAt::Status => {
                let argv = line(&["git", "status", "--short"], None);
                assert(texts(argv@) =~= seq!["git"@, "status"@, "--short"@]);
                self.in_checkout(argv)
            },
            SubmitAt::Commit => {
                let argv = line(&["git", "commit", "-m"], Some(self.subject().as_str()));
                assert(texts(argv@) =~= seq![
                    "git"@,
                    "commit"@,
                    "-m"@,
                    subject_line(self@.runs.len()),
                ]);
                self.in_checkout(argv)
            },
            SubmitAt::Push => {
                let argv = line(&["git", "push", "-u", "origin"], Some(self.branch.as_str()));
                assert(texts(argv@) =~= seq!["git"@, "push"@, "-u"@, "origin"@, self@.branch]);
                self.in_checkout(argv)
            },
            SubmitAt::Propose => self.propose(),
        }
    }

    fn at(self, at: SubmitAt) -> (r: Submit)
        ensures
            r@ == (SubmitV { at: at@, ..self@ }),
    {
        Submit {
            results_dir: self.results_dir,
            runs_dir: self.runs_dir,
            branch: self.branch,
            runs: self.runs,
            at,
        }
    }

    fn past_copy(&self, i: usize) -> (r: SubmitAt)
        requires
            i < self.runs@.len(),
        ensures
            r@ == after_copy(self@, i as int),
    {
        if self.runs.len() - i > 1 {
            SubmitAt::Month(i + 1)
        } else {
            SubmitAt::Machines
        }
    }

    fn past_machine(&self, i: usize) -> (r: SubmitAt)
        requires
            i < self.runs@.len(),
        ensures
            r@ == after_machine(self@, i as int),
    {
        if self.runs.len() - i > 1 {
            SubmitAt::Known(i + 1)
        } else {
            SubmitAt::Checkout
        }
    }

    /// Go on once the request is answered.
    pub fn next(self, reply: &SubmitReply) -> (r: Result<SubmitStep, String>)
        requires
            on_course(self@),
            answers(submit_request(self@), *reply),
        ensures
            step_result(r) == submit_next(self@, *reply),
            r matches Ok(SubmitStep::Next(s)) ==> on_course(s@),
    {
        let at = match (&self.at, reply) {
            (SubmitAt::Datasets, SubmitReply::Done(d)) => match d {
                Ok(_) => SubmitAt::Month(0),
                Err(e) => {
                    return Err(e.clone());
                },
            },
            (SubmitAt::Month(i), SubmitReply::Done(d)) => match d {
                Ok(_) => SubmitAt::Copy(*i),
                Err(e) => {
                    return Err(e.clone());
                },
            },
            (SubmitAt::Copy(i), SubmitReply::Done(d)) => match d {
                Ok(_) => self.past_copy(*i),
                Err(e) => {
                    assert(self@.runs[*i as int] == self.runs@[*i as int]@);
                    let mut s = "copying ".to_owned();
                    s.append(self.runs[*i].name.as_str());
                    s.append(": ");
                    s.append(e.as_str());
                    return Err(s);
                },
            },
            (SubmitAt::Machines, SubmitReply::Done(d)) => match d {
                Ok(_) => SubmitAt::Known(0),
                Err(e) => {
                    return Err(e.clone());
                },
            },
            (SubmitAt::Known(i), SubmitReply::Present(there)) => {
                assert(self@.runs[*i as int] == self.runs@[*i as int]@);
                if *there {
                    self.past_machine(*i)
                } else {
                    match &self.runs[*i].machine {
                        None => self.past_machine(*i),
                        Some(machine) => match json_to_toml(machine) {
                            Ok(content) => SubmitAt::Record(*i, content),
                            Err(e) => {
                                return Err(e);
                            },
                        },
                    }
                }
            },
            (SubmitAt::Record(i, _), SubmitReply::Done(d)) => match d {
                Ok(_) => self.past_machine(*i),
                Err(e) => {
                    return Err(e.clone());
                },
            },
            (SubmitAt::Propose, SubmitReply::Ran(out)) => {
                return match out {
                    Outcome::NotStarted(e) => {
                        let mut s = "could not run gh: ".to_owned();
                        s.append(e.as_str());
                        Err(s)
                    },
                    Outcome::Exited { success, stderr, .. } => {
                        let warning = if *success {
                            None
                        } else {
                            let mut s =
                                "warning: could not open the PR (the branch is pushed):\n".to_owned();
                            s.append(stderr.as_str());
                            Some(s)
                        };
                        let mut m = "submitted ".to_owned();
                        m.append(decimal(self.runs.len() as u64).as_str());
                        m.append(" run document(s)");
                        Ok(SubmitStep::Finished { warning, message: Some(m) })
                    },
                };
            },
            (at, SubmitReply::Ran(out)) => match git_result(out) {
                Err(e) => {
                    return Err(e);
                },
                Ok(printed) => match at {
                    SubmitAt::Checkout => SubmitAt::Add,
                    SubmitAt::Add => SubmitAt::Status,
                    SubmitAt::Status => {
                        if trimmed(printed.as_str()).is_empty() {
                            return Ok(SubmitStep::Finished { warning: None, message: None });
                        }
                        SubmitAt::Commit
                    },
                    SubmitAt::Commit => SubmitAt::Push,
                    _ => SubmitAt::Propose,
                },
            },
            _ => {
                return Err(String::new());
            },
        };
        Ok(SubmitStep::Next(self.at(at)))
    }
}

// ---------------------------------------------------------------- laws

/// A machine that is on record is not written again: nothing is written over.
pub proof fn known_machines_are_kept(s: SubmitV, i: int, reply: SubmitReply)
    requires
        s.at == SubmitAtV::Known(i),
        reply == SubmitReply::Present(true),
    ensures
        submit_next(s, reply) matches Ok(SubmitStepV::Next(n)) && submit_request(n) !is Write,
{
}

/// Nothing is committed where nothing has changed.
pub proof fn no_change_no_commit(s: SubmitV, out: Outcome)
    requires
        s.at == SubmitAtV::Status,
        git_answer(out) matches Ok(changes) && trim(changes).len() == 0,
    ensures
        submit_next(s, SubmitReply::Ran(out)) == Ok::<SubmitStepV, Seq<char>>(
            SubmitStepV::Finished { warning: None, message: None },
        ),
{
}

/// How many answers a submission still waits for, at most.
pub open spec fn submit_left(s: SubmitV) -> int {
    let n = s.runs.len() as int;
    match s.at {
        SubmitAtV::Datasets => 4 * n + 9,
        SubmitAtV::Month(i) => 4 * n + 8 - 2 * i,
        SubmitAtV::Copy(i) => 4 * n + 7 - 2 * i,
        SubmitAtV::Machines => 2 * n + 7,
        SubmitAtV::Known(i) => 2 * n + 6 - 2 * i,
        SubmitAtV::Record(i, _) => 2 * n + 5 - 2 * i,
        SubmitAtV::Checkout => 6,
        SubmitAtV::Add => 5,
        SubmitAtV::Status => 4,
        SubmitAtV::Commit => 3,
        SubmitAtV::Push => 2,
        SubmitAtV::Propose => 1,
    }
}

/// A submission ends.
pub proof fn submissions_end(s: SubmitV, reply: SubmitReply)
    requires
        on_course(s),
        answers(submit_request(s), reply),
    ensures
        submit_left(s) > 0,
        submit_next(s, reply) matches Ok(SubmitStepV::Next(n)) ==> on_course(n) && submit_left(n)
            < submit_left(s),
{
}

} // verus!
