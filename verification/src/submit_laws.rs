//! What a submission promises as a whole: every reproducible run is taken, each is copied
//! once and to its own place before anything is committed, no machine is passed over, and
//! what is said at the end counts what was copied.

use crate::data::{toml_answer, toml_text, without_nulls, DataV};
use crate::package::Outcome;
use crate::paths::path_join;
use crate::schema::SCHEMA_VERSION;
use crate::submit::{
    answers, every_revision, file_document, file_verdict, has_revision, on_course, run_in,
    skipped_in, submissions_end, submit_next, submit_request, submittable, verdict, RunFileV,
    SubmitAtV, SubmitReply, SubmitRequestV, SubmitRunV, SubmitStepV, SubmitV, Verdict,
};
use crate::text::{dec, trim};
use vstd::prelude::*;

verus! {

// ---------------------------------------------------------------- what is taken

/// Is the run one that can be built again: from a clean tree, each of its subjects at a
/// revision that it names?
pub open spec fn is_reproducible(run: DataV) -> bool {
    &&& run.get("source"@) matches Some(source) && source.get("git_dirty"@) == Some(
        DataV::Bool(false),
    )
    &&& run.get("subjects"@) matches Some(DataV::Table(subjects)) ==> forall|i: int|
        0 <= i < subjects.len() ==> ((#[trigger] subjects[i]).1.get("sha"@) matches Some(
            DataV::Text(sha),
        ) && sha.len() > 0)
}

/// A document of this schema that holds a run is submitted exactly when the run is
/// reproducible, and skipped otherwise.
pub proof fn reproducible_runs_are_submitted(doc: DataV)
    ensures
        verdict(doc) == Verdict::Submit <==> {
            &&& doc.get("schema_version"@) matches Some(DataV::Number { natural, integer, text })
                && natural == Some(SCHEMA_VERSION as u64)
            &&& doc.get("run"@) matches Some(run) && is_reproducible(run)
        },
        doc.get("schema_version"@) matches Some(DataV::Number { natural, integer, text })
            && natural == Some(SCHEMA_VERSION as u64) && (doc.get("run"@) matches Some(run)
            && !is_reproducible(run)) ==> verdict(doc) == Verdict::Skip,
{
    if let Some(run) = doc.get("run"@) {
        if let Some(DataV::Table(subjects)) = run.get("subjects"@) {
            if every_revision(subjects) {
                assert forall|i: int| 0 <= i < subjects.len() implies ((
                #[trigger] subjects[i]).1.get("sha"@) matches Some(DataV::Text(sha)) && sha.len()
                    > 0) by {
                    assert(has_revision(subjects[i].1));
                }
            }
        }
    }
}

/// What reading a file makes of it, where the run in it is submitted.
pub open spec fn run_of_file(file: RunFileV) -> Option<SubmitRunV> {
    match file_document(file) {
        Some(doc) => if verdict(doc) == Verdict::Submit {
            Some(
                SubmitRunV {
                    name: file.name,
                    path: file.path,
                    machine_hash: match doc.get("run"@)->Some_0.get("machine_hash"@) {
                        Some(DataV::Text(h)) => h,
                        _ => Seq::empty(),
                    },
                    machine: doc.get("run"@)->Some_0.get("machine"@),
                },
            )
        } else {
            None
        },
        None => None,
    }
}

/// Every file whose run is reproducible is submitted under its own name, from its own
/// path and with its own machine, in the order of the files; the others that hold a
/// document are counted as skipped.
pub proof fn every_reproducible_file_is_taken(files: Seq<RunFileV>)
    ensures
        submittable(files) == files.filter_map(|f: RunFileV| run_of_file(f)),
        submittable(files).len() + skipped_in(files) <= files.len(),
        (forall|i: int|
            0 <= i < files.len() ==> file_verdict(#[trigger] files[i]) != Verdict::Ignore)
            ==> submittable(files).len() + skipped_in(files) == files.len(),
    decreases files.len(),
{
    if files.len() > 0 {
        let t = files.drop_last();
        every_reproducible_file_is_taken(t);
        assert forall|i: int| 0 <= i < t.len() implies t[i] == files[i] by {}
        assert(files[files.len() - 1] == files.last());
        let f = |f: RunFileV| run_of_file(f);
        assert(submittable(t) == t.filter_map(f));
        match f(files.last()) {
            Some(r) => {
                assert(r == run_in(files.last(), file_document(files.last())->Some_0));
                assert(submittable(files) =~= submittable(t) + seq![r]);
            },
            None => {},
        }
        if forall|i: int|
            0 <= i < files.len() ==> file_verdict(#[trigger] files[i]) != Verdict::Ignore {
            assert forall|i: int| 0 <= i < t.len() implies file_verdict(#[trigger] t[i])
                != Verdict::Ignore by {
                assert(file_verdict(files[i]) != Verdict::Ignore);
            }
        }
    }
}

// ---------------------------------------------------------------- histories

/// One state of a submission follows another on some answer.
pub open spec fn follows(a: SubmitV, b: SubmitV) -> bool {
    exists|reply: SubmitReply|
        answers(submit_request(a), reply) && #[trigger] submit_next(a, reply) == Ok::<
            SubmitStepV,
            Seq<char>,
        >(SubmitStepV::Next(b))
}

/// The states that a submission went through, from its start, while nothing failed.
pub open spec fn is_history(h: Seq<SubmitV>) -> bool
    decreases h.len(),
{
    if h.len() == 0 {
        false
    } else if h.len() == 1 {
        on_course(h[0]) && h[0].at == SubmitAtV::Datasets
    } else {
        is_history(h.drop_last()) && follows(h.drop_last().last(), h.last())
    }
}

/// Where a document belongs: the directory of the month that its name starts with,
/// `YYYYMM...` under `YYYY-MM`, and its own name there.
pub open spec fn place_of(results_dir: Seq<char>, run: SubmitRunV) -> Seq<char> {
    path_join(
        path_join(
            path_join(results_dir, "datasets"@),
            run.name.subrange(0, 4) + seq!['-'] + run.name.subrange(4, 6),
        ),
        run.name,
    )
}

pub open spec fn copy_asked(s: SubmitV) -> Option<(Seq<char>, Seq<char>)> {
    match submit_request(s) {
        SubmitRequestV::Copy { from, to } => Some((from, to)),
        _ => None,
    }
}

/// What was asked to be copied, from where and to where, in order.
pub open spec fn copies(h: Seq<SubmitV>) -> Seq<(Seq<char>, Seq<char>)> {
    h.filter_map(|s: SubmitV| copy_asked(s))
}

pub open spec fn look_asked(s: SubmitV) -> Option<Seq<char>> {
    match submit_request(s) {
        SubmitRequestV::Exists(p) => Some(p),
        _ => None,
    }
}

/// What was looked for, in order.
pub open spec fn looks(h: Seq<SubmitV>) -> Seq<Seq<char>> {
    h.filter_map(|s: SubmitV| look_asked(s))
}

pub open spec fn command_asked(s: SubmitV) -> Option<(Seq<char>, Seq<Seq<char>>)> {
    match submit_request(s) {
        SubmitRequestV::RunIn { dir, argv } => Some((dir, argv)),
        _ => None,
    }
}

/// What was run in the checkout, in order.
pub open spec fn commands(h: Seq<SubmitV>) -> Seq<(Seq<char>, Seq<Seq<char>>)> {
    h.filter_map(|s: SubmitV| command_asked(s))
}

spec fn all_copies(s: SubmitV) -> Seq<(Seq<char>, Seq<char>)> {
    Seq::new(s.runs.len(), |i: int| (s.runs[i].path, place_of(s.results_dir, s.runs[i])))
}

spec fn all_looks(s: SubmitV) -> Seq<Seq<char>> {
    Seq::new(
        s.runs.len(),
        |i: int|
            path_join(
                path_join(s.results_dir, "machines"@),
                s.runs[i].machine_hash + ".toml"@,
            ),
    )
}

/// The git commands of a submission, in order: a branch off main, everything added, what
/// changed, a commit that says how many documents there are, and the branch pushed.
pub open spec fn git_commands(s: SubmitV) -> Seq<Seq<Seq<char>>> {
    seq![
        seq!["git"@, "checkout"@, "-B"@, s.branch, "main"@],
        seq!["git"@, "add"@, "-A"@],
        seq!["git"@, "status"@, "--short"@],
        seq!["git"@, "commit"@, "-m"@, "submit: "@ + dec(s.runs.len()) + " run document(s)"@],
        seq!["git"@, "push"@, "-u"@, "origin"@, s.branch],
    ]
}

spec fn all_commands(s: SubmitV) -> Seq<(Seq<char>, Seq<Seq<char>>)> {
    Seq::new(5, |i: int| (s.results_dir, git_commands(s)[i]))
}

spec fn copied_by(s: SubmitV) -> int {
    match s.at {
        SubmitAtV::Datasets => 0,
        SubmitAtV::Month(i) => i,
        SubmitAtV::Copy(i) => i + 1,
        _ => s.runs.len() as int,
    }
}

spec fn looked_by(s: SubmitV) -> int {
    match s.at {
        SubmitAtV::Datasets => 0,
        SubmitAtV::Month(_) => 0,
        SubmitAtV::Copy(_) => 0,
        SubmitAtV::Machines => 0,
        SubmitAtV::Known(i) => i + 1,
        SubmitAtV::Record(i, _) => i + 1,
        _ => s.runs.len() as int,
    }
}

spec fn commanded_by(s: SubmitV) -> int {
    match s.at {
        SubmitAtV::Checkout => 1,
        SubmitAtV::Add => 2,
        SubmitAtV::Status => 3,
        SubmitAtV::Commit => 4,
        SubmitAtV::Push => 5,
        SubmitAtV::Propose => 5,
        _ => 0,
    }
}

proof fn history_so_far(h: Seq<SubmitV>)
    requires
        is_history(h),
    ensures
        on_course(h.last()),
        h.last().runs == h[0].runs,
        h.last().results_dir == h[0].results_dir,
        h.last().runs_dir == h[0].runs_dir,
        h.last().branch == h[0].branch,
        0 <= copied_by(h.last()) <= h[0].runs.len(),
        copies(h) == all_copies(h[0]).take(copied_by(h.last())),
        0 <= looked_by(h.last()) <= h[0].runs.len(),
        looks(h) == all_looks(h[0]).take(looked_by(h.last())),
        commands(h) == all_commands(h[0]).take(commanded_by(h.last())),
    decreases h.len(),
{
    let s = h.last();
    let fc = |s: SubmitV| copy_asked(s);
    let fl = |s: SubmitV| look_asked(s);
    let fr = |s: SubmitV| command_asked(s);
    reveal_strlit("-");
    if h.len() == 1 {
        assert(h.drop_last() =~= Seq::empty());
        assert(h.drop_last().filter_map(fc) =~= Seq::empty());
        assert(h.drop_last().filter_map(fl) =~= Seq::empty());
        assert(h.drop_last().filter_map(fr) =~= Seq::empty());
        assert(copies(h) =~= all_copies(h[0]).take(0));
        assert(looks(h) =~= all_looks(h[0]).take(0));
        assert(commands(h) =~= all_commands(h[0]).take(0));
    } else {
        let t = h.drop_last();
        let p = t.last();
        history_so_far(t);
        assert(t[0] == h[0]);
        let reply = choose|reply: SubmitReply|
            answers(submit_request(p), reply) && #[trigger] submit_next(p, reply) == Ok::<
                SubmitStepV,
                Seq<char>,
            >(SubmitStepV::Next(s));
        submissions_end(p, reply);
        assert(copies(t) == t.filter_map(fc));
        assert(looks(t) == t.filter_map(fl));
        assert(commands(t) == t.filter_map(fr));
        assert("-"@ =~= seq!['-']);
        match fc(s) {
            Some(c) => {
                let i = s.at->Copy_0;
                assert(c == all_copies(h[0])[i]);
                assert(copies(h) =~= all_copies(h[0]).take(i + 1));
            },
            None => {
                assert(copies(h) == copies(t));
            },
        }
        match fl(s) {
            Some(c) => {
                let i = s.at->Known_0;
                assert(c == all_looks(h[0])[i]);
                assert(looks(h) =~= all_looks(h[0]).take(i + 1));
            },
            None => {
                assert(looks(h) == looks(t));
            },
        }
        match fr(s) {
            Some(c) => {
                let n = commanded_by(s);
                assert(c == all_commands(h[0])[n - 1]);
                assert(commands(h) =~= all_commands(h[0]).take(n));
            },
            None => {
                assert(commands(h) == commands(t));
            },
        }
    }
}

/// Every run is copied: when the first git command is asked for, each document of the
/// submission has been copied from its own path to its own place, once and in order, and
/// nothing else has.
pub proof fn every_document_is_copied(h: Seq<SubmitV>)
    requires
        is_history(h),
        submit_request(h.last()) is RunIn || submit_request(h.last()) is Run,
    ensures
        copies(h).len() == h[0].runs.len(),
        forall|i: int|
            0 <= i < h[0].runs.len() ==> #[trigger] copies(h)[i] == (
                h[0].runs[i].path,
                place_of(h[0].results_dir, h[0].runs[i]),
            ),
{
    history_so_far(h);
    assert(all_copies(h[0]).take(h[0].runs.len() as int) =~= all_copies(h[0]));
}

/// No machine is passed over: when the first git command is asked for, the record of each
/// run's machine has been looked for under its own hash.
pub proof fn every_machine_is_looked_for(h: Seq<SubmitV>)
    requires
        is_history(h),
        submit_request(h.last()) is RunIn || submit_request(h.last()) is Run,
    ensures
        looks(h).len() == h[0].runs.len(),
        forall|i: int|
            0 <= i < h[0].runs.len() ==> #[trigger] looks(h)[i] == path_join(
                path_join(h[0].results_dir, "machines"@),
                h[0].runs[i].machine_hash + ".toml"@,
            ),
{
    history_so_far(h);
    assert(all_looks(h[0]).take(h[0].runs.len() as int) =~= all_looks(h[0]));
}

/// A machine that is not on record is written where it was looked for, as the TOML of
/// what its run says of it.
pub proof fn unknown_machines_are_recorded(s: SubmitV, p: Seq<char>)
    requires
        on_course(s),
        submit_request(s) == SubmitRequestV::Exists(p),
    ensures
        ({
            let i = s.at->Known_0;
            let next = submit_next(s, SubmitReply::Present(false));
            &&& s.runs[i].machine matches Some(machine) ==> match toml_answer(
                toml_text(without_nulls(machine)),
            ) {
                Ok(content) => next matches Ok(SubmitStepV::Next(n)) && submit_request(n)
                    == (SubmitRequestV::Write { path: p, content }),
                Err(e) => next == Err::<SubmitStepV, Seq<char>>(e),
            }
            &&& s.runs[i].machine is None ==> (next matches Ok(SubmitStepV::Next(n))
                && submit_request(n) !is Write)
        }),
{
}

/// When a proposal is asked for, the change has been branched, added, committed and
/// pushed, in that order and in the checkout, and the commit says how many documents were
/// copied.
pub proof fn changes_are_pushed_before_they_are_proposed(h: Seq<SubmitV>)
    requires
        is_history(h),
        submit_request(h.last()) is Run,
    ensures
        commands(h).len() == 5,
        forall|i: int|
            0 <= i < 5 ==> #[trigger] commands(h)[i] == (
                h[0].results_dir,
                git_commands(h[0])[i],
            ),
        git_commands(h[0])[3][3] == "submit: "@ + dec(copies(h).len()) + " run document(s)"@,
{
    history_so_far(h);
    every_document_is_copied(h);
    assert(all_commands(h[0]).take(5) =~= all_commands(h[0]));
}

/// What is proposed is the branch that was pushed, against main; what is said at the end
/// counts the documents that were copied.
pub proof fn the_end_counts_what_was_copied(h: Seq<SubmitV>, out: Outcome)
    requires
        is_history(h),
        submit_request(h.last()) is Run,
    ensures
        submit_request(h.last()) matches SubmitRequestV::Run(argv) && argv.len() == 13 && argv[0]
            == "gh"@ && argv[5] == "--base"@ && argv[6] == "main"@ && argv[7] == "--head"@ && argv[8]
            == h[0].branch && commands(h)[4].1.last() == argv[8],
        out matches Outcome::Exited { success, code, stdout, stderr } ==> (submit_next(
            h.last(),
            SubmitReply::Ran(out),
        ) matches Ok(SubmitStepV::Finished { warning, message }) && message == Some(
            "submitted "@ + dec(copies(h).len()) + " run document(s)"@,
        ) && (warning is None <==> success)),
{
    history_so_far(h);
    changes_are_pushed_before_they_are_proposed(h);
    every_document_is_copied(h);
    assert(commands(h)[4] == (h[0].results_dir, git_commands(h[0])[4]));
}

/// A step that fails ends the submission: nothing is committed after a failed copy, and
/// nothing is pushed after a failed commit. (The proposal is the last step; it only
/// warns.)
pub proof fn failures_end_a_submission(s: SubmitV, reply: SubmitReply)
    requires
        on_course(s),
        answers(submit_request(s), reply),
        submit_request(s) !is Run,
        match reply {
            SubmitReply::Done(r) => r is Err,
            SubmitReply::Ran(Outcome::NotStarted(_)) => true,
            SubmitReply::Ran(Outcome::Exited { success, .. }) => !success,
            _ => false,
        },
    ensures
        submit_next(s, reply) is Err,
{
}

/// A commit follows exactly on changes: what git reports, but for space, decides.
pub proof fn changes_decide_on_a_commit(s: SubmitV, out: Outcome)
    requires
        on_course(s),
        submit_request(s) matches SubmitRequestV::RunIn { dir, argv } && argv == seq![
            "git"@,
            "status"@,
            "--short"@,
        ],
        s.at == SubmitAtV::Status,
        out matches Outcome::Exited { success, code, stdout, stderr } && success,
    ensures
        trim(out->stdout@).len() > 0 ==> (submit_next(s, SubmitReply::Ran(out)) matches Ok(
            SubmitStepV::Next(n),
        ) && submit_request(n) == (SubmitRequestV::RunIn {
            dir: s.results_dir,
            argv: seq![
                "git"@,
                "commit"@,
                "-m"@,
                "submit: "@ + dec(s.runs.len()) + " run document(s)"@,
            ],
        })),
        trim(out->stdout@).len() == 0 ==> submit_next(s, SubmitReply::Ran(out)) matches Ok(
            SubmitStepV::Finished { .. },
        ),
{
}

/// Whatever is done well keeps a submission going, until the proposal was made or nothing
/// has changed.
pub proof fn good_answers_keep_a_submission_going(s: SubmitV, reply: SubmitReply)
    requires
        answers(submit_request(s), reply),
        match reply {
            SubmitReply::Done(r) => r is Ok,
            SubmitReply::Present(there) => there,
            SubmitReply::Ran(Outcome::Exited { success, stdout, .. }) => success && trim(
                stdout@,
            ).len() > 0,
            SubmitReply::Ran(Outcome::NotStarted(_)) => false,
        },
    ensures
        submit_next(s, reply) is Ok,
        !(s.at is Propose) ==> submit_next(s, reply)->Ok_0 is Next,
        s.at is Propose ==> submit_next(s, reply)->Ok_0 is Finished,
{
}

/// Every document that is passed over for what it says is counted, and no other.
pub proof fn skipped_documents_are_counted(files: Seq<RunFileV>)
    ensures
        skipped_in(files) == files.filter(|f: RunFileV| file_verdict(f) == Verdict::Skip).len(),
    decreases files.len(),
{
    reveal(Seq::filter);
    if files.len() > 0 {
        skipped_documents_are_counted(files.drop_last());
    }
}

} // verus!
