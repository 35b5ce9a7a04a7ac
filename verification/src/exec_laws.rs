//! What a build of an exec driver promises: it fetches what is pinned, builds all that
//! is declared, and is known by everything that goes into it.

use crate::digest::cache_key;
use crate::exec::{
    cmake_material, cmake_next, cmake_request, cmake_start, cxx_dir, cxx_material, cxx_next,
    cxx_request, dec_all, dependencies_material, dependency_material, dims_cases, dims_of,
    dims_text, fetch_next, fetch_request, fetch_start, installed, python_material, python_next,
    python_request, text_or, CmakeAtV, CmakeStepV, CmakeV, CxxAtV, CxxStepV, CxxV, FetchAtV,
    FetchStepV, FetchV, PythonAt, PythonStepV, PythonV, DIMS_HEAD,
};
use crate::manifest::{BuildV, CmakeBuildV, CmakeDependencyV, SourceV};
use crate::package::{commit_id, Outcome};
use crate::paths::path_join;
use crate::steps::{answers, Reply, RequestV};
use crate::text::{contains_text, dec, decimal_reads_back, join, lines, stands_at, trim};
use vstd::prelude::*;

verus! {

/// Does a fetch go from one state to the next on some answer?
pub open spec fn fetch_follows(before: FetchV, after: FetchV) -> bool {
    exists|reply: Reply| #[trigger]
        fetch_next(before, reply) == Ok::<FetchStepV, Seq<char>>(FetchStepV::Again(after))
}

/// The states of a fetch from its start, one after another.
pub open spec fn fetch_history(
    h: Seq<FetchV>,
    subject: Seq<char>,
    source: SourceV,
    expected: Option<Seq<char>>,
    root: Seq<char>,
    process: u32,
) -> bool {
    &&& h.len() > 0
    &&& fetch_start(subject, source, expected, root, process) == Ok::<FetchV, Seq<char>>(h[0])
    &&& forall|i: int| 0 <= i < h.len() - 1 ==> fetch_follows(#[trigger] h[i], h[i + 1])
}

/// Did a program end well, saying this?
pub open spec fn said(reply: Reply, words: Seq<char>) -> bool {
    match reply {
        Reply::Ran(Outcome::Exited { success, stdout, .. }) => success && stdout@ == words,
        _ => false,
    }
}

/// Did a program end well?
pub open spec fn ended_well(reply: Reply) -> bool {
    match reply {
        Reply::Ran(Outcome::Exited { success, .. }) => success,
        _ => false,
    }
}

/// A text stands in any text made of it and what is around it.
pub proof fn stands_between(a: Seq<char>, b: Seq<char>, c: Seq<char>)
    ensures
        contains_text(a + b + c, b),
{
    assert((a + b + c).subrange(a.len() as int, (a.len() + b.len()) as int) =~= b);
    assert(stands_at(a + b + c, b, a.len() as int));
}

/// The first texts of a list, one behind the other.
pub open spec fn run_together(parts: Seq<Seq<char>>, n: nat) -> Seq<char>
    decreases n,
{
    if n <= 1 {
        parts[0]
    } else {
        run_together(parts, (n - 1) as nat) + parts[n - 1]
    }
}

/// Where two lists of texts run together the same and differ at one place at most, they
/// do not differ there.
proof fn same_inside(a: Seq<Seq<char>>, b: Seq<Seq<char>>, n: nat, k: int)
    requires
        0 <= k < n <= a.len(),
        a.len() == b.len(),
        run_together(a, n) == run_together(b, n),
        forall|i: int| 0 <= i < n && i != k ==> a[i] == b[i],
    ensures
        a[k] == b[k],
    decreases n,
{
    if n > 1 {
        let (x, y) = (run_together(a, (n - 1) as nat), run_together(b, (n - 1) as nat));
        let (s, t) = (run_together(a, n), run_together(b, n));
        if k == n - 1 {
            same_front(a, b, (n - 1) as nat);
            assert(s.skip(x.len() as int) =~= a[k]);
            assert(t.skip(x.len() as int) =~= b[k]);
        } else {
            assert(a[n - 1] == b[n - 1]);
            assert(s.take(s.len() - a[n - 1].len()) =~= x);
            assert(t.take(t.len() - a[n - 1].len()) =~= y);
            same_inside(a, b, (n - 1) as nat, k);
        }
    }
}

proof fn same_front(a: Seq<Seq<char>>, b: Seq<Seq<char>>, n: nat)
    requires
        0 < n <= a.len(),
        a.len() == b.len(),
        forall|i: int| 0 <= i < n ==> a[i] == b[i],
    ensures
        run_together(a, n) == run_together(b, n),
    decreases n,
{
    if n > 1 {
        same_front(a, b, (n - 1) as nat);
    }
}

/// Each text of a list stands in what they run together to.
pub proof fn stands_inside(a: Seq<Seq<char>>, n: nat, k: int)
    requires
        0 <= k < n <= a.len(),
    ensures
        contains_text(run_together(a, n), a[k]),
    decreases n,
{
    let none = Seq::<char>::empty();
    if n == 1 {
        stands_between(none, a[0], none);
        assert(none + a[0] + none =~= a[0]);
    } else if k == n - 1 {
        stands_between(run_together(a, (n - 1) as nat), a[k], none);
        assert(run_together(a, (n - 1) as nat) + a[k] + none =~= run_together(a, n));
    } else {
        stands_inside(a, (n - 1) as nat, k);
        stands_longer(run_together(a, (n - 1) as nat), a[k], a[n - 1]);
    }
}

proof fn stands_longer(s: Seq<char>, pat: Seq<char>, t: Seq<char>)
    requires
        contains_text(s, pat),
    ensures
        contains_text(s + t, pat),
{
    let at = choose|at: int| stands_at(s, pat, at);
    assert((s + t).subrange(at, at + pat.len()) =~= s.subrange(at, at + pat.len()));
    assert(stands_at(s + t, pat, at));
}

/// A fetch that has come to an end asked git, in this order, for the repository and the
/// pinned ref of its source, and for the revision that it got; it stands under the name
/// of that revision.
pub proof fn fetches_ask_for_the_pin(
    h: Seq<FetchV>,
    subject: Seq<char>,
    source: SourceV,
    expected: Option<Seq<char>>,
    root: Seq<char>,
    process: u32,
    reply: Reply,
    dir: Seq<char>,
    sha: Seq<char>,
)
    requires
        fetch_history(h, subject, source, expected, root, process),
        fetch_next(h.last(), reply) == Ok::<FetchStepV, Seq<char>>(
            FetchStepV::Finished { dir, sha },
        ),
    ensures
        source.repo is Some,
        dir == path_join(root, sha),
        expected is Some ==> expected == Some(sha),
        ({
            let tmp = h[0].tmp;
            let repo = source.repo->Some_0;
            let reference = source.pinned_ref;
            let n = if commit_id(reference) {
                4int
            } else {
                1int
            };
            &&& h.len() == n + 4
            &&& fetch_request(h[0]) == RequestV::MakeDir(tmp)
            &&& commit_id(reference) ==> {
                &&& fetch_request(h[1]) == RequestV::Run(seq!["git"@, "init"@, "-q"@, tmp])
                &&& fetch_request(h[2]) == RequestV::Run(
                    seq!["git"@, "-C"@, tmp, "remote"@, "add"@, "origin"@, repo],
                )
                &&& fetch_request(h[3]) == RequestV::Run(
                    seq![
                        "git"@,
                        "-C"@,
                        tmp,
                        "fetch"@,
                        "-q"@,
                        "--depth"@,
                        "1"@,
                        "origin"@,
                        reference,
                    ],
                )
                &&& fetch_request(h[4]) == RequestV::Run(
                    seq!["git"@, "-C"@, tmp, "checkout"@, "-q"@, "FETCH_HEAD"@],
                )
            }
            &&& !commit_id(reference) ==> fetch_request(h[1]) == RequestV::Run(
                seq![
                    "git"@,
                    "clone"@,
                    "-q"@,
                    "--depth"@,
                    "1"@,
                    "--branch"@,
                    reference,
                    repo,
                    tmp,
                ],
            )
            &&& fetch_request(h[n + 1]) == RequestV::Run(
                seq!["git"@, "-C"@, tmp, "rev-parse"@, "HEAD"@],
            )
            &&& fetch_request(h[n + 2]) == RequestV::Exists(dir)
            &&& fetch_request(h[n + 3]) == (RequestV::Rename { from: tmp, to: dir })
                || fetch_request(h[n + 3]) == RequestV::RemoveDir(tmp)
            &&& exists|answer: Reply, words: Seq<char>|
                #[trigger] said(answer, words) && trim(words) == sha && fetch_next(
                    h[n + 1],
                    answer,
                ) == Ok::<FetchStepV, Seq<char>>(FetchStepV::Again(h[n + 2]))
        }),
{
    fetch_states(h, subject, source, expected, root, process);
    let n = if commit_id(source.pinned_ref) {
        4int
    } else {
        1int
    };
    assert(h.len() == n + 4) by {
        fetch_places(h, subject, source, expected, root, process, h.len() - 1);
    }
    assert forall|i: int| 0 <= i < h.len() implies fetch_place(#[trigger] h[i], i, n) by {
        fetch_places(h, subject, source, expected, root, process, i);
    }
    assert(fetch_place(h[0], 0, n) && fetch_place(h[1], 1, n));
    if n == 4 {
        assert(fetch_place(h[2], 2, n) && fetch_place(h[3], 3, n) && fetch_place(h[4], 4, n));
    }
    assert(fetch_place(h[n + 1], n + 1, n));
    assert(fetch_place(h[n + 2], n + 2, n));
    assert(fetch_place(h[n + 3], n + 3, n));
    assert(fetch_follows(h[n + 1], h[n + 1 + 1]));
    assert(fetch_follows(h[n + 2], h[n + 2 + 1]));
    let answer = choose|reply: Reply| #[trigger]
        fetch_next(h[n + 1], reply) == Ok::<FetchStepV, Seq<char>>(FetchStepV::Again(h[n + 2]));
    match answer {
        Reply::Ran(Outcome::Exited { success, stdout, .. }) => {
            assert(said(answer, stdout@) && trim(stdout@) == sha);
        },
        _ => {},
    }
}

/// Where a fetch stands at a place of its history; `n` is where its last download is.
spec fn fetch_place(f: FetchV, i: int, n: int) -> bool {
    if i == 0 {
        f.at is MakeTmp
    } else if i <= n {
        if n == 1 {
            f.at is Cloning
        } else if i == 1 {
            f.at is Init
        } else if i == 2 {
            f.at is Remote
        } else if i == 3 {
            f.at is Fetching
        } else {
            f.at is Checkout
        }
    } else if i == n + 1 {
        f.at is RevParse
    } else if i == n + 2 {
        f.at is Place
    } else {
        i == n + 3 && (f.at is Rename || f.at is Remove)
    }
}

proof fn fetch_places(
    h: Seq<FetchV>,
    subject: Seq<char>,
    source: SourceV,
    expected: Option<Seq<char>>,
    root: Seq<char>,
    process: u32,
    i: int,
)
    requires
        fetch_history(h, subject, source, expected, root, process),
        0 <= i < h.len(),
    ensures
        fetch_place(
            h[i],
            i,
            if commit_id(source.pinned_ref) {
                4int
            } else {
                1int
            },
        ),
    decreases i,
{
    if i > 0 {
        fetch_states(h, subject, source, expected, root, process);
        fetch_places(h, subject, source, expected, root, process, i - 1);
        assert(fetch_follows(h[i - 1], h[i - 1 + 1]));
    }
}

proof fn fetch_states(
    h: Seq<FetchV>,
    subject: Seq<char>,
    source: SourceV,
    expected: Option<Seq<char>>,
    root: Seq<char>,
    process: u32,
)
    requires
        fetch_history(h, subject, source, expected, root, process),
    ensures
        source.repo is Some,
        forall|i: int|
            0 <= i < h.len() ==> {
                &&& (#[trigger] h[i]).tmp == h[0].tmp
                &&& h[i].repo == source.repo->Some_0
                &&& h[i].reference == source.pinned_ref
                &&& h[i].root == root
                &&& h[i].expected == expected
                &&& match h[i].at {
                    FetchAtV::Place(sha) => expected is Some ==> expected == Some(sha),
                    FetchAtV::Rename(sha) => expected is Some ==> expected == Some(sha),
                    FetchAtV::Remove(sha) => expected is Some ==> expected == Some(sha),
                    _ => true,
                }
            },
    decreases h.len(),
{
    if h.len() > 1 {
        let g = h.drop_last();
        assert forall|i: int| 0 <= i < g.len() - 1 implies fetch_follows(#[trigger] g[i], g[i + 1]) by {
            assert(fetch_follows(h[i], h[i + 1]));
        }
        fetch_states(g, subject, source, expected, root, process);
        let i = h.len() - 2;
        assert(fetch_follows(h[i], h[i + 1]));
        assert(g[i] == h[i]);
        assert forall|j: int| 0 <= j < h.len() implies {
            &&& (#[trigger] h[j]).tmp == h[0].tmp
            &&& h[j].repo == source.repo->Some_0
            &&& h[j].reference == source.pinned_ref
            &&& h[j].root == root
            &&& h[j].expected == expected
            &&& match h[j].at {
                FetchAtV::Place(sha) => expected is Some ==> expected == Some(sha),
                FetchAtV::Rename(sha) => expected is Some ==> expected == Some(sha),
                FetchAtV::Remove(sha) => expected is Some ==> expected == Some(sha),
                _ => true,
            }
        } by {
            if j < g.len() {
                assert(g[j] == h[j]);
            }
        }
    }
}

/// Only a git pin is fetched, and one that names its repository always is.
pub proof fn only_git_pins_are_fetched(
    subject: Seq<char>,
    source: SourceV,
    expected: Option<Seq<char>>,
    root: Seq<char>,
    process: u32,
)
    ensures
        fetch_start(subject, source, expected, root, process) is Ok <==> (source.kind == "git"@
            && source.repo is Some),
{
}

/// A program that fails or does not start ends a fetch, and what git says of it is the
/// end of the error.
pub proof fn failed_commands_end_a_fetch(f: FetchV, reply: Reply, words: Seq<char>)
    requires
        fetch_request(f) is Run,
        match reply {
            Reply::Ran(Outcome::Exited { success, stderr, .. }) => !success && stderr@ == words,
            Reply::Ran(Outcome::NotStarted(e)) => e@ == words,
            _ => false,
        },
    ensures
        fetch_next(f, reply) is Err,
        words.is_suffix_of(fetch_next(f, reply)->Err_0),
{
    let e = fetch_next(f, reply)->Err_0;
    assert(e.subrange(e.len() - words.len(), e.len() as int) =~= words);
}

/// Commands that end well keep a fetch going, as long as the revision is the expected one.
pub proof fn good_answers_keep_a_fetch_going(f: FetchV, reply: Reply, words: Seq<char>)
    requires
        fetch_request(f) is Run,
        said(reply, words),
        f.expected is Some ==> f.expected == Some(trim(words)),
    ensures
        fetch_next(f, reply) is Ok,
        fetch_next(f, reply)->Ok_0 is Again,
{
}

/// A library whose manifest names dependencies is configured only once each of them was
/// fetched, in their order, from its own repository at its own pin.
pub proof fn every_dependency_is_fetched(c: CmakeV, reply: Reply)
    requires
        c.fetched.len() <= c.recipe.dependency.len(),
        match c.at {
            CmakeAtV::Dependency(_) => c.fetched.len() < c.recipe.dependency.len(),
            _ => c.fetched.len() == c.recipe.dependency.len(),
        },
    ensures
        match cmake_next(c, reply) {
            Ok(CmakeStepV::Again(d)) => {
                &&& d.recipe == c.recipe && d.lib_dir == c.lib_dir && d.subject == c.subject
                &&& d.fetched == c.fetched || (c.at is Dependency && fetch_next(
                    c.at->Dependency_0,
                    reply,
                ) is Ok && fetch_next(c.at->Dependency_0, reply)->Ok_0 is Finished && d.fetched
                    == c.fetched.push(fetch_next(c.at->Dependency_0, reply)->Ok_0->dir))
                &&& match d.at {
                    CmakeAtV::Dependency(f) => {
                        &&& d.fetched.len() < d.recipe.dependency.len()
                        &&& d.fetched.len() > c.fetched.len() ==> fetches_dependency(d, f)
                    },
                    _ => d.fetched.len() == d.recipe.dependency.len(),
                }
            },
            Ok(CmakeStepV::Finished(_)) => c.fetched.len() == c.recipe.dependency.len(),
            Err(_) => true,
        },
{
}

/// Is a fetch that of the dependency that comes next?
pub open spec fn fetches_dependency(c: CmakeV, f: FetchV) -> bool {
    let d = c.recipe.dependency[c.fetched.len() as int];
    &&& f.repo == d.repo
    &&& f.reference == d.pinned_ref
    &&& f.expected == Some(d.sha)
    &&& f.at is MakeTmp
}

/// A source build starts with its first dependency, or, where it has none, by configuring.
pub proof fn source_builds_start_with_their_dependencies(
    subject: Seq<char>,
    lib_dir: Seq<char>,
    recipe: CmakeBuildV,
    build_root: Seq<char>,
    process: u32,
)
    ensures
        match cmake_start(subject, lib_dir, recipe, build_root, process) {
            Ok(c) => {
                &&& c.recipe == recipe && c.lib_dir == lib_dir && c.fetched.len() == 0
                &&& match c.at {
                    CmakeAtV::Dependency(f) => recipe.dependency.len() > 0 && fetches_dependency(c, f),
                    CmakeAtV::Configure => recipe.dependency.len() == 0,
                    CmakeAtV::Building => false,
                }
            },
            Err(_) => false,
        },
{
}

/// CMake is told where each dependency stands, under that dependency's own variable, and
/// is given every argument that the recipe declares; then it builds in the same place.
pub proof fn dependencies_are_configured(c: CmakeV, reply: Reply, i: int)
    requires
        c.at is Configure,
        c.fetched.len() == c.recipe.dependency.len(),
        0 <= i < c.fetched.len(),
        ended_well(reply),
    ensures
        cmake_request(c) is Run,
        cmake_request(c)->Run_0.contains(
            "-D"@ + c.recipe.dependency[i].cmake_var + "="@ + c.fetched[i],
        ),
        c.recipe.configure.is_suffix_of(cmake_request(c)->Run_0),
        cmake_next(c, reply) is Ok,
        cmake_next(c, reply)->Ok_0 is Again,
        cmake_request(cmake_next(c, reply)->Ok_0->Again_0) is Run,
        cmake_request(cmake_next(c, reply)->Ok_0->Again_0)->Run_0[1] == "--build"@,
        cmake_request(cmake_next(c, reply)->Ok_0->Again_0)->Run_0[2] == cmake_request(c)->Run_0[4],
        c.recipe.target is Some ==> cmake_request(
            cmake_next(c, reply)->Ok_0->Again_0,
        )->Run_0.skip(3) == seq!["--target"@, c.recipe.target->Some_0],
        cmake_request(c)->Run_0[1] == "-S"@,
        c.recipe.source_dir is Some ==> cmake_request(c)->Run_0[2] == path_join(
            c.lib_dir,
            c.recipe.source_dir->Some_0,
        ),
{
    let line = cmake_request(c)->Run_0;
    assert(line[7 + i] == "-D"@ + c.recipe.dependency[i].cmake_var + "="@ + c.fetched[i]);
    if let Some(t) = c.recipe.target {
        let build = cmake_request(cmake_next(c, reply)->Ok_0->Again_0)->Run_0;
        assert(build.skip(3) =~= seq!["--target"@, t]);
    }
    assert(line.subrange(line.len() - c.recipe.configure.len(), line.len() as int)
        =~= c.recipe.configure);
}

/// A driver is built against the sources that were fetched, and its recipe's libraries
/// are built first where it names any.
pub proof fn fetched_sources_are_built_against(c: CxxV, reply: Reply)
    requires
        c.at is Lib,
        fetch_next(c.at->Lib_0, reply) is Ok,
        fetch_next(c.at->Lib_0, reply)->Ok_0 is Finished,
    ensures
        cxx_next(c, reply) is Ok,
        cxx_next(c, reply)->Ok_0 is Again,
        ({
            let d = cxx_next(c, reply)->Ok_0->Again_0;
            let step = fetch_next(c.at->Lib_0, reply)->Ok_0;
            &&& d.lib_dir == step->dir
            &&& d.sha == step->sha
            &&& d.inputs == c.inputs
            &&& match c.inputs.build.cmake {
                None => cxx_request(d) == RequestV::Run(seq!["g++"@, "--version"@]),
                Some(recipe) => d.at is Sources && d.at->Sources_0.recipe == recipe
                    && d.at->Sources_0.lib_dir == step->dir,
            }
        }),
{
    if let Some(recipe) = c.inputs.build.cmake {
        let step = fetch_next(c.at->Lib_0, reply)->Ok_0;
        source_builds_start_with_their_dependencies(
            c.subject,
            step->dir,
            recipe,
            c.build_root,
            c.process,
        );
    }
}

/// The compiler gets every flag that is declared, every directory of headers under the
/// fetched sources, the directory of the generated header, and the driver's own source.
pub proof fn everything_declared_is_compiled(c: CxxV)
    requires
        c.at is Compile,
    ensures
        cxx_request(c) is Run,
        ({
            let line = cxx_request(c)->Run_0;
            &&& line[0] == "g++"@
            &&& c.inputs.build.std is Some ==> line[1] == "-std="@ + c.inputs.build.std->Some_0
            &&& forall|i: int|
                0 <= i < c.inputs.build.flags.len() ==> line.contains(
                    #[trigger] c.inputs.build.flags[i],
                )
            &&& forall|i: int|
                0 <= i < c.inputs.build.include_dirs.len() ==> line.contains(
                    "-I"@ + path_join(c.lib_dir, #[trigger] c.inputs.build.include_dirs[i]),
                )
            &&& line.contains(c.inputs.entry)
            &&& c.inputs.build.cmake is Some && c.cmake_dir is Some ==> {
                let recipe = c.inputs.build.cmake->Some_0;
                let dir = c.cmake_dir->Some_0;
                &&& forall|i: int|
                    0 <= i < recipe.include_dirs.len() ==> line.contains(
                        "-I"@ + path_join(dir, #[trigger] recipe.include_dirs[i]),
                    )
                &&& forall|i: int|
                    0 <= i < recipe.libraries.len() ==> line.contains(
                        path_join(dir, #[trigger] recipe.libraries[i]),
                    )
            }
        }),
{
    let line = cxx_request(c)->Run_0;
    let build = c.inputs.build;
    let (f, n) = (build.flags.len() as int, build.include_dirs.len() as int);
    let k = match (build.cmake, c.cmake_dir) {
        (Some(recipe), Some(_)) => recipe.include_dirs.len() as int,
        _ => 0int,
    };
    assert forall|i: int| 0 <= i < f implies line.contains(#[trigger] build.flags[i]) by {
        assert(line[2 + i] == build.flags[i]);
    }
    assert forall|i: int| 0 <= i < n implies line.contains(
        "-I"@ + path_join(c.lib_dir, #[trigger] build.include_dirs[i]),
    ) by {
        assert(line[2 + f + i] == "-I"@ + path_join(c.lib_dir, build.include_dirs[i]));
    }
    assert(line[2 + f + n + k + 2] == c.inputs.entry);
    if build.cmake is Some && c.cmake_dir is Some {
        let recipe = build.cmake->Some_0;
        let dir = c.cmake_dir->Some_0;
        assert forall|i: int| 0 <= i < recipe.include_dirs.len() implies line.contains(
            "-I"@ + path_join(dir, #[trigger] recipe.include_dirs[i]),
        ) by {
            assert(line[2 + f + n + i] == "-I"@ + path_join(dir, recipe.include_dirs[i]));
        }
        assert forall|i: int| 0 <= i < recipe.libraries.len() implies line.contains(
            path_join(dir, #[trigger] recipe.libraries[i]),
        ) by {
            assert(line[2 + f + n + k + 5 + i] == ""@ + path_join(dir, recipe.libraries[i]));
            reveal_strlit("");
            assert(""@ + path_join(dir, recipe.libraries[i]) =~= path_join(
                dir,
                recipe.libraries[i],
            ));
        }
    }
}

/// What is compiled is what is run: a build ends with the file that the compiler was told
/// to write, or that already stood there.
pub proof fn what_is_compiled_is_run(c: CxxV, reply: Reply)
    requires
        c.at is Binary || c.at is Compile,
        answers(cxx_request(c), reply),
        cxx_next(c, reply) is Ok,
        cxx_next(c, reply)->Ok_0 is Finished,
    ensures
        cxx_next(c, reply)->Ok_0->built.program.len() == 1,
        ({
            let binary = cxx_next(c, reply)->Ok_0->built.program[0];
            match cxx_request(c) {
                RequestV::Exists(path) => path == binary && reply == Reply::Present(true),
                RequestV::Run(line) => ended_well(reply) && line.contains(binary),
                _ => false,
            }
        }),
        cxx_next(c, reply)->Ok_0->built.resolved_sha == Some(c.sha),
        cxx_next(c, reply)->Ok_0->built.cache_key == c.key,
        dims_of(c.inputs.build).len() <= usize::MAX ==> cxx_next(c, reply)->Ok_0->built.combinations
            == dims_of(c.inputs.build).len(),
{
    if c.at is Compile {
        let line = cxx_request(c)->Run_0;
        let binary = cxx_next(c, reply)->Ok_0->built.program[0];
        let build = c.inputs.build;
        let k = match (build.cmake, c.cmake_dir) {
            (Some(recipe), Some(_)) => recipe.include_dirs.len() as int,
            _ => 0int,
        };
        assert(line[2 + build.flags.len() + build.include_dirs.len() + k + 4] == binary);
        assert(line.contains(binary));
        match reply {
            Reply::Ran(Outcome::Exited { success, .. }) => {},
            _ => {},
        }
    }
}

/// The generated header dispatches on every dimensionality that the driver is
/// specialised for, and those are the declared ones, or three where none is.
pub proof fn every_dimensionality_is_dispatched(build: BuildV, i: int)
    requires
        0 <= i < dims_of(build).len(),
    ensures
        build.compile_time_dims.len() > 0 ==> dims_of(build) == build.compile_time_dims,
        build.compile_time_dims.len() == 0 ==> dims_of(build) == seq![3u32],
        contains_text(
            dims_text(dims_of(build)),
            "        case "@ + dec(dims_of(build)[i] as nat)
                + ": { f(std::integral_constant<int, "@ + dec(dims_of(build)[i] as nat)
                + ">{}); return true; }\n"@,
        ),
{
    let dims = dims_of(build);
    let one = "        case "@ + dec(dims[i] as nat) + ": { f(std::integral_constant<int, "@ + dec(
        dims[i] as nat,
    ) + ">{}); return true; }\n"@;
    let (a, b) = case_stands(dims, i);
    let (head, tail) = (DIMS_HEAD@, "    }\n    return false;\n}\n"@);
    assert(dims_text(dims) =~= (head + a) + one + (b + tail));
    stands_between(head + a, one, b + tail);
}

proof fn case_stands(dims: Seq<u32>, i: int) -> (r: (Seq<char>, Seq<char>))
    requires
        0 <= i < dims.len(),
    ensures
        dims_cases(dims) == r.0 + ("        case "@ + dec(dims[i] as nat)
            + ": { f(std::integral_constant<int, "@ + dec(dims[i] as nat)
            + ">{}); return true; }\n"@) + r.1,
    decreases dims.len(),
{
    let one = "        case "@ + dec(dims[i] as nat) + ": { f(std::integral_constant<int, "@ + dec(
        dims[i] as nat,
    ) + ">{}); return true; }\n"@;
    if i == dims.len() - 1 {
        let r = (dims_cases(dims.drop_last()), Seq::<char>::empty());
        assert(dims_cases(dims) =~= r.0 + one + r.1);
        r
    } else {
        let p = case_stands(dims.drop_last(), i);
        let last = "        case "@ + dec(dims.last() as nat)
            + ": { f(std::integral_constant<int, "@ + dec(dims.last() as nat)
            + ">{}); return true; }\n"@;
        let r = (p.0, p.1 + last);
        assert(dims_cases(dims) =~= r.0 + one + r.1);
        r
    }
}

/// The header that a build reads is the one that it writes: once written it is not
/// written again, and a driver is not compiled against another.
pub proof fn headers_are_written_once(c: CxxV, d: CxxV)
    requires
        c.at is WriteDims,
        d == (CxxV { at: CxxAtV::ReadDims, ..c }),
    ensures
        cxx_request(c) is Write,
        cxx_request(d) == RequestV::Read(cxx_request(c)->path),
        cxx_request(c)->content == dims_text(dims_of(c.inputs.build)),
        forall|reply: Reply|
            (#[trigger] cxx_next(d, reply)) is Ok && cxx_next(d, reply)->Ok_0 is Again && (if (reply
                is Text && reply->Text_0 is Ok && reply->Text_0->Ok_0@ == cxx_request(c)->content) {
                cxx_next(d, reply)->Ok_0->Again_0.at is Binary
            } else {
                cxx_next(d, reply)->Ok_0->Again_0.at is WriteDims
                    || cxx_request(c)->content.len() == 0
            }),
{
    assert forall|reply: Reply|
        (#[trigger] cxx_next(d, reply)) is Ok && cxx_next(d, reply)->Ok_0 is Again && (if (reply
            is Text && reply->Text_0 is Ok && reply->Text_0->Ok_0@ == cxx_request(c)->content) {
            cxx_next(d, reply)->Ok_0->Again_0.at is Binary
        } else {
            cxx_next(d, reply)->Ok_0->Again_0.at is WriteDims || cxx_request(c)->content.len() == 0
        }) by {
        reveal_strlit("");
        match reply {
            Reply::Text(Ok(t)) => {},
            _ => {
                assert(""@.len() == 0);
            },
        }
    }
}

/// The key of a C++ driver is taken of all that goes into it: where two drivers differ in
/// the source, the language standard, the revision or the compiler alone, what their keys
/// are taken of differs.
#[verifier::rlimit(60)]
#[verifier::spinoff_prover]
pub proof fn cxx_keys_are_taken_of_what_is_built(
    shim: Seq<char>,
    build: BuildV,
    sha: Seq<char>,
    compiler: Seq<char>,
    other: Seq<char>,
)
    ensures
        cxx_material(shim, build, sha, compiler) == cxx_material(other, build, sha, compiler)
            ==> shim == other,
        cxx_material(shim, build, sha, compiler) == cxx_material(shim, build, other, compiler)
            ==> sha == other,
        cxx_material(shim, build, sha, compiler) == cxx_material(shim, build, sha, other)
            ==> compiler == other,
        build.std is Some && cxx_material(shim, build, sha, compiler) == cxx_material(
            shim,
            BuildV { std: Some(other), ..build },
            sha,
            compiler,
        ) ==> build.std == Some(other),
        contains_text(cxx_material(shim, build, sha, compiler), join(build.flags, "\u{1}"@)),
        contains_text(cxx_material(shim, build, sha, compiler), join(build.include_dirs, "\u{1}"@)),
        contains_text(
            cxx_material(shim, build, sha, compiler),
            join(dec_all(build.compile_time_dims), ","@),
        ),
        build.cmake is Some ==> contains_text(
            cxx_material(shim, build, sha, compiler),
            cmake_material(build.cmake),
        ),
{
    if cxx_material(shim, build, sha, compiler) == cxx_material(other, build, sha, compiler) {
        cxx_differ(shim, build, sha, compiler, other, build, sha, compiler, 1);
    }
    if cxx_material(shim, build, sha, compiler) == cxx_material(shim, build, other, compiler) {
        cxx_differ(shim, build, sha, compiler, shim, build, other, compiler, 12);
    }
    if cxx_material(shim, build, sha, compiler) == cxx_material(shim, build, sha, other) {
        cxx_differ(shim, build, sha, compiler, shim, build, sha, other, 14);
    }
    let changed = BuildV { std: Some(other), ..build };
    if build.std is Some && cxx_material(shim, build, sha, compiler) == cxx_material(
        shim,
        changed,
        sha,
        compiler,
    ) {
        cxx_differ(shim, build, sha, compiler, shim, changed, sha, compiler, 3);
    }
    cxx_stands(shim, build, sha, compiler, 5);
    cxx_stands(shim, build, sha, compiler, 7);
    cxx_stands(shim, build, sha, compiler, 8);
    cxx_stands(shim, build, sha, compiler, 10);
}

proof fn cxx_stands(shim: Seq<char>, build: BuildV, sha: Seq<char>, compiler: Seq<char>, k: int)
    requires
        0 <= k < 15,
    ensures
        contains_text(
            cxx_material(shim, build, sha, compiler),
            cxx_list(shim, build, sha, compiler)[k],
        ),
{
    cxx_parts(shim, build, sha, compiler);
    stands_inside(cxx_list(shim, build, sha, compiler), 15, k);
}

proof fn cxx_differ(
    shim: Seq<char>,
    build: BuildV,
    sha: Seq<char>,
    compiler: Seq<char>,
    shim2: Seq<char>,
    build2: BuildV,
    sha2: Seq<char>,
    compiler2: Seq<char>,
    k: int,
)
    requires
        k == 1 || k == 3 || k == 12 || k == 14,
        shim == shim2 || k == 1,
        sha == sha2 || k == 12,
        compiler == compiler2 || k == 14,
        build == build2 || (k == 3 && build2 == (BuildV { std: build2.std, ..build })),
        cxx_material(shim, build, sha, compiler) == cxx_material(shim2, build2, sha2, compiler2),
    ensures
        cxx_list(shim, build, sha, compiler)[k] == cxx_list(shim2, build2, sha2, compiler2)[k],
{
    cxx_parts(shim, build, sha, compiler);
    cxx_parts(shim2, build2, sha2, compiler2);
    let (a, b) = (
        cxx_list(shim, build, sha, compiler),
        cxx_list(shim2, build2, sha2, compiler2),
    );
    assert(b =~= a.update(k, b[k]));
    assert(b.len() == 15 && a.len() == 15);
    same_inside(a, b, 15, k);
}

/// What a source build adds to a key is taken of its arguments, its target, its headers,
/// its libraries and every one of its dependencies.
pub proof fn source_builds_add_to_the_key(r: CmakeBuildV, i: int)
    ensures
        contains_text(cmake_material(Some(r)), join(r.configure, "\u{1}"@)),
        r.target is Some ==> contains_text(cmake_material(Some(r)), r.target->Some_0),
        contains_text(cmake_material(Some(r)), join(r.include_dirs, "\u{1}"@)),
        contains_text(cmake_material(Some(r)), join(r.libraries, "\u{1}"@)),
        0 <= i < r.dependency.len() ==> contains_text(
            cmake_material(Some(r)),
            "\u{1}"@ + r.dependency[i].name + "\u{1}"@ + r.dependency[i].repo + "\u{1}"@
                + r.dependency[i].pinned_ref + "\u{1}"@ + r.dependency[i].sha + "\u{1}"@
                + r.dependency[i].cmake_var,
        ),
{
    let sep = "\u{1}"@;
    let list = seq![
        sep,
        join(r.configure, sep),
        sep,
        text_or(r.target, ""@),
        sep,
        join(r.include_dirs, sep),
        sep,
        join(r.libraries, sep),
        dependencies_material(r.dependency),
    ];
    assert(run_together(list, 9) == cmake_material(Some(r))) by {
        reveal_with_fuel(run_together, 10);
    }
    stands_inside(list, 9, 1);
    stands_inside(list, 9, 3);
    stands_inside(list, 9, 5);
    stands_inside(list, 9, 7);
    if 0 <= i < r.dependency.len() {
        stands_inside(list, 9, 8);
        dependency_stands(r.dependency, i);
        stands_through(
            cmake_material(Some(r)),
            dependencies_material(r.dependency),
            dependency_material(r.dependency[i]),
        );
    }
}

proof fn dependency_stands(ds: Seq<CmakeDependencyV>, i: int)
    requires
        0 <= i < ds.len(),
    ensures
        contains_text(dependencies_material(ds), dependency_material(ds[i])),
    decreases ds.len(),
{
    let none = Seq::<char>::empty();
    let front = dependencies_material(ds.drop_last());
    let last = dependency_material(ds.last());
    if i == ds.len() - 1 {
        stands_between(front, last, none);
        assert(front + last + none =~= dependencies_material(ds));
    } else {
        dependency_stands(ds.drop_last(), i);
        stands_between(none, front, last);
        assert(none + front + last =~= dependencies_material(ds));
        stands_through(dependencies_material(ds), front, dependency_material(ds[i]));
    }
}

/// A C++ driver's key is taken of the compiler's first line, of its source as it was read,
/// and of the revision that was fetched.
pub proof fn keys_are_taken_of_what_was_read(c: CxxV, reply: Reply, text: String)
    ensures
        c.at is Compiler && reply == Reply::Text(Ok(text)) ==> cxx_next(c, reply) is Err,
        c.at is Compiler && ended_well(reply) ==> (cxx_next(c, reply) matches Ok(CxxStepV::Again(d))
            && d.at is Shim && d.sha == c.sha && (reply matches Reply::Ran(
            Outcome::Exited { stdout, .. },
        ) && (lines(stdout@).len() > 0 ==> d.compiler == lines(stdout@)[0]))),
        c.at is Shim && reply == Reply::Text(Ok(text)) ==> (cxx_next(c, reply) matches Ok(
            CxxStepV::Again(d),
        ) && d.key == cache_key(cxx_material(text@, c.inputs.build, c.sha, c.compiler))),
{
}

/// What stands in a text stands in every text that it stands in.
pub proof fn stands_through(s: Seq<char>, t: Seq<char>, pat: Seq<char>)
    requires
        contains_text(s, t),
        contains_text(t, pat),
    ensures
        contains_text(s, pat),
{
    let i = choose|at: int| stands_at(s, t, at);
    let j = choose|at: int| stands_at(t, pat, at);
    assert(s.subrange(i + j, i + j + pat.len()) =~= s.subrange(i, i + t.len()).subrange(
        j,
        j + pat.len(),
    ));
    assert(stands_at(s, pat, i + j));
}

spec fn cxx_list(shim: Seq<char>, build: BuildV, sha: Seq<char>, compiler: Seq<char>) -> Seq<
    Seq<char>,
> {
    let sep = "\u{1}"@;
    seq![
        "cxx-shim\u{1}"@,
        shim,
        sep,
        text_or(build.std, ""@),
        sep,
        join(build.flags, sep),
        sep,
        join(build.include_dirs, sep),
        cmake_material(build.cmake),
        sep,
        join(dec_all(build.compile_time_dims), ","@),
        sep,
        sha,
        sep,
        compiler,
    ]
}

proof fn cxx_parts(shim: Seq<char>, build: BuildV, sha: Seq<char>, compiler: Seq<char>)
    ensures
        cxx_material(shim, build, sha, compiler) == run_together(
            cxx_list(shim, build, sha, compiler),
            15,
        ),
{
    reveal_with_fuel(run_together, 16);
}

/// The key of a python driver is taken of all that goes into it: of two drivers that
/// differ in the source, the pin or the interpreter alone, what their keys are taken of
/// differs.
#[verifier::rlimit(60)]
pub proof fn python_keys_are_taken_of_what_is_built(
    driver: Seq<char>,
    source: SourceV,
    python: Seq<char>,
    other: Seq<char>,
)
    ensures
        python_material(driver, source, python) == python_material(other, source, python)
            ==> driver == other,
        python_material(driver, source, python) == python_material(driver, source, other)
            ==> python == other,
        python_material(driver, source, python) == python_material(
            driver,
            SourceV { pinned_ref: other, ..source },
            python,
        ) ==> source.pinned_ref == other,
        source.package is Some && python_material(driver, source, python) == python_material(
            driver,
            SourceV { package: Some(other), ..source },
            python,
        ) ==> source.package == Some(other),
        python_material(driver, source, python) == python_material(
            driver,
            SourceV { kind: other, ..source },
            python,
        ) ==> source.kind == other,
{
    let pinned = SourceV { pinned_ref: other, ..source };
    let packaged = SourceV { package: Some(other), ..source };
    let kind = SourceV { kind: other, ..source };
    python_parts(driver, source, python);
    python_parts(other, source, python);
    python_parts(driver, source, other);
    python_parts(driver, pinned, python);
    python_parts(driver, packaged, python);
    python_parts(driver, kind, python);
    let m = python_list(driver, source, python);
    if python_material(driver, source, python) == python_material(other, source, python) {
        same_inside(m, python_list(other, source, python), 10, 1);
    }
    if python_material(driver, source, python) == python_material(driver, source, other) {
        same_inside(m, python_list(driver, source, other), 10, 9);
    }
    if python_material(driver, source, python) == python_material(driver, pinned, python) {
        same_inside(m, python_list(driver, pinned, python), 10, 7);
    }
    if source.package is Some && python_material(driver, source, python) == python_material(
        driver,
        packaged,
        python,
    ) {
        same_inside(m, python_list(driver, packaged, python), 10, 5);
    }
    if python_material(driver, source, python) == python_material(driver, kind, python) {
        same_inside(m, python_list(driver, kind, python), 10, 3);
    }
}

spec fn python_list(driver: Seq<char>, source: SourceV, python: Seq<char>) -> Seq<Seq<char>> {
    let sep = "\u{1}"@;
    seq![
        "python-driver\u{1}"@,
        driver,
        sep,
        source.kind,
        sep,
        text_or(source.package, ""@),
        sep,
        source.pinned_ref,
        sep,
        python,
    ]
}

proof fn python_parts(driver: Seq<char>, source: SourceV, python: Seq<char>)
    ensures
        python_material(driver, source, python) == run_together(
            python_list(driver, source, python),
            10,
        ),
{
    reveal_with_fuel(run_together, 11);
}

/// What is installed for a source is found again: the marker that is written behind an
/// installation is the one that is read, and a driver whose marker it is is not installed
/// anew. Any other marker is.
pub proof fn libraries_are_installed_once(p: PythonV, q: PythonV, reply: Reply)
    requires
        p.at is WriteMarker,
        q == (PythonV { at: PythonAt::Marker, ..p }),
        reply is Text,
        installed(p.subject, p.inputs.source) is Ok,
    ensures
        python_request(p) is Write,
        python_request(q) == RequestV::Read(python_request(p)->path),
        python_request(p)->content == installed(p.subject, p.inputs.source)->Ok_0 + "\n"@,
        python_next(q, reply) is Ok,
        (reply->Text_0 is Ok && reply->Text_0->Ok_0@ == python_request(p)->content) ==> python_next(
            q,
            reply,
        )->Ok_0 is Finished,
        (reply->Text_0 is Ok && reply->Text_0->Ok_0@ != python_request(p)->content)
            || reply->Text_0 is Err ==> python_next(q, reply)->Ok_0 is Again && python_request(
            python_next(q, reply)->Ok_0->Again_0,
        ) is Run && python_request(python_next(q, reply)->Ok_0->Again_0)->Run_0.last() == installed(
            p.subject,
            p.inputs.source,
        )->Ok_0,
{
    reveal_strlit("");
    reveal_strlit("\n");
    let content = python_request(p)->content;
    assert(content.len() > 0);
}

/// What pip is asked for names the source at its pin; where a source names nothing that
/// pip knows, nothing is asked for.
pub proof fn pins_are_what_is_installed(subject: Seq<char>, source: SourceV)
    ensures
        match installed(subject, source) {
            Ok(s) => {
                ||| s.len() == 0 && source.kind != "pypi"@ && source.kind != "git"@
                ||| source.kind == "pypi"@ && source.package is Some && s
                    == source.package->Some_0 + "=="@ + source.pinned_ref
                ||| source.kind == "git"@ && source.repo is Some && s == "git+"@
                    + source.repo->Some_0 + "@"@ + source.pinned_ref
            },
            Err(_) => (source.kind == "pypi"@ && source.package is None) || (source.kind == "git"@
                && source.repo is None),
        },
        !(source.kind == "pypi"@ && source.package is None) && !(source.kind == "git"@
            && source.repo is None) ==> installed(subject, source) is Ok,
{
    reveal_strlit("");
    reveal_strlit("pypi");
    reveal_strlit("git");
    assert("pypi"@.len() == 4 && "git"@.len() == 3);
}

/// A python driver is run by the interpreter of its own environment, on its own file; that
/// environment is the one that was looked for.
pub proof fn environments_run_their_own_driver(p: PythonV, reply: Reply, look: PythonV)
    requires
        python_next(p, reply) is Ok,
        python_next(p, reply)->Ok_0 is Finished,
        look == (PythonV { at: PythonAt::Look, ..p }),
    ensures
        python_next(p, reply)->Ok_0->built.program.len() == 2,
        python_request(look) == RequestV::Exists(python_next(p, reply)->Ok_0->built.program[0]),
        python_next(p, reply)->Ok_0->built.program[1] == p.inputs.entry,
        python_next(p, reply)->Ok_0->built.cache_key == p.key,
{
}

/// The compiler is pointed at the directory that the generated header is written to, and
/// compiles for C++17 where no standard is declared.
pub proof fn compilers_see_the_generated_header(c: CxxV, w: CxxV)
    requires
        c.at is Compile,
        w == (CxxV { at: CxxAtV::WriteDims, ..c }),
    ensures
        c.inputs.build.std is None ==> cxx_request(c)->Run_0[1] == "-std=c++17"@,
        exists|i: int|
            0 <= i < cxx_request(c)->Run_0.len() - 1 && cxx_request(c)->Run_0[i] == "-I"@
                && cxx_request(w)->path == path_join(
                #[trigger] cxx_request(c)->Run_0[i + 1],
                "dims.hpp"@,
            ),
{
    let build = c.inputs.build;
    let k = match (build.cmake, c.cmake_dir) {
        (Some(recipe), Some(_)) => recipe.include_dirs.len() as int,
        _ => 0int,
    };
    let i = 2 + build.flags.len() + build.include_dirs.len() + k;
    let line = cxx_request(c)->Run_0;
    assert(line[i] == "-I"@);
    assert(line[i + 1] == cxx_dir(c));
    reveal_strlit("-std=");
    reveal_strlit("c++17");
    reveal_strlit("-std=c++17");
    assert("-std=c++17"@ =~= "-std="@ + "c++17"@);
}

/// The interpreter whose version goes into a key is the one that makes the environment.
pub proof fn one_interpreter_makes_the_environment(p: PythonV, q: PythonV)
    requires
        p.at is Interpreter,
        q.at is Venv,
    ensures
        python_request(p) is Run && python_request(q) is Run,
        python_request(p)->Run_0[0] == python_request(q)->Run_0[0],
        python_request(p)->Run_0[1] == "--version"@,
        python_request(q)->Run_0[2] == "venv"@,
{
}

/// A checkout that stands already is kept and the new one removed; otherwise the new one
/// takes its place.
pub proof fn checkouts_are_kept_once(f: FetchV, sha: Seq<char>, there: bool)
    requires
        f.at == FetchAtV::Place(sha),
    ensures
        fetch_next(f, Reply::Present(there)) matches Ok(FetchStepV::Again(g)) && (there
            ==> fetch_request(g) == RequestV::RemoveDir(f.tmp)) && (!there ==> fetch_request(g) == (
        RequestV::Rename { from: f.tmp, to: path_join(f.root, sha) })),
{
}

/// Two processes do not fetch into the same directory.
pub proof fn processes_fetch_apart(
    subject: Seq<char>,
    source: SourceV,
    expected: Option<Seq<char>>,
    root: Seq<char>,
    a: u32,
    b: u32,
)
    requires
        fetch_start(subject, source, expected, root, a) is Ok,
        fetch_start(subject, source, expected, root, b) is Ok,
        fetch_request(fetch_start(subject, source, expected, root, a)->Ok_0) == fetch_request(
            fetch_start(subject, source, expected, root, b)->Ok_0,
        ),
    ensures
        a == b,
{
    reveal_strlit("tmp-");
    reveal_strlit("/");
    let (x, y) = (dec(a as nat), dec(b as nat));
    let (s, t) = (path_join(root, "tmp-"@ + x), path_join(root, "tmp-"@ + y));
    let n = s.len() - x.len();
    assert(s == t);
    assert(t.len() - y.len() == n);
    assert(s.skip(n) =~= x);
    assert(t.skip(n) =~= y);
    decimal_reads_back(a as nat);
    decimal_reads_back(b as nat);
}

/// An environment is made where none stands, and only there.
pub proof fn environments_are_made_once(p: PythonV, there: bool)
    requires
        p.at is Look,
    ensures
        !there ==> (python_next(p, Reply::Present(there)) matches Ok(PythonStepV::Again(q)) && q.at
            is Venv),
        there ==> match python_next(p, Reply::Present(there)) {
            Ok(PythonStepV::Again(q)) => q.at is Marker,
            Ok(PythonStepV::Finished { .. }) => installed(p.subject, p.inputs.source) is Ok
                && installed(p.subject, p.inputs.source)->Ok_0.len() == 0,
            Err(_) => installed(p.subject, p.inputs.source) is Err,
        },
{
}

/// A built driver stands by its key under its subject's own directory, apart from the
/// sources that it was built from.
pub proof fn drivers_stand_by_their_key(c: CxxV, reply: Reply, p: PythonV, answer: Reply)
    ensures
        cxx_next(c, reply) matches Ok(CxxStepV::Finished { built, dir }) ==> dir == path_join(
            path_join(path_join(c.build_root, c.subject), "exec"@),
            built.cache_key,
        ),
        python_next(p, answer) matches Ok(PythonStepV::Finished { built, dir }) ==> dir == path_join(
            path_join(path_join(p.build_root, p.subject), "exec"@),
            built.cache_key,
        ),
{
}

} // verus!
