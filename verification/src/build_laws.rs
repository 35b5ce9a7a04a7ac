//! What a build of a rust driver promises: which sources, which toolchain and which
//! flags it is given, and what is told of its end.

use crate::adapter::{
    environment_prepared, package_prepared, package_request, Adapter, CodegenInputsV,
    SubjectRequestV,
};
use crate::case::CaseV;
use crate::catalog::{declared_by, driver_choice, facts_in, matching_cases, CatalogV};
use crate::data::{get_text, DataV};
use crate::exec::BuiltV;
use crate::exec_laws::{run_together, stands_between, stands_inside, stands_through};
use crate::execute::{run_subjects, AboutV};
use crate::ordered::{ascending_texts, ascending_where, lists_where, Ordered};
use crate::package::{
    build_error_text, commit_id, compile_result, driver_dependency, isa_flags, locked, package_dir,
    package_manifest, patch_table, subject_dependency, BuildRequestV, DriverSourceV, GeneratedV,
    Outcome, SubjectSourceV, MANIFEST_HEAD, MANIFEST_TAIL, PATCH_HEAD,
};
use crate::paths::path_join;
use crate::resolve::{
    driver_place, engine_place, manifest_place, override_of, overrides, revision, subject_place,
    Inputs, Places, SubjectPathV,
};
use crate::run::{
    common_toolchain, flags_for, floors_for, grouped, has_case, isas_of, request_of, subjects_of,
    uses_isa,
};
use crate::selector::ClauseV;
use crate::tag::render;
use crate::text::{
    contains_text, debug_list, debug_text, decimal_reads_back, option_text, text_lt,
    text_lt_irreflexive, text_lt_total, text_lt_transitive, until, words,
};
use crate::toolchain::{
    cargo_line, highest_floor, read_version, resolved_clears_every_floor, rustc_version,
    version_le, version_text, versions_read_back, Version,
};
use vstd::prelude::*;

verus! {

/// No two instruction sets build with the same flags.
pub proof fn instruction_sets_are_told_apart(a: Seq<char>, b: Seq<char>)
    requires
        isa_flags(a) is Some,
        isa_flags(a) == isa_flags(b),
    ensures
        a == b,
{
    reveal_strlit("-C target-cpu=native");
    reveal_strlit("-C target-cpu=x86-64-v3");
    reveal_strlit("-C target-cpu=x86-64-v4");
    reveal_strlit("-C target-feature=+sve");
    reveal_strlit("-C target-feature=+neon");
    reveal_strlit("");
    assert("-C target-cpu=x86-64-v3"@[22] == '3' && "-C target-cpu=x86-64-v4"@[22] == '4');
    assert("-C target-cpu=x86-64-v3"@[10] == 'c' && "-C target-cpu=x86-64-v4"@[10] == 'c');
    assert("-C target-feature=+neon"@[10] == 'f');
    assert("-C target-cpu=x86-64-v3"@.len() == 23 && "-C target-cpu=x86-64-v4"@.len() == 23);
    assert("-C target-feature=+neon"@.len() == 23 && "-C target-feature=+sve"@.len() == 22);
    assert("-C target-cpu=native"@.len() == 20 && ""@.len() == 0);
}

/// A generated package depends on its subject at the repository and the ref that are
/// pinned, with every feature: a commit id as a revision, any other ref as a tag.
pub proof fn packages_depend_on_the_pin(
    repo: Seq<char>,
    reference: Seq<char>,
    features: Seq<Seq<char>>,
)
    ensures
        ({
            let line = subject_dependency(SubjectSourceV::Git { repo, reference }, features);
            &&& contains_text(line, debug_text(repo))
            &&& contains_text(line, debug_list(features))
            &&& commit_id(reference) ==> contains_text(line, ", rev = "@ + debug_text(reference))
            &&& !commit_id(reference) ==> contains_text(line, ", tag = "@ + debug_text(reference))
        }),
{
    let line = subject_dependency(SubjectSourceV::Git { repo, reference }, features);
    let key = if commit_id(reference) {
        ", rev = "@
    } else {
        ", tag = "@
    };
    let list = seq![
        "{ git = "@,
        debug_text(repo),
        key,
        debug_text(reference),
        ", features = "@,
        debug_list(features),
        " }"@,
    ];
    reveal_with_fuel(run_together, 8);
    assert(run_together(list, 7) == line);
    stands_inside(list, 7, 1);
    stands_inside(list, 7, 5);
    let pairs = seq![
        "{ git = "@ + debug_text(repo),
        key + debug_text(reference),
        ", features = "@,
        debug_list(features),
        " }"@,
    ];
    assert(run_together(pairs, 2) =~= "{ git = "@ + debug_text(repo) + key + debug_text(reference));
    assert(run_together(pairs, 5) == line);
    stands_inside(pairs, 5, 1);
}

/// The manifest of a generated package names its driver crate with where the driver comes
/// from, and its subject crate with where the subject comes from.
pub proof fn packages_name_their_dependencies(r: BuildRequestV, patched: Option<Seq<char>>)
    ensures
        contains_text(
            package_manifest(r, patched),
            r.driver_crate + " = "@ + driver_dependency(r.driver_source),
        ),
        contains_text(
            package_manifest(r, patched),
            r.subject_crate + " = "@ + subject_dependency(r.subject_source, r.features),
        ),
        match r.driver_source {
            DriverSourceV::Path(p) => contains_text(driver_dependency(r.driver_source), debug_text(p)),
            DriverSourceV::Registry { version } => contains_text(
                driver_dependency(r.driver_source),
                version,
            ),
        },
        match r.subject_source {
            SubjectSourceV::Path(p) => contains_text(
                subject_dependency(r.subject_source, r.features),
                debug_text(p),
            ),
            _ => true,
        },
{
    manifest_parts(r, patched);
    reveal_with_fuel(run_together, 6);
    match r.driver_source {
        DriverSourceV::Path(p) => {
            let list = seq!["{ path = "@, debug_text(p), " }"@];
            assert(run_together(list, 3) == driver_dependency(r.driver_source));
            stands_inside(list, 3, 1);
        },
        DriverSourceV::Registry { version } => {
            let list = seq!["\""@, version, "\""@];
            assert(run_together(list, 3) == driver_dependency(r.driver_source));
            stands_inside(list, 3, 1);
        },
    }
    if let SubjectSourceV::Path(p) = r.subject_source {
        let list = seq!["{ path = "@, debug_text(p), ", features = "@, debug_list(r.features), " }"@];
        assert(run_together(list, 5) == subject_dependency(r.subject_source, r.features));
        stands_inside(list, 5, 1);
    }
}

proof fn manifest_parts(r: BuildRequestV, patched: Option<Seq<char>>)
    ensures
        contains_text(
            package_manifest(r, patched),
            r.driver_crate + " = "@ + driver_dependency(r.driver_source),
        ),
        contains_text(
            package_manifest(r, patched),
            r.subject_crate + " = "@ + subject_dependency(r.subject_source, r.features),
        ),
{
    let d = r.driver_crate + " = "@ + driver_dependency(r.driver_source);
    let s = r.subject_crate + " = "@ + subject_dependency(r.subject_source, r.features);
    let list = seq![
        MANIFEST_HEAD@,
        d,
        "\n"@,
        s,
        MANIFEST_TAIL@,
        patch_table(patched),
    ];
    reveal_with_fuel(run_together, 7);
    assert(run_together(list, 2) =~= MANIFEST_HEAD@ + r.driver_crate + " = "@
        + driver_dependency(r.driver_source));
    assert(run_together(list, 4) =~= run_together(list, 3) + r.subject_crate + " = "@
        + subject_dependency(r.subject_source, r.features));
    assert(run_together(list, 6) == package_manifest(r, patched));
    stands_inside(list, 6, 1);
    stands_inside(list, 6, 3);
}

/// A build fails exactly where the compiler does, and the compiler's own words are the end
/// of what is told.
pub proof fn builds_end_as_the_compiler_does(out: Outcome)
    ensures
        compile_result(out) is Ok <==> (match out {
            Outcome::Exited { success, .. } => success,
            Outcome::NotStarted(_) => false,
        }),
        compile_result(out) is Err ==> (match out {
            Outcome::Exited { stderr, .. } => stderr@,
            Outcome::NotStarted(e) => e@,
        }).is_suffix_of(build_error_text(compile_result(out)->Err_0)),
{
    if compile_result(out) is Err {
        let text = build_error_text(compile_result(out)->Err_0);
        let words = match out {
            Outcome::Exited { stderr, .. } => stderr@,
            Outcome::NotStarted(e) => e@,
        };
        assert(text.subrange(text.len() - words.len(), text.len() as int) =~= words);
    }
}

/// The first package of a name in a lockfile is the one that was built.
pub proof fn the_first_package_of_a_name_counts(packages: Seq<DataV>, name: Seq<char>, i: int)
    requires
        0 <= i < packages.len(),
        get_text(Some(packages[i]), "name"@) == Some(name),
        forall|j: int| 0 <= j < i ==> get_text(Some(#[trigger] packages[j]), "name"@) != Some(name),
    ensures
        match locked(packages, name) {
            Some(p) => get_text(Some(packages[i]), "version"@) == Some(p.0),
            None => get_text(Some(packages[i]), "version"@) is None,
        },
        locked(packages, name) == locked(seq![packages[i]], name),
    decreases packages.len(),
{
    reveal_with_fuel(locked, 2);
    assert(seq![packages[i]].drop_first() =~= Seq::empty());
    if i > 0 {
        let rest = packages.drop_first();
        assert forall|j: int| 0 <= j < i - 1 implies get_text(Some(#[trigger] rest[j]), "name"@)
            != Some(name) by {
            assert(rest[j] == packages[j + 1]);
        }
        assert(get_text(Some(packages[0]), "name"@) != Some(name));
        the_first_package_of_a_name_counts(rest, name, i - 1);
        assert(rest[i - 1] == packages[i]);
    }
}

/// No package of a name, nothing built of it.
pub proof fn missing_packages_are_not_found(packages: Seq<DataV>, name: Seq<char>)
    requires
        forall|j: int|
            0 <= j < packages.len() ==> get_text(Some(#[trigger] packages[j]), "name"@) != Some(name),
    ensures
        locked(packages, name) is None,
    decreases packages.len(),
{
    if packages.len() > 0 {
        let rest = packages.drop_first();
        assert forall|j: int| 0 <= j < rest.len() implies get_text(
            Some(#[trigger] rest[j]),
            "name"@,
        ) != Some(name) by {
            assert(rest[j] == packages[j + 1]);
        }
        assert(get_text(Some(packages[0]), "name"@) != Some(name));
        missing_packages_are_not_found(rest, name);
    }
}

/// A build runs the toolchain that was asked for: cargo is told of it, in a form that reads
/// back as it, unless it is the active one already or none was asked for.
pub proof fn the_toolchain_asked_for_builds(toolchain: Version, active: Option<Version>)
    ensures
        cargo_line(toolchain, active).len() >= 1,
        cargo_line(toolchain, active)[0] == "cargo"@,
        cargo_line(toolchain, active).len() == 1 <==> (toolchain == Version(0, 0, 0) || active == Some(
            toolchain,
        )),
        cargo_line(toolchain, active).len() > 1 ==> {
            &&& cargo_line(toolchain, active).len() == 2
            &&& "+"@.is_prefix_of(cargo_line(toolchain, active)[1])
            &&& read_version(cargo_line(toolchain, active)[1].skip(1)) == Some(toolchain)
        },
{
    reveal_strlit("+");
    versions_read_back(toolchain);
    let line = cargo_line(toolchain, active);
    if line.len() > 1 {
        assert(line[1].skip(1) =~= version_text(toolchain));
        assert("+"@ =~= line[1].subrange(0, "+"@.len() as int));
    }
}

/// A compiler is known by the number in its second word, whatever channel stands behind it.
pub proof fn compilers_are_known_by_their_number(text: Seq<char>, v: Version, channel: Seq<char>)
    requires
        words(text).len() >= 2,
        words(text)[1] == version_text(v) + channel,
        channel.len() > 0 ==> channel[0] == '-',
    ensures
        rustc_version(text) == Some(v),
{
    let stop = |c: char| c == '-' || c == ' ';
    let t = version_text(v);
    versions_read_back(v);
    assert forall|i: int| 0 <= i < t.len() implies !stop(#[trigger] t[i]) by {
        reveal_strlit(".");
        decimal_reads_back(v.0 as nat);
        decimal_reads_back(v.1 as nat);
        decimal_reads_back(v.2 as nat);
    }
    until_stops(t, channel, stop);
}

proof fn until_stops(t: Seq<char>, rest: Seq<char>, stop: spec_fn(char) -> bool)
    requires
        forall|i: int| 0 <= i < t.len() ==> !stop(#[trigger] t[i]),
        rest.len() > 0 ==> stop(rest[0]),
    ensures
        until(t + rest, stop) == t,
    decreases t.len(),
{
    if t.len() == 0 {
        assert(t + rest =~= rest);
        assert(until(rest, stop) =~= t);
    } else {
        assert((t + rest).drop_first() =~= t.drop_first() + rest);
        until_stops(t.drop_first(), rest, stop);
        assert(seq![t[0]] + t.drop_first() =~= t);
    }
}

/// Of several working trees for a subject the first counts; a tree for another subject
/// does not.
pub proof fn the_first_working_tree_counts(paths: Seq<SubjectPathV>, subject: Seq<char>, i: int)
    requires
        0 <= i < paths.len(),
        paths[i].name == subject,
        forall|j: int| 0 <= j < i ==> (#[trigger] paths[j]).name != subject,
    ensures
        override_of(paths, subject) == Some(paths[i].path),
    decreases paths.len(),
{
    if i > 0 {
        let rest = paths.drop_first();
        assert forall|j: int| 0 <= j < i - 1 implies (#[trigger] rest[j]).name != subject by {
            assert(rest[j] == paths[j + 1]);
        }
        assert(paths[0].name != subject);
        the_first_working_tree_counts(rest, subject, i - 1);
    }
}

/// Where no tree is for a subject, none is taken.
pub proof fn other_working_trees_do_not_count(paths: Seq<SubjectPathV>, subject: Seq<char>)
    requires
        forall|j: int| 0 <= j < paths.len() ==> (#[trigger] paths[j]).name != subject,
    ensures
        override_of(paths, subject) is None,
    decreases paths.len(),
{
    if paths.len() > 0 {
        let rest = paths.drop_first();
        assert forall|j: int| 0 <= j < rest.len() implies (#[trigger] rest[j]).name != subject by {
            assert(rest[j] == paths[j + 1]);
        }
        other_working_trees_do_not_count(rest, subject);
    }
}

/// A working tree given for a subject is what is built, and what its key is taken of;
/// without one, the repository and the ref that its manifest pins.
pub proof fn working_trees_come_before_pins(
    cat: CatalogV,
    paths: Seq<SubjectPathV>,
    subject: Seq<char>,
)
    ensures
        override_of(paths, subject) is Some ==> subject_place(cat, paths, subject) == Ok::<
            SubjectSourceV,
            Seq<char>,
        >(SubjectSourceV::Path(override_of(paths, subject)->Some_0)) && override_of(
            paths,
            subject,
        )->Some_0.is_suffix_of(revision(cat, paths, subject)) && "worktree:"@.is_prefix_of(
            revision(cat, paths, subject),
        ),
        override_of(paths, subject) is None ==> match subject_place(cat, paths, subject) {
            Ok(SubjectSourceV::Git { repo, reference }) => {
                &&& facts_in(cat.subjects, subject) is Some
                &&& facts_in(cat.subjects, subject)->Some_0.repo == Some(repo)
                &&& facts_in(cat.subjects, subject)->Some_0.pinned_ref == reference
                &&& revision(cat, paths, subject) == reference
            },
            Ok(SubjectSourceV::Path(_)) => false,
            Err(_) => facts_in(cat.subjects, subject) is None || facts_in(
                cat.subjects,
                subject,
            )->Some_0.source_kind != "cargo-git"@ || facts_in(cat.subjects, subject)->Some_0.repo
                is None,
        },
{
    if let Some(path) = override_of(paths, subject) {
        let r = revision(cat, paths, subject);
        assert(r.subrange(r.len() - path.len(), r.len() as int) =~= path);
        assert(r.subrange(0, "worktree:"@.len() as int) =~= "worktree:"@);
    }
}

/// A driver comes from where its manifest says, if it stands there; else from the engine
/// checkout, if it stands there; else from the registry at its published version. Only
/// where there is none of these is there no driver.
pub proof fn drivers_come_from_the_nearest_place(
    cat: CatalogV,
    engine_root: Option<Seq<char>>,
    subject: Seq<char>,
    driver_crate: Seq<char>,
    there: Places,
)
    ensures
        ({
            let place = driver_place(cat, engine_root, subject, driver_crate, there);
            let near = manifest_place(cat, subject) is Some && there.in_manifest;
            let engine = engine_root is Some && there.in_engine;
            let published = driver_choice(cat.subjects, subject) is Ok && driver_choice(
                cat.subjects,
                subject,
            )->Ok_0.version is Some;
            &&& place is Ok <==> near || engine || published
            &&& near ==> place->Ok_0.0 == DriverSourceV::Path(
                manifest_place(cat, subject)->Some_0,
            )
            &&& !near && engine ==> place->Ok_0.0 == DriverSourceV::Path(
                engine_place(engine_root->Some_0, driver_crate),
            )
            &&& !near && !engine && published ==> place->Ok_0.0 == (DriverSourceV::Registry {
                version: driver_choice(cat.subjects, subject)->Ok_0.version->Some_0,
            })
        }),
{
}

/// The cases of a subject are those that name it, in their order.
proof fn declared_are_filtered(cases: Seq<CaseV>, subject: Seq<char>)
    ensures
        declared_by(cases, subject) == cases.filter(|c: CaseV| c.subject == subject),
    decreases cases.len(),
{
    reveal(Seq::filter);
    if cases.len() > 0 {
        declared_are_filtered(cases.drop_last(), subject);
    }
}

/// Is there a group of the subject?
pub open spec fn has_group(cases: Seq<CaseV>, subject: Seq<char>) -> bool {
    exists|g: int| 0 <= g < grouped(cases).len() && (#[trigger] grouped(cases)[g]).0 == subject
}

/// Every selected case is in the group of its subject, among that subject's cases alone
/// and in their order; no subject has two groups, and none is without a case.
pub proof fn cases_are_grouped_by_subject(cases: Seq<CaseV>)
    ensures
        forall|i: int| 0 <= i < cases.len() ==> has_group(cases, (#[trigger] cases[i]).subject),
        forall|g: int|
            0 <= g < grouped(cases).len() ==> (#[trigger] grouped(cases)[g]).1.len() > 0
                && grouped(cases)[g].1 == cases.filter(
                |c: CaseV| c.subject == grouped(cases)[g].0,
            ),
        forall|g: int, k: int|
            0 <= g < k < grouped(cases).len() ==> text_lt(
                (#[trigger] grouped(cases)[g]).0,
                (#[trigger] grouped(cases)[k]).0,
            ),
{
    let names = subjects_of(cases);
    subjects_are_listed(cases);
    assert forall|i: int| 0 <= i < cases.len() implies has_group(
        cases,
        (#[trigger] cases[i]).subject,
    ) by {
        assert(has_case(cases, cases[i].subject));
        assert(names.contains(cases[i].subject));
        let g = names.index_of(cases[i].subject);
        assert(grouped(cases)[g].0 == names[g]);
    }
    assert forall|g: int| 0 <= g < grouped(cases).len() implies (#[trigger] grouped(
        cases,
    )[g]).1.len() > 0 && grouped(cases)[g].1 == cases.filter(
        |c: CaseV| c.subject == grouped(cases)[g].0,
    ) by {
        let name = names[g];
        assert(names.contains(name));
        declared_are_filtered(cases, name);
        assert((|c: CaseV| c.subject == grouped(cases)[g].0) =~= (|c: CaseV| c.subject == name));
        let i = choose|i: int| 0 <= i < cases.len() && (#[trigger] cases[i]).subject == name;
        declared_some(cases, name, i);
    }
    assert forall|g: int, k: int| 0 <= g < k < grouped(cases).len() implies text_lt(
        (#[trigger] grouped(cases)[g]).0,
        (#[trigger] grouped(cases)[k]).0,
    ) by {
        assert(grouped(cases)[g].0 == names[g] && grouped(cases)[k].0 == names[k]);
        assert(<String as Ordered>::lt(names[g], names[k]));
    }
}

proof fn declared_some(cases: Seq<CaseV>, subject: Seq<char>, i: int)
    requires
        0 <= i < cases.len(),
        cases[i].subject == subject,
    ensures
        declared_by(cases, subject).len() > 0,
    decreases cases.len(),
{
    if i < cases.len() - 1 {
        assert(cases.drop_last()[i] == cases[i]);
        declared_some(cases.drop_last(), subject, i);
    }
}

proof fn subjects_are_listed(cases: Seq<CaseV>)
    ensures
        lists_where(subjects_of(cases), |t: Seq<char>| has_case(cases, t)),
{
    let test = |t: Seq<char>| has_case(cases, t);
    let names = Seq::new(cases.len(), |i: int| cases[i].subject);
    let s = sorted_list(names);
    assert forall|t: Seq<char>| #[trigger] s.contains(t) == test(t) by {
        if names.contains(t) {
            let i = names.index_of(t);
            assert(cases[i].subject == t);
        }
        if has_case(cases, t) {
            let i = choose|i: int| 0 <= i < cases.len() && (#[trigger] cases[i]).subject == t;
            assert(names[i] == t);
        }
    }
    assert(lists_where(s, test));
    assert(lists_where(ascending_where(test), test));
}

/// The texts of a list stand in some ascending list.
proof fn sorted_list(texts: Seq<Seq<char>>) -> (s: Seq<Seq<char>>)
    ensures
        ascending_texts(s),
        forall|t: Seq<char>| #[trigger] s.contains(t) == texts.contains(t),
    decreases texts.len(),
{
    if texts.len() == 0 {
        Seq::empty()
    } else {
        let rest = sorted_list(texts.drop_last());
        let s = put_in(rest, texts.last());
        assert forall|t: Seq<char>| #[trigger] s.contains(t) == texts.contains(t) by {
            assert(s.contains(t) == (rest.contains(t) || t == texts.last()));
            if texts.contains(t) && t != texts.last() {
                let i = texts.index_of(t);
                assert(texts.drop_last()[i] == t);
            }
            if texts.drop_last().contains(t) {
                let i = texts.drop_last().index_of(t);
                assert(texts[i] == t);
            }
            assert(texts[texts.len() - 1] == texts.last());
        }
        s
    }
}

proof fn put_in(s: Seq<Seq<char>>, t: Seq<char>) -> (r: Seq<Seq<char>>)
    requires
        ascending_texts(s),
    ensures
        ascending_texts(r),
        forall|x: Seq<char>| #[trigger] r.contains(x) == (s.contains(x) || x == t),
    decreases s.len(),
{
    if s.len() == 0 {
        let r = seq![t];
        assert(r[0] == t);
        r
    } else {
        text_lt_total(s.last(), t);
        if s.last() == t {
            assert(s[s.len() - 1] == t);
            s
        } else if text_lt(s.last(), t) {
            let r = s.push(t);
            assert forall|i: int, j: int| 0 <= i < j < r.len() implies text_lt(
                #[trigger] r[i],
                #[trigger] r[j],
            ) by {
                if j == s.len() && i < s.len() - 1 {
                    assert(<String as Ordered>::lt(s[i], s[s.len() - 1]));
                    text_lt_transitive(s[i], s.last(), t);
                } else if j < s.len() {
                    assert(<String as Ordered>::lt(s[i], s[j]));
                }
            }
            assert forall|x: Seq<char>| #[trigger] r.contains(x) == (s.contains(x) || x == t) by {
                assert(r[s.len() as int] == t);
                if s.contains(x) {
                    assert(r[s.index_of(x)] == x);
                }
                if r.contains(x) && x != t {
                    assert(s[r.index_of(x)] == x);
                }
            }
            r
        } else {
            let front = s.drop_last();
            assert forall|i: int, j: int| 0 <= i < j < front.len() implies text_lt(
                #[trigger] front[i],
                #[trigger] front[j],
            ) by {
                assert(<String as Ordered>::lt(s[i], s[j]));
            }
            let q = put_in(front, t);
            let r = q.push(s.last());
            assert forall|i: int, j: int| 0 <= i < j < r.len() implies text_lt(
                #[trigger] r[i],
                #[trigger] r[j],
            ) by {
                if j == q.len() {
                    assert(q.contains(q[i]));
                    if front.contains(q[i]) {
                        let k = front.index_of(q[i]);
                        assert(<String as Ordered>::lt(s[k], s[s.len() - 1]));
                    }
                } else {
                    assert(<String as Ordered>::lt(q[i], q[j]));
                }
            }
            assert forall|x: Seq<char>| #[trigger] r.contains(x) == (s.contains(x) || x == t) by {
                assert(r[q.len() as int] == s.last());
                assert(s[s.len() - 1] == s.last());
                if s.contains(x) && x != s.last() {
                    assert(front[s.index_of(x)] == x);
                    assert(front.contains(x));
                    assert(q.contains(x));
                    assert(r[q.index_of(x)] == x);
                }
                assert(q.contains(t));
                assert(r[q.index_of(t)] == t);
                if r.contains(x) && x != s.last() {
                    assert(q[r.index_of(x)] == x);
                    assert(q.contains(x));
                    if front.contains(x) {
                        assert(s[front.index_of(x)] == x);
                    }
                }
            }
            r
        }
    }
}

/// Every subject that a selected case belongs to has a turn in a run, and only one.
pub proof fn every_selected_subject_has_a_turn(a: AboutV, i: int)
    requires
        0 <= i < matching_cases(a.cat, a.set).len(),
    ensures
        exists|g: int|
            0 <= g < run_subjects(a).len() && (#[trigger] run_subjects(a)[g]).0 == matching_cases(
                a.cat,
                a.set,
            )[i].subject,
        forall|g: int, k: int|
            0 <= g < k < run_subjects(a).len() ==> (#[trigger] run_subjects(a)[g]).0
                != (#[trigger] run_subjects(a)[k]).0,
{
    let cases = matching_cases(a.cat, a.set);
    cases_are_grouped_by_subject(cases);
    assert(has_group(cases, cases[i].subject));
    let g = choose|g: int|
        0 <= g < grouped(cases).len() && (#[trigger] grouped(cases)[g]).0 == cases[i].subject;
    assert(run_subjects(a)[g].0 == cases[i].subject);
    assert forall|g: int, k: int| 0 <= g < k < run_subjects(a).len() implies (#[trigger] run_subjects(
        a,
    )[g]).0 != (#[trigger] run_subjects(a)[k]).0 by {
        text_lt_irreflexive(grouped(cases)[g].0);
        assert(text_lt(grouped(cases)[g].0, grouped(cases)[k].0));
    }
}

/// The one toolchain of a run is new enough for every subject in it.
pub proof fn one_toolchain_clears_every_floor(
    cat: CatalogV,
    names: Seq<Seq<char>>,
    pinned: Option<Seq<char>>,
    v: Version,
    i: int,
)
    requires
        common_toolchain(cat, names, pinned) == Ok::<Option<Version>, Seq<char>>(Some(v)),
        0 <= i < names.len(),
        facts_in(cat.subjects, names[i]) is Some,
        facts_in(cat.subjects, names[i])->Some_0.min_rustc is Some,
    ensures
        ({
            let floor = read_version(facts_in(cat.subjects, names[i])->Some_0.min_rustc->Some_0);
            floor is Some && version_le(floor->Some_0, v)
        }),
{
    resolved_clears_every_floor(floors_for(cat, names), pinned, v, i);
}

/// Where every case of a subject that names an instruction set names the same one, the
/// subject is built with the flags of that set; where two differ, it is not built.
pub proof fn instruction_sets_decide_on_the_flags(
    cat: CatalogV,
    set: Seq<Seq<ClauseV>>,
    subject: Seq<char>,
    isa: Seq<char>,
)
    requires
        uses_isa(matching_cases(cat, set), subject, isa),
    ensures
        (forall|t: Seq<char>|
            #[trigger] uses_isa(matching_cases(cat, set), subject, t) ==> t == isa) ==> (match flags_for(
            cat,
            set,
            subject,
        ) {
            Ok(f) => f is Some && f == isa_flags(isa),
            Err(_) => isa_flags(isa) is None,
        }),
        (exists|t: Seq<char>|
            #[trigger] uses_isa(matching_cases(cat, set), subject, t) && t != isa) ==> flags_for(
            cat,
            set,
            subject,
        ) is Err,
{
    let cases = matching_cases(cat, set);
    let test = |t: Seq<char>| uses_isa(cases, subject, t);
    isas_are_listed(cases, subject);
    let isas = isas_of(cases, subject);
    assert(isas.contains(isa) == test(isa));
    if forall|t: Seq<char>| #[trigger] uses_isa(cases, subject, t) ==> t == isa {
        if isas.len() > 1 {
            assert(isas.contains(isas[0]) == test(isas[0]));
            assert(isas.contains(isas[1]) == test(isas[1]));
            assert(<String as Ordered>::lt(isas[0], isas[1]));
            text_lt_irreflexive(isa);
        }
        assert(isas[0] == isa);
    }
    if exists|t: Seq<char>| #[trigger] uses_isa(cases, subject, t) && t != isa {
        let t = choose|t: Seq<char>| #[trigger] uses_isa(cases, subject, t) && t != isa;
        assert(isas.contains(t) == test(t));
        assert(isas.index_of(t) != isas.index_of(isa));
    }
}

proof fn isas_are_listed(cases: Seq<CaseV>, subject: Seq<char>)
    ensures
        lists_where(isas_of(cases, subject), |t: Seq<char>| uses_isa(cases, subject, t)),
{
    let test = |t: Seq<char>| uses_isa(cases, subject, t);
    let names = isa_names(cases, subject);
    let s = sorted_list(names);
    assert forall|t: Seq<char>| #[trigger] s.contains(t) == test(t) by {
        isa_names_are(cases, subject, t);
    }
    assert(lists_where(s, test));
    assert(lists_where(ascending_where(test), test));
}

spec fn isa_names(cases: Seq<CaseV>, subject: Seq<char>) -> Seq<Seq<char>>
    decreases cases.len(),
{
    if cases.len() == 0 {
        Seq::empty()
    } else {
        let rest = isa_names(cases.drop_last(), subject);
        if cases.last().subject == subject && cases.last().tags.contains_key("isa"@) {
            rest.push(render(cases.last().tags["isa"@]))
        } else {
            rest
        }
    }
}

proof fn isa_names_are(cases: Seq<CaseV>, subject: Seq<char>, t: Seq<char>)
    ensures
        isa_names(cases, subject).contains(t) == uses_isa(cases, subject, t),
    decreases cases.len(),
{
    if cases.len() > 0 {
        let front = cases.drop_last();
        isa_names_are(front, subject, t);
        let names = isa_names(cases, subject);
        let rest = isa_names(front, subject);
        let here = cases.last().subject == subject && cases.last().tags.contains_key("isa"@);
        if uses_isa(cases, subject, t) {
            let i = choose|i: int|
                0 <= i < cases.len() && (#[trigger] cases[i]).subject == subject
                    && cases[i].tags.contains_key("isa"@) && render(cases[i].tags["isa"@]) == t;
            if i < cases.len() - 1 {
                assert(front[i] == cases[i]);
            }
        }
        if uses_isa(front, subject, t) {
            let i = choose|i: int|
                0 <= i < front.len() && (#[trigger] front[i]).subject == subject
                    && front[i].tags.contains_key("isa"@) && render(front[i].tags["isa"@]) == t;
            assert(cases[i] == front[i]);
        }
        if here {
            assert(names[rest.len() as int] == render(cases.last().tags["isa"@]));
            assert(cases[cases.len() - 1] == cases.last());
            if rest.contains(t) {
                assert(names[rest.index_of(t)] == t);
            }
            if names.contains(t) && t != names.last() {
                assert(rest[names.index_of(t)] == t);
            }
        }
    }
}

/// What a subject's builder is given is what its manifest and its case say, each under its
/// own name; only the adapter that the case names is given anything.
pub proof fn builders_get_what_is_declared(
    inputs: Inputs,
    build_root: Seq<char>,
    subject: Seq<char>,
    c: CaseV,
    toolchain: Option<Version>,
    there: Places,
    flags: Result<Option<Seq<char>>, Seq<char>>,
)
    requires
        request_of(inputs, build_root, subject, c, toolchain, there, flags) is Ok,
    ensures
        ({
            let r = request_of(inputs, build_root, subject, c, toolchain, there, flags)->Ok_0;
            let f = facts_in(inputs.catalog@.subjects, subject);
            &&& r.subject == subject
            &&& r.adapter == c.adapter
            &&& r.build_root == build_root
            &&& toolchain is Some ==> r.toolchain == toolchain->Some_0
            &&& r.engine_root == option_text(*inputs.engine_root)
            &&& r.exec_inputs is Some <==> c.adapter == Adapter::Exec
            &&& r.codegen is Some <==> c.adapter == Adapter::RustCodegen
            &&& r.exec_inputs is Some ==> {
                let e = r.exec_inputs->Some_0;
                &&& f is Some
                &&& Some(e.build) == f->Some_0.build
                &&& e.manifest_dir == f->Some_0.manifest_dir
                &&& Some(e.lang) == c.driver_lang
                &&& c.driver_entry is Some && e.entry == path_join(
                    f->Some_0.manifest_dir,
                    c.driver_entry->Some_0,
                )
                &&& e.expected_sha == f->Some_0.expected_sha
                &&& e.source.kind == f->Some_0.source_kind
                &&& e.source.repo == f->Some_0.repo
                &&& e.source.package == f->Some_0.source_package
                &&& e.source.pinned_ref == f->Some_0.pinned_ref
            }
            &&& r.codegen is Some ==> {
                let g = r.codegen->Some_0;
                &&& Some(g.driver_crate) == c.driver_crate
                &&& Some(g.driver_macro) == c.driver_macro
                &&& Ok::<Option<Seq<char>>, Seq<char>>(g.rustflags) == flags
                &&& Ok::<(DriverSourceV, Seq<char>), Seq<char>>((g.driver_source, g.driver_rev))
                    == driver_place(
                    inputs.catalog@,
                    option_text(*inputs.engine_root),
                    subject,
                    g.driver_crate,
                    there,
                )
                &&& Ok::<SubjectSourceV, Seq<char>>(g.subject_source) == subject_place(
                    inputs.catalog@,
                    overrides(inputs.subject_paths@),
                    subject,
                )
                &&& g.subject_rev == revision(
                    inputs.catalog@,
                    overrides(inputs.subject_paths@),
                    subject,
                )
                &&& driver_choice(inputs.catalog@.subjects, subject) is Ok ==> g.features
                    == driver_choice(inputs.catalog@.subjects, subject)->Ok_0.features
            }
        }),
{
}

/// What a generated driver is built from is what was resolved for it, and it is run from
/// where it is built.
pub proof fn generated_packages_are_what_was_resolved(
    request: SubjectRequestV,
    inputs: CodegenInputsV,
    generated: GeneratedV,
)
    ensures
        ({
            let p = package_request(request, inputs, generated);
            let q = package_prepared(request, inputs, generated);
            &&& p.subject == request.subject
            &&& p.generated == generated && q.generated == generated
            &&& p.driver_source == inputs.driver_source && p.driver_crate == inputs.driver_crate
            &&& p.subject_source == inputs.subject_source && p.subject_crate == inputs.subject_crate
            &&& p.features == inputs.features
            &&& p.rustflags == inputs.rustflags && q.rustflags == inputs.rustflags
            &&& q.toolchain == request.toolchain && q.adapter == request.adapter
            &&& q.program.len() == 1
            &&& q.dir.is_prefix_of(q.program[0])
            &&& "target/release/driver"@.is_suffix_of(q.program[0])
        }),
{
    let q = package_prepared(request, inputs, generated);
    reveal_strlit("target/release/driver");
    reveal_strlit("/");
    assert(q.dir =~= q.program[0].subrange(0, q.dir.len() as int));
    let (p, t) = (q.program[0], "target/release/driver"@);
    assert(p.subrange(p.len() - t.len(), p.len() as int) =~= t);
}

/// An exec driver is run as its builder left it, at the revision that it was built from.
pub proof fn environments_are_what_was_built(
    request: SubjectRequestV,
    built: BuiltV,
    dir: Seq<char>,
)
    ensures
        ({
            let q = environment_prepared(request, built, dir);
            &&& q.program == built.program
            &&& q.resolved_sha == built.resolved_sha
            &&& q.generated.cache_key == built.cache_key
            &&& q.generated.combinations == built.combinations
            &&& q.dir == dir
            &&& q.adapter == request.adapter
            &&& q.toolchain == request.toolchain
        }),
{
}

/// Two drivers of different keys are built in different places.
pub proof fn keys_keep_packages_apart(
    root: Seq<char>,
    subject: Seq<char>,
    key: Seq<char>,
    other: Seq<char>,
)
    requires
        key.len() > 0 ==> key[0] != '/',
        other.len() > 0 ==> other[0] != '/',
        package_dir(root, subject, key) == package_dir(root, subject, other),
    ensures
        key == other,
{
    let a = package_dir(root, subject, key);
    let b = package_dir(root, subject, other);
    let n = a.len() - key.len();
    assert(b.len() - other.len() == n);
    assert(a.skip(n) =~= key);
    assert(b.skip(n) =~= other);
}

/// Where a package is built against an engine checkout, both of the engine's crates that a
/// driver depends on are taken from it.
pub proof fn checkouts_stand_in_for_the_engine(r: BuildRequestV, root: Seq<char>)
    ensures
        contains_text(
            package_manifest(r, Some(root)),
            "spatial-bench-measure = { path = "@ + debug_text(
                path_join(root, "crates/spatial-bench-measure"@),
            ),
        ),
        contains_text(
            package_manifest(r, Some(root)),
            PATCH_HEAD@ + debug_text(path_join(root, "crates/spatial-bench-core"@)),
        ),
{
    patch_stands(r, root);
    patch_tells(root);
    let patch = patch_table(Some(root));
    stands_through(
        package_manifest(r, Some(root)),
        patch,
        "spatial-bench-measure = { path = "@ + debug_text(
            path_join(root, "crates/spatial-bench-measure"@),
        ),
    );
    stands_through(
        package_manifest(r, Some(root)),
        patch,
        PATCH_HEAD@ + debug_text(path_join(root, "crates/spatial-bench-core"@)),
    );
}

proof fn patch_stands(r: BuildRequestV, root: Seq<char>)
    ensures
        contains_text(package_manifest(r, Some(root)), patch_table(Some(root))),
{
    let patch = patch_table(Some(root));
    let front = MANIFEST_HEAD@ + r.driver_crate + " = "@ + driver_dependency(r.driver_source) + "\n"@
        + r.subject_crate + " = "@ + subject_dependency(r.subject_source, r.features)
        + MANIFEST_TAIL@;
    let none = Seq::<char>::empty();
    assert(package_manifest(r, Some(root)) == front + patch);
    assert(front + patch =~= front + patch + none);
    stands_between(front, patch, none);
}

proof fn patch_tells(root: Seq<char>)
    ensures
        contains_text(
            patch_table(Some(root)),
            "spatial-bench-measure = { path = "@ + debug_text(
                path_join(root, "crates/spatial-bench-measure"@),
            ),
        ),
        contains_text(
            patch_table(Some(root)),
            PATCH_HEAD@ + debug_text(path_join(root, "crates/spatial-bench-core"@)),
        ),
{
    let core = debug_text(path_join(root, "crates/spatial-bench-core"@));
    let measure = debug_text(path_join(root, "crates/spatial-bench-measure"@));
    let none = Seq::<char>::empty();
    let line = " }\nspatial-bench-measure = { path = "@;
    let key = "spatial-bench-measure = { path = "@;
    assert(line =~= " }\n"@ + key) by {
        reveal_strlit(" }\nspatial-bench-measure = { path = ");
        reveal_strlit("spatial-bench-measure = { path = ");
        reveal_strlit(" }\n");
    }
    let first = PATCH_HEAD@ + core;
    let end = " }\n"@;
    let patch = patch_table(Some(root));
    assert(patch == first + line + measure + end);
    assert(patch =~= none + first + (line + measure + end));
    stands_between(none, first, line + measure + end);
    assert(patch =~= (first + end) + (key + measure) + end);
    stands_between(first + end, key + measure, end);
}

/// A ref is taken for a revision only where it could be a full one: all its characters are
/// hexadecimal digits, and there are at least forty of them.
pub proof fn short_refs_are_tags(s: Seq<char>, i: int)
    ensures
        s.len() < 40 ==> !commit_id(s),
        0 <= i < s.len() && commit_id(s) ==> '0' <= s[i] <= '9' || 'a' <= s[i] <= 'f' || 'A' <= s[i]
            <= 'F',
        s.len() == 40 && (forall|j: int| 0 <= j < 40 ==> '0' <= #[trigger] s[j] <= '9' || 'a' <= s[j]
            <= 'f') ==> commit_id(s),
{
}

/// An engine checkout holds a driver crate among its crates, under the crate's name.
pub proof fn engines_hold_their_drivers(root: Seq<char>, name: Seq<char>)
    requires
        name.len() > 0 ==> name[0] != '/',
    ensures
        engine_place(root, name) == path_join(root, "crates/"@ + name),
{
    reveal_strlit("crates");
    reveal_strlit("crates/");
    reveal_strlit("/");
    assert("crates/"@ =~= "crates"@ + "/"@);
    let inner = path_join(root, "crates"@);
    assert(inner.last() == 's');
    assert(engine_place(root, name) =~= path_join(root, "crates/"@ + name));
}

/// A driver's path is read from where its manifest stands.
pub proof fn manifests_place_their_driver(cat: CatalogV, subject: Seq<char>)
    ensures
        match manifest_place(cat, subject) {
            Some(p) => {
                &&& facts_in(cat.subjects, subject) is Some
                &&& driver_choice(cat.subjects, subject) is Ok
                &&& driver_choice(cat.subjects, subject)->Ok_0.path is Some
                &&& p == path_join(
                    facts_in(cat.subjects, subject)->Some_0.manifest_dir,
                    driver_choice(cat.subjects, subject)->Ok_0.path->Some_0,
                )
            },
            None => facts_in(cat.subjects, subject) is None || driver_choice(cat.subjects, subject)
                is Err || driver_choice(cat.subjects, subject)->Ok_0.path is None,
        },
{
}

/// Where no subject has a floor and none is pinned, a run needs no toolchain.
pub proof fn no_floor_no_toolchain(cat: CatalogV, names: Seq<Seq<char>>)
    requires
        forall|i: int|
            0 <= i < names.len() ==> (facts_in(cat.subjects, #[trigger] names[i]) is None || facts_in(
                cat.subjects,
                names[i],
            )->Some_0.min_rustc is None),
    ensures
        common_toolchain(cat, names, None) == Ok::<Option<Version>, Seq<char>>(None),
{
    let floors = floors_for(cat, names);
    assert forall|i: int| 0 <= i < floors.len() implies (#[trigger] floors[i]).1 is None by {
        assert(facts_in(cat.subjects, names[i]) is None || facts_in(
            cat.subjects,
            names[i],
        )->Some_0.min_rustc is None);
    }
    no_floor(floors);
}

proof fn no_floor(floors: Seq<(Seq<char>, Option<Seq<char>>)>)
    requires
        forall|i: int| 0 <= i < floors.len() ==> (#[trigger] floors[i]).1 is None,
    ensures
        highest_floor(floors) is Ok,
        highest_floor(floors)->Ok_0 is None,
    decreases floors.len(),
{
    if floors.len() > 0 {
        assert forall|i: int| 0 <= i < floors.drop_last().len() implies (
        #[trigger] floors.drop_last()[i]).1 is None by {
            assert(floors[i].1 is None);
        }
        no_floor(floors.drop_last());
        assert(floors[floors.len() - 1].1 is None);
    }
}

/// Drivers that are built against two engine checkouts do not share a lane of the cache,
/// wherever the driver itself stands.
pub proof fn lanes_tell_engines_apart(
    cat: CatalogV,
    a: Seq<char>,
    b: Seq<char>,
    subject: Seq<char>,
    driver_crate: Seq<char>,
    there: Places,
)
    requires
        (manifest_place(cat, subject) is Some && there.in_manifest) || there.in_engine,
        driver_place(cat, Some(a), subject, driver_crate, there)->Ok_0.1 == driver_place(
            cat,
            Some(b),
            subject,
            driver_crate,
            there,
        )->Ok_0.1,
    ensures
        a == b,
{
    let s = driver_place(cat, Some(a), subject, driver_crate, there)->Ok_0.1;
    let front = if manifest_place(cat, subject) is Some && there.in_manifest {
        "path:"@ + manifest_place(cat, subject)->Some_0 + ";engine:"@
    } else {
        "path:"@
    };
    assert(s == front + a);
    assert(s == front + b);
    assert(s.skip(front.len() as int) =~= a);
    assert(s.skip(front.len() as int) =~= b);
}

} // verus!
