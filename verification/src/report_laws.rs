//! What is promised of what a user is shown and of what an answer does: every row tells of
//! its own thing, and a number picks what it stands before.

use crate::case::{runner_name, runner_of, CaseV, Runner};
use crate::catalog::{declared_by, facts_in, points_with_id, CatalogV};
use crate::cli::{
    cell, cells, chart_in, chart_places, conform_lines, heads, human_text, left_in, named_tree,
    pair_text, pairs_of, pairs_text, plan_line, right_in, subject_line, table_columns, table_lines,
    table_row,
};
use crate::conform::{KeyV, SubjectConformance};
use crate::exec_laws::{stands_between, stands_through};
use crate::kitty::{
    ascii, cells_for, chunk_at, chunk_count, controls, encoded, frame, frames, Image,
};
use crate::layout::{legend_box, longest, row_middle};
use crate::menu::{
    answered, facet_row, ignored, marked_runners, named_values, picked_runner, preview_lines,
    row_keys, runner_list, runner_row, runners_in, shown_values, value_list, Menu, MenuAt, Turn,
};
use crate::package::toml_safe;
use crate::picker::{facet_keys, with_choice, Facet, Preview};
use crate::resolve::SubjectPathV;
use crate::run::SubjectPlanV;
use crate::selector::listed;
use crate::tag::{expr_of, render, trimmed_already, values, TagV};
use crate::term::{numbers_in, reported_size};
use crate::text::{
    contains_text, dec, decimal_reads_back, find_is, is_digit, join, read_unsigned, split_of_join,
    texts, trim, unsigned_decimal_round_trips, without_trailing, words,
};
use crate::vocab::writes_powers;
use vstd::prelude::*;
use vstd::utf8::encode_utf8;

verus! {

/// A text at the front of another stands in it.
proof fn stands_in_front(s: Seq<char>, t: Seq<char>)
    requires
        t.is_prefix_of(s),
    ensures
        contains_text(s, t),
{
    let none = Seq::<char>::empty();
    let rest = s.skip(t.len() as int);
    assert(s =~= none + t + rest);
    stands_between(none, t, rest);
}

/// A text at the end of another stands in it.
proof fn stands_at_the_end(s: Seq<char>, t: Seq<char>)
    requires
        t.is_suffix_of(s),
    ensures
        contains_text(s, t),
{
    let none = Seq::<char>::empty();
    let rest = s.take(s.len() - t.len());
    assert(s =~= rest + t + none);
    stands_between(rest, t, none);
}

/// A working tree is given to the subject before the first equals sign, at the directory
/// that was found for the rest; a directory that cannot be written into a manifest is
/// refused.
pub proof fn working_trees_are_given_by_name(name: Seq<char>, rest: Seq<char>, dir: Seq<char>)
    requires
        !name.contains('='),
    ensures
        toml_safe(dir) ==> named_tree(name + "="@ + rest, Ok(dir)) == Ok::<SubjectPathV, Seq<char>>(
            SubjectPathV { name, path: dir },
        ),
        !toml_safe(dir) ==> named_tree(name + "="@ + rest, Ok(dir)) is Err,
        named_tree(name, Ok(dir)) is Err,
        named_tree(name + "="@ + rest, Err(dir)) is Err,
        dir.is_suffix_of(named_tree(name + "="@ + rest, Err(dir))->Err_0),
{
    reveal_strlit("=");
    let raw = name + "="@ + rest;
    assert(raw[name.len() as int] == '=');
    assert forall|j: int| 0 <= j < name.len() implies raw[j] != '=' by {
        assert(raw[j] == name[j]);
        assert(name.contains(name[j]));
    }
    find_is(raw, '=', name.len() as int);
    assert(raw.take(name.len() as int) =~= name);
    assert forall|j: int| 0 <= j < name.len() implies name[j] != '=' by {
        assert(name.contains(name[j]));
    }
    find_is(name, '=', name.len() as int);
    let e = named_tree(raw, Err(dir))->Err_0;
    assert(e.subrange(e.len() - dir.len(), e.len() as int) =~= dir);
}

/// The charting tool is looked for first where the environment names it, then beside the
/// program, then in every directory of the search path, in order.
pub proof fn the_named_chart_tool_comes_first(
    named: Option<Seq<char>>,
    beside: Option<Seq<char>>,
    path: Seq<Seq<char>>,
    i: int,
)
    requires
        0 <= i < path.len(),
    ensures
        ({
            let places = chart_places(named, beside, path);
            let n = if named is Some {
                1int
            } else {
                0int
            };
            let b = if beside is Some {
                1int
            } else {
                0int
            };
            &&& places.len() == n + b + path.len()
            &&& named is Some ==> places[0] == named->Some_0
            &&& beside is Some ==> places[n] == chart_in(beside->Some_0)
            &&& places[n + b + i] == chart_in(path[i])
        }),
{
}

/// A row of the table tells of its case: its subject, its value under every column, and
/// how many points it has.
pub proof fn rows_tell_of_their_case(c: CaseV, columns: Seq<Seq<char>>, points: nat, j: int)
    requires
        0 <= j < columns.len(),
    ensures
        c.subject.is_prefix_of(table_row(c, columns, points)),
        dec(points).is_suffix_of(table_row(c, columns, points)),
        c.tags.dom().contains(columns[j]) ==> contains_text(
            table_row(c, columns, points),
            render(c.tags[columns[j]]),
        ),
{
    let row = table_row(c, columns, points);
    let (l, r) = (left_in(c.subject, 20), right_in(dec(points), 7));
    assert(l.subrange(0, c.subject.len() as int) =~= c.subject);
    assert(row.subrange(0, c.subject.len() as int) =~= c.subject);
    assert(r.subrange(r.len() - dec(points).len(), r.len() as int) =~= dec(points));
    assert(row.subrange(row.len() - dec(points).len(), row.len() as int) =~= dec(points));
    if c.tags.dom().contains(columns[j]) {
        let v = render(c.tags[columns[j]]);
        let all = cells(c, columns);
        cell_stands(c, columns, j);
        let one = cell(c, columns[j]);
        assert(one.subrange(0, v.len() as int) =~= v);
        stands_in_front(one, v);
        stands_through(all, one, v);
        assert(row =~= (l + " "@) + all + ("  "@ + r));
        stands_between(l + " "@, all, "  "@ + r);
        stands_through(row, all, v);
    }
}

proof fn cell_stands(c: CaseV, columns: Seq<Seq<char>>, j: int)
    requires
        0 <= j < columns.len(),
    ensures
        contains_text(cells(c, columns), cell(c, columns[j])),
    decreases columns.len(),
{
    let front = cells(c, columns.drop_last());
    let last = cell(c, columns.last());
    assert(cells(c, columns) == front + last);
    if j == columns.len() - 1 {
        assert((front + last).subrange(front.len() as int, (front + last).len() as int) =~= last);
        stands_at_the_end(front + last, last);
    } else {
        cell_stands(c, columns.drop_last(), j);
        assert((front + last).subrange(0, front.len() as int) =~= front);
        stands_in_front(front + last, front);
        stands_through(front + last, front, cell(c, columns[j]));
    }
}

/// A table has a row for every case, in order, each with the number of its own points.
pub proof fn tables_have_a_row_for_every_case(
    cases: Seq<CaseV>,
    points: Seq<(CaseV, Map<Seq<char>, TagV>)>,
    i: int,
)
    requires
        0 <= i < cases.len(),
    ensures
        table_lines(cases, points).len() == cases.len() + 2,
        cases[i].subject.is_prefix_of(table_lines(cases, points)[i + 1]),
        dec(
            points.filter(|p: (CaseV, Map<Seq<char>, TagV>)| p.0.id == cases[i].id).len(),
        ).is_suffix_of(table_lines(cases, points)[i + 1]),
        contains_text(table_lines(cases, points).last(), dec(cases.len()) + " cases, "@),
        contains_text(table_lines(cases, points).last(), dec(points.len()) + " points"@),
{
    let columns = table_columns(cases);
    let n = points_with_id(points, cases[i].id);
    let row = table_row(cases[i], columns, n);
    assert(table_lines(cases, points)[i + 1] == row);
    let (l, r) = (left_in(cases[i].subject, 20), right_in(dec(n), 7));
    assert(l.subrange(0, cases[i].subject.len() as int) =~= cases[i].subject);
    assert(row.subrange(0, cases[i].subject.len() as int) =~= cases[i].subject);
    assert(r.subrange(r.len() - dec(n).len(), r.len() as int) =~= dec(n));
    assert(row.subrange(row.len() - dec(n).len(), row.len() as int) =~= dec(n));
    points_are_counted(points, cases[i].id);
    let last = table_lines(cases, points).last();
    let (a, b) = (dec(cases.len()) + " cases, "@, dec(points.len()) + " points"@);
    assert(last == "\n"@ + dec(cases.len()) + " cases, "@ + dec(points.len()) + " points"@);
    assert(last =~= "\n"@ + a + b);
    stands_between("\n"@, a, b);
    assert(last.subrange(last.len() - b.len(), last.len() as int) =~= b);
    stands_at_the_end(last, b);
}

proof fn points_are_counted(points: Seq<(CaseV, Map<Seq<char>, TagV>)>, id: Seq<char>)
    ensures
        points_with_id(points, id) == points.filter(
            |p: (CaseV, Map<Seq<char>, TagV>)| p.0.id == id,
        ).len(),
    decreases points.len(),
{
    reveal(Seq::filter);
    if points.len() > 0 {
        points_are_counted(points.drop_last(), id);
    }
}

/// A subject is listed with the ref that it is pinned at and the number of its cases.
pub proof fn subjects_are_listed_with_their_pin(cat: CatalogV, name: Seq<char>)
    ensures
        name.is_prefix_of(subject_line(cat, name)),
        facts_in(cat.subjects, name) is Some ==> contains_text(
            subject_line(cat, name),
            facts_in(cat.subjects, name)->Some_0.pinned_ref,
        ),
        contains_text(subject_line(cat, name), dec(declared_by(cat.cases, name).len()) + " cases"@),
        declared_by(cat.cases, name).len() == cat.cases.filter(|c: CaseV| c.subject == name).len(),
{
    let line = subject_line(cat, name);
    let pin = match facts_in(cat.subjects, name) {
        Some(f) => f.pinned_ref,
        None => Seq::empty(),
    };
    let n = dec(declared_by(cat.cases, name).len());
    let (a, b, c) = (left_in(name, 20), left_in(pin, 20), right_in(n, 3));
    assert(a.subrange(0, name.len() as int) =~= name);
    assert(line.subrange(0, name.len() as int) =~= name);
    assert(b.subrange(0, pin.len() as int) =~= pin);
    stands_in_front(b, pin);
    assert(line =~= (a + " "@) + b + (" "@ + c + " cases"@));
    stands_between(a + " "@, b, " "@ + c + " cases"@);
    stands_through(line, b, pin);
    let end = n + " cases"@;
    assert(c.subrange(c.len() - n.len(), c.len() as int) =~= n);
    assert(line.subrange(line.len() - end.len(), line.len() as int) =~= end);
    stands_at_the_end(line, end);
    cases_are_counted(cat.cases, name);
}

proof fn cases_are_counted(cases: Seq<CaseV>, name: Seq<char>)
    ensures
        declared_by(cases, name).len() == cases.filter(|c: CaseV| c.subject == name).len(),
    decreases cases.len(),
{
    reveal(Seq::filter);
    if cases.len() > 0 {
        cases_are_counted(cases.drop_last(), name);
    }
}

/// What is said of a driver's drift names every coordinate that is on one side only, and
/// nothing more is said of one that matches.
pub proof fn every_drift_is_named(s: SubjectConformance)
    ensures
        s.missing_in_driver@.len() == 0 && s.extra_in_driver@.len() == 0 <==> conform_lines(s).len()
            == 1,
        conform_lines(s).len() == 1 + s.missing_in_driver@.len() + s.extra_in_driver@.len(),
        forall|i: int|
            0 <= i < s.missing_in_driver@.len() ==> pairs_text(
                pairs_of((#[trigger] s.missing_in_driver@[i])@),
            ).is_suffix_of(conform_lines(s)[1 + i]),
        forall|i: int|
            0 <= i < s.extra_in_driver@.len() ==> pairs_text(
                pairs_of((#[trigger] s.extra_in_driver@[i])@),
            ).is_suffix_of(conform_lines(s)[1 + s.missing_in_driver@.len() + i]),
{
    let lines = conform_lines(s);
    assert forall|i: int| 0 <= i < s.missing_in_driver@.len() implies pairs_text(
        pairs_of((#[trigger] s.missing_in_driver@[i])@),
    ).is_suffix_of(conform_lines(s)[1 + i]) by {
        let t = pairs_text(pairs_of(s.missing_in_driver@[i]@));
        let line = lines[1 + i];
        assert(line == "  missing in driver: "@ + t);
        assert(line.subrange(line.len() - t.len(), line.len() as int) =~= t);
    }
    assert forall|i: int| 0 <= i < s.extra_in_driver@.len() implies pairs_text(
        pairs_of((#[trigger] s.extra_in_driver@[i])@),
    ).is_suffix_of(conform_lines(s)[1 + s.missing_in_driver@.len() + i]) by {
        let t = pairs_text(pairs_of(s.extra_in_driver@[i]@));
        let line = lines[1 + s.missing_in_driver@.len() + i];
        assert(line == "  not in manifest:  "@ + t);
        assert(line.subrange(line.len() - t.len(), line.len() as int) =~= t);
    }
}

/// A plan names its subject, how many combinations it has and its key.
pub proof fn plans_name_their_subject(p: SubjectPlanV)
    ensures
        contains_text(plan_line(p), p.subject + ": "@),
        contains_text(plan_line(p), dec(p.combinations as nat) + " combination(s)"@),
        p.cache_key.is_suffix_of(plan_line(p)),
{
    let line = plan_line(p);
    let n = dec(p.combinations as nat);
    let tail = ", key "@ + p.cache_key;
    assert(line =~= "  "@ + (p.subject + ": "@) + line.skip(
        ("  "@.len() + (p.subject + ": "@).len()) as int,
    ));
    stands_between(
        "  "@,
        p.subject + ": "@,
        line.skip(("  "@.len() + (p.subject + ": "@).len()) as int),
    );
    let front = "  "@ + p.subject + ": "@;
    reveal_strlit(" combination(s), key ");
    reveal_strlit(" combination(s)");
    let rest = " combination(s), key "@.skip(15) + p.cache_key;
    assert(" combination(s), key "@ =~= " combination(s)"@ + " combination(s), key "@.skip(15));
    assert(line =~= front + (n + " combination(s)"@) + rest);
    stands_between(front, n + " combination(s)"@, rest);
    assert(line.subrange(line.len() - p.cache_key.len(), line.len() as int) =~= p.cache_key);
}

/// A runner is offered where its name is supported and the engine implements it; the
/// others are named as not implemented, and none is both.
pub proof fn implemented_runners_are_offered(names: Seq<Seq<char>>, r: Runner)
    ensures
        runners_in(names, true).contains(r) <==> (r is Criterion || r is Perf) && (exists|i: int|
            0 <= i < names.len() && runner_of(#[trigger] names[i]) == Some(r)),
        runners_in(names, false).contains(r) <==> (r is Asm || r is Mca) && (exists|i: int|
            0 <= i < names.len() && runner_of(#[trigger] names[i]) == Some(r)),
    decreases names.len(),
{
    if names.len() > 0 {
        let front = names.drop_last();
        implemented_runners_are_offered(front, r);
        assert forall|i: int| 0 <= i < front.len() implies front[i] == names[i] by {}
        let here = runner_of(names.last()) == Some(r);
        assert((exists|i: int| 0 <= i < names.len() && runner_of(#[trigger] names[i]) == Some(r)) <==> (
        here || (exists|i: int| 0 <= i < front.len() && runner_of(#[trigger] front[i]) == Some(r)))) by {
            if exists|i: int| 0 <= i < names.len() && runner_of(#[trigger] names[i]) == Some(r) {
                let i = choose|i: int|
                    0 <= i < names.len() && runner_of(#[trigger] names[i]) == Some(r);
                if i < front.len() {
                    assert(runner_of(front[i]) == Some(r));
                }
            }
            if exists|i: int| 0 <= i < front.len() && runner_of(#[trigger] front[i]) == Some(r) {
                let i = choose|i: int|
                    0 <= i < front.len() && runner_of(#[trigger] front[i]) == Some(r);
                assert(runner_of(names[i]) == Some(r));
            }
            if here {
                assert(runner_of(names[names.len() - 1]) == Some(r));
            }
        }
        runners_grow(names, true, r);
        runners_grow(names, false, r);
    }
}

proof fn runners_grow(names: Seq<Seq<char>>, implemented: bool, r: Runner)
    requires
        names.len() > 0,
    ensures
        runners_in(names, implemented).contains(r) <==> runners_in(
            names.drop_last(),
            implemented,
        ).contains(r) || (runner_of(names.last()) == Some(r) && (r is Criterion || r is Perf)
            == implemented),
{
    let rest = runners_in(names.drop_last(), implemented);
    let all = runners_in(names, implemented);
    if let Some(x) = runner_of(names.last()) {
        if (x is Criterion || x is Perf) == implemented {
            assert(all[rest.len() as int] == x);
            if rest.contains(r) {
                assert(all[rest.index_of(r)] == r);
            }
            if all.contains(r) && r != x {
                assert(rest[all.index_of(r)] == r);
            }
        }
    }
}

/// A number picks the runner that it stands before in the list; any other answer leaves
/// the runner as it is.
pub proof fn numbers_pick_their_runner(
    offered: Seq<Runner>,
    later: Seq<Runner>,
    current: Runner,
    n: usize,
)
    requires
        1 <= n <= offered.len(),
    ensures
        picked_runner(offered, current, dec(n as nat)) == offered[n - 1],
        contains_text(runner_list(offered, later, current)[n - 1], dec(n as nat) + ". "@),
        runner_name(offered[n - 1]).is_suffix_of(runner_list(offered, later, current)[n - 1]),
        contains_text(runner_list(offered, later, current)[n - 1], "[x] "@) || offered[n - 1]
            != current,
        forall|input: Seq<char>|
            read_unsigned(trim(input), usize::MAX as nat) is None ==> #[trigger] picked_runner(
                offered,
                current,
                input,
            ) == current,
{
    unsigned_decimal_round_trips(n as nat, usize::MAX as nat);
    number_is_trimmed(n as nat);
    let line = runner_list(offered, later, current)[n - 1];
    let name = runner_name(offered[n - 1]);
    let d = right_in(dec(n as nat), 3);
    let mark = if offered[n - 1] == current {
        "[x]"@
    } else {
        "[ ]"@
    };
    assert(line == d + ". "@ + mark + " "@ + name);
    assert(line.subrange(line.len() - name.len(), line.len() as int) =~= name);
    let pad = d.take(d.len() - dec(n as nat).len());
    assert(d =~= pad + dec(n as nat));
    let number = dec(n as nat) + ". "@;
    assert(line =~= pad + number + (mark + " "@ + name));
    stands_between(pad, number, mark + " "@ + name);
    if offered[n - 1] == current {
        reveal_strlit("[x]");
        reveal_strlit(" ");
        reveal_strlit("[x] ");
        assert("[x] "@ =~= "[x]"@ + " "@);
        assert(line =~= (d + ". "@) + "[x] "@ + name);
        stands_between(d + ". "@, "[x] "@, name);
    }
}

proof fn number_is_trimmed(n: nat)
    ensures
        trim(dec(n)) == dec(n),
{
    decimal_reads_back(n);
    assert(is_digit(dec(n)[0]) && is_digit(dec(n)[dec(n).len() - 1]));
    trimmed_already(dec(n));
}

/// A number picks the value that it stands before in the list.
pub proof fn numbers_pick_their_value(
    key: Seq<char>,
    vs: Seq<TagV>,
    tokens: Seq<Seq<char>>,
    n: usize,
)
    ensures
        1 <= n <= vs.len() ==> named_values(vs, tokens.push(dec(n as nat))) == named_values(
            vs,
            tokens,
        ).push(vs[n - 1]),
        1 <= n <= vs.len() ==> ignored(vs, tokens.push(dec(n as nat))) == ignored(vs, tokens),
        1 <= n <= vs.len() ==> expr_of(vs[n - 1], writes_powers(key)).is_suffix_of(
            value_list(key, vs)[n - 1],
        ),
        !(1 <= n <= vs.len()) ==> named_values(vs, tokens.push(dec(n as nat))) == named_values(
            vs,
            tokens,
        ),
        !(1 <= n <= vs.len()) ==> ignored(vs, tokens.push(dec(n as nat))).len() == ignored(
            vs,
            tokens,
        ).len() + 1 && contains_text(
            ignored(vs, tokens.push(dec(n as nat))).last(),
            dec(n as nat),
        ),
        named_values(vs, tokens).len() + ignored(vs, tokens).len() == tokens.len(),
{
    let t = dec(n as nat);
    unsigned_decimal_round_trips(n as nat, usize::MAX as nat);
    assert(tokens.push(t).drop_last() =~= tokens);
    assert(tokens.push(t).last() == t);
    if 1 <= n <= vs.len() {
        let line = value_list(key, vs)[n - 1];
        let e = expr_of(vs[n - 1], writes_powers(key));
        assert(line.subrange(line.len() - e.len(), line.len() as int) =~= e);
    } else {
        stands_between("  ignoring `"@, t, "`"@);
    }
    tokens_are_shared_out(vs, tokens);
}

proof fn tokens_are_shared_out(vs: Seq<TagV>, tokens: Seq<Seq<char>>)
    ensures
        named_values(vs, tokens).len() + ignored(vs, tokens).len() == tokens.len(),
    decreases tokens.len(),
{
    if tokens.len() > 0 {
        tokens_are_shared_out(vs, tokens.drop_last());
    }
}

/// The values that are chosen are marked among those that are shown, and only those.
pub proof fn chosen_values_are_marked(f: Facet, i: int)
    requires
        0 <= i < f.values@.len(),
        i < 8,
    ensures
        i < shown_values(f).len(),
        ({
            let e = expr_of(f.values@[i]@, writes_powers(f.key@));
            shown_values(f)[i] == if listed(values(f.chosen@), f.values@[i]@) {
                "["@ + e + "]"@
            } else {
                e
            }
        }),
{
}

/// A number at the rows opens the row of that number, and leaves what was chosen.
pub proof fn numbers_open_their_row(cat: CatalogV, m: Menu, n: usize, turn: Turn)
    requires
        m.at is Rows,
        2 <= n <= facet_keys(cat, m.picker@).len() + 1,
        facet_keys(cat, m.picker@)[n - 2] != "runner"@,
        answered(cat, m, Some(dec(n as nat)), turn),
    ensures
        turn matches Turn::Again(next, _) && next.picker@ == m.picker@ && next.runner == m.runner
            && (next.at matches MenuAt::Values(f) && f.key@ == facet_keys(cat, m.picker@)[n - 2]),
{
    number_is_no_command(n as nat);
    unsigned_decimal_round_trips(n as nat, usize::MAX as nat);
    assert(row_keys(cat, m.picker@)[n - 1] == facet_keys(cat, m.picker@)[n - 2]);
}

proof fn number_is_no_command(n: nat)
    ensures
        dec(n) != "q"@,
        dec(n) != "d"@,
        dec(n) != ""@,
        dec(n) != "r"@,
{
    reveal_strlit("q");
    reveal_strlit("d");
    reveal_strlit("");
    reveal_strlit("r");
    decimal_reads_back(n);
    assert(is_digit(dec(n)[0]));
}

/// The words of an answer at a key's values become what that key is pinned to; the runner
/// and the other keys stay.
pub proof fn answers_pin_their_key(cat: CatalogV, m: Menu, f: Facet, s: Seq<char>, turn: Turn)
    requires
        m.at == MenuAt::Values(f),
        answered(cat, m, Some(s), turn),
    ensures
        turn matches Turn::Again(next, said) && next.picker@ == with_choice(
            m.picker@,
            f.key@,
            named_values(values(f.values@), words(s)),
        ) && next.runner == m.runner && next.at is Rows && said@.len() == ignored(
            values(f.values@),
            words(s),
        ).len(),
{
    match turn {
        Turn::Again(next, said) => {
            assert(texts(said@).len() == said@.len());
        },
        _ => {},
    }
}

/// Whoever leaves gets no selection, and whoever is done gets what was chosen.
pub proof fn leaving_and_being_done_differ(cat: CatalogV, m: Menu, turn: Turn)
    requires
        m.at is Rows,
    ensures
        answered(cat, m, Some("q"@), turn) ==> turn is Quit,
        answered(cat, m, Some("d"@), turn) ==> (turn matches Turn::Done(n) && n.picker@ == m.picker@
            && n.runner == m.runner),
        answered(cat, m, Some("r"@), turn) ==> (turn matches Turn::Again(n, _) && n.picker@.len() == 0
            && n.runner == m.runner),
        answered(cat, m, None, turn) ==> (turn matches Turn::Done(n) && n.picker@ == m.picker@),
{
    reveal_strlit("q");
    reveal_strlit("d");
    reveal_strlit("r");
    reveal_strlit("");
    assert("q"@[0] == 'q' && "d"@[0] == 'd' && "r"@[0] == 'r');
    assert(""@.len() == 0 && "q"@.len() == 1 && "d"@.len() == 1 && "r"@.len() == 1);
}

/// Every frame of an image carries its own chunk of the payload, and says that there is
/// more exactly where there is; the first tells the size of the image.
pub proof fn frames_carry_their_chunk(image: Image, i: int)
    requires
        0 <= i < frames(image).len(),
    ensures
        frames(image).len() == chunk_count(encoded(image.rgb@)),
        contains_text(frames(image)[i], ";"@ + ascii(chunk_at(encoded(image.rgb@), i))),
        i < frames(image).len() - 1 ==> contains_text(frames(image)[i], "m="@ + "1"@ + ";"@),
        i == frames(image).len() - 1 ==> contains_text(frames(image)[i], "m="@ + "0"@ + ";"@),
        i == 0 ==> contains_text(
            frames(image)[i],
            "s="@ + dec(image.width as nat) + ",v="@ + dec(image.height as nat),
        ),
{
    let payload = encoded(image.rgb@);
    let more = i + 1 < chunk_count(payload);
    let c = controls(image, i, more);
    let body = ascii(chunk_at(payload, i));
    let s = frames(image)[i];
    assert(s == frame(image, i));
    let esc = "\x1b_G"@;
    assert(s =~= (esc + c) + (";"@ + body) + "\x1b\\"@);
    stands_between(esc + c, ";"@ + body, "\x1b\\"@);
    let flag = if more {
        "1"@
    } else {
        "0"@
    };
    reveal_strlit("m=");
    reveal_strlit(",q=2,C=1,m=");
    let mark = "m="@ + flag + ";"@;
    let m2 = "m="@ + flag;
    assert(m2.is_suffix_of(c)) by {
        assert(c.subrange(c.len() - m2.len(), c.len() as int) =~= m2);
    }
    let before = c.take(c.len() - m2.len());
    assert(c =~= before + m2);
    assert(s =~= (esc + before) + mark + (body + "\x1b\\"@));
    stands_between(esc + before, mark, body + "\x1b\\"@);
    if i == 0 {
        sizes_stand(image, more);
        stands_between(esc, c, ";"@ + body + "\x1b\\"@);
        assert(s =~= esc + c + (";"@ + body + "\x1b\\"@));
        stands_through(
            s,
            c,
            "s="@ + dec(image.width as nat) + ",v="@ + dec(image.height as nat),
        );
    }
}

proof fn sizes_stand(image: Image, more: bool)
    ensures
        contains_text(
            controls(image, 0, more),
            "s="@ + dec(image.width as nat) + ",v="@ + dec(image.height as nat),
        ),
{
    reveal_strlit("a=T,f=24,s=");
    reveal_strlit("s=");
    let c = controls(image, 0, more);
    let size = "s="@ + dec(image.width as nat) + ",v="@ + dec(image.height as nat);
    let front = "a=T,f=24,"@;
    reveal_strlit("a=T,f=24,");
    let whole = "a=T,f=24,s="@ + dec(image.width as nat) + ",v="@ + dec(image.height as nat);
    assert("a=T,f=24,s="@ =~= front + "s="@);
    assert(whole =~= front + size);
    let rest = c.skip(whole.len() as int);
    assert(c =~= whole + rest);
    assert(c =~= front + size + rest);
    stands_between(front, size, rest);
}

/// A terminal's answer names the height of a cell before its width, and both are read.
pub proof fn cell_sizes_read_back(width: u32, height: u32)
    requires
        width > 0,
        height > 0,
    ensures
        reported_size(
            Some("\x1b[6;"@ + dec(height as nat) + ";"@ + dec(width as nat) + "t"@),
        ) == (width, height),
{
    reveal_strlit(";");
    reveal_strlit("t");
    let s = "\x1b[6;"@ + dec(height as nat) + ";"@ + dec(width as nat) + "t"@;
    let head = "\x1b[6;"@;
    assert(s.subrange(0, head.len() as int) =~= head);
    let (h, w) = (dec(height as nat), dec(width as nat));
    decimal_reads_back(height as nat);
    decimal_reads_back(width as nat);
    let body = h + seq![';'] + w;
    assert(s.skip(head.len() as int) =~= body.push('t'));
    assert(is_digit(w[w.len() - 1]));
    assert(body.last() == w.last());
    reveal_with_fuel(without_trailing, 3);
    assert(body.push('t').drop_last() =~= body);
    assert(without_trailing(body.push('t'), 't') == body);
    let parts = seq![h, w];
    reveal_with_fuel(join, 3);
    assert(parts.drop_last() =~= seq![h]);
    assert(join(parts, seq![';']) =~= body);
    assert forall|i: int| 0 <= i < parts.len() implies !(#[trigger] parts[i]).contains(';') by {
        if parts[i].contains(';') {
            let k = parts[i].index_of(';');
            assert(is_digit(parts[i][k]));
        }
    }
    split_of_join(parts, ';');
    unsigned_decimal_round_trips(height as nat, u32::MAX as nat);
    unsigned_decimal_round_trips(width as nat, u32::MAX as nat);
    reveal_with_fuel(numbers_in, 3);
    assert(parts.drop_last().drop_last() =~= Seq::empty());
    assert(numbers_in(parts) =~= seq![height, width]);
}

/// A legend is wide enough for each of its names, stands below the title and ends before
/// the right end; its rows follow one another downwards.
pub proof fn legends_fit_their_names(
    names: Seq<String>,
    label_size: int,
    title_size: int,
    end: int,
    i: int,
)
    requires
        label_size >= 2,
        0 <= i < names.len(),
    ensures
        ({
            let b = legend_box(names, label_size, title_size, end);
            &&& b.2 - b.0 >= encode_utf8(names[i]@).len() * (label_size / 2)
            &&& b.1 > title_size
            &&& b.2 < end
            &&& row_middle(b.1, label_size, i) < row_middle(b.1, label_size, i + 1)
            &&& row_middle(b.1, label_size, i + 1) - row_middle(b.1, label_size, i) > label_size
        }),
{
    longest_is_longest(names, i);
    let (n, m, k) = (encode_utf8(names[i]@).len() as int, longest(names) as int, label_size / 2);
    assert(n * k <= m * k) by (nonlinear_arith)
        requires
            0 <= n <= m,
            k >= 0,
    ;
    assert((i + 1) * (label_size + 8) == i * (label_size + 8) + (label_size + 8)) by (nonlinear_arith);
}

proof fn longest_is_longest(names: Seq<String>, i: int)
    requires
        0 <= i < names.len(),
    ensures
        encode_utf8(names[i]@).len() <= longest(names),
    decreases names.len(),
{
    if i < names.len() - 1 {
        assert(names.drop_last()[i] == names[i]);
        longest_is_longest(names.drop_last(), i);
    }
}

/// What is said of a subject's driver gives the number of its cases before that of its
/// registrations.
pub proof fn conformance_is_told_in_numbers(s: SubjectConformance)
    ensures
        contains_text(conform_lines(s)[0], dec(s.manifest_cases as nat) + " manifest cases"@),
        contains_text(
            conform_lines(s)[0],
            dec(s.driver_registrations as nat) + " driver registrations"@,
        ),
        s.subject@.is_prefix_of(conform_lines(s)[0]),
{
    let line = conform_lines(s)[0];
    let verdict = if s.matches() {
        "match"@
    } else {
        "DRIFT"@
    };
    let (a, b) = (dec(s.manifest_cases as nat), dec(s.driver_registrations as nat));
    let name = left_in(s.subject@, 20);
    assert(line == name + " "@ + a + " manifest cases, "@ + b + " driver registrations — "@ + verdict);
    assert(name.subrange(0, s.subject@.len() as int) =~= s.subject@);
    assert(line.subrange(0, s.subject@.len() as int) =~= s.subject@);
    reveal_strlit(" manifest cases, ");
    reveal_strlit(" manifest cases");
    reveal_strlit(" driver registrations — ");
    reveal_strlit(" driver registrations");
    let (m, d) = (" manifest cases"@, " driver registrations"@);
    let (m2, d2) = (" manifest cases, "@, " driver registrations — "@);
    assert(m2 =~= m + m2.skip(15));
    assert(d2 =~= d + d2.skip(21));
    let after = m2.skip(15) + b + d2 + verdict;
    assert(line =~= (name + " "@) + (a + m) + after);
    stands_between(name + " "@, a + m, after);
    let before = name + " "@ + a + m2;
    assert(line =~= before + (b + d) + (d2.skip(21) + verdict));
    stands_between(before, b + d, d2.skip(21) + verdict);
}

/// A key's row says how many values it does not show, where there are any.
pub proof fn rows_say_what_they_leave_out(n: nat, f: Facet)
    ensures
        f.values@.len() > 8 ==> (dec((f.values@.len() - 8) as nat) + " more"@).is_suffix_of(
            facet_row(n, f),
        ),
{
    if f.values@.len() > 8 {
        let s = facet_row(n, f);
        let t = dec((f.values@.len() - 8) as nat) + " more"@;
        assert(s.subrange(s.len() - t.len(), s.len() as int) =~= t);
    }
}

/// What a selection comes to is told by its cases, its points and the time that it is
/// predicted to take, in seconds for a reader; what reaches nothing is warned of.
pub proof fn previews_tell_what_is_selected(p: Preview)
    ensures
        contains_text(preview_lines(p)[0], dec(p.cases as nat) + " cases"@),
        contains_text(preview_lines(p)[0], dec(p.points as nat) + " points"@),
        human_text((p.estimate / 1000) as nat).is_suffix_of(preview_lines(p)[0]),
        preview_lines(p).len() == 2 <==> p.unsatisfied@.len() > 0,
        p.unsatisfied@.len() > 0 ==> join(texts(p.unsatisfied@), ", "@).is_suffix_of(
            preview_lines(p)[1],
        ),
{
    let line = preview_lines(p)[0];
    let (a, b) = (dec(p.cases as nat), dec(p.points as nat));
    let (rs, e) = (join(texts(p.runners@), "/"@), human_text((p.estimate / 1000) as nat));
    let (c, q, est) = (" cases · "@, " points · "@, " · est. "@);
    assert(line == "\n     "@ + a + c + b + q + rs + est + e);
    reveal_strlit(" cases · ");
    reveal_strlit(" cases");
    reveal_strlit(" points · ");
    reveal_strlit(" points");
    let (c1, q1) = (" cases"@, " points"@);
    assert(c =~= c1 + c.skip(6));
    assert(q =~= q1 + q.skip(7));
    let after = c.skip(6) + b + q + rs + est + e;
    assert(line =~= "\n     "@ + (a + c1) + after);
    stands_between("\n     "@, a + c1, after);
    let before = "\n     "@ + a + c;
    assert(line =~= before + (b + q1) + (q.skip(7) + rs + est + e));
    stands_between(before, b + q1, q.skip(7) + rs + est + e);
    assert(line.subrange(line.len() - e.len(), line.len() as int) =~= e);
    if p.unsatisfied@.len() > 0 {
        let w = preview_lines(p)[1];
        let t = join(texts(p.unsatisfied@), ", "@);
        assert(w.subrange(w.len() - t.len(), w.len() as int) =~= t);
    }
}

/// An image takes as many columns of cells as cover its width, and as many rows as cover
/// its height, and its first frame says so.
pub proof fn images_cover_their_cells(image: Image, more: bool)
    ensures
        contains_text(
            controls(image, 0, more),
            ",c="@ + dec(cells_for(image.width, image.cell_width_px) as nat) + ",r="@ + dec(
                cells_for(image.height, image.cell_height_px) as nat,
            ),
        ),
{
    let c = controls(image, 0, more);
    let flag = if more {
        "1"@
    } else {
        "0"@
    };
    let front = "a=T,f=24,s="@ + dec(image.width as nat) + ",v="@ + dec(image.height as nat);
    let x = dec(cells_for(image.width, image.cell_width_px) as nat);
    let y = dec(cells_for(image.height, image.cell_height_px) as nat);
    let cells = ",c="@ + x + ",r="@ + y;
    assert(c == front + ",c="@ + x + ",r="@ + y + ",q=2,C=1,m="@ + flag);
    assert(c =~= front + cells + (",q=2,C=1,m="@ + flag));
    stands_between(front, cells, ",q=2,C=1,m="@ + flag);
}

/// A case that has no value under a column is shown with a dash there.
pub proof fn missing_values_are_shown_as_a_dash(c: CaseV, key: Seq<char>)
    requires
        !c.tags.dom().contains(key),
    ensures
        cell(c, key).len() == 12,
        cell(c, key)[0] == '-',
        forall|i: int| 1 <= i < 12 ==> #[trigger] cell(c, key)[i] == ' ',
{
    reveal_strlit("-");
}

/// A coordinate is told by each of its keys with its value, as a selector would have it.
pub proof fn coordinates_are_told_as_selectors(pairs: KeyV, i: int)
    requires
        0 <= i < pairs.len(),
    ensures
        contains_text(pairs_text(pairs), pairs[i].0 + "="@ + pairs[i].1),
{
    let parts = Seq::new(pairs.len(), |k: int| pair_text(pairs[k]));
    part_stands(parts, ","@, i);
    assert(parts[i] == pairs[i].0 + "="@ + pairs[i].1);
}

proof fn part_stands(parts: Seq<Seq<char>>, sep: Seq<char>, i: int)
    requires
        0 <= i < parts.len(),
    ensures
        contains_text(join(parts, sep), parts[i]),
    decreases parts.len(),
{
    let none = Seq::<char>::empty();
    if parts.len() == 1 {
        stands_between(none, parts[0], none);
        assert(none + parts[0] + none =~= parts[0]);
    } else {
        let front = join(parts.drop_last(), sep);
        if i == parts.len() - 1 {
            stands_between(front + sep, parts[i], none);
            assert(front + sep + parts[i] + none =~= join(parts, sep));
        } else {
            part_stands(parts.drop_last(), sep, i);
            assert(parts.drop_last()[i] == parts[i]);
            stands_between(none, front, sep + parts.last());
            assert(none + front + (sep + parts.last()) =~= join(parts, sep));
            stands_through(join(parts, sep), front, parts[i]);
        }
    }
}

/// The head of a table names every column.
pub proof fn heads_name_every_column(columns: Seq<Seq<char>>, j: int)
    requires
        0 <= j < columns.len(),
    ensures
        contains_text(heads(columns), columns[j]),
    decreases columns.len(),
{
    let front = heads(columns.drop_last());
    let last = left_in(columns.last(), 12);
    assert(heads(columns) == front + last);
    assert(last.subrange(0, columns.last().len() as int) =~= columns.last());
    stands_in_front(last, columns.last());
    if j == columns.len() - 1 {
        assert((front + last).subrange(front.len() as int, (front + last).len() as int) =~= last);
        stands_at_the_end(front + last, last);
        stands_through(front + last, last, columns[j]);
    } else {
        heads_name_every_column(columns.drop_last(), j);
        assert((front + last).subrange(0, front.len() as int) =~= front);
        stands_in_front(front + last, front);
        stands_through(front + last, front, columns[j]);
    }
}

/// The runner that is chosen is marked among those that are offered, and only that one.
pub proof fn the_chosen_runner_is_marked(offered: Seq<Runner>, runner: Runner, i: int)
    requires
        0 <= i < offered.len(),
    ensures
        contains_text(runner_row(offered, runner), marked_runners(offered, runner)[i]),
        offered[i] == runner ==> marked_runners(offered, runner)[i] == "["@ + runner_name(offered[i])
            + "]"@,
        offered[i] != runner ==> marked_runners(offered, runner)[i] == runner_name(offered[i]),
{
    let parts = marked_runners(offered, runner);
    part_stands(parts, "  "@, i);
    let s = runner_row(offered, runner);
    let all = join(parts, "  "@);
    assert(s.subrange(s.len() - all.len(), s.len() as int) =~= all);
    stands_at_the_end(s, all);
    stands_through(s, all, parts[i]);
}

} // verus!
