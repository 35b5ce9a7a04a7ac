//! The interactive menu: what it shows, and what an answer does.
//!
//! The terminal is elsewhere: a menu gives the lines to print and takes the line that
//! came back.

use crate::case::{runner_name, runner_of, Runner, PROCESS_OVERHEAD_MS};
use crate::catalog::{matching_cases, shared_runner, Catalog, CatalogV};
use crate::cli::{align_left, align_right, human, human_text, left_in, render, right_in};
use crate::harness::Budget;
use crate::ordered::{ascending_where, ascending_where_is};
use crate::picker::{
    facet_keys, is_facet, is_preview, selection_of, with_choice, Facet, Picker, Preview,
};
use crate::selector::{listed, lists, ClauseV};
use crate::tag::{expr_of, values, TagV, TagValue};
use crate::text::{
    dec, decimal, decimal_wide, join, joined, parse_unsigned, read_unsigned, same, split_words, texts, trim,
    trimmed, words,
};
use crate::vocab::writes_powers;
use vstd::prelude::*;

verus! {

pub const MAIN_PROMPT: &'static str = "\n  number to refine, `r` reset, `d` done, `q` quit: ";

pub const RUNNER_PROMPT: &'static str = "  number, blank to keep: ";

pub const VALUES_PROMPT: &'static str = "  numbers separated by spaces, blank to clear: ";

pub const RUN_PROMPT: &'static str = "Run now? [Y/n]: ";

// ---------------------------------------------------------------- runners

/// The runners that the engine implements, or that it does not, among some names.
pub open spec fn runners_in(names: Seq<Seq<char>>, implemented: bool) -> Seq<Runner>
    decreases names.len(),
{
    if names.len() == 0 {
        Seq::empty()
    } else {
        let found = runners_in(names.drop_last(), implemented);
        match runner_of(names.last()) {
            Some(r) => if (r is Criterion || r is Perf) == implemented {
                found.push(r)
            } else {
                found
            },
            None => found,
        }
    }
}

/// The names of the runners that every selected case supports.
pub open spec fn supported(cat: CatalogV, picked: Seq<ClauseV>) -> Seq<Seq<char>> {
    ascending_where(|t: Seq<char>| shared_runner(matching_cases(cat, selection_of(picked)), t))
}

fn supported_names(catalog: &Catalog, picker: &Picker) -> (r: Vec<String>)
    ensures
        texts(r@) == supported(catalog@, picker@),
{
    let names = catalog.runners_for(&picker.selection());
    proof {
        ascending_where_is(
            texts(names@),
            |t: Seq<char>|
                shared_runner(matching_cases(catalog@, selection_of(picker@)), t),
        );
    }
    names
}

fn runners_among(names: &Vec<String>, implemented: bool) -> (r: Vec<Runner>)
    ensures
        r@ == runners_in(texts(names@), implemented),
{
    let ghost all = texts(names@);
    let mut out: Vec<Runner> = Vec::new();
    let mut i: usize = 0;
    assert(out@ =~= runners_in(all.take(0), implemented));
    while i < names.len()
        invariant
            i <= names@.len(),
            all == texts(names@),
            out@ == runners_in(all.take(i as int), implemented),
        decreases names@.len() - i,
    {
        proof {
            assert(all.take(i + 1).drop_last() =~= all.take(i as int));
            assert(all.take(i + 1).last() == names@[i as int]@);
        }
        match Runner::parse(names[i].as_str()) {
            Some(r) => {
                if r.implemented() == implemented {
                    out.push(r);
                }
            },
            None => {},
        }
        i = i + 1;
    }
    assert(all.take(i as int) =~= all);
    out
}

// ---------------------------------------------------------------- what is shown

pub open spec fn in_brackets(s: Seq<char>, marked: bool) -> Seq<char> {
    if marked {
        "["@ + s + "]"@
    } else {
        s
    }
}

fn bracketed(s: &str, marked: bool) -> (r: String)
    ensures
        r@ == in_brackets(s@, marked),
{
    if marked {
        let mut t = "[".to_owned();
        t.append(s);
        t.append("]");
        t
    } else {
        s.to_owned()
    }
}

pub open spec fn row(n: nat, key: Seq<char>, rest: Seq<char>) -> Seq<char> {
    right_in(dec(n), 3) + ". "@ + left_in(key, 22) + " "@ + rest
}

fn row_line(n: u128, key: &str, rest: &str) -> (r: String)
    ensures
        r@ == row(n as nat, key@, rest@),
{
    let mut s = align_right(decimal_wide(n).as_str(), 3);
    s.append(". ");
    s.append(align_left(key, 22).as_str());
    s.append(" ");
    s.append(rest);
    s
}

/// The runner is the list's first row: it is a choice like any other.
pub open spec fn runner_row(offered: Seq<Runner>, runner: Runner) -> Seq<char> {
    row(1, "runner"@, join(marked_runners(offered, runner), "  "@))
}

pub open spec fn marked_runners(offered: Seq<Runner>, runner: Runner) -> Seq<Seq<char>> {
    Seq::new(
        offered.len(),
        |i: int| in_brackets(runner_name(offered[i]), offered[i] == runner),
    )
}

fn runner_line(offered: &Vec<Runner>, runner: Runner) -> (r: String)
    ensures
        r@ == runner_row(offered@, runner),
{
    let ghost all = marked_runners(offered@, runner);
    let mut marked: Vec<String> = Vec::new();
    let mut i: usize = 0;
    while i < offered.len()
        invariant
            i <= offered@.len(),
            all == marked_runners(offered@, runner),
            marked@.len() == i,
            forall|j: int| 0 <= j < i ==> (#[trigger] marked@[j])@ == all[j],
        decreases offered@.len() - i,
    {
        marked.push(bracketed(offered[i].as_str(), offered[i] == runner));
        i = i + 1;
    }
    assert(texts(marked@) =~= all);
    row_line(1, "runner", joined(&marked, "  ").as_str())
}

/// How many of a key's values are shown.
pub open spec fn shown_of(f: Facet) -> nat {
    if f.values@.len() < 8 {
        f.values@.len()
    } else {
        8
    }
}

pub open spec fn shown_values(f: Facet) -> Seq<Seq<char>> {
    Seq::new(
        shown_of(f),
        |i: int|
            in_brackets(
                expr_of(f.values@[i]@, writes_powers(f.key@)),
                listed(values(f.chosen@), f.values@[i]@),
            ),
    )
}

/// A key's row: its first values, the chosen ones marked, and how many more there are.
pub open spec fn facet_row(n: nat, f: Facet) -> Seq<char> {
    row(n, f.key@, join(shown_values(f), "  "@) + (if f.values@.len() > 8 {
        "   … "@ + dec((f.values@.len() - 8) as nat) + " more"@
    } else {
        Seq::empty()
    }))
}

fn facet_line(n: u128, f: &Facet) -> (r: String)
    ensures
        r@ == facet_row(n as nat, *f),
{
    let ghost all = shown_values(*f);
    let count: usize = if f.values.len() < 8 {
        f.values.len()
    } else {
        8
    };
    let mut shown: Vec<String> = Vec::new();
    let mut i: usize = 0;
    while i < count
        invariant
            i <= count <= f.values@.len(),
            count == shown_of(*f),
            all == shown_values(*f),
            shown@.len() == i,
            forall|j: int| 0 <= j < i ==> (#[trigger] shown@[j])@ == all[j],
        decreases count - i,
    {
        let v = &f.values[i];
        shown.push(bracketed(render(f.key.as_str(), v).as_str(), lists(&f.chosen, v)));
        i = i + 1;
    }
    assert(texts(shown@) =~= all);
    let mut rest = joined(&shown, "  ");
    if f.values.len() > 8 {
        let mut tail = "   … ".to_owned();
        tail.append(decimal((f.values.len() - 8) as u64).as_str());
        tail.append(" more");
        rest.append(tail.as_str());
    } else {
        assert(rest@ + Seq::<char>::empty() =~= rest@);
    }
    row_line(n, f.key.as_str(), rest.as_str())
}

/// What the selection comes to so far.
pub open spec fn preview_lines(p: Preview) -> Seq<Seq<char>> {
    seq![
        "\n     "@ + dec(p.cases as nat) + " cases · "@ + dec(p.points as nat) + " points · "@
            + join(texts(p.runners@), "/"@) + " · est. "@ + human_text(
            (p.estimate / 1000) as nat,
        ),
    ] + (if p.unsatisfied@.len() > 0 {
        seq!["     warning: reached nothing: "@ + join(texts(p.unsatisfied@), ", "@)]
    } else {
        Seq::empty()
    })
}

pub open spec fn shown_lines(
    offered: Seq<Runner>,
    runner: Runner,
    facets: Seq<Facet>,
    preview: Preview,
) -> Seq<Seq<char>> {
    seq![runner_row(offered, runner)] + Seq::new(
        facets.len(),
        |i: int| facet_row((i + 2) as nat, facets[i]),
    ) + preview_lines(preview)
}

/// The rows of the menu. Only implemented runners are offered: a menu item that ends
/// in a refusal is not a choice.
pub fn show(offered: &Vec<Runner>, runner: Runner, facets: &Vec<Facet>, preview: &Preview) -> (r: Vec<
    String,
>)
    ensures
        texts(r@) == shown_lines(offered@, runner, facets@, *preview),
{
    let mut out: Vec<String> = Vec::new();
    out.push(runner_line(offered, runner));
    let ghost head = seq![runner_row(offered@, runner)];
    let ghost all = Seq::new(facets@.len(), |i: int| facet_row((i + 2) as nat, facets@[i]));
    let mut i: usize = 0;
    assert(texts(out@) =~= head + all.take(0));
    while i < facets.len()
        invariant
            i <= facets@.len(),
            all == Seq::new(facets@.len(), |i: int| facet_row((i + 2) as nat, facets@[i])),
            texts(out@) == head + all.take(i as int),
        decreases facets@.len() - i,
    {
        let ghost before = texts(out@);
        let s = facet_line(i as u128 + 2, &facets[i]);
        out.push(s);
        proof {
            assert(texts(out@) =~= before.push(s@));
            assert(all.take(i + 1) =~= all.take(i as int).push(all[i as int]));
            assert(texts(out@) =~= head + all.take(i + 1));
        }
        i = i + 1;
    }
    assert(all.take(i as int) =~= all);
    let ghost rows = texts(out@);
    let mut s = "\n     ".to_owned();
    s.append(decimal(preview.cases as u64).as_str());
    s.append(" cases · ");
    s.append(decimal(preview.points as u64).as_str());
    s.append(" points · ");
    s.append(joined(&preview.runners, "/").as_str());
    s.append(" · est. ");
    s.append(human(preview.estimate).as_str());
    out.push(s);
    assert(texts(out@) =~= rows + seq![s@]);
    if preview.unsatisfied.len() > 0 {
        let mut w = "     warning: reached nothing: ".to_owned();
        w.append(joined(&preview.unsatisfied, ", ").as_str());
        out.push(w);
        assert(texts(out@) =~= rows + (seq![s@] + seq![w@]));
    } else {
        assert(texts(out@) =~= rows + (seq![s@] + Seq::empty()));
    }
    out
}

/// The runners to choose from, and the ones named so that their absence is explained.
pub open spec fn runner_list(offered: Seq<Runner>, later: Seq<Runner>, runner: Runner) -> Seq<
    Seq<char>,
> {
    Seq::new(
        offered.len(),
        |i: int|
            right_in(dec((i + 1) as nat), 3) + ". "@ + (if offered[i] == runner {
                "[x]"@
            } else {
                "[ ]"@
            }) + " "@ + runner_name(offered[i]),
    ) + (if later.len() > 0 {
        seq![
            "      (not implemented yet: "@ + join(
                Seq::new(later.len(), |i: int| runner_name(later[i])),
                ", "@,
            ) + ")"@,
        ]
    } else {
        Seq::empty()
    })
}

pub fn runner_choices(offered: &Vec<Runner>, later: &Vec<Runner>, runner: Runner) -> (r: Vec<String>)
    ensures
        texts(r@) == runner_list(offered@, later@, runner),
{
    let ghost all = Seq::new(
        offered@.len(),
        |i: int|
            right_in(dec((i + 1) as nat), 3) + ". "@ + (if offered@[i] == runner {
                "[x]"@
            } else {
                "[ ]"@
            }) + " "@ + runner_name(offered@[i]),
    );
    let mut out: Vec<String> = Vec::new();
    let mut i: usize = 0;
    while i < offered.len()
        invariant
            i <= offered@.len(),
            all == Seq::new(
                offered@.len(),
                |i: int|
                    right_in(dec((i + 1) as nat), 3) + ". "@ + (if offered@[i] == runner {
                        "[x]"@
                    } else {
                        "[ ]"@
                    }) + " "@ + runner_name(offered@[i]),
            ),
            out@.len() == i,
            forall|j: int| 0 <= j < i ==> (#[trigger] out@[j])@ == all[j],
        decreases offered@.len() - i,
    {
        let mut s = align_right(decimal(i as u64 + 1).as_str(), 3);
        s.append(". ");
        s.append(
            if offered[i] == runner {
                "[x]"
            } else {
                "[ ]"
            },
        );
        s.append(" ");
        s.append(offered[i].as_str());
        out.push(s);
        i = i + 1;
    }
    assert(texts(out@) =~= all);
    if later.len() > 0 {
        let ghost names = Seq::new(later@.len(), |i: int| runner_name(later@[i]));
        let mut list: Vec<String> = Vec::new();
        let mut k: usize = 0;
        while k < later.len()
            invariant
                k <= later@.len(),
                names == Seq::new(later@.len(), |i: int| runner_name(later@[i])),
                list@.len() == k,
                forall|j: int| 0 <= j < k ==> (#[trigger] list@[j])@ == names[j],
            decreases later@.len() - k,
        {
            list.push(later[k].to_string());
            k = k + 1;
        }
        assert(texts(list@) =~= names);
        let mut s = "      (not implemented yet: ".to_owned();
        s.append(joined(&list, ", ").as_str());
        s.append(")");
        out.push(s);
        assert(texts(out@) =~= all + seq![s@]);
    } else {
        assert(texts(out@) =~= all + Seq::empty());
    }
    out
}

pub open spec fn value_list(key: Seq<char>, vs: Seq<TagV>) -> Seq<Seq<char>> {
    Seq::new(
        vs.len(),
        |i: int| right_in(dec((i + 1) as nat), 3) + ". "@ + expr_of(vs[i], writes_powers(key)),
    )
}

/// The values of a key to choose from.
pub fn value_choices(key: &str, vs: &Vec<TagValue>) -> (r: Vec<String>)
    ensures
        texts(r@) == value_list(key@, values(vs@)),
{
    let ghost all = value_list(key@, values(vs@));
    let mut out: Vec<String> = Vec::new();
    let mut i: usize = 0;
    while i < vs.len()
        invariant
            i <= vs@.len(),
            all == value_list(key@, values(vs@)),
            out@.len() == i,
            forall|j: int| 0 <= j < i ==> (#[trigger] out@[j])@ == all[j],
        decreases vs@.len() - i,
    {
        let mut s = align_right(decimal(i as u64 + 1).as_str(), 3);
        s.append(". ");
        s.append(render(key, &vs[i]).as_str());
        out.push(s);
        i = i + 1;
    }
    assert(texts(out@) =~= all);
    out
}

// ---------------------------------------------------------------- what an answer does

/// Where a menu stands: at its rows, at the runners, or at the values of a key.
#[derive(Debug)]
pub enum MenuAt {
    Rows,
    Runners(Vec<Runner>),
    Values(Facet),
}

/// A selection being made.
#[derive(Debug)]
pub struct Menu {
    pub picker: Picker,
    pub runner: Runner,
    pub at: MenuAt,
}

/// What an answer comes to: the menu goes on, with something to say; the selection is
/// made; or the user has left.
#[derive(Debug)]
pub enum Turn {
    Again(Menu, Vec<String>),
    Done(Menu),
    Quit,
}

/// The keys of the rows.
pub open spec fn row_keys(cat: CatalogV, picked: Seq<ClauseV>) -> Seq<Seq<char>> {
    seq!["runner"@] + facet_keys(cat, picked)
}

/// The menu stands at its rows with these choices.
pub open spec fn at_rows(m: Menu, picked: Seq<ClauseV>, runner: Runner) -> bool {
    m.picker@ == picked && m.runner == runner && m.at is Rows
}

pub open spec fn says(turn: Turn, lines: Seq<Seq<char>>) -> bool {
    turn matches Turn::Again(_, said) && texts(said@) == lines
}

/// What an answer at the rows does.
pub open spec fn answered_row(cat: CatalogV, m: Menu, input: Option<Seq<char>>, turn: Turn) -> bool {
    match input {
        None => turn matches Turn::Done(n) && at_rows(n, m.picker@, m.runner),
        Some(s) => if s == "q"@ {
            turn is Quit
        } else if s == "d"@ || s == ""@ {
            turn matches Turn::Done(n) && at_rows(n, m.picker@, m.runner)
        } else if s == "r"@ {
            &&& turn matches Turn::Again(n, _) && at_rows(n, Seq::empty(), m.runner)
            &&& says(turn, Seq::empty())
        } else {
            match read_unsigned(s, usize::MAX as nat) {
                None => {
                    &&& turn matches Turn::Again(n, _) && at_rows(n, m.picker@, m.runner)
                    &&& says(turn, seq!["  not a number: "@ + s])
                },
                Some(n) => if 1 <= n <= row_keys(cat, m.picker@).len() {
                    let key = row_keys(cat, m.picker@)[n - 1];
                    &&& says(turn, Seq::empty())
                    &&& turn matches Turn::Again(next, _) && next.picker@ == m.picker@
                        && next.runner == m.runner && if key == "runner"@ {
                        next.at matches MenuAt::Runners(offered) && offered@ == runners_in(
                            supported(cat, m.picker@),
                            true,
                        )
                    } else {
                        next.at matches MenuAt::Values(f) && is_facet(f, cat, m.picker@, key)
                    }
                } else {
                    &&& turn matches Turn::Again(next, _) && at_rows(next, m.picker@, m.runner)
                    &&& says(turn, seq!["  no such row: "@ + dec(n)])
                },
            }
        },
    }
}

/// The runner that an answer picks.
pub open spec fn picked_runner(offered: Seq<Runner>, current: Runner, input: Seq<char>) -> Runner {
    match read_unsigned(trim(input), usize::MAX as nat) {
        Some(n) => if 1 <= n <= offered.len() {
            offered[n - 1]
        } else {
            current
        },
        None => current,
    }
}

/// The value that a token names.
pub open spec fn named_value(vs: Seq<TagV>, token: Seq<char>) -> Option<TagV> {
    match read_unsigned(token, usize::MAX as nat) {
        Some(n) => if 1 <= n <= vs.len() {
            Some(vs[n - 1])
        } else {
            None
        },
        None => None,
    }
}

/// The values that some tokens name.
pub open spec fn named_values(vs: Seq<TagV>, tokens: Seq<Seq<char>>) -> Seq<TagV>
    decreases tokens.len(),
{
    if tokens.len() == 0 {
        Seq::empty()
    } else {
        let rest = named_values(vs, tokens.drop_last());
        match named_value(vs, tokens.last()) {
            Some(v) => rest.push(v),
            None => rest,
        }
    }
}

/// What is said of the tokens that name none.
pub open spec fn ignored(vs: Seq<TagV>, tokens: Seq<Seq<char>>) -> Seq<Seq<char>>
    decreases tokens.len(),
{
    if tokens.len() == 0 {
        Seq::empty()
    } else {
        let rest = ignored(vs, tokens.drop_last());
        match named_value(vs, tokens.last()) {
            Some(_) => rest,
            None => rest.push("  ignoring `"@ + tokens.last() + "`"@),
        }
    }
}

/// What an answer does.
pub open spec fn answered(cat: CatalogV, m: Menu, input: Option<Seq<char>>, turn: Turn) -> bool {
    match m.at {
        MenuAt::Rows => answered_row(cat, m, input, turn),
        MenuAt::Runners(offered) => match input {
            None => turn matches Turn::Done(n) && at_rows(n, m.picker@, m.runner),
            Some(s) => {
                &&& turn matches Turn::Again(n, _) && at_rows(
                    n,
                    m.picker@,
                    picked_runner(offered@, m.runner, s),
                )
                &&& says(turn, Seq::empty())
            },
        },
        MenuAt::Values(f) => match input {
            None => turn matches Turn::Done(n) && at_rows(n, m.picker@, m.runner),
            Some(s) => {
                &&& turn matches Turn::Again(n, _) && at_rows(
                    n,
                    with_choice(m.picker@, f.key@, named_values(values(f.values@), words(s))),
                    m.runner,
                )
                &&& says(turn, ignored(values(f.values@), words(s)))
            },
        },
    }
}

/// What the rows are made from: what is offered for each key, and what the selection
/// comes to.
pub open spec fn displayed(
    cat: CatalogV,
    m: Menu,
    budget: Budget,
    facets: Seq<Facet>,
    preview: Preview,
) -> bool {
    let keys = facet_keys(cat, m.picker@);
    &&& facets.len() == keys.len()
    &&& forall|i: int|
        0 <= i < facets.len() ==> is_facet(#[trigger] facets[i], cat, m.picker@, keys[i])
    &&& is_preview(preview, cat, m.picker@, m.runner, budget)
}

fn number_in(s: &str) -> (r: Option<usize>)
    ensures
        (match r {
            Some(n) => Some(n as nat),
            None => None,
        }) == read_unsigned(s@, usize::MAX as nat),
{
    match parse_unsigned(s, usize::MAX as u64) {
        Some(n) => Some(n as usize),
        None => None,
    }
}

fn read_choices(vs: &Vec<TagValue>, tokens: &Vec<String>) -> (r: (Vec<TagValue>, Vec<String>))
    ensures
        values(r.0@) == named_values(values(vs@), texts(tokens@)),
        texts(r.1@) == ignored(values(vs@), texts(tokens@)),
{
    let ghost all = texts(tokens@);
    let ghost models = values(vs@);
    let mut chosen: Vec<TagValue> = Vec::new();
    let mut said: Vec<String> = Vec::new();
    let mut i: usize = 0;
    assert(values(chosen@) =~= named_values(models, all.take(0)));
    assert(texts(said@) =~= ignored(models, all.take(0)));
    while i < tokens.len()
        invariant
            i <= tokens@.len(),
            all == texts(tokens@),
            models == values(vs@),
            values(chosen@) == named_values(models, all.take(i as int)),
            texts(said@) == ignored(models, all.take(i as int)),
        decreases tokens@.len() - i,
    {
        let token = tokens[i].as_str();
        proof {
            assert(all.take(i + 1).drop_last() =~= all.take(i as int));
            assert(all.take(i + 1).last() == token@);
        }
        let ghost before = values(chosen@);
        let ghost told = texts(said@);
        let n = match number_in(token) {
            Some(n) => n,
            None => 0,
        };
        if 1 <= n && n <= vs.len() {
            let v = vs[n - 1].clone();
            chosen.push(v);
            assert(models[n - 1] == vs@[n - 1]@);
            assert(values(chosen@) =~= before.push(v@));
        } else {
            let mut s = "  ignoring `".to_owned();
            s.append(token);
            s.append("`");
            said.push(s);
            assert(texts(said@) =~= told.push(s@));
        }
        i = i + 1;
    }
    assert(all.take(i as int) =~= all);
    (chosen, said)
}

fn saying(s: String) -> (r: Vec<String>)
    ensures
        texts(r@) == seq![s@],
{
    let mut out: Vec<String> = Vec::new();
    out.push(s);
    assert(texts(out@) =~= seq![s@]);
    out
}

fn nothing() -> (r: Vec<String>)
    ensures
        texts(r@) == Seq::<Seq<char>>::empty(),
{
    let out: Vec<String> = Vec::new();
    assert(texts(out@) =~= Seq::<Seq<char>>::empty());
    out
}

impl Menu {
    /// Nothing is pinned yet; criterion measures.
    pub fn new() -> (r: Self)
        ensures
            at_rows(r, Seq::empty(), Runner::Criterion),
    {
        Menu { picker: Picker::new(), runner: Runner::Criterion, at: MenuAt::Rows }
    }

    fn again(self, said: Vec<String>) -> (r: Turn)
        ensures
            r matches Turn::Again(n, s) && at_rows(n, self.picker@, self.runner) && s@ == said@,
    {
        Turn::Again(Menu { picker: self.picker, runner: self.runner, at: MenuAt::Rows }, said)
    }

    fn done(self) -> (r: Turn)
        ensures
            r matches Turn::Done(n) && at_rows(n, self.picker@, self.runner),
    {
        Turn::Done(Menu { picker: self.picker, runner: self.runner, at: MenuAt::Rows })
    }

    fn answer_row(self, catalog: &Catalog, input: Option<&str>) -> (r: Turn)
        requires
            self.at is Rows,
        ensures
            answered_row(
                catalog@,
                self,
                match input {
                    Some(s) => Some(s@),
                    None => None,
                },
                r,
            ),
    {
        let s = match input {
            None => {
                return self.done();
            },
            Some(s) => s,
        };
        if same(s, "q") {
            return Turn::Quit;
        }
        if same(s, "d") || same(s, "") {
            return self.done();
        }
        if same(s, "r") {
            return Menu { picker: Picker::new(), runner: self.runner, at: MenuAt::Rows }.again(
                nothing(),
            );
        }
        let n = match number_in(s) {
            None => {
                let mut m = "  not a number: ".to_owned();
                m.append(s);
                return self.again(saying(m));
            },
            Some(n) => n,
        };
        let mut facets = self.picker.facets(catalog);
        let ghost keys = row_keys(catalog@, self.picker@);
        assert(keys.len() == facets@.len() + 1);
        let at: MenuAt;
        if n == 1 || (n >= 2 && n - 2 < facets.len() && same(facets[n - 2].key.as_str(), "runner")) {
            proof {
                if n >= 2 {
                    assert(is_facet(
                        facets@[n - 2],
                        catalog@,
                        self.picker@,
                        keys[n - 1],
                    ));
                }
            }
            at = MenuAt::Runners(runners_among(&supported_names(catalog, &self.picker), true));
        } else if n >= 2 && n - 2 < facets.len() {
            assert(is_facet(facets@[n - 2], catalog@, self.picker@, keys[n - 1]));
            at = MenuAt::Values(facets.remove(n - 2));
        } else {
            let mut m = "  no such row: ".to_owned();
            m.append(decimal(n as u64).as_str());
            return self.again(saying(m));
        }
        Turn::Again(Menu { picker: self.picker, runner: self.runner, at }, nothing())
    }

    /// Take an answer, without the space around it; nothing when there was none to
    /// read.
    pub fn answer(self, catalog: &Catalog, input: Option<&str>) -> (r: Turn)
        ensures
            answered(
                catalog@,
                self,
                match input {
                    Some(s) => Some(s@),
                    None => None,
                },
                r,
            ),
    {
        match self.at {
            MenuAt::Rows => Menu {
                picker: self.picker,
                runner: self.runner,
                at: MenuAt::Rows,
            }.answer_row(catalog, input),
            MenuAt::Runners(offered) => {
                let stay = Menu { picker: self.picker, runner: self.runner, at: MenuAt::Rows };
                match input {
                    None => stay.done(),
                    Some(s) => {
                        let runner = match number_in(trimmed(s)) {
                            Some(n) => if 1 <= n && n <= offered.len() {
                                offered[n - 1]
                            } else {
                                stay.runner
                            },
                            None => stay.runner,
                        };
                        Menu { picker: stay.picker, runner, at: MenuAt::Rows }.again(nothing())
                    },
                }
            },
            MenuAt::Values(f) => {
                let stay = Menu { picker: self.picker, runner: self.runner, at: MenuAt::Rows };
                match input {
                    None => stay.done(),
                    Some(s) => {
                        let (chosen, said) = read_choices(&f.values, &split_words(s));
                        let mut picker = stay.picker;
                        picker.choose_values(f.key.as_str(), chosen);
                        Menu { picker, runner: stay.runner, at: MenuAt::Rows }.again(said)
                    },
                }
            },
        }
    }

    /// The lines to print where the menu stands.
    pub fn display(&self, catalog: &Catalog, budget: &Budget) -> (r: Vec<String>)
        requires
            budget.warm_up_ms + budget.measurement_ms + PROCESS_OVERHEAD_MS <= u64::MAX,
            catalog@.cases.len() <= u32::MAX,
        ensures
            match self.at {
                MenuAt::Rows => exists|facets: Seq<Facet>, preview: Preview|
                    #![trigger displayed(catalog@, *self, *budget, facets, preview)]
                    displayed(catalog@, *self, *budget, facets, preview) && texts(r@)
                        == shown_lines(
                        runners_in(supported(catalog@, self.picker@), true),
                        self.runner,
                        facets,
                        preview,
                    ),
                MenuAt::Runners(offered) => texts(r@) == runner_list(
                    offered@,
                    runners_in(supported(catalog@, self.picker@), false),
                    self.runner,
                ),
                MenuAt::Values(f) => texts(r@) == value_list(f.key@, values(f.values@)),
            },
    {
        match &self.at {
            MenuAt::Rows => {
                let offered = runners_among(&supported_names(catalog, &self.picker), true);
                let facets = self.picker.facets(catalog);
                let preview = self.picker.preview(catalog, self.runner, budget);
                assert(displayed(catalog@, *self, *budget, facets@, preview));
                show(&offered, self.runner, &facets, &preview)
            },
            MenuAt::Runners(offered) => runner_choices(
                offered,
                &runners_among(&supported_names(catalog, &self.picker), false),
                self.runner,
            ),
            MenuAt::Values(f) => value_choices(f.key.as_str(), &f.values),
        }
    }
}

/// Whether the selection is run at once. No answer counts as yes, so that a piped
/// session still runs; anything but a plain no does too.
pub fn runs_now(input: Option<&str>) -> (r: bool)
    ensures
        r == !(input matches Some(s) && (s@ == "n"@ || s@ == "N"@)),
{
    match input {
        Some(s) => !(same(s, "n") || same(s, "N")),
        None => true,
    }
}

} // verus!
