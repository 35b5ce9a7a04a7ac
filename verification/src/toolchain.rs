//! Resolving the single toolchain a run builds every Rust subject with.
//!
//! Subjects declare a floor rather than a pin, so one run can satisfy a whole
//! selection. Everything inside a run is then comparable by construction, and a
//! rustc upgrade shows up as a difference between runs, where it can be faceted,
//! rather than as an uncontrolled confound between two subjects in the same chart.

use crate::manifest::{ManifestError, ManifestErrorV};
use crate::tag::trimmed_already;
use crate::text::{
    dec, decimal, decimal_reads_back, is_digit, is_space, join, option_text, parse_unsigned, pieces,
    read_unsigned, split, split_of_join, split_words, texts, trim, trimmed, until, until_is_take,
    words,
};
use vstd::prelude::*;

verus! {

/// A `major.minor.patch` version, compared numerically.
///
/// String comparison would order 1.100.0 below 1.89.0, which is exactly the kind
/// of quiet wrongness that would pick a toolchain below somebody's floor.
#[derive(Clone, Copy, Debug, PartialEq, Eq, PartialOrd, Ord, Structural)]
pub struct Version(pub u32, pub u32, pub u32);

pub open spec fn version_lt(a: Version, b: Version) -> bool {
    a.0 < b.0 || (a.0 == b.0 && (a.1 < b.1 || (a.1 == b.1 && a.2 < b.2)))
}

pub open spec fn version_le(a: Version, b: Version) -> bool {
    a == b || version_lt(a, b)
}

/// A component of a version.
pub open spec fn component(parts: Seq<Seq<char>>, i: int) -> Option<nat> {
    if i < parts.len() {
        read_unsigned(parts[i], u32::MAX as nat)
    } else {
        Some(0)
    }
}

/// One to three numbers between dots; the missing ones are zero.
pub open spec fn read_version(raw: Seq<char>) -> Option<Version> {
    let parts = split(trim(raw), '.');
    match (component(parts, 0), component(parts, 1), component(parts, 2)) {
        (Some(a), Some(b), Some(c)) => if parts.len() <= 3 {
            Some(Version(a as u32, b as u32, c as u32))
        } else {
            None
        },
        _ => None,
    }
}

pub open spec fn version_text(v: Version) -> Seq<char> {
    dec(v.0 as nat) + "."@ + dec(v.1 as nat) + "."@ + dec(v.2 as nat)
}

fn component_of(parts: &Vec<String>, i: usize) -> (r: Option<u32>)
    ensures
        match r {
            Some(n) => component(texts(parts@), i as int) == Some(n as nat),
            None => component(texts(parts@), i as int) is None,
        },
{
    if i < parts.len() {
        match parse_unsigned(parts[i].as_str(), u32::MAX as u64) {
            Some(n) => Some(n as u32),
            None => None,
        }
    } else {
        Some(0)
    }
}

impl Version {
    pub fn parse(raw: &str) -> (r: Option<Self>)
        ensures
            r == read_version(raw@),
    {
        let parts = pieces(trimmed(raw), '.');
        if parts.len() > 3 {
            return None;
        }
        match (component_of(&parts, 0), component_of(&parts, 1), component_of(&parts, 2)) {
            (Some(a), Some(b), Some(c)) => Some(Version(a, b, c)),
            _ => None,
        }
    }

    pub fn to_string(&self) -> (r: String)
        ensures
            r@ == version_text(*self),
    {
        let mut s = decimal(self.0 as u64);
        s.append(".");
        s.append(decimal(self.1 as u64).as_str());
        s.append(".");
        s.append(decimal(self.2 as u64).as_str());
        s
    }

    /// Strictly lower.
    pub fn below(&self, other: &Self) -> (r: bool)
        ensures
            r == version_lt(*self, *other),
    {
        self.0 < other.0 || (self.0 == other.0 && (self.1 < other.1 || (self.1 == other.1 && self.2
            < other.2)))
    }
}

/// The number of the compiler that `rustc --version` names: its second word, up to
/// the channel suffix.
pub open spec fn rustc_version(text: Seq<char>) -> Option<Version> {
    let ws = words(text);
    if ws.len() < 2 {
        None
    } else {
        read_version(until(ws[1], |c: char| c == '-' || c == ' '))
    }
}

/// `rustc 1.98.0-nightly (0123 … 2026-06-15)` gives `1.98.0`. The channel suffix
/// cannot reach [`Version::parse`], and two nightlies of the same number do not
/// agree on enough for a comparison to mean anything anyway.
pub fn parse_rustc_version(text: &str) -> (r: Option<Version>)
    ensures
        r == rustc_version(text@),
{
    let ws = split_words(text);
    if ws.len() < 2 {
        return None;
    }
    let v = crate::text::chars(ws[1].as_str());
    let mut at: usize = 0;
    let ghost stop = |c: char| c == '-' || c == ' ';
    while at < v.len() && v[at] != '-' && v[at] != ' '
        invariant
            at <= v@.len(),
            stop == (|c: char| c == '-' || c == ' '),
            forall|j: int| 0 <= j < at ==> !stop(#[trigger] v@[j]),
        decreases v@.len() - at,
    {
        at = at + 1;
    }
    proof {
        until_is_take(v@, stop, at as int);
        assert(v@.subrange(0, at as int) =~= v@.take(at as int));
        assert(texts(ws@)[1] == ws@[1]@);
    }
    Version::parse(crate::text::text_of(&v, 0, at).as_str())
}

/// The cargo command line that builds with exactly a toolchain.
pub open spec fn cargo_line(toolchain: Version, active: Option<Version>) -> Seq<Seq<char>> {
    if toolchain != Version(0, 0, 0) && active != Some(toolchain) {
        seq!["cargo"@, "+"@ + version_text(toolchain)]
    } else {
        seq!["cargo"@]
    }
}

/// The cargo command that builds with exactly `toolchain`: plain cargo when it is
/// already the active one or unconstrained, else rustup's `cargo +<version>`
/// proxy. The run header records the resolved version, so the build must use
/// exactly it.
pub fn cargo(toolchain: &Version, active: Option<Version>) -> (r: Vec<String>)
    ensures
        texts(r@) == cargo_line(*toolchain, active),
{
    let mut r: Vec<String> = Vec::new();
    r.push("cargo".to_owned());
    let current = match active {
        Some(v) => v == *toolchain,
        None => false,
    };
    if *toolchain != Version(0, 0, 0) && !current {
        let mut a = "+".to_owned();
        a.append(toolchain.to_string().as_str());
        r.push(a);
    }
    assert(texts(r@) =~= cargo_line(*toolchain, active));
    r
}

// ---------------------------------------------------------------- resolution

/// A subject and the lowest rustc it builds with, if it names one.
pub type Floor = (String, Option<String>);

pub open spec fn floors_of(v: Seq<Floor>) -> Seq<(Seq<char>, Option<Seq<char>>)> {
    Seq::new(v.len(), |i: int| (v[i].0@, option_text(v[i].1)))
}

/// The highest floor and the first subject that has it; or the first floor that is
/// no version.
pub open spec fn highest_floor(floors: Seq<(Seq<char>, Option<Seq<char>>)>) -> Result<
    Option<(Version, Seq<char>)>,
    ManifestErrorV,
>
    decreases floors.len(),
{
    if floors.len() == 0 {
        Ok(None)
    } else {
        match highest_floor(floors.drop_last()) {
            Err(e) => Err(e),
            Ok(best) => match floors.last().1 {
                None => Ok(best),
                Some(raw) => match read_version(raw) {
                    None => Err(
                        ManifestErrorV::UnknownKey {
                            subject: floors.last().0,
                            key: "min_rustc: cannot parse `"@ + raw + "`"@,
                        },
                    ),
                    Some(v) => match best {
                        Some(b) => if version_lt(b.0, v) {
                            Ok(Some((v, floors.last().0)))
                        } else {
                            Ok(best)
                        },
                        None => Ok(Some((v, floors.last().0))),
                    },
                },
            },
        }
    }
}

/// The toolchain that floors and an optional pin resolve to.
pub open spec fn resolution(
    floors: Seq<(Seq<char>, Option<Seq<char>>)>,
    pinned: Option<Seq<char>>,
) -> Result<Version, ManifestErrorV> {
    match highest_floor(floors) {
        Err(e) => Err(e),
        Ok(best) => match pinned {
            None => match best {
                Some(b) => Ok(b.0),
                None => Ok(Version(0, 0, 0)),
            },
            Some(raw) => match read_version(raw) {
                None => Err(
                    ManifestErrorV::UnknownKey {
                        subject: "<--rustc>"@,
                        key: "cannot parse `"@ + raw + "`"@,
                    },
                ),
                Some(pin) => match best {
                    Some(b) => if version_lt(pin, b.0) {
                        Err(
                            ManifestErrorV::ToolchainBelowFloor {
                                subject: b.1,
                                floor: version_text(b.0),
                                pinned: version_text(pin),
                            },
                        )
                    } else {
                        Ok(pin)
                    },
                    None => Ok(pin),
                },
            },
        },
    }
}

/// A floor that cannot be read decides the error, whatever follows it.
proof fn floors_fail(floors: Seq<(Seq<char>, Option<Seq<char>>)>, i: int)
    requires
        0 <= i <= floors.len(),
        highest_floor(floors.take(i)) is Err,
    ensures
        highest_floor(floors) == highest_floor(floors.take(i)),
    decreases floors.len(),
{
    if i == floors.len() {
        assert(floors.take(i) =~= floors);
    } else {
        assert(floors.drop_last().take(i) =~= floors.take(i));
        floors_fail(floors.drop_last(), i);
    }
}

/// The toolchain a run should use.
///
/// Without a pin, it is the highest floor among selected subjects: the lowest
/// version that satisfies everyone. With a pin, the pin must clear every floor: a
/// pin below one is refused rather than dropping that subject, because a comparison
/// quietly missing a contender is worse than one that will not start.
pub fn resolve(floors: &Vec<Floor>, pinned: Option<&str>) -> (r: Result<Version, ManifestError>)
    ensures
        ({
            let want = resolution(
                floors_of(floors@),
                match pinned {
                    Some(p) => Some(p@),
                    None => None,
                },
            );
            match r {
                Ok(v) => want == Ok::<Version, ManifestErrorV>(v),
                Err(e) => want == Err::<Version, ManifestErrorV>(e@),
            }
        }),
{
    let ghost list = floors_of(floors@);
    let mut highest: Option<(Version, usize)> = None;
    let mut i: usize = 0;
    while i < floors.len()
        invariant
            i <= floors@.len(),
            list == floors_of(floors@),
            match highest {
                Some(h) => h.1 < floors@.len() && highest_floor(list.take(i as int)) == Ok::<
                    Option<(Version, Seq<char>)>,
                    ManifestErrorV,
                >(Some((h.0, floors@[h.1 as int].0@))),
                None => highest_floor(list.take(i as int)) == Ok::<
                    Option<(Version, Seq<char>)>,
                    ManifestErrorV,
                >(None),
            },
        decreases floors@.len() - i,
    {
        proof {
            let t = list.take(i + 1);
            assert(t.drop_last() =~= list.take(i as int));
            assert(t.last() == list[i as int]);
        }
        match &floors[i].1 {
            None => {},
            Some(raw) => match Version::parse(raw.as_str()) {
                None => {
                    let mut key = "min_rustc: cannot parse `".to_owned();
                    key.append(raw.as_str());
                    key.append("`");
                    proof {
                        floors_fail(list, i + 1);
                    }
                    return Err(ManifestError::UnknownKey { subject: floors[i].0.clone(), key });
                },
                Some(version) => {
                    let higher = match highest {
                        Some(h) => h.0.below(&version),
                        None => true,
                    };
                    if higher {
                        highest = Some((version, i));
                    }
                },
            },
        }
        i = i + 1;
    }
    assert(list.take(floors@.len() as int) =~= list);
    match pinned {
        None => match highest {
            Some(h) => Ok(h.0),
            None => Ok(Version(0, 0, 0)),
        },
        Some(raw) => match Version::parse(raw) {
            None => {
                let mut key = "cannot parse `".to_owned();
                key.append(raw);
                key.append("`");
                Err(ManifestError::UnknownKey { subject: "<--rustc>".to_owned(), key })
            },
            Some(pin) => {
                if let Some(h) = highest {
                    if pin.below(&h.0) {
                        return Err(
                            ManifestError::ToolchainBelowFloor {
                                subject: floors[h.1].0.clone(),
                                floor: h.0.to_string(),
                                pinned: pin.to_string(),
                            },
                        );
                    }
                }
                Ok(pin)
            },
        },
    }
}

// ---------------------------------------------------------------- laws

/// The highest floor is at least every floor, and some subject declares it.
proof fn highest_floor_is_highest(
    floors: Seq<(Seq<char>, Option<Seq<char>>)>,
    best: Option<(Version, Seq<char>)>,
)
    requires
        highest_floor(floors) == Ok::<Option<(Version, Seq<char>)>, ManifestErrorV>(best),
    ensures
        forall|i: int|
            #![trigger floors[i]]
            0 <= i < floors.len() && floors[i].1 is Some ==> best is Some && read_version(
                floors[i].1->Some_0,
            ) is Some && version_le(read_version(floors[i].1->Some_0)->Some_0, best->Some_0.0),
        best is Some ==> exists|i: int|
            #![trigger floors[i]]
            0 <= i < floors.len() && floors[i].1 is Some && read_version(floors[i].1->Some_0)
                == Some(best->Some_0.0) && floors[i].0 == best->Some_0.1,
    decreases floors.len(),
{
    if floors.len() > 0 {
        let head = floors.drop_last();
        let before = highest_floor(head)->Ok_0;
        highest_floor_is_highest(head, before);
        assert forall|i: int| 0 <= i < floors.len() && (#[trigger] floors[i]).1 is Some implies best
            is Some && read_version(floors[i].1->Some_0) is Some && version_le(
            read_version(floors[i].1->Some_0)->Some_0,
            best->Some_0.0,
        ) by {
            if i < head.len() {
                assert(head[i] == floors[i]);
            }
        }
        if best is Some && before is Some && best == before {
            let i = choose|i: int|
                #![trigger head[i]]
                0 <= i < head.len() && head[i].1 is Some && read_version(head[i].1->Some_0)
                    == Some(before->Some_0.0) && head[i].0 == before->Some_0.1;
            assert(floors[i] == head[i]);
        } else if best is Some {
            assert(floors[floors.len() - 1].1 is Some);
        }
    }
}

/// The resolved toolchain clears every floor: no selected subject is built with
/// less than it asks for.
pub proof fn resolved_clears_every_floor(
    floors: Seq<(Seq<char>, Option<Seq<char>>)>,
    pinned: Option<Seq<char>>,
    v: Version,
    i: int,
)
    requires
        resolution(floors, pinned) == Ok::<Version, ManifestErrorV>(v),
        0 <= i < floors.len(),
        floors[i].1 is Some,
    ensures
        read_version(floors[i].1->Some_0) is Some,
        version_le(read_version(floors[i].1->Some_0)->Some_0, v),
{
    let best = highest_floor(floors)->Ok_0;
    highest_floor_is_highest(floors, best);
    assert(floors[i].1 is Some);
}

/// Without a pin the resolved toolchain is the lowest that clears every floor: it
/// is some subject's floor, or unconstrained where no subject names one.
pub proof fn unpinned_is_some_floor(floors: Seq<(Seq<char>, Option<Seq<char>>)>, v: Version)
    requires
        resolution(floors, None) == Ok::<Version, ManifestErrorV>(v),
    ensures
        v == Version(0, 0, 0) || exists|i: int|
            #![trigger floors[i]]
            0 <= i < floors.len() && floors[i].1 is Some && read_version(floors[i].1->Some_0)
                == Some(v),
{
    let best = highest_floor(floors)->Ok_0;
    highest_floor_is_highest(floors, best);
}

/// A pin that reads and clears every floor is the toolchain; one that is below some
/// floor is refused.
pub proof fn pins_are_kept_or_refused(
    floors: Seq<(Seq<char>, Option<Seq<char>>)>,
    raw: Seq<char>,
    i: int,
)
    requires
        highest_floor(floors) is Ok,
        read_version(raw) is Some,
    ensures
        resolution(floors, Some(raw)) is Ok ==> resolution(floors, Some(raw)) == Ok::<
            Version,
            ManifestErrorV,
        >(read_version(raw)->Some_0),
        0 <= i < floors.len() && floors[i].1 is Some && version_lt(
            read_version(raw)->Some_0,
            read_version(floors[i].1->Some_0)->Some_0,
        ) ==> resolution(floors, Some(raw)) matches Err(ManifestErrorV::ToolchainBelowFloor { .. }),
{
    let best = highest_floor(floors)->Ok_0;
    highest_floor_is_highest(floors, best);
    if 0 <= i < floors.len() {
        assert(floors[i] == floors[i]);
    }
}

/// Versions are ordered by number, not by text: 1.100.0 is above 1.89.0.
pub proof fn versions_order_by_number(a: Version, b: Version)
    ensures
        version_lt(a, b) || version_lt(b, a) || a == b,
        version_lt(a, b) ==> !version_lt(b, a) && a != b,
        a.0 == b.0 && a.1 < b.1 ==> version_lt(a, b),
{
}

proof fn number_between_dots(n: nat)
    requires
        n <= u32::MAX,
    ensures
        read_unsigned(dec(n), u32::MAX as nat) == Some(n),
        dec(n).len() > 0,
        !dec(n).contains('.'),
        !is_space(dec(n)[0]) && !is_space(dec(n).last()),
{
    decimal_reads_back(n);
    let d = dec(n);
    assert(is_digit(d[0]) && is_digit(d[d.len() - 1]));
    if d.contains('.') {
        let i = choose|i: int| 0 <= i < d.len() && d[i] == '.';
        assert(is_digit(d[i]));
    }
}

/// A version that is written, as in a run's header, is read back.
pub proof fn versions_read_back(v: Version)
    ensures
        read_version(version_text(v)) == Some(v),
{
    reveal_strlit(".");
    let parts = seq![dec(v.0 as nat), dec(v.1 as nat), dec(v.2 as nat)];
    let t = version_text(v);
    number_between_dots(v.0 as nat);
    number_between_dots(v.1 as nat);
    number_between_dots(v.2 as nat);
    assert("."@ =~= seq!['.']);
    assert(parts.drop_last() =~= seq![dec(v.0 as nat), dec(v.1 as nat)]);
    assert(parts.drop_last().drop_last() =~= seq![dec(v.0 as nat)]);
    reveal_with_fuel(join, 3);
    assert(join(parts, seq!['.']) =~= t);
    assert(t[0] == dec(v.0 as nat)[0]);
    assert(t.last() == dec(v.2 as nat).last());
    trimmed_already(t);
    split_of_join(parts, '.');
}

} // verus!
