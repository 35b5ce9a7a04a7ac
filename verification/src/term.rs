//! What a terminal's answers mean.

use crate::text::{
    ends_with, parse_unsigned, pieces, read_unsigned, split, strip_prefix, texts, trim_end_matches,
    without_trailing,
};
use vstd::prelude::*;

verus! {

/// Asks for the cell size (XTWINOPS).
pub const CELL_QUERY: &'static str = "\x1b[16t";

/// The numbers among some texts.
pub open spec fn numbers_in(parts: Seq<Seq<char>>) -> Seq<u32>
    decreases parts.len(),
{
    if parts.len() == 0 {
        Seq::empty()
    } else {
        let found = numbers_in(parts.drop_last());
        match read_unsigned(parts.last(), u32::MAX as nat) {
            Some(n) => found.push(n as u32),
            None => found,
        }
    }
}

/// The cell size that a response reports, `CSI 6 ; <height> ; <width> t`, as width
/// and height; a conventional 10x20 cell where it reports none.
pub open spec fn reported_size(response: Option<Seq<char>>) -> (u32, u32) {
    match response {
        Some(s) => if "\x1b[6;"@.is_prefix_of(s) {
            let nums = numbers_in(
                split(without_trailing(s.skip("\x1b[6;"@.len() as int), 't'), ';'),
            );
            if nums.len() == 2 && nums[0] > 0 && nums[1] > 0 {
                (nums[1], nums[0])
            } else {
                (10, 20)
            }
        } else {
            (10, 20)
        },
        None => (10, 20),
    }
}

fn read_numbers(parts: &Vec<String>) -> (r: Vec<u32>)
    ensures
        r@ == numbers_in(texts(parts@)),
{
    let ghost all = texts(parts@);
    let mut out: Vec<u32> = Vec::new();
    let mut i: usize = 0;
    assert(out@ =~= numbers_in(all.take(0)));
    while i < parts.len()
        invariant
            i <= parts@.len(),
            all == texts(parts@),
            out@ == numbers_in(all.take(i as int)),
        decreases parts@.len() - i,
    {
        proof {
            assert(all.take(i + 1).drop_last() =~= all.take(i as int));
            assert(all.take(i + 1).last() == parts@[i as int]@);
        }
        match parse_unsigned(parts[i].as_str(), u32::MAX as u64) {
            Some(n) => {
                out.push(n as u32);
            },
            None => {},
        }
        i = i + 1;
    }
    assert(all.take(i as int) =~= all);
    out
}

/// The terminal's cell size in pixels, width and height, from its answer to
/// [`CELL_QUERY`]. Falls back to a conventional cell when the terminal did not answer
/// (piped output, odd emulators).
pub fn cell_size(response: Option<&str>) -> (r: (u32, u32))
    ensures
        r == reported_size(
            match response {
                Some(s) => Some(s@),
                None => None,
            },
        ),
{
    let response = match response {
        Some(s) => s,
        None => {
            return (10, 20);
        },
    };
    match strip_prefix(response, "\x1b[6;") {
        Some(rest) => {
            let nums = read_numbers(&pieces(trim_end_matches(rest, 't').as_str(), ';'));
            if nums.len() == 2 && nums[0] > 0 && nums[1] > 0 {
                return (nums[1], nums[0]);
            }
        },
        None => {},
    }
    (10, 20)
}

/// A cell is never empty, whatever a terminal answers.
pub proof fn cells_have_an_extent(response: Option<Seq<char>>)
    ensures
        reported_size(response).0 > 0,
        reported_size(response).1 > 0,
{
}

/// Whether a terminal has said everything: the answer to the device-attributes
/// request, the last that was asked, ends in `c`.
pub fn is_complete(response: &str) -> (r: bool)
    ensures
        r == "c"@.is_suffix_of(response@),
{
    ends_with(response, "c")
}

} // verus!
