//! Where a chart's marks stand, in pixels: bars, whiskers and the legend.

use vstd::prelude::*;
use vstd::utf8::encode_utf8;

verus! {

// ---------------------------------------------------------------- bars

/// Where a bar and its two labels stand.
#[derive(Clone, Copy, Debug, PartialEq, Eq)]
pub struct BarMarks {
    /// The bar: a corner at its floor and the opposite one at its height.
    pub foot: (i32, i32),
    pub head: (i32, i32),
    /// Where its value is written, above it.
    pub value_at: (i32, i32),
    /// Where its name is written, below it.
    pub name_at: (i32, i32),
}

pub open spec fn in_pixels(n: int) -> bool {
    i32::MIN <= n <= i32::MAX
}

/// The marks of a bar that stands at `x` on the floor and reaches `y`, `half` a bar to
/// each side.
pub fn bar_marks(x: i32, y: i32, floor: i32, half: i32, label_size: i32) -> (r: BarMarks)
    requires
        label_size >= 0,
        in_pixels(x - half),
        in_pixels(x + half),
        in_pixels(y - label_size - 4),
        in_pixels(floor + label_size / 2 + 4),
    ensures
        r == (BarMarks {
            foot: ((x - half) as i32, floor),
            head: ((x + half) as i32, y),
            value_at: (x, (y - label_size - 4) as i32),
            name_at: (x, (floor + label_size / 2 + 4) as i32),
        }),
{
    BarMarks {
        foot: (x - half, floor),
        head: (x + half, y),
        value_at: (x, y - label_size - 4),
        name_at: (x, floor + label_size / 2 + 4),
    }
}

/// The ends of a whisker from the upper to the lower: pixels grow downwards, and the
/// bounds come in either order. No whisker without both bounds.
pub fn whisker(lower: Option<i32>, upper: Option<i32>) -> (r: Option<(i32, i32)>)
    ensures
        r == (match (lower, upper) {
            (Some(a), Some(b)) => Some(
                if a <= b {
                    (a, b)
                } else {
                    (b, a)
                },
            ),
            _ => None::<(i32, i32)>,
        }),
{
    match (lower, upper) {
        (Some(a), Some(b)) => Some(
            if a <= b {
                (a, b)
            } else {
                (b, a)
            },
        ),
        _ => None,
    }
}

// ---------------------------------------------------------------- the legend

/// A line of the legend: its swatch and where its name is written.
#[derive(Clone, Copy, Debug, PartialEq, Eq)]
pub struct LegendRow {
    pub swatch: ((i32, i32), (i32, i32)),
    pub name_at: (i32, i32),
}

/// The legend: its box, and a line for each series.
#[derive(Debug)]
pub struct Legend {
    pub left: i32,
    pub top: i32,
    pub right: i32,
    pub bottom: i32,
    pub rows: Vec<LegendRow>,
}

/// The length of the longest name, in bytes.
pub open spec fn longest(names: Seq<String>) -> nat
    decreases names.len(),
{
    if names.len() == 0 {
        0
    } else {
        let rest = longest(names.drop_last());
        let last = encode_utf8(names.last()@).len();
        if last > rest {
            last
        } else {
            rest
        }
    }
}

/// How wide the legend is: as wide as its longest name, or as a name of eight letters
/// where there is none.
pub open spec fn legend_width(names: Seq<String>, label_size: int) -> int {
    (if names.len() == 0 {
        8int
    } else {
        longest(names) as int
    }) * (label_size / 2) + (label_size + 8) * 2
}

pub open spec fn legend_height(rows: int, label_size: int) -> int {
    rows * (label_size + 8) + 12
}

/// The legend's place: at the right end, below the title.
pub open spec fn legend_box(names: Seq<String>, label_size: int, title_size: int, end: int) -> (
    int,
    int,
    int,
    int,
) {
    let left = end - legend_width(names, label_size) - 8;
    (
        left,
        title_size + 12,
        left + legend_width(names, label_size),
        title_size + 12 + legend_height(names.len() as int, label_size),
    )
}

/// The middle of a line of a legend that starts at `top`.
pub open spec fn row_middle(top: int, label_size: int, i: int) -> int {
    top + 8 + i * (label_size + 8) + (label_size + 8) / 2
}

/// A line of a legend that starts at `left` and `top`.
pub open spec fn is_row(row: LegendRow, left: int, top: int, label_size: int, i: int) -> bool {
    let y = row_middle(top, label_size, i);
    &&& row.swatch.0.0 == left + 8 && row.swatch.0.1 == y - 5
    &&& row.swatch.1.0 == left + 22 && row.swatch.1.1 == y + 5
    &&& row.name_at.0 == left + 28 && row.name_at.1 == y - label_size / 2
}

/// The lines of a legend stand inside its box, one below the other.
pub proof fn rows_stay_in_the_box(
    names: Seq<String>,
    label_size: int,
    title_size: int,
    end: int,
    i: int,
)
    requires
        label_size >= 10,
        0 <= i < names.len(),
    ensures
        ({
            let b = legend_box(names, label_size, title_size, end);
            let y = row_middle(b.1, label_size, i);
            &&& b.0 + 28 < b.2
            &&& b.1 < y - 5 && b.1 < y - label_size / 2
            &&& y + 5 < b.3
            &&& y + 5 < row_middle(b.1, label_size, i + 1) - 5
        }),
{
    let n = names.len() as int;
    let line = label_size + 8;
    assert((i + 1) * line == i * line + line) by (nonlinear_arith);
    assert(0 <= i * line && (i + 1) * line <= n * line) by (nonlinear_arith)
        requires
            0 <= i < n,
            line >= 0,
    ;
    let letters = longest(names) as int;
    let half = label_size / 2;
    assert(0 <= letters * half) by (nonlinear_arith)
        requires
            letters >= 0,
            half >= 0,
    ;
}

fn longest_of(names: &Vec<String>) -> (r: usize)
    ensures
        r == longest(names@),
{
    let mut most: usize = 0;
    let mut i: usize = 0;
    assert(names@.take(0) =~= Seq::empty());
    while i < names.len()
        invariant
            i <= names@.len(),
            most == longest(names@.take(i as int)),
        decreases names@.len() - i,
    {
        proof {
            let t = names@.take(i + 1);
            assert(t.drop_last() =~= names@.take(i as int));
            assert(t.last() == names@[i as int]);
        }
        let n = names[i].as_str().as_bytes().len();
        if n > most {
            most = n;
        }
        i = i + 1;
    }
    assert(names@.take(names@.len() as int) =~= names@);
    most
}

fn rows_from(names: &Vec<String>, left: i32, top: i32, label_size: i32) -> (r: Vec<LegendRow>)
    requires
        label_size >= 10,
        in_pixels(label_size + 8),
        in_pixels(left + 28),
        in_pixels(top + legend_height(names@.len() as int, label_size as int)),
    ensures
        r@.len() == names@.len(),
        forall|i: int|
            0 <= i < r@.len() ==> is_row(
                #[trigger] r@[i],
                left as int,
                top as int,
                label_size as int,
                i,
            ),
{
    let line: i32 = label_size + 8;
    let mut rows: Vec<LegendRow> = Vec::new();
    let mut i: usize = 0;
    let mut at: i64 = top as i64 + 8;
    while i < names.len()
        invariant
            i <= names@.len(),
            line == label_size + 8,
            label_size >= 10,
            in_pixels(left + 28),
            in_pixels(top + legend_height(names@.len() as int, label_size as int)),
            at == top + 8 + i * line,
            rows@.len() == i,
            forall|j: int|
                0 <= j < i ==> is_row(
                    #[trigger] rows@[j],
                    left as int,
                    top as int,
                    label_size as int,
                    j,
                ),
        decreases names@.len() - i,
    {
        proof {
            let n = names@.len() as int;
            let k = i as int;
            let l = line as int;
            assert(0 <= k * l && (k + 1) * l <= n * l && (k + 1) * l == k * l + l)
                by (nonlinear_arith)
                requires
                    0 <= k < n,
                    l >= 0,
            ;
        }
        let y: i32 = (at + (line / 2) as i64) as i32;
        rows.push(
            LegendRow {
                swatch: ((left + 8, y - 5), (left + 22, y + 5)),
                name_at: (left + 28, y - label_size / 2),
            },
        );
        at = at + line as i64;
        i = i + 1;
    }
    rows
}

/// The legend on a canvas that ends at `end`. Where the canvas has no room for it, in
/// that a corner of its box is no pixel number, there is none.
pub fn legend(names: &Vec<String>, label_size: i32, title_size: i32, end: i32) -> (r: Option<
    Legend,
>)
    requires
        label_size >= 10,
    ensures
        ({
            let b = legend_box(names@, label_size as int, title_size as int, end as int);
            &&& r is Some <==> in_pixels(b.0) && in_pixels(b.1) && in_pixels(b.2) && in_pixels(b.3)
                && in_pixels(label_size + 8)
            &&& r matches Some(l) ==> {
                &&& (l.left as int, l.top as int, l.right as int, l.bottom as int) == b
                &&& l.rows@.len() == names@.len()
                &&& forall|i: int|
                    0 <= i < l.rows@.len() ==> is_row(
                        #[trigger] l.rows@[i],
                        b.0,
                        b.1,
                        label_size as int,
                        i,
                    )
            }
        }),
{
    let most = longest_of(names);
    let letters: usize = if names.len() == 0 {
        8
    } else {
        most
    };
    let half: i32 = label_size / 2;
    let line: i128 = label_size as i128 + 8;
    proof {
        assert(0 <= letters * half <= 0x1_0000_0000_0000_0000 * 0x8000_0000) by (nonlinear_arith)
            requires
                0 <= letters <= 0xffff_ffff_ffff_ffff,
                0 <= half < 0x8000_0000,
        ;
        let n = names@.len() as int;
        let l = line as int;
        assert(0 <= n * l <= 0x1_0000_0000_0000_0000 * 0x1_0000_0000) by (nonlinear_arith)
            requires
                0 <= n <= 0xffff_ffff_ffff_ffff,
                0 <= l < 0x1_0000_0000,
        ;
    }
    let width: i128 = letters as i128 * half as i128 + line * 2;
    let height: i128 = names.len() as i128 * line + 12;
    assert(width == legend_width(names@, label_size as int));
    assert(height == legend_height(names@.len() as int, label_size as int));
    let left: i128 = end as i128 - width - 8;
    let top: i128 = title_size as i128 + 12;
    let right: i128 = left + width;
    let bottom: i128 = top + height;
    let low: i128 = i32::MIN as i128;
    let high: i128 = i32::MAX as i128;
    if left < low || left > high || top < low || top > high || right < low || right > high || bottom
        < low || bottom > high || line > high {
        return None;
    }
    Some(
        Legend {
            left: left as i32,
            top: top as i32,
            right: right as i32,
            bottom: bottom as i32,
            rows: rows_from(names, left as i32, top as i32, label_size),
        },
    )
}

} // verus!
