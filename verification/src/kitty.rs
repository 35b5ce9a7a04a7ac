//! The kitty graphics protocol: a capability probe and chunked transmission of a
//! rendered chart.
//!
//! Each chunk is `ESC _ G <controls>;<base64 payload> ESC \`, with the payload split
//! into base64 chunks of at most 4096 bytes; the first chunk carries the image
//! controls (`f=24` RGB, `s`/`v` the pixel size, `a=T` transmit and display, `C=1` to
//! keep the cursor, `q=2` to suppress responses, `c`/`r` the cell box to reserve) and
//! `m=1` stands on every chunk but the last.

use crate::text::{contains, contains_text, dec, decimal, same};
use vstd::prelude::*;

verus! {

pub const CHUNK: usize = 4096;

/// Asks for a tiny image, then for the primary device attributes.
pub const PROBE: &'static str = "\x1b_Gi=31,s=1,v=1,a=q,t=d,f=24;AAAA\x1b\\\x1b[c";

// ---------------------------------------------------------------- base64

/// The symbol of a six-bit number.
#[verifier::opaque]
pub open spec fn symbol64(d: nat) -> u8 {
    if d < 26 {
        (65 + d) as u8
    } else if d < 52 {
        (71 + d) as u8
    } else if d < 62 {
        (d - 4) as u8
    } else if d == 62 {
        43
    } else {
        47
    }
}

/// Up to three bytes as one number, as if the missing ones were zero.
pub open spec fn group_value(group: Seq<u8>) -> nat {
    (group[0] as nat) * 0x1_0000 + (if group.len() > 1 {
        (group[1] as nat) * 0x100
    } else {
        0
    }) + (if group.len() > 2 {
        group[2] as nat
    } else {
        0
    })
}

/// Four symbols for up to three bytes; `=` stands for what is missing.
pub open spec fn group64(group: Seq<u8>) -> Seq<u8> {
    let v = group_value(group);
    seq![
        symbol64(v / 0x4_0000),
        symbol64(v / 0x1000 % 64),
        if group.len() > 1 {
            symbol64(v / 64 % 64)
        } else {
            61
        },
        if group.len() > 2 {
            symbol64(v % 64)
        } else {
            61
        },
    ]
}

/// Standard base64.
pub open spec fn encoded(data: Seq<u8>) -> Seq<u8>
    decreases data.len(),
{
    if data.len() == 0 {
        Seq::empty()
    } else if data.len() <= 3 {
        group64(data)
    } else {
        group64(data.take(3)) + encoded(data.skip(3))
    }
}

fn symbol_for(d: u32) -> (r: u8)
    requires
        d < 64,
    ensures
        r == symbol64(d as nat),
{
    proof {
        reveal(symbol64);
    }
    if d < 26 {
        (65 + d) as u8
    } else if d < 52 {
        (71 + d) as u8
    } else if d < 62 {
        (d - 4) as u8
    } else if d == 62 {
        43
    } else {
        47
    }
}

/// Standard base64.
pub fn base64(data: &Vec<u8>) -> (r: Vec<u8>)
    ensures
        r@ == encoded(data@),
{
    let n: usize = data.len();
    let mut out: Vec<u8> = Vec::new();
    let mut i: usize = 0;
    assert(data@.skip(0) =~= data@);
    assert(out@ + encoded(data@) =~= encoded(data@));
    while i < n
        invariant
            i <= n == data@.len(),
            out@ + encoded(data@.skip(i as int)) == encoded(data@),
        decreases n - i,
    {
        let ghost rest = data@.skip(i as int);
        let ghost before = out@;
        let two = n - i > 1;
        let three = n - i > 2;
        let b0 = data[i] as u32;
        let b1 = if two {
            data[i + 1] as u32
        } else {
            0
        };
        let b2 = if three {
            data[i + 2] as u32
        } else {
            0
        };
        let v: u32 = b0 * 0x1_0000 + b1 * 0x100 + b2;
        let ghost group = if three {
            rest.take(3)
        } else {
            rest
        };
        assert(v == group_value(group));
        out.push(symbol_for(v / 0x4_0000));
        out.push(symbol_for(v / 0x1000 % 64));
        out.push(
            if two {
                symbol_for(v / 64 % 64)
            } else {
                61
            },
        );
        out.push(
            if three {
                symbol_for(v % 64)
            } else {
                61
            },
        );
        assert(out@ =~= before + group64(group));
        if three {
            proof {
                assert(rest.skip(3) =~= data@.skip(i + 3));
                if rest.len() == 3 {
                    assert(rest.take(3) =~= rest);
                    assert(encoded(rest.skip(3)) =~= Seq::empty());
                }
                assert(encoded(rest) =~= group64(group) + encoded(rest.skip(3)));
                assert(before + (group64(group) + encoded(rest.skip(3))) =~= before + group64(group)
                    + encoded(rest.skip(3)));
            }
            i = i + 3;
        } else {
            proof {
                assert(data@.skip(n as int) =~= Seq::empty());
                assert(out@ + encoded(data@.skip(n as int)) =~= out@);
            }
            i = n;
        }
    }
    proof {
        assert(data@.skip(n as int) =~= Seq::empty());
        assert(out@ + encoded(data@.skip(n as int)) =~= out@);
    }
    out
}

/// The number that a symbol stands for.
#[verifier::opaque]
pub open spec fn value64(c: u8) -> nat {
    if 65 <= c <= 90 {
        (c - 65) as nat
    } else if 97 <= c <= 122 {
        (c - 71) as nat
    } else if 48 <= c <= 57 {
        (c + 4) as nat
    } else if c == 43 {
        62
    } else {
        63
    }
}

/// The bytes of four symbols.
pub open spec fn group_bytes(s: Seq<u8>) -> Seq<u8> {
    let v = value64(s[0]) * 0x4_0000 + value64(s[1]) * 0x1000 + (if s[2] == 61 {
        0
    } else {
        value64(s[2]) * 64
    }) + (if s[3] == 61 {
        0
    } else {
        value64(s[3])
    });
    if s[2] == 61 {
        seq![(v / 0x1_0000) as u8]
    } else if s[3] == 61 {
        seq![(v / 0x1_0000) as u8, (v / 0x100 % 0x100) as u8]
    } else {
        seq![(v / 0x1_0000) as u8, (v / 0x100 % 0x100) as u8, (v % 0x100) as u8]
    }
}

/// What base64 symbols stand for.
pub open spec fn decoded(s: Seq<u8>) -> Seq<u8>
    decreases s.len(),
{
    if s.len() < 4 {
        Seq::empty()
    } else {
        group_bytes(s.take(4)) + decoded(s.skip(4))
    }
}

proof fn symbol_tells(d: nat)
    requires
        d < 64,
    ensures
        value64(symbol64(d)) == d,
        symbol64(d) != 61,
        symbol64(d) < 128,
{
    reveal(symbol64);
    reveal(value64);
}

proof fn sixths(v: nat)
    requires
        v < 0x100_0000,
    ensures
        v / 0x4_0000 < 64,
        v == (v / 0x4_0000) * 0x4_0000 + (v / 0x1000 % 64) * 0x1000 + (v / 64 % 64) * 64 + v % 64,
{
}

proof fn thirds(a: nat, b: nat, c: nat)
    requires
        a < 0x100,
        b < 0x100,
        c < 0x100,
    ensures
        ({
            let v = a * 0x1_0000 + b * 0x100 + c;
            &&& v < 0x100_0000
            &&& v / 0x1_0000 == a
            &&& v / 0x100 % 0x100 == b
            &&& v % 0x100 == c
            &&& c == 0 ==> v % 64 == 0
            &&& b == 0 && c == 0 ==> v / 64 % 64 == 0
        }),
{
}

proof fn group_round_trips(group: Seq<u8>)
    requires
        1 <= group.len() <= 3,
    ensures
        group_bytes(group64(group)) == group,
{
    let v = group_value(group);
    let s = group64(group);
    let one = if group.len() > 1 {
        group[1] as nat
    } else {
        0
    };
    let two = if group.len() > 2 {
        group[2] as nat
    } else {
        0
    };
    thirds(group[0] as nat, one, two);
    sixths(v);
    symbol_tells(v / 0x4_0000);
    symbol_tells(v / 0x1000 % 64);
    symbol_tells(v / 64 % 64);
    symbol_tells(v % 64);
    assert(group_bytes(s) =~= group);
}

/// Decoding gives back what was encoded.
pub proof fn base64_reads_back(data: Seq<u8>)
    ensures
        decoded(encoded(data)) == data,
    decreases data.len(),
{
    if data.len() == 0 {
        assert(data =~= Seq::empty());
    } else if data.len() <= 3 {
        let s = encoded(data);
        group_round_trips(data);
        assert(s.take(4) =~= s);
        assert(s.skip(4) =~= Seq::empty());
        assert(decoded(s.skip(4)) =~= Seq::empty());
        assert(decoded(s) == group_bytes(s) + decoded(s.skip(4)));
        assert(decoded(s) =~= data);
    } else {
        let s = encoded(data);
        let head = group64(data.take(3));
        let tail = encoded(data.skip(3));
        group_round_trips(data.take(3));
        base64_reads_back(data.skip(3));
        assert(head.len() == 4);
        assert(s == head + tail);
        assert(s.take(4) =~= head);
        assert(s.skip(4) =~= tail);
        assert(data.take(3) + data.skip(3) =~= data);
    }
}

proof fn group_is_ascii(group: Seq<u8>)
    requires
        1 <= group.len() <= 3,
    ensures
        group64(group).len() == 4,
        forall|i: int| 0 <= i < 4 ==> #[trigger] group64(group)[i] < 128,
{
    let v = group_value(group);
    assert(v < 0x100_0000);
    sixths(v);
    symbol_tells(v / 0x4_0000);
    symbol_tells(v / 0x1000 % 64);
    symbol_tells(v / 64 % 64);
    symbol_tells(v % 64);
}

/// Four symbols for every three bytes begun, each of them plain ASCII.
pub proof fn base64_shape(data: Seq<u8>)
    ensures
        encoded(data).len() == (data.len() + 2) / 3 * 4,
        forall|i: int| 0 <= i < encoded(data).len() ==> #[trigger] encoded(data)[i] < 128,
    decreases data.len(),
{
    if data.len() > 3 {
        group_is_ascii(data.take(3));
        base64_shape(data.skip(3));
    } else if data.len() > 0 {
        group_is_ascii(data);
    }
}

// ---------------------------------------------------------------- images

/// A rendered RGB buffer plus the cell geometry it was sized for.
#[derive(Debug)]
pub struct Image {
    pub width: u32,
    pub height: u32,
    /// 3 bytes per pixel, row-major.
    pub rgb: Vec<u8>,
    pub cell_width_px: u32,
    pub cell_height_px: u32,
}

/// How many cells it takes to cover some pixels; at least one.
pub open spec fn cells_for(pixels: u32, cell: u32) -> int {
    if pixels == 0 {
        1
    } else {
        (pixels + cell - 1) / cell as int
    }
}

fn cover(pixels: u32, cell: u32) -> (r: u32)
    requires
        cell > 0,
    ensures
        r == cells_for(pixels, cell),
        r >= 1,
{
    if pixels == 0 {
        return 1;
    }
    let sum: u64 = pixels as u64 + cell as u64 - 1;
    let q: u64 = sum / cell as u64;
    proof {
        assert(1 <= q <= pixels) by (nonlinear_arith)
            requires
                q == sum / (cell as u64),
                sum == pixels + cell - 1,
                pixels > 0,
                cell > 0,
        ;
    }
    q as u32
}

impl Image {
    /// The image's footprint in terminal cells, columns and rows.
    pub fn cells(&self) -> (r: (u32, u32))
        requires
            self.cell_width_px > 0,
            self.cell_height_px > 0,
        ensures
            r.0 == cells_for(self.width, self.cell_width_px),
            r.1 == cells_for(self.height, self.cell_height_px),
    {
        (cover(self.width, self.cell_width_px), cover(self.height, self.cell_height_px))
    }
}

/// A footprint covers its image, and one column less would not.
pub proof fn footprints_are_tight(pixels: u32, cell: u32)
    requires
        cell > 0,
    ensures
        cells_for(pixels, cell) >= 1,
        cells_for(pixels, cell) * cell >= pixels,
        pixels > 0 ==> (cells_for(pixels, cell) - 1) * cell < pixels,
{
    let q = cells_for(pixels, cell);
    if pixels > 0 {
        assert(q >= 1 && q * cell >= pixels && (q - 1) * cell < pixels) by (nonlinear_arith)
            requires
                q == (pixels + cell - 1) / cell as int,
                pixels > 0,
                cell > 0,
        ;
    }
}

// ---------------------------------------------------------------- frames

pub open spec fn ascii(bytes: Seq<u8>) -> Seq<char> {
    Seq::new(bytes.len(), |i: int| bytes[i] as char)
}

pub open spec fn chunk_count(payload: Seq<u8>) -> int {
    (payload.len() as int + 4095) / 4096
}

pub open spec fn chunk_at(payload: Seq<u8>, i: int) -> Seq<u8> {
    payload.subrange(
        i * 4096,
        if (i + 1) * 4096 <= payload.len() {
            (i + 1) * 4096
        } else {
            payload.len() as int
        },
    )
}

pub open spec fn controls(image: Image, i: int, more: bool) -> Seq<char> {
    let flag = if more {
        "1"@
    } else {
        "0"@
    };
    if i == 0 {
        "a=T,f=24,s="@ + dec(image.width as nat) + ",v="@ + dec(image.height as nat) + ",c="@ + dec(
            cells_for(image.width, image.cell_width_px) as nat,
        ) + ",r="@ + dec(cells_for(image.height, image.cell_height_px) as nat) + ",q=2,C=1,m="@
            + flag
    } else {
        "m="@ + flag
    }
}

pub open spec fn frame(image: Image, i: int) -> Seq<char> {
    let payload = encoded(image.rgb@);
    "\x1b_G"@ + controls(image, i, i + 1 < chunk_count(payload)) + ";"@ + ascii(
        chunk_at(payload, i),
    ) + "\x1b\\"@
}

/// What transmits an image: one frame for each chunk of the payload.
pub open spec fn frames(image: Image) -> Seq<Seq<char>> {
    Seq::new(chunk_count(encoded(image.rgb@)) as nat, |i: int| frame(image, i))
}

fn controls_for(image: &Image, first: bool, more: bool, cols: u32, rows: u32) -> (r: String)
    requires
        cols == cells_for(image.width, image.cell_width_px),
        rows == cells_for(image.height, image.cell_height_px),
    ensures
        first ==> r@ == controls(*image, 0, more),
        !first ==> forall|i: int| i > 0 ==> r@ == #[trigger] controls(*image, i, more),
{
    let mut s;
    if first {
        s = "a=T,f=24,s=".to_owned();
        s.append(decimal(image.width as u64).as_str());
        s.append(",v=");
        s.append(decimal(image.height as u64).as_str());
        s.append(",c=");
        s.append(decimal(cols as u64).as_str());
        s.append(",r=");
        s.append(decimal(rows as u64).as_str());
        s.append(",q=2,C=1,m=");
    } else {
        s = "m=".to_owned();
    }
    s.append(
        if more {
            "1"
        } else {
            "0"
        },
    );
    s
}

fn ascii_text(bytes: &Vec<u8>, lo: usize, hi: usize) -> (r: String)
    requires
        lo <= hi <= bytes@.len(),
    ensures
        r@ == ascii(bytes@.subrange(lo as int, hi as int)),
{
    let mut s = String::new();
    let mut i: usize = lo;
    while i < hi
        invariant
            lo <= i <= hi <= bytes@.len(),
            s@.len() == i - lo,
            forall|j: int| 0 <= j < i - lo ==> #[trigger] s@[j] == bytes@[lo + j] as char,
        decreases hi - i,
    {
        s.push(bytes[i] as char);
        i = i + 1;
    }
    assert(s@ =~= ascii(bytes@.subrange(lo as int, hi as int)));
    s
}

/// The frames that transmit and display an image at the cursor.
pub fn transmission(image: &Image) -> (r: Vec<String>)
    requires
        image.cell_width_px > 0,
        image.cell_height_px > 0,
    ensures
        crate::text::texts(r@) == frames(*image),
{
    let (cols, rows) = image.cells();
    let payload = base64(&image.rgb);
    let n: usize = payload.len();
    let mut out: Vec<String> = Vec::new();
    let mut from: usize = 0;
    while from < n
        invariant
            n == payload@.len(),
            payload@ == encoded(image.rgb@),
            cols == cells_for(image.width, image.cell_width_px),
            rows == cells_for(image.height, image.cell_height_px),
            out@.len() * 4096 == from || (from == n && out@.len() == chunk_count(payload@)),
            from <= n,
            forall|j: int| 0 <= j < out@.len() ==> (#[trigger] out@[j])@ == frame(*image, j),
        decreases n - from,
    {
        let more = n - from > 4096;
        let upto: usize = if more {
            from + 4096
        } else {
            n
        };
        let ghost at = out@.len() as int;
        let mut s = "\x1b_G".to_owned();
        s.append(controls_for(image, from == 0, more, cols, rows).as_str());
        s.append(";");
        s.append(ascii_text(&payload, from, upto).as_str());
        s.append("\x1b\\");
        proof {
            assert(chunk_at(payload@, at) == payload@.subrange(from as int, upto as int));
            assert(more == (at + 1 < chunk_count(payload@)));
            assert(s@ == frame(*image, at));
        }
        out.push(s);
        from = upto;
    }
    proof {
        assert(out@.len() == chunk_count(payload@));
        assert(crate::text::texts(out@) =~= frames(*image));
    }
    out
}

/// What reserves the rows that an image occupies, so that following output lands
/// below it.
pub fn reserve(rows: u32) -> (r: String)
    ensures
        r@ == "\r\n\r"@ + Seq::new(
            if rows == 0 {
                1nat
            } else {
                rows as nat
            },
            |i: int| '\n',
        ),
{
    let mut s = "\r\n\r".to_owned();
    let ghost start = s@;
    let n: u32 = if rows == 0 {
        1
    } else {
        rows
    };
    let mut i: u32 = 0;
    assert(s@ =~= start + Seq::new(0nat, |j: int| '\n'));
    while i < n
        invariant
            i <= n,
            s@ == start + Seq::new(i as nat, |j: int| '\n'),
        decreases n - i,
    {
        s.push('\n');
        i = i + 1;
        assert(s@ =~= start + Seq::new(i as nat, |j: int| '\n'));
    }
    s
}

pub open spec fn first_chunks(payload: Seq<u8>, n: int) -> Seq<u8>
    decreases n,
{
    if n <= 0 {
        Seq::empty()
    } else {
        first_chunks(payload, n - 1) + chunk_at(payload, n - 1)
    }
}

proof fn first_chunks_are(payload: Seq<u8>, n: int)
    requires
        0 <= n < chunk_count(payload),
    ensures
        first_chunks(payload, n) == payload.take(n * 4096),
    decreases n,
{
    if n > 0 {
        first_chunks_are(payload, n - 1);
        assert(first_chunks(payload, n) =~= payload.take(n * 4096));
    } else {
        assert(payload.take(0) =~= Seq::empty());
    }
}

/// The chunks together are the payload, none of them empty and none above the limit.
pub proof fn chunks_make_the_payload(payload: Seq<u8>)
    ensures
        first_chunks(payload, chunk_count(payload)) == payload,
        forall|i: int|
            0 <= i < chunk_count(payload) ==> 0 < (#[trigger] chunk_at(payload, i)).len() <= 4096,
{
    let n = chunk_count(payload);
    if n > 0 {
        first_chunks_are(payload, n - 1);
        assert(first_chunks(payload, n) =~= payload);
    } else {
        assert(payload =~= Seq::empty());
    }
}

// ---------------------------------------------------------------- does the terminal speak it

/// The environment's hints about the terminal.
#[derive(Debug)]
pub struct TerminalHints {
    /// `KITTY_WINDOW_ID` is set.
    pub kitty_window: bool,
    /// `GHOSTTY_RESOURCES_DIR` is set.
    pub ghostty_resources: bool,
    /// `WEZTERM_EXECUTABLE` is set.
    pub wezterm_executable: bool,
    /// `TERMINAL_PROGRAM`
    pub program: Option<String>,
}

/// Is this terminal likely to speak the kitty graphics protocol? The fast path; the
/// escape probe is the authoritative check.
pub fn likely_supported(hints: &TerminalHints) -> (r: bool)
    ensures
        r == (hints.kitty_window || hints.ghostty_resources || hints.wezterm_executable || (
        hints.program matches Some(p) && (p@ == "WezTerm"@ || p@ == "ghostty"@ || p@ == "kitty"@))),
{
    hints.kitty_window || hints.ghostty_resources || hints.wezterm_executable
        || match &hints.program {
        Some(p) => same(p.as_str(), "WezTerm") || same(p.as_str(), "ghostty") || same(
            p.as_str(),
            "kitty",
        ),
        None => false,
    }
}

/// Whether a terminal's answer to [`PROBE`] says that it implements the graphics
/// protocol: one that answers the graphics query does.
pub fn probe(response: Option<&str>) -> (r: bool)
    ensures
        r == (response matches Some(s) && (contains_text(s@, "_Gi=31;OK"@) || contains_text(
            s@,
            "_Gi=31;i=31"@,
        ))),
{
    match response {
        Some(s) => contains(s, "_Gi=31;OK") || contains(s, "_Gi=31;i=31"),
        None => false,
    }
}

} // verus!
