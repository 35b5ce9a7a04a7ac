//! The dataset generator: binary points for a driver to consume. One generator,
//! every language reads its output.
//!
//! ```text
//! header: "SBDS" + u32 version(1) + u32 dims + u8 dtype + u64 tree_count
//!              + u64 query_count
//! body:   tree_count x dims x sizeof(dtype) bytes    (construction points)
//!         query_count x dims x sizeof(dtype) bytes   (query points)
//! ```
//!
//! Numbers are in the byte order of the machine, which they never leave. The random
//! stream is ChaCha with eight rounds, seeded from one number.

use crate::schema::{be_bytes32, be_bytes64};
use crate::text::{parse_unsigned, read_unsigned, same, texts};
use vstd::arithmetic::power2::{
    lemma2_to64, lemma2_to64_rest, lemma_pow2_adds, lemma_pow2_pos, lemma_pow2_strictly_increases,
    lemma_pow2_unfold, pow2,
};
use vstd::bits::lemma_u64_shl_is_mul;
use vstd::prelude::*;

verus! {

pub const VERSION: u32 = 1;

// ---------------------------------------------------------------- element types

#[derive(Clone, Copy, Debug, PartialEq, Eq, Structural)]
pub enum DType {
    F32,
    F64,
}

pub open spec fn dtype_named(s: Seq<char>) -> Option<DType> {
    if s == "f32"@ {
        Some(DType::F32)
    } else if s == "f64"@ {
        Some(DType::F64)
    } else {
        None
    }
}

impl DType {
    pub fn from_str(s: &str) -> (r: Option<Self>)
        ensures
            r == dtype_named(s@),
    {
        if same(s, "f32") {
            Some(DType::F32)
        } else if same(s, "f64") {
            Some(DType::F64)
        } else {
            None
        }
    }

    pub fn as_u8(&self) -> (r: u8)
        ensures
            r == (match *self {
                DType::F32 => 0u8,
                DType::F64 => 1u8,
            }),
    {
        match self {
            DType::F32 => 0,
            DType::F64 => 1,
        }
    }
}

/// How points are distributed.
#[derive(Clone, Copy, Debug, PartialEq, Eq, Structural)]
pub enum Kind {
    Uniform,
    Gaussian,
}

pub open spec fn kind_named(s: Seq<char>) -> Option<Kind> {
    if s == "uniform"@ {
        Some(Kind::Uniform)
    } else if s == "gaussian"@ {
        Some(Kind::Gaussian)
    } else {
        None
    }
}

impl Kind {
    pub fn from_str(s: &str) -> (r: Option<Self>)
        ensures
            r == kind_named(s@),
    {
        if same(s, "uniform") {
            Some(Kind::Uniform)
        } else if same(s, "gaussian") {
            Some(Kind::Gaussian)
        } else {
            None
        }
    }
}

// ---------------------------------------------------------------- the random stream

pub open spec fn turned_left(x: u32, n: u32) -> u32 {
    if n == 0 {
        x
    } else {
        (x << n) | (x >> ((32 - n) as u32))
    }
}

pub open spec fn turned_right(x: u32, n: u32) -> u32 {
    if n == 0 {
        x
    } else {
        (x >> n) | (x << ((32 - n) as u32))
    }
}

fn turn_left(x: u32, n: u32) -> (r: u32)
    requires
        n < 32,
    ensures
        r == turned_left(x, n),
{
    if n == 0 {
        x
    } else {
        (x << n) | (x >> (32 - n))
    }
}

fn turn_right(x: u32, n: u32) -> (r: u32)
    requires
        n < 32,
    ensures
        r == turned_right(x, n),
{
    if n == 0 {
        x
    } else {
        (x >> n) | (x << (32 - n))
    }
}

/// The states of the generator that expands a seed into a key.
pub open spec fn seed_state(seed: u64, n: nat) -> u64
    decreases n,
{
    if n == 0 {
        seed
    } else {
        seed_state(seed, (n - 1) as nat).wrapping_mul(6364136223846793005).wrapping_add(
            11634580027462260723,
        )
    }
}

/// What one state gives.
pub open spec fn seed_word(state: u64) -> u32 {
    turned_right((((state >> 18) ^ state) >> 27) as u32, (state >> 59) as u32)
}

/// The key of a seed: eight words, each from the next state.
pub open spec fn key_of(seed: u64) -> Seq<u32> {
    Seq::new(8, |i: int| seed_word(seed_state(seed, (i + 1) as nat)))
}

/// The quarter round of ChaCha on four of sixteen words.
pub open spec fn quarter_round(w: Seq<u32>, a: int, b: int, c: int, d: int) -> Seq<u32> {
    let w1 = w.update(a, w[a].wrapping_add(w[b]));
    let w2 = w1.update(d, turned_left(w1[d] ^ w1[a], 16));
    let w3 = w2.update(c, w2[c].wrapping_add(w2[d]));
    let w4 = w3.update(b, turned_left(w3[b] ^ w3[c], 12));
    let w5 = w4.update(a, w4[a].wrapping_add(w4[b]));
    let w6 = w5.update(d, turned_left(w5[d] ^ w5[a], 8));
    let w7 = w6.update(c, w6[c].wrapping_add(w6[d]));
    w7.update(b, turned_left(w7[b] ^ w7[c], 7))
}

/// A round over the columns and one over the diagonals.
pub open spec fn double_round(w: Seq<u32>) -> Seq<u32> {
    let w1 = quarter_round(w, 0, 4, 8, 12);
    let w2 = quarter_round(w1, 1, 5, 9, 13);
    let w3 = quarter_round(w2, 2, 6, 10, 14);
    let w4 = quarter_round(w3, 3, 7, 11, 15);
    let w5 = quarter_round(w4, 0, 5, 10, 15);
    let w6 = quarter_round(w5, 1, 6, 11, 12);
    let w7 = quarter_round(w6, 2, 7, 8, 13);
    quarter_round(w7, 3, 4, 9, 14)
}

pub open spec fn rounds(w: Seq<u32>, n: nat) -> Seq<u32>
    decreases n,
{
    if n == 0 {
        w
    } else {
        double_round(rounds(w, (n - 1) as nat))
    }
}

/// The words that a block starts from: the constant, the key, the counter, no nonce.
pub open spec fn block_start(key: Seq<u32>, counter: u64) -> Seq<u32> {
    seq![0x61707865u32, 0x3320646eu32, 0x79622d32u32, 0x6b206574u32] + key + seq![
        counter as u32,
        (counter >> 32) as u32,
        0u32,
        0u32,
    ]
}

/// One block of the stream: eight rounds, added to what they started from.
#[verifier::opaque]
pub open spec fn block(key: Seq<u32>, counter: u64) -> Seq<u32> {
    let start = block_start(key, counter);
    let w = rounds(start, 4);
    Seq::new(16, |i: int| w[i].wrapping_add(start[i]))
}

/// A word of the stream.
pub open spec fn stream_word(key: Seq<u32>, n: nat) -> u32 {
    block(key, (n / 16) as u64)[(n % 16) as int]
}

/// Two words of the stream as one number, the first below the second.
pub open spec fn stream_pair(key: Seq<u32>, n: nat) -> u64 {
    ((stream_word(key, n + 1) as u64) << 32) | (stream_word(key, n) as u64)
}

/// How many words the stream has before its counter runs out.
pub open spec fn stream_len() -> nat {
    16 * u64::MAX as nat
}

/// A ChaCha stream with eight rounds: blocks of sixteen words, the counter from zero,
/// words in order.
pub struct ChaCha8 {
    key: [u32; 8],
    counter: u64,
    buf: [u32; 16],
    index: usize,
}

impl ChaCha8 {
    #[verifier::type_invariant]
    spec fn steady(self) -> bool {
        &&& self.index <= 16
        &&& self.counter == 0 ==> self.index == 16
        &&& self.counter > 0 ==> self.buf@ == block(self.key@, (self.counter - 1) as u64)
    }

    /// The key that the stream runs under.
    pub closed spec fn key(self) -> Seq<u32> {
        self.key@
    }

    /// How many words were taken.
    pub closed spec fn position(self) -> nat {
        (16 * self.counter + self.index - 16) as nat
    }

    /// How many blocks were computed.
    pub closed spec fn blocks(self) -> nat {
        self.counter as nat
    }

    /// A stream for a seed: the key is expanded from it, a word at a time.
    pub fn new(seed: u64) -> (r: Self)
        ensures
            r.key() == key_of(seed),
            r.position() == 0,
            r.blocks() == 0,
    {
        let mut state = seed;
        let mut key: [u32; 8] = [0;8];
        let mut i: usize = 0;
        while i < 8
            invariant
                i <= 8,
                state == seed_state(seed, i as nat),
                forall|j: int| 0 <= j < i ==> #[trigger] key@[j] == key_of(seed)[j],
            decreases 8 - i,
        {
            state = state.wrapping_mul(6364136223846793005).wrapping_add(11634580027462260723);
            let shifted = (((state >> 18) ^ state) >> 27) as u32;
            let turn = (state >> 59) as u32;
            assert((state >> 59) < 32) by (bit_vector);
            key[i] = turn_right(shifted, turn);
            i = i + 1;
        }
        assert(key@ =~= key_of(seed));
        ChaCha8 { key, counter: 0, buf: [0;16], index: 16 }
    }

    pub fn quarter(w: &mut [u32; 16], a: usize, b: usize, c: usize, d: usize)
        requires
            a < 16,
            b < 16,
            c < 16,
            d < 16,
        ensures
            final(w)@ == quarter_round(old(w)@, a as int, b as int, c as int, d as int),
    {
        w[a] = w[a].wrapping_add(w[b]);
        w[d] = turn_left(w[d] ^ w[a], 16);
        w[c] = w[c].wrapping_add(w[d]);
        w[b] = turn_left(w[b] ^ w[c], 12);
        w[a] = w[a].wrapping_add(w[b]);
        w[d] = turn_left(w[d] ^ w[a], 8);
        w[c] = w[c].wrapping_add(w[d]);
        w[b] = turn_left(w[b] ^ w[c], 7);
    }

    fn start(key: &[u32; 8], counter: u64) -> (r: [u32; 16])
        ensures
            r@ == block_start(key@, counter),
    {
        let r: [u32; 16] = [
            0x61707865,
            0x3320646e,
            0x79622d32,
            0x6b206574,
            key[0],
            key[1],
            key[2],
            key[3],
            key[4],
            key[5],
            key[6],
            key[7],
            counter as u32,
            (counter >> 32) as u32,
            0,
            0,
        ];
        assert(r@ =~= block_start(key@, counter));
        r
    }

    /// Compute the next block; the words that were left of the one before are skipped.
    pub fn refill(&mut self)
        requires
            old(self).blocks() < u64::MAX,
        ensures
            final(self).key() == old(self).key(),
            final(self).blocks() == old(self).blocks() + 1,
            final(self).position() == 16 * old(self).blocks(),
    {
        let start = Self::start(&self.key, self.counter);
        let mut w = start;
        let mut i: usize = 0;
        while i < 4
            invariant
                i <= 4,
                w@ == rounds(start@, i as nat),
            decreases 4 - i,
        {
            Self::quarter(&mut w, 0, 4, 8, 12);
            Self::quarter(&mut w, 1, 5, 9, 13);
            Self::quarter(&mut w, 2, 6, 10, 14);
            Self::quarter(&mut w, 3, 7, 11, 15);
            Self::quarter(&mut w, 0, 5, 10, 15);
            Self::quarter(&mut w, 1, 6, 11, 12);
            Self::quarter(&mut w, 2, 7, 8, 13);
            Self::quarter(&mut w, 3, 4, 9, 14);
            i = i + 1;
        }
        let ghost mixed = w@;
        let mut buf: [u32; 16] = [0;16];
        let mut j: usize = 0;
        while j < 16
            invariant
                j <= 16,
                w@ == mixed,
                forall|k: int|
                    0 <= k < j ==> #[trigger] buf@[k] == mixed[k].wrapping_add(start@[k]),
            decreases 16 - j,
        {
            buf[j] = w[j].wrapping_add(start[j]);
            j = j + 1;
        }
        proof {
            reveal(block);
            assert(buf@ =~= block(self.key@, self.counter));
        }
        *self = ChaCha8 { key: self.key, counter: self.counter + 1, buf, index: 0 };
    }

    /// The next word of the stream.
    pub fn next_u32(&mut self) -> (r: u32)
        requires
            old(self).position() < stream_len(),
        ensures
            r == stream_word(old(self).key(), old(self).position()),
            final(self).key() == old(self).key(),
            final(self).position() == old(self).position() + 1,
    {
        proof {
            use_type_invariant(&*self);
        }
        if self.index >= 16 {
            self.refill();
        }
        proof {
            use_type_invariant(&*self);
        }
        let v = self.buf[self.index];
        *self = ChaCha8 { key: self.key, counter: self.counter, buf: self.buf, index: self.index + 1 };
        v
    }

    /// The next two words of the stream as one number.
    pub fn next_u64(&mut self) -> (r: u64)
        requires
            old(self).position() + 1 < stream_len(),
        ensures
            r == stream_pair(old(self).key(), old(self).position()),
            final(self).key() == old(self).key(),
            final(self).position() == old(self).position() + 2,
    {
        let lo = self.next_u32() as u64;
        let hi = self.next_u32() as u64;
        (hi << 32) | lo
    }
}

// ---------------------------------------------------------------- uniform numbers

/// The place of the highest bit.
pub open spec fn top_bit(k: nat) -> nat
    decreases k,
{
    if k < 2 {
        0
    } else {
        1 + top_bit(k / 2)
    }
}

/// The binary64 pattern of `k / 2^53`.
pub open spec fn unit_bits64(k: nat) -> nat {
    if k == 0 {
        0
    } else {
        ((top_bit(k) + 970) * 0x10_0000_0000_0000 + k * pow2((52 - top_bit(k)) as nat)
            - 0x10_0000_0000_0000) as nat
    }
}

/// The binary32 pattern of `k / 2^24`.
pub open spec fn unit_bits32(k: nat) -> nat {
    if k == 0 {
        0
    } else {
        ((top_bit(k) + 103) * 0x80_0000 + k * pow2((23 - top_bit(k)) as nat) - 0x80_0000) as nat
    }
}

proof fn top_bit_is(k: nat, e: nat)
    requires
        pow2(e) <= k < pow2(e + 1),
    ensures
        top_bit(k) == e,
    decreases e,
{
    lemma_pow2_unfold(e + 1);
    if e == 0 {
        lemma2_to64();
    } else {
        lemma_pow2_unfold(e);
        lemma_pow2_pos((e - 1) as nat);
        top_bit_is(k / 2, (e - 1) as nat);
    }
}

/// A number scaled until it fills its width: the place of its highest bit, and the
/// scaled number.
fn normalised(k: u64, width: u64) -> (r: (u64, u64))
    requires
        0 < width < 63,
        0 < k < pow2((width + 1) as nat),
    ensures
        r.0 == top_bit(k as nat),
        r.0 <= width,
        r.1 == k * pow2((width - r.0) as nat),
        pow2(width as nat) <= r.1 < pow2((width + 1) as nat),
{
    proof {
        lemma2_to64();
        lemma2_to64_rest();
        lemma_pow2_strictly_increases(width as nat, 63);
        if width < 62 {
            lemma_pow2_strictly_increases((width + 1) as nat, 63);
        }
        lemma_pow2_pos(width as nat);
    }
    let full: u64 = 1u64 << width;
    proof {
        lemma_u64_shl_is_mul(1, width);
        assert(full == pow2(width as nat));
    }
    let mut m: u64 = k;
    let mut e: u64 = width;
    assert(pow2((width - e) as nat) == 1);
    while m < full
        invariant
            0 < width < 63,
            full == pow2(width as nat),
            e <= width,
            0 < k,
            m == k * pow2((width - e) as nat),
            m < pow2((width + 1) as nat),
            pow2((width + 1) as nat) == 2 * full,
            pow2((width + 1) as nat) <= 0x8000_0000_0000_0000,
        decreases e,
    {
        proof {
            lemma_pow2_unfold((width - e + 1) as nat);
            assert(k * pow2((width - e + 1) as nat) == 2 * m) by (nonlinear_arith)
                requires
                    pow2((width - e + 1) as nat) == 2 * pow2((width - e) as nat),
                    m == k * pow2((width - e) as nat),
            ;
            if e == 0 {
                assert(m >= full) by (nonlinear_arith)
                    requires
                        k >= 1,
                        m == k * full,
                ;
            }
        }
        m = m * 2;
        e = e - 1;
    }
    proof {
        let up = pow2((width - e) as nat);
        lemma_pow2_pos((width - e) as nat);
        lemma_pow2_adds((width - e) as nat, e as nat);
        lemma_pow2_adds((width - e) as nat, (e + 1) as nat);
        assert(pow2(e as nat) <= k) by (nonlinear_arith)
            requires
                up * pow2(e as nat) <= k * up,
                up > 0,
        ;
        assert(k < pow2((e + 1) as nat)) by (nonlinear_arith)
            requires
                k * up < up * pow2((e + 1) as nat),
                up > 0,
        ;
        top_bit_is(k as nat, e as nat);
    }
    (e, m)
}

pub fn unit64(k: u64) -> (r: u64)
    requires
        k < 0x20_0000_0000_0000,
    ensures
        r == unit_bits64(k as nat),
{
    if k == 0 {
        return 0;
    }
    proof {
        lemma2_to64();
        lemma2_to64_rest();
    }
    let (e, m) = normalised(k, 52);
    (e + 970) * 0x10_0000_0000_0000 + (m - 0x10_0000_0000_0000)
}

pub fn unit32(k: u32) -> (r: u32)
    requires
        k < 0x100_0000,
    ensures
        r == unit_bits32(k as nat),
{
    if k == 0 {
        return 0;
    }
    proof {
        lemma2_to64();
    }
    let (e, m) = normalised(k as u64, 23);
    ((e + 103) * 0x80_0000 + (m - 0x80_0000)) as u32
}

/// A binary64 pattern with exponent field `x` and fraction field `f` stands for
/// `(2^52 + f) * 2^(x - 1075)`; the pattern made for `k / 2^53` stands for exactly
/// that.
pub proof fn units_are_exact(k: nat)
    requires
        0 < k < 0x20_0000_0000_0000,
    ensures
        0 < unit_bits64(k) / 0x10_0000_0000_0000 < 1023,
        (0x10_0000_0000_0000 + unit_bits64(k) % 0x10_0000_0000_0000) * pow2(
            unit_bits64(k) / 0x10_0000_0000_0000,
        ) == k * pow2(1022),
{
    top_bit_bounds(k);
    lemma2_to64();
    lemma2_to64_rest();
    let e = top_bit(k);
    if e > 52 {
        if e > 53 {
            lemma_pow2_strictly_increases(53, e);
        }
    }
    let up = pow2((52 - e) as nat);
    lemma_pow2_adds((52 - e) as nat, e);
    lemma_pow2_adds((52 - e) as nat, e + 1);
    lemma_pow2_pos((52 - e) as nat);
    assert(0x10_0000_0000_0000 <= k * up < 0x20_0000_0000_0000) by (nonlinear_arith)
        requires
            up > 0,
            pow2(e) <= k < pow2(e + 1),
            up * pow2(e) == 0x10_0000_0000_0000,
            up * pow2(e + 1) == 0x20_0000_0000_0000,
    ;
    let f = k * up - 0x10_0000_0000_0000;
    let b = unit_bits64(k);
    assert(b == (e + 970) * 0x10_0000_0000_0000 + f);
    assert(b / 0x10_0000_0000_0000 == e + 970);
    assert(b % 0x10_0000_0000_0000 == f);
    lemma_pow2_adds((52 - e) as nat, e + 970);
    assert((k * up) * pow2(e + 970) == k * (up * pow2(e + 970))) by (nonlinear_arith);
}

/// A binary32 pattern with exponent field `x` and fraction field `f` stands for
/// `(2^23 + f) * 2^(x - 150)`; the pattern made for `k / 2^24` stands for exactly that.
pub proof fn short_units_are_exact(k: nat)
    requires
        0 < k < 0x100_0000,
    ensures
        0 < unit_bits32(k) / 0x80_0000 < 127,
        (0x80_0000 + unit_bits32(k) % 0x80_0000) * pow2(unit_bits32(k) / 0x80_0000) == k * pow2(126),
{
    top_bit_bounds(k);
    lemma2_to64();
    lemma2_to64_rest();
    let e = top_bit(k);
    if e > 24 {
        lemma_pow2_strictly_increases(24, e);
    }
    let up = pow2((23 - e) as nat);
    lemma_pow2_adds((23 - e) as nat, e);
    lemma_pow2_adds((23 - e) as nat, e + 1);
    lemma_pow2_pos((23 - e) as nat);
    assert(0x80_0000 <= k * up < 0x100_0000) by (nonlinear_arith)
        requires
            up > 0,
            pow2(e) <= k < pow2(e + 1),
            up * pow2(e) == 0x80_0000,
            up * pow2(e + 1) == 0x100_0000,
    ;
    let f = k * up - 0x80_0000;
    let b = unit_bits32(k);
    assert(b == (e + 103) * 0x80_0000 + f);
    assert(b / 0x80_0000 == e + 103);
    assert(b % 0x80_0000 == f);
    lemma_pow2_adds((23 - e) as nat, e + 103);
    assert((k * up) * pow2(e + 103) == k * (up * pow2(e + 103))) by (nonlinear_arith);
}

proof fn top_bit_bounds(k: nat)
    requires
        k > 0,
    ensures
        pow2(top_bit(k)) <= k < pow2(top_bit(k) + 1),
    decreases k,
{
    lemma2_to64();
    if k >= 2 {
        top_bit_bounds(k / 2);
        lemma_pow2_unfold(top_bit(k));
        lemma_pow2_unfold(top_bit(k) + 1);
    }
}

// ---------------------------------------------------------------- bytes

/// The order in which a number's bytes are written.
#[derive(Clone, Copy, Debug, PartialEq, Eq, Structural)]
pub enum ByteOrder {
    Little,
    Big,
}

pub open spec fn ordered_bytes(order: ByteOrder, big: Seq<u8>) -> Seq<u8> {
    match order {
        ByteOrder::Big => big,
        ByteOrder::Little => big.reverse(),
    }
}

pub open spec fn bytes32(order: ByteOrder, n: u32) -> Seq<u8> {
    ordered_bytes(order, be_bytes32(n))
}

pub open spec fn bytes64(order: ByteOrder, n: u64) -> Seq<u8> {
    ordered_bytes(order, be_bytes64(n))
}

fn put32(out: &mut Vec<u8>, order: ByteOrder, n: u32)
    ensures
        final(out)@ == old(out)@ + bytes32(order, n),
{
    let a = (n / 0x100_0000) as u8;
    let b = (n / 0x1_0000 % 0x100) as u8;
    let c = (n / 0x100 % 0x100) as u8;
    let d = (n % 0x100) as u8;
    match order {
        ByteOrder::Big => {
            out.push(a);
            out.push(b);
            out.push(c);
            out.push(d);
        },
        ByteOrder::Little => {
            out.push(d);
            out.push(c);
            out.push(b);
            out.push(a);
        },
    }
    assert(out@ =~= old(out)@ + bytes32(order, n));
}

fn put64(out: &mut Vec<u8>, order: ByteOrder, n: u64)
    ensures
        final(out)@ == old(out)@ + bytes64(order, n),
{
    let hi = (n / 0x1_0000_0000) as u32;
    let lo = (n % 0x1_0000_0000) as u32;
    match order {
        ByteOrder::Big => {
            put32(out, order, hi);
            put32(out, order, lo);
        },
        ByteOrder::Little => {
            put32(out, order, lo);
            put32(out, order, hi);
        },
    }
    assert(out@ =~= old(out)@ + bytes64(order, n));
}

/// The header of a dataset.
pub open spec fn header(
    order: ByteOrder,
    dims: u32,
    dtype: DType,
    tree_count: u64,
    query_count: u64,
) -> Seq<u8> {
    seq![83u8, 66u8, 68u8, 83u8] + bytes32(order, VERSION) + bytes32(order, dims) + seq![
        match dtype {
            DType::F32 => 0u8,
            DType::F64 => 1u8,
        },
    ] + bytes64(order, tree_count) + bytes64(order, query_count)
}

/// Write a dataset's header. The count of dimensions is kept to 32 bits.
pub fn write_header(
    out: &mut Vec<u8>,
    order: ByteOrder,
    dims: usize,
    dtype: &DType,
    tree_count: u64,
    query_count: u64,
)
    ensures
        final(out)@ == old(out)@ + header(order, dims as u32, *dtype, tree_count, query_count),
{
    let ghost start = out@;
    out.push(83);
    out.push(66);
    out.push(68);
    out.push(83);
    assert(out@ =~= start + seq![83u8, 66u8, 68u8, 83u8]);
    put32(out, order, VERSION);
    put32(out, order, dims as u32);
    out.push(dtype.as_u8());
    put64(out, order, tree_count);
    put64(out, order, query_count);
    assert(out@ =~= start + header(order, dims as u32, *dtype, tree_count, query_count));
}

/// Write a body's points.
pub fn write_points(out: &mut Vec<u8>, points: &Vec<u8>)
    ensures
        final(out)@ == old(out)@ + points@,
{
    let ghost start = out@;
    let mut i: usize = 0;
    assert(out@ =~= start + points@.take(0));
    while i < points.len()
        invariant
            i <= points@.len(),
            out@ == start + points@.take(i as int),
        decreases points@.len() - i,
    {
        out.push(points[i]);
        assert(points@.take(i + 1) =~= points@.take(i as int).push(points@[i as int]));
        assert(out@ =~= start + points@.take(i + 1));
        i = i + 1;
    }
    assert(points@.take(i as int) =~= points@);
}

proof fn bytes32_tell(order: ByteOrder, m: u32, n: u32)
    requires
        bytes32(order, m) == bytes32(order, n),
    ensures
        m == n,
{
    let a = be_bytes32(m);
    let b = be_bytes32(n);
    let x = bytes32(order, m);
    let y = bytes32(order, n);
    assert forall|i: int| 0 <= i < 4 implies a[i] == b[i] by {
        match order {
            ByteOrder::Big => {
                assert(a[i] == x[i] && b[i] == y[i]);
            },
            ByteOrder::Little => {
                assert(a[i] == x[3 - i] && b[i] == y[3 - i]);
            },
        }
    }
    assert(a[0] == b[0] && a[1] == b[1] && a[2] == b[2] && a[3] == b[3]);
    assert(m / 0x100_0000 < 0x100 && n / 0x100_0000 < 0x100);
    assert(m == (m / 0x100_0000) * 0x100_0000 + (m / 0x1_0000 % 0x100) * 0x1_0000 + (m / 0x100
        % 0x100) * 0x100 + m % 0x100);
    assert(n == (n / 0x100_0000) * 0x100_0000 + (n / 0x1_0000 % 0x100) * 0x1_0000 + (n / 0x100
        % 0x100) * 0x100 + n % 0x100);
}

proof fn bytes64_tell(order: ByteOrder, m: u64, n: u64)
    requires
        bytes64(order, m) == bytes64(order, n),
    ensures
        m == n,
{
    let mh = (m / 0x1_0000_0000) as u32;
    let ml = (m % 0x1_0000_0000) as u32;
    let nh = (n / 0x1_0000_0000) as u32;
    let nl = (n % 0x1_0000_0000) as u32;
    let x = bytes64(order, m);
    let y = bytes64(order, n);
    match order {
        ByteOrder::Big => {
            assert(x.take(4) =~= be_bytes32(mh));
            assert(y.take(4) =~= be_bytes32(nh));
            assert(x.skip(4) =~= be_bytes32(ml));
            assert(y.skip(4) =~= be_bytes32(nl));
        },
        ByteOrder::Little => {
            assert(x.take(4) =~= bytes32(order, ml));
            assert(y.take(4) =~= bytes32(order, nl));
            assert(x.skip(4) =~= bytes32(order, mh));
            assert(y.skip(4) =~= bytes32(order, nh));
        },
    }
    bytes32_tell(order, mh, nh);
    bytes32_tell(order, ml, nl);
}

/// A header is 29 bytes, and a reader can tell every field from it.
pub proof fn headers_tell_their_fields(
    order: ByteOrder,
    a: (u32, DType, u64, u64),
    b: (u32, DType, u64, u64),
)
    ensures
        header(order, a.0, a.1, a.2, a.3).len() == 29,
        header(order, a.0, a.1, a.2, a.3) == header(order, b.0, b.1, b.2, b.3) ==> a == b,
{
    let x = header(order, a.0, a.1, a.2, a.3);
    let y = header(order, b.0, b.1, b.2, b.3);
    if x == y {
        assert(x.subrange(8, 12) =~= bytes32(order, a.0));
        assert(y.subrange(8, 12) =~= bytes32(order, b.0));
        bytes32_tell(order, a.0, b.0);
        assert(x[12] == y[12]);
        assert(x.subrange(13, 21) =~= bytes64(order, a.2));
        assert(y.subrange(13, 21) =~= bytes64(order, b.2));
        bytes64_tell(order, a.2, b.2);
        assert(x.subrange(21, 29) =~= bytes64(order, a.3));
        assert(y.subrange(21, 29) =~= bytes64(order, b.3));
        bytes64_tell(order, a.3, b.3);
    }
}

// ---------------------------------------------------------------- uniform points

/// The coordinates of uniform points, as bytes: the top bits of each number of the
/// stream, as a fraction of one.
pub open spec fn uniform64(order: ByteOrder, seed: u64, n: nat) -> Seq<u8>
    decreases n,
{
    if n == 0 {
        Seq::empty()
    } else {
        let m = (n - 1) as nat;
        uniform64(order, seed, m) + bytes64(
            order,
            unit_bits64((stream_pair(key_of(seed), 2 * m) >> 11) as nat) as u64,
        )
    }
}

pub open spec fn uniform32(order: ByteOrder, seed: u64, n: nat) -> Seq<u8>
    decreases n,
{
    if n == 0 {
        Seq::empty()
    } else {
        let m = (n - 1) as nat;
        uniform32(order, seed, m) + bytes32(
            order,
            unit_bits32((stream_word(key_of(seed), m) >> 8) as nat) as u32,
        )
    }
}

/// The bytes of `count` points of `dims` dimensions from the uniform distribution
/// over the unit cube, as binary64 numbers.
pub fn generate_uniform_f64(order: ByteOrder, seed: u64, count: usize, dims: usize) -> (r: Vec<u8>)
    requires
        count * dims <= usize::MAX,
    ensures
        r@ == uniform64(order, seed, (count * dims) as nat),
{
    let total: usize = count * dims;
    let mut rng = ChaCha8::new(seed);
    let mut out: Vec<u8> = Vec::new();
    let mut i: usize = 0;
    while i < total
        invariant
            i <= total,
            rng.key() == key_of(seed),
            rng.position() == 2 * i,
            out@ == uniform64(order, seed, i as nat),
        decreases total - i,
    {
        let x = rng.next_u64();
        assert((x >> 11) < 0x20_0000_0000_0000) by (bit_vector);
        put64(&mut out, order, unit64(x >> 11));
        i = i + 1;
    }
    out
}

/// The bytes of `count` points of `dims` dimensions from the uniform distribution
/// over the unit cube, as binary32 numbers.
pub fn generate_uniform_f32(order: ByteOrder, seed: u64, count: usize, dims: usize) -> (r: Vec<u8>)
    requires
        count * dims <= usize::MAX,
    ensures
        r@ == uniform32(order, seed, (count * dims) as nat),
{
    let total: usize = count * dims;
    let mut rng = ChaCha8::new(seed);
    let mut out: Vec<u8> = Vec::new();
    let mut i: usize = 0;
    while i < total
        invariant
            i <= total,
            rng.key() == key_of(seed),
            rng.position() == i,
            out@ == uniform32(order, seed, i as nat),
        decreases total - i,
    {
        let x = rng.next_u32();
        assert((x >> 8) < 0x100_0000) by (bit_vector);
        put32(&mut out, order, unit32(x >> 8));
        i = i + 1;
    }
    out
}

/// A body holds every coordinate of every point, at its own size.
pub proof fn bodies_are_full(order: ByteOrder, seed: u64, n: nat)
    ensures
        uniform64(order, seed, n).len() == 8 * n,
        uniform32(order, seed, n).len() == 4 * n,
    decreases n,
{
    if n > 0 {
        bodies_are_full(order, seed, (n - 1) as nat);
    }
}

// ---------------------------------------------------------------- what was asked for

/// What the generator was asked for.
#[derive(Debug)]
pub struct Options {
    pub kind: String,
    pub dims: usize,
    pub dtype: DType,
    pub tree_count: u64,
    pub query_count: u64,
    pub seed: u64,
}

pub struct OptionsV {
    pub kind: Seq<char>,
    pub dims: usize,
    pub dtype: DType,
    pub tree_count: u64,
    pub query_count: u64,
    pub seed: u64,
}

impl View for Options {
    type V = OptionsV;

    open spec fn view(&self) -> OptionsV {
        OptionsV {
            kind: self.kind@,
            dims: self.dims,
            dtype: self.dtype,
            tree_count: self.tree_count,
            query_count: self.query_count,
            seed: self.seed,
        }
    }
}

pub open spec fn default_options() -> OptionsV {
    OptionsV {
        kind: "uniform"@,
        dims: 3,
        dtype: DType::F64,
        tree_count: 1000,
        query_count: 100,
        seed: 42,
    }
}

pub open spec fn number_or(args: Seq<Seq<char>>, i: int, max: nat, default: nat) -> nat {
    if i < args.len() {
        match read_unsigned(args[i], max) {
            Some(n) => n,
            None => default,
        }
    } else {
        default
    }
}

/// One option and its value. A value that is missing or does not read counts as the
/// default; an argument that is no option is passed over.
pub open spec fn with_option(o: OptionsV, args: Seq<Seq<char>>, i: int) -> OptionsV {
    let name = args[i];
    if name == "--kind"@ {
        OptionsV {
            kind: if i + 1 < args.len() {
                args[i + 1]
            } else {
                Seq::empty()
            },
            ..o
        }
    } else if name == "--dims"@ {
        OptionsV { dims: number_or(args, i + 1, usize::MAX as nat, 3) as usize, ..o }
    } else if name == "--dtype"@ {
        OptionsV {
            dtype: if i + 1 < args.len() {
                match dtype_named(args[i + 1]) {
                    Some(t) => t,
                    None => DType::F64,
                }
            } else {
                DType::F64
            },
            ..o
        }
    } else if name == "--tree-count"@ {
        OptionsV { tree_count: number_or(args, i + 1, u64::MAX as nat, 1000) as u64, ..o }
    } else if name == "--query-count"@ {
        OptionsV { query_count: number_or(args, i + 1, u64::MAX as nat, 100) as u64, ..o }
    } else if name == "--seed"@ {
        OptionsV { seed: number_or(args, i + 1, u64::MAX as nat, 42) as u64, ..o }
    } else {
        o
    }
}

pub open spec fn is_option(name: Seq<char>) -> bool {
    name == "--kind"@ || name == "--dims"@ || name == "--dtype"@ || name == "--tree-count"@ || name
        == "--query-count"@ || name == "--seed"@
}

/// The options that the arguments from `i` on leave.
pub open spec fn options_from(o: OptionsV, args: Seq<Seq<char>>, i: int) -> OptionsV
    decreases args.len() + 1 - i,
{
    if i >= args.len() {
        o
    } else {
        options_from(
            with_option(o, args, i),
            args,
            if is_option(args[i]) {
                i + 2
            } else {
                i + 1
            },
        )
    }
}

fn number_at(args: &Vec<String>, i: usize, max: u64, default: u64) -> (r: u64)
    requires
        default <= max,
    ensures
        r == number_or(texts(args@), i as int, max as nat, default as nat),
        r <= max,
{
    if i < args.len() {
        match parse_unsigned(args[i].as_str(), max) {
            Some(n) => n,
            None => default,
        }
    } else {
        default
    }
}

/// Read a program's arguments, its own name first.
pub fn parse_options(args: &Vec<String>) -> (r: Options)
    requires
        args@.len() < usize::MAX,
    ensures
        r@ == options_from(default_options(), texts(args@), 1),
{
    let mut o = Options {
        kind: "uniform".to_owned(),
        dims: 3,
        dtype: DType::F64,
        tree_count: 1000,
        query_count: 100,
        seed: 42,
    };
    let ghost all = texts(args@);
    let n: usize = args.len();
    let mut i: usize = 1;
    while i < n
        invariant
            n == args@.len(),
            n < usize::MAX,
            all == texts(args@),
            i <= n + 1,
            options_from(default_options(), all, 1) == options_from(o@, all, i as int),
        decreases n + 1 - i,
    {
        let name = args[i].as_str();
        assert(all[i as int] == name@);
        let ghost before = o@;
        let mut option = true;
        if same(name, "--kind") {
            o.kind = if i + 1 < n {
                args[i + 1].clone()
            } else {
                String::new()
            };
            assert(o.kind@ =~= with_option(before, all, i as int).kind);
        } else if same(name, "--dims") {
            o.dims = number_at(args, i + 1, usize::MAX as u64, 3) as usize;
        } else if same(name, "--dtype") {
            o.dtype = if i + 1 < n {
                match DType::from_str(args[i + 1].as_str()) {
                    Some(t) => t,
                    None => DType::F64,
                }
            } else {
                DType::F64
            };
        } else if same(name, "--tree-count") {
            o.tree_count = number_at(args, i + 1, u64::MAX, 1000);
        } else if same(name, "--query-count") {
            o.query_count = number_at(args, i + 1, u64::MAX, 100);
        } else if same(name, "--seed") {
            o.seed = number_at(args, i + 1, u64::MAX, 42);
        } else {
            option = false;
        }
        assert(o@ == with_option(before, all, i as int));
        i = if option {
            i + 2
        } else {
            i + 1
        };
    }
    o
}

/// The query points have a seed of their own, next to that of the construction
/// points.
pub fn query_seed(seed: u64) -> (r: u64)
    ensures
        r == (if seed == u64::MAX {
            0
        } else {
            (seed + 1) as u64
        }),
{
    seed.wrapping_add(1)
}

/// The two seeds of a dataset are never the same.
pub proof fn seeds_differ(seed: u64)
    ensures
        seed.wrapping_add(1) != seed,
{
}

} // verus!
