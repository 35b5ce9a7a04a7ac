//! What a dataset promises its readers: where each field and each coordinate stands, that
//! every coordinate is drawn on its own, and that the stream runs through its blocks.

use crate::dataset::{
    block, block_start, bytes32, bytes64, header, is_option, key_of, options_from, rounds,
    seed_state, short_units_are_exact, stream_pair, stream_word, uniform32, uniform64,
    unit_bits32, unit_bits64, units_are_exact, with_option, ByteOrder, DType, OptionsV,
};
use crate::schema::{be_bytes32, be_bytes64};
use crate::text::read_unsigned;
use vstd::arithmetic::power2::pow2;
use vstd::prelude::*;

verus! {

// ---------------------------------------------------------------- numbers in bytes

/// The number that bytes stand for, the most significant first.
pub open spec fn big_number(bytes: Seq<u8>) -> nat
    decreases bytes.len(),
{
    if bytes.len() == 0 {
        0
    } else {
        big_number(bytes.drop_last()) * 0x100 + bytes.last() as nat
    }
}

/// The number that a reader of this byte order takes bytes for.
pub open spec fn number_of(order: ByteOrder, bytes: Seq<u8>) -> nat {
    match order {
        ByteOrder::Big => big_number(bytes),
        ByteOrder::Little => big_number(bytes.reverse()),
    }
}

proof fn big_number_of_four(a: u8, b: u8, c: u8, d: u8)
    ensures
        big_number(seq![a, b, c, d]) == a * 0x100_0000 + b * 0x1_0000 + c * 0x100 + d,
{
    let s4 = seq![a, b, c, d];
    let s3 = seq![a, b, c];
    let s2 = seq![a, b];
    let s1 = seq![a];
    assert(s4.drop_last() =~= s3);
    assert(s3.drop_last() =~= s2);
    assert(s2.drop_last() =~= s1);
    assert(s1.drop_last() =~= Seq::empty());
    assert(big_number(s1.drop_last()) == 0);
    assert(big_number(s1) == a);
    assert(big_number(s2) == a * 0x100 + b);
    assert(big_number(s3) == (a * 0x100 + b) * 0x100 + c);
}

proof fn big_number_goes_on(x: Seq<u8>, y: Seq<u8>)
    requires
        y.len() == 4,
    ensures
        big_number(x + y) == big_number(x) * 0x1_0000_0000 + big_number(y),
{
    let y3 = y.drop_last();
    let y2 = y3.drop_last();
    let y1 = y2.drop_last();
    assert(y1.drop_last() =~= Seq::<u8>::empty());
    assert((x + y).drop_last() =~= x + y3);
    assert((x + y3).drop_last() =~= x + y2);
    assert((x + y2).drop_last() =~= x + y1);
    assert((x + y1).drop_last() =~= x);
    assert(big_number(y1.drop_last()) == 0);
    assert(big_number(y1) == y1.last());
    assert(big_number(x + y1) == big_number(x) * 0x100 + y1.last());
    assert(big_number(x + y2) == big_number(x + y1) * 0x100 + y2.last());
    assert(big_number(x + y3) == big_number(x + y2) * 0x100 + y3.last());
    assert(big_number(x + y) == big_number(x + y3) * 0x100 + y.last());
    assert(big_number(y2) == big_number(y1) * 0x100 + y2.last());
    assert(big_number(y3) == big_number(y2) * 0x100 + y3.last());
    assert(big_number(y) == big_number(y3) * 0x100 + y.last());
}

/// What is written as a number is read as that number, in either byte order.
pub proof fn numbers_are_read_as_written(order: ByteOrder, m: u32, n: u64)
    ensures
        number_of(order, bytes32(order, m)) == m,
        bytes32(order, m).len() == 4,
        number_of(order, bytes64(order, n)) == n,
        bytes64(order, n).len() == 8,
{
    four_bytes(m);
    eight_bytes(n);
    match order {
        ByteOrder::Big => {},
        ByteOrder::Little => {
            assert(bytes32(order, m).reverse() =~= be_bytes32(m));
            assert(bytes64(order, n).reverse() =~= be_bytes64(n));
        },
    }
}

proof fn eight_bytes(n: u64)
    ensures
        big_number(be_bytes64(n)) == n,
{
    let hi = (n / 0x1_0000_0000) as u32;
    let lo = (n % 0x1_0000_0000) as u32;
    four_bytes(hi);
    four_bytes(lo);
    big_number_goes_on(be_bytes32(hi), be_bytes32(lo));
}

proof fn four_bytes(m: u32)
    ensures
        big_number(be_bytes32(m)) == m,
{
    let a = (m / 0x100_0000) as u8;
    let b = (m / 0x1_0000 % 0x100) as u8;
    let c = (m / 0x100 % 0x100) as u8;
    let d = (m % 0x100) as u8;
    assert(be_bytes32(m) =~= seq![a, b, c, d]);
    big_number_of_four(a, b, c, d);
    assert(m / 0x100_0000 < 0x100);
}

// ---------------------------------------------------------------- the header

/// A reader finds the magic, the version, the dimensions, the element type, and the two
/// counts, the construction points before the queries, each at its place.
pub proof fn headers_are_read_as_written(
    order: ByteOrder,
    dims: u32,
    dtype: DType,
    tree_count: u64,
    query_count: u64,
)
    ensures
        ({
            let h = header(order, dims, dtype, tree_count, query_count);
            &&& h.len() == 29
            &&& h[0] == 'S' as u8 && h[1] == 'B' as u8 && h[2] == 'D' as u8 && h[3] == 'S' as u8
            &&& number_of(order, h.subrange(4, 8)) == 1
            &&& number_of(order, h.subrange(8, 12)) == dims
            &&& h[12] == (if dtype == DType::F64 {
                1u8
            } else {
                0u8
            })
            &&& number_of(order, h.subrange(13, 21)) == tree_count
            &&& number_of(order, h.subrange(21, 29)) == query_count
        }),
{
    let h = header(order, dims, dtype, tree_count, query_count);
    numbers_are_read_as_written(order, 1, tree_count);
    numbers_are_read_as_written(order, dims, query_count);
    assert(h.subrange(4, 8) =~= bytes32(order, 1));
    assert(h.subrange(8, 12) =~= bytes32(order, dims));
    assert(h.subrange(13, 21) =~= bytes64(order, tree_count));
    assert(h.subrange(21, 29) =~= bytes64(order, query_count));
}

// ---------------------------------------------------------------- coordinates

/// The coordinate at a place of a body.
proof fn long_coordinate(order: ByteOrder, seed: u64, n: nat, i: nat)
    requires
        i < n,
    ensures
        uniform64(order, seed, n).len() == 8 * n,
        uniform64(order, seed, n).subrange(8 * i as int, 8 * i as int + 8) == bytes64(
            order,
            unit_bits64((stream_pair(key_of(seed), 2 * i) >> 11) as nat) as u64,
        ),
    decreases n,
{
    let m = (n - 1) as nat;
    crate::dataset::bodies_are_full(order, seed, m);
    crate::dataset::bodies_are_full(order, seed, n);
    if i < m {
        long_coordinate(order, seed, m, i);
        assert(uniform64(order, seed, n).subrange(8 * i as int, 8 * i as int + 8) =~= uniform64(
            order,
            seed,
            m,
        ).subrange(8 * i as int, 8 * i as int + 8));
    } else {
        assert(uniform64(order, seed, n).subrange(8 * i as int, 8 * i as int + 8) =~= bytes64(
            order,
            unit_bits64((stream_pair(key_of(seed), 2 * i) >> 11) as nat) as u64,
        ));
    }
}

proof fn short_coordinate(order: ByteOrder, seed: u64, n: nat, i: nat)
    requires
        i < n,
    ensures
        uniform32(order, seed, n).len() == 4 * n,
        uniform32(order, seed, n).subrange(4 * i as int, 4 * i as int + 4) == bytes32(
            order,
            unit_bits32((stream_word(key_of(seed), i) >> 8) as nat) as u32,
        ),
    decreases n,
{
    let m = (n - 1) as nat;
    crate::dataset::bodies_are_full(order, seed, m);
    crate::dataset::bodies_are_full(order, seed, n);
    if i < m {
        short_coordinate(order, seed, m, i);
        assert(uniform32(order, seed, n).subrange(4 * i as int, 4 * i as int + 4) =~= uniform32(
            order,
            seed,
            m,
        ).subrange(4 * i as int, 4 * i as int + 4));
    } else {
        assert(uniform32(order, seed, n).subrange(4 * i as int, 4 * i as int + 4) =~= bytes32(
            order,
            unit_bits32((stream_word(key_of(seed), i) >> 8) as nat) as u32,
        ));
    }
}

/// Is this pattern the binary64 number `k / 2^53`? With exponent field `x` and fraction
/// field `f` it stands for `(2^52 + f) * 2^(x - 1075)`.
pub open spec fn is_unit64(pattern: nat, k: nat) -> bool {
    if k == 0 {
        pattern == 0
    } else {
        (0x10_0000_0000_0000 + pattern % 0x10_0000_0000_0000) * pow2(
            pattern / 0x10_0000_0000_0000,
        ) == k * pow2(1022)
    }
}

/// Is this pattern the binary32 number `k / 2^24`?
pub open spec fn is_unit32(pattern: nat, k: nat) -> bool {
    if k == 0 {
        pattern == 0
    } else {
        (0x80_0000 + pattern % 0x80_0000) * pow2(pattern / 0x80_0000) == k * pow2(126)
    }
}

/// Every coordinate of a binary64 body is drawn on its own: the one at place `i` is the
/// fraction of one that the top 53 bits of the stream's words `2i` and `2i + 1` make, the
/// second above the first. No word serves two coordinates.
pub proof fn long_coordinates_have_their_own_words(order: ByteOrder, seed: u64, n: nat, i: nat)
    requires
        i < n,
    ensures
        ({
            let low = stream_word(key_of(seed), 2 * i) as nat;
            let high = stream_word(key_of(seed), 2 * i + 1) as nat;
            let at = uniform64(order, seed, n).subrange(8 * i as int, 8 * i as int + 8);
            is_unit64(number_of(order, at), (high * 0x1_0000_0000 + low) / 0x800)
        }),
        uniform64(order, seed, n).len() == 8 * n,
{
    long_coordinate(order, seed, n, i);
    let lo = stream_word(key_of(seed), 2 * i);
    let hi = stream_word(key_of(seed), 2 * i + 1);
    let x = ((hi as u64) << 32) | (lo as u64);
    assert(x == (hi as u64) * 0x1_0000_0000 + (lo as u64)) by (bit_vector)
        requires
            x == ((hi as u64) << 32) | (lo as u64),
    ;
    assert(x >> 11 == x / 0x800) by (bit_vector);
    assert((x >> 11) < 0x20_0000_0000_0000) by (bit_vector);
    let k = (x >> 11) as nat;
    if k > 0 {
        units_are_exact(k);
        assert(unit_bits64(k) < 0x400_0000_0000_0000 * 0x10) by {
            assert(unit_bits64(k) == (unit_bits64(k) / 0x10_0000_0000_0000) * 0x10_0000_0000_0000
                + unit_bits64(k) % 0x10_0000_0000_0000);
        }
    }
    let b = unit_bits64(k) as u64;
    assert(b == unit_bits64(k));
    numbers_are_read_as_written(order, 0, b);
}

/// Every coordinate of a binary32 body is drawn on its own: the one at place `i` is the
/// fraction of one that the top 24 bits of the stream's word `i` make.
pub proof fn short_coordinates_have_their_own_words(order: ByteOrder, seed: u64, n: nat, i: nat)
    requires
        i < n,
    ensures
        ({
            let word = stream_word(key_of(seed), i) as nat;
            let at = uniform32(order, seed, n).subrange(4 * i as int, 4 * i as int + 4);
            is_unit32(number_of(order, at), word / 0x100)
        }),
        uniform32(order, seed, n).len() == 4 * n,
{
    short_coordinate(order, seed, n, i);
    let x = stream_word(key_of(seed), i);
    assert(x >> 8 == x / 0x100) by (bit_vector);
    assert((x >> 8) < 0x100_0000) by (bit_vector);
    let k = (x >> 8) as nat;
    if k > 0 {
        short_units_are_exact(k);
        assert(unit_bits32(k) < 0x1_0000_0000) by {
            assert(unit_bits32(k) == (unit_bits32(k) / 0x80_0000) * 0x80_0000 + unit_bits32(k)
                % 0x80_0000);
        }
    }
    let b = unit_bits32(k) as u32;
    assert(b == unit_bits32(k));
    numbers_are_read_as_written(order, b, 0);
}

/// A dataset of more points begins with the dataset of fewer: what was drawn stays.
pub proof fn larger_datasets_go_on(order: ByteOrder, seed: u64, few: nat, many: nat)
    requires
        few <= many,
    ensures
        uniform64(order, seed, few).is_prefix_of(uniform64(order, seed, many)),
        uniform32(order, seed, few).is_prefix_of(uniform32(order, seed, many)),
    decreases many,
{
    if few < many {
        larger_datasets_go_on(order, seed, few, (many - 1) as nat);
    }
}

// ---------------------------------------------------------------- the stream

/// The stream runs through its blocks: its word at place `16 c + j` is word `j` of the
/// block that starts from the constant, the key, the counter `c` in two halves and no
/// nonce, mixed by eight rounds and added to its start.
pub proof fn the_stream_runs_through_its_blocks(key: Seq<u32>, c: nat, j: nat)
    requires
        key.len() == 8,
        c <= u64::MAX,
        j < 16,
    ensures
        ({
            let start = seq![0x61707865u32, 0x3320646eu32, 0x79622d32u32, 0x6b206574u32] + key
                + seq![
                (c % 0x1_0000_0000) as u32,
                (c / 0x1_0000_0000) as u32,
                0u32,
                0u32,
            ];
            let mixed = rounds(start, 4);
            stream_word(key, 16 * c + j) as int == (mixed[j as int] + start[j as int])
                % 0x1_0000_0000
        }),
{
    reveal(block);
    let n = 16 * c + j;
    assert(n / 16 == c && n % 16 == j);
    let counter = c as u64;
    assert(counter as u32 == (counter % 0x1_0000_0000) as u32) by (bit_vector);
    assert((counter >> 32) as u32 == (counter / 0x1_0000_0000) as u32) by (bit_vector);
}

/// A seed is expanded step by step: the key of the state that a seed leads to is the
/// seed's own key, one word on.
pub proof fn keys_follow_the_seed(seed: u64, i: int)
    requires
        0 <= i < 7,
    ensures
        key_of(seed).len() == 8,
        key_of(seed.wrapping_mul(6364136223846793005).wrapping_add(11634580027462260723))[i]
            == key_of(seed)[i + 1],
{
    states_follow(seed, (i + 1) as nat);
}

proof fn states_follow(seed: u64, n: nat)
    ensures
        seed_state(
            seed.wrapping_mul(6364136223846793005).wrapping_add(11634580027462260723),
            n,
        ) == seed_state(seed, n + 1),
    decreases n,
{
    if n > 0 {
        states_follow(seed, (n - 1) as nat);
    } else {
        assert(seed_state(seed, 0) == seed);
    }
}

// ---------------------------------------------------------------- what was asked for

/// An option with a number sets its own field to that number, and no other field.
pub proof fn options_set_their_own_fields(o: OptionsV, args: Seq<Seq<char>>, i: int)
    requires
        0 <= i,
        i + 1 < args.len(),
    ensures
        ({
            let r = with_option(o, args, i);
            &&& args[i] == "--kind"@ ==> r == OptionsV { kind: args[i + 1], ..o }
            &&& args[i] == "--dims"@ ==> (read_unsigned(args[i + 1], usize::MAX as nat) matches Some(
                n,
            ) ==> r == OptionsV { dims: n as usize, ..o })
            &&& args[i] == "--tree-count"@ ==> (read_unsigned(
                args[i + 1],
                u64::MAX as nat,
            ) matches Some(n) ==> r == OptionsV { tree_count: n as u64, ..o })
            &&& args[i] == "--query-count"@ ==> (read_unsigned(
                args[i + 1],
                u64::MAX as nat,
            ) matches Some(n) ==> r == OptionsV { query_count: n as u64, ..o })
            &&& args[i] == "--seed"@ ==> (read_unsigned(args[i + 1], u64::MAX as nat) matches Some(
                n,
            ) ==> r == OptionsV { seed: n as u64, ..o })
            &&& args[i] == "--dtype"@ && args[i + 1] == "f32"@ ==> r == OptionsV {
                dtype: DType::F32,
                ..o
            }
            &&& args[i] == "--dtype"@ && args[i + 1] == "f64"@ ==> r == OptionsV {
                dtype: DType::F64,
                ..o
            }
        }),
{
    reveal_strlit("--kind");
    reveal_strlit("--dims");
    reveal_strlit("--dtype");
    reveal_strlit("--tree-count");
    reveal_strlit("--query-count");
    reveal_strlit("--seed");
    reveal_strlit("f32");
    reveal_strlit("f64");
    assert("f32"@[1] == '3' && "f64"@[1] == '6');
    assert("--kind"@[2] == 'k' && "--dims"@.len() == 6 && "--dims"@[2] == 'd');
    assert("--dtype"@.len() == 7 && "--tree-count"@.len() == 12 && "--query-count"@.len() == 13);
    assert("--seed"@[2] == 's' && "--seed"@.len() == 6 && "--kind"@.len() == 6);
}

/// What is not asked for keeps its default: an option that is not among the arguments
/// leaves its field as it was.
pub proof fn what_is_not_asked_for_stays(o: OptionsV, args: Seq<Seq<char>>, i: int)
    requires
        0 <= i,
    ensures
        ({
            let r = options_from(o, args, i);
            &&& !args.contains("--kind"@) ==> r.kind == o.kind
            &&& !args.contains("--dims"@) ==> r.dims == o.dims
            &&& !args.contains("--dtype"@) ==> r.dtype == o.dtype
            &&& !args.contains("--tree-count"@) ==> r.tree_count == o.tree_count
            &&& !args.contains("--query-count"@) ==> r.query_count == o.query_count
            &&& !args.contains("--seed"@) ==> r.seed == o.seed
        }),
    decreases args.len() + 1 - i,
{
    if i < args.len() {
        assert(args.contains(args[i]));
        let next = if is_option(args[i]) {
            i + 2
        } else {
            i + 1
        };
        what_is_not_asked_for_stays(with_option(o, args, i), args, next);
    }
}

/// No two blocks start from the same words: neither under one key with two counters, nor
/// at one counter under two keys.
pub proof fn blocks_are_told_apart(key: Seq<u32>, c: u64, other: Seq<u32>, d: u64)
    requires
        key.len() == 8,
        other.len() == 8,
        block_start(key, c) == block_start(other, d),
    ensures
        key == other,
        c == d,
{
    let (s, t) = (block_start(key, c), block_start(other, d));
    assert(s.subrange(4, 12) =~= key && t.subrange(4, 12) =~= other);
    assert(s[12] == c as u32 && t[12] == d as u32);
    assert(s[13] == (c >> 32) as u32 && t[13] == (d >> 32) as u32);
    assert(c == d) by (bit_vector)
        requires
            c as u32 == d as u32,
            (c >> 32) as u32 == (d >> 32) as u32,
    ;
}

} // verus!
