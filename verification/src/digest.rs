//! Digests of bytes and how they are written.

use vstd::prelude::*;
use vstd::utf8::encode_utf8;

verus! {

/// The BLAKE3 digest of some bytes.
pub uninterp spec fn blake3_digest(bytes: Seq<u8>) -> Seq<u8>;

/// `blake3::hash` is a function of the bytes, and its digest is 32 bytes long.
#[verifier::external_body]
fn blake3_hash(bytes: &[u8]) -> (r: Vec<u8>)
    ensures
        r@ == blake3_digest(bytes@),
        r@.len() == 32,
{
    blake3::hash(bytes).as_bytes().to_vec()
}

/// Hash arbitrary bytes with the same function the machine hash uses, so a run id
/// and a machine hash cannot disagree about what hashing means here.
pub fn hash_bytes(bytes: &[u8]) -> (r: Vec<u8>)
    ensures
        r@ == blake3_digest(bytes@),
        r@.len() == 32,
{
    blake3_hash(bytes)
}

/// The number that bytes write, the first the most significant.
pub open spec fn be_value(bytes: Seq<u8>) -> nat
    decreases bytes.len(),
{
    if bytes.len() == 0 {
        0
    } else {
        256 * be_value(bytes.drop_last()) + bytes.last() as nat
    }
}

/// Crockford's alphabet, in lower case.
pub const ALPHABET: &'static str = "0123456789abcdefghjkmnpqrstvwxyz";

pub open spec fn symbol(d: nat) -> char {
    ALPHABET@[d as int]
}

/// The lowest `chars` digits of a number in base 32, the most significant first.
pub open spec fn crockford(v: nat, chars: nat) -> Seq<char>
    decreases chars,
{
    if chars == 0 {
        Seq::empty()
    } else {
        crockford(v / 32, (chars - 1) as nat).push(symbol(v % 32))
    }
}

/// How many bytes hold `chars` digits of five bits.
pub open spec fn bytes_for(chars: nat) -> nat {
    (chars * 5 + 7) / 8
}

/// The head of a list, as much of it as there is.
pub open spec fn head(bytes: Seq<u8>, n: nat) -> Seq<u8> {
    if n <= bytes.len() {
        bytes.take(n as int)
    } else {
        bytes
    }
}

pub fn symbol_of(d: u64) -> (c: char)
    requires
        d < 32,
    ensures
        c == symbol(d as nat),
{
    proof {
        reveal_strlit("0123456789abcdefghjkmnpqrstvwxyz");
    }
    ALPHABET.get_char(d as usize)
}

fn crockford_digits(v: u64, chars: usize) -> (r: String)
    ensures
        r@ == crockford(v as nat, chars as nat),
    decreases chars,
{
    if chars == 0 {
        let s = String::new();
        assert(s@ =~= crockford(v as nat, 0));
        s
    } else {
        let mut s = crockford_digits(v / 32, chars - 1);
        s.push(symbol_of(v % 32));
        s
    }
}

/// Bytes read as a number stay below the power that their count gives.
pub proof fn be_value_bound(bytes: Seq<u8>)
    requires
        bytes.len() <= 8,
    ensures
        bytes.len() == 0 ==> be_value(bytes) == 0,
        bytes.len() == 1 ==> be_value(bytes) < 0x100,
        bytes.len() == 2 ==> be_value(bytes) < 0x1_0000,
        bytes.len() == 3 ==> be_value(bytes) < 0x100_0000,
        bytes.len() == 4 ==> be_value(bytes) < 0x1_0000_0000,
        bytes.len() == 5 ==> be_value(bytes) < 0x100_0000_0000,
        bytes.len() == 6 ==> be_value(bytes) < 0x1_0000_0000_0000,
        bytes.len() == 7 ==> be_value(bytes) < 0x100_0000_0000_0000,
        bytes.len() == 8 ==> be_value(bytes) < 0x1_0000_0000_0000_0000,
    decreases bytes.len(),
{
    if bytes.len() > 0 {
        be_value_bound(bytes.drop_last());
    }
}

/// What a rendering is taken of: the bytes at the head that hold as many bits, of which
/// a 64-bit number keeps the last eight.
pub open spec fn head_value(bytes: Seq<u8>, chars: nat) -> nat {
    be_value(head(bytes, bytes_for(chars))) % 0x1_0000_0000_0000_0000
}

/// Up to twelve characters are taken of at most eight bytes, so nothing is lost.
pub proof fn short_heads_are_whole(bytes: Seq<u8>, chars: nat)
    requires
        chars <= 12,
    ensures
        head_value(bytes, chars) == be_value(head(bytes, bytes_for(chars))),
{
    be_value_bound(head(bytes, bytes_for(chars)));
}

/// Crockford-style base32, lowercase. `chars` characters = `5 × chars` bits, taken
/// from the bytes at the head of the digest that hold as many.
pub fn base32_crockford(bytes: &[u8], chars: usize) -> (r: String)
    requires
        chars <= 13,
    ensures
        r@ == crockford(head_value(bytes@, chars as nat), chars as nat),
{
    let want: usize = (chars * 5 + 7) / 8;
    let n: usize = if want <= bytes.len() {
        want
    } else {
        bytes.len()
    };
    let mut bits: u64 = 0;
    let mut i: usize = 0;
    while i < n
        invariant
            i <= n <= bytes@.len(),
            bits == be_value(bytes@.take(i as int)) % 0x1_0000_0000_0000_0000,
        decreases n - i,
    {
        proof {
            let t = bytes@.take(i + 1);
            assert(t.drop_last() =~= bytes@.take(i as int));
            assert(t.last() == bytes@[i as int]);
        }
        bits = (bits % 0x100_0000_0000_0000) * 256 + bytes[i] as u64;
        i = i + 1;
    }
    proof {
        assert(head(bytes@, bytes_for(chars as nat)) =~= bytes@.take(n as int));
    }
    crockford_digits(bits, chars)
}

/// A rendering has as many characters as were asked for, all of the alphabet.
pub proof fn crockford_shape(v: nat, chars: nat)
    ensures
        crockford(v, chars).len() == chars,
        forall|i: int| 0 <= i < chars ==> ALPHABET@.contains(#[trigger] crockford(v, chars)[i]),
    decreases chars,
{
    reveal_strlit("0123456789abcdefghjkmnpqrstvwxyz");
    if chars > 0 {
        crockford_shape(v / 32, (chars - 1) as nat);
        let s = crockford(v, chars);
        let t = crockford(v / 32, (chars - 1) as nat);
        assert forall|i: int| 0 <= i < chars implies ALPHABET@.contains(#[trigger] s[i]) by {
            if i < t.len() {
                assert(s[i] == t[i]);
            } else {
                assert(s[i] == ALPHABET@[(v % 32) as int]);
            }
        }
    }
}

/// The characters of the alphabet are digits and lower-case letters.
pub proof fn alphabet_is_lower_case(c: char)
    requires
        ALPHABET@.contains(c),
    ensures
        '0' <= c <= '9' || 'a' <= c <= 'z',
{
    reveal_strlit("0123456789abcdefghjkmnpqrstvwxyz");
}

// ---------------------------------------------------------------- hexadecimal

pub open spec fn hex_symbol(d: nat) -> char {
    "0123456789abcdef"@[d as int]
}

/// Two hexadecimal digits.
pub open spec fn hex_byte(b: u8) -> Seq<char> {
    seq![hex_symbol((b / 16) as nat), hex_symbol((b % 16) as nat)]
}

/// Bytes in hexadecimal.
pub open spec fn hex(bytes: Seq<u8>) -> Seq<char>
    decreases bytes.len(),
{
    if bytes.len() == 0 {
        Seq::empty()
    } else {
        hex(bytes.drop_last()) + hex_byte(bytes.last())
    }
}

fn hex_char(d: u8) -> (c: char)
    requires
        d < 16,
    ensures
        c == hex_symbol(d as nat),
{
    proof {
        reveal_strlit("0123456789abcdef");
    }
    "0123456789abcdef".get_char(d as usize)
}

/// Two hexadecimal digits.
pub fn hex_pair(b: u8) -> (r: String)
    ensures
        r@ == hex_byte(b),
{
    let mut s = String::new();
    s.push(hex_char(b / 16));
    s.push(hex_char(b % 16));
    assert(s@ =~= hex_byte(b));
    s
}

/// Bytes in hexadecimal.
pub fn to_hex(bytes: &[u8]) -> (r: String)
    ensures
        r@ == hex(bytes@),
{
    let mut s = String::new();
    let mut i: usize = 0;
    assert(s@ =~= hex(bytes@.take(0)));
    while i < bytes.len()
        invariant
            i <= bytes@.len(),
            s@ == hex(bytes@.take(i as int)),
        decreases bytes@.len() - i,
    {
        proof {
            let t = bytes@.take(i + 1);
            assert(t.drop_last() =~= bytes@.take(i as int));
            assert(t.last() == bytes@[i as int]);
        }
        s.append(hex_pair(bytes[i]).as_str());
        i = i + 1;
    }
    assert(bytes@.take(bytes@.len() as int) =~= bytes@);
    s
}

/// Two characters for each byte.
pub proof fn hex_len(bytes: Seq<u8>)
    ensures
        hex(bytes).len() == 2 * bytes.len(),
    decreases bytes.len(),
{
    if bytes.len() > 0 {
        hex_len(bytes.drop_last());
    }
}

/// A short key for some text: the first sixteen hexadecimal digits of its digest.
pub open spec fn cache_key(material: Seq<char>) -> Seq<char> {
    hex(blake3_digest(encode_utf8(material))).take(16)
}

pub fn cache_key_of(material: &str) -> (r: String)
    ensures
        r@ == cache_key(material@),
        r@.len() == 16,
{
    let d = hash_bytes(material.as_bytes());
    let h = to_hex(d.as_slice());
    proof {
        hex_len(d@);
    }
    let t = h.as_str().substring_char(0, 16);
    assert(t@ =~= h@.take(16));
    t.to_owned()
}

} // verus!
