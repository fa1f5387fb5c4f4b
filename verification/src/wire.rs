//! Little-endian serialization of the fixed-width integers that appear in
//! encoded terms, with proofs that reading back what was written recovers
//! the value exactly.

use vstd::prelude::*;

verus! {

/// A run of `n` zero bytes, used to pad encoded terms to their fixed width.
pub open spec fn zero_bytes(n: nat) -> Seq<u8> {
    Seq::new(n, |i: int| 0u8)
}

/// The sixteen little-endian bytes of a 128-bit value.
pub open spec fn u128_le_bytes(x: u128) -> Seq<u8> {
    Seq::new(16, |i: int| (((x >> (8 * i) as u128) & 0xff) as u8))
}

/// The eight little-endian bytes of a 64-bit value.
pub open spec fn u64_le_bytes(x: u64) -> Seq<u8> {
    Seq::new(8, |i: int| (((x >> (8 * i) as u64) & 0xff) as u8))
}

/// The 128-bit value denoted by sixteen little-endian bytes.
pub open spec fn u128_from_le_bytes(b: Seq<u8>) -> u128
    recommends
        b.len() == 16,
{
    (b[0] as u128) | ((b[1] as u128) << 8) | ((b[2] as u128) << 16) | ((b[3] as u128) << 24)
        | ((b[4] as u128) << 32) | ((b[5] as u128) << 40) | ((b[6] as u128) << 48) | ((b[7]
        as u128) << 56) | ((b[8] as u128) << 64) | ((b[9] as u128) << 72) | ((b[10] as u128) << 80)
        | ((b[11] as u128) << 88) | ((b[12] as u128) << 96) | ((b[13] as u128) << 104) | ((b[14]
        as u128) << 112) | ((b[15] as u128) << 120)
}

/// The 64-bit value denoted by eight little-endian bytes.
pub open spec fn u64_from_le_bytes(b: Seq<u8>) -> u64
    recommends
        b.len() == 8,
{
    (b[0] as u64) | ((b[1] as u64) << 8) | ((b[2] as u64) << 16) | ((b[3] as u64) << 24) | ((b[4]
        as u64) << 32) | ((b[5] as u64) << 40) | ((b[6] as u64) << 48) | ((b[7] as u64) << 56)
}

proof fn lemma_u128_byte_bound(y: u128)
    ensures
        (y & 0xff) <= 0xff,
{
    assert((y & 0xff) <= 0xff) by (bit_vector);
}

proof fn lemma_u64_byte_bound(y: u64)
    ensures
        (y & 0xff) <= 0xff,
{
    assert((y & 0xff) <= 0xff) by (bit_vector);
}

/// Reassembling the sixteen little-endian bytes of a 128-bit value gives
/// the value back.
pub proof fn lemma_u128_le_round_trip(x: u128)
    ensures
        u128_from_le_bytes(u128_le_bytes(x)) == x,
{
    assert(((((x >> 0) & 0xff) as u8) as u128) | (((((x >> 8) & 0xff) as u8) as u128) << 8) | ((((
    (x >> 16) & 0xff) as u8) as u128) << 16) | (((((x >> 24) & 0xff) as u8) as u128) << 24) | ((((
    (x >> 32) & 0xff) as u8) as u128) << 32) | (((((x >> 40) & 0xff) as u8) as u128) << 40) | ((((
    (x >> 48) & 0xff) as u8) as u128) << 48) | (((((x >> 56) & 0xff) as u8) as u128) << 56) | ((((
    (x >> 64) & 0xff) as u8) as u128) << 64) | (((((x >> 72) & 0xff) as u8) as u128) << 72) | ((((
    (x >> 80) & 0xff) as u8) as u128) << 80) | (((((x >> 88) & 0xff) as u8) as u128) << 88) | ((((
    (x >> 96) & 0xff) as u8) as u128) << 96) | (((((x >> 104) & 0xff) as u8) as u128) << 104) | ((
    (((x >> 112) & 0xff) as u8) as u128) << 112) | (((((x >> 120) & 0xff) as u8) as u128) << 120)
        == x) by (bit_vector);
}

/// Reassembling the eight little-endian bytes of a 64-bit value gives the
/// value back.
pub proof fn lemma_u64_le_round_trip(x: u64)
    ensures
        u64_from_le_bytes(u64_le_bytes(x)) == x,
{
    assert(((((x >> 0) & 0xff) as u8) as u64) | (((((x >> 8) & 0xff) as u8) as u64) << 8) | (((((x
        >> 16) & 0xff) as u8) as u64) << 16) | (((((x >> 24) & 0xff) as u8) as u64) << 24) | (((((
    x >> 32) & 0xff) as u8) as u64) << 32) | (((((x >> 40) & 0xff) as u8) as u64) << 40) | (((((x
        >> 48) & 0xff) as u8) as u64) << 48) | (((((x >> 56) & 0xff) as u8) as u64) << 56) == x)
        by (bit_vector);
}

/// Appends the sixteen little-endian bytes of `x` to `buffer`.
pub fn push_u128_le(buffer: &mut Vec<u8>, x: u128)
    ensures
        final(buffer)@ == old(buffer)@ + u128_le_bytes(x),
{
    let ghost prefix = buffer@;
    let mut i: usize = 0;
    while i < 16
        invariant
            i <= 16,
            buffer@ == prefix + u128_le_bytes(x).take(i as int),
        decreases 16 - i,
    {
        let shifted: u128 = x >> ((8 * i) as u128);
        proof {
            lemma_u128_byte_bound(shifted);
        }
        let byte: u8 = (shifted & 0xff) as u8;
        buffer.push(byte);
        proof {
            assert(byte == u128_le_bytes(x)[i as int]);
            assert(buffer@ =~= prefix + u128_le_bytes(x).take(i + 1));
        }
        i = i + 1;
    }
    proof {
        assert(u128_le_bytes(x).take(16) =~= u128_le_bytes(x));
    }
}

/// Appends the eight little-endian bytes of `x` to `buffer`.
pub fn push_u64_le(buffer: &mut Vec<u8>, x: u64)
    ensures
        final(buffer)@ == old(buffer)@ + u64_le_bytes(x),
{
    let ghost prefix = buffer@;
    let mut i: usize = 0;
    while i < 8
        invariant
            i <= 8,
            buffer@ == prefix + u64_le_bytes(x).take(i as int),
        decreases 8 - i,
    {
        let shifted: u64 = x >> ((8 * i) as u64);
        proof {
            lemma_u64_byte_bound(shifted);
        }
        let byte: u8 = (shifted & 0xff) as u8;
        buffer.push(byte);
        proof {
            assert(byte == u64_le_bytes(x)[i as int]);
            assert(buffer@ =~= prefix + u64_le_bytes(x).take(i + 1));
        }
        i = i + 1;
    }
    proof {
        assert(u64_le_bytes(x).take(8) =~= u64_le_bytes(x));
    }
}

/// Appends `n` zero bytes to `buffer`.
pub fn push_zero_bytes(buffer: &mut Vec<u8>, n: usize)
    ensures
        final(buffer)@ == old(buffer)@ + zero_bytes(n as nat),
{
    let ghost prefix = buffer@;
    let mut i: usize = 0;
    while i < n
        invariant
            i <= n,
            buffer@ == prefix + zero_bytes(i as nat),
        decreases n - i,
    {
        buffer.push(0u8);
        proof {
            assert(buffer@ =~= prefix + zero_bytes((i + 1) as nat));
        }
        i = i + 1;
    }
}

/// Reads a 128-bit value from sixteen little-endian bytes at `offset`.
pub fn read_u128_le(key: &Vec<u8>, offset: usize) -> (r: u128)
    requires
        offset + 16 <= key@.len(),
    ensures
        r == u128_from_le_bytes(key@.subrange(offset as int, offset + 16)),
{
    let key_len: usize = key.len();
    proof {
        assert(offset + 16 <= key_len);
    }
    let r: u128 = (key[offset] as u128) | ((key[offset + 1] as u128) << 8) | ((key[offset + 2]
        as u128) << 16) | ((key[offset + 3] as u128) << 24) | ((key[offset + 4] as u128) << 32) | ((
    key[offset + 5] as u128) << 40) | ((key[offset + 6] as u128) << 48) | ((key[offset + 7]
        as u128) << 56) | ((key[offset + 8] as u128) << 64) | ((key[offset + 9] as u128) << 72) | ((
    key[offset + 10] as u128) << 80) | ((key[offset + 11] as u128) << 88) | ((key[offset + 12]
        as u128) << 96) | ((key[offset + 13] as u128) << 104) | ((key[offset + 14] as u128) << 112)
        | ((key[offset + 15] as u128) << 120);
    proof {
        let b = key@.subrange(offset as int, offset + 16);
        assert(forall|i: int| 0 <= i < 16 ==> b[i] == key@[offset + i]);
    }
    r
}

/// Reads a 64-bit value from eight little-endian bytes at `offset`.
pub fn read_u64_le(key: &Vec<u8>, offset: usize) -> (r: u64)
    requires
        offset + 8 <= key@.len(),
    ensures
        r == u64_from_le_bytes(key@.subrange(offset as int, offset + 8)),
{
    let key_len: usize = key.len();
    proof {
        assert(offset + 8 <= key_len);
    }
    let r: u64 = (key[offset] as u64) | ((key[offset + 1] as u64) << 8) | ((key[offset + 2] as u64)
        << 16) | ((key[offset + 3] as u64) << 24) | ((key[offset + 4] as u64) << 32) | ((key[offset
        + 5] as u64) << 40) | ((key[offset + 6] as u64) << 48) | ((key[offset + 7] as u64) << 56);
    proof {
        let b = key@.subrange(offset as int, offset + 8);
        assert(forall|i: int| 0 <= i < 8 ==> b[i] == key@[offset + i]);
    }
    r
}

/// The unsigned 64-bit two's-complement image of a signed value.
pub open spec fn i64_bits(v: i64) -> u64 {
    if v >= 0 {
        v as u64
    } else {
        (v + 0x1_0000_0000_0000_0000) as u64
    }
}

/// The signed value whose two's-complement image a 64-bit word is.
pub open spec fn i64_from_bits(u: u64) -> i64 {
    if u < 0x8000_0000_0000_0000 {
        u as i64
    } else {
        (u - 0x1_0000_0000_0000_0000) as i64
    }
}

/// The two's-complement image determines the signed value.
pub proof fn lemma_i64_bits_round_trip(v: i64)
    ensures
        i64_from_bits(i64_bits(v)) == v,
{
}

/// Computes the two's-complement image of `v`.
pub fn i64_to_bits(v: i64) -> (r: u64)
    ensures
        r == i64_bits(v),
{
    if v >= 0 {
        v as u64
    } else {
        ((v as i128) + 0x1_0000_0000_0000_0000i128) as u64
    }
}

/// Recovers the signed value from its two's-complement image.
pub fn i64_of_bits(u: u64) -> (r: i64)
    ensures
        r == i64_from_bits(u),
{
    if u < 0x8000_0000_0000_0000 {
        u as i64
    } else {
        ((u as i128) - 0x1_0000_0000_0000_0000i128) as i64
    }
}

/// Strict byte-lexicographic order: `a` comes before `b` when at the
/// first differing position `a` has the smaller byte, or `a` is a proper
/// prefix of `b`.
pub open spec fn lex_lt(a: Seq<u8>, b: Seq<u8>) -> bool
    decreases a.len(),
{
    if b.len() == 0 {
        false
    } else if a.len() == 0 {
        true
    } else if a[0] != b[0] {
        a[0] < b[0]
    } else {
        lex_lt(a.skip(1), b.skip(1))
    }
}

/// The order is irreflexive.
pub proof fn lemma_lex_lt_irreflexive(a: Seq<u8>)
    ensures
        !lex_lt(a, a),
    decreases a.len(),
{
    if a.len() > 0 {
        lemma_lex_lt_irreflexive(a.skip(1));
    }
}

/// Any two byte strings are ordered or equal.
pub proof fn lemma_lex_lt_total(a: Seq<u8>, b: Seq<u8>)
    ensures
        a == b || lex_lt(a, b) || lex_lt(b, a),
    decreases a.len(),
{
    if a.len() == 0 && b.len() == 0 {
        assert(a =~= b);
    } else if a.len() > 0 && b.len() > 0 && a[0] == b[0] {
        lemma_lex_lt_total(a.skip(1), b.skip(1));
        if a.skip(1) == b.skip(1) {
            assert(a.skip(1).len() == a.len() - 1);
            assert(b.skip(1).len() == b.len() - 1);
            assert(a.len() == b.len());
            assert forall|i: int| 0 <= i < a.len() implies a[i] == b[i] by {
                if i >= 1 {
                    assert(a.skip(1)[i - 1] == b.skip(1)[i - 1]);
                }
            }
            assert(a =~= b);
        }
    }
}

/// The order is transitive.
pub proof fn lemma_lex_lt_transitive(a: Seq<u8>, b: Seq<u8>, c: Seq<u8>)
    requires
        lex_lt(a, b),
        lex_lt(b, c),
    ensures
        lex_lt(a, c),
    decreases a.len(),
{
    if a.len() > 0 && b.len() > 0 && c.len() > 0 && a[0] == b[0] && b[0] == c[0] {
        lemma_lex_lt_transitive(a.skip(1), b.skip(1), c.skip(1));
    }
}

/// Lexicographic order over a common-width leading block decides first by
/// the blocks and then by the remainders.
pub proof fn lemma_lex_lt_blocks(x: Seq<u8>, u: Seq<u8>, y: Seq<u8>, v: Seq<u8>)
    requires
        x.len() == y.len(),
    ensures
        lex_lt(x + u, y + v) == (lex_lt(x, y) || (x == y && lex_lt(u, v))),
    decreases x.len(),
{
    if x.len() == 0 {
        assert(x =~= y);
        assert(x + u =~= u);
        assert(y + v =~= v);
    } else {
        assert((x + u)[0] == x[0]);
        assert((y + v)[0] == y[0]);
        assert((x + u).len() > 0 && (y + v).len() > 0);
        if x[0] != y[0] {
            assert(x != y);
        } else {
            assert((x + u).skip(1) =~= x.skip(1) + u);
            assert((y + v).skip(1) =~= y.skip(1) + v);
            lemma_lex_lt_blocks(x.skip(1), u, y.skip(1), v);
            if x.skip(1) == y.skip(1) {
                assert(x.skip(1).len() == x.len() - 1);
                assert(y.skip(1).len() == y.len() - 1);
                assert forall|i: int| 0 <= i < x.len() implies x[i] == y[i] by {
                    if i >= 1 {
                        assert(x.skip(1)[i - 1] == y.skip(1)[i - 1]);
                    }
                }
                assert(x =~= y);
            }
            if x == y {
                assert(x.skip(1) =~= y.skip(1));
            }
        }
    }
}

} // verus!
