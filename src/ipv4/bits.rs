use vstd::prelude::*;
use vstd::std_specs::bits::{
    axiom_u32_leading_zeros, axiom_u32_trailing_zeros, u32_leading_ones, u32_leading_zeros,
    u32_trailing_zeros,
};

verus! {

/// Byte `i` (0 is the most significant) of the big-endian representation of `v`.
pub open spec fn byte_at(v: u32, i: u32) -> u8 {
    #[verifier::truncate]
    (((v >> ((24 - 8 * i) as u32)) & 0xff) as u8)
}

/// The four bytes of `v` in network (big-endian) order.
pub open spec fn octets_of(v: u32) -> Seq<u8> {
    seq![byte_at(v, 0), byte_at(v, 1), byte_at(v, 2), byte_at(v, 3)]
}

/// The value whose big-endian bytes are `a`, `b`, `c`, `d`.
pub open spec fn value_of_octets(a: u8, b: u8, c: u8, d: u8) -> u32 {
    ((a as u32) << 24u32) | ((b as u32) << 16u32) | ((c as u32) << 8u32) | (d as u32)
}

/// Reading the bytes of a value and putting them back together gives the value again.
pub proof fn lemma_value_of_own_octets(v: u32)
    ensures
        value_of_octets(byte_at(v, 0), byte_at(v, 1), byte_at(v, 2), byte_at(v, 3)) == v,
{
    assert(value_of_octets(byte_at(v, 0), byte_at(v, 1), byte_at(v, 2), byte_at(v, 3)) == v)
        by (bit_vector);
}

/// Putting four bytes together and reading them back gives the same bytes.
pub proof fn lemma_octets_of_value(a: u8, b: u8, c: u8, d: u8)
    ensures
        byte_at(value_of_octets(a, b, c, d), 0) == a,
        byte_at(value_of_octets(a, b, c, d), 1) == b,
        byte_at(value_of_octets(a, b, c, d), 2) == c,
        byte_at(value_of_octets(a, b, c, d), 3) == d,
{
    assert(byte_at(value_of_octets(a, b, c, d), 0) == a) by (bit_vector);
    assert(byte_at(value_of_octets(a, b, c, d), 1) == b) by (bit_vector);
    assert(byte_at(value_of_octets(a, b, c, d), 2) == c) by (bit_vector);
    assert(byte_at(value_of_octets(a, b, c, d), 3) == d) by (bit_vector);
}

/// The mask of a prefix of length `len` (at most 32): `len` one-bits followed by zero-bits.
pub open spec fn mask_of(len: u32) -> u32 {
    if len == 0 {
        0
    } else {
        0xffff_ffffu32 << ((32 - len) as u32)
    }
}

/// Computes the mask of a prefix of length `len`.
pub fn mask_bits(len: u32) -> (r: u32)
    requires
        len <= 32,
    ensures
        r == mask_of(len),
{
    if len == 0 {
        0
    } else {
        0xffff_ffffu32 << (32 - len)
    }
}

/// A value whose `n` top bits are zero and whose next bit is one has exactly `n` leading zeros.
pub proof fn lemma_leading_zeros_exact(x: u32, n: u32)
    requires
        n <= 32,
        n == 0 || x >> ((32 - n) as u32) == 0,
        n == 32 || (x >> ((31 - n) as u32)) & 1 == 1,
    ensures
        u32_leading_zeros(x) == n,
{
    axiom_u32_leading_zeros(x);
    let z = u32_leading_zeros(x) as u32;
    assert(z <= 32 && (z < 32 ==> (x >> ((31 - z) as u32)) & 1u32 != 0u32) && (z == 0 || x >> (
    (32 - z) as u32) == 0) && (n == 0 || x >> ((32 - n) as u32) == 0) && (n == 32 || (x >> ((31
        - n) as u32)) & 1 == 1) && n <= 32 ==> z == n) by (bit_vector);
}

/// A value whose `n` top bits are zero has at least `n` leading zeros.
pub proof fn lemma_leading_zeros_at_least(x: u32, n: u32)
    requires
        1 <= n <= 32,
        x >> ((32 - n) as u32) == 0,
    ensures
        u32_leading_zeros(x) >= n,
{
    axiom_u32_leading_zeros(x);
    let z = u32_leading_zeros(x) as u32;
    assert(z <= 32 && (z < 32 ==> (x >> ((31 - z) as u32)) & 1u32 != 0u32) && 1 <= n <= 32 && x
        >> ((32 - n) as u32) == 0 ==> z >= n) by (bit_vector);
}

/// A value whose `n` low bits are zero and whose next bit is one has exactly `n` trailing zeros.
pub proof fn lemma_trailing_zeros_exact(x: u32, n: u32)
    requires
        n <= 32,
        n == 0 || x << ((32 - n) as u32) == 0,
        n == 32 || (x >> n) & 1 == 1,
    ensures
        u32_trailing_zeros(x) == n,
{
    axiom_u32_trailing_zeros(x);
    let z = u32_trailing_zeros(x) as u32;
    assert(z <= 32 && (z < 32 ==> (x >> z) & 1u32 == 1u32) && (z == 0 || x << ((32 - z) as u32)
        == 0) && (n == 0 || x << ((32 - n) as u32) == 0) && (n == 32 || (x >> n) & 1 == 1) && n
        <= 32 ==> z == n) by (bit_vector);
}

/// Two values agree on their first `len` bits exactly when their exclusive or starts with at
/// least `len` zero bits.
pub proof fn lemma_agree_leading_zeros(a: u32, b: u32, len: u32)
    requires
        len <= 32,
    ensures
        (a & mask_of(len) == b & mask_of(len)) <==> u32_leading_zeros(a ^ b) >= len,
{
    let x = a ^ b;
    axiom_u32_leading_zeros(x);
    let z = u32_leading_zeros(x) as u32;
    assert(z <= 32 && x == a ^ b && x >> ((32 - z) as u32) == 0 && (z < 32 ==> (x >> ((31 - z)
        as u32)) & 1u32 != 0u32) && len <= 32 ==> ((a & mask_of(len) == b & mask_of(len)) <==> z
        >= len)) by (bit_vector);
}

/// A 32-bit value is the mask of some length exactly when its leading ones and trailing zeros
/// add up to 32; that length is the number of leading ones.
pub proof fn lemma_mask_shape(m: u32)
    ensures
        u32_leading_ones(m) <= 32,
        u32_leading_ones(m) + u32_trailing_zeros(m) == 32 ==> m == mask_of(u32_leading_ones(m)),
        forall|len: u32|
            len <= 32 && m == #[trigger] mask_of(len) ==> u32_leading_ones(m) == len
                && u32_leading_ones(m) + u32_trailing_zeros(m) == 32,
{
    axiom_u32_leading_zeros(!m);
    axiom_u32_trailing_zeros(m);
    let n = u32_leading_ones(m);
    let t = u32_trailing_zeros(m);
    assert(n <= 32 && t <= 32 && (n == 0 || (!m) >> ((32 - n) as u32) == 0) && (t == 0 || m << ((
    32 - t) as u32) == 0) && n + t == 32 ==> m == mask_of(n)) by (bit_vector);
    assert forall|len: u32| len <= 32 && m == #[trigger] mask_of(len) implies n == len && n + t
        == 32 by {
        assert(len <= 32 && m == mask_of(len) ==> (len == 0 || (!m) >> ((32 - len) as u32) == 0)
            && (len == 32 || ((!m) >> ((31 - len) as u32)) & 1 == 1)) by (bit_vector);
        lemma_leading_zeros_exact(!m, len);
        let t2 = (32 - len) as u32;
        assert(len <= 32 && m == mask_of(len) && t2 == 32 - len ==> (t2 == 0 || m << ((32 - t2)
            as u32) == 0) && (t2 == 32 || (m >> t2) & 1 == 1)) by (bit_vector);
        lemma_trailing_zeros_exact(m, t2);
    }
}

} // verus!
