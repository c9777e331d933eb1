use vstd::prelude::*;
use vstd::std_specs::bits::{axiom_u8_leading_zeros, u32_leading_zeros, u8_leading_zeros};

use super::bits::{
    byte_at, lemma_leading_zeros_at_least, lemma_leading_zeros_exact, octets_of,
};
use super::prefix::Prefix;

verus! {

/// The side on which a prefix branches off: the value of its first bit past the common bits.
#[derive(Debug, Clone, Copy, PartialEq, Eq, Structural)]
pub enum Child {
    /// the bit is 0
    Left,
    /// the bit is 1
    Right,
}

/// How one prefix relates to another.
#[derive(Debug, Clone, Copy, PartialEq, Eq, Structural)]
pub enum PrefixOrd {
    /// both prefixes cover the same addresses
    Same,
    /// the first prefix covers the second
    Contains,
    /// the first prefix is covered by the second
    IsContained,
    /// no address belongs to both
    Disjoint,
}

/// The number of leading bits on which `a` and `b` agree, counting no further than `limit`.
pub open spec fn common_bits(a: u32, b: u32, limit: u8) -> u8 {
    let z = u32_leading_zeros(a ^ b);
    if z < limit {
        z as u8
    } else {
        limit
    }
}

/// The branch that `b` takes at bit `bit`, counted from the most significant bit.
pub open spec fn child_at(b: u32, bit: u8) -> Child {
    if (b >> ((31 - bit) as u32)) & 1 == 0 {
        Child::Left
    } else {
        Child::Right
    }
}

/// How a prefix (`a`, `la`) relates to a prefix (`b`, `lb`) that is at least as long: the
/// relation, the number of leading bits they share (no more than `la`), and, unless they are the
/// same, the branch that `b` takes right after the shared bits.
pub open spec fn containership_of(a: u32, la: u8, b: u32, lb: u8) -> (PrefixOrd, u8, Option<Child>) {
    let c = common_bits(a, b, la);
    if c == la && la == lb {
        (PrefixOrd::Same, la, None)
    } else if c == la {
        (PrefixOrd::Contains, c, Some(child_at(b, c)))
    } else {
        (PrefixOrd::Disjoint, c, Some(child_at(b, c)))
    }
}

/// The comparison of prefix `a` with prefix `b`: the shorter one is compared with the longer
/// one, and the flag tells whether they were swapped, in which case `Contains` reads
/// `IsContained`.
pub open spec fn cmp_of(a: Prefix, b: Prefix) -> (PrefixOrd, bool, u8, Option<Child>) {
    if b.len() < a.len() {
        let (ord, common, child) = containership_of(b.addr(), b.len(), a.addr(), a.len());
        let ord = if ord == PrefixOrd::Contains {
            PrefixOrd::IsContained
        } else {
            ord
        };
        (ord, true, common, child)
    } else {
        let (ord, common, child) = containership_of(a.addr(), a.len(), b.addr(), b.len());
        (ord, false, common, child)
    }
}

/// Byte `i` of an exclusive or is the exclusive or of the bytes.
proof fn lemma_byte_xor(a: u32, b: u32, i: u32)
    requires
        i < 4,
    ensures
        byte_at(a, i) ^ byte_at(b, i) == byte_at(a ^ b, i),
{
    assert(i < 4 ==> byte_at(a, i) ^ byte_at(b, i) == byte_at(a ^ b, i)) by (bit_vector);
}

/// The facts about the leading zeros of a byte, in the shape the lemmas below take them.
proof fn lemma_byte_leading_zeros(byte: u8)
    ensures
        u8_leading_zeros(byte) <= 8,
        u8_leading_zeros(byte) == 0 || byte >> ((8 - u8_leading_zeros(byte)) as u8) == 0,
        u8_leading_zeros(byte) < 8 ==> (byte >> ((7 - u8_leading_zeros(byte)) as u8)) & 1 == 1,
{
    axiom_u8_leading_zeros(byte);
    let s = (7 - u8_leading_zeros(byte)) as u8;
    assert((byte >> s) & 1u8 != 0u8 ==> (byte >> s) & 1u8 == 1u8) by (bit_vector);
}

/// When the bytes before byte `i` of `x` are zero and byte `i` starts with `s` zero bits, the
/// first `8 * i + s` bits of `x` are zero.
proof fn lemma_zero_bits_through_byte(x: u32, i: u32, z: u32, s: u32)
    requires
        i < 4,
        i == 0 || x >> ((32 - 8 * i) as u32) == 0,
        z <= 8,
        z == 0 || byte_at(x, i) >> ((8 - z) as u8) == 0,
        s <= z,
        1 <= 8 * i + s,
    ensures
        x >> ((32 - (8 * i + s)) as u32) == 0,
{
    assert(i < 4 && (i == 0 || x >> ((32 - 8 * i) as u32) == 0) && z <= 8 && (z == 0 || byte_at(
        x,
        i,
    ) >> ((8 - z) as u8) == 0) && s <= z && 1 <= 8 * i + s ==> x >> ((32 - (8 * i + s)) as u32)
        == 0) by (bit_vector);
}

/// When the bytes before byte `i` of `x` are zero and the first one-bit of byte `i` is bit
/// `z`, the first one-bit of `x` is bit `8 * i + z`.
proof fn lemma_first_one_in_byte(x: u32, i: u32, z: u32)
    requires
        i < 4,
        i == 0 || x >> ((32 - 8 * i) as u32) == 0,
        z < 8,
        (byte_at(x, i) >> ((7 - z) as u8)) & 1 == 1,
    ensures
        (x >> ((31 - (8 * i + z)) as u32)) & 1 == 1,
{
    assert(i < 4 && z < 8 && (byte_at(x, i) >> ((7 - z) as u8)) & 1 == 1 ==> (x >> ((31 - (8 * i
        + z)) as u32)) & 1 == 1) by (bit_vector);
}

/// Bit `c` of byte `i` of `b` (or the top bit of the next byte when `c` is 8) is bit
/// `8 * i + c` of `b`.
proof fn lemma_bit_in_bytes(b: u32, i: u32, c: u32)
    requires
        i < 4,
        c <= 8,
        c == 8 ==> i < 3,
    ensures
        c < 8 ==> ((((0x80u8 >> (c as u8)) & byte_at(b, i)) == 0) <==> (b >> ((31 - (8 * i + c))
            as u32)) & 1 == 0),
        c == 8 ==> (((0x80u8 & byte_at(b, (i + 1) as u32)) == 0) <==> (b >> ((31 - (8 * i + c))
            as u32)) & 1 == 0),
{
    assert(i < 4 && c < 8 ==> ((((0x80u8 >> (c as u8)) & byte_at(b, i)) == 0) <==> (b >> ((31 - (
    8 * i + c)) as u32)) & 1 == 0)) by (bit_vector);
    assert(i < 3 && c == 8 ==> (((0x80u8 & byte_at(b, (i + 1) as u32)) == 0) <==> (b >> ((31 - (8
        * i + c)) as u32)) & 1 == 0)) by (bit_vector);
}

/// Entry `i` of the bytes of `v` is byte `i` of `v`.
proof fn lemma_octet_index(v: u32, i: int)
    requires
        0 <= i < 4,
    ensures
        octets_of(v)[i] == byte_at(v, i as u32),
{
}

/// Compares prefixes bit by bit to tell whether one contains the other.
pub trait Cmp: Sized {
    /// The number of leading bits of a value that are significant.
    spec fn significant_bits(&self) -> nat;

    /// compares `self` with a prefix that is at least as long: whether `self` is the same
    /// prefix, contains `longer` or is disjoint from it, the number of leading bits that they
    /// share, and, unless they are the same, whether the first bit of `longer` past the shared
    /// bits is 0 ([`Child::Left`]) or 1 ([`Child::Right`])
    fn containership(&self, longer: &Self) -> (PrefixOrd, u8, Option<Child>)
        requires
            self.significant_bits() <= longer.significant_bits(),
    ;

    /// compares `self` with `other` whatever their lengths, the shorter against the longer; the
    /// flag is true when `other` was the shorter one
    fn cmp(&self, other: &Self) -> (PrefixOrd, bool, u8, Option<Child>);
}

impl Cmp for Prefix {
    open spec fn significant_bits(&self) -> nat {
        self.len() as nat
    }

    fn containership(&self, longer: &Prefix) -> (r: (PrefixOrd, u8, Option<Child>))
        ensures
            r == containership_of(self.addr(), self.len(), longer.addr(), longer.len()),
    {
        let short: [u8; 4] = self.address().octets();
        let long: [u8; 4] = longer.address().octets();
        let short_total = self.length();
        let long_total = longer.length();
        let ghost a = self.addr();
        let ghost b = longer.addr();
        let ghost x = a ^ b;
        let mut i: usize = 0;
        while i < 4
            invariant
                i <= 4,
                short@ == octets_of(a),
                long@ == octets_of(b),
                x == a ^ b,
                a == self.addr(),
                b == longer.addr(),
                short_total == self.len(),
                long_total == longer.len(),
                short_total <= long_total <= 32,
                8 * i <= short_total,
                i == 0 || 8 * i < short_total,
                i == 0 || x >> ((32 - 8 * i) as u32) == 0,
            decreases 4 - i,
        {
            let offset = (i * 8) as u8;
            let short_len = short_total - offset;
            proof {
                lemma_octet_index(a, i as int);
                lemma_octet_index(b, i as int);
                lemma_byte_xor(a, b, i as u32);
                lemma_byte_leading_zeros(byte_at(x, i as u32));
            }
            let zeros = (short[i] ^ long[i]).leading_zeros() as u8;
            let common = if short_len < zeros {
                short_len
            } else {
                zeros
            };
            let ghost z = zeros as u32;
            let ord = if short_len <= common {
                if short_len == long_total - offset {
                    proof {
                        if short_total > 0 {
                            lemma_zero_bits_through_byte(x, i as u32, z, short_len as u32);
                            lemma_leading_zeros_at_least(x, short_total as u32);
                        }
                    }
                    return (PrefixOrd::Same, short_total, None);
                }
                proof {
                    if short_total > 0 {
                        lemma_zero_bits_through_byte(x, i as u32, z, short_len as u32);
                        lemma_leading_zeros_at_least(x, short_total as u32);
                    }
                }
                PrefixOrd::Contains
            } else if common == 8 {
                proof {
                    lemma_zero_bits_through_byte(x, i as u32, z, 8);
                }
                i = i + 1;
                continue ;
            } else {
                proof {
                    if z > 0 || i > 0 {
                        lemma_zero_bits_through_byte(x, i as u32, z, z);
                    }
                    lemma_first_one_in_byte(x, i as u32, z);
                    lemma_leading_zeros_exact(x, (8 * i + z) as u32);
                }
                PrefixOrd::Disjoint
            };
            proof {
                lemma_bit_in_bytes(b, i as u32, common as u32);
                if common == 8 {
                    lemma_octet_index(b, i + 1);
                }
            }
            let pivot_bit = if common == 8 {
                0x80u8 & long[i + 1]
            } else {
                (0x80u8 >> common) & long[i]
            };
            let child = if pivot_bit == 0 {
                Child::Left
            } else {
                Child::Right
            };
            return (ord, common + offset, Some(child));
        }
        (PrefixOrd::Same, short_total, None)
    }

    fn cmp(&self, other: &Prefix) -> (r: (PrefixOrd, bool, u8, Option<Child>))
        ensures
            r == cmp_of(*self, *other),
    {
        let (reversed, (ord, common, child)) = if other.length() < self.length() {
            (true, other.containership(self))
        } else {
            (false, self.containership(other))
        };
        let ord = if reversed && ord == PrefixOrd::Contains {
            PrefixOrd::IsContained
        } else {
            ord
        };
        (ord, reversed, common, child)
    }
}

} // verus!
