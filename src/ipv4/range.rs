use vstd::arithmetic::div_mod::{lemma_fundamental_div_mod, lemma_fundamental_div_mod_converse};
use vstd::arithmetic::power2::{lemma2_to64, pow2};
use vstd::bits::{lemma_u64_low_bits_mask_is_mod, lemma_u64_pow2_no_overflow, lemma_u64_shl_is_mul};
use vstd::prelude::*;
use vstd::std_specs::bits::axiom_u32_leading_zeros;

use super::address::Address;
use super::bits::{mask_bits, mask_of};
use super::laws::lemma_prefix_is_range;
use super::prefix::Prefix;
use super::set::{count_result, AddressSet};
use crate::errors::Error;

verus! {

/// The number of aligned blocks of `size` addresses that lie wholly inside the inclusive range
/// `[start, end]`: the block multiples `k` with `start <= k * size` and
/// `(k + 1) * size - 1 <= end`.
pub open spec fn aligned_count(start: int, end: int, size: int) -> int {
    let c = (end + 1) / size - (start + size - 1) / size;
    if c < 0 {
        0
    } else {
        c
    }
}

/// The number of aligned prefixes of length `length` inside `[start, end]`.
pub open spec fn prefix_count(start: u32, end: u32, length: u8) -> int {
    aligned_count(start as int, end as int, pow2((32 - length) as nat) as int)
}

/// What counting the prefixes of length `length` inside `[start, end]` gives.
pub open spec fn prefixes_in_range(start: u32, end: u32, length: u8) -> Result<u32, Error> {
    if length > 32 {
        Err(Error::InvalidLength)
    } else {
        count_result(prefix_count(start, end, length))
    }
}

/// Splitting a range at a multiple of the block size splits its count of aligned blocks.
pub(crate) proof fn lemma_count_split(start: int, middle: int, end: int, size: int)
    requires
        size > 0,
        start <= middle <= end + 1,
        middle % size == 0,
    ensures
        (middle - start) / size + (end + 1 - middle) / size == aligned_count(start, end, size),
{
    let q = middle / size;
    lemma_fundamental_div_mod(middle, size);
    assert(middle == size * q);
    let r = end + 1 - middle;
    lemma_fundamental_div_mod(r, size);
    assert(end + 1 == size * (q + r / size) + r % size) by (nonlinear_arith)
        requires
            end + 1 == middle + r,
            middle == size * q,
            r == size * (r / size) + r % size,
    ;
    lemma_fundamental_div_mod_converse(end + 1, size, q + r / size, r % size);
    let y = middle - start;
    lemma_fundamental_div_mod(y, size);
    assert(start + size - 1 == size * (q - y / size) + (size - 1 - y % size)) by (nonlinear_arith)
        requires
            start == middle - y,
            middle == size * q,
            y == size * (y / size) + y % size,
    ;
    lemma_fundamental_div_mod_converse(start + size - 1, size, q - y / size, size - 1 - y % size);
    assert(r / size >= 0 && y / size >= 0) by (nonlinear_arith)
        requires
            r >= 0,
            y >= 0,
            size > 0,
    ;
}

/// A range shorter than one block holds no aligned block.
pub(crate) proof fn lemma_count_short(start: int, end: int, size: int)
    requires
        size > 0,
        end + 1 - start < size,
    ensures
        aligned_count(start, end, size) == 0,
{
    let k = (end + 1) / size;
    let c = (start + size - 1) / size;
    lemma_fundamental_div_mod(end + 1, size);
    lemma_fundamental_div_mod(start + size - 1, size);
    assert(k <= c) by (nonlinear_arith)
        requires
            size > 0,
            end + 1 == size * k + (end + 1) % size,
            0 <= (end + 1) % size,
            start + size - 1 == size * c + (start + size - 1) % size,
            (start + size - 1) % size < size,
            end + 1 - start < size,
    ;
}

/// A range that is exactly one aligned block holds one.
proof fn lemma_count_block(start: int, end: int, size: int)
    requires
        size > 0,
        end + 1 - start == size,
        start % size == 0,
    ensures
        aligned_count(start, end, size) == 1,
{
    let j = start / size;
    lemma_fundamental_div_mod(start, size);
    assert(end + 1 == (j + 1) * size + 0) by (nonlinear_arith)
        requires
            end + 1 == start + size,
            start == size * j + start % size,
            start % size == 0,
    ;
    lemma_fundamental_div_mod_converse(end + 1, size, j + 1, 0);
    assert(start + size - 1 == j * size + (size - 1)) by (nonlinear_arith)
        requires
            start == size * j + start % size,
            start % size == 0,
    ;
    lemma_fundamental_div_mod_converse(start + size - 1, size, j, size - 1);
}

/// What the bits tell of the point where two different addresses diverge: it lies above `start`
/// and no higher than `end`, on a multiple of `pivot`, and the range spans at most two `pivot`s;
/// when it spans exactly two, it starts on a multiple of twice `pivot`.
proof fn lemma_pivot(start: u32, end: u32, zeros: u32, mask: u32, pivot: u32, middle: u32)
    requires
        start < end,
        zeros < 32,
        zeros == 0 || (start ^ end) >> ((32 - zeros) as u32) == 0,
        ((start ^ end) >> ((31 - zeros) as u32)) & 1 == 1,
        mask == mask_of(zeros),
        pivot == 0x8000_0000u32 >> zeros,
        middle == (start & mask) | pivot,
    ensures
        start < middle <= end,
        middle & ((pivot - 1) as u32) == 0,
        (end - start) as u64 + 1 <= 2 * (pivot as u64),
        (end - start) as u64 + 1 == 2 * (pivot as u64) ==> (start as u64) & ((2 * (pivot as u64)
            - 1) as u64) == 0,
{
    assert(zeros < 32 && pivot == 0x8000_0000u32 >> zeros && mask == mask_of(zeros) && middle == (
    start & mask) | pivot ==> middle & ((pivot - 1) as u32) == 0) by (bit_vector);
    assert(start < end && zeros < 32 && (zeros == 0 || (start ^ end) >> ((32 - zeros) as u32) == 0)
        && ((start ^ end) >> ((31 - zeros) as u32)) & 1 == 1 && mask == mask_of(zeros) && pivot
        == 0x8000_0000u32 >> zeros && middle == (start & mask) | pivot ==> start < middle <= end)
        by (bit_vector);
    assert(start < end && zeros < 32 && (zeros == 0 || (start ^ end) >> ((32 - zeros) as u32) == 0)
        && pivot == 0x8000_0000u32 >> zeros ==> (end - start) as u64 + 1 <= 2 * (pivot as u64))
        by (bit_vector);
    assert(start < end && zeros < 32 && (zeros == 0 || (start ^ end) >> ((32 - zeros) as u32) == 0)
        && pivot == 0x8000_0000u32 >> zeros && (end - start) as u64 + 1 == 2 * (pivot as u64) ==> (
    start as u64) & ((2 * (pivot as u64) - 1) as u64) == 0) by (bit_vector);
}

/// How a block size of `2^(32 - length)` compares with `pivot`, a power of two: no larger means
/// it divides every multiple of `pivot`; larger means at least twice `pivot`.
proof fn lemma_block_vs_pivot(zeros: u32, pivot: u32, middle: u32, length: u32, size: u64)
    requires
        zeros < 32,
        pivot == 0x8000_0000u32 >> zeros,
        middle & ((pivot - 1) as u32) == 0,
        length <= 32,
        size == 1u64 << ((32 - length) as u64),
    ensures
        size <= pivot ==> (middle as u64) & ((size - 1) as u64) == 0,
        size > pivot ==> size >= 2 * (pivot as u64),
{
    assert(zeros < 32 && pivot == 0x8000_0000u32 >> zeros && middle & ((pivot - 1) as u32) == 0
        && length <= 32 && size == 1u64 << ((32 - length) as u64) && size <= pivot ==> (
    middle as u64) & ((size - 1) as u64) == 0) by (bit_vector);
    assert(zeros < 32 && pivot == 0x8000_0000u32 >> zeros && length <= 32 && size == 1u64 << ((32
        - length) as u64) && size > pivot ==> size >= 2 * (pivot as u64)) by (bit_vector);
}

/// An inclusive range of addresses `[start, end]`; it is empty when `end < start`.
#[derive(Debug, Clone, Copy, PartialEq, Eq, Structural)]
pub struct AddressRange {
    /// the first address of the range
    pub start: Address,
    /// the last address of the range
    pub end: Address,
}

impl AddressRange {
    /// returns the range from `start` to `end`, both included
    pub fn new(start: Address, end: Address) -> (r: AddressRange)
        ensures
            r.start == start,
            r.end == end,
    {
        AddressRange { start, end }
    }

    /// Whether the address `x` lies in the range.
    pub open spec fn holds(self, x: u32) -> bool {
        self.start@ <= x <= self.end@
    }
}

impl AddressSet for AddressRange {
    /// returns the number of addresses in the range
    fn num_addresses(&self) -> (r: Result<u32, Error>)
        ensures
            r == prefixes_in_range(self.start@, self.end@, 32),
            match r {
                Ok(n) => n == (if self.end@ < self.start@ {
                    0
                } else {
                    self.end@ - self.start@ + 1
                }),
                Err(e) => e == Error::TooMany && self.start@ == 0 && self.end@ == u32::MAX,
            },
    {
        let r = self.num_prefixes(Address::BITS);
        proof {
            lemma2_to64();
            let s = self.start@ as int;
            let e = self.end@ as int;
            assert((e + 1) / 1 == e + 1 && (s + 1 - 1) / 1 == s) by (nonlinear_arith);
        }
        r
    }

    /// returns the number of aligned prefixes of the given length that lie wholly inside the
    /// range. If the count does not fit in a [`u32`] it returns [`Error::TooMany`]. If >32 is
    /// passed for length then [`Error::InvalidLength`] is returned.
    ///
    /// The range is cut where its two ends first differ; each side is then aligned on that cut.
    /// Blocks larger than one side of the cut can only fit when the range is one such block.
    fn num_prefixes(&self, length: u8) -> (r: Result<u32, Error>)
        ensures
            r == prefixes_in_range(self.start@, self.end@, length),
    {
        if length > Address::BITS {
            return Err(Error::InvalidLength);
        }
        let start = self.start.to_u32();
        let end = self.end.to_u32();
        let shift = (32 - length) as u64;
        let size: u64 = 1u64 << shift;
        proof {
            lemma_u64_pow2_no_overflow(shift as nat);
            lemma_u64_shl_is_mul(1, shift);
            assert(size == pow2(shift as nat));
        }
        if end < start {
            proof {
                lemma_count_short(start as int, end as int, size as int);
            }
            return Ok(0);
        }
        let xor = start ^ end;
        let zeros = xor.leading_zeros();
        proof {
            axiom_u32_leading_zeros(xor);
            assert(xor == 0 <==> start == end) by (bit_vector)
                requires
                    xor == start ^ end,
            ;
            if zeros < 32 {
                let s = (31 - zeros) as u32;
                assert((xor >> s) & 1 != 0 ==> (xor >> s) & 1 == 1) by (bit_vector);
            }
        }
        let mask = mask_bits(zeros);
        let pivot: u32 = if zeros == 32 {
            0
        } else {
            0x8000_0000u32 >> zeros
        };
        let middle = (start & mask) | pivot;
        let total: u64 = if size <= pivot as u64 {
            proof {
                lemma_pivot(start, end, zeros, mask, pivot, middle);
                lemma_block_vs_pivot(zeros, pivot, middle, length as u32, size);
                lemma_u64_low_bits_mask_is_mod(middle as u64, shift as nat);
                lemma_count_split(start as int, middle as int, end as int, size as int);
            }
            (middle - start) as u64 / size + ((end - middle) as u64 + 1) / size
        } else if (end - start) as u64 + 1 == size {
            // the range lies in the block below the shared leading bits, which is no larger
            // than `size`: it holds a block of `size` only by being that block
            proof {
                if zeros < 32 {
                    lemma_pivot(start, end, zeros, mask, pivot, middle);
                    lemma_block_vs_pivot(zeros, pivot, middle, length as u32, size);
                    lemma_u64_low_bits_mask_is_mod(start as u64, shift as nat);
                }
                lemma_count_block(start as int, end as int, size as int);
            }
            1
        } else {
            proof {
                if zeros < 32 {
                    lemma_pivot(start, end, zeros, mask, pivot, middle);
                    lemma_block_vs_pivot(zeros, pivot, middle, length as u32, size);
                }
                lemma_count_short(start as int, end as int, size as int);
            }
            0
        };
        if total > u32::MAX as u64 {
            Err(Error::TooMany)
        } else {
            Ok(total as u32)
        }
    }

    /// returns true if the range holds no address
    fn is_empty(&self) -> (r: bool)
        ensures
            r == (self.end@ < self.start@),
    {
        match self.num_addresses() {
            Ok(0) => true,
            _ => false,
        }
    }

    /// returns true if both the network and the broadcast address of `other` lie in the range
    fn contains(&self, other: &Prefix) -> (r: bool)
        ensures
            r == (self.holds(other.network_spec()) && self.holds(other.broadcast_spec())),
            r <==> forall|x: u32| #[trigger] other.holds(x) ==> self.holds(x),
    {
        proof {
            use_type_invariant(other);
            let n = other.network_spec();
            let b = other.broadcast_spec();
            let a = other.addr();
            let m = other.mask_spec();
            assert(a & m <= a | !m) by (bit_vector);
            lemma_prefix_is_range(*other, n);
            lemma_prefix_is_range(*other, b);
            assert forall|x: u32| #[trigger] other.holds(x) implies n <= x <= b by {
                lemma_prefix_is_range(*other, x);
            }
        }
        let network = other.network().to_u32();
        let broadcast = other.broadcast().to_u32();
        self.start.to_u32() <= network && network <= self.end.to_u32() && self.start.to_u32()
            <= broadcast && broadcast <= self.end.to_u32()
    }
}

} // verus!
