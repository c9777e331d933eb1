use vstd::arithmetic::div_mod::lemma_fundamental_div_mod_converse;
use vstd::arithmetic::power2::{lemma2_to64, lemma_pow2_adds, lemma_pow2_strictly_increases, pow2};
use vstd::bits::{lemma_u64_low_bits_mask_is_mod, lemma_u64_pow2_no_overflow, lemma_u64_shl_is_mul};
use vstd::prelude::*;

use super::bits::{lemma_agree_leading_zeros, mask_of};
use super::compare::{cmp_of, PrefixOrd};
use super::prefix::Prefix;
use super::range::{lemma_count_short, lemma_count_split, prefixes_in_range};
use super::set::{holds_by_cmp, prefixes_in_prefix};

verus! {

/// Comparing two prefixes of equal length never reports containment either way: they are the
/// same when their network addresses are equal, and disjoint otherwise.
pub proof fn lemma_cmp_equal_lengths(a: Prefix, b: Prefix)
    requires
        a.wf(),
        b.wf(),
        a.len() == b.len(),
    ensures
        cmp_of(a, b).0 == PrefixOrd::Same || cmp_of(a, b).0 == PrefixOrd::Disjoint,
        cmp_of(a, b).0 == PrefixOrd::Same <==> a.network_spec() == b.network_spec(),
{
    lemma_agree_leading_zeros(a.addr(), b.addr(), a.len() as u32);
}

/// For two prefixes of equal length that carry no host bits, comparing them reports `Same`
/// exactly when they are equal, and `Disjoint` otherwise.
pub proof fn lemma_cmp_equal_lengths_same_iff_equal(a: Prefix, b: Prefix)
    requires
        a.wf(),
        b.wf(),
        a.len() == b.len(),
        a.addr() == a.network_spec(),
        b.addr() == b.network_spec(),
    ensures
        cmp_of(a, b).0 == PrefixOrd::Same <==> a == b,
        cmp_of(a, b).0 != PrefixOrd::Same ==> cmp_of(a, b).0 == PrefixOrd::Disjoint,
{
    lemma_cmp_equal_lengths(a, b);
    Prefix::lemma_eq_by_parts(a, b);
}

/// When `a` contains `b` as a strictly longer prefix, `b` is contained in `a`, `a` holds `b`,
/// and `b` holds `a` only if their lengths are equal, which they are not.
pub proof fn lemma_contains_reverses(a: Prefix, b: Prefix)
    requires
        a.wf(),
        b.wf(),
        cmp_of(a, b).0 == PrefixOrd::Contains,
    ensures
        cmp_of(b, a).0 == PrefixOrd::IsContained,
        holds_by_cmp(cmp_of(a, b)),
        holds_by_cmp(cmp_of(b, a)) == (a.len() == b.len()),
{
}

/// Clearing the host bits of a network address changes nothing.
pub proof fn lemma_network_idempotent(p: Prefix)
    requires
        p.wf(),
    ensures
        p.network_spec() & p.mask_spec() == p.network_spec(),
{
    let a = p.addr();
    let m = p.mask_spec();
    assert((a & m) & m == a & m) by (bit_vector);
}

/// The two halves of a prefix are one bit longer than it, share no address, and together hold
/// exactly the addresses of the prefix.
pub proof fn lemma_halves_partition(p: Prefix, left: Prefix, right: Prefix)
    requires
        p.wf(),
        p.are_halves(left, right),
    ensures
        left.len() == p.len() + 1,
        right.len() == p.len() + 1,
        forall|x: u32| !(#[trigger] left.holds(x) && right.holds(x)),
        forall|x: u32| #[trigger] p.holds(x) <==> (left.holds(x) || right.holds(x)),
        forall|x: u32|
            (#[trigger] left.holds(x) || right.holds(x)) <==> p.network_spec() <= x
                <= p.broadcast_spec(),
{
    let l = p.len() as u32;
    let l1 = (l + 1) as u32;
    let a = p.addr();
    assert forall|x: u32| !(#[trigger] left.holds(x) && right.holds(x)) by {
        assert(l < 32 && l1 == l + 1 ==> !(x & mask_of(l1) == (a & mask_of(l)) & mask_of(l1) && x & mask_of(l1) == ((a & mask_of(l)) | (0x8000_0000u32 >> l)) & mask_of(l1))) by (bit_vector);
    }
    assert forall|x: u32| #[trigger] p.holds(x) <==> (left.holds(x) || right.holds(x)) by {
        assert(l < 32 && l1 == l + 1 ==> ((x & mask_of(l) == a & mask_of(l)) <==> (x & mask_of(l1) == (a
            & mask_of(l)) & mask_of(l1) || x & mask_of(l1) == ((a & mask_of(l)) | (
        0x8000_0000u32 >> l)) & mask_of(l1)))) by (bit_vector);
    }
    assert forall|x: u32|
        (#[trigger] left.holds(x) || right.holds(x)) <==> p.network_spec() <= x
            <= p.broadcast_spec() by {
        assert(p.holds(x) <==> (left.holds(x) || right.holds(x)));
        lemma_prefix_is_range(p, x);
    }
}

/// A prefix holds one prefix of its own length, and none shorter than itself.
pub proof fn lemma_count_conservation(p: Prefix, length: u8)
    requires
        p.wf(),
    ensures
        prefixes_in_prefix(p.len(), p.len()) == Ok::<u32, crate::errors::Error>(1),
        length < p.len() ==> prefixes_in_prefix(p.len(), length) == Ok::<u32, crate::errors::Error>(0),
{
    lemma2_to64();
}

/// A prefix holds every address of the address range from its network to its broadcast
/// address, and no other.
pub proof fn lemma_prefix_is_range(p: Prefix, x: u32)
    requires
        p.wf(),
    ensures
        p.holds(x) <==> p.network_spec() <= x <= p.broadcast_spec(),
{
    let a = p.addr();
    let l = p.len() as u32;
    assert(l <= 32 ==> ((x & mask_of(l) == a & mask_of(l)) <==> (a & mask_of(l) <= x <= (a
        | !mask_of(l))))) by (bit_vector);
}

/// `a` holds `b` by comparison exactly when every address of `b` is an address of `a`.
pub proof fn lemma_contains_is_subset(a: Prefix, b: Prefix)
    requires
        a.wf(),
        b.wf(),
    ensures
        holds_by_cmp(cmp_of(a, b)) <==> forall|x: u32| #[trigger] b.holds(x) ==> a.holds(x),
{
    let la = a.len() as u32;
    let lb = b.len() as u32;
    let va = a.addr();
    let vb = b.addr();
    lemma_agree_leading_zeros(va, vb, la);
    if la <= lb && va & mask_of(la) == vb & mask_of(la) {
        assert(holds_by_cmp(cmp_of(a, b)));
        assert forall|x: u32| #[trigger] b.holds(x) implies a.holds(x) by {
            assert(la <= lb && lb <= 32 && va & mask_of(la) == vb & mask_of(la) && x & mask_of(lb)
                == vb & mask_of(lb) ==> x & mask_of(la) == va & mask_of(la)) by (bit_vector);
        }
    } else if la <= lb {
        assert(!holds_by_cmp(cmp_of(a, b)));
        assert(b.holds(vb) && !a.holds(vb));
    } else {
        assert(!holds_by_cmp(cmp_of(a, b)));
        let w0 = vb & mask_of(lb);
        let w1 = w0 | (0x8000_0000u32 >> lb);
        assert(lb < la && la <= 32 ==> w0 & mask_of(lb) == vb & mask_of(lb) && w1 & mask_of(lb)
            == vb & mask_of(lb) && w0 & mask_of(la) != w1 & mask_of(la)) by (bit_vector)
            requires
                w0 == vb & mask_of(lb),
                w1 == w0 | (0x8000_0000u32 >> lb),
        ;
        assert(b.holds(w0) && b.holds(w1));
        assert(!a.holds(w0) || !a.holds(w1));
    }
}

/// The network address of a prefix of length `len` is a multiple of its block size, and its
/// broadcast address is the last address of that block.
proof fn lemma_prefix_block(a: u32, len: u32, size: u64)
    requires
        len <= 32,
        size == 1u64 << ((32 - len) as u64),
    ensures
        ((a & mask_of(len)) as u64) & ((size - 1) as u64) == 0,
        (a | !mask_of(len)) as u64 == (a & mask_of(len)) as u64 + size - 1,
{
    assert(len <= 32 && size == 1u64 << ((32 - len) as u64) ==> ((a & mask_of(len)) as u64) & ((
    size - 1) as u64) == 0 && (a | !mask_of(len)) as u64 == (a & mask_of(len)) as u64 + size - 1)
        by (bit_vector);
}

/// Counting the prefixes of a given length inside a prefix gives what counting them inside
/// its range of addresses gives.
pub proof fn lemma_prefix_count_matches_range(p: Prefix, length: u8)
    requires
        p.wf(),
    ensures
        prefixes_in_prefix(p.len(), length) == prefixes_in_range(
            p.network_spec(),
            p.broadcast_spec(),
            length,
        ),
{
    if length <= 32 {
        let own = (32 - p.len()) as u64;
        let big = 1u64 << own;
        lemma_u64_pow2_no_overflow(own as nat);
        lemma_u64_shl_is_mul(1, own);
        lemma_prefix_block(p.addr(), p.len() as u32, big);
        lemma_u64_low_bits_mask_is_mod(p.network_spec() as u64, own as nat);
        let start = p.network_spec() as int;
        let end = p.broadcast_spec() as int;
        let size = pow2((32 - length) as nat) as int;
        let whole = pow2(own as nat) as int;
        assert(start % whole == 0 && end == start + whole - 1);
        if length < p.len() {
            lemma_pow2_strictly_increases(own as nat, (32 - length) as nat);
            lemma_count_short(start, end, size);
        } else {
            let t = pow2((length - p.len()) as nat) as int;
            lemma_pow2_adds((32 - length) as nat, (length - p.len()) as nat);
            assert(whole == size * t);
            lemma_u64_pow2_no_overflow((32 - length) as nat);
            let k = start / whole;
            vstd::arithmetic::div_mod::lemma_fundamental_div_mod(start, whole);
            assert(start == (k * t) * size + 0) by (nonlinear_arith)
                requires
                    start == whole * k + start % whole,
                    start % whole == 0,
                    whole == size * t,
            ;
            lemma_fundamental_div_mod_converse(start, size, k * t, 0);
            lemma_count_split(start, start, end, size);
            assert(end + 1 - start == t * size + 0) by (nonlinear_arith)
                requires
                    end == start + whole - 1,
                    whole == size * t,
            ;
            lemma_fundamental_div_mod_converse(end + 1 - start, size, t, 0);
            assert((start - start) / size == 0);
        }
    }
}

} // verus!
