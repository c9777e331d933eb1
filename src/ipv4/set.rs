use vstd::arithmetic::power2::{lemma2_to64, lemma_pow2_pos, pow2};
use vstd::bits::{lemma_u32_pow2_no_overflow, lemma_u32_shl_is_mul};
use vstd::prelude::*;
use vstd::std_specs::bits::axiom_u32_leading_zeros;

use super::address::Address;
use super::compare::{cmp_of, Child, Cmp, PrefixOrd};
use super::laws::lemma_contains_is_subset;
use super::prefix::Prefix;
use crate::errors::Error;

verus! {

/// A set of IPv4 addresses: a prefix, an inclusive range, or a single address.
pub trait AddressSet {
    /// returns the number of addresses in the set. It ignores any bits set in the host part of
    /// the address. If the number would overflow a [`u32`] it returns [`Error::TooMany`].
    fn num_addresses(&self) -> Result<u32, Error>;

    /// returns the number of aligned prefixes of the given length contained in this set. If the
    /// number would overflow a [`u32`] it returns [`Error::TooMany`]. If >32 is passed for
    /// length then [`Error::InvalidLength`] is returned.
    fn num_prefixes(&self, length: u8) -> Result<u32, Error>;

    /// returns true if the set holds no address
    fn is_empty(&self) -> bool;

    /// returns true if the given prefix is wholly contained within this set. The host bits of
    /// the prefix are ignored.
    fn contains(&self, other: &Prefix) -> bool;
}

/// The number of prefixes of length `length` inside a prefix of length `len`.
pub open spec fn subprefix_count(len: u8, length: u8) -> int {
    if length < len {
        0
    } else {
        pow2((length - len) as nat) as int
    }
}

/// A count as the counting methods return it: [`Error::TooMany`] when it does not fit in a
/// [`u32`].
pub open spec fn count_result(c: int) -> Result<u32, Error> {
    if c > u32::MAX {
        Err(Error::TooMany)
    } else {
        Ok(c as u32)
    }
}

/// What counting the prefixes of length `length` inside a prefix of length `len` gives.
pub open spec fn prefixes_in_prefix(len: u8, length: u8) -> Result<u32, Error> {
    if length > 32 {
        Err(Error::InvalidLength)
    } else {
        count_result(subprefix_count(len, length))
    }
}

/// Whether a comparison result says that the first prefix holds the second.
pub open spec fn holds_by_cmp(r: (PrefixOrd, bool, u8, Option<Child>)) -> bool {
    r.0 == PrefixOrd::Same || r.0 == PrefixOrd::Contains
}

impl AddressSet for Prefix {
    fn num_addresses(&self) -> (r: Result<u32, Error>)
        ensures
            r == prefixes_in_prefix(self.len(), 32),
            r is Err <==> self.len() == 0,
    {
        let r = self.num_prefixes(Address::BITS);
        proof {
            use_type_invariant(self);
            if self.len() == 0 {
                lemma2_to64();
            } else {
                lemma_u32_pow2_no_overflow((32 - self.len()) as nat);
            }
        }
        r
    }

    fn num_prefixes(&self, length: u8) -> (r: Result<u32, Error>)
        ensures
            r == prefixes_in_prefix(self.len(), length),
    {
        let own = self.length();
        if length < own {
            Ok(0)
        } else if length > Address::BITS {
            Err(Error::InvalidLength)
        } else {
            let p = (length - own) as u32;
            if p < 32 {
                proof {
                    lemma_u32_pow2_no_overflow(p as nat);
                    lemma_u32_shl_is_mul(1, p);
                }
                Ok(1u32 << p)
            } else {
                proof {
                    lemma2_to64();
                }
                Err(Error::TooMany)
            }
        }
    }

    fn is_empty(&self) -> (r: bool)
        ensures
            !r,
    {
        proof {
            use_type_invariant(self);
            lemma_pow2_pos((32 - self.len()) as nat);
        }
        match self.num_addresses() {
            Ok(0) => true,
            _ => false,
        }
    }

    fn contains(&self, other: &Prefix) -> (r: bool)
        ensures
            r == holds_by_cmp(cmp_of(*self, *other)),
            r <==> forall|x: u32| #[trigger] other.holds(x) ==> self.holds(x),
    {
        proof {
            use_type_invariant(self);
            use_type_invariant(other);
            lemma_contains_is_subset(*self, *other);
        }
        match self.cmp(other) {
            (PrefixOrd::Same, _, _, _) | (PrefixOrd::Contains, _, _, _) => true,
            _ => false,
        }
    }
}

impl AddressSet for Address {
    fn num_addresses(&self) -> (r: Result<u32, Error>)
        ensures
            r == Ok::<u32, Error>(1),
    {
        let r = self.as_prefix().num_prefixes(Address::BITS);
        proof {
            lemma2_to64();
        }
        r
    }

    fn num_prefixes(&self, length: u8) -> (r: Result<u32, Error>)
        ensures
            r == prefixes_in_prefix(32, length),
    {
        let r = self.as_prefix().num_prefixes(length);
        proof {
            if length == 32 {
                lemma2_to64();
            }
        }
        r
    }

    fn is_empty(&self) -> (r: bool)
        ensures
            !r,
    {
        self.as_prefix().is_empty()
    }

    fn contains(&self, other: &Prefix) -> (r: bool)
        ensures
            r == (other.len() == 32 && other.addr() == self@),
    {
        let r = self.as_prefix().contains(other);
        proof {
            use_type_invariant(other);
            let a = self@;
            let b = other.addr();
            let x = a ^ b;
            axiom_u32_leading_zeros(x);
            assert(x == 0 <==> a == b) by (bit_vector)
                requires
                    x == a ^ b,
            ;
        }
        r
    }
}

} // verus!
