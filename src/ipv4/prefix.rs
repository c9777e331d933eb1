use core::ops::{BitAnd, BitOr, Not};
use vstd::prelude::*;

use super::address::Address;
use super::bits::{lemma_mask_shape, mask_bits, mask_of};
use super::range::AddressRange;
use crate::errors::Error;

verus! {

/// An IPv4 prefix (a CIDR block): an address together with the number of its leading bits that
/// are significant.
///
/// The address keeps its host bits; they are cleared only on demand by [`Prefix::network`].
#[derive(Debug, Clone, Copy, PartialEq, Eq, Structural)]
pub struct Prefix {
    address: Address,
    length: u8,
}

impl Prefix {
    /// The 32-bit value of the address part, host bits included.
    pub closed spec fn addr(self) -> u32 {
        self.address@
    }

    /// The prefix length.
    pub closed spec fn len(self) -> u8 {
        self.length
    }

    /// A prefix value is well formed when its length is at most 32; every prefix that exists at
    /// run time is.
    #[verifier::type_invariant]
    pub open spec fn wf(self) -> bool {
        self.len() <= 32
    }

    /// The mask of the prefix: `len()` one-bits, then zero-bits.
    pub open spec fn mask_spec(self) -> u32 {
        mask_of(self.len() as u32)
    }

    /// The address with the host bits cleared.
    pub open spec fn network_spec(self) -> u32 {
        self.addr() & self.mask_spec()
    }

    /// The address with the network bits cleared.
    pub open spec fn host_spec(self) -> u32 {
        self.addr() & !self.mask_spec()
    }

    /// The address with the host bits set.
    pub open spec fn broadcast_spec(self) -> u32 {
        self.addr() | !self.mask_spec()
    }

    /// Whether the address `x` belongs to the prefix: it agrees with the prefix on every
    /// network bit.
    pub open spec fn holds(self, x: u32) -> bool {
        x & self.mask_spec() == self.network_spec()
    }

    /// Whether `left` and `right` are the two halves of this prefix: one bit longer, the left
    /// one on the network address, the right one on the network address with the first host bit
    /// set.
    pub open spec fn are_halves(self, left: Prefix, right: Prefix) -> bool {
        &&& self.len() < 32
        &&& left.addr() == self.network_spec()
        &&& right.addr() == self.network_spec() | (0x8000_0000u32 >> (self.len() as u32))
        &&& left.len() == self.len() + 1
        &&& right.len() == self.len() + 1
    }

    /// Two prefixes are equal exactly when their addresses and lengths are.
    pub proof fn lemma_eq_by_parts(p: Prefix, q: Prefix)
        ensures
            (p.addr() == q.addr() && p.len() == q.len()) <==> p == q,
    {
        Address::lemma_view_injective(p.address, q.address);
    }

    /// builds a prefix from a length that is already known to be valid
    fn from_parts(address: Address, length: u8) -> (r: Prefix)
        requires
            length <= 32,
        ensures
            r.addr() == address@,
            r.len() == length,
    {
        Prefix { address, length }
    }

    /// returns the address part of the Prefix, including host bits
    pub fn address(&self) -> (r: Address)
        ensures
            r@ == self.addr(),
    {
        self.address
    }

    /// returns the prefix length which is the number of leading 1s in the netmask
    pub fn length(&self) -> (r: u8)
        ensures
            r == self.len(),
            r <= 32,
    {
        proof {
            use_type_invariant(self);
        }
        self.length
    }

    /// returns the prefix for the given address combined with the given prefix length. If the
    /// length is greater than 32 then [`Error::InvalidLength`] is returned.
    pub fn from_address_length(address: Address, length: u8) -> (r: Result<Prefix, Error>)
        ensures
            match r {
                Ok(p) => length <= 32 && p.addr() == address@ && p.len() == length,
                Err(e) => length > 32 && e == Error::InvalidLength,
            },
    {
        if length <= Address::BITS {
            Ok(Prefix::from_parts(address, length))
        } else {
            Err(Error::InvalidLength)
        }
    }

    /// returns the prefix for the given address combined with the given mask. The mask must be
    /// an address where anywhere from 0 to 32 left-most bits are all 1s followed by all 0s on the
    /// right. If the mask is invalid, [`Error::InvalidMask`] is returned.
    pub fn from_address_mask(address: Address, mask: Address) -> (r: Result<Prefix, Error>)
        ensures
            match r {
                Ok(p) => p.addr() == address@ && p.wf() && p.mask_spec() == mask@,
                Err(e) => e == Error::InvalidMask && forall|len: u32|
                    len <= 32 ==> #[trigger] mask_of(len) != mask@,
            },
    {
        let m = mask.to_u32();
        proof {
            lemma_mask_shape(m);
        }
        let ones = m.leading_ones();
        if ones + m.trailing_zeros() == 32 {
            Ok(Prefix::from_parts(address, ones as u8))
        } else {
            Err(Error::InvalidMask)
        }
    }

    /// returns a new Address with `1s` in the first `length` bits and then `0s` representing
    /// the network mask for this prefix
    pub fn mask(&self) -> (r: Address)
        ensures
            r@ == self.mask_spec(),
    {
        Address::from_u32(mask_bits(self.length() as u32))
    }

    /// returns the address with the host bits zeroed out so that only the bits in the
    /// `network` part of the prefix can be non-zero.
    pub fn network(&self) -> (r: Address)
        ensures
            r@ == self.network_spec(),
    {
        self.address().bitand(self.mask())
    }

    /// returns the address with the network bits zeroed out so that only the bits in the
    /// `host` part of the prefix can be non-zero.
    pub fn host(&self) -> (r: Address)
        ensures
            r@ == self.host_spec(),
    {
        self.address().bitand(self.mask().not())
    }

    /// returns the address with all the host bits set to 1s.
    pub fn broadcast(&self) -> (r: Address)
        ensures
            r@ == self.broadcast_spec(),
    {
        self.address().bitor(self.mask().not())
    }

    /// returns two prefixes that partition this prefix into two equal halves. If the prefix is
    /// a host route (/32), then None is returned.
    pub fn halves(&self) -> (r: Option<(Prefix, Prefix)>)
        ensures
            match r {
                None => self.len() == 32,
                Some((left, right)) => self.are_halves(left, right),
            },
    {
        let length = self.length();
        if length < Address::BITS {
            let left = self.network().to_u32();
            let right = left | (0x8000_0000u32 >> length as u32);
            Some(
                (
                    Prefix::from_parts(Address::from_u32(left), length + 1),
                    Prefix::from_parts(Address::from_u32(right), length + 1),
                ),
            )
        } else {
            None
        }
    }

    /// returns an inclusive range of IP addresses equivalent to the range of addresses
    /// contained within this Prefix. The range is closed so that the entire IP range can be
    /// represented.
    pub fn as_range_i(&self) -> (r: AddressRange)
        ensures
            r.start@ == self.network_spec(),
            r.end@ == self.broadcast_spec(),
    {
        AddressRange::new(self.network(), self.broadcast())
    }
}

impl Address {
    /// returns the address as a host route: the prefix of length 32 made of the address
    pub fn as_prefix(&self) -> (r: Prefix)
        ensures
            r.addr() == self@,
            r.len() == 32,
    {
        Prefix::from_parts(*self, Address::BITS)
    }

    /// returns the range that holds this address alone
    pub fn as_range_i(&self) -> (r: AddressRange)
        ensures
            r.start == *self,
            r.end == *self,
    {
        AddressRange::new(*self, *self)
    }
}

} // verus!
