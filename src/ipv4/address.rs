use vstd::prelude::*;

use super::bits::{
    byte_at, lemma_octets_of_value, lemma_value_of_own_octets, octets_of, value_of_octets,
};

verus! {

/// An IPv4 address: a 32-bit value whose canonical form is four bytes in network order.
///
/// Every bit pattern is a valid address. Addresses are ordered as the 32-bit values they hold.
#[derive(Debug, Clone, Copy, PartialEq, Eq, Structural, PartialOrd, Ord, Hash)]
pub struct Address {
    bits: u32,
}

impl View for Address {
    type V = u32;

    closed spec fn view(&self) -> u32 {
        self.bits
    }
}

impl Address {
    /// Two addresses are equal exactly when their values are.
    pub proof fn lemma_view_injective(x: Address, y: Address)
        ensures
            x@ == y@ <==> x == y,
    {
    }

    /// all v4 addresses are 32 bits
    pub const BITS: u8 = 32;

    /// returns the loopback address 127.0.0.1
    pub fn localhost() -> (r: Address)
        ensures
            r@ == 0x7f00_0001,
            octets_of(r@) == seq![127u8, 0u8, 0u8, 1u8],
    {
        assert(value_of_octets(127, 0, 0, 1) == 0x7f00_0001) by (bit_vector);
        Address::new(127, 0, 0, 1)
    }

    /// returns the address made of the four given bytes, most significant first
    pub fn new(a: u8, b: u8, c: u8, d: u8) -> (r: Address)
        ensures
            r@ == value_of_octets(a, b, c, d),
            octets_of(r@) == seq![a, b, c, d],
    {
        proof {
            lemma_octets_of_value(a, b, c, d);
        }
        let bits = ((a as u32) << 24u32) | ((b as u32) << 16u32) | ((c as u32) << 8u32) | (d as u32);
        Address { bits }
    }

    /// returns the address that holds the given 32-bit value
    pub fn from_u32(bits: u32) -> (r: Address)
        ensures
            r@ == bits,
    {
        Address { bits }
    }

    /// returns the 32-bit value of this address
    pub fn to_u32(&self) -> (r: u32)
        ensures
            r == self@,
    {
        self.bits
    }

    /// returns the bytes of the address in network order
    pub fn octets(&self) -> (r: [u8; 4])
        ensures
            r@ == octets_of(self@),
            value_of_octets(r[0], r[1], r[2], r[3]) == self@,
    {
        proof {
            lemma_value_of_own_octets(self@);
        }
        let v = self.bits;
        let b0 = #[verifier::truncate] (((v >> 24u32) & 0xff) as u8);
        let b1 = #[verifier::truncate] (((v >> 16u32) & 0xff) as u8);
        let b2 = #[verifier::truncate] (((v >> 8u32) & 0xff) as u8);
        let b3 = #[verifier::truncate] ((v & 0xff) as u8);
        assert(b0 == byte_at(v, 0) && b1 == byte_at(v, 1) && b2 == byte_at(v, 2) && b3
            == byte_at(v, 3)) by (bit_vector)
            requires
                b0 == #[verifier::truncate] (((v >> 24u32) & 0xff) as u8),
                b1 == #[verifier::truncate] (((v >> 16u32) & 0xff) as u8),
                b2 == #[verifier::truncate] (((v >> 8u32) & 0xff) as u8),
                b3 == #[verifier::truncate] ((v & 0xff) as u8),
        ;
        let r = [b0, b1, b2, b3];
        assert(r@ =~= octets_of(v));
        r
    }
}

impl core::ops::BitAnd for Address {
    type Output = Address;

    fn bitand(self, rhs: Address) -> (r: Address)
        ensures
            r@ == self@ & rhs@,
    {
        Address { bits: self.bits & rhs.bits }
    }
}

impl vstd::std_specs::ops::BitAndSpecImpl for Address {
    open spec fn obeys_bitand_spec() -> bool {
        true
    }

    open spec fn bitand_req(self, rhs: Address) -> bool {
        true
    }

    closed spec fn bitand_spec(self, rhs: Address) -> Address {
        Address { bits: self.bits & rhs.bits }
    }
}

impl core::ops::BitOr for Address {
    type Output = Address;

    fn bitor(self, rhs: Address) -> (r: Address)
        ensures
            r@ == self@ | rhs@,
    {
        Address { bits: self.bits | rhs.bits }
    }
}

impl vstd::std_specs::ops::BitOrSpecImpl for Address {
    open spec fn obeys_bitor_spec() -> bool {
        true
    }

    open spec fn bitor_req(self, rhs: Address) -> bool {
        true
    }

    closed spec fn bitor_spec(self, rhs: Address) -> Address {
        Address { bits: self.bits | rhs.bits }
    }
}

impl core::ops::Not for Address {
    type Output = Address;

    fn not(self) -> (r: Address)
        ensures
            r@ == !self@,
    {
        Address { bits: !self.bits }
    }
}

impl vstd::std_specs::ops::NotSpecImpl for Address {
    open spec fn obeys_not_spec() -> bool {
        true
    }

    open spec fn not_req(self) -> bool {
        true
    }

    closed spec fn not_spec(self) -> Address {
        Address { bits: !self.bits }
    }
}

impl From<u32> for Address {
    fn from(bits: u32) -> (r: Address)
        ensures
            r@ == bits,
    {
        Address { bits }
    }
}

impl vstd::std_specs::convert::FromSpecImpl<u32> for Address {
    open spec fn obeys_from_spec() -> bool {
        true
    }

    closed spec fn from_spec(bits: u32) -> Address {
        Address { bits }
    }
}

impl From<Address> for u32 {
    fn from(address: Address) -> (r: u32)
        ensures
            r == address@,
    {
        address.bits
    }
}

impl vstd::std_specs::convert::FromSpecImpl<Address> for u32 {
    open spec fn obeys_from_spec() -> bool {
        true
    }

    open spec fn from_spec(address: Address) -> u32 {
        address@
    }
}

impl From<[u8; 4]> for Address {
    fn from(octets: [u8; 4]) -> (r: Address)
        ensures
            r@ == value_of_octets(octets[0], octets[1], octets[2], octets[3]),
            octets_of(r@) == octets@,
    {
        let r = Address::new(octets[0], octets[1], octets[2], octets[3]);
        assert(octets_of(r@) =~= octets@);
        r
    }
}

impl vstd::std_specs::convert::FromSpecImpl<[u8; 4]> for Address {
    open spec fn obeys_from_spec() -> bool {
        true
    }

    closed spec fn from_spec(octets: [u8; 4]) -> Address {
        Address { bits: value_of_octets(octets@[0], octets@[1], octets@[2], octets@[3]) }
    }
}

impl From<Address> for [u8; 4] {
    fn from(address: Address) -> (r: [u8; 4])
        ensures
            r@ == octets_of(address@),
    {
        let r = address.octets();
        let ghost expected: [u8; 4] = [
            byte_at(address@, 0),
            byte_at(address@, 1),
            byte_at(address@, 2),
            byte_at(address@, 3),
        ];
        assert(r@ =~= expected@);
        r
    }
}

impl vstd::std_specs::convert::FromSpecImpl<Address> for [u8; 4] {
    open spec fn obeys_from_spec() -> bool {
        true
    }

    open spec fn from_spec(address: Address) -> [u8; 4] {
        [byte_at(address@, 0), byte_at(address@, 1), byte_at(address@, 2), byte_at(address@, 3)]
    }
}

} // verus!
