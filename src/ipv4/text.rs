use vstd::prelude::*;

use super::address::Address;
use super::prefix::Prefix;
use crate::errors::Error;

verus! {

/// What the `ipnet` crate reads from a text in IPv4 CIDR notation (`a.b.c.d/len`): the address
/// as a 32-bit value and the prefix length, or nothing when the text is not in that notation.
pub uninterp spec fn cidr_of(s: Seq<char>) -> Option<(u32, u8)>;

/// Relies on `<ipnet::Ipv4Net as FromStr>::from_str` to read CIDR notation; the result is a
/// function of the text alone, and the prefix length it accepts is at most 32 (its parser reads
/// at most two digits below 33, and `Ipv4Net::new` refuses more). `Ipv4Net::addr` and
/// `Ipv4Net::prefix_len` hand back the two parts unchanged.
#[verifier::external_body]
fn parse_cidr(s: &str) -> (r: Option<(u32, u8)>)
    ensures
        r == cidr_of(s@),
        r matches Some((_, len)) ==> len <= 32,
{
    match s.parse::<ipnet::Ipv4Net>() {
        Ok(net) => Some((u32::from(net.addr()), net.prefix_len())),
        Err(_) => None,
    }
}

impl Prefix {
    /// returns the prefix written in CIDR notation (`a.b.c.d/len`), or [`Error::ParseError`]
    /// when the text is not IPv4 CIDR notation
    pub fn parse(s: &str) -> (r: Result<Prefix, Error>)
        ensures
            match cidr_of(s@) {
                Some((address, length)) => r matches Ok(p) && p.addr() == address && p.len()
                    == length,
                None => r == Err::<Prefix, Error>(Error::ParseError),
            },
    {
        match parse_cidr(s) {
            Some((address, length)) => Prefix::from_address_length(Address::from_u32(address), length),
            None => Err(Error::ParseError),
        }
    }
}

} // verus!
