use vstd::prelude::*;

verus! {

/// enumerates the possible errors from methods in this crate
#[derive(Debug, Clone, Copy, PartialEq, Eq, Structural)]
pub enum Error {
    /// returned when an invalid length was given (i.e. >32 for IPv4)
    InvalidLength,
    /// returned when an invalid netmask was given (e.g. 255.255.0.255)
    InvalidMask,
    /// returned when counting addresses or prefixes overflows
    TooMany,
    /// returned when parsing a prefix from a string fails
    ParseError,
}

impl Error {
    /// The human readable description of each error.
    pub open spec fn text(self) -> Seq<char> {
        match self {
            Error::InvalidLength => "length is more than the number bits in the address"@,
            Error::InvalidMask => "invalid netmask"@,
            Error::TooMany => "too many to count"@,
            Error::ParseError => "prefix parsing failed"@,
        }
    }

    /// returns the human readable description of this error
    pub fn message(&self) -> (r: &'static str)
        ensures
            r@ == self.text(),
    {
        match self {
            Error::InvalidLength => "length is more than the number bits in the address",
            Error::InvalidMask => "invalid netmask",
            Error::TooMany => "too many to count",
            Error::ParseError => "prefix parsing failed",
        }
    }
}

} // verus!
