//! Value-type arithmetic over IPv4 addresses and CIDR prefixes: masks, networks, broadcast
//! addresses and halves of a prefix, the containment relation between two prefixes, and the
//! number of aligned prefixes of a given length that fit inside an address range.
//!
//! Every operation is pure and works on small `Copy` values. Textual CIDR notation is read
//! through the `ipnet` crate.

/// the errors returned by the fallible operations of this crate
pub mod errors;
/// IPv4 addresses, prefixes, ranges and the relations between them
pub mod ipv4;
/// helpers for checking results
pub mod util;

pub use errors::Error;
