/// the 32-bit address type
pub mod address;
/// bit-level definitions and lemmas shared by the address types
pub mod bits;
/// prefixes: an address with a count of significant leading bits
pub mod prefix;
/// the containment relation between two prefixes
pub mod compare;
/// inclusive ranges of addresses and the count of aligned prefixes inside them
pub mod range;
/// sets of addresses: counting what they hold and testing containment
pub mod set;
/// reading prefixes from CIDR notation
pub mod text;
/// laws that tie the operations together
pub mod laws;
