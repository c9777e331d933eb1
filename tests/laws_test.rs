use addrs::ipv4::address::Address;
use addrs::ipv4::compare::{Child, Cmp, PrefixOrd};
use addrs::ipv4::prefix::Prefix;
use addrs::ipv4::range::AddressRange;
use addrs::ipv4::set::AddressSet;
use addrs::Error;

fn cidr(s: &str) -> Prefix {
    Prefix::parse(s).expect("bad prefix")
}

#[test]
fn equal_lengths_give_same_or_disjoint() {
    assert_eq!(PrefixOrd::Same, cidr("10.0.0.0/24").cmp(&cidr("10.0.0.0/24")).0);
    assert_eq!(PrefixOrd::Disjoint, cidr("10.0.0.0/24").cmp(&cidr("10.0.1.0/24")).0);
    // host bits do not take part in the comparison
    assert_eq!(PrefixOrd::Same, cidr("10.0.0.1/24").cmp(&cidr("10.0.0.2/24")).0);
}

#[test]
fn contains_reverses_to_is_contained() {
    let a = cidr("10.0.0.0/8");
    let b = cidr("10.10.0.0/16");
    let (ord, reversed, common, child) = a.cmp(&b);
    assert_eq!((PrefixOrd::Contains, false, 8, Some(Child::Left)), (ord, reversed, common, child));
    assert_eq!(PrefixOrd::IsContained, b.cmp(&a).0);
    assert!(a.contains(&b));
    assert!(!b.contains(&a));
}

#[test]
fn network_of_network_is_network() {
    let p = cidr("10.224.24.117/22");
    let n = Prefix::from_address_length(p.network(), p.length()).unwrap();
    assert_eq!(p.network(), n.network());
    assert_eq!(Address::new(10, 224, 24, 0), n.network());
}

#[test]
fn halves_partition_the_prefix() {
    let p = cidr("10.224.24.117/24");
    let (left, right) = p.halves().unwrap();
    assert_eq!((cidr("10.224.24.0/25"), cidr("10.224.24.128/25")), (left, right));
    assert_eq!(25, left.length());
    assert_eq!(25, right.length());
    assert_eq!(left.broadcast().to_u32() + 1, right.network().to_u32());
    assert_eq!(p.network(), left.network());
    assert_eq!(p.broadcast(), right.broadcast());
    assert!(p.contains(&left) && p.contains(&right));
    assert!(!left.contains(&right) && !right.contains(&left));
}

#[test]
fn count_conservation() {
    let p = cidr("203.0.113.0/24");
    assert_eq!(Ok(1), p.num_prefixes(p.length()));
    assert_eq!(Ok(0), p.num_prefixes(23));
    assert_eq!(Ok(0), p.num_prefixes(0));
    let all = cidr("0.0.0.0/0");
    assert_eq!(Ok(1), all.num_prefixes(0));
}

#[test]
fn scenario_counts() {
    assert_eq!(Ok(4), cidr("203.0.113.0/24").num_prefixes(26));
    assert_eq!(Err(Error::TooMany), cidr("0.0.0.0/0").num_prefixes(32));
    assert_eq!(Err(Error::InvalidLength), cidr("0.0.0.0/0").num_prefixes(33));
    let range = AddressRange::new(Address::new(10, 223, 255, 1), Address::new(10, 225, 0, 254));
    assert_eq!(Ok(256), range.num_prefixes(24));
}

#[test]
fn scenario_masks() {
    let ip = Address::new(10, 1, 2, 3);
    let p = Prefix::from_address_mask(ip, Address::new(255, 255, 252, 0)).unwrap();
    assert_eq!(Ok(p), Prefix::from_address_length(ip, 22));
    assert_eq!(Err(Error::InvalidMask), Prefix::from_address_mask(ip, Address::new(192, 168, 1, 0)));
}

#[test]
fn prefix_count_agrees_with_its_range() {
    for s in ["10.0.0.0/8", "10.224.24.1/24", "192.168.3.7/31", "1.2.3.4/32"] {
        let p = cidr(s);
        for length in 0u8..=32 {
            assert_eq!(p.num_prefixes(length), p.as_range_i().num_prefixes(length), "{s} /{length}");
        }
    }
}
