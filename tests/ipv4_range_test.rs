use addrs::ipv4::address::Address;
use addrs::ipv4::prefix::Prefix;
use addrs::ipv4::range::AddressRange;
use addrs::ipv4::set::AddressSet;
use addrs::Error;

fn ip(s: &str) -> Address {
    Prefix::parse(&format!("{s}/32")).expect("bad ip").address()
}

fn net(s: &str) -> Prefix {
    Prefix::parse(s).expect("bad prefix")
}

fn range_contains(from: &str, to: &str, contained: &str, not_contained: Vec<&str>) {
    let range = AddressRange::new(ip(from), ip(to));
    assert!(range.contains(&ip(contained).as_prefix()));
    for x in not_contained {
        assert!(!range.contains(&ip(x).as_prefix()));
    }
}

#[test]
fn range_contains_all_ipv4() {
    range_contains("0.0.0.0", "255.255.255.255", "1.2.3.4", vec![]);
}

#[test]
fn range_contains_ten() {
    range_contains("10.0.0.0", "10.255.255.255", "10.64.128.196", vec!["9.255.255.255", "11.0.0.0"]);
}

#[test]
fn range_contains_single() {
    range_contains(
        "10.0.0.0",
        "10.0.0.0",
        "10.0.0.0",
        vec!["0.0.0.0", "9.255.255.255", "11.0.0.0", "255.255.255.255"],
    );
}

#[test]
fn range_contains_prefixes() {
    let range = AddressRange::new(ip("10.0.0.0"), ip("10.0.1.255"));
    assert!(range.contains(&net("10.0.1.0/24")));
    assert!(range.contains(&net("10.0.0.0/23")));
    assert!(!range.contains(&net("10.0.0.0/22")));
    assert!(!range.contains(&net("10.0.2.0/24")));
}

fn range_empty(from: &str, empty_to: &str, not_empty_to: &str) {
    assert!(AddressRange::new(ip(from), ip(empty_to)).is_empty());
    assert!(!AddressRange::new(ip(from), ip(not_empty_to)).is_empty());
}

#[test]
fn range_empty_extremes() {
    range_empty("255.255.255.255", "0.0.0.0", "255.255.255.255");
}

#[test]
fn range_empty_one_off() {
    range_empty("10.0.0.1", "10.0.0.0", "10.0.0.1");
}

#[test]
fn range_whole_space_is_not_empty() {
    let range = AddressRange::new(ip("0.0.0.0"), ip("255.255.255.255"));
    assert!(!range.is_empty());
    assert_eq!(Err(Error::TooMany), range.num_addresses());
}

#[test]
fn iterator() {
    let range = AddressRange::new(ip("192.168.0.1"), ip("192.168.0.7"));
    assert_eq!(7, range.num_addresses().unwrap());
}

#[test]
fn prefix_as_range() {
    let prefix = net("10.224.0.0/24");
    let range = prefix.as_range_i();
    assert_eq!(prefix.network(), range.start);
    assert_eq!(prefix.broadcast(), range.end);
}

#[test]
fn address_as_range() {
    let address = ip("10.224.0.0");
    let range = address.as_range_i();
    assert_eq!(address, range.start);
    assert_eq!(address, range.end);
}

fn num_prefixes(expected: u32, from: &str, to: &str, length: u8) {
    let range = AddressRange::new(ip(from), ip(to));
    assert_eq!(expected, range.num_prefixes(length).unwrap());
}

#[test]
fn range_num_prefixes_empty() {
    num_prefixes(0, "10.224.24.1", "10.224.24.0", 32);
}

#[test]
fn range_num_prefixes_single() {
    num_prefixes(1, "10.224.24.1", "10.224.24.1", 32);
}

#[test]
fn range_num_prefixes_lowest() {
    num_prefixes(1, "0.0.0.0", "0.0.0.0", 32);
}

#[test]
fn range_num_prefixes_highest() {
    num_prefixes(1, "255.255.255.255", "255.255.255.255", 32);
}

#[test]
fn range_num_prefixes_class_c() {
    num_prefixes(256, "10.224.24.0", "10.224.24.255", 32);
}

#[test]
fn range_num_prefixes_class_b_to_c() {
    num_prefixes(256, "10.224.0.0", "10.224.255.255", 24);
}

#[test]
fn range_num_prefixes_class_b_to_c_extra() {
    num_prefixes(256, "10.223.255.1", "10.225.0.0", 24);
}

#[test]
fn range_num_prefixes_misaligned_ends() {
    num_prefixes(256, "10.223.255.1", "10.225.0.254", 24);
}

#[test]
fn range_num_prefixes_class_c_not_aligned() {
    num_prefixes(0, "10.223.255.1", "10.224.0.254", 24);
}

#[test]
fn range_num_prefixes_just_two() {
    num_prefixes(2, "127.255.255.255", "128.0.0.0", 32);
}

#[test]
fn range_num_prefixes_exact_block() {
    num_prefixes(1, "0.0.0.0", "0.0.0.3", 30);
    num_prefixes(1, "10.0.0.0", "10.255.255.255", 8);
    num_prefixes(2, "10.0.0.0", "10.255.255.255", 9);
    num_prefixes(0, "10.0.0.0", "10.255.255.254", 8);
}

#[test]
fn range_num_prefixes_whole_space() {
    num_prefixes(1, "0.0.0.0", "255.255.255.255", 0);
    num_prefixes(2, "0.0.0.0", "255.255.255.255", 1);
    num_prefixes(0, "0.0.0.1", "255.255.255.255", 0);
    let range = AddressRange::new(ip("0.0.0.0"), ip("255.255.255.255"));
    assert_eq!(Err(Error::TooMany), range.num_prefixes(32));
    assert_eq!(Ok(0x8000_0000), range.num_prefixes(31));
}

#[test]
fn num_prefixes_err() {
    let range = AddressRange::new(ip("10.224.24.1"), ip("10.224.24.0"));
    assert!(range.num_prefixes(33).is_err());
    assert_eq!(Err(Error::InvalidLength), range.num_prefixes(33));
}

#[test]
fn range_count_matches_brute_force() {
    let starts = [0u32, 1, 3, 4, 5, 7, 8, 13, 16, 31];
    let ends = [0u32, 2, 3, 7, 8, 15, 16, 31, 32, 63];
    for &s in starts.iter() {
        for &e in ends.iter() {
            for length in 26u8..=32 {
                let size = 1u64 << (32 - length);
                let mut expected = 0u32;
                let mut k = 0u64;
                while k * size <= 64 {
                    if s as u64 <= k * size && k * size + size - 1 <= e as u64 {
                        expected += 1;
                    }
                    k += 1;
                }
                let range = AddressRange::new(Address::from(s), Address::from(e));
                assert_eq!(Ok(expected), range.num_prefixes(length), "{s}..={e} /{length}");
            }
        }
    }
}
