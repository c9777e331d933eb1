use addrs::ipv4::compare::{Child, Cmp, PrefixOrd};
use addrs::ipv4::prefix::Prefix;

fn p(s: &str) -> Prefix {
    Prefix::parse(s).expect("bad prefix")
}

fn cmp(a: &str, b: &str, expected_ord: PrefixOrd, expected_common: u8, expected_child: Option<Child>) {
    let a = p(a);
    let b = p(b);
    let (ord, common, child) = a.containership(&b);
    assert_eq!(expected_ord, ord);
    assert_eq!(expected_common, common);
    assert_eq!(expected_child, child);

    // compare forward
    let (ord, reversed, common, child) = a.cmp(&b);
    assert!(!reversed);
    assert_eq!(expected_common, common);
    assert_eq!(expected_child, child);
    assert_eq!(expected_ord, ord);

    // compare reversed
    let (ord, reversed, common_, _) = b.cmp(&a);
    assert_eq!(a.length() != b.length(), reversed);
    assert_eq!(expected_common, common_);
    let expected_ord = match expected_ord {
        PrefixOrd::Contains => PrefixOrd::IsContained,
        PrefixOrd::IsContained => PrefixOrd::Contains,
        _ => expected_ord,
    };
    assert_eq!(expected_ord, ord);
}

#[test]
fn cmp_trivial() {
    cmp("0.0.0.0/0", "0.0.0.0/0", PrefixOrd::Same, 0, None);
}

#[test]
fn cmp_exact() {
    cmp("10.0.0.0/16", "10.0.0.0/16", PrefixOrd::Same, 16, None);
}

#[test]
fn cmp_exact_partial() {
    cmp("10.0.0.0/19", "10.0.31.0/19", PrefixOrd::Same, 19, None);
}

#[test]
fn cmp_exact_host_route() {
    cmp("10.0.0.1/32", "10.0.0.1/32", PrefixOrd::Same, 32, None);
}

#[test]
fn cmp_empty_prefix_match() {
    cmp("0.0.0.0/0", "10.10.0.0/16", PrefixOrd::Contains, 0, Some(Child::Left));
}

#[test]
fn cmp_empty_prefix_match_backwards() {
    cmp("0.0.0.0/0", "130.10.0.0/16", PrefixOrd::Contains, 0, Some(Child::Right));
}

#[test]
fn cmp_matches() {
    cmp("10.0.0.0/8", "10.10.0.0/16", PrefixOrd::Contains, 8, Some(Child::Left));
}

#[test]
fn cmp_matches_partial() {
    cmp("10.200.0.0/9", "10.129.0.0/16", PrefixOrd::Contains, 9, Some(Child::Left));
}

#[test]
fn cmp_matches_backwards() {
    cmp("10.0.0.0/8", "10.200.0.0/16", PrefixOrd::Contains, 8, Some(Child::Right));
}

#[test]
fn cmp_matches_backwards_partial() {
    cmp("10.240.0.0/9", "10.200.0.0/16", PrefixOrd::Contains, 9, Some(Child::Right));
}

#[test]
fn cmp_matches_host_route() {
    cmp("10.0.0.0/31", "10.0.0.1/32", PrefixOrd::Contains, 31, Some(Child::Right));
    cmp("10.0.0.0/24", "10.0.1.0/25", PrefixOrd::Disjoint, 23, Some(Child::Right));
    cmp("10.0.0.0/24", "10.0.0.0/32", PrefixOrd::Contains, 24, Some(Child::Left));
}

#[test]
fn cmp_disjoint() {
    cmp("0.0.0.0/1", "128.0.0.0/1", PrefixOrd::Disjoint, 0, Some(Child::Right));
}

#[test]
fn cmp_disjoint_longer() {
    cmp("0.0.0.0/17", "0.0.128.0/17", PrefixOrd::Disjoint, 16, Some(Child::Right));
}

#[test]
fn cmp_disjoint_longer_partial() {
    cmp("0.0.0.0/17", "0.1.0.0/17", PrefixOrd::Disjoint, 15, Some(Child::Right));
}

#[test]
fn cmp_disjoint_backwards() {
    cmp("128.0.0.0/1", "0.0.0.0/1", PrefixOrd::Disjoint, 0, Some(Child::Left));
}

#[test]
fn cmp_disjoint_backwards_longer() {
    cmp("0.0.128.0/19", "0.0.0.0/19", PrefixOrd::Disjoint, 16, Some(Child::Left));
}

#[test]
fn cmp_disjoint_backwards_longer_partial() {
    cmp("0.1.0.0/19", "0.0.0.0/19", PrefixOrd::Disjoint, 15, Some(Child::Left));
}

#[test]
fn cmp_disjoint_with_common() {
    cmp("10.0.0.0/16", "10.10.0.0/16", PrefixOrd::Disjoint, 12, Some(Child::Right));
}

#[test]
fn cmp_disjoint_with_more_disjoint_bytes() {
    cmp("0.255.255.0/24", "128.0.0.0/24", PrefixOrd::Disjoint, 0, Some(Child::Right));
}
