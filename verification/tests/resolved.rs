use gai::notation::parse_ip;
use gai::resolved::{decode_address, decode_nameservers, effective_addresses, flat_addresses, ResolvedNameserver};
use gai::IpAddr;

fn ns(ifindex: i32, text: &str) -> ResolvedNameserver {
    ResolvedNameserver { ifindex, address: parse_ip(text).unwrap() }
}

#[test]
fn decodes_both_families_and_rejects_the_rest() {
    assert_eq!(decode_address(2, &[192, 168, 0, 1]), Some(IpAddr::V4(0xC0A8_0001)));
    let mut v6 = [0u8; 16];
    v6[15] = 1;
    assert_eq!(decode_address(10, &v6), Some(IpAddr::V6(1)));
    assert_eq!(decode_address(2, &v6), None);
    assert_eq!(decode_address(10, &[1, 2, 3, 4]), None);
    assert_eq!(decode_address(7, &[1, 2, 3, 4]), None);
}

#[test]
fn decode_nameservers_drops_undecodable_entries() {
    let raw = vec![(0, 2, vec![8, 8, 8, 8]), (3, 2, vec![1, 2, 3]), (3, 2, vec![10, 0, 0, 1])];
    assert_eq!(decode_nameservers(&raw), vec![ns(0, "8.8.8.8"), ns(3, "10.0.0.1")]);
}

#[test]
fn effective_prefers_global_scope() {
    let entries = vec![ns(3, "10.8.0.1"), ns(0, "9.9.9.9"), ns(0, "1.1.1.1"), ns(0, "9.9.9.9")];
    assert_eq!(effective_addresses(&entries), vec![parse_ip("1.1.1.1").unwrap(), parse_ip("9.9.9.9").unwrap()]);
}

#[test]
fn effective_falls_back_to_link_servers() {
    let entries = vec![ns(3, "10.8.0.1"), ns(2, "::1"), ns(2, "10.8.0.1")];
    assert_eq!(effective_addresses(&entries), vec![parse_ip("10.8.0.1").unwrap(), parse_ip("::1").unwrap()]);
    assert!(effective_addresses(&[]).is_empty());
}

#[test]
fn flat_pools_every_link() {
    let entries = vec![ns(3, "10.8.0.1"), ns(0, "9.9.9.9"), ns(0, "10.8.0.1")];
    assert_eq!(flat_addresses(&entries), vec![parse_ip("9.9.9.9").unwrap(), parse_ip("10.8.0.1").unwrap()]);
}
