use sonium::control::discovery::cidr_hosts;

fn addr(a: u8, b: u8, c: u8, d: u8) -> u32 {
    u32::from_be_bytes([a, b, c, d])
}

#[test]
fn slash24_has_254_hosts_in_order() {
    let hosts = cidr_hosts(addr(192, 168, 1, 0), 24).unwrap();
    assert_eq!(hosts.len(), 254);
    assert_eq!(hosts[0], addr(192, 168, 1, 1));
    assert_eq!(hosts[253], addr(192, 168, 1, 254));
}

#[test]
fn host_bits_of_the_base_are_ignored() {
    let hosts = cidr_hosts(addr(192, 168, 1, 77), 24).unwrap();
    assert_eq!(hosts[0], addr(192, 168, 1, 1));
    assert_eq!(hosts.len(), 254);
}

#[test]
fn slash30_has_two_hosts() {
    let hosts = cidr_hosts(addr(10, 0, 0, 0), 30).unwrap();
    assert_eq!(hosts, vec![addr(10, 0, 0, 1), addr(10, 0, 0, 2)]);
}

#[test]
fn slash16_is_the_largest_block() {
    assert_eq!(cidr_hosts(addr(10, 0, 0, 0), 16).unwrap().len(), 65_534);
    assert!(cidr_hosts(addr(10, 0, 0, 0), 15).is_none());
    assert!(cidr_hosts(addr(10, 0, 0, 0), 0).is_none());
}

#[test]
fn prefix_beyond_32_bits_is_refused() {
    assert!(cidr_hosts(addr(192, 168, 1, 0), 33).is_none());
}

#[test]
fn single_address_blocks_have_no_hosts() {
    assert!(cidr_hosts(addr(10, 0, 0, 9), 32).unwrap().is_empty());
    assert!(cidr_hosts(addr(10, 0, 0, 9), 31).unwrap().is_empty());
    assert!(cidr_hosts(u32::MAX, 32).unwrap().is_empty());
}
