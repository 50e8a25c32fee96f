use pinger::{parse_ip, Address, ICMP};

#[test]
fn ipv4() {
    let mut packet = ICMP::new(parse_ip("127.0.0.1").unwrap());
    assert_eq!(packet.get_address().to_text(), "127.0.0.1");
    assert_ne!(packet.get_id(), 0);
    assert_eq!(packet.get_sequence(), 0);
    packet.next();
    assert_eq!(packet.get_sequence(), 1);
    assert_eq!(packet.seen, false);
}

#[test]
fn ipv6() {
    let mut packet = ICMP::new(parse_ip("::1").unwrap());
    assert_eq!(packet.get_address().to_text(), "::1");
    assert_eq!(packet.get_id(), 0);
    assert_eq!(packet.get_sequence(), 0);
    packet.next();
    assert_eq!(packet.get_sequence(), 1);
    assert_eq!(packet.seen, false);
}

#[test]
fn v4_request_bytes_layout() {
    let mut probe = ICMP::new(Address::V4(127, 0, 0, 1));
    let id = probe.get_id();
    let bytes = probe.build_v4();
    assert_eq!(bytes.len(), 64);
    assert_eq!(bytes[0], 8);
    assert_eq!(bytes[1], 0);
    assert_eq!(bytes[4], (id >> 8) as u8);
    assert_eq!(bytes[5], (id & 0xff) as u8);
    assert_eq!(bytes[6], 0);
    assert_eq!(bytes[7], 1);
    assert_eq!(probe.get_sequence(), 1);
    // The checksum bytes must be what the transport's own checksum
    // gives over the packet with its checksum word skipped.
    let expected = pnet::util::checksum(&bytes, 1);
    assert_eq!(bytes[2], (expected >> 8) as u8);
    assert_eq!(bytes[3], (expected & 0xff) as u8);
}

#[test]
fn v6_request_bytes_layout() {
    let mut probe = ICMP::new(Address::V6(0, 0, 0, 0, 0, 0, 0, 1));
    let bytes = probe.build_v6();
    assert_eq!(bytes.len(), 64);
    assert_eq!(bytes[0], 128);
    assert_eq!(bytes[1], 0);
    assert_eq!(bytes[4], 0);
    assert_eq!(bytes[5], 0);
    assert_eq!(bytes[6], 0);
    assert_eq!(bytes[7], 0);
    assert_eq!(probe.get_sequence(), 0);
    let expected = pnet::util::checksum(&bytes, 1);
    assert_eq!(bytes[2], (expected >> 8) as u8);
    assert_eq!(bytes[3], (expected & 0xff) as u8);
}
