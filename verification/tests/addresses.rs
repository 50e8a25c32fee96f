use pinger::{parse_ip, Address};

#[test]
fn parses_v4_literals() {
    assert_eq!(parse_ip("127.0.0.1"), Some(Address::V4(127, 0, 0, 1)));
    assert_eq!(parse_ip("0.0.0.0"), Some(Address::V4(0, 0, 0, 0)));
    assert_eq!(parse_ip("255.255.255.255"), Some(Address::V4(255, 255, 255, 255)));
    assert_eq!(parse_ip("192.168.0.1"), Some(Address::V4(192, 168, 0, 1)));
}

#[test]
fn rejects_bad_v4_literals() {
    assert_eq!(parse_ip("1.2.3.456"), None);
    assert_eq!(parse_ip("1.2.3"), None);
    assert_eq!(parse_ip("1.2.3.4.5"), None);
    assert_eq!(parse_ip("01.2.3.4"), None);
    assert_eq!(parse_ip("1.2.3."), None);
    assert_eq!(parse_ip(""), None);
    assert_eq!(parse_ip("localhost"), None);
    assert_eq!(parse_ip("1.2.3.4 "), None);
}

#[test]
fn parses_v6_literals() {
    assert_eq!(parse_ip("::"), Some(Address::V6(0, 0, 0, 0, 0, 0, 0, 0)));
    assert_eq!(parse_ip("::1"), Some(Address::V6(0, 0, 0, 0, 0, 0, 0, 1)));
    assert_eq!(parse_ip("1::"), Some(Address::V6(1, 0, 0, 0, 0, 0, 0, 0)));
    assert_eq!(parse_ip("1::2"), Some(Address::V6(1, 0, 0, 0, 0, 0, 0, 2)));
    assert_eq!(
        parse_ip("1:2:3:4:5:6:7:8"),
        Some(Address::V6(1, 2, 3, 4, 5, 6, 7, 8))
    );
    assert_eq!(
        parse_ip("2001:4860:4860::8888"),
        Some(Address::V6(0x2001, 0x4860, 0x4860, 0, 0, 0, 0, 0x8888))
    );
    assert_eq!(
        parse_ip("::ffff:1.2.3.4"),
        Some(Address::V6(0, 0, 0, 0, 0, 0xffff, 0x0102, 0x0304))
    );
    assert_eq!(
        parse_ip("1:2:3:4:5:6:1.2.3.4"),
        Some(Address::V6(1, 2, 3, 4, 5, 6, 0x0102, 0x0304))
    );
    assert_eq!(
        parse_ip("ABCD::ef01"),
        Some(Address::V6(0xabcd, 0, 0, 0, 0, 0, 0, 0xef01))
    );
}

#[test]
fn rejects_bad_v6_literals() {
    assert_eq!(parse_ip(":"), None);
    assert_eq!(parse_ip(":::"), None);
    assert_eq!(parse_ip(":1"), None);
    assert_eq!(parse_ip("1:"), None);
    assert_eq!(parse_ip("1:2:3:4:5:6:7"), None);
    assert_eq!(parse_ip("1:2:3:4:5:6:7:8:9"), None);
    assert_eq!(parse_ip("1:2:3:4:5:6:7:8::"), None);
    assert_eq!(parse_ip("::1:2:3:4:5:6:7:8"), None);
    assert_eq!(parse_ip("1::2::3"), None);
    assert_eq!(parse_ip("12345::"), None);
    assert_eq!(parse_ip("g::1"), None);
    assert_eq!(parse_ip("1.2.3.4::1"), None);
}

#[test]
fn formats_v4_addresses() {
    assert_eq!(Address::V4(127, 0, 0, 1).to_text(), "127.0.0.1");
    assert_eq!(Address::V4(0, 0, 0, 0).to_text(), "0.0.0.0");
    assert_eq!(Address::V4(255, 255, 255, 255).to_text(), "255.255.255.255");
}

#[test]
fn formats_v6_addresses() {
    assert_eq!(Address::V6(0, 0, 0, 0, 0, 0, 0, 0).to_text(), "::");
    assert_eq!(Address::V6(0, 0, 0, 0, 0, 0, 0, 1).to_text(), "::1");
    assert_eq!(Address::V6(1, 0, 0, 0, 0, 0, 0, 0).to_text(), "1::");
    assert_eq!(
        Address::V6(0x2001, 0x4860, 0x4860, 0, 0, 0, 0, 0x8888).to_text(),
        "2001:4860:4860::8888"
    );
    assert_eq!(
        Address::V6(1, 2, 3, 4, 5, 6, 7, 8).to_text(),
        "1:2:3:4:5:6:7:8"
    );
    // A lone zero group is not compressed.
    assert_eq!(
        Address::V6(1, 2, 3, 0, 5, 6, 7, 8).to_text(),
        "1:2:3:0:5:6:7:8"
    );
    // The leftmost of two equally long zero runs is compressed.
    assert_eq!(
        Address::V6(1, 0, 0, 5, 6, 0, 0, 8).to_text(),
        "1::5:6:0:0:8"
    );
    // The longer run wins even when it comes second.
    assert_eq!(
        Address::V6(1, 0, 0, 5, 0, 0, 0, 8).to_text(),
        "1:0:0:5::8"
    );
    // The IPv4-mapped form is printed with its embedded dotted quad.
    assert_eq!(
        Address::V6(0, 0, 0, 0, 0, 0xffff, 0x7f00, 0x0001).to_text(),
        "::ffff:127.0.0.1"
    );
    // Hexadecimal groups print in lowercase without leading zeros.
    assert_eq!(
        Address::V6(0xabcd, 0xef, 0, 0, 0, 0, 0, 0x102).to_text(),
        "abcd:ef::102"
    );
}

#[test]
fn parse_agrees_with_format() {
    let samples = [
        "127.0.0.1",
        "1.1.1.1",
        "255.0.255.3",
        "::",
        "::1",
        "1::",
        "2001:4860:4860::8888",
        "1:2:3:4:5:6:7:8",
        "::ffff:127.0.0.1",
    ];
    for text in samples {
        let addr = parse_ip(text).unwrap();
        assert_eq!(addr.to_text(), text);
        assert_eq!(parse_ip(&addr.to_text()), Some(addr));
    }
}
