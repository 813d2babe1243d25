use x11_host_probe::ip::parse_ip;
use x11_host_probe::ip::HostAddress;
use x11_host_probe::render::render_addr;

#[test]
fn parse_v4_plain() {
    assert_eq!(parse_ip(b"172.30.192.1"), Some(HostAddress::V4(172, 30, 192, 1)));
    assert_eq!(parse_ip(b"0.0.0.0"), Some(HostAddress::V4(0, 0, 0, 0)));
    assert_eq!(parse_ip(b"255.255.255.255"), Some(HostAddress::V4(255, 255, 255, 255)));
}

#[test]
fn parse_v4_rejects_bad_octets() {
    assert_eq!(parse_ip(b"256.1.1.1"), None);
    assert_eq!(parse_ip(b"01.2.3.4"), None);
    assert_eq!(parse_ip(b"1.2.3"), None);
    assert_eq!(parse_ip(b"1.2.3.4.5"), None);
    assert_eq!(parse_ip(b"1.2..4"), None);
    assert_eq!(parse_ip(b".1.2.3"), None);
    assert_eq!(parse_ip(b"1.2.3.4 "), None);
    assert_eq!(parse_ip(b""), None);
}

#[test]
fn parse_v6_full_form() {
    assert_eq!(
        parse_ip(b"1:2:3:4:5:6:7:8"),
        Some(HostAddress::V6(1, 2, 3, 4, 5, 6, 7, 8))
    );
    assert_eq!(
        parse_ip(b"fe80:0:0:0:0:0:0:1"),
        Some(HostAddress::V6(0xfe80, 0, 0, 0, 0, 0, 0, 1))
    );
    assert_eq!(
        parse_ip(b"FFFF:abcd:0:0:0:0:0:0"),
        Some(HostAddress::V6(0xffff, 0xabcd, 0, 0, 0, 0, 0, 0))
    );
}

#[test]
fn parse_v6_compressed_forms() {
    assert_eq!(parse_ip(b"::"), Some(HostAddress::V6(0, 0, 0, 0, 0, 0, 0, 0)));
    assert_eq!(parse_ip(b"::1"), Some(HostAddress::V6(0, 0, 0, 0, 0, 0, 0, 1)));
    assert_eq!(parse_ip(b"1::"), Some(HostAddress::V6(1, 0, 0, 0, 0, 0, 0, 0)));
    assert_eq!(
        parse_ip(b"fe80::a:b"),
        Some(HostAddress::V6(0xfe80, 0, 0, 0, 0, 0, 0xa, 0xb))
    );
    assert_eq!(
        parse_ip(b"1:2:3:4:5:6:7::"),
        Some(HostAddress::V6(1, 2, 3, 4, 5, 6, 7, 0))
    );
}

#[test]
fn parse_v6_dotted_v4_tail() {
    assert_eq!(
        parse_ip(b"::ffff:172.30.192.1"),
        Some(HostAddress::V6(0, 0, 0, 0, 0, 0xffff, 0xac1e, 0xc001))
    );
    assert_eq!(
        parse_ip(b"1:2:3:4:5:6:1.2.3.4"),
        Some(HostAddress::V6(1, 2, 3, 4, 5, 6, 0x0102, 0x0304))
    );
    assert_eq!(
        parse_ip(b"::1.2.3.4"),
        Some(HostAddress::V6(0, 0, 0, 0, 0, 0, 0x0102, 0x0304))
    );
}

#[test]
fn parse_v6_rejects_malformed_dotted_tail() {
    // A dotted part may only stand at the very end.
    assert_eq!(parse_ip(b"1.2.3.4::"), None);
    assert_eq!(parse_ip(b"::1.2.3.4:5"), None);
    // The dotted part must be a whole v4 address.
    assert_eq!(parse_ip(b"::1.2.3"), None);
    assert_eq!(parse_ip(b"::1.2.3.4.5"), None);
    // The two tail groups must still fit in eight.
    assert_eq!(parse_ip(b"1:2:3:4:5:6:7:1.2.3.4"), None);
}

#[test]
fn parse_v6_rejects_malformed() {
    assert_eq!(parse_ip(b":"), None);
    assert_eq!(parse_ip(b":::"), None);
    assert_eq!(parse_ip(b"1::2::3"), None);
    assert_eq!(parse_ip(b"1:2:3:4:5:6:7"), None);
    assert_eq!(parse_ip(b"1:2:3:4:5:6:7:8:9"), None);
    assert_eq!(parse_ip(b"1:2:3:4:5:6:7:8::"), None);
    assert_eq!(parse_ip(b"12345::"), None);
    assert_eq!(parse_ip(b"g::1"), None);
    assert_eq!(parse_ip(b":1:2:3:4:5:6:7"), None);
    assert_eq!(parse_ip(b"1:2:3:4:5:6:7:"), None);
}

#[test]
fn render_v4() {
    let bytes = render_addr(&HostAddress::V4(172, 30, 192, 1));
    assert_eq!(bytes, b"172.30.192.1".to_vec());
}

#[test]
fn render_v6_plain_groups() {
    let bytes = render_addr(&HostAddress::V6(0xfe80, 0, 0, 0, 0, 0, 0, 1));
    assert_eq!(bytes, b"fe80:0:0:0:0:0:0:1".to_vec());
}

#[test]
fn parse_render_round_trip_examples() {
    for text in [
        b"10.0.0.2".to_vec(),
        b"255.0.128.7".to_vec(),
        b"fe80:0:0:0:0:0:0:1".to_vec(),
    ] {
        let a = parse_ip(&text).expect("valid address");
        assert_eq!(render_addr(&a), text);
    }
}
