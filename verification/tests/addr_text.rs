use public_ip::addr::{parse_addr, parse_ipv4, parse_ipv6, Addr};

#[test]
fn parses_dotted_quad() {
    assert_eq!(
        parse_addr(b"203.0.113.5"),
        Some(Addr::V4(203, 0, 113, 5))
    );
    assert_eq!(parse_addr(b"0.0.0.0"), Some(Addr::V4(0, 0, 0, 0)));
    assert_eq!(
        parse_addr(b"255.255.255.255"),
        Some(Addr::V4(255, 255, 255, 255))
    );
    assert_eq!(
        parse_ipv4(b"123.123.123.123"),
        Some(Addr::V4(123, 123, 123, 123))
    );
}

#[test]
fn rejects_bad_dotted_quads() {
    assert_eq!(parse_ipv4(b""), None);
    assert_eq!(parse_ipv4(b"1.2.3"), None);
    assert_eq!(parse_ipv4(b"1.2.3.4.5"), None);
    assert_eq!(parse_ipv4(b"256.1.1.1"), None);
    assert_eq!(parse_ipv4(b"01.2.3.4", ), None);
    assert_eq!(parse_ipv4(b"1.2.3.4 "), None);
    assert_eq!(parse_ipv4(b"1..3.4"), None);
    assert_eq!(parse_ipv4(b"a.b.c.d"), None);
    assert_eq!(parse_addr(b"321.321.321.321"), None);
}

#[test]
fn parses_full_ipv6() {
    assert_eq!(
        parse_ipv6(b"1:2:3:4:5:6:7:8"),
        Some(Addr::V6(1, 2, 3, 4, 5, 6, 7, 8))
    );
    assert_eq!(
        parse_addr(b"2001:db8:0:0:0:0:0:1"),
        Some(Addr::V6(0x2001, 0x0db8, 0, 0, 0, 0, 0, 1))
    );
    assert_eq!(
        parse_addr(b"ABCD:ef01:2345:6789:abcd:EF01:2345:6789"),
        Some(Addr::V6(
            0xabcd, 0xef01, 0x2345, 0x6789, 0xabcd, 0xef01, 0x2345, 0x6789
        ))
    );
}

#[test]
fn parses_abbreviated_ipv6() {
    assert_eq!(
        parse_addr(b"2001:db8::1"),
        Some(Addr::V6(0x2001, 0x0db8, 0, 0, 0, 0, 0, 1))
    );
    assert_eq!(parse_addr(b"::1"), Some(Addr::V6(0, 0, 0, 0, 0, 0, 0, 1)));
    assert_eq!(parse_addr(b"::"), Some(Addr::V6(0, 0, 0, 0, 0, 0, 0, 0)));
    assert_eq!(
        parse_addr(b"1::"),
        Some(Addr::V6(1, 0, 0, 0, 0, 0, 0, 0))
    );
    assert_eq!(
        parse_addr(b"1:2:3:4:5:6:7::"),
        Some(Addr::V6(1, 2, 3, 4, 5, 6, 7, 0))
    );
    assert_eq!(
        parse_addr(b"::2:3:4:5:6:7:8"),
        Some(Addr::V6(0, 2, 3, 4, 5, 6, 7, 8))
    );
}

#[test]
fn parses_embedded_ipv4() {
    assert_eq!(
        parse_addr(b"::ffff:1.2.3.4"),
        Some(Addr::V6(0, 0, 0, 0, 0, 0xffff, 0x0102, 0x0304))
    );
    assert_eq!(
        parse_addr(b"1:2:3:4:5:6:7.8.9.10"),
        Some(Addr::V6(1, 2, 3, 4, 5, 6, 0x0708, 0x090a))
    );
}

#[test]
fn rejects_bad_ipv6() {
    assert_eq!(parse_ipv6(b""), None);
    assert_eq!(parse_ipv6(b"1:2:3:4:5:6:7"), None);
    assert_eq!(parse_ipv6(b"1:2:3:4:5:6:7:8:9"), None);
    assert_eq!(parse_ipv6(b"1:2:3:4:5:6:7:8::"), None);
    assert_eq!(parse_ipv6(b"1::2::3"), None);
    assert_eq!(parse_ipv6(b":::"), None);
    assert_eq!(parse_ipv6(b":1:2:3:4:5:6:7"), None);
    assert_eq!(parse_ipv6(b"1:2:3:4:5:6:7:"), None);
    assert_eq!(parse_ipv6(b"12345::1"), None);
    assert_eq!(parse_ipv6(b"g::1"), None);
    assert_eq!(parse_ipv6(b"1.2.3.4::5"), None);
    assert_eq!(parse_addr(b"not an address"), None);
}
