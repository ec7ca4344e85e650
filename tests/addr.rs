use dynonym::addr::{parse_ipv4, parse_ipv6};

#[test]
fn ipv4_values() {
    assert_eq!(parse_ipv4("1.2.3.4"), Some(16909060));
    assert_eq!(parse_ipv4("0.0.0.0"), Some(0));
    assert_eq!(parse_ipv4("255.255.255.255"), Some(u32::MAX));
    assert_eq!(parse_ipv4("127.0.0.1"), Some(0x7f00_0001));
}

#[test]
fn ipv4_rejects() {
    assert_eq!(parse_ipv4("not-an-ip"), None);
    assert_eq!(parse_ipv4(""), None);
    assert_eq!(parse_ipv4("1.2.3"), None);
    assert_eq!(parse_ipv4("1.2.3.4.5"), None);
    assert_eq!(parse_ipv4("256.1.1.1"), None);
    assert_eq!(parse_ipv4("01.1.1.1"), None);
    assert_eq!(parse_ipv4("1..1.1"), None);
    assert_eq!(parse_ipv4("1.2.3.4 "), None);
    assert_eq!(parse_ipv4("::1"), None);
}

#[test]
fn ipv6_values() {
    assert_eq!(parse_ipv6("::1"), Some(1));
    assert_eq!(parse_ipv6("::"), Some(0));
    assert_eq!(parse_ipv6("2001:db8::1"), Some(42540766411282592856903984951653826561));
    assert_eq!(parse_ipv6("0:0:0:0:0:ffff:0:1"), Some(0xffff00000001));
    assert_eq!(parse_ipv6("::FFFF:0:1"), Some(0xffff00000001));
    assert_eq!(parse_ipv6("1::"), Some(1u128 << 112));
    assert_eq!(parse_ipv6("ffff:ffff:ffff:ffff:ffff:ffff:ffff:ffff"), Some(u128::MAX));
}

#[test]
fn ipv6_rejects() {
    assert_eq!(parse_ipv6("1.2.3.4"), None);
    assert_eq!(parse_ipv6("1:2:3:4:5:6:7"), None);
    assert_eq!(parse_ipv6("1:2:3:4:5:6:7:8:9"), None);
    assert_eq!(parse_ipv6("1::2::3"), None);
    assert_eq!(parse_ipv6("12345::"), None);
    assert_eq!(parse_ipv6("g::"), None);
    assert_eq!(parse_ipv6("1:2:3:4::5:6:7:8"), None);
    assert_eq!(parse_ipv6(":::"), None);
    assert_eq!(parse_ipv6(""), None);
}

#[test]
fn ipv6_with_ipv4_tail() {
    assert_eq!(parse_ipv6("::ffff:1.2.3.4"), Some(281470698652420));
    assert_eq!(parse_ipv6("::1.2.3.4"), Some(16909060));
    assert_eq!(parse_ipv6("1:2:3:4:5:6:1.2.3.4"), Some(5192455318486707404433266449711876));
    assert_eq!(parse_ipv6("64:ff9b::192.0.2.1"), Some(524413980667603649783483184533471745));
}

#[test]
fn ipv6_with_bad_ipv4_tail() {
    assert_eq!(parse_ipv6("::ffff:1.2.3"), None);
    assert_eq!(parse_ipv6("::ffff:1.2.3.256"), None);
    assert_eq!(parse_ipv6("1:2:3:4:5:6:7:1.2.3.4"), None);
    assert_eq!(parse_ipv6("::ffff:1.2.3.4:5"), None);
    assert_eq!(parse_ipv6("1.2.3.4::"), None);
}
