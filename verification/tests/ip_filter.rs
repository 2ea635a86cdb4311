use ztunnel::ip_filter::{extract_client_ip, parse_ipv4, CidrRange, IpAddress, IpFilter};
use ztunnel::ipv6::parse_ipv6;

fn ip(text: &str) -> IpAddress {
    IpAddress::parse(text).unwrap()
}

fn chars(s: &str) -> Vec<char> {
    s.chars().collect()
}

#[test]
fn test_cidr_parse() {
    let cidr = CidrRange::parse("192.168.1.0/24").unwrap();
    assert!(cidr.contains(ip("192.168.1.100")));
    assert!(!cidr.contains(ip("192.168.2.1")));
    assert!(cidr.contains(ip("192.168.1.0")));
    assert!(cidr.contains(ip("192.168.1.255")));
}

#[test]
fn test_ip_filter() {
    let filter = IpFilter::from_strings(
        &["192.168.1.0/24".to_string()],
        &["192.168.1.100/32".to_string()],
    );

    assert!(filter.is_allowed(ip("192.168.1.50")));
    assert!(!filter.is_allowed(ip("192.168.1.100"))); // denied
    assert!(!filter.is_allowed(ip("10.0.0.1"))); // not in allow
}

#[test]
fn test_empty_filter() {
    let filter = IpFilter::from_strings(&[], &[]);
    assert!(filter.is_allowed(ip("1.2.3.4")));
    assert!(filter.is_empty());
}

#[test]
fn cidr_network_and_mask() {
    let c = CidrRange::parse("192.168.1.77/24").unwrap();
    assert_eq!(c.network, 0xC0A8_0100);
    assert_eq!(c.mask, 0xFFFF_FF00);
    assert_eq!(c.raw, "192.168.1.77/24");
    let all = CidrRange::parse("10.1.2.3/0").unwrap();
    assert_eq!((all.network, all.mask), (0, 0));
    assert!(all.contains(ip("255.255.255.255")));
    let one = CidrRange::parse("10.1.2.3/32").unwrap();
    assert_eq!((one.network, one.mask), (0x0A01_0203, 0xFFFF_FFFF));
    assert!(one.contains(ip("10.1.2.3")));
    assert!(!one.contains(ip("10.1.2.2")));
    let plus = CidrRange::parse("10.0.0.0/+08").unwrap();
    assert_eq!(plus.mask, 0xFF00_0000);
}

#[test]
fn cidr_that_is_refused() {
    for text in [
        "", "10.0.0.0", "10.0.0.0/", "10.0.0.0/33", "10.0.0.0/-1", "10.0.0.0/8/8", "10.0.0/8",
        "10.0.0.0.0/8", "256.0.0.0/8", "01.0.0.0/8", "10.0.0.0/ 8", " 10.0.0.0/8", "::1/8",
        "10.0.0.0/4294967296", "a.b.c.d/8", "10..0.0/8", "10.0.0.0/+",
    ] {
        assert!(CidrRange::parse(text).is_none(), "{:?} should be refused", text);
    }
}

#[test]
fn every_prefix_length_holds_its_own_address() {
    for p in 0..=32u32 {
        let text = format!("203.0.113.77/{}", p);
        let c = CidrRange::parse(&text).unwrap();
        assert!(c.contains(ip("203.0.113.77")));
        let flipped = 0xCB00_714Du32 ^ 0x8000_0000;
        assert_eq!(c.contains(IpAddress::V4(flipped)), p == 0);
    }
}

#[test]
fn an_ipv6_address_is_in_no_range() {
    let c = CidrRange::parse("0.0.0.0/0").unwrap();
    assert!(!c.contains(ip("::1")));
    let deny_only = IpFilter::from_strings(&[], &["10.0.0.0/8".to_string()]);
    assert!(deny_only.is_allowed(ip("::1")));
    let allow = IpFilter::from_strings(&["0.0.0.0/0".to_string()], &[]);
    assert!(!allow.is_allowed(ip("::1")));
}

#[test]
fn texts_that_do_not_parse_are_left_out_of_a_filter() {
    let f = IpFilter::from_strings(
        &["nonsense".to_string(), "10.0.0.0/8".to_string(), "10.0.0.0/99".to_string()],
        &["also nonsense".to_string()],
    );
    assert_eq!(f.allow.len(), 1);
    assert_eq!(f.allow[0].raw, "10.0.0.0/8");
    assert_eq!(f.deny.len(), 0);
    assert!(!f.is_empty());
    assert!(IpFilter::default().is_empty());
}

#[test]
fn deny_comes_before_allow() {
    let f = IpFilter::from_strings(&["10.0.0.0/8".to_string()], &["10.1.2.3/32".to_string()]);
    assert!(!f.is_allowed(ip("10.1.2.3")));
    assert!(f.is_allowed(ip("10.2.3.4")));
    assert!(!f.is_allowed(ip("8.8.8.8")));
}

#[test]
fn dotted_quads() {
    assert_eq!(parse_ipv4(&chars("0.0.0.0")), Some(0));
    assert_eq!(parse_ipv4(&chars("255.255.255.255")), Some(u32::MAX));
    assert_eq!(parse_ipv4(&chars("1.2.3.4")), Some(0x0102_0304));
    assert_eq!(parse_ipv4(&chars("1.2.3")), None);
    assert_eq!(parse_ipv4(&chars("1.2.3.04")), None);
    assert_eq!(parse_ipv4(&chars("1.2.3.256")), None);
    assert_eq!(parse_ipv4(&chars("1.2.3.4 ")), None);
    assert_eq!(parse_ipv4(&chars("1.2.3.+4")), None);
    assert_eq!(parse_ipv4(&chars("1.2.3.0004")), None);
}

#[test]
fn ipv6_texts() {
    assert_eq!(parse_ipv6(&chars("::")), Some(0));
    assert_eq!(parse_ipv6(&chars("::1")), Some(1));
    assert_eq!(parse_ipv6(&chars("1::")), Some(1u128 << 112));
    assert_eq!(
        parse_ipv6(&chars("2001:db8:0:0:0:0:0:1")),
        Some(0x2001_0db8_0000_0000_0000_0000_0000_0001)
    );
    assert_eq!(parse_ipv6(&chars("2001:DB8::1")), Some(0x2001_0db8_0000_0000_0000_0000_0000_0001));
    assert_eq!(parse_ipv6(&chars("::ffff:1.2.3.4")), Some(0xffff_0102_0304));
    assert_eq!(parse_ipv6(&chars("1:2:3:4:5:6:1.2.3.4")), Some(0x0001_0002_0003_0004_0005_0006_0102_0304));
    assert_eq!(parse_ipv6(&chars("1:2:3:4:5:6:7::")), Some(0x0001_0002_0003_0004_0005_0006_0007_0000));
    assert_eq!(parse_ipv6(&chars("::2:3:4:5:6:7:8")), Some(0x0000_0002_0003_0004_0005_0006_0007_0008));
}

#[test]
fn ipv6_texts_that_are_refused() {
    for text in [
        "", ":", ":::", "1", "1:2:3:4:5:6:7", "1:2:3:4:5:6:7:8:9", "1::2::3", ":1", "1:",
        "12345::", "g::", "1:2:3:4:5:6:7:1.2.3.4", "1.2.3.4::", "::1.2.3", "1:2:3:4:5:6:7:8::",
        "::1%eth0", " ::1", "1::2:3:4:5:6:7:8",
    ] {
        assert_eq!(parse_ipv6(&chars(text)), None, "{:?} should be refused", text);
    }
}

#[test]
fn an_address_is_a_dotted_quad_or_an_ipv6_text() {
    assert_eq!(IpAddress::parse("10.1.2.3"), Some(IpAddress::V4(0x0A01_0203)));
    assert_eq!(IpAddress::parse("::1"), Some(IpAddress::V6(1)));
    assert_eq!(IpAddress::parse("localhost"), None);
}

fn header(k: &str, v: &str) -> (String, String) {
    (k.to_string(), v.to_string())
}

#[test]
fn client_address_from_the_headers() {
    let peer = Some(IpAddress::V4(7));
    let h = vec![header("X-Real-IP", "9.9.9.9"), header("x-forwarded-for", " 10.1.2.3 , 8.8.8.8")];
    assert_eq!(extract_client_ip(&h, peer), Some(ip("10.1.2.3")));
    let h = vec![header("X-FORWARDED-FOR", "unknown"), header("X-Forwarded-For", "10.2.3.4")];
    assert_eq!(extract_client_ip(&h, peer), Some(ip("10.2.3.4")));
    let h = vec![header("X-Forwarded-For", "nope"), header("x-real-ip", "  9.9.9.9 ")];
    assert_eq!(extract_client_ip(&h, peer), Some(ip("9.9.9.9")));
    let h = vec![header("X-Real-IP", "9.9.9.9, 1.1.1.1")];
    assert_eq!(extract_client_ip(&h, peer), peer);
    assert_eq!(extract_client_ip(&[], None), None);
    let h = vec![header("X-Forwarded-For", "::1")];
    assert_eq!(extract_client_ip(&h, None), Some(IpAddress::V6(1)));
}
