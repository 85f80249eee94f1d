use double_riichi_server::net::{
    is_socket_addr, mask_ip, parse_ip_addr, prefix_mask_v4, prefix_mask_v6, prefix_matches_v4,
    prefix_matches_v6, request_ip, trusted_proxies, IpAddress, IpCidr,
};

fn v4(a: u8, b: u8, c: u8, d: u8) -> IpAddress {
    IpAddress::V4(u32::from_be_bytes([a, b, c, d]))
}

#[test]
fn trusted_proxy_ip_uses_first_untrusted_forwarded_address() {
    let proxies = vec![
        IpCidr::new(parse_ip_addr("10.0.0.0").unwrap(), 8).unwrap(),
        IpCidr::new(parse_ip_addr("192.168.0.0").unwrap(), 16).unwrap(),
    ];
    assert_eq!(
        request_ip(Some("198.51.100.7, 10.1.2.3"), Some(parse_ip_addr("10.1.2.3").unwrap()), &proxies),
        parse_ip_addr("198.51.100.7").unwrap()
    );
}

#[test]
fn untrusted_or_unreadable_forwarding_keeps_the_peer() {
    let proxies = vec![IpCidr::parse("10.0.0.0/8").unwrap()];
    let peer = v4(203, 0, 113, 9);
    assert_eq!(request_ip(Some("1.2.3.4"), Some(peer), &proxies), peer);
    let proxy = v4(10, 0, 0, 1);
    assert_eq!(request_ip(Some("1.2.3.4, nonsense"), Some(proxy), &proxies), proxy);
    assert_eq!(request_ip(None, Some(proxy), &proxies), proxy);
    assert_eq!(request_ip(Some("10.0.0.2, 10.0.0.3"), Some(proxy), &proxies), v4(10, 0, 0, 2));
    assert_eq!(request_ip(Some("1.1.1.1"), None, &proxies), v4(127, 0, 0, 1));
}

#[test]
fn ipv4_text_is_four_canonical_octets() {
    assert_eq!(parse_ip_addr("192.168.0.1"), Some(v4(192, 168, 0, 1)));
    assert_eq!(parse_ip_addr("0.0.0.0"), Some(v4(0, 0, 0, 0)));
    assert_eq!(parse_ip_addr("255.255.255.255"), Some(v4(255, 255, 255, 255)));
    assert_eq!(parse_ip_addr("256.0.0.1"), None);
    assert_eq!(parse_ip_addr("01.2.3.4"), None);
    assert_eq!(parse_ip_addr("1.2.3"), None);
    assert_eq!(parse_ip_addr("1.2.3.4.5"), None);
    assert_eq!(parse_ip_addr(" 1.2.3.4"), None);
    assert_eq!(parse_ip_addr(""), None);
}

#[test]
fn ipv6_text_is_groups_around_one_double_colon() {
    let valid: [(&str, u128); 13] = [
        ("::", 0),
        ("::1", 1),
        ("1::", 1 << 112),
        ("fe80::1", (0xfe80 << 112) | 1),
        ("2001:db8::8a2e:370:7334", 0x2001_0db8_0000_0000_0000_8a2e_0370_7334),
        ("1:2:3:4:5:6:7:8", 0x0001_0002_0003_0004_0005_0006_0007_0008),
        ("::ffff:192.0.2.1", 0xffff_c000_0201),
        ("1:2:3:4:5:6:1.2.3.4", 0x0001_0002_0003_0004_0005_0006_0102_0304),
        ("1::2:3", (1 << 112) | 0x0002_0003),
        ("ABCD::ef", (0xabcd << 112) | 0xef),
        ("0001::", 1 << 112),
        ("::1:2:3:4:5:6:7", 0x0000_0001_0002_0003_0004_0005_0006_0007),
        ("1:2:3:4:5:6:7::", 0x0001_0002_0003_0004_0005_0006_0007_0000),
    ];
    for (text, value) in valid {
        assert_eq!(parse_ip_addr(text), Some(IpAddress::V6(value)), "{text}");
    }
    let invalid = [
        ":::", "1:::2", "1::2::3", "12345::", "1:2:3:4:5:6:7:8:9", "1:2:3:4:5:6:7", "1.2.3.4::",
        "::1.2.3.4:5", "1:2:3:4:5:6:7:1.2.3.4", "1:2:3:4:5:1.2.3.4", "::g", ":1::2", "1:",
    ];
    for text in invalid {
        assert_eq!(parse_ip_addr(text), None, "{text}");
    }
}

#[test]
fn cidr_blocks_are_masked_and_checked() {
    let block = IpCidr::parse("192.168.1.77/24").unwrap();
    assert_eq!(block.network(), v4(192, 168, 1, 0));
    assert_eq!(block.prefix(), 24);
    assert!(block.contains(v4(192, 168, 1, 200)));
    assert!(!block.contains(v4(192, 168, 2, 1)));
    assert!(!block.contains(parse_ip_addr("::1").unwrap()));
    assert_eq!(IpCidr::parse("10.0.0.0").err(), Some("CIDR must contain a slash"));
    assert_eq!(IpCidr::parse("10.0.0/8").err(), Some("CIDR address is invalid"));
    assert_eq!(IpCidr::parse("10.0.0.0/x").err(), Some("CIDR prefix is invalid"));
    assert_eq!(IpCidr::parse("10.0.0.0/33").err(), Some("CIDR prefix is outside the address width"));
    assert!(IpCidr::parse("10.0.0.0/+8").is_ok());
    let v6 = IpCidr::parse("2001:db8::/32").unwrap();
    assert!(v6.contains(parse_ip_addr("2001:db8:ffff::1").unwrap()));
    assert!(IpCidr::parse("::/0").unwrap().contains(parse_ip_addr("::1").unwrap()));
    assert!(trusted_proxies(&vec!["10.0.0.0/8".to_owned(), "::1/128".to_owned()]).is_some());
    assert!(trusted_proxies(&vec!["10.0.0.0/8".to_owned(), "bad".to_owned()]).is_none());
}

#[test]
fn prefix_masks_cover_the_leading_bits() {
    assert_eq!(prefix_mask_v4(0), 0);
    assert_eq!(prefix_mask_v4(8), 0xff00_0000);
    assert_eq!(prefix_mask_v4(32), u32::MAX);
    assert_eq!(prefix_mask_v6(1), 1u128 << 127);
    assert!(prefix_matches_v4(0x0a00_0000, 0x0aff_ffff, 8));
    assert!(!prefix_matches_v4(0x0a00_0000, 0x0b00_0000, 8));
    assert!(prefix_matches_v6(0, u128::MAX, 0));
    assert_eq!(mask_ip(v4(10, 1, 2, 3), 16), v4(10, 1, 0, 0));
}

#[test]
fn socket_addresses_need_a_port() {
    assert!(is_socket_addr("127.0.0.1:3000"));
    assert!(is_socket_addr("[::1]:80"));
    assert!(is_socket_addr("[fe80::1%2]:8080"));
    assert!(!is_socket_addr("127.0.0.1"));
    assert!(!is_socket_addr("localhost:80"));
    assert!(!is_socket_addr("127.0.0.1:65536"));
    assert!(!is_socket_addr("[::1]"));
    for case in ["0.0.0.0:0", "1.2.3.4:007", "[::]:1"] {
        assert!(is_socket_addr(case), "{case}");
    }
    for case in ["[::1%]:1", "1.2.3.4:+1", "[1.2.3.4]:1"] {
        assert!(!is_socket_addr(case), "{case}");
    }
}
