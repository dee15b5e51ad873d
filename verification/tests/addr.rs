//! Addresses and their textual form.

use ace_tun::addr::{agree_in_prefix, IpAddr, Ipv4Addr, Ipv6Addr, SocketAddr};
use ace_tun::addr_text::{format_ip, parse_ip, parse_socket_addr, AddrParseError};

fn v4(s: &str) -> Option<Ipv4Addr> {
    s.parse().ok()
}

fn v6(s: &str) -> Option<Ipv6Addr> {
    s.parse().ok()
}

#[test]
fn ipv4_text_is_strict() {
    assert_eq!(v4("192.168.1.10"), Some(Ipv4Addr::new(192, 168, 1, 10)));
    assert_eq!(v4("0.0.0.0"), Some(Ipv4Addr::from_bits(0)));
    for bad in ["", "1.2.3", "1.2.3.4.5", "256.1.1.1", "01.2.3.4", "1..2.3", " 1.2.3.4", "+1.2.3.4"] {
        assert_eq!(v4(bad), None, "{bad}");
    }
}

#[test]
fn ipv6_text_may_be_compressed() {
    assert_eq!(v6("::"), Some(Ipv6Addr::from_bits(0)));
    assert_eq!(v6("::1"), Some(Ipv6Addr::from_bits(1)));
    assert_eq!(v6("1::"), Some(Ipv6Addr::from_bits(1 << 112)));
    assert_eq!(
        v6("2001:db8::ff00:42:8329"),
        Some(Ipv6Addr::new(0x2001, 0xdb8, 0, 0, 0, 0xff00, 0x42, 0x8329))
    );
    assert_eq!(v6("::ffff:1.2.3.4"), Some(Ipv6Addr::from_bits(0xffff_0102_0304)));
    for bad in ["", ":", ":::", "1:2:3:4:5:6:7", "1::2::3", "12345::", "g::", "1:2:3:4:5:6:7:8:9"] {
        assert_eq!(v6(bad), None, "{bad}");
    }
}

#[test]
fn addresses_write_themselves() {
    for text in ["0.0.0.0", "10.63.7.1", "255.255.255.255", "::", "::1", "1::", "fd00:ace:7::1"] {
        assert_eq!(format_ip(parse_ip(text).unwrap()), text);
    }
    assert_eq!(format_ip(IpAddr::V6(Ipv6Addr::new(1, 0, 0, 2, 0, 0, 0, 3))), "1:0:0:2::3");
    assert_eq!(format_ip(IpAddr::V6(Ipv6Addr::new(1, 0, 2, 3, 4, 5, 6, 7))), "1:0:2:3:4:5:6:7");
    assert_eq!(format_ip(IpAddr::V6(Ipv6Addr::from_bits(0xffff_0102_0304))), "::ffff:1.2.3.4");
}

#[test]
fn endpoints_have_a_port() {
    assert_eq!(
        parse_socket_addr("127.0.0.1:8080"),
        Some(SocketAddr::new(IpAddr::V4(Ipv4Addr::new(127, 0, 0, 1)), 8080))
    );
    assert_eq!(
        parse_socket_addr("[::1]:1"),
        Some(SocketAddr::new(IpAddr::V6(Ipv6Addr::from_bits(1)), 1))
    );
    assert_eq!(
        parse_socket_addr("[fe80::1%2]:80"),
        Some(SocketAddr::new(IpAddr::V6(Ipv6Addr::new(0xfe80, 0, 0, 0, 0, 0, 0, 1)), 80))
    );
    for bad in ["", "127.0.0.1", "127.0.0.1:", "127.0.0.1:65536", "::1:80", "[::1]", "[::1]80", "x:1"] {
        assert_eq!(parse_socket_addr(bad), None, "{bad}");
        assert_eq!(bad.parse::<SocketAddr>(), Err(AddrParseError));
    }
}

#[test]
fn special_addresses_are_known() {
    assert!(Ipv4Addr::new(127, 9, 9, 9).is_loopback());
    assert!(Ipv4Addr::new(224, 0, 0, 1).is_multicast());
    assert!(!Ipv4Addr::new(240, 0, 0, 1).is_multicast());
    assert!(Ipv4Addr::new(255, 255, 255, 255).is_broadcast());
    assert!(Ipv4Addr::new(172, 31, 0, 1).is_private());
    assert!(!Ipv4Addr::new(172, 32, 0, 1).is_private());
    assert!(Ipv4Addr::new(169, 254, 1, 1).is_link_local());
    assert!(v6("::1").unwrap().is_loopback());
    assert!(v6("ff02::fb").unwrap().is_multicast());
    assert!(parse_ip("::").unwrap().is_unspecified());
    assert!(parse_ip("::1").unwrap().is_ipv6());
    assert!(!parse_ip("1.1.1.1").unwrap().is_ipv6());
}

#[test]
fn octets_and_segments() {
    assert_eq!(Ipv4Addr::new(1, 2, 3, 4).octets(), [1, 2, 3, 4]);
    let addr = Ipv6Addr::new(0x2001, 0xdb8, 0, 0, 0, 0, 0, 1);
    assert_eq!(addr.segments(), vec![0x2001, 0xdb8, 0, 0, 0, 0, 0, 1]);
    assert_eq!(Ipv6Addr::from_octets(&addr.octets()), addr);
}

#[test]
fn prefixes_agree() {
    assert!(agree_in_prefix(0, u128::MAX, 0));
    assert!(!agree_in_prefix(0, 1, 128));
    assert!(agree_in_prefix(2, 3, 127));
    assert!(!agree_in_prefix(1, 2, 127));
}

#[test]
fn written_addresses_read_back() {
    for groups in [
        [0, 0, 0, 0, 0, 0, 0, 0],
        [0, 1, 0, 0, 2, 0, 0, 0],
        [0, 0, 3, 0, 0, 4, 0, 5],
        [0, 0, 0, 0, 0, 0xffff, 0x0a0b, 0x0c0d],
        [0, 0, 0, 0, 0, 0xfffe, 0x0a0b, 0x0c0d],
        [0xfe80, 0, 0xabc, 0, 0xff, 0, 0x10, 0],
    ] {
        let [a, b, c, d, e, f, g, h] = groups;
        let ip = IpAddr::V6(Ipv6Addr::new(a, b, c, d, e, f, g, h));
        assert_eq!(parse_ip(&format_ip(ip)), Some(ip));
    }
    for bits in [0, 1, 0x0a00_00ff, u32::MAX] {
        let ip = IpAddr::V4(Ipv4Addr::from_bits(bits));
        assert_eq!(parse_ip(&format_ip(ip)), Some(ip));
    }
}
