use audit_watchdog::address::{IpAddress, IpNetwork};
use audit_watchdog::entry::read_listed_ips;
use audit_watchdog::proxies::{parse_trusted_ips, TrustedProxies};

fn v4(text: &str) -> IpAddress {
    match read_listed_ips(text)[0] {
        Some(IpAddress::V4(bits)) => IpAddress::V4(bits),
        _ => panic!("not an IPv4 address"),
    }
}

fn v6(text: &str) -> IpAddress {
    match read_listed_ips(text)[0] {
        Some(IpAddress::V6(bits)) => IpAddress::V6(bits),
        _ => panic!("not an IPv6 address"),
    }
}

fn trusted(list: &str) -> TrustedProxies {
    parse_trusted_ips(Some(list.to_string()))
}

#[test]
fn addresses_are_read() {
    assert_eq!(v4("10.0.200.1"), IpAddress::V4(0x0a00_c801));
    assert_eq!(v4("0.0.0.0"), IpAddress::V4(0));
    assert_eq!(v4("255.255.255.255"), IpAddress::V4(u32::MAX));
    assert_eq!(v6("::1"), IpAddress::V6(1));
    assert_eq!(v6("2001:DB8::ff"), IpAddress::V6(0x2001_0db8_0000_0000_0000_0000_0000_00ff));
}

#[test]
fn what_is_no_address_is_not_read() {
    for text in ["", "1.2.3", "1.2.3.4.5", "256.0.0.1", "01.2.3.4", "1.2.3.4/8", ":", "1::2::3"] {
        assert_eq!(read_listed_ips(text), vec![None], "{}", text);
    }
}

#[test]
fn a_list_keeps_its_order() {
    assert_eq!(
        read_listed_ips(" 1.2.3.4,x, ::1\t"),
        vec![Some(IpAddress::V4(0x0102_0304)), None, Some(IpAddress::V6(1))]
    );
}

#[test]
fn addresses_are_written() {
    assert_eq!(IpAddress::V4(0x0a00_c801).to_text(), "10.0.200.1");
    assert_eq!(IpAddress::V4(0).to_text(), "0.0.0.0");
    assert_eq!(IpAddress::V4(u32::MAX).to_text(), "255.255.255.255");
    assert_eq!(IpAddress::V6(1).to_text(), "::1");
    assert_eq!(IpAddress::V6(0x2001_0db8_0000_0000_0000_0000_0000_00ff).to_text(), "2001:db8::ff");
    assert_eq!(IpAddress::V6(0xffff_0102_0304).to_text(), "::ffff:1.2.3.4");
}

#[test]
fn written_ipv4_is_read_back() {
    for bits in [0u32, 1, 9, 10, 99, 100, 255, 256, 0x0a0b_0c0d, 0x8000_0000, u32::MAX] {
        assert_eq!(v4(&IpAddress::V4(bits).to_text()), IpAddress::V4(bits));
    }
}

#[test]
fn networks_are_trusted() {
    let proxies = trusted("10.1.2.3/8, fd00::/8");
    assert!(proxies.contains(v4("10.0.0.0")));
    assert!(proxies.contains(v4("10.255.255.255")));
    assert!(!proxies.contains(v4("9.255.255.255")));
    assert!(!proxies.contains(v4("11.0.0.0")));
    assert!(proxies.contains(v6("fd12::1")));
    assert!(!proxies.contains(v6("fe00::")));
    assert!(!proxies.contains(v6("::1")));
}

#[test]
fn what_is_no_network_is_skipped() {
    let proxies = trusted("10.0.0,,nonsense,1.2.3.4/33,1.2.3.4/256,::1/129,192.168.0.0/16");
    assert!(!proxies.contains(v4("10.0.0.0")));
    assert!(!proxies.contains(v4("1.2.3.4")));
    assert!(!proxies.contains(v6("::1")));
    assert!(proxies.contains(v4("192.168.7.7")));
}

#[test]
fn a_single_address_is_trusted() {
    let proxies = trusted("192.0.2.7");
    assert!(proxies.contains(v4("192.0.2.7")));
    assert!(!proxies.contains(v4("192.0.2.8")));
    assert!(!proxies.contains(v4("192.0.2.6")));
    assert!(!proxies.contains(v6("::c000:207")));
    let proxies = trusted(" 10.0.0.1 ,2001:db8::1\t,172.16.0.0/12");
    assert!(proxies.contains(v4("10.0.0.1")));
    assert!(!proxies.contains(v4("10.0.0.2")));
    assert!(proxies.contains(v6("2001:db8::1")));
    assert!(!proxies.contains(v6("2001:db8::2")));
    assert!(proxies.contains(v4("172.20.0.1")));
}

#[test]
fn a_single_ipv6_address_is_trusted() {
    for list in ["::1", " ::1 ", "\t0:0:0:0:0:0:0:1"] {
        let proxies = trusted(list);
        assert!(proxies.contains(v6("::1")));
        assert!(!proxies.contains(v6("::")));
        assert!(!proxies.contains(v6("::2")));
        assert!(!proxies.contains(v4("0.0.0.1")));
    }
    assert!(!trusted("::g").contains(v6("::1")));
}

#[test]
fn prefixes_that_are_too_long_are_skipped() {
    for list in ["::1/129", "::1/999", "::1/1280", "1.2.3.4/129", "1.2.3.4/33"] {
        let proxies = trusted(list);
        assert!(!proxies.contains(v6("::1")));
        assert!(!proxies.contains(v4("1.2.3.4")));
    }
    assert!(trusted("::1/129,::1/128").contains(v6("::1")));
}

#[test]
fn without_a_list_no_proxy_is_trusted() {
    let proxies = parse_trusted_ips(None);
    assert!(!proxies.contains(v4("127.0.0.1")));
    assert!(!proxies.contains(v6("::1")));
    assert!(!TrustedProxies::new().contains(v4("127.0.0.1")));
}

#[test]
fn trusted_lists_add_up() {
    let first = trusted("10.0.0.0/8");
    let second = trusted("10.1.0.0/16,172.16.0.0/12");
    let both = trusted("10.0.0.0/8,10.1.0.0/16,172.16.0.0/12");
    let turned = trusted("172.16.0.0/12,10.1.0.0/16,10.0.0.0/8,10.0.0.0/8");
    for text in ["10.0.0.1", "10.1.2.3", "172.16.0.1", "172.32.0.1", "8.8.8.8"] {
        let ip = v4(text);
        assert_eq!(both.contains(ip), first.contains(ip) || second.contains(ip));
        assert_eq!(both.contains(ip), turned.contains(ip));
    }
}

#[test]
fn prefixes_at_their_limits() {
    let one = trusted("1.2.3.4/32,::5/128");
    assert!(one.contains(v4("1.2.3.4")));
    assert!(!one.contains(v4("1.2.3.5")));
    assert!(one.contains(v6("::5")));
    assert!(!one.contains(v6("::4")));
    let every = trusted("1.2.3.4/0");
    assert!(every.contains(v4("255.255.255.255")));
    assert!(!every.contains(v6("::5")));
    assert!(trusted("::/0").contains(v6("ffff::")));
}

#[test]
fn networks_are_trusted_one_by_one() {
    let mut proxies = TrustedProxies::new();
    proxies.trust(IpNetwork::V4(0x0a00_0000, 8));
    proxies.trust(IpNetwork::V6(0xfd00 << 112, 8));
    assert!(proxies.contains(v4("10.9.8.7")));
    assert!(proxies.contains(v6("fd00::1")));
    assert!(!proxies.contains(v4("11.9.8.7")));
    let same = TrustedProxies::from_networks(&vec![None, Some(IpNetwork::V4(0x0a00_0000, 8))]);
    assert!(same.contains(v4("10.9.8.7")));
    assert!(!same.contains(v6("fd00::1")));
}
