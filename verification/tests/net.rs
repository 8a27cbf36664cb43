use cloudcheck::net::{addr_in_networks, parse_ipv4_address};
use cloudcheck::text::parse_u16;
use cloudcheck::Ipv4Cidr;

fn ip(a: u32, b: u32, c: u32, d: u32) -> u32 {
    ((a * 256 + b) * 256 + c) * 256 + d
}

#[test]
fn contains_simple() {
    let net = Ipv4Cidr { addr: ip(8, 8, 8, 0), prefix: 24 };
    assert!(net.contains(ip(8, 8, 8, 8)));
    assert!(net.contains(ip(8, 8, 8, 0)));
    assert!(net.contains(ip(8, 8, 8, 255)));
    assert!(!net.contains(ip(8, 8, 7, 255)));
    assert!(!net.contains(ip(8, 8, 9, 0)));
}

#[test]
fn contains_ignores_host_bits() {
    let net = Ipv4Cidr { addr: ip(192, 168, 12, 34), prefix: 16 };
    assert!(net.contains(ip(192, 168, 0, 0)));
    assert!(net.contains(ip(192, 168, 255, 255)));
    assert!(!net.contains(ip(192, 169, 0, 0)));
}

#[test]
fn contains_boundaries() {
    // 10.1.0.0/20 spans 10.1.0.0 ..= 10.1.15.255, boundaries included.
    let net = Ipv4Cidr { addr: ip(10, 1, 0, 0), prefix: 20 };
    assert!(net.contains(ip(10, 1, 0, 0)));
    assert!(net.contains(ip(10, 1, 15, 255)));
    assert!(!net.contains(ip(10, 0, 255, 255)));
    assert!(!net.contains(ip(10, 1, 16, 0)));
}

#[test]
fn contains_extreme_prefixes() {
    let all = Ipv4Cidr { addr: 0, prefix: 0 };
    assert!(all.contains(0));
    assert!(all.contains(u32::MAX));
    let single = Ipv4Cidr { addr: ip(1, 2, 3, 4), prefix: 32 };
    assert!(single.contains(ip(1, 2, 3, 4)));
    assert!(!single.contains(ip(1, 2, 3, 5)));
    assert!(!single.contains(ip(1, 2, 3, 3)));
}

#[test]
fn addr_in_networks_any() {
    let nets = vec![
        Ipv4Cidr { addr: ip(10, 0, 0, 0), prefix: 8 },
        Ipv4Cidr { addr: ip(192, 168, 0, 0), prefix: 16 },
    ];
    assert!(addr_in_networks(ip(10, 1, 2, 3), &nets));
    assert!(addr_in_networks(ip(192, 168, 5, 5), &nets));
    assert!(!addr_in_networks(ip(8, 8, 8, 8), &nets));
    assert!(!addr_in_networks(ip(11, 0, 0, 0), &nets));
}

#[test]
fn parse_address_good() {
    assert_eq!(parse_ipv4_address("8.8.8.8"), Some(ip(8, 8, 8, 8)));
    assert_eq!(parse_ipv4_address("0.0.0.0"), Some(0));
    assert_eq!(parse_ipv4_address("255.255.255.255"), Some(u32::MAX));
    assert_eq!(parse_ipv4_address("1.2.3.4"), Some(ip(1, 2, 3, 4)));
}

#[test]
fn parse_address_bad() {
    assert_eq!(parse_ipv4_address(""), None);
    assert_eq!(parse_ipv4_address("1.2.3"), None);
    assert_eq!(parse_ipv4_address("1.2.3.4.5"), None);
    assert_eq!(parse_ipv4_address("256.0.0.1"), None);
    assert_eq!(parse_ipv4_address("01.2.3.4"), None);
    assert_eq!(parse_ipv4_address("1.2.3.x"), None);
    assert_eq!(parse_ipv4_address("1.2..4"), None);
    assert_eq!(parse_ipv4_address(" 1.2.3.4"), None);
    assert_eq!(parse_ipv4_address("1.2.3.4 "), None);
}

#[test]
fn parse_port_values() {
    assert_eq!(parse_u16("0"), Some(0));
    assert_eq!(parse_u16("22"), Some(22));
    assert_eq!(parse_u16("+22"), Some(22));
    assert_eq!(parse_u16("0022"), Some(22));
    assert_eq!(parse_u16("65535"), Some(65535));
    assert_eq!(parse_u16("65536"), None);
    assert_eq!(parse_u16(""), None);
    assert_eq!(parse_u16("+"), None);
    assert_eq!(parse_u16("2a"), None);
    assert_eq!(parse_u16("-1"), None);
}
