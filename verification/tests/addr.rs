use entrotunnel::addr::{IpAddr, Ipv4Addr, Ipv4Net, Ipv6Addr, Ipv6Net, SocketAddr};

fn v6(s: &str) -> Ipv6Addr {
    let n = ipnet::Ipv6Net::new(s.parse().unwrap(), 128).unwrap();
    Ipv6Addr {
        bits: u128::from(n.addr()),
    }
}

#[test]
fn ipv4_text_both_ways() {
    for s in ["0.0.0.0", "10.7.0.1", "255.255.255.255", "192.168.1.20"] {
        let a = Ipv4Addr::parse(s).unwrap();
        assert_eq!(a.to_text(), s);
        let n = ipnet::Ipv4Net::new(s.parse().unwrap(), 32).unwrap();
        assert_eq!(a.bits, u32::from(n.addr()));
    }
    assert_eq!(Ipv4Addr::new(10, 7, 0, 1).bits, 0x0a07_0001);
    for bad in ["", "1.2.3", "1.2.3.4.5", "256.0.0.1", "01.2.3.4", "1.2.3.x", " 1.2.3.4"] {
        assert_eq!(Ipv4Addr::parse(bad), None);
    }
}

#[test]
fn ipv6_text_both_ways() {
    for s in ["::", "::1", "fd00:7::1", "2606:4700:4700::1111", "fe80::1:2:3:4"] {
        let a = Ipv6Addr::parse(s).unwrap();
        assert_eq!(a, v6(s));
        assert_eq!(a.to_text(), s);
    }
    assert_eq!(Ipv6Addr::parse("1.2.3.4"), None);
    assert_eq!(Ipv6Addr::parse("::g"), None);
}

#[test]
fn addresses_of_either_kind() {
    assert_eq!(
        IpAddr::parse("8.8.8.8"),
        Some(IpAddr::V4(Ipv4Addr::new(8, 8, 8, 8)))
    );
    assert_eq!(IpAddr::parse("::1"), Some(IpAddr::V6(v6("::1"))));
    assert_eq!(IpAddr::parse("example.com"), None);
    assert_eq!(IpAddr::V6(v6("::1")).to_text(), "::1");
    assert_eq!(IpAddr::parse_with("1.2.3.4", None), Some(IpAddr::V4(Ipv4Addr::new(1, 2, 3, 4))));
    assert_eq!(IpAddr::parse_with("x", Some(v6("::2"))), Some(IpAddr::V6(v6("::2"))));
    let a = SocketAddr {
        ip: IpAddr::V4(Ipv4Addr::new(1, 2, 3, 4)),
        port: 80,
    };
    assert_eq!(a.to_text(), "1.2.3.4:80");
    let b = SocketAddr {
        ip: IpAddr::V6(v6("::1")),
        port: 443,
    };
    assert_eq!(b.to_text(), "[::1]:443");
}

#[test]
fn ipv4_networks() {
    let n = Ipv4Net::parse("10.7.3.9/16").unwrap();
    assert_eq!(n.prefix_len, 16);
    assert_eq!(n.to_text(), "10.7.3.9/16");
    assert_eq!(n.network().to_text(), "10.7.0.0");
    assert_eq!(n.netmask().to_text(), "255.255.0.0");
    assert!(n.contains(Ipv4Addr::new(10, 7, 255, 255)));
    assert!(!n.contains(Ipv4Addr::new(10, 8, 0, 0)));
    let all = Ipv4Net::parse("0.0.0.0/0").unwrap();
    assert!(all.contains(Ipv4Addr::new(255, 255, 255, 255)));
    assert_eq!(all.netmask().to_text(), "0.0.0.0");
    let one = Ipv4Net::parse("1.2.3.4/32").unwrap();
    assert_eq!(one.netmask().to_text(), "255.255.255.255");
    assert!(one.contains(Ipv4Addr::new(1, 2, 3, 4)));
    assert!(!one.contains(Ipv4Addr::new(1, 2, 3, 5)));
    for bad in ["10.7.0.0", "10.7.0.0/33", "10.7.0/24", "x/24", "fd00::/64"] {
        assert_eq!(Ipv4Net::parse(bad).unwrap_err(), "invalid IP address syntax");
    }
}

#[test]
fn ipv6_networks() {
    let n = Ipv6Net::parse("fd00:7::5/64").unwrap();
    assert_eq!(n.prefix_len, 64);
    assert_eq!(n.network(), v6("fd00:7::"));
    assert!(n.contains(v6("fd00:7::ffff:1")));
    assert!(!n.contains(v6("fd00:8::1")));
    let all = Ipv6Net::parse("::/0").unwrap();
    assert!(all.contains(v6("ffff::1")));
    let one = Ipv6Net::parse("::1/128").unwrap();
    assert!(one.contains(v6("::1")) && !one.contains(v6("::2")));
    assert!(Ipv6Net::parse("fd00:7::/129").is_none());
    assert!(Ipv6Net::parse("10.0.0.0/8").is_none());
}
