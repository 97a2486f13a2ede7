use entrotunnel::addr::{IpAddr, Ipv4Addr, Ipv6Addr};
use entrotunnel::client::config::{
    ClientConfig, ConnectionSettings, Profile, RouteRule, SplitMode,
};
use entrotunnel::client::netcfg::rules::{
    apply_route_rules, domain_routes, if_index, resolve_rule_targets, rule_target, split_cidr,
    target_from, text_before, RuleContext, RuleRoute, RuleTarget,
};
use entrotunnel::client::netcfg::{linux, macos, resolv_body, windows, NetGuard, NetStep};
use entrotunnel::cmd::{run, run_ip, Cmd, Ran};
use entrotunnel::config::SessionMode;
use entrotunnel::error::Error;
use entrotunnel::protocol::control::Welcome;

fn v4(a: u8, b: u8, c: u8, d: u8) -> IpAddr {
    IpAddr::V4(Ipv4Addr::new(a, b, c, d))
}

fn v6(s: &str) -> Ipv6Addr {
    Ipv6Addr::parse(s).unwrap()
}

fn welcome(six: bool) -> Welcome {
    Welcome {
        session_id: 1,
        assigned_ip: Ipv4Addr::new(10, 7, 0, 2),
        prefix_len: 24,
        gateway: Ipv4Addr::new(10, 7, 0, 1),
        mtu: 1380,
        dns: vec![Ipv4Addr::new(1, 1, 1, 1), Ipv4Addr::new(8, 8, 8, 8)],
        assigned_ip6: if six { Some(v6("fd00:7::2")) } else { None },
        prefix6: if six { 64 } else { 0 },
        gateway6: None,
        dns6: if six { vec![v6("2606:4700:4700::1111")] } else { Vec::new() },
    }
}

fn config(mode: SessionMode, split_mode: SplitMode, ipv6_killswitch: bool) -> ClientConfig {
    let p = Profile {
        name: "p".to_string(),
        selected_server: None,
        servers: Vec::new(),
    };
    let s = ConnectionSettings {
        mode,
        split_mode,
        ipv6_killswitch,
        ..ConnectionSettings::default()
    };
    ClientConfig::compose(&p, &s)
}

fn line(c: &Cmd) -> String {
    format!("{} {}", c.program, c.args.join(" "))
}

fn lines(v: &[NetStep]) -> Vec<String> {
    v.iter().map(|s| line(&s.cmd)).collect()
}

fn undos(v: &[NetStep]) -> Vec<String> {
    v.iter().filter_map(|s| s.undo.as_ref().map(line)).collect()
}

fn orig() -> Option<(String, String)> {
    Some(("192.168.1.1".to_string(), "eth0".to_string()))
}

#[test]
fn the_default_route_on_linux() {
    assert_eq!(
        linux::route_from("default via 10.0.0.1 dev eth0\nsecond via 1 dev 2"),
        Some(("10.0.0.1".to_string(), "eth0".to_string()))
    );
    assert_eq!(linux::route_from("default dev eth0"), None);
    assert_eq!(
        linux::default_route(b"default via 192.168.1.1 dev eth0 proto dhcp\nother via x dev y\n"),
        orig()
    );
    assert_eq!(linux::default_route(b"default dev ppp0\n"), None);
    assert_eq!(linux::default_route(b""), None);
}

#[test]
fn bringing_the_link_up_on_linux() {
    assert_eq!(
        lines(&linux::link_steps(&welcome(true), "et0")),
        vec![
            "ip addr add 10.7.0.2/24 dev et0",
            "ip link set dev et0 mtu 1380",
            "ip link set dev et0 up",
            "ip -6 addr add fd00:7::2/64 dev et0",
        ]
    );
    let mut w = welcome(true);
    w.prefix6 = 0;
    let v = linux::link_steps(&w, "et0");
    assert_eq!(line(&v[3].cmd), "ip -6 addr add fd00:7::2/1 dev et0");
    assert!(v[0].must && !v[3].must);
    let lan = linux::apply_vpn_lan(&welcome(false), "et0");
    assert_eq!(lan.len(), 3);
    assert_eq!(undos(&lan), vec!["ip addr del 10.7.0.2/24 dev et0"]);
}

#[test]
fn capturing_everything_on_linux() {
    let c = config(SessionMode::GlobalProxy, SplitMode::Blacklist, true);
    let p = linux::apply(&c, &welcome(false), "et0", v4(9, 9, 9, 9), &orig(), &None);
    assert_eq!(
        lines(&p.steps),
        vec![
            "ip route add 9.9.9.9/32 via 192.168.1.1 dev eth0",
            "ip route add 0.0.0.0/1 dev et0",
            "ip route add 128.0.0.0/1 dev et0",
            "ip -6 route add unreachable ::/1",
            "ip -6 route add unreachable 8000::/1",
        ]
    );
    assert_eq!(
        undos(&p.steps),
        vec![
            "ip route del 9.9.9.9/32",
            "ip route del 0.0.0.0/1",
            "ip route del 128.0.0.0/1",
            "ip -6 route del ::/1",
            "ip -6 route del 8000::/1",
        ]
    );
    assert_eq!(p.resolv.unwrap(), "nameserver 1.1.1.1\nnameserver 8.8.8.8\n");
}

#[test]
fn ipv6_through_the_tunnel_on_linux() {
    let c = config(SessionMode::GlobalProxy, SplitMode::Blacklist, true);
    let server = IpAddr::V6(v6("2001:db8::9"));
    let p = linux::apply(&c, &welcome(true), "et0", server, &None, &orig());
    assert_eq!(
        lines(&p.steps),
        vec![
            "ip route add 0.0.0.0/1 dev et0",
            "ip route add 128.0.0.0/1 dev et0",
            "ip -6 route add 2001:db8::9/128 via 192.168.1.1 dev eth0",
            "ip -6 route add ::/1 dev et0",
            "ip -6 route add 8000::/1 dev et0",
        ]
    );
    assert!(p.resolv.unwrap().ends_with("nameserver 2606:4700:4700::1111\n"));
    let off = config(SessionMode::GlobalProxy, SplitMode::Blacklist, false);
    let p = linux::apply(&off, &welcome(false), "et0", v4(9, 9, 9, 9), &None, &None);
    assert_eq!(p.steps.len(), 2);
}

#[test]
fn whitelists_and_other_modes_capture_nothing() {
    let c = config(SessionMode::GlobalProxy, SplitMode::Whitelist, true);
    let p = linux::apply(&c, &welcome(false), "et0", v4(9, 9, 9, 9), &orig(), &None);
    assert_eq!(
        lines(&p.steps),
        vec!["ip route add 9.9.9.9/32 via 192.168.1.1 dev eth0"]
    );
    assert_eq!(p.resolv, None);
    for m in [SessionMode::Vpn, SessionMode::HttpProxy, SessionMode::SystemProxy] {
        let c = config(m, SplitMode::Blacklist, true);
        let p = linux::apply(&c, &welcome(false), "et0", v4(9, 9, 9, 9), &orig(), &None);
        assert!(p.steps.is_empty() && p.resolv.is_none());
    }
}

#[test]
fn the_macos_host() {
    let route = "   route to: default\n    gateway: 192.168.1.1\n  interface: en0\n";
    assert_eq!(macos::default_gateway(route), Some("192.168.1.1".to_string()));
    assert_eq!(macos::default_gateway("nothing"), None);
    let order = "(1) USB LAN\n(Hardware Port: USB LAN, Device: en00)\n(2) Wi-Fi (home)\n(Hardware Port: Wi-Fi, Device: en0)\n";
    assert_eq!(macos::primary_service(route, order), Some("Wi-Fi (home)".to_string()));
    assert_eq!(macos::primary_service("x", order), None);
}

#[test]
fn ipv6_is_put_back_as_it_was_on_macos() {
    let c = config(SessionMode::GlobalProxy, SplitMode::Blacklist, true);
    for (info, undo) in [
        ("IPv6: Off\n", "networksetup -setv6off Wi-Fi"),
        ("IPv6: Automatic\n", "networksetup -setv6automatic Wi-Fi"),
        (
            "IPv6: Manual\nIPv6 IP address: fd00::5\nIPv6 Router: fd00::1\nIPv6 Prefix Length: 64\n",
            "networksetup -setv6manual Wi-Fi fd00::5 64 fd00::1",
        ),
        ("", "networksetup -setv6automatic Wi-Fi"),
    ] {
        let host = macos::HostNet {
            gw: None,
            gw6: None,
            service: Some("Wi-Fi".to_string()),
            dns: String::new(),
            info: info.to_string(),
        };
        let p = macos::apply(&c, &welcome(false), "utun3", v4(9, 9, 9, 9), &host);
        assert!(undos(&p.steps).contains(&undo.to_string()));
    }
}

#[test]
fn capturing_everything_on_macos() {
    let host = macos::HostNet {
        gw: Some("192.168.1.1".to_string()),
        gw6: None,
        service: Some("Wi-Fi".to_string()),
        dns: "8.8.4.4\nnot one\n".to_string(),
        info: "DHCP Configuration\nIP address: 192.168.1.5\nIPv6: Automatic\n".to_string(),
    };
    let c = config(SessionMode::GlobalProxy, SplitMode::Blacklist, true);
    let p = macos::apply(&c, &welcome(false), "utun3", v4(9, 9, 9, 9), &host);
    assert_eq!(
        lines(&p.steps),
        vec![
            "route add -host 9.9.9.9 192.168.1.1",
            "route add -net 0.0.0.0/1 -interface utun3",
            "route add -net 128.0.0.0/1 -interface utun3",
            "networksetup -setv6off Wi-Fi",
            "networksetup -setdnsservers Wi-Fi 1.1.1.1 8.8.8.8",
        ]
    );
    assert_eq!(
        undos(&p.steps)[3..],
        [
            "networksetup -setv6automatic Wi-Fi".to_string(),
            "networksetup -setdnsservers Wi-Fi 8.8.4.4".to_string()
        ]
    );
    let host = macos::HostNet {
        gw: None,
        gw6: Some("fe80::1".to_string()),
        service: Some("Wi-Fi".to_string()),
        dns: "There aren't any DNS Servers set on Wi-Fi.".to_string(),
        info: String::new(),
    };
    let server = IpAddr::V6(v6("2001:db8::9"));
    let p = macos::apply(&c, &welcome(true), "utun3", server, &host);
    assert_eq!(line(&p.steps[2].cmd), "route add -inet6 -host 2001:db8::9 fe80::1");
    assert_eq!(
        undos(&p.steps).last().unwrap(),
        "networksetup -setdnsservers Wi-Fi empty"
    );
    let vpn = config(SessionMode::Vpn, SplitMode::Blacklist, true);
    let p = macos::apply(&vpn, &welcome(false), "utun3", v4(9, 9, 9, 9), &host);
    assert_eq!(
        lines(&p.steps),
        vec!["route add -net 10.7.0.0/24 -interface utun3"]
    );
    assert_eq!(lines(&macos::link_steps(&welcome(true), "utun3")).len(), 3);
    assert_eq!(lines(&macos::apply_vpn_lan(&welcome(false), "utun3")).len(), 3);
    let mut w = welcome(false);
    w.prefix_len = 99;
    assert_eq!(macos::subnet(&w), "10.7.0.2/99");
}

const INTERFACES: &str = "Idx     Met         MTU          State                Name\n---  ----------  ----------  ------------  ---------------------------\n  1          75  4294967295  connected     Loopback Pseudo-Interface 1\n 17          25        1500  connected     Wi-Fi\n";

#[test]
fn the_windows_host() {
    assert_eq!(if_index(INTERFACES, "Wi-Fi"), Some(17));
    assert_eq!(if_index(INTERFACES, "Loopback Pseudo-Interface 1"), Some(1));
    assert_eq!(if_index(INTERFACES, "Name"), None);
    let print = "Network Destination Netmask Gateway\n 0.0.0.0 0.0.0.0 On-link 10.0.0.1 1\n 0.0.0.0 0.0.0.0 192.168.1.1 192.168.1.5 25\n";
    assert_eq!(windows::default_gateway(print), Some("192.168.1.1".to_string()));
    assert_eq!(windows::default_gateway(""), None);
    assert_eq!(windows::prefix_to_mask(24), "255.255.255.0");
    assert_eq!(windows::prefix_to_mask(0), "0.0.0.0");
    assert_eq!(windows::prefix_to_mask(33), "255.255.255.255");
    assert_eq!(
        split_cidr("10.1.2.3/8"),
        Some(("10.0.0.0".to_string(), "255.0.0.0".to_string()))
    );
    assert_eq!(split_cidr("x"), None);
}

#[test]
fn the_windows_address_is_tried_ten_times() {
    let w = welcome(false);
    for tries in 0..10 {
        match windows::set_adapter_ipv4("et0", &w, tries, false) {
            windows::AddressStep::Try(c) => assert_eq!(
                line(&c),
                "netsh interface ipv4 set address et0 static 10.7.0.2 255.255.255.0"
            ),
            _ => panic!("try"),
        }
    }
    match windows::set_adapter_ipv4("et0", &w, 10, false) {
        windows::AddressStep::Failed(e) => assert_eq!(
            e.to_text(),
            "transport: could not assign 10.7.0.2 255.255.255.0 to et0 via netsh"
        ),
        _ => panic!("failed"),
    }
    match windows::set_adapter_ipv4("et0", &w, 10, true) {
        windows::AddressStep::Done(c) => assert_eq!(
            line(&c),
            "netsh interface ipv4 set subinterface et0 mtu=1380 store=active"
        ),
        _ => panic!("done"),
    }
    assert_eq!(
        lines(&windows::link6_steps(&welcome(true), "et0")),
        vec!["netsh interface ipv6 add address et0 fd00:7::2"]
    );
}

#[test]
fn capturing_everything_on_windows() {
    let c = config(SessionMode::GlobalProxy, SplitMode::Blacklist, true);
    let gw = Some("192.168.1.1".to_string());
    let v = windows::apply(&c, &welcome(false), "et0", v4(9, 9, 9, 9), Some(5), &gw);
    assert_eq!(
        lines(&v),
        vec![
            "route add 9.9.9.9 mask 255.255.255.255 192.168.1.1",
            "route add 0.0.0.0 mask 128.0.0.0 10.7.0.1 metric 1 if 5",
            "route add 128.0.0.0 mask 128.0.0.0 10.7.0.1 metric 1 if 5",
            "netsh interface ipv6 add route ::/1 et0 store=active",
            "netsh interface ipv6 add route 8000::/1 et0 store=active",
            "netsh interface ipv4 set dnsservers et0 static 1.1.1.1 validate=no",
            "netsh interface ipv4 add dnsservers et0 8.8.8.8 index=2 validate=no",
        ]
    );
    let v = windows::apply(&c, &welcome(false), "et0", v4(9, 9, 9, 9), None, &gw);
    assert_eq!(v.len(), 1);
    let six = IpAddr::V6(v6("2001:db8::9"));
    let v = windows::apply(&c, &welcome(true), "et0", six, Some(5), &None);
    assert!(lines(&v).iter().all(|l| !l.contains("add route")));
}

fn rule(target: &str, via: &str, gateway: Option<Ipv4Addr>) -> RouteRule {
    RouteRule {
        target: target.to_string(),
        via: via.to_string(),
        gateway,
    }
}

fn pair(target: &str, via: &str, gateway: Option<Ipv4Addr>) -> RuleRoute {
    RuleRoute {
        rule: rule(target, via, gateway),
        route: target.to_string(),
    }
}

#[test]
fn targets_of_rules() {
    let routes = |t: &str, found: &[IpAddr]| resolve_rule_targets(rule_target(t), &found.to_vec());
    assert_eq!(routes("10.1.2.3/8", &[]), vec!["10.1.2.3/8"]);
    assert_eq!(routes("1.2.3.4", &[]), vec!["1.2.3.4/32"]);
    assert!(routes("::1", &[v4(1, 1, 1, 1)]).is_empty());
    assert!(routes("fd00::/8", &[]).is_empty());
    assert_eq!(
        routes(
            "example.com",
            &[v4(9, 0, 0, 1), IpAddr::V6(v6("::1")), v4(10, 0, 0, 1), v4(9, 0, 0, 1)]
        ),
        vec!["10.0.0.1/32", "9.0.0.1/32"]
    );
    assert!(domain_routes(&Vec::new()).is_empty());
    assert!(matches!(
        target_from("x", None, Some(v6("::1")), None),
        RuleTarget::Skipped
    ));
    assert!(matches!(target_from("x", None, None, None), RuleTarget::Domain));
    for (a, b) in [("a", "b"), ("a", "ab"), ("10", "9"), ("", "x"), ("b", "a"), ("a", "a")] {
        assert_eq!(text_before(a, b), a < b);
    }
}

#[test]
fn rules_on_linux() {
    let ctx = RuleContext::Linux {
        tun: "et0".to_string(),
        orig: orig(),
    };
    let gw = Some(Ipv4Addr::new(10, 0, 0, 254));
    let pairs = vec![
        pair("9.9.9.9/32", "tunnel", None),
        pair("10.0.0.0/8", "direct", None),
        pair("10.0.0.0/8", "tunnel", None),
        pair("172.16.0.0/12", "eth1", gw),
        pair("1.1.1.1/32", "eth1", None),
    ];
    let v = apply_route_rules(&ctx, &pairs, v4(9, 9, 9, 9));
    assert_eq!(
        lines(&v),
        vec![
            "ip route add 10.0.0.0/8 via 192.168.1.1 dev eth0",
            "ip route add 172.16.0.0/12 via 10.0.0.254 dev eth1",
            "ip route add 1.1.1.1/32 dev eth1",
        ]
    );
    let expected: Vec<String> = lines(&v).iter().map(|l| l.replace(" add ", " del ")).collect();
    assert_eq!(undos(&v), expected);
    let none = RuleContext::Linux {
        tun: "et0".to_string(),
        orig: None,
    };
    // A rule that cannot be followed still claims its route.
    assert!(apply_route_rules(&none, &pairs[1..3].iter().map(copy).collect(), v4(9, 9, 9, 9)).is_empty());
}

fn copy(p: &RuleRoute) -> RuleRoute {
    RuleRoute {
        rule: p.rule.clone(),
        route: p.route.clone(),
    }
}

#[test]
fn rules_on_macos_and_windows() {
    let gw = Some(Ipv4Addr::new(10, 0, 0, 254));
    let pairs = vec![
        pair("10.0.0.0/8", "tunnel", None),
        pair("11.0.0.0/8", "direct", None),
        pair("12.0.0.0/8", "Wi-Fi", gw),
        pair("13.0.0.0/8", "Wi-Fi", None),
        pair("14.0.0.0/8", "gone", None),
    ];
    let mac = RuleContext::MacOs {
        peer_gw: "10.7.0.1".to_string(),
        orig_gw: Some("192.168.1.1".to_string()),
    };
    assert_eq!(
        lines(&apply_route_rules(&mac, &pairs, v4(9, 9, 9, 9))),
        vec![
            "route add -net 10.0.0.0/8 10.7.0.1",
            "route add -net 11.0.0.0/8 192.168.1.1",
            "route add -net 12.0.0.0/8 10.0.0.254 -ifscope Wi-Fi",
            "route add -net 13.0.0.0/8 -interface Wi-Fi",
            "route add -net 14.0.0.0/8 -interface gone",
        ]
    );
    let win = RuleContext::Windows {
        tun_idx: Some(5),
        tun_gw: "10.7.0.1".to_string(),
        orig_gw: Some("192.168.1.1".to_string()),
        interfaces: INTERFACES.to_string(),
    };
    let v = apply_route_rules(&win, &pairs, v4(9, 9, 9, 9));
    assert_eq!(
        lines(&v),
        vec![
            "route add 10.0.0.0 mask 255.0.0.0 10.7.0.1 metric 1 if 5",
            "route add 11.0.0.0 mask 255.0.0.0 192.168.1.1",
            "route add 12.0.0.0 mask 255.0.0.0 10.0.0.254 if 17",
            "route add 13.0.0.0 mask 255.0.0.0 0.0.0.0 if 17",
        ]
    );
    assert_eq!(undos(&v)[0], "route delete 10.0.0.0 mask 255.0.0.0");
}

#[test]
fn what_is_undone() {
    let c = config(SessionMode::GlobalProxy, SplitMode::Blacklist, true);
    let p = linux::apply(&c, &welcome(false), "et0", v4(9, 9, 9, 9), &orig(), &None);
    let mut g = NetGuard::new();
    let mut steps = p.steps.into_iter();
    let fails = || Err(Error::Transport("x".to_string()));
    // Undone though it failed.
    g.record(steps.next().unwrap(), fails()).unwrap();
    g.record(steps.next().unwrap(), Ok(())).unwrap();
    // Stops the plan, and is not undone.
    assert_eq!(
        g.record(steps.next().unwrap(), fails()).unwrap_err().to_text(),
        "transport: x"
    );
    let left: Vec<String> = g.undo.iter().map(line).collect();
    assert_eq!(left, vec!["ip route del 9.9.9.9/32", "ip route del 0.0.0.0/1"]);
    let ctx = RuleContext::Linux {
        tun: "et0".to_string(),
        orig: None,
    };
    let v = apply_route_rules(&ctx, &vec![pair("1.1.1.1/32", "tunnel", None)], v4(9, 9, 9, 9));
    let mut g = NetGuard::new();
    for s in v {
        g.record(s, fails()).unwrap();
    }
    assert!(g.undo.is_empty());
    assert_eq!(resolv_body(&Vec::new(), &Vec::new()), "");
}

#[test]
fn how_commands_end() {
    let c = Cmd::new("ip").arg("link").arg("up");
    let ended = |success| Ran::Ended {
        success,
        stderr: " no such device\n".to_string(),
    };
    assert!(run(&c, ended(true)).is_ok());
    assert_eq!(
        run(&c, ended(false)).unwrap_err().to_text(),
        "transport: `ip link up` failed: no such device"
    );
    let lost = || Ran::NotStarted("not found".to_string());
    assert_eq!(
        run(&c, lost()).unwrap_err().to_text(),
        "transport: spawn `ip`: not found"
    );
    assert_eq!(
        run_ip(&c, lost()).unwrap_err().to_text(),
        "transport: spawn `ip link up`: not found"
    );
    assert_eq!(
        run_ip(&c, ended(false)).unwrap_err().to_text(),
        "transport: `ip link up` failed: no such device"
    );
}
