use entrotunnel::addr::{Ipv4Addr, Ipv4Net, Ipv6Addr, Ipv6Net};
use entrotunnel::client::chain::handshake;
use entrotunnel::config::{SessionMode, TransportKind};
use entrotunnel::protocol::control::{Hello, TargetAddr, Welcome};
use entrotunnel::protocol::frame::Frame;
use entrotunnel::server::config::{tls_material, ListenerConfig, PeerConfig, ServerConfig, TlsSource};
use entrotunnel::server::metrics::Metrics;
use entrotunnel::server::net::{
    detect_egress, detect_egress6, egress_in, link_steps, setup, setup_ipv6,
};
use entrotunnel::server::router::{LiveEntry, Online, Router};
use entrotunnel::server::session::{
    derive_ipv6, open_remote_stream, other_members, packet_destination, packet_may_pass, Action,
    AppState, Opening, RemoteEvent, Session,
};
use entrotunnel::server::startup::{prepare, self_signed_names, tls_pair, Refused, TlsPair};
use entrotunnel::server::web;
use entrotunnel::cmd::Cmd;

fn peer(name: &str, last: u8) -> PeerConfig {
    PeerConfig {
        name: name.to_string(),
        token: format!("tok-{}", name),
        ip: Ipv4Addr::new(10, 7, 0, last),
        enabled: true,
        allow_global: true,
        allow_http_proxy: true,
    }
}

fn config() -> ServerConfig {
    let mut c = ServerConfig::template();
    c.network.subnet = "10.7.0.0/24".to_string();
    c.network.gateway = Ipv4Addr::new(10, 7, 0, 1);
    c.network.subnet6 = Some("fd00:7::/64".to_string());
    c.peers = vec![peer("a", 2), peer("b", 3)];
    c
}

fn state() -> AppState {
    AppState {
        config: config(),
        router: Router::new(),
        metrics: Metrics::new(100),
        tun: true,
        ipv6: true,
        next_id: 0,
    }
}

fn hello(token: &str, mode: SessionMode) -> Frame {
    Frame::Hello(Hello {
        version: 2,
        token: token.to_string(),
        mode,
        requested_ip: None,
        client_name: None,
        join_vpn: false,
    })
}

fn refusal(s: &mut AppState, f: &Frame) -> String {
    match s.open(f, "1.2.3.4:5", 100) {
        Opening::Refused(Frame::Reject { reason }) => reason,
        _ => panic!("not refused"),
    }
}

fn let_in(s: &mut AppState, token: &str, mode: SessionMode, now: u64) -> (Session, Welcome) {
    match s.open(&hello(token, mode), "1.2.3.4:5", now) {
        Opening::Accepted(s, Frame::Welcome(w)) => (s, w),
        _ => panic!("not accepted"),
    }
}

fn packet4(dst: [u8; 4]) -> Vec<u8> {
    let mut p = vec![0u8; 28];
    p[0] = 0x45;
    p[16..20].copy_from_slice(&dst);
    p
}

fn packet6(dst: u128) -> Vec<u8> {
    let mut p = vec![0u8; 40];
    p[0] = 0x60;
    p[24..40].copy_from_slice(&dst.to_be_bytes());
    p
}

#[test]
fn the_starter_configuration() {
    let c = ServerConfig::template();
    assert_eq!(c.prefix_len().unwrap(), 24);
    assert!(!c.peers.is_empty());
    assert!(prepare(&c).is_ok());
    assert!(c.find_peer(&c.peers[0].token).is_some());
    assert!(c.find_peer("nobody").is_none());
    assert_eq!(c.network.subnet6, Some("fd66::/64".to_string()));
    assert!(c.web.admin_token != c.peers[0].token);
    let d = ServerConfig::template_with("key".to_string(), "admin".to_string(), "tok".to_string());
    assert_eq!(d.security.noise_psk, "key");
    assert_eq!(d.web.admin_token, "admin");
    assert_eq!(d.peers[0].token, "tok");
    assert_eq!(d.peers[0].ip, Ipv4Addr::new(10, 66, 0, 2));
}

#[test]
fn configurations_that_are_refused() {
    let mut c = config();
    c.security.noise_psk = "AAAA".to_string();
    c.network.subnet = "10.7.0.0".to_string();
    match prepare(&c) {
        Err(Refused::Subnet(e)) => assert_eq!(
            e.to_text(),
            "config: bad subnet 10.7.0.0: invalid IP address syntax"
        ),
        _ => panic!("subnet first"),
    }
    c.network.subnet = "10.7.0.0/24".to_string();
    match prepare(&c) {
        Err(Refused::NoisePsk(e)) => {
            assert_eq!(e.to_text(), "config: psk must be 32 bytes, got 3")
        }
        _ => panic!("then the key"),
    }
}

#[test]
fn where_certificates_come_from() {
    let mut c = config();
    c.security.tls_cert_path = None;
    c.security.tls_key_path = None;
    c.listeners = vec![ListenerConfig {
        transport: TransportKind::Tcp,
        bind: "0.0.0.0:1".to_string(),
        tls: true,
    }];
    assert_eq!(tls_material(&c, false), TlsSource::NotNeeded);
    assert_eq!(tls_material(&c, true), TlsSource::NotNeeded);
    assert!(matches!(tls_pair(&c, None).unwrap(), TlsPair::Unused));
    c.listeners[0].transport = TransportKind::Quic;
    assert_eq!(tls_material(&c, false), TlsSource::SelfSigned);
    assert_eq!(tls_material(&c, true), TlsSource::Saved);
    let (cert, key) = match tls_pair(&c, None).unwrap() {
        TlsPair::Made(cert, key) => (cert, key),
        _ => panic!("made"),
    };
    match tls_pair(&c, Some((cert.clone(), key.clone()))).unwrap() {
        TlsPair::Kept(c2, k2) => assert_eq!((c2, k2), (cert, key)),
        _ => panic!("kept"),
    }
    c.security.tls_cert_path = Some("c".to_string());
    assert_eq!(tls_material(&c, false), TlsSource::SelfSigned);
    c.security.tls_key_path = Some("k".to_string());
    assert_eq!(tls_material(&c, true), TlsSource::Files);
    assert!(matches!(tls_pair(&c, None).unwrap(), TlsPair::InFiles));
    assert_eq!(
        self_signed_names(),
        vec!["entrotunnel".to_string(), "localhost".to_string()]
    );
}

#[test]
fn reasons_for_refusal() {
    let mut s = state();
    s.config.peers[1].enabled = false;
    s.config.peers[0].allow_global = false;
    let mut h = match hello("tok-a", SessionMode::Vpn) {
        Frame::Hello(h) => h,
        _ => panic!(),
    };
    h.version = 1;
    assert_eq!(
        refusal(&mut s, &Frame::Hello(h)),
        "protocol version mismatch (server 2, client 1)"
    );
    assert_eq!(refusal(&mut s, &hello("nope", SessionMode::Vpn)), "unknown token");
    assert_eq!(refusal(&mut s, &hello("tok-b", SessionMode::Vpn)), "peer is disabled");
    assert_eq!(
        refusal(&mut s, &hello("tok-a", SessionMode::GlobalProxy)),
        "global proxy not allowed for this peer"
    );
    assert!(matches!(s.open(&Frame::Ping, "x", 0), Opening::Ignored));
    assert_eq!(s.next_id, 0);
    assert!(s.router.online().is_empty());
    assert_eq!(s.router.deliver(Ipv4Addr::new(10, 7, 0, 2)), None);
}

#[test]
fn an_admitted_client_owns_its_addresses() {
    let mut s = state();
    let (a, w) = let_in(&mut s, "tok-a", SessionMode::Vpn, 100);
    assert_eq!(w.assigned_ip, Ipv4Addr::new(10, 7, 0, 2));
    assert_eq!(w.prefix_len, 24);
    assert_eq!(w.gateway, Ipv4Addr::new(10, 7, 0, 1));
    assert_eq!(w.mtu, s.config.network.mtu);
    let six = w.assigned_ip6.unwrap();
    assert_eq!(six.to_text(), "fd00:7::a07:2");
    assert_eq!(w.prefix6, 64);
    assert_eq!(w.dns6.len(), s.config.network.dns6.len());
    assert_eq!(s.router.deliver(w.assigned_ip), Some(a.id));
    assert_eq!(s.router.deliver6(six), Some(a.id));
    assert_eq!(s.run_tun_router(&packet4([10, 7, 0, 2])), Some(a.id));
    assert_eq!(s.run_tun_router(&packet6(six.bits)), Some(a.id));
    assert_eq!(s.run_tun_router(&packet4([10, 7, 0, 9])), None);
    assert_eq!(s.run_tun_router(&[]), None);
    s.close(a);
    assert_eq!(s.router.deliver(w.assigned_ip), None);
    assert_eq!(s.router.deliver6(six), None);
}

#[test]
fn without_ipv6_none_is_offered() {
    let mut s = state();
    s.ipv6 = false;
    let (_, w) = let_in(&mut s, "tok-a", SessionMode::Vpn, 100);
    assert_eq!(w.assigned_ip6, None);
    assert_eq!((w.prefix6, w.gateway6, w.dns6.len()), (0, None, 0));
}

#[test]
fn session_numbers_are_random_and_fresh() {
    let mut s = state();
    let (a, wa) = let_in(&mut s, "tok-a", SessionMode::Vpn, 100);
    let (b, wb) = let_in(&mut s, "tok-b", SessionMode::Vpn, 100);
    assert!(a.id != b.id);
    assert!(wa.session_id != wb.session_id);
    let mut t = state();
    match t.open_with(&hello("tok-a", SessionMode::Vpn), "x", 1, 77) {
        Opening::Accepted(_, Frame::Welcome(w)) => assert_eq!(w.session_id, 77),
        _ => panic!("accepted"),
    }
}

#[test]
fn a_reconnecting_client_keeps_its_address_when_the_old_session_ends() {
    let mut s = state();
    let (old, _) = let_in(&mut s, "tok-a", SessionMode::Vpn, 100);
    let (new, w) = let_in(&mut s, "tok-a", SessionMode::Vpn, 101);
    assert_eq!(s.router.deliver(w.assigned_ip), Some(new.id));
    let v6 = w.assigned_ip6;
    s.close(old);
    assert_eq!(s.router.deliver(w.assigned_ip), Some(new.id));
    if let Some(a) = v6 {
        assert_eq!(s.router.deliver6(a), Some(new.id));
    }
    assert_eq!(s.router.online().len(), 1);
    s.close(new);
    assert_eq!(s.router.deliver(w.assigned_ip), None);
}

#[test]
fn a_silent_client_is_dead_after_a_while() {
    let mut s = state();
    let (a, w) = let_in(&mut s, "tok-a", SessionMode::Vpn, 100);
    let a = s.on_silence(a, 44).unwrap();
    assert_eq!(s.router.deliver(w.assigned_ip), Some(a.id));
    assert!(s.on_silence(a, 45).is_none());
    assert_eq!(s.router.deliver(w.assigned_ip), None);
    assert!(s.router.online().is_empty());
}

#[test]
fn frames_of_a_client() {
    let mut s = state();
    let (mut a, _) = let_in(&mut s, "tok-a", SessionMode::HttpProxy, 100);
    assert!(matches!(s.on_frame(&mut a, Frame::Ping), Action::Reply(Frame::Pong)));
    assert!(matches!(s.on_frame(&mut a, Frame::Pong), Action::Nothing));
    match s.on_frame(
        &mut a,
        Frame::StreamOpen {
            id: 4,
            target: TargetAddr::Domain("h".to_string(), 80),
        },
    ) {
        Action::Dial { id, target } => {
            assert_eq!(id, 4);
            let r = open_remote_stream(id, &target);
            assert_eq!(r.addr, "h:80");
            match r.on_event(RemoteEvent::DialFailed("refused".to_string())) {
                Frame::StreamClose { id, error } => {
                    assert_eq!((id, error), (4, Some("dial h:80: refused".to_string())))
                }
                _ => panic!("close"),
            }
            match r.on_event(RemoteEvent::Data(vec![1])) {
                Frame::StreamData { id, data } => assert_eq!((id, data), (4, vec![1])),
                _ => panic!("data"),
            }
            match r.on_event(RemoteEvent::Ended) {
                Frame::StreamClose { id, error } => assert_eq!((id, error), (4, None)),
                _ => panic!("end"),
            }
        }
        _ => panic!("dial"),
    }
    let data = |id| Frame::StreamData {
        id,
        data: vec![1, 2, 3],
    };
    assert!(matches!(s.on_frame(&mut a, data(4)), Action::ToStream { id: 4, .. }));
    assert!(matches!(s.on_frame(&mut a, data(5)), Action::Nothing));
    assert_eq!(s.metrics.totals(), (6, 0));
    let close = Frame::StreamClose { id: 4, error: None };
    assert!(matches!(s.on_frame(&mut a, close), Action::Hangup { id: 4 }));
    assert!(matches!(s.on_frame(&mut a, data(4)), Action::Nothing));
    // Not a member of the peer LAN: packets are not taken.
    let p = Frame::Packet(packet4([10, 7, 0, 3]));
    assert!(matches!(s.on_frame(&mut a, p), Action::Nothing));
    s.config.peers[0].allow_http_proxy = false;
    let (mut a, _) = let_in(&mut s, "tok-a", SessionMode::HttpProxy, 100);
    match s.on_frame(
        &mut a,
        Frame::StreamOpen {
            id: 1,
            target: TargetAddr::Domain("h".to_string(), 80),
        },
    ) {
        Action::Reply(Frame::StreamClose { id, error }) => assert_eq!(
            (id, error),
            (1, Some("http proxy not allowed for this peer".to_string()))
        ),
        _ => panic!("refused"),
    }
}

#[test]
fn packets_to_the_outside_need_the_right() {
    let mut s = state();
    s.config.peers[0].allow_global = false;
    let (mut a, _) = let_in(&mut s, "tok-a", SessionMode::Vpn, 100);
    let mut passes = |s: &mut AppState, p: Vec<u8>| {
        matches!(s.on_frame(&mut a, Frame::Packet(p)), Action::ToTun(_))
    };
    assert!(passes(&mut s, packet4([10, 7, 0, 3])));
    assert!(passes(&mut s, packet4([10, 7, 0, 1])));
    assert!(!passes(&mut s, packet4([8, 8, 8, 8])));
    assert!(!passes(&mut s, packet6(0x2606 << 112)));
    assert!(passes(&mut s, packet6((0xfd00_0007 << 96) + 5)));
    assert!(passes(&mut s, vec![1, 2, 3]));
    s.tun = false;
    assert!(!passes(&mut s, packet4([10, 7, 0, 3])));
    let c = config();
    let n4 = Ipv4Net::parse("10.7.0.0/24").ok();
    assert!(packet_may_pass(&c, n4, None, true, &packet4([8, 8, 8, 8])));
    assert!(!packet_may_pass(&c, n4, None, false, &packet4([8, 8, 8, 8])));
    assert!(packet_may_pass(&c, None, None, false, &packet4([10, 7, 0, 1])));
    assert_eq!(packet_destination(&packet4([1, 2, 3, 4])).unwrap().to_text(), "1.2.3.4");
    assert_eq!(packet_destination(&[0x45; 19]), None);
    assert_eq!(packet_destination(&[0x60; 39]), None);
}

#[test]
fn peer_lists_leave_out_the_client_and_those_who_are_no_members() {
    let mut s = state();
    s.config.peers.push(peer("c", 4));
    let (mut a, _) = let_in(&mut s, "tok-a", SessionMode::Vpn, 100);
    let _b = let_in(&mut s, "tok-b", SessionMode::Vpn, 100);
    let _c = let_in(&mut s, "tok-c", SessionMode::HttpProxy, 100);
    match s.on_frame(&mut a, Frame::GetPeers) {
        Action::Reply(Frame::PeerList { peers }) => {
            assert_eq!(peers.len(), 1);
            assert_eq!(peers[0].name, "b");
            assert_eq!(peers[0].ip, Ipv4Addr::new(10, 7, 0, 3));
        }
        _ => panic!("list"),
    }
    let online = vec![(
        Ipv4Addr::new(1, 1, 1, 1),
        Online {
            name: "x".to_string(),
            mode: SessionMode::Vpn,
            addr: "y".to_string(),
            vpn_member: true,
            ip6: None,
        },
    )];
    assert_eq!(other_members(&online, Ipv4Addr::new(1, 1, 1, 1)).len(), 0);
    assert_eq!(other_members(&online, Ipv4Addr::new(1, 1, 1, 2)).len(), 1);
}

#[test]
fn derived_ipv6_addresses() {
    let n = Ipv6Net::parse("fd00:7::/64").unwrap();
    let a = derive_ipv6(&n, Ipv4Addr::new(10, 7, 0, 2));
    let b = derive_ipv6(&n, Ipv4Addr::new(10, 7, 0, 3));
    assert_eq!(a.to_text(), "fd00:7::a07:2");
    assert!(a != b && n.contains(a) && n.contains(b));
}

#[test]
fn bytes_survive_a_session() {
    let mut s = state();
    let (mut a, _) = let_in(&mut s, "tok-a", SessionMode::Vpn, 100);
    s.on_frame(&mut a, Frame::Packet(packet4([10, 7, 0, 3])));
    s.on_sent(&a, &Frame::Packet(vec![0; 100]));
    s.on_sent(&a, &Frame::Ping);
    let live = s.router.live(107);
    assert_eq!(live.len(), 1);
    assert_eq!((live[0].up, live[0].down, live[0].connected_secs), (28, 100, 7));
    s.close(a);
    assert!(s.router.live(107).is_empty());
    let lines = s.metrics.peer_stats(&Vec::new());
    assert_eq!(lines.len(), 1);
    assert_eq!((lines[0].up, lines[0].down, lines[0].online), (28, 100, false));
    let (mut a, _) = let_in(&mut s, "tok-a", SessionMode::Vpn, 110);
    s.on_frame(&mut a, Frame::Packet(vec![0; 2]));
    let lines = s.metrics.peer_stats(&s.router.live(111));
    assert_eq!((lines[0].up, lines[0].down, lines[0].online), (30, 100, true));
    assert_eq!(s.metrics.totals(), (30, 100));
    let (b, _) = let_in(&mut s, "tok-b", SessionMode::Vpn, 110);
    s.abandon(b);
    assert_eq!(s.router.live(111).len(), 1);
}

fn reported(s: &AppState, token: &str) -> (u64, u64) {
    let live = s.router.live(100);
    let all = s.metrics.peer_stats(&live);
    all.iter().filter(|l| l.token == token).map(|l| (l.up, l.down)).next().unwrap_or((0, 0))
}

#[test]
fn ending_a_session_keeps_what_is_reported() {
    let mut s = state();
    let (mut one, _) = let_in(&mut s, "tok-a", SessionMode::Vpn, 100);
    let (mut two, _) = let_in(&mut s, "tok-b", SessionMode::Vpn, 100);
    s.on_frame(&mut one, Frame::Packet(packet4([10, 7, 0, 3])));
    s.on_frame(&mut two, Frame::Packet(packet4([10, 7, 0, 2])));
    s.on_sent(&one, &Frame::Packet(vec![0; 30]));
    let before = (reported(&s, "tok-a"), reported(&s, "tok-b"));
    assert_eq!(before.0 .1, 30);
    s.close(one);
    assert_eq!((reported(&s, "tok-a"), reported(&s, "tok-b")), before);
    s.close(two);
    assert_eq!((reported(&s, "tok-a"), reported(&s, "tok-b")), before);
}

#[test]
fn what_the_client_makes_of_the_answer() {
    let mut s = state();
    match s.open(&hello("tok-a", SessionMode::Vpn), "x", 100) {
        Opening::Accepted(_, f) => {
            assert_eq!(handshake(f).unwrap().assigned_ip, Ipv4Addr::new(10, 7, 0, 2))
        }
        _ => panic!("not accepted"),
    }
    match s.open(&hello("nobody", SessionMode::Vpn), "x", 100) {
        Opening::Refused(f) => {
            assert_eq!(handshake(f).unwrap_err().to_text(), "auth: unknown token")
        }
        _ => panic!("not refused"),
    }
}

#[test]
fn lines_stand_in_order_of_bytes() {
    let live = |name: &str, up: u64| LiveEntry {
        ip: Ipv4Addr::new(10, 7, 0, 9),
        name: name.to_string(),
        token: name.to_string(),
        mode: SessionMode::Vpn,
        addr: String::new(),
        up,
        down: 1,
        connected_secs: 0,
    };
    let m = Metrics::new(0);
    let lines = m.peer_stats(&vec![live("x", 5), live("y", 50), live("x", 6), live("z", 7)]);
    let got: Vec<(String, u64)> = lines.iter().map(|l| (l.name.clone(), l.up + l.down)).collect();
    assert_eq!(
        got,
        vec![("y".to_string(), 51), ("x".to_string(), 13), ("z".to_string(), 8)]
    );
}

#[test]
fn the_timeline_keeps_the_latest_samples() {
    let mut m = Metrics::new(50);
    for i in 0..200u64 {
        m.add_up(i);
        m.add_down(1);
        m.sample(50 + 5 * (i + 1));
    }
    let t = m.timeline();
    assert_eq!(t.len(), 180);
    assert_eq!((t[179].t, t[179].up, t[179].down), (1000, 199, 1));
    assert_eq!((t[0].t, t[0].up), (105, 20));
    assert_eq!(m.uptime_secs(60), 10);
    assert_eq!(m.uptime_secs(40), 0);
}

#[test]
fn who_may_use_the_admin_api() {
    let mut c = config();
    c.web.admin_token = "secret".to_string();
    assert!(web::authorized(&c, "secret", None));
    assert!(web::authorized(&c, "", Some("Bearer secret")));
    assert!(web::authorized(&c, "wrong", Some("Bearer secret")));
    assert!(!web::authorized(&c, "", Some("secret")));
    assert!(!web::authorized(&c, "wrong", None));
    assert!(!web::authorized(&c, "", None));
}

#[test]
fn the_admin_status() {
    let mut s = state();
    let _a = let_in(&mut s, "tok-a", SessionMode::Vpn, 100);
    assert_eq!(web::status(&s.config, &s.router, false).err(), Some(401));
    let r = web::status(&s.config, &s.router, true).ok().unwrap();
    assert_eq!(r.subnet, "10.7.0.0/24");
    assert_eq!(r.gateway, "10.7.0.1");
    assert_eq!(r.peers.len(), 2);
    assert!(r.peers[0].online && !r.peers[1].online);
    assert_eq!(r.peers[0].mode, Some("vpn".to_string()));
    assert_eq!(r.peers[0].addr, Some("1.2.3.4:5".to_string()));
    assert_eq!(r.listeners.len(), s.config.listeners.len());
    let live = s.router.live(101);
    assert_eq!(web::stats(&s.metrics, &live, 105, false).err(), Some(401));
    let st = web::stats(&s.metrics, &live, 105, true).ok().unwrap();
    assert_eq!((st.uptime_secs, st.online, st.peers.len()), (5, 1, 1));
}

#[test]
fn adding_and_removing_peers() {
    let mut c = config();
    assert_eq!(web::add_peer(&mut c, false, peer("c", 4)), Err(401));
    assert_eq!(web::add_peer(&mut c, true, peer("a", 9)), Err(409));
    assert_eq!(web::add_peer(&mut c, true, peer("z", 2)), Err(409));
    assert_eq!(c.peers.len(), 2);
    assert_eq!(web::add_peer(&mut c, true, peer("c", 4)), Ok(201));
    assert!(c.find_peer("tok-c").is_some());
    assert_eq!(web::del_peer(&mut c, false, "tok-c"), Err(401));
    assert_eq!(web::del_peer(&mut c, true, "nope"), Err(404));
    assert_eq!(web::del_peer(&mut c, true, "tok-c"), Ok(204));
    assert_eq!(c.peers.len(), 2);
    assert!(c.find_peer("tok-c").is_none());
    assert_eq!(web::persist(Ok(201), true), 201);
    assert_eq!(web::persist(Ok(201), false), 500);
    assert_eq!(web::persist(Err(409), true), 409);
}

fn line(c: &Cmd) -> String {
    format!("{} {}", c.program, c.args.join(" "))
}

#[test]
fn the_egress_interface() {
    assert_eq!(egress_in("default via 1.1.1.1 dev eth7 proto dhcp").unwrap(), "eth7");
    assert_eq!(
        egress_in("default dev").unwrap_err().to_text(),
        "transport: could not detect egress interface"
    );
    let out = b"default via 192.168.1.1 dev eth0 proto dhcp metric 100\n";
    assert_eq!(detect_egress(out).unwrap(), "eth0");
    assert_eq!(
        detect_egress(b"").unwrap_err().to_text(),
        "transport: could not detect egress interface"
    );
    assert_eq!(detect_egress6(b"default via fe80::1 dev wan0\n"), Some("wan0".to_string()));
    assert_eq!(detect_egress6(b"\xff"), None);
}

#[test]
fn server_commands() {
    let c = config();
    let steps = link_steps(&c.network, 24, "et0");
    assert_eq!(line(&steps[0].cmd), "ip addr add 10.7.0.1/24 dev et0");
    assert!(!steps[0].must && steps[1].must && steps[2].must && !steps[3].must);
    assert_eq!(line(&steps[3].cmd), "sysctl -w net.ipv4.ip_forward=1");
    let (cmds, mut net) = setup("10.7.0.0/24", "et0", "eth0".to_string());
    let done: Vec<String> = cmds.iter().map(line).collect();
    let undone: Vec<String> = net.undo.iter().map(line).collect();
    assert_eq!(
        done[0],
        "iptables -t nat -A POSTROUTING -s 10.7.0.0/24 -o eth0 -j MASQUERADE"
    );
    assert_eq!(done.len(), undone.len());
    for (d, u) in done.iter().zip(&undone) {
        assert_eq!(&d.replace(" -A ", " -D ").replace(" -I ", " -D "), u);
    }
    assert!(setup_ipv6(&c.network, "et0", None).is_none());
    let p = setup_ipv6(&c.network, "et0", Some("eth0".to_string())).unwrap();
    assert_eq!(
        line(&p.masquerade),
        "ip6tables -t nat -A POSTROUTING -s fd00:7::/64 -o eth0 -j MASQUERADE"
    );
    let more = net.ipv6_done(p, true);
    assert!(net.ipv6);
    assert!(!more.is_empty() && net.undo.len() > undone.len());
}

#[test]
fn ipv6_addresses_of_the_configuration() {
    let c = ServerConfig::template();
    let gw = c.network.gateway6.unwrap();
    let net = c.subnet6_net().unwrap();
    assert!(net.contains(gw));
    assert!(gw != Ipv6Addr { bits: 0 });
}

#[test]
fn packets_go_to_the_session_registered_last() {
    let online = |name: &str, ip6: Option<Ipv6Addr>| Online {
        name: name.to_string(),
        mode: SessionMode::Vpn,
        addr: String::new(),
        vpn_member: true,
        ip6,
    };
    let ip = Ipv4Addr::new(10, 7, 0, 2);
    let other = Ipv4Addr::new(10, 7, 0, 3);
    let v6 = Ipv6Addr { bits: 77 };
    let mut r = Router::new();
    assert_eq!(r.deliver(ip), None);
    r.register(1, ip, online("a", Some(v6)), "t".to_string(), 0);
    r.register(2, other, online("b", None), "u".to_string(), 0);
    r.count_up(1, 5);
    assert_eq!((r.deliver(ip), r.deliver6(v6)), (Some(1), Some(1)));
    r.register(3, ip, online("a", Some(v6)), "t".to_string(), 1);
    r.unregister(1);
    r.unregister(2);
    r.count_down(3, 5);
    assert_eq!((r.deliver(ip), r.deliver6(v6)), (Some(3), Some(3)));
    assert_eq!(r.deliver(other), None);
    r.unregister(3);
    assert_eq!((r.deliver(ip), r.deliver6(v6)), (None, None));
}

#[test]
fn samples_sum_to_the_totals() {
    let mut m = Metrics::new(0);
    for i in 0..180u64 {
        m.add_up(i);
        m.add_up(3);
        m.add_down(2 * i);
        m.sample(i);
        let t = m.timeline();
        assert_eq!(t.len() as u64, i + 1);
        let sums = (t.iter().map(|s| s.up).sum::<u64>(), t.iter().map(|s| s.down).sum::<u64>());
        assert_eq!(sums, m.totals());
        assert!(t.windows(2).all(|w| w[0].t <= w[1].t));
    }
}

#[test]
fn rows_sum_to_all_bytes() {
    let mut s = state();
    let (mut a, _) = let_in(&mut s, "tok-a", SessionMode::Vpn, 100);
    let (mut b, _) = let_in(&mut s, "tok-b", SessionMode::GlobalProxy, 100);
    s.on_frame(&mut a, Frame::Packet(vec![0; 10]));
    s.on_frame(&mut b, Frame::Packet(vec![0; 200]));
    s.on_sent(&a, &Frame::StreamData { id: 1, data: vec![0; 7] });
    s.close(a);
    let (mut a, _) = let_in(&mut s, "tok-a", SessionMode::HttpProxy, 120);
    s.on_frame(&mut a, Frame::StreamData { id: 9, data: vec![0; 5] });
    s.on_sent(&b, &Frame::Packet(vec![0; 1]));
    let rows = s.metrics.peer_stats(&s.router.live(121));
    assert_eq!(rows.len(), 2);
    let sums = (rows.iter().map(|r| r.up).sum::<u64>(), rows.iter().map(|r| r.down).sum::<u64>());
    assert_eq!(sums, (215, 8));
    assert_eq!(sums, s.metrics.totals());
    let a_row = rows.iter().find(|r| r.token == "tok-a").unwrap();
    assert_eq!((a_row.up, a_row.down, a_row.online), (15, 7, true));
    assert_eq!(a_row.mode, Some("http_proxy".to_string()));
}

#[test]
fn a_session_ends_in_its_row() {
    let mut s = state();
    let (mut a, _) = let_in(&mut s, "tok-a", SessionMode::Vpn, 100);
    let (mut b, _) = let_in(&mut s, "tok-b", SessionMode::Vpn, 100);
    for n in [1usize, 20, 300] {
        s.on_frame(&mut a, Frame::Packet(vec![0; n]));
        s.on_frame(&mut b, Frame::Packet(vec![0; 1000]));
        s.on_sent(&a, &Frame::Packet(vec![0; 2 * n]));
    }
    s.metrics.sample(105);
    s.close(b);
    let (id, peer) = (a.id, a.peer.ip);
    assert_eq!(s.router.deliver(peer), Some(id));
    s.close(a);
    assert_eq!(s.router.deliver(peer), None);
    let rows = s.metrics.peer_stats(&s.router.live(106));
    let row = rows.iter().find(|r| r.token == "tok-a").unwrap();
    assert_eq!((row.up, row.down, row.online), (321, 642, false));
    assert_eq!((row.name.as_str(), row.ip.as_str()), ("a", "10.7.0.2"));
    assert_eq!(row.mode, Some("vpn".to_string()));
}
