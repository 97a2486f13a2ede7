use entrotunnel::addr::{IpAddr, Ipv4Addr, Ipv6Addr, SocketAddr};
use entrotunnel::client::chain::{
    connect_chain, handshake, on_carrier, reach_hop, resolve, resolve_hops, resolve_with,
    security_of, target_of, target_with, CarrierAction, CarrierEvent, ChainAction,
};
use entrotunnel::client::config::{ClientConfig, ConnectionSettings, Profile, ServerEntry};
use entrotunnel::client::engine::{
    bridge_connection, downlink, established, member, on_sent, pin_first_hop, pin_with, reconnect,
    run_chain_session, run_of, run_packet_mode, run_session, uplink, BridgeEnd, ChainPlan,
    ConnEnd, DownAction, Engine, LiveStatus, NextStep, PacketSession, Run, SessionPlan,
    StallMonitor, UpAction, UpEvent,
};
use entrotunnel::client::latency::{fastest, measure_latency, probe_of, Probe, Probed};
use entrotunnel::client::proxy::{
    bind_failed, local_frame, parse_request_line, split_host_port, HeadReader, HttpMode,
    LocalEvent, ProxyAction, Request,
};
use entrotunnel::client::sysproxy::{
    enable, enable_linux, enable_macos, gnome_before, gnome_reads, host_port, primary_service,
    service_proxy, SysProxyGuard,
};
use entrotunnel::config::{SessionMode, TransportKind};
use entrotunnel::error::Error;
use entrotunnel::protocol::control::{Hello, PeerInfo, TargetAddr, Welcome};
use entrotunnel::protocol::frame::Frame;

fn key() -> String {
    "AQEBAQEBAQEBAQEBAQEBAQEBAQEBAQEBAQEBAQEBAQE=".to_string()
}

fn entry(name: &str, host: &str, transport: TransportKind) -> ServerEntry {
    ServerEntry {
        name: name.to_string(),
        host: host.to_string(),
        port: 8443,
        transport,
        token: format!("tok-{}", name),
        noise_psk: key(),
        tls_skip_verify: true,
        server_name: None,
    }
}

fn config(mode: SessionMode) -> ClientConfig {
    let p = Profile {
        name: "p".to_string(),
        selected_server: None,
        servers: vec![
            entry("a", "a.example", TransportKind::Tcp),
            entry("b", "2.2.2.2", TransportKind::Ws),
        ],
    };
    let s = ConnectionSettings {
        mode,
        client_name: Some("me".to_string()),
        ..ConnectionSettings::default()
    };
    ClientConfig::compose(&p, &s)
}

fn welcome() -> Welcome {
    Welcome {
        session_id: 1,
        assigned_ip: Ipv4Addr::new(10, 7, 0, 2),
        prefix_len: 24,
        gateway: Ipv4Addr::new(10, 7, 0, 1),
        mtu: 1380,
        dns: Vec::new(),
        assigned_ip6: None,
        prefix6: 0,
        gateway6: None,
        dns6: Vec::new(),
    }
}

#[test]
fn hops_of_a_chain() {
    let servers = config(SessionMode::Vpn).servers;
    let names = |v: &[&str]| v.iter().map(|s| s.to_string()).collect::<Vec<String>>();
    let h = resolve_hops(&names(&["b", "zzz", "a", "b"]), &servers);
    let got: Vec<&str> = h.iter().map(|s| s.name.as_str()).collect();
    assert_eq!(got, vec!["b", "a", "b"]);
    let mut c = config(SessionMode::GlobalProxy);
    assert!(matches!(Engine::plan(&c).unwrap(), SessionPlan::Single(s) if s.name == "a"));
    c.chain = names(&["b", "zzz"]);
    assert!(matches!(Engine::plan(&c).unwrap(), SessionPlan::Single(_)));
    c.chain = names(&["b", "a"]);
    assert!(matches!(Engine::plan(&c).unwrap(), SessionPlan::Chain(h) if h.len() == 2));
}

#[test]
fn keys_and_targets_of_a_server() {
    let mut s = entry("a", "a.example", TransportKind::Tcp);
    assert_eq!(security_of(&s).ok().unwrap().noise_psk, [1; 32]);
    s.noise_psk = "AAAA".to_string();
    assert_eq!(
        security_of(&s).err().unwrap().to_text(),
        "config: psk must be 32 bytes, got 3"
    );
    assert_eq!(target_of(&s).to_text(), "a.example:8443");
    s.host = "2.2.2.2".to_string();
    assert!(matches!(target_of(&s), TargetAddr::Ip(_)));
    let six = IpAddr::V6(Ipv6Addr { bits: 1 });
    assert_eq!(target_with(&s, Some(six)).to_text(), "[::1]:8443");
}

#[test]
fn resolving_hosts() {
    let four = IpAddr::V4(Ipv4Addr::new(1, 2, 3, 4));
    assert_eq!(resolve("1.2.3.4", None).unwrap(), four);
    assert_eq!(resolve("h", Some(four)).unwrap(), four);
    assert_eq!(
        resolve("h", None).unwrap_err().to_text(),
        "config: cannot resolve host h"
    );
    assert_eq!(resolve_with("h", Some(four), None).unwrap(), four);
}

#[test]
fn answers_to_a_greeting() {
    assert_eq!(handshake(Frame::Welcome(welcome())).unwrap().mtu, 1380);
    assert_eq!(
        handshake(Frame::Reject {
            reason: "unknown token".to_string()
        })
        .unwrap_err()
        .to_text(),
        "auth: unknown token"
    );
    assert_eq!(
        handshake(Frame::Pong).unwrap_err().to_text(),
        "protocol: expected Welcome, got Pong"
    );
}

fn complaint(f: Frame) -> String {
    let text = handshake(f).unwrap_err().to_text();
    text.strip_prefix("protocol: expected Welcome, got ").unwrap().to_string()
}

#[test]
fn unexpected_answers_are_shown() {
    assert_eq!(complaint(Frame::Packet(vec![1, 22, 255])), "Packet([1, 22, 255])");
    assert_eq!(complaint(Frame::Packet(Vec::new())), "Packet([])");
    assert_eq!(complaint(Frame::GetPeers), "GetPeers");
    assert_eq!(
        complaint(Frame::StreamOpen {
            id: 7,
            target: TargetAddr::Domain("a\"b".to_string(), 80)
        }),
        "StreamOpen { id: 7, target: Domain(\"a\\\"b\", 80) }"
    );
    let ip = IpAddr::V4(Ipv4Addr::new(1, 2, 3, 4));
    assert_eq!(
        complaint(Frame::StreamOpen {
            id: 7,
            target: TargetAddr::Ip(SocketAddr { ip, port: 80 })
        }),
        "StreamOpen { id: 7, target: Ip(1.2.3.4:80) }"
    );
    assert_eq!(
        complaint(Frame::StreamData {
            id: 1,
            data: vec![9]
        }),
        "StreamData { id: 1, data: [9] }"
    );
    assert_eq!(
        complaint(Frame::StreamClose {
            id: 1,
            error: Some("gone".to_string())
        }),
        "StreamClose { id: 1, error: Some(\"gone\") }"
    );
    assert_eq!(
        complaint(Frame::PeerList {
            peers: vec![
                PeerInfo {
                    ip: Ipv4Addr::new(10, 0, 0, 2),
                    name: "a".to_string(),
                    ip6: None
                },
                PeerInfo {
                    ip: Ipv4Addr::new(10, 0, 0, 3),
                    name: "b".to_string(),
                    ip6: Some(Ipv6Addr { bits: 1 })
                }
            ]
        }),
        "PeerList { peers: [PeerInfo { ip: 10.0.0.2, name: \"a\", ip6: None }, \
         PeerInfo { ip: 10.0.0.3, name: \"b\", ip6: Some(::1) }] }"
    );
    assert_eq!(
        complaint(Frame::Hello(Hello {
            version: 2,
            token: "t".to_string(),
            mode: SessionMode::HttpProxy,
            requested_ip: Some(Ipv4Addr::new(10, 0, 0, 2)),
            client_name: None,
            join_vpn: true
        })),
        "Hello(Hello { version: 2, token: \"t\", mode: HttpProxy, requested_ip: Some(10.0.0.2), \
         client_name: None, join_vpn: true })"
    );
}

#[test]
fn quic_hops_come_first() {
    let hops = vec![
        entry("one", "1.1.1.1", TransportKind::Quic),
        entry("two", "2.2.2.2", TransportKind::Quic),
    ];
    assert!(reach_hop(&hops, 0).is_ok());
    assert!(matches!(reach_hop(&hops, 1), Err(Error::NotImplemented(_))));
}

#[test]
fn building_a_chain() {
    assert_eq!(
        connect_chain(Vec::new(), SessionMode::Vpn, None, None).err().unwrap().to_text(),
        "config: proxy chain is empty"
    );
    let hops = vec![
        entry("a", "a.example", TransportKind::Tcp),
        entry("b", "2.2.2.2", TransportKind::Ws),
    ];
    let want = Some(Ipv4Addr::new(10, 7, 0, 9));
    let mut b = connect_chain(hops, SessionMode::SystemProxy, want, None).ok().unwrap();
    match b.action().ok().unwrap() {
        ChainAction::Dial(h) => assert_eq!(h.endpoint.host, "a.example"),
        _ => panic!("dial"),
    }
    b.advance();
    match b.action().ok().unwrap() {
        ChainAction::Greet(Frame::Hello(h)) => {
            assert_eq!(h.token, "tok-a");
            assert_eq!(h.mode, SessionMode::HttpProxy);
            assert_eq!(h.requested_ip, None);
        }
        _ => panic!("greet"),
    }
    assert!(b.answer(Frame::Welcome(welcome())).ok().unwrap().is_none());
    match b.action().ok().unwrap() {
        ChainAction::Relay(Frame::StreamOpen { target, .. }) => {
            assert_eq!(target.to_text(), "2.2.2.2:8443")
        }
        _ => panic!("relay"),
    }
    b.advance();
    match b.action().ok().unwrap() {
        ChainAction::Layer(h) => assert_eq!(h.endpoint.kind, TransportKind::Ws),
        _ => panic!("layer"),
    }
    b.advance();
    match b.action().ok().unwrap() {
        ChainAction::Greet(Frame::Hello(h)) => {
            assert_eq!(h.mode, SessionMode::HttpProxy);
            assert_eq!(h.requested_ip, want);
        }
        _ => panic!("greet"),
    }
    assert!(b.answer(Frame::Welcome(welcome())).ok().unwrap().is_some());
}

#[test]
fn quic_later_in_a_chain_is_refused() {
    let hops = vec![
        entry("a", "a.example", TransportKind::Quic),
        entry("b", "2.2.2.2", TransportKind::Quic),
    ];
    let mut b = connect_chain(hops, SessionMode::Vpn, None, None).ok().unwrap();
    assert!(b.action().is_ok());
    b.advance();
    assert!(b.answer(Frame::Welcome(welcome())).is_ok());
    b.advance();
    let e = b.action().err().unwrap().to_text();
    assert!(e.starts_with("not implemented: QUIC can only be the first hop"));
}

#[test]
fn what_a_carrier_does() {
    for (n, frames) in [(0, 0), (1, 1), (32768, 1), (32769, 2), (70_000, 3)] {
        let bytes: Vec<u8> = (0..n).map(|i: usize| (i % 251) as u8).collect();
        let sent = match on_carrier(CarrierEvent::Written(bytes.clone())) {
            CarrierAction::SendAll(fs) => fs,
            _ => panic!("frames"),
        };
        assert_eq!(sent.len(), frames);
        let mut joined: Vec<u8> = Vec::new();
        for f in sent {
            match f {
                Frame::StreamData { id: 1, data } => {
                    assert!(data.len() <= 32768);
                    joined.extend(data);
                }
                _ => panic!("data"),
            }
        }
        assert_eq!(joined, bytes);
    }
    assert!(matches!(
        on_carrier(CarrierEvent::Done),
        CarrierAction::SendLast(Frame::StreamClose { id: 1, .. })
    ));
    assert!(matches!(
        on_carrier(CarrierEvent::Received(Frame::Ping)),
        CarrierAction::Send(Frame::Pong)
    ));
    assert!(matches!(
        on_carrier(CarrierEvent::Received(Frame::StreamData {
            id: 1,
            data: vec![7]
        })),
        CarrierAction::Deliver(d) if d == vec![7]
    ));
    assert!(matches!(on_carrier(CarrierEvent::Failed), CarrierAction::End));
}

#[test]
fn a_direct_session() {
    let mut c = config(SessionMode::Vpn);
    c.requested_ip = Some(Ipv4Addr::new(10, 7, 0, 5));
    let s = c.active_server().unwrap();
    let d = run_session(&c, &s).ok().unwrap();
    assert_eq!(d.endpoint.host, "a.example");
    assert_eq!(d.hello.version, 2);
    assert_eq!(d.hello.token, "tok-a");
    assert_eq!(d.hello.requested_ip, c.requested_ip);
    assert_eq!(d.hello.client_name, Some("me".to_string()));
    let ip = IpAddr::V4(Ipv4Addr::new(9, 9, 9, 9));
    let again = reconnect(&c, &s, ip, Ipv4Addr::new(10, 7, 0, 2)).ok().unwrap();
    assert_eq!(again.endpoint.host, "9.9.9.9");
    assert_eq!(again.endpoint.server_name, "a.example");
    assert_eq!(again.hello.requested_ip, Some(Ipv4Addr::new(10, 7, 0, 2)));
    assert!(member(&c));
    c.mode = SessionMode::HttpProxy;
    assert!(!member(&c));
    c.join_vpn = true;
    assert!(member(&c));
    assert_eq!(run_of(SessionMode::Vpn), Run::Packets);
    assert_eq!(run_of(SessionMode::SystemProxy), Run::Proxy { system: true });
    assert_eq!(run_of(SessionMode::HttpProxy), Run::Proxy { system: false });
}

#[test]
fn modes_of_a_chained_session() {
    let mut c = config(SessionMode::Vpn);
    let hops = c.servers.clone();
    match run_chain_session(&c, &hops) {
        ChainPlan::FirstHop(f) => {
            assert_eq!(f.mode, SessionMode::Vpn);
            assert_eq!(f.active_server().unwrap().name, "a");
        }
        _ => panic!("first hop"),
    }
    c.mode = SessionMode::GlobalProxy;
    assert!(matches!(
        run_chain_session(&c, &hops),
        ChainPlan::Egress { lan: None }
    ));
    c.mode = SessionMode::HttpProxy;
    c.join_vpn = true;
    match run_chain_session(&c, &hops) {
        ChainPlan::Egress { lan: Some(l) } => {
            assert_eq!(l.mode, SessionMode::Vpn);
            assert!(l.chain.is_empty());
        }
        _ => panic!("egress"),
    }
}

#[test]
fn pinning_keeps_the_tls_name() {
    let ip = IpAddr::V4(Ipv4Addr::new(9, 9, 9, 9));
    let h = pin_first_hop(config(SessionMode::Vpn).servers, Some(ip));
    assert_eq!(h[0].host, "9.9.9.9");
    assert_eq!(h[0].sni(), "a.example");
    assert_eq!(h[1].host, "2.2.2.2");
    let h = pin_first_hop(config(SessionMode::Vpn).servers, None);
    assert_eq!(h[0].host, "a.example");
    let own = IpAddr::V4(Ipv4Addr::new(2, 2, 2, 2));
    let s = pin_with(&entry("b", "2.2.2.2", TransportKind::Ws), Some(own), own);
    assert_eq!((s.host.as_str(), s.server_name), ("2.2.2.2", None));
}

#[test]
fn stalls_are_found_and_idle_links_are_not() {
    let mut m = StallMonitor::new(0, 0);
    assert!(!m.tick(0, 0));
    assert!(!m.tick(5, 5));
    assert!(!m.tick(5, 5));
    assert!(m.tick(9, 5));
    let mut m = StallMonitor::new(0, 0);
    for i in 1..1000u64 {
        assert!(!m.tick(i, i));
        assert!(!m.tick(i, i));
    }
}

#[test]
fn both_ways_of_a_packet_session() {
    let mut st = LiveStatus::default();
    established(&mut st, &welcome());
    assert_eq!(st.assigned_ip, Some(Ipv4Addr::new(10, 7, 0, 2)));
    assert!(matches!(uplink(UpEvent::Keepalive, false), UpAction::Send(Frame::Ping)));
    assert!(matches!(uplink(UpEvent::PeersDue, false), UpAction::Nothing));
    assert!(matches!(uplink(UpEvent::PeersDue, true), UpAction::Send(Frame::GetPeers)));
    assert!(matches!(uplink(UpEvent::DeviceGone, true), UpAction::Stop));
    match uplink(UpEvent::Packet(vec![1, 2, 3]), false) {
        UpAction::Send(f) => on_sent(&mut st, &f),
        _ => panic!("send"),
    }
    assert!(matches!(downlink(&mut st, Frame::Ping), DownAction::Reply(Frame::Pong)));
    assert!(matches!(
        downlink(&mut st, Frame::Packet(vec![9; 4])),
        DownAction::ToTun(p) if p == vec![9; 4]
    ));
    let peers = vec![PeerInfo {
        ip: Ipv4Addr::new(10, 7, 0, 3),
        name: "b".to_string(),
        ip6: None,
    }];
    assert!(matches!(
        downlink(&mut st, Frame::PeerList { peers }),
        DownAction::Nothing
    ));
    assert_eq!(st.peers[0].name, "b");
    assert_eq!(st.traffic_counters(), (3, 4));
    let (tun, len) = run_packet_mode("et0", &welcome());
    assert_eq!((tun.name.as_str(), tun.mtu, tun.prefix_len), ("et0", 1380, 24));
    assert!(len >= 1380);
}

#[test]
fn reconnecting_is_bounded() {
    assert_eq!(bridge_connection(BridgeEnd::Cancelled), ConnEnd::Cancelled);
    assert_eq!(bridge_connection(BridgeEnd::DeviceGone), ConnEnd::Cancelled);
    for e in [BridgeEnd::WriterDied, BridgeEnd::ReaderDied, BridgeEnd::Stalled] {
        assert_eq!(bridge_connection(e), ConnEnd::Lost);
    }
    let ip = Ipv4Addr::new(10, 7, 0, 2);
    let mut st = LiveStatus::default();
    let mut p = PacketSession::new(ip);
    let mut dials = 0;
    let mut next = p.ended(ConnEnd::Lost, false);
    while let NextStep::Dial { requested_ip, .. } = next {
        assert_eq!(requested_ip, ip);
        dials += 1;
        next = p.redialed(None, false, &mut st);
    }
    assert!(matches!(next, NextStep::Stop));
    assert_eq!(dials, 3);
    let mut p = PacketSession::new(ip);
    assert!(matches!(p.ended(ConnEnd::Lost, false), NextStep::Dial { attempt: 1, .. }));
    let other = Ipv4Addr::new(10, 7, 0, 8);
    assert!(matches!(p.redialed(Some(ip), false, &mut st), NextStep::Resume));
    let mut q = PacketSession::new(ip);
    q.ended(ConnEnd::Lost, false);
    let _ = q.redialed(Some(other), false, &mut st);
    let mut c = PacketSession::new(ip);
    assert!(matches!(c.ended(ConnEnd::Cancelled, false), NextStep::Stop));
    assert!(matches!(c.ended(ConnEnd::Lost, true), NextStep::Stop));
}

fn target(head: &str) -> Result<(String, bool), String> {
    parse_request_line(head.as_bytes())
        .map(|(t, c)| (t.to_text(), c))
        .map_err(|e| e.to_text())
}

#[test]
fn proxy_requests() {
    assert_eq!(
        target("CONNECT example.com:443 HTTP/1.1\r\nHost: x\r\n\r\n"),
        Ok(("example.com:443".to_string(), true))
    );
    assert_eq!(
        target("connect [::1]:8443 HTTP/1.1\r\n\r\n"),
        Ok(("[::1]:8443".to_string(), true))
    );
    assert_eq!(
        target("GET http://example.com/a?b HTTP/1.1\r\n\r\n"),
        Ok(("example.com:80".to_string(), false))
    );
    assert_eq!(
        target("GET http://1.2.3.4:8080/ HTTP/1.1\r\n\r\n"),
        Ok(("1.2.3.4:8080".to_string(), false))
    );
    assert_eq!(
        target("GET /path HTTP/1.1\r\nHost: h.example:81\r\n\r\n"),
        Ok(("h.example:81".to_string(), false))
    );
    assert_eq!(
        target("GET / HTTP/1.1\r\n\r\n"),
        Err("protocol: cannot parse proxy target: \"GET / HTTP/1.1\"".to_string())
    );
    assert_eq!(split_host_port("h:1", 80), ("h".to_string(), 1));
    assert_eq!(split_host_port("h", 80), ("h".to_string(), 80));
}

#[test]
fn reading_a_request_head() {
    let mut r = HeadReader::new();
    assert!(r.parse_http_head(b"GET http://h/ HTTP/1.1\r\n").unwrap().is_none());
    let q = r.parse_http_head(b"\r\nbody").unwrap().unwrap();
    assert!(!q.is_connect);
    assert_eq!(q.forward, b"GET http://h/ HTTP/1.1\r\n\r\nbody".to_vec());
    let mut r = HeadReader::new();
    let q = r.parse_http_head(b"CONNECT h:1 HTTP/1.1\r\n\r\n").unwrap().unwrap();
    assert!(q.is_connect && q.forward.is_empty());
    let mut r = HeadReader::new();
    assert_eq!(
        r.parse_http_head(b"").err().unwrap().to_text(),
        "protocol: eof before request head"
    );
    let mut r = HeadReader::new();
    assert_eq!(
        r.parse_http_head(&vec![b'x'; 70000]).err().unwrap().to_text(),
        "protocol: request head too large"
    );
}

#[test]
fn streams_of_the_local_proxy() {
    let mut h = HttpMode::run_http_mode(false);
    let mut st = LiveStatus::default();
    let id = h.accept();
    assert!(h.accept() != id);
    let q = Request {
        target: TargetAddr::Domain("h".to_string(), 80),
        is_connect: false,
        forward: vec![1, 2],
    };
    let o = h.handle_local(id, q);
    assert!(!o.tell);
    assert_eq!(o.frames.len(), 2);
    assert!(matches!(&o.frames[0], Frame::StreamOpen { id: i, .. } if *i == id));
    assert!(matches!(&o.frames[1], Frame::StreamData { data, .. } if *data == vec![1, 2]));
    assert!(matches!(
        h.on_frame(&mut st, Frame::StreamData { id, data: vec![5] }),
        ProxyAction::ToLocal { data, .. } if data == vec![5]
    ));
    assert!(matches!(
        h.on_frame(&mut st, Frame::StreamData { id: 999, data: vec![5] }),
        ProxyAction::Nothing
    ));
    assert!(matches!(
        h.on_frame(&mut st, Frame::Ping),
        ProxyAction::Reply(Frame::Pong)
    ));
    assert!(matches!(
        h.on_frame(&mut st, Frame::StreamClose { id, error: None }),
        ProxyAction::CloseLocal { .. }
    ));
    h.local_done(id);
    assert!(matches!(
        local_frame(3, LocalEvent::Data(vec![1])),
        Frame::StreamData { id: 3, .. }
    ));
    assert!(matches!(
        local_frame(3, LocalEvent::Ended),
        Frame::StreamClose { id: 3, error: None }
    ));
    assert_eq!(
        bind_failed("127.0.0.1:7890", "in use").to_text(),
        "config: bind 127.0.0.1:7890: in use"
    );
}

#[test]
fn the_system_proxy() {
    assert_eq!(host_port("0.0.0.0:7890"), ("127.0.0.1".to_string(), "7890".to_string()));
    assert_eq!(host_port("[::1]:80"), ("::1".to_string(), "80".to_string()));
    assert_eq!(host_port("192.168.1.2:1"), ("192.168.1.2".to_string(), "1".to_string()));
    assert!(SysProxyGuard::noop().undo.is_empty());
    assert_eq!(gnome_reads().len(), 5);
    assert_eq!(gnome_reads()[1].args, vec!["get", "org.gnome.system.proxy.http", "host"]);
    let printed: Vec<String> = ["'auto'\n", "'h1'\n", "8080\n", "'h2'\n", "8081\n"]
        .iter()
        .map(|t| t.to_string())
        .collect();
    let before = gnome_before(&printed);
    assert!(before.is_some());
    assert!(gnome_before(&printed[1..].to_vec()).is_none());
    let p = enable_linux("127.0.0.1", "7890", &before);
    let undo = enable(p, true).undo;
    assert_eq!(undo[0].args, vec!["set", "org.gnome.system.proxy.http", "host", "'h1'"]);
    assert_eq!(undo[3].args, vec!["set", "org.gnome.system.proxy.https", "port", "8081"]);
    assert_eq!(undo[4].args, vec!["set", "org.gnome.system.proxy", "mode", "'auto'"]);
    let p = enable_linux("h", "1", &None);
    assert_eq!(p.undo[0].args, vec!["set", "org.gnome.system.proxy", "mode", "none"]);
    assert!(enable(p, false).undo.is_empty());
    let web = service_proxy("Enabled: No\nServer: p.example\nPort: 3128\nAuthenticated Proxy Enabled: 0\n");
    assert!(!web.enabled);
    let secure = service_proxy("Enabled: Yes\nServer:\nPort: 0\n");
    assert!(secure.enabled);
    let m = enable_macos("Wi-Fi", "127.0.0.1", "7890", &web, &secure);
    assert_eq!(m.undo[0].args, vec!["-setwebproxy", "Wi-Fi", "p.example", "3128"]);
    assert_eq!(m.undo[1].args, vec!["-setwebproxystate", "Wi-Fi", "off"]);
    assert_eq!(m.undo[2].args, vec!["-setsecurewebproxystate", "Wi-Fi", "on"]);
    assert_eq!(m.undo.len(), 3);
    assert_eq!(
        m.first[0].args,
        vec!["-setwebproxy", "Wi-Fi", "127.0.0.1", "7890"]
    );
    let order = "An asterisk...\n(1) Ethernet\n(Hardware Port: Ethernet, Device: en5)\n\n(2) Wi-Fi\n(Hardware Port: Wi-Fi, Device: en0)\n";
    assert_eq!(
        primary_service("   route to: default\n  interface: en0\n", order),
        Some("Wi-Fi".to_string())
    );
    assert_eq!(primary_service("x", order), None);
    let ten = "(1) Dock\n(Hardware Port: Dock, Device: en10)\n(2) Wi-Fi\n(Hardware Port: Wi-Fi, Device: en1)\n";
    assert_eq!(primary_service("interface: en1", ten), Some("Wi-Fi".to_string()));
    assert_eq!(primary_service("interface: en10", ten), Some("Dock".to_string()));
    assert_eq!(primary_service("interface: en", ten), None);
}

#[test]
fn latency_probes() {
    match probe_of(&entry("a", "a.example", TransportKind::Ws)).ok().unwrap() {
        Probe::Tcp { host, port } => assert_eq!((host.as_str(), port), ("a.example", 8443)),
        _ => panic!("tcp"),
    }
    let mut q = entry("q", "q.example", TransportKind::Quic);
    match probe_of(&q).ok().unwrap() {
        Probe::Quic { endpoint, security } => {
            assert_eq!(endpoint.kind, TransportKind::Quic);
            assert_eq!(endpoint.server_name, "q.example");
            assert_eq!(security.noise_psk, [1; 32]);
        }
        _ => panic!("quic"),
    }
    q.noise_psk = "!".to_string();
    assert!(probe_of(&q).is_err());
    assert_eq!(measure_latency(Probed::Up(7)).ok(), Some(7));
    assert_eq!(
        measure_latency(Probed::TimedOut).unwrap_err().to_text(),
        "transport: latency probe timed out"
    );
    assert_eq!(
        measure_latency(Probed::Refused("no".to_string())).unwrap_err().to_text(),
        "transport: connect: no"
    );
    assert_eq!(
        measure_latency(Probed::Failed(Error::Closed)).unwrap_err().to_text(),
        "connection closed"
    );
    assert_eq!(fastest(&vec![Some(9), None, Some(4), Some(6)]), Some(4));
    assert_eq!(fastest(&vec![None]), None);
}
