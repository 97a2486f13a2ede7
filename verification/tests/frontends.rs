use entrotunnel::addr::Ipv4Addr;
use entrotunnel::cli;
use entrotunnel::client::config::{ClientConfig, ConnectionSettings, Profile, ServerEntry};
use entrotunnel::client::engine::{DownAction, LiveStatus, UpAction};
use entrotunnel::cmd::Cmd;
use entrotunnel::config::{parse_psk, SessionMode, TransportKind};
use entrotunnel::desktop::{
    advise, attempted, config_dir, disconnected, early_failure, elevate_relaunch, export_file,
    import_profile, import_profiles, migrated, needs_tun, profile_named, relaunched,
    remove_profile, server_to_ping, status, touchid_sudo_enabled, unique_name, upsert_profile,
    watch, Desktop, EngineEnd, Launch, Status, Watch,
};
use entrotunnel::error::Error;
use entrotunnel::logs::LogRing;
use entrotunnel::mobile::{
    hops_of, net_config, on_frame, on_read, open_bridge, phase_of, Handshake, MobileState, Phase,
};
use entrotunnel::protocol::control::{PeerInfo, Welcome};
use entrotunnel::protocol::frame::Frame;
use entrotunnel::tun::{
    adapter_len, adapter_name, check_fits, device_name, ifreq, utun_frame, utun_name,
    utun_packet,
};

fn entry(name: &str) -> ServerEntry {
    ServerEntry {
        name: name.to_string(),
        host: "h".to_string(),
        port: 443,
        transport: TransportKind::Ws,
        token: "t".to_string(),
        noise_psk: "k".to_string(),
        tls_skip_verify: false,
        server_name: None,
    }
}

fn profile(name: &str, servers: &[&str]) -> Profile {
    Profile {
        name: name.to_string(),
        selected_server: None,
        servers: servers.iter().map(|s| entry(s)).collect(),
    }
}

fn names(list: &[Profile]) -> Vec<&str> {
    list.iter().map(|p| p.name.as_str()).collect()
}

#[test]
fn names_are_made_unique() {
    let mut list = vec![profile("a", &["x"])];
    assert_eq!(unique_name("b", &list), "b");
    assert_eq!(unique_name("a", &list), "a (2)");
    for _ in 0..11 {
        let n = unique_name("a", &list);
        list.push(profile(&n, &["x"]));
    }
    assert_eq!(list[11].name, "a (12)");
    remove_profile(&mut list, "a (3)");
    assert_eq!(unique_name("a", &list), "a (3)");
}

#[test]
fn the_profile_list() {
    let mut list = vec![profile("a", &["x"]), profile("b", &["x"])];
    upsert_profile(&mut list, profile("a", &["y", "z"]));
    upsert_profile(&mut list, profile("c", &[]));
    assert_eq!(names(&list), vec!["a", "b", "c"]);
    assert_eq!(profile_named(&list, "a").unwrap().servers.len(), 2);
    remove_profile(&mut list, "b");
    assert_eq!(names(&list), vec!["a", "c"]);
    assert_eq!(
        profile_named(&list, "b").err(),
        Some("profile 'b' not found".to_string())
    );
    let old = ClientConfig::compose(&profile("old", &["x"]), &ConnectionSettings::default());
    assert_eq!(migrated(old).servers[0].name, "x");
}

#[test]
fn importing_profiles() {
    let mut list = vec![profile("a", &["x"])];
    assert_eq!(
        import_profile(&mut list, profile("n", &[])),
        Err("the imported config has no servers".to_string())
    );
    import_profile(&mut list, profile("  ", &["x"])).unwrap();
    import_profile(&mut list, profile("a", &["x"])).unwrap();
    assert_eq!(names(&list), vec!["a", "imported", "a (2)"]);
    assert_eq!(
        import_profiles(&mut list, vec![profile("", &["x"]), profile("q", &[])]),
        Err("no valid profiles found in the TOML".to_string())
    );
    assert_eq!(list.len(), 3);
    let more = vec![profile("a", &["x", "y", "z"]), profile("q", &[]), profile("r", &["x"])];
    assert_eq!(import_profiles(&mut list, more), Ok(2));
    assert_eq!(names(&list), vec!["a", "imported", "a (2)", "r"]);
    assert_eq!(list[0].servers.len(), 3);
}

#[test]
fn export_file_names() {
    assert_eq!(export_file("home lab/1"), "home-lab-1.toml");
    assert_eq!(export_file("\u{5bb6}_x-y"), "\u{5bb6}_x-y.toml");
    assert_eq!(export_file(""), "profile.toml");
    assert_eq!(export_file("\u{2603}"), "-.toml");
}

#[test]
fn watching_a_connection_attempt() {
    let mut c = ClientConfig::compose(&profile("p", &["x"]), &ConnectionSettings::default());
    assert!(needs_tun(&c));
    c.mode = SessionMode::HttpProxy;
    assert!(!needs_tun(&c));
    c.join_vpn = true;
    assert!(needs_tun(&c));
    assert_eq!(watch(true, 0), Watch::Failed);
    assert_eq!(watch(false, 2999), Watch::Wait);
    assert_eq!(watch(false, 3000), Watch::Connected);
    assert_eq!(early_failure(EngineEnd::Ended, true), "the session ended immediately");
    assert_eq!(
        early_failure(EngineEnd::Crashed("x".to_string()), true),
        "engine task failed: x"
    );
    let denied = || EngineEnd::Failed(Error::Io("Operation NOT Permitted".to_string()));
    assert_eq!(early_failure(denied(), false), "io: Operation NOT Permitted");
    assert!(early_failure(denied(), true).starts_with("io: Operation NOT Permitted \u{2014} Global proxy"));
    assert_eq!(advise("m".to_string(), "fine", true), "m");
}

#[test]
fn what_the_app_shows() {
    let ip = Some(Ipv4Addr::new(10, 7, 0, 2));
    let s = attempted("p".to_string(), SessionMode::Vpn, ip, None);
    assert!(s.connected);
    assert_eq!(s.assigned_ip, Some("10.7.0.2".to_string()));
    assert_eq!(s.mode, Some("vpn".to_string()));
    let f = attempted("p".to_string(), SessionMode::Vpn, ip, Some("why".to_string()));
    assert!(!f.connected && f.assigned_ip.is_none());
    assert_eq!(f.error, Some("why".to_string()));
    let mut live = LiveStatus::default();
    live.assigned_ip = Some(Ipv4Addr::new(10, 7, 0, 9));
    live.up_bytes = 3;
    live.peers = vec![PeerInfo {
        ip: Ipv4Addr::new(10, 7, 0, 3),
        name: "b".to_string(),
        ip6: None,
    }];
    let s = status(s, true, Some(&live));
    assert_eq!(s.assigned_ip, Some("10.7.0.9".to_string()));
    assert_eq!((s.up_bytes, s.peers[0].ip.as_str()), (3, "10.7.0.3"));
    let s = status(s, false, None);
    assert!(!s.connected && s.peers.is_empty() && s.up_bytes == 0);
    assert_eq!(s.assigned_ip, Some("10.7.0.9".to_string()));
    let s = disconnected(s, Some("e".to_string()));
    assert_eq!(s.error, Some("e".to_string()));
    assert_eq!(s.profile, Some("p".to_string()));
    assert_eq!(Status::default().profile, None);
}

#[test]
fn which_server_is_measured() {
    let p = profile("p", &["a", "b"]);
    assert_eq!(server_to_ping(&p, "b").ok().unwrap().name, "b");
    assert_eq!(server_to_ping(&p, "zzz").ok().unwrap().name, "a");
    assert_eq!(
        server_to_ping(&profile("p", &[]), "zzz").err(),
        Some("server 'zzz' not found".to_string())
    );
}

fn line(c: &Cmd) -> String {
    format!("{} {}", c.program, c.args.join(" "))
}

#[test]
fn asking_for_more_rights() {
    assert!(touchid_sudo_enabled("# comment\nauth  sufficient  pam_tid.so\n"));
    assert!(!touchid_sudo_enabled("  # auth sufficient pam_tid.so\n"));
    let l = elevate_relaunch(Desktop::Linux, "/bin/et", "/home/u/.c", 501, false);
    assert_eq!(line(&l[0]), "pkexec /bin/et --config-dir /home/u/.c");
    let w = elevate_relaunch(Desktop::Windows, "C:\\o'x.exe", "D", 0, false);
    assert_eq!(
        w[0].args[4],
        "Start-Process -FilePath 'C:\\o''x.exe' -ArgumentList '--config-dir','D' -Verb RunAs"
    );
    let m = elevate_relaunch(Desktop::MacOs, "/A/it's", "/d \"q\"", 501, true);
    assert_eq!(m.len(), 2);
    let inner = "launchctl asuser 501 '/A/it'\\''s' --config-dir '/d \"q\"' >/dev/null 2>&1 &";
    assert_eq!(m[0].args, vec!["/bin/sh", "-c", inner]);
    assert_eq!(
        m[1].args[1],
        format!(
            "do shell script \"{}\" with administrator privileges",
            inner.replace('\\', "\\\\").replace('"', "\\\"")
        )
    );
    assert_eq!(elevate_relaunch(Desktop::MacOs, "e", "d", 1, false).len(), 1);
    assert!(relaunched(Desktop::MacOs, Launch::Exited(true)).is_ok());
    assert_eq!(
        relaunched(Desktop::MacOs, Launch::Exited(false)),
        Err("authorization was cancelled".to_string())
    );
    assert_eq!(
        relaunched(Desktop::Windows, Launch::Exited(false)),
        Err("UAC elevation was cancelled".to_string())
    );
    assert!(relaunched(Desktop::Linux, Launch::Exited(false)).is_ok());
    assert_eq!(
        relaunched(Desktop::Linux, Launch::NotStarted("e".to_string())),
        Err("pkexec failed: e (install policykit, or run with sudo)".to_string())
    );
    assert_eq!(
        relaunched(Desktop::Windows, Launch::NotStarted("e".to_string())),
        Err("e".to_string())
    );
    let args: Vec<String> = ["et", "--config-dir", "/x"].iter().map(|s| s.to_string()).collect();
    assert_eq!(config_dir(&args), Some("/x".to_string()));
    assert_eq!(config_dir(&args[..2].to_vec()), None);
}

#[test]
fn logs_keep_the_latest_lines() {
    let mut l = LogRing::new();
    l.write(b"one  \n\n two\n");
    assert_eq!(l.get_logs(), vec!["one".to_string(), " two".to_string()]);
    assert_eq!(l.logs_text(), "one\n two");
    l.write(b"");
    for i in 0..2500 {
        l.write(format!("line {}\r\n", i).as_bytes());
    }
    let all = l.get_logs();
    assert_eq!(all.len(), 2000);
    assert_eq!(all[0], "line 500");
    assert_eq!(all[1999], "line 2499");
    l.write_text("as text\n");
    assert_eq!(l.get_logs()[1999], "as text");
    l.write(b"bad \xff");
    assert_eq!(l.get_logs()[1999], "bad \u{fffd}");
}

#[test]
fn command_line_modes() {
    for (n, m) in [
        ("global", SessionMode::GlobalProxy),
        ("global_proxy", SessionMode::GlobalProxy),
        ("system", SessionMode::SystemProxy),
        ("http", SessionMode::HttpProxy),
        ("vpn", SessionMode::Vpn),
    ] {
        assert_eq!(cli::parse_mode(n), Ok(m));
    }
    assert_eq!(
        cli::parse_mode("x"),
        Err("unknown mode 'x' (use global_proxy|system_proxy|http_proxy|vpn)".to_string())
    );
    let c = cli::import(&profile("p", &["a"]), SessionMode::Vpn);
    assert_eq!(c.mode, SessionMode::Vpn);
    assert_eq!(c.client_name, Some("cli".to_string()));
    assert_eq!(c.servers.len(), 1);
}

#[test]
fn a_configuration_to_start_from() {
    let c = cli::gen_config("h".to_string(), 8443);
    let s = c.active_server().unwrap();
    assert_eq!((s.name.as_str(), s.host.as_str(), s.port), ("main", "h", 8443));
    assert!(parse_psk(&s.noise_psk).is_ok());
    assert_eq!(c.routes[1].target, "10.0.0.0/8");
    assert!(c.ipv6_killswitch);
    let d = cli::gen_config_with("h".to_string(), 1, "tok".to_string(), "key".to_string());
    assert_eq!((d.servers[0].token.as_str(), d.servers[0].noise_psk.as_str()), ("tok", "key"));
    assert_eq!((d.servers[0].host.as_str(), d.servers[0].port), ("h", 1));
}

#[test]
fn listings() {
    let s = entry("a");
    assert_eq!(cli::pad("abc"), format!("{:<16}", "abc"));
    assert_eq!(cli::pad("a-very-long-name-indeed"), "a-very-long-name-indeed");
    assert_eq!(
        cli::server_line(&s, true),
        format!("  * {:<16} {}:{}  [{}]", "a", "h", 443, "ws")
    );
    assert_eq!(
        cli::server_line(&s, false),
        format!("    {:<16} {}:{}  [{}]", "a", "h", 443, "ws")
    );
    assert_eq!(
        cli::ping_line(&s, Ok(12), Some(12)),
        format!("  {:<16} h:443 [ws]  12 ms  *fastest", "a")
    );
    assert_eq!(
        cli::ping_line(&s, Ok(13), Some(12)),
        format!("  {:<16} h:443 [ws]  13 ms", "a")
    );
    assert_eq!(
        cli::ping_line(&s, Err("e".to_string()), None),
        format!("  {:<16} h:443 [ws]  unreachable (e)", "a")
    );
    let mut c = ClientConfig::compose(&profile("p", &["a", "b"]), &ConnectionSettings::default());
    assert_eq!(cli::servers_to_ping(&c).len(), 2);
    c.servers.clear();
    assert!(cli::servers_to_ping(&c).is_empty());
    c.server_host = "flat".to_string();
    assert_eq!(cli::servers_to_ping(&c)[0].host, "flat");
}

fn welcome() -> Welcome {
    Welcome {
        session_id: 1,
        assigned_ip: Ipv4Addr::new(10, 7, 0, 2),
        prefix_len: 24,
        gateway: Ipv4Addr::new(10, 7, 0, 1),
        mtu: 1380,
        dns: vec![Ipv4Addr::new(1, 1, 1, 1)],
        assigned_ip6: None,
        prefix6: 0,
        gateway6: None,
        dns6: Vec::new(),
    }
}

#[test]
fn connecting_on_android() {
    let mut c = ClientConfig::compose(&profile("p", &["a", "b"]), &ConnectionSettings::default());
    assert_eq!(hops_of(&c).ok().unwrap().len(), 1);
    c.chain = vec!["b".to_string(), "a".to_string()];
    let h = hops_of(&c).ok().unwrap();
    assert_eq!((h.len(), h[0].name.as_str()), (2, "b"));
    c.servers.clear();
    assert_eq!(
        hops_of(&c).err().unwrap().to_text(),
        "config: no servers configured"
    );
    let n = net_config(&welcome(), SessionMode::GlobalProxy);
    assert_eq!((n.mode.as_str(), n.assigned_ip.as_str()), ("global_proxy", "10.7.0.2"));
    assert_eq!(n.dns, vec!["1.1.1.1".to_string()]);
    assert_eq!(phase_of(SessionMode::Vpn), Phase::AwaitDevice);
    assert_eq!(phase_of(SessionMode::HttpProxy), Phase::RunProxy);
    assert_eq!(open_bridge(3, 1380).ok(), Some(2048));
    assert_eq!(open_bridge(3, 9000).ok(), Some(9000));
    assert_eq!(
        open_bridge(-1, 1380).err().unwrap().to_text(),
        "config: no VpnService fd provided for packet mode"
    );
    assert!(matches!(on_read(Some(vec![1])), UpAction::Send(Frame::Packet(_))));
    assert!(matches!(on_read(Some(vec![])), UpAction::Nothing));
    assert!(matches!(on_read(None), UpAction::Stop));
    let mut st = LiveStatus::default();
    assert!(matches!(on_frame(&mut st, Frame::Packet(vec![1])), DownAction::ToTun(_)));
    assert!(matches!(on_frame(&mut st, Frame::Ping), DownAction::Reply(Frame::Pong)));
    assert!(matches!(on_frame(&mut st, Frame::PeerList { peers: Vec::new() }), DownAction::Nothing));
    assert_eq!(st.traffic_counters(), (0, 0));
}

#[test]
fn the_android_engine() {
    let mut s = MobileState::new();
    assert!(!s.stop_impl());
    assert!(!s.begin());
    assert!(s.begin());
    assert!(s.connect_impl(Handshake::Config(net_config(&welcome(), SessionMode::Vpn))).is_ok());
    assert!(s.start_bridge_impl(true).is_ok());
    assert_eq!(
        s.start_bridge_impl(true),
        Err("no pending connection".to_string())
    );
    s.ended(Some(Error::Closed));
    assert!(!s.running);
    assert_eq!(s.last_error, Some("connection closed".to_string()));
    s.begin();
    assert_eq!(s.last_error, None);
    assert_eq!(
        s.start_bridge_impl(false),
        Err("engine is not awaiting a fd".to_string())
    );
    assert_eq!(
        s.connect_impl(Handshake::TimedOut).err(),
        Some("timed out connecting".to_string())
    );
    assert!(!s.engine && !s.running);
    s.begin();
    assert_eq!(
        s.connect_impl(Handshake::Failed("no".to_string())).err(),
        Some("no".to_string())
    );
}

#[test]
fn tun_devices() {
    let r = ifreq("et0", 0x01, 0x10);
    assert_eq!(&r[..4], b"et0\0");
    assert_eq!((r[16], r[17]), (0x01, 0x10));
    assert_eq!(device_name(b"utun7\0xyz", 9), "utun7");
    assert_eq!(device_name(b"tun", 3), "tun");
    assert_eq!(utun_name(b"utun7\0xyz"), "utun7");
    assert_eq!(utun_name(b"utun7"), "");
    assert_eq!(utun_name(b"\0"), "");
    assert_eq!(utun_name(b""), "");
    let v4 = vec![0x45, 1, 2];
    let v6 = vec![0x60, 1, 2];
    assert_eq!(utun_frame(&v4, 2, 30), vec![0, 0, 0, 2, 0x45, 1, 2]);
    assert_eq!(utun_frame(&v6, 2, 30), vec![0, 0, 0, 30, 0x60, 1, 2]);
    assert_eq!(utun_packet(&utun_frame(&v6, 2, 30)), v6);
    assert_eq!(adapter_name(""), "et0");
    assert_eq!(adapter_name("x"), "x");
    assert!(check_fits(10, 10).is_ok());
    assert_eq!(
        check_fits(11, 10).unwrap_err().to_text(),
        "transport: tun recv: packet 11 bytes exceeds buffer 10"
    );
    assert_eq!(adapter_len(65535).ok(), Some(65535));
    assert!(adapter_len(65536).is_err());
}
