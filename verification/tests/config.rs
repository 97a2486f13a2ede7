use base64::Engine;
use entrotunnel::addr::Ipv4Addr;
use entrotunnel::client::config::{
    default_transport, link_from_decoded, profiles_from_toml, ClientConfig, ConnectionSettings, Profile,
    ProfileBundle, RouteRule, ServerEntry, SplitMode,
};
use entrotunnel::config::{SessionMode, TransportKind};

fn entry(name: &str, host: &str, port: u16, transport: TransportKind) -> ServerEntry {
    ServerEntry {
        name: name.to_string(),
        host: host.to_string(),
        port,
        transport,
        token: format!("token-{}", name),
        noise_psk: "psk".to_string(),
        tls_skip_verify: false,
        server_name: None,
    }
}

fn transport_named(s: &str) -> TransportKind {
    match s {
        "ws" => TransportKind::Ws,
        "quic" => TransportKind::Quic,
        _ => TransportKind::Tcp,
    }
}

fn server_to_toml(s: &ServerEntry) -> toml::Value {
    let mut t = toml::Table::new();
    t.insert("name".into(), s.name.clone().into());
    t.insert("host".into(), s.host.clone().into());
    t.insert("port".into(), (s.port as i64).into());
    t.insert("transport".into(), s.transport.to_text().into());
    t.insert("token".into(), s.token.clone().into());
    t.insert("noise_psk".into(), s.noise_psk.clone().into());
    t.insert("tls_skip_verify".into(), s.tls_skip_verify.into());
    if let Some(n) = &s.server_name {
        t.insert("server_name".into(), n.clone().into());
    }
    toml::Value::Table(t)
}

fn server_from_toml(v: &toml::Value) -> ServerEntry {
    let text = |k: &str| v[k].as_str().unwrap().to_string();
    ServerEntry {
        name: text("name"),
        host: text("host"),
        port: v["port"].as_integer().unwrap() as u16,
        transport: transport_named(&text("transport")),
        token: text("token"),
        noise_psk: text("noise_psk"),
        tls_skip_verify: v["tls_skip_verify"].as_bool().unwrap(),
        server_name: v.get("server_name").map(|n| n.as_str().unwrap().to_string()),
    }
}

fn profile_to_toml(p: &Profile) -> toml::Table {
    let mut t = toml::Table::new();
    t.insert("name".into(), p.name.clone().into());
    if let Some(s) = &p.selected_server {
        t.insert("selected_server".into(), s.clone().into());
    }
    let servers: Vec<toml::Value> = p.servers.iter().map(server_to_toml).collect();
    t.insert("servers".into(), toml::Value::Array(servers));
    t
}

fn profile_from_table(t: &toml::Table) -> Profile {
    Profile {
        name: t["name"].as_str().unwrap().to_string(),
        selected_server: t.get("selected_server").map(|s| s.as_str().unwrap().to_string()),
        servers: t["servers"].as_array().unwrap().iter().map(server_from_toml).collect(),
    }
}

fn config_to_toml(c: &ClientConfig) -> String {
    let p = Profile {
        name: c.name.clone(),
        selected_server: c.selected_server.clone(),
        servers: c.servers.clone(),
    };
    let mut t = profile_to_toml(&p);
    t.insert("mode".into(), c.mode.to_text().into());
    let split = match c.split_mode {
        SplitMode::Blacklist => "blacklist",
        SplitMode::Whitelist => "whitelist",
    };
    t.insert("split_mode".into(), split.into());
    toml::to_string_pretty(&t).unwrap()
}

fn config_from_toml(text: &str) -> Result<ClientConfig, String> {
    let t: toml::Table = text.parse::<toml::Table>().map_err(|e| e.to_string())?;
    let p = profile_from_table(&t);
    Ok(ClientConfig::compose(&p, &ConnectionSettings::default()))
}

fn bundle_from_toml(text: &str) -> Option<ProfileBundle> {
    let t: toml::Table = text.parse::<toml::Table>().ok()?;
    let list = t.get("profiles")?.as_array()?;
    Some(ProfileBundle {
        profiles: list
            .iter()
            .map(|v| profile_from_table(v.as_table().unwrap()))
            .collect(),
    })
}

fn bundle_to_toml(b: &ProfileBundle) -> String {
    let list: Vec<toml::Value> = b
        .profiles
        .iter()
        .map(|p| toml::Value::Table(profile_to_toml(p)))
        .collect();
    let mut t = toml::Table::new();
    t.insert("profiles".into(), toml::Value::Array(list));
    toml::to_string_pretty(&t).unwrap()
}

fn srv(name: &str, host: &str, port: u16, tls_skip: bool) -> ServerEntry {
    ServerEntry {
        name: name.to_string(),
        host: host.to_string(),
        port,
        transport: default_transport(),
        token: format!("TOKEN-{}", name),
        noise_psk: format!("PSK-{}", name),
        tls_skip_verify: tls_skip,
        server_name: None,
    }
}

#[test]
fn export_includes_all_servers_and_settings() {
    let profile = Profile {
        name: "home-lab".to_string(),
        selected_server: Some("aliyun".to_string()),
        servers: vec![
            srv("hkg", "141.11.149.77", 8443, true),
            srv("new", "14.137.244.49", 8443, true),
            srv("aliyun", "tun1.hydeng.cn", 443, false),
        ],
    };
    let settings = ConnectionSettings {
        mode: SessionMode::GlobalProxy,
        split_mode: SplitMode::Whitelist,
        routes: vec![RouteRule {
            target: "example.com".to_string(),
            via: "tunnel".to_string(),
            gateway: None,
        }],
        ..ConnectionSettings::default()
    };
    let cfg = ClientConfig::compose(&profile, &settings);
    let toml = config_to_toml(&cfg);
    assert_eq!(toml.matches("[[servers]]").count(), 3);
    for s in ["hkg", "new", "aliyun"] {
        assert!(toml.contains(&format!("name = \"{}\"", s)), "missing server {}", s);
    }
    assert!(toml.contains("split_mode = \"whitelist\""));
    assert!(toml.contains("selected_server = \"aliyun\""));
    let names: Vec<&str> = cfg.servers.iter().map(|s| s.name.as_str()).collect();
    assert_eq!(names, profile.servers.iter().map(|s| s.name.as_str()).collect::<Vec<_>>());
    assert_eq!(names.len(), 3);
    for s in ["hkg", "new", "aliyun"] {
        assert!(names.contains(&s));
    }
    assert!(matches!(cfg.split_mode, SplitMode::Whitelist));
    assert_eq!(cfg.selected_server, Some("aliyun".to_string()));
    assert_eq!(cfg.routes.len(), 1);
    assert_eq!(cfg.routes[0].target, "example.com");
    assert_eq!(cfg.routes[0].via, "tunnel");
    assert_eq!(cfg.active_server().unwrap().host, "tun1.hydeng.cn");
}

#[test]
fn profile_bundle_roundtrips_all() {
    let bundle = ProfileBundle {
        profiles: vec![
            Profile {
                name: "home".to_string(),
                selected_server: Some("a".to_string()),
                servers: vec![srv("a", "1.1.1.1", 8443, false), srv("b", "2.2.2.2", 443, true)],
            },
            Profile {
                name: "work".to_string(),
                selected_server: None,
                servers: vec![srv("c", "3.3.3.3", 8443, false)],
            },
        ],
    };
    let toml = bundle_to_toml(&bundle);
    let back = profiles_from_toml(bundle_from_toml(&toml), Err("unused".to_string())).unwrap();
    assert_eq!(back.len(), 2);
    assert_eq!(back[0].name, "home");
    assert_eq!(back[0].servers.len(), 2);
    assert_eq!(back[1].name, "work");
    assert_eq!(back[1].servers[0].host, "3.3.3.3");
    assert_eq!(format!("{:?}", back), format!("{:?}", bundle.profiles));
}

#[test]
fn import_accepts_bundle_and_single_client_toml() {
    let bundle = bundle_to_toml(&ProfileBundle {
        profiles: vec![Profile {
            name: "p1".to_string(),
            selected_server: None,
            servers: vec![srv("a", "1.1.1.1", 8443, false)],
        }],
    });
    let got = profiles_from_toml(bundle_from_toml(&bundle), Err("x".to_string())).unwrap();
    assert_eq!(got.len(), 1);
    assert_eq!(got[0].name, "p1");

    let profile = Profile {
        name: "home-lab".to_string(),
        selected_server: Some("hk".to_string()),
        servers: vec![srv("hk", "9.9.9.9", 443, true), srv("hk2", "8.8.8.8", 8443, false)],
    };
    let settings = ConnectionSettings {
        split_mode: SplitMode::Whitelist,
        ..ConnectionSettings::default()
    };
    let client_toml = config_to_toml(&ClientConfig::compose(&profile, &settings));
    let got = profiles_from_toml(bundle_from_toml(&client_toml), config_from_toml(&client_toml))
        .unwrap();
    assert_eq!(got.len(), 1);
    assert_eq!(got[0].name, "home-lab");
    assert_eq!(got[0].servers.len(), 2);
    assert_eq!(got[0].selected_server.as_deref(), Some("hk"));
}

#[test]
fn imports_that_are_refused() {
    assert_eq!(
        profiles_from_toml(None, Err("bad".to_string())).unwrap_err().to_text(),
        "config: not a profile bundle or client.toml: bad"
    );
    let empty = Profile {
        name: String::new(),
        selected_server: None,
        servers: Vec::new(),
    };
    let cfg = ClientConfig::compose(&empty, &ConnectionSettings::default());
    assert_eq!(
        profiles_from_toml(Some(ProfileBundle { profiles: Vec::new() }), Ok(cfg))
            .unwrap_err()
            .to_text(),
        "config: TOML has no profiles and no [[servers]] to import"
    );
    let nameless = Profile {
        name: String::new(),
        selected_server: None,
        servers: vec![entry("a", "1.1.1.1", 1, TransportKind::Tcp)],
    };
    let cfg = ClientConfig::compose(&nameless, &ConnectionSettings::default());
    assert_eq!(profiles_from_toml(None, Ok(cfg)).unwrap()[0].name, "imported");
}

#[test]
fn the_active_server() {
    let mut p = Profile {
        name: "p".to_string(),
        selected_server: None,
        servers: vec![
            entry("a", "1.1.1.1", 1, TransportKind::Tcp),
            entry("b", "2.2.2.2", 2, TransportKind::Tcp),
        ],
    };
    assert_eq!(p.active_server().unwrap().name, "a");
    p.selected_server = Some("b".to_string());
    assert_eq!(p.active_server().unwrap().name, "b");
    p.selected_server = Some("zzz".to_string());
    assert_eq!(p.active_server().unwrap().name, "a");
    assert_eq!(p.server_names(), vec!["a".to_string(), "b".to_string()]);
    p.servers.clear();
    assert_eq!(p.active_server().unwrap_err().to_text(), "config: profile has no servers");
    let mut c = ClientConfig::compose(&p, &ConnectionSettings::default());
    assert_eq!(c.active_server().unwrap_err().to_text(), "config: no servers configured");
    c.server_host = "h".to_string();
    c.server_port = 9;
    c.token = "t".to_string();
    let s = c.active_server().unwrap();
    assert_eq!((s.name.as_str(), s.host.as_str(), s.port), ("default", "h", 9));
    assert_eq!(c.server_names(), vec!["default".to_string()]);
}

#[test]
fn tls_names() {
    let mut s = entry("a", "host.example", 1, TransportKind::Ws);
    assert_eq!(s.sni(), "host.example");
    s.server_name = Some("front.example".to_string());
    assert_eq!(s.sni(), "front.example");
}

#[test]
fn links_round_trip() {
    let json = b"{\"name\":\"n\"}".to_vec();
    let link = Profile::encode_link(&json);
    assert_eq!(
        link,
        format!("entro://{}", base64::engine::general_purpose::STANDARD.encode(&json))
    );
    assert_eq!(Profile::decode_link(&link).unwrap(), json);
    assert_eq!(Profile::decode_link(&format!("  {} \n", link)).unwrap(), json);
    assert_eq!(Profile::decode_link(&link["entro://".len()..]).unwrap(), json);
}

#[test]
fn links_in_other_alphabets() {
    let bytes = vec![0xfb, 0xff, 0xfe, 0x01];
    for text in [
        base64::engine::general_purpose::STANDARD.encode(&bytes),
        base64::engine::general_purpose::URL_SAFE.encode(&bytes),
        base64::engine::general_purpose::URL_SAFE_NO_PAD.encode(&bytes),
    ] {
        assert_eq!(Profile::decode_link(&format!("entro://{}", text)).unwrap(), bytes);
    }
    assert!(Profile::decode_link("entro://***")
        .unwrap_err()
        .to_text()
        .starts_with("config: invalid config link (base64): "));
    assert_eq!(
        link_from_decoded(
            Err("1".to_string()),
            Err("2".to_string()),
            Err("3".to_string())
        )
        .unwrap_err()
        .to_text(),
        "config: invalid config link (base64): 3"
    );
    assert_eq!(
        link_from_decoded(Err("1".to_string()), Ok(vec![2]), Ok(vec![3])).unwrap(),
        vec![2]
    );
}

#[test]
fn composing_keeps_device_settings_apart() {
    let p = Profile {
        name: "p".to_string(),
        selected_server: Some("a".to_string()),
        servers: vec![entry("a", "1.1.1.1", 1, TransportKind::Tcp)],
    };
    let s = ConnectionSettings {
        mode: SessionMode::Vpn,
        requested_ip: Some(Ipv4Addr::new(10, 7, 0, 9)),
        client_name: Some("me".to_string()),
        join_vpn: true,
        chain: vec!["a".to_string()],
        ipv6_killswitch: false,
        ..ConnectionSettings::default()
    };
    let c = ClientConfig::compose(&p, &s);
    assert_eq!(c.mode, SessionMode::Vpn);
    assert_eq!(c.requested_ip, Some(Ipv4Addr::new(10, 7, 0, 9)));
    assert_eq!(c.client_name, Some("me".to_string()));
    assert_eq!(c.tun_name, "et0");
    assert_eq!(c.http_listen, "127.0.0.1:7890");
    assert!(c.join_vpn && !c.ipv6_killswitch);
    assert_eq!(c.chain, vec!["a".to_string()]);
    assert_eq!(c.servers.len(), 1);
    assert_eq!(c.selected_server, Some("a".to_string()));
}

#[test]
fn modes_on_the_wire() {
    assert_eq!(SessionMode::SystemProxy.wire(), SessionMode::HttpProxy);
    for m in [SessionMode::GlobalProxy, SessionMode::HttpProxy, SessionMode::Vpn] {
        assert_eq!(m.wire(), m);
    }
    assert!(SessionMode::SystemProxy.is_stream() && SessionMode::HttpProxy.is_stream());
    assert!(!SessionMode::Vpn.is_stream() && !SessionMode::GlobalProxy.is_stream());
    assert_eq!(SessionMode::GlobalProxy.to_text(), "global_proxy");
    assert_eq!(TransportKind::Quic.to_text(), "quic");
}
