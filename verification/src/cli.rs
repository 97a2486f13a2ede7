//! What the command-line client decides.

use vstd::prelude::*;
use vstd::string::*;

use crate::client::config::{
    clone_servers, is_flat_server, ClientConfig, ConnectionSettings, Profile, RouteRule,
    ServerEntry, SplitMode,
};
use crate::config::{
    generate_psk, generate_token, is_psk_text, is_uuid_text, psk_of, SessionMode, TransportKind,
};
use crate::text::{decimal, decimal_text, same};

verus! {

/// The mode that a name on the command line means.
pub open spec fn mode_named(name: Seq<char>) -> Option<SessionMode> {
    if name == "global_proxy"@ || name == "global"@ {
        Some(SessionMode::GlobalProxy)
    } else if name == "system_proxy"@ || name == "system"@ {
        Some(SessionMode::SystemProxy)
    } else if name == "http_proxy"@ || name == "http"@ {
        Some(SessionMode::HttpProxy)
    } else if name == "vpn"@ {
        Some(SessionMode::Vpn)
    } else {
        None
    }
}

/// The mode that a name on the command line means.
pub fn parse_mode(name: &str) -> (r: Result<SessionMode, String>)
    ensures
        match mode_named(name@) {
            Some(m) => r == Ok::<SessionMode, String>(m),
            None => r is Err && r->Err_0@ == "unknown mode '"@ + name@
                + "' (use global_proxy|system_proxy|http_proxy|vpn)"@,
        },
{
    if same(name, "global_proxy") || same(name, "global") {
        Ok(SessionMode::GlobalProxy)
    } else if same(name, "system_proxy") || same(name, "system") {
        Ok(SessionMode::SystemProxy)
    } else if same(name, "http_proxy") || same(name, "http") {
        Ok(SessionMode::HttpProxy)
    } else if same(name, "vpn") {
        Ok(SessionMode::Vpn)
    } else {
        Err(
            "unknown mode '".to_owned().concat(name).concat(
                "' (use global_proxy|system_proxy|http_proxy|vpn)",
            ),
        )
    }
}

/// The settings with which a link is imported: the defaults, in the mode asked for.
pub fn import_settings(mode: SessionMode) -> (r: ConnectionSettings)
    ensures
        r.mode == mode,
        r.requested_ip is None,
        r.client_name is Some && r.client_name->Some_0@ == "cli"@,
        r.tun_name@ == "et0"@,
        r.http_listen@ == "127.0.0.1:7890"@,
        !r.join_vpn,
        r.routes@.len() == 0,
        r.split_mode == SplitMode::Blacklist,
        r.chain@.len() == 0,
        r.ipv6_killswitch,
{
    let mut s = ConnectionSettings::default();
    s.mode = mode;
    s.client_name = Some("cli".to_owned());
    s
}

/// The configuration that importing a profile writes.
pub fn import(profile: &Profile, mode: SessionMode) -> (r: ClientConfig)
    ensures
        exists|s: ConnectionSettings|
            #![trigger r.composes(*profile, s)]
            r.composes(*profile, s) && s.mode == mode && s.client_name is Some
                && s.client_name->Some_0@ == "cli"@ && s.requested_ip is None && s.tun_name@
                == "et0"@ && s.http_listen@ == "127.0.0.1:7890"@ && !s.join_vpn && s.routes@.len()
                == 0 && s.split_mode == SplitMode::Blacklist && s.chain@.len() == 0
                && s.ipv6_killswitch,
{
    let settings = import_settings(mode);
    let r = ClientConfig::compose(profile, &settings);
    assert(r.composes(*profile, settings));
    r
}

/// Whether a rule keeps a network off the tunnel.
pub open spec fn keeps_direct(r: RouteRule, net: Seq<char>) -> bool {
    r.target@ == net && r.via@ == "direct"@ && r.gateway is None
}

/// Whether `r` is the configuration to start from for a server with a token and a key.
pub open spec fn starts_from(
    r: ClientConfig,
    host: Seq<char>,
    port: u16,
    token: Seq<char>,
    noise_psk: Seq<char>,
) -> bool {
    &&& r.name@ == "default"@
    &&& r.selected_server is Some && r.selected_server->Some_0@ == "main"@
    &&& r.mode == SessionMode::GlobalProxy
    &&& r.requested_ip is None
    &&& r.client_name is Some && r.client_name->Some_0@ == "cli"@
    &&& r.tun_name@ == "et0"@
    &&& r.http_listen@ == "127.0.0.1:7890"@
    &&& !r.join_vpn
    &&& r.server_host@.len() == 0
    &&& r.server_port == 0
    &&& r.transport == TransportKind::Tcp
    &&& r.token@.len() == 0
    &&& r.noise_psk@.len() == 0
    &&& !r.tls_skip_verify
    &&& r.server_name is None
    &&& r.servers@.len() == 1
    &&& r.servers@[0].name@ == "main"@
    &&& r.servers@[0].host@ == host
    &&& r.servers@[0].port == port
    &&& r.servers@[0].transport == TransportKind::Tcp
    &&& r.servers@[0].token@ == token
    &&& r.servers@[0].noise_psk@ == noise_psk
    &&& !r.servers@[0].tls_skip_verify
    &&& r.servers@[0].server_name is None
    &&& r.routes@.len() == 2
    &&& keeps_direct(r.routes@[0], "192.168.0.0/16"@)
    &&& keeps_direct(r.routes@[1], "10.0.0.0/8"@)
    &&& r.split_mode == SplitMode::Blacklist
    &&& r.chain@.len() == 0
    &&& r.ipv6_killswitch
}

/// A configuration to start from: one server with a token and a key, and private
/// networks off the tunnel.
pub fn gen_config_with(host: String, port: u16, token: String, noise_psk: String) -> (r:
    ClientConfig)
    ensures
        starts_from(r, host@, port, token@, noise_psk@),
{
    let server = ServerEntry {
        name: "main".to_owned(),
        host,
        port,
        transport: TransportKind::Tcp,
        token,
        noise_psk,
        tls_skip_verify: false,
        server_name: None,
    };
    ClientConfig {
        name: "default".to_owned(),
        selected_server: Some("main".to_owned()),
        mode: SessionMode::GlobalProxy,
        requested_ip: None,
        client_name: Some("cli".to_owned()),
        tun_name: "et0".to_owned(),
        http_listen: "127.0.0.1:7890".to_owned(),
        join_vpn: false,
        server_host: String::new(),
        server_port: 0,
        transport: TransportKind::Tcp,
        token: String::new(),
        noise_psk: String::new(),
        tls_skip_verify: false,
        server_name: None,
        servers: vec![server],
        routes: vec![
            RouteRule {
                target: "192.168.0.0/16".to_owned(),
                via: "direct".to_owned(),
                gateway: None,
            },
            RouteRule { target: "10.0.0.0/8".to_owned(), via: "direct".to_owned(), gateway: None },
        ],
        split_mode: SplitMode::Blacklist,
        chain: Vec::new(),
        ipv6_killswitch: true,
    }
}

/// A configuration to start from: one server with a new token and key, and private
/// networks off the tunnel.
pub fn gen_config(host: String, port: u16) -> (r: ClientConfig)
    ensures
        starts_from(r, host@, port, r.servers@[0].token@, r.servers@[0].noise_psk@),
        is_uuid_text(r.servers@[0].token@),
        is_psk_text(r.servers@[0].noise_psk@),
        psk_of(r.servers@[0].noise_psk@) is Ok,
{
    let token = generate_token();
    let noise_psk = generate_psk();
    gen_config_with(host, port, token, noise_psk)
}

/// The servers to measure: all that are named, or else the single one in the flat
/// fields.
pub fn servers_to_ping(cfg: &ClientConfig) -> (r: Vec<ServerEntry>)
    ensures
        if cfg.servers@.len() > 0 {
            r@ == cfg.servers@
        } else if cfg.server_host@.len() == 0 {
            r@.len() == 0
        } else {
            r@.len() == 1 && is_flat_server(r@[0], *cfg)
        },
{
    if cfg.servers.len() > 0 {
        clone_servers(&cfg.servers)
    } else {
        match cfg.active_server() {
            Ok(s) => vec![s],
            Err(_) => Vec::new(),
        }
    }
}

/// How many characters a name takes in a listing.
pub const NAME_WIDTH: usize = 16;

/// A name with blanks behind it up to the width.
pub open spec fn padded(s: Seq<char>) -> Seq<char> {
    if s.len() >= NAME_WIDTH {
        s
    } else {
        s + Seq::new((NAME_WIDTH - s.len()) as nat, |i: int| ' ')
    }
}

/// A name with blanks behind it up to the width.
pub fn pad(s: &str) -> (r: String)
    ensures
        r@ == padded(s@),
{
    let mut r = s.to_owned();
    let n: usize = s.unicode_len();
    let mut i: usize = n;
    assert(r@ =~= s@ + Seq::new(0, |k: int| ' '));
    while i < NAME_WIDTH
        invariant
            n == s@.len(),
            n <= i,
            i <= NAME_WIDTH || i == n,
            r@ == s@ + Seq::new((i - n) as nat, |k: int| ' '),
        decreases NAME_WIDTH - i,
    {
        r.push(' ');
        i = i + 1;
        assert(r@ =~= s@ + Seq::new((i - n) as nat, |k: int| ' '));
    }
    r
}

/// A server in a listing: its name, where it is, and how it is reached.
pub open spec fn listed(s: ServerEntry) -> Seq<char> {
    padded(s.name@) + " "@ + s.host@ + ":"@ + decimal(s.port as nat)
}

/// A server in a listing.
pub fn list_entry(s: &ServerEntry) -> (r: String)
    ensures
        r@ == listed(*s),
{
    pad(s.name.as_str()).concat(" ").concat(s.host.as_str()).concat(":").concat(
        decimal_text(s.port as u64).as_str(),
    )
}

/// A line of the server listing; the active server is marked.
pub fn server_line(s: &ServerEntry, active: bool) -> (r: String)
    ensures
        r@ == (if active {
            "  * "@
        } else {
            "    "@
        }) + listed(*s) + "  ["@ + s.transport.name() + "]"@,
{
    let mark = if active {
        "  * "
    } else {
        "    "
    };
    mark.to_owned().concat(list_entry(s).as_str()).concat("  [").concat(
        s.transport.to_text().as_str(),
    ).concat("]")
}

/// What is said of a server that was measured.
pub open spec fn ping_text(s: ServerEntry, ms: Result<u64, String>, best: Option<u64>) -> Seq<
    char,
> {
    let head = "  "@ + listed(s) + " ["@ + s.transport.name() + "]  "@;
    match ms {
        Ok(n) => head + decimal(n as nat) + " ms"@ + if best == Some(n) {
            "  *fastest"@
        } else {
            ""@
        },
        Err(e) => head + "unreachable ("@ + e@ + ")"@,
    }
}

/// What is said of a server that was measured; the fastest ones are marked.
pub fn ping_line(s: &ServerEntry, ms: Result<u64, String>, best: Option<u64>) -> (r: String)
    ensures
        r@ == ping_text(*s, ms, best),
{
    let head = "  ".to_owned().concat(list_entry(s).as_str()).concat(" [").concat(
        s.transport.to_text().as_str(),
    ).concat("]  ");
    match ms {
        Ok(n) => {
            let fastest = match best {
                Some(b) => b == n,
                None => false,
            };
            head.concat(decimal_text(n).as_str()).concat(" ms").concat(
                if fastest {
                    "  *fastest"
                } else {
                    ""
                },
            )
        },
        Err(e) => head.concat("unreachable (").concat(e.as_str()).concat(")"),
    }
}

/// The names of the modes, long and short.
pub proof fn law_mode_names(name: Seq<char>)
    ensures
        mode_named("global_proxy"@) == Some(SessionMode::GlobalProxy),
        mode_named("global"@) == Some(SessionMode::GlobalProxy),
        mode_named("system_proxy"@) == Some(SessionMode::SystemProxy),
        mode_named("system"@) == Some(SessionMode::SystemProxy),
        mode_named("http_proxy"@) == Some(SessionMode::HttpProxy),
        mode_named("http"@) == Some(SessionMode::HttpProxy),
        mode_named("vpn"@) == Some(SessionMode::Vpn),
        name != "global_proxy"@ && name != "global"@ && name != "system_proxy"@ && name
            != "system"@ && name != "http_proxy"@ && name != "http"@ && name != "vpn"@
            ==> mode_named(name) is None,
{
    reveal_strlit("global_proxy");
    reveal_strlit("global");
    reveal_strlit("system_proxy");
    reveal_strlit("system");
    reveal_strlit("http_proxy");
    reveal_strlit("http");
    reveal_strlit("vpn");
    assert("global_proxy"@[0] == 'g');
    assert("global"@[0] == 'g');
    assert("system_proxy"@[0] == 's');
    assert("system"@[0] == 's');
    assert("http_proxy"@[0] == 'h');
    assert("http"@[0] == 'h');
    assert("vpn"@[0] == 'v');
}

/// The configuration that is written for a new client: the global proxy over one server
/// named `main`, with the private networks kept direct.
pub proof fn law_new_client(
    r: ClientConfig,
    host: Seq<char>,
    port: u16,
    token: Seq<char>,
    noise_psk: Seq<char>,
)
    requires
        starts_from(r, host, port, token, noise_psk),
    ensures
        r.name@ == "default"@,
        r.selected_server is Some && r.selected_server->Some_0@ == "main"@,
        r.mode == SessionMode::GlobalProxy,
        r.requested_ip is None,
        r.client_name is Some && r.client_name->Some_0@ == "cli"@,
        r.tun_name@ == "et0"@,
        r.http_listen@ == "127.0.0.1:7890"@,
        !r.join_vpn,
        r.server_host@.len() == 0,
        r.servers@.len() == 1,
        r.servers@[0].name@ == "main"@,
        r.servers@[0].host@ == host,
        r.servers@[0].port == port,
        r.servers@[0].transport == TransportKind::Tcp,
        r.servers@[0].token@ == token,
        r.servers@[0].noise_psk@ == noise_psk,
        !r.servers@[0].tls_skip_verify,
        r.servers@[0].server_name is None,
        r.routes@.len() == 2,
        r.routes@[0].target@ == "192.168.0.0/16"@ && r.routes@[0].via@ == "direct"@,
        r.routes@[1].target@ == "10.0.0.0/8"@ && r.routes@[1].via@ == "direct"@,
        r.routes@[0].gateway is None && r.routes@[1].gateway is None,
        r.split_mode == SplitMode::Blacklist,
        r.chain@.len() == 0,
        r.ipv6_killswitch,
{
}

/// A name fills sixteen columns: a shorter one has spaces behind it, a longer one is kept
/// whole.
pub proof fn law_padding(s: Seq<char>, i: int)
    ensures
        s.len() >= 16 ==> padded(s) == s,
        s.len() < 16 ==> padded(s).len() == 16,
        0 <= i < s.len() ==> padded(s)[i] == s[i],
        s.len() <= i < 16 ==> padded(s)[i] == ' ',
{
}

/// A line of the server listing, and one of the ping table: a reachable server with its
/// time, the fastest marked as such, and an unreachable one with the reason.
pub proof fn law_server_lines(s: ServerEntry, n: u64, best: Option<u64>, e: String)
    ensures
        listed(s) == padded(s.name@) + " "@ + s.host@ + ":"@ + decimal(s.port as nat),
        ({
            let head = "  "@ + listed(s) + " ["@ + s.transport.name() + "]  "@;
            &&& best == Some(n) ==> ping_text(s, Ok(n), best) == head + decimal(n as nat)
                + " ms"@ + "  *fastest"@
            &&& best != Some(n) ==> ping_text(s, Ok(n), best) == head + decimal(n as nat)
                + " ms"@
            &&& ping_text(s, Err(e), best) == head + "unreachable ("@ + e@ + ")"@
        }),
{
    reveal_strlit("");
    let head = "  "@ + listed(s) + " ["@ + s.transport.name() + "]  "@;
    assert(head + decimal(n as nat) + " ms"@ + ""@ =~= head + decimal(n as nat) + " ms"@);
}

}
