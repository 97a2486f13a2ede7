//! Server configuration.

use vstd::prelude::*;
use vstd::string::*;

use crate::addr::{
    ipv4_net_parsed, ipv6_net_parsed, quad, Ipv4Addr, Ipv4Net, Ipv6Addr, Ipv6Net,
};
use crate::config::{
    generate_psk, generate_token, is_psk_text, is_uuid_text, psk_of, TransportKind,
};
use crate::error::{Error, Failure};
use crate::text::same;

verus! {

/// The switch value that a missing setting stands for.
pub fn yes() -> (r: bool)
    ensures
        r,
{
    true
}

/// The IPv6 subnet used unless another is set: a unique-local one.
pub fn default_subnet6() -> (r: Option<String>)
    ensures
        r is Some,
        r->Some_0@ == "fd66::/64"@,
{
    Some("fd66::/64".to_owned())
}

/// The IPv6 gateway used unless another is set: `fd66::1`.
pub fn default_gateway6() -> (r: Option<Ipv6Addr>)
    ensures
        r == Some(Ipv6Addr { bits: 0xfd66_0000_0000_0000_0000_0000_0000_0001 }),
{
    Some(Ipv6Addr { bits: 0xfd66_0000_0000_0000_0000_0000_0000_0001 })
}

/// The IPv6 resolvers used unless others are set: `2001:4860:4860::8888` and
/// `2606:4700:4700::1111`.
pub fn default_dns6() -> (r: Vec<Ipv6Addr>)
    ensures
        r@.len() == 2,
        r@[0].bits == 0x2001_4860_4860_0000_0000_0000_0000_8888,
        r@[1].bits == 0x2606_4700_4700_0000_0000_0000_0000_1111,
{
    vec![
        Ipv6Addr { bits: 0x2001_4860_4860_0000_0000_0000_0000_8888 },
        Ipv6Addr { bits: 0x2606_4700_4700_0000_0000_0000_0000_1111 },
    ]
}

/// The name of the server's TUN device unless another is set.
pub fn default_tun() -> (r: String)
    ensures
        r@ == "et0"@,
{
    "et0".to_owned()
}

/// One listening socket: a transport bound to an address.
#[derive(Debug)]
pub struct ListenerConfig {
    pub transport: TransportKind,
    /// `addr:port`.
    pub bind: String,
    /// For `ws`: terminate TLS here, or accept plain WebSocket behind a front
    /// proxy that does. Ignored for the other transports.
    pub tls: bool,
}

/// Virtual network parameters.
#[derive(Debug)]
pub struct NetworkConfig {
    /// Virtual subnet in CIDR notation.
    pub subnet: String,
    /// The server's own virtual address, through which peers route.
    pub gateway: Ipv4Addr,
    pub mtu: u16,
    /// Resolvers handed to clients.
    pub dns: Vec<Ipv4Addr>,
    /// Name of the server's TUN device.
    pub tun_name: String,
    /// Interface for outgoing traffic; found from the default route if unset.
    pub egress_iface: Option<String>,
    /// IPv6 subnet; unset turns IPv6 off.
    pub subnet6: Option<String>,
    /// The server's own virtual IPv6 address.
    pub gateway6: Option<Ipv6Addr>,
    /// IPv6 resolvers handed to clients.
    pub dns6: Vec<Ipv6Addr>,
}

/// Key material.
#[derive(Debug)]
pub struct SecurityConfig {
    /// Base64 key of the Noise channel, shared with clients.
    pub noise_psk: String,
    /// Certificate and key files for the TLS transports. If unset, a self-signed
    /// pair is made.
    pub tls_cert_path: Option<String>,
    pub tls_key_path: Option<String>,
}

/// Web admin panel.
#[derive(Debug)]
pub struct WebConfig {
    pub bind: String,
    /// Token that the admin API asks for.
    pub admin_token: String,
}

/// A client's record: found by token, with a pinned virtual address.
#[derive(Debug)]
pub struct PeerConfig {
    pub name: String,
    pub token: String,
    pub ip: Ipv4Addr,
    pub enabled: bool,
    /// Whether the peer may send traffic to the internet through this server.
    pub allow_global: bool,
    /// Whether the peer may open proxy streams.
    pub allow_http_proxy: bool,
}

impl Clone for PeerConfig {
    fn clone(&self) -> (r: PeerConfig)
        ensures
            r == *self,
    {
        PeerConfig {
            name: self.name.clone(),
            token: self.token.clone(),
            ip: self.ip,
            enabled: self.enabled,
            allow_global: self.allow_global,
            allow_http_proxy: self.allow_http_proxy,
        }
    }
}

#[derive(Debug)]
pub struct ServerConfig {
    pub listeners: Vec<ListenerConfig>,
    pub network: NetworkConfig,
    pub security: SecurityConfig,
    pub web: WebConfig,
    pub peers: Vec<PeerConfig>,
}

/// The first peer with a token.
pub open spec fn peer_with(peers: Seq<PeerConfig>, token: Seq<char>) -> Option<PeerConfig>
    decreases peers.len(),
{
    if peers.len() == 0 {
        None
    } else if peers[0].token@ == token {
        Some(peers[0])
    } else {
        peer_with(peers.skip(1), token)
    }
}

/// A peer found by token has that token and is in the list; none is found only
/// when no peer has the token.
pub proof fn law_peer_lookup(peers: Seq<PeerConfig>, token: Seq<char>)
    ensures
        match peer_with(peers, token) {
            Some(p) => p.token@ == token && peers.contains(p),
            None => forall|i: int| 0 <= i < peers.len() ==> (#[trigger] peers[i]).token@ != token,
        },
    decreases peers.len(),
{
    if peers.len() > 0 {
        if peers[0].token@ == token {
            assert(peers.contains(peers[0]));
        } else {
            let tail = peers.skip(1);
            law_peer_lookup(tail, token);
            match peer_with(tail, token) {
                Some(p) => {
                    let i = choose|i: int| 0 <= i < tail.len() && tail[i] == p;
                    assert(peers[i + 1] == p);
                },
                None => {
                    assert forall|i: int| 0 <= i < peers.len() implies (#[trigger] peers[i]).token@
                        != token by {
                        if i > 0 {
                            assert(tail[i - 1] == peers[i]);
                        }
                    }
                },
            }
        }
    }
}

/// How many bits of the virtual subnet's text name the network, or why none do.
pub open spec fn prefix_of(subnet: Seq<char>, parsed: Option<(u32, u8)>) -> Result<u8, Failure> {
    match parsed {
        Some((_, len)) => Ok(len),
        None => Err(
            Failure::Config("bad subnet "@ + subnet + ": "@ + "invalid IP address syntax"@),
        ),
    }
}

/// The IPv6 network that a subnet setting names.
pub open spec fn net6_of(subnet6: Option<String>) -> Option<(u128, u8)> {
    match subnet6 {
        Some(s) => ipv6_net_parsed(s@),
        None => None,
    }
}

impl ServerConfig {
    /// Prefix length of the virtual subnet.
    pub fn prefix_len(&self) -> (r: Result<u8, Error>)
        ensures
            match prefix_of(self.network.subnet@, ipv4_net_parsed(self.network.subnet@)) {
                Ok(n) => r is Ok && r->Ok_0 == n,
                Err(f) => r is Err && r->Err_0@ == f,
            },
    {
        match Ipv4Net::parse(self.network.subnet.as_str()) {
            Ok(net) => Ok(net.prefix_len),
            Err(e) => Err(
                Error::Config(
                    "bad subnet ".to_owned().concat(self.network.subnet.as_str()).concat(
                        ": ",
                    ).concat(e.as_str()),
                ),
            ),
        }
    }

    /// The configured IPv6 subnet, if any.
    pub fn subnet6_net(&self) -> (r: Option<Ipv6Net>)
        ensures
            match net6_of(self.network.subnet6) {
                Some((bits, len)) => r is Some && r->Some_0.wf() && r->Some_0.addr.bits == bits
                    && r->Some_0.prefix_len == len,
                None => r is None,
            },
    {
        match &self.network.subnet6 {
            Some(s) => Ipv6Net::parse(s.as_str()),
            None => None,
        }
    }

    /// The peer with a token.
    pub fn find_peer(&self, token: &str) -> (r: Option<&PeerConfig>)
        ensures
            match peer_with(self.peers@, token@) {
                Some(p) => r is Some && *r->Some_0 == p,
                None => r is None,
            },
    {
        let n: usize = self.peers.len();
        assert(self.peers@.skip(0) =~= self.peers@);
        for i in 0..n
            invariant
                n == self.peers@.len(),
                peer_with(self.peers@, token@) == peer_with(self.peers@.skip(i as int), token@),
        {
            if same(self.peers[i].token.as_str(), token) {
                return Some(&self.peers[i]);
            }
            assert(self.peers@.skip(i as int).skip(1) =~= self.peers@.skip(i + 1));
        }
        None
    }

    /// Whether this is the starter configuration with a key, the token of the admin API
    /// and the token of the example peer.
    pub open spec fn is_starter(
        &self,
        psk: Seq<char>,
        admin_token: Seq<char>,
        token: Seq<char>,
    ) -> bool {
        &&& self.listeners@.len() == 1
        &&& self.listeners@[0].transport == TransportKind::Tcp
        &&& self.listeners@[0].bind@ == "0.0.0.0:8443"@
        &&& self.listeners@[0].tls
        &&& self.network.subnet@ == "10.66.0.0/24"@
        &&& self.network.gateway.bits == quad(10, 66, 0, 1)
        &&& self.network.mtu == 1380
        &&& self.network.dns@ == seq![
            Ipv4Addr { bits: quad(8, 8, 8, 8) },
            Ipv4Addr { bits: quad(1, 1, 1, 1) },
        ]
        &&& self.network.tun_name@ == "et0"@
        &&& self.network.egress_iface is None
        &&& self.network.subnet6 is Some && self.network.subnet6->Some_0@ == "fd66::/64"@
        &&& self.network.gateway6 == Some(
            (Ipv6Addr { bits: 0xfd66_0000_0000_0000_0000_0000_0000_0001 }),
        )
        &&& self.network.dns6@ == seq![
            Ipv6Addr { bits: 0x2001_4860_4860_0000_0000_0000_0000_8888 },
            Ipv6Addr { bits: 0x2606_4700_4700_0000_0000_0000_0000_1111 },
        ]
        &&& self.security.noise_psk@ == psk
        &&& self.security.tls_cert_path is None
        &&& self.security.tls_key_path is None
        &&& self.web.bind@ == "127.0.0.1:9000"@
        &&& self.web.admin_token@ == admin_token
        &&& self.peers@.len() == 1
        &&& self.peers@[0].name@ == "example"@
        &&& self.peers@[0].token@ == token
        &&& self.peers@[0].ip.bits == quad(10, 66, 0, 2)
        &&& self.peers@[0].enabled
        &&& self.peers@[0].allow_global
        &&& self.peers@[0].allow_http_proxy
    }

    /// A starter configuration with one TCP listener and one example peer, with a key,
    /// the token of the admin API and the token of the peer.
    pub fn template_with(psk: String, admin_token: String, token: String) -> (r: ServerConfig)
        ensures
            r.is_starter(psk@, admin_token@, token@),
    {
        let dns6 = default_dns6();
        assert(dns6@ =~= seq![
            Ipv6Addr { bits: 0x2001_4860_4860_0000_0000_0000_0000_8888 },
            Ipv6Addr { bits: 0x2606_4700_4700_0000_0000_0000_0000_1111 },
        ]);
        let dns = vec![Ipv4Addr::new(8, 8, 8, 8), Ipv4Addr::new(1, 1, 1, 1)];
        assert(dns@ =~= seq![
            Ipv4Addr { bits: quad(8, 8, 8, 8) },
            Ipv4Addr { bits: quad(1, 1, 1, 1) },
        ]);
        ServerConfig {
            listeners: vec![
                ListenerConfig {
                    transport: TransportKind::Tcp,
                    bind: "0.0.0.0:8443".to_owned(),
                    tls: true,
                },
            ],
            network: NetworkConfig {
                subnet: "10.66.0.0/24".to_owned(),
                gateway: Ipv4Addr::new(10, 66, 0, 1),
                mtu: 1380,
                dns,
                tun_name: default_tun(),
                egress_iface: None,
                subnet6: default_subnet6(),
                gateway6: default_gateway6(),
                dns6,
            },
            security: SecurityConfig {
                noise_psk: psk,
                tls_cert_path: None,
                tls_key_path: None,
            },
            web: WebConfig { bind: "127.0.0.1:9000".to_owned(), admin_token },
            peers: vec![
                PeerConfig {
                    name: "example".to_owned(),
                    token,
                    ip: Ipv4Addr::new(10, 66, 0, 2),
                    enabled: true,
                    allow_global: true,
                    allow_http_proxy: true,
                },
            ],
        }
    }

    /// A starter configuration with one TCP listener and one example peer. Its
    /// key and its tokens are fresh.
    pub fn template() -> (r: ServerConfig)
        ensures
            r.is_starter(r.security.noise_psk@, r.web.admin_token@, r.peers@[0].token@),
            is_psk_text(r.security.noise_psk@),
            psk_of(r.security.noise_psk@) is Ok,
            is_uuid_text(r.web.admin_token@),
            is_uuid_text(r.peers@[0].token@),
    {
        Self::template_with(generate_psk(), generate_token(), generate_token())
    }
}

/// Where a server's certificate and key come from.
#[derive(Clone, Copy, Debug, PartialEq, Eq, Structural)]
pub enum TlsSource {
    /// From the configured files.
    Files,
    /// Nowhere: no listener uses TLS.
    NotNeeded,
    /// From the self-signed pair that was saved on an earlier start.
    Saved,
    /// A self-signed pair is made and saved.
    SelfSigned,
}

/// Where a server's certificate and key come from; `saved` says whether there is a
/// self-signed pair from an earlier start.
pub open spec fn tls_source(
    cert: Option<String>,
    key: Option<String>,
    listeners: Seq<ListenerConfig>,
    saved: bool,
) -> TlsSource {
    if cert is Some && key is Some {
        TlsSource::Files
    } else if exists|i: int|
        0 <= i < listeners.len() && (#[trigger] listeners[i]).transport != TransportKind::Tcp {
        if saved {
            TlsSource::Saved
        } else {
            TlsSource::SelfSigned
        }
    } else {
        TlsSource::NotNeeded
    }
}

/// Where a server's certificate and key come from: a self-signed pair is made on the
/// first start that needs one, and used from there on.
pub fn tls_material(cfg: &ServerConfig, saved: bool) -> (r: TlsSource)
    ensures
        r == tls_source(
            cfg.security.tls_cert_path,
            cfg.security.tls_key_path,
            cfg.listeners@,
            saved,
        ),
{
    if cfg.security.tls_cert_path.is_some() && cfg.security.tls_key_path.is_some() {
        return TlsSource::Files;
    }
    let n: usize = cfg.listeners.len();
    for i in 0..n
        invariant
            n == cfg.listeners@.len(),
            cfg.security.tls_cert_path is None || cfg.security.tls_key_path is None,
            forall|j: int|
                0 <= j < i ==> (#[trigger] cfg.listeners@[j]).transport == TransportKind::Tcp,
    {
        if cfg.listeners[i].transport != TransportKind::Tcp {
            return if saved {
                TlsSource::Saved
            } else {
                TlsSource::SelfSigned
            };
        }
    }
    TlsSource::NotNeeded
}

/// A server that made a self-signed pair uses that pair on every later start, as long
/// as its certificate, key and listeners stay as configured.
pub proof fn law_pair_is_made_once(
    cert: Option<String>,
    key: Option<String>,
    listeners: Seq<ListenerConfig>,
)
    requires
        tls_source(cert, key, listeners, false) == TlsSource::SelfSigned,
    ensures
        tls_source(cert, key, listeners, true) == TlsSource::Saved,
{
}

}
