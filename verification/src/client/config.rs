//! Client profiles and connection settings, and the portable profile link.

use vstd::prelude::*;
use vstd::string::*;

use crate::addr::Ipv4Addr;
use crate::config::{
    base64_bytes, base64_decode, base64_encode, base64_text, decoded_view, fits_base64, is_base64,
    unpadded, url_safe, SessionMode,
    TransportKind,
};
use crate::error::{fails_as, Error, Failure};
use crate::protocol::control::opt_view;
use crate::text::{
    is_white, lemma_trimmed_fixed, lemma_trimmed_padded, occurs_at, same, strip_prefix, texts, trim,
    trimmed, without_prefix,
};

verus! {

/// The name of the TUN device unless another is set.
pub fn default_tun_name() -> (r: String)
    ensures
        r@ == "et0"@,
{
    "et0".to_owned()
}

/// Where the local proxy listens unless another address is set.
pub fn default_http_listen() -> (r: String)
    ensures
        r@ == "127.0.0.1:7890"@,
{
    "127.0.0.1:7890".to_owned()
}

/// The transport used unless another is set.
pub fn default_transport() -> (r: TransportKind)
    ensures
        r == TransportKind::Tcp,
{
    TransportKind::Tcp
}

/// Whether a port is left out when it is written.
pub fn is_zero(n: &u16) -> (r: bool)
    ensures
        r == (*n == 0),
{
    *n == 0
}

/// Whether a switch is left out when it is written.
pub fn is_false(b: &bool) -> (r: bool)
    ensures
        r == !*b,
{
    !*b
}

/// The value of a switch that is on unless turned off.
pub fn default_true() -> (r: bool)
    ensures
        r,
{
    true
}

/// Whether a transport is left out when it is written.
pub fn is_tcp(t: &TransportKind) -> (r: bool)
    ensures
        r == (*t == TransportKind::Tcp),
{
    matches!(t, TransportKind::Tcp)
}

/// A clone of an optional text.
pub fn clone_text(o: &Option<String>) -> (r: Option<String>)
    ensures
        r == *o,
{
    match o {
        Some(s) => Some(s.clone()),
        None => None,
    }
}

/// One server that the client can connect to.
#[derive(Debug)]
pub struct ServerEntry {
    /// Unique label by which the server is selected.
    pub name: String,
    pub host: String,
    pub port: u16,
    pub transport: TransportKind,
    /// Pre-shared identity token.
    pub token: String,
    /// Base64 key of the Noise channel.
    pub noise_psk: String,
    /// TLS transports: skip certificate verification.
    pub tls_skip_verify: bool,
    /// TLS server name, if other than the host.
    pub server_name: Option<String>,
}

impl Clone for ServerEntry {
    fn clone(&self) -> (r: ServerEntry)
        ensures
            r == *self,
    {
        ServerEntry {
            name: self.name.clone(),
            host: self.host.clone(),
            port: self.port,
            transport: self.transport,
            token: self.token.clone(),
            noise_psk: self.noise_psk.clone(),
            tls_skip_verify: self.tls_skip_verify,
            server_name: clone_text(&self.server_name),
        }
    }
}

impl ServerEntry {
    /// The TLS server name: the override, or else the host.
    pub open spec fn tls_name(&self) -> Seq<char> {
        match self.server_name {
            Some(n) => n@,
            None => self.host@,
        }
    }

    /// The TLS server name: the override, or else the host.
    pub fn sni(&self) -> (r: String)
        ensures
            r@ == self.tls_name(),
    {
        match &self.server_name {
            Some(n) => n.clone(),
            None => self.host.clone(),
        }
    }
}

/// A clone of a server list.
pub fn clone_servers(v: &Vec<ServerEntry>) -> (r: Vec<ServerEntry>)
    ensures
        r@ == v@,
{
    let n: usize = v.len();
    let mut r: Vec<ServerEntry> = Vec::new();
    for i in 0..n
        invariant
            n == v@.len(),
            r@ == v@.take(i as int),
    {
        r.push(v[i].clone());
        assert(r@ =~= v@.take(i + 1));
    }
    assert(r@ =~= v@);
    r
}

/// A clone of a list of texts.
pub fn clone_texts(v: &Vec<String>) -> (r: Vec<String>)
    ensures
        r@ == v@,
{
    let n: usize = v.len();
    let mut r: Vec<String> = Vec::new();
    for i in 0..n
        invariant
            n == v@.len(),
            r@ == v@.take(i as int),
    {
        r.push(v[i].clone());
        assert(r@ =~= v@.take(i + 1));
    }
    assert(r@ =~= v@);
    r
}

/// One routing rule: this destination goes that way.
#[derive(Debug)]
pub struct RouteRule {
    /// A domain, an address or a network in CIDR notation.
    pub target: String,
    /// `tunnel` for the virtual interface, `direct` for the host's own default
    /// route, or the name of an interface.
    pub via: String,
    /// Gateway to use when `via` names an interface.
    pub gateway: Option<Ipv4Addr>,
}

impl Clone for RouteRule {
    fn clone(&self) -> (r: RouteRule)
        ensures
            r == *self,
    {
        RouteRule { target: self.target.clone(), via: self.via.clone(), gateway: self.gateway }
    }
}

/// A clone of a rule list.
pub fn clone_rules(v: &Vec<RouteRule>) -> (r: Vec<RouteRule>)
    ensures
        r@ == v@,
{
    let n: usize = v.len();
    let mut r: Vec<RouteRule> = Vec::new();
    for i in 0..n
        invariant
            n == v@.len(),
            r@ == v@.take(i as int),
    {
        r.push(v[i].clone());
        assert(r@ =~= v@.take(i + 1));
    }
    assert(r@ =~= v@);
    r
}

/// How the catch-all of the global mode and the rules work together.
#[derive(Clone, Copy, Debug, PartialEq, Eq, Structural)]
pub enum SplitMode {
    /// Everything goes through the tunnel; rules are exceptions.
    Blacklist,
    /// Nothing goes through the tunnel but what rules send there.
    Whitelist,
}

impl Default for SplitMode {
    fn default() -> (r: SplitMode)
        ensures
            r == SplitMode::Blacklist,
    {
        SplitMode::Blacklist
    }
}

/// The settings that the engine runs with.
#[derive(Debug)]
pub struct ClientConfig {
    pub name: String,
    /// Name of the active server; the first is used if it is unset or unknown.
    pub selected_server: Option<String>,
    pub mode: SessionMode,
    /// Virtual address to ask for.
    pub requested_ip: Option<Ipv4Addr>,
    /// Shown in the admin panel.
    pub client_name: Option<String>,
    pub tun_name: String,
    /// Where the local proxy listens.
    pub http_listen: String,
    /// Join the server's peer LAN in addition to what `mode` does.
    pub join_vpn: bool,
    /// A single server in flat fields, used only when `servers` is empty.
    pub server_host: String,
    pub server_port: u16,
    pub transport: TransportKind,
    pub token: String,
    pub noise_psk: String,
    pub tls_skip_verify: bool,
    pub server_name: Option<String>,
    pub servers: Vec<ServerEntry>,
    pub routes: Vec<RouteRule>,
    pub split_mode: SplitMode,
    /// Names of the servers to relay through, in order.
    pub chain: Vec<String>,
    /// Block the host's own IPv6 when the server has none.
    pub ipv6_killswitch: bool,
}

/// The first server with a name.
pub open spec fn server_named(servers: Seq<ServerEntry>, name: Seq<char>) -> Option<ServerEntry>
    decreases servers.len(),
{
    if servers.len() == 0 {
        None
    } else if servers[0].name@ == name {
        Some(servers[0])
    } else {
        server_named(servers.skip(1), name)
    }
}

/// The place of the first server with a name.
pub fn find_server(servers: &Vec<ServerEntry>, name: &str) -> (r: Option<usize>)
    ensures
        match server_named(servers@, name@) {
            Some(s) => r is Some && r->Some_0 < servers@.len() && servers@[r->Some_0 as int] == s,
            None => r is None,
        },
{
    let n: usize = servers.len();
    assert(servers@.skip(0) =~= servers@);
    for i in 0..n
        invariant
            n == servers@.len(),
            server_named(servers@, name@) == server_named(servers@.skip(i as int), name@),
    {
        if same(servers[i].name.as_str(), name) {
            return Some(i);
        }
        assert(servers@.skip(i as int).skip(1) =~= servers@.skip(i + 1));
    }
    None
}

/// The active one of some servers: the selected one, or the first if none is
/// selected or the selected name is unknown.
pub open spec fn active_of(servers: Seq<ServerEntry>, selected: Option<Seq<char>>) -> ServerEntry {
    match selected {
        Some(name) => match server_named(servers, name) {
            Some(s) => s,
            None => servers[0],
        },
        None => servers[0],
    }
}

fn active_index(servers: &Vec<ServerEntry>, selected: &Option<String>) -> (r: usize)
    requires
        servers@.len() > 0,
    ensures
        r < servers@.len(),
        servers@[r as int] == active_of(servers@, opt_view(*selected)),
{
    match selected {
        Some(name) => match find_server(servers, name.as_str()) {
            Some(i) => i,
            None => 0,
        },
        None => 0,
    }
}

/// Whether `e` is the server in the flat fields of a configuration.
pub open spec fn is_flat_server(e: ServerEntry, c: ClientConfig) -> bool {
    &&& e.name@ == "default"@
    &&& e.host@ == c.server_host@
    &&& e.port == c.server_port
    &&& e.transport == c.transport
    &&& e.token@ == c.token@
    &&& e.noise_psk@ == c.noise_psk@
    &&& e.tls_skip_verify == c.tls_skip_verify
    &&& opt_view(e.server_name) == opt_view(c.server_name)
}

/// The names of some servers.
pub open spec fn names(servers: Seq<ServerEntry>) -> Seq<Seq<char>> {
    servers.map_values(|s: ServerEntry| s.name@)
}

fn collect_names(servers: &Vec<ServerEntry>) -> (r: Vec<String>)
    ensures
        texts(r@) == names(servers@),
{
    let n: usize = servers.len();
    let mut r: Vec<String> = Vec::new();
    for i in 0..n
        invariant
            n == servers@.len(),
            r@.len() == i,
            forall|j: int| 0 <= j < i ==> (#[trigger] r@[j])@ == servers@[j].name@,
    {
        r.push(servers[i].name.clone());
    }
    assert(texts(r@) =~= names(servers@));
    r
}

impl ClientConfig {
    /// The active server: the selected one, else the first, else the one in the
    /// flat fields. A selection that matches no server falls back to the first.
    pub fn active_server(&self) -> (r: Result<ServerEntry, Error>)
        ensures
            if self.servers@.len() > 0 {
                r is Ok && r->Ok_0 == active_of(self.servers@, opt_view(self.selected_server))
            } else if self.server_host@.len() == 0 {
                r is Err && r->Err_0@ == Failure::Config("no servers configured"@)
            } else {
                r is Ok && is_flat_server(r->Ok_0, *self)
            },
    {
        if self.servers.len() > 0 {
            let i: usize = active_index(&self.servers, &self.selected_server);
            return Ok(self.servers[i].clone());
        }
        if self.server_host.as_str().unicode_len() == 0 {
            return Err(Error::Config("no servers configured".to_owned()));
        }
        Ok(
            ServerEntry {
                name: "default".to_owned(),
                host: self.server_host.clone(),
                port: self.server_port,
                transport: self.transport,
                token: self.token.clone(),
                noise_psk: self.noise_psk.clone(),
                tls_skip_verify: self.tls_skip_verify,
                server_name: clone_text(&self.server_name),
            },
        )
    }

    /// Names of all servers. A configuration with flat fields has one, `default`.
    pub fn server_names(&self) -> (r: Vec<String>)
        ensures
            texts(r@) == if self.servers@.len() == 0 {
                seq!["default"@]
            } else {
                names(self.servers@)
            },
    {
        if self.servers.len() == 0 {
            let r = vec!["default".to_owned()];
            assert(texts(r@) =~= seq!["default"@]);
            r
        } else {
            collect_names(&self.servers)
        }
    }

    /// Whether this is what a profile and some connection settings come to.
    pub open spec fn composes(&self, p: Profile, s: ConnectionSettings) -> bool {
        &&& self.name@ == p.name@
        &&& opt_view(self.selected_server) == opt_view(p.selected_server)
        &&& self.servers@ == p.servers@
        &&& self.mode == s.mode
        &&& self.requested_ip == s.requested_ip
        &&& opt_view(self.client_name) == opt_view(s.client_name)
        &&& self.tun_name@ == s.tun_name@
        &&& self.http_listen@ == s.http_listen@
        &&& self.join_vpn == s.join_vpn
        &&& self.routes@ == s.routes@
        &&& self.split_mode == s.split_mode
        &&& self.chain@ == s.chain@
        &&& self.ipv6_killswitch == s.ipv6_killswitch
        &&& self.server_host@.len() == 0
        &&& self.server_port == 0
        &&& self.transport == TransportKind::Tcp
        &&& self.token@.len() == 0
        &&& self.noise_psk@.len() == 0
        &&& !self.tls_skip_verify
        &&& self.server_name is None
    }

    /// What the engine runs with: every server of the profile, and the local
    /// connection settings. The flat fields stay empty.
    pub fn compose(profile: &Profile, s: &ConnectionSettings) -> (r: ClientConfig)
        ensures
            r.composes(*profile, *s),
    {
        ClientConfig {
            name: profile.name.clone(),
            selected_server: clone_text(&profile.selected_server),
            mode: s.mode,
            requested_ip: s.requested_ip,
            client_name: clone_text(&s.client_name),
            tun_name: s.tun_name.clone(),
            http_listen: s.http_listen.clone(),
            join_vpn: s.join_vpn,
            server_host: String::new(),
            server_port: 0,
            transport: default_transport(),
            token: String::new(),
            noise_psk: String::new(),
            tls_skip_verify: false,
            server_name: None,
            servers: clone_servers(&profile.servers),
            routes: clone_rules(&s.routes),
            split_mode: s.split_mode,
            chain: clone_texts(&s.chain),
            ipv6_killswitch: s.ipv6_killswitch,
        }
    }
}

/// A portable profile: servers only. Mode and device settings are chosen locally.
#[derive(Debug)]
pub struct Profile {
    pub name: String,
    /// Name of the active server; the first is used if it is unset or unknown.
    pub selected_server: Option<String>,
    pub servers: Vec<ServerEntry>,
}

/// Scheme of the portable profile link.
pub const LINK_SCHEME: &'static str = "entro://";

/// The bytes that a URL-safe base64 text writes, or what is wrong with it.
pub uninterp spec fn base64_url_bytes(s: Seq<char>) -> Result<Seq<u8>, Seq<char>>;

/// The bytes that a URL-safe base64 text without padding writes, or what is wrong
/// with it.
pub uninterp spec fn base64_url_bare_bytes(s: Seq<char>) -> Result<Seq<u8>, Seq<char>>;

/// Calls `decode` of `base64::engine::general_purpose::URL_SAFE`: its bytes, or
/// the text of its error, depend on the text alone. It reads base64 text in the
/// URL-safe alphabet, and nothing that is not padded.
#[verifier::external_body]
fn base64_url_decode(s: &str) -> (r: Result<Vec<u8>, String>)
    ensures
        decoded_view(r) == base64_url_bytes(s@),
        forall|b: Seq<u8>|
            fits_base64(b) && s@ == url_safe(#[trigger] base64_text(b)) ==> r is Ok && r->Ok_0@
                == b,
        forall|b: Seq<u8>|
            fits_base64(b) && s@ == unpadded(url_safe(#[trigger] base64_text(b))) && r is Ok
                ==> r->Ok_0@ == b,
{
    base64::Engine::decode(&base64::engine::general_purpose::URL_SAFE, s).map_err(|e| e.to_string())
}

/// Calls `decode` of `base64::engine::general_purpose::URL_SAFE_NO_PAD`: its bytes,
/// or the text of its error, depend on the text alone. It reads base64 text in the
/// URL-safe alphabet without its padding.
#[verifier::external_body]
fn base64_url_bare_decode(s: &str) -> (r: Result<Vec<u8>, String>)
    ensures
        decoded_view(r) == base64_url_bare_bytes(s@),
        forall|b: Seq<u8>|
            fits_base64(b) && s@ == unpadded(url_safe(#[trigger] base64_text(b))) ==> r is Ok
                && r->Ok_0@ == b,
{
    base64::Engine::decode(&base64::engine::general_purpose::URL_SAFE_NO_PAD, s).map_err(
        |e| e.to_string(),
    )
}

/// The base64 text of a link: without the scheme, if it has it, and without white
/// space around.
pub open spec fn link_body(s: Seq<char>) -> Seq<char> {
    let body = trimmed(s);
    match without_prefix(body, "entro://"@) {
        Some(rest) => trimmed(rest),
        None => trimmed(body),
    }
}

/// What a link carries, given what three decoders made of its text: the first
/// that can read it decides.
pub open spec fn link_from(
    standard: Result<Seq<u8>, Seq<char>>,
    url: Result<Seq<u8>, Seq<char>>,
    bare: Result<Seq<u8>, Seq<char>>,
) -> Result<Seq<u8>, Failure> {
    match standard {
        Ok(b) => Ok(b),
        Err(_) => match url {
            Ok(b) => Ok(b),
            Err(_) => match bare {
                Ok(b) => Ok(b),
                Err(e) => Err(Failure::Config("invalid config link (base64): "@ + e)),
            },
        },
    }
}

/// What a link carries.
pub open spec fn link_payload(s: Seq<char>) -> Result<Seq<u8>, Failure> {
    link_from(
        base64_bytes(link_body(s)),
        base64_url_bytes(link_body(s)),
        base64_url_bare_bytes(link_body(s)),
    )
}

/// What a link carries, given what three decoders made of its text.
pub fn link_from_decoded(
    standard: Result<Vec<u8>, String>,
    url: Result<Vec<u8>, String>,
    bare: Result<Vec<u8>, String>,
) -> (r: Result<Vec<u8>, Error>)
    ensures
        fails_as(r, link_from(decoded_view(standard), decoded_view(url), decoded_view(bare))),
        r is Ok ==> link_from(decoded_view(standard), decoded_view(url), decoded_view(bare)) == Ok::<
            Seq<u8>,
            Failure,
        >(r->Ok_0@),
{
    match standard {
        Ok(b) => Ok(b),
        Err(_) => match url {
            Ok(b) => Ok(b),
            Err(_) => match bare {
                Ok(b) => Ok(b),
                Err(e) => Err(
                    Error::Config("invalid config link (base64): ".to_owned().concat(e.as_str())),
                ),
            },
        },
    }
}

impl Profile {
    /// The active server: the selected one, else the first. A selection that
    /// matches no server falls back to the first.
    pub fn active_server(&self) -> (r: Result<ServerEntry, Error>)
        ensures
            if self.servers@.len() > 0 {
                r is Ok && r->Ok_0 == active_of(self.servers@, opt_view(self.selected_server))
            } else {
                r is Err && r->Err_0@ == Failure::Config("profile has no servers"@)
            },
    {
        if self.servers.len() == 0 {
            return Err(Error::Config("profile has no servers".to_owned()));
        }
        let i: usize = active_index(&self.servers, &self.selected_server);
        Ok(self.servers[i].clone())
    }

    /// Names of all servers.
    pub fn server_names(&self) -> (r: Vec<String>)
        ensures
            texts(r@) == names(self.servers@),
    {
        collect_names(&self.servers)
    }

    /// The link that carries a profile's JSON form: the scheme, then base64. Any
    /// reader of links gets exactly that form back, also without the scheme.
    pub fn encode_link(json: &[u8]) -> (r: String)
        requires
            fits_base64(json@),
        ensures
            r@ == "entro://"@ + base64_text(json@),
            is_link_text(base64_text(json@)),
            link_payload(r@) is Ok && link_payload(r@)->Ok_0 == json@,
            link_payload(base64_text(json@)) is Ok && link_payload(base64_text(json@))->Ok_0
                == json@,
    {
        let b64 = base64_encode(json);
        let r = LINK_SCHEME.to_owned().concat(b64.as_str());
        proof {
            reveal_strlit("entro://");
            let scheme = "entro://"@;
            let b = b64@;
            if b.len() > 0 {
                assert(is_base64(b[0]));
                assert(is_base64(b[b.len() - 1]));
                assert(r@.last() == b[b.len() - 1]);
            } else {
                assert(r@.last() == scheme[7]);
            }
            assert(r@[0] == 'e');
            lemma_trimmed_fixed(b);
            lemma_trimmed_fixed(r@);
            assert(r@.subrange(0, scheme.len() as int) =~= scheme);
            assert(r@.skip(scheme.len() as int) =~= b);
            assert(link_body(r@) == b);
            if occurs_at(b, scheme, 0) {
                assert(b.subrange(0, scheme.len() as int)[5] == ':');
                assert(is_base64(b[5]));
                assert(false);
            }
            assert(link_body(b) == b);
        }
        r
    }

    /// The JSON form that a link carries. The scheme may be missing, and the base64
    /// text may be standard or URL-safe, there with or without padding.
    pub fn decode_link(s: &str) -> (r: Result<Vec<u8>, Error>)
        ensures
            forall|b: Seq<u8>|
                fits_base64(b) && link_body(s@) == #[trigger] base64_text(b) ==> r is Ok
                    && r->Ok_0@ == b,
            forall|b: Seq<u8>|
                fits_base64(b) && link_body(s@) == url_safe(#[trigger] base64_text(b)) ==> r is Ok
                    && r->Ok_0@ == b,
            forall|b: Seq<u8>|
                fits_base64(b) && link_body(s@) == unpadded(url_safe(#[trigger] base64_text(b)))
                    ==> r is Ok && r->Ok_0@ == b,
            fails_as(r, link_payload(s@)),
            r is Ok ==> link_payload(s@) == Ok::<Seq<u8>, Failure>(r->Ok_0@),
    {
        let body = trim(s);
        let body = match strip_prefix(body.as_str(), LINK_SCHEME) {
            Some(rest) => trim(rest.as_str()),
            None => trim(body.as_str()),
        };
        let standard = base64_decode(body.as_str());
        let url = base64_url_decode(body.as_str());
        let bare = base64_url_bare_decode(body.as_str());
        link_from_decoded(standard, url, bare)
    }
}

impl Clone for Profile {
    fn clone(&self) -> (r: Profile)
        ensures
            r.name == self.name,
            r.selected_server == self.selected_server,
            r.servers@ == self.servers@,
    {
        Profile {
            name: self.name.clone(),
            selected_server: clone_text(&self.selected_server),
            servers: clone_servers(&self.servers),
        }
    }
}

/// Whether a text is made of base64 characters, of either alphabet, and padding.
pub open spec fn is_link_text(t: Seq<char>) -> bool {
    forall|i: int| 0 <= i < t.len() ==> is_base64(#[trigger] t[i]) || t[i] == '-' || t[i] == '_'
}

/// Base64 text in the other alphabet, or without its padding, is still base64 text.
pub proof fn lemma_link_text_forms(t: Seq<char>)
    requires
        is_link_text(t),
    ensures
        is_link_text(url_safe(t)),
        is_link_text(unpadded(t)),
    decreases t.len(),
{
    if t.len() > 0 && t.last() == '=' {
        assert forall|i: int| 0 <= i < t.drop_last().len() implies is_base64(
            #[trigger] t.drop_last()[i],
        ) || t.drop_last()[i] == '-' || t.drop_last()[i] == '_' by {
            assert(t.drop_last()[i] == t[i]);
        }
        lemma_link_text_forms(t.drop_last());
    }
    assert forall|i: int| 0 <= i < url_safe(t).len() implies is_base64(#[trigger] url_safe(t)[i])
        || url_safe(t)[i] == '-' || url_safe(t)[i] == '_' by {
        assert(is_base64(t[i]) || t[i] == '-' || t[i] == '_');
    }
}

/// The scheme of a link may be missing, and white space around it does not matter:
/// either way the link's base64 text is read.
pub proof fn law_link_text_is_found(before: Seq<char>, t: Seq<char>, after: Seq<char>)
    requires
        is_link_text(t),
        forall|i: int| 0 <= i < before.len() ==> is_white(#[trigger] before[i]),
        forall|i: int| 0 <= i < after.len() ==> is_white(#[trigger] after[i]),
    ensures
        link_body(before + ("entro://"@ + t) + after) == t,
        link_body(before + t + after) == t,
{
    reveal_strlit("entro://");
    let scheme = "entro://"@;
    let link = scheme + t;
    if t.len() > 0 {
        assert(is_base64(t[0]) || t[0] == '-' || t[0] == '_');
        assert(is_base64(t[t.len() - 1]) || t[t.len() - 1] == '-' || t[t.len() - 1] == '_');
        assert(link.last() == t[t.len() - 1]);
    } else {
        assert(link.last() == scheme[7]);
    }
    assert(link[0] == 'e');
    lemma_trimmed_fixed(t);
    lemma_trimmed_fixed(link);
    lemma_trimmed_padded(before, link, after);
    lemma_trimmed_padded(before, t, after);
    assert(link.subrange(0, scheme.len() as int) =~= scheme);
    assert(link.skip(scheme.len() as int) =~= t);
    if occurs_at(t, scheme, 0) {
        assert(t.subrange(0, scheme.len() as int)[5] == ':');
        assert(is_base64(t[5]) || t[5] == '-' || t[5] == '_');
        assert(false);
    }
}

/// White space around a link does not change what it carries.
pub proof fn law_link_white_space(before: Seq<char>, s: Seq<char>, after: Seq<char>)
    requires
        forall|i: int| 0 <= i < before.len() ==> is_white(#[trigger] before[i]),
        forall|i: int| 0 <= i < after.len() ==> is_white(#[trigger] after[i]),
    ensures
        link_payload(before + s + after) == link_payload(s),
{
    lemma_trimmed_padded(before, s, after);
}

/// A selection that no longer names any server, or none at all, means the first
/// server; one that does name a server means a server of that name.
pub proof fn law_active_server(servers: Seq<ServerEntry>, selected: Option<Seq<char>>)
    requires
        servers.len() > 0,
    ensures
        servers.contains(active_of(servers, selected)),
        selected is None ==> active_of(servers, selected) == servers[0],
        selected is Some && (forall|i: int|
            0 <= i < servers.len() ==> (#[trigger] servers[i]).name@ != selected->Some_0)
            ==> active_of(servers, selected) == servers[0],
        selected is Some && (exists|i: int|
            0 <= i < servers.len() && (#[trigger] servers[i]).name@ == selected->Some_0)
            ==> active_of(servers, selected).name@ == selected->Some_0,
{
    if let Some(name) = selected {
        lemma_server_named(servers, name);
    }
    assert(servers.contains(servers[0]));
}

/// A server found by name has that name and is in the list; none is found only
/// when no server has the name.
pub proof fn lemma_server_named(servers: Seq<ServerEntry>, name: Seq<char>)
    ensures
        match server_named(servers, name) {
            Some(s) => s.name@ == name && servers.contains(s),
            None => forall|i: int| 0 <= i < servers.len() ==> (#[trigger] servers[i]).name@ != name,
        },
    decreases servers.len(),
{
    if servers.len() > 0 {
        if servers[0].name@ == name {
            assert(servers.contains(servers[0]));
        } else {
            let tail = servers.skip(1);
            lemma_server_named(tail, name);
            match server_named(tail, name) {
                Some(s) => {
                    let i = choose|i: int| 0 <= i < tail.len() && tail[i] == s;
                    assert(servers[i + 1] == s);
                },
                None => {
                    assert forall|i: int| 0 <= i < servers.len() implies (
                    #[trigger] servers[i]).name@ != name by {
                        if i > 0 {
                            assert(tail[i - 1] == servers[i]);
                        }
                    }
                },
            }
        }
    }
}

/// Connection settings chosen on the device.
#[derive(Debug)]
pub struct ConnectionSettings {
    pub mode: SessionMode,
    pub requested_ip: Option<Ipv4Addr>,
    pub client_name: Option<String>,
    pub tun_name: String,
    pub http_listen: String,
    /// Join the server's peer LAN too.
    pub join_vpn: bool,
    pub routes: Vec<RouteRule>,
    pub split_mode: SplitMode,
    /// Names of the servers to relay through, in order.
    pub chain: Vec<String>,
    /// Block the host's own IPv6 in global mode when the server has none, so that
    /// it cannot bypass the tunnel.
    pub ipv6_killswitch: bool,
}

impl Default for ConnectionSettings {
    fn default() -> (r: ConnectionSettings)
        ensures
            r.mode == SessionMode::GlobalProxy,
            r.requested_ip is None,
            r.client_name is None,
            r.tun_name@ == "et0"@,
            r.http_listen@ == "127.0.0.1:7890"@,
            !r.join_vpn,
            r.routes@.len() == 0,
            r.split_mode == SplitMode::Blacklist,
            r.chain@.len() == 0,
            r.ipv6_killswitch,
    {
        ConnectionSettings {
            mode: SessionMode::GlobalProxy,
            requested_ip: None,
            client_name: None,
            tun_name: default_tun_name(),
            http_listen: default_http_listen(),
            join_vpn: false,
            routes: Vec::new(),
            split_mode: SplitMode::default(),
            chain: Vec::new(),
            ipv6_killswitch: true,
        }
    }
}

/// Profiles exported together.
#[derive(Debug)]
pub struct ProfileBundle {
    pub profiles: Vec<Profile>,
}

/// The view of a profile.
pub struct ProfileView {
    pub name: Seq<char>,
    pub selected_server: Option<Seq<char>>,
    pub servers: Seq<ServerEntry>,
}

impl View for Profile {
    type V = ProfileView;

    open spec fn view(&self) -> ProfileView {
        ProfileView {
            name: self.name@,
            selected_server: opt_view(self.selected_server),
            servers: self.servers@,
        }
    }
}

/// The profile in a single exported configuration.
pub open spec fn single_profile(c: ClientConfig) -> ProfileView {
    ProfileView {
        name: if c.name@.len() == 0 {
            "imported"@
        } else {
            c.name@
        },
        selected_server: opt_view(c.selected_server),
        servers: c.servers@,
    }
}

/// The views of some profiles.
pub open spec fn profile_views(v: Seq<Profile>) -> Seq<ProfileView> {
    v.map_values(|p: Profile| p@)
}

/// The profiles in an import, given what it reads as: a bundle that holds any, or
/// else a single configuration with servers.
pub open spec fn imported(
    bundle: Option<Seq<ProfileView>>,
    single: Result<ClientConfig, String>,
) -> Result<Seq<ProfileView>, Failure> {
    if bundle is Some && bundle->Some_0.len() > 0 {
        Ok(bundle->Some_0)
    } else {
        match single {
            Err(e) => Err(Failure::Config("not a profile bundle or client.toml: "@ + e@)),
            Ok(c) => if c.servers@.len() == 0 {
                Err(Failure::Config("TOML has no profiles and no [[servers]] to import"@))
            } else {
                Ok(seq![single_profile(c)])
            },
        }
    }
}

/// The profiles in an import, given what it reads as.
pub fn profiles_from_toml(
    bundle: Option<ProfileBundle>,
    single: Result<ClientConfig, String>,
) -> (r: Result<Vec<Profile>, Error>)
    ensures
        match imported(
            match bundle {
                Some(b) => Some(profile_views(b.profiles@)),
                None => None,
            },
            single,
        ) {
            Ok(v) => r is Ok && profile_views(r->Ok_0@) == v,
            Err(f) => r is Err && r->Err_0@ == f,
        },
{
    if let Some(b) = bundle {
        if b.profiles.len() > 0 {
            return Ok(b.profiles);
        }
    }
    match single {
        Err(e) => Err(
            Error::Config("not a profile bundle or client.toml: ".to_owned().concat(e.as_str())),
        ),
        Ok(c) => {
            if c.servers.len() == 0 {
                return Err(
                    Error::Config("TOML has no profiles and no [[servers]] to import".to_owned()),
                );
            }
            let name = if c.name.as_str().unicode_len() == 0 {
                "imported".to_owned()
            } else {
                c.name.clone()
            };
            let p = Profile {
                name,
                selected_server: clone_text(&c.selected_server),
                servers: clone_servers(&c.servers),
            };
            let r = vec![p];
            assert(profile_views(r@) =~= seq![single_profile(c)]);
            Ok(r)
        },
    }
}

/// Exporting a profile as a configuration and importing it again gives the profile
/// back; one without a name comes back as `imported`, and one without servers is
/// refused.
pub proof fn law_export_then_import(p: Profile, s: ConnectionSettings, c: ClientConfig)
    requires
        c.composes(p, s),
    ensures
        imported(None, Ok::<ClientConfig, String>(c)) == if p.servers@.len() == 0 {
            Err::<Seq<ProfileView>, Failure>(
                Failure::Config("TOML has no profiles and no [[servers]] to import"@),
            )
        } else if p.name@.len() == 0 {
            Ok(seq![(ProfileView { name: "imported"@, ..p@ })])
        } else {
            Ok(seq![p@])
        },
{
}

}
