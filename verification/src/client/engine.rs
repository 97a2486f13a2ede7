//! The client engine: how a session is planned, kept going, and taken up again.

use vstd::prelude::*;
use vstd::string::*;

use super::chain::{
    dials, endpoint_of, greeting, hops_of, make_hello, resolve_hops, secures, security_of,
};
use super::config::{
    active_of, clone_rules, clone_servers, clone_text, clone_texts, is_flat_server, ClientConfig,
    ServerEntry,
};
use crate::addr::{ip_parsed, ip_text, IpAddr, Ipv4Addr};
use crate::config::{psk_of, SessionMode};
use crate::error::{fails_as, Error, Failure};
use crate::protocol::control::{opt_view, views};
use crate::protocol::frame::{payload_len, FrameView};
use crate::protocol::{Frame, Hello, PeerInfo, Welcome};
use crate::text::texts;
use crate::transport::{ClientSecurity, Endpoint};
use crate::tun::TunConfig;

verus! {

/// How often a member of a peer LAN asks for the peer list, in seconds.
pub const PEER_REFRESH_SECS: u64 = 5;

/// Attempts to reconnect after a connection is lost. There is no delay between
/// them.
pub const RECONNECT_ATTEMPTS: u32 = 3;

/// How many outgoing packets are held while the tunnel is down.
pub const OUT_BUFFER_PACKETS: usize = 8192;

/// A frame that takes longer than this to write means that the connection is
/// wedged.
pub const SEND_TIMEOUT_SECS: u64 = 8;

/// If one direction keeps moving while the other is silent for this many seconds,
/// the tunnel is taken for half-open.
pub const STALL_SILENT_SECS: u64 = 1;

/// What a front end shows while the engine runs.
pub struct LiveStatus {
    /// The virtual address that the server assigned.
    pub assigned_ip: Option<Ipv4Addr>,
    /// The peers on the server.
    pub peers: Vec<PeerInfo>,
    /// Payload bytes sent.
    pub up_bytes: u64,
    /// Payload bytes received.
    pub down_bytes: u64,
}

/// The sum of two counts, at most the largest count.
pub open spec fn capped_sum(a: u64, n: nat) -> u64 {
    if a + n <= u64::MAX {
        (a + n) as u64
    } else {
        u64::MAX
    }
}

impl Default for LiveStatus {
    fn default() -> (r: LiveStatus)
        ensures
            r.assigned_ip is None,
            r.peers@.len() == 0,
            r.up_bytes == 0,
            r.down_bytes == 0,
    {
        LiveStatus { assigned_ip: None, peers: Vec::new(), up_bytes: 0, down_bytes: 0 }
    }
}

impl LiveStatus {
    /// Whether `post` is this status with bytes counted.
    pub open spec fn counted(&self, up: nat, down: nat, post: LiveStatus) -> bool {
        &&& post.assigned_ip == self.assigned_ip
        &&& post.peers == self.peers
        &&& post.up_bytes == capped_sum(self.up_bytes, up)
        &&& post.down_bytes == capped_sum(self.down_bytes, down)
    }

    /// Counts payload bytes sent. The count stops at its largest value.
    pub fn add_traffic_up(&mut self, n: usize)
        ensures
            old(self).counted(n as nat, 0, *final(self)),
    {
        self.up_bytes = self.up_bytes.saturating_add(n as u64);
    }

    /// Counts payload bytes received. The count stops at its largest value.
    pub fn add_traffic_down(&mut self, n: usize)
        ensures
            old(self).counted(0, n as nat, *final(self)),
    {
        self.down_bytes = self.down_bytes.saturating_add(n as u64);
    }

    /// The bytes sent and received so far.
    pub fn traffic_counters(&self) -> (r: (u64, u64))
        ensures
            r == (self.up_bytes, self.down_bytes),
    {
        (self.up_bytes, self.down_bytes)
    }
}

impl Clone for ClientConfig {
    fn clone(&self) -> (r: ClientConfig)
        ensures
            r.same_as(*self),
    {
        ClientConfig {
            name: self.name.clone(),
            selected_server: clone_text(&self.selected_server),
            mode: self.mode,
            requested_ip: self.requested_ip,
            client_name: clone_text(&self.client_name),
            tun_name: self.tun_name.clone(),
            http_listen: self.http_listen.clone(),
            join_vpn: self.join_vpn,
            server_host: self.server_host.clone(),
            server_port: self.server_port,
            transport: self.transport,
            token: self.token.clone(),
            noise_psk: self.noise_psk.clone(),
            tls_skip_verify: self.tls_skip_verify,
            server_name: clone_text(&self.server_name),
            servers: clone_servers(&self.servers),
            routes: clone_rules(&self.routes),
            split_mode: self.split_mode,
            chain: clone_texts(&self.chain),
            ipv6_killswitch: self.ipv6_killswitch,
        }
    }
}

impl ClientConfig {
    /// Whether two configurations agree in everything but the session's course:
    /// mode, selected server, chain, peer LAN and device name.
    pub open spec fn same_base(&self, o: ClientConfig) -> bool {
        &&& self.name == o.name
        &&& self.requested_ip == o.requested_ip
        &&& self.client_name == o.client_name
        &&& self.http_listen == o.http_listen
        &&& self.server_host == o.server_host
        &&& self.server_port == o.server_port
        &&& self.transport == o.transport
        &&& self.token == o.token
        &&& self.noise_psk == o.noise_psk
        &&& self.tls_skip_verify == o.tls_skip_verify
        &&& self.server_name == o.server_name
        &&& self.servers@ == o.servers@
        &&& self.routes@ == o.routes@
        &&& self.split_mode == o.split_mode
        &&& self.ipv6_killswitch == o.ipv6_killswitch
    }

    /// Whether two configurations agree in everything.
    pub open spec fn same_as(&self, o: ClientConfig) -> bool {
        &&& self.same_base(o)
        &&& self.selected_server == o.selected_server
        &&& self.mode == o.mode
        &&& self.tun_name == o.tun_name
        &&& self.join_vpn == o.join_vpn
        &&& self.chain@ == o.chain@
    }
}

/// How a session is to be run.
pub enum SessionPlan {
    /// Relayed over these servers, in order.
    Chain(Vec<ServerEntry>),
    /// Directly on this server.
    Single(ServerEntry),
}

/// The engine.
pub struct Engine;

/// The servers that a configuration's chain names.
pub open spec fn chain_of(cfg: ClientConfig) -> Seq<ServerEntry> {
    hops_of(texts(cfg.chain@), cfg.servers@)
}

impl Engine {
    /// How a session is to be run: over a chain if at least two of its names are
    /// known, otherwise on the active server.
    pub fn plan(cfg: &ClientConfig) -> (r: Result<SessionPlan, Error>)
        ensures
            is_plan(*cfg, r),
            if cfg.chain@.len() > 0 && chain_of(*cfg).len() >= 2 {
                r is Ok && r->Ok_0 is Chain && r->Ok_0->Chain_0@ == chain_of(*cfg)
            } else if cfg.servers@.len() > 0 {
                r is Ok && r->Ok_0 is Single && r->Ok_0->Single_0 == active_of(
                    cfg.servers@,
                    opt_view(cfg.selected_server),
                )
            } else if cfg.server_host@.len() == 0 {
                r is Err && r->Err_0@ == Failure::Config("no servers configured"@)
            } else {
                r is Ok && r->Ok_0 is Single && is_flat_server(r->Ok_0->Single_0, *cfg)
            },
    {
        if cfg.chain.len() > 0 {
            let hops = resolve_hops(&cfg.chain, &cfg.servers);
            if hops.len() >= 2 {
                return Ok(SessionPlan::Chain(hops));
            }
        }
        match cfg.active_server() {
            Ok(s) => Ok(SessionPlan::Single(s)),
            Err(e) => Err(e),
        }
    }
}

/// Whether a session takes part in the peer LAN.
pub open spec fn is_member(cfg: ClientConfig) -> bool {
    cfg.mode == SessionMode::Vpn || cfg.join_vpn
}

/// Whether a session takes part in the peer LAN.
pub fn member(cfg: &ClientConfig) -> (r: bool)
    ensures
        r == is_member(*cfg),
{
    cfg.mode == SessionMode::Vpn || cfg.join_vpn
}

/// A connection to make, and the greeting to send on it.
pub struct Direct {
    pub endpoint: Endpoint,
    pub security: ClientSecurity,
    pub hello: Hello,
}

/// Whether `d` is how a session starts on a server.
pub open spec fn starts(d: Direct, cfg: ClientConfig, s: ServerEntry) -> bool {
    &&& dials(d.endpoint, s)
    &&& secures(d.security, s, psk_of(s.noise_psk@)->Ok_0)
    &&& d.hello@ == greeting(
        s.token@,
        cfg.mode,
        cfg.requested_ip,
        opt_view(cfg.client_name),
        cfg.join_vpn,
    )
}

/// How a session starts on a server. Fails as the server's key does.
pub fn run_session(cfg: &ClientConfig, s: &ServerEntry) -> (r: Result<Direct, Error>)
    ensures
        fails_as(r, psk_of(s.noise_psk@)),
        r is Ok ==> starts(r->Ok_0, *cfg, *s),
{
    let endpoint = endpoint_of(s);
    match security_of(s) {
        Ok(security) => Ok(
            Direct {
                endpoint,
                security,
                hello: make_hello(s, cfg.mode, cfg.requested_ip, &cfg.client_name, cfg.join_vpn),
            },
        ),
        Err(e) => Err(e),
    }
}

/// Whether `d` is how a lost session is taken up again: the server is dialed by
/// the address it had, since names may not resolve while the tunnel is down, but
/// under its own name; and the client asks for the address it had.
pub open spec fn resumes(
    d: Direct,
    cfg: ClientConfig,
    s: ServerEntry,
    server_ip: IpAddr,
    assigned: Ipv4Addr,
) -> bool {
    &&& d.endpoint.host@ == ip_text(server_ip)
    &&& d.endpoint.port == s.port
    &&& d.endpoint.kind == s.transport
    &&& d.endpoint.ws_path@ == "/et"@
    &&& d.endpoint.server_name@ == s.tls_name()
    &&& secures(d.security, s, psk_of(s.noise_psk@)->Ok_0)
    &&& d.hello@ == greeting(
        s.token@,
        cfg.mode,
        Some(assigned),
        opt_view(cfg.client_name),
        cfg.join_vpn,
    )
}

/// How a lost session is taken up again. Fails as the server's key does.
pub fn reconnect(
    cfg: &ClientConfig,
    s: &ServerEntry,
    server_ip: IpAddr,
    assigned: Ipv4Addr,
) -> (r: Result<Direct, Error>)
    ensures
        fails_as(r, psk_of(s.noise_psk@)),
        r is Ok ==> resumes(r->Ok_0, *cfg, *s, server_ip, assigned),
{
    let security = match security_of(s) {
        Ok(c) => c,
        Err(e) => return Err(e),
    };
    Ok(
        Direct {
            endpoint: Endpoint {
                host: server_ip.to_text(),
                port: s.port,
                kind: s.transport,
                ws_path: "/et".to_owned(),
                server_name: s.sni(),
            },
            security,
            hello: make_hello(s, cfg.mode, Some(assigned), &cfg.client_name, cfg.join_vpn),
        },
    )
}

/// How a session runs once it is established.
#[derive(Clone, Copy, Debug, PartialEq, Eq, Structural)]
pub enum Run {
    /// Packets between a TUN device and the server.
    Packets,
    /// Streams between a local proxy and the server. `system` says that the
    /// system's proxy setting is pointed at it meanwhile.
    Proxy { system: bool },
}

/// How a session runs once it is established.
pub fn run_of(mode: SessionMode) -> (r: Run)
    ensures
        r == run_for(mode),
        r == match mode {
            SessionMode::GlobalProxy => Run::Packets,
            SessionMode::Vpn => Run::Packets,
            SessionMode::HttpProxy => Run::Proxy { system: false },
            SessionMode::SystemProxy => Run::Proxy { system: true },
        },
{
    match mode {
        SessionMode::GlobalProxy | SessionMode::Vpn => Run::Packets,
        SessionMode::HttpProxy => Run::Proxy { system: false },
        SessionMode::SystemProxy => Run::Proxy { system: true },
    }
}

/// How a session over a chain begins.
pub enum ChainPlan {
    /// Not over the chain at all: a VPN session is one on the first hop's LAN.
    FirstHop(ClientConfig),
    /// Over the chain, with a LAN session on the first hop beside it if asked for.
    Egress { lan: Option<ClientConfig> },
}

/// Whether `c` is `cfg` for a session on the first hop alone.
pub open spec fn first_hop_only(c: ClientConfig, cfg: ClientConfig, hop0: ServerEntry) -> bool {
    &&& c.same_base(cfg)
    &&& c.mode == cfg.mode
    &&& c.join_vpn == cfg.join_vpn
    &&& c.tun_name == cfg.tun_name
    &&& c.chain@.len() == 0
    &&& opt_view(c.selected_server) == Some(hop0.name@)
}

/// Whether `c` is `cfg` for a LAN session on the first hop beside the chain. Its
/// device has a name of its own.
pub open spec fn lan_beside(c: ClientConfig, cfg: ClientConfig, hop0: ServerEntry) -> bool {
    &&& c.same_base(cfg)
    &&& c.mode == SessionMode::Vpn
    &&& !c.join_vpn
    &&& c.tun_name@ == cfg.tun_name@ + "v"@
    &&& c.chain@.len() == 0
    &&& opt_view(c.selected_server) == Some(hop0.name@)
}

/// The LAN session on the first hop beside a chain.
pub fn spawn_vpn_lan(cfg: &ClientConfig, hop0: &ServerEntry) -> (r: ClientConfig)
    ensures
        lan_beside(r, *cfg, *hop0),
{
    let mut c = cfg.clone();
    c.mode = SessionMode::Vpn;
    c.join_vpn = false;
    c.chain = Vec::new();
    c.selected_server = Some(hop0.name.clone());
    c.tun_name = cfg.tun_name.clone().concat("v");
    c
}

/// How a session over a chain begins.
pub fn run_chain_session(cfg: &ClientConfig, hops: &Vec<ServerEntry>) -> (r: ChainPlan)
    requires
        hops@.len() > 0,
    ensures
        is_chain_plan(*cfg, hops@[0], r),
        if cfg.mode == SessionMode::Vpn {
            r is FirstHop && first_hop_only(r->FirstHop_0, *cfg, hops@[0])
        } else {
            &&& r is Egress
            &&& r->lan is Some <==> cfg.join_vpn
            &&& r->lan is Some ==> lan_beside(r->lan->Some_0, *cfg, hops@[0])
        },
{
    if cfg.mode == SessionMode::Vpn {
        let mut c = cfg.clone();
        c.chain = Vec::new();
        c.selected_server = Some(hops[0].name.clone());
        return ChainPlan::FirstHop(c);
    }
    if cfg.join_vpn {
        ChainPlan::Egress { lan: Some(spawn_vpn_lan(cfg, &hops[0])) }
    } else {
        ChainPlan::Egress { lan: None }
    }
}

/// A first hop pinned to an address, given what its host reads as. A host name
/// stays its TLS name.
pub open spec fn pinned(
    s: ServerEntry,
    literal: Option<IpAddr>,
    found: IpAddr,
    r: ServerEntry,
) -> bool {
    &&& r.name == s.name
    &&& r.host@ == ip_text(found)
    &&& r.port == s.port
    &&& r.transport == s.transport
    &&& r.token == s.token
    &&& r.noise_psk == s.noise_psk
    &&& r.tls_skip_verify == s.tls_skip_verify
    &&& opt_view(r.server_name) == if s.server_name is None && literal is None {
        Some(s.host@)
    } else {
        opt_view(s.server_name)
    }
}

/// A first hop pinned to an address, given what its host reads as.
pub fn pin_with(s: &ServerEntry, literal: Option<IpAddr>, found: IpAddr) -> (r: ServerEntry)
    ensures
        pinned(*s, literal, found, r),
{
    let mut r = s.clone();
    if s.server_name.is_none() && literal.is_none() {
        r.server_name = Some(s.host.clone());
    }
    r.host = found.to_text();
    r
}

/// The hops with the first pinned to the address it has now, so that the chain can
/// be rebuilt while names do not resolve. If no address was found, they stay as
/// they are.
pub fn pin_first_hop(hops: Vec<ServerEntry>, found: Option<IpAddr>) -> (r: Vec<ServerEntry>)
    requires
        hops@.len() > 0,
    ensures
        r@.len() == hops@.len(),
        forall|i: int| 1 <= i < hops@.len() ==> #[trigger] r@[i] == hops@[i],
        match found {
            Some(ip) => pinned(hops@[0], ip_parsed(hops@[0].host@), ip, r@[0]),
            None => r@[0] == hops@[0],
        },
{
    match found {
        Some(ip) => {
            let literal = IpAddr::parse(hops[0].host.as_str());
            let first = pin_with(&hops[0], literal, ip);
            let mut out = hops;
            out.set(0, first);
            out
        },
        None => hops,
    }
}

/// Pinning a hop that is dialed by name keeps the name under which TLS checks it.
pub proof fn law_pinning_keeps_tls_name(
    s: ServerEntry,
    literal: Option<IpAddr>,
    found: IpAddr,
    r: ServerEntry,
)
    requires
        pinned(s, literal, found, r),
        literal is None || s.server_name is Some,
    ensures
        r.tls_name() == s.tls_name(),
{
}

/// Watches for half-open tunnels by the traffic alone.
pub struct StallMonitor {
    pub last_up: u64,
    pub last_down: u64,
    /// For how many seconds exactly one direction has been moving.
    pub silent_secs: u64,
}

impl StallMonitor {
    /// It has not found a stall yet.
    pub open spec fn wf(&self) -> bool {
        self.silent_secs < STALL_SILENT_SECS
    }

    /// A monitor that starts at some counts.
    pub fn new(up: u64, down: u64) -> (r: StallMonitor)
        ensures
            r.wf(),
            r.last_up == up,
            r.last_down == down,
            r.silent_secs == 0,
    {
        StallMonitor { last_up: up, last_down: down, silent_secs: 0 }
    }

    /// Looks at the counts, once a second. Returns whether the tunnel is stalled:
    /// one direction has been moving, and the other not, for long enough.
    pub fn tick(&mut self, up: u64, down: u64) -> (stalled: bool)
        requires
            old(self).wf(),
        ensures
            final(self).last_up == up,
            final(self).last_down == down,
            match watched(
                (old(self).last_up, old(self).last_down),
                old(self).silent_secs as nat,
                (up, down),
            ) {
                Some(n) => !stalled && final(self).silent_secs == n && final(self).wf(),
                None => stalled,
            },
    {
        let up_moved = up > self.last_up;
        let down_moved = down > self.last_down;
        self.last_up = up;
        self.last_down = down;
        if up_moved != down_moved {
            self.silent_secs = self.silent_secs + 1;
            self.silent_secs >= STALL_SILENT_SECS
        } else {
            self.silent_secs = 0;
            false
        }
    }
}

/// The seconds of one-sided traffic, after `silent` of them, when the counts go
/// from `last` to `now`: one more if exactly one direction moved, none otherwise.
/// None if there are now so many that the tunnel is stalled.
pub open spec fn watched(last: (u64, u64), silent: nat, now: (u64, u64)) -> Option<nat> {
    if (now.0 > last.0) == (now.1 > last.1) {
        Some(0)
    } else if silent + 1 >= STALL_SILENT_SECS {
        None
    } else {
        Some(silent + 1)
    }
}

/// The seconds of one-sided traffic after looking at some counts in turn. None
/// once a stall was found.
pub open spec fn silence_after(
    last: (u64, u64),
    silent: nat,
    counts: Seq<(u64, u64)>,
) -> Option<nat>
    decreases counts.len(),
{
    if counts.len() == 0 {
        Some(silent)
    } else {
        match watched(last, silent, counts[0]) {
            Some(n) => silence_after(counts[0], n, counts.skip(1)),
            None => None,
        }
    }
}

/// A tunnel on which, in every second, both directions move or neither does, is
/// never taken for stalled, however long it runs.
pub proof fn law_idle_or_busy_never_stalls(last: (u64, u64), counts: Seq<(u64, u64)>)
    requires
        forall|i: int|
            0 <= i < counts.len() ==> {
                let before = if i == 0 {
                    last
                } else {
                    counts[i - 1]
                };
                (#[trigger] counts[i].0 > before.0) == (counts[i].1 > before.1)
            },
    ensures
        silence_after(last, 0, counts) == Some(0nat),
    decreases counts.len(),
{
    if counts.len() > 0 {
        let tail = counts.skip(1);
        assert forall|i: int| 0 <= i < tail.len() implies {
            let before = if i == 0 {
                counts[0]
            } else {
                tail[i - 1]
            };
            (#[trigger] tail[i].0 > before.0) == (tail[i].1 > before.1)
        } by {
            assert(tail[i] == counts[i + 1]);
        }
        law_idle_or_busy_never_stalls(counts[0], tail);
    }
}

/// What happens on the way from the TUN device to the server.
pub enum UpEvent {
    /// It is time for a keepalive.
    Keepalive,
    /// It is time to ask for the peer list.
    PeersDue,
    /// The device produced a packet.
    Packet(Vec<u8>),
    /// The device is gone.
    DeviceGone,
}

/// What to do about it.
pub enum UpAction {
    Send(Frame),
    Nothing,
    /// Stop for good.
    Stop,
}

/// What to do on the way to the server.
pub fn uplink(e: UpEvent, member: bool) -> (r: UpAction)
    ensures
        sends_up(e, member, r),
        match e {
            UpEvent::Keepalive => r is Send && r->Send_0@ == FrameView::Ping,
            UpEvent::PeersDue => if member {
                r is Send && r->Send_0@ == FrameView::GetPeers
            } else {
                r is Nothing
            },
            UpEvent::Packet(p) => r is Send && r->Send_0@ == FrameView::Packet(p@),
            UpEvent::DeviceGone => r is Stop,
        },
{
    match e {
        UpEvent::Keepalive => UpAction::Send(Frame::Ping),
        UpEvent::PeersDue => if member {
            UpAction::Send(Frame::GetPeers)
        } else {
            UpAction::Nothing
        },
        UpEvent::Packet(p) => UpAction::Send(Frame::Packet(p)),
        UpEvent::DeviceGone => UpAction::Stop,
    }
}

/// Counts a frame that was written to the server.
pub fn on_sent(status: &mut LiveStatus, frame: &Frame)
    ensures
        old(status).counted(payload_len(frame@), 0, *final(status)),
{
    match frame {
        Frame::Packet(p) => status.add_traffic_up(p.len()),
        Frame::StreamData { data, .. } => status.add_traffic_up(data.len()),
        _ => {},
    }
}

/// What a frame from the server makes the client do.
pub enum DownAction {
    /// Write a packet to the TUN device.
    ToTun(Vec<u8>),
    /// Send a frame to the server.
    Reply(Frame),
    Nothing,
}

/// Handles a frame from the server in a packet mode.
pub fn downlink(status: &mut LiveStatus, frame: Frame) -> (r: DownAction)
    ensures
        brings_down(*old(status), frame@, *final(status), r),
        match frame@ {
            FrameView::Packet(p) => r is ToTun && r->ToTun_0@ == p && old(status).counted(
                0,
                p.len(),
                *final(status),
            ),
            FrameView::PeerList { peers } => {
                &&& r is Nothing
                &&& views(final(status).peers@) == peers
                &&& final(status).assigned_ip == old(status).assigned_ip
                &&& final(status).up_bytes == old(status).up_bytes
                &&& final(status).down_bytes == old(status).down_bytes
            },
            FrameView::Ping => r is Reply && r->Reply_0@ == FrameView::Pong && *final(status)
                == *old(status),
            _ => r is Nothing && *final(status) == *old(status),
        },
{
    match frame {
        Frame::Packet(p) => {
            status.add_traffic_down(p.len());
            DownAction::ToTun(p)
        },
        Frame::PeerList { peers } => {
            status.peers = peers;
            DownAction::Nothing
        },
        Frame::Ping => DownAction::Reply(Frame::Pong),
        _ => DownAction::Nothing,
    }
}

/// Why bridging a connection ended.
#[derive(Clone, Copy, Debug, PartialEq, Eq, Structural)]
pub enum BridgeEnd {
    /// The user ended the session.
    Cancelled,
    /// The TUN device is gone.
    DeviceGone,
    /// Writing to the server failed or took too long.
    WriterDied,
    /// Reading from the server failed.
    ReaderDied,
    /// The tunnel is half-open.
    Stalled,
}

/// What the end of a connection means.
#[derive(Clone, Copy, Debug, PartialEq, Eq, Structural)]
pub enum ConnEnd {
    /// The session is over.
    Cancelled,
    /// The connection was lost: try to reconnect.
    Lost,
}

/// What the end of a connection means.
pub fn bridge_connection(e: BridgeEnd) -> (r: ConnEnd)
    ensures
        r == end_of(e),
        r == if e == BridgeEnd::Cancelled || e == BridgeEnd::DeviceGone {
            ConnEnd::Cancelled
        } else {
            ConnEnd::Lost
        },
{
    match e {
        BridgeEnd::Cancelled | BridgeEnd::DeviceGone => ConnEnd::Cancelled,
        _ => ConnEnd::Lost,
    }
}

/// What the engine does next in a packet mode.
#[derive(Clone, Copy, Debug, PartialEq, Eq, Structural)]
pub enum NextStep {
    /// Close the session and restore the network.
    Stop,
    /// Reconnect, asking for this address; the number of the attempt.
    Dial { attempt: u32, requested_ip: Ipv4Addr },
    /// Bridge the new connection.
    Resume,
}

/// A packet session across reconnects. The TUN device and the routes stay up
/// meanwhile.
pub struct PacketSession {
    /// The address that routes were set up for.
    pub assigned_ip: Ipv4Addr,
    /// The attempt to reconnect that is under way, or 0.
    pub attempt: u32,
}

/// What follows the `n`-th failed attempt in a row.
pub open spec fn after_failures(n: nat, requested_ip: Ipv4Addr) -> NextStep {
    if n < RECONNECT_ATTEMPTS {
        NextStep::Dial { attempt: (n + 1) as u32, requested_ip }
    } else {
        NextStep::Stop
    }
}

impl PacketSession {
    /// No more attempts are made than allowed.
    pub open spec fn wf(&self) -> bool {
        self.attempt <= RECONNECT_ATTEMPTS
    }

    /// A session that was assigned an address.
    pub fn new(assigned_ip: Ipv4Addr) -> (r: PacketSession)
        ensures
            r.wf(),
            r.assigned_ip == assigned_ip,
            r.attempt == 0,
    {
        PacketSession { assigned_ip, attempt: 0 }
    }

    /// What follows once a connection has ended.
    pub open spec fn ends(
        &self,
        end: ConnEnd,
        cancelled: bool,
        r: NextStep,
        post: PacketSession,
    ) -> bool {
        &&& post.assigned_ip == self.assigned_ip
        &&& if end == ConnEnd::Cancelled || cancelled {
            r == NextStep::Stop && post.attempt == self.attempt
        } else {
            r == after_failures(0, self.assigned_ip) && post.attempt == 1
        }
    }

    /// What follows once an attempt to reconnect is over.
    pub open spec fn redials(
        &self,
        welcomed: Option<Ipv4Addr>,
        cancelled: bool,
        r: NextStep,
        post: PacketSession,
    ) -> bool {
        &&& post.assigned_ip == self.assigned_ip
        &&& r == if cancelled {
            NextStep::Stop
        } else if welcomed is Some {
            NextStep::Resume
        } else {
            after_failures(self.attempt as nat, self.assigned_ip)
        }
        &&& post.attempt == match r {
            NextStep::Stop => self.attempt as int,
            NextStep::Dial { .. } => self.attempt + 1,
            NextStep::Resume => 0,
        }
    }

    /// What to do when a connection has ended; `cancelled` says that the user ended
    /// the session.
    pub fn ended(&mut self, end: ConnEnd, cancelled: bool) -> (r: NextStep)
        requires
            old(self).wf(),
        ensures
            final(self).wf(),
            old(self).ends(end, cancelled, r, *final(self)),
            final(self).assigned_ip == old(self).assigned_ip,
            if end == ConnEnd::Cancelled || cancelled {
                r == NextStep::Stop && final(self).attempt == old(self).attempt
            } else {
                r == after_failures(0, old(self).assigned_ip) && final(self).attempt == 1
            },
    {
        if end == ConnEnd::Cancelled || cancelled {
            return NextStep::Stop;
        }
        self.attempt = 1;
        NextStep::Dial { attempt: 1, requested_ip: self.assigned_ip }
    }

    /// What to do after an attempt to reconnect: `welcomed` is the address assigned
    /// if it worked.
    pub fn redialed(
        &mut self,
        welcomed: Option<Ipv4Addr>,
        cancelled: bool,
        status: &mut LiveStatus,
    ) -> (r: NextStep)
        requires
            old(self).wf(),
        ensures
            final(self).wf(),
            old(self).redials(welcomed, cancelled, r, *final(self)),
            final(self).assigned_ip == old(self).assigned_ip,
            final(status).assigned_ip == match welcomed {
                Some(ip) => Some(ip),
                None => old(status).assigned_ip,
            },
            final(status).peers == old(status).peers,
            final(status).up_bytes == old(status).up_bytes,
            final(status).down_bytes == old(status).down_bytes,
            r == if cancelled {
                NextStep::Stop
            } else if welcomed is Some {
                NextStep::Resume
            } else {
                after_failures(old(self).attempt as nat, old(self).assigned_ip)
            },
            final(self).attempt == match r {
                NextStep::Stop => old(self).attempt as int,
                NextStep::Dial { .. } => old(self).attempt + 1,
                NextStep::Resume => 0,
            },
    {
        if let Some(ip) = welcomed {
            status.assigned_ip = Some(ip);
        }
        if cancelled {
            return NextStep::Stop;
        }
        if welcomed.is_some() {
            self.attempt = 0;
            return NextStep::Resume;
        }
        if self.attempt < RECONNECT_ATTEMPTS {
            self.attempt = self.attempt + 1;
            NextStep::Dial { attempt: self.attempt, requested_ip: self.assigned_ip }
        } else {
            NextStep::Stop
        }
    }
}

/// A lost connection is redialed at once, each time for the same address, and
/// given up after [`RECONNECT_ATTEMPTS`] failures in a row.
pub proof fn law_reconnects_are_bounded(n: nat, ip: Ipv4Addr)
    ensures
        n < RECONNECT_ATTEMPTS ==> after_failures(n, ip) == (NextStep::Dial {
            attempt: (n + 1) as u32,
            requested_ip: ip,
        }),
        n >= RECONNECT_ATTEMPTS ==> after_failures(n, ip) == NextStep::Stop,
{
}

/// Takes note of the address assigned to a new session.
pub fn established(status: &mut LiveStatus, w: &Welcome)
    ensures
        final(status).assigned_ip == Some(w.assigned_ip),
        final(status).peers == old(status).peers,
        final(status).up_bytes == old(status).up_bytes,
        final(status).down_bytes == old(status).down_bytes,
{
    status.assigned_ip = Some(w.assigned_ip);
}

/// The TUN device of a session, and how long a packet read from it may be.
pub fn run_packet_mode(tun_name: &str, w: &Welcome) -> (r: (TunConfig, usize))
    ensures
        r.0.name@ == tun_name@,
        r.0.ip == w.assigned_ip,
        r.0.prefix_len == w.prefix_len,
        r.0.mtu == w.mtu,
        r.1 == if w.mtu >= 2048 {
            w.mtu as usize
        } else {
            2048
        },
{
    (
        TunConfig {
            name: tun_name.to_owned(),
            ip: w.assigned_ip,
            prefix_len: w.prefix_len,
            mtu: w.mtu,
        },
        if w.mtu >= 2048 {
            w.mtu as usize
        } else {
            2048
        },
    )
}

/// What is done about an event on the way up.
pub open spec fn sends_up(e: UpEvent, member: bool, r: UpAction) -> bool {
    match e {
        UpEvent::Keepalive => r is Send && r->Send_0@ == FrameView::Ping,
        UpEvent::PeersDue => if member {
            r is Send && r->Send_0@ == FrameView::GetPeers
        } else {
            r is Nothing
        },
        UpEvent::Packet(p) => r is Send && r->Send_0@ == FrameView::Packet(p@),
        UpEvent::DeviceGone => r is Stop,
    }
}

/// What is done about a frame on the way down.
pub open spec fn brings_down(
    pre: LiveStatus,
    f: FrameView,
    post: LiveStatus,
    r: DownAction,
) -> bool {
    match f {
        FrameView::Packet(p) => r is ToTun && r->ToTun_0@ == p && pre.counted(0, p.len(), post),
        FrameView::PeerList { peers } => {
            &&& r is Nothing
            &&& views(post.peers@) == peers
            &&& post.assigned_ip == pre.assigned_ip
            &&& post.up_bytes == pre.up_bytes
            &&& post.down_bytes == pre.down_bytes
        },
        FrameView::Ping => r is Reply && r->Reply_0@ == FrameView::Pong && post == pre,
        _ => r is Nothing && post == pre,
    }
}

/// What the end of a bridge means for the session.
pub open spec fn end_of(e: BridgeEnd) -> ConnEnd {
    if e == BridgeEnd::Cancelled || e == BridgeEnd::DeviceGone {
        ConnEnd::Cancelled
    } else {
        ConnEnd::Lost
    }
}

/// What runs in each mode.
pub open spec fn run_for(mode: SessionMode) -> Run {
    match mode {
        SessionMode::GlobalProxy => Run::Packets,
        SessionMode::Vpn => Run::Packets,
        SessionMode::HttpProxy => Run::Proxy { system: false },
        SessionMode::SystemProxy => Run::Proxy { system: true },
    }
}

/// Over which servers a session of a configuration runs.
pub open spec fn is_plan(cfg: ClientConfig, r: Result<SessionPlan, Error>) -> bool {
    if cfg.chain@.len() > 0 && chain_of(cfg).len() >= 2 {
        r is Ok && r->Ok_0 is Chain && r->Ok_0->Chain_0@ == chain_of(cfg)
    } else if cfg.servers@.len() > 0 {
        r is Ok && r->Ok_0 is Single && r->Ok_0->Single_0 == active_of(
            cfg.servers@,
            opt_view(cfg.selected_server),
        )
    } else if cfg.server_host@.len() == 0 {
        r is Err && r->Err_0@ == Failure::Config("no servers configured"@)
    } else {
        r is Ok && r->Ok_0 is Single && is_flat_server(r->Ok_0->Single_0, cfg)
    }
}

/// How a session over a chain is run.
pub open spec fn is_chain_plan(cfg: ClientConfig, hop0: ServerEntry, r: ChainPlan) -> bool {
    if cfg.mode == SessionMode::Vpn {
        r is FirstHop && first_hop_only(r->FirstHop_0, cfg, hop0)
    } else {
        &&& r is Egress
        &&& r->lan is Some <==> cfg.join_vpn
        &&& r->lan is Some ==> lan_beside(r->lan->Some_0, cfg, hop0)
    }
}

}
