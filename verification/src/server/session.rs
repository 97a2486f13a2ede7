//! Sessions: who is admitted, what each frame of a client makes the server do,
//! and how packets find their session.

use std::collections::HashSet;
use vstd::prelude::*;
use vstd::std_specs::hash::*;
use vstd::string::*;

use super::config::{net6_of, peer_with, prefix_of, PeerConfig, ServerConfig};
use super::metrics::Metrics;
use super::router::{lists_online, Online, Router};
use crate::addr::{ipv4_net_parsed, span6, IpAddr, Ipv4Addr, Ipv4Net, Ipv6Addr, Ipv6Net};
use crate::bytes::{be128_at, be32_at, get_be128, get_be32};
use crate::client::chain::{answered, greeting};
use crate::config::{carries_streams, random_session_id, SessionMode};
use crate::error::Failure;
use crate::protocol::control::{target_text, views, HelloView, PeerInfoView, WelcomeView};
use crate::protocol::frame::{payload_len, FrameView};
use crate::protocol::{Frame, Hello, PeerInfo, TargetAddr, Welcome};
use crate::text::{decimal, decimal_text};
use crate::{DEAD_LINK_SECS, PROTOCOL_VERSION};

verus! {

broadcast use vstd::std_specs::hash::group_hash_axioms;

/// A client's IPv6 address, as a number: the leading 96 bits of the subnet's
/// lowest address, followed by the client's IPv4 address.
pub open spec fn derived6(base: nat, v4: u32) -> nat {
    (base - base % 0x1_0000_0000 + v4) as nat
}

/// Derives a client's virtual IPv6 address from the subnet and the client's pinned
/// IPv4 address: `10.66.0.2` in `fd66::/64` becomes `fd66::a42:2`.
pub fn derive_ipv6(subnet6: &Ipv6Net, v4: Ipv4Addr) -> (r: Ipv6Addr)
    requires
        subnet6.wf(),
    ensures
        r.bits == derived6(subnet6.base(), v4.bits),
{
    let base: u128 = subnet6.network().bits;
    Ipv6Addr { bits: base - base % 0x1_0000_0000 + v4.bits as u128 }
}

/// Clients with different IPv4 addresses get different IPv6 addresses.
pub proof fn law_derived_addresses_differ(base: nat, a: u32, b: u32)
    requires
        a != b,
    ensures
        derived6(base, a) != derived6(base, b),
{
}

/// A derived address lies in the subnet, if the subnet leaves 32 bits for it.
pub proof fn law_derived_address_in_subnet(net: Ipv6Net, v4: u32)
    requires
        net.prefix_len <= 96,
    ensures
        derived6(net.base(), v4) / span6(net.prefix_len) == net.addr.bits as nat / span6(
            net.prefix_len,
        ),
{
    let span = span6(net.prefix_len);
    let k = (96 - net.prefix_len) as nat;
    let low = vstd::arithmetic::power2::pow2(32);
    vstd::arithmetic::power2::lemma2_to64();
    vstd::arithmetic::power2::lemma2_to64_rest();
    vstd::arithmetic::power2::lemma_pow2_adds(k, 32);
    vstd::arithmetic::power2::lemma_pow2_pos(k);
    let h = vstd::arithmetic::power2::pow2(k);
    assert(span == h * low);
    assert(low == 0x1_0000_0000);
    let q = net.addr.bits as nat / span;
    assert(span > 0) by (nonlinear_arith)
        requires
            span == h * low,
            h > 0,
            low > 0,
    ;
    vstd::arithmetic::div_mod::lemma_fundamental_div_mod(net.addr.bits as int, span as int);
    assert(net.base() == span * q);
    assert(net.base() == low * (h * q)) by (nonlinear_arith)
        requires
            net.base() == span * q,
            span == h * low,
    ;
    vstd::arithmetic::div_mod::lemma_mod_multiples_basic((h * q) as int, low as int);
    assert(net.base() % 0x1_0000_0000 == 0) by {
        assert(low * (h * q) == (h * q) * low) by (nonlinear_arith);
    }
    let d = derived6(net.base(), v4);
    assert(d == span * q + v4);
    assert(low <= span) by (nonlinear_arith)
        requires
            span == h * low,
            h > 0,
    ;
    vstd::arithmetic::div_mod::lemma_fundamental_div_mod_converse(
        d as int,
        span as int,
        q as int,
        v4 as int,
    );
}

/// What the server makes of a client's first frame.
pub enum Verdict {
    /// It is no greeting: the connection is dropped.
    Ignore,
    /// The client is told why not.
    Refuse(Seq<char>),
    /// The client is let in as this peer.
    Admit(PeerConfig, HelloView),
}

/// What a client with another protocol version is told.
pub open spec fn version_refusal(version: u16) -> Seq<char> {
    "protocol version mismatch (server "@ + decimal(PROTOCOL_VERSION as nat) + ", client "@
        + decimal(version as nat) + ")"@
}

/// What the server makes of a client's first frame.
pub open spec fn verdict(peers: Seq<PeerConfig>, first: FrameView) -> Verdict {
    match first {
        FrameView::Hello(h) => if h.version != PROTOCOL_VERSION {
            Verdict::Refuse(version_refusal(h.version))
        } else {
            match peer_with(peers, h.token) {
                None => Verdict::Refuse("unknown token"@),
                Some(p) => if !p.enabled {
                    Verdict::Refuse("peer is disabled"@)
                } else if h.mode == SessionMode::GlobalProxy && !p.allow_global {
                    Verdict::Refuse("global proxy not allowed for this peer"@)
                } else {
                    Verdict::Admit(p, h)
                },
            }
        },
        _ => Verdict::Ignore,
    }
}

/// The IPv6 address a client gets, if the server has IPv6 egress and a subnet.
pub open spec fn assigned6(ipv6: bool, net: Option<(u128, u8)>, ip: Ipv4Addr) -> Option<Ipv6Addr> {
    match net {
        Some((bits, len)) => if ipv6 {
            Some(
                Ipv6Addr {
                    bits: derived6(
                        (Ipv6Net { addr: Ipv6Addr { bits }, prefix_len: len }).base(),
                        ip.bits,
                    ) as u128,
                },
            )
        } else {
            None
        },
        None => None,
    }
}

/// The welcome of a peer, given what the subnet settings parse to.
pub open spec fn welcome_from(
    cfg: ServerConfig,
    net4: Option<(u32, u8)>,
    net6: Option<(u128, u8)>,
    ipv6: bool,
    ip: Ipv4Addr,
    session_id: u128,
) -> WelcomeView {
    let has6 = ipv6 && net6 is Some;
    WelcomeView {
        session_id,
        assigned_ip: ip,
        prefix_len: match prefix_of(cfg.network.subnet@, net4) {
            Ok(n) => n,
            Err(_) => 24,
        },
        gateway: cfg.network.gateway,
        mtu: cfg.network.mtu,
        dns: cfg.network.dns@,
        assigned_ip6: assigned6(ipv6, net6, ip),
        prefix6: if has6 {
            net6->Some_0.1
        } else {
            0
        },
        gateway6: if has6 {
            cfg.network.gateway6
        } else {
            None
        },
        dns6: if has6 {
            cfg.network.dns6@
        } else {
            Seq::empty()
        },
    }
}

/// The welcome of a peer.
pub open spec fn welcome_of(
    cfg: ServerConfig,
    ipv6: bool,
    ip: Ipv4Addr,
    session_id: u128,
) -> WelcomeView {
    welcome_from(
        cfg,
        ipv4_net_parsed(cfg.network.subnet@),
        net6_of(cfg.network.subnet6),
        ipv6,
        ip,
        session_id,
    )
}

/// Where an IP packet is going: the destination in its header.
pub open spec fn destination(pkt: Seq<u8>) -> Option<IpAddr> {
    if pkt.len() >= 20 && pkt[0] / 16 == 4 {
        Some(IpAddr::V4(Ipv4Addr { bits: be32_at(pkt, 16) }))
    } else if pkt.len() >= 40 && pkt[0] / 16 == 6 {
        Some(IpAddr::V6(Ipv6Addr { bits: be128_at(pkt, 24) }))
    } else {
        None
    }
}

/// Where an IP packet is going.
pub fn packet_destination(pkt: &[u8]) -> (r: Option<IpAddr>)
    ensures
        r == destination(pkt@),
{
    let n: usize = pkt.len();
    if n < 20 {
        return None;
    }
    let version: u8 = pkt[0] / 16;
    if version == 4 {
        Some(IpAddr::V4(Ipv4Addr { bits: get_be32(pkt, 16) }))
    } else if version == 6 && n >= 40 {
        Some(IpAddr::V6(Ipv6Addr { bits: get_be128(pkt, 24) }))
    } else {
        None
    }
}

/// Whether a client's packet may pass, given what the subnet settings parse to:
/// packets to the gateway and inside the virtual subnet always, packets to the
/// outside only from peers that may use the server as their way to the internet.
/// What has no destination to judge by passes too.
pub open spec fn may_pass_from(
    cfg: ServerConfig,
    net4: Option<(u32, u8)>,
    net6: Option<(u128, u8)>,
    allow_global: bool,
    pkt: Seq<u8>,
) -> bool {
    match destination(pkt) {
        None => true,
        Some(IpAddr::V4(d)) => {
            ||| allow_global
            ||| d == cfg.network.gateway
            ||| match net4 {
                Some((bits, len)) => (Ipv4Net {
                    addr: Ipv4Addr { bits },
                    prefix_len: len,
                }).holds(d.bits),
                None => false,
            }
        },
        Some(IpAddr::V6(d)) => {
            ||| allow_global
            ||| Some(d) == cfg.network.gateway6
            ||| match net6 {
                Some((bits, len)) => (Ipv6Net {
                    addr: Ipv6Addr { bits },
                    prefix_len: len,
                }).holds(d.bits),
                None => false,
            }
        },
    }
}

/// Whether a client's packet may pass.
pub open spec fn may_pass(cfg: ServerConfig, allow_global: bool, pkt: Seq<u8>) -> bool {
    may_pass_from(
        cfg,
        ipv4_net_parsed(cfg.network.subnet@),
        net6_of(cfg.network.subnet6),
        allow_global,
        pkt,
    )
}

/// The view of an IPv4 network as address and prefix length.
pub open spec fn net4_view(n: Option<Ipv4Net>) -> Option<(u32, u8)> {
    match n {
        Some(n) => Some((n.addr.bits, n.prefix_len)),
        None => None,
    }
}

/// The view of an IPv6 network as address and prefix length.
pub open spec fn net6_view(n: Option<Ipv6Net>) -> Option<(u128, u8)> {
    match n {
        Some(n) => Some((n.addr.bits, n.prefix_len)),
        None => None,
    }
}

/// Whether a client's packet may pass, given the virtual networks.
pub fn packet_may_pass(
    cfg: &ServerConfig,
    net4: Option<Ipv4Net>,
    net6: Option<Ipv6Net>,
    allow_global: bool,
    pkt: &[u8],
) -> (r: bool)
    requires
        net4 is Some ==> net4->Some_0.wf(),
        net6 is Some ==> net6->Some_0.wf(),
    ensures
        r == may_pass_from(*cfg, net4_view(net4), net6_view(net6), allow_global, pkt@),
{
    match packet_destination(pkt) {
        None => true,
        Some(IpAddr::V4(d)) => allow_global || d == cfg.network.gateway || match net4 {
            Some(n) => n.contains(d),
            None => false,
        },
        Some(IpAddr::V6(d)) => allow_global || match cfg.network.gateway6 {
            Some(g) => d == g,
            None => false,
        } || match net6 {
            Some(n) => n.contains(d),
            None => false,
        },
    }
}

/// The welcome of a peer, given the virtual networks.
pub fn make_welcome(
    cfg: &ServerConfig,
    prefix_len: Option<u8>,
    net6: Option<Ipv6Net>,
    ipv6: bool,
    ip: Ipv4Addr,
    session_id: u128,
) -> (r: Welcome)
    requires
        net6 is Some ==> net6->Some_0.wf(),
    ensures
        forall|net4: Option<(u32, u8)>|
            (match net4 {
                Some((_, len)) => prefix_len == Some(len),
                None => prefix_len is None,
            }) ==> r@ == #[trigger] welcome_from(
                *cfg,
                net4,
                net6_view(net6),
                ipv6,
                ip,
                session_id,
            ),
{
    let dns = copy4(&cfg.network.dns);
    let (assigned_ip6, prefix6, gateway6, dns6) = match net6 {
        Some(n) if ipv6 => (
            Some(derive_ipv6(&n, ip)),
            n.prefix_len,
            cfg.network.gateway6,
            copy6(&cfg.network.dns6),
        ),
        _ => (None, 0u8, None, Vec::new()),
    };
    Welcome {
        session_id,
        assigned_ip: ip,
        prefix_len: match prefix_len {
            Some(n) => n,
            None => 24,
        },
        gateway: cfg.network.gateway,
        mtu: cfg.network.mtu,
        dns,
        assigned_ip6,
        prefix6,
        gateway6,
        dns6,
    }
}

fn copy4(v: &Vec<Ipv4Addr>) -> (r: Vec<Ipv4Addr>)
    ensures
        r@ == v@,
{
    let n: usize = v.len();
    let mut r: Vec<Ipv4Addr> = Vec::new();
    for i in 0..n
        invariant
            n == v@.len(),
            r@ == v@.take(i as int),
    {
        r.push(v[i]);
        assert(r@ =~= v@.take(i + 1));
    }
    assert(r@ =~= v@);
    r
}

fn copy6(v: &Vec<Ipv6Addr>) -> (r: Vec<Ipv6Addr>)
    ensures
        r@ == v@,
{
    let n: usize = v.len();
    let mut r: Vec<Ipv6Addr> = Vec::new();
    for i in 0..n
        invariant
            n == v@.len(),
            r@ == v@.take(i as int),
    {
        r.push(v[i]);
        assert(r@ =~= v@.take(i + 1));
    }
    assert(r@ =~= v@);
    r
}

/// An admitted client.
pub struct Session {
    /// The number by which the router knows the session.
    pub id: u64,
    pub peer: PeerConfig,
    pub mode: SessionMode,
    /// Whether the client is part of the peer LAN.
    pub vpn_member: bool,
    /// The proxy streams that are open.
    pub streams: HashSet<u32>,
}

/// What came of a connection's first frame.
pub enum Opening {
    /// Drop the connection.
    Ignored,
    /// Send this and drop the connection.
    Refused(Frame),
    /// Send this and serve the session.
    Accepted(Session, Frame),
}

/// What a client's frame makes the server do.
pub enum Action {
    Nothing,
    /// Write a packet to the TUN device.
    ToTun(Vec<u8>),
    /// Queue a frame for the client.
    Reply(Frame),
    /// Dial a target and pump bytes for the stream.
    Dial { id: u32, target: TargetAddr },
    /// Hand bytes to a stream's connection; drop them if it cannot take them now.
    ToStream { id: u32, data: Vec<u8> },
    /// Stop a stream's connection.
    Hangup { id: u32 },
}

/// State shared by the connection handlers and the admin API.
pub struct AppState {
    pub config: ServerConfig,
    pub router: Router,
    pub metrics: Metrics,
    /// Whether the server has a TUN device.
    pub tun: bool,
    /// Whether the server has IPv6 egress, and offers IPv6 to clients.
    pub ipv6: bool,
    /// The number of the next session.
    pub next_id: u64,
}

/// The other members of the peer LAN among the online peers.
pub open spec fn members(online: Seq<(Ipv4Addr, Online)>, me: Ipv4Addr) -> Seq<PeerInfoView>
    decreases online.len(),
{
    if online.len() == 0 {
        Seq::empty()
    } else {
        let (ip, o) = online.last();
        let before = members(online.drop_last(), me);
        if ip != me && o.vpn_member {
            before.push(PeerInfoView { ip, name: o.name@, ip6: o.ip6 })
        } else {
            before
        }
    }
}

/// The other members of the peer LAN among the online peers.
pub fn other_members(online: &Vec<(Ipv4Addr, Online)>, me: Ipv4Addr) -> (r: Vec<PeerInfo>)
    ensures
        views(r@) == members(online@, me),
{
    let n: usize = online.len();
    let mut out: Vec<PeerInfo> = Vec::new();
    assert(online@.take(0) =~= Seq::<(Ipv4Addr, Online)>::empty());
    assert(views(out@) =~= Seq::<PeerInfoView>::empty());
    for i in 0..n
        invariant
            n == online@.len(),
            views(out@) == members(online@.take(i as int), me),
    {
        assert(online@.take(i + 1).drop_last() =~= online@.take(i as int));
        let ip = online[i].0;
        let o = &online[i].1;
        if ip != me && o.vpn_member {
            let ghost before = views(out@);
            let p = PeerInfo { ip, name: o.name.clone(), ip6: o.ip6 };
            out.push(p);
            assert(views(out@) =~= before.push(p@));
        }
    }
    assert(online@.take(n as int) =~= online@);
    out
}

/// A client is never listed to itself, and only members are listed.
pub proof fn law_peer_list(online: Seq<(Ipv4Addr, Online)>, me: Ipv4Addr, i: int)
    requires
        0 <= i < members(online, me).len(),
    ensures
        members(online, me)[i].ip != me,
        exists|j: int|
            0 <= j < online.len() && (#[trigger] online[j]).0 == members(online, me)[i].ip
                && online[j].1.vpn_member,
    decreases online.len(),
{
    if online.len() > 0 {
        let (ip, o) = online.last();
        let before = members(online.drop_last(), me);
        if ip != me && o.vpn_member && i == before.len() {
            assert(online[online.len() - 1].0 == ip);
        } else {
            law_peer_list(online.drop_last(), me, i);
            let j = choose|j: int|
                0 <= j < online.drop_last().len() && (#[trigger] online.drop_last()[j]).0
                    == members(online.drop_last(), me)[i].ip && online.drop_last()[j].1.vpn_member;
            assert(online[j] == online.drop_last()[j]);
        }
    }
}

impl AppState {
    /// The router and the metrics are well-formed, and session numbers are fresh.
    pub open spec fn wf(&self) -> bool {
        &&& self.router.wf()
        &&& self.metrics.wf()
        &&& forall|id: u64| #[trigger] self.router.sessions@.dom().contains(id) ==> id < self.next_id
    }

    /// Whether `post` differs from this state in the router and the metrics at
    /// most.
    pub open spec fn same_setup(&self, post: AppState) -> bool {
        &&& post.config == self.config
        &&& post.tun == self.tun
        &&& post.ipv6 == self.ipv6
    }

    /// Whether `s` is the session and `post` the state after admitting the peer
    /// `p` that sent `h` from `addr`.
    pub open spec fn admits(
        &self,
        p: PeerConfig,
        h: HelloView,
        addr: Seq<char>,
        now: u64,
        s: Session,
        post: AppState,
    ) -> bool {
        let member = h.mode == SessionMode::Vpn || h.join_vpn;
        &&& self.same_setup(post)
        &&& post.wf()
        &&& post.next_id == self.next_id + 1
        &&& post.metrics == self.metrics
        &&& s.id == self.next_id
        &&& s.peer == p
        &&& s.mode == h.mode
        &&& s.vpn_member == member
        &&& s.streams@ == Set::<u32>::empty()
        &&& post.router.sessions@.dom().contains(s.id)
        &&& {
            let e = post.router.sessions@[s.id];
            &&& self.router.registers(s.id, e, post.router)
            &&& e.ip == p.ip
            &&& e.token@ == p.token@
            &&& e.counters.up == 0
            &&& e.counters.down == 0
            &&& e.connected == now
            &&& e.info.name@ == p.name@
            &&& e.info.mode == h.mode
            &&& e.info.addr@ == addr
            &&& e.info.vpn_member == member
            &&& e.info.ip6 == assigned6(self.ipv6, net6_of(self.config.network.subnet6), p.ip)
        }
    }

    /// Whether `r` and `post` are what comes of a connection's first frame, with
    /// `session_id` for an admitted session.
    pub open spec fn opens(
        &self,
        first: FrameView,
        addr: Seq<char>,
        now: u64,
        session_id: u128,
        r: Opening,
        post: AppState,
    ) -> bool {
        match verdict(self.config.peers@, first) {
            Verdict::Ignore => r is Ignored && post == *self,
            Verdict::Refuse(reason) => r is Refused && r->Refused_0@ == (FrameView::Reject {
                reason,
            }) && post == *self,
            Verdict::Admit(p, h) => {
                &&& r is Accepted
                &&& r->Accepted_1@ == FrameView::Welcome(
                    welcome_of(self.config, self.ipv6, p.ip, session_id),
                )
                &&& self.admits(p, h, addr, now, r->Accepted_0, post)
            },
        }
    }

    /// Handles a connection's first frame, with `session_id` for an admitted
    /// session.
    pub fn open_with(
        &mut self,
        first: &Frame,
        peer_addr: &str,
        now: u64,
        session_id: u128,
    ) -> (r: Opening)
        requires
            old(self).wf(),
            old(self).next_id < u64::MAX,
        ensures
            final(self).wf(),
            old(self).opens(first@, peer_addr@, now, session_id, r, *final(self)),
    {
        let hello = match first {
            Frame::Hello(h) => h,
            _ => return Opening::Ignored,
        };
        if hello.version != PROTOCOL_VERSION {
            let reason = "protocol version mismatch (server ".to_owned().concat(
                decimal_text(PROTOCOL_VERSION as u64).as_str(),
            ).concat(", client ").concat(decimal_text(hello.version as u64).as_str()).concat(")");
            return Opening::Refused(Frame::Reject { reason });
        }
        let peer = match self.config.find_peer(hello.token.as_str()) {
            Some(p) => p.clone(),
            None => {
                return Opening::Refused(Frame::Reject { reason: "unknown token".to_owned() });
            },
        };
        if !peer.enabled {
            return Opening::Refused(Frame::Reject { reason: "peer is disabled".to_owned() });
        }
        if hello.mode == SessionMode::GlobalProxy && !peer.allow_global {
            return Opening::Refused(
                Frame::Reject { reason: "global proxy not allowed for this peer".to_owned() },
            );
        }
        let prefix_len = match self.config.prefix_len() {
            Ok(n) => Some(n),
            Err(_) => None,
        };
        let net6 = self.config.subnet6_net();
        let ghost parsed4 = ipv4_net_parsed(self.config.network.subnet@);
        let welcome = make_welcome(
            &self.config,
            prefix_len,
            net6,
            self.ipv6,
            peer.ip,
            session_id,
        );
        assert(net6_view(net6) == net6_of(self.config.network.subnet6));
        assert(welcome@ == welcome_from(
            self.config,
            parsed4,
            net6_view(net6),
            self.ipv6,
            peer.ip,
            session_id,
        ));
        let vpn_member = hello.mode == SessionMode::Vpn || hello.join_vpn;
        let id: u64 = self.next_id;
        let info = Online {
            name: peer.name.clone(),
            mode: hello.mode,
            addr: peer_addr.to_owned(),
            vpn_member,
            ip6: welcome.assigned_ip6,
        };
        self.router.register(id, peer.ip, info, peer.token.clone(), now);
        self.next_id = id + 1;
        let s = Session { id, peer, mode: hello.mode, vpn_member, streams: HashSet::new() };
        Opening::Accepted(s, Frame::Welcome(welcome))
    }

    /// Handles a connection's first frame: looks the client up by its token,
    /// registers its session and answers. A refused client leaves no trace.
    pub fn open(&mut self, first: &Frame, peer_addr: &str, now: u64) -> (r: Opening)
        requires
            old(self).wf(),
            old(self).next_id < u64::MAX,
        ensures
            final(self).wf(),
            exists|session_id: u128| #[trigger]
                old(self).opens(first@, peer_addr@, now, session_id, r, *final(self)),
    {
        let session_id: u128 = random_session_id();
        self.open_with(first, peer_addr, now, session_id)
    }

    /// Whether `post` is this state with `n` bytes from the session's client
    /// counted.
    pub open spec fn counts_up(&self, id: u64, n: u64, post: AppState) -> bool {
        &&& self.same_setup(post)
        &&& post.next_id == self.next_id
        &&& self.router.counts(id, n, 0, post.router)
        &&& self.metrics.same_but_totals(post.metrics)
        &&& post.metrics.total_up == self.metrics.total_up.wrapping_add(n)
        &&& post.metrics.total_down == self.metrics.total_down
    }

    /// Whether `post` is this state with `n` bytes to the session's client counted.
    pub open spec fn counts_down(&self, id: u64, n: u64, post: AppState) -> bool {
        &&& self.same_setup(post)
        &&& post.next_id == self.next_id
        &&& self.router.counts(id, 0, n, post.router)
        &&& self.metrics.same_but_totals(post.metrics)
        &&& post.metrics.total_down == self.metrics.total_down.wrapping_add(n)
        &&& post.metrics.total_up == self.metrics.total_up
    }

    fn count_up(&mut self, id: u64, n: u64)
        requires
            old(self).wf(),
        ensures
            final(self).wf(),
            old(self).counts_up(id, n, *final(self)),
    {
        self.router.count_up(id, n);
        self.metrics.add_up(n);
        proof {
            assert forall|t: Seq<char>| #[trigger] self.metrics.record(t) == old(
                self,
            ).metrics.record(t) by {}
        }
    }

    /// Whether a client's packets are taken at all: in the packet modes, and from
    /// members of the peer LAN in the others.
    pub open spec fn takes_packets(s: Session) -> bool {
        !carries_streams(s.mode) || s.vpn_member
    }

    /// Whether `post`, `s2` and `r` are what a frame of the client makes of this
    /// state and the session `s`.
    pub open spec fn reacts(
        &self,
        s: Session,
        f: FrameView,
        post: AppState,
        s2: Session,
        r: Action,
    ) -> bool {
        &&& s2.id == s.id
        &&& s2.peer == s.peer
        &&& s2.mode == s.mode
        &&& s2.vpn_member == s.vpn_member
        &&& match f {
            FrameView::Packet(p) => {
                &&& self.counts_up(s.id, p.len() as u64, post)
                &&& s2.streams@ == s.streams@
                &&& if Self::takes_packets(s) && self.tun && may_pass(
                    self.config,
                    s.peer.allow_global,
                    p,
                ) {
                    r is ToTun && r->ToTun_0@ == p
                } else {
                    r is Nothing
                }
            },
            FrameView::Ping => post == *self && s2.streams@ == s.streams@ && r is Reply
                && r->Reply_0@ == FrameView::Pong,
            FrameView::GetPeers => {
                &&& post == *self
                &&& s2.streams@ == s.streams@
                &&& r is Reply
                &&& exists|l: Seq<(Ipv4Addr, Online)>| #[trigger]
                    lists_online(l, self.router) && r->Reply_0@ == (FrameView::PeerList {
                        peers: members(l, s.peer.ip),
                    })
            },
            FrameView::StreamOpen { id, target } => {
                &&& post == *self
                &&& if s.peer.allow_http_proxy {
                    s2.streams@ == s.streams@.insert(id) && r is Dial && r->Dial_id == id
                        && r->target@ == target
                } else {
                    s2.streams@ == s.streams@ && r is Reply && r->Reply_0@
                        == (FrameView::StreamClose {
                        id,
                        error: Some("http proxy not allowed for this peer"@),
                    })
                }
            },
            FrameView::StreamData { id, data } => {
                &&& self.counts_up(s.id, data.len() as u64, post)
                &&& s2.streams@ == s.streams@
                &&& if s.streams@.contains(id) {
                    r is ToStream && r->ToStream_id == id && r->data@ == data
                } else {
                    r is Nothing
                }
            },
            FrameView::StreamClose { id, error } => post == *self && s2.streams@
                == s.streams@.remove(id) && r is Hangup && r->Hangup_id == id,
            _ => post == *self && s2.streams@ == s.streams@ && r is Nothing,
        }
    }

    /// Handles a frame of an admitted client.
    pub fn on_frame(&mut self, s: &mut Session, frame: Frame) -> (r: Action)
        requires
            old(self).wf(),
        ensures
            final(self).wf(),
            old(self).reacts(*old(s), frame@, *final(self), *final(s), r),
    {
        match frame {
            Frame::Packet(pkt) => {
                self.count_up(s.id, pkt.len() as u64);
                let net4 = match Ipv4Net::parse(self.config.network.subnet.as_str()) {
                    Ok(n) => Some(n),
                    Err(_) => None,
                };
                let net6 = self.config.subnet6_net();
                assert(net4_view(net4) == ipv4_net_parsed(self.config.network.subnet@));
                assert(net6_view(net6) == net6_of(self.config.network.subnet6));
                if (!s.mode.is_stream() || s.vpn_member) && self.tun && packet_may_pass(
                    &self.config,
                    net4,
                    net6,
                    s.peer.allow_global,
                    pkt.as_slice(),
                ) {
                    Action::ToTun(pkt)
                } else {
                    Action::Nothing
                }
            },
            Frame::Ping => Action::Reply(Frame::Pong),
            Frame::GetPeers => {
                let online = self.router.online();
                let peers = other_members(&online, s.peer.ip);
                Action::Reply(Frame::PeerList { peers })
            },
            Frame::StreamOpen { id, target } => {
                if s.peer.allow_http_proxy {
                    s.streams.insert(id);
                    Action::Dial { id, target }
                } else {
                    Action::Reply(
                        Frame::StreamClose {
                            id,
                            error: Some("http proxy not allowed for this peer".to_owned()),
                        },
                    )
                }
            },
            Frame::StreamData { id, data } => {
                self.count_up(s.id, data.len() as u64);
                if s.streams.contains(&id) {
                    Action::ToStream { id, data }
                } else {
                    Action::Nothing
                }
            },
            Frame::StreamClose { id, error } => {
                s.streams.remove(&id);
                Action::Hangup { id }
            },
            _ => Action::Nothing,
        }
    }

    /// Counts a frame that was written to the client.
    pub fn on_sent(&mut self, s: &Session, frame: &Frame)
        requires
            old(self).wf(),
        ensures
            final(self).wf(),
            old(self).counts_down(s.id, payload_len(frame@) as u64, *final(self)),
    {
        let n: u64 = frame.payload();
        self.router.count_down(s.id, n);
        self.metrics.add_down(n);
    }

    /// Undoes the registration of a session whose welcome could not be sent.
    pub fn abandon(&mut self, s: Session)
        requires
            old(self).wf(),
        ensures
            final(self).wf(),
            old(self).same_setup(*final(self)),
            final(self).next_id == old(self).next_id,
            final(self).metrics == old(self).metrics,
            if old(self).router.sessions@.dom().contains(s.id) {
                old(self).router.unregisters(s.id, final(self).router)
            } else {
                final(self).router == old(self).router
            },
    {
        let gone = self.router.unregister(s.id);
    }

    /// Whether the bytes of a session fit into the record of its peer.
    pub open spec fn close_fits(&self, s: Session) -> bool {
        self.router.sessions@.dom().contains(s.id) ==> self.metrics.fold_fits(
            s.peer.token@,
            self.router.sessions@[s.id].counters.up,
            self.router.sessions@[s.id].counters.down,
        )
    }

    /// Whether `post` is this state after a session has ended.
    pub open spec fn closes(&self, s: Session, post: AppState) -> bool {
        &&& self.same_setup(post)
        &&& post.next_id == self.next_id
        &&& if self.router.sessions@.dom().contains(s.id) {
            let e = self.router.sessions@[s.id];
            self.router.unregisters(s.id, post.router) && self.metrics.folds(
                s.peer.token@,
                s.peer.name@,
                s.peer.ip,
                s.mode,
                e.counters.up,
                e.counters.down,
                post.metrics,
            )
        } else {
            post.router == self.router && post.metrics == self.metrics
        }
    }

    /// Ends a session: the addresses that it still owns are free again, and its bytes are folded into
    /// the record of its peer.
    pub fn close(&mut self, s: Session)
        requires
            old(self).wf(),
            old(self).close_fits(s),
        ensures
            final(self).wf(),
            old(self).closes(s, *final(self)),
    {
        match self.router.unregister(s.id) {
            Some(e) => {
                self.metrics.fold_session(
                    s.peer.token.as_str(),
                    s.peer.name.as_str(),
                    s.peer.ip,
                    s.mode,
                    e.counters.up,
                    e.counters.down,
                );
            },
            None => {},
        }
    }

    /// Whether a session that has been silent for some seconds is kept or ended.
    pub open spec fn heeds_silence(
        &self,
        s: Session,
        silent: u64,
        r: Option<Session>,
        post: AppState,
    ) -> bool {
        if silent < DEAD_LINK_SECS {
            r == Some(s) && post == *self
        } else {
            r is None && self.closes(s, post)
        }
    }

    /// Whether a packet from the TUN device goes to this session.
    pub open spec fn hands_to(&self, pkt: Seq<u8>, r: Option<u64>) -> bool {
        match destination(pkt) {
            Some(IpAddr::V4(d)) => r == self.router.owner(d),
            Some(IpAddr::V6(d)) => r == self.router.owner6(d),
            None => r is None,
        }
    }

    /// Whether a session that no frame has arrived from for `silent` seconds counts as
    /// dead: from [`DEAD_LINK_SECS`] on. A dead session is ended as by
    /// [`AppState::close`]; one that is alive is handed back, and nothing changes.
    pub fn on_silence(&mut self, s: Session, silent: u64) -> (r: Option<Session>)
        requires
            old(self).wf(),
            old(self).close_fits(s),
        ensures
            final(self).wf(),
            old(self).heeds_silence(s, silent, r, *final(self)),
            if silent < DEAD_LINK_SECS {
                r == Some(s) && *final(self) == *old(self)
            } else {
                r is None && old(self).closes(s, *final(self))
            },
    {
        if silent < DEAD_LINK_SECS {
            Some(s)
        } else {
            self.close(s);
            None
        }
    }

    /// The session to hand a packet from the TUN device to: the owner of its
    /// destination.
    pub fn run_tun_router(&self, pkt: &[u8]) -> (r: Option<u64>)
        ensures
            self.hands_to(pkt@, r),
            r == match destination(pkt@) {
                Some(IpAddr::V4(d)) => self.router.owner(d),
                Some(IpAddr::V6(d)) => self.router.owner6(d),
                None => None,
            },
    {
        match packet_destination(pkt) {
            Some(IpAddr::V4(d)) => self.router.deliver(d),
            Some(IpAddr::V6(d)) => self.router.deliver6(d),
            None => None,
        }
    }
}

/// A client that is refused, whatever the reason, changes nothing on the server:
/// in particular it owns no address.
pub proof fn law_refused_leaves_no_trace(
    pre: AppState,
    first: FrameView,
    addr: Seq<char>,
    now: u64,
    session_id: u128,
    r: Opening,
    post: AppState,
)
    requires
        pre.opens(first, addr, now, session_id, r, post),
        !(r is Accepted),
    ensures
        post == pre,
        !(verdict(pre.config.peers@, first) is Admit),
{
}

/// Only a known, enabled peer with the right protocol version is admitted, and in
/// global mode only one that is allowed to.
pub proof fn law_admission(peers: Seq<PeerConfig>, first: FrameView)
    requires
        verdict(peers, first) is Admit,
    ensures
        first is Hello,
        first->Hello_0.version == PROTOCOL_VERSION,
        peers.contains(verdict(peers, first)->Admit_0),
        verdict(peers, first)->Admit_0.token@ == first->Hello_0.token,
        verdict(peers, first)->Admit_0.enabled,
        first->Hello_0.mode == SessionMode::GlobalProxy ==> verdict(
            peers,
            first,
        )->Admit_0.allow_global,
{
    super::config::law_peer_lookup(peers, first->Hello_0.token);
}

/// What an admitted client is assigned is the address at which the router finds
/// its session.
pub proof fn law_welcome_matches_routing(
    pre: AppState,
    first: FrameView,
    addr: Seq<char>,
    now: u64,
    session_id: u128,
    r: Opening,
    post: AppState,
)
    requires
        pre.opens(first, addr, now, session_id, r, post),
        r is Accepted,
    ensures
        r->Accepted_1@ is Welcome,
        post.router.owner(r->Accepted_1@->Welcome_0.assigned_ip) == Some(r->Accepted_0.id),
        r->Accepted_1@->Welcome_0.assigned_ip6 is Some ==> post.router.owner6(
            r->Accepted_1@->Welcome_0.assigned_ip6->Some_0,
        ) == Some(r->Accepted_0.id),
{
}

/// A client that greets with the token of an enabled peer is let in as that peer, in
/// every mode that the peer may use.
pub proof fn law_peers_are_let_in(
    peers: Seq<PeerConfig>,
    p: PeerConfig,
    mode: SessionMode,
    requested_ip: Option<Ipv4Addr>,
    client_name: Option<Seq<char>>,
    join_vpn: bool,
)
    requires
        peer_with(peers, p.token@) == Some(p),
        p.enabled,
        mode == SessionMode::GlobalProxy ==> p.allow_global,
    ensures
        ({
            let h = greeting(p.token@, mode, requested_ip, client_name, join_vpn);
            verdict(peers, FrameView::Hello(h)) == Verdict::Admit(p, h)
        }),
{
}

/// What a client makes of the server's answer agrees with what the server decided: it
/// has a session, with the address of its peer, exactly if it was let in, and
/// otherwise learns the reason.
pub proof fn law_both_ends_agree(
    pre: AppState,
    h: HelloView,
    addr: Seq<char>,
    now: u64,
    session_id: u128,
    r: Opening,
    post: AppState,
)
    requires
        pre.opens(FrameView::Hello(h), addr, now, session_id, r, post),
    ensures
        match verdict(pre.config.peers@, FrameView::Hello(h)) {
            Verdict::Admit(p, _) => r is Accepted && answered(r->Accepted_1@) is Ok && answered(
                r->Accepted_1@,
            )->Ok_0.assigned_ip == p.ip,
            Verdict::Refuse(reason) => r is Refused && answered(r->Refused_0@) == Err::<
                WelcomeView,
                Failure,
            >(Failure::Auth(reason)),
            Verdict::Ignore => false,
        },
{
}

/// A server without IPv6 egress offers no IPv6: no address, no gateway, no resolvers.
pub proof fn law_no_ipv6_without_egress(cfg: ServerConfig, ip: Ipv4Addr, session_id: u128)
    ensures
        ({
            let w = welcome_of(cfg, false, ip, session_id);
            w.assigned_ip6 is None && w.gateway6 is None && w.dns6.len() == 0 && w.prefix6 == 0
        }),
{
}

/// Whatever a client sends, no packet of a peer that may not use the server as its way
/// to the internet leaves the virtual network, and no connection is dialed for a peer
/// that may not use the proxy.
pub proof fn law_permissions_hold(
    pre: AppState,
    s: Session,
    f: FrameView,
    post: AppState,
    s2: Session,
    r: Action,
)
    requires
        pre.reacts(s, f, post, s2, r),
    ensures
        r is ToTun ==> may_pass(pre.config, s.peer.allow_global, r->ToTun_0@),
        r is ToTun ==> AppState::takes_packets(s),
        r is Dial ==> s.peer.allow_http_proxy,
{
}

/// Once a session has ended, for whatever reason, nobody reaches it at an address; a
/// later session of the same peer keeps the address.
pub proof fn law_ended_session_is_unreachable(pre: AppState, s: Session, post: AppState)
    requires
        pre.wf(),
        pre.closes(s, post),
    ensures
        !post.router.sessions@.dom().contains(s.id),
        forall|ip: Ipv4Addr| #[trigger] post.router.owner(ip) != Some(s.id),
        forall|ip: Ipv4Addr|
            pre.router.owner(ip) != Some(s.id) ==> #[trigger] post.router.owner(ip)
                == pre.router.owner(ip),
        forall|ip: Ipv6Addr| #[trigger] post.router.owner6(ip) != Some(s.id),
{
}

/// A frame of a client changes no other session, and neither the configuration nor who
/// owns which address.
pub proof fn law_frames_touch_own_session_only(
    pre: AppState,
    s: Session,
    f: FrameView,
    post: AppState,
    s2: Session,
    r: Action,
    ip: Ipv4Addr,
    ip6: Ipv6Addr,
    other: u64,
)
    requires
        pre.reacts(s, f, post, s2, r),
        other != s.id,
    ensures
        post.config == pre.config,
        post.router.sessions@.get(other) == pre.router.sessions@.get(other),
        post.router.owner(ip) == pre.router.owner(ip),
        post.router.owner6(ip6) == pre.router.owner6(ip6),
{
}

/// A proxied connection that the server dials for a client.
pub struct RemoteStream {
    pub id: u32,
    /// Where it is dialed: `host:port`.
    pub addr: String,
}

/// What happens to a dialed connection.
pub enum RemoteEvent {
    /// It could not be made.
    DialFailed(String),
    /// Bytes arrived.
    Data(Vec<u8>),
    /// It ended.
    Ended,
}

/// The connection to dial for a stream.
pub fn open_remote_stream(id: u32, target: &TargetAddr) -> (r: RemoteStream)
    ensures
        r.id == id,
        r.addr@ == target_text(target@),
{
    RemoteStream { id, addr: target.to_text() }
}

/// What the client is told of an event on the connection of a stream.
pub open spec fn remote_frame(id: u32, addr: Seq<char>, e: RemoteEvent) -> FrameView {
    match e {
        RemoteEvent::DialFailed(m) => FrameView::StreamClose {
            id,
            error: Some("dial "@ + addr + ": "@ + m@),
        },
        RemoteEvent::Data(d) => FrameView::StreamData { id, data: d@ },
        RemoteEvent::Ended => FrameView::StreamClose { id, error: None },
    }
}

impl RemoteStream {
    /// What the client is sent when something happens to the connection.
    pub fn on_event(&self, e: RemoteEvent) -> (r: Frame)
        ensures
            r@ == remote_frame(self.id, self.addr@, e),
            r@ == match e {
                RemoteEvent::DialFailed(m) => FrameView::StreamClose {
                    id: self.id,
                    error: Some("dial "@ + self.addr@ + ": "@ + m@),
                },
                RemoteEvent::Data(d) => FrameView::StreamData { id: self.id, data: d@ },
                RemoteEvent::Ended => FrameView::StreamClose { id: self.id, error: None },
            },
    {
        match e {
            RemoteEvent::DialFailed(m) => Frame::StreamClose {
                id: self.id,
                error: Some(
                    "dial ".to_owned().concat(self.addr.as_str()).concat(": ").concat(m.as_str()),
                ),
            },
            RemoteEvent::Data(data) => Frame::StreamData { id: self.id, data },
            RemoteEvent::Ended => Frame::StreamClose { id: self.id, error: None },
        }
    }
}

}
