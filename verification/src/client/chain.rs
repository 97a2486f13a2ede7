//! Proxy chains: client, first server, further servers, internet.
//!
//! The first hop is dialed directly. Every later hop is reached by asking the hop
//! before it to open a connection to its address, and running its own handshake
//! over that relayed stream. Only the last hop runs the chosen mode.

use vstd::prelude::*;
use vstd::string::*;

use super::config::{clone_text, find_server, server_named, ServerEntry};
use crate::addr::{ip_parsed, IpAddr, Ipv4Addr, SocketAddr};
use crate::bytes::slice_of;
use crate::config::{on_the_wire, parse_psk, psk_of, SessionMode, TransportKind};
use crate::error::{fails_as, Error, Failure};
use crate::protocol::control::{opt_view, HelloView, TargetView, WelcomeView};
use crate::protocol::frame::FrameView;
use crate::protocol::shown::{frame_shown, show_frame};
use crate::protocol::{Frame, Hello, TargetAddr, Welcome};
use crate::transport::{connect_over, quic_not_first, runs_over_stream, ClientSecurity, Endpoint};
use crate::PROTOCOL_VERSION;

verus! {

/// The stream that carries the next hop on each hop's tunnel.
pub const CARRIER_ID: u32 = 1;

/// Most bytes that a frame of a carrier holds.
pub const CARRIER_CHUNK: usize = 32768;

/// Whether `e` is where a server is dialed.
pub open spec fn dials(e: Endpoint, s: ServerEntry) -> bool {
    &&& e.host@ == s.host@
    &&& e.port == s.port
    &&& e.kind == s.transport
    &&& e.ws_path@ == "/et"@
    &&& e.server_name@ == s.tls_name()
}

/// Where a server is dialed.
pub fn endpoint_of(s: &ServerEntry) -> (r: Endpoint)
    ensures
        dials(r, *s),
{
    Endpoint {
        host: s.host.clone(),
        port: s.port,
        kind: s.transport,
        ws_path: "/et".to_owned(),
        server_name: s.sni(),
    }
}

/// Whether `c` is the security material for a server whose key is `psk`.
pub open spec fn secures(c: ClientSecurity, s: ServerEntry, psk: Seq<u8>) -> bool {
    &&& c.noise_psk@ == psk
    &&& c.tls_skip_verify == s.tls_skip_verify
    &&& c.tls_pinned_cert_pem is None
}

/// The security material for a server. Fails as its key does.
pub fn security_of(s: &ServerEntry) -> (r: Result<ClientSecurity, Error>)
    ensures
        fails_as(r, psk_of(s.noise_psk@)),
        r is Ok ==> secures(r->Ok_0, *s, psk_of(s.noise_psk@)->Ok_0),
{
    match parse_psk(s.noise_psk.as_str()) {
        Ok(noise_psk) => Ok(
            ClientSecurity {
                noise_psk,
                tls_skip_verify: s.tls_skip_verify,
                tls_pinned_cert_pem: None,
            },
        ),
        Err(e) => Err(e),
    }
}

/// Where a relay is asked to connect for a server, given what the host reads as:
/// an address stays one, anything else is a name for the relay to resolve.
pub open spec fn target_from(host: Seq<char>, port: u16, ip: Option<IpAddr>) -> TargetView {
    match ip {
        Some(ip) => TargetView::Ip(SocketAddr { ip, port }),
        None => TargetView::Domain(host, port),
    }
}

/// Where a relay is asked to connect for a server, given what the host reads as.
pub fn target_with(s: &ServerEntry, ip: Option<IpAddr>) -> (r: TargetAddr)
    ensures
        r@ == target_from(s.host@, s.port, ip),
{
    match ip {
        Some(ip) => TargetAddr::Ip(SocketAddr { ip, port: s.port }),
        None => TargetAddr::Domain(s.host.clone(), s.port),
    }
}

/// Where a relay is asked to connect for a server.
pub fn target_of(s: &ServerEntry) -> (r: TargetAddr)
    ensures
        r@ == target_from(s.host@, s.port, ip_parsed(s.host@)),
{
    let ip = IpAddr::parse(s.host.as_str());
    target_with(s, ip)
}

/// The address of a host, given what it reads as and, if it is a name, the first
/// address that a lookup found.
pub open spec fn resolved(
    host: Seq<char>,
    literal: Option<IpAddr>,
    found: Option<IpAddr>,
) -> Result<IpAddr, Failure> {
    match literal {
        Some(ip) => Ok(ip),
        None => match found {
            Some(ip) => Ok(ip),
            None => Err(Failure::Config("cannot resolve host "@ + host)),
        },
    }
}

/// The address of a host, given what it reads as and the first address that a
/// lookup found.
pub fn resolve_with(host: &str, literal: Option<IpAddr>, found: Option<IpAddr>) -> (r: Result<
    IpAddr,
    Error,
>)
    ensures
        match resolved(host@, literal, found) {
            Ok(ip) => r is Ok && r->Ok_0 == ip,
            Err(f) => r is Err && r->Err_0@ == f,
        },
{
    match literal {
        Some(ip) => Ok(ip),
        None => match found {
            Some(ip) => Ok(ip),
            None => Err(Error::Config("cannot resolve host ".to_owned().concat(host))),
        },
    }
}

/// The address of a host that a lookup was made for; only needed if the host is a
/// name.
pub fn resolve(host: &str, found: Option<IpAddr>) -> (r: Result<IpAddr, Error>)
    ensures
        match resolved(host@, ip_parsed(host@), found) {
            Ok(ip) => r is Ok && r->Ok_0 == ip,
            Err(f) => r is Err && r->Err_0@ == f,
        },
{
    let literal = IpAddr::parse(host);
    resolve_with(host, literal, found)
}

/// A client's greeting to a server.
pub open spec fn greeting(
    token: Seq<char>,
    mode: SessionMode,
    requested_ip: Option<Ipv4Addr>,
    client_name: Option<Seq<char>>,
    join_vpn: bool,
) -> HelloView {
    HelloView {
        version: PROTOCOL_VERSION,
        token,
        mode: on_the_wire(mode),
        requested_ip,
        client_name,
        join_vpn,
    }
}

/// A client's greeting to a server.
pub fn make_hello(
    s: &ServerEntry,
    mode: SessionMode,
    requested_ip: Option<Ipv4Addr>,
    client_name: &Option<String>,
    join_vpn: bool,
) -> (r: Hello)
    ensures
        r@ == greeting(s.token@, mode, requested_ip, opt_view(*client_name), join_vpn),
{
    Hello {
        version: PROTOCOL_VERSION,
        token: s.token.clone(),
        mode: mode.wire(),
        requested_ip,
        client_name: clone_text(client_name),
        join_vpn,
    }
}

/// What the answer to a greeting means.
pub open spec fn answered(f: FrameView) -> Result<WelcomeView, Failure> {
    match f {
        FrameView::Welcome(w) => Ok(w),
        FrameView::Reject { reason } => Err(Failure::Auth(reason)),
        other => Err(Failure::Protocol("expected Welcome, got "@ + frame_shown(other))),
    }
}

/// What the answer to a greeting means: a welcome, a refusal with its reason, or
/// a breach of the protocol.
pub fn handshake(answer: Frame) -> (r: Result<Welcome, Error>)
    ensures
        match answered(answer@) {
            Ok(w) => r is Ok && r->Ok_0@ == w,
            Err(f) => r is Err && r->Err_0@ == f,
        },
{
    match answer {
        Frame::Welcome(w) => Ok(w),
        Frame::Reject { reason } => Err(Error::Auth(reason)),
        other => {
            let what = show_frame(&other);
            Err(Error::Protocol("expected Welcome, got ".to_owned().concat(what.as_str())))
        },
    }
}

/// What happens on a carrier: the stream over one hop that the next hop's
/// transport runs on.
pub enum CarrierEvent {
    /// The next hop's transport wrote bytes.
    Written(Vec<u8>),
    /// The next hop's transport is done writing.
    Done,
    /// The hop sent a frame.
    Received(Frame),
    /// Reading from the hop failed.
    Failed,
}

/// What a carrier does about it.
pub enum CarrierAction {
    /// Send a frame to the hop.
    Send(Frame),
    /// Send frames to the hop, in order.
    SendAll(Vec<Frame>),
    /// Send a frame to the hop, and read no more from the transport.
    SendLast(Frame),
    /// Hand bytes to the next hop's transport.
    Deliver(Vec<u8>),
    /// End the transport's input.
    End,
    Nothing,
}

/// The frame that opens a carrier.
pub fn open_carrier(target: TargetAddr) -> (r: Frame)
    ensures
        r@ == (FrameView::StreamOpen { id: CARRIER_ID, target: target@ }),
{
    Frame::StreamOpen { id: CARRIER_ID, target }
}

/// The views of some frames.
pub open spec fn frame_views(v: Seq<Frame>) -> Seq<FrameView> {
    v.map_values(|f: Frame| f@)
}

/// The frames that carry some bytes: as many full ones as they fill, and one for the
/// rest, if there is any.
pub open spec fn carried(b: Seq<u8>) -> Seq<FrameView>
    decreases b.len(),
{
    if b.len() == 0 {
        Seq::empty()
    } else if b.len() <= CARRIER_CHUNK {
        Seq::empty().push(FrameView::StreamData { id: CARRIER_ID, data: b })
    } else {
        Seq::empty().push(
            FrameView::StreamData { id: CARRIER_ID, data: b.take(CARRIER_CHUNK as int) },
        ) + carried(b.skip(CARRIER_CHUNK as int))
    }
}

/// The frames that carry some bytes.
fn carry(b: Vec<u8>) -> (r: Vec<Frame>)
    ensures
        frame_views(r@) == carried(b@),
{
    let total: usize = b.len();
    let mut out: Vec<Frame> = Vec::new();
    let mut at: usize = 0;
    assert(b@.skip(0) =~= b@);
    assert(frame_views(out@) + carried(b@) =~= carried(b@));
    while at < total
        invariant
            total == b@.len(),
            at <= total,
            frame_views(out@) + carried(b@.skip(at as int)) == carried(b@),
        decreases total - at,
    {
        let end: usize = if total - at <= CARRIER_CHUNK {
            total
        } else {
            at + CARRIER_CHUNK
        };
        let ghost left = b@.skip(at as int);
        let ghost before = frame_views(out@);
        let data = slice_of(b.as_slice(), at, end);
        let f = Frame::StreamData { id: CARRIER_ID, data };
        out.push(f);
        proof {
            assert(frame_views(out@) =~= before.push(f@));
            assert(b@.skip(end as int) =~= left.skip(end - at));
            if end == total {
                assert(data@ =~= left);
            } else {
                assert(data@ =~= left.take(CARRIER_CHUNK as int));
            }
            assert(frame_views(out@) + carried(b@.skip(end as int)) =~= before + carried(left));
        }
        at = end;
    }
    assert(frame_views(out@) + carried(b@.skip(total as int)) =~= frame_views(out@));
    out
}

/// The bytes that some frames of a carrier carry, one after the other.
pub open spec fn carried_bytes(fs: Seq<FrameView>) -> Seq<u8>
    decreases fs.len(),
{
    if fs.len() == 0 {
        Seq::empty()
    } else {
        match fs[0] {
            FrameView::StreamData { id, data } => data + carried_bytes(fs.skip(1)),
            _ => carried_bytes(fs.skip(1)),
        }
    }
}

/// What is written to a carrier goes out unchanged, on its stream, in frames of at most
/// [`CARRIER_CHUNK`] bytes each.
pub proof fn law_carrier_carries_in_chunks(b: Seq<u8>)
    ensures
        carried_bytes(carried(b)) == b,
        forall|i: int|
            0 <= i < carried(b).len() ==> {
                &&& (#[trigger] carried(b)[i]) is StreamData
                &&& carried(b)[i]->StreamData_id == CARRIER_ID
                &&& 0 < carried(b)[i]->StreamData_data.len() <= CARRIER_CHUNK
            },
    decreases b.len(),
{
    let fs = carried(b);
    if b.len() == 0 {
    } else if b.len() <= CARRIER_CHUNK {
        assert(fs.skip(1) =~= Seq::<FrameView>::empty());
        assert(carried_bytes(fs.skip(1)) =~= Seq::<u8>::empty());
        assert(fs[0] == (FrameView::StreamData { id: CARRIER_ID, data: b }));
        assert(carried_bytes(fs) =~= b);
    } else {
        let rest = b.skip(CARRIER_CHUNK as int);
        law_carrier_carries_in_chunks(rest);
        assert(fs.skip(1) =~= carried(rest));
        assert(fs[0] == (FrameView::StreamData {
            id: CARRIER_ID,
            data: b.take(CARRIER_CHUNK as int),
        }));
        assert(carried_bytes(fs) =~= b);
        assert forall|i: int| 0 <= i < fs.len() implies {
            &&& (#[trigger] fs[i]) is StreamData
            &&& fs[i]->StreamData_id == CARRIER_ID
            &&& 0 < fs[i]->StreamData_data.len() <= CARRIER_CHUNK
        } by {
            if i > 0 {
                assert(fs[i] == carried(rest)[i - 1]);
            }
        }
    }
}

/// Whether a carrier does `a` when `e` happens.
pub open spec fn carrier_does(e: CarrierEvent, a: CarrierAction) -> bool {
    match e {
        CarrierEvent::Written(b) => a is SendAll && frame_views(a->SendAll_0@) == carried(b@),
        CarrierEvent::Done => a is SendLast && a->SendLast_0@ == (FrameView::StreamClose {
            id: CARRIER_ID,
            error: None,
        }),
        CarrierEvent::Failed => a is End,
        CarrierEvent::Received(f) => match f@ {
            FrameView::StreamData { id, data } => if id == CARRIER_ID {
                a is Deliver && a->Deliver_0@ == data
            } else {
                a is Nothing
            },
            FrameView::StreamClose { id, error } => if id == CARRIER_ID {
                a is End
            } else {
                a is Nothing
            },
            FrameView::Ping => a is Send && a->Send_0@ == FrameView::Pong,
            _ => a is Nothing,
        },
    }
}

/// What a carrier does when something happens.
pub fn on_carrier(e: CarrierEvent) -> (a: CarrierAction)
    ensures
        carrier_does(e, a),
{
    match e {
        CarrierEvent::Written(data) => CarrierAction::SendAll(carry(data)),
        CarrierEvent::Done => CarrierAction::SendLast(
            Frame::StreamClose { id: CARRIER_ID, error: None },
        ),
        CarrierEvent::Failed => CarrierAction::End,
        CarrierEvent::Received(f) => match f {
            Frame::StreamData { id, data } => if id == CARRIER_ID {
                CarrierAction::Deliver(data)
            } else {
                CarrierAction::Nothing
            },
            Frame::StreamClose { id, .. } => if id == CARRIER_ID {
                CarrierAction::End
            } else {
                CarrierAction::Nothing
            },
            Frame::Ping => CarrierAction::Send(Frame::Pong),
            _ => CarrierAction::Nothing,
        },
    }
}

/// The mode that hop `k` of `n` runs: only the last runs the chosen one.
pub open spec fn hop_mode(n: nat, k: nat, last: SessionMode) -> SessionMode {
    if k + 1 == n {
        last
    } else {
        SessionMode::HttpProxy
    }
}

/// The greeting to hop `k`: only the last is asked for an address, and none for
/// its peer LAN.
pub open spec fn hop_greeting(
    hops: Seq<ServerEntry>,
    k: int,
    last: SessionMode,
    requested_ip: Option<Ipv4Addr>,
    client_name: Option<Seq<char>>,
) -> HelloView {
    greeting(
        hops[k].token@,
        hop_mode(hops.len(), k as nat, last),
        if k + 1 == hops.len() {
            requested_ip
        } else {
            None
        },
        client_name,
        false,
    )
}

/// How to reach one hop.
pub struct Hop {
    pub endpoint: Endpoint,
    pub security: ClientSecurity,
}

/// Why a hop cannot be reached, before anything is sent: its key, or its
/// transport if it is not the first.
pub open spec fn hop_failure(hops: Seq<ServerEntry>, k: int) -> Option<Failure> {
    match psk_of(hops[k].noise_psk@) {
        Err(f) => Some(f),
        Ok(_) => if k > 0 && !runs_over_stream(hops[k].transport) {
            Some(Failure::NotImplemented(quic_not_first()))
        } else {
            None
        },
    }
}

/// QUIC can only be the first hop of a chain, and any other transport can be any hop.
pub proof fn law_quic_is_first_only(hops: Seq<ServerEntry>, k: int)
    requires
        0 <= k < hops.len(),
        psk_of(hops[k].noise_psk@) is Ok,
    ensures
        hop_failure(hops, k) is Some <==> k > 0 && hops[k].transport == TransportKind::Quic,
{
}

/// How to reach hop `k`: the first directly, the others over a carrier.
pub fn reach_hop(hops: &Vec<ServerEntry>, k: usize) -> (r: Result<Hop, Error>)
    requires
        k < hops@.len(),
    ensures
        match hop_failure(hops@, k as int) {
            Some(f) => r is Err && r->Err_0@ == f,
            None => r is Ok && dials(r->Ok_0.endpoint, hops@[k as int]) && secures(
                r->Ok_0.security,
                hops@[k as int],
                psk_of(hops@[k as int].noise_psk@)->Ok_0,
            ),
        },
{
    let endpoint = endpoint_of(&hops[k]);
    let security = match security_of(&hops[k]) {
        Ok(s) => s,
        Err(e) => return Err(e),
    };
    if k > 0 {
        match connect_over(&endpoint) {
            Ok(_) => {},
            Err(e) => return Err(e),
        }
    }
    Ok(Hop { endpoint, security })
}

/// The greeting to hop `k`.
pub fn hop_hello(
    hops: &Vec<ServerEntry>,
    k: usize,
    last: SessionMode,
    requested_ip: Option<Ipv4Addr>,
    client_name: &Option<String>,
) -> (r: Hello)
    requires
        k < hops@.len(),
    ensures
        r@ == hop_greeting(hops@, k as int, last, requested_ip, opt_view(*client_name)),
{
    let is_last = k == hops.len() - 1;
    let mode = if is_last {
        last
    } else {
        SessionMode::HttpProxy
    };
    let ip = if is_last {
        requested_ip
    } else {
        None
    };
    make_hello(&hops[k], mode, ip, client_name, false)
}

/// What is next to do for a hop.
#[derive(Clone, Copy, Debug, PartialEq, Eq, Structural)]
pub enum Phase {
    /// Dial it, or have the hop before open a carrier to it.
    Reach,
    /// Run its transport over the carrier.
    Layer,
    /// Greet it.
    Greet,
}

/// A chain being built, hop by hop.
pub struct ChainBuild {
    pub hops: Vec<ServerEntry>,
    /// The mode of the last hop.
    pub last: SessionMode,
    pub requested_ip: Option<Ipv4Addr>,
    pub client_name: Option<String>,
    /// The hop that is being worked on.
    pub k: usize,
    pub phase: Phase,
}

/// What has to be done next to build a chain.
pub enum ChainAction {
    /// Dial the first hop.
    Dial(Hop),
    /// Send this on the tunnel of the hop before, to open a carrier.
    Relay(Frame),
    /// Run the hop's transport over the carrier.
    Layer(Hop),
    /// Send this and wait for the answer.
    Greet(Frame),
}

/// Starts building a chain.
pub fn connect_chain(
    hops: Vec<ServerEntry>,
    last: SessionMode,
    requested_ip: Option<Ipv4Addr>,
    client_name: Option<String>,
) -> (r: Result<ChainBuild, Error>)
    ensures
        match r {
            Ok(b) => {
                &&& hops@.len() > 0
                &&& b.wf()
                &&& b.hops@ == hops@
                &&& b.last == last
                &&& b.requested_ip == requested_ip
                &&& b.client_name == client_name
                &&& b.k == 0
                &&& b.phase == Phase::Reach
            },
            Err(e) => hops@.len() == 0 && e@ == Failure::Config("proxy chain is empty"@),
        },
{
    if hops.len() == 0 {
        return Err(Error::Config("proxy chain is empty".to_owned()));
    }
    Ok(ChainBuild { hops, last, requested_ip, client_name, k: 0, phase: Phase::Reach })
}

impl ChainBuild {
    /// There is a hop to work on, and the first is dialed, not layered.
    pub open spec fn wf(&self) -> bool {
        self.k < self.hops@.len() && (self.phase == Phase::Layer ==> self.k > 0)
    }

    /// Whether `h` is how the current hop is reached.
    pub open spec fn reaches(&self, h: Hop) -> bool {
        let s = self.hops@[self.k as int];
        dials(h.endpoint, s) && secures(h.security, s, psk_of(s.noise_psk@)->Ok_0)
    }

    /// What has to be done next.
    pub fn action(&self) -> (r: Result<ChainAction, Error>)
        requires
            self.wf(),
        ensures
            self.does(r),
            match self.phase {
                Phase::Greet => r is Ok && r->Ok_0 is Greet && r->Ok_0->Greet_0@
                    == FrameView::Hello(
                    hop_greeting(
                        self.hops@,
                        self.k as int,
                        self.last,
                        self.requested_ip,
                        opt_view(self.client_name),
                    ),
                ),
                Phase::Reach => if self.k == 0 {
                    match hop_failure(self.hops@, 0) {
                        Some(f) => r is Err && r->Err_0@ == f,
                        None => r is Ok && r->Ok_0 is Dial && self.reaches(r->Ok_0->Dial_0),
                    }
                } else {
                    let s = self.hops@[self.k as int];
                    r is Ok && r->Ok_0 is Relay && r->Ok_0->Relay_0@ == (FrameView::StreamOpen {
                        id: CARRIER_ID,
                        target: target_from(s.host@, s.port, ip_parsed(s.host@)),
                    })
                },
                Phase::Layer => match hop_failure(self.hops@, self.k as int) {
                    Some(f) => r is Err && r->Err_0@ == f,
                    None => r is Ok && r->Ok_0 is Layer && self.reaches(r->Ok_0->Layer_0),
                },
            },
    {
        match self.phase {
            Phase::Greet => Ok(
                ChainAction::Greet(
                    Frame::Hello(
                        hop_hello(
                            &self.hops,
                            self.k,
                            self.last,
                            self.requested_ip,
                            &self.client_name,
                        ),
                    ),
                ),
            ),
            Phase::Reach => if self.k == 0 {
                match reach_hop(&self.hops, 0) {
                    Ok(h) => Ok(ChainAction::Dial(h)),
                    Err(e) => Err(e),
                }
            } else {
                Ok(ChainAction::Relay(open_carrier(target_of(&self.hops[self.k]))))
            },
            Phase::Layer => match reach_hop(&self.hops, self.k) {
                Ok(h) => Ok(ChainAction::Layer(h)),
                Err(e) => Err(e),
            },
        }
    }

    /// What there is to do for the hop that is being worked on.
    pub open spec fn does(&self, r: Result<ChainAction, Error>) -> bool {
        let s = self.hops@[self.k as int];
        match self.phase {
            Phase::Greet => r is Ok && r->Ok_0 is Greet && r->Ok_0->Greet_0@ == FrameView::Hello(
                hop_greeting(
                    self.hops@,
                    self.k as int,
                    self.last,
                    self.requested_ip,
                    opt_view(self.client_name),
                ),
            ),
            Phase::Reach => if self.k == 0 {
                match hop_failure(self.hops@, 0) {
                    Some(f) => r is Err && r->Err_0@ == f,
                    None => r is Ok && r->Ok_0 is Dial && self.reaches(r->Ok_0->Dial_0),
                }
            } else {
                r is Ok && r->Ok_0 is Relay && r->Ok_0->Relay_0@ == (FrameView::StreamOpen {
                    id: CARRIER_ID,
                    target: target_from(s.host@, s.port, ip_parsed(s.host@)),
                })
            },
            Phase::Layer => match hop_failure(self.hops@, self.k as int) {
                Some(f) => r is Err && r->Err_0@ == f,
                None => r is Ok && r->Ok_0 is Layer && self.reaches(r->Ok_0->Layer_0),
            },
        }
    }

    /// What is next once the work on a hop's connection is done.
    pub open spec fn advances(&self, post: ChainBuild) -> bool {
        &&& self.same_chain(post)
        &&& post.k == self.k
        &&& post.phase == if self.phase == Phase::Reach && self.k > 0 {
            Phase::Layer
        } else {
            Phase::Greet
        }
    }

    /// What is next once a hop answered its greeting.
    pub open spec fn takes_answer(
        &self,
        f: FrameView,
        r: Result<Option<Welcome>, Error>,
        post: ChainBuild,
    ) -> bool {
        &&& self.same_chain(post)
        &&& match answered(f) {
            Err(e) => r is Err && r->Err_0@ == e && post.k == self.k,
            Ok(w) => if self.k + 1 == self.hops@.len() {
                &&& r is Ok && r->Ok_0 is Some
                &&& r->Ok_0->Some_0@ == w
                &&& post.k == self.k
            } else {
                &&& r is Ok && r->Ok_0 is None
                &&& post.k == self.k + 1
                &&& post.phase == Phase::Reach
            },
        }
    }

    /// Whether `post` differs from this in the place at most.
    pub open spec fn same_chain(&self, post: ChainBuild) -> bool {
        &&& post.hops@ == self.hops@
        &&& post.last == self.last
        &&& post.requested_ip == self.requested_ip
        &&& post.client_name == self.client_name
    }

    /// Takes note that the hop was reached, or its transport layered.
    pub fn advance(&mut self)
        requires
            old(self).wf(),
            old(self).phase != Phase::Greet,
        ensures
            final(self).wf(),
            old(self).advances(*final(self)),
            old(self).same_chain(*final(self)),
            final(self).k == old(self).k,
            final(self).phase == if old(self).phase == Phase::Reach && old(self).k > 0 {
                Phase::Layer
            } else {
                Phase::Greet
            },
    {
        self.phase = if self.phase == Phase::Reach && self.k > 0 {
            Phase::Layer
        } else {
            Phase::Greet
        };
    }

    /// Takes the answer to a greeting. The last hop's welcome is the chain's;
    /// otherwise the next hop is worked on.
    pub fn answer(&mut self, f: Frame) -> (r: Result<Option<Welcome>, Error>)
        requires
            old(self).wf(),
            old(self).phase == Phase::Greet,
        ensures
            final(self).wf(),
            old(self).takes_answer(f@, r, *final(self)),
            old(self).same_chain(*final(self)),
            match answered(f@) {
                Err(e) => r is Err && r->Err_0@ == e && final(self).k == old(self).k,
                Ok(w) => if old(self).k + 1 == old(self).hops@.len() {
                    &&& r is Ok && r->Ok_0 is Some
                    &&& r->Ok_0->Some_0@ == w
                    &&& final(self).k == old(self).k
                } else {
                    &&& r is Ok && r->Ok_0 is None
                    &&& final(self).k == old(self).k + 1
                    &&& final(self).phase == Phase::Reach
                },
            },
    {
        match handshake(f) {
            Err(e) => Err(e),
            Ok(w) => {
                if self.k == self.hops.len() - 1 {
                    return Ok(Some(w));
                }
                self.k = self.k + 1;
                self.phase = Phase::Reach;
                Ok(None)
            },
        }
    }
}

/// The relays of a chain see neither the chosen mode nor the requested address:
/// every hop but the last is greeted as a plain stream relay.
pub proof fn law_only_last_hop_runs_mode(
    hops: Seq<ServerEntry>,
    k: int,
    last: SessionMode,
    requested_ip: Option<Ipv4Addr>,
    client_name: Option<Seq<char>>,
)
    requires
        0 <= k < hops.len(),
    ensures
        k + 1 < hops.len() ==> {
            let h = hop_greeting(hops, k, last, requested_ip, client_name);
            h.mode == SessionMode::HttpProxy && h.requested_ip is None
        },
        k + 1 == hops.len() ==> {
            let h = hop_greeting(hops, k, last, requested_ip, client_name);
            h.mode == on_the_wire(last) && h.requested_ip == requested_ip
        },
        !hop_greeting(hops, k, last, requested_ip, client_name).join_vpn,
{
}

/// The servers that a chain names, in its order. Names of no server are left out.
pub open spec fn hops_of(chain: Seq<Seq<char>>, servers: Seq<ServerEntry>) -> Seq<ServerEntry>
    decreases chain.len(),
{
    if chain.len() == 0 {
        Seq::empty()
    } else {
        let before = hops_of(chain.drop_last(), servers);
        match server_named(servers, chain.last()) {
            Some(s) => before.push(s),
            None => before,
        }
    }
}

/// The servers that a chain names, in its order. Names of no server are left out.
pub fn resolve_hops(chain: &Vec<String>, servers: &Vec<ServerEntry>) -> (r: Vec<ServerEntry>)
    ensures
        r@ == hops_of(crate::text::texts(chain@), servers@),
{
    let n: usize = chain.len();
    let ghost all = crate::text::texts(chain@);
    let mut out: Vec<ServerEntry> = Vec::new();
    assert(all.take(0) =~= Seq::<Seq<char>>::empty());
    for i in 0..n
        invariant
            n == chain@.len(),
            all == crate::text::texts(chain@),
            out@ == hops_of(all.take(i as int), servers@),
    {
        assert(all.take(i + 1).drop_last() =~= all.take(i as int));
        assert(all.take(i + 1).last() == chain@[i as int]@);
        if let Some(k) = find_server(servers, chain[i].as_str()) {
            out.push(servers[k].clone());
        }
    }
    assert(all.take(n as int) =~= all);
    out
}

/// If every name of a chain is known, the chain has a hop for each, in order.
pub proof fn law_known_chain_is_complete(chain: Seq<Seq<char>>, servers: Seq<ServerEntry>)
    requires
        forall|i: int|
            0 <= i < chain.len() ==> server_named(servers, #[trigger] chain[i]) is Some,
    ensures
        hops_of(chain, servers).len() == chain.len(),
        forall|i: int|
            0 <= i < chain.len() ==> (#[trigger] hops_of(chain, servers)[i]).name@ == chain[i],
    decreases chain.len(),
{
    if chain.len() > 0 {
        law_known_chain_is_complete(chain.drop_last(), servers);
        super::config::lemma_server_named(servers, chain.last());
        let before = hops_of(chain.drop_last(), servers);
        let all = hops_of(chain, servers);
        assert forall|i: int| 0 <= i < chain.len() implies (#[trigger] all[i]).name@
            == chain[i] by {
            if i < before.len() {
                assert(all[i] == before[i]);
                assert(before[i].name@ == chain.drop_last()[i]);
            }
        }
    }
}

}
