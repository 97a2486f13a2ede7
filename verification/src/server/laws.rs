//! What the server does for its clients: what becomes of their packets, their streams,
//! their questions and their greetings.

use vstd::arithmetic::power2::pow2;
use vstd::prelude::*;

use super::config::{peer_with, PeerConfig};
use super::router::{lists_online, Online};
use super::session::{destination, members, Action, AppState, Opening, Session};
use crate::addr::{ipv4_net_parsed, ipv6_net_parsed, IpAddr, Ipv4Addr, Ipv6Addr};
use crate::config::SessionMode;
use crate::protocol::control::{HelloView, PeerInfoView, TargetView};
use crate::protocol::frame::{payload_len, FrameView};
use crate::text::decimal;

verus! {

/// The global proxy carries every packet: whatever a client in that mode sends, if its
/// peer may use the server as its way to the internet, is written to the server's TUN
/// device, byte for byte, whether or not the client joined the peer LAN.
pub proof fn law_global_packets_go_out(
    pre: AppState,
    s: Session,
    p: Seq<u8>,
    post: AppState,
    s2: Session,
    r: Action,
)
    requires
        pre.reacts(s, FrameView::Packet(p), post, s2, r),
        s.mode == SessionMode::GlobalProxy,
        s.peer.allow_global,
        pre.tun,
    ensures
        r is ToTun,
        r->ToTun_0@ == p,
{
}

/// Whether a packet is an IPv4 packet to the address with these bits.
pub open spec fn is_to4(p: Seq<u8>, d: u32) -> bool {
    &&& p.len() >= 20
    &&& 0x40 <= p[0] <= 0x4f
    &&& d == p[16] * 0x100_0000 + p[17] * 0x1_0000 + p[18] * 0x100 + p[19]
}

/// Whether two IPv4 addresses are in the same network of a prefix length.
pub open spec fn same_net4(a: u32, b: u32, len: u8) -> bool {
    a as nat / pow2((32 - len) as nat) == b as nat / pow2((32 - len) as nat)
}

/// Whether a packet is an IPv6 packet to the address with these bits.
pub open spec fn is_to6(p: Seq<u8>, d: u128) -> bool {
    &&& p.len() >= 40
    &&& 0x60 <= p[0] <= 0x6f
    &&& d == low32(p, 24) * 0x1_0000_0000_0000_0000_0000_0000 + low32(p, 28)
        * 0x1_0000_0000_0000_0000 + low32(p, 32) * 0x1_0000_0000 + low32(p, 36)
}

/// The number in four bytes of a packet, high byte first.
pub open spec fn low32(p: Seq<u8>, i: int) -> int {
    p[i] * 0x100_0000 + p[i + 1] * 0x1_0000 + p[i + 2] * 0x100 + p[i + 3]
}

/// Whether two IPv6 addresses are in the same network of a prefix length.
pub open spec fn same_net6(a: u128, b: u128, len: u8) -> bool {
    a as nat / pow2((128 - len) as nat) == b as nat / pow2((128 - len) as nat)
}

proof fn lemma_destination4(p: Seq<u8>, d: u32)
    requires
        is_to4(p, d),
    ensures
        destination(p) == Some(IpAddr::V4(Ipv4Addr { bits: d })),
{
    assert(p[0] / 16 == 4);
}

proof fn lemma_destination6(p: Seq<u8>, d: u128)
    requires
        is_to6(p, d),
    ensures
        destination(p) == Some(IpAddr::V6(Ipv6Addr { bits: d })),
{
    assert(p[0] / 16 == 6);
}

/// Where the TUN device's packets go: an IPv4 packet by the four bytes from the
/// seventeenth on, an IPv6 packet by the sixteen from the twenty-fifth on, and what is
/// neither has no destination.
pub proof fn law_destination(p: Seq<u8>, d4: u32, d6: u128)
    ensures
        is_to4(p, d4) ==> destination(p) == Some(IpAddr::V4(Ipv4Addr { bits: d4 })),
        is_to6(p, d6) ==> destination(p) == Some(IpAddr::V6(Ipv6Addr { bits: d6 })),
        p.len() < 20 ==> destination(p) is None,
        p.len() >= 20 && !(0x40 <= p[0] <= 0x4f) && !(0x60 <= p[0] <= 0x6f) ==> destination(p)
            is None,
        p.len() < 40 && 0x60 <= p[0] <= 0x6f ==> destination(p) is None,
{
    if is_to4(p, d4) {
        lemma_destination4(p, d4);
    }
    if is_to6(p, d6) {
        lemma_destination6(p, d6);
    }
}

/// A member of the peer LAN reaches it: of a client in VPN mode, and of a client in any
/// other mode that joined the LAN, every IPv4 packet inside the virtual subnet or to the
/// gateway is written to the TUN device, byte for byte, whatever else the peer may do.
pub proof fn law_members_reach_the_lan(
    pre: AppState,
    s: Session,
    p: Seq<u8>,
    post: AppState,
    s2: Session,
    r: Action,
    d: u32,
    net: u32,
    len: u8,
)
    requires
        pre.reacts(s, FrameView::Packet(p), post, s2, r),
        s.mode == SessionMode::Vpn || s.vpn_member,
        pre.tun,
        is_to4(p, d),
        ipv4_net_parsed(pre.config.network.subnet@) == Some((net, len)),
        same_net4(d, net, len) || pre.config.network.gateway.bits == d,
    ensures
        r is ToTun,
        r->ToTun_0@ == p,
{
    lemma_destination4(p, d);
}

/// The same holds of IPv6 packets inside the virtual IPv6 subnet or to its gateway.
pub proof fn law_members_reach_the_lan6(
    pre: AppState,
    s: Session,
    p: Seq<u8>,
    post: AppState,
    s2: Session,
    r: Action,
    d: u128,
    text: String,
    net: u128,
    len: u8,
)
    requires
        pre.reacts(s, FrameView::Packet(p), post, s2, r),
        s.mode == SessionMode::Vpn || s.vpn_member,
        pre.tun,
        is_to6(p, d),
        pre.config.network.subnet6 == Some(text),
        ipv6_net_parsed(text@) == Some((net, len)),
        same_net6(d, net, len) || pre.config.network.gateway6 == Some(Ipv6Addr { bits: d }),
    ensures
        r is ToTun,
        r->ToTun_0@ == p,
{
    lemma_destination6(p, d);
}

/// A client whose peer may use the server as its way to the internet: in VPN mode, and in
/// any other mode that joined the LAN, all its packets are written to the TUN device.
pub proof fn law_allowed_members_go_out(
    pre: AppState,
    s: Session,
    p: Seq<u8>,
    post: AppState,
    s2: Session,
    r: Action,
)
    requires
        pre.reacts(s, FrameView::Packet(p), post, s2, r),
        s.mode == SessionMode::Vpn || s.vpn_member,
        s.peer.allow_global,
        pre.tun,
    ensures
        r is ToTun,
        r->ToTun_0@ == p,
{
}

/// What is dropped: every packet of a client that proxies streams and did not join the
/// LAN, every packet on a server without a TUN device, and of a peer that may not use the
/// server as its way to the internet, every packet that leaves the virtual subnet.
pub proof fn law_other_packets_are_dropped(
    pre: AppState,
    s: Session,
    p: Seq<u8>,
    post: AppState,
    s2: Session,
    r: Action,
    d: u32,
    d6: u128,
)
    requires
        pre.reacts(s, FrameView::Packet(p), post, s2, r),
    ensures
        !s.vpn_member && (s.mode == SessionMode::HttpProxy || s.mode == SessionMode::SystemProxy)
            ==> r is Nothing,
        !pre.tun ==> r is Nothing,
        !s.peer.allow_global && is_to4(p, d) && pre.config.network.gateway.bits != d && match
            ipv4_net_parsed(pre.config.network.subnet@) {
            Some((net, len)) => !same_net4(d, net, len),
            None => true,
        } ==> r is Nothing,
        !s.peer.allow_global && is_to6(p, d6) && pre.config.network.gateway6 != Some(
            Ipv6Addr { bits: d6 },
        ) && match pre.config.network.subnet6 {
            Some(text) => match ipv6_net_parsed(text@) {
                Some((net, len)) => !same_net6(d6, net, len),
                None => true,
            },
            None => true,
        } ==> r is Nothing,
{
    if is_to4(p, d) {
        lemma_destination4(p, d);
    }
    if is_to6(p, d6) {
        lemma_destination6(p, d6);
    }
}

/// Two members of the peer LAN reach each other: a packet of one to the address of the
/// other, inside the virtual subnet, is written to the TUN device unchanged, and what
/// comes out of the device for that address is handed to the other's session.
pub proof fn law_members_reach_each_other(
    pre: AppState,
    s: Session,
    p: Seq<u8>,
    post: AppState,
    s2: Session,
    r: Action,
    other: u64,
    net: u32,
    len: u8,
)
    requires
        pre.reacts(s, FrameView::Packet(p), post, s2, r),
        s.mode == SessionMode::Vpn || s.vpn_member,
        pre.tun,
        pre.wf(),
        pre.router.sessions@.dom().contains(other),
        pre.router.owner(pre.router.sessions@[other].ip) == Some(other),
        is_to4(p, pre.router.sessions@[other].ip.bits),
        ipv4_net_parsed(pre.config.network.subnet@) == Some((net, len)),
        same_net4(pre.router.sessions@[other].ip.bits, net, len),
    ensures
        r is ToTun,
        r->ToTun_0@ == p,
        destination(p) is Some,
        destination(p)->Some_0 is V4,
        post.router.owner(destination(p)->Some_0->V4_0) == Some(other),
{
    let d = pre.router.sessions@[other].ip.bits;
    lemma_destination4(p, d);
    assert(Ipv4Addr { bits: d } == pre.router.sessions@[other].ip);
    assert(post.router.owner(pre.router.sessions@[other].ip) == pre.router.owner(
        pre.router.sessions@[other].ip,
    ));
}

/// The bytes of a payload are counted once each way: a packet or stream data from a
/// client raises its session's count and the total by its length, and nothing else does.
pub proof fn law_received_bytes_are_counted(
    pre: AppState,
    s: Session,
    f: FrameView,
    post: AppState,
    s2: Session,
    r: Action,
    n: nat,
)
    requires
        pre.reacts(s, f, post, s2, r),
        pre.router.sessions@.dom().contains(s.id),
        n == match f {
            FrameView::Packet(p) => p.len(),
            FrameView::StreamData { id, data } => data.len(),
            _ => 0,
        },
        pre.router.sessions@[s.id].counters.up + n <= u64::MAX,
        pre.metrics.total_up + n <= u64::MAX,
    ensures
        post.router.sessions@.dom() == pre.router.sessions@.dom(),
        post.router.sessions@[s.id].counters.up == pre.router.sessions@[s.id].counters.up + n,
        post.router.sessions@[s.id].counters.down == pre.router.sessions@[s.id].counters.down,
        post.router.sessions@[s.id].ip == pre.router.sessions@[s.id].ip,
        post.router.sessions@[s.id].token == pre.router.sessions@[s.id].token,
        post.router.sessions@[s.id].info == pre.router.sessions@[s.id].info,
        post.metrics.total_up == pre.metrics.total_up + n,
        post.metrics.total_down == pre.metrics.total_down,
        post.config == pre.config,
{
    assert(post.router.sessions@.dom() =~= pre.router.sessions@.dom());
}

/// What is written to a client counts with the bytes of a packet or of stream data, and
/// everything else with none.
pub proof fn law_payload(f: FrameView)
    ensures
        payload_len(f) == match f {
            FrameView::Packet(p) => p.len(),
            FrameView::StreamData { id, data } => data.len(),
            _ => 0,
        },
{
}

/// Bytes written to a client raise its session's count and the total by their number.
pub proof fn law_sent_bytes_are_counted(pre: AppState, id: u64, n: u64, post: AppState)
    requires
        pre.counts_down(id, n, post),
        pre.router.sessions@.dom().contains(id),
        pre.router.sessions@[id].counters.down + n <= u64::MAX,
        pre.metrics.total_down + n <= u64::MAX,
    ensures
        post.router.sessions@.dom() == pre.router.sessions@.dom(),
        post.router.sessions@[id].counters.down == pre.router.sessions@[id].counters.down + n,
        post.router.sessions@[id].counters.up == pre.router.sessions@[id].counters.up,
        post.metrics.total_down == pre.metrics.total_down + n,
        post.metrics.total_up == pre.metrics.total_up,
        forall|other: u64|
            other != id ==> #[trigger] post.router.sessions@.get(other)
                == pre.router.sessions@.get(other),
{
    assert(post.router.sessions@.dom() =~= pre.router.sessions@.dom());
}

/// A keepalive is answered, and costs nothing.
pub proof fn law_ping_is_answered(
    pre: AppState,
    s: Session,
    post: AppState,
    s2: Session,
    r: Action,
)
    requires
        pre.reacts(s, FrameView::Ping, post, s2, r),
    ensures
        r is Reply,
        r->Reply_0@ == FrameView::Pong,
        post == pre,
        s2.streams@ == s.streams@,
{
}

/// A stream is dialed for whoever may use the proxy, to just the target that was asked
/// for, and is open from then on; whoever may not is told so, and nothing is dialed.
pub proof fn law_streams_are_dialed(
    pre: AppState,
    s: Session,
    id: u32,
    target: TargetView,
    post: AppState,
    s2: Session,
    r: Action,
)
    requires
        pre.reacts(s, FrameView::StreamOpen { id, target }, post, s2, r),
    ensures
        s.peer.allow_http_proxy ==> {
            &&& r is Dial
            &&& r->Dial_id == id
            &&& r->target@ == target
            &&& s2.streams@.contains(id)
        },
        !s.peer.allow_http_proxy ==> {
            &&& r is Reply
            &&& r->Reply_0@ is StreamClose
            &&& r->Reply_0@->StreamClose_id == id
            &&& r->Reply_0@->error == Some("http proxy not allowed for this peer"@)
            &&& s2.streams@ == s.streams@
        },
        forall|other: u32|
            other != id ==> (#[trigger] s2.streams@.contains(other) <==> s.streams@.contains(
                other,
            )),
{
}

/// A stream that the client closes is hung up, and no other.
pub proof fn law_streams_are_hung_up(
    pre: AppState,
    s: Session,
    id: u32,
    error: Option<Seq<char>>,
    post: AppState,
    s2: Session,
    r: Action,
)
    requires
        pre.reacts(s, FrameView::StreamClose { id, error }, post, s2, r),
    ensures
        r is Hangup,
        r->Hangup_id == id,
        !s2.streams@.contains(id),
        forall|other: u32|
            other != id ==> (#[trigger] s2.streams@.contains(other) <==> s.streams@.contains(
                other,
            )),
        post == pre,
{
}

/// Stream data of any length goes to the connection of its stream unchanged, if the
/// stream is open, and nowhere otherwise.
pub proof fn law_stream_data_arrives(
    pre: AppState,
    s: Session,
    id: u32,
    data: Seq<u8>,
    post: AppState,
    s2: Session,
    r: Action,
)
    requires
        pre.reacts(s, FrameView::StreamData { id, data }, post, s2, r),
    ensures
        s.streams@.contains(id) ==> r is ToStream && r->ToStream_id == id && r->data@ == data,
        !s.streams@.contains(id) ==> r is Nothing,
        s2.streams@ == s.streams@,
{
}

/// Whether a session takes the frames of its client one after the other.
pub open spec fn session_run(
    states: Seq<AppState>,
    sessions: Seq<Session>,
    frames: Seq<FrameView>,
    actions: Seq<Action>,
) -> bool {
    &&& states.len() == frames.len() + 1
    &&& sessions.len() == frames.len() + 1
    &&& actions.len() == frames.len()
    &&& forall|i: int|
        0 <= i < frames.len() ==> states[i].reacts(
            sessions[i],
            #[trigger] frames[i],
            states[i + 1],
            sessions[i + 1],
            actions[i],
        )
}

/// All data that some frames carry for a stream.
pub open spec fn data_for(frames: Seq<FrameView>, id: u32) -> Seq<u8>
    decreases frames.len(),
{
    if frames.len() == 0 {
        Seq::empty()
    } else {
        data_for(frames.drop_last(), id) + match frames.last() {
            FrameView::StreamData { id: i, data } if i == id => data,
            _ => Seq::empty(),
        }
    }
}

/// All data that some actions hand to the connection of a stream.
pub open spec fn handed_to(actions: Seq<Action>, id: u32) -> Seq<u8>
    decreases actions.len(),
{
    if actions.len() == 0 {
        Seq::empty()
    } else {
        handed_to(actions.drop_last(), id) + match actions.last() {
            Action::ToStream { id: i, data } if i == id => data@,
            _ => Seq::empty(),
        }
    }
}

/// Over any run in which the client does not close a stream that is open at its start,
/// the bytes handed to the stream's connection are just the bytes that the client sent
/// for it, all of them, in order; and it stays open and is not hung up.
pub proof fn law_uploads_are_complete(
    states: Seq<AppState>,
    sessions: Seq<Session>,
    frames: Seq<FrameView>,
    actions: Seq<Action>,
    id: u32,
)
    requires
        session_run(states, sessions, frames, actions),
        sessions[0].streams@.contains(id),
        forall|i: int|
            0 <= i < frames.len() ==> !((#[trigger] frames[i]) is StreamClose
                && frames[i]->StreamClose_id == id),
    ensures
        handed_to(actions, id) == data_for(frames, id),
        sessions.last().streams@.contains(id),
        forall|i: int|
            0 <= i < actions.len() ==> !((#[trigger] actions[i]) is Hangup && actions[i]->Hangup_id
                == id),
    decreases frames.len(),
{
    if frames.len() > 0 {
        let n = frames.len() - 1;
        let fs = frames.drop_last();
        let acts = actions.drop_last();
        assert(session_run(states.drop_last(), sessions.drop_last(), fs, acts)) by {
            assert forall|i: int| 0 <= i < fs.len() implies states.drop_last()[i].reacts(
                sessions.drop_last()[i],
                #[trigger] fs[i],
                states.drop_last()[i + 1],
                sessions.drop_last()[i + 1],
                acts[i],
            ) by {
                assert(states[i].reacts(
                    sessions[i],
                    frames[i],
                    states[i + 1],
                    sessions[i + 1],
                    actions[i],
                ));
            }
        }
        assert(sessions.drop_last()[0] == sessions[0]);
        assert forall|i: int| 0 <= i < fs.len() implies !((#[trigger] fs[i]) is StreamClose
            && fs[i]->StreamClose_id == id) by {
            assert(fs[i] == frames[i]);
        }
        law_uploads_are_complete(states.drop_last(), sessions.drop_last(), fs, acts, id);
        assert(states[n].reacts(
            sessions[n],
            frames[n],
            states[n + 1],
            sessions[n + 1],
            actions[n],
        ));
        assert(sessions.drop_last().last() == sessions[n]);
        assert forall|i: int| 0 <= i < actions.len() implies !((#[trigger] actions[i]) is Hangup
            && actions[i]->Hangup_id == id) by {
            if i < n {
                assert(acts[i] == actions[i]);
            }
        }
    }
}

/// Over any run in which the client does not open a stream that is not open at its start,
/// nothing is handed to such a stream.
pub proof fn law_no_stream_no_data(
    states: Seq<AppState>,
    sessions: Seq<Session>,
    frames: Seq<FrameView>,
    actions: Seq<Action>,
    id: u32,
)
    requires
        session_run(states, sessions, frames, actions),
        !sessions[0].streams@.contains(id),
        forall|i: int|
            0 <= i < frames.len() ==> !((#[trigger] frames[i]) is StreamOpen
                && frames[i]->StreamOpen_id == id),
    ensures
        handed_to(actions, id) == Seq::<u8>::empty(),
        !sessions.last().streams@.contains(id),
    decreases frames.len(),
{
    if frames.len() > 0 {
        let n = frames.len() - 1;
        let fs = frames.drop_last();
        let acts = actions.drop_last();
        assert(session_run(states.drop_last(), sessions.drop_last(), fs, acts)) by {
            assert forall|i: int| 0 <= i < fs.len() implies states.drop_last()[i].reacts(
                sessions.drop_last()[i],
                #[trigger] fs[i],
                states.drop_last()[i + 1],
                sessions.drop_last()[i + 1],
                acts[i],
            ) by {
                assert(states[i].reacts(
                    sessions[i],
                    frames[i],
                    states[i + 1],
                    sessions[i + 1],
                    actions[i],
                ));
            }
        }
        assert(sessions.drop_last()[0] == sessions[0]);
        assert forall|i: int| 0 <= i < fs.len() implies !((#[trigger] fs[i]) is StreamOpen
            && fs[i]->StreamOpen_id == id) by {
            assert(fs[i] == frames[i]);
        }
        law_no_stream_no_data(states.drop_last(), sessions.drop_last(), fs, acts, id);
        assert(states[n].reacts(
            sessions[n],
            frames[n],
            states[n + 1],
            sessions[n + 1],
            actions[n],
        ));
        assert(sessions.drop_last().last() == sessions[n]);
    }
}

/// Every other member among the online peers is listed, with its address, its name and
/// its IPv6 address, and nothing else is listed; each as often as it is online.
pub proof fn law_peer_list_is_complete(online: Seq<(Ipv4Addr, Online)>, me: Ipv4Addr)
    ensures
        forall|j: int|
            0 <= j < online.len() && (#[trigger] online[j]).0 != me && online[j].1.vpn_member
                ==> members(online, me).contains(
                PeerInfoView { ip: online[j].0, name: online[j].1.name@, ip6: online[j].1.ip6 },
            ),
        forall|i: int|
            0 <= i < members(online, me).len() ==> exists|j: int|
                {
                    &&& 0 <= j < online.len()
                    &&& (#[trigger] online[j]).0 != me
                    &&& online[j].1.vpn_member
                    &&& #[trigger] members(online, me)[i] == (PeerInfoView {
                        ip: online[j].0,
                        name: online[j].1.name@,
                        ip6: online[j].1.ip6,
                    })
                },
        (forall|i: int, j: int|
            0 <= i < j < online.len() ==> (#[trigger] online[i]).0 != (#[trigger] online[j]).0)
            ==> forall|i: int, j: int|
            0 <= i < j < members(online, me).len() ==> (#[trigger] members(online, me)[i]).ip != (
            #[trigger] members(online, me)[j]).ip,
    decreases online.len(),
{
    if online.len() > 0 {
        let first = online.drop_last();
        let (ip, o) = online.last();
        let before = members(first, me);
        let all = members(online, me);
        let last = PeerInfoView { ip, name: o.name@, ip6: o.ip6 };
        law_peer_list_is_complete(first, me);
        assert forall|j: int|
            0 <= j < online.len() && (#[trigger] online[j]).0 != me
                && online[j].1.vpn_member implies all.contains(
            PeerInfoView { ip: online[j].0, name: online[j].1.name@, ip6: online[j].1.ip6 },
        ) by {
            let v = PeerInfoView {
                ip: online[j].0,
                name: online[j].1.name@,
                ip6: online[j].1.ip6,
            };
            if j < first.len() {
                assert(first[j] == online[j]);
                assert(before.contains(v));
                let k = choose|k: int| 0 <= k < before.len() && before[k] == v;
                assert(all[k] == v);
            } else {
                assert(all[before.len() as int] == v);
            }
        }
        assert forall|i: int| 0 <= i < all.len() implies exists|j: int|
            {
                &&& 0 <= j < online.len()
                &&& (#[trigger] online[j]).0 != me
                &&& online[j].1.vpn_member
                &&& #[trigger] all[i] == (PeerInfoView {
                    ip: online[j].0,
                    name: online[j].1.name@,
                    ip6: online[j].1.ip6,
                })
            } by {
            if i < before.len() {
                assert(before[i] == all[i]);
                let j = choose|j: int|
                    {
                        &&& 0 <= j < first.len()
                        &&& (#[trigger] first[j]).0 != me
                        &&& first[j].1.vpn_member
                        &&& before[i] == (PeerInfoView {
                            ip: first[j].0,
                            name: first[j].1.name@,
                            ip6: first[j].1.ip6,
                        })
                    };
                assert(online[j] == first[j]);
            } else {
                assert(online[online.len() - 1] == online.last());
            }
        }
        if forall|i: int, j: int|
            0 <= i < j < online.len() ==> (#[trigger] online[i]).0 != (#[trigger] online[j]).0 {
            assert forall|i: int, j: int| 0 <= i < j < first.len() implies (#[trigger] first[i]).0
                != (#[trigger] first[j]).0 by {
                assert(online[i].0 != online[j].0);
            }
            assert forall|i: int, j: int| 0 <= i < j < all.len() implies (#[trigger] all[i]).ip != (
            #[trigger] all[j]).ip by {
                assert(all[i] == before[i]);
                if j < before.len() {
                    assert(all[j] == before[j]);
                } else {
                    let k = choose|k: int|
                        {
                            &&& 0 <= k < first.len()
                            &&& (#[trigger] first[k]).0 != me
                            &&& first[k].1.vpn_member
                            &&& before[i] == (PeerInfoView {
                                ip: first[k].0,
                                name: first[k].1.name@,
                                ip6: first[k].1.ip6,
                            })
                        };
                    assert(online[k].0 != online[online.len() - 1].0);
                }
            }
        }
    }
}

/// Who is on the LAN: a client that asks is told of every address that the session of a
/// member owns, other than its own, once each, with that member's name and IPv6 address,
/// and of nothing else.
pub proof fn law_get_peers(pre: AppState, s: Session, post: AppState, s2: Session, r: Action)
    requires
        pre.wf(),
        pre.reacts(s, FrameView::GetPeers, post, s2, r),
    ensures
        r is Reply,
        r->Reply_0@ is PeerList,
        forall|ip: Ipv4Addr|
            #![trigger pre.router.owner(ip)]
            pre.router.owner(ip) is Some && ip != s.peer.ip
                && pre.router.sessions@[pre.router.owner(ip)->Some_0].info.vpn_member
                ==> r->Reply_0@->peers.contains(
                PeerInfoView {
                    ip,
                    name: pre.router.sessions@[pre.router.owner(ip)->Some_0].info.name@,
                    ip6: pre.router.sessions@[pre.router.owner(ip)->Some_0].info.ip6,
                },
            ),
        forall|i: int|
            0 <= i < r->Reply_0@->peers.len() ==> {
                let p = #[trigger] r->Reply_0@->peers[i];
                &&& p.ip != s.peer.ip
                &&& pre.router.owner(p.ip) is Some
                &&& pre.router.sessions@[pre.router.owner(p.ip)->Some_0].info.vpn_member
                &&& p.name == pre.router.sessions@[pre.router.owner(p.ip)->Some_0].info.name@
                &&& p.ip6 == pre.router.sessions@[pre.router.owner(p.ip)->Some_0].info.ip6
            },
        forall|i: int, j: int|
            0 <= i < j < r->Reply_0@->peers.len() ==> (#[trigger] r->Reply_0@->peers[i]).ip != (
            #[trigger] r->Reply_0@->peers[j]).ip,
        post == pre,
{
    let l = choose|l: Seq<(Ipv4Addr, Online)>| #[trigger]
        lists_online(l, pre.router) && r->Reply_0@ == (FrameView::PeerList {
            peers: members(l, s.peer.ip),
        });
    let peers = members(l, s.peer.ip);
    law_peer_list_is_complete(l, s.peer.ip);
    assert forall|ip: Ipv4Addr|
        #![trigger pre.router.owner(ip)]
        pre.router.owner(ip) is Some && ip != s.peer.ip
            && pre.router.sessions@[pre.router.owner(ip)->Some_0].info.vpn_member implies peers.contains(
        PeerInfoView {
            ip,
            name: pre.router.sessions@[pre.router.owner(ip)->Some_0].info.name@,
            ip6: pre.router.sessions@[pre.router.owner(ip)->Some_0].info.ip6,
        },
    ) by {
        let j = choose|j: int| 0 <= j < l.len() && (#[trigger] l[j]).0 == ip;
        assert(l[j].1 == pre.router.sessions@[pre.router.owner(l[j].0)->Some_0].info);
    }
    assert forall|i: int| 0 <= i < peers.len() implies {
        let p = #[trigger] peers[i];
        &&& p.ip != s.peer.ip
        &&& pre.router.owner(p.ip) is Some
        &&& pre.router.sessions@[pre.router.owner(p.ip)->Some_0].info.vpn_member
        &&& p.name == pre.router.sessions@[pre.router.owner(p.ip)->Some_0].info.name@
        &&& p.ip6 == pre.router.sessions@[pre.router.owner(p.ip)->Some_0].info.ip6
    } by {
        let j = choose|j: int|
            {
                &&& 0 <= j < l.len()
                &&& (#[trigger] l[j]).0 != s.peer.ip
                &&& l[j].1.vpn_member
                &&& peers[i] == (PeerInfoView {
                    ip: l[j].0,
                    name: l[j].1.name@,
                    ip6: l[j].1.ip6,
                })
            };
        assert(pre.router.owner(l[j].0) is Some);
    }
}

proof fn lemma_first_peer(peers: Seq<PeerConfig>, token: Seq<char>, k: int)
    requires
        0 <= k < peers.len(),
        peers[k].token@ == token,
        forall|j: int| 0 <= j < k ==> (#[trigger] peers[j]).token@ != token,
    ensures
        peer_with(peers, token) == Some(peers[k]),
    decreases k,
{
    if k > 0 {
        assert(peers[0].token@ != token);
        assert forall|j: int| 0 <= j < k - 1 implies (#[trigger] peers.skip(1)[j]).token@
            != token by {
            assert(peers.skip(1)[j] == peers[j + 1]);
        }
        assert(peers.skip(1)[k - 1] == peers[k]);
        lemma_first_peer(peers.skip(1), token, k - 1);
    }
}

proof fn lemma_no_peer(peers: Seq<PeerConfig>, token: Seq<char>)
    requires
        forall|j: int| 0 <= j < peers.len() ==> (#[trigger] peers[j]).token@ != token,
    ensures
        peer_with(peers, token) is None,
    decreases peers.len(),
{
    if peers.len() > 0 {
        assert(peers[0].token@ != token);
        assert forall|j: int| 0 <= j < peers.skip(1).len() implies (#[trigger] peers.skip(
            1,
        )[j]).token@ != token by {
            assert(peers.skip(1)[j] == peers[j + 1]);
        }
        lemma_no_peer(peers.skip(1), token);
    }
}

/// Who is let in: a client of this protocol version that names the token of an enabled
/// peer, in any mode, but in global mode only if the peer may. It is let in as the first
/// peer with that token, in the mode it asked for, as a member of the LAN in VPN mode or
/// if it asked to join, without streams; and its session owns the address of the peer.
pub proof fn law_admitted(
    pre: AppState,
    h: HelloView,
    addr: Seq<char>,
    now: u64,
    session_id: u128,
    r: Opening,
    post: AppState,
    k: int,
)
    requires
        pre.opens(FrameView::Hello(h), addr, now, session_id, r, post),
        h.version == 2,
        0 <= k < pre.config.peers@.len(),
        pre.config.peers@[k].token@ == h.token,
        forall|j: int| 0 <= j < k ==> (#[trigger] pre.config.peers@[j]).token@ != h.token,
        pre.config.peers@[k].enabled,
        h.mode == SessionMode::GlobalProxy ==> pre.config.peers@[k].allow_global,
    ensures
        r is Accepted,
        ({
            let s = r->Accepted_0;
            &&& s.peer == pre.config.peers@[k]
            &&& s.mode == h.mode
            &&& s.vpn_member == (h.mode == SessionMode::Vpn || h.join_vpn)
            &&& forall|id: u32| !#[trigger] s.streams@.contains(id)
            &&& post.router.owner(pre.config.peers@[k].ip) == Some(s.id)
            &&& post.router.sessions@.dom().contains(s.id)
            &&& post.router.sessions@[s.id].ip == pre.config.peers@[k].ip
            &&& post.router.sessions@[s.id].token@ == h.token
            &&& post.router.sessions@[s.id].info.name@ == pre.config.peers@[k].name@
            &&& post.router.sessions@[s.id].info.mode == h.mode
            &&& post.router.sessions@[s.id].info.addr@ == addr
            &&& post.router.sessions@[s.id].info.vpn_member == (h.mode == SessionMode::Vpn
                || h.join_vpn)
            &&& post.router.sessions@[s.id].connected == now
            &&& post.router.sessions@[s.id].counters.up == 0
            &&& post.router.sessions@[s.id].counters.down == 0
        }),
        forall|ip: Ipv4Addr|
            ip != pre.config.peers@[k].ip ==> #[trigger] post.router.owner(ip)
                == pre.router.owner(ip),
{
    lemma_first_peer(pre.config.peers@, h.token, k);
}

/// Who is refused, and what it is told: another protocol version, an unknown token, a
/// disabled peer, a peer that may not use the global mode. Whoever does not greet first
/// is ignored. None of them changes anything.
pub proof fn law_refused(
    pre: AppState,
    first: FrameView,
    addr: Seq<char>,
    now: u64,
    session_id: u128,
    r: Opening,
    post: AppState,
    k: int,
)
    requires
        pre.opens(first, addr, now, session_id, r, post),
    ensures
        !(first is Hello) ==> r is Ignored && post == pre,
        first is Hello && first->Hello_0.version != 2 ==> r is Refused && r->Refused_0@
            == (FrameView::Reject {
            reason: "protocol version mismatch (server "@ + decimal(2) + ", client "@ + decimal(
                first->Hello_0.version as nat,
            ) + ")"@,
        }) && post == pre,
        first is Hello && first->Hello_0.version == 2 && (forall|j: int|
            0 <= j < pre.config.peers@.len() ==> (#[trigger] pre.config.peers@[j]).token@
                != first->Hello_0.token) ==> r is Refused && r->Refused_0@ == (FrameView::Reject {
            reason: "unknown token"@,
        }) && post == pre,
        first is Hello && first->Hello_0.version == 2 && 0 <= k < pre.config.peers@.len()
            && pre.config.peers@[k].token@ == first->Hello_0.token && (forall|j: int|
            0 <= j < k ==> (#[trigger] pre.config.peers@[j]).token@ != first->Hello_0.token) ==> {
            &&& !pre.config.peers@[k].enabled ==> r is Refused && r->Refused_0@
                == (FrameView::Reject { reason: "peer is disabled"@ }) && post == pre
            &&& pre.config.peers@[k].enabled && first->Hello_0.mode == SessionMode::GlobalProxy
                && !pre.config.peers@[k].allow_global ==> r is Refused && r->Refused_0@
                == (FrameView::Reject { reason: "global proxy not allowed for this peer"@ })
                && post == pre
        },
{
    if first is Hello {
        let token = first->Hello_0.token;
        let peers = pre.config.peers@;
        if forall|j: int| 0 <= j < peers.len() ==> (#[trigger] peers[j]).token@ != token {
            lemma_no_peer(peers, token);
        }
        if 0 <= k < peers.len() && peers[k].token@ == token && (forall|j: int|
            0 <= j < k ==> (#[trigger] peers[j]).token@ != token) {
            lemma_first_peer(peers, token, k);
        }
    }
}

/// What a client that is let in is told: its peer's address, and the prefix length,
/// gateway, packet size and resolvers of the server's configuration.
pub proof fn law_welcome(
    pre: AppState,
    first: FrameView,
    addr: Seq<char>,
    now: u64,
    session_id: u128,
    r: Opening,
    post: AppState,
)
    requires
        pre.opens(first, addr, now, session_id, r, post),
        r is Accepted,
    ensures
        r->Accepted_1@ is Welcome,
        ({
            let w = r->Accepted_1@->Welcome_0;
            &&& w.session_id == session_id
            &&& w.assigned_ip == r->Accepted_0.peer.ip
            &&& w.gateway == pre.config.network.gateway
            &&& w.mtu == pre.config.network.mtu
            &&& w.dns == pre.config.network.dns@
            &&& w.prefix_len == match ipv4_net_parsed(pre.config.network.subnet@) {
                Some((_, len)) => len,
                None => 24u8,
            }
        }),
{
}

/// What it is told of IPv6, if the server has egress and a subnet for it: an address in
/// the subnet whose low 32 bits are the IPv4 address of its peer, the prefix length of the
/// subnet, and the gateway and resolvers of the configuration; the session owns that
/// address too. Otherwise it is told nothing of IPv6.
pub proof fn law_welcome6(
    pre: AppState,
    first: FrameView,
    addr: Seq<char>,
    now: u64,
    session_id: u128,
    r: Opening,
    post: AppState,
)
    requires
        pre.opens(first, addr, now, session_id, r, post),
        r is Accepted,
    ensures
        r->Accepted_1@ is Welcome,
        ({
            let w = r->Accepted_1@->Welcome_0;
            let net = match pre.config.network.subnet6 {
                Some(t) => ipv6_net_parsed(t@),
                None => None,
            };
            match net {
                Some((bits, len)) if pre.ipv6 => {
                    &&& w.assigned_ip6 is Some
                    &&& w.prefix6 == len
                    &&& w.gateway6 == pre.config.network.gateway6
                    &&& w.dns6 == pre.config.network.dns6@
                    &&& post.router.owner6(w.assigned_ip6->Some_0) == Some(r->Accepted_0.id)
                    &&& post.router.sessions@[r->Accepted_0.id].info.ip6 == w.assigned_ip6
                    &&& w.assigned_ip6->Some_0.bits % 0x1_0000_0000
                        == r->Accepted_0.peer.ip.bits
                    &&& w.assigned_ip6->Some_0.bits as nat / 0x1_0000_0000 == (bits as nat
                        - bits as nat % pow2((128 - len) as nat)) / 0x1_0000_0000
                },
                _ => {
                    &&& w.assigned_ip6 is None
                    &&& w.prefix6 == 0
                    &&& w.gateway6 is None
                    &&& w.dns6.len() == 0
                },
            }
        }),
{
    let net = match pre.config.network.subnet6 {
        Some(t) => ipv6_net_parsed(t@),
        None => None,
    };
    if let Some((bits, len)) = net {
        if pre.ipv6 {
            let span = pow2((128 - len) as nat);
            let v4 = r->Accepted_0.peer.ip.bits;
            vstd::arithmetic::power2::lemma_pow2_pos((128 - len) as nat);
            vstd::arithmetic::div_mod::lemma_mod_bound(bits as int, span as int);
            vstd::arithmetic::div_mod::lemma_mod_decreases(bits as nat, span);
            let base = (bits as nat - bits as nat % span) as nat;
            assert(0 <= base <= bits);
            let d = (base - base % 0x1_0000_0000 + v4) as nat;
            assert(d <= u128::MAX) by {
                assert(base / 0x1_0000_0000 * 0x1_0000_0000 + 0xffff_ffff <= u128::MAX);
            }
            assert(d % 0x1_0000_0000 == v4);
            assert(d / 0x1_0000_0000 == base / 0x1_0000_0000);
        }
    }
}

/// A packet from the internet goes to the session that holds the address it is for, and to
/// nobody if none does.
pub proof fn law_answers_find_their_session(st: AppState, pkt: Seq<u8>, r: Option<u64>, d: u32)
    requires
        st.hands_to(pkt, r),
        is_to4(pkt, d),
    ensures
        r == st.router.owner(Ipv4Addr { bits: d }),
{
    law_destination(pkt, d, 0);
}

/// A session is kept until it has been silent for 45 seconds, and ended then.
pub proof fn law_silent_sessions(
    pre: AppState,
    s: Session,
    silent: u64,
    r: Option<Session>,
    post: AppState,
)
    requires
        pre.heeds_silence(s, silent, r, post),
    ensures
        silent < 45 ==> r == Some(s) && post == pre,
        silent >= 45 ==> r is None && pre.closes(s, post),
{
}

/// A session that ends is taken from the router, and what it sent and received is added to
/// what its peer sent and received before, under the peer's name, address and mode. No
/// other peer's record changes, nor do the totals.
pub proof fn law_ended_sessions_are_recorded(pre: AppState, s: Session, post: AppState)
    requires
        pre.closes(s, post),
        pre.router.sessions@.dom().contains(s.id),
    ensures
        ({
            let e = pre.router.sessions@[s.id];
            let old_record = pre.metrics.record(s.peer.token@);
            let a = post.metrics.record(s.peer.token@);
            &&& a is Some
            &&& a->Some_0.name@ == s.peer.name@
            &&& a->Some_0.ip == s.peer.ip
            &&& a->Some_0.mode == s.mode
            &&& old_record is None ==> a->Some_0.up == e.counters.up && a->Some_0.down
                == e.counters.down
            &&& old_record is Some ==> a->Some_0.up == old_record->Some_0.up + e.counters.up
            &&& old_record is Some ==> a->Some_0.down == old_record->Some_0.down
                + e.counters.down
        }),
        !post.router.sessions@.dom().contains(s.id),
        forall|t: Seq<char>|
            t != s.peer.token@ ==> #[trigger] post.metrics.record(t) == pre.metrics.record(t),
        post.metrics.total_up == pre.metrics.total_up,
        post.metrics.total_down == pre.metrics.total_down,
        post.config == pre.config,
{
}

/// Whatever a client sends, its session stays the same peer's, in the same mode, with the
/// same place on the peer LAN; and the server's configuration and setup stay as they are.
pub proof fn law_sessions_stay(
    pre: AppState,
    s: Session,
    f: FrameView,
    post: AppState,
    s2: Session,
    r: Action,
)
    requires
        pre.reacts(s, f, post, s2, r),
    ensures
        s2.id == s.id,
        s2.peer == s.peer,
        s2.mode == s.mode,
        s2.vpn_member == s.vpn_member,
        !(f is StreamOpen) && !(f is StreamClose) ==> s2.streams@ == s.streams@,
        post.config == pre.config,
        post.tun == pre.tun,
        post.ipv6 == pre.ipv6,
        post.next_id == pre.next_id,
        post.metrics.start == pre.metrics.start,
        post.metrics.timeline@ == pre.metrics.timeline@,
{
}

/// What a client is sent counts as received by its session and in the totals, and changes
/// nothing else.
pub proof fn law_sending_only_counts(pre: AppState, id: u64, n: u64, post: AppState)
    requires
        pre.counts_down(id, n, post),
    ensures
        post.config == pre.config,
        post.tun == pre.tun,
        post.ipv6 == pre.ipv6,
        post.next_id == pre.next_id,
        pre.metrics.total_down + n <= u64::MAX ==> post.metrics.total_down
            == pre.metrics.total_down + n,
        post.metrics.total_up == pre.metrics.total_up,
        post.metrics.start == pre.metrics.start,
        post.metrics.timeline@ == pre.metrics.timeline@,
        post.metrics.last == pre.metrics.last,
        pre.router.sessions@.dom().contains(id) && pre.router.sessions@[id].counters.down + n
            <= u64::MAX ==> post.router.sessions@[id].counters.down
            == pre.router.sessions@[id].counters.down + n && post.router.sessions@[id].counters.up
            == pre.router.sessions@[id].counters.up,
        forall|other: u64|
            other != id && pre.router.sessions@.dom().contains(other)
                ==> #[trigger] post.router.sessions@[other] == pre.router.sessions@[other],
{
}

}
