//! What a frame looks like on the wire, byte for byte.

use vstd::prelude::*;
use vstd::string::*;
use vstd::utf8::encode_utf8;

use super::codec::{enc_all, enc_opt, Wire};
use super::control::{target_text, HelloView, PeerInfoView, TargetView, WelcomeView};
use super::frame::{payload_len, FrameView};
use super::shown::{bytes_shown, commas, frame_shown};
use super::{Frame, Hello, PeerInfo};
use crate::addr::{dotted, ipv6_text, socket_text, IpAddr, Ipv4Addr, Ipv6Addr, SocketAddr};
use crate::bytes::{be128, be32, le16, le32, le64};
use crate::config::SessionMode;
use crate::text::{decimal, quoted};

verus! {

/// A text on the wire: the length of its UTF-8 form in eight bytes, and that form.
pub open spec fn wire_text(s: Seq<char>) -> Seq<u8> {
    le64(encode_utf8(s).len() as u64) + encode_utf8(s)
}

/// A frame begins with its kind in four bytes, lowest byte first.
pub proof fn law_frame_kinds(f: FrameView)
    ensures
        Frame::enc(f).len() >= 4,
        Frame::enc(f).take(4) == seq![
            match f {
                FrameView::Hello(_) => 0u8,
                FrameView::Welcome(_) => 1,
                FrameView::Reject { .. } => 2,
                FrameView::Ping => 3,
                FrameView::Pong => 4,
                FrameView::Packet(_) => 5,
                FrameView::StreamOpen { .. } => 6,
                FrameView::StreamData { .. } => 7,
                FrameView::StreamClose { .. } => 8,
                FrameView::GetPeers => 9,
                FrameView::PeerList { .. } => 10,
            },
            0,
            0,
            0,
        ],
{
    assert(Frame::enc(f).take(4) =~= le32(super::codec::frame_index(f)));
}

/// A ping, a pong and the question for the peers are their kind alone.
pub proof fn law_bare_frames()
    ensures
        Frame::enc(FrameView::Ping) == seq![3u8, 0, 0, 0],
        Frame::enc(FrameView::Pong) == seq![4u8, 0, 0, 0],
        Frame::enc(FrameView::GetPeers) == seq![9u8, 0, 0, 0],
{
    assert(Frame::enc(FrameView::Ping) =~= seq![3u8, 0, 0, 0]);
    assert(Frame::enc(FrameView::Pong) =~= seq![4u8, 0, 0, 0]);
    assert(Frame::enc(FrameView::GetPeers) =~= seq![9u8, 0, 0, 0]);
}

/// A packet and the data of a stream travel whole behind their length; the data has the
/// number of its stream before it.
pub proof fn law_payload_frames(p: Seq<u8>, id: u32)
    ensures
        Frame::enc(FrameView::Packet(p)) == seq![5u8, 0, 0, 0] + le64(p.len() as u64) + p,
        Frame::enc(FrameView::StreamData { id, data: p }) == seq![7u8, 0, 0, 0] + le32(id) + le64(
            p.len() as u64,
        ) + p,
{
    assert(Frame::enc(FrameView::Packet(p)) =~= seq![5u8, 0, 0, 0] + le64(p.len() as u64) + p);
    assert(Frame::enc(FrameView::StreamData { id, data: p }) =~= seq![7u8, 0, 0, 0] + le32(id)
        + le64(p.len() as u64) + p);
}

/// A stream is opened with its number and the target, and closed with its number and the
/// error, if any. A refusal is its reason.
pub proof fn law_stream_frames(id: u32, host: Seq<char>, port: u16, e: Seq<char>)
    ensures
        Frame::enc(FrameView::StreamOpen { id, target: TargetView::Domain(host, port) }) == seq![
            6u8,
            0,
            0,
            0,
        ] + le32(id) + seq![1u8, 0, 0, 0] + wire_text(host) + le16(port),
        Frame::enc(FrameView::StreamClose { id, error: None }) == seq![8u8, 0, 0, 0] + le32(id)
            + seq![0u8],
        Frame::enc(FrameView::StreamClose { id, error: Some(e) }) == seq![8u8, 0, 0, 0] + le32(id)
            + seq![1u8] + wire_text(e),
        Frame::enc(FrameView::Reject { reason: e }) == seq![2u8, 0, 0, 0] + wire_text(e),
{
    assert(Frame::enc(FrameView::StreamOpen { id, target: TargetView::Domain(host, port) })
        =~= seq![6u8, 0, 0, 0] + le32(id) + seq![1u8, 0, 0, 0] + wire_text(host) + le16(port));
    assert(Frame::enc(FrameView::StreamClose { id, error: None }) =~= seq![8u8, 0, 0, 0] + le32(
        id,
    ) + seq![0u8]);
    assert(Frame::enc(FrameView::StreamClose { id, error: Some(e) }) =~= seq![8u8, 0, 0, 0]
        + le32(id) + seq![1u8] + wire_text(e));
    assert(Frame::enc(FrameView::Reject { reason: e }) =~= seq![2u8, 0, 0, 0] + wire_text(e));
}

/// A target that is an address travels as its kind, the address with the highest byte
/// first, and the port.
pub proof fn law_address_targets(id: u32, a: Ipv4Addr, b: Ipv6Addr, port: u16)
    ensures
        Frame::enc(
            FrameView::StreamOpen {
                id,
                target: TargetView::Ip(SocketAddr { ip: IpAddr::V4(a), port }),
            },
        ) == seq![6u8, 0, 0, 0] + le32(id) + seq![0u8, 0, 0, 0, 0, 0, 0, 0] + be32(a.bits) + le16(
            port,
        ),
        Frame::enc(
            FrameView::StreamOpen {
                id,
                target: TargetView::Ip(SocketAddr { ip: IpAddr::V6(b), port }),
            },
        ) == seq![6u8, 0, 0, 0] + le32(id) + seq![0u8, 0, 0, 0, 1, 0, 0, 0] + be128(b.bits) + le16(
            port,
        ),
{
    let v4 = FrameView::StreamOpen {
        id,
        target: TargetView::Ip(SocketAddr { ip: IpAddr::V4(a), port }),
    };
    let v6 = FrameView::StreamOpen {
        id,
        target: TargetView::Ip(SocketAddr { ip: IpAddr::V6(b), port }),
    };
    assert(Frame::enc(v4) =~= seq![6u8, 0, 0, 0] + le32(id) + seq![0u8, 0, 0, 0, 0, 0, 0, 0]
        + be32(a.bits) + le16(port));
    assert(Frame::enc(v6) =~= seq![6u8, 0, 0, 0] + le32(id) + seq![0u8, 0, 0, 0, 1, 0, 0, 0]
        + be128(b.bits) + le16(port));
}

/// An optional item travels as one byte and, if there is one, the item.
pub proof fn law_optional_items(ip: Ipv4Addr, ip6: Ipv6Addr, t: Seq<char>)
    ensures
        enc_opt::<Ipv4Addr>(None) == seq![0u8],
        enc_opt::<Ipv4Addr>(Some(ip)) == seq![1u8] + be32(ip.bits),
        enc_opt::<Ipv6Addr>(None) == seq![0u8],
        enc_opt::<Ipv6Addr>(Some(ip6)) == seq![1u8] + be128(ip6.bits),
        enc_opt::<String>(None) == seq![0u8],
        enc_opt::<String>(Some(t)) == seq![1u8] + wire_text(t),
{
}

/// A greeting: version, token, mode, wanted address, name, and whether it joins the peer
/// LAN, in that order.
pub proof fn law_hello_layout(h: HelloView)
    ensures
        Frame::enc(FrameView::Hello(h)) == seq![0u8, 0, 0, 0] + le16(h.version) + wire_text(
            h.token,
        ) + seq![
            match h.mode {
                SessionMode::GlobalProxy => 0u8,
                SessionMode::SystemProxy => 1,
                SessionMode::HttpProxy => 2,
                SessionMode::Vpn => 3,
            },
            0,
            0,
            0,
        ] + enc_opt::<Ipv4Addr>(h.requested_ip) + enc_opt::<String>(h.client_name) + seq![
            if h.join_vpn {
                1u8
            } else {
                0u8
            },
        ],
{
    let mode = seq![
        match h.mode {
            SessionMode::GlobalProxy => 0u8,
            SessionMode::SystemProxy => 1,
            SessionMode::HttpProxy => 2,
            SessionMode::Vpn => 3,
        },
        0,
        0,
        0,
    ];
    assert(SessionMode::enc(h.mode) =~= mode);
    assert(le32(0) =~= seq![0u8, 0, 0, 0]);
    assert(Hello::enc(h) =~= le16(h.version) + wire_text(h.token) + mode + enc_opt::<Ipv4Addr>(
        h.requested_ip,
    ) + enc_opt::<String>(h.client_name) + seq![
        if h.join_vpn {
            1u8
        } else {
            0u8
        },
    ]);
    assert(Frame::enc(FrameView::Hello(h)) =~= seq![0u8, 0, 0, 0] + Hello::enc(h));
}

/// A welcome: the session's number, address, prefix length, gateway, MTU and resolvers,
/// and behind them the same for IPv6.
pub proof fn law_welcome_layout(w: WelcomeView)
    ensures
        ({
            let head = le64(16) + be128(w.session_id) + be32(w.assigned_ip.bits) + seq![
                w.prefix_len,
            ] + be32(w.gateway.bits) + le16(w.mtu) + (le64(w.dns.len() as u64) + enc_all::<
                Ipv4Addr,
            >(w.dns));
            let tail = enc_opt::<Ipv6Addr>(w.assigned_ip6) + seq![w.prefix6] + enc_opt::<Ipv6Addr>(
                w.gateway6,
            ) + (le64(w.dns6.len() as u64) + enc_all::<Ipv6Addr>(w.dns6));
            Frame::enc(FrameView::Welcome(w)) == seq![1u8, 0, 0, 0] + (head + tail)
        }),
{
    assert(be128(w.session_id).len() == 16);
    assert(le32(1) =~= seq![1u8, 0, 0, 0]);
}

/// A peer list: how many there are, and each with its address, name and IPv6 address, in
/// order.
pub proof fn law_peer_list_layout(peers: Seq<PeerInfoView>, p: PeerInfoView)
    ensures
        Frame::enc(FrameView::PeerList { peers }) == seq![10u8, 0, 0, 0] + le64(
            peers.len() as u64,
        ) + enc_all::<PeerInfo>(peers),
        enc_all::<PeerInfo>(seq![p] + peers) == be32(p.ip.bits) + wire_text(p.name) + enc_opt::<
            Ipv6Addr,
        >(p.ip6) + enc_all::<PeerInfo>(peers),
        enc_all::<PeerInfo>(Seq::empty()).len() == 0,
{
    assert(Frame::enc(FrameView::PeerList { peers }) =~= seq![10u8, 0, 0, 0] + le64(
        peers.len() as u64,
    ) + enc_all::<PeerInfo>(peers));
    assert((seq![p] + peers).skip(1) =~= peers);
    assert((seq![p] + peers)[0] == p);
}

/// Resolvers travel one after the other, each with its highest byte first.
pub proof fn law_resolvers_layout(
    a: Ipv4Addr,
    dns: Seq<Ipv4Addr>,
    b: Ipv6Addr,
    dns6: Seq<Ipv6Addr>,
)
    ensures
        enc_all::<Ipv4Addr>(seq![a] + dns) == be32(a.bits) + enc_all::<Ipv4Addr>(dns),
        enc_all::<Ipv4Addr>(Seq::empty()).len() == 0,
        enc_all::<Ipv6Addr>(seq![b] + dns6) == be128(b.bits) + enc_all::<Ipv6Addr>(dns6),
        enc_all::<Ipv6Addr>(Seq::empty()).len() == 0,
{
    assert((seq![a] + dns).skip(1) =~= dns);
    assert((seq![b] + dns6).skip(1) =~= dns6);
}

/// What is dialed for a target: host and port with a colon between them, an IPv6 address
/// in square brackets.
pub proof fn law_target_text(a: Ipv4Addr, b: Ipv6Addr, host: Seq<char>, port: u16)
    ensures
        target_text(TargetView::Domain(host, port)) == host + seq![':'] + decimal(port as nat),
        target_text(TargetView::Ip(SocketAddr { ip: IpAddr::V4(a), port })) == dotted(a.bits)
            + seq![':'] + decimal(port as nat),
        target_text(TargetView::Ip(SocketAddr { ip: IpAddr::V6(b), port })) == seq!['[']
            + ipv6_text(b.bits) + seq![']', ':'] + decimal(port as nat),
{
    crate::addr::law_socket_text(IpAddr::V4(a), port);
    crate::addr::law_socket_text(IpAddr::V6(b), port);
    reveal_strlit(":");
    assert(":"@ =~= seq![':']);
}

/// Packets and stream data count by their length, and no other frame counts.
pub proof fn law_payload_counts(f: FrameView)
    ensures
        f is Packet ==> payload_len(f) == f->Packet_0.len(),
        f is StreamData ==> payload_len(f) == f->data.len(),
        !(f is Packet) && !(f is StreamData) ==> payload_len(f) == 0,
{
}

/// What is told of a frame that was not expected.
pub proof fn law_frame_texts(
    id: u32,
    data: Seq<u8>,
    host: Seq<char>,
    port: u16,
    a: SocketAddr,
    t: Seq<char>,
)
    ensures
        frame_shown(FrameView::Ping) == "Ping"@,
        frame_shown(FrameView::Pong) == "Pong"@,
        frame_shown(FrameView::GetPeers) == "GetPeers"@,
        frame_shown(FrameView::Reject { reason: t }) == "Reject { reason: "@ + quoted(t) + " }"@,
        frame_shown(FrameView::Packet(data)) == "Packet("@ + bytes_shown(data) + ")"@,
        frame_shown(FrameView::StreamData { id, data }) == "StreamData { id: "@ + decimal(
            id as nat,
        ) + ", data: "@ + bytes_shown(data) + " }"@,
        frame_shown(FrameView::StreamClose { id, error: None }) == "StreamClose { id: "@ + decimal(
            id as nat,
        ) + ", error: "@ + "None"@ + " }"@,
        frame_shown(FrameView::StreamClose { id, error: Some(t) }) == "StreamClose { id: "@
            + decimal(id as nat) + ", error: "@ + ("Some("@ + quoted(t) + ")"@) + " }"@,
        frame_shown(FrameView::StreamOpen { id, target: TargetView::Domain(host, port) })
            == "StreamOpen { id: "@ + decimal(id as nat) + ", target: "@ + ("Domain("@ + quoted(
            host,
        ) + ", "@ + decimal(port as nat) + ")"@) + " }"@,
        frame_shown(FrameView::StreamOpen { id, target: TargetView::Ip(a) })
            == "StreamOpen { id: "@ + decimal(id as nat) + ", target: "@ + ("Ip("@ + socket_text(a)
            + ")"@) + " }"@,
{
}

/// Bytes are shown as a list of their numbers, a comma and a space between them.
pub proof fn law_bytes_text(b: Seq<u8>, x: u8)
    ensures
        bytes_shown(Seq::empty()) == seq!['[', ']'],
        bytes_shown(seq![x]) == seq!['['] + decimal(x as nat) + seq![']'],
        b.len() > 0 ==> bytes_shown(b.push(x)) == bytes_shown(b).drop_last() + seq![',', ' ']
            + decimal(x as nat) + seq![']'],
{
    reveal_strlit("[");
    reveal_strlit("]");
    reveal_strlit(", ");
    assert("["@ =~= seq!['[']);
    assert("]"@ =~= seq![']']);
    assert(", "@ =~= seq![',', ' ']);
    let f = |x: u8| decimal(x as nat);
    assert(Seq::<u8>::empty().map_values(f) =~= Seq::<Seq<char>>::empty());
    assert(bytes_shown(Seq::empty()) =~= seq!['[', ']']);
    assert(seq![x].map_values(f) =~= seq![decimal(x as nat)]);
    assert(bytes_shown(seq![x]) =~= seq!['['] + decimal(x as nat) + seq![']']);
    let all = b.map_values(f);
    assert(b.push(x).map_values(f) =~= all.push(decimal(x as nat)));
    assert(all.push(decimal(x as nat)).drop_last() =~= all);
    if b.len() > 0 {
        assert(bytes_shown(b).drop_last() =~= "["@ + commas(all));
        assert(bytes_shown(b.push(x)) =~= bytes_shown(b).drop_last() + seq![',', ' '] + decimal(
            x as nat,
        ) + seq![']']);
    }
}

}
