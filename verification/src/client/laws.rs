//! What the client does for its user: where requests to the local proxy go, what becomes of
//! the bytes of a session, how servers are dialed and greeted, and how a session goes on.

use vstd::prelude::*;
use vstd::string::*;

use super::chain::{
    answered, carried, carrier_does, dials, frame_views, greeting, hop_failure, hop_greeting,
    hops_of, resolved, secures, target_from, CarrierAction, CarrierEvent, ChainAction, ChainBuild,
    Phase,
};
use super::config::{
    imported, is_flat_server, link_from, names, server_named, ClientConfig, ConnectionSettings,
    Profile, ProfileView, ServerEntry,
};
use super::engine::{
    after_failures, brings_down, end_of, first_hop_only, is_chain_plan, is_member, is_plan,
    lan_beside, pinned, resumes, run_for, sends_up, starts, watched, BridgeEnd, ChainPlan, ConnEnd,
    Direct, DownAction, LiveStatus, NextStep, PacketSession, Run, SessionPlan, UpAction, UpEvent,
};
use super::proxy::{
    blank_line, frame_for, head_read, host_and_port, host_header, opens_stream, request_target,
    target_in, HttpMode, LocalEvent, ProxyAction, Request,
};
use crate::addr::{ip_parsed, ip_text, IpAddr, Ipv4Addr, SocketAddr};
use crate::config::{key_of, psk_of, SessionMode, TransportKind};
use crate::error::{Error, Failure};
use crate::protocol::control::{opt_view, views, TargetView, WelcomeView};
use crate::protocol::frame::FrameView;
use crate::protocol::shown::frame_shown;
use crate::protocol::{Frame, Welcome};
use crate::server::laws::{data_for, handed_to, law_uploads_are_complete, session_run};
use crate::server::session::{remote_frame, Action, AppState, RemoteEvent, Session};
use crate::text::{
    decimal, law_around_last, law_decimal, law_parts, law_without_prefix, lines_of, number,
    occurs_at, same_letters, texts, trimmed, without_prefix, words_of,
};
use crate::transport::Endpoint;

verus! {

/// Payload bytes add up in the counters of a session, each direction for itself; a full
/// counter stays full.
pub proof fn law_traffic_is_counted(s: LiveStatus, up: nat, down: nat, post: LiveStatus)
    requires
        s.counted(up, down, post),
    ensures
        s.up_bytes + up <= u64::MAX ==> post.up_bytes == s.up_bytes + up,
        s.up_bytes + up > u64::MAX ==> post.up_bytes == u64::MAX,
        s.down_bytes + down <= u64::MAX ==> post.down_bytes == s.down_bytes + down,
        s.down_bytes + down > u64::MAX ==> post.down_bytes == u64::MAX,
        post.assigned_ip == s.assigned_ip,
        post.peers == s.peers,
{
}

/// Data for a stream of the local proxy goes to its connection, byte for byte, whatever
/// its length, and counts as received; data for no stream goes nowhere.
pub proof fn law_downloads_arrive(
    pre: HttpMode,
    st: LiveStatus,
    id: u32,
    data: Seq<u8>,
    post: HttpMode,
    st2: LiveStatus,
    r: ProxyAction,
)
    requires
        pre.reacts(st, FrameView::StreamData { id, data }, post, st2, r),
    ensures
        pre.streams@.contains(id) ==> r is ToLocal && r->ToLocal_id == id && r->data@ == data,
        !pre.streams@.contains(id) ==> r is Nothing,
        post.streams@ == pre.streams@,
        post.next_id == pre.next_id,
        post.lan == pre.lan,
        st.down_bytes + data.len() <= u64::MAX ==> st2.down_bytes == st.down_bytes + data.len(),
        st2.up_bytes == st.up_bytes,
{
}

/// A stream that the server closes is ended: its connection is ended if it was open, and
/// the stream is no longer one of the session's. No other stream is touched.
pub proof fn law_closed_streams_end(
    pre: HttpMode,
    st: LiveStatus,
    id: u32,
    error: Option<Seq<char>>,
    post: HttpMode,
    st2: LiveStatus,
    r: ProxyAction,
)
    requires
        pre.reacts(st, FrameView::StreamClose { id, error }, post, st2, r),
    ensures
        pre.streams@.contains(id) ==> r is CloseLocal && r->CloseLocal_id == id,
        !pre.streams@.contains(id) ==> r is Nothing,
        !post.streams@.contains(id),
        forall|other: u32| other != id ==> (#[trigger] post.streams@.contains(other)
            <==> pre.streams@.contains(other)),
        st2 == st,
{
}

/// The local proxy answers a ping, writes packets of the peer LAN to its device if it has
/// one, and notes a peer list as it came.
pub proof fn law_proxy_upkeep(
    pre: HttpMode,
    st: LiveStatus,
    f: FrameView,
    post: HttpMode,
    st2: LiveStatus,
    r: ProxyAction,
)
    requires
        pre.reacts(st, f, post, st2, r),
    ensures
        f == FrameView::Ping ==> r is Reply && r->Reply_0@ == FrameView::Pong,
        f is Packet && pre.lan ==> r is ToTun && r->ToTun_0@ == f->Packet_0,
        f is Packet && !pre.lan ==> r is Nothing,
        f is PeerList ==> r is Nothing && views(st2.peers@) == f->peers,
        f is Pong || f is Reject || f is Hello || f is Welcome || f is StreamOpen || f
            is GetPeers ==> r is Nothing && st2 == st,
        !(f is StreamClose) ==> post.streams@ == pre.streams@,
{
}

/// Whether a local proxy takes the frames of its server one after the other.
pub open spec fn proxy_run(
    modes: Seq<HttpMode>,
    stats: Seq<LiveStatus>,
    frames: Seq<FrameView>,
    actions: Seq<ProxyAction>,
) -> bool {
    &&& modes.len() == frames.len() + 1
    &&& stats.len() == frames.len() + 1
    &&& actions.len() == frames.len()
    &&& forall|i: int|
        0 <= i < frames.len() ==> modes[i].reacts(
            stats[i],
            #[trigger] frames[i],
            modes[i + 1],
            stats[i + 1],
            actions[i],
        )
}

/// All data that some actions hand to the connection of a stream.
pub open spec fn delivered_to(actions: Seq<ProxyAction>, id: u32) -> Seq<u8>
    decreases actions.len(),
{
    if actions.len() == 0 {
        Seq::empty()
    } else {
        delivered_to(actions.drop_last(), id) + match actions.last() {
            ProxyAction::ToLocal { id: i, data } if i == id => data@,
            _ => Seq::empty(),
        }
    }
}

/// Over any run in which the server does not close a stream that is open at its start,
/// the bytes handed to the stream's connection are just the bytes that the server sent
/// for it, all of them, in order.
pub proof fn law_downloads_are_complete(
    modes: Seq<HttpMode>,
    stats: Seq<LiveStatus>,
    frames: Seq<FrameView>,
    actions: Seq<ProxyAction>,
    id: u32,
)
    requires
        proxy_run(modes, stats, frames, actions),
        modes[0].streams@.contains(id),
        forall|i: int|
            0 <= i < frames.len() ==> !((#[trigger] frames[i]) is StreamClose
                && frames[i]->StreamClose_id == id),
    ensures
        delivered_to(actions, id) == data_for(frames, id),
        modes.last().streams@.contains(id),
    decreases frames.len(),
{
    if frames.len() > 0 {
        let n = frames.len() - 1;
        let fs = frames.drop_last();
        let acts = actions.drop_last();
        let ms = modes.drop_last();
        let ss = stats.drop_last();
        assert(proxy_run(ms, ss, fs, acts)) by {
            assert forall|i: int| 0 <= i < fs.len() implies ms[i].reacts(
                ss[i],
                #[trigger] fs[i],
                ms[i + 1],
                ss[i + 1],
                acts[i],
            ) by {
                assert(fs[i] == frames[i]);
            }
        }
        assert forall|i: int| 0 <= i < fs.len() implies !((#[trigger] fs[i]) is StreamClose
            && fs[i]->StreamClose_id == id) by {
            assert(fs[i] == frames[i]);
        }
        law_downloads_are_complete(ms, ss, fs, acts, id);
        assert(ms.last() == modes[n]);
        assert(frames[n] == frames.last());
        assert(modes[n].reacts(stats[n], frames[n], modes[n + 1], stats[n + 1], actions[n]));
        assert(modes[n + 1] == modes.last());
    }
}

proof fn lemma_host_with_port(h: Seq<char>, port: u16, default: u16)
    ensures
        host_and_port(h + seq![':'] + decimal(port as nat), default) == (h, port),
{
    law_decimal(port as nat, 65535);
    assert forall|j: int| 0 <= j < decimal(port as nat).len() implies #[trigger] decimal(
        port as nat,
    )[j] != ':' by {
        assert('0' <= decimal(port as nat)[j] <= '9');
    }
    law_around_last(h, ':', decimal(port as nat));
}

proof fn lemma_host_alone(h: Seq<char>, default: u16)
    requires
        forall|j: int| 0 <= j < h.len() ==> #[trigger] h[j] != ':',
    ensures
        host_and_port(h, default) == (h, default),
{
    law_around_last(h, ':', h);
}

/// A `CONNECT` request, in small or capital letters, goes to the host and port that it
/// names, and to port 443 where it names none.
pub proof fn law_connect_requests(
    text: Seq<char>,
    quoted_first: Seq<char>,
    host: Seq<char>,
    port: u16,
)
    requires
        lines_of(text).len() > 0,
        words_of(lines_of(text)[0]).len() > 1,
        same_letters(words_of(lines_of(text)[0])[0], "CONNECT"@),
    ensures
        words_of(lines_of(text)[0])[1] == host + seq![':'] + decimal(port as nat)
            ==> request_target(text, quoted_first) == Ok::<(TargetView, bool), Failure>(
            (TargetView::Domain(host, port), true),
        ),
        words_of(lines_of(text)[0])[1] == host && (forall|j: int|
            0 <= j < host.len() ==> #[trigger] host[j] != ':') ==> request_target(
            text,
            quoted_first,
        ) == Ok::<(TargetView, bool), Failure>((TargetView::Domain(host, 443), true)),
{
    lemma_host_with_port(host, port, 443);
    if forall|j: int| 0 <= j < host.len() ==> #[trigger] host[j] != ':' {
        lemma_host_alone(host, 443);
    }
}

/// Any other request for an `http` address goes to the host and port of the address, and
/// to port 80 where it names none, whatever headers there are.
pub proof fn law_plain_requests(
    text: Seq<char>,
    quoted_first: Seq<char>,
    host: Seq<char>,
    port: u16,
    path: Seq<char>,
)
    requires
        lines_of(text).len() > 0,
        words_of(lines_of(text)[0]).len() > 1,
        !same_letters(words_of(lines_of(text)[0])[0], "CONNECT"@),
        host.len() > 0,
        forall|j: int| 0 <= j < host.len() ==> #[trigger] host[j] != '/',
    ensures
        words_of(lines_of(text)[0])[1] == "http://"@ + (host + seq![':'] + decimal(port as nat)
            + seq!['/'] + path) ==> request_target(text, quoted_first) == Ok::<
            (TargetView, bool),
            Failure,
        >((TargetView::Domain(host, port), false)),
        words_of(lines_of(text)[0])[1] == "http://"@ + (host + seq!['/'] + path) && (forall|j: int|
            0 <= j < host.len() ==> #[trigger] host[j] != ':') ==> request_target(
            text,
            quoted_first,
        ) == Ok::<(TargetView, bool), Failure>((TargetView::Domain(host, 80), false)),
        words_of(lines_of(text)[0])[1] == "http://"@ + host && (forall|j: int|
            0 <= j < host.len() ==> #[trigger] host[j] != ':') ==> request_target(
            text,
            quoted_first,
        ) == Ok::<(TargetView, bool), Failure>((TargetView::Domain(host, 80), false)),
{
    let hp = host + seq![':'] + decimal(port as nat);
    law_decimal(port as nat, 65535);
    assert forall|j: int| 0 <= j < hp.len() implies #[trigger] hp[j] != '/' by {
        if j < host.len() {
            assert(hp[j] == host[j]);
        } else if j > host.len() {
            assert(hp[j] == decimal(port as nat)[j - host.len() - 1]);
        }
    }
    law_parts(hp, '/', path);
    law_parts(host, '/', path);
    law_without_prefix("http://"@, hp + seq!['/'] + path);
    law_without_prefix("http://"@, host + seq!['/'] + path);
    law_without_prefix("http://"@, host);
    lemma_host_with_port(host, port, 80);
    if forall|j: int| 0 <= j < host.len() ==> #[trigger] host[j] != ':' {
        lemma_host_alone(host, 80);
    }
}

/// A request for a bare path goes where its `Host` header says; without that header it
/// is refused.
pub proof fn law_requests_by_header(
    text: Seq<char>,
    quoted_first: Seq<char>,
    host: Seq<char>,
    port: u16,
)
    requires
        lines_of(text).len() > 0,
        words_of(lines_of(text)[0]).len() > 1,
        !same_letters(words_of(lines_of(text)[0])[0], "CONNECT"@),
        without_prefix(words_of(lines_of(text)[0])[1], "http://"@) is None,
    ensures
        host_header(lines_of(text)) == host + seq![':'] + decimal(port as nat) ==> request_target(
            text,
            quoted_first,
        ) == Ok::<(TargetView, bool), Failure>((TargetView::Domain(host, port), false)),
        host.len() > 0 && host_header(lines_of(text)) == host && (forall|j: int|
            0 <= j < host.len() ==> #[trigger] host[j] != ':') ==> request_target(
            text,
            quoted_first,
        ) == Ok::<(TargetView, bool), Failure>((TargetView::Domain(host, 80), false)),
        host_header(lines_of(text)).len() == 0 ==> request_target(text, quoted_first) == Err::<
            (TargetView, bool),
            Failure,
        >(Failure::Protocol("cannot parse proxy target: "@ + quoted_first)),
{
    lemma_host_with_port(host, port, 80);
    if forall|j: int| 0 <= j < host.len() ==> #[trigger] host[j] != ':' {
        lemma_host_alone(host, 80);
    }
}

/// The `Host` header is what follows `Host:` or `host:` on the first line that begins
/// with either, white space aside.
pub proof fn law_host_header(
    before: Seq<Seq<char>>,
    line: Seq<char>,
    after: Seq<Seq<char>>,
    value: Seq<char>,
)
    requires
        forall|i: int|
            0 <= i < before.len() ==> without_prefix(trimmed(#[trigger] before[i]), "Host:"@)
                is None && without_prefix(trimmed(before[i]), "host:"@) is None,
        trimmed(line) == "Host:"@ + value || trimmed(line) == "host:"@ + value,
    ensures
        host_header(before + seq![line] + after) == trimmed(value),
        host_header(before).len() == 0,
    decreases before.len(),
{
    let all = before + seq![line] + after;
    if before.len() == 0 {
        law_without_prefix("Host:"@, value);
        law_without_prefix("host:"@, value);
        reveal_strlit("Host:");
        reveal_strlit("host:");
        if trimmed(line) == "host:"@ + value {
            law_without_prefix("Host:"@, trimmed(line));
            assert(trimmed(line)[0] == 'h');
        }
    } else {
        assert(all[0] == before[0]);
        assert(all.skip(1) =~= before.skip(1) + seq![line] + after);
        assert forall|i: int| 0 <= i < before.skip(1).len() implies without_prefix(
            trimmed(#[trigger] before.skip(1)[i]),
            "Host:"@,
        ) is None && without_prefix(trimmed(before.skip(1)[i]), "host:"@) is None by {
            assert(before.skip(1)[i] == before[i + 1]);
        }
        law_host_header(before.skip(1), line, after, value);
    }
}

/// The head of a request ends with the first empty line. What the request asks for is
/// read from the head alone, and what came so far is forwarded whole unless it is a
/// `CONNECT` request, of which nothing is.
pub proof fn law_request_heads(
    buf: Seq<u8>,
    r: Result<Option<Request>, Error>,
    blank: Seq<u8>,
    i: int,
)
    requires
        head_read(buf, r),
        blank == seq![13u8, 10u8, 13u8, 10u8],
        occurs_at(buf, blank, i),
        forall|j: int| 0 <= j < i ==> !#[trigger] occurs_at(buf, blank, j),
    ensures
        target_in(buf.subrange(0, i + 4)) is Ok ==> {
            &&& r is Ok && r->Ok_0 is Some
            &&& r->Ok_0->Some_0.target@ == target_in(buf.subrange(0, i + 4))->Ok_0.0
            &&& r->Ok_0->Some_0.is_connect == target_in(buf.subrange(0, i + 4))->Ok_0.1
            &&& r->Ok_0->Some_0.is_connect ==> r->Ok_0->Some_0.forward@.len() == 0
            &&& !r->Ok_0->Some_0.is_connect ==> r->Ok_0->Some_0.forward@ == buf
        },
        target_in(buf.subrange(0, i + 4)) is Err ==> r is Err && r->Err_0@ == target_in(
            buf.subrange(0, i + 4),
        )->Err_0,
{
    assert(blank_line() =~= blank);
    assert(occurs_at(buf, blank_line(), i));
    let k = choose|k: int| #[trigger]
        super::proxy::is_first_place(buf, blank_line(), k) && match target_in(
            buf.subrange(0, k + 4),
        ) {
            Ok((t, c)) => {
                &&& r is Ok && r->Ok_0 is Some
                &&& r->Ok_0->Some_0.target@ == t
                &&& r->Ok_0->Some_0.is_connect == c
                &&& r->Ok_0->Some_0.forward@ == if c {
                    Seq::empty()
                } else {
                    buf
                }
            },
            Err(f) => r is Err && r->Err_0@ == f,
        };
    assert(occurs_at(buf, blank_line(), k));
    if k < i {
        assert(!occurs_at(buf, blank, k));
    }
    if i < k {
        assert(!occurs_at(buf, blank_line(), i));
    }
}

/// Without an empty line, the head is waited for until more than 65536 bytes came; it is
/// refused after that.
pub proof fn law_unfinished_heads(
    buf: Seq<u8>,
    r: Result<Option<Request>, Error>,
    blank: Seq<u8>,
)
    requires
        head_read(buf, r),
        blank == seq![13u8, 10u8, 13u8, 10u8],
        forall|j: int| !#[trigger] occurs_at(buf, blank, j),
    ensures
        buf.len() <= 65536 ==> r is Ok && r->Ok_0 is None,
        buf.len() > 65536 ==> r is Err && r->Err_0@ == Failure::Protocol(
            "request head too large"@,
        ),
{
    assert(blank_line() =~= blank);
}

/// A server is dialed at its host and port over its transport, the WebSocket one at the
/// path `/et`, under its own TLS name, or its host where it has none.
pub proof fn law_server_is_dialed(e: Endpoint, s: ServerEntry)
    requires
        dials(e, s),
    ensures
        e.host@ == s.host@,
        e.port == s.port,
        e.kind == s.transport,
        e.ws_path@ == "/et"@,
        s.server_name is None ==> e.server_name@ == s.host@,
        s.server_name is Some ==> e.server_name@ == s.server_name->Some_0@,
{
}

/// What a session starts with: the server's endpoint, its key and its rule on
/// certificates, and a greeting in version 2 with its token, the mode, the wanted
/// address, the name of the client and whether it joins the peer LAN.
pub proof fn law_sessions_start(d: Direct, cfg: ClientConfig, s: ServerEntry)
    requires
        starts(d, cfg, s),
    ensures
        d.endpoint.host@ == s.host@,
        d.endpoint.port == s.port,
        d.endpoint.kind == s.transport,
        d.endpoint.ws_path@ == "/et"@,
        d.endpoint.server_name@ == if s.server_name is Some {
            s.server_name->Some_0@
        } else {
            s.host@
        },
        psk_of(s.noise_psk@) is Ok ==> d.security.noise_psk@ == psk_of(s.noise_psk@)->Ok_0,
        d.security.tls_skip_verify == s.tls_skip_verify,
        d.security.tls_pinned_cert_pem is None,
        d.hello@.version == 2,
        d.hello@.token == s.token@,
        cfg.mode == SessionMode::SystemProxy ==> d.hello@.mode == SessionMode::HttpProxy,
        cfg.mode != SessionMode::SystemProxy ==> d.hello@.mode == cfg.mode,
        d.hello@.requested_ip == cfg.requested_ip,
        d.hello@.client_name == opt_view(cfg.client_name),
        d.hello@.join_vpn == cfg.join_vpn,
{
}

/// What a session is taken up again with: as it started, but at the address that the
/// server had, and with a wish for the address that the session had.
pub proof fn law_sessions_resume(
    d: Direct,
    cfg: ClientConfig,
    s: ServerEntry,
    server_ip: IpAddr,
    assigned: Ipv4Addr,
)
    requires
        resumes(d, cfg, s, server_ip, assigned),
    ensures
        d.endpoint.host@ == ip_text(server_ip),
        d.endpoint.port == s.port,
        d.endpoint.kind == s.transport,
        d.endpoint.ws_path@ == "/et"@,
        d.endpoint.server_name@ == if s.server_name is Some {
            s.server_name->Some_0@
        } else {
            s.host@
        },
        psk_of(s.noise_psk@) is Ok ==> d.security.noise_psk@ == psk_of(s.noise_psk@)->Ok_0,
        d.security.tls_skip_verify == s.tls_skip_verify,
        d.security.tls_pinned_cert_pem is None,
        d.hello@.version == 2,
        d.hello@.token == s.token@,
        cfg.mode == SessionMode::SystemProxy ==> d.hello@.mode == SessionMode::HttpProxy,
        cfg.mode != SessionMode::SystemProxy ==> d.hello@.mode == cfg.mode,
        d.hello@.requested_ip == Some(assigned),
        d.hello@.client_name == opt_view(cfg.client_name),
        d.hello@.join_vpn == cfg.join_vpn,
{
}

/// A client is on the peer LAN in VPN mode, and in every other mode just if it joins it.
pub proof fn law_members(cfg: ClientConfig)
    ensures
        cfg.mode == SessionMode::Vpn ==> is_member(cfg),
        cfg.mode != SessionMode::Vpn ==> is_member(cfg) == cfg.join_vpn,
{
}

/// A VPN session over a chain is one on its first hop alone, the rest of the
/// configuration as it was.
pub proof fn law_vpn_uses_the_first_hop(c: ClientConfig, cfg: ClientConfig, hop0: ServerEntry)
    requires
        first_hop_only(c, cfg, hop0),
    ensures
        c.selected_server is Some && c.selected_server->Some_0@ == hop0.name@,
        c.chain@.len() == 0,
        c.mode == cfg.mode,
        c.join_vpn == cfg.join_vpn,
        c.tun_name == cfg.tun_name,
        c.servers@ == cfg.servers@,
        c.requested_ip == cfg.requested_ip,
        c.client_name == cfg.client_name,
        c.http_listen == cfg.http_listen,
        c.routes@ == cfg.routes@,
        c.split_mode == cfg.split_mode,
        c.ipv6_killswitch == cfg.ipv6_killswitch,
{
}

/// The session on the peer LAN beside a chain is a VPN session on the first hop alone,
/// on a device of its own.
pub proof fn law_lan_beside_a_chain(c: ClientConfig, cfg: ClientConfig, hop0: ServerEntry)
    requires
        lan_beside(c, cfg, hop0),
    ensures
        c.selected_server is Some && c.selected_server->Some_0@ == hop0.name@,
        c.chain@.len() == 0,
        c.mode == SessionMode::Vpn,
        !c.join_vpn,
        c.tun_name@ == cfg.tun_name@ + seq!['v'],
        c.tun_name@ != cfg.tun_name@,
        c.servers@ == cfg.servers@,
        c.requested_ip == cfg.requested_ip,
        c.client_name == cfg.client_name,
        c.routes@ == cfg.routes@,
        c.split_mode == cfg.split_mode,
{
    reveal_strlit("v");
    assert("v"@ =~= seq!['v']);
    assert((cfg.tun_name@ + "v"@).len() == cfg.tun_name@.len() + 1);
}

/// Pinning a server to an address changes its host to that address and, where that would
/// lose the name that TLS checks, keeps the old host as that name. Nothing else changes.
pub proof fn law_pinning(s: ServerEntry, literal: Option<IpAddr>, found: IpAddr, r: ServerEntry)
    requires
        pinned(s, literal, found, r),
    ensures
        r.host@ == ip_text(found),
        s.server_name is Some ==> opt_view(r.server_name) == Some(s.server_name->Some_0@),
        s.server_name is None && literal is None ==> opt_view(r.server_name) == Some(s.host@),
        s.server_name is None && literal is Some ==> r.server_name is None,
        r.name == s.name,
        r.port == s.port,
        r.transport == s.transport,
        r.token == s.token,
        r.noise_psk == s.noise_psk,
        r.tls_skip_verify == s.tls_skip_verify,
{
}

/// A tunnel counts as half-open as soon as bytes have moved in just one direction, and
/// never otherwise.
pub proof fn law_one_way_traffic_is_a_stall(last: (u64, u64), silent: nat, now: (u64, u64))
    ensures
        now.0 > last.0 && now.1 <= last.1 ==> watched(last, silent, now) is None,
        now.0 <= last.0 && now.1 > last.1 ==> watched(last, silent, now) is None,
        now.0 > last.0 && now.1 > last.1 ==> watched(last, silent, now) == Some(0nat),
        now.0 <= last.0 && now.1 <= last.1 ==> watched(last, silent, now) == Some(0nat),
{
}

/// A lost session is dialed three times at most, each time with a wish for the address
/// that it had.
pub proof fn law_three_attempts(n: nat, ip: Ipv4Addr)
    ensures
        n < 3 ==> after_failures(n, ip) is Dial,
        n < 3 ==> after_failures(n, ip)->attempt == n + 1,
        n < 3 ==> after_failures(n, ip)->requested_ip == ip,
        n >= 3 ==> after_failures(n, ip) is Stop,
{
}

/// A hop is opened to at its address where its host is one, and by name elsewhere.
pub proof fn law_hop_target(host: Seq<char>, port: u16, ip: Option<IpAddr>)
    ensures
        ip is Some ==> target_from(host, port, ip) == TargetView::Ip(
            SocketAddr { ip: ip->Some_0, port },
        ),
        ip is None ==> target_from(host, port, ip) == TargetView::Domain(host, port),
{
}

/// A host that is an address is that address; any other is what it was found at.
pub proof fn law_resolution(host: Seq<char>, literal: Option<IpAddr>, found: Option<IpAddr>)
    ensures
        literal is Some ==> resolved(host, literal, found) == Ok::<IpAddr, Failure>(
            literal->Some_0,
        ),
        literal is None && found is Some ==> resolved(host, literal, found) == Ok::<
            IpAddr,
            Failure,
        >(found->Some_0),
        literal is None && found is None ==> resolved(host, literal, found) == Err::<
            IpAddr,
            Failure,
        >(Failure::Config("cannot resolve host "@ + host)),
{
}

/// A greeting speaks version 2, holds what it was made of, and asks for the HTTP proxy
/// where the system proxy is wanted, for the server sees no difference.
pub proof fn law_greeting(
    token: Seq<char>,
    mode: SessionMode,
    requested_ip: Option<Ipv4Addr>,
    client_name: Option<Seq<char>>,
    join_vpn: bool,
)
    ensures
        ({
            let h = greeting(token, mode, requested_ip, client_name, join_vpn);
            &&& h.version == 2
            &&& h.token == token
            &&& h.requested_ip == requested_ip
            &&& h.client_name == client_name
            &&& h.join_vpn == join_vpn
            &&& mode == SessionMode::GlobalProxy ==> h.mode == SessionMode::GlobalProxy
            &&& mode == SessionMode::SystemProxy ==> h.mode == SessionMode::HttpProxy
            &&& mode == SessionMode::HttpProxy ==> h.mode == SessionMode::HttpProxy
            &&& mode == SessionMode::Vpn ==> h.mode == SessionMode::Vpn
        }),
{
}

/// What the answer to a greeting comes to: a welcome is taken, a refusal is an error with
/// its reason, and anything else is a breach of the protocol.
pub proof fn law_answers(f: FrameView)
    ensures
        f is Welcome ==> answered(f) == Ok::<WelcomeView, Failure>(f->Welcome_0),
        f is Reject ==> answered(f) == Err::<WelcomeView, Failure>(Failure::Auth(f->reason)),
        !(f is Welcome) && !(f is Reject) ==> answered(f) == Err::<WelcomeView, Failure>(
            Failure::Protocol("expected Welcome, got "@ + frame_shown(f)),
        ),
{
}

/// What a transport writes goes to the hop on stream 1 in pieces of 32768 bytes, the last
/// of which holds the rest: the piece at each place is the bytes at that place.
pub proof fn law_carrier_pieces(b: Seq<u8>, i: int)
    requires
        0 <= i < carried(b).len(),
    ensures
        carried(b)[i] is StreamData,
        carried(b)[i]->StreamData_id == 1,
        (i + 1) * 32768 <= b.len() ==> carried(b)[i]->data == b.subrange(
            i * 32768,
            (i + 1) * 32768,
        ),
        (i + 1) * 32768 > b.len() ==> carried(b)[i]->data == b.subrange(
            i * 32768,
            b.len() as int,
        ),
        i * 32768 < b.len(),
    decreases b.len(),
{
    if b.len() <= 32768 {
        assert(i == 0);
        assert(b =~= b.subrange(0, b.len() as int));
    } else {
        let rest = b.skip(32768);
        if i > 0 {
            assert(carried(b)[i] == carried(rest)[i - 1]);
            law_carrier_pieces(rest, i - 1);
            if (i + 1) * 32768 <= b.len() {
                assert(rest.subrange((i - 1) * 32768, i * 32768) =~= b.subrange(
                    i * 32768,
                    (i + 1) * 32768,
                ));
            } else {
                assert(rest.subrange((i - 1) * 32768, rest.len() as int) =~= b.subrange(
                    i * 32768,
                    b.len() as int,
                ));
            }
        } else {
            assert(b.take(32768) =~= b.subrange(0, 32768));
        }
    }
}

/// Data of stream 1 goes to the next hop's transport, whole; its end ends the transport's
/// input, as a failure does; a ping is answered; and once the transport is done, the stream
/// is closed without an error.
pub proof fn law_carrier(e: CarrierEvent, a: CarrierAction)
    requires
        carrier_does(e, a),
    ensures
        e matches CarrierEvent::Received(f) ==> {
            &&& f@ is StreamData && f@->StreamData_id == 1 ==> a is Deliver && a->Deliver_0@
                == f@->data
            &&& f@ is StreamData && f@->StreamData_id != 1 ==> a is Nothing
            &&& f@ is StreamClose && f@->StreamClose_id == 1 ==> a is End
            &&& f@ is StreamClose && f@->StreamClose_id != 1 ==> a is Nothing
            &&& f@ == FrameView::Ping ==> a is Send && a->Send_0@ == FrameView::Pong
        },
        e is Failed ==> a is End,
        e is Done ==> a is SendLast && a->SendLast_0@ == (FrameView::StreamClose {
            id: 1,
            error: None,
        }),
        e is Written ==> a is SendAll,
{
}

/// Each hop of a chain is greeted with its own token in version 2. All but the last relay
/// streams and assign no wanted address; the last runs the mode of the session. None joins
/// a peer LAN.
pub proof fn law_hop_greetings(
    hops: Seq<ServerEntry>,
    k: int,
    last: SessionMode,
    requested_ip: Option<Ipv4Addr>,
    client_name: Option<Seq<char>>,
)
    requires
        0 <= k < hops.len(),
    ensures
        ({
            let h = hop_greeting(hops, k, last, requested_ip, client_name);
            &&& h.version == 2
            &&& h.token == hops[k].token@
            &&& h.client_name == client_name
            &&& !h.join_vpn
            &&& k < hops.len() - 1 ==> h.mode == SessionMode::HttpProxy
            &&& k < hops.len() - 1 ==> h.requested_ip is None
            &&& k == hops.len() - 1 ==> h.requested_ip == requested_ip
            &&& k == hops.len() - 1 && last == SessionMode::SystemProxy ==> h.mode
                == SessionMode::HttpProxy
            &&& k == hops.len() - 1 && last != SessionMode::SystemProxy ==> h.mode == last
        }),
{
}

/// A hop with a bad key fails with what is wrong with it; the first hop may use any
/// transport, and the others any but QUIC.
pub proof fn law_hop_failures(hops: Seq<ServerEntry>, k: int)
    requires
        0 <= k < hops.len(),
    ensures
        psk_of(hops[k].noise_psk@) is Err ==> hop_failure(hops, k) == Some(
            psk_of(hops[k].noise_psk@)->Err_0,
        ),
        psk_of(hops[k].noise_psk@) is Ok && k == 0 ==> hop_failure(hops, k) is None,
        psk_of(hops[k].noise_psk@) is Ok && hops[k].transport != TransportKind::Quic
            ==> hop_failure(hops, k) is None,
        psk_of(hops[k].noise_psk@) is Ok && k > 0 && hops[k].transport == TransportKind::Quic
            ==> hop_failure(hops, k) == Some(
            Failure::NotImplemented(
                "QUIC can only be the first hop of a proxy chain (UDP can't tunnel over a relayed stream)"@,
            ),
        ),
{
}

/// A name stands for the first server that bears it, and for none if none does.
pub proof fn law_servers_by_name(
    before: Seq<ServerEntry>,
    s: ServerEntry,
    after: Seq<ServerEntry>,
    name: Seq<char>,
)
    requires
        forall|i: int| 0 <= i < before.len() ==> (#[trigger] before[i]).name@ != name,
        s.name@ == name,
    ensures
        server_named(before + seq![s] + after, name) == Some(s),
        server_named(before, name) is None,
    decreases before.len(),
{
    let all = before + seq![s] + after;
    if before.len() > 0 {
        assert(all[0] == before[0]);
        assert(all.skip(1) =~= before.skip(1) + seq![s] + after);
        assert forall|i: int| 0 <= i < before.skip(1).len() implies (#[trigger] before.skip(
            1,
        )[i]).name@ != name by {
            assert(before.skip(1)[i] == before[i + 1]);
        }
        law_servers_by_name(before.skip(1), s, after, name);
    }
}

/// A chain is the servers that it names, one after the other; names of no server are
/// left out.
pub proof fn law_chains(a: Seq<Seq<char>>, b: Seq<Seq<char>>, servers: Seq<ServerEntry>)
    ensures
        hops_of(a + b, servers) == hops_of(a, servers) + hops_of(b, servers),
        b.len() == 1 && server_named(servers, b[0]) is Some ==> hops_of(b, servers)
            == seq![server_named(servers, b[0])->Some_0],
        b.len() == 1 && server_named(servers, b[0]) is None ==> hops_of(b, servers).len() == 0,
        b.len() == 0 ==> hops_of(b, servers).len() == 0,
    decreases b.len(),
{
    if b.len() == 0 {
        assert(a + b =~= a);
        assert(hops_of(a, servers) + hops_of(b, servers) =~= hops_of(a, servers));
    } else {
        assert((a + b).drop_last() =~= a + b.drop_last());
        assert((a + b).last() == b.last());
        law_chains(a, b.drop_last(), servers);
        if b.len() == 1 {
            assert(b.drop_last() =~= Seq::<Seq<char>>::empty());
            assert(hops_of(b.drop_last(), servers) =~= Seq::<ServerEntry>::empty());
        }
        assert(hops_of(a + b, servers) =~= hops_of(a, servers) + hops_of(b, servers));
    }
}

/// The server of a configuration without a list is called `default` and made of the flat
/// fields.
pub proof fn law_flat_server(e: ServerEntry, c: ClientConfig)
    requires
        is_flat_server(e, c),
    ensures
        e.name@ == "default"@,
        e.host@ == c.server_host@,
        e.port == c.server_port,
        e.transport == c.transport,
        e.token@ == c.token@,
        e.noise_psk@ == c.noise_psk@,
        e.tls_skip_verify == c.tls_skip_verify,
        opt_view(e.server_name) == opt_view(c.server_name),
{
}

/// A configuration is composed of the servers of a profile and the settings, whole, and
/// names no server in flat fields.
pub proof fn law_composition(c: ClientConfig, p: Profile, s: ConnectionSettings)
    requires
        c.composes(p, s),
    ensures
        c.name@ == p.name@,
        opt_view(c.selected_server) == opt_view(p.selected_server),
        c.servers@ == p.servers@,
        c.mode == s.mode,
        c.requested_ip == s.requested_ip,
        opt_view(c.client_name) == opt_view(s.client_name),
        c.tun_name@ == s.tun_name@,
        c.http_listen@ == s.http_listen@,
        c.join_vpn == s.join_vpn,
        c.routes@ == s.routes@,
        c.split_mode == s.split_mode,
        c.chain@ == s.chain@,
        c.ipv6_killswitch == s.ipv6_killswitch,
        c.server_host@.len() == 0,
        c.token@.len() == 0,
        c.noise_psk@.len() == 0,
        c.server_name is None,
{
}

/// An import takes all profiles of a bundle that has any; without one, a configuration
/// with servers is one profile of them, under its own name or `imported`.
pub proof fn law_imports(
    bundle: Option<Seq<ProfileView>>,
    single: Result<ClientConfig, String>,
)
    ensures
        bundle is Some && bundle->Some_0.len() > 0 ==> imported(bundle, single) == Ok::<
            Seq<ProfileView>,
            Failure,
        >(bundle->Some_0),
        (bundle is None || bundle->Some_0.len() == 0) && single is Ok && single->Ok_0.servers@.len()
            > 0 ==> {
            let r = imported(bundle, single);
            &&& r is Ok
            &&& r->Ok_0.len() == 1
            &&& r->Ok_0[0].servers == single->Ok_0.servers@
            &&& r->Ok_0[0].selected_server == opt_view(single->Ok_0.selected_server)
            &&& single->Ok_0.name@.len() > 0 ==> r->Ok_0[0].name == single->Ok_0.name@
            &&& single->Ok_0.name@.len() == 0 ==> r->Ok_0[0].name == "imported"@
        },
        (bundle is None || bundle->Some_0.len() == 0) && single is Ok
            && single->Ok_0.servers@.len() == 0 ==> imported(bundle, single) == Err::<
            Seq<ProfileView>,
            Failure,
        >(Failure::Config("TOML has no profiles and no [[servers]] to import"@)),
        (bundle is None || bundle->Some_0.len() == 0) && single is Err ==> imported(bundle, single)
            == Err::<Seq<ProfileView>, Failure>(
            Failure::Config("not a profile bundle or client.toml: "@ + single->Err_0@),
        ),
{
}

/// A link is decoded by the first of the three alphabets that takes it.
pub proof fn law_link_alphabets(
    standard: Result<Seq<u8>, Seq<char>>,
    url: Result<Seq<u8>, Seq<char>>,
    bare: Result<Seq<u8>, Seq<char>>,
)
    ensures
        standard is Ok ==> link_from(standard, url, bare) == Ok::<Seq<u8>, Failure>(
            standard->Ok_0,
        ),
        standard is Err && url is Ok ==> link_from(standard, url, bare) == Ok::<Seq<u8>, Failure>(
            url->Ok_0,
        ),
        standard is Err && url is Err && bare is Ok ==> link_from(standard, url, bare) == Ok::<
            Seq<u8>,
            Failure,
        >(bare->Ok_0),
        standard is Err && url is Err && bare is Err ==> link_from(standard, url, bare) == Err::<
            Seq<u8>,
            Failure,
        >(Failure::Config("invalid config link (base64): "@ + bare->Err_0)),
{
}

/// A key is 32 bytes; a text of any other length is refused.
pub proof fn law_keys(decoded: Result<Seq<u8>, Seq<char>>)
    ensures
        decoded is Ok && decoded->Ok_0.len() == 32 ==> key_of(decoded) == Ok::<Seq<u8>, Failure>(
            decoded->Ok_0,
        ),
        decoded is Ok && decoded->Ok_0.len() != 32 ==> key_of(decoded) == Err::<Seq<u8>, Failure>(
            Failure::Config("psk must be 32 bytes, got "@ + decimal(decoded->Ok_0.len())),
        ),
        decoded is Err ==> key_of(decoded) == Err::<Seq<u8>, Failure>(
            Failure::Config("invalid psk base64: "@ + decoded->Err_0),
        ),
{
}

/// Whether the way down takes the frames of the server one after the other.
pub open spec fn downlink_run(
    stats: Seq<LiveStatus>,
    frames: Seq<FrameView>,
    actions: Seq<DownAction>,
) -> bool {
    &&& stats.len() == frames.len() + 1
    &&& actions.len() == frames.len()
    &&& forall|i: int|
        0 <= i < frames.len() ==> brings_down(
            stats[i],
            #[trigger] frames[i],
            stats[i + 1],
            actions[i],
        )
}

/// The packets that some frames carry.
pub open spec fn packets_in(frames: Seq<FrameView>) -> Seq<Seq<u8>>
    decreases frames.len(),
{
    if frames.len() == 0 {
        Seq::empty()
    } else {
        match frames.last() {
            FrameView::Packet(p) => packets_in(frames.drop_last()).push(p),
            _ => packets_in(frames.drop_last()),
        }
    }
}

/// The packets that some actions write to the device.
pub open spec fn written(actions: Seq<DownAction>) -> Seq<Seq<u8>>
    decreases actions.len(),
{
    if actions.len() == 0 {
        Seq::empty()
    } else {
        match actions.last() {
            DownAction::ToTun(p) => written(actions.drop_last()).push(p@),
            _ => written(actions.drop_last()),
        }
    }
}

/// How many bytes some packets hold.
pub open spec fn total(packets: Seq<Seq<u8>>) -> nat
    decreases packets.len(),
{
    if packets.len() == 0 {
        0
    } else {
        total(packets.drop_last()) + packets.last().len()
    }
}

/// Over any run, the packets written to the device are just the packets that the server
/// sent, all of them, whole and in order, and the bytes received are their bytes.
pub proof fn law_packets_reach_the_device(
    stats: Seq<LiveStatus>,
    frames: Seq<FrameView>,
    actions: Seq<DownAction>,
)
    requires
        downlink_run(stats, frames, actions),
    ensures
        written(actions) == packets_in(frames),
        stats[0].down_bytes + total(packets_in(frames)) <= u64::MAX ==> stats.last().down_bytes
            == stats[0].down_bytes + total(packets_in(frames)),
        stats.last().up_bytes == stats[0].up_bytes,
    decreases frames.len(),
{
    if frames.len() > 0 {
        let n = frames.len() - 1;
        let fs = frames.drop_last();
        let acts = actions.drop_last();
        let ss = stats.drop_last();
        assert(downlink_run(ss, fs, acts)) by {
            assert forall|i: int| 0 <= i < fs.len() implies brings_down(
                ss[i],
                #[trigger] fs[i],
                ss[i + 1],
                acts[i],
            ) by {
                assert(fs[i] == frames[i]);
            }
        }
        law_packets_reach_the_device(ss, fs, acts);
        assert(ss.last() == stats[n]);
        assert(ss[0] == stats[0]);
        assert(frames[n] == frames.last());
        assert(brings_down(stats[n], frames[n], stats[n + 1], actions[n]));
        assert(stats[n + 1] == stats.last());
        if frames.last() is Packet {
            let p = frames.last()->Packet_0;
            let before = packets_in(fs);
            assert(before.push(p).drop_last() =~= before);
            assert(total(before.push(p)) == total(before) + p.len());
        }
    }
}

/// On the way down a ping is answered, and a peer list is noted as it came.
pub proof fn law_downlink_upkeep(pre: LiveStatus, f: FrameView, post: LiveStatus, r: DownAction)
    requires
        brings_down(pre, f, post, r),
    ensures
        f == FrameView::Ping ==> r is Reply && r->Reply_0@ == FrameView::Pong && post == pre,
        f is PeerList ==> r is Nothing && views(post.peers@) == f->peers,
        f is Packet ==> r is ToTun && r->ToTun_0@ == f->Packet_0,
        !(f is Ping) && !(f is PeerList) && !(f is Packet) ==> r is Nothing && post == pre,
{
}

/// On the way up every packet of the device is sent whole, keepalives go out as pings,
/// members ask for the peers, and a device that is gone ends it.
pub proof fn law_uplink(e: UpEvent, member: bool, r: UpAction)
    requires
        sends_up(e, member, r),
    ensures
        e is Packet ==> r is Send && r->Send_0@ == FrameView::Packet(e->Packet_0@),
        e is Keepalive ==> r is Send && r->Send_0@ == FrameView::Ping,
        e is PeersDue && member ==> r is Send && r->Send_0@ == FrameView::GetPeers,
        e is PeersDue && !member ==> r is Nothing,
        e is DeviceGone ==> r is Stop,
{
}

/// The user's end and the loss of the device end a session; every other end is a lost
/// connection.
pub proof fn law_bridge_ends()
    ensures
        end_of(BridgeEnd::Cancelled) == ConnEnd::Cancelled,
        end_of(BridgeEnd::DeviceGone) == ConnEnd::Cancelled,
        end_of(BridgeEnd::WriterDied) == ConnEnd::Lost,
        end_of(BridgeEnd::ReaderDied) == ConnEnd::Lost,
        end_of(BridgeEnd::Stalled) == ConnEnd::Lost,
{
}

/// The global proxy and the VPN carry packets; the two proxies run the local listener, and
/// the system proxy sets the system's proxy too.
pub proof fn law_runs()
    ensures
        run_for(SessionMode::GlobalProxy) == Run::Packets,
        run_for(SessionMode::Vpn) == Run::Packets,
        run_for(SessionMode::HttpProxy) == (Run::Proxy { system: false }),
        run_for(SessionMode::SystemProxy) == (Run::Proxy { system: true }),
{
}

/// A chain of two or more known servers is used as it is. Otherwise a session runs on the
/// selected server, or on the first one, or on the one in the flat fields.
pub proof fn law_plans(cfg: ClientConfig, r: Result<SessionPlan, Error>, i: int)
    requires
        is_plan(cfg, r),
    ensures
        cfg.chain@.len() > 0 && hops_of(texts(cfg.chain@), cfg.servers@).len() >= 2 ==> r is Ok
            && r->Ok_0 is Chain && r->Ok_0->Chain_0@ == hops_of(texts(cfg.chain@), cfg.servers@),
        cfg.chain@.len() == 0 && cfg.servers@.len() > 0 && cfg.selected_server is None ==> r is Ok
            && r->Ok_0 is Single && r->Ok_0->Single_0 == cfg.servers@[0],
        cfg.chain@.len() == 0 && 0 <= i < cfg.servers@.len() && cfg.selected_server is Some
            && cfg.servers@[i].name@ == cfg.selected_server->Some_0@ && (forall|j: int|
            0 <= j < i ==> (#[trigger] cfg.servers@[j]).name@ != cfg.selected_server->Some_0@)
            ==> r is Ok && r->Ok_0 is Single && r->Ok_0->Single_0 == cfg.servers@[i],
        cfg.chain@.len() == 0 && cfg.servers@.len() > 0 && cfg.selected_server is Some && (forall|
            j: int,
        |
            0 <= j < cfg.servers@.len() ==> (#[trigger] cfg.servers@[j]).name@
                != cfg.selected_server->Some_0@) ==> r is Ok && r->Ok_0 is Single
            && r->Ok_0->Single_0 == cfg.servers@[0],
        cfg.chain@.len() == 0 && cfg.servers@.len() == 0 && cfg.server_host@.len() > 0 ==> r is Ok
            && r->Ok_0 is Single && r->Ok_0->Single_0.host@ == cfg.server_host@
            && r->Ok_0->Single_0.port == cfg.server_port,
        cfg.chain@.len() == 0 && cfg.servers@.len() == 0 && cfg.server_host@.len() == 0 ==> r is Err
            && r->Err_0@ == Failure::Config("no servers configured"@),
{
    if cfg.selected_server is Some {
        let name = cfg.selected_server->Some_0@;
        if 0 <= i < cfg.servers@.len() && cfg.servers@[i].name@ == name && (forall|j: int|
            0 <= j < i ==> (#[trigger] cfg.servers@[j]).name@ != name) {
            let before = cfg.servers@.take(i);
            let after = cfg.servers@.skip(i + 1);
            assert(cfg.servers@ =~= before + seq![cfg.servers@[i]] + after);
            law_servers_by_name(before, cfg.servers@[i], after, name);
        }
        if cfg.servers@.len() > 0 && (forall|j: int|
            0 <= j < cfg.servers@.len() ==> (#[trigger] cfg.servers@[j]).name@ != name) {
            lemma_no_server(cfg.servers@, name);
        }
    }
}

proof fn lemma_no_server(servers: Seq<ServerEntry>, name: Seq<char>)
    requires
        forall|j: int| 0 <= j < servers.len() ==> (#[trigger] servers[j]).name@ != name,
    ensures
        server_named(servers, name) is None,
    decreases servers.len(),
{
    if servers.len() > 0 {
        assert(servers[0].name@ != name);
        assert forall|j: int| 0 <= j < servers.skip(1).len() implies (#[trigger] servers.skip(
            1,
        )[j]).name@ != name by {
            assert(servers.skip(1)[j] == servers[j + 1]);
        }
        lemma_no_server(servers.skip(1), name);
    }
}

/// Over a chain, a VPN session is one on the first hop; any other session goes out through
/// the chain, with a session on the first hop's LAN beside it just if it joins that.
pub proof fn law_chain_sessions(cfg: ClientConfig, hop0: ServerEntry, r: ChainPlan)
    requires
        is_chain_plan(cfg, hop0, r),
    ensures
        cfg.mode == SessionMode::Vpn ==> r is FirstHop && first_hop_only(r->FirstHop_0, cfg, hop0),
        cfg.mode != SessionMode::Vpn && !cfg.join_vpn ==> r is Egress && r->lan is None,
        cfg.mode != SessionMode::Vpn && cfg.join_vpn ==> r is Egress && r->lan is Some
            && lan_beside(r->lan->Some_0, cfg, hop0),
{
}

/// A stream is opened with the target and, behind that, with all first bytes there are.
pub proof fn law_streams_are_opened(
    frames: Seq<Frame>,
    id: u32,
    target: TargetView,
    data: Seq<u8>,
)
    requires
        opens_stream(frames, id, target, data),
    ensures
        frames.len() > 0,
        frames[0]@ == (FrameView::StreamOpen { id, target }),
        data_for(frame_views(frames), id) == data,
{
    let fs = frame_views(frames);
    assert(fs[0] == frames[0]@);
    reveal_with_fuel(data_for, 3);
    if data.len() > 0 {
        assert(fs.last() == frames[1]@);
        assert(fs.drop_last().last() == fs[0]);
        assert(data_for(fs, id) =~= data);
    } else {
        assert(fs.last() == fs[0]);
        assert(data_for(fs, id) =~= data);
    }
}

/// All bytes that arrived on a local connection.
pub open spec fn local_bytes(events: Seq<LocalEvent>) -> Seq<u8>
    decreases events.len(),
{
    if events.len() == 0 {
        Seq::empty()
    } else {
        local_bytes(events.drop_last()) + match events.last() {
            LocalEvent::Data(d) => d@,
            LocalEvent::Ended => Seq::empty(),
        }
    }
}

/// All bytes that arrived on the connection of a stream.
pub open spec fn remote_bytes(events: Seq<RemoteEvent>) -> Seq<u8>
    decreases events.len(),
{
    if events.len() == 0 {
        Seq::empty()
    } else {
        remote_bytes(events.drop_last()) + match events.last() {
            RemoteEvent::Data(d) => d@,
            _ => Seq::empty(),
        }
    }
}

/// The frames for a local connection carry just the bytes that arrived on it, all of them,
/// in order.
pub proof fn law_local_bytes_are_sent(id: u32, events: Seq<LocalEvent>, frames: Seq<FrameView>)
    requires
        frames.len() == events.len(),
        forall|i: int| 0 <= i < events.len() ==> #[trigger] frames[i] == frame_for(id, events[i]),
    ensures
        data_for(frames, id) == local_bytes(events),
    decreases events.len(),
{
    if events.len() > 0 {
        let (es, fs) = (events.drop_last(), frames.drop_last());
        assert forall|i: int| 0 <= i < es.len() implies #[trigger] fs[i] == frame_for(
            id,
            es[i],
        ) by {
            assert(fs[i] == frames[i]);
        }
        law_local_bytes_are_sent(id, es, fs);
        assert(frames[events.len() - 1] == frame_for(id, events.last()));
    }
}

/// The frames for the connection of a stream carry just the bytes that arrived on it, all
/// of them, in order. A connection that could not be made is reported with its address.
pub proof fn law_remote_bytes_are_sent(
    id: u32,
    addr: Seq<char>,
    events: Seq<RemoteEvent>,
    frames: Seq<FrameView>,
    why: String,
)
    requires
        frames.len() == events.len(),
        forall|i: int|
            0 <= i < events.len() ==> #[trigger] frames[i] == remote_frame(id, addr, events[i]),
    ensures
        data_for(frames, id) == remote_bytes(events),
        remote_frame(id, addr, RemoteEvent::Ended) == (FrameView::StreamClose {
            id,
            error: None,
        }),
        remote_frame(id, addr, RemoteEvent::DialFailed(why)) == (FrameView::StreamClose {
            id,
            error: Some("dial "@ + addr + ": "@ + why@),
        }),
    decreases events.len(),
{
    if events.len() > 0 {
        let (es, fs) = (events.drop_last(), frames.drop_last());
        assert forall|i: int| 0 <= i < es.len() implies #[trigger] fs[i] == remote_frame(
            id,
            addr,
            es[i],
        ) by {
            assert(fs[i] == frames[i]);
        }
        law_remote_bytes_are_sent(id, addr, es, fs, why);
        assert(frames[events.len() - 1] == remote_frame(id, addr, events.last()));
    }
}

/// End to end, upwards: what a local connection sends before it ends is what the server
/// hands to the stream's connection, byte for byte.
pub proof fn law_uploads_end_to_end(
    id: u32,
    events: Seq<LocalEvent>,
    frames: Seq<FrameView>,
    states: Seq<AppState>,
    sessions: Seq<Session>,
    actions: Seq<Action>,
)
    requires
        frames.len() == events.len(),
        forall|i: int| 0 <= i < events.len() ==> #[trigger] frames[i] == frame_for(id, events[i]),
        forall|i: int| 0 <= i < events.len() ==> (#[trigger] events[i]) is Data,
        session_run(states, sessions, frames, actions),
        sessions[0].streams@.contains(id),
    ensures
        handed_to(actions, id) == local_bytes(events),
{
    assert forall|i: int| 0 <= i < frames.len() implies !((#[trigger] frames[i]) is StreamClose
        && frames[i]->StreamClose_id == id) by {
        assert(frames[i] == frame_for(id, events[i]));
        assert(events[i] is Data);
    }
    law_uploads_are_complete(states, sessions, frames, actions, id);
    law_local_bytes_are_sent(id, events, frames);
}

/// End to end, downwards: what a stream's connection sends before it ends is what the local
/// connection is handed, byte for byte.
pub proof fn law_downloads_end_to_end(
    id: u32,
    addr: Seq<char>,
    events: Seq<RemoteEvent>,
    frames: Seq<FrameView>,
    modes: Seq<HttpMode>,
    stats: Seq<LiveStatus>,
    actions: Seq<ProxyAction>,
    why: String,
)
    requires
        frames.len() == events.len(),
        forall|i: int|
            0 <= i < events.len() ==> #[trigger] frames[i] == remote_frame(id, addr, events[i]),
        forall|i: int| 0 <= i < events.len() ==> (#[trigger] events[i]) is Data,
        proxy_run(modes, stats, frames, actions),
        modes[0].streams@.contains(id),
    ensures
        delivered_to(actions, id) == remote_bytes(events),
{
    assert forall|i: int| 0 <= i < frames.len() implies !((#[trigger] frames[i]) is StreamClose
        && frames[i]->StreamClose_id == id) by {
        assert(frames[i] == remote_frame(id, addr, events[i]));
        assert(events[i] is Data);
    }
    law_downloads_are_complete(modes, stats, frames, actions, id);
    law_remote_bytes_are_sent(id, addr, events, frames, why);
}

/// A chain is built hop by hop. The first hop is dialed; each further one is asked for on
/// stream 1 of the hop before it, at its address or by its name, and its transport runs
/// over that. Each is greeted as law_hop_greetings says.
pub proof fn law_chain_actions(b: ChainBuild, r: Result<ChainAction, Error>)
    requires
        b.wf(),
        b.does(r),
    ensures
        ({
            let s = b.hops@[b.k as int];
            &&& b.phase == Phase::Reach && b.k == 0 && psk_of(s.noise_psk@) is Ok ==> r is Ok
                && r->Ok_0 is Dial && dials(r->Ok_0->Dial_0.endpoint, s) && secures(
                r->Ok_0->Dial_0.security,
                s,
                psk_of(s.noise_psk@)->Ok_0,
            )
            &&& b.phase == Phase::Reach && b.k > 0 && ip_parsed(s.host@) is None ==> r is Ok
                && r->Ok_0 is Relay && r->Ok_0->Relay_0@ == (FrameView::StreamOpen {
                id: 1,
                target: TargetView::Domain(s.host@, s.port),
            })
            &&& b.phase == Phase::Reach && b.k > 0 && ip_parsed(s.host@) is Some ==> r is Ok
                && r->Ok_0 is Relay && r->Ok_0->Relay_0@ == (FrameView::StreamOpen {
                id: 1,
                target: TargetView::Ip(
                    SocketAddr { ip: ip_parsed(s.host@)->Some_0, port: s.port },
                ),
            })
            &&& b.phase == Phase::Layer && psk_of(s.noise_psk@) is Ok && s.transport
                != TransportKind::Quic ==> r is Ok && r->Ok_0 is Layer && dials(
                r->Ok_0->Layer_0.endpoint,
                s,
            ) && secures(r->Ok_0->Layer_0.security, s, psk_of(s.noise_psk@)->Ok_0)
            &&& b.phase == Phase::Layer && psk_of(s.noise_psk@) is Ok && s.transport
                == TransportKind::Quic ==> r is Err
            &&& b.phase == Phase::Greet ==> r is Ok && r->Ok_0 is Greet && r->Ok_0->Greet_0@
                == FrameView::Hello(
                hop_greeting(
                    b.hops@,
                    b.k as int,
                    b.last,
                    b.requested_ip,
                    opt_view(b.client_name),
                ),
            )
        }),
{
}

/// No hop is left out: a hop is greeted once it is reached, over its own transport if it is
/// not the first, and once it answered, the next one is reached; the welcome of the last hop
/// is the welcome of the chain, and a refusal of any is the end.
pub proof fn law_chain_order(
    b: ChainBuild,
    mid: ChainBuild,
    f: FrameView,
    r: Result<Option<Welcome>, Error>,
    post: ChainBuild,
)
    requires
        b.wf(),
        b.phase != Phase::Greet ==> b.advances(mid),
        b.phase == Phase::Greet ==> b.takes_answer(f, r, post),
    ensures
        b.phase == Phase::Reach && b.k == 0 ==> mid.phase == Phase::Greet && mid.k == 0,
        b.phase == Phase::Reach && b.k > 0 ==> mid.phase == Phase::Layer && mid.k == b.k,
        b.phase == Phase::Layer ==> mid.phase == Phase::Greet && mid.k == b.k,
        b.phase != Phase::Greet ==> mid.hops@ == b.hops@ && mid.last == b.last
            && mid.requested_ip == b.requested_ip && mid.client_name == b.client_name,
        b.phase == Phase::Greet && f is Welcome && b.k < b.hops@.len() - 1 ==> r is Ok && r->Ok_0
            is None && post.k == b.k + 1 && post.phase == Phase::Reach,
        b.phase == Phase::Greet && f is Welcome && b.k == b.hops@.len() - 1 ==> r is Ok && r->Ok_0
            is Some && r->Ok_0->Some_0@ == f->Welcome_0,
        b.phase == Phase::Greet && f is Reject ==> r is Err && r->Err_0@ == Failure::Auth(
            f->reason,
        ),
        b.phase == Phase::Greet ==> post.hops@ == b.hops@ && post.last == b.last
            && post.requested_ip == b.requested_ip && post.client_name == b.client_name,
{
}

/// A lost connection is dialed again at once, with a wish for the session's address, unless
/// the user ended the session.
pub proof fn law_lost_connections(
    pre: PacketSession,
    end: ConnEnd,
    cancelled: bool,
    r: NextStep,
    post: PacketSession,
)
    requires
        pre.ends(end, cancelled, r, post),
    ensures
        end == ConnEnd::Lost && !cancelled ==> r is Dial && r->attempt == 1 && r->requested_ip
            == pre.assigned_ip && post.attempt == 1,
        end == ConnEnd::Cancelled || cancelled ==> r is Stop,
        post.assigned_ip == pre.assigned_ip,
{
}

/// An attempt that was welcomed resumes the session and starts the count anew. One that
/// failed is followed by the next, up to the third, and by the end after that.
pub proof fn law_redials(
    pre: PacketSession,
    welcomed: Option<Ipv4Addr>,
    cancelled: bool,
    r: NextStep,
    post: PacketSession,
)
    requires
        pre.wf(),
        pre.redials(welcomed, cancelled, r, post),
    ensures
        cancelled ==> r is Stop,
        !cancelled && welcomed is Some ==> r is Resume && post.attempt == 0,
        !cancelled && welcomed is None && pre.attempt < 3 ==> r is Dial && r->attempt
            == pre.attempt + 1 && r->requested_ip == pre.assigned_ip && post.attempt
            == pre.attempt + 1,
        !cancelled && welcomed is None && pre.attempt == 3 ==> r is Stop,
        post.assigned_ip == pre.assigned_ip,
{
}

/// A session that is lost and cannot be had again is given up after three attempts, each
/// with a wish for its address.
pub proof fn law_giving_up(s: Seq<PacketSession>, r: Seq<NextStep>)
    requires
        s.len() == 5,
        r.len() == 4,
        s[0].wf(),
        s[0].ends(ConnEnd::Lost, false, r[0], s[1]),
        s[1].redials(None, false, r[1], s[2]),
        s[2].redials(None, false, r[2], s[3]),
        s[3].redials(None, false, r[3], s[4]),
    ensures
        r[0] == (NextStep::Dial { attempt: 1, requested_ip: s[0].assigned_ip }),
        r[1] == (NextStep::Dial { attempt: 2, requested_ip: s[0].assigned_ip }),
        r[2] == (NextStep::Dial { attempt: 3, requested_ip: s[0].assigned_ip }),
        r[3] == NextStep::Stop,
{
}

/// What follows the last colon is a port only if it is a number below 65536; otherwise all
/// of it is the host.
pub proof fn law_ports(h: Seq<char>, p: Seq<char>, default: u16)
    requires
        forall|j: int| 0 <= j < p.len() ==> #[trigger] p[j] != ':',
    ensures
        number(p, 65535) is Some ==> host_and_port(h + seq![':'] + p, default) == (
            h,
            number(p, 65535)->Some_0 as u16,
        ),
        number(p, 65535) is None ==> host_and_port(h + seq![':'] + p, default) == (
            h + seq![':'] + p,
            default,
        ),
        host_and_port(p, default) == (p, default),
{
    law_around_last(h, ':', p);
}

/// The names of the servers of a configuration, in their order.
pub proof fn law_server_names(servers: Seq<ServerEntry>, i: int)
    requires
        0 <= i < servers.len(),
    ensures
        names(servers).len() == servers.len(),
        names(servers)[i] == servers[i].name@,
{
}

}
