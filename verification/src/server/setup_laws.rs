//! What the server sets up on its host, what its router keeps, and what its administrator
//! is shown and may change.

use vstd::prelude::*;
use vstd::string::*;

use super::config::{
    net6_of, prefix_of, tls_source, ListenerConfig, PeerConfig, ServerConfig, TlsSource,
};
use super::net::{forwards, gateway6_cidr, link_plan, masquerade, nat4, prefix6_of, prepare6};
use super::router::{lists_live, Entry, LiveEntry, Router};
use super::startup::own_names;
use super::web::{
    adds_peer, code_after, dels_peer, may_use, online_at, shows_status, taken, without_token,
    StatusResp,
};
use crate::addr::{dotted, ipv6_net_parsed, ipv6_text, Ipv4Addr};
use crate::cmd::CmdView;
use crate::config::{SessionMode, TransportKind};
use crate::error::Failure;
use crate::protocol::control::opt_view;
use crate::text::{decimal, law_without_prefix};

verus! {

/// The rule that puts the server's address on what leaves a subnet for the outgoing
/// interface.
pub proof fn law_masquerade(
    tables: Seq<char>,
    action: Seq<char>,
    subnet: Seq<char>,
    egress: Seq<char>,
)
    ensures
        masquerade(tables, action, subnet, egress) == (CmdView {
            program: tables,
            args: seq![
                "-t"@,
                "nat"@,
                action,
                "POSTROUTING"@,
                "-s"@,
                subnet,
                "-o"@,
                egress,
                "-j"@,
                "MASQUERADE"@,
            ],
        }),
{
    assert(masquerade(tables, action, subnet, egress).args =~= seq![
        "-t"@,
        "nat"@,
        action,
        "POSTROUTING"@,
        "-s"@,
        subnet,
        "-o"@,
        egress,
        "-j"@,
        "MASQUERADE"@,
    ]);
}

/// Three rules let packets pass: from the device out, answers back to it, and from one
/// peer to another.
pub proof fn law_forwards(
    tables: Seq<char>,
    action: Seq<char>,
    tun: Seq<char>,
    egress: Seq<char>,
)
    ensures
        ({
            let rules = forwards(tables, action, tun, egress);
            &&& rules.len() == 3
            &&& rules[0].program == tables && rules[1].program == tables && rules[2].program
                == tables
            &&& rules[0].args == seq![
                action,
                "FORWARD"@,
                "-i"@,
                tun,
                "-o"@,
                egress,
                "-j"@,
                "ACCEPT"@,
            ]
            &&& rules[1].args == seq![
                action,
                "FORWARD"@,
                "-i"@,
                egress,
                "-o"@,
                tun,
                "-m"@,
                "state"@,
                "--state"@,
                "RELATED,ESTABLISHED"@,
                "-j"@,
                "ACCEPT"@,
            ]
            &&& rules[2].args == seq![
                action,
                "FORWARD"@,
                "-i"@,
                tun,
                "-o"@,
                tun,
                "-j"@,
                "ACCEPT"@,
            ]
        }),
{
    let rules = forwards(tables, action, tun, egress);
    assert(rules[0].args =~= seq![
        action,
        "FORWARD"@,
        "-i"@,
        tun,
        "-o"@,
        egress,
        "-j"@,
        "ACCEPT"@,
    ]);
    assert(rules[1].args =~= seq![
        action,
        "FORWARD"@,
        "-i"@,
        egress,
        "-o"@,
        tun,
        "-m"@,
        "state"@,
        "--state"@,
        "RELATED,ESTABLISHED"@,
        "-j"@,
        "ACCEPT"@,
    ]);
    assert(rules[2].args =~= seq![action, "FORWARD"@, "-i"@, tun, "-o"@, tun, "-j"@, "ACCEPT"@]);
}

/// For IPv4 the server masquerades its subnet and lets packets pass, both with `iptables`.
pub proof fn law_nat4(
    masq: Seq<char>,
    fwd: Seq<char>,
    subnet: Seq<char>,
    tun: Seq<char>,
    egress: Seq<char>,
    i: int,
)
    ensures
        nat4(masq, fwd, subnet, tun, egress).len() == 4,
        nat4(masq, fwd, subnet, tun, egress)[0].program == "iptables"@,
        nat4(masq, fwd, subnet, tun, egress)[0].args == seq![
            "-t"@,
            "nat"@,
            masq,
            "POSTROUTING"@,
            "-s"@,
            subnet,
            "-o"@,
            egress,
            "-j"@,
            "MASQUERADE"@,
        ],
        0 <= i < 3 ==> nat4(masq, fwd, subnet, tun, egress)[i + 1] == forwards(
            "iptables"@,
            fwd,
            tun,
            egress,
        )[i],
{
    law_masquerade("iptables"@, masq, subnet, egress);
    law_forwards("iptables"@, fwd, tun, egress);
}

/// The device gets the gateway's address, the MTU and its state; a device without MTU or
/// state stops the server, while the address and the kernel's settings may fail.
pub proof fn law_server_link(gateway: Ipv4Addr, prefix: u8, mtu: u16, tun: Seq<char>)
    ensures
        ({
            let plan = link_plan(gateway, prefix, mtu, tun);
            &&& plan.len() == 6
            &&& plan[0].cmd.program == "ip"@ && plan[1].cmd.program == "ip"@
                && plan[2].cmd.program == "ip"@
            &&& plan[3].cmd.program == "sysctl"@ && plan[4].cmd.program == "sysctl"@
                && plan[5].cmd.program == "sysctl"@
            &&& plan[0].cmd.args == seq![
                "addr"@,
                "add"@,
                dotted(gateway.bits) + "/"@ + decimal(prefix as nat),
                "dev"@,
                tun,
            ]
            &&& plan[1].cmd.args == seq![
                "link"@,
                "set"@,
                "dev"@,
                tun,
                "mtu"@,
                decimal(mtu as nat),
            ]
            &&& plan[2].cmd.args == seq!["link"@, "set"@, "dev"@, tun, "up"@]
            &&& plan[3].cmd.args == seq!["-w"@, "net.ipv4.ip_forward=1"@]
            &&& plan[4].cmd.args == seq![
                "-w"@,
                "net.ipv4.conf."@ + tun + ".send_redirects=0"@,
            ]
            &&& plan[5].cmd.args == seq!["-w"@, "net.ipv4.conf.all.send_redirects=0"@]
            &&& plan[1].must && plan[2].must
            &&& !plan[0].must && !plan[3].must && !plan[4].must && !plan[5].must
        }),
{
    let plan = link_plan(gateway, prefix, mtu, tun);
    assert(plan[0].cmd.args =~= seq![
        "addr"@,
        "add"@,
        dotted(gateway.bits) + "/"@ + decimal(prefix as nat),
        "dev"@,
        tun,
    ]);
    assert(plan[1].cmd.args =~= seq![
        "link"@,
        "set"@,
        "dev"@,
        tun,
        "mtu"@,
        decimal(mtu as nat),
    ]);
    assert(plan[2].cmd.args =~= seq!["link"@, "set"@, "dev"@, tun, "up"@]);
    assert(plan[3].cmd.args =~= seq!["-w"@, "net.ipv4.ip_forward=1"@]);
    assert(plan[4].cmd.args =~= seq!["-w"@, "net.ipv4.conf."@ + tun + ".send_redirects=0"@]);
    assert(plan[5].cmd.args =~= seq!["-w"@, "net.ipv4.conf.all.send_redirects=0"@]);
}

/// For IPv6 the device gets the gateway's address and the kernel forwards, everywhere and
/// on the device.
pub proof fn law_server_ipv6(cidr: Seq<char>, tun: Seq<char>)
    ensures
        ({
            let plan = prepare6(cidr, tun);
            &&& plan.len() == 3
            &&& plan[0].program == "ip"@
            &&& plan[0].args == seq!["-6"@, "addr"@, "add"@, cidr, "dev"@, tun]
            &&& plan[1].program == "sysctl"@
            &&& plan[1].args == seq!["-w"@, "net.ipv6.conf.all.forwarding=1"@]
            &&& plan[2].program == "sysctl"@
            &&& plan[2].args == seq!["-w"@, "net.ipv6.conf."@ + tun + ".forwarding=1"@]
        }),
{
    let plan = prepare6(cidr, tun);
    assert(plan[0].args =~= seq!["-6"@, "addr"@, "add"@, cidr, "dev"@, tun]);
    assert(plan[1].args =~= seq!["-w"@, "net.ipv6.conf.all.forwarding=1"@]);
    assert(plan[2].args =~= seq!["-w"@, "net.ipv6.conf."@ + tun + ".forwarding=1"@]);
}

/// The gateway's IPv6 address is written with the prefix of its subnet, and with 64 where
/// that is no subnet.
pub proof fn law_gateway6(gw6: u128, bits: u128, len: u8)
    ensures
        gateway6_cidr(gw6, prefix6_of(Some((bits, len)))) == ipv6_text(gw6) + "/"@ + decimal(
            len as nat,
        ),
        gateway6_cidr(gw6, prefix6_of(None)) == ipv6_text(gw6) + "/"@ + decimal(64),
{
}

/// The prefix length is that of the subnet; a subnet that is none is named in the error.
pub proof fn law_subnet_prefix(subnet: Seq<char>, bits: u32, len: u8)
    ensures
        prefix_of(subnet, Some((bits, len))) == Ok::<u8, Failure>(len),
        prefix_of(subnet, None) == Err::<u8, Failure>(
            Failure::Config("bad subnet "@ + subnet + ": "@ + "invalid IP address syntax"@),
        ),
{
}

/// Without an IPv6 subnet there is none to assign from.
pub proof fn law_no_subnet6(s: String)
    ensures
        net6_of(None) is None,
        net6_of(Some(s)) == ipv6_net_parsed(s@),
{
}

/// What a new server starts with, numbers and all.
pub proof fn law_starter(
    c: ServerConfig,
    psk: Seq<char>,
    admin_token: Seq<char>,
    token: Seq<char>,
)
    requires
        c.is_starter(psk, admin_token, token),
    ensures
        c.listeners@.len() == 1,
        c.listeners@[0].transport == TransportKind::Tcp,
        c.listeners@[0].bind@ == "0.0.0.0:8443"@,
        c.listeners@[0].tls,
        c.network.subnet@ == "10.66.0.0/24"@,
        c.network.gateway.bits == 0x0a42_0001,
        c.network.mtu == 1380,
        c.network.dns@.len() == 2,
        c.network.dns@[0].bits == 0x0808_0808,
        c.network.dns@[1].bits == 0x0101_0101,
        c.network.tun_name@ == "et0"@,
        c.network.egress_iface is None,
        c.network.subnet6 is Some && c.network.subnet6->Some_0@ == "fd66::/64"@,
        c.network.gateway6 is Some,
        c.network.gateway6->Some_0.bits == 0xfd66_0000_0000_0000_0000_0000_0000_0001,
        c.network.dns6@.len() == 2,
        c.network.dns6@[0].bits == 0x2001_4860_4860_0000_0000_0000_0000_8888,
        c.network.dns6@[1].bits == 0x2606_4700_4700_0000_0000_0000_0000_1111,
        c.security.noise_psk@ == psk,
        c.security.tls_cert_path is None && c.security.tls_key_path is None,
        c.web.bind@ == "127.0.0.1:9000"@,
        c.web.admin_token@ == admin_token,
        c.peers@.len() == 1,
        c.peers@[0].name@ == "example"@,
        c.peers@[0].token@ == token,
        c.peers@[0].ip.bits == 0x0a42_0002,
        c.peers@[0].enabled && c.peers@[0].allow_global && c.peers@[0].allow_http_proxy,
{
}

/// Certificates come from the configured files where both are named. Else a pair is needed
/// just if some listener is other than TCP: the saved one, or a new one.
pub proof fn law_certificates(
    cert: Option<String>,
    key: Option<String>,
    listeners: Seq<ListenerConfig>,
    saved: bool,
    i: int,
)
    ensures
        cert is Some && key is Some ==> tls_source(cert, key, listeners, saved)
            == TlsSource::Files,
        !(cert is Some && key is Some) && 0 <= i < listeners.len() && (listeners[i].transport
            == TransportKind::Ws || listeners[i].transport == TransportKind::Quic) && saved
            ==> tls_source(cert, key, listeners, saved) == TlsSource::Saved,
        !(cert is Some && key is Some) && 0 <= i < listeners.len() && (listeners[i].transport
            == TransportKind::Ws || listeners[i].transport == TransportKind::Quic) && !saved
            ==> tls_source(cert, key, listeners, saved) == TlsSource::SelfSigned,
        !(cert is Some && key is Some) && (forall|j: int|
            0 <= j < listeners.len() ==> (#[trigger] listeners[j]).transport
                == TransportKind::Tcp) ==> tls_source(cert, key, listeners, saved)
            == TlsSource::NotNeeded,
{
    if 0 <= i < listeners.len() {
        assert(listeners[i].transport != TransportKind::Tcp || listeners[i].transport
            == TransportKind::Tcp);
    }
}

/// The names on the server's own certificate.
pub proof fn law_own_names()
    ensures
        own_names() == seq!["entrotunnel"@, "localhost"@],
{
    assert(own_names() =~= seq!["entrotunnel"@, "localhost"@]);
}

/// The admin API is open to who gives the token in the query or as a bearer token, and to
/// nobody else; an empty query is no token.
pub proof fn law_admin_token(expected: Seq<char>, query: Seq<char>, given: Seq<char>)
    ensures
        expected.len() > 0 ==> may_use(expected, expected, None),
        may_use(expected, query, Some("Bearer "@ + expected)),
        query != expected ==> !may_use(expected, query, None),
        query.len() == 0 ==> !may_use(expected, query, None),
        query != expected && given != "Bearer "@ + expected ==> !may_use(
            expected,
            query,
            Some(given),
        ),
{
    law_without_prefix("Bearer "@, expected);
    law_without_prefix("Bearer "@, given);
}

/// The status shows every listener and every peer as it is configured, in order, and of
/// each peer whether it is online: in which mode and from where, if a session holds its
/// address.
pub proof fn law_status(r: StatusResp, cfg: ServerConfig, router: Router, i: int)
    requires
        shows_status(r, cfg, router),
    ensures
        r.subnet@ == cfg.network.subnet@,
        r.gateway@ == dotted(cfg.network.gateway.bits),
        r.mtu == cfg.network.mtu,
        r.noise_psk@ == cfg.security.noise_psk@,
        r.listeners@.len() == cfg.listeners@.len(),
        0 <= i < cfg.listeners@.len() ==> {
            let (v, l) = (r.listeners@[i], cfg.listeners@[i]);
            &&& v.bind@ == l.bind@
            &&& v.tls == l.tls
            &&& l.transport == TransportKind::Tcp ==> v.transport@ == "tcp"@
            &&& l.transport == TransportKind::Ws ==> v.transport@ == "ws"@
            &&& l.transport == TransportKind::Quic ==> v.transport@ == "quic"@
        },
        r.peers@.len() == cfg.peers@.len(),
        0 <= i < cfg.peers@.len() ==> {
            let (v, p) = (r.peers@[i], cfg.peers@[i]);
            &&& v.name@ == p.name@
            &&& v.token@ == p.token@
            &&& v.ip@ == dotted(p.ip.bits)
            &&& v.enabled == p.enabled
            &&& v.allow_global == p.allow_global
            &&& v.allow_http_proxy == p.allow_http_proxy
            &&& v.online == (router.owner(p.ip) is Some)
            &&& !v.online ==> v.mode is None && v.addr is None
            &&& v.online ==> {
                let o = router.sessions@[router.owner(p.ip)->Some_0].info;
                &&& opt_view(v.addr) == Some(o.addr@)
                &&& o.mode == SessionMode::GlobalProxy ==> opt_view(v.mode) == Some(
                    "global_proxy"@,
                )
                &&& o.mode == SessionMode::SystemProxy ==> opt_view(v.mode) == Some(
                    "system_proxy"@,
                )
                &&& o.mode == SessionMode::HttpProxy ==> opt_view(v.mode) == Some("http_proxy"@)
                &&& o.mode == SessionMode::Vpn ==> opt_view(v.mode) == Some("vpn"@)
            }
        },
{
    if 0 <= i < cfg.listeners@.len() {
        assert(super::web::shows_listener(r.listeners@[i], cfg.listeners@[i]));
    }
    if 0 <= i < cfg.peers@.len() {
        assert(super::web::shows_peer(
            r.peers@[i],
            cfg.peers@[i],
            online_at(router, cfg.peers@[i].ip),
        ));
    }
}

/// A token or an address that some peer has is taken, and no other is.
pub proof fn law_taken(peers: Seq<PeerConfig>, token: Seq<char>, ip: Ipv4Addr, i: int)
    ensures
        0 <= i < peers.len() && peers[i].token@ == token ==> taken(peers, token, ip),
        0 <= i < peers.len() && peers[i].ip == ip ==> taken(peers, token, ip),
        (forall|j: int|
            0 <= j < peers.len() ==> (#[trigger] peers[j]).token@ != token && peers[j].ip != ip)
            ==> !taken(peers, token, ip),
{
}

/// Removing a peer takes away those with its token, and leaves all others in their order.
pub proof fn law_removed_peers(a: Seq<PeerConfig>, b: Seq<PeerConfig>, token: Seq<char>)
    ensures
        without_token(a + b, token) == without_token(a, token) + without_token(b, token),
        b.len() == 1 && b[0].token@ != token ==> without_token(b, token) == b,
        b.len() == 1 && b[0].token@ == token ==> without_token(b, token).len() == 0,
        b.len() == 0 ==> without_token(b, token).len() == 0,
    decreases b.len(),
{
    if b.len() == 0 {
        assert(a + b =~= a);
        assert(without_token(a, token) + without_token(b, token) =~= without_token(a, token));
    } else {
        assert((a + b).drop_last() =~= a + b.drop_last());
        assert((a + b).last() == b.last());
        law_removed_peers(a, b.drop_last(), token);
        if b.len() == 1 {
            assert(b.drop_last() =~= Seq::<PeerConfig>::empty());
            assert(without_token(b.drop_last(), token) =~= Seq::<PeerConfig>::empty());
            if b[0].token@ != token {
                assert(without_token(b, token) =~= b);
            }
        }
        assert(without_token(a + b, token) =~= without_token(a, token) + without_token(b, token));
    }
}

/// Traffic is counted for the session it belongs to, each direction for itself; no other
/// session and no address is touched.
pub proof fn law_session_counters(pre: Router, id: u64, up: u64, down: u64, post: Router)
    requires
        pre.counts(id, up, down, post),
    ensures
        pre.sessions@.dom().contains(id) ==> {
            let (a, b) = (pre.sessions@[id], post.sessions@[id]);
            &&& a.counters.up + up <= u64::MAX ==> b.counters.up == a.counters.up + up
            &&& a.counters.down + down <= u64::MAX ==> b.counters.down == a.counters.down + down
            &&& b.ip == a.ip
            &&& b.info == a.info
            &&& b.token == a.token
            &&& b.connected == a.connected
        },
        post.sessions@.dom() == pre.sessions@.dom(),
        forall|other: u64|
            other != id && pre.sessions@.dom().contains(other) ==> #[trigger] post.sessions@[other]
                == pre.sessions@[other],
        forall|ip: Ipv4Addr| #[trigger] post.owner(ip) == pre.owner(ip),
{
    assert(post.sessions@.dom() =~= pre.sessions@.dom());
}

/// The live list has an entry for every address that a session holds, with what that
/// session counted and for how long it has been connected, and no other entry.
pub proof fn law_live_list(l: Seq<LiveEntry>, r: Router, now: u64, ip: Ipv4Addr, k: int)
    requires
        lists_live(l, r, now),
    ensures
        r.owner(ip) is Some ==> exists|i: int| 0 <= i < l.len() && (#[trigger] l[i]).ip == ip,
        0 <= k < l.len() ==> {
            let e = r.sessions@[r.owner(l[k].ip)->Some_0];
            &&& r.owner(l[k].ip) is Some
            &&& l[k].name@ == e.info.name@
            &&& l[k].token@ == e.token@
            &&& l[k].mode == e.info.mode
            &&& l[k].addr@ == e.info.addr@
            &&& l[k].up == e.counters.up
            &&& l[k].down == e.counters.down
            &&& now >= e.connected ==> l[k].connected_secs == now - e.connected
            &&& now < e.connected ==> l[k].connected_secs == 0
        },
{
}

/// Registering a session stores it whole under its number; the others stay. Unregistering
/// one takes it away; the others stay.
pub proof fn law_sessions_are_kept(pre: Router, id: u64, e: Entry, mid: Router, post: Router)
    requires
        pre.registers(id, e, mid),
        mid.unregisters(id, post),
    ensures
        mid.sessions@.dom().contains(id) && mid.sessions@[id] == e,
        forall|other: u64|
            other != id && pre.sessions@.dom().contains(other)
                ==> #[trigger] mid.sessions@.dom().contains(other) && mid.sessions@[other]
                == pre.sessions@[other],
        !post.sessions@.dom().contains(id),
        forall|other: u64|
            other != id && pre.sessions@.dom().contains(other)
                ==> #[trigger] post.sessions@.dom().contains(other) && post.sessions@[other]
                == pre.sessions@[other],
{
}

/// A peer is added only by who may, and only if neither its token nor its address is taken;
/// it is then the last of the peers. The answer tells which: 401, 409 or 201. Nothing else
/// of the configuration changes.
pub proof fn law_adding_peers(
    pre: ServerConfig,
    authorized: bool,
    peer: PeerConfig,
    post: ServerConfig,
    r: Result<u16, u16>,
    i: int,
)
    requires
        adds_peer(pre, authorized, peer, post, r),
    ensures
        !authorized ==> r == Err::<u16, u16>(401) && post.peers@ == pre.peers@,
        authorized && 0 <= i < pre.peers@.len() && (pre.peers@[i].token@ == peer.token@
            || pre.peers@[i].ip == peer.ip) ==> r == Err::<u16, u16>(409) && post.peers@
            == pre.peers@,
        authorized && (forall|j: int|
            0 <= j < pre.peers@.len() ==> (#[trigger] pre.peers@[j]).token@ != peer.token@
                && pre.peers@[j].ip != peer.ip) ==> r == Ok::<u16, u16>(201) && post.peers@
            == pre.peers@ + seq![peer],
        post.listeners == pre.listeners && post.network == pre.network && post.security
            == pre.security && post.web == pre.web,
{
    law_taken(pre.peers@, peer.token@, peer.ip, i);
    assert(pre.peers@.push(peer) =~= pre.peers@ + seq![peer]);
}

/// A peer is removed only by who may. The answer tells whether there was one: 401, 404 or
/// 204. Nothing else of the configuration changes.
pub proof fn law_removing_peers(
    pre: ServerConfig,
    authorized: bool,
    token: Seq<char>,
    post: ServerConfig,
    r: Result<u16, u16>,
    i: int,
)
    requires
        dels_peer(pre, authorized, token, post, r),
    ensures
        !authorized ==> r == Err::<u16, u16>(401) && post.peers@ == pre.peers@,
        authorized && 0 <= i < pre.peers@.len() && pre.peers@[i].token@ == token ==> r == Ok::<
            u16,
            u16,
        >(204),
        authorized && (forall|j: int|
            0 <= j < pre.peers@.len() ==> (#[trigger] pre.peers@[j]).token@ != token) ==> r
            == Err::<u16, u16>(404) && post.peers@ == pre.peers@,
        authorized && 0 <= i < pre.peers@.len() && pre.peers@[i].token@ != token
            ==> post.peers@.contains(pre.peers@[i]),
        authorized ==> forall|k: int|
            0 <= k < post.peers@.len() ==> (#[trigger] post.peers@[k]).token@ != token,
        post.listeners == pre.listeners && post.network == pre.network && post.security
            == pre.security && post.web == pre.web,
{
    lemma_without_token(pre.peers@, token, i);
}

proof fn lemma_without_token(peers: Seq<PeerConfig>, token: Seq<char>, i: int)
    ensures
        without_token(peers, token).len() <= peers.len(),
        0 <= i < peers.len() && peers[i].token@ == token ==> without_token(peers, token).len()
            < peers.len(),
        0 <= i < peers.len() && peers[i].token@ != token ==> without_token(peers, token).contains(
            peers[i],
        ),
        (forall|j: int| 0 <= j < peers.len() ==> (#[trigger] peers[j]).token@ != token)
            ==> without_token(peers, token) == peers,
        forall|k: int|
            0 <= k < without_token(peers, token).len() ==> (#[trigger] without_token(
                peers,
                token,
            )[k]).token@ != token,
    decreases peers.len(),
{
    if peers.len() > 0 {
        let rest = peers.drop_last();
        lemma_without_token(rest, token, i);
        let before = without_token(rest, token);
        if forall|j: int| 0 <= j < peers.len() ==> (#[trigger] peers[j]).token@ != token {
            assert forall|j: int| 0 <= j < rest.len() implies (#[trigger] rest[j]).token@
                != token by {
                assert(peers[j].token@ != token);
            }
            assert(peers[peers.len() - 1].token@ != token);
            assert(without_token(peers, token) =~= peers);
        }
        if peers.last().token@ != token {
            let w = before.push(peers.last());
            assert(w[before.len() as int] == peers.last());
            if 0 <= i < rest.len() && peers[i].token@ != token {
                let k = choose|k: int| 0 <= k < before.len() && before[k] == rest[i];
                assert(w[k] == peers[i]);
            }
        }
    }
}

/// A change that could not be saved is answered with 500; a refusal is answered as such.
pub proof fn law_saving(code: u16)
    ensures
        code_after(Ok(code), true) == code,
        code_after(Ok(code), false) == 500,
        code_after(Err(code), true) == code,
        code_after(Err(code), false) == code,
{
}

}
