//! The admin API: who may use it, what it shows, and how it edits the peers.

use vstd::prelude::*;
use vstd::string::*;

use super::config::{peer_with, ListenerConfig, PeerConfig, ServerConfig};
use super::metrics::{Metrics, PeerStat, TrafficSample};
use super::router::{lists_online, seconds_since, LiveEntry, Online, Router};
use crate::addr::{dotted, Ipv4Addr};
use crate::protocol::control::opt_view;
use crate::text::{same, strip_prefix, without_prefix};

verus! {

/// Status codes of the API.
pub const CREATED: u16 = 201;

pub const NO_CONTENT: u16 = 204;

pub const UNAUTHORIZED: u16 = 401;

pub const NOT_FOUND: u16 = 404;

pub const CONFLICT: u16 = 409;

pub const INTERNAL_SERVER_ERROR: u16 = 500;

/// Whether a request may use the API: it brings the admin token as a query
/// parameter, or in an `Authorization` header after `Bearer `.
pub open spec fn may_use(
    expected: Seq<char>,
    query: Seq<char>,
    header: Option<Seq<char>>,
) -> bool {
    ||| query.len() > 0 && query == expected
    ||| header is Some && without_prefix(header->Some_0, "Bearer "@) == Some(expected)
}

/// Whether a request may use the API.
pub fn authorized(cfg: &ServerConfig, query: &str, header: Option<&str>) -> (r: bool)
    ensures
        r == may_use(
            cfg.web.admin_token@,
            query@,
            match header {
                Some(h) => Some(h@),
                None => None,
            },
        ),
{
    let expected = cfg.web.admin_token.as_str();
    if query.unicode_len() > 0 && same(query, expected) {
        return true;
    }
    match header {
        Some(h) => match strip_prefix(h, "Bearer ") {
            Some(t) => same(t.as_str(), expected),
            None => false,
        },
        None => false,
    }
}

/// A listener as the panel shows it.
pub struct ListenerView {
    pub transport: String,
    pub bind: String,
    pub tls: bool,
}

/// A peer as the panel shows it.
pub struct PeerView {
    pub name: String,
    pub token: String,
    pub ip: String,
    pub enabled: bool,
    pub allow_global: bool,
    pub allow_http_proxy: bool,
    pub online: bool,
    pub mode: Option<String>,
    pub addr: Option<String>,
}

/// The server's status as the panel shows it.
pub struct StatusResp {
    pub listeners: Vec<ListenerView>,
    pub subnet: String,
    pub gateway: String,
    pub mtu: u16,
    /// The shared Noise key, for building a peer's importable link.
    pub noise_psk: String,
    pub peers: Vec<PeerView>,
}

/// Whether `v` shows a peer whose live session, if any, is `o`.
pub open spec fn shows_peer(v: PeerView, p: PeerConfig, o: Option<Online>) -> bool {
    &&& v.name@ == p.name@
    &&& v.token@ == p.token@
    &&& v.ip@ == dotted(p.ip.bits)
    &&& v.enabled == p.enabled
    &&& v.allow_global == p.allow_global
    &&& v.allow_http_proxy == p.allow_http_proxy
    &&& v.online == (o is Some)
    &&& match o {
        Some(x) => opt_view(v.mode) == Some(x.mode.name()) && opt_view(v.addr) == Some(x.addr@),
        None => v.mode is None && v.addr is None,
    }
}

/// The live session at an address.
pub open spec fn online_at(r: Router, ip: Ipv4Addr) -> Option<Online> {
    match r.owner(ip) {
        Some(id) => Some(r.sessions@[id].info),
        None => None,
    }
}

/// Whether `v` shows a listener.
pub open spec fn shows_listener(v: ListenerView, l: ListenerConfig) -> bool {
    v.transport@ == l.transport.name() && v.bind@ == l.bind@ && v.tls == l.tls
}

/// Whether `r` shows the server's status.
pub open spec fn shows_status(r: StatusResp, cfg: ServerConfig, router: Router) -> bool {
    &&& r.subnet@ == cfg.network.subnet@
    &&& r.gateway@ == dotted(cfg.network.gateway.bits)
    &&& r.mtu == cfg.network.mtu
    &&& r.noise_psk@ == cfg.security.noise_psk@
    &&& r.listeners@.len() == cfg.listeners@.len()
    &&& forall|i: int|
        0 <= i < cfg.listeners@.len() ==> shows_listener(
            #[trigger] r.listeners@[i],
            cfg.listeners@[i],
        )
    &&& r.peers@.len() == cfg.peers@.len()
    &&& forall|i: int|
        0 <= i < cfg.peers@.len() ==> shows_peer(
            #[trigger] r.peers@[i],
            cfg.peers@[i],
            online_at(router, cfg.peers@[i].ip),
        )
}

/// The status that the panel shows, if the request may see it.
pub fn status(cfg: &ServerConfig, router: &Router, authorized: bool) -> (r: Result<
    StatusResp,
    u16,
>)
    requires
        router.wf(),
    ensures
        match r {
            Ok(s) => authorized && shows_status(s, *cfg, *router),
            Err(code) => !authorized && code == UNAUTHORIZED,
        },
{
    if !authorized {
        return Err(UNAUTHORIZED);
    }
    let n: usize = cfg.peers.len();
    let mut peers: Vec<PeerView> = Vec::new();
    let online = router.online();
    for i in 0..n
        invariant
            router.wf(),
            n == cfg.peers@.len(),
            lists_online(online@, *router),
            peers@.len() == i,
            forall|j: int|
                0 <= j < i ==> shows_peer(
                    #[trigger] peers@[j],
                    cfg.peers@[j],
                    online_at(*router, cfg.peers@[j].ip),
                ),
    {
        let p = &cfg.peers[i];
        let (is_on, mode, addr) = match find_online(&online, p.ip) {
            Some(k) => {
                let o = &online[k].1;
                (true, Some(o.mode.to_text()), Some(o.addr.clone()))
            },
            None => (false, None, None),
        };
        proof {
            if router.owner(p.ip) is Some {
                let k = choose|k: int| 0 <= k < online@.len() && (#[trigger] online@[k]).0 == p.ip;
                assert(is_on);
            }
        }
        peers.push(
            PeerView {
                name: p.name.clone(),
                token: p.token.clone(),
                ip: p.ip.to_text(),
                enabled: p.enabled,
                allow_global: p.allow_global,
                allow_http_proxy: p.allow_http_proxy,
                online: is_on,
                mode,
                addr,
            },
        );
    }
    let m: usize = cfg.listeners.len();
    let mut listeners: Vec<ListenerView> = Vec::new();
    for i in 0..m
        invariant
            m == cfg.listeners@.len(),
            listeners@.len() == i,
            forall|j: int|
                0 <= j < i ==> shows_listener(#[trigger] listeners@[j], cfg.listeners@[j]),
    {
        let l = &cfg.listeners[i];
        listeners.push(
            ListenerView { transport: l.transport.to_text(), bind: l.bind.clone(), tls: l.tls },
        );
    }
    Ok(
        StatusResp {
            listeners,
            subnet: cfg.network.subnet.clone(),
            gateway: cfg.network.gateway.to_text(),
            mtu: cfg.network.mtu,
            noise_psk: cfg.security.noise_psk.clone(),
            peers,
        },
    )
}

/// The place of an address in a list of online peers.
fn find_online(online: &Vec<(Ipv4Addr, Online)>, ip: Ipv4Addr) -> (r: Option<usize>)
    ensures
        match r {
            Some(k) => k < online@.len() && online@[k as int].0 == ip,
            None => forall|k: int| 0 <= k < online@.len() ==> (#[trigger] online@[k]).0 != ip,
        },
{
    let n: usize = online.len();
    for i in 0..n
        invariant
            n == online@.len(),
            forall|k: int| 0 <= k < i ==> (#[trigger] online@[k]).0 != ip,
    {
        if online[i].0 == ip {
            return Some(i);
        }
    }
    None
}

/// The traffic statistics as the panel shows them.
pub struct StatsResp {
    pub uptime_secs: u64,
    pub total_up: u64,
    pub total_down: u64,
    pub online: usize,
    pub timeline: Vec<TrafficSample>,
    pub peers: Vec<PeerStat>,
}

/// The traffic statistics, if the request may see them. `live` is what
/// [`Router::live`] listed.
pub fn stats(metrics: &Metrics, live: &Vec<LiveEntry>, now: u64, authorized: bool) -> (r: Result<
    StatsResp,
    u16,
>)
    requires
        metrics.wf(),
        authorized ==> metrics.stats_fit(live@),
    ensures
        match r {
            Ok(s) => {
                &&& authorized
                &&& s.uptime_secs == seconds_since(metrics.start, now)
                &&& s.total_up == metrics.total_up
                &&& s.total_down == metrics.total_down
                &&& s.online == live@.len()
                &&& s.timeline@ == metrics.timeline@
                &&& metrics.reports(live@, s.peers@)
            },
            Err(code) => !authorized && code == UNAUTHORIZED,
        },
{
    if !authorized {
        return Err(UNAUTHORIZED);
    }
    let peers = metrics.peer_stats(live);
    let (total_up, total_down) = metrics.totals();
    Ok(
        StatsResp {
            uptime_secs: metrics.uptime_secs(now),
            total_up,
            total_down,
            online: live.len(),
            timeline: metrics.timeline(),
            peers,
        },
    )
}

/// Whether some peer has a token or an address.
pub open spec fn taken(peers: Seq<PeerConfig>, token: Seq<char>, ip: Ipv4Addr) -> bool {
    exists|i: int|
        0 <= i < peers.len() && ((#[trigger] peers[i]).token@ == token || peers[i].ip == ip)
}

/// Whether no two peers share a token or an address.
pub open spec fn unique_peers(peers: Seq<PeerConfig>) -> bool {
    forall|i: int, j: int|
        0 <= i < j < peers.len() ==> (#[trigger] peers[i]).token@ != (#[trigger] peers[j]).token@
            && peers[i].ip != peers[j].ip
}

/// Whether `post` differs from `pre` in the peers at most.
pub open spec fn same_but_peers(pre: ServerConfig, post: ServerConfig) -> bool {
    &&& post.listeners == pre.listeners
    &&& post.network == pre.network
    &&& post.security == pre.security
    &&& post.web == pre.web
}

/// Adds a peer, unless its token or its address is taken. An answer of
/// [`CREATED`] is given once the configuration is saved.
pub fn add_peer(cfg: &mut ServerConfig, authorized: bool, peer: PeerConfig) -> (r: Result<
    u16,
    u16,
>)
    ensures
        adds_peer(*old(cfg), authorized, peer, *final(cfg), r),
        same_but_peers(*old(cfg), *final(cfg)),
        if !authorized {
            r == Err::<u16, u16>(UNAUTHORIZED) && final(cfg).peers@ == old(cfg).peers@
        } else if taken(old(cfg).peers@, peer.token@, peer.ip) {
            r == Err::<u16, u16>(CONFLICT) && final(cfg).peers@ == old(cfg).peers@
        } else {
            r == Ok::<u16, u16>(CREATED) && final(cfg).peers@ == old(cfg).peers@.push(peer)
        },
{
    if !authorized {
        return Err(UNAUTHORIZED);
    }
    let n: usize = cfg.peers.len();
    for i in 0..n
        invariant
            n == cfg.peers@.len(),
            *cfg == *old(cfg),
            authorized,
            forall|j: int|
                0 <= j < i ==> (#[trigger] cfg.peers@[j]).token@ != peer.token@ && cfg.peers@[j].ip
                    != peer.ip,
    {
        if same(cfg.peers[i].token.as_str(), peer.token.as_str()) || cfg.peers[i].ip == peer.ip {
            assert(taken(cfg.peers@, peer.token@, peer.ip));
            return Err(CONFLICT);
        }
    }
    cfg.peers.push(peer);
    Ok(CREATED)
}

/// The peers that have another token.
pub open spec fn without_token(peers: Seq<PeerConfig>, token: Seq<char>) -> Seq<PeerConfig>
    decreases peers.len(),
{
    if peers.len() == 0 {
        Seq::empty()
    } else {
        let before = without_token(peers.drop_last(), token);
        if peers.last().token@ != token {
            before.push(peers.last())
        } else {
            before
        }
    }
}

/// Removes the peers with a token. An answer of [`NO_CONTENT`] is given once the
/// configuration is saved.
pub fn del_peer(cfg: &mut ServerConfig, authorized: bool, token: &str) -> (r: Result<u16, u16>)
    ensures
        dels_peer(*old(cfg), authorized, token@, *final(cfg), r),
        same_but_peers(*old(cfg), *final(cfg)),
        if !authorized {
            r == Err::<u16, u16>(UNAUTHORIZED) && final(cfg).peers@ == old(cfg).peers@
        } else {
            &&& final(cfg).peers@ == without_token(old(cfg).peers@, token@)
            &&& if without_token(old(cfg).peers@, token@).len() == old(cfg).peers@.len() {
                r == Err::<u16, u16>(NOT_FOUND)
            } else {
                r == Ok::<u16, u16>(NO_CONTENT)
            }
        },
{
    if !authorized {
        return Err(UNAUTHORIZED);
    }
    let n: usize = cfg.peers.len();
    let mut kept: Vec<PeerConfig> = Vec::new();
    assert(cfg.peers@.take(0) =~= Seq::<PeerConfig>::empty());
    for i in 0..n
        invariant
            n == cfg.peers@.len(),
            *cfg == *old(cfg),
            kept@ == without_token(cfg.peers@.take(i as int), token@),
    {
        assert(cfg.peers@.take(i + 1).drop_last() =~= cfg.peers@.take(i as int));
        if !same(cfg.peers[i].token.as_str(), token) {
            kept.push(cfg.peers[i].clone());
        }
    }
    assert(cfg.peers@.take(n as int) =~= cfg.peers@);
    let gone = kept.len() < n;
    proof {
        lemma_without_token_len(old(cfg).peers@, token@);
    }
    cfg.peers = kept;
    if gone {
        Ok(NO_CONTENT)
    } else {
        Err(NOT_FOUND)
    }
}

proof fn lemma_without_token_len(peers: Seq<PeerConfig>, token: Seq<char>)
    ensures
        without_token(peers, token).len() <= peers.len(),
        without_token(peers, token).len() == peers.len() ==> without_token(peers, token) == peers,
    decreases peers.len(),
{
    if peers.len() > 0 {
        lemma_without_token_len(peers.drop_last(), token);
        assert(peers.drop_last().push(peers.last()) =~= peers);
    } else {
        assert(without_token(peers, token) =~= peers);
    }
}

/// The final answer to a change, once saving was tried.
pub fn persist(answer: Result<u16, u16>, saved: bool) -> (r: u16)
    ensures
        r == code_after(answer, saved),
        r == match answer {
            Ok(code) => if saved {
                code
            } else {
                INTERNAL_SERVER_ERROR
            },
            Err(code) => code,
        },
{
    match answer {
        Ok(code) => if saved {
            code
        } else {
            INTERNAL_SERVER_ERROR
        },
        Err(code) => code,
    }
}

/// Adding a peer that is not taken keeps tokens and addresses unique, and the
/// peer is found by its token afterwards.
pub proof fn law_add_peer(peers: Seq<PeerConfig>, p: PeerConfig)
    requires
        !taken(peers, p.token@, p.ip),
    ensures
        unique_peers(peers) ==> unique_peers(peers.push(p)),
        peer_with(peers.push(p), p.token@) == Some(p),
{
    assert forall|i: int| 0 <= i < peers.len() implies (#[trigger] peers[i]).token@ != p.token@
        && peers[i].ip != p.ip by {}
    lemma_found_last(peers, p);
}

proof fn lemma_found_last(peers: Seq<PeerConfig>, p: PeerConfig)
    requires
        forall|i: int| 0 <= i < peers.len() ==> (#[trigger] peers[i]).token@ != p.token@,
    ensures
        peer_with(peers.push(p), p.token@) == Some(p),
    decreases peers.len(),
{
    let all = peers.push(p);
    if peers.len() > 0 {
        let tail = peers.skip(1);
        assert forall|i: int| 0 <= i < tail.len() implies (#[trigger] tail[i]).token@
            != p.token@ by {
            assert(tail[i] == peers[i + 1]);
        }
        lemma_found_last(tail, p);
        assert(all.skip(1) =~= tail.push(p));
    }
}

/// Removing a peer that was just added gives the old peers back.
pub proof fn law_del_undoes_add(peers: Seq<PeerConfig>, p: PeerConfig)
    requires
        !taken(peers, p.token@, p.ip),
    ensures
        without_token(peers.push(p), p.token@) == peers,
{
    assert(peers.push(p).drop_last() =~= peers);
    lemma_nothing_removed(peers, p.token@);
}

proof fn lemma_nothing_removed(peers: Seq<PeerConfig>, token: Seq<char>)
    requires
        forall|i: int| 0 <= i < peers.len() ==> (#[trigger] peers[i]).token@ != token,
    ensures
        without_token(peers, token) == peers,
    decreases peers.len(),
{
    if peers.len() > 0 {
        lemma_nothing_removed(peers.drop_last(), token);
        assert(peers.drop_last().push(peers.last()) =~= peers);
    } else {
        assert(without_token(peers, token) =~= peers);
    }
}

/// Once a token is removed, no peer is found by it.
pub proof fn law_del_peer(peers: Seq<PeerConfig>, token: Seq<char>)
    ensures
        peer_with(without_token(peers, token), token) is None,
{
    lemma_removed(peers, token);
    super::config::law_peer_lookup(without_token(peers, token), token);
    if let Some(p) = peer_with(without_token(peers, token), token) {
        let i = choose|i: int|
            0 <= i < without_token(peers, token).len() && without_token(peers, token)[i] == p;
        assert(without_token(peers, token)[i].token@ != token);
    }
}

proof fn lemma_removed(peers: Seq<PeerConfig>, token: Seq<char>)
    ensures
        forall|i: int|
            0 <= i < without_token(peers, token).len() ==> (#[trigger] without_token(
                peers,
                token,
            )[i]).token@ != token,
    decreases peers.len(),
{
    if peers.len() > 0 {
        lemma_removed(peers.drop_last(), token);
        let before = without_token(peers.drop_last(), token);
        let after = without_token(peers, token);
        assert forall|i: int| 0 <= i < after.len() implies (#[trigger] after[i]).token@ != token by {
            if i < before.len() {
                assert(after[i] == before[i]);
            }
        }
    }
}

/// What adding a peer does to the configuration, and the answer.
pub open spec fn adds_peer(
    pre: ServerConfig,
    authorized: bool,
    peer: PeerConfig,
    post: ServerConfig,
    r: Result<u16, u16>,
) -> bool {
    &&& same_but_peers(pre, post)
    &&& if !authorized {
        r == Err::<u16, u16>(UNAUTHORIZED) && post.peers@ == pre.peers@
    } else if taken(pre.peers@, peer.token@, peer.ip) {
        r == Err::<u16, u16>(CONFLICT) && post.peers@ == pre.peers@
    } else {
        r == Ok::<u16, u16>(CREATED) && post.peers@ == pre.peers@.push(peer)
    }
}

/// What removing a peer does to the configuration, and the answer.
pub open spec fn dels_peer(
    pre: ServerConfig,
    authorized: bool,
    token: Seq<char>,
    post: ServerConfig,
    r: Result<u16, u16>,
) -> bool {
    &&& same_but_peers(pre, post)
    &&& if !authorized {
        r == Err::<u16, u16>(UNAUTHORIZED) && post.peers@ == pre.peers@
    } else {
        &&& post.peers@ == without_token(pre.peers@, token)
        &&& if without_token(pre.peers@, token).len() == pre.peers@.len() {
            r == Err::<u16, u16>(NOT_FOUND)
        } else {
            r == Ok::<u16, u16>(NO_CONTENT)
        }
    }
}

/// The status code once the change was saved or could not be.
pub open spec fn code_after(answer: Result<u16, u16>, saved: bool) -> u16 {
    match answer {
        Ok(code) => if saved {
            code
        } else {
            INTERNAL_SERVER_ERROR
        },
        Err(code) => code,
    }
}

}
