//! The router: which live session owns a virtual address.

use std::collections::HashMap;
use vstd::prelude::*;
use vstd::std_specs::hash::*;

use super::tables::{
    get4, get6, insert4, insert6, list4, lists4, new4, new6, owners4, owners6, remove4, remove6,
};
use crate::addr::{Ipv4Addr, Ipv6Addr};
use crate::config::SessionMode;

verus! {

broadcast use vstd::std_specs::hash::group_hash_axioms;

/// Public facts about a connected peer.
#[derive(Debug)]
pub struct Online {
    pub name: String,
    pub mode: SessionMode,
    pub addr: String,
    /// Part of the peer LAN: in `Vpn` mode, or joined by request. Only members are
    /// listed to other clients.
    pub vpn_member: bool,
    /// The peer's virtual IPv6 address, when the server has IPv6.
    pub ip6: Option<Ipv6Addr>,
}

impl Clone for Online {
    fn clone(&self) -> (r: Online)
        ensures
            r == *self,
    {
        Online {
            name: self.name.clone(),
            mode: self.mode,
            addr: self.addr.clone(),
            vpn_member: self.vpn_member,
            ip6: self.ip6,
        }
    }
}

/// Byte counters of one session.
#[derive(Clone, Copy, Debug)]
pub struct Counters {
    /// Bytes from client to server.
    pub up: u64,
    /// Bytes from server to client.
    pub down: u64,
}

/// A running session.
pub struct Entry {
    pub ip: Ipv4Addr,
    pub info: Online,
    pub token: String,
    pub counters: Counters,
    /// When it was registered, in seconds.
    pub connected: u64,
}

/// One online peer with its traffic so far.
pub struct LiveEntry {
    pub ip: Ipv4Addr,
    pub name: String,
    pub token: String,
    pub mode: SessionMode,
    pub addr: String,
    pub up: u64,
    pub down: u64,
    pub connected_secs: u64,
}

/// Maps a virtual address to the live session that owns it. Sessions are known by
/// number.
pub struct Router {
    pub peers: dashmap::DashMap<u32, u64>,
    pub peers6: dashmap::DashMap<u128, u64>,
    pub sessions: HashMap<u64, Entry>,
}

/// Whether `l` lists every online peer exactly once, in some order.
pub open spec fn lists_online(l: Seq<(Ipv4Addr, Online)>, r: Router) -> bool {
    &&& forall|i: int|
        0 <= i < l.len() ==> r.owner((#[trigger] l[i]).0) is Some && l[i].1
            == r.sessions@[r.owner(l[i].0)->Some_0].info
    &&& forall|i: int, j: int| 0 <= i < j < l.len() ==> (#[trigger] l[i]).0 != (#[trigger] l[j]).0
    &&& forall|ip: Ipv4Addr|
        #[trigger]
        r.owner(ip) is Some ==> exists|i: int| 0 <= i < l.len() && (#[trigger] l[i]).0 == ip
}

/// How many seconds have passed from `then` to `now`.
pub open spec fn seconds_since(then: u64, now: u64) -> u64 {
    if now >= then {
        (now - then) as u64
    } else {
        0
    }
}

/// Whether `e` shows a session at the time `now`.
pub open spec fn shows(e: LiveEntry, s: Entry, now: u64) -> bool {
    &&& e.name@ == s.info.name@
    &&& e.token@ == s.token@
    &&& e.mode == s.info.mode
    &&& e.addr@ == s.info.addr@
    &&& e.up == s.counters.up
    &&& e.down == s.counters.down
    &&& e.connected_secs == seconds_since(s.connected, now)
}

/// Whether `l` shows every online peer exactly once, in some order.
pub open spec fn lists_live(l: Seq<LiveEntry>, r: Router, now: u64) -> bool {
    &&& forall|i: int|
        0 <= i < l.len() ==> r.owner((#[trigger] l[i]).ip) is Some && shows(
            l[i],
            r.sessions@[r.owner(l[i].ip)->Some_0],
            now,
        )
    &&& forall|i: int, j: int|
        0 <= i < j < l.len() ==> (#[trigger] l[i]).ip != (#[trigger] l[j]).ip
    &&& forall|ip: Ipv4Addr|
        #[trigger]
        r.owner(ip) is Some ==> exists|i: int| 0 <= i < l.len() && (#[trigger] l[i]).ip == ip
}

impl Router {
    /// The session that owns an address.
    pub open spec fn owner(&self, ip: Ipv4Addr) -> Option<u64> {
        owners4(self.peers).get(ip.bits)
    }

    /// The session that owns an IPv6 address.
    pub open spec fn owner6(&self, ip: Ipv6Addr) -> Option<u64> {
        owners6(self.peers6).get(ip.bits)
    }

    /// Every owner is a running session that was assigned the address.
    pub open spec fn wf(&self) -> bool {
        &&& forall|ip: Ipv4Addr|
            #[trigger]
            self.owner(ip) is Some ==> self.sessions@.dom().contains(self.owner(ip)->Some_0)
                && self.sessions@[self.owner(ip)->Some_0].ip == ip
        &&& forall|ip: Ipv6Addr|
            #[trigger]
            self.owner6(ip) is Some ==> self.sessions@.dom().contains(self.owner6(ip)->Some_0)
                && self.sessions@[self.owner6(ip)->Some_0].info.ip6 == Some(ip)
    }

    /// Whether `post` is this router with the session `id` registered as `e`.
    pub open spec fn registers(&self, id: u64, e: Entry, post: Router) -> bool {
        &&& post.wf()
        &&& post.sessions@ == self.sessions@.insert(id, e)
        &&& forall|ip: Ipv4Addr| #[trigger]
            post.owner(ip) == if ip == e.ip {
                Some(id)
            } else {
                self.owner(ip)
            }
        &&& forall|ip: Ipv6Addr| #[trigger]
            post.owner6(ip) == if Some(ip) == e.info.ip6 {
                Some(id)
            } else {
                self.owner6(ip)
            }
    }

    /// Whether `post` is this router without the session `id`: nobody owns what it
    /// owned, and what others own stays theirs, even an address that was its own
    /// before one of them took it.
    pub open spec fn unregisters(&self, id: u64, post: Router) -> bool {
        &&& post.wf()
        &&& post.sessions@ == self.sessions@.remove(id)
        &&& forall|ip: Ipv4Addr| #[trigger]
            post.owner(ip) == if self.owner(ip) == Some(id) {
                None
            } else {
                self.owner(ip)
            }
        &&& forall|ip: Ipv6Addr| #[trigger]
            post.owner6(ip) == if self.owner6(ip) == Some(id) {
                None
            } else {
                self.owner6(ip)
            }
    }

    /// A router without sessions.
    pub fn new() -> (r: Router)
        ensures
            r.wf(),
            r.sessions@ == Map::<u64, Entry>::empty(),
            forall|ip: Ipv4Addr| #[trigger] r.owner(ip) is None,
            forall|ip: Ipv6Addr| #[trigger] r.owner6(ip) is None,
    {
        Router { peers: new4(), peers6: new6(), sessions: HashMap::new() }
    }

    /// Registers a session as the owner of its addresses, in place of whoever
    /// owned them.
    pub fn register(
        &mut self,
        id: u64,
        ip: Ipv4Addr,
        info: Online,
        token: String,
        now: u64,
    )
        requires
            old(self).wf(),
            !old(self).sessions@.dom().contains(id),
        ensures
            old(self).registers(
                id,
                (Entry { ip, info, token, counters: Counters { up: 0, down: 0 }, connected: now }),
                *final(self),
            ),
    {
        if let Some(v6) = info.ip6 {
            insert6(&mut self.peers6, v6.bits, id);
        }
        insert4(&mut self.peers, ip.bits, id);
        self.sessions.insert(
            id,
            Entry { ip, info, token, counters: Counters { up: 0, down: 0 }, connected: now },
        );
        proof {
            assert forall|a: Ipv4Addr| #[trigger]
                self.owner(a) == if a == ip {
                    Some(id)
                } else {
                    old(self).owner(a)
                } by {
                assert(a == ip <==> a.bits == ip.bits);
            }
            assert forall|a: Ipv6Addr| #[trigger]
                self.owner6(a) == if Some(a) == info.ip6 {
                    Some(id)
                } else {
                    old(self).owner6(a)
                } by {
                if info.ip6 is Some {
                    assert(a == info.ip6->Some_0 <==> a.bits == info.ip6->Some_0.bits);
                }
            }
            assert(self.wf());
        }
    }

    /// Ends a session: the addresses that it still owns are free again. Returns its
    /// record.
    pub fn unregister(&mut self, id: u64) -> (r: Option<Entry>)
        requires
            old(self).wf(),
        ensures
            match r {
                Some(e) => old(self).sessions@.dom().contains(id) && e == old(self).sessions@[id]
                    && old(self).unregisters(id, *final(self)),
                None => !old(self).sessions@.dom().contains(id) && *final(self) == *old(self),
            },
    {
        if !self.sessions.contains_key(&id) {
            return None;
        }
        match self.sessions.remove(&id) {
            Some(e) => {
                let owns = match get4(&self.peers, e.ip.bits) {
                    Some(o) => o == id,
                    None => false,
                };
                if owns {
                    remove4(&mut self.peers, e.ip.bits);
                }
                if let Some(v6) = e.info.ip6 {
                    let owns6 = match get6(&self.peers6, v6.bits) {
                        Some(o) => o == id,
                        None => false,
                    };
                    if owns6 {
                        remove6(&mut self.peers6, v6.bits);
                    }
                }
                proof {
                    assert forall|a: Ipv4Addr| #[trigger]
                        self.owner(a) == if old(self).owner(a) == Some(id) {
                            None
                        } else {
                            old(self).owner(a)
                        } by {
                        assert(a == e.ip <==> a.bits == e.ip.bits);
                    }
                    assert forall|a: Ipv6Addr| #[trigger]
                        self.owner6(a) == if old(self).owner6(a) == Some(id) {
                            None
                        } else {
                            old(self).owner6(a)
                        } by {
                        if e.info.ip6 is Some {
                            assert(a == e.info.ip6->Some_0 <==> a.bits
                                == e.info.ip6->Some_0.bits);
                        }
                    }
                    assert(self.wf());
                }
                Some(e)
            },
            None => None,
        }
    }

    /// The session to hand a packet for `ip` to. None if nobody owns it: the packet
    /// is dropped, as with a real network card.
    pub fn deliver(&self, ip: Ipv4Addr) -> (r: Option<u64>)
        ensures
            r == self.owner(ip),
    {
        get4(&self.peers, ip.bits)
    }

    /// The session to hand a packet for an IPv6 address to.
    pub fn deliver6(&self, ip6: Ipv6Addr) -> (r: Option<u64>)
        ensures
            r == self.owner6(ip6),
    {
        get6(&self.peers6, ip6.bits)
    }

    /// The online peers.
    pub fn online(&self) -> (r: Vec<(Ipv4Addr, Online)>)
        requires
            self.wf(),
        ensures
            lists_online(r@, *self),
    {
        let list = list4(&self.peers);
        let n: usize = list.len();
        let mut out: Vec<(Ipv4Addr, Online)> = Vec::new();
        for i in 0..n
            invariant
                self.wf(),
                n == list@.len(),
                lists4(list@, owners4(self.peers)),
                out@.len() == i,
                forall|j: int|
                    0 <= j < i ==> (#[trigger] out@[j]).0.bits == list@[j].0 && out@[j].1
                        == self.sessions@[list@[j].1].info,
        {
            let (bits, id) = list[i];
            let ip = Ipv4Addr { bits };
            assert(self.owner(ip) == Some(id));
            if let Some(e) = self.sessions.get(&id) {
                out.push((ip, e.info.clone()));
            }
        }
        proof {
            assert forall|ip: Ipv4Addr| #[trigger] self.owner(ip) is Some implies exists|i: int|
                0 <= i < out@.len() && (#[trigger] out@[i]).0 == ip by {
                assert(owners4(self.peers).dom().contains(ip.bits));
                let i = choose|i: int| 0 <= i < list@.len() && (#[trigger] list@[i]).0 == ip.bits;
                assert(out@[i].0.bits == ip.bits);
            }
            assert forall|i: int| 0 <= i < out@.len() implies self.owner((#[trigger] out@[i]).0)
                is Some && out@[i].1 == self.sessions@[self.owner(out@[i].0)->Some_0].info by {
                assert(owners4(self.peers).dom().contains(list@[i].0));
            }
            assert forall|i: int, j: int| 0 <= i < j < out@.len() implies (#[trigger] out@[i]).0
                != (#[trigger] out@[j]).0 by {
                assert(list@[i].0 != list@[j].0);
            }
        }
        out
    }

    /// The online peers with their traffic so far.
    pub fn live(&self, now: u64) -> (r: Vec<LiveEntry>)
        requires
            self.wf(),
        ensures
            lists_live(r@, *self, now),
    {
        let list = list4(&self.peers);
        let n: usize = list.len();
        let mut out: Vec<LiveEntry> = Vec::new();
        for i in 0..n
            invariant
                self.wf(),
                n == list@.len(),
                lists4(list@, owners4(self.peers)),
                out@.len() == i,
                forall|j: int|
                    0 <= j < i ==> (#[trigger] out@[j]).ip.bits == list@[j].0 && shows(
                        out@[j],
                        self.sessions@[list@[j].1],
                        now,
                    ),
        {
            let (bits, id) = list[i];
            let ip = Ipv4Addr { bits };
            assert(self.owner(ip) == Some(id));
            if let Some(e) = self.sessions.get(&id) {
                out.push(
                    LiveEntry {
                        ip,
                        name: e.info.name.clone(),
                        token: e.token.clone(),
                        mode: e.info.mode,
                        addr: e.info.addr.clone(),
                        up: e.counters.up,
                        down: e.counters.down,
                        connected_secs: if now >= e.connected {
                            now - e.connected
                        } else {
                            0
                        },
                    },
                );
            }
        }
        proof {
            assert forall|ip: Ipv4Addr| #[trigger] self.owner(ip) is Some implies exists|i: int|
                0 <= i < out@.len() && (#[trigger] out@[i]).ip == ip by {
                assert(owners4(self.peers).dom().contains(ip.bits));
                let i = choose|i: int| 0 <= i < list@.len() && (#[trigger] list@[i]).0 == ip.bits;
                assert(out@[i].ip.bits == ip.bits);
            }
            assert forall|i: int| 0 <= i < out@.len() implies self.owner((#[trigger] out@[i]).ip)
                is Some && shows(out@[i], self.sessions@[self.owner(out@[i].ip)->Some_0], now) by {
                assert(owners4(self.peers).dom().contains(list@[i].0));
            }
            assert forall|i: int, j: int| 0 <= i < j < out@.len() implies (#[trigger] out@[i]).ip
                != (#[trigger] out@[j]).ip by {
                assert(list@[i].0 != list@[j].0);
            }
        }
        out
    }

    /// Counts bytes from the client of a session. The count wraps at its width.
    pub fn count_up(&mut self, id: u64, n: u64)
        requires
            old(self).wf(),
        ensures
            final(self).wf(),
            old(self).counts(id, n, 0, *final(self)),
    {
        if let Some(mut e) = self.sessions.remove(&id) {
            let ghost before = e;
            e.counters.up = e.counters.up.wrapping_add(n);
            self.sessions.insert(id, e);
            proof {
                assert(e == counted(before, n, 0));
                assert(self.sessions@ =~= old(self).sessions@.insert(id, e));
            }
        } else {
            assert(self.sessions@ =~= old(self).sessions@);
        }
        proof {
            assert forall|ip: Ipv4Addr| #[trigger] self.owner(ip) == old(self).owner(ip) by {}
            assert forall|ip: Ipv6Addr| #[trigger] self.owner6(ip) == old(self).owner6(ip) by {}
        }
    }

    /// Counts bytes to the client of a session. The count wraps at its width.
    pub fn count_down(&mut self, id: u64, n: u64)
        requires
            old(self).wf(),
        ensures
            final(self).wf(),
            old(self).counts(id, 0, n, *final(self)),
    {
        if let Some(mut e) = self.sessions.remove(&id) {
            let ghost before = e;
            e.counters.down = e.counters.down.wrapping_add(n);
            self.sessions.insert(id, e);
            proof {
                assert(e == counted(before, 0, n));
                assert(self.sessions@ =~= old(self).sessions@.insert(id, e));
            }
        } else {
            assert(self.sessions@ =~= old(self).sessions@);
        }
        proof {
            assert forall|ip: Ipv4Addr| #[trigger] self.owner(ip) == old(self).owner(ip) by {}
            assert forall|ip: Ipv6Addr| #[trigger] self.owner6(ip) == old(self).owner6(ip) by {}
        }
    }

    /// Whether `post` is this router with bytes counted for the session `id`, if it
    /// is running.
    pub open spec fn counts(&self, id: u64, up: u64, down: u64, post: Router) -> bool {
        &&& post.peers == self.peers
        &&& post.peers6 == self.peers6
        &&& if self.sessions@.dom().contains(id) {
            post.sessions@ == self.sessions@.insert(
                id,
                counted(self.sessions@[id], up, down),
            )
        } else {
            post.sessions@ == self.sessions@
        }
    }
}

/// A session with more bytes counted.
pub open spec fn counted(e: Entry, up: u64, down: u64) -> Entry {
    Entry {
        counters: Counters {
            up: e.counters.up.wrapping_add(up),
            down: e.counters.down.wrapping_add(down),
        },
        ..e
    }
}

/// A registered session gets the packets for its addresses, and registering it
/// changes nobody else's packets.
pub proof fn law_register_then_deliver(pre: Router, id: u64, e: Entry, post: Router)
    requires
        pre.registers(id, e, post),
    ensures
        post.owner(e.ip) == Some(id),
        e.info.ip6 is Some ==> post.owner6(e.info.ip6->Some_0) == Some(id),
        forall|ip: Ipv4Addr| ip != e.ip ==> #[trigger] post.owner(ip) == pre.owner(ip),
{
}

/// Once a session has ended, no packet is handed to it, and every other session still
/// gets what it got before.
pub proof fn law_unregister_then_nothing(pre: Router, id: u64, post: Router)
    requires
        pre.unregisters(id, post),
    ensures
        forall|ip: Ipv4Addr| #[trigger] post.owner(ip) != Some(id),
        forall|ip: Ipv6Addr| #[trigger] post.owner6(ip) != Some(id),
        forall|ip: Ipv4Addr|
            pre.owner(ip) != Some(id) ==> #[trigger] post.owner(ip) == pre.owner(ip),
        forall|ip: Ipv6Addr|
            pre.owner6(ip) != Some(id) ==> #[trigger] post.owner6(ip) == pre.owner6(ip),
{
}

/// A session that took over the address of another keeps it when the other ends.
pub proof fn law_reconnect_keeps_the_address(
    pre: Router,
    new: u64,
    e: Entry,
    mid: Router,
    gone: u64,
    post: Router,
)
    requires
        pre.registers(new, e, mid),
        new != gone,
        mid.unregisters(gone, post),
    ensures
        post.owner(e.ip) == Some(new),
        e.info.ip6 is Some ==> post.owner6(e.info.ip6->Some_0) == Some(new),
        post.sessions@.dom().contains(new),
{
}

}
