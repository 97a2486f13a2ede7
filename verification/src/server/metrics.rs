//! Traffic metrics since the server started, kept in memory only.

use std::collections::VecDeque;
use vstd::prelude::*;

use super::router::{seconds_since, LiveEntry};
use super::tables::{get_place, insert_place, new_places, places};
use crate::addr::{dotted, Ipv4Addr};
use crate::config::SessionMode;
use crate::protocol::control::opt_view;
use crate::text::same;

verus! {

/// Bytes of one peer's ended sessions, kept by token so that totals survive
/// reconnects.
pub struct PeerAgg {
    pub token: String,
    pub name: String,
    pub ip: Ipv4Addr,
    pub mode: SessionMode,
    pub up: u64,
    pub down: u64,
}

/// Bytes transferred during the interval that ended `t` seconds after the server
/// started.
#[derive(Clone, Copy, Debug, PartialEq, Eq, Structural)]
pub struct TrafficSample {
    pub t: u64,
    pub up: u64,
    pub down: u64,
}

/// One peer's line in the statistics.
#[derive(Debug)]
pub struct PeerStat {
    pub name: String,
    pub token: String,
    pub ip: String,
    pub mode: Option<String>,
    pub online: bool,
    pub addr: Option<String>,
    pub up: u64,
    pub down: u64,
    pub connected_secs: u64,
}

pub struct PeerStatView {
    pub name: Seq<char>,
    pub token: Seq<char>,
    pub ip: Seq<char>,
    pub mode: Option<Seq<char>>,
    pub online: bool,
    pub addr: Option<Seq<char>>,
    pub up: nat,
    pub down: nat,
    pub connected_secs: u64,
}

impl View for PeerStat {
    type V = PeerStatView;

    open spec fn view(&self) -> PeerStatView {
        PeerStatView {
            name: self.name@,
            token: self.token@,
            ip: self.ip@,
            mode: opt_view(self.mode),
            online: self.online,
            addr: opt_view(self.addr),
            up: self.up as nat,
            down: self.down as nat,
            connected_secs: self.connected_secs,
        }
    }
}

/// How many samples are kept.
pub const MAX_SAMPLES: usize = 180;

/// The last `max` items of `s`.
pub open spec fn latest<T>(s: Seq<T>, max: int) -> Seq<T> {
    if s.len() > max {
        s.skip(s.len() - max)
    } else {
        s
    }
}

/// In-memory server metrics.
pub struct Metrics {
    /// When the server started, in seconds.
    pub start: u64,
    pub total_up: u64,
    pub total_down: u64,
    /// Where each token's record of ended sessions stands in `records`.
    pub agg: dashmap::DashMap<String, u64>,
    pub records: Vec<PeerAgg>,
    /// Throughput per interval, oldest first.
    pub timeline: VecDeque<TrafficSample>,
    /// The totals at the last sample.
    pub last: (u64, u64),
}

/// By how much a count has grown, or 0 if it has wrapped to less than it was.
pub open spec fn grown(before: u64, now: u64) -> u64 {
    if now >= before {
        (now - before) as u64
    } else {
        0
    }
}

/// The line of a peer without live sessions.
pub open spec fn history_line(a: PeerAgg) -> PeerStatView {
    PeerStatView {
        name: a.name@,
        token: a.token@,
        ip: dotted(a.ip.bits),
        mode: Some(a.mode.name()),
        online: false,
        addr: None,
        up: a.up as nat,
        down: a.down as nat,
        connected_secs: 0,
    }
}

/// The line of a peer after one more live session was added to `before`.
pub open spec fn live_line(before: Option<PeerStatView>, l: LiveEntry) -> PeerStatView {
    PeerStatView {
        name: l.name@,
        token: l.token@,
        ip: dotted(l.ip.bits),
        mode: Some(l.mode.name()),
        online: true,
        addr: Some(l.addr@),
        up: l.up as nat + match before {
            Some(s) => s.up,
            None => 0,
        },
        down: l.down as nat + match before {
            Some(s) => s.down,
            None => 0,
        },
        connected_secs: l.connected_secs,
    }
}

/// The line of the peer with a token: its ended sessions, and on top of them its
/// live ones. None if it has neither.
pub open spec fn line_of(
    history: Option<PeerAgg>,
    live: Seq<LiveEntry>,
    token: Seq<char>,
) -> Option<PeerStatView>
    decreases live.len(),
{
    if live.len() == 0 {
        match history {
            Some(a) => Some(history_line(a)),
            None => None,
        }
    } else {
        let before = line_of(history, live.drop_last(), token);
        if live.last().token@ == token {
            Some(live_line(before, live.last()))
        } else {
            before
        }
    }
}

/// The bytes in a line, both ways.
pub open spec fn line_bytes(l: Option<PeerStatView>) -> nat {
    match l {
        Some(s) => s.up + s.down,
        None => 0,
    }
}

/// More live sessions never lower the bytes of a peer.
proof fn lemma_line_grows(
    history: Option<PeerAgg>,
    live: Seq<LiveEntry>,
    n: int,
    token: Seq<char>,
)
    requires
        0 <= n <= live.len(),
    ensures
        line_bytes(line_of(history, live.take(n), token)) <= line_bytes(
            line_of(history, live, token),
        ),
    decreases live.len(),
{
    if n == live.len() {
        assert(live.take(n) =~= live);
    } else {
        lemma_line_grows(history, live.drop_last(), n, token);
        assert(live.drop_last().take(n) =~= live.take(n));
    }
}

/// Whether the bytes of each line fit into one count.
pub open spec fn lines_fit(s: Seq<PeerStat>) -> bool {
    forall|i: int| 0 <= i < s.len() ==> (#[trigger] s[i]).up + s[i].down <= u64::MAX
}

/// Whether no two lines have the same token.
pub open spec fn distinct_tokens(s: Seq<PeerStat>) -> bool {
    forall|i: int, j: int|
        0 <= i < s.len() && 0 <= j < s.len() && i != j ==> (#[trigger] s[i]).token@ != (
        #[trigger] s[j]).token@
}

/// Whether some line has a token.
pub open spec fn has_token(s: Seq<PeerStat>, token: Seq<char>) -> bool {
    exists|i: int| 0 <= i < s.len() && (#[trigger] s[i]).token@ == token
}

/// Whether the lines stand in descending order of bytes.
pub open spec fn descending(s: Seq<PeerStat>) -> bool {
    forall|i: int, j: int|
        0 <= i < j < s.len() ==> (#[trigger] s[i]).up + s[i].down >= (#[trigger] s[j]).up
            + s[j].down
}

impl Metrics {
    /// The record of a token's ended sessions.
    pub open spec fn record(&self, token: Seq<char>) -> Option<PeerAgg> {
        if places(self.agg).dom().contains(token) {
            Some(self.records@[places(self.agg)[token] as int])
        } else {
            None
        }
    }

    /// The token table and the records agree, and no more samples are kept than
    /// allowed.
    pub open spec fn wf(&self) -> bool {
        &&& self.timeline@.len() <= MAX_SAMPLES
        &&& forall|t: Seq<char>|
            #[trigger]
            places(self.agg).dom().contains(t) ==> places(self.agg)[t] < self.records@.len()
                && self.records@[places(self.agg)[t] as int].token@ == t
        &&& forall|i: int|
            0 <= i < self.records@.len() ==> places(self.agg).dom().contains(
                (#[trigger] self.records@[i]).token@,
            ) && places(self.agg)[self.records@[i].token@] == i
    }

    /// Metrics of a server that starts now.
    pub fn new(now: u64) -> (r: Metrics)
        ensures
            r.wf(),
            r.start == now,
            r.total_up == 0,
            r.total_down == 0,
            r.timeline@ == Seq::<TrafficSample>::empty(),
            r.last == (0u64, 0u64),
            forall|t: Seq<char>| #[trigger] r.record(t) is None,
    {
        Metrics {
            start: now,
            total_up: 0,
            total_down: 0,
            agg: new_places(),
            records: Vec::new(),
            timeline: VecDeque::new(),
            last: (0, 0),
        }
    }

    /// How long the server has been running, in seconds.
    pub fn uptime_secs(&self, now: u64) -> (r: u64)
        ensures
            r == seconds_since(self.start, now),
    {
        if now >= self.start {
            now - self.start
        } else {
            0
        }
    }

    /// Whether `post` differs from these metrics in the totals at most.
    pub open spec fn same_but_totals(&self, post: Metrics) -> bool {
        &&& post.start == self.start
        &&& post.agg == self.agg
        &&& post.records@ == self.records@
        &&& post.timeline@ == self.timeline@
        &&& post.last == self.last
    }

    /// Counts bytes from clients. The count wraps at its width.
    pub fn add_up(&mut self, n: u64)
        ensures
            final(self).total_up == old(self).total_up.wrapping_add(n),
            final(self).total_down == old(self).total_down,
            old(self).same_but_totals(*final(self)),
    {
        self.total_up = self.total_up.wrapping_add(n);
    }

    /// Counts bytes to clients. The count wraps at its width.
    pub fn add_down(&mut self, n: u64)
        ensures
            final(self).total_down == old(self).total_down.wrapping_add(n),
            final(self).total_up == old(self).total_up,
            old(self).same_but_totals(*final(self)),
    {
        self.total_down = self.total_down.wrapping_add(n);
    }

    /// All bytes so far, from and to clients.
    pub fn totals(&self) -> (r: (u64, u64))
        ensures
            r == (self.total_up, self.total_down),
    {
        (self.total_up, self.total_down)
    }

    /// Whether `post` is these metrics with one more session folded into the
    /// record of its token.
    pub open spec fn folds(
        &self,
        token: Seq<char>,
        name: Seq<char>,
        ip: Ipv4Addr,
        mode: SessionMode,
        up: u64,
        down: u64,
        post: Metrics,
    ) -> bool {
        &&& post.wf()
        &&& post.start == self.start
        &&& post.total_up == self.total_up
        &&& post.total_down == self.total_down
        &&& post.timeline@ == self.timeline@
        &&& post.last == self.last
        &&& forall|t: Seq<char>| t != token ==> #[trigger] post.record(t) == self.record(t)
        &&& post.record(token) is Some
        &&& {
            let a = post.record(token)->Some_0;
            &&& a.token@ == token
            &&& a.name@ == name
            &&& a.ip == ip
            &&& a.mode == mode
            &&& a.up == up + match self.record(token) {
                Some(b) => b.up as int,
                None => 0int,
            }
            &&& a.down == down + match self.record(token) {
                Some(b) => b.down as int,
                None => 0int,
            }
        }
    }

    /// Whether a session's bytes still fit into the record of its token.
    pub open spec fn fold_fits(&self, token: Seq<char>, up: u64, down: u64) -> bool {
        match self.record(token) {
            Some(a) => a.up + up <= u64::MAX && a.down + down <= u64::MAX,
            None => true,
        }
    }

    /// Folds an ended session's bytes into the record of its token.
    pub fn fold_session(
        &mut self,
        token: &str,
        name: &str,
        ip: Ipv4Addr,
        mode: SessionMode,
        up: u64,
        down: u64,
    )
        requires
            old(self).wf(),
            old(self).fold_fits(token@, up, down),
        ensures
            old(self).folds(token@, name@, ip, mode, up, down, *final(self)),
    {
        match get_place(&self.agg, token) {
            Some(k) => {
                assert(places(self.agg).dom().contains(token@));
                let total: usize = self.records.len();
                assert(k < total);
                let i: usize = k as usize;
                let a = PeerAgg {
                    token: token.to_owned(),
                    name: name.to_owned(),
                    ip,
                    mode,
                    up: self.records[i].up + up,
                    down: self.records[i].down + down,
                };
                self.records.set(i, a);
                assert(forall|j: int|
                    0 <= j < self.records@.len() ==> (#[trigger] self.records@[j]).token@
                        == old(self).records@[j].token@);
                proof {
                    assert forall|t: Seq<char>| t != token@ implies #[trigger] self.record(t)
                        == old(self).record(t) by {
                        if places(self.agg).dom().contains(t) {
                            assert(places(self.agg)[t] != k);
                        }
                    }
                }
            },
            None => {
                let k: u64 = self.records.len() as u64;
                self.records.push(
                    PeerAgg { token: token.to_owned(), name: name.to_owned(), ip, mode, up, down },
                );
                insert_place(&mut self.agg, token.to_owned(), k);
                assert forall|i: int| 0 <= i < self.records@.len() implies places(
                    self.agg,
                ).dom().contains((#[trigger] self.records@[i]).token@) && places(
                    self.agg,
                )[self.records@[i].token@] == i by {
                    if i < k {
                        assert(self.records@[i] == old(self).records@[i]);
                    }
                }
                assert forall|t: Seq<char>| #[trigger]
                    places(self.agg).dom().contains(t) implies places(self.agg)[t]
                    < self.records@.len() && self.records@[places(self.agg)[t] as int].token@
                    == t by {
                    if t != token@ {
                        assert(places(old(self).agg).dom().contains(t));
                    }
                }
                assert forall|t: Seq<char>| t != token@ implies #[trigger] self.record(t) == old(
                    self,
                ).record(t) by {
                    if places(self.agg).dom().contains(t) {
                        assert(places(old(self).agg).dom().contains(t));
                    }
                }
            },
        }
    }

    /// The sample of the interval that ends now.
    pub open spec fn next_sample(&self, now: u64) -> TrafficSample {
        TrafficSample {
            t: seconds_since(self.start, now),
            up: grown(self.last.0, self.total_up),
            down: grown(self.last.1, self.total_down),
        }
    }

    /// Whether `post` is these metrics after a sample.
    pub open spec fn samples(&self, now: u64, post: Metrics) -> bool {
        &&& post.timeline@ == latest(
            self.timeline@.push(self.next_sample(now)),
            MAX_SAMPLES as int,
        )
        &&& post.last == (self.total_up, self.total_down)
        &&& post.start == self.start
        &&& post.total_up == self.total_up
        &&& post.total_down == self.total_down
        &&& post.agg == self.agg
        &&& post.records@ == self.records@
    }

    /// Appends one throughput sample, and forgets the oldest when there are more
    /// than are kept.
    pub fn sample(&mut self, now: u64)
        requires
            old(self).wf(),
        ensures
            final(self).wf(),
            old(self).samples(now, *final(self)),
    {
        let (cu, cd) = self.totals();
        let up: u64 = cu.saturating_sub(self.last.0);
        let down: u64 = cd.saturating_sub(self.last.1);
        self.last = (cu, cd);
        let t: u64 = self.uptime_secs(now);
        self.timeline.push_back(TrafficSample { t, up, down });
        if self.timeline.len() > MAX_SAMPLES {
            let gone = self.timeline.pop_front();
        }
        assert(self.timeline@ =~= latest(
            old(self).timeline@.push(old(self).next_sample(now)),
            MAX_SAMPLES as int,
        ));
    }

    /// The samples kept, oldest first.
    pub fn timeline(&self) -> (r: Vec<TrafficSample>)
        ensures
            r@ == self.timeline@,
    {
        let n: usize = self.timeline.len();
        let mut out: Vec<TrafficSample> = Vec::new();
        for i in 0..n
            invariant
                n == self.timeline@.len(),
                out@ == self.timeline@.take(i as int),
        {
            out.push(self.timeline[i]);
            assert(out@ =~= self.timeline@.take(i + 1));
        }
        assert(out@ =~= self.timeline@);
        out
    }

    /// Whether the bytes of each peer, both ways, fit into one count.
    pub open spec fn stats_fit(&self, live: Seq<LiveEntry>) -> bool {
        forall|t: Seq<char>| line_bytes(#[trigger] self.line(live, t)) <= u64::MAX
    }

    /// The line of the peer with a token.
    pub open spec fn line(&self, live: Seq<LiveEntry>, token: Seq<char>) -> Option<PeerStatView> {
        line_of(self.record(token), live, token)
    }

    /// Whether a line says what the records and live sessions say of its peer.
    pub open spec fn tells(&self, live: Seq<LiveEntry>, s: PeerStat) -> bool {
        self.line(live, s.token@) == Some(s@)
    }

    /// Whether `r` holds exactly the lines of all peers that have any, the busiest
    /// first.
    pub open spec fn reports(&self, live: Seq<LiveEntry>, r: Seq<PeerStat>) -> bool {
        &&& forall|i: int| 0 <= i < r.len() ==> self.tells(live, #[trigger] r[i])
        &&& distinct_tokens(r)
        &&& forall|t: Seq<char>|
            (#[trigger] self.line(live, t)) is Some ==> has_token(r, t)
        &&& descending(r)
    }

    /// The lines of the peers with ended sessions, without the live ones.
    fn history(&self) -> (r: Vec<PeerStat>)
        requires
            self.wf(),
        ensures
            forall|i: int| 0 <= i < r@.len() ==> self.tells(Seq::empty(), #[trigger] r@[i]),
            distinct_tokens(r@),
            forall|t: Seq<char>|
                (#[trigger] self.line(Seq::empty(), t)) is Some ==> has_token(r@, t),
    {
        let n: usize = self.records.len();
        let mut out: Vec<PeerStat> = Vec::new();
        for i in 0..n
            invariant
                self.wf(),
                n == self.records@.len(),
                out@.len() == i,
                forall|j: int|
                    0 <= j < i ==> (#[trigger] out@[j])@ == history_line(self.records@[j]),
        {
            let a = &self.records[i];
            let line = PeerStat {
                name: a.name.clone(),
                token: a.token.clone(),
                ip: a.ip.to_text(),
                mode: Some(a.mode.to_text()),
                online: false,
                addr: None,
                up: a.up,
                down: a.down,
                connected_secs: 0,
            };
            out.push(line);
        }
        proof {
            assert forall|i: int| 0 <= i < out@.len() implies self.tells(
                Seq::empty(),
                #[trigger] out@[i],
            ) by {
                assert(out@[i]@.token == self.records@[i].token@);
            }
            assert forall|i: int, j: int|
                0 <= i < out@.len() && 0 <= j < out@.len() && i != j implies (
            #[trigger] out@[i]).token@ != (#[trigger] out@[j]).token@ by {
                assert(out@[i]@.token == self.records@[i].token@);
                assert(out@[j]@.token == self.records@[j].token@);
            }
            assert forall|t: Seq<char>|
                (#[trigger] self.line(Seq::empty(), t)) is Some implies has_token(
                out@,
                t,
            ) by {
                let k = places(self.agg)[t] as int;
                assert(places(self.agg).dom().contains(t));
                assert(out@[k]@.token == self.records@[k].token@);
            }
        }
        out
    }

    /// Adds one live session to the lines of `live[..i]`.
    fn add_live(&self, out: &mut Vec<PeerStat>, live: &Vec<LiveEntry>, i: usize)
        requires
            self.wf(),
            i < live@.len(),
            line_bytes(self.line(live@.take(i + 1), live@[i as int].token@)) <= u64::MAX,
            forall|k: int|
                0 <= k < old(out)@.len() ==> self.tells(
                    live@.take(i as int),
                    #[trigger] old(out)@[k],
                ),
            distinct_tokens(old(out)@),
            forall|t: Seq<char>|
                (#[trigger] self.line(live@.take(i as int), t)) is Some ==> has_token(
                    old(out)@,
                    t,
                ),
        ensures
            forall|k: int|
                0 <= k < final(out)@.len() ==> self.tells(
                    live@.take(i + 1),
                    #[trigger] final(out)@[k],
                ),
            distinct_tokens(final(out)@),
            forall|t: Seq<char>|
                (#[trigger] self.line(live@.take(i + 1), t)) is Some ==> has_token(
                    final(out)@,
                    t,
                ),
    {
        let l = &live[i];
        let ghost before = live@.take(i as int);
        let ghost after = live@.take(i + 1);
        assert(after.drop_last() =~= before);
        assert(after.last() == *l);
        let n: usize = out.len();
        let mut at: usize = 0;
        while at < n && !same(out[at].token.as_str(), l.token.as_str())
            invariant
                at <= n,
                n == out@.len(),
                out@ == old(out)@,
                forall|k: int| 0 <= k < at ==> (#[trigger] out@[k]).token@ != l.token@,
            decreases n - at,
        {
            at = at + 1;
        }
        let (up0, down0): (u64, u64) = if at < n {
            assert(self.tells(before, out@[at as int]));
            (out[at].up, out[at].down)
        } else {
            (0, 0)
        };
        let line = PeerStat {
            name: l.name.clone(),
            token: l.token.clone(),
            ip: l.ip.to_text(),
            mode: Some(l.mode.to_text()),
            online: true,
            addr: Some(l.addr.clone()),
            up: l.up + up0,
            down: l.down + down0,
            connected_secs: l.connected_secs,
        };
        if at < n {
            out.set(at, line);
        } else {
            proof {
                if self.line(before, l.token@) is Some {
                    assert(has_token(out@, l.token@));
                    assert(false);
                }
            }
            out.push(line);
        }
        proof {
            assert(out@[at as int] == line);
            assert forall|k: int| 0 <= k < out@.len() implies self.tells(
                after,
                #[trigger] out@[k],
            ) by {
                if k != at {
                    assert(out@[k] == old(out)@[k]);
                    assert(self.tells(before, old(out)@[k]));
                    assert(out@[k].token@ != l.token@);
                }
            }
            assert forall|t: Seq<char>|
                (#[trigger] self.line(after, t)) is Some implies has_token(
                out@,
                t,
            ) by {
                if t == l.token@ {
                    assert(out@[at as int].token@ == t);
                } else {
                    assert(self.line(before, t) is Some);
                    let k = choose|k: int|
                        0 <= k < old(out)@.len() && (#[trigger] old(out)@[k]).token@ == t;
                    assert(out@[k] == old(out)@[k]);
                }
            }
        }
    }

    /// The lines of all peers that have any, the busiest first: the bytes of their
    /// ended sessions and, on top, of their live ones.
    pub fn peer_stats(&self, live: &Vec<LiveEntry>) -> (r: Vec<PeerStat>)
        requires
            self.wf(),
            self.stats_fit(live@),
        ensures
            self.reports(live@, r@),
    {
        let mut out = self.history();
        let n: usize = live.len();
        assert(live@.take(0) =~= Seq::<LiveEntry>::empty());
        let mut i: usize = 0;
        while i < n
            invariant
                self.wf(),
                self.stats_fit(live@),
                i <= n,
                n == live@.len(),
                forall|k: int|
                    0 <= k < out@.len() ==> self.tells(live@.take(i as int), #[trigger] out@[k]),
                distinct_tokens(out@),
                forall|t: Seq<char>|
                    (#[trigger] self.line(live@.take(i as int), t)) is Some
                        ==> has_token(out@, t),
            decreases n - i,
        {
            proof {
                let t = live@[i as int].token@;
                lemma_line_grows(self.record(t), live@, i + 1, t);
                assert(line_bytes(self.line(live@, t)) <= u64::MAX);
            }
            self.add_live(&mut out, live, i);
            i = i + 1;
        }
        assert(live@.take(n as int) =~= live@);
        let ghost unsorted = out@;
        proof {
            assert forall|k: int| 0 <= k < out@.len() implies (#[trigger] out@[k]).up
                + out@[k].down <= u64::MAX by {
                assert(self.tells(live@, out@[k]));
                assert(line_bytes(self.line(live@, out@[k].token@)) <= u64::MAX);
            }
        }
        let r = busiest_first(out);
        proof {
            assert forall|t: Seq<char>|
                (#[trigger] self.line(live@, t)) is Some implies has_token(
                r@,
                t,
            ) by {
                assert(has_token(unsorted, t));
            }
        }
        r
    }
}

/// Where a line with `key` bytes belongs among lines in descending order.
fn place_for(out: &Vec<PeerStat>, key: u64) -> (at: usize)
    requires
        forall|i: int|
            0 <= i < out@.len() ==> (#[trigger] out@[i]).up + out@[i].down <= u64::MAX,
    ensures
        at <= out@.len(),
        forall|i: int| 0 <= i < at ==> (#[trigger] out@[i]).up + out@[i].down >= key,
        at < out@.len() ==> out@[at as int].up + out@[at as int].down < key,
{
    let n: usize = out.len();
    let mut at: usize = 0;
    while at < n
        invariant
            at <= n,
            n == out@.len(),
            forall|i: int|
                0 <= i < out@.len() ==> (#[trigger] out@[i]).up + out@[i].down <= u64::MAX,
            forall|i: int| 0 <= i < at ==> (#[trigger] out@[i]).up + out@[i].down >= key,
        decreases n - at,
    {
        if out[at].up + out[at].down < key {
            return at;
        }
        at = at + 1;
    }
    at
}

proof fn lemma_insert_line(before: Seq<PeerStat>, at: int, v: Seq<PeerStat>, m: int)
    requires
        0 <= at <= before.len(),
        0 <= m < v.len(),
        distinct_tokens(v),
        descending(before),
        distinct_tokens(before),
        forall|i: int|
            0 <= i < at ==> (#[trigger] before[i]).up + before[i].down >= v[m].up + v[m].down,
        at < before.len() ==> before[at].up + before[at].down < v[m].up + v[m].down,
        forall|i: int| 0 <= i < before.len() ==> v.contains(#[trigger] before[i]),
        forall|i: int| m < i < v.len() ==> has_token(before, (#[trigger] v[i]).token@),
        forall|i: int, j: int|
            0 <= i <= m && 0 <= j < before.len() ==> (#[trigger] v[i]).token@ != (
            #[trigger] before[j]).token@,
    ensures
        descending(before.insert(at, v[m])),
        distinct_tokens(before.insert(at, v[m])),
        forall|i: int|
            0 <= i <= before.len() ==> v.contains(#[trigger] before.insert(at, v[m])[i]),
        forall|i: int|
            m <= i < v.len() ==> has_token(before.insert(at, v[m]), (#[trigger] v[i]).token@),
        forall|i: int, j: int|
            0 <= i < m && 0 <= j <= before.len() ==> (#[trigger] v[i]).token@ != (
            #[trigger] before.insert(at, v[m])[j]).token@,
{
    let x = v[m];
    let out = before.insert(at, x);
    let from = |i: int|
        if i < at {
            i
        } else {
            i - 1
        };
    assert forall|i: int| 0 <= i < out.len() && i != at implies #[trigger] out[i] == before[from(
        i,
    )] by {}
    assert(out[at] == x);
    assert forall|i: int| 0 <= i < out.len() implies v.contains(#[trigger] out[i]) by {
        if i != at {
            assert(v.contains(before[from(i)]));
        }
    }
    assert forall|i: int, j: int| 0 <= i < j < out.len() implies (#[trigger] out[i]).up
        + out[i].down >= (#[trigger] out[j]).up + out[j].down by {
        if i != at && j != at {
            assert(before[from(i)].up + before[from(i)].down >= before[from(j)].up
                + before[from(j)].down);
        } else if i == at {
            assert(out[j] == before[j - 1]);
            if j - 1 > at {
                assert(before[at].up + before[at].down >= before[j - 1].up + before[j - 1].down);
            }
        }
    }
    assert forall|i: int, j: int|
        0 <= i < out.len() && 0 <= j < out.len() && i != j implies (#[trigger] out[i]).token@ != (
    #[trigger] out[j]).token@ by {
        if i != at && j != at {
            assert(before[from(i)].token@ != before[from(j)].token@);
        } else if i == at {
            assert(out[j] == before[from(j)]);
        } else {
            assert(out[i] == before[from(i)]);
        }
    }
    assert forall|i: int| m <= i < v.len() implies has_token(out, (#[trigger] v[i]).token@) by {
        if i == m {
            assert(out[at].token@ == v[i].token@);
        } else {
            let k = choose|k: int|
                0 <= k < before.len() && (#[trigger] before[k]).token@ == v[i].token@;
            if k < at {
                assert(out[k] == before[k]);
            } else {
                assert(out[k + 1] == before[k]);
            }
        }
    }
    assert forall|i: int, j: int| 0 <= i < m && 0 <= j < out.len() implies (
    #[trigger] v[i]).token@ != (#[trigger] out[j]).token@ by {
        if j != at {
            assert(out[j] == before[from(j)]);
        }
    }
}

/// The lines in descending order of bytes.
fn busiest_first(v: Vec<PeerStat>) -> (r: Vec<PeerStat>)
    requires
        lines_fit(v@),
        distinct_tokens(v@),
    ensures
        descending(r@),
        distinct_tokens(r@),
        forall|i: int| 0 <= i < r@.len() ==> v@.contains(#[trigger] r@[i]),
        forall|t: Seq<char>| #[trigger] has_token(v@, t) ==> has_token(r@, t),
{
    let mut rest = v;
    let mut out: Vec<PeerStat> = Vec::new();
    while rest.len() > 0
        invariant
            lines_fit(v@),
            distinct_tokens(v@),
            rest@.len() <= v@.len(),
            rest@ == v@.take(rest@.len() as int),
            descending(out@),
            distinct_tokens(out@),
            forall|i: int| 0 <= i < out@.len() ==> v@.contains(#[trigger] out@[i]),
            forall|i: int| rest@.len() <= i < v@.len() ==> has_token(out@, (#[trigger] v@[i]).token@),
            forall|i: int, j: int|
                0 <= i < rest@.len() && 0 <= j < out@.len() ==> (#[trigger] v@[i]).token@ != (
                #[trigger] out@[j]).token@,
        decreases rest@.len(),
    {
        let ghost m = rest@.len() - 1;
        let x = rest.pop().unwrap();
        assert(x == v@[m]);
        let key: u64 = x.up + x.down;
        proof {
            assert forall|i: int| 0 <= i < out@.len() implies (#[trigger] out@[i]).up + out@[i].down
                <= u64::MAX by {
                assert(v@.contains(out@[i]));
                let k = choose|k: int| 0 <= k < v@.len() && v@[k] == out@[i];
                assert(v@[k].up + v@[k].down <= u64::MAX);
            }
        }
        let at: usize = place_for(&out, key);
        let ghost before = out@;
        out.insert(at, x);
        proof {
            lemma_insert_line(before, at as int, v@, m);
        }
    }
    assert forall|t: Seq<char>| #[trigger] has_token(v@, t) implies has_token(out@, t) by {
        let k = choose|k: int| 0 <= k < v@.len() && (#[trigger] v@[k]).token@ == t;
        assert(has_token(out@, v@[k].token@));
    }
    out
}

/// However often samples are taken, at most [`MAX_SAMPLES`] are kept, and they
/// are the latest ones.
pub proof fn law_timeline_keeps_the_latest<T>(s: Seq<T>, x: T, max: int)
    requires
        0 < max,
    ensures
        latest(s, max).len() <= max,
        latest(s.push(x), max).last() == x,
        latest(latest(s, max).push(x), max) == latest(s.push(x), max),
{
    assert(latest(latest(s, max).push(x), max) =~= latest(s.push(x), max));
}

/// The bytes from the client in a line.
pub open spec fn line_up(l: Option<PeerStatView>) -> nat {
    match l {
        Some(s) => s.up,
        None => 0,
    }
}

/// The bytes to the client in a line.
pub open spec fn line_down(l: Option<PeerStatView>) -> nat {
    match l {
        Some(s) => s.down,
        None => 0,
    }
}

proof fn lemma_line_without(
    history: Option<PeerAgg>,
    live: Seq<LiveEntry>,
    k: int,
    token: Seq<char>,
)
    requires
        0 <= k < live.len(),
    ensures
        live[k].token@ == token ==> {
            &&& line_up(line_of(history, live, token)) == line_up(
                line_of(history, live.remove(k), token),
            ) + live[k].up
            &&& line_down(line_of(history, live, token)) == line_down(
                line_of(history, live.remove(k), token),
            ) + live[k].down
        },
        live[k].token@ != token ==> line_of(history, live, token) == line_of(
            history,
            live.remove(k),
            token,
        ),
    decreases live.len(),
{
    let rest = live.remove(k);
    if k == live.len() - 1 {
        assert(rest =~= live.drop_last());
    } else {
        lemma_line_without(history, live.drop_last(), k, token);
        assert(rest.drop_last() =~= live.drop_last().remove(k));
        assert(rest.last() == live.last());
    }
}

proof fn lemma_line_history(
    a: Option<PeerAgg>,
    b: Option<PeerAgg>,
    live: Seq<LiveEntry>,
    token: Seq<char>,
)
    ensures
        line_up(line_of(a, live, token)) - line_up(line_of(a, Seq::empty(), token)) == line_up(
            line_of(b, live, token),
        ) - line_up(line_of(b, Seq::empty(), token)),
        line_down(line_of(a, live, token)) - line_down(line_of(a, Seq::empty(), token))
            == line_down(line_of(b, live, token)) - line_down(line_of(b, Seq::empty(), token)),
    decreases live.len(),
{
    if live.len() > 0 {
        lemma_line_history(a, b, live.drop_last(), token);
    } else {
        assert(live =~= Seq::empty());
    }
}

/// When a session ends, its bytes move from the live sessions to the records: what
/// is reported of every peer stays the same, nothing is lost and nothing is counted
/// twice.
pub proof fn law_ending_keeps_the_bytes(
    pre: Metrics,
    live: Seq<LiveEntry>,
    k: int,
    name: Seq<char>,
    ip: Ipv4Addr,
    mode: SessionMode,
    post: Metrics,
    token: Seq<char>,
)
    requires
        0 <= k < live.len(),
        pre.folds(live[k].token@, name, ip, mode, live[k].up, live[k].down, post),
    ensures
        line_up(post.line(live.remove(k), token)) == line_up(pre.line(live, token)),
        line_down(post.line(live.remove(k), token)) == line_down(pre.line(live, token)),
{
    lemma_line_without(pre.record(token), live, k, token);
    if live[k].token@ == token {
        lemma_line_history(pre.record(token), post.record(token), live.remove(k), token);
    } else {
        assert(post.record(token) == pre.record(token));
    }
}

/// All bytes that a peer's live sessions sent.
pub open spec fn live_up(live: Seq<LiveEntry>, token: Seq<char>) -> nat
    decreases live.len(),
{
    if live.len() == 0 {
        0
    } else {
        live_up(live.drop_last(), token) + if live.last().token@ == token {
            live.last().up as nat
        } else {
            0
        }
    }
}

/// All bytes that a peer's live sessions received.
pub open spec fn live_down(live: Seq<LiveEntry>, token: Seq<char>) -> nat
    decreases live.len(),
{
    if live.len() == 0 {
        0
    } else {
        live_down(live.drop_last(), token) + if live.last().token@ == token {
            live.last().down as nat
        } else {
            0
        }
    }
}

/// A peer's line adds up the bytes of its ended sessions and of all its live ones. It is
/// online just if it has a live one.
pub proof fn law_lines_add_up(history: Option<PeerAgg>, live: Seq<LiveEntry>, token: Seq<char>)
    ensures
        line_up(line_of(history, live, token)) == live_up(live, token) + match history {
            Some(a) => a.up as nat,
            None => 0,
        },
        line_down(line_of(history, live, token)) == live_down(live, token) + match history {
            Some(a) => a.down as nat,
            None => 0,
        },
        (exists|i: int| 0 <= i < live.len() && (#[trigger] live[i]).token@ == token) <==> line_of(
            history,
            live,
            token,
        ) is Some && line_of(history, live, token)->Some_0.online,
        line_of(history, live, token) is None <==> history is None && !(exists|i: int|
            0 <= i < live.len() && (#[trigger] live[i]).token@ == token),
    decreases live.len(),
{
    if live.len() > 0 {
        let rest = live.drop_last();
        law_lines_add_up(history, rest, token);
        if live.last().token@ == token {
            assert(live[live.len() - 1].token@ == token);
        } else {
            if exists|i: int| 0 <= i < live.len() && (#[trigger] live[i]).token@ == token {
                let i = choose|i: int| 0 <= i < live.len() && (#[trigger] live[i]).token@ == token;
                assert(rest[i].token@ == token);
            }
            if exists|i: int| 0 <= i < rest.len() && (#[trigger] rest[i]).token@ == token {
                let i = choose|i: int| 0 <= i < rest.len() && (#[trigger] rest[i]).token@ == token;
                assert(live[i].token@ == token);
            }
        }
    }
}

/// What a line shows: of a peer with a live session, that session; of one without, its
/// ended sessions.
pub proof fn law_lines_show_the_session(
    history: Option<PeerAgg>,
    live: Seq<LiveEntry>,
    l: LiveEntry,
    a: PeerAgg,
)
    ensures
        ({
            let s = line_of(history, live.push(l), l.token@);
            &&& s is Some
            &&& s->Some_0.name == l.name@
            &&& s->Some_0.token == l.token@
            &&& s->Some_0.ip == dotted(l.ip.bits)
            &&& s->Some_0.mode == Some(l.mode.name())
            &&& s->Some_0.online
            &&& s->Some_0.addr == Some(l.addr@)
            &&& s->Some_0.connected_secs == l.connected_secs
        }),
        ({
            let s = line_of(Some(a), Seq::empty(), a.token@);
            &&& s is Some
            &&& s->Some_0.name == a.name@
            &&& s->Some_0.token == a.token@
            &&& s->Some_0.ip == dotted(a.ip.bits)
            &&& s->Some_0.mode == Some(a.mode.name())
            &&& !s->Some_0.online
            &&& s->Some_0.addr is None
            &&& s->Some_0.up == a.up
            &&& s->Some_0.down == a.down
        }),
{
    assert(live.push(l).drop_last() =~= live);
}

/// A sample holds what the totals grew by since the last one, and the time since the start.
/// It is the newest of the timeline, which keeps the 180 newest.
pub proof fn law_samples(pre: Metrics, now: u64, post: Metrics)
    requires
        pre.wf(),
        pre.samples(now, post),
    ensures
        post.timeline@.len() > 0,
        post.timeline@.len() <= 180,
        post.timeline@.len() == if pre.timeline@.len() < 180 {
            pre.timeline@.len() + 1
        } else {
            180
        },
        pre.timeline@.len() < 180 ==> post.timeline@.drop_last() == pre.timeline@,
        pre.timeline@.len() == 180 ==> post.timeline@.drop_last() == pre.timeline@.skip(1),
        pre.total_up >= pre.last.0 ==> post.timeline@.last().up == pre.total_up - pre.last.0,
        pre.total_down >= pre.last.1 ==> post.timeline@.last().down == pre.total_down
            - pre.last.1,
        now >= pre.start ==> post.timeline@.last().t == now - pre.start,
        post.last == (pre.total_up, pre.total_down),
        post.total_up == pre.total_up,
        post.total_down == pre.total_down,
        post.start == pre.start,
        forall|t: Seq<char>| #[trigger] post.record(t) == pre.record(t),
{
    let all = pre.timeline@.push(pre.next_sample(now));
    if pre.timeline@.len() < 180 {
        assert(all.drop_last() =~= pre.timeline@);
    } else {
        assert(all.skip(1).drop_last() =~= pre.timeline@.skip(1));
    }
}

/// The report has one line for every peer that has a live session or ended ones, and no
/// other; each adds up all bytes of the peer; the busiest peers come first.
pub proof fn law_reports(
    m: Metrics,
    live: Seq<LiveEntry>,
    r: Seq<PeerStat>,
    i: int,
    j: int,
    token: Seq<char>,
)
    requires
        m.reports(live, r),
    ensures
        m.record(token) is Some || (exists|k: int|
            0 <= k < live.len() && (#[trigger] live[k]).token@ == token) ==> exists|k: int|
            0 <= k < r.len() && (#[trigger] r[k]).token@ == token,
        0 <= i < r.len() ==> r[i].up == live_up(live, r[i].token@) + match m.record(r[i].token@) {
            Some(a) => a.up as nat,
            None => 0,
        },
        0 <= i < r.len() ==> r[i].down == live_down(live, r[i].token@) + match m.record(
            r[i].token@,
        ) {
            Some(a) => a.down as nat,
            None => 0,
        },
        0 <= i < j < r.len() ==> r[i].token@ != r[j].token@,
        0 <= i < j < r.len() ==> r[i].up + r[i].down >= r[j].up + r[j].down,
{
    law_lines_add_up(m.record(token), live, token);
    if m.line(live, token) is Some {
        assert(has_token(r, token));
    }
    if 0 <= i < r.len() {
        assert(m.tells(live, r[i]));
        law_lines_add_up(m.record(r[i].token@), live, r[i].token@);
    }
}

}
