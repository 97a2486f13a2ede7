//! What holds over any run of the server: of the router, of the metrics, and of a
//! session from its first frame to its end.

use vstd::prelude::*;

use super::config::PeerConfig;
use super::metrics::{
    history_line, latest, law_timeline_keeps_the_latest, line_down, line_of, line_up, Metrics,
    PeerAgg, PeerStat, TrafficSample, MAX_SAMPLES,
};
use super::router::{lists_live, seconds_since, Entry, LiveEntry, Router};
use super::session::{Action, AppState, Opening, Session};
use crate::addr::{dotted, Ipv4Addr, Ipv6Addr};
use crate::config::SessionMode;
use crate::protocol::frame::{payload_len, FrameView};

verus! {

/// What happens to a router.
pub enum RouterStep {
    Register(u64, Entry),
    Unregister(u64),
    Count { id: u64, up: u64, down: u64 },
}

/// Whether a step takes a router from `pre` to `post`.
pub open spec fn routed(pre: Router, s: RouterStep, post: Router) -> bool {
    match s {
        RouterStep::Register(id, e) => !pre.sessions@.dom().contains(id) && pre.registers(
            id,
            e,
            post,
        ),
        RouterStep::Unregister(id) => if pre.sessions@.dom().contains(id) {
            pre.unregisters(id, post)
        } else {
            post == pre
        },
        RouterStep::Count { id, up, down } => pre.counts(id, up, down, post),
    }
}

/// Whether a router without sessions goes through `states`, one step after the other.
pub open spec fn router_run(states: Seq<Router>, steps: Seq<RouterStep>) -> bool {
    &&& states.len() == steps.len() + 1
    &&& states[0].wf()
    &&& forall|ip: Ipv4Addr| #[trigger] states[0].owner(ip) is None
    &&& forall|ip: Ipv6Addr| #[trigger] states[0].owner6(ip) is None
    &&& forall|i: int|
        0 <= i < steps.len() ==> routed(states[i], #[trigger] steps[i], states[i + 1])
}

/// Whether a step registers a session at an address.
pub open spec fn registers_at(s: RouterStep, ip: Ipv4Addr) -> bool {
    s is Register && s->Register_1.ip == ip
}

/// Whether a step registers a session at an IPv6 address.
pub open spec fn registers_at6(s: RouterStep, ip: Ipv6Addr) -> bool {
    s is Register && s->Register_1.info.ip6 == Some(ip)
}

/// Whether a step ends a session.
pub open spec fn ends(s: RouterStep, id: u64) -> bool {
    s is Unregister && s->Unregister_0 == id
}

proof fn lemma_routed_wf(pre: Router, s: RouterStep, post: Router)
    requires
        pre.wf(),
        routed(pre, s, post),
    ensures
        post.wf(),
{
    if s is Count {
        assert forall|ip: Ipv4Addr| #[trigger] post.owner(ip) is Some implies post.sessions@.dom().contains(
            post.owner(ip)->Some_0,
        ) && post.sessions@[post.owner(ip)->Some_0].ip == ip by {
            assert(pre.owner(ip) is Some);
        }
        assert forall|ip: Ipv6Addr| #[trigger]
            post.owner6(ip) is Some implies post.sessions@.dom().contains(post.owner6(ip)->Some_0)
            && post.sessions@[post.owner6(ip)->Some_0].info.ip6 == Some(ip) by {
            assert(pre.owner6(ip) is Some);
        }
    }
}

proof fn lemma_run_wf(states: Seq<Router>, steps: Seq<RouterStep>, n: int)
    requires
        router_run(states, steps),
        0 <= n <= steps.len(),
    ensures
        states[n].wf(),
    decreases n,
{
    if n > 0 {
        lemma_run_wf(states, steps, n - 1);
        lemma_routed_wf(states[n - 1], steps[n - 1], states[n]);
    }
}

proof fn lemma_stays_registered(
    states: Seq<Router>,
    steps: Seq<RouterStep>,
    k: int,
    id: u64,
    ip: Ipv4Addr,
    n: int,
)
    requires
        router_run(states, steps),
        0 <= k < n <= steps.len(),
        states[k + 1].owner(ip) == Some(id),
        forall|j: int|
            k < j < steps.len() ==> !registers_at(#[trigger] steps[j], ip) && !ends(steps[j], id),
    ensures
        states[n].owner(ip) == Some(id),
    decreases n,
{
    if n > k + 1 {
        lemma_stays_registered(states, steps, k, id, ip, n - 1);
        lemma_run_wf(states, steps, n - 1);
        assert(routed(states[n - 1], steps[n - 1], states[n]));
        assert(!registers_at(steps[n - 1], ip));
    }
}

proof fn lemma_stays_registered6(
    states: Seq<Router>,
    steps: Seq<RouterStep>,
    k: int,
    id: u64,
    ip: Ipv6Addr,
    n: int,
)
    requires
        router_run(states, steps),
        0 <= k < n <= steps.len(),
        states[k + 1].owner6(ip) == Some(id),
        forall|j: int|
            k < j < steps.len() ==> !registers_at6(#[trigger] steps[j], ip) && !ends(steps[j], id),
    ensures
        states[n].owner6(ip) == Some(id),
    decreases n,
{
    if n > k + 1 {
        lemma_stays_registered6(states, steps, k, id, ip, n - 1);
        lemma_run_wf(states, steps, n - 1);
        assert(routed(states[n - 1], steps[n - 1], states[n]));
        assert(!registers_at6(steps[n - 1], ip));
    }
}

/// Whatever else happens, a packet for an address is handed to the session that was
/// registered there last, as long as that session has not ended.
pub proof fn law_last_registration_gets_the_packets(
    states: Seq<Router>,
    steps: Seq<RouterStep>,
    k: int,
    ip: Ipv4Addr,
)
    requires
        router_run(states, steps),
        0 <= k < steps.len(),
        registers_at(steps[k], ip),
        forall|j: int|
            k < j < steps.len() ==> !registers_at(#[trigger] steps[j], ip) && !ends(
                steps[j],
                steps[k]->Register_0,
            ),
    ensures
        states.last().owner(ip) == Some(steps[k]->Register_0),
{
    assert(routed(states[k], steps[k], states[k + 1]));
    lemma_stays_registered(
        states,
        steps,
        k,
        steps[k]->Register_0,
        ip,
        steps.len() as int,
    );
}

/// The same holds of IPv6 addresses.
pub proof fn law_last_registration_gets_the_packets6(
    states: Seq<Router>,
    steps: Seq<RouterStep>,
    k: int,
    ip: Ipv6Addr,
)
    requires
        router_run(states, steps),
        0 <= k < steps.len(),
        registers_at6(steps[k], ip),
        forall|j: int|
            k < j < steps.len() ==> !registers_at6(#[trigger] steps[j], ip) && !ends(
                steps[j],
                steps[k]->Register_0,
            ),
    ensures
        states.last().owner6(ip) == Some(steps[k]->Register_0),
{
    assert(routed(states[k], steps[k], states[k + 1]));
    lemma_stays_registered6(
        states,
        steps,
        k,
        steps[k]->Register_0,
        ip,
        steps.len() as int,
    );
}

/// A packet for an address is handed to nobody if no session was ever registered there,
/// or if the session that was registered there last has ended.
pub proof fn law_nobody_gets_other_packets(
    states: Seq<Router>,
    steps: Seq<RouterStep>,
    ip: Ipv4Addr,
    ip6: Ipv6Addr,
)
    requires
        router_run(states, steps),
    ensures
        states.last().owner(ip) is Some ==> exists|k: int|
            {
                &&& 0 <= k < steps.len()
                &&& registers_at(#[trigger] steps[k], ip)
                &&& states.last().owner(ip) == Some(steps[k]->Register_0)
                &&& forall|j: int|
                    k < j < steps.len() ==> !registers_at(#[trigger] steps[j], ip) && !ends(
                        steps[j],
                        steps[k]->Register_0,
                    )
            },
        states.last().owner6(ip6) is Some ==> exists|k: int|
            {
                &&& 0 <= k < steps.len()
                &&& registers_at6(#[trigger] steps[k], ip6)
                &&& states.last().owner6(ip6) == Some(steps[k]->Register_0)
                &&& forall|j: int|
                    k < j < steps.len() ==> !registers_at6(#[trigger] steps[j], ip6) && !ends(
                        steps[j],
                        steps[k]->Register_0,
                    )
            },
    decreases steps.len(),
{
    let n = steps.len() as int;
    if n > 0 {
        let before = states.drop_last();
        let first = steps.drop_last();
        assert(router_run(before, first)) by {
            assert(states[0] == before[0]);
            assert forall|i: int| 0 <= i < first.len() implies routed(
                before[i],
                #[trigger] first[i],
                before[i + 1],
            ) by {
                assert(routed(states[i], steps[i], states[i + 1]));
            }
        }
        law_nobody_gets_other_packets(before, first, ip, ip6);
        lemma_run_wf(states, steps, n - 1);
        assert(routed(states[n - 1], steps[n - 1], states[n]));
        assert(before.last() == states[n - 1]);
        if states.last().owner(ip) is Some {
            if registers_at(steps[n - 1], ip) {
                assert(states.last().owner(ip) == Some(steps[n - 1]->Register_0));
            } else {
                let k = choose|k: int|
                    {
                        &&& 0 <= k < first.len()
                        &&& registers_at(#[trigger] first[k], ip)
                        &&& before.last().owner(ip) == Some(first[k]->Register_0)
                        &&& forall|j: int|
                            k < j < first.len() ==> !registers_at(#[trigger] first[j], ip) && !ends(
                                first[j],
                                first[k]->Register_0,
                            )
                    };
                assert(registers_at(steps[k], ip));
                assert forall|j: int| k < j < steps.len() implies !registers_at(
                    #[trigger] steps[j],
                    ip,
                ) && !ends(steps[j], steps[k]->Register_0) by {
                    if j < n - 1 {
                        assert(first[j] == steps[j]);
                    }
                }
            }
        }
        if states.last().owner6(ip6) is Some {
            if registers_at6(steps[n - 1], ip6) {
                assert(states.last().owner6(ip6) == Some(steps[n - 1]->Register_0));
            } else {
                let k = choose|k: int|
                    {
                        &&& 0 <= k < first.len()
                        &&& registers_at6(#[trigger] first[k], ip6)
                        &&& before.last().owner6(ip6) == Some(first[k]->Register_0)
                        &&& forall|j: int|
                            k < j < first.len() ==> !registers_at6(#[trigger] first[j], ip6)
                                && !ends(first[j], first[k]->Register_0)
                    };
                assert(registers_at6(steps[k], ip6));
                assert forall|j: int| k < j < steps.len() implies !registers_at6(
                    #[trigger] steps[j],
                    ip6,
                ) && !ends(steps[j], steps[k]->Register_0) by {
                    if j < n - 1 {
                        assert(first[j] == steps[j]);
                    }
                }
            }
        }
    } else {
        assert(states.last() == states[0]);
    }
}

/// What happens to the metrics.
pub enum MetricsStep {
    AddUp(u64),
    AddDown(u64),
    Sample(u64),
    Fold {
        token: Seq<char>,
        name: Seq<char>,
        ip: Ipv4Addr,
        mode: SessionMode,
        up: u64,
        down: u64,
    },
}

/// Whether a step takes the metrics from `pre` to `post`.
pub open spec fn metered(pre: Metrics, s: MetricsStep, post: Metrics) -> bool {
    match s {
        MetricsStep::AddUp(n) => {
            &&& post.total_up == pre.total_up.wrapping_add(n)
            &&& post.total_down == pre.total_down
            &&& pre.same_but_totals(post)
        },
        MetricsStep::AddDown(n) => {
            &&& post.total_down == pre.total_down.wrapping_add(n)
            &&& post.total_up == pre.total_up
            &&& pre.same_but_totals(post)
        },
        MetricsStep::Sample(now) => pre.samples(now, post),
        MetricsStep::Fold { token, name, ip, mode, up, down } => pre.folds(
            token,
            name,
            ip,
            mode,
            up,
            down,
            post,
        ),
    }
}

/// Whether the metrics of a server that has just started go through `states`, one step
/// after the other.
pub open spec fn metrics_run(states: Seq<Metrics>, steps: Seq<MetricsStep>) -> bool {
    &&& states.len() == steps.len() + 1
    &&& states[0].wf()
    &&& states[0].total_up == 0
    &&& states[0].total_down == 0
    &&& states[0].timeline@.len() == 0
    &&& states[0].last == (0u64, 0u64)
    &&& forall|t: Seq<char>| #[trigger] states[0].record(t) is None
    &&& forall|i: int|
        0 <= i < steps.len() ==> metered(states[i], #[trigger] steps[i], states[i + 1])
}

proof fn lemma_shorter_metrics_run(states: Seq<Metrics>, steps: Seq<MetricsStep>)
    requires
        metrics_run(states, steps),
        steps.len() > 0,
    ensures
        metrics_run(states.drop_last(), steps.drop_last()),
        metered(states.drop_last().last(), steps.last(), states.last()),
{
    let n = steps.len() as int;
    assert(states.drop_last()[0] == states[0]);
    assert forall|i: int| 0 <= i < n - 1 implies metered(
        states.drop_last()[i],
        #[trigger] steps.drop_last()[i],
        states.drop_last()[i + 1],
    ) by {
        assert(metered(states[i], steps[i], states[i + 1]));
    }
    assert(metered(states[n - 1], steps[n - 1], states[n]));
}

/// All bytes from clients that the steps count.
pub open spec fn up_counted(steps: Seq<MetricsStep>) -> nat
    decreases steps.len(),
{
    if steps.len() == 0 {
        0
    } else {
        up_counted(steps.drop_last()) + match steps.last() {
            MetricsStep::AddUp(n) => n as nat,
            _ => 0,
        }
    }
}

/// All bytes to clients that the steps count.
pub open spec fn down_counted(steps: Seq<MetricsStep>) -> nat
    decreases steps.len(),
{
    if steps.len() == 0 {
        0
    } else {
        down_counted(steps.drop_last()) + match steps.last() {
            MetricsStep::AddDown(n) => n as nat,
            _ => 0,
        }
    }
}

/// All samples that are taken in a run, oldest first.
pub open spec fn samples_taken(states: Seq<Metrics>, steps: Seq<MetricsStep>) -> Seq<TrafficSample>
    decreases steps.len(),
{
    if steps.len() == 0 {
        Seq::empty()
    } else {
        let before = samples_taken(states.drop_last(), steps.drop_last());
        match steps.last() {
            MetricsStep::Sample(now) => before.push(states.drop_last().last().next_sample(now)),
            _ => before,
        }
    }
}

/// The bytes from clients in some samples.
pub open spec fn sum_up(s: Seq<TrafficSample>) -> nat
    decreases s.len(),
{
    if s.len() == 0 {
        0
    } else {
        sum_up(s.drop_last()) + s.last().up as nat
    }
}

/// The bytes to clients in some samples.
pub open spec fn sum_down(s: Seq<TrafficSample>) -> nat
    decreases s.len(),
{
    if s.len() == 0 {
        0
    } else {
        sum_down(s.drop_last()) + s.last().down as nat
    }
}

/// Whether no sample is taken after the time `end`, and none before an earlier one.
pub open spec fn clock_runs(steps: Seq<MetricsStep>, end: u64) -> bool {
    &&& forall|i: int|
        0 <= i < steps.len() && (#[trigger] steps[i]) is Sample ==> steps[i]->Sample_0 <= end
    &&& forall|i: int, j: int|
        0 <= i < j < steps.len() && (#[trigger] steps[i]) is Sample && (#[trigger] steps[j])
            is Sample ==> steps[i]->Sample_0 <= steps[j]->Sample_0
}

proof fn lemma_sample_times(states: Seq<Metrics>, steps: Seq<MetricsStep>, end: u64)
    requires
        metrics_run(states, steps),
        clock_runs(steps, end),
    ensures
        states.last().start == states[0].start,
        forall|i: int|
            0 <= i < samples_taken(states, steps).len() ==> (#[trigger] samples_taken(
                states,
                steps,
            )[i]).t <= seconds_since(states[0].start, end),
        forall|i: int, j: int|
            0 <= i < j < samples_taken(states, steps).len() ==> (#[trigger] samples_taken(
                states,
                steps,
            )[i]).t <= (#[trigger] samples_taken(states, steps)[j]).t,
    decreases steps.len(),
{
    if steps.len() > 0 {
        lemma_shorter_metrics_run(states, steps);
        let first = steps.drop_last();
        let before = states.drop_last();
        assert(before[0] == states[0]);
        assert(forall|i: int| 0 <= i < first.len() ==> first[i] == steps[i]);
        if steps.last() is Sample {
            let now = steps.last()->Sample_0;
            assert(clock_runs(first, now)) by {
                assert(steps[steps.len() - 1] is Sample);
            }
            lemma_sample_times(before, first, now);
            assert(steps[steps.len() - 1]->Sample_0 <= end);
            let b = samples_taken(before, first);
            let x = before.last().next_sample(now);
            let all = samples_taken(states, steps);
            assert(all == b.push(x));
            assert forall|i: int| 0 <= i < all.len() implies (#[trigger] all[i]).t
                <= seconds_since(states[0].start, now) by {
                if i < b.len() {
                    assert(all[i] == b[i]);
                }
            }
            assert forall|i: int, j: int| 0 <= i < j < all.len() implies (#[trigger] all[i]).t <= (
            #[trigger] all[j]).t by {
                assert(all[i] == b[i]);
                if j < b.len() {
                    assert(all[j] == b[j]);
                }
            }
        } else {
            lemma_sample_times(before, first, end);
            assert(samples_taken(states, steps) == samples_taken(before, first));
        }
    }
}

proof fn lemma_timeline(states: Seq<Metrics>, steps: Seq<MetricsStep>)
    requires
        metrics_run(states, steps),
    ensures
        states.last().wf(),
        states.last().timeline@ == latest(samples_taken(states, steps), MAX_SAMPLES as int),
    decreases steps.len(),
{
    if steps.len() > 0 {
        lemma_shorter_metrics_run(states, steps);
        lemma_timeline(states.drop_last(), steps.drop_last());
        let before = samples_taken(states.drop_last(), steps.drop_last());
        if steps.last() is Sample {
            let x = states.drop_last().last().next_sample(steps.last()->Sample_0);
            law_timeline_keeps_the_latest(before, x, MAX_SAMPLES as int);
        }
    } else {
        assert(states.last() == states[0]);
        assert(states[0].timeline@ =~= Seq::<TrafficSample>::empty());
    }
}

proof fn lemma_sample_sums(states: Seq<Metrics>, steps: Seq<MetricsStep>)
    requires
        metrics_run(states, steps),
        up_counted(steps) <= u64::MAX,
        down_counted(steps) <= u64::MAX,
    ensures
        states.last().total_up == up_counted(steps),
        states.last().total_down == down_counted(steps),
        sum_up(samples_taken(states, steps)) == states.last().last.0,
        sum_down(samples_taken(states, steps)) == states.last().last.1,
        states.last().last.0 <= states.last().total_up,
        states.last().last.1 <= states.last().total_down,
    decreases steps.len(),
{
    if steps.len() > 0 {
        lemma_shorter_metrics_run(states, steps);
        lemma_sample_sums(states.drop_last(), steps.drop_last());
        let before = samples_taken(states.drop_last(), steps.drop_last());
        if steps.last() is Sample {
            let x = states.drop_last().last().next_sample(steps.last()->Sample_0);
            assert(before.push(x).drop_last() =~= before);
        }
    } else {
        assert(states.last() == states[0]);
    }
}

/// However a server runs, the timeline holds the last of all samples taken, at most
/// [`MAX_SAMPLES`] of them and all of them up to that number, the newest last; and if
/// the clock does not go back, in the order of their times.
pub proof fn law_timeline_over_a_run(states: Seq<Metrics>, steps: Seq<MetricsStep>, end: u64)
    requires
        metrics_run(states, steps),
    ensures
        states.last().timeline@ == latest(samples_taken(states, steps), MAX_SAMPLES as int),
        states.last().timeline@.len() == if samples_taken(states, steps).len() > MAX_SAMPLES {
            MAX_SAMPLES as nat
        } else {
            samples_taken(states, steps).len()
        },
        samples_taken(states, steps).len() > 0 ==> states.last().timeline@.last()
            == samples_taken(states, steps).last(),
        clock_runs(steps, end) ==> forall|i: int, j: int|
            0 <= i < j < states.last().timeline@.len() ==> (#[trigger] states.last().timeline@[i]).t
                <= (#[trigger] states.last().timeline@[j]).t,
{
    let all = samples_taken(states, steps);
    let kept = states.last().timeline@;
    lemma_timeline(states, steps);
    if clock_runs(steps, end) {
        lemma_sample_times(states, steps, end);
        let gone = all.len() - kept.len();
        assert forall|i: int, j: int| 0 <= i < j < kept.len() implies (#[trigger] kept[i]).t <= (
        #[trigger] kept[j]).t by {
            assert(kept[i] == all[gone + i]);
            assert(kept[j] == all[gone + j]);
        }
    }
}

/// As long as no sample was dropped, the samples sum to the totals at the time of the
/// last one; right after a sample these are all bytes counted. (The counts must not have
/// wrapped.)
pub proof fn law_samples_sum_to_the_totals(states: Seq<Metrics>, steps: Seq<MetricsStep>)
    requires
        metrics_run(states, steps),
        up_counted(steps) <= u64::MAX,
        down_counted(steps) <= u64::MAX,
        samples_taken(states, steps).len() <= MAX_SAMPLES,
    ensures
        sum_up(states.last().timeline@) == states.last().last.0,
        sum_down(states.last().timeline@) == states.last().last.1,
        steps.len() > 0 && steps.last() is Sample ==> {
            &&& sum_up(states.last().timeline@) == states.last().total_up == up_counted(steps)
            &&& sum_down(states.last().timeline@) == states.last().total_down == down_counted(
                steps,
            )
        },
{
    lemma_timeline(states, steps);
    lemma_sample_sums(states, steps);
    if steps.len() > 0 {
        lemma_shorter_metrics_run(states, steps);
    }
}

/// The bytes of the items with a token.
pub open spec fn bytes_of(items: Seq<(Seq<char>, nat)>, token: Seq<char>) -> nat
    decreases items.len(),
{
    if items.len() == 0 {
        0
    } else {
        bytes_of(items.drop_last(), token) + if items.last().0 == token {
            items.last().1
        } else {
            0
        }
    }
}

/// The bytes of all items.
pub open spec fn all_bytes(items: Seq<(Seq<char>, nat)>) -> nat
    decreases items.len(),
{
    if items.len() == 0 {
        0
    } else {
        all_bytes(items.drop_last()) + items.last().1
    }
}

/// What was folded of bytes from clients, by token.
pub open spec fn folded_up(steps: Seq<MetricsStep>) -> Seq<(Seq<char>, nat)>
    decreases steps.len(),
{
    if steps.len() == 0 {
        Seq::empty()
    } else {
        match steps.last() {
            MetricsStep::Fold { token, up, .. } => folded_up(steps.drop_last()).push(
                (token, up as nat),
            ),
            _ => folded_up(steps.drop_last()),
        }
    }
}

/// What was folded of bytes to clients, by token.
pub open spec fn folded_down(steps: Seq<MetricsStep>) -> Seq<(Seq<char>, nat)>
    decreases steps.len(),
{
    if steps.len() == 0 {
        Seq::empty()
    } else {
        match steps.last() {
            MetricsStep::Fold { token, down, .. } => folded_down(steps.drop_last()).push(
                (token, down as nat),
            ),
            _ => folded_down(steps.drop_last()),
        }
    }
}

/// The bytes from the clients of live sessions, by token.
pub open spec fn live_up(live: Seq<LiveEntry>) -> Seq<(Seq<char>, nat)> {
    Seq::new(live.len(), |i: int| (live[i].token@, live[i].up as nat))
}

/// The bytes to the clients of live sessions, by token.
pub open spec fn live_down(live: Seq<LiveEntry>) -> Seq<(Seq<char>, nat)> {
    Seq::new(live.len(), |i: int| (live[i].token@, live[i].down as nat))
}

/// The last live session with a token.
pub open spec fn last_live(live: Seq<LiveEntry>, token: Seq<char>) -> Option<LiveEntry>
    decreases live.len(),
{
    if live.len() == 0 {
        None
    } else if live.last().token@ == token {
        Some(live.last())
    } else {
        last_live(live.drop_last(), token)
    }
}

/// The last step that folds a session with a token.
pub open spec fn last_fold(steps: Seq<MetricsStep>, token: Seq<char>) -> Option<MetricsStep>
    decreases steps.len(),
{
    if steps.len() == 0 {
        None
    } else if steps.last() is Fold && steps.last()->token == token {
        Some(steps.last())
    } else {
        last_fold(steps.drop_last(), token)
    }
}

/// The bytes from clients in some rows.
pub open spec fn rows_up(r: Seq<PeerStat>) -> nat
    decreases r.len(),
{
    if r.len() == 0 {
        0
    } else {
        rows_up(r.drop_last()) + r.last().up as nat
    }
}

/// The bytes to clients in some rows.
pub open spec fn rows_down(r: Seq<PeerStat>) -> nat
    decreases r.len(),
{
    if r.len() == 0 {
        0
    } else {
        rows_down(r.drop_last()) + r.last().down as nat
    }
}

/// Whether a record is what the folds of a token come to.
pub open spec fn is_folded(a: Option<PeerAgg>, steps: Seq<MetricsStep>, token: Seq<char>) -> bool {
    match last_fold(steps, token) {
        Some(MetricsStep::Fold { name, ip, mode, .. }) => {
            &&& a is Some
            &&& a->Some_0.token@ == token
            &&& a->Some_0.name@ == name
            &&& a->Some_0.ip == ip
            &&& a->Some_0.mode == mode
            &&& a->Some_0.up == bytes_of(folded_up(steps), token)
            &&& a->Some_0.down == bytes_of(folded_down(steps), token)
        },
        _ => a is None && bytes_of(folded_up(steps), token) == 0 && bytes_of(
            folded_down(steps),
            token,
        ) == 0,
    }
}

proof fn lemma_record_folds(states: Seq<Metrics>, steps: Seq<MetricsStep>, token: Seq<char>)
    requires
        metrics_run(states, steps),
    ensures
        is_folded(states.last().record(token), steps, token),
        last_fold(steps, token) is Some ==> last_fold(steps, token)->Some_0 is Fold,
    decreases steps.len(),
{
    if steps.len() > 0 {
        lemma_shorter_metrics_run(states, steps);
        let pre = states.drop_last().last();
        let post = states.last();
        let first = steps.drop_last();
        lemma_record_folds(states.drop_last(), first, token);
        match steps.last() {
            MetricsStep::Fold { token: t, up, down, .. } => {
                let u = folded_up(first);
                let d = folded_down(first);
                assert(u.push((t, up as nat)).drop_last() =~= u);
                assert(d.push((t, down as nat)).drop_last() =~= d);
                if t != token {
                    assert(post.record(token) == pre.record(token));
                }
            },
            _ => {
                assert(post.record(token) == pre.record(token));
            },
        }
    } else {
        assert(states.last() == states[0]);
    }
}

proof fn lemma_line_sums(history: Option<PeerAgg>, live: Seq<LiveEntry>, token: Seq<char>)
    ensures
        line_up(line_of(history, live, token)) == bytes_of(live_up(live), token) + match history {
            Some(a) => a.up as nat,
            None => 0,
        },
        line_down(line_of(history, live, token)) == bytes_of(live_down(live), token)
            + match history {
            Some(a) => a.down as nat,
            None => 0,
        },
    decreases live.len(),
{
    if live.len() > 0 {
        lemma_line_sums(history, live.drop_last(), token);
        assert(live_up(live).drop_last() =~= live_up(live.drop_last()));
        assert(live_down(live).drop_last() =~= live_down(live.drop_last()));
    }
}

proof fn lemma_line_shows(history: Option<PeerAgg>, live: Seq<LiveEntry>, token: Seq<char>)
    ensures
        match last_live(live, token) {
            Some(l) => {
                let s = line_of(history, live, token);
                &&& l.token@ == token
                &&& s is Some
                &&& s->Some_0.name == l.name@
                &&& s->Some_0.token == token
                &&& s->Some_0.ip == dotted(l.ip.bits)
                &&& s->Some_0.mode == Some(l.mode.name())
                &&& s->Some_0.online
                &&& s->Some_0.addr == Some(l.addr@)
                &&& s->Some_0.connected_secs == l.connected_secs
            },
            None => line_of(history, live, token) == match history {
                Some(a) => Some(history_line(a)),
                None => None,
            },
        },
    decreases live.len(),
{
    if live.len() > 0 {
        lemma_line_shows(history, live.drop_last(), token);
    }
}

/// A peer's row is the sum of all its ended sessions and of its live ones. It shows the
/// last live session; without one, the last ended one; and there is no row without
/// either.
pub proof fn law_row_sums_the_sessions(
    states: Seq<Metrics>,
    steps: Seq<MetricsStep>,
    live: Seq<LiveEntry>,
    token: Seq<char>,
)
    requires
        metrics_run(states, steps),
    ensures
        line_up(states.last().line(live, token)) == bytes_of(folded_up(steps), token) + bytes_of(
            live_up(live),
            token,
        ),
        line_down(states.last().line(live, token)) == bytes_of(folded_down(steps), token)
            + bytes_of(live_down(live), token),
        match last_live(live, token) {
            Some(l) => {
                let s = states.last().line(live, token);
                &&& s is Some
                &&& s->Some_0.name == l.name@
                &&& s->Some_0.token == token
                &&& s->Some_0.ip == dotted(l.ip.bits)
                &&& s->Some_0.mode == Some(l.mode.name())
                &&& s->Some_0.online
                &&& s->Some_0.addr == Some(l.addr@)
                &&& s->Some_0.connected_secs == l.connected_secs
            },
            None => match last_fold(steps, token) {
                Some(MetricsStep::Fold { name, ip, mode, .. }) => {
                    let s = states.last().line(live, token);
                    &&& s is Some
                    &&& s->Some_0.name == name
                    &&& s->Some_0.token == token
                    &&& s->Some_0.ip == dotted(ip.bits)
                    &&& s->Some_0.mode == Some(mode.name())
                    &&& !s->Some_0.online
                    &&& s->Some_0.addr is None
                    &&& s->Some_0.connected_secs == 0
                },
                _ => states.last().line(live, token) is None,
            },
        },
{
    let history = states.last().record(token);
    lemma_record_folds(states, steps, token);
    lemma_line_sums(history, live, token);
    lemma_line_shows(history, live, token);
}

/// The bytes of the items with each of some tokens.
pub open spec fn bytes_by_token(
    items: Seq<(Seq<char>, nat)>,
    tokens: Seq<Seq<char>>,
) -> nat
    decreases tokens.len(),
{
    if tokens.len() == 0 {
        0
    } else {
        bytes_by_token(items, tokens.drop_last()) + bytes_of(items, tokens.last())
    }
}

proof fn lemma_one_item(items: Seq<(Seq<char>, nat)>, tokens: Seq<Seq<char>>)
    requires
        items.len() > 0,
        tokens.no_duplicates(),
    ensures
        bytes_by_token(items, tokens) == bytes_by_token(items.drop_last(), tokens)
            + if tokens.contains(items.last().0) {
            items.last().1
        } else {
            0
        },
    decreases tokens.len(),
{
    if tokens.len() > 0 {
        let t = items.last().0;
        let first = tokens.drop_last();
        lemma_one_item(items, first);
        if tokens.last() == t {
            if first.contains(t) {
                let k = choose|k: int| 0 <= k < first.len() && first[k] == t;
                assert(tokens[k] == tokens[tokens.len() - 1]);
            }
            assert(tokens[tokens.len() - 1] == t);
        } else if tokens.contains(t) {
            let k = choose|k: int| 0 <= k < tokens.len() && tokens[k] == t;
            assert(first[k] == t);
        } else if first.contains(t) {
            let k = choose|k: int| 0 <= k < first.len() && first[k] == t;
            assert(tokens[k] == t);
        }
    }
}

proof fn lemma_all_items(items: Seq<(Seq<char>, nat)>, tokens: Seq<Seq<char>>)
    requires
        tokens.no_duplicates(),
        forall|i: int| 0 <= i < items.len() ==> tokens.contains((#[trigger] items[i]).0),
    ensures
        bytes_by_token(items, tokens) == all_bytes(items),
    decreases items.len(),
{
    if items.len() > 0 {
        assert forall|i: int| 0 <= i < items.drop_last().len() implies tokens.contains(
            (#[trigger] items.drop_last()[i]).0,
        ) by {
            assert(tokens.contains(items[i].0));
        }
        lemma_all_items(items.drop_last(), tokens);
        lemma_one_item(items, tokens);
        assert(tokens.contains(items[items.len() - 1].0));
    } else {
        lemma_no_items(items, tokens);
    }
}

proof fn lemma_no_items(items: Seq<(Seq<char>, nat)>, tokens: Seq<Seq<char>>)
    requires
        items.len() == 0,
    ensures
        bytes_by_token(items, tokens) == 0,
    decreases tokens.len(),
{
    if tokens.len() > 0 {
        lemma_no_items(items, tokens.drop_last());
    }
}

proof fn lemma_folded_tokens(steps: Seq<MetricsStep>)
    ensures
        forall|i: int|
            0 <= i < folded_up(steps).len() ==> last_fold(
                steps,
                (#[trigger] folded_up(steps)[i]).0,
            ) is Some,
        forall|i: int|
            0 <= i < folded_down(steps).len() ==> last_fold(
                steps,
                (#[trigger] folded_down(steps)[i]).0,
            ) is Some,
    decreases steps.len(),
{
    if steps.len() > 0 {
        let first = steps.drop_last();
        lemma_folded_tokens(first);
        assert forall|i: int| 0 <= i < folded_up(steps).len() implies last_fold(
            steps,
            (#[trigger] folded_up(steps)[i]).0,
        ) is Some by {
            if i < folded_up(first).len() {
                assert(folded_up(steps)[i] == folded_up(first)[i]);
            }
        }
        assert forall|i: int| 0 <= i < folded_down(steps).len() implies last_fold(
            steps,
            (#[trigger] folded_down(steps)[i]).0,
        ) is Some by {
            if i < folded_down(first).len() {
                assert(folded_down(steps)[i] == folded_down(first)[i]);
            }
        }
    }
}

proof fn lemma_live_tokens(live: Seq<LiveEntry>, i: int)
    requires
        0 <= i < live.len(),
    ensures
        last_live(live, live[i].token@) is Some,
    decreases live.len(),
{
    if i < live.len() - 1 {
        lemma_live_tokens(live.drop_last(), i);
        assert(live.drop_last()[i] == live[i]);
    }
}

proof fn lemma_rows_by_token(
    r: Seq<PeerStat>,
    up: Seq<(Seq<char>, nat)>,
    up2: Seq<(Seq<char>, nat)>,
    down: Seq<(Seq<char>, nat)>,
    down2: Seq<(Seq<char>, nat)>,
)
    requires
        forall|i: int|
            0 <= i < r.len() ==> {
                &&& (#[trigger] r[i]).up == bytes_of(up, r[i].token@) + bytes_of(up2, r[i].token@)
                &&& r[i].down == bytes_of(down, r[i].token@) + bytes_of(down2, r[i].token@)
            },
    ensures
        rows_up(r) == bytes_by_token(up, row_tokens(r)) + bytes_by_token(up2, row_tokens(r)),
        rows_down(r) == bytes_by_token(down, row_tokens(r)) + bytes_by_token(
            down2,
            row_tokens(r),
        ),
    decreases r.len(),
{
    if r.len() > 0 {
        let first = r.drop_last();
        assert forall|i: int| 0 <= i < first.len() implies {
            &&& (#[trigger] first[i]).up == bytes_of(up, first[i].token@) + bytes_of(
                up2,
                first[i].token@,
            )
            &&& first[i].down == bytes_of(down, first[i].token@) + bytes_of(
                down2,
                first[i].token@,
            )
        } by {
            assert(first[i] == r[i]);
        }
        lemma_rows_by_token(first, up, up2, down, down2);
        assert(row_tokens(r).drop_last() =~= row_tokens(first));
        assert(r[r.len() - 1] == r.last());
    }
}

/// The tokens of some rows.
pub open spec fn row_tokens(r: Seq<PeerStat>) -> Seq<Seq<char>> {
    Seq::new(r.len(), |i: int| r[i].token@)
}

/// All rows together hold all bytes: those of every session that has ended and those of
/// every live one, each once.
pub proof fn law_rows_sum_to_all_bytes(
    states: Seq<Metrics>,
    steps: Seq<MetricsStep>,
    live: Seq<LiveEntry>,
    r: Seq<PeerStat>,
)
    requires
        metrics_run(states, steps),
        states.last().reports(live, r),
    ensures
        rows_up(r) == all_bytes(folded_up(steps)) + all_bytes(live_up(live)),
        rows_down(r) == all_bytes(folded_down(steps)) + all_bytes(live_down(live)),
{
    let m = states.last();
    let tokens = row_tokens(r);
    assert forall|i: int| 0 <= i < r.len() implies {
        &&& (#[trigger] r[i]).up == bytes_of(folded_up(steps), r[i].token@) + bytes_of(
            live_up(live),
            r[i].token@,
        )
        &&& r[i].down == bytes_of(folded_down(steps), r[i].token@) + bytes_of(
            live_down(live),
            r[i].token@,
        )
    } by {
        law_row_sums_the_sessions(states, steps, live, r[i].token@);
        assert(m.tells(live, r[i]));
    }
    lemma_rows_by_token(
        r,
        folded_up(steps),
        live_up(live),
        folded_down(steps),
        live_down(live),
    );
    assert(tokens.no_duplicates());
    assert forall|t: Seq<char>| (#[trigger] m.line(live, t)) is Some implies tokens.contains(t) by {
        let k = choose|k: int| 0 <= k < r.len() && (#[trigger] r[k]).token@ == t;
        assert(tokens[k] == t);
    }
    lemma_folded_tokens(steps);
    assert forall|i: int| 0 <= i < folded_up(steps).len() implies tokens.contains(
        (#[trigger] folded_up(steps)[i]).0,
    ) by {
        let t = folded_up(steps)[i].0;
        law_row_sums_the_sessions(states, steps, live, t);
        lemma_record_folds(states, steps, t);
        assert(m.line(live, t) is Some);
    }
    assert forall|i: int| 0 <= i < folded_down(steps).len() implies tokens.contains(
        (#[trigger] folded_down(steps)[i]).0,
    ) by {
        let t = folded_down(steps)[i].0;
        law_row_sums_the_sessions(states, steps, live, t);
        lemma_record_folds(states, steps, t);
        assert(m.line(live, t) is Some);
    }
    assert forall|i: int| 0 <= i < live.len() implies tokens.contains(
        (#[trigger] live[i]).token@,
    ) by {
        lemma_live_tokens(live, i);
        law_row_sums_the_sessions(states, steps, live, live[i].token@);
        assert(m.line(live, live[i].token@) is Some);
    }
    assert forall|i: int| 0 <= i < live.len() implies tokens.contains(
        (#[trigger] live_up(live)[i]).0,
    ) by {
        assert(tokens.contains(live[i].token@));
    }
    assert forall|i: int| 0 <= i < live.len() implies tokens.contains(
        (#[trigger] live_down(live)[i]).0,
    ) by {
        assert(tokens.contains(live[i].token@));
    }
    lemma_all_items(folded_up(steps), tokens);
    lemma_all_items(folded_down(steps), tokens);
    lemma_all_items(live_up(live), tokens);
    lemma_all_items(live_down(live), tokens);
}

/// What happens to a server.
pub enum ServerStep {
    /// A connection's first frame.
    Open { first: FrameView, addr: Seq<char>, now: u64, session_id: u128, opening: Opening },
    /// A frame of a session's client.
    Received { s: Session, f: FrameView, s2: Session, action: Action },
    /// A frame that was written to a session's client.
    Sent { s: Session, f: FrameView },
    /// The end of a session.
    Close { s: Session },
    /// The end of a session whose welcome could not be sent.
    Abandon { s: Session },
    /// A sample of the throughput.
    Sample { now: u64 },
    /// A change of the configuration.
    Configure,
}

/// Whether a step takes a server from `pre` to `post`.
pub open spec fn happens(pre: AppState, e: ServerStep, post: AppState) -> bool {
    &&& post.wf()
    &&& match e {
        ServerStep::Open { first, addr, now, session_id, opening } => pre.opens(
            first,
            addr,
            now,
            session_id,
            opening,
            post,
        ),
        ServerStep::Received { s, f, s2, action } => pre.reacts(s, f, post, s2, action),
        ServerStep::Sent { s, f } => pre.counts_down(s.id, payload_len(f) as u64, post),
        ServerStep::Close { s } => pre.closes(s, post),
        ServerStep::Abandon { s } => {
            &&& post.next_id == pre.next_id
            &&& post.metrics == pre.metrics
            &&& if pre.router.sessions@.dom().contains(s.id) {
                pre.router.unregisters(s.id, post.router)
            } else {
                post.router == pre.router
            }
        },
        ServerStep::Sample { now } => {
            &&& post.next_id == pre.next_id
            &&& post.router == pre.router
            &&& pre.metrics.samples(now, post.metrics)
        },
        ServerStep::Configure => {
            &&& post.next_id == pre.next_id
            &&& post.router == pre.router
            &&& post.metrics == pre.metrics
        },
    }
}

/// Whether a server goes through `states`, one step after the other.
pub open spec fn server_run(states: Seq<AppState>, steps: Seq<ServerStep>) -> bool {
    &&& states.len() == steps.len() + 1
    &&& states[0].wf()
    &&& forall|i: int|
        0 <= i < steps.len() ==> happens(states[i], #[trigger] steps[i], states[i + 1])
}

/// Whether a step lets a client in.
pub open spec fn lets_in(e: ServerStep) -> bool {
    e is Open && e->opening is Accepted
}

/// Whether a step ends the session with a number.
pub open spec fn ends_session(e: ServerStep, id: u64) -> bool {
    match e {
        ServerStep::Close { s } => s.id == id,
        ServerStep::Abandon { s } => s.id == id,
        _ => false,
    }
}

/// The bytes from a session's client in some steps.
pub open spec fn bytes_received(steps: Seq<ServerStep>, id: u64) -> nat
    decreases steps.len(),
{
    if steps.len() == 0 {
        0
    } else {
        bytes_received(steps.drop_last(), id) + match steps.last() {
            ServerStep::Received { s, f, .. } => if s.id == id {
                payload_len(f)
            } else {
                0
            },
            _ => 0,
        }
    }
}

/// The bytes to a session's client in some steps.
pub open spec fn bytes_sent(steps: Seq<ServerStep>, id: u64) -> nat
    decreases steps.len(),
{
    if steps.len() == 0 {
        0
    } else {
        bytes_sent(steps.drop_last(), id) + match steps.last() {
            ServerStep::Sent { s, f } => if s.id == id {
                payload_len(f)
            } else {
                0
            },
            _ => 0,
        }
    }
}

/// The session that a run begins with.
pub open spec fn begun(steps: Seq<ServerStep>) -> Session {
    steps[0]->opening->Accepted_0
}

/// Whether a run begins by letting a client in and does not end that session.
pub open spec fn keeps_its_session(states: Seq<AppState>, steps: Seq<ServerStep>) -> bool {
    &&& server_run(states, steps)
    &&& steps.len() > 0
    &&& lets_in(steps[0])
    &&& forall|i: int|
        0 < i < steps.len() ==> !ends_session(#[trigger] steps[i], begun(steps).id)
}

proof fn lemma_shorter_session(states: Seq<AppState>, steps: Seq<ServerStep>)
    requires
        keeps_its_session(states, steps),
        steps.len() > 1,
    ensures
        keeps_its_session(states.drop_last(), steps.drop_last()),
        begun(steps.drop_last()) == begun(steps),
        happens(states.drop_last().last(), steps.last(), states.last()),
        !ends_session(steps.last(), begun(steps).id),
{
    let n = steps.len() as int;
    let first = steps.drop_last();
    let before = states.drop_last();
    assert(before[0] == states[0]);
    assert(first[0] == steps[0]);
    assert forall|i: int| 0 <= i < first.len() implies happens(
        before[i],
        #[trigger] first[i],
        before[i + 1],
    ) by {
        assert(happens(states[i], steps[i], states[i + 1]));
    }
    assert forall|i: int| 0 < i < first.len() implies !ends_session(
        #[trigger] first[i],
        begun(steps).id,
    ) by {
        assert(first[i] == steps[i]);
    }
    assert(happens(states[n - 1], steps[n - 1], states[n]));
    assert(!ends_session(steps[n - 1], begun(steps).id));
}

/// Whether the server has a session just as it was let in, but for its bytes.
pub open spec fn still_has(a: AppState, s: Session, up: nat, down: nat) -> bool {
    &&& a.next_id > s.id
    &&& a.router.sessions@.dom().contains(s.id)
    &&& a.router.sessions@[s.id].ip == s.peer.ip
    &&& a.router.sessions@[s.id].token@ == s.peer.token@
    &&& a.router.sessions@[s.id].info.name@ == s.peer.name@
    &&& a.router.sessions@[s.id].info.mode == s.mode
    &&& a.router.sessions@[s.id].counters.up == up
    &&& a.router.sessions@[s.id].counters.down == down
}

proof fn lemma_session_lives(states: Seq<AppState>, steps: Seq<ServerStep>)
    requires
        keeps_its_session(states, steps),
        bytes_received(steps, begun(steps).id) <= u64::MAX,
        bytes_sent(steps, begun(steps).id) <= u64::MAX,
    ensures
        states.last().wf(),
        still_has(
            states.last(),
            begun(steps),
            bytes_received(steps, begun(steps).id),
            bytes_sent(steps, begun(steps).id),
        ),
    decreases steps.len(),
{
    let id = begun(steps).id;
    if steps.len() == 1 {
        assert(happens(states[0], steps[0], states[1]));
        assert(steps.drop_last() =~= Seq::<ServerStep>::empty());
        assert(bytes_received(steps.drop_last(), id) == 0);
        assert(bytes_sent(steps.drop_last(), id) == 0);
    } else {
        lemma_shorter_session(states, steps);
        lemma_session_lives(states.drop_last(), steps.drop_last());
    }
}

/// Over a whole session, whatever the other sessions do meanwhile: its end adds to the
/// record of its peer just the bytes that its client sent and was sent, under the peer's
/// name and address and the session's mode; nothing is delivered to it any more, and
/// ending it again changes nothing. (The counts must not have wrapped.)
pub proof fn law_session_counts_end_in_the_record(
    states: Seq<AppState>,
    steps: Seq<ServerStep>,
    s: Session,
    post: AppState,
)
    requires
        keeps_its_session(states, steps),
        bytes_received(steps, begun(steps).id) <= u64::MAX,
        bytes_sent(steps, begun(steps).id) <= u64::MAX,
        s.id == begun(steps).id,
        s.peer == begun(steps).peer,
        s.mode == begun(steps).mode,
        states.last().closes(s, post),
    ensures
        ({
            let before = states.last().metrics.record(s.peer.token@);
            let a = post.metrics.record(s.peer.token@);
            &&& a is Some
            &&& a->Some_0.name@ == s.peer.name@
            &&& a->Some_0.ip == s.peer.ip
            &&& a->Some_0.mode == s.mode
            &&& a->Some_0.up == bytes_received(steps, s.id) + match before {
                Some(b) => b.up as nat,
                None => 0,
            }
            &&& a->Some_0.down == bytes_sent(steps, s.id) + match before {
                Some(b) => b.down as nat,
                None => 0,
            }
        }),
        forall|t: Seq<char>|
            t != s.peer.token@ ==> #[trigger] post.metrics.record(t)
                == states.last().metrics.record(t),
        !post.router.sessions@.dom().contains(s.id),
        forall|ip: Ipv4Addr| #[trigger] post.router.owner(ip) != Some(s.id),
        forall|ip: Ipv6Addr| #[trigger] post.router.owner6(ip) != Some(s.id),
        forall|again: AppState|
            #[trigger]
            post.closes(s, again) ==> again.router == post.router && again.metrics == post.metrics,
{
    lemma_session_lives(states, steps);
}

/// Whether a step concerns another session of a peer: one that is let in, or one that
/// ends.
pub open spec fn concerns_peer(e: ServerStep, p: PeerConfig) -> bool {
    match e {
        ServerStep::Open { opening: Opening::Accepted(s, _), .. } => s.peer.token@ == p.token@
            || s.peer.ip == p.ip,
        ServerStep::Close { s } => s.peer.token@ == p.token@,
        _ => false,
    }
}

/// Whether the session that a run begins with is the only one of its peer.
pub open spec fn only_session(states: Seq<AppState>, steps: Seq<ServerStep>) -> bool {
    let p = begun(steps).peer;
    &&& forall|id: u64| #[trigger]
        states[0].router.sessions@.dom().contains(id) ==> states[0].router.sessions@[id].token@
            != p.token@
    &&& forall|i: int| 0 < i < steps.len() ==> !concerns_peer(#[trigger] steps[i], p)
}

proof fn lemma_only_session(states: Seq<AppState>, steps: Seq<ServerStep>)
    requires
        keeps_its_session(states, steps),
        only_session(states, steps),
    ensures
        states.last().metrics.record(begun(steps).peer.token@) == states[0].metrics.record(
            begun(steps).peer.token@,
        ),
        states.last().router.owner(begun(steps).peer.ip) == Some(begun(steps).id),
        states.last().next_id > begun(steps).id,
        states.last().router.sessions@.dom().contains(begun(steps).id),
        forall|id: u64| #[trigger]
            states.last().router.sessions@.dom().contains(id) && id != begun(steps).id
                ==> states.last().router.sessions@[id].token@ != begun(steps).peer.token@,
    decreases steps.len(),
{
    let p = begun(steps).peer;
    let me = begun(steps).id;
    if steps.len() == 1 {
        assert(happens(states[0], steps[0], states[1]));
    } else {
        let pre = states.drop_last().last();
        let post = states.last();
        let first = steps.drop_last();
        lemma_shorter_session(states, steps);
        assert(only_session(states.drop_last(), first)) by {
            assert(states.drop_last()[0] == states[0]);
            assert forall|i: int| 0 < i < first.len() implies !concerns_peer(
                #[trigger] first[i],
                p,
            ) by {
                assert(first[i] == steps[i]);
            }
        }
        lemma_only_session(states.drop_last(), first);
        assert(!concerns_peer(steps[steps.len() - 1], p));
        assert(post.metrics.record(p.token@) == pre.metrics.record(p.token@));
        assert forall|id: u64| #[trigger]
            post.router.sessions@.dom().contains(id) && id != me implies post.router.sessions@[id].token@
            != p.token@ by {
            if pre.router.sessions@.dom().contains(id) {
                assert(pre.router.sessions@[id].token@ != p.token@);
            }
        }
    }
}

/// The only session of a peer, from its first frame to its end: the peer's row grows by
/// just the bytes that went both ways, it shows the peer as offline, and the address is
/// free again.
pub proof fn law_session_ends_in_its_row(
    states: Seq<AppState>,
    steps: Seq<ServerStep>,
    s: Session,
    post: AppState,
    live: Seq<LiveEntry>,
    now: u64,
)
    requires
        keeps_its_session(states, steps),
        only_session(states, steps),
        bytes_received(steps, begun(steps).id) <= u64::MAX,
        bytes_sent(steps, begun(steps).id) <= u64::MAX,
        s.id == begun(steps).id,
        s.peer == begun(steps).peer,
        s.mode == begun(steps).mode,
        states.last().closes(s, post),
        lists_live(live, post.router, now),
    ensures
        ({
            let before = states[0].metrics.line(Seq::empty(), s.peer.token@);
            let row = post.metrics.line(live, s.peer.token@);
            &&& row is Some
            &&& row->Some_0.up == line_up(before) + bytes_received(steps, s.id)
            &&& row->Some_0.down == line_down(before) + bytes_sent(steps, s.id)
            &&& row->Some_0.name == s.peer.name@
            &&& row->Some_0.ip == dotted(s.peer.ip.bits)
            &&& row->Some_0.mode == Some(s.mode.name())
            &&& !row->Some_0.online
            &&& row->Some_0.addr is None
        }),
        post.router.owner(s.peer.ip) is None,
{
    law_session_counts_end_in_the_record(states, steps, s, post);
    lemma_only_session(states, steps);
    lemma_session_lives(states, steps);
    let token = s.peer.token@;
    assert forall|i: int| 0 <= i < live.len() implies (#[trigger] live[i]).token@ != token by {
        let o = post.router.owner(live[i].ip)->Some_0;
        assert(post.router.owner(live[i].ip) is Some);
        assert(post.router.sessions@.dom().contains(o));
        assert(states.last().router.sessions@.dom().contains(o));
    }
    lemma_no_live(live, token);
    lemma_line_shows(post.metrics.record(token), live, token);
}

proof fn lemma_no_live(live: Seq<LiveEntry>, token: Seq<char>)
    requires
        forall|i: int| 0 <= i < live.len() ==> (#[trigger] live[i]).token@ != token,
    ensures
        last_live(live, token) is None,
    decreases live.len(),
{
    if live.len() > 0 {
        assert(live[live.len() - 1].token@ != token);
        assert forall|i: int| 0 <= i < live.drop_last().len() implies (
        #[trigger] live.drop_last()[i]).token@ != token by {
            assert(live[i].token@ != token);
        }
        lemma_no_live(live.drop_last(), token);
    }
}

}
