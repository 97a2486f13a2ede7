//! Network configuration of the client: addresses, routes and name servers, as
//! commands to run and commands that undo them.

use vstd::prelude::*;
use vstd::string::*;

pub mod linux;
pub mod macos;
pub mod rules;
pub mod laws;
pub mod windows;

use crate::addr::{dotted, ipv6_text, Ipv4Addr, Ipv6Addr};
use crate::client::config::{ClientConfig, SplitMode};
use crate::cmd::{cmds, lemma_cmds_push, Cmd, CmdView};
use crate::config::SessionMode;
use crate::error::Error;
use crate::protocol::Welcome;
use crate::text::{decimal, decimal_text};

verus! {

/// A command of a plan, and the command that undoes it.
pub struct NetStep {
    pub cmd: Cmd,
    /// Whether the plan stops with the command's error when it fails. Otherwise a
    /// failure is ignored.
    pub must: bool,
    pub undo: Option<Cmd>,
    /// Whether the command is undone even if it failed.
    pub always: bool,
}

pub struct NetStepView {
    pub cmd: CmdView,
    pub must: bool,
    pub undo: Option<CmdView>,
    pub always: bool,
}

impl View for NetStep {
    type V = NetStepView;

    open spec fn view(&self) -> NetStepView {
        NetStepView {
            cmd: self.cmd@,
            must: self.must,
            undo: match self.undo {
                Some(c) => Some(c@),
                None => None,
            },
            always: self.always,
        }
    }
}

/// The steps of a plan.
pub open spec fn net_steps(v: Seq<NetStep>) -> Seq<NetStepView> {
    v.map_values(|s: NetStep| s@)
}

/// A step that must succeed and is not undone.
pub open spec fn needed(cmd: CmdView) -> NetStepView {
    NetStepView { cmd, must: true, undo: None, always: false }
}

/// A step that may fail and is not undone.
pub open spec fn optional(cmd: CmdView) -> NetStepView {
    NetStepView { cmd, must: false, undo: None, always: false }
}

/// A step that must succeed and is undone.
pub open spec fn needed_undone(cmd: CmdView, undo: CmdView) -> NetStepView {
    NetStepView { cmd, must: true, undo: Some(undo), always: false }
}

/// A step that may fail and is undone if it succeeded.
pub open spec fn optional_undone(cmd: CmdView, undo: CmdView) -> NetStepView {
    NetStepView { cmd, must: false, undo: Some(undo), always: false }
}

/// A step that may fail and is undone in any case.
pub open spec fn optional_always_undone(cmd: CmdView, undo: CmdView) -> NetStepView {
    NetStepView { cmd, must: false, undo: Some(undo), always: true }
}

fn push_step(v: &mut Vec<NetStep>, s: NetStep)
    ensures
        net_steps(final(v)@) == net_steps(old(v)@).push(s@),
{
    v.push(s);
    assert(net_steps(v@) =~= net_steps(old(v)@).push(s@));
}

/// Appends a step that must succeed and is not undone.
pub fn push_needed(v: &mut Vec<NetStep>, cmd: Cmd)
    ensures
        net_steps(final(v)@) == net_steps(old(v)@).push(needed(cmd@)),
{
    push_step(v, NetStep { cmd, must: true, undo: None, always: false });
}

/// Appends a step that may fail and is not undone.
pub fn push_optional(v: &mut Vec<NetStep>, cmd: Cmd)
    ensures
        net_steps(final(v)@) == net_steps(old(v)@).push(optional(cmd@)),
{
    push_step(v, NetStep { cmd, must: false, undo: None, always: false });
}

/// Appends a step that must succeed and is undone.
pub fn push_needed_undone(v: &mut Vec<NetStep>, cmd: Cmd, undo: Cmd)
    ensures
        net_steps(final(v)@) == net_steps(old(v)@).push(needed_undone(cmd@, undo@)),
{
    push_step(v, NetStep { cmd, must: true, undo: Some(undo), always: false });
}

/// Appends a step that may fail and is undone if it succeeded.
pub fn push_optional_undone(v: &mut Vec<NetStep>, cmd: Cmd, undo: Cmd)
    ensures
        net_steps(final(v)@) == net_steps(old(v)@).push(optional_undone(cmd@, undo@)),
{
    push_step(v, NetStep { cmd, must: false, undo: Some(undo), always: false });
}

/// Appends a step that may fail and is undone in any case.
pub fn push_optional_always_undone(v: &mut Vec<NetStep>, cmd: Cmd, undo: Cmd)
    ensures
        net_steps(final(v)@) == net_steps(old(v)@).push(optional_always_undone(cmd@, undo@)),
{
    push_step(v, NetStep { cmd, must: false, undo: Some(undo), always: true });
}

/// Restores the network when the session ends.
pub struct NetGuard {
    /// Run in order.
    pub undo: Vec<Cmd>,
    /// What `/etc/resolv.conf` held, to be written back.
    pub resolv_backup: Option<String>,
}

/// The commands to undo after a step, when `ok` says whether it succeeded.
pub open spec fn undo_after(undo: Seq<CmdView>, s: NetStepView, ok: bool) -> Seq<CmdView> {
    match s.undo {
        Some(u) => if ok || s.always {
            undo.push(u)
        } else {
            undo
        },
        None => undo,
    }
}

/// The commands to undo after some steps.
pub open spec fn undo_after_all(steps: Seq<NetStepView>, oks: Seq<bool>) -> Seq<CmdView>
    decreases steps.len(),
{
    if steps.len() == 0 {
        Seq::empty()
    } else {
        undo_after(
            undo_after_all(steps.drop_last(), oks),
            steps.last(),
            oks[steps.len() - 1],
        )
    }
}

impl NetGuard {
    /// Nothing to restore.
    pub fn new() -> (r: NetGuard)
        ensures
            cmds(r.undo@) == Seq::<CmdView>::empty(),
            r.resolv_backup is None,
    {
        let r = NetGuard { undo: Vec::new(), resolv_backup: None };
        assert(cmds(r.undo@) =~= Seq::<CmdView>::empty());
        r
    }

    /// Takes note how a step ended. Fails with its error if it had to succeed.
    pub fn record(&mut self, s: NetStep, outcome: Result<(), Error>) -> (r: Result<(), Error>)
        ensures
            final(self).resolv_backup == old(self).resolv_backup,
            if outcome is Err && s.must {
                r == outcome && cmds(final(self).undo@) == cmds(old(self).undo@)
            } else {
                r is Ok && cmds(final(self).undo@) == undo_after(
                    cmds(old(self).undo@),
                    s@,
                    outcome is Ok,
                )
            },
    {
        let ok = outcome.is_ok();
        if !ok && s.must {
            return outcome;
        }
        if let Some(u) = s.undo {
            if ok || s.always {
                proof {
                    lemma_cmds_push(self.undo@, u);
                }
                self.undo.push(u);
            }
        }
        Ok(())
    }
}

/// Whatever a plan's outcome, only undo commands of its own steps are run, and
/// each belongs to a step that succeeded or is undone in any case.
pub proof fn law_only_own_steps_are_undone(steps: Seq<NetStepView>, oks: Seq<bool>, j: int)
    requires
        oks.len() >= steps.len(),
        0 <= j < undo_after_all(steps, oks).len(),
    ensures
        exists|i: int|
            0 <= i < steps.len() && (#[trigger] steps[i]).undo == Some(
                undo_after_all(steps, oks)[j],
            ) && (oks[i] || steps[i].always),
    decreases steps.len(),
{
    if steps.len() > 0 {
        let before = undo_after_all(steps.drop_last(), oks);
        if j < before.len() {
            law_only_own_steps_are_undone(steps.drop_last(), oks, j);
            let i = choose|i: int|
                0 <= i < steps.drop_last().len() && (#[trigger] steps.drop_last()[i]).undo == Some(
                    before[j],
                ) && (oks[i] || steps.drop_last()[i].always);
            assert(steps[i] == steps.drop_last()[i]);
        } else {
            assert(steps[steps.len() - 1] == steps.last());
        }
    }
}

/// If every step of a plan succeeds, all that can be undone is undone, in order.
pub proof fn law_success_is_undone(steps: Seq<NetStepView>, oks: Seq<bool>, i: int)
    requires
        oks.len() >= steps.len(),
        forall|k: int| 0 <= k < steps.len() ==> #[trigger] oks[k],
        0 <= i < steps.len(),
        steps[i].undo is Some,
    ensures
        undo_after_all(steps, oks).contains(steps[i].undo->Some_0),
    decreases steps.len(),
{
    let before = undo_after_all(steps.drop_last(), oks);
    let all = undo_after_all(steps, oks);
    if i == steps.len() - 1 {
        assert(oks[i]);
        assert(all[all.len() - 1] == steps[i].undo->Some_0);
    } else {
        law_success_is_undone(steps.drop_last(), oks, i);
        assert(before.contains(steps.drop_last()[i].undo->Some_0));
        let k = choose|k: int| 0 <= k < before.len() && before[k] == steps[i].undo->Some_0;
        assert(all[k] == before[k]);
    }
}

/// One line of a resolver file.
pub open spec fn nameserver(ip: Seq<char>) -> Seq<char> {
    "nameserver "@ + ip + "\n"@
}

/// The resolver lines of some IPv4 servers.
pub open spec fn nameservers4(v: Seq<Ipv4Addr>) -> Seq<char>
    decreases v.len(),
{
    if v.len() == 0 {
        Seq::empty()
    } else {
        nameservers4(v.drop_last()) + nameserver(dotted(v.last().bits))
    }
}

/// The resolver lines of some IPv6 servers.
pub open spec fn nameservers6(v: Seq<Ipv6Addr>) -> Seq<char>
    decreases v.len(),
{
    if v.len() == 0 {
        Seq::empty()
    } else {
        nameservers6(v.drop_last()) + nameserver(ipv6_text(v.last().bits))
    }
}

/// What a resolver file says that names some servers.
pub fn resolv_body(dns: &Vec<Ipv4Addr>, dns6: &Vec<Ipv6Addr>) -> (r: String)
    ensures
        r@ == nameservers4(dns@) + nameservers6(dns6@),
{
    let mut r = String::new();
    let n: usize = dns.len();
    assert(dns@.take(0) =~= Seq::<Ipv4Addr>::empty());
    assert(r@ =~= nameservers4(dns@.take(0)));
    for i in 0..n
        invariant
            n == dns@.len(),
            r@ == nameservers4(dns@.take(i as int)),
    {
        let line = "nameserver ".to_owned().concat(dns[i].to_text().as_str()).concat("\n");
        r = r.concat(line.as_str());
        assert(dns@.take(i + 1).drop_last() =~= dns@.take(i as int));
    }
    assert(dns@.take(n as int) =~= dns@);
    let m: usize = dns6.len();
    assert(dns6@.take(0) =~= Seq::<Ipv6Addr>::empty());
    assert(nameservers4(dns@) + nameservers6(dns6@.take(0)) =~= nameservers4(dns@));
    for i in 0..m
        invariant
            m == dns6@.len(),
            r@ == nameservers4(dns@) + nameservers6(dns6@.take(i as int)),
    {
        let line = "nameserver ".to_owned().concat(dns6[i].to_text().as_str()).concat("\n");
        r = r.concat(line.as_str());
        assert(dns6@.take(i + 1).drop_last() =~= dns6@.take(i as int));
        assert(r@ =~= nameservers4(dns@) + nameservers6(dns6@.take(i + 1)));
    }
    assert(dns6@.take(m as int) =~= dns6@);
    r
}

/// The prefix length of an IPv6 address, at least 1.
pub open spec fn at_least_one(n: u8) -> u8 {
    if n == 0 {
        1
    } else {
        n
    }
}

/// What a session does to the host's network, once the tunnel's interface is up
/// and the rules are installed.
pub struct NetPlan {
    /// To be run in order.
    pub steps: Vec<NetStep>,
    /// What to write to `/etc/resolv.conf`, after keeping a copy of it.
    pub resolv: Option<String>,
}

/// Whether a session takes over the whole traffic of the host, less what rules
/// except.
pub open spec fn captures_all(cfg: ClientConfig) -> bool {
    cfg.mode == SessionMode::GlobalProxy && cfg.split_mode == SplitMode::Blacklist
}

/// What `/etc/resolv.conf` becomes: the server's resolvers, if the session takes
/// over the whole traffic and the server names any.
pub open spec fn resolv_of(cfg: ClientConfig, welcome: Welcome) -> Option<Seq<char>> {
    if captures_all(cfg) && (welcome.dns@.len() > 0 || welcome.dns6@.len() > 0) {
        Some(nameservers4(welcome.dns@) + nameservers6(welcome.dns6@))
    } else {
        None
    }
}

/// What `/etc/resolv.conf` becomes.
pub fn resolv_for(cfg: &ClientConfig, welcome: &Welcome) -> (r: Option<String>)
    ensures
        match resolv_of(*cfg, *welcome) {
            Some(t) => r is Some && r->Some_0@ == t,
            None => r is None,
        },
{
    if cfg.mode == SessionMode::GlobalProxy && cfg.split_mode == SplitMode::Blacklist && (
    welcome.dns.len() > 0 || welcome.dns6.len() > 0) {
        Some(resolv_body(&welcome.dns, &welcome.dns6))
    } else {
        None
    }
}

/// The address and prefix length that the server assigned, as text.
pub open spec fn assigned_cidr(welcome: Welcome) -> Seq<char> {
    dotted(welcome.assigned_ip.bits) + "/"@ + decimal(welcome.prefix_len as nat)
}

/// The address and prefix length that the server assigned, as text.
pub fn cidr_of(welcome: &Welcome) -> (r: String)
    ensures
        r@ == assigned_cidr(*welcome),
{
    welcome.assigned_ip.to_text().concat("/").concat(
        decimal_text(welcome.prefix_len as u64).as_str(),
    )
}

}
