//! What the commands of a session do to the host's network: where traffic goes while it
//! runs, and that every change names what takes it back.

use vstd::arithmetic::power2::pow2;
use vstd::prelude::*;
use vstd::string::*;

use super::rules::{
    claimable, claims, comes_before, index_of, net_and_mask, route_to, rule_step, rule_steps,
    target_kind, RuleContext, RuleRoute, RuleTargetView,
};
use super::{
    linux, macos, nameservers4, nameservers6, resolv_of, undo_after, undo_after_all, windows,
    NetStepView,
};
use crate::addr::{
    dotted, ip_text, ipv4_net_parsed, ipv6_text, undotted, IpAddr, Ipv4Addr, Ipv6Addr,
};
use crate::client::config::{ClientConfig, RouteRule, SplitMode};
use crate::cmd::{joined, CmdView};
use crate::config::SessionMode;
use crate::protocol::Welcome;
use crate::text::{
    decimal, law_decimal, law_without_prefix, law_word_after, lines_of, number, occurs, occurs_at,
    trimmed, without_prefix, word_after, words_of,
};

verus! {

/// A step that may fail, and the command that takes it back if it did not.
pub open spec fn reversible(
    program: Seq<char>,
    args: Seq<Seq<char>>,
    undo: Seq<Seq<char>>,
) -> NetStepView {
    NetStepView {
        cmd: CmdView { program, args },
        must: false,
        undo: Some(CmdView { program, args: undo }),
        always: false,
    }
}

/// A step that may fail, and the command that takes it back in any case.
pub open spec fn undone_anyway(
    program: Seq<char>,
    args: Seq<Seq<char>>,
    undo: Seq<Seq<char>>,
) -> NetStepView {
    NetStepView {
        cmd: CmdView { program, args },
        must: false,
        undo: Some(CmdView { program, args: undo }),
        always: true,
    }
}

/// A step without which the session cannot go on, and the command that takes it back.
pub open spec fn vital_reversible(
    program: Seq<char>,
    args: Seq<Seq<char>>,
    undo: Seq<Seq<char>>,
) -> NetStepView {
    NetStepView {
        cmd: CmdView { program, args },
        must: true,
        undo: Some(CmdView { program, args: undo }),
        always: false,
    }
}

/// A step without which the session cannot go on, with nothing to take back.
pub open spec fn vital(program: Seq<char>, args: Seq<Seq<char>>) -> NetStepView {
    NetStepView { cmd: CmdView { program, args }, must: true, undo: None, always: false }
}

/// A step that may fail, with nothing to take back.
pub open spec fn extra(program: Seq<char>, args: Seq<Seq<char>>) -> NetStepView {
    NetStepView { cmd: CmdView { program, args }, must: false, undo: None, always: false }
}

proof fn lemma_ways_differ()
    ensures
        "tunnel"@ != "direct"@,
{
    reveal_strlit("tunnel");
    reveal_strlit("direct");
    assert("tunnel"@[0] != "direct"@[0]);
}

/// On Linux a rule puts its route just where it says: `tunnel` on the tunnel's interface,
/// without a gateway, whatever the host's own default route is; `direct` on the host's own
/// gateway and interface, and nowhere if it has none; anything else on the interface of
/// that name, through the rule's gateway if it has one. What is added is taken back.
pub proof fn law_linux_rules(
    tun: String,
    orig: Option<(String, String)>,
    rule: RouteRule,
    route: Seq<char>,
)
    ensures
        ({
            let s = rule_step(RuleContext::Linux { tun, orig }, rule, route);
            &&& rule.via@ == "tunnel"@ ==> s == Some(
                reversible(
                    "ip"@,
                    seq!["route"@, "add"@, route, "dev"@, tun@],
                    seq!["route"@, "del"@, route, "dev"@, tun@],
                ),
            )
            &&& rule.via@ == "direct"@ && orig is Some ==> s == Some(
                reversible(
                    "ip"@,
                    seq![
                        "route"@,
                        "add"@,
                        route,
                        "via"@,
                        orig->Some_0.0@,
                        "dev"@,
                        orig->Some_0.1@,
                    ],
                    seq![
                        "route"@,
                        "del"@,
                        route,
                        "via"@,
                        orig->Some_0.0@,
                        "dev"@,
                        orig->Some_0.1@,
                    ],
                ),
            )
            &&& rule.via@ == "direct"@ && orig is None ==> s is None
            &&& rule.via@ != "tunnel"@ && rule.via@ != "direct"@ && rule.gateway is None ==> s
                == Some(
                reversible(
                    "ip"@,
                    seq!["route"@, "add"@, route, "dev"@, rule.via@],
                    seq!["route"@, "del"@, route, "dev"@, rule.via@],
                ),
            )
            &&& rule.via@ != "tunnel"@ && rule.via@ != "direct"@ && rule.gateway is Some ==> s
                == Some(
                reversible(
                    "ip"@,
                    seq![
                        "route"@,
                        "add"@,
                        route,
                        "via"@,
                        dotted(rule.gateway->Some_0.bits),
                        "dev"@,
                        rule.via@,
                    ],
                    seq![
                        "route"@,
                        "del"@,
                        route,
                        "via"@,
                        dotted(rule.gateway->Some_0.bits),
                        "dev"@,
                        rule.via@,
                    ],
                ),
            )
        }),
{
    lemma_ways_differ();
    let s = rule_step(RuleContext::Linux { tun, orig }, rule, route);
    if s is Some {
        let v = s->Some_0;
        if rule.via@ == "tunnel"@ {
            assert(v.cmd.args =~= seq!["route"@, "add"@, route, "dev"@, tun@]);
            assert(v.undo->Some_0.args =~= seq!["route"@, "del"@, route, "dev"@, tun@]);
        } else if rule.via@ == "direct"@ {
            assert(v.cmd.args =~= seq![
                "route"@,
                "add"@,
                route,
                "via"@,
                orig->Some_0.0@,
                "dev"@,
                orig->Some_0.1@,
            ]);
            assert(v.undo->Some_0.args =~= seq![
                "route"@,
                "del"@,
                route,
                "via"@,
                orig->Some_0.0@,
                "dev"@,
                orig->Some_0.1@,
            ]);
        } else if rule.gateway is None {
            assert(v.cmd.args =~= seq!["route"@, "add"@, route, "dev"@, rule.via@]);
            assert(v.undo->Some_0.args =~= seq!["route"@, "del"@, route, "dev"@, rule.via@]);
        } else {
            let gw = dotted(rule.gateway->Some_0.bits);
            assert(v.cmd.args =~= seq!["route"@, "add"@, route, "via"@, gw, "dev"@, rule.via@]);
            assert(v.undo->Some_0.args =~= seq![
                "route"@,
                "del"@,
                route,
                "via"@,
                gw,
                "dev"@,
                rule.via@,
            ]);
        }
    }
}

/// On macOS a rule puts its route just where it says: `tunnel` on the tunnel's other end;
/// `direct` on the host's own gateway, and nowhere if it has none; anything else on the
/// interface of that name, through the rule's gateway if it has one. What is added is
/// taken back.
pub proof fn law_macos_rules(
    peer_gw: String,
    orig_gw: Option<String>,
    rule: RouteRule,
    route: Seq<char>,
)
    ensures
        ({
            let s = rule_step(RuleContext::MacOs { peer_gw, orig_gw }, rule, route);
            &&& rule.via@ == "tunnel"@ ==> s == Some(
                reversible(
                    "route"@,
                    seq!["add"@, "-net"@, route, peer_gw@],
                    seq!["delete"@, "-net"@, route, peer_gw@],
                ),
            )
            &&& rule.via@ == "direct"@ && orig_gw is Some ==> s == Some(
                reversible(
                    "route"@,
                    seq!["add"@, "-net"@, route, orig_gw->Some_0@],
                    seq!["delete"@, "-net"@, route, orig_gw->Some_0@],
                ),
            )
            &&& rule.via@ == "direct"@ && orig_gw is None ==> s is None
            &&& rule.via@ != "tunnel"@ && rule.via@ != "direct"@ && rule.gateway is None ==> s
                == Some(
                reversible(
                    "route"@,
                    seq!["add"@, "-net"@, route, "-interface"@, rule.via@],
                    seq!["delete"@, "-net"@, route, "-interface"@, rule.via@],
                ),
            )
            &&& rule.via@ != "tunnel"@ && rule.via@ != "direct"@ && rule.gateway is Some ==> s
                == Some(
                reversible(
                    "route"@,
                    seq![
                        "add"@,
                        "-net"@,
                        route,
                        dotted(rule.gateway->Some_0.bits),
                        "-ifscope"@,
                        rule.via@,
                    ],
                    seq![
                        "delete"@,
                        "-net"@,
                        route,
                        dotted(rule.gateway->Some_0.bits),
                        "-ifscope"@,
                        rule.via@,
                    ],
                ),
            )
        }),
{
    lemma_ways_differ();
    let s = rule_step(RuleContext::MacOs { peer_gw, orig_gw }, rule, route);
    if s is Some {
        let v = s->Some_0;
        if rule.via@ == "tunnel"@ {
            assert(v.cmd.args =~= seq!["add"@, "-net"@, route, peer_gw@]);
            assert(v.undo->Some_0.args =~= seq!["delete"@, "-net"@, route, peer_gw@]);
        } else if rule.via@ == "direct"@ {
            assert(v.cmd.args =~= seq!["add"@, "-net"@, route, orig_gw->Some_0@]);
            assert(v.undo->Some_0.args =~= seq!["delete"@, "-net"@, route, orig_gw->Some_0@]);
        } else if rule.gateway is None {
            assert(v.cmd.args =~= seq!["add"@, "-net"@, route, "-interface"@, rule.via@]);
            assert(v.undo->Some_0.args =~= seq![
                "delete"@,
                "-net"@,
                route,
                "-interface"@,
                rule.via@,
            ]);
        } else {
            let gw = dotted(rule.gateway->Some_0.bits);
            assert(v.cmd.args =~= seq!["add"@, "-net"@, route, gw, "-ifscope"@, rule.via@]);
            assert(v.undo->Some_0.args =~= seq![
                "delete"@,
                "-net"@,
                route,
                gw,
                "-ifscope"@,
                rule.via@,
            ]);
        }
    }
}

/// On Windows a rule puts its route, an address with a mask, just where it says: `tunnel`
/// on the tunnel's gateway and interface, ahead of others; `direct` on the host's own
/// gateway; anything else on the interface of that name, through the rule's gateway if it
/// has one. It is left out where there is no such gateway or interface. What is added is
/// taken back.
pub proof fn law_windows_rules(
    tun_idx: Option<u32>,
    tun_gw: String,
    orig_gw: Option<String>,
    interfaces: String,
    rule: RouteRule,
    route: Seq<char>,
    dest: Seq<char>,
    mask: Seq<char>,
)
    requires
        net_and_mask(ipv4_net_parsed(route)) == Some((dest, mask)),
    ensures
        ({
            let s = rule_step(
                RuleContext::Windows { tun_idx, tun_gw, orig_gw, interfaces },
                rule,
                route,
            );
            let named = super::rules::index_of(
                crate::text::lines_of(interfaces@),
                rule.via@,
            );
            let undo = seq!["delete"@, dest, "mask"@, mask];
            &&& rule.via@ == "tunnel"@ && tun_idx is Some ==> s == Some(
                reversible(
                    "route"@,
                    seq![
                        "add"@,
                        dest,
                        "mask"@,
                        mask,
                        tun_gw@,
                        "metric"@,
                        "1"@,
                        "if"@,
                        decimal(tun_idx->Some_0 as nat),
                    ],
                    undo,
                ),
            )
            &&& rule.via@ == "tunnel"@ && tun_idx is None ==> s is None
            &&& rule.via@ == "direct"@ && orig_gw is Some ==> s == Some(
                reversible("route"@, seq!["add"@, dest, "mask"@, mask, orig_gw->Some_0@], undo),
            )
            &&& rule.via@ == "direct"@ && orig_gw is None ==> s is None
            &&& rule.via@ != "tunnel"@ && rule.via@ != "direct"@ && named is None ==> s is None
            &&& rule.via@ != "tunnel"@ && rule.via@ != "direct"@ && named is Some ==> s == Some(
                reversible(
                    "route"@,
                    seq![
                        "add"@,
                        dest,
                        "mask"@,
                        mask,
                        if rule.gateway is Some {
                            dotted(rule.gateway->Some_0.bits)
                        } else {
                            "0.0.0.0"@
                        },
                        "if"@,
                        decimal(named->Some_0 as nat),
                    ],
                    undo,
                ),
            )
        }),
{
    lemma_ways_differ();
    let s = rule_step(
        RuleContext::Windows { tun_idx, tun_gw, orig_gw, interfaces },
        rule,
        route,
    );
    let named = super::rules::index_of(crate::text::lines_of(interfaces@), rule.via@);
    if s is Some {
        let v = s->Some_0;
        assert(v.undo->Some_0.args =~= seq!["delete"@, dest, "mask"@, mask]);
        if rule.via@ == "tunnel"@ {
            assert(v.cmd.args =~= seq![
                "add"@,
                dest,
                "mask"@,
                mask,
                tun_gw@,
                "metric"@,
                "1"@,
                "if"@,
                decimal(tun_idx->Some_0 as nat),
            ]);
        } else if rule.via@ == "direct"@ {
            assert(v.cmd.args =~= seq!["add"@, dest, "mask"@, mask, orig_gw->Some_0@]);
        } else {
            let gw = if rule.gateway is Some {
                dotted(rule.gateway->Some_0.bits)
            } else {
                "0.0.0.0"@
            };
            assert(v.cmd.args =~= seq![
                "add"@,
                dest,
                "mask"@,
                mask,
                gw,
                "if"@,
                decimal(named->Some_0 as nat),
            ]);
        }
    }
}

/// The address and mask that stand for a network on Windows: its lowest address, and a
/// mask that leaves as many bits free as the prefix does.
pub proof fn law_net_and_mask(bits: u32, len: u8)
    requires
        len <= 32,
    ensures
        net_and_mask(Some((bits, len))) is Some,
        ({
            let span = pow2((32 - len) as nat);
            &&& net_and_mask(Some((bits, len)))->Some_0.0 == dotted(
                (bits as nat - bits as nat % span) as nat as u32,
            )
            &&& net_and_mask(Some((bits, len)))->Some_0.1 == dotted(
                (0x1_0000_0000 - span) as nat as u32,
            )
        }),
{
}

/// Which rules come to a step: of the pairs of rule and route, those whose route is not
/// the server's own and was not named before. Every such pair has its step, if the
/// platform has one for it, and no other pair has any.
pub proof fn law_every_claimed_route_has_its_step(
    ctx: RuleContext,
    pairs: Seq<RuleRoute>,
    server_route: Seq<char>,
    i: int,
)
    requires
        0 <= i < pairs.len(),
        pairs[i].route@ != server_route,
        forall|j: int| 0 <= j < i ==> (#[trigger] pairs[j]).route@ != pairs[i].route@,
        rule_step(ctx, pairs[i].rule, pairs[i].route@) is Some,
    ensures
        rule_steps(ctx, pairs, server_route).contains(
            rule_step(ctx, pairs[i].rule, pairs[i].route@)->Some_0,
        ),
    decreases pairs.len(),
{
    let s = rule_step(ctx, pairs[i].rule, pairs[i].route@)->Some_0;
    let first = pairs.drop_last();
    let before = rule_steps(ctx, first, server_route);
    let all = rule_steps(ctx, pairs, server_route);
    if i < first.len() {
        assert(first[i] == pairs[i]);
        assert forall|j: int| 0 <= j < i implies (#[trigger] first[j]).route@
            != first[i].route@ by {
            assert(first[j] == pairs[j]);
        }
        law_every_claimed_route_has_its_step(ctx, first, server_route, i);
        let k = choose|k: int| 0 <= k < before.len() && before[k] == s;
        assert(all[k] == s);
    } else {
        assert(claimable(pairs, pairs.len() - 1, server_route));
        assert(all[before.len() as int] == s);
    }
}

/// No step comes of a route that is the server's own or was named before: every step is
/// that of a first pair with another route.
pub proof fn law_no_other_route_has_a_step(
    ctx: RuleContext,
    pairs: Seq<RuleRoute>,
    server_route: Seq<char>,
    k: int,
)
    requires
        0 <= k < rule_steps(ctx, pairs, server_route).len(),
    ensures
        exists|i: int|
            {
                &&& 0 <= i < pairs.len()
                &&& (#[trigger] pairs[i]).route@ != server_route
                &&& forall|j: int| 0 <= j < i ==> (#[trigger] pairs[j]).route@ != pairs[i].route@
                &&& rule_step(ctx, pairs[i].rule, pairs[i].route@) == Some(
                    rule_steps(ctx, pairs, server_route)[k],
                )
            },
    decreases pairs.len(),
{
    let first = pairs.drop_last();
    let before = rule_steps(ctx, first, server_route);
    let all = rule_steps(ctx, pairs, server_route);
    if k < before.len() {
        assert(all[k] == before[k]);
        law_no_other_route_has_a_step(ctx, first, server_route, k);
        let i = choose|i: int|
            {
                &&& 0 <= i < first.len()
                &&& (#[trigger] first[i]).route@ != server_route
                &&& forall|j: int| 0 <= j < i ==> (#[trigger] first[j]).route@ != first[i].route@
                &&& rule_step(ctx, first[i].rule, first[i].route@) == Some(before[k])
            };
        assert(pairs[i] == first[i]);
        assert forall|j: int| 0 <= j < i implies (#[trigger] pairs[j]).route@
            != pairs[i].route@ by {
            assert(first[j] == pairs[j]);
        }
    } else {
        let i = pairs.len() - 1;
        assert(pairs[i] == pairs.last());
        assert(claimable(pairs, i, server_route));
    }
}

/// Which pairs are claimed: every first one whose route is not the server's own.
pub proof fn law_first_rules_claim(pairs: Seq<RuleRoute>, server_route: Seq<char>, i: int)
    requires
        0 <= i < pairs.len(),
        pairs[i].route@ != server_route,
        forall|j: int| 0 <= j < i ==> (#[trigger] pairs[j]).route@ != pairs[i].route@,
    ensures
        claims(pairs, server_route).contains(pairs[i]),
    decreases pairs.len(),
{
    let first = pairs.drop_last();
    let before = claims(first, server_route);
    let all = claims(pairs, server_route);
    if i < first.len() {
        assert(first[i] == pairs[i]);
        assert forall|j: int| 0 <= j < i implies (#[trigger] first[j]).route@
            != first[i].route@ by {
            assert(first[j] == pairs[j]);
        }
        law_first_rules_claim(first, server_route, i);
        let k = choose|k: int| 0 <= k < before.len() && before[k] == pairs[i];
        assert(all[k] == pairs[i]);
    } else {
        assert(claimable(pairs, pairs.len() - 1, server_route));
        assert(all[before.len() as int] == pairs[i]);
    }
}

/// What a rule is about: a network as it is written, a single address as a network of its
/// own, nothing for IPv6, and otherwise a name to look up.
pub proof fn law_rule_targets(
    target: Seq<char>,
    net4: Option<(u32, u8)>,
    ip6: Option<u128>,
    net6: Option<(u128, u8)>,
)
    ensures
        net4 is Some ==> target_kind(target, net4, ip6, net6) == RuleTargetView::Route(
            dotted(net4->Some_0.0) + "/"@ + decimal(net4->Some_0.1 as nat),
        ),
        net4 is None && undotted(target) is Some ==> target_kind(target, net4, ip6, net6)
            == RuleTargetView::Route(dotted(undotted(target)->Some_0) + "/32"@),
        net4 is None && undotted(target) is None && (ip6 is Some || net6 is Some) ==> target_kind(
            target,
            net4,
            ip6,
            net6,
        ) == RuleTargetView::Skipped,
        net4 is None && undotted(target) is None && ip6 is None && net6 is None ==> target_kind(
            target,
            net4,
            ip6,
            net6,
        ) == RuleTargetView::Domain,
{
}

/// An address that a name resolves to is a route of its own if it is an IPv4 address, and
/// none otherwise.
pub proof fn law_route_to(a: Ipv4Addr, b: Ipv6Addr)
    ensures
        route_to(IpAddr::V4(a)) == Some(dotted(a.bits) + "/32"@),
        route_to(IpAddr::V6(b)) is None,
{
}

/// The order of routes is that of a dictionary: the first character in which two texts
/// differ decides, and a text comes before what it begins.
pub proof fn law_comes_before(a: Seq<char>, b: Seq<char>, k: int)
    requires
        0 <= k <= a.len(),
        k <= b.len(),
        a.take(k) == b.take(k),
    ensures
        k == a.len() && k < b.len() ==> comes_before(a, b),
        k == b.len() ==> !comes_before(a, b),
        k < a.len() && k < b.len() && a[k] < b[k] ==> comes_before(a, b),
        k < a.len() && k < b.len() && b[k] < a[k] ==> !comes_before(a, b),
    decreases k,
{
    if k > 0 {
        assert(a[0] == a.take(k)[0]);
        assert(b[0] == b.take(k)[0]);
        assert(a.skip(1).take(k - 1) =~= a.take(k).skip(1));
        assert(b.skip(1).take(k - 1) =~= b.take(k).skip(1));
        law_comes_before(a.skip(1), b.skip(1), k - 1);
        if k < a.len() {
            assert(a.skip(1)[k - 1] == a[k]);
        }
        if k < b.len() {
            assert(b.skip(1)[k - 1] == b[k]);
        }
    }
}

/// On Linux, in global mode without a whitelist, all IPv4 traffic is routed into the
/// tunnel by two halves of the address space, of which each is vital and is taken back;
/// and the server itself stays reachable the way it was, by a route that comes first.
pub proof fn law_linux_captures_ipv4(
    cfg: ClientConfig,
    welcome: Welcome,
    ifname: Seq<char>,
    server_ip: IpAddr,
    orig: Option<(String, String)>,
    orig6: Option<(String, String)>,
)
    requires
        cfg.mode == SessionMode::GlobalProxy,
        cfg.split_mode == SplitMode::Blacklist,
    ensures
        ({
            let p = linux::plan(cfg, welcome, ifname, server_ip, orig, orig6);
            let at: int = if orig is Some {
                1
            } else {
                0
            };
            &&& p.len() >= at + 2
            &&& orig is Some ==> p[0] == undone_anyway(
                "ip"@,
                seq![
                    "route"@,
                    "add"@,
                    ip_text(server_ip) + "/32"@,
                    "via"@,
                    orig->Some_0.0@,
                    "dev"@,
                    orig->Some_0.1@,
                ],
                seq!["route"@, "del"@, ip_text(server_ip) + "/32"@],
            )
            &&& p[at] == vital_reversible(
                "ip"@,
                seq!["route"@, "add"@, "0.0.0.0/1"@, "dev"@, ifname],
                seq!["route"@, "del"@, "0.0.0.0/1"@],
            )
            &&& p[at + 1] == vital_reversible(
                "ip"@,
                seq!["route"@, "add"@, "128.0.0.0/1"@, "dev"@, ifname],
                seq!["route"@, "del"@, "128.0.0.0/1"@],
            )
        }),
{
    let p = linux::plan(cfg, welcome, ifname, server_ip, orig, orig6);
    let at: int = if orig is Some {
        1
    } else {
        0
    };
    let rest = linux::ipv6_plan(
        cfg.ipv6_killswitch,
        welcome.assigned_ip6 is Some,
        ifname,
        server_ip,
        orig6,
    );
    if orig is Some {
        assert(p[0].cmd.args =~= seq![
            "route"@,
            "add"@,
            ip_text(server_ip) + "/32"@,
            "via"@,
            orig->Some_0.0@,
            "dev"@,
            orig->Some_0.1@,
        ]);
        assert(p[0].undo->Some_0.args =~= seq!["route"@, "del"@, ip_text(server_ip) + "/32"@]);
    }
    assert(p[at].cmd.args =~= seq!["route"@, "add"@, "0.0.0.0/1"@, "dev"@, ifname]);
    assert(p[at].undo->Some_0.args =~= seq!["route"@, "del"@, "0.0.0.0/1"@]);
    assert(p[at + 1].cmd.args =~= seq!["route"@, "add"@, "128.0.0.0/1"@, "dev"@, ifname]);
    assert(p[at + 1].undo->Some_0.args =~= seq!["route"@, "del"@, "128.0.0.0/1"@]);
}

/// On Linux, in the same mode, IPv6 does not bypass the tunnel: if the server offers it,
/// both halves of the address space are routed into the tunnel; if it does not and the
/// kill switch is on, both are made unreachable. Without either the host's IPv6 is left
/// alone. All of it is taken back.
pub proof fn law_linux_captures_ipv6(
    cfg: ClientConfig,
    welcome: Welcome,
    ifname: Seq<char>,
    server_ip: IpAddr,
    orig: Option<(String, String)>,
    orig6: Option<(String, String)>,
)
    requires
        cfg.mode == SessionMode::GlobalProxy,
        cfg.split_mode == SplitMode::Blacklist,
    ensures
        ({
            let p = linux::plan(cfg, welcome, ifname, server_ip, orig, orig6);
            let n = p.len() as int;
            let base: int = if orig is Some {
                3
            } else {
                2
            };
            &&& welcome.assigned_ip6 is Some ==> {
                &&& n >= 2
                &&& p[n - 2] == undone_anyway(
                    "ip"@,
                    seq!["-6"@, "route"@, "add"@, "::/1"@, "dev"@, ifname],
                    seq!["-6"@, "route"@, "del"@, "::/1"@],
                )
                &&& p[n - 1] == undone_anyway(
                    "ip"@,
                    seq!["-6"@, "route"@, "add"@, "8000::/1"@, "dev"@, ifname],
                    seq!["-6"@, "route"@, "del"@, "8000::/1"@],
                )
                &&& match (server_ip, orig6) {
                    (IpAddr::V6(s6), Some((gw, dev))) => n == base + 3 && p[base] == undone_anyway(
                        "ip"@,
                        seq![
                            "-6"@,
                            "route"@,
                            "add"@,
                            ipv6_text(s6.bits) + "/128"@,
                            "via"@,
                            gw@,
                            "dev"@,
                            dev@,
                        ],
                        seq!["-6"@, "route"@, "del"@, ipv6_text(s6.bits) + "/128"@],
                    ),
                    _ => n == base + 2,
                }
            }
            &&& welcome.assigned_ip6 is None && cfg.ipv6_killswitch ==> {
                &&& n == base + 2
                &&& p[n - 2] == undone_anyway(
                    "ip"@,
                    seq!["-6"@, "route"@, "add"@, "unreachable"@, "::/1"@],
                    seq!["-6"@, "route"@, "del"@, "::/1"@],
                )
                &&& p[n - 1] == undone_anyway(
                    "ip"@,
                    seq!["-6"@, "route"@, "add"@, "unreachable"@, "8000::/1"@],
                    seq!["-6"@, "route"@, "del"@, "8000::/1"@],
                )
            }
            &&& welcome.assigned_ip6 is None && !cfg.ipv6_killswitch ==> n == base
        }),
{
    let p = linux::plan(cfg, welcome, ifname, server_ip, orig, orig6);
    let n = p.len() as int;
    let base: int = if orig is Some {
        3
    } else {
        2
    };
    let rest = linux::ipv6_plan(
        cfg.ipv6_killswitch,
        welcome.assigned_ip6 is Some,
        ifname,
        server_ip,
        orig6,
    );
    assert(p.len() == base + rest.len());
    assert(forall|i: int| 0 <= i < rest.len() ==> p[base + i] == #[trigger] rest[i]);
    if welcome.assigned_ip6 is Some {
        let k = rest.len() as int;
        assert(p[n - 2] == rest[k - 2]);
        assert(p[n - 1] == rest[k - 1]);
        assert(p[n - 2].cmd.args =~= seq!["-6"@, "route"@, "add"@, "::/1"@, "dev"@, ifname]);
        assert(p[n - 2].undo->Some_0.args =~= seq!["-6"@, "route"@, "del"@, "::/1"@]);
        assert(p[n - 1].cmd.args =~= seq!["-6"@, "route"@, "add"@, "8000::/1"@, "dev"@, ifname]);
        assert(p[n - 1].undo->Some_0.args =~= seq!["-6"@, "route"@, "del"@, "8000::/1"@]);
        match (server_ip, orig6) {
            (IpAddr::V6(s6), Some((gw, dev))) => {
                let host = ipv6_text(s6.bits) + "/128"@;
                assert(p[base] == rest[0]);
                assert(p[base].cmd.args =~= seq![
                    "-6"@,
                    "route"@,
                    "add"@,
                    host,
                    "via"@,
                    gw@,
                    "dev"@,
                    dev@,
                ]);
                assert(p[base].undo->Some_0.args =~= seq!["-6"@, "route"@, "del"@, host]);
            },
            _ => {},
        }
    } else if cfg.ipv6_killswitch {
        assert(p[n - 2] == rest[0]);
        assert(p[n - 1] == rest[1]);
        assert(p[n - 2].cmd.args =~= seq!["-6"@, "route"@, "add"@, "unreachable"@, "::/1"@]);
        assert(p[n - 2].undo->Some_0.args =~= seq!["-6"@, "route"@, "del"@, "::/1"@]);
        assert(p[n - 1].cmd.args =~= seq!["-6"@, "route"@, "add"@, "unreachable"@, "8000::/1"@]);
        assert(p[n - 1].undo->Some_0.args =~= seq!["-6"@, "route"@, "del"@, "8000::/1"@]);
    }
}

/// On Linux, in every other mode nothing is routed but what the interface itself brings;
/// and with a whitelist only the server's own route is added.
pub proof fn law_linux_otherwise_leaves_routes_alone(
    cfg: ClientConfig,
    welcome: Welcome,
    ifname: Seq<char>,
    server_ip: IpAddr,
    orig: Option<(String, String)>,
    orig6: Option<(String, String)>,
)
    ensures
        cfg.mode != SessionMode::GlobalProxy ==> linux::plan(
            cfg,
            welcome,
            ifname,
            server_ip,
            orig,
            orig6,
        ).len() == 0,
        cfg.mode == SessionMode::GlobalProxy && cfg.split_mode == SplitMode::Whitelist ==> {
            let p = linux::plan(cfg, welcome, ifname, server_ip, orig, orig6);
            &&& orig is None ==> p.len() == 0
            &&& orig is Some ==> p.len() == 1 && p[0] == undone_anyway(
                "ip"@,
                seq![
                    "route"@,
                    "add"@,
                    ip_text(server_ip) + "/32"@,
                    "via"@,
                    orig->Some_0.0@,
                    "dev"@,
                    orig->Some_0.1@,
                ],
                seq!["route"@, "del"@, ip_text(server_ip) + "/32"@],
            )
        },
{
    if cfg.mode == SessionMode::GlobalProxy && orig is Some {
        let p = linux::plan(cfg, welcome, ifname, server_ip, orig, orig6);
        assert(p[0].cmd.args =~= seq![
            "route"@,
            "add"@,
            ip_text(server_ip) + "/32"@,
            "via"@,
            orig->Some_0.0@,
            "dev"@,
            orig->Some_0.1@,
        ]);
        assert(p[0].undo->Some_0.args =~= seq!["route"@, "del"@, ip_text(server_ip) + "/32"@]);
    }
}

/// On Linux the tunnel's interface gets the assigned address with the prefix length of the
/// network, the packet size, and is brought up, all of which is vital; and the assigned
/// IPv6 address, if there is one.
pub proof fn law_linux_link(welcome: Welcome, ifname: Seq<char>)
    ensures
        ({
            let p = linux::link_plan(welcome, ifname);
            let cidr = dotted(welcome.assigned_ip.bits) + "/"@ + decimal(
                welcome.prefix_len as nat,
            );
            &&& p.len() == if welcome.assigned_ip6 is Some {
                4int
            } else {
                3int
            }
            &&& p[0] == vital("ip"@, seq!["addr"@, "add"@, cidr, "dev"@, ifname])
            &&& p[1] == vital(
                "ip"@,
                seq!["link"@, "set"@, "dev"@, ifname, "mtu"@, decimal(welcome.mtu as nat)],
            )
            &&& p[2] == vital("ip"@, seq!["link"@, "set"@, "dev"@, ifname, "up"@])
            &&& welcome.assigned_ip6 is Some ==> p[3] == extra(
                "ip"@,
                seq![
                    "-6"@,
                    "addr"@,
                    "add"@,
                    ipv6_text(welcome.assigned_ip6->Some_0.bits) + "/"@ + decimal(
                        if welcome.prefix6 == 0 {
                            1nat
                        } else {
                            welcome.prefix6 as nat
                        },
                    ),
                    "dev"@,
                    ifname,
                ],
            )
        }),
{
    let p = linux::link_plan(welcome, ifname);
    let cidr = dotted(welcome.assigned_ip.bits) + "/"@ + decimal(welcome.prefix_len as nat);
    assert(p[0].cmd.args =~= seq!["addr"@, "add"@, cidr, "dev"@, ifname]);
    assert(p[1].cmd.args =~= seq![
        "link"@,
        "set"@,
        "dev"@,
        ifname,
        "mtu"@,
        decimal(welcome.mtu as nat),
    ]);
    assert(p[2].cmd.args =~= seq!["link"@, "set"@, "dev"@, ifname, "up"@]);
    if welcome.assigned_ip6 is Some {
        assert(p[3].cmd.args =~= seq![
            "-6"@,
            "addr"@,
            "add"@,
            ipv6_text(welcome.assigned_ip6->Some_0.bits) + "/"@ + decimal(
                if welcome.prefix6 == 0 {
                    1nat
                } else {
                    welcome.prefix6 as nat
                },
            ),
            "dev"@,
            ifname,
        ]);
    }
}

/// On Linux the interface of a LAN beside another session gets the assigned address, the
/// packet size, and is brought up, and the address is taken back at the end.
pub proof fn law_linux_lan(welcome: Welcome, ifname: Seq<char>)
    ensures
        ({
            let p = linux::lan_plan(welcome, ifname);
            let cidr = dotted(welcome.assigned_ip.bits) + "/"@ + decimal(
                welcome.prefix_len as nat,
            );
            &&& p.len() == 3
            &&& p[0] == vital("ip"@, seq!["addr"@, "add"@, cidr, "dev"@, ifname])
            &&& p[1] == vital(
                "ip"@,
                seq!["link"@, "set"@, "dev"@, ifname, "mtu"@, decimal(welcome.mtu as nat)],
            )
            &&& p[2] == vital_reversible(
                "ip"@,
                seq!["link"@, "set"@, "dev"@, ifname, "up"@],
                seq!["addr"@, "del"@, cidr, "dev"@, ifname],
            )
        }),
{
    let p = linux::lan_plan(welcome, ifname);
    let cidr = dotted(welcome.assigned_ip.bits) + "/"@ + decimal(welcome.prefix_len as nat);
    assert(p[0].cmd.args =~= seq!["addr"@, "add"@, cidr, "dev"@, ifname]);
    assert(p[1].cmd.args =~= seq![
        "link"@,
        "set"@,
        "dev"@,
        ifname,
        "mtu"@,
        decimal(welcome.mtu as nat),
    ]);
    assert(p[2].cmd.args =~= seq!["link"@, "set"@, "dev"@, ifname, "up"@]);
    assert(p[2].undo->Some_0.args =~= seq!["addr"@, "del"@, cidr, "dev"@, ifname]);
}

/// In global mode without a whitelist, names are looked up through the tunnel: the
/// resolver file lists all resolvers that the server offers, if it offers any, the IPv4
/// ones first. Otherwise the file is left alone.
pub proof fn law_resolvers(cfg: ClientConfig, welcome: Welcome)
    ensures
        cfg.mode == SessionMode::GlobalProxy && cfg.split_mode == SplitMode::Blacklist && (
        welcome.dns@.len() > 0 || welcome.dns6@.len() > 0) ==> resolv_of(cfg, welcome) == Some(
            nameservers4(welcome.dns@) + nameservers6(welcome.dns6@),
        ),
        cfg.mode != SessionMode::GlobalProxy || cfg.split_mode != SplitMode::Blacklist || (
        welcome.dns@.len() == 0 && welcome.dns6@.len() == 0) ==> resolv_of(cfg, welcome) is None,
{
}

/// The resolver file has one line for each resolver, in their order.
pub proof fn law_resolver_lines(v: Seq<Ipv4Addr>, a: Ipv4Addr, v6: Seq<Ipv6Addr>, a6: Ipv6Addr)
    ensures
        nameservers4(Seq::empty()) == Seq::<char>::empty(),
        nameservers6(Seq::empty()) == Seq::<char>::empty(),
        nameservers4(v.push(a)) == nameservers4(v) + ("nameserver "@ + dotted(a.bits) + "\n"@),
        nameservers6(v6.push(a6)) == nameservers6(v6) + ("nameserver "@ + ipv6_text(a6.bits)
            + "\n"@),
{
    assert(v.push(a).drop_last() =~= v);
    assert(v6.push(a6).drop_last() =~= v6);
}

/// What is taken back at the end: the undo command of every step that succeeded, and of
/// every step that is undone in any case, in the order of the steps, and nothing else.
pub proof fn law_undo_follows_the_steps(steps: Seq<NetStepView>, oks: Seq<bool>, s: NetStepView)
    requires
        oks.len() > steps.len(),
    ensures
        undo_after_all(Seq::empty(), oks) == Seq::<CmdView>::empty(),
        s.undo is Some && (oks[steps.len() as int] || s.always) ==> undo_after_all(
            steps.push(s),
            oks,
        ) == undo_after_all(steps, oks).push(s.undo->Some_0),
        s.undo is None || (!oks[steps.len() as int] && !s.always) ==> undo_after_all(
            steps.push(s),
            oks,
        ) == undo_after_all(steps, oks),
{
    assert(steps.push(s).drop_last() =~= steps);
}

/// A single step is recorded by its undo command if it succeeded or is undone in any case,
/// and not otherwise.
pub proof fn law_undo_of_a_step(undo: Seq<CmdView>, s: NetStepView, ok: bool)
    ensures
        s.undo is Some && (ok || s.always) ==> undo_after(undo, s, ok) == undo.push(
            s.undo->Some_0,
        ),
        s.undo is None || (!ok && !s.always) ==> undo_after(undo, s, ok) == undo,
{
}

/// On macOS, in global mode without a whitelist, the server stays reachable the way it
/// was, by a route that comes first; and all IPv4 traffic is routed into the tunnel by two
/// halves of the address space, of which each is vital and is taken back.
pub proof fn law_macos_captures_ipv4(
    cfg: ClientConfig,
    welcome: Welcome,
    ifname: Seq<char>,
    server_ip: IpAddr,
    host: macos::HostNet,
)
    requires
        cfg.mode == SessionMode::GlobalProxy,
        cfg.split_mode == SplitMode::Blacklist,
    ensures
        ({
            let p = macos::plan(cfg, welcome, ifname, server_ip, host);
            let at: int = if host.gw is Some {
                1
            } else {
                0
            };
            &&& p.len() >= at + 2
            &&& host.gw is Some ==> p[0] == undone_anyway(
                "route"@,
                seq!["add"@, "-host"@, ip_text(server_ip), host.gw->Some_0@],
                seq!["delete"@, "-host"@, ip_text(server_ip)],
            )
            &&& p[at] == vital_reversible(
                "route"@,
                seq!["add"@, "-net"@, "0.0.0.0/1"@, "-interface"@, ifname],
                seq!["delete"@, "-net"@, "0.0.0.0/1"@],
            )
            &&& p[at + 1] == vital_reversible(
                "route"@,
                seq!["add"@, "-net"@, "128.0.0.0/1"@, "-interface"@, ifname],
                seq!["delete"@, "-net"@, "128.0.0.0/1"@],
            )
        }),
{
    let p = macos::plan(cfg, welcome, ifname, server_ip, host);
    let at: int = if host.gw is Some {
        1
    } else {
        0
    };
    if host.gw is Some {
        assert(p[0].cmd.args =~= seq!["add"@, "-host"@, ip_text(server_ip), host.gw->Some_0@]);
        assert(p[0].undo->Some_0.args =~= seq!["delete"@, "-host"@, ip_text(server_ip)]);
    }
    assert(p[at].cmd.args =~= seq!["add"@, "-net"@, "0.0.0.0/1"@, "-interface"@, ifname]);
    assert(p[at].undo->Some_0.args =~= seq!["delete"@, "-net"@, "0.0.0.0/1"@]);
    assert(p[at + 1].cmd.args =~= seq!["add"@, "-net"@, "128.0.0.0/1"@, "-interface"@, ifname]);
    assert(p[at + 1].undo->Some_0.args =~= seq!["delete"@, "-net"@, "128.0.0.0/1"@]);
}

/// On macOS, in the same mode: IPv6 goes into the tunnel by two halves if the server offers
/// it; otherwise the kill switch turns IPv6 off for the service behind the default route.
/// The resolvers that the server offers, if any, are set for that service. All of it is
/// taken back.
pub proof fn law_macos_captures_ipv6_and_names(
    cfg: ClientConfig,
    welcome: Welcome,
    ifname: Seq<char>,
    server_ip: IpAddr,
    host: macos::HostNet,
)
    requires
        cfg.mode == SessionMode::GlobalProxy,
        cfg.split_mode == SplitMode::Blacklist,
    ensures
        ({
            let p = macos::plan(cfg, welcome, ifname, server_ip, host);
            let base: int = if host.gw is Some {
                3
            } else {
                2
            };
            let pinned: int = if welcome.assigned_ip6 is Some && server_ip is V6 && host.gw6
                is Some {
                1
            } else {
                0
            };
            let v6: int = if welcome.assigned_ip6 is Some {
                pinned + 2
            } else if cfg.ipv6_killswitch && host.service is Some {
                1
            } else {
                0
            };
            let named = host.service is Some && (welcome.dns@.len() > 0 || welcome.dns6@.len()
                > 0);
            &&& p.len() == base + v6 + if named {
                1int
            } else {
                0int
            }
            &&& pinned == 1 ==> p[base] == undone_anyway(
                "route"@,
                seq![
                    "add"@,
                    "-inet6"@,
                    "-host"@,
                    ipv6_text(server_ip->V6_0.bits),
                    host.gw6->Some_0@,
                ],
                seq!["delete"@, "-inet6"@, "-host"@, ipv6_text(server_ip->V6_0.bits)],
            )
            &&& welcome.assigned_ip6 is Some ==> {
                &&& p[base + pinned] == undone_anyway(
                    "route"@,
                    seq!["add"@, "-inet6"@, "-net"@, "::/1"@, "-interface"@, ifname],
                    seq!["delete"@, "-inet6"@, "-net"@, "::/1"@],
                )
                &&& p[base + pinned + 1] == undone_anyway(
                    "route"@,
                    seq!["add"@, "-inet6"@, "-net"@, "8000::/1"@, "-interface"@, ifname],
                    seq!["delete"@, "-inet6"@, "-net"@, "8000::/1"@],
                )
            }
            &&& welcome.assigned_ip6 is None && cfg.ipv6_killswitch && host.service is Some ==> {
                &&& p[base].cmd == (CmdView {
                    program: "networksetup"@,
                    args: seq!["-setv6off"@, host.service->Some_0@],
                })
                &&& p[base].always
                &&& p[base].undo is Some
            }
            &&& named ==> {
                let d = p[base + v6];
                &&& d.cmd.program == "networksetup"@
                &&& d.cmd.args == seq!["-setdnsservers"@, host.service->Some_0@]
                    + welcome.dns@.map_values(|a: Ipv4Addr| dotted(a.bits))
                    + welcome.dns6@.map_values(|a: Ipv6Addr| ipv6_text(a.bits))
                &&& d.always
                &&& d.undo is Some
                &&& d.undo->Some_0.program == "networksetup"@
                &&& d.undo->Some_0.args == seq!["-setdnsservers"@, host.service->Some_0@]
                    + macos::former_dns(host.dns@)
            }
        }),
{
    let p = macos::plan(cfg, welcome, ifname, server_ip, host);
    let base: int = if host.gw is Some {
        3
    } else {
        2
    };
    let v6 = macos::ipv6_plan(
        cfg.ipv6_killswitch,
        welcome.assigned_ip6 is Some,
        ifname,
        server_ip,
        host,
    );
    let pinned: int = if welcome.assigned_ip6 is Some && server_ip is V6 && host.gw6 is Some {
        1
    } else {
        0
    };
    assert(forall|i: int| 0 <= i < v6.len() ==> p[base + i] == #[trigger] v6[i]);
    if pinned == 1 {
        assert(p[base] == v6[0]);
        assert(p[base].cmd.args =~= seq![
            "add"@,
            "-inet6"@,
            "-host"@,
            ipv6_text(server_ip->V6_0.bits),
            host.gw6->Some_0@,
        ]);
        assert(p[base].undo->Some_0.args =~= seq![
            "delete"@,
            "-inet6"@,
            "-host"@,
            ipv6_text(server_ip->V6_0.bits),
        ]);
    }
    if welcome.assigned_ip6 is Some {
        let a = v6[pinned];
        let b = v6[pinned + 1];
        assert(p[base + pinned] == a);
        assert(p[base + (pinned + 1)] == b);
        assert(a.cmd.args =~= seq!["add"@, "-inet6"@, "-net"@, "::/1"@, "-interface"@, ifname]);
        assert(a.undo->Some_0.args =~= seq!["delete"@, "-inet6"@, "-net"@, "::/1"@]);
        assert(b.cmd.args =~= seq!["add"@, "-inet6"@, "-net"@, "8000::/1"@, "-interface"@, ifname]);
        assert(b.undo->Some_0.args =~= seq!["delete"@, "-inet6"@, "-net"@, "8000::/1"@]);
    } else if cfg.ipv6_killswitch && host.service is Some {
        assert(p[base] == v6[0]);
        assert(p[base].cmd.args =~= seq!["-setv6off"@, host.service->Some_0@]);
    }
    if host.service is Some && (welcome.dns@.len() > 0 || welcome.dns6@.len() > 0) {
        let d = p[base + v6.len()];
        assert(d.cmd.args =~= seq!["-setdnsservers"@, host.service->Some_0@]
            + welcome.dns@.map_values(|a: Ipv4Addr| dotted(a.bits)) + welcome.dns6@.map_values(
            |a: Ipv6Addr| ipv6_text(a.bits),
        ));
        assert(d.undo->Some_0.args =~= seq!["-setdnsservers"@, host.service->Some_0@]
            + macos::former_dns(host.dns@));
    }
}

/// On macOS in VPN mode just the virtual subnet is routed into the tunnel, in the proxy
/// modes nothing is, and with a whitelist only the server's own route is added.
pub proof fn law_macos_other_modes(
    cfg: ClientConfig,
    welcome: Welcome,
    ifname: Seq<char>,
    server_ip: IpAddr,
    host: macos::HostNet,
)
    ensures
        cfg.mode == SessionMode::HttpProxy || cfg.mode == SessionMode::SystemProxy ==> macos::plan(
            cfg,
            welcome,
            ifname,
            server_ip,
            host,
        ).len() == 0,
        cfg.mode == SessionMode::Vpn ==> {
            let p = macos::plan(cfg, welcome, ifname, server_ip, host);
            &&& p.len() == 1
            &&& p[0] == undone_anyway(
                "route"@,
                seq!["add"@, "-net"@, macos::subnet_of(welcome), "-interface"@, ifname],
                seq!["delete"@, "-net"@, macos::subnet_of(welcome)],
            )
        },
        cfg.mode == SessionMode::GlobalProxy && cfg.split_mode == SplitMode::Whitelist ==> {
            let p = macos::plan(cfg, welcome, ifname, server_ip, host);
            &&& host.gw is None ==> p.len() == 0
            &&& host.gw is Some ==> p.len() == 1 && p[0] == undone_anyway(
                "route"@,
                seq!["add"@, "-host"@, ip_text(server_ip), host.gw->Some_0@],
                seq!["delete"@, "-host"@, ip_text(server_ip)],
            )
        },
{
    let p = macos::plan(cfg, welcome, ifname, server_ip, host);
    if cfg.mode == SessionMode::Vpn {
        let net = macos::subnet_of(welcome);
        assert(p[0].cmd.args =~= seq!["add"@, "-net"@, net, "-interface"@, ifname]);
        assert(p[0].undo->Some_0.args =~= seq!["delete"@, "-net"@, net]);
    }
    if cfg.mode == SessionMode::GlobalProxy && host.gw is Some {
        assert(p[0].cmd.args =~= seq!["add"@, "-host"@, ip_text(server_ip), host.gw->Some_0@]);
        assert(p[0].undo->Some_0.args =~= seq!["delete"@, "-host"@, ip_text(server_ip)]);
    }
}

/// The virtual subnet of a client is its address with the bits beyond the prefix cleared.
pub proof fn law_macos_subnet(welcome: Welcome)
    requires
        welcome.prefix_len <= 32,
    ensures
        macos::subnet_of(welcome) == dotted(
            (welcome.assigned_ip.bits as nat - welcome.assigned_ip.bits as nat % pow2(
                (32 - welcome.prefix_len) as nat,
            )) as nat as u32,
        ) + "/"@ + decimal(welcome.prefix_len as nat),
{
}

/// On macOS the tunnel's interface gets the assigned address and the gateway as its other
/// end, which is vital, and the packet size; and the assigned IPv6 address, if there is
/// one. The interface of a LAN beside another session gets the first two, and the virtual
/// subnet is routed into it.
pub proof fn law_macos_link(welcome: Welcome, ifname: Seq<char>)
    ensures
        ({
            let p = macos::link_plan(welcome, ifname);
            let q = macos::lan_plan(welcome, ifname);
            let up = vital(
                "ifconfig"@,
                seq![
                    ifname,
                    "inet"@,
                    dotted(welcome.assigned_ip.bits),
                    dotted(welcome.gateway.bits),
                    "up"@,
                ],
            );
            let size = extra("ifconfig"@, seq![ifname, "mtu"@, decimal(welcome.mtu as nat)]);
            &&& p.len() == if welcome.assigned_ip6 is Some {
                3int
            } else {
                2int
            }
            &&& p[0] == up
            &&& p[1] == size
            &&& welcome.assigned_ip6 is Some ==> p[2] == extra(
                "ifconfig"@,
                seq![
                    ifname,
                    "inet6"@,
                    ipv6_text(welcome.assigned_ip6->Some_0.bits),
                    "prefixlen"@,
                    decimal(
                        if welcome.prefix6 == 0 {
                            1nat
                        } else {
                            welcome.prefix6 as nat
                        },
                    ),
                ],
            )
            &&& q.len() == 3
            &&& q[0] == up
            &&& q[1] == size
            &&& q[2] == undone_anyway(
                "route"@,
                seq!["add"@, "-net"@, macos::subnet_of(welcome), "-interface"@, ifname],
                seq!["delete"@, "-net"@, macos::subnet_of(welcome)],
            )
        }),
{
    let p = macos::link_plan(welcome, ifname);
    let q = macos::lan_plan(welcome, ifname);
    let up = seq![
        ifname,
        "inet"@,
        dotted(welcome.assigned_ip.bits),
        dotted(welcome.gateway.bits),
        "up"@,
    ];
    let size = seq![ifname, "mtu"@, decimal(welcome.mtu as nat)];
    assert(p[0].cmd.args =~= up);
    assert(q[0].cmd.args =~= up);
    assert(p[1].cmd.args =~= size);
    assert(q[1].cmd.args =~= size);
    if welcome.assigned_ip6 is Some {
        assert(p[2].cmd.args =~= seq![
            ifname,
            "inet6"@,
            ipv6_text(welcome.assigned_ip6->Some_0.bits),
            "prefixlen"@,
            decimal(
                if welcome.prefix6 == 0 {
                    1nat
                } else {
                    welcome.prefix6 as nat
                },
            ),
        ]);
    }
    let net = macos::subnet_of(welcome);
    assert(q[2].cmd.args =~= seq!["add"@, "-net"@, net, "-interface"@, ifname]);
    assert(q[2].undo->Some_0.args =~= seq!["delete"@, "-net"@, net]);
}

/// On macOS IPv6 is put back as it was found: turned off again if it was off, with its
/// address, prefix length and router if these were set by hand, and automatic otherwise.
pub proof fn law_macos_ipv6_is_put_back(service: Seq<char>, info: Seq<char>)
    ensures
        ({
            let ls = crate::text::lines_of(info);
            let kind = crate::client::sysproxy::field_of(ls, "IPv6:"@);
            let address = crate::client::sysproxy::field_of(ls, "IPv6 IP address:"@);
            let len = crate::client::sysproxy::field_of(ls, "IPv6 Prefix Length:"@);
            let router = crate::client::sysproxy::field_of(ls, "IPv6 Router:"@);
            let c = macos::v6_restore(service, info);
            &&& c.program == "networksetup"@
            &&& kind == Some("Off"@) ==> c.args == seq!["-setv6off"@, service]
            &&& kind == Some("Manual"@) && address is Some && len is Some && router is Some
                ==> c.args == seq![
                "-setv6manual"@,
                service,
                address->Some_0,
                len->Some_0,
                router->Some_0,
            ]
            &&& kind != Some("Off"@) && (kind != Some("Manual"@) || address is None || len is None
                || router is None) ==> c.args == seq!["-setv6automatic"@, service]
        }),
{
    reveal_strlit("Off");
    reveal_strlit("Manual");
    assert("Off"@.len() != "Manual"@.len());
    let ls = crate::text::lines_of(info);
    let kind = crate::client::sysproxy::field_of(ls, "IPv6:"@);
    let address = crate::client::sysproxy::field_of(ls, "IPv6 IP address:"@);
    let len = crate::client::sysproxy::field_of(ls, "IPv6 Prefix Length:"@);
    let router = crate::client::sysproxy::field_of(ls, "IPv6 Router:"@);
    let c = macos::v6_restore(service, info);
    if kind == Some("Off"@) {
        assert(c.args =~= seq!["-setv6off"@, service]);
    } else if kind == Some("Manual"@) && address is Some && len is Some && router is Some {
        assert(c.args =~= seq![
            "-setv6manual"@,
            service,
            address->Some_0,
            len->Some_0,
            router->Some_0,
        ]);
    } else {
        assert(c.args =~= seq!["-setv6automatic"@, service]);
    }
}

/// On macOS the resolvers are put back as they were found: every line that is an address,
/// in their order, or the word for none if there is no such line.
pub proof fn law_macos_resolvers_are_put_back(said: Seq<char>, lines: Seq<Seq<char>>, l: Seq<char>)
    ensures
        macos::addresses_in(Seq::empty()) == Seq::<Seq<char>>::empty(),
        crate::addr::ip_parsed(crate::text::trimmed(l)) is Some ==> macos::addresses_in(
            lines.push(l),
        ) == macos::addresses_in(lines).push(crate::text::trimmed(l)),
        crate::addr::ip_parsed(crate::text::trimmed(l)) is None ==> macos::addresses_in(
            lines.push(l),
        ) == macos::addresses_in(lines),
        macos::addresses_in(crate::text::lines_of(said)).len() > 0 ==> macos::former_dns(said)
            == macos::addresses_in(crate::text::lines_of(said)),
        macos::addresses_in(crate::text::lines_of(said)).len() == 0 ==> macos::former_dns(said)
            == seq!["empty"@],
{
    assert(lines.push(l).drop_last() =~= lines);
}

/// On Windows, in global mode without a whitelist, the server stays reachable the way it
/// was, by a route that comes first; and all IPv4 traffic is routed to the gateway of the
/// tunnel by two halves of the address space. All of it is taken back.
pub proof fn law_windows_captures_ipv4(
    cfg: ClientConfig,
    welcome: Welcome,
    ifname: Seq<char>,
    server_ip: IpAddr,
    idx: u32,
    orig_gw: Option<String>,
)
    requires
        cfg.mode == SessionMode::GlobalProxy,
        cfg.split_mode == SplitMode::Blacklist,
    ensures
        ({
            let p = windows::plan(cfg, welcome, ifname, server_ip, Some(idx), orig_gw);
            let at: int = if orig_gw is Some {
                1
            } else {
                0
            };
            let gw = dotted(welcome.gateway.bits);
            &&& p.len() >= at + 2
            &&& orig_gw is Some ==> p[0] == reversible(
                "route"@,
                seq!["add"@, ip_text(server_ip), "mask"@, "255.255.255.255"@, orig_gw->Some_0@],
                seq!["delete"@, ip_text(server_ip)],
            )
            &&& p[at] == reversible(
                "route"@,
                seq![
                    "add"@,
                    "0.0.0.0"@,
                    "mask"@,
                    "128.0.0.0"@,
                    gw,
                    "metric"@,
                    "1"@,
                    "if"@,
                    decimal(idx as nat),
                ],
                seq!["delete"@, "0.0.0.0"@, "mask"@, "128.0.0.0"@, gw],
            )
            &&& p[at + 1] == reversible(
                "route"@,
                seq![
                    "add"@,
                    "128.0.0.0"@,
                    "mask"@,
                    "128.0.0.0"@,
                    gw,
                    "metric"@,
                    "1"@,
                    "if"@,
                    decimal(idx as nat),
                ],
                seq!["delete"@, "128.0.0.0"@, "mask"@, "128.0.0.0"@, gw],
            )
        }),
{
    let p = windows::plan(cfg, welcome, ifname, server_ip, Some(idx), orig_gw);
    let at: int = if orig_gw is Some {
        1
    } else {
        0
    };
    let gw = dotted(welcome.gateway.bits);
    if orig_gw is Some {
        assert(p[0] == windows::pin(server_ip, orig_gw->Some_0@));
        assert(p[0].cmd.args =~= seq![
            "add"@,
            ip_text(server_ip),
            "mask"@,
            "255.255.255.255"@,
            orig_gw->Some_0@,
        ]);
        assert(p[0].undo->Some_0.args =~= seq!["delete"@, ip_text(server_ip)]);
    }
    assert(p[at] == windows::half4("0.0.0.0"@, gw, idx));
    assert(p[at + 1] == windows::half4("128.0.0.0"@, gw, idx));
    lemma_windows_half4("0.0.0.0"@, gw, idx);
    lemma_windows_half4("128.0.0.0"@, gw, idx);
}

proof fn lemma_windows_half4(net: Seq<char>, gw: Seq<char>, idx: u32)
    ensures
        windows::half4(net, gw, idx) == reversible(
            "route"@,
            seq![
                "add"@,
                net,
                "mask"@,
                "128.0.0.0"@,
                gw,
                "metric"@,
                "1"@,
                "if"@,
                decimal(idx as nat),
            ],
            seq!["delete"@, net, "mask"@, "128.0.0.0"@, gw],
        ),
{
    let v = windows::half4(net, gw, idx);
    assert(v.cmd.args =~= seq![
        "add"@,
        net,
        "mask"@,
        "128.0.0.0"@,
        gw,
        "metric"@,
        "1"@,
        "if"@,
        decimal(idx as nat),
    ]);
    assert(v.undo->Some_0.args =~= seq!["delete"@, net, "mask"@, "128.0.0.0"@, gw]);
}

/// On Windows, in the same mode, IPv6 is routed into the tunnel by two halves if the server
/// offers it or the kill switch is on, and the server itself is reached over IPv4. All of
/// it is taken back.
pub proof fn law_windows_captures_ipv6(
    cfg: ClientConfig,
    welcome: Welcome,
    ifname: Seq<char>,
    server_ip: IpAddr,
    idx: u32,
    orig_gw: Option<String>,
)
    requires
        cfg.mode == SessionMode::GlobalProxy,
        cfg.split_mode == SplitMode::Blacklist,
    ensures
        ({
            let p = windows::plan(cfg, welcome, ifname, server_ip, Some(idx), orig_gw);
            let at: int = if orig_gw is Some {
                3
            } else {
                2
            };
            let has6 = server_ip is V4 && (welcome.assigned_ip6 is Some || cfg.ipv6_killswitch);
            &&& p.len() == at + welcome.dns@.len() + welcome.dns6@.len() + if has6 {
                2int
            } else {
                0int
            }
            &&& has6 ==> {
                &&& p[at] == reversible(
                    "netsh"@,
                    seq![
                        "interface"@,
                        "ipv6"@,
                        "add"@,
                        "route"@,
                        "::/1"@,
                        ifname,
                        "store=active"@,
                    ],
                    seq!["interface"@, "ipv6"@, "delete"@, "route"@, "::/1"@, ifname],
                )
                &&& p[at + 1] == reversible(
                    "netsh"@,
                    seq![
                        "interface"@,
                        "ipv6"@,
                        "add"@,
                        "route"@,
                        "8000::/1"@,
                        ifname,
                        "store=active"@,
                    ],
                    seq!["interface"@, "ipv6"@, "delete"@, "route"@, "8000::/1"@, ifname],
                )
            }
        }),
{
    let p = windows::plan(cfg, welcome, ifname, server_ip, Some(idx), orig_gw);
    let at: int = if orig_gw is Some {
        3
    } else {
        2
    };
    let has6 = server_ip is V4 && (welcome.assigned_ip6 is Some || cfg.ipv6_killswitch);
    if has6 {
        assert(p[at] == windows::half6("::/1"@, ifname));
        assert(p[at + 1] == windows::half6("8000::/1"@, ifname));
        lemma_windows_half6("::/1"@, ifname);
        lemma_windows_half6("8000::/1"@, ifname);
    }
}

proof fn lemma_windows_half6(net: Seq<char>, ifname: Seq<char>)
    ensures
        windows::half6(net, ifname) == reversible(
            "netsh"@,
            seq!["interface"@, "ipv6"@, "add"@, "route"@, net, ifname, "store=active"@],
            seq!["interface"@, "ipv6"@, "delete"@, "route"@, net, ifname],
        ),
{
    let v = windows::half6(net, ifname);
    assert(v.cmd.args =~= seq![
        "interface"@,
        "ipv6"@,
        "add"@,
        "route"@,
        net,
        ifname,
        "store=active"@,
    ]);
    assert(v.undo->Some_0.args =~= seq!["interface"@, "ipv6"@, "delete"@, "route"@, net, ifname]);
}

/// On Windows, in the same mode, the resolvers that the server offers are set for the
/// tunnel's interface at the end, all of them, in their order: the first of a family in
/// place of others, each further one after it.
pub proof fn law_windows_resolvers(
    cfg: ClientConfig,
    welcome: Welcome,
    ifname: Seq<char>,
    server_ip: IpAddr,
    idx: u32,
    orig_gw: Option<String>,
    i: int,
)
    requires
        cfg.mode == SessionMode::GlobalProxy,
        cfg.split_mode == SplitMode::Blacklist,
    ensures
        ({
            let p = windows::plan(cfg, welcome, ifname, server_ip, Some(idx), orig_gw);
            let n4 = welcome.dns@.len() as int;
            let n6 = welcome.dns6@.len() as int;
            let n = p.len() as int;
            &&& n >= n4 + n6
            &&& 0 <= i < n4 ==> p[n - n6 - n4 + i] == extra(
                "netsh"@,
                if i == 0 {
                    seq![
                        "interface"@,
                        "ipv4"@,
                        "set"@,
                        "dnsservers"@,
                        ifname,
                        "static"@,
                        dotted(welcome.dns@[i].bits),
                        "validate=no"@,
                    ]
                } else {
                    seq![
                        "interface"@,
                        "ipv4"@,
                        "add"@,
                        "dnsservers"@,
                        ifname,
                        dotted(welcome.dns@[i].bits),
                        "index="@ + decimal((i + 1) as nat),
                        "validate=no"@,
                    ]
                },
            )
            &&& 0 <= i < n6 ==> p[n - n6 + i] == extra(
                "netsh"@,
                if i == 0 {
                    seq![
                        "interface"@,
                        "ipv6"@,
                        "set"@,
                        "dnsservers"@,
                        ifname,
                        "static"@,
                        ipv6_text(welcome.dns6@[i].bits),
                        "validate=no"@,
                    ]
                } else {
                    seq![
                        "interface"@,
                        "ipv6"@,
                        "add"@,
                        "dnsservers"@,
                        ifname,
                        ipv6_text(welcome.dns6@[i].bits),
                        "index="@ + decimal((i + 1) as nat),
                        "validate=no"@,
                    ]
                },
            )
        }),
{
    let p = windows::plan(cfg, welcome, ifname, server_ip, Some(idx), orig_gw);
    let n4 = welcome.dns@.len() as int;
    let n6 = welcome.dns6@.len() as int;
    let n = p.len() as int;
    let a = windows::dns4_plan(welcome.dns@, ifname);
    let b = windows::dns6_plan(welcome.dns6@, ifname);
    assert(p.skip(n - n6) =~= b);
    assert(p.subrange(n - n6 - n4, n - n6) =~= a);
    if 0 <= i < n4 {
        assert(p.subrange(n - n6 - n4, n - n6)[i] == p[n - n6 - n4 + i]);
        lemma_windows_dns("ipv4"@, ifname, dotted(welcome.dns@[i].bits), i as nat);
    }
    if 0 <= i < n6 {
        assert(p.skip(n - n6)[i] == p[n - n6 + i]);
        lemma_windows_dns("ipv6"@, ifname, ipv6_text(welcome.dns6@[i].bits), i as nat);
    }
}

proof fn lemma_windows_dns(family: Seq<char>, ifname: Seq<char>, addr: Seq<char>, i: nat)
    ensures
        windows::dns_step(family, ifname, addr, i) == extra(
            "netsh"@,
            if i == 0 {
                seq![
                    "interface"@,
                    family,
                    "set"@,
                    "dnsservers"@,
                    ifname,
                    "static"@,
                    addr,
                    "validate=no"@,
                ]
            } else {
                seq![
                    "interface"@,
                    family,
                    "add"@,
                    "dnsservers"@,
                    ifname,
                    addr,
                    "index="@ + decimal(i + 1),
                    "validate=no"@,
                ]
            },
        ),
{
    let a = windows::dns_step(family, ifname, addr, i).cmd.args;
    if i == 0 {
        assert(a =~= seq![
            "interface"@,
            family,
            "set"@,
            "dnsservers"@,
            ifname,
            "static"@,
            addr,
            "validate=no"@,
        ]);
    } else {
        assert(a =~= seq![
            "interface"@,
            family,
            "add"@,
            "dnsservers"@,
            ifname,
            addr,
            "index="@ + decimal(i + 1),
            "validate=no"@,
        ]);
    }
}

/// On Windows nothing is routed in any other mode; and with a whitelist, or without the
/// tunnel's interface, only the server's own route is added.
pub proof fn law_windows_otherwise_leaves_routes_alone(
    cfg: ClientConfig,
    welcome: Welcome,
    ifname: Seq<char>,
    server_ip: IpAddr,
    idx: Option<u32>,
    orig_gw: Option<String>,
)
    ensures
        cfg.mode != SessionMode::GlobalProxy ==> windows::plan(
            cfg,
            welcome,
            ifname,
            server_ip,
            idx,
            orig_gw,
        ).len() == 0,
        cfg.mode == SessionMode::GlobalProxy && (cfg.split_mode == SplitMode::Whitelist || idx
            is None) ==> {
            let p = windows::plan(cfg, welcome, ifname, server_ip, idx, orig_gw);
            &&& orig_gw is None ==> p.len() == 0
            &&& orig_gw is Some ==> p.len() == 1 && p[0] == reversible(
                "route"@,
                seq!["add"@, ip_text(server_ip), "mask"@, "255.255.255.255"@, orig_gw->Some_0@],
                seq!["delete"@, ip_text(server_ip)],
            )
        },
{
    if cfg.mode == SessionMode::GlobalProxy && orig_gw is Some {
        let p = windows::plan(cfg, welcome, ifname, server_ip, idx, orig_gw);
        assert(p[0].cmd.args =~= seq![
            "add"@,
            ip_text(server_ip),
            "mask"@,
            "255.255.255.255"@,
            orig_gw->Some_0@,
        ]);
        assert(p[0].undo->Some_0.args =~= seq!["delete"@, ip_text(server_ip)]);
    }
}

/// On Windows the tunnel's interface is given its address and mask, again and again up to
/// ten times until that succeeds, and its packet size after that; it fails after the tenth
/// try. It also gets the assigned IPv6 address, if there is one.
pub proof fn law_windows_link(ifname: Seq<char>, welcome: Welcome, tries: u8)
    ensures
        ({
            let ip = dotted(welcome.assigned_ip.bits);
            let mask = dotted(windows::mask_of(welcome.prefix_len));
            &&& windows::address_step(ifname, welcome, tries, true)
                == windows::AddressStepView::Done(
                CmdView {
                    program: "netsh"@,
                    args: seq![
                        "interface"@,
                        "ipv4"@,
                        "set"@,
                        "subinterface"@,
                        ifname,
                        "mtu="@ + decimal(welcome.mtu as nat),
                        "store=active"@,
                    ],
                },
            )
            &&& tries < 10 ==> windows::address_step(ifname, welcome, tries, false)
                == windows::AddressStepView::Try(
                CmdView {
                    program: "netsh"@,
                    args: seq![
                        "interface"@,
                        "ipv4"@,
                        "set"@,
                        "address"@,
                        ifname,
                        "static"@,
                        ip,
                        mask,
                    ],
                },
            )
            &&& tries >= 10 ==> windows::address_step(ifname, welcome, tries, false) is Failed
            &&& welcome.assigned_ip6 is None ==> windows::link6_plan(welcome, ifname).len() == 0
            &&& welcome.assigned_ip6 is Some ==> windows::link6_plan(welcome, ifname) == seq![
                extra(
                    "netsh"@,
                    seq![
                        "interface"@,
                        "ipv6"@,
                        "add"@,
                        "address"@,
                        ifname,
                        ipv6_text(welcome.assigned_ip6->Some_0.bits),
                    ],
                ),
            ]
        }),
{
    let ip = dotted(welcome.assigned_ip.bits);
    let mask = dotted(windows::mask_of(welcome.prefix_len));
    let d = windows::address_step(ifname, welcome, tries, true);
    assert(d->Done_0.args =~= seq![
        "interface"@,
        "ipv4"@,
        "set"@,
        "subinterface"@,
        ifname,
        "mtu="@ + decimal(welcome.mtu as nat),
        "store=active"@,
    ]);
    if tries < 10 {
        let t = windows::address_step(ifname, welcome, tries, false);
        assert(t->Try_0.args =~= seq![
            "interface"@,
            "ipv4"@,
            "set"@,
            "address"@,
            ifname,
            "static"@,
            ip,
            mask,
        ]);
    }
    if welcome.assigned_ip6 is Some {
        let l = windows::link6_plan(welcome, ifname);
        assert(l[0].cmd.args =~= seq![
            "interface"@,
            "ipv6"@,
            "add"@,
            "address"@,
            ifname,
            ipv6_text(welcome.assigned_ip6->Some_0.bits),
        ]);
    }
}

/// The mask of a prefix leaves as many bits free as the prefix does; a prefix of more than
/// 32 bits leaves none.
pub proof fn law_windows_mask(prefix: u8)
    ensures
        prefix <= 32 ==> windows::mask_of(prefix) == (0x1_0000_0000 - pow2(
            (32 - prefix) as nat,
        )) as nat as u32,
        prefix > 32 ==> windows::mask_of(prefix) == 0xffff_ffff,
{
    vstd::arithmetic::power2::lemma2_to64();
}

/// On Linux the default route is read from the first line: its gateway follows the first
/// `via`, its interface the first `dev`. A line without either names none.
pub proof fn law_linux_default_route(text: Seq<char>, i: int, j: int)
    requires
        lines_of(text).len() > 0,
    ensures
        ({
            let words = words_of(lines_of(text)[0]);
            &&& 0 <= i && i + 1 < words.len() && words[i] == "via"@ && (forall|k: int|
                0 <= k < i ==> #[trigger] words[k] != "via"@) && 0 <= j && j + 1 < words.len()
                && words[j] == "dev"@ && (forall|k: int|
                0 <= k < j ==> #[trigger] words[k] != "dev"@) ==> linux::route_in(text) == Some(
                (words[i + 1], words[j + 1]),
            )
            &&& (forall|k: int| 0 <= k < words.len() ==> #[trigger] words[k] != "via"@)
                ==> linux::route_in(text) is None
            &&& (forall|k: int| 0 <= k < words.len() ==> #[trigger] words[k] != "dev"@)
                ==> linux::route_in(text) is None
        }),
{
    let words = words_of(lines_of(text)[0]);
    if 0 <= i && i + 1 < words.len() && words[i] == "via"@ && (forall|k: int|
        0 <= k < i ==> #[trigger] words[k] != "via"@) {
        law_word_after(words, "via"@, i);
    }
    if 0 <= j && j + 1 < words.len() && words[j] == "dev"@ && (forall|k: int|
        0 <= k < j ==> #[trigger] words[k] != "dev"@) {
        law_word_after(words, "dev"@, j);
    }
    if forall|k: int| 0 <= k < words.len() ==> #[trigger] words[k] != "via"@ {
        lemma_no_word_after(words, "via"@);
    }
    if forall|k: int| 0 <= k < words.len() ==> #[trigger] words[k] != "dev"@ {
        lemma_no_word_after(words, "dev"@);
    }
}

proof fn lemma_no_word_after(words: Seq<Seq<char>>, key: Seq<char>)
    requires
        forall|k: int| 0 <= k < words.len() ==> #[trigger] words[k] != key,
    ensures
        word_after(words, key) is None,
    decreases words.len(),
{
    if words.len() > 0 {
        assert(words[0] != key);
        assert forall|k: int| 0 <= k < words.skip(1).len() implies #[trigger] words.skip(1)[k]
            != key by {
            assert(words[k + 1] != key);
        }
        lemma_no_word_after(words.skip(1), key);
    }
}

/// On Windows the default gateway is the third column of the first line of the route table
/// whose first two are `0.0.0.0`, if that column is an address.
pub proof fn law_windows_default_route(
    before: Seq<Seq<char>>,
    line: Seq<char>,
    after: Seq<Seq<char>>,
)
    requires
        forall|i: int| 0 <= i < before.len() ==> windows::gateway_in(#[trigger] before[i]) is None,
        words_of(line).len() >= 3,
        words_of(line)[0] == "0.0.0.0"@,
        words_of(line)[1] == "0.0.0.0"@,
        words_of(line)[2] != "On-link"@,
        undotted(words_of(line)[2]) is Some,
    ensures
        windows::gateway_of(before + seq![line] + after) == Some(words_of(line)[2]),
        windows::gateway_of(before) is None,
    decreases before.len(),
{
    let all = before + seq![line] + after;
    if before.len() > 0 {
        assert(all[0] == before[0]);
        assert(all.skip(1) =~= before.skip(1) + seq![line] + after);
        assert forall|i: int| 0 <= i < before.skip(1).len() implies windows::gateway_in(
            #[trigger] before.skip(1)[i],
        ) is None by {
            assert(before.skip(1)[i] == before[i + 1]);
        }
        law_windows_default_route(before.skip(1), line, after);
    } else {
        assert(all[0] == line);
    }
}

/// A line of the route table is no default route if its first two columns are not both
/// `0.0.0.0`, or if it has no address for a gateway.
pub proof fn law_windows_other_routes(line: Seq<char>)
    ensures
        words_of(line).len() < 3 ==> windows::gateway_in(line) is None,
        words_of(line).len() >= 3 && (words_of(line)[0] != "0.0.0.0"@ || words_of(line)[1]
            != "0.0.0.0"@ || undotted(words_of(line)[2]) is None || words_of(line)[2]
            == "On-link"@) ==> windows::gateway_in(line) is None,
{
}

proof fn lemma_first_at(s: Seq<char>, p: Seq<char>, i: int, k: int)
    requires
        0 <= i <= k,
        occurs_at(s, p, k),
        forall|j: int| i <= j < k ==> !#[trigger] occurs_at(s, p, j),
    ensures
        macos::first_at(s, p, i) == Some(k),
    decreases k - i,
{
    if i < k {
        assert(!occurs_at(s, p, i));
        lemma_first_at(s, p, i + 1, k);
    }
}

/// On macOS a line of the service listing such as `(1) Wi-Fi` introduces the service named
/// behind the first closing bracket with a space; one that begins with the hardware port
/// says where a service runs; any other says nothing.
pub proof fn law_macos_service_lines(rest: Seq<char>, k: int, t: Seq<char>)
    ensures
        without_prefix(rest, "Hardware Port:"@) is Some ==> macos::line_kind("("@ + rest)
            is Port,
        without_prefix(rest, "Hardware Port:"@) is None && 0 <= k && occurs_at(rest, ") "@, k) && (
        forall|j: int| 0 <= j < k ==> !#[trigger] occurs_at(rest, ") "@, j)) ==> macos::line_kind(
            "("@ + rest,
        ) == macos::ServiceLineView::Service(trimmed(rest.skip(k + 2))),
        t.len() == 0 || t[0] != '(' ==> macos::line_kind(t) is Other,
{
    law_without_prefix("("@, rest);
    law_without_prefix("("@, t);
    reveal_strlit("(");
    reveal_strlit(") ");
    if 0 <= k && occurs_at(rest, ") "@, k) && (forall|j: int|
        0 <= j < k ==> !#[trigger] occurs_at(rest, ") "@, j)) {
        lemma_first_at(rest, ") "@, 0, k);
        assert(rest.skip(k + 2) =~= rest.subrange(k + 2, rest.len() as int));
    }
}

/// On macOS the service of a device is the one that was introduced last before the line on
/// the hardware port with that device.
pub proof fn law_macos_service_of_a_device(
    before: Seq<Seq<char>>,
    intro: Seq<char>,
    port: Seq<char>,
    after: Seq<Seq<char>>,
    dev: Seq<char>,
    service: Seq<char>,
    last: Option<Seq<char>>,
)
    requires
        forall|i: int|
            0 <= i < before.len() ==> !(macos::line_kind(trimmed(#[trigger] before[i])) is Port)
                || !occurs(trimmed(before[i]), "Device: "@ + dev + ")"@),
        macos::line_kind(trimmed(intro)) == macos::ServiceLineView::Service(service),
        macos::line_kind(trimmed(port)) is Port,
        occurs(trimmed(port), "Device: "@ + dev + ")"@),
    ensures
        macos::service_on(before + seq![intro, port] + after, dev, last) == Some(service),
    decreases before.len(),
{
    let all = before + seq![intro, port] + after;
    if before.len() == 0 {
        assert(all[0] == intro);
        assert(all.skip(1)[0] == port);
        reveal_with_fuel(macos::service_on, 3);
    } else {
        assert(all[0] == before[0]);
        assert(all.skip(1) =~= before.skip(1) + seq![intro, port] + after);
        assert forall|i: int| 0 <= i < before.skip(1).len() implies !(macos::line_kind(
            trimmed(#[trigger] before.skip(1)[i]),
        ) is Port) || !occurs(trimmed(before.skip(1)[i]), "Device: "@ + dev + ")"@) by {
            assert(before.skip(1)[i] == before[i + 1]);
        }
        let now = match macos::line_kind(trimmed(before[0])) {
            macos::ServiceLineView::Service(s) => Some(s),
            _ => last,
        };
        law_macos_service_of_a_device(before.skip(1), intro, port, after, dev, service, now);
    }
}

/// On Windows the number of an interface is the first column of the first line that has
/// its name from the fifth column on.
pub proof fn law_windows_interface_number(
    before: Seq<Seq<char>>,
    line: Seq<char>,
    after: Seq<Seq<char>>,
    name: Seq<char>,
    n: u32,
)
    requires
        forall|i: int|
            0 <= i < before.len() ==> words_of(#[trigger] before[i]).len() < 5 || joined(
                words_of(before[i]).skip(4),
            ) != name || number(words_of(before[i])[0], 0xffff_ffff) is None,
        words_of(line).len() >= 5,
        words_of(line)[0] == decimal(n as nat),
        joined(words_of(line).skip(4)) == name,
    ensures
        index_of(before + seq![line] + after, name) == Some(n),
        index_of(before, name) is None,
    decreases before.len(),
{
    let all = before + seq![line] + after;
    law_decimal(n as nat, 0xffff_ffff);
    if before.len() > 0 {
        assert(all[0] == before[0]);
        assert(all.skip(1) =~= before.skip(1) + seq![line] + after);
        assert forall|i: int| 0 <= i < before.skip(1).len() implies words_of(
            #[trigger] before.skip(1)[i],
        ).len() < 5 || joined(words_of(before.skip(1)[i]).skip(4)) != name || number(
            words_of(before.skip(1)[i])[0],
            0xffff_ffff,
        ) is None by {
            assert(before.skip(1)[i] == before[i + 1]);
        }
        law_windows_interface_number(before.skip(1), line, after, name, n);
    } else {
        assert(all[0] == line);
    }
}

}
