//! Routing rules: which routes they claim, and what each comes to on a platform.

use vstd::prelude::*;
use vstd::string::*;

use super::{net_steps, optional_undone, push_optional_undone, NetStep, NetStepView};
use crate::addr::{
    dotted, ip_text, ipv4_net_parsed, ipv6_net_parsed, ipv6_parsed, undotted, IpAddr, Ipv4Addr,
    Ipv4Net, Ipv6Addr, Ipv6Net,
};
use crate::client::config::RouteRule;
use crate::cmd::{join, joined, program, Cmd, CmdView};
use crate::text::{
    chars_of, decimal, decimal_text, lines, lines_of, number, parse_number, same, split_whitespace,
    texts, words_of,
};

verus! {

/// What the target of a rule is.
pub enum RuleTarget {
    /// A network or address: this route.
    Route(String),
    /// An IPv6 network or address, for which there are no rules.
    Skipped,
    /// A name to look up.
    Domain,
}

pub enum RuleTargetView {
    Route(Seq<char>),
    Skipped,
    Domain,
}

impl View for RuleTarget {
    type V = RuleTargetView;

    open spec fn view(&self) -> RuleTargetView {
        match self {
            RuleTarget::Route(s) => RuleTargetView::Route(s@),
            RuleTarget::Skipped => RuleTargetView::Skipped,
            RuleTarget::Domain => RuleTargetView::Domain,
        }
    }
}

/// What the target of a rule is, given what it reads as.
pub open spec fn target_kind(
    target: Seq<char>,
    net4: Option<(u32, u8)>,
    ip6: Option<u128>,
    net6: Option<(u128, u8)>,
) -> RuleTargetView {
    match net4 {
        Some((bits, len)) => RuleTargetView::Route(
            (Ipv4Net { addr: Ipv4Addr { bits }, prefix_len: len }).text(),
        ),
        None => match undotted(target) {
            Some(bits) => RuleTargetView::Route(dotted(bits) + "/32"@),
            None => if ip6 is Some || net6 is Some {
                RuleTargetView::Skipped
            } else {
                RuleTargetView::Domain
            },
        },
    }
}

/// What the target of a rule is, given what it reads as.
pub fn target_from(
    target: &str,
    net4: Option<Ipv4Net>,
    ip6: Option<Ipv6Addr>,
    net6: Option<Ipv6Net>,
) -> (r: RuleTarget)
    ensures
        r@ == target_kind(
            target@,
            match net4 {
                Some(n) => Some((n.addr.bits, n.prefix_len)),
                None => None,
            },
            match ip6 {
                Some(a) => Some(a.bits),
                None => None,
            },
            match net6 {
                Some(n) => Some((n.addr.bits, n.prefix_len)),
                None => None,
            },
        ),
{
    if let Some(n) = net4 {
        return RuleTarget::Route(n.to_text());
    }
    if let Some(ip) = Ipv4Addr::parse(target) {
        return RuleTarget::Route(ip.to_text().concat("/32"));
    }
    if ip6.is_some() || net6.is_some() {
        RuleTarget::Skipped
    } else {
        RuleTarget::Domain
    }
}

/// What the target of a rule is.
pub fn rule_target(target: &str) -> (r: RuleTarget)
    ensures
        r@ == target_kind(
            target@,
            ipv4_net_parsed(target@),
            ipv6_parsed(target@),
            ipv6_net_parsed(target@),
        ),
{
    let net4 = match Ipv4Net::parse(target) {
        Ok(n) => Some(n),
        Err(_) => None,
    };
    let ip6 = Ipv6Addr::parse(target);
    let net6 = Ipv6Net::parse(target);
    target_from(target, net4, ip6, net6)
}

/// Whether `a` comes before `b` in the order of texts: at the first place where
/// they differ, `a` has the smaller character or has ended.
pub open spec fn comes_before(a: Seq<char>, b: Seq<char>) -> bool
    decreases a.len(),
{
    if b.len() == 0 {
        false
    } else if a.len() == 0 {
        true
    } else if a[0] != b[0] {
        a[0] < b[0]
    } else {
        comes_before(a.skip(1), b.skip(1))
    }
}

proof fn lemma_order(a: Seq<char>, b: Seq<char>)
    requires
        a != b,
    ensures
        comes_before(a, b) != comes_before(b, a),
    decreases a.len(),
{
    if a.len() > 0 && b.len() > 0 {
        if a[0] == b[0] {
            if a.skip(1) == b.skip(1) {
                assert(a =~= seq![a[0]] + a.skip(1));
                assert(b =~= seq![b[0]] + b.skip(1));
            }
            lemma_order(a.skip(1), b.skip(1));
        }
    } else if a.len() == b.len() {
        assert(a =~= b);
    }
}

proof fn lemma_order_trans(a: Seq<char>, b: Seq<char>, c: Seq<char>)
    requires
        comes_before(a, b),
        comes_before(b, c),
    ensures
        comes_before(a, c),
    decreases a.len(),
{
    if a.len() > 0 && a[0] == b[0] && b[0] == c[0] {
        lemma_order_trans(a.skip(1), b.skip(1), c.skip(1));
    }
}

/// Whether `a` comes before `b` in the order of texts.
pub fn text_before(a: &str, b: &str) -> (r: bool)
    ensures
        r == comes_before(a@, b@),
{
    let x = chars_of(a);
    let y = chars_of(b);
    let mut i: usize = 0;
    assert(x@.skip(0) =~= x@);
    assert(y@.skip(0) =~= y@);
    while i < x.len() && i < y.len()
        invariant
            x@ == a@,
            y@ == b@,
            i <= x@.len(),
            i <= y@.len(),
            comes_before(a@, b@) == comes_before(x@.skip(i as int), y@.skip(i as int)),
        decreases x@.len() - i,
    {
        assert(x@.skip(i as int)[0] == x@[i as int]);
        assert(y@.skip(i as int)[0] == y@[i as int]);
        if x[i] != y[i] {
            return x[i] < y[i];
        }
        assert(x@.skip(i as int).skip(1) =~= x@.skip(i + 1));
        assert(y@.skip(i as int).skip(1) =~= y@.skip(i + 1));
        i = i + 1;
    }
    i < y.len()
}

/// Whether texts stand in order, each once.
pub open spec fn in_order(s: Seq<Seq<char>>) -> bool {
    forall|i: int, j: int| 0 <= i < j < s.len() ==> comes_before(#[trigger] s[i], #[trigger] s[j])
}

/// The route to an address that a lookup found, for IPv4 addresses only.
pub open spec fn route_to(ip: IpAddr) -> Option<Seq<char>> {
    match ip {
        IpAddr::V4(a) => Some(dotted(a.bits) + "/32"@),
        IpAddr::V6(_) => None,
    }
}

/// Inserts a text into texts in order, unless it is there already.
fn insert_in_order(v: &mut Vec<String>, s: String)
    requires
        in_order(texts(old(v)@)),
    ensures
        in_order(texts(final(v)@)),
        forall|t: Seq<char>|
            texts(final(v)@).contains(t) <==> texts(old(v)@).contains(t) || t == s@,
{
    let n: usize = v.len();
    let mut at: usize = 0;
    let ghost before = texts(v@);
    while at < n && text_before(v[at].as_str(), s.as_str())
        invariant
            at <= n,
            n == v@.len(),
            v@ == old(v)@,
            before == texts(v@),
            forall|k: int| 0 <= k < at ==> comes_before(#[trigger] before[k], s@),
        decreases n - at,
    {
        assert(before[at as int] == v@[at as int]@);
        at = at + 1;
    }
    if at < n && same(v[at].as_str(), s.as_str()) {
        assert(before[at as int] == s@);
        return;
    }
    let ghost x = s@;
    v.insert(at, s);
    proof {
        assert(texts(v@) =~= before.insert(at as int, x));
        let after = texts(v@);
        if at < n {
            assert(before[at as int] == old(v)@[at as int]@);
            lemma_order(before[at as int], x);
            assert(comes_before(x, before[at as int]));
        }
        assert forall|i: int, j: int| 0 <= i < j < after.len() implies comes_before(
            #[trigger] after[i],
            #[trigger] after[j],
        ) by {
            if j < at {
                assert(after[i] == before[i] && after[j] == before[j]);
            } else if j == at {
                assert(after[i] == before[i]);
            } else if i < at {
                assert(after[i] == before[i] && after[j] == before[j - 1]);
            } else if i == at {
                assert(after[j] == before[j - 1]);
                if j - 1 > at {
                    lemma_order_trans(x, before[at as int], before[j - 1]);
                }
            } else {
                assert(after[i] == before[i - 1] && after[j] == before[j - 1]);
            }
        }
        assert forall|t: Seq<char>| after.contains(t) <==> before.contains(t) || t == x by {
            if after.contains(t) {
                let k = choose|k: int| 0 <= k < after.len() && after[k] == t;
                if k < at {
                    assert(before[k] == t);
                } else if k > at {
                    assert(before[k - 1] == t);
                }
            }
            if before.contains(t) {
                let k = choose|k: int| 0 <= k < before.len() && before[k] == t;
                if k < at {
                    assert(after[k] == t);
                } else {
                    assert(after[k + 1] == t);
                }
            }
            if t == x {
                assert(after[at as int] == t);
            }
        }
    }
}

/// The routes to the addresses that a lookup found: the IPv4 ones, in order, each
/// once.
pub fn domain_routes(found: &Vec<IpAddr>) -> (r: Vec<String>)
    ensures
        in_order(texts(r@)),
        forall|t: Seq<char>| #[trigger]
            texts(r@).contains(t) <==> exists|i: int|
                0 <= i < found@.len() && route_to(#[trigger] found@[i]) == Some(t),
{
    let n: usize = found.len();
    let mut out: Vec<String> = Vec::new();
    assert(texts(out@) =~= Seq::<Seq<char>>::empty());
    for i in 0..n
        invariant
            n == found@.len(),
            in_order(texts(out@)),
            forall|t: Seq<char>| #[trigger]
                texts(out@).contains(t) <==> exists|k: int|
                    0 <= k < i && route_to(#[trigger] found@[k]) == Some(t),
    {
        let ghost before = texts(out@);
        if let IpAddr::V4(a) = found[i] {
            let route = a.to_text().concat("/32");
            insert_in_order(&mut out, route);
        }
        proof {
            assert forall|t: Seq<char>| #[trigger]
                texts(out@).contains(t) <==> exists|k: int|
                    0 <= k < i + 1 && route_to(#[trigger] found@[k]) == Some(t) by {
                assert(texts(out@).contains(t) <==> before.contains(t) || route_to(
                    found@[i as int],
                ) == Some(t));
                if before.contains(t) {
                    let k = choose|k: int|
                        0 <= k < i && route_to(#[trigger] found@[k]) == Some(t);
                    assert(route_to(found@[k]) == Some(t));
                }
            }
        }
    }
    out
}

/// The routes of a rule's target; `found` is what a lookup found, if its target is
/// a name.
pub fn resolve_rule_targets(target: RuleTarget, found: &Vec<IpAddr>) -> (r: Vec<String>)
    ensures
        match target@ {
            RuleTargetView::Route(s) => texts(r@) == seq![s],
            RuleTargetView::Skipped => r@.len() == 0,
            RuleTargetView::Domain => {
                &&& in_order(texts(r@))
                &&& forall|t: Seq<char>| #[trigger]
                    texts(r@).contains(t) <==> exists|i: int|
                        0 <= i < found@.len() && route_to(#[trigger] found@[i]) == Some(t)
            },
        },
{
    match target {
        RuleTarget::Route(s) => {
            let r = vec![s];
            assert(texts(r@) =~= seq![s@]);
            r
        },
        RuleTarget::Skipped => Vec::new(),
        RuleTarget::Domain => domain_routes(found),
    }
}

/// A rule with one of its routes.
pub struct RuleRoute {
    pub rule: RouteRule,
    pub route: String,
}

/// The rules with their routes that take effect: none for the server's own
/// address, which would send the tunnel into itself, and of several for one route
/// the first.
pub open spec fn claims(pairs: Seq<RuleRoute>, server_route: Seq<char>) -> Seq<RuleRoute>
    decreases pairs.len(),
{
    if pairs.len() == 0 {
        Seq::empty()
    } else {
        let before = claims(pairs.drop_last(), server_route);
        if claimable(pairs, pairs.len() - 1, server_route) {
            before.push(pairs.last())
        } else {
            before
        }
    }
}

/// Whether the `i`-th rule can have its route.
pub open spec fn claimable(pairs: Seq<RuleRoute>, i: int, server_route: Seq<char>) -> bool {
    &&& pairs[i].route@ != server_route
    &&& forall|j: int| 0 <= j < i ==> (#[trigger] pairs[j]).route@ != pairs[i].route@
}

/// The rules that take effect never touch the server's own route, and no two of
/// them have the same route.
pub proof fn law_claims(pairs: Seq<RuleRoute>, server_route: Seq<char>)
    ensures
        forall|i: int|
            0 <= i < claims(pairs, server_route).len() ==> (#[trigger] claims(
                pairs,
                server_route,
            )[i]).route@ != server_route,
        forall|i: int, j: int|
            0 <= i < j < claims(pairs, server_route).len() ==> (#[trigger] claims(
                pairs,
                server_route,
            )[i]).route@ != (#[trigger] claims(pairs, server_route)[j]).route@,
        forall|i: int|
            0 <= i < claims(pairs, server_route).len() ==> pairs.contains(
                #[trigger] claims(pairs, server_route)[i],
            ),
    decreases pairs.len(),
{
    if pairs.len() > 0 {
        let rest = pairs.drop_last();
        law_claims(rest, server_route);
        let before = claims(rest, server_route);
        let all = claims(pairs, server_route);
        assert forall|i: int| 0 <= i < all.len() implies pairs.contains(#[trigger] all[i]) by {
            if i < before.len() {
                assert(rest.contains(before[i]));
                let k = choose|k: int| 0 <= k < rest.len() && rest[k] == before[i];
                assert(pairs[k] == all[i]);
            } else {
                assert(pairs[pairs.len() - 1] == all[i]);
            }
        }
        assert forall|i: int, j: int| 0 <= i < j < all.len() implies (#[trigger] all[i]).route@ != (
        #[trigger] all[j]).route@ by {
            if j == before.len() {
                assert(rest.contains(before[i]));
                let k = choose|k: int| 0 <= k < rest.len() && rest[k] == before[i];
                assert(pairs[k] == before[i]);
                assert(claimable(pairs, pairs.len() - 1, server_route));
            } else {
                assert(before[i].route@ != before[j].route@);
            }
        }
    }
}

/// What a platform needs to know to install rules.
pub enum RuleContext {
    Linux {
        tun: String,
        /// Gateway and interface of the host's own default route.
        orig: Option<(String, String)>,
    },
    MacOs {
        /// The other end of the tunnel, through which it is routed.
        peer_gw: String,
        /// Gateway of the host's own default route.
        orig_gw: Option<String>,
    },
    Windows {
        tun_idx: Option<u32>,
        tun_gw: String,
        /// Gateway of the host's own default route.
        orig_gw: Option<String>,
        /// What `netsh interface ipv4 show interfaces` says.
        interfaces: String,
    },
}

/// The number of an interface, out of what `netsh interface ipv4 show interfaces`
/// says: lines of number, three more columns, and the name.
pub open spec fn index_of(lines: Seq<Seq<char>>, name: Seq<char>) -> Option<u32>
    decreases lines.len(),
{
    if lines.len() == 0 {
        None
    } else {
        let cols = words_of(lines[0]);
        let n = number(cols[0], u32::MAX as nat);
        if cols.len() >= 5 && n is Some && joined(cols.skip(4)) == name {
            Some(n->Some_0 as u32)
        } else {
            index_of(lines.skip(1), name)
        }
    }
}

/// The number of an interface.
pub fn if_index(interfaces: &str, name: &str) -> (r: Option<u32>)
    ensures
        r == index_of(lines_of(interfaces@), name@),
{
    let ls = lines(interfaces);
    let n: usize = ls.len();
    let ghost all = texts(ls@);
    let mut i: usize = 0;
    assert(all.skip(0) =~= all);
    while i < n
        invariant
            n == ls@.len(),
            i <= n,
            all == texts(ls@),
            all == lines_of(interfaces@),
            index_of(all, name@) == index_of(all.skip(i as int), name@),
        decreases n - i,
    {
        assert(all.skip(i as int)[0] == ls@[i as int]@);
        assert(all.skip(i as int).skip(1) =~= all.skip(i + 1));
        let mut cols = split_whitespace(ls[i].as_str());
        let ghost words = texts(cols@);
        assert(words.len() == cols@.len());
        if cols.len() >= 5 {
            assert(words[0] == cols@[0]@);
            let number = parse_number(cols[0].as_str(), u32::MAX);
            if let Some(idx) = number {
                let rest = cols.split_off(4);
                assert(texts(rest@) =~= words.skip(4));
                let full = join(&rest);
                if same(full.as_str(), name) {
                    return Some(idx);
                }
            }
        }
        i = i + 1;
    }
    None
}

/// Network and mask of a route, given what it reads as.
pub open spec fn net_and_mask(parsed: Option<(u32, u8)>) -> Option<(Seq<char>, Seq<char>)> {
    match parsed {
        Some((bits, len)) => {
            let n = Ipv4Net { addr: Ipv4Addr { bits }, prefix_len: len };
            Some((dotted(n.base() as u32), dotted(n.mask() as u32)))
        },
        None => None,
    }
}

/// Network and mask of a route.
pub fn split_cidr(cidr: &str) -> (r: Option<(String, String)>)
    ensures
        match net_and_mask(ipv4_net_parsed(cidr@)) {
            Some((n, m)) => r is Some && r->Some_0.0@ == n && r->Some_0.1@ == m,
            None => r is None,
        },
{
    match Ipv4Net::parse(cidr) {
        Ok(n) => {
            let base = n.network();
            let mask = n.netmask();
            Some((base.to_text(), mask.to_text()))
        },
        Err(_) => None,
    }
}

/// The step that installs a route: a command, and the same with another verb that
/// undoes it. None if the rule cannot be followed: its way out is not known.
pub open spec fn rule_step(ctx: RuleContext, rule: RouteRule, route: Seq<char>) -> Option<
    NetStepView,
> {
    match ctx {
        RuleContext::Linux { tun, orig } => match linux_way(rule, tun@, orig) {
            Some(way) => Some(
                optional_undone(
                    with_args(program("ip"@).arg("route"@).arg("add"@).arg(route), way),
                    with_args(program("ip"@).arg("route"@).arg("del"@).arg(route), way),
                ),
            ),
            None => None,
        },
        RuleContext::MacOs { peer_gw, orig_gw } => match macos_way(rule, peer_gw@, orig_gw) {
            Some(way) => Some(
                optional_undone(
                    with_args(program("route"@).arg("add"@).arg("-net"@).arg(route), way),
                    with_args(program("route"@).arg("delete"@).arg("-net"@).arg(route), way),
                ),
            ),
            None => None,
        },
        RuleContext::Windows { tun_idx, tun_gw, orig_gw, interfaces } => match net_and_mask(
            ipv4_net_parsed(route),
        ) {
            Some((dest, mask)) => match windows_way(rule, tun_idx, tun_gw@, orig_gw, interfaces@) {
                Some(way) => Some(
                    optional_undone(
                        with_args(
                            program("route"@).arg("add"@).arg(dest).arg("mask"@).arg(mask),
                            way,
                        ),
                        program("route"@).arg("delete"@).arg(dest).arg("mask"@).arg(mask),
                    ),
                ),
                None => None,
            },
            None => None,
        },
    }
}

/// A command with more arguments.
pub open spec fn with_args(c: CmdView, more: Seq<Seq<char>>) -> CmdView {
    CmdView { program: c.program, args: c.args + more }
}

/// The way out that a rule names, on Linux.
pub open spec fn linux_way(
    rule: RouteRule,
    tun: Seq<char>,
    orig: Option<(String, String)>,
) -> Option<Seq<Seq<char>>> {
    if rule.via@ == "tunnel"@ {
        Some(Seq::empty().push("dev"@).push(tun))
    } else if rule.via@ == "direct"@ {
        match orig {
            Some((gw, dev)) => Some(Seq::empty().push("via"@).push(gw@).push("dev"@).push(dev@)),
            None => None,
        }
    } else {
        match rule.gateway {
            Some(gw) => Some(
                Seq::empty().push("via"@).push(dotted(gw.bits)).push("dev"@).push(rule.via@),
            ),
            None => Some(Seq::empty().push("dev"@).push(rule.via@)),
        }
    }
}

/// The way out that a rule names, on macOS.
pub open spec fn macos_way(
    rule: RouteRule,
    peer_gw: Seq<char>,
    orig_gw: Option<String>,
) -> Option<Seq<Seq<char>>> {
    if rule.via@ == "tunnel"@ {
        Some(Seq::empty().push(peer_gw))
    } else if rule.via@ == "direct"@ {
        match orig_gw {
            Some(gw) => Some(Seq::empty().push(gw@)),
            None => None,
        }
    } else {
        match rule.gateway {
            Some(gw) => Some(
                Seq::empty().push(dotted(gw.bits)).push("-ifscope"@).push(rule.via@),
            ),
            None => Some(Seq::empty().push("-interface"@).push(rule.via@)),
        }
    }
}

/// The way out that a rule names, on Windows.
pub open spec fn windows_way(
    rule: RouteRule,
    tun_idx: Option<u32>,
    tun_gw: Seq<char>,
    orig_gw: Option<String>,
    interfaces: Seq<char>,
) -> Option<Seq<Seq<char>>> {
    if rule.via@ == "tunnel"@ {
        match tun_idx {
            Some(i) => Some(
                Seq::empty().push(tun_gw).push("metric"@).push("1"@).push("if"@).push(
                    decimal(i as nat),
                ),
            ),
            None => None,
        }
    } else if rule.via@ == "direct"@ {
        match orig_gw {
            Some(gw) => Some(Seq::empty().push(gw@)),
            None => None,
        }
    } else {
        match index_of(lines_of(interfaces), rule.via@) {
            Some(i) => Some(
                Seq::empty().push(
                    match rule.gateway {
                        Some(gw) => dotted(gw.bits),
                        None => "0.0.0.0"@,
                    },
                ).push("if"@).push(decimal(i as nat)),
            ),
            None => None,
        }
    }
}

fn add_args(c: Cmd, more: &Vec<String>) -> (r: Cmd)
    ensures
        r@ == with_args(c@, texts(more@)),
{
    let mut out = c;
    let n: usize = more.len();
    let ghost base = c@;
    assert(base.args + texts(more@).take(0) =~= base.args);
    for i in 0..n
        invariant
            n == more@.len(),
            out@.program == base.program,
            out@.args == base.args + texts(more@).take(i as int),
    {
        out = out.arg(more[i].as_str());
        assert((base.args + texts(more@).take(i as int)).push(more@[i as int]@) =~= base.args
            + texts(more@).take(i + 1));
    }
    assert(texts(more@).take(n as int) =~= texts(more@));
    out
}

fn words2(a: String, b: String) -> (r: Vec<String>)
    ensures
        texts(r@) == Seq::empty().push(a@).push(b@),
{
    let r = vec![a, b];
    assert(texts(r@) =~= Seq::empty().push(a@).push(b@));
    r
}

/// The way out that a rule names.
fn way_of(ctx: &RuleContext, rule: &RouteRule) -> (r: Option<Vec<String>>)
    ensures
        match way(*ctx, *rule) {
            Some(w) => r is Some && texts(r->Some_0@) == w,
            None => r is None,
        },
{
    let tunnel = same(rule.via.as_str(), "tunnel");
    let direct = same(rule.via.as_str(), "direct");
    match ctx {
        RuleContext::Linux { tun, orig } => if tunnel {
            Some(words2("dev".to_owned(), tun.clone()))
        } else if direct {
            match orig {
                Some((gw, dev)) => {
                    let v = vec!["via".to_owned(), gw.clone(), "dev".to_owned(), dev.clone()];
                    assert(texts(v@) =~= Seq::empty().push("via"@).push(gw@).push("dev"@).push(
                        dev@,
                    ));
                    Some(v)
                },
                None => None,
            }
        } else {
            match rule.gateway {
                Some(gw) => {
                    let v = vec![
                        "via".to_owned(),
                        gw.to_text(),
                        "dev".to_owned(),
                        rule.via.clone(),
                    ];
                    assert(texts(v@) =~= Seq::empty().push("via"@).push(dotted(gw.bits)).push(
                        "dev"@,
                    ).push(rule.via@));
                    Some(v)
                },
                None => Some(words2("dev".to_owned(), rule.via.clone())),
            }
        },
        RuleContext::MacOs { peer_gw, orig_gw } => if tunnel {
            let v = vec![peer_gw.clone()];
            assert(texts(v@) =~= Seq::empty().push(peer_gw@));
            Some(v)
        } else if direct {
            match orig_gw {
                Some(gw) => {
                    let v = vec![gw.clone()];
                    assert(texts(v@) =~= Seq::empty().push(gw@));
                    Some(v)
                },
                None => None,
            }
        } else {
            match rule.gateway {
                Some(gw) => {
                    let v = vec![gw.to_text(), "-ifscope".to_owned(), rule.via.clone()];
                    assert(texts(v@) =~= Seq::empty().push(dotted(gw.bits)).push(
                        "-ifscope"@,
                    ).push(rule.via@));
                    Some(v)
                },
                None => Some(words2("-interface".to_owned(), rule.via.clone())),
            }
        },
        RuleContext::Windows { tun_idx, tun_gw, orig_gw, interfaces } => if tunnel {
            match tun_idx {
                Some(i) => {
                    let v = vec![
                        tun_gw.clone(),
                        "metric".to_owned(),
                        "1".to_owned(),
                        "if".to_owned(),
                        decimal_text(*i as u64),
                    ];
                    assert(texts(v@) =~= Seq::empty().push(tun_gw@).push("metric"@).push(
                        "1"@,
                    ).push("if"@).push(decimal(*i as nat)));
                    Some(v)
                },
                None => None,
            }
        } else if direct {
            match orig_gw {
                Some(gw) => {
                    let v = vec![gw.clone()];
                    assert(texts(v@) =~= Seq::empty().push(gw@));
                    Some(v)
                },
                None => None,
            }
        } else {
            match if_index(interfaces.as_str(), rule.via.as_str()) {
                Some(i) => {
                    let gw = match rule.gateway {
                        Some(g) => g.to_text(),
                        None => "0.0.0.0".to_owned(),
                    };
                    let ghost g = gw@;
                    let v = vec![gw, "if".to_owned(), decimal_text(i as u64)];
                    assert(texts(v@) =~= Seq::empty().push(g).push("if"@).push(
                        decimal(i as nat),
                    ));
                    Some(v)
                },
                None => None,
            }
        },
    }
}

/// The way out that a rule names.
pub open spec fn way(ctx: RuleContext, rule: RouteRule) -> Option<Seq<Seq<char>>> {
    match ctx {
        RuleContext::Linux { tun, orig } => linux_way(rule, tun@, orig),
        RuleContext::MacOs { peer_gw, orig_gw } => macos_way(rule, peer_gw@, orig_gw),
        RuleContext::Windows { tun_idx, tun_gw, orig_gw, interfaces } => windows_way(
            rule,
            tun_idx,
            tun_gw@,
            orig_gw,
            interfaces@,
        ),
    }
}

/// The commands that install a route and undo it.
fn commands_of(ctx: &RuleContext, rule: &RouteRule, route: &str) -> (r: Option<(Cmd, Cmd)>)
    ensures
        match rule_step(*ctx, *rule, route@) {
            Some(s) => r is Some && s == optional_undone(r->Some_0.0@, r->Some_0.1@),
            None => r is None,
        },
{
    let w = match way_of(ctx, rule) {
        Some(w) => w,
        None => return None,
    };
    match ctx {
        RuleContext::Linux { .. } => Some(
            (
                add_args(Cmd::new("ip").arg("route").arg("add").arg(route), &w),
                add_args(Cmd::new("ip").arg("route").arg("del").arg(route), &w),
            ),
        ),
        RuleContext::MacOs { .. } => Some(
            (
                add_args(Cmd::new("route").arg("add").arg("-net").arg(route), &w),
                add_args(Cmd::new("route").arg("delete").arg("-net").arg(route), &w),
            ),
        ),
        RuleContext::Windows { .. } => match split_cidr(route) {
            Some((dest, mask)) => Some(
                (
                    add_args(
                        Cmd::new("route").arg("add").arg(dest.as_str()).arg("mask").arg(
                            mask.as_str(),
                        ),
                        &w,
                    ),
                    Cmd::new("route").arg("delete").arg(dest.as_str()).arg("mask").arg(
                        mask.as_str(),
                    ),
                ),
            ),
            None => None,
        },
    }
}

/// The steps that install the rules that take effect.
pub open spec fn rule_steps(ctx: RuleContext, pairs: Seq<RuleRoute>, server_route: Seq<char>) -> Seq<
    NetStepView,
>
    decreases pairs.len(),
{
    if pairs.len() == 0 {
        Seq::empty()
    } else {
        let before = rule_steps(ctx, pairs.drop_last(), server_route);
        if claimable(pairs, pairs.len() - 1, server_route) {
            match rule_step(ctx, pairs.last().rule, pairs.last().route@) {
                Some(s) => before.push(s),
                None => before,
            }
        } else {
            before
        }
    }
}

fn can_claim(pairs: &Vec<RuleRoute>, i: usize, server_route: &str) -> (r: bool)
    requires
        i < pairs@.len(),
    ensures
        r == claimable(pairs@, i as int, server_route@),
{
    if same(pairs[i].route.as_str(), server_route) {
        return false;
    }
    for j in 0..i
        invariant
            i < pairs@.len(),
            pairs@[i as int].route@ != server_route@,
            forall|k: int| 0 <= k < j ==> (#[trigger] pairs@[k]).route@ != pairs@[i as int].route@,
    {
        if same(pairs[j].route.as_str(), pairs[i].route.as_str()) {
            return false;
        }
    }
    true
}

/// The steps that install the rules that take effect. Each is undone if it
/// succeeded.
pub fn apply_route_rules(ctx: &RuleContext, pairs: &Vec<RuleRoute>, server_ip: IpAddr) -> (r: Vec<
    NetStep,
>)
    ensures
        net_steps(r@) == rule_steps(*ctx, pairs@, ip_text(server_ip) + "/32"@),
{
    let server_route = server_ip.to_text().concat("/32");
    let n: usize = pairs.len();
    let mut out: Vec<NetStep> = Vec::new();
    assert(net_steps(out@) =~= Seq::<NetStepView>::empty());
    assert(pairs@.take(0) =~= Seq::<RuleRoute>::empty());
    for i in 0..n
        invariant
            n == pairs@.len(),
            server_route@ == ip_text(server_ip) + "/32"@,
            net_steps(out@) == rule_steps(*ctx, pairs@.take(i as int), server_route@),
    {
        let ghost upto = pairs@.take(i + 1);
        assert(upto.drop_last() =~= pairs@.take(i as int));
        assert(upto.last() == pairs@[i as int]);
        assert(claimable(upto, i as int, server_route@) == claimable(
            pairs@,
            i as int,
            server_route@,
        )) by {
            assert(upto[i as int] == pairs@[i as int]);
            assert forall|j: int| 0 <= j < i implies (#[trigger] upto[j]) == pairs@[j] by {}
            if claimable(upto, i as int, server_route@) {
                assert forall|j: int| 0 <= j < i implies (#[trigger] pairs@[j]).route@
                    != pairs@[i as int].route@ by {
                    assert(upto[j] == pairs@[j]);
                }
            }
        }
        if can_claim(pairs, i, server_route.as_str()) {
            if let Some((add, del)) = commands_of(ctx, &pairs[i].rule, pairs[i].route.as_str()) {
                push_optional_undone(&mut out, add, del);
            }
        }
    }
    assert(pairs@.take(n as int) =~= pairs@);
    out
}

/// Every step that installs a rule belongs to a rule that takes effect.
pub proof fn law_rule_steps_are_claims(
    ctx: RuleContext,
    pairs: Seq<RuleRoute>,
    server_route: Seq<char>,
    i: int,
)
    requires
        0 <= i < rule_steps(ctx, pairs, server_route).len(),
    ensures
        exists|k: int|
            0 <= k < claims(pairs, server_route).len() && rule_step(
                ctx,
                (#[trigger] claims(pairs, server_route)[k]).rule,
                claims(pairs, server_route)[k].route@,
            ) == Some(rule_steps(ctx, pairs, server_route)[i]),
    decreases pairs.len(),
{
    if pairs.len() > 0 {
        let rest = pairs.drop_last();
        let steps_before = rule_steps(ctx, rest, server_route);
        let before = claims(rest, server_route);
        let all = claims(pairs, server_route);
        if i < steps_before.len() {
            law_rule_steps_are_claims(ctx, rest, server_route, i);
            let k = choose|k: int|
                0 <= k < before.len() && rule_step(
                    ctx,
                    (#[trigger] before[k]).rule,
                    before[k].route@,
                ) == Some(steps_before[i]);
            assert(all[k] == before[k]);
        } else {
            assert(all[all.len() - 1] == pairs.last());
        }
    }
}

}
