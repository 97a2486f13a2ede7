//! Network configuration on macOS, through `ifconfig`, `route` and
//! `networksetup`.

use vstd::prelude::*;
use vstd::string::*;

use super::rules::with_args;
use super::{
    assigned_cidr, at_least_one, captures_all, cidr_of, needed, needed_undone, net_steps, optional,
    optional_always_undone, push_needed, push_needed_undone, push_optional,
    push_optional_always_undone, resolv_for, resolv_of, NetPlan, NetStep, NetStepView,
};
use crate::addr::{
    dotted, ip_parsed, ip_text, ipv6_text, IpAddr, Ipv4Addr, Ipv4Net, Ipv6Addr,
};
use crate::client::config::{ClientConfig, SplitMode};
use crate::client::sysproxy::{field_of, find_field};
use crate::cmd::{program, Cmd, CmdView};
use crate::config::SessionMode;
use crate::protocol::Welcome;
use crate::text::{
    chars_of, contains, decimal, decimal_text, lines, lines_of, occurs, occurs_at,
    occurs_at_chars, same, strip_prefix, text_between, texts, trim, trimmed, without_prefix,
};

verus! {

/// The gateway that `route -n get default` names.
pub fn default_gateway(text: &str) -> (r: Option<String>)
    ensures
        match field_of(lines_of(text@), "gateway:"@) {
            Some(g) => r is Some && r->Some_0@ == g,
            None => r is None,
        },
{
    find_field(text, "gateway:")
}

/// The first place at or after `i` where `p` occurs in `s`, if any.
pub open spec fn first_at(s: Seq<char>, p: Seq<char>, i: int) -> Option<int>
    decreases s.len() + 1 - i,
{
    if i < 0 || i + p.len() > s.len() {
        None
    } else if occurs_at(s, p, i) {
        Some(i)
    } else {
        first_at(s, p, i + 1)
    }
}

/// What a line of the service listing is.
pub enum ServiceLine {
    /// It says on which hardware port the last service runs.
    Port,
    /// It introduces a service.
    Service(String),
    Other,
}

pub enum ServiceLineView {
    Port,
    Service(Seq<char>),
    Other,
}

impl View for ServiceLine {
    type V = ServiceLineView;

    open spec fn view(&self) -> ServiceLineView {
        match self {
            ServiceLine::Port => ServiceLineView::Port,
            ServiceLine::Service(s) => ServiceLineView::Service(s@),
            ServiceLine::Other => ServiceLineView::Other,
        }
    }
}

/// What a line of the service listing is: `(1) Wi-Fi` introduces `Wi-Fi`, and
/// `(Hardware Port: Wi-Fi, Device: en0)` says where it runs.
pub open spec fn line_kind(t: Seq<char>) -> ServiceLineView {
    match without_prefix(t, "("@) {
        Some(rest) => if without_prefix(rest, "Hardware Port:"@) is Some {
            ServiceLineView::Port
        } else {
            match first_at(rest, ") "@, 0) {
                Some(i) => ServiceLineView::Service(
                    trimmed(rest.subrange(i + 2, rest.len() as int)),
                ),
                None => ServiceLineView::Other,
            }
        },
        None => ServiceLineView::Other,
    }
}

fn find_text(s: &Vec<char>, p: &Vec<char>) -> (r: Option<usize>)
    ensures
        match first_at(s@, p@, 0) {
            Some(i) => r is Some && r->Some_0 == i && i + p@.len() <= s@.len(),
            None => r is None,
        },
{
    let n: usize = s.len();
    let m: usize = p.len();
    let mut i: usize = 0;
    while m <= n - i
        invariant
            n == s@.len(),
            m == p@.len(),
            i <= n,
            first_at(s@, p@, 0) == first_at(s@, p@, i as int),
        decreases n - i,
    {
        if occurs_at_chars(s, p, i) {
            return Some(i);
        }
        assert(i < n) by {
            if i == n {
                assert(s@.subrange(n as int, n as int) =~= p@);
            }
        }
        i = i + 1;
    }
    None
}

/// What a line of the service listing is.
fn kind_of(t: &str) -> (r: ServiceLine)
    ensures
        r@ == line_kind(t@),
{
    match strip_prefix(t, "(") {
        Some(rest) => {
            if strip_prefix(rest.as_str(), "Hardware Port:").is_some() {
                return ServiceLine::Port;
            }
            let cs = chars_of(rest.as_str());
            let close = chars_of(") ");
            proof {
                reveal_strlit(") ");
            }
            match find_text(&cs, &close) {
                Some(i) => {
                    let len: usize = cs.len();
                    let name = text_between(&cs, i + 2, len);
                    ServiceLine::Service(trim(name.as_str()))
                },
                None => ServiceLine::Other,
            }
        },
        None => ServiceLine::Other,
    }
}

/// The service that runs on a device, in a service listing: the last one
/// introduced before the line on its hardware port.
pub open spec fn service_on(
    lines: Seq<Seq<char>>,
    dev: Seq<char>,
    last: Option<Seq<char>>,
) -> Option<Seq<char>>
    decreases lines.len(),
{
    if lines.len() == 0 {
        None
    } else {
        let t = trimmed(lines[0]);
        match line_kind(t) {
            ServiceLineView::Service(s) => service_on(lines.skip(1), dev, Some(s)),
            ServiceLineView::Port => if occurs(t, "Device: "@ + dev + ")"@) {
                last
            } else {
                service_on(lines.skip(1), dev, last)
            },
            ServiceLineView::Other => service_on(lines.skip(1), dev, last),
        }
    }
}

/// The network service behind the default route, out of what `route -n get
/// default` and `networksetup -listnetworkserviceorder` say.
pub fn primary_service(route: &str, order: &str) -> (r: Option<String>)
    ensures
        match field_of(lines_of(route@), "interface:"@) {
            Some(dev) => match service_on(lines_of(order@), dev, None) {
                Some(s) => r is Some && r->Some_0@ == s,
                None => r is None,
            },
            None => r is None,
        },
{
    let dev = match find_field(route, "interface:") {
        Some(d) => d,
        None => return None,
    };
    let needle = "Device: ".to_owned().concat(dev.as_str()).concat(")");
    let ls = lines(order);
    let n: usize = ls.len();
    let ghost all = texts(ls@);
    let mut last: Option<String> = None;
    let mut i: usize = 0;
    assert(all.skip(0) =~= all);
    while i < n
        invariant
            n == ls@.len(),
            i <= n,
            all == texts(ls@),
            all == lines_of(order@),
            needle@ == "Device: "@ + dev@ + ")"@,
            field_of(lines_of(route@), "interface:"@) == Some(dev@),
            service_on(all, dev@, None) == service_on(
                all.skip(i as int),
                dev@,
                match last {
                    Some(s) => Some(s@),
                    None => None,
                },
            ),
        decreases n - i,
    {
        assert(all.skip(i as int)[0] == ls@[i as int]@);
        assert(all.skip(i as int).skip(1) =~= all.skip(i + 1));
        let t = trim(ls[i].as_str());
        match kind_of(t.as_str()) {
            ServiceLine::Service(s) => {
                last = Some(s);
            },
            ServiceLine::Port => {
                if contains(t.as_str(), needle.as_str()) {
                    return last;
                }
            },
            ServiceLine::Other => {},
        }
        i = i + 1;
    }
    None
}

/// The steps that bring the tunnel's interface up with the assigned addresses. The
/// interface is point-to-point, with the gateway at the other end.
pub open spec fn link_plan(welcome: Welcome, ifname: Seq<char>) -> Seq<NetStepView> {
    let v4 = Seq::empty().push(
        needed(
            program("ifconfig"@).arg(ifname).arg("inet"@).arg(dotted(welcome.assigned_ip.bits)).arg(
                dotted(welcome.gateway.bits),
            ).arg("up"@),
        ),
    ).push(
        optional(
            program("ifconfig"@).arg(ifname).arg("mtu"@).arg(decimal(welcome.mtu as nat)),
        ),
    );
    match welcome.assigned_ip6 {
        Some(ip6) => v4.push(
            optional(
                program("ifconfig"@).arg(ifname).arg("inet6"@).arg(ipv6_text(ip6.bits)).arg(
                    "prefixlen"@,
                ).arg(decimal(at_least_one(welcome.prefix6) as nat)),
            ),
        ),
        None => v4,
    }
}

fn push_link4(v: &mut Vec<NetStep>, welcome: &Welcome, ifname: &str)
    ensures
        net_steps(final(v)@) == net_steps(old(v)@).push(
            needed(
                program("ifconfig"@).arg(ifname@).arg("inet"@).arg(
                    dotted(welcome.assigned_ip.bits),
                ).arg(dotted(welcome.gateway.bits)).arg("up"@),
            ),
        ).push(
            optional(
                program("ifconfig"@).arg(ifname@).arg("mtu"@).arg(decimal(welcome.mtu as nat)),
            ),
        ),
{
    let ip = welcome.assigned_ip.to_text();
    let gw = welcome.gateway.to_text();
    let mtu = decimal_text(welcome.mtu as u64);
    push_needed(
        v,
        Cmd::new("ifconfig").arg(ifname).arg("inet").arg(ip.as_str()).arg(gw.as_str()).arg("up"),
    );
    push_optional(v, Cmd::new("ifconfig").arg(ifname).arg("mtu").arg(mtu.as_str()));
}

/// The steps that bring the tunnel's interface up with the assigned addresses.
pub fn link_steps(welcome: &Welcome, ifname: &str) -> (r: Vec<NetStep>)
    ensures
        net_steps(r@) == link_plan(*welcome, ifname@),
{
    let mut v: Vec<NetStep> = Vec::new();
    assert(net_steps(v@) =~= Seq::<NetStepView>::empty());
    push_link4(&mut v, welcome, ifname);
    if let Some(ip6) = welcome.assigned_ip6 {
        let len: u8 = if welcome.prefix6 == 0 {
            1
        } else {
            welcome.prefix6
        };
        let text = decimal_text(len as u64);
        push_optional(
            &mut v,
            Cmd::new("ifconfig").arg(ifname).arg("inet6").arg(ip6.to_text().as_str()).arg(
                "prefixlen",
            ).arg(text.as_str()),
        );
    }
    v
}

/// The virtual subnet: the network that the assigned address is in.
pub open spec fn subnet_of(welcome: Welcome) -> Seq<char> {
    if welcome.prefix_len <= 32 {
        let n = Ipv4Net { addr: welcome.assigned_ip, prefix_len: welcome.prefix_len };
        dotted(n.base() as u32) + "/"@ + decimal(welcome.prefix_len as nat)
    } else {
        assigned_cidr(welcome)
    }
}

/// The virtual subnet.
pub fn subnet(welcome: &Welcome) -> (r: String)
    ensures
        r@ == subnet_of(*welcome),
{
    if welcome.prefix_len <= 32 {
        let n = Ipv4Net { addr: welcome.assigned_ip, prefix_len: welcome.prefix_len };
        let base = n.network();
        base.to_text().concat("/").concat(decimal_text(welcome.prefix_len as u64).as_str())
    } else {
        cidr_of(welcome)
    }
}

/// The step that sends the virtual subnet into the tunnel.
pub open spec fn subnet_step(welcome: Welcome, ifname: Seq<char>) -> NetStepView {
    optional_always_undone(
        program("route"@).arg("add"@).arg("-net"@).arg(subnet_of(welcome)).arg("-interface"@).arg(
            ifname,
        ),
        program("route"@).arg("delete"@).arg("-net"@).arg(subnet_of(welcome)),
    )
}

fn push_subnet(v: &mut Vec<NetStep>, welcome: &Welcome, ifname: &str)
    ensures
        net_steps(final(v)@) == net_steps(old(v)@).push(subnet_step(*welcome, ifname@)),
{
    let net = subnet(welcome);
    push_optional_always_undone(
        v,
        Cmd::new("route").arg("add").arg("-net").arg(net.as_str()).arg("-interface").arg(ifname),
        Cmd::new("route").arg("delete").arg("-net").arg(net.as_str()),
    );
}

/// What is known of the host's own network.
pub struct HostNet {
    /// Gateway of its default route.
    pub gw: Option<String>,
    /// Gateway of its IPv6 default route.
    pub gw6: Option<String>,
    /// The network service behind its default route.
    pub service: Option<String>,
    /// What `networksetup -getdnsservers` says of that service.
    pub dns: String,
    /// What `networksetup -getinfo` says of that service.
    pub info: String,
}

/// The step that keeps the server's address on the host's own route.
pub open spec fn pin(server_ip: IpAddr, gw: Seq<char>) -> NetStepView {
    optional_always_undone(
        program("route"@).arg("add"@).arg("-host"@).arg(ip_text(server_ip)).arg(gw),
        program("route"@).arg("delete"@).arg("-host"@).arg(ip_text(server_ip)),
    )
}

/// The step that sends one half of the IPv4 addresses into the tunnel.
pub open spec fn half4(net: Seq<char>, ifname: Seq<char>) -> NetStepView {
    needed_undone(
        program("route"@).arg("add"@).arg("-net"@).arg(net).arg("-interface"@).arg(ifname),
        program("route"@).arg("delete"@).arg("-net"@).arg(net),
    )
}

fn push_half4(v: &mut Vec<NetStep>, net: &str, ifname: &str)
    ensures
        net_steps(final(v)@) == net_steps(old(v)@).push(half4(net@, ifname@)),
{
    push_needed_undone(
        v,
        Cmd::new("route").arg("add").arg("-net").arg(net).arg("-interface").arg(ifname),
        Cmd::new("route").arg("delete").arg("-net").arg(net),
    );
}

/// The step that keeps the server's IPv6 address on the host's own route.
pub open spec fn pin6(server: Ipv6Addr, gw: Seq<char>) -> NetStepView {
    optional_always_undone(
        program("route"@).arg("add"@).arg("-inet6"@).arg("-host"@).arg(ipv6_text(server.bits)).arg(
            gw,
        ),
        program("route"@).arg("delete"@).arg("-inet6"@).arg("-host"@).arg(ipv6_text(server.bits)),
    )
}

/// The step that sends one half of the IPv6 addresses into the tunnel.
pub open spec fn half6(net: Seq<char>, ifname: Seq<char>) -> NetStepView {
    optional_always_undone(
        program("route"@).arg("add"@).arg("-inet6"@).arg("-net"@).arg(net).arg("-interface"@).arg(
            ifname,
        ),
        program("route"@).arg("delete"@).arg("-inet6"@).arg("-net"@).arg(net),
    )
}

fn push_half6(v: &mut Vec<NetStep>, net: &str, ifname: &str)
    ensures
        net_steps(final(v)@) == net_steps(old(v)@).push(half6(net@, ifname@)),
{
    push_optional_always_undone(
        v,
        Cmd::new("route").arg("add").arg("-inet6").arg("-net").arg(net).arg("-interface").arg(
            ifname,
        ),
        Cmd::new("route").arg("delete").arg("-inet6").arg("-net").arg(net),
    );
}

/// The command that sets IPv6 on a service as `info` says it is: off, by hand, or
/// automatic.
pub open spec fn v6_restore(service: Seq<char>, info: Seq<char>) -> CmdView {
    let ls = lines_of(info);
    let kind = field_of(ls, "IPv6:"@);
    if kind == Some("Off"@) {
        program("networksetup"@).arg("-setv6off"@).arg(service)
    } else {
        match (
            field_of(ls, "IPv6 IP address:"@),
            field_of(ls, "IPv6 Prefix Length:"@),
            field_of(ls, "IPv6 Router:"@),
        ) {
            (Some(address), Some(len), Some(router)) if kind == Some("Manual"@) => program(
                "networksetup"@,
            ).arg("-setv6manual"@).arg(service).arg(address).arg(len).arg(router),
            _ => program("networksetup"@).arg("-setv6automatic"@).arg(service),
        }
    }
}

fn restore_v6(service: &str, info: &str) -> (r: Cmd)
    ensures
        r@ == v6_restore(service@, info@),
{
    let (off, manual) = match find_field(info, "IPv6:") {
        Some(k) => (same(k.as_str(), "Off"), same(k.as_str(), "Manual")),
        None => (false, false),
    };
    if off {
        return Cmd::new("networksetup").arg("-setv6off").arg(service);
    }
    let address = find_field(info, "IPv6 IP address:");
    let len = find_field(info, "IPv6 Prefix Length:");
    let router = find_field(info, "IPv6 Router:");
    if manual {
        if let Some(a) = &address {
            if let Some(n) = &len {
                if let Some(g) = &router {
                    return Cmd::new("networksetup").arg("-setv6manual").arg(service).arg(
                        a.as_str(),
                    ).arg(n.as_str()).arg(g.as_str());
                }
            }
        }
    }
    Cmd::new("networksetup").arg("-setv6automatic").arg(service)
}

/// The step that turns IPv6 off on a service; `info` is what it is set to before.
pub open spec fn v6_off(service: Seq<char>, info: Seq<char>) -> NetStepView {
    optional_always_undone(
        program("networksetup"@).arg("-setv6off"@).arg(service),
        v6_restore(service, info),
    )
}

/// The steps that keep the host's IPv6 traffic from bypassing the tunnel: into the
/// tunnel if the server has IPv6, otherwise off.
pub open spec fn ipv6_plan(
    killswitch: bool,
    offered: bool,
    ifname: Seq<char>,
    server_ip: IpAddr,
    host: HostNet,
) -> Seq<NetStepView> {
    if offered {
        let pinned = match (server_ip, host.gw6) {
            (IpAddr::V6(s6), Some(gw)) => Seq::empty().push(pin6(s6, gw@)),
            _ => Seq::empty(),
        };
        pinned.push(half6("::/1"@, ifname)).push(half6("8000::/1"@, ifname))
    } else {
        match host.service {
            Some(s) if killswitch => Seq::empty().push(v6_off(s@, host.info@)),
            _ => Seq::empty(),
        }
    }
}

fn push_ipv6(
    v: &mut Vec<NetStep>,
    killswitch: bool,
    offered: bool,
    ifname: &str,
    server_ip: IpAddr,
    host: &HostNet,
)
    ensures
        net_steps(final(v)@) == net_steps(old(v)@) + ipv6_plan(
            killswitch,
            offered,
            ifname@,
            server_ip,
            *host,
        ),
{
    let ghost before = net_steps(v@);
    if offered {
        if let IpAddr::V6(s6) = server_ip {
            if let Some(gw) = &host.gw6 {
                let s = s6.to_text();
                push_optional_always_undone(
                    v,
                    Cmd::new("route").arg("add").arg("-inet6").arg("-host").arg(s.as_str()).arg(
                        gw.as_str(),
                    ),
                    Cmd::new("route").arg("delete").arg("-inet6").arg("-host").arg(s.as_str()),
                );
            }
        }
        push_half6(v, "::/1", ifname);
        push_half6(v, "8000::/1", ifname);
    } else if killswitch {
        if let Some(s) = &host.service {
            push_optional_always_undone(
                v,
                Cmd::new("networksetup").arg("-setv6off").arg(s.as_str()),
                restore_v6(s.as_str(), host.info.as_str()),
            );
        }
    }
    assert(net_steps(v@) =~= before + ipv6_plan(killswitch, offered, ifname@, server_ip, *host));
}

/// The texts of IPv4 addresses.
pub open spec fn texts4(v: Seq<Ipv4Addr>) -> Seq<Seq<char>> {
    v.map_values(|a: Ipv4Addr| dotted(a.bits))
}

/// The texts of IPv6 addresses.
pub open spec fn texts6(v: Seq<Ipv6Addr>) -> Seq<Seq<char>> {
    v.map_values(|a: Ipv6Addr| ipv6_text(a.bits))
}

/// The lines, once trimmed, that are addresses.
pub open spec fn addresses_in(lines: Seq<Seq<char>>) -> Seq<Seq<char>>
    decreases lines.len(),
{
    if lines.len() == 0 {
        Seq::empty()
    } else {
        let before = addresses_in(lines.drop_last());
        if ip_parsed(trimmed(lines.last())) is Some {
            before.push(trimmed(lines.last()))
        } else {
            before
        }
    }
}

/// The resolvers of a service, as arguments to set them: the list that was set, or
/// `empty`.
pub open spec fn former_dns(said: Seq<char>) -> Seq<Seq<char>> {
    let list = addresses_in(lines_of(said));
    if list.len() == 0 {
        Seq::empty().push("empty"@)
    } else {
        list
    }
}

/// The step that sets the resolvers of a service.
pub open spec fn dns_step(welcome: Welcome, service: Seq<char>, said: Seq<char>) -> NetStepView {
    let set = program("networksetup"@).arg("-setdnsservers"@).arg(service);
    optional_always_undone(
        with_args(set, texts4(welcome.dns@) + texts6(welcome.dns6@)),
        with_args(set, former_dns(said)),
    )
}

/// The command that restores the resolvers of a service.
fn restore_dns(service: &str, said: &str) -> (r: Cmd)
    ensures
        r@ == with_args(
            program("networksetup"@).arg("-setdnsservers"@).arg(service@),
            former_dns(said@),
        ),
{
    let mut c = Cmd::new("networksetup").arg("-setdnsservers").arg(service);
    let ghost base = c@;
    let ls = lines(said);
    let ghost all = texts(ls@);
    let n: usize = ls.len();
    let mut none = true;
    assert(all.take(0) =~= Seq::<Seq<char>>::empty());
    assert(c@.args =~= base.args + addresses_in(all.take(0)));
    for i in 0..n
        invariant
            n == ls@.len(),
            all == texts(ls@),
            all == lines_of(said@),
            c@.program == base.program,
            c@.args == base.args + addresses_in(all.take(i as int)),
            none <==> addresses_in(all.take(i as int)).len() == 0,
    {
        let ghost before = addresses_in(all.take(i as int));
        assert(all.take(i + 1).drop_last() =~= all.take(i as int));
        assert(all.take(i + 1).last() == ls@[i as int]@);
        let t = trim(ls[i].as_str());
        if IpAddr::parse(t.as_str()).is_some() {
            c = c.arg(t.as_str());
            none = false;
            assert((base.args + before).push(t@) =~= base.args + before.push(t@));
        }
    }
    assert(all.take(n as int) =~= all);
    if none {
        c = c.arg("empty");
        assert(c@.args =~= base.args + Seq::empty().push("empty"@));
    }
    c
}

/// The command that sets the resolvers of a service to the server's.
fn set_dns(welcome: &Welcome, service: &str) -> (r: Cmd)
    ensures
        r@ == with_args(
            program("networksetup"@).arg("-setdnsservers"@).arg(service@),
            texts4(welcome.dns@) + texts6(welcome.dns6@),
        ),
{
    let mut c = Cmd::new("networksetup").arg("-setdnsservers").arg(service);
    let ghost base = c@;
    let ghost t4 = texts4(welcome.dns@);
    let ghost t6 = texts6(welcome.dns6@);
    let n: usize = welcome.dns.len();
    assert(base.args + t4.take(0) =~= base.args);
    for i in 0..n
        invariant
            n == welcome.dns@.len(),
            t4 == texts4(welcome.dns@),
            c@.program == base.program,
            c@.args == base.args + t4.take(i as int),
    {
        let t = welcome.dns[i].to_text();
        c = c.arg(t.as_str());
        assert((base.args + t4.take(i as int)).push(t4[i as int]) =~= base.args + t4.take(i + 1));
    }
    assert(t4.take(n as int) =~= t4);
    let m: usize = welcome.dns6.len();
    assert(base.args + t4 + t6.take(0) =~= base.args + t4);
    for i in 0..m
        invariant
            m == welcome.dns6@.len(),
            t6 == texts6(welcome.dns6@),
            c@.program == base.program,
            c@.args == base.args + t4 + t6.take(i as int),
    {
        let t = welcome.dns6[i].to_text();
        c = c.arg(t.as_str());
        assert((base.args + t4 + t6.take(i as int)).push(t6[i as int]) =~= base.args + t4 + t6.take(
            i + 1,
        ));
    }
    assert(base.args + t4 + t6.take(m as int) =~= base.args + (t4 + t6));
    c
}

/// What a session does to the host's routes and services.
pub open spec fn plan(
    cfg: ClientConfig,
    welcome: Welcome,
    ifname: Seq<char>,
    server_ip: IpAddr,
    host: HostNet,
) -> Seq<NetStepView> {
    match cfg.mode {
        SessionMode::GlobalProxy => {
            let pinned = match host.gw {
                Some(gw) => Seq::empty().push(pin(server_ip, gw@)),
                None => Seq::empty(),
            };
            if cfg.split_mode == SplitMode::Whitelist {
                pinned
            } else {
                let routed = pinned.push(half4("0.0.0.0/1"@, ifname)).push(
                    half4("128.0.0.0/1"@, ifname),
                ) + ipv6_plan(
                    cfg.ipv6_killswitch,
                    welcome.assigned_ip6 is Some,
                    ifname,
                    server_ip,
                    host,
                );
                match host.service {
                    Some(s) if resolv_of(cfg, welcome) is Some => routed.push(
                        dns_step(welcome, s@, host.dns@),
                    ),
                    _ => routed,
                }
            }
        },
        SessionMode::Vpn => Seq::empty().push(subnet_step(welcome, ifname)),
        _ => Seq::empty(),
    }
}

/// What a session does to the host's routes, services and resolvers.
pub fn apply(
    cfg: &ClientConfig,
    welcome: &Welcome,
    ifname: &str,
    server_ip: IpAddr,
    host: &HostNet,
) -> (r: NetPlan)
    ensures
        net_steps(r.steps@) == plan(*cfg, *welcome, ifname@, server_ip, *host),
        match resolv_of(*cfg, *welcome) {
            Some(t) => r.resolv is Some && r.resolv->Some_0@ == t,
            None => r.resolv is None,
        },
{
    let mut v: Vec<NetStep> = Vec::new();
    assert(net_steps(v@) =~= Seq::<NetStepView>::empty());
    let resolv = resolv_for(cfg, welcome);
    match cfg.mode {
        SessionMode::GlobalProxy => {
            if let Some(gw) = &host.gw {
                let s = server_ip.to_text();
                push_optional_always_undone(
                    &mut v,
                    Cmd::new("route").arg("add").arg("-host").arg(s.as_str()).arg(gw.as_str()),
                    Cmd::new("route").arg("delete").arg("-host").arg(s.as_str()),
                );
            }
            if cfg.split_mode != SplitMode::Whitelist {
                push_half4(&mut v, "0.0.0.0/1", ifname);
                push_half4(&mut v, "128.0.0.0/1", ifname);
                let offered = welcome.assigned_ip6.is_some();
                push_ipv6(&mut v, cfg.ipv6_killswitch, offered, ifname, server_ip, host);
                if resolv.is_some() {
                    if let Some(s) = &host.service {
                        push_optional_always_undone(
                            &mut v,
                            set_dns(welcome, s.as_str()),
                            restore_dns(s.as_str(), host.dns.as_str()),
                        );
                    }
                }
            }
        },
        SessionMode::Vpn => {
            push_subnet(&mut v, welcome, ifname);
        },
        _ => {},
    }
    NetPlan { steps: v, resolv }
}

/// The steps that join the peer LAN beside another mode: only the virtual subnet
/// goes through the tunnel.
pub open spec fn lan_plan(welcome: Welcome, ifname: Seq<char>) -> Seq<NetStepView> {
    Seq::empty().push(
        needed(
            program("ifconfig"@).arg(ifname).arg("inet"@).arg(dotted(welcome.assigned_ip.bits)).arg(
                dotted(welcome.gateway.bits),
            ).arg("up"@),
        ),
    ).push(
        optional(
            program("ifconfig"@).arg(ifname).arg("mtu"@).arg(decimal(welcome.mtu as nat)),
        ),
    ).push(subnet_step(welcome, ifname))
}

/// The steps that join the peer LAN beside another mode.
pub fn apply_vpn_lan(welcome: &Welcome, ifname: &str) -> (r: Vec<NetStep>)
    ensures
        net_steps(r@) == lan_plan(*welcome, ifname@),
{
    let mut v: Vec<NetStep> = Vec::new();
    assert(net_steps(v@) =~= Seq::<NetStepView>::empty());
    push_link4(&mut v, welcome, ifname);
    push_subnet(&mut v, welcome, ifname);
    v
}

/// All IPv4 traffic goes into the tunnel whenever the session takes over the whole
/// traffic: one route for each half of the addresses.
pub proof fn law_ipv4_goes_through_the_tunnel(
    cfg: ClientConfig,
    welcome: Welcome,
    ifname: Seq<char>,
    server_ip: IpAddr,
    host: HostNet,
)
    requires
        captures_all(cfg),
    ensures
        plan(cfg, welcome, ifname, server_ip, host).contains(half4("0.0.0.0/1"@, ifname)),
        plan(cfg, welcome, ifname, server_ip, host).contains(half4("128.0.0.0/1"@, ifname)),
{
    let p = plan(cfg, welcome, ifname, server_ip, host);
    let at: int = if host.gw is Some {
        1
    } else {
        0
    };
    assert(p[at] == half4("0.0.0.0/1"@, ifname));
    assert(p[at + 1] == half4("128.0.0.0/1"@, ifname));
}

/// The server's own address stays on the host's route whenever traffic is taken over,
/// before anything else: otherwise the tunnel would run into itself.
pub proof fn law_server_is_pinned_first(
    cfg: ClientConfig,
    welcome: Welcome,
    ifname: Seq<char>,
    server_ip: IpAddr,
    host: HostNet,
)
    requires
        cfg.mode == SessionMode::GlobalProxy,
        host.gw is Some,
    ensures
        plan(cfg, welcome, ifname, server_ip, host).len() > 0,
        plan(cfg, welcome, ifname, server_ip, host)[0] == pin(server_ip, host.gw->Some_0@),
{
}

/// With a server that has no IPv6, the protection against leaks turns IPv6 off on
/// the host's own service whenever the session takes over the whole traffic.
pub proof fn law_no_ipv6_leak(
    cfg: ClientConfig,
    welcome: Welcome,
    ifname: Seq<char>,
    server_ip: IpAddr,
    host: HostNet,
)
    requires
        captures_all(cfg),
        cfg.ipv6_killswitch,
        welcome.assigned_ip6 is None,
        host.service is Some,
    ensures
        plan(cfg, welcome, ifname, server_ip, host).contains(
            v6_off(host.service->Some_0@, host.info@),
        ),
{
    let p = plan(cfg, welcome, ifname, server_ip, host);
    let at: int = if host.gw is Some {
        3
    } else {
        2
    };
    assert(p[at] == v6_off(host.service->Some_0@, host.info@));
}

/// In whitelist mode nothing is taken over but what rules name: the only step of
/// the global mode pins the server's address, and the resolvers stay as they are.
pub proof fn law_whitelist_takes_nothing(
    cfg: ClientConfig,
    welcome: Welcome,
    ifname: Seq<char>,
    server_ip: IpAddr,
    host: HostNet,
)
    requires
        cfg.mode == SessionMode::GlobalProxy,
        cfg.split_mode == SplitMode::Whitelist,
    ensures
        resolv_of(cfg, welcome) is None,
        forall|i: int|
            0 <= i < plan(cfg, welcome, ifname, server_ip, host).len() ==> host.gw is Some
                && #[trigger] plan(cfg, welcome, ifname, server_ip, host)[i] == pin(
                server_ip,
                host.gw->Some_0@,
            ),
{
}

}
