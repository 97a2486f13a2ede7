//! Network configuration on Linux, through `ip`.

use vstd::prelude::*;
use vstd::string::*;

use super::{
    assigned_cidr, at_least_one, captures_all, cidr_of, needed, needed_undone, net_steps, optional,
    optional_always_undone, push_needed, push_needed_undone, push_optional,
    push_optional_always_undone, resolv_for, resolv_of, NetPlan, NetStep, NetStepView,
};
use crate::addr::{ip_text, ipv6_text, IpAddr, Ipv6Addr};
use crate::client::config::{ClientConfig, SplitMode};
use crate::cmd::{program, Cmd};
use crate::config::SessionMode;
use crate::protocol::Welcome;
use crate::text::{
    decimal, decimal_text, find_word_after, lines, lines_of, lossy, lossy_text, texts, word_after,
    words_of,
};

verus! {

/// Gateway and interface of a default route, out of the first line that `ip route
/// show default` says.
pub open spec fn route_in(text: Seq<char>) -> Option<(Seq<char>, Seq<char>)> {
    let first = lines_of(text);
    let words = if first.len() > 0 {
        words_of(first[0])
    } else {
        words_of(""@)
    };
    match (word_after(words, "via"@), word_after(words, "dev"@)) {
        (Some(gw), Some(dev)) => Some((gw, dev)),
        _ => None,
    }
}

/// Gateway and interface of a default route, out of the text that `ip route show
/// default` says.
pub fn route_from(text: &str) -> (r: Option<(String, String)>)
    ensures
        match route_in(text@) {
            Some((gw, dev)) => r is Some && r->Some_0.0@ == gw && r->Some_0.1@ == dev,
            None => r is None,
        },
{
    let ls = lines(text);
    assert(texts(ls@).len() == ls@.len());
    let first = if ls.len() > 0 {
        assert(texts(ls@)[0] == ls@[0]@);
        ls[0].as_str()
    } else {
        ""
    };
    match (find_word_after(first, "via"), find_word_after(first, "dev")) {
        (Some(gw), Some(dev)) => Some((gw, dev)),
        _ => None,
    }
}

/// Gateway and interface of the default route, out of what `ip route show
/// default` says. None if there is none.
pub fn default_route(stdout: &[u8]) -> (r: Option<(String, String)>)
    ensures
        match route_in(lossy_text(stdout@)) {
            Some((gw, dev)) => r is Some && r->Some_0.0@ == gw && r->Some_0.1@ == dev,
            None => r is None,
        },
{
    let text = lossy(stdout);
    route_from(text.as_str())
}

/// The steps that bring the tunnel's interface up with the assigned addresses.
pub open spec fn link_plan(welcome: Welcome, ifname: Seq<char>) -> Seq<NetStepView> {
    let v4 = Seq::empty().push(
        needed(program("ip"@).arg("addr"@).arg("add"@).arg(assigned_cidr(welcome)).arg("dev"@).arg(ifname)),
    ).push(
        needed(
            program("ip"@).arg("link"@).arg("set"@).arg("dev"@).arg(ifname).arg("mtu"@).arg(
                decimal(welcome.mtu as nat),
            ),
        ),
    ).push(needed(program("ip"@).arg("link"@).arg("set"@).arg("dev"@).arg(ifname).arg("up"@)));
    match welcome.assigned_ip6 {
        Some(ip6) => v4.push(
            optional(
                program("ip"@).arg("-6"@).arg("addr"@).arg("add"@).arg(
                    ipv6_text(ip6.bits) + "/"@ + decimal(at_least_one(welcome.prefix6) as nat),
                ).arg("dev"@).arg(ifname),
            ),
        ),
        None => v4,
    }
}

fn push_link4(v: &mut Vec<NetStep>, welcome: &Welcome, ifname: &str)
    ensures
        net_steps(final(v)@) == net_steps(old(v)@).push(
            needed(
                program("ip"@).arg("addr"@).arg("add"@).arg(assigned_cidr(*welcome)).arg("dev"@).arg(
                    ifname@,
                ),
            ),
        ).push(
            needed(
                program("ip"@).arg("link"@).arg("set"@).arg("dev"@).arg(ifname@).arg("mtu"@).arg(
                    decimal(welcome.mtu as nat),
                ),
            ),
        ).push(
            needed(program("ip"@).arg("link"@).arg("set"@).arg("dev"@).arg(ifname@).arg("up"@)),
        ),
{
    let cidr = cidr_of(welcome);
    let mtu = decimal_text(welcome.mtu as u64);
    push_needed(
        v,
        Cmd::new("ip").arg("addr").arg("add").arg(cidr.as_str()).arg("dev").arg(ifname),
    );
    push_needed(
        v,
        Cmd::new("ip").arg("link").arg("set").arg("dev").arg(ifname).arg("mtu").arg(mtu.as_str()),
    );
    push_needed(v, Cmd::new("ip").arg("link").arg("set").arg("dev").arg(ifname).arg("up"));
}

/// The steps that bring the tunnel's interface up with the assigned addresses.
/// They need no undoing: the addresses go with the interface.
pub fn link_steps(welcome: &Welcome, ifname: &str) -> (r: Vec<NetStep>)
    ensures
        net_steps(r@) == link_plan(*welcome, ifname@),
{
    let mut v: Vec<NetStep> = Vec::new();
    assert(net_steps(v@) =~= Seq::<NetStepView>::empty());
    push_link4(&mut v, welcome, ifname);
    if let Some(ip6) = welcome.assigned_ip6 {
        let len: u8 = if welcome.prefix6 == 0 {
            1
        } else {
            welcome.prefix6
        };
        let cidr6 = ip6.to_text().concat("/").concat(decimal_text(len as u64).as_str());
        push_optional(
            &mut v,
            Cmd::new("ip").arg("-6").arg("addr").arg("add").arg(cidr6.as_str()).arg("dev").arg(
                ifname,
            ),
        );
    }
    v
}

/// The step that keeps the server's address on the host's own route.
pub open spec fn pin(server_ip: IpAddr, gw: Seq<char>, dev: Seq<char>) -> NetStepView {
    let host = ip_text(server_ip) + "/32"@;
    optional_always_undone(
        program("ip"@).arg("route"@).arg("add"@).arg(host).arg("via"@).arg(gw).arg("dev"@).arg(dev),
        program("ip"@).arg("route"@).arg("del"@).arg(host),
    )
}

/// The step that sends one half of the IPv4 addresses into the tunnel.
pub open spec fn half4(net: Seq<char>, ifname: Seq<char>) -> NetStepView {
    needed_undone(
        program("ip"@).arg("route"@).arg("add"@).arg(net).arg("dev"@).arg(ifname),
        program("ip"@).arg("route"@).arg("del"@).arg(net),
    )
}

/// The step that keeps the server's IPv6 address on the host's own route.
pub open spec fn pin6(server: Ipv6Addr, gw: Seq<char>, dev: Seq<char>) -> NetStepView {
    let host = ipv6_text(server.bits) + "/128"@;
    optional_always_undone(
        program("ip"@).arg("-6"@).arg("route"@).arg("add"@).arg(host).arg("via"@).arg(gw).arg(
            "dev"@,
        ).arg(dev),
        program("ip"@).arg("-6"@).arg("route"@).arg("del"@).arg(host),
    )
}

/// The step that sends one half of the IPv6 addresses into the tunnel.
pub open spec fn half6(net: Seq<char>, ifname: Seq<char>) -> NetStepView {
    optional_always_undone(
        program("ip"@).arg("-6"@).arg("route"@).arg("add"@).arg(net).arg("dev"@).arg(ifname),
        program("ip"@).arg("-6"@).arg("route"@).arg("del"@).arg(net),
    )
}

/// The step that makes one half of the IPv6 addresses unreachable.
pub open spec fn blocked6(net: Seq<char>) -> NetStepView {
    optional_always_undone(
        program("ip"@).arg("-6"@).arg("route"@).arg("add"@).arg("unreachable"@).arg(net),
        program("ip"@).arg("-6"@).arg("route"@).arg("del"@).arg(net),
    )
}

/// The steps that keep the host's IPv6 traffic from bypassing the tunnel: into the
/// tunnel if the server has IPv6, otherwise nowhere.
pub open spec fn ipv6_plan(
    killswitch: bool,
    offered: bool,
    ifname: Seq<char>,
    server_ip: IpAddr,
    orig6: Option<(String, String)>,
) -> Seq<NetStepView> {
    if offered {
        let pinned = match (server_ip, orig6) {
            (IpAddr::V6(s6), Some((gw, dev))) => Seq::empty().push(pin6(s6, gw@, dev@)),
            _ => Seq::empty(),
        };
        pinned.push(half6("::/1"@, ifname)).push(half6("8000::/1"@, ifname))
    } else if killswitch {
        Seq::empty().push(blocked6("::/1"@)).push(blocked6("8000::/1"@))
    } else {
        Seq::empty()
    }
}

/// What a session does to the host's routes.
pub open spec fn plan(
    cfg: ClientConfig,
    welcome: Welcome,
    ifname: Seq<char>,
    server_ip: IpAddr,
    orig: Option<(String, String)>,
    orig6: Option<(String, String)>,
) -> Seq<NetStepView> {
    if cfg.mode == SessionMode::GlobalProxy {
        let pinned = match orig {
            Some((gw, dev)) => Seq::empty().push(pin(server_ip, gw@, dev@)),
            None => Seq::empty(),
        };
        if cfg.split_mode == SplitMode::Whitelist {
            pinned
        } else {
            pinned.push(half4("0.0.0.0/1"@, ifname)).push(half4("128.0.0.0/1"@, ifname))
                + ipv6_plan(
                cfg.ipv6_killswitch,
                welcome.assigned_ip6 is Some,
                ifname,
                server_ip,
                orig6,
            )
        }
    } else {
        Seq::empty()
    }
}

fn push_half4(v: &mut Vec<NetStep>, net: &str, ifname: &str)
    ensures
        net_steps(final(v)@) == net_steps(old(v)@).push(half4(net@, ifname@)),
{
    push_needed_undone(
        v,
        Cmd::new("ip").arg("route").arg("add").arg(net).arg("dev").arg(ifname),
        Cmd::new("ip").arg("route").arg("del").arg(net),
    );
}

fn push_half6(v: &mut Vec<NetStep>, net: &str, ifname: &str)
    ensures
        net_steps(final(v)@) == net_steps(old(v)@).push(half6(net@, ifname@)),
{
    push_optional_always_undone(
        v,
        Cmd::new("ip").arg("-6").arg("route").arg("add").arg(net).arg("dev").arg(ifname),
        Cmd::new("ip").arg("-6").arg("route").arg("del").arg(net),
    );
}

fn push_blocked6(v: &mut Vec<NetStep>, net: &str)
    ensures
        net_steps(final(v)@) == net_steps(old(v)@).push(blocked6(net@)),
{
    push_optional_always_undone(
        v,
        Cmd::new("ip").arg("-6").arg("route").arg("add").arg("unreachable").arg(net),
        Cmd::new("ip").arg("-6").arg("route").arg("del").arg(net),
    );
}

fn push_ipv6(
    v: &mut Vec<NetStep>,
    killswitch: bool,
    offered: bool,
    ifname: &str,
    server_ip: IpAddr,
    orig6: &Option<(String, String)>,
)
    ensures
        net_steps(final(v)@) == net_steps(old(v)@) + ipv6_plan(
            killswitch,
            offered,
            ifname@,
            server_ip,
            *orig6,
        ),
{
    let ghost before = net_steps(v@);
    if offered {
        if let IpAddr::V6(s6) = server_ip {
            if let Some((gw, dev)) = orig6 {
                let host = s6.to_text().concat("/128");
                push_optional_always_undone(
                    v,
                    Cmd::new("ip").arg("-6").arg("route").arg("add").arg(host.as_str()).arg(
                        "via",
                    ).arg(gw.as_str()).arg("dev").arg(dev.as_str()),
                    Cmd::new("ip").arg("-6").arg("route").arg("del").arg(host.as_str()),
                );
            }
        }
        push_half6(v, "::/1", ifname);
        push_half6(v, "8000::/1", ifname);
    } else if killswitch {
        push_blocked6(v, "::/1");
        push_blocked6(v, "8000::/1");
    }
    assert(net_steps(v@) =~= before + ipv6_plan(killswitch, offered, ifname@, server_ip, *orig6));
}

/// What a session does to the host's routes and resolvers; `orig` and `orig6` are
/// the host's own default routes.
pub fn apply(
    cfg: &ClientConfig,
    welcome: &Welcome,
    ifname: &str,
    server_ip: IpAddr,
    orig: &Option<(String, String)>,
    orig6: &Option<(String, String)>,
) -> (r: NetPlan)
    ensures
        net_steps(r.steps@) == plan(*cfg, *welcome, ifname@, server_ip, *orig, *orig6),
        match resolv_of(*cfg, *welcome) {
            Some(t) => r.resolv is Some && r.resolv->Some_0@ == t,
            None => r.resolv is None,
        },
{
    let mut v: Vec<NetStep> = Vec::new();
    assert(net_steps(v@) =~= Seq::<NetStepView>::empty());
    if cfg.mode == SessionMode::GlobalProxy {
        if let Some((gw, dev)) = orig {
            let host = server_ip.to_text().concat("/32");
            push_optional_always_undone(
                &mut v,
                Cmd::new("ip").arg("route").arg("add").arg(host.as_str()).arg("via").arg(
                    gw.as_str(),
                ).arg("dev").arg(dev.as_str()),
                Cmd::new("ip").arg("route").arg("del").arg(host.as_str()),
            );
        }
        if cfg.split_mode != SplitMode::Whitelist {
            push_half4(&mut v, "0.0.0.0/1", ifname);
            push_half4(&mut v, "128.0.0.0/1", ifname);
            let offered = welcome.assigned_ip6.is_some();
            push_ipv6(&mut v, cfg.ipv6_killswitch, offered, ifname, server_ip, orig6);
        }
    }
    let resolv = resolv_for(cfg, welcome);
    NetPlan { steps: v, resolv }
}

/// The steps that join the peer LAN beside another mode: only the virtual subnet
/// goes through the tunnel.
pub open spec fn lan_plan(welcome: Welcome, ifname: Seq<char>) -> Seq<NetStepView> {
    Seq::empty().push(
        needed(
            program("ip"@).arg("addr"@).arg("add"@).arg(assigned_cidr(welcome)).arg("dev"@).arg(
                ifname,
            ),
        ),
    ).push(
        needed(
            program("ip"@).arg("link"@).arg("set"@).arg("dev"@).arg(ifname).arg("mtu"@).arg(
                decimal(welcome.mtu as nat),
            ),
        ),
    ).push(
        needed_undone(
            program("ip"@).arg("link"@).arg("set"@).arg("dev"@).arg(ifname).arg("up"@),
            program("ip"@).arg("addr"@).arg("del"@).arg(assigned_cidr(welcome)).arg("dev"@).arg(
                ifname,
            ),
        ),
    )
}

/// The steps that join the peer LAN beside another mode.
pub fn apply_vpn_lan(welcome: &Welcome, ifname: &str) -> (r: Vec<NetStep>)
    ensures
        net_steps(r@) == lan_plan(*welcome, ifname@),
{
    let mut v: Vec<NetStep> = Vec::new();
    assert(net_steps(v@) =~= Seq::<NetStepView>::empty());
    let cidr = cidr_of(welcome);
    let mtu = decimal_text(welcome.mtu as u64);
    push_needed(
        &mut v,
        Cmd::new("ip").arg("addr").arg("add").arg(cidr.as_str()).arg("dev").arg(ifname),
    );
    push_needed(
        &mut v,
        Cmd::new("ip").arg("link").arg("set").arg("dev").arg(ifname).arg("mtu").arg(mtu.as_str()),
    );
    push_needed_undone(
        &mut v,
        Cmd::new("ip").arg("link").arg("set").arg("dev").arg(ifname).arg("up"),
        Cmd::new("ip").arg("addr").arg("del").arg(cidr.as_str()).arg("dev").arg(ifname),
    );
    v
}

/// All IPv4 traffic goes into the tunnel whenever the session takes over the whole
/// traffic: one route for each half of the addresses.
pub proof fn law_ipv4_goes_through_the_tunnel(
    cfg: ClientConfig,
    welcome: Welcome,
    ifname: Seq<char>,
    server_ip: IpAddr,
    orig: Option<(String, String)>,
    orig6: Option<(String, String)>,
)
    requires
        captures_all(cfg),
    ensures
        plan(cfg, welcome, ifname, server_ip, orig, orig6).contains(half4("0.0.0.0/1"@, ifname)),
        plan(cfg, welcome, ifname, server_ip, orig, orig6).contains(half4("128.0.0.0/1"@, ifname)),
{
    let p = plan(cfg, welcome, ifname, server_ip, orig, orig6);
    let at: int = if orig is Some {
        1
    } else {
        0
    };
    assert(p[at] == half4("0.0.0.0/1"@, ifname));
    assert(p[at + 1] == half4("128.0.0.0/1"@, ifname));
}

/// With a server that has no IPv6, the protection against leaks makes all IPv6
/// addresses unreachable whenever the session takes over the whole traffic, and
/// undoes that afterwards.
pub proof fn law_no_ipv6_leak(
    cfg: ClientConfig,
    welcome: Welcome,
    ifname: Seq<char>,
    server_ip: IpAddr,
    orig: Option<(String, String)>,
    orig6: Option<(String, String)>,
)
    requires
        captures_all(cfg),
        cfg.ipv6_killswitch,
        welcome.assigned_ip6 is None,
    ensures
        plan(cfg, welcome, ifname, server_ip, orig, orig6).contains(blocked6("::/1"@)),
        plan(cfg, welcome, ifname, server_ip, orig, orig6).contains(blocked6("8000::/1"@)),
{
    let p = plan(cfg, welcome, ifname, server_ip, orig, orig6);
    assert(p[p.len() - 2] == blocked6("::/1"@));
    assert(p[p.len() - 1] == blocked6("8000::/1"@));
}

/// With a server that has IPv6, all IPv6 traffic goes into the tunnel whenever the
/// session takes over the whole traffic.
pub proof fn law_ipv6_goes_through_the_tunnel(
    cfg: ClientConfig,
    welcome: Welcome,
    ifname: Seq<char>,
    server_ip: IpAddr,
    orig: Option<(String, String)>,
    orig6: Option<(String, String)>,
)
    requires
        captures_all(cfg),
        welcome.assigned_ip6 is Some,
    ensures
        plan(cfg, welcome, ifname, server_ip, orig, orig6).contains(half6("::/1"@, ifname)),
        plan(cfg, welcome, ifname, server_ip, orig, orig6).contains(half6("8000::/1"@, ifname)),
{
    let p = plan(cfg, welcome, ifname, server_ip, orig, orig6);
    assert(p[p.len() - 2] == half6("::/1"@, ifname));
    assert(p[p.len() - 1] == half6("8000::/1"@, ifname));
}

/// The server's own address stays on the host's route whenever traffic is taken
/// over, before anything else: otherwise the tunnel would run into itself.
pub proof fn law_server_is_pinned_first(
    cfg: ClientConfig,
    welcome: Welcome,
    ifname: Seq<char>,
    server_ip: IpAddr,
    gw: String,
    dev: String,
    orig6: Option<(String, String)>,
)
    requires
        cfg.mode == SessionMode::GlobalProxy,
    ensures
        plan(cfg, welcome, ifname, server_ip, Some((gw, dev)), orig6).len() > 0,
        plan(cfg, welcome, ifname, server_ip, Some((gw, dev)), orig6)[0] == pin(
            server_ip,
            gw@,
            dev@,
        ),
{
}

/// In whitelist mode nothing is taken over but what rules name: the only step pins
/// the server's address, and the resolvers stay as they are.
pub proof fn law_whitelist_takes_nothing(
    cfg: ClientConfig,
    welcome: Welcome,
    ifname: Seq<char>,
    server_ip: IpAddr,
    orig: Option<(String, String)>,
    orig6: Option<(String, String)>,
)
    requires
        cfg.split_mode == SplitMode::Whitelist,
    ensures
        resolv_of(cfg, welcome) is None,
        forall|i: int|
            0 <= i < plan(cfg, welcome, ifname, server_ip, orig, orig6).len() ==> orig is Some
                && #[trigger] plan(cfg, welcome, ifname, server_ip, orig, orig6)[i] == pin(
                server_ip,
                orig->Some_0.0@,
                orig->Some_0.1@,
            ),
{
}

}
