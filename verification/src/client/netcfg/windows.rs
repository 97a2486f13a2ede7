//! Network configuration on Windows, through `netsh` and `route`.

use vstd::prelude::*;
use vstd::string::*;

use super::{
    captures_all, net_steps, optional, optional_undone, push_optional, push_optional_undone,
    NetStep, NetStepView,
};
use crate::addr::{dotted, ip_text, ipv6_text, undotted, IpAddr, Ipv4Addr, Ipv4Net, Ipv6Addr};
use crate::client::config::{ClientConfig, SplitMode};
use crate::cmd::{program, Cmd, CmdView};
use crate::config::SessionMode;
use crate::error::{Error, Failure};
use crate::protocol::Welcome;
use crate::text::{
    decimal, decimal_text, lines, lines_of, same, split_whitespace, texts, words_of,
};

verus! {

/// The mask of a prefix length: as many leading ones, at most 32.
pub open spec fn mask_of(prefix: u8) -> u32 {
    (Ipv4Net {
        addr: Ipv4Addr { bits: 0 },
        prefix_len: if prefix > 32 {
            32
        } else {
            prefix
        },
    }).mask() as u32
}

/// The mask of a prefix length, as text.
pub fn prefix_to_mask(prefix: u8) -> (r: String)
    ensures
        r@ == dotted(mask_of(prefix)),
{
    let len: u8 = if prefix > 32 {
        32
    } else {
        prefix
    };
    let n = Ipv4Net { addr: Ipv4Addr { bits: 0 }, prefix_len: len };
    let mask = n.netmask();
    mask.to_text()
}

/// The gateway that a line of `route print` names, if it is the line of a default
/// route with one.
pub open spec fn gateway_in(line: Seq<char>) -> Option<Seq<char>> {
    let cols = words_of(line);
    if cols.len() >= 3 && cols[0] == "0.0.0.0"@ && cols[1] == "0.0.0.0"@ && cols[2] != "On-link"@
        && undotted(cols[2]) is Some {
        Some(cols[2])
    } else {
        None
    }
}

/// The gateway of the first such line.
pub open spec fn gateway_of(lines: Seq<Seq<char>>) -> Option<Seq<char>>
    decreases lines.len(),
{
    if lines.len() == 0 {
        None
    } else {
        match gateway_in(lines[0]) {
            Some(g) => Some(g),
            None => gateway_of(lines.skip(1)),
        }
    }
}

/// The gateway of the default route, out of what `route print -4 0.0.0.0` says.
pub fn default_gateway(text: &str) -> (r: Option<String>)
    ensures
        match gateway_of(lines_of(text@)) {
            Some(g) => r is Some && r->Some_0@ == g,
            None => r is None,
        },
{
    let ls = lines(text);
    let n: usize = ls.len();
    let ghost all = texts(ls@);
    let mut i: usize = 0;
    assert(all.skip(0) =~= all);
    while i < n
        invariant
            n == ls@.len(),
            i <= n,
            all == texts(ls@),
            all == lines_of(text@),
            gateway_of(all) == gateway_of(all.skip(i as int)),
        decreases n - i,
    {
        assert(all.skip(i as int)[0] == ls@[i as int]@);
        assert(all.skip(i as int).skip(1) =~= all.skip(i + 1));
        let cols = split_whitespace(ls[i].as_str());
        assert(texts(cols@).len() == cols@.len());
        if cols.len() >= 3 {
            assert(texts(cols@)[0] == cols@[0]@);
            assert(texts(cols@)[1] == cols@[1]@);
            assert(texts(cols@)[2] == cols@[2]@);
            if same(cols[0].as_str(), "0.0.0.0") && same(cols[1].as_str(), "0.0.0.0") && !same(
                cols[2].as_str(),
                "On-link",
            ) && Ipv4Addr::parse(cols[2].as_str()).is_some() {
                return Some(cols[2].clone());
            }
        }
        i = i + 1;
    }
    None
}

/// How often assigning the address is tried: the adapter can take a moment.
pub const ADDRESS_TRIES: u8 = 10;

/// How long to wait between two tries, in milliseconds.
pub const ADDRESS_RETRY_MS: u64 = 300;

/// What to do about the adapter's address.
pub enum AddressStep {
    /// Run the command, and again after a pause if it fails.
    Try(Cmd),
    /// The address is assigned: set the packet size, and ignore a failure of that.
    Done(Cmd),
    Failed(Error),
}

pub enum AddressStepView {
    Try(CmdView),
    Done(CmdView),
    Failed(Failure),
}

impl View for AddressStep {
    type V = AddressStepView;

    open spec fn view(&self) -> AddressStepView {
        match self {
            AddressStep::Try(c) => AddressStepView::Try(c@),
            AddressStep::Done(c) => AddressStepView::Done(c@),
            AddressStep::Failed(e) => AddressStepView::Failed(e@),
        }
    }
}

/// What to do about the adapter's address after `tries` tries, of which the last
/// one succeeded if `ok`.
pub open spec fn address_step(
    ifname: Seq<char>,
    welcome: Welcome,
    tries: u8,
    ok: bool,
) -> AddressStepView {
    let ip = dotted(welcome.assigned_ip.bits);
    let mask = dotted(mask_of(welcome.prefix_len));
    if ok {
        AddressStepView::Done(
            program("netsh"@).arg("interface"@).arg("ipv4"@).arg("set"@).arg("subinterface"@).arg(
                ifname,
            ).arg("mtu="@ + decimal(welcome.mtu as nat)).arg("store=active"@),
        )
    } else if tries < ADDRESS_TRIES {
        AddressStepView::Try(
            program("netsh"@).arg("interface"@).arg("ipv4"@).arg("set"@).arg("address"@).arg(
                ifname,
            ).arg("static"@).arg(ip).arg(mask),
        )
    } else {
        AddressStepView::Failed(
            Failure::Transport(
                "could not assign "@ + ip + " "@ + mask + " to "@ + ifname + " via netsh"@,
            ),
        )
    }
}

/// What to do about the adapter's address after `tries` tries, of which the last
/// one succeeded if `ok`.
pub fn set_adapter_ipv4(ifname: &str, welcome: &Welcome, tries: u8, ok: bool) -> (r: AddressStep)
    ensures
        r@ == address_step(ifname@, *welcome, tries, ok),
{
    let ip = welcome.assigned_ip.to_text();
    let mask = prefix_to_mask(welcome.prefix_len);
    if ok {
        let mtu = "mtu=".to_owned().concat(decimal_text(welcome.mtu as u64).as_str());
        AddressStep::Done(
            Cmd::new("netsh").arg("interface").arg("ipv4").arg("set").arg("subinterface").arg(
                ifname,
            ).arg(mtu.as_str()).arg("store=active"),
        )
    } else if tries < ADDRESS_TRIES {
        AddressStep::Try(
            Cmd::new("netsh").arg("interface").arg("ipv4").arg("set").arg("address").arg(
                ifname,
            ).arg("static").arg(ip.as_str()).arg(mask.as_str()),
        )
    } else {
        AddressStep::Failed(
            Error::Transport(
                "could not assign ".to_owned().concat(ip.as_str()).concat(" ").concat(
                    mask.as_str(),
                ).concat(" to ").concat(ifname).concat(" via netsh"),
            ),
        )
    }
}

/// The step that assigns the IPv6 address, if the server has IPv6.
pub open spec fn link6_plan(welcome: Welcome, ifname: Seq<char>) -> Seq<NetStepView> {
    match welcome.assigned_ip6 {
        Some(ip6) => Seq::empty().push(
            optional(
                program("netsh"@).arg("interface"@).arg("ipv6"@).arg("add"@).arg("address"@).arg(
                    ifname,
                ).arg(ipv6_text(ip6.bits)),
            ),
        ),
        None => Seq::empty(),
    }
}

/// The step that assigns the IPv6 address, if the server has IPv6.
pub fn link6_steps(welcome: &Welcome, ifname: &str) -> (r: Vec<NetStep>)
    ensures
        net_steps(r@) == link6_plan(*welcome, ifname@),
{
    let mut v: Vec<NetStep> = Vec::new();
    assert(net_steps(v@) =~= Seq::<NetStepView>::empty());
    if let Some(ip6) = welcome.assigned_ip6 {
        let a = ip6.to_text();
        push_optional(
            &mut v,
            Cmd::new("netsh").arg("interface").arg("ipv6").arg("add").arg("address").arg(
                ifname,
            ).arg(a.as_str()),
        );
    }
    v
}

/// The step that keeps the server's address on the host's own route.
pub open spec fn pin(server_ip: IpAddr, gw: Seq<char>) -> NetStepView {
    optional_undone(
        program("route"@).arg("add"@).arg(ip_text(server_ip)).arg("mask"@).arg(
            "255.255.255.255"@,
        ).arg(gw),
        program("route"@).arg("delete"@).arg(ip_text(server_ip)),
    )
}

/// The step that sends one half of the IPv4 addresses into the tunnel.
pub open spec fn half4(net: Seq<char>, tun_gw: Seq<char>, idx: u32) -> NetStepView {
    optional_undone(
        program("route"@).arg("add"@).arg(net).arg("mask"@).arg("128.0.0.0"@).arg(tun_gw).arg(
            "metric"@,
        ).arg("1"@).arg("if"@).arg(decimal(idx as nat)),
        program("route"@).arg("delete"@).arg(net).arg("mask"@).arg("128.0.0.0"@).arg(tun_gw),
    )
}

fn push_half4(v: &mut Vec<NetStep>, net: &str, tun_gw: &str, idx: u32)
    ensures
        net_steps(final(v)@) == net_steps(old(v)@).push(half4(net@, tun_gw@, idx)),
{
    let i = decimal_text(idx as u64);
    push_optional_undone(
        v,
        Cmd::new("route").arg("add").arg(net).arg("mask").arg("128.0.0.0").arg(tun_gw).arg(
            "metric",
        ).arg("1").arg("if").arg(i.as_str()),
        Cmd::new("route").arg("delete").arg(net).arg("mask").arg("128.0.0.0").arg(tun_gw),
    );
}

/// The step that sends one half of the IPv6 addresses to the tunnel's interface.
pub open spec fn half6(net: Seq<char>, ifname: Seq<char>) -> NetStepView {
    optional_undone(
        program("netsh"@).arg("interface"@).arg("ipv6"@).arg("add"@).arg("route"@).arg(net).arg(
            ifname,
        ).arg("store=active"@),
        program("netsh"@).arg("interface"@).arg("ipv6"@).arg("delete"@).arg("route"@).arg(net).arg(
            ifname,
        ),
    )
}

fn push_half6(v: &mut Vec<NetStep>, net: &str, ifname: &str)
    ensures
        net_steps(final(v)@) == net_steps(old(v)@).push(half6(net@, ifname@)),
{
    push_optional_undone(
        v,
        Cmd::new("netsh").arg("interface").arg("ipv6").arg("add").arg("route").arg(net).arg(
            ifname,
        ).arg("store=active"),
        Cmd::new("netsh").arg("interface").arg("ipv6").arg("delete").arg("route").arg(net).arg(
            ifname,
        ),
    );
}

/// The step that gives the adapter its `i`-th resolver: the first replaces the
/// list, later ones are appended. Nothing undoes it: the adapter goes.
pub open spec fn dns_step(
    family: Seq<char>,
    ifname: Seq<char>,
    addr: Seq<char>,
    i: nat,
) -> NetStepView {
    if i == 0 {
        optional(
            program("netsh"@).arg("interface"@).arg(family).arg("set"@).arg("dnsservers"@).arg(
                ifname,
            ).arg("static"@).arg(addr).arg("validate=no"@),
        )
    } else {
        optional(
            program("netsh"@).arg("interface"@).arg(family).arg("add"@).arg("dnsservers"@).arg(
                ifname,
            ).arg(addr).arg("index="@ + decimal(i + 1)).arg("validate=no"@),
        )
    }
}

fn push_dns(v: &mut Vec<NetStep>, family: &str, ifname: &str, addr: &str, i: usize)
    requires
        i < usize::MAX,
    ensures
        net_steps(final(v)@) == net_steps(old(v)@).push(
            dns_step(family@, ifname@, addr@, i as nat),
        ),
{
    if i == 0 {
        push_optional(
            v,
            Cmd::new("netsh").arg("interface").arg(family).arg("set").arg("dnsservers").arg(
                ifname,
            ).arg("static").arg(addr).arg("validate=no"),
        );
    } else {
        let n: u64 = i as u64 + 1;
        let index = "index=".to_owned().concat(decimal_text(n).as_str());
        push_optional(
            v,
            Cmd::new("netsh").arg("interface").arg(family).arg("add").arg("dnsservers").arg(
                ifname,
            ).arg(addr).arg(index.as_str()).arg("validate=no"),
        );
    }
}

/// The steps that give the adapter the server's IPv4 resolvers.
pub open spec fn dns4_plan(v: Seq<Ipv4Addr>, ifname: Seq<char>) -> Seq<NetStepView> {
    Seq::new(v.len(), |i: int| dns_step("ipv4"@, ifname, dotted(v[i].bits), i as nat))
}

/// The steps that give the adapter the server's IPv6 resolvers.
pub open spec fn dns6_plan(v: Seq<Ipv6Addr>, ifname: Seq<char>) -> Seq<NetStepView> {
    Seq::new(v.len(), |i: int| dns_step("ipv6"@, ifname, ipv6_text(v[i].bits), i as nat))
}

/// The steps about IPv6: into the tunnel if the server has IPv6, or, to protect
/// against leaks, nowhere. None if the server itself is reached over IPv6.
pub open spec fn ipv6_plan(
    killswitch: bool,
    offered: bool,
    ifname: Seq<char>,
    server_ip: IpAddr,
) -> Seq<NetStepView> {
    if server_ip is V4 && (offered || killswitch) {
        Seq::empty().push(half6("::/1"@, ifname)).push(half6("8000::/1"@, ifname))
    } else {
        Seq::empty()
    }
}

/// What a session does to the host's routes and to the adapter's resolvers. `idx`
/// is the number of the tunnel's interface, `orig_gw` the host's own gateway.
pub open spec fn plan(
    cfg: ClientConfig,
    welcome: Welcome,
    ifname: Seq<char>,
    server_ip: IpAddr,
    idx: Option<u32>,
    orig_gw: Option<String>,
) -> Seq<NetStepView> {
    if cfg.mode == SessionMode::GlobalProxy {
        let pinned = match orig_gw {
            Some(gw) => Seq::empty().push(pin(server_ip, gw@)),
            None => Seq::empty(),
        };
        match idx {
            Some(i) if cfg.split_mode == SplitMode::Blacklist => {
                let tun_gw = dotted(welcome.gateway.bits);
                pinned.push(half4("0.0.0.0"@, tun_gw, i)).push(half4("128.0.0.0"@, tun_gw, i))
                    + ipv6_plan(
                    cfg.ipv6_killswitch,
                    welcome.assigned_ip6 is Some,
                    ifname,
                    server_ip,
                ) + dns4_plan(welcome.dns@, ifname) + dns6_plan(welcome.dns6@, ifname)
            },
            _ => pinned,
        }
    } else {
        Seq::empty()
    }
}

fn push_resolvers(v: &mut Vec<NetStep>, welcome: &Welcome, ifname: &str)
    ensures
        net_steps(final(v)@) == net_steps(old(v)@) + dns4_plan(welcome.dns@, ifname@) + dns6_plan(
            welcome.dns6@,
            ifname@,
        ),
{
    let ghost before = net_steps(v@);
    let ghost p4 = dns4_plan(welcome.dns@, ifname@);
    let ghost p6 = dns6_plan(welcome.dns6@, ifname@);
    let n: usize = welcome.dns.len();
    assert(before + p4.take(0) =~= before);
    for i in 0..n
        invariant
            n == welcome.dns@.len(),
            p4 == dns4_plan(welcome.dns@, ifname@),
            net_steps(v@) == before + p4.take(i as int),
    {
        let a = welcome.dns[i].to_text();
        push_dns(v, "ipv4", ifname, a.as_str(), i);
        assert((before + p4.take(i as int)).push(p4[i as int]) =~= before + p4.take(i + 1));
    }
    assert(p4.take(n as int) =~= p4);
    let m: usize = welcome.dns6.len();
    assert(before + p4 + p6.take(0) =~= before + p4);
    for i in 0..m
        invariant
            m == welcome.dns6@.len(),
            p6 == dns6_plan(welcome.dns6@, ifname@),
            net_steps(v@) == before + p4 + p6.take(i as int),
    {
        let a = welcome.dns6[i].to_text();
        push_dns(v, "ipv6", ifname, a.as_str(), i);
        assert((before + p4 + p6.take(i as int)).push(p6[i as int]) =~= before + p4 + p6.take(
            i + 1,
        ));
    }
    assert(p6.take(m as int) =~= p6);
}

/// What a session does to the host's routes and to the adapter's resolvers.
pub fn apply(
    cfg: &ClientConfig,
    welcome: &Welcome,
    ifname: &str,
    server_ip: IpAddr,
    idx: Option<u32>,
    orig_gw: &Option<String>,
) -> (r: Vec<NetStep>)
    ensures
        net_steps(r@) == plan(*cfg, *welcome, ifname@, server_ip, idx, *orig_gw),
{
    let mut v: Vec<NetStep> = Vec::new();
    assert(net_steps(v@) =~= Seq::<NetStepView>::empty());
    if cfg.mode == SessionMode::GlobalProxy {
        if let Some(gw) = orig_gw {
            let s = server_ip.to_text();
            push_optional_undone(
                &mut v,
                Cmd::new("route").arg("add").arg(s.as_str()).arg("mask").arg(
                    "255.255.255.255",
                ).arg(gw.as_str()),
                Cmd::new("route").arg("delete").arg(s.as_str()),
            );
        }
        if cfg.split_mode == SplitMode::Blacklist {
            if let Some(i) = idx {
                let tun_gw = welcome.gateway.to_text();
                push_half4(&mut v, "0.0.0.0", tun_gw.as_str(), i);
                push_half4(&mut v, "128.0.0.0", tun_gw.as_str(), i);
                let ghost so_far = net_steps(v@);
                let v4_server = matches!(server_ip, IpAddr::V4(_));
                if v4_server && (welcome.assigned_ip6.is_some() || cfg.ipv6_killswitch) {
                    push_half6(&mut v, "::/1", ifname);
                    push_half6(&mut v, "8000::/1", ifname);
                }
                assert(net_steps(v@) =~= so_far + ipv6_plan(
                    cfg.ipv6_killswitch,
                    welcome.assigned_ip6 is Some,
                    ifname@,
                    server_ip,
                ));
                push_resolvers(&mut v, welcome, ifname);
            }
        }
    }
    v
}

/// All IPv4 traffic goes into the tunnel whenever the session takes over the whole
/// traffic and the tunnel's interface is known: one route for each half of the
/// addresses.
pub proof fn law_ipv4_goes_through_the_tunnel(
    cfg: ClientConfig,
    welcome: Welcome,
    ifname: Seq<char>,
    server_ip: IpAddr,
    idx: u32,
    orig_gw: Option<String>,
)
    requires
        captures_all(cfg),
    ensures
        ({
            let p = plan(cfg, welcome, ifname, server_ip, Some(idx), orig_gw);
            let gw = dotted(welcome.gateway.bits);
            p.contains(half4("0.0.0.0"@, gw, idx)) && p.contains(half4("128.0.0.0"@, gw, idx))
        }),
{
    let p = plan(cfg, welcome, ifname, server_ip, Some(idx), orig_gw);
    let gw = dotted(welcome.gateway.bits);
    let at: int = if orig_gw is Some {
        1
    } else {
        0
    };
    assert(p[at] == half4("0.0.0.0"@, gw, idx));
    assert(p[at + 1] == half4("128.0.0.0"@, gw, idx));
}

/// The server's own address stays on the host's route whenever traffic is taken over,
/// before anything else: otherwise the tunnel would run into itself.
pub proof fn law_server_is_pinned_first(
    cfg: ClientConfig,
    welcome: Welcome,
    ifname: Seq<char>,
    server_ip: IpAddr,
    idx: Option<u32>,
    gw: String,
)
    requires
        cfg.mode == SessionMode::GlobalProxy,
    ensures
        plan(cfg, welcome, ifname, server_ip, idx, Some(gw)).len() > 0,
        plan(cfg, welcome, ifname, server_ip, idx, Some(gw))[0] == pin(server_ip, gw@),
{
}

/// In whitelist mode nothing is taken over but what rules name: the only step pins the
/// server's address.
pub proof fn law_whitelist_takes_nothing(
    cfg: ClientConfig,
    welcome: Welcome,
    ifname: Seq<char>,
    server_ip: IpAddr,
    idx: Option<u32>,
    orig_gw: Option<String>,
)
    requires
        cfg.split_mode == SplitMode::Whitelist,
    ensures
        forall|i: int|
            0 <= i < plan(cfg, welcome, ifname, server_ip, idx, orig_gw).len() ==> orig_gw is Some
                && #[trigger] plan(cfg, welcome, ifname, server_ip, idx, orig_gw)[i] == pin(
                server_ip,
                orig_gw->Some_0@,
            ),
{
}

/// With the protection against leaks, or a server that has IPv6, all IPv6 addresses go
/// to the tunnel's interface whenever the session takes over the whole traffic, its
/// interface is known and the server is reached over IPv4.
pub proof fn law_no_ipv6_leak(
    cfg: ClientConfig,
    welcome: Welcome,
    ifname: Seq<char>,
    server_ip: IpAddr,
    idx: u32,
    orig_gw: Option<String>,
)
    requires
        captures_all(cfg),
        cfg.ipv6_killswitch || welcome.assigned_ip6 is Some,
        server_ip is V4,
    ensures
        plan(cfg, welcome, ifname, server_ip, Some(idx), orig_gw).contains(half6("::/1"@, ifname)),
        plan(cfg, welcome, ifname, server_ip, Some(idx), orig_gw).contains(
            half6("8000::/1"@, ifname),
        ),
{
    let p = plan(cfg, welcome, ifname, server_ip, Some(idx), orig_gw);
    let at: int = if orig_gw is Some {
        3
    } else {
        2
    };
    assert(p[at] == half6("::/1"@, ifname));
    assert(p[at + 1] == half6("8000::/1"@, ifname));
}

}
