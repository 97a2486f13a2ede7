//! Server-side network setup: addresses on the shared TUN device, forwarding, and
//! address translation, as commands to run and commands that undo them.

use vstd::prelude::*;
use vstd::string::*;

use super::config::NetworkConfig;
use crate::addr::{dotted, ipv6_net_parsed, ipv6_text, Ipv4Addr, Ipv6Net};
use crate::cmd::{
    cmds, may, must, program, push_cmd, push_may, push_must, steps, Cmd, CmdView, Step, StepView,
};
use crate::error::{Error, Failure};
use crate::text::{
    decimal, decimal_text, find_word_after, lossy, lossy_text, word_after, words_of,
};

verus! {

/// The interface of the default route, out of the text that `ip route show default`
/// says.
pub fn egress_in(text: &str) -> (r: Result<String, Error>)
    ensures
        match word_after(words_of(text@), "dev"@) {
            Some(w) => r is Ok && r->Ok_0@ == w,
            None => r is Err && r->Err_0@ == Failure::Transport(
                "could not detect egress interface"@,
            ),
        },
{
    match find_word_after(text, "dev") {
        Some(w) => Ok(w),
        None => Err(Error::Transport("could not detect egress interface".to_owned())),
    }
}

/// The interface of the default route, out of what `ip route show default` says.
pub fn detect_egress(stdout: &[u8]) -> (r: Result<String, Error>)
    ensures
        match word_after(words_of(lossy_text(stdout@)), "dev"@) {
            Some(w) => r is Ok && r->Ok_0@ == w,
            None => r is Err && r->Err_0@ == Failure::Transport(
                "could not detect egress interface"@,
            ),
        },
{
    let text = lossy(stdout);
    egress_in(text.as_str())
}

/// The interface of the IPv6 default route, out of what `ip -6 route show default`
/// says. None if there is no such route.
pub fn detect_egress6(stdout: &[u8]) -> (r: Option<String>)
    ensures
        match word_after(words_of(lossy_text(stdout@)), "dev"@) {
            Some(w) => r is Some && r->Some_0@ == w,
            None => r is None,
        },
{
    let text = lossy(stdout);
    find_word_after(text.as_str(), "dev")
}

/// The rule by which traffic of a subnet takes the sender address of the egress
/// interface.
pub open spec fn masquerade(
    tables: Seq<char>,
    action: Seq<char>,
    subnet: Seq<char>,
    egress: Seq<char>,
) -> CmdView {
    program(tables).arg("-t"@).arg("nat"@).arg(action).arg("POSTROUTING"@).arg("-s"@).arg(
        subnet,
    ).arg("-o"@).arg(egress).arg("-j"@).arg("MASQUERADE"@)
}

/// The rules by which traffic passes from the TUN device to the egress interface,
/// back in answer, and between peers on the TUN device.
pub open spec fn forwards(
    tables: Seq<char>,
    action: Seq<char>,
    tun: Seq<char>,
    egress: Seq<char>,
) -> Seq<CmdView> {
    Seq::empty().push(
        program(tables).arg(action).arg("FORWARD"@).arg("-i"@).arg(tun).arg("-o"@).arg(egress).arg(
            "-j"@,
        ).arg("ACCEPT"@),
    ).push(
        program(tables).arg(action).arg("FORWARD"@).arg("-i"@).arg(egress).arg("-o"@).arg(tun).arg(
            "-m"@,
        ).arg("state"@).arg("--state"@).arg("RELATED,ESTABLISHED"@).arg("-j"@).arg("ACCEPT"@),
    ).push(
        program(tables).arg(action).arg("FORWARD"@).arg("-i"@).arg(tun).arg("-o"@).arg(tun).arg(
            "-j"@,
        ).arg("ACCEPT"@),
    )
}

fn masquerade_cmd(tables: &str, action: &str, subnet: &str, egress: &str) -> (r: Cmd)
    ensures
        r@ == masquerade(tables@, action@, subnet@, egress@),
{
    Cmd::new(tables).arg("-t").arg("nat").arg(action).arg("POSTROUTING").arg("-s").arg(subnet).arg(
        "-o",
    ).arg(egress).arg("-j").arg("MASQUERADE")
}

fn push_forwards(out: &mut Vec<Cmd>, tables: &str, action: &str, tun: &str, egress: &str)
    ensures
        cmds(final(out)@) == cmds(old(out)@) + forwards(tables@, action@, tun@, egress@),
{
    push_cmd(
        out,
        Cmd::new(tables).arg(action).arg("FORWARD").arg("-i").arg(tun).arg("-o").arg(egress).arg(
            "-j",
        ).arg("ACCEPT"),
    );
    push_cmd(
        out,
        Cmd::new(tables).arg(action).arg("FORWARD").arg("-i").arg(egress).arg("-o").arg(tun).arg(
            "-m",
        ).arg("state").arg("--state").arg("RELATED,ESTABLISHED").arg("-j").arg("ACCEPT"),
    );
    push_cmd(
        out,
        Cmd::new(tables).arg(action).arg("FORWARD").arg("-i").arg(tun).arg("-o").arg(tun).arg(
            "-j",
        ).arg("ACCEPT"),
    );
    assert(cmds(out@) =~= cmds(old(out)@) + forwards(tables@, action@, tun@, egress@));
}

/// The commands that bring the TUN device up and turn forwarding on. Redirects
/// are suppressed: peers cannot reach each other directly, so the gateway keeps
/// forwarding their traffic.
pub open spec fn link_plan(gateway: Ipv4Addr, prefix: u8, mtu: u16, tun: Seq<char>) -> Seq<
    StepView,
> {
    Seq::empty().push(
        may(
            program("ip"@).arg("addr"@).arg("add"@).arg(
                dotted(gateway.bits) + "/"@ + decimal(prefix as nat),
            ).arg("dev"@).arg(tun),
        ),
    ).push(
        must(
            program("ip"@).arg("link"@).arg("set"@).arg("dev"@).arg(tun).arg("mtu"@).arg(
                decimal(mtu as nat),
            ),
        ),
    ).push(
        must(program("ip"@).arg("link"@).arg("set"@).arg("dev"@).arg(tun).arg("up"@)),
    ).push(may(program("sysctl"@).arg("-w"@).arg("net.ipv4.ip_forward=1"@))).push(
        may(
            program("sysctl"@).arg("-w"@).arg(
                "net.ipv4.conf."@ + tun + ".send_redirects=0"@,
            ),
        ),
    ).push(may(program("sysctl"@).arg("-w"@).arg("net.ipv4.conf.all.send_redirects=0"@)))
}

/// The commands that bring the TUN device up and turn forwarding on.
pub fn link_steps(net: &NetworkConfig, prefix: u8, tun: &str) -> (r: Vec<Step>)
    ensures
        steps(r@) == link_plan(net.gateway, prefix, net.mtu, tun@),
{
    let mut v: Vec<Step> = Vec::new();
    assert(steps(v@) =~= Seq::<StepView>::empty());
    let cidr = net.gateway.to_text().concat("/").concat(decimal_text(prefix as u64).as_str());
    push_may(&mut v, Cmd::new("ip").arg("addr").arg("add").arg(cidr.as_str()).arg("dev").arg(tun));
    push_must(
        &mut v,
        Cmd::new("ip").arg("link").arg("set").arg("dev").arg(tun).arg("mtu").arg(
            decimal_text(net.mtu as u64).as_str(),
        ),
    );
    push_must(&mut v, Cmd::new("ip").arg("link").arg("set").arg("dev").arg(tun).arg("up"));
    push_may(&mut v, Cmd::new("sysctl").arg("-w").arg("net.ipv4.ip_forward=1"));
    let redirects = "net.ipv4.conf.".to_owned().concat(tun).concat(".send_redirects=0");
    push_may(&mut v, Cmd::new("sysctl").arg("-w").arg(redirects.as_str()));
    push_may(&mut v, Cmd::new("sysctl").arg("-w").arg("net.ipv4.conf.all.send_redirects=0"));
    v
}

/// What the server changed in the network: the commands that undo it, and
/// whether IPv6 was set up.
pub struct ServerNet {
    pub egress: String,
    /// Whether the server offers IPv6 to clients.
    pub ipv6: bool,
    /// Run in order when the server stops.
    pub undo: Vec<Cmd>,
}

/// The IPv4 rules: how they are put in, or taken out, as `masq` and `fwd` say.
pub open spec fn nat4(
    masq: Seq<char>,
    fwd: Seq<char>,
    subnet: Seq<char>,
    tun: Seq<char>,
    egress: Seq<char>,
) -> Seq<CmdView> {
    Seq::empty().push(masquerade("iptables"@, masq, subnet, egress)) + forwards(
        "iptables"@,
        fwd,
        tun,
        egress,
    )
}

/// The commands that let IPv4 traffic out, whose failures are ignored, and the
/// record of what undoes them.
pub fn setup(subnet: &str, tun: &str, egress: String) -> (r: (Vec<Cmd>, ServerNet))
    ensures
        cmds(r.0@) == nat4("-A"@, "-I"@, subnet@, tun@, egress@),
        cmds(r.1.undo@) == nat4("-D"@, "-D"@, subnet@, tun@, egress@),
        r.1.egress@ == egress@,
        !r.1.ipv6,
{
    let mut add: Vec<Cmd> = Vec::new();
    assert(cmds(add@) =~= Seq::<CmdView>::empty());
    push_cmd(&mut add, masquerade_cmd("iptables", "-A", subnet, egress.as_str()));
    push_forwards(&mut add, "iptables", "-I", tun, egress.as_str());
    let mut undo: Vec<Cmd> = Vec::new();
    assert(cmds(undo@) =~= Seq::<CmdView>::empty());
    push_cmd(&mut undo, masquerade_cmd("iptables", "-D", subnet, egress.as_str()));
    push_forwards(&mut undo, "iptables", "-D", tun, egress.as_str());
    (add, ServerNet { egress, ipv6: false, undo })
}

/// The commands that set IPv6 up.
pub struct Ipv6Plan {
    pub subnet6: String,
    pub tun: String,
    pub egress6: String,
    /// Run first; failures are ignored.
    pub prepare: Vec<Cmd>,
    /// Run next; its failure means that there is no IPv6.
    pub masquerade: Cmd,
    /// Run if it failed, so that no address is left dangling.
    pub retract: Cmd,
}

/// The address argument of the gateway.
pub open spec fn gateway6_cidr(gw6: u128, prefix6: u8) -> Seq<char> {
    ipv6_text(gw6) + "/"@ + decimal(prefix6 as nat)
}

/// The commands before the translation rule.
pub open spec fn prepare6(cidr: Seq<char>, tun: Seq<char>) -> Seq<CmdView> {
    Seq::empty().push(
        program("ip"@).arg("-6"@).arg("addr"@).arg("add"@).arg(cidr).arg("dev"@).arg(tun),
    ).push(program("sysctl"@).arg("-w"@).arg("net.ipv6.conf.all.forwarding=1"@)).push(
        program("sysctl"@).arg("-w"@).arg("net.ipv6.conf."@ + tun + ".forwarding=1"@),
    )
}

/// The prefix length of the IPv6 subnet, given what its text parses to.
pub open spec fn prefix6_of(parsed: Option<(u128, u8)>) -> u8 {
    match parsed {
        Some((_, len)) => len,
        None => 64,
    }
}

/// How IPv6 is set up: only if a subnet and a gateway are configured and the host
/// has an IPv6 default route.
pub fn setup_ipv6(net: &NetworkConfig, tun: &str, egress6: Option<String>) -> (r: Option<Ipv6Plan>)
    ensures
        r is Some <==> net.subnet6 is Some && net.gateway6 is Some && egress6 is Some,
        r is Some ==> {
            let p = r->Some_0;
            let subnet6 = net.subnet6->Some_0@;
            let cidr = gateway6_cidr(
                net.gateway6->Some_0.bits,
                prefix6_of(ipv6_net_parsed(subnet6)),
            );
            &&& p.subnet6@ == subnet6
            &&& p.tun@ == tun@
            &&& p.egress6@ == egress6->Some_0@
            &&& cmds(p.prepare@) == prepare6(cidr, tun@)
            &&& p.masquerade@ == masquerade("ip6tables"@, "-A"@, subnet6, egress6->Some_0@)
            &&& p.retract@ == program("ip"@).arg("-6"@).arg("addr"@).arg("del"@).arg(cidr).arg(
                "dev"@,
            ).arg(tun@)
        },
{
    match (&net.subnet6, net.gateway6, egress6) {
        (Some(subnet6), Some(gw6), Some(egress6)) => {
            let prefix6: u8 = match Ipv6Net::parse(subnet6.as_str()) {
                Some(n) => n.prefix_len,
                None => 64,
            };
            let cidr = gw6.to_text().concat("/").concat(decimal_text(prefix6 as u64).as_str());
            let mut prepare: Vec<Cmd> = Vec::new();
            assert(cmds(prepare@) =~= Seq::<CmdView>::empty());
            push_cmd(
                &mut prepare,
                Cmd::new("ip").arg("-6").arg("addr").arg("add").arg(cidr.as_str()).arg("dev").arg(
                    tun,
                ),
            );
            push_cmd(
                &mut prepare,
                Cmd::new("sysctl").arg("-w").arg("net.ipv6.conf.all.forwarding=1"),
            );
            let fwd = "net.ipv6.conf.".to_owned().concat(tun).concat(".forwarding=1");
            push_cmd(&mut prepare, Cmd::new("sysctl").arg("-w").arg(fwd.as_str()));
            Some(
                Ipv6Plan {
                    masquerade: masquerade_cmd(
                        "ip6tables",
                        "-A",
                        subnet6.as_str(),
                        egress6.as_str(),
                    ),
                    retract: Cmd::new("ip").arg("-6").arg("addr").arg("del").arg(
                        cidr.as_str(),
                    ).arg("dev").arg(tun),
                    subnet6: subnet6.clone(),
                    tun: tun.to_owned(),
                    egress6,
                    prepare,
                },
            )
        },
        _ => None,
    }
}

impl ServerNet {
    /// Takes note whether the IPv6 translation rule went in. Returns the commands
    /// to run next, whose failures are ignored. Only if the rule went in does the
    /// server have IPv6, and the rules are undone with the others.
    pub fn ipv6_done(&mut self, p: Ipv6Plan, masqueraded: bool) -> (r: Vec<Cmd>)
        ensures
            final(self).egress@ == old(self).egress@,
            if masqueraded {
                &&& final(self).ipv6
                &&& cmds(r@) == forwards("ip6tables"@, "-I"@, p.tun@, p.egress6@)
                &&& cmds(final(self).undo@) == cmds(old(self).undo@).push(
                    masquerade("ip6tables"@, "-D"@, p.subnet6@, p.egress6@),
                ) + forwards("ip6tables"@, "-D"@, p.tun@, p.egress6@)
            } else {
                &&& final(self).ipv6 == old(self).ipv6
                &&& cmds(r@) == Seq::empty().push(p.retract@)
                &&& cmds(final(self).undo@) == cmds(old(self).undo@)
            },
    {
        let mut more: Vec<Cmd> = Vec::new();
        assert(cmds(more@) =~= Seq::<CmdView>::empty());
        if !masqueraded {
            push_cmd(&mut more, p.retract);
            return more;
        }
        self.ipv6 = true;
        push_cmd(
            &mut self.undo,
            masquerade_cmd("ip6tables", "-D", p.subnet6.as_str(), p.egress6.as_str()),
        );
        push_forwards(&mut more, "ip6tables", "-I", p.tun.as_str(), p.egress6.as_str());
        push_forwards(&mut self.undo, "ip6tables", "-D", p.tun.as_str(), p.egress6.as_str());
        assert(cmds(more@) =~= forwards("ip6tables"@, "-I"@, p.tun@, p.egress6@));
        more
    }
}

/// Every rule that is put in is taken out again when the server stops: the rules
/// and the commands that undo them agree in everything but the action.
pub proof fn law_undo_mirrors_setup(
    subnet: Seq<char>,
    tun: Seq<char>,
    egress: Seq<char>,
    i: int,
)
    requires
        0 <= i < 4,
    ensures
        nat4("-A"@, "-I"@, subnet, tun, egress).len() == 4,
        nat4("-D"@, "-D"@, subnet, tun, egress).len() == 4,
        same_rule(
            nat4("-A"@, "-I"@, subnet, tun, egress)[i],
            nat4("-D"@, "-D"@, subnet, tun, egress)[i],
        ),
{
    let a = nat4("-A"@, "-I"@, subnet, tun, egress)[i];
    let d = nat4("-D"@, "-D"@, subnet, tun, egress)[i];
    let k = if i == 0 {
        2int
    } else {
        0int
    };
    assert(a.args.remove(k) =~= d.args.remove(k));
    assert(d.args[k] == "-D"@);
}

/// Whether `d` deletes the rule that `a` adds: the same command but for the
/// action.
pub open spec fn same_rule(a: CmdView, d: CmdView) -> bool {
    &&& a.program == d.program
    &&& a.args.len() == d.args.len()
    &&& exists|k: int|
        0 <= k < a.args.len() && d.args[k] == "-D"@ && #[trigger] a.args.remove(k)
            == d.args.remove(k)
}

}
