//! The system's proxy setting: how it is pointed at the local proxy, and how it is
//! put back. Failures never end a session: the local proxy runs all the same.

use vstd::prelude::*;
use vstd::string::*;

use crate::cmd::{cmds, program, push_cmd, Cmd, CmdView};
use crate::text::{
    around_last, chars_of, contains, find_char, law_around_last, law_without_prefix,
    lemma_next_at_found, lines, lines_of, next_at, occurs, rsplit_once, same, strip_prefix,
    text_between, texts, trim, trimmed, without_prefix,
};

verus! {

/// Puts the system's proxy setting back.
pub struct SysProxyGuard {
    /// Run in order when the session ends. Empty if nothing was set.
    pub undo: Vec<Cmd>,
}

impl SysProxyGuard {
    /// Nothing to put back.
    pub fn noop() -> (r: SysProxyGuard)
        ensures
            cmds(r.undo@) == Seq::<CmdView>::empty(),
    {
        let r = SysProxyGuard { undo: Vec::new() };
        assert(cmds(r.undo@) =~= Seq::<CmdView>::empty());
        r
    }
}

/// Whether `c` is a square bracket.
pub open spec fn is_bracket(c: char) -> bool {
    c == '[' || c == ']'
}

/// `s` without leading square brackets.
pub open spec fn unbracketed_start(s: Seq<char>) -> Seq<char>
    decreases s.len(),
{
    if s.len() > 0 && is_bracket(s[0]) {
        unbracketed_start(s.skip(1))
    } else {
        s
    }
}

/// `s` without trailing square brackets.
pub open spec fn unbracketed_end(s: Seq<char>) -> Seq<char>
    decreases s.len(),
{
    if s.len() > 0 && is_bracket(s.last()) {
        unbracketed_end(s.drop_last())
    } else {
        s
    }
}

/// The host that the system should dial for a listener bound to `h`: loopback if
/// it is bound everywhere, without brackets otherwise.
pub open spec fn dialed_host(h: Seq<char>) -> Seq<char> {
    if h.len() == 0 || h == "0.0.0.0"@ || h == "::"@ || h == "[::]"@ {
        "127.0.0.1"@
    } else {
        unbracketed_end(unbracketed_start(h))
    }
}

/// Host and port that the system should dial for a listener address.
pub open spec fn dialed(listen: Seq<char>) -> (Seq<char>, Seq<char>) {
    match around_last(listen, ':') {
        Some((h, p)) => (dialed_host(h), p),
        None => (dialed_host(listen), "7890"@),
    }
}

fn unbracket(s: &str) -> (r: String)
    ensures
        r@ == unbracketed_end(unbracketed_start(s@)),
{
    let cs = chars_of(s);
    let total: usize = cs.len();
    let mut i: usize = 0;
    assert(cs@.subrange(0, total as int) =~= cs@);
    while i < total && (cs[i] == '[' || cs[i] == ']')
        invariant
            total == cs@.len(),
            i <= total,
            unbracketed_start(cs@.subrange(i as int, total as int)) == unbracketed_start(cs@),
        decreases total - i,
    {
        assert(cs@.subrange(i as int, total as int).skip(1) =~= cs@.subrange(
            i + 1,
            total as int,
        ));
        i = i + 1;
    }
    let ghost rest = cs@.subrange(i as int, total as int);
    let mut end: usize = total;
    while end > i && (cs[end - 1] == '[' || cs[end - 1] == ']')
        invariant
            total == cs@.len(),
            i <= end <= total,
            unbracketed_end(cs@.subrange(i as int, end as int)) == unbracketed_end(rest),
        decreases end,
    {
        assert(cs@.subrange(i as int, end as int).drop_last() =~= cs@.subrange(i as int, end - 1));
        end = end - 1;
    }
    text_between(&cs, i, end)
}

/// Host and port that the system should dial for a listener address.
pub fn host_port(listen: &str) -> (r: (String, String))
    ensures
        (r.0@, r.1@) == dialed(listen@),
{
    let (h, p) = match rsplit_once(listen, ':') {
        Some(hp) => hp,
        None => (listen.to_owned(), "7890".to_owned()),
    };
    let host = if h.as_str().unicode_len() == 0 || same(h.as_str(), "0.0.0.0") || same(
        h.as_str(),
        "::",
    ) || same(h.as_str(), "[::]") {
        "127.0.0.1".to_owned()
    } else {
        unbracket(h.as_str())
    };
    (host, p)
}

/// How the setting is changed: `first` must all succeed, else nothing counts as
/// set; `more` may fail; `undo` puts the setting back.
pub struct SysProxyPlan {
    pub first: Vec<Cmd>,
    pub more: Vec<Cmd>,
    pub undo: Vec<Cmd>,
}

/// The GNOME commands after the mode is set.
pub open spec fn gnome_more(host: Seq<char>, port: Seq<char>) -> Seq<CmdView> {
    Seq::empty().push(gnome_set("org.gnome.system.proxy.http"@, "host"@, host)).push(
        gnome_set("org.gnome.system.proxy.http"@, "port"@, port),
    ).push(gnome_set("org.gnome.system.proxy.https"@, "host"@, host)).push(
        gnome_set("org.gnome.system.proxy.https"@, "port"@, port),
    )
}

/// GNOME's proxy setting, each value as `gsettings get` prints it and `gsettings set`
/// takes it.
pub struct GnomeProxy {
    pub mode: String,
    pub http_host: String,
    pub http_port: String,
    pub https_host: String,
    pub https_port: String,
}

/// The command that sets a value.
pub open spec fn gnome_set(schema: Seq<char>, key: Seq<char>, value: Seq<char>) -> CmdView {
    program("gsettings"@).arg("set"@).arg(schema).arg(key).arg(value)
}

/// The command that prints a value.
pub open spec fn gnome_get(schema: Seq<char>, key: Seq<char>) -> CmdView {
    program("gsettings"@).arg("get"@).arg(schema).arg(key)
}

fn set_gnome(schema: &str, key: &str, value: &str) -> (r: Cmd)
    ensures
        r@ == gnome_set(schema@, key@, value@),
{
    Cmd::new("gsettings").arg("set").arg(schema).arg(key).arg(value)
}

fn get_gnome(schema: &str, key: &str) -> (r: Cmd)
    ensures
        r@ == gnome_get(schema@, key@),
{
    Cmd::new("gsettings").arg("get").arg(schema).arg(key)
}

/// The commands that print the setting, to be run before it is changed.
pub fn gnome_reads() -> (r: Vec<Cmd>)
    ensures
        cmds(r@) == Seq::empty().push(gnome_get("org.gnome.system.proxy"@, "mode"@)).push(
            gnome_get("org.gnome.system.proxy.http"@, "host"@),
        ).push(gnome_get("org.gnome.system.proxy.http"@, "port"@)).push(
            gnome_get("org.gnome.system.proxy.https"@, "host"@),
        ).push(gnome_get("org.gnome.system.proxy.https"@, "port"@)),
{
    let mut r: Vec<Cmd> = Vec::new();
    assert(cmds(r@) =~= Seq::<CmdView>::empty());
    push_cmd(&mut r, get_gnome("org.gnome.system.proxy", "mode"));
    push_cmd(&mut r, get_gnome("org.gnome.system.proxy.http", "host"));
    push_cmd(&mut r, get_gnome("org.gnome.system.proxy.http", "port"));
    push_cmd(&mut r, get_gnome("org.gnome.system.proxy.https", "host"));
    push_cmd(&mut r, get_gnome("org.gnome.system.proxy.https", "port"));
    r
}

/// The setting, out of what the commands of [`gnome_reads`] print. None if there is
/// not one text for each.
pub fn gnome_before(printed: &Vec<String>) -> (r: Option<GnomeProxy>)
    ensures
        r is Some <==> printed@.len() == 5,
        r is Some ==> r->Some_0.mode@ == trimmed(printed@[0]@),
        r is Some ==> r->Some_0.http_host@ == trimmed(printed@[1]@),
        r is Some ==> r->Some_0.http_port@ == trimmed(printed@[2]@),
        r is Some ==> r->Some_0.https_host@ == trimmed(printed@[3]@),
        r is Some ==> r->Some_0.https_port@ == trimmed(printed@[4]@),
{
    if printed.len() != 5 {
        return None;
    }
    Some(
        GnomeProxy {
            mode: trim(printed[0].as_str()),
            http_host: trim(printed[1].as_str()),
            http_port: trim(printed[2].as_str()),
            https_host: trim(printed[3].as_str()),
            https_port: trim(printed[4].as_str()),
        },
    )
}

/// The GNOME commands that put a setting back. If it is not known, the proxy is
/// turned off.
pub open spec fn gnome_undo(before: Option<GnomeProxy>) -> Seq<CmdView> {
    match before {
        Some(b) => Seq::empty().push(
            gnome_set("org.gnome.system.proxy.http"@, "host"@, b.http_host@),
        ).push(gnome_set("org.gnome.system.proxy.http"@, "port"@, b.http_port@)).push(
            gnome_set("org.gnome.system.proxy.https"@, "host"@, b.https_host@),
        ).push(gnome_set("org.gnome.system.proxy.https"@, "port"@, b.https_port@)).push(
            gnome_set("org.gnome.system.proxy"@, "mode"@, b.mode@),
        ),
        None => Seq::empty().push(gnome_set("org.gnome.system.proxy"@, "mode"@, "none"@)),
    }
}

/// How the setting is changed on Linux: for GNOME. `before` is the setting so far.
pub fn enable_linux(host: &str, port: &str, before: &Option<GnomeProxy>) -> (r: SysProxyPlan)
    ensures
        cmds(r.first@) == Seq::empty().push(
            gnome_set("org.gnome.system.proxy"@, "mode"@, "manual"@),
        ),
        cmds(r.more@) == gnome_more(host@, port@),
        cmds(r.undo@) == gnome_undo(*before),
{
    let mut first: Vec<Cmd> = Vec::new();
    let mut more: Vec<Cmd> = Vec::new();
    let mut undo: Vec<Cmd> = Vec::new();
    assert(cmds(first@) =~= Seq::<CmdView>::empty());
    assert(cmds(more@) =~= Seq::<CmdView>::empty());
    assert(cmds(undo@) =~= Seq::<CmdView>::empty());
    push_cmd(&mut first, set_gnome("org.gnome.system.proxy", "mode", "manual"));
    push_cmd(&mut more, set_gnome("org.gnome.system.proxy.http", "host", host));
    push_cmd(&mut more, set_gnome("org.gnome.system.proxy.http", "port", port));
    push_cmd(&mut more, set_gnome("org.gnome.system.proxy.https", "host", host));
    push_cmd(&mut more, set_gnome("org.gnome.system.proxy.https", "port", port));
    match before {
        Some(b) => {
            push_cmd(
                &mut undo,
                set_gnome("org.gnome.system.proxy.http", "host", b.http_host.as_str()),
            );
            push_cmd(
                &mut undo,
                set_gnome("org.gnome.system.proxy.http", "port", b.http_port.as_str()),
            );
            push_cmd(
                &mut undo,
                set_gnome("org.gnome.system.proxy.https", "host", b.https_host.as_str()),
            );
            push_cmd(
                &mut undo,
                set_gnome("org.gnome.system.proxy.https", "port", b.https_port.as_str()),
            );
            push_cmd(&mut undo, set_gnome("org.gnome.system.proxy", "mode", b.mode.as_str()));
        },
        None => {
            push_cmd(&mut undo, set_gnome("org.gnome.system.proxy", "mode", "none"));
        },
    }
    SysProxyPlan { first, more, undo }
}

/// GNOME's settings, by schema and key, after commands were run on them in order.
pub open spec fn gnome_after(
    cs: Seq<CmdView>,
    m: Map<(Seq<char>, Seq<char>), Seq<char>>,
) -> Map<(Seq<char>, Seq<char>), Seq<char>>
    decreases cs.len(),
{
    if cs.len() == 0 {
        m
    } else {
        let c = cs.last();
        let before = gnome_after(cs.drop_last(), m);
        if c.args.len() == 4 && c.args[0] == "set"@ {
            before.insert((c.args[1], c.args[2]), c.args[3])
        } else {
            before
        }
    }
}

/// Whether `b` says what the setting is.
pub open spec fn gnome_is(m: Map<(Seq<char>, Seq<char>), Seq<char>>, b: GnomeProxy) -> bool {
    &&& m.contains_pair(("org.gnome.system.proxy"@, "mode"@), b.mode@)
    &&& m.contains_pair(("org.gnome.system.proxy.http"@, "host"@), b.http_host@)
    &&& m.contains_pair(("org.gnome.system.proxy.http"@, "port"@), b.http_port@)
    &&& m.contains_pair(("org.gnome.system.proxy.https"@, "host"@), b.https_host@)
    &&& m.contains_pair(("org.gnome.system.proxy.https"@, "port"@), b.https_port@)
}

proof fn lemma_gnome_after_push(
    cs: Seq<CmdView>,
    schema: Seq<char>,
    key: Seq<char>,
    value: Seq<char>,
    m: Map<(Seq<char>, Seq<char>), Seq<char>>,
)
    ensures
        gnome_after(cs.push(gnome_set(schema, key, value)), m) == gnome_after(cs, m).insert(
            (schema, key),
            value,
        ),
{
    assert(cs.push(gnome_set(schema, key, value)).drop_last() =~= cs);
}

/// Once the setting was changed and put back, GNOME's settings are all as they were.
pub proof fn law_gnome_setting_is_restored(
    m: Map<(Seq<char>, Seq<char>), Seq<char>>,
    b: GnomeProxy,
    host: Seq<char>,
    port: Seq<char>,
)
    requires
        gnome_is(m, b),
    ensures
        ({
            let first = Seq::empty().push(gnome_set("org.gnome.system.proxy"@, "mode"@, "manual"@));
            let set = gnome_after(gnome_more(host, port), gnome_after(first, m));
            gnome_after(gnome_undo(Some(b)), set) == m
        }),
{
    let base = "org.gnome.system.proxy"@;
    let http = "org.gnome.system.proxy.http"@;
    let https = "org.gnome.system.proxy.https"@;
    let none = Seq::<CmdView>::empty();
    let first = none.push(gnome_set(base, "mode"@, "manual"@));
    lemma_gnome_after_push(none, base, "mode"@, "manual"@, m);
    let m1 = gnome_after(first, m);
    let a1 = none.push(gnome_set(http, "host"@, host));
    let a2 = a1.push(gnome_set(http, "port"@, port));
    let a3 = a2.push(gnome_set(https, "host"@, host));
    lemma_gnome_after_push(none, http, "host"@, host, m1);
    lemma_gnome_after_push(a1, http, "port"@, port, m1);
    lemma_gnome_after_push(a2, https, "host"@, host, m1);
    lemma_gnome_after_push(a3, https, "port"@, port, m1);
    let m2 = gnome_after(gnome_more(host, port), m1);
    let u1 = none.push(gnome_set(http, "host"@, b.http_host@));
    let u2 = u1.push(gnome_set(http, "port"@, b.http_port@));
    let u3 = u2.push(gnome_set(https, "host"@, b.https_host@));
    let u4 = u3.push(gnome_set(https, "port"@, b.https_port@));
    lemma_gnome_after_push(none, http, "host"@, b.http_host@, m2);
    lemma_gnome_after_push(u1, http, "port"@, b.http_port@, m2);
    lemma_gnome_after_push(u2, https, "host"@, b.https_host@, m2);
    lemma_gnome_after_push(u3, https, "port"@, b.https_port@, m2);
    lemma_gnome_after_push(u4, base, "mode"@, b.mode@, m2);
    assert(gnome_after(gnome_undo(Some(b)), m2) =~= m);
}

/// One of the proxies of a network service on macOS.
pub struct ServiceProxy {
    pub enabled: bool,
    /// Empty if none was ever set.
    pub server: String,
    pub port: String,
}

/// What is printed of a field, or nothing.
pub open spec fn field_or_empty(lines: Seq<Seq<char>>, key: Seq<char>) -> Seq<char> {
    match field_of(lines, key) {
        Some(v) => v,
        None => Seq::empty(),
    }
}

/// The proxy of a service, out of what `networksetup -getwebproxy` or
/// `-getsecurewebproxy` prints.
pub fn service_proxy(printed: &str) -> (r: ServiceProxy)
    ensures
        r.enabled == (field_of(lines_of(printed@), "Enabled:"@) == Some("Yes"@)),
        r.server@ == field_or_empty(lines_of(printed@), "Server:"@),
        r.port@ == field_or_empty(lines_of(printed@), "Port:"@),
{
    let enabled = match find_field(printed, "Enabled:") {
        Some(v) => same(v.as_str(), "Yes"),
        None => false,
    };
    let server = match find_field(printed, "Server:") {
        Some(v) => v,
        None => String::new(),
    };
    let port = match find_field(printed, "Port:") {
        Some(v) => v,
        None => String::new(),
    };
    ServiceProxy { enabled, server, port }
}

/// The commands that put a proxy of a service back: its server and port if it had
/// any, which turns it on, and whether it is on.
pub open spec fn service_undo(
    set: Seq<char>,
    state: Seq<char>,
    service: Seq<char>,
    b: ServiceProxy,
) -> Seq<CmdView> {
    let server = program("networksetup"@).arg(set).arg(service).arg(b.server@).arg(b.port@);
    let onoff = program("networksetup"@).arg(state).arg(service).arg(
        if b.enabled {
            "on"@
        } else {
            "off"@
        },
    );
    if b.server@.len() > 0 {
        Seq::empty().push(server).push(onoff)
    } else {
        Seq::empty().push(onoff)
    }
}

fn push_service_undo(v: &mut Vec<Cmd>, set: &str, state: &str, service: &str, b: &ServiceProxy)
    ensures
        cmds(final(v)@) == cmds(old(v)@) + service_undo(set@, state@, service@, *b),
{
    if b.server.as_str().unicode_len() > 0 {
        push_cmd(
            v,
            Cmd::new("networksetup").arg(set).arg(service).arg(b.server.as_str()).arg(
                b.port.as_str(),
            ),
        );
    }
    let onoff = if b.enabled {
        "on"
    } else {
        "off"
    };
    push_cmd(v, Cmd::new("networksetup").arg(state).arg(service).arg(onoff));
    assert(cmds(v@) =~= cmds(old(v)@) + service_undo(set@, state@, service@, *b));
}

/// How the setting is changed on macOS, for a network service. `web` and `secure` are
/// its proxies so far.
pub fn enable_macos(
    service: &str,
    host: &str,
    port: &str,
    web: &ServiceProxy,
    secure: &ServiceProxy,
) -> (r: SysProxyPlan)
    ensures
        cmds(r.first@) == Seq::empty().push(
            program("networksetup"@).arg("-setwebproxy"@).arg(service@).arg(host@).arg(port@),
        ).push(
            program("networksetup"@).arg("-setsecurewebproxy"@).arg(service@).arg(host@).arg(
                port@,
            ),
        ),
        cmds(r.more@) == Seq::<CmdView>::empty(),
        cmds(r.undo@) == service_undo("-setwebproxy"@, "-setwebproxystate"@, service@, *web)
            + service_undo("-setsecurewebproxy"@, "-setsecurewebproxystate"@, service@, *secure),
{
    let mut first: Vec<Cmd> = Vec::new();
    let more: Vec<Cmd> = Vec::new();
    let mut undo: Vec<Cmd> = Vec::new();
    assert(cmds(first@) =~= Seq::<CmdView>::empty());
    assert(cmds(more@) =~= Seq::<CmdView>::empty());
    assert(cmds(undo@) =~= Seq::<CmdView>::empty());
    push_cmd(
        &mut first,
        Cmd::new("networksetup").arg("-setwebproxy").arg(service).arg(host).arg(port),
    );
    push_cmd(
        &mut first,
        Cmd::new("networksetup").arg("-setsecurewebproxy").arg(service).arg(host).arg(port),
    );
    push_service_undo(&mut undo, "-setwebproxy", "-setwebproxystate", service, web);
    assert(cmds(undo@) =~= service_undo("-setwebproxy"@, "-setwebproxystate"@, service@, *web));
    push_service_undo(
        &mut undo,
        "-setsecurewebproxy",
        "-setsecurewebproxystate",
        service,
        secure,
    );
    SysProxyPlan { first, more, undo }
}

/// A proxy of a service (whether it is on, its server and its port) after a command:
/// `set` sets server and port and turns it on, `state` turns it on or off.
pub open spec fn service_after(
    c: CmdView,
    set: Seq<char>,
    state: Seq<char>,
    p: (bool, Seq<char>, Seq<char>),
) -> (bool, Seq<char>, Seq<char>) {
    if c.args.len() == 4 && c.args[0] == set {
        (true, c.args[2], c.args[3])
    } else if c.args.len() == 3 && c.args[0] == state {
        (c.args[2] == "on"@, p.1, p.2)
    } else {
        p
    }
}

/// Once a proxy of a service that had a server was changed and put back, it is as it
/// was.
pub proof fn law_service_proxy_is_restored(
    set: Seq<char>,
    state: Seq<char>,
    service: Seq<char>,
    b: ServiceProxy,
    now: (bool, Seq<char>, Seq<char>),
)
    requires
        b.server@.len() > 0,
    ensures
        service_undo(set, state, service, b).len() == 2,
        service_after(
            service_undo(set, state, service, b)[1],
            set,
            state,
            service_after(service_undo(set, state, service, b)[0], set, state, now),
        ) == (b.enabled, b.server@, b.port@),
{
    reveal_strlit("on");
    reveal_strlit("off");
    assert("on"@.len() != "off"@.len());
}

/// What is put back when the session ends: what was set, if it was set.
pub fn enable(plan: SysProxyPlan, set: bool) -> (r: SysProxyGuard)
    ensures
        cmds(r.undo@) == if set {
            cmds(plan.undo@)
        } else {
            Seq::empty()
        },
{
    if set {
        SysProxyGuard { undo: plan.undo }
    } else {
        SysProxyGuard::noop()
    }
}

/// What follows `key` on the first line that starts with it, once trimmed.
pub open spec fn field_of(lines: Seq<Seq<char>>, key: Seq<char>) -> Option<Seq<char>>
    decreases lines.len(),
{
    if lines.len() == 0 {
        None
    } else {
        match without_prefix(trimmed(lines[0]), key) {
            Some(v) => Some(trimmed(v)),
            None => field_of(lines.skip(1), key),
        }
    }
}

/// What follows `key` on the first line of a text that starts with it.
pub fn find_field(text: &str, key: &str) -> (r: Option<String>)
    ensures
        match field_of(lines_of(text@), key@) {
            Some(v) => r is Some && r->Some_0@ == v,
            None => r is None,
        },
{
    let ls = lines(text);
    let n: usize = ls.len();
    let ghost all = texts(ls@);
    assert(all.skip(0) =~= all);
    for i in 0..n
        invariant
            n == ls@.len(),
            all == texts(ls@),
            all == lines_of(text@),
            field_of(all, key@) == field_of(all.skip(i as int), key@),
    {
        assert(all.skip(i as int)[0] == ls@[i as int]@);
        let l = trim(ls[i].as_str());
        if let Some(v) = strip_prefix(l.as_str(), key) {
            return Some(trim(v.as_str()));
        }
        assert(all.skip(i as int).skip(1) =~= all.skip(i + 1));
    }
    None
}

/// The service that a line of the service listing introduces, such as `Wi-Fi` in
/// `(1) Wi-Fi`. Lines on hardware ports introduce none.
pub open spec fn service_in(line: Seq<char>) -> Option<Seq<char>> {
    match without_prefix(line, "("@) {
        Some(rest) => {
            let i = next_at(rest, ')', 0);
            if i < rest.len() && !occurs(rest.subrange(0, i), "Hardware Port"@) {
                Some(trimmed(rest.subrange(i + 1, rest.len() as int)))
            } else {
                None
            }
        },
        None => None,
    }
}

fn find_service(line: &str) -> (r: Option<String>)
    ensures
        match service_in(line@) {
            Some(s) => r is Some && r->Some_0@ == s,
            None => r is None,
        },
{
    match strip_prefix(line, "(") {
        Some(rest) => {
            let cs = chars_of(rest.as_str());
            let i: usize = find_char(&cs, ')', 0);
            if i < cs.len() {
                let before = text_between(&cs, 0, i);
                if !contains(before.as_str(), "Hardware Port") {
                    let after = text_between(&cs, i + 1, cs.len());
                    return Some(trim(after.as_str()));
                }
            }
            None
        },
        None => None,
    }
}

/// The service whose device is `dev` in a service listing: the last one that was
/// introduced before the line that names just that device.
pub open spec fn service_of(
    lines: Seq<Seq<char>>,
    dev: Seq<char>,
    last: Option<Seq<char>>,
) -> Option<Seq<char>>
    decreases lines.len(),
{
    if lines.len() == 0 {
        None
    } else {
        let t = trimmed(lines[0]);
        match service_in(t) {
            Some(s) => service_of(lines.skip(1), dev, Some(s)),
            None => if occurs(t, "Device: "@ + dev + ")"@) {
                last
            } else {
                service_of(lines.skip(1), dev, last)
            },
        }
    }
}

/// The network service behind the default route, out of what `route -n get
/// default` and `networksetup -listnetworkserviceorder` say.
pub open spec fn primary_service_of(route: Seq<char>, order: Seq<char>) -> Option<Seq<char>> {
    match field_of(lines_of(route), "interface:"@) {
        Some(dev) => service_of(lines_of(order), dev, None),
        None => None,
    }
}

/// The network service behind the default route.
pub fn primary_service(route: &str, order: &str) -> (r: Option<String>)
    ensures
        match primary_service_of(route@, order@) {
            Some(s) => r is Some && r->Some_0@ == s,
            None => r is None,
        },
{
    let dev = match find_field(route, "interface:") {
        Some(d) => d,
        None => return None,
    };
    let needle = "Device: ".to_owned().concat(dev.as_str()).concat(")");
    let ls = lines(order);
    let n: usize = ls.len();
    let ghost all = texts(ls@);
    let mut last: Option<String> = None;
    let mut i: usize = 0;
    assert(all.skip(0) =~= all);
    while i < n
        invariant
            n == ls@.len(),
            i <= n,
            all == texts(ls@),
            all == lines_of(order@),
            needle@ == "Device: "@ + dev@ + ")"@,
            field_of(lines_of(route@), "interface:"@) == Some(dev@),
            service_of(all, dev@, None) == service_of(
                all.skip(i as int),
                dev@,
                match last {
                    Some(s) => Some(s@),
                    None => None,
                },
            ),
        decreases n - i,
    {
        assert(all.skip(i as int)[0] == ls@[i as int]@);
        assert(all.skip(i as int).skip(1) =~= all.skip(i + 1));
        let t = trim(ls[i].as_str());
        match find_service(t.as_str()) {
            Some(s) => {
                last = Some(s);
            },
            None => {
                if contains(t.as_str(), needle.as_str()) {
                    return last;
                }
            },
        }
        i = i + 1;
    }
    None
}

/// What is run to set a value of GNOME's and to print it.
pub proof fn law_gnome_commands(schema: Seq<char>, key: Seq<char>, value: Seq<char>)
    ensures
        gnome_set(schema, key, value).program == "gsettings"@,
        gnome_set(schema, key, value).args == seq!["set"@, schema, key, value],
        gnome_get(schema, key).program == "gsettings"@,
        gnome_get(schema, key).args == seq!["get"@, schema, key],
{
    assert(gnome_set(schema, key, value).args =~= seq!["set"@, schema, key, value]);
    assert(gnome_get(schema, key).args =~= seq!["get"@, schema, key]);
}

proof fn lemma_gnome_after_joined(
    a: Seq<CmdView>,
    b: Seq<CmdView>,
    m: Map<(Seq<char>, Seq<char>), Seq<char>>,
)
    ensures
        gnome_after(a + b, m) == gnome_after(b, gnome_after(a, m)),
    decreases b.len(),
{
    if b.len() == 0 {
        assert(a + b =~= a);
    } else {
        assert((a + b).drop_last() =~= a + b.drop_last());
        lemma_gnome_after_joined(a, b.drop_last(), m);
    }
}

/// After the commands of the plan for Linux, GNOME's mode is manual, and both its proxy
/// for plain web traffic and the one for encrypted web traffic are the given host and
/// port. No other setting has changed.
pub proof fn law_gnome_holds_the_proxy(
    host: Seq<char>,
    port: Seq<char>,
    m: Map<(Seq<char>, Seq<char>), Seq<char>>,
)
    ensures
        ({
            let set_mode = CmdView {
                program: "gsettings"@,
                args: seq!["set"@, "org.gnome.system.proxy"@, "mode"@, "manual"@],
            };
            let after = gnome_after(seq![set_mode] + gnome_more(host, port), m);
            &&& after.contains_pair(("org.gnome.system.proxy"@, "mode"@), "manual"@)
            &&& after.contains_pair(("org.gnome.system.proxy.http"@, "host"@), host)
            &&& after.contains_pair(("org.gnome.system.proxy.http"@, "port"@), port)
            &&& after.contains_pair(("org.gnome.system.proxy.https"@, "host"@), host)
            &&& after.contains_pair(("org.gnome.system.proxy.https"@, "port"@), port)
            &&& forall|schema: Seq<char>, key: Seq<char>|
                schema != "org.gnome.system.proxy"@ && schema != "org.gnome.system.proxy.http"@
                    && schema != "org.gnome.system.proxy.https"@ ==> (
                #[trigger] after.dom().contains((schema, key)) <==> m.dom().contains(
                    (schema, key),
                )) && (m.dom().contains((schema, key)) ==> after[(schema, key)] == m[(
                    schema,
                    key,
                )])
        }),
        forall|i: int|
            0 <= i < gnome_more(host, port).len() ==> #[trigger] gnome_more(host, port)[i].program
                == "gsettings"@,
{
    let base = "org.gnome.system.proxy"@;
    let http = "org.gnome.system.proxy.http"@;
    let https = "org.gnome.system.proxy.https"@;
    let none = Seq::<CmdView>::empty();
    let set_mode = CmdView {
        program: "gsettings"@,
        args: seq!["set"@, base, "mode"@, "manual"@],
    };
    assert(gnome_set(base, "mode"@, "manual"@).args =~= set_mode.args);
    assert(seq![set_mode] =~= none.push(gnome_set(base, "mode"@, "manual"@)));
    lemma_gnome_after_push(none, base, "mode"@, "manual"@, m);
    let m1 = gnome_after(seq![set_mode], m);
    let a1 = none.push(gnome_set(http, "host"@, host));
    let a2 = a1.push(gnome_set(http, "port"@, port));
    let a3 = a2.push(gnome_set(https, "host"@, host));
    lemma_gnome_after_push(none, http, "host"@, host, m1);
    lemma_gnome_after_push(a1, http, "port"@, port, m1);
    lemma_gnome_after_push(a2, https, "host"@, host, m1);
    lemma_gnome_after_push(a3, https, "port"@, port, m1);
    lemma_gnome_after_joined(seq![set_mode], gnome_more(host, port), m);
    reveal_strlit("org.gnome.system.proxy");
    reveal_strlit("org.gnome.system.proxy.http");
    reveal_strlit("org.gnome.system.proxy.https");
    reveal_strlit("host");
    reveal_strlit("port");
    assert("host"@[0] != "port"@[0]);
    assert(base.len() != http.len() && base.len() != https.len() && http.len() != https.len());
}

/// Where the setting so far is not known, putting it back turns GNOME's proxy off and
/// changes nothing else.
pub proof fn law_gnome_is_turned_off(m: Map<(Seq<char>, Seq<char>), Seq<char>>)
    ensures
        gnome_after(gnome_undo(None), m) == m.insert(
            ("org.gnome.system.proxy"@, "mode"@),
            "none"@,
        ),
{
    let none = Seq::<CmdView>::empty();
    lemma_gnome_after_push(none, "org.gnome.system.proxy"@, "mode"@, "none"@, m);
}

/// What puts a proxy of a service on macOS back: the last command says whether it is on,
/// and where it had a server, the one before it names that server and its port. Both name
/// the service.
pub proof fn law_service_undo(
    set: Seq<char>,
    state: Seq<char>,
    service: Seq<char>,
    b: ServiceProxy,
)
    ensures
        ({
            let undo = service_undo(set, state, service, b);
            &&& undo.len() > 0
            &&& undo.len() == 2 <==> b.server@.len() > 0
            &&& undo.len() <= 2
            &&& undo.last().program == "networksetup"@
            &&& b.enabled ==> undo.last().args == seq![state, service, "on"@]
            &&& !b.enabled ==> undo.last().args == seq![state, service, "off"@]
            &&& undo.len() == 2 ==> undo[0].program == "networksetup"@
            &&& undo.len() == 2 ==> undo[0].args == seq![set, service, b.server@, b.port@]
        }),
{
    let undo = service_undo(set, state, service, b);
    if b.enabled {
        assert(undo.last().args =~= seq![state, service, "on"@]);
    } else {
        assert(undo.last().args =~= seq![state, service, "off"@]);
    }
    if b.server@.len() > 0 {
        assert(undo[0].args =~= seq![set, service, b.server@, b.port@]);
    }
}

/// A listener on a host, with or without brackets round it, is dialed at that host and
/// its port.
pub proof fn law_listener_is_dialed_at_its_host(h: Seq<char>, p: Seq<char>)
    requires
        forall|j: int| 0 <= j < p.len() ==> #[trigger] p[j] != ':',
        h.len() > 0,
        h[0] != '[' && h[0] != ']',
        h.last() != '[' && h.last() != ']',
        h != "0.0.0.0"@,
        h != "::"@,
    ensures
        dialed(h + seq![':'] + p) == (h, p),
        dialed(seq!['['] + h + seq![']'] + seq![':'] + p) == (h, p),
        h.contains(':') || dialed(h) == (h, "7890"@),
{
    reveal_strlit("0.0.0.0");
    reveal_strlit("::");
    reveal_strlit("[::]");
    law_around_last(h, ':', p);
    let q = seq!['['] + h + seq![']'];
    law_around_last(q, ':', p);
    assert(unbracketed_start(h) == h);
    assert(unbracketed_end(h) == h);
    assert(q[0] == '[');
    assert(q.skip(1) =~= h + seq![']']);
    assert((h + seq![']'])[0] == h[0]);
    assert(unbracketed_start(q.skip(1)) == q.skip(1));
    assert(unbracketed_start(q) == q.skip(1));
    assert((h + seq![']']).last() == ']');
    assert((h + seq![']']).drop_last() =~= h);
    assert(unbracketed_end(h + seq![']']) == unbracketed_end(h));
    assert(q != "0.0.0.0"@);
    assert(q != "::"@);
    if q == "[::]"@ {
        assert(h =~= q.subrange(1, 3));
        assert("[::]"@.subrange(1, 3) =~= "::"@);
        assert(false);
    }
    if !h.contains(':') {
        law_around_last(Seq::empty(), ':', h);
    }
}

/// A listener on all addresses is dialed on this machine.
pub proof fn law_listener_on_all_addresses_is_dialed_here(h: Seq<char>, p: Seq<char>)
    requires
        forall|j: int| 0 <= j < p.len() ==> #[trigger] p[j] != ':',
        h.len() == 0 || h == "0.0.0.0"@ || h == "::"@ || h == "[::]"@,
    ensures
        dialed(h + seq![':'] + p) == ("127.0.0.1"@, p),
{
    law_around_last(h, ':', p);
}

/// A field is what follows its key on the first line that begins with the key, white
/// space aside.
pub proof fn law_field(
    before: Seq<Seq<char>>,
    line: Seq<char>,
    after: Seq<Seq<char>>,
    key: Seq<char>,
    value: Seq<char>,
)
    requires
        trimmed(line) == key + value,
        forall|i: int|
            0 <= i < before.len() ==> without_prefix(trimmed(#[trigger] before[i]), key) is None,
    ensures
        field_of(before + seq![line] + after, key) == Some(trimmed(value)),
        field_of(before, key) is None,
    decreases before.len(),
{
    let all = before + seq![line] + after;
    if before.len() == 0 {
        law_without_prefix(key, value);
    } else {
        assert(all[0] == before[0]);
        assert(all.skip(1) =~= before.skip(1) + seq![line] + after);
        assert forall|i: int| 0 <= i < before.skip(1).len() implies without_prefix(
            trimmed(#[trigger] before.skip(1)[i]),
            key,
        ) is None by {
            assert(before.skip(1)[i] == before[i + 1]);
        }
        law_field(before.skip(1), line, after, key, value);
    }
}

/// A line of the service listing such as `(1) Wi-Fi` introduces the service named behind
/// the first closing bracket; one whose brackets hold a hardware port introduces none, nor
/// does one that does not begin with a bracket.
pub proof fn law_service_lines(number: Seq<char>, name: Seq<char>, line: Seq<char>)
    requires
        forall|j: int| 0 <= j < number.len() ==> #[trigger] number[j] != ')',
    ensures
        !occurs(number, "Hardware Port"@) ==> service_in("("@ + (number + seq![')'] + name))
            == Some(trimmed(name)),
        occurs(number, "Hardware Port"@) ==> service_in("("@ + (number + seq![')'] + name))
            is None,
        line.len() == 0 || line[0] != '(' ==> service_in(line) is None,
{
    let rest = number + seq![')'] + name;
    law_without_prefix("("@, rest);
    law_without_prefix("("@, line);
    reveal_strlit("(");
    lemma_next_at_found(number, ')', name, 0);
    assert(rest.subrange(0, number.len() as int) =~= number);
    assert(rest.subrange(number.len() as int + 1, rest.len() as int) =~= name);
}

/// In a service listing, the service of a device is the one that was introduced last
/// before the line that names the device.
pub proof fn law_service_of_a_device(
    before: Seq<Seq<char>>,
    intro: Seq<char>,
    device: Seq<char>,
    after: Seq<Seq<char>>,
    dev: Seq<char>,
    service: Seq<char>,
    last: Option<Seq<char>>,
)
    requires
        forall|i: int|
            0 <= i < before.len() ==> service_in(trimmed(#[trigger] before[i])) is Some || !occurs(
                trimmed(before[i]),
                "Device: "@ + dev + ")"@,
            ),
        service_in(trimmed(intro)) == Some(service),
        service_in(trimmed(device)) is None,
        occurs(trimmed(device), "Device: "@ + dev + ")"@),
    ensures
        service_of(before + seq![intro, device] + after, dev, last) == Some(service),
    decreases before.len(),
{
    let all = before + seq![intro, device] + after;
    if before.len() == 0 {
        assert(all[0] == intro);
        assert(all.skip(1)[0] == device);
        reveal_with_fuel(service_of, 3);
    } else {
        assert(all[0] == before[0]);
        assert(all.skip(1) =~= before.skip(1) + seq![intro, device] + after);
        assert forall|i: int| 0 <= i < before.skip(1).len() implies service_in(
            trimmed(#[trigger] before.skip(1)[i]),
        ) is Some || !occurs(trimmed(before.skip(1)[i]), "Device: "@ + dev + ")"@) by {
            assert(before.skip(1)[i] == before[i + 1]);
        }
        let now = match service_in(trimmed(before[0])) {
            Some(s) => Some(s),
            None => last,
        };
        law_service_of_a_device(before.skip(1), intro, device, after, dev, service, now);
    }
}

/// The network service behind the default route is the one on the interface that the route
/// names; a route that names none has none.
pub proof fn law_primary_service(route: Seq<char>, order: Seq<char>)
    ensures
        field_of(lines_of(route), "interface:"@) is Some ==> primary_service_of(route, order)
            == service_of(
            lines_of(order),
            field_of(lines_of(route), "interface:"@)->Some_0,
            None,
        ),
        field_of(lines_of(route), "interface:"@) is None ==> primary_service_of(route, order)
            is None,
{
}

}
