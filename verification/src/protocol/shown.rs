//! How frames are shown in error messages: variant, field names and values.

use vstd::prelude::*;
use vstd::string::*;

use super::control::{
    opt_view, views, Hello, HelloView, PeerInfo, PeerInfoView, TargetAddr, TargetView,
};
use super::frame::{Frame, FrameView};
use crate::addr::{dotted, ipv6_text, socket_text, Ipv4Addr, Ipv6Addr};
use crate::config::SessionMode;
use crate::text::{decimal, decimal_text, quote, quoted};

verus! {

/// Texts with commas between.
pub open spec fn commas(items: Seq<Seq<char>>) -> Seq<char>
    decreases items.len(),
{
    if items.len() == 0 {
        Seq::empty()
    } else if items.len() == 1 {
        items[0]
    } else {
        commas(items.drop_last()) + ", "@ + items.last()
    }
}

/// A list of items that are shown like this.
pub open spec fn list_shown(items: Seq<Seq<char>>) -> Seq<char> {
    "["@ + commas(items) + "]"@
}

/// An optional item that is shown like this.
pub open spec fn option_shown(item: Option<Seq<char>>) -> Seq<char> {
    match item {
        Some(s) => "Some("@ + s + ")"@,
        None => "None"@,
    }
}

/// How bytes are shown.
pub open spec fn bytes_shown(b: Seq<u8>) -> Seq<char> {
    list_shown(b.map_values(|x: u8| decimal(x as nat)))
}

/// How an optional text is shown.
pub open spec fn text_shown(t: Option<Seq<char>>) -> Seq<char> {
    option_shown(
        match t {
            Some(s) => Some(quoted(s)),
            None => None,
        },
    )
}

/// How an optional IPv4 address is shown.
pub open spec fn ip4_shown(ip: Option<Ipv4Addr>) -> Seq<char> {
    option_shown(
        match ip {
            Some(a) => Some(dotted(a.bits)),
            None => None,
        },
    )
}

/// How an optional IPv6 address is shown.
pub open spec fn ip6_shown(ip: Option<Ipv6Addr>) -> Seq<char> {
    option_shown(
        match ip {
            Some(a) => Some(ipv6_text(a.bits)),
            None => None,
        },
    )
}

/// How a mode is shown.
pub open spec fn mode_shown(m: SessionMode) -> Seq<char> {
    match m {
        SessionMode::GlobalProxy => "GlobalProxy"@,
        SessionMode::SystemProxy => "SystemProxy"@,
        SessionMode::HttpProxy => "HttpProxy"@,
        SessionMode::Vpn => "Vpn"@,
    }
}

/// How a truth value is shown.
pub open spec fn bool_shown(b: bool) -> Seq<char> {
    if b {
        "true"@
    } else {
        "false"@
    }
}

/// How a greeting is shown.
pub open spec fn hello_shown(h: HelloView) -> Seq<char> {
    "Hello { version: "@ + decimal(h.version as nat) + ", token: "@ + quoted(h.token) + ", mode: "@
        + mode_shown(h.mode) + ", requested_ip: "@ + ip4_shown(h.requested_ip) + ", client_name: "@
        + text_shown(h.client_name) + ", join_vpn: "@ + bool_shown(h.join_vpn) + " }"@
}

/// How a target is shown.
pub open spec fn target_shown(t: TargetView) -> Seq<char> {
    match t {
        TargetView::Ip(a) => "Ip("@ + socket_text(a) + ")"@,
        TargetView::Domain(h, p) => "Domain("@ + quoted(h) + ", "@ + decimal(p as nat) + ")"@,
    }
}

/// How a peer is shown.
pub open spec fn peer_shown(p: PeerInfoView) -> Seq<char> {
    "PeerInfo { ip: "@ + dotted(p.ip.bits) + ", name: "@ + quoted(p.name) + ", ip6: "@ + ip6_shown(
        p.ip6,
    ) + " }"@
}

/// How a frame is shown. An acceptance is shown by its name alone.
pub open spec fn frame_shown(f: FrameView) -> Seq<char> {
    match f {
        FrameView::Hello(h) => "Hello("@ + hello_shown(h) + ")"@,
        FrameView::Welcome(_) => "Welcome"@,
        FrameView::Reject { reason } => "Reject { reason: "@ + quoted(reason) + " }"@,
        FrameView::Ping => "Ping"@,
        FrameView::Pong => "Pong"@,
        FrameView::Packet(p) => "Packet("@ + bytes_shown(p) + ")"@,
        FrameView::StreamOpen { id, target } => "StreamOpen { id: "@ + decimal(id as nat)
            + ", target: "@ + target_shown(target) + " }"@,
        FrameView::StreamData { id, data } => "StreamData { id: "@ + decimal(id as nat)
            + ", data: "@ + bytes_shown(data) + " }"@,
        FrameView::StreamClose { id, error } => "StreamClose { id: "@ + decimal(id as nat)
            + ", error: "@ + text_shown(error) + " }"@,
        FrameView::GetPeers => "GetPeers"@,
        FrameView::PeerList { peers } => "PeerList { peers: "@ + list_shown(
            peers.map_values(|p: PeerInfoView| peer_shown(p)),
        ) + " }"@,
    }
}

fn show_option(item: Option<String>) -> (r: String)
    ensures
        r@ == option_shown(opt_view(item)),
{
    match item {
        Some(s) => "Some(".to_owned().concat(s.as_str()).concat(")"),
        None => "None".to_owned(),
    }
}

fn show_text(t: &Option<String>) -> (r: String)
    ensures
        r@ == text_shown(opt_view(*t)),
{
    match t {
        Some(s) => show_option(Some(quote(s.as_str()))),
        None => show_option(None),
    }
}

/// Appends one more item to the items shown so far.
fn add_item(so_far: String, first: bool, item: &str) -> (r: String)
    ensures
        r@ == if first {
            so_far@ + item@
        } else {
            so_far@ + ", "@ + item@
        },
{
    if first {
        so_far.concat(item)
    } else {
        so_far.concat(", ").concat(item)
    }
}

proof fn lemma_commas(items: Seq<Seq<char>>, n: int)
    requires
        0 <= n < items.len(),
    ensures
        "["@ + commas(items.take(n + 1)) == if n == 0 {
            "["@ + commas(items.take(n)) + items[n]
        } else {
            "["@ + commas(items.take(n)) + ", "@ + items[n]
        },
{
    assert(items.take(n + 1).drop_last() =~= items.take(n));
    assert(items.take(n + 1).last() == items[n]);
    if n == 0 {
        assert("["@ + commas(items.take(1)) =~= "["@ + commas(items.take(0)) + items[0]);
    } else {
        assert("["@ + commas(items.take(n + 1)) =~= "["@ + commas(items.take(n)) + ", "@
            + items[n]);
    }
}

fn show_bytes(b: &[u8]) -> (r: String)
    ensures
        r@ == bytes_shown(b@),
{
    let n: usize = b.len();
    let ghost items = b@.map_values(|x: u8| decimal(x as nat));
    let mut out = "[".to_owned();
    assert(out@ =~= "["@ + commas(items.take(0)));
    for i in 0..n
        invariant
            n == b@.len(),
            items == b@.map_values(|x: u8| decimal(x as nat)),
            out@ == "["@ + commas(items.take(i as int)),
    {
        proof {
            lemma_commas(items, i as int);
        }
        out = add_item(out, i == 0, decimal_text(b[i] as u64).as_str());
    }
    assert(items.take(n as int) =~= items);
    out.concat("]")
}

fn show_peer(p: &PeerInfo) -> (r: String)
    ensures
        r@ == peer_shown(p@),
{
    let ip6 = match p.ip6 {
        Some(a) => Some(a.to_text()),
        None => None,
    };
    "PeerInfo { ip: ".to_owned().concat(p.ip.to_text().as_str()).concat(", name: ").concat(
        quote(p.name.as_str()).as_str(),
    ).concat(", ip6: ").concat(show_option(ip6).as_str()).concat(" }")
}

fn show_peers(v: &Vec<PeerInfo>) -> (r: String)
    ensures
        r@ == list_shown(views(v@).map_values(|p: PeerInfoView| peer_shown(p))),
{
    let n: usize = v.len();
    let ghost items = views(v@).map_values(|p: PeerInfoView| peer_shown(p));
    let mut out = "[".to_owned();
    assert(out@ =~= "["@ + commas(items.take(0)));
    for i in 0..n
        invariant
            n == v@.len(),
            items == views(v@).map_values(|p: PeerInfoView| peer_shown(p)),
            out@ == "["@ + commas(items.take(i as int)),
    {
        proof {
            lemma_commas(items, i as int);
        }
        out = add_item(out, i == 0, show_peer(&v[i]).as_str());
    }
    assert(items.take(n as int) =~= items);
    out.concat("]")
}

fn show_hello(h: &Hello) -> (r: String)
    ensures
        r@ == hello_shown(h@),
{
    let mode = match h.mode {
        SessionMode::GlobalProxy => "GlobalProxy",
        SessionMode::SystemProxy => "SystemProxy",
        SessionMode::HttpProxy => "HttpProxy",
        SessionMode::Vpn => "Vpn",
    };
    let ip = match h.requested_ip {
        Some(a) => Some(a.to_text()),
        None => None,
    };
    let join = if h.join_vpn {
        "true"
    } else {
        "false"
    };
    "Hello { version: ".to_owned().concat(decimal_text(h.version as u64).as_str()).concat(
        ", token: ",
    ).concat(quote(h.token.as_str()).as_str()).concat(", mode: ").concat(mode).concat(
        ", requested_ip: ",
    ).concat(show_option(ip).as_str()).concat(", client_name: ").concat(
        show_text(&h.client_name).as_str(),
    ).concat(", join_vpn: ").concat(join).concat(" }")
}

fn show_target(t: &TargetAddr) -> (r: String)
    ensures
        r@ == target_shown(t@),
{
    match t {
        TargetAddr::Ip(a) => "Ip(".to_owned().concat(a.to_text().as_str()).concat(")"),
        TargetAddr::Domain(h, p) => "Domain(".to_owned().concat(quote(h.as_str()).as_str()).concat(
            ", ",
        ).concat(decimal_text(*p as u64).as_str()).concat(")"),
    }
}

/// How a frame is shown.
pub fn show_frame(f: &Frame) -> (r: String)
    ensures
        r@ == frame_shown(f@),
{
    match f {
        Frame::Hello(h) => "Hello(".to_owned().concat(show_hello(h).as_str()).concat(")"),
        Frame::Welcome(_) => "Welcome".to_owned(),
        Frame::Reject { reason } => "Reject { reason: ".to_owned().concat(
            quote(reason.as_str()).as_str(),
        ).concat(" }"),
        Frame::Ping => "Ping".to_owned(),
        Frame::Pong => "Pong".to_owned(),
        Frame::Packet(p) => "Packet(".to_owned().concat(show_bytes(p.as_slice()).as_str()).concat(
            ")",
        ),
        Frame::StreamOpen { id, target } => "StreamOpen { id: ".to_owned().concat(
            decimal_text(*id as u64).as_str(),
        ).concat(", target: ").concat(show_target(target).as_str()).concat(" }"),
        Frame::StreamData { id, data } => "StreamData { id: ".to_owned().concat(
            decimal_text(*id as u64).as_str(),
        ).concat(", data: ").concat(show_bytes(data.as_slice()).as_str()).concat(" }"),
        Frame::StreamClose { id, error } => "StreamClose { id: ".to_owned().concat(
            decimal_text(*id as u64).as_str(),
        ).concat(", error: ").concat(show_text(error).as_str()).concat(" }"),
        Frame::GetPeers => "GetPeers".to_owned(),
        Frame::PeerList { peers } => "PeerList { peers: ".to_owned().concat(
            show_peers(peers).as_str(),
        ).concat(" }"),
    }
}

}
