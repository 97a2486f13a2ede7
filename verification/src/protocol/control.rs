//! Handshake and control payloads.

use vstd::prelude::*;
use vstd::string::*;

use crate::addr::{socket_text, Ipv4Addr, Ipv6Addr, SocketAddr};
use crate::config::SessionMode;
use crate::text::{decimal, decimal_text};

verus! {

impl View for Ipv4Addr {
    type V = Ipv4Addr;

    open spec fn view(&self) -> Ipv4Addr {
        *self
    }
}

impl View for Ipv6Addr {
    type V = Ipv6Addr;

    open spec fn view(&self) -> Ipv6Addr {
        *self
    }
}

/// The views of the items of a list.
pub open spec fn views<T: View>(v: Seq<T>) -> Seq<T::V> {
    v.map_values(|x: T| x@)
}

/// The view of an optional item.
pub open spec fn opt_view<T: View>(v: Option<T>) -> Option<T::V> {
    match v {
        Some(x) => Some(x@),
        None => None,
    }
}

/// First frame a client sends once the encrypted channel is up.
#[derive(Debug)]
pub struct Hello {
    pub version: u16,
    /// Pre-shared identity token. Maps to a peer record on the server.
    pub token: String,
    pub mode: SessionMode,
    /// Virtual address the client would like; the server may pin another.
    pub requested_ip: Option<Ipv4Addr>,
    /// Friendly name shown in the admin panel.
    pub client_name: Option<String>,
    /// Join the server's peer LAN in addition to what `mode` does. Always implied
    /// by [`SessionMode::Vpn`].
    pub join_vpn: bool,
}

pub struct HelloView {
    pub version: u16,
    pub token: Seq<char>,
    pub mode: SessionMode,
    pub requested_ip: Option<Ipv4Addr>,
    pub client_name: Option<Seq<char>>,
    pub join_vpn: bool,
}

impl View for Hello {
    type V = HelloView;

    open spec fn view(&self) -> HelloView {
        HelloView {
            version: self.version,
            token: self.token@,
            mode: self.mode,
            requested_ip: self.requested_ip,
            client_name: opt_view(self.client_name),
            join_vpn: self.join_vpn,
        }
    }
}

/// The server's acceptance, with the assigned virtual network parameters.
#[derive(Debug)]
pub struct Welcome {
    pub session_id: u128,
    pub assigned_ip: Ipv4Addr,
    pub prefix_len: u8,
    pub gateway: Ipv4Addr,
    pub mtu: u16,
    pub dns: Vec<Ipv4Addr>,
    /// IPv6 parameters, present only when the server has IPv6 egress and a
    /// subnet for it.
    pub assigned_ip6: Option<Ipv6Addr>,
    pub prefix6: u8,
    pub gateway6: Option<Ipv6Addr>,
    pub dns6: Vec<Ipv6Addr>,
}

pub struct WelcomeView {
    pub session_id: u128,
    pub assigned_ip: Ipv4Addr,
    pub prefix_len: u8,
    pub gateway: Ipv4Addr,
    pub mtu: u16,
    pub dns: Seq<Ipv4Addr>,
    pub assigned_ip6: Option<Ipv6Addr>,
    pub prefix6: u8,
    pub gateway6: Option<Ipv6Addr>,
    pub dns6: Seq<Ipv6Addr>,
}

impl View for Welcome {
    type V = WelcomeView;

    open spec fn view(&self) -> WelcomeView {
        WelcomeView {
            session_id: self.session_id,
            assigned_ip: self.assigned_ip,
            prefix_len: self.prefix_len,
            gateway: self.gateway,
            mtu: self.mtu,
            dns: self.dns@,
            assigned_ip6: self.assigned_ip6,
            prefix6: self.prefix6,
            gateway6: self.gateway6,
            dns6: self.dns6@,
        }
    }
}

/// One peer as reported to a client: its virtual addresses and its name.
#[derive(Debug)]
pub struct PeerInfo {
    pub ip: Ipv4Addr,
    pub name: String,
    pub ip6: Option<Ipv6Addr>,
}

pub struct PeerInfoView {
    pub ip: Ipv4Addr,
    pub name: Seq<char>,
    pub ip6: Option<Ipv6Addr>,
}

impl View for PeerInfo {
    type V = PeerInfoView;

    open spec fn view(&self) -> PeerInfoView {
        PeerInfoView { ip: self.ip, name: self.name@, ip6: self.ip6 }
    }
}

/// Destination of a proxied stream. Domains are resolved by the server, so name
/// lookups travel through the tunnel too.
#[derive(Debug)]
pub enum TargetAddr {
    Ip(SocketAddr),
    Domain(String, u16),
}

pub enum TargetView {
    Ip(SocketAddr),
    Domain(Seq<char>, u16),
}

impl View for TargetAddr {
    type V = TargetView;

    open spec fn view(&self) -> TargetView {
        match self {
            TargetAddr::Ip(a) => TargetView::Ip(*a),
            TargetAddr::Domain(h, p) => TargetView::Domain(h@, *p),
        }
    }
}

/// The text of a target: `host:port`.
pub open spec fn target_text(t: TargetView) -> Seq<char> {
    match t {
        TargetView::Ip(a) => socket_text(a),
        TargetView::Domain(h, p) => h + ":"@ + decimal(p as nat),
    }
}

impl TargetAddr {
    /// The text of the target: `host:port`.
    pub fn to_text(&self) -> (r: String)
        ensures
            r@ == target_text(self@),
    {
        match self {
            TargetAddr::Ip(a) => a.to_text(),
            TargetAddr::Domain(h, p) => h.clone().concat(":").concat(
                decimal_text(*p as u64).as_str(),
            ),
        }
    }
}

}
