//! The application frame carried over a message channel.

use vstd::prelude::*;

use super::control::{
    opt_view, views, Hello, HelloView, PeerInfo, PeerInfoView, TargetAddr, TargetView, Welcome,
    WelcomeView,
};

verus! {

/// One application frame, encoded into a single channel message.
#[derive(Debug)]
pub enum Frame {
    Hello(Hello),
    Welcome(Welcome),
    Reject { reason: String },
    Ping,
    Pong,
    /// One raw IP packet captured from, or destined for, a TUN device.
    Packet(Vec<u8>),
    StreamOpen { id: u32, target: TargetAddr },
    StreamData { id: u32, data: Vec<u8> },
    StreamClose { id: u32, error: Option<String> },
    /// Client to server: who else is on this VPN?
    GetPeers,
    /// Server to client: the other VPN members on this server.
    PeerList { peers: Vec<PeerInfo> },
}

pub enum FrameView {
    Hello(HelloView),
    Welcome(WelcomeView),
    Reject { reason: Seq<char> },
    Ping,
    Pong,
    Packet(Seq<u8>),
    StreamOpen { id: u32, target: TargetView },
    StreamData { id: u32, data: Seq<u8> },
    StreamClose { id: u32, error: Option<Seq<char>> },
    GetPeers,
    PeerList { peers: Seq<PeerInfoView> },
}

impl View for Frame {
    type V = FrameView;

    open spec fn view(&self) -> FrameView {
        match self {
            Frame::Hello(h) => FrameView::Hello(h@),
            Frame::Welcome(w) => FrameView::Welcome(w@),
            Frame::Reject { reason } => FrameView::Reject { reason: reason@ },
            Frame::Ping => FrameView::Ping,
            Frame::Pong => FrameView::Pong,
            Frame::Packet(p) => FrameView::Packet(p@),
            Frame::StreamOpen { id, target } => FrameView::StreamOpen { id: *id, target: target@ },
            Frame::StreamData { id, data } => FrameView::StreamData { id: *id, data: data@ },
            Frame::StreamClose { id, error } => FrameView::StreamClose {
                id: *id,
                error: opt_view(*error),
            },
            Frame::GetPeers => FrameView::GetPeers,
            Frame::PeerList { peers } => FrameView::PeerList { peers: views(peers@) },
        }
    }
}

/// How many payload bytes a frame counts for in the traffic statistics.
pub open spec fn payload_len(f: FrameView) -> nat {
    match f {
        FrameView::Packet(p) => p.len(),
        FrameView::StreamData { id, data } => data.len(),
        _ => 0,
    }
}

impl Frame {
    /// How many payload bytes the frame counts for in the traffic statistics.
    pub fn payload(&self) -> (n: u64)
        ensures
            n == payload_len(self@),
    {
        match self {
            Frame::Packet(p) => p.len() as u64,
            Frame::StreamData { data, .. } => data.len() as u64,
            _ => 0,
        }
    }
}

}
