//! Transport layer: an encrypted, ordered, reliable channel of byte messages.
//!
//! The channel types here hold bytes and decide; moving the bytes to and from a
//! connection is left to the caller.

use vstd::prelude::*;
use vstd::string::*;

use crate::config::TransportKind;
use crate::error::{Error, Failure};

pub mod framing;
pub mod laws;
pub mod tcp;
pub mod ws;

verus! {

/// The view of an outcome without a value.
pub open spec fn unit_view(r: Result<(), Error>) -> Result<(), Failure> {
    match r {
        Ok(_) => Ok(()),
        Err(e) => Err(e@),
    }
}

/// The view of an attempt to read a message: a message, nothing yet, or a
/// failure.
pub open spec fn message_view(r: Result<Option<Vec<u8>>, Error>) -> Result<
    Option<Seq<u8>>,
    Failure,
> {
    match r {
        Ok(Some(m)) => Ok(Some(m@)),
        Ok(None) => Ok(None),
        Err(e) => Err(e@),
    }
}

/// Write half of an encrypted message channel.
pub trait MessageSink: Sized {
    /// Whether sending `msg` takes the sink from `pre` to `post` with outcome `r`.
    spec fn sends(pre: Self, msg: Seq<u8>, post: Self, r: Result<(), Failure>) -> bool;

    /// Whether closing takes the sink from `pre` to `post` with outcome `r`.
    spec fn closes(pre: Self, post: Self, r: Result<(), Failure>) -> bool;

    /// Whether carrying the frame `msg` takes the sink from `pre` to `post` with
    /// outcome `r`.
    spec fn carries(pre: Self, msg: Seq<u8>, post: Self, r: Result<(), Failure>) -> bool;

    /// Sends one message.
    fn send(&mut self, msg: &[u8]) -> (r: Result<(), Error>)
        ensures
            Self::sends(*old(self), msg@, *final(self), unit_view(r)),
    ;

    /// Sends one frame: as one message, or as several where the channel splits frames
    /// that are too long for one.
    fn carry(&mut self, msg: &[u8]) -> (r: Result<(), Error>)
        ensures
            Self::carries(*old(self), msg@, *final(self), unit_view(r)),
    ;

    /// Closes the write side.
    fn close(&mut self) -> (r: Result<(), Error>)
        ensures
            Self::closes(*old(self), *final(self), unit_view(r)),
    ;
}

/// Read half of an encrypted message channel.
pub trait MessageStream: Sized {
    /// Whether an attempt to read takes the stream from `pre` to `post` with
    /// outcome `r`.
    spec fn receives(pre: Self, post: Self, r: Result<Option<Seq<u8>>, Failure>) -> bool;

    /// Whether an attempt to read a frame takes the stream from `pre` to `post` with
    /// outcome `r`.
    spec fn gathers(pre: Self, post: Self, r: Result<Option<Seq<u8>>, Failure>) -> bool;

    /// Reads one message, if all of it has arrived. Fails with
    /// [`Error::Closed`] at the end of the channel.
    fn recv(&mut self) -> (r: Result<Option<Vec<u8>>, Error>)
        ensures
            Self::receives(*old(self), *final(self), message_view(r)),
    ;

    /// Reads one frame, out of one message or of several, if all of it has arrived.
    fn gather(&mut self) -> (r: Result<Option<Vec<u8>>, Error>)
        ensures
            Self::gathers(*old(self), *final(self), message_view(r)),
    ;
}

/// Where a client dials.
#[derive(Debug)]
pub struct Endpoint {
    pub host: String,
    pub port: u16,
    pub kind: TransportKind,
    /// WebSocket request path (ignored for tcp and quic).
    pub ws_path: String,
    /// TLS server name (ws and quic).
    pub server_name: String,
}

/// Client-side security material.
pub struct ClientSecurity {
    /// Pre-shared key of the Noise channel.
    pub noise_psk: [u8; 32],
    /// For TLS transports: skip certificate verification.
    pub tls_skip_verify: bool,
    /// For TLS transports: trust exactly this certificate (PEM).
    pub tls_pinned_cert_pem: Option<String>,
}

/// Server-side security material.
pub struct ServerSecurity {
    pub noise_psk: [u8; 32],
    pub tls_cert_pem: String,
    pub tls_key_pem: String,
}

/// What a server has to set up to listen.
#[derive(Clone, Copy, Debug, PartialEq, Eq, Structural)]
pub enum Listener {
    /// Accept TCP and answer the Noise handshake.
    Tcp,
    /// Accept TCP and a WebSocket upgrade, over TLS if `tls`.
    Ws { tls: bool },
    /// Accept QUIC.
    Quic,
}

/// What a server has to set up for a transport.
pub open spec fn listener_for(kind: TransportKind, ws_tls: bool) -> Listener {
    match kind {
        TransportKind::Tcp => Listener::Tcp,
        TransportKind::Ws => Listener::Ws { tls: ws_tls },
        TransportKind::Quic => Listener::Quic,
    }
}

impl Listener {
    /// What to set up for a transport. `ws_tls` says whether a WebSocket listener
    /// terminates TLS itself or leaves that to a front proxy; the other
    /// transports ignore it.
    pub fn bind(kind: TransportKind, ws_tls: bool) -> (r: Listener)
        ensures
            r == listener_for(kind, ws_tls),
    {
        match kind {
            TransportKind::Tcp => Listener::Tcp,
            TransportKind::Ws => Listener::Ws { tls: ws_tls },
            TransportKind::Quic => Listener::Quic,
        }
    }

    /// Whether listening needs a certificate and its key.
    pub fn needs_certificate(&self) -> (r: bool)
        ensures
            r == (*self matches Listener::Quic || (*self matches Listener::Ws { tls } && tls)),
    {
        match self {
            Listener::Tcp => false,
            Listener::Ws { tls } => *tls,
            Listener::Quic => true,
        }
    }
}

/// Whether a transport can run over a byte stream that another hop relays: QUIC
/// needs datagrams, so it can only be dialed directly.
pub open spec fn runs_over_stream(kind: TransportKind) -> bool {
    kind != TransportKind::Quic
}

/// Why QUIC cannot follow another hop.
pub open spec fn quic_not_first() -> Seq<char> {
    "QUIC can only be the first hop of a proxy chain (UDP can't tunnel over a relayed stream)"@
}

/// Whether the handshake of `ep` can be run over an established byte stream
/// instead of a fresh connection. Used for every hop of a chain after the first.
pub fn connect_over(ep: &Endpoint) -> (r: Result<TransportKind, Error>)
    ensures
        match r {
            Ok(k) => runs_over_stream(ep.kind) && k == ep.kind,
            Err(e) => !runs_over_stream(ep.kind) && e@ == Failure::NotImplemented(quic_not_first()),
        },
{
    match ep.kind {
        TransportKind::Quic => Err(
            Error::NotImplemented(
                "QUIC can only be the first hop of a proxy chain (UDP can't tunnel over a relayed stream)",
            ),
        ),
        kind => Ok(kind),
    }
}

}
