//! WebSocket transport: each binary WebSocket frame is one channel message.

use vstd::prelude::*;
use vstd::string::*;

use super::{Endpoint, MessageSink, MessageStream};
use crate::error::{Error, Failure};
use crate::text::{decimal, decimal_text};

verus! {

/// The request address of the WebSocket upgrade.
pub open spec fn url_of(server_name: Seq<char>, port: u16, path: Seq<char>) -> Seq<char> {
    "wss://"@ + server_name + ":"@ + decimal(port as nat) + path
}

/// The request address of the WebSocket upgrade.
pub fn ws_url(ep: &Endpoint) -> (r: String)
    ensures
        r@ == url_of(ep.server_name@, ep.port, ep.ws_path@),
{
    "wss://".to_owned().concat(ep.server_name.as_str()).concat(":").concat(
        decimal_text(ep.port as u64).as_str(),
    ).concat(ep.ws_path.as_str())
}

/// What a WebSocket connection reports.
pub enum WsEvent {
    /// A binary frame.
    Binary(Vec<u8>),
    /// A close frame, or the end of the connection.
    Close,
    /// A text, ping or pong frame.
    Other,
    /// The connection is closed already.
    AlreadyClosed,
    /// Another failure, with its message.
    Failed(String),
}

/// What a failed operation on a WebSocket connection means; `closed` says that
/// the connection reports itself closed.
pub open spec fn ws_failure(closed: bool, message: Seq<char>) -> Failure {
    if closed {
        Failure::Closed
    } else {
        Failure::Transport("ws: "@ + message)
    }
}

/// What a failed operation on a WebSocket connection means.
pub fn ws_err(closed: bool, message: &str) -> (r: Error)
    ensures
        r@ == ws_failure(closed, message@),
{
    if closed {
        Error::Closed
    } else {
        Error::Transport("ws: ".to_owned().concat(message))
    }
}

/// Read half of a WebSocket channel: what the connection has reported and nobody
/// has read.
pub struct WsRx {
    pub events: Vec<WsEvent>,
}

/// The outcome of reading past the frames that carry no message.
pub open spec fn ws_next(events: Seq<WsEvent>) -> (Result<Option<Seq<u8>>, Failure>, nat)
    decreases events.len(),
{
    if events.len() == 0 {
        (Ok(None), 0)
    } else {
        match events[0] {
            WsEvent::Binary(b) => (Ok(Some(b@)), 1),
            WsEvent::Close => (Err(Failure::Closed), 1),
            WsEvent::AlreadyClosed => (Err(ws_failure(true, Seq::empty())), 1),
            WsEvent::Failed(m) => (Err(ws_failure(false, m@)), 1),
            WsEvent::Other => (ws_next(events.skip(1)).0, 1 + ws_next(events.skip(1)).1),
        }
    }
}

impl WsRx {
    /// A channel on which nothing was reported yet.
    pub fn new() -> (r: WsRx)
        ensures
            r.events@ == Seq::<WsEvent>::empty(),
    {
        WsRx { events: Vec::new() }
    }

    /// Takes what the connection reports.
    pub fn feed(&mut self, e: WsEvent)
        ensures
            final(self).events@ == old(self).events@.push(e),
    {
        self.events.push(e);
    }
}

impl MessageStream for WsRx {
    open spec fn receives(pre: WsRx, post: WsRx, r: Result<Option<Seq<u8>>, Failure>) -> bool {
        &&& r == ws_next(pre.events@).0
        &&& post.events@ == pre.events@.skip(ws_next(pre.events@).1 as int)
    }

    open spec fn gathers(pre: WsRx, post: WsRx, r: Result<Option<Seq<u8>>, Failure>) -> bool {
        Self::receives(pre, post, r)
    }

    fn recv(&mut self) -> (r: Result<Option<Vec<u8>>, Error>) {
        assert(self.events@.skip(0) =~= self.events@);
        let ghost mut seen: nat = 0;
        while self.events.len() > 0
            invariant
                seen <= old(self).events@.len(),
                self.events@ == old(self).events@.skip(seen as int),
                ws_next(old(self).events@).0 == ws_next(self.events@).0,
                ws_next(old(self).events@).1 == seen + ws_next(self.events@).1,
            decreases self.events@.len(),
        {
            let ghost before = self.events@;
            let e = self.events.remove(0);
            assert(self.events@ =~= before.skip(1));
            assert(self.events@ =~= old(self).events@.skip(seen as int + 1));
            proof {
                seen = seen + 1;
            }
            match e {
                WsEvent::Binary(b) => return Ok(Some(b)),
                WsEvent::Close => return Err(Error::Closed),
                WsEvent::AlreadyClosed => return Err(ws_err(true, "")),
                WsEvent::Failed(m) => return Err(ws_err(false, m.as_str())),
                WsEvent::Other => {},
            }
        }
        Ok(None)
    }

    fn gather(&mut self) -> (r: Result<Option<Vec<u8>>, Error>) {
        self.recv()
    }
}

/// Write half of a WebSocket channel: the binary frames that the connection has
/// not taken yet.
pub struct WsSink {
    pub frames: Vec<Vec<u8>>,
    /// Whether a close frame is to follow them.
    pub shut: bool,
}

impl WsSink {
    /// A channel on which nothing was sent yet.
    pub fn new() -> (r: WsSink)
        ensures
            r.frames@ == Seq::<Vec<u8>>::empty(),
            !r.shut,
    {
        WsSink { frames: Vec::new(), shut: false }
    }
}

impl MessageSink for WsSink {
    open spec fn sends(pre: WsSink, msg: Seq<u8>, post: WsSink, r: Result<(), Failure>) -> bool {
        &&& r == Ok::<(), Failure>(())
        &&& post.shut == pre.shut
        &&& post.frames@.len() == pre.frames@.len() + 1
        &&& post.frames@.drop_last() == pre.frames@
        &&& post.frames@.last()@ == msg
    }

    open spec fn carries(pre: WsSink, msg: Seq<u8>, post: WsSink, r: Result<(), Failure>) -> bool {
        Self::sends(pre, msg, post, r)
    }

    open spec fn closes(pre: WsSink, post: WsSink, r: Result<(), Failure>) -> bool {
        post.frames@ == pre.frames@ && post.shut && r == Ok::<(), Failure>(())
    }

    fn send(&mut self, msg: &[u8]) -> (r: Result<(), Error>) {
        let m = crate::bytes::slice_of(msg, 0, msg.len());
        assert(m@ =~= msg@);
        self.frames.push(m);
        assert(self.frames@.drop_last() =~= old(self).frames@);
        Ok(())
    }

    fn carry(&mut self, msg: &[u8]) -> (r: Result<(), Error>) {
        self.send(msg)
    }

    fn close(&mut self) -> (r: Result<(), Error>) {
        self.shut = true;
        Ok(())
    }
}

}
