//! Length-delimited framing: a 32-bit big-endian length before each message.
//!
//! Used by the transports whose bytes are already encrypted, where only message
//! boundaries are needed.

use vstd::prelude::*;
use vstd::string::*;

use super::{MessageSink, MessageStream};
use crate::bytes::{be32, be32_at, get_be32, lemma_be32, put_be32, put_bytes, slice_of};
use crate::error::{Error, Failure};
use crate::text::{decimal, decimal_text};
use crate::MAX_MESSAGE_LEN;

verus! {

/// A message as it stands in the byte stream.
pub open spec fn framed(msg: Seq<u8>) -> Seq<u8> {
    be32(msg.len() as u32) + msg
}

/// Messages as they stand in the byte stream, one after the other.
pub open spec fn framed_all(msgs: Seq<Seq<u8>>) -> Seq<u8>
    decreases msgs.len(),
{
    if msgs.len() == 0 {
        Seq::empty()
    } else {
        framed(msgs[0]) + framed_all(msgs.skip(1))
    }
}

/// What the bytes at hand allow.
pub enum Arrived {
    /// A message, and the bytes after it.
    Message(Seq<u8>, Seq<u8>),
    /// Not enough bytes yet.
    Partial,
    /// No message can follow.
    Broken(Failure),
}

/// What the bytes `buf` allow; `eof` says that no more will come.
pub open spec fn arrived(buf: Seq<u8>, eof: bool) -> Arrived {
    if buf.len() < 4 {
        if eof {
            Arrived::Broken(Failure::Closed)
        } else {
            Arrived::Partial
        }
    } else if be32_at(buf, 0) > MAX_MESSAGE_LEN {
        Arrived::Broken(Failure::Protocol("frame too large: "@ + decimal(be32_at(buf, 0) as nat)))
    } else if buf.len() < 4 + be32_at(buf, 0) {
        if eof {
            Arrived::Broken(Failure::Io("early eof"@))
        } else {
            Arrived::Partial
        }
    } else {
        Arrived::Message(buf.subrange(4, 4 + be32_at(buf, 0)), buf.skip(4 + be32_at(buf, 0)))
    }
}

/// Length-delimited sink.
pub struct LdSink {
    /// Bytes for the connection that it has not taken yet.
    pub w: Vec<u8>,
    /// Whether the connection's write side is to be shut down after them.
    pub shut: bool,
}

impl LdSink {
    /// A sink whose connection still has to take the bytes `w`.
    pub fn new(w: Vec<u8>) -> (r: LdSink)
        ensures
            r.w@ == w@,
            !r.shut,
    {
        LdSink { w, shut: false }
    }

    /// Hands over the bytes for the connection.
    pub fn take(&mut self) -> (r: Vec<u8>)
        ensures
            r@ == old(self).w@,
            final(self).w@ == Seq::<u8>::empty(),
            final(self).shut == old(self).shut,
    {
        let mut out: Vec<u8> = Vec::new();
        std::mem::swap(&mut out, &mut self.w);
        out
    }
}

impl MessageSink for LdSink {
    open spec fn sends(pre: LdSink, msg: Seq<u8>, post: LdSink, r: Result<(), Failure>) -> bool {
        &&& post.shut == pre.shut
        &&& if msg.len() > MAX_MESSAGE_LEN {
            post.w@ == pre.w@ && r == Err::<(), Failure>(
                Failure::Protocol("message too large: "@ + decimal(msg.len())),
            )
        } else {
            post.w@ == pre.w@ + framed(msg) && r == Ok::<(), Failure>(())
        }
    }

    open spec fn carries(pre: LdSink, msg: Seq<u8>, post: LdSink, r: Result<(), Failure>) -> bool {
        Self::sends(pre, msg, post, r)
    }

    open spec fn closes(pre: LdSink, post: LdSink, r: Result<(), Failure>) -> bool {
        post.w@ == pre.w@ && post.shut && r == Ok::<(), Failure>(())
    }

    fn send(&mut self, msg: &[u8]) -> (r: Result<(), Error>) {
        if msg.len() > MAX_MESSAGE_LEN {
            let n = decimal_text(msg.len() as u64);
            return Err(Error::Protocol("message too large: ".to_owned().concat(n.as_str())));
        }
        put_be32(&mut self.w, msg.len() as u32);
        put_bytes(&mut self.w, msg);
        assert(self.w@ =~= old(self).w@ + framed(msg@));
        Ok(())
    }

    fn carry(&mut self, msg: &[u8]) -> (r: Result<(), Error>) {
        self.send(msg)
    }

    fn close(&mut self) -> (r: Result<(), Error>) {
        self.shut = true;
        Ok(())
    }
}

/// Length-delimited stream paired with [`LdSink`].
pub struct LdStream {
    /// Bytes that have arrived and belong to no message read yet.
    pub r: Vec<u8>,
    /// Whether the connection has ended.
    pub eof: bool,
}

impl LdStream {
    /// A stream on which the bytes `r` have arrived.
    pub fn new(r: Vec<u8>) -> (s: LdStream)
        ensures
            s.r@ == r@,
            !s.eof,
    {
        LdStream { r, eof: false }
    }

    /// Takes bytes that have arrived.
    pub fn feed(&mut self, bytes: &[u8])
        ensures
            final(self).r@ == old(self).r@ + bytes@,
            final(self).eof == old(self).eof,
    {
        put_bytes(&mut self.r, bytes);
    }

    /// Takes note that the connection has ended.
    pub fn end(&mut self)
        ensures
            final(self).r@ == old(self).r@,
            final(self).eof,
    {
        self.eof = true;
    }
}

impl MessageStream for LdStream {
    open spec fn receives(
        pre: LdStream,
        post: LdStream,
        r: Result<Option<Seq<u8>>, Failure>,
    ) -> bool {
        &&& post.eof == pre.eof
        &&& match arrived(pre.r@, pre.eof) {
            Arrived::Message(m, rest) => post.r@ == rest && r == Ok::<Option<Seq<u8>>, Failure>(
                Some(m),
            ),
            Arrived::Partial => post.r@ == pre.r@ && r == Ok::<Option<Seq<u8>>, Failure>(None),
            Arrived::Broken(f) => post.r@ == pre.r@ && r == Err::<Option<Seq<u8>>, Failure>(f),
        }
    }

    open spec fn gathers(pre: LdStream, post: LdStream, r: Result<Option<Seq<u8>>, Failure>) -> bool {
        Self::receives(pre, post, r)
    }

    fn recv(&mut self) -> (r: Result<Option<Vec<u8>>, Error>) {
        let total: usize = self.r.len();
        if total < 4 {
            return if self.eof {
                Err(Error::Closed)
            } else {
                Ok(None)
            };
        }
        let len: u32 = get_be32(self.r.as_slice(), 0);
        if len > MAX_MESSAGE_LEN as u32 {
            let n = decimal_text(len as u64);
            return Err(Error::Protocol("frame too large: ".to_owned().concat(n.as_str())));
        }
        let end: usize = 4 + len as usize;
        if total < end {
            return if self.eof {
                Err(Error::Io("early eof".to_owned()))
            } else {
                Ok(None)
            };
        }
        let msg = slice_of(self.r.as_slice(), 4, end);
        let rest = slice_of(self.r.as_slice(), end, total);
        assert(rest@ =~= old(self).r@.skip(end as int));
        self.r = rest;
        Ok(Some(msg))
    }

    fn gather(&mut self) -> (r: Result<Option<Vec<u8>>, Error>) {
        self.recv()
    }
}

/// All the messages in `buf`, in order, and the bytes after the last.
pub open spec fn drained(buf: Seq<u8>) -> (Seq<Seq<u8>>, Seq<u8>)
    decreases buf.len(),
{
    match arrived(buf, false) {
        Arrived::Message(m, rest) => if rest.len() < buf.len() {
            (seq![m] + drained(rest).0, drained(rest).1)
        } else {
            (Seq::empty(), buf)
        },
        _ => (Seq::empty(), buf),
    }
}

/// A message that has arrived is not changed by the bytes that come after it.
pub proof fn law_arrival_is_stable(a: Seq<u8>, b: Seq<u8>, eof: bool)
    requires
        arrived(a, false) is Message,
    ensures
        arrived(a + b, eof) == Arrived::Message(
            arrived(a, false)->Message_0,
            arrived(a, false)->Message_1 + b,
        ),
{
    let n = be32_at(a, 0);
    assert(be32_at(a + b, 0) == n);
    assert((a + b).subrange(4, 4 + n) =~= a.subrange(4, 4 + n));
    assert((a + b).skip(4 + n) =~= a.skip(4 + n) + b);
}

proof fn lemma_framed_arrives(m: Seq<u8>, tail: Seq<u8>)
    requires
        m.len() <= MAX_MESSAGE_LEN,
    ensures
        arrived(framed(m) + tail, false) == Arrived::Message(m, tail),
{
    let buf = framed(m) + tail;
    assert(buf.subrange(0, 4) =~= be32(m.len() as u32));
    lemma_be32(m.len() as u32, buf, 0);
    assert(buf.subrange(4, 4 + m.len() as int) =~= m);
    assert(buf.skip(4 + m.len() as int) =~= tail);
}

/// What was sent arrives: reading the bytes of some messages gives back exactly
/// those messages, in order, with nothing left over.
pub proof fn law_framing_round_trip(msgs: Seq<Seq<u8>>)
    requires
        forall|i: int| 0 <= i < msgs.len() ==> (#[trigger] msgs[i]).len() <= MAX_MESSAGE_LEN,
    ensures
        drained(framed_all(msgs)) == (msgs, Seq::<u8>::empty()),
    decreases msgs.len(),
{
    if msgs.len() == 0 {
        assert(msgs =~= Seq::<Seq<u8>>::empty());
    } else {
        let m = msgs[0];
        let later = msgs.skip(1);
        assert forall|i: int| 0 <= i < later.len() implies (#[trigger] later[i]).len()
            <= MAX_MESSAGE_LEN by {
            assert(later[i] == msgs[i + 1]);
        }
        law_framing_round_trip(later);
        lemma_framed_arrives(m, framed_all(later));
        assert(seq![m] + later =~= msgs);
    }
}

/// How the bytes are cut into pieces on the way does not matter: reading what
/// has arrived and then the rest gives the same messages as reading everything at
/// once.
pub proof fn law_chunking(a: Seq<u8>, b: Seq<u8>)
    ensures
        drained(a + b).0 == drained(a).0 + drained(drained(a).1 + b).0,
        drained(a + b).1 == drained(drained(a).1 + b).1,
    decreases a.len(),
{
    match arrived(a, false) {
        Arrived::Message(m, rest) => {
            law_arrival_is_stable(a, b, false);
            assert(rest.len() < a.len());
            assert((rest + b).len() < (a + b).len());
            law_chunking(rest, b);
            let later = drained(drained(rest).1 + b).0;
            assert(seq![m] + (drained(rest).0 + later) =~= (seq![m] + drained(rest).0) + later);
        },
        _ => {
            assert(drained(a).0 + drained(a + b).0 =~= drained(a + b).0);
        },
    }
}

}
