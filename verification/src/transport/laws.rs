//! What the transports put on a connection and take from it.

use vstd::prelude::*;
use vstd::string::*;

use super::framing::{arrived, framed, Arrived, LdSink, LdStream};
use super::tcp::{
    announcement, chunks, cut_short, oversize, pieces, too_long_to_send, too_long_to_take,
};
use super::ws::{url_of, ws_next, WsEvent, WsSink};
use super::{listener_for, runs_over_stream, Listener, MessageSink, MessageStream};
use crate::bytes::be32;
use crate::config::TransportKind;
use crate::error::Failure;
use crate::text::decimal;

verus! {

/// A message on a connection is its length in four bytes, highest byte first, and the
/// message.
pub proof fn law_framed(msg: Seq<u8>)
    requires
        msg.len() <= u32::MAX,
    ensures
        framed(msg).len() == msg.len() + 4,
        framed(msg)[0] * 0x100_0000 + framed(msg)[1] * 0x1_0000 + framed(msg)[2] * 0x100 + framed(
            msg,
        )[3] == msg.len(),
        framed(msg).skip(4) == msg,
{
    crate::bytes::law_highest_byte_first(0, msg.len() as u32);
    assert(framed(msg).skip(4) =~= msg);
    assert(framed(msg)[0] == be32(msg.len() as u32)[0]);
    assert(framed(msg)[1] == be32(msg.len() as u32)[1]);
    assert(framed(msg)[2] == be32(msg.len() as u32)[2]);
    assert(framed(msg)[3] == be32(msg.len() as u32)[3]);
}

/// A message of up to 262144 bytes is found, with what follows it, as soon as all of it is
/// there.
pub proof fn law_messages_arrive(msg: Seq<u8>, rest: Seq<u8>, eof: bool)
    requires
        msg.len() <= 262144,
    ensures
        arrived(framed(msg) + rest, eof) == Arrived::Message(msg, rest),
{
    let buf = framed(msg) + rest;
    assert(buf.subrange(0, 4) =~= be32(msg.len() as u32));
    crate::bytes::lemma_be32(msg.len() as u32, buf, 0);
    assert(buf.subrange(4, 4 + msg.len() as int) =~= msg);
    assert(buf.skip(4 + msg.len() as int) =~= rest);
}

/// Until then it is waited for, unless the connection has ended: that is a close before the
/// message begins, and an error within it.
pub proof fn law_unfinished_messages(msg: Seq<u8>, n: int, eof: bool)
    requires
        msg.len() <= 262144,
        0 <= n < msg.len() + 4,
    ensures
        !eof ==> arrived(framed(msg).take(n), eof) == Arrived::Partial,
        eof && n < 4 ==> arrived(framed(msg).take(n), eof) == Arrived::Broken(Failure::Closed),
        eof && n >= 4 ==> arrived(framed(msg).take(n), eof) == Arrived::Broken(
            Failure::Io("early eof"@),
        ),
{
    if n >= 4 {
        let buf = framed(msg).take(n);
        assert(buf.subrange(0, 4) =~= be32(msg.len() as u32));
        crate::bytes::lemma_be32(msg.len() as u32, buf, 0);
    }
}

/// A length of more than 262144 breaks the connection at once.
pub proof fn law_oversized_messages(len: u32, rest: Seq<u8>, eof: bool)
    requires
        len > 262144,
    ensures
        arrived(be32(len) + rest, eof) == Arrived::Broken(
            Failure::Protocol("frame too large: "@ + decimal(len as nat)),
        ),
{
    let buf = be32(len) + rest;
    assert(buf.subrange(0, 4) =~= be32(len));
    crate::bytes::lemma_be32(len, buf, 0);
}

/// What is sent goes out behind what was sent before; a message of more than 262144 bytes
/// is refused and nothing of it goes out.
pub proof fn law_messages_are_sent(
    pre: LdSink,
    msg: Seq<u8>,
    post: LdSink,
    r: Result<(), Failure>,
)
    requires
        LdSink::sends(pre, msg, post, r),
    ensures
        msg.len() <= 262144 ==> r is Ok && post.w@ == pre.w@ + framed(msg),
        msg.len() > 262144 ==> r == Err::<(), Failure>(
            Failure::Protocol("message too large: "@ + decimal(msg.len())),
        ) && post.w@ == pre.w@,
        post.shut == pre.shut,
{
}

/// What one side sends is what the other receives.
pub proof fn law_sent_is_received(
    a: LdSink,
    msg: Seq<u8>,
    a2: LdSink,
    b: LdStream,
    b2: LdStream,
    rest: Seq<u8>,
    r: Result<Option<Seq<u8>>, Failure>,
)
    requires
        LdSink::sends(a, msg, a2, Ok(())),
        a.w@.len() == 0,
        b.r@ == a2.w@ + rest,
        LdStream::receives(b, b2, r),
    ensures
        r == Ok::<Option<Seq<u8>>, Failure>(Some(msg)),
        b2.r@ == rest,
{
    assert(a.w@ + framed(msg) =~= framed(msg));
    law_messages_arrive(msg, rest, b.eof);
}

/// A frame of up to 65519 bytes is one Noise message. A longer one is announced by four
/// bytes of 255 and follows in parts.
pub proof fn law_noise_pieces(msg: Seq<u8>)
    ensures
        msg.len() <= 65519 ==> pieces(msg) == seq![msg],
        msg.len() > 65519 ==> pieces(msg) == seq![seq![255u8, 255u8, 255u8, 255u8]] + chunks(msg),
{
    assert(announcement() =~= seq![255u8, 255u8, 255u8, 255u8]);
}

/// All parts of a frame but the last are 65519 bytes long, and the last is shorter. The
/// part at each place is the bytes at that place.
pub proof fn law_noise_parts(msg: Seq<u8>, i: int)
    requires
        0 <= i < chunks(msg).len(),
    ensures
        i < chunks(msg).len() - 1 ==> chunks(msg)[i].len() == 65519,
        i == chunks(msg).len() - 1 ==> chunks(msg)[i].len() < 65519,
        i * 65519 + chunks(msg)[i].len() <= msg.len(),
        chunks(msg)[i] == msg.subrange(i * 65519, i * 65519 + chunks(msg)[i].len()),
        i == chunks(msg).len() - 1 ==> i * 65519 + chunks(msg)[i].len() == msg.len(),
    decreases msg.len(),
{
    if msg.len() < 65519 {
        assert(msg =~= msg.subrange(0, msg.len() as int));
    } else {
        let rest = msg.skip(65519);
        lemma_some_chunks(rest);
        if i == 0 {
            assert(chunks(msg)[0] =~= msg.take(65519));
            assert(msg.take(65519) =~= msg.subrange(0, 65519));
        } else {
            assert(chunks(msg)[i] == chunks(rest)[i - 1]);
            law_noise_parts(rest, i - 1);
            let c = chunks(rest)[i - 1];
            assert(rest.subrange((i - 1) * 65519, (i - 1) * 65519 + c.len()) =~= msg.subrange(
                i * 65519,
                i * 65519 + c.len(),
            ));
        }
    }
}

proof fn lemma_some_chunks(msg: Seq<u8>)
    ensures
        chunks(msg).len() > 0,
{
}

/// The address of a WebSocket server: its TLS name, port and path.
pub proof fn law_ws_url(server_name: Seq<char>, port: u16, path: Seq<char>)
    ensures
        url_of(server_name, port, path) == "wss://"@ + server_name + seq![':'] + decimal(
            port as nat,
        ) + path,
{
    reveal_strlit(":");
    assert(":"@ =~= seq![':']);
}

/// Over a WebSocket each binary frame is one message; text, ping and pong frames are passed
/// over; a close frame or the end closes the channel.
pub proof fn law_ws_messages(before: Seq<WsEvent>, e: WsEvent, after: Seq<WsEvent>)
    requires
        forall|i: int| 0 <= i < before.len() ==> (#[trigger] before[i]) is Other,
        !(e is Other),
    ensures
        ws_next(before + seq![e] + after).1 == before.len() + 1,
        e is Binary ==> ws_next(before + seq![e] + after).0 == Ok::<Option<Seq<u8>>, Failure>(
            Some(e->Binary_0@),
        ),
        e is Close ==> ws_next(before + seq![e] + after).0 == Err::<Option<Seq<u8>>, Failure>(
            Failure::Closed,
        ),
        e is AlreadyClosed ==> ws_next(before + seq![e] + after).0 == Err::<
            Option<Seq<u8>>,
            Failure,
        >(Failure::Closed),
        e is Failed ==> ws_next(before + seq![e] + after).0 == Err::<Option<Seq<u8>>, Failure>(
            Failure::Transport("ws: "@ + e->Failed_0@),
        ),
        ws_next(before) == (Ok::<Option<Seq<u8>>, Failure>(None), before.len()),
    decreases before.len(),
{
    let all = before + seq![e] + after;
    if before.len() > 0 {
        assert(all[0] == before[0]);
        assert(before[0] is Other);
        assert(all.skip(1) =~= before.skip(1) + seq![e] + after);
        assert forall|i: int| 0 <= i < before.skip(1).len() implies (#[trigger] before.skip(1)[i])
            is Other by {
            assert(before.skip(1)[i] == before[i + 1]);
        }
        law_ws_messages(before.skip(1), e, after);
    } else {
        assert(all[0] == e);
    }
}

/// Each message sent over a WebSocket is one more binary frame, whole.
pub proof fn law_ws_frames(pre: WsSink, msg: Seq<u8>, post: WsSink, r: Result<(), Failure>)
    requires
        WsSink::sends(pre, msg, post, r),
    ensures
        r is Ok,
        post.frames@.len() == pre.frames@.len() + 1,
        post.frames@.last()@ == msg,
        forall|i: int| 0 <= i < pre.frames@.len() ==> #[trigger] post.frames@[i] == pre.frames@[i],
        post.shut == pre.shut,
{
    assert forall|i: int| 0 <= i < pre.frames@.len() implies #[trigger] post.frames@[i]
        == pre.frames@[i] by {
        assert(post.frames@.drop_last()[i] == pre.frames@[i]);
    }
}

/// What listens for each transport, and which of them can run over a relayed stream.
pub proof fn law_listeners(ws_tls: bool)
    ensures
        listener_for(TransportKind::Tcp, ws_tls) == Listener::Tcp,
        listener_for(TransportKind::Ws, ws_tls) == (Listener::Ws { tls: ws_tls }),
        listener_for(TransportKind::Quic, ws_tls) == Listener::Quic,
        runs_over_stream(TransportKind::Tcp),
        runs_over_stream(TransportKind::Ws),
        !runs_over_stream(TransportKind::Quic),
{
}

/// What is told when a Noise channel fails: a connection that ends between two messages is
/// closed, one that ends within a message is cut short, and what is too long is named as
/// such.
pub proof fn law_noise_failures(part: Option<Seq<u8>>, rest: Seq<u8>, len: nat)
    ensures
        part is None && rest.len() < 2 ==> cut_short(part, rest) == Failure::Closed,
        part is Some || rest.len() >= 2 ==> cut_short(part, rest) == Failure::Io("early eof"@),
        oversize(len) == Failure::Protocol(
            "noise message too large: "@ + decimal(len) + " (max 65519)"@,
        ),
        too_long_to_send(len) == Failure::Protocol("message too large: "@ + decimal(len)),
        too_long_to_take() == Failure::Protocol("frame too large: over 262144"@),
{
}

}
