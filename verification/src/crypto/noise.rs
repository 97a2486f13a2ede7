//! The Noise handshake over a byte stream.
//!
//! Ephemeral keys give forward secrecy; the pre-shared key, mixed in first,
//! authenticates the channel. Each handshake message is preceded by its length
//! in two bytes, high byte first.

use vstd::prelude::*;
use vstd::string::*;

use crate::bytes::{be16, be16_at, get_be16, lemma_be16, put_be16, put_bytes, slice_of};
use crate::error::{Error, Failure};

verus! {

#[verifier::external_type_specification]
#[verifier::external_body]
pub struct ExHandshakeState(snow::HandshakeState);

#[verifier::external_type_specification]
#[verifier::external_body]
pub struct ExTransportState(snow::TransportState);

/// What a handshake was made with, if its pattern is
/// `Noise_NNpsk0_25519_ChaChaPoly_BLAKE2s` and it has no prologue: whether it is the
/// initiator's, and the key at position 0.
pub uninterp spec fn handshake_setup(hs: snow::HandshakeState) -> Option<(bool, Seq<u8>)>;

/// What the handshake of a channel was made with, if its pattern is
/// `Noise_NNpsk0_25519_ChaChaPoly_BLAKE2s`: whether this is the initiator's end, and
/// the key at position 0.
pub uninterp spec fn channel_setup(ts: snow::TransportState) -> Option<(bool, Seq<u8>)>;

/// The keys that the handshake agreed on: the one to send with, and the one to
/// receive with.
pub uninterp spec fn channel_keys(ts: snow::TransportState) -> (Seq<u8>, Seq<u8>);

/// How many messages a channel has sent and received.
pub uninterp spec fn channel_counts(ts: snow::TransportState) -> (u64, u64);

/// How many messages of a handshake have been written or read.
pub uninterp spec fn handshake_step(hs: snow::HandshakeState) -> nat;

/// Whether a handshake takes a message as its next one, with at most 1024 bytes of
/// payload.
pub uninterp spec fn accepts(hs: snow::HandshakeState, msg: Seq<u8>) -> bool;

/// Whether a message opens a handshake for whoever answers with a key: 32 bytes, and
/// a payload sealed under what the key and these bytes give.
pub uninterp spec fn opens_first(psk: Seq<u8>, msg: Seq<u8>) -> bool;

/// The first message of a handshake, once it has been written or read.
pub uninterp spec fn first_message(hs: snow::HandshakeState) -> Seq<u8>;

/// The keys that a handshake has agreed on after both messages: the one to send with,
/// and the one to receive with.
pub uninterp spec fn keys_after(hs: snow::HandshakeState) -> (Seq<u8>, Seq<u8>);

/// The keys that a handshake agrees on when a message is the second one that it reads.
pub uninterp spec fn keys_on(hs: snow::HandshakeState, msg: Seq<u8>) -> (Seq<u8>, Seq<u8>);

/// Whether `i` is an initiator's handshake and `h` a responder's, with the same key,
/// between which the first message has passed.
pub open spec fn pairs(i: snow::HandshakeState, h: snow::HandshakeState) -> bool {
    &&& handshake_setup(i) is Some
    &&& handshake_setup(i)->Some_0.0
    &&& handshake_setup(h) == Some((false, handshake_setup(i)->Some_0.1))
    &&& handshake_step(i) == 1
    &&& handshake_step(h) == 1
    &&& first_message(i) == first_message(h)
}

/// Calls `snow::Builder` with the pattern `Noise_NNpsk0_25519_ChaChaPoly_BLAKE2s`
/// and the key at position 0, as initiator: that is what the handshake was made
/// with. It needs no other key, and this one has the right length, so that there is no
/// failure.
#[verifier::external_body]
fn noise_initiator(psk: &[u8; 32]) -> (r: Result<snow::HandshakeState, String>)
    ensures
        r is Ok,
        handshake_setup(r->Ok_0) == Some((true, psk@)),
        handshake_step(r->Ok_0) == 0,
{
    let params = crate::NOISE_PATTERN.parse().map_err(|e: snow::Error| e.to_string())?;
    snow::Builder::new(params).psk(0, psk).build_initiator().map_err(|e| e.to_string())
}

/// Calls `snow::Builder` with the pattern `Noise_NNpsk0_25519_ChaChaPoly_BLAKE2s`
/// and the key at position 0, as responder: that is what the handshake was made
/// with. It needs no other key, and this one has the right length, so that there is no
/// failure.
#[verifier::external_body]
fn noise_responder(psk: &[u8; 32]) -> (r: Result<snow::HandshakeState, String>)
    ensures
        r is Ok,
        handshake_setup(r->Ok_0) == Some((false, psk@)),
        handshake_step(r->Ok_0) == 0,
{
    let params = crate::NOISE_PATTERN.parse().map_err(|e: snow::Error| e.to_string())?;
    snow::Builder::new(params).psk(0, psk).build_responder().map_err(|e| e.to_string())
}

/// Whether the next message of a handshake is this end's to write.
pub open spec fn to_write(hs: snow::HandshakeState) -> bool {
    match handshake_setup(hs) {
        Some((initiator, _)) => handshake_step(hs) == if initiator {
            0nat
        } else {
            1nat
        },
        None => false,
    }
}

/// Calls `snow::HandshakeState::write_message` with an empty payload and a buffer
/// of 1024 bytes. At its turn it succeeds with 48 bytes, a fresh random key of 32
/// bytes and a tag of 16; the initiator's opens a handshake for whoever has the same
/// key. Every initiator with the same key that wrote the first message takes the
/// responder's answer, and both agree on the same keys: what one sends with is what the
/// other receives with. What the handshake was made with stays. The random key makes
/// the bytes of a message a matter of chance, so they are left unsaid.
#[verifier::external_body]
fn noise_write(hs: &mut snow::HandshakeState) -> (r: Result<Vec<u8>, String>)
    ensures
        handshake_setup(*final(hs)) == handshake_setup(*old(hs)),
        to_write(*old(hs)) ==> r is Ok && r->Ok_0@.len() == 48,
        r is Ok ==> r->Ok_0@.len() <= 1024,
        r is Ok ==> handshake_step(*final(hs)) == handshake_step(*old(hs)) + 1,
        r is Ok && handshake_step(*old(hs)) == 0 && handshake_setup(*old(hs)) is Some
            ==> opens_first(handshake_setup(*old(hs))->Some_0.1, r->Ok_0@),
        r is Ok && handshake_step(*old(hs)) == 0 ==> first_message(*final(hs)) == r->Ok_0@,
        r is Ok && handshake_step(*old(hs)) == 1 ==> forall|i: snow::HandshakeState| #[trigger]
            pairs(i, *old(hs)) ==> accepts(i, r->Ok_0@) && keys_on(i, r->Ok_0@) == (
                keys_after(*final(hs)).1,
                keys_after(*final(hs)).0,
            ),
{
    let mut buf = vec![0u8; 1024];
    let n = hs.write_message(&[], &mut buf).map_err(|e| e.to_string())?;
    buf.truncate(n);
    Ok(buf)
}

/// Calls `snow::HandshakeState::read_message` with a buffer of 1024 bytes for the
/// payload. It draws nothing at random: whether the message is accepted rests on the
/// handshake and the message alone, and for the first message that a responder reads,
/// on its key and the message. So do the keys that it agrees on by reading the second
/// message. What the handshake was made with stays.
#[verifier::external_body]
fn noise_read(hs: &mut snow::HandshakeState, msg: &[u8]) -> (r: Result<(), String>)
    ensures
        handshake_setup(*final(hs)) == handshake_setup(*old(hs)),
        r is Ok <==> accepts(*old(hs), msg@),
        handshake_setup(*old(hs)) is Some && !handshake_setup(*old(hs))->Some_0.0
            && handshake_step(*old(hs)) == 0 ==> (r is Ok <==> opens_first(
            handshake_setup(*old(hs))->Some_0.1,
            msg@,
        )),
        r is Ok ==> handshake_step(*final(hs)) == handshake_step(*old(hs)) + 1,
        r is Ok && handshake_step(*old(hs)) == 0 ==> first_message(*final(hs)) == msg@,
        r is Ok && handshake_step(*old(hs)) == 1 ==> keys_after(*final(hs)) == keys_on(
            *old(hs),
            msg@,
        ),
{
    let mut scratch = vec![0u8; 1024];
    hs.read_message(msg, &mut scratch).map(|_| ()).map_err(|e| e.to_string())
}

/// Calls `snow::HandshakeState::into_transport_mode`: after both messages it
/// succeeds, and the channel is one of the handshake, with the keys that it agreed on,
/// on which nothing was sent or received.
#[verifier::external_body]
fn noise_transport(hs: snow::HandshakeState) -> (r: Result<snow::TransportState, String>)
    ensures
        handshake_setup(hs) is Some ==> (r is Ok <==> handshake_step(hs) == 2),
        r is Ok ==> channel_setup(r->Ok_0) == handshake_setup(hs),
        r is Ok ==> channel_counts(r->Ok_0) == (0u64, 0u64),
        r is Ok ==> channel_keys(r->Ok_0) == keys_after(hs),
{
    hs.into_transport_mode().map_err(|e| e.to_string())
}

/// The error for a failed Noise operation.
pub fn noise_err(e: &str) -> (r: Error)
    ensures
        r@ == Failure::Crypto("noise: "@ + e@),
{
    Error::Crypto("noise: ".to_owned().concat(e))
}

/// Whether an error reports a failed Noise operation.
pub open spec fn is_noise_failure(f: Failure) -> bool {
    exists|m: Seq<char>| f == Failure::Crypto(#[trigger] ("noise: "@ + m))
}

/// A handshake message as it stands in the byte stream.
pub open spec fn short_framed(msg: Seq<u8>) -> Seq<u8> {
    be16(msg.len() as u16) + msg
}

/// A handshake message as it stands in the byte stream.
pub fn write_hs(data: &[u8]) -> (r: Vec<u8>)
    requires
        data@.len() <= 0xffff,
    ensures
        r@ == short_framed(data@),
{
    let mut out: Vec<u8> = Vec::new();
    put_be16(&mut out, data.len() as u16);
    put_bytes(&mut out, data);
    assert(out@ =~= short_framed(data@));
    out
}

/// What the bytes at hand allow: a message and the bytes after it, or not enough
/// bytes yet.
pub open spec fn short_arrived(buf: Seq<u8>) -> Option<(Seq<u8>, Seq<u8>)> {
    if buf.len() >= 2 && buf.len() >= 2 + be16_at(buf, 0) {
        Some((buf.subrange(2, 2 + be16_at(buf, 0)), buf.skip(2 + be16_at(buf, 0))))
    } else {
        None
    }
}

/// Reads one handshake message, if all of it has arrived: returns it with the
/// bytes after it.
pub fn read_hs(buf: &[u8]) -> (r: Option<(Vec<u8>, Vec<u8>)>)
    ensures
        match short_arrived(buf@) {
            Some((m, rest)) => r is Some && r->Some_0.0@ == m && r->Some_0.1@ == rest,
            None => r is None,
        },
{
    let total: usize = buf.len();
    if total < 2 {
        return None;
    }
    let end: usize = 2 + get_be16(buf, 0) as usize;
    if total < end {
        return None;
    }
    let rest = slice_of(buf, end, total);
    assert(rest@ =~= buf@.skip(end as int));
    Some((slice_of(buf, 2, end), rest))
}

/// A message framed with a two-byte length reads back as itself, with whatever
/// follows left over.
pub proof fn law_short_framing_round_trip(msg: Seq<u8>, rest: Seq<u8>)
    requires
        msg.len() <= 0xffff,
    ensures
        short_arrived(short_framed(msg) + rest) == Some((msg, rest)),
{
    let buf = short_framed(msg) + rest;
    assert(buf.subrange(0, 2) =~= be16(msg.len() as u16));
    lemma_be16(msg.len() as u16, buf, 0);
    assert(buf.subrange(2, 2 + msg.len() as int) =~= msg);
    assert(buf.skip(2 + msg.len() as int) =~= rest);
}

/// A client's handshake in progress: its message is out and the answer awaited.
pub struct Initiator {
    hs: snow::HandshakeState,
}

/// Whether a channel was just made with a key, as the initiator's end or the other.
pub open spec fn fresh_channel(ts: snow::TransportState, initiator: bool, psk: Seq<u8>) -> bool {
    channel_setup(ts) == Some((initiator, psk)) && channel_counts(ts) == (0u64, 0u64)
}

/// Whether `i` is a client's handshake with a key that has just begun, and `out` what it
/// sends first: a message that opens the handshake at a server with the same key.
pub open spec fn starts(psk: Seq<u8>, i: Initiator, out: Seq<u8>) -> bool {
    &&& i.waiting()
    &&& i.key() == psk
    &&& i.sent().len() == 48
    &&& opens_first(psk, i.sent())
    &&& out == short_framed(i.sent())
}

/// Whether `m` suits every client with a key that sent `msg` as the answer of the server
/// whose channel is `ts`: the client takes it, and each end sends with the key that the
/// other receives with.
pub open spec fn suits(psk: Seq<u8>, msg: Seq<u8>, m: Seq<u8>, ts: snow::TransportState) -> bool {
    forall|i: Initiator|
        i.waiting() && i.key() == psk && #[trigger] i.sent() == msg ==> i.takes(m) && i.agreed(m)
            == (channel_keys(ts).1, channel_keys(ts).0)
}

/// Whether `ts` is a server's channel right after its answer to a client's first message
/// `msg`, and `out` is that answer.
pub open spec fn answers(
    psk: Seq<u8>,
    msg: Seq<u8>,
    ts: snow::TransportState,
    out: Seq<u8>,
) -> bool {
    &&& fresh_channel(ts, false, psk)
    &&& exists|m: Seq<u8>|
        m.len() == 48 && out == #[trigger] short_framed(m) && suits(psk, msg, m, ts)
}

/// Whether `ts` is the channel of a client's handshake right after the server's answer.
pub open spec fn finishes(i: Initiator, msg: Seq<u8>, ts: snow::TransportState) -> bool {
    fresh_channel(ts, true, i.key()) && channel_keys(ts) == i.agreed(msg)
}

/// Starts the client's handshake: returns what to send first.
pub fn initiator_handshake(psk: &[u8; 32]) -> (r: Result<(Initiator, Vec<u8>), Error>)
    ensures
        r is Ok,
        starts(psk@, r->Ok_0.0, r->Ok_0.1@),
{
    let mut hs = match noise_initiator(psk) {
        Ok(h) => h,
        Err(e) => return Err(noise_err(e.as_str())),
    };
    match noise_write(&mut hs) {
        Ok(m) => {
            let out = write_hs(m.as_slice());
            Ok((Initiator { hs }, out))
        },
        Err(e) => Err(noise_err(e.as_str())),
    }
}

impl Initiator {
    #[verifier::type_invariant]
    spec fn started(&self) -> bool {
        &&& handshake_setup(self.hs) is Some
        &&& handshake_setup(self.hs)->Some_0.0
        &&& handshake_step(self.hs) == 1
    }

    /// The key of the handshake.
    pub closed spec fn key(&self) -> Seq<u8> {
        handshake_setup(self.hs)->Some_0.1
    }

    /// Whether the client's message is out and the answer awaited.
    pub closed spec fn waiting(&self) -> bool {
        self.started()
    }

    /// The message that is out.
    pub closed spec fn sent(&self) -> Seq<u8> {
        first_message(self.hs)
    }

    /// The keys that a message as the server's answer makes the client agree on: the one
    /// to send with, and the one to receive with.
    pub closed spec fn agreed(&self, msg: Seq<u8>) -> (Seq<u8>, Seq<u8>) {
        keys_on(self.hs, msg)
    }

    /// Whether the handshake takes a message as the server's answer.
    pub closed spec fn takes(&self, msg: Seq<u8>) -> bool {
        accepts(self.hs, msg)
    }

    /// Ends the handshake with the server's answer.
    pub fn finish(self, msg: &[u8]) -> (r: Result<snow::TransportState, Error>)
        ensures
            r is Ok <==> self.takes(msg@),
            match r {
                Ok(ts) => finishes(self, msg@, ts),
                Err(e) => is_noise_failure(e@),
            },
    {
        proof {
            use_type_invariant(&self);
        }
        let mut hs = self.hs;
        match noise_read(&mut hs, msg) {
            Ok(_) => match noise_transport(hs) {
                Ok(ts) => Ok(ts),
                Err(e) => Err(noise_err(e.as_str())),
            },
            Err(e) => Err(noise_err(e.as_str())),
        }
    }
}

/// Answers a client's first handshake message: returns the channel and what to
/// send back.
pub fn responder_handshake(psk: &[u8; 32], msg: &[u8]) -> (r: Result<
    (snow::TransportState, Vec<u8>),
    Error,
>)
    ensures
        r is Ok <==> opens_first(psk@, msg@),
        match r {
            Ok((ts, out)) => answers(psk@, msg@, ts, out@),
            Err(e) => is_noise_failure(e@),
        },
{
    let mut hs = match noise_responder(psk) {
        Ok(h) => h,
        Err(e) => return Err(noise_err(e.as_str())),
    };
    match noise_read(&mut hs, msg) {
        Ok(_) => {},
        Err(e) => return Err(noise_err(e.as_str())),
    }
    let ghost asked = hs;
    let m = match noise_write(&mut hs) {
        Ok(m) => m,
        Err(e) => return Err(noise_err(e.as_str())),
    };
    let out = write_hs(m.as_slice());
    match noise_transport(hs) {
        Ok(ts) => {
            assert(suits(psk@, msg@, m@, ts)) by {
                assert forall|i: Initiator|
                    i.waiting() && i.key() == psk@ && #[trigger] i.sent() == msg@ implies i.takes(m@)
                    && i.agreed(m@) == (channel_keys(ts).1, channel_keys(ts).0) by {
                    assert(pairs(i.hs, asked));
                }
            }
            Ok((ts, out))
        },
        Err(e) => Err(noise_err(e.as_str())),
    }
}

/// A client and a server with the same key complete the handshake: the server answers
/// what the client sends first, the client takes that answer, and nothing else is sent.
pub proof fn law_same_key_completes(
    psk: Seq<u8>,
    i: Initiator,
    first: Seq<u8>,
    server: snow::TransportState,
    second: Seq<u8>,
)
    requires
        starts(psk, i, first),
        answers(psk, i.sent(), server, second),
    ensures
        short_arrived(first) == Some((i.sent(), Seq::<u8>::empty())),
        opens_first(psk, i.sent()),
        short_arrived(second) is Some,
        short_arrived(second)->Some_0.1 == Seq::<u8>::empty(),
        i.takes(short_arrived(second)->Some_0.0),
        i.agreed(short_arrived(second)->Some_0.0) == (
            channel_keys(server).1,
            channel_keys(server).0,
        ),
{
    law_short_framing_round_trip(i.sent(), Seq::empty());
    assert(first + Seq::<u8>::empty() =~= first);
    let m = choose|m: Seq<u8>|
        m.len() == 48 && second == #[trigger] short_framed(m) && suits(psk, i.sent(), m, server);
    law_short_framing_round_trip(m, Seq::empty());
    assert(second + Seq::<u8>::empty() =~= second);
}

/// A Noise message on a connection is its length in two bytes, highest byte first, and the
/// message; it is waited for until all of it is there.
pub proof fn law_short_framed(msg: Seq<u8>, n: int)
    requires
        msg.len() <= 0xffff,
    ensures
        short_framed(msg).len() == msg.len() + 2,
        short_framed(msg)[0] * 0x100 + short_framed(msg)[1] == msg.len(),
        short_framed(msg).skip(2) == msg,
        0 <= n < msg.len() + 2 ==> short_arrived(short_framed(msg).take(n)) is None,
{
    assert(short_framed(msg).skip(2) =~= msg);
    if 2 <= n < msg.len() + 2 {
        let buf = short_framed(msg).take(n);
        assert(buf.subrange(0, 2) =~= be16(msg.len() as u16));
        crate::bytes::lemma_be16(msg.len() as u16, buf, 0);
    }
}

}
