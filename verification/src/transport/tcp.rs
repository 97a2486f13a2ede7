//! Raw TCP transport, encrypted with Noise: each channel message is exactly one Noise
//! transport message, preceded by the length of its ciphertext in two bytes. A frame
//! that is too long for that is carried by several messages: one that is no frame
//! announces it, as many full ones as it fills follow, and one that is not full ends
//! it. No frame is longer than [`MAX_MESSAGE_LEN`].

use vstd::prelude::*;
use vstd::string::*;

use super::{unit_view, MessageSink, MessageStream};
use crate::bytes::{be16, be16_at, put_be16, put_bytes, slice_of};
use crate::crypto::noise::{
    answers, channel_counts, channel_keys, channel_setup, finishes, law_same_key_completes,
    law_short_framing_round_trip, read_hs, short_arrived, short_framed, starts, Initiator,
};
use crate::error::{Error, Failure};
use crate::text::{decimal, decimal_text};
use crate::MAX_MESSAGE_LEN;

verus! {

/// Longest plaintext of a Noise transport message: 65535 bytes less the 16-byte
/// authentication tag.
pub const NOISE_MAX_PLAINTEXT: usize = 65519;

/// The ciphertext of a message under a key, as the `n`-th message, by ChaChaPoly
/// without associated data.
pub uninterp spec fn sealed_text(key: Seq<u8>, n: u64, msg: Seq<u8>) -> Seq<u8>;

/// What a ciphertext opens to under a key, as the `n`-th message, by ChaChaPoly
/// without associated data, if it does.
pub uninterp spec fn opened_text(key: Seq<u8>, n: u64, cipher: Seq<u8>) -> Option<Seq<u8>>;

/// Calls `snow::TransportState::write_message` with a buffer 16 bytes longer than
/// the message. On a channel of this pattern it succeeds until its count is used up;
/// the ciphertext depends on the key to send with, the count and the message alone,
/// is longer than the message by the tag, opens to the message again, and raises the
/// count. Nothing else of the channel changes.
#[verifier::external_body]
fn noise_encrypt(ts: &mut snow::TransportState, msg: &[u8]) -> (r: Result<Vec<u8>, String>)
    requires
        msg@.len() <= NOISE_MAX_PLAINTEXT,
    ensures
        channel_setup(*final(ts)) == channel_setup(*old(ts)),
        channel_keys(*final(ts)) == channel_keys(*old(ts)),
        channel_counts(*final(ts)).1 == channel_counts(*old(ts)).1,
        r is Ok ==> r->Ok_0@.len() == msg@.len() + 16,
        channel_setup(*old(ts)) is Some ==> (r is Ok <==> channel_counts(*old(ts)).0 < u64::MAX),
        channel_setup(*old(ts)) is Some && r is Ok ==> r->Ok_0@ == sealed_text(
            channel_keys(*old(ts)).0,
            channel_counts(*old(ts)).0,
            msg@,
        ),
        channel_setup(*old(ts)) is Some && r is Ok ==> opened_text(
            channel_keys(*old(ts)).0,
            channel_counts(*old(ts)).0,
            r->Ok_0@,
        ) == Some(msg@),
        r is Ok ==> channel_counts(*final(ts)).0 == channel_counts(*old(ts)).0 + 1,
        r is Err ==> channel_counts(*final(ts)).0 == channel_counts(*old(ts)).0,
{
    let mut buf = vec![0u8; msg.len() + 16];
    let n = ts.write_message(msg, &mut buf).map_err(|e| e.to_string())?;
    buf.truncate(n);
    Ok(buf)
}

/// Calls `snow::TransportState::read_message` with a buffer as long as the
/// ciphertext. The plaintext is shorter than the ciphertext by the 16-byte tag, and
/// a success raises the count. On a channel of this pattern, until its count is used
/// up, the outcome depends on the key to receive with, the count and the ciphertext
/// alone, and nothing opens but what sealing gives. Nothing else of the channel
/// changes.
#[verifier::external_body]
fn noise_decrypt(ts: &mut snow::TransportState, cipher: &[u8]) -> (r: Result<Vec<u8>, String>)
    requires
        cipher@.len() <= 0xffff,
    ensures
        channel_setup(*final(ts)) == channel_setup(*old(ts)),
        channel_keys(*final(ts)) == channel_keys(*old(ts)),
        channel_counts(*final(ts)).0 == channel_counts(*old(ts)).0,
        r is Ok ==> r->Ok_0@.len() + 16 == cipher@.len(),
        r is Ok ==> channel_counts(*final(ts)).1 == channel_counts(*old(ts)).1 + 1,
        r is Err ==> channel_counts(*final(ts)).1 == channel_counts(*old(ts)).1,
        channel_setup(*old(ts)) is Some && channel_counts(*old(ts)).1 < u64::MAX ==> opened_text(
            channel_keys(*old(ts)).1,
            channel_counts(*old(ts)).1,
            cipher@,
        ) == match r {
            Ok(p) => Some(p@),
            Err(_) => None,
        },
        channel_setup(*old(ts)) is Some && r is Ok ==> cipher@ == sealed_text(
            channel_keys(*old(ts)).1,
            channel_counts(*old(ts)).1,
            r->Ok_0@,
        ),
{
    let mut out = vec![0u8; cipher.len()];
    let n = ts.read_message(cipher, &mut out).map_err(|e| e.to_string())?;
    out.truncate(n);
    Ok(out)
}

/// The message that announces a split frame. It is no frame itself: no kind of frame
/// has that number.
pub open spec fn announcement() -> Seq<u8> {
    seq![255u8, 255u8, 255u8, 255u8]
}

/// The parts of a split frame: full ones, and one that is not full.
pub open spec fn chunks(msg: Seq<u8>) -> Seq<Seq<u8>>
    decreases msg.len(),
{
    if msg.len() < NOISE_MAX_PLAINTEXT {
        seq![msg]
    } else {
        seq![msg.take(NOISE_MAX_PLAINTEXT as int)] + chunks(msg.skip(NOISE_MAX_PLAINTEXT as int))
    }
}

/// The messages that carry a frame: the frame itself, if it fits.
pub open spec fn pieces(msg: Seq<u8>) -> Seq<Seq<u8>> {
    if msg.len() <= NOISE_MAX_PLAINTEXT {
        seq![msg]
    } else {
        seq![announcement()] + chunks(msg)
    }
}

/// Noise messages as they stand in the byte stream, the first of them the `n`-th.
pub open spec fn records(key: Seq<u8>, n: int, ps: Seq<Seq<u8>>) -> Seq<u8>
    decreases ps.len(),
{
    if ps.len() == 0 {
        Seq::empty()
    } else {
        short_framed(sealed_text(key, n as u64, ps[0])) + records(key, n + 1, ps.skip(1))
    }
}

/// Whether Noise messages, the first of them the `n`-th, open to what they were made
/// from.
pub open spec fn readable(key: Seq<u8>, n: int, ps: Seq<Seq<u8>>) -> bool {
    forall|i: int|
        0 <= i < ps.len() ==> {
            let c = sealed_text(key, (n + i) as u64, #[trigger] ps[i]);
            c.len() == ps[i].len() + 16 && opened_text(key, (n + i) as u64, c) == Some(ps[i])
        }
}

proof fn lemma_records_push(key: Seq<u8>, n: int, ps: Seq<Seq<u8>>, p: Seq<u8>)
    ensures
        records(key, n, ps.push(p)) == records(key, n, ps) + short_framed(
            sealed_text(key, (n + ps.len()) as u64, p),
        ),
    decreases ps.len(),
{
    let all = ps.push(p);
    let last = short_framed(sealed_text(key, (n + ps.len()) as u64, p));
    if ps.len() == 0 {
        assert(all.skip(1) =~= Seq::<Seq<u8>>::empty());
        assert(records(key, n + 1, all.skip(1)) =~= Seq::<u8>::empty());
        assert(records(key, n, all) =~= records(key, n, ps) + last);
    } else {
        lemma_records_push(key, n + 1, ps.skip(1), p);
        assert(all.skip(1) =~= ps.skip(1).push(p));
        assert(records(key, n, all) =~= records(key, n, ps) + last);
    }
}

/// Both halves of a Noise channel: the cipher state, the bytes for the
/// connection, and the bytes that arrived on it.
pub struct NoiseChannel {
    ts: snow::TransportState,
    w: Vec<u8>,
    shut: bool,
    r: Vec<u8>,
    part: Option<Vec<u8>>,
    eof: bool,
}

/// What the bytes at hand come to.
pub enum Joined {
    /// A frame, the bytes after it, and the count after it.
    Whole(Seq<u8>, Seq<u8>, int),
    /// Not enough bytes: what there is of a split frame, the bytes left over and the
    /// count.
    More(Option<Seq<u8>>, Seq<u8>, int),
    /// Bytes that do not open: what there is of a split frame, the bytes after them and
    /// the count.
    Unreadable(Option<Seq<u8>>, Seq<u8>, int),
    /// A split frame longer than any may be: the bytes after what was too much, and the
    /// count.
    TooLong(Seq<u8>, int),
}

/// What the bytes `buf` come to when the `n`-th Noise message is due and `part` is
/// there of a split frame.
pub open spec fn joined(key: Seq<u8>, n: int, part: Option<Seq<u8>>, buf: Seq<u8>) -> Joined
    decreases buf.len(),
{
    match short_arrived(buf) {
        None => Joined::More(part, buf, n),
        Some((c, rest)) => if n >= u64::MAX {
            Joined::Unreadable(part, rest, n)
        } else {
            match (opened_text(key, n as u64, c), part) {
                (None, _) => Joined::Unreadable(part, rest, n),
                (Some(p), None) => if p == announcement() {
                    joined(key, n + 1, Some(Seq::empty()), rest)
                } else {
                    Joined::Whole(p, rest, n + 1)
                },
                (Some(p), Some(a)) => if a.len() + p.len() > MAX_MESSAGE_LEN {
                    Joined::TooLong(rest, n + 1)
                } else if p.len() < NOISE_MAX_PLAINTEXT {
                    Joined::Whole(a + p, rest, n + 1)
                } else {
                    joined(key, n + 1, Some(a + p), rest)
                },
            }
        },
    }
}

/// Whether all that [`joined`] opens is what sealing gives.
pub open spec fn authentic(key: Seq<u8>, n: int, part: Option<Seq<u8>>, buf: Seq<u8>) -> bool
    decreases buf.len(),
{
    match short_arrived(buf) {
        None => true,
        Some((c, rest)) => n < u64::MAX ==> match (opened_text(key, n as u64, c), part) {
            (None, _) => true,
            (Some(p), None) => c == sealed_text(key, n as u64, p) && (p == announcement()
                ==> authentic(key, n + 1, Some(Seq::empty()), rest)),
            (Some(p), Some(a)) => c == sealed_text(key, n as u64, p) && (p.len()
                >= NOISE_MAX_PLAINTEXT && a.len() + p.len() <= MAX_MESSAGE_LEN ==> authentic(
                key,
                n + 1,
                Some(a + p),
                rest,
            )),
        },
    }
}

/// The view of what there is of a split frame.
pub open spec fn part_view(p: Option<Vec<u8>>) -> Option<Seq<u8>> {
    match p {
        Some(v) => Some(v@),
        None => None,
    }
}

/// Why there is no message when `rest` and `part` are all that arrived.
pub open spec fn cut_short(part: Option<Seq<u8>>, rest: Seq<u8>) -> Failure {
    if part is None && rest.len() < 2 {
        Failure::Closed
    } else {
        Failure::Io("early eof"@)
    }
}

/// Why a message is too long for one Noise message.
pub open spec fn oversize(len: nat) -> Failure {
    Failure::Protocol("noise message too large: "@ + decimal(len) + " (max 65519)"@)
}

/// Why a frame is too long to be sent.
pub open spec fn too_long_to_send(len: nat) -> Failure {
    Failure::Protocol("message too large: "@ + decimal(len))
}

/// Why a frame that arrives is too long.
pub open spec fn too_long_to_take() -> Failure {
    Failure::Protocol("frame too large: over 262144"@)
}

/// Whether an error reports a failed decryption.
pub open spec fn is_decrypt_failure(f: Failure) -> bool {
    exists|m: Seq<char>| f == Failure::Crypto(#[trigger] ("noise decrypt: "@ + m))
}

/// Whether an error reports a failed encryption.
pub open spec fn is_encrypt_failure(f: Failure) -> bool {
    exists|m: Seq<char>| f == Failure::Crypto(#[trigger] ("noise encrypt: "@ + m))
}

/// What an attempt to decrypt comes to.
pub fn opened(r: Result<Vec<u8>, String>) -> (m: Result<Vec<u8>, Error>)
    ensures
        match r {
            Ok(p) => m is Ok && m->Ok_0@ == p@,
            Err(e) => m is Err && m->Err_0@ == Failure::Crypto("noise decrypt: "@ + e@),
        },
{
    match r {
        Ok(p) => Ok(p),
        Err(e) => Err(Error::Crypto("noise decrypt: ".to_owned().concat(e.as_str()))),
    }
}

/// Appends what an attempt to encrypt comes to.
pub fn sealed_into(out: &mut Vec<u8>, r: Result<Vec<u8>, String>) -> (m: Result<(), Error>)
    requires
        r is Ok ==> r->Ok_0@.len() <= 0xffff,
    ensures
        match r {
            Ok(c) => m is Ok && final(out)@ == old(out)@ + short_framed(c@),
            Err(e) => unit_view(m) == Err::<(), Failure>(
                Failure::Crypto("noise encrypt: "@ + e@),
            ) && final(out)@ == old(out)@,
        },
{
    match r {
        Ok(c) => {
            put_be16(out, c.len() as u16);
            put_bytes(out, c.as_slice());
            assert(out@ =~= old(out)@ + short_framed(c@));
            Ok(())
        },
        Err(e) => Err(Error::Crypto("noise encrypt: ".to_owned().concat(e.as_str()))),
    }
}

impl NoiseChannel {
    /// Bytes for the connection that it has not taken yet.
    pub closed spec fn outgoing(&self) -> Seq<u8> {
        self.w@
    }

    /// Whether the write side is closed.
    pub closed spec fn is_shut(&self) -> bool {
        self.shut
    }

    /// Bytes that arrived and belong to no message read yet.
    pub closed spec fn incoming(&self) -> Seq<u8> {
        self.r@
    }

    /// What has arrived of a split frame.
    pub closed spec fn partial(&self) -> Option<Seq<u8>> {
        part_view(self.part)
    }

    /// Whether the connection has ended.
    pub closed spec fn ended(&self) -> bool {
        self.eof
    }

    /// The cipher state.
    pub closed spec fn cipher(&self) -> snow::TransportState {
        self.ts
    }

    /// Whether the cipher state of `post` differs from this one in its counts at
    /// most.
    pub open spec fn same_cipher(&self, post: NoiseChannel) -> bool {
        &&& channel_setup(post.cipher()) == channel_setup(self.cipher())
        &&& channel_keys(post.cipher()) == channel_keys(self.cipher())
    }

    /// A channel right after the handshake, on which the bytes `r` have arrived.
    pub fn wrap(ts: snow::TransportState, r: Vec<u8>) -> (c: NoiseChannel)
        ensures
            c.outgoing() == Seq::<u8>::empty(),
            c.incoming() == r@,
            c.partial() is None,
            !c.is_shut(),
            !c.ended(),
            c.cipher() == ts,
    {
        NoiseChannel { ts, w: Vec::new(), shut: false, r, part: None, eof: false }
    }

    /// Takes bytes that have arrived.
    pub fn feed(&mut self, bytes: &[u8])
        ensures
            final(self).incoming() == old(self).incoming() + bytes@,
            final(self).outgoing() == old(self).outgoing(),
            final(self).is_shut() == old(self).is_shut(),
            final(self).ended() == old(self).ended(),
            final(self).partial() == old(self).partial(),
            final(self).cipher() == old(self).cipher(),
    {
        put_bytes(&mut self.r, bytes);
    }

    /// Takes note that the connection has ended.
    pub fn end(&mut self)
        ensures
            final(self).incoming() == old(self).incoming(),
            final(self).outgoing() == old(self).outgoing(),
            final(self).is_shut() == old(self).is_shut(),
            final(self).ended(),
            final(self).partial() == old(self).partial(),
            final(self).cipher() == old(self).cipher(),
    {
        self.eof = true;
    }

    /// Hands over the bytes for the connection.
    pub fn take(&mut self) -> (r: Vec<u8>)
        ensures
            r@ == old(self).outgoing(),
            final(self).outgoing() == Seq::<u8>::empty(),
            final(self).incoming() == old(self).incoming(),
            final(self).is_shut() == old(self).is_shut(),
            final(self).ended() == old(self).ended(),
            final(self).partial() == old(self).partial(),
            final(self).cipher() == old(self).cipher(),
    {
        let mut out: Vec<u8> = Vec::new();
        std::mem::swap(&mut out, &mut self.w);
        out
    }

    /// Seals one part of a message and appends it to `out`.
    fn put_piece(&mut self, out: &mut Vec<u8>, piece: &[u8]) -> (r: Result<(), Error>)
        requires
            piece@.len() <= NOISE_MAX_PLAINTEXT,
        ensures
            final(self).keeps_all_but_counts(*old(self)),
            channel_counts(final(self).cipher()).1 == channel_counts(old(self).cipher()).1,
            channel_setup(old(self).cipher()) is Some ==> {
                let key = channel_keys(old(self).cipher()).0;
                let n = channel_counts(old(self).cipher()).0;
                match r {
                    Ok(_) => {
                        let c = sealed_text(key, n, piece@);
                        &&& n < u64::MAX
                        &&& channel_counts(final(self).cipher()).0 == n + 1
                        &&& c.len() == piece@.len() + 16
                        &&& opened_text(key, n, c) == Some(piece@)
                        &&& final(out)@ == old(out)@ + short_framed(c)
                    },
                    Err(e) => {
                        &&& n == u64::MAX
                        &&& channel_counts(final(self).cipher()).0 == n
                        &&& is_encrypt_failure(e@)
                    },
                }
            },
    {
        let c = noise_encrypt(&mut self.ts, piece);
        sealed_into(out, c)
    }

    /// Whether this channel differs from `pre` in the counts of its cipher at most.
    pub open spec fn keeps_all_but_counts(&self, pre: NoiseChannel) -> bool {
        &&& self.outgoing() == pre.outgoing()
        &&& self.incoming() == pre.incoming()
        &&& self.partial() == pre.partial()
        &&& self.is_shut() == pre.is_shut()
        &&& self.ended() == pre.ended()
        &&& pre.same_cipher(*self)
    }
}

impl MessageSink for NoiseChannel {
    open spec fn sends(
        pre: NoiseChannel,
        msg: Seq<u8>,
        post: NoiseChannel,
        r: Result<(), Failure>,
    ) -> bool {
        &&& post.incoming() == pre.incoming()
        &&& post.partial() == pre.partial()
        &&& post.is_shut() == pre.is_shut()
        &&& post.ended() == pre.ended()
        &&& pre.same_cipher(post)
        &&& if msg.len() > NOISE_MAX_PLAINTEXT {
            &&& r == Err::<(), Failure>(oversize(msg.len()))
            &&& post.outgoing() == pre.outgoing()
            &&& post.cipher() == pre.cipher()
        } else {
            channel_setup(pre.cipher()) is Some ==> {
                let (sent, received) = channel_counts(pre.cipher());
                let key = channel_keys(pre.cipher()).0;
                let c = sealed_text(key, sent, msg);
                &&& r is Ok <==> sent < u64::MAX
                &&& match r {
                    Ok(_) => {
                        &&& channel_counts(post.cipher()) == ((sent + 1) as u64, received)
                        &&& c.len() == msg.len() + 16
                        &&& post.outgoing() == pre.outgoing() + short_framed(c)
                        &&& opened_text(key, sent, c) == Some(msg)
                    },
                    Err(f) => {
                        &&& is_encrypt_failure(f)
                        &&& post.outgoing() == pre.outgoing()
                        &&& channel_counts(post.cipher()) == (sent, received)
                    },
                }
            }
        }
    }

    open spec fn carries(
        pre: NoiseChannel,
        msg: Seq<u8>,
        post: NoiseChannel,
        r: Result<(), Failure>,
    ) -> bool {
        &&& post.incoming() == pre.incoming()
        &&& post.partial() == pre.partial()
        &&& post.is_shut() == pre.is_shut()
        &&& post.ended() == pre.ended()
        &&& pre.same_cipher(post)
        &&& if msg.len() > MAX_MESSAGE_LEN {
            &&& r == Err::<(), Failure>(too_long_to_send(msg.len()))
            &&& post.outgoing() == pre.outgoing()
            &&& post.cipher() == pre.cipher()
        } else {
            channel_setup(pre.cipher()) is Some ==> {
                let (sent, received) = channel_counts(pre.cipher());
                let key = channel_keys(pre.cipher()).0;
                let ps = pieces(msg);
                &&& r is Ok <==> sent + ps.len() <= u64::MAX
                &&& match r {
                    Ok(_) => {
                        &&& channel_counts(post.cipher()) == ((sent + ps.len()) as u64, received)
                        &&& post.outgoing() == pre.outgoing() + records(key, sent as int, ps)
                        &&& readable(key, sent as int, ps)
                    },
                    Err(f) => {
                        &&& is_encrypt_failure(f)
                        &&& post.outgoing() == pre.outgoing()
                        &&& channel_counts(post.cipher()) == (u64::MAX, received)
                    },
                }
            }
        }
    }

    open spec fn closes(pre: NoiseChannel, post: NoiseChannel, r: Result<(), Failure>) -> bool {
        &&& r == Ok::<(), Failure>(())
        &&& post.is_shut()
        &&& post.outgoing() == pre.outgoing()
        &&& post.incoming() == pre.incoming()
        &&& post.partial() == pre.partial()
        &&& post.ended() == pre.ended()
        &&& post.cipher() == pre.cipher()
    }

    fn send(&mut self, msg: &[u8]) -> (r: Result<(), Error>) {
        if msg.len() > NOISE_MAX_PLAINTEXT {
            let n = decimal_text(msg.len() as u64);
            return Err(
                Error::Protocol(
                    "noise message too large: ".to_owned().concat(n.as_str()).concat(
                        " (max 65519)",
                    ),
                ),
            );
        }
        let mut out: Vec<u8> = Vec::new();
        match self.put_piece(&mut out, msg) {
            Ok(_) => {},
            Err(e) => return Err(e),
        }
        put_bytes(&mut self.w, out.as_slice());
        assert(channel_setup(old(self).cipher()) is Some ==> self.outgoing() =~= old(
            self,
        ).outgoing() + short_framed(
            sealed_text(
                channel_keys(old(self).cipher()).0,
                channel_counts(old(self).cipher()).0,
                msg@,
            ),
        ));
        Ok(())
    }

    fn carry(&mut self, msg: &[u8]) -> (r: Result<(), Error>) {
        let total: usize = msg.len();
        if total > MAX_MESSAGE_LEN {
            let n = decimal_text(total as u64);
            return Err(Error::Protocol("message too large: ".to_owned().concat(n.as_str())));
        }
        let ghost key = channel_keys(self.cipher()).0;
        let ghost sent = channel_counts(self.cipher()).0;
        let ghost good = channel_setup(self.cipher()) is Some;
        let ghost ps = Seq::<Seq<u8>>::empty();
        let mut out: Vec<u8> = Vec::new();
        let mut at: usize = 0;
        let whole = total <= NOISE_MAX_PLAINTEXT;
        if !whole {
            let first: Vec<u8> = vec![255u8, 255u8, 255u8, 255u8];
            assert(first@ =~= announcement());
            match self.put_piece(&mut out, first.as_slice()) {
                Ok(_) => {},
                Err(e) => return Err(e),
            }
            proof {
                lemma_records_push(key, sent as int, ps, first@);
                ps = ps.push(first@);
                assert(ps =~= seq![announcement()]);
                assert(msg@.skip(0) =~= msg@);
                assert(good ==> out@ =~= records(key, sent as int, ps));
            }
            while total - at >= NOISE_MAX_PLAINTEXT
                invariant
                    total == msg@.len(),
                    at <= total,
                    self.keeps_all_but_counts(*old(self)),
                    good == (channel_setup(old(self).cipher()) is Some),
                    key == channel_keys(old(self).cipher()).0,
                    sent == channel_counts(old(self).cipher()).0,
                    channel_counts(self.cipher()).1 == channel_counts(old(self).cipher()).1,
                    good ==> channel_counts(self.cipher()).0 == sent + ps.len(),
                    good ==> out@ == records(key, sent as int, ps),
                    good ==> readable(key, sent as int, ps),
                    NOISE_MAX_PLAINTEXT < msg@.len() <= MAX_MESSAGE_LEN,
                    pieces(msg@) =~= ps + chunks(msg@.skip(at as int)),
                decreases total - at,
            {
                let end: usize = at + NOISE_MAX_PLAINTEXT;
                let piece = slice_of(msg, at, end);
                let ghost left = msg@.skip(at as int);
                match self.put_piece(&mut out, piece.as_slice()) {
                    Ok(_) => {},
                    Err(e) => return Err(e),
                }
                proof {
                    assert(piece@ =~= left.take(NOISE_MAX_PLAINTEXT as int));
                    assert(left.skip(NOISE_MAX_PLAINTEXT as int) =~= msg@.skip(end as int));
                    lemma_records_push(key, sent as int, ps, piece@);
                    ps = ps.push(piece@);
                    assert(pieces(msg@) =~= ps + chunks(msg@.skip(end as int)));
                }
                at = end;
            }
        }
        let piece = slice_of(msg, at, total);
        match self.put_piece(&mut out, piece.as_slice()) {
            Ok(_) => {},
            Err(e) => return Err(e),
        }
        proof {
            assert(piece@ =~= msg@.skip(at as int));
            lemma_records_push(key, sent as int, ps, piece@);
            ps = ps.push(piece@);
            if whole {
                assert(piece@ =~= msg@);
            } else {
                assert(chunks(piece@) =~= seq![piece@]);
            }
            assert(pieces(msg@) =~= ps);
        }
        put_bytes(&mut self.w, out.as_slice());
        Ok(())
    }

    fn close(&mut self) -> (r: Result<(), Error>) {
        self.shut = true;
        Ok(())
    }
}

impl MessageStream for NoiseChannel {
    open spec fn receives(
        pre: NoiseChannel,
        post: NoiseChannel,
        r: Result<Option<Seq<u8>>, Failure>,
    ) -> bool {
        &&& post.outgoing() == pre.outgoing()
        &&& post.partial() == pre.partial()
        &&& post.is_shut() == pre.is_shut()
        &&& post.ended() == pre.ended()
        &&& pre.same_cipher(post)
        &&& match short_arrived(pre.incoming()) {
            Some((c, rest)) => {
                &&& post.incoming() == rest
                &&& channel_setup(pre.cipher()) is Some ==> {
                    let (sent, received) = channel_counts(pre.cipher());
                    let key = channel_keys(pre.cipher()).1;
                    match opened_text(key, received, c) {
                        Some(p) if received < u64::MAX => {
                            &&& r == Ok::<Option<Seq<u8>>, Failure>(Some(p))
                            &&& c == sealed_text(key, received, p)
                            &&& channel_counts(post.cipher()) == (sent, (received + 1) as u64)
                        },
                        _ => {
                            &&& r is Err
                            &&& is_decrypt_failure(r->Err_0)
                            &&& channel_counts(post.cipher()) == (sent, received)
                        },
                    }
                }
            },
            None => {
                &&& post.incoming() == pre.incoming()
                &&& post.cipher() == pre.cipher()
                &&& r == if pre.ended() {
                    Err::<Option<Seq<u8>>, Failure>(cut_short(None, pre.incoming()))
                } else {
                    Ok(None)
                }
            },
        }
    }

    open spec fn gathers(
        pre: NoiseChannel,
        post: NoiseChannel,
        r: Result<Option<Seq<u8>>, Failure>,
    ) -> bool {
        &&& post.outgoing() == pre.outgoing()
        &&& post.is_shut() == pre.is_shut()
        &&& post.ended() == pre.ended()
        &&& pre.same_cipher(post)
        &&& channel_setup(pre.cipher()) is Some ==> {
            let (sent, received) = channel_counts(pre.cipher());
            let key = channel_keys(pre.cipher()).1;
            &&& authentic(key, received as int, pre.partial(), pre.incoming())
            &&& match joined(key, received as int, pre.partial(), pre.incoming()) {
                Joined::Whole(m, rest, n) => {
                    &&& r == Ok::<Option<Seq<u8>>, Failure>(Some(m))
                    &&& post.partial() is None
                    &&& post.incoming() == rest
                    &&& channel_counts(post.cipher()) == (sent, n as u64)
                },
                Joined::More(part, rest, n) => {
                    &&& r == if pre.ended() {
                        Err::<Option<Seq<u8>>, Failure>(cut_short(part, rest))
                    } else {
                        Ok(None)
                    }
                    &&& post.partial() == part
                    &&& post.incoming() == rest
                    &&& channel_counts(post.cipher()) == (sent, n as u64)
                },
                Joined::Unreadable(part, rest, n) => {
                    &&& r is Err
                    &&& is_decrypt_failure(r->Err_0)
                    &&& post.partial() == part
                    &&& post.incoming() == rest
                    &&& channel_counts(post.cipher()) == (sent, n as u64)
                },
                Joined::TooLong(rest, n) => {
                    &&& r == Err::<Option<Seq<u8>>, Failure>(too_long_to_take())
                    &&& post.partial() is None
                    &&& post.incoming() == rest
                    &&& channel_counts(post.cipher()) == (sent, n as u64)
                },
            }
        }
    }

    fn recv(&mut self) -> (r: Result<Option<Vec<u8>>, Error>) {
        match read_hs(self.r.as_slice()) {
            Some((c, rest)) => {
                self.r = rest;
                match opened(noise_decrypt(&mut self.ts, c.as_slice())) {
                    Ok(p) => Ok(Some(p)),
                    Err(e) => Err(e),
                }
            },
            None => if !self.eof {
                Ok(None)
            } else if self.r.len() < 2 {
                Err(Error::Closed)
            } else {
                Err(Error::Io("early eof".to_owned()))
            },
        }
    }

    fn gather(&mut self) -> (r: Result<Option<Vec<u8>>, Error>) {
        let ghost key = channel_keys(self.cipher()).1;
        let ghost counts = channel_counts(self.cipher());
        let ghost good = channel_setup(self.cipher()) is Some;
        loop
            invariant
                good == (channel_setup(old(self).cipher()) is Some),
                key == channel_keys(old(self).cipher()).1,
                counts == channel_counts(old(self).cipher()),
                self.outgoing() == old(self).outgoing(),
                self.is_shut() == old(self).is_shut(),
                self.ended() == old(self).ended(),
                old(self).same_cipher(*self),
                good ==> channel_counts(self.cipher()).0 == counts.0,
                good ==> joined(
                    key,
                    counts.1 as int,
                    old(self).partial(),
                    old(self).incoming(),
                ) == joined(
                    key,
                    channel_counts(self.cipher()).1 as int,
                    self.partial(),
                    self.incoming(),
                ),
                good ==> (authentic(
                    key,
                    channel_counts(self.cipher()).1 as int,
                    self.partial(),
                    self.incoming(),
                ) ==> authentic(
                    key,
                    counts.1 as int,
                    old(self).partial(),
                    old(self).incoming(),
                )),
            decreases self.incoming().len(),
        {
            let ghost n = channel_counts(self.cipher()).1;
            let ghost buf = self.incoming();
            let (c, rest) = match read_hs(self.r.as_slice()) {
                Some(x) => x,
                None => {
                    return if !self.eof {
                        Ok(None)
                    } else if self.part.is_none() && self.r.len() < 2 {
                        Err(Error::Closed)
                    } else {
                        Err(Error::Io("early eof".to_owned()))
                    };
                },
            };
            self.r = rest;
            let p = match opened(noise_decrypt(&mut self.ts, c.as_slice())) {
                Ok(p) => p,
                Err(e) => return Err(e),
            };
            let full = p.len() >= NOISE_MAX_PLAINTEXT;
            let mut part: Option<Vec<u8>> = None;
            std::mem::swap(&mut part, &mut self.part);
            match part {
                None => {
                    let announces = p.len() == 4 && p[0] == 255 && p[1] == 255 && p[2] == 255
                        && p[3] == 255;
                    assert(announces == (p@ =~= announcement()));
                    if !announces {
                        return Ok(Some(p));
                    }
                    let start: Vec<u8> = Vec::new();
                    assert(start@ =~= Seq::<u8>::empty());
                    self.part = Some(start);
                },
                Some(mut a) => {
                    if a.len() > MAX_MESSAGE_LEN || p.len() > MAX_MESSAGE_LEN - a.len() {
                        return Err(Error::Protocol("frame too large: over 262144".to_owned()));
                    }
                    put_bytes(&mut a, p.as_slice());
                    if !full {
                        return Ok(Some(a));
                    }
                    self.part = Some(a);
                },
            }
        }
    }
}

/// Whether what one end sends next is what the other end expects next.
pub open spec fn in_step(a: NoiseChannel, b: NoiseChannel) -> bool {
    &&& channel_setup(a.cipher()) is Some
    &&& channel_setup(b.cipher()) is Some
    &&& channel_keys(a.cipher()).0 == channel_keys(b.cipher()).1
    &&& channel_counts(a.cipher()).0 == channel_counts(b.cipher()).1
    &&& b.partial() is None
}

/// The first of some Noise messages arrives, with the others after it.
proof fn lemma_first_arrives(key: Seq<u8>, n: int, ps: Seq<Seq<u8>>, rest: Seq<u8>)
    requires
        ps.len() > 0,
        ps[0].len() <= NOISE_MAX_PLAINTEXT,
        readable(key, n, ps),
    ensures
        short_arrived(records(key, n, ps) + rest) == Some(
            (sealed_text(key, n as u64, ps[0]), records(key, n + 1, ps.skip(1)) + rest),
        ),
        opened_text(key, n as u64, sealed_text(key, n as u64, ps[0])) == Some(ps[0]),
        readable(key, n + 1, ps.skip(1)),
{
    let c = sealed_text(key, n as u64, ps[0]);
    let more = records(key, n + 1, ps.skip(1)) + rest;
    assert((n + 0) as u64 == n as u64);
    assert(c.len() == ps[0].len() + 16);
    law_short_framing_round_trip(c, more);
    assert(records(key, n, ps) + rest =~= short_framed(c) + more);
    assert forall|i: int| 0 <= i < ps.skip(1).len() implies {
        let c = sealed_text(key, (n + 1 + i) as u64, #[trigger] ps.skip(1)[i]);
        c.len() == ps.skip(1)[i].len() + 16 && opened_text(key, (n + 1 + i) as u64, c) == Some(
            ps.skip(1)[i],
        )
    } by {
        assert(ps.skip(1)[i] == ps[i + 1]);
        assert(n + (i + 1) == n + 1 + i);
    }
}

/// The parts of a split message join to it.
proof fn lemma_chunks_join(key: Seq<u8>, n: int, acc: Seq<u8>, msg: Seq<u8>, rest: Seq<u8>)
    requires
        0 <= n,
        n + chunks(msg).len() <= u64::MAX,
        acc.len() + msg.len() <= MAX_MESSAGE_LEN,
        readable(key, n, chunks(msg)),
    ensures
        joined(key, n, Some(acc), records(key, n, chunks(msg)) + rest) == Joined::Whole(
            acc + msg,
            rest,
            n + chunks(msg).len(),
        ),
    decreases msg.len(),
{
    let ps = chunks(msg);
    lemma_first_arrives(key, n, ps, rest);
    if msg.len() < NOISE_MAX_PLAINTEXT {
        assert(ps.skip(1) =~= Seq::<Seq<u8>>::empty());
        assert(records(key, n + 1, ps.skip(1)) + rest =~= rest);
    } else {
        let head = msg.take(NOISE_MAX_PLAINTEXT as int);
        let tail = msg.skip(NOISE_MAX_PLAINTEXT as int);
        assert(ps.skip(1) =~= chunks(tail));
        lemma_chunks_join(key, n + 1, acc + head, tail, rest);
        assert(acc + head + tail =~= acc + msg);
    }
}

/// What one end of a channel sends, of whatever length up to the greatest, the other end
/// receives, whatever follows it; and both ends stay in step.
pub proof fn law_noise_channel_round_trip(
    a: NoiseChannel,
    b: NoiseChannel,
    msg: Seq<u8>,
    a2: NoiseChannel,
    b2: NoiseChannel,
    rest: Seq<u8>,
    r: Result<Option<Seq<u8>>, Failure>,
)
    requires
        in_step(a, b),
        a.outgoing() == Seq::<u8>::empty(),
        NoiseChannel::sends(a, msg, a2, Ok(())),
        b.incoming() == a2.outgoing() + rest,
        NoiseChannel::receives(b, b2, r),
    ensures
        r == Ok::<Option<Seq<u8>>, Failure>(Some(msg)),
        b2.incoming() == rest,
        in_step(a2, b2),
{
    let c = sealed_text(channel_keys(a.cipher()).0, channel_counts(a.cipher()).0, msg);
    assert(a.outgoing() + short_framed(c) =~= short_framed(c));
    law_short_framing_round_trip(c, rest);
}

/// A message of up to 65519 bytes, the empty one too, is exactly one Noise message: its
/// length, 16 more than the message's, and as many bytes.
pub proof fn law_one_noise_message_each(a: NoiseChannel, msg: Seq<u8>, a2: NoiseChannel)
    requires
        channel_setup(a.cipher()) is Some,
        NoiseChannel::sends(a, msg, a2, Ok(())),
    ensures
        msg.len() <= NOISE_MAX_PLAINTEXT,
        exists|c: Seq<u8>|
            {
                &&& c.len() == msg.len() + 16
                &&& a2.outgoing() == a.outgoing() + #[trigger] short_framed(c)
            },
        channel_counts(a2.cipher()).0 == channel_counts(a.cipher()).0 + 1,
{
    let c = sealed_text(channel_keys(a.cipher()).0, channel_counts(a.cipher()).0, msg);
    assert(a2.outgoing() == a.outgoing() + short_framed(c));
}

/// What one end of a channel carries, of whatever length up to the greatest, the other
/// end gathers, whatever follows it; and both ends stay in step. The announcement of a
/// split is the one text that cannot be carried.
pub proof fn law_noise_channel_carries(
    a: NoiseChannel,
    b: NoiseChannel,
    msg: Seq<u8>,
    a2: NoiseChannel,
    b2: NoiseChannel,
    rest: Seq<u8>,
    r: Result<Option<Seq<u8>>, Failure>,
)
    requires
        in_step(a, b),
        msg != announcement(),
        a.outgoing() == Seq::<u8>::empty(),
        NoiseChannel::carries(a, msg, a2, Ok(())),
        b.incoming() == a2.outgoing() + rest,
        NoiseChannel::gathers(b, b2, r),
    ensures
        r == Ok::<Option<Seq<u8>>, Failure>(Some(msg)),
        b2.incoming() == rest,
        in_step(a2, b2),
{
    let key = channel_keys(a.cipher()).0;
    let n = channel_counts(a.cipher()).0 as int;
    let ps = pieces(msg);
    assert(a.outgoing() + records(key, n, ps) =~= records(key, n, ps));
    lemma_first_arrives(key, n, ps, rest);
    if msg.len() <= NOISE_MAX_PLAINTEXT {
        assert(ps.skip(1) =~= Seq::<Seq<u8>>::empty());
        assert(records(key, n + 1, ps.skip(1)) + rest =~= rest);
    } else {
        assert(ps.skip(1) =~= chunks(msg));
        lemma_chunks_join(key, n + 1, Seq::empty(), msg, rest);
        assert(Seq::<u8>::empty() + msg =~= msg);
    }
}

/// However much a peer sends, no more of a split frame is kept than a frame may have.
pub proof fn law_split_frames_are_bounded(
    key: Seq<u8>,
    n: int,
    part: Option<Seq<u8>>,
    buf: Seq<u8>,
)
    requires
        part is Some ==> part->Some_0.len() <= MAX_MESSAGE_LEN,
    ensures
        match joined(key, n, part, buf) {
            Joined::More(kept, _, _) => kept is Some ==> kept->Some_0.len() <= MAX_MESSAGE_LEN,
            Joined::Unreadable(kept, _, _) => kept is Some ==> kept->Some_0.len()
                <= MAX_MESSAGE_LEN,
            Joined::Whole(m, _, _) => part is Some ==> m.len() <= MAX_MESSAGE_LEN,
            Joined::TooLong(_, _) => true,
        },
    decreases buf.len(),
{
    if short_arrived(buf) is Some && n < u64::MAX {
        let (c, rest) = short_arrived(buf)->Some_0;
        if let Some(p) = opened_text(key, n as u64, c) {
            match part {
                None => if p == announcement() {
                    law_split_frames_are_bounded(key, n + 1, Some(Seq::empty()), rest);
                },
                Some(a) => if a.len() + p.len() <= MAX_MESSAGE_LEN && p.len()
                    >= NOISE_MAX_PLAINTEXT {
                    law_split_frames_are_bounded(key, n + 1, Some(a + p), rest);
                },
            }
        }
    }
}

/// A client and a server with the same key: once they have gone through the handshake,
/// what each sends next is what the other expects next.
pub proof fn law_same_key_makes_a_channel(
    psk: Seq<u8>,
    i: Initiator,
    first: Seq<u8>,
    server: snow::TransportState,
    second: Seq<u8>,
    client: snow::TransportState,
    a: NoiseChannel,
    b: NoiseChannel,
)
    requires
        starts(psk, i, first),
        answers(psk, i.sent(), server, second),
        finishes(i, short_arrived(second)->Some_0.0, client),
        a.cipher() == client,
        b.cipher() == server,
        a.partial() is None,
        b.partial() is None,
    ensures
        i.takes(short_arrived(second)->Some_0.0),
        in_step(a, b),
        in_step(b, a),
{
    law_same_key_completes(psk, i, first, server, second);
}

/// A client and a server with the same key read each other's messages: what either end
/// sends first after the handshake the other receives, and they stay in step.
pub proof fn law_same_key_reads_each_other(
    psk: Seq<u8>,
    i: Initiator,
    first: Seq<u8>,
    server: snow::TransportState,
    second: Seq<u8>,
    client: snow::TransportState,
    a: NoiseChannel,
    b: NoiseChannel,
    msg: Seq<u8>,
    a2: NoiseChannel,
    b2: NoiseChannel,
    rest: Seq<u8>,
    r: Result<Option<Seq<u8>>, Failure>,
)
    requires
        starts(psk, i, first),
        answers(psk, i.sent(), server, second),
        finishes(i, short_arrived(second)->Some_0.0, client),
        (a.cipher() == client && b.cipher() == server) || (a.cipher() == server && b.cipher()
            == client),
        a.outgoing() == Seq::<u8>::empty(),
        a.partial() is None,
        b.partial() is None,
        NoiseChannel::sends(a, msg, a2, Ok(())),
        b.incoming() == a2.outgoing() + rest,
        NoiseChannel::receives(b, b2, r),
    ensures
        r == Ok::<Option<Seq<u8>>, Failure>(Some(msg)),
        b2.incoming() == rest,
        in_step(a2, b2),
{
    if a.cipher() == client && b.cipher() == server {
        law_same_key_makes_a_channel(psk, i, first, server, second, client, a, b);
    } else {
        law_same_key_makes_a_channel(psk, i, first, server, second, client, b, a);
    }
    law_noise_channel_round_trip(a, b, msg, a2, b2, rest, r);
}

/// Some texts one after the other.
pub open spec fn concatenated(ps: Seq<Seq<u8>>) -> Seq<u8>
    decreases ps.len(),
{
    if ps.len() == 0 {
        Seq::empty()
    } else {
        ps[0] + concatenated(ps.skip(1))
    }
}

/// What arrived is what was framed.
proof fn lemma_arrived_was_framed(buf: Seq<u8>)
    requires
        short_arrived(buf) is Some,
    ensures
        buf == short_framed(short_arrived(buf)->Some_0.0) + short_arrived(buf)->Some_0.1,
{
    let (c, rest) = short_arrived(buf)->Some_0;
    let n = be16_at(buf, 0);
    assert(c.len() == n);
    assert(be16(n)[0] == buf[0]);
    assert(be16(n)[1] == buf[1]);
    assert(buf =~= be16(n) + c + rest);
    assert(buf =~= short_framed(c) + rest);
}

/// The text that some Noise messages carry: the only one, or all after the
/// announcement.
pub open spec fn carried_text(ps: Seq<Seq<u8>>) -> Seq<u8> {
    if ps.len() == 1 {
        ps[0]
    } else {
        concatenated(ps.skip(1))
    }
}

/// The Noise messages that made up the rest of a split frame.
proof fn lemma_rest_was_sealed(key: Seq<u8>, n: int, acc: Seq<u8>, buf: Seq<u8>) -> (ps: Seq<
    Seq<u8>,
>)
    requires
        0 <= n,
        authentic(key, n, Some(acc), buf),
        joined(key, n, Some(acc), buf) is Whole,
    ensures
        ps.len() > 0,
        buf == records(key, n, ps) + joined(key, n, Some(acc), buf)->Whole_1,
        joined(key, n, Some(acc), buf)->Whole_0 == acc + concatenated(ps),
    decreases buf.len(),
{
    lemma_arrived_was_framed(buf);
    let (c, rest) = short_arrived(buf)->Some_0;
    let p = opened_text(key, n as u64, c)->Some_0;
    let more = if p.len() < NOISE_MAX_PLAINTEXT {
        Seq::empty()
    } else {
        lemma_rest_was_sealed(key, n + 1, acc + p, rest)
    };
    let ps = seq![p] + more;
    assert(ps.skip(1) =~= more);
    assert(ps[0] == p);
    assert(records(key, n, ps) == short_framed(c) + records(key, n + 1, more));
    assert(acc + p + concatenated(more) =~= acc + concatenated(ps));
    assert(buf =~= records(key, n, ps) + joined(key, n, Some(acc), buf)->Whole_1);
    ps
}

/// On a channel, no message is received but what was sealed under the key to receive
/// with, in order: a message is the one Noise message that it took from the byte stream.
pub proof fn law_noise_message_is_authentic(b: NoiseChannel, b2: NoiseChannel, m: Seq<u8>)
    requires
        channel_setup(b.cipher()) is Some,
        NoiseChannel::receives(b, b2, Ok(Some(m))),
    ensures
        b.incoming() == short_framed(
            sealed_text(channel_keys(b.cipher()).1, channel_counts(b.cipher()).1, m),
        ) + b2.incoming(),
        channel_counts(b2.cipher()).1 == channel_counts(b.cipher()).1 + 1,
{
    lemma_arrived_was_framed(b.incoming());
}

/// The Noise messages that made up a frame.
proof fn lemma_joined_was_sealed(key: Seq<u8>, n: int, buf: Seq<u8>) -> (ps: Seq<Seq<u8>>)
    requires
        0 <= n,
        authentic(key, n, None, buf),
        joined(key, n, None, buf) is Whole,
    ensures
        buf == records(key, n, ps) + joined(key, n, None, buf)->Whole_1,
        joined(key, n, None, buf)->Whole_0 == carried_text(ps),
{
    lemma_arrived_was_framed(buf);
    let (c, rest) = short_arrived(buf)->Some_0;
    let p = opened_text(key, n as u64, c)->Some_0;
    if p == announcement() {
        let more = lemma_rest_was_sealed(key, n + 1, Seq::empty(), rest);
        let ps = seq![p] + more;
        assert(ps.skip(1) =~= more);
        assert(ps[0] == p);
        assert(records(key, n, ps) == short_framed(c) + records(key, n + 1, more));
        assert(Seq::<u8>::empty() + concatenated(more) =~= concatenated(more));
        assert(buf =~= records(key, n, ps) + joined(key, n, None, buf)->Whole_1);
        ps
    } else {
        let one = seq![p];
        assert(one.skip(1) =~= Seq::<Seq<u8>>::empty());
        assert(records(key, n + 1, one.skip(1)) =~= Seq::<u8>::empty());
        assert(records(key, n, one) + rest =~= buf);
        one
    }
}

/// On a channel, no frame is received but what was sealed under the key to receive
/// with, in order: a frame is made up of just the Noise messages that it took from the
/// byte stream.
pub proof fn law_noise_channel_is_authentic(b: NoiseChannel, b2: NoiseChannel, m: Seq<u8>)
    requires
        channel_setup(b.cipher()) is Some,
        b.partial() is None,
        NoiseChannel::gathers(b, b2, Ok(Some(m))),
    ensures
        exists|ps: Seq<Seq<u8>>|
            {
                &&& m == #[trigger] carried_text(ps)
                &&& b.incoming() == records(
                    channel_keys(b.cipher()).1,
                    channel_counts(b.cipher()).1 as int,
                    ps,
                ) + b2.incoming()
            },
{
    let ps = lemma_joined_was_sealed(
        channel_keys(b.cipher()).1,
        channel_counts(b.cipher()).1 as int,
        b.incoming(),
    );
    assert(m == carried_text(ps));
}

}
