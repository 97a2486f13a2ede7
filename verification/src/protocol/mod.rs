//! The application protocol: frames, their encoding, and the reader and writer
//! that put them on a message channel.

use vstd::prelude::*;

pub mod codec;
pub mod control;
pub mod frame;
pub mod shown;
pub mod exact;
pub mod laws;

pub use control::{Hello, PeerInfo, TargetAddr, Welcome};
pub use frame::Frame;

use crate::bytes::le32_at;
use crate::error::{Error, Failure};
use crate::transport::tcp::{announcement, in_step, law_noise_channel_carries, NoiseChannel};
use crate::transport::{message_view, unit_view, MessageSink, MessageStream};
use codec::{decode_frame, decoded, encode_frame, law_frame_round_trip, Wire};
use frame::FrameView;

verus! {

/// Writes frames onto an encrypted message sink.
pub struct FrameWriter<S> {
    pub sink: S,
}

/// Reads frames from an encrypted message stream.
pub struct FrameReader<S> {
    pub stream: S,
}

/// The view of an attempt to read a frame.
pub open spec fn frame_result(r: Result<Option<Frame>, Error>) -> Result<
    Option<FrameView>,
    Failure,
> {
    match r {
        Ok(Some(f)) => Ok(Some(f@)),
        Ok(None) => Ok(None),
        Err(e) => Err(e@),
    }
}

/// The frame in a message that was read, if one was.
pub open spec fn frame_in(m: Result<Option<Seq<u8>>, Failure>) -> Result<
    Option<FrameView>,
    Failure,
> {
    match m {
        Ok(Some(b)) => match decoded(b) {
            Ok(f) => Ok(Some(f)),
            Err(e) => Err(e),
        },
        Ok(None) => Ok(None),
        Err(e) => Err(e),
    }
}

impl<S: MessageSink> FrameWriter<S> {
    /// A writer onto `sink`.
    pub fn new(sink: S) -> (r: Self)
        ensures
            r.sink == sink,
    {
        FrameWriter { sink }
    }

    /// Sends one frame.
    pub fn send(&mut self, frame: &Frame) -> (r: Result<(), Error>)
        ensures
            S::carries(old(self).sink, Frame::enc(frame@), final(self).sink, unit_view(r)),
    {
        let bytes = encode_frame(frame);
        self.sink.carry(bytes.as_slice())
    }

    /// Closes the sink.
    pub fn close(&mut self) -> (r: Result<(), Error>)
        ensures
            S::closes(old(self).sink, final(self).sink, unit_view(r)),
    {
        self.sink.close()
    }
}

impl<S: MessageStream> FrameReader<S> {
    /// A reader from `stream`.
    pub fn new(stream: S) -> (r: Self)
        ensures
            r.stream == stream,
    {
        FrameReader { stream }
    }

    /// Reads one frame, if all that carries it has arrived.
    pub fn recv(&mut self) -> (r: Result<Option<Frame>, Error>)
        ensures
            exists|m: Result<Option<Seq<u8>>, Failure>| #[trigger]
                S::gathers(old(self).stream, final(self).stream, m) && frame_result(r) == frame_in(
                    m,
                ),
    {
        let got = self.stream.gather();
        let ghost m = message_view(got);
        assert(S::gathers(old(self).stream, self.stream, m));
        match got {
            Ok(Some(b)) => match decode_frame(b.as_slice()) {
                Ok(f) => Ok(Some(f)),
                Err(e) => Err(e),
            },
            Ok(None) => Ok(None),
            Err(e) => Err(e),
        }
    }
}

/// Splits a connected channel into a frame writer and a frame reader.
pub fn frames<S: MessageSink, R: MessageStream>(sink: S, stream: R) -> (r: (
    FrameWriter<S>,
    FrameReader<R>,
))
    ensures
        r.0.sink == sink,
        r.1.stream == stream,
{
    (FrameWriter::new(sink), FrameReader::new(stream))
}

/// What announces a split frame on a Noise channel is no frame, so nothing that is sent
/// can be taken for it.
pub proof fn law_announcement_is_no_frame()
    ensures
        decoded(announcement()) is Err,
{
    let s = announcement();
    assert(s.len() == 4);
    assert(le32_at(s, 0) == 0xffff_ffff);
}

/// A frame of whatever length up to the greatest that is sent on a Noise channel is read
/// at the other end as itself, whatever follows it, and the ends stay in step.
pub proof fn law_frames_cross_a_noise_channel(
    a: NoiseChannel,
    b: NoiseChannel,
    f: FrameView,
    a2: NoiseChannel,
    b2: NoiseChannel,
    rest: Seq<u8>,
    m: Result<Option<Seq<u8>>, Failure>,
)
    requires
        Frame::fits(f),
        in_step(a, b),
        a.outgoing() == Seq::<u8>::empty(),
        NoiseChannel::carries(a, Frame::enc(f), a2, Ok(())),
        b.incoming() == a2.outgoing() + rest,
        NoiseChannel::gathers(b, b2, m),
    ensures
        frame_in(m) == Ok::<Option<FrameView>, Failure>(Some(f)),
        b2.incoming() == rest,
        in_step(a2, b2),
{
    law_frame_round_trip(f);
    law_announcement_is_no_frame();
    law_noise_channel_carries(a, b, Frame::enc(f), a2, b2, rest, m);
}

}
