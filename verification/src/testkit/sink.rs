//! What a tagged stream's handler does, from the tag to the end.
//!
//! The handler reads as much as it is told to, hands over what it read, and
//! does what it is told next: time a frame, send it back, read on, or close.

use vstd::prelude::*;

use crate::testkit::frames::{
    framed, front_frame, lemma_a_sent_frame_is_found, Frame, FrameBuffer, FRAME_BUFFER, FRAME_OVERHEAD,
};
use crate::testkit::payload::{
    advanced, follows_pattern, wrapping_plus, PayloadPatternVerifier,
};
use crate::testkit::servers::{after_stream, role, ServerKind, StreamRole, SYNC_BYTES};

verus! {

/// What is done next with a stream.
#[derive(Debug)]
pub enum SinkStep {
    /// Read so many bytes at most.
    Read { want: usize },
    /// Time a frame, then [`TaggedSink::observed`].
    Observe { frame: Frame },
    /// Send the frame back, then [`TaggedSink::echoed`].
    Echo { frame: Frame, bytes: Vec<u8> },
    /// Shut the stream down.
    Close,
}

/// The handler of one stream.
#[derive(Debug)]
pub struct TaggedSink {
    role: StreamRole,
    tag: u8,
    buffer: FrameBuffer,
    /// The bytes still to be skipped before the first frame.
    skip: usize,
    /// What a bulk stream has delivered.
    delivered: u64,
    /// What a bulk stream is held against.
    verifier: PayloadPatternVerifier,
    /// Whether the frame at the front was refused and waits for the next read.
    parked: bool,
    /// Whether the frame at the front has been timed and is to be sent back.
    timed: bool,
    closed: bool,
}

/// What a handler knows.
#[verifier::ext_equal]
pub struct SinkView {
    pub role: StreamRole,
    pub tag: u8,
    pub buffered: Seq<u8>,
    pub skip: usize,
    pub delivered: u64,
    pub phase: nat,
    pub parked: bool,
    pub timed: bool,
    pub closed: bool,
}

impl SinkView {
    /// Whether frames are looked for.
    pub open spec fn frames(self) -> bool {
        match self.role {
            StreamRole::Echo | StreamRole::Latency => true,
            StreamRole::SyncThenLatency => self.skip == 0,
            _ => false,
        }
    }

    /// The buffer never holds more than it has room for, only a stream whose
    /// frames are sent back has one to be sent, and that one is there.
    pub open spec fn wf(self) -> bool {
        &&& self.buffered.len() <= FRAME_BUFFER
        &&& self.skip > 0 ==> self.role == StreamRole::SyncThenLatency
        &&& self.timed ==> self.role == StreamRole::Echo && front_frame(self.buffered) is Some
    }

    /// The frame that is to be dealt with now.
    pub open spec fn front(self) -> Option<Frame> {
        if self.closed || !self.frames() || self.parked {
            None
        } else {
            front_frame(self.buffered)
        }
    }

    /// How many bytes may be read now.
    pub open spec fn wanted(self) -> int {
        match self.role {
            StreamRole::BulkVerified | StreamRole::BulkCounted => FRAME_BUFFER as int,
            _ => if self.skip > 0 {
                if self.skip < FRAME_BUFFER {
                    self.skip as int
                } else {
                    FRAME_BUFFER as int
                }
            } else {
                FRAME_BUFFER - self.buffered.len()
            },
        }
    }

    /// The frame at the front has been dealt with.
    pub open spec fn consumed(self) -> SinkView {
        SinkView {
            buffered: self.buffered.skip((front_frame(self.buffered)->0).len as int),
            timed: false,
            ..self
        }
    }

    /// Bytes have been read.
    pub open spec fn fed(self, chunk: Seq<u8>) -> SinkView {
        match self.role {
            StreamRole::BulkCounted => SinkView {
                delivered: wrapping_plus(self.delivered, chunk.len() as int),
                parked: false,
                ..self
            },
            StreamRole::BulkVerified => if follows_pattern(chunk, self.phase) {
                SinkView {
                    delivered: wrapping_plus(self.delivered, chunk.len() as int),
                    phase: advanced(self.phase, chunk.len()),
                    parked: false,
                    ..self
                }
            } else {
                SinkView { parked: false, ..self }
            },
            _ => if self.skip > 0 {
                SinkView { skip: (self.skip - chunk.len()) as usize, parked: false, ..self }
            } else {
                SinkView { buffered: self.buffered + chunk, parked: false, ..self }
            },
        }
    }
}

impl View for TaggedSink {
    type V = SinkView;

    closed spec fn view(&self) -> SinkView {
        SinkView {
            role: self.role,
            tag: self.tag,
            buffered: self.buffer@,
            skip: self.skip,
            delivered: self.delivered,
            phase: self.verifier.at(),
            parked: self.parked,
            timed: self.timed,
            closed: self.closed,
        }
    }
}

impl TaggedSink {
    /// The handler of a stream that has come to a server with that tag.
    pub fn accept(kind: &mut ServerKind, tag: u8) -> (r: Self)
        ensures
            *final(kind) == after_stream(*old(kind), tag),
            r@ == (SinkView {
                role: role(*old(kind), tag),
                tag,
                buffered: Seq::empty(),
                skip: if role(*old(kind), tag) == StreamRole::SyncThenLatency {
                    SYNC_BYTES
                } else {
                    0
                },
                delivered: 0,
                phase: 0,
                parked: false,
                timed: false,
                closed: false,
            }),
            r@.wf(),
    {
        let role = kind.accept(tag);
        TaggedSink {
            role,
            tag,
            buffer: FrameBuffer::new(),
            skip: if role == StreamRole::SyncThenLatency {
                SYNC_BYTES
            } else {
                0
            },
            delivered: 0,
            verifier: PayloadPatternVerifier::new(),
            parked: false,
            timed: false,
            closed: false,
        }
    }

    /// The handler of a stream that has no tag and carries frames alone.
    pub fn messages() -> (r: Self)
        ensures
            r@ == (SinkView {
                role: StreamRole::Latency,
                tag: 0,
                buffered: Seq::empty(),
                skip: 0,
                delivered: 0,
                phase: 0,
                parked: false,
                timed: false,
                closed: false,
            }),
            r@.wf(),
    {
        TaggedSink {
            role: StreamRole::Latency,
            tag: 0,
            buffer: FrameBuffer::new(),
            skip: 0,
            delivered: 0,
            verifier: PayloadPatternVerifier::new(),
            parked: false,
            timed: false,
            closed: false,
        }
    }

    /// The stream's tag, under which its frames are timed.
    pub fn tag(&self) -> (r: u8)
        ensures
            r == self@.tag,
    {
        self.tag
    }

    /// The bytes that a bulk stream has delivered.
    pub fn delivered(&self) -> (r: u64)
        ensures
            r == self@.delivered,
    {
        self.delivered
    }

    /// What is done next. A stream that may read nothing more, because its
    /// buffer is full without a frame, is closed.
    pub fn next(&self) -> (r: SinkStep)
        requires
            self@.wf(),
        ensures
            match self@.front() {
                Some(frame) => if self@.timed {
                    r is Echo && r->Echo_frame == frame && r->bytes@ == self@.buffered.take(
                        frame.len as int,
                    )
                } else {
                    r == (SinkStep::Observe { frame })
                },
                None => if self@.closed || self@.wanted() == 0 {
                    r is Close
                } else {
                    r == (SinkStep::Read { want: self@.wanted() as usize })
                },
            },
    {
        if self.closed {
            return SinkStep::Close;
        }
        let frames = match self.role {
            StreamRole::Echo => true,
            StreamRole::Latency => true,
            StreamRole::SyncThenLatency => self.skip == 0,
            _ => false,
        };
        if frames && !self.parked {
            if let Some(frame) = self.buffer.next_frame() {
                if self.timed {
                    let bytes = self.buffer.frame_bytes(&frame);
                    return SinkStep::Echo { frame, bytes };
                }
                return SinkStep::Observe { frame };
            }
        }
        let want: usize = match self.role {
            StreamRole::BulkVerified => FRAME_BUFFER,
            StreamRole::BulkCounted => FRAME_BUFFER,
            _ => if self.skip > 0 {
                if self.skip < FRAME_BUFFER {
                    self.skip
                } else {
                    FRAME_BUFFER
                }
            } else {
                self.buffer.room()
            },
        };
        if want == 0 {
            SinkStep::Close
        } else {
            SinkStep::Read { want }
        }
    }

    /// Bytes have been read, no more than were wanted.
    pub fn received(&mut self, chunk: &[u8])
        requires
            old(self)@.wf(),
            chunk@.len() <= old(self)@.wanted(),
            !old(self)@.timed,
        ensures
            final(self)@ == old(self)@.fed(chunk@),
            final(self)@.wf(),
    {
        self.parked = false;
        match self.role {
            StreamRole::BulkCounted => {
                self.delivered = self.delivered.wrapping_add(chunk.len() as u64);
            },
            StreamRole::BulkVerified => {
                let mut verifier = self.verifier;
                if verifier.verify(chunk) {
                    self.delivered = self.delivered.wrapping_add(chunk.len() as u64);
                }
                self.verifier = verifier;
            },
            _ => {
                if self.skip > 0 {
                    self.skip = self.skip - chunk.len();
                } else {
                    self.buffer.received(chunk);
                }
            },
        }
    }

    /// The stream has ended, or cannot be read from any more. One that was
    /// still skipping looks for frames once more.
    pub fn ended(&mut self)
        ensures
            final(self)@ == if old(self)@.skip > 0 {
                SinkView { skip: 0, ..old(self)@ }
            } else {
                SinkView { closed: true, ..old(self)@ }
            },
            old(self)@.wf() ==> final(self)@.wf(),
    {
        if self.skip > 0 {
            self.skip = 0;
        } else {
            self.closed = true;
        }
    }

    /// The frame at the front has been timed, or nobody took the time. Then
    /// a stream whose frames are sent back is closed; any other keeps the
    /// frame until more has been read.
    pub fn observed(&mut self, taken: bool)
        requires
            old(self)@.wf(),
            old(self)@.front() is Some,
        ensures
            final(self)@ == match (old(self)@.role, taken) {
                (StreamRole::Echo, true) => SinkView { timed: true, ..old(self)@ },
                (StreamRole::Echo, false) => SinkView { closed: true, ..old(self)@ },
                (_, true) => old(self)@.consumed(),
                (_, false) => SinkView { parked: true, ..old(self)@ },
            },
            final(self)@.wf(),
    {
        match self.role {
            StreamRole::Echo => {
                if taken {
                    self.timed = true;
                } else {
                    self.closed = true;
                }
            },
            _ => {
                if taken {
                    if let Some(frame) = self.buffer.next_frame() {
                        self.buffer.consume(&frame);
                    }
                } else {
                    self.parked = true;
                }
            },
        }
    }

    /// The frame at the front has been sent back, or could not be; then the
    /// stream is closed.
    pub fn echoed(&mut self, sent: bool)
        requires
            old(self)@.wf(),
            old(self)@.timed,
        ensures
            final(self)@ == if sent {
                old(self)@.consumed()
            } else {
                SinkView { closed: true, ..old(self)@ }
            },
            final(self)@.wf(),
    {
        if sent {
            if let Some(frame) = self.buffer.next_frame() {
                self.buffer.consume(&frame);
            }
            self.timed = false;
        } else {
            self.closed = true;
        }
    }
}

/// A bulk stream counts exactly the bytes that were the payload's, however
/// they were cut.
pub proof fn lemma_bulk_counts_the_payload(sink: SinkView, a: Seq<u8>, b: Seq<u8>)
    requires
        sink.role == StreamRole::BulkVerified,
        follows_pattern(a + b, sink.phase),
    ensures
        sink.fed(a).fed(b) == sink.fed(a + b),
        sink.fed(a + b).delivered == wrapping_plus(sink.delivered, (a.len() + b.len()) as int),
{
    crate::testkit::payload::lemma_chunks_compose(a, b, sink.phase);
    let m = 0x1_0000_0000_0000_0000int;
    vstd::arithmetic::div_mod::lemma_add_mod_noop(sink.delivered + a.len(), b.len() as int, m);
    vstd::arithmetic::div_mod::lemma_mod_twice(sink.delivered + a.len(), m);
    vstd::arithmetic::div_mod::lemma_add_mod_noop(
        (sink.delivered + a.len()) % m,
        b.len() as int,
        m,
    );
}

/// A stream of frames is dealt with frame by frame: what was read is appended
/// to what is there, a frame that is whole is the one that comes next, and once
/// it has been dealt with what is behind it is left.
pub proof fn lemma_frames_are_dealt_with_one_by_one(
    sink: SinkView,
    payload: Seq<u8>,
    sent_us: u64,
    rest: Seq<u8>,
)
    requires
        sink.role == StreamRole::Latency || sink.role == StreamRole::Echo,
        !sink.closed,
        sink.skip == 0,
        sink.buffered.len() == 0,
        payload.len() + FRAME_OVERHEAD <= u32::MAX,
        payload.len() + FRAME_OVERHEAD <= usize::MAX,
    ensures
        ({
            let fed = sink.fed(framed(payload, sent_us) + rest);
            &&& fed.front() matches Some(frame) && frame.sent_us == sent_us && frame.len
                == payload.len() + FRAME_OVERHEAD
            &&& fed.consumed().buffered == rest
            &&& !fed.consumed().timed
            &&& !fed.parked
            &&& fed.delivered == sink.delivered
            &&& fed.consumed().closed == fed.closed
        }),
{
    let bytes = framed(payload, sent_us) + rest;
    lemma_a_sent_frame_is_found(payload, sent_us, rest);
    let fed = sink.fed(bytes);
    assert(fed.buffered =~= bytes);
    assert(fed.consumed().buffered =~= rest);
}

/// A stream that skips bytes skips as many as it was told to, counts none of
/// them as frames, and looks for frames exactly once they are all skipped.
pub proof fn lemma_skipping_ends_after_the_bytes(sink: SinkView, chunk: Seq<u8>)
    requires
        sink.role == StreamRole::SyncThenLatency,
        0 < chunk.len() <= sink.skip,
    ensures
        sink.fed(chunk).skip + chunk.len() == sink.skip,
        sink.fed(chunk).buffered == sink.buffered,
        sink.fed(chunk).frames() <==> chunk.len() == sink.skip,
        !sink.frames(),
        sink.front() is None,
{
}

/// A bulk stream keeps no bytes and looks for no frames. One that is only
/// counted counts every byte; one that is verified counts a chunk whole where
/// it is the payload's next, and else not at all.
pub proof fn lemma_bulk_streams_count_bytes(sink: SinkView, chunk: Seq<u8>)
    requires
        sink.role == StreamRole::BulkCounted || sink.role == StreamRole::BulkVerified,
        sink.delivered + chunk.len() <= u64::MAX,
    ensures
        sink.front() is None,
        sink.fed(chunk).buffered == sink.buffered,
        sink.role == StreamRole::BulkCounted ==> sink.fed(chunk).delivered == sink.delivered
            + chunk.len() && sink.fed(chunk).phase == sink.phase,
        sink.role == StreamRole::BulkVerified ==> sink.fed(chunk).delivered == sink.delivered
            + if follows_pattern(chunk, sink.phase) {
            chunk.len() as int
        } else {
            0
        },
        sink.role == StreamRole::BulkVerified ==> sink.fed(chunk).phase == if follows_pattern(
            chunk,
            sink.phase,
        ) {
            advanced(sink.phase, chunk.len())
        } else {
            sink.phase
        },
{
}

/// A stream never reads more than it has room for: what it may read still to be
/// skipped, or what fills its buffer; a stream that keeps nothing reads a
/// buffer's worth. One that is closed, or whose frame waits, has no frame to be
/// dealt with.
pub proof fn lemma_a_stream_reads_what_it_has_room_for(sink: SinkView)
    requires
        sink.wf(),
    ensures
        0 <= sink.wanted() <= FRAME_BUFFER,
        sink.role == StreamRole::BulkCounted || sink.role == StreamRole::BulkVerified
            ==> sink.wanted() == FRAME_BUFFER,
        sink.role != StreamRole::BulkCounted && sink.role != StreamRole::BulkVerified && sink.skip
            > 0 ==> sink.wanted() <= sink.skip && (sink.wanted() == sink.skip || sink.wanted()
            == FRAME_BUFFER),
        sink.role != StreamRole::BulkCounted && sink.role != StreamRole::BulkVerified && sink.skip
            == 0 ==> sink.buffered.len() + sink.wanted() == FRAME_BUFFER,
        sink.closed || sink.parked ==> sink.front() is None,
        !sink.closed && !sink.parked && (sink.role == StreamRole::Latency || sink.role
            == StreamRole::Echo) ==> sink.front() == front_frame(sink.buffered),
{
}

/// Dealing with a frame changes nothing but the buffer, and reading changes
/// neither what a stream is nor whether it is closed.
pub proof fn lemma_a_stream_stays_what_it_is(sink: SinkView, chunk: Seq<u8>)
    ensures
        sink.fed(chunk).role == sink.role,
        sink.fed(chunk).tag == sink.tag,
        sink.fed(chunk).closed == sink.closed,
        sink.fed(chunk).timed == sink.timed,
        !sink.fed(chunk).parked,
        sink.consumed().role == sink.role,
        sink.consumed().tag == sink.tag,
        sink.consumed().skip == sink.skip,
        sink.consumed().delivered == sink.delivered,
        sink.consumed().phase == sink.phase,
        sink.consumed().parked == sink.parked,
        sink.consumed().closed == sink.closed,
{
}

} // verus!
