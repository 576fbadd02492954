//! Timestamped frames: a length of four bytes, little-endian, which counts
//! the whole frame; the payload; and the time of sending in microseconds, in
//! eight bytes, little-endian.

use vstd::prelude::*;

verus! {

/// How much of a stream is buffered.
pub const FRAME_BUFFER: usize = 65536;

/// The bytes of a frame besides its payload.
pub const FRAME_OVERHEAD: usize = 12;

/// The number that bytes stand for, least significant first.
pub open spec fn le(bytes: Seq<u8>) -> nat
    decreases bytes.len(),
{
    if bytes.len() == 0 {
        0
    } else {
        bytes[0] as nat + 256 * le(bytes.drop_first())
    }
}

/// A number in so many bytes, least significant first.
pub open spec fn to_le(n: nat, len: nat) -> Seq<u8>
    decreases len,
{
    if len == 0 {
        Seq::empty()
    } else {
        seq![(n % 256) as u8] + to_le(n / 256, (len - 1) as nat)
    }
}

/// Two to the eighth, so many times.
pub open spec fn pow256(len: nat) -> nat
    decreases len,
{
    if len == 0 {
        1
    } else {
        256 * pow256((len - 1) as nat)
    }
}

/// What a frame says: how long it is, and when it was sent.
#[derive(Clone, Copy, Debug, PartialEq, Eq, Structural)]
pub struct Frame {
    pub len: usize,
    pub sent_us: u64,
}

/// The frame at the front of the bytes, if all of it is there. A length that
/// is less than a frame's least is no frame, and nothing behind it is.
pub open spec fn front_frame(bytes: Seq<u8>) -> Option<Frame> {
    if bytes.len() < 4 {
        None
    } else {
        let len = le(bytes.take(4));
        if len < FRAME_OVERHEAD || bytes.len() < len {
            None
        } else {
            Some(
                Frame {
                    len: len as usize,
                    sent_us: le(bytes.subrange(len as int - 8, len as int)) as u64,
                },
            )
        }
    }
}

/// A frame as it is sent.
pub open spec fn framed(payload: Seq<u8>, sent_us: u64) -> Seq<u8> {
    to_le(payload.len() + FRAME_OVERHEAD as nat, 4) + payload + to_le(sent_us as nat, 8)
}

proof fn lemma_le_round_trip(n: nat, len: nat)
    requires
        n < pow256(len),
    ensures
        to_le(n, len).len() == len,
        le(to_le(n, len)) == n,
    decreases len,
{
    if len > 0 {
        let rest = to_le(n / 256, (len - 1) as nat);
        assert(n / 256 < pow256((len - 1) as nat)) by (nonlinear_arith)
            requires
                n < 256 * pow256((len - 1) as nat),
        ;
        lemma_le_round_trip(n / 256, (len - 1) as nat);
        let all = to_le(n, len);
        assert(all.drop_first() =~= rest);
        assert(all[0] == (n % 256) as u8);
    }
}

proof fn lemma_le_bound(bytes: Seq<u8>)
    ensures
        le(bytes) < pow256(bytes.len()),
    decreases bytes.len(),
{
    if bytes.len() > 0 {
        lemma_le_bound(bytes.drop_first());
    }
}

/// A frame that was sent is the frame that is found, whatever follows it.
pub proof fn lemma_a_sent_frame_is_found(payload: Seq<u8>, sent_us: u64, rest: Seq<u8>)
    requires
        payload.len() + FRAME_OVERHEAD <= u32::MAX,
        payload.len() + FRAME_OVERHEAD <= usize::MAX,
    ensures
        framed(payload, sent_us).len() == payload.len() + FRAME_OVERHEAD,
        front_frame(framed(payload, sent_us) + rest) == Some(
            Frame { len: (payload.len() + FRAME_OVERHEAD) as usize, sent_us },
        ),
{
    reveal_with_fuel(pow256, 9);
    let len = payload.len() + FRAME_OVERHEAD as nat;
    lemma_le_round_trip(len, 4);
    lemma_le_round_trip(sent_us as nat, 8);
    let bytes = framed(payload, sent_us) + rest;
    assert(bytes.take(4) =~= to_le(len, 4));
    assert(bytes.subrange(len as int - 8, len as int) =~= to_le(sent_us as nat, 8));
}

/// The bytes of a stream that are not yet part of a frame that was taken.
#[derive(Debug)]
pub struct FrameBuffer {
    bytes: Vec<u8>,
}

/// Four bytes as a number.
fn le_u32(bytes: &Vec<u8>, at: usize) -> (r: u64)
    requires
        at + 4 <= bytes@.len(),
    ensures
        r == le(bytes@.subrange(at as int, at + 4)),
        r <= u32::MAX,
{
    let end: usize = bytes.len();
    assert(at + 4 <= end);
    let b0: u64 = bytes[at] as u64;
    let b1: u64 = bytes[at + 1] as u64;
    let b2: u64 = bytes[at + 2] as u64;
    let b3: u64 = bytes[at + 3] as u64;
    proof {
        reveal_with_fuel(le, 5);
        let s = bytes@.subrange(at as int, at + 4);
        assert(s[0] == bytes@[at as int]);
        assert(s.drop_first()[0] == bytes@[at + 1]);
        assert(s.drop_first().drop_first()[0] == bytes@[at + 2]);
        assert(s.drop_first().drop_first().drop_first()[0] == bytes@[at + 3]);
        assert(s.drop_first().drop_first().drop_first().drop_first() =~= Seq::<u8>::empty());
    }
    b0 + 256 * (b1 + 256 * (b2 + 256 * b3))
}

proof fn lemma_le_halves(s: Seq<u8>)
    requires
        s.len() == 8,
    ensures
        le(s) == le(s.take(4)) + 0x1_0000_0000 * le(s.skip(4)),
{
    reveal_with_fuel(le, 9);
    let d1 = s.drop_first();
    let d2 = d1.drop_first();
    let d3 = d2.drop_first();
    let d4 = d3.drop_first();
    assert(d4 =~= s.skip(4));
    let t = s.take(4);
    assert(t[0] == s[0]);
    assert(t.drop_first()[0] == d1[0]);
    assert(t.drop_first().drop_first()[0] == d2[0]);
    assert(t.drop_first().drop_first().drop_first()[0] == d3[0]);
    assert(t.drop_first().drop_first().drop_first().drop_first() =~= Seq::<u8>::empty());
}

impl FrameBuffer {
    pub closed spec fn view(&self) -> Seq<u8> {
        self.bytes@
    }

    pub fn new() -> (r: Self)
        ensures
            r@ == Seq::<u8>::empty(),
    {
        FrameBuffer { bytes: Vec::new() }
    }

    /// How many more bytes can be buffered. A stream whose buffer is full
    /// without a frame in it is read no further.
    pub fn room(&self) -> (r: usize)
        ensures
            r == if self@.len() < FRAME_BUFFER {
                FRAME_BUFFER - self@.len()
            } else {
                0
            },
    {
        if self.bytes.len() < FRAME_BUFFER {
            FRAME_BUFFER - self.bytes.len()
        } else {
            0
        }
    }

    /// Bytes have been read.
    pub fn received(&mut self, chunk: &[u8])
        ensures
            final(self)@ == old(self)@ + chunk@,
    {
        let ghost before = self.bytes@;
        self.bytes.extend_from_slice(chunk);
        proof {
            assert(self.bytes@ =~= before + chunk@);
        }
    }

    /// The frame at the front, if all of it is there.
    pub fn next_frame(&self) -> (r: Option<Frame>)
        ensures
            r == front_frame(self@),
            r is Some ==> FRAME_OVERHEAD <= (r->0).len <= self@.len(),
    {
        if self.bytes.len() < 4 {
            return None;
        }
        proof {
            assert(self@.take(4) =~= self@.subrange(0, 4));
        }
        let len: u64 = le_u32(&self.bytes, 0);
        if len < FRAME_OVERHEAD as u64 || (self.bytes.len() as u64) < len {
            return None;
        }
        let len: usize = len as usize;
        let low: u64 = le_u32(&self.bytes, len - 8);
        let high: u64 = le_u32(&self.bytes, len - 4);
        proof {
            let s = self@.subrange(len as int - 8, len as int);
            lemma_le_halves(s);
            assert(s.take(4) =~= self@.subrange(len as int - 8, len as int - 4));
            assert(s.skip(4) =~= self@.subrange(len as int - 4, len as int));
        }
        Some(Frame { len, sent_us: low + 0x1_0000_0000 * high })
    }

    /// The bytes of the frame at the front, to be sent back.
    pub fn frame_bytes(&self, frame: &Frame) -> (r: Vec<u8>)
        requires
            frame.len <= self@.len(),
        ensures
            r@ == self@.take(frame.len as int),
    {
        let mut r: Vec<u8> = Vec::new();
        r.extend_from_slice(vstd::slice::slice_subrange(self.bytes.as_slice(), 0, frame.len));
        proof {
            assert(r@ =~= self@.take(frame.len as int));
        }
        r
    }

    /// The frame at the front has been dealt with.
    pub fn consume(&mut self, frame: &Frame)
        requires
            frame.len <= old(self)@.len(),
        ensures
            final(self)@ == old(self)@.skip(frame.len as int),
    {
        let ghost before = self.bytes@;
        let rest = self.bytes.split_off(frame.len);
        self.bytes = rest;
        proof {
            assert(self.bytes@ =~= before.skip(frame.len as int));
        }
    }
}

/// The complete frames at the front of the bytes.
pub open spec fn frames_in(bytes: Seq<u8>) -> Seq<Frame>
    decreases bytes.len(),
{
    match front_frame(bytes) {
        Some(frame) => if FRAME_OVERHEAD <= frame.len <= bytes.len() {
            seq![frame] + frames_in(bytes.skip(frame.len as int))
        } else {
            Seq::empty()
        },
        None => Seq::empty(),
    }
}

/// The bytes that frames take up.
pub open spec fn bytes_of(frames: Seq<Frame>) -> nat
    decreases frames.len(),
{
    if frames.len() == 0 {
        0
    } else {
        bytes_of(frames.drop_last()) + frames.last().len as nat
    }
}

/// The bytes behind the complete frames at the front.
pub open spec fn behind_frames(bytes: Seq<u8>) -> Seq<u8>
    decreases bytes.len(),
{
    match front_frame(bytes) {
        Some(frame) => if FRAME_OVERHEAD <= frame.len <= bytes.len() {
            behind_frames(bytes.skip(frame.len as int))
        } else {
            bytes
        },
        None => bytes,
    }
}

/// The frames of a stream do not depend on how its bytes were cut up by
/// reading: taking the frames of the first part, and then those of what is
/// left together with the second, takes the frames of the whole.
pub proof fn lemma_reads_may_be_cut_anywhere(a: Seq<u8>, b: Seq<u8>)
    requires
        a.len() + b.len() <= usize::MAX,
    ensures
        frames_in(a + b) == frames_in(a) + frames_in(behind_frames(a) + b),
        behind_frames(a + b) == behind_frames(behind_frames(a) + b),
    decreases a.len(),
{
    match front_frame(a) {
        Some(frame) => {
            let n = frame.len as int;
            assert((a + b).take(4) =~= a.take(4));
            assert(le(a.take(4)) == n);
            assert((a + b).subrange(n - 8, n) =~= a.subrange(n - 8, n));
            assert(front_frame(a + b) == Some(frame));
            lemma_reads_may_be_cut_anywhere(a.skip(n), b);
            assert((a + b).skip(n) =~= a.skip(n) + b);
            assert(frames_in(a + b) =~= seq![frame] + frames_in(a.skip(n) + b));
            assert(frames_in(a + b) =~= frames_in(a) + frames_in(behind_frames(a) + b));
        },
        None => {
            assert(frames_in(a) =~= Seq::<Frame>::empty());
            assert(frames_in(a + b) =~= frames_in(a) + frames_in(behind_frames(a) + b));
        },
    }
}

impl FrameBuffer {
    /// Takes the complete frames at the front, as many as are wanted at most.
    pub fn take_frames(&mut self, limit: usize) -> (r: Vec<Frame>)
        ensures
            r@ == if frames_in(old(self)@).len() <= limit {
                frames_in(old(self)@)
            } else {
                frames_in(old(self)@).take(limit as int)
            },
            bytes_of(r@) <= old(self)@.len(),
            final(self)@ == old(self)@.skip(bytes_of(r@) as int),
    {
        let ghost start = self@;
        let mut r: Vec<Frame> = Vec::new();
        proof {
            assert(start.skip(0) =~= start);
            assert(r@ + frames_in(self@) =~= frames_in(start));
        }
        while r.len() < limit
            invariant
                r@.len() <= limit,
                bytes_of(r@) <= start.len(),
                self@ == start.skip(bytes_of(r@) as int),
                r@ + frames_in(self@) == frames_in(start),
            ensures
                r@.len() == limit || frames_in(self@).len() == 0,
            decreases limit - r@.len(),
        {
            let ghost before = self@;
            let ghost taken = r@;
            match self.next_frame() {
                Some(frame) => {
                    self.consume(&frame);
                    r.push(frame);
                    proof {
                        assert(r@.drop_last() =~= taken);
                        assert(before.skip(frame.len as int) =~= start.skip(
                            bytes_of(r@) as int,
                        ));
                        assert(r@ + frames_in(self@) =~= taken + frames_in(before));
                    }
                },
                None => {
                    break;
                },
            }
        }
        proof {
            let all = frames_in(start);
            if all.len() <= limit {
                if frames_in(self@).len() > 0 {
                    assert(r@.len() == limit);
                }
                assert(r@ =~= all);
            } else {
                assert(r@ =~= all.take(limit as int));
            }
        }
        r
    }
}

/// How long a frame was on its way, in microseconds; nothing where the clocks
/// say that it came before it went.
pub fn latency_us(frame: &Frame, now_us: u64) -> (r: u64)
    ensures
        r == if now_us > frame.sent_us {
            (now_us - frame.sent_us) as u64
        } else {
            0
        },
{
    now_us.saturating_sub(frame.sent_us)
}

/// Frames that were sent one after the other are found one after the other.
pub proof fn lemma_frames_are_found_in_order(
    first: Seq<u8>,
    first_us: u64,
    second: Seq<u8>,
    second_us: u64,
    rest: Seq<u8>,
)
    requires
        first.len() + FRAME_OVERHEAD <= u32::MAX,
        second.len() + FRAME_OVERHEAD <= u32::MAX,
        first.len() + FRAME_OVERHEAD <= usize::MAX,
        second.len() + FRAME_OVERHEAD <= usize::MAX,
    ensures
        ({
            let bytes = framed(first, first_us) + framed(second, second_us) + rest;
            let a = Frame { len: (first.len() + FRAME_OVERHEAD) as usize, sent_us: first_us };
            let b = Frame { len: (second.len() + FRAME_OVERHEAD) as usize, sent_us: second_us };
            &&& front_frame(bytes) == Some(a)
            &&& front_frame(bytes.skip(a.len as int)) == Some(b)
            &&& bytes.skip(a.len as int).skip(b.len as int) == rest
        }),
{
    let bytes = framed(first, first_us) + framed(second, second_us) + rest;
    lemma_a_sent_frame_is_found(first, first_us, framed(second, second_us) + rest);
    lemma_a_sent_frame_is_found(second, second_us, rest);
    let n = framed(first, first_us).len() as int;
    assert(bytes =~= framed(first, first_us) + (framed(second, second_us) + rest));
    assert(bytes.skip(n) =~= framed(second, second_us) + rest);
    assert(bytes.skip(n).skip(framed(second, second_us).len() as int) =~= rest);
}

/// A number is read least significant byte first: what bytes stand for is what
/// the first of them stand for, and the others 256 times over for each of the
/// first.
pub proof fn lemma_bytes_weigh_by_their_place(a: Seq<u8>, b: Seq<u8>, byte: u8)
    ensures
        le(a + b) == le(a) + pow256(a.len()) * le(b),
        le(seq![byte]) == byte,
    decreases a.len(),
{
    reveal_with_fuel(le, 2);
    assert(seq![byte].drop_first() =~= Seq::<u8>::empty());
    if a.len() == 0 {
        assert(a + b =~= b);
        assert(pow256(0) * le(b) == le(b)) by (nonlinear_arith)
            requires
                pow256(0) == 1,
        ;
    } else {
        let rest = a.drop_first();
        lemma_bytes_weigh_by_their_place(rest, b, byte);
        assert((a + b).drop_first() =~= rest + b);
        assert((a + b)[0] == a[0]);
        let p = pow256(rest.len());
        assert(256 * (p * le(b)) == (256 * p) * le(b)) by (nonlinear_arith);
    }
}

/// No frame is found before all of it is there.
pub proof fn lemma_only_whole_frames_are_found(payload: Seq<u8>, sent_us: u64, n: int)
    requires
        payload.len() + FRAME_OVERHEAD <= u32::MAX,
        payload.len() + FRAME_OVERHEAD <= usize::MAX,
        0 <= n < payload.len() + FRAME_OVERHEAD,
    ensures
        front_frame(framed(payload, sent_us).take(n)) is None,
{
    reveal_with_fuel(pow256, 9);
    let len = payload.len() + FRAME_OVERHEAD as nat;
    lemma_le_round_trip(len, 4);
    lemma_le_round_trip(sent_us as nat, 8);
    let bytes = framed(payload, sent_us).take(n);
    if n >= 4 {
        assert(bytes.take(4) =~= to_le(len, 4));
    }
}

/// A frame that is found is as long as its first four bytes say, which is no
/// less than a frame's least and no more than is there; its time is the last
/// eight bytes of it.
pub proof fn lemma_a_found_frame_lies_within(bytes: Seq<u8>)
    requires
        bytes.len() <= usize::MAX,
    ensures
        front_frame(bytes) matches Some(frame) ==> {
            &&& 12 <= frame.len <= bytes.len()
            &&& frame.len == le(bytes.subrange(0, 4))
            &&& frame.sent_us == le(bytes.subrange(frame.len - 8, frame.len as int))
        },
        bytes.len() >= 4 && 12 <= le(bytes.subrange(0, 4)) <= bytes.len() ==> front_frame(bytes)
            is Some,
{
    reveal_with_fuel(pow256, 9);
    if bytes.len() >= 4 {
        assert(bytes.take(4) =~= bytes.subrange(0, 4));
        let len = le(bytes.take(4)) as int;
        if 12 <= len <= bytes.len() {
            lemma_le_bound(bytes.subrange(len - 8, len));
        }
    }
}

/// The frames of a stream take up its bytes up to what is behind them.
pub proof fn lemma_frames_and_the_rest_are_the_stream(bytes: Seq<u8>)
    requires
        bytes.len() <= usize::MAX,
    ensures
        bytes_of(frames_in(bytes)) + behind_frames(bytes).len() == bytes.len(),
        behind_frames(bytes) == bytes.skip(bytes_of(frames_in(bytes)) as int),
        front_frame(behind_frames(bytes)) is None,
    decreases bytes.len(),
{
    match front_frame(bytes) {
        Some(frame) => {
            lemma_a_found_frame_lies_within(bytes);
            let rest = bytes.skip(frame.len as int);
            lemma_frames_and_the_rest_are_the_stream(rest);
            lemma_bytes_of_front(frame, frames_in(rest));
            assert(bytes.skip(bytes_of(frames_in(bytes)) as int) =~= rest.skip(
                bytes_of(frames_in(rest)) as int,
            ));
        },
        None => {
            assert(bytes.skip(0) =~= bytes);
        },
    }
}

proof fn lemma_bytes_of_front(frame: Frame, rest: Seq<Frame>)
    ensures
        bytes_of(seq![frame] + rest) == frame.len + bytes_of(rest),
    decreases rest.len(),
{
    let all = seq![frame] + rest;
    if rest.len() == 0 {
        assert(all.drop_last() =~= Seq::<Frame>::empty());
        assert(bytes_of(all.drop_last()) == 0);
        assert(all.last() == frame);
    } else {
        lemma_bytes_of_front(frame, rest.drop_last());
        assert(all.drop_last() =~= seq![frame] + rest.drop_last());
    }
}

} // verus!
