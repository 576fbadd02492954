//! The deterministic payload and its verification.

use vstd::prelude::*;

verus! {

/// The payload repeats after so many bytes.
pub const PAYLOAD_PATTERN_PERIOD: usize = 251;

/// The byte at a place of the payload.
pub open spec fn pattern(at: nat) -> u8 {
    (at % PAYLOAD_PATTERN_PERIOD as nat) as u8
}

/// Whether bytes are what the payload holds from a place on.
pub open spec fn follows_pattern(bytes: Seq<u8>, from: nat) -> bool {
    forall|i: int| 0 <= i < bytes.len() ==> #[trigger] bytes[i] == pattern((from + i) as nat)
}

/// Where in the pattern one is so many bytes further on.
pub open spec fn advanced(phase: nat, by: nat) -> nat {
    (phase + by) % PAYLOAD_PATTERN_PERIOD as nat
}

/// Verifies consecutive chunks of the payload. It advances past a chunk only
/// where the whole of it matches.
#[derive(Clone, Copy, Debug, PartialEq, Eq, Structural)]
pub struct PayloadPatternVerifier {
    phase: usize,
}

impl PayloadPatternVerifier {
    pub closed spec fn at(&self) -> nat {
        self.phase as nat
    }

    #[verifier::type_invariant]
    spec fn within_the_period(&self) -> bool {
        self.phase < PAYLOAD_PATTERN_PERIOD
    }

    pub fn new() -> (r: Self)
        ensures
            r.at() == 0,
    {
        PayloadPatternVerifier { phase: 0 }
    }

    /// Where in the pattern the next chunk starts.
    pub fn phase(&self) -> (r: usize)
        ensures
            r == self.at(),
            r < PAYLOAD_PATTERN_PERIOD,
    {
        proof {
            use_type_invariant(self);
        }
        self.phase
    }

    /// Whether the chunk is the payload's next one.
    pub fn verify(&mut self, actual: &[u8]) -> (r: bool)
        ensures
            r == follows_pattern(actual@, old(self).at()),
            final(self).at() == if r {
                advanced(old(self).at(), actual@.len())
            } else {
                old(self).at()
            },
    {
        proof {
            use_type_invariant(&*self);
        }
        let start: usize = self.phase;
        let mut expected: usize = start;
        let mut i: usize = 0;
        proof {
            assert(start as nat % 251 == start);
        }
        while i < actual.len()
            invariant
                i <= actual@.len(),
                start < PAYLOAD_PATTERN_PERIOD,
                start == old(self).at(),
                *self == *old(self),
                expected < PAYLOAD_PATTERN_PERIOD,
                expected == (start + i) % PAYLOAD_PATTERN_PERIOD as int,
                forall|j: int|
                    0 <= j < i ==> #[trigger] actual@[j] == pattern((start + j) as nat),
            decreases actual@.len() - i,
        {
            if actual[i] != expected as u8 {
                proof {
                    assert(actual@[i as int] != pattern((start + i) as nat));
                }
                return false;
            }
            proof {
                lemma_next_phase((start + i) as nat);
            }
            expected = if expected + 1 == PAYLOAD_PATTERN_PERIOD {
                0
            } else {
                expected + 1
            };
            i += 1;
        }
        self.phase = expected;
        true
    }
}

impl Default for PayloadPatternVerifier {
    fn default() -> (r: Self)
        ensures
            r.at() == 0,
    {
        PayloadPatternVerifier::new()
    }
}

proof fn lemma_next_phase(n: nat)
    ensures
        (n + 1) % 251 == if n % 251 + 1 == 251 {
            0
        } else {
            n % 251 + 1
        },
{
}

/// Advancing in two steps is advancing in one.
proof fn lemma_advancing(phase: nat, a: nat, b: nat)
    ensures
        advanced(advanced(phase, a), b) == advanced(phase, a + b),
        pattern(advanced(phase, a) + b) == pattern((phase + a + b) as nat),
{
    vstd::arithmetic::div_mod::lemma_add_mod_noop((phase + a) as int, b as int, 251);
    vstd::arithmetic::div_mod::lemma_add_mod_noop(advanced(phase, a) as int, b as int, 251);
    vstd::arithmetic::div_mod::lemma_mod_twice((phase + a) as int, 251);
}

/// How a payload is cut into chunks does not matter: two chunks match one
/// after the other exactly where they match as one, and the verifier ends at
/// the same place.
pub proof fn lemma_chunks_compose(a: Seq<u8>, b: Seq<u8>, phase: nat)
    ensures
        follows_pattern(a + b, phase) <==> follows_pattern(a, phase) && follows_pattern(
            b,
            advanced(phase, a.len()),
        ),
        advanced(advanced(phase, a.len()), b.len()) == advanced(phase, (a + b).len()),
{
    let p = advanced(phase, a.len());
    if follows_pattern(a + b, phase) {
        assert forall|i: int| 0 <= i < a.len() implies #[trigger] a[i] == pattern(
            (phase + i) as nat,
        ) by {
            assert((a + b)[i] == a[i]);
        }
        assert forall|i: int| 0 <= i < b.len() implies #[trigger] b[i] == pattern(
            (p + i) as nat,
        ) by {
            assert((a + b)[a.len() + i] == b[i]);
            lemma_advancing(phase, a.len(), i as nat);
        }
    }
    if follows_pattern(a, phase) && follows_pattern(b, p) {
        assert forall|i: int| 0 <= i < (a + b).len() implies #[trigger] (a + b)[i] == pattern(
            (phase + i) as nat,
        ) by {
            if i >= a.len() {
                let j = (i - a.len()) as nat;
                assert(b[j as int] == pattern(p + j));
                lemma_advancing(phase, a.len(), j);
            }
        }
    }
    lemma_advancing(phase, a.len(), b.len());
}

pub open spec fn wrapping_plus(n: u64, by: int) -> u64 {
    ((n + by) % 0x1_0000_0000_0000_0000) as u64
}

/// What the streams of a counting sink have delivered together.
#[derive(Clone, Copy, Debug, PartialEq, Eq, Structural)]
pub struct SinkProgress {
    /// The bytes that were the payload's, of all the streams. They wrap.
    pub delivered: u64,
    /// Whether some stream carried bytes that were not.
    pub corrupt: bool,
}

impl SinkProgress {
    pub fn new() -> (r: Self)
        ensures
            r == (SinkProgress { delivered: 0, corrupt: false }),
    {
        SinkProgress { delivered: 0, corrupt: false }
    }
}

/// One stream of a counting sink. It is held against the payload from the
/// payload's start, and stops counting for good once it carries other bytes.
#[derive(Clone, Copy, Debug, PartialEq, Eq, Structural)]
pub struct CountedStream {
    verifier: PayloadPatternVerifier,
    stopped: bool,
}

/// What is known of one stream of a counting sink.
pub struct CountedView {
    /// Where in the pattern the next chunk starts.
    pub phase: nat,
    /// Whether the stream has stopped counting.
    pub stopped: bool,
}

impl CountedView {
    /// Whether the chunk counts.
    pub open spec fn takes(self, chunk: Seq<u8>) -> bool {
        !self.stopped && follows_pattern(chunk, self.phase)
    }

    /// The stream after a chunk.
    pub open spec fn after(self, chunk: Seq<u8>) -> CountedView {
        if self.takes(chunk) {
            CountedView { phase: advanced(self.phase, chunk.len()), ..self }
        } else {
            CountedView { stopped: true, ..self }
        }
    }

    /// The stream after chunks, the first of them first.
    pub open spec fn after_all(self, chunks: Seq<Seq<u8>>) -> CountedView
        decreases chunks.len(),
    {
        if chunks.len() == 0 {
            self
        } else {
            self.after_all(chunks.drop_last()).after(chunks.last())
        }
    }

    /// What the streams have delivered together once this one has received
    /// a chunk.
    pub open spec fn adds(self, progress: SinkProgress, chunk: Seq<u8>) -> SinkProgress {
        if self.takes(chunk) {
            SinkProgress {
                delivered: wrapping_plus(progress.delivered, chunk.len() as int),
                ..progress
            }
        } else if self.stopped {
            progress
        } else {
            SinkProgress { corrupt: true, ..progress }
        }
    }
}

impl View for CountedStream {
    type V = CountedView;

    closed spec fn view(&self) -> CountedView {
        CountedView { phase: self.verifier.at(), stopped: self.stopped }
    }
}

impl CountedStream {
    pub fn new() -> (r: Self)
        ensures
            r@ == (CountedView { phase: 0, stopped: false }),
    {
        CountedStream { verifier: PayloadPatternVerifier::new(), stopped: false }
    }

    /// A chunk has come. The payload's next adds to what the streams have
    /// delivered; another is noted and stops this stream, and this one alone;
    /// a stream that has stopped changes nothing.
    pub fn received(&mut self, progress: &mut SinkProgress, chunk: &[u8])
        ensures
            final(self)@ == old(self)@.after(chunk@),
            *final(progress) == old(self)@.adds(*old(progress), chunk@),
    {
        if self.stopped {
            return;
        }
        let mut verifier = self.verifier;
        if verifier.verify(chunk) {
            progress.delivered = progress.delivered.wrapping_add(chunk.len() as u64);
        } else {
            progress.corrupt = true;
            self.stopped = true;
        }
        self.verifier = verifier;
    }
}

/// The streams of a counting sink and what they have delivered together,
/// after chunks that came to one stream or another.
pub open spec fn counted(
    streams: Seq<CountedView>,
    progress: SinkProgress,
    arrivals: Seq<(int, Seq<u8>)>,
) -> (Seq<CountedView>, SinkProgress)
    decreases arrivals.len(),
{
    if arrivals.len() == 0 {
        (streams, progress)
    } else {
        let (so_far, progress) = counted(streams, progress, arrivals.drop_last());
        let (i, chunk) = arrivals.last();
        (so_far.update(i, so_far[i].after(chunk)), so_far[i].adds(progress, chunk))
    }
}

/// The chunks that came to one stream.
pub open spec fn chunks_of(arrivals: Seq<(int, Seq<u8>)>, i: int) -> Seq<Seq<u8>>
    decreases arrivals.len(),
{
    if arrivals.len() == 0 {
        Seq::empty()
    } else {
        let so_far = chunks_of(arrivals.drop_last(), i);
        if arrivals.last().0 == i {
            so_far.push(arrivals.last().1)
        } else {
            so_far
        }
    }
}

/// Whether some stream has stopped counting.
pub open spec fn some_stopped(streams: Seq<CountedView>) -> bool {
    exists|i: int| 0 <= i < streams.len() && (#[trigger] streams[i]).stopped
}

/// Streams that share one progress do not touch one another: what becomes of
/// a stream is what its own chunks make of it, and corruption is noted where
/// one of them has stopped.
pub proof fn lemma_streams_are_apart(
    streams: Seq<CountedView>,
    progress: SinkProgress,
    arrivals: Seq<(int, Seq<u8>)>,
)
    requires
        forall|k: int|
            0 <= k < arrivals.len() ==> 0 <= (#[trigger] arrivals[k]).0 < streams.len(),
        progress.corrupt == some_stopped(streams),
    ensures
        counted(streams, progress, arrivals).0.len() == streams.len(),
        forall|i: int|
            0 <= i < streams.len() ==> #[trigger] counted(streams, progress, arrivals).0[i]
                == streams[i].after_all(chunks_of(arrivals, i)),
        counted(streams, progress, arrivals).1.corrupt == some_stopped(
            counted(streams, progress, arrivals).0,
        ),
    decreases arrivals.len(),
{
    if arrivals.len() > 0 {
        let before = arrivals.drop_last();
        let (k, chunk) = arrivals.last();
        assert forall|j: int| 0 <= j < before.len() implies 0 <= (#[trigger] before[j]).0
            < streams.len() by {
            assert(before[j] == arrivals[j]);
        }
        assert(arrivals[arrivals.len() - 1] == arrivals.last());
        lemma_streams_are_apart(streams, progress, before);
        let (a, p) = counted(streams, progress, before);
        let (b, q) = counted(streams, progress, arrivals);
        assert(b == a.update(k, a[k].after(chunk)));
        assert forall|i: int| 0 <= i < streams.len() implies #[trigger] b[i]
            == streams[i].after_all(chunks_of(arrivals, i)) by {
            assert(a[i] == streams[i].after_all(chunks_of(before, i)));
            if i == k {
                let own = chunks_of(arrivals, i);
                assert(own.drop_last() =~= chunks_of(before, i));
                assert(own.last() == chunk);
            }
        }
        if some_stopped(a) {
            let i = choose|i: int| 0 <= i < a.len() && (#[trigger] a[i]).stopped;
            assert(b[i].stopped);
        }
        if !a[k].takes(chunk) {
            assert(b[k].stopped);
        } else if some_stopped(b) {
            let i = choose|i: int| 0 <= i < b.len() && (#[trigger] b[i]).stopped;
            assert(a[i].stopped);
        }
        if !some_stopped(a) {
            assert(!a[k].stopped);
        }
    }
}

/// A stream that carries other bytes stops counting, and another one counts
/// on all the same.
pub proof fn lemma_corruption_stops_one_stream(
    a: CountedView,
    b: CountedView,
    progress: SinkProgress,
    bad: Seq<u8>,
    good: Seq<u8>,
    late: Seq<u8>,
)
    requires
        !a.stopped,
        !follows_pattern(bad, a.phase),
        b.takes(good),
    ensures
        ({
            let noted = a.adds(progress, bad);
            let counted_on = b.adds(noted, good);
            &&& noted == (SinkProgress { corrupt: true, ..progress })
            &&& counted_on == (SinkProgress {
                delivered: wrapping_plus(progress.delivered, good.len() as int),
                corrupt: true,
            })
            &&& a.after(bad).adds(counted_on, late) == counted_on
            &&& a.after(bad).after(late) == a.after(bad)
        }),
{
}

/// The payload counts up from nothing, byte by byte, and starts over after a
/// period; so no two places within a period hold the same byte.
pub proof fn lemma_the_payload_counts_and_repeats(at: nat, other: nat)
    ensures
        at < 251 ==> pattern(at) == at,
        pattern(at + 251) == pattern(at),
        pattern(at) < 251,
        at < other < at + 251 ==> pattern(at) != pattern(other),
{
}

/// A verifier that has advanced stands where the bytes that it advanced over
/// end: within a period, at the place that holds the next byte.
pub proof fn lemma_advancing_is_by_the_bytes(phase: nat, by: nat)
    ensures
        advanced(phase, by) < 251,
        pattern(advanced(phase, by)) == pattern(phase + by),
        phase + by < 251 ==> advanced(phase, by) == phase + by,
        advanced(phase, 251) == advanced(phase, 0),
{
}

/// Bytes are the payload's from a place on exactly where each of them is: one
/// that is not makes all of them other bytes.
pub proof fn lemma_one_wrong_byte_is_noticed(bytes: Seq<u8>, from: nat, i: int)
    requires
        0 <= i < bytes.len(),
    ensures
        bytes[i] != ((from + i) % 251) as u8 ==> !follows_pattern(bytes, from),
        follows_pattern(bytes, from) ==> bytes[i] == (from + i) % 251,
        (forall|j: int| 0 <= j < bytes.len() ==> #[trigger] bytes[j] == ((from + j) % 251) as u8)
            ==> follows_pattern(bytes, from),
{
    assert(bytes[i] == bytes[i]);
    if forall|j: int| 0 <= j < bytes.len() ==> #[trigger] bytes[j] == ((from + j) % 251) as u8 {
        assert forall|j: int| 0 <= j < bytes.len() implies #[trigger] bytes[j] == pattern(
            (from + j) as nat,
        ) by {
        }
    }
}

/// A count goes up by what was added, and starts over beyond its limit.
pub proof fn lemma_counts_start_over_beyond_the_limit(n: u64, by: nat)
    ensures
        n + by <= u64::MAX ==> wrapping_plus(n, by as int) == n + by,
        n + by == u64::MAX + 1 ==> wrapping_plus(n, by as int) == 0,
{
}

/// A chunk that counts adds its bytes to what the streams have delivered, once,
/// and moves the stream on by as many; it notes no corruption. One that does
/// not count adds nothing.
pub proof fn lemma_a_chunk_counts_whole_or_not_at_all(
    stream: CountedView,
    progress: SinkProgress,
    chunk: Seq<u8>,
)
    requires
        progress.delivered + chunk.len() <= u64::MAX,
    ensures
        !stream.stopped && follows_pattern(chunk, stream.phase) ==> {
            &&& stream.adds(progress, chunk).delivered == progress.delivered + chunk.len()
            &&& stream.adds(progress, chunk).corrupt == progress.corrupt
            &&& !stream.after(chunk).stopped
            &&& pattern(stream.after(chunk).phase) == pattern(stream.phase + chunk.len())
        },
        stream.stopped || !follows_pattern(chunk, stream.phase) ==> {
            &&& stream.adds(progress, chunk).delivered == progress.delivered
            &&& stream.after(chunk).stopped
            &&& stream.after(chunk).phase == stream.phase
        },
        !stream.stopped && !follows_pattern(chunk, stream.phase) ==> stream.adds(
            progress,
            chunk,
        ).corrupt,
        stream.stopped ==> stream.adds(progress, chunk).corrupt == progress.corrupt,
{
    lemma_advancing_is_by_the_bytes(stream.phase, chunk.len());
}

} // verus!
