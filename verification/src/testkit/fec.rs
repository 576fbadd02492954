//! Presets of forward error correction, and evidence of it sampled from the
//! lanes. `C` are a lane's counters.

use vstd::prelude::*;

use crate::lane::LaneClass;
use crate::shared::FecPreset;

verus! {

/// The least time between two samples, in microseconds.
pub const SAMPLE_INTERVAL_US: u64 = 50_000;

/// The preset of the probe for recovery, which is stronger than the one that
/// sessions have: three parity copies, and group correction in the stream.
pub fn probe_interactive_fec_tuning() -> (r: (FecPreset, bool))
    ensures
        r == (FecPreset::MaxDiversity, true),
{
    (FecPreset::MaxDiversity, true)
}

/// What observes each lane's metrics.
#[derive(Debug)]
pub struct RtpMuxMetricsObservers<O> {
    pub interactive: Option<O>,
    pub bulk: Option<O>,
}

impl<O> Default for RtpMuxMetricsObservers<O> {
    fn default() -> (r: Self)
        ensures
            r.interactive is None,
            r.bulk is None,
    {
        RtpMuxMetricsObservers { interactive: None, bulk: None }
    }
}

/// What was seen of one lane: whether anything was, and its counters where
/// the lane has error correction.
#[derive(Debug)]
pub struct LaneFecEvidence<C> {
    pub observed: bool,
    pub counters: Option<C>,
}

impl<C> Default for LaneFecEvidence<C> {
    fn default() -> (r: Self)
        ensures
            r == (LaneFecEvidence::<C> { observed: false, counters: None }),
    {
        LaneFecEvidence { observed: false, counters: None }
    }
}

/// The time of the last sample where none was taken.
pub const NEVER: u64 = u64::MAX;

/// Decides when a lane is sampled.
#[derive(Clone, Copy, Debug, PartialEq, Eq, Structural)]
pub struct FecSampler {
    pub lane: LaneClass,
    /// When the lane was last sampled, in microseconds.
    pub last_sample_us: u64,
}

impl FecSampler {
    pub fn new(lane: LaneClass) -> (r: Self)
        ensures
            r == (FecSampler { lane, last_sample_us: NEVER }),
    {
        FecSampler { lane, last_sample_us: NEVER }
    }

    /// Whether a sample is taken now. One is at first, and then after each
    /// interval at the earliest.
    pub fn sample(&mut self, elapsed_us: u64) -> (r: bool)
        ensures
            r == (old(self).last_sample_us == NEVER || elapsed_us >= old(self).last_sample_us
                + SAMPLE_INTERVAL_US),
            *final(self) == if r {
                FecSampler { last_sample_us: elapsed_us, ..*old(self) }
            } else {
                *old(self)
            },
    {
        if self.last_sample_us != NEVER && elapsed_us.saturating_sub(self.last_sample_us)
            < SAMPLE_INTERVAL_US {
            return false;
        }
        self.last_sample_us = elapsed_us;
        true
    }
}

/// A sample of a lane; `None` where there was no snapshot.
pub struct Sample<C> {
    pub lane: LaneClass,
    pub snapshot: Option<Option<C>>,
}

impl<C> LaneFecEvidence<C> {
    /// What has been seen of a lane after a sample, of that lane or another.
    pub open spec fn after(self, lane: LaneClass, sample: Sample<C>) -> LaneFecEvidence<C> {
        match sample.snapshot {
            Some(counters) if sample.lane == lane => LaneFecEvidence { observed: true, counters },
            _ => self,
        }
    }

    /// What has been seen of a lane after samples.
    pub open spec fn after_all(self, lane: LaneClass, samples: Seq<Sample<C>>) -> LaneFecEvidence<C>
        decreases samples.len(),
    {
        if samples.len() == 0 {
            self
        } else {
            self.after_all(lane, samples.drop_last()).after(lane, samples.last())
        }
    }
}

/// The samples of one lane.
pub open spec fn samples_of<C>(samples: Seq<Sample<C>>, lane: LaneClass) -> Seq<Sample<C>>
    decreases samples.len(),
{
    if samples.len() == 0 {
        Seq::empty()
    } else {
        let so_far = samples_of(samples.drop_last(), lane);
        if samples.last().lane == lane {
            so_far.push(samples.last())
        } else {
            so_far
        }
    }
}

/// Each observer changes what is seen of its own lane alone: the samples of
/// the other lane might as well not have been taken.
pub proof fn lemma_lanes_are_seen_apart<C>(
    start: LaneFecEvidence<C>,
    lane: LaneClass,
    samples: Seq<Sample<C>>,
)
    ensures
        start.after_all(lane, samples) == start.after_all(lane, samples_of(samples, lane)),
    decreases samples.len(),
{
    if samples.len() > 0 {
        lemma_lanes_are_seen_apart(start, lane, samples.drop_last());
        let own = samples_of(samples, lane);
        if samples.last().lane == lane {
            assert(own.drop_last() =~= samples_of(samples.drop_last(), lane));
        }
    }
}

/// What was seen of both lanes.
#[derive(Debug)]
pub struct RtpMuxFecCapture<C> {
    interactive: LaneFecEvidence<C>,
    bulk: LaneFecEvidence<C>,
}

impl<C: Copy> RtpMuxFecCapture<C> {
    /// What was seen of a lane.
    pub closed spec fn evidence(&self, lane: LaneClass) -> LaneFecEvidence<C> {
        match lane {
            LaneClass::Interactive => self.interactive,
            LaneClass::Bulk => self.bulk,
        }
    }

    pub fn new() -> (r: Self)
        ensures
            forall|lane: LaneClass| #[trigger]
                r.evidence(lane) == (LaneFecEvidence::<C> { observed: false, counters: None }),
    {
        RtpMuxFecCapture {
            interactive: LaneFecEvidence { observed: false, counters: None },
            bulk: LaneFecEvidence { observed: false, counters: None },
        }
    }

    /// A sampler for each lane, which has taken no sample yet.
    pub fn observers(&self) -> (r: RtpMuxMetricsObservers<FecSampler>)
        ensures
            r.interactive == Some(
                FecSampler { lane: LaneClass::Interactive, last_sample_us: NEVER },
            ),
            r.bulk == Some(FecSampler { lane: LaneClass::Bulk, last_sample_us: NEVER }),
    {
        RtpMuxMetricsObservers {
            interactive: Some(FecSampler::new(LaneClass::Interactive)),
            bulk: Some(FecSampler::new(LaneClass::Bulk)),
        }
    }

    /// A lane has been sampled. Its counters are those of the last sample;
    /// without a snapshot nothing is seen.
    pub fn observe(&mut self, lane: LaneClass, snapshot: Option<Option<C>>)
        ensures
            forall|l: LaneClass| #[trigger]
                final(self).evidence(l) == old(self).evidence(l).after(
                    l,
                    Sample { lane, snapshot },
                ),
    {
        if let Some(counters) = snapshot {
            let evidence = LaneFecEvidence { observed: true, counters };
            match lane {
                LaneClass::Interactive => {
                    self.interactive = evidence;
                },
                LaneClass::Bulk => {
                    self.bulk = evidence;
                },
            }
        }
    }

    pub fn interactive(&self) -> (r: LaneFecEvidence<C>)
        ensures
            r == self.evidence(LaneClass::Interactive),
    {
        LaneFecEvidence {
            observed: self.interactive.observed,
            counters: self.interactive.counters,
        }
    }

    pub fn bulk(&self) -> (r: LaneFecEvidence<C>)
        ensures
            r == self.evidence(LaneClass::Bulk),
    {
        LaneFecEvidence { observed: self.bulk.observed, counters: self.bulk.counters }
    }
}

impl<C: Copy> Default for RtpMuxFecCapture<C> {
    fn default() -> (r: Self)
        ensures
            forall|lane: LaneClass| #[trigger]
                r.evidence(lane) == (LaneFecEvidence::<C> { observed: false, counters: None }),
    {
        RtpMuxFecCapture::new()
    }
}

/// A clone reports what was seen so far. Captures that are to go on agreeing
/// are one capture behind a shared handle.
impl<C: Copy> Clone for RtpMuxFecCapture<C> {
    fn clone(&self) -> (r: Self)
        ensures
            forall|lane: LaneClass| #[trigger] r.evidence(lane) == self.evidence(lane),
    {
        RtpMuxFecCapture { interactive: self.interactive(), bulk: self.bulk() }
    }
}

/// A snapshot of a lane is what is seen of it from then on, and nothing of an
/// earlier one is left; a sample without a snapshot, or of the other lane,
/// shows nothing.
pub proof fn lemma_the_last_snapshot_is_what_is_seen<C>(
    evidence: LaneFecEvidence<C>,
    lane: LaneClass,
    counters: Option<C>,
    snapshot: Option<Option<C>>,
)
    ensures
        ({
            let seen = evidence.after(lane, Sample { lane, snapshot: Some(counters) });
            seen.observed && seen.counters == counters
        }),
        evidence.after(lane, Sample { lane, snapshot: None }) == evidence,
        evidence.after(lane, Sample { lane: lane.opposite(), snapshot }) == evidence,
{
}

} // verus!
