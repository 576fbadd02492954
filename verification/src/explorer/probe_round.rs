//! One round of probing an address tuple.
//!
//! The answers that have come are taken in, a probe whose answer is overdue
//! is given up, and where a probe is due it is sent and the next one put off.
//! Whoever owns the tuple's socket does what it is told and says what came of
//! it.

use vstd::prelude::*;

use crate::explorer::tuple_stats::{
    cadence, clamped, Averages, Outstanding, ProbeEcho, TupleStats, MAX_MEAN_INTERVAL,
};
use crate::random::random_u64;

verus! {

/// How far a round has come.
#[derive(Clone, Copy, Debug, PartialEq, Eq, Structural)]
pub enum RoundPhase {
    /// Answers are being taken in.
    Listening,
    /// A probe is being sent under that nonce.
    Sending { nonce: u64 },
    /// An interval of that mean is being drawn.
    Drawing { mean: u64 },
    Over,
}

/// What came of what was done last. With it come the averages that the sample
/// would make, were it one.
#[derive(Clone, Copy, Debug, PartialEq, Eq, Structural)]
pub enum RoundEvent {
    /// An answer has come.
    Echo { nonce: u64, averages: Averages },
    /// No further answer has come.
    Silence { averages: Averages },
    /// The probe was sent, or could not be.
    Sent { sent: bool, averages: Averages },
    /// That interval was drawn.
    Drawn { interval: u64 },
}

/// What is done next.
#[derive(Clone, Copy, Debug, PartialEq, Eq, Structural)]
pub enum RoundStep {
    /// Look for an answer.
    Listen,
    /// Send a probe.
    Send(ProbeEcho),
    /// Draw an interval of that mean.
    Draw { mean: u64 },
    Done,
}

/// A round of probing one tuple. The times are in nanoseconds.
#[derive(Clone, Copy, Debug, PartialEq, Eq, Structural)]
pub struct ProbeRound {
    pub now: u64,
    /// The mean interval between probes of a tuple that lives.
    pub mean: u64,
    /// What the times that probes carry count from.
    pub epoch: u64,
    pub phase: RoundPhase,
}

/// Whether an event can come of what is done in a phase.
pub open spec fn fits(phase: RoundPhase, event: RoundEvent) -> bool {
    match phase {
        RoundPhase::Listening => event is Echo || event is Silence,
        RoundPhase::Sending { .. } => event is Sent,
        RoundPhase::Drawing { .. } => event is Drawn,
        RoundPhase::Over => false,
    }
}

impl ProbeRound {
    /// The next probe can be put off as long as the mean may ask for.
    pub open spec fn wf(self) -> bool {
        &&& self.mean <= MAX_MEAN_INTERVAL
        &&& self.now + 12 * self.mean <= u64::MAX
        &&& self.phase matches RoundPhase::Drawing { mean } ==> mean <= 3 * self.mean
    }

    /// The round in another phase.
    pub open spec fn at(self, phase: RoundPhase) -> ProbeRound {
        ProbeRound { phase, ..self }
    }

    /// The round, the tuple's statistics and the step after an event that
    /// fits; a probe goes out under that nonce.
    pub open spec fn next(self, stats: TupleStats, event: RoundEvent, nonce: u64) -> (
        ProbeRound,
        TupleStats,
        RoundStep,
    ) {
        match (self.phase, event) {
            (RoundPhase::Listening, RoundEvent::Echo { nonce, averages }) => (
                self,
                stats.after_echo(nonce, self.now, averages),
                RoundStep::Listen,
            ),
            (RoundPhase::Listening, RoundEvent::Silence { averages }) => {
                let after = stats.given_up(self.now, averages);
                match after.due_probe(nonce, self.now, self.epoch) {
                    Some(probe) => (
                        self.at(RoundPhase::Sending { nonce }),
                        after,
                        RoundStep::Send(probe),
                    ),
                    None => (self.at(RoundPhase::Over), after, RoundStep::Done),
                }
            },
            (RoundPhase::Sending { nonce }, RoundEvent::Sent { sent, averages }) => {
                let after = stats.after_sending(nonce, sent, self.now, averages);
                let mean = cadence(after.is_dead(), self.mean as int) as u64;
                (self.at(RoundPhase::Drawing { mean }), after, RoundStep::Draw { mean })
            },
            (RoundPhase::Drawing { mean }, RoundEvent::Drawn { interval }) => (
                self.at(RoundPhase::Over),
                TupleStats {
                    next_probe_at: (self.now + clamped(interval as int, mean as int)) as u64,
                    ..stats
                },
                RoundStep::Done,
            ),
            _ => arbitrary(),
        }
    }

    /// A round that starts by looking for an answer.
    pub fn new(now: u64, mean: u64, epoch: u64) -> (r: Self)
        requires
            mean <= MAX_MEAN_INTERVAL,
            now + 12 * mean <= u64::MAX,
        ensures
            r == (ProbeRound { now, mean, epoch, phase: RoundPhase::Listening }),
            r.wf(),
    {
        ProbeRound { now, mean, epoch, phase: RoundPhase::Listening }
    }

    /// What was done last has come to something. If a probe is due, it goes
    /// out under the nonce.
    pub fn advance_with(&mut self, stats: &mut TupleStats, event: RoundEvent, nonce: u64) -> (r:
        RoundStep)
        requires
            old(self).wf(),
            fits(old(self).phase, event),
        ensures
            (*final(self), *final(stats), r) == old(self).next(*old(stats), event, nonce),
            final(self).wf(),
    {
        match (self.phase, event) {
            (RoundPhase::Listening, RoundEvent::Echo { nonce, averages }) => {
                stats.echoed(nonce, self.now, averages);
                RoundStep::Listen
            },
            (RoundPhase::Listening, RoundEvent::Silence { averages }) => {
                stats.give_up(self.now, averages);
                match stats.probe_with(nonce, self.now, self.epoch) {
                    Some(probe) => {
                        self.phase = RoundPhase::Sending { nonce };
                        RoundStep::Send(probe)
                    },
                    None => {
                        self.phase = RoundPhase::Over;
                        RoundStep::Done
                    },
                }
            },
            (RoundPhase::Sending { nonce }, RoundEvent::Sent { sent, averages }) => {
                let mean: u64 = stats.probe_sent(nonce, sent, self.now, self.mean, averages);
                self.phase = RoundPhase::Drawing { mean };
                RoundStep::Draw { mean }
            },
            (RoundPhase::Drawing { mean }, RoundEvent::Drawn { interval }) => {
                stats.schedule(self.now, mean, interval);
                self.phase = RoundPhase::Over;
                RoundStep::Done
            },
            _ => {
                proof {
                    assert(false);
                }
                RoundStep::Done
            },
        }
    }

    /// What was done last has come to something. If a probe is due, it goes
    /// out under a random nonce.
    pub fn advance(&mut self, stats: &mut TupleStats, event: RoundEvent) -> (r: RoundStep)
        requires
            old(self).wf(),
            fits(old(self).phase, event),
        ensures
            exists|nonce: u64|
                (*final(self), *final(stats), r) == #[trigger] old(self).next(
                    *old(stats),
                    event,
                    nonce,
                ),
            final(self).wf(),
    {
        self.advance_with(stats, event, random_u64())
    }
}

/// How many events a round waits for at most once no further answer comes.
pub open spec fn events_left(phase: RoundPhase) -> nat {
    match phase {
        RoundPhase::Listening => 3,
        RoundPhase::Sending { .. } => 2,
        RoundPhase::Drawing { .. } => 1,
        RoundPhase::Over => 0,
    }
}

/// A round comes to its end once the answers have run out. It sends a probe
/// only where none is outstanding, leaves none that is overdue, and a probe
/// that went out is the one that is outstanding at the end.
pub proof fn lemma_rounds_end(round: ProbeRound, stats: TupleStats, event: RoundEvent, nonce: u64)
    requires
        round.wf(),
        fits(round.phase, event),
    ensures
        ({
            let (next, after, step) = round.next(stats, event, nonce);
            &&& event is Echo ==> next == round && step == RoundStep::Listen
            &&& event !is Echo ==> events_left(next.phase) < events_left(round.phase)
            &&& step is Done <==> next.phase == RoundPhase::Over
            &&& event is Silence ==> !after.overdue(round.now)
            &&& step is Send ==> after.outstanding is None && (step->Send_0).nonce == nonce
            &&& match (round.phase, event) {
                (RoundPhase::Sending { nonce }, RoundEvent::Sent { sent: true, .. }) => {
                    after.outstanding == Some(Outstanding { nonce, sent_at: round.now })
                },
                _ => true,
            }
            &&& event is Drawn ==> after.outstanding == stats.outstanding
        }),
{
}

/// Two rounds measure a path: the first sends a probe, which carries its
/// nonce, and fixes when the next one goes; the second takes in its answer.
/// The path's round trip is then the time between the two rounds.
pub proof fn lemma_two_rounds_measure_a_path(
    first: ProbeRound,
    second: ProbeRound,
    stats: TupleStats,
    nonce: u64,
    interval: u64,
    silent: Averages,
    sent: Averages,
    answered: Averages,
)
    requires
        first.wf(),
        first.phase == RoundPhase::Listening,
        second.phase == RoundPhase::Listening,
        first.now <= second.now,
        stats.outstanding is None,
        stats.rtt is None,
        stats.next_probe_at <= first.now,
        stats.consecutive_losses < 3,
    ensures
        ({
            let (a, s0, step) = first.next(stats, RoundEvent::Silence { averages: silent }, nonce);
            let (b, s1, draw) = a.next(
                s0,
                RoundEvent::Sent { sent: true, averages: sent },
                nonce,
            );
            let (c, s2, end) = b.next(s1, RoundEvent::Drawn { interval }, nonce);
            let (d, s3, listen) = second.next(
                s2,
                RoundEvent::Echo { nonce, averages: answered },
                nonce,
            );
            &&& step is Send && (step->Send_0).nonce == nonce
            &&& draw == (RoundStep::Draw { mean: first.mean })
            &&& end == RoundStep::Done
            &&& listen == RoundStep::Listen
            &&& first.now + first.mean / 4 <= s2.next_probe_at <= first.now + 4 * first.mean
            &&& s2.outstanding matches Some(probe) && probe.nonce == nonce && probe.sent_at
                == first.now
            &&& s3.outstanding is None
            &&& s3.rtt is Some
            &&& first.now + s3.rtt->0 == second.now
        }),
{
}

/// A probe that a round sends is due, and the mean of the interval that is
/// drawn for the next one is the round's own, three times over for a tuple
/// that is dead. The round keeps its time, its mean and its epoch.
pub proof fn lemma_a_round_keeps_its_bearings(
    round: ProbeRound,
    stats: TupleStats,
    event: RoundEvent,
    nonce: u64,
)
    requires
        round.wf(),
        fits(round.phase, event),
    ensures
        ({
            let (next, after, step) = round.next(stats, event, nonce);
            &&& next.now == round.now
            &&& next.mean == round.mean
            &&& next.epoch == round.epoch
            &&& step matches RoundStep::Send(probe) ==> round.now >= after.next_probe_at
                && after.outstanding is None && (round.now >= round.epoch ==> round.epoch
                + probe.timestamp_micros * 1000 <= round.now < round.epoch + (
            probe.timestamp_micros + 1) * 1000)
            &&& step matches RoundStep::Draw { mean } ==> next.phase == (RoundPhase::Drawing {
                mean,
            }) && mean == if after.consecutive_losses >= 3 {
                3 * round.mean
            } else {
                round.mean as int
            }
            &&& event is Silence && step is Done ==> after.outstanding is Some || round.now
                < after.next_probe_at
            &&& event matches RoundEvent::Drawn { interval } ==> (round.phase matches
                RoundPhase::Drawing { mean } && round.now + mean / 4 <= after.next_probe_at
                <= round.now + 4 * mean && (mean / 4 <= interval <= 4 * mean
                ==> after.next_probe_at == round.now + interval))
        }),
{
}

/// An answer under another nonce than the outstanding probe's changes nothing.
pub proof fn lemma_stray_answers_change_nothing(
    round: ProbeRound,
    stats: TupleStats,
    nonce: u64,
    averages: Averages,
    fresh: u64,
)
    requires
        round.phase == RoundPhase::Listening,
        stats.outstanding matches Some(probe) ==> probe.nonce != nonce,
    ensures
        round.next(stats, RoundEvent::Echo { nonce, averages }, fresh) == (
            round,
            stats,
            RoundStep::Listen,
        ),
{
}

} // verus!
