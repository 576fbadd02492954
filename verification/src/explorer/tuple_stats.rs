//! What probing one address tuple has shown, and when it is probed next.

use vstd::prelude::*;

use crate::addr::SocketAddr;
use crate::explorer::path_score::PathScore;

verus! {

/// How long the answer to a probe is awaited.
pub const PROBE_TIMEOUT: u64 = 1_500_000_000;

/// How often answers are looked for while a probe is outstanding.
pub const PROBE_POLL_TICK: u64 = 5_000_000;

/// After so many losses in a row a tuple is dead.
pub const DEAD_CONSECUTIVE_LOSSES: u32 = 3;

/// A dead tuple is probed so many times less often.
pub const DEAD_CADENCE_FACTOR: u32 = 3;

/// A tuple with fewer samples has no score.
pub const MIN_SAMPLES: u32 = 3;

/// The bit pattern of a loss ratio of nothing.
pub const NO_LOSS: u64 = 0;

/// The bit pattern of a loss ratio of one.
pub const TOTAL_LOSS: u64 = 0x3FF0_0000_0000_0000;

/// The longest mean interval between probes that can be scheduled.
pub const MAX_MEAN_INTERVAL: u64 = 0x1000_0000_0000_0000;

/// A probe to be sent.
#[derive(Clone, Copy, Debug, PartialEq, Eq, Structural)]
pub struct ProbeEcho {
    pub nonce: u64,
    pub timestamp_micros: u64,
}

/// The moving averages once a sample has gone into them: the round trip in
/// nanoseconds, the loss ratio as a bit pattern. The first sample of each is
/// taken as it is, so they count from the second one on.
#[derive(Clone, Copy, Debug, PartialEq, Eq, Structural)]
pub struct Averages {
    pub rtt: u64,
    pub loss: u64,
}

#[derive(Clone, Copy, Debug, PartialEq, Eq, Structural)]
pub struct TupleReport {
    pub local_addr: SocketAddr,
    pub rtt: Option<u64>,
    pub loss: Option<u64>,
    pub alive: bool,
}

/// A probe that has not been answered yet.
#[derive(Clone, Copy, Debug, PartialEq, Eq, Structural)]
pub struct Outstanding {
    pub nonce: u64,
    pub sent_at: u64,
}

#[derive(Clone, Copy, Debug, PartialEq, Eq, Structural)]
pub struct TupleStats {
    pub rtt: Option<u64>,
    pub loss: Option<u64>,
    pub samples: u32,
    pub consecutive_losses: u32,
    pub outstanding: Option<Outstanding>,
    pub next_probe_at: u64,
}

/// The statistics of a tuple that has not been probed yet.
pub open spec fn unmeasured(next_probe_at: u64) -> TupleStats {
    TupleStats {
        rtt: None,
        loss: None,
        samples: 0,
        consecutive_losses: 0,
        outstanding: None,
        next_probe_at,
    }
}

pub open spec fn saturating_succ(n: u32) -> u32 {
    if n == u32::MAX {
        n
    } else {
        (n + 1) as u32
    }
}

/// The time between two instants, nothing where the second is the earlier.
pub open spec fn since(now: u64, then_at: u64) -> u64 {
    if now < then_at {
        0
    } else {
        (now - then_at) as u64
    }
}

fn duration_since(now: u64, then_at: u64) -> (r: u64)
    ensures
        r == since(now, then_at),
{
    if now < then_at {
        0
    } else {
        now - then_at
    }
}

impl TupleStats {
    pub open spec fn is_dead(self) -> bool {
        self.consecutive_losses >= DEAD_CONSECUTIVE_LOSSES
    }

    pub open spec fn is_alive(self) -> bool {
        self.samples >= MIN_SAMPLES && self.rtt is Some && !self.is_dead()
    }

    /// The tuple's score, where it has one.
    pub open spec fn scored(self) -> Option<PathScore> {
        if self.is_alive() {
            Some(
                PathScore {
                    rtt: self.rtt->0,
                    loss: match self.loss {
                        Some(loss) => loss,
                        None => NO_LOSS,
                    },
                },
            )
        } else {
            None
        }
    }

    /// The statistics with one more sample: a round trip, or a loss.
    pub open spec fn recorded(self, sample: Option<u64>, averages: Averages) -> TupleStats {
        TupleStats {
            samples: saturating_succ(self.samples),
            loss: Some(
                match self.loss {
                    None => if sample is Some {
                        NO_LOSS
                    } else {
                        TOTAL_LOSS
                    },
                    Some(_) => averages.loss,
                },
            ),
            consecutive_losses: if sample is Some {
                0
            } else {
                saturating_succ(self.consecutive_losses)
            },
            rtt: match sample {
                Some(rtt) => match self.rtt {
                    None => Some(rtt),
                    Some(_) => Some(averages.rtt),
                },
                None => self.rtt,
            },
            ..self
        }
    }

    /// Whether the outstanding probe's answer is overdue.
    pub open spec fn overdue(self, now: u64) -> bool {
        self.outstanding is Some && since(now, (self.outstanding->0).sent_at) >= PROBE_TIMEOUT
    }

    /// Whether a probe is to be sent.
    pub open spec fn probe_due(self, now: u64) -> bool {
        self.outstanding is None && now >= self.next_probe_at
    }

    /// Statistics of a tuple that has not been probed yet; `stagger` is how
    /// long the first probe waits.
    pub fn new(now: u64, stagger: u64) -> (r: Self)
        requires
            now + stagger <= u64::MAX,
        ensures
            r == unmeasured((now + stagger) as u64),
    {
        TupleStats {
            rtt: None,
            loss: None,
            samples: 0,
            consecutive_losses: 0,
            outstanding: None,
            next_probe_at: now + stagger,
        }
    }

    pub fn dead(&self) -> (r: bool)
        ensures
            r == self.is_dead(),
    {
        self.consecutive_losses >= DEAD_CONSECUTIVE_LOSSES
    }

    pub fn alive(&self) -> (r: bool)
        ensures
            r == self.is_alive(),
    {
        self.samples >= MIN_SAMPLES && self.rtt.is_some() && !self.dead()
    }

    pub fn score(&self) -> (r: Option<PathScore>)
        ensures
            r == self.scored(),
    {
        if !self.alive() {
            return None;
        }
        match self.rtt {
            Some(rtt) => Some(
                PathScore {
                    rtt,
                    loss: match self.loss {
                        Some(loss) => loss,
                        None => NO_LOSS,
                    },
                },
            ),
            None => None,
        }
    }

    /// Takes in one sample: a round trip, or a loss.
    pub fn record(&mut self, sample: Option<u64>, averages: Averages)
        ensures
            *final(self) == old(self).recorded(sample, averages),
    {
        if self.samples < u32::MAX {
            self.samples = self.samples + 1;
        }
        self.loss = Some(
            match self.loss {
                None => if sample.is_some() {
                    NO_LOSS
                } else {
                    TOTAL_LOSS
                },
                Some(_) => averages.loss,
            },
        );
        match sample {
            Some(rtt) => {
                self.consecutive_losses = 0;
                self.rtt = Some(
                    match self.rtt {
                        None => rtt,
                        Some(_) => averages.rtt,
                    },
                );
            },
            None => {
                if self.consecutive_losses < u32::MAX {
                    self.consecutive_losses = self.consecutive_losses + 1;
                }
            },
        }
    }

    /// The round trip that an answer stands for: none where the answer is not
    /// to the outstanding probe.
    pub open spec fn answer(self, nonce: u64, now: u64) -> Option<u64> {
        match self.outstanding {
            Some(probe) => if probe.nonce == nonce {
                Some(since(now, probe.sent_at))
            } else {
                None
            },
            None => None,
        }
    }

    pub fn answered_after(&self, nonce: u64, now: u64) -> (r: Option<u64>)
        ensures
            r == self.answer(nonce, now),
            match self.outstanding {
                Some(probe) => if probe.nonce != nonce {
                    r is None
                } else if now >= probe.sent_at {
                    r is Some && probe.sent_at + r->0 == now
                } else {
                    r == Some(0u64)
                },
                None => r is None,
            },
    {
        match self.outstanding {
            Some(probe) => if probe.nonce == nonce {
                Some(duration_since(now, probe.sent_at))
            } else {
                None
            },
            None => None,
        }
    }

    /// The statistics once an answer has come.
    pub open spec fn after_echo(self, nonce: u64, now: u64, averages: Averages) -> TupleStats {
        match self.answer(nonce, now) {
            Some(rtt) => (TupleStats { outstanding: None, ..self }).recorded(Some(rtt), averages),
            None => self,
        }
    }

    /// Takes in an answer. One to another probe than the outstanding one is
    /// no sample.
    pub fn echoed(&mut self, nonce: u64, now: u64, averages: Averages)
        ensures
            *final(self) == old(self).after_echo(nonce, now, averages),
            match old(self).outstanding {
                Some(probe) if probe.nonce == nonce => {
                    &&& final(self).outstanding is None
                    &&& old(self).rtt is None && now >= probe.sent_at ==> final(self).rtt is Some
                        && probe.sent_at + final(self).rtt->0 == now
                },
                _ => *final(self) == *old(self),
            },
    {
        if let Some(rtt) = self.answered_after(nonce, now) {
            self.outstanding = None;
            self.record(Some(rtt), averages);
        }
    }

    /// Whether the outstanding probe is to be given up.
    pub fn timed_out(&self, now: u64) -> (r: bool)
        ensures
            r == self.overdue(now),
    {
        match self.outstanding {
            Some(probe) => duration_since(now, probe.sent_at) >= PROBE_TIMEOUT,
            None => false,
        }
    }

    /// The statistics once an overdue probe has been given up.
    pub open spec fn given_up(self, now: u64, averages: Averages) -> TupleStats {
        if self.overdue(now) {
            (TupleStats { outstanding: None, ..self }).recorded(None, averages)
        } else {
            self
        }
    }

    /// Gives the outstanding probe up if its answer is overdue, which is a
    /// loss.
    pub fn give_up(&mut self, now: u64, averages: Averages)
        ensures
            *final(self) == old(self).given_up(now, averages),
    {
        if self.timed_out(now) {
            self.outstanding = None;
            self.record(None, averages);
        }
    }

    /// The probe that is to be sent under that nonce, where one is due.
    pub open spec fn due_probe(self, nonce: u64, now: u64, epoch: u64) -> Option<ProbeEcho> {
        if self.probe_due(now) {
            Some(ProbeEcho { nonce, timestamp_micros: (since(now, epoch) / 1000) as u64 })
        } else {
            None
        }
    }

    /// The probe that is to be sent under that nonce, where one is due.
    pub fn probe_with(&self, nonce: u64, now: u64, epoch: u64) -> (r: Option<ProbeEcho>)
        ensures
            r == self.due_probe(nonce, now, epoch),
    {
        if self.outstanding.is_none() && now >= self.next_probe_at {
            Some(ProbeEcho { nonce, timestamp_micros: duration_since(now, epoch) / 1000 })
        } else {
            None
        }
    }

    /// The statistics once a probe has been sent, or could not be.
    pub open spec fn after_sending(
        self,
        nonce: u64,
        sent: bool,
        now: u64,
        averages: Averages,
    ) -> TupleStats {
        if sent {
            TupleStats { outstanding: Some(Outstanding { nonce, sent_at: now }), ..self }
        } else {
            self.recorded(None, averages)
        }
    }

    /// Takes in whether a probe could be sent; one that could not is a loss.
    /// What is returned is the mean interval to the next probe.
    pub fn probe_sent(
        &mut self,
        nonce: u64,
        sent: bool,
        now: u64,
        mean: u64,
        averages: Averages,
    ) -> (r: u64)
        requires
            mean <= MAX_MEAN_INTERVAL,
        ensures
            *final(self) == old(self).after_sending(nonce, sent, now, averages),
            r == cadence(final(self).is_dead(), mean as int),
    {
        if sent {
            self.outstanding = Some(Outstanding { nonce, sent_at: now });
        } else {
            self.record(None, averages);
        }
        if self.dead() {
            mean * 3
        } else {
            mean
        }
    }

    /// Fixes when the next probe is sent; `drawn` is the interval that was
    /// drawn for the mean, which is kept within bounds.
    pub fn schedule(&mut self, now: u64, mean: u64, drawn: u64)
        requires
            mean <= 3 * MAX_MEAN_INTERVAL,
            now + 4 * mean <= u64::MAX,
        ensures
            *final(self) == (TupleStats {
                next_probe_at: (now + clamped(drawn as int, mean as int)) as u64,
                ..*old(self)
            }),
            now + mean / 4 <= final(self).next_probe_at <= now + 4 * mean,
    {
        let interval: u64 = probe_interval(mean, drawn);
        self.next_probe_at = now + interval;
    }

    /// When the tuple next wants attention.
    pub open spec fn wakeup(self, now: u64) -> int {
        if self.outstanding is Some {
            now + PROBE_POLL_TICK
        } else {
            self.next_probe_at as int
        }
    }

    pub fn next_wakeup(&self, now: u64) -> (r: u64)
        requires
            now + PROBE_POLL_TICK <= u64::MAX,
        ensures
            r == self.wakeup(now),
    {
        if self.outstanding.is_some() {
            now + PROBE_POLL_TICK
        } else {
            self.next_probe_at
        }
    }

    pub open spec fn reported(self, local_addr: SocketAddr) -> TupleReport {
        TupleReport { local_addr, rtt: self.rtt, loss: self.loss, alive: self.is_alive() }
    }

    pub fn report(&self, local_addr: SocketAddr) -> (r: TupleReport)
        ensures
            r == self.reported(local_addr),
    {
        TupleReport { local_addr, rtt: self.rtt, loss: self.loss, alive: self.alive() }
    }
}

/// The mean interval between probes of a tuple.
pub open spec fn cadence(dead: bool, mean: int) -> int {
    if dead {
        mean * DEAD_CADENCE_FACTOR
    } else {
        mean
    }
}

/// An interval that was drawn, within a factor of four of the mean.
pub open spec fn clamped(drawn: int, mean: int) -> int {
    if drawn < mean / 4 {
        mean / 4
    } else if drawn > mean * 4 {
        mean * 4
    } else {
        drawn
    }
}

/// The interval to the next probe: what was drawn, within a factor of four of
/// the mean.
pub fn probe_interval(mean: u64, drawn: u64) -> (r: u64)
    requires
        mean * 4 <= u64::MAX,
    ensures
        r == clamped(drawn as int, mean as int),
        mean / 4 <= r <= mean * 4,
{
    if drawn < mean / 4 {
        mean / 4
    } else if drawn > mean * 4 {
        mean * 4
    } else {
        drawn
    }
}

/// Statistics after so many losses in a row.
pub open spec fn after_losses(stats: TupleStats, averages: Seq<Averages>) -> TupleStats
    decreases averages.len(),
{
    if averages.len() == 0 {
        stats
    } else {
        after_losses(stats, averages.drop_last()).recorded(None, averages.last())
    }
}

/// After an answered probe, it takes exactly three losses in a row to retire
/// a tuple, and a retired tuple has no score.
pub proof fn lemma_three_losses_retire_a_tuple(
    stats: TupleStats,
    rtt: u64,
    answered: Averages,
    losses: Seq<Averages>,
)
    ensures
        ({
            let after = after_losses(stats.recorded(Some(rtt), answered), losses);
            &&& losses.len() < DEAD_CONSECUTIVE_LOSSES ==> !after.is_dead()
            &&& losses.len() >= DEAD_CONSECUTIVE_LOSSES ==> after.is_dead() && after.scored()
                is None
            &&& after.consecutive_losses == if losses.len() < u32::MAX {
                losses.len() as int
            } else {
                u32::MAX as int
            }
        }),
    decreases losses.len(),
{
    if losses.len() > 0 {
        lemma_three_losses_retire_a_tuple(stats, rtt, answered, losses.drop_last());
    }
}

/// An answered probe makes a retired tuple live again, given the samples.
pub proof fn lemma_an_answer_revives_a_tuple(stats: TupleStats, rtt: u64, averages: Averages)
    ensures
        !stats.recorded(Some(rtt), averages).is_dead(),
        stats.recorded(Some(rtt), averages).is_alive() <==> stats.samples + 1 >= MIN_SAMPLES,
{
}

/// The round trip that an answer stands for is the time between sending the
/// probe and the answer: nothing where the clock went back. An answer to any
/// other probe stands for none.
pub proof fn lemma_a_round_trip_is_the_time_between(
    stats: TupleStats,
    nonce: u64,
    sent_at: u64,
    now: u64,
    other: u64,
)
    requires
        stats.outstanding == Some(Outstanding { nonce, sent_at }),
    ensures
        stats.answer(nonce, now) is Some,
        now >= sent_at ==> sent_at + stats.answer(nonce, now)->0 == now,
        now < sent_at ==> stats.answer(nonce, now)->0 == 0,
        other != nonce ==> stats.answer(other, now) is None,
        (TupleStats { outstanding: None, ..stats }).answer(nonce, now) is None,
{
}

/// A probe that is sent and answered leaves none outstanding, ends a run of
/// losses and counts as one sample. On a tuple without a round trip, the time
/// between sending and answer is the round trip that is reported.
pub proof fn lemma_the_first_answer_is_the_round_trip(
    stats: TupleStats,
    nonce: u64,
    sent: u64,
    answered: u64,
    first: Averages,
    second: Averages,
    local_addr: SocketAddr,
)
    requires
        sent <= answered,
        stats.samples < u32::MAX,
    ensures
        ({
            let waiting = stats.after_sending(nonce, true, sent, first);
            let after = waiting.after_echo(nonce, answered, second);
            let report = after.reported(local_addr);
            &&& waiting.samples == stats.samples
            &&& waiting.rtt == stats.rtt
            &&& after.outstanding is None
            &&& after.consecutive_losses == 0
            &&& after.samples == stats.samples + 1
            &&& after.next_probe_at == stats.next_probe_at
            &&& stats.rtt is None ==> report.rtt is Some && sent + report.rtt->0 == answered
            &&& stats.rtt is Some ==> report.rtt == Some(second.rtt)
            &&& report.local_addr == local_addr
            &&& report.loss == after.loss
            &&& report.alive <==> after.samples >= 3
        }),
{
}

/// Every sample counts once. The first loss ratio is nothing or one, and each
/// after it is the average that comes with the sample; a round trip goes in as
/// it is where there was none, and as the average where there was. A loss
/// leaves the round trip alone and lengthens the run of losses by one.
pub proof fn lemma_a_sample_counts_once(stats: TupleStats, sample: Option<u64>, averages: Averages)
    requires
        stats.samples < u32::MAX,
        stats.consecutive_losses < u32::MAX,
    ensures
        ({
            let after = stats.recorded(sample, averages);
            &&& after.samples == stats.samples + 1
            &&& stats.loss is Some ==> after.loss == Some(averages.loss)
            &&& stats.loss is None && sample is Some ==> after.loss == Some(NO_LOSS)
            &&& stats.loss is None && sample is None ==> after.loss == Some(TOTAL_LOSS)
            &&& sample is Some ==> after.consecutive_losses == 0 && after.rtt is Some
            &&& sample is Some && stats.rtt is None ==> after.rtt == sample
            &&& sample is Some && stats.rtt is Some ==> after.rtt == Some(averages.rtt)
            &&& sample is None ==> after.rtt == stats.rtt && after.consecutive_losses
                == stats.consecutive_losses + 1
            &&& after.outstanding == stats.outstanding
            &&& after.next_probe_at == stats.next_probe_at
        }),
{
}

/// The counts of samples and of losses stop at their limit instead of
/// starting over.
pub proof fn lemma_counts_stop_at_the_limit(
    stats: TupleStats,
    sample: Option<u64>,
    averages: Averages,
)
    ensures
        stats.samples <= stats.recorded(sample, averages).samples,
        sample is None ==> stats.consecutive_losses <= stats.recorded(
            sample,
            averages,
        ).consecutive_losses,
        stats.is_dead() && sample is None ==> stats.recorded(sample, averages).is_dead(),
{
}

/// A probe is given up once its answer has been awaited for the timeout, and
/// no sooner; that is one loss. Until then nothing changes.
pub proof fn lemma_a_probe_is_given_up_at_the_timeout(
    stats: TupleStats,
    nonce: u64,
    sent_at: u64,
    now: u64,
    averages: Averages,
)
    requires
        stats.outstanding == Some(Outstanding { nonce, sent_at }),
        stats.consecutive_losses < u32::MAX,
    ensures
        now >= sent_at + 1_500_000_000 ==> {
            let after = stats.given_up(now, averages);
            &&& after.outstanding is None
            &&& after.consecutive_losses == stats.consecutive_losses + 1
            &&& after.rtt == stats.rtt
            &&& stats.loss is None ==> after.loss == Some(TOTAL_LOSS)
            &&& after.next_probe_at == stats.next_probe_at
        },
        now < sent_at + 1_500_000_000 ==> stats.given_up(now, averages) == stats,
        stats.overdue(now) <==> now >= sent_at + 1_500_000_000,
        (TupleStats { outstanding: None, ..stats }).given_up(now, averages) == (TupleStats {
            outstanding: None,
            ..stats
        }),
{
}

/// A probe is due where none is outstanding and its time has come. It carries
/// its own nonce and the whole microseconds since the epoch, none where the
/// epoch is still to come.
pub proof fn lemma_a_due_probe_says_when_it_goes(
    stats: TupleStats,
    nonce: u64,
    now: u64,
    epoch: u64,
)
    ensures
        stats.due_probe(nonce, now, epoch) is Some <==> stats.outstanding is None && now
            >= stats.next_probe_at,
        stats.due_probe(nonce, now, epoch) matches Some(probe) ==> {
            &&& probe.nonce == nonce
            &&& now >= epoch ==> epoch + probe.timestamp_micros * 1000 <= now < epoch + (
            probe.timestamp_micros + 1) * 1000
            &&& now < epoch ==> probe.timestamp_micros == 0
        },
{
}

/// Sending a probe makes it the one that is outstanding, sent at that time; one
/// that could not be sent is a loss at once and leaves none outstanding that
/// was not.
pub proof fn lemma_a_sent_probe_is_outstanding(
    stats: TupleStats,
    nonce: u64,
    now: u64,
    averages: Averages,
)
    requires
        stats.consecutive_losses < u32::MAX,
    ensures
        stats.after_sending(nonce, true, now, averages).outstanding matches Some(probe)
            && probe.nonce == nonce && probe.sent_at == now,
        stats.after_sending(nonce, true, now, averages).consecutive_losses
            == stats.consecutive_losses,
        stats.after_sending(nonce, true, now, averages).loss == stats.loss,
        stats.after_sending(nonce, false, now, averages).outstanding == stats.outstanding,
        stats.after_sending(nonce, false, now, averages).consecutive_losses
            == stats.consecutive_losses + 1,
        stats.after_sending(nonce, false, now, averages).rtt == stats.rtt,
{
}

/// A tuple has a score exactly where it has three samples, a round trip, and
/// has not lost the last three probes. The score is its round trip and its
/// loss ratio, which is nothing as long as none was reckoned.
pub proof fn lemma_a_score_is_what_was_measured(stats: TupleStats)
    ensures
        stats.scored() is Some <==> stats.samples >= 3 && stats.rtt is Some
            && stats.consecutive_losses < 3,
        stats.scored() matches Some(score) ==> stats.rtt == Some(score.rtt) && match stats.loss {
            Some(loss) => score.loss == loss,
            None => score.loss == NO_LOSS,
        },
        stats.is_alive() <==> stats.scored() is Some,
        stats.is_dead() <==> stats.consecutive_losses >= 3,
{
}

/// A tuple that has not been probed has no score and is not dead, and is
/// probed when its first probe has waited long enough.
pub proof fn lemma_an_unmeasured_tuple_waits_to_be_probed(
    next_probe_at: u64,
    nonce: u64,
    now: u64,
    epoch: u64,
)
    ensures
        unmeasured(next_probe_at).scored() is None,
        unmeasured(next_probe_at).rtt is None,
        unmeasured(next_probe_at).loss is None,
        unmeasured(next_probe_at).samples == 0,
        !unmeasured(next_probe_at).is_dead(),
        unmeasured(next_probe_at).due_probe(nonce, now, epoch) is Some <==> now >= next_probe_at,
        unmeasured(next_probe_at).wakeup(now) == next_probe_at,
{
}

/// While an answer is awaited, a tuple wants attention every tick; else when
/// its next probe is due.
pub proof fn lemma_a_tuple_wakes_for_its_probe(stats: TupleStats, now: u64)
    ensures
        stats.outstanding is Some ==> stats.wakeup(now) == now + 5_000_000,
        stats.outstanding is None ==> stats.wakeup(now) == stats.next_probe_at,
{
}

/// A dead tuple is probed a third as often as one that lives.
pub proof fn lemma_the_dead_are_probed_less_often(mean: int)
    ensures
        cadence(false, mean) == mean,
        cadence(true, mean) == mean + mean + mean,
{
}

/// An interval that was drawn is taken as it is within a factor of four of the
/// mean; beyond that, the nearest bound is.
pub proof fn lemma_intervals_stay_near_the_mean(drawn: int, mean: int)
    requires
        0 <= mean,
    ensures
        mean / 4 <= clamped(drawn, mean) <= mean * 4,
        mean / 4 <= drawn <= mean * 4 ==> clamped(drawn, mean) == drawn,
        drawn <= mean / 4 ==> clamped(drawn, mean) == mean / 4,
        drawn >= mean * 4 ==> clamped(drawn, mean) == mean * 4,
{
}

} // verus!
