//! Exploration of the paths to a remote: candidates are probed alongside the
//! path in use, the best one is handed out, the worst one is replaced.
//!
//! Costs are ratios of floating-point numbers that the caller computes from
//! the scores; here each stands as its bit pattern, which orders
//! non-negative numbers as their values do.

use vstd::prelude::*;

pub mod path_score;
pub mod probe_round;
pub mod tuple_stats;

use crate::addr::SocketAddr;
use crate::explorer::path_score::{verdict_on, winning_rule, MigrationVerdict, PathScore};
use crate::explorer::tuple_stats::{unmeasured, TupleReport, TupleStats, PROBE_POLL_TICK};

verus! {

/// The bit pattern of an infinite cost, which is that of a candidate without
/// a score.
pub const INFINITE_COST: u64 = 0x7FF0_0000_0000_0000;

/// How long a refill that failed is put off.
pub const REFILL_DEFERRAL: u64 = 5_000_000_000;

/// How paths are explored.
#[derive(Clone, Copy, Debug, PartialEq, Eq, Structural)]
pub struct ExplorerConfig {
    pub enabled: bool,
    /// How many candidates are kept.
    pub candidates: usize,
    /// The mean time between two probes of one path.
    pub probe_mean_interval: u64,
    /// The time after which the worst candidate is replaced.
    pub rotation_period: u64,
}

impl Default for ExplorerConfig {
    fn default() -> (r: Self)
        ensures
            r == (ExplorerConfig {
                enabled: true,
                candidates: 8,
                probe_mean_interval: 10_000_000_000,
                rotation_period: 120_000_000_000,
            }),
    {
        ExplorerConfig {
            enabled: true,
            candidates: 8,
            probe_mean_interval: 10_000_000_000,
            rotation_period: 120_000_000_000,
        }
    }
}

/// What is known of the paths.
#[derive(Debug)]
pub struct ExplorerReport {
    pub candidates: Vec<TupleReport>,
    pub active: Option<TupleReport>,
}

impl Default for ExplorerReport {
    fn default() -> (r: Self)
        ensures
            r.candidates@ == Seq::<TupleReport>::empty(),
            r.active is None,
    {
        ExplorerReport { candidates: Vec::new(), active: None }
    }
}

/// A path that is kept ready; `C` is what it is probed through.
#[derive(Debug)]
pub struct Candidate<C> {
    pub io: C,
    pub local_addr: SocketAddr,
    pub stats: TupleStats,
}

/// The path in use; `A` is what it is probed through.
#[derive(Debug)]
pub struct ActiveTuple<A> {
    pub io: A,
    pub local_addr: SocketAddr,
    pub stats: TupleStats,
}

/// A candidate that is handed out.
#[derive(Debug)]
pub struct BestCandidate<C> {
    pub io: C,
    pub local_addr: SocketAddr,
    pub score: PathScore,
}

#[derive(Debug)]
pub struct Explorer<C, A> {
    pub config: ExplorerConfig,
    pub candidates: Vec<Candidate<C>>,
    pub active: Option<ActiveTuple<A>>,
    pub next_rotation_at: u64,
    pub refill_after: u64,
    pub epoch: u64,
}

/// The place of the cheapest scored candidate; the first of equal ones.
pub open spec fn is_best<C>(candidates: Seq<Candidate<C>>, costs: Seq<u64>, i: int) -> bool {
    &&& 0 <= i < candidates.len()
    &&& candidates[i].stats.scored() is Some
    &&& forall|j: int|
        0 <= j < candidates.len() && (#[trigger] candidates[j]).stats.scored() is Some ==> costs[i]
            < costs[j] || (costs[i] == costs[j] && i <= j)
}

/// Whether no candidate has a score.
pub open spec fn none_scored<C>(candidates: Seq<Candidate<C>>) -> bool {
    forall|j: int|
        0 <= j < candidates.len() ==> (#[trigger] candidates[j]).stats.scored() is None
}

/// What a candidate costs for the purpose of replacing it.
pub open spec fn rotation_cost<C>(candidate: Candidate<C>, cost: u64) -> u64 {
    if candidate.stats.scored() is Some {
        cost
    } else {
        INFINITE_COST
    }
}

/// The place of the dearest candidate that has been measured; the last of
/// equal ones.
pub open spec fn is_worst<C>(candidates: Seq<Candidate<C>>, costs: Seq<u64>, i: int) -> bool {
    &&& 0 <= i < candidates.len()
    &&& candidates[i].stats.samples > 0
    &&& forall|j: int|
        0 <= j < candidates.len() && (#[trigger] candidates[j]).stats.samples > 0
            ==> rotation_cost(candidates[j], costs[j]) < rotation_cost(candidates[i], costs[i]) || (
        rotation_cost(candidates[j], costs[j]) == rotation_cost(candidates[i], costs[i]) && j <= i)
}

/// Whether no candidate has been measured.
pub open spec fn none_measured<C>(candidates: Seq<Candidate<C>>) -> bool {
    forall|j: int| 0 <= j < candidates.len() ==> (#[trigger] candidates[j]).stats.samples == 0
}

/// The candidates once one has been taken out; the last one takes its place.
pub open spec fn taken_out<C>(candidates: Seq<Candidate<C>>, i: int) -> Seq<Candidate<C>> {
    candidates.update(i, candidates.last()).drop_last()
}

/// At most one candidate is the best, and at most one is the worst.
pub proof fn lemma_best_and_worst_are_unique<C>(
    candidates: Seq<Candidate<C>>,
    costs: Seq<u64>,
    i: int,
    j: int,
)
    ensures
        is_best(candidates, costs, i) && is_best(candidates, costs, j) ==> i == j,
        is_worst(candidates, costs, i) && is_worst(candidates, costs, j) ==> i == j,
{
}

/// The explorer before and after its best candidate was handed out, if there
/// is one.
pub open spec fn best_taken<C, A>(
    before: Explorer<C, A>,
    after: Explorer<C, A>,
    costs: Seq<u64>,
    taken: Option<BestCandidate<C>>,
) -> bool {
    &&& after == (Explorer { candidates: after.candidates, ..before })
    &&& match taken {
        Some(best) => exists|i: int|
            is_best(before.candidates@, costs, i) && best.io == before.candidates@[i].io
                && best.local_addr == before.candidates@[i].local_addr && Some(best.score)
                == before.candidates@[i].stats.scored() && after.candidates@ == #[trigger] taken_out(
                before.candidates@,
                i,
            ),
        None => none_scored(before.candidates@) && after.candidates@ == before.candidates@,
    }
}

/// An explorer that has found nothing yet.
pub open spec fn is_fresh<C, A>(
    explorer: Explorer<C, A>,
    config: ExplorerConfig,
    now: u64,
) -> bool {
    &&& explorer.config == config
    &&& explorer.candidates@ == Seq::<Candidate<C>>::empty()
    &&& explorer.active is None
    &&& explorer.next_rotation_at == now + config.rotation_period
    &&& explorer.refill_after == now
    &&& explorer.epoch == now
}

/// The score of the best candidate.
pub open spec fn best_scored<C>(
    candidates: Seq<Candidate<C>>,
    costs: Seq<u64>,
) -> Option<PathScore> {
    if none_scored(candidates) {
        None
    } else {
        candidates[choose|i: int| is_best(candidates, costs, i)].stats.scored()
    }
}

pub open spec fn least(a: Option<int>, b: Option<int>) -> Option<int> {
    match (a, b) {
        (Some(x), Some(y)) => Some(
            if y < x {
                y
            } else {
                x
            },
        ),
        (Some(x), None) => Some(x),
        (None, b) => b,
    }
}

/// The earliest time at which one of the candidates wants attention.
pub open spec fn candidates_wakeup<C>(candidates: Seq<Candidate<C>>, now: u64) -> Option<int>
    decreases candidates.len(),
{
    if candidates.len() == 0 {
        None
    } else {
        least(
            candidates_wakeup(candidates.drop_last(), now),
            Some(candidates.last().stats.wakeup(now)),
        )
    }
}

fn earlier(a: Option<u64>, b: u64) -> (r: u64)
    ensures
        Some(r as int) == least(
            match a {
                Some(x) => Some(x as int),
                None => None,
            },
            Some(b as int),
        ),
{
    match a {
        Some(x) => if b < x {
            b
        } else {
            x
        },
        None => b,
    }
}

impl<C, A> Explorer<C, A> {
    pub open spec fn spec_deficit(&self) -> nat {
        if self.config.candidates > self.candidates@.len() {
            (self.config.candidates - self.candidates@.len()) as nat
        } else {
            0
        }
    }

    /// The score of the path in use.
    pub open spec fn active_scored(&self) -> Option<PathScore> {
        match self.active {
            Some(active) => active.stats.scored(),
            None => None,
        }
    }

    /// When the explorer next wants attention.
    pub open spec fn wakeup(&self, now: u64) -> int {
        least(
            least(
                least(
                    candidates_wakeup(self.candidates@, now),
                    match self.active {
                        Some(active) => Some(active.stats.wakeup(now)),
                        None => None,
                    },
                ),
                if self.spec_deficit() > 0 {
                    Some(self.refill_after as int)
                } else {
                    None
                },
            ),
            Some(self.next_rotation_at as int),
        )->0
    }

    pub fn new(config: ExplorerConfig, now: u64) -> (r: Self)
        requires
            now + config.rotation_period <= u64::MAX,
        ensures
            is_fresh(r, config, now),
    {
        Explorer {
            config,
            candidates: Vec::new(),
            active: None,
            next_rotation_at: now + config.rotation_period,
            refill_after: now,
            epoch: now,
        }
    }

    /// How many candidates are missing.
    pub fn deficit(&self) -> (r: usize)
        ensures
            r == self.spec_deficit(),
    {
        if self.config.candidates > self.candidates.len() {
            self.config.candidates - self.candidates.len()
        } else {
            0
        }
    }

    pub fn wants_refill(&self, now: u64) -> (r: bool)
        ensures
            r == (self.spec_deficit() > 0 && now >= self.refill_after),
    {
        self.deficit() > 0 && now >= self.refill_after
    }

    pub fn defer_refill(&mut self, until: u64)
        ensures
            *final(self) == (Explorer { refill_after: until, ..*old(self) }),
    {
        self.refill_after = until;
    }

    /// Adds a candidate; `stagger` is how long its first probe waits.
    pub fn add_candidate(&mut self, io: C, local_addr: SocketAddr, now: u64, stagger: u64)
        requires
            now + stagger <= u64::MAX,
        ensures
            final(self).candidates@.len() == old(self).candidates@.len() + 1,
            final(self).candidates@.drop_last() == old(self).candidates@,
            final(self).candidates@.last().io == io,
            final(self).candidates@.last().local_addr == local_addr,
            final(self).candidates@.last().stats == unmeasured((now + stagger) as u64),
            *final(self) == (Explorer { candidates: final(self).candidates, ..*old(self) }),
    {
        let ghost before = self.candidates@;
        self.candidates.push(Candidate { io, local_addr, stats: TupleStats::new(now, stagger) });
        proof {
            assert(self.candidates@.drop_last() =~= before);
        }
    }

    /// A candidate has been made, or could not be; then making more is put
    /// off. The result says whether another one is to be made at once.
    pub fn minted(&mut self, minted: Option<(C, SocketAddr)>, now: u64, stagger: u64) -> (r: bool)
        requires
            now + stagger <= u64::MAX,
            now + REFILL_DEFERRAL <= u64::MAX,
        ensures
            match minted {
                Some((io, local_addr)) => {
                    &&& final(self).candidates@.len() == old(self).candidates@.len() + 1
                    &&& final(self).candidates@.drop_last() == old(self).candidates@
                    &&& final(self).candidates@.last().io == io
                    &&& final(self).candidates@.last().local_addr == local_addr
                    &&& final(self).candidates@.last().stats == unmeasured((now + stagger) as u64)
                    &&& *final(self) == (Explorer {
                        candidates: final(self).candidates,
                        ..*old(self)
                    })
                    &&& r == (final(self).spec_deficit() > 0)
                },
                None => *final(self) == (Explorer {
                    refill_after: (now + REFILL_DEFERRAL) as u64,
                    ..*old(self)
                }) && !r,
            },
    {
        match minted {
            Some((io, local_addr)) => {
                self.add_candidate(io, local_addr, now, stagger);
                self.deficit() > 0
            },
            None => {
                self.defer_refill(now + REFILL_DEFERRAL);
                false
            },
        }
    }

    /// Sets the path in use, whose measurements start afresh.
    pub fn set_active(&mut self, io: Option<A>, local_addr: SocketAddr, now: u64, stagger: u64)
        requires
            now + stagger <= u64::MAX,
        ensures
            match io {
                Some(io) => final(self).active == Some(
                    ActiveTuple {
                        io,
                        local_addr,
                        stats: unmeasured((now + stagger) as u64),
                    },
                ),
                None => final(self).active is None,
            },
            *final(self) == (Explorer { active: final(self).active, ..*old(self) }),
    {
        self.active = match io {
            Some(io) => Some(ActiveTuple { io, local_addr, stats: TupleStats::new(now, stagger) }),
            None => None,
        };
    }

    /// The score of each candidate, in order.
    pub fn scores(&self) -> (r: Vec<Option<PathScore>>)
        ensures
            r@.len() == self.candidates@.len(),
            forall|i: int|
                0 <= i < r@.len() ==> #[trigger] r@[i] == self.candidates@[i].stats.scored(),
    {
        let mut r: Vec<Option<PathScore>> = Vec::new();
        let mut i: usize = 0;
        while i < self.candidates.len()
            invariant
                i <= self.candidates@.len(),
                r@.len() == i,
                forall|j: int| 0 <= j < i ==> #[trigger] r@[j] == self.candidates@[j].stats.scored(),
            decreases self.candidates@.len() - i,
        {
            r.push(self.candidates[i].stats.score());
            i += 1;
        }
        r
    }

    /// The score of the path in use.
    pub fn active_score(&self) -> (r: Option<PathScore>)
        ensures
            r == self.active_scored(),
    {
        match &self.active {
            Some(active) => active.stats.score(),
            None => None,
        }
    }

    /// Where the period is over, retires the worst candidate, provided that
    /// none is missing and one has been measured.
    pub fn rotate(&mut self, now: u64, costs: &Vec<u64>) -> (r: Option<Candidate<C>>)
        requires
            costs@.len() == old(self).candidates@.len(),
            now + old(self).config.rotation_period <= u64::MAX,
        ensures
            final(self).config == old(self).config,
            final(self).active == old(self).active,
            final(self).refill_after == old(self).refill_after,
            final(self).epoch == old(self).epoch,
            final(self).next_rotation_at == if now >= old(self).next_rotation_at {
                (now + old(self).config.rotation_period) as u64
            } else {
                old(self).next_rotation_at
            },
            if now >= old(self).next_rotation_at && old(self).spec_deficit() == 0 && !none_measured(
                old(self).candidates@,
            ) {
                exists|i: int|
                    is_worst(old(self).candidates@, costs@, i) && r == Some(
                        old(self).candidates@[i],
                    ) && final(self).candidates@ == #[trigger] taken_out(old(self).candidates@, i)
            } else {
                r is None && final(self).candidates@ == old(self).candidates@
            },
    {
        if now < self.next_rotation_at {
            return None;
        }
        self.next_rotation_at = now + self.config.rotation_period;
        self.rotate_worst(costs)
    }

    fn rotate_worst(&mut self, costs: &Vec<u64>) -> (r: Option<Candidate<C>>)
        requires
            costs@.len() == old(self).candidates@.len(),
        ensures
            *final(self) == (Explorer { candidates: final(self).candidates, ..*old(self) }),
            if old(self).spec_deficit() == 0 && !none_measured(old(self).candidates@) {
                exists|i: int|
                    is_worst(old(self).candidates@, costs@, i) && r == Some(
                        old(self).candidates@[i],
                    ) && final(self).candidates@ == #[trigger] taken_out(old(self).candidates@, i)
            } else {
                r is None && final(self).candidates@ == old(self).candidates@
            },
    {
        if self.deficit() > 0 {
            return None;
        }
        let mut worst: Option<usize> = None;
        let mut worst_cost: u64 = 0;
        let mut i: usize = 0;
        while i < self.candidates.len()
            invariant
                i <= self.candidates@.len(),
                costs@.len() == self.candidates@.len(),
                *self == *old(self),
                match worst {
                    Some(w) => w < i && self.candidates@[w as int].stats.samples > 0 && worst_cost
                        == rotation_cost(self.candidates@[w as int], costs@[w as int]) && forall|
                        j: int,
                    |
                        0 <= j < i && (#[trigger] self.candidates@[j]).stats.samples > 0
                            ==> rotation_cost(self.candidates@[j], costs@[j]) < worst_cost || (
                        rotation_cost(self.candidates@[j], costs@[j]) == worst_cost && j <= w),
                    None => forall|j: int|
                        0 <= j < i ==> (#[trigger] self.candidates@[j]).stats.samples == 0,
                },
            decreases self.candidates@.len() - i,
        {
            if self.candidates[i].stats.samples > 0 {
                let cost: u64 = match self.candidates[i].stats.score() {
                    Some(_) => costs[i],
                    None => INFINITE_COST,
                };
                if worst.is_none() || cost >= worst_cost {
                    worst = Some(i);
                    worst_cost = cost;
                }
            }
            i += 1;
        }
        match worst {
            Some(index) => {
                let ghost before = self.candidates@;
                let gone = self.candidates.swap_remove(index);
                proof {
                    assert(self.candidates@ =~= taken_out(before, index as int));
                    assert(is_worst(before, costs@, index as int));
                }
                Some(gone)
            },
            None => None,
        }
    }

    /// The place of the best candidate.
    pub fn best_index(&self, costs: &Vec<u64>) -> (r: Option<usize>)
        requires
            costs@.len() == self.candidates@.len(),
        ensures
            match r {
                Some(i) => is_best(self.candidates@, costs@, i as int) && !none_scored(
                    self.candidates@,
                ),
                None => none_scored(self.candidates@),
            },
    {
        let mut best: Option<usize> = None;
        let mut i: usize = 0;
        while i < self.candidates.len()
            invariant
                i <= self.candidates@.len(),
                costs@.len() == self.candidates@.len(),
                match best {
                    Some(b) => b < i && self.candidates@[b as int].stats.scored() is Some
                        && forall|j: int|
                        0 <= j < i && (#[trigger] self.candidates@[j]).stats.scored() is Some
                            ==> costs@[b as int] < costs@[j] || (costs@[b as int] == costs@[j] && b
                            <= j),
                    None => forall|j: int|
                        0 <= j < i ==> (#[trigger] self.candidates@[j]).stats.scored() is None,
                },
            decreases self.candidates@.len() - i,
        {
            if self.candidates[i].stats.score().is_some() {
                let better = match best {
                    Some(b) => costs[i] < costs[b],
                    None => true,
                };
                if better {
                    best = Some(i);
                }
            }
            i += 1;
        }
        best
    }

    pub fn best_score(&self, costs: &Vec<u64>) -> (r: Option<PathScore>)
        requires
            costs@.len() == self.candidates@.len(),
        ensures
            r == best_scored(self.candidates@, costs@),
    {
        match self.best_index(costs) {
            Some(index) => {
                proof {
                    let i = choose|i: int| is_best(self.candidates@, costs@, i);
                    lemma_best_and_worst_are_unique(self.candidates@, costs@, i, index as int);
                }
                self.candidates[index].stats.score()
            },
            None => None,
        }
    }

    /// Hands the best candidate out; one without a score is not.
    pub fn take_best(&mut self, costs: &Vec<u64>) -> (r: Option<BestCandidate<C>>)
        requires
            costs@.len() == old(self).candidates@.len(),
        ensures
            best_taken(*old(self), *final(self), costs@, r),
            r is Some <==> !none_scored(old(self).candidates@),
            final(self).spec_deficit() >= old(self).spec_deficit(),
    {
        let index: usize = match self.best_index(costs) {
            Some(index) => index,
            None => {
                return None;
            },
        };
        let ghost before = self.candidates@;
        let candidate = self.candidates.swap_remove(index);
        proof {
            assert(self.candidates@ =~= taken_out(before, index as int));
            assert(is_best(before, costs@, index as int));
        }
        match candidate.stats.score() {
            Some(score) => Some(
                BestCandidate { io: candidate.io, local_addr: candidate.local_addr, score },
            ),
            None => {
                proof {
                    assert(false);
                }
                None
            },
        }
    }

    /// Whether the best candidate is worth moving to; `rtt_wins` and
    /// `loss_wins` say which margins it clears over the path in use.
    pub fn reoptimize_verdict(
        &self,
        costs: &Vec<u64>,
        rtt_wins: bool,
        loss_wins: bool,
    ) -> (r: MigrationVerdict)
        requires
            costs@.len() == self.candidates@.len(),
        ensures
            r == verdict_on(
                self.active_scored(),
                best_scored(self.candidates@, costs@),
                winning_rule(rtt_wins, loss_wins),
            ),
    {
        MigrationVerdict::decide(self.active_score(), self.best_score(costs), rtt_wins, loss_wins)
    }

    /// Whether a migration is wanted.
    pub fn should_reoptimize(&self, costs: &Vec<u64>, rtt_wins: bool, loss_wins: bool) -> (r: bool)
        requires
            costs@.len() == self.candidates@.len(),
        ensures
            r == (self.active_scored() is Some && best_scored(self.candidates@, costs@) is Some && (
            rtt_wins || loss_wins)),
    {
        self.reoptimize_verdict(costs, rtt_wins, loss_wins).wants_migration()
    }

    /// When the explorer next wants attention.
    pub fn next_wakeup(&self, now: u64) -> (r: u64)
        requires
            now + PROBE_POLL_TICK <= u64::MAX,
        ensures
            r == self.wakeup(now),
    {
        let mut earliest: Option<u64> = None;
        let mut i: usize = 0;
        proof {
            assert(self.candidates@.take(0) =~= Seq::<Candidate<C>>::empty());
        }
        while i < self.candidates.len()
            invariant
                i <= self.candidates@.len(),
                now + PROBE_POLL_TICK <= u64::MAX,
                candidates_wakeup(self.candidates@.take(i as int), now) == match earliest {
                    Some(t) => Some(t as int),
                    None => None,
                },
            decreases self.candidates@.len() - i,
        {
            proof {
                assert(self.candidates@.take(i as int + 1).drop_last() =~= self.candidates@.take(
                    i as int,
                ));
                assert(self.candidates@.take(i as int + 1).last() == self.candidates@[i as int]);
            }
            earliest = Some(earlier(earliest, self.candidates[i].stats.next_wakeup(now)));
            i += 1;
        }
        proof {
            assert(self.candidates@.take(i as int) =~= self.candidates@);
        }
        if let Some(active) = &self.active {
            earliest = Some(earlier(earliest, active.stats.next_wakeup(now)));
        }
        if self.deficit() > 0 {
            earliest = Some(earlier(earliest, self.refill_after));
        }
        earlier(earliest, self.next_rotation_at)
    }

    pub fn report(&self) -> (r: ExplorerReport)
        ensures
            r.candidates@.len() == self.candidates@.len(),
            forall|i: int|
                0 <= i < r.candidates@.len() ==> #[trigger] r.candidates@[i]
                    == self.candidates@[i].stats.reported(self.candidates@[i].local_addr),
            r.active == match self.active {
                Some(active) => Some(active.stats.reported(active.local_addr)),
                None => None,
            },
    {
        let mut candidates: Vec<TupleReport> = Vec::new();
        let mut i: usize = 0;
        while i < self.candidates.len()
            invariant
                i <= self.candidates@.len(),
                candidates@.len() == i,
                forall|j: int|
                    0 <= j < i ==> #[trigger] candidates@[j]
                        == self.candidates@[j].stats.reported(self.candidates@[j].local_addr),
            decreases self.candidates@.len() - i,
        {
            candidates.push(self.candidates[i].stats.report(self.candidates[i].local_addr));
            i += 1;
        }
        ExplorerReport {
            candidates,
            active: match &self.active {
                Some(active) => Some(active.stats.report(active.local_addr)),
                None => None,
            },
        }
    }
}

/// The explorer never wants attention later than any of what it watches does.
pub proof fn lemma_wakeup_is_the_earliest<C, A>(explorer: Explorer<C, A>, now: u64, i: int)
    ensures
        0 <= i < explorer.candidates@.len() ==> explorer.wakeup(now)
            <= explorer.candidates@[i].stats.wakeup(now),
        explorer.active is Some ==> explorer.wakeup(now) <= (explorer.active->0).stats.wakeup(now),
        explorer.spec_deficit() > 0 ==> explorer.wakeup(now) <= explorer.refill_after,
        explorer.wakeup(now) <= explorer.next_rotation_at,
{
    lemma_candidates_wakeup(explorer.candidates@, now, i);
}

proof fn lemma_candidates_wakeup<C>(candidates: Seq<Candidate<C>>, now: u64, i: int)
    ensures
        0 <= i < candidates.len() ==> candidates_wakeup(candidates, now) is Some
            && candidates_wakeup(candidates, now)->0 <= candidates[i].stats.wakeup(now),
    decreases candidates.len(),
{
    if 0 <= i < candidates.len() - 1 {
        lemma_candidates_wakeup(candidates.drop_last(), now, i);
    }
}

/// A candidate that is handed out is alive: it has the samples, and has not
/// lost the last ones.
pub proof fn lemma_the_best_is_alive<C>(candidates: Seq<Candidate<C>>, costs: Seq<u64>, i: int)
    requires
        is_best(candidates, costs, i),
    ensures
        candidates[i].stats.is_alive(),
        !candidates[i].stats.is_dead(),
        candidates[i].stats.rtt is Some,
{
}

/// A candidate that has not been measured is never retired, and one that has
/// no score is retired before one that has.
pub proof fn lemma_the_worst_is_measured<C>(candidates: Seq<Candidate<C>>, costs: Seq<u64>, i: int)
    requires
        is_worst(candidates, costs, i),
    ensures
        candidates[i].stats.samples > 0,
        forall|j: int|
            #![trigger candidates[j]]
            0 <= j < candidates.len() && candidates[j].stats.samples > 0
                && candidates[j].stats.scored() is None && costs[i] < INFINITE_COST
                ==> candidates[i].stats.scored() is None,
{
}

/// The best candidate costs no more than any other that has three samples, a
/// round trip and has not lost the last three probes, and stands before those
/// that cost as much.
pub proof fn lemma_the_best_costs_least<C>(
    candidates: Seq<Candidate<C>>,
    costs: Seq<u64>,
    i: int,
    j: int,
)
    requires
        is_best(candidates, costs, i),
        0 <= j < candidates.len(),
        candidates[j].stats.samples >= 3,
        candidates[j].stats.rtt is Some,
        candidates[j].stats.consecutive_losses < 3,
    ensures
        costs[i] <= costs[j],
        costs[i] == costs[j] ==> i <= j,
        candidates[i].stats.samples >= 3,
        candidates[i].stats.rtt is Some,
        candidates[i].stats.consecutive_losses < 3,
        !none_scored(candidates),
        best_scored(candidates, costs) == candidates[i].stats.scored(),
{
    assert(candidates[j].stats.scored() is Some);
    let k = choose|k: int| is_best(candidates, costs, k);
    lemma_best_and_worst_are_unique(candidates, costs, i, k);
}

/// Of the candidates that have been measured, the one that is retired has no
/// score or costs no less than any other, and none without a score is kept for
/// it; of equal ones, the last goes.
pub proof fn lemma_the_worst_costs_most<C>(
    candidates: Seq<Candidate<C>>,
    costs: Seq<u64>,
    i: int,
    j: int,
)
    requires
        is_worst(candidates, costs, i),
        0 <= j < candidates.len(),
        candidates[j].stats.samples > 0,
        forall|k: int| 0 <= k < costs.len() ==> #[trigger] costs[k] < INFINITE_COST,
        costs.len() == candidates.len(),
    ensures
        candidates[i].stats.samples > 0,
        candidates[i].stats.scored() is Some ==> candidates[j].stats.scored() is Some && costs[j]
            <= costs[i] && (costs[j] == costs[i] ==> j <= i),
        candidates[i].stats.scored() is None && candidates[j].stats.scored() is None ==> j <= i,
        !none_measured(candidates),
{
    assert(costs[i] < INFINITE_COST);
    assert(costs[j] < INFINITE_COST);
}

/// Taking a candidate out takes that one and no other: each of the others is
/// still there, and what was the last stands in its place.
pub proof fn lemma_one_candidate_is_taken_out<C>(candidates: Seq<Candidate<C>>, i: int)
    requires
        0 <= i < candidates.len(),
    ensures
        taken_out(candidates, i).len() + 1 == candidates.len(),
        forall|j: int|
            0 <= j < candidates.len() - 1 && j != i ==> #[trigger] taken_out(candidates, i)[j]
                == candidates[j],
        i < candidates.len() - 1 ==> taken_out(candidates, i)[i] == candidates.last(),
{
}

/// What is handed out is the best candidate itself: what it is probed through,
/// its address and its score. The explorer has one candidate less, and nothing
/// else of it changes; where no candidate has a score, nothing at all does.
pub proof fn lemma_the_best_is_handed_out_whole<C, A>(
    before: Explorer<C, A>,
    after: Explorer<C, A>,
    costs: Seq<u64>,
    taken: Option<BestCandidate<C>>,
    i: int,
)
    requires
        best_taken(before, after, costs, taken),
        is_best(before.candidates@, costs, i),
    ensures
        taken is Some,
        (taken->0).io == before.candidates@[i].io,
        (taken->0).local_addr == before.candidates@[i].local_addr,
        before.candidates@[i].stats.rtt == Some((taken->0).score.rtt),
        after.candidates@.len() + 1 == before.candidates@.len(),
        forall|j: int|
            0 <= j < before.candidates@.len() - 1 && j != i ==> #[trigger] after.candidates@[j]
                == before.candidates@[j],
        after.config == before.config,
        after.active == before.active,
        after.next_rotation_at == before.next_rotation_at,
        after.refill_after == before.refill_after,
        after.epoch == before.epoch,
{
    assert(before.candidates@[i].stats.scored() is Some);
    assert(!none_scored(before.candidates@));
    let k = choose|k: int|
        is_best(before.candidates@, costs, k) && (taken->0).io == before.candidates@[k].io
            && (taken->0).local_addr == before.candidates@[k].local_addr && Some((taken->0).score)
            == before.candidates@[k].stats.scored() && after.candidates@ == #[trigger] taken_out(
            before.candidates@,
            k,
        );
    lemma_best_and_worst_are_unique(before.candidates@, costs, i, k);
}

/// The explorer wants attention when one of what it watches does, and never
/// for nothing: what it wakes for is a candidate, the path in use, a refill or
/// the rotation.
pub proof fn lemma_wakeups_have_a_cause<C, A>(explorer: Explorer<C, A>, now: u64)
    ensures
        ({
            let at = explorer.wakeup(now);
            ||| exists|i: int|
                0 <= i < explorer.candidates@.len() && at == (
                #[trigger] explorer.candidates@[i]).stats.wakeup(now)
            ||| explorer.active is Some && at == (explorer.active->0).stats.wakeup(now)
            ||| explorer.candidates@.len() < explorer.config.candidates && at
                == explorer.refill_after
            ||| at == explorer.next_rotation_at
        }),
{
    lemma_candidates_wakeup_has_a_cause(explorer.candidates@, now);
}

proof fn lemma_candidates_wakeup_has_a_cause<C>(candidates: Seq<Candidate<C>>, now: u64)
    ensures
        candidates_wakeup(candidates, now) is Some <==> candidates.len() > 0,
        candidates_wakeup(candidates, now) matches Some(at) ==> exists|i: int|
            0 <= i < candidates.len() && at == (#[trigger] candidates[i]).stats.wakeup(now),
    decreases candidates.len(),
{
    if candidates.len() > 0 {
        let rest = candidates.drop_last();
        lemma_candidates_wakeup_has_a_cause(rest, now);
        let at = candidates_wakeup(candidates, now)->0;
        if rest.len() > 0 && at == candidates_wakeup(rest, now)->0 {
            let i = choose|i: int|
                0 <= i < rest.len() && at == (#[trigger] rest[i]).stats.wakeup(now);
            assert(candidates[i] == rest[i]);
        } else {
            assert(at == candidates[candidates.len() - 1].stats.wakeup(now));
        }
    }
}

/// What is missing and what is there make up the number of candidates that is
/// kept, unless more are there; then none is missing. The score of the path in
/// use is that of its own measurements.
pub proof fn lemma_the_deficit_makes_up_the_number<C, A>(explorer: Explorer<C, A>)
    ensures
        explorer.candidates@.len() <= explorer.config.candidates ==> explorer.spec_deficit()
            + explorer.candidates@.len() == explorer.config.candidates,
        explorer.candidates@.len() > explorer.config.candidates ==> explorer.spec_deficit() == 0,
        explorer.active matches Some(active) ==> explorer.active_scored()
            == active.stats.scored(),
        explorer.active is None ==> explorer.active_scored() is None,
{
}

/// An explorer that has found nothing yet wants all its candidates at once,
/// and rotates after a period.
pub proof fn lemma_a_fresh_explorer_wants_candidates<C, A>(
    explorer: Explorer<C, A>,
    config: ExplorerConfig,
    now: u64,
)
    requires
        is_fresh(explorer, config, now),
    ensures
        explorer.config == config,
        explorer.candidates@.len() == 0,
        explorer.active_scored() is None,
        explorer.spec_deficit() == config.candidates,
        explorer.refill_after <= now,
        explorer.epoch == now,
        explorer.next_rotation_at - now == config.rotation_period,
{
}

/// Some candidate is the best where one has a score, and its score is the one
/// that counts.
pub proof fn lemma_some_candidate_is_best<C>(candidates: Seq<Candidate<C>>, costs: Seq<u64>, j: int) -> (i:
    int)
    requires
        costs.len() == candidates.len(),
        0 <= j < candidates.len(),
        candidates[j].stats.scored() is Some,
    ensures
        is_best(candidates, costs, i),
        best_scored(candidates, costs) == candidates[i].stats.scored(),
        best_scored(candidates, costs) is Some,
    decreases candidates.len(),
{
    let rest = candidates.drop_last();
    let n = candidates.len() - 1;
    let i = if none_scored(rest) {
        if j < n {
            assert(rest[j].stats.scored() is None);
        }
        assert forall|k: int|
            0 <= k < candidates.len() && (#[trigger] candidates[k]).stats.scored()
                is Some implies k == n by {
            if k < n {
                assert(rest[k].stats.scored() is None);
            }
        }
        n
    } else {
        let k = choose|k: int| 0 <= k < rest.len() && !((#[trigger] rest[k]).stats.scored() is None);
        let b = lemma_some_candidate_is_best(rest, costs.drop_last(), k);
        assert(candidates[b] == rest[b]);
        assert forall|q: int|
            0 <= q < n && (#[trigger] candidates[q]).stats.scored() is Some implies costs[b]
            < costs[q] || (costs[b] == costs[q] && b <= q) by {
            assert(rest[q].stats.scored() is Some);
        }
        if candidates[n].stats.scored() is Some && costs[n] < costs[b] {
            n
        } else {
            b
        }
    };
    assert(is_best(candidates, costs, i));
    assert(!none_scored(candidates));
    let c = choose|c: int| is_best(candidates, costs, c);
    lemma_best_and_worst_are_unique(candidates, costs, i, c);
    i
}

} // verus!
