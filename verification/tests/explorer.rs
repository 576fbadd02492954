use std::cell::RefCell;
use std::collections::VecDeque;
use std::rc::Rc;

use rtp_mux::addr::SocketAddr;
use rtp_mux::explorer::path_score::{beats_by_margin, MigrationRule, PathScore};
use rtp_mux::explorer::probe_round::{ProbeRound, RoundEvent, RoundStep};
use rtp_mux::explorer::tuple_stats::{
    probe_interval, Averages, Outstanding, TupleStats, DEAD_CONSECUTIVE_LOSSES, MIN_SAMPLES,
    NO_LOSS, PROBE_POLL_TICK, PROBE_TIMEOUT, TOTAL_LOSS,
};
use rtp_mux::explorer::{Explorer, ExplorerConfig, INFINITE_COST, REFILL_DEFERRAL};

const MILLI: u64 = 1_000_000;
const SEC: u64 = 1_000_000_000;
const ALPHA: f64 = 0.3;

#[derive(Clone, Default)]
struct FakeIo {
    sent: Rc<RefCell<Vec<u64>>>,
    echoes: Rc<RefCell<VecDeque<u64>>>,
}

impl FakeIo {
    fn echo_all(&self) {
        self.echoes.borrow_mut().extend(self.sent.borrow_mut().drain(..));
    }
}

// The library takes averages, costs and margins, which are doubles, as
// arguments. The arithmetic here stands in for a caller's: these tests show
// what the library does with the numbers, not how they are come by.

fn secs(nanos: u64) -> f64 {
    nanos as f64 / 1e9
}

fn averages(stats: &TupleStats, sample: Option<u64>) -> Averages {
    let rtt = match (stats.rtt, sample) {
        (Some(prev), Some(sample)) => {
            (prev as f64 * (1.0 - ALPHA)).round() as u64 + (sample as f64 * ALPHA).round() as u64
        }
        _ => 0,
    };
    let lost = if sample.is_some() { 0.0 } else { 1.0 };
    let loss = match stats.loss {
        Some(prev) => f64::from_bits(prev) * (1.0 - ALPHA) + lost * ALPHA,
        None => 0.0,
    };
    Averages { rtt, loss: loss.to_bits() }
}

fn record(stats: &mut TupleStats, sample: Option<u64>) {
    let averages = averages(stats, sample);
    stats.record(sample, averages);
}

fn tick(stats: &mut TupleStats, io: &FakeIo, now: u64, mean: u64, epoch: u64) {
    let mut round = ProbeRound::new(now, mean, epoch);
    let mut step = RoundStep::Listen;
    loop {
        let event = match step {
            RoundStep::Listen => match io.echoes.borrow_mut().pop_front() {
                Some(nonce) => {
                    let sample = stats.answered_after(nonce, now);
                    RoundEvent::Echo { nonce, averages: averages(stats, sample) }
                }
                None => RoundEvent::Silence { averages: averages(stats, None) },
            },
            RoundStep::Send(probe) => {
                io.sent.borrow_mut().push(probe.nonce);
                RoundEvent::Sent { sent: true, averages: averages(stats, None) }
            }
            RoundStep::Draw { mean } => RoundEvent::Drawn { interval: mean },
            RoundStep::Done => break,
        };
        step = round.advance(stats, event);
    }
}

fn cost(score: &PathScore) -> f64 {
    secs(score.rtt) / (1.0 - f64::from_bits(score.loss)).max(0.05)
}

fn margins(best: &PathScore, active: &PathScore) -> (bool, bool) {
    let (best_loss, active_loss) = (f64::from_bits(best.loss), f64::from_bits(active.loss));
    let rtt_wins =
        secs(best.rtt) <= secs(active.rtt) * (1.0 - 0.25) && best_loss <= active_loss + 0.02;
    let loss_wins =
        best_loss + 0.10 <= active_loss && secs(best.rtt) <= secs(active.rtt) * (1.0 + 0.25);
    (rtt_wins, loss_wins)
}

type Paths = Explorer<FakeIo, FakeIo>;

fn costs(explorer: &Paths) -> Vec<u64> {
    explorer
        .scores()
        .iter()
        .map(|score| score.as_ref().map_or(0, |score| cost(score).to_bits()))
        .collect()
}

fn tick_all(explorer: &mut Paths, now: u64) {
    let mean = explorer.config.probe_mean_interval;
    let epoch = explorer.epoch;
    for candidate in &mut explorer.candidates {
        tick(&mut candidate.stats, &candidate.io, now, mean, epoch);
    }
    if let Some(active) = &mut explorer.active {
        tick(&mut active.stats, &active.io, now, mean, epoch);
    }
    let costs = costs(explorer);
    explorer.rotate(now, &costs);
}

fn should_reoptimize(explorer: &Paths) -> bool {
    let costs = costs(explorer);
    let (rtt_wins, loss_wins) = match (explorer.best_score(&costs), explorer.active_score()) {
        (Some(best), Some(active)) => margins(&best, &active),
        _ => (false, false),
    };
    explorer.should_reoptimize(&costs, rtt_wins, loss_wins)
}

fn config() -> ExplorerConfig {
    ExplorerConfig {
        enabled: true,
        candidates: 2,
        probe_mean_interval: 8 * SEC,
        rotation_period: 3600 * SEC,
    }
}

fn stagger() -> u64 {
    6 * SEC
}

fn local(port: u16) -> SocketAddr {
    SocketAddr::V4 { ip: 0x7f00_0001, port }
}

fn probe_cycle(explorer: &mut Paths, now: &mut u64, responders: &[(&FakeIo, u64)]) {
    *now += config().probe_mean_interval * 4;
    tick_all(explorer, *now);
    let mut receive_at = *now;
    for (io, rtt) in responders {
        io.echo_all();
        receive_at = receive_at.max(*now + *rtt);
        tick_all(explorer, *now + *rtt);
    }
    *now = receive_at;
    *now += PROBE_TIMEOUT;
    tick_all(explorer, *now);
}

fn warmed_pair(now: &mut u64) -> (Paths, FakeIo, FakeIo) {
    let mut explorer = Explorer::new(config(), *now);
    let fast = FakeIo::default();
    let slow = FakeIo::default();
    explorer.add_candidate(fast.clone(), local(1000), *now, stagger());
    explorer.add_candidate(slow.clone(), local(2000), *now, stagger());
    for _ in 0..MIN_SAMPLES {
        probe_cycle(&mut explorer, now, &[(&fast, 10 * MILLI), (&slow, 200 * MILLI)]);
    }
    (explorer, fast, slow)
}

#[test]
fn take_best_prefers_the_lower_rtt_candidate_and_leaves_a_deficit() {
    let mut now = SEC;
    let (mut explorer, _fast, _slow) = warmed_pair(&mut now);
    let best = explorer.take_best(&costs(&explorer)).expect("warm explorer");
    assert_eq!(best.local_addr, local(1000));
    assert!(best.score.rtt < 50 * MILLI, "{:?}", best.score);
    assert_eq!(explorer.deficit(), 1);
    explorer.add_candidate(FakeIo::default(), local(3000), now, stagger());
    assert_eq!(explorer.deficit(), 0);
    let best = explorer.take_best(&costs(&explorer)).expect("slow is still alive");
    assert_eq!(best.local_addr, local(2000));
    assert!(explorer.take_best(&costs(&explorer)).is_none(), "fresh mint is not scored yet");
}

#[test]
fn cold_explorer_surrenders_nothing() {
    let mut explorer: Paths = Explorer::new(config(), SEC);
    explorer.add_candidate(FakeIo::default(), local(1000), SEC, stagger());
    assert!(explorer.take_best(&costs(&explorer)).is_none());
    assert!(!should_reoptimize(&explorer));
}

#[test]
fn loss_marks_a_candidate_dead_and_ineligible() {
    let mut now = SEC;
    let mut explorer: Paths = Explorer::new(config(), now);
    let mute = FakeIo::default();
    explorer.add_candidate(mute.clone(), local(1000), now, stagger());
    for _ in 0..DEAD_CONSECUTIVE_LOSSES + 1 {
        probe_cycle(&mut explorer, &mut now, &[]);
    }
    assert!(explorer.take_best(&costs(&explorer)).is_none(), "dead tuple must not be handed off");
}

#[test]
fn lossy_candidate_scores_worse_than_a_clean_one_at_equal_rtt() {
    let mut now = SEC;
    let mut explorer: Paths = Explorer::new(config(), now);
    let clean = FakeIo::default();
    let lossy = FakeIo::default();
    explorer.add_candidate(clean.clone(), local(1000), now, stagger());
    explorer.add_candidate(lossy.clone(), local(2000), now, stagger());
    let rtt = 50 * MILLI;
    for cycle in 0..6 {
        let mut responders = vec![(&clean, rtt)];
        if cycle % 2 == 0 {
            responders.push((&lossy, rtt));
        }
        probe_cycle(&mut explorer, &mut now, &responders);
    }
    let best = explorer.take_best(&costs(&explorer)).expect("clean candidate");
    assert_eq!(best.local_addr, local(1000));
    assert!(f64::from_bits(best.score.loss) < 0.05, "{:?}", best.score);
}

#[test]
fn rotation_retires_the_worst_measured_candidate() {
    let mut now = SEC;
    let (mut explorer, _fast, _slow) = warmed_pair(&mut now);
    explorer.next_rotation_at = now;
    tick_all(&mut explorer, now);
    assert_eq!(explorer.deficit(), 1);
    let report = explorer.report();
    assert_eq!(report.candidates.len(), 1);
    assert_eq!(report.candidates[0].local_addr, local(1000));
    assert_eq!(explorer.next_rotation_at, now + config().rotation_period);
}

#[test]
fn rotation_never_retires_unmeasured_candidates() {
    let now = SEC;
    let mut explorer: Paths = Explorer::new(config(), now);
    explorer.add_candidate(FakeIo::default(), local(1000), now, stagger());
    explorer.add_candidate(FakeIo::default(), local(2000), now, stagger());
    explorer.next_rotation_at = now;
    tick_all(&mut explorer, now);
    assert_eq!(explorer.deficit(), 0);
}

#[test]
fn reoptimize_requires_a_margin_win_over_the_active_tuple() {
    let mut now = SEC;
    let (mut explorer, fast, slow) = warmed_pair(&mut now);
    assert!(!should_reoptimize(&explorer));
    let active = FakeIo::default();
    explorer.set_active(Some(active.clone()), local(4000), now, stagger());
    for _ in 0..MIN_SAMPLES {
        probe_cycle(
            &mut explorer,
            &mut now,
            &[(&fast, 10 * MILLI), (&active, 11 * MILLI), (&slow, 200 * MILLI)],
        );
    }
    assert!(!should_reoptimize(&explorer), "11ms -> 10ms is within margin");
    explorer.set_active(Some(active.clone()), local(4000), now, stagger());
    for _ in 0..MIN_SAMPLES {
        probe_cycle(
            &mut explorer,
            &mut now,
            &[(&fast, 10 * MILLI), (&active, 100 * MILLI), (&slow, 200 * MILLI)],
        );
    }
    assert!(should_reoptimize(&explorer), "100ms -> 10ms clears the margin");
    explorer.set_active(Some(FakeIo::default()), local(4000), now, stagger());
    assert!(!should_reoptimize(&explorer));
}

#[test]
fn wakeups_poll_finely_only_while_a_probe_is_outstanding() {
    let now = SEC;
    let mut explorer: Paths = Explorer::new(config(), now);
    explorer.add_candidate(FakeIo::default(), local(1000), now, stagger());
    explorer.add_candidate(FakeIo::default(), local(2000), now, stagger());
    let idle = explorer.next_wakeup(now);
    assert!(idle >= now + config().probe_mean_interval / 4);
    let sending = now + config().probe_mean_interval * 4;
    tick_all(&mut explorer, sending);
    assert_eq!(explorer.next_wakeup(sending), sending + PROBE_POLL_TICK);
}

fn score(secs: f64, loss: f64) -> PathScore {
    PathScore { rtt: (secs * 1e9).round() as u64, loss: loss.to_bits() }
}

// Which margins are cleared is a matter of doubles and decided above; which
// rule is reported is the library's.
#[test]
fn a_path_that_clears_both_margins_reports_the_rtt_rule() {
    let best = score(0.375, 0.0);
    let active = score(0.5, 0.1);
    let (rtt_wins, loss_wins) = margins(&best, &active);
    assert!(rtt_wins && loss_wins, "the probe must clear both margins");
    assert_eq!(beats_by_margin(rtt_wins, loss_wins), Some(MigrationRule::Rtt));
}

#[test]
fn an_echo_for_a_stale_probe_is_not_counted_as_the_outstanding_sample() {
    let epoch = SEC;
    let mean = 8 * SEC;
    let mut stats = TupleStats::new(epoch, stagger());
    let io = FakeIo::default();
    tick(&mut stats, &io, epoch + mean, mean, epoch);
    assert_eq!(io.sent.borrow().len(), 1, "no probe is outstanding to sample");
    let stale = io.sent.borrow()[0].wrapping_add(1);
    io.echoes.borrow_mut().push_back(stale);
    tick(&mut stats, &io, epoch + mean + MILLI, mean, epoch);
    assert!(stats.report(local(1)).rtt.is_none());
}

#[test]
fn exactly_three_consecutive_losses_mark_a_tuple_dead() {
    let mut stats = TupleStats::new(SEC, stagger());
    record(&mut stats, Some(10 * MILLI));
    for losses in 1..=2 {
        record(&mut stats, None);
        assert!(!stats.dead(), "{losses} consecutive losses must not retire the tuple yet");
    }
    record(&mut stats, None);
    assert!(stats.dead());
    assert!(stats.score().is_none());
}

#[test]
fn exactly_three_samples_make_a_tuple_scorable() {
    let mut stats = TupleStats::new(SEC, stagger());
    record(&mut stats, Some(10 * MILLI));
    record(&mut stats, None);
    assert!(stats.score().is_none());
    assert!(!stats.report(local(1)).alive);
    record(&mut stats, Some(10 * MILLI));
    assert!(stats.score().is_some());
    assert!(stats.report(local(1)).alive);
}

#[test]
fn a_probe_is_recorded_lost_at_exactly_its_timeout() {
    let epoch = SEC;
    let mean = 8 * SEC;
    let mut stats = TupleStats::new(epoch, stagger());
    let io = FakeIo::default();
    let sent_at = epoch + mean;
    tick(&mut stats, &io, sent_at, mean, epoch);
    assert_eq!(io.sent.borrow().len(), 1, "a probe must be outstanding to time out");
    tick(&mut stats, &io, sent_at + PROBE_TIMEOUT - MILLI, mean, epoch);
    assert_eq!(stats.report(local(1)).loss, None);
    tick(&mut stats, &io, sent_at + PROBE_TIMEOUT, mean, epoch);
    assert_eq!(stats.report(local(1)).loss, Some(1.0f64.to_bits()));
    assert_eq!(io.sent.borrow().len(), 1, "the timeout must not also send a new probe");
}

#[test]
fn the_first_sample_counts_as_it_is_and_later_ones_as_the_averages_say() {
    let mut stats = TupleStats::new(SEC, stagger());
    let averages = Averages { rtt: 77, loss: 0.5f64.to_bits() };
    stats.record(Some(10 * MILLI), averages);
    assert_eq!((stats.rtt, stats.loss), (Some(10 * MILLI), Some(NO_LOSS)));
    stats.record(Some(20 * MILLI), averages);
    assert_eq!((stats.rtt, stats.loss), (Some(77), Some(averages.loss)));
    stats.record(None, Averages { rtt: 88, loss: TOTAL_LOSS });
    assert_eq!((stats.rtt, stats.loss), (Some(77), Some(TOTAL_LOSS)), "a loss has no round trip");
}

#[test]
fn the_bit_patterns_of_the_first_samples_are_those_of_the_numbers() {
    assert_eq!(f64::from_bits(NO_LOSS), 0.0);
    assert_eq!(f64::from_bits(TOTAL_LOSS), 1.0);
    assert_eq!(f64::from_bits(INFINITE_COST), f64::INFINITY);
}

#[test]
fn a_probe_that_cannot_be_sent_is_a_loss() {
    let mut stats = TupleStats::new(0, 5);
    assert!(stats.probe_with(9, 4, 0).is_none(), "the first probe waits");
    let probe = stats.probe_with(9, 2_000_005, 5).unwrap();
    assert_eq!((probe.nonce, probe.timestamp_micros), (9, 2_000));
    for _ in 0..2 {
        let lost = averages(&stats, None);
        assert_eq!(stats.probe_sent(9, false, 6, 100, lost), 100);
    }
    let lost = averages(&stats, None);
    assert_eq!(stats.probe_sent(9, false, 6, 100, lost), 300, "a dead tuple is probed less often");
    assert!(stats.outstanding.is_none());
    assert_eq!(stats.consecutive_losses, 3);
}

fn quiet() -> RoundEvent {
    RoundEvent::Silence { averages: Averages { rtt: 0, loss: NO_LOSS } }
}

fn sent_nonce(stats: &TupleStats) -> u64 {
    let mut stats = *stats;
    match ProbeRound::new(1, 100, 0).advance(&mut stats, quiet()) {
        RoundStep::Send(probe) => probe.nonce,
        step => panic!("{step:?}"),
    }
}

#[test]
fn probes_are_random_and_intervals_stay_within_bounds() {
    let stats = TupleStats::new(0, 0);
    let first = sent_nonce(&stats);
    let differs = (0..8).any(|_| sent_nonce(&stats) != first);
    assert!(differs, "nine nonces in a row were the same");
    assert_eq!(probe_interval(100, 24), 25);
    assert_eq!(probe_interval(100, 25), 25);
    assert_eq!(probe_interval(100, 399), 399);
    assert_eq!(probe_interval(100, 1_000), 400);
    let mut stats = stats;
    stats.schedule(10, 100, 1);
    assert_eq!(stats.next_probe_at, 35);
}

#[test]
fn a_round_takes_answers_gives_up_probes_and_puts_the_next_probe_off() {
    let averages = Averages { rtt: 5, loss: TOTAL_LOSS };
    let mut stats = TupleStats::new(0, 0);
    stats.outstanding = Some(Outstanding { nonce: 4, sent_at: 0 });
    let now = PROBE_TIMEOUT + 2_000;
    let mut round = ProbeRound::new(now, 100, 0);
    let stale = RoundEvent::Echo { nonce: 3, averages };
    assert_eq!(round.advance_with(&mut stats, stale, 9), RoundStep::Listen);
    assert_eq!(stats.samples, 0, "the answer was to another probe");
    let silence = RoundEvent::Silence { averages };
    match round.advance_with(&mut stats, silence, 9) {
        RoundStep::Send(probe) => {
            assert_eq!((probe.nonce, probe.timestamp_micros), (9, now / 1_000))
        }
        step => panic!("{step:?}"),
    }
    assert_eq!((stats.outstanding, stats.consecutive_losses), (None, 1));
    let sent = RoundEvent::Sent { sent: true, averages };
    assert_eq!(round.advance_with(&mut stats, sent, 10), RoundStep::Draw { mean: 100 });
    assert_eq!(stats.outstanding, Some(Outstanding { nonce: 9, sent_at: now }));
    let drawn = RoundEvent::Drawn { interval: 1_000 };
    assert_eq!(round.advance_with(&mut stats, drawn, 10), RoundStep::Done);
    assert_eq!(stats.next_probe_at, now + 400);
    let mut early = ProbeRound::new(now + 1, 100, 0);
    assert_eq!(early.advance_with(&mut stats, silence, 11), RoundStep::Done);
    assert_eq!(stats.outstanding, Some(Outstanding { nonce: 9, sent_at: now }));
}

#[test]
fn a_refill_goes_on_until_nothing_is_missing_and_is_put_off_when_it_fails() {
    let mut explorer: Paths = Explorer::new(config(), 0);
    assert!(explorer.wants_refill(0));
    assert!(explorer.minted(Some((FakeIo::default(), local(1))), 0, 0));
    assert!(!explorer.minted(None, 7, 0));
    assert!(!explorer.wants_refill(6 + REFILL_DEFERRAL));
    assert!(explorer.wants_refill(7 + REFILL_DEFERRAL));
    assert!(!explorer.minted(Some((FakeIo::default(), local(2))), 7, 0));
    assert!(!explorer.wants_refill(u64::MAX));
}

#[test]
fn the_default_configuration_is_the_documented_one() {
    let config = ExplorerConfig::default();
    assert!(config.enabled);
    assert_eq!(config.candidates, 8);
    assert_eq!(config.probe_mean_interval, 10 * SEC);
    assert_eq!(config.rotation_period, 120 * SEC);
}

#[test]
fn of_equal_candidates_the_first_is_handed_out_and_the_last_retired() {
    let mut explorer: Paths = Explorer::new(config(), 0);
    for port in [1, 2] {
        explorer.add_candidate(FakeIo::default(), local(port), 0, 0);
    }
    for candidate in &mut explorer.candidates {
        for _ in 0..MIN_SAMPLES {
            record(&mut candidate.stats, Some(MILLI));
        }
    }
    let equal = costs(&explorer);
    assert_eq!(explorer.best_index(&equal), Some(0));
    let gone = explorer.rotate(config().rotation_period, &equal).unwrap();
    assert_eq!(gone.local_addr, local(2));
}
