use rtp_mux::addr::SocketAddr;
use rtp_mux::byte_count::SessionByteCounters;
use rtp_mux::connector::dial::{
    birth_outcome, dual_supervisor_result, hello_failed, plan_lanes, BirthEvent, BirthResult,
    BirthStep, DialBook, DualConnect, DualLaneBirth, Queueing, RetryStep, StreamRequest,
    SupervisorEnd,
};
use rtp_mux::connector::session::{OpenedStream, SessionProbe};
use rtp_mux::connector::{
    connector_dropped, connector_stopped, session_linger, ConnectStep, ConnectorCall, DialPlan,
    RecycleStep, RecycleTrigger, RtpMuxConnector, SESSION_LINGER,
};
use rtp_mux::error::{ErrorKind, IoError};
use rtp_mux::explorer::path_score::MigrationVerdict;
use rtp_mux::explorer::tuple_stats::{Averages, MIN_SAMPLES};
use rtp_mux::explorer::ExplorerConfig;
use rtp_mux::lane::{GroupToken, LaneClass, PairingNonce};
use rtp_mux::shared::{MAX_CONCURRENT_DUAL_DIALS, MAX_DIAL_WAITERS_PER_ADDR};

const SEC: u64 = 1_000_000_000;

fn addr(host: u32, port: u16) -> SocketAddr {
    SocketAddr::V4 { ip: 0xc000_0200 + host, port }
}

fn here() -> SocketAddr {
    addr(1, 50_000)
}

/// A connector, the requests whose answer nobody awaits any more, the live
/// sessions, and the streams whose writer is there.
struct World {
    connector: RtpMuxConnector<u32, u8, u8>,
    closed: Vec<u32>,
    alive: Vec<u64>,
    writers: Vec<u64>,
    next: u32,
    tokens: Vec<GroupToken>,
    now: u64,
}

impl World {
    fn new(enabled: bool) -> Self {
        let config = ExplorerConfig {
            enabled,
            candidates: 1,
            probe_mean_interval: 3600 * SEC,
            rotation_period: 3600 * SEC,
        };
        World {
            connector: RtpMuxConnector::with_config(config),
            closed: Vec::new(),
            alive: Vec::new(),
            writers: Vec::new(),
            next: 0,
            tokens: Vec::new(),
            now: SEC,
        }
    }

    fn fresh(&mut self) -> GroupToken {
        self.next += 1;
        GroupToken { bits: self.next as u128 }
    }

    fn open(&self, addr: SocketAddr) -> Vec<bool> {
        match self.connector.dials().waiters(addr) {
            Some(list) => list.iter().map(|w| !self.closed.contains(&w.response)).collect(),
            None => Vec::new(),
        }
    }

    fn costs(&self, addr: SocketAddr) -> Vec<u64> {
        match self.connector.explorer(addr) {
            Some(explorer) => explorer
                .scores()
                .iter()
                .map(|score| score.map_or(0, |score| score.rtt))
                .collect(),
            None => Vec::new(),
        }
    }

    fn plan(&mut self, plan: DialPlan<u8>) {
        self.tokens.push(plan.token);
    }

    fn enqueue(&mut self, addr: SocketAddr) -> (u32, ConnectStep<u32, u8>) {
        let fresh = self.fresh();
        let request = self.next;
        let (open, costs) = (self.open(addr), self.costs(addr));
        let step = self.connector.connect_with_lane(
            addr,
            LaneClass::Interactive,
            request,
            false,
            &self.alive,
            &open,
            "192.0.2.1:50000",
            fresh,
            self.now,
            &costs,
        );
        (request, step)
    }

    /// A request that is to start a dial.
    fn dial(&mut self, addr: SocketAddr) -> u32 {
        match self.enqueue(addr) {
            (request, ConnectStep::Dial(plan)) => {
                self.plan(plan);
                request
            }
            (_, step) => panic!("no dial: {step:?}"),
        }
    }

    fn open_stream(&mut self, session: u64) -> OpenedStream {
        let opened = self.connector.open_stream(session);
        self.writers.push(opened.stream);
        opened
    }

    fn land(&mut self, addr: SocketAddr, new_alive: bool) -> (u64, Vec<u64>, Vec<OpenedStream>) {
        let connected = self.connector.dial_succeeded(
            addr,
            SocketAddr::V4 { ip: 0xc000_0264, port: 40_000 },
            PairingNonce { bits: 3 },
            None,
            new_alive,
            &self.writers,
            self.now,
            0,
        );
        if new_alive {
            self.alive.push(connected.session);
        }
        let mut opened = Vec::new();
        for waiter in connected.waiters {
            if !self.closed.contains(&waiter.response) {
                opened.push(self.open_stream(connected.session));
            }
        }
        (connected.session, connected.moved, opened)
    }

    /// A stream on a new session of the address.
    fn connect(&mut self, addr: SocketAddr) -> (u64, OpenedStream) {
        self.dial(addr);
        let (session, _, mut opened) = self.land(addr, true);
        (session, opened.remove(0))
    }

    fn recycle(&mut self, addr: SocketAddr, trigger: RecycleTrigger) -> RecycleStep<u8> {
        let fresh = self.fresh();
        let costs = self.costs(addr);
        self.connector.recycle(addr, trigger, fresh, self.now, &costs, true, false)
    }

    fn recycle_to(&mut self, addr: SocketAddr) -> (u64, Vec<u64>) {
        match self.recycle(addr, RecycleTrigger::Forced) {
            RecycleStep::Dial(plan) => self.plan(plan),
            step => panic!("no recycle: {step:?}"),
        }
        let (session, moved, _) = self.land(addr, true);
        (session, moved)
    }

    fn live(&self, session: u64) -> Option<u64> {
        SessionProbe { id: 0, session }.live_streams(self.connector.table())
    }

    fn track(&mut self, stream: u64) -> Option<u64> {
        self.connector.track(stream, &self.alive, &self.writers)
    }

    fn close(&mut self, stream: u64) {
        self.writers.retain(|w| *w != stream);
        self.connector.close_stream(stream);
    }
}

fn refused(step: ConnectStep<u32, u8>) -> (ErrorKind, String) {
    match step {
        ConnectStep::Refused { error, .. } => (error.kind(), error.message),
        step => panic!("not refused: {step:?}"),
    }
}

#[test]
fn a_connect_does_not_hand_out_a_stream_on_a_dead_session() {
    let mut world = World::new(false);
    let (dead, _) = world.connect(here());
    world.alive.clear();
    world.dial(here());
    let (session, _, opened) = world.land(here(), true);
    assert_ne!(session, dead);
    assert_eq!(opened.len(), 1);
    assert_eq!(world.connector.probe_session(here()).unwrap().session, session);
}

#[test]
fn a_dead_address_releases_its_group() {
    let mut world = World::new(false);
    let (session, stream) = world.connect(here());
    world.close(stream.stream);
    assert!(world.connector.session_ended(here(), session));
    world.dial(here());
    assert_ne!(world.tokens[0], world.tokens[1], "redial reused the group of the dead session");
}

#[test]
fn a_live_stream_keeps_its_group_alive() {
    let mut world = World::new(false);
    let (session, _held) = world.connect(here());
    assert!(world.connector.session_ended(here(), session));
    assert!(world.connector.probe_session(here()).is_none());
    world.dial(here());
    assert_eq!(world.tokens[0], world.tokens[1], "the group was dropped under a stream");
}

#[test]
fn losing_a_supervisor_drops_the_addresses_that_are_dead_and_no_other() {
    let mut world = World::new(false);
    let (session, stream) = world.connect(here());
    let other = addr(2, 50_000);
    let (kept, _stream) = world.connect(other);
    assert!(world.connector.session_ended(here(), session));
    world.close(stream.stream);
    world.connector.supervision_lost();
    assert_eq!(world.connector.probe_session(other).unwrap().session, kept);
    world.dial(here());
    assert_ne!(world.tokens[0], world.tokens[2], "redial reused the group of the dead session");
}

#[test]
fn a_recycle_moves_as_much_of_the_gauge_as_it_moves_streams() {
    let mut world = World::new(false);
    let (old, first) = world.connect(here());
    let mut streams = vec![first.stream];
    for _ in 0..3 {
        match world.enqueue(here()) {
            (_, ConnectStep::Open { session, .. }) => {
                streams.push(world.open_stream(session).stream)
            }
            (_, step) => panic!("{step:?}"),
        }
    }
    for stream in &streams[..3] {
        assert_eq!(world.track(*stream), None);
    }
    world.close(streams[1]);
    assert_eq!(world.live(old), Some(3));
    let (new, moved) = world.recycle_to(here());
    assert_eq!(moved, vec![streams[0], streams[2]]);
    assert_eq!(world.live(old), Some(1), "the stream that was not tracked stays");
    assert_eq!(world.live(new), Some(2));
}

#[test]
fn counting_the_waiters_of_an_unknown_address_creates_no_entry() {
    let mut book: DialBook<u32> = DialBook::new();
    assert_eq!(book.live_dial_waiters(here(), &Vec::new()), 0);
    assert!(book.waiters(here()).is_none());
}

#[test]
fn counting_the_waiters_of_an_address_drops_the_closed_ones() {
    let mut book: DialBook<u32> = DialBook::new();
    for response in [1, 2] {
        let open = vec![true; response as usize - 1];
        let request = StreamRequest { lane: LaneClass::Interactive, response };
        let queued = book.queue(here(), request, &open, "addr");
        assert!(matches!(queued, Queueing::Waiting { dial } if dial == (response == 1)));
    }
    assert_eq!(book.live_dial_waiters(here(), &vec![false, true]), 1);
    assert_eq!(book.settle(here())[0].response, 2);
    assert!(!book.is_in_flight(here()));
}

#[test]
fn a_dead_address_releases_its_explorer() {
    let mut world = World::new(true);
    let (session, stream) = world.connect(here());
    let mut explorer = world.connector.take_explorer(here()).expect("the address is explored");
    assert!(!explorer.minted(Some((7, addr(9, 1))), world.now, 0));
    world.connector.put_explorer(here(), explorer);
    assert_eq!(world.connector.explorer_report(here()).candidates.len(), 1);
    world.close(stream.stream);
    world.connector.session_ended(here(), session);
    assert_eq!(world.connector.explorer_report(here()).candidates.len(), 0);
    assert!(world.connector.explorer(here()).is_none());
    assert_eq!(world.connector.explorer_wakeup(world.now), None);
}

#[test]
fn mod_pending_dial_does_not_block_other_destinations() {
    let mut world = World::new(false);
    world.dial(here());
    let fast = addr(2, 50_000);
    let request = world.dial(fast);
    let failed = world.connector.dial_failed(fast);
    assert!(!failed.recycled);
    assert_eq!(failed.waiters.len(), 1);
    assert_eq!(failed.waiters[0].response, request);
    assert!(world.connector.dials().is_in_flight(here()));
}

#[test]
fn pending_dial_does_not_block_cached_session_requests() {
    let mut world = World::new(false);
    let (session, _) = world.connect(here());
    let blocked = world.dial(addr(2, 50_000));
    match world.enqueue(here()) {
        (_, ConnectStep::Open { session: served, lane, .. }) => {
            assert_eq!(served, session);
            assert_eq!(lane, LaneClass::Interactive);
        }
        (_, step) => panic!("{step:?}"),
    }
    let reset = world.connector.reset();
    assert_eq!(reset.error.kind(), ErrorKind::ConnectionAborted);
    assert_eq!(reset.refused.len(), 1);
    assert_eq!(reset.refused[0].response, blocked);
    assert_eq!(reset.kill, vec![session]);
}

#[test]
fn pending_dial_does_not_block_dead_session_reaping() {
    let mut world = World::new(false);
    let (session, stream) = world.connect(here());
    world.dial(addr(2, 50_000));
    world.close(stream.stream);
    world.connector.session_ended(here(), session);
    world.dial(here());
    assert_eq!(world.connector.dials().pending_dials(), 2);
}

#[test]
fn mod_connector_enforces_concurrent_dial_capacity_at_boundary() {
    let mut world = World::new(false);
    let mut waiting = Vec::new();
    for port in 10_000..10_000 + MAX_CONCURRENT_DUAL_DIALS as u16 {
        waiting.push(world.dial(addr(1, port)));
    }
    let (_, step) = world.enqueue(addr(1, 20_000));
    assert_eq!(
        refused(step),
        (ErrorKind::WouldBlock, "too many concurrent dual dials".to_string())
    );
    assert!(matches!(world.enqueue(addr(1, 10_000)), (_, ConnectStep::Waiting)));
    let reset = world.connector.reset();
    assert_eq!(reset.refused.len(), MAX_CONCURRENT_DUAL_DIALS + 1);
    assert_eq!(reset.error.kind(), ErrorKind::ConnectionAborted);
    assert_eq!(reset.error.message, "connector reset");
    for request in waiting {
        assert!(reset.refused.iter().any(|waiter| waiter.response == request));
    }
}

#[test]
fn recycle_respects_concurrent_dial_capacity() {
    let mut world = World::new(false);
    let (session, _) = world.connect(here());
    for port in 10_000..10_000 + MAX_CONCURRENT_DUAL_DIALS as u16 {
        world.dial(addr(2, port));
    }
    assert!(matches!(
        world.recycle(here(), RecycleTrigger::Forced),
        RecycleStep::Saturated { pending: MAX_CONCURRENT_DUAL_DIALS }
    ));
    assert_eq!(world.connector.probe_session(here()).unwrap().session, session);
}

#[test]
fn mod_connector_enforces_waiter_capacity_and_reset_fails_every_waiter() {
    let mut world = World::new(false);
    world.dial(here());
    for _ in 1..MAX_DIAL_WAITERS_PER_ADDR {
        assert!(matches!(world.enqueue(here()), (_, ConnectStep::Waiting)));
    }
    let (_, step) = world.enqueue(here());
    assert_eq!(
        refused(step),
        (
            ErrorKind::WouldBlock,
            "too many dial waiters for 192.0.2.1:50000 (max 256)".to_string()
        )
    );
    let reset = world.connector.reset();
    assert_eq!(reset.refused.len(), MAX_DIAL_WAITERS_PER_ADDR);
    assert_eq!(reset.error.kind(), ErrorKind::ConnectionAborted, "every waiter gets this error");
}

#[test]
fn mod_closed_waiters_do_not_consume_per_destination_capacity() {
    let mut world = World::new(false);
    let first = world.dial(here());
    for _ in 0..MAX_DIAL_WAITERS_PER_ADDR * 2 {
        let (request, step) = world.enqueue(here());
        assert!(matches!(step, ConnectStep::Waiting));
        world.closed.push(request);
    }
    let (live, step) = world.enqueue(here());
    assert!(matches!(step, ConnectStep::Waiting));
    let reset = world.connector.reset();
    let answered: Vec<u32> = reset.refused.iter().map(|waiter| waiter.response).collect();
    assert_eq!(answered, vec![first, live]);
}

#[test]
fn mod_connector_can_redial_immediately_after_reset() {
    let mut world = World::new(false);
    let first = world.dial(here());
    let reset = world.connector.reset();
    assert_eq!(reset.error.kind(), ErrorKind::ConnectionAborted);
    let answered: Vec<u32> = reset.refused.iter().map(|waiter| waiter.response).collect();
    assert_eq!(answered, vec![first]);
    assert!(!world.connector.dials().is_in_flight(here()));
    let second = world.dial(here());
    let mut dial = DualConnect::new();
    let refusal = || IoError::new(ErrorKind::ConnectionRefused, "synthetic redial failure");
    let error = loop {
        match dial.failed(&refusal(), 0, 0) {
            RetryStep::Retry { .. } => continue,
            RetryStep::GiveUp(error) => break error,
        }
    };
    assert_eq!(error.kind(), ErrorKind::ConnectionRefused);
    let failed = world.connector.dial_failed(here());
    let answered: Vec<u32> = failed.waiters.iter().map(|waiter| waiter.response).collect();
    assert_eq!(answered, vec![second]);
}

#[test]
fn fast_path_serves_cached_sessions_without_the_connector_task() {
    let mut world = World::new(false);
    let (session, _) = world.connect(here());
    assert_eq!(world.connector.live_session(here(), &world.alive), Some(session));
    assert_eq!(world.connector.live_session(addr(2, 1), &world.alive), None);
    assert_eq!(world.connector.live_session(here(), &Vec::new()), None);
    let stopped = connector_stopped();
    assert_eq!(stopped.kind(), ErrorKind::BrokenPipe);
    assert_eq!(stopped.message, "RTP mux connector stopped");
    assert_eq!(
        connector_dropped(ConnectorCall::Connect).message,
        "RTP mux connector dropped connect response"
    );
    assert_eq!(
        connector_dropped(ConnectorCall::ExplorerReport).message,
        "RTP mux connector dropped explorer report"
    );
    assert_eq!(
        connector_dropped(ConnectorCall::Reset).message,
        "RTP mux connector dropped reset acknowledgement"
    );
}

#[test]
fn live_stream_gauge_and_graceful_recycle() {
    let mut world = World::new(false);
    let (old, first) = world.connect(here());
    let second = match world.enqueue(here()) {
        (_, ConnectStep::Open { session, .. }) => world.open_stream(session),
        (_, step) => panic!("{step:?}"),
    };
    assert_eq!(world.live(old), Some(2));
    let node = world.connector.table().session(old).unwrap();
    assert_eq!(node.opened_streams, 2);
    let (new, moved) = world.recycle_to(here());
    assert_ne!(new, old);
    assert!(moved.is_empty(), "neither stream was tracked");
    world.close(first.stream);
    assert_eq!(world.live(old), Some(1));
    world.close(second.stream);
    assert_eq!(world.live(old), None, "the old session goes with its last stream");
    assert!(matches!(
        world.enqueue(here()),
        (_, ConnectStep::Open { session, .. }) if session == new
    ));
}

#[test]
fn recycle_is_skipped_while_the_previous_generation_drains() {
    let mut world = World::new(false);
    let (_old, old_stream) = world.connect(here());
    assert_eq!(world.connector.reset_addr(here()), Some(RecycleTrigger::Forced));
    let (fresh, _) = world.recycle_to(here());
    assert_eq!(world.connector.reset_addr(here()), None);
    assert_eq!(world.connector.reoptimize(here()), None);
    assert!(matches!(world.recycle(here(), RecycleTrigger::Forced), RecycleStep::Busy));
    assert_eq!(world.connector.probe_session(here()).unwrap().session, fresh);
    world.close(old_stream.stream);
    assert_eq!(world.connector.reoptimize(here()), Some(RecycleTrigger::BetterPath));
    let (third, _) = world.recycle_to(here());
    assert_ne!(third, fresh);
}

#[test]
fn a_stream_opened_before_a_recycle_lands_on_the_new_session() {
    let mut world = World::new(false);
    let (old, opened) = world.connect(here());
    let (new, moved) = world.recycle_to(here());
    assert!(moved.is_empty());
    assert_eq!(world.live(new), Some(0));
    assert_eq!(world.track(opened.stream), Some(new));
    assert_eq!(world.live(new), Some(1));
    assert_eq!(world.live(old), None);
}

#[test]
fn failed_recycle_dial_keeps_streams_on_the_old_session() {
    let mut world = World::new(false);
    let (old, _stream) = world.connect(here());
    assert!(matches!(world.recycle(here(), RecycleTrigger::Forced), RecycleStep::Dial(_)));
    assert!(world.connector.dial_failed(here()).recycled);
    assert_eq!(world.connector.probe_session(here()).unwrap().session, old);
    assert_eq!(world.live(old), Some(1));
}

#[test]
fn recycle_presents_the_same_group_token() {
    let mut world = World::new(false);
    let (_, stream) = world.connect(here());
    world.close(stream.stream);
    world.recycle_to(here());
    assert_eq!(world.tokens.len(), 2);
    assert_eq!(world.tokens[0], world.tokens[1], "recycle must reuse the group token");
}

#[test]
fn reset_clears_the_draining_generation() {
    let mut world = World::new(false);
    let (old, _stream) = world.connect(here());
    let (new, _) = world.recycle_to(here());
    assert_eq!(world.connector.reset_addr(here()), None, "the old generation drains");
    let reset = world.connector.reset();
    assert_eq!(reset.kill, vec![new, old]);
    assert!(world.connector.reset_addr(here()).is_some(), "reset left a draining entry");
}

#[test]
fn reoptimize_without_explorer_data_never_redials() {
    let mut world = World::new(false);
    let (old, _stream) = world.connect(here());
    assert!(matches!(
        world.recycle(here(), RecycleTrigger::BetterPath),
        RecycleStep::Declined(MigrationVerdict::ActiveUnmeasured)
    ));
    assert_eq!(world.connector.probe_session(here()).unwrap().session, old);
    assert!(matches!(
        world.recycle(addr(5, 5), RecycleTrigger::Forced),
        RecycleStep::NoSession
    ));
}

#[test]
fn a_better_path_is_dialed_over_the_candidate_that_was_probed() {
    let mut world = World::new(true);
    world.connect(here());
    let mut explorer = world.connector.take_explorer(here()).unwrap();
    explorer.minted(Some((7, addr(9, 1))), world.now, 0);
    explorer.set_active(Some(8), addr(9, 2), world.now, 0);
    let averages = Averages { rtt: 5, loss: 0 };
    for _ in 0..MIN_SAMPLES {
        explorer.candidates[0].stats.record(Some(5), averages);
        explorer.active.as_mut().unwrap().stats.record(Some(5), averages);
    }
    world.connector.put_explorer(here(), explorer);
    match world.recycle(here(), RecycleTrigger::BetterPath) {
        RecycleStep::Dial(plan) => {
            let candidate = plan.candidate.expect("the candidate is measured");
            assert_eq!((candidate.io, candidate.local_addr), (7, addr(9, 1)));
            assert_eq!(candidate.score.rtt, 5);
        }
        step => panic!("{step:?}"),
    }
    let (_, _, _) = world.land(here(), true);
    assert!(world.connector.explorer_report(here()).active.is_none());
    assert_eq!(world.connector.explorer_wakeup(world.now), Some(world.now));
    assert_eq!(world.connector.explored_addrs(), vec![here()]);
}

#[test]
fn dial_failure_preserves_the_error_kind_across_retries() {
    let mut dial = DualConnect::new();
    let error = IoError::new(ErrorKind::ConnectionRefused, "synthetic dial failure");
    assert!(dial.inherits_socket());
    for pause in [25_000_000, 50_000_000] {
        assert!(matches!(
            dial.failed(&error, 1_000_000, 0),
            RetryStep::Retry { pause: p } if p == pause
        ));
        assert!(!dial.inherits_socket());
    }
    match dial.failed(&error, 2_000_000, 80_000_000) {
        RetryStep::GiveUp(error) => {
            assert_eq!(error.kind(), ErrorKind::ConnectionRefused);
            assert_eq!(
                error.message,
                "RTP mux dual-lane birth failed after 3 attempts in 80 ms: \
                 attempt=1, elapsed_ms=1, error=synthetic dial failure; \
                 attempt=2, elapsed_ms=1, error=synthetic dial failure; \
                 attempt=3, elapsed_ms=2, error=synthetic dial failure"
            );
        }
        step => panic!("{step:?}"),
    }
}

#[test]
fn a_recycle_onto_a_dead_session_leaves_streams_where_they_are() {
    let mut world = World::new(false);
    let (old, stream) = world.connect(here());
    assert_eq!(world.track(stream.stream), None);
    assert!(matches!(world.recycle(here(), RecycleTrigger::Forced), RecycleStep::Dial(_)));
    let (_dead, moved, _) = world.land(here(), false);
    assert!(moved.is_empty(), "a live stream was repointed at a dead session");
    assert_eq!(world.live(old), Some(1));
    assert!(world.connector.table().session(old).unwrap().successor.is_none());
    let mut other = World::new(false);
    let (old, stream) = other.connect(here());
    other.track(stream.stream);
    let (new, moved) = other.recycle_to(here());
    assert_eq!(moved, vec![stream.stream]);
    assert_eq!(other.live(new), Some(1));
    assert_eq!(other.live(old), None);
}

#[test]
fn a_late_tracked_stream_skips_a_successor_that_has_died() {
    let mut world = World::new(false);
    let (old, stream) = world.connect(here());
    let (new, _) = world.recycle_to(here());
    world.alive.retain(|session| *session != new);
    assert_eq!(world.track(stream.stream), None, "the stream was repointed at a dead successor");
    assert_eq!(world.live(old), Some(1));
    assert_eq!(world.live(new), Some(0));
}

#[test]
fn a_stream_registering_during_the_drain_is_not_stranded() {
    let mut world = World::new(false);
    let (old, stream) = world.connect(here());
    let (new, _) = world.recycle_to(here());
    assert_eq!(world.track(stream.stream), Some(new));
    assert_eq!(world.live(new), Some(1));
    assert_eq!(world.live(old), None);
}

#[test]
fn a_stream_whose_writer_is_gone_stays_where_it_is() {
    let mut world = World::new(false);
    let (old, stream) = world.connect(here());
    world.track(stream.stream);
    world.writers.clear();
    let (new, moved) = world.recycle_to(here());
    assert!(moved.is_empty());
    assert_eq!(world.live(old), Some(1));
    assert_eq!(world.live(new), Some(0));
}

#[test]
fn a_probe_looks_at_a_session_without_keeping_it() {
    let mut world = World::new(false);
    let (session, stream) = world.connect(here());
    let probe = world.connector.probe_session(here()).unwrap();
    assert!(probe.is_alive(world.connector.table()));
    assert_eq!(probe.id(), world.connector.table().session(session).unwrap().id);
    let stats = probe
        .stats(world.connector.table(), &SessionByteCounters::new(), world.now + 5)
        .unwrap();
    assert_eq!((stats.live_streams, stats.opened_streams, stats.uptime), (1, 1, 5));
    world.close(stream.stream);
    world.connector.session_ended(here(), session);
    assert!(!probe.is_alive(world.connector.table()));
    assert_eq!(probe.live_streams(world.connector.table()), None);
    assert!(!world.connector.session_ended(here(), session), "it is gone already");
}

#[test]
fn opened_streams_have_random_numbers_and_the_addresses_of_their_session() {
    let mut world = World::new(false);
    let (session, first) = world.connect(here());
    assert_eq!(first.addr.peer_addr, here());
    let mut differs = false;
    for _ in 0..8 {
        differs |= world.open_stream(session).logical_id != first.logical_id;
    }
    assert!(differs, "nine streams in a row had the same number");
    assert_eq!(first.into_stream().addr(), first.addr);
}

#[test]
fn lanes_are_planned_and_births_judged() {
    let bind = SocketAddr::V6 { ip: 4, port: 5, flowinfo: 6, scope_id: 7 };
    let plan = plan_lanes(here(), bind, Ok(addr(1, 50_001)), false).unwrap();
    assert_eq!(plan.interactive_bind, Some(bind));
    assert_eq!(plan.interactive_addr, here());
    assert_eq!(plan.bulk_bind, SocketAddr::V6 { ip: 4, port: 0, flowinfo: 0, scope_id: 0 });
    assert_eq!(plan.bulk_addr, addr(1, 50_001));
    assert_eq!(plan_lanes(here(), bind, Ok(here()), true).unwrap().interactive_bind, None);
    let error = IoError::new(ErrorKind::InvalidInput, "no bulk lane");
    assert_eq!(plan_lanes(here(), bind, Err(error), true).unwrap_err().message, "no bulk lane");

    let failure = hello_failed(LaneClass::Interactive, "Eof");
    assert!(!failure.kill_interactive);
    assert_eq!(failure.error.message, "interactive lane hello: Eof");
    let failure = hello_failed(LaneClass::Bulk, "Eof");
    assert!(failure.kill_interactive);
    assert_eq!(failure.error.message, "bulk lane hello: Eof");
    assert_eq!(failure.error.kind(), ErrorKind::Other);

    assert!(birth_outcome(BirthEvent::Ready { received: true }).is_ok());
    let ended = birth_outcome(BirthEvent::Ended("Down".to_string())).unwrap_err();
    assert_eq!(ended.message, "dual-lane birth liveness failed: Down");
    let closed = birth_outcome(BirthEvent::Ready { received: false }).unwrap_err();
    assert_eq!(closed.message, "dual-lane birth readiness channel closed");
    assert_eq!(closed.kind(), ErrorKind::BrokenPipe);
    let late = birth_outcome(BirthEvent::DeadlineElapsed).unwrap_err();
    assert_eq!(late.kind(), ErrorKind::TimedOut);
    assert_eq!(late.message, "dual-lane birth liveness deadline exceeded");

    let end: SupervisorEnd<u8, u16> = dual_supervisor_result(Some(Ok(1)));
    assert!(matches!(end, SupervisorEnd::Error(1)));
    let end: SupervisorEnd<u8, u16> = dual_supervisor_result(Some(Err(2)));
    assert!(matches!(end, SupervisorEnd::Join { task: "dual_lane", source: 2 }));
    let end: SupervisorEnd<u8, u16> = dual_supervisor_result(None);
    assert!(matches!(end, SupervisorEnd::Stopped { task: "dual_lane" }));
}

fn attempt() -> DualLaneBirth<PairingNonce, GroupToken> {
    let plan = plan_lanes(here(), addr(7, 9), Ok(addr(1, 50_001)), false).unwrap();
    DualLaneBirth::new(plan, PairingNonce { bits: 11 }, GroupToken { bits: 22 })
}

fn connected(port: u16) -> BirthResult {
    BirthResult::Connected { local_addr: addr(7, port) }
}

#[test]
fn an_attempt_connects_both_lanes_says_both_hellos_and_watches_the_session() {
    let mut birth = attempt();
    match birth.advance(connected(4_001)) {
        BirthStep::ConnectBulk { bind, addr: to } => {
            assert_eq!((bind, to), (addr(7, 0), addr(1, 50_001)))
        }
        step => panic!("{step:?}"),
    }
    assert!(matches!(
        birth.advance(connected(4_002)),
        BirthStep::WriteHello { lane: LaneClass::Interactive, .. }
    ));
    assert!(matches!(
        birth.advance(BirthResult::HelloWritten),
        BirthStep::WriteHello { lane: LaneClass::Bulk, .. }
    ));
    let mut unheard = birth;
    match unheard.advance(BirthResult::HelloFailed("Eof".to_string())) {
        BirthStep::Failed(failure) => {
            assert!(failure.kill_interactive);
            assert_eq!(failure.error.message, "bulk lane hello: Eof");
        }
        step => panic!("{step:?}"),
    }
    assert!(matches!(
        birth.advance(BirthResult::HelloWritten),
        BirthStep::Watch { deadline: 2_750_000_000 }
    ));
    let mut late = birth;
    match late.advance(BirthResult::Seen(BirthEvent::DeadlineElapsed)) {
        BirthStep::Failed(failure) => assert_eq!(failure.error.kind(), ErrorKind::TimedOut),
        step => panic!("{step:?}"),
    }
    assert!(matches!(
        birth.advance(BirthResult::Seen(BirthEvent::Ready { received: true })),
        BirthStep::Born { .. }
    ));
    let error = IoError::new(ErrorKind::AddrInUse, "in use");
    match attempt().advance(BirthResult::ConnectFailed(error)) {
        BirthStep::Failed(failure) => assert_eq!(failure.error.kind(), ErrorKind::AddrInUse),
        step => panic!("{step:?}"),
    }
    let mut unplugged = attempt();
    unplugged.advance(connected(4_001));
    let error = IoError::new(ErrorKind::NetworkDown, "down");
    match unplugged.advance(BirthResult::ConnectFailed(error)) {
        BirthStep::Failed(failure) => {
            assert!(!failure.kill_interactive);
            assert_eq!(failure.error.kind(), ErrorKind::NetworkDown);
        }
        step => panic!("{step:?}"),
    }
}

#[test]
fn both_hellos_carry_one_nonce_and_group_and_the_session_is_where_its_interactive_lane_is() {
    let mut birth = attempt();
    birth.advance(connected(4_001));
    let mut hellos = Vec::new();
    for result in [connected(4_002), BirthResult::HelloWritten] {
        match birth.advance(result) {
            BirthStep::WriteHello { lane, nonce, group } => hellos.push((lane, nonce, group)),
            step => panic!("{step:?}"),
        }
    }
    let (nonce, group) = (PairingNonce { bits: 11 }, GroupToken { bits: 22 });
    assert_eq!(
        hellos,
        vec![(LaneClass::Interactive, nonce, group), (LaneClass::Bulk, nonce, group)]
    );
    birth.advance(BirthResult::HelloWritten);
    match birth.advance(BirthResult::Seen(BirthEvent::Ready { received: true })) {
        BirthStep::Born { local_addr } => assert_eq!(local_addr, addr(7, 4_001)),
        step => panic!("{step:?}"),
    }
}

#[test]
fn sessions_linger_unless_they_are_killed() {
    assert_eq!(session_linger(true), 0);
    assert_eq!(session_linger(false), SESSION_LINGER);
    assert_eq!(RecycleTrigger::Forced.as_str(), "forced");
    assert_eq!(RecycleTrigger::BetterPath.as_str(), "better_path");
}
