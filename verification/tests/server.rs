use rtp_mux::accept_error::AcceptErrorBackoff;
use rtp_mux::addr::{SocketAddr, SocketAddrPair};
use rtp_mux::admission::{PendingLane, PendingLaneRegistry, PreparedLane};
use rtp_mux::error::{ErrorKind, IoError};
use rtp_mux::group::{NewDriver, SessionPairRegistry, Submission};
use rtp_mux::lane::{GroupToken, LaneClass, PairingNonce};
use rtp_mux::lane_rejection::{LaneRejectionClass, LaneRejectionLog, RejectedLaneContext};
use rtp_mux::server::{
    classify_lane_addrs, confirm_reservation_or_reject, handle_lane_accept, pair_lanes,
    record_expired_lane, reinsert_ready_lane_or_reject, serve_step, AcceptVerdict,
    BirthHeartbeatFailure, Farewell, Hello, LaneAccept, LaneStep, ServeError, ServeEvent,
    ServeStep,
};
use rtp_mux::shared::{MAX_PENDING_LANES_PER_PEER, PAIRING_DEADLINE};

type Registry = PendingLaneRegistry<&'static str, u8>;
type Groups = SessionPairRegistry<u32, u32, ()>;
type Step = LaneStep<&'static str, u8>;

const MILLI: u64 = 1_000_000;

fn peer() -> SocketAddr {
    SocketAddr::V4 { ip: 0x0a00_0001, port: 1000 }
}

fn local(port: u16) -> SocketAddr {
    SocketAddr::V4 { ip: 0x0a00_0002, port }
}

fn nonce() -> PairingNonce {
    PairingNonce { bits: 77 }
}

fn group() -> GroupToken {
    GroupToken { bits: 88 }
}

struct World {
    registry: Registry,
    groups: Groups,
    rejections: LaneRejectionLog,
}

impl World {
    fn new() -> Self {
        World {
            registry: Registry::new(),
            groups: Groups::new(),
            rejections: LaneRejectionLog::new(),
        }
    }

    fn accept(&mut self, class: LaneClass) -> LaneAccept<&'static str> {
        let port = match class {
            LaneClass::Interactive => 2000,
            LaneClass::Bulk => 2001,
        };
        LaneAccept::admit_lane(&mut self.registry, &mut self.rejections, peer(), local(port), class)
            .expect("there is room")
    }

    fn hello(&mut self, lane: &mut LaneAccept<&'static str>, hello: Hello) -> Step {
        lane.hello(hello, 3 * MILLI, &mut self.registry, &self.groups, 9, 1_000)
    }

    fn say(&mut self, lane: &mut LaneAccept<&'static str>) -> Step {
        let class = lane.expected_class;
        self.hello(lane, Hello::Read { class, nonce: nonce(), group: group() })
    }

    fn beat(
        &mut self,
        lane: &mut LaneAccept<&'static str>,
        result: Result<(), BirthHeartbeatFailure>,
    ) -> Step {
        lane.heartbeat(result, 4 * MILLI, &mut self.registry, &mut self.rejections)
    }

    fn build(&mut self, lane: &mut LaneAccept<&'static str>, handle: &'static str) -> Step {
        lane.built(handle, 5 * MILLI, &mut self.registry, &mut self.rejections)
    }

    /// The rejection that a step turns a lane away with, once it is recorded.
    fn reject(
        &mut self,
        lane: &mut LaneAccept<&'static str>,
        step: Step,
    ) -> (Farewell, LaneRejectionClass, String) {
        match step {
            LaneStep::Reject { farewell, context, elapsed } => {
                let class = context.class;
                let before = self.rejections.recorded(class);
                lane.rejected(context, elapsed, &mut self.registry, &mut self.rejections);
                assert_eq!(self.rejections.recorded(class), before + 1);
                assert!(lane.permit.is_none());
                let last = self.rejections.last.as_ref().unwrap();
                assert_eq!(last.peer, peer());
                assert_eq!(last.expected_class, Some(lane.expected_class));
                (farewell, class, last.reason.clone())
            }
            other => panic!("not rejected: {other:?}"),
        }
    }
}

#[test]
fn canonical_server_address_is_independent_of_lane_arrival_order() {
    let int_peer = SocketAddr::V4 { ip: 0x0a00_0001, port: 1000 };
    let int_local = SocketAddr::V4 { ip: 0x0a00_0002, port: 2000 };
    let bulk_peer = SocketAddr::V4 { ip: 0x0a00_0001, port: 1001 };
    let bulk_local = SocketAddr::V4 { ip: 0x0a00_0002, port: 2001 };
    let first =
        classify_lane_addrs(LaneClass::Interactive, int_peer, int_local, bulk_peer, bulk_local);
    assert_eq!(first.interactive_peer, int_peer);
    assert_eq!(first.interactive_local, int_local);
    assert_eq!(first.bulk_peer, bulk_peer);
    assert_eq!(first.bulk_local, bulk_local);
    let second = classify_lane_addrs(LaneClass::Bulk, bulk_peer, bulk_local, int_peer, int_local);
    assert_eq!(second, first);
}

#[test]
fn two_lanes_pair_and_give_their_permits_back() {
    let mut world = World::new();
    let mut first = world.accept(LaneClass::Bulk);
    assert!(matches!(world.say(&mut first), LaneStep::Heartbeat));
    assert!(matches!(world.beat(&mut first, Ok(())), LaneStep::Build));
    assert!(matches!(world.build(&mut first, "bulk"), LaneStep::Ready(9)));
    let mut second = world.accept(LaneClass::Interactive);
    assert_eq!(world.registry.admitted(), 2);
    assert!(matches!(world.say(&mut second), LaneStep::Heartbeat));
    assert!(matches!(world.beat(&mut second, Ok(())), LaneStep::Build));
    let (lane, other) = match world.build(&mut second, "interactive") {
        LaneStep::Pair { lane, other } => (lane, other),
        step => panic!("no pair: {step:?}"),
    };
    let pair = pair_lanes(&mut world.registry, lane, other);
    assert_eq!((pair.lane_a, pair.lane_b), ("interactive", "bulk"));
    assert_eq!(
        pair.addr,
        SocketAddrPair { local_addr: local(2000), peer_addr: peer() }
    );
    assert_eq!(pair.addrs.bulk_local, local(2001));
    assert_eq!(pair.group, group());
    assert_eq!(world.registry.admitted(), 0);
    assert_eq!(world.rejections.total, 0);
}

#[test]
fn a_lane_that_waits_is_paired_once_its_partner_is_built() {
    let mut world = World::new();
    let mut first = world.accept(LaneClass::Interactive);
    world.say(&mut first);
    let mut second = world.accept(LaneClass::Bulk);
    assert!(matches!(world.say(&mut second), LaneStep::Heartbeat));
    let expected = 1_000 + PAIRING_DEADLINE;
    assert!(matches!(
        world.beat(&mut second, Ok(())),
        LaneStep::AwaitPair { expires_at } if expires_at == expected
    ));
    let step: Step = second.poll_pair(false, 0, &mut world.registry, 2_000);
    assert!(matches!(step, LaneStep::AwaitPair { .. }));
    world.beat(&mut first, Ok(()));
    world.build(&mut first, "first");
    let step: Step = second.poll_pair(false, 0, &mut world.registry, 2_000);
    assert!(matches!(step, LaneStep::Build));
    assert!(matches!(
        world.build(&mut second, "second"),
        LaneStep::Pair { lane, other } if lane.handle == "second" && other.handle == "first"
    ));
}

#[test]
fn every_refused_hello_is_recorded_with_its_reason_and_frees_its_permit() {
    let mut world = World::new();
    let mut lane = world.accept(LaneClass::Interactive);
    let step = world.hello(&mut lane, Hello::TimedOut);
    assert_eq!(world.registry.admitted(), 1, "the permit is held until the lane is recorded");
    assert_eq!(
        world.reject(&mut lane, step),
        (
            Farewell::Drop,
            LaneRejectionClass::HelloTimeout,
            "hello deadline elapsed; elapsed_ms=3".to_string()
        )
    );
    assert_eq!(world.registry.admitted(), 0);

    let mut lane = world.accept(LaneClass::Interactive);
    let step = world.hello(&mut lane, Hello::Unreadable("Eof".to_string()));
    assert_eq!(world.registry.admitted(), 0, "the permit goes back before the peer is told");
    assert_eq!(
        world.reject(&mut lane, step),
        (
            Farewell::Kill,
            LaneRejectionClass::HelloParse,
            "hello read/parse error: Eof; elapsed_ms=3".to_string()
        )
    );

    let mut lane = world.accept(LaneClass::Interactive);
    let step = world.hello(
        &mut lane,
        Hello::Read { class: LaneClass::Bulk, nonce: nonce(), group: group() },
    );
    assert_eq!(
        world.reject(&mut lane, step),
        (
            Farewell::Kill,
            LaneRejectionClass::ClassMismatch,
            "lane class mismatch: got Bulk; elapsed_ms=3".to_string()
        )
    );

    for opener in [1, 2] {
        let driver = NewDriver { submission: Submission::Accepted, feed: () };
        world
            .groups
            .join(group(), opener, true, &Vec::new(), Some(driver))
            .unwrap();
    }
    let mut lane = world.accept(LaneClass::Bulk);
    let step = world.say(&mut lane);
    assert_eq!(
        world.reject(&mut lane, step),
        (
            Farewell::Kill,
            LaneRejectionClass::GroupFull,
            "session group is full; elapsed_ms=3".to_string()
        )
    );
    assert_eq!(world.registry.admitted(), 0);
    assert_eq!(world.registry.next_expiry(), None);
}

#[test]
fn a_lane_that_does_not_fit_its_nonce_is_turned_away() {
    let mut world = World::new();
    let mut first = world.accept(LaneClass::Interactive);
    world.say(&mut first);
    let mut twin = world.accept(LaneClass::Interactive);
    let step = world.say(&mut twin);
    assert_eq!(
        world.reject(&mut twin, step),
        (
            Farewell::Kill,
            LaneRejectionClass::Admission,
            "duplicate lane class for pairing nonce; elapsed_ms=3".to_string()
        )
    );
    assert_eq!(world.registry.admitted(), 1);
}

#[test]
fn a_lane_beyond_the_capacity_is_recorded_and_not_admitted() {
    let mut world = World::new();
    for _ in 0..MAX_PENDING_LANES_PER_PEER {
        world.accept(LaneClass::Bulk);
    }
    let refused = LaneAccept::admit_lane(
        &mut world.registry,
        &mut world.rejections,
        peer(),
        local(2001),
        LaneClass::Bulk,
    );
    assert!(refused.is_none());
    assert_eq!(world.rejections.recorded(LaneRejectionClass::Capacity), 1);
    assert_eq!(
        world.rejections.last.unwrap().reason,
        "per-peer pending lane capacity exhausted"
    );
}

#[test]
fn a_failed_birth_heartbeat_gives_up_what_the_lane_holds() {
    let mut world = World::new();
    let mut first = world.accept(LaneClass::Interactive);
    world.say(&mut first);
    let mut waiting = world.accept(LaneClass::Bulk);
    world.say(&mut waiting);
    let step = world.beat(
        &mut waiting,
        Err(BirthHeartbeatFailure::Timeout { elapsed: 5_000 * MILLI }),
    );
    assert_eq!(
        world.reject(&mut waiting, step),
        (
            Farewell::Drop,
            LaneRejectionClass::BirthHeartbeat,
            "birth heartbeat failed while waiting: deadline elapsed; elapsed_ms=5000".to_string()
        )
    );
    let step = world.beat(
        &mut first,
        Err(BirthHeartbeatFailure::Io { source: "broken pipe".to_string(), elapsed: 1 }),
    );
    assert_eq!(
        world.reject(&mut first, step),
        (
            Farewell::Kill,
            LaneRejectionClass::BirthHeartbeat,
            "birth heartbeat failed after reservation: broken pipe; elapsed_ms=0".to_string()
        )
    );
    assert_eq!(world.registry.admitted(), 0);
    assert_eq!(world.registry.next_expiry(), None);
}

#[test]
fn a_partner_is_restored_when_the_lane_that_took_it_fails() {
    let mut world = World::new();
    let mut first = world.accept(LaneClass::Interactive);
    world.say(&mut first);
    world.beat(&mut first, Ok(()));
    world.build(&mut first, "first");
    let mut second = world.accept(LaneClass::Bulk);
    world.say(&mut second);
    assert_eq!(world.registry.next_expiry(), None, "the partner has been taken out");
    let step = world.beat(
        &mut second,
        Err(BirthHeartbeatFailure::Io { source: "gone".to_string(), elapsed: 2 * MILLI }),
    );
    assert_eq!(
        world.reject(&mut second, step).2,
        "birth heartbeat failed before pairing: gone; elapsed_ms=2"
    );
    assert_eq!(world.registry.next_expiry(), Some(1_000 + PAIRING_DEADLINE));
    assert_eq!(world.registry.admitted(), 1);
}

#[test]
fn a_waiting_lane_is_told_when_time_is_up_or_its_partner_is_lost() {
    let mut world = World::new();
    let mut first = world.accept(LaneClass::Interactive);
    world.say(&mut first);
    let mut second = world.accept(LaneClass::Bulk);
    world.say(&mut second);
    world.beat(&mut second, Ok(()));
    let step = second.poll_pair(true, 9 * MILLI, &mut world.registry, 2_000);
    assert_eq!(
        world.reject(&mut second, step),
        (
            Farewell::Kill,
            LaneRejectionClass::PairingTimeout,
            "pairing deadline expired while waiting; elapsed_ms=9".to_string()
        )
    );
    let mut third = world.accept(LaneClass::Bulk);
    world.say(&mut third);
    world.beat(&mut third, Ok(()));
    world.registry.cancel_reservation(nonce(), peer(), LaneClass::Interactive);
    let step = third.poll_pair(false, 9 * MILLI, &mut world.registry, 2_000);
    assert_eq!(
        world.reject(&mut third, step),
        (
            Farewell::Kill,
            LaneRejectionClass::ReservationLost,
            "pairing reservation disappeared; elapsed_ms=9".to_string()
        )
    );
    assert_eq!(world.registry.admitted(), 0);
}

#[test]
fn a_partner_that_cannot_be_restored_is_recorded_not_silently_dropped() {
    let mut world = World::new();
    let mut first = world.accept(LaneClass::Bulk);
    world.say(&mut first);
    let permit = world.registry.try_admit(peer().ip()).unwrap();
    let lost = PendingLane {
        class: LaneClass::Interactive,
        peer: peer(),
        local_addr: local(2000),
        group: group(),
        permit,
        handle: "lost",
    };
    assert_eq!(world.registry.admitted(), 2);
    reinsert_ready_lane_or_reject(
        &mut world.registry,
        &mut world.rejections,
        nonce(),
        lost,
        1_000_000,
        MILLI,
    );
    assert_eq!(world.rejections.recorded(LaneRejectionClass::ReservationLost), 1);
    assert_eq!(world.registry.admitted(), 1);
}

#[test]
fn a_lane_whose_reservation_vanished_is_recorded_not_silently_dropped() {
    let mut world = World::new();
    let lane = PreparedLane {
        class: LaneClass::Interactive,
        peer: peer(),
        local_addr: local(2000),
        handle: "built",
    };
    let woken = confirm_reservation_or_reject(
        &mut world.registry,
        &mut world.rejections,
        nonce(),
        lane,
        LaneClass::Interactive,
        MILLI,
    );
    assert!(woken.is_none());
    assert_eq!(world.rejections.recorded(LaneRejectionClass::ReservationLost), 1);
    assert_eq!(
        world.rejections.last.unwrap().reason,
        "reservation vanished before the built lane could claim it; elapsed_ms=1"
    );
}

#[test]
fn expired_lanes_are_recorded_and_give_their_permits_back() {
    let mut world = World::new();
    let mut ready = world.accept(LaneClass::Interactive);
    world.say(&mut ready);
    world.beat(&mut ready, Ok(()));
    world.build(&mut ready, "ready");
    let mut building = world.accept(LaneClass::Bulk);
    let other = PairingNonce { bits: 78 };
    world.hello(
        &mut building,
        Hello::Read { class: LaneClass::Bulk, nonce: other, group: group() },
    );
    let mut closed = Vec::new();
    let mut reasons = Vec::new();
    for expired in world.registry.expire(1_000 + PAIRING_DEADLINE) {
        closed.push(record_expired_lane(
            &mut world.registry,
            &mut world.rejections,
            expired,
            "n",
        ));
        reasons.push(world.rejections.last.as_ref().unwrap().reason.clone());
    }
    assert_eq!(closed, vec![Some("ready"), None]);
    assert_eq!(
        reasons,
        vec![
            "pairing deadline expired; nonce=n",
            "pairing deadline expired while preparing lane; nonce=n"
        ]
    );
    assert_eq!(world.rejections.recorded(LaneRejectionClass::PairingTimeout), 2);
    assert_eq!(world.registry.admitted(), 0);
}

#[test]
fn a_lane_whose_birth_heartbeat_times_out_is_dropped_without_a_farewell() {
    let mut world = World::new();
    let mut lane = world.accept(LaneClass::Interactive);
    world.say(&mut lane);
    let step = world.beat(&mut lane, Err(BirthHeartbeatFailure::Timeout { elapsed: MILLI }));
    assert!(matches!(step, LaneStep::Reject { farewell: Farewell::Drop, .. }));
}

#[test]
fn a_listener_retries_until_an_error_is_fatal() {
    let mut backoff = AcceptErrorBackoff::new();
    let addr = local(2000);
    for n in 1..=3u64 {
        let verdict: AcceptVerdict<()> = handle_lane_accept(
            Err(IoError::new(ErrorKind::ConnectionAborted, "aborted")),
            &mut backoff,
            addr,
            n,
        );
        let (want_delay, want_warn) = if n < 3 { (0, false) } else { (MILLI, true) };
        assert!(matches!(
            verdict,
            AcceptVerdict::Retry { delay, warn } if delay == want_delay && warn == want_warn
        ));
    }
    let verdict = handle_lane_accept(Ok("lane"), &mut backoff, addr, 4);
    assert!(matches!(verdict, AcceptVerdict::Lane { stream: "lane", recovered: true }));
    let verdict: AcceptVerdict<()> = handle_lane_accept(
        Err(IoError::new(ErrorKind::PermissionDenied, "denied")),
        &mut backoff,
        addr,
        5,
    );
    match verdict {
        AcceptVerdict::Fail { error, warn: true } => assert_eq!(
            error.message("10.0.0.2:2000"),
            "Failed to accept connection: denied, 10.0.0.2:2000"
        ),
        other => panic!("{other:?}"),
    }
}

#[test]
fn a_server_stops_with_its_expiry_worker_and_logs_on_time() {
    let addr = local(2000);
    match serve_step(ServeEvent::ExpiryWorkerEnded, addr) {
        ServeStep::Fail(error) => {
            assert!(matches!(error, ServeError::ExpiryWorkerStopped { addr: at } if at == addr));
            assert_eq!(
                error.message("10.0.0.2:2000"),
                "Pending-lane expiry worker terminated unexpectedly; addr=10.0.0.2:2000"
            );
        }
        other => panic!("{other:?}"),
    }
    assert!(matches!(serve_step(ServeEvent::LogTick, addr), ServeStep::Flush));
    assert!(matches!(serve_step(ServeEvent::Panicked, addr), ServeStep::Resume));
    assert!(matches!(serve_step(ServeEvent::MuxFailed, addr), ServeStep::Warn));
    assert!(matches!(serve_step(ServeEvent::Cancelled, addr), ServeStep::Continue));
    assert!(matches!(serve_step(ServeEvent::LaneAcceptStopped, addr), ServeStep::Continue));
}

#[test]
fn a_recorded_rejection_says_how_long_the_lane_had_been_at_it() {
    let mut log = LaneRejectionLog::new();
    rtp_mux::server::record_rejected_lane(
        &mut log,
        RejectedLaneContext {
            class: LaneRejectionClass::Admission,
            peer: peer(),
            local_addr: local(1),
            expected_class: None,
            reason: "why".to_string(),
        },
        12_345 * MILLI + 999_999,
    );
    assert_eq!(log.last.unwrap().reason, "why; elapsed_ms=12345");
}
