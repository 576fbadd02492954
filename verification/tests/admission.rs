use rtp_mux::addr::{IpAddr, SocketAddr};
use rtp_mux::admission::{
    ExpiredPendingLane, PairingPoll, PendingLane, PendingLaneAdmission, PendingLanePermit,
    PendingLaneRegistry, PendingLaneWait, PreparedLane,
};
use rtp_mux::lane::{GroupToken, LaneClass, PairingNonce};
use rtp_mux::shared::{MAX_PENDING_LANES, MAX_PENDING_LANES_PER_PEER, PAIRING_DEADLINE};
use tokio::sync::watch;

type Registry = PendingLaneRegistry<&'static str, watch::Sender<u64>>;

const LOCALHOST: u32 = 0x7f00_0001;

fn v4(ip: u32, port: u16) -> SocketAddr {
    SocketAddr::V4 { ip, port }
}

fn peer() -> SocketAddr {
    v4(LOCALHOST, 1000)
}

fn local() -> SocketAddr {
    v4(LOCALHOST, 2000)
}

fn nonce(bits: u128) -> PairingNonce {
    PairingNonce { bits }
}

fn group(bits: u128) -> GroupToken {
    GroupToken { bits }
}

fn permit(registry: &mut Registry, peer: SocketAddr) -> Option<PendingLanePermit> {
    Some(registry.try_admit(peer.ip()).unwrap())
}

fn register(
    registry: &mut Registry,
    nonce: PairingNonce,
    class: LaneClass,
    peer: SocketAddr,
    group: GroupToken,
    permit: &mut Option<PendingLanePermit>,
) -> PendingLaneAdmission<&'static str> {
    registry.register_admitted(
        nonce,
        class,
        peer,
        local(),
        group,
        permit,
        watch::channel(0).0,
        1_000,
    )
}

fn ready(registry: &mut Registry, bits: u128) -> PairingNonce {
    let mut first = permit(registry, peer());
    let admission = register(
        registry,
        nonce(bits),
        LaneClass::Interactive,
        peer(),
        group(1),
        &mut first,
    );
    assert!(matches!(admission, PendingLaneAdmission::Reserved));
    let lane = PreparedLane {
        class: LaneClass::Interactive,
        peer: peer(),
        local_addr: local(),
        handle: "built",
    };
    assert!(registry.confirm_reservation(nonce(bits), lane).is_ok());
    nonce(bits)
}

#[test]
fn reinsert_ready_lane_hands_back_the_lane_it_cannot_restore() {
    let mut registry = Registry::new();
    let mut first = permit(&mut registry, peer());
    register(&mut registry, nonce(1), LaneClass::Bulk, peer(), group(1), &mut first);
    let own = registry.try_admit(peer().ip()).unwrap();
    let restored = registry.reinsert_ready_lane(
        nonce(1),
        PendingLane {
            class: LaneClass::Interactive,
            peer: peer(),
            local_addr: local(),
            group: group(2),
            permit: own,
            handle: "lost",
        },
        2_000,
    );
    assert_eq!(restored.expect_err("the nonce is taken").handle, "lost");
}

#[test]
fn pending_lane_registry_try_admit_within_limits() {
    let mut registry = Registry::new();
    assert!(registry.try_admit(IpAddr::V4(LOCALHOST)).is_ok());
}

#[test]
fn pending_lane_registry_permit_releases_slot_on_drop() {
    let mut registry = Registry::new();
    let ip = IpAddr::V4(LOCALHOST);
    let first = registry.try_admit(ip).unwrap();
    registry.release(first);
    assert!(registry.try_admit(ip).is_ok());
}

#[test]
fn pending_lane_registry_permit_drop_releases_global_and_per_peer() {
    let mut registry = Registry::new();
    let ip = IpAddr::V4(LOCALHOST);
    let permit = registry.try_admit(ip).unwrap();
    assert_eq!(registry.admitted(), 1);
    assert_eq!(registry.pending_of(ip), 1);
    registry.release(permit);
    assert_eq!(registry.admitted(), 0);
    assert_eq!(registry.pending_of(ip), 0);
}

#[test]
fn pending_lane_registry_enforces_per_peer_limit() {
    let mut registry = Registry::new();
    let ip = IpAddr::V4(LOCALHOST);
    for _ in 0..MAX_PENDING_LANES_PER_PEER {
        registry.try_admit(ip).unwrap();
    }
    assert_eq!(
        registry.try_admit(ip).expect_err("the peer is at its limit"),
        "per-peer pending lane capacity exhausted"
    );
    assert!(registry.try_admit(IpAddr::V4(LOCALHOST + 1)).is_ok());
}

#[test]
fn the_total_limit_is_enforced_over_all_peers() {
    let mut registry = Registry::new();
    for n in 0..MAX_PENDING_LANES {
        registry.try_admit(IpAddr::V6(n as u128)).unwrap();
    }
    assert_eq!(
        registry.try_admit(IpAddr::V4(LOCALHOST)).expect_err("all slots are taken"),
        "total pending lane capacity exhausted"
    );
    assert_eq!(registry.admitted(), MAX_PENDING_LANES);
}

#[test]
fn pending_lane_registry_duplicate_class_rejection() {
    let mut registry = Registry::new();
    let mut first = permit(&mut registry, peer());
    let admission = register(
        &mut registry,
        nonce(1),
        LaneClass::Interactive,
        peer(),
        group(1),
        &mut first,
    );
    assert!(matches!(admission, PendingLaneAdmission::Reserved));
    assert!(first.is_none());
    let mut second = permit(&mut registry, peer());
    let admission = register(
        &mut registry,
        nonce(1),
        LaneClass::Interactive,
        peer(),
        group(1),
        &mut second,
    );
    assert!(matches!(
        admission,
        PendingLaneAdmission::Reject("duplicate lane class for pairing nonce")
    ));
    assert!(second.is_some());
}

#[test]
fn pending_lane_registry_foreign_peer_rejection() {
    let mut registry = Registry::new();
    let peer2 = v4(0xc0a8_0001, 1000);
    let mut first = permit(&mut registry, peer());
    assert!(matches!(
        register(&mut registry, nonce(1), LaneClass::Interactive, peer(), group(1), &mut first),
        PendingLaneAdmission::Reserved
    ));
    let mut second = permit(&mut registry, peer2);
    let admission =
        register(&mut registry, nonce(1), LaneClass::Bulk, peer2, group(1), &mut second);
    assert!(matches!(
        admission,
        PendingLaneAdmission::Reject("pairing nonce peer mismatch")
    ));
    assert!(second.is_some());
}

#[test]
fn pending_lane_registry_pairing_is_not_blocked() {
    let mut registry = Registry::new();
    assert!(registry.try_admit(peer().ip()).is_ok());
}

#[test]
fn pending_lane_expiry_releases_per_peer_capacity() {
    let mut registry = Registry::new();
    let permit = registry.try_admit(IpAddr::V4(LOCALHOST)).unwrap();
    assert_eq!(registry.admitted(), 1);
    registry.release(permit);
    assert_eq!(registry.admitted(), 0);
}

#[test]
fn register_admitted_reject_duplicate_class() {
    let mut registry = Registry::new();
    let mut first = permit(&mut registry, peer());
    assert!(matches!(
        register(&mut registry, nonce(1), LaneClass::Interactive, peer(), group(1), &mut first),
        PendingLaneAdmission::Reserved
    ));
    let mut second = permit(&mut registry, peer());
    assert!(matches!(
        register(&mut registry, nonce(1), LaneClass::Interactive, peer(), group(1), &mut second),
        PendingLaneAdmission::Reject("duplicate lane class for pairing nonce")
    ));
}

#[test]
fn register_admitted_wait_for_opposite_class_while_building() {
    let mut registry = Registry::new();
    let mut first = permit(&mut registry, peer());
    register(&mut registry, nonce(1), LaneClass::Interactive, peer(), group(1), &mut first);
    let mut second = permit(&mut registry, peer());
    let admission =
        register(&mut registry, nonce(1), LaneClass::Bulk, peer(), group(1), &mut second);
    let expected = 1_000 + PAIRING_DEADLINE;
    assert!(
        matches!(admission, PendingLaneAdmission::Wait { expires_at } if expires_at == expected),
        "opposite class while Building should return Wait"
    );
}

#[test]
fn register_admitted_allows_replacement_waiter_after_first_waiter_is_dropped() {
    let mut registry = Registry::new();
    let mut first = permit(&mut registry, peer());
    register(&mut registry, nonce(1), LaneClass::Interactive, peer(), group(1), &mut first);
    let mut second = permit(&mut registry, peer());
    assert!(matches!(
        register(&mut registry, nonce(1), LaneClass::Bulk, peer(), group(1), &mut second),
        PendingLaneAdmission::Wait { .. }
    ));
    drop(registry.notifier(nonce(1)).unwrap().subscribe());
    let mut third = permit(&mut registry, peer());
    assert!(matches!(
        register(&mut registry, nonce(1), LaneClass::Bulk, peer(), group(1), &mut third),
        PendingLaneAdmission::Wait { .. }
    ));
}

#[test]
fn watch_waiter_observes_cancelled_reservation_without_readmitting() {
    let mut registry = Registry::new();
    let mut first = permit(&mut registry, peer());
    register(&mut registry, nonce(1), LaneClass::Interactive, peer(), group(1), &mut first);
    let mut second = permit(&mut registry, peer());
    let expires_at = match register(
        &mut registry,
        nonce(1),
        LaneClass::Bulk,
        peer(),
        group(1),
        &mut second,
    ) {
        PendingLaneAdmission::Wait { expires_at } => expires_at,
        _ => panic!("opposite lane did not enter the pairing wait"),
    };
    assert!(matches!(
        registry.pair_wait_step(nonce(1), LaneClass::Bulk, peer(), expires_at, 2_000),
        PairingPoll::Wait
    ));
    let cancelled = registry.cancel_reservation(nonce(1), peer(), LaneClass::Interactive);
    assert!(cancelled.is_some());
    assert!(matches!(
        registry.pair_wait_step(nonce(1), LaneClass::Bulk, peer(), expires_at, 2_000),
        PairingPoll::Done(PendingLaneWait::ReservationLost("pairing reservation disappeared"))
    ));
    assert!(second.is_some());
    assert_eq!(registry.admitted(), 1);
}

#[test]
fn watch_waiter_honors_pairing_deadline() {
    let mut registry = Registry::new();
    let mut first = permit(&mut registry, peer());
    register(&mut registry, nonce(1), LaneClass::Interactive, peer(), group(1), &mut first);
    assert!(matches!(
        registry.pair_wait_step(nonce(1), LaneClass::Bulk, peer(), 10, 9),
        PairingPoll::Wait
    ));
    assert!(matches!(
        registry.pair_wait_step(nonce(1), LaneClass::Bulk, peer(), 10, 10),
        PairingPoll::Done(PendingLaneWait::Timeout)
    ));
    assert!(matches!(
        registry.pair_wait_deadline(nonce(1), LaneClass::Bulk, peer(), 10, 9),
        PendingLaneWait::Timeout
    ));
}

#[test]
fn watch_notification_is_isolated_to_its_pairing_nonce() {
    let mut registry = Registry::new();
    let mut receivers = Vec::new();
    for bits in [1, 2] {
        let mut first = permit(&mut registry, peer());
        assert!(matches!(
            register(
                &mut registry,
                nonce(bits),
                LaneClass::Interactive,
                peer(),
                group(1),
                &mut first
            ),
            PendingLaneAdmission::Reserved
        ));
        let mut waiter = permit(&mut registry, peer());
        assert!(matches!(
            register(&mut registry, nonce(bits), LaneClass::Bulk, peer(), group(1), &mut waiter),
            PendingLaneAdmission::Wait { .. }
        ));
        receivers.push(registry.notifier(nonce(bits)).unwrap().subscribe());
    }
    drop(registry.cancel_reservation(nonce(1), peer(), LaneClass::Interactive));
    assert!(receivers[0].has_changed().is_err());
    assert!(matches!(receivers[1].has_changed(), Ok(false)));
}

#[test]
fn register_admitted_reject_foreign_peer() {
    let mut registry = Registry::new();
    let peer2 = v4(0xc0a8_0101, 1000);
    let mut first = permit(&mut registry, peer());
    register(&mut registry, nonce(1), LaneClass::Interactive, peer(), group(1), &mut first);
    let mut second = permit(&mut registry, peer2);
    assert!(matches!(
        register(&mut registry, nonce(1), LaneClass::Bulk, peer2, group(1), &mut second),
        PendingLaneAdmission::Reject("pairing nonce peer mismatch")
    ));
}

#[test]
fn ready_lane_rejects_foreign_peer_and_duplicate_class() {
    let mut registry = Registry::new();
    let mut first = permit(&mut registry, peer());
    assert!(matches!(
        register(&mut registry, nonce(1), LaneClass::Interactive, peer(), group(1), &mut first),
        PendingLaneAdmission::Reserved
    ));
    let foreign_peer = v4(0xc0a8_0101, 1000);
    let mut foreign = permit(&mut registry, foreign_peer);
    assert!(matches!(
        register(&mut registry, nonce(1), LaneClass::Bulk, foreign_peer, group(1), &mut foreign),
        PendingLaneAdmission::Reject("pairing nonce peer mismatch")
    ));
    let same_peer_ip = v4(LOCALHOST, 1001);
    let mut duplicate = permit(&mut registry, same_peer_ip);
    assert!(matches!(
        register(
            &mut registry,
            nonce(1),
            LaneClass::Interactive,
            same_peer_ip,
            group(1),
            &mut duplicate
        ),
        PendingLaneAdmission::Reject("duplicate lane class for pairing nonce")
    ));
}

#[test]
fn ready_lane_pairs_opposite_class() {
    let mut registry = Registry::new();
    let mut first = permit(&mut registry, peer());
    register(&mut registry, nonce(1), LaneClass::Interactive, peer(), group(1), &mut first);
    let mut second = permit(&mut registry, peer());
    assert!(matches!(
        register(&mut registry, nonce(1), LaneClass::Bulk, peer(), group(1), &mut second),
        PendingLaneAdmission::Wait { .. }
    ));
}

#[test]
fn register_admitted_reject_group_token_mismatch_between_lanes() {
    let mut registry = Registry::new();
    let mut first = permit(&mut registry, peer());
    assert!(matches!(
        register(&mut registry, nonce(1), LaneClass::Interactive, peer(), group(1), &mut first),
        PendingLaneAdmission::Reserved
    ));
    let mut second = permit(&mut registry, peer());
    assert!(matches!(
        register(&mut registry, nonce(1), LaneClass::Bulk, peer(), group(2), &mut second),
        PendingLaneAdmission::Reject("group token mismatch between lanes")
    ));
    assert!(second.is_some());
}

#[test]
fn a_ready_lane_is_taken_out_by_its_partner_and_can_be_restored() {
    let mut registry = Registry::new();
    let n = ready(&mut registry, 1);
    assert!(registry.notifier(n).is_none());
    let mut second = permit(&mut registry, peer());
    let (lane, expires_at) =
        match register(&mut registry, n, LaneClass::Bulk, peer(), group(1), &mut second) {
            PendingLaneAdmission::Pair { lane, expires_at } => (lane, expires_at),
            other => panic!("no pair: {other:?}"),
        };
    assert_eq!(lane.handle, "built");
    assert_eq!(lane.class, LaneClass::Interactive);
    assert_eq!(lane.group, group(1));
    assert_eq!(expires_at, 1_000 + PAIRING_DEADLINE);
    assert!(registry.next_expiry().is_none());
    assert!(registry.reinsert_ready_lane(n, lane, expires_at).is_ok());
    assert_eq!(registry.next_expiry(), Some(expires_at));
}

#[test]
fn a_waiting_lane_takes_its_partner_out_at_the_last_moment() {
    let mut registry = Registry::new();
    let n = ready(&mut registry, 1);
    assert!(matches!(
        registry.pair_wait_deadline(n, LaneClass::Bulk, peer(), 10, 10),
        PendingLaneWait::Pair(_)
    ));
}

#[test]
fn confirming_a_reservation_of_another_lane_hands_the_lane_back() {
    let mut registry = Registry::new();
    let mut first = permit(&mut registry, peer());
    register(&mut registry, nonce(1), LaneClass::Interactive, peer(), group(1), &mut first);
    let stranger = PreparedLane {
        class: LaneClass::Bulk,
        peer: peer(),
        local_addr: local(),
        handle: "stranger",
    };
    let back = registry
        .confirm_reservation(nonce(1), stranger)
        .expect_err("the class differs");
    assert_eq!(back.handle, "stranger");
    assert!(registry.notifier(nonce(1)).is_some());
}

#[test]
fn expiry_takes_out_what_is_due_and_leaves_the_rest() {
    let mut registry = Registry::new();
    let early = ready(&mut registry, 1);
    let mut late = permit(&mut registry, peer());
    registry.register_admitted(
        nonce(2),
        LaneClass::Bulk,
        peer(),
        local(),
        group(2),
        &mut late,
        watch::channel(0).0,
        5_000,
    );
    assert_eq!(registry.next_expiry(), Some(1_000 + PAIRING_DEADLINE));
    assert!(registry.expire(999 + PAIRING_DEADLINE).is_empty());
    let gone = registry.expire(1_000 + PAIRING_DEADLINE);
    assert_eq!(gone.len(), 1);
    match &gone[0] {
        ExpiredPendingLane::Ready { nonce, lane } => {
            assert_eq!(*nonce, early);
            assert_eq!(lane.handle, "built");
        }
        other => panic!("the ready lane was due: {other:?}"),
    }
    assert_eq!(registry.next_expiry(), Some(5_000 + PAIRING_DEADLINE));
    let gone = registry.expire(5_000 + PAIRING_DEADLINE);
    assert!(matches!(
        gone[0],
        ExpiredPendingLane::Building { nonce: n, class: LaneClass::Bulk, .. } if n == nonce(2)
    ));
    assert_eq!(registry.next_expiry(), None);
}

#[test]
fn every_lane_that_is_due_expires_once() {
    let mut registry = Registry::new();
    for (bits, at) in [(1, 3_000), (2, 9_000), (3, 1_000), (4, 3_000)] {
        let mut lane = permit(&mut registry, peer());
        registry.register_admitted(
            nonce(bits),
            LaneClass::Bulk,
            peer(),
            local(),
            group(1),
            &mut lane,
            watch::channel(0).0,
            at,
        );
    }
    let now = 3_000 + PAIRING_DEADLINE;
    let gone: Vec<PairingNonce> = registry
        .expire(now)
        .iter()
        .map(|lane| match lane {
            ExpiredPendingLane::Building { nonce, .. } => *nonce,
            other => panic!("no lane was built: {other:?}"),
        })
        .collect();
    assert_eq!(gone, vec![nonce(1), nonce(3), nonce(4)]);
    assert!(registry.next_expiry().unwrap() > now);
    assert!(registry.expire(now).is_empty());
    assert_eq!(registry.expire(9_000 + PAIRING_DEADLINE).len(), 1);
    assert_eq!(registry.next_expiry(), None);
}

#[test]
fn the_expiry_worker_is_told_of_changes_once() {
    let mut registry = Registry::new();
    assert!(!registry.take_changed());
    let mut first = permit(&mut registry, peer());
    register(&mut registry, nonce(1), LaneClass::Interactive, peer(), group(1), &mut first);
    assert!(registry.take_changed());
    assert!(!registry.take_changed());
    registry.cancel_reservation(nonce(1), peer(), LaneClass::Bulk);
    assert!(!registry.take_changed(), "nothing was cancelled");
    registry.cancel_reservation(nonce(1), peer(), LaneClass::Interactive);
    assert!(registry.take_changed());
}
