//! The accepting end: what becomes of each lane that a peer opens.
//!
//! A lane is admitted, says its hello, is registered for pairing, proves that
//! it is alive with a heartbeat, and is then paired or waits for its partner.
//! [`LaneAccept`] takes what happened to the lane and says what to do next.

use vstd::prelude::*;

use crate::accept_error::{delay_after, fatal, AcceptErrorBackoff};
use crate::addr::{SocketAddr, SocketAddrPair};
use crate::admission::{
    ExpiredPendingLane, PairingPoll, PendingLane, PendingLaneAdmission, PendingLaneEntry,
    PendingLanePermit, PendingLaneRegistry, PendingLaneWait, PreparedLane, RegistryView,
};
use crate::error::IoError;
use crate::group::{group_full, SessionPairRegistry};
use crate::lane::{GroupToken, LaneClass, PairingNonce};
use crate::lane_rejection::{LaneRejectionClass, LaneRejectionLog, RejectedLaneContext, RejectionView};
use crate::shared::{NANOS_PER_MILLI, PAIRING_DEADLINE};
use crate::text::{decimal, owned, push_decimal};

verus! {

/// The addresses of a session's two lanes.
#[derive(Clone, Copy, Debug, PartialEq, Eq, Structural)]
pub struct DualLaneSocketAddrs {
    pub interactive_peer: SocketAddr,
    pub interactive_local: SocketAddr,
    pub bulk_peer: SocketAddr,
    pub bulk_local: SocketAddr,
}

/// Which address belongs to which lane, given the class of the first.
pub open spec fn lane_addrs(
    lane_a_class: LaneClass,
    lane_a_peer: SocketAddr,
    lane_a_local: SocketAddr,
    lane_b_peer: SocketAddr,
    lane_b_local: SocketAddr,
) -> DualLaneSocketAddrs {
    match lane_a_class {
        LaneClass::Interactive => DualLaneSocketAddrs {
            interactive_peer: lane_a_peer,
            interactive_local: lane_a_local,
            bulk_peer: lane_b_peer,
            bulk_local: lane_b_local,
        },
        LaneClass::Bulk => DualLaneSocketAddrs {
            interactive_peer: lane_b_peer,
            interactive_local: lane_b_local,
            bulk_peer: lane_a_peer,
            bulk_local: lane_a_local,
        },
    }
}

pub fn classify_lane_addrs(
    lane_a_class: LaneClass,
    lane_a_peer: SocketAddr,
    lane_a_local: SocketAddr,
    lane_b_peer: SocketAddr,
    lane_b_local: SocketAddr,
) -> (r: DualLaneSocketAddrs)
    ensures
        r == lane_addrs(lane_a_class, lane_a_peer, lane_a_local, lane_b_peer, lane_b_local),
{
    match lane_a_class {
        LaneClass::Interactive => DualLaneSocketAddrs {
            interactive_peer: lane_a_peer,
            interactive_local: lane_a_local,
            bulk_peer: lane_b_peer,
            bulk_local: lane_b_local,
        },
        LaneClass::Bulk => DualLaneSocketAddrs {
            interactive_peer: lane_b_peer,
            interactive_local: lane_b_local,
            bulk_peer: lane_a_peer,
            bulk_local: lane_a_local,
        },
    }
}

/// A session's addresses do not depend on which of its lanes arrived first.
pub proof fn lemma_arrival_order_is_immaterial(
    class: LaneClass,
    peer: SocketAddr,
    local: SocketAddr,
    other_peer: SocketAddr,
    other_local: SocketAddr,
)
    ensures
        lane_addrs(class, peer, local, other_peer, other_local) == lane_addrs(
            class.opposite(),
            other_peer,
            other_local,
            peer,
            local,
        ),
{
}

// ---------------------------------------------------------------------------
// Recording rejections
// ---------------------------------------------------------------------------
/// A reason, and how long the lane had been at it.
pub open spec fn timed_reason(reason: Seq<char>, elapsed: u64) -> Seq<char> {
    reason + "; elapsed_ms="@ + decimal((elapsed / NANOS_PER_MILLI) as nat)
}

/// Records a rejection together with how long the lane had been at it.
pub fn record_rejected_lane(
    rejections: &mut LaneRejectionLog,
    context: RejectedLaneContext,
    elapsed: u64,
)
    ensures
        final(rejections).recorded_after(
            old(rejections),
            RejectionView { reason: timed_reason(context.reason@, elapsed), ..context@ },
        ),
        final(rejections).wf(),
{
    let mut timed = context;
    timed.reason.append("; elapsed_ms=");
    push_decimal(&mut timed.reason, (elapsed / NANOS_PER_MILLI) as u128);
    rejections.record(timed);
}

/// The state after a rejection of that kind has been recorded.
pub open spec fn rejection_recorded(
    before: &LaneRejectionLog,
    after: &LaneRejectionLog,
    class: LaneRejectionClass,
    peer: SocketAddr,
    local_addr: SocketAddr,
    expected_class: LaneClass,
    reason: Seq<char>,
) -> bool {
    after.recorded_after(
        before,
        RejectionView { class, peer, local_addr, expected_class: Some(expected_class), reason },
    )
}

/// Puts a partner that was taken out for pairing back; where that cannot be,
/// the partner is lost, which is recorded, and its permit goes back.
pub fn reinsert_ready_lane_or_reject<L, W>(
    registry: &mut PendingLaneRegistry<L, W>,
    rejections: &mut LaneRejectionLog,
    nonce: PairingNonce,
    lane: PendingLane<L>,
    expires_at: u64,
    elapsed: u64,
)
    ensures
        if old(registry)@.holds(nonce) {
            &&& final(registry)@ == old(registry)@.releasing(lane.permit.peer())
            &&& rejection_recorded(
                old(rejections),
                final(rejections),
                LaneRejectionClass::ReservationLost,
                lane.peer,
                lane.local_addr,
                lane.class,
                timed_reason(
                    "pairing slot was reclaimed before the partner could be restored"@,
                    elapsed,
                ),
            )
        } else {
            &&& final(registry)@ == old(registry)@.put(
                nonce,
                PendingLaneEntry::Ready { lane, expires_at },
            )
            &&& *final(rejections) == *old(rejections)
        },
{
    let peer = lane.peer;
    let local_addr = lane.local_addr;
    let class = lane.class;
    if let Err(lane) = registry.reinsert_ready_lane(nonce, lane, expires_at) {
        registry.release(lane.permit);
        record_rejected_lane(
            rejections,
            RejectedLaneContext {
                class: LaneRejectionClass::ReservationLost,
                peer,
                local_addr,
                expected_class: Some(class),
                reason: owned("pairing slot was reclaimed before the partner could be restored"),
            },
            elapsed,
        );
    }
}

/// Makes a built lane the ready lane of its reservation; where that has
/// vanished, the lane is lost, which is recorded. What is returned wakes
/// those who wait for the reservation.
pub fn confirm_reservation_or_reject<L, W>(
    registry: &mut PendingLaneRegistry<L, W>,
    rejections: &mut LaneRejectionLog,
    nonce: PairingNonce,
    lane: PreparedLane<L>,
    expected_class: LaneClass,
    elapsed: u64,
) -> (r: Option<W>)
    ensures
        if old(registry)@.is_building(nonce, lane.peer, lane.class) {
            &&& r == Some(old(registry)@.entries[nonce]->changed)
            &&& final(registry)@ == old(registry)@.take(nonce).put(
                nonce,
                PendingLaneEntry::Ready {
                    lane: PendingLane {
                        class: lane.class,
                        peer: lane.peer,
                        local_addr: lane.local_addr,
                        group: old(registry)@.entries[nonce].group(),
                        permit: old(registry)@.entries[nonce].permit(),
                        handle: lane.handle,
                    },
                    expires_at: old(registry)@.entries[nonce].expires_at(),
                },
            )
            &&& *final(rejections) == *old(rejections)
        } else {
            &&& r is None
            &&& final(registry)@ == old(registry)@
            &&& rejection_recorded(
                old(rejections),
                final(rejections),
                LaneRejectionClass::ReservationLost,
                lane.peer,
                lane.local_addr,
                expected_class,
                timed_reason(
                    "reservation vanished before the built lane could claim it"@,
                    elapsed,
                ),
            )
        },
        old(registry)@.wf() ==> final(registry)@.wf(),
{
    let peer = lane.peer;
    let local_addr = lane.local_addr;
    match registry.confirm_reservation(nonce, lane) {
        Ok(changed) => Some(changed),
        Err(_) => {
            record_rejected_lane(
                rejections,
                RejectedLaneContext {
                    class: LaneRejectionClass::ReservationLost,
                    peer,
                    local_addr,
                    expected_class: Some(expected_class),
                    reason: owned("reservation vanished before the built lane could claim it"),
                },
                elapsed,
            );
            None
        },
    }
}

// ---------------------------------------------------------------------------
// One lane
// ---------------------------------------------------------------------------
/// What came of reading a lane's hello.
#[derive(Debug)]
pub enum Hello {
    TimedOut,
    /// The hello could not be read or made no sense; the text says why.
    Unreadable(String),
    Read { class: LaneClass, nonce: PairingNonce, group: GroupToken },
}

/// Why a lane's first heartbeat could not be written.
#[derive(Debug)]
pub enum BirthHeartbeatFailure {
    Timeout { elapsed: u64 },
    Io { source: String, elapsed: u64 },
}

/// Where a lane stands.
#[derive(Debug)]
pub enum LanePhase<L> {
    /// Its hello is awaited.
    Hello,
    /// It has reserved its nonce.
    Reserved { nonce: PairingNonce, group: GroupToken },
    /// Its partner is being built.
    Waiting { nonce: PairingNonce, group: GroupToken, expires_at: u64 },
    /// Its partner has been taken out of the registry.
    Paired { nonce: PairingNonce, group: GroupToken, other: PendingLane<L>, expires_at: u64 },
    /// It has been paired, has become ready, or has been turned away.
    Ended,
}

/// What is done with the two halves of a lane that is turned away.
#[derive(Clone, Copy, Debug, PartialEq, Eq, Structural)]
pub enum Farewell {
    /// They are dropped.
    Drop,
    /// The peer is told, as long as the hello deadline allows.
    Kill,
}

/// What is done next with a lane. `W` wakes those who wait for it.
#[derive(Debug)]
pub enum LaneStep<L, W> {
    /// Write the birth heartbeat within the hello deadline.
    Heartbeat,
    /// Build the lane's mux.
    Build,
    /// Wait until the reservation changes or the deadline passes.
    AwaitPair { expires_at: u64 },
    /// The lane is ready; wake those who wait for it.
    Ready(W),
    /// Bring the two lanes together.
    Pair { lane: PendingLane<L>, other: PendingLane<L> },
    /// Take leave of the peer, then [`LaneAccept::rejected`].
    Reject { farewell: Farewell, context: RejectedLaneContext, elapsed: u64 },
    /// Nothing is left to do.
    End,
}

/// One accepted lane on its way to being paired.
#[derive(Debug)]
pub struct LaneAccept<L> {
    pub expected_class: LaneClass,
    pub peer: SocketAddr,
    pub local_addr: SocketAddr,
    /// The lane's permit, while it is the lane itself that holds it.
    pub permit: Option<PendingLanePermit>,
    pub phase: LanePhase<L>,
}

/// The text of a birth heartbeat's failure, and how the peer is left.
pub open spec fn heartbeat_farewell(failure: BirthHeartbeatFailure) -> Farewell {
    match failure {
        BirthHeartbeatFailure::Timeout { .. } => Farewell::Drop,
        BirthHeartbeatFailure::Io { .. } => Farewell::Kill,
    }
}

pub open spec fn heartbeat_reason(reason: Seq<char>, failure: BirthHeartbeatFailure) -> Seq<char> {
    match failure {
        BirthHeartbeatFailure::Timeout { .. } => reason + ": deadline elapsed"@,
        BirthHeartbeatFailure::Io { source, .. } => reason + ": "@ + source@,
    }
}

pub open spec fn heartbeat_elapsed(failure: BirthHeartbeatFailure) -> u64 {
    match failure {
        BirthHeartbeatFailure::Timeout { elapsed } => elapsed,
        BirthHeartbeatFailure::Io { elapsed, .. } => elapsed,
    }
}

impl<L, W> LaneStep<L, W> {
    /// Whether the step turns the lane away for that reason.
    pub open spec fn rejects<M>(
        self,
        lane: &LaneAccept<M>,
        farewell: Farewell,
        class: LaneRejectionClass,
        reason: Seq<char>,
        elapsed: u64,
    ) -> bool {
        match self {
            LaneStep::Reject { farewell: f, context, elapsed: e } => f == farewell && e == elapsed
                && context@ == (RejectionView {
                class,
                peer: lane.peer,
                local_addr: lane.local_addr,
                expected_class: Some(lane.expected_class),
                reason,
            }),
            _ => false,
        }
    }
}

/// The registry after the permit, if there is one, has gone back.
pub open spec fn after_release<L, W>(
    registry: RegistryView<L, W>,
    permit: Option<PendingLanePermit>,
) -> RegistryView<L, W> {
    match permit {
        Some(p) => registry.releasing(p.peer()),
        None => registry,
    }
}

impl<L> LaneAccept<L> {
    /// A lane holds its permit itself until it reserves its nonce, whose
    /// reservation then holds it.
    pub open spec fn wf(&self) -> bool {
        match self.phase {
            LanePhase::Hello => self.permit is Some,
            LanePhase::Reserved { .. } => self.permit is None,
            LanePhase::Waiting { .. } => self.permit is Some,
            LanePhase::Paired { .. } => self.permit is Some,
            LanePhase::Ended => true,
        }
    }

    /// The lane in another phase and with another permit.
    pub open spec fn at(self, phase: LanePhase<L>, permit: Option<PendingLanePermit>) -> Self {
        LaneAccept { phase, permit, ..self }
    }

    /// Admits a lane that a peer has opened, or records that there is no room
    /// for it.
    pub fn admit_lane<W>(
        registry: &mut PendingLaneRegistry<L, W>,
        rejections: &mut LaneRejectionLog,
        peer: SocketAddr,
        local_addr: SocketAddr,
        lane: LaneClass,
    ) -> (r: Option<LaneAccept<L>>)
        ensures
            match old(registry)@.admission_refusal(peer.ip()) {
                None => {
                    &&& r is Some
                    &&& r->0.expected_class == lane
                    &&& r->0.peer == peer
                    &&& r->0.local_addr == local_addr
                    &&& r->0.permit is Some
                    &&& (r->0.permit->0).peer() == peer.ip()
                    &&& r->0.phase is Hello
                    &&& r->0.wf()
                    &&& final(registry)@ == old(registry)@.admitting(peer.ip())
                    &&& *final(rejections) == *old(rejections)
                },
                Some(reason) => {
                    &&& r is None
                    &&& final(registry)@ == old(registry)@
                    &&& rejection_recorded(
                        old(rejections),
                        final(rejections),
                        LaneRejectionClass::Capacity,
                        peer,
                        local_addr,
                        lane,
                        reason@,
                    )
                },
            },
            old(registry)@.wf() ==> final(registry)@.wf(),
    {
        match registry.try_admit(peer.ip()) {
            Ok(permit) => Some(
                LaneAccept {
                    expected_class: lane,
                    peer,
                    local_addr,
                    permit: Some(permit),
                    phase: LanePhase::Hello,
                },
            ),
            Err(reason) => {
                rejections.record(
                    RejectedLaneContext {
                        class: LaneRejectionClass::Capacity,
                        peer,
                        local_addr,
                        expected_class: Some(lane),
                        reason: owned(reason),
                    },
                );
                None
            },
        }
    }

    fn reject<W>(
        &mut self,
        farewell: Farewell,
        class: LaneRejectionClass,
        reason: String,
        elapsed: u64,
    ) -> (r: LaneStep<L, W>)
        ensures
            r.rejects(old(self), farewell, class, reason@, elapsed),
            *final(self) == old(self).at(LanePhase::Ended, old(self).permit),
    {
        self.phase = LanePhase::Ended;
        LaneStep::Reject {
            farewell,
            context: RejectedLaneContext {
                class,
                peer: self.peer,
                local_addr: self.local_addr,
                expected_class: Some(self.expected_class),
                reason,
            },
            elapsed,
        }
    }

    fn release<W>(&mut self, registry: &mut PendingLaneRegistry<L, W>)
        ensures
            final(registry)@ == after_release(old(registry)@, old(self).permit),
            *final(self) == (LaneAccept { permit: None, ..*old(self) }),
    {
        if let Some(permit) = self.permit.take() {
            registry.release(permit);
        }
    }

    /// The hello has been read, or not. A lane whose hello does not match the
    /// listener it came to, whose group is full or whose nonce does not fit is
    /// told so and gives its permit back at once.
    pub fn hello<O, H, F, W>(
        &mut self,
        hello: Hello,
        elapsed: u64,
        registry: &mut PendingLaneRegistry<L, W>,
        groups: &SessionPairRegistry<O, H, F>,
        changed: W,
        now: u64,
    ) -> (r: LaneStep<L, W>)
        requires
            old(self).wf(),
            old(self).phase is Hello,
            now + PAIRING_DEADLINE <= u64::MAX,
        ensures
            final(self).wf(),
            match hello {
                Hello::TimedOut => {
                    &&& r.rejects(
                        old(self),
                        Farewell::Drop,
                        LaneRejectionClass::HelloTimeout,
                        "hello deadline elapsed"@,
                        elapsed,
                    )
                    &&& *final(self) == old(self).at(LanePhase::Ended, old(self).permit)
                    &&& final(registry)@ == old(registry)@
                },
                Hello::Unreadable(error) => {
                    &&& r.rejects(
                        old(self),
                        Farewell::Kill,
                        LaneRejectionClass::HelloParse,
                        "hello read/parse error: "@ + error@,
                        elapsed,
                    )
                    &&& *final(self) == old(self).at(LanePhase::Ended, None)
                    &&& final(registry)@ == after_release(old(registry)@, old(self).permit)
                },
                Hello::Read { class, nonce, group } => if class != old(self).expected_class {
                    &&& r.rejects(
                        old(self),
                        Farewell::Kill,
                        LaneRejectionClass::ClassMismatch,
                        "lane class mismatch: got "@ + class.spec_label()@,
                        elapsed,
                    )
                    &&& *final(self) == old(self).at(LanePhase::Ended, None)
                    &&& final(registry)@ == after_release(old(registry)@, old(self).permit)
                } else if group_full(groups@, group) {
                    &&& r.rejects(
                        old(self),
                        Farewell::Kill,
                        LaneRejectionClass::GroupFull,
                        "session group is full"@,
                        elapsed,
                    )
                    &&& *final(self) == old(self).at(LanePhase::Ended, None)
                    &&& final(registry)@ == after_release(old(registry)@, old(self).permit)
                } else if !old(registry)@.holds(nonce) {
                    &&& r is Heartbeat
                    &&& *final(self) == old(self).at(LanePhase::Reserved { nonce, group }, None)
                    &&& final(registry)@ == old(registry)@.put(
                        nonce,
                        PendingLaneEntry::Building {
                            peer: old(self).peer,
                            local_addr: old(self).local_addr,
                            class,
                            group,
                            expires_at: (now + PAIRING_DEADLINE) as u64,
                            changed,
                            permit: old(self).permit->0,
                        },
                    )
                } else {
                    match old(registry)@.entries[nonce].refusal(class, old(self).peer, group) {
                        Some(reason) => {
                            &&& r.rejects(
                                old(self),
                                Farewell::Kill,
                                LaneRejectionClass::Admission,
                                reason@,
                                elapsed,
                            )
                            &&& *final(self) == old(self).at(LanePhase::Ended, None)
                            &&& final(registry)@ == after_release(
                                old(registry)@,
                                old(self).permit,
                            )
                        },
                        None => match old(registry)@.entries[nonce] {
                            PendingLaneEntry::Building { expires_at, .. } => {
                                &&& r is Heartbeat
                                &&& *final(self) == old(self).at(
                                    LanePhase::Waiting { nonce, group, expires_at },
                                    old(self).permit,
                                )
                                &&& final(registry)@ == old(registry)@
                            },
                            PendingLaneEntry::Ready { lane, expires_at } => {
                                &&& r is Heartbeat
                                &&& *final(self) == old(self).at(
                                    LanePhase::Paired { nonce, group, other: lane, expires_at },
                                    old(self).permit,
                                )
                                &&& final(registry)@ == old(registry)@.take(nonce)
                            },
                        },
                    }
                },
            },
    {
        let (class, nonce, group) = match hello {
            Hello::TimedOut => {
                return self.reject(
                    Farewell::Drop,
                    LaneRejectionClass::HelloTimeout,
                    owned("hello deadline elapsed"),
                    elapsed,
                );
            },
            Hello::Unreadable(error) => {
                let mut reason = owned("hello read/parse error: ");
                reason.append(error.as_str());
                self.release(registry);
                return self.reject(
                    Farewell::Kill,
                    LaneRejectionClass::HelloParse,
                    reason,
                    elapsed,
                );
            },
            Hello::Read { class, nonce, group } => (class, nonce, group),
        };
        if class != self.expected_class {
            let mut reason = owned("lane class mismatch: got ");
            reason.append(class.label());
            self.release(registry);
            return self.reject(Farewell::Kill, LaneRejectionClass::ClassMismatch, reason, elapsed);
        }
        if groups.is_full(&group) {
            self.release(registry);
            return self.reject(
                Farewell::Kill,
                LaneRejectionClass::GroupFull,
                owned("session group is full"),
                elapsed,
            );
        }
        let peer = self.peer;
        let local_addr = self.local_addr;
        match registry.register_admitted(
            nonce,
            class,
            peer,
            local_addr,
            group,
            &mut self.permit,
            changed,
            now,
        ) {
            PendingLaneAdmission::Reserved => {
                self.phase = LanePhase::Reserved { nonce, group };
                LaneStep::Heartbeat
            },
            PendingLaneAdmission::Wait { expires_at } => {
                self.phase = LanePhase::Waiting { nonce, group, expires_at };
                LaneStep::Heartbeat
            },
            PendingLaneAdmission::Pair { lane, expires_at } => {
                self.phase = LanePhase::Paired { nonce, group, other: lane, expires_at };
                LaneStep::Heartbeat
            },
            PendingLaneAdmission::Reject(reason) => {
                self.release(registry);
                self.reject(Farewell::Kill, LaneRejectionClass::Admission, owned(reason), elapsed)
            },
        }
    }

    fn reject_birth_heartbeat<W>(
        &mut self,
        reason: &'static str,
        failure: BirthHeartbeatFailure,
    ) -> (r: LaneStep<L, W>)
        ensures
            r.rejects(
                old(self),
                heartbeat_farewell(failure),
                LaneRejectionClass::BirthHeartbeat,
                heartbeat_reason(reason@, failure),
                heartbeat_elapsed(failure),
            ),
            *final(self) == old(self).at(LanePhase::Ended, old(self).permit),
    {
        let mut text = owned(reason);
        match failure {
            BirthHeartbeatFailure::Timeout { elapsed } => {
                text.append(": deadline elapsed");
                self.reject(Farewell::Drop, LaneRejectionClass::BirthHeartbeat, text, elapsed)
            },
            BirthHeartbeatFailure::Io { source, elapsed } => {
                text.append(": ");
                text.append(source.as_str());
                self.reject(Farewell::Kill, LaneRejectionClass::BirthHeartbeat, text, elapsed)
            },
        }
    }

    /// The birth heartbeat has been written, or not. A lane that cannot be
    /// written to gives up what it holds in the registry: its reservation, or
    /// the partner it has taken out.
    pub fn heartbeat<W>(
        &mut self,
        result: Result<(), BirthHeartbeatFailure>,
        elapsed: u64,
        registry: &mut PendingLaneRegistry<L, W>,
        rejections: &mut LaneRejectionLog,
    ) -> (r: LaneStep<L, W>)
        requires
            old(self).wf(),
            old(self).phase is Reserved || old(self).phase is Waiting || old(self).phase is Paired,
        ensures
            final(self).wf(),
            match result {
                Ok(_) => {
                    &&& match old(self).phase {
                        LanePhase::Waiting { expires_at, .. } => r == (LaneStep::<
                            L,
                            W,
                        >::AwaitPair { expires_at }),
                        _ => r is Build,
                    }
                    &&& *final(self) == *old(self)
                    &&& final(registry)@ == old(registry)@
                    &&& *final(rejections) == *old(rejections)
                },
                Err(failure) => {
                    &&& *final(self) == old(self).at(LanePhase::Ended, old(self).permit)
                    &&& r.rejects(
                        old(self),
                        heartbeat_farewell(failure),
                        LaneRejectionClass::BirthHeartbeat,
                        heartbeat_reason(
                            match old(self).phase {
                                LanePhase::Reserved {
                                    ..
                                } => "birth heartbeat failed after reservation"@,
                                LanePhase::Waiting {
                                    ..
                                } => "birth heartbeat failed while waiting"@,
                                _ => "birth heartbeat failed before pairing"@,
                            },
                            failure,
                        ),
                        heartbeat_elapsed(failure),
                    )
                    &&& match old(self).phase {
                        LanePhase::Reserved { nonce, .. } => {
                            &&& final(registry)@ == if old(registry)@.is_building(
                                nonce,
                                old(self).peer,
                                old(self).expected_class,
                            ) {
                                old(registry)@.take(nonce).releasing(
                                    old(registry)@.entries[nonce].permit().peer(),
                                )
                            } else {
                                old(registry)@
                            }
                            &&& *final(rejections) == *old(rejections)
                        },
                        LanePhase::Paired { nonce, other, expires_at, .. } => if old(
                            registry,
                        )@.holds(nonce) {
                            &&& final(registry)@ == old(registry)@.releasing(other.permit.peer())
                            &&& rejection_recorded(
                                old(rejections),
                                final(rejections),
                                LaneRejectionClass::ReservationLost,
                                other.peer,
                                other.local_addr,
                                other.class,
                                timed_reason(
                                    "pairing slot was reclaimed before the partner could be restored"@,
                                    elapsed,
                                ),
                            )
                        } else {
                            &&& final(registry)@ == old(registry)@.put(
                                nonce,
                                PendingLaneEntry::Ready { lane: other, expires_at },
                            )
                            &&& *final(rejections) == *old(rejections)
                        },
                        _ => {
                            &&& final(registry)@ == old(registry)@
                            &&& *final(rejections) == *old(rejections)
                        },
                    }
                },
            },
    {
        match result {
            Ok(_) => match &self.phase {
                LanePhase::Waiting { expires_at, .. } => LaneStep::AwaitPair {
                    expires_at: *expires_at,
                },
                _ => LaneStep::Build,
            },
            Err(failure) => {
                let mut phase = LanePhase::Ended;
                std::mem::swap(&mut phase, &mut self.phase);
                match phase {
                    LanePhase::Reserved { nonce, .. } => {
                        registry.cancel_reservation(nonce, self.peer, self.expected_class);
                        self.reject_birth_heartbeat(
                            "birth heartbeat failed after reservation",
                            failure,
                        )
                    },
                    LanePhase::Paired { nonce, other, expires_at, .. } => {
                        reinsert_ready_lane_or_reject(
                            registry,
                            rejections,
                            nonce,
                            other,
                            expires_at,
                            elapsed,
                        );
                        self.reject_birth_heartbeat(
                            "birth heartbeat failed before pairing",
                            failure,
                        )
                    },
                    _ => self.reject_birth_heartbeat(
                        "birth heartbeat failed while waiting",
                        failure,
                    ),
                }
            },
        }
    }

    /// The lane that waits for its partner looks for it. `deadline` says that
    /// the wait ran into the pairing deadline.
    pub fn poll_pair<W>(
        &mut self,
        deadline: bool,
        elapsed: u64,
        registry: &mut PendingLaneRegistry<L, W>,
        now: u64,
    ) -> (r: LaneStep<L, W>)
        requires
            old(self).wf(),
            old(self).phase is Waiting,
        ensures
            final(self).wf(),
            ({
                let nonce = old(self).phase->Waiting_nonce;
                let group = old(self).phase->Waiting_group;
                let expires_at = old(self).phase->Waiting_expires_at;
                let (after, poll) = old(registry)@.pair_wait(
                    nonce,
                    old(self).expected_class,
                    old(self).peer,
                    expires_at,
                    now,
                );
                match poll {
                    PairingPoll::Wait if !deadline => {
                        &&& r == (LaneStep::<L, W>::AwaitPair { expires_at })
                        &&& *final(self) == *old(self)
                        &&& final(registry)@ == after
                    },
                    PairingPoll::Done(PendingLaneWait::Pair(other)) => {
                        &&& r is Build
                        &&& *final(self) == old(self).at(
                            LanePhase::Paired { nonce, group, other, expires_at },
                            old(self).permit,
                        )
                        &&& final(registry)@ == after
                    },
                    PairingPoll::Done(PendingLaneWait::ReservationLost(reason)) => {
                        &&& r.rejects(
                            old(self),
                            Farewell::Kill,
                            LaneRejectionClass::ReservationLost,
                            reason@,
                            elapsed,
                        )
                        &&& *final(self) == old(self).at(LanePhase::Ended, None)
                        &&& final(registry)@ == after_release(after, old(self).permit)
                    },
                    _ => {
                        &&& r.rejects(
                            old(self),
                            Farewell::Kill,
                            LaneRejectionClass::PairingTimeout,
                            "pairing deadline expired while waiting"@,
                            elapsed,
                        )
                        &&& *final(self) == old(self).at(LanePhase::Ended, None)
                        &&& final(registry)@ == after_release(after, old(self).permit)
                    },
                }
            }),
    {
        if let LanePhase::Waiting { nonce, group, expires_at } = &self.phase {
            let (nonce, group, expires_at): (PairingNonce, GroupToken, u64) = (
                *nonce,
                *group,
                *expires_at,
            );
            let found = if deadline {
                registry.pair_wait_deadline(nonce, self.expected_class, self.peer, expires_at, now)
            } else {
                match registry.pair_wait_step(
                    nonce,
                    self.expected_class,
                    self.peer,
                    expires_at,
                    now,
                ) {
                    PairingPoll::Wait => {
                        return LaneStep::AwaitPair { expires_at };
                    },
                    PairingPoll::Done(found) => found,
                }
            };
            match found {
                PendingLaneWait::Pair(other) => {
                    self.phase = LanePhase::Paired { nonce, group, other, expires_at };
                    LaneStep::Build
                },
                PendingLaneWait::Timeout => {
                    self.release(registry);
                    self.reject(
                        Farewell::Kill,
                        LaneRejectionClass::PairingTimeout,
                        owned("pairing deadline expired while waiting"),
                        elapsed,
                    )
                },
                PendingLaneWait::ReservationLost(reason) => {
                    self.release(registry);
                    self.reject(
                        Farewell::Kill,
                        LaneRejectionClass::ReservationLost,
                        owned(reason),
                        elapsed,
                    )
                },
            }
        } else {
            proof {
                assert(false);
            }
            LaneStep::End
        }
    }

    /// The lane's mux has been built: it becomes the ready lane of its
    /// reservation, or goes together with its partner.
    pub fn built<W>(
        &mut self,
        handle: L,
        elapsed: u64,
        registry: &mut PendingLaneRegistry<L, W>,
        rejections: &mut LaneRejectionLog,
    ) -> (r: LaneStep<L, W>)
        requires
            old(self).wf(),
            old(self).phase is Reserved || old(self).phase is Paired,
        ensures
            final(self).wf(),
            match old(self).phase {
                LanePhase::Reserved { nonce, .. } => {
                    &&& *final(self) == old(self).at(LanePhase::Ended, old(self).permit)
                    &&& if old(registry)@.is_building(
                        nonce,
                        old(self).peer,
                        old(self).expected_class,
                    ) {
                        &&& r == LaneStep::<L, W>::Ready(old(registry)@.entries[nonce]->changed)
                        &&& final(registry)@ == old(registry)@.take(nonce).put(
                            nonce,
                            PendingLaneEntry::Ready {
                                lane: PendingLane {
                                    class: old(self).expected_class,
                                    peer: old(self).peer,
                                    local_addr: old(self).local_addr,
                                    group: old(registry)@.entries[nonce].group(),
                                    permit: old(registry)@.entries[nonce].permit(),
                                    handle,
                                },
                                expires_at: old(registry)@.entries[nonce].expires_at(),
                            },
                        )
                        &&& *final(rejections) == *old(rejections)
                    } else {
                        &&& r is End
                        &&& final(registry)@ == old(registry)@
                        &&& rejection_recorded(
                            old(rejections),
                            final(rejections),
                            LaneRejectionClass::ReservationLost,
                            old(self).peer,
                            old(self).local_addr,
                            old(self).expected_class,
                            timed_reason(
                                "reservation vanished before the built lane could claim it"@,
                                elapsed,
                            ),
                        )
                    }
                },
                LanePhase::Paired { group, other, .. } => {
                    &&& r == (LaneStep::<L, W>::Pair {
                        lane: PendingLane {
                            class: old(self).expected_class,
                            peer: old(self).peer,
                            local_addr: old(self).local_addr,
                            group,
                            permit: old(self).permit->0,
                            handle,
                        },
                        other,
                    })
                    &&& *final(self) == old(self).at(LanePhase::Ended, None)
                    &&& final(registry)@ == old(registry)@
                    &&& *final(rejections) == *old(rejections)
                },
                _ => true,
            },
    {
        let mut phase = LanePhase::Ended;
        std::mem::swap(&mut phase, &mut self.phase);
        match phase {
            LanePhase::Reserved { nonce, .. } => {
                let lane = PreparedLane {
                    class: self.expected_class,
                    peer: self.peer,
                    local_addr: self.local_addr,
                    handle,
                };
                match confirm_reservation_or_reject(
                    registry,
                    rejections,
                    nonce,
                    lane,
                    self.expected_class,
                    elapsed,
                ) {
                    Some(changed) => LaneStep::Ready(changed),
                    None => LaneStep::End,
                }
            },
            LanePhase::Paired { group, other, .. } => {
                if let Some(permit) = self.permit.take() {
                    let lane = PendingLane {
                        class: self.expected_class,
                        peer: self.peer,
                        local_addr: self.local_addr,
                        group,
                        permit,
                        handle,
                    };
                    LaneStep::Pair { lane, other }
                } else {
                    proof {
                        assert(false);
                    }
                    LaneStep::End
                }
            },
            _ => {
                proof {
                    assert(false);
                }
                LaneStep::End
            },
        }
    }

    /// The peer has been left: the rejection is recorded, and a permit that
    /// the lane still holds goes back.
    pub fn rejected<W>(
        &mut self,
        context: RejectedLaneContext,
        elapsed: u64,
        registry: &mut PendingLaneRegistry<L, W>,
        rejections: &mut LaneRejectionLog,
    )
        requires
            old(self).phase is Ended,
        ensures
            final(self).wf(),
            final(rejections).recorded_after(
                old(rejections),
                RejectionView { reason: timed_reason(context.reason@, elapsed), ..context@ },
            ),
            final(registry)@ == after_release(old(registry)@, old(self).permit),
            *final(self) == (LaneAccept { permit: None, ..*old(self) }),
    {
        record_rejected_lane(rejections, context, elapsed);
        self.release(registry);
    }
}

// ---------------------------------------------------------------------------
// Expiry and pairing
// ---------------------------------------------------------------------------
/// What is recorded of a lane whose pairing deadline has passed.
pub open spec fn expiry_rejection<L>(expired: ExpiredPendingLane<L>, nonce_text: Seq<char>) -> RejectionView {
    match expired {
        ExpiredPendingLane::Building { peer, local_addr, class, .. } => RejectionView {
            class: LaneRejectionClass::PairingTimeout,
            peer,
            local_addr,
            expected_class: Some(class),
            reason: "pairing deadline expired while preparing lane; nonce="@ + nonce_text,
        },
        ExpiredPendingLane::Ready { lane, .. } => RejectionView {
            class: LaneRejectionClass::PairingTimeout,
            peer: lane.peer,
            local_addr: lane.local_addr,
            expected_class: Some(lane.class),
            reason: "pairing deadline expired; nonce="@ + nonce_text,
        },
    }
}

/// The permit that an expired lane still holds.
pub open spec fn expired_permit<L>(expired: ExpiredPendingLane<L>) -> PendingLanePermit {
    match expired {
        ExpiredPendingLane::Building { permit, .. } => permit,
        ExpiredPendingLane::Ready { lane, .. } => lane.permit,
    }
}

/// Records a lane whose pairing deadline has passed and takes its permit
/// back. `nonce_text` is the lane's nonce as it is to be shown. The lane
/// itself is handed back to be closed.
pub fn record_expired_lane<L, W>(
    registry: &mut PendingLaneRegistry<L, W>,
    rejections: &mut LaneRejectionLog,
    expired: ExpiredPendingLane<L>,
    nonce_text: &str,
) -> (handle: Option<L>)
    ensures
        final(rejections).recorded_after(old(rejections), expiry_rejection(expired, nonce_text@)),
        final(registry)@ == old(registry)@.releasing(expired_permit(expired).peer()),
        handle == match expired {
            ExpiredPendingLane::Building { .. } => None::<L>,
            ExpiredPendingLane::Ready { lane, .. } => Some(lane.handle),
        },
{
    match expired {
        ExpiredPendingLane::Building { peer, local_addr, class, permit, .. } => {
            let mut reason = owned("pairing deadline expired while preparing lane; nonce=");
            reason.append(nonce_text);
            rejections.record(
                RejectedLaneContext {
                    class: LaneRejectionClass::PairingTimeout,
                    peer,
                    local_addr,
                    expected_class: Some(class),
                    reason,
                },
            );
            registry.release(permit);
            None
        },
        ExpiredPendingLane::Ready { lane, .. } => {
            let mut reason = owned("pairing deadline expired; nonce=");
            reason.append(nonce_text);
            rejections.record(
                RejectedLaneContext {
                    class: LaneRejectionClass::PairingTimeout,
                    peer: lane.peer,
                    local_addr: lane.local_addr,
                    expected_class: Some(lane.class),
                    reason,
                },
            );
            registry.release(lane.permit);
            Some(lane.handle)
        },
    }
}

/// Two lanes that make a session.
#[derive(Debug)]
pub struct LanePair<L> {
    pub lane_a: L,
    pub lane_b: L,
    pub addrs: DualLaneSocketAddrs,
    /// The address that the session goes by: its interactive lane's.
    pub addr: SocketAddrPair,
    pub group: GroupToken,
}

/// Brings two lanes together. Neither is pending any more, whatever becomes
/// of the session.
pub fn pair_lanes<L, W>(
    registry: &mut PendingLaneRegistry<L, W>,
    lane_a: PendingLane<L>,
    lane_b: PendingLane<L>,
) -> (r: LanePair<L>)
    ensures
        ({
            let addrs = lane_addrs(
                lane_a.class,
                lane_a.peer,
                lane_a.local_addr,
                lane_b.peer,
                lane_b.local_addr,
            );
            r == (LanePair {
                lane_a: lane_a.handle,
                lane_b: lane_b.handle,
                addrs,
                addr: SocketAddrPair {
                    local_addr: addrs.interactive_local,
                    peer_addr: addrs.interactive_peer,
                },
                group: lane_a.group,
            })
        }),
        final(registry)@ == old(registry)@.releasing(lane_a.permit.peer()).releasing(
            lane_b.permit.peer(),
        ),
{
    let addrs = classify_lane_addrs(
        lane_a.class,
        lane_a.peer,
        lane_a.local_addr,
        lane_b.peer,
        lane_b.local_addr,
    );
    registry.release(lane_a.permit);
    registry.release(lane_b.permit);
    LanePair {
        lane_a: lane_a.handle,
        lane_b: lane_b.handle,
        addrs,
        addr: SocketAddrPair {
            local_addr: addrs.interactive_local,
            peer_addr: addrs.interactive_peer,
        },
        group: lane_a.group,
    }
}

// ---------------------------------------------------------------------------
// Accepting
// ---------------------------------------------------------------------------
/// Why a server stopped.
#[derive(Debug)]
pub enum ServeError {
    Accept { source: IoError, addr: SocketAddr },
    ExpiryWorkerStopped { addr: SocketAddr },
}

impl ServeError {
    /// The error as it is shown, with its address as it is shown.
    pub open spec fn text(&self, addr_text: Seq<char>) -> Seq<char> {
        match *self {
            ServeError::Accept { source, .. } => "Failed to accept connection: "@ + source.message@
                + ", "@ + addr_text,
            ServeError::ExpiryWorkerStopped {
                ..
            } => "Pending-lane expiry worker terminated unexpectedly; addr="@ + addr_text,
        }
    }

    pub fn message(&self, addr_text: &str) -> (r: String)
        ensures
            r@ == self.text(addr_text@),
    {
        match self {
            ServeError::Accept { source, .. } => {
                let mut text = owned("Failed to accept connection: ");
                text.append(source.message.as_str());
                text.append(", ");
                text.append(addr_text);
                text
            },
            ServeError::ExpiryWorkerStopped { .. } => {
                let mut text = owned("Pending-lane expiry worker terminated unexpectedly; addr=");
                text.append(addr_text);
                text
            },
        }
    }
}

/// What a listener does after it has tried to accept a lane.
#[derive(Debug)]
pub enum AcceptVerdict<S> {
    /// The lane goes on to [`LaneAccept::admit_lane`]; `recovered` says that
    /// the end of a streak of errors is to be logged.
    Lane { stream: S, recovered: bool },
    /// The listener waits and tries again; a wait of nothing only yields.
    Retry { delay: u64, warn: bool },
    /// The server stops.
    Fail { error: ServeError, warn: bool },
}

/// Takes in what accepting a lane came to.
pub fn handle_lane_accept<S>(
    accept: Result<S, IoError>,
    backoff: &mut AcceptErrorBackoff,
    addr: SocketAddr,
    now: u64,
) -> (r: AcceptVerdict<S>)
    requires
        accept is Err ==> old(backoff).error_count < u64::MAX,
    ensures
        match accept {
            Ok(stream) => {
                &&& r == (AcceptVerdict::Lane { stream, recovered: old(backoff).logged })
                &&& final(backoff).is_clear()
            },
            Err(error) => {
                let warned = old(backoff).warns_on(error.kind);
                &&& final(backoff).failed_from(old(backoff), error@, now)
                &&& if fatal(error.kind) {
                    match r {
                        AcceptVerdict::Fail { error: ServeError::Accept { source, addr: at }, warn } =>
                            source@ == error@ && at == addr && warn == warned,
                        _ => false,
                    }
                } else {
                    r == (AcceptVerdict::<S>::Retry {
                        delay: delay_after((old(backoff).error_count + 1) as nat) as u64,
                        warn: warned,
                    })
                }
            },
        },
        old(backoff).wf() ==> final(backoff).wf(),
{
    match accept {
        Ok(stream) => {
            let recovered = backoff.accepted();
            AcceptVerdict::Lane { stream, recovered }
        },
        Err(error) => {
            let dispatched = backoff.failed_dispatching(error, now);
            match dispatched.result {
                Ok(_) => AcceptVerdict::Retry {
                    delay: backoff.retry_delay(),
                    warn: dispatched.warn,
                },
                Err(source) => AcceptVerdict::Fail {
                    error: ServeError::Accept { source, addr },
                    warn: dispatched.warn,
                },
            }
        },
    }
}

/// What happened to a server besides a lane being accepted.
#[derive(Clone, Copy, Debug, PartialEq, Eq, Structural)]
pub enum ServeEvent {
    /// A lane's task ended as it is meant to.
    LaneAcceptStopped,
    /// A task ended with an error of its mux.
    MuxFailed,
    /// A task was cancelled.
    Cancelled,
    /// A task panicked.
    Panicked,
    /// What expires pending lanes ended.
    ExpiryWorkerEnded,
    /// It is time to log rejections.
    LogTick,
}

/// What a server does about it.
#[derive(Debug)]
pub enum ServeStep {
    Continue,
    /// The error is worth a warning.
    Warn,
    /// The panic goes on.
    Resume,
    /// Rejections are logged.
    Flush,
    Fail(ServeError),
}

pub fn serve_step(event: ServeEvent, addr: SocketAddr) -> (r: ServeStep)
    ensures
        r == match event {
            ServeEvent::LaneAcceptStopped => ServeStep::Continue,
            ServeEvent::Cancelled => ServeStep::Continue,
            ServeEvent::MuxFailed => ServeStep::Warn,
            ServeEvent::Panicked => ServeStep::Resume,
            ServeEvent::LogTick => ServeStep::Flush,
            ServeEvent::ExpiryWorkerEnded => ServeStep::Fail(
                ServeError::ExpiryWorkerStopped { addr },
            ),
        },
{
    match event {
        ServeEvent::LaneAcceptStopped => ServeStep::Continue,
        ServeEvent::Cancelled => ServeStep::Continue,
        ServeEvent::MuxFailed => ServeStep::Warn,
        ServeEvent::Panicked => ServeStep::Resume,
        ServeEvent::LogTick => ServeStep::Flush,
        ServeEvent::ExpiryWorkerEnded => ServeStep::Fail(ServeError::ExpiryWorkerStopped { addr }),
    }
}

// ---------------------------------------------------------------------------
// What rejecting, expiring and pairing come to
// ---------------------------------------------------------------------------
/// Each lane's addresses are its own: those of the interactive lane are the
/// interactive one's, whichever of the two lanes comes first.
pub proof fn lemma_lanes_keep_their_addresses(
    interactive_peer: SocketAddr,
    interactive_local: SocketAddr,
    bulk_peer: SocketAddr,
    bulk_local: SocketAddr,
)
    ensures
        ({
            let first = lane_addrs(
                LaneClass::Interactive,
                interactive_peer,
                interactive_local,
                bulk_peer,
                bulk_local,
            );
            let second = lane_addrs(
                LaneClass::Bulk,
                bulk_peer,
                bulk_local,
                interactive_peer,
                interactive_local,
            );
            &&& first == second
            &&& first.interactive_peer == interactive_peer
            &&& first.interactive_local == interactive_local
            &&& first.bulk_peer == bulk_peer
            &&& first.bulk_local == bulk_local
        }),
{
}

/// A reason that is recorded starts as it was given and ends with the whole
/// milliseconds that the lane had been at it.
pub proof fn lemma_reasons_end_with_the_time(reason: Seq<char>, elapsed: u64, millis: nat)
    requires
        millis * 1_000_000 <= elapsed < (millis + 1) * 1_000_000,
    ensures
        timed_reason(reason, elapsed) == reason + "; elapsed_ms="@ + decimal(millis),
        timed_reason(reason, elapsed).take(reason.len() as int) == reason,
{
    assert((elapsed / NANOS_PER_MILLI) as nat == millis);
    assert(timed_reason(reason, elapsed).take(reason.len() as int) =~= reason);
}

/// A lane whose heartbeat ran into its deadline is dropped, and one whose
/// heartbeat failed is told; what is recorded starts with where it stood, and
/// the time is the one that the heartbeat took.
pub proof fn lemma_a_failed_heartbeat_is_told_apart(
    reason: Seq<char>,
    source: String,
    elapsed: u64,
)
    ensures
        ({
            let late = BirthHeartbeatFailure::Timeout { elapsed };
            let broken = BirthHeartbeatFailure::Io { source, elapsed };
            &&& heartbeat_farewell(late) == Farewell::Drop
            &&& heartbeat_farewell(broken) == Farewell::Kill
            &&& heartbeat_elapsed(late) == elapsed
            &&& heartbeat_elapsed(broken) == elapsed
            &&& heartbeat_reason(reason, late) == reason + ": deadline elapsed"@
            &&& heartbeat_reason(reason, broken) == reason + ": "@ + source@
        }),
{
}

/// A lane that is turned away is turned away as itself: with its own addresses
/// and the class of the listener that it came to.
pub proof fn lemma_a_rejection_names_its_lane<L, W, M>(
    step: LaneStep<L, W>,
    lane: &LaneAccept<M>,
    farewell: Farewell,
    class: LaneRejectionClass,
    reason: Seq<char>,
    elapsed: u64,
)
    requires
        step.rejects(lane, farewell, class, reason, elapsed),
    ensures
        step matches LaneStep::Reject { farewell: f, context, elapsed: e } && f == farewell && e
            == elapsed && context.class == class && context.peer == lane.peer
            && context.local_addr == lane.local_addr && context.expected_class == Some(
            lane.expected_class,
        ) && context.reason@ == reason,
{
}

/// A permit that goes back makes room for one lane more of its own peer, and a
/// lane that holds none changes nothing.
pub proof fn lemma_a_permit_that_goes_back_makes_room<L, W>(
    registry: RegistryView<L, W>,
    permit: PendingLanePermit,
)
    requires
        registry.wf(),
        registry.per_peer.dom().contains(permit.peer()),
    ensures
        after_release(registry, Some(permit)).admitted + 1 == registry.admitted,
        after_release(registry, Some(permit)).of_peer(permit.peer()) + 1 == registry.of_peer(
            permit.peer(),
        ),
        after_release(registry, Some(permit)).entries == registry.entries,
        after_release(registry, Some(permit)).admission_refusal(permit.peer()) is None,
        after_release(registry, None) == registry,
{
    crate::admission::lemma_release_makes_room(registry, permit.peer());
    crate::admission::lemma_total_splits(registry.per_peer, permit.peer());
}

/// A lane in another phase is the same lane.
pub proof fn lemma_a_lane_keeps_its_addresses<L>(
    lane: LaneAccept<L>,
    phase: LanePhase<L>,
    permit: Option<PendingLanePermit>,
)
    ensures
        lane.at(phase, permit).peer == lane.peer,
        lane.at(phase, permit).local_addr == lane.local_addr,
        lane.at(phase, permit).expected_class == lane.expected_class,
        lane.at(phase, permit).phase == phase,
        lane.at(phase, permit).permit == permit,
{
}

/// What is recorded of a lane that expired is the lane's own: its addresses
/// and its class; that its deadline passed; its nonce; and whether it was
/// still being built.
pub proof fn lemma_an_expiry_names_its_lane<L>(
    nonce: PairingNonce,
    lane: PendingLane<L>,
    nonce_text: Seq<char>,
)
    ensures
        ({
            let ready = ExpiredPendingLane::Ready { nonce, lane };
            let building = ExpiredPendingLane::<L>::Building {
                nonce,
                peer: lane.peer,
                local_addr: lane.local_addr,
                class: lane.class,
                permit: lane.permit,
            };
            let a = expiry_rejection(ready, nonce_text);
            let b = expiry_rejection(building, nonce_text);
            &&& a.class == LaneRejectionClass::PairingTimeout && b.class
                == LaneRejectionClass::PairingTimeout
            &&& a.peer == lane.peer && b.peer == lane.peer
            &&& a.local_addr == lane.local_addr && b.local_addr == lane.local_addr
            &&& a.expected_class == Some(lane.class) && b.expected_class == Some(lane.class)
            &&& a.reason == "pairing deadline expired; nonce="@ + nonce_text
            &&& b.reason == "pairing deadline expired while preparing lane; nonce="@ + nonce_text
            &&& expired_permit(ready) == lane.permit
            &&& expired_permit(building) == lane.permit
        }),
{
}

/// What is recorded is what was rejected: its class, both addresses, the class
/// that was expected, and the reason.
pub proof fn lemma_a_rejection_is_recorded_whole(
    before: &LaneRejectionLog,
    after: &LaneRejectionLog,
    class: LaneRejectionClass,
    peer: SocketAddr,
    local_addr: SocketAddr,
    expected_class: LaneClass,
    reason: Seq<char>,
)
    requires
        rejection_recorded(before, after, class, peer, local_addr, expected_class, reason),
    ensures
        after.last is Some,
        (after.last->0).class == class,
        (after.last->0).peer == peer,
        (after.last->0).local_addr == local_addr,
        (after.last->0).expected_class == Some(expected_class),
        (after.last->0).reason@ == reason,
        before.count(class) < u64::MAX ==> after.count(class) == before.count(class) + 1,
        before.total < u64::MAX ==> after.total == before.total + 1,
{
}

/// A server's error ends with the address that it stopped at, and one of
/// accepting holds what went wrong.
pub proof fn lemma_a_server_says_where_it_stopped(
    source: IoError,
    addr: SocketAddr,
    addr_text: Seq<char>,
)
    ensures
        (ServeError::Accept { source, addr }).text(addr_text) == "Failed to accept connection: "@
            + source.message@ + ", "@ + addr_text,
        (ServeError::ExpiryWorkerStopped { addr }).text(addr_text)
            == "Pending-lane expiry worker terminated unexpectedly; addr="@ + addr_text,
{
}

} // verus!
