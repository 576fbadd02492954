//! Why lanes were turned away, counted between two log lines.

use vstd::prelude::*;

use crate::addr::SocketAddr;
use crate::lane::LaneClass;
use crate::text::copy_of;

verus! {

#[derive(Clone, Copy, Debug, PartialEq, Eq, Hash, Structural)]
pub enum LaneRejectionClass {
    Capacity,
    HelloTimeout,
    HelloParse,
    ClassMismatch,
    Admission,
    GroupFull,
    PairingTimeout,
    BirthHeartbeat,
    ReservationLost,
}

impl LaneRejectionClass {
    pub open spec fn index(self) -> int {
        match self {
            LaneRejectionClass::Capacity => 0,
            LaneRejectionClass::HelloTimeout => 1,
            LaneRejectionClass::HelloParse => 2,
            LaneRejectionClass::ClassMismatch => 3,
            LaneRejectionClass::Admission => 4,
            LaneRejectionClass::GroupFull => 5,
            LaneRejectionClass::PairingTimeout => 6,
            LaneRejectionClass::BirthHeartbeat => 7,
            LaneRejectionClass::ReservationLost => 8,
        }
    }

    pub open spec fn spec_metric_name(self) -> &'static str {
        match self {
            LaneRejectionClass::Capacity => "stream.rtp_mux.capacity_rejected",
            LaneRejectionClass::HelloTimeout => "stream.rtp_mux.hello_timeout",
            LaneRejectionClass::HelloParse => "stream.rtp_mux.hello_parse_error",
            LaneRejectionClass::ClassMismatch => "stream.rtp_mux.class_mismatch",
            LaneRejectionClass::Admission => "stream.rtp_mux.admission_rejected",
            LaneRejectionClass::GroupFull => "stream.rtp_mux.group_full",
            LaneRejectionClass::PairingTimeout => "stream.rtp_mux.pairing_timeout",
            LaneRejectionClass::BirthHeartbeat => "stream.rtp_mux.birth_heartbeat_error",
            LaneRejectionClass::ReservationLost => "stream.rtp_mux.reservation_lost",
        }
    }

    /// The counter that this class of rejection is counted into.
    pub fn metric_name(self) -> (r: &'static str)
        ensures
            r == self.spec_metric_name(),
    {
        match self {
            LaneRejectionClass::Capacity => "stream.rtp_mux.capacity_rejected",
            LaneRejectionClass::HelloTimeout => "stream.rtp_mux.hello_timeout",
            LaneRejectionClass::HelloParse => "stream.rtp_mux.hello_parse_error",
            LaneRejectionClass::ClassMismatch => "stream.rtp_mux.class_mismatch",
            LaneRejectionClass::Admission => "stream.rtp_mux.admission_rejected",
            LaneRejectionClass::GroupFull => "stream.rtp_mux.group_full",
            LaneRejectionClass::PairingTimeout => "stream.rtp_mux.pairing_timeout",
            LaneRejectionClass::BirthHeartbeat => "stream.rtp_mux.birth_heartbeat_error",
            LaneRejectionClass::ReservationLost => "stream.rtp_mux.reservation_lost",
        }
    }

    fn slot(self) -> (r: usize)
        ensures
            r == self.index(),
    {
        match self {
            LaneRejectionClass::Capacity => 0,
            LaneRejectionClass::HelloTimeout => 1,
            LaneRejectionClass::HelloParse => 2,
            LaneRejectionClass::ClassMismatch => 3,
            LaneRejectionClass::Admission => 4,
            LaneRejectionClass::GroupFull => 5,
            LaneRejectionClass::PairingTimeout => 6,
            LaneRejectionClass::BirthHeartbeat => 7,
            LaneRejectionClass::ReservationLost => 8,
        }
    }
}

/// No two classes of rejection count into one counter.
pub proof fn lemma_metric_names_are_distinct(a: LaneRejectionClass, b: LaneRejectionClass)
    ensures
        a.spec_metric_name()@ == b.spec_metric_name()@ ==> a == b,
{
    reveal_strlit("stream.rtp_mux.capacity_rejected");
    reveal_strlit("stream.rtp_mux.hello_timeout");
    reveal_strlit("stream.rtp_mux.hello_parse_error");
    reveal_strlit("stream.rtp_mux.class_mismatch");
    reveal_strlit("stream.rtp_mux.admission_rejected");
    reveal_strlit("stream.rtp_mux.group_full");
    reveal_strlit("stream.rtp_mux.pairing_timeout");
    reveal_strlit("stream.rtp_mux.birth_heartbeat_error");
    reveal_strlit("stream.rtp_mux.reservation_lost");
    let x = a.spec_metric_name()@;
    let y = b.spec_metric_name()@;
    if x == y {
        assert(x[15] == y[15] && x[16] == y[16] && x[17] == y[17]);
        assert(x.len() == y.len());
    }
}

/// One rejection: which lane, and why.
#[derive(Debug)]
pub struct RejectedLaneContext {
    pub class: LaneRejectionClass,
    pub peer: SocketAddr,
    pub local_addr: SocketAddr,
    pub expected_class: Option<LaneClass>,
    pub reason: String,
}

/// What a rejection says.
#[verifier::ext_equal]
pub struct RejectionView {
    pub class: LaneRejectionClass,
    pub peer: SocketAddr,
    pub local_addr: SocketAddr,
    pub expected_class: Option<LaneClass>,
    pub reason: Seq<char>,
}

impl View for RejectedLaneContext {
    type V = RejectionView;

    open spec fn view(&self) -> RejectionView {
        RejectionView {
            class: self.class,
            peer: self.peer,
            local_addr: self.local_addr,
            expected_class: self.expected_class,
            reason: self.reason@,
        }
    }
}

impl RejectedLaneContext {
    pub fn duplicate(&self) -> (r: RejectedLaneContext)
        ensures
            r@ == self@,
    {
        RejectedLaneContext {
            class: self.class,
            peer: self.peer,
            local_addr: self.local_addr,
            expected_class: self.expected_class,
            reason: copy_of(&self.reason),
        }
    }
}

/// The rejections since the last line was logged.
#[derive(Debug)]
pub struct LaneRejectionLog {
    pub total: u64,
    pub by_class: [u64; 9],
    pub first: Option<RejectedLaneContext>,
    pub last: Option<RejectedLaneContext>,
}

pub open spec fn saturating_incr(n: u64) -> u64 {
    if n == u64::MAX {
        n
    } else {
        (n + 1) as u64
    }
}

impl LaneRejectionLog {
    /// How many rejections of a class have been recorded.
    pub open spec fn count(&self, class: LaneRejectionClass) -> u64 {
        self.by_class@[class.index()]
    }

    /// A log with nothing recorded.
    pub open spec fn is_clear(&self) -> bool {
        &&& self.total == 0
        &&& forall|class: LaneRejectionClass| #[trigger] self.count(class) == 0
        &&& self.first is None
        &&& self.last is None
    }

    /// The rejections of all classes.
    pub open spec fn sum(&self) -> int {
        self.by_class@[0] + self.by_class@[1] + self.by_class@[2] + self.by_class@[3]
            + self.by_class@[4] + self.by_class@[5] + self.by_class@[6] + self.by_class@[7]
            + self.by_class@[8]
    }

    /// A log that has recorded anything keeps its first and its last context.
    pub open spec fn wf(&self) -> bool {
        self.total == 0 || (self.first is Some && self.last is Some)
    }

    pub fn new() -> (r: LaneRejectionLog)
        ensures
            r.is_clear(),
            r.wf(),
            r.total == r.sum(),
    {
        LaneRejectionLog { total: 0, by_class: [0; 9], first: None, last: None }
    }

    /// The log after `context` has been recorded in `before`.
    pub open spec fn recorded_after(
        &self,
        before: &LaneRejectionLog,
        context: RejectionView,
    ) -> bool {
        &&& self.total == saturating_incr(before.total)
        &&& forall|class: LaneRejectionClass| #[trigger]
            self.count(class) == if class == context.class {
                saturating_incr(before.count(class))
            } else {
                before.count(class)
            }
        &&& match before.first {
            Some(f) => self.first == Some(f),
            None => self.first is Some && self.first->0@ == context,
        }
        &&& self.last is Some && self.last->0@ == context
    }

    /// Records one rejection; the caller counts it into
    /// [`LaneRejectionClass::metric_name`].
    pub fn record(&mut self, context: RejectedLaneContext)
        ensures
            final(self).recorded_after(old(self), context@),
            final(self).wf(),
            old(self).total == old(self).sum() && old(self).total < u64::MAX ==> final(self).total
                == final(self).sum(),
    {
        if self.total < u64::MAX {
            self.total = self.total + 1;
        }
        let slot: usize = context.class.slot();
        let n: u64 = self.by_class[slot];
        if n < u64::MAX {
            self.by_class[slot] = n + 1;
        }
        if self.first.is_none() {
            self.first = Some(context.duplicate());
        }
        self.last = Some(context);
    }

    pub fn recorded(&self, class: LaneRejectionClass) -> (r: u64)
        ensures
            r == self.count(class),
    {
        self.by_class[class.slot()]
    }

    /// Hands out what is to be logged and starts over; `None` where nothing
    /// was rejected since.
    pub fn flush(&mut self) -> (r: Option<LaneRejectionLog>)
        ensures
            match r {
                Some(summary) => old(self).total != 0 && summary == *old(self)
                    && final(self).is_clear(),
                None => old(self).total == 0 && *final(self) == *old(self),
            },
            old(self).wf() ==> final(self).wf(),
    {
        if self.total == 0 {
            return None;
        }
        let mut summary = LaneRejectionLog::new();
        std::mem::swap(&mut summary, self);
        Some(summary)
    }
}

/// Each class is counted on its own, and each has a place among the counts.
pub proof fn lemma_classes_are_counted_apart(a: LaneRejectionClass, b: LaneRejectionClass)
    ensures
        0 <= a.index() < 9,
        a.index() == b.index() ==> a == b,
{
}

/// A rejection counts once in the total and once in its own class, below the
/// limit; at the limit the counts stay. The first that was recorded since the
/// log was cleared stays the first, and the one just recorded is the last.
pub proof fn lemma_a_rejection_counts_once(
    before: &LaneRejectionLog,
    after: &LaneRejectionLog,
    context: RejectionView,
    other: LaneRejectionClass,
)
    requires
        after.recorded_after(before, context),
    ensures
        before.total < u64::MAX ==> after.total == before.total + 1,
        before.total == u64::MAX ==> after.total == u64::MAX,
        before.count(context.class) < u64::MAX ==> after.count(context.class) == before.count(
            context.class,
        ) + 1,
        before.count(context.class) == u64::MAX ==> after.count(context.class) == u64::MAX,
        other != context.class ==> after.count(other) == before.count(other),
        before.first is Some ==> after.first == before.first,
        before.first is None ==> after.first is Some && (after.first->0)@ == context,
        after.last is Some && (after.last->0)@ == context,
{
}

/// A log with nothing recorded has counted nothing and remembers nothing.
pub proof fn lemma_a_clear_log_is_empty(log: &LaneRejectionLog, class: LaneRejectionClass)
    requires
        log.is_clear(),
    ensures
        log.total == 0,
        log.count(class) == 0,
        log.sum() == 0,
        log.first is None,
        log.last is None,
{
    assert(log.count(LaneRejectionClass::Capacity) == 0);
    assert(log.count(LaneRejectionClass::HelloTimeout) == 0);
    assert(log.count(LaneRejectionClass::HelloParse) == 0);
    assert(log.count(LaneRejectionClass::ClassMismatch) == 0);
    assert(log.count(LaneRejectionClass::Admission) == 0);
    assert(log.count(LaneRejectionClass::GroupFull) == 0);
    assert(log.count(LaneRejectionClass::PairingTimeout) == 0);
    assert(log.count(LaneRejectionClass::BirthHeartbeat) == 0);
    assert(log.count(LaneRejectionClass::ReservationLost) == 0);
}

/// The total is the sum over the classes, whatever was recorded, as long as it
/// is below the limit.
pub proof fn lemma_the_total_is_the_sum(
    before: &LaneRejectionLog,
    after: &LaneRejectionLog,
    context: RejectionView,
)
    requires
        after.recorded_after(before, context),
        before.total == before.sum(),
        before.total < u64::MAX,
    ensures
        after.total == after.sum(),
        after.sum() == before.sum() + 1,
{
    assert(after.count(LaneRejectionClass::Capacity) == after.by_class@[0]);
    assert(after.count(LaneRejectionClass::HelloTimeout) == after.by_class@[1]);
    assert(after.count(LaneRejectionClass::HelloParse) == after.by_class@[2]);
    assert(after.count(LaneRejectionClass::ClassMismatch) == after.by_class@[3]);
    assert(after.count(LaneRejectionClass::Admission) == after.by_class@[4]);
    assert(after.count(LaneRejectionClass::GroupFull) == after.by_class@[5]);
    assert(after.count(LaneRejectionClass::PairingTimeout) == after.by_class@[6]);
    assert(after.count(LaneRejectionClass::BirthHeartbeat) == after.by_class@[7]);
    assert(after.count(LaneRejectionClass::ReservationLost) == after.by_class@[8]);
}

} // verus!
