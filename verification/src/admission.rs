//! Admission of lanes that are not paired yet, and their pairing.
//!
//! A lane is admitted against a total and a per-peer limit and holds a
//! [`PendingLanePermit`] until it is paired or turned away. The first lane of
//! a pair reserves the pairing nonce; the second one takes the first out.
//! `L` is what a lane owns (its streams and tasks), `W` is what wakes the
//! lanes that wait for a reservation to change.

use vstd::prelude::*;

use crate::addr::{IpAddr, SocketAddr};
use crate::assoc::{listed, with_key, without, AssocMap};
use crate::lane::{GroupToken, LaneClass, PairingNonce};
use crate::shared::{MAX_PENDING_LANES, MAX_PENDING_LANES_PER_PEER, PAIRING_DEADLINE};

verus! {

/// The right to hold one pending lane. Only [`PendingLaneRegistry::try_admit`]
/// gives one out, and it goes back through [`PendingLaneRegistry::release`].
#[derive(Debug)]
pub struct PendingLanePermit {
    peer: IpAddr,
}

impl PendingLanePermit {
    /// The peer that the permit is counted against.
    pub closed spec fn peer(&self) -> IpAddr {
        self.peer
    }
}

/// A lane that has been built and waits for the other one.
#[derive(Debug)]
pub struct PendingLane<L> {
    pub class: LaneClass,
    pub peer: SocketAddr,
    pub local_addr: SocketAddr,
    pub group: GroupToken,
    pub permit: PendingLanePermit,
    pub handle: L,
}

/// A lane that has been built for a reservation that holds its permit.
#[derive(Debug)]
pub struct PreparedLane<L> {
    pub class: LaneClass,
    pub peer: SocketAddr,
    pub local_addr: SocketAddr,
    pub handle: L,
}

/// What becomes of a lane that has said its hello.
#[derive(Debug)]
pub enum PendingLaneAdmission<L> {
    /// It is the first of its pair, and its permit moved into the reservation.
    Reserved,
    /// The other lane is still being built.
    Wait { expires_at: u64 },
    /// The other lane is ready and has been taken out.
    Pair { lane: PendingLane<L>, expires_at: u64 },
    Reject(&'static str),
}

pub enum PendingLaneEntry<L, W> {
    Building {
        peer: SocketAddr,
        local_addr: SocketAddr,
        class: LaneClass,
        group: GroupToken,
        expires_at: u64,
        changed: W,
        permit: PendingLanePermit,
    },
    Ready { lane: PendingLane<L>, expires_at: u64 },
}

/// A lane whose pairing deadline passed. It still holds its permit.
#[derive(Debug)]
pub enum ExpiredPendingLane<L> {
    Building {
        nonce: PairingNonce,
        peer: SocketAddr,
        local_addr: SocketAddr,
        class: LaneClass,
        permit: PendingLanePermit,
    },
    Ready { nonce: PairingNonce, lane: PendingLane<L> },
}

/// What a waiting lane finds.
#[derive(Debug)]
pub enum PendingLaneWait<L> {
    Pair(PendingLane<L>),
    Timeout,
    ReservationLost(&'static str),
}

#[derive(Debug)]
pub enum PairingPoll<L> {
    Done(PendingLaneWait<L>),
    Wait,
}

impl<L, W> PendingLaneEntry<L, W> {
    pub open spec fn spec_peer(&self) -> SocketAddr {
        match *self {
            PendingLaneEntry::Building { peer, .. } => peer,
            PendingLaneEntry::Ready { lane, .. } => lane.peer,
        }
    }

    pub open spec fn spec_class(&self) -> LaneClass {
        match *self {
            PendingLaneEntry::Building { class, .. } => class,
            PendingLaneEntry::Ready { lane, .. } => lane.class,
        }
    }

    pub open spec fn spec_expires_at(&self) -> u64 {
        match *self {
            PendingLaneEntry::Building { expires_at, .. } => expires_at,
            PendingLaneEntry::Ready { expires_at, .. } => expires_at,
        }
    }

    pub open spec fn spec_group(&self) -> GroupToken {
        match *self {
            PendingLaneEntry::Building { group, .. } => group,
            PendingLaneEntry::Ready { lane, .. } => lane.group,
        }
    }

    #[verifier::when_used_as_spec(spec_peer)]
    pub fn peer(&self) -> (r: SocketAddr)
        ensures
            r == self.spec_peer(),
    {
        match self {
            PendingLaneEntry::Building { peer, .. } => *peer,
            PendingLaneEntry::Ready { lane, .. } => lane.peer,
        }
    }

    #[verifier::when_used_as_spec(spec_class)]
    pub fn class(&self) -> (r: LaneClass)
        ensures
            r == self.spec_class(),
    {
        match self {
            PendingLaneEntry::Building { class, .. } => *class,
            PendingLaneEntry::Ready { lane, .. } => lane.class,
        }
    }

    #[verifier::when_used_as_spec(spec_expires_at)]
    pub fn expires_at(&self) -> (r: u64)
        ensures
            r == self.spec_expires_at(),
    {
        match self {
            PendingLaneEntry::Building { expires_at, .. } => *expires_at,
            PendingLaneEntry::Ready { expires_at, .. } => *expires_at,
        }
    }

    #[verifier::when_used_as_spec(spec_group)]
    pub fn group(&self) -> (r: GroupToken)
        ensures
            r == self.spec_group(),
    {
        match self {
            PendingLaneEntry::Building { group, .. } => *group,
            PendingLaneEntry::Ready { lane, .. } => lane.group,
        }
    }

    /// The permit that the entry holds.
    pub open spec fn permit(&self) -> PendingLanePermit {
        match *self {
            PendingLaneEntry::Building { permit, .. } => permit,
            PendingLaneEntry::Ready { lane, .. } => lane.permit,
        }
    }

    /// Why a lane of that class from that peer cannot go with this entry.
    pub open spec fn mismatch(&self, class: LaneClass, peer: SocketAddr) -> Option<&'static str> {
        if self.peer().ip() != peer.ip() {
            Some("pairing nonce peer mismatch")
        } else if self.class() == class {
            Some("duplicate lane class for pairing nonce")
        } else {
            None
        }
    }

    /// Why a lane that says its hello cannot go with this entry.
    pub open spec fn refusal(&self, class: LaneClass, peer: SocketAddr, group: GroupToken) -> Option<
        &'static str,
    > {
        match self.mismatch(class, peer) {
            Some(reason) => Some(reason),
            None => if self.group() != group {
                Some("group token mismatch between lanes")
            } else {
                None
            },
        }
    }
}

/// What a registry holds.
#[verifier::ext_equal]
pub struct RegistryView<L, W> {
    pub entries: Map<PairingNonce, PendingLaneEntry<L, W>>,
    /// The nonces in the order in which they were reserved.
    pub order: Seq<PairingNonce>,
    pub admitted: nat,
    pub per_peer: Map<IpAddr, usize>,
    /// Whether the entries changed since the expiry worker last looked.
    pub changed: bool,
}

/// The sum of a table of counts.
pub open spec fn total(counts: Map<IpAddr, usize>) -> nat
    decreases counts.dom().len(),
    when counts.dom().finite()
{
    if counts.dom().len() == 0 {
        0
    } else {
        let k = counts.dom().choose();
        counts[k] as nat + total(counts.remove(k))
    }
}

/// The sum of a table is any one count and the sum of the others.
pub proof fn lemma_total_splits(counts: Map<IpAddr, usize>, k: IpAddr)
    requires
        counts.dom().finite(),
        counts.dom().contains(k),
    ensures
        total(counts) == counts[k] as nat + total(counts.remove(k)),
    decreases counts.dom().len(),
{
    let c = counts.dom().choose();
    assert(counts.dom().len() != 0);
    assert(counts.dom().contains(c));
    if c != k {
        lemma_total_splits(counts.remove(c), k);
        lemma_total_splits(counts.remove(k), c);
        assert(counts.remove(c).remove(k) =~= counts.remove(k).remove(c));
    }
}

/// Adding a count to a table adds it to the sum.
proof fn lemma_total_insert(counts: Map<IpAddr, usize>, k: IpAddr, n: usize)
    requires
        counts.dom().finite(),
    ensures
        total(counts.insert(k, n)) == total(counts.remove(k)) + n,
        counts.dom().contains(k) ==> total(counts) == total(counts.remove(k)) + counts[k],
        !counts.dom().contains(k) ==> total(counts) == total(counts.remove(k)),
{
    lemma_total_splits(counts.insert(k, n), k);
    assert(counts.insert(k, n).remove(k) =~= counts.remove(k));
    if counts.dom().contains(k) {
        lemma_total_splits(counts, k);
    } else {
        assert(counts.remove(k) =~= counts);
    }
}

impl<L, W> RegistryView<L, W> {
    /// Each nonce that is reserved stands in the order once, the limits hold,
    /// and the total is the sum over the peers.
    pub open spec fn wf(self) -> bool {
        &&& listed(self.entries, self.order)
        &&& self.per_peer.dom().finite()
        &&& self.admitted <= MAX_PENDING_LANES
        &&& forall|ip: IpAddr| #[trigger]
            self.per_peer.dom().contains(ip) ==> 1 <= self.per_peer[ip]
                <= MAX_PENDING_LANES_PER_PEER
        &&& self.admitted == total(self.per_peer)
    }

    /// The number of lanes pending for one peer.
    pub open spec fn of_peer(self, ip: IpAddr) -> usize {
        if self.per_peer.dom().contains(ip) {
            self.per_peer[ip]
        } else {
            0
        }
    }

    /// Why no lane of that peer can be admitted.
    pub open spec fn admission_refusal(self, ip: IpAddr) -> Option<&'static str> {
        if self.admitted >= MAX_PENDING_LANES {
            Some("total pending lane capacity exhausted")
        } else if self.of_peer(ip) >= MAX_PENDING_LANES_PER_PEER {
            Some("per-peer pending lane capacity exhausted")
        } else {
            None
        }
    }

    /// One more lane is pending for the peer.
    pub open spec fn admitting(self, ip: IpAddr) -> Self {
        RegistryView {
            admitted: self.admitted + 1,
            per_peer: self.per_peer.insert(ip, (self.of_peer(ip) + 1) as usize),
            ..self
        }
    }

    /// One lane less is pending for the peer; a peer without any is forgotten.
    pub open spec fn releasing(self, ip: IpAddr) -> Self {
        RegistryView {
            admitted: if self.admitted == 0 {
                0
            } else {
                (self.admitted - 1) as nat
            },
            per_peer: if self.of_peer(ip) <= 1 {
                self.per_peer.remove(ip)
            } else {
                self.per_peer.insert(ip, (self.per_peer[ip] - 1) as usize)
            },
            ..self
        }
    }

    /// The nonce is taken out.
    pub open spec fn take(self, nonce: PairingNonce) -> Self {
        RegistryView {
            entries: self.entries.remove(nonce),
            order: without(self.order, nonce),
            changed: true,
            ..self
        }
    }

    /// The nonce is given an entry.
    pub open spec fn put(self, nonce: PairingNonce, entry: PendingLaneEntry<L, W>) -> Self {
        RegistryView {
            entries: self.entries.insert(nonce, entry),
            order: with_key(self.order, nonce),
            changed: true,
            ..self
        }
    }

    pub open spec fn holds(self, nonce: PairingNonce) -> bool {
        self.entries.dom().contains(nonce)
    }

    /// What has expired is taken out.
    pub open spec fn expired(self, now: u64) -> Self {
        RegistryView {
            entries: unexpired(self.entries, now),
            order: not_due(self.order, self.entries, now),
            ..self
        }
    }

    /// Whether the nonce is reserved by that very lane, which is being built.
    pub open spec fn is_building(
        self,
        nonce: PairingNonce,
        peer: SocketAddr,
        class: LaneClass,
    ) -> bool {
        &&& self.holds(nonce)
        &&& self.entries[nonce] is Building
        &&& self.entries[nonce].peer() == peer
        &&& self.entries[nonce].class() == class
    }

    /// What a waiting lane finds, and what that leaves.
    pub open spec fn pair_wait(
        self,
        nonce: PairingNonce,
        class: LaneClass,
        peer: SocketAddr,
        expires_at: u64,
        now: u64,
    ) -> (Self, PairingPoll<L>) {
        if !self.holds(nonce) {
            (
                self,
                PairingPoll::Done(
                    PendingLaneWait::ReservationLost("pairing reservation disappeared"),
                ),
            )
        } else {
            match self.entries[nonce].mismatch(class, peer) {
                Some(reason) => (self, PairingPoll::Done(PendingLaneWait::ReservationLost(reason))),
                None => match self.entries[nonce] {
                    PendingLaneEntry::Ready { lane, .. } => (
                        self.take(nonce),
                        PairingPoll::Done(PendingLaneWait::Pair(lane)),
                    ),
                    PendingLaneEntry::Building { .. } => if now >= expires_at {
                        (self, PairingPoll::Done(PendingLaneWait::Timeout))
                    } else {
                        (self, PairingPoll::Wait)
                    },
                },
            }
        }
    }
}

/// The nonces of `order` whose deadline has passed.
pub open spec fn due<L, W>(
    order: Seq<PairingNonce>,
    entries: Map<PairingNonce, PendingLaneEntry<L, W>>,
    now: u64,
) -> Seq<PairingNonce>
    decreases order.len(),
{
    if order.len() == 0 {
        Seq::empty()
    } else {
        let rest = due(order.drop_last(), entries, now);
        if entries[order.last()].expires_at() <= now {
            rest.push(order.last())
        } else {
            rest
        }
    }
}

/// The nonces of `order` whose deadline is still to come.
pub open spec fn not_due<L, W>(
    order: Seq<PairingNonce>,
    entries: Map<PairingNonce, PendingLaneEntry<L, W>>,
    now: u64,
) -> Seq<PairingNonce>
    decreases order.len(),
{
    if order.len() == 0 {
        Seq::empty()
    } else {
        let rest = not_due(order.drop_last(), entries, now);
        if entries[order.last()].expires_at() <= now {
            rest
        } else {
            rest.push(order.last())
        }
    }
}

/// What is left of an entry whose deadline has passed.
pub open spec fn expired_of<L, W>(
    nonce: PairingNonce,
    entry: PendingLaneEntry<L, W>,
) -> ExpiredPendingLane<L> {
    match entry {
        PendingLaneEntry::Building { peer, local_addr, class, permit, .. } => {
            ExpiredPendingLane::Building { nonce, peer, local_addr, class, permit }
        },
        PendingLaneEntry::Ready { lane, .. } => ExpiredPendingLane::Ready { nonce, lane },
    }
}

/// The entries whose deadline is still to come.
pub open spec fn unexpired<L, W>(
    entries: Map<PairingNonce, PendingLaneEntry<L, W>>,
    now: u64,
) -> Map<PairingNonce, PendingLaneEntry<L, W>> {
    Map::new(
        |n: PairingNonce| entries.dom().contains(n) && entries[n].expires_at() > now,
        |n: PairingNonce| entries[n],
    )
}

/// Giving a permit back undoes its admission, down to the last count.
pub proof fn lemma_release_undoes_admit<L, W>(v: RegistryView<L, W>, ip: IpAddr)
    requires
        v.wf(),
        v.admission_refusal(ip) is None,
    ensures
        v.admitting(ip).releasing(ip) == v,
{
    let w = v.admitting(ip).releasing(ip);
    assert(w.per_peer =~= v.per_peer);
    assert(w =~= v);
}

/// A released slot can be admitted again, whatever it was that was full.
pub proof fn lemma_release_makes_room<L, W>(v: RegistryView<L, W>, ip: IpAddr)
    requires
        v.wf(),
        v.per_peer.dom().contains(ip),
    ensures
        v.releasing(ip).admission_refusal(ip) is None,
        v.releasing(ip).wf(),
{
    lemma_release_keeps_wf(v, ip);
    lemma_total_splits(v.per_peer, ip);
}

/// A lane that finds a ready partner, fails, and restores it leaves the
/// registry's entries as they were.
pub proof fn lemma_reinsert_restores<L, W>(v: RegistryView<L, W>, nonce: PairingNonce)
    requires
        v.holds(nonce),
    ensures
        v.take(nonce).put(nonce, v.entries[nonce]).entries == v.entries,
        v.take(nonce).put(nonce, v.entries[nonce]).admitted == v.admitted,
        v.take(nonce).put(nonce, v.entries[nonce]).per_peer == v.per_peer,
{
    assert(v.entries.remove(nonce).insert(nonce, v.entries[nonce]) =~= v.entries);
}

/// The two lanes of a pair are of different classes, come from one host and
/// belong to one group; and where they do, they are not refused.
pub proof fn lemma_paired_lanes_match<L, W>(
    entry: PendingLaneEntry<L, W>,
    class: LaneClass,
    peer: SocketAddr,
    group: GroupToken,
)
    ensures
        entry.refusal(class, peer, group) is None <==> entry.class() == class.opposite()
            && entry.peer().ip() == peer.ip() && entry.group() == group,
{
}

/// Expiry takes every nonce whose deadline has passed and no other.
pub proof fn lemma_expiry_is_exact<L, W>(
    order: Seq<PairingNonce>,
    entries: Map<PairingNonce, PendingLaneEntry<L, W>>,
    now: u64,
    n: PairingNonce,
)
    ensures
        due(order, entries, now).contains(n) <==> order.contains(n) && entries[n].expires_at()
            <= now,
        not_due(order, entries, now).contains(n) <==> order.contains(n) && entries[n].expires_at()
            > now,
    decreases order.len(),
{
    if order.len() > 0 {
        let rest = order.drop_last();
        lemma_expiry_is_exact(rest, entries, now, n);
        let last = order.last();
        assert(order.contains(n) <==> rest.contains(n) || n == last) by {
            assert(order =~= rest.push(last));
            if rest.contains(n) {
                let i = rest.index_of(n);
                assert(order[i] == n);
            }
            if n == last {
                assert(order[order.len() - 1] == n);
            }
        }
        let d = due(rest, entries, now);
        let k = not_due(rest, entries, now);
        assert(d.push(last).contains(n) <==> d.contains(n) || n == last) by {
            if d.contains(n) {
                assert(d.push(last)[d.index_of(n)] == n);
            }
            assert(d.push(last)[d.len() as int] == last);
        }
        assert(k.push(last).contains(n) <==> k.contains(n) || n == last) by {
            if k.contains(n) {
                assert(k.push(last)[k.index_of(n)] == n);
            }
            assert(k.push(last)[k.len() as int] == last);
        }
    }
}

proof fn lemma_due_is_distinct<L, W>(
    order: Seq<PairingNonce>,
    entries: Map<PairingNonce, PendingLaneEntry<L, W>>,
    now: u64,
)
    requires
        order.no_duplicates(),
    ensures
        due(order, entries, now).no_duplicates(),
    decreases order.len(),
{
    if order.len() > 0 {
        let rest = order.drop_last();
        lemma_due_is_distinct(rest, entries, now);
        lemma_expiry_is_exact(rest, entries, now, order.last());
        assert(!rest.contains(order.last()));
    }
}

/// Expiry hands out every entry whose deadline has passed, each once, and no
/// other; the others stay as they are. What is left has its deadline still to
/// come, so that expiring once more at the same time hands out nothing.
pub proof fn lemma_expiry_takes_each_once<L, W>(v: RegistryView<L, W>, now: u64)
    requires
        v.wf(),
    ensures
        due(v.order, v.entries, now).no_duplicates(),
        forall|n: PairingNonce|
            due(v.order, v.entries, now).contains(n) <==> #[trigger] v.holds(n)
                && v.entries[n].expires_at() <= now,
        forall|n: PairingNonce| #[trigger]
            v.expired(now).holds(n) <==> v.holds(n) && v.entries[n].expires_at() > now,
        forall|n: PairingNonce| #[trigger]
            v.expired(now).holds(n) ==> v.expired(now).entries[n] == v.entries[n]
                && v.expired(now).entries[n].expires_at() > now,
        due(v.expired(now).order, v.expired(now).entries, now).len() == 0,
{
    lemma_due_is_distinct(v.order, v.entries, now);
    assert forall|n: PairingNonce|
        due(v.order, v.entries, now).contains(n) <==> #[trigger] v.holds(n)
            && v.entries[n].expires_at() <= now by {
        lemma_expiry_is_exact(v.order, v.entries, now, n);
        assert(crate::assoc::holds(v.order, n) <==> v.order.contains(n));
        assert(v.entries.dom().contains(n) <==> crate::assoc::holds(v.order, n));
    }
    let after = v.expired(now);
    let again = due(after.order, after.entries, now);
    if again.len() > 0 {
        let n = again[0];
        assert(again.contains(n));
        lemma_expiry_is_exact(after.order, after.entries, now, n);
        lemma_expiry_is_exact(v.order, v.entries, now, n);
        assert(crate::assoc::holds(v.order, n) <==> v.order.contains(n));
        assert(v.entries.dom().contains(n) <==> crate::assoc::holds(v.order, n));
        assert(after.holds(n));
    }
}

/// A lane that is admitted and turned away leaves the registry as it found
/// it, whether it had reserved its nonce or not.
pub proof fn lemma_rejection_leaves_no_trace<L, W>(
    v: RegistryView<L, W>,
    nonce: PairingNonce,
    entry: PendingLaneEntry<L, W>,
    ip: IpAddr,
)
    requires
        v.wf(),
        !v.holds(nonce),
        v.admission_refusal(ip) is None,
    ensures
        v.admitting(ip).releasing(ip) == v,
        ({
            let after = v.admitting(ip).put(nonce, entry).take(nonce).releasing(ip);
            &&& after.entries == v.entries
            &&& after.admitted == v.admitted
            &&& after.per_peer == v.per_peer
        }),
{
    lemma_release_undoes_admit(v, ip);
    let after = v.admitting(ip).put(nonce, entry).take(nonce).releasing(ip);
    assert(after.entries =~= v.entries);
    assert(after.per_peer =~= v.per_peer);
}

/// Two lanes of one host that are admitted and paired under a free nonce
/// leave the registry as they found it: both permits are back and nothing is
/// pending for them.
pub proof fn lemma_pairing_leaves_no_trace<L, W>(
    v: RegistryView<L, W>,
    nonce: PairingNonce,
    building: PendingLaneEntry<L, W>,
    ready: PendingLaneEntry<L, W>,
    ip: IpAddr,
)
    requires
        v.wf(),
        !v.holds(nonce),
        v.admission_refusal(ip) is None,
        v.admitting(ip).admission_refusal(ip) is None,
    ensures
        ({
            let first = v.admitting(ip).put(nonce, building).take(nonce).put(nonce, ready);
            let after = first.admitting(ip).take(nonce).releasing(ip).releasing(ip);
            &&& first.admission_refusal(ip) is None
            &&& after.entries == v.entries
            &&& after.admitted == v.admitted
            &&& after.per_peer == v.per_peer
        }),
{
    let first = v.admitting(ip).put(nonce, building).take(nonce).put(nonce, ready);
    let after = first.admitting(ip).take(nonce).releasing(ip).releasing(ip);
    assert(after.entries =~= v.entries);
    assert(after.per_peer =~= v.per_peer);
}

/// Admission within the limits keeps the limits and the sum.
pub proof fn lemma_admit_keeps_wf<L, W>(v: RegistryView<L, W>, ip: IpAddr)
    requires
        v.wf(),
        v.admission_refusal(ip) is None,
    ensures
        v.admitting(ip).wf(),
{
    lemma_total_insert(v.per_peer, ip, (v.of_peer(ip) + 1) as usize);
}

/// Releasing what was admitted keeps the limits and the sum.
pub proof fn lemma_release_keeps_wf<L, W>(v: RegistryView<L, W>, ip: IpAddr)
    requires
        v.wf(),
        v.per_peer.dom().contains(ip),
    ensures
        v.releasing(ip).wf(),
{
    lemma_total_insert(v.per_peer, ip, (v.of_peer(ip) - 1) as usize);
}

pub struct PendingLaneRegistry<L, W> {
    entries: AssocMap<PairingNonce, PendingLaneEntry<L, W>>,
    admitted: usize,
    per_peer: AssocMap<IpAddr, usize>,
    changed: bool,
}

impl<L, W> View for PendingLaneRegistry<L, W> {
    type V = RegistryView<L, W>;

    closed spec fn view(&self) -> RegistryView<L, W> {
        RegistryView {
            entries: self.entries@,
            order: self.entries.order(),
            admitted: self.admitted as nat,
            per_peer: self.per_peer@,
            changed: self.changed,
        }
    }
}

impl<L, W> PendingLaneRegistry<L, W> {
    pub fn new() -> (r: Self)
        ensures
            r@ == (RegistryView::<L, W> {
                entries: Map::empty(),
                order: Seq::empty(),
                admitted: 0,
                per_peer: Map::empty(),
                changed: false,
            }),
            r@.wf(),
    {
        PendingLaneRegistry {
            entries: AssocMap::new(),
            admitted: 0,
            per_peer: AssocMap::new(),
            changed: false,
        }
    }

    pub fn admitted(&self) -> (r: usize)
        ensures
            r == self@.admitted,
    {
        self.admitted
    }

    pub fn pending_of(&self, ip: IpAddr) -> (r: usize)
        ensures
            r == self@.of_peer(ip),
    {
        match self.per_peer.get(&ip) {
            Some(n) => *n,
            None => 0,
        }
    }

    /// Admits one more lane of the peer, if both limits allow it.
    pub fn try_admit(&mut self, peer: IpAddr) -> (r: Result<PendingLanePermit, &'static str>)
        ensures
            match r {
                Ok(permit) => old(self)@.admission_refusal(peer) is None && permit.peer() == peer
                    && final(self)@ == old(self)@.admitting(peer),
                Err(reason) => old(self)@.admission_refusal(peer) == Some(reason) && final(self)@
                    == old(self)@,
            },
            old(self)@.wf() ==> final(self)@.wf(),
    {
        if self.admitted >= MAX_PENDING_LANES {
            return Err("total pending lane capacity exhausted");
        }
        let count: usize = self.pending_of(peer);
        if count >= MAX_PENDING_LANES_PER_PEER {
            return Err("per-peer pending lane capacity exhausted");
        }
        self.admitted = self.admitted + 1;
        self.per_peer.insert(peer, count + 1);
        proof {
            if old(self)@.wf() {
                lemma_admit_keeps_wf(old(self)@, peer);
            }
        }
        Ok(PendingLanePermit { peer })
    }

    /// Takes a permit back.
    pub fn release(&mut self, permit: PendingLanePermit)
        ensures
            final(self)@ == old(self)@.releasing(permit.peer()),
            old(self)@.wf() && old(self)@.per_peer.dom().contains(permit.peer())
                ==> final(self)@.wf(),
    {
        let peer = permit.peer;
        proof {
            if self@.wf() && self@.per_peer.dom().contains(peer) {
                lemma_release_keeps_wf(self@, peer);
            }
        }
        if self.admitted > 0 {
            self.admitted = self.admitted - 1;
        }
        let count: usize = self.pending_of(peer);
        if count <= 1 {
            self.per_peer.remove(&peer);
        } else {
            self.per_peer.insert(peer, count - 1);
        }
    }

    /// Registers a lane under its nonce, or pairs it with the lane that is
    /// there. `changed` wakes those who wait for the reservation, if one is
    /// made.
    pub fn register_admitted(
        &mut self,
        nonce: PairingNonce,
        class: LaneClass,
        peer: SocketAddr,
        local_addr: SocketAddr,
        group: GroupToken,
        permit: &mut Option<PendingLanePermit>,
        changed: W,
        now: u64,
    ) -> (r: PendingLaneAdmission<L>)
        requires
            !old(self)@.holds(nonce) ==> *old(permit) is Some,
            now + PAIRING_DEADLINE <= u64::MAX,
        ensures
            match r {
                PendingLaneAdmission::Reject(reason) => old(self)@.holds(nonce)
                    && old(self)@.entries[nonce].refusal(class, peer, group) == Some(reason)
                    && final(self)@ == old(self)@ && *final(permit) == *old(permit),
                PendingLaneAdmission::Wait { expires_at } => old(self)@.holds(nonce)
                    && old(self)@.entries[nonce].refusal(class, peer, group) is None
                    && old(self)@.entries[nonce] is Building && expires_at
                    == old(self)@.entries[nonce].expires_at() && final(self)@ == old(self)@
                    && *final(permit) == *old(permit),
                PendingLaneAdmission::Pair { lane, expires_at } => old(self)@.holds(nonce)
                    && old(self)@.entries[nonce].refusal(class, peer, group) is None
                    && old(self)@.entries[nonce] == (PendingLaneEntry::<L, W>::Ready {
                    lane,
                    expires_at,
                }) && final(self)@ == old(self)@.take(nonce) && *final(permit) == *old(permit),
                PendingLaneAdmission::Reserved => !old(self)@.holds(nonce) && final(self)@ == old(
                    self,
                )@.put(
                    nonce,
                    PendingLaneEntry::Building {
                        peer,
                        local_addr,
                        class,
                        group,
                        expires_at: (now + PAIRING_DEADLINE) as u64,
                        changed,
                        permit: (*old(permit))->0,
                    },
                ) && *final(permit) is None,
            },
            old(self)@.wf() ==> final(self)@.wf(),
    {
        let ready: bool;
        match self.entries.get(&nonce) {
            Some(entry) => {
                if entry.peer().ip() != peer.ip() {
                    return PendingLaneAdmission::Reject("pairing nonce peer mismatch");
                }
                if entry.class() == class {
                    return PendingLaneAdmission::Reject("duplicate lane class for pairing nonce");
                }
                if entry.group() != group {
                    return PendingLaneAdmission::Reject("group token mismatch between lanes");
                }
                if let PendingLaneEntry::Building { expires_at, .. } = entry {
                    return PendingLaneAdmission::Wait { expires_at: *expires_at };
                }
                ready = true;
            },
            None => {
                ready = false;
            },
        }
        self.changed = true;
        if ready {
            if let Some(PendingLaneEntry::Ready { lane, expires_at }) = self.entries.remove(&nonce) {
                return PendingLaneAdmission::Pair { lane, expires_at };
            }
            proof {
                assert(false);
            }
        }
        if let Some(permit) = permit.take() {
            self.entries.insert(
                nonce,
                PendingLaneEntry::Building {
                    peer,
                    local_addr,
                    class,
                    group,
                    expires_at: now + PAIRING_DEADLINE,
                    changed,
                    permit,
                },
            );
        }
        PendingLaneAdmission::Reserved
    }

    /// What wakes those who wait for a reservation.
    pub fn notifier(&self, nonce: PairingNonce) -> (r: Option<&W>)
        ensures
            match r {
                Some(w) => self@.holds(nonce) && self@.entries[nonce] is Building && *w
                    == self@.entries[nonce]->changed,
                None => !self@.holds(nonce) || self@.entries[nonce] is Ready,
            },
    {
        match self.entries.get(&nonce) {
            Some(PendingLaneEntry::Building { changed, .. }) => Some(changed),
            _ => None,
        }
    }

    /// Turns a reservation into a ready lane. On success the caller wakes the
    /// waiters through what is returned; on failure the lane is handed back.
    pub fn confirm_reservation(&mut self, nonce: PairingNonce, lane: PreparedLane<L>) -> (r: Result<
        W,
        PreparedLane<L>,
    >)
        ensures
            match r {
                Ok(changed) => old(self)@.is_building(nonce, lane.peer, lane.class) && changed
                    == old(self)@.entries[nonce]->changed && final(self)@ == old(self)@.take(nonce).put(
                    nonce,
                    PendingLaneEntry::Ready {
                        lane: PendingLane {
                            class: lane.class,
                            peer: lane.peer,
                            local_addr: lane.local_addr,
                            group: old(self)@.entries[nonce].group(),
                            permit: old(self)@.entries[nonce].permit(),
                            handle: lane.handle,
                        },
                        expires_at: old(self)@.entries[nonce].expires_at(),
                    },
                ),
                Err(back) => !old(self)@.is_building(nonce, lane.peer, lane.class) && back == lane
                    && final(self)@ == old(self)@,
            },
            old(self)@.wf() ==> final(self)@.wf(),
    {
        let ours = match self.entries.get(&nonce) {
            Some(PendingLaneEntry::Building { peer, class, .. }) => *peer == lane.peer && *class
                == lane.class,
            _ => false,
        };
        if !ours {
            return Err(lane);
        }
        match self.entries.remove(&nonce) {
            Some(PendingLaneEntry::Building { group, expires_at, changed, permit, .. }) => {
                let ready = PendingLane {
                    class: lane.class,
                    peer: lane.peer,
                    local_addr: lane.local_addr,
                    group,
                    permit,
                    handle: lane.handle,
                };
                self.entries.insert(nonce, PendingLaneEntry::Ready { lane: ready, expires_at });
                self.changed = true;
                Ok(changed)
            },
            _ => {
                proof {
                    assert(false);
                }
                Err(lane)
            },
        }
    }

    /// What the lane that waits under `nonce` finds now.
    pub fn pair_wait_step(
        &mut self,
        nonce: PairingNonce,
        class: LaneClass,
        peer: SocketAddr,
        expires_at: u64,
        now: u64,
    ) -> (r: PairingPoll<L>)
        ensures
            (final(self)@, r) == old(self)@.pair_wait(nonce, class, peer, expires_at, now),
            match r {
                PairingPoll::Done(PendingLaneWait::Pair(lane)) => {
                    &&& lane.class != class
                    &&& lane.peer.ip() == peer.ip()
                    &&& !final(self)@.holds(nonce)
                },
                _ => final(self)@ == old(self)@,
            },
            old(self)@.holds(nonce) && (old(self)@.entries[nonce] matches PendingLaneEntry::Ready {
                lane,
                ..
            } && lane.class != class && lane.peer.ip() == peer.ip()) ==> r == PairingPoll::Done(
                PendingLaneWait::Pair(old(self)@.entries[nonce]->lane),
            ),
            old(self)@.wf() ==> final(self)@.wf(),
    {
        match self.entries.get(&nonce) {
            None => {
                return PairingPoll::Done(
                    PendingLaneWait::ReservationLost("pairing reservation disappeared"),
                );
            },
            Some(entry) => {
                if entry.peer().ip() != peer.ip() {
                    return PairingPoll::Done(
                        PendingLaneWait::ReservationLost("pairing nonce peer mismatch"),
                    );
                }
                if entry.class() == class {
                    return PairingPoll::Done(
                        PendingLaneWait::ReservationLost("duplicate lane class for pairing nonce"),
                    );
                }
                if let PendingLaneEntry::Building { .. } = entry {
                    if now >= expires_at {
                        return PairingPoll::Done(PendingLaneWait::Timeout);
                    }
                    return PairingPoll::Wait;
                }
            },
        }
        match self.entries.remove(&nonce) {
            Some(PendingLaneEntry::Ready { lane, .. }) => {
                self.changed = true;
                PairingPoll::Done(PendingLaneWait::Pair(lane))
            },
            _ => {
                proof {
                    assert(false);
                }
                PairingPoll::Wait
            },
        }
    }

    /// What the lane that waits under `nonce` finds once its wait has run into
    /// the deadline: a partner that became ready at the last moment still
    /// pairs.
    pub fn pair_wait_deadline(
        &mut self,
        nonce: PairingNonce,
        class: LaneClass,
        peer: SocketAddr,
        expires_at: u64,
        now: u64,
    ) -> (r: PendingLaneWait<L>)
        ensures
            ({
                let (after, poll) = old(self)@.pair_wait(nonce, class, peer, expires_at, now);
                final(self)@ == after && r == match poll {
                    PairingPoll::Done(result) => result,
                    PairingPoll::Wait => PendingLaneWait::Timeout,
                }
            }),
            old(self)@.wf() ==> final(self)@.wf(),
    {
        match self.pair_wait_step(nonce, class, peer, expires_at, now) {
            PairingPoll::Done(result) => result,
            PairingPoll::Wait => PendingLaneWait::Timeout,
        }
    }

    /// Puts a lane that was taken out for pairing back, unless its nonce has
    /// been reserved anew; then the lane is handed back.
    pub fn reinsert_ready_lane(
        &mut self,
        nonce: PairingNonce,
        lane: PendingLane<L>,
        expires_at: u64,
    ) -> (r: Result<(), PendingLane<L>>)
        ensures
            match r {
                Ok(_) => !old(self)@.holds(nonce) && final(self)@ == old(self)@.put(
                    nonce,
                    PendingLaneEntry::Ready { lane, expires_at },
                ),
                Err(back) => old(self)@.holds(nonce) && back == lane && final(self)@ == old(self)@,
            },
            old(self)@.wf() ==> final(self)@.wf(),
    {
        if self.entries.contains_key(&nonce) {
            return Err(lane);
        }
        self.entries.insert(nonce, PendingLaneEntry::Ready { lane, expires_at });
        self.changed = true;
        Ok(())
    }

    /// Gives a reservation up, with its permit. A reservation of another lane,
    /// or one that has become ready, stays. What was to wake the waiters is
    /// handed back, so that dropping it tells them.
    pub fn cancel_reservation(
        &mut self,
        nonce: PairingNonce,
        peer: SocketAddr,
        class: LaneClass,
    ) -> (r: Option<W>)
        ensures
            match r {
                Some(changed) => old(self)@.is_building(nonce, peer, class) && changed == old(
                    self,
                )@.entries[nonce]->changed && final(self)@ == old(self)@.take(nonce).releasing(
                    old(self)@.entries[nonce].permit().peer(),
                ),
                None => !old(self)@.is_building(nonce, peer, class) && final(self)@ == old(self)@,
            },
            old(self)@.wf() && (r is Some ==> old(self)@.per_peer.dom().contains(
                old(self)@.entries[nonce].permit().peer(),
            )) ==> final(self)@.wf(),
    {
        let ours = match self.entries.get(&nonce) {
            Some(PendingLaneEntry::Building { peer: p, class: c, .. }) => *p == peer && *c == class,
            _ => false,
        };
        if !ours {
            return None;
        }
        match self.entries.remove(&nonce) {
            Some(PendingLaneEntry::Building { changed, permit, .. }) => {
                self.changed = true;
                self.release(permit);
                Some(changed)
            },
            _ => {
                proof {
                    assert(false);
                }
                None
            },
        }
    }

    /// The earliest deadline of all.
    pub fn next_expiry(&self) -> (r: Option<u64>)
        ensures
            match r {
                Some(t) => (exists|n: PairingNonce| #[trigger]
                    self@.holds(n) && self@.entries[n].expires_at() == t) && forall|
                    n: PairingNonce,
                | #[trigger]
                    self@.holds(n) ==> t <= self@.entries[n].expires_at(),
                None => forall|n: PairingNonce| !#[trigger] self@.holds(n),
            },
    {
        let length: usize = self.entries.len();
        let ghost order = self.entries.order();
        let mut least: Option<u64> = None;
        let mut i: usize = 0;
        while i < length
            invariant
                i <= length,
                length == order.len(),
                order == self.entries.order(),
                match least {
                    Some(t) => (exists|n: PairingNonce| #[trigger]
                        self@.holds(n) && self@.entries[n].expires_at() == t) && forall|j: int|
                        0 <= j < i ==> t <= self@.entries[#[trigger] order[j]].expires_at(),
                    None => i == 0,
                },
            decreases length - i,
        {
            let t: u64 = self.entries.value_at(i).expires_at();
            proof {
                assert(self@.holds(order[i as int]));
            }
            least = match least {
                Some(u) => if t < u {
                    Some(t)
                } else {
                    Some(u)
                },
                None => Some(t),
            };
            i += 1;
        }
        proof {
            assert forall|n: PairingNonce| #[trigger] self@.holds(n) implies match least {
                Some(t) => t <= self@.entries[n].expires_at(),
                None => false,
            } by {
                let j = choose|j: int| 0 <= j < order.len() && #[trigger] order[j] == n;
                assert(0 <= j < order.len() && order[j] == n);
            }
        }
        least
    }

    /// Takes out what has expired, in the order of reservation.
    pub fn expire(&mut self, now: u64) -> (r: Vec<ExpiredPendingLane<L>>)
        ensures
            ({
                let gone = due(old(self)@.order, old(self)@.entries, now);
                &&& r@.len() == gone.len()
                &&& forall|i: int|
                    0 <= i < gone.len() ==> #[trigger] r@[i] == expired_of(
                        gone[i],
                        old(self)@.entries[gone[i]],
                    )
            }),
            final(self)@ == old(self)@.expired(now),
            old(self)@.wf() ==> final(self)@.wf(),
    {
        let mut removed: Vec<ExpiredPendingLane<L>> = Vec::new();
        let total_entries: usize = self.entries.len();
        let ghost order = self@.order;
        let ghost entries = self@.entries;
        let ghost start = self@;
        let mut i: usize = 0;
        let mut seen: usize = 0;
        proof {
            assert(order.take(0) =~= Seq::empty());
            assert(order =~= Seq::<PairingNonce>::empty() + order.skip(0));
            assert(self.entries@ =~= entries);
        }
        while seen < total_entries
            invariant
                i <= seen <= total_entries,
                total_entries == order.len(),
                order.no_duplicates(),
                forall|k: PairingNonce| #[trigger]
                    entries.dom().contains(k) <==> crate::assoc::holds(order, k),
                i == not_due(order.take(seen as int), entries, now).len(),
                self.entries.order() == not_due(order.take(seen as int), entries, now) + order.skip(
                    seen as int,
                ),
                crate::assoc::listed(self.entries@, self.entries.order()),
                forall|k: PairingNonce| #[trigger]
                    self.entries@.dom().contains(k) ==> entries.dom().contains(k)
                        && self.entries@[k] == entries[k],
                forall|j: int|
                    0 <= j < not_due(order.take(seen as int), entries, now).len() ==> entries[
                        #[trigger] not_due(order.take(seen as int), entries, now)[j]].expires_at()
                        > now,
                forall|k: PairingNonce| #[trigger]
                    entries.dom().contains(k) && entries[k].expires_at() > now
                        ==> self.entries@.dom().contains(k),
                removed@.len() == due(order.take(seen as int), entries, now).len(),
                forall|j: int|
                    0 <= j < removed@.len() ==> #[trigger] removed@[j] == expired_of(
                        due(order.take(seen as int), entries, now)[j],
                        entries[due(order.take(seen as int), entries, now)[j]],
                    ),
                self@.admitted == start.admitted,
                self@.per_peer == start.per_peer,
                self@.changed == start.changed,
            decreases total_entries - seen,
        {
            let ghost head = not_due(order.take(seen as int), entries, now);
            let ghost current = self.entries.order();
            proof {
                assert(order.take(seen as int + 1).drop_last() =~= order.take(seen as int));
                assert(order.take(seen as int + 1).last() == order[seen as int]);
                assert(current[i as int] == order[seen as int]);
                assert(order.skip(seen as int).drop_first() =~= order.skip(seen as int + 1));
            }
            let nonce = self.entries.key_at(i);
            let expired = self.entries.value_at(i).expires_at() <= now;
            if expired {
                let taken = self.entries.remove(&nonce);
                proof {
                    crate::assoc::lemma_without_at(current, i as int);
                    assert(self.entries.order() =~= head + order.skip(seen as int + 1));
                }
                match taken {
                    Some(
                        PendingLaneEntry::Building { peer, local_addr, class, permit, .. },
                    ) => {
                        removed.push(
                            ExpiredPendingLane::Building { nonce, peer, local_addr, class, permit },
                        );
                    },
                    Some(PendingLaneEntry::Ready { lane, .. }) => {
                        removed.push(ExpiredPendingLane::Ready { nonce, lane });
                    },
                    None => {
                        proof {
                            assert(false);
                        }
                    },
                }
            } else {
                proof {
                    assert(current =~= head.push(nonce) + order.skip(seen as int + 1));
                }
                i += 1;
            }
            seen += 1;
        }
        proof {
            assert(order.take(total_entries as int) =~= order);
            assert(self.entries.order() =~= not_due(order, entries, now));
            assert(self.entries@ =~= unexpired(entries, now)) by {
                assert forall|k: PairingNonce|
                    self.entries@.dom().contains(k) implies entries[k].expires_at() > now by {
                    let o = self.entries.order();
                    let j = choose|j: int| 0 <= j < o.len() && #[trigger] o[j] == k;
                    assert(0 <= j < o.len() && o[j] == k);
                    assert(not_due(order, entries, now)[j] == k);
                }
            }
        }
        removed
    }

    /// Whether the entries changed since this was last asked.
    pub fn take_changed(&mut self) -> (r: bool)
        ensures
            r == old(self)@.changed,
            final(self)@ == (RegistryView { changed: false, ..old(self)@ }),
            old(self)@.wf() ==> final(self)@.wf(),
    {
        let r = self.changed;
        self.changed = false;
        r
    }
}

// ---------------------------------------------------------------------------
// What admitting, waiting and expiring come to
// ---------------------------------------------------------------------------
/// An entry tells of the lane that it is for, whether that lane is being built
/// or ready.
pub proof fn lemma_an_entry_tells_of_its_lane<L, W>(
    lane: PendingLane<L>,
    expires_at: u64,
    changed: W,
)
    ensures
        ({
            let ready = PendingLaneEntry::<L, W>::Ready { lane, expires_at };
            let building = PendingLaneEntry::<L, W>::Building {
                peer: lane.peer,
                local_addr: lane.local_addr,
                class: lane.class,
                group: lane.group,
                expires_at,
                changed,
                permit: lane.permit,
            };
            &&& ready.peer() == lane.peer && building.peer() == lane.peer
            &&& ready.class() == lane.class && building.class() == lane.class
            &&& ready.group() == lane.group && building.group() == lane.group
            &&& ready.permit() == lane.permit && building.permit() == lane.permit
            &&& ready.expires_at() == expires_at && building.expires_at() == expires_at
        }),
{
}

/// A lane that waits is handed its partner once that one is ready: where the
/// two are of different classes and come from one host, whatever their ports
/// and however late it is. The partner is taken out as it is, and nothing else
/// changes.
pub proof fn lemma_a_ready_partner_is_handed_over<L, W>(
    v: RegistryView<L, W>,
    nonce: PairingNonce,
    lane: PendingLane<L>,
    lane_expires_at: u64,
    class: LaneClass,
    peer: SocketAddr,
    expires_at: u64,
    now: u64,
    other: PairingNonce,
)
    requires
        v.holds(nonce),
        v.entries[nonce] == (PendingLaneEntry::<L, W>::Ready {
            lane,
            expires_at: lane_expires_at,
        }),
        lane.class != class,
        lane.peer.ip() == peer.ip(),
    ensures
        ({
            let (after, poll) = v.pair_wait(nonce, class, peer, expires_at, now);
            &&& poll == PairingPoll::Done(PendingLaneWait::Pair(lane))
            &&& !after.holds(nonce)
            &&& other != nonce ==> after.holds(other) == v.holds(other) && (v.holds(other)
                ==> after.entries[other] == v.entries[other])
            &&& after.admitted == v.admitted
            &&& after.per_peer == v.per_peer
            &&& after.changed
        }),
{
}

/// A lane that waits is turned away exactly where its reservation is gone, or
/// is held by a lane of another host or of its own class; each time it is told
/// which, and the registry is left as it was. Another port of the same host is
/// no reason.
pub proof fn lemma_a_waiting_lane_is_turned_away_for_cause<L, W>(
    v: RegistryView<L, W>,
    nonce: PairingNonce,
    class: LaneClass,
    peer: SocketAddr,
    expires_at: u64,
    now: u64,
)
    ensures
        ({
            let (after, poll) = v.pair_wait(nonce, class, peer, expires_at, now);
            let strange = v.entries[nonce].peer().ip() != peer.ip();
            let doubled = v.entries[nonce].class() == class;
            &&& (poll is Done && poll->Done_0 is ReservationLost) <==> !v.holds(nonce) || strange
                || doubled
            &&& poll matches PairingPoll::Done(PendingLaneWait::ReservationLost(reason)) ==> {
                &&& after == v
                &&& reason == if !v.holds(nonce) {
                    "pairing reservation disappeared"
                } else if strange {
                    "pairing nonce peer mismatch"
                } else {
                    "duplicate lane class for pairing nonce"
                }
            }
        }),
{
}

/// A lane whose partner is still being built waits until its deadline, and no
/// longer; the registry is left as it was.
pub proof fn lemma_a_lane_waits_until_its_deadline<L, W>(
    v: RegistryView<L, W>,
    nonce: PairingNonce,
    class: LaneClass,
    peer: SocketAddr,
    expires_at: u64,
    now: u64,
)
    requires
        v.holds(nonce),
        v.entries[nonce] is Building,
        v.entries[nonce].peer().ip() == peer.ip(),
        v.entries[nonce].class() != class,
    ensures
        v.pair_wait(nonce, class, peer, expires_at, now).0 == v,
        now < expires_at ==> v.pair_wait(nonce, class, peer, expires_at, now).1 is Wait,
        now >= expires_at ==> v.pair_wait(nonce, class, peer, expires_at, now).1
            == PairingPoll::Done(PendingLaneWait::<L>::Timeout),
{
}

/// A lane that was not refused when it said its hello is not refused later: it
/// is told to wait, and once the lane that made the reservation is ready, that
/// very lane is what it finds.
pub proof fn lemma_a_lane_that_waits_is_paired<L, W>(
    v: RegistryView<L, W>,
    nonce: PairingNonce,
    class: LaneClass,
    peer: SocketAddr,
    group: GroupToken,
    lane: PendingLane<L>,
    now: u64,
)
    requires
        v.holds(nonce),
        v.entries[nonce] is Building,
        v.entries[nonce].refusal(class, peer, group) is None,
        v.is_building(nonce, lane.peer, lane.class),
        lane.group == v.entries[nonce].group(),
    ensures
        ({
            let expires_at = v.entries[nonce].expires_at();
            let confirmed = v.take(nonce).put(nonce, PendingLaneEntry::Ready { lane, expires_at });
            &&& now < expires_at ==> v.pair_wait(nonce, class, peer, expires_at, now).1 is Wait
            &&& confirmed.pair_wait(nonce, class, peer, expires_at, now).1 == PairingPoll::Done(
                PendingLaneWait::Pair(lane),
            )
            &&& lane.group == group
        }),
{
}

/// Why a lane is refused: it comes from another host, is of the class that is
/// there already, or belongs to another group; the first of these that holds
/// is what it is told.
pub proof fn lemma_a_refusal_names_the_first_cause<L, W>(
    entry: PendingLaneEntry<L, W>,
    class: LaneClass,
    peer: SocketAddr,
    group: GroupToken,
)
    ensures
        entry.peer().ip() != peer.ip() ==> entry.refusal(class, peer, group) == Some(
            "pairing nonce peer mismatch",
        ),
        entry.peer().ip() == peer.ip() && entry.class() == class ==> entry.refusal(
            class,
            peer,
            group,
        ) == Some("duplicate lane class for pairing nonce"),
        entry.peer().ip() == peer.ip() && entry.class() != class && entry.group() != group
            ==> entry.refusal(class, peer, group) == Some("group token mismatch between lanes"),
        entry.mismatch(class, peer) is None <==> entry.peer().ip() == peer.ip() && entry.class()
            != class,
{
}

/// A lane is admitted exactly while both limits leave room; the total is what
/// is told first.
pub proof fn lemma_admission_is_by_the_limits<L, W>(v: RegistryView<L, W>, ip: IpAddr)
    ensures
        v.admission_refusal(ip) is None <==> v.admitted < 1024 && v.of_peer(ip)
            < 32,
        v.admitted >= 1024 ==> v.admission_refusal(ip) == Some(
            "total pending lane capacity exhausted",
        ),
        v.admitted < 1024 && v.of_peer(ip) >= 32
            ==> v.admission_refusal(ip) == Some("per-peer pending lane capacity exhausted"),
        v.of_peer(ip) > 0 ==> v.per_peer.dom().contains(ip) && v.per_peer[ip] == v.of_peer(ip),
{
}

/// Admitting a lane counts it once in the total and once for its own peer, and
/// giving its permit back takes both counts away; no other peer and no entry
/// is touched. A peer without lanes is not remembered.
pub proof fn lemma_a_permit_counts_for_one_peer<L, W>(
    v: RegistryView<L, W>,
    ip: IpAddr,
    other: IpAddr,
)
    requires
        v.wf(),
        other != ip,
    ensures
        v.admission_refusal(ip) is None ==> {
            let after = v.admitting(ip);
            &&& after.admitted == v.admitted + 1
            &&& after.of_peer(ip) == v.of_peer(ip) + 1
            &&& after.of_peer(other) == v.of_peer(other)
            &&& after.entries == v.entries && after.order == v.order && after.changed == v.changed
        },
        v.of_peer(ip) > 0 ==> {
            let after = v.releasing(ip);
            &&& after.admitted + 1 == v.admitted
            &&& after.of_peer(ip) + 1 == v.of_peer(ip)
            &&& after.of_peer(other) == v.of_peer(other)
            &&& after.of_peer(ip) == 0 ==> !after.per_peer.dom().contains(ip)
            &&& after.entries == v.entries && after.order == v.order && after.changed == v.changed
        },
{
    if v.of_peer(ip) > 0 {
        lemma_total_splits(v.per_peer, ip);
    }
}

/// Giving a nonce an entry, and taking it out, touches that nonce alone: the
/// others keep their entries and their order, a nonce that is new stands last,
/// and no count changes. Whoever watches for changes is told.
pub proof fn lemma_entries_are_apart<L, W>(
    v: RegistryView<L, W>,
    nonce: PairingNonce,
    entry: PendingLaneEntry<L, W>,
    other: PairingNonce,
)
    requires
        v.wf(),
        other != nonce,
    ensures
        ({
            let after = v.put(nonce, entry);
            &&& after.holds(nonce) && after.entries[nonce] == entry
            &&& after.holds(other) == v.holds(other)
            &&& v.holds(other) ==> after.entries[other] == v.entries[other]
            &&& v.holds(nonce) ==> after.order == v.order
            &&& !v.holds(nonce) ==> after.order == v.order.push(nonce)
            &&& after.admitted == v.admitted && after.per_peer == v.per_peer && after.changed
        }),
        ({
            let after = v.take(nonce);
            &&& !after.holds(nonce)
            &&& after.holds(other) == v.holds(other)
            &&& v.holds(other) ==> after.entries[other] == v.entries[other]
            &&& after.admitted == v.admitted && after.per_peer == v.per_peer && after.changed
        }),
        !v.holds(nonce) ==> v.put(nonce, entry).take(nonce).order == v.order,
{
    if !v.holds(nonce) {
        let longer = v.order.push(nonce);
        assert(!crate::assoc::holds(v.order, nonce));
        assert(longer.no_duplicates()) by {
            assert forall|i: int| 0 <= i < v.order.len() implies v.order[i] != nonce by {
            }
        }
        crate::assoc::lemma_without_at(longer, v.order.len() as int);
        assert(longer.remove(v.order.len() as int) =~= v.order);
    }
}

/// A reservation is a lane's own exactly where it is being built, for that
/// very address and class.
pub proof fn lemma_a_reservation_is_its_lanes_own<L, W>(
    v: RegistryView<L, W>,
    nonce: PairingNonce,
    peer: SocketAddr,
    class: LaneClass,
)
    ensures
        v.is_building(nonce, peer, class) <==> v.holds(nonce) && (v.entries[nonce] matches
            PendingLaneEntry::Building { peer: p, class: c, .. } && p == peer && c == class),
{
}

/// What expires does so in the order of reservation, each nonce on its own
/// account; what does not keeps its order too.
pub proof fn lemma_expiry_keeps_the_order<L, W>(
    a: Seq<PairingNonce>,
    b: Seq<PairingNonce>,
    n: PairingNonce,
    entries: Map<PairingNonce, PendingLaneEntry<L, W>>,
    now: u64,
)
    ensures
        due(a + b, entries, now) == due(a, entries, now) + due(b, entries, now),
        not_due(a + b, entries, now) == not_due(a, entries, now) + not_due(b, entries, now),
        entries[n].expires_at() <= now ==> due(seq![n], entries, now) == seq![n] && not_due(
            seq![n],
            entries,
            now,
        ) == Seq::<PairingNonce>::empty(),
        entries[n].expires_at() > now ==> not_due(seq![n], entries, now) == seq![n] && due(
            seq![n],
            entries,
            now,
        ) == Seq::<PairingNonce>::empty(),
    decreases b.len(),
{
    let none = Seq::<PairingNonce>::empty();
    assert(seq![n].drop_last() =~= none);
    assert(due(seq![n].drop_last(), entries, now) =~= none);
    assert(not_due(seq![n].drop_last(), entries, now) =~= none);
    if entries[n].expires_at() <= now {
        assert(due(seq![n], entries, now) =~= seq![n]);
    } else {
        assert(not_due(seq![n], entries, now) =~= seq![n]);
    }
    if b.len() == 0 {
        assert(a + b =~= a);
    } else {
        lemma_expiry_keeps_the_order(a, b.drop_last(), n, entries, now);
        assert((a + b).drop_last() =~= a + b.drop_last());
    }
    assert(due(a + b, entries, now) =~= due(a, entries, now) + due(b, entries, now));
    assert(not_due(a + b, entries, now) =~= not_due(a, entries, now) + not_due(b, entries, now));
}

/// What is left of a lane that expired is the lane: its nonce, its addresses,
/// its class and its permit. Expiry takes no permit back by itself.
pub proof fn lemma_an_expired_lane_is_still_whole<L, W>(
    v: RegistryView<L, W>,
    nonce: PairingNonce,
    now: u64,
)
    ensures
        match (v.entries[nonce], expired_of(nonce, v.entries[nonce])) {
            (
                PendingLaneEntry::Building { peer, local_addr, class, permit, .. },
                ExpiredPendingLane::Building { nonce: n, peer: p, local_addr: l, class: c, permit: q },
            ) => n == nonce && p == peer && l == local_addr && c == class && q == permit,
            (
                PendingLaneEntry::Ready { lane, .. },
                ExpiredPendingLane::Ready { nonce: n, lane: x },
            ) => n == nonce && x == lane,
            _ => false,
        },
        v.expired(now).admitted == v.admitted,
        v.expired(now).per_peer == v.per_peer,
        v.expired(now).changed == v.changed,
{
}

/// Taking a nonce out leaves the others in their order, and expiry leaves those
/// whose deadline is still to come in theirs.
pub proof fn lemma_what_stays_keeps_its_order<L, W>(
    v: RegistryView<L, W>,
    before: Seq<PairingNonce>,
    nonce: PairingNonce,
    behind: Seq<PairingNonce>,
    now: u64,
)
    requires
        v.wf(),
        v.order == before.push(nonce) + behind,
    ensures
        v.take(nonce).order == before + behind,
        v.expired(now).order == not_due(before, v.entries, now) + not_due(
            seq![nonce],
            v.entries,
            now,
        ) + not_due(behind, v.entries, now),
{
    let i = before.len() as int;
    assert(v.order[i] == nonce);
    crate::assoc::lemma_without_at(v.order, i);
    assert(v.order.remove(i) =~= before + behind);
    lemma_expiry_keeps_the_order(before.push(nonce), behind, nonce, v.entries, now);
    lemma_expiry_keeps_the_order(before, seq![nonce], nonce, v.entries, now);
    assert(before.push(nonce) =~= before + seq![nonce]);
}

} // verus!
