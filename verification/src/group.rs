//! Groups of sessions that succeed one another for one peer.
//!
//! A group has at most two members at a time: the session in use and the one
//! that takes over from it. A newer member takes over the streams of the
//! older one, provided it is alive. `O` opens streams on a session, `H` moves
//! one stream's writer onto another session, `F` is what the group's members
//! share.

use vstd::prelude::*;

use crate::assoc::AssocMap;
use crate::lane::GroupToken;
use crate::retain::{retain_alive, retained};

verus! {

/// The number of members that make a group full.
pub const MAX_MEMBERS: usize = 2;

/// The least number of writers at which dead ones are purged.
pub const MIN_PURGE: usize = 64;

/// Why a session could not join its group.
#[derive(Clone, Copy, Debug, PartialEq, Eq, Structural)]
pub enum GroupJoinError {
    /// The group has all the members it can have.
    GroupFull,
    /// The queue of drivers to be run is at capacity.
    DriverQueueFull,
    /// Nobody runs drivers any more.
    DriverScopeClosed,
}

impl GroupJoinError {
    pub open spec fn spec_message(self) -> &'static str {
        match self {
            GroupJoinError::GroupFull => "session group is full",
            GroupJoinError::DriverQueueFull => "group-driver submission queue is full",
            GroupJoinError::DriverScopeClosed => "group-driver scope is closed",
        }
    }

    pub fn message(self) -> (r: &'static str)
        ensures
            r == self.spec_message(),
    {
        match self {
            GroupJoinError::GroupFull => "session group is full",
            GroupJoinError::DriverQueueFull => "group-driver submission queue is full",
            GroupJoinError::DriverScopeClosed => "group-driver scope is closed",
        }
    }
}

/// What became of a driver that was handed to the bounded queue.
#[derive(Clone, Copy, Debug, PartialEq, Eq, Structural)]
pub enum Submission {
    Accepted,
    Full,
    Closed,
}

/// The driver made for a new group: what became of it, and what the members
/// of the group will share.
#[derive(Debug)]
pub struct NewDriver<F> {
    pub submission: Submission,
    pub feed: F,
}

/// Whether a group's driver runs.
pub fn try_submit(submission: Submission) -> (r: Result<(), GroupJoinError>)
    ensures
        r == match submission {
            Submission::Accepted => Ok::<(), GroupJoinError>(()),
            Submission::Full => Err(GroupJoinError::DriverQueueFull),
            Submission::Closed => Err(GroupJoinError::DriverScopeClosed),
        },
{
    match submission {
        Submission::Accepted => Ok(()),
        Submission::Full => Err(GroupJoinError::DriverQueueFull),
        Submission::Closed => Err(GroupJoinError::DriverScopeClosed),
    }
}

/// One group: who is newest, and the writers that follow the newest member.
pub struct PairState<O, H, F> {
    pub feed: F,
    pub members: usize,
    pub next_seq: u64,
    pub newest_seq: u64,
    pub newest_opener: Option<O>,
    pub writers: Vec<H>,
    pub next_purge: usize,
}

/// A session's place in its group. It is given back with
/// [`SessionPairRegistry::leave`].
#[derive(Debug)]
pub struct PairMember {
    token: GroupToken,
    seq: u64,
}

impl PairMember {
    pub closed spec fn token(&self) -> GroupToken {
        self.token
    }

    pub closed spec fn seq(&self) -> u64 {
        self.seq
    }
}

/// What a session that has joined does next.
#[derive(Debug)]
pub struct Joined {
    pub member: PairMember,
    /// How many writers follow the newest member.
    pub waiting: usize,
    /// Whether they are moved onto the session that joined.
    pub rebind: bool,
}

impl<O, H, F> PairState<O, H, F> {
    /// A group that nobody has joined yet.
    pub open spec fn is_fresh(&self) -> bool {
        &&& self.members == 0
        &&& self.next_seq == 0
        &&& self.newest_seq == 0
        &&& self.newest_opener is None
        &&& self.writers@ == Seq::<H>::empty()
        &&& self.next_purge == MIN_PURGE
    }

    /// A group that lives: somebody is in it, the newest of them is known,
    /// and it is the one that joined last.
    pub open spec fn wf(&self) -> bool {
        &&& 1 <= self.members <= MAX_MEMBERS
        &&& self.newest_opener is Some
        &&& self.newest_seq == self.next_seq
        &&& self.members <= self.next_seq
        &&& self.next_purge >= MIN_PURGE
    }

    /// The group after a session has joined.
    pub open spec fn joined_by(
        &self,
        before: &PairState<O, H, F>,
        opener: O,
        alive: Seq<bool>,
    ) -> bool {
        &&& self.feed == before.feed
        &&& self.members == before.members + 1
        &&& self.next_seq == before.next_seq + 1
        &&& self.newest_seq == self.next_seq
        &&& self.newest_opener == Some(opener)
        &&& self.writers@ == retained(before.writers@, alive)
        &&& self.next_purge == before.next_purge
    }

    /// The group after a writer has been registered.
    pub open spec fn registered(
        &self,
        before: &PairState<O, H, F>,
        writer: H,
        alive: Seq<bool>,
    ) -> bool {
        &&& self.feed == before.feed
        &&& self.members == before.members
        &&& self.next_seq == before.next_seq
        &&& self.newest_seq == before.newest_seq
        &&& self.newest_opener == before.newest_opener
        &&& if before.writers@.len() >= before.next_purge {
            let live = retained(before.writers@, alive);
            &&& self.writers@ == live.push(writer)
            &&& self.next_purge == if live.len() * 2 > MIN_PURGE {
                live.len() * 2
            } else {
                MIN_PURGE as nat
            }
        } else {
            &&& self.writers@ == before.writers@.push(writer)
            &&& self.next_purge == before.next_purge
        }
    }

    fn fresh(feed: F) -> (r: Self)
        ensures
            r.is_fresh(),
            r.feed == feed,
    {
        PairState {
            feed,
            members: 0,
            next_seq: 0,
            newest_seq: 0,
            newest_opener: None,
            writers: Vec::new(),
            next_purge: MIN_PURGE,
        }
    }

    fn enter(&mut self, opener: O, alive: &Vec<bool>) -> (waiting: usize)
        requires
            old(self).members < MAX_MEMBERS,
            old(self).next_seq < u64::MAX,
            alive@.len() == old(self).writers@.len(),
        ensures
            final(self).joined_by(old(self), opener, alive@),
            waiting == final(self).writers@.len(),
    {
        self.members = self.members + 1;
        self.next_seq = self.next_seq + 1;
        self.newest_seq = self.next_seq;
        self.newest_opener = Some(opener);
        retain_alive(&mut self.writers, alive);
        self.writers.len()
    }

    fn follow(&mut self, writer: H, alive: &Vec<bool>)
        requires
            alive@.len() == old(self).writers@.len(),
            old(self).writers@.len() * 2 <= usize::MAX,
        ensures
            final(self).registered(old(self), writer, alive@),
    {
        if self.writers.len() >= self.next_purge {
            retain_alive(&mut self.writers, alive);
            let doubled: usize = self.writers.len() * 2;
            self.next_purge = if doubled > MIN_PURGE {
                doubled
            } else {
                MIN_PURGE
            };
        }
        self.writers.push(writer);
    }
}

/// The groups that have a member.
pub struct SessionPairRegistry<O, H, F> {
    groups: AssocMap<GroupToken, PairState<O, H, F>>,
}

impl<O, H, F> View for SessionPairRegistry<O, H, F> {
    type V = Map<GroupToken, PairState<O, H, F>>;

    closed spec fn view(&self) -> Map<GroupToken, PairState<O, H, F>> {
        self.groups@
    }
}

/// Every group in the table lives.
pub open spec fn groups_wf<O, H, F>(groups: Map<GroupToken, PairState<O, H, F>>) -> bool {
    forall|t: GroupToken| #[trigger] groups.dom().contains(t) ==> groups[t].wf()
}

/// Whether a group has all the members it can have.
pub open spec fn group_full<O, H, F>(
    groups: Map<GroupToken, PairState<O, H, F>>,
    token: GroupToken,
) -> bool {
    groups.dom().contains(token) && groups[token].members >= MAX_MEMBERS
}

/// How many members of a group live.
pub open spec fn live_members<O, H, F>(
    groups: Map<GroupToken, PairState<O, H, F>>,
    token: GroupToken,
) -> nat {
    if groups.dom().contains(token) {
        groups[token].members as nat
    } else {
        0
    }
}

/// What becomes of a group's members.
pub enum GroupEvent {
    Joined(GroupToken),
    Left(GroupToken),
}

/// Whether an event makes one table of groups into another: it concerns one
/// member of one group, and there is none to leave a group without members.
pub open spec fn moved<O, H, F>(
    before: Map<GroupToken, PairState<O, H, F>>,
    after: Map<GroupToken, PairState<O, H, F>>,
    event: GroupEvent,
) -> bool {
    match event {
        GroupEvent::Joined(token) => forall|t: GroupToken| #[trigger]
            live_members(after, t) == live_members(before, t) + if t == token {
                1int
            } else {
                0
            },
        GroupEvent::Left(token) => live_members(before, token) > 0 && forall|t: GroupToken|
            #[trigger]
            live_members(after, t) == live_members(before, t) - if t == token {
                1int
            } else {
                0
            },
    }
}

/// The members of a group that joined and did not leave.
pub open spec fn outstanding(events: Seq<GroupEvent>, token: GroupToken) -> int
    decreases events.len(),
{
    if events.len() == 0 {
        0
    } else {
        outstanding(events.drop_last(), token) + match events.last() {
            GroupEvent::Joined(t) => if t == token {
                1int
            } else {
                0
            },
            GroupEvent::Left(t) => if t == token {
                -1
            } else {
                0
            },
        }
    }
}

/// Whether the member is not the newest of its group.
pub open spec fn is_stale<O, H, F>(
    groups: Map<GroupToken, PairState<O, H, F>>,
    member: &PairMember,
) -> bool {
    groups[member.token()].newest_seq != member.seq()
}

impl<O, H, F> SessionPairRegistry<O, H, F> {
    pub fn new() -> (r: Self)
        ensures
            r@ == Map::<GroupToken, PairState<O, H, F>>::empty(),
            groups_wf(r@),
    {
        SessionPairRegistry { groups: AssocMap::new() }
    }

    pub fn is_empty(&self) -> (r: bool)
        ensures
            r == (self@.dom().len() == 0),
    {
        self.groups.len() == 0
    }

    pub fn is_full(&self, token: &GroupToken) -> (r: bool)
        ensures
            r == group_full(self@, *token),
    {
        match self.groups.get(token) {
            Some(group) => group.members >= MAX_MEMBERS,
            None => false,
        }
    }

    /// The state of a group that has a member.
    pub fn group(&self, token: &GroupToken) -> (r: Option<&PairState<O, H, F>>)
        ensures
            match r {
                Some(group) => self@.dom().contains(*token) && *group == self@[*token],
                None => !self@.dom().contains(*token),
            },
    {
        self.groups.get(token)
    }

    /// Joins a group, which is made where it is not there. `driver` tells how
    /// handing a new group's driver over went, and what the group's members
    /// share; it is looked at only where the group is made. `alive` tells
    /// which of the group's writers live.
    pub fn join(
        &mut self,
        token: GroupToken,
        opener: O,
        joiner_alive: bool,
        alive: &Vec<bool>,
        driver: Option<NewDriver<F>>,
    ) -> (r: Result<Joined, GroupJoinError>)
        requires
            groups_wf(old(self)@),
            old(self)@.dom().contains(token) && !group_full(old(self)@, token) ==> alive@.len()
                == old(self)@[token].writers@.len() && old(self)@[token].next_seq < u64::MAX,
            !old(self)@.dom().contains(token) ==> driver is Some,
        ensures
            groups_wf(final(self)@),
            live_members(old(self)@, token) == MAX_MEMBERS ==> r == Err::<Joined, GroupJoinError>(
                GroupJoinError::GroupFull,
            ),
            live_members(old(self)@, token) == 1 ==> r is Ok,
            live_members(old(self)@, token) == 0 ==> (r is Ok <==> (driver->0).submission
                == Submission::Accepted),
            r is Ok ==> moved(old(self)@, final(self)@, GroupEvent::Joined(token)),
            match r {
                Ok(joined) => {
                    &&& !group_full(old(self)@, token)
                    &&& !old(self)@.dom().contains(token) ==> (driver->0).submission == Submission::Accepted
                    &&& final(self)@ == old(self)@.insert(token, final(self)@[token])
                    &&& if old(self)@.dom().contains(token) {
                        final(self)@[token].joined_by(&old(self)@[token], opener, alive@)
                    } else {
                        let group = final(self)@[token];
                        &&& group.feed == (driver->0).feed
                        &&& group.members == 1
                        &&& group.next_seq == 1
                        &&& group.newest_seq == 1
                        &&& group.newest_opener == Some(opener)
                        &&& group.writers@ == Seq::<H>::empty()
                        &&& group.next_purge == MIN_PURGE
                    }
                    &&& joined.member.token() == token
                    &&& joined.member.seq() == final(self)@[token].newest_seq
                    &&& joined.waiting == final(self)@[token].writers@.len()
                    &&& joined.rebind == (joiner_alive && joined.waiting > 0)
                },
                Err(GroupJoinError::GroupFull) => group_full(old(self)@, token) && final(self)@
                    == old(self)@,
                Err(GroupJoinError::DriverQueueFull) => !old(self)@.dom().contains(token)
                    && (driver->0).submission == Submission::Full && final(self)@ == old(self)@,
                Err(GroupJoinError::DriverScopeClosed) => !old(self)@.dom().contains(token)
                    && (driver->0).submission == Submission::Closed && final(self)@ == old(self)@,
            },
    {
        let ghost before = self@;
        let full = self.is_full(&token);
        if full {
            return Err(GroupJoinError::GroupFull);
        }
        let nobody: Vec<bool> = Vec::new();
        let (mut group, alive) = match self.groups.remove(&token) {
            Some(group) => (group, alive),
            None => {
                proof {
                    assert(before.remove(token) =~= before);
                }
                match driver {
                    Some(NewDriver { submission, feed }) => match try_submit(submission) {
                        Ok(_) => (PairState::fresh(feed), &nobody),
                        Err(error) => {
                            return Err(error);
                        },
                    },
                    None => {
                        proof {
                            assert(false);
                        }
                        return Err(GroupJoinError::DriverScopeClosed);
                    },
                }
            },
        };
        let waiting: usize = group.enter(opener, alive);
        let seq: u64 = group.newest_seq;
        let ghost entered = group;
        self.groups.insert(token, group);
        proof {
            assert(self@ =~= before.insert(token, entered));
            assert(retained(Seq::<H>::empty(), Seq::<bool>::empty()) =~= Seq::<H>::empty());
            assert(nobody@ =~= Seq::<bool>::empty());
        }
        Ok(Joined { member: PairMember { token, seq }, waiting, rebind: joiner_alive && waiting > 0 })
    }

    /// Registers a stream's writer with its session's group. The result says
    /// whether the writer is moved onto the newest member at once: it is where
    /// its own session is not the newest, and the newest is alive.
    pub fn register_writer(
        &mut self,
        member: &PairMember,
        writer: H,
        newest_alive: bool,
        alive: &Vec<bool>,
    ) -> (rebind: bool)
        requires
            groups_wf(old(self)@),
            old(self)@.dom().contains(member.token()),
            alive@.len() == old(self)@[member.token()].writers@.len(),
            old(self)@[member.token()].writers@.len() * 2 <= usize::MAX,
        ensures
            groups_wf(final(self)@),
            final(self)@ == old(self)@.insert(member.token(), final(self)@[member.token()]),
            final(self)@[member.token()].registered(
                &old(self)@[member.token()],
                writer,
                alive@,
            ),
            rebind == (is_stale(old(self)@, member) && newest_alive),
    {
        let ghost before = self@;
        let token = member.token;
        match self.groups.remove(&token) {
            Some(mut group) => {
                let rebind = group.newest_seq != member.seq && newest_alive;
                group.follow(writer, alive);
                let ghost g = group;
                self.groups.insert(token, group);
                proof {
                    assert(self@ =~= before.insert(token, g));
                }
                rebind
            },
            None => {
                proof {
                    assert(false);
                }
                false
            },
        }
    }

    /// A member leaves; a group without members is forgotten.
    pub fn leave(&mut self, member: PairMember)
        requires
            groups_wf(old(self)@),
        ensures
            groups_wf(final(self)@),
            old(self)@.dom().contains(member.token()) ==> moved(
                old(self)@,
                final(self)@,
                GroupEvent::Left(member.token()),
            ),
            match old(self)@.dom().contains(member.token()) {
                false => final(self)@ == old(self)@,
                true => if old(self)@[member.token()].members == 1 {
                    final(self)@ == old(self)@.remove(member.token())
                } else {
                    final(self)@ == old(self)@.insert(
                        member.token(),
                        PairState { members: 1, ..old(self)@[member.token()] },
                    )
                },
            },
    {
        let ghost before = self@;
        let token = member.token;
        match self.groups.remove(&token) {
            Some(mut group) => {
                if group.members > 1 {
                    group.members = group.members - 1;
                    let ghost g = group;
                    self.groups.insert(token, group);
                    proof {
                        assert(self@ =~= before.insert(token, g));
                    }
                }
            },
            None => {
                proof {
                    assert(self@ =~= before);
                }
            },
        }
    }
}

/// A member that leaves a full group makes room in it, and the group does
/// not outlive its last member.
pub proof fn lemma_leaving_makes_room<O, H, F>(
    groups: Map<GroupToken, PairState<O, H, F>>,
    token: GroupToken,
)
    requires
        groups_wf(groups),
        groups.dom().contains(token),
    ensures
        groups[token].members > 1 ==> !group_full(
            groups.insert(token, PairState { members: 1, ..groups[token] }),
            token,
        ),
        !group_full(groups.remove(token), token),
{
}

proof fn lemma_live_members_are_outstanding<O, H, F>(
    tables: Seq<Map<GroupToken, PairState<O, H, F>>>,
    events: Seq<GroupEvent>,
    token: GroupToken,
)
    requires
        tables.len() == events.len() + 1,
        tables[0] == Map::<GroupToken, PairState<O, H, F>>::empty(),
        forall|i: int|
            0 <= i < events.len() ==> moved(tables[i], tables[i + 1], #[trigger] events[i]),
    ensures
        live_members(tables.last(), token) == outstanding(events, token),
    decreases events.len(),
{
    if events.len() > 0 {
        let n = events.len() - 1;
        assert forall|i: int| 0 <= i < n implies moved(
            tables.drop_last()[i],
            tables.drop_last()[i + 1],
            #[trigger] events.drop_last()[i],
        ) by {
            assert(events[i] == events.drop_last()[i]);
        }
        lemma_live_members_are_outstanding(tables.drop_last(), events.drop_last(), token);
        assert(moved(tables[n], tables[n + 1], events[n]));
        assert(live_members(tables[n + 1], token) == live_members(tables.last(), token));
    }
}

/// Whatever members join and leave, those of a group that live are those that
/// joined and did not leave, never more than two; the group is full where two
/// of them live, and has room again once one of them has left.
pub proof fn lemma_at_most_two_members_live<O, H, F>(
    tables: Seq<Map<GroupToken, PairState<O, H, F>>>,
    events: Seq<GroupEvent>,
    token: GroupToken,
)
    requires
        tables.len() == events.len() + 1,
        tables[0] == Map::<GroupToken, PairState<O, H, F>>::empty(),
        forall|i: int|
            0 <= i < events.len() ==> moved(tables[i], tables[i + 1], #[trigger] events[i]),
        groups_wf(tables.last()),
    ensures
        live_members(tables.last(), token) == outstanding(events, token),
        0 <= outstanding(events, token) <= MAX_MEMBERS,
        group_full(tables.last(), token) <==> outstanding(events, token) == MAX_MEMBERS,
        forall|next: Map<GroupToken, PairState<O, H, F>>| #[trigger]
            moved(tables.last(), next, GroupEvent::Left(token)) ==> !group_full(next, token),
{
    lemma_live_members_are_outstanding(tables, events, token);
    assert forall|next: Map<GroupToken, PairState<O, H, F>>| #[trigger]
        moved(tables.last(), next, GroupEvent::Left(token)) implies !group_full(next, token) by {
        assert(live_members(next, token) == live_members(tables.last(), token) - 1);
    }
}

/// A session that joins is the newest member from then on, under a number that
/// no member had before it; the group has one member more, and of the writers
/// those that live follow it, in their order.
pub proof fn lemma_a_joiner_is_the_newest<O, H, F>(
    before: &PairState<O, H, F>,
    after: &PairState<O, H, F>,
    opener: O,
    alive: Seq<bool>,
    seq: u64,
)
    requires
        after.joined_by(before, opener, alive),
        before.newest_seq <= before.next_seq,
        seq <= before.next_seq,
    ensures
        after.newest_opener == Some(opener),
        after.newest_seq > seq,
        after.newest_seq == after.next_seq,
        after.members == before.members + 1,
        after.feed == before.feed,
        after.writers@ == retained(before.writers@, alive),
{
}

/// A writer that is registered follows the newest member: it stands behind all
/// the others. No live writer is lost, dead ones are dropped only once as many
/// have gathered as the group waits for, and the group then waits for twice as
/// many as live, but never for fewer than the least number.
pub proof fn lemma_a_registered_writer_follows<O, H, F>(
    before: &PairState<O, H, F>,
    after: &PairState<O, H, F>,
    writer: H,
    alive: Seq<bool>,
    i: int,
)
    requires
        after.registered(before, writer, alive),
        alive.len() == before.writers@.len(),
        0 <= i < before.writers@.len(),
        alive[i] || before.writers@.len() < before.next_purge,
    ensures
        after.writers@.len() > 0,
        after.writers@.last() == writer,
        after.writers@.contains(before.writers@[i]),
        before.writers@.len() < before.next_purge ==> after.writers@.drop_last() == before.writers@
            && after.next_purge == before.next_purge,
        before.writers@.len() >= before.next_purge ==> after.writers@.drop_last() == retained(
            before.writers@,
            alive,
        ) && after.next_purge >= 64 && after.next_purge >= 2 * (after.writers@.len() - 1)
            && (after.next_purge == 64 || after.next_purge == 2 * (after.writers@.len()
            - 1)),
        after.members == before.members,
        after.newest_seq == before.newest_seq,
        after.next_seq == before.next_seq,
        after.newest_opener == before.newest_opener,
        after.feed == before.feed,
{
    let x = before.writers@[i];
    if before.writers@.len() >= before.next_purge {
        let live = retained(before.writers@, alive);
        crate::retain::lemma_retained_are_alive(before.writers@, alive, x);
        assert(live.contains(x));
        let j = live.index_of(x);
        assert(after.writers@[j] == x);
        assert(after.writers@.drop_last() =~= live);
    } else {
        assert(after.writers@[i] == x);
        assert(after.writers@.drop_last() =~= before.writers@);
    }
}

/// A group is full exactly where two members live, and a group that is not
/// there has none.
pub proof fn lemma_a_full_group_has_two<O, H, F>(
    groups: Map<GroupToken, PairState<O, H, F>>,
    token: GroupToken,
)
    requires
        groups_wf(groups),
    ensures
        group_full(groups, token) <==> groups.dom().contains(token) && groups[token].members == 2,
        live_members(groups, token) == 0 <==> !groups.dom().contains(token),
        groups.dom().contains(token) ==> live_members(groups, token) == groups[token].members,
{
}

/// The member that joined last is up to date, and every one before it is not.
pub proof fn lemma_only_the_newest_is_up_to_date<O, H, F>(
    groups: Map<GroupToken, PairState<O, H, F>>,
    member: &PairMember,
)
    ensures
        is_stale(groups, member) <==> member.seq() != groups[member.token()].newest_seq,
        member.seq() < groups[member.token()].newest_seq ==> is_stale(groups, member),
{
}

} // verus!
