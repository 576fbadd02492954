//! The dialing end: which session serves an address, when an address is
//! dialed, and how a session is replaced by a better one.
//!
//! `R` is where the answer to a request goes, `C` and `A` are what candidate
//! paths and paths in use are probed through.

use vstd::prelude::*;

pub mod dial;
pub mod session;

use crate::addr::{SocketAddr, SocketAddrPair};
use crate::assoc::AssocMap;
use crate::connector::dial::{all_waiting, BookModel, DialBook, Queueing, StreamRequest};
use crate::connector::session::{
    lemma_a_recycle_names_the_successor, lemma_moves_keep_sessions, lemma_pruning_is_exact,
    lemma_those_in, listed, movable, pruned, those_in, OpenedStream, SessionProbe, SessionTable, TableModel,
};
use crate::error::{ErrorKind, IoError};
use crate::explorer::path_score::{verdict_on, winning_rule, MigrationVerdict};
use crate::explorer::{
    best_scored, best_taken, is_best, is_fresh, lemma_best_and_worst_are_unique, none_scored,
    taken_out, ActiveTuple, BestCandidate, Explorer, ExplorerConfig, ExplorerReport,
};
use crate::explorer::tuple_stats::{unmeasured, PROBE_POLL_TICK};
use crate::lane::{GroupToken, LaneClass, PairingNonce};
use crate::retain::retained;
use crate::shared::MAX_CONCURRENT_DUAL_DIALS;

verus! {

/// How long a session that nobody refers to any more lingers.
pub const SESSION_LINGER: u64 = 3_000_000_000;

/// Why a session is replaced.
#[derive(Clone, Copy, Debug, PartialEq, Eq, Structural)]
pub enum RecycleTrigger {
    Forced,
    BetterPath,
}

impl RecycleTrigger {
    pub open spec fn label(self) -> &'static str {
        match self {
            RecycleTrigger::Forced => "forced",
            RecycleTrigger::BetterPath => "better_path",
        }
    }

    pub fn as_str(self) -> (r: &'static str)
        ensures
            r == self.label(),
    {
        match self {
            RecycleTrigger::Forced => "forced",
            RecycleTrigger::BetterPath => "better_path",
        }
    }
}

/// What is asked of a connector and answered by it.
#[derive(Clone, Copy, Debug, PartialEq, Eq, Structural)]
pub enum ConnectorCall {
    Connect,
    ExplorerReport,
    Reset,
}

/// The error of a call that could not be made: the connector is gone.
pub fn connector_stopped() -> (r: IoError)
    ensures
        r.is(ErrorKind::BrokenPipe, "RTP mux connector stopped"@),
{
    IoError::new(ErrorKind::BrokenPipe, "RTP mux connector stopped")
}

/// The error of a call that is never answered.
pub fn connector_dropped(call: ConnectorCall) -> (r: IoError)
    ensures
        r.is(
            ErrorKind::BrokenPipe,
            match call {
                ConnectorCall::Connect => "RTP mux connector dropped connect response"@,
                ConnectorCall::ExplorerReport => "RTP mux connector dropped explorer report"@,
                ConnectorCall::Reset => "RTP mux connector dropped reset acknowledgement"@,
            },
        ),
{
    IoError::new(
        ErrorKind::BrokenPipe,
        match call {
            ConnectorCall::Connect => "RTP mux connector dropped connect response",
            ConnectorCall::ExplorerReport => "RTP mux connector dropped explorer report",
            ConnectorCall::Reset => "RTP mux connector dropped reset acknowledgement",
        },
    )
}

/// How long a session outlives the end of its use: not at all where it was
/// killed, a while where nothing refers to it any more.
pub fn session_linger(killed: bool) -> (r: u64)
    ensures
        r == if killed {
            0
        } else {
            SESSION_LINGER
        },
{
    if killed {
        0
    } else {
        SESSION_LINGER
    }
}

/// A session that is being replaced.
#[derive(Clone, Copy, Debug, PartialEq, Eq, Structural)]
pub struct Recycling {
    pub old: u64,
    pub trigger: RecycleTrigger,
    pub verdict: Option<MigrationVerdict>,
}

/// What the sessions of one address share.
#[derive(Debug)]
pub struct AddrGroup {
    pub token: GroupToken,
    /// Whether the router of responses has been started.
    pub router: bool,
    pub sessions: Vec<u64>,
}

/// What is known of an address's group.
#[verifier::ext_equal]
pub struct GroupModel {
    pub token: GroupToken,
    pub router: bool,
    pub sessions: Seq<u64>,
}

impl View for AddrGroup {
    type V = GroupModel;

    open spec fn view(&self) -> GroupModel {
        GroupModel { token: self.token, router: self.router, sessions: self.sessions@ }
    }
}

/// What is known of each group of a table.
pub open spec fn group_models(groups: Map<SocketAddr, AddrGroup>) -> Map<SocketAddr, GroupModel> {
    Map::new(|a: SocketAddr| groups.dom().contains(a), |a: SocketAddr| groups[a]@)
}

/// What a connector knows.
#[verifier::ext_equal]
pub struct ConnectorModel<R, C, A> {
    pub config: Option<ExplorerConfig>,
    pub sessions: Map<SocketAddr, u64>,
    pub draining: Map<SocketAddr, u64>,
    pub dials: BookModel<R>,
    pub groups: Map<SocketAddr, GroupModel>,
    pub recycling: Map<SocketAddr, Recycling>,
    pub explorers: Map<SocketAddr, Explorer<C, A>>,
    pub table: TableModel,
}

/// A dial that is to be made.
#[derive(Debug)]
pub struct DialPlan<C> {
    pub addr: SocketAddr,
    pub token: GroupToken,
    /// The probed path that the dial takes over.
    pub candidate: Option<BestCandidate<C>>,
}

/// What becomes of a request for a stream.
#[derive(Debug)]
pub enum ConnectStep<R, C> {
    /// A stream is opened on a session that is there.
    Open { session: u64, lane: LaneClass, response: R },
    /// Nobody awaits the answer.
    Abandoned,
    Refused { response: R, error: IoError },
    /// The request waits for a dial that is under way.
    Waiting,
    /// The request waits for a dial that is to be made.
    Dial(DialPlan<C>),
}

/// What becomes of a request to replace a session.
#[derive(Debug)]
pub enum RecycleStep<C> {
    /// The session before it still has streams, or the address is being
    /// dialed.
    Busy,
    /// No further dial can be made.
    Saturated { pending: usize },
    /// No path is worth moving to.
    Declined(MigrationVerdict),
    /// The address has no session.
    NoSession,
    Dial(DialPlan<C>),
}

/// What a dial that succeeded leads to.
#[derive(Debug)]
pub struct Connected<R> {
    /// The new session.
    pub session: u64,
    /// Whether the address's router of responses is to be started.
    pub start_router: bool,
    /// The session that was replaced.
    pub recycled: Option<Recycling>,
    /// The streams that moved from it.
    pub moved: Vec<u64>,
    /// The requests that waited for the dial.
    pub waiters: Vec<StreamRequest<R>>,
}

/// What a dial that failed leads to.
#[derive(Debug)]
pub struct DialFailed<R> {
    /// Whether a session was to be replaced; its streams stay on it.
    pub recycled: bool,
    pub waiters: Vec<StreamRequest<R>>,
}

impl<R, C, A> ConnectorModel<R, C, A> {
    /// Sessions that are named exist, sessions are replaced only while their
    /// address is dialed, an address that is dialed or explored has a group,
    /// and an address that has a session has a group that lists it.
    pub open spec fn wf(self) -> bool {
        &&& self.dials.wf()
        &&& self.table.wf()
        &&& self.explorers.dom().subset_of(self.groups.dom())
        &&& self.dials.in_flight.subset_of(self.groups.dom())
        &&& self.recycling.dom().subset_of(self.dials.in_flight)
        &&& forall|a: SocketAddr| #[trigger]
            self.sessions.dom().contains(a) ==> self.table.has(self.sessions[a])
                && self.groups.dom().contains(a) && self.groups[a].sessions.contains(
                self.sessions[a],
            )
        &&& forall|a: SocketAddr| #[trigger]
            self.recycling.dom().contains(a) ==> self.table.has(self.recycling[a].old)
    }

    /// Whether an address's session, or one that is being replaced, is that
    /// one.
    pub open spec fn holds(self, session: u64) -> bool {
        ||| exists|a: SocketAddr| #[trigger]
            self.sessions.dom().contains(a) && self.sessions[a] == session
        ||| exists|a: SocketAddr| #[trigger]
            self.recycling.dom().contains(a) && self.recycling[a].old == session
    }

    /// The session that serves an address; `alive` lists the live ones.
    pub open spec fn live_session(self, addr: SocketAddr, alive: Seq<u64>) -> Option<u64> {
        if self.sessions.dom().contains(addr) && alive.contains(self.sessions[addr]) {
            Some(self.sessions[addr])
        } else {
            None
        }
    }

    /// Whether the session that an address's session replaced still lives.
    pub open spec fn is_draining(self, addr: SocketAddr) -> bool {
        self.draining.dom().contains(addr) && self.table.has(self.draining[addr])
    }

    /// The groups once the dial of an address has been prepared.
    pub open spec fn grouped(self, addr: SocketAddr, fresh: GroupToken) -> Map<
        SocketAddr,
        GroupModel,
    > {
        if self.groups.dom().contains(addr) {
            self.groups
        } else {
            self.groups.insert(
                addr,
                GroupModel { token: fresh, router: false, sessions: Seq::empty() },
            )
        }
    }

    /// The verdict on moving an address to its best candidate.
    pub open spec fn verdict(
        self,
        addr: SocketAddr,
        costs: Seq<u64>,
        rtt_wins: bool,
        loss_wins: bool,
    ) -> MigrationVerdict {
        if self.explorers.dom().contains(addr) {
            verdict_on(
                self.explorers[addr].active_scored(),
                best_scored(self.explorers[addr].candidates@, costs),
                winning_rule(rtt_wins, loss_wins),
            )
        } else {
            MigrationVerdict::ActiveUnmeasured
        }
    }

    /// Whether an address's group is kept: it is being dialed, or one of its
    /// sessions lives.
    pub open spec fn keeps(self, addr: SocketAddr) -> bool {
        self.dials.in_flight.contains(addr) || those_in(
            self.groups[addr].sessions,
            self.table.sessions.dom(),
        ).len() > 0
    }

    /// The groups once those of dead addresses have been dropped.
    pub open spec fn live_groups(self) -> Map<SocketAddr, GroupModel> {
        Map::new(
            |a: SocketAddr| self.groups.dom().contains(a) && self.keeps(a),
            |a: SocketAddr|
                GroupModel {
                    sessions: those_in(self.groups[a].sessions, self.table.sessions.dom()),
                    ..self.groups[a]
                },
        )
    }

    /// The explorers once those of dead addresses have been dropped.
    pub open spec fn live_explorers(self) -> Map<SocketAddr, Explorer<C, A>> {
        Map::new(
            |a: SocketAddr|
                self.explorers.dom().contains(a) && self.live_groups().dom().contains(a),
            |a: SocketAddr| self.explorers[a],
        )
    }

    /// Whether the table differs from `before` only by sessions that nothing
    /// needs any more.
    pub open spec fn collected_from(self, before: TableModel) -> bool {
        exists|held: Seq<u64>| #[trigger]
            pruned(before, self.table, held) && forall|s: u64|
                #![trigger held.contains(s)]
                held.contains(s) <==> self.holds(s)
    }
}

pub struct RtpMuxConnector<R, C, A> {
    config: Option<ExplorerConfig>,
    sessions: AssocMap<SocketAddr, u64>,
    draining: AssocMap<SocketAddr, u64>,
    dials: DialBook<R>,
    groups: AssocMap<SocketAddr, AddrGroup>,
    recycling: AssocMap<SocketAddr, Recycling>,
    explorers: AssocMap<SocketAddr, Explorer<C, A>>,
    table: SessionTable,
}

impl<R, C, A> View for RtpMuxConnector<R, C, A> {
    type V = ConnectorModel<R, C, A>;

    closed spec fn view(&self) -> ConnectorModel<R, C, A> {
        ConnectorModel {
            config: self.config,
            sessions: self.sessions@,
            draining: self.draining@,
            dials: self.dials@,
            groups: group_models(self.groups@),
            recycling: self.recycling@,
            explorers: self.explorers@,
            table: self.table@,
        }
    }
}

impl<R, C, A> RtpMuxConnector<R, C, A> {
    /// A connector that knows no address; paths are explored where the
    /// configuration enables it.
    pub fn with_config(config: ExplorerConfig) -> (r: Self)
        ensures
            r@.config == if config.enabled {
                Some(config)
            } else {
                None
            },
            r@.sessions == Map::<SocketAddr, u64>::empty(),
            r@.draining == Map::<SocketAddr, u64>::empty(),
            r@.dials == (BookModel::<R> { in_flight: Set::empty(), waiters: Map::empty() }),
            r@.groups == Map::<SocketAddr, GroupModel>::empty(),
            r@.recycling == Map::<SocketAddr, Recycling>::empty(),
            r@.explorers == Map::<SocketAddr, Explorer<C, A>>::empty(),
            r@.table == (TableModel {
                sessions: Map::empty(),
                guards: Map::empty(),
                next: 0,
                next_session: 0,
            }),
            r@.wf(),
            r@.table.tracked_once(),
    {
        let r = RtpMuxConnector {
            config: if config.enabled {
                Some(config)
            } else {
                None
            },
            sessions: AssocMap::new(),
            draining: AssocMap::new(),
            dials: DialBook::new(),
            groups: AssocMap::new(),
            recycling: AssocMap::new(),
            explorers: AssocMap::new(),
            table: SessionTable::new(),
        };
        proof {
            assert(r@.groups =~= Map::<SocketAddr, GroupModel>::empty());
        }
        r
    }

    /// The sessions that the addresses and the replacements refer to.
    fn held(&self) -> (r: Vec<u64>)
        ensures
            forall|s: u64| #[trigger] r@.contains(s) <==> self@.holds(s),
    {
        let mut r: Vec<u64> = Vec::new();
        let count: usize = self.sessions.len();
        let ghost order = self.sessions.order();
        let mut i: usize = 0;
        while i < count
            invariant
                i <= count,
                count == order.len(),
                order == self.sessions.order(),
                r@.len() == i,
                forall|j: int| 0 <= j < i ==> #[trigger] r@[j] == self.sessions@[order[j]]
                    && self.sessions@.dom().contains(order[j]),
            decreases count - i,
        {
            r.push(*self.sessions.value_at(i));
            i += 1;
        }
        let more: usize = self.recycling.len();
        let ghost turns = self.recycling.order();
        let mut k: usize = 0;
        while k < more
            invariant
                k <= more,
                more == turns.len(),
                turns == self.recycling.order(),
                count == order.len(),
                r@.len() == count + k,
                forall|j: int| 0 <= j < count ==> #[trigger] r@[j] == self.sessions@[order[j]]
                    && self.sessions@.dom().contains(order[j]),
                forall|j: int| count <= j < count + k ==> #[trigger] r@[j]
                    == self.recycling@[turns[j - count]].old && self.recycling@.dom().contains(
                    turns[j - count],
                ),
            decreases more - k,
        {
            r.push(self.recycling.value_at(k).old);
            k += 1;
        }
        proof {
            assert forall|s: u64| #[trigger] r@.contains(s) <==> self@.holds(s) by {
                if r@.contains(s) {
                    let j = r@.index_of(s);
                    if j < count {
                        assert(self@.sessions.dom().contains(order[j]));
                    } else {
                        assert(self@.recycling.dom().contains(turns[j - count]));
                    }
                }
                if exists|a: SocketAddr| #[trigger]
                    self@.sessions.dom().contains(a) && self@.sessions[a] == s {
                    let a = choose|a: SocketAddr| #[trigger]
                        self@.sessions.dom().contains(a) && self@.sessions[a] == s;
                    assert(self.sessions@.dom().contains(a));
                    let j = choose|j: int| 0 <= j < order.len() && #[trigger] order[j] == a;
                    assert(0 <= j < order.len() && order[j] == a);
                    assert(r@[j] == s);
                }
                if exists|a: SocketAddr| #[trigger]
                    self@.recycling.dom().contains(a) && self@.recycling[a].old == s {
                    let a = choose|a: SocketAddr| #[trigger]
                        self@.recycling.dom().contains(a) && self@.recycling[a].old == s;
                    assert(self.recycling@.dom().contains(a));
                    let j = choose|j: int| 0 <= j < turns.len() && #[trigger] turns[j] == a;
                    assert(0 <= j < turns.len() && turns[j] == a);
                    assert(r@[count + j] == s);
                }
            }
        }
        r
    }

    /// Forgets the sessions that nothing needs any more.
    fn collect(&mut self)
        requires
            old(self)@.table.wf(),
        ensures
            final(self)@ == (ConnectorModel { table: final(self)@.table, ..old(self)@ }),
            final(self)@.collected_from(old(self)@.table),
            old(self)@.wf() ==> final(self)@.wf(),
            old(self)@.table.tracked_once() ==> final(self)@.table.tracked_once(),
            final(self)@.table.wf(),
    {
        let held = self.held();
        let ghost before = self@;
        self.table.prune(&held);
        proof {
            assert(self@ =~= ConnectorModel { table: self@.table, ..before });
            assert forall|s: u64| #![trigger held@.contains(s)] held@.contains(s)
                <==> self@.holds(s) by {
                assert(held@.contains(s) <==> before.holds(s));
                lemma_holds_by_what_is_named(before, self@, s);
            }
            assert(pruned(before.table, self@.table, held@));
            if before.wf() {
                assert forall|a: SocketAddr| #[trigger]
                    self@.sessions.dom().contains(a) implies self@.table.has(
                    self@.sessions[a],
                ) by {
                    assert(before.sessions.dom().contains(a));
                    assert(before.table.has(before.sessions[a]));
                    assert(held@.contains(before.sessions[a]));
                }
                assert forall|a: SocketAddr| #[trigger]
                    self@.recycling.dom().contains(a) implies self@.table.has(
                    self@.recycling[a].old,
                ) by {
                    assert(before.recycling.dom().contains(a));
                    assert(before.table.has(before.recycling[a].old));
                    assert(held@.contains(before.recycling[a].old));
                }
            }
        }
    }

    /// The session that serves an address.
    pub fn live_session(&self, addr: SocketAddr, alive: &Vec<u64>) -> (r: Option<u64>)
        ensures
            r == self@.live_session(addr, alive@),
    {
        match self.sessions.get(&addr) {
            Some(session) => if listed(alive, *session) {
                Some(*session)
            } else {
                None
            },
            None => None,
        }
    }

    /// Prepares a dial: the address has a group, is explored where paths are,
    /// and hands its best candidate to the dial.
    fn start_dial(
        &mut self,
        addr: SocketAddr,
        fresh: GroupToken,
        now: u64,
        costs: &Vec<u64>,
    ) -> (r: DialPlan<C>)
        requires
            old(self)@.explorers.dom().contains(addr) ==> costs@.len()
                == old(self)@.explorers[addr].candidates@.len(),
            old(self)@.config is Some ==> now + (old(self)@.config->0).rotation_period <= u64::MAX,
        ensures
            final(self)@ == (ConnectorModel {
                groups: old(self)@.grouped(addr, fresh),
                explorers: final(self)@.explorers,
                ..old(self)@
            }),
            explored(old(self)@, final(self)@.explorers, addr, now, costs@, r.candidate),
            r.addr == addr,
            r.token == old(self)@.grouped(addr, fresh)[addr].token,
    {
        let ghost before = self@;
        let token = match self.groups.get(&addr) {
            Some(group) => group.token,
            None => {
                self.groups.insert(
                    addr,
                    AddrGroup { token: fresh, router: false, sessions: Vec::new() },
                );
                proof {
                    assert(self@.groups =~= before.grouped(addr, fresh));
                }
                fresh
            },
        };
        let none: Vec<u64> = Vec::new();
        let ghost explorers = self.explorers@;
        let (found, known): (Option<Explorer<C, A>>, bool) = match self.explorers.remove(&addr) {
            Some(explorer) => (Some(explorer), true),
            None => (
                match &self.config {
                    Some(config) => Some(Explorer::new(*config, now)),
                    None => None,
                },
                false,
            ),
        };
        let candidate = match found {
            Some(mut explorer) => {
                let ghost fresh_explorer = explorer;
                let candidate = if known {
                    explorer.take_best(costs)
                } else {
                    explorer.take_best(&none)
                };
                let ghost left = explorer;
                self.explorers.insert(addr, explorer);
                proof {
                    assert(self.explorers@ =~= explorers.insert(addr, left));
                    if !known {
                        assert(none_scored(fresh_explorer.candidates@));
                    }
                }
                candidate
            },
            None => {
                proof {
                    assert(self.explorers@ =~= explorers);
                }
                None
            },
        };
        proof {
            assert(self@ =~= (ConnectorModel {
                groups: before.grouped(addr, fresh),
                explorers: self@.explorers,
                ..before
            }));
        }
        DialPlan { addr, token, candidate }
    }

    /// A stream to an address is asked for. It is opened on the session that
    /// serves the address; without one the request waits for a dial, as far
    /// as the limits allow. `closed` says that nobody awaits the answer,
    /// `open` which of the requests that wait already are still awaited;
    /// `fresh` names the address's group if it has none.
    pub fn connect_with_lane(
        &mut self,
        addr: SocketAddr,
        lane: LaneClass,
        response: R,
        closed: bool,
        alive: &Vec<u64>,
        open: &Vec<bool>,
        addr_text: &str,
        fresh: GroupToken,
        now: u64,
        costs: &Vec<u64>,
    ) -> (r: ConnectStep<R, C>)
        requires
            old(self)@.wf(),
            open@.len() == old(self)@.dials.waiting(addr).len(),
            old(self)@.explorers.dom().contains(addr) ==> costs@.len()
                == old(self)@.explorers[addr].candidates@.len(),
            old(self)@.config is Some ==> now + (old(self)@.config->0).rotation_period <= u64::MAX,
        ensures
            final(self)@.wf(),
            ({
                let request = StreamRequest { lane, response };
                let swept = old(self)@.dials.swept(addr, open@);
                match old(self)@.live_session(addr, alive@) {
                    Some(session) => {
                        &&& final(self)@ == old(self)@
                        &&& r == if closed {
                            ConnectStep::<R, C>::Abandoned
                        } else {
                            ConnectStep::<R, C>::Open { session, lane, response }
                        }
                    },
                    None => match swept.refusal(addr, addr_text@) {
                        Some(error) => {
                            &&& final(self)@ == (ConnectorModel { dials: swept, ..old(self)@ })
                            &&& r is Refused
                            &&& r->Refused_response == response
                            &&& r->Refused_error@ == error
                        },
                        None => if swept.in_flight.contains(addr) {
                            &&& final(self)@ == (ConnectorModel {
                                dials: swept.queued(addr, request),
                                ..old(self)@
                            })
                            &&& r is Waiting
                        } else {
                            &&& final(self)@ == (ConnectorModel {
                                dials: swept.queued(addr, request),
                                groups: old(self)@.grouped(addr, fresh),
                                explorers: final(self)@.explorers,
                                ..old(self)@
                            })
                            &&& r is Dial
                            &&& (r->Dial_0).addr == addr
                            &&& (r->Dial_0).token == old(self)@.grouped(addr, fresh)[addr].token
                            &&& explored(
                                old(self)@,
                                final(self)@.explorers,
                                addr,
                                now,
                                costs@,
                                (r->Dial_0).candidate,
                            )
                        },
                    },
                }
            }),
            ({
                let kept = retained(old(self)@.dials.waiting(addr), open@);
                match r {
                    ConnectStep::Waiting | ConnectStep::Dial(_) => {
                        &&& final(self)@.dials.waiting(addr) == kept.push(
                            StreamRequest { lane, response },
                        )
                        &&& final(self)@.dials.in_flight.contains(addr)
                    },
                    ConnectStep::Refused { .. } => final(self)@.dials.waiting(addr) == kept,
                    ConnectStep::Open { .. } | ConnectStep::Abandoned => final(self)@ == old(
                        self,
                    )@,
                }
            }),
            forall|a: SocketAddr|
                a != addr ==> #[trigger] final(self)@.dials.waiting(a) == old(self)@.dials.waiting(
                    a,
                ),
    {
        let ghost before = self@;
        if let Some(session) = self.live_session(addr, alive) {
            return if closed {
                ConnectStep::Abandoned
            } else {
                ConnectStep::Open { session, lane, response }
            };
        }
        match self.dials.queue(addr, StreamRequest { lane, response }, open, addr_text) {
            Queueing::Refused { response, error } => ConnectStep::Refused { response, error },
            Queueing::Waiting { dial } => {
                if !dial {
                    proof {
                        assert(self@.dials.in_flight =~= before.dials.in_flight);
                    }
                    return ConnectStep::Waiting;
                }
                let plan = self.start_dial(addr, fresh, now, costs);
                ConnectStep::Dial(plan)
            },
        }
    }

    /// Whether the session that an address's session replaced still lives.
    fn is_draining(&self, addr: SocketAddr) -> (r: bool)
        ensures
            r == self@.is_draining(addr),
    {
        match self.draining.get(&addr) {
            Some(old_session) => self.table.contains(*old_session),
            None => false,
        }
    }

    /// Whether a request to replace an address's session is passed on, and
    /// for which reason: it is not while the session before it still lives.
    pub fn request_recycle(&self, addr: SocketAddr, trigger: RecycleTrigger) -> (r: Option<
        RecycleTrigger,
    >)
        ensures
            r == if self@.is_draining(addr) {
                None
            } else {
                Some(trigger)
            },
    {
        if self.is_draining(addr) {
            None
        } else {
            Some(trigger)
        }
    }

    /// An address's session is to be replaced in any case.
    pub fn reset_addr(&self, addr: SocketAddr) -> (r: Option<RecycleTrigger>)
        ensures
            r == if self@.is_draining(addr) {
                None
            } else {
                Some(RecycleTrigger::Forced)
            },
    {
        self.request_recycle(addr, RecycleTrigger::Forced)
    }

    /// An address's session is to be replaced if there is a better path.
    pub fn reoptimize(&self, addr: SocketAddr) -> (r: Option<RecycleTrigger>)
        ensures
            r == if self@.is_draining(addr) {
                None
            } else {
                Some(RecycleTrigger::BetterPath)
            },
    {
        self.request_recycle(addr, RecycleTrigger::BetterPath)
    }

    /// A session is to be replaced, because it was asked for or because a
    /// better path has been found. `rtt_wins` and `loss_wins` say which
    /// margins the best candidate clears.
    pub fn recycle(
        &mut self,
        addr: SocketAddr,
        trigger: RecycleTrigger,
        fresh: GroupToken,
        now: u64,
        costs: &Vec<u64>,
        rtt_wins: bool,
        loss_wins: bool,
    ) -> (r: RecycleStep<C>)
        requires
            old(self)@.wf(),
            old(self)@.explorers.dom().contains(addr) ==> costs@.len()
                == old(self)@.explorers[addr].candidates@.len(),
            old(self)@.config is Some ==> now + (old(self)@.config->0).rotation_period <= u64::MAX,
        ensures
            final(self)@.wf(),
            ({
                let verdict = old(self)@.verdict(addr, costs@, rtt_wins, loss_wins);
                let better = trigger == RecycleTrigger::BetterPath;
                if old(self)@.is_draining(addr) || old(self)@.dials.in_flight.contains(addr) {
                    final(self)@ == old(self)@ && r is Busy
                } else if old(self)@.dials.in_flight.len() >= MAX_CONCURRENT_DUAL_DIALS {
                    final(self)@ == old(self)@ && r == (RecycleStep::<C>::Saturated {
                        pending: old(self)@.dials.in_flight.len() as usize,
                    })
                } else if better && !(verdict is Migrate) {
                    final(self)@ == old(self)@ && r == RecycleStep::<C>::Declined(verdict)
                } else if !old(self)@.sessions.dom().contains(addr) {
                    final(self)@ == old(self)@ && r is NoSession
                } else {
                    &&& final(self)@ == (ConnectorModel {
                        dials: old(self)@.dials.dialing(addr),
                        groups: old(self)@.grouped(addr, fresh),
                        explorers: final(self)@.explorers,
                        recycling: old(self)@.recycling.insert(
                            addr,
                            Recycling {
                                old: old(self)@.sessions[addr],
                                trigger,
                                verdict: if better {
                                    Some(verdict)
                                } else {
                                    None
                                },
                            },
                        ),
                        ..old(self)@
                    })
                    &&& r is Dial
                    &&& (r->Dial_0).addr == addr
                    &&& (r->Dial_0).token == old(self)@.grouped(addr, fresh)[addr].token
                    &&& explored(
                        old(self)@,
                        final(self)@.explorers,
                        addr,
                        now,
                        costs@,
                        (r->Dial_0).candidate,
                    )
                }
            }),
    {
        let ghost before = self@;
        if self.is_draining(addr) || self.dials.is_in_flight(addr) {
            return RecycleStep::Busy;
        }
        let pending: usize = self.dials.pending_dials();
        if pending >= MAX_CONCURRENT_DUAL_DIALS {
            return RecycleStep::Saturated { pending };
        }
        let verdict: Option<MigrationVerdict> = match trigger {
            RecycleTrigger::Forced => None,
            RecycleTrigger::BetterPath => {
                let verdict = match self.explorers.get(&addr) {
                    Some(explorer) => explorer.reoptimize_verdict(costs, rtt_wins, loss_wins),
                    None => MigrationVerdict::ActiveUnmeasured,
                };
                if !verdict.wants_migration() {
                    return RecycleStep::Declined(verdict);
                }
                Some(verdict)
            },
        };
        let old_session: u64 = match self.sessions.get(&addr) {
            Some(session) => *session,
            None => {
                return RecycleStep::NoSession;
            },
        };
        self.recycling.insert(addr, Recycling { old: old_session, trigger, verdict });
        self.dials.start(addr);
        let plan = self.start_dial(addr, fresh, now, costs);
        proof {
            assert forall|a: SocketAddr| #[trigger]
                self@.recycling.dom().contains(a) implies self@.table.has(
                self@.recycling[a].old,
            ) by {
                if a != addr {
                    assert(before.recycling.dom().contains(a));
                } else {
                    assert(before.sessions.dom().contains(addr));
                }
            }
            assert forall|a: SocketAddr| #[trigger]
                self@.sessions.dom().contains(a) implies self@.table.has(self@.sessions[a]) by {
                assert(before.sessions.dom().contains(a));
            }
        }
        RecycleStep::Dial(plan)
    }

    /// Drops the groups and explorers of addresses that are neither being
    /// dialed nor have a live session.
    fn prune_dead_addresses(&mut self)
        ensures
            final(self)@ == (ConnectorModel {
                groups: old(self)@.live_groups(),
                explorers: old(self)@.live_explorers(),
                ..old(self)@
            }),
            old(self)@.wf() ==> final(self)@.wf(),
    {
        let ghost start = self@;
        let ghost groups0 = self.groups@;
        let count: usize = self.groups.len();
        let ghost order = self.groups.order();
        let mut old_groups: AssocMap<SocketAddr, AddrGroup> = AssocMap::new();
        std::mem::swap(&mut old_groups, &mut self.groups);
        let mut kept: AssocMap<SocketAddr, AddrGroup> = AssocMap::new();
        let mut i: usize = 0;
        while i < count
            invariant
                i <= count,
                count == order.len(),
                order == old_groups.order(),
                order.no_duplicates(),
                old_groups@ == groups0,
                start.groups == group_models(groups0),
                start.dials == self.dials@,
                start.table == self.table@,
                forall|a: SocketAddr| #[trigger]
                    kept@.dom().contains(a) <==> (crate::assoc::holds(order.take(i as int), a)
                        && start.groups.dom().contains(a) && start.keeps(a)),
                forall|a: SocketAddr| #[trigger]
                    kept@.dom().contains(a) ==> kept@[a]@ == (GroupModel {
                        sessions: those_in(
                            start.groups[a].sessions,
                            start.table.sessions.dom(),
                        ),
                        ..start.groups[a]
                    }),
            decreases count - i,
        {
            let addr = old_groups.key_at(i);
            let group = old_groups.value_at(i);
            let sessions = self.table.known(&group.sessions);
            let keeps = self.dials.is_in_flight(addr) || sessions.len() > 0;
            if keeps {
                kept.insert(addr, AddrGroup { token: group.token, router: group.router, sessions });
            }
            proof {
                assert(start.groups.dom().contains(addr));
                assert(start.keeps(addr) == keeps);
                let t = order.take(i as int);
                let u = order.take(i as int + 1);
                assert(u =~= t.push(addr));
                assert forall|a: SocketAddr| crate::assoc::holds(u, a) <==> crate::assoc::holds(
                    t,
                    a,
                ) || a == addr by {
                    if crate::assoc::holds(t, a) {
                        let j = choose|j: int| 0 <= j < t.len() && #[trigger] t[j] == a;
                        assert(u[j] == a);
                    }
                    if a == addr {
                        assert(u[i as int] == a);
                    }
                    if crate::assoc::holds(u, a) && a != addr {
                        let j = choose|j: int| 0 <= j < u.len() && #[trigger] u[j] == a;
                        assert(t[j] == a);
                    }
                }
            }
            i += 1;
        }
        self.groups = kept;
        proof {
            assert(order.take(i as int) =~= order);
            assert(self@.groups =~= start.live_groups());
        }
        self.prune_explorers();
        proof {
            assert(self@.explorers =~= start.live_explorers());
            assert(self@ =~= (ConnectorModel {
                groups: start.live_groups(),
                explorers: start.live_explorers(),
                ..start
            }));
            if start.wf() {
                lemma_pruning_keeps_wf(start);
            }
        }
    }

    fn prune_explorers(&mut self)
        ensures
            final(self)@ == (ConnectorModel { explorers: final(self)@.explorers, ..old(self)@ }),
            final(self)@.explorers == old(self)@.explorers.restrict(old(self)@.groups.dom()),
    {
        let ghost start = self@;
        let count: usize = self.explorers.len();
        let ghost order = self.explorers.order();
        let mut doomed: Vec<SocketAddr> = Vec::new();
        let mut i: usize = 0;
        while i < count
            invariant
                i <= count,
                count == order.len(),
                order == self.explorers.order(),
                *self == *old(self),
                start == self@,
                forall|j: int| 0 <= j < i ==> (start.groups.dom().contains(#[trigger] order[j])
                    || doomed@.contains(order[j])),
                forall|j: int| 0 <= j < doomed@.len() ==> !start.groups.dom().contains(
                    #[trigger] doomed@[j],
                ),
            decreases count - i,
        {
            let addr = self.explorers.key_at(i);
            let ghost before = doomed@;
            if !self.groups.contains_key(&addr) {
                doomed.push(addr);
                proof {
                    assert(doomed@[before.len() as int] == addr);
                    assert forall|a: SocketAddr| before.contains(a) implies doomed@.contains(a) by {
                        let j = before.index_of(a);
                        assert(doomed@[j] == a);
                    }
                }
            }
            i += 1;
        }
        let ghost all = self.explorers@;
        let mut k: usize = 0;
        while k < doomed.len()
            invariant
                k <= doomed@.len(),
                self@ == (ConnectorModel { explorers: self.explorers@, ..start }),
                forall|a: SocketAddr| #[trigger]
                    self.explorers@.dom().contains(a) <==> all.dom().contains(a)
                        && !doomed@.take(k as int).contains(a),
                forall|a: SocketAddr| #[trigger]
                    self.explorers@.dom().contains(a) ==> self.explorers@[a] == all[a],
            decreases doomed@.len() - k,
        {
            let addr = doomed[k];
            self.explorers.remove(&addr);
            proof {
                let t = doomed@.take(k as int);
                let u = doomed@.take(k as int + 1);
                assert(u =~= t.push(addr));
                assert forall|a: SocketAddr| u.contains(a) <==> t.contains(a) || a == addr by {
                    if t.contains(a) {
                        assert(u[t.index_of(a)] == a);
                    }
                    assert(u[k as int] == addr);
                }
                assert(self@ =~= (ConnectorModel { explorers: self.explorers@, ..start }));
            }
            k += 1;
        }
        proof {
            assert(doomed@.take(k as int) =~= doomed@);
            assert forall|a: SocketAddr| #[trigger] all.dom().contains(a) implies (
            doomed@.contains(a) <==> !start.groups.dom().contains(a)) by {
                let j = choose|j: int| 0 <= j < order.len() && #[trigger] order[j] == a;
                assert(crate::assoc::holds(order, a));
                assert(0 <= j < order.len() && order[j] == a);
                if doomed@.contains(a) {
                    let d = doomed@.index_of(a);
                    assert(doomed@[d] == a);
                }
            }
            assert(self.explorers@ =~= all.restrict(start.groups.dom()));
        }
    }

    /// The path in use of an address that is explored changes.
    fn set_active(
        &mut self,
        addr: SocketAddr,
        io: Option<A>,
        local_addr: SocketAddr,
        now: u64,
        stagger: u64,
    )
        requires
            now + stagger <= u64::MAX,
        ensures
            final(self)@ == (ConnectorModel { explorers: final(self)@.explorers, ..old(self)@ }),
            activated(
                old(self)@.explorers,
                final(self)@.explorers,
                addr,
                io,
                local_addr,
                now,
                stagger,
            ),
    {
        let ghost before = self.explorers@;
        let ghost start = self@;
        match self.explorers.remove(&addr) {
            Some(mut explorer) => {
                explorer.set_active(io, local_addr, now, stagger);
                let ghost changed = explorer;
                self.explorers.insert(addr, explorer);
                proof {
                    assert(self.explorers@ =~= before.insert(addr, changed));
                }
            },
            None => {
                proof {
                    assert(self.explorers@ =~= before);
                }
            },
        }
        proof {
            assert(self@ =~= (ConnectorModel { explorers: self@.explorers, ..start }));
        }
    }

    /// A dial has succeeded: the session it made serves the address from now
    /// on, takes over the streams of the session it replaces, provided it is
    /// still alive itself, and answers the requests that waited. `writers`
    /// lists the streams whose writer can be moved.
    pub fn dial_succeeded(
        &mut self,
        addr: SocketAddr,
        local_addr: SocketAddr,
        nonce: PairingNonce,
        probe: Option<A>,
        new_alive: bool,
        writers: &Vec<u64>,
        now: u64,
        stagger: u64,
    ) -> (r: Connected<R>)
        requires
            old(self)@.wf(),
            old(self)@.dials.in_flight.contains(addr),
            old(self)@.table.next_session < u64::MAX,
            old(self)@.table.guards.dom().len() < u64::MAX,
            now + stagger <= u64::MAX,
        ensures
            final(self)@.wf(),
            old(self)@.table.tracked_once() ==> final(self)@.table.tracked_once(),
            ({
                let pair = SocketAddrPair { local_addr, peer_addr: addr };
                let group = old(self)@.groups[addr];
                let recycled = if old(self)@.recycling.dom().contains(addr) {
                    Some(old(self)@.recycling[addr])
                } else {
                    None
                };
                &&& r.session == old(self)@.table.next_session
                &&& r.start_router == !group.router
                &&& r.recycled == recycled
                &&& r.waiters@ == old(self)@.dials.waiting(addr)
                &&& exists|id: u64|
                    ({
                        let installed = #[trigger] old(self)@.table.installed(id, pair, nonce, now);
                        let moved = match recycled {
                            Some(recycling) if new_alive => installed.drained(
                                recycling.old,
                                r.session,
                            ).all_moved(
                                installed.sessions[recycling.old].streams,
                                r.session,
                                writers@,
                            ),
                            _ => installed,
                        };
                        final(self)@.collected_from(moved)
                    })
                &&& r.moved@ == match recycled {
                    Some(recycling) if new_alive => movable(
                        old(self)@.table.sessions[recycling.old].streams,
                        old(self)@.table.guards,
                        writers@,
                    ),
                    _ => Seq::<u64>::empty(),
                }
                &&& activated(
                    old(self)@.explorers,
                    final(self)@.explorers,
                    addr,
                    probe,
                    local_addr,
                    now,
                    stagger,
                )
                &&& final(self)@ == (ConnectorModel {
                    sessions: old(self)@.sessions.insert(addr, r.session),
                    draining: match recycled {
                        Some(recycling) => old(self)@.draining.insert(addr, recycling.old),
                        None => old(self)@.draining,
                    },
                    dials: old(self)@.dials.settled(addr),
                    recycling: old(self)@.recycling.remove(addr),
                    groups: old(self)@.groups.insert(
                        addr,
                        GroupModel {
                            token: group.token,
                            router: true,
                            sessions: those_in(
                                group.sessions,
                                old(self)@.table.sessions.dom().insert(r.session),
                            ).push(r.session),
                        },
                    ),
                    explorers: final(self)@.explorers,
                    table: final(self)@.table,
                    ..old(self)@
                })
            }),
            ({
                let table = final(self)@.table;
                &&& !old(self)@.table.has(r.session)
                &&& table.has(r.session)
                &&& table.sessions[r.session].addr.local_addr == local_addr
                &&& table.sessions[r.session].addr.peer_addr == addr
                &&& table.sessions[r.session].nonce == nonce
                &&& table.sessions[r.session].connected_at == now
                &&& table.sessions[r.session].opened == 0
                &&& table.sessions[r.session].successor is None
                &&& forall|x: u64| #[trigger]
                    r.moved@.contains(x) ==> table.guards[x] == r.session && table.tracks(
                        r.session,
                        x,
                    )
                &&& r.recycled matches Some(recycling) ==> (new_alive && table.has(recycling.old)
                    ==> table.sessions[recycling.old].successor == Some(r.session))
            }),
    {
        let ghost start = self@;
        let waiters = self.dials.settle(addr);
        let recycled = self.recycling.remove(&addr);
        self.set_active(addr, probe, local_addr, now, stagger);
        let session: u64 = self.table.install(
            SocketAddrPair { local_addr, peer_addr: addr },
            nonce,
            now,
        );
        let ghost installed = self.table@;
        let ghost id = self.table@.sessions[session].id;
        let ghost groups = self.groups@;
        let mut start_router = false;
        if let Some(group) = self.groups.remove(&addr) {
            start_router = !group.router;
            let mut sessions = self.table.known(&group.sessions);
            sessions.push(session);
            let changed = AddrGroup { token: group.token, router: true, sessions };
            let ghost model = changed@;
            self.groups.insert(addr, changed);
            proof {
                assert(installed.sessions.dom() =~= start.table.sessions.dom().insert(session));
                assert(self@.groups =~= group_models(groups).insert(addr, model));
            }
        }
        let mut moved: Vec<u64> = Vec::new();
        if let Some(recycling) = &recycled {
            proof {
                assert(start.recycling.dom().contains(addr));
                assert(start.table.has(recycling.old));
                assert(installed.has(recycling.old));
                assert(installed.sessions[recycling.old]
                    == start.table.sessions[recycling.old]);
            }
            moved = self.table.rebind_streams(recycling.old, session, new_alive, writers);
            proof {
                if new_alive {
                    lemma_a_recycle_names_the_successor(
                        installed,
                        recycling.old,
                        session,
                        writers@,
                        session,
                    );
                }
            }
            self.draining.insert(addr, recycling.old);
        }
        self.sessions.insert(addr, session);
        let ghost settled = self@;
        proof {
            if recycled is Some && new_alive {
                let drained = installed.drained((recycled->0).old, session);
                assert forall|x: u64| #[trigger] drained.has_stream(x) implies drained.has(
                    drained.guards[x],
                ) by {
                    assert(installed.has_stream(x));
                    assert(installed.has(installed.guards[x]));
                }
                lemma_moves_keep_sessions(
                    installed.drained((recycled->0).old, session),
                    installed.sessions[(recycled->0).old].streams,
                    session,
                    writers@,
                );
            }
            assert forall|s: u64| #[trigger] settled.table.has(s) <==> installed.has(s) by {
                if recycled is Some && new_alive {
                    let drained = installed.drained((recycled->0).old, session);
                    assert(drained.has(s) <==> installed.has(s));
                }
            }
            assert forall|a: SocketAddr| #[trigger]
                settled.sessions.dom().contains(a) implies settled.table.has(
                settled.sessions[a],
            ) && settled.groups.dom().contains(a) && settled.groups[a].sessions.contains(
                settled.sessions[a],
            ) by {
                if a != addr {
                    assert(start.sessions.dom().contains(a));
                    assert(start.table.has(start.sessions[a]));
                } else {
                    let listed = settled.groups[addr].sessions;
                    assert(listed[listed.len() - 1] == session);
                }
                assert(installed.has(settled.sessions[a]));
            }
            assert forall|a: SocketAddr| #[trigger]
                settled.recycling.dom().contains(a) implies settled.table.has(
                settled.recycling[a].old,
            ) by {
                assert(start.recycling.dom().contains(a));
                assert(start.table.has(start.recycling[a].old));
                assert(installed.has(settled.recycling[a].old));
            }
            assert(settled.groups.dom() =~= start.groups.dom().insert(addr));
            assert(settled.explorers.dom() =~= start.explorers.dom());
            assert(settled.wf());
            assert(settled.sessions.dom().contains(addr));
        }
        self.collect();
        proof {
            assert(self@.sessions.dom().contains(addr));
            assert(self@.table.has(session));
            assert(self@.table.sessions[session] == settled.table.sessions[session]);
            assert forall|x: u64| #[trigger] moved@.contains(x) implies self@.table.guards[x]
                == session && self@.table.tracks(session, x) by {
                assert(settled.table.tracks(session, x));
            }
            assert(start.table.installed(
                id,
                SocketAddrPair { local_addr, peer_addr: addr },
                nonce,
                now,
            ) == installed);
            assert(self@ =~= (ConnectorModel { table: self@.table, ..settled }));
        }
        Connected { session, start_router, recycled, moved, waiters }
    }

    /// A dial has failed: the requests that waited are answered with its
    /// error, and a session that was to be replaced stays.
    pub fn dial_failed(&mut self, addr: SocketAddr) -> (r: DialFailed<R>)
        requires
            old(self)@.wf(),
        ensures
            final(self)@.wf(),
            old(self)@.table.tracked_once() ==> final(self)@.table.tracked_once(),
            r.recycled == old(self)@.recycling.dom().contains(addr),
            r.waiters@ == old(self)@.dials.waiting(addr),
            ({
                let settled = ConnectorModel {
                    dials: old(self)@.dials.settled(addr),
                    recycling: old(self)@.recycling.remove(addr),
                    ..old(self)@
                };
                final(self)@ == (ConnectorModel {
                    groups: settled.live_groups(),
                    explorers: settled.live_explorers(),
                    table: final(self)@.table,
                    ..settled
                })
            }),
            final(self)@.collected_from(old(self)@.table),
    {
        let ghost start = self@;
        let waiters = self.dials.settle(addr);
        let recycled = self.recycling.remove(&addr).is_some();
        let ghost settled = self@;
        proof {
            assert(settled =~= (ConnectorModel {
                dials: start.dials.settled(addr),
                recycling: start.recycling.remove(addr),
                ..start
            }));
            assert forall|a: SocketAddr| #[trigger]
                settled.recycling.dom().contains(a) implies settled.table.has(
                settled.recycling[a].old,
            ) by {
                assert(start.recycling.dom().contains(a));
            }
            assert forall|a: SocketAddr| #[trigger]
                settled.sessions.dom().contains(a) implies settled.table.has(
                settled.sessions[a],
            ) by {
                assert(start.sessions.dom().contains(a));
            }
            assert(settled.wf());
        }
        self.prune_dead_addresses();
        self.collect();
        DialFailed { recycled, waiters }
    }

    /// A session has ended. If it served its address, the address has none
    /// any more; the result says so.
    pub fn session_ended(&mut self, addr: SocketAddr, session: u64) -> (r: bool)
        requires
            old(self)@.wf(),
        ensures
            final(self)@.wf(),
            old(self)@.table.tracked_once() ==> final(self)@.table.tracked_once(),
            r == (old(self)@.sessions.dom().contains(addr) && old(self)@.sessions[addr]
                == session),
            exists|mid: ConnectorModel<R, C, A>|
                ({
                    &&& mid.sessions == if r {
                        old(self)@.sessions.remove(addr)
                    } else {
                        old(self)@.sessions
                    }
                    &&& if r {
                        activated(old(self)@.explorers, mid.explorers, addr, None, addr, 0, 0)
                    } else {
                        mid.explorers == old(self)@.explorers
                    }
                    &&& mid == (ConnectorModel {
                        sessions: mid.sessions,
                        explorers: mid.explorers,
                        table: mid.table,
                        ..old(self)@
                    })
                    &&& #[trigger] mid.collected_from(old(self)@.table)
                    &&& final(self)@ == (ConnectorModel {
                        groups: mid.live_groups(),
                        explorers: mid.live_explorers(),
                        ..mid
                    })
                }),
    {
        let ghost start = self@;
        let served = match self.sessions.get(&addr) {
            Some(current) => *current == session,
            None => false,
        };
        if served {
            self.sessions.remove(&addr);
            self.set_active(addr, None, addr, 0, 0);
        }
        proof {
            assert forall|a: SocketAddr| #[trigger]
                self@.sessions.dom().contains(a) implies self@.table.has(self@.sessions[a])
                && self@.groups.dom().contains(a) && self@.groups[a].sessions.contains(
                self@.sessions[a],
            ) by {
                assert(start.sessions.dom().contains(a));
                assert(self@.sessions[a] == start.sessions[a]);
            }
            assert forall|a: SocketAddr| #[trigger]
                self@.recycling.dom().contains(a) implies self@.table.has(
                self@.recycling[a].old,
            ) by {
                assert(start.recycling.dom().contains(a));
            }
            assert(self@.explorers.dom() =~= start.explorers.dom());
            assert(self@.wf());
        }
        self.collect();
        let ghost mid = self@;
        self.prune_dead_addresses();
        served
    }

    /// A session's end could not be learned of: only what is dead is dropped.
    pub fn supervision_lost(&mut self)
        requires
            old(self)@.wf(),
        ensures
            final(self)@.wf(),
            old(self)@.table.tracked_once() ==> final(self)@.table.tracked_once(),
            exists|mid: ConnectorModel<R, C, A>|
                ({
                    &&& mid == (ConnectorModel { table: mid.table, ..old(self)@ })
                    &&& #[trigger] mid.collected_from(old(self)@.table)
                    &&& final(self)@ == (ConnectorModel {
                        groups: mid.live_groups(),
                        explorers: mid.live_explorers(),
                        ..mid
                    })
                }),
    {
        self.collect();
        let ghost mid = self@;
        self.prune_dead_addresses();
        proof {
            assert(mid.collected_from(old(self)@.table));
        }
    }

    /// Everything is given up: the sessions are to be killed, those that are
    /// being replaced too, and every request that waits is refused.
    pub fn reset(&mut self) -> (r: Reset<R>)
        requires
            old(self)@.wf(),
        ensures
            final(self)@.wf(),
            old(self)@.table.tracked_once() ==> final(self)@.table.tracked_once(),
            forall|s: u64| #[trigger]
                r.kill@.contains(s) <==> named(old(self)@.sessions, s) || (named(
                    old(self)@.draining,
                    s,
                ) && old(self)@.table.has(s)),
            exists|order: Seq<SocketAddr>|
                order.no_duplicates() && (forall|a: SocketAddr|
                    old(self)@.dials.waiters.dom().contains(a) <==> order.contains(a))
                    && r.refused@ == #[trigger] all_waiting(order, old(self)@.dials.waiters),
            r.error.is(ErrorKind::ConnectionAborted, "connector reset"@),
            final(self)@ == (ConnectorModel {
                sessions: Map::empty(),
                draining: Map::empty(),
                dials: BookModel { in_flight: Set::empty(), waiters: Map::empty() },
                groups: Map::empty(),
                recycling: Map::empty(),
                explorers: Map::empty(),
                table: final(self)@.table,
                ..old(self)@
            }),
            final(self)@.collected_from(old(self)@.table),
    {
        let ghost start = self@;
        let mut kill: Vec<u64> = Vec::new();
        let served: usize = self.sessions.len();
        let ghost order = self.sessions.order();
        let mut i: usize = 0;
        while i < served
            invariant
                i <= served,
                served == order.len(),
                order == self.sessions.order(),
                *self == *old(self),
                start == self@,
                forall|j: int| 0 <= j < i ==> kill@.contains(start.sessions[#[trigger] order[j]]),
                forall|j: int|
                    0 <= j < kill@.len() ==> named(start.sessions, #[trigger] kill@[j]),
            decreases served - i,
        {
            let session: u64 = *self.sessions.value_at(i);
            let ghost before = kill@;
            kill.push(session);
            proof {
                assert(start.sessions.dom().contains(order[i as int]));
                assert(kill@[before.len() as int] == session);
                assert forall|x: u64| before.contains(x) implies kill@.contains(x) by {
                    assert(kill@[before.index_of(x)] == x);
                }
            }
            i += 1;
        }
        proof {
            assert forall|s: u64| named(start.sessions, s) implies kill@.contains(s) by {
                let a = choose|a: SocketAddr| #[trigger]
                    start.sessions.dom().contains(a) && start.sessions[a] == s;
                assert(self.sessions@.dom().contains(a));
                let j = choose|j: int| 0 <= j < order.len() && #[trigger] order[j] == a;
                assert(0 <= j < order.len() && order[j] == a);
            }
        }
        let ghost first = kill@;
        let drained: usize = self.draining.len();
        let ghost turns = self.draining.order();
        let mut k: usize = 0;
        while k < drained
            invariant
                k <= drained,
                drained == turns.len(),
                turns == self.draining.order(),
                *self == *old(self),
                start == self@,
                forall|x: u64| #[trigger] first.contains(x) ==> kill@.contains(x),
                forall|j: int|
                    0 <= j < k ==> (start.table.has(start.draining[#[trigger] turns[j]])
                        ==> kill@.contains(start.draining[turns[j]])),
                forall|j: int|
                    0 <= j < kill@.len() ==> named(start.sessions, #[trigger] kill@[j]) || (named(
                        start.draining,
                        kill@[j],
                    ) && start.table.has(kill@[j])),
            decreases drained - k,
        {
            let session: u64 = *self.draining.value_at(k);
            if self.table.contains(session) {
                let ghost before = kill@;
                kill.push(session);
                proof {
                    assert(start.draining.dom().contains(turns[k as int]));
                    assert(kill@[before.len() as int] == session);
                    assert forall|x: u64| #[trigger] before.contains(x) implies kill@.contains(
                        x,
                    ) by {
                        assert(kill@[before.index_of(x)] == x);
                    }
                    assert forall|x: u64| #[trigger] first.contains(x) implies kill@.contains(
                        x,
                    ) by {
                        assert(before.contains(x));
                    }
                }
            }
            k += 1;
        }
        proof {
            assert forall|s: u64|
                named(start.draining, s) && start.table.has(s) implies kill@.contains(s) by {
                let a = choose|a: SocketAddr| #[trigger]
                    start.draining.dom().contains(a) && start.draining[a] == s;
                assert(self.draining@.dom().contains(a));
                let j = choose|j: int| 0 <= j < turns.len() && #[trigger] turns[j] == a;
                assert(0 <= j < turns.len() && turns[j] == a);
            }
        }
        let refused = self.dials.reset();
        self.sessions = AssocMap::new();
        self.draining = AssocMap::new();
        self.recycling = AssocMap::new();
        self.groups = AssocMap::new();
        self.explorers = AssocMap::new();
        proof {
            assert(self@.groups =~= Map::<SocketAddr, GroupModel>::empty());
        }
        self.collect();
        Reset {
            kill,
            refused,
            error: IoError::new(ErrorKind::ConnectionAborted, "connector reset"),
        }
    }

    /// Opens a stream on a session.
    pub fn open_stream(&mut self, session: u64) -> (r: OpenedStream)
        requires
            old(self)@.wf(),
            old(self)@.table.has(session),
            old(self)@.table.next < u64::MAX,
            old(self)@.table.guards.dom().len() < u64::MAX,
        ensures
            final(self)@.wf(),
            old(self)@.table.tracked_once() ==> final(self)@.table.tracked_once()
                && final(self)@.table.untracked(r.stream),
            final(self)@ == (ConnectorModel {
                table: old(self)@.table.opened(session),
                ..old(self)@
            }),
            r.stream == old(self)@.table.next,
            r.addr == old(self)@.table.sessions[session].addr,
    {
        let ghost start = self@;
        let r = self.table.open_stream(session);
        proof {
            assert forall|s: u64| #[trigger] start.table.has(s) implies self@.table.has(s) by {
            }
            lemma_same_names_keep_wf(start, self@);
        }
        r
    }

    /// Registers a stream's writer, as [`SessionTable::track`] does.
    pub fn track(&mut self, stream: u64, alive: &Vec<u64>, writers: &Vec<u64>) -> (r: Option<u64>)
        requires
            old(self)@.wf(),
            old(self)@.table.has_stream(stream),
            old(self)@.table.guards.dom().len() < u64::MAX,
        ensures
            final(self)@.wf(),
            old(self)@.table.tracked_once() && old(self)@.table.untracked(stream)
                ==> final(self)@.table.tracked_once(),
            ({
                let table = old(self)@.table;
                let session = table.guards[stream];
                let live = table.latest(session, alive@);
                if table.sessions[session].successor is None || live == session {
                    &&& r is None
                    &&& final(self)@ == (ConnectorModel {
                        table: table.follow(session, stream),
                        ..old(self)@
                    })
                } else if writers@.contains(stream) {
                    &&& r == Some(live)
                    &&& alive@.contains(live)
                    &&& final(self)@.collected_from(table.moved(stream, live))
                    &&& final(self)@ == (ConnectorModel {
                        table: final(self)@.table,
                        ..old(self)@
                    })
                } else {
                    r is None && final(self)@ == old(self)@
                }
            }),
            match r {
                Some(live) => final(self)@.table.guards[stream] == live
                    && final(self)@.table.tracks(live, stream),
                None => final(self)@.table.guards == old(self)@.table.guards,
            },
    {
        let ghost start = self@;
        let r = self.table.track(stream, alive, writers);
        proof {
            assert(start.table.has(start.table.guards[stream]));
            assert forall|s: u64| #[trigger] start.table.has(s) implies self@.table.has(s) by {
            }
            lemma_same_names_keep_wf(start, self@);
        }
        let ghost registered = self@;
        if r.is_some() {
            self.collect();
            proof {
                assert(registered.table.has_stream(stream));
                assert(self@.table.has_stream(stream));
                assert(self@.table.has(r->0));
                assert(self@.table.sessions[r->0] == registered.table.sessions[r->0]);
            }
        }
        r
    }

    /// A stream is gone.
    pub fn close_stream(&mut self, stream: u64)
        requires
            old(self)@.wf(),
        ensures
            final(self)@.wf(),
            old(self)@.table.tracked_once() ==> final(self)@.table.tracked_once(),
            final(self)@ == (ConnectorModel { table: final(self)@.table, ..old(self)@ }),
            final(self)@.collected_from(
                if old(self)@.table.has_stream(stream) {
                    old(self)@.table.closed(stream)
                } else {
                    old(self)@.table
                },
            ),
    {
        let ghost start = self@;
        self.table.close_stream(stream);
        proof {
            assert forall|s: u64| #[trigger] start.table.has(s) implies self@.table.has(s) by {
            }
            lemma_same_names_keep_wf(start, self@);
        }
        self.collect();
    }

    /// What exploring an address has shown; nothing where it is not explored.
    pub fn explorer_report(&self, addr: SocketAddr) -> (r: ExplorerReport)
        ensures
            if self@.explorers.dom().contains(addr) {
                let explorer = self@.explorers[addr];
                &&& r.candidates@.len() == explorer.candidates@.len()
                &&& forall|i: int|
                    0 <= i < r.candidates@.len() ==> #[trigger] r.candidates@[i]
                        == explorer.candidates@[i].stats.reported(
                        explorer.candidates@[i].local_addr,
                    )
                &&& r.active == match explorer.active {
                    Some(active) => Some(active.stats.reported(active.local_addr)),
                    None => None,
                }
            } else {
                r.candidates@.len() == 0 && r.active is None
            },
    {
        match self.explorers.get(&addr) {
            Some(explorer) => explorer.report(),
            None => ExplorerReport { candidates: Vec::new(), active: None },
        }
    }

    /// The session that an address has, alive or not.
    pub fn probe_session(&self, addr: SocketAddr) -> (r: Option<SessionProbe>)
        requires
            self@.wf(),
        ensures
            match r {
                Some(probe) => self@.sessions.dom().contains(addr) && probe.session
                    == self@.sessions[addr] && probe.id
                    == self@.table.sessions[self@.sessions[addr]].id,
                None => !self@.sessions.dom().contains(addr),
            },
    {
        match self.sessions.get(&addr) {
            Some(session) => match self.table.session(*session) {
                Some(node) => Some(SessionProbe { id: node.id, session: *session }),
                None => {
                    proof {
                        assert(self@.sessions.dom().contains(addr));
                        assert(false);
                    }
                    None
                },
            },
            None => None,
        }
    }

    /// The sessions and streams.
    pub fn table(&self) -> (r: &SessionTable)
        ensures
            r@ == self@.table,
    {
        &self.table
    }

    /// The dials and the requests that wait for them.
    pub fn dials(&self) -> (r: &DialBook<R>)
        ensures
            r@ == self@.dials,
    {
        &self.dials
    }

    /// The explorer of an address.
    pub fn explorer(&self, addr: SocketAddr) -> (r: Option<&Explorer<C, A>>)
        ensures
            match r {
                Some(explorer) => self@.explorers.dom().contains(addr) && *explorer
                    == self@.explorers[addr],
                None => !self@.explorers.dom().contains(addr),
            },
    {
        self.explorers.get(&addr)
    }

    /// The addresses that are explored.
    pub fn explored_addrs(&self) -> (r: Vec<SocketAddr>)
        ensures
            forall|a: SocketAddr| #[trigger] r@.contains(a) <==> self@.explorers.dom().contains(a),
            r@.no_duplicates(),
    {
        let mut r: Vec<SocketAddr> = Vec::new();
        let count: usize = self.explorers.len();
        let ghost order = self.explorers.order();
        let mut i: usize = 0;
        while i < count
            invariant
                i <= count,
                count == order.len(),
                order == self.explorers.order(),
                r@ == order.take(i as int),
            decreases count - i,
        {
            r.push(self.explorers.key_at(i));
            proof {
                assert(r@ =~= order.take(i as int + 1));
            }
            i += 1;
        }
        proof {
            assert(order.take(i as int) =~= order);
            assert forall|a: SocketAddr| #[trigger] r@.contains(a) <==> self@.explorers.dom().contains(
                a,
            ) by {
                assert(self.explorers@.dom().contains(a) <==> crate::assoc::holds(order, a));
                assert(crate::assoc::holds(order, a) <==> order.contains(a));
            }
        }
        r
    }

    /// Takes an address's explorer out, to be probed with and put back.
    pub fn take_explorer(&mut self, addr: SocketAddr) -> (r: Option<Explorer<C, A>>)
        requires
            old(self)@.wf(),
        ensures
            final(self)@.wf(),
            r == if old(self)@.explorers.dom().contains(addr) {
                Some(old(self)@.explorers[addr])
            } else {
                None
            },
            final(self)@ == (ConnectorModel {
                explorers: old(self)@.explorers.remove(addr),
                ..old(self)@
            }),
    {
        let ghost start = self@;
        let r = self.explorers.remove(&addr);
        proof {
            assert(self@ =~= (ConnectorModel { explorers: start.explorers.remove(addr), ..start }));
            lemma_same_names_keep_wf(start, self@);
        }
        r
    }

    /// Puts an address's explorer back, provided that the address still has a
    /// group.
    pub fn put_explorer(&mut self, addr: SocketAddr, explorer: Explorer<C, A>)
        requires
            old(self)@.wf(),
        ensures
            final(self)@.wf(),
            final(self)@ == if old(self)@.groups.dom().contains(addr) {
                ConnectorModel {
                    explorers: old(self)@.explorers.insert(addr, explorer),
                    ..old(self)@
                }
            } else {
                old(self)@
            },
    {
        let ghost start = self@;
        if self.groups.contains_key(&addr) {
            self.explorers.insert(addr, explorer);
            proof {
                assert(self@ =~= (ConnectorModel {
                    explorers: start.explorers.insert(addr, explorer),
                    ..start
                }));
                lemma_same_names_keep_wf(start, self@);
            }
        }
    }

    /// When the explorers next want attention: at once where one wants more
    /// candidates, never where there is none.
    pub fn explorer_wakeup(&self, now: u64) -> (r: Option<u64>)
        requires
            now + PROBE_POLL_TICK <= u64::MAX,
        ensures
            match r {
                None => self@.explorers.dom().len() == 0,
                Some(at) => if exists|a: SocketAddr| wants_refill(self@.explorers, a, now) {
                    at == now
                } else {
                    &&& exists|a: SocketAddr| #[trigger]
                        self@.explorers.dom().contains(a) && at == self@.explorers[a].wakeup(now)
                    &&& forall|a: SocketAddr| #[trigger]
                        self@.explorers.dom().contains(a) ==> at <= self@.explorers[a].wakeup(now)
                },
            },
    {
        let count: usize = self.explorers.len();
        let ghost order = self.explorers.order();
        let mut earliest: Option<u64> = None;
        let mut i: usize = 0;
        while i < count
            invariant
                i <= count,
                count == order.len(),
                order == self.explorers.order(),
                now + PROBE_POLL_TICK <= u64::MAX,
                forall|j: int|
                    0 <= j < i ==> !wants_refill(self@.explorers, #[trigger] order[j], now),
                match earliest {
                    None => i == 0,
                    Some(at) => (exists|a: SocketAddr| #[trigger]
                        self@.explorers.dom().contains(a) && at == self@.explorers[a].wakeup(now))
                        && forall|j: int|
                        0 <= j < i ==> at <= self@.explorers[#[trigger] order[j]].wakeup(now),
                },
            decreases count - i,
        {
            let explorer = self.explorers.value_at(i);
            proof {
                assert(self@.explorers.dom().contains(order[i as int]));
            }
            if explorer.wants_refill(now) {
                proof {
                    assert(wants_refill(self@.explorers, order[i as int], now));
                }
                return Some(now);
            }
            let at: u64 = explorer.next_wakeup(now);
            earliest = match earliest {
                Some(t) => if t <= at {
                    Some(t)
                } else {
                    Some(at)
                },
                None => Some(at),
            };
            i += 1;
        }
        proof {
            assert forall|a: SocketAddr| #[trigger] self@.explorers.dom().contains(a) implies !wants_refill(
                self@.explorers,
                a,
                now,
            ) && (earliest is Some ==> earliest->0 <= self@.explorers[a].wakeup(now)) by {
                assert(self.explorers@.dom().contains(a));
                let j = choose|j: int| 0 <= j < order.len() && #[trigger] order[j] == a;
                assert(0 <= j < order.len() && order[j] == a);
            }
        }
        earliest
    }
}

/// Whether an address's explorer wants more candidates.
pub open spec fn wants_refill<C, A>(
    explorers: Map<SocketAddr, Explorer<C, A>>,
    addr: SocketAddr,
    now: u64,
) -> bool {
    explorers.dom().contains(addr) && explorers[addr].spec_deficit() > 0 && now
        >= explorers[addr].refill_after
}

/// Whether a table of addresses names that session.
pub open spec fn named(sessions: Map<SocketAddr, u64>, session: u64) -> bool {
    exists|a: SocketAddr| #[trigger] sessions.dom().contains(a) && sessions[a] == session
}

/// What giving everything up leads to.
#[derive(Debug)]
pub struct Reset<R> {
    /// The sessions to be killed.
    pub kill: Vec<u64>,
    /// The requests that are answered with the error.
    pub refused: Vec<StreamRequest<R>>,
    pub error: IoError,
}

/// Dropping the groups of dead addresses keeps a connector in order: an
/// address with a session keeps its group.
proof fn lemma_pruning_keeps_wf<R, C, A>(before: ConnectorModel<R, C, A>)
    requires
        before.wf(),
    ensures
        (ConnectorModel {
            groups: before.live_groups(),
            explorers: before.live_explorers(),
            ..before
        }).wf(),
{
    let after = ConnectorModel {
        groups: before.live_groups(),
        explorers: before.live_explorers(),
        ..before
    };
    assert forall|a: SocketAddr| #[trigger] after.sessions.dom().contains(a) implies after.table.has(
        after.sessions[a],
    ) && after.groups.dom().contains(a) && after.groups[a].sessions.contains(
        after.sessions[a],
    ) by {
        assert(before.sessions.dom().contains(a));
        let s = before.sessions[a];
        assert(before.table.has(s));
        lemma_those_in(before.groups[a].sessions, before.table.sessions.dom(), s);
        let kept = those_in(before.groups[a].sessions, before.table.sessions.dom());
        assert(kept.contains(s));
        assert(kept.len() > 0);
        assert(before.keeps(a));
    }
    assert forall|a: SocketAddr| #[trigger]
        after.recycling.dom().contains(a) implies after.table.has(after.recycling[a].old) by {
        assert(before.recycling.dom().contains(a));
    }
}

/// A change that keeps who names whom, and every session, keeps a connector
/// in order.
proof fn lemma_same_names_keep_wf<R, C, A>(
    before: ConnectorModel<R, C, A>,
    after: ConnectorModel<R, C, A>,
)
    requires
        before.wf(),
        after.table.wf(),
        after.explorers.dom().subset_of(after.groups.dom()),
        after == (ConnectorModel { explorers: after.explorers, table: after.table, ..before }),
        forall|s: u64| #[trigger] before.table.has(s) ==> after.table.has(s),
    ensures
        after.wf(),
{
    assert forall|a: SocketAddr| #[trigger] after.sessions.dom().contains(a) implies after.table.has(
        after.sessions[a],
    ) by {
        assert(before.sessions.dom().contains(a));
        assert(before.table.has(before.sessions[a]));
    }
    assert forall|a: SocketAddr| #[trigger]
        after.recycling.dom().contains(a) implies after.table.has(after.recycling[a].old) by {
        assert(before.recycling.dom().contains(a));
        assert(before.table.has(before.recycling[a].old));
    }
}

/// The explorers once the path in use of an address has changed.
pub open spec fn activated<C, A>(
    before: Map<SocketAddr, Explorer<C, A>>,
    after: Map<SocketAddr, Explorer<C, A>>,
    addr: SocketAddr,
    io: Option<A>,
    local_addr: SocketAddr,
    now: u64,
    stagger: u64,
) -> bool {
    if before.dom().contains(addr) {
        &&& after == before.insert(addr, after[addr])
        &&& after[addr] == (Explorer { active: after[addr].active, ..before[addr] })
        &&& after[addr].active == match io {
            Some(io) => Some(
                ActiveTuple { io, local_addr, stats: unmeasured((now + stagger) as u64) },
            ),
            None => None,
        }
    } else {
        after == before
    }
}

/// The session that replaces another is dialed into the same group, so that
/// the accepting end moves the streams from the one to the other.
pub proof fn lemma_recycling_keeps_the_group<R, C, A>(
    connector: ConnectorModel<R, C, A>,
    addr: SocketAddr,
    fresh: GroupToken,
)
    requires
        connector.wf(),
        connector.sessions.dom().contains(addr),
    ensures
        connector.grouped(addr, fresh) == connector.groups,
        connector.grouped(addr, fresh)[addr].token == connector.groups[addr].token,
{
}

/// An address without a group is dialed into a fresh one: no state of an
/// earlier group of the address is taken up.
pub proof fn lemma_dead_address_starts_over<R, C, A>(
    connector: ConnectorModel<R, C, A>,
    addr: SocketAddr,
    fresh: GroupToken,
)
    requires
        !connector.keeps(addr),
    ensures
        !connector.live_groups().dom().contains(addr),
        !connector.live_explorers().dom().contains(addr),
        (ConnectorModel { groups: connector.live_groups(), ..connector }).grouped(addr, fresh)[addr]
            == (GroupModel { token: fresh, router: false, sessions: Seq::empty() }),
{
}

/// Which sessions are held depends on nothing but who names them.
proof fn lemma_holds_by_what_is_named<R, C, A>(
    a: ConnectorModel<R, C, A>,
    b: ConnectorModel<R, C, A>,
    session: u64,
)
    requires
        a.sessions == b.sessions,
        a.recycling == b.recycling,
    ensures
        a.holds(session) == b.holds(session),
{
}

/// The explorers once an address's best candidate has been handed out.
pub open spec fn explored<R, C, A>(
    before: ConnectorModel<R, C, A>,
    after: Map<SocketAddr, Explorer<C, A>>,
    addr: SocketAddr,
    now: u64,
    costs: Seq<u64>,
    candidate: Option<BestCandidate<C>>,
) -> bool {
    if before.explorers.dom().contains(addr) {
        &&& after == before.explorers.insert(addr, after[addr])
        &&& best_taken(before.explorers[addr], after[addr], costs, candidate)
    } else {
        match before.config {
            Some(config) => {
                &&& after == before.explorers.insert(addr, after[addr])
                &&& is_fresh(after[addr], config, now)
                &&& candidate is None
            },
            None => after == before.explorers && candidate is None,
        }
    }
}

// ---------------------------------------------------------------------------
// What serving, grouping and collecting come to
// ---------------------------------------------------------------------------
/// The session that serves an address is the one that the address has, as long
/// as it lives; an address whose session is down is served by none.
pub proof fn lemma_an_address_is_served_by_its_live_session<R, C, A>(
    connector: ConnectorModel<R, C, A>,
    addr: SocketAddr,
    alive: Seq<u64>,
    session: u64,
)
    ensures
        connector.live_session(addr, alive) == Some(session)
            <==> connector.sessions.dom().contains(addr) && connector.sessions[addr] == session
            && alive.contains(session),
        connector.live_session(addr, alive) is None <==> !connector.sessions.dom().contains(addr)
            || !alive.contains(connector.sessions[addr]),
{
}

/// An address drains as long as the session that was replaced is known, and
/// not a moment longer.
pub proof fn lemma_an_address_drains_while_the_old_session_is_known<R, C, A>(
    connector: ConnectorModel<R, C, A>,
    addr: SocketAddr,
)
    ensures
        connector.is_draining(addr) <==> connector.draining.dom().contains(addr)
            && connector.table.sessions.dom().contains(connector.draining[addr]),
{
}

/// Preparing a dial gives an address a group where it has none, under the
/// fresh name and without members, and changes no group that is there.
pub proof fn lemma_grouping_touches_one_address<R, C, A>(
    connector: ConnectorModel<R, C, A>,
    addr: SocketAddr,
    fresh: GroupToken,
    other: SocketAddr,
)
    ensures
        ({
            let groups = connector.grouped(addr, fresh);
            &&& groups.dom().contains(addr)
            &&& connector.groups.dom().contains(other) ==> groups.dom().contains(other)
                && groups[other] == connector.groups[other]
            &&& groups.dom().contains(other) ==> connector.groups.dom().contains(other) || other
                == addr
            &&& !connector.groups.dom().contains(addr) ==> groups[addr].token == fresh
                && !groups[addr].router && groups[addr].sessions.len() == 0
        }),
{
}

/// Dropping dead addresses keeps the group of an address that is being dialed
/// or has a session that is known, with its name, its router and those of its
/// sessions that are known; it drops every other. An address is explored
/// further where it was and its group is kept.
pub proof fn lemma_living_addresses_keep_their_groups<R, C, A>(
    connector: ConnectorModel<R, C, A>,
    addr: SocketAddr,
    session: u64,
)
    requires
        connector.groups.dom().contains(addr),
    ensures
        connector.dials.in_flight.contains(addr) ==> connector.live_groups().dom().contains(addr),
        connector.groups[addr].sessions.contains(session) && connector.table.has(session)
            ==> connector.live_groups().dom().contains(addr),
        !connector.dials.in_flight.contains(addr) && (forall|s: u64|
            connector.groups[addr].sessions.contains(s) ==> !#[trigger] connector.table.has(s))
            ==> !connector.live_groups().dom().contains(addr),
        connector.live_groups().dom().contains(addr) ==> {
            let group = connector.live_groups()[addr];
            &&& group.token == connector.groups[addr].token
            &&& group.router == connector.groups[addr].router
            &&& group.sessions.contains(session) <==> connector.groups[addr].sessions.contains(
                session,
            ) && connector.table.has(session)
        },
        connector.live_explorers().dom().contains(addr) <==> connector.explorers.dom().contains(
            addr,
        ) && connector.live_groups().dom().contains(addr),
        connector.live_explorers().dom().contains(addr) ==> connector.live_explorers()[addr]
            == connector.explorers[addr],
{
    let listed = connector.groups[addr].sessions;
    let known = connector.table.sessions.dom();
    let kept = those_in(listed, known);
    lemma_those_in(listed, known, session);
    if listed.contains(session) && connector.table.has(session) {
        assert(kept.contains(session));
        assert(kept.len() > 0);
    }
    if kept.len() > 0 {
        let s = kept[0];
        assert(kept.contains(s));
        lemma_those_in(listed, known, s);
        assert(connector.table.has(s));
    }
}

/// Dropping dead addresses makes no group and no explorer.
pub proof fn lemma_dropping_makes_nothing<R, C, A>(
    connector: ConnectorModel<R, C, A>,
    addr: SocketAddr,
)
    requires
        !connector.groups.dom().contains(addr),
    ensures
        !connector.live_groups().dom().contains(addr),
        !connector.live_explorers().dom().contains(addr),
{
}

/// A connector holds the sessions that serve its addresses and those that are
/// being replaced, and no others.
pub proof fn lemma_what_a_connector_holds<R, C, A>(
    connector: ConnectorModel<R, C, A>,
    addr: SocketAddr,
    session: u64,
)
    ensures
        connector.sessions.dom().contains(addr) ==> connector.holds(connector.sessions[addr]),
        connector.recycling.dom().contains(addr) ==> connector.holds(
            connector.recycling[addr].old,
        ),
        (forall|a: SocketAddr| #[trigger]
            connector.sessions.dom().contains(a) ==> connector.sessions[a] != session) && (forall|
            a: SocketAddr,
        | #[trigger]
            connector.recycling.dom().contains(a) ==> connector.recycling[a].old != session)
            ==> !connector.holds(session),
        named(connector.sessions, session) ==> connector.holds(session),
{
}

/// Collecting keeps what serves an address, what is being replaced and what a
/// stream counts on, as it was; it forgets a session that is none of these and
/// that succeeds no other, and touches no stream.
pub proof fn lemma_collecting_forgets_what_nothing_needs<R, C, A>(
    connector: ConnectorModel<R, C, A>,
    before: TableModel,
    session: u64,
)
    requires
        before.wf(),
        connector.table.wf(),
        connector.collected_from(before),
        before.has(session),
    ensures
        connector.holds(session) ==> connector.table.has(session),
        before.sessions[session].live > 0 ==> connector.table.has(session),
        forall|x: u64| #[trigger]
            before.has_stream(x) && before.guards[x] == session ==> connector.table.has(session),
        !connector.holds(session) && before.sessions[session].live == 0 && (forall|p: u64|
            #[trigger]
            before.has(p) ==> before.sessions[p].successor != Some(session))
            ==> !connector.table.has(session),
        connector.table.has(session) ==> connector.table.sessions[session]
            == before.sessions[session],
        connector.table.guards == before.guards,
{
    let held = choose|held: Seq<u64>| #[trigger]
        pruned(before, connector.table, held) && forall|s: u64|
            #![trigger held.contains(s)]
            held.contains(s) <==> connector.holds(s);
    lemma_pruning_is_exact(before, connector.table, held, session);
    assert(held.contains(session) <==> connector.holds(session));
}

/// A better path is worth moving to exactly where the address is explored,
/// both the path in use and some candidate are measured, and a margin is
/// cleared.
pub proof fn lemma_moving_takes_a_measured_win<R, C, A>(
    connector: ConnectorModel<R, C, A>,
    addr: SocketAddr,
    costs: Seq<u64>,
    rtt_wins: bool,
    loss_wins: bool,
    i: int,
)
    requires
        connector.explorers.dom().contains(addr) && !none_scored(
            connector.explorers[addr].candidates@,
        ) ==> is_best(connector.explorers[addr].candidates@, costs, i),
    ensures
        ({
            let verdict = connector.verdict(addr, costs, rtt_wins, loss_wins);
            let explorer = connector.explorers[addr];
            &&& !connector.explorers.dom().contains(addr)
                ==> verdict is ActiveUnmeasured
            &&& verdict is Migrate <==> connector.explorers.dom().contains(addr)
                && explorer.active_scored() is Some && !none_scored(explorer.candidates@) && (
            rtt_wins || loss_wins)
            &&& verdict matches MigrationVerdict::Migrate { active, best, .. }
                ==> explorer.active_scored() == Some(active)
                && explorer.candidates@[i].stats.scored() == Some(best)
        }),
{
    if connector.explorers.dom().contains(addr) && !none_scored(
        connector.explorers[addr].candidates@,
    ) {
        let candidates = connector.explorers[addr].candidates@;
        let k = choose|k: int| is_best(candidates, costs, k);
        lemma_best_and_worst_are_unique(candidates, costs, i, k);
    }
}

/// Changing the path in use of an address touches that address's explorer
/// alone, and of it the path in use alone, whose measurements start afresh.
/// An address that is not explored stays so.
pub proof fn lemma_a_new_path_starts_unmeasured<C, A>(
    before: Map<SocketAddr, Explorer<C, A>>,
    after: Map<SocketAddr, Explorer<C, A>>,
    addr: SocketAddr,
    io: Option<A>,
    local_addr: SocketAddr,
    now: u64,
    stagger: u64,
    other: SocketAddr,
)
    requires
        activated(before, after, addr, io, local_addr, now, stagger),
        now + stagger <= u64::MAX,
    ensures
        after.dom().contains(other) <==> before.dom().contains(other),
        before.dom().contains(other) && other != addr ==> after[other] == before[other],
        before.dom().contains(addr) ==> {
            &&& after[addr].candidates == before[addr].candidates
            &&& after[addr].config == before[addr].config
            &&& after[addr].next_rotation_at == before[addr].next_rotation_at
            &&& after[addr].refill_after == before[addr].refill_after
            &&& after[addr].epoch == before[addr].epoch
            &&& after[addr].active is Some <==> io is Some
            &&& after[addr].active matches Some(active) ==> {
                &&& io == Some(active.io)
                &&& active.local_addr == local_addr
                &&& active.stats.samples == 0
                &&& active.stats.rtt is None
                &&& active.stats.outstanding is None
                &&& active.stats.next_probe_at == now + stagger
            }
        },
{
}

/// A dial takes a candidate only from its own address's explorer, and makes
/// that explorer where paths are explored and it is not there; no other
/// explorer is touched.
pub proof fn lemma_a_dial_draws_on_its_own_address<R, C, A>(
    before: ConnectorModel<R, C, A>,
    after: Map<SocketAddr, Explorer<C, A>>,
    addr: SocketAddr,
    now: u64,
    costs: Seq<u64>,
    candidate: Option<BestCandidate<C>>,
    other: SocketAddr,
)
    requires
        explored(before, after, addr, now, costs, candidate),
    ensures
        other != addr ==> (after.dom().contains(other) <==> before.explorers.dom().contains(other)),
        other != addr && before.explorers.dom().contains(other) ==> after[other]
            == before.explorers[other],
        !before.explorers.dom().contains(addr) ==> candidate is None && (after.dom().contains(addr)
            <==> before.config is Some),
        before.explorers.dom().contains(addr) ==> after.dom().contains(addr) && (candidate is Some
            <==> !none_scored(before.explorers[addr].candidates@)) && after[addr].candidates@.len()
            + (if candidate is Some {
            1int
        } else {
            0
        }) == before.explorers[addr].candidates@.len(),
{
    if before.explorers.dom().contains(addr) && candidate is Some {
        let i = choose|i: int|
            is_best(before.explorers[addr].candidates@, costs, i) && (candidate->0).io
                == before.explorers[addr].candidates@[i].io && (candidate->0).local_addr
                == before.explorers[addr].candidates@[i].local_addr && Some((candidate->0).score)
                == before.explorers[addr].candidates@[i].stats.scored() && after[addr].candidates@
                == #[trigger] taken_out(before.explorers[addr].candidates@, i);
        assert(before.explorers[addr].candidates@[i].stats.scored() is Some);
    }
}

/// An explorer wants more candidates exactly where some are missing and the
/// time to make them has come.
pub proof fn lemma_refills_are_wanted_when_due<C, A>(
    explorers: Map<SocketAddr, Explorer<C, A>>,
    addr: SocketAddr,
    now: u64,
)
    ensures
        wants_refill(explorers, addr, now) <==> explorers.dom().contains(addr)
            && explorers[addr].candidates@.len() < explorers[addr].config.candidates
            && explorers[addr].refill_after <= now,
{
}

/// What is known of a group is all that there is of it: its name, whether its
/// router runs, and its sessions in their order.
pub proof fn lemma_a_group_is_known_whole(groups: Map<SocketAddr, AddrGroup>, addr: SocketAddr)
    ensures
        group_models(groups).dom().contains(addr) <==> groups.dom().contains(addr),
        groups.dom().contains(addr) ==> {
            let group = group_models(groups)[addr];
            &&& group.token == groups[addr].token
            &&& group.router == groups[addr].router
            &&& group.sessions == groups[addr].sessions@
        },
{
}

} // verus!
