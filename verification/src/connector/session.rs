//! Sessions, the streams on them, and how streams follow a session's
//! successor.
//!
//! A stream counts on the session that its guard names. A session that has
//! been recycled names its successor; a stream that registers late follows
//! the chain of successors to the newest live one.

use vstd::prelude::*;

use crate::addr::SocketAddrPair;
use crate::assoc::AssocMap;
use crate::byte_count::{SessionByteCounters, SessionStats};
use crate::client_stream::{ClientStream, ReaderState};
use crate::lane::PairingNonce;
use crate::random::random_u64;

verus! {

/// How far the chain of successors is followed.
pub const MAX_SUCCESSOR_HOPS: usize = 8;

/// One session.
pub struct Session {
    /// The number by which the session is told apart outside; it is random.
    pub id: u64,
    pub addr: SocketAddrPair,
    pub nonce: PairingNonce,
    pub connected_at: u64,
    pub opened_streams: u64,
    pub live_streams: u64,
    /// The streams that are moved when the session is recycled.
    pub streams: Vec<u64>,
    pub successor: Option<u64>,
}

/// What is known of a session.
#[verifier::ext_equal]
pub struct SessionModel {
    pub id: u64,
    pub addr: SocketAddrPair,
    pub nonce: PairingNonce,
    pub connected_at: u64,
    pub opened: u64,
    pub live: u64,
    pub streams: Seq<u64>,
    pub successor: Option<u64>,
}

impl View for Session {
    type V = SessionModel;

    open spec fn view(&self) -> SessionModel {
        SessionModel {
            id: self.id,
            addr: self.addr,
            nonce: self.nonce,
            connected_at: self.connected_at,
            opened: self.opened_streams,
            live: self.live_streams,
            streams: self.streams@,
            successor: self.successor,
        }
    }
}

/// What is known of all sessions and streams: a stream is known by the
/// session that its guard names.
#[verifier::ext_equal]
pub struct TableModel {
    pub sessions: Map<u64, SessionModel>,
    pub guards: Map<u64, u64>,
    /// The number that the next stream will have.
    pub next: u64,
    /// The number that the next session will have.
    pub next_session: u64,
}

/// The streams that count on a session.
pub open spec fn guarded_by(guards: Map<u64, u64>, session: u64) -> Set<u64> {
    guards.dom().filter(|stream: u64| guards[stream] == session)
}

/// The numbers of a list that are in a set.
pub open spec fn those_in(list: Seq<u64>, ids: Set<u64>) -> Seq<u64>
    decreases list.len(),
{
    if list.len() == 0 {
        Seq::empty()
    } else {
        let rest = those_in(list.drop_last(), ids);
        if ids.contains(list.last()) {
            rest.push(list.last())
        } else {
            rest
        }
    }
}

/// What is kept of a list is what is in both the list and the set.
pub proof fn lemma_those_in(list: Seq<u64>, ids: Set<u64>, x: u64)
    ensures
        those_in(list, ids).contains(x) <==> list.contains(x) && ids.contains(x),
    decreases list.len(),
{
    if list.len() > 0 {
        let rest = list.drop_last();
        let last = list.last();
        lemma_those_in(rest, ids, x);
        assert(list =~= rest.push(last));
        assert(list.contains(x) <==> rest.contains(x) || x == last) by {
            if rest.contains(x) {
                assert(list[rest.index_of(x)] == x);
            }
            assert(list[list.len() - 1] == last);
        }
        let kept = those_in(rest, ids);
        assert(kept.push(last).contains(x) <==> kept.contains(x) || x == last) by {
            if kept.contains(x) {
                assert(kept.push(last)[kept.index_of(x)] == x);
            }
            assert(kept.push(last)[kept.len() as int] == last);
        }
    }
}

/// Whether a session is still needed: something outside holds it, a stream
/// counts on it, or it is the successor of a session that is there.
pub open spec fn needed(t: TableModel, session: u64, held: Seq<u64>) -> bool {
    ||| held.contains(session)
    ||| t.sessions[session].live > 0
    ||| exists|p: u64| #[trigger] t.has(p) && t.sessions[p].successor == Some(session)
}

/// The table once the sessions that are not needed have been forgotten.
pub open spec fn pruned(before: TableModel, after: TableModel, held: Seq<u64>) -> bool {
    &&& after.guards == before.guards
    &&& after.next == before.next
    &&& after.next_session == before.next_session
    &&& forall|id: u64| #[trigger]
        after.has(id) ==> before.has(id) && after.sessions[id] == before.sessions[id] && needed(
            after,
            id,
            held,
        )
    &&& forall|id: u64| #[trigger]
        before.has(id) && !after.has(id) ==> !held.contains(id) && before.sessions[id].live == 0
}

impl TableModel {
    pub open spec fn has(self, session: u64) -> bool {
        self.sessions.dom().contains(session)
    }

    pub open spec fn has_stream(self, stream: u64) -> bool {
        self.guards.dom().contains(stream)
    }

    /// Every session's gauge is the number of streams that count on it, every
    /// guard names a session, every successor is one, and no number is given
    /// out twice.
    pub open spec fn wf(self) -> bool {
        &&& self.guards.dom().finite()
        &&& forall|t: u64| #[trigger] self.has_stream(t) ==> t < self.next
        &&& forall|s: u64| #[trigger] self.has(s) ==> s < self.next_session
        &&& forall|s: u64| #[trigger]
            self.has(s) ==> self.sessions[s].live == guarded_by(self.guards, s).len()
        &&& forall|t: u64| #[trigger] self.has_stream(t) ==> self.has(self.guards[t])
        &&& forall|s: u64|
            #![trigger self.has(s)]
            self.has(s) && self.sessions[s].successor is Some ==> self.has(
                self.sessions[s].successor->0,
            )
    }

    /// Whether a session tracks a stream.
    pub open spec fn tracks(self, session: u64, stream: u64) -> bool {
        self.has(session) && self.sessions[session].streams.contains(stream)
    }

    /// Whether no session tracks the stream.
    pub open spec fn untracked(self, stream: u64) -> bool {
        forall|s: u64| !#[trigger] self.tracks(s, stream)
    }

    /// A session tracks no stream twice, and a stream that is there only
    /// where it counts on it. So it is where each stream is registered once.
    pub open spec fn tracked_once(self) -> bool {
        &&& forall|s: u64| #[trigger] self.has(s) ==> self.sessions[s].streams.no_duplicates()
        &&& forall|s: u64, x: u64| #[trigger]
            self.tracks(s, x) ==> x < self.next && (self.has_stream(x) ==> self.guards[x] == s)
    }

    /// A session has been established.
    pub open spec fn installed(
        self,
        id: u64,
        addr: SocketAddrPair,
        nonce: PairingNonce,
        now: u64,
    ) -> TableModel {
        TableModel {
            sessions: self.sessions.insert(
                self.next_session,
                SessionModel {
                    id,
                    addr,
                    nonce,
                    connected_at: now,
                    opened: 0,
                    live: 0,
                    streams: Seq::empty(),
                    successor: None,
                },
            ),
            next_session: (self.next_session + 1) as u64,
            ..self
        }
    }

    /// The session in another state.
    pub open spec fn with_session(self, session: u64, model: SessionModel) -> TableModel {
        TableModel { sessions: self.sessions.insert(session, model), ..self }
    }

    /// One stream more counts on the session.
    pub open spec fn counted(self, session: u64) -> TableModel {
        self.with_session(
            session,
            SessionModel {
                live: (self.sessions[session].live + 1) as u64,
                ..self.sessions[session]
            },
        )
    }

    /// One stream less counts on the session.
    pub open spec fn discounted(self, session: u64) -> TableModel {
        self.with_session(
            session,
            SessionModel {
                live: (self.sessions[session].live - 1) as u64,
                ..self.sessions[session]
            },
        )
    }

    /// A stream has been opened on the session.
    pub open spec fn opened(self, session: u64) -> TableModel {
        let counted = self.counted(session);
        let model = SessionModel {
            opened: wrapping_succ(counted.sessions[session].opened),
            ..counted.sessions[session]
        };
        TableModel {
            sessions: counted.sessions.insert(session, model),
            guards: self.guards.insert(self.next, session),
            next: (self.next + 1) as u64,
            next_session: self.next_session,
        }
    }

    /// The stream is gone.
    pub open spec fn closed(self, stream: u64) -> TableModel {
        TableModel {
            sessions: self.discounted(self.guards[stream]).sessions,
            guards: self.guards.remove(stream),
            next: self.next,
            next_session: self.next_session,
        }
    }

    /// The session tracks the stream, and no longer those that are gone.
    pub open spec fn follow(self, session: u64, stream: u64) -> TableModel {
        self.with_session(
            session,
            SessionModel {
                streams: those_in(self.sessions[session].streams, self.guards.dom()).push(stream),
                ..self.sessions[session]
            },
        )
    }

    /// The stream counts on another session, which tracks it.
    pub open spec fn moved(self, stream: u64, new: u64) -> TableModel {
        let gained = self.counted(new).discounted(self.guards[stream]);
        (TableModel { guards: self.guards.insert(stream, new), ..gained }).follow(new, stream)
    }

    /// The newest live session among the successors of `session`, or the
    /// session itself where none of them lives. `alive` lists the live
    /// sessions.
    pub open spec fn newest_live(self, cursor: u64, newest: u64, hops: nat, alive: Seq<u64>) -> u64
        decreases hops,
    {
        if hops == 0 {
            newest
        } else {
            match self.sessions[cursor].successor {
                None => newest,
                Some(next) => self.newest_live(
                    next,
                    if alive.contains(next) {
                        next
                    } else {
                        newest
                    },
                    (hops - 1) as nat,
                    alive,
                ),
            }
        }
    }

    pub open spec fn latest(self, session: u64, alive: Seq<u64>) -> u64 {
        self.newest_live(session, session, MAX_SUCCESSOR_HOPS as nat, alive)
    }

    /// The streams of the list that are there and whose writer can be moved
    /// now count on the new session.
    pub open spec fn all_moved(self, streams: Seq<u64>, new: u64, writers: Seq<u64>) -> TableModel
        decreases streams.len(),
    {
        if streams.len() == 0 {
            self
        } else {
            let before = self.all_moved(streams.drop_last(), new, writers);
            if before.has_stream(streams.last()) && writers.contains(streams.last()) {
                before.moved(streams.last(), new)
            } else {
                before
            }
        }
    }

    /// The old session has handed its streams over.
    pub open spec fn drained(self, old: u64, new: u64) -> TableModel {
        self.with_session(
            old,
            SessionModel { streams: Seq::empty(), successor: Some(new), ..self.sessions[old] },
        )
    }
}

/// The streams of a list that can be moved.
pub open spec fn movable(streams: Seq<u64>, guards: Map<u64, u64>, writers: Seq<u64>) -> Seq<u64>
    decreases streams.len(),
{
    if streams.len() == 0 {
        Seq::empty()
    } else {
        let rest = movable(streams.drop_last(), guards, writers);
        if guards.dom().contains(streams.last()) && writers.contains(streams.last()) {
            rest.push(streams.last())
        } else {
            rest
        }
    }
}

pub open spec fn wrapping_succ(n: u64) -> u64 {
    if n == u64::MAX {
        0
    } else {
        (n + 1) as u64
    }
}

proof fn lemma_guard_added(guards: Map<u64, u64>, stream: u64, session: u64, s: u64)
    requires
        guards.dom().finite(),
    ensures
        guarded_by(guards, s).finite(),
        guarded_by(guards, s).len() <= guards.dom().len(),
        guarded_by(guards.remove(stream), s).len() == guarded_by(guards, s).len() - (
        if guards.dom().contains(stream) && guards[stream] == s {
            1int
        } else {
            0
        }),
        guarded_by(guards.insert(stream, session), s).len() == guarded_by(
            guards.remove(stream),
            s,
        ).len() + (if session == s {
            1int
        } else {
            0
        }),
        guards.insert(stream, session).dom().finite(),
        guards.remove(stream).dom().finite(),
{
    let all = guarded_by(guards, s);
    guards.dom().lemma_len_filter(|t: u64| guards[t] == s);
    assert(all.subset_of(guards.dom()));
    let without = guarded_by(guards.remove(stream), s);
    assert(without =~= all.remove(stream));
    let with = guarded_by(guards.insert(stream, session), s);
    if session == s {
        assert(with =~= without.insert(stream));
    } else {
        assert(with =~= without);
    }
    assert(!without.contains(stream));
    guards.remove(stream).dom().lemma_len_filter(|t: u64| guards.remove(stream)[t] == s);
    vstd::set_lib::lemma_len_subset(all, guards.dom());
}

/// Opening and closing a stream keep the gauges true.
pub proof fn lemma_streams_keep_the_gauges(t: TableModel, session: u64, stream: u64)
    requires
        t.wf(),
    ensures
        t.has(session) && t.next < u64::MAX && t.guards.dom().len() < u64::MAX ==> t.opened(
            session,
        ).wf(),
        t.has_stream(stream) ==> t.closed(stream).wf(),
{
    if t.has(session) && t.next < u64::MAX && t.guards.dom().len() < u64::MAX {
        let n = t.opened(session);
        let fresh = t.next;
        assert(!t.has_stream(fresh));
        assert(t.guards.remove(fresh) =~= t.guards);
        lemma_guard_added(t.guards, fresh, session, session);
        assert forall|s: u64| #[trigger] n.has(s) implies n.sessions[s].live == guarded_by(
            n.guards,
            s,
        ).len() && s < n.next_session by {
            lemma_guard_added(t.guards, fresh, session, s);
            assert(t.has(s));
        }
        assert forall|x: u64| #[trigger] n.has_stream(x) implies n.has(n.guards[x]) && x < n.next by {
            if x != fresh {
                assert(t.has_stream(x));
            }
        }
        assert forall|s: u64|
            #![trigger n.has(s)]
            n.has(s) && n.sessions[s].successor is Some implies n.has(
            n.sessions[s].successor->0,
        ) by {
            assert(t.has(s));
        }
    }
    if t.has_stream(stream) {
        let n = t.closed(stream);
        let g = t.guards[stream];
        assert(t.has(g));
        lemma_guard_added(t.guards, stream, g, g);
        assert forall|s: u64| #[trigger] n.has(s) implies n.sessions[s].live == guarded_by(
            n.guards,
            s,
        ).len() && s < n.next_session by {
            lemma_guard_added(t.guards, stream, g, s);
            assert(t.has(s));
        }
        assert forall|x: u64| #[trigger] n.has_stream(x) implies n.has(n.guards[x]) && x < n.next by {
            assert(t.has_stream(x));
        }
        assert forall|s: u64|
            #![trigger n.has(s)]
            n.has(s) && n.sessions[s].successor is Some implies n.has(
            n.sessions[s].successor->0,
        ) by {
            assert(t.has(s));
        }
    }
}

/// Moving a stream keeps the gauges true: what the one session gains, the
/// other loses.
pub proof fn lemma_moving_keeps_the_gauges(t: TableModel, stream: u64, new: u64)
    requires
        t.wf(),
        t.has(new),
        t.has_stream(stream),
        t.guards.dom().len() < u64::MAX,
    ensures
        t.moved(stream, new).wf(),
{
    let n = t.moved(stream, new);
    let g = t.guards[stream];
    assert(t.has(g));
    lemma_guard_added(t.guards, stream, new, new);
    lemma_guard_added(t.guards, stream, new, g);
    assert forall|s: u64| #[trigger] n.has(s) implies n.sessions[s].live == guarded_by(
        n.guards,
        s,
    ).len() && s < n.next_session by {
        lemma_guard_added(t.guards, stream, new, s);
        assert(t.has(s));
    }
    assert forall|x: u64| #[trigger] n.has_stream(x) implies n.has(n.guards[x]) && x < n.next by {
        if x != stream {
            assert(t.has_stream(x));
        }
    }
    assert forall|s: u64|
        #![trigger n.has(s)]
        n.has(s) && n.sessions[s].successor is Some implies n.has(n.sessions[s].successor->0) by {
        assert(t.has(s));
    }
}

/// All sessions and streams.
pub struct SessionTable {
    sessions: AssocMap<u64, Session>,
    guards: AssocMap<u64, u64>,
    next_stream: u64,
    next_session: u64,
}

/// A stream that has been opened.
#[derive(Clone, Copy, Debug, PartialEq, Eq, Structural)]
pub struct OpenedStream {
    /// The stream's number here.
    pub stream: u64,
    /// The session's addresses.
    pub addr: SocketAddrPair,
    /// The number by which both ends know the stream; it is random.
    pub logical_id: u64,
}

impl OpenedStream {
    /// The stream as its user reads from and writes to it.
    pub fn into_stream(self) -> (r: ClientStream)
        ensures
            r.state() == ReaderState::PendingSpliced,
            r.spec_addr() == self.addr,
    {
        ClientStream::new_duplex(self.addr)
    }
}

impl Session {
    /// The session at a glance; `counters` are what its lanes have moved.
    pub fn stats(&self, counters: &SessionByteCounters, now: u64) -> (r: SessionStats)
        ensures
            r == (SessionStats {
                live_streams: self@.live,
                opened_streams: self@.opened,
                tx_bytes: counters.tx(),
                rx_bytes: counters.rx(),
                uptime: if now > self@.connected_at {
                    (now - self@.connected_at) as u64
                } else {
                    0
                },
            }),
    {
        SessionStats {
            live_streams: self.live_streams,
            opened_streams: self.opened_streams,
            tx_bytes: counters.tx_bytes(),
            rx_bytes: counters.rx_bytes(),
            uptime: now.saturating_sub(self.connected_at),
        }
    }
}

/// A look at a session from outside, which does not keep it alive.
#[derive(Clone, Copy, Debug, PartialEq, Eq, Structural)]
pub struct SessionProbe {
    pub id: u64,
    pub session: u64,
}

impl SessionProbe {
    pub fn id(&self) -> (r: u64)
        ensures
            r == self.id,
    {
        self.id
    }

    pub fn is_alive(&self, table: &SessionTable) -> (r: bool)
        ensures
            r == table@.has(self.session),
    {
        table.contains(self.session)
    }

    /// How many streams count on the session, as long as it is there.
    pub fn live_streams(&self, table: &SessionTable) -> (r: Option<u64>)
        ensures
            r == if table@.has(self.session) {
                Some(table@.sessions[self.session].live)
            } else {
                None
            },
    {
        match table.session(self.session) {
            Some(session) => Some(session.live_streams),
            None => None,
        }
    }

    /// The session at a glance, as long as it is there.
    pub fn stats(&self, table: &SessionTable, counters: &SessionByteCounters, now: u64) -> (r:
        Option<SessionStats>)
        ensures
            match r {
                Some(stats) => table@.has(self.session) && stats.live_streams
                    == table@.sessions[self.session].live && stats.opened_streams
                    == table@.sessions[self.session].opened && stats.tx_bytes == counters.tx()
                    && stats.rx_bytes == counters.rx() && stats.uptime == if now
                    > table@.sessions[self.session].connected_at {
                    (now - table@.sessions[self.session].connected_at) as u64
                } else {
                    0
                },
                None => !table@.has(self.session),
            },
    {
        match table.session(self.session) {
            Some(session) => Some(session.stats(counters, now)),
            None => None,
        }
    }
}

/// What is known of each session of a table.
pub open spec fn models(sessions: Map<u64, Session>) -> Map<u64, SessionModel> {
    Map::new(|s: u64| sessions.dom().contains(s), |s: u64| sessions[s]@)
}

impl View for SessionTable {
    type V = TableModel;

    closed spec fn view(&self) -> TableModel {
        TableModel {
            sessions: models(self.sessions@),
            guards: self.guards@,
            next: self.next_stream,
            next_session: self.next_session,
        }
    }
}

/// Whether the list holds the number.
pub fn listed(list: &Vec<u64>, x: u64) -> (r: bool)
    ensures
        r == list@.contains(x),
{
    let mut i: usize = 0;
    while i < list.len()
        invariant
            i <= list@.len(),
            forall|j: int| 0 <= j < i ==> list@[j] != x,
        decreases list@.len() - i,
    {
        if list[i] == x {
            proof {
                assert(list@[i as int] == x);
            }
            return true;
        }
        i += 1;
    }
    false
}

impl SessionTable {
    pub fn new() -> (r: Self)
        ensures
            r@ == (TableModel { sessions: Map::empty(), guards: Map::empty(), next: 0, next_session: 0 }),
            r@.wf(),
            r@.tracked_once(),
    {
        let r = SessionTable {
            sessions: AssocMap::new(),
            guards: AssocMap::new(),
            next_stream: 0,
            next_session: 0,
        };
        proof {
            assert(r@.sessions =~= Map::<u64, SessionModel>::empty());
            assert(r@.guards.dom() =~= Set::<u64>::empty());
        }
        r
    }

    /// Replaces a session's state.
    fn put(&mut self, id: u64, session: Session)
        ensures
            final(self)@ == old(self)@.with_session(id, session@),
    {
        let ghost model = session@;
        let ghost before = self.sessions@;
        self.sessions.insert(id, session);
        proof {
            assert(models(self.sessions@) =~= models(before).insert(id, model));
        }
    }

    fn take(&mut self, id: u64) -> (r: Session)
        requires
            old(self)@.has(id),
        ensures
            r@ == old(self)@.sessions[id],
            final(self)@ == (TableModel {
                sessions: old(self)@.sessions.remove(id),
                ..old(self)@
            }),
    {
        let ghost before = self.sessions@;
        match self.sessions.remove(&id) {
            Some(session) => {
                proof {
                    assert(models(self.sessions@) =~= models(before).remove(id));
                }
                session
            },
            None => {
                proof {
                    assert(false);
                }
                vstd::pervasive::unreached()
            },
        }
    }

    /// A session has been established under that random number; its number
    /// here is returned.
    pub fn install_as(&mut self, id: u64, addr: SocketAddrPair, nonce: PairingNonce, now: u64) -> (r: u64)
        requires
            old(self)@.wf(),
            old(self)@.next_session < u64::MAX,
        ensures
            r == old(self)@.next_session,
            final(self)@ == old(self)@.installed(id, addr, nonce, now),
            !old(self)@.has(r),
            final(self)@.wf(),
            old(self)@.tracked_once() ==> final(self)@.tracked_once(),
    {
        let number: u64 = self.next_session;
        self.put(
            number,
            Session {
                id,
                addr,
                nonce,
                connected_at: now,
                opened_streams: 0,
                live_streams: 0,
                streams: Vec::new(),
                successor: None,
            },
        );
        self.next_session = number + 1;
        proof {
            let b = old(self)@;
            let n = self@;
            assert(n =~= b.installed(id, addr, nonce, now));
            if b.tracked_once() {
                lemma_installing_tracks_once(b, id, addr, nonce, now);
            }
            assert(guarded_by(n.guards, number) =~= Set::<u64>::empty()) by {
                assert forall|t: u64| !guarded_by(n.guards, number).contains(t) by {
                    if guarded_by(n.guards, number).contains(t) {
                        assert(b.has_stream(t));
                    }
                }
            }
            assert forall|s: u64| #[trigger] n.has(s) implies n.sessions[s].live == guarded_by(
                n.guards,
                s,
            ).len() && s < n.next_session by {
                if s != number {
                    assert(b.has(s));
                }
            }
            assert forall|t: u64| #[trigger] n.has_stream(t) implies n.has(n.guards[t]) && t
                < n.next by {
                assert(b.has_stream(t));
            }
            assert forall|s: u64|
                #![trigger n.has(s)]
                n.has(s) && n.sessions[s].successor is Some implies n.has(
                n.sessions[s].successor->0,
            ) by {
                if s != number {
                    assert(b.has(s));
                }
            }
        }
        number
    }

    /// A session has been established; its number here is returned, and it
    /// is given a random one for outside.
    pub fn install(&mut self, addr: SocketAddrPair, nonce: PairingNonce, now: u64) -> (r: u64)
        requires
            old(self)@.wf(),
            old(self)@.next_session < u64::MAX,
        ensures
            r == old(self)@.next_session,
            final(self)@ == old(self)@.installed(final(self)@.sessions[r].id, addr, nonce, now),
            !old(self)@.has(r),
            final(self)@.wf(),
            old(self)@.tracked_once() ==> final(self)@.tracked_once(),
    {
        self.install_as(random_u64(), addr, nonce, now)
    }

    pub fn contains(&self, id: u64) -> (r: bool)
        ensures
            r == self@.has(id),
    {
        self.sessions.contains_key(&id)
    }

    /// A session, as long as it is known.
    pub fn session(&self, id: u64) -> (r: Option<&Session>)
        ensures
            match r {
                Some(session) => self@.has(id) && session@ == self@.sessions[id],
                None => !self@.has(id),
            },
    {
        self.sessions.get(&id)
    }

    /// Opens a stream, which counts on the session from now on.
    pub fn open_stream(&mut self, session: u64) -> (r: OpenedStream)
        requires
            old(self)@.wf(),
            old(self)@.has(session),
            old(self)@.next < u64::MAX,
            old(self)@.guards.dom().len() < u64::MAX,
        ensures
            final(self)@ == old(self)@.opened(session),
            r.stream == old(self)@.next,
            r.addr == old(self)@.sessions[session].addr,
            final(self)@.wf(),
            old(self)@.tracked_once() ==> final(self)@.tracked_once() && final(self)@.untracked(
                r.stream,
            ),
    {
        let stream: u64 = self.next_stream;
        proof {
            lemma_guard_added(self@.guards, stream, session, session);
            lemma_streams_keep_the_gauges(self@, session, stream);
            if self@.tracked_once() {
                lemma_opening_tracks_once(self@, session);
            }
        }
        let ghost before = self@;
        let mut node = self.take(session);
        let addr = node.addr;
        node.opened_streams = node.opened_streams.wrapping_add(1);
        node.live_streams = node.live_streams + 1;
        self.put(session, node);
        self.guards.insert(stream, session);
        self.next_stream = stream + 1;
        proof {
            assert(self@ =~= before.opened(session));
        }
        OpenedStream { stream, addr, logical_id: random_u64() }
    }

    /// A stream is gone and counts nowhere any more.
    pub fn close_stream(&mut self, stream: u64)
        requires
            old(self)@.wf(),
        ensures
            final(self)@ == if old(self)@.has_stream(stream) {
                old(self)@.closed(stream)
            } else {
                old(self)@
            },
            final(self)@.wf(),
            old(self)@.tracked_once() ==> final(self)@.tracked_once(),
    {
        let ghost before = self@;
        match self.guards.get(&stream) {
            Some(session) => {
                let session: u64 = *session;
                proof {
                    assert(before.has_stream(stream));
                    assert(before.has(session));
                    lemma_guard_added(before.guards, stream, session, session);
                    lemma_streams_keep_the_gauges(before, session, stream);
                    if before.tracked_once() {
                        lemma_closing_tracks_once(before, stream);
                    }
                }
                let mut node = self.take(session);
                node.live_streams = node.live_streams - 1;
                self.put(session, node);
                self.guards.remove(&stream);
                proof {
                    assert(self@ =~= before.closed(stream));
                }
            },
            None => {},
        }
    }

    /// The sessions of a list that are known.
    pub fn known(&self, list: &Vec<u64>) -> (r: Vec<u64>)
        ensures
            r@ == those_in(list@, self@.sessions.dom()),
    {
        let mut r: Vec<u64> = Vec::new();
        let mut i: usize = 0;
        proof {
            assert(list@.take(0) =~= Seq::<u64>::empty());
        }
        while i < list.len()
            invariant
                i <= list@.len(),
                r@ == those_in(list@.take(i as int), self@.sessions.dom()),
            decreases list@.len() - i,
        {
            proof {
                assert(list@.take(i as int + 1).drop_last() =~= list@.take(i as int));
                assert(self@.has(list@[i as int]) == self@.sessions.dom().contains(
                    list@[i as int],
                ));
            }
            if self.contains(list[i]) {
                r.push(list[i]);
            }
            i += 1;
        }
        proof {
            assert(list@.take(i as int) =~= list@);
        }
        r
    }

    fn forget_gone(&self, streams: Vec<u64>) -> (r: Vec<u64>)
        ensures
            r@ == those_in(streams@, self@.guards.dom()),
    {
        let mut r: Vec<u64> = Vec::new();
        let mut i: usize = 0;
        proof {
            assert(streams@.take(0) =~= Seq::<u64>::empty());
        }
        while i < streams.len()
            invariant
                i <= streams@.len(),
                r@ == those_in(streams@.take(i as int), self@.guards.dom()),
            decreases streams@.len() - i,
        {
            proof {
                assert(streams@.take(i as int + 1).drop_last() =~= streams@.take(i as int));
            }
            if self.guards.contains_key(&streams[i]) {
                r.push(streams[i]);
            }
            i += 1;
        }
        proof {
            assert(streams@.take(i as int) =~= streams@);
        }
        r
    }

    /// The session tracks the stream.
    fn follow(&mut self, session: u64, stream: u64)
        requires
            old(self)@.has(session),
        ensures
            final(self)@ == old(self)@.follow(session, stream),
    {
        let ghost before = self@;
        let mut node = self.take(session);
        let mut streams: Vec<u64> = Vec::new();
        std::mem::swap(&mut streams, &mut node.streams);
        let mut kept = self.forget_gone(streams);
        kept.push(stream);
        node.streams = kept;
        self.put(session, node);
        proof {
            assert(self@ =~= before.follow(session, stream));
        }
    }

    /// The newest live session that follows the given one.
    pub fn latest_generation(&self, session: u64, alive: &Vec<u64>) -> (r: u64)
        requires
            self@.wf(),
            self@.has(session),
        ensures
            r == self@.latest(session, alive@),
            self@.has(r),
            r == session || alive@.contains(r),
    {
        let mut newest: u64 = session;
        let mut cursor: u64 = session;
        let mut hops: usize = MAX_SUCCESSOR_HOPS;
        while hops > 0
            invariant
                self@.wf(),
                self@.has(cursor),
                self@.has(newest),
                newest == session || alive@.contains(newest),
                self@.latest(session, alive@) == self@.newest_live(
                    cursor,
                    newest,
                    hops as nat,
                    alive@,
                ),
            decreases hops,
        {
            let next: Option<u64> = match self.sessions.get(&cursor) {
                Some(node) => node.successor,
                None => None,
            };
            match next {
                Some(next) => {
                    proof {
                        assert(self@.sessions[cursor].successor == Some(next));
                    }
                    cursor = next;
                    if listed(alive, next) {
                        newest = next;
                    }
                },
                None => {
                    return newest;
                },
            }
            hops -= 1;
        }
        newest
    }

    /// The stream moves onto another session, if its writer can be moved.
    fn rebind_one(&mut self, stream: u64, new: u64, writers: &Vec<u64>) -> (r: bool)
        requires
            old(self)@.wf(),
            old(self)@.has(new),
            old(self)@.has_stream(stream),
            old(self)@.guards.dom().len() < u64::MAX,
        ensures
            r == writers@.contains(stream),
            final(self)@ == if r {
                old(self)@.moved(stream, new)
            } else {
                old(self)@
            },
            r ==> final(self)@.guards[stream] == new && final(self)@.tracks(new, stream),
            final(self)@.wf(),
    {
        if !listed(writers, stream) {
            return false;
        }
        let ghost before = self@;
        proof {
            lemma_moving_keeps_the_gauges(before, stream, new);
            lemma_a_moved_stream_is_tracked(before, stream, new);
        }
        let old_session: u64 = match self.guards.get(&stream) {
            Some(session) => *session,
            None => new,
        };
        proof {
            lemma_guard_added(before.guards, stream, new, new);
            lemma_guard_added(before.guards, stream, new, old_session);
            assert(before.has(old_session));
        }
        let mut node = self.take(new);
        node.live_streams = node.live_streams + 1;
        self.put(new, node);
        proof {
            assert(self@ =~= before.counted(new));
        }
        let mut node = self.take(old_session);
        node.live_streams = node.live_streams - 1;
        self.put(old_session, node);
        proof {
            assert(self@ =~= before.counted(new).discounted(old_session));
        }
        self.guards.insert(stream, new);
        proof {
            assert(self@ =~= (TableModel {
                guards: before.guards.insert(stream, new),
                ..before.counted(new).discounted(old_session)
            }));
        }
        self.follow(new, stream);
        true
    }

    /// Registers a stream's writer with its session, so that it is moved when
    /// the session is recycled. Where that has happened already, the stream
    /// moves at once onto the newest live successor, which is returned; where
    /// no successor lives, it stays. `alive` lists the live sessions,
    /// `writers` the streams whose writer can be moved.
    pub fn track(&mut self, stream: u64, alive: &Vec<u64>, writers: &Vec<u64>) -> (r: Option<u64>)
        requires
            old(self)@.wf(),
            old(self)@.has_stream(stream),
            old(self)@.guards.dom().len() < u64::MAX,
        ensures
            ({
                let session = old(self)@.guards[stream];
                let live = old(self)@.latest(session, alive@);
                if old(self)@.sessions[session].successor is None || live == session {
                    r is None && final(self)@ == old(self)@.follow(session, stream)
                } else if writers@.contains(stream) {
                    r == Some(live) && final(self)@ == old(self)@.moved(stream, live)
                        && alive@.contains(live)
                } else {
                    r is None && final(self)@ == old(self)@
                }
            }),
            match r {
                Some(live) => final(self)@.guards[stream] == live && final(self)@.tracks(
                    live,
                    stream,
                ),
                None => final(self)@.guards == old(self)@.guards,
            },
            old(self)@.sessions[old(self)@.guards[stream]].successor is None ==> final(self)@.tracks(
                old(self)@.guards[stream],
                stream,
            ),
            final(self)@.wf(),
            old(self)@.tracked_once() && old(self)@.untracked(stream)
                ==> final(self)@.tracked_once(),
    {
        let ghost before = self@;
        let session: u64 = match self.guards.get(&stream) {
            Some(session) => *session,
            None => 0,
        };
        proof {
            assert(before.has(session));
        }
        let recycled = match self.sessions.get(&session) {
            Some(node) => node.successor.is_some(),
            None => false,
        };
        if recycled {
            let live: u64 = self.latest_generation(session, alive);
            proof {
                if before.tracked_once() && before.untracked(stream) {
                    lemma_moving_tracks_once(before, stream, live);
                }
            }
            if live != session {
                if self.rebind_one(stream, live, writers) {
                    return Some(live);
                }
                return None;
            }
        }
        proof {
            lemma_follow_keeps_wf(before, session, stream);
            lemma_a_followed_stream_is_tracked(before, session, stream);
            if before.tracked_once() && before.untracked(stream) {
                lemma_following_tracks_once(before, session, stream);
            }
        }
        self.follow(session, stream);
        None
    }

    /// Moves the old session's streams onto the new one, which becomes its
    /// successor; nothing is moved onto a session that is down. What is
    /// returned are the streams that moved: the caller moves their writers.
    pub fn rebind_streams(
        &mut self,
        old_session: u64,
        new: u64,
        new_alive: bool,
        writers: &Vec<u64>,
    ) -> (r: Vec<u64>)
        requires
            old(self)@.wf(),
            old(self)@.has(old_session),
            old(self)@.has(new),
            old(self)@.guards.dom().len() < u64::MAX,
        ensures
            if new_alive {
                let streams = old(self)@.sessions[old_session].streams;
                &&& final(self)@ == old(self)@.drained(old_session, new).all_moved(
                    streams,
                    new,
                    writers@,
                )
                &&& r@ == movable(streams, old(self)@.guards, writers@)
            } else {
                final(self)@ == old(self)@ && r@ == Seq::<u64>::empty()
            },
            forall|x: u64| #[trigger]
                r@.contains(x) <==> new_alive && old(self)@.tracks(old_session, x) && old(
                    self,
                )@.has_stream(x) && writers@.contains(x),
            forall|x: u64| #[trigger]
                r@.contains(x) ==> final(self)@.guards[x] == new && final(self)@.tracks(new, x),
            final(self)@.wf(),
            old(self)@.tracked_once() ==> final(self)@.tracked_once(),
            old(self)@.tracked_once() && old_session != new ==> {
                let (before, after) = (old(self)@.sessions, final(self)@.sessions);
                &&& after[old_session].live == before[old_session].live - r@.len()
                &&& after[new].live == before[new].live + r@.len()
            },
    {
        let mut moved: Vec<u64> = Vec::new();
        if !new_alive {
            return moved;
        }
        let ghost start = self@;
        let mut node = self.take(old_session);
        let mut streams: Vec<u64> = Vec::new();
        std::mem::swap(&mut streams, &mut node.streams);
        node.successor = Some(new);
        self.put(old_session, node);
        proof {
            assert(self@ =~= start.drained(old_session, new));
            lemma_draining_keeps_wf(start, old_session, new);
            assert(streams@.take(0) =~= Seq::<u64>::empty());
        }
        let ghost drained = self@;
        let mut i: usize = 0;
        while i < streams.len()
            invariant
                i <= streams@.len(),
                self@.wf(),
                self@.has(new),
                self@.guards.dom() == start.guards.dom(),
                start.guards.dom().len() < u64::MAX,
                self@ == drained.all_moved(streams@.take(i as int), new, writers@),
                moved@ == movable(streams@.take(i as int), start.guards, writers@),
            decreases streams@.len() - i,
        {
            let stream: u64 = streams[i];
            let ghost before = self@;
            proof {
                assert(streams@.take(i as int + 1).drop_last() =~= streams@.take(i as int));
            }
            if self.guards.contains_key(&stream) {
                if self.rebind_one(stream, new, writers) {
                    moved.push(stream);
                    proof {
                        assert(self@.guards.dom() =~= before.guards.dom());
                    }
                }
            }
            i += 1;
        }
        proof {
            assert(streams@.take(i as int) =~= streams@);
            assert forall|x: u64| #[trigger] moved@.contains(x) <==> start.tracks(old_session, x)
                && start.has_stream(x) && writers@.contains(x) by {
                lemma_movable(streams@, start.guards, writers@, x);
            }
            assert forall|x: u64| #[trigger] moved@.contains(x) implies self@.guards[x] == new
                && self@.tracks(new, x) by {
                lemma_movable(streams@, start.guards, writers@, x);
                lemma_moved_streams_are_tracked(drained, streams@, new, writers@, x);
            }
            if start.tracked_once() {
                lemma_a_recycle_tracks_once(start, old_session, new, writers@);
                if old_session != new {
                    lemma_a_recycle_moves_the_gauges(start, old_session, new, writers@);
                }
            }
        }
        moved
    }

    /// A session that is not needed any more, if there is one.
    fn unneeded(&self, held: &Vec<u64>) -> (r: Option<u64>)
        ensures
            match r {
                Some(id) => self@.has(id) && !needed(self@, id, held@),
                None => forall|id: u64| #[trigger] self@.has(id) ==> needed(self@, id, held@),
            },
    {
        let count: usize = self.sessions.len();
        let ghost order = self.sessions.order();
        let mut i: usize = 0;
        while i < count
            invariant
                i <= count,
                count == order.len(),
                order == self.sessions.order(),
                forall|k: u64| #[trigger]
                    self.sessions@.dom().contains(k) <==> crate::assoc::holds(order, k),
                forall|j: int| 0 <= j < i ==> needed(self@, #[trigger] order[j], held@),
            decreases count - i,
        {
            let id: u64 = self.sessions.key_at(i);
            let mut wanted = listed(held, id) || self.sessions.value_at(i).live_streams > 0;
            let mut p: usize = 0;
            while p < count && !wanted
                invariant
                    p <= count,
                    i < count,
                    count == order.len(),
                    order == self.sessions.order(),
                    id == order[i as int],
                    self@.has(id),
                    wanted ==> needed(self@, id, held@),
                    !wanted ==> !held@.contains(id) && self@.sessions[id].live == 0 && forall|j: int|
                        0 <= j < p ==> self@.sessions[#[trigger] order[j]].successor != Some(id),
                decreases count - p,
            {
                let key: u64 = self.sessions.key_at(p);
                match self.sessions.value_at(p).successor {
                    Some(next) => {
                        if next == id {
                            proof {
                                assert(self@.has(key));
                            }
                            wanted = true;
                        }
                    },
                    None => {},
                }
                p += 1;
            }
            if !wanted {
                proof {
                    assert forall|q: u64| #[trigger] self@.has(q) implies self@.sessions[q].successor
                        != Some(id) by {
                        assert(self.sessions@.dom().contains(q));
                        let j = choose|j: int| 0 <= j < order.len() && #[trigger] order[j] == q;
                        assert(0 <= j < order.len() && order[j] == q);
                    }
                }
                return Some(id);
            }
            i += 1;
        }
        proof {
            assert forall|id: u64| #[trigger] self@.has(id) implies needed(self@, id, held@) by {
                assert(self.sessions@.dom().contains(id));
                let j = choose|j: int| 0 <= j < order.len() && #[trigger] order[j] == id;
                assert(0 <= j < order.len() && order[j] == id);
            }
        }
        None
    }

    /// Forgets the sessions that are not needed any more; `held` lists those
    /// that something outside holds. What is left is as it was.
    pub fn prune(&mut self, held: &Vec<u64>)
        requires
            old(self)@.wf(),
        ensures
            final(self)@.wf(),
            pruned(old(self)@, final(self)@, held@),
            old(self)@.tracked_once() ==> final(self)@.tracked_once(),
    {
        let ghost start = self@;
        let mut left: usize = self.sessions.len();
        let mut found = self.unneeded(held);
        while found.is_some()
            invariant
                self@.wf(),
                self.sessions@.dom().finite(),
                left == self.sessions@.dom().len(),
                self@.guards == start.guards,
                self@.next == start.next,
                self@.next_session == start.next_session,
                forall|id: u64| #[trigger]
                    self@.has(id) ==> start.has(id) && self@.sessions[id] == start.sessions[id],
                forall|id: u64| #[trigger]
                    start.has(id) && !self@.has(id) ==> !held@.contains(id)
                        && start.sessions[id].live == 0,
                match found {
                    Some(id) => self@.has(id) && !needed(self@, id, held@),
                    None => forall|id: u64| #[trigger] self@.has(id) ==> needed(self@, id, held@),
                },
            decreases left,
        {
            let ghost before = self@;
            let ghost ids = self.sessions@.dom();
            if let Some(id) = found {
                self.take(id);
                proof {
                    lemma_forgetting_keeps_wf(before, id);
                    assert(self.sessions@.dom() =~= ids.remove(id)) by {
                        assert forall|k: u64|
                            self.sessions@.dom().contains(k) <==> ids.remove(id).contains(k) by {
                            assert(self@.has(k) <==> before.has(k) && k != id);
                        }
                    }
                    assert(ids.contains(id)) by {
                        assert(before.has(id));
                    }
                    assert forall|k: u64| #[trigger] self@.has(k) implies start.has(k)
                        && self@.sessions[k] == start.sessions[k] by {
                        assert(before.has(k));
                    }
                }
            }
            left = self.sessions.len();
            found = self.unneeded(held);
        }
        proof {
            if start.tracked_once() {
                lemma_pruning_tracks_once(start, self@, held@);
            }
        }
    }
}

/// A session that no stream counts on and that succeeds no other can be
/// forgotten.
proof fn lemma_forgetting_keeps_wf(t: TableModel, id: u64)
    requires
        t.wf(),
        t.has(id),
        t.sessions[id].live == 0,
        forall|p: u64| #[trigger] t.has(p) ==> t.sessions[p].successor != Some(id),
    ensures
        (TableModel { sessions: t.sessions.remove(id), ..t }).wf(),
{
    let n = TableModel { sessions: t.sessions.remove(id), ..t };
    assert forall|s: u64| #[trigger] n.has(s) implies n.sessions[s].live == guarded_by(
        n.guards,
        s,
    ).len() && s < n.next_session by {
        assert(t.has(s));
    }
    assert forall|x: u64| #[trigger] n.has_stream(x) implies n.has(n.guards[x]) && x < n.next by {
        assert(t.has_stream(x));
        if t.guards[x] == id {
            lemma_guard_added(t.guards, x, id, id);
            assert(guarded_by(t.guards, id).contains(x));
            assert(guarded_by(t.guards, id).len() == 0);
            assert(guarded_by(t.guards, id) =~= Set::<u64>::empty());
        }
    }
    assert forall|s: u64|
        #![trigger n.has(s)]
        n.has(s) && n.sessions[s].successor is Some implies n.has(n.sessions[s].successor->0) by {
        assert(t.has(s));
    }
}

/// Tracking a stream changes no gauge.
proof fn lemma_follow_keeps_wf(t: TableModel, session: u64, stream: u64)
    requires
        t.wf(),
        t.has(session),
    ensures
        t.follow(session, stream).wf(),
{
    let n = t.follow(session, stream);
    assert forall|s: u64| #[trigger] n.has(s) implies n.sessions[s].live == guarded_by(
        n.guards,
        s,
    ).len() && s < n.next_session by {
        assert(t.has(s));
    }
    assert forall|x: u64| #[trigger] n.has_stream(x) implies n.has(n.guards[x]) && x < n.next by {
        assert(t.has_stream(x));
    }
    assert forall|s: u64|
        #![trigger n.has(s)]
        n.has(s) && n.sessions[s].successor is Some implies n.has(n.sessions[s].successor->0) by {
        assert(t.has(s));
    }
}

/// Naming a successor changes no gauge.
proof fn lemma_draining_keeps_wf(t: TableModel, old_session: u64, new: u64)
    requires
        t.wf(),
        t.has(old_session),
        t.has(new),
    ensures
        t.drained(old_session, new).wf(),
{
    let n = t.drained(old_session, new);
    assert forall|s: u64| #[trigger] n.has(s) implies n.sessions[s].live == guarded_by(
        n.guards,
        s,
    ).len() && s < n.next_session by {
        assert(t.has(s));
    }
    assert forall|x: u64| #[trigger] n.has_stream(x) implies n.has(n.guards[x]) && x < n.next by {
        assert(t.has_stream(x));
    }
    assert forall|s: u64|
        #![trigger n.has(s)]
        n.has(s) && n.sessions[s].successor is Some implies n.has(n.sessions[s].successor->0) by {
        if s != old_session {
            assert(t.has(s));
        }
    }
}

/// What can be moved of a list is what is in it, is there, and has a writer.
proof fn lemma_movable(streams: Seq<u64>, guards: Map<u64, u64>, writers: Seq<u64>, x: u64)
    ensures
        movable(streams, guards, writers).contains(x) <==> streams.contains(x)
            && guards.dom().contains(x) && writers.contains(x),
    decreases streams.len(),
{
    if streams.len() > 0 {
        let rest = streams.drop_last();
        let last = streams.last();
        lemma_movable(rest, guards, writers, x);
        assert(streams =~= rest.push(last));
        assert(streams.contains(x) <==> rest.contains(x) || x == last) by {
            if rest.contains(x) {
                assert(streams[rest.index_of(x)] == x);
            }
            assert(streams[streams.len() - 1] == last);
        }
        let kept = movable(rest, guards, writers);
        assert(kept.push(last).contains(x) <==> kept.contains(x) || x == last) by {
            if kept.contains(x) {
                assert(kept.push(last)[kept.index_of(x)] == x);
            }
            assert(kept.push(last)[kept.len() as int] == last);
        }
    }
}

/// Moving a session's streams loses none and moves no other: a stream that
/// can be moved counts on the new session afterwards, every other one counts
/// where it did.
pub proof fn lemma_streams_move_exactly(
    t: TableModel,
    streams: Seq<u64>,
    new: u64,
    writers: Seq<u64>,
    x: u64,
)
    ensures
        ({
            let after = t.all_moved(streams, new, writers);
            &&& after.has_stream(x) == t.has_stream(x)
            &&& t.has_stream(x) ==> after.guards[x] == if movable(
                streams,
                t.guards,
                writers,
            ).contains(x) {
                new
            } else {
                t.guards[x]
            }
        }),
    decreases streams.len(),
{
    lemma_movable(streams, t.guards, writers, x);
    if streams.len() > 0 {
        let rest = streams.drop_last();
        let last = streams.last();
        lemma_streams_move_exactly(t, rest, new, writers, x);
        lemma_streams_move_exactly(t, rest, new, writers, last);
        lemma_movable(rest, t.guards, writers, x);
        assert(streams =~= rest.push(last));
        assert(streams.contains(x) <==> rest.contains(x) || x == last) by {
            if rest.contains(x) {
                assert(streams[rest.index_of(x)] == x);
            }
            assert(streams[streams.len() - 1] == last);
        }
    }
}

proof fn lemma_those_in_is_distinct(list: Seq<u64>, ids: Set<u64>)
    requires
        list.no_duplicates(),
    ensures
        those_in(list, ids).no_duplicates(),
    decreases list.len(),
{
    if list.len() > 0 {
        let rest = list.drop_last();
        lemma_those_in_is_distinct(rest, ids);
        lemma_those_in(rest, ids, list.last());
        assert(!rest.contains(list.last()));
    }
}

proof fn lemma_movable_is_distinct(streams: Seq<u64>, guards: Map<u64, u64>, writers: Seq<u64>)
    requires
        streams.no_duplicates(),
    ensures
        movable(streams, guards, writers).no_duplicates(),
    decreases streams.len(),
{
    if streams.len() > 0 {
        let rest = streams.drop_last();
        lemma_movable_is_distinct(rest, guards, writers);
        lemma_movable(rest, guards, writers, streams.last());
        assert(!rest.contains(streams.last()));
    }
}

proof fn lemma_pushed(list: Seq<u64>, last: u64, x: u64)
    ensures
        list.push(last).contains(x) <==> list.contains(x) || x == last,
{
    if list.contains(x) {
        assert(list.push(last)[list.index_of(x)] == x);
    }
    assert(list.push(last)[list.len() as int] == last);
}

/// A session that starts to track a stream nobody tracked tracks it once.
proof fn lemma_following_tracks_once(t: TableModel, session: u64, stream: u64)
    requires
        t.tracked_once(),
        t.has(session),
        t.has_stream(stream),
        stream < t.next,
        t.guards[stream] == session,
        t.untracked(stream),
    ensures
        t.follow(session, stream).tracked_once(),
        forall|x: u64| #[trigger]
            t.untracked(x) && x != stream ==> t.follow(session, stream).untracked(x),
{
    let n = t.follow(session, stream);
    let listed = t.sessions[session].streams;
    let kept = those_in(listed, t.guards.dom());
    lemma_those_in_is_distinct(listed, t.guards.dom());
    lemma_those_in(listed, t.guards.dom(), stream);
    assert(!t.tracks(session, stream));
    assert(kept.push(stream).no_duplicates());
    assert forall|s: u64| #[trigger] n.has(s) implies n.sessions[s].streams.no_duplicates() by {
        assert(t.has(s));
    }
    assert forall|s: u64, x: u64| #[trigger] n.tracks(s, x) implies t.tracks(s, x) || (s == session
        && x == stream) by {
        lemma_pushed(kept, stream, x);
        lemma_those_in(listed, t.guards.dom(), x);
    }
    assert forall|x: u64| #[trigger] t.untracked(x) && x != stream implies n.untracked(x) by {
        assert forall|s: u64| !#[trigger] n.tracks(s, x) by {
            assert(!t.tracks(s, x));
        }
    }
}

proof fn lemma_moving_tracks_once(t: TableModel, stream: u64, new: u64)
    requires
        t.wf(),
        t.tracked_once(),
        t.has(new),
        t.has_stream(stream),
        t.untracked(stream),
    ensures
        t.moved(stream, new).tracked_once(),
        forall|x: u64| #[trigger]
            t.untracked(x) && x != stream ==> t.moved(stream, new).untracked(x),
{
    let gained = t.counted(new).discounted(t.guards[stream]);
    let n = TableModel { guards: t.guards.insert(stream, new), ..gained };
    assert(t.has(t.guards[stream]));
    assert forall|s: u64, x: u64| #[trigger] n.tracks(s, x) <==> t.tracks(s, x) by {
        assert(n.has(s) <==> t.has(s));
    }
    assert forall|s: u64| #[trigger] n.has(s) implies n.sessions[s].streams.no_duplicates() by {
        assert(t.has(s));
    }
    assert forall|s: u64, x: u64| #[trigger] n.tracks(s, x) implies x < n.next && (n.has_stream(x)
        ==> n.guards[x] == s) by {
        assert(t.tracks(s, x));
        assert(!t.tracks(s, stream));
    }
    assert forall|x: u64| #[trigger] t.untracked(x) implies n.untracked(x) by {
        assert forall|s: u64| !#[trigger] n.tracks(s, x) by {
            assert(!t.tracks(s, x));
        }
    }
    assert(n.untracked(stream));
    lemma_following_tracks_once(n, new, stream);
    assert forall|x: u64| #[trigger] t.untracked(x) && x != stream implies t.moved(
        stream,
        new,
    ).untracked(x) by {
        assert(n.untracked(x));
    }
}

/// A stream that has just been opened is tracked by no session.
proof fn lemma_opening_tracks_once(t: TableModel, session: u64)
    requires
        t.wf(),
        t.tracked_once(),
        t.has(session),
        t.next < u64::MAX,
    ensures
        t.opened(session).tracked_once(),
        t.opened(session).untracked(t.next),
{
    let n = t.opened(session);
    assert forall|s: u64| #[trigger] n.has(s) implies n.sessions[s].streams.no_duplicates() by {
        assert(t.has(s));
    }
    assert forall|s: u64, x: u64| #[trigger] n.tracks(s, x) implies t.tracks(s, x) && x < t.next && (
    n.has_stream(x) ==> n.guards[x] == s) by {
        assert(t.has(s));
        assert(t.tracks(s, x));
    }
}

proof fn lemma_closing_tracks_once(t: TableModel, stream: u64)
    requires
        t.wf(),
        t.tracked_once(),
        t.has_stream(stream),
    ensures
        t.closed(stream).tracked_once(),
{
    let n = t.closed(stream);
    assert(t.has(t.guards[stream]));
    assert forall|s: u64| #[trigger] n.has(s) implies n.sessions[s].streams.no_duplicates() by {
        assert(t.has(s));
    }
    assert forall|s: u64, x: u64| #[trigger] n.tracks(s, x) implies x < n.next && (n.has_stream(x)
        ==> n.guards[x] == s) by {
        assert(t.has(s));
        assert(t.tracks(s, x));
        assert(n.has_stream(x) ==> t.has_stream(x));
    }
}

proof fn lemma_installing_tracks_once(
    t: TableModel,
    id: u64,
    addr: SocketAddrPair,
    nonce: PairingNonce,
    now: u64,
)
    requires
        t.wf(),
        t.tracked_once(),
        t.next_session < u64::MAX,
    ensures
        t.installed(id, addr, nonce, now).tracked_once(),
{
    let n = t.installed(id, addr, nonce, now);
    assert forall|s: u64| #[trigger] n.has(s) implies n.sessions[s].streams.no_duplicates() by {
        if s != t.next_session {
            assert(t.has(s));
        }
    }
    assert forall|s: u64, x: u64| #[trigger] n.tracks(s, x) implies x < n.next && (n.has_stream(x)
        ==> n.guards[x] == s) by {
        assert(s != t.next_session);
        assert(t.tracks(s, x));
        assert(n.has_stream(x) ==> t.has_stream(x));
    }
}

proof fn lemma_pruning_tracks_once(t: TableModel, after: TableModel, held: Seq<u64>)
    requires
        t.tracked_once(),
        pruned(t, after, held),
    ensures
        after.tracked_once(),
{
    assert forall|s: u64| #[trigger] after.has(s) implies after.sessions[s].streams.no_duplicates() by {
        assert(t.has(s));
    }
    assert forall|s: u64, x: u64| #[trigger] after.tracks(s, x) implies x < after.next && (
    after.has_stream(x) ==> after.guards[x] == s) by {
        assert(t.tracks(s, x));
        assert(after.has_stream(x) ==> t.has_stream(x));
    }
}

proof fn lemma_draining_untracks(t: TableModel, old_session: u64, new: u64)
    requires
        t.wf(),
        t.tracked_once(),
        t.has(old_session),
        t.has(new),
    ensures
        t.drained(old_session, new).tracked_once(),
        forall|x: u64| #[trigger]
            t.tracks(old_session, x) && t.has_stream(x) ==> t.drained(old_session, new).untracked(x),
{
    let n = t.drained(old_session, new);
    assert forall|s: u64| #[trigger] n.has(s) implies n.sessions[s].streams.no_duplicates() by {
        assert(t.has(s));
    }
    assert forall|s: u64, x: u64| #[trigger] n.tracks(s, x) implies t.tracks(s, x) && s
        != old_session && x < n.next && (n.has_stream(x) ==> n.guards[x] == s) by {
        assert(t.tracks(s, x));
        assert(n.has_stream(x) ==> t.has_stream(x));
    }
    assert forall|x: u64| #[trigger] t.tracks(old_session, x) && t.has_stream(
        x,
    ) implies n.untracked(x) by {
        assert forall|s: u64| !#[trigger] n.tracks(s, x) by {
        }
    }
}

/// Moving streams that nobody tracks, each once, leaves each tracked once and
/// the gauges true.
proof fn lemma_moving_all(t: TableModel, streams: Seq<u64>, new: u64, writers: Seq<u64>)
    requires
        t.wf(),
        t.has(new),
        t.guards.dom().len() < u64::MAX,
        streams.no_duplicates(),
    ensures
        t.all_moved(streams, new, writers).wf(),
        t.all_moved(streams, new, writers).has(new),
        t.all_moved(streams, new, writers).guards.dom() == t.guards.dom(),
        t.tracked_once() && (forall|x: u64| #[trigger]
            streams.contains(x) && t.has_stream(x) ==> t.untracked(x)) ==> {
            &&& t.all_moved(streams, new, writers).tracked_once()
            &&& forall|x: u64| #[trigger]
                t.untracked(x) && !streams.contains(x) ==> t.all_moved(
                    streams,
                    new,
                    writers,
                ).untracked(x)
        },
    decreases streams.len(),
{
    if streams.len() > 0 {
        let rest = streams.drop_last();
        let last = streams.last();
        lemma_moving_all(t, rest, new, writers);
        let before = t.all_moved(rest, new, writers);
        let after = t.all_moved(streams, new, writers);
        assert(streams =~= rest.push(last));
        assert(!rest.contains(last));
        assert forall|x: u64| streams.contains(x) <==> rest.contains(x) || x == last by {
            lemma_pushed(rest, last, x);
        }
        if before.has_stream(last) && writers.contains(last) {
            lemma_moving_keeps_the_gauges(before, last, new);
            assert(after.guards.dom() =~= before.guards.dom());
        }
        if t.tracked_once() && (forall|x: u64| #[trigger]
            streams.contains(x) && t.has_stream(x) ==> t.untracked(x)) {
            assert forall|x: u64| #[trigger] rest.contains(x) && t.has_stream(x) implies t.untracked(
                x,
            ) by {
                assert(streams.contains(x));
            }
            if before.has_stream(last) && writers.contains(last) {
                assert(streams.contains(last));
                assert(t.has_stream(last));
                assert(t.untracked(last));
                assert(before.untracked(last));
                lemma_moving_tracks_once(before, last, new);
            }
            assert forall|x: u64| #[trigger] t.untracked(x) && !streams.contains(
                x,
            ) implies after.untracked(x) by {
                assert(before.untracked(x));
            }
        }
    }
}

proof fn lemma_a_recycle_tracks_once(t: TableModel, old_session: u64, new: u64, writers: Seq<u64>)
    requires
        t.wf(),
        t.tracked_once(),
        t.has(old_session),
        t.has(new),
        t.guards.dom().len() < u64::MAX,
    ensures
        ({
            let after = t.drained(old_session, new).all_moved(
                t.sessions[old_session].streams,
                new,
                writers,
            );
            after.wf() && after.tracked_once()
        }),
{
    let streams = t.sessions[old_session].streams;
    let drained = t.drained(old_session, new);
    lemma_draining_keeps_wf(t, old_session, new);
    lemma_draining_untracks(t, old_session, new);
    assert forall|x: u64| #[trigger] streams.contains(x) && drained.has_stream(
        x,
    ) implies drained.untracked(x) by {
        assert(t.tracks(old_session, x));
        assert(t.has_stream(x));
    }
    lemma_moving_all(drained, streams, new, writers);
}

/// On a recycle the old session's gauge falls, and the new one's grows, by
/// the number of streams that moved; no other gauge changes, and each stream
/// stays tracked once.
pub proof fn lemma_a_recycle_moves_the_gauges(
    t: TableModel,
    old_session: u64,
    new: u64,
    writers: Seq<u64>,
)
    requires
        t.wf(),
        t.tracked_once(),
        t.has(old_session),
        t.has(new),
        old_session != new,
        t.guards.dom().len() < u64::MAX,
    ensures
        ({
            let streams = t.sessions[old_session].streams;
            let after = t.drained(old_session, new).all_moved(streams, new, writers);
            let moved = movable(streams, t.guards, writers).len();
            &&& after.tracked_once()
            &&& forall|s: u64| #[trigger] t.has(s) ==> after.has(s)
            &&& after.sessions[old_session].live == t.sessions[old_session].live - moved
            &&& after.sessions[new].live == t.sessions[new].live + moved
            &&& forall|s: u64| #[trigger]
                t.has(s) && s != old_session && s != new ==> after.sessions[s].live
                    == t.sessions[s].live
        }),
{
    let streams = t.sessions[old_session].streams;
    let drained = t.drained(old_session, new);
    let after = drained.all_moved(streams, new, writers);
    let moved = movable(streams, t.guards, writers);
    lemma_a_recycle_tracks_once(t, old_session, new, writers);
    lemma_movable_is_distinct(streams, t.guards, writers);
    lemma_draining_keeps_wf(t, old_session, new);
    lemma_moves_keep_sessions(drained, streams, new, writers);
    let gone = moved.to_set();
    moved.unique_seq_to_set();
    let from = guarded_by(t.guards, old_session);
    assert forall|x: u64| #[trigger] gone.contains(x) implies from.contains(x) && !guarded_by(
        t.guards,
        new,
    ).contains(x) by {
        lemma_movable(streams, t.guards, writers, x);
        assert(t.tracks(old_session, x));
        assert(t.has_stream(x));
    }
    assert forall|s: u64| #[trigger] t.has(s) implies after.has(s) && guarded_by(after.guards, s)
        =~= if s == old_session {
        from.difference(gone)
    } else if s == new {
        guarded_by(t.guards, new).union(gone)
    } else {
        guarded_by(t.guards, s)
    } by {
        assert(drained.has(s));
        assert forall|x: u64| guarded_by(after.guards, s).contains(x) <==> (if s == old_session {
            from.difference(gone)
        } else if s == new {
            guarded_by(t.guards, new).union(gone)
        } else {
            guarded_by(t.guards, s)
        }).contains(x) by {
            lemma_streams_move_exactly(drained, streams, new, writers, x);
            assert(after.has_stream(x) == t.has_stream(x));
            assert(gone.contains(x) <==> moved.contains(x));
        }
    }
    assert(t.has(old_session) && t.has(new));
    lemma_guard_added(t.guards, 0, 0, old_session);
    lemma_guard_added(t.guards, 0, 0, new);
    vstd::set_lib::lemma_set_disjoint_lens(from.difference(gone), gone);
    assert(from.difference(gone) + gone =~= from);
    vstd::set_lib::lemma_set_disjoint_lens(guarded_by(t.guards, new), gone);
    assert(after.has(old_session) && after.has(new));
    assert forall|s: u64| #[trigger] t.has(s) && s != old_session && s
        != new implies after.sessions[s].live == t.sessions[s].live by {
        assert(after.has(s));
    }
}

/// Moving streams makes and forgets no session.
pub proof fn lemma_moves_keep_sessions(t: TableModel, streams: Seq<u64>, new: u64, writers: Seq<u64>)
    requires
        t.has(new),
        forall|x: u64| #[trigger] t.has_stream(x) ==> t.has(t.guards[x]),
    ensures
        forall|s: u64| #[trigger] t.all_moved(streams, new, writers).has(s) <==> t.has(s),
        forall|x: u64| #[trigger]
            t.all_moved(streams, new, writers).has_stream(x) ==> t.all_moved(
                streams,
                new,
                writers,
            ).has(t.all_moved(streams, new, writers).guards[x]),
    decreases streams.len(),
{
    if streams.len() > 0 {
        lemma_moves_keep_sessions(t, streams.drop_last(), new, writers);
        let before = t.all_moved(streams.drop_last(), new, writers);
        let x = streams.last();
        if before.has_stream(x) && writers.contains(x) {
            let after = before.moved(x, new);
            assert(before.has(new));
            assert(before.has(before.guards[x]));
            assert forall|s: u64| #[trigger] after.has(s) <==> t.has(s) by {
                assert(before.has(s) <==> t.has(s));
            }
            assert forall|y: u64| #[trigger] after.has_stream(y) implies after.has(
                after.guards[y],
            ) by {
                if y != x {
                    assert(before.has_stream(y));
                    assert(before.has(before.guards[y]));
                }
            }
        }
    }
}

// ---------------------------------------------------------------------------
// What opening, moving and forgetting come to
// ---------------------------------------------------------------------------
/// Whether a session is the same one in two states: its names, its addresses
/// and when it was established never change.
pub open spec fn same_session(a: SessionModel, b: SessionModel) -> bool {
    &&& a.id == b.id
    &&& a.addr == b.addr
    &&& a.nonce == b.nonce
    &&& a.connected_at == b.connected_at
}

/// A session that starts to track a stream tracks it from then on, and still
/// tracks every stream that it tracked and that is there; nothing else
/// changes.
pub proof fn lemma_a_followed_stream_is_tracked(t: TableModel, session: u64, stream: u64)
    requires
        t.has(session),
    ensures
        ({
            let after = t.follow(session, stream);
            &&& after.tracks(session, stream)
            &&& after.sessions[session].streams.last() == stream
            &&& forall|x: u64| #[trigger]
                after.tracks(session, x) <==> x == stream || (t.tracks(session, x)
                    && t.has_stream(x))
            &&& after.guards == t.guards
            &&& forall|s: u64| #[trigger] after.has(s) <==> t.has(s)
            &&& forall|s: u64| #[trigger]
                t.has(s) && s != session ==> after.sessions[s] == t.sessions[s]
            &&& after.sessions[session].live == t.sessions[session].live
            &&& after.sessions[session].opened == t.sessions[session].opened
            &&& after.sessions[session].successor == t.sessions[session].successor
            &&& same_session(after.sessions[session], t.sessions[session])
        }),
{
    let after = t.follow(session, stream);
    let listed = t.sessions[session].streams;
    let kept = those_in(listed, t.guards.dom());
    assert forall|x: u64| #[trigger] after.tracks(session, x) <==> x == stream || (t.tracks(
        session,
        x,
    ) && t.has_stream(x)) by {
        lemma_pushed(kept, stream, x);
        lemma_those_in(listed, t.guards.dom(), x);
    }
}

/// A stream that has moved onto a session counts on it, and the session tracks
/// it. No other stream counts elsewhere than before, no other session tracks
/// other streams than before, and the new one still tracks those that are
/// there.
pub proof fn lemma_a_moved_stream_is_tracked(t: TableModel, stream: u64, new: u64)
    requires
        t.has(new),
        t.has_stream(stream),
        t.has(t.guards[stream]),
    ensures
        ({
            let after = t.moved(stream, new);
            &&& after.guards[stream] == new
            &&& after.tracks(new, stream)
            &&& forall|x: u64| #[trigger] after.has_stream(x) <==> t.has_stream(x)
            &&& forall|x: u64| #[trigger]
                t.has_stream(x) && x != stream ==> after.guards[x] == t.guards[x]
            &&& forall|x: u64| #[trigger]
                after.tracks(new, x) <==> x == stream || (t.tracks(new, x) && t.has_stream(x))
            &&& forall|s: u64| #[trigger] after.has(s) <==> t.has(s)
            &&& forall|s: u64| #[trigger]
                t.has(s) ==> same_session(after.sessions[s], t.sessions[s])
                    && after.sessions[s].opened == t.sessions[s].opened
                    && after.sessions[s].successor == t.sessions[s].successor && (s != new
                    ==> after.sessions[s].streams == t.sessions[s].streams)
            &&& after.next == t.next
            &&& after.next_session == t.next_session
        }),
{
    let gained = t.counted(new).discounted(t.guards[stream]);
    let n = TableModel { guards: t.guards.insert(stream, new), ..gained };
    lemma_a_followed_stream_is_tracked(n, new, stream);
    assert forall|x: u64| #[trigger] t.moved(stream, new).tracks(new, x) <==> x == stream || (
    t.tracks(new, x) && t.has_stream(x)) by {
        assert(n.tracks(new, x) <==> t.tracks(new, x));
        assert(n.has_stream(x) <==> t.has_stream(x));
    }
    assert forall|s: u64| #[trigger] t.has(s) implies same_session(
        t.moved(stream, new).sessions[s],
        t.sessions[s],
    ) && t.moved(stream, new).sessions[s].opened == t.sessions[s].opened && t.moved(
        stream,
        new,
    ).sessions[s].successor == t.sessions[s].successor && (s != new ==> t.moved(
        stream,
        new,
    ).sessions[s].streams == t.sessions[s].streams) by {
        assert(n.has(s));
    }
}

/// Every stream of a list that can be moved counts on the new session once
/// they all have moved, and that session tracks it.
pub proof fn lemma_moved_streams_are_tracked(
    t: TableModel,
    streams: Seq<u64>,
    new: u64,
    writers: Seq<u64>,
    x: u64,
)
    requires
        t.has(new),
        forall|y: u64| #[trigger] t.has_stream(y) ==> t.has(t.guards[y]),
        streams.contains(x),
        t.has_stream(x),
        writers.contains(x),
    ensures
        t.all_moved(streams, new, writers).guards[x] == new,
        t.all_moved(streams, new, writers).tracks(new, x),
    decreases streams.len(),
{
    let rest = streams.drop_last();
    let last = streams.last();
    let before = t.all_moved(rest, new, writers);
    lemma_moves_keep_sessions(t, rest, new, writers);
    lemma_streams_move_exactly(t, rest, new, writers, x);
    lemma_streams_move_exactly(t, rest, new, writers, last);
    assert(before.has(new));
    assert(streams =~= rest.push(last));
    lemma_pushed(rest, last, x);
    if rest.contains(x) {
        lemma_moved_streams_are_tracked(t, rest, new, writers, x);
    }
    if before.has_stream(last) && writers.contains(last) {
        assert(before.has(before.guards[last]));
        lemma_a_moved_stream_is_tracked(before, last, new);
    }
}

/// A stream follows its session through every recycle: where its writer can be
/// moved each time, it is among the streams that move when its session is
/// replaced, and again when the session that it moved onto is replaced in its
/// turn.
pub proof fn lemma_streams_follow_every_recycle(
    t: TableModel,
    first: u64,
    second: u64,
    third: u64,
    writers: Seq<u64>,
    later: Seq<u64>,
    x: u64,
)
    requires
        t.wf(),
        t.has(first),
        t.has(second),
        t.has(third),
        t.tracks(first, x),
        t.has_stream(x),
        writers.contains(x),
        later.contains(x),
    ensures
        ({
            let once = t.drained(first, second).all_moved(
                t.sessions[first].streams,
                second,
                writers,
            );
            let twice = once.drained(second, third).all_moved(
                once.sessions[second].streams,
                third,
                later,
            );
            &&& movable(t.sessions[first].streams, t.guards, writers).contains(x)
            &&& once.guards[x] == second
            &&& once.tracks(second, x)
            &&& movable(once.sessions[second].streams, once.guards, later).contains(x)
            &&& twice.guards[x] == third
            &&& twice.tracks(third, x)
        }),
{
    let streams = t.sessions[first].streams;
    let drained = t.drained(first, second);
    let once = drained.all_moved(streams, second, writers);
    lemma_movable(streams, t.guards, writers, x);
    lemma_draining_keeps_wf(t, first, second);
    assert(drained.has_stream(x));
    lemma_moved_streams_are_tracked(drained, streams, second, writers, x);
    lemma_moves_keep_sessions(drained, streams, second, writers);
    lemma_streams_move_exactly(drained, streams, second, writers, x);
    assert(drained.has(third));
    assert(once.has(third));
    assert(once.has(second));
    let again = once.sessions[second].streams;
    let left = once.drained(second, third);
    lemma_movable(again, once.guards, later, x);
    assert forall|y: u64| #[trigger] left.has_stream(y) implies left.has(left.guards[y]) by {
        assert(once.has_stream(y));
        assert(once.has(once.guards[y]));
    }
    assert(left.has_stream(x));
    lemma_moved_streams_are_tracked(left, again, third, later, x);
}

proof fn lemma_moves_leave_sessions_as_they_are(
    t: TableModel,
    streams: Seq<u64>,
    new: u64,
    writers: Seq<u64>,
    s: u64,
)
    requires
        t.has(new),
        t.has(s),
        forall|x: u64| #[trigger] t.has_stream(x) ==> t.has(t.guards[x]),
    ensures
        ({
            let after = t.all_moved(streams, new, writers);
            &&& after.has(s)
            &&& same_session(after.sessions[s], t.sessions[s])
            &&& after.sessions[s].opened == t.sessions[s].opened
            &&& after.sessions[s].successor == t.sessions[s].successor
            &&& s != new ==> after.sessions[s].streams == t.sessions[s].streams
            &&& after.next == t.next
            &&& after.next_session == t.next_session
        }),
    decreases streams.len(),
{
    if streams.len() > 0 {
        let rest = streams.drop_last();
        lemma_moves_leave_sessions_as_they_are(t, rest, new, writers, s);
        lemma_moves_keep_sessions(t, rest, new, writers);
        let before = t.all_moved(rest, new, writers);
        let x = streams.last();
        if before.has_stream(x) && writers.contains(x) {
            assert(before.has(new));
            assert(before.has(before.guards[x]));
            lemma_a_moved_stream_is_tracked(before, x, new);
        }
    }
}

/// A recycle names the new session as the old one's successor and leaves the
/// old one without streams to track. It changes no session's names and
/// addresses, counts no stream as opened, changes no other successor, and
/// changes what a third session tracks in nothing.
pub proof fn lemma_a_recycle_names_the_successor(
    t: TableModel,
    old_session: u64,
    new: u64,
    writers: Seq<u64>,
    s: u64,
)
    requires
        t.wf(),
        t.has(old_session),
        t.has(new),
        t.has(s),
        old_session != new,
    ensures
        ({
            let after = t.drained(old_session, new).all_moved(
                t.sessions[old_session].streams,
                new,
                writers,
            );
            &&& after.sessions[old_session].successor == Some(new)
            &&& after.sessions[old_session].streams == Seq::<u64>::empty()
            &&& same_session(after.sessions[s], t.sessions[s])
            &&& after.sessions[s].opened == t.sessions[s].opened
            &&& s != old_session ==> after.sessions[s].successor == t.sessions[s].successor
            &&& s != old_session && s != new ==> after.sessions[s].streams
                == t.sessions[s].streams
            &&& after.next == t.next
            &&& after.next_session == t.next_session
        }),
{
    let drained = t.drained(old_session, new);
    lemma_draining_keeps_wf(t, old_session, new);
    let streams = t.sessions[old_session].streams;
    lemma_moves_leave_sessions_as_they_are(drained, streams, new, writers, old_session);
    lemma_moves_leave_sessions_as_they_are(drained, streams, new, writers, s);
}

/// A new session has a number of its own, the names, addresses and time that
/// it was established with, and no stream; every other session and every
/// stream is as it was.
pub proof fn lemma_a_new_session_starts_empty(
    t: TableModel,
    id: u64,
    addr: SocketAddrPair,
    nonce: PairingNonce,
    now: u64,
)
    requires
        t.wf(),
        t.next_session < u64::MAX,
    ensures
        ({
            let after = t.installed(id, addr, nonce, now);
            let s = t.next_session;
            &&& !t.has(s)
            &&& after.has(s)
            &&& after.sessions[s].id == id
            &&& after.sessions[s].addr == addr
            &&& after.sessions[s].nonce == nonce
            &&& after.sessions[s].connected_at == now
            &&& after.sessions[s].live == 0
            &&& after.sessions[s].opened == 0
            &&& after.sessions[s].successor is None
            &&& forall|x: u64| !#[trigger] after.tracks(s, x)
            &&& forall|other: u64| #[trigger]
                t.has(other) ==> after.has(other) && after.sessions[other] == t.sessions[other]
            &&& forall|other: u64| #[trigger] after.has(other) ==> t.has(other) || other == s
            &&& after.guards == t.guards
            &&& after.next == t.next
            &&& after.next_session > s
        }),
{
}

/// A stream that is opened has a number that no stream has, and counts on its
/// session, once as live and once as opened; the count of opened streams wraps.
/// No other session and no other stream is touched.
pub proof fn lemma_opening_touches_one_session(t: TableModel, session: u64)
    requires
        t.wf(),
        t.has(session),
        t.next < u64::MAX,
        t.guards.dom().len() < u64::MAX,
    ensures
        ({
            let after = t.opened(session);
            let stream = t.next;
            &&& !t.has_stream(stream)
            &&& after.has_stream(stream)
            &&& after.guards[stream] == session
            &&& after.next > stream
            &&& forall|x: u64| #[trigger]
                t.has_stream(x) ==> after.has_stream(x) && after.guards[x] == t.guards[x]
            &&& forall|x: u64| #[trigger] after.has_stream(x) ==> t.has_stream(x) || x == stream
            &&& after.sessions[session].live == t.sessions[session].live + 1
            &&& after.sessions[session].opened == (t.sessions[session].opened + 1) % (u64::MAX + 1)
            &&& same_session(after.sessions[session], t.sessions[session])
            &&& after.sessions[session].streams == t.sessions[session].streams
            &&& after.sessions[session].successor == t.sessions[session].successor
            &&& forall|s: u64| #[trigger] after.has(s) <==> t.has(s)
            &&& forall|s: u64| #[trigger]
                t.has(s) && s != session ==> after.sessions[s] == t.sessions[s]
            &&& after.next_session == t.next_session
        }),
{
    assert(!t.has_stream(t.next));
    lemma_guard_added(t.guards, t.next, session, session);
}

/// Closing a stream undoes its opening: nothing is left of it but that its
/// number is used up and that its session has opened one stream more.
pub proof fn lemma_closing_undoes_opening(t: TableModel, session: u64)
    requires
        t.wf(),
        t.has(session),
        t.next < u64::MAX,
        t.guards.dom().len() < u64::MAX,
    ensures
        ({
            let after = t.opened(session).closed(t.next);
            &&& after.guards == t.guards
            &&& after.next == t.next + 1
            &&& after.next_session == t.next_session
            &&& after.sessions == t.sessions.insert(
                session,
                SessionModel {
                    opened: after.sessions[session].opened,
                    ..t.sessions[session]
                },
            )
        }),
{
    lemma_opening_touches_one_session(t, session);
    let after = t.opened(session).closed(t.next);
    assert(after.guards =~= t.guards);
    assert(after.sessions =~= t.sessions.insert(
        session,
        SessionModel { opened: after.sessions[session].opened, ..t.sessions[session] },
    ));
}

/// A stream that is closed counts nowhere; its session has one live stream
/// less. No other session and no other stream is touched.
pub proof fn lemma_closing_touches_one_session(t: TableModel, stream: u64)
    requires
        t.wf(),
        t.has_stream(stream),
    ensures
        ({
            let after = t.closed(stream);
            let session = t.guards[stream];
            &&& !after.has_stream(stream)
            &&& forall|x: u64| #[trigger]
                after.has_stream(x) <==> t.has_stream(x) && x != stream
            &&& forall|x: u64| #[trigger] after.has_stream(x) ==> after.guards[x] == t.guards[x]
            &&& after.sessions[session].live + 1 == t.sessions[session].live
            &&& after.sessions[session].opened == t.sessions[session].opened
            &&& same_session(after.sessions[session], t.sessions[session])
            &&& after.sessions[session].streams == t.sessions[session].streams
            &&& after.sessions[session].successor == t.sessions[session].successor
            &&& forall|s: u64| #[trigger] after.has(s) <==> t.has(s)
            &&& forall|s: u64| #[trigger]
                t.has(s) && s != session ==> after.sessions[s] == t.sessions[s]
            &&& after.next == t.next
            &&& after.next_session == t.next_session
        }),
{
    let session = t.guards[stream];
    assert(t.has(session));
    lemma_guard_added(t.guards, stream, session, session);
    assert forall|s: u64| #[trigger] t.closed(stream).has(s) <==> t.has(s) by {
    }
}

/// What is kept of a list stands in the order of the list, and how the list is
/// cut does not matter.
pub proof fn lemma_those_in_keep_their_order(a: Seq<u64>, b: Seq<u64>, x: u64, ids: Set<u64>)
    ensures
        those_in(a + b, ids) == those_in(a, ids) + those_in(b, ids),
        those_in(seq![x], ids) == if ids.contains(x) {
            seq![x]
        } else {
            Seq::empty()
        },
    decreases b.len(),
{
    assert(seq![x].drop_last() =~= Seq::<u64>::empty());
    assert(those_in(seq![x].drop_last(), ids) =~= Seq::<u64>::empty());
    assert(those_in(seq![x], ids) =~= if ids.contains(x) {
        seq![x]
    } else {
        Seq::empty()
    });
    if b.len() == 0 {
        assert(a + b =~= a);
        assert(those_in(a + b, ids) =~= those_in(a, ids) + those_in(b, ids));
    } else {
        lemma_those_in_keep_their_order(a, b.drop_last(), x, ids);
        assert((a + b).drop_last() =~= a + b.drop_last());
        assert(those_in(a + b, ids) =~= those_in(a, ids) + those_in(b, ids));
    }
}

/// The streams that move do so in the order in which they were tracked, and
/// each moves or stays on its own account.
pub proof fn lemma_movable_keep_their_order(
    a: Seq<u64>,
    b: Seq<u64>,
    x: u64,
    guards: Map<u64, u64>,
    writers: Seq<u64>,
)
    ensures
        movable(a + b, guards, writers) == movable(a, guards, writers) + movable(
            b,
            guards,
            writers,
        ),
        movable(seq![x], guards, writers) == if guards.dom().contains(x) && writers.contains(x) {
            seq![x]
        } else {
            Seq::empty()
        },
    decreases b.len(),
{
    assert(seq![x].drop_last() =~= Seq::<u64>::empty());
    assert(movable(seq![x].drop_last(), guards, writers) =~= Seq::<u64>::empty());
    assert(movable(seq![x], guards, writers) =~= if guards.dom().contains(x) && writers.contains(
        x,
    ) {
        seq![x]
    } else {
        Seq::empty()
    });
    if b.len() == 0 {
        assert(a + b =~= a);
        assert(movable(a + b, guards, writers) =~= movable(a, guards, writers) + movable(
            b,
            guards,
            writers,
        ));
    } else {
        lemma_movable_keep_their_order(a, b.drop_last(), x, guards, writers);
        assert((a + b).drop_last() =~= a + b.drop_last());
        assert(movable(a + b, guards, writers) =~= movable(a, guards, writers) + movable(
            b,
            guards,
            writers,
        ));
    }
}

/// Whether the sessions of a list follow one another, each named as its
/// successor by the one before it.
pub open spec fn is_chain(t: TableModel, chain: Seq<u64>) -> bool {
    &&& chain.len() > 0
    &&& forall|i: int, j: int|
        #![trigger chain[i], chain[j]]
        0 <= i && j == i + 1 && j < chain.len() ==> t.sessions[chain[i]].successor == Some(chain[j])
}

/// Whether no session of a list lives that stands behind that place.
pub open spec fn none_lives_behind(chain: Seq<u64>, i: int, alive: Seq<u64>) -> bool {
    forall|j: int| i < j < chain.len() ==> !alive.contains(#[trigger] chain[j])
}

proof fn lemma_newest_live_in_chain(
    t: TableModel,
    chain: Seq<u64>,
    newest: u64,
    hops: nat,
    alive: Seq<u64>,
) -> (i: int)
    requires
        is_chain(t, chain),
        chain.len() == hops + 1 || (chain.len() <= hops && t.sessions[chain.last()].successor
            is None),
    ensures
        0 <= i < chain.len(),
        i > 0 ==> alive.contains(chain[i]),
        none_lives_behind(chain, i, alive),
        t.newest_live(chain[0], newest, hops, alive) == if i == 0 {
            newest
        } else {
            chain[i]
        },
    decreases hops,
{
    if chain.len() > 1 {
        let rest = chain.drop_first();
        assert forall|i: int, j: int|
            #![trigger rest[i], rest[j]]
            0 <= i && j == i + 1 && j < rest.len() implies t.sessions[rest[i]].successor == Some(
            rest[j],
        ) by {
            assert(chain[i + 1] == rest[i]);
            assert(chain[j + 1] == rest[j]);
        }
        let next = chain[1];
        assert(t.sessions[chain[0]].successor == Some(next));
        assert(rest[0] == next);
        assert(rest.last() == chain.last());
        let best = if alive.contains(next) {
            next
        } else {
            newest
        };
        let k = lemma_newest_live_in_chain(t, rest, best, (hops - 1) as nat, alive);
        assert(t.newest_live(chain[0], newest, hops, alive) == t.newest_live(
            next,
            best,
            (hops - 1) as nat,
            alive,
        ));
        assert forall|j: int| k + 1 < j < chain.len() implies !alive.contains(
            #[trigger] chain[j],
        ) by {
            assert(rest[j - 1] == chain[j]);
        }
        if k > 0 || alive.contains(next) {
            k + 1
        } else {
            0
        }
    } else {
        0
    }
}

/// A stream that registers late ends up on the last live session of the chain
/// of successors, as far as the chain is followed: none that comes after it
/// lives. Where no successor lives, it stays on its own session.
pub proof fn lemma_the_latest_is_the_last_that_lives(
    t: TableModel,
    chain: Seq<u64>,
    alive: Seq<u64>,
) -> (i: int)
    requires
        is_chain(t, chain),
        chain.len() == 9 || (chain.len() <= 8
            && t.sessions[chain.last()].successor is None),
    ensures
        0 <= i < chain.len(),
        t.latest(chain[0], alive) == chain[i],
        i == 0 || alive.contains(chain[i]),
        forall|j: int| i < j < chain.len() ==> !alive.contains(#[trigger] chain[j]),
{
    lemma_newest_live_in_chain(t, chain, chain[0], MAX_SUCCESSOR_HOPS as nat, alive)
}

/// Pruning forgets a session that nobody holds, that no stream counts on and
/// that succeeds no other; it keeps one that somebody holds, that a stream
/// counts on or that succeeds one that is kept, and keeps it as it was. It
/// touches no stream.
pub proof fn lemma_pruning_is_exact(before: TableModel, after: TableModel, held: Seq<u64>, id: u64)
    requires
        before.wf(),
        after.wf(),
        pruned(before, after, held),
        before.has(id),
    ensures
        held.contains(id) ==> after.has(id),
        before.sessions[id].live > 0 ==> after.has(id),
        forall|p: u64| #[trigger]
            after.has(p) && before.sessions[p].successor == Some(id) ==> after.has(id),
        forall|x: u64| #[trigger] before.has_stream(x) && before.guards[x] == id ==> after.has(id),
        !held.contains(id) && before.sessions[id].live == 0 && (forall|p: u64| #[trigger]
            before.has(p) ==> before.sessions[p].successor != Some(id)) ==> !after.has(id),
        after.has(id) ==> after.sessions[id] == before.sessions[id],
        forall|s: u64| #[trigger] after.has(s) ==> before.has(s),
        forall|x: u64| #[trigger] after.has_stream(x) <==> before.has_stream(x),
        forall|x: u64| #[trigger] before.has_stream(x) ==> after.guards[x] == before.guards[x],
        after.next == before.next,
        after.next_session == before.next_session,
{
    assert forall|p: u64| #[trigger] after.has(p) && before.sessions[p].successor == Some(
        id,
    ) implies after.has(id) by {
        assert(after.sessions[p] == before.sessions[p]);
    }
    assert forall|x: u64| #[trigger] before.has_stream(x) && before.guards[x]
        == id implies after.has(id) by {
        assert(after.has_stream(x));
    }
    if !held.contains(id) && before.sessions[id].live == 0 && (forall|p: u64| #[trigger]
        before.has(p) ==> before.sessions[p].successor != Some(id)) && after.has(id) {
        assert(needed(after, id, held));
        let p = choose|p: u64| #[trigger] after.has(p) && after.sessions[p].successor == Some(id);
        assert(before.has(p));
    }
}

/// What is known of a session is all that there is of it.
pub proof fn lemma_a_session_is_known_whole(sessions: Map<u64, Session>, s: u64)
    ensures
        models(sessions).dom().contains(s) <==> sessions.dom().contains(s),
        sessions.dom().contains(s) ==> {
            let model = models(sessions)[s];
            let session = sessions[s];
            &&& model.id == session.id
            &&& model.addr == session.addr
            &&& model.nonce == session.nonce
            &&& model.connected_at == session.connected_at
            &&& model.opened == session.opened_streams
            &&& model.live == session.live_streams
            &&& model.streams == session.streams@
            &&& model.successor == session.successor
        },
{
}

} // verus!
