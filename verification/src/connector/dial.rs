//! Dials: which addresses are being dialed, who waits for them, how often a
//! dial is tried and what a dial's failure says.

use vstd::prelude::*;

use crate::addr::SocketAddr;
use crate::assoc::AssocMap;
use crate::error::{outcome, ErrorKind, ErrorView, IoError};
use crate::lane::LaneClass;
use crate::retain::{retain_alive, retained};
use crate::shared::{
    BIRTH_LIVENESS_DEADLINE, BIRTH_LIVENESS_GRACE, MAX_CONCURRENT_DUAL_DIALS,
    MAX_DIAL_WAITERS_PER_ADDR, MAX_DUAL_CONNECT_ATTEMPTS, NANOS_PER_MILLI,
};
use crate::text::{decimal, owned, push_decimal};

verus! {

/// A request for a stream; `R` is where the answer goes.
#[derive(Debug)]
pub struct StreamRequest<R> {
    pub lane: LaneClass,
    pub response: R,
}

/// What a dial book holds.
#[verifier::ext_equal]
pub struct BookModel<R> {
    pub in_flight: Set<SocketAddr>,
    pub waiters: Map<SocketAddr, Seq<StreamRequest<R>>>,
}

/// The addresses that are being dialed, and the requests that wait for them.
pub struct DialBook<R> {
    in_flight: AssocMap<SocketAddr, ()>,
    waiters: AssocMap<SocketAddr, Vec<StreamRequest<R>>>,
}

/// The lists of a table as sequences.
pub open spec fn lists<R>(waiters: Map<SocketAddr, Vec<StreamRequest<R>>>) -> Map<
    SocketAddr,
    Seq<StreamRequest<R>>,
> {
    Map::new(|a: SocketAddr| waiters.dom().contains(a), |a: SocketAddr| waiters[a]@)
}

impl<R> View for DialBook<R> {
    type V = BookModel<R>;

    closed spec fn view(&self) -> BookModel<R> {
        BookModel { in_flight: self.in_flight@.dom(), waiters: lists(self.waiters@) }
    }
}

impl<R> BookModel<R> {
    /// The limits hold, and requests wait only for addresses that are being
    /// dialed.
    pub open spec fn wf(self) -> bool {
        &&& self.in_flight.finite()
        &&& self.in_flight.len() <= MAX_CONCURRENT_DUAL_DIALS
        &&& forall|a: SocketAddr| #[trigger]
            self.waiters.dom().contains(a) ==> self.in_flight.contains(a) && self.waiters[a].len()
                <= MAX_DIAL_WAITERS_PER_ADDR
    }

    /// The requests that wait for an address.
    pub open spec fn waiting(self, addr: SocketAddr) -> Seq<StreamRequest<R>> {
        if self.waiters.dom().contains(addr) {
            self.waiters[addr]
        } else {
            Seq::empty()
        }
    }

    /// The requests for an address whose answer nobody awaits any more have
    /// been dropped.
    pub open spec fn swept(self, addr: SocketAddr, open: Seq<bool>) -> BookModel<R> {
        if self.waiters.dom().contains(addr) {
            BookModel {
                waiters: self.waiters.insert(addr, retained(self.waiters[addr], open)),
                ..self
            }
        } else {
            self
        }
    }

    /// Why no further request for the address can wait.
    pub open spec fn refusal(self, addr: SocketAddr, addr_text: Seq<char>) -> Option<ErrorView> {
        if self.waiting(addr).len() >= MAX_DIAL_WAITERS_PER_ADDR {
            Some(
                ErrorView {
                    kind: ErrorKind::WouldBlock,
                    message: "too many dial waiters for "@ + addr_text + " (max 256)"@,
                },
            )
        } else if !self.in_flight.contains(addr) && self.in_flight.len()
            >= MAX_CONCURRENT_DUAL_DIALS {
            Some(
                ErrorView {
                    kind: ErrorKind::WouldBlock,
                    message: "too many concurrent dual dials"@,
                },
            )
        } else {
            None
        }
    }

    /// The request waits for the address, which is dialed.
    pub open spec fn queued(self, addr: SocketAddr, request: StreamRequest<R>) -> BookModel<R> {
        BookModel {
            in_flight: self.in_flight.insert(addr),
            waiters: self.waiters.insert(addr, self.waiting(addr).push(request)),
        }
    }

    /// The address is dialed.
    pub open spec fn dialing(self, addr: SocketAddr) -> BookModel<R> {
        BookModel { in_flight: self.in_flight.insert(addr), ..self }
    }

    /// The dial of the address is over, and nobody waits for it any more.
    pub open spec fn settled(self, addr: SocketAddr) -> BookModel<R> {
        BookModel {
            in_flight: self.in_flight.remove(addr),
            waiters: self.waiters.remove(addr),
        }
    }
}

/// What becomes of a request for a stream.
#[derive(Debug)]
pub enum Queueing<R> {
    /// It is refused.
    Refused { response: R, error: IoError },
    /// It waits; `dial` says that its address is to be dialed.
    Waiting { dial: bool },
}

impl<R> DialBook<R> {
    pub fn new() -> (r: Self)
        ensures
            r@ == (BookModel::<R> { in_flight: Set::empty(), waiters: Map::empty() }),
            r@.wf(),
    {
        let r = DialBook { in_flight: AssocMap::new(), waiters: AssocMap::new() };
        proof {
            assert(r@.in_flight =~= Set::<SocketAddr>::empty());
            assert(r@.waiters =~= Map::<SocketAddr, Seq<StreamRequest<R>>>::empty());
        }
        r
    }

    pub fn is_in_flight(&self, addr: SocketAddr) -> (r: bool)
        ensures
            r == self@.in_flight.contains(addr),
    {
        self.in_flight.contains_key(&addr)
    }

    /// How many dials are pending.
    pub fn pending_dials(&self) -> (r: usize)
        ensures
            r == self@.in_flight.len(),
            self@.in_flight.finite(),
    {
        self.in_flight.len()
    }

    /// The requests that wait for an address, in their order.
    pub fn waiters(&self, addr: SocketAddr) -> (r: Option<&Vec<StreamRequest<R>>>)
        ensures
            match r {
                Some(list) => self@.waiters.dom().contains(addr) && list@ == self@.waiters[addr],
                None => !self@.waiters.dom().contains(addr),
            },
    {
        self.waiters.get(&addr)
    }

    /// Counts the requests that wait for an address once those whose answer
    /// nobody awaits have been dropped; `open` tells which those are not. An
    /// address that nobody waits for is not remembered.
    pub fn live_dial_waiters(&mut self, addr: SocketAddr, open: &Vec<bool>) -> (r: usize)
        requires
            open@.len() == old(self)@.waiting(addr).len(),
        ensures
            final(self)@ == old(self)@.swept(addr, open@),
            r == final(self)@.waiting(addr).len(),
            old(self)@.wf() ==> final(self)@.wf(),
    {
        let ghost before = self.waiters@;
        let ghost start = self@;
        match self.waiters.remove(&addr) {
            Some(mut list) => {
                retain_alive(&mut list, open);
                let count: usize = list.len();
                let ghost kept = list@;
                self.waiters.insert(addr, list);
                proof {
                    assert(lists(self.waiters@) =~= lists(before).insert(addr, kept));
                    assert forall|a: SocketAddr| #[trigger]
                        self@.waiters.dom().contains(a) implies start.waiters.dom().contains(a) by {
                    }
                }
                count
            },
            None => {
                proof {
                    assert(self.waiters@ =~= before);
                }
                0
            },
        }
    }

    /// Takes in a request for a stream to an address without a session.
    /// `open` tells which of the requests that wait already are still awaited.
    pub fn queue(
        &mut self,
        addr: SocketAddr,
        request: StreamRequest<R>,
        open: &Vec<bool>,
        addr_text: &str,
    ) -> (r: Queueing<R>)
        requires
            open@.len() == old(self)@.waiting(addr).len(),
        ensures
            ({
                let swept = old(self)@.swept(addr, open@);
                match swept.refusal(addr, addr_text@) {
                    Some(error) => {
                        &&& r is Refused
                        &&& r->response == request.response
                        &&& r->error@ == error
                        &&& final(self)@ == swept
                    },
                    None => {
                        &&& r == (Queueing::<R>::Waiting { dial: !swept.in_flight.contains(addr) })
                        &&& final(self)@ == swept.queued(addr, request)
                    },
                }
            }),
            ({
                let kept = retained(old(self)@.waiting(addr), open@);
                match r {
                    Queueing::Waiting { .. } => {
                        &&& final(self)@.waiting(addr) == kept.push(request)
                        &&& final(self)@.in_flight.contains(addr)
                    },
                    Queueing::Refused { response, .. } => {
                        &&& final(self)@.waiting(addr) == kept
                        &&& response == request.response
                        &&& final(self)@.in_flight == old(self)@.in_flight
                    },
                }
            }),
            forall|a: SocketAddr|
                a != addr ==> #[trigger] final(self)@.waiting(a) == old(self)@.waiting(a),
            old(self)@.wf() ==> final(self)@.wf(),
    {
        let waiting: usize = self.live_dial_waiters(addr, open);
        let ghost swept = self@;
        proof {
            lemma_sweeping_drops_the_abandoned(old(self)@, addr, open@);
        }
        if waiting >= MAX_DIAL_WAITERS_PER_ADDR {
            let mut message = owned("too many dial waiters for ");
            message.append(addr_text);
            message.append(" (max 256)");
            return Queueing::Refused {
                response: request.response,
                error: IoError { kind: ErrorKind::WouldBlock, message },
            };
        }
        let is_in_flight = self.is_in_flight(addr);
        if !is_in_flight && self.pending_dials() >= MAX_CONCURRENT_DUAL_DIALS {
            return Queueing::Refused {
                response: request.response,
                error: IoError::new(ErrorKind::WouldBlock, "too many concurrent dual dials"),
            };
        }
        let ghost before = self.waiters@;
        let mut list: Vec<StreamRequest<R>> = match self.waiters.remove(&addr) {
            Some(list) => list,
            None => Vec::new(),
        };
        proof {
            assert(list@ =~= swept.waiting(addr));
        }
        list.push(request);
        let ghost longer = list@;
        self.waiters.insert(addr, list);
        self.in_flight.insert(addr, ());
        proof {
            assert(lists(self.waiters@) =~= lists(before).insert(addr, longer));
            assert(self@ =~= swept.queued(addr, request));
            lemma_a_request_waits_as_it_was_made(swept, addr, request);
            if swept.wf() {
                lemma_queueing_keeps_wf(swept, addr, request, addr_text@);
            }
        }
        Queueing::Waiting { dial: !is_in_flight }
    }

    /// Starts a dial for nobody in particular.
    pub fn start(&mut self, addr: SocketAddr)
        requires
            !old(self)@.in_flight.contains(addr),
            old(self)@.in_flight.len() < MAX_CONCURRENT_DUAL_DIALS,
        ensures
            final(self)@ == old(self)@.dialing(addr),
            old(self)@.wf() ==> final(self)@.wf(),
    {
        let ghost before = self@;
        self.in_flight.insert(addr, ());
        proof {
            assert(self@ =~= before.dialing(addr));
        }
    }

    /// Ends a dial; the requests that waited for it are handed out.
    pub fn settle(&mut self, addr: SocketAddr) -> (r: Vec<StreamRequest<R>>)
        ensures
            final(self)@ == old(self)@.settled(addr),
            r@ == old(self)@.waiting(addr),
            !final(self)@.in_flight.contains(addr),
            final(self)@.waiting(addr).len() == 0,
            forall|a: SocketAddr|
                a != addr ==> #[trigger] final(self)@.waiting(a) == old(self)@.waiting(a),
            old(self)@.wf() ==> final(self)@.wf(),
    {
        let ghost start = self@;
        let ghost before = self.waiters@;
        self.in_flight.remove(&addr);
        let taken = self.waiters.remove(&addr);
        proof {
            assert(lists(self.waiters@) =~= lists(before).remove(addr));
            assert(self@ =~= start.settled(addr));
            if start.wf() {
                assert(start.in_flight.remove(addr).len() <= start.in_flight.len());
                assert forall|a: SocketAddr| #[trigger]
                    self@.waiters.dom().contains(a) implies self@.in_flight.contains(a)
                    && self@.waiters[a].len() <= MAX_DIAL_WAITERS_PER_ADDR by {
                    assert(start.waiters.dom().contains(a));
                }
            }
        }
        match taken {
            Some(list) => list,
            None => {
                let none: Vec<StreamRequest<R>> = Vec::new();
                proof {
                    assert(none@ =~= start.waiting(addr));
                }
                none
            },
        }
    }

    /// Ends all dials; every request that waited is handed out.
    pub fn reset(&mut self) -> (r: Vec<StreamRequest<R>>)
        ensures
            final(self)@ == (BookModel::<R> { in_flight: Set::empty(), waiters: Map::empty() }),
            exists|order: Seq<SocketAddr>|
                order.no_duplicates() && (forall|a: SocketAddr|
                    old(self)@.waiters.dom().contains(a) <==> order.contains(a)) && r@
                    == #[trigger] all_waiting(order, old(self)@.waiters),
            final(self)@.wf(),
    {
        let ghost start = self@;
        let mut waiters: AssocMap<SocketAddr, Vec<StreamRequest<R>>> = AssocMap::new();
        std::mem::swap(&mut waiters, &mut self.waiters);
        self.in_flight = AssocMap::new();
        let ghost table = waiters@;
        let mut left: usize = waiters.len();
        let ghost order = waiters.order();
        let mut r: Vec<StreamRequest<R>> = Vec::new();
        let ghost total = left;
        proof {
            assert(order.take(0) =~= Seq::<SocketAddr>::empty());
            assert(waiters.order() =~= order.skip(0));
        }
        while left > 0
            invariant
                left <= total,
                total == order.len(),
                order.no_duplicates(),
                waiters.order() == order.skip(total - left),
                start.waiters == lists(table),
                forall|a: SocketAddr| #[trigger]
                    waiters@.dom().contains(a) ==> table.dom().contains(a) && waiters@[a]
                        == table[a],
                r@ == all_waiting(order.take(total - left), start.waiters),
            decreases left,
        {
            let ghost k = (total - left) as int;
            let addr = waiters.key_at(0);
            proof {
                assert(addr == order[k]);
                assert(order.take(k + 1).drop_last() =~= order.take(k));
                assert(order.skip(k).no_duplicates());
                crate::assoc::lemma_without_at(order.skip(k), 0);
                assert(order.skip(k).remove(0) =~= order.skip(k + 1));
                assert(table.dom().contains(addr));
            }
            if let Some(mut list) = waiters.remove(&addr) {
                r.append(&mut list);
            }
            left -= 1;
        }
        proof {
            assert(order.take(total as int) =~= order);
            assert(self@.in_flight =~= Set::<SocketAddr>::empty());
            assert(self@.waiters =~= Map::<SocketAddr, Seq<StreamRequest<R>>>::empty());
            assert forall|a: SocketAddr|
                start.waiters.dom().contains(a) <==> order.contains(a) by {
                assert(table.dom().contains(a) <==> crate::assoc::holds(order, a));
                assert(crate::assoc::holds(order, a) <==> order.contains(a));
            }
        }
        r
    }
}

/// The requests that wait for a list of addresses, one address after the
/// other.
pub open spec fn all_waiting<R>(
    order: Seq<SocketAddr>,
    waiters: Map<SocketAddr, Seq<StreamRequest<R>>>,
) -> Seq<StreamRequest<R>>
    decreases order.len(),
{
    if order.len() == 0 {
        Seq::empty()
    } else {
        all_waiting(order.drop_last(), waiters) + waiters[order.last()]
    }
}

/// A request that is not refused keeps the limits.
pub proof fn lemma_queueing_keeps_wf<R>(
    book: BookModel<R>,
    addr: SocketAddr,
    request: StreamRequest<R>,
    addr_text: Seq<char>,
)
    requires
        book.wf(),
        book.refusal(addr, addr_text) is None,
    ensures
        book.queued(addr, request).wf(),
{
    let n = book.queued(addr, request);
    assert forall|a: SocketAddr| #[trigger] n.waiters.dom().contains(a) implies n.in_flight.contains(
        a,
    ) && n.waiters[a].len() <= MAX_DIAL_WAITERS_PER_ADDR by {
        if a != addr {
            assert(book.waiters.dom().contains(a));
        }
    }
}

/// A refused request leaves nothing behind for an address that nobody waits
/// for.
pub proof fn lemma_refusal_leaves_no_entry<R>(
    book: BookModel<R>,
    addr: SocketAddr,
    open: Seq<bool>,
)
    requires
        !book.waiters.dom().contains(addr),
    ensures
        book.swept(addr, open) == book,
{
}

// ---------------------------------------------------------------------------
// Trying again
// ---------------------------------------------------------------------------
/// How much longer each pause between two attempts is than the one before.
pub const RETRY_PAUSE: u64 = 25_000_000;

/// What one failed attempt leaves in the final error.
pub open spec fn failure_text(attempt: nat, elapsed: u64, message: Seq<char>) -> Seq<char> {
    "attempt="@ + decimal(attempt) + ", elapsed_ms="@ + decimal((elapsed / NANOS_PER_MILLI) as nat)
        + ", error="@ + message
}

/// The texts, with a separator between any two.
pub open spec fn joined(texts: Seq<Seq<char>>, separator: Seq<char>) -> Seq<char>
    decreases texts.len(),
{
    if texts.len() == 0 {
        Seq::empty()
    } else if texts.len() == 1 {
        texts[0]
    } else {
        joined(texts.drop_last(), separator) + separator + texts.last()
    }
}

/// The error of a dial whose attempts have all failed.
pub open spec fn birth_failure(
    kind: ErrorKind,
    failures: Seq<Seq<char>>,
    elapsed: u64,
) -> ErrorView {
    ErrorView {
        kind,
        message: "RTP mux dual-lane birth failed after "@ + decimal(failures.len())
            + " attempts in "@ + decimal((elapsed / NANOS_PER_MILLI) as nat) + " ms: "@ + joined(
            failures,
            "; "@,
        ),
    }
}

/// The attempts of one dial.
#[derive(Debug)]
pub struct DualConnect {
    attempt: usize,
    failures: Vec<String>,
}

/// What follows a failed attempt.
#[derive(Debug)]
pub enum RetryStep {
    /// Another attempt, after a pause.
    Retry { pause: u64 },
    GiveUp(IoError),
}

/// The texts of a list of strings.
pub open spec fn texts(list: Seq<String>) -> Seq<Seq<char>> {
    Seq::new(list.len(), |i: int| list[i]@)
}

impl DualConnect {
    /// The number of the attempt that is being made, from one.
    pub closed spec fn attempt(&self) -> nat {
        self.attempt as nat
    }

    /// What the failed attempts left.
    pub closed spec fn failures(&self) -> Seq<Seq<char>> {
        texts(self.failures@)
    }

    pub open spec fn wf(&self) -> bool {
        1 <= self.attempt() <= MAX_DUAL_CONNECT_ATTEMPTS && self.failures().len() + 1
            == self.attempt()
    }

    pub fn new() -> (r: Self)
        ensures
            r.attempt() == 1,
            r.failures() == Seq::<Seq<char>>::empty(),
            r.wf(),
    {
        let r = DualConnect { attempt: 1, failures: Vec::new() };
        proof {
            assert(r.failures() =~= Seq::<Seq<char>>::empty());
        }
        r
    }

    /// Whether this attempt takes over the socket that was found by probing;
    /// only the first one does.
    pub fn inherits_socket(&self) -> (r: bool)
        ensures
            r == (self.attempt() == 1),
    {
        self.attempt == 1
    }

    /// An attempt has failed. The last one's kind is that of the dial.
    pub fn failed(&mut self, error: &IoError, attempt_elapsed: u64, elapsed: u64) -> (r: RetryStep)
        requires
            old(self).wf(),
        ensures
            ({
                let failures = old(self).failures().push(
                    failure_text(old(self).attempt(), attempt_elapsed, error.message@),
                );
                if old(self).attempt() < MAX_DUAL_CONNECT_ATTEMPTS {
                    &&& r == (RetryStep::Retry {
                        pause: (RETRY_PAUSE * old(self).attempt()) as u64,
                    })
                    &&& final(self).attempt() == old(self).attempt() + 1
                    &&& final(self).failures() == failures
                    &&& final(self).wf()
                } else {
                    &&& final(self).attempt() == old(self).attempt()
                    &&& final(self).failures() == failures
                    &&& r is GiveUp
                    &&& r->GiveUp_0@ == birth_failure(error.kind, failures, elapsed)
                }
            }),
    {
        let mut text = owned("attempt=");
        push_decimal(&mut text, self.attempt as u128);
        text.append(", elapsed_ms=");
        push_decimal(&mut text, (attempt_elapsed / NANOS_PER_MILLI) as u128);
        text.append(", error=");
        text.append(error.message.as_str());
        let ghost added = text@;
        let ghost before = self.failures();
        self.failures.push(text);
        proof {
            assert(self.failures() =~= before.push(added));
        }
        if self.attempt < MAX_DUAL_CONNECT_ATTEMPTS {
            let pause: u64 = RETRY_PAUSE * self.attempt as u64;
            self.attempt = self.attempt + 1;
            return RetryStep::Retry { pause };
        }
        let mut message = owned("RTP mux dual-lane birth failed after ");
        push_decimal(&mut message, self.failures.len() as u128);
        message.append(" attempts in ");
        push_decimal(&mut message, (elapsed / NANOS_PER_MILLI) as u128);
        message.append(" ms: ");
        self.push_failures(&mut message);
        RetryStep::GiveUp(IoError { kind: error.kind, message })
    }

    fn push_failures(&self, out: &mut String)
        ensures
            final(out)@ == old(out)@ + joined(self.failures(), "; "@),
    {
        let ghost start = out@;
        let ghost all = self.failures();
        let mut i: usize = 0;
        proof {
            assert(all.take(0) =~= Seq::<Seq<char>>::empty());
            assert(out@ =~= start + joined(all.take(0), "; "@));
        }
        while i < self.failures.len()
            invariant
                i <= self.failures@.len(),
                all == self.failures(),
                all.len() == self.failures@.len(),
                forall|j: int| 0 <= j < all.len() ==> #[trigger] all[j] == self.failures@[j]@,
                out@ == start + joined(all.take(i as int), "; "@),
            decreases self.failures@.len() - i,
        {
            proof {
                assert(all.take(i as int + 1).drop_last() =~= all.take(i as int));
                assert(all.take(i as int + 1).last() == all[i as int]);
            }
            if i > 0 {
                out.append("; ");
            }
            out.append(self.failures[i].as_str());
            proof {
                assert(out@ =~= start + joined(all.take(i as int + 1), "; "@));
            }
            i += 1;
        }
        proof {
            assert(all.take(i as int) =~= all);
        }
    }
}

/// A dial makes three attempts and pauses longer before each.
pub proof fn lemma_pauses_grow(attempt: nat)
    requires
        1 <= attempt < MAX_DUAL_CONNECT_ATTEMPTS,
    ensures
        RETRY_PAUSE * attempt <= 50_000_000,
        RETRY_PAUSE * attempt < RETRY_PAUSE * (attempt + 1),
{
}

// ---------------------------------------------------------------------------
// One attempt
// ---------------------------------------------------------------------------
/// Where the two lanes of a dial are bound and go to.
#[derive(Clone, Copy, Debug, PartialEq, Eq, Structural)]
pub struct LanePlan {
    /// Where the interactive lane is bound, unless it inherits a socket.
    pub interactive_bind: Option<SocketAddr>,
    pub interactive_addr: SocketAddr,
    /// Where the bulk lane is bound: the same host, any port.
    pub bulk_bind: SocketAddr,
    pub bulk_addr: SocketAddr,
}

/// An address of a host with a port of its choice.
pub open spec fn any_port(bind: SocketAddr) -> SocketAddr {
    match bind {
        SocketAddr::V4 { ip, .. } => SocketAddr::V4 { ip, port: 0 },
        SocketAddr::V6 { ip, .. } => SocketAddr::V6 { ip, port: 0, flowinfo: 0, scope_id: 0 },
    }
}

/// Plans an attempt; where the bulk lane has no address, there is none.
pub fn plan_lanes(
    addr: SocketAddr,
    bind_addr: SocketAddr,
    bulk_addr: Result<SocketAddr, IoError>,
    inherits_socket: bool,
) -> (r: Result<LanePlan, IoError>)
    ensures
        outcome(r) == match outcome(bulk_addr) {
            Ok(bulk_addr) => Ok(
                LanePlan {
                    interactive_bind: if inherits_socket {
                        None
                    } else {
                        Some(bind_addr)
                    },
                    interactive_addr: addr,
                    bulk_bind: any_port(bind_addr),
                    bulk_addr,
                },
            ),
            Err(error) => Err::<LanePlan, ErrorView>(error),
        },
{
    match bulk_addr {
        Ok(bulk_addr) => Ok(
            LanePlan {
                interactive_bind: if inherits_socket {
                    None
                } else {
                    Some(bind_addr)
                },
                interactive_addr: addr,
                bulk_bind: match bind_addr {
                    SocketAddr::V4 { ip, .. } => SocketAddr::V4 { ip, port: 0 },
                    SocketAddr::V6 { ip, .. } => SocketAddr::V6 {
                        ip,
                        port: 0,
                        flowinfo: 0,
                        scope_id: 0,
                    },
                },
                bulk_addr,
            },
        ),
        Err(error) => Err(error),
    }
}

/// Why an attempt ends after a hello could not be written.
#[derive(Debug)]
pub struct HelloFailure {
    pub error: IoError,
    /// Whether the interactive lane, whose hello did go out, is killed.
    pub kill_interactive: bool,
}

/// A lane's hello could not be written; the text says why.
pub fn hello_failed(lane: LaneClass, cause: &str) -> (r: HelloFailure)
    ensures
        match lane {
            LaneClass::Interactive => !r.kill_interactive && r.error.is(
                ErrorKind::Other,
                "interactive lane hello: "@ + cause@,
            ),
            LaneClass::Bulk => r.kill_interactive && r.error.is(
                ErrorKind::Other,
                "bulk lane hello: "@ + cause@,
            ),
        },
{
    match lane {
        LaneClass::Interactive => {
            let mut message = owned("interactive lane hello: ");
            message.append(cause);
            HelloFailure {
                error: IoError { kind: ErrorKind::Other, message },
                kill_interactive: false,
            }
        },
        LaneClass::Bulk => {
            let mut message = owned("bulk lane hello: ");
            message.append(cause);
            HelloFailure {
                error: IoError { kind: ErrorKind::Other, message },
                kill_interactive: true,
            }
        },
    }
}

/// What happened first while a new session was watched for signs of life. Of
/// what happens at once, what stands first here counts.
#[derive(Debug)]
pub enum BirthEvent {
    /// The session ended; the text says how.
    Ended(String),
    /// Both lanes have received something, or will not.
    Ready { received: bool },
    /// The deadline passed.
    DeadlineElapsed,
}

/// Whether the session lives.
pub fn birth_outcome(event: BirthEvent) -> (r: Result<(), IoError>)
    ensures
        outcome(r) == judged(event),
{
    match event {
        BirthEvent::Ended(cause) => {
            let mut message = owned("dual-lane birth liveness failed: ");
            message.append(cause.as_str());
            Err(IoError { kind: ErrorKind::BrokenPipe, message })
        },
        BirthEvent::Ready { received } => if received {
            Ok(())
        } else {
            Err(IoError::new(ErrorKind::BrokenPipe, "dual-lane birth readiness channel closed"))
        },
        BirthEvent::DeadlineElapsed => Err(
            IoError::new(ErrorKind::TimedOut, "dual-lane birth liveness deadline exceeded"),
        ),
    }
}

/// How far an attempt has come. Once the interactive lane is connected, its
/// local address is known.
#[derive(Clone, Copy, Debug, PartialEq, Eq, Structural)]
pub enum BirthPhase {
    /// The interactive lane is being connected.
    ConnectInteractive,
    /// The bulk lane is being connected.
    ConnectBulk { local_addr: SocketAddr },
    /// The interactive lane's hello is being written.
    HelloInteractive { local_addr: SocketAddr },
    /// The bulk lane's hello is being written.
    HelloBulk { local_addr: SocketAddr },
    /// The session is watched for signs of life.
    Watch { local_addr: SocketAddr },
    /// The attempt is over.
    Over,
}

/// What came of what was done last.
#[derive(Debug)]
pub enum BirthResult {
    /// A lane was connected, and stands at that address.
    Connected { local_addr: SocketAddr },
    /// A lane could not be connected.
    ConnectFailed(IoError),
    /// A hello was written.
    HelloWritten,
    /// A hello could not be written; the text says why.
    HelloFailed(String),
    /// What was seen of the session.
    Seen(BirthEvent),
}

/// What is done next in an attempt. `N` is the nonce that brings the two
/// lanes together at the server, `G` names the session's group.
#[derive(Debug)]
pub enum BirthStep<N, G> {
    /// Connect the bulk lane.
    ConnectBulk { bind: SocketAddr, addr: SocketAddr },
    /// Write the lane's hello.
    WriteHello { lane: LaneClass, nonce: N, group: G },
    /// Start the session and watch it for so long at most.
    Watch { deadline: u64 },
    /// The session lives, and stands at that address.
    Born { local_addr: SocketAddr },
    /// The attempt failed.
    Failed(HelloFailure),
}

/// One attempt at a session of two lanes. The nonce is the attempt's own, and
/// the group is the one that the session will be a member of.
#[derive(Clone, Copy, Debug)]
pub struct DualLaneBirth<N, G> {
    pub plan: LanePlan,
    pub nonce: N,
    pub group: G,
    pub phase: BirthPhase,
}

/// What an attempt's step says.
#[verifier::ext_equal]
pub enum BirthStepView<N, G> {
    ConnectBulk { bind: SocketAddr, addr: SocketAddr },
    WriteHello { lane: LaneClass, nonce: N, group: G },
    Watch { deadline: u64 },
    Born { local_addr: SocketAddr },
    Failed { error: ErrorView, kill_interactive: bool },
}

impl<N, G> View for BirthStep<N, G> {
    type V = BirthStepView<N, G>;

    open spec fn view(&self) -> BirthStepView<N, G> {
        match *self {
            BirthStep::ConnectBulk { bind, addr } => BirthStepView::ConnectBulk { bind, addr },
            BirthStep::WriteHello { lane, nonce, group } => BirthStepView::WriteHello {
                lane,
                nonce,
                group,
            },
            BirthStep::Watch { deadline } => BirthStepView::Watch { deadline },
            BirthStep::Born { local_addr } => BirthStepView::Born { local_addr },
            BirthStep::Failed(failure) => BirthStepView::Failed {
                error: failure.error@,
                kill_interactive: failure.kill_interactive,
            },
        }
    }
}

/// What is seen of a new session, as an outcome.
pub open spec fn judged(event: BirthEvent) -> Result<(), ErrorView> {
    match event {
        BirthEvent::Ended(cause) => Err(
            ErrorView {
                kind: ErrorKind::BrokenPipe,
                message: "dual-lane birth liveness failed: "@ + cause@,
            },
        ),
        BirthEvent::Ready { received: true } => Ok(()),
        BirthEvent::Ready { received: false } => Err(
            ErrorView {
                kind: ErrorKind::BrokenPipe,
                message: "dual-lane birth readiness channel closed"@,
            },
        ),
        BirthEvent::DeadlineElapsed => Err(
            ErrorView {
                kind: ErrorKind::TimedOut,
                message: "dual-lane birth liveness deadline exceeded"@,
            },
        ),
    }
}

/// Whether a result can come of what is done in a phase.
pub open spec fn fits(phase: BirthPhase, result: BirthResult) -> bool {
    match phase {
        BirthPhase::ConnectInteractive | BirthPhase::ConnectBulk { .. } => result is Connected
            || result is ConnectFailed,
        BirthPhase::HelloInteractive { .. } | BirthPhase::HelloBulk { .. } => result is HelloWritten
            || result is HelloFailed,
        BirthPhase::Watch { .. } => result is Seen,
        BirthPhase::Over => false,
    }
}

impl<N: Copy, G: Copy> DualLaneBirth<N, G> {
    /// The attempt in another phase.
    pub open spec fn at(self, phase: BirthPhase) -> Self {
        DualLaneBirth { phase, ..self }
    }

    /// The step that writes a lane's hello.
    pub open spec fn hello(self, lane: LaneClass) -> BirthStepView<N, G> {
        BirthStepView::WriteHello { lane, nonce: self.nonce, group: self.group }
    }

    /// The attempt after a failure, and what it says.
    pub open spec fn failed(self, error: ErrorView, kill_interactive: bool) -> (
        Self,
        BirthStepView<N, G>,
    ) {
        (self.at(BirthPhase::Over), BirthStepView::Failed { error, kill_interactive })
    }

    /// The attempt and its step after a result that fits.
    pub open spec fn born(self, result: BirthResult) -> (Self, BirthStepView<N, G>) {
        match (self.phase, result) {
            (BirthPhase::ConnectInteractive, BirthResult::Connected { local_addr }) => (
                self.at(BirthPhase::ConnectBulk { local_addr }),
                BirthStepView::ConnectBulk {
                    bind: self.plan.bulk_bind,
                    addr: self.plan.bulk_addr,
                },
            ),
            (BirthPhase::ConnectBulk { local_addr }, BirthResult::Connected { .. }) => (
                self.at(BirthPhase::HelloInteractive { local_addr }),
                self.hello(LaneClass::Interactive),
            ),
            (BirthPhase::HelloInteractive { local_addr }, BirthResult::HelloWritten) => (
                self.at(BirthPhase::HelloBulk { local_addr }),
                self.hello(LaneClass::Bulk),
            ),
            (BirthPhase::HelloBulk { local_addr }, BirthResult::HelloWritten) => (
                self.at(BirthPhase::Watch { local_addr }),
                BirthStepView::Watch {
                    deadline: (BIRTH_LIVENESS_DEADLINE + BIRTH_LIVENESS_GRACE) as u64,
                },
            ),
            (BirthPhase::HelloInteractive { .. }, BirthResult::HelloFailed(cause)) => self.failed(
                ErrorView {
                    kind: ErrorKind::Other,
                    message: "interactive lane hello: "@ + cause@,
                },
                false,
            ),
            (BirthPhase::HelloBulk { .. }, BirthResult::HelloFailed(cause)) => self.failed(
                ErrorView { kind: ErrorKind::Other, message: "bulk lane hello: "@ + cause@ },
                true,
            ),
            (BirthPhase::Watch { local_addr }, BirthResult::Seen(event)) => match judged(event) {
                Ok(_) => (self.at(BirthPhase::Over), BirthStepView::Born { local_addr }),
                Err(error) => self.failed(error, false),
            },
            (_, BirthResult::ConnectFailed(error)) => self.failed(error@, false),
            _ => arbitrary(),
        }
    }

    /// An attempt that starts by connecting the interactive lane.
    pub fn new(plan: LanePlan, nonce: N, group: G) -> (r: Self)
        ensures
            r == (DualLaneBirth { plan, nonce, group, phase: BirthPhase::ConnectInteractive }),
    {
        DualLaneBirth { plan, nonce, group, phase: BirthPhase::ConnectInteractive }
    }

    /// The attempt is over, with that failure.
    fn fail(&mut self, error: IoError, kill_interactive: bool) -> (r: BirthStep<N, G>)
        ensures
            (*final(self), r@) == old(self).failed(error@, kill_interactive),
    {
        self.phase = BirthPhase::Over;
        BirthStep::Failed(HelloFailure { error, kill_interactive })
    }

    /// What was done last has come to a result: the next step is made, or the
    /// attempt is over.
    pub fn advance(&mut self, result: BirthResult) -> (r: BirthStep<N, G>)
        requires
            fits(old(self).phase, result),
        ensures
            (*final(self), r@) == old(self).born(result),
    {
        let nonce = self.nonce;
        let group = self.group;
        match (self.phase, result) {
            (BirthPhase::ConnectInteractive, BirthResult::Connected { local_addr }) => {
                self.phase = BirthPhase::ConnectBulk { local_addr };
                BirthStep::ConnectBulk { bind: self.plan.bulk_bind, addr: self.plan.bulk_addr }
            },
            (BirthPhase::ConnectBulk { local_addr }, BirthResult::Connected { .. }) => {
                self.phase = BirthPhase::HelloInteractive { local_addr };
                BirthStep::WriteHello { lane: LaneClass::Interactive, nonce, group }
            },
            (BirthPhase::HelloInteractive { local_addr }, BirthResult::HelloWritten) => {
                self.phase = BirthPhase::HelloBulk { local_addr };
                BirthStep::WriteHello { lane: LaneClass::Bulk, nonce, group }
            },
            (BirthPhase::HelloBulk { local_addr }, BirthResult::HelloWritten) => {
                self.phase = BirthPhase::Watch { local_addr };
                BirthStep::Watch { deadline: BIRTH_LIVENESS_DEADLINE + BIRTH_LIVENESS_GRACE }
            },
            (BirthPhase::HelloInteractive { .. }, BirthResult::HelloFailed(cause)) => {
                let failure = hello_failed(LaneClass::Interactive, cause.as_str());
                self.fail(failure.error, failure.kill_interactive)
            },
            (BirthPhase::HelloBulk { .. }, BirthResult::HelloFailed(cause)) => {
                let failure = hello_failed(LaneClass::Bulk, cause.as_str());
                self.fail(failure.error, failure.kill_interactive)
            },
            (BirthPhase::Watch { local_addr }, BirthResult::Seen(event)) => {
                match birth_outcome(event) {
                    Ok(_) => {
                        self.phase = BirthPhase::Over;
                        BirthStep::Born { local_addr }
                    },
                    Err(error) => self.fail(error, false),
                }
            },
            (_, BirthResult::ConnectFailed(error)) => self.fail(error, false),
            _ => {
                proof {
                    assert(false);
                }
                self.fail(IoError::new(ErrorKind::Other, ""), false)
            },
        }
    }
}

/// Every attempt is over after five results at the latest.
pub open spec fn steps_left(phase: BirthPhase) -> nat {
    match phase {
        BirthPhase::ConnectInteractive => 5,
        BirthPhase::ConnectBulk { .. } => 4,
        BirthPhase::HelloInteractive { .. } => 3,
        BirthPhase::HelloBulk { .. } => 2,
        BirthPhase::Watch { .. } => 1,
        BirthPhase::Over => 0,
    }
}

/// An attempt makes progress with every result, ends with a session only
/// after both hellos went out and the session showed signs of life, and kills
/// the interactive lane only where its hello went out and the bulk lane's
/// did not.
pub proof fn lemma_attempts_end<N: Copy, G: Copy>(attempt: DualLaneBirth<N, G>, result: BirthResult)
    requires
        fits(attempt.phase, result),
    ensures
        steps_left(attempt.born(result).0.phase) < steps_left(attempt.phase),
        attempt.born(result).1 is Born <==> attempt.phase is Watch && result == (
        BirthResult::Seen(BirthEvent::Ready { received: true })),
        match attempt.born(result).1 {
            BirthStepView::Failed { kill_interactive, .. } => kill_interactive
                == attempt.phase is HelloBulk,
            _ => true,
        },
{
}

/// Whether each of the results can come of what was done before it.
pub open spec fn all_fit<N: Copy, G: Copy>(attempt: DualLaneBirth<N, G>, results: Seq<BirthResult>) -> bool
    decreases results.len(),
{
    results.len() > 0 ==> {
        &&& fits(attempt.phase, results[0])
        &&& all_fit(attempt.born(results[0]).0, results.drop_first())
    }
}

/// The steps that an attempt takes on those results.
pub open spec fn steps<N: Copy, G: Copy>(attempt: DualLaneBirth<N, G>, results: Seq<BirthResult>) -> Seq<
    BirthStepView<N, G>,
>
    decreases results.len(),
{
    if results.len() == 0 {
        Seq::empty()
    } else {
        let (next, step) = attempt.born(results[0]);
        seq![step] + steps(next, results.drop_first())
    }
}

/// The local address of an attempt's interactive lane, once it has one.
pub open spec fn known_addr(phase: BirthPhase) -> Option<SocketAddr> {
    match phase {
        BirthPhase::ConnectBulk { local_addr } => Some(local_addr),
        BirthPhase::HelloInteractive { local_addr } => Some(local_addr),
        BirthPhase::HelloBulk { local_addr } => Some(local_addr),
        BirthPhase::Watch { local_addr } => Some(local_addr),
        BirthPhase::ConnectInteractive | BirthPhase::Over => None,
    }
}

proof fn lemma_steps_agree<N: Copy, G: Copy>(attempt: DualLaneBirth<N, G>, results: Seq<BirthResult>)
    requires
        attempt.phase !is ConnectInteractive,
        all_fit(attempt, results),
    ensures
        forall|i: int|
            0 <= i < steps(attempt, results).len() ==> match #[trigger] steps(attempt, results)[i] {
                BirthStepView::WriteHello { nonce, group, .. } => nonce == attempt.nonce && group
                    == attempt.group,
                BirthStepView::Born { local_addr } => known_addr(attempt.phase) == Some(local_addr),
                BirthStepView::ConnectBulk { .. } => false,
                _ => true,
            },
    decreases results.len(),
{
    if results.len() > 0 {
        let (next, step) = attempt.born(results[0]);
        lemma_steps_agree(next, results.drop_first());
        let all = steps(attempt, results);
        let rest = steps(next, results.drop_first());
        assert forall|i: int| 0 <= i < all.len() implies match #[trigger] all[i] {
            BirthStepView::WriteHello { nonce, group, .. } => nonce == attempt.nonce && group
                == attempt.group,
            BirthStepView::Born { local_addr } => known_addr(attempt.phase) == Some(local_addr),
            BirthStepView::ConnectBulk { .. } => false,
            _ => true,
        } by {
            if i > 0 {
                assert(all[i] == rest[i - 1]);
            }
        }
    }
}

/// Whatever becomes of an attempt, both lanes' hellos carry its own nonce and
/// group, the bulk lane is connected from and to where it was planned, and a
/// session that lives stands at the interactive lane's address.
pub proof fn lemma_lanes_of_an_attempt_agree<N: Copy, G: Copy>(
    plan: LanePlan,
    nonce: N,
    group: G,
    results: Seq<BirthResult>,
    i: int,
)
    requires
        all_fit(
            DualLaneBirth { plan, nonce, group, phase: BirthPhase::ConnectInteractive },
            results,
        ),
        0 <= i < results.len(),
    ensures
        ({
            let attempt = DualLaneBirth {
                plan,
                nonce,
                group,
                phase: BirthPhase::ConnectInteractive,
            };
            match steps(attempt, results)[i] {
                BirthStepView::WriteHello { lane, nonce: n, group: g } => n == nonce && g == group,
                BirthStepView::ConnectBulk { bind, addr } => bind == plan.bulk_bind && addr
                    == plan.bulk_addr,
                BirthStepView::Born { local_addr } => results[0] == (BirthResult::Connected {
                    local_addr,
                }),
                _ => true,
            }
        }),
{
    let attempt = DualLaneBirth { plan, nonce, group, phase: BirthPhase::ConnectInteractive };
    let (next, step) = attempt.born(results[0]);
    let rest = steps(next, results.drop_first());
    lemma_steps_agree(next, results.drop_first());
    lemma_steps_len(next, results.drop_first());
    if i > 0 {
        assert(steps(attempt, results)[i] == rest[i - 1]);
    }
}

proof fn lemma_steps_len<N: Copy, G: Copy>(attempt: DualLaneBirth<N, G>, results: Seq<BirthResult>)
    ensures
        steps(attempt, results).len() == results.len(),
    decreases results.len(),
{
    if results.len() > 0 {
        lemma_steps_len(attempt.born(results[0]).0, results.drop_first());
    }
}

/// How a session's tasks ended.
#[derive(Debug)]
pub enum SupervisorEnd<E, J> {
    /// One of them ended with an error.
    Error(E),
    /// One of them could not be joined.
    Join { task: &'static str, source: J },
    /// There were none left.
    Stopped { task: &'static str },
}

/// What the end of a session's first task says.
pub fn dual_supervisor_result<E, J>(result: Option<Result<E, J>>) -> (r: SupervisorEnd<E, J>)
    ensures
        r == match result {
            Some(Ok(error)) => SupervisorEnd::<E, J>::Error(error),
            Some(Err(source)) => SupervisorEnd::<E, J>::Join { task: "dual_lane", source },
            None => SupervisorEnd::<E, J>::Stopped { task: "dual_lane" },
        },
{
    match result {
        Some(Ok(error)) => SupervisorEnd::Error(error),
        Some(Err(source)) => SupervisorEnd::Join { task: "dual_lane", source },
        None => SupervisorEnd::Stopped { task: "dual_lane" },
    }
}

// ---------------------------------------------------------------------------
// What waiting, failing and trying come to
// ---------------------------------------------------------------------------
/// Dropping the requests whose answer nobody awaits keeps the others in their
/// order, and touches no other address and no dial.
pub proof fn lemma_sweeping_drops_the_abandoned<R>(
    book: BookModel<R>,
    addr: SocketAddr,
    open: Seq<bool>,
)
    requires
        open.len() == book.waiting(addr).len(),
    ensures
        book.swept(addr, open).waiting(addr) == retained(book.waiting(addr), open),
        book.swept(addr, open).in_flight == book.in_flight,
        forall|a: SocketAddr|
            a != addr ==> #[trigger] book.swept(addr, open).waiting(a) == book.waiting(a),
        (forall|i: int| 0 <= i < open.len() ==> #[trigger] open[i]) ==> book.swept(
            addr,
            open,
        ).waiting(addr) == book.waiting(addr),
{
    if forall|i: int| 0 <= i < open.len() ==> #[trigger] open[i] {
        lemma_all_retained(book.waiting(addr), open);
    }
}

proof fn lemma_all_retained<T>(items: Seq<T>, alive: Seq<bool>)
    requires
        items.len() == alive.len(),
        forall|i: int| 0 <= i < alive.len() ==> #[trigger] alive[i],
    ensures
        retained(items, alive) == items,
    decreases items.len(),
{
    if items.len() > 0 {
        assert(alive[alive.len() - 1]);
        lemma_all_retained(items.drop_last(), alive.drop_last());
        assert(retained(items, alive) =~= items);
    } else {
        assert(retained(items, alive) =~= items);
    }
}

/// A request that waits is kept as it was made, behind those that waited
/// already: with its own lane, and with its own place for the answer. Its
/// address is dialed, and no other address is touched.
pub proof fn lemma_a_request_waits_as_it_was_made<R>(
    book: BookModel<R>,
    addr: SocketAddr,
    request: StreamRequest<R>,
)
    ensures
        ({
            let after = book.queued(addr, request);
            &&& after.waiting(addr).len() == book.waiting(addr).len() + 1
            &&& after.waiting(addr).last().lane == request.lane
            &&& after.waiting(addr).last().response == request.response
            &&& after.waiting(addr).drop_last() == book.waiting(addr)
            &&& after.waiting(addr) == book.waiting(addr).push(request)
            &&& after.in_flight.contains(addr)
            &&& forall|a: SocketAddr|
                a != addr ==> #[trigger] after.waiting(a) == book.waiting(a)
            &&& forall|a: SocketAddr|
                a != addr ==> #[trigger] after.in_flight.contains(a) == book.in_flight.contains(a)
        }),
{
    let after = book.queued(addr, request);
    assert(after.waiting(addr).drop_last() =~= book.waiting(addr));
}

/// The book once requests for an address have been taken in, the first of them
/// first.
pub open spec fn all_queued<R>(
    book: BookModel<R>,
    addr: SocketAddr,
    requests: Seq<StreamRequest<R>>,
) -> BookModel<R>
    decreases requests.len(),
{
    if requests.len() == 0 {
        book
    } else {
        all_queued(book, addr, requests.drop_last()).queued(addr, requests.last())
    }
}

/// What the end of a dial hands out are the requests that were made, each of
/// them once and in the order in which they were made.
pub proof fn lemma_requests_are_handed_out_as_made<R>(
    book: BookModel<R>,
    addr: SocketAddr,
    requests: Seq<StreamRequest<R>>,
)
    requires
        book.waiting(addr).len() == 0,
    ensures
        all_queued(book, addr, requests).waiting(addr) == requests,
        all_queued(book, addr, requests).settled(addr).waiting(addr).len() == 0,
        !all_queued(book, addr, requests).settled(addr).in_flight.contains(addr),
    decreases requests.len(),
{
    if requests.len() > 0 {
        lemma_requests_are_handed_out_as_made(book, addr, requests.drop_last());
        let before = all_queued(book, addr, requests.drop_last());
        lemma_a_request_waits_as_it_was_made(before, addr, requests.last());
        assert(requests.drop_last().push(requests.last()) =~= requests);
    } else {
        assert(book.waiting(addr) =~= requests);
    }
}

/// The end of a dial leaves every other address as it was, and makes room for
/// another dial.
pub proof fn lemma_settling_touches_one_address<R>(
    book: BookModel<R>,
    addr: SocketAddr,
    other: SocketAddr,
)
    requires
        book.wf(),
    ensures
        !book.settled(addr).in_flight.contains(addr),
        !book.settled(addr).waiters.dom().contains(addr),
        other != addr ==> book.settled(addr).waiting(other) == book.waiting(other)
            && book.settled(addr).in_flight.contains(other) == book.in_flight.contains(other),
        book.in_flight.contains(addr) ==> book.settled(addr).in_flight.len() + 1
            == book.in_flight.len(),
        book.dialing(addr).in_flight.contains(addr),
        book.dialing(addr).waiters == book.waiters,
        other != addr ==> book.dialing(addr).in_flight.contains(other)
            == book.in_flight.contains(other),
        !book.in_flight.contains(addr) ==> book.dialing(addr).in_flight.len()
            == book.in_flight.len() + 1 && book.dialing(addr).settled(addr).in_flight
            == book.in_flight,
{
    if !book.in_flight.contains(addr) {
        assert(book.dialing(addr).settled(addr).in_flight =~= book.in_flight);
    }
}

/// A request is refused exactly where as many wait for its address as may, or
/// where its address is not dialed and as many dials run as may; each time as
/// something to be tried again later.
pub proof fn lemma_requests_are_refused_at_the_limits<R>(
    book: BookModel<R>,
    addr: SocketAddr,
    addr_text: Seq<char>,
)
    ensures
        book.refusal(addr, addr_text) is None <==> book.waiting(addr).len() < 256 && (
        book.in_flight.contains(addr) || book.in_flight.len() < 32),
        book.waiting(addr).len() >= 256 ==> book.refusal(addr, addr_text) == Some(
            ErrorView {
                kind: ErrorKind::WouldBlock,
                message: "too many dial waiters for "@ + addr_text + " (max 256)"@,
            },
        ),
        book.waiting(addr).len() < 256 && !book.in_flight.contains(addr) && book.in_flight.len()
            >= 32 ==> book.refusal(addr, addr_text) == Some(
            ErrorView {
                kind: ErrorKind::WouldBlock,
                message: "too many concurrent dual dials"@,
            },
        ),
{
}

/// Giving all dials up hands out the requests of each address in their order,
/// and no others: how the addresses are grouped does not matter.
pub proof fn lemma_all_waiting_are_handed_out<R>(
    a: Seq<SocketAddr>,
    b: Seq<SocketAddr>,
    addr: SocketAddr,
    waiters: Map<SocketAddr, Seq<StreamRequest<R>>>,
)
    ensures
        all_waiting(a + b, waiters) == all_waiting(a, waiters) + all_waiting(b, waiters),
        all_waiting(seq![addr], waiters) == waiters[addr],
    decreases b.len(),
{
    assert(seq![addr].drop_last() =~= Seq::<SocketAddr>::empty());
    assert(all_waiting(seq![addr].drop_last(), waiters) =~= Seq::<StreamRequest<R>>::empty());
    assert(all_waiting(seq![addr], waiters) =~= waiters[addr]);
    if b.len() == 0 {
        assert(a + b =~= a);
    } else {
        lemma_all_waiting_are_handed_out(a, b.drop_last(), addr, waiters);
        assert((a + b).drop_last() =~= a + b.drop_last());
    }
    assert(all_waiting(a + b, waiters) =~= all_waiting(a, waiters) + all_waiting(b, waiters));
}

/// What a failed attempt leaves says which attempt it was, how many whole
/// milliseconds it took, and what went wrong.
pub proof fn lemma_a_failure_says_what_went_wrong(
    attempt: nat,
    elapsed: u64,
    millis: nat,
    message: Seq<char>,
)
    requires
        millis * 1_000_000 <= elapsed < (millis + 1) * 1_000_000,
    ensures
        failure_text(attempt, elapsed, message) == "attempt="@ + decimal(attempt)
            + ", elapsed_ms="@ + decimal(millis) + ", error="@ + message,
{
    assert((elapsed / NANOS_PER_MILLI) as nat == millis);
}

/// The error of a dial that failed counts its attempts, says how many whole
/// milliseconds they took together, and holds what each of them left, in
/// order.
pub proof fn lemma_a_failed_dial_tells_of_every_attempt(
    kind: ErrorKind,
    failures: Seq<Seq<char>>,
    last: Seq<char>,
    elapsed: u64,
    millis: nat,
)
    requires
        millis * 1_000_000 <= elapsed < (millis + 1) * 1_000_000,
    ensures
        birth_failure(kind, failures, elapsed).kind == kind,
        birth_failure(kind, failures, elapsed).message == "RTP mux dual-lane birth failed after "@
            + decimal(failures.len()) + " attempts in "@ + decimal(millis) + " ms: "@ + joined(
            failures,
            "; "@,
        ),
        joined(seq![last], "; "@) == last,
        failures.len() > 0 ==> joined(failures.push(last), "; "@) == joined(failures, "; "@)
            + "; "@ + last,
{
    assert((elapsed / NANOS_PER_MILLI) as nat == millis);
    assert(failures.push(last).drop_last() =~= failures);
}

/// A lane that is bound anew is bound on the same host, to a port that the
/// system picks, and to no scope in particular.
pub proof fn lemma_any_port_keeps_the_host(bind: SocketAddr)
    ensures
        any_port(bind).ip() == bind.ip(),
        any_port(bind).port() == 0,
        any_port(bind) is V4 <==> bind is V4,
        any_port(bind) matches SocketAddr::V6 { flowinfo, scope_id, .. } ==> flowinfo == 0
            && scope_id == 0,
{
}

/// An attempt in which nothing fails connects the bulk lane after the
/// interactive one, writes the interactive lane's hello and then the bulk
/// lane's, watches the session for the deadline and its grace together, and
/// ends with a session at the interactive lane's address.
pub proof fn lemma_an_attempt_goes_lane_by_lane<N: Copy, G: Copy>(
    plan: LanePlan,
    nonce: N,
    group: G,
    interactive: SocketAddr,
    bulk: SocketAddr,
)
    ensures
        ({
            let start = DualLaneBirth { plan, nonce, group, phase: BirthPhase::ConnectInteractive };
            let (a, first) = start.born(BirthResult::Connected { local_addr: interactive });
            let (b, second) = a.born(BirthResult::Connected { local_addr: bulk });
            let (c, third) = b.born(BirthResult::HelloWritten);
            let (d, fourth) = c.born(BirthResult::HelloWritten);
            let (e, fifth) = d.born(BirthResult::Seen(BirthEvent::Ready { received: true }));
            &&& first == (BirthStepView::<N, G>::ConnectBulk {
                bind: plan.bulk_bind,
                addr: plan.bulk_addr,
            })
            &&& second == (BirthStepView::<N, G>::WriteHello {
                lane: LaneClass::Interactive,
                nonce,
                group,
            })
            &&& third == (BirthStepView::<N, G>::WriteHello {
                lane: LaneClass::Bulk,
                nonce,
                group,
            })
            &&& fourth matches BirthStepView::Watch { deadline } && deadline
                == 2_500_000_000 + 250_000_000
            &&& fifth == (BirthStepView::<N, G>::Born { local_addr: interactive })
            &&& e.phase == BirthPhase::Over
        }),
{
}

/// An attempt that fails is over, and says what went wrong: the error of a
/// lane that could not be connected is handed on as it is, a hello that could
/// not be written names its lane, and a session that showed no signs of life
/// is judged by what was seen.
pub proof fn lemma_a_failed_attempt_says_why<N: Copy, G: Copy>(
    attempt: DualLaneBirth<N, G>,
    result: BirthResult,
)
    requires
        fits(attempt.phase, result),
    ensures
        attempt.born(result).1 matches BirthStepView::Failed { error, .. } ==> {
            &&& attempt.born(result).0.phase == BirthPhase::Over
            &&& match result {
                BirthResult::ConnectFailed(cause) => error == cause@,
                BirthResult::HelloFailed(cause) => error.kind == ErrorKind::Other && error.message
                    == (if attempt.phase is HelloBulk {
                    "bulk lane hello: "@
                } else {
                    "interactive lane hello: "@
                }) + cause@,
                BirthResult::Seen(BirthEvent::Ended(cause)) => error.kind == ErrorKind::BrokenPipe
                    && error.message == "dual-lane birth liveness failed: "@ + cause@,
                BirthResult::Seen(BirthEvent::Ready { received }) => !received && error.kind
                    == ErrorKind::BrokenPipe && error.message
                    == "dual-lane birth readiness channel closed"@,
                BirthResult::Seen(BirthEvent::DeadlineElapsed) => error.kind == ErrorKind::TimedOut
                    && error.message == "dual-lane birth liveness deadline exceeded"@,
                _ => false,
            }
        },
        result is ConnectFailed || result is HelloFailed ==> attempt.born(result).1 is Failed,
        result is Connected || result is HelloWritten ==> !(attempt.born(result).1 is Failed),
        attempt.born(result).0.plan == attempt.plan,
        attempt.born(result).0.nonce == attempt.nonce,
        attempt.born(result).0.group == attempt.group,
{
}

/// What is known of the requests that wait is each of them, in order; and what
/// a step says is all that there is of it.
pub proof fn lemma_requests_and_steps_are_known_whole<R, N, G>(
    waiters: Map<SocketAddr, Vec<StreamRequest<R>>>,
    addr: SocketAddr,
    step: BirthStep<N, G>,
)
    ensures
        lists(waiters).dom().contains(addr) <==> waiters.dom().contains(addr),
        waiters.dom().contains(addr) ==> lists(waiters)[addr] == waiters[addr]@,
        match step {
            BirthStep::ConnectBulk { bind, addr } => step@ == (BirthStepView::<N, G>::ConnectBulk {
                bind,
                addr,
            }),
            BirthStep::WriteHello { lane, nonce, group } => step@ == (BirthStepView::<
                N,
                G,
            >::WriteHello { lane, nonce, group }),
            BirthStep::Watch { deadline } => step@ == (BirthStepView::<N, G>::Watch { deadline }),
            BirthStep::Born { local_addr } => step@ == (BirthStepView::<N, G>::Born {
                local_addr,
            }),
            BirthStep::Failed(failure) => step@ == (BirthStepView::<N, G>::Failed {
                error: ErrorView { kind: failure.error.kind, message: failure.error.message@ },
                kill_interactive: failure.kill_interactive,
            }),
        },
{
}

} // verus!
