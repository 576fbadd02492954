//! What a listener does about failing to accept: which failures end it, when
//! it warns, and how long it waits before it tries again.

use vstd::prelude::*;

use crate::error::{outcome, ErrorKind, ErrorView, IoError};
use crate::text::copy_of;

verus! {

pub const WARN_AFTER_CONSECUTIVE: u64 = 3;

pub const RETRY_BACKOFF_BASE: u64 = 1_000_000;

pub const RETRY_BACKOFF_MAX: u64 = 100_000_000;

/// The errors after which trying again is no use.
pub open spec fn fatal(kind: ErrorKind) -> bool {
    ||| kind == ErrorKind::InvalidInput
    ||| kind == ErrorKind::InvalidData
    ||| kind == ErrorKind::PermissionDenied
    ||| kind == ErrorKind::AddrNotAvailable
    ||| kind == ErrorKind::NotConnected
    ||| kind == ErrorKind::Unsupported
}

pub fn is_fatal(kind: ErrorKind) -> (r: bool)
    ensures
        r == fatal(kind),
{
    match kind {
        ErrorKind::InvalidInput => true,
        ErrorKind::InvalidData => true,
        ErrorKind::PermissionDenied => true,
        ErrorKind::AddrNotAvailable => true,
        ErrorKind::NotConnected => true,
        ErrorKind::Unsupported => true,
        _ => false,
    }
}

/// The streak of accept errors that a listener is in.
#[derive(Debug)]
pub struct AcceptErrorBackoff {
    pub error_count: u64,
    pub first_error: Option<String>,
    pub last_error: Option<String>,
    pub started_at: Option<u64>,
    pub logged: bool,
}

/// What comes of one failed accept.
#[derive(Debug)]
pub struct Dispatched {
    /// Whether the streak is to be warned of now.
    pub warn: bool,
    /// The error, where it ends the listener.
    pub result: Result<(), IoError>,
}

/// Two to the power of `n`.
pub open spec fn doublings(n: nat) -> nat
    decreases n,
{
    if n == 0 {
        1
    } else {
        2 * doublings((n - 1) as nat)
    }
}

/// The wait before the next accept after so many errors in a row.
pub open spec fn delay_after(errors: nat) -> nat {
    if errors < WARN_AFTER_CONSECUTIVE {
        0
    } else {
        let over = errors - WARN_AFTER_CONSECUTIVE;
        let steps = if over < 16 {
            over as nat
        } else {
            16
        };
        let delay = RETRY_BACKOFF_BASE as nat * doublings(steps);
        if delay < RETRY_BACKOFF_MAX {
            delay
        } else {
            RETRY_BACKOFF_MAX as nat
        }
    }
}

proof fn lemma_doublings_grow(a: nat, b: nat)
    requires
        a <= b,
    ensures
        1 <= doublings(a) <= doublings(b),
    decreases b,
{
    if a < b {
        lemma_doublings_grow(a, (b - 1) as nat);
    } else if a > 0 {
        lemma_doublings_grow((a - 1) as nat, (a - 1) as nat);
    }
}

/// The wait is nothing below the warning threshold, the base at it, twice as
/// long after each further error until it reaches the cap, and the cap from
/// then on.
pub proof fn lemma_delay_doubles_to_the_cap(errors: nat)
    ensures
        errors < WARN_AFTER_CONSECUTIVE ==> delay_after(errors) == 0,
        delay_after(WARN_AFTER_CONSECUTIVE as nat) == RETRY_BACKOFF_BASE,
        errors >= WARN_AFTER_CONSECUTIVE ==> delay_after(errors + 1) == if 2 * delay_after(errors)
            < RETRY_BACKOFF_MAX {
            2 * delay_after(errors)
        } else {
            RETRY_BACKOFF_MAX as nat
        },
        delay_after(errors) <= delay_after(errors + 1) <= RETRY_BACKOFF_MAX,
{
    assert(doublings(0) == 1);
    if errors >= WARN_AFTER_CONSECUTIVE {
        let over = (errors - WARN_AFTER_CONSECUTIVE) as nat;
        if over < 16 {
            assert(doublings(over + 1) == 2 * doublings(over));
            lemma_doublings_grow(0, over);
        } else {
            assert(doublings(7) == 128) by {
                reveal_with_fuel(doublings, 8);
            }
            lemma_doublings_grow(7, 16);
        }
    } else {
        lemma_doublings_grow(0, 0);
    }
}

/// Whether a streak of such errors has been warned of.
pub open spec fn warned_of(kinds: Seq<ErrorKind>) -> bool {
    kinds.len() >= WARN_AFTER_CONSECUTIVE || exists|i: int|
        0 <= i < kinds.len() && fatal(#[trigger] kinds[i])
}

proof fn lemma_one_error_more(kinds: Seq<ErrorKind>, kind: ErrorKind)
    ensures
        warned_of(kinds.push(kind)) == (warned_of(kinds) || fatal(kind) || kinds.len() + 1
            >= WARN_AFTER_CONSECUTIVE),
{
    let all = kinds.push(kind);
    assert(all[kinds.len() as int] == kind);
    if exists|i: int| 0 <= i < kinds.len() && fatal(#[trigger] kinds[i]) {
        let i = choose|i: int| 0 <= i < kinds.len() && fatal(#[trigger] kinds[i]);
        assert(all[i] == kinds[i]);
    }
    if exists|i: int| 0 <= i < all.len() && fatal(#[trigger] all[i]) {
        let i = choose|i: int| 0 <= i < all.len() && fatal(#[trigger] all[i]);
        if i < kinds.len() {
            assert(kinds[i] == all[i]);
        }
    }
}

/// Whether a streak is warned of at its error of that place.
pub open spec fn warns_at(kinds: Seq<ErrorKind>, n: int) -> bool {
    &&& 0 <= n < kinds.len()
    &&& !warned_of(kinds.take(n))
    &&& warned_of(kinds.take(n + 1))
}

proof fn lemma_warnings_last(kinds: Seq<ErrorKind>, n: int, m: int)
    requires
        0 <= n <= m <= kinds.len(),
        warned_of(kinds.take(n)),
    ensures
        warned_of(kinds.take(m)),
    decreases m - n,
{
    if n < m {
        assert(kinds.take(n + 1) =~= kinds.take(n).push(kinds[n]));
        lemma_one_error_more(kinds.take(n), kinds[n]);
        lemma_warnings_last(kinds, n + 1, m);
    }
}

proof fn lemma_some_error_warns(kinds: Seq<ErrorKind>, n: int)
    requires
        0 <= n <= kinds.len(),
        warned_of(kinds.take(n)),
    ensures
        exists|k: int| #[trigger] warns_at(kinds, k),
    decreases n,
{
    if n == 0 {
        assert(kinds.take(0).len() == 0);
        assert(false);
    } else if warned_of(kinds.take(n - 1)) {
        lemma_some_error_warns(kinds, n - 1);
    } else {
        assert(warns_at(kinds, n - 1));
    }
}

/// A streak is warned of at one of its errors at most, and at one where it is
/// to be warned of at all: the first that is fatal or reaches the threshold.
pub proof fn lemma_a_streak_is_warned_of_once(kinds: Seq<ErrorKind>)
    ensures
        forall|n: int, m: int| #[trigger]
            warns_at(kinds, n) && #[trigger] warns_at(kinds, m) ==> n == m,
        warned_of(kinds) <==> exists|n: int| #[trigger] warns_at(kinds, n),
        forall|n: int| #[trigger]
            warns_at(kinds, n) ==> fatal(kinds[n]) || n + 1 == WARN_AFTER_CONSECUTIVE,
{
    assert(kinds.take(kinds.len() as int) =~= kinds);
    assert forall|n: int, m: int| #[trigger] warns_at(kinds, n) && #[trigger] warns_at(
        kinds,
        m,
    ) implies n == m by {
        if n < m {
            lemma_warnings_last(kinds, n + 1, m);
        } else if m < n {
            lemma_warnings_last(kinds, m + 1, n);
        }
    }
    if warned_of(kinds) {
        lemma_some_error_warns(kinds, kinds.len() as int);
    }
    assert forall|n: int| #[trigger] warns_at(kinds, n) implies warned_of(kinds) && (fatal(kinds[n])
        || n + 1 == WARN_AFTER_CONSECUTIVE) by {
        lemma_warnings_last(kinds, n + 1, kinds.len() as int);
        assert(kinds.take(n + 1) =~= kinds.take(n).push(kinds[n]));
        lemma_one_error_more(kinds.take(n), kinds[n]);
    }
}

impl AcceptErrorBackoff {
    /// No streak: nothing failed since the last accept.
    pub open spec fn is_clear(&self) -> bool {
        &&& self.error_count == 0
        &&& self.first_error is None
        &&& self.last_error is None
        &&& self.started_at is None
        &&& !self.logged
    }

    /// Whether an error of that kind is one to warn at.
    pub open spec fn warns_on(&self, kind: ErrorKind) -> bool {
        !self.logged && (fatal(kind) || self.error_count + 1 >= WARN_AFTER_CONSECUTIVE)
    }

    /// The streak with one error more.
    pub open spec fn failed_from(&self, before: &Self, error: ErrorView, now: u64) -> bool {
        &&& self.error_count == before.error_count + 1
        &&& self.started_at == match before.started_at {
            Some(t) => Some(t),
            None => Some(now),
        }
        &&& match before.first_error {
            Some(m) => self.first_error == Some(m),
            None => self.first_error is Some && self.first_error->0@ == error.message,
        }
        &&& self.last_error is Some
        &&& self.last_error->0@ == error.message
        &&& self.logged == (before.logged || before.warns_on(error.kind))
    }

    /// The streak that those errors make, in that order: it has been warned
    /// of where one of them was fatal, or there were as many as the threshold.
    pub open spec fn is_streak(&self, kinds: Seq<ErrorKind>) -> bool {
        &&& self.error_count == kinds.len()
        &&& self.logged == warned_of(kinds)
        &&& kinds.len() == 0 ==> self.is_clear()
        &&& kinds.len() > 0 ==> self.first_error is Some && self.last_error is Some
            && self.started_at is Some
    }

    /// The state is that of some streak.
    pub open spec fn wf(&self) -> bool {
        exists|kinds: Seq<ErrorKind>| #[trigger] self.is_streak(kinds)
    }

    pub fn new() -> (r: Self)
        ensures
            r.is_clear(),
            r.is_streak(Seq::empty()),
            r.wf(),
    {
        proof {
            assert(!warned_of(Seq::empty()));
        }
        AcceptErrorBackoff {
            error_count: 0,
            first_error: None,
            last_error: None,
            started_at: None,
            logged: false,
        }
    }

    /// Takes in a failed accept. A fatal error is handed back; a streak is
    /// warned of once, at a fatal error or at the threshold.
    pub fn failed_dispatching(&mut self, error: IoError, now: u64) -> (r: Dispatched)
        requires
            old(self).error_count < u64::MAX,
        ensures
            r.warn == old(self).warns_on(error.kind),
            outcome(r.result) == if fatal(error.kind) {
                Err::<(), ErrorView>(error@)
            } else {
                Ok(())
            },
            final(self).failed_from(old(self), error@, now),
            forall|kinds: Seq<ErrorKind>| #[trigger]
                old(self).is_streak(kinds) ==> final(self).is_streak(kinds.push(error.kind)),
            old(self).wf() ==> final(self).wf(),
    {
        let fatal = is_fatal(error.kind());
        self.error_count = self.error_count + 1;
        if self.started_at.is_none() {
            self.started_at = Some(now);
        }
        if self.first_error.is_none() {
            self.first_error = Some(copy_of(&error.message));
        }
        self.last_error = Some(copy_of(&error.message));
        let warn = !self.logged && (fatal || self.error_count >= WARN_AFTER_CONSECUTIVE);
        if warn {
            self.logged = true;
        }
        proof {
            assert forall|kinds: Seq<ErrorKind>| #[trigger] old(self).is_streak(
                kinds,
            ) implies self.is_streak(kinds.push(error.kind)) by {
                lemma_one_error_more(kinds, error.kind);
            }
            if old(self).wf() {
                let kinds = choose|kinds: Seq<ErrorKind>| #[trigger] old(self).is_streak(kinds);
                assert(self.is_streak(kinds.push(error.kind)));
            }
        }
        Dispatched {
            warn,
            result: if fatal {
                Err(error)
            } else {
                Ok(())
            },
        }
    }

    /// How long to wait before the next accept.
    pub fn retry_delay(&self) -> (r: u64)
        ensures
            r == delay_after(self.error_count as nat),
    {
        if self.error_count < WARN_AFTER_CONSECUTIVE {
            return 0;
        }
        let over: u64 = self.error_count - WARN_AFTER_CONSECUTIVE;
        let steps: u64 = if over < 16 {
            over
        } else {
            16
        };
        let mut delay: u64 = RETRY_BACKOFF_BASE;
        let mut i: u64 = 0;
        while i < steps
            invariant
                i <= steps <= 16,
                delay == RETRY_BACKOFF_BASE * doublings(i as nat),
            decreases steps - i,
        {
            proof {
                lemma_doublings_grow(i as nat, 16);
                assert(doublings(16) == 65536) by {
                    reveal_with_fuel(doublings, 17);
                }
                assert(doublings(i as nat + 1) == 2 * doublings(i as nat));
            }
            delay = delay * 2;
            i += 1;
        }
        if delay < RETRY_BACKOFF_MAX {
            delay
        } else {
            RETRY_BACKOFF_MAX
        }
    }

    /// Takes in a successful accept, which ends the streak. The result says
    /// whether the end is to be logged: it is where the streak was.
    pub fn accepted(&mut self) -> (recovered: bool)
        ensures
            recovered == old(self).logged,
            final(self).is_clear(),
            final(self).is_streak(Seq::empty()),
            final(self).wf(),
    {
        let recovered = self.logged;
        *self = AcceptErrorBackoff::new();
        recovered
    }
}

impl Default for AcceptErrorBackoff {
    fn default() -> (r: Self)
        ensures
            r.is_clear(),
            r.wf(),
    {
        AcceptErrorBackoff::new()
    }
}

/// An error is fatal exactly where it is of one of six kinds: the address, the
/// socket or the permission is wrong, and trying again changes nothing.
pub proof fn lemma_the_fatal_kinds(kind: ErrorKind)
    ensures
        fatal(kind) <==> (match kind {
            ErrorKind::InvalidInput
            | ErrorKind::InvalidData
            | ErrorKind::PermissionDenied
            | ErrorKind::AddrNotAvailable
            | ErrorKind::NotConnected
            | ErrorKind::Unsupported => true,
            _ => false,
        }),
{
}

/// A streak with one error more counts it, keeps when it started and its first
/// message, and has the error's own as its last; one that has been warned of
/// stays so.
pub proof fn lemma_a_streak_remembers_its_ends(
    before: &AcceptErrorBackoff,
    after: &AcceptErrorBackoff,
    error: ErrorView,
    now: u64,
)
    requires
        after.failed_from(before, error, now),
    ensures
        after.error_count == before.error_count + 1,
        before.started_at is Some ==> after.started_at == before.started_at,
        before.started_at is None ==> after.started_at == Some(now),
        before.first_error is Some ==> after.first_error == before.first_error,
        before.first_error is None ==> after.first_error is Some && (after.first_error->0)@
            == error.message,
        after.last_error is Some && (after.last_error->0)@ == error.message,
        before.logged ==> after.logged,
        fatal(error.kind) ==> after.logged,
        before.error_count + 1 >= WARN_AFTER_CONSECUTIVE ==> after.logged,
        !before.logged && !fatal(error.kind) && before.error_count + 1 < WARN_AFTER_CONSECUTIVE
            ==> !after.logged,
        before.warns_on(error.kind) <==> after.logged && !before.logged,
{
}

/// Without a streak there is nothing to tell of, and nothing to wait for.
pub proof fn lemma_no_streak_no_wait(backoff: &AcceptErrorBackoff)
    requires
        backoff.is_clear(),
    ensures
        backoff.error_count == 0,
        backoff.started_at is None,
        backoff.first_error is None,
        backoff.last_error is None,
        !backoff.logged,
        delay_after(backoff.error_count as nat) == 0,
{
}

/// The first two errors in a row cost no wait; the third costs a millisecond,
/// each further one twice as much as the one before, and none more than a
/// hundred milliseconds, which every error from the tenth on costs.
pub proof fn lemma_waits_grow_from_one_to_a_hundred_millis(errors: nat)
    ensures
        errors < 3 ==> delay_after(errors) == 0,
        errors == 3 ==> delay_after(errors) == 1_000_000,
        3 <= errors < 9 ==> delay_after(errors + 1) == 2 * delay_after(errors),
        errors >= 10 ==> delay_after(errors) == 100_000_000,
        delay_after(errors) <= 100_000_000,
{
    reveal_with_fuel(doublings, 8);
    if errors >= 10 {
        let over = (errors - 3) as nat;
        let steps = if over < 16 {
            over
        } else {
            16
        };
        lemma_doublings_grow(7, steps);
    }
}

} // verus!
