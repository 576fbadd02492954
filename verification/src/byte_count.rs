//! How many bytes a session has moved, and how that is shown.

use vstd::prelude::*;

use crate::poll::Poll;
use crate::text::{decimal, owned, push_decimal};

verus! {

/// The bytes that a session's lanes have moved. They wrap.
#[derive(Clone, Copy, Debug, PartialEq, Eq, Structural)]
pub struct SessionByteCounters {
    tx_bytes: u64,
    rx_bytes: u64,
}

/// One counted half of a lane.
#[derive(Clone, Copy, Debug, PartialEq, Eq, Structural)]
pub struct Counted {
    rx: bool,
    vectored: bool,
}

/// The counter after so many bytes more.
pub open spec fn counted_up(counter: u64, bytes: int) -> u64 {
    ((counter + bytes) % 0x1_0000_0000_0000_0000) as u64
}

/// The bytes that a write accepted: none where it is not ready or failed.
pub open spec fn written<E>(polled: Poll<Result<usize, E>>) -> nat {
    match polled {
        Poll::Ready(Ok(n)) => n as nat,
        _ => 0,
    }
}

/// The bytes that a read filled of its buffer, once it is ready.
pub open spec fn filled<E>(polled: Poll<Result<(), E>>, before: usize, after: usize) -> nat {
    if polled is Ready && after > before {
        (after - before) as nat
    } else {
        0
    }
}

/// The bytes of both directions.
pub struct Tally {
    pub tx: u64,
    pub rx: u64,
}

impl Tally {
    /// So many bytes more have been received, or else sent.
    pub open spec fn moved(self, received: bool, bytes: nat) -> Tally {
        if received {
            Tally { rx: counted_up(self.rx, bytes as int), ..self }
        } else {
            Tally { tx: counted_up(self.tx, bytes as int), ..self }
        }
    }

    /// What the halves of a session's lanes count on those calls.
    pub open spec fn after<E>(self, calls: Seq<Call<E>>) -> Tally
        decreases calls.len(),
    {
        if calls.len() == 0 {
            self
        } else {
            self.after(calls.drop_last()).moved(calls.last() is Read, calls.last().bytes())
        }
    }
}

/// A call on a counted half, with what came of it.
pub enum Call<E> {
    /// A write of one buffer or of several.
    Write(Poll<Result<usize, E>>),
    /// A read into a buffer that was filled so far before and after it.
    Read { polled: Poll<Result<(), E>>, before: usize, after: usize },
}

impl<E> Call<E> {
    /// The bytes that the call moved.
    pub open spec fn bytes(self) -> nat {
        match self {
            Call::Write(polled) => written(polled),
            Call::Read { polled, before, after } => filled(polled, before, after),
        }
    }
}

/// The bytes that calls moved in one direction.
pub open spec fn total<E>(calls: Seq<Call<E>>, received: bool) -> nat
    decreases calls.len(),
{
    if calls.len() == 0 {
        0
    } else {
        total(calls.drop_last(), received) + if (calls.last() is Read) == received {
            calls.last().bytes()
        } else {
            0
        }
    }
}

impl SessionByteCounters {
    /// The bytes of both directions.
    pub open spec fn tally(&self) -> Tally {
        Tally { tx: self.tx(), rx: self.rx() }
    }

    pub closed spec fn tx(&self) -> u64 {
        self.tx_bytes
    }

    pub closed spec fn rx(&self) -> u64 {
        self.rx_bytes
    }

    pub fn new() -> (r: Self)
        ensures
            r.tx() == 0,
            r.rx() == 0,
    {
        SessionByteCounters { tx_bytes: 0, rx_bytes: 0 }
    }

    /// The reading half of a lane.
    pub fn count_read() -> (r: Counted)
        ensures
            r.is_rx(),
            !r.is_vectored(),
    {
        Counted { rx: true, vectored: false }
    }

    /// The writing half of a lane, which writes several buffers at once
    /// where its writer does.
    pub fn count_write(vectored: bool) -> (r: Counted)
        ensures
            !r.is_rx(),
            r.is_vectored() == vectored,
    {
        Counted { rx: false, vectored }
    }

    pub fn tx_bytes(&self) -> (r: u64)
        ensures
            r == self.tx(),
    {
        self.tx_bytes
    }

    pub fn rx_bytes(&self) -> (r: u64)
        ensures
            r == self.rx(),
    {
        self.rx_bytes
    }
}

impl Default for SessionByteCounters {
    fn default() -> (r: Self)
        ensures
            r.tx() == 0,
            r.rx() == 0,
    {
        SessionByteCounters::new()
    }
}

impl Counted {
    pub closed spec fn is_rx(&self) -> bool {
        self.rx
    }

    pub closed spec fn is_vectored(&self) -> bool {
        self.vectored
    }

    /// The half counts bytes, in its own direction alone.
    fn count(&self, counters: &mut SessionByteCounters, bytes: usize)
        ensures
            final(counters).tally() == old(counters).tally().moved(self.is_rx(), bytes as nat),
    {
        if self.rx {
            counters.rx_bytes = counters.rx_bytes.wrapping_add(bytes as u64);
        } else {
            counters.tx_bytes = counters.tx_bytes.wrapping_add(bytes as u64);
        }
    }

    /// A read has been polled: what it filled of the buffer is counted once
    /// it is ready, whether or not it failed. What the reader answered is
    /// handed on.
    pub fn read_polled<E>(
        &self,
        counters: &mut SessionByteCounters,
        polled: Poll<Result<(), E>>,
        filled_before: usize,
        filled_after: usize,
    ) -> (r: Poll<Result<(), E>>)
        ensures
            r == polled,
            final(counters).tally() == old(counters).tally().moved(
                self.is_rx(),
                filled(polled, filled_before, filled_after),
            ),
    {
        if let Poll::Ready(_) = &polled {
            self.count(counters, filled_after.saturating_sub(filled_before));
        }
        polled
    }

    /// A write has been polled: what the writer accepted is counted, and
    /// nothing where it is not ready or failed. What the writer answered is
    /// handed on.
    pub fn write_polled<E>(
        &self,
        counters: &mut SessionByteCounters,
        polled: Poll<Result<usize, E>>,
    ) -> (r: Poll<Result<usize, E>>)
        ensures
            r == polled,
            final(counters).tally() == old(counters).tally().moved(self.is_rx(), written(polled)),
    {
        if let Poll::Ready(Ok(accepted)) = &polled {
            self.count(counters, *accepted);
        }
        polled
    }

    pub fn is_write_vectored(&self) -> (r: bool)
        ensures
            r == self.is_vectored(),
    {
        self.vectored
    }
}

/// Counting piece by piece comes to the same as counting the whole.
pub proof fn lemma_counting_adds_up(counter: u64, a: nat, b: nat)
    ensures
        counted_up(counted_up(counter, a as int), b as int) == counted_up(counter, (a + b) as int),
{
    let m = 0x1_0000_0000_0000_0000int;
    vstd::arithmetic::div_mod::lemma_add_mod_noop(counter + a, b as int, m);
    vstd::arithmetic::div_mod::lemma_mod_twice(counter + a, m);
    vstd::arithmetic::div_mod::lemma_add_mod_noop((counter + a) % m, b as int, m);
}

/// Whatever is read and written through a session's halves, in whatever
/// order, each counter grows by the sum of what moved in its own direction;
/// below the limit it is that sum.
pub proof fn lemma_counters_are_sums<E>(start: Tally, calls: Seq<Call<E>>)
    ensures
        start.after(calls).tx == counted_up(start.tx, total(calls, false) as int),
        start.after(calls).rx == counted_up(start.rx, total(calls, true) as int),
        start.tx + total(calls, false) <= u64::MAX ==> start.after(calls).tx == start.tx + total(
            calls,
            false,
        ),
        start.rx + total(calls, true) <= u64::MAX ==> start.after(calls).rx == start.rx + total(
            calls,
            true,
        ),
    decreases calls.len(),
{
    if calls.len() > 0 {
        let so_far = calls.drop_last();
        lemma_counters_are_sums(start, so_far);
        lemma_counting_adds_up(start.tx, total(so_far, false), calls.last().bytes());
        lemma_counting_adds_up(start.rx, total(so_far, true), calls.last().bytes());
    }
}

/// A session at a glance. The time is in nanoseconds.
#[derive(Clone, Copy, Debug, PartialEq, Eq, Structural)]
pub struct SessionStats {
    pub live_streams: u64,
    pub opened_streams: u64,
    pub tx_bytes: u64,
    pub rx_bytes: u64,
    pub uptime: u64,
}

/// A rate of bytes over time.
#[derive(Clone, Copy, Debug, PartialEq, Eq, Structural)]
pub enum Rate {
    /// No time has passed, which is no rate at all.
    Zero,
    Over { bytes: u64, nanos: u64 },
}

pub open spec fn rate_of(bytes: u64, uptime: u64) -> Rate {
    if uptime == 0 {
        Rate::Zero
    } else {
        Rate::Over { bytes, nanos: uptime }
    }
}

fn rate(bytes: u64, uptime: u64) -> (r: Rate)
    ensures
        r == rate_of(bytes, uptime),
{
    if uptime > 0 {
        Rate::Over { bytes, nanos: uptime }
    } else {
        Rate::Zero
    }
}

/// The unit that a number of bytes is shown in.
#[derive(Clone, Copy, Debug, PartialEq, Eq, Structural)]
pub enum Unit {
    B,
    KiB,
    MiB,
    GiB,
    TiB,
}

impl Unit {
    pub open spec fn label(self) -> &'static str {
        match self {
            Unit::B => "B",
            Unit::KiB => "KiB",
            Unit::MiB => "MiB",
            Unit::GiB => "GiB",
            Unit::TiB => "TiB",
        }
    }

    /// The bytes in one of the unit.
    pub open spec fn size(self) -> nat {
        match self {
            Unit::B => 1,
            Unit::KiB => 1024,
            Unit::MiB => 1024 * 1024,
            Unit::GiB => 1024 * 1024 * 1024,
            Unit::TiB => 1024 * 1024 * 1024 * 1024,
        }
    }

    pub fn as_str(self) -> (r: &'static str)
        ensures
            r == self.label(),
    {
        match self {
            Unit::B => "B",
            Unit::KiB => "KiB",
            Unit::MiB => "MiB",
            Unit::GiB => "GiB",
            Unit::TiB => "TiB",
        }
    }

    pub fn bytes(self) -> (r: u64)
        ensures
            r == self.size(),
    {
        match self {
            Unit::B => 1,
            Unit::KiB => 1024,
            Unit::MiB => 1_048_576,
            Unit::GiB => 1_073_741_824,
            Unit::TiB => 1_099_511_627_776,
        }
    }

    /// How many digits after the point are shown: whole bytes have none.
    pub fn decimals(self) -> (r: usize)
        ensures
            r == if self == Unit::B {
                0usize
            } else {
                1
            },
    {
        if self == Unit::B {
            0
        } else {
            1
        }
    }

    /// The unit for a number of bytes, of which `whole` is the whole part:
    /// the least in which the number stays below 1024, or the greatest.
    pub fn of(whole: u128) -> (r: Unit)
        ensures
            r != Unit::TiB ==> whole < 1024 * r.size(),
            r != Unit::B ==> whole >= r.size(),
    {
        if whole < 1024 {
            Unit::B
        } else if whole < 1_048_576 {
            Unit::KiB
        } else if whole < 1_073_741_824 {
            Unit::MiB
        } else if whole < 1_099_511_627_776 {
            Unit::GiB
        } else {
            Unit::TiB
        }
    }
}

/// A number of bytes is shown in one unit only.
pub proof fn lemma_unit_is_unique(whole: nat, a: Unit, b: Unit)
    requires
        a != Unit::TiB ==> whole < 1024 * a.size(),
        a != Unit::B ==> whole >= a.size(),
        b != Unit::TiB ==> whole < 1024 * b.size(),
        b != Unit::B ==> whole >= b.size(),
    ensures
        a == b,
{
}

/// A number of bytes as it is shown: the numeral that its scaled value was
/// given, and the unit.
#[derive(Debug)]
pub struct HumanBytes {
    pub numeral: String,
    pub unit: Unit,
}

impl HumanBytes {
    pub open spec fn text(&self) -> Seq<char> {
        self.numeral@ + self.unit.label()@
    }

    fn push_to(&self, out: &mut String)
        ensures
            final(out)@ == old(out)@ + self.text(),
    {
        out.append(self.numeral.as_str());
        out.append(self.unit.as_str());
        proof {
            assert(out@ =~= old(out)@ + self.text());
        }
    }
}

impl SessionStats {
    pub fn tx_rate(&self) -> (r: Rate)
        ensures
            r == rate_of(self.tx_bytes, self.uptime),
    {
        rate(self.tx_bytes, self.uptime)
    }

    pub fn rx_rate(&self) -> (r: Rate)
        ensures
            r == rate_of(self.rx_bytes, self.uptime),
    {
        rate(self.rx_bytes, self.uptime)
    }

    /// The statistics as one line. Totals, rates and the time in seconds are
    /// given as they are to be shown.
    pub fn render(
        &self,
        tx: &HumanBytes,
        tx_rate: &HumanBytes,
        rx: &HumanBytes,
        rx_rate: &HumanBytes,
        up: &str,
    ) -> (r: String)
        ensures
            r@ == "streams="@ + decimal(self.live_streams as nat) + " live/"@ + decimal(
                self.opened_streams as nat,
            ) + " opened, tx="@ + tx.text() + " ("@ + tx_rate.text() + "/s), rx="@ + rx.text()
                + " ("@ + rx_rate.text() + "/s), up="@ + up@ + "s"@,
    {
        let mut out = owned("streams=");
        push_decimal(&mut out, self.live_streams as u128);
        out.append(" live/");
        push_decimal(&mut out, self.opened_streams as u128);
        out.append(" opened, tx=");
        tx.push_to(&mut out);
        out.append(" (");
        tx_rate.push_to(&mut out);
        out.append("/s), rx=");
        rx.push_to(&mut out);
        out.append(" (");
        rx_rate.push_to(&mut out);
        out.append("/s), up=");
        out.append(up);
        out.append("s");
        out
    }
}

/// A write counts what the writer accepted, and nothing where it is not ready
/// or failed; a read counts what it added to the buffer once it is ready,
/// failed or not, and nothing before.
pub proof fn lemma_calls_count_what_they_moved<E>(
    n: usize,
    error: E,
    failed: E,
    before: usize,
    after: usize,
)
    requires
        before <= after,
    ensures
        written(Poll::Ready(Ok::<usize, E>(n))) == n,
        written(Poll::Ready(Err::<usize, E>(error))) == 0,
        written(Poll::<Result<usize, E>>::Pending) == 0,
        before + filled(Poll::Ready(Ok::<(), E>(())), before, after) == after,
        before + filled(Poll::Ready(Err::<(), E>(failed)), before, after) == after,
        filled(Poll::<Result<(), E>>::Pending, before, after) == 0,
{
}

/// A direction that moves bytes leaves the other's count alone, and its own
/// grows by that number below the limit and starts over beyond it.
pub proof fn lemma_directions_are_counted_apart(tally: Tally, bytes: nat)
    ensures
        tally.moved(true, bytes).tx == tally.tx,
        tally.moved(false, bytes).rx == tally.rx,
        tally.rx + bytes <= u64::MAX ==> tally.moved(true, bytes).rx == tally.rx + bytes,
        tally.tx + bytes <= u64::MAX ==> tally.moved(false, bytes).tx == tally.tx + bytes,
        tally.rx + bytes == u64::MAX + 1 ==> tally.moved(true, bytes).rx == 0,
        tally.tx + bytes == u64::MAX + 1 ==> tally.moved(false, bytes).tx == 0,
{
}

/// A rate is the bytes over the time that they took, and none at all where no
/// time has passed.
pub proof fn lemma_a_rate_is_bytes_over_time(bytes: u64, uptime: u64)
    ensures
        rate_of(bytes, uptime) is Zero <==> uptime == 0,
        rate_of(bytes, uptime) matches Rate::Over { bytes: b, nanos } ==> b == bytes && nanos
            == uptime && nanos > 0,
{
}

/// Each unit is 1024 of the one before it, and a number of bytes ends with the
/// name of its unit.
pub proof fn lemma_units_grow_by_1024(shown: HumanBytes)
    ensures
        Unit::B.size() == 1,
        Unit::KiB.size() == 1024 * Unit::B.size(),
        Unit::MiB.size() == 1024 * Unit::KiB.size(),
        Unit::GiB.size() == 1024 * Unit::MiB.size(),
        Unit::TiB.size() == 1024 * Unit::GiB.size(),
        shown.text() == shown.numeral@ + (match shown.unit {
            Unit::B => "B",
            Unit::KiB => "KiB",
            Unit::MiB => "MiB",
            Unit::GiB => "GiB",
            Unit::TiB => "TiB",
        })@,
{
}

} // verus!
