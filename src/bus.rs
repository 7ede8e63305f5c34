//! The two capabilities the driver runs on, and the record of what it did with them.
use vstd::prelude::*;
use crate::protocol::{be16, header_result, SpiError, SPI_READ, SPI_WRITE, STATUS_READY};

verus! {

/// A digital output pin: the line that selects the device while low.
pub trait Gpio {
    /// Drives the line high.
    fn set_high(&mut self);

    /// Drives the line low.
    fn set_low(&mut self);
}

/// A full-duplex SPI bus that exchanges one byte at a time.
pub trait Spi {
    /// Sends `value` and returns the byte received at the same time.
    fn transfer(&mut self, value: u8) -> u8;
}

/// One action of the driver on its capabilities.
pub enum BusEvent {
    /// The select line was driven high.
    High,
    /// The select line was driven low.
    Low,
    /// One byte exchange: `sent` went out, `got` came back.
    Transfer { sent: u8, got: u8 },
}

/// The byte that came back in an exchange (zero for a line event).
pub open spec fn got(e: BusEvent) -> u8 {
    match e {
        BusEvent::Transfer { got, .. } => got,
        _ => 0,
    }
}

/// Whether `e` is an exchange that sent `value`.
pub open spec fn sends(e: BusEvent, value: u8) -> bool {
    match e {
        BusEvent::Transfer { sent, .. } => sent == value,
        _ => false,
    }
}

/// `later` is `earlier` with events appended.
pub open spec fn extends(later: Seq<BusEvent>, earlier: Seq<BusEvent>) -> bool {
    earlier.len() <= later.len() && later.subrange(0, earlier.len() as int) == earlier
}

/// The events that `later` has after those of `earlier`.
pub open spec fn added(later: Seq<BusEvent>, earlier: Seq<BusEvent>) -> Seq<BusEvent> {
    later.subrange(earlier.len() as int, later.len() as int)
}

/// The select line ends high: the last event is `High`.
pub open spec fn ends_high(t: Seq<BusEvent>) -> bool {
    t.len() > 0 && t.last() == BusEvent::High
}

/// `d` opens with a header exchange under opcode `op`: the line goes low,
/// the opcode goes out, then four zero bytes.
pub open spec fn opens_with_header(d: Seq<BusEvent>, op: u8) -> bool {
    &&& d.len() >= 6
    &&& d[0] == BusEvent::Low
    &&& sends(d[1], op)
    &&& sends(d[2], 0)
    &&& sends(d[3], 0)
    &&& sends(d[4], 0)
    &&& sends(d[5], 0)
}

/// The status byte of a header exchange.
pub open spec fn status_of(d: Seq<BusEvent>) -> u8 {
    got(d[1])
}

/// The write capacity of a header exchange.
pub open spec fn write_capacity_of(d: Seq<BusEvent>) -> u16 {
    be16(got(d[2]), got(d[3]))
}

/// The read capacity of a header exchange.
pub open spec fn read_capacity_of(d: Seq<BusEvent>) -> u16 {
    be16(got(d[4]), got(d[5]))
}

/// `d` is one status check: a read header, then the line goes high.
pub open spec fn is_check(d: Seq<BusEvent>) -> bool {
    opens_with_header(d, SPI_READ) && d.len() == 7 && d[6] == BusEvent::High
}

/// What a status check with events `d` reports.
pub open spec fn check_outcome(d: Seq<BusEvent>) -> Result<(u16, u16), SpiError> {
    header_result(got(d[1]), got(d[2]), got(d[3]), got(d[4]), got(d[5]))
}

/// The `i`-th status check of a run of checks.
pub open spec fn nth_check(d: Seq<BusEvent>, i: int) -> Seq<BusEvent> {
    d.subrange(7 * i, 7 * i + 7)
}

/// `d` is a wake-up poll with `tries` retries left that returned `r`: a status
/// check, repeated while it reports a sleeping device and retries remain;
/// the last check gives the result.
pub open spec fn is_poll(d: Seq<BusEvent>, tries: nat, r: Result<(u16, u16), SpiError>) -> bool
    decreases tries,
{
    &&& d.len() >= 7
    &&& is_check(d.take(7))
    &&& if check_outcome(d.take(7)) == Err::<(u16, u16), SpiError>(SpiError::SpiSleeping) && tries > 0 {
        is_poll(d.skip(7), (tries - 1) as nat, r)
    } else {
        d.len() == 7 && r == check_outcome(d.take(7))
    }
}

/// `d` is `m` status checks in a row, each of which found the device asleep.
pub open spec fn sleeping_checks(d: Seq<BusEvent>, m: nat) -> bool
    decreases m,
{
    if m == 0 {
        d.len() == 0
    } else {
        &&& d.len() >= 7
        &&& is_check(d.take(7))
        &&& check_outcome(d.take(7)) == Err::<(u16, u16), SpiError>(SpiError::SpiSleeping)
        &&& sleeping_checks(d.skip(7), (m - 1) as nat)
    }
}

/// Appending one more check that found the device asleep.
pub(crate) proof fn lemma_sleeping_checks_push(pre: Seq<BusEvent>, m: nat, d: Seq<BusEvent>)
    requires
        sleeping_checks(pre, m),
        is_check(d),
        check_outcome(d) == Err::<(u16, u16), SpiError>(SpiError::SpiSleeping),
    ensures
        sleeping_checks(pre + d, m + 1),
    decreases m,
{
    if m == 0 {
        assert(pre + d =~= d);
        assert((pre + d).take(7) =~= d);
        assert((pre + d).skip(7) =~= Seq::<BusEvent>::empty());
        assert(sleeping_checks((pre + d).skip(7), 0));
    } else {
        lemma_sleeping_checks_push(pre.skip(7), (m - 1) as nat, d);
        assert((pre + d).take(7) =~= pre.take(7));
        assert((pre + d).skip(7) =~= pre.skip(7) + d);
    }
}

/// Checks that found the device asleep, put before a poll, make a longer poll.
pub(crate) proof fn lemma_poll_after_sleeping(
    pre: Seq<BusEvent>,
    m: nat,
    d: Seq<BusEvent>,
    k: nat,
    r: Result<(u16, u16), SpiError>,
)
    requires
        sleeping_checks(pre, m),
        is_poll(d, k, r),
    ensures
        is_poll(pre + d, m + k, r),
    decreases m,
{
    if m == 0 {
        assert(pre + d =~= d);
    } else {
        lemma_poll_after_sleeping(pre.skip(7), (m - 1) as nat, d, k, r);
        assert((pre + d).take(7) =~= pre.take(7));
        assert((pre + d).skip(7) =~= pre.skip(7) + d);
    }
}

/// `d` is one receive of a buffer that held `before` and holds `after`
/// once the call returned `r`.
pub open spec fn is_receive(
    d: Seq<BusEvent>,
    before: Seq<u8>,
    after: Seq<u8>,
    r: Result<(), SpiError>,
) -> bool {
    &&& opens_with_header(d, SPI_READ)
    &&& after.len() == before.len()
    &&& if status_of(d) != STATUS_READY {
        &&& d.len() == 7 && d[6] == BusEvent::High
        &&& after == before
        &&& r == Err::<(), SpiError>(SpiError::SpiUnknown(status_of(d)))
    } else if (read_capacity_of(d) as int) < before.len() {
        &&& d.len() == 7 && d[6] == BusEvent::High
        &&& after == before
        &&& r == Err::<(), SpiError>(SpiError::SpiBufferSize(read_capacity_of(d)))
    } else {
        &&& d.len() == 7 + before.len() && d.last() == BusEvent::High
        &&& forall|i: int|
            0 <= i < before.len() ==> #[trigger] d[6 + i] == (BusEvent::Transfer { sent: 0, got: after[i] })
        &&& r == Ok::<(), SpiError>(())
    }
}

/// `d` is one send of the bytes `data` that returned `r`.
pub open spec fn is_send(d: Seq<BusEvent>, data: Seq<u8>, r: Result<(), SpiError>) -> bool {
    &&& opens_with_header(d, SPI_WRITE)
    &&& if status_of(d) != STATUS_READY {
        &&& d.len() == 7 && d[6] == BusEvent::High
        &&& r == Err::<(), SpiError>(SpiError::SpiUnknown(status_of(d)))
    } else if (write_capacity_of(d) as int) < data.len() {
        &&& d.len() == 7 && d[6] == BusEvent::High
        &&& r == Err::<(), SpiError>(SpiError::SpiBufferSize(write_capacity_of(d)))
    } else {
        &&& d.len() == 7 + data.len() && d.last() == BusEvent::High
        &&& forall|i: int| 0 <= i < data.len() ==> #[trigger] sends(d[6 + i], data[i])
        &&& r == Ok::<(), SpiError>(())
    }
}

/// Appending one event to what `later` added to `earlier`.
pub(crate) proof fn lemma_added_push(later: Seq<BusEvent>, earlier: Seq<BusEvent>, e: BusEvent)
    requires
        extends(later, earlier),
    ensures
        extends(later.push(e), earlier),
        added(later.push(e), earlier) == added(later, earlier).push(e),
{
    assert(later.push(e).subrange(0, earlier.len() as int) =~= earlier);
    assert(added(later.push(e), earlier) =~= added(later, earlier).push(e));
}

/// What two steps added, one after the other.
pub(crate) proof fn lemma_added_twice(last: Seq<BusEvent>, mid: Seq<BusEvent>, first: Seq<BusEvent>)
    requires
        extends(last, mid),
        extends(mid, first),
    ensures
        extends(last, first),
        added(last, first) == added(mid, first) + added(last, mid),
{
    assert(last.subrange(0, first.len() as int) =~= mid.subrange(0, first.len() as int));
    assert(added(last, first) =~= added(mid, first) + added(last, mid));
}

/// Nothing is added to a sequence by itself.
pub(crate) proof fn lemma_added_none(t: Seq<BusEvent>)
    ensures
        extends(t, t),
        added(t, t) == Seq::<BusEvent>::empty(),
{
    assert(t.subrange(0, t.len() as int) =~= t);
    assert(added(t, t) =~= Seq::<BusEvent>::empty());
}

} // verus!
