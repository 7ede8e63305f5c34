//! Properties of the driver's protocol that relate several calls or every input.
use vstd::prelude::*;
use crate::bus::{check_outcome, got, is_check, is_poll, nth_check, BusEvent};
use crate::protocol::SpiError;

verus! {

/// A wake-up poll with `n` retries on a device that sleeps through every check
/// makes exactly `n + 1` checks, that is `n` retries, and returns the last
/// check's `SpiSleeping`.
pub proof fn lemma_poll_all_sleeping(d: Seq<BusEvent>, n: nat, r: Result<(u16, u16), SpiError>)
    requires
        is_poll(d, n, r),
        forall|i: int|
            0 <= i && 7 * i + 7 <= d.len() ==> check_outcome(#[trigger] nth_check(d, i))
                == Err::<(u16, u16), SpiError>(SpiError::SpiSleeping),
    ensures
        d.len() == 7 * (n + 1),
        r == Err::<(u16, u16), SpiError>(SpiError::SpiSleeping),
    decreases n,
{
    assert(nth_check(d, 0) =~= d.take(7));
    if n > 0 {
        let rest = d.skip(7);
        assert forall|i: int| 0 <= i && 7 * i + 7 <= rest.len() implies check_outcome(
            #[trigger] nth_check(rest, i),
        ) == Err::<(u16, u16), SpiError>(SpiError::SpiSleeping) by {
            assert(nth_check(rest, i) =~= nth_check(d, i + 1));
        }
        lemma_poll_all_sleeping(rest, (n - 1) as nat, r);
    }
}

/// In a wake-up poll, the first check that does not find the device asleep is
/// the last one made, and its result is the poll's result, unchanged.
pub proof fn lemma_poll_stops_at_answer(
    d: Seq<BusEvent>,
    n: nat,
    r: Result<(u16, u16), SpiError>,
    k: nat,
)
    requires
        is_poll(d, n, r),
        7 * k + 7 <= d.len(),
        check_outcome(nth_check(d, k as int)) != Err::<(u16, u16), SpiError>(
            SpiError::SpiSleeping,
        ),
    ensures
        d.len() == 7 * k + 7,
        r == check_outcome(nth_check(d, k as int)),
    decreases k,
{
    assert(nth_check(d, 0) =~= d.take(7));
    if k > 0 {
        let rest = d.skip(7);
        assert(nth_check(rest, k - 1) =~= nth_check(d, k as int));
        lemma_poll_stops_at_answer(rest, (n - 1) as nat, r, (k - 1) as nat);
    }
}

/// Two status checks that receive the same bytes are the same exchange on
/// the bus and report the same result: a check keeps no state of its own.
pub proof fn lemma_check_repeatable(d1: Seq<BusEvent>, d2: Seq<BusEvent>)
    requires
        is_check(d1),
        is_check(d2),
        forall|i: int| 1 <= i < 6 ==> got(#[trigger] d1[i]) == got(d2[i]),
    ensures
        d1 == d2,
        check_outcome(d1) == check_outcome(d2),
{
    assert(got(d1[1]) == got(d2[1]));
    assert(got(d1[2]) == got(d2[2]));
    assert(got(d1[3]) == got(d2[3]));
    assert(got(d1[4]) == got(d2[4]));
    assert(got(d1[5]) == got(d2[5]));
    assert(d1 =~= d2);
}

} // verus!
