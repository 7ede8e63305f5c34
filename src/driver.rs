//! The BlueNRG driver: status check, wake-up poll, receive and send.
use vstd::prelude::*;
use crate::bus::{
    added, check_outcome, ends_high, extends, is_check, is_poll, is_receive, is_send,
    lemma_added_none, lemma_added_push, lemma_added_twice, lemma_poll_after_sleeping,
    lemma_sleeping_checks_push, sends, sleeping_checks, BusEvent, Gpio, Spi,
};
use crate::protocol::{decode_capacity, parse_header, SpiError, SPI_READ, SPI_WRITE, STATUS_READY};

verus! {

/// BlueNRG driver.
///
/// It owns the select line and the bus. Besides them it keeps, for proofs
/// only, the sequence of every event it caused on them since it was made.
pub struct BlueNrg<G, S> {
    active: G,
    spi: S,
    events: Ghost<Seq<BusEvent>>,
}

impl<G: Gpio, S: Spi> BlueNrg<G, S> {
    /// Every event this driver caused on the select line and the bus, in order.
    pub closed spec fn trace(&self) -> Seq<BusEvent> {
        self.events@
    }

    /// Create a new BlueNRG driver instance; the select line is driven high.
    pub fn new(mut active: G, spi: S) -> (r: BlueNrg<G, S>)
        ensures
            r.trace() == seq![BusEvent::High],
    {
        active.set_high();
        let events: Ghost<Seq<BusEvent>> = Ghost(Seq::empty().push(BusEvent::High));
        BlueNrg { active, spi, events }
    }

    fn drive(&mut self, high: bool)
        ensures
            final(self).trace() == old(self).trace().push(
                if high {
                    BusEvent::High
                } else {
                    BusEvent::Low
                },
            ),
    {
        if high {
            self.active.set_high();
            self.events = Ghost(self.events@.push(BusEvent::High));
        } else {
            self.active.set_low();
            self.events = Ghost(self.events@.push(BusEvent::Low));
        }
    }

    fn exchange(&mut self, value: u8) -> (r: u8)
        ensures
            final(self).trace() == old(self).trace().push(BusEvent::Transfer { sent: value, got: r }),
    {
        let r = self.spi.transfer(value);
        self.events = Ghost(self.events@.push(BusEvent::Transfer { sent: value, got: r }));
        r
    }

    /// Selects the device and exchanges the five header bytes: `op`, then four
    /// zero bytes. Returns the five bytes received; the line stays low.
    fn header(&mut self, op: u8) -> (r: [u8; 5])
        ensures
            extends(final(self).trace(), old(self).trace()),
            added(final(self).trace(), old(self).trace()) == seq![
                BusEvent::Low,
                BusEvent::Transfer { sent: op, got: r[0] },
                BusEvent::Transfer { sent: 0, got: r[1] },
                BusEvent::Transfer { sent: 0, got: r[2] },
                BusEvent::Transfer { sent: 0, got: r[3] },
                BusEvent::Transfer { sent: 0, got: r[4] },
            ],
    {
        self.drive(false);
        let status = self.exchange(op);
        let b1 = self.exchange(0);
        let b2 = self.exchange(0);
        let b3 = self.exchange(0);
        let b4 = self.exchange(0);
        let r = [status, b1, b2, b3, b4];
        assert(added(self.trace(), old(self).trace()) =~= seq![
            BusEvent::Low,
            BusEvent::Transfer { sent: op, got: r[0] },
            BusEvent::Transfer { sent: 0, got: r[1] },
            BusEvent::Transfer { sent: 0, got: r[2] },
            BusEvent::Transfer { sent: 0, got: r[3] },
            BusEvent::Transfer { sent: 0, got: r[4] },
        ]);
        assert(self.trace().subrange(0, old(self).trace().len() as int) =~= old(self).trace());
        r
    }

    /// Check device status and return the maximum write/read data sizes.
    pub fn check(&mut self) -> (r: Result<(u16, u16), SpiError>)
        ensures
            extends(final(self).trace(), old(self).trace()),
            is_check(added(final(self).trace(), old(self).trace())),
            r == check_outcome(added(final(self).trace(), old(self).trace())),
            ends_high(final(self).trace()),
    {
        let h = self.header(SPI_READ);
        self.deselect(Ghost(old(self).trace()));
        parse_header(h[0], h[1], h[2], h[3], h[4])
    }

    /// Drives the select line high, ending the transaction that began at `start`.
    fn deselect(&mut self, start: Ghost<Seq<BusEvent>>)
        requires
            extends(old(self).trace(), start@),
        ensures
            extends(final(self).trace(), start@),
            added(final(self).trace(), start@) == added(old(self).trace(), start@).push(
                BusEvent::High,
            ),
            ends_high(final(self).trace()),
    {
        self.drive(true);
        proof {
            lemma_added_push(old(self).trace(), start@, BusEvent::High);
        }
    }

    /// Poll the device until it wakes up: check its status, and check again
    /// while it sleeps, at most `num_tries` more times. The last check's
    /// result is returned.
    pub fn wakeup(&mut self, num_tries: u32) -> (r: Result<(u16, u16), SpiError>)
        ensures
            extends(final(self).trace(), old(self).trace()),
            is_poll(added(final(self).trace(), old(self).trace()), num_tries as nat, r),
            ends_high(final(self).trace()),
    {
        let ghost start = self.trace();
        let mut tries: u32 = num_tries;
        proof {
            lemma_added_none(start);
        }
        loop
            invariant
                start == old(self).trace(),
                tries <= num_tries,
                extends(self.trace(), start),
                sleeping_checks(added(self.trace(), start), (num_tries - tries) as nat),
            decreases tries,
        {
            let ghost before = self.trace();
            let res = self.check();
            let ghost last = added(self.trace(), before);
            proof {
                lemma_added_twice(self.trace(), before, start);
            }
            let sleeping = matches!(res, Err(SpiError::SpiSleeping));
            if sleeping && tries > 0 {
                proof {
                    lemma_sleeping_checks_push(added(before, start), (num_tries - tries) as nat, last);
                }
                tries = tries - 1;
            } else {
                proof {
                    assert(last.take(7) =~= last);
                    lemma_poll_after_sleeping(
                        added(before, start),
                        (num_tries - tries) as nat,
                        last,
                        tries as nat,
                        res,
                    );
                }
                return res;
            }
        }
    }

    /// Receive data into the given buffer, which must be filled whole.
    pub fn receive(&mut self, buf: &mut [u8]) -> (r: Result<(), SpiError>)
        ensures
            extends(final(self).trace(), old(self).trace()),
            is_receive(added(final(self).trace(), old(self).trace()), old(buf)@, final(buf)@, r),
            ends_high(final(self).trace()),
    {
        let h = self.header(SPI_READ);
        let size = decode_capacity(h[3], h[4]);
        if h[0] != STATUS_READY {
            self.deselect(Ghost(old(self).trace()));
            Err(SpiError::SpiUnknown(h[0]))
        } else if (size as usize) < buf.len() {
            self.deselect(Ghost(old(self).trace()));
            Err(SpiError::SpiBufferSize(size))
        } else {
            let ghost base = self.trace();
            let n = buf.len();
            let mut i: usize = 0;
            proof {
                lemma_added_none(base);
            }
            while i < n
                invariant
                    n == buf@.len(),
                    n == old(buf)@.len(),
                    i <= n,
                    extends(self.trace(), base),
                    added(self.trace(), base).len() == i,
                    forall|j: int|
                        0 <= j < i ==> #[trigger] added(self.trace(), base)[j] == (BusEvent::Transfer {
                            sent: 0,
                            got: buf@[j],
                        }),
                decreases n - i,
            {
                let ghost before = self.trace();
                let b = self.exchange(0);
                proof {
                    lemma_added_push(before, base, BusEvent::Transfer { sent: 0, got: b });
                }
                buf[i] = b;
                i = i + 1;
            }
            proof {
                lemma_added_twice(self.trace(), base, old(self).trace());
            }
            self.deselect(Ghost(old(self).trace()));
            Ok(())
        }
    }

    /// Send data from the given buffer.
    pub fn send(&mut self, buf: &[u8]) -> (r: Result<(), SpiError>)
        ensures
            extends(final(self).trace(), old(self).trace()),
            is_send(added(final(self).trace(), old(self).trace()), buf@, r),
            ends_high(final(self).trace()),
    {
        let h = self.header(SPI_WRITE);
        let size = decode_capacity(h[1], h[2]);
        if h[0] != STATUS_READY {
            self.deselect(Ghost(old(self).trace()));
            Err(SpiError::SpiUnknown(h[0]))
        } else if (size as usize) < buf.len() {
            self.deselect(Ghost(old(self).trace()));
            Err(SpiError::SpiBufferSize(size))
        } else {
            let ghost base = self.trace();
            let n = buf.len();
            let mut i: usize = 0;
            proof {
                lemma_added_none(base);
            }
            while i < n
                invariant
                    n == buf@.len(),
                    i <= n,
                    extends(self.trace(), base),
                    added(self.trace(), base).len() == i,
                    forall|j: int| 0 <= j < i ==> #[trigger] sends(added(self.trace(), base)[j], buf@[j]),
                decreases n - i,
            {
                let ghost before = self.trace();
                let b = self.exchange(buf[i]);
                proof {
                    lemma_added_push(before, base, BusEvent::Transfer { sent: buf@[i as int], got: b });
                }
                i = i + 1;
            }
            proof {
                lemma_added_twice(self.trace(), base, old(self).trace());
            }
            self.deselect(Ghost(old(self).trace()));
            Ok(())
        }
    }
}

} // verus!
