use std::cell::RefCell;
use std::collections::VecDeque;
use std::rc::Rc;

use bluenrg::{decode_capacity, parse_header, BlueNrg, Gpio, Spi, SpiError};

/// A select line that records every level it is driven to.
#[derive(Clone, Default)]
struct Pin {
    levels: Rc<RefCell<Vec<bool>>>,
}

impl Gpio for Pin {
    fn set_high(&mut self) {
        self.levels.borrow_mut().push(true);
    }

    fn set_low(&mut self) {
        self.levels.borrow_mut().push(false);
    }
}

/// A bus that answers from a script (zero once it runs out) and records what was sent.
#[derive(Clone, Default)]
struct Bus {
    replies: Rc<RefCell<VecDeque<u8>>>,
    sent: Rc<RefCell<Vec<u8>>>,
}

impl Spi for Bus {
    fn transfer(&mut self, value: u8) -> u8 {
        self.sent.borrow_mut().push(value);
        self.replies.borrow_mut().pop_front().unwrap_or(0)
    }
}

fn driver(replies: &[u8]) -> (BlueNrg<Pin, Bus>, Pin, Bus) {
    let pin = Pin::default();
    let bus = Bus::default();
    bus.replies.borrow_mut().extend(replies.iter().copied());
    (BlueNrg::new(pin.clone(), bus.clone()), pin, bus)
}

fn last_level(pin: &Pin) -> Option<bool> {
    pin.levels.borrow().last().copied()
}

#[test]
fn new_deselects() {
    let (_dev, pin, bus) = driver(&[]);
    assert_eq!(*pin.levels.borrow(), vec![true]);
    assert!(bus.sent.borrow().is_empty());
}

#[test]
fn check_ready_returns_capacities() {
    let (mut dev, pin, bus) = driver(&[0x02, 0x01, 0x00, 0x12, 0x34]);
    assert_eq!(dev.check(), Ok((256, 0x1234)));
    assert_eq!(*bus.sent.borrow(), vec![0x0B, 0, 0, 0, 0]);
    assert_eq!(*pin.levels.borrow(), vec![true, false, true]);
}

#[test]
fn check_sleeping_statuses() {
    for status in [0x00u8, 0xFF] {
        let (mut dev, pin, _bus) = driver(&[status, 1, 2, 3, 4]);
        assert_eq!(dev.check(), Err(SpiError::SpiSleeping));
        assert_eq!(last_level(&pin), Some(true));
    }
}

#[test]
fn check_unknown_status() {
    let (mut dev, pin, _bus) = driver(&[0x05, 0, 1, 0, 1]);
    assert_eq!(dev.check(), Err(SpiError::SpiUnknown(0x05)));
    assert_eq!(*pin.levels.borrow(), vec![true, false, true]);
}

#[test]
fn every_status_byte_is_classified() {
    for status in 0..=255u8 {
        let expected = match status {
            0x02 => Ok((0x0102, 0x0304)),
            0x00 | 0xFF => Err(SpiError::SpiSleeping),
            other => Err(SpiError::SpiUnknown(other)),
        };
        assert_eq!(parse_header(status, 1, 2, 3, 4), expected);
        let (mut dev, _pin, _bus) = driver(&[status, 1, 2, 3, 4]);
        assert_eq!(dev.check(), expected);
    }
}

#[test]
fn capacity_is_big_endian() {
    assert_eq!(decode_capacity(0x01, 0x00), 256);
    assert_eq!(decode_capacity(0x00, 0x00), 0);
    assert_eq!(decode_capacity(0x00, 0x01), 1);
    assert_eq!(decode_capacity(0xFF, 0xFF), 0xFFFF);
    assert_eq!(decode_capacity(0x12, 0x34), 0x1234);
}

#[test]
fn check_repeated_gives_same_result() {
    let frame = [0x02u8, 0x00, 0x80, 0x00, 0x10];
    let mut script = Vec::new();
    for _ in 0..3 {
        script.extend_from_slice(&frame);
    }
    let (mut dev, _pin, bus) = driver(&script);
    let first = dev.check();
    assert_eq!(first, Ok((0x80, 0x10)));
    assert_eq!(dev.check(), first);
    assert_eq!(dev.check(), first);
    assert_eq!(*bus.sent.borrow(), [0x0B, 0, 0, 0, 0].repeat(3));
}

#[test]
fn wakeup_gives_up_after_all_retries() {
    let (mut dev, pin, bus) = driver(&[]);
    // The bus answers zero: the device always reports sleeping.
    assert_eq!(dev.wakeup(3), Err(SpiError::SpiSleeping));
    assert_eq!(bus.sent.borrow().len(), 5 * 4);
    assert_eq!(pin.levels.borrow().len(), 1 + 2 * 4);
    assert_eq!(last_level(&pin), Some(true));
}

#[test]
fn wakeup_with_no_retries_checks_once() {
    let (mut dev, _pin, bus) = driver(&[0xFF, 0, 0, 0, 0]);
    assert_eq!(dev.wakeup(0), Err(SpiError::SpiSleeping));
    assert_eq!(bus.sent.borrow().len(), 5);
}

#[test]
fn wakeup_stops_when_ready() {
    let mut script = vec![0x00, 0, 0, 0, 0, 0xFF, 0, 0, 0, 0];
    script.extend_from_slice(&[0x02, 0x00, 0x20, 0x00, 0x08]);
    script.extend_from_slice(&[0x00, 0, 0, 0, 0]);
    let (mut dev, _pin, bus) = driver(&script);
    assert_eq!(dev.wakeup(5), Ok((0x20, 0x08)));
    assert_eq!(bus.sent.borrow().len(), 15);
    assert_eq!(bus.replies.borrow().len(), 5);
}

#[test]
fn wakeup_returns_unknown_at_once() {
    let (mut dev, _pin, bus) = driver(&[0x00, 0, 0, 0, 0, 0x42, 0, 0, 0, 0]);
    assert_eq!(dev.wakeup(10), Err(SpiError::SpiUnknown(0x42)));
    assert_eq!(bus.sent.borrow().len(), 10);
}

#[test]
fn receive_buffer_too_large() {
    let (mut dev, pin, bus) = driver(&[0x02, 0x00, 0x00, 0x00, 0x05, 9, 9, 9]);
    let mut buf = [0xAAu8; 10];
    assert_eq!(dev.receive(&mut buf), Err(SpiError::SpiBufferSize(5)));
    assert_eq!(*bus.sent.borrow(), vec![0x0B, 0, 0, 0, 0]);
    assert_eq!(buf, [0xAA; 10]);
    assert_eq!(*pin.levels.borrow(), vec![true, false, true]);
}

#[test]
fn receive_fills_buffer_in_order() {
    let (mut dev, pin, bus) = driver(&[0x02, 0x00, 0x00, 0x00, 0x04, 10, 20, 30, 40, 50]);
    let mut buf = [0u8; 4];
    assert_eq!(dev.receive(&mut buf), Ok(()));
    assert_eq!(buf, [10, 20, 30, 40]);
    assert_eq!(*bus.sent.borrow(), vec![0x0B, 0, 0, 0, 0, 0, 0, 0, 0]);
    assert_eq!(*pin.levels.borrow(), vec![true, false, true]);
}

#[test]
fn receive_ignores_write_capacity() {
    let (mut dev, _pin, _bus) = driver(&[0x02, 0xFF, 0xFF, 0x00, 0x01, 7]);
    let mut buf = [0u8; 2];
    assert_eq!(dev.receive(&mut buf), Err(SpiError::SpiBufferSize(1)));
    let mut one = [0u8; 1];
    let (mut dev, _pin, _bus) = driver(&[0x02, 0x00, 0x00, 0x00, 0x01, 7]);
    assert_eq!(dev.receive(&mut one), Ok(()));
    assert_eq!(one, [7]);
}

#[test]
fn receive_sleeping_status_is_unknown() {
    let (mut dev, pin, bus) = driver(&[0x00, 0x00, 0x00, 0x00, 0x10]);
    let mut buf = [1u8; 3];
    assert_eq!(dev.receive(&mut buf), Err(SpiError::SpiUnknown(0x00)));
    assert_eq!(buf, [1; 3]);
    assert_eq!(bus.sent.borrow().len(), 5);
    assert_eq!(last_level(&pin), Some(true));
}

#[test]
fn receive_empty_buffer() {
    let (mut dev, pin, bus) = driver(&[0x02, 0, 0, 0, 0]);
    let mut buf: [u8; 0] = [];
    assert_eq!(dev.receive(&mut buf), Ok(()));
    assert_eq!(bus.sent.borrow().len(), 5);
    assert_eq!(last_level(&pin), Some(true));
}

#[test]
fn send_transfers_payload_in_order() {
    let (mut dev, pin, bus) = driver(&[0x02, 0x00, 0x03, 0x00, 0x00]);
    assert_eq!(dev.send(&[7, 8, 9]), Ok(()));
    assert_eq!(*bus.sent.borrow(), vec![0x0A, 0, 0, 0, 0, 7, 8, 9]);
    assert_eq!(*pin.levels.borrow(), vec![true, false, true]);
}

#[test]
fn send_buffer_too_large() {
    let (mut dev, pin, bus) = driver(&[0x02, 0x00, 0x02, 0x01, 0x00]);
    assert_eq!(dev.send(&[1, 2, 3]), Err(SpiError::SpiBufferSize(2)));
    assert_eq!(*bus.sent.borrow(), vec![0x0A, 0, 0, 0, 0]);
    assert_eq!(last_level(&pin), Some(true));
}

#[test]
fn send_non_ready_status_is_unknown() {
    for status in [0x00u8, 0xFF, 0x07] {
        let (mut dev, pin, bus) = driver(&[status, 0x01, 0x00, 0x00, 0x00]);
        assert_eq!(dev.send(&[1]), Err(SpiError::SpiUnknown(status)));
        assert_eq!(bus.sent.borrow().len(), 5);
        assert_eq!(*pin.levels.borrow(), vec![true, false, true]);
    }
}

#[test]
fn select_line_ends_high_on_every_outcome() {
    let cases: [(&[u8], usize); 3] = [
        (&[0x02, 0x00, 0x04, 0x00, 0x04], 4),
        (&[0x00, 0x00, 0x04, 0x00, 0x04], 4),
        (&[0x02, 0x00, 0x01, 0x00, 0x01], 4),
    ];
    for (script, len) in cases {
        let (mut dev, pin, _bus) = driver(script);
        let _ = dev.send(&vec![5u8; len]);
        assert_eq!(*pin.levels.borrow(), vec![true, false, true]);
        let (mut dev, pin, _bus) = driver(script);
        let mut buf = vec![0u8; len];
        let _ = dev.receive(&mut buf);
        assert_eq!(*pin.levels.borrow(), vec![true, false, true]);
    }
}
