//! The status header that opens every SPI transaction, and how it is decoded.
use vstd::prelude::*;

verus! {

/// Opcode of a transaction that writes to the device.
pub const SPI_WRITE: u8 = 0x0A;

/// Opcode of a transaction that reads from the device (and of the status check).
pub const SPI_READ: u8 = 0x0B;

/// Status byte of a device that is ready for a transaction.
pub const STATUS_READY: u8 = 0x02;

/// Spi error codes.
#[derive(Clone, Copy, Debug, PartialEq, Eq, Structural)]
pub enum SpiError {
    /// Device is sleeping.
    SpiSleeping,
    /// Status is unknown.
    SpiUnknown(u8),
    /// Given buffer is too large; carries the size the device offered.
    SpiBufferSize(u16),
}

/// A 16-bit value sent high byte first.
pub open spec fn be16(hi: u8, lo: u8) -> u16 {
    (hi as int * 256 + lo as int) as u16
}

/// Whether a status byte means that the device is asleep.
pub open spec fn is_sleeping_status(status: u8) -> bool {
    status == 0x00 || status == 0xFF
}

/// What a status check reports for the five bytes of a header:
/// the write and read capacities when the device is ready, else why not.
pub open spec fn header_result(status: u8, w0: u8, w1: u8, r0: u8, r1: u8) -> Result<
    (u16, u16),
    SpiError,
> {
    if status == STATUS_READY {
        Ok((be16(w0, w1), be16(r0, r1)))
    } else if is_sleeping_status(status) {
        Err(SpiError::SpiSleeping)
    } else {
        Err(SpiError::SpiUnknown(status))
    }
}

/// Assembles a capacity from its two bytes, high byte first.
pub fn decode_capacity(hi: u8, lo: u8) -> (r: u16)
    ensures
        r == be16(hi, lo),
        r as int == hi as int * 256 + lo as int,
{
    let r = ((hi as u16) << 8u16) | (lo as u16);
    assert(((hi as u16) << 8u16) | (lo as u16) == (hi as u16) * 256 + (lo as u16)) by (bit_vector);
    r
}

/// Decodes the bytes a status check received: the status, then the write
/// capacity and the read capacity, each high byte first.
pub fn parse_header(status: u8, w0: u8, w1: u8, r0: u8, r1: u8) -> (r: Result<(u16, u16), SpiError>)
    ensures
        r == header_result(status, w0, w1, r0, r1),
{
    if status == STATUS_READY {
        Ok((decode_capacity(w0, w1), decode_capacity(r0, r1)))
    } else if status == 0x00 || status == 0xFF {
        Err(SpiError::SpiSleeping)
    } else {
        Err(SpiError::SpiUnknown(status))
    }
}

} // verus!
