//! Low-level SPI communication with a BlueNRG Bluetooth Low Energy co-processor.

pub mod bus;
pub mod driver;
pub mod laws;
pub mod protocol;

pub use bus::{BusEvent, Gpio, Spi};
pub use driver::BlueNrg;
pub use protocol::{decode_capacity, parse_header, SpiError, SPI_READ, SPI_WRITE, STATUS_READY};
