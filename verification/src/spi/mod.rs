//! A blocking SPI1 master for the secure element, with a software chip select.
//!
//! [`device::Spi1Device`] is a polled master in mode 0, MSB first, 8-bit frames, with
//! the chip select on PA4. It goes through the register seam [`bus::SpiBusAccess`],
//! whose trace of accesses is what the contracts here speak of.

pub mod bus;
pub mod device;
pub mod laws;
pub mod regs;
