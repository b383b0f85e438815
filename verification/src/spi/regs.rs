//! The registers that the SPI1 bring-up and transfer touch.
//!
//! Addresses are those of the secure alias.

use vstd::prelude::*;

verus! {

/// The secure alias of the clock controller.
pub const RCC_BASE: u32 = 0x5602_0C00;

/// The clock enables of the AHB2 bus.
pub const RCC_AHB2ENR1: u32 = 0x5602_0C8C;

/// The clock enables of the APB2 bus.
pub const RCC_APB2ENR: u32 = 0x5602_0CA4;

/// The GPIOA clock.
pub const RCC_AHB2ENR1_GPIOAEN: u32 = 0x0000_0001;

/// The SPI1 clock.
pub const RCC_APB2ENR_SPI1EN: u32 = 0x0000_1000;

/// The secure alias of GPIOA.
pub const GPIOA_BASE: u32 = 0x5202_0000;

/// The mode of each pin, two bits per pin.
pub const GPIOA_MODER: u32 = 0x5202_0000;

/// The output type of each pin, one bit per pin.
pub const GPIOA_OTYPER: u32 = 0x5202_0004;

/// The speed of each pin, two bits per pin.
pub const GPIOA_OSPEEDR: u32 = 0x5202_0008;

/// The pull of each pin, two bits per pin.
pub const GPIOA_PUPDR: u32 = 0x5202_000C;

/// The set half (low) and the reset half (high) of the outputs.
pub const GPIOA_BSRR: u32 = 0x5202_0018;

/// The alternate function of pins 0 to 7, four bits per pin.
pub const GPIOA_AFRL: u32 = 0x5202_0020;

/// Mode: alternate function.
pub const GPIO_MODER_ALTERNATE: u32 = 2;

/// Mode: general-purpose output.
pub const GPIO_MODER_OUTPUT: u32 = 1;

/// Speed: very high.
pub const GPIO_OSPEEDR_VERY_HIGH: u32 = 3;

/// Pull: pull-up.
pub const GPIO_PUPDR_PULLUP: u32 = 1;

/// Pull: no pull.
pub const GPIO_PUPDR_NONE: u32 = 0;

/// The alternate function of SPI1 on PA5, PA6 and PA7.
pub const GPIO_AF5: u32 = 5;

/// The chip select, PA4, active low.
pub const CS_PIN: u32 = 4;

/// The clock, PA5.
pub const SCK_PIN: u32 = 5;

/// The input from the secure element, PA6.
pub const MISO_PIN: u32 = 6;

/// The output to the secure element, PA7.
pub const MOSI_PIN: u32 = 7;

/// The secure alias of SPI1.
pub const SPI1_BASE: u32 = 0x5001_3000;

/// The control register.
pub const SPI1_CR1: u32 = 0x5001_3000;

/// The transfer size register.
pub const SPI1_CR2: u32 = 0x5001_3004;

/// The first configuration register.
pub const SPI1_CFG1: u32 = 0x5001_3008;

/// The second configuration register.
pub const SPI1_CFG2: u32 = 0x5001_300C;

/// The status register.
pub const SPI1_SR: u32 = 0x5001_3014;

/// The flag-clear register.
pub const SPI1_IFCR: u32 = 0x5001_3018;

/// The transmit data register, accessed by bytes.
pub const SPI1_TXDR: u32 = 0x5001_3020;

/// The receive data register, accessed by bytes.
pub const SPI1_RXDR: u32 = 0x5001_3030;

/// Peripheral enable. Clearing it flushes both FIFOs.
pub const SPI_CR1_SPE: u32 = 0x0000_0001;

/// The master suspends its clock before the receiver overruns.
pub const SPI_CR1_MASRX: u32 = 0x0000_0100;

/// Master transfer start.
pub const SPI_CR1_CSTART: u32 = 0x0000_0200;

/// The level of the internal slave select. High keeps it inactive.
pub const SPI_CR1_SSI: u32 = 0x0000_1000;

/// The transfer size. Zero selects an endless transfer.
pub const SPI_CR2_TSIZE_MASK: u32 = 0x0000_FFFF;

/// The frame size field.
pub const SPI_CFG1_DSIZE_MASK: u32 = 0x0000_001F;

/// Frame size: 8 bits, encoded as one less.
pub const SPI_CFG1_DSIZE_8BIT: u32 = 0x0000_0007;

/// The FIFO threshold field.
pub const SPI_CFG1_FTHLV_MASK: u32 = 0x0000_01E0;

/// FIFO threshold: one frame.
pub const SPI_CFG1_FTHLV_1DATA: u32 = 0;

/// The position of the baud-rate field.
pub const SPI_CFG1_MBR_SHIFT: u32 = 28;

/// The baud-rate field.
pub const SPI_CFG1_MBR_MASK: u32 = 0x7000_0000;

/// Baud rate: the kernel clock over 128.
pub const SPI_CFG1_MBR_DIV128: u32 = 0x6000_0000;

/// The communication mode field.
pub const SPI_CFG2_COMM_MASK: u32 = 0x0006_0000;

/// Communication mode: full duplex.
pub const SPI_CFG2_COMM_FULL_DUPLEX: u32 = 0;

/// Master mode.
pub const SPI_CFG2_MASTER: u32 = 0x0040_0000;

/// Bit order. Clear is MSB first.
pub const SPI_CFG2_LSBFRST: u32 = 0x0080_0000;

/// Clock phase. Clear captures on the first edge.
pub const SPI_CFG2_CPHA: u32 = 0x0100_0000;

/// Clock polarity. Clear idles low.
pub const SPI_CFG2_CPOL: u32 = 0x0200_0000;

/// Software slave management.
pub const SPI_CFG2_SSM: u32 = 0x0400_0000;

/// The slave-select output. Clear leaves the pin to the software chip select.
pub const SPI_CFG2_SSOE: u32 = 0x2000_0000;

/// The peripheral keeps its pins while it is disabled.
pub const SPI_CFG2_AFCNTR: u32 = 0x8000_0000;

/// A received frame can be read.
pub const SPI_SR_RXP: u32 = 0x0000_0001;

/// A frame to send can be written.
pub const SPI_SR_TXP: u32 = 0x0000_0002;

/// The receiver overran.
pub const SPI_SR_OVR: u32 = 0x0000_0040;

/// Mode fault: the master was selected while the internal slave select was low.
pub const SPI_SR_MODF: u32 = 0x0000_0200;

/// Clears the end-of-transfer flag.
pub const SPI_IFCR_EOTC: u32 = 0x0000_0008;

/// Clears the transmission-filled flag.
pub const SPI_IFCR_TXTFC: u32 = 0x0000_0010;

/// Clears the overrun flag.
pub const SPI_IFCR_OVRC: u32 = 0x0000_0040;

/// Clears the mode fault.
pub const SPI_IFCR_MODFC: u32 = 0x0000_0200;

/// The position of the two-bit field of `pin`.
pub fn field2_shift(pin: u32) -> (r: u32)
    requires
        pin < 16,
    ensures
        r == 2 * pin,
{
    pin * 2
}

/// The position of the four-bit field of `pin` in the alternate-function register.
pub fn afrl_shift(pin: u32) -> (r: u32)
    requires
        pin < 8,
    ensures
        r == 4 * pin,
{
    pin * 4
}

/// The bit that drives `pin` low.
pub fn bsrr_reset(pin: u32) -> (r: u32)
    requires
        pin < 16,
    ensures
        r == 1u32 << ((pin + 16) as u32),
{
    1u32 << (pin + 16)
}

/// The bit that drives `pin` high.
pub fn bsrr_set(pin: u32) -> (r: u32)
    requires
        pin < 16,
    ensures
        r == 1u32 << pin,
{
    1u32 << pin
}

} // verus!
