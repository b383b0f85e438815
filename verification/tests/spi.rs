//! The SPI1 bring-up and transfer, over a bus that plays a script.
//!
//! Configuration registers read back their last write. The status and the received
//! bytes come from queues that a test fills ahead of time. Writes are recorded in
//! order.

use std::collections::HashMap;
use std::collections::VecDeque;

use patina_key::spi::bus::SpiBusAccess;
use patina_key::spi::bus::Trace;
use patina_key::spi::device::Spi1Device;
use patina_key::spi::device::Spi1Error;
use patina_key::spi::device::SpiOperation;
use patina_key::spi::device::STATUS_POLL_TRIES;
use patina_key::spi::regs;

/// A recorded write.
#[derive(Debug, Clone, Copy, PartialEq, Eq)]
enum Write {
    Word { addr: u32, value: u32 },
    Byte { addr: u32, value: u8 },
}

/// A register bus that plays a script.
struct ScriptedBus {
    config: HashMap<u32, u32>,
    word_reads: HashMap<u32, VecDeque<u32>>,
    byte_reads: HashMap<u32, VecDeque<u8>>,
    writes: Vec<Write>,
    nops: u32,
    polls: u32,
}

impl ScriptedBus {
    fn new() -> Self {
        ScriptedBus {
            config: HashMap::new(),
            word_reads: HashMap::new(),
            byte_reads: HashMap::new(),
            writes: Vec::new(),
            nops: 0,
            polls: 0,
        }
    }

    fn script_word_reads(&mut self, addr: u32, values: &[u32]) {
        self.word_reads.entry(addr).or_default().extend(values.iter().copied());
    }

    fn script_byte_reads(&mut self, addr: u32, values: &[u8]) {
        self.byte_reads.entry(addr).or_default().extend(values.iter().copied());
    }

    fn writes(&self) -> &[Write] {
        &self.writes
    }

    fn first_word_write_index(&self, addr: u32) -> Option<usize> {
        self.writes
            .iter()
            .position(|w| matches!(w, Write::Word { addr: a, .. } if *a == addr))
    }

    fn last_word_value(&self, addr: u32) -> Option<u32> {
        self.writes.iter().rev().find_map(|w| match w {
            Write::Word { addr: a, value } if *a == addr => Some(*value),
            _ => None,
        })
    }

    /// The mode fault that silicon latches when the master is selected while the
    /// internal slave select is low: it drops MASTER and SPE until it is cleared.
    fn model_mode_fault(&mut self, addr: u32, value: u32) {
        if addr == regs::SPI1_CFG2 {
            let sets_master_with_ssm =
                value & regs::SPI_CFG2_MASTER != 0 && value & regs::SPI_CFG2_SSM != 0;
            let ssi_high =
                self.config.get(&regs::SPI1_CR1).copied().unwrap_or(0) & regs::SPI_CR1_SSI != 0;
            if sets_master_with_ssm && !ssi_high {
                *self.config.entry(regs::SPI1_SR).or_default() |= regs::SPI_SR_MODF;
                *self.config.entry(regs::SPI1_CFG2).or_default() &= !regs::SPI_CFG2_MASTER;
                *self.config.entry(regs::SPI1_CR1).or_default() &= !regs::SPI_CR1_SPE;
            }
        } else if addr == regs::SPI1_IFCR && value & regs::SPI_IFCR_MODFC != 0 {
            if let Some(sr) = self.config.get_mut(&regs::SPI1_SR) {
                *sr &= !regs::SPI_SR_MODF;
            }
        }
    }

    fn byte_writes(&self, addr: u32) -> Vec<u8> {
        self.writes
            .iter()
            .filter_map(|w| match w {
                Write::Byte { addr: a, value } if *a == addr => Some(*value),
                _ => None,
            })
            .collect()
    }
}

impl SpiBusAccess for ScriptedBus {
    // The ghost trace is never run.
    fn trace(&self) -> Trace {
        unreachable!()
    }

    fn read32(&mut self, addr: u32) -> u32 {
        if let Some(queue) = self.word_reads.get_mut(&addr) {
            self.polls += 1;
            return queue
                .pop_front()
                .expect("scripted word-read queue underflowed: an unscripted SR poll");
        }
        self.config.get(&addr).copied().unwrap_or(0)
    }

    fn write32(&mut self, addr: u32, value: u32) {
        self.config.insert(addr, value);
        self.writes.push(Write::Word { addr, value });
        self.model_mode_fault(addr, value);
    }

    fn read8(&mut self, addr: u32) -> u8 {
        let queue = self
            .byte_reads
            .get_mut(&addr)
            .expect("read8 of an unscripted address: program a byte-read queue first");
        queue
            .pop_front()
            .expect("scripted byte-read queue underflowed: an unscripted RXDR read")
    }

    fn write8(&mut self, addr: u32, value: u8) {
        self.writes.push(Write::Byte { addr, value });
    }

    fn nop(&mut self) {
        self.nops += 1;
    }
}

/// `SR` read returning both `TXP` and `RXP` set (a frame slot ready each poll).
const SR_READY: u32 = regs::SPI_SR_TXP | regs::SPI_SR_RXP;

/// Scripts enough `SR_READY` polls to clock `frames` bytes through the loop.
///
/// Each `transfer_byte` does one `TXP` wait and one `RXP` wait. Scripting two
/// ready reads per frame (plus a margin) keeps the loop from underflowing.
fn script_sr_ready(bus: &mut ScriptedBus, frames: usize) {
    let reads = vec![SR_READY; frames * 2 + 4];
    bus.script_word_reads(regs::SPI1_SR, &reads);
}

#[test]
fn init_enables_both_clocks_before_touching_spi() {
    let bus = ScriptedBus::new();
    let dev = Spi1Device::new(bus);
    let bus = consume(dev);

    let gpioa_clk = bus
        .first_word_write_index(regs::RCC_AHB2ENR1)
        .expect("GPIOA clock enable must be written");
    let spi1_clk = bus
        .first_word_write_index(regs::RCC_APB2ENR)
        .expect("SPI1 clock enable must be written");
    let first_cfg = bus
        .first_word_write_index(regs::SPI1_CFG1)
        .expect("SPI1 CFG1 must be written");

    // Both clocks come up before the SPI registers are configured.
    assert!(gpioa_clk < first_cfg, "GPIOA clock before SPI config");
    assert!(spi1_clk < first_cfg, "SPI1 clock before SPI config");
}

#[test]
fn init_sets_8bit_full_duplex_mode0_msb_software_cs() {
    let bus = ScriptedBus::new();
    let dev = Spi1Device::new(bus);
    let bus = consume(dev);

    let cfg1 = bus.last_word_value(regs::SPI1_CFG1).expect("CFG1 written");
    // DSIZE = 8-bit (N-1 = 7), 1-data FIFO threshold, /128 prescaler.
    assert_eq!(cfg1 & regs::SPI_CFG1_DSIZE_MASK, regs::SPI_CFG1_DSIZE_8BIT, "DSIZE 8-bit");
    assert_eq!(cfg1 & regs::SPI_CFG1_FTHLV_MASK, regs::SPI_CFG1_FTHLV_1DATA, "FTHLV 1-data");
    assert_eq!(cfg1 & regs::SPI_CFG1_MBR_MASK, regs::SPI_CFG1_MBR_DIV128, "MBR /128");

    let cfg2 = bus.last_word_value(regs::SPI1_CFG2).expect("CFG2 written");
    assert_ne!(cfg2 & regs::SPI_CFG2_MASTER, 0, "MASTER set");
    assert_eq!(
        cfg2 & regs::SPI_CFG2_COMM_MASK,
        regs::SPI_CFG2_COMM_FULL_DUPLEX,
        "full-duplex"
    );
    // SPI mode 0: CPOL and CPHA both clear. MSB-first: LSBFRST clear.
    assert_eq!(cfg2 & regs::SPI_CFG2_CPOL, 0, "CPOL clear (mode 0)");
    assert_eq!(cfg2 & regs::SPI_CFG2_CPHA, 0, "CPHA clear (mode 0)");
    assert_eq!(cfg2 & regs::SPI_CFG2_LSBFRST, 0, "MSB-first");
    // Software slave management on, hardware NSS output off (the CS is GPIO PA4).
    assert_ne!(cfg2 & regs::SPI_CFG2_SSM, 0, "SSM set");
    assert_eq!(cfg2 & regs::SPI_CFG2_SSOE, 0, "SSOE clear (no hardware NSS)");
}

#[test]
fn init_holds_ssi_and_runs_endless_then_enables_and_starts() {
    let bus = ScriptedBus::new();
    let dev = Spi1Device::new(bus);
    let bus = consume(dev);

    let cr1 = bus.last_word_value(regs::SPI1_CR1).expect("CR1 written");
    // Last CR1 state carries SSI (anti-MODF), SPE (enabled), CSTART (engine on).
    assert_ne!(cr1 & regs::SPI_CR1_SSI, 0, "SSI held high");
    assert_ne!(cr1 & regs::SPI_CR1_SPE, 0, "SPE enabled");
    assert_ne!(cr1 & regs::SPI_CR1_CSTART, 0, "CSTART started");

    let cr2 = bus.last_word_value(regs::SPI1_CR2).expect("CR2 written");
    // Endless transfer: TSIZE field cleared.
    assert_eq!(cr2 & regs::SPI_CR2_TSIZE_MASK, 0, "TSIZE = 0 (endless)");
}

#[test]
fn init_writes_ssi_high_before_selecting_master() {
    let bus = ScriptedBus::new();
    let dev = Spi1Device::new(bus);
    let bus = consume(dev);

    // The CR1 write that ORs in SSI must precede the CFG2 write that sets MASTER,
    // so the internal slave-select is high before the master is ever selected and
    // the mode-fault window never opens. Find the first CR1 write that carries SSI
    // and the first CFG2 write that carries MASTER, then assert SSI comes first.
    let ssi_idx = bus
        .writes()
        .iter()
        .position(|w| matches!(w, Write::Word { addr, value }
            if *addr == regs::SPI1_CR1 && *value & regs::SPI_CR1_SSI != 0))
        .expect("a CR1 write must set SSI");
    let master_idx = bus
        .writes()
        .iter()
        .position(|w| matches!(w, Write::Word { addr, value }
            if *addr == regs::SPI1_CFG2 && *value & regs::SPI_CFG2_MASTER != 0))
        .expect("a CFG2 write must set MASTER");
    assert!(ssi_idx < master_idx, "SSI written high before MASTER selected");
}

#[test]
fn init_never_latches_a_mode_fault() {
    let bus = ScriptedBus::new();
    let dev = Spi1Device::new(bus);
    let mut bus = consume(dev);

    let sr = bus.read32(regs::SPI1_SR);
    assert_eq!(sr & regs::SPI_SR_MODF, 0, "no mode fault latched after init");
}

#[test]
fn transaction_clears_mode_fault_in_the_ifcr_write() {
    let mut bus = ScriptedBus::new();
    script_sr_ready(&mut bus, 1);
    bus.script_byte_reads(regs::SPI1_RXDR, &[0x00]);
    let mut dev = Spi1Device::new(bus);

    dev.transaction(&mut [SpiOperation::Write(vec![0x42])])
        .expect("write transaction succeeds");

    let bus = consume(dev);
    // The per-transaction IFCR clear must carry MODFC alongside EOTC / TXTFC / OVRC,
    // so a latched mode fault is cleared each transaction as defense in depth.
    let ifcr = bus.last_word_value(regs::SPI1_IFCR).expect("IFCR written");
    assert_ne!(ifcr & regs::SPI_IFCR_MODFC, 0, "MODFC cleared");
    assert_ne!(ifcr & regs::SPI_IFCR_EOTC, 0, "EOTC cleared");
    assert_ne!(ifcr & regs::SPI_IFCR_TXTFC, 0, "TXTFC cleared");
    assert_ne!(ifcr & regs::SPI_IFCR_OVRC, 0, "OVRC cleared");
}

#[test]
fn init_programs_spi_pins_af5_and_cs_output() {
    let bus = ScriptedBus::new();
    let dev = Spi1Device::new(bus);
    let bus = consume(dev);

    let moder = bus.last_word_value(regs::GPIOA_MODER).expect("MODER written");
    // PA4 output, PA5/6/7 alternate function.
    assert_eq!(
        (moder >> regs::field2_shift(regs::CS_PIN)) & 0b11,
        regs::GPIO_MODER_OUTPUT,
        "PA4 output"
    );
    for pin in [regs::SCK_PIN, regs::MISO_PIN, regs::MOSI_PIN] {
        assert_eq!(
            (moder >> regs::field2_shift(pin)) & 0b11,
            regs::GPIO_MODER_ALTERNATE,
            "SPI pin alternate function"
        );
    }

    let afrl = bus.last_word_value(regs::GPIOA_AFRL).expect("AFRL written");
    for pin in [regs::SCK_PIN, regs::MISO_PIN, regs::MOSI_PIN] {
        assert_eq!(
            (afrl >> regs::afrl_shift(pin)) & 0xF,
            regs::GPIO_AF5,
            "SPI pin AF5"
        );
    }
}

#[test]
fn write_operation_sends_each_byte_and_toggles_cs() {
    let mut bus = ScriptedBus::new();
    script_sr_ready(&mut bus, 3);
    // A Write discards reads, but the loop still reads RXDR after each frame.
    bus.script_byte_reads(regs::SPI1_RXDR, &[0, 0, 0]);
    let mut dev = Spi1Device::new(bus);

    dev.transaction(&mut [SpiOperation::Write(vec![0xAA, 0xBB, 0xCC])])
        .expect("write transaction succeeds");

    let bus = consume(dev);
    assert_eq!(bus.byte_writes(regs::SPI1_TXDR), vec![0xAA, 0xBB, 0xCC], "TXDR bytes");
    // CS asserted (PA4 low) then released (PA4 high) within the transaction.
    let cs_writes: Vec<u32> = bus
        .writes()
        .iter()
        .filter_map(|w| match w {
            Write::Word { addr, value } if *addr == regs::GPIOA_BSRR => Some(*value),
            _ => None,
        })
        .collect();
    assert!(
        cs_writes.contains(&regs::bsrr_reset(regs::CS_PIN)),
        "CS asserted low during the transaction"
    );
    assert_eq!(
        cs_writes.last().copied(),
        Some(regs::bsrr_set(regs::CS_PIN)),
        "CS released high at the end"
    );
}

#[test]
fn transfer_in_place_returns_the_received_bytes() {
    let mut bus = ScriptedBus::new();
    script_sr_ready(&mut bus, 2);
    bus.script_byte_reads(regs::SPI1_RXDR, &[0x11, 0x22]);
    let mut dev = Spi1Device::new(bus);

    let mut operations = [SpiOperation::TransferInPlace(vec![0xF0, 0x0F])];
    dev.transaction(&mut operations)
        .expect("transfer-in-place succeeds");

    // The buffer now holds the scripted RXDR reads.
    assert_eq!(
        operations[0],
        SpiOperation::TransferInPlace(vec![0x11, 0x22]),
        "received bytes"
    );
    let bus = consume(dev);
    // The original buffer bytes were sent on MOSI.
    assert_eq!(bus.byte_writes(regs::SPI1_TXDR), vec![0xF0, 0x0F], "sent bytes");
}

#[test]
fn read_operation_clocks_dummy_and_stores_reads() {
    let mut bus = ScriptedBus::new();
    script_sr_ready(&mut bus, 2);
    bus.script_byte_reads(regs::SPI1_RXDR, &[0xDE, 0xAD]);
    let mut dev = Spi1Device::new(bus);

    let mut operations = [SpiOperation::Read(vec![0u8; 2])];
    dev.transaction(&mut operations).expect("read succeeds");

    assert_eq!(operations[0], SpiOperation::Read(vec![0xDE, 0xAD]), "stored reads");
    let bus = consume(dev);
    // A read clocks the dummy byte 0x00 per slot.
    assert_eq!(bus.byte_writes(regs::SPI1_TXDR), vec![0x00, 0x00], "dummy MOSI bytes");
}

#[test]
fn multi_operation_transaction_holds_one_cs_assertion() {
    let mut bus = ScriptedBus::new();
    // The L1 response read shape: a status TransferInPlace then a Read.
    script_sr_ready(&mut bus, 5);
    bus.script_byte_reads(regs::SPI1_RXDR, &[0x01, 0x10, 0x20, 0x30, 0x40]);
    let mut dev = Spi1Device::new(bus);

    let mut operations = [
        SpiOperation::TransferInPlace(vec![0xAA]),
        SpiOperation::Read(vec![0u8; 4]),
    ];
    dev.transaction(&mut operations)
        .expect("two-op transaction succeeds");

    assert_eq!(operations[0], SpiOperation::TransferInPlace(vec![0x01]), "status byte");
    assert_eq!(
        operations[1],
        SpiOperation::Read(vec![0x10, 0x20, 0x30, 0x40]),
        "frame bytes"
    );

    let bus = consume(dev);
    // Exactly one assert (PA4 low) and one release (PA4 high) for both operations.
    let asserts = bus
        .writes()
        .iter()
        .filter(|w| matches!(w, Write::Word { addr, value }
            if *addr == regs::GPIOA_BSRR && *value == regs::bsrr_reset(regs::CS_PIN)))
        .count();
    let releases = bus
        .writes()
        .iter()
        .filter(|w| matches!(w, Write::Word { addr, value }
            if *addr == regs::GPIOA_BSRR && *value == regs::bsrr_set(regs::CS_PIN)))
        .count();
    // One release also happens in init (CS idle high), so the transaction adds one.
    assert_eq!(asserts, 1, "single CS assertion for the whole transaction");
    assert_eq!(releases, 2, "init idle-high plus the transaction release");
}

#[test]
fn overrun_during_transfer_surfaces_and_releases_cs() {
    let mut bus = ScriptedBus::new();
    // First TXP poll is fine, then OVR is set: the wait short-circuits.
    bus.script_word_reads(
        regs::SPI1_SR,
        &[SR_READY, regs::SPI_SR_OVR],
    );
    bus.script_byte_reads(regs::SPI1_RXDR, &[0x00]);
    let mut dev = Spi1Device::new(bus);

    let err = dev
        .transaction(&mut [SpiOperation::Write(vec![0x55, 0x66])])
        .expect_err("overrun must surface");
    assert_eq!(err, Spi1Error::Overrun, "overrun mapped");

    let bus = consume(dev);
    // CS is released even on the error path.
    let last_bsrr = bus.writes().iter().rev().find_map(|w| match w {
        Write::Word { addr, value } if *addr == regs::GPIOA_BSRR => Some(*value),
        _ => None,
    });
    assert_eq!(last_bsrr, Some(regs::bsrr_set(regs::CS_PIN)), "CS released after fault");
}

#[test]
fn error_mid_transfer_leaves_the_engine_cleared_spe_off() {
    let mut bus = ScriptedBus::new();
    // First TXP poll is fine, then OVR is set so the wait short-circuits mid-byte.
    bus.script_word_reads(regs::SPI1_SR, &[SR_READY, regs::SPI_SR_OVR]);
    bus.script_byte_reads(regs::SPI1_RXDR, &[0x00]);
    let mut dev = Spi1Device::new(bus);

    dev.transaction(&mut [SpiOperation::Write(vec![0x55, 0x66])])
        .expect_err("overrun must surface");

    let bus = consume(dev);
    // The fail-closed drain clears SPE, so the LAST CR1 state observed is SPE = 0.
    // Only clearing SPE flushes the RxFIFO, so the next transaction re-arms from
    // an empty FIFO.
    let final_cr1 = bus.last_word_value(regs::SPI1_CR1).expect("CR1 written");
    assert_eq!(final_cr1 & regs::SPI_CR1_SPE, 0, "SPE cleared on the error path");
}

#[test]
fn transaction_rearms_the_engine_from_a_flushed_fifo() {
    let mut bus = ScriptedBus::new();
    script_sr_ready(&mut bus, 1);
    bus.script_byte_reads(regs::SPI1_RXDR, &[0x00]);
    let mut dev = Spi1Device::new(bus);

    dev.transaction(&mut [SpiOperation::Write(vec![0x77])])
        .expect("write transaction succeeds");

    let bus = consume(dev);
    // The re-arm runs INSIDE the transaction, before the CS assertion: clear SPE
    // (flush both FIFOs), re-write TSIZE = 0, set SPE, then CSTART. Locate the CS
    // assertion (the transaction boundary) and inspect the CR1 writes just before.
    let select_idx = bus
        .writes()
        .iter()
        .position(|w| matches!(w, Write::Word { addr, value }
            if *addr == regs::GPIOA_BSRR && *value == regs::bsrr_reset(regs::CS_PIN)))
        .expect("the transaction asserts CS");

    // The three CR1 writes immediately before the CS assertion are the re-arm. The
    // first clears SPE (the FIFO flush), the second re-sets SPE, the third sets
    // CSTART. Asserting this ordering proves the flush-then-re-arm sequence.
    let cr1_before_select: Vec<u32> = bus
        .writes()
        .iter()
        .take(select_idx)
        .filter_map(|w| match w {
            Write::Word { addr, value } if *addr == regs::SPI1_CR1 => Some(*value),
            _ => None,
        })
        .collect();
    let rearm = &cr1_before_select[cr1_before_select.len() - 3..];
    assert_eq!(rearm[0] & regs::SPI_CR1_SPE, 0, "re-arm clears SPE first (flush)");
    assert_ne!(rearm[1] & regs::SPI_CR1_SPE, 0, "re-arm then re-enables SPE");
    assert_ne!(rearm[2] & regs::SPI_CR1_CSTART, 0, "re-arm starts the engine (CSTART)");

    let final_cr1 = bus.last_word_value(regs::SPI1_CR1).expect("CR1 written");
    assert_ne!(final_cr1 & regs::SPI_CR1_SPE, 0, "engine left enabled (SPE)");
    assert_ne!(final_cr1 & regs::SPI_CR1_CSTART, 0, "master engine started (CSTART)");
}

#[test]
fn never_ready_status_times_out() {
    let mut bus = ScriptedBus::new();
    // SR never sets TXP: feed a large run of 0s so the bounded poll exhausts.
    let stuck = vec![0u32; 200_000];
    bus.script_word_reads(regs::SPI1_SR, &stuck);
    let mut dev = Spi1Device::new(bus);

    let err = dev
        .transaction(&mut [SpiOperation::Write(vec![0x01])])
        .expect_err("a stuck status must time out");
    assert_eq!(err, Spi1Error::Timeout, "timeout mapped");
}

/// Consumes the device to recover the scripted bus for assertions.
fn consume(dev: Spi1Device<ScriptedBus>) -> ScriptedBus {
    dev.into_bus()
}

#[test]
fn a_transfer_sends_the_longer_buffer_and_fills_the_shorter() {
    let mut bus = ScriptedBus::new();
    script_sr_ready(&mut bus, 3);
    bus.script_byte_reads(regs::SPI1_RXDR, &[0x11, 0x22, 0x33]);
    let mut dev = Spi1Device::new(bus);

    let mut operations = [SpiOperation::Transfer(vec![0; 2], vec![0xA1, 0xA2, 0xA3])];
    dev.transaction(&mut operations).expect("transfer succeeds");
    assert_eq!(
        operations[0],
        SpiOperation::Transfer(vec![0x11, 0x22], vec![0xA1, 0xA2, 0xA3])
    );
    assert_eq!(consume(dev).byte_writes(regs::SPI1_TXDR), vec![0xA1, 0xA2, 0xA3]);

    let mut bus = ScriptedBus::new();
    script_sr_ready(&mut bus, 3);
    bus.script_byte_reads(regs::SPI1_RXDR, &[0x11, 0x22, 0x33]);
    let mut dev = Spi1Device::new(bus);
    let mut operations = [SpiOperation::Transfer(vec![9; 3], vec![0xA1])];
    dev.transaction(&mut operations).expect("transfer succeeds");
    assert_eq!(operations[0], SpiOperation::Transfer(vec![0x11, 0x22, 0x33], vec![0xA1]));
    assert_eq!(consume(dev).byte_writes(regs::SPI1_TXDR), vec![0xA1, 0x00, 0x00]);
}

#[test]
fn a_delay_idles_one_instruction_per_nanosecond() {
    let mut dev = Spi1Device::new(ScriptedBus::new());
    let mut operations = [SpiOperation::DelayNs(37)];
    dev.transaction(&mut operations).expect("a delay succeeds");
    assert_eq!(operations[0], SpiOperation::DelayNs(37));
    let bus = consume(dev);
    assert_eq!(bus.nops, 37);
    assert!(bus.byte_writes(regs::SPI1_TXDR).is_empty());
}

#[test]
fn a_failed_operation_keeps_what_it_received_and_stops_the_rest() {
    let mut bus = ScriptedBus::new();
    bus.script_word_reads(regs::SPI1_SR, &[SR_READY, SR_READY, SR_READY, regs::SPI_SR_OVR]);
    bus.script_byte_reads(regs::SPI1_RXDR, &[0x5A]);
    let mut dev = Spi1Device::new(bus);
    let mut operations = [
        SpiOperation::Read(vec![0xEE; 3]),
        SpiOperation::Read(vec![0xDD; 2]),
    ];
    assert_eq!(dev.transaction(&mut operations), Err(Spi1Error::Overrun));
    assert_eq!(operations[0], SpiOperation::Read(vec![0x5A, 0xEE, 0xEE]));
    assert_eq!(operations[1], SpiOperation::Read(vec![0xDD, 0xDD]));
}

#[test]
fn an_overrun_wins_over_a_ready_flag() {
    let mut bus = ScriptedBus::new();
    bus.script_word_reads(regs::SPI1_SR, &[SR_READY | regs::SPI_SR_OVR]);
    let mut dev = Spi1Device::new(bus);
    assert_eq!(
        dev.transaction(&mut [SpiOperation::Write(vec![1])]),
        Err(Spi1Error::Overrun)
    );
    assert!(consume(dev).byte_writes(regs::SPI1_TXDR).is_empty());
}

#[test]
fn a_timeout_spends_the_poll_budget_and_no_more() {
    let mut bus = ScriptedBus::new();
    bus.script_word_reads(regs::SPI1_SR, &vec![0u32; 100_000]);
    let mut dev = Spi1Device::new(bus);
    assert_eq!(
        dev.transaction(&mut [SpiOperation::Write(vec![1])]),
        Err(Spi1Error::Timeout)
    );
    assert_eq!(consume(dev).polls, STATUS_POLL_TRIES);
}

#[test]
fn an_empty_transaction_still_toggles_the_chip_select() {
    let mut dev = Spi1Device::new(ScriptedBus::new());
    dev.transaction(&mut []).expect("nothing to fail");
    let bus = consume(dev);
    let n = bus.writes().len();
    assert_eq!(
        bus.writes()[n - 3..],
        [
            Write::Word { addr: regs::GPIOA_BSRR, value: 0x0010_0000 },
            Write::Word { addr: regs::GPIOA_BSRR, value: 0x0000_0010 },
            Write::Word { addr: regs::SPI1_IFCR, value: 0x0000_0258 },
        ]
    );
}

#[test]
fn the_bring_up_writes_exact_values_over_reset_registers() {
    let bus = consume(Spi1Device::new(ScriptedBus::new()));
    let word = |addr: u32, value: u32| Write::Word { addr, value };
    assert_eq!(
        bus.writes(),
        [
            word(regs::RCC_AHB2ENR1, 0x0000_0001),
            word(regs::RCC_APB2ENR, 0x0000_1000),
            word(regs::GPIOA_BSRR, 0x0000_0010),
            word(regs::GPIOA_AFRL, 0x5550_0000),
            word(regs::GPIOA_MODER, 0x0000_A900),
            word(regs::GPIOA_OTYPER, 0x0000_0000),
            word(regs::GPIOA_OSPEEDR, 0x0000_FF00),
            word(regs::GPIOA_PUPDR, 0x0000_1000),
            word(regs::SPI1_CR1, 0x0000_0000),
            word(regs::SPI1_CFG1, 0x6000_0007),
            word(regs::SPI1_CR1, 0x0000_1100),
            word(regs::SPI1_CFG2, 0x8440_0000),
            word(regs::SPI1_CR1, 0x0000_1100),
            word(regs::SPI1_CR2, 0x0000_0000),
            word(regs::SPI1_CR1, 0x0000_1101),
            word(regs::SPI1_CR1, 0x0000_1301),
        ]
    );
}
