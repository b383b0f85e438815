//! The blocking SPI1 master.
//!
//! Each frame both sends a byte and receives one: the driver polls for room, writes
//! the byte, polls for a frame and reads it. The chip select is asserted for a whole
//! transaction and released after it, on a fault too.

use vstd::prelude::*;

use crate::spi::bus::extends;
use crate::spi::bus::modified;
use crate::spi::bus::BusEvent;
use crate::spi::bus::SpiBusAccess;
use crate::spi::regs::afrl_shift;
use crate::spi::regs::bsrr_reset;
use crate::spi::regs::bsrr_set;
use crate::spi::regs::field2_shift;
use crate::spi::regs::CS_PIN;
use crate::spi::regs::GPIOA_AFRL;
use crate::spi::regs::GPIOA_BSRR;
use crate::spi::regs::GPIOA_MODER;
use crate::spi::regs::GPIOA_OSPEEDR;
use crate::spi::regs::GPIOA_OTYPER;
use crate::spi::regs::GPIOA_PUPDR;
use crate::spi::regs::GPIO_AF5;
use crate::spi::regs::GPIO_MODER_ALTERNATE;
use crate::spi::regs::GPIO_MODER_OUTPUT;
use crate::spi::regs::GPIO_OSPEEDR_VERY_HIGH;
use crate::spi::regs::GPIO_PUPDR_NONE;
use crate::spi::regs::GPIO_PUPDR_PULLUP;
use crate::spi::regs::MISO_PIN;
use crate::spi::regs::MOSI_PIN;
use crate::spi::regs::RCC_AHB2ENR1;
use crate::spi::regs::RCC_AHB2ENR1_GPIOAEN;
use crate::spi::regs::RCC_APB2ENR;
use crate::spi::regs::RCC_APB2ENR_SPI1EN;
use crate::spi::regs::SCK_PIN;
use crate::spi::regs::SPI1_CFG1;
use crate::spi::regs::SPI1_CFG2;
use crate::spi::regs::SPI1_CR1;
use crate::spi::regs::SPI1_CR2;
use crate::spi::regs::SPI1_IFCR;
use crate::spi::regs::SPI1_RXDR;
use crate::spi::regs::SPI1_SR;
use crate::spi::regs::SPI1_TXDR;
use crate::spi::regs::SPI_CFG1_DSIZE_8BIT;
use crate::spi::regs::SPI_CFG1_DSIZE_MASK;
use crate::spi::regs::SPI_CFG1_FTHLV_1DATA;
use crate::spi::regs::SPI_CFG1_FTHLV_MASK;
use crate::spi::regs::SPI_CFG1_MBR_DIV128;
use crate::spi::regs::SPI_CFG1_MBR_MASK;
use crate::spi::regs::SPI_CFG2_AFCNTR;
use crate::spi::regs::SPI_CFG2_COMM_FULL_DUPLEX;
use crate::spi::regs::SPI_CFG2_COMM_MASK;
use crate::spi::regs::SPI_CFG2_CPHA;
use crate::spi::regs::SPI_CFG2_CPOL;
use crate::spi::regs::SPI_CFG2_LSBFRST;
use crate::spi::regs::SPI_CFG2_MASTER;
use crate::spi::regs::SPI_CFG2_SSM;
use crate::spi::regs::SPI_CFG2_SSOE;
use crate::spi::regs::SPI_CR1_CSTART;
use crate::spi::regs::SPI_CR1_MASRX;
use crate::spi::regs::SPI_CR1_SPE;
use crate::spi::regs::SPI_CR1_SSI;
use crate::spi::regs::SPI_CR2_TSIZE_MASK;
use crate::spi::regs::SPI_IFCR_EOTC;
use crate::spi::regs::SPI_IFCR_MODFC;
use crate::spi::regs::SPI_IFCR_OVRC;
use crate::spi::regs::SPI_IFCR_TXTFC;
use crate::spi::regs::SPI_SR_OVR;
use crate::spi::regs::SPI_SR_RXP;
use crate::spi::regs::SPI_SR_TXP;

verus! {

/// A bus-side fault of the driver.
#[derive(Debug, Clone, Copy, PartialEq, Eq, Structural)]
pub enum Spi1Error {
    /// A status flag never settled within the poll budget.
    Timeout,
    /// The receiver overran.
    Overrun,
}

/// The poll budget of one wait: a stuck peripheral cannot hang the driver.
pub const STATUS_POLL_TRIES: u32 = 100_000;

/// The byte sent while reading. The chip ignores it.
pub const READ_DUMMY: u8 = 0x00;

/// The write that asserts the chip select.
pub const CS_LOW: u32 = 0x0010_0000;

/// The write that releases the chip select.
pub const CS_HIGH: u32 = 0x0000_0010;

/// The flags that every transaction clears: end of transfer, transmission filled,
/// overrun and mode fault.
pub const CLEARED_FLAGS: u32 = 0x0000_0258;

/// One operation of a transaction.
#[derive(Debug, PartialEq, Eq)]
pub enum SpiOperation {
    /// Fills the buffer with received bytes.
    Read(Vec<u8>),
    /// Sends the buffer and drops what is received.
    Write(Vec<u8>),
    /// Sends the second buffer and fills the first.
    Transfer(Vec<u8>, Vec<u8>),
    /// Sends the buffer and fills it with what is received.
    TransferInPlace(Vec<u8>),
    /// Waits, roughly, for some nanoseconds.
    DelayNs(u32),
}

/// What an operation holds.
#[verifier::ext_equal]
pub ghost enum OpView {
    Read(Seq<u8>),
    Write(Seq<u8>),
    Transfer(Seq<u8>, Seq<u8>),
    TransferInPlace(Seq<u8>),
    DelayNs(u32),
}

impl SpiOperation {
    /// What the operation holds.
    pub open spec fn view(&self) -> OpView {
        match self {
            SpiOperation::Read(buf) => OpView::Read(buf@),
            SpiOperation::Write(buf) => OpView::Write(buf@),
            SpiOperation::Transfer(read, write) => OpView::Transfer(read@, write@),
            SpiOperation::TransferInPlace(buf) => OpView::TransferInPlace(buf@),
            SpiOperation::DelayNs(ns) => OpView::DelayNs(*ns),
        }
    }
}

/// The byte at `i`, or the dummy past the end.
pub open spec fn padded(bytes: Seq<u8>, i: int) -> u8 {
    if i < bytes.len() {
        bytes[i]
    } else {
        READ_DUMMY
    }
}

/// How many frames a transfer of two buffers clocks.
pub open spec fn longer(a: nat, b: nat) -> nat {
    if a >= b {
        a
    } else {
        b
    }
}

/// `bytes` with its first bytes replaced by `rx`, as far as it reaches.
pub open spec fn filled(bytes: Seq<u8>, rx: Seq<u8>) -> Seq<u8> {
    Seq::new(
        bytes.len(),
        |i: int|
            if i < rx.len() {
                rx[i]
            } else {
                bytes[i]
            },
    )
}

impl OpView {
    /// The bytes the operation sends.
    pub open spec fn sent(self) -> Seq<u8> {
        match self {
            OpView::Read(buf) => Seq::new(buf.len(), |i: int| READ_DUMMY),
            OpView::Write(buf) => buf,
            OpView::Transfer(read, write) => Seq::new(
                longer(read.len(), write.len()),
                |i: int| padded(write, i),
            ),
            OpView::TransferInPlace(buf) => buf,
            OpView::DelayNs(ns) => Seq::empty(),
        }
    }

    /// The operation after it received `rx`.
    pub open spec fn received(self, rx: Seq<u8>) -> OpView {
        match self {
            OpView::Read(buf) => OpView::Read(filled(buf, rx)),
            OpView::Write(buf) => OpView::Write(buf),
            OpView::Transfer(read, write) => OpView::Transfer(filled(read, rx), write),
            OpView::TransferInPlace(buf) => OpView::TransferInPlace(filled(buf, rx)),
            OpView::DelayNs(ns) => OpView::DelayNs(ns),
        }
    }

    /// For how many instructions the operation idles.
    pub open spec fn idles(self) -> nat {
        match self {
            OpView::DelayNs(ns) => ns as nat,
            _ => 0,
        }
    }
}

/// The access is a poll of the status.
pub open spec fn polls(e: BusEvent) -> bool {
    e matches BusEvent::Read32(addr, _) && addr == SPI1_SR
}

/// The access is a poll that shows neither an overrun nor all of `mask`.
pub open spec fn undecided(e: BusEvent, mask: u32) -> bool {
    e matches BusEvent::Read32(addr, value) && addr == SPI1_SR && value & SPI_SR_OVR == 0 && value
        & mask != mask
}

/// The accesses `[from, to)` wait for `mask`: they poll until a poll decides, within
/// the budget. An overrun decides first.
pub open spec fn waited(
    t: Seq<BusEvent>,
    from: int,
    to: int,
    mask: u32,
    r: Result<(), Spi1Error>,
) -> bool {
    &&& from <= to <= t.len()
    &&& to - from <= STATUS_POLL_TRIES
    &&& forall|i: int| from <= i < to ==> polls(#[trigger] t[i])
    &&& forall|i: int| from <= i < to - 1 ==> undecided(#[trigger] t[i], mask)
    &&& match r {
        Ok(_) => from < to && (t[to - 1] matches BusEvent::Read32(_, value) && value & SPI_SR_OVR
            == 0 && value & mask == mask),
        Err(Spi1Error::Overrun) => from < to && (t[to - 1] matches BusEvent::Read32(_, value)
            && value & SPI_SR_OVR != 0),
        Err(Spi1Error::Timeout) => to - from == STATUS_POLL_TRIES && undecided(t[to - 1], mask),
    }
}

/// The accesses `[from, to)` clock one frame: the byte is sent when there is room,
/// and the received byte is read when it is there.
pub open spec fn framed(
    t: Seq<BusEvent>,
    from: int,
    to: int,
    tx: u8,
    r: Result<u8, Spi1Error>,
) -> bool {
    match r {
        Ok(rx) => exists|mid: int| #[trigger]
            waited(t, from, mid, SPI_SR_TXP, Ok(())) && sent_and_read(t, mid, to, tx, rx),
        Err(e) => waited(t, from, to, SPI_SR_TXP, Err(e)) || exists|mid: int| #[trigger]
            waited(t, from, mid, SPI_SR_TXP, Ok(())) && sent_and_lost(t, mid, to, tx, e),
    }
}

/// The accesses `[mid, to)` write `tx`, wait for a frame and read `rx`.
pub open spec fn sent_and_read(t: Seq<BusEvent>, mid: int, to: int, tx: u8, rx: u8) -> bool {
    &&& mid + 1 < to <= t.len()
    &&& t[mid] == BusEvent::Write8(SPI1_TXDR, tx)
    &&& waited(t, mid + 1, to - 1, SPI_SR_RXP, Ok(()))
    &&& t[to - 1] == BusEvent::Read8(SPI1_RXDR, rx)
}

/// The accesses `[mid, to)` write `tx` and wait for a frame in vain.
pub open spec fn sent_and_lost(t: Seq<BusEvent>, mid: int, to: int, tx: u8, e: Spi1Error) -> bool {
    &&& mid < to <= t.len()
    &&& t[mid] == BusEvent::Write8(SPI1_TXDR, tx)
    &&& waited(t, mid + 1, to, SPI_SR_RXP, Err(e))
}

/// The accesses `[from, to)` clock one frame for each byte of `tx`, in order, and
/// receive `rx`.
pub open spec fn clocked(
    t: Seq<BusEvent>,
    from: int,
    to: int,
    tx: Seq<u8>,
    rx: Seq<u8>,
) -> bool
    decreases tx.len(),
{
    &&& tx.len() == rx.len()
    &&& if tx.len() == 0 {
        from == to
    } else {
        exists|mid: int|
            clocked(t, from, mid, tx.drop_last(), rx.drop_last()) && #[trigger] framed(
                t,
                mid,
                to,
                tx.last(),
                Ok(rx.last()),
            )
    }
}

/// The accesses `[from, to)` clock `tx` until the frame behind `rx` fails with `e`.
pub open spec fn broke_off(
    t: Seq<BusEvent>,
    from: int,
    to: int,
    tx: Seq<u8>,
    rx: Seq<u8>,
    e: Spi1Error,
) -> bool {
    &&& rx.len() < tx.len()
    &&& exists|mid: int|
        clocked(t, from, mid, tx.take(rx.len() as int), rx) && #[trigger] framed(
            t,
            mid,
            to,
            tx[rx.len() as int],
            Err(e),
        )
}

/// The accesses `[from, to)` idle for `count` instructions.
pub open spec fn idled(t: Seq<BusEvent>, from: int, to: int, count: nat) -> bool {
    &&& to == from + count
    &&& to <= t.len()
    &&& forall|i: int| from <= i < to ==> #[trigger] t[i] == BusEvent::Nop
}

/// The accesses `[from, to)` run an operation, which `post` shows.
pub open spec fn op_ran(
    t: Seq<BusEvent>,
    from: int,
    to: int,
    pre: OpView,
    post: OpView,
    r: Result<(), Spi1Error>,
) -> bool {
    if pre is DelayNs {
        r is Ok && post == pre && idled(t, from, to, pre.idles())
    } else {
        match r {
            Ok(_) => exists|rx: Seq<u8>| #[trigger]
                clocked(t, from, to, pre.sent(), rx) && post == pre.received(rx),
            Err(e) => exists|rx: Seq<u8>| #[trigger]
                broke_off(t, from, to, pre.sent(), rx, e) && post == pre.received(rx),
        }
    }
}

/// The accesses `[from, to)` run every operation.
pub open spec fn all_ran(
    t: Seq<BusEvent>,
    from: int,
    to: int,
    pre: Seq<OpView>,
    post: Seq<OpView>,
) -> bool
    decreases pre.len(),
{
    &&& pre.len() == post.len()
    &&& if pre.len() == 0 {
        from == to
    } else {
        exists|mid: int|
            all_ran(t, from, mid, pre.drop_last(), post.drop_last()) && #[trigger] op_ran(
                t,
                mid,
                to,
                pre.last(),
                post.last(),
                Ok(()),
            )
    }
}

/// The accesses `[from, to)` run the operations up to one that fails with `e`. Those
/// behind it are untouched.
pub open spec fn ran_until(
    t: Seq<BusEvent>,
    from: int,
    to: int,
    pre: Seq<OpView>,
    post: Seq<OpView>,
    failed: int,
    e: Spi1Error,
) -> bool {
    &&& pre.len() == post.len()
    &&& 0 <= failed < pre.len()
    &&& exists|mid: int|
        all_ran(t, from, mid, pre.take(failed), post.take(failed)) && #[trigger] op_ran(
            t,
            mid,
            to,
            pre[failed],
            post[failed],
            Err(e),
        )
    &&& forall|i: int| failed < i < pre.len() ==> #[trigger] post[i] == pre[i]
}

/// The accesses `[from, to)` run operations.
pub open spec fn ops_ran(
    t: Seq<BusEvent>,
    from: int,
    to: int,
    pre: Seq<OpView>,
    post: Seq<OpView>,
    r: Result<(), Spi1Error>,
) -> bool {
    match r {
        Ok(_) => all_ran(t, from, to, pre, post),
        Err(e) => exists|failed: int| #[trigger] ran_until(t, from, to, pre, post, failed, e),
    }
}

/// The accesses at `at` enable the clocks of GPIOA and SPI1.
pub open spec fn clocks_enabled(t: Seq<BusEvent>, at: int) -> bool {
    &&& modified(t, at, RCC_AHB2ENR1, 0, RCC_AHB2ENR1_GPIOAEN)
    &&& modified(t, at + 2, RCC_APB2ENR, 0, RCC_APB2ENR_SPI1EN)
}

/// The accesses at `at` release the chip select, give PA5 to PA7 to SPI1 and make
/// PA4 an output, all push-pull and fast, with a pull-up on the input.
pub open spec fn gpio_configured(t: Seq<BusEvent>, at: int) -> bool {
    &&& t[at] == BusEvent::Write32(GPIOA_BSRR, CS_HIGH)
    &&& modified(t, at + 1, GPIOA_AFRL, 0xFFF0_0000, 0x5550_0000)
    &&& modified(t, at + 3, GPIOA_MODER, 0x0000_FF00, 0x0000_A900)
    &&& modified(t, at + 5, GPIOA_OTYPER, 0x0000_00F0, 0)
    &&& modified(t, at + 7, GPIOA_OSPEEDR, 0x0000_FF00, 0x0000_FF00)
    &&& modified(t, at + 9, GPIOA_PUPDR, 0x0000_FF00, 0x0000_1000)
}

/// The accesses at `at` restart the engine: disable, which flushes both FIFOs, select
/// the endless transfer, enable, start.
pub open spec fn rearmed(t: Seq<BusEvent>, at: int) -> bool {
    &&& modified(t, at, SPI1_CR1, SPI_CR1_SPE, 0)
    &&& modified(t, at + 2, SPI1_CR2, SPI_CR2_TSIZE_MASK, 0)
    &&& modified(t, at + 4, SPI1_CR1, 0, SPI_CR1_SPE)
    &&& modified(t, at + 6, SPI1_CR1, 0, SPI_CR1_CSTART)
}

/// The accesses at `at` set the engine up, disabled, and start it: 8-bit frames, one
/// frame of threshold, the slow clock, the internal select high before the master is
/// selected, then master, full duplex, mode 0, MSB first, software select.
pub open spec fn spi_configured(t: Seq<BusEvent>, at: int) -> bool {
    &&& modified(t, at, SPI1_CR1, SPI_CR1_SPE, 0)
    &&& modified(t, at + 2, SPI1_CFG1, 0x7000_01FF, 0x6000_0007)
    &&& modified(t, at + 4, SPI1_CR1, 0, 0x0000_1100)
    &&& modified(t, at + 6, SPI1_CFG2, 0xA7C6_0000, 0x8440_0000)
    &&& rearmed(t, at + 8)
}

/// The accesses at `at` bring the device up.
pub open spec fn brought_up(t: Seq<BusEvent>, at: int) -> bool {
    &&& clocks_enabled(t, at)
    &&& gpio_configured(t, at + 4)
    &&& spi_configured(t, at + 15)
}

/// The accesses `[from, to)` are a transaction: restart the engine, assert the chip
/// select, run the operations up to `mid`, release it, clear the flags. A failed one
/// then disables the engine, which flushes it.
pub open spec fn transacted(
    t: Seq<BusEvent>,
    from: int,
    mid: int,
    to: int,
    pre: Seq<OpView>,
    post: Seq<OpView>,
    r: Result<(), Spi1Error>,
) -> bool {
    &&& rearmed(t, from)
    &&& t[from + 8] == BusEvent::Write32(GPIOA_BSRR, CS_LOW)
    &&& from + 9 <= mid
    &&& ops_ran(t, from + 9, mid, pre, post, r)
    &&& t[mid] == BusEvent::Write32(GPIOA_BSRR, CS_HIGH)
    &&& t[mid + 1] == BusEvent::Write32(SPI1_IFCR, CLEARED_FLAGS)
    &&& match r {
        Ok(_) => to == mid + 2,
        Err(_) => to == mid + 4 && modified(t, mid + 2, SPI1_CR1, SPI_CR1_SPE, 0),
    }
    &&& to <= t.len()
}

/// What the operations of a list hold.
pub open spec fn views(operations: Seq<SpiOperation>) -> Seq<OpView> {
    Seq::new(operations.len(), |i: int| operations[i].view())
}

/// `post` has the accesses of `pre`, and more behind them.
pub open spec fn grown(pre: Seq<BusEvent>, post: Seq<BusEvent>) -> bool {
    &&& pre.len() <= post.len()
    &&& forall|i: int| 0 <= i < pre.len() ==> #[trigger] post[i] == pre[i]
}

/// A wait stays a wait as the trace grows.
proof fn lemma_waited_grows(
    pre: Seq<BusEvent>,
    post: Seq<BusEvent>,
    from: int,
    to: int,
    mask: u32,
    r: Result<(), Spi1Error>,
)
    requires
        0 <= from,
        grown(pre, post),
        waited(pre, from, to, mask, r),
    ensures
        waited(post, from, to, mask, r),
{
    assert forall|i: int| from <= i < to implies polls(#[trigger] post[i]) by {
        assert(polls(pre[i]));
    }
    assert forall|i: int| from <= i < to - 1 implies undecided(#[trigger] post[i], mask) by {
        assert(undecided(pre[i], mask));
    }
}

/// A frame stays a frame as the trace grows.
proof fn lemma_framed_grows(
    pre: Seq<BusEvent>,
    post: Seq<BusEvent>,
    from: int,
    to: int,
    tx: u8,
    r: Result<u8, Spi1Error>,
)
    requires
        0 <= from,
        grown(pre, post),
        framed(pre, from, to, tx, r),
    ensures
        framed(post, from, to, tx, r),
{
    match r {
        Ok(rx) => {
            let mid = choose|mid: int| #[trigger]
                waited(pre, from, mid, SPI_SR_TXP, Ok(())) && sent_and_read(pre, mid, to, tx, rx);
            lemma_waited_grows(pre, post, from, mid, SPI_SR_TXP, Ok(()));
            lemma_waited_grows(pre, post, mid + 1, to - 1, SPI_SR_RXP, Ok(()));
        },
        Err(e) => {
            if waited(pre, from, to, SPI_SR_TXP, Err(e)) {
                lemma_waited_grows(pre, post, from, to, SPI_SR_TXP, Err(e));
            } else {
                let mid = choose|mid: int| #[trigger]
                    waited(pre, from, mid, SPI_SR_TXP, Ok(())) && sent_and_lost(
                        pre,
                        mid,
                        to,
                        tx,
                        e,
                    );
                lemma_waited_grows(pre, post, from, mid, SPI_SR_TXP, Ok(()));
                lemma_waited_grows(pre, post, mid + 1, to, SPI_SR_RXP, Err(e));
            }
        },
    }
}

/// Frames come in order.
proof fn lemma_framed_order(
    t: Seq<BusEvent>,
    from: int,
    to: int,
    tx: u8,
    r: Result<u8, Spi1Error>,
)
    requires
        framed(t, from, to, tx, r),
    ensures
        from <= to <= t.len(),
        r is Ok ==> from < to,
{
}

/// Clocked frames come in order.
proof fn lemma_clocked_order(
    t: Seq<BusEvent>,
    from: int,
    to: int,
    tx: Seq<u8>,
    rx: Seq<u8>,
)
    requires
        clocked(t, from, to, tx, rx),
    ensures
        from <= to,
        tx.len() > 0 ==> to <= t.len(),
    decreases tx.len(),
{
    if tx.len() > 0 {
        let mid = choose|mid: int|
            clocked(t, from, mid, tx.drop_last(), rx.drop_last()) && #[trigger] framed(
                t,
                mid,
                to,
                tx.last(),
                Ok(rx.last()),
            );
        lemma_clocked_order(t, from, mid, tx.drop_last(), rx.drop_last());
        lemma_framed_order(t, mid, to, tx.last(), Ok(rx.last()));
    }
}

/// Clocked frames stay clocked as the trace grows.
proof fn lemma_clocked_grows(
    pre: Seq<BusEvent>,
    post: Seq<BusEvent>,
    from: int,
    to: int,
    tx: Seq<u8>,
    rx: Seq<u8>,
)
    requires
        0 <= from,
        grown(pre, post),
        clocked(pre, from, to, tx, rx),
    ensures
        clocked(post, from, to, tx, rx),
    decreases tx.len(),
{
    if tx.len() > 0 {
        let mid = choose|mid: int|
            clocked(pre, from, mid, tx.drop_last(), rx.drop_last()) && #[trigger] framed(
                pre,
                mid,
                to,
                tx.last(),
                Ok(rx.last()),
            );
        lemma_clocked_order(pre, from, mid, tx.drop_last(), rx.drop_last());
        lemma_clocked_grows(pre, post, from, mid, tx.drop_last(), rx.drop_last());
        lemma_framed_grows(pre, post, mid, to, tx.last(), Ok(rx.last()));
    }
}

/// One more frame behind clocked frames.
proof fn lemma_clocked_push(
    t: Seq<BusEvent>,
    from: int,
    mid: int,
    to: int,
    tx: Seq<u8>,
    rx: Seq<u8>,
    b: u8,
    x: u8,
)
    requires
        clocked(t, from, mid, tx, rx),
        framed(t, mid, to, b, Ok(x)),
    ensures
        clocked(t, from, to, tx.push(b), rx.push(x)),
{
    assert(tx.push(b).drop_last() =~= tx);
    assert(rx.push(x).drop_last() =~= rx);
    assert(framed(t, mid, to, tx.push(b).last(), Ok(rx.push(x).last())));
}

/// An operation stays run as the trace grows.
proof fn lemma_op_ran_grows(
    pre: Seq<BusEvent>,
    post: Seq<BusEvent>,
    from: int,
    to: int,
    before: OpView,
    after: OpView,
    r: Result<(), Spi1Error>,
)
    requires
        0 <= from,
        grown(pre, post),
        op_ran(pre, from, to, before, after, r),
    ensures
        op_ran(post, from, to, before, after, r),
{
    if before is DelayNs {
        assert forall|i: int| from <= i < to implies #[trigger] post[i] == BusEvent::Nop by {
            assert(pre[i] == BusEvent::Nop);
        }
    } else {
        let tx = before.sent();
        match r {
            Ok(_) => {
                let rx = choose|rx: Seq<u8>| #[trigger]
                    clocked(pre, from, to, tx, rx) && after == before.received(rx);
                lemma_clocked_grows(pre, post, from, to, tx, rx);
            },
            Err(e) => {
                let rx = choose|rx: Seq<u8>| #[trigger]
                    broke_off(pre, from, to, tx, rx, e) && after == before.received(rx);
                let sent = tx.take(rx.len() as int);
                let mid = choose|mid: int|
                    clocked(pre, from, mid, sent, rx) && #[trigger] framed(
                        pre,
                        mid,
                        to,
                        tx[rx.len() as int],
                        Err(e),
                    );
                lemma_clocked_order(pre, from, mid, sent, rx);
                lemma_clocked_grows(pre, post, from, mid, sent, rx);
                lemma_framed_grows(pre, post, mid, to, tx[rx.len() as int], Err(e));
                assert(broke_off(post, from, to, tx, rx, e));
            },
        }
    }
}

/// An operation moves forward.
proof fn lemma_op_ran_order(
    t: Seq<BusEvent>,
    from: int,
    to: int,
    before: OpView,
    after: OpView,
    r: Result<(), Spi1Error>,
)
    requires
        op_ran(t, from, to, before, after, r),
    ensures
        from <= to,
{
    if !(before is DelayNs) {
        let tx = before.sent();
        match r {
            Ok(_) => {
                let rx = choose|rx: Seq<u8>| #[trigger]
                    clocked(t, from, to, tx, rx) && after == before.received(rx);
                lemma_clocked_order(t, from, to, tx, rx);
            },
            Err(e) => {
                let rx = choose|rx: Seq<u8>| #[trigger]
                    broke_off(t, from, to, tx, rx, e) && after == before.received(rx);
                let sent = tx.take(rx.len() as int);
                let mid = choose|mid: int|
                    clocked(t, from, mid, sent, rx) && #[trigger] framed(
                        t,
                        mid,
                        to,
                        tx[rx.len() as int],
                        Err(e),
                    );
                lemma_clocked_order(t, from, mid, sent, rx);
                lemma_framed_order(t, mid, to, tx[rx.len() as int], Err(e));
            },
        }
    }
}

/// Operations move forward.
proof fn lemma_all_ran_order(
    t: Seq<BusEvent>,
    from: int,
    to: int,
    before: Seq<OpView>,
    after: Seq<OpView>,
)
    requires
        all_ran(t, from, to, before, after),
    ensures
        from <= to,
    decreases before.len(),
{
    if before.len() > 0 {
        let mid = choose|mid: int|
            all_ran(t, from, mid, before.drop_last(), after.drop_last()) && #[trigger] op_ran(
                t,
                mid,
                to,
                before.last(),
                after.last(),
                Ok(()),
            );
        lemma_all_ran_order(t, from, mid, before.drop_last(), after.drop_last());
        lemma_op_ran_order(t, mid, to, before.last(), after.last(), Ok(()));
    }
}

/// Operations stay run as the trace grows.
proof fn lemma_all_ran_grows(
    pre: Seq<BusEvent>,
    post: Seq<BusEvent>,
    from: int,
    to: int,
    before: Seq<OpView>,
    after: Seq<OpView>,
)
    requires
        0 <= from,
        grown(pre, post),
        all_ran(pre, from, to, before, after),
    ensures
        all_ran(post, from, to, before, after),
    decreases before.len(),
{
    if before.len() > 0 {
        let mid = choose|mid: int|
            all_ran(pre, from, mid, before.drop_last(), after.drop_last()) && #[trigger] op_ran(
                pre,
                mid,
                to,
                before.last(),
                after.last(),
                Ok(()),
            );
        lemma_all_ran_order(pre, from, mid, before.drop_last(), after.drop_last());
        lemma_all_ran_grows(pre, post, from, mid, before.drop_last(), after.drop_last());
        lemma_op_ran_grows(pre, post, mid, to, before.last(), after.last(), Ok(()));
    }
}

/// The outcome of a list of operations stays as the trace grows.
proof fn lemma_ops_ran_grows(
    pre: Seq<BusEvent>,
    post: Seq<BusEvent>,
    from: int,
    to: int,
    before: Seq<OpView>,
    after: Seq<OpView>,
    r: Result<(), Spi1Error>,
)
    requires
        0 <= from,
        grown(pre, post),
        ops_ran(pre, from, to, before, after, r),
    ensures
        ops_ran(post, from, to, before, after, r),
{
    match r {
        Ok(_) => {
            lemma_all_ran_grows(pre, post, from, to, before, after);
        },
        Err(e) => {
            let k = choose|k: int| #[trigger] ran_until(pre, from, to, before, after, k, e);
            let mid = choose|mid: int|
                all_ran(pre, from, mid, before.take(k), after.take(k)) && #[trigger] op_ran(
                    pre,
                    mid,
                    to,
                    before[k],
                    after[k],
                    Err(e),
                );
            lemma_all_ran_order(pre, from, mid, before.take(k), after.take(k));
            lemma_all_ran_grows(pre, post, from, mid, before.take(k), after.take(k));
            lemma_op_ran_grows(pre, post, mid, to, before[k], after[k], Err(e));
            assert(ran_until(post, from, to, before, after, k, e));
        },
    }
}

/// The SPI1 master with its software chip select.
pub struct Spi1Device<B> {
    bus: B,
}

impl<B: SpiBusAccess> Spi1Device<B> {
    /// The accesses so far.
    pub closed spec fn trace(&self) -> Seq<BusEvent> {
        self.bus.trace()
    }

    /// The bus of the device.
    pub closed spec fn bus_view(&self) -> B {
        self.bus
    }

    /// Brings the master up and releases the chip select.
    pub fn new(bus: B) -> (r: Self)
        ensures
            extends(bus.trace(), r.trace(), 31),
            brought_up(r.trace(), bus.trace().len() as int),
    {
        let mut bus: B = bus;
        let ghost start = bus.trace();
        enable_clocks(&mut bus);
        let ghost clocks = bus.trace();
        configure_gpio(&mut bus);
        let ghost pins = bus.trace();
        proof {
            lemma_modified_grows(start, clocks, pins);
        }
        configure_spi(&mut bus);
        proof {
            lemma_modified_grows(start, pins, bus.trace());
        }
        Spi1Device { bus }
    }

    /// Gives the bus back.
    pub fn into_bus(self) -> (r: B)
        ensures
            r == self.bus_view(),
            r.trace() == self.trace(),
    {
        self.bus
    }

    /// Asserts the chip select.
    fn select(&mut self)
        ensures
            final(self).trace() == old(self).trace().push(BusEvent::Write32(GPIOA_BSRR, CS_LOW)),
    {
        assert(1u32 << 20u32 == 0x0010_0000u32) by (bit_vector);
        self.bus.write32(GPIOA_BSRR, bsrr_reset(CS_PIN));
    }

    /// Releases the chip select.
    fn deselect(&mut self)
        ensures
            final(self).trace() == old(self).trace().push(BusEvent::Write32(GPIOA_BSRR, CS_HIGH)),
    {
        assert(1u32 << 4u32 == 0x0000_0010u32) by (bit_vector);
        self.bus.write32(GPIOA_BSRR, bsrr_set(CS_PIN));
    }

    /// Polls the status until every bit of `mask` is set, or the budget runs out. An
    /// overrun ends the wait.
    fn wait_status(&mut self, mask: u32) -> (r: Result<(), Spi1Error>)
        ensures
            grown(old(self).trace(), final(self).trace()),
            waited(
                final(self).trace(),
                old(self).trace().len() as int,
                final(self).trace().len() as int,
                mask,
                r,
            ),
    {
        let ghost from = self.trace().len() as int;
        let mut tries: u32 = 0;
        while tries < STATUS_POLL_TRIES
            invariant
                tries <= STATUS_POLL_TRIES,
                from == old(self).trace().len(),
                grown(old(self).trace(), self.trace()),
                self.trace().len() == from + tries,
                forall|i: int|
                    from <= i < from + tries ==> undecided(#[trigger] self.trace()[i], mask),
            decreases STATUS_POLL_TRIES - tries,
        {
            let ghost before = self.trace();
            let sr: u32 = self.bus.read32(SPI1_SR);
            assert(self.trace() == before.push(BusEvent::Read32(SPI1_SR, sr)));
            if sr & SPI_SR_OVR != 0 {
                return Err(Spi1Error::Overrun);
            }
            if sr & mask == mask {
                return Ok(());
            }
            tries += 1;
        }
        Err(Spi1Error::Timeout)
    }

    /// Clocks one frame: sends `tx` and gives the received byte.
    fn transfer_byte(&mut self, tx: u8) -> (r: Result<u8, Spi1Error>)
        ensures
            grown(old(self).trace(), final(self).trace()),
            framed(
                final(self).trace(),
                old(self).trace().len() as int,
                final(self).trace().len() as int,
                tx,
                r,
            ),
    {
        let ghost from = self.trace().len() as int;
        if let Err(e) = self.wait_status(SPI_SR_TXP) {
            return Err(e);
        }
        let ghost mid = self.trace().len() as int;
        let ghost ready = self.trace();
        self.bus.write8(SPI1_TXDR, tx);
        let ghost sent = self.trace();
        assert(sent == ready.push(BusEvent::Write8(SPI1_TXDR, tx)));
        let waited_for = self.wait_status(SPI_SR_RXP);
        let ghost arrived = self.trace();
        proof {
            lemma_waited_grows(ready, arrived, from, mid, SPI_SR_TXP, Ok(()));
        }
        if let Err(e) = waited_for {
            assert(sent_and_lost(self.trace(), mid, self.trace().len() as int, tx, e));
            return Err(e);
        }
        let rx: u8 = self.bus.read8(SPI1_RXDR);
        proof {
            let done = self.trace();
            assert(done == arrived.push(BusEvent::Read8(SPI1_RXDR, rx)));
            lemma_waited_grows(arrived, done, from, mid, SPI_SR_TXP, Ok(()));
            lemma_waited_grows(
                arrived,
                done,
                mid + 1,
                arrived.len() as int,
                SPI_SR_RXP,
                Ok(()),
            );
            assert(sent_and_read(done, mid, done.len() as int, tx, rx));
        }
        Ok(rx)
    }

    /// Clocks the byte at `i` of what is sent, behind the frames of `rx`.
    fn next_frame(
        &mut self,
        byte: u8,
        Ghost(from): Ghost<int>,
        Ghost(tx): Ghost<Seq<u8>>,
        Ghost(rx): Ghost<Seq<u8>>,
    ) -> (r: Result<u8, Spi1Error>)
        requires
            0 <= from,
            rx.len() < tx.len(),
            tx[rx.len() as int] == byte,
            clocked(
                old(self).trace(),
                from,
                old(self).trace().len() as int,
                tx.take(rx.len() as int),
                rx,
            ),
        ensures
            grown(old(self).trace(), final(self).trace()),
            match r {
                Ok(x) => clocked(
                    final(self).trace(),
                    from,
                    final(self).trace().len() as int,
                    tx.take(rx.len() as int + 1),
                    rx.push(x),
                ),
                Err(e) => broke_off(
                    final(self).trace(),
                    from,
                    final(self).trace().len() as int,
                    tx,
                    rx,
                    e,
                ),
            },
    {
        let ghost before = self.trace();
        let r = self.transfer_byte(byte);
        proof {
            let mid = before.len() as int;
            let t = self.trace();
            let sent = tx.take(rx.len() as int);
            lemma_clocked_grows(before, t, from, mid, sent, rx);
            if let Ok(x) = r {
                lemma_clocked_push(t, from, mid, t.len() as int, sent, rx, byte, x);
                assert(tx.take(rx.len() as int + 1) =~= sent.push(byte));
            }
        }
        r
    }

    /// Sends every byte of `buf` and drops what is received.
    fn send(&mut self, buf: &Vec<u8>) -> (r: Result<(), Spi1Error>)
        ensures
            grown(old(self).trace(), final(self).trace()),
            op_ran(
                final(self).trace(),
                old(self).trace().len() as int,
                final(self).trace().len() as int,
                OpView::Write(buf@),
                OpView::Write(buf@),
                r,
            ),
    {
        let ghost from = self.trace().len() as int;
        let ghost mut rx: Seq<u8> = Seq::empty();
        let mut i: usize = 0;
        assert(buf@.take(0) =~= Seq::empty());
        while i < buf.len()
            invariant
                0 <= from == old(self).trace().len(),
                i <= buf@.len(),
                rx.len() == i,
                grown(old(self).trace(), self.trace()),
                clocked(self.trace(), from, self.trace().len() as int, buf@.take(i as int), rx),
            decreases buf@.len() - i,
        {
            match self.next_frame(buf[i], Ghost(from), Ghost(buf@), Ghost(rx)) {
                Ok(x) => {
                    proof {
                        rx = rx.push(x);
                    }
                },
                Err(e) => {
                    let ghost to = self.trace().len() as int;
                    assert(broke_off(self.trace(), from, to, OpView::Write(buf@).sent(), rx, e));
                    return Err(e);
                },
            }
            i += 1;
        }
        assert(buf@.take(i as int) =~= OpView::Write(buf@).sent());
        Ok(())
    }

    /// Fills `buf` with received bytes.
    fn fetch(&mut self, buf: &mut Vec<u8>) -> (r: Result<(), Spi1Error>)
        ensures
            grown(old(self).trace(), final(self).trace()),
            op_ran(
                final(self).trace(),
                old(self).trace().len() as int,
                final(self).trace().len() as int,
                OpView::Read(old(buf)@),
                OpView::Read(final(buf)@),
                r,
            ),
    {
        let ghost from = self.trace().len() as int;
        let ghost all = OpView::Read(buf@).sent();
        let ghost mut rx: Seq<u8> = Seq::empty();
        let mut i: usize = 0;
        assert(all.take(0) =~= Seq::empty());
        assert(buf@ =~= filled(old(buf)@, rx));
        while i < buf.len()
            invariant
                0 <= from == old(self).trace().len(),
                all == OpView::Read(old(buf)@).sent(),
                buf@ == filled(old(buf)@, rx),
                i <= buf@.len(),
                rx.len() == i,
                grown(old(self).trace(), self.trace()),
                clocked(self.trace(), from, self.trace().len() as int, all.take(i as int), rx),
            decreases buf@.len() - i,
        {
            match self.next_frame(READ_DUMMY, Ghost(from), Ghost(all), Ghost(rx)) {
                Ok(x) => {
                    buf.set(i, x);
                    proof {
                        assert(buf@ =~= filled(old(buf)@, rx.push(x)));
                        rx = rx.push(x);
                    }
                },
                Err(e) => {
                    return Err(e);
                },
            }
            i += 1;
        }
        assert(all.take(i as int) =~= all);
        Ok(())
    }

    /// Sends `write` and fills `read`. Past the end of `write` it sends the dummy, past
    /// the end of `read` it drops what is received.
    fn exchange(&mut self, read: &mut Vec<u8>, write: &Vec<u8>) -> (r: Result<(), Spi1Error>)
        ensures
            grown(old(self).trace(), final(self).trace()),
            op_ran(
                final(self).trace(),
                old(self).trace().len() as int,
                final(self).trace().len() as int,
                OpView::Transfer(old(read)@, write@),
                OpView::Transfer(final(read)@, write@),
                r,
            ),
    {
        let ghost from = self.trace().len() as int;
        let ghost all = OpView::Transfer(read@, write@).sent();
        let ghost mut rx: Seq<u8> = Seq::empty();
        let len: usize = if read.len() >= write.len() {
            read.len()
        } else {
            write.len()
        };
        let mut i: usize = 0;
        assert(all.take(0) =~= Seq::empty());
        assert(read@ =~= filled(old(read)@, rx));
        while i < len
            invariant
                0 <= from == old(self).trace().len(),
                all == OpView::Transfer(old(read)@, write@).sent(),
                len == all.len(),
                read@ == filled(old(read)@, rx),
                i <= len,
                rx.len() == i,
                grown(old(self).trace(), self.trace()),
                clocked(self.trace(), from, self.trace().len() as int, all.take(i as int), rx),
            decreases len - i,
        {
            let tx: u8 = if i < write.len() {
                write[i]
            } else {
                READ_DUMMY
            };
            match self.next_frame(tx, Ghost(from), Ghost(all), Ghost(rx)) {
                Ok(x) => {
                    if i < read.len() {
                        read.set(i, x);
                    }
                    proof {
                        assert(read@ =~= filled(old(read)@, rx.push(x)));
                        rx = rx.push(x);
                    }
                },
                Err(e) => {
                    return Err(e);
                },
            }
            i += 1;
        }
        assert(all.take(i as int) =~= all);
        Ok(())
    }

    /// Sends `buf` and fills it with what is received.
    fn exchange_in_place(&mut self, buf: &mut Vec<u8>) -> (r: Result<(), Spi1Error>)
        ensures
            grown(old(self).trace(), final(self).trace()),
            op_ran(
                final(self).trace(),
                old(self).trace().len() as int,
                final(self).trace().len() as int,
                OpView::TransferInPlace(old(buf)@),
                OpView::TransferInPlace(final(buf)@),
                r,
            ),
    {
        let ghost from = self.trace().len() as int;
        let ghost all = buf@;
        let ghost mut rx: Seq<u8> = Seq::empty();
        let mut i: usize = 0;
        assert(all.take(0) =~= Seq::empty());
        assert(buf@ =~= filled(old(buf)@, rx));
        while i < buf.len()
            invariant
                0 <= from == old(self).trace().len(),
                all == old(buf)@,
                buf@ == filled(old(buf)@, rx),
                i <= buf@.len(),
                rx.len() == i,
                grown(old(self).trace(), self.trace()),
                clocked(self.trace(), from, self.trace().len() as int, all.take(i as int), rx),
            decreases buf@.len() - i,
        {
            match self.next_frame(buf[i], Ghost(from), Ghost(all), Ghost(rx)) {
                Ok(x) => {
                    buf.set(i, x);
                    proof {
                        assert(buf@ =~= filled(old(buf)@, rx.push(x)));
                        rx = rx.push(x);
                    }
                },
                Err(e) => {
                    let ghost to = self.trace().len() as int;
                    let ghost op = OpView::TransferInPlace(old(buf)@);
                    assert(broke_off(self.trace(), from, to, op.sent(), rx, e));
                    return Err(e);
                },
            }
            i += 1;
        }
        assert(all.take(i as int) =~= OpView::TransferInPlace(old(buf)@).sent());
        Ok(())
    }

    /// Idles for one instruction per nanosecond: a rough delay.
    fn spin_delay_ns(&mut self, ns: u32)
        ensures
            grown(old(self).trace(), final(self).trace()),
            idled(
                final(self).trace(),
                old(self).trace().len() as int,
                final(self).trace().len() as int,
                ns as nat,
            ),
    {
        let ghost from = self.trace().len() as int;
        let mut i: u32 = 0;
        while i < ns
            invariant
                i <= ns,
                from == old(self).trace().len(),
                grown(old(self).trace(), self.trace()),
                self.trace().len() == from + i,
                forall|k: int| from <= k < from + i ==> #[trigger] self.trace()[k] == BusEvent::Nop,
            decreases ns - i,
        {
            let ghost before = self.trace();
            self.bus.nop();
            assert(self.trace() == before.push(BusEvent::Nop));
            i += 1;
        }
    }

    /// Runs one operation against the selected chip.
    pub fn run_operation(&mut self, op: &mut SpiOperation) -> (r: Result<(), Spi1Error>)
        ensures
            grown(old(self).trace(), final(self).trace()),
            op_ran(
                final(self).trace(),
                old(self).trace().len() as int,
                final(self).trace().len() as int,
                old(op).view(),
                final(op).view(),
                r,
            ),
    {
        match op {
            SpiOperation::Write(buf) => self.send(buf),
            SpiOperation::Read(buf) => self.fetch(buf),
            SpiOperation::Transfer(read, write) => self.exchange(read, write),
            SpiOperation::TransferInPlace(buf) => self.exchange_in_place(buf),
            SpiOperation::DelayNs(ns) => {
                self.spin_delay_ns(*ns);
                Ok(())
            },
        }
    }

    /// Runs `operations` under one assertion of the chip select.
    pub fn transaction(&mut self, operations: &mut [SpiOperation]) -> (r: Result<(), Spi1Error>)
        ensures
            grown(old(self).trace(), final(self).trace()),
            exists|mid: int| #[trigger]
                transacted(
                    final(self).trace(),
                    old(self).trace().len() as int,
                    mid,
                    final(self).trace().len() as int,
                    views(old(operations)@),
                    views(final(operations)@),
                    r,
                ),
    {
        let ghost start = self.trace();
        let ghost at = start.len() as int;
        rearm_engine(&mut self.bus);
        let ghost armed = self.trace();
        self.select();
        let ghost selected = self.trace();
        let ghost from = selected.len() as int;
        let ghost pre = views(operations@);
        let mut result: Result<(), Spi1Error> = Ok(());
        let mut i: usize = 0;
        assert(pre.take(0) =~= Seq::empty());
        assert(views(operations@).take(0) =~= Seq::empty());
        while i < operations.len() && result.is_ok()
            invariant
                0 <= from == selected.len(),
                pre == views(old(operations)@),
                operations@.len() == pre.len(),
                i <= pre.len(),
                grown(selected, self.trace()),
                result is Ok ==> {
                    &&& all_ran(
                        self.trace(),
                        from,
                        self.trace().len() as int,
                        pre.take(i as int),
                        views(operations@).take(i as int),
                    )
                    &&& forall|k: int|
                        i <= k < pre.len() ==> #[trigger] views(operations@)[k] == pre[k]
                },
                result is Err ==> ops_ran(
                    self.trace(),
                    from,
                    self.trace().len() as int,
                    pre,
                    views(operations@),
                    result,
                ),
            decreases pre.len() - i,
        {
            let ghost before = self.trace();
            let ghost held = views(operations@);
            result = self.run_operation(&mut operations[i]);
            proof {
                let t = self.trace();
                let k = i as int;
                let now = views(operations@);
                lemma_all_ran_grows(
                    before,
                    t,
                    from,
                    before.len() as int,
                    pre.take(k),
                    held.take(k),
                );
                assert(now.take(k) =~= held.take(k));
                assert(held[k] == pre[k]);
                assert(op_ran(t, before.len() as int, t.len() as int, held[k], now[k], result));
                assert forall|j: int| k < j < pre.len() implies #[trigger] now[j] == pre[j] by {
                    assert(held[j] == pre[j]);
                }
                match result {
                    Ok(_) => {
                        assert(pre.take(k + 1).drop_last() =~= pre.take(k));
                        assert(now.take(k + 1).drop_last() =~= now.take(k));
                        assert(op_ran(
                            t,
                            before.len() as int,
                            t.len() as int,
                            pre.take(k + 1).last(),
                            now.take(k + 1).last(),
                            Ok(()),
                        ));
                    },
                    Err(e) => {
                        assert(op_ran(
                            t,
                            before.len() as int,
                            t.len() as int,
                            pre[k],
                            now[k],
                            Err(e),
                        ));
                        assert(ran_until(t, from, t.len() as int, pre, now, k, e));
                    },
                }
            }
            i += 1;
        }
        let ghost ran = self.trace();
        let ghost mid = ran.len() as int;
        let ghost post = views(operations@);
        proof {
            if result is Ok {
                assert(pre.take(i as int) =~= pre);
                assert(post.take(i as int) =~= post);
            }
        }
        self.deselect();
        assert(SPI_IFCR_EOTC | SPI_IFCR_TXTFC | SPI_IFCR_OVRC | SPI_IFCR_MODFC == CLEARED_FLAGS)
            by (bit_vector);
        self.bus.write32(
            SPI1_IFCR,
            SPI_IFCR_EOTC | SPI_IFCR_TXTFC | SPI_IFCR_OVRC | SPI_IFCR_MODFC,
        );
        let ghost cleared = self.trace();
        if result.is_err() {
            // A byte may stand unread in the receiver: only a disable flushes it.
            self.bus.modify32(SPI1_CR1, SPI_CR1_SPE, 0);
        }
        proof {
            let t = self.trace();
            assert(grown(ran, t)) by {
                assert forall|k: int| 0 <= k < ran.len() implies #[trigger] t[k] == ran[k] by {
                    assert(cleared[k] == ran[k]);
                    assert(t.take(cleared.len() as int)[k] == t[k]);
                }
            }
            assert(t[mid] == cleared[mid] && t[mid + 1] == cleared[mid + 1]) by {
                assert(t.take(cleared.len() as int)[mid] == t[mid]);
                assert(t.take(cleared.len() as int)[mid + 1] == t[mid + 1]);
            }
            lemma_ops_ran_grows(ran, t, from, mid, pre, post, result);
            assert forall|k: int| 0 <= k < armed.len() implies #[trigger] t[k] == armed[k] by {
                assert(selected[k] == armed[k]);
                assert(ran[k] == selected[k]);
            }
            assert(t[at + 8] == selected[at + 8]) by {
                assert(ran[at + 8] == selected[at + 8]);
            }
            assert forall|k: int| 0 <= k < start.len() implies #[trigger] t[k] == start[k] by {
                assert(armed.take(start.len() as int)[k] == armed[k]);
            }
            assert(rearmed(t, at));
            assert(transacted(t, at, mid, t.len() as int, pre, post, result));
        }
        result
    }
}

/// Enables the clocks of GPIOA and SPI1.
fn enable_clocks<B: SpiBusAccess>(bus: &mut B)
    ensures
        extends(old(bus).trace(), final(bus).trace(), 4),
        clocks_enabled(final(bus).trace(), old(bus).trace().len() as int),
{
    let ghost start = bus.trace();
    bus.modify32(RCC_AHB2ENR1, 0, RCC_AHB2ENR1_GPIOAEN);
    let ghost one = bus.trace();
    bus.modify32(RCC_APB2ENR, 0, RCC_APB2ENR_SPI1EN);
    proof {
        lemma_modified_grows(start, one, bus.trace());
    }
}

/// What was modified stays so as the trace grows.
proof fn lemma_modified_grows(start: Seq<BusEvent>, mid: Seq<BusEvent>, post: Seq<BusEvent>)
    requires
        start.len() <= mid.len() <= post.len(),
        mid.take(start.len() as int) == start,
        post.take(mid.len() as int) == mid,
    ensures
        post.take(start.len() as int) == start,
        forall|at: int, addr: u32, clear: u32, set: u32|
            0 <= at && at + 1 < mid.len() && #[trigger] modified(mid, at, addr, clear, set)
                ==> modified(post, at, addr, clear, set),
        forall|at: int| 0 <= at < mid.len() ==> #[trigger] post[at] == mid[at],
{
    assert forall|at: int| 0 <= at < mid.len() implies #[trigger] post[at] == mid[at] by {
        assert(post.take(mid.len() as int)[at] == post[at]);
    }
    assert(post.take(start.len() as int) =~= start) by {
        assert forall|at: int| 0 <= at < start.len() implies #[trigger] post[at] == start[at] by {
            assert(mid.take(start.len() as int)[at] == mid[at]);
        }
    }
}

/// Gives PA5 to PA7 to SPI1 and makes PA4 the chip-select output.
fn configure_gpio<B: SpiBusAccess>(bus: &mut B)
    ensures
        extends(old(bus).trace(), final(bus).trace(), 11),
        gpio_configured(final(bus).trace(), old(bus).trace().len() as int),
{
    let ghost start = bus.trace();
    proof {
        lemma_pin_fields();
    }
    // The chip select idles high before the pin becomes an output, so that the line
    // does not glitch low.
    bus.write32(GPIOA_BSRR, bsrr_set(CS_PIN));
    let ghost idle = bus.trace();
    assert(idle.take(start.len() as int) =~= start);

    let af_clear: u32 = (0xFu32 << afrl_shift(SCK_PIN)) | (0xFu32 << afrl_shift(MISO_PIN)) | (0xFu32
        << afrl_shift(MOSI_PIN));
    let af_set: u32 = (GPIO_AF5 << afrl_shift(SCK_PIN)) | (GPIO_AF5 << afrl_shift(MISO_PIN)) | (
    GPIO_AF5 << afrl_shift(MOSI_PIN));
    bus.modify32(GPIOA_AFRL, af_clear, af_set);
    let ghost af = bus.trace();
    proof {
        lemma_modified_grows(start, idle, af);
    }

    let field_clear: u32 = (3u32 << field2_shift(CS_PIN)) | (3u32 << field2_shift(SCK_PIN)) | (3u32
        << field2_shift(MISO_PIN)) | (3u32 << field2_shift(MOSI_PIN));
    let moder_set: u32 = (GPIO_MODER_OUTPUT << field2_shift(CS_PIN)) | (GPIO_MODER_ALTERNATE
        << field2_shift(SCK_PIN)) | (GPIO_MODER_ALTERNATE << field2_shift(MISO_PIN)) | (
    GPIO_MODER_ALTERNATE << field2_shift(MOSI_PIN));
    bus.modify32(GPIOA_MODER, field_clear, moder_set);
    let ghost moder = bus.trace();
    proof {
        lemma_modified_grows(start, af, moder);
    }

    let otype_pins: u32 = (1u32 << CS_PIN) | (1u32 << SCK_PIN) | (1u32 << MISO_PIN) | (1u32
        << MOSI_PIN);
    bus.modify32(GPIOA_OTYPER, otype_pins, 0);
    let ghost otyper = bus.trace();
    proof {
        lemma_modified_grows(start, moder, otyper);
    }

    let ospeed_set: u32 = (GPIO_OSPEEDR_VERY_HIGH << field2_shift(CS_PIN)) | (GPIO_OSPEEDR_VERY_HIGH
        << field2_shift(SCK_PIN)) | (GPIO_OSPEEDR_VERY_HIGH << field2_shift(MISO_PIN)) | (
    GPIO_OSPEEDR_VERY_HIGH << field2_shift(MOSI_PIN));
    bus.modify32(GPIOA_OSPEEDR, field_clear, ospeed_set);
    let ghost ospeed = bus.trace();
    proof {
        lemma_modified_grows(start, otyper, ospeed);
    }

    // A floating input reads as idle high. The driven lines need no pull.
    let pupd_set: u32 = (GPIO_PUPDR_NONE << field2_shift(CS_PIN)) | (GPIO_PUPDR_NONE
        << field2_shift(SCK_PIN)) | (GPIO_PUPDR_PULLUP << field2_shift(MISO_PIN)) | (GPIO_PUPDR_NONE
        << field2_shift(MOSI_PIN));
    bus.modify32(GPIOA_PUPDR, field_clear, pupd_set);
    proof {
        lemma_modified_grows(start, ospeed, bus.trace());
    }
}

/// The values that the pin setup writes.
proof fn lemma_pin_fields()
    by (bit_vector)
    ensures
        1u32 << 4u32 == 0x0000_0010u32,
        (0xFu32 << 20u32) | (0xFu32 << 24u32) | (0xFu32 << 28u32) == 0xFFF0_0000u32,
        (5u32 << 20u32) | (5u32 << 24u32) | (5u32 << 28u32) == 0x5550_0000u32,
        (3u32 << 8u32) | (3u32 << 10u32) | (3u32 << 12u32) | (3u32 << 14u32) == 0x0000_FF00u32,
        (1u32 << 8u32) | (2u32 << 10u32) | (2u32 << 12u32) | (2u32 << 14u32) == 0x0000_A900u32,
        (1u32 << 4u32) | (1u32 << 5u32) | (1u32 << 6u32) | (1u32 << 7u32) == 0x0000_00F0u32,
        (0u32 << 8u32) | (0u32 << 10u32) | (1u32 << 12u32) | (0u32 << 14u32) == 0x0000_1000u32,
{
}

/// Sets the engine up for mode 0, MSB first, 8-bit frames, software select, endless
/// transfer, and starts it.
fn configure_spi<B: SpiBusAccess>(bus: &mut B)
    ensures
        extends(old(bus).trace(), final(bus).trace(), 16),
        spi_configured(final(bus).trace(), old(bus).trace().len() as int),
{
    let ghost start = bus.trace();
    proof {
        lemma_engine_fields();
    }
    // The configuration registers can be written only while the engine is disabled.
    bus.modify32(SPI1_CR1, SPI_CR1_SPE, 0);
    let ghost disabled = bus.trace();

    bus.modify32(
        SPI1_CFG1,
        SPI_CFG1_DSIZE_MASK | SPI_CFG1_FTHLV_MASK | SPI_CFG1_MBR_MASK,
        SPI_CFG1_DSIZE_8BIT | SPI_CFG1_FTHLV_1DATA | SPI_CFG1_MBR_DIV128,
    );
    let ghost first = bus.trace();
    proof {
        lemma_modified_grows(start, disabled, first);
    }

    // The internal select goes high before the master is selected: a master selected
    // while it is low latches a mode fault, which drops it back to a slave.
    bus.modify32(SPI1_CR1, 0, SPI_CR1_SSI | SPI_CR1_MASRX);
    let ghost held = bus.trace();
    proof {
        lemma_modified_grows(start, first, held);
    }

    bus.modify32(
        SPI1_CFG2,
        SPI_CFG2_MASTER | SPI_CFG2_COMM_MASK | SPI_CFG2_LSBFRST | SPI_CFG2_CPHA | SPI_CFG2_CPOL
            | SPI_CFG2_SSM | SPI_CFG2_SSOE | SPI_CFG2_AFCNTR,
        SPI_CFG2_MASTER | SPI_CFG2_COMM_FULL_DUPLEX | SPI_CFG2_SSM | SPI_CFG2_AFCNTR,
    );
    let ghost second = bus.trace();
    proof {
        lemma_modified_grows(start, held, second);
    }

    rearm_engine(bus);
    proof {
        lemma_modified_grows(start, second, bus.trace());
    }
}

/// The values that the engine setup writes.
proof fn lemma_engine_fields()
    by (bit_vector)
    ensures
        SPI_CFG1_DSIZE_MASK | SPI_CFG1_FTHLV_MASK | SPI_CFG1_MBR_MASK == 0x7000_01FFu32,
        SPI_CFG1_DSIZE_8BIT | SPI_CFG1_FTHLV_1DATA | SPI_CFG1_MBR_DIV128 == 0x6000_0007u32,
        SPI_CR1_SSI | SPI_CR1_MASRX == 0x0000_1100u32,
        SPI_CFG2_MASTER | SPI_CFG2_COMM_MASK | SPI_CFG2_LSBFRST | SPI_CFG2_CPHA | SPI_CFG2_CPOL
            | SPI_CFG2_SSM | SPI_CFG2_SSOE | SPI_CFG2_AFCNTR == 0xA7C6_0000u32,
        SPI_CFG2_MASTER | SPI_CFG2_COMM_FULL_DUPLEX | SPI_CFG2_SSM | SPI_CFG2_AFCNTR
            == 0x8440_0000u32,
{
}

/// Restarts the engine from flushed FIFOs.
fn rearm_engine<B: SpiBusAccess>(bus: &mut B)
    ensures
        extends(old(bus).trace(), final(bus).trace(), 8),
        rearmed(final(bus).trace(), old(bus).trace().len() as int),
{
    let ghost start = bus.trace();
    bus.modify32(SPI1_CR1, SPI_CR1_SPE, 0);
    let ghost flushed = bus.trace();
    bus.modify32(SPI1_CR2, SPI_CR2_TSIZE_MASK, 0);
    let ghost endless = bus.trace();
    proof {
        lemma_modified_grows(start, flushed, endless);
    }
    bus.modify32(SPI1_CR1, 0, SPI_CR1_SPE);
    let ghost enabled = bus.trace();
    proof {
        lemma_modified_grows(start, endless, enabled);
    }
    bus.modify32(SPI1_CR1, 0, SPI_CR1_CSTART);
    proof {
        lemma_modified_grows(start, enabled, bus.trace());
    }
}

} // verus!
