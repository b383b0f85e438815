//! What holds of every bring-up and every transaction of the SPI1 master.
//!
//! A register that keeps what is written to it reads back its last write
//! ([`remembers`]). Some laws speak of such registers, most of any bus.

use vstd::prelude::*;

use crate::spi::bus::extends;
use crate::spi::bus::modified;
use crate::spi::bus::BusEvent;
use crate::spi::device::all_ran;
use crate::spi::device::broke_off;
use crate::spi::device::brought_up;
use crate::spi::device::clocked;
use crate::spi::device::filled;
use crate::spi::device::framed;
use crate::spi::device::grown;
use crate::spi::device::op_ran;
use crate::spi::device::ops_ran;
use crate::spi::device::polls;
use crate::spi::device::ran_until;
use crate::spi::device::rearmed;
use crate::spi::device::sent_and_lost;
use crate::spi::device::sent_and_read;
use crate::spi::device::transacted;
use crate::spi::device::undecided;
use crate::spi::device::views;
use crate::spi::device::waited;
use crate::spi::device::OpView;
use crate::spi::device::Spi1Error;
use crate::spi::device::SpiOperation;
use crate::spi::device::CS_HIGH;
use crate::spi::device::CS_LOW;
use crate::spi::regs::GPIOA_AFRL;
use crate::spi::regs::GPIOA_BSRR;
use crate::spi::regs::GPIOA_MODER;
use crate::spi::regs::GPIOA_OSPEEDR;
use crate::spi::regs::GPIOA_OTYPER;
use crate::spi::regs::GPIOA_PUPDR;
use crate::spi::regs::GPIO_AF5;
use crate::spi::regs::GPIO_MODER_ALTERNATE;
use crate::spi::regs::GPIO_MODER_OUTPUT;
use crate::spi::regs::RCC_AHB2ENR1;
use crate::spi::regs::RCC_AHB2ENR1_GPIOAEN;
use crate::spi::regs::RCC_APB2ENR;
use crate::spi::regs::RCC_APB2ENR_SPI1EN;
use crate::spi::regs::SPI1_CFG1;
use crate::spi::regs::SPI1_CFG2;
use crate::spi::regs::SPI1_CR1;
use crate::spi::regs::SPI1_CR2;
use crate::spi::regs::SPI1_RXDR;
use crate::spi::regs::SPI1_TXDR;
use crate::spi::regs::SPI_CFG1_DSIZE_8BIT;
use crate::spi::regs::SPI_CFG1_DSIZE_MASK;
use crate::spi::regs::SPI_CFG1_FTHLV_1DATA;
use crate::spi::regs::SPI_CFG1_FTHLV_MASK;
use crate::spi::regs::SPI_CFG1_MBR_DIV128;
use crate::spi::regs::SPI_CFG1_MBR_MASK;
use crate::spi::regs::SPI_CFG2_COMM_FULL_DUPLEX;
use crate::spi::regs::SPI_CFG2_COMM_MASK;
use crate::spi::regs::SPI_CFG2_CPHA;
use crate::spi::regs::SPI_CFG2_CPOL;
use crate::spi::regs::SPI_CFG2_LSBFRST;
use crate::spi::regs::SPI_CFG2_MASTER;
use crate::spi::regs::SPI_CFG2_SSM;
use crate::spi::regs::SPI_CFG2_SSOE;
use crate::spi::regs::SPI_CR1_CSTART;
use crate::spi::regs::SPI_CR1_SPE;
use crate::spi::regs::SPI_CR1_SSI;
use crate::spi::regs::SPI_CR2_TSIZE_MASK;
use crate::spi::regs::SPI_SR_RXP;
use crate::spi::regs::SPI_SR_TXP;

verus! {

/// The word that the accesses before `to` wrote last to `addr`, if any.
pub open spec fn last_written(t: Seq<BusEvent>, addr: u32, to: int) -> Option<u32>
    decreases to,
{
    if to <= 0 {
        None
    } else {
        match t[to - 1] {
            BusEvent::Write32(a, value) => if a == addr {
                Some(value)
            } else {
                last_written(t, addr, to - 1)
            },
            _ => last_written(t, addr, to - 1),
        }
    }
}

/// A read of `addr` in `[from, to)` gives what was written last, if something was.
pub open spec fn remembers(t: Seq<BusEvent>, addr: u32, from: int, to: int) -> bool {
    forall|i: int|
        from <= i < to ==> (#[trigger] t[i] matches BusEvent::Read32(a, value) ==> a == addr ==> (
        last_written(t, addr, i) matches Some(w) ==> w == value))
}

/// The access moves a byte of data.
pub open spec fn moves_data(e: BusEvent) -> bool {
    e is Read8 || e is Write8
}

/// The bytes that the accesses `[from, to)` send, in order.
pub open spec fn bytes_sent(t: Seq<BusEvent>, from: int, to: int) -> Seq<u8>
    decreases to - from,
{
    if to <= from {
        Seq::empty()
    } else {
        match t[to - 1] {
            BusEvent::Write8(addr, byte) => if addr == SPI1_TXDR {
                bytes_sent(t, from, to - 1).push(byte)
            } else {
                bytes_sent(t, from, to - 1)
            },
            _ => bytes_sent(t, from, to - 1),
        }
    }
}

/// The bytes that the accesses `[from, to)` receive, in order.
pub open spec fn bytes_received(t: Seq<BusEvent>, from: int, to: int) -> Seq<u8>
    decreases to - from,
{
    if to <= from {
        Seq::empty()
    } else {
        match t[to - 1] {
            BusEvent::Read8(addr, byte) => if addr == SPI1_RXDR {
                bytes_received(t, from, to - 1).push(byte)
            } else {
                bytes_received(t, from, to - 1)
            },
            _ => bytes_received(t, from, to - 1),
        }
    }
}

/// The bytes of all operations, in order.
pub open spec fn all_sent(ops: Seq<OpView>) -> Seq<u8>
    decreases ops.len(),
{
    if ops.len() == 0 {
        Seq::empty()
    } else {
        all_sent(ops.drop_last()) + ops.last().sent()
    }
}

/// The access belongs to an operation: a poll, a byte of data, or an idle instruction.
pub open spec fn operates(e: BusEvent) -> bool {
    ||| polls(e)
    ||| e matches BusEvent::Write8(addr, _) && addr == SPI1_TXDR
    ||| e matches BusEvent::Read8(addr, _) && addr == SPI1_RXDR
    ||| e is Nop
}

/// A frame is made of operating accesses.
proof fn lemma_framed_operates(
    t: Seq<BusEvent>,
    from: int,
    to: int,
    tx: u8,
    r: Result<u8, Spi1Error>,
)
    requires
        framed(t, from, to, tx, r),
    ensures
        from <= to,
        forall|i: int| from <= i < to ==> operates(#[trigger] t[i]),
{
    match r {
        Ok(rx) => {
            let mid = choose|mid: int| #[trigger]
                waited(t, from, mid, SPI_SR_TXP, Ok(())) && sent_and_read(t, mid, to, tx, rx);
            assert forall|i: int| from <= i < to implies operates(#[trigger] t[i]) by {
                assert(i < mid ==> polls(t[i]));
                assert(mid < i < to - 1 ==> polls(t[i]));
            }
        },
        Err(e) => {
            if !waited(t, from, to, SPI_SR_TXP, Err(e)) {
                let mid = choose|mid: int| #[trigger]
                    waited(t, from, mid, SPI_SR_TXP, Ok(())) && sent_and_lost(t, mid, to, tx, e);
                assert forall|i: int| from <= i < to implies operates(#[trigger] t[i]) by {
                    assert(i < mid ==> polls(t[i]));
                    assert(mid < i ==> polls(t[i]));
                }
            }
        },
    }
}

/// Clocked frames are made of operating accesses.
proof fn lemma_clocked_operates(
    t: Seq<BusEvent>,
    from: int,
    to: int,
    tx: Seq<u8>,
    rx: Seq<u8>,
)
    requires
        clocked(t, from, to, tx, rx),
    ensures
        from <= to,
        forall|i: int| from <= i < to ==> operates(#[trigger] t[i]),
    decreases tx.len(),
{
    if tx.len() > 0 {
        let mid = choose|mid: int|
            clocked(t, from, mid, tx.drop_last(), rx.drop_last()) && #[trigger] framed(
                t,
                mid,
                to,
                tx.last(),
                Ok(rx.last()),
            );
        lemma_clocked_operates(t, from, mid, tx.drop_last(), rx.drop_last());
        lemma_framed_operates(t, mid, to, tx.last(), Ok(rx.last()));
    }
}

/// An operation is made of operating accesses.
proof fn lemma_op_operates(
    t: Seq<BusEvent>,
    from: int,
    to: int,
    pre: OpView,
    post: OpView,
    r: Result<(), Spi1Error>,
)
    requires
        op_ran(t, from, to, pre, post, r),
    ensures
        from <= to,
        forall|i: int| from <= i < to ==> operates(#[trigger] t[i]),
{
    if pre is DelayNs {
        assert forall|i: int| from <= i < to implies operates(#[trigger] t[i]) by {
            assert(t[i] == BusEvent::Nop);
        }
    } else {
        let tx = pre.sent();
        match r {
            Ok(_) => {
                let rx = choose|rx: Seq<u8>| #[trigger]
                    clocked(t, from, to, tx, rx) && post == pre.received(rx);
                lemma_clocked_operates(t, from, to, tx, rx);
            },
            Err(e) => {
                let rx = choose|rx: Seq<u8>| #[trigger]
                    broke_off(t, from, to, tx, rx, e) && post == pre.received(rx);
                let mid = choose|mid: int|
                    clocked(t, from, mid, tx.take(rx.len() as int), rx) && #[trigger] framed(
                        t,
                        mid,
                        to,
                        tx[rx.len() as int],
                        Err(e),
                    );
                lemma_clocked_operates(t, from, mid, tx.take(rx.len() as int), rx);
                lemma_framed_operates(t, mid, to, tx[rx.len() as int], Err(e));
            },
        }
    }
}

/// Operations are made of operating accesses.
proof fn lemma_all_operate(
    t: Seq<BusEvent>,
    from: int,
    to: int,
    pre: Seq<OpView>,
    post: Seq<OpView>,
)
    requires
        all_ran(t, from, to, pre, post),
    ensures
        from <= to,
        forall|i: int| from <= i < to ==> operates(#[trigger] t[i]),
    decreases pre.len(),
{
    if pre.len() > 0 {
        let mid = choose|mid: int|
            all_ran(t, from, mid, pre.drop_last(), post.drop_last()) && #[trigger] op_ran(
                t,
                mid,
                to,
                pre.last(),
                post.last(),
                Ok(()),
            );
        lemma_all_operate(t, from, mid, pre.drop_last(), post.drop_last());
        lemma_op_operates(t, mid, to, pre.last(), post.last(), Ok(()));
    }
}

/// Operations are made of operating accesses, those that fail too.
proof fn lemma_ops_operate(
    t: Seq<BusEvent>,
    from: int,
    to: int,
    pre: Seq<OpView>,
    post: Seq<OpView>,
    r: Result<(), Spi1Error>,
)
    requires
        ops_ran(t, from, to, pre, post, r),
    ensures
        from <= to,
        forall|i: int| from <= i < to ==> operates(#[trigger] t[i]),
{
    match r {
        Ok(_) => {
            lemma_all_operate(t, from, to, pre, post);
        },
        Err(e) => {
            let k = choose|k: int| #[trigger] ran_until(t, from, to, pre, post, k, e);
            let mid = choose|mid: int|
                all_ran(t, from, mid, pre.take(k), post.take(k)) && #[trigger] op_ran(
                    t,
                    mid,
                    to,
                    pre[k],
                    post[k],
                    Err(e),
                );
            lemma_all_operate(t, from, mid, pre.take(k), post.take(k));
            lemma_op_operates(t, mid, to, pre[k], post[k], Err(e));
        },
    }
}

/// The chip is selected for the operations of a transaction and for nothing else: the
/// select line is driven twice, low before the first byte of data and high behind the
/// last, whether the transaction fails or not.
pub proof fn the_chip_is_selected_for_the_operations_alone(
    t: Seq<BusEvent>,
    from: int,
    mid: int,
    to: int,
    pre: Seq<OpView>,
    post: Seq<OpView>,
    r: Result<(), Spi1Error>,
)
    requires
        0 <= from,
        transacted(t, from, mid, to, pre, post, r),
    ensures
        from + 8 < mid < to,
        forall|i: int|
            from <= i < to && (#[trigger] t[i] matches BusEvent::Write32(addr, _) && addr
                == GPIOA_BSRR) ==> {
                ||| i == from + 8 && t[i] == BusEvent::Write32(GPIOA_BSRR, CS_LOW)
                ||| i == mid && t[i] == BusEvent::Write32(GPIOA_BSRR, CS_HIGH)
            },
        forall|i: int|
            from <= i < to && moves_data(#[trigger] t[i]) ==> from + 8 < i < mid,
        last_written(t, GPIOA_BSRR, to) == Some(CS_HIGH),
{
    lemma_ops_operate(t, from + 9, mid, pre, post, r);
    assert forall|i: int|
        from <= i < to && (#[trigger] t[i] matches BusEvent::Write32(addr, _) && addr
            == GPIOA_BSRR) implies {
        ||| i == from + 8 && t[i] == BusEvent::Write32(GPIOA_BSRR, CS_LOW)
        ||| i == mid && t[i] == BusEvent::Write32(GPIOA_BSRR, CS_HIGH)
    } by {
        assert(from + 9 <= i < mid ==> operates(t[i]));
        lemma_rearmed_accesses(t, from, i);
        if i > mid {
            assert(i == mid + 1 || i == mid + 2 || i == mid + 3);
        }
    }
    assert forall|i: int| from <= i < to && moves_data(#[trigger] t[i]) implies from + 8 < i
        < mid by {
        lemma_rearmed_accesses(t, from, i);
        if i > mid {
            assert(i == mid + 1 || i == mid + 2 || i == mid + 3);
        }
    }
    reveal_with_fuel(last_written, 5);
}

/// The accesses of an engine restart: words of the two control registers.
proof fn lemma_rearmed_accesses(t: Seq<BusEvent>, from: int, i: int)
    requires
        rearmed(t, from),
    ensures
        from <= i < from + 8 ==> {
            ||| t[i] matches BusEvent::Read32(addr, _) && (addr == SPI1_CR1 || addr == SPI1_CR2)
            ||| t[i] matches BusEvent::Write32(addr, _) && (addr == SPI1_CR1 || addr == SPI1_CR2)
        },
{
    if from <= i < from + 8 {
        assert(i == from || i == from + 1 || i == from + 2 || i == from + 3 || i == from + 4 || i
            == from + 5 || i == from + 6 || i == from + 7);
    }
}

/// A transaction starts from flushed FIFOs: before a byte of data moves, the engine
/// was disabled, the endless transfer selected, and the engine enabled and started.
pub proof fn a_transaction_starts_flushed(
    t: Seq<BusEvent>,
    from: int,
    mid: int,
    to: int,
    pre: Seq<OpView>,
    post: Seq<OpView>,
    r: Result<(), Spi1Error>,
)
    requires
        0 <= from,
        transacted(t, from, mid, to, pre, post, r),
    ensures
        t[from + 1] matches BusEvent::Write32(addr, value) && addr == SPI1_CR1 && value
            & SPI_CR1_SPE == 0,
        t[from + 3] matches BusEvent::Write32(addr, value) && addr == SPI1_CR2 && value
            & SPI_CR2_TSIZE_MASK == 0,
        t[from + 5] matches BusEvent::Write32(addr, value) && addr == SPI1_CR1 && value
            & SPI_CR1_SPE != 0,
        t[from + 7] matches BusEvent::Write32(addr, value) && addr == SPI1_CR1 && value
            & SPI_CR1_CSTART != 0,
        forall|i: int| from <= i < to && moves_data(#[trigger] t[i]) ==> from + 7 < i,
{
    the_chip_is_selected_for_the_operations_alone(t, from, mid, to, pre, post, r);
    lemma_control_bits();
}

/// Clearing and setting bits of a control word.
proof fn lemma_control_bits()
    by (bit_vector)
    ensures
        forall|v: u32| #[trigger] (((v & !SPI_CR1_SPE) | 0)) & SPI_CR1_SPE == 0,
        forall|v: u32| #[trigger] (((v & !SPI_CR2_TSIZE_MASK) | 0)) & SPI_CR2_TSIZE_MASK == 0,
        forall|v: u32| #[trigger] ((v & !0u32) | SPI_CR1_SPE) & SPI_CR1_SPE != 0,
        forall|v: u32| #[trigger] ((v & !0u32) | SPI_CR1_CSTART) & SPI_CR1_CSTART != 0,
        forall|v: u32|
            v & SPI_CR1_SPE != 0 ==> #[trigger] ((v & !0u32) | SPI_CR1_CSTART) & SPI_CR1_SPE != 0,
        forall|v: u32|
            v & SPI_CR1_SSI != 0 ==> #[trigger] ((v & !SPI_CR1_SPE) | 0) & SPI_CR1_SSI != 0,
        forall|v: u32|
            v & SPI_CR1_SSI != 0 ==> #[trigger] ((v & !0u32) | SPI_CR1_SPE) & SPI_CR1_SSI != 0,
        forall|v: u32|
            v & SPI_CR1_SSI != 0 ==> #[trigger] ((v & !0u32) | SPI_CR1_CSTART) & SPI_CR1_SSI != 0,
{
}

/// A transaction that fails leaves the engine disabled, so that a byte which stands
/// unread is flushed.
pub proof fn a_failed_transaction_leaves_the_engine_disabled(
    t: Seq<BusEvent>,
    from: int,
    mid: int,
    to: int,
    pre: Seq<OpView>,
    post: Seq<OpView>,
    r: Result<(), Spi1Error>,
)
    requires
        0 <= from,
        transacted(t, from, mid, to, pre, post, r),
        r is Err,
    ensures
        last_written(t, SPI1_CR1, to) matches Some(value) && value & SPI_CR1_SPE == 0,
{
    lemma_ops_operate(t, from + 9, mid, pre, post, r);
    lemma_control_bits();
    reveal_with_fuel(last_written, 2);
}

/// What was written last to a register that operating accesses do not write.
proof fn lemma_last_written_past(t: Seq<BusEvent>, addr: u32, from: int, to: int)
    requires
        0 <= from <= to,
        forall|i: int| from <= i < to ==> operates(#[trigger] t[i]),
    ensures
        last_written(t, addr, to) == last_written(t, addr, from),
    decreases to - from,
{
    if from < to {
        assert(operates(t[to - 1]));
        lemma_last_written_past(t, addr, from, to - 1);
    }
}

/// A transaction that succeeds leaves the engine enabled and started, where the
/// control register keeps what is written to it.
pub proof fn a_transaction_leaves_the_engine_running(
    t: Seq<BusEvent>,
    from: int,
    mid: int,
    to: int,
    pre: Seq<OpView>,
    post: Seq<OpView>,
    r: Result<(), Spi1Error>,
)
    requires
        0 <= from,
        transacted(t, from, mid, to, pre, post, r),
        remembers(t, SPI1_CR1, from, to),
        r is Ok,
    ensures
        last_written(t, SPI1_CR1, to) matches Some(value) && value & SPI_CR1_SPE != 0 && value
            & SPI_CR1_CSTART != 0,
{
    lemma_ops_operate(t, from + 9, mid, pre, post, r);
    lemma_control_bits();
    lemma_last_written_past(t, SPI1_CR1, from + 9, mid);
    reveal_with_fuel(last_written, 3);
    assert(last_written(t, SPI1_CR1, from + 6) is Some);
    assert(t[from + 6] is Read32);
    assert(last_written(t, SPI1_CR1, from + 8) is Some);
    assert(last_written(t, SPI1_CR1, from + 9) == last_written(t, SPI1_CR1, from + 8));
    assert(last_written(t, SPI1_CR1, to) == last_written(t, SPI1_CR1, mid));
}

/// What polls send and receive: nothing.
proof fn lemma_polls_move_nothing(t: Seq<BusEvent>, start: int, from: int, to: int)
    requires
        start <= from <= to,
        forall|i: int| from <= i < to ==> polls(#[trigger] t[i]),
    ensures
        bytes_sent(t, start, to) == bytes_sent(t, start, from),
        bytes_received(t, start, to) == bytes_received(t, start, from),
    decreases to - from,
{
    if from < to {
        assert(polls(t[to - 1]));
        lemma_polls_move_nothing(t, start, from, to - 1);
    }
}

/// A frame sends its byte and receives one.
proof fn lemma_frame_moves_a_byte(
    t: Seq<BusEvent>,
    start: int,
    from: int,
    to: int,
    tx: u8,
    rx: u8,
)
    requires
        start <= from,
        framed(t, from, to, tx, Ok(rx)),
    ensures
        bytes_sent(t, start, to) == bytes_sent(t, start, from).push(tx),
        bytes_received(t, start, to) == bytes_received(t, start, from).push(rx),
{
    let mid = choose|mid: int| #[trigger]
        waited(t, from, mid, SPI_SR_TXP, Ok(())) && sent_and_read(t, mid, to, tx, rx);
    lemma_polls_move_nothing(t, start, from, mid);
    assert(bytes_sent(t, start, mid + 1) == bytes_sent(t, start, mid).push(tx));
    assert(bytes_received(t, start, mid + 1) == bytes_received(t, start, mid));
    lemma_polls_move_nothing(t, start, mid + 1, to - 1);
}

/// Clocked frames send and receive their bytes.
proof fn lemma_frames_move_bytes(
    t: Seq<BusEvent>,
    start: int,
    from: int,
    to: int,
    tx: Seq<u8>,
    rx: Seq<u8>,
)
    requires
        start <= from,
        clocked(t, from, to, tx, rx),
    ensures
        bytes_sent(t, start, to) == bytes_sent(t, start, from) + tx,
        bytes_received(t, start, to) == bytes_received(t, start, from) + rx,
    decreases tx.len(),
{
    if tx.len() == 0 {
        assert(bytes_sent(t, start, from) + tx =~= bytes_sent(t, start, from));
        assert(bytes_received(t, start, from) + rx =~= bytes_received(t, start, from));
    } else {
        let mid = choose|mid: int|
            clocked(t, from, mid, tx.drop_last(), rx.drop_last()) && #[trigger] framed(
                t,
                mid,
                to,
                tx.last(),
                Ok(rx.last()),
            );
        lemma_clocked_operates(t, from, mid, tx.drop_last(), rx.drop_last());
        lemma_frames_move_bytes(t, start, from, mid, tx.drop_last(), rx.drop_last());
        lemma_frame_moves_a_byte(t, start, mid, to, tx.last(), rx.last());
        assert(bytes_sent(t, start, to) =~= bytes_sent(t, start, from) + tx);
        assert(bytes_received(t, start, to) =~= bytes_received(t, start, from) + rx);
    }
}

/// Idling sends nothing.
proof fn lemma_idling_moves_nothing(t: Seq<BusEvent>, start: int, from: int, to: int)
    requires
        start <= from <= to,
        forall|i: int| from <= i < to ==> #[trigger] t[i] == BusEvent::Nop,
    ensures
        bytes_sent(t, start, to) == bytes_sent(t, start, from),
        bytes_received(t, start, to) == bytes_received(t, start, from),
    decreases to - from,
{
    if from < to {
        assert(t[to - 1] == BusEvent::Nop);
        lemma_idling_moves_nothing(t, start, from, to - 1);
    }
}

/// Operations send their bytes and receive as many.
proof fn lemma_ops_move_bytes(
    t: Seq<BusEvent>,
    start: int,
    from: int,
    to: int,
    pre: Seq<OpView>,
    post: Seq<OpView>,
)
    requires
        start <= from,
        all_ran(t, from, to, pre, post),
    ensures
        bytes_sent(t, start, to) == bytes_sent(t, start, from) + all_sent(pre),
        bytes_received(t, start, to).len() == bytes_received(t, start, from).len() + all_sent(
            pre,
        ).len(),
    decreases pre.len(),
{
    if pre.len() == 0 {
        assert(bytes_sent(t, start, from) + all_sent(pre) =~= bytes_sent(t, start, from));
    } else {
        let mid = choose|mid: int|
            all_ran(t, from, mid, pre.drop_last(), post.drop_last()) && #[trigger] op_ran(
                t,
                mid,
                to,
                pre.last(),
                post.last(),
                Ok(()),
            );
        let op = pre.last();
        lemma_all_operate(t, from, mid, pre.drop_last(), post.drop_last());
        lemma_ops_move_bytes(t, start, from, mid, pre.drop_last(), post.drop_last());
        if op is DelayNs {
            lemma_idling_moves_nothing(t, start, mid, to);
        } else {
            let rx = choose|rx: Seq<u8>| #[trigger]
                clocked(t, mid, to, op.sent(), rx) && post.last() == op.received(rx);
            lemma_frames_move_bytes(t, start, mid, to, op.sent(), rx);
        }
        assert(bytes_sent(t, start, to) =~= bytes_sent(t, start, from) + all_sent(pre));
    }
}

/// A transaction that succeeds sends the bytes of its operations, in order, and
/// receives a byte for each.
pub proof fn a_transaction_sends_its_operations(
    t: Seq<BusEvent>,
    from: int,
    mid: int,
    to: int,
    pre: Seq<OpView>,
    post: Seq<OpView>,
    r: Result<(), Spi1Error>,
)
    requires
        0 <= from,
        transacted(t, from, mid, to, pre, post, r),
        r is Ok,
    ensures
        bytes_sent(t, from, to) == all_sent(pre),
        bytes_received(t, from, to).len() == all_sent(pre).len(),
{
    lemma_ops_move_bytes(t, from, from + 9, mid, pre, post);
    reveal_with_fuel(bytes_sent, 10);
    reveal_with_fuel(bytes_received, 10);
    assert(bytes_sent(t, from, from + 9) =~= Seq::empty());
    assert(bytes_received(t, from, from + 9) =~= Seq::empty());
    assert(bytes_sent(t, from, to) == bytes_sent(t, from, mid));
    assert(bytes_sent(t, from, mid) =~= all_sent(pre));
}

/// A received operation keeps what it does and how long its buffers are.
pub proof fn an_operation_keeps_its_shape(op: OpView, rx: Seq<u8>)
    ensures
        op.received(rx).sent().len() == op.sent().len(),
        op is Write ==> op.received(rx) == op,
        op is Read && rx.len() == op.sent().len() ==> op.received(rx) == OpView::Read(rx),
        op is TransferInPlace && rx.len() == op.sent().len() ==> op.received(rx)
            == OpView::TransferInPlace(rx),
{
    if rx.len() == op.sent().len() {
        match op {
            OpView::Read(buf) => {
                assert(filled(buf, rx) =~= rx);
            },
            OpView::TransferInPlace(buf) => {
                assert(filled(buf, rx) =~= rx);
            },
            _ => {},
        }
    }
}

/// The internal select is high whenever the master is selected, so the bring-up never
/// arms a mode fault.
pub proof fn the_bring_up_never_arms_a_mode_fault(t: Seq<BusEvent>, at: int)
    requires
        0 <= at,
        brought_up(t, at),
    ensures
        forall|i: int|
            at <= i < at + 31 ==> (#[trigger] t[i] matches BusEvent::Write32(addr, _) ==> addr
                == SPI1_CFG2 ==> (last_written(t, SPI1_CR1, i) matches Some(value) && value
                & SPI_CR1_SSI != 0)),
{
    assert forall|i: int| at <= i < at + 31 implies (#[trigger] t[i] matches BusEvent::Write32(
        addr,
        _,
    ) ==> addr == SPI1_CFG2 ==> (last_written(t, SPI1_CR1, i) matches Some(value) && value
        & SPI_CR1_SSI != 0)) by {
        lemma_bring_up_writes(t, at, i);
        if i == at + 22 {
            lemma_setup_bits();
            reveal_with_fuel(last_written, 4);
        }
    }
}

/// The accesses of a bring-up that write the second configuration register, or come
/// before the peripherals have their clocks.
proof fn lemma_bring_up_writes(t: Seq<BusEvent>, at: int, i: int)
    requires
        brought_up(t, at),
        at <= i < at + 31,
    ensures
        t[i] matches BusEvent::Write32(addr, _) ==> addr == SPI1_CFG2 ==> i == at + 22,
        t[i] matches BusEvent::Write32(addr, _) ==> i >= at + 4 || addr == RCC_AHB2ENR1 || addr
            == RCC_APB2ENR,
        t[i] matches BusEvent::Read32(addr, _) ==> i >= at + 4 || addr == RCC_AHB2ENR1 || addr
            == RCC_APB2ENR,
        !moves_data(t[i]),
{
    if i < at + 4 {
        assert(i == at || i == at + 1 || i == at + 2 || i == at + 3);
    } else if i < at + 15 {
        assert(i == at + 4 || i == at + 5 || i == at + 6 || i == at + 7 || i == at + 8 || i == at
            + 9 || i == at + 10 || i == at + 11 || i == at + 12 || i == at + 13 || i == at + 14);
    } else if i < at + 23 {
        assert(i == at + 15 || i == at + 16 || i == at + 17 || i == at + 18 || i == at + 19 || i
            == at + 20 || i == at + 21 || i == at + 22);
    } else {
        lemma_rearmed_accesses(t, at + 23, i);
    }
}

/// The values of the setup, whatever was read.
proof fn lemma_setup_bits()
    by (bit_vector)
    ensures
        forall|v: u32| #[trigger] ((v & !0u32) | 0x0000_1100u32) & SPI_CR1_SSI != 0,
        forall|v: u32| #[trigger] ((v & !0u32) | RCC_AHB2ENR1_GPIOAEN) & RCC_AHB2ENR1_GPIOAEN != 0,
        forall|v: u32| #[trigger] ((v & !0u32) | RCC_APB2ENR_SPI1EN) & RCC_APB2ENR_SPI1EN != 0,
        forall|v: u32|
            {
                let w = #[trigger] ((v & !0x7000_01FFu32) | 0x6000_0007u32);
                &&& w & SPI_CFG1_DSIZE_MASK == SPI_CFG1_DSIZE_8BIT
                &&& w & SPI_CFG1_FTHLV_MASK == SPI_CFG1_FTHLV_1DATA
                &&& w & SPI_CFG1_MBR_MASK == SPI_CFG1_MBR_DIV128
            },
        forall|v: u32|
            {
                let w = #[trigger] ((v & !0xA7C6_0000u32) | 0x8440_0000u32);
                &&& w & SPI_CFG2_MASTER != 0
                &&& w & SPI_CFG2_COMM_MASK == SPI_CFG2_COMM_FULL_DUPLEX
                &&& w & SPI_CFG2_CPOL == 0
                &&& w & SPI_CFG2_CPHA == 0
                &&& w & SPI_CFG2_LSBFRST == 0
                &&& w & SPI_CFG2_SSM != 0
                &&& w & SPI_CFG2_SSOE == 0
            },
        forall|v: u32|
            {
                let w = #[trigger] ((v & !0x0000_FF00u32) | 0x0000_A900u32);
                &&& (w >> 8u32) & 3 == GPIO_MODER_OUTPUT
                &&& (w >> 10u32) & 3 == GPIO_MODER_ALTERNATE
                &&& (w >> 12u32) & 3 == GPIO_MODER_ALTERNATE
                &&& (w >> 14u32) & 3 == GPIO_MODER_ALTERNATE
                &&& w & !0x0000_FF00u32 == v & !0x0000_FF00u32
            },
        forall|v: u32|
            {
                let w = #[trigger] ((v & !0xFFF0_0000u32) | 0x5550_0000u32);
                &&& (w >> 20u32) & 0xF == GPIO_AF5
                &&& (w >> 24u32) & 0xF == GPIO_AF5
                &&& (w >> 28u32) & 0xF == GPIO_AF5
                &&& w & !0xFFF0_0000u32 == v & !0xFFF0_0000u32
            },
{
}

/// The bring-up touches no register but the clock enables before both clocks are on.
pub proof fn the_clocks_come_up_first(t: Seq<BusEvent>, at: int)
    requires
        0 <= at,
        brought_up(t, at),
    ensures
        last_written(t, RCC_AHB2ENR1, at + 4) matches Some(value) && value & RCC_AHB2ENR1_GPIOAEN
            != 0,
        last_written(t, RCC_APB2ENR, at + 4) matches Some(value) && value & RCC_APB2ENR_SPI1EN != 0,
        forall|i: int|
            at <= i < at + 4 ==> {
                ||| #[trigger] t[i] matches BusEvent::Read32(addr, _) && (addr == RCC_AHB2ENR1
                    || addr == RCC_APB2ENR)
                ||| t[i] matches BusEvent::Write32(addr, _) && (addr == RCC_AHB2ENR1 || addr
                    == RCC_APB2ENR)
            },
{
    lemma_setup_bits();
    reveal_with_fuel(last_written, 4);
    assert forall|i: int| at <= i < at + 4 implies {
        ||| #[trigger] t[i] matches BusEvent::Read32(addr, _) && (addr == RCC_AHB2ENR1 || addr
            == RCC_APB2ENR)
        ||| t[i] matches BusEvent::Write32(addr, _) && (addr == RCC_AHB2ENR1 || addr == RCC_APB2ENR)
    } by {
        assert(i == at || i == at + 1 || i == at + 2 || i == at + 3);
    }
}

/// The bring-up writes 8-bit frames, one frame of threshold and the slow clock, then
/// master, full duplex, mode 0, MSB first and software select, whatever the registers
/// read. PA4 is an output, and PA5 to PA7 belong to SPI1.
pub proof fn the_bring_up_configures_the_link(t: Seq<BusEvent>, at: int)
    requires
        0 <= at,
        brought_up(t, at),
    ensures
        t[at + 18] matches BusEvent::Write32(addr, value) && addr == SPI1_CFG1 && value
            & SPI_CFG1_DSIZE_MASK == SPI_CFG1_DSIZE_8BIT && value & SPI_CFG1_FTHLV_MASK
            == SPI_CFG1_FTHLV_1DATA && value & SPI_CFG1_MBR_MASK == SPI_CFG1_MBR_DIV128,
        t[at + 22] matches BusEvent::Write32(addr, value) && addr == SPI1_CFG2 && value
            & SPI_CFG2_MASTER != 0 && value & SPI_CFG2_COMM_MASK == SPI_CFG2_COMM_FULL_DUPLEX
            && value & SPI_CFG2_CPOL == 0 && value & SPI_CFG2_CPHA == 0 && value & SPI_CFG2_LSBFRST
            == 0 && value & SPI_CFG2_SSM != 0 && value & SPI_CFG2_SSOE == 0,
        t[at + 6] matches BusEvent::Write32(addr, value) && addr == GPIOA_AFRL && (value >> 20u32)
            & 0xF == GPIO_AF5 && (value >> 24u32) & 0xF == GPIO_AF5 && (value >> 28u32) & 0xF
            == GPIO_AF5,
        t[at + 8] matches BusEvent::Write32(addr, value) && addr == GPIOA_MODER && (value >> 8u32)
            & 3 == GPIO_MODER_OUTPUT && (value >> 10u32) & 3 == GPIO_MODER_ALTERNATE && (value
            >> 12u32) & 3 == GPIO_MODER_ALTERNATE && (value >> 14u32) & 3 == GPIO_MODER_ALTERNATE,
{
    lemma_setup_bits();
}

/// The bring-up leaves the internal select high and the engine enabled and started,
/// where the control register keeps what is written to it.
pub proof fn the_bring_up_leaves_the_engine_running(t: Seq<BusEvent>, at: int)
    requires
        0 <= at,
        brought_up(t, at),
        remembers(t, SPI1_CR1, at, at + 31),
    ensures
        last_written(t, SPI1_CR1, at + 31) matches Some(value) && value & SPI_CR1_SSI != 0 && value
            & SPI_CR1_SPE != 0 && value & SPI_CR1_CSTART != 0,
        last_written(t, SPI1_CR2, at + 31) matches Some(value) && value & SPI_CR2_TSIZE_MASK == 0,
{
    lemma_setup_bits();
    lemma_control_bits();
    reveal_with_fuel(last_written, 6);
    assert(t[at + 23] is Read32 && t[at + 27] is Read32 && t[at + 29] is Read32);
    assert(last_written(t, SPI1_CR1, at + 21) == last_written(t, SPI1_CR1, at + 23));
    assert(last_written(t, SPI1_CR1, at + 25) == last_written(t, SPI1_CR1, at + 27));
    assert(last_written(t, SPI1_CR1, at + 29) is Some);
}

/// The accesses `[a, b)` did for one operation what its buffers ask for. `before` and
/// `after` are what it held.
///
/// A write sends its buffer, whole and in order, and drops what comes back. A read sends
/// a zero for each byte and fills its buffer with what comes back. A transfer sends the
/// second buffer and fills the first, with zeros sent behind the end of the shorter one.
/// A transfer in place sends its buffer and fills it. A delay idles for its nanoseconds.
pub open spec fn served(
    t: Seq<BusEvent>,
    a: int,
    b: int,
    before: OpView,
    after: OpView,
) -> bool {
    let tx = bytes_sent(t, a, b);
    let rx = bytes_received(t, a, b);
    match before {
        OpView::Write(buf) => {
            &&& tx == buf
            &&& rx.len() == buf.len()
            &&& after == OpView::Write(buf)
        },
        OpView::Read(buf) => {
            &&& tx.len() == buf.len()
            &&& forall|i: int| 0 <= i < tx.len() ==> #[trigger] tx[i] == 0
            &&& rx.len() == buf.len()
            &&& after == OpView::Read(rx)
        },
        OpView::Transfer(read, write) => {
            &&& tx.len() >= read.len() && tx.len() >= write.len()
            &&& tx.len() == read.len() || tx.len() == write.len()
            &&& forall|i: int| 0 <= i < write.len() ==> #[trigger] tx[i] == write[i]
            &&& forall|i: int| write.len() <= i < tx.len() ==> #[trigger] tx[i] == 0
            &&& rx.len() == tx.len()
            &&& after == OpView::Transfer(rx.take(read.len() as int), write)
        },
        OpView::TransferInPlace(buf) => {
            &&& tx == buf
            &&& rx.len() == buf.len()
            &&& after == OpView::TransferInPlace(rx)
        },
        OpView::DelayNs(ns) => {
            &&& b == a + ns
            &&& forall|i: int| a <= i < b ==> #[trigger] t[i] == BusEvent::Nop
            &&& after == before
        },
    }
}

/// `cuts` parts the accesses `[from, to)` into one run for each operation, in order.
pub open spec fn parts(cuts: Seq<int>, from: int, to: int, count: nat) -> bool {
    &&& cuts.len() == count + 1
    &&& cuts[0] == from
    &&& cuts[count as int] == to
    &&& forall|k: int| 0 <= k < count ==> #[trigger] cuts[k] <= cuts[k + 1]
}

/// An operation that succeeds was served as its buffers ask.
pub proof fn an_operation_is_served_from_its_buffers(
    t: Seq<BusEvent>,
    from: int,
    to: int,
    pre: OpView,
    post: OpView,
    r: Result<(), Spi1Error>,
)
    requires
        op_ran(t, from, to, pre, post, r),
        r is Ok,
    ensures
        from <= to,
        served(t, from, to, pre, post),
{
    lemma_op_operates(t, from, to, pre, post, r);
    if !(pre is DelayNs) {
        let sent = pre.sent();
        let rx = choose|rx: Seq<u8>| #[trigger]
            clocked(t, from, to, sent, rx) && post == pre.received(rx);
        lemma_frames_move_bytes(t, from, from, to, sent, rx);
        assert(bytes_sent(t, from, to) =~= sent);
        assert(bytes_received(t, from, to) =~= rx);
        lemma_as_many(t, from, to, sent, rx);
        match pre {
            OpView::Read(buf) => {
                assert(filled(buf, rx) =~= rx);
            },
            OpView::TransferInPlace(buf) => {
                assert(filled(buf, rx) =~= rx);
            },
            OpView::Transfer(read, write) => {
                assert(filled(read, rx) =~= rx.take(read.len() as int));
            },
            _ => {},
        }
    }
}

/// Frames receive a byte for each that they send.
proof fn lemma_as_many(t: Seq<BusEvent>, from: int, to: int, tx: Seq<u8>, rx: Seq<u8>)
    requires
        clocked(t, from, to, tx, rx),
    ensures
        tx.len() == rx.len(),
{
}

/// Operations that all succeed are served one after the other.
proof fn lemma_all_served(
    t: Seq<BusEvent>,
    from: int,
    to: int,
    pre: Seq<OpView>,
    post: Seq<OpView>,
) -> (cuts: Seq<int>)
    requires
        all_ran(t, from, to, pre, post),
    ensures
        pre.len() == post.len(),
        parts(cuts, from, to, pre.len()),
        forall|k: int|
            0 <= k < pre.len() ==> served(t, #[trigger] cuts[k], cuts[k + 1], pre[k], post[k]),
    decreases pre.len(),
{
    if pre.len() == 0 {
        seq![from]
    } else {
        let n = pre.len() - 1;
        let mid = choose|mid: int|
            all_ran(t, from, mid, pre.drop_last(), post.drop_last()) && #[trigger] op_ran(
                t,
                mid,
                to,
                pre.last(),
                post.last(),
                Ok(()),
            );
        let front = lemma_all_served(t, from, mid, pre.drop_last(), post.drop_last());
        an_operation_is_served_from_its_buffers(t, mid, to, pre.last(), post.last(), Ok(()));
        let cuts = front.push(to);
        assert forall|k: int| 0 <= k < pre.len() implies served(
            t,
            #[trigger] cuts[k],
            cuts[k + 1],
            pre[k],
            post[k],
        ) by {
            if k < n {
                assert(served(t, front[k], front[k + 1], pre.drop_last()[k], post.drop_last()[k]));
            }
        }
        assert forall|k: int| 0 <= k < pre.len() implies #[trigger] cuts[k] <= cuts[k + 1] by {
            if k < n {
                assert(front[k] <= front[k + 1]);
            }
        }
        cuts
    }
}

/// A transaction that succeeds serves every operation from its own buffers, one after
/// the other, between the assertion of the chip select and its release: all bytes of a
/// write go out in order, and what a read or a transfer holds afterwards is what came
/// in. Nothing else moves a byte.
pub proof fn a_transaction_serves_every_operation(
    t: Seq<BusEvent>,
    from: int,
    mid: int,
    to: int,
    pre: Seq<OpView>,
    post: Seq<OpView>,
    r: Result<(), Spi1Error>,
)
    requires
        0 <= from,
        transacted(t, from, mid, to, pre, post, r),
        r is Ok,
    ensures
        pre.len() == post.len(),
        exists|cuts: Seq<int>| #[trigger]
            parts(cuts, from + 9, mid, pre.len()) && forall|k: int|
                0 <= k < pre.len() ==> served(t, #[trigger] cuts[k], cuts[k + 1], pre[k], post[k]),
        t[from + 8] == BusEvent::Write32(0x5202_0018, 0x0010_0000),
        t[mid] == BusEvent::Write32(0x5202_0018, 0x0000_0010),
        forall|i: int| from <= i < to && moves_data(#[trigger] t[i]) ==> from + 8 < i < mid,
{
    let cuts = lemma_all_served(t, from + 9, mid, pre, post);
    the_chip_is_selected_for_the_operations_alone(t, from, mid, to, pre, post, r);
}

/// A transaction of one write that succeeds puts the buffer on the wire, all of it, in
/// order, and nothing else.
pub proof fn a_write_sends_its_whole_buffer(
    t: Seq<BusEvent>,
    from: int,
    mid: int,
    to: int,
    buf: Seq<u8>,
    post: Seq<OpView>,
    r: Result<(), Spi1Error>,
)
    requires
        0 <= from,
        transacted(t, from, mid, to, seq![OpView::Write(buf)], post, r),
        r is Ok,
    ensures
        bytes_sent(t, from, to) == buf,
        post == seq![OpView::Write(buf)],
{
    let pre = seq![OpView::Write(buf)];
    a_transaction_sends_its_operations(t, from, mid, to, pre, post, r);
    a_transaction_serves_every_operation(t, from, mid, to, pre, post, r);
    assert(pre.drop_last() =~= Seq::<OpView>::empty());
    assert(all_sent(pre.drop_last()) =~= Seq::<u8>::empty());
    assert(all_sent(pre) =~= buf);
    let cuts = choose|cuts: Seq<int>| #[trigger]
        parts(cuts, from + 9, mid, pre.len()) && forall|k: int|
            0 <= k < pre.len() ==> served(t, #[trigger] cuts[k], cuts[k + 1], pre[k], post[k]);
    let first = 0int;
    assert(served(t, cuts[first], cuts[first + 1], pre[first], post[first]));
    assert(post =~= pre);
}

/// What the operations of a list hold are their buffers.
pub proof fn an_operation_holds_its_buffers(operations: Seq<SpiOperation>, i: int)
    requires
        0 <= i < operations.len(),
    ensures
        views(operations).len() == operations.len(),
        match operations[i] {
            SpiOperation::Read(buf) => views(operations)[i] == OpView::Read(buf@),
            SpiOperation::Write(buf) => views(operations)[i] == OpView::Write(buf@),
            SpiOperation::Transfer(read, write) => views(operations)[i] == OpView::Transfer(
                read@,
                write@,
            ),
            SpiOperation::TransferInPlace(buf) => views(operations)[i] == OpView::TransferInPlace(
                buf@,
            ),
            SpiOperation::DelayNs(ns) => views(operations)[i] == OpView::DelayNs(ns),
        },
{
}

/// A byte goes out only right behind a status that shows room and no overrun, and a
/// byte is taken only right behind one that shows a frame and no overrun.
pub open spec fn paced(t: Seq<BusEvent>, i: int) -> bool {
    &&& t[i] is Write8 ==> (t[i - 1] matches BusEvent::Read32(addr, value) && addr == 0x5001_3014
        && value & 2 == 2 && value & 0x40 == 0)
    &&& t[i] is Read8 ==> (t[i - 1] matches BusEvent::Read32(addr, value) && addr == 0x5001_3014
        && value & 1 == 1 && value & 0x40 == 0)
}

/// A frame is paced.
proof fn lemma_framed_paced(
    t: Seq<BusEvent>,
    from: int,
    to: int,
    tx: u8,
    r: Result<u8, Spi1Error>,
)
    requires
        framed(t, from, to, tx, r),
    ensures
        forall|i: int| from <= i < to ==> #[trigger] paced(t, i),
{
    match r {
        Ok(rx) => {
            let mid = choose|mid: int| #[trigger]
                waited(t, from, mid, SPI_SR_TXP, Ok(())) && sent_and_read(t, mid, to, tx, rx);
            assert forall|i: int| from <= i < to implies #[trigger] paced(t, i) by {
                assert(i < mid ==> polls(t[i]));
                assert(mid < i < to - 1 ==> polls(t[i]));
            }
        },
        Err(e) => {
            if waited(t, from, to, SPI_SR_TXP, Err(e)) {
                assert forall|i: int| from <= i < to implies #[trigger] paced(t, i) by {
                    assert(polls(t[i]));
                }
            } else {
                let mid = choose|mid: int| #[trigger]
                    waited(t, from, mid, SPI_SR_TXP, Ok(())) && sent_and_lost(t, mid, to, tx, e);
                assert forall|i: int| from <= i < to implies #[trigger] paced(t, i) by {
                    assert(i < mid ==> polls(t[i]));
                    assert(mid < i ==> polls(t[i]));
                }
            }
        },
    }
}

/// Clocked frames are paced.
proof fn lemma_clocked_paced(t: Seq<BusEvent>, from: int, to: int, tx: Seq<u8>, rx: Seq<u8>)
    requires
        clocked(t, from, to, tx, rx),
    ensures
        forall|i: int| from <= i < to ==> #[trigger] paced(t, i),
    decreases tx.len(),
{
    if tx.len() > 0 {
        let mid = choose|mid: int|
            clocked(t, from, mid, tx.drop_last(), rx.drop_last()) && #[trigger] framed(
                t,
                mid,
                to,
                tx.last(),
                Ok(rx.last()),
            );
        lemma_clocked_paced(t, from, mid, tx.drop_last(), rx.drop_last());
        lemma_framed_paced(t, mid, to, tx.last(), Ok(rx.last()));
    }
}

/// An operation is paced, and one that fails ends in the poll that shows why.
proof fn lemma_op_paced(
    t: Seq<BusEvent>,
    from: int,
    to: int,
    pre: OpView,
    post: OpView,
    r: Result<(), Spi1Error>,
)
    requires
        op_ran(t, from, to, pre, post, r),
    ensures
        forall|i: int| from <= i < to ==> #[trigger] paced(t, i),
        r matches Err(e) ==> gave_up(t, from, to, e),
{
    if pre is DelayNs {
        assert forall|i: int| from <= i < to implies #[trigger] paced(t, i) by {
            assert(t[i] == BusEvent::Nop);
        }
    } else {
        let tx = pre.sent();
        match r {
            Ok(_) => {
                let rx = choose|rx: Seq<u8>| #[trigger]
                    clocked(t, from, to, tx, rx) && post == pre.received(rx);
                lemma_clocked_paced(t, from, to, tx, rx);
            },
            Err(e) => {
                let rx = choose|rx: Seq<u8>| #[trigger]
                    broke_off(t, from, to, tx, rx, e) && post == pre.received(rx);
                let mid = choose|mid: int|
                    clocked(t, from, mid, tx.take(rx.len() as int), rx) && #[trigger] framed(
                        t,
                        mid,
                        to,
                        tx[rx.len() as int],
                        Err(e),
                    );
                lemma_clocked_operates(t, from, mid, tx.take(rx.len() as int), rx);
                lemma_clocked_paced(t, from, mid, tx.take(rx.len() as int), rx);
                lemma_framed_paced(t, mid, to, tx[rx.len() as int], Err(e));
                lemma_frame_gave_up(t, mid, to, tx[rx.len() as int], e);
            },
        }
    }
}

/// The accesses `[from, to)` end in the polls that show why: an overrun, or as many
/// polls as the budget holds, none of which shows an overrun, all for the same flag and
/// none of which shows it.
pub open spec fn gave_up(t: Seq<BusEvent>, from: int, to: int, e: Spi1Error) -> bool {
    match e {
        Spi1Error::Overrun => from < to && (t[to - 1] matches BusEvent::Read32(addr, value) && addr
            == 0x5001_3014 && value & 0x40 != 0),
        Spi1Error::Timeout => {
            &&& from <= to - 100_000
            &&& forall|i: int|
                to - 100_000 <= i < to ==> (#[trigger] t[i] matches BusEvent::Read32(addr, value)
                    && addr == 0x5001_3014 && value & 0x40 == 0 && (value & 2 != 2 || value & 1
                    != 1))
        },
    }
}

/// A frame that fails ends in the polls that show why.
proof fn lemma_frame_gave_up(t: Seq<BusEvent>, from: int, to: int, tx: u8, e: Spi1Error)
    requires
        framed(t, from, to, tx, Err(e)),
    ensures
        gave_up(t, from, to, e),
{
    if waited(t, from, to, SPI_SR_TXP, Err(e)) {
        assert forall|i: int| to - 100_000 <= i < to && e == Spi1Error::Timeout implies (
        #[trigger] t[i] matches BusEvent::Read32(addr, value) && addr == 0x5001_3014 && value & 0x40
            == 0 && (value & 2 != 2 || value & 1 != 1)) by {
            assert(undecided(t[i], SPI_SR_TXP));
        }
    } else {
        let mid = choose|mid: int| #[trigger]
            waited(t, from, mid, SPI_SR_TXP, Ok(())) && sent_and_lost(t, mid, to, tx, e);
        assert forall|i: int| to - 100_000 <= i < to && e == Spi1Error::Timeout implies (
        #[trigger] t[i] matches BusEvent::Read32(addr, value) && addr == 0x5001_3014 && value & 0x40
            == 0 && (value & 2 != 2 || value & 1 != 1)) by {
            assert(undecided(t[i], SPI_SR_RXP));
        }
    }
}

/// Operations are paced.
proof fn lemma_all_paced(
    t: Seq<BusEvent>,
    from: int,
    to: int,
    pre: Seq<OpView>,
    post: Seq<OpView>,
)
    requires
        all_ran(t, from, to, pre, post),
    ensures
        forall|i: int| from <= i < to ==> #[trigger] paced(t, i),
    decreases pre.len(),
{
    if pre.len() > 0 {
        let mid = choose|mid: int|
            all_ran(t, from, mid, pre.drop_last(), post.drop_last()) && #[trigger] op_ran(
                t,
                mid,
                to,
                pre.last(),
                post.last(),
                Ok(()),
            );
        lemma_all_paced(t, from, mid, pre.drop_last(), post.drop_last());
        lemma_op_paced(t, mid, to, pre.last(), post.last(), Ok(()));
    }
}

/// A byte moves only when the status allows it, in every transaction. One that fails
/// has seen the reason: an overrun in its last poll, or a full budget of polls in vain.
pub proof fn a_transaction_moves_bytes_only_when_ready(
    t: Seq<BusEvent>,
    from: int,
    mid: int,
    to: int,
    pre: Seq<OpView>,
    post: Seq<OpView>,
    r: Result<(), Spi1Error>,
)
    requires
        0 <= from,
        transacted(t, from, mid, to, pre, post, r),
    ensures
        forall|i: int| from + 9 <= i < mid ==> #[trigger] paced(t, i),
        r matches Err(e) ==> gave_up(t, from + 9, mid, e),
{
    match r {
        Ok(_) => {
            lemma_all_paced(t, from + 9, mid, pre, post);
        },
        Err(e) => {
            let k = choose|k: int| #[trigger] ran_until(t, from + 9, mid, pre, post, k, e);
            let cut = choose|cut: int|
                all_ran(t, from + 9, cut, pre.take(k), post.take(k)) && #[trigger] op_ran(
                    t,
                    cut,
                    mid,
                    pre[k],
                    post[k],
                    Err(e),
                );
            lemma_all_operate(t, from + 9, cut, pre.take(k), post.take(k));
            lemma_all_paced(t, from + 9, cut, pre.take(k), post.take(k));
            lemma_op_paced(t, cut, mid, pre[k], post[k], Err(e));
        },
    }
}

/// On a bus that is always ready every transaction succeeds: where each status shows
/// room, a frame and no overrun, there is nothing to fail on.
pub proof fn a_ready_bus_fails_no_transaction(
    t: Seq<BusEvent>,
    from: int,
    mid: int,
    to: int,
    pre: Seq<OpView>,
    post: Seq<OpView>,
    r: Result<(), Spi1Error>,
)
    requires
        0 <= from,
        transacted(t, from, mid, to, pre, post, r),
        forall|i: int|
            from + 9 <= i < mid ==> (#[trigger] t[i] matches BusEvent::Read32(_, value) ==> value
                & 2 == 2 && value & 1 == 1 && value & 0x40 == 0),
    ensures
        r is Ok,
{
    a_transaction_moves_bytes_only_when_ready(t, from, mid, to, pre, post, r);
    if let Err(e) = r {
        assert(t[mid - 1] is Read32);
    }
}

/// A transaction that fails stops at one operation: those before it were served, those
/// behind it are untouched, and the one it stopped at sent a first part of what it had
/// to send, and kept its buffers beyond what it received.
pub proof fn a_failed_transaction_stops_at_one_operation(
    t: Seq<BusEvent>,
    from: int,
    mid: int,
    to: int,
    pre: Seq<OpView>,
    post: Seq<OpView>,
    e: Spi1Error,
)
    requires
        0 <= from,
        transacted(t, from, mid, to, pre, post, Err(e)),
    ensures
        pre.len() == post.len(),
        exists|k: int, cut: int| #[trigger]
            stopped_at(t, from + 9, cut, mid, pre, post, k),
{
    let k = choose|k: int| #[trigger] ran_until(t, from + 9, mid, pre, post, k, e);
    let cut = choose|cut: int|
        all_ran(t, from + 9, cut, pre.take(k), post.take(k)) && #[trigger] op_ran(
            t,
            cut,
            mid,
            pre[k],
            post[k],
            Err(e),
        );
    let front = lemma_all_served(t, from + 9, cut, pre.take(k), post.take(k));
    assert forall|i: int| 0 <= i < k implies served(
        t,
        #[trigger] front[i],
        front[i + 1],
        pre[i],
        post[i],
    ) by {
        assert(served(t, front[i], front[i + 1], pre.take(k)[i], post.take(k)[i]));
    }
    lemma_op_broken_off(t, cut, mid, pre[k], post[k], e);
    assert(pre.take(k).len() == k as nat);
    assert(parts(front, from + 9, cut, k as nat));
    assert(stopped_at(t, from + 9, cut, mid, pre, post, k));
}

/// An operation that fails sent a first part of what it had to send.
proof fn lemma_op_broken_off(
    t: Seq<BusEvent>,
    cut: int,
    to: int,
    pre: OpView,
    post: OpView,
    e: Spi1Error,
)
    requires
        op_ran(t, cut, to, pre, post, Err(e)),
    ensures
        broken_off(t, cut, to, pre, post),
{
    let sent = pre.sent();
    let rx = choose|rx: Seq<u8>| #[trigger]
        broke_off(t, cut, to, sent, rx, e) && post == pre.received(rx);
    let last = choose|last: int|
        clocked(t, cut, last, sent.take(rx.len() as int), rx) && #[trigger] framed(
            t,
            last,
            to,
            sent[rx.len() as int],
            Err(e),
        );
    lemma_clocked_operates(t, cut, last, sent.take(rx.len() as int), rx);
    lemma_frames_move_bytes(t, cut, cut, last, sent.take(rx.len() as int), rx);
    lemma_frame_lost(t, cut, last, to, sent[rx.len() as int], e);
    assert(bytes_received(t, cut, last) =~= rx);
    assert(bytes_sent(t, cut, last) =~= sent.take(rx.len() as int));
    let tx = bytes_sent(t, cut, to);
    let got = rx.len() as int;
    assert(tx == sent.take(got) || tx =~= sent.take(got + 1));
    lemma_op_operates(t, cut, to, pre, post, Err(e));
    match pre {
        OpView::Read(buf) => {
            assert(filled(buf, rx) =~= rx + buf.skip(got));
        },
        OpView::Write(buf) => {
            assert(tx =~= buf.take(tx.len() as int));
        },
        OpView::TransferInPlace(buf) => {
            assert(filled(buf, rx) =~= rx + buf.skip(got));
            assert(tx =~= buf.take(tx.len() as int));
        },
        _ => {},
    }
}

/// A frame that fails sends its byte or none, and receives none.
proof fn lemma_frame_lost(
    t: Seq<BusEvent>,
    start: int,
    from: int,
    to: int,
    tx: u8,
    e: Spi1Error,
)
    requires
        start <= from,
        framed(t, from, to, tx, Err(e)),
    ensures
        bytes_sent(t, start, to) == bytes_sent(t, start, from) || bytes_sent(t, start, to)
            == bytes_sent(t, start, from).push(tx),
        bytes_received(t, start, to) == bytes_received(t, start, from),
{
    if waited(t, from, to, SPI_SR_TXP, Err(e)) {
        lemma_polls_move_nothing(t, start, from, to);
    } else {
        let mid = choose|mid: int| #[trigger]
            waited(t, from, mid, SPI_SR_TXP, Ok(())) && sent_and_lost(t, mid, to, tx, e);
        lemma_polls_move_nothing(t, start, from, mid);
        assert(bytes_sent(t, start, mid + 1) == bytes_sent(t, start, mid).push(tx));
        assert(bytes_received(t, start, mid + 1) == bytes_received(t, start, mid));
        lemma_polls_move_nothing(t, start, mid + 1, to);
    }
}

/// The accesses `[cut, to)` broke off in an operation: they sent a first part of what it
/// had to send, and it holds what was received, and its own bytes behind that.
pub open spec fn broken_off(
    t: Seq<BusEvent>,
    cut: int,
    to: int,
    pre: OpView,
    post: OpView,
) -> bool {
    let tx = bytes_sent(t, cut, to);
    let rx = bytes_received(t, cut, to);
    &&& tx.len() == rx.len() || tx.len() == rx.len() + 1
    &&& match pre {
        OpView::Write(buf) => {
            &&& rx.len() < buf.len()
            &&& tx == buf.take(tx.len() as int)
            &&& post == pre
        },
        OpView::Read(buf) => {
            &&& rx.len() < buf.len()
            &&& forall|i: int| 0 <= i < tx.len() ==> #[trigger] tx[i] == 0
            &&& post == OpView::Read(rx + buf.skip(rx.len() as int))
        },
        OpView::Transfer(read, write) => {
            &&& rx.len() < read.len() || rx.len() < write.len()
            &&& forall|i: int| 0 <= i < tx.len() ==> #[trigger] tx[i] == (if i < write.len() {
                write[i]
            } else {
                0
            })
            &&& post matches OpView::Transfer(got, kept) && kept == write && got.len()
                == read.len() && forall|i: int|
                0 <= i < read.len() ==> #[trigger] got[i] == (if i < rx.len() {
                    rx[i]
                } else {
                    read[i]
                })
        },
        OpView::TransferInPlace(buf) => {
            &&& rx.len() < buf.len()
            &&& tx == buf.take(tx.len() as int)
            &&& post == OpView::TransferInPlace(rx + buf.skip(rx.len() as int))
        },
        OpView::DelayNs(_) => false,
    }
}

/// The accesses `[from, to)` served the operations before `k`, up to `cut`, broke off
/// in operation `k`, and left the others as they were.
pub open spec fn stopped_at(
    t: Seq<BusEvent>,
    from: int,
    cut: int,
    to: int,
    pre: Seq<OpView>,
    post: Seq<OpView>,
    k: int,
) -> bool {
    &&& 0 <= k < pre.len()
    &&& exists|cuts: Seq<int>| #[trigger]
        parts(cuts, from, cut, k as nat) && forall|i: int|
            0 <= i < k ==> served(t, #[trigger] cuts[i], cuts[i + 1], pre[i], post[i])
    &&& forall|i: int| k < i < pre.len() ==> #[trigger] post[i] == pre[i]
    &&& broken_off(t, cut, to, pre[k], post[k])
}

/// The bits of a pin field, whatever the register read.
proof fn lemma_pin_bits(v: u32)
    by (bit_vector)
    ensures
        ((v & !0x0000_00F0u32) | 0u32) & 0x0000_00F0u32 == 0,
        ((v & !0x0000_00F0u32) | 0u32) & !0x0000_00F0u32 == v & !0x0000_00F0u32,
        ((v & !0x0000_FF00u32) | 0x0000_FF00u32) & 0x0000_FF00u32 == 0x0000_FF00u32,
        ((v & !0x0000_FF00u32) | 0x0000_FF00u32) & !0x0000_FF00u32 == v & !0x0000_FF00u32,
        ((v & !0x0000_FF00u32) | 0x0000_1000u32) & 0x0000_FF00u32 == 0x0000_1000u32,
        ((v & !0x0000_FF00u32) | 0x0000_1000u32) & !0x0000_FF00u32 == v & !0x0000_FF00u32,
        ((v & !0x0000_FF00u32) | 0x0000_A900u32) & !0x0000_FF00u32 == v & !0x0000_FF00u32,
        ((v & !0xFFF0_0000u32) | 0x5550_0000u32) & !0xFFF0_0000u32 == v & !0xFFF0_0000u32,
        ((v & !0x7000_01FFu32) | 0x6000_0007u32) & !0x7000_01FFu32 == v & !0x7000_01FFu32,
        ((v & !0xA7C6_0000u32) | 0x8440_0000u32) & !0xA7C6_0000u32 == v & !0xA7C6_0000u32,
{
}

/// The bring-up releases the chip select before it makes the pin an output, so the chip
/// is never selected by it. The pins are push-pull and fast, the input has a pull-up,
/// and every bit of another pin keeps what was read.
pub proof fn the_bring_up_never_selects_the_chip(t: Seq<BusEvent>, at: int)
    requires
        0 <= at,
        brought_up(t, at),
    ensures
        t[at + 4] == BusEvent::Write32(0x5202_0018, 0x0000_0010),
        forall|i: int|
            at <= i < at + 31 ==> (#[trigger] t[i] matches BusEvent::Write32(addr, _) ==> addr
                == GPIOA_BSRR ==> i == at + 4),
        t[at + 9] matches BusEvent::Read32(a, v) && a == GPIOA_OTYPER && (t[at + 10] matches BusEvent::Write32(
            b,
            w,
        ) && b == GPIOA_OTYPER && w & 0x0000_00F0u32 == 0 && w & !0x0000_00F0u32 == v
            & !0x0000_00F0u32),
        t[at + 11] matches BusEvent::Read32(a, v) && a == GPIOA_OSPEEDR && (t[at + 12] matches BusEvent::Write32(
            b,
            w,
        ) && b == GPIOA_OSPEEDR && w & 0x0000_FF00u32 == 0x0000_FF00u32 && w & !0x0000_FF00u32 == v
            & !0x0000_FF00u32),
        t[at + 13] matches BusEvent::Read32(a, v) && a == GPIOA_PUPDR && (t[at + 14] matches BusEvent::Write32(
            b,
            w,
        ) && b == GPIOA_PUPDR && w & 0x0000_FF00u32 == 0x0000_1000u32 && w & !0x0000_FF00u32 == v
            & !0x0000_FF00u32),
        t[at + 7] matches BusEvent::Read32(a, v) && a == GPIOA_MODER && (t[at + 8] matches BusEvent::Write32(
            b,
            w,
        ) && b == GPIOA_MODER && w & !0x0000_FF00u32 == v & !0x0000_FF00u32),
        t[at + 5] matches BusEvent::Read32(a, v) && a == GPIOA_AFRL && (t[at + 6] matches BusEvent::Write32(
            b,
            w,
        ) && b == GPIOA_AFRL && w & !0xFFF0_0000u32 == v & !0xFFF0_0000u32),
{
    assert forall|i: int| at <= i < at + 31 implies (#[trigger] t[i] matches BusEvent::Write32(
        addr,
        _,
    ) ==> addr == GPIOA_BSRR ==> i == at + 4) by {
        if i < at + 23 {
            assert(i == at || i == at + 1 || i == at + 2 || i == at + 3 || i == at + 4 || i == at
                + 5 || i == at + 6 || i == at + 7 || i == at + 8 || i == at + 9 || i == at + 10
                || i == at + 11 || i == at + 12 || i == at + 13 || i == at + 14 || i == at + 15
                || i == at + 16 || i == at + 17 || i == at + 18 || i == at + 19 || i == at + 20
                || i == at + 21 || i == at + 22);
        } else {
            lemma_rearmed_accesses(t, at + 23, i);
        }
    }
    lemma_pin_bits(t[at + 5]->Read32_1);
    lemma_pin_bits(t[at + 7]->Read32_1);
    lemma_pin_bits(t[at + 9]->Read32_1);
    lemma_pin_bits(t[at + 11]->Read32_1);
    lemma_pin_bits(t[at + 13]->Read32_1);
}

/// A transaction releases the chip, clears the flags that it may have raised, and where
/// it failed disables the engine. It does nothing else behind the operations.
pub proof fn a_transaction_cleans_up(
    t: Seq<BusEvent>,
    from: int,
    mid: int,
    to: int,
    pre: Seq<OpView>,
    post: Seq<OpView>,
    r: Result<(), Spi1Error>,
)
    requires
        transacted(t, from, mid, to, pre, post, r),
    ensures
        t[mid] == BusEvent::Write32(0x5202_0018, 0x0000_0010),
        t[mid + 1] == BusEvent::Write32(0x5001_3018, 0x0000_0258),
        r is Ok ==> to == mid + 2,
        r is Err ==> to == mid + 4 && (t[mid + 3] matches BusEvent::Write32(addr, value) && addr
            == 0x5001_3000 && value & 1 == 0),
{
    lemma_control_bits();
}

/// The engine is off while it is set up, and the master that is set up holds its select
/// high and stops on a full receiver.
pub proof fn the_bring_up_sets_the_engine_up_disabled(t: Seq<BusEvent>, at: int)
    requires
        0 <= at,
        brought_up(t, at),
    ensures
        t[at + 16] matches BusEvent::Write32(addr, value) && addr == 0x5001_3000 && value & 1 == 0,
        t[at + 19] matches BusEvent::Read32(a, v) && a == 0x5001_3000 && (t[at + 20] matches BusEvent::Write32(
            b,
            w,
        ) && b == 0x5001_3000 && w == (v & !0u32) | 0x0000_1100u32),
        t[at + 17] matches BusEvent::Read32(a, v) && a == 0x5001_3008 && (t[at + 18] matches BusEvent::Write32(
            b,
            w,
        ) && b == 0x5001_3008 && w & !0x7000_01FFu32 == v & !0x7000_01FFu32),
        t[at + 21] matches BusEvent::Read32(a, v) && a == 0x5001_300C && (t[at + 22] matches BusEvent::Write32(
            b,
            w,
        ) && b == 0x5001_300C && w & !0xA7C6_0000u32 == v & !0xA7C6_0000u32),
{
    lemma_control_bits();
    lemma_pin_bits(t[at + 17]->Read32_1);
    lemma_pin_bits(t[at + 21]->Read32_1);
}

/// A modification is a read and a write of the same register, and clears and sets the
/// bits that it names. A trace that grows keeps what it has.
pub proof fn a_modification_reads_and_writes_back(
    t: Seq<BusEvent>,
    post: Seq<BusEvent>,
    at: int,
    addr: u32,
    clear: u32,
    set: u32,
    count: int,
    i: int,
)
    requires
        0 <= i < t.len(),
        0 <= count,
    ensures
        modified(t, at, addr, clear, set) ==> (t[at] matches BusEvent::Read32(a, v) && a == addr && t[at
            + 1] == BusEvent::Write32(addr, (v & !clear) | set)),
        extends(t, post, count) ==> post.len() == t.len() + count && post[i] == t[i],
        grown(t, post) ==> post.len() >= t.len() && post[i] == t[i],
{
    if extends(t, post, count) {
        assert(post.take(t.len() as int)[i] == t[i]);
    }
}

} // verus!
