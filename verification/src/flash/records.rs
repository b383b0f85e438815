//! The boot metadata in physical Bank 1.
//!
//! Page 0 holds two append-only logs of quad-word slots: the anti-rollback counter
//! (its value is the largest that a slot holds) and the boot count (its value is the
//! number of programmed slots). Page 1 holds the pending and the outcome record.
//!
//! A counter slot holds its value in its first word. The all-ones value, which reads
//! like an erased word, is marked in the second word instead.

use vstd::prelude::*;

use crate::flash::bus::word_bytes;
use crate::flash::regs::BANK_SIZE;
use crate::flash::regs::ERASED_WORD;
use crate::flash::regs::META_BOOT_OFFSET;
use crate::flash::regs::META_LOG_SLOTS;
use crate::flash::regs::META_NVCNT_OFFSET;
use crate::flash::regs::META_OUTCOME_OFFSET;
use crate::flash::regs::META_PENDING_OFFSET;
use crate::flash::regs::PAGE_SIZE;
use crate::flash::regs::OUTCOME_AUTO_REVERTED;
use crate::flash::regs::OUTCOME_NONE;
use crate::flash::regs::PENDING_ARMED_BANK1;
use crate::flash::regs::PENDING_ARMED_BANK2;
use crate::flash::regs::PENDING_NONE;
use crate::flash::regs::QUAD_WORD_LEN;
use crate::image::format::le32;
use crate::update::seam::erased_range;
use crate::update::seam::BankId;
use crate::update::seam::PendingFlag;
use crate::update::seam::UpdateOutcome;

verus! {

/// The second word of a counter slot that holds the all-ones value.
pub const NVCNT_TOP_MARK: u32 = 0;

/// The end of the metadata in physical Bank 1.
pub const META_END: u32 = 0x4000;

/// The pending record that a word encodes. A torn or corrupt word is no record, so
/// that the running bank stays bootable.
pub open spec fn pending_of(word: int) -> PendingFlag {
    if word == PENDING_ARMED_BANK1 {
        PendingFlag::Armed(BankId::Bank1)
    } else if word == PENDING_ARMED_BANK2 {
        PendingFlag::Armed(BankId::Bank2)
    } else {
        PendingFlag::Clear
    }
}

/// The pending record that a word encodes.
pub fn decode_pending(word: u32) -> (r: PendingFlag)
    ensures
        r == pending_of(word as int),
{
    if word == PENDING_ARMED_BANK1 {
        PendingFlag::Armed(BankId::Bank1)
    } else if word == PENDING_ARMED_BANK2 {
        PendingFlag::Armed(BankId::Bank2)
    } else {
        PendingFlag::Clear
    }
}

/// The word of a pending record.
pub fn encode_pending(flag: PendingFlag) -> (r: u32)
    ensures
        pending_of(r as int) == flag,
        r == PENDING_NONE <==> flag == PendingFlag::Clear,
{
    match flag {
        PendingFlag::Clear => PENDING_NONE,
        PendingFlag::Armed(BankId::Bank1) => PENDING_ARMED_BANK1,
        PendingFlag::Armed(BankId::Bank2) => PENDING_ARMED_BANK2,
    }
}

/// The outcome record that a word encodes. A torn or corrupt word is no outcome.
pub open spec fn outcome_of(word: int) -> UpdateOutcome {
    if word == OUTCOME_AUTO_REVERTED {
        UpdateOutcome::AutoReverted
    } else {
        UpdateOutcome::Clear
    }
}

/// The outcome record that a word encodes.
pub fn decode_outcome(word: u32) -> (r: UpdateOutcome)
    ensures
        r == outcome_of(word as int),
{
    if word == OUTCOME_AUTO_REVERTED {
        UpdateOutcome::AutoReverted
    } else {
        UpdateOutcome::Clear
    }
}

/// The word of an outcome record.
pub fn encode_outcome(outcome: UpdateOutcome) -> (r: u32)
    ensures
        outcome_of(r as int) == outcome,
        r == OUTCOME_NONE <==> outcome == UpdateOutcome::Clear,
{
    match outcome {
        UpdateOutcome::Clear => OUTCOME_NONE,
        UpdateOutcome::AutoReverted => OUTCOME_AUTO_REVERTED,
    }
}

/// The word of a log slot.
pub open spec fn slot_word(bytes: Seq<u8>, log: int, slot: int) -> int {
    le32(bytes, log + slot * QUAD_WORD_LEN)
}

/// The second word of a counter slot.
pub open spec fn slot_mark(bank1: Seq<u8>, slot: int) -> int {
    le32(bank1, META_NVCNT_OFFSET + slot * QUAD_WORD_LEN + 4)
}

/// The value that a counter slot holds, if it holds one.
pub open spec fn counter_slot(bank1: Seq<u8>, slot: int) -> Option<int> {
    let word = slot_word(bank1, META_NVCNT_OFFSET as int, slot);
    if word != ERASED_WORD {
        Some(word)
    } else if slot_mark(bank1, slot) == NVCNT_TOP_MARK {
        Some(u32::MAX as int)
    } else {
        None
    }
}

/// The largest value among the first `n` counter slots, or zero.
pub open spec fn counter_max(bank1: Seq<u8>, n: int) -> int
    decreases n,
{
    if n <= 0 {
        0
    } else {
        let rest = counter_max(bank1, n - 1);
        match counter_slot(bank1, n - 1) {
            Some(value) => if value > rest {
                value
            } else {
                rest
            },
            None => rest,
        }
    }
}

/// A counter slot takes a value: its quad-word is erased.
pub open spec fn slot_free(bank1: Seq<u8>, slot: int) -> bool {
    erased_range(
        bank1,
        META_NVCNT_OFFSET + slot * QUAD_WORD_LEN,
        META_NVCNT_OFFSET + slot * QUAD_WORD_LEN + QUAD_WORD_LEN,
    )
}

/// The counter log takes one more value: one of its slots is erased.
pub open spec fn counter_room(bank1: Seq<u8>) -> bool {
    exists|s: int| 0 <= s < META_LOG_SLOTS && #[trigger] slot_free(bank1, s)
}

/// The number of programmed slots among the first `n` of a log.
pub open spec fn log_count(bytes: Seq<u8>, log: int, n: int) -> int
    decreases n,
{
    if n <= 0 {
        0
    } else {
        log_count(bytes, log, n - 1) + if slot_word(bytes, log, n - 1) != ERASED_WORD {
            1int
        } else {
            0int
        }
    }
}

/// The pending record of Bank 1.
pub open spec fn stored_pending(bank1: Seq<u8>) -> PendingFlag {
    pending_of(le32(bank1, META_PENDING_OFFSET as int))
}

/// The outcome record of Bank 1.
pub open spec fn stored_outcome(bank1: Seq<u8>) -> UpdateOutcome {
    outcome_of(le32(bank1, META_OUTCOME_OFFSET as int))
}

/// The anti-rollback counter of Bank 1.
pub open spec fn stored_nvcnt(bank1: Seq<u8>) -> u32 {
    counter_max(bank1, META_LOG_SLOTS as int) as u32
}

/// The boot count of Bank 1.
pub open spec fn stored_boot_count(bank1: Seq<u8>) -> u32 {
    log_count(bank1, META_BOOT_OFFSET as int, META_LOG_SLOTS as int) as u32
}

/// The boot-count log takes one more tick: the slot behind the ticks is erased.
pub open spec fn tick_room(bank1: Seq<u8>) -> bool {
    let at = META_BOOT_OFFSET + stored_boot_count(bank1) * QUAD_WORD_LEN;
    &&& stored_boot_count(bank1) < META_LOG_SLOTS
    &&& erased_range(bank1, at, at + QUAD_WORD_LEN)
}

/// Four bytes hold a word, and its bytes are those four.
pub proof fn lemma_word_roundtrip(bytes: Seq<u8>, at: int, value: u32)
    requires
        0 <= at,
        at + 4 <= bytes.len(),
    ensures
        0 <= le32(bytes, at) <= u32::MAX,
        le32(word_bytes(value), 0) == value,
        le32(bytes, at) == value <==> bytes.subrange(at, at + 4) == word_bytes(value),
        bytes.subrange(at, at + 4) == word_bytes(le32(bytes, at) as u32),
{
    lemma_bytes_of_word(value);
    lemma_bytes_of_word(le32(bytes, at) as u32);
    let four = bytes.subrange(at, at + 4);
    let spelled = word_bytes(le32(bytes, at) as u32);
    lemma_same_word(four, spelled);
    assert(four =~= spelled);
    if le32(bytes, at) == value {
    } else if four == word_bytes(value) {
        assert(le32(four, 0) == le32(bytes, at));
    }
}

/// The bytes of a word spell it.
proof fn lemma_bytes_of_word(value: u32)
    ensures
        le32(word_bytes(value), 0) == value,
{
    let b = word_bytes(value);
    assert(b[0] == value % 0x100);
    assert(b[1] == value / 0x100 % 0x100);
    assert(b[2] == value / 0x1_0000 % 0x100);
    assert(b[3] == value / 0x100_0000);
    assert(value == value % 0x100 + 0x100 * (value / 0x100 % 0x100) + 0x1_0000 * (value / 0x1_0000
        % 0x100) + 0x100_0000 * (value / 0x100_0000)) by (nonlinear_arith);
}

/// Equal words have equal bytes.
proof fn lemma_same_word(a: Seq<u8>, b: Seq<u8>)
    requires
        a.len() == 4,
        b.len() == 4,
        le32(a, 0) == le32(b, 0),
    ensures
        a[0] == b[0],
        a[1] == b[1],
        a[2] == b[2],
        a[3] == b[3],
{
    lemma_digits(a[0] as int, a[1] as int, a[2] as int, a[3] as int);
    lemma_digits(b[0] as int, b[1] as int, b[2] as int, b[3] as int);
}

/// The base-256 digits of a number of four digits.
proof fn lemma_digits(a: int, b: int, c: int, d: int)
    requires
        0 <= a < 0x100,
        0 <= b < 0x100,
        0 <= c < 0x100,
        0 <= d < 0x100,
    ensures
        ({
            let n = a + 0x100 * b + 0x1_0000 * c + 0x100_0000 * d;
            &&& n % 0x100 == a
            &&& n / 0x100 % 0x100 == b
            &&& n / 0x1_0000 % 0x100 == c
            &&& n / 0x100_0000 == d
        }),
{
    let n = a + 0x100 * b + 0x1_0000 * c + 0x100_0000 * d;
    assert(n / 0x100 == b + 0x100 * c + 0x1_0000 * d);
    assert(n / 0x1_0000 == c + 0x100 * d);
    assert(n / 0x100_0000 == d);
}

/// A word is erased exactly when its four bytes are.
pub proof fn lemma_erased_word(bytes: Seq<u8>, at: int)
    requires
        0 <= at,
        at + 4 <= bytes.len(),
    ensures
        le32(bytes, at) == ERASED_WORD <==> {
            &&& bytes[at] == 0xFF
            &&& bytes[at + 1] == 0xFF
            &&& bytes[at + 2] == 0xFF
            &&& bytes[at + 3] == 0xFF
        },
        le32(bytes, at) == 0 ==> {
            &&& bytes[at] == 0
            &&& bytes[at + 1] == 0
            &&& bytes[at + 2] == 0
            &&& bytes[at + 3] == 0
        },
{
}

/// Logs whose slots agree have the same count.
pub proof fn lemma_same_log(a: Seq<u8>, b: Seq<u8>, log: int, n: int)
    requires
        forall|s: int| 0 <= s < n ==> #[trigger] slot_word(a, log, s) == slot_word(b, log, s),
    ensures
        log_count(a, log, n) == log_count(b, log, n),
    decreases n,
{
    if n > 0 {
        lemma_same_log(a, b, log, n - 1);
        assert(slot_word(a, log, n - 1) == slot_word(b, log, n - 1));
    }
}

/// Counter logs whose slots agree hold the same counter.
pub proof fn lemma_same_max(a: Seq<u8>, b: Seq<u8>, n: int)
    requires
        forall|s: int| 0 <= s < n ==> #[trigger] counter_slot(a, s) == counter_slot(b, s),
    ensures
        counter_max(a, n) == counter_max(b, n),
    decreases n,
{
    if n > 0 {
        lemma_same_max(a, b, n - 1);
        assert(counter_slot(a, n - 1) == counter_slot(b, n - 1));
    }
}

/// Banks that agree on the counter log hold the same counter, and the same room.
pub proof fn lemma_same_counter(a: Seq<u8>, b: Seq<u8>)
    requires
        a.len() == BANK_SIZE,
        b.len() == BANK_SIZE,
        forall|i: int| 0 <= i < META_BOOT_OFFSET ==> #[trigger] a[i] == b[i],
    ensures
        stored_nvcnt(a) == stored_nvcnt(b),
        counter_room(a) == counter_room(b),
{
    assert forall|s: int| 0 <= s < META_LOG_SLOTS implies #[trigger] counter_slot(a, s)
        == counter_slot(b, s) by {}
    lemma_same_max(a, b, META_LOG_SLOTS as int);
    lemma_room_kept(a, b);
    lemma_room_kept(b, a);
}

/// Room in the counter log depends on the log alone.
proof fn lemma_room_kept(a: Seq<u8>, b: Seq<u8>)
    requires
        a.len() == BANK_SIZE,
        b.len() == BANK_SIZE,
        forall|i: int| 0 <= i < META_BOOT_OFFSET ==> #[trigger] a[i] == b[i],
    ensures
        counter_room(a) ==> counter_room(b),
{
    if counter_room(a) {
        let s = choose|s: int| 0 <= s < META_LOG_SLOTS && #[trigger] slot_free(a, s);
        let at = META_NVCNT_OFFSET + s * QUAD_WORD_LEN;
        assert forall|i: int| at <= i < at + QUAD_WORD_LEN implies #[trigger] b[i] == 0xFF by {
            assert(a[i] == 0xFF);
        }
        assert(slot_free(b, s));
    }
}

/// Banks that agree on the boot-count log hold the same count, and the same room.
pub proof fn lemma_same_ticks(a: Seq<u8>, b: Seq<u8>)
    requires
        a.len() == BANK_SIZE,
        b.len() == BANK_SIZE,
        forall|i: int| META_BOOT_OFFSET <= i < PAGE_SIZE ==> #[trigger] a[i] == b[i],
    ensures
        stored_boot_count(a) == stored_boot_count(b),
        tick_room(a) == tick_room(b),
{
    let log = META_BOOT_OFFSET as int;
    lemma_same_log(a, b, log, META_LOG_SLOTS as int);
    let at = log + stored_boot_count(a) * QUAD_WORD_LEN;
    if stored_boot_count(a) < META_LOG_SLOTS {
        if tick_room(a) {
            assert forall|i: int| at <= i < at + QUAD_WORD_LEN implies #[trigger] b[i] == 0xFF by {
                assert(a[i] == 0xFF);
            }
        }
        if tick_room(b) {
            assert forall|i: int| at <= i < at + QUAD_WORD_LEN implies #[trigger] a[i] == 0xFF by {
                assert(b[i] == 0xFF);
            }
        }
    }
}

/// A counter slot is erased exactly when its four words are.
pub proof fn lemma_slot_free(bank1: Seq<u8>, slot: int)
    requires
        bank1.len() == BANK_SIZE,
        0 <= slot < META_LOG_SLOTS,
    ensures
        ({
            let at = META_NVCNT_OFFSET + slot * QUAD_WORD_LEN;
            slot_free(bank1, slot) <==> {
                &&& le32(bank1, at) == ERASED_WORD
                &&& le32(bank1, at + 4) == ERASED_WORD
                &&& le32(bank1, at + 8) == ERASED_WORD
                &&& le32(bank1, at + 12) == ERASED_WORD
            }
        }),
{
    let at = META_NVCNT_OFFSET + slot * QUAD_WORD_LEN;
    lemma_erased_word(bank1, at);
    lemma_erased_word(bank1, at + 4);
    lemma_erased_word(bank1, at + 8);
    lemma_erased_word(bank1, at + 12);
    if slot_free(bank1, slot) {
        assert(forall|k: int| 0 <= k < QUAD_WORD_LEN ==> #[trigger] bank1[at + k] == 0xFF);
    }
}

/// Banks that agree on the metadata hold the same records.
pub proof fn lemma_same_records(a: Seq<u8>, b: Seq<u8>)
    requires
        a.len() == BANK_SIZE,
        b.len() == BANK_SIZE,
        forall|i: int| 0 <= i < META_END ==> #[trigger] a[i] == b[i],
    ensures
        stored_pending(a) == stored_pending(b),
        stored_outcome(a) == stored_outcome(b),
        stored_nvcnt(a) == stored_nvcnt(b),
        stored_boot_count(a) == stored_boot_count(b),
        counter_room(a) == counter_room(b),
        tick_room(a) == tick_room(b),
{
    lemma_same_counter(a, b);
    lemma_same_ticks(a, b);
}

/// The bounds of a log's count.
pub proof fn lemma_log_bounds(bytes: Seq<u8>, log: int, n: int)
    requires
        0 <= log,
        0 <= n,
        log + n * QUAD_WORD_LEN <= bytes.len(),
    ensures
        0 <= log_count(bytes, log, n) <= n,
    decreases n,
{
    if n > 0 {
        lemma_log_bounds(bytes, log, n - 1);
        lemma_word_roundtrip(bytes, log + (n - 1) * QUAD_WORD_LEN, 0);
    }
}

/// The bounds of the counter.
pub proof fn lemma_counter_bounds(bank1: Seq<u8>, n: int)
    requires
        0 <= n <= META_LOG_SLOTS,
        bank1.len() == BANK_SIZE,
    ensures
        0 <= counter_max(bank1, n) <= u32::MAX,
    decreases n,
{
    if n > 0 {
        lemma_counter_bounds(bank1, n - 1);
        lemma_word_roundtrip(bank1, META_NVCNT_OFFSET + (n - 1) * QUAD_WORD_LEN, 0);
    }
}

/// A word programmed into an erased slot: the count rises by one.
pub proof fn lemma_log_append(a: Seq<u8>, b: Seq<u8>, log: int, n: int, slot: int, value: u32)
    requires
        0 <= slot < n,
        value != ERASED_WORD,
        slot_word(a, log, slot) == ERASED_WORD,
        slot_word(b, log, slot) == value,
        forall|s: int|
            0 <= s < n && s != slot ==> #[trigger] slot_word(a, log, s) == slot_word(b, log, s),
    ensures
        log_count(b, log, n) == log_count(a, log, n) + 1,
    decreases n,
{
    if slot == n - 1 {
        lemma_same_log(a, b, log, n - 1);
    } else {
        lemma_log_append(a, b, log, n - 1, slot, value);
        assert(slot_word(a, log, n - 1) == slot_word(b, log, n - 1));
    }
}

/// A value programmed into a slot that held none: the counter takes it in.
pub proof fn lemma_counter_append(a: Seq<u8>, b: Seq<u8>, n: int, slot: int, value: int)
    requires
        0 <= slot < n,
        counter_slot(a, slot) is None,
        counter_slot(b, slot) == Some(value),
        forall|s: int|
            0 <= s < n && s != slot ==> #[trigger] counter_slot(a, s) == counter_slot(b, s),
    ensures
        counter_max(b, n) == (if value > counter_max(a, n) {
            value
        } else {
            counter_max(a, n)
        }),
    decreases n,
{
    if slot == n - 1 {
        lemma_same_max(a, b, n - 1);
    } else {
        lemma_counter_append(a, b, n - 1, slot, value);
        assert(counter_slot(a, n - 1) == counter_slot(b, n - 1));
    }
}

} // verus!
