//! What the bytes of the two banks mean: the records, the logs, and the places of an
//! image.
//!
//! The metadata stands in the first two pages of physical Bank 1: the counter log at 0,
//! the boot-count log at 0x1000, the pending record at 0x2000, the outcome record at
//! 0x3000. A log has 256 slots of 16 bytes.

use vstd::prelude::*;

use crate::boot::seam::BootCall;
use crate::boot::secwm::window_of;
use crate::flash::bus::FlashView;
use crate::flash::driver::boot::boot_of;
use crate::flash::driver::only_changed;
use crate::flash::driver::quads_len;
use crate::flash::driver::sane_posture;
use crate::flash::driver::update::descriptor_vacant;
use crate::flash::driver::update::id_of;
use crate::flash::driver::update::inactive;
use crate::flash::driver::update::page_band;
use crate::flash::driver::update::seam_of;
use crate::flash::records::counter_max;
use crate::flash::records::counter_room;
use crate::flash::records::counter_slot;
use crate::flash::records::lemma_counter_bounds;
use crate::flash::records::log_count;
use crate::flash::records::outcome_of;
use crate::flash::records::pending_of;
use crate::flash::records::slot_free;
use crate::flash::records::slot_word;
use crate::flash::records::stored_boot_count;
use crate::flash::records::stored_nvcnt;
use crate::flash::records::stored_outcome;
use crate::flash::records::stored_pending;
use crate::flash::records::tick_room;
use crate::flash::regs::band_of_page;
use crate::flash::regs::bker_of;
use crate::flash::regs::inactive_bank_of;
use crate::flash::regs::mapped_at;
use crate::flash::regs::running_bank_of;
use crate::flash::regs::swapped;
use crate::flash::regs::PageBand;
use crate::flash::regs::PhysBank;
use crate::image::format::le32;
use crate::update::seam::BankId;
use crate::update::seam::PendingFlag;
use crate::update::seam::SeamCall;
use crate::update::seam::UpdateOutcome;

verus! {

/// Each record has one word, and any other word is no record: a torn or erased one
/// neither arms a bank nor reports a revert.
pub proof fn a_record_has_one_word(word: int)
    ensures
        pending_of(word) == PendingFlag::Armed(BankId::Bank1) <==> word == 0xA5A5_0001,
        pending_of(word) == PendingFlag::Armed(BankId::Bank2) <==> word == 0xA5A5_0002,
        pending_of(word) == PendingFlag::Clear <==> word != 0xA5A5_0001 && word != 0xA5A5_0002,
        outcome_of(word) == UpdateOutcome::AutoReverted <==> word == 0x5A5A_0001,
        outcome_of(word) == UpdateOutcome::Clear <==> word != 0x5A5A_0001,
{
}

/// Where the records stand.
pub proof fn the_records_stand_in_bank_one(bank1: Seq<u8>)
    ensures
        stored_pending(bank1) == PendingFlag::Armed(BankId::Bank1) <==> le32(bank1, 0x2000)
            == 0xA5A5_0001,
        stored_pending(bank1) == PendingFlag::Armed(BankId::Bank2) <==> le32(bank1, 0x2000)
            == 0xA5A5_0002,
        stored_outcome(bank1) == UpdateOutcome::AutoReverted <==> le32(bank1, 0x3000)
            == 0x5A5A_0001,
{
}

/// No slot holds more than the largest of those before it.
proof fn lemma_max_covers(bank1: Seq<u8>, n: int, s: int)
    requires
        0 <= s < n,
    ensures
        counter_slot(bank1, s) matches Some(value) ==> counter_max(bank1, n) >= value,
    decreases n,
{
    if s < n - 1 {
        lemma_max_covers(bank1, n - 1, s);
    }
}

/// The largest value stands in a slot, where it is not zero.
proof fn lemma_max_stands(bank1: Seq<u8>, n: int) -> (s: int)
    requires
        0 <= n,
        counter_max(bank1, n) != 0,
    ensures
        0 <= s < n,
        counter_slot(bank1, s) == Some(counter_max(bank1, n)),
    decreases n,
{
    if n <= 0 {
        0
    } else if counter_slot(bank1, n - 1) == Some(counter_max(bank1, n)) {
        n - 1
    } else {
        lemma_max_stands(bank1, n - 1)
    }
}

/// The counter is the largest value in its log: no slot of the 256 holds more, and one
/// holds it, unless it is zero. The all-ones value is held by a mark in the second word
/// of a slot whose first reads as erased.
pub proof fn the_counter_is_the_largest_value_logged(bank1: Seq<u8>, s: int)
    requires
        bank1.len() == 0x4_0000,
        0 <= s < 256,
    ensures
        le32(bank1, 16 * s) != 0xFFFF_FFFF ==> stored_nvcnt(bank1) >= le32(bank1, 16 * s),
        le32(bank1, 16 * s) == 0xFFFF_FFFF && le32(bank1, 16 * s + 4) == 0 ==> stored_nvcnt(bank1)
            == 0xFFFF_FFFF,
        stored_nvcnt(bank1) == 0 || exists|k: int|
            0 <= k < 256 && {
                ||| #[trigger] le32(bank1, 16 * k) == stored_nvcnt(bank1)
                ||| stored_nvcnt(bank1) == 0xFFFF_FFFF && le32(bank1, 16 * k + 4) == 0
            },
{
    lemma_counter_bounds(bank1, 256);
    lemma_max_covers(bank1, 256, s);
    assert(slot_word(bank1, 0, s) == le32(bank1, 16 * s));
    if stored_nvcnt(bank1) != 0 {
        let k = lemma_max_stands(bank1, 256);
        assert(slot_word(bank1, 0, k) == le32(bank1, 16 * k));
    }
}

/// An erased log holds zero.
pub proof fn an_erased_log_holds_zero(bank1: Seq<u8>)
    requires
        bank1.len() == 0x4_0000,
        forall|i: int| 0 <= i < 0x1000 ==> #[trigger] bank1[i] == 0xFF,
    ensures
        stored_nvcnt(bank1) == 0,
        counter_room(bank1),
{
    if counter_max(bank1, 256) != 0 {
        let s = lemma_max_stands(bank1, 256);
        assert(bank1[16 * s] == 0xFF && bank1[16 * s + 1] == 0xFF && bank1[16 * s + 2] == 0xFF
            && bank1[16 * s + 3] == 0xFF && bank1[16 * s + 4] == 0xFF);
    }
    assert(slot_free(bank1, 0));
}

/// The counter log takes a value as long as one of its 256 slots is erased, and no
/// longer.
pub proof fn the_counter_log_has_256_slots(bank1: Seq<u8>)
    ensures
        counter_room(bank1) <==> exists|s: int|
            0 <= s < 256 && #[trigger] erased_slot(bank1, 16 * s),
{
    if counter_room(bank1) {
        let s = choose|s: int| 0 <= s < 256 && #[trigger] slot_free(bank1, s);
        assert(erased_slot(bank1, 16 * s));
    }
    if exists|s: int| 0 <= s < 256 && #[trigger] erased_slot(bank1, 16 * s) {
        let s = choose|s: int| 0 <= s < 256 && #[trigger] erased_slot(bank1, 16 * s);
        assert(slot_free(bank1, s));
    }
}

/// The 16 bytes at `at` are erased.
pub open spec fn erased_slot(bytes: Seq<u8>, at: int) -> bool {
    erased_bytes(bytes, at, at + 16)
}

/// Every byte from `from` up to `to` is erased.
pub open spec fn erased_bytes(bytes: Seq<u8>, from: int, to: int) -> bool {
    forall|i: int| from <= i < to ==> #[trigger] bytes[i] == 0xFF
}

/// Of the first `n` slots the first `ticks` count.
proof fn lemma_ticks(bank1: Seq<u8>, ticks: int, n: int)
    requires
        0 <= ticks,
        0 <= n,
        forall|s: int| 0 <= s < ticks && s < n ==> #[trigger] slot_word(bank1, 0x1000, s) != 0xFFFF_FFFF,
        forall|s: int| ticks <= s < n ==> #[trigger] slot_word(bank1, 0x1000, s) == 0xFFFF_FFFF,
    ensures
        log_count(bank1, 0x1000, n) == (if ticks < n {
            ticks
        } else {
            n
        }),
    decreases n,
{
    if n > 0 {
        lemma_ticks(bank1, ticks, n - 1);
        assert(slot_word(bank1, 0x1000, n - 1) == slot_word(bank1, 0x1000, n - 1));
    }
}

/// The boot count is the number of slots of its log that hold a tick. A log that was
/// filled from the front takes one more as long as it is not full.
pub proof fn the_boot_count_is_the_number_of_ticks(bank1: Seq<u8>, ticks: int)
    requires
        bank1.len() == 0x4_0000,
        0 <= ticks <= 256,
        forall|s: int| 0 <= s < ticks ==> #[trigger] le32(bank1, 0x1000 + 16 * s) != 0xFFFF_FFFF,
        forall|i: int| 0x1000 + 16 * ticks <= i < 0x2000 ==> #[trigger] bank1[i] == 0xFF,
    ensures
        stored_boot_count(bank1) == ticks,
        tick_room(bank1) <==> ticks < 256,
{
    assert forall|s: int| 0 <= s < ticks && s < 256 implies #[trigger] slot_word(bank1, 0x1000, s)
        != 0xFFFF_FFFF by {
        assert(slot_word(bank1, 0x1000, s) == le32(bank1, 0x1000 + 16 * s));
    }
    assert forall|s: int| ticks <= s < 256 implies #[trigger] slot_word(bank1, 0x1000, s)
        == 0xFFFF_FFFF by {
        let at = 0x1000 + 16 * s;
        assert(bank1[at] == 0xFF && bank1[at + 1] == 0xFF && bank1[at + 2] == 0xFF && bank1[at + 3]
            == 0xFF);
    }
    lemma_ticks(bank1, ticks, 256);
}

/// The bank that does not run, and what the update seam shows of it: the descriptor at
/// page 9, the secure payload from page 10 to 19, the rest from page 20 on. The records
/// are those of physical Bank 1, whichever bank runs.
pub proof fn the_update_seam_shows_the_bank_that_does_not_run(
    flash: FlashView,
    calls: Seq<SeamCall>,
)
    ensures
        ({
            let seam = seam_of(flash, calls);
            let two_runs = flash.optr & 0x0010_0000 != 0;
            let bytes = if two_runs {
                flash.bank1
            } else {
                flash.bank2
            };
            &&& seam.descriptor == bytes.subrange(0x1_2000, 0x1_2058)
            &&& seam.secure == bytes.subrange(0x1_4000, 0x2_8000)
            &&& seam.ns == bytes.subrange(0x2_8000, 0x4_0000)
            &&& seam.running == (if two_runs {
                BankId::Bank2
            } else {
                BankId::Bank1
            })
            &&& seam.target == (if two_runs {
                BankId::Bank1
            } else {
                BankId::Bank2
            })
            &&& flash.staged is None ==> seam.next == seam.running
            &&& flash.staged == Some(true) ==> seam.next == BankId::Bank2
            &&& flash.staged == Some(false) ==> seam.next == BankId::Bank1
            &&& seam.pending == stored_pending(flash.bank1)
            &&& seam.outcome == stored_outcome(flash.bank1)
            &&& seam.nvcnt == stored_nvcnt(flash.bank1)
            &&& seam.boot_count == stored_boot_count(flash.bank1)
            &&& seam.room == counter_room(flash.bank1)
            &&& seam.ticks == tick_room(flash.bank1)
            &&& seam.vacant <==> erased_bytes(bytes, 0x1_2000, 0x1_2060)
            &&& seam.calls == calls
        }),
{
    let bytes = if flash.optr & 0x0010_0000 != 0 {
        flash.bank1
    } else {
        flash.bank2
    };
    assert(inactive(flash) == bytes);
    if descriptor_vacant(flash) {
        assert forall|i: int| 0x1_2000 <= i < 0x1_2060 implies #[trigger] bytes[i] == 0xFF by {
            assert(inactive(flash)[i] == 0xFF);
        }
    }
    if erased_bytes(bytes, 0x1_2000, 0x1_2060) {
        assert forall|i: int| 0x1_2000 <= i < 0x1_2060 implies #[trigger] inactive(flash)[i]
            == 0xFF by {
            assert(bytes[i] == 0xFF);
        }
    }
}

/// The bank that runs, and what the boot seam shows of it.
pub proof fn the_boot_seam_shows_the_bank_that_runs(flash: FlashView, calls: Seq<BootCall>)
    ensures
        ({
            let boot = boot_of(flash, calls);
            let two_runs = flash.optr & 0x0010_0000 != 0;
            let bytes = if two_runs {
                flash.bank2
            } else {
                flash.bank1
            };
            &&& boot.descriptor == bytes.subrange(0x1_2000, 0x1_2058)
            &&& boot.secure == bytes.subrange(0x1_4000, 0x2_8000)
            &&& boot.ns == bytes.subrange(0x2_8000, 0x4_0000)
            &&& boot.partition <==> flash.optr & 0x0020_0000 != 0 && flash.optr & 0x8000_0000 != 0
            &&& boot.secwm.bank1 == window_of(flash.secwm1)
            &&& boot.secwm.bank2 == window_of(flash.secwm2)
            &&& boot.running == (if two_runs {
                BankId::Bank2
            } else {
                BankId::Bank1
            })
            &&& flash.staged is None ==> boot.next == boot.running
            &&& flash.staged == Some(true) ==> boot.next == BankId::Bank2
            &&& flash.staged == Some(false) ==> boot.next == BankId::Bank1
            &&& boot.pending == stored_pending(flash.bank1)
            &&& boot.outcome == stored_outcome(flash.bank1)
            &&& boot.nvcnt == stored_nvcnt(flash.bank1)
            &&& boot.room == counter_room(flash.bank1)
            &&& boot.calls == calls
        }),
{
}

/// The geometry: which bank runs, where it is mapped, how its erase is selected, and
/// which pages are secure. A swap exchanges the two banks and nothing else.
pub proof fn a_swap_exchanges_the_banks(optr: u32, swap: bool, page: int, index: u16)
    ensures
        swapped(optr) <==> optr & 0x0010_0000 != 0,
        sane_posture(optr) <==> optr & 0x0020_0000 != 0 && optr & 0x8000_0000 != 0,
        running_bank_of(false) == PhysBank::One,
        running_bank_of(true) == PhysBank::Two,
        inactive_bank_of(swap) != running_bank_of(swap),
        mapped_at(running_bank_of(swap), swap) == 0x0C00_0000,
        mapped_at(inactive_bank_of(swap), swap) == 0x0C04_0000,
        bker_of(PhysBank::One) == 0,
        bker_of(PhysBank::Two) == 0x0000_0800,
        id_of(PhysBank::One) == BankId::Bank1,
        id_of(PhysBank::Two) == BankId::Bank2,
        band_of_page(page) == PageBand::Secure <==> page <= 19,
        page_band(index) == PageBand::Secure <==> index < 320,
{
}

/// The quad-words of some bytes cover them, and are one too many nowhere.
pub proof fn quad_words_cover_the_bytes(len: int)
    requires
        0 <= len,
    ensures
        quads_len(len) >= len,
        quads_len(len) - len < 16,
        quads_len(len) % 16 == 0,
{
}

/// What a change of one range of one bank leaves alone: the other bank, every byte
/// outside the range, the options and the staged swap.
pub proof fn a_change_stays_in_its_range(
    pre: FlashView,
    post: FlashView,
    bank: PhysBank,
    from: int,
    to: int,
    i: int,
)
    requires
        only_changed(pre, post, bank, from, to),
        pre.bank1.len() == 0x4_0000,
        pre.bank2.len() == 0x4_0000,
        0 <= i < 0x4_0000,
    ensures
        bank == PhysBank::Two || i < from || i >= to ==> post.bank1[i] == pre.bank1[i],
        bank == PhysBank::One || i < from || i >= to ==> post.bank2[i] == pre.bank2[i],
        post.bank1.len() == 0x4_0000,
        post.bank2.len() == 0x4_0000,
        post.optr == pre.optr,
        post.staged == pre.staged,
        post.launched == pre.launched,
        post.secwm1 == pre.secwm1,
        post.secwm2 == pre.secwm2,
{
    assert(i < from || i >= to ==> post.bank(bank)[i] == pre.bank(bank)[i]);
}

} // verus!
