//! The update seam of the driver: the inactive bank, the records, the swap.

use vstd::prelude::*;

use crate::flash::bus::FlashAccess;
use crate::flash::bus::FlashView;
use crate::flash::bus::BSY_POLL_LIMIT;
use crate::flash::driver::calm;
use crate::flash::driver::clean;
use crate::flash::driver::closed;
use crate::flash::driver::closed_or_untouched;
use crate::flash::driver::fault_answered;
use crate::flash::driver::in_band;
use crate::flash::driver::locked;
use crate::flash::driver::locks_kept;
use crate::flash::driver::only_changed;
use crate::flash::driver::quads_len;
use crate::flash::driver::relocked;
use crate::flash::driver::run_at;
use crate::flash::driver::sane_posture;
use crate::flash::driver::settled;
use crate::flash::driver::stuck_answered;
use crate::flash::driver::unlocked;
use crate::flash::driver::Stm32FlashSeam;
use crate::flash::records::decode_outcome;
use crate::flash::records::decode_pending;
use crate::flash::records::encode_outcome;
use crate::flash::records::encode_pending;
use crate::flash::records::counter_room;
use crate::flash::records::counter_slot;
use crate::flash::records::lemma_counter_append;
use crate::flash::records::lemma_counter_bounds;
use crate::flash::records::lemma_log_append;
use crate::flash::records::lemma_log_bounds;
use crate::flash::records::lemma_same_counter;
use crate::flash::records::lemma_same_log;
use crate::flash::records::lemma_same_max;
use crate::flash::records::lemma_same_records;
use crate::flash::records::lemma_same_ticks;
use crate::flash::records::log_count;
use crate::flash::records::slot_mark;
use crate::flash::records::slot_word;
use crate::flash::records::stored_boot_count;
use crate::flash::records::stored_nvcnt;
use crate::flash::records::stored_outcome;
use crate::flash::records::stored_pending;
use crate::flash::records::tick_room;
use crate::flash::records::META_END;
use crate::flash::regs::inactive_bank_of;
use crate::flash::regs::inactive_phys_bank;
use crate::flash::regs::running_bank_of;
use crate::flash::regs::running_phys_bank;
use crate::flash::regs::swap_bank_set;
use crate::flash::regs::PageBand;
use crate::flash::regs::PhysBank;
use crate::flash::regs::BANK_SIZE;
use crate::flash::regs::BOOT_TICK;
use crate::flash::regs::ERASED_WORD;
use crate::flash::regs::FLASH_OPTR;
use crate::flash::regs::IMAGE_DESCRIPTOR_LEN;
use crate::flash::regs::IMAGE_DESCRIPTOR_OFFSET;
use crate::flash::regs::IMAGE_NS_BAND_OFFSET;
use crate::flash::regs::IMAGE_NS_BAND_SIZE;
use crate::flash::regs::IMAGE_NS_PAGE_FIRST;
use crate::flash::regs::IMAGE_PAGE_FIRST;
use crate::flash::regs::IMAGE_PAYLOAD_OFFSET;
use crate::flash::regs::IMAGE_PAYLOAD_SECURE_SIZE;
use crate::flash::regs::IMAGE_PAYLOAD_SIZE;
use crate::flash::regs::IMAGE_REGION_OFFSET;
use crate::flash::regs::META_BOOT_OFFSET;
use crate::flash::regs::META_LOG_SLOTS;
use crate::flash::regs::META_NVCNT_OFFSET;
use crate::flash::regs::META_OUTCOME_OFFSET;
use crate::flash::regs::META_PENDING_OFFSET;
use crate::flash::regs::PAGES_PER_BANK;
use crate::flash::regs::PAGE_SIZE;
use crate::flash::regs::QUAD_WORD_LEN;
use crate::update::seam::erased_range;
use crate::update::seam::overlay;
use crate::update::seam::BankId;
use crate::update::seam::FlashError;
use crate::update::seam::FlashSeam;
use crate::update::seam::PageIndex;
use crate::update::seam::PendingFlag;
use crate::update::seam::SeamCall;
use crate::update::seam::SeamView;
use crate::update::seam::UpdateOutcome;
use crate::update::seam::ERASED;
use crate::update::seam::PAGE_LEN;

verus! {

/// The name of a physical bank.
pub open spec fn id_of(bank: PhysBank) -> BankId {
    match bank {
        PhysBank::One => BankId::Bank1,
        PhysBank::Two => BankId::Bank2,
    }
}

/// The name of a physical bank.
pub fn bank_id(bank: PhysBank) -> (r: BankId)
    ensures
        r == id_of(bank),
{
    match bank {
        PhysBank::One => BankId::Bank1,
        PhysBank::Two => BankId::Bank2,
    }
}

/// The inactive bank.
pub open spec fn inactive(flash: FlashView) -> Seq<u8> {
    flash.bank(inactive_bank_of(flash.swap()))
}

/// The bank that the next reset boots.
pub open spec fn next_bank(flash: FlashView) -> BankId {
    match flash.staged {
        Some(bank2) => id_of(running_bank_of(bank2)),
        None => id_of(running_bank_of(flash.swap())),
    }
}

/// What the controller shows through the update seam.
pub open spec fn seam_of(flash: FlashView, calls: Seq<SeamCall>) -> SeamView {
    let bytes = inactive(flash);
    SeamView {
        descriptor: bytes.subrange(
            IMAGE_DESCRIPTOR_OFFSET as int,
            IMAGE_DESCRIPTOR_OFFSET + IMAGE_DESCRIPTOR_LEN,
        ),
        secure: bytes.subrange(
            IMAGE_PAYLOAD_OFFSET as int,
            IMAGE_PAYLOAD_OFFSET + IMAGE_PAYLOAD_SECURE_SIZE,
        ),
        ns: bytes.subrange(
            IMAGE_NS_BAND_OFFSET as int,
            IMAGE_NS_BAND_OFFSET + IMAGE_NS_BAND_SIZE,
        ),
        running: id_of(running_bank_of(flash.swap())),
        target: id_of(inactive_bank_of(flash.swap())),
        next: next_bank(flash),
        pending: stored_pending(flash.bank1),
        nvcnt: stored_nvcnt(flash.bank1),
        boot_count: stored_boot_count(flash.bank1),
        outcome: stored_outcome(flash.bank1),
        vacant: descriptor_vacant(flash),
        room: counter_room(flash.bank1),
        ticks: tick_room(flash.bank1),
        script: None,
        calls,
    }
}

/// The quad-words of a descriptor are erased, so that one can be programmed.
pub open spec fn descriptor_vacant(flash: FlashView) -> bool {
    erased_range(
        inactive(flash),
        IMAGE_DESCRIPTOR_OFFSET as int,
        IMAGE_DESCRIPTOR_OFFSET + quads_len(IMAGE_DESCRIPTOR_LEN as int),
    )
}

/// An erase of the inactive bank, on a controller without faults where `calm`: its
/// image region and nothing else, each band through its own register set.
pub open spec fn erase_driven(
    pre: FlashView,
    calm: bool,
    post: FlashView,
    r: Result<(), FlashError>,
) -> bool {
    &&& only_changed(
        pre,
        post,
        inactive_bank_of(pre.swap()),
        IMAGE_REGION_OFFSET as int,
        BANK_SIZE as int,
    )
    &&& r is Ok ==> erased_range(inactive(post), IMAGE_REGION_OFFSET as int, BANK_SIZE as int)
    &&& locks_kept(pre, post)
    &&& clean(pre) ==> clean(post)
    &&& post.optwerr == pre.optwerr
    &&& if !sane_posture(pre.optr) {
        r == Err::<(), FlashError>(FlashError::Hardware) && post == pre
    } else {
        &&& fault_answered(calm, r)
        &&& stuck_answered(pre, post, r)
        &&& calm ==> r is Ok
        &&& !unlocked(post, PageBand::Secure)
        &&& r is Ok ==> locked(post)
    }
}

/// The band of a payload page.
pub open spec fn page_band(page: PageIndex) -> PageBand {
    if page * PAGE_LEN < IMAGE_PAYLOAD_SECURE_SIZE {
        PageBand::Secure
    } else {
        PageBand::NonSecure
    }
}

/// A write of one payload page, on a controller without faults where `calm`: the page
/// and nothing else, through the register set of its band.
pub open spec fn page_driven(
    pre: FlashView,
    page: PageIndex,
    data: Seq<u8>,
    calm: bool,
    post: FlashView,
    r: Result<(), FlashError>,
) -> bool {
    let from = IMAGE_PAYLOAD_OFFSET + page * PAGE_LEN;
    &&& only_changed(pre, post, inactive_bank_of(pre.swap()), from, from + PAGE_LEN)
    &&& r is Ok ==> inactive(post) == overlay(inactive(pre), from, data)
    &&& locks_kept(pre, post)
    &&& clean(pre) ==> clean(post)
    &&& if data.len() > PAGE_LEN {
        r == Err::<(), FlashError>(FlashError::OutOfRange) && post == pre
    } else if !sane_posture(pre.optr) {
        r == Err::<(), FlashError>(FlashError::Hardware) && post == pre
    } else if from + PAGE_LEN > BANK_SIZE {
        r == Err::<(), FlashError>(FlashError::OutOfRange) && post == pre
    } else {
        &&& fault_answered(calm, r)
        &&& data.len() > 0 ==> stuck_answered(pre, post, r)
        &&& calm && erased_range(inactive(pre), from, from + quads_len(data.len() as int))
            ==> r is Ok
        &&& relocked(pre, post, page_band(page))
    }
}

/// A write of the descriptor, on a controller without faults where `calm`: its page
/// and nothing else, through the secure register set.
pub open spec fn descriptor_driven(
    pre: FlashView,
    data: Seq<u8>,
    calm: bool,
    post: FlashView,
    r: Result<(), FlashError>,
) -> bool {
    let from = IMAGE_DESCRIPTOR_OFFSET as int;
    let end = IMAGE_PAYLOAD_OFFSET as int;
    &&& only_changed(pre, post, inactive_bank_of(pre.swap()), from, end)
    &&& r is Ok ==> inactive(post) == overlay(inactive(pre), from, data)
    &&& r is Ok && erased_range(inactive(pre), from, end) ==> inactive(post).subrange(from, end)
        == data + Seq::new((PAGE_SIZE - data.len()) as nat, |i: int| ERASED)
    &&& locks_kept(pre, post)
    &&& clean(pre) ==> clean(post)
    &&& if data.len() > PAGE_SIZE {
        r == Err::<(), FlashError>(FlashError::OutOfRange) && post == pre
    } else if !sane_posture(pre.optr) {
        r == Err::<(), FlashError>(FlashError::Hardware) && post == pre
    } else {
        &&& fault_answered(calm, r)
        &&& data.len() > 0 ==> stuck_answered(pre, post, r)
        &&& calm && erased_range(inactive(pre), from, from + quads_len(data.len() as int))
            ==> r is Ok
        &&& relocked(pre, post, PageBand::Secure)
    }
}

/// An arm of the swap: no bank changes, a refused one launches nothing, and the option
/// bytes and their register are locked behind it.
pub open spec fn arm_driven(pre: FlashView, post: FlashView, r: Result<(), FlashError>) -> bool {
    &&& post.bank1 == pre.bank1
    &&& post.bank2 == pre.bank2
    &&& post.optr == pre.optr
    &&& post.secwm1 == pre.secwm1
    &&& post.secwm2 == pre.secwm2
    &&& post.sec == pre.sec
    &&& locks_kept(pre, post)
    &&& clean(pre) ==> clean(post)
    &&& match r {
        Ok(_) => post.launched && closed(post),
        Err(e) => post.launched == pre.launched && e == FlashError::Hardware,
    }
    &&& if !sane_posture(pre.optr) {
        r is Err && post == pre
    } else {
        &&& closed_or_untouched(pre, post)
        &&& pre.busy >= BSY_POLL_LIMIT ==> r is Err && post == pre.with_busy(post.busy)
    }
}

/// A change of the image band of the inactive bank leaves the records alone.
proof fn lemma_image_change(
    pre: FlashView,
    post: FlashView,
    from: int,
    to: int,
    before: Seq<SeamCall>,
    after: Seq<SeamCall>,
)
    requires
        pre.wf(),
        from >= IMAGE_REGION_OFFSET,
        only_changed(pre, post, inactive_bank_of(pre.swap()), from, to),
    ensures
        ({
            let a = seam_of(pre, before);
            let b = seam_of(post, after);
            &&& b == (SeamView {
                descriptor: b.descriptor,
                secure: b.secure,
                ns: b.ns,
                vacant: b.vacant,
                calls: after,
                ..a
            })
            &&& b.descriptor.len() == a.descriptor.len()
            &&& b.secure.len() == a.secure.len()
            &&& b.ns.len() == a.ns.len()
            &&& a.payload() == inactive(pre).subrange(IMAGE_PAYLOAD_OFFSET as int, BANK_SIZE as int)
            &&& b.payload() == inactive(post).subrange(
                IMAGE_PAYLOAD_OFFSET as int,
                BANK_SIZE as int,
            )
            &&& inactive(post).len() == BANK_SIZE
            &&& forall|i: int|
                0 <= i < BANK_SIZE && !(from <= i < to) ==> #[trigger] inactive(post)[i]
                    == inactive(pre)[i]
        }),
{
    let bank = inactive_bank_of(pre.swap());
    let a = seam_of(pre, before);
    let b = seam_of(post, after);
    assert forall|i: int| 0 <= i < BANK_SIZE && !(from <= i < to) implies #[trigger] inactive(
        post,
    )[i] == inactive(pre)[i] by {
        assert(post.bank(bank)[i] == pre.bank(bank)[i]);
    }
    if bank == PhysBank::One {
        assert forall|i: int| 0 <= i < META_END implies #[trigger] pre.bank1[i] == post.bank1[i] by {
            assert(post.bank(bank)[i] == pre.bank(bank)[i]);
        }
        lemma_same_records(pre.bank1, post.bank1);
    }
    assert(a.payload() =~= inactive(pre).subrange(IMAGE_PAYLOAD_OFFSET as int, BANK_SIZE as int));
    assert(b.payload() =~= inactive(post).subrange(IMAGE_PAYLOAD_OFFSET as int, BANK_SIZE as int));
}

/// Whether a descriptor can be programmed depends on its quad-words alone.
proof fn lemma_vacant_kept(pre: FlashView, post: FlashView)
    requires
        forall|i: int|
            #![trigger inactive(post)[i]]
            #![trigger inactive(pre)[i]]
            IMAGE_DESCRIPTOR_OFFSET <= i < IMAGE_DESCRIPTOR_OFFSET + quads_len(
                IMAGE_DESCRIPTOR_LEN as int,
            ) ==> inactive(post)[i] == inactive(pre)[i],
    ensures
        descriptor_vacant(post) == descriptor_vacant(pre),
{
    let from = IMAGE_DESCRIPTOR_OFFSET as int;
    let to = IMAGE_DESCRIPTOR_OFFSET + quads_len(IMAGE_DESCRIPTOR_LEN as int);
    if descriptor_vacant(pre) {
        assert forall|i: int| from <= i < to implies #[trigger] inactive(post)[i] == ERASED by {
            assert(inactive(pre)[i] == ERASED);
        }
    }
    if descriptor_vacant(post) {
        assert forall|i: int| from <= i < to implies #[trigger] inactive(pre)[i] == ERASED by {
            assert(inactive(post)[i] == ERASED);
        }
    }
}

/// A change of the metadata leaves the image of the inactive bank alone.
proof fn lemma_meta_change(
    pre: FlashView,
    post: FlashView,
    from: int,
    to: int,
    before: Seq<SeamCall>,
    after: Seq<SeamCall>,
)
    requires
        pre.wf(),
        0 <= from,
        to <= META_END,
        only_changed(pre, post, PhysBank::One, from, to),
    ensures
        ({
            let a = seam_of(pre, before);
            let b = seam_of(post, after);
            &&& b == (SeamView {
                pending: b.pending,
                nvcnt: b.nvcnt,
                boot_count: b.boot_count,
                outcome: b.outcome,
                room: b.room,
                ticks: b.ticks,
                calls: after,
                ..a
            })
            &&& from >= PAGE_SIZE ==> b.boot_count == a.boot_count && b.ticks == a.ticks
            &&& to <= PAGE_SIZE ==> b.pending == a.pending && b.outcome == a.outcome
            &&& from >= META_BOOT_OFFSET ==> b.nvcnt == a.nvcnt && b.room == a.room
            &&& to <= META_BOOT_OFFSET ==> b.boot_count == a.boot_count && b.ticks == a.ticks
        }),
{
    let one = PhysBank::One;
    let a = seam_of(pre, before);
    let b = seam_of(post, after);
    assert forall|i: int| 0 <= i < BANK_SIZE && !(from <= i < to) implies #[trigger] post.bank1[i]
        == pre.bank1[i] by {
        assert(post.bank(one)[i] == pre.bank(one)[i]);
    }
    assert forall|i: int| META_END <= i < BANK_SIZE implies #[trigger] inactive(post)[i] == inactive(
        pre,
    )[i] by {
        if inactive_bank_of(pre.swap()) == one {
            assert(post.bank(one)[i] == pre.bank(one)[i]);
        }
    }
    assert(b.descriptor =~= a.descriptor);
    assert(b.secure =~= a.secure);
    assert(b.ns =~= a.ns);
    lemma_vacant_kept(pre, post);
    if from >= META_BOOT_OFFSET {
        lemma_same_counter(pre.bank1, post.bank1);
    }
    if to <= META_BOOT_OFFSET || from >= PAGE_SIZE {
        lemma_same_ticks(pre.bank1, post.bank1);
    }
}

/// A change of one slot of a log leaves the others alone.
proof fn lemma_slot_programmed(pre: FlashView, post: FlashView, log: int, slot: int)
    requires
        pre.wf(),
        0 <= slot < META_LOG_SLOTS,
        log == META_NVCNT_OFFSET || log == META_BOOT_OFFSET,
        only_changed(
            pre,
            post,
            PhysBank::One,
            log + slot * QUAD_WORD_LEN,
            log + slot * QUAD_WORD_LEN + QUAD_WORD_LEN,
        ),
    ensures
        forall|s: int|
            0 <= s < META_LOG_SLOTS && s != slot ==> #[trigger] slot_word(pre.bank1, log, s)
                == slot_word(post.bank1, log, s),
        log == META_NVCNT_OFFSET ==> forall|s: int|
            0 <= s < META_LOG_SLOTS && s != slot ==> #[trigger] counter_slot(pre.bank1, s)
                == counter_slot(post.bank1, s),
{
    let one = PhysBank::One;
    assert forall|s: int| 0 <= s < META_LOG_SLOTS && s != slot implies #[trigger] slot_word(
        pre.bank1,
        log,
        s,
    ) == slot_word(post.bank1, log, s) && (log == META_NVCNT_OFFSET ==> slot_mark(pre.bank1, s)
        == slot_mark(post.bank1, s)) by {
        let at = log + s * QUAD_WORD_LEN;
        assert(post.bank(one)[at] == pre.bank(one)[at]);
        assert(post.bank(one)[at + 1] == pre.bank(one)[at + 1]);
        assert(post.bank(one)[at + 2] == pre.bank(one)[at + 2]);
        assert(post.bank(one)[at + 3] == pre.bank(one)[at + 3]);
        assert(post.bank(one)[at + 4] == pre.bank(one)[at + 4]);
        assert(post.bank(one)[at + 5] == pre.bank(one)[at + 5]);
        assert(post.bank(one)[at + 6] == pre.bank(one)[at + 6]);
        assert(post.bank(one)[at + 7] == pre.bank(one)[at + 7]);
    }
    if log == META_NVCNT_OFFSET {
        assert forall|s: int| 0 <= s < META_LOG_SLOTS && s != slot implies #[trigger] counter_slot(
            pre.bank1,
            s,
        ) == counter_slot(post.bank1, s) by {
            assert(slot_word(pre.bank1, log, s) == slot_word(post.bank1, log, s));
        }
    }
}

impl<A> Stm32FlashSeam<A> where A: FlashAccess {
    fn answer(&mut self, Ghost(call): Ghost<SeamCall>)
        ensures
            *final(self) == (Stm32FlashSeam {
                calls: Ghost(old(self).calls@.push(call)),
                ..*old(self)
            }),
    {
        self.calls = Ghost(self.calls@.push(call));
    }

    /// The band and the address of a payload page of the inactive bank. A page lies
    /// in one band: the boundary is a multiple of its length.
    fn logical_page_addr(&mut self, page: PageIndex) -> (r: Result<(PageBand, u32), FlashError>)
        requires
            old(self).access.flash().wf(),
        ensures
            final(self).calls == old(self).calls && final(self).boots == old(self).boots,
            final(self).access.flash() == old(self).access.flash(),
            old(self).access.nominal() ==> final(self).access.nominal(),
            match r {
                Ok((band, addr)) => {
                    &&& page * PAGE_LEN + PAGE_LEN <= IMAGE_PAYLOAD_SIZE
                    &&& run_at(
                        old(self).access.flash(),
                        addr as int,
                        band,
                        inactive_bank_of(old(self).access.flash().swap()),
                        IMAGE_PAYLOAD_OFFSET + page * PAGE_LEN,
                        PAGE_LEN as int,
                    )
                },
                Err(e) => {
                    &&& page * PAGE_LEN + PAGE_LEN > IMAGE_PAYLOAD_SIZE
                    &&& e == FlashError::OutOfRange
                },
            },
    {
        let offset: u32 = page as u32 * PAGE_LEN as u32;
        if offset + PAGE_LEN as u32 > IMAGE_PAYLOAD_SIZE {
            return Err(FlashError::OutOfRange);
        }
        let band: PageBand = if offset < IMAGE_PAYLOAD_SECURE_SIZE {
            PageBand::Secure
        } else {
            PageBand::NonSecure
        };
        let bank: PhysBank = self.inactive_phys();
        let secure_base: u32 = self.phys_base(bank);
        let addr: u32 = band.alias_base(secure_base) + IMAGE_PAYLOAD_OFFSET + offset;
        Ok((band, addr))
    }

    /// Raises the anti-rollback counter: programs the next erased slot of its log.
    pub(crate) fn bump_nvcnt(&mut self, value: u32) -> (r: Result<(), FlashError>)
        requires
            settled(old(self).flash()),
        ensures
            settled(final(self).flash()),
            final(self).answered() == old(self).answered(),
            final(self).booted() == old(self).booted(),
            locks_kept(old(self).flash(), final(self).flash()),
            clean(old(self).flash()) ==> clean(final(self).flash()),
            only_changed(
                old(self).flash(),
                final(self).flash(),
                PhysBank::One,
                0,
                META_BOOT_OFFSET as int,
            ),
            ({
                let a = old(self).flash();
                let b = final(self).flash();
                let current = stored_nvcnt(a.bank1);
                let stored = stored_nvcnt(b.bank1);
                &&& stored == current || stored == value
                &&& stored >= current
                &&& r is Ok ==> stored == value
                &&& if !sane_posture(a.optr) {
                    r == Err::<(), FlashError>(FlashError::Hardware) && b == a
                } else if value < current {
                    r == Err::<(), FlashError>(FlashError::WriteFailed) && b == a
                } else if value == current {
                    r == Ok::<(), FlashError>(()) && b == a
                } else {
                    if !counter_room(a.bank1) {
                        r == Err::<(), FlashError>(FlashError::CounterExhausted) && b == a
                    } else {
                        &&& fault_answered(calm(old(self).port()), r)
                        &&& stuck_answered(a, b, r)
                        &&& relocked(a, b, PageBand::Secure)
                    }
                }
                &&& b.optwerr == a.optwerr
                &&& calm(old(self).port()) ==> calm(final(self).port())
                &&& calm(old(self).port()) && sane_posture(a.optr) && value > current
                    && counter_room(a.bank1) ==> r is Ok
            }),
    {
        let ghost pre = self.access.flash();
        let ghost log = META_NVCNT_OFFSET as int;
        match self.require_dualbank_secure() {
            Ok(_) => {},
            Err(e) => return Err(e),
        }
        let current: u32 = self.nvcnt_max();
        if value < current {
            return Err(FlashError::WriteFailed);
        }
        if value == current {
            // The same image again spends no burn budget.
            return Ok(());
        }
        let slot: u32 = match self.nvcnt_free_slot() {
            Some(slot) => slot,
            None => return Err(FlashError::CounterExhausted),
        };
        let offset: u32 = META_NVCNT_OFFSET + slot * QUAD_WORD_LEN;
        let addr: u32 = self.meta_addr(offset);
        // All ones reads like an erased word, so its slot is marked instead.
        let r = if value == ERASED_WORD {
            self.program_top_mark(addr, Ghost(offset as int))
        } else {
            self.program_record(addr, value, Ghost(offset as int))
        };
        proof {
            let post = self.access.flash();
            let n = META_LOG_SLOTS as int;
            let at = offset as int;
            assert(offset == log + slot * QUAD_WORD_LEN);
            assert(only_changed(pre, post, PhysBank::One, at, at + QUAD_WORD_LEN));
            lemma_slot_programmed(pre, post, log, slot as int);
            lemma_counter_bounds(pre.bank1, n);
            let one = PhysBank::One;
            if value == ERASED_WORD {
                assert(post.bank(one)[at] == pre.bank(one)[at]);
                assert(post.bank(one)[at + 1] == pre.bank(one)[at + 1]);
                assert(post.bank(one)[at + 2] == pre.bank(one)[at + 2]);
                assert(post.bank(one)[at + 3] == pre.bank(one)[at + 3]);
            } else {
                assert(post.bank(one)[at + 4] == pre.bank(one)[at + 4]);
                assert(post.bank(one)[at + 5] == pre.bank(one)[at + 5]);
                assert(post.bank(one)[at + 6] == pre.bank(one)[at + 6]);
                assert(post.bank(one)[at + 7] == pre.bank(one)[at + 7]);
            }
            assert(counter_slot(post.bank1, slot as int) == Some(value as int) || counter_slot(
                post.bank1,
                slot as int,
            ) is None);
            if counter_slot(post.bank1, slot as int) is Some {
                lemma_counter_append(pre.bank1, post.bank1, n, slot as int, value as int);
            } else {
                lemma_same_max(pre.bank1, post.bank1, n);
            }
        }
        r
    }

    /// Writes the pending record, carrying the outcome record it shares a page with
    /// through the erase.
    pub(crate) fn write_pending(&mut self, flag: PendingFlag) -> (r: Result<(), FlashError>)
        requires
            settled(old(self).flash()),
        ensures
            settled(final(self).flash()),
            final(self).answered() == old(self).answered(),
            final(self).booted() == old(self).booted(),
            locks_kept(old(self).flash(), final(self).flash()),
            sane_posture(old(self).flash().optr) ==> relocked(
                old(self).flash(),
                final(self).flash(),
                PageBand::Secure,
            ),
            clean(old(self).flash()) ==> clean(final(self).flash()),
            only_changed(
                old(self).flash(),
                final(self).flash(),
                PhysBank::One,
                PAGE_SIZE as int,
                META_END as int,
            ),
            ({
                let a = old(self).flash().bank1;
                let b = final(self).flash().bank1;
                &&& stored_pending(b) == stored_pending(a) || stored_pending(b) == flag
                    || stored_pending(b) == PendingFlag::Clear
                &&& stored_outcome(b) == stored_outcome(a) || stored_outcome(b)
                    == UpdateOutcome::Clear
                &&& r is Ok ==> stored_pending(b) == flag && stored_outcome(b) == stored_outcome(a)
            }),
            !sane_posture(old(self).flash().optr) ==> r == Err::<(), FlashError>(
                FlashError::Hardware,
            ) && final(self).flash() == old(self).flash(),
            sane_posture(old(self).flash().optr) ==> stuck_answered(
                old(self).flash(),
                final(self).flash(),
                r,
            ),
            sane_posture(old(self).flash().optr) ==> fault_answered(calm(old(self).port()), r),
            final(self).flash().optwerr == old(self).flash().optwerr,
            calm(old(self).port()) ==> calm(final(self).port()),
            calm(old(self).port()) && sane_posture(old(self).flash().optr) ==> r is Ok,
    {
        let outcome_value: u32 = self.read_meta_word(META_OUTCOME_OFFSET);
        self.rewrite_mutable_records(encode_pending(flag), outcome_value)
    }

    /// Writes the outcome record, keeping the pending record it shares a page with.
    pub(crate) fn write_outcome(&mut self, outcome: UpdateOutcome) -> (r: Result<(), FlashError>)
        requires
            settled(old(self).flash()),
        ensures
            settled(final(self).flash()),
            final(self).answered() == old(self).answered(),
            final(self).booted() == old(self).booted(),
            locks_kept(old(self).flash(), final(self).flash()),
            sane_posture(old(self).flash().optr) ==> relocked(
                old(self).flash(),
                final(self).flash(),
                PageBand::Secure,
            ),
            clean(old(self).flash()) ==> clean(final(self).flash()),
            only_changed(
                old(self).flash(),
                final(self).flash(),
                PhysBank::One,
                PAGE_SIZE as int,
                META_END as int,
            ),
            ({
                let a = old(self).flash().bank1;
                let b = final(self).flash().bank1;
                &&& stored_pending(b) == stored_pending(a) || stored_pending(b)
                    == PendingFlag::Clear
                &&& stored_outcome(b) == stored_outcome(a) || stored_outcome(b) == outcome
                    || stored_outcome(b) == UpdateOutcome::Clear
                &&& r is Ok ==> stored_pending(b) == stored_pending(a) && stored_outcome(b)
                    == outcome
            }),
            !sane_posture(old(self).flash().optr) ==> r == Err::<(), FlashError>(
                FlashError::Hardware,
            ) && final(self).flash() == old(self).flash(),
            sane_posture(old(self).flash().optr) ==> stuck_answered(
                old(self).flash(),
                final(self).flash(),
                r,
            ),
            sane_posture(old(self).flash().optr) ==> fault_answered(calm(old(self).port()), r),
            final(self).flash().optwerr == old(self).flash().optwerr,
            calm(old(self).port()) ==> calm(final(self).port()),
            calm(old(self).port()) && sane_posture(old(self).flash().optr) ==> r is Ok,
    {
        let pending_value: u32 = self.read_meta_word(META_PENDING_OFFSET);
        self.rewrite_mutable_records(pending_value, encode_outcome(outcome))
    }

    /// Borrows `len` bytes at `offset` of a bank through the alias of a band.
    pub(crate) fn band_slice(
        &self,
        bank: PhysBank,
        swap: bool,
        band: PageBand,
        offset: u32,
        len: u32,
    ) -> (r: &[u8])
        requires
            self.flash().wf(),
            swap == self.flash().swap(),
            offset >= IMAGE_REGION_OFFSET,
            offset + len <= BANK_SIZE,
            in_band(band, offset as int, offset + len),
            len > 0,
        ensures
            r@ == self.flash().bank(bank).subrange(offset as int, offset + len),
    {
        let base: u32 = band.alias_base(bank.mapped_base(swap)) + offset;
        self.access.bank_view(base, len as usize)
    }
}

impl<A> FlashSeam for Stm32FlashSeam<A> where A: FlashAccess {
    open spec fn seam(&self) -> SeamView {
        seam_of(self.flash(), self.answered())
    }

    open spec fn wf(&self) -> bool {
        settled(self.flash())
    }

    open spec fn nominal(&self) -> bool {
        &&& calm(self.port())
        &&& sane_posture(self.flash().optr)
        &&& !self.flash().optwerr
    }

    proof fn seam_is_wf(&self) {
    }

    fn inactive_descriptor(&self) -> (bytes: &[u8]) {
        let swap: bool = swap_bank_set(self.access.peek32(FLASH_OPTR));
        self.band_slice(
            inactive_phys_bank(swap),
            swap,
            PageBand::Secure,
            IMAGE_DESCRIPTOR_OFFSET,
            IMAGE_DESCRIPTOR_LEN,
        )
    }

    fn inactive_secure_band(&self) -> (bytes: &[u8]) {
        let swap: bool = swap_bank_set(self.access.peek32(FLASH_OPTR));
        self.band_slice(
            inactive_phys_bank(swap),
            swap,
            PageBand::Secure,
            IMAGE_PAYLOAD_OFFSET,
            IMAGE_PAYLOAD_SECURE_SIZE,
        )
    }

    fn inactive_ns_band(&self) -> (bytes: &[u8]) {
        // A non-secure page reads as zero through the secure alias.
        let swap: bool = swap_bank_set(self.access.peek32(FLASH_OPTR));
        self.band_slice(
            inactive_phys_bank(swap),
            swap,
            PageBand::NonSecure,
            IMAGE_NS_BAND_OFFSET,
            IMAGE_NS_BAND_SIZE,
        )
    }

    fn running_bank(&mut self) -> (r: Result<BankId, FlashError>)
        ensures
            final(self).flash() == old(self).flash(),
            r is Ok,
    {
        let r = Ok(bank_id(running_phys_bank(self.swap_bank())));
        self.answer(Ghost(SeamCall::RunningBank(r)));
        r
    }

    fn target_bank(&mut self) -> (r: Result<BankId, FlashError>)
        ensures
            final(self).flash() == old(self).flash(),
            r is Ok,
    {
        let r = Ok(bank_id(self.inactive_phys()));
        self.answer(Ghost(SeamCall::TargetBank(r)));
        r
    }

    fn erase_inactive(&mut self) -> (r: Result<(), FlashError>)
        ensures
            erase_driven(old(self).flash(), calm(old(self).port()), final(self).flash(), r),
    {
        let ghost pre = self.access.flash();
        let ghost calls = self.calls@;
        let r = match self.require_dualbank_secure() {
            Ok(_) => {
                let bank: PhysBank = self.inactive_phys();
                // Each band on its own controller: the other is refused.
                let secure = self.erase_band(
                    bank,
                    PageBand::Secure,
                    IMAGE_PAGE_FIRST,
                    IMAGE_NS_PAGE_FIRST,
                );
                match secure {
                    Ok(_) => {
                        let ghost mid = self.access.flash();
                        let r = self.erase_band(
                            bank,
                            PageBand::NonSecure,
                            IMAGE_NS_PAGE_FIRST,
                            PAGES_PER_BANK,
                        );
                        proof {
                            let post = self.access.flash();
                            assert forall|i: int|
                                0 <= i < BANK_SIZE && !(IMAGE_REGION_OFFSET <= i
                                    < BANK_SIZE) implies #[trigger] post.bank(bank)[i] == pre.bank(
                                bank,
                            )[i] by {
                                assert(mid.bank(bank)[i] == pre.bank(bank)[i]);
                            }
                            assert forall|i: int|
                                r is Ok && IMAGE_REGION_OFFSET <= i
                                    < BANK_SIZE implies #[trigger] inactive(post)[i] == ERASED by {
                                if i < IMAGE_NS_BAND_OFFSET {
                                    assert(post.bank(bank)[i] == mid.bank(bank)[i]);
                                }
                            }
                        }
                        r
                    },
                    Err(e) => Err(e),
                }
            },
            Err(e) => Err(e),
        };
        self.answer(Ghost(SeamCall::Erase(r)));
        proof {
            lemma_image_change(
                pre,
                self.access.flash(),
                IMAGE_REGION_OFFSET as int,
                BANK_SIZE as int,
                calls,
                self.calls@,
            );
        }
        r
    }

    fn write_inactive_page(&mut self, page: PageIndex, data: &[u8]) -> (r: Result<(), FlashError>)
        ensures
            page_driven(
                old(self).flash(),
                page,
                data@,
                calm(old(self).port()),
                final(self).flash(),
                r,
            ),
    {
        let ghost pre = self.access.flash();
        let ghost calls = self.calls@;
        let ghost from = IMAGE_PAYLOAD_OFFSET + page * PAGE_LEN;
        let r = if data.len() > PAGE_LEN {
            Err(FlashError::OutOfRange)
        } else {
            match self.require_dualbank_secure() {
                Ok(_) => match self.logical_page_addr(page) {
                    Ok((band, base)) => {
                        let ghost bank = inactive_bank_of(pre.swap());
                        self.program_run(band, base, data, Ghost(bank), Ghost(from))
                    },
                    Err(e) => Err(e),
                },
                Err(e) => Err(e),
            }
        };
        self.answer(Ghost(SeamCall::WritePage(page, data@, r)));
        proof {
            lemma_image_change(
                pre,
                self.access.flash(),
                from,
                from + PAGE_LEN,
                calls,
                self.calls@,
            );
            let a = seam_of(pre, calls);
            let b = self.seam();
            assert(b.descriptor =~= a.descriptor);
            lemma_vacant_kept(pre, self.access.flash());
            if r is Ok {
                assert(b.payload() =~= overlay(a.payload(), page * PAGE_LEN, data@));
            }
            let bank = inactive_bank_of(pre.swap());
            let quads = quads_len(data@.len() as int);
            if erased_range(a.payload(), page * PAGE_LEN, page * PAGE_LEN + PAGE_LEN) && page
                * PAGE_LEN + PAGE_LEN <= a.payload().len() {
                assert forall|i: int| from <= i < from + PAGE_LEN implies #[trigger] pre.bank(
                    bank,
                )[i] == ERASED by {
                    assert(a.payload()[i - IMAGE_PAYLOAD_OFFSET] == ERASED);
                }
            }
            if erased_range(inactive(pre), from, from + quads) {
                assert forall|i: int| from <= i < from + quads implies #[trigger] pre.bank(bank)[i]
                    == ERASED by {
                    assert(inactive(pre)[i] == ERASED);
                }
            }
        }
        r
    }

    fn write_descriptor(&mut self, descriptor: &[u8]) -> (r: Result<(), FlashError>)
        ensures
            descriptor_driven(
                old(self).flash(),
                descriptor@,
                calm(old(self).port()),
                final(self).flash(),
                r,
            ),
    {
        let ghost pre = self.access.flash();
        let ghost calls = self.calls@;
        let r = if descriptor.len() > PAGE_SIZE as usize {
            Err(FlashError::OutOfRange)
        } else {
            match self.require_dualbank_secure() {
                Ok(_) => {
                    let bank: PhysBank = self.inactive_phys();
                    let secure_base: u32 = self.phys_base(bank);
                    let base: u32 = PageBand::Secure.alias_base(secure_base)
                        + IMAGE_DESCRIPTOR_OFFSET;
                    self.program_run(
                        PageBand::Secure,
                        base,
                        descriptor,
                        Ghost(bank),
                        Ghost(IMAGE_DESCRIPTOR_OFFSET as int),
                    )
                },
                Err(e) => Err(e),
            }
        };
        self.answer(Ghost(SeamCall::WriteDescriptor(descriptor@, r)));
        proof {
            lemma_image_change(
                pre,
                self.access.flash(),
                IMAGE_DESCRIPTOR_OFFSET as int,
                IMAGE_PAYLOAD_OFFSET as int,
                calls,
                self.calls@,
            );
            let a = seam_of(pre, calls);
            let b = self.seam();
            assert(b.secure =~= a.secure);
            assert(b.ns =~= a.ns);
            if r is Ok && descriptor@.len() <= a.descriptor.len() {
                assert(b.descriptor =~= overlay(a.descriptor, 0, descriptor@));
            }
            let bank = inactive_bank_of(pre.swap());
            let start = IMAGE_DESCRIPTOR_OFFSET as int;
            if erased_range(
                inactive(pre),
                start,
                start + quads_len(descriptor@.len() as int),
            ) || a.vacant && descriptor@.len() <= a.descriptor.len() {
                assert forall|i: int|
                    start <= i < start + quads_len(descriptor@.len() as int) implies #[trigger] pre.bank(
                    bank,
                )[i] == ERASED by {
                    assert(inactive(pre)[i] == ERASED);
                }
            }
            if r is Ok && erased_range(inactive(pre), start, IMAGE_PAYLOAD_OFFSET as int) {
                assert(inactive(self.access.flash()).subrange(start, IMAGE_PAYLOAD_OFFSET as int)
                    =~= descriptor@ + Seq::new(
                    (PAGE_SIZE - descriptor@.len()) as nat,
                    |i: int| ERASED,
                ));
            }
        }
        r
    }

    fn commit_swap(&mut self) -> (r: Result<(), FlashError>)
        ensures
            arm_driven(old(self).flash(), final(self).flash(), r),
    {
        let r = match self.require_dualbank_secure() {
            Ok(_) => {
                let target: PhysBank = self.inactive_phys();
                self.arm_swap(target == PhysBank::Two)
            },
            Err(e) => Err(e),
        };
        self.answer(Ghost(SeamCall::CommitSwap(r)));
        r
    }

    fn revert_swap(&mut self) -> (r: Result<(), FlashError>)
        ensures
            arm_driven(old(self).flash(), final(self).flash(), r),
    {
        // The previously running bank is the inactive one now.
        let r = match self.require_dualbank_secure() {
            Ok(_) => {
                let swap: bool = self.swap_bank();
                self.arm_swap(inactive_phys_bank(swap) == PhysBank::Two)
            },
            Err(e) => Err(e),
        };
        self.answer(Ghost(SeamCall::RevertSwap(r)));
        r
    }

    fn nvcnt_read(&mut self) -> (r: Result<u32, FlashError>)
        ensures
            final(self).flash() == old(self).flash(),
            r is Ok,
    {
        let r = Ok(self.nvcnt_max());
        self.answer(Ghost(SeamCall::NvcntRead(r)));
        r
    }

    fn nvcnt_bump(&mut self, value: u32) -> (r: Result<(), FlashError>)
        ensures
            only_changed(
                old(self).flash(),
                final(self).flash(),
                PhysBank::One,
                0,
                META_BOOT_OFFSET as int,
            ),
            locks_kept(old(self).flash(), final(self).flash()),
            clean(old(self).flash()) ==> clean(final(self).flash()),
            !sane_posture(old(self).flash().optr) ==> r == Err::<(), FlashError>(
                FlashError::Hardware,
            ) && final(self).flash() == old(self).flash(),
            sane_posture(old(self).flash().optr) && value < old(self).seam().nvcnt ==> r == Err::<
                (),
                FlashError,
            >(FlashError::WriteFailed) && final(self).flash() == old(self).flash(),
            sane_posture(old(self).flash().optr) && value == old(self).seam().nvcnt ==> r == Ok::<
                (),
                FlashError,
            >(()) && final(self).flash() == old(self).flash(),
            sane_posture(old(self).flash().optr) && value > old(self).seam().nvcnt && !counter_room(
                old(self).flash().bank1,
            ) ==> r == Err::<(), FlashError>(FlashError::CounterExhausted) && final(self).flash()
                == old(self).flash(),
            sane_posture(old(self).flash().optr) && value > old(self).seam().nvcnt && counter_room(
                old(self).flash().bank1,
            ) ==> {
                &&& fault_answered(calm(old(self).port()), r)
                &&& stuck_answered(old(self).flash(), final(self).flash(), r)
                &&& calm(old(self).port()) ==> r is Ok
                &&& relocked(old(self).flash(), final(self).flash(), PageBand::Secure)
            },
    {
        let ghost pre = self.flash();
        let ghost calls = self.answered();
        let r = self.bump_nvcnt(value);
        self.answer(Ghost(SeamCall::NvcntBump(value, r)));
        proof {
            lemma_meta_change(
                pre,
                self.flash(),
                0,
                META_BOOT_OFFSET as int,
                calls,
                self.answered(),
            );
        }
        r
    }

    fn pending_read(&mut self) -> (r: Result<PendingFlag, FlashError>)
        ensures
            final(self).flash() == old(self).flash(),
            r is Ok,
    {
        let r = Ok(decode_pending(self.read_meta_word(META_PENDING_OFFSET)));
        self.answer(Ghost(SeamCall::PendingRead(r)));
        r
    }

    fn pending_write(&mut self, flag: PendingFlag) -> (r: Result<(), FlashError>)
        ensures
            only_changed(
                old(self).flash(),
                final(self).flash(),
                PhysBank::One,
                PAGE_SIZE as int,
                META_END as int,
            ),
            locks_kept(old(self).flash(), final(self).flash()),
            sane_posture(old(self).flash().optr) ==> relocked(
                old(self).flash(),
                final(self).flash(),
                PageBand::Secure,
            ),
            clean(old(self).flash()) ==> clean(final(self).flash()),
            !sane_posture(old(self).flash().optr) ==> r == Err::<(), FlashError>(
                FlashError::Hardware,
            ) && final(self).flash() == old(self).flash(),
            sane_posture(old(self).flash().optr) ==> stuck_answered(
                old(self).flash(),
                final(self).flash(),
                r,
            ),
            sane_posture(old(self).flash().optr) ==> fault_answered(calm(old(self).port()), r),
    {
        let ghost pre = self.flash();
        let ghost calls = self.answered();
        let r = self.write_pending(flag);
        self.answer(Ghost(SeamCall::PendingWrite(flag, r)));
        proof {
            lemma_meta_change(
                pre,
                self.flash(),
                PAGE_SIZE as int,
                META_END as int,
                calls,
                self.answered(),
            );
        }
        r
    }

    fn boot_count_read(&mut self) -> (r: Result<u32, FlashError>)
        ensures
            final(self).flash() == old(self).flash(),
            r is Ok,
    {
        let r = Ok(self.boot_count_slots());
        self.answer(Ghost(SeamCall::BootCountRead(r)));
        r
    }

    fn boot_count_advance(&mut self) -> (r: Result<(), FlashError>)
        ensures
            only_changed(
                old(self).flash(),
                final(self).flash(),
                PhysBank::One,
                META_BOOT_OFFSET as int,
                PAGE_SIZE as int,
            ),
            locks_kept(old(self).flash(), final(self).flash()),
            clean(old(self).flash()) ==> clean(final(self).flash()),
            !sane_posture(old(self).flash().optr) ==> r == Err::<(), FlashError>(
                FlashError::Hardware,
            ) && final(self).flash() == old(self).flash(),
            sane_posture(old(self).flash().optr) && old(self).seam().boot_count >= META_LOG_SLOTS
                ==> r == Err::<(), FlashError>(FlashError::WriteFailed) && final(self).flash()
                == old(self).flash(),
            sane_posture(old(self).flash().optr) && old(self).seam().boot_count < META_LOG_SLOTS
                ==> {
                &&& fault_answered(calm(old(self).port()), r)
                &&& stuck_answered(old(self).flash(), final(self).flash(), r)
                &&& calm(old(self).port()) && tick_room(old(self).flash().bank1) ==> r is Ok
                &&& relocked(old(self).flash(), final(self).flash(), PageBand::Secure)
            },
    {
        let ghost pre = self.access.flash();
        let ghost calls = self.calls@;
        let ghost log = META_BOOT_OFFSET as int;
        let r = match self.require_dualbank_secure() {
            Ok(_) => {
                let used: u32 = self.boot_count_slots();
                if used >= META_LOG_SLOTS {
                    Err(FlashError::WriteFailed)
                } else {
                    let offset: u32 = META_BOOT_OFFSET + used * QUAD_WORD_LEN;
                    let addr: u32 = self.meta_addr(offset);
                    let r = self.program_record(addr, BOOT_TICK, Ghost(offset as int));
                    proof {
                        let post = self.access.flash();
                        lemma_slot_programmed(pre, post, log, used as int);
                        lemma_meta_change(pre, post, offset as int, offset + 4, calls, calls);
                        lemma_boot_tick(pre.bank1, post.bank1, used as int);
                    }
                    r
                }
            },
            Err(e) => Err(e),
        };
        self.answer(Ghost(SeamCall::BootCountAdvance(r)));
        r
    }

    fn update_outcome_read(&mut self) -> (r: Result<UpdateOutcome, FlashError>)
        ensures
            final(self).flash() == old(self).flash(),
            r is Ok,
    {
        let r = Ok(decode_outcome(self.read_meta_word(META_OUTCOME_OFFSET)));
        self.answer(Ghost(SeamCall::OutcomeRead(r)));
        r
    }

    fn update_outcome_write(&mut self, outcome: UpdateOutcome) -> (r: Result<(), FlashError>)
        ensures
            only_changed(
                old(self).flash(),
                final(self).flash(),
                PhysBank::One,
                PAGE_SIZE as int,
                META_END as int,
            ),
            locks_kept(old(self).flash(), final(self).flash()),
            sane_posture(old(self).flash().optr) ==> relocked(
                old(self).flash(),
                final(self).flash(),
                PageBand::Secure,
            ),
            clean(old(self).flash()) ==> clean(final(self).flash()),
            !sane_posture(old(self).flash().optr) ==> r == Err::<(), FlashError>(
                FlashError::Hardware,
            ) && final(self).flash() == old(self).flash(),
            sane_posture(old(self).flash().optr) ==> stuck_answered(
                old(self).flash(),
                final(self).flash(),
                r,
            ),
            sane_posture(old(self).flash().optr) ==> fault_answered(calm(old(self).port()), r),
    {
        let ghost pre = self.access.flash();
        let ghost calls = self.calls@;
        let r = self.write_outcome(outcome);
        self.answer(Ghost(SeamCall::OutcomeWrite(outcome, r)));
        proof {
            lemma_meta_change(
                pre,
                self.access.flash(),
                PAGE_SIZE as int,
                META_END as int,
                calls,
                self.calls@,
            );
        }
        r
    }

    fn update_outcome_clear(&mut self) -> (r: Result<(), FlashError>)
        ensures
            only_changed(
                old(self).flash(),
                final(self).flash(),
                PhysBank::One,
                PAGE_SIZE as int,
                META_END as int,
            ),
            locks_kept(old(self).flash(), final(self).flash()),
            sane_posture(old(self).flash().optr) ==> relocked(
                old(self).flash(),
                final(self).flash(),
                PageBand::Secure,
            ),
            clean(old(self).flash()) ==> clean(final(self).flash()),
            !sane_posture(old(self).flash().optr) ==> r == Err::<(), FlashError>(
                FlashError::Hardware,
            ) && final(self).flash() == old(self).flash(),
            sane_posture(old(self).flash().optr) ==> stuck_answered(
                old(self).flash(),
                final(self).flash(),
                r,
            ),
            sane_posture(old(self).flash().optr) ==> fault_answered(calm(old(self).port()), r),
    {
        let ghost pre = self.access.flash();
        let ghost calls = self.calls@;
        let r = self.write_outcome(UpdateOutcome::Clear);
        self.answer(Ghost(SeamCall::OutcomeClear(r)));
        proof {
            lemma_meta_change(
                pre,
                self.access.flash(),
                PAGE_SIZE as int,
                META_END as int,
                calls,
                self.calls@,
            );
        }
        r
    }
}

/// A tick at slot `used` of the boot-count log: the count keeps, or rises by one
/// where the slot was erased and took the tick.
proof fn lemma_boot_tick(a: Seq<u8>, b: Seq<u8>, used: int)
    requires
        a.len() == BANK_SIZE,
        b.len() == BANK_SIZE,
        0 <= used < META_LOG_SLOTS,
        slot_word(b, META_BOOT_OFFSET as int, used) == slot_word(a, META_BOOT_OFFSET as int, used)
            || slot_word(b, META_BOOT_OFFSET as int, used) == BOOT_TICK,
        forall|s: int|
            0 <= s < META_LOG_SLOTS && s != used ==> #[trigger] slot_word(
                a,
                META_BOOT_OFFSET as int,
                s,
            ) == slot_word(b, META_BOOT_OFFSET as int, s),
    ensures
        stored_boot_count(b) == stored_boot_count(a) || stored_boot_count(b) == stored_boot_count(a)
            + 1,
        slot_word(a, META_BOOT_OFFSET as int, used) == ERASED_WORD && slot_word(
            b,
            META_BOOT_OFFSET as int,
            used,
        ) == BOOT_TICK ==> stored_boot_count(b) == stored_boot_count(a) + 1,
{
    let log = META_BOOT_OFFSET as int;
    let n = META_LOG_SLOTS as int;
    lemma_log_bounds(a, log, n);
    lemma_log_bounds(b, log, n);
    if slot_word(a, log, used) == ERASED_WORD {
        if slot_word(b, log, used) == BOOT_TICK {
            lemma_log_append(a, b, log, n, used, BOOT_TICK);
        } else {
            lemma_same_log(a, b, log, n);
        }
    } else {
        lemma_count_of_programmed(a, b, log, n, used);
    }
}

/// Another word in a programmed slot leaves the count alone.
proof fn lemma_count_of_programmed(a: Seq<u8>, b: Seq<u8>, log: int, n: int, slot: int)
    requires
        slot_word(a, log, slot) != ERASED_WORD,
        slot_word(b, log, slot) != ERASED_WORD,
        forall|s: int|
            0 <= s < n && s != slot ==> #[trigger] slot_word(a, log, s) == slot_word(b, log, s),
    ensures
        log_count(a, log, n) == log_count(b, log, n),
    decreases n,
{
    if n > 0 {
        lemma_count_of_programmed(a, b, log, n - 1, slot);
        if n - 1 != slot {
            assert(slot_word(a, log, n - 1) == slot_word(b, log, n - 1));
        }
    }
}

} // verus!
