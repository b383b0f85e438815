//! The flash driver behind the update and boot seams.
//!
//! [`Stm32FlashSeam`] bridges the 256-byte pages of the update machine to the
//! granularity of the part: an 8 KiB erase page and a 16-byte quad-word program. A
//! physical bank is named once and asked for both its erase selector and its mapped
//! address, which is read off the option word on every access. Every destructive
//! operation first asserts the dual-bank secure posture and writes nothing without it.
//! Whatever its result, it leaves no error flag behind and re-locks the control
//! register it unlocked.

use vstd::prelude::*;
use vstd::slice::slice_subrange;

use crate::boot::seam::BootCall;
use crate::flash::bus::labelled;
use crate::flash::bus::mpu_covers;
use crate::flash::bus::start_bits;
use crate::flash::bus::with_page_erased;
use crate::flash::bus::word_bytes;
use crate::flash::bus::FlashAccess;
use crate::flash::bus::FlashView;
use crate::flash::bus::Place;
use crate::flash::bus::Port;
use crate::flash::bus::BSY_POLL_LIMIT;
use crate::flash::bus::NS_START_BITS;
use crate::flash::bus::SEC_START_BITS;
use crate::flash::records::counter_max;
use crate::flash::records::counter_room;
use crate::flash::records::counter_slot;
use crate::flash::records::lemma_erased_word;
use crate::flash::records::lemma_slot_free;
use crate::flash::records::lemma_word_roundtrip;
use crate::flash::records::log_count;
use crate::flash::records::outcome_of;
use crate::flash::records::pending_of;
use crate::flash::records::slot_free;
use crate::flash::records::slot_word;
use crate::flash::records::stored_boot_count;
use crate::flash::records::stored_nvcnt;
use crate::flash::records::stored_outcome;
use crate::flash::records::stored_pending;
use crate::flash::records::META_END;
use crate::flash::records::NVCNT_TOP_MARK;
use crate::flash::regs::band_of_page;
use crate::flash::regs::cr_of;
use crate::flash::regs::inactive_bank_of;
use crate::flash::regs::inactive_phys_bank;
use crate::flash::regs::keyr_of;
use crate::flash::regs::mapped_at;
use crate::flash::regs::sr_of;
use crate::flash::regs::swap_bank_set;
use crate::flash::regs::PageBand;
use crate::flash::regs::PhysBank;
use crate::flash::regs::BANK_SIZE;
use crate::flash::regs::ERASED_BYTE;
use crate::flash::regs::ERASED_WORD;
use crate::flash::regs::FLASH_KEY1;
use crate::flash::regs::FLASH_KEY2;
use crate::flash::regs::FLASH_NSCR;
use crate::flash::regs::FLASH_NSKEYR;
use crate::flash::regs::FLASH_NSSR;
use crate::flash::regs::FLASH_OPTKEY1;
use crate::flash::regs::FLASH_OPTKEY2;
use crate::flash::regs::FLASH_OPTKEYR;
use crate::flash::regs::FLASH_OPTR;
use crate::flash::regs::FLASH_SECCR;
use crate::flash::regs::FLASH_SECKEYR;
use crate::flash::regs::IMAGE_NS_BAND_OFFSET;
use crate::flash::regs::IMAGE_REGION_OFFSET;
use crate::flash::regs::META_BOOT_OFFSET;
use crate::flash::regs::META_LOG_SLOTS;
use crate::flash::regs::META_MUTABLE_PAGE;
use crate::flash::regs::META_NVCNT_OFFSET;
use crate::flash::regs::META_OUTCOME_OFFSET;
use crate::flash::regs::META_PENDING_OFFSET;
use crate::flash::regs::NSCR_LOCK;
use crate::flash::regs::NSCR_OBL_LAUNCH;
use crate::flash::regs::NSCR_OPTLOCK;
use crate::flash::regs::NSCR_OPTSTRT;
use crate::flash::regs::OPTR_DUALBANK;
use crate::flash::regs::OPTR_SWAP_BANK;
use crate::flash::regs::OPTR_TZEN;
use crate::flash::regs::OUTCOME_NONE;
use crate::flash::regs::PAGES_PER_BANK;
use crate::flash::regs::PAGE_SIZE;
use crate::flash::regs::PENDING_NONE;
use crate::flash::regs::QUAD_WORD_LEN;
use crate::flash::regs::QUAD_WORD_WORDS;
use crate::flash::regs::SECCR_BKER;
use crate::flash::regs::SECCR_BWR;
use crate::flash::regs::SECCR_EOPIE;
use crate::flash::regs::SECCR_ERRIE;
use crate::flash::regs::SECCR_LOCK;
use crate::flash::regs::SECCR_MER1;
use crate::flash::regs::SECCR_MER2;
use crate::flash::regs::SECCR_PER;
use crate::flash::regs::SECCR_PG;
use crate::flash::regs::SECCR_PNB_MASK;
use crate::flash::regs::SECCR_PNB_SHIFT;
use crate::flash::regs::SECCR_STRT;
use crate::flash::regs::SR_ALL_ERRORS;
use crate::flash::regs::SR_EOP;
use crate::flash::regs::SR_OPTWERR;
use crate::flash::regs::SR_WAIT;
use crate::image::format::le32;
use crate::image::format::read_u32_le;
use crate::image::format::to_le_bytes;
use crate::update::seam::erased_range;
use crate::update::seam::overlay;
use crate::update::seam::write_over;
use crate::update::seam::FlashError;
use crate::update::seam::PendingFlag;
use crate::update::seam::SeamCall;
use crate::update::seam::UpdateOutcome;

pub mod boot;
pub mod update;

verus! {

/// The flash driver, generic over the register-access port.
pub struct Stm32FlashSeam<A> {
    access: A,
    calls: Ghost<Seq<SeamCall>>,
    boots: Ghost<Seq<BootCall>>,
}

/// The register set of a band is unlocked.
pub open spec fn unlocked(flash: FlashView, band: PageBand) -> bool {
    flash.port(band).cr & SECCR_LOCK == 0
}

/// Both register sets are locked.
pub open spec fn locked(flash: FlashView) -> bool {
    !unlocked(flash, PageBand::Secure) && !unlocked(flash, PageBand::NonSecure)
}

/// No unlock sequence is half-way through.
pub open spec fn settled(flash: FlashView) -> bool {
    &&& flash.wf()
    &&& flash.sec.key == 0
    &&& flash.ns.key == 0
    &&& flash.optkey == 0
}

/// Only the register sets changed: no bank, no option, no staged load.
pub open spec fn memory_kept(pre: FlashView, post: FlashView) -> bool {
    &&& post.bank1 == pre.bank1
    &&& post.bank2 == pre.bank2
    &&& options_kept(pre, post)
}

/// No option and no staged load changed.
pub open spec fn options_kept(pre: FlashView, post: FlashView) -> bool {
    &&& post.optr == pre.optr
    &&& post.staged == pre.staged
    &&& post.launched == pre.launched
    &&& post.secwm1 == pre.secwm1
    &&& post.secwm2 == pre.secwm2
}

/// Of the two banks only `bank` changed, and there only `[from, to)`.
pub open spec fn only_changed(
    pre: FlashView,
    post: FlashView,
    bank: PhysBank,
    from: int,
    to: int,
) -> bool {
    &&& options_kept(pre, post)
    &&& post.bank1.len() == pre.bank1.len()
    &&& post.bank2.len() == pre.bank2.len()
    &&& bank == PhysBank::One ==> post.bank2 == pre.bank2
    &&& bank == PhysBank::Two ==> post.bank1 == pre.bank1
    &&& forall|i: int|
        0 <= i < pre.bank(bank).len() && !(from <= i < to) ==> #[trigger] post.bank(bank)[i]
            == pre.bank(bank)[i]
}

/// Each word of the quad-word at `index` is as it was, or as `bytes` has it.
pub open spec fn words_kept_or_landed(
    pre: Seq<u8>,
    post: Seq<u8>,
    index: int,
    bytes: Seq<u8>,
) -> bool {
    forall|w: int|
        0 <= w < QUAD_WORD_WORDS ==> {
            ||| #[trigger] post.subrange(index + 4 * w, index + 4 * w + 4) == pre.subrange(
                index + 4 * w,
                index + 4 * w + 4,
            )
            ||| post.subrange(index + 4 * w, index + 4 * w + 4) == bytes.subrange(
                index + 4 * w,
                index + 4 * w + 4,
            )
        }
}

/// A quad-word program answered with `r`.
pub open spec fn quad_step(
    pre: FlashView,
    bank: PhysBank,
    index: int,
    data: Seq<u8>,
    post: FlashView,
    r: Result<(), FlashError>,
) -> bool {
    let wanted = overlay(pre.bank(bank), index, data);
    &&& only_changed(pre, post, bank, index, index + QUAD_WORD_LEN)
    &&& r is Ok ==> post.bank(bank) == wanted
    &&& r is Ok && data.len() >= 4 ==> le32(pre.bank(bank), index) == ERASED_WORD || le32(data, 0)
        == 0
    &&& index < IMAGE_REGION_OFFSET ==> words_kept_or_landed(
        pre.bank(bank),
        post.bank(bank),
        index,
        wanted,
    )
}

/// The port is fault-free and the controller gets ready in time.
pub open spec fn calm<A: FlashAccess>(access: A) -> bool {
    access.nominal() && access.flash().busy < BSY_POLL_LIMIT
}

/// No error flag is set.
pub open spec fn clean(flash: FlashView) -> bool {
    !flash.sec.failed && !flash.ns.failed && !flash.optwerr
}

/// How a failed operation is answered: as a failed write where the controller flagged
/// it, as a hardware fault where the controller does not get ready in time.
pub open spec fn fault_answered(calm: bool, r: Result<(), FlashError>) -> bool {
    r matches Err(e) ==> e == FlashError::WriteFailed || e == FlashError::Hardware && !calm
}

/// A controller that does not get ready in time is a hardware fault, and nothing lands.
pub open spec fn stuck_answered(
    pre: FlashView,
    post: FlashView,
    r: Result<(), FlashError>,
) -> bool {
    pre.busy >= BSY_POLL_LIMIT ==> r == Err::<(), FlashError>(FlashError::Hardware) && memory_kept(
        pre,
        post,
    )
}

/// `addr` stands for the quad-word at `index` of a bank, through the alias that
/// suits its page.
pub open spec fn quad_at(
    flash: FlashView,
    addr: int,
    band: PageBand,
    bank: PhysBank,
    index: int,
) -> bool {
    &&& flash.resolve(addr) == Some(Place { band, bank, index })
    &&& 0 <= index
    &&& index % QUAD_WORD_LEN as int == 0
    &&& index + QUAD_WORD_LEN <= BANK_SIZE
    &&& band_of_page(index / PAGE_SIZE as int) == band
}

/// The register set of the band is locked, whatever it was, and the rest is kept.
pub open spec fn relocked(pre: FlashView, post: FlashView, band: PageBand) -> bool {
    &&& !unlocked(post, band)
    &&& rest_kept(pre, post, band)
}

/// The option bytes are locked.
pub open spec fn options_locked(flash: FlashView) -> bool {
    flash.ns.cr & NSCR_OPTLOCK != 0
}

/// The option bytes and the register that arms them are locked.
pub open spec fn closed(flash: FlashView) -> bool {
    !unlocked(flash, PageBand::NonSecure) && options_locked(flash)
}

/// What an arm of the swap leaves of the locks: both set, whatever they were, but
/// where the controller was not ready for it, and no register was opened.
pub open spec fn closed_or_untouched(pre: FlashView, post: FlashView) -> bool {
    closed(post) || pre.busy >= BSY_POLL_LIMIT && post == pre.with_busy(post.busy)
}

/// A lock that was set is set still.
pub open spec fn locks_kept(pre: FlashView, post: FlashView) -> bool {
    &&& !unlocked(pre, PageBand::Secure) ==> !unlocked(post, PageBand::Secure)
    &&& !unlocked(pre, PageBand::NonSecure) ==> !unlocked(post, PageBand::NonSecure)
    &&& options_locked(pre) ==> options_locked(post)
}

/// The register set of the other band, the lock of the option bytes and the option
/// error are unchanged.
pub open spec fn rest_kept(pre: FlashView, post: FlashView, band: PageBand) -> bool {
    &&& post.optwerr == pre.optwerr
    &&& post.ns.cr & NSCR_OPTLOCK == pre.ns.cr & NSCR_OPTLOCK
    &&& band == PageBand::Secure ==> post.ns == pre.ns
    &&& band == PageBand::NonSecure ==> post.sec == pre.sec
}

impl<A> Stm32FlashSeam<A> where A: FlashAccess {
    /// The controller behind the port.
    pub open spec fn flash(&self) -> FlashView {
        self.port().flash()
    }

    /// The calls of the update seam answered so far.
    pub closed spec fn answered(&self) -> Seq<SeamCall> {
        self.calls@
    }

    /// The calls of the boot seam answered so far.
    pub closed spec fn booted(&self) -> Seq<BootCall> {
        self.boots@
    }

    /// The port.
    pub closed spec fn port(&self) -> A {
        self.access
    }

    /// Builds the driver over a register-access port.
    pub fn new(access: A) -> (r: Stm32FlashSeam<A>)
        ensures
            r.port() == access,
            r.flash() == access.flash(),
            r.answered() == Seq::<SeamCall>::empty(),
            r.booted() == Seq::<BootCall>::empty(),
    {
        Stm32FlashSeam { access, calls: Ghost(Seq::empty()), boots: Ghost(Seq::empty()) }
    }

    /// Borrows the port.
    pub fn access(&self) -> (r: &A)
        ensures
            *r == self.port(),
            r.flash() == self.flash(),
    {
        &self.access
    }

    /// Borrows the port mutably.
    pub fn access_mut(&mut self) -> (r: &mut A)
        ensures
            *r == old(self).port(),
            r.flash() == old(self).flash(),
            final(self).port() == *final(r),
            final(self).flash() == final(r).flash(),
            final(self).answered() == old(self).answered(),
            final(self).booted() == old(self).booted(),
    {
        &mut self.access
    }

    /// Polls a status register until the controller is ready, bounded.
    fn wait_ready_on(&mut self, sr: u32, Ghost(band): Ghost<PageBand>) -> (r: Result<
        (),
        FlashError,
    >)
        requires
            sr == sr_of(band),
            old(self).access.flash().wf(),
        ensures
            final(self).calls == old(self).calls && final(self).boots == old(self).boots,
            final(self).access.flash().wf(),
            final(self).access.flash() == old(self).access.flash().with_busy(
                final(self).access.flash().busy,
            ),
            old(self).access.nominal() ==> final(self).access.nominal(),
            r is Ok <==> old(self).access.flash().busy < BSY_POLL_LIMIT,
            match r {
                Ok(()) => final(self).access.flash().busy == 0,
                Err(e) => e == FlashError::Hardware,
            },
    {
        let ghost pre = self.access.flash();
        let mut spins: u32 = 0;
        loop
            invariant
                sr == sr_of(band),
                spins < BSY_POLL_LIMIT,
                spins <= pre.busy,
                pre == old(self).access.flash(),
                self.calls == old(self).calls && self.boots == old(self).boots,
                self.access.flash().wf(),
                self.access.flash() == pre.with_busy((pre.busy - spins) as nat),
                old(self).access.nominal() ==> self.access.nominal(),
            decreases BSY_POLL_LIMIT - spins,
        {
            let status: u32 = self.access.read32(sr);
            if status & SR_WAIT == 0 {
                return Ok(());
            }
            spins += 1;
            if spins >= BSY_POLL_LIMIT {
                return Err(FlashError::Hardware);
            }
        }
    }

    /// Clears every program and erase error flag of a status register.
    fn clear_errors_on(&mut self, sr: u32, Ghost(band): Ghost<PageBand>)
        requires
            sr == sr_of(band),
            old(self).access.flash().wf(),
        ensures
            final(self).calls == old(self).calls && final(self).boots == old(self).boots,
            final(self).access.flash().wf(),
            final(self).access.flash() == old(self).access.flash().with_port(
                band,
                (Port { failed: false, ..old(self).access.flash().port(band) }),
            ),
            old(self).access.nominal() ==> final(self).access.nominal(),
    {
        proof {
            lemma_status_masks();
        }
        self.access.write32(sr, SR_ALL_ERRORS);
    }

    /// Whether a status register shows an error. Clears the end-of-operation flag and
    /// the error flags, so that none leaks into the next operation.
    fn check_eop_then_clear_errors_on(&mut self, sr: u32, Ghost(band): Ghost<PageBand>) -> (r: Result<
        (),
        FlashError,
    >)
        requires
            sr == sr_of(band),
            old(self).access.flash().wf(),
        ensures
            final(self).calls == old(self).calls && final(self).boots == old(self).boots,
            final(self).access.flash().wf(),
            final(self).access.flash() == old(self).access.flash().with_busy(
                final(self).access.flash().busy,
            ).with_port(band, Port { failed: false, ..old(self).access.flash().port(band) }),
            old(self).access.nominal() ==> final(self).access.nominal(),
            old(self).access.nominal() && old(self).access.flash().busy < BSY_POLL_LIMIT
                ==> final(self).access.flash().busy < BSY_POLL_LIMIT,
            r == (if old(self).access.flash().port(band).failed {
                Err::<(), FlashError>(FlashError::WriteFailed)
            } else {
                Ok(())
            }),
    {
        proof {
            lemma_status_masks();
        }
        let status: u32 = self.access.read32(sr);
        let r = if status & SR_ALL_ERRORS != 0 {
            Err(FlashError::WriteFailed)
        } else {
            Ok(())
        };
        self.access.write32(sr, SR_EOP | SR_ALL_ERRORS);
        r
    }

    /// Unlocks a control register with its key sequence, where it is locked.
    fn unlock_cr_on(&mut self, cr: u32, keyr: u32, Ghost(band): Ghost<PageBand>)
        requires
            cr == cr_of(band),
            keyr == keyr_of(band),
            settled(old(self).access.flash()),
        ensures
            final(self).calls == old(self).calls && final(self).boots == old(self).boots,
            settled(final(self).access.flash()),
            unlocked(final(self).access.flash(), band),
            rest_kept(old(self).access.flash(), final(self).access.flash(), band),
            final(self).access.flash() == old(self).access.flash().with_port(
                band,
                (Port {
                    cr: final(self).access.flash().port(band).cr,
                    ..old(self).access.flash().port(band)
                }),
            ),
            old(self).access.nominal() ==> final(self).access.nominal(),
    {
        proof {
            lemma_unlock_bits(self.access.flash().port(band).cr);
        }
        if self.access.read32(cr) & SECCR_LOCK == 0 {
            return ;
        }
        self.access.write32(keyr, FLASH_KEY1);
        self.access.write32(keyr, FLASH_KEY2);
    }

    /// Re-locks a control register.
    fn lock_cr_on(&mut self, cr: u32, Ghost(band): Ghost<PageBand>)
        requires
            cr == cr_of(band),
            settled(old(self).access.flash()),
            unlocked(old(self).access.flash(), band),
        ensures
            final(self).calls == old(self).calls && final(self).boots == old(self).boots,
            settled(final(self).access.flash()),
            !unlocked(final(self).access.flash(), band),
            rest_kept(old(self).access.flash(), final(self).access.flash(), band),
            final(self).access.flash() == old(self).access.flash().with_port(
                band,
                (Port {
                    cr: final(self).access.flash().port(band).cr,
                    ..old(self).access.flash().port(band)
                }),
            ),
            old(self).access.nominal() ==> final(self).access.nominal(),
    {
        proof {
            lemma_lock_bits(self.access.flash().port(band).cr, start_bits(band));
        }
        self.access.modify32(cr, 0, SECCR_LOCK);
    }

    /// Programs one quad-word at `addr` on the controller of its band. A short tail
    /// is padded with the erased value, which leaves those bytes as they are.
    fn program_quad_word(
        &mut self,
        band: PageBand,
        addr: u32,
        data: &[u8],
        Ghost(bank): Ghost<PhysBank>,
        Ghost(index): Ghost<int>,
    ) -> (r: Result<(), FlashError>)
        requires
            settled(old(self).access.flash()),
            unlocked(old(self).access.flash(), band),
            data@.len() <= QUAD_WORD_LEN,
            mpu_covers(addr as int, QUAD_WORD_LEN as int),
            addr % 4 == 0,
            quad_at(old(self).access.flash(), addr as int, band, bank, index),
        ensures
            final(self).calls == old(self).calls && final(self).boots == old(self).boots,
            settled(final(self).access.flash()),
            unlocked(final(self).access.flash(), band),
            quad_step(
                old(self).access.flash(),
                bank,
                index,
                data@,
                final(self).access.flash(),
                r,
            ),
            rest_kept(old(self).access.flash(), final(self).access.flash(), band),
            clean(old(self).access.flash()) ==> clean(final(self).access.flash()),
            stuck_answered(old(self).access.flash(), final(self).access.flash(), r),
            fault_answered(calm(old(self).access), r),
            calm(old(self).access) ==> calm(final(self).access),
            calm(old(self).access) && erased_range(
                old(self).access.flash().bank(bank),
                index,
                index + QUAD_WORD_LEN,
            ) ==> r is Ok,
    {
        let ghost pre = self.access.flash();
        let sr: u32 = band.sr();
        let cr: u32 = band.cr();
        match self.wait_ready_on(sr, Ghost(band)) {
            Ok(_) => {},
            Err(e) => return Err(e),
        }
        self.clear_errors_on(sr, Ghost(band));
        proof {
            lemma_program_bits(self.access.flash().port(band).cr, start_bits(band));
        }
        self.access.modify32(cr, 0, SECCR_PG);
        let mut buf: [u8; 16] = [ERASED_BYTE; 16];
        write_over(&mut buf, 0, data);
        let ghost armed = self.access.flash();
        let ghost before = pre.bank(bank);
        let mut w: u32 = 0;
        while w < QUAD_WORD_WORDS
            invariant
                w <= QUAD_WORD_WORDS,
                self.calls == old(self).calls && self.boots == old(self).boots,
                pre == old(self).access.flash(),
                before == pre.bank(bank),
                quad_at(pre, addr as int, band, bank, index),
                mpu_covers(addr as int, QUAD_WORD_LEN as int),
                addr % 4 == 0,
                armed.port(band).cr & SECCR_PG != 0,
                settled(armed),
                settled(self.access.flash()),
                self.access.flash().port(band) == (Port {
                    failed: self.access.flash().port(band).failed,
                    ..armed.port(band)
                }),
                rest_kept(armed, self.access.flash(), band),
                memory_kept(pre, armed),
                only_changed(pre, self.access.flash(), bank, index, index + QUAD_WORD_LEN),
                calm(old(self).access) ==> calm(self.access),
                calm(old(self).access) && erased_range(before, index, index + QUAD_WORD_LEN)
                    ==> !self.access.flash().port(band).failed,
                !self.access.flash().port(band).failed ==> {
                    &&& forall|k: int|
                        0 <= k < 4 * w ==> self.access.flash().bank(bank)[index + k]
                            == #[trigger] buf@[k]
                    &&& forall|k: int|
                        4 * w <= k < QUAD_WORD_LEN ==> self.access.flash().bank(bank)[index + k]
                            == #[trigger] before[index + k]
                    &&& forall|j: int|
                        0 <= j < w ==> le32(before, index + 4 * j) == ERASED_WORD || #[trigger] le32(
                            buf@,
                            4 * j,
                        ) == 0
                },
                index < IMAGE_REGION_OFFSET ==> {
                    &&& forall|j: int|
                        0 <= j < w ==> {
                            ||| #[trigger] self.access.flash().bank(bank).subrange(
                                index + 4 * j,
                                index + 4 * j + 4,
                            ) == before.subrange(index + 4 * j, index + 4 * j + 4)
                            ||| {
                                &&& self.access.flash().bank(bank).subrange(
                                    index + 4 * j,
                                    index + 4 * j + 4,
                                ) == buf@.subrange(4 * j, 4 * j + 4)
                                &&& le32(before, index + 4 * j) == ERASED_WORD || le32(buf@, 4 * j)
                                    == 0
                            }
                        }
                    &&& forall|k: int|
                        4 * w <= k < QUAD_WORD_LEN ==> self.access.flash().bank(bank)[index + k]
                            == #[trigger] before[index + k]
                },
            decreases QUAD_WORD_WORDS - w,
        {
            let ghost cur = self.access.flash();
            let at: u32 = 4 * w;
            let word: u32 = read_u32_le(&buf, at as usize);
            proof {
                lemma_word_roundtrip(buf@, at as int, word);
                lemma_erased_word(cur.bank(bank), index + at);
                lemma_quad_place(cur, addr as int, band, bank, index, at as int);
                if !cur.port(band).failed {
                    let now = cur.bank(bank);
                    assert(now[index + at] == before[index + (at as int)]);
                    assert(now[index + at + 1] == before[index + (at + 1)]);
                    assert(now[index + at + 2] == before[index + (at + 2)]);
                    assert(now[index + at + 3] == before[index + (at + 3)]);
                }
            }
            self.access.write32(addr + at, word);
            proof {
                let now = self.access.flash();
                assert(cur.resolve(addr + at) == Some(Place { band, bank, index: index + at }));
                if index < IMAGE_REGION_OFFSET {
                    lemma_quad_words(cur, now, before, buf@, bank, index, w as int);
                }
                if !now.port(band).failed {
                    assert(now.bank(bank) == overlay(cur.bank(bank), index + at, word_bytes(word)));
                    assert(buf@.subrange(at as int, at + 4) == word_bytes(word));
                    assert forall|k: int| 0 <= k < at + 4 implies now.bank(bank)[index + k]
                        == #[trigger] buf@[k] by {
                        if k >= at {
                            assert(word_bytes(word)[k - at] == buf@.subrange(at as int, at + 4)[k
                                - at]);
                        }
                    }
                    assert(le32(cur.bank(bank), index + at) == le32(before, index + at));
                }
            }
            w += 1;
        }
        let ghost done = self.access.flash();
        proof {
            lemma_quad_landed(before, done.bank(bank), buf@, data@, index, done.port(band).failed);
            if index < IMAGE_REGION_OFFSET {
                lemma_quad_partial(before, done.bank(bank), buf@, data@, index);
            }
            if !done.port(band).failed && data@.len() >= 4 {
                let first = 0int;
                assert(le32(before, index + 4 * first) == ERASED_WORD || le32(buf@, 4 * first) == 0);
                assert(le32(buf@, 0) == le32(data@, 0));
            }
            lemma_clear_bits(done.port(band).cr, start_bits(band), SECCR_PG);
        }
        match self.wait_ready_on(sr, Ghost(band)) {
            Ok(_) => {},
            Err(e) => {
                // Nothing sticks: the flags and the program bit are cleared here too.
                self.clear_errors_on(sr, Ghost(band));
                self.access.modify32(cr, SECCR_PG, 0);
                return Err(e);
            },
        }
        let r = self.check_eop_then_clear_errors_on(sr, Ghost(band));
        self.access.modify32(cr, SECCR_PG, 0);
        r
    }

    /// Erases one page of a physical bank on the controller of its band.
    fn erase_page(&mut self, bank: PhysBank, band: PageBand, page: u32) -> (r: Result<
        (),
        FlashError,
    >)
        requires
            settled(old(self).access.flash()),
            unlocked(old(self).access.flash(), band),
            page < PAGES_PER_BANK ==> band_of_page(page as int) == band,
        ensures
            final(self).calls == old(self).calls && final(self).boots == old(self).boots,
            settled(final(self).access.flash()),
            unlocked(final(self).access.flash(), band),
            rest_kept(old(self).access.flash(), final(self).access.flash(), band),
            page >= PAGES_PER_BANK ==> r == Err::<(), FlashError>(FlashError::OutOfRange),
            clean(old(self).access.flash()) ==> clean(final(self).access.flash()),
            page < PAGES_PER_BANK ==> stuck_answered(
                old(self).access.flash(),
                final(self).access.flash(),
                r,
            ),
            page < PAGES_PER_BANK ==> fault_answered(calm(old(self).access), r),
            calm(old(self).access) ==> calm(final(self).access),
            calm(old(self).access) && page < PAGES_PER_BANK ==> r is Ok,
            match r {
                Ok(()) => {
                    &&& page < PAGES_PER_BANK
                    &&& memory_kept(
                        old(self).access.flash().with_bank(
                            bank,
                            with_page_erased(old(self).access.flash().bank(bank), page as int),
                        ),
                        final(self).access.flash(),
                    )
                },
                Err(_) => {
                    ||| memory_kept(old(self).access.flash(), final(self).access.flash())
                    ||| page < PAGES_PER_BANK && memory_kept(
                        old(self).access.flash().with_bank(
                            bank,
                            with_page_erased(old(self).access.flash().bank(bank), page as int),
                        ),
                        final(self).access.flash(),
                    )
                },
            },
    {
        if page >= PAGES_PER_BANK {
            return Err(FlashError::OutOfRange);
        }
        let sr: u32 = band.sr();
        let cr: u32 = band.cr();
        match self.wait_ready_on(sr, Ghost(band)) {
            Ok(_) => {},
            Err(e) => return Err(e),
        }
        self.clear_errors_on(sr, Ghost(band));
        let bker: u32 = bank.bker();
        let pnb: u32 = (page << SECCR_PNB_SHIFT) & SECCR_PNB_MASK;
        proof {
            lemma_erase_bits(self.access.flash().port(band).cr, start_bits(band), bker, page);
        }
        // Select the erase with every stale selection cleared, then start it.
        self.access.modify32(
            cr,
            SECCR_PER | SECCR_PG | SECCR_PNB_MASK | SECCR_BKER | SECCR_MER1 | SECCR_MER2 | SECCR_BWR
                | SECCR_EOPIE | SECCR_ERRIE | SECCR_STRT,
            SECCR_PER | bker | pnb,
        );
        self.access.modify32(cr, 0, SECCR_STRT);
        proof {
            lemma_clear_bits(self.access.flash().port(band).cr, start_bits(band), SECCR_PER);
        }
        match self.wait_ready_on(sr, Ghost(band)) {
            Ok(_) => {},
            Err(e) => {
                self.clear_errors_on(sr, Ghost(band));
                self.access.modify32(cr, SECCR_PER, 0);
                return Err(e);
            },
        }
        let r = self.check_eop_then_clear_errors_on(sr, Ghost(band));
        self.access.modify32(cr, SECCR_PER, 0);
        r
    }

    /// Erases the pages `[first, last)` of a bank, all of one band. A failure stops
    /// at its page, and leaves the pages before it erased.
    fn erase_band(&mut self, bank: PhysBank, band: PageBand, first: u32, last: u32) -> (r: Result<
        (),
        FlashError,
    >)
        requires
            settled(old(self).access.flash()),
            first <= last <= PAGES_PER_BANK,
            in_band(band, first * PAGE_SIZE, last * PAGE_SIZE),
        ensures
            final(self).calls == old(self).calls && final(self).boots == old(self).boots,
            settled(final(self).access.flash()),
            only_changed(
                old(self).access.flash(),
                final(self).access.flash(),
                bank,
                first * PAGE_SIZE,
                last * PAGE_SIZE,
            ),
            r is Ok ==> erased_range(
                final(self).access.flash().bank(bank),
                first * PAGE_SIZE,
                last * PAGE_SIZE,
            ),
            relocked(old(self).access.flash(), final(self).access.flash(), band),
            clean(old(self).access.flash()) ==> clean(final(self).access.flash()),
            first < last ==> stuck_answered(
                old(self).access.flash(),
                final(self).access.flash(),
                r,
            ),
            fault_answered(calm(old(self).access), r),
            calm(old(self).access) ==> calm(final(self).access) && r is Ok,
    {
        let ghost pre = self.access.flash();
        self.unlock_cr_on(band.cr(), band.keyr(), Ghost(band));
        let mut r: Result<(), FlashError> = Ok(());
        let mut page: u32 = first;
        while page < last && r.is_ok()
            invariant
                first <= page <= last <= PAGES_PER_BANK,
                in_band(band, first * PAGE_SIZE, last * PAGE_SIZE),
                self.calls == old(self).calls && self.boots == old(self).boots,
                pre == old(self).access.flash(),
                pre.wf(),
                settled(self.access.flash()),
                unlocked(self.access.flash(), band),
                rest_kept(pre, self.access.flash(), band),
                only_changed(
                    pre,
                    self.access.flash(),
                    bank,
                    first * PAGE_SIZE,
                    last * PAGE_SIZE,
                ),
                r is Ok ==> erased_range(
                    self.access.flash().bank(bank),
                    first * PAGE_SIZE,
                    page * PAGE_SIZE,
                ),
                self.access.flash().optwerr == pre.optwerr,
                clean(pre) ==> clean(self.access.flash()),
                if page == first && r is Ok {
                    self.access.flash().busy == pre.busy && memory_kept(pre, self.access.flash())
                } else {
                    stuck_answered(pre, self.access.flash(), r)
                },
                fault_answered(calm(old(self).access), r),
                calm(old(self).access) ==> calm(self.access) && r is Ok,
            decreases
                    last - page,
                    if r is Ok {
                        1int
                    } else {
                        0
                    },
        {
            let ghost cur = self.access.flash();
            r = self.erase_page(bank, band, page);
            proof {
                lemma_page_erased(pre, cur, self.access.flash(), bank, first, page, last);
            }
            if r.is_ok() {
                page += 1;
            }
        }
        let ghost done = self.access.flash();
        self.lock_cr_on(band.cr(), Ghost(band));
        assert(self.access.flash().bank(bank) == done.bank(bank));
        r
    }

    /// Programs `data` from `base` on, quad-word by quad-word, on the controller of
    /// its band.
    fn program_run(
        &mut self,
        band: PageBand,
        base: u32,
        data: &[u8],
        Ghost(bank): Ghost<PhysBank>,
        Ghost(index): Ghost<int>,
    ) -> (r: Result<(), FlashError>)
        requires
            settled(old(self).access.flash()),
            data@.len() <= PAGE_SIZE,
            run_at(
                old(self).access.flash(),
                base as int,
                band,
                bank,
                index,
                quads_len(data@.len() as int),
            ),
        ensures
            final(self).calls == old(self).calls && final(self).boots == old(self).boots,
            settled(final(self).access.flash()),
            only_changed(
                old(self).access.flash(),
                final(self).access.flash(),
                bank,
                index,
                index + quads_len(data@.len() as int),
            ),
            r is Ok ==> final(self).access.flash().bank(bank) == overlay(
                old(self).access.flash().bank(bank),
                index,
                data@,
            ),
            relocked(old(self).access.flash(), final(self).access.flash(), band),
            clean(old(self).access.flash()) ==> clean(final(self).access.flash()),
            data@.len() > 0 ==> stuck_answered(
                old(self).access.flash(),
                final(self).access.flash(),
                r,
            ),
            fault_answered(calm(old(self).access), r),
            calm(old(self).access) ==> calm(final(self).access),
            calm(old(self).access) && erased_range(
                old(self).access.flash().bank(bank),
                index,
                index + quads_len(data@.len() as int),
            ) ==> r is Ok,
    {
        let ghost pre = self.access.flash();
        let ghost before = pre.bank(bank);
        let ghost end = index + quads_len(data@.len() as int);
        self.unlock_cr_on(band.cr(), band.keyr(), Ghost(band));
        let mut r: Result<(), FlashError> = Ok(());
        let mut done: usize = 0;
        assert(overlay(before, index, data@.take(0)) =~= before);
        while done < data.len() && r.is_ok()
            invariant
                done <= data@.len() <= PAGE_SIZE,
                done % 16 == 0 || done == data@.len(),
                self.calls == old(self).calls && self.boots == old(self).boots,
                pre == old(self).access.flash(),
                before == pre.bank(bank),
                end == index + quads_len(data@.len() as int),
                run_at(pre, base as int, band, bank, index, quads_len(data@.len() as int)),
                settled(self.access.flash()),
                unlocked(self.access.flash(), band),
                rest_kept(pre, self.access.flash(), band),
                only_changed(pre, self.access.flash(), bank, index, end),
                self.access.flash().optwerr == pre.optwerr,
                r is Ok ==> self.access.flash().bank(bank) == overlay(
                    before,
                    index,
                    data@.take(done as int),
                ),
                clean(pre) ==> clean(self.access.flash()),
                if done == 0 && r is Ok {
                    self.access.flash().busy == pre.busy && memory_kept(pre, self.access.flash())
                } else {
                    stuck_answered(pre, self.access.flash(), r)
                },
                fault_answered(calm(old(self).access), r),
                calm(old(self).access) ==> calm(self.access),
                calm(old(self).access) && erased_range(before, index, end) ==> r is Ok,
            decreases
                    data@.len() - done,
                    if r is Ok {
                        1int
                    } else {
                        0
                    },
        {
            let ghost cur = self.access.flash();
            let left: usize = data.len() - done;
            let take: usize = if left < 16 {
                left
            } else {
                16
            };
            let chunk: &[u8] = slice_subrange(data, done, done + take);
            proof {
                lemma_run_quad(pre, cur, base as int, band, bank, index, data@.len() as int, done as int);
            }
            r = self.program_quad_word(
                band,
                base + done as u32,
                chunk,
                Ghost(bank),
                Ghost(index + done),
            );
            proof {
                let now = self.access.flash();
                assert(only_changed(pre, now, bank, index, end)) by {
                    assert forall|i: int|
                        0 <= i < before.len() && !(index <= i < end) implies #[trigger] now.bank(
                        bank,
                    )[i] == before[i] by {
                        assert(cur.bank(bank)[i] == before[i]);
                    }
                }
                if r is Ok {
                    assert(now.bank(bank) =~= overlay(before, index, data@.take(done + take)));
                }
            }
            if r.is_ok() {
                done += take;
            }
        }
        let ghost last = self.access.flash();
        self.lock_cr_on(band.cr(), Ghost(band));
        proof {
            assert(self.access.flash().bank(bank) == last.bank(bank));
            assert(data@.take(data@.len() as int) =~= data@);
        }
        r
    }

    /// Fails unless the part is in the dual-bank secure posture, without which the
    /// geometry does not hold.
    fn require_dualbank_secure(&mut self) -> (r: Result<(), FlashError>)
        requires
            old(self).access.flash().wf(),
        ensures
            final(self).calls == old(self).calls && final(self).boots == old(self).boots,
            final(self).access.flash() == old(self).access.flash(),
            r == (if sane_posture(old(self).access.flash().optr) {
                Ok::<(), FlashError>(())
            } else {
                Err(FlashError::Hardware)
            }),
            old(self).access.nominal() ==> final(self).access.nominal(),
    {
        let optr: u32 = self.access.read32(FLASH_OPTR);
        if optr & OPTR_DUALBANK == 0 || optr & OPTR_TZEN == 0 {
            return Err(FlashError::Hardware);
        }
        Ok(())
    }

    /// The live bank-swap bit, never cached across a reset.
    fn swap_bank(&mut self) -> (r: bool)
        requires
            old(self).access.flash().wf(),
        ensures
            final(self).calls == old(self).calls && final(self).boots == old(self).boots,
            final(self).access.flash() == old(self).access.flash(),
            r == old(self).access.flash().swap(),
            old(self).access.nominal() ==> final(self).access.nominal(),
    {
        swap_bank_set(self.access.read32(FLASH_OPTR))
    }

    /// The secure alias at which a physical bank is mapped now.
    fn phys_base(&mut self, bank: PhysBank) -> (r: u32)
        requires
            old(self).access.flash().wf(),
        ensures
            final(self).calls == old(self).calls && final(self).boots == old(self).boots,
            final(self).access.flash() == old(self).access.flash(),
            r == mapped_at(bank, old(self).access.flash().swap()),
            old(self).access.nominal() ==> final(self).access.nominal(),
    {
        bank.mapped_base(self.swap_bank())
    }

    /// The inactive physical bank now.
    fn inactive_phys(&mut self) -> (r: PhysBank)
        requires
            old(self).access.flash().wf(),
        ensures
            final(self).calls == old(self).calls && final(self).boots == old(self).boots,
            final(self).access.flash() == old(self).access.flash(),
            r == inactive_bank_of(old(self).access.flash().swap()),
            old(self).access.nominal() ==> final(self).access.nominal(),
    {
        inactive_phys_bank(self.swap_bank())
    }

    /// The live address of a metadata record in physical Bank 1.
    fn meta_addr(&mut self, offset: u32) -> (r: u32)
        requires
            old(self).access.flash().wf(),
            offset < META_END,
        ensures
            final(self).calls == old(self).calls && final(self).boots == old(self).boots,
            final(self).access.flash() == old(self).access.flash(),
            r == mapped_at(PhysBank::One, old(self).access.flash().swap()) + offset,
            old(self).access.flash().resolve(r as int) == Some(
                (Place { band: PageBand::Secure, bank: PhysBank::One, index: offset as int }),
            ),
            old(self).access.nominal() ==> final(self).access.nominal(),
    {
        let base: u32 = self.phys_base(PhysBank::One);
        base + offset
    }

    /// The word of a metadata record.
    fn read_meta_word(&mut self, offset: u32) -> (r: u32)
        requires
            old(self).access.flash().wf(),
            offset + 4 <= META_END,
            offset % 4 == 0,
        ensures
            final(self).calls == old(self).calls && final(self).boots == old(self).boots,
            final(self).access.flash() == old(self).access.flash(),
            r == le32(old(self).access.flash().bank1, offset as int),
            old(self).access.nominal() ==> final(self).access.nominal(),
    {
        let addr: u32 = self.meta_addr(offset);
        self.access.read32(addr)
    }

    /// The value that a slot of the anti-rollback log holds, if it holds one.
    fn nvcnt_slot(&mut self, slot: u32) -> (r: Option<u32>)
        requires
            old(self).access.flash().wf(),
            slot < META_LOG_SLOTS,
        ensures
            final(self).calls == old(self).calls && final(self).boots == old(self).boots,
            final(self).access.flash() == old(self).access.flash(),
            match r {
                Some(value) => counter_slot(old(self).access.flash().bank1, slot as int) == Some(
                    value as int,
                ),
                None => counter_slot(old(self).access.flash().bank1, slot as int) is None,
            },
            old(self).access.nominal() ==> final(self).access.nominal(),
    {
        let at: u32 = META_NVCNT_OFFSET + slot * QUAD_WORD_LEN;
        let word: u32 = self.read_meta_word(at);
        if word != ERASED_WORD {
            return Some(word);
        }
        if self.read_meta_word(at + 4) == NVCNT_TOP_MARK {
            Some(u32::MAX)
        } else {
            None
        }
    }

    /// The largest value of the anti-rollback log. A torn slot never reads below a
    /// slot programmed before.
    fn nvcnt_max(&mut self) -> (r: u32)
        requires
            old(self).access.flash().wf(),
        ensures
            final(self).calls == old(self).calls && final(self).boots == old(self).boots,
            final(self).access.flash() == old(self).access.flash(),
            r == stored_nvcnt(old(self).access.flash().bank1),
            r == counter_max(old(self).access.flash().bank1, META_LOG_SLOTS as int),
            old(self).access.nominal() ==> final(self).access.nominal(),
    {
        let ghost bank1 = self.access.flash().bank1;
        let mut max: u32 = 0;
        let mut slot: u32 = 0;
        while slot < META_LOG_SLOTS
            invariant
                slot <= META_LOG_SLOTS,
                self.calls == old(self).calls && self.boots == old(self).boots,
                self.access.flash() == old(self).access.flash(),
                self.access.flash().wf(),
                bank1 == self.access.flash().bank1,
                max == counter_max(bank1, slot as int),
                old(self).access.nominal() ==> self.access.nominal(),
            decreases META_LOG_SLOTS - slot,
        {
            if let Some(value) = self.nvcnt_slot(slot) {
                if value > max {
                    max = value;
                }
            }
            slot += 1;
        }
        max
    }

    /// The first erased slot of the anti-rollback log, if there is one.
    fn nvcnt_free_slot(&mut self) -> (r: Option<u32>)
        requires
            old(self).access.flash().wf(),
        ensures
            final(self).calls == old(self).calls && final(self).boots == old(self).boots,
            final(self).access.flash() == old(self).access.flash(),
            old(self).access.nominal() ==> final(self).access.nominal(),
            match r {
                Some(slot) => slot < META_LOG_SLOTS && slot_free(
                    old(self).access.flash().bank1,
                    slot as int,
                ),
                None => !counter_room(old(self).access.flash().bank1),
            },
    {
        let ghost bank1 = self.access.flash().bank1;
        let mut slot: u32 = 0;
        while slot < META_LOG_SLOTS
            invariant
                slot <= META_LOG_SLOTS,
                self.calls == old(self).calls && self.boots == old(self).boots,
                self.access.flash() == old(self).access.flash(),
                self.access.flash().wf(),
                bank1 == self.access.flash().bank1,
                forall|s: int| 0 <= s < slot ==> !(#[trigger] slot_free(bank1, s)),
                old(self).access.nominal() ==> self.access.nominal(),
            decreases META_LOG_SLOTS - slot,
        {
            let at: u32 = META_NVCNT_OFFSET + slot * QUAD_WORD_LEN;
            let word: u32 = self.read_meta_word(at);
            let mark: u32 = self.read_meta_word(at + 4);
            let third: u32 = self.read_meta_word(at + 8);
            let fourth: u32 = self.read_meta_word(at + 12);
            proof {
                lemma_slot_free(bank1, slot as int);
            }
            if word == ERASED_WORD && mark == ERASED_WORD && third == ERASED_WORD && fourth
                == ERASED_WORD {
                return Some(slot);
            }
            slot += 1;
        }
        None
    }

    /// The number of programmed boot-count ticks.
    fn boot_count_slots(&mut self) -> (r: u32)
        requires
            old(self).access.flash().wf(),
        ensures
            final(self).calls == old(self).calls && final(self).boots == old(self).boots,
            final(self).access.flash() == old(self).access.flash(),
            r == stored_boot_count(old(self).access.flash().bank1),
            r == log_count(
                old(self).access.flash().bank1,
                META_BOOT_OFFSET as int,
                META_LOG_SLOTS as int,
            ),
            r <= META_LOG_SLOTS,
            old(self).access.nominal() ==> final(self).access.nominal(),
    {
        let ghost bank1 = self.access.flash().bank1;
        let mut count: u32 = 0;
        let mut slot: u32 = 0;
        while slot < META_LOG_SLOTS
            invariant
                count <= slot <= META_LOG_SLOTS,
                self.calls == old(self).calls && self.boots == old(self).boots,
                self.access.flash() == old(self).access.flash(),
                self.access.flash().wf(),
                bank1 == self.access.flash().bank1,
                count == log_count(bank1, META_BOOT_OFFSET as int, slot as int),
                old(self).access.nominal() ==> self.access.nominal(),
            decreases META_LOG_SLOTS - slot,
        {
            let word: u32 = self.read_meta_word(META_BOOT_OFFSET + slot * QUAD_WORD_LEN);
            assert(word == slot_word(bank1, META_BOOT_OFFSET as int, slot as int));
            if word != ERASED_WORD {
                count += 1;
            }
            slot += 1;
        }
        count
    }

    /// Programs one word of metadata, padded to a quad-word, on the secure
    /// controller.
    fn program_record(&mut self, addr: u32, value: u32, Ghost(index): Ghost<int>) -> (r: Result<
        (),
        FlashError,
    >)
        requires
            settled(old(self).access.flash()),
            old(self).access.flash().resolve(addr as int) == Some(
                (Place { band: PageBand::Secure, bank: PhysBank::One, index }),
            ),
            index % QUAD_WORD_LEN as int == 0,
            index + QUAD_WORD_LEN <= META_END,
        ensures
            final(self).calls == old(self).calls && final(self).boots == old(self).boots,
            settled(final(self).access.flash()),
            record_step(
                old(self).access.flash(),
                index,
                value,
                final(self).access.flash(),
                r,
            ),
            relocked(old(self).access.flash(), final(self).access.flash(), PageBand::Secure),
            clean(old(self).access.flash()) ==> clean(final(self).access.flash()),
            stuck_answered(old(self).access.flash(), final(self).access.flash(), r),
            fault_answered(calm(old(self).access), r),
            calm(old(self).access) ==> calm(final(self).access),
            calm(old(self).access) && erased_range(
                old(self).access.flash().bank1,
                index,
                index + QUAD_WORD_LEN,
            ) ==> r is Ok,
    {
        let ghost pre = self.access.flash();
        self.unlock_cr_on(FLASH_SECCR, FLASH_SECKEYR, Ghost(PageBand::Secure));
        let bytes: [u8; 4] = to_le_bytes(value);
        let r = self.program_quad_word(
            PageBand::Secure,
            addr,
            &bytes,
            Ghost(PhysBank::One),
            Ghost(index),
        );
        let ghost mid = self.access.flash();
        self.lock_cr_on(FLASH_SECCR, Ghost(PageBand::Secure));
        proof {
            lemma_record_step(pre.bank1, mid.bank1, index, value, bytes@);
        }
        r
    }

    /// Marks a counter slot as holding the all-ones value: programs its second word.
    fn program_top_mark(&mut self, addr: u32, Ghost(index): Ghost<int>) -> (r: Result<
        (),
        FlashError,
    >)
        requires
            settled(old(self).access.flash()),
            old(self).access.flash().resolve(addr as int) == Some(
                (Place { band: PageBand::Secure, bank: PhysBank::One, index }),
            ),
            index % QUAD_WORD_LEN as int == 0,
            index + QUAD_WORD_LEN <= META_END,
            le32(old(self).access.flash().bank1, index) == ERASED_WORD,
        ensures
            final(self).calls == old(self).calls && final(self).boots == old(self).boots,
            settled(final(self).access.flash()),
            only_changed(
                old(self).access.flash(),
                final(self).access.flash(),
                PhysBank::One,
                index + 4,
                index + 8,
            ),
            ({
                let was = le32(old(self).access.flash().bank1, index + 4);
                let is = le32(final(self).access.flash().bank1, index + 4);
                &&& is == was || is == NVCNT_TOP_MARK
                &&& r is Ok ==> is == NVCNT_TOP_MARK
            }),
            relocked(old(self).access.flash(), final(self).access.flash(), PageBand::Secure),
            clean(old(self).access.flash()) ==> clean(final(self).access.flash()),
            stuck_answered(old(self).access.flash(), final(self).access.flash(), r),
            fault_answered(calm(old(self).access), r),
            calm(old(self).access) ==> calm(final(self).access),
            calm(old(self).access) && erased_range(
                old(self).access.flash().bank1,
                index,
                index + QUAD_WORD_LEN,
            ) ==> r is Ok,
    {
        let ghost pre = self.access.flash();
        self.unlock_cr_on(FLASH_SECCR, FLASH_SECKEYR, Ghost(PageBand::Secure));
        let bytes: [u8; 8] = [0xFF, 0xFF, 0xFF, 0xFF, 0, 0, 0, 0];
        let r = self.program_quad_word(
            PageBand::Secure,
            addr,
            &bytes,
            Ghost(PhysBank::One),
            Ghost(index),
        );
        let ghost mid = self.access.flash();
        self.lock_cr_on(FLASH_SECCR, Ghost(PageBand::Secure));
        proof {
            lemma_top_mark(pre.bank1, mid.bank1, index, bytes@);
        }
        r
    }

    /// Rewrites both records of metadata page 1: an erase of the page, then the
    /// program of each record that is not the erased value.
    fn rewrite_mutable_records(&mut self, pending_value: u32, outcome_value: u32) -> (r: Result<
        (),
        FlashError,
    >)
        requires
            settled(old(self).access.flash()),
        ensures
            final(self).calls == old(self).calls && final(self).boots == old(self).boots,
            settled(final(self).access.flash()),
            only_changed(
                old(self).access.flash(),
                final(self).access.flash(),
                PhysBank::One,
                PAGE_SIZE as int,
                META_END as int,
            ),
            ({
                let a = old(self).access.flash().bank1;
                let b = final(self).access.flash().bank1;
                &&& stored_pending(b) == stored_pending(a) || stored_pending(b) == pending_of(
                    pending_value as int,
                ) || stored_pending(b) == PendingFlag::Clear
                &&& stored_outcome(b) == stored_outcome(a) || stored_outcome(b) == outcome_of(
                    outcome_value as int,
                ) || stored_outcome(b) == UpdateOutcome::Clear
                &&& r is Ok ==> stored_pending(b) == pending_of(pending_value as int)
                &&& r is Ok ==> stored_outcome(b) == outcome_of(outcome_value as int)
            }),
            !sane_posture(old(self).access.flash().optr) ==> r == Err::<(), FlashError>(
                FlashError::Hardware,
            ) && final(self).access.flash() == old(self).access.flash(),
            final(self).access.flash().optwerr == old(self).access.flash().optwerr,
            sane_posture(old(self).access.flash().optr) ==> relocked(
                old(self).access.flash(),
                final(self).access.flash(),
                PageBand::Secure,
            ),
            clean(old(self).access.flash()) ==> clean(final(self).access.flash()),
            sane_posture(old(self).access.flash().optr) ==> stuck_answered(
                old(self).access.flash(),
                final(self).access.flash(),
                r,
            ),
            sane_posture(old(self).access.flash().optr) ==> fault_answered(calm(old(self).access), r),
            calm(old(self).access) ==> calm(final(self).access),
            calm(old(self).access) && sane_posture(old(self).access.flash().optr) ==> r is Ok,
    {
        let ghost pre = self.access.flash();
        match self.require_dualbank_secure() {
            Ok(_) => {},
            Err(e) => return Err(e),
        }
        self.unlock_cr_on(FLASH_SECCR, FLASH_SECKEYR, Ghost(PageBand::Secure));
        let erased = self.erase_page(PhysBank::One, PageBand::Secure, META_MUTABLE_PAGE);
        self.lock_cr_on(FLASH_SECCR, Ghost(PageBand::Secure));
        proof {
            let b = self.access.flash().bank1;
            if b != pre.bank1 {
                lemma_erased_word(b, META_PENDING_OFFSET as int);
                lemma_erased_word(b, META_OUTCOME_OFFSET as int);
            }
        }
        match erased {
            Ok(_) => {},
            Err(e) => return Err(e),
        }
        let ghost blank = self.access.flash();
        let ghost outcome_at = META_OUTCOME_OFFSET as int;
        let ghost pending_at = META_PENDING_OFFSET as int;
        if pending_value != PENDING_NONE {
            let addr: u32 = self.meta_addr(META_PENDING_OFFSET);
            match self.program_record(addr, pending_value, Ghost(META_PENDING_OFFSET as int)) {
                Ok(_) => {},
                Err(e) => {
                    proof {
                        lemma_word_kept(blank, self.access.flash(), pending_at, outcome_at);
                    }
                    return Err(e);
                },
            }
            proof {
                lemma_word_kept(blank, self.access.flash(), pending_at, outcome_at);
            }
        }
        let ghost named = self.access.flash();
        if outcome_value != OUTCOME_NONE {
            let addr: u32 = self.meta_addr(META_OUTCOME_OFFSET);
            match self.program_record(addr, outcome_value, Ghost(META_OUTCOME_OFFSET as int)) {
                Ok(_) => {},
                Err(e) => {
                    proof {
                        lemma_word_kept(named, self.access.flash(), outcome_at, pending_at);
                    }
                    return Err(e);
                },
            }
            proof {
                lemma_word_kept(named, self.access.flash(), outcome_at, pending_at);
            }
        }
        Ok(())
    }

    /// Unlocks the option bytes with their key sequence.
    fn unlock_options(&mut self)
        requires
            settled(old(self).access.flash()),
            unlocked(old(self).access.flash(), PageBand::NonSecure),
        ensures
            final(self).calls == old(self).calls && final(self).boots == old(self).boots,
            settled(final(self).access.flash()),
            unlocked(final(self).access.flash(), PageBand::NonSecure),
            final(self).access.flash().ns.cr & NSCR_OPTLOCK == 0,
            final(self).access.flash() == (FlashView {
                ns: (Port {
                    cr: final(self).access.flash().ns.cr,
                    ..old(self).access.flash().ns
                }),
                ..old(self).access.flash()
            }),
            old(self).access.nominal() ==> final(self).access.nominal(),
    {
        proof {
            lemma_option_bits(self.access.flash().ns.cr);
        }
        self.access.write32(FLASH_OPTKEYR, FLASH_OPTKEY1);
        self.access.write32(FLASH_OPTKEYR, FLASH_OPTKEY2);
    }

    /// Re-locks the option bytes, then the non-secure control register.
    fn lock_options_and_ns_cr(&mut self)
        requires
            settled(old(self).access.flash()),
            unlocked(old(self).access.flash(), PageBand::NonSecure),
        ensures
            final(self).calls == old(self).calls && final(self).boots == old(self).boots,
            settled(final(self).access.flash()),
            !unlocked(final(self).access.flash(), PageBand::NonSecure),
            final(self).access.flash().ns.cr & NSCR_OPTLOCK != 0,
            final(self).access.flash() == (FlashView {
                ns: (Port {
                    cr: final(self).access.flash().ns.cr,
                    ..old(self).access.flash().ns
                }),
                ..old(self).access.flash()
            }),
            old(self).access.nominal() ==> final(self).access.nominal(),
    {
        proof {
            lemma_option_bits(self.access.flash().ns.cr);
        }
        self.access.modify32(FLASH_NSCR, 0, NSCR_OPTLOCK);
        proof {
            lemma_option_bits(self.access.flash().ns.cr);
        }
        self.access.modify32(FLASH_NSCR, 0, NSCR_LOCK);
    }

    /// Arms the bank swap: programs the swap bit into the option bytes, then
    /// launches the option load, which resets the part.
    fn arm_swap(&mut self, want_bank2: bool) -> (r: Result<(), FlashError>)
        requires
            settled(old(self).access.flash()),
        ensures
            final(self).calls == old(self).calls && final(self).boots == old(self).boots,
            settled(final(self).access.flash()),
            ({
                let pre = old(self).access.flash();
                let post = final(self).access.flash();
                &&& post.bank1 == pre.bank1 && post.bank2 == pre.bank2
                &&& post.optr == pre.optr
                &&& post.secwm1 == pre.secwm1 && post.secwm2 == pre.secwm2
                &&& match r {
                    Ok(()) => post.staged == Some(want_bank2) && post.launched,
                    Err(e) => {
                        &&& e == FlashError::Hardware
                        &&& post.staged == pre.staged || post.staged == Some(want_bank2)
                        &&& post.launched == pre.launched
                    },
                }
                &&& locks_kept(pre, post)
                &&& closed_or_untouched(pre, post)
                &&& pre.busy >= BSY_POLL_LIMIT ==> r is Err && post == pre.with_busy(post.busy)
                &&& r is Ok ==> closed(post)
                &&& post.sec == pre.sec
                &&& clean(pre) ==> clean(post)
                &&& calm(old(self).access) && !pre.optwerr ==> r is Ok && calm(final(self).access)
                    && !post.optwerr
            }),
    {
        let ghost pre = self.access.flash();
        match self.wait_ready_on(FLASH_NSSR, Ghost(PageBand::NonSecure)) {
            Ok(_) => {},
            Err(e) => return Err(e),
        }
        self.unlock_cr_on(FLASH_NSCR, FLASH_NSKEYR, Ghost(PageBand::NonSecure));
        self.unlock_options();
        proof {
            lemma_swap_bit(self.access.flash().optr);
        }
        if want_bank2 {
            self.access.modify32(FLASH_OPTR, 0, OPTR_SWAP_BANK);
        } else {
            self.access.modify32(FLASH_OPTR, OPTR_SWAP_BANK, 0);
        }
        proof {
            lemma_option_bits(self.access.flash().ns.cr);
        }
        self.access.modify32(FLASH_NSCR, 0, NSCR_OPTSTRT);
        match self.wait_ready_on(FLASH_NSSR, Ghost(PageBand::NonSecure)) {
            Ok(_) => {},
            Err(e) => {
                // Never left open: the options and the register lock again.
                proof {
                    lemma_status_masks();
                }
                self.access.write32(FLASH_NSSR, SR_OPTWERR);
                self.lock_options_and_ns_cr();
                return Err(e);
            },
        }
        let status: u32 = self.access.read32(FLASH_NSSR);
        proof {
            lemma_status_masks();
            lemma_option_bits(self.access.flash().ns.cr);
        }
        if status & SR_OPTWERR != 0 {
            // Rejected: clear the flag and launch nothing.
            self.access.write32(FLASH_NSSR, SR_OPTWERR);
            self.lock_options_and_ns_cr();
            return Err(FlashError::Hardware);
        }
        self.access.modify32(FLASH_NSCR, 0, NSCR_OBL_LAUNCH);
        self.lock_options_and_ns_cr();
        Ok(())
    }
}

/// A metadata word programmed at `index`, answered with `r`.
pub open spec fn record_step(
    pre: FlashView,
    index: int,
    value: u32,
    post: FlashView,
    r: Result<(), FlashError>,
) -> bool {
    &&& only_changed(pre, post, PhysBank::One, index, index + 4)
    &&& le32(post.bank1, index) == le32(pre.bank1, index) || le32(post.bank1, index) == value
    &&& r is Ok ==> le32(post.bank1, index) == value
    &&& r is Ok ==> le32(pre.bank1, index) == ERASED_WORD || value == 0
}

/// A metadata word beside the one that changed is kept, and so is the erased rest of
/// its quad-word.
proof fn lemma_word_kept(pre: FlashView, post: FlashView, changed: int, at: int)
    requires
        pre.wf(),
        0 <= at,
        at + QUAD_WORD_LEN <= BANK_SIZE,
        only_changed(pre, post, PhysBank::One, changed, changed + 4),
        at + QUAD_WORD_LEN <= changed || changed + 4 <= at,
    ensures
        le32(post.bank1, at) == le32(pre.bank1, at),
        erased_range(pre.bank1, at, at + QUAD_WORD_LEN) ==> erased_range(
            post.bank1,
            at,
            at + QUAD_WORD_LEN,
        ),
{
    let one = PhysBank::One;
    assert(post.bank(one)[at] == pre.bank(one)[at]);
    assert(post.bank(one)[at + 1] == pre.bank(one)[at + 1]);
    assert(post.bank(one)[at + 2] == pre.bank(one)[at + 2]);
    assert(post.bank(one)[at + 3] == pre.bank(one)[at + 3]);
    assert forall|i: int|
        at <= i < at + QUAD_WORD_LEN && pre.bank1[i] == ERASED_BYTE implies #[trigger] post.bank1[i]
        == ERASED_BYTE by {
        assert(post.bank(one)[i] == pre.bank(one)[i]);
    }
}

/// A record program touches its one word.
proof fn lemma_record_step(a: Seq<u8>, b: Seq<u8>, index: int, value: u32, bytes: Seq<u8>)
    requires
        0 <= index,
        index + QUAD_WORD_LEN <= a.len(),
        a.len() == b.len(),
        bytes.len() == 4,
        le32(bytes, 0) == value,
        words_kept_or_landed(a, b, index, overlay(a, index, bytes)),
    ensures
        forall|i: int| index + 4 <= i < index + QUAD_WORD_LEN ==> #[trigger] b[i] == a[i],
        le32(b, index) == le32(a, index) || le32(b, index) == value,
        b == overlay(a, index, bytes) ==> le32(b, index) == value,
{
    let wanted = overlay(a, index, bytes);
    assert forall|i: int| index + 4 <= i < index + QUAD_WORD_LEN implies #[trigger] b[i] == a[i] by {
        let w = (i - index) / 4;
        let at = index + 4 * w;
        let sub = b.subrange(at, at + 4);
        assert(sub == a.subrange(at, at + 4) || sub == wanted.subrange(at, at + 4));
        assert(sub[i - at] == b[i]);
        assert(a.subrange(at, at + 4)[i - at] == a[i]);
        assert(wanted.subrange(at, at + 4)[i - at] == wanted[i]);
    }
    let first = 0int;
    let sub = b.subrange(index + 4 * first, index + 4 * first + 4);
    let was = a.subrange(index + 4 * first, index + 4 * first + 4);
    let will = wanted.subrange(index + 4 * first, index + 4 * first + 4);
    assert(sub == was || sub == will);
    assert(le32(sub, 0) == le32(b, index));
    assert(le32(was, 0) == le32(a, index));
    assert(will =~= bytes);
}

/// A top mark touches its one word.
proof fn lemma_top_mark(a: Seq<u8>, b: Seq<u8>, index: int, bytes: Seq<u8>)
    requires
        0 <= index,
        index + QUAD_WORD_LEN <= a.len(),
        a.len() == b.len(),
        bytes =~= seq![0xFFu8, 0xFFu8, 0xFFu8, 0xFFu8, 0u8, 0u8, 0u8, 0u8],
        le32(a, index) == ERASED_WORD,
        words_kept_or_landed(a, b, index, overlay(a, index, bytes)),
    ensures
        forall|i: int|
            index <= i < index + QUAD_WORD_LEN && !(index + 4 <= i < index + 8) ==> #[trigger] b[i]
                == a[i],
        le32(b, index + 4) == le32(a, index + 4) || le32(b, index + 4) == NVCNT_TOP_MARK,
        b == overlay(a, index, bytes) ==> le32(b, index + 4) == NVCNT_TOP_MARK,
{
    let wanted = overlay(a, index, bytes);
    lemma_erased_word(a, index);
    assert forall|i: int|
        index <= i < index + QUAD_WORD_LEN && !(index + 4 <= i < index + 8) implies #[trigger] b[i]
        == a[i] by {
        let w = (i - index) / 4;
        let at = index + 4 * w;
        let sub = b.subrange(at, at + 4);
        assert(sub == a.subrange(at, at + 4) || sub == wanted.subrange(at, at + 4));
        assert(sub[i - at] == b[i]);
        assert(a.subrange(at, at + 4)[i - at] == a[i]);
        assert(wanted.subrange(at, at + 4)[i - at] == wanted[i]);
    }
    let second = 1int;
    let sub = b.subrange(index + 4 * second, index + 4 * second + 4);
    let was = a.subrange(index + 4 * second, index + 4 * second + 4);
    let will = wanted.subrange(index + 4 * second, index + 4 * second + 4);
    assert(sub == was || sub == will);
    assert(le32(sub, 0) == le32(b, index + 4));
    assert(le32(was, 0) == le32(a, index + 4));
    assert(will =~= seq![0u8, 0u8, 0u8, 0u8]);
}

/// The dual-bank secure posture.
pub open spec fn sane_posture(optr: u32) -> bool {
    optr & OPTR_DUALBANK != 0 && optr & OPTR_TZEN != 0
}

/// The bytes that the quad-words of `len` bytes cover.
pub open spec fn quads_len(len: int) -> int {
    (len + 15) / 16 * 16
}

/// `base` stands for the quad-words at `index` of a bank, all of one band and all in
/// a region that an update may touch.
pub open spec fn run_at(
    flash: FlashView,
    base: int,
    band: PageBand,
    bank: PhysBank,
    index: int,
    len: int,
) -> bool {
    &&& flash.resolve(base) == Some(Place { band, bank, index })
    &&& 0 <= index
    &&& index % QUAD_WORD_LEN as int == 0
    &&& index + len <= BANK_SIZE
    &&& base % 4 == 0
    &&& in_band(band, index, index + len)
    &&& len > 0 ==> mpu_covers(base, len)
}

/// A quad-word of a run stands where it should.
proof fn lemma_run_quad(
    pre: FlashView,
    cur: FlashView,
    base: int,
    band: PageBand,
    bank: PhysBank,
    index: int,
    len: int,
    done: int,
)
    requires
        run_at(pre, base, band, bank, index, quads_len(len)),
        cur.optr == pre.optr,
        0 <= done < len,
        done % 16 == 0,
    ensures
        quad_at(cur, base + done, band, bank, index + done),
        mpu_covers(base + done, QUAD_WORD_LEN as int),
        (base + done) % 4 == 0,
        done + 16 <= quads_len(len),
        base + done <= u32::MAX,
{
}

/// Every byte of `[from, to)` of a bank lies in a page of the band.
pub open spec fn in_band(band: PageBand, from: int, to: int) -> bool {
    match band {
        PageBand::Secure => to <= IMAGE_NS_BAND_OFFSET,
        PageBand::NonSecure => from >= IMAGE_NS_BAND_OFFSET,
    }
}

/// One more page of a range was erased, or left as it was.
proof fn lemma_page_erased(
    pre: FlashView,
    cur: FlashView,
    now: FlashView,
    bank: PhysBank,
    first: u32,
    page: u32,
    last: u32,
)
    requires
        pre.wf(),
        first <= page < last <= PAGES_PER_BANK,
        only_changed(pre, cur, bank, first * PAGE_SIZE, last * PAGE_SIZE),
        memory_kept(cur, now) || memory_kept(
            cur.with_bank(bank, with_page_erased(cur.bank(bank), page as int)),
            now,
        ),
    ensures
        only_changed(pre, now, bank, first * PAGE_SIZE, last * PAGE_SIZE),
        erased_range(cur.bank(bank), first * PAGE_SIZE, page * PAGE_SIZE) && memory_kept(
            cur.with_bank(bank, with_page_erased(cur.bank(bank), page as int)),
            now,
        ) ==> erased_range(now.bank(bank), first * PAGE_SIZE, (page + 1) * PAGE_SIZE),
{
    assert(page * PAGE_SIZE >= first * PAGE_SIZE) by (nonlinear_arith)
        requires
            page >= first,
    ;
    assert((page + 1) * PAGE_SIZE <= last * PAGE_SIZE) by (nonlinear_arith)
        requires
            page < last,
    ;
}

/// The words of a quad-word resolve to the words of its place.
proof fn lemma_quad_place(
    flash: FlashView,
    addr: int,
    band: PageBand,
    bank: PhysBank,
    index: int,
    at: int,
)
    requires
        quad_at(flash, addr, band, bank, index),
        0 <= at <= 12,
        at % 4 == 0,
    ensures
        flash.resolve(addr + at) == Some(Place { band, bank, index: index + at }),
        labelled(Place { band, bank, index: index + at }),
        (index + at) % 4 == 0,
        (index + at) - (index + at) % QUAD_WORD_LEN as int == index,
{
}

/// One more word of a metadata quad-word was kept or landed.
proof fn lemma_quad_words(
    cur: FlashView,
    now: FlashView,
    before: Seq<u8>,
    buf: Seq<u8>,
    bank: PhysBank,
    index: int,
    w: int,
)
    requires
        0 <= w < QUAD_WORD_WORDS,
        0 <= index,
        index + QUAD_WORD_LEN <= before.len(),
        before.len() == BANK_SIZE,
        cur.bank(bank).len() == BANK_SIZE,
        buf.len() == QUAD_WORD_LEN,
        now.bank(bank) == cur.bank(bank) || {
            &&& now.bank(bank) == overlay(
                cur.bank(bank),
                index + 4 * w,
                word_bytes(le32(buf, 4 * w) as u32),
            )
            &&& le32(cur.bank(bank), index + 4 * w) == ERASED_WORD || le32(buf, 4 * w) == 0
        },
        forall|j: int|
            0 <= j < w ==> {
                ||| #[trigger] cur.bank(bank).subrange(index + 4 * j, index + 4 * j + 4)
                    == before.subrange(index + 4 * j, index + 4 * j + 4)
                ||| {
                    &&& cur.bank(bank).subrange(index + 4 * j, index + 4 * j + 4) == buf.subrange(
                        4 * j,
                        4 * j + 4,
                    )
                    &&& le32(before, index + 4 * j) == ERASED_WORD || le32(buf, 4 * j) == 0
                }
            },
        forall|k: int|
            4 * w <= k < QUAD_WORD_LEN ==> cur.bank(bank)[index + k] == #[trigger] before[index + k],
    ensures
        forall|j: int|
            0 <= j < w + 1 ==> {
                ||| #[trigger] now.bank(bank).subrange(index + 4 * j, index + 4 * j + 4)
                    == before.subrange(index + 4 * j, index + 4 * j + 4)
                ||| {
                    &&& now.bank(bank).subrange(index + 4 * j, index + 4 * j + 4) == buf.subrange(
                        4 * j,
                        4 * j + 4,
                    )
                    &&& le32(before, index + 4 * j) == ERASED_WORD || le32(buf, 4 * j) == 0
                }
            },
        forall|k: int|
            4 * w + 4 <= k < QUAD_WORD_LEN ==> now.bank(bank)[index + k]
                == #[trigger] before[index + k],
{
    let a = cur.bank(bank);
    let b = now.bank(bank);
    lemma_word_roundtrip(buf, 4 * w, le32(buf, 4 * w) as u32);
    assert forall|j: int| 0 <= j < w + 1 implies {
        ||| #[trigger] b.subrange(index + 4 * j, index + 4 * j + 4) == before.subrange(
            index + 4 * j,
            index + 4 * j + 4,
        )
        ||| {
            &&& b.subrange(index + 4 * j, index + 4 * j + 4) == buf.subrange(4 * j, 4 * j + 4)
            &&& le32(before, index + 4 * j) == ERASED_WORD || le32(buf, 4 * j) == 0
        }
    } by {
        let at = index + 4 * j;
        if j == w {
            assert(a[at] == before[index + (4 * w)]);
            assert(a[at + 1] == before[index + (4 * w + 1)]);
            assert(a[at + 2] == before[index + (4 * w + 2)]);
            assert(a[at + 3] == before[index + (4 * w + 3)]);
        }
        if j < w {
            assert(b.subrange(at, at + 4) =~= a.subrange(at, at + 4));
        } else if b == a {
            assert(b.subrange(at, at + 4) =~= before.subrange(at, at + 4));
        } else {
            assert(b.subrange(at, at + 4) =~= buf.subrange(4 * j, 4 * j + 4));
        }
    }
}

/// Four landed words are the data, and the padding leaves the rest erased.
proof fn lemma_quad_landed(
    before: Seq<u8>,
    after: Seq<u8>,
    buf: Seq<u8>,
    data: Seq<u8>,
    index: int,
    failed: bool,
)
    requires
        0 <= index,
        index + QUAD_WORD_LEN <= before.len(),
        after.len() == before.len(),
        data.len() <= QUAD_WORD_LEN,
        buf.len() == QUAD_WORD_LEN,
        forall|k: int|
            0 <= k < QUAD_WORD_LEN ==> #[trigger] buf[k] == (if k < data.len() {
                data[k]
            } else {
                ERASED_BYTE
            }),
        forall|i: int|
            0 <= i < before.len() && !(index <= i < index + QUAD_WORD_LEN) ==> #[trigger] after[i]
                == before[i],
        !failed ==> forall|k: int|
            0 <= k < QUAD_WORD_LEN ==> after[index + k] == #[trigger] buf[k],
        !failed ==> forall|j: int|
            0 <= j < QUAD_WORD_WORDS ==> le32(before, index + 4 * j) == ERASED_WORD
                || #[trigger] le32(buf, 4 * j) == 0,
    ensures
        !failed ==> after == overlay(before, index, data),
{
    if !failed {
        assert forall|i: int| 0 <= i < before.len() implies after[i] == overlay(
            before,
            index,
            data,
        )[i] by {
            let k = i - index;
            if 0 <= k < QUAD_WORD_LEN {
                assert(after[index + k] == buf[k]);
                if k >= data.len() {
                    let j = k / 4;
                    assert(le32(before, index + 4 * j) == ERASED_WORD || le32(buf, 4 * j) == 0);
                    lemma_erased_word(before, index + 4 * j);
                    lemma_erased_word(buf, 4 * j);
                }
            }
        }
        assert(after =~= overlay(before, index, data));
    }
}

/// A metadata quad-word holds, word by word, what it held or what was wanted.
proof fn lemma_quad_partial(
    before: Seq<u8>,
    after: Seq<u8>,
    buf: Seq<u8>,
    data: Seq<u8>,
    index: int,
)
    requires
        0 <= index,
        index + QUAD_WORD_LEN <= before.len(),
        after.len() == before.len(),
        data.len() <= QUAD_WORD_LEN,
        buf.len() == QUAD_WORD_LEN,
        forall|k: int|
            0 <= k < QUAD_WORD_LEN ==> #[trigger] buf[k] == (if k < data.len() {
                data[k]
            } else {
                ERASED_BYTE
            }),
        forall|j: int|
            0 <= j < QUAD_WORD_WORDS ==> {
                ||| #[trigger] after.subrange(index + 4 * j, index + 4 * j + 4)
                    == before.subrange(index + 4 * j, index + 4 * j + 4)
                ||| {
                    &&& after.subrange(index + 4 * j, index + 4 * j + 4) == buf.subrange(
                        4 * j,
                        4 * j + 4,
                    )
                    &&& le32(before, index + 4 * j) == ERASED_WORD || le32(buf, 4 * j) == 0
                }
            },
    ensures
        words_kept_or_landed(before, after, index, overlay(before, index, data)),
{
    let wanted = overlay(before, index, data);
    assert forall|w: int| 0 <= w < QUAD_WORD_WORDS implies {
        ||| #[trigger] after.subrange(index + 4 * w, index + 4 * w + 4) == before.subrange(
            index + 4 * w,
            index + 4 * w + 4,
        )
        ||| after.subrange(index + 4 * w, index + 4 * w + 4) == wanted.subrange(
            index + 4 * w,
            index + 4 * w + 4,
        )
    } by {
        let at = index + 4 * w;
        if after.subrange(at, at + 4) != before.subrange(at, at + 4) {
            lemma_erased_word(before, at);
            lemma_erased_word(buf, 4 * w);
            assert(buf[4 * w] == wanted[at]);
            assert(buf[4 * w + 1] == wanted[at + 1]);
            assert(buf[4 * w + 2] == wanted[at + 2]);
            assert(buf[4 * w + 3] == wanted[at + 3]);
            assert(buf.subrange(4 * w, 4 * w + 4) =~= wanted.subrange(at, at + 4));
        }
    }
}

/// Setting the program bit sets it, no start bit, and keeps the register unlocked.
proof fn lemma_program_bits(cr: u32, start: u32)
    by (bit_vector)
    requires
        start == SEC_START_BITS || start == NS_START_BITS,
        cr & start == 0,
        cr & SECCR_LOCK == 0,
    ensures
        ((cr & !0u32) | SECCR_PG) & start == 0,
        (((cr & !0u32) | SECCR_PG) & !start) & SECCR_LOCK == 0,
        (((cr & !0u32) | SECCR_PG) & !start) & SECCR_PG != 0,
        (((cr & !0u32) | SECCR_PG) & !start) & NSCR_OPTLOCK == cr & NSCR_OPTLOCK,
{
}

/// Clearing bits sets no start bit and keeps the register unlocked.
proof fn lemma_clear_bits(cr: u32, start: u32, clear: u32)
    by (bit_vector)
    requires
        start == SEC_START_BITS || start == NS_START_BITS,
        cr & start == 0,
        cr & SECCR_LOCK == 0,
        clear == SECCR_PER || clear == SECCR_PG,
    ensures
        ((cr & !clear) | 0u32) & start == 0,
        (((cr & !clear) | 0u32) & !start) & SECCR_LOCK == 0,
        (((cr & !clear) | 0u32) & !start) & NSCR_OPTLOCK == cr & NSCR_OPTLOCK,
        ((cr & !clear) | 0u32) & NSCR_OPTLOCK == cr & NSCR_OPTLOCK,
{
}

/// Selecting a page erase and then starting it: the page and the bank are those
/// asked for, nothing else starts, and the register stays unlocked.
proof fn lemma_erase_bits(cr: u32, start: u32, bker: u32, page: u32)
    by (bit_vector)
    requires
        start == SEC_START_BITS || start == NS_START_BITS,
        cr & start == 0,
        cr & SECCR_LOCK == 0,
        bker == 0 || bker == SECCR_BKER,
        page < 32,
    ensures
        ({
            let mask = SECCR_PER | SECCR_PG | SECCR_PNB_MASK | SECCR_BKER | SECCR_MER1 | SECCR_MER2
                | SECCR_BWR | SECCR_EOPIE | SECCR_ERRIE | SECCR_STRT;
            let pnb = (page << SECCR_PNB_SHIFT) & SECCR_PNB_MASK;
            let select = (cr & !mask) | (SECCR_PER | bker | pnb);
            let held = select & !start;
            let go = (held & !0u32) | SECCR_STRT;
            &&& select & start == 0
            &&& held & SECCR_LOCK == 0
            &&& held & start == 0
            &&& go & start == SECCR_STRT
            &&& go & SECCR_PER != 0
            &&& go & SECCR_MER1 == 0
            &&& go & SECCR_MER2 == 0
            &&& (go & SECCR_PNB_MASK) / 8 == page
            &&& (go & SECCR_BKER == 0) == (bker == 0)
            &&& (go & !start) & SECCR_LOCK == 0
            &&& (go & !start) & start == 0
            &&& (go & !start) & NSCR_OPTLOCK == cr & NSCR_OPTLOCK
        }),
{
}

/// What the option bits of the non-secure control register do.
proof fn lemma_option_bits(cr: u32)
    by (bit_vector)
    ensures
        (cr & !NSCR_OPTLOCK) & NSCR_OPTLOCK == 0,
        cr & NS_START_BITS == 0 ==> (cr & !NSCR_OPTLOCK) & NS_START_BITS == 0,
        (cr & !NSCR_OPTLOCK) & SECCR_LOCK == cr & SECCR_LOCK,
        cr & NS_START_BITS == 0 ==> ((cr & !0u32) | NSCR_OPTSTRT) & NS_START_BITS == NSCR_OPTSTRT,
        ((cr & !0u32) | NSCR_OPTSTRT) & NSCR_OPTLOCK == cr & NSCR_OPTLOCK,
        ((cr & !0u32) | NSCR_OPTSTRT) & SECCR_STRT == cr & SECCR_STRT,
        cr & NS_START_BITS == 0 ==> cr & SECCR_STRT == 0,
        (((cr & !0u32) | NSCR_OPTSTRT) & !NS_START_BITS) & SECCR_LOCK == cr & SECCR_LOCK,
        (((cr & !0u32) | NSCR_OPTSTRT) & !NS_START_BITS) & NSCR_OPTLOCK == cr & NSCR_OPTLOCK,
        cr & NS_START_BITS == 0 ==> ((cr & !0u32) | NSCR_OBL_LAUNCH) & NS_START_BITS
            == NSCR_OBL_LAUNCH,
        ((cr & !0u32) | NSCR_OBL_LAUNCH) & NSCR_OPTLOCK == cr & NSCR_OPTLOCK,
        ((cr & !0u32) | NSCR_OBL_LAUNCH) & SECCR_STRT == cr & SECCR_STRT,
        (((cr & !0u32) | NSCR_OBL_LAUNCH) & !NS_START_BITS) & SECCR_LOCK == cr & SECCR_LOCK,
        (((cr & !0u32) | NSCR_OBL_LAUNCH) & !NS_START_BITS) & NSCR_OPTLOCK == cr & NSCR_OPTLOCK,
        cr & NS_START_BITS == 0 ==> ((cr & !0u32) | NSCR_OPTLOCK) & NS_START_BITS == 0,
        (((cr & !0u32) | NSCR_OPTLOCK) & !NS_START_BITS) & NSCR_OPTLOCK != 0,
        (((cr & !0u32) | NSCR_OPTLOCK) & !NS_START_BITS) & SECCR_LOCK == cr & SECCR_LOCK,
        cr & NS_START_BITS == 0 ==> ((cr & !0u32) | NSCR_LOCK) & NS_START_BITS == 0,
        (((cr & !0u32) | NSCR_LOCK) & !NS_START_BITS) & SECCR_LOCK != 0,
        (((cr & !0u32) | NSCR_LOCK) & !NS_START_BITS) & NSCR_OPTLOCK == cr & NSCR_OPTLOCK,
{
}

/// Setting and clearing the swap bit.
proof fn lemma_swap_bit(optr: u32)
    by (bit_vector)
    ensures
        ((optr & !0u32) | OPTR_SWAP_BANK) & OPTR_SWAP_BANK != 0,
        ((optr & !OPTR_SWAP_BANK) | 0u32) & OPTR_SWAP_BANK == 0,
{
}

/// What the status masks have in common.
proof fn lemma_status_masks()
    by (bit_vector)
    ensures
        SR_ALL_ERRORS & SR_ALL_ERRORS == SR_ALL_ERRORS,
        SR_EOP & SR_ALL_ERRORS == 0,
        (SR_EOP | SR_ALL_ERRORS) & SR_ALL_ERRORS == SR_ALL_ERRORS,
        (SR_EOP | SR_ALL_ERRORS) & SR_OPTWERR == 0,
        SR_ALL_ERRORS & SR_OPTWERR == 0,
        SR_EOP & SR_OPTWERR == 0,
        SR_OPTWERR & SR_ALL_ERRORS == 0,
        SR_OPTWERR & SR_OPTWERR != 0,
{
}

/// Unlocking clears the lock bit and sets no start bit.
proof fn lemma_unlock_bits(cr: u32)
    by (bit_vector)
    ensures
        (cr & !SECCR_LOCK) & SECCR_LOCK == 0,
        (cr & !SECCR_LOCK) & NSCR_OPTLOCK == cr & NSCR_OPTLOCK,
        cr & SEC_START_BITS == 0 ==> (cr & !SECCR_LOCK) & SEC_START_BITS == 0,
        cr & NS_START_BITS == 0 ==> (cr & !SECCR_LOCK) & NS_START_BITS == 0,
{
}

/// Locking sets the lock bit and no start bit.
proof fn lemma_lock_bits(cr: u32, start: u32)
    by (bit_vector)
    requires
        start == SEC_START_BITS || start == NS_START_BITS,
    ensures
        cr & start == 0 ==> ((cr & !0u32) | SECCR_LOCK) & start == 0,
        (((cr & !0u32) | SECCR_LOCK) & !start) & SECCR_LOCK != 0,
        (((cr & !0u32) | SECCR_LOCK) & !start) & NSCR_OPTLOCK == cr & NSCR_OPTLOCK,
{
}

} // verus!
