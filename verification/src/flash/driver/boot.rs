//! The boot seam of the driver: the running bank, the records, the revert.

use vstd::prelude::*;

use crate::boot::seam::BootCall;
use crate::boot::seam::BootFlash;
use crate::boot::seam::BootView;
use crate::boot::secwm::decode_window;
use crate::boot::secwm::window_of;
use crate::boot::secwm::SecwmReadback;
use crate::flash::bus::FlashAccess;
use crate::flash::bus::FlashView;
use crate::flash::driver::calm;
use crate::flash::driver::clean;
use crate::flash::driver::fault_answered;
use crate::flash::driver::locks_kept;
use crate::flash::driver::only_changed;
use crate::flash::driver::relocked;
use crate::flash::driver::sane_posture;
use crate::flash::driver::settled;
use crate::flash::driver::stuck_answered;
use crate::flash::driver::update::arm_driven;
use crate::flash::driver::update::bank_id;
use crate::flash::driver::update::id_of;
use crate::flash::driver::update::next_bank;
use crate::flash::driver::Stm32FlashSeam;
use crate::flash::records::decode_pending;
use crate::flash::records::counter_room;
use crate::flash::records::lemma_same_counter;
use crate::flash::records::stored_nvcnt;
use crate::flash::records::stored_outcome;
use crate::flash::records::stored_pending;
use crate::flash::records::META_END;
use crate::flash::regs::inactive_phys_bank;
use crate::flash::regs::running_bank_of;
use crate::flash::regs::running_phys_bank;
use crate::flash::regs::swap_bank_set;
use crate::flash::regs::PageBand;
use crate::flash::regs::PhysBank;
use crate::flash::regs::BANK_SIZE;
use crate::flash::regs::FLASH_OPTR;
use crate::flash::regs::FLASH_SECWM1R1;
use crate::flash::regs::FLASH_SECWM2R1;
use crate::flash::regs::IMAGE_DESCRIPTOR_LEN;
use crate::flash::regs::IMAGE_DESCRIPTOR_OFFSET;
use crate::flash::regs::IMAGE_NS_BAND_OFFSET;
use crate::flash::regs::IMAGE_NS_BAND_SIZE;
use crate::flash::regs::IMAGE_PAYLOAD_OFFSET;
use crate::flash::regs::IMAGE_PAYLOAD_SECURE_SIZE;
use crate::flash::regs::META_BOOT_OFFSET;
use crate::flash::regs::META_PENDING_OFFSET;
use crate::flash::regs::PAGE_SIZE;
use crate::update::seam::BankId;
use crate::update::seam::FlashError;
use crate::update::seam::PendingFlag;
use crate::update::seam::UpdateOutcome;

verus! {

/// The running bank.
pub open spec fn active(flash: FlashView) -> Seq<u8> {
    flash.bank(running_bank_of(flash.swap()))
}

/// What the controller shows through the boot seam.
pub open spec fn boot_of(flash: FlashView, calls: Seq<BootCall>) -> BootView {
    let bytes = active(flash);
    BootView {
        descriptor: bytes.subrange(
            IMAGE_DESCRIPTOR_OFFSET as int,
            IMAGE_DESCRIPTOR_OFFSET + IMAGE_DESCRIPTOR_LEN,
        ),
        secure: bytes.subrange(
            IMAGE_PAYLOAD_OFFSET as int,
            IMAGE_PAYLOAD_OFFSET + IMAGE_PAYLOAD_SECURE_SIZE,
        ),
        ns: bytes.subrange(
            IMAGE_NS_BAND_OFFSET as int,
            IMAGE_NS_BAND_OFFSET + IMAGE_NS_BAND_SIZE,
        ),
        partition: sane_posture(flash.optr),
        secwm: SecwmReadback { bank1: window_of(flash.secwm1), bank2: window_of(flash.secwm2) },
        running: id_of(running_bank_of(flash.swap())),
        next: next_bank(flash),
        pending: stored_pending(flash.bank1),
        nvcnt: stored_nvcnt(flash.bank1),
        outcome: stored_outcome(flash.bank1),
        room: counter_room(flash.bank1),
        calls,
    }
}

/// A change of the metadata leaves the image of the running bank alone.
proof fn lemma_boot_meta_change(
    pre: FlashView,
    post: FlashView,
    from: int,
    to: int,
    before: Seq<BootCall>,
    after: Seq<BootCall>,
)
    requires
        pre.wf(),
        0 <= from,
        to <= META_END,
        only_changed(pre, post, PhysBank::One, from, to),
    ensures
        ({
            let a = boot_of(pre, before);
            let b = boot_of(post, after);
            &&& b == (BootView {
                pending: b.pending,
                nvcnt: b.nvcnt,
                outcome: b.outcome,
                room: b.room,
                calls: after,
                ..a
            })
            &&& from >= PAGE_SIZE ==> b.nvcnt == a.nvcnt && b.room == a.room
            &&& to <= PAGE_SIZE ==> b.pending == a.pending && b.outcome == a.outcome
        }),
{
    let one = PhysBank::One;
    let a = boot_of(pre, before);
    let b = boot_of(post, after);
    assert forall|i: int| 0 <= i < BANK_SIZE && !(from <= i < to) implies #[trigger] post.bank1[i]
        == pre.bank1[i] by {
        assert(post.bank(one)[i] == pre.bank(one)[i]);
    }
    assert forall|i: int| META_END <= i < BANK_SIZE implies #[trigger] active(post)[i] == active(
        pre,
    )[i] by {
        if running_bank_of(pre.swap()) == one {
            assert(post.bank(one)[i] == pre.bank(one)[i]);
        }
    }
    assert(b.descriptor =~= a.descriptor);
    assert(b.secure =~= a.secure);
    assert(b.ns =~= a.ns);
    if from >= PAGE_SIZE {
        lemma_same_counter(pre.bank1, post.bank1);
    }
}

impl<A> Stm32FlashSeam<A> where A: FlashAccess {
    fn note(&mut self, Ghost(call): Ghost<BootCall>)
        ensures
            *final(self) == (Stm32FlashSeam {
                boots: Ghost(old(self).boots@.push(call)),
                ..*old(self)
            }),
    {
        self.boots = Ghost(self.boots@.push(call));
    }

    /// Asserts the dual-bank secure posture.
    pub fn require_partition(&mut self) -> (r: Result<(), FlashError>)
        requires
            old(self).flash().wf(),
        ensures
            final(self).flash() == old(self).flash(),
            final(self).answered() == old(self).answered(),
            final(self).booted() == old(self).booted(),
            r == (if sane_posture(old(self).flash().optr) {
                Ok::<(), FlashError>(())
            } else {
                Err(FlashError::Hardware)
            }),
            calm(old(self).port()) ==> calm(final(self).port()),
    {
        self.require_dualbank_secure()
    }

    /// Reads the two secure-watermark registers. A part without TrustZone gives zero
    /// for both.
    pub fn read_secwm_raw(&mut self) -> (r: Result<(u32, u32), FlashError>)
        requires
            old(self).flash().wf(),
        ensures
            final(self).flash() == old(self).flash(),
            final(self).answered() == old(self).answered(),
            final(self).booted() == old(self).booted(),
            r == Ok::<(u32, u32), FlashError>((old(self).flash().secwm1, old(self).flash().secwm2)),
            calm(old(self).port()) ==> calm(final(self).port()),
    {
        let bank1: u32 = self.access.read32(FLASH_SECWM1R1);
        let bank2: u32 = self.access.read32(FLASH_SECWM2R1);
        Ok((bank1, bank2))
    }

    /// Borrows the image descriptor of the running bank: header, then signature.
    pub fn active_descriptor(&self) -> (bytes: &[u8])
        requires
            self.flash().wf(),
        ensures
            bytes@ == boot_of(self.flash(), self.booted()).descriptor,
    {
        let swap: bool = swap_bank_set(self.access.peek32(FLASH_OPTR));
        self.band_slice(
            running_phys_bank(swap),
            swap,
            PageBand::Secure,
            IMAGE_DESCRIPTOR_OFFSET,
            IMAGE_DESCRIPTOR_LEN,
        )
    }

    /// Borrows the secure payload band of the running bank.
    pub fn active_secure_band(&self) -> (bytes: &[u8])
        requires
            self.flash().wf(),
        ensures
            bytes@ == boot_of(self.flash(), self.booted()).secure,
    {
        let swap: bool = swap_bank_set(self.access.peek32(FLASH_OPTR));
        self.band_slice(
            running_phys_bank(swap),
            swap,
            PageBand::Secure,
            IMAGE_PAYLOAD_OFFSET,
            IMAGE_PAYLOAD_SECURE_SIZE,
        )
    }

    /// Borrows the non-secure payload band of the running bank, through its own
    /// alias.
    pub fn active_ns_band(&self) -> (bytes: &[u8])
        requires
            self.flash().wf(),
        ensures
            bytes@ == boot_of(self.flash(), self.booted()).ns,
    {
        let swap: bool = swap_bank_set(self.access.peek32(FLASH_OPTR));
        self.band_slice(
            running_phys_bank(swap),
            swap,
            PageBand::NonSecure,
            IMAGE_NS_BAND_OFFSET,
            IMAGE_NS_BAND_SIZE,
        )
    }
}

impl<A> BootFlash for Stm32FlashSeam<A> where A: FlashAccess {
    open spec fn boot(&self) -> BootView {
        boot_of(self.flash(), self.booted())
    }

    open spec fn boot_wf(&self) -> bool {
        settled(self.flash())
    }

    open spec fn steady(&self) -> bool {
        calm(self.port()) && !self.flash().optwerr
    }

    fn require_partition(&mut self) -> (r: Result<(), FlashError>)
        ensures
            final(self).flash() == old(self).flash(),
            r == (if old(self).boot().partition {
                Ok(())
            } else {
                Err(FlashError::Hardware)
            }),
    {
        let r = Stm32FlashSeam::require_partition(self);
        self.note(Ghost(BootCall::RequirePartition(r)));
        r
    }

    fn read_secwm(&mut self) -> (r: Result<SecwmReadback, FlashError>)
        ensures
            final(self).flash() == old(self).flash(),
            r is Ok,
    {
        let r = match self.read_secwm_raw() {
            Ok((bank1, bank2)) => Ok(
                SecwmReadback { bank1: decode_window(bank1), bank2: decode_window(bank2) },
            ),
            Err(e) => Err(e),
        };
        self.note(Ghost(BootCall::ReadSecwm(r)));
        r
    }

    fn running_bank(&mut self) -> (r: Result<BankId, FlashError>)
        ensures
            final(self).flash() == old(self).flash(),
            r is Ok,
    {
        let r = Ok(bank_id(running_phys_bank(self.swap_bank())));
        self.note(Ghost(BootCall::RunningBank(r)));
        r
    }

    fn pending_read(&mut self) -> (r: Result<PendingFlag, FlashError>)
        ensures
            final(self).flash() == old(self).flash(),
            r is Ok,
    {
        let r = Ok(decode_pending(self.read_meta_word(META_PENDING_OFFSET)));
        self.note(Ghost(BootCall::PendingRead(r)));
        r
    }

    fn nvcnt_read(&mut self) -> (r: Result<u32, FlashError>)
        ensures
            final(self).flash() == old(self).flash(),
            r is Ok,
    {
        let r = Ok(self.nvcnt_max());
        self.note(Ghost(BootCall::NvcntRead(r)));
        r
    }

    fn active_descriptor(&self) -> (bytes: &[u8]) {
        Stm32FlashSeam::active_descriptor(self)
    }

    fn active_secure_band(&self) -> (bytes: &[u8]) {
        Stm32FlashSeam::active_secure_band(self)
    }

    fn active_ns_band(&self) -> (bytes: &[u8]) {
        Stm32FlashSeam::active_ns_band(self)
    }

    fn update_outcome_clear(&mut self) -> (r: Result<(), FlashError>)
        ensures
            locks_kept(old(self).flash(), final(self).flash()),
            old(self).boot().partition ==> relocked(
                old(self).flash(),
                final(self).flash(),
                PageBand::Secure,
            ),
            clean(old(self).flash()) ==> clean(final(self).flash()),
            !old(self).boot().partition ==> r == Err::<(), FlashError>(FlashError::Hardware)
                && final(self).flash() == old(self).flash(),
            old(self).boot().partition ==> stuck_answered(
                old(self).flash(),
                final(self).flash(),
                r,
            ),
            old(self).boot().partition ==> fault_answered(calm(old(self).port()), r),
    {
        let ghost pre = self.flash();
        let ghost calls = self.booted();
        let r = self.write_outcome(UpdateOutcome::Clear);
        self.note(Ghost(BootCall::OutcomeClear(r)));
        proof {
            lemma_boot_meta_change(
                pre,
                self.flash(),
                PAGE_SIZE as int,
                META_END as int,
                calls,
                self.booted(),
            );
        }
        r
    }

    fn update_outcome_write(&mut self, outcome: UpdateOutcome) -> (r: Result<(), FlashError>)
        ensures
            locks_kept(old(self).flash(), final(self).flash()),
            old(self).boot().partition ==> relocked(
                old(self).flash(),
                final(self).flash(),
                PageBand::Secure,
            ),
            clean(old(self).flash()) ==> clean(final(self).flash()),
            !old(self).boot().partition ==> r == Err::<(), FlashError>(FlashError::Hardware)
                && final(self).flash() == old(self).flash(),
            old(self).boot().partition ==> stuck_answered(
                old(self).flash(),
                final(self).flash(),
                r,
            ),
            old(self).boot().partition ==> fault_answered(calm(old(self).port()), r),
    {
        let ghost pre = self.flash();
        let ghost calls = self.booted();
        let r = self.write_outcome(outcome);
        self.note(Ghost(BootCall::OutcomeWrite(outcome, r)));
        proof {
            lemma_boot_meta_change(
                pre,
                self.flash(),
                PAGE_SIZE as int,
                META_END as int,
                calls,
                self.booted(),
            );
        }
        r
    }

    fn pending_write(&mut self, flag: PendingFlag) -> (r: Result<(), FlashError>)
        ensures
            locks_kept(old(self).flash(), final(self).flash()),
            old(self).boot().partition ==> relocked(
                old(self).flash(),
                final(self).flash(),
                PageBand::Secure,
            ),
            clean(old(self).flash()) ==> clean(final(self).flash()),
            !old(self).boot().partition ==> r == Err::<(), FlashError>(FlashError::Hardware)
                && final(self).flash() == old(self).flash(),
            old(self).boot().partition ==> stuck_answered(
                old(self).flash(),
                final(self).flash(),
                r,
            ),
            old(self).boot().partition ==> fault_answered(calm(old(self).port()), r),
    {
        let ghost pre = self.flash();
        let ghost calls = self.booted();
        let r = self.write_pending(flag);
        self.note(Ghost(BootCall::PendingWrite(flag, r)));
        proof {
            lemma_boot_meta_change(
                pre,
                self.flash(),
                PAGE_SIZE as int,
                META_END as int,
                calls,
                self.booted(),
            );
        }
        r
    }

    fn nvcnt_bump(&mut self, value: u32) -> (r: Result<(), FlashError>)
        ensures
            locks_kept(old(self).flash(), final(self).flash()),
            clean(old(self).flash()) ==> clean(final(self).flash()),
            !old(self).boot().partition ==> r == Err::<(), FlashError>(FlashError::Hardware)
                && final(self).flash() == old(self).flash(),
            old(self).boot().partition && value < old(self).boot().nvcnt ==> r == Err::<
                (),
                FlashError,
            >(FlashError::WriteFailed) && final(self).flash() == old(self).flash(),
            old(self).boot().partition && value == old(self).boot().nvcnt ==> r == Ok::<
                (),
                FlashError,
            >(()) && final(self).flash() == old(self).flash(),
            old(self).boot().partition && value > old(self).boot().nvcnt && !counter_room(
                old(self).flash().bank1,
            ) ==> r == Err::<(), FlashError>(FlashError::CounterExhausted) && final(self).flash()
                == old(self).flash(),
            old(self).boot().partition && value > old(self).boot().nvcnt && counter_room(
                old(self).flash().bank1,
            ) ==> {
                &&& fault_answered(calm(old(self).port()), r)
                &&& stuck_answered(old(self).flash(), final(self).flash(), r)
                &&& calm(old(self).port()) ==> r is Ok
                &&& relocked(old(self).flash(), final(self).flash(), PageBand::Secure)
            },
    {
        let ghost pre = self.flash();
        let ghost calls = self.booted();
        let r = self.bump_nvcnt(value);
        self.note(Ghost(BootCall::NvcntBump(value, r)));
        proof {
            lemma_boot_meta_change(
                pre,
                self.flash(),
                0,
                META_BOOT_OFFSET as int,
                calls,
                self.booted(),
            );
        }
        r
    }

    fn revert_swap(&mut self) -> (r: Result<(), FlashError>)
        ensures
            arm_driven(old(self).flash(), final(self).flash(), r),
    {
        let r = match self.require_dualbank_secure() {
            Ok(_) => {
                let swap: bool = self.swap_bank();
                self.arm_swap(inactive_phys_bank(swap) == PhysBank::Two)
            },
            Err(e) => Err(e),
        };
        self.note(Ghost(BootCall::RevertSwap(r)));
        r
    }
}

} // verus!
