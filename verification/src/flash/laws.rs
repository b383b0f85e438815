//! What holds of the flash driver over several operations, and across a reset.

use vstd::prelude::*;

use crate::boot::seam::BootCall;
use crate::boot::seam::BootFlash;
use crate::flash::bus::FlashAccess;
use crate::flash::bus::FlashView;
use crate::flash::driver::boot::active;
use crate::flash::driver::boot::boot_of;
use crate::flash::driver::locked;
use crate::flash::driver::only_changed;
use crate::flash::driver::sane_posture;
use crate::flash::driver::update::descriptor_driven;
use crate::flash::driver::update::erase_driven;
use crate::flash::driver::update::inactive;
use crate::flash::driver::update::page_driven;
use crate::flash::driver::update::seam_of;
use crate::flash::driver::Stm32FlashSeam;
use crate::flash::regs::inactive_bank_of;
use crate::flash::regs::swapped;
use crate::flash::regs::BANK_SIZE;
use crate::flash::regs::IMAGE_DESCRIPTOR_LEN;
use crate::flash::regs::IMAGE_DESCRIPTOR_OFFSET;
use crate::flash::regs::IMAGE_PAYLOAD_OFFSET;
use crate::flash::regs::IMAGE_REGION_OFFSET;
use crate::flash::regs::PAGE_SIZE;
use crate::update::seam::overlay;
use crate::update::seam::FlashError;
use crate::update::seam::FlashSeam;
use crate::update::seam::PageIndex;
use crate::update::seam::SeamCall;
use crate::update::seam::ERASED;
use crate::update::seam::PAGE_LEN;

verus! {

/// The pages of the payload band.
pub const PAYLOAD_PAGES: u16 = 704;

/// The pages of the secure payload band.
pub const SECURE_PAYLOAD_PAGES: u16 = 320;

/// An erased bank takes a page and gives it back: on a controller without faults a
/// page outside the payload, or too much data, is refused and changes nothing. Any
/// other page stands in its band afterwards, every other byte of both banks is as the
/// erase left it, and both register sets are locked.
pub proof fn an_erased_bank_gives_back_a_page(
    pre: FlashView,
    calm: bool,
    erased: FlashView,
    page: PageIndex,
    data: Seq<u8>,
    post: FlashView,
    r: Result<(), FlashError>,
    calls: Seq<SeamCall>,
)
    requires
        pre.wf(),
        erase_driven(pre, calm, erased, Ok(())),
        page_driven(erased, page, data, true, post, r),
    ensures
        ({
            let was = seam_of(erased, calls);
            let is = seam_of(post, calls);
            let refused = data.len() > PAGE_LEN || page >= PAYLOAD_PAGES;
            &&& locked(post)
            &&& refused ==> r == Err::<(), FlashError>(FlashError::OutOfRange) && post == erased
            &&& !refused ==> r is Ok
            &&& !refused && page < SECURE_PAYLOAD_PAGES ==> {
                let at = page * PAGE_LEN;
                &&& is.secure == overlay(was.secure, at, data)
                &&& is.secure.subrange(at, at + data.len()) == data
                &&& is.ns == was.ns
            }
            &&& !refused && page >= SECURE_PAYLOAD_PAGES ==> {
                let at = (page - SECURE_PAYLOAD_PAGES) * PAGE_LEN;
                &&& is.ns == overlay(was.ns, at, data)
                &&& is.ns.subrange(at, at + data.len()) == data
                &&& is.secure == was.secure
            }
            &&& !refused ==> inactive(post) == overlay(
                inactive(erased),
                IMAGE_PAYLOAD_OFFSET + page * PAGE_LEN,
                data,
            )
            &&& active(post) == active(pre)
            &&& inactive(post).take(IMAGE_REGION_OFFSET as int) == inactive(pre).take(
                IMAGE_REGION_OFFSET as int,
            )
        }),
{
    let from = IMAGE_PAYLOAD_OFFSET + page * PAGE_LEN;
    let was = seam_of(erased, calls);
    let is = seam_of(post, calls);
    lemma_image_region_change(pre, erased, IMAGE_REGION_OFFSET as int, BANK_SIZE as int);
    lemma_image_region_change(erased, post, from, from + PAGE_LEN);
    assert(inactive(post).take(IMAGE_REGION_OFFSET as int) =~= inactive(pre).take(
        IMAGE_REGION_OFFSET as int,
    ));
    if data.len() <= PAGE_LEN && page < PAYLOAD_PAGES {
        assert(r is Ok);
        assert(inactive(post).len() == BANK_SIZE);
        if page < SECURE_PAYLOAD_PAGES {
            let at = page * PAGE_LEN;
            assert(is.secure =~= overlay(was.secure, at, data));
            assert(is.secure.subrange(at, at + data.len()) =~= data);
            assert(is.ns =~= was.ns);
        } else {
            let at = (page - SECURE_PAYLOAD_PAGES) * PAGE_LEN;
            assert(is.ns =~= overlay(was.ns, at, data));
            assert(is.ns.subrange(at, at + data.len()) =~= data);
            assert(is.secure =~= was.secure);
        }
    }
}

/// An erased bank takes a descriptor and gives it back: on a controller without faults
/// one that is longer than a page is refused and changes nothing. After any other, the
/// descriptor page is the descriptor and then erased bytes, what the seam shows of it
/// starts with the descriptor, and everything else is as the erase left it.
pub proof fn an_erased_bank_gives_back_a_descriptor(
    pre: FlashView,
    calm: bool,
    erased: FlashView,
    descriptor: Seq<u8>,
    post: FlashView,
    r: Result<(), FlashError>,
    calls: Seq<SeamCall>,
)
    requires
        pre.wf(),
        erase_driven(pre, calm, erased, Ok(())),
        descriptor_driven(erased, descriptor, true, post, r),
    ensures
        ({
            let was = seam_of(erased, calls);
            let is = seam_of(post, calls);
            let refused = descriptor.len() > PAGE_SIZE;
            let shown = if descriptor.len() < IMAGE_DESCRIPTOR_LEN {
                descriptor.len() as int
            } else {
                IMAGE_DESCRIPTOR_LEN as int
            };
            &&& locked(post)
            &&& refused ==> r == Err::<(), FlashError>(FlashError::OutOfRange) && post == erased
            &&& !refused ==> {
                &&& r is Ok
                &&& inactive(post).subrange(
                    IMAGE_DESCRIPTOR_OFFSET as int,
                    IMAGE_PAYLOAD_OFFSET as int,
                ) == descriptor + Seq::new(
                    (PAGE_SIZE - descriptor.len()) as nat,
                    |i: int| ERASED,
                )
                &&& is.descriptor.take(shown) == descriptor.take(shown)
            }
            &&& is.secure == was.secure
            &&& is.ns == was.ns
            &&& active(post) == active(pre)
            &&& inactive(post).take(IMAGE_REGION_OFFSET as int) == inactive(pre).take(
                IMAGE_REGION_OFFSET as int,
            )
        }),
{
    let from = IMAGE_DESCRIPTOR_OFFSET as int;
    let end = IMAGE_PAYLOAD_OFFSET as int;
    let was = seam_of(erased, calls);
    let is = seam_of(post, calls);
    lemma_image_region_change(pre, erased, IMAGE_REGION_OFFSET as int, BANK_SIZE as int);
    lemma_image_region_change(erased, post, from, end);
    assert(inactive(post).take(IMAGE_REGION_OFFSET as int) =~= inactive(pre).take(
        IMAGE_REGION_OFFSET as int,
    ));
    assert(is.secure =~= was.secure);
    assert(is.ns =~= was.ns);
    if descriptor.len() <= PAGE_SIZE {
        assert(r is Ok);
        let shown = if descriptor.len() < IMAGE_DESCRIPTOR_LEN {
            descriptor.len() as int
        } else {
            IMAGE_DESCRIPTOR_LEN as int
        };
        assert(is.descriptor.take(shown) =~= descriptor.take(shown));
    }
}

/// A change of the image region of the inactive bank leaves the running bank alone.
proof fn lemma_image_region_change(pre: FlashView, post: FlashView, from: int, to: int)
    requires
        pre.bank1.len() == BANK_SIZE,
        pre.bank2.len() == BANK_SIZE,
        only_changed(pre, post, inactive_bank_of(pre.swap()), from, to),
    ensures
        post.swap() == pre.swap(),
        active(post) == active(pre),
        inactive(post).len() == BANK_SIZE,
        forall|i: int|
            0 <= i < BANK_SIZE && !(from <= i < to) ==> #[trigger] inactive(post)[i] == inactive(
                pre,
            )[i],
{
    let bank = inactive_bank_of(pre.swap());
    assert forall|i: int| 0 <= i < BANK_SIZE && !(from <= i < to) implies #[trigger] inactive(
        post,
    )[i] == inactive(pre)[i] by {
        assert(post.bank(bank)[i] == pre.bank(bank)[i]);
    }
}

/// A reset: the banks are kept, and the staged swap state, if there is one, takes
/// effect.
pub open spec fn reset_step(pre: FlashView, post: FlashView) -> bool {
    &&& post.bank1 == pre.bank1
    &&& post.bank2 == pre.bank2
    &&& post.staged is None
    &&& post.swap() == (match pre.staged {
        Some(bank2) => bank2,
        None => pre.swap(),
    })
    &&& sane_posture(post.optr) == sane_posture(pre.optr)
    &&& post.secwm1 == pre.secwm1
    &&& post.secwm2 == pre.secwm2
}

/// The records live in physical Bank 1 and survive a reset, swapped or not.
pub proof fn records_survive_a_reset(
    pre: FlashView,
    post: FlashView,
    before: Seq<SeamCall>,
    after: Seq<SeamCall>,
)
    requires
        reset_step(pre, post),
    ensures
        seam_of(post, after).pending == seam_of(pre, before).pending,
        seam_of(post, after).nvcnt == seam_of(pre, before).nvcnt,
        seam_of(post, after).boot_count == seam_of(pre, before).boot_count,
        seam_of(post, after).outcome == seam_of(pre, before).outcome,
        seam_of(post, after).room == seam_of(pre, before).room,
        seam_of(post, after).ticks == seam_of(pre, before).ticks,
{
}

/// After a reset the bank boots that the swap was armed toward, or the same bank
/// again where none was.
pub proof fn a_reset_boots_the_next_bank(
    pre: FlashView,
    post: FlashView,
    before: Seq<SeamCall>,
    after: Seq<SeamCall>,
)
    requires
        reset_step(pre, post),
    ensures
        seam_of(post, after).running == seam_of(pre, before).next,
        seam_of(post, after).next == seam_of(post, after).running,
{
}

/// The bytes that were written and verified in the inactive bank are the bytes that
/// the boot stage verifies and boots once the swap took effect.
pub proof fn the_swap_boots_the_inactive_bank(
    pre: FlashView,
    post: FlashView,
    seam_calls: Seq<SeamCall>,
    boot_calls: Seq<BootCall>,
)
    requires
        reset_step(pre, post),
        seam_of(pre, seam_calls).next == seam_of(pre, seam_calls).target,
    ensures
        ({
            let seam = seam_of(pre, seam_calls);
            let boot = boot_of(post, boot_calls);
            &&& boot.descriptor == seam.descriptor
            &&& boot.secure == seam.secure
            &&& boot.ns == seam.ns
            &&& boot.running == seam.target
            &&& boot.pending == seam.pending
            &&& boot.nvcnt == seam.nvcnt
            &&& boot.outcome == seam.outcome
        }),
{
}

/// The bank that ran before a swap is the inactive bank after it, untouched.
pub proof fn the_old_bank_becomes_the_inactive_one(
    pre: FlashView,
    post: FlashView,
    seam_calls: Seq<SeamCall>,
    boot_calls: Seq<BootCall>,
)
    requires
        reset_step(pre, post),
        seam_of(pre, seam_calls).next == seam_of(pre, seam_calls).target,
    ensures
        seam_of(post, seam_calls).descriptor == boot_of(pre, boot_calls).descriptor,
        seam_of(post, seam_calls).secure == boot_of(pre, boot_calls).secure,
        seam_of(post, seam_calls).ns == boot_of(pre, boot_calls).ns,
        seam_of(post, seam_calls).target == boot_of(pre, boot_calls).running,
{
}

/// What a driver wrote to the inactive bank is what the driver of the next boot shows
/// to the boot stage, once the swap that it armed took effect, and the records are the
/// same.
pub proof fn the_driver_boots_what_it_wrote<A>(
    before: Stm32FlashSeam<A>,
    after: Stm32FlashSeam<A>,
) where A: FlashAccess
    requires
        reset_step(before.flash(), after.flash()),
        before.seam().next == before.seam().target,
    ensures
        after.boot().descriptor == before.seam().descriptor,
        after.boot().secure == before.seam().secure,
        after.boot().ns == before.seam().ns,
        after.boot().running == before.seam().target,
        after.boot().pending == before.seam().pending,
        after.boot().nvcnt == before.seam().nvcnt,
        after.boot().outcome == before.seam().outcome,
        after.seam().boot_count == before.seam().boot_count,
        after.seam().running == before.seam().target,
{
}

/// A revert restores the old bank: a driver commits, the new bank boots, its driver
/// arms the swap back without a write to the image of the old bank, and the bank that
/// boots then is the old one, byte for byte.
pub proof fn a_revert_restores_the_old_bank<A>(
    committed: Stm32FlashSeam<A>,
    booted: Stm32FlashSeam<A>,
    reverted: Stm32FlashSeam<A>,
    back: Stm32FlashSeam<A>,
) where A: FlashAccess
    requires
        committed.seam().next == committed.seam().target,
        reset_step(committed.flash(), booted.flash()),
        reverted.seam().running == booted.seam().running,
        reverted.seam().descriptor == booted.seam().descriptor,
        reverted.seam().secure == booted.seam().secure,
        reverted.seam().ns == booted.seam().ns,
        reverted.seam().next == reverted.seam().target,
        reset_step(reverted.flash(), back.flash()),
    ensures
        back.boot().running == committed.boot().running,
        back.boot().descriptor == committed.boot().descriptor,
        back.boot().secure == committed.boot().secure,
        back.boot().ns == committed.boot().ns,
{
}

/// Where no swap was armed the boot stage sees the bank that ran before, untouched.
pub proof fn without_a_swap_the_running_bank_boots(
    pre: FlashView,
    post: FlashView,
    before: Seq<BootCall>,
    after: Seq<BootCall>,
)
    requires
        reset_step(pre, post),
        pre.staged is None || pre.staged == Some(swapped(pre.optr)),
    ensures
        boot_of(post, after).descriptor == boot_of(pre, before).descriptor,
        boot_of(post, after).secure == boot_of(pre, before).secure,
        boot_of(post, after).ns == boot_of(pre, before).ns,
        boot_of(post, after).running == boot_of(pre, before).running,
{
}

} // verus!
