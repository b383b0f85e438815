//! What holds of the stores behind the update machine: of every flash seam, and of the
//! model with power cuts.

use vstd::prelude::*;

use crate::update::fidelity::page_written;
use crate::update::fidelity::programmed;
use crate::update::fidelity::rearmed;
use crate::update::fidelity::seam_of;
use crate::update::fidelity::surviving;
use crate::update::fidelity::target_changed;
use crate::update::fidelity::CutAction;
use crate::update::fidelity::CutMode;
use crate::update::fidelity::CutOutcome;
use crate::update::fidelity::CutView;
use crate::update::fidelity::FidelityFlash;
use crate::update::fidelity::FidelitySeCounter;
use crate::update::fidelity::PersistentState;
use crate::update::mock::spends;
use crate::update::mock::MockFlash;
use crate::update::seam::arm_step;
use crate::update::seam::boot_count_step;
use crate::update::seam::erase_step;
use crate::update::seam::erased_range;
use crate::update::seam::nvcnt_bump_step;
use crate::update::seam::other;
use crate::update::seam::outcome_write_step;
use crate::update::seam::overlay;
use crate::update::seam::pending_write_step;
use crate::update::seam::script_step;
use crate::update::seam::write_descriptor_step;
use crate::update::seam::write_page_step;
use crate::update::seam::BankId;
use crate::update::seam::FaultPoint;
use crate::update::seam::FlashError;
use crate::update::seam::FlashSeam;
use crate::update::seam::PageIndex;
use crate::update::seam::PendingFlag;
use crate::update::seam::SeCall;
use crate::update::seam::SeCounterSeam;
use crate::update::seam::SeamCall;
use crate::update::seam::SeamView;
use crate::update::seam::UpdateOutcome;

verus! {

/// There are two banks: the other one is a different one, and its other is the first.
pub proof fn there_are_two_banks(bank: BankId)
    ensures
        other(bank) != bank,
        other(other(bank)) == bank,
{
}

/// Bytes written over others stand where they were written, and no other byte moves.
pub proof fn bytes_written_over_stand_in_place(bytes: Seq<u8>, start: int, data: Seq<u8>, i: int)
    requires
        0 <= start,
        start + data.len() <= bytes.len(),
        0 <= i < bytes.len(),
    ensures
        overlay(bytes, start, data).len() == bytes.len(),
        overlay(bytes, start, data).subrange(start, start + data.len()) == data,
        i < start || i >= start + data.len() ==> overlay(bytes, start, data)[i] == bytes[i],
{
    assert(overlay(bytes, start, data).subrange(start, start + data.len()) =~= data);
}

/// A range is erased where each of its bytes is all ones.
pub proof fn an_erased_range_is_all_ones(bytes: Seq<u8>, from: int, to: int)
    ensures
        erased_range(bytes, from, to) <==> forall|i: int| from <= i < to ==> #[trigger] bytes[i]
            == 0xFF,
{
}

/// The records and the swap of a seam are as they were.
pub open spec fn records_kept(pre: SeamView, post: SeamView) -> bool {
    &&& post.running == pre.running
    &&& post.target == pre.target
    &&& post.next == pre.next
    &&& post.pending == pre.pending
    &&& post.nvcnt == pre.nvcnt
    &&& post.boot_count == pre.boot_count
    &&& post.outcome == pre.outcome
}

/// The image of the inactive bank is as it was.
pub open spec fn image_kept(pre: SeamView, post: SeamView) -> bool {
    &&& post.descriptor == pre.descriptor
    &&& post.secure == pre.secure
    &&& post.ns == pre.ns
}

/// An erase that succeeds leaves every byte of the inactive bank erased. It moves no
/// record, whether it succeeds or not, and the log has it.
pub proof fn an_erase_clears_the_image(pre: SeamView, post: SeamView, r: Result<(), FlashError>)
    requires
        erase_step(pre, post, r),
    ensures
        records_kept(pre, post),
        post.calls == pre.calls.push(SeamCall::Erase(r)),
        post.descriptor.len() == pre.descriptor.len(),
        post.secure.len() == pre.secure.len(),
        post.ns.len() == pre.ns.len(),
        r is Ok ==> {
            &&& forall|i: int|
                0 <= i < post.descriptor.len() ==> #[trigger] post.descriptor[i] == 0xFF
            &&& forall|i: int| 0 <= i < post.secure.len() ==> #[trigger] post.secure[i] == 0xFF
            &&& forall|i: int| 0 <= i < post.ns.len() ==> #[trigger] post.ns[i] == 0xFF
            &&& post.vacant
        },
{
}

/// An erased page that was written reads back the data, and no other byte of the image
/// moved. Whatever the answer, no byte outside of the page and the data, no descriptor
/// and no record moves.
pub proof fn a_written_page_reads_back(
    pre: SeamView,
    page: PageIndex,
    data: Seq<u8>,
    post: SeamView,
    r: Result<(), FlashError>,
    i: int,
)
    requires
        write_page_step(pre, page, data, post, r),
        0 <= i < pre.secure.len() + pre.ns.len(),
    ensures
        ({
            let was = pre.secure + pre.ns;
            let is = post.secure + post.ns;
            let start = 256 * page;
            &&& is.len() == was.len()
            &&& r is Ok ==> start + data.len() <= was.len()
            &&& r is Ok && (forall|k: int|
                start <= k < start + data.len() ==> #[trigger] was[k] == 0xFF) ==> {
                &&& is.subrange(start, start + data.len()) == data
                &&& i < start || i >= start + data.len() ==> is[i] == was[i]
            }
            &&& i < start || i >= start + 256 && i >= start + data.len() ==> is[i] == was[i]
        }),
        post.secure.len() == pre.secure.len(),
        post.descriptor == pre.descriptor,
        records_kept(pre, post),
        post.calls == pre.calls.push(SeamCall::WritePage(page, data, r)),
{
    let was = pre.secure + pre.ns;
    let is = post.secure + post.ns;
    let start = 256 * page;
    assert(pre.payload() == was && post.payload() == is);
    assert(post.payload()[i] == is[i]);
    if r is Ok && (forall|k: int| start <= k < start + data.len() ==> #[trigger] was[k] == 0xFF) {
        assert(erased_range(pre.payload(), start, start + data.len()));
        assert(is == overlay(was, start, data));
        assert(is.subrange(start, start + data.len()) =~= data);
    }
}

/// An erased descriptor store that was written reads back the data, and is erased behind
/// it as before. Whatever the answer, no payload byte and no record moves.
pub proof fn a_written_descriptor_reads_back(
    pre: SeamView,
    data: Seq<u8>,
    post: SeamView,
    r: Result<(), FlashError>,
)
    requires
        write_descriptor_step(pre, data, post, r),
    ensures
        r is Ok && data.len() <= pre.descriptor.len() && (forall|k: int|
            0 <= k < data.len() ==> #[trigger] pre.descriptor[k] == 0xFF) ==> post.descriptor
            == data + pre.descriptor.skip(data.len() as int),
        post.descriptor.len() == pre.descriptor.len(),
        post.secure == pre.secure,
        post.ns == pre.ns,
        records_kept(pre, post),
        post.calls == pre.calls.push(SeamCall::WriteDescriptor(data, r)),
{
    if r is Ok && data.len() <= pre.descriptor.len() && (forall|k: int|
        0 <= k < data.len() ==> #[trigger] pre.descriptor[k] == 0xFF) {
        assert(erased_range(pre.descriptor, 0, data.len() as int));
        assert(post.descriptor =~= data + pre.descriptor.skip(data.len() as int));
    }
}

/// An arm of the swap that succeeds makes the bank boot next. One that fails leaves the
/// running bank alone. No image and no record moves by it.
pub proof fn an_armed_bank_boots_next(
    pre: SeamView,
    bank: BankId,
    point: FaultPoint,
    post: SeamView,
    r: Result<(), FlashError>,
    call: SeamCall,
)
    requires
        arm_step(pre, bank, point, post, r, call),
    ensures
        r is Ok ==> post.next == bank,
        r is Err ==> post.running == pre.running,
        post.next == pre.next || post.next == bank,
        post.running == pre.running || post.running == post.next,
        image_kept(pre, post),
        post.pending == pre.pending,
        post.nvcnt == pre.nvcnt,
        post.boot_count == pre.boot_count,
        post.outcome == pre.outcome,
        post.target == pre.target,
        post.calls == pre.calls.push(call),
{
}

/// The counter takes a value that is not below it, and never falls. A value below it is
/// refused. Nothing else moves.
pub proof fn the_counter_never_falls(
    pre: SeamView,
    value: u32,
    post: SeamView,
    r: Result<(), FlashError>,
)
    requires
        nvcnt_bump_step(pre, value, post, r),
    ensures
        r is Ok ==> post.nvcnt == value && value >= pre.nvcnt,
        value < pre.nvcnt ==> r is Err && post.nvcnt == pre.nvcnt,
        post.nvcnt == pre.nvcnt || post.nvcnt == value && value > pre.nvcnt,
        value == pre.nvcnt ==> post.room == pre.room,
        image_kept(pre, post),
        post.pending == pre.pending,
        post.outcome == pre.outcome,
        post.next == pre.next,
        post.running == pre.running,
        post.boot_count == pre.boot_count,
        post.calls == pre.calls.push(SeamCall::NvcntBump(value, r)),
{
}

/// A record that was written reads back, and its neighbour is as it was. A write that
/// fails may lose records, but never makes one up.
pub proof fn a_written_record_reads_back(
    pre: SeamView,
    flag: PendingFlag,
    outcome: UpdateOutcome,
    post: SeamView,
    r: Result<(), FlashError>,
    call: SeamCall,
)
    ensures
        pending_write_step(pre, flag, post, r) ==> {
            &&& r is Ok ==> post.pending == flag && post.outcome == pre.outcome
            &&& r is Err ==> post.pending == pre.pending || post.pending == flag || post.pending
                == PendingFlag::Clear
            &&& r is Err ==> post.outcome == pre.outcome || post.outcome == UpdateOutcome::Clear
            &&& image_kept(pre, post)
            &&& post.nvcnt == pre.nvcnt && post.boot_count == pre.boot_count
            &&& post.next == pre.next && post.running == pre.running
            &&& post.calls == pre.calls.push(SeamCall::PendingWrite(flag, r))
        },
        outcome_write_step(pre, outcome, post, r, call) ==> {
            &&& r is Ok ==> post.outcome == outcome && post.pending == pre.pending
            &&& r is Err ==> post.outcome == pre.outcome || post.outcome == outcome || post.outcome
                == UpdateOutcome::Clear
            &&& r is Err ==> post.pending == pre.pending || post.pending == PendingFlag::Clear
            &&& image_kept(pre, post)
            &&& post.nvcnt == pre.nvcnt && post.boot_count == pre.boot_count
            &&& post.next == pre.next && post.running == pre.running
            &&& post.calls == pre.calls.push(call)
        },
{
}

/// The boot count rises by one, or stays.
pub proof fn the_boot_count_rises_by_one(
    pre: SeamView,
    post: SeamView,
    r: Result<(), FlashError>,
)
    requires
        boot_count_step(pre, post, r),
    ensures
        r is Ok ==> post.boot_count == pre.boot_count + 1,
        post.boot_count == pre.boot_count || post.boot_count == pre.boot_count + 1,
        image_kept(pre, post),
        post.pending == pre.pending,
        post.outcome == pre.outcome,
        post.nvcnt == pre.nvcnt,
        post.next == pre.next,
        post.running == pre.running,
        post.calls == pre.calls.push(SeamCall::BootCountAdvance(r)),
{
}

/// A scripted fault fails the call that it names, once and without an effect. Any other
/// call fails for its own reason alone, without an effect too, or succeeds.
pub proof fn a_scripted_fault_fires_once(
    pre: SeamView,
    armed: FaultPoint,
    point: FaultPoint,
    fault: FlashError,
    own: Option<FlashError>,
    post: SeamView,
    r: Result<(), FlashError>,
    call: SeamCall,
)
    requires
        script_step(pre, point, fault, own, post, r, call),
        pre.script == Some(armed),
    ensures
        armed == point ==> {
            &&& r == Err::<(), FlashError>(fault)
            &&& post.script == Some(FaultPoint::Off)
        },
        armed != point ==> {
            &&& post.script == pre.script
            &&& own matches Some(e) ==> r == Err::<(), FlashError>(e)
            &&& own is None ==> r is Ok
        },
        r is Err ==> image_kept(pre, post) && records_kept(pre, post),
{
}

/// What a script owes for a page: more than a page, or past the end, fails for its own
/// reason; anything else that is not scripted to fail is written.
pub proof fn a_scripted_page_write_fails_for_its_reasons(
    pre: SeamView,
    page: PageIndex,
    data: Seq<u8>,
    post: SeamView,
    r: Result<(), FlashError>,
)
    requires
        write_page_step(pre, page, data, post, r),
        pre.script is Some,
        pre.script != Some(FaultPoint::WritePage),
    ensures
        data.len() > 256 ==> r == Err::<(), FlashError>(FlashError::WriteFailed),
        data.len() <= 256 && 256 * page + data.len() > pre.secure.len() + pre.ns.len() ==> r
            == Err::<(), FlashError>(FlashError::OutOfRange),
        data.len() <= 256 && 256 * page + data.len() <= pre.secure.len() + pre.ns.len() ==> r is Ok,
{
    assert(pre.payload().len() == pre.secure.len() + pre.ns.len());
}

/// What a script owes for the other calls: without a fault they succeed, unless the
/// arguments are at fault.
pub proof fn a_script_without_faults_fails_nothing(
    pre: SeamView,
    data: Seq<u8>,
    bank: BankId,
    value: u32,
    flag: PendingFlag,
    outcome: UpdateOutcome,
    post: SeamView,
    r: Result<(), FlashError>,
    call: SeamCall,
)
    requires
        pre.script == Some(FaultPoint::Off),
    ensures
        erase_step(pre, post, r) ==> r is Ok,
        write_descriptor_step(pre, data, post, r) ==> (r is Ok <==> data.len()
            <= pre.descriptor.len()),
        arm_step(pre, bank, FaultPoint::Commit, post, r, call) ==> r is Ok,
        arm_step(pre, bank, FaultPoint::Revert, post, r, call) ==> r is Ok,
        nvcnt_bump_step(pre, value, post, r) ==> (r is Ok <==> value >= pre.nvcnt),
        pending_write_step(pre, flag, post, r) ==> r is Ok,
        boot_count_step(pre, post, r) ==> (r is Ok <==> pre.boot_count < u32::MAX),
        outcome_write_step(pre, outcome, post, r, call) ==> r is Ok,
{
}

/// An armed cut lets exactly as many changes land as it counts, and decides the next
/// one by its mode. Without a cut every change lands, and behind one none does.
pub proof fn a_cut_counts_down(cut: CutView, n: u32)
    ensures
        cut.tripped ==> cut.action() == CutAction::Fault && !cut.lands() && cut.stepped() == cut,
        !cut.tripped && cut.countdown is None ==> cut.action() == CutAction::Proceed && cut.lands()
            && cut.stepped() == cut,
        !cut.tripped && cut.countdown == Some(n) && n > 0 ==> {
            &&& cut.action() == CutAction::Proceed && cut.lands()
            &&& cut.stepped() == (CutView { countdown: Some((n - 1) as u32), ..cut })
        },
        !cut.tripped && cut.countdown == Some(0u32) ==> {
            &&& cut.mode == CutMode::BeforeMutation ==> cut.action() == CutAction::Fault
                && !cut.lands()
            &&& cut.mode == CutMode::AfterMutation ==> cut.action() == CutAction::MutateThenStop
                && cut.lands()
            &&& cut.mode == CutMode::TornWrite ==> cut.action() == CutAction::Tear && !cut.lands()
            &&& cut.stepped().tripped && cut.stepped().outcome == CutOutcome::Fired
            &&& cut.stepped().countdown is None
        },
{
}

/// A program only clears bits: an erased byte takes the data, a cleared bit stays
/// cleared, and no other byte moves.
pub proof fn a_program_only_clears_bits(bytes: Seq<u8>, start: int, data: Seq<u8>, i: int)
    requires
        0 <= start,
        start + data.len() <= bytes.len(),
        0 <= i < bytes.len(),
    ensures
        programmed(bytes, start, data).len() == bytes.len(),
        start <= i < start + data.len() && bytes[i] == 0xFF ==> programmed(bytes, start, data)[i]
            == data[i - start],
        start <= i < start + data.len() ==> programmed(bytes, start, data)[i] & !bytes[i] == 0,
        start <= i < start + data.len() ==> programmed(bytes, start, data)[i] == bytes[i]
            & data[i - start],
        i < start || i >= start + data.len() ==> programmed(bytes, start, data)[i] == bytes[i],
{
    if start <= i < start + data.len() {
        let byte = bytes[i];
        let value = data[i - start];
        assert(0xFFu8 & value == value) by (bit_vector);
        assert((byte & value) & !byte == 0) by (bit_vector);
    }
}

/// What a page write leaves under a cut: all of the data, nothing of it, or a first
/// quad-word of poison.
pub proof fn a_cut_page_write_is_all_nothing_or_torn(
    bytes: Seq<u8>,
    start: int,
    data: Seq<u8>,
    i: int,
)
    requires
        0 <= start,
        start + data.len() <= bytes.len(),
        0 <= i < bytes.len(),
    ensures
        page_written(bytes, start, data, CutAction::Fault) == bytes,
        page_written(bytes, start, data, CutAction::Proceed) == programmed(bytes, start, data),
        page_written(bytes, start, data, CutAction::MutateThenStop) == programmed(
            bytes,
            start,
            data,
        ),
        page_written(bytes, start, data, CutAction::Tear).len() == bytes.len(),
        page_written(bytes, start, data, CutAction::Tear)[i] == (if start <= i < start + 16 {
            0xA5u8
        } else {
            bytes[i]
        }),
{
}

/// What a reboot takes over: the state, and a cut that has not fired. A cut that fired
/// is gone.
pub proof fn a_reboot_takes_over_the_state(state: PersistentState, cut: CutView)
    ensures
        surviving(state, cut) == (PersistentState {
            cut_countdown: surviving(state, cut).cut_countdown,
            cut_mode: surviving(state, cut).cut_mode,
            ..state
        }),
        cut.tripped ==> surviving(state, cut).cut_countdown is None,
        !cut.tripped ==> surviving(state, cut).cut_countdown == cut.countdown && surviving(
            state,
            cut,
        ).cut_mode == cut.mode,
        rearmed(state).countdown == state.cut_countdown,
        rearmed(state).mode == state.cut_mode,
        rearmed(state).outcome == CutOutcome::NotReached,
        !rearmed(state).tripped,
{
}

/// What the model shows: the stores of the inactive bank, cut into two bands of 2048
/// bytes, and the records as they are. A staged swap decides what boots next.
pub proof fn the_model_shows_its_inactive_bank(state: PersistentState, calls: Seq<SeamCall>)
    ensures
        ({
            let seam = seam_of(state, calls);
            let bytes = if state.target == BankId::Bank1 {
                state.bank_a@
            } else {
                state.bank_b@
            };
            &&& seam.secure == bytes.subrange(0, 2048)
            &&& seam.ns == bytes.subrange(2048, 4096)
            &&& seam.descriptor == (if state.target == BankId::Bank1 {
                state.descriptor_a@
            } else {
                state.descriptor_b@
            })
            &&& seam.running == state.running
            &&& seam.target == state.target
            &&& state.staged_swap is None ==> seam.next == state.running
            &&& state.staged_swap matches Some(bank) ==> seam.next == bank
            &&& seam.pending == state.pending
            &&& seam.nvcnt == state.nvcnt
            &&& seam.boot_count == state.boot_count
            &&& seam.outcome == state.outcome
            &&& seam.ticks <==> state.boot_count < 0xFFFF_FFFF
            &&& seam.room && seam.vacant
            &&& seam.script is None
            &&& seam.calls == calls
        }),
{
}

/// A change of the inactive bank of the model moves nothing else: not the running bank,
/// not a record, not the staged swap.
pub proof fn a_change_of_the_target_moves_nothing_else(
    pre: PersistentState,
    bank: Seq<u8>,
    descriptor: Seq<u8>,
    cut: CutView,
    post: PersistentState,
)
    requires
        target_changed(pre, bank, descriptor, cut, post),
    ensures
        pre.target == BankId::Bank1 ==> {
            &&& post.bank_a@ == bank && post.descriptor_a@ == descriptor
            &&& post.bank_b@ == pre.bank_b@ && post.descriptor_b@ == pre.descriptor_b@
        },
        pre.target == BankId::Bank2 ==> {
            &&& post.bank_b@ == bank && post.descriptor_b@ == descriptor
            &&& post.bank_a@ == pre.bank_a@ && post.descriptor_a@ == pre.descriptor_a@
        },
        post.nvcnt == pre.nvcnt,
        post.pending == pre.pending,
        post.outcome == pre.outcome,
        post.boot_count == pre.boot_count,
        post.running == pre.running,
        post.target == pre.target,
        post.staged_swap == pre.staged_swap,
        post.cut_countdown == cut.countdown,
        post.cut_mode == cut.mode,
{
}

/// A tick counts as spent exactly where a spend was answered with success.
pub proof fn a_tick_is_spent_by_a_successful_spend(calls: Seq<SeCall>, call: SeCall)
    ensures
        !spends(Seq::<SeCall>::empty()),
        call == SeCall::Update(Ok(())) ==> spends(calls.push(call)),
        call != SeCall::Update(Ok(())) ==> spends(calls.push(call)) == spends(calls),
{
    crate::update::mock::lemma_spends(calls, call);
}

/// When the stores owe success: the model with no cut to come, the other one with no
/// fault in its script, the counter whose channel does not drop.
pub proof fn when_a_store_owes_success(
    model: FidelityFlash,
    mock: MockFlash,
    counter: FidelitySeCounter,
)
    ensures
        model.nominal() <==> model.cut().countdown is None && !model.cut().tripped,
        model.wf(),
        model.seam() == seam_of(model.state(), model.answers()),
        mock.nominal() <==> mock.seam().script == Some(FaultPoint::Off),
        counter.available() <==> !counter.drops(),
        mock.committed_view() <==> mock.seam().calls.contains(SeamCall::CommitSwap(Ok(()))),
        mock.reverted_view() <==> mock.seam().calls.contains(SeamCall::RevertSwap(Ok(()))),
{
}

/// What a seam shows is well formed where its descriptor holds a header and a signature,
/// and its payload is made of whole pages that an index can name.
pub proof fn a_seam_is_well_formed(seam: SeamView)
    ensures
        seam.wf() <==> {
            &&& seam.descriptor.len() >= 88
            &&& (seam.secure.len() + seam.ns.len()) % 256 == 0
            &&& seam.secure.len() + seam.ns.len() <= 0x1_0000 * 256
        },
        seam.payload() == seam.secure + seam.ns,
{
}

} // verus!
