//! The dual-bank A/B update state machine for the device's own firmware.
//!
//! The machine streams a signed image through the flash seam into the inactive
//! bank, verifies what the bank then holds, runs the two anti-rollback gates,
//! commits the swap, and confirms or reverts on the first boot of the new bank.
//!
//! # The file is de-interleaved
//!
//! The file is `header || payload || signature`. Header and signature land in the
//! descriptor of the inactive bank, the payload lands page-aligned in the payload
//! band. The descriptor is written once, when the image is about to be judged.
//!
//! # Power loss
//!
//! A call of the seam that fails may have been cut anywhere. Whatever the cut, the
//! records stay ordered: the confirm-owed record is written before the swap is
//! armed, and the anti-rollback counter rises only after the record was cleared.

use vstd::prelude::*;
use vstd::slice::slice_subrange;

use crate::image::error::VerifyError;
use crate::image::format::HEADER_LEN;
use crate::image::format::SIG_LEN;
use crate::image::segments::concat;
use crate::image::segments::lemma_concat_four;
use crate::image::verify::image_check;
use crate::image::verify::verify_image;
use crate::image::verify::HeaderFields;
use crate::image::verify::RootKey;
use crate::update::seam::arm_step;
use crate::update::seam::boot_count_step;
use crate::update::seam::erase_step;
use crate::update::seam::erased_range;
use crate::update::seam::nvcnt_bump_step;
use crate::update::seam::other;
use crate::update::seam::overlay;
use crate::update::seam::pending_write_step;
use crate::update::seam::write_over;
use crate::update::seam::BankId;
use crate::update::seam::FaultPoint;
use crate::update::seam::FlashError;
use crate::update::seam::FlashSeam;
use crate::update::seam::PageIndex;
use crate::update::seam::PendingFlag;
use crate::update::seam::SeCall;
use crate::update::seam::SeCounterError;
use crate::update::seam::SeCounterSeam;
use crate::update::seam::SeView;
use crate::update::seam::SeamCall;
use crate::update::seam::SeamView;
use crate::update::seam::ERASED;
use crate::update::seam::PAGE_LEN;

verus! {

/// The number of self-confirm boots the new bank must reach.
pub const CONFIRM_BOOTS: u32 = 1;

/// The value the secure-element counter counts down from. The more ticks are
/// spent, the higher the anti-rollback floor `SE_COUNTER_ORIGIN - value`.
pub const SE_COUNTER_ORIGIN: u32 = 0xFFFF_FFFF;

/// The bytes of a file beside its payload: a header and a signature.
pub const FRAME_LEN: usize = 88;

/// The update state.
#[derive(Debug, Clone, Copy, PartialEq, Eq, Structural)]
pub enum UpdateState {
    /// No update in flight. The running bank is the confirmed bank.
    Idle,
    /// Streaming image bytes into the erased inactive bank.
    ReceivingChunks,
    /// All bytes written, running verify and the two anti-rollback gates.
    VerifyingImage,
    /// A chunk or an image was refused. The inactive bank was cleared.
    Rejected,
    /// Verified and accepted. The swap has not been armed yet.
    PendingCommit,
    /// The swap is armed. The new bank boots after reset.
    Committed,
    /// First boot of the new bank.
    BootingNew,
    /// Waiting for the new bank to confirm itself.
    AwaitingConfirm,
    /// A confirm step has begun. Revert is no longer reachable from here.
    Confirming,
    /// The new bank confirmed.
    Confirmed,
    /// The swap was reverted to the old bank.
    Reverted,
}

/// Why a transition failed.
#[derive(Debug, Clone, Copy, PartialEq, Eq, Structural)]
pub enum UpdateError {
    /// A method was called in a state that does not allow it.
    BadState,
    /// A chunk is out of order, or a length outside the declared or stored size.
    ChunkOutOfRange,
    /// Fewer bytes arrived than were declared.
    Incomplete,
    /// The image failed signature or format verification.
    VerifyFailed(VerifyError),
    /// The image's security counter is below a stored anti-rollback floor.
    Rollback,
    /// A flash seam call failed.
    Flash(FlashError),
    /// A secure-element counter call failed.
    SeCounter(SeCounterError),
}

impl From<FlashError> for UpdateError {
    fn from(error: FlashError) -> (r: UpdateError) {
        UpdateError::Flash(error)
    }
}

impl vstd::std_specs::convert::FromSpecImpl<FlashError> for UpdateError {
    open spec fn obeys_from_spec() -> bool {
        true
    }

    open spec fn from_spec(error: FlashError) -> UpdateError {
        UpdateError::Flash(error)
    }
}

impl From<SeCounterError> for UpdateError {
    fn from(error: SeCounterError) -> (r: UpdateError) {
        UpdateError::SeCounter(error)
    }
}

impl vstd::std_specs::convert::FromSpecImpl<SeCounterError> for UpdateError {
    open spec fn obeys_from_spec() -> bool {
        true
    }

    open spec fn from_spec(error: SeCounterError) -> UpdateError {
        UpdateError::SeCounter(error)
    }
}

/// The payload length of a file of `total` bytes.
pub open spec fn payload_len_of(total: int) -> int {
    if total >= FRAME_LEN {
        total - FRAME_LEN
    } else {
        0
    }
}

/// The number of payload bytes among the first `written` bytes of the file.
pub open spec fn payload_received(written: int, total: int) -> int {
    if written <= HEADER_LEN {
        0
    } else if written - HEADER_LEN < payload_len_of(total) {
        written - HEADER_LEN
    } else {
        payload_len_of(total)
    }
}

/// The payload bytes that have been flushed: the full pages.
pub open spec fn payload_flushed(written: int, total: int) -> int {
    (payload_received(written, total) / PAGE_LEN as int) * PAGE_LEN
}

/// The file that a bank holds for a payload of `payload_len` bytes: the header at
/// the front of the descriptor, the payload, the signature behind the header.
pub open spec fn stored_file(seam: SeamView, payload_len: int) -> Seq<u8> {
    seam.descriptor.take(HEADER_LEN as int) + seam.payload().take(payload_len)
        + seam.descriptor.subrange(HEADER_LEN as int, FRAME_LEN as int)
}

/// The inactive bank is erased: descriptor and payload.
pub open spec fn bank_erased(seam: SeamView) -> bool {
    &&& erased_range(seam.descriptor, 0, seam.descriptor.len() as int)
    &&& erased_range(seam.payload(), 0, seam.payload().len() as int)
}

/// Everything but the inactive bank is untouched.
pub open spec fn only_bank_changed(pre: SeamView, post: SeamView) -> bool {
    &&& post.running == pre.running
    &&& post.target == pre.target
    &&& post.next == pre.next
    &&& post.pending == pre.pending
    &&& post.nvcnt == pre.nvcnt
    &&& post.boot_count == pre.boot_count
    &&& post.outcome == pre.outcome
    &&& post.room == pre.room
    &&& post.ticks == pre.ticks
    &&& post.descriptor.len() == pre.descriptor.len()
    &&& post.secure.len() == pre.secure.len()
    &&& post.ns.len() == pre.ns.len()
}

/// The bank contents, the counters and the target are untouched.
pub open spec fn bank_and_counters_kept(pre: SeamView, post: SeamView) -> bool {
    &&& post.descriptor == pre.descriptor
    &&& post.secure == pre.secure
    &&& post.ns == pre.ns
    &&& post.target == pre.target
    &&& post.nvcnt == pre.nvcnt
    &&& post.boot_count == pre.boot_count
    &&& post.room == pre.room
    &&& post.ticks == pre.ticks
    &&& post.vacant == pre.vacant
}

/// `post` lists the calls of `pre` and then some more.
pub open spec fn more_calls(pre: SeamView, post: SeamView) -> bool {
    &&& pre.calls.len() <= post.calls.len()
    &&& post.calls.take(pre.calls.len() as int) == pre.calls
}

/// The call is a write of a payload page that succeeded.
pub open spec fn is_page_write(call: SeamCall) -> bool {
    call matches SeamCall::WritePage(_, _, r) && r is Ok
}

/// The flash error a call was answered with, if any.
pub open spec fn failure(call: SeamCall) -> Option<FlashError> {
    match call {
        SeamCall::Erase(r) => r.err(),
        SeamCall::WritePage(_, _, r) => r.err(),
        SeamCall::WriteDescriptor(_, r) => r.err(),
        SeamCall::RunningBank(r) => r.err(),
        SeamCall::TargetBank(r) => r.err(),
        SeamCall::CommitSwap(r) => r.err(),
        SeamCall::RevertSwap(r) => r.err(),
        SeamCall::NvcntRead(r) => r.err(),
        SeamCall::NvcntBump(_, r) => r.err(),
        SeamCall::PendingRead(r) => r.err(),
        SeamCall::PendingWrite(_, r) => r.err(),
        SeamCall::BootCountRead(r) => r.err(),
        SeamCall::BootCountAdvance(r) => r.err(),
        SeamCall::OutcomeRead(r) => r.err(),
        SeamCall::OutcomeWrite(_, r) => r.err(),
        SeamCall::OutcomeClear(r) => r.err(),
    }
}

/// The verdict on a received file: complete, authentic, and not below either
/// anti-rollback floor. Equal to a floor is accepted.
pub open spec fn accept_verdict(
    file: Seq<u8>,
    declared: int,
    key: Seq<u8>,
    nvcnt: u32,
    se_value: u32,
) -> Result<(), UpdateError> {
    if file.len() != declared {
        Err(UpdateError::Incomplete)
    } else {
        match image_check(file, key) {
            Err(e) => Err(UpdateError::VerifyFailed(e)),
            Ok(fields) => gate_verdict(fields.security_counter, nvcnt, se_value),
        }
    }
}

/// The verdict of the two anti-rollback gates on an authentic counter.
pub open spec fn gate_verdict(counter: u32, nvcnt: u32, se_value: u32) -> Result<(), UpdateError> {
    if counter < nvcnt || counter < SE_COUNTER_ORIGIN - se_value {
        Err(UpdateError::Rollback)
    } else {
        Ok(())
    }
}

/// Runs the two anti-rollback gates on an authentic security counter.
pub fn check_gates(counter: u32, nvcnt: u32, se_value: u32) -> (r: Result<(), UpdateError>)
    ensures
        r == gate_verdict(counter, nvcnt, se_value),
{
    if counter < nvcnt {
        return Err(UpdateError::Rollback);
    }
    let floor: u32 = SE_COUNTER_ORIGIN.saturating_sub(se_value);
    if counter < floor {
        return Err(UpdateError::Rollback);
    }
    Ok(())
}

/// What an update machine shows.
#[verifier::ext_equal]
pub ghost struct UpdateView {
    /// The current state.
    pub mode: UpdateState,
    /// The encoding of the root key.
    pub key: Seq<u8>,
    /// The declared length of the file in flight.
    pub declared: int,
    /// The bytes of the file in flight received so far.
    pub received: Seq<u8>,
    /// What the flash seam shows.
    pub seam: SeamView,
    /// What the secure-element counter shows.
    pub se: SeView,
}

/// The inactive bank holds the full payload pages received so far, and is erased
/// beyond them.
pub open spec fn streamed(view: UpdateView) -> bool {
    let flushed = payload_flushed(view.received.len() as int, view.declared);
    let payload = view.seam.payload();
    &&& erased_range(view.seam.descriptor, 0, view.seam.descriptor.len() as int)
    &&& forall|i: int| 0 <= i < flushed ==> #[trigger] payload[i] == view.received[HEADER_LEN + i]
    &&& erased_range(payload, flushed, payload.len() as int)
}

/// A refused file is gone: the bank was cleared, best effort, and nothing is in
/// flight.
pub open spec fn dropped(post: UpdateView) -> bool {
    let last = post.seam.calls.last();
    &&& post.declared == 0
    &&& post.received == Seq::<u8>::empty()
    &&& post.seam.calls.len() > 0
    &&& last matches SeamCall::Erase(r) && (r is Ok ==> bank_erased(post.seam))
}

/// A refused transition: nothing changes.
pub open spec fn refused<T>(
    pre: UpdateView,
    post: UpdateView,
    r: Result<T, UpdateError>,
    error: UpdateError,
) -> bool {
    r == Err::<T, UpdateError>(error) && post == pre
}

/// The start of an update for a file of `total` bytes.
pub open spec fn begin_step(
    pre: UpdateView,
    total: int,
    post: UpdateView,
    r: Result<(), UpdateError>,
) -> bool {
    if pre.mode != UpdateState::Idle {
        refused(pre, post, r, UpdateError::BadState)
    } else if total > FRAME_LEN + pre.seam.payload().len() {
        refused(pre, post, r, UpdateError::ChunkOutOfRange)
    } else {
        &&& only_bank_changed(pre.seam, post.seam)
        &&& post.key == pre.key && post.se == pre.se
        &&& match r {
            Ok(()) => {
                &&& erase_step(pre.seam, post.seam, Ok(()))
                &&& post.mode == UpdateState::ReceivingChunks
                &&& post.declared == total
                &&& post.received == Seq::<u8>::empty()
                &&& bank_erased(post.seam)
            },
            Err(e) => {
                &&& e matches UpdateError::Flash(f) && erase_step(pre.seam, post.seam, Err(f))
                &&& post.mode == UpdateState::Idle
                &&& post.declared == pre.declared
                &&& post.received == pre.received
            },
        }
    }
}

/// The chunk continues the received bytes and stays inside the declared length.
pub open spec fn in_order(pre: UpdateView, offset: int, data: Seq<u8>) -> bool {
    offset == pre.received.len() && offset + data.len() <= pre.declared
}

/// A chunk of `len` bytes completes a payload page.
pub open spec fn flushes(view: UpdateView, len: int) -> bool {
    let before = view.received.len() as int;
    payload_flushed(before + len, view.declared) > payload_flushed(before, view.declared)
}

/// A scripted fault has hit a write: it was armed for one, and is spent.
pub open spec fn write_fault_fired(pre: SeamView, post: SeamView, error: FlashError) -> bool {
    match pre.script {
        Some(armed) => {
            &&& armed == FaultPoint::WritePage
            &&& error == FlashError::WriteFailed
            &&& post.script == Some(FaultPoint::Off)
        },
        None => post.script is None,
    }
}

/// The receipt of one chunk.
pub open spec fn receive_step(
    pre: UpdateView,
    offset: int,
    data: Seq<u8>,
    post: UpdateView,
    r: Result<(), UpdateError>,
) -> bool {
    if pre.mode != UpdateState::ReceivingChunks {
        refused(pre, post, r, UpdateError::BadState)
    } else {
        let before = pre.seam.calls;
        let after = post.seam.calls;
        &&& only_bank_changed(pre.seam, post.seam)
        &&& more_calls(pre.seam, post.seam)
        &&& post.key == pre.key && post.se == pre.se
        &&& match r {
            Ok(()) => {
                &&& in_order(pre, offset, data)
                &&& post.mode == UpdateState::ReceivingChunks
                &&& post.declared == pre.declared
                &&& post.received == pre.received + data
                &&& streamed(post)
                &&& post.seam.script == pre.seam.script
                &&& pre.seam.script == Some(FaultPoint::WritePage) ==> !flushes(
                    pre,
                    data.len() as int,
                )
                &&& forall|k: int| before.len() <= k < after.len() ==> is_page_write(#[trigger] after[k])
            },
            Err(e) => {
                &&& post.mode == UpdateState::Rejected
                &&& dropped(post)
                &&& if in_order(pre, offset, data) {
                    &&& after.len() >= before.len() + 2
                    &&& after[after.len() - 2] is WritePage
                    &&& forall|k: int|
                        before.len() <= k < after.len() - 2 ==> is_page_write(#[trigger] after[k])
                    &&& flushes(pre, data.len() as int)
                    &&& e matches UpdateError::Flash(f) && failure(after[after.len() - 2]) == Some(f)
                        && write_fault_fired(pre.seam, post.seam, f)
                } else {
                    &&& e == UpdateError::ChunkOutOfRange
                    &&& after.last() matches SeamCall::Erase(a) && erase_step(pre.seam, post.seam, a)
                }
            },
        }
    }
}

/// The calls of an acceptance: the partial trailing page, if there is one, the read
/// of the counter, and the descriptor.
pub open spec fn accept_calls(
    before: Seq<SeamCall>,
    file: Seq<u8>,
    nvcnt: u32,
    after: Seq<SeamCall>,
) -> bool {
    let flushed = after.take(after.len() - 2);
    let frame = file.take(HEADER_LEN as int) + file.skip(file.len() - SIG_LEN);
    &&& after.len() >= before.len() + 2
    &&& flushed == before || flushed == before.push(flushed.last()) && is_page_write(flushed.last())
    &&& after == flushed.push(SeamCall::NvcntRead(Ok(nvcnt))).push(
        SeamCall::WriteDescriptor(frame, Ok(())),
    )
}

/// At most the partial trailing page was written.
pub open spec fn at_most_a_page(before: Seq<SeamCall>, after: Seq<SeamCall>) -> bool {
    after == before || after == before.push(after.last()) && after.last() is WritePage
}

/// The calls up to a refusal: the partial trailing page, the read of the counter and
/// the descriptor, as far as it went.
pub open spec fn refusal_calls(before: Seq<SeamCall>, after: Seq<SeamCall>) -> bool {
    let read = after.drop_last();
    ||| at_most_a_page(before, after)
    ||| after.last() is NvcntRead && at_most_a_page(before, read)
    ||| after.last() is WriteDescriptor && read.last() is NvcntRead && at_most_a_page(
        before,
        read.drop_last(),
    )
}

/// The fault to come once the bank of a refused file was cleared.
pub open spec fn after_cleanup(script: Option<FaultPoint>) -> Option<FaultPoint> {
    if script == Some(FaultPoint::Erase) {
        Some(FaultPoint::Off)
    } else {
        script
    }
}

/// The verdict on the received file.
pub open spec fn accept_step(pre: UpdateView, post: UpdateView, r: Result<(), UpdateError>) -> bool {
    if pre.mode != UpdateState::ReceivingChunks {
        refused(pre, post, r, UpdateError::BadState)
    } else {
        let before = pre.seam.calls;
        let after = post.seam.calls;
        let file = pre.received;
        let verdict = accept_verdict(file, pre.declared, pre.key, pre.seam.nvcnt, pre.se.value);
        let gated = SeView {
            calls: pre.se.calls.push(SeCall::Read(Ok(pre.se.value))),
            ..pre.se
        };
        &&& only_bank_changed(pre.seam, post.seam)
        &&& more_calls(pre.seam, post.seam)
        &&& post.key == pre.key
        &&& match r {
            Ok(()) => {
                &&& verdict is Ok
                &&& post.seam.script == pre.seam.script
                &&& pre.seam.script != Some(FaultPoint::WritePage)
                &&& post.se == gated
                &&& post.mode == UpdateState::PendingCommit
                &&& post.declared == pre.declared
                &&& post.received == file
                &&& stored_file(post.seam, file.len() - FRAME_LEN) == file
                &&& accept_calls(before, file, pre.seam.nvcnt, after)
            },
            Err(e) => {
                &&& post.mode == UpdateState::Idle
                &&& dropped(post)
                &&& refusal_calls(before, after.drop_last())
                &&& !(e is Flash) ==> post.seam.script == after_cleanup(pre.seam.script)
                &&& match e {
                    UpdateError::Flash(f) => {
                        &&& after.len() >= before.len() + 2
                        &&& failure(after[after.len() - 2]) == Some(f)
                        &&& write_fault_fired(pre.seam, post.seam, f)
                        &&& post.se == pre.se || post.se == gated
                    },
                    UpdateError::SeCounter(f) => post.se == (SeView {
                        calls: pre.se.calls.push(SeCall::Read(Err(f))),
                        ..pre.se
                    }),
                    UpdateError::Incomplete => {
                        verdict == Err::<(), UpdateError>(e) && post.se == pre.se
                    },
                    _ => verdict == Err::<(), UpdateError>(e) && post.se == gated,
                }
            },
        }
    }
}

/// The calls of a commit up to a recorded target.
pub open spec fn commit_prefix(pre: SeamView) -> Seq<SeamCall> {
    pre.calls.push(SeamCall::TargetBank(Ok(pre.target))).push(
        SeamCall::PendingWrite(PendingFlag::Armed(pre.target), Ok(())),
    )
}

/// The commit of an accepted file: the record first, then the swap.
pub open spec fn commit_step(pre: UpdateView, post: UpdateView, r: Result<(), UpdateError>) -> bool {
    if pre.mode != UpdateState::PendingCommit {
        refused(pre, post, r, UpdateError::BadState)
    } else {
        let target = PendingFlag::Armed(pre.seam.target);
        let named = pre.seam.answered(SeamCall::TargetBank(Ok(pre.seam.target)));
        let recorded = (SeamView { pending: target, ..named }).answered(
            SeamCall::PendingWrite(target, Ok(())),
        );
        &&& post == (UpdateView { mode: post.mode, seam: post.seam, ..pre })
        &&& bank_and_counters_kept(pre.seam, post.seam)
        &&& match r {
            Ok(()) => {
                &&& post.mode == UpdateState::Committed
                &&& post.seam.calls == commit_prefix(pre.seam).push(SeamCall::CommitSwap(Ok(())))
                &&& post.seam.next == pre.seam.target
                &&& post.seam.pending == target
                &&& post.seam.outcome == pre.seam.outcome
                &&& post.seam.running == pre.seam.running || post.seam.running == pre.seam.target
                &&& post.seam.script == pre.seam.script
                &&& pre.seam.script != Some(FaultPoint::PendingWrite)
                &&& pre.seam.script != Some(FaultPoint::Commit)
            },
            Err(e) => {
                &&& post.mode == UpdateState::PendingCommit
                &&& post.seam.running == pre.seam.running
                &&& e matches UpdateError::Flash(f) && {
                    ||| pre.seam.script is None && post.seam == pre.seam.answered(
                        SeamCall::TargetBank(Err(f)),
                    )
                    ||| pending_write_step(named, target, post.seam, Err(f))
                    ||| {
                        let undo = post.seam.calls.last();
                        &&& post.seam.calls == commit_prefix(pre.seam).push(
                            SeamCall::CommitSwap(Err(f)),
                        ).push(undo)
                        &&& undo matches SeamCall::PendingWrite(flag, u) && flag == PendingFlag::Clear
                            && (u is Ok ==> post.seam.pending == PendingFlag::Clear)
                        &&& post.seam.next == pre.seam.next || post.seam.next == pre.seam.target
                        &&& match pre.seam.script {
                            Some(armed) => {
                                &&& armed == FaultPoint::Commit && f == FlashError::Hardware
                                &&& post.seam == (SeamView {
                                    pending: PendingFlag::Clear,
                                    script: Some(FaultPoint::Off),
                                    calls: post.seam.calls,
                                    ..recorded
                                })
                            },
                            None => post.seam.script is None,
                        }
                    }
                }
            },
        }
    }
}

/// The first look at the records after a boot.
pub open spec fn boot_step(
    pre: UpdateView,
    post: UpdateView,
    r: Result<UpdateState, UpdateError>,
) -> bool {
    let read = pre.seam.answered(SeamCall::PendingRead(Ok(pre.seam.pending)));
    let ran = read.answered(SeamCall::RunningBank(Ok(pre.seam.running)));
    let armed = pre.seam.pending is Armed;
    let effective = pre.seam.pending == PendingFlag::Armed(pre.seam.running);
    &&& post == (UpdateView { mode: post.mode, seam: post.seam, ..pre })
    &&& match r {
        Ok(mode) => {
            &&& mode == post.mode
            &&& if effective {
                &&& mode == UpdateState::AwaitingConfirm
                &&& pre.seam.boot_count < u32::MAX
                &&& boot_count_step(ran, post.seam, Ok(()))
                &&& post.seam == (SeamView {
                    boot_count: (pre.seam.boot_count + 1) as u32,
                    ticks: post.seam.ticks,
                    ..ran
                }).answered(SeamCall::BootCountAdvance(Ok(())))
            } else if armed {
                &&& mode == UpdateState::Idle
                &&& pending_write_step(ran, PendingFlag::Clear, post.seam, Ok(()))
                &&& post.seam == (SeamView { pending: PendingFlag::Clear, ..ran }).answered(
                    SeamCall::PendingWrite(PendingFlag::Clear, Ok(())),
                )
            } else {
                mode == UpdateState::Idle && post.seam == read
            }
        },
        Err(e) => e matches UpdateError::Flash(f) && {
            ||| pre.seam.script is None && post.mode == pre.mode && post.seam == pre.seam.answered(
                SeamCall::PendingRead(Err(f)),
            )
            ||| pre.seam.script is None && armed && post.mode == pre.mode && post.seam == read.answered(
                SeamCall::RunningBank(Err(f)),
            )
            ||| {
                &&& effective && post.mode == UpdateState::BootingNew
                &&& boot_count_step(ran, post.seam, Err(f))
            }
            ||| {
                &&& armed && !effective && post.mode == pre.mode
                &&& pending_write_step(ran, PendingFlag::Clear, post.seam, Err(f))
            }
        },
    }
}

/// The confirmation of the new bank with the counter of its image: the tick, the
/// record, and last the counter.
pub open spec fn confirm_step(
    pre: UpdateView,
    counter: u32,
    post: UpdateView,
    r: Result<(), UpdateError>,
) -> bool {
    if pre.mode != UpdateState::AwaitingConfirm {
        refused(pre, post, r, UpdateError::BadState)
    } else {
        let read = pre.seam.answered(SeamCall::BootCountRead(Ok(pre.seam.boot_count)));
        let cleared = (SeamView { pending: PendingFlag::Clear, ..read }).answered(
            SeamCall::PendingWrite(PendingFlag::Clear, Ok(())),
        );
        let spent = SeView {
            value: (pre.se.value - 1) as u32,
            calls: pre.se.calls.push(SeCall::Update(Ok(()))),
        };
        &&& post == (UpdateView { mode: post.mode, seam: post.seam, se: post.se, ..pre })
        &&& match r {
            Ok(()) => {
                &&& post.mode == UpdateState::Confirmed
                &&& pre.seam.boot_count >= CONFIRM_BOOTS
                &&& pre.se.value > 0 && post.se == spent
                &&& pending_write_step(read, PendingFlag::Clear, cleared, Ok(()))
                &&& nvcnt_bump_step(cleared, counter, post.seam, Ok(()))
            },
            Err(UpdateError::BadState) => {
                &&& post.mode == UpdateState::AwaitingConfirm
                &&& pre.seam.boot_count < CONFIRM_BOOTS
                &&& post.seam == read && post.se == pre.se
            },
            Err(UpdateError::SeCounter(f)) => {
                &&& post.mode == UpdateState::Confirming
                &&& pre.seam.boot_count >= CONFIRM_BOOTS
                &&& post.seam == read
                &&& post.se == (SeView { calls: pre.se.calls.push(SeCall::Update(Err(f))), ..pre.se })
            },
            Err(UpdateError::Flash(f)) => {
                ||| {
                    &&& pre.seam.script is None
                    &&& post.mode == UpdateState::AwaitingConfirm && post.se == pre.se
                    &&& post.seam == pre.seam.answered(SeamCall::BootCountRead(Err(f)))
                }
                ||| {
                    &&& post.mode == UpdateState::Confirming
                    &&& pre.seam.boot_count >= CONFIRM_BOOTS
                    &&& pre.se.value > 0 && post.se == spent
                    &&& pending_write_step(read, PendingFlag::Clear, post.seam, Err(f)) || {
                        &&& pending_write_step(read, PendingFlag::Clear, cleared, Ok(()))
                        &&& nvcnt_bump_step(cleared, counter, post.seam, Err(f))
                    }
                }
            },
            Err(_) => false,
        }
    }
}

/// The revert to the other bank: the swap first, then the record.
pub open spec fn revert_step(pre: UpdateView, post: UpdateView, r: Result<(), UpdateError>) -> bool {
    if pre.mode != UpdateState::AwaitingConfirm {
        refused(pre, post, r, UpdateError::BadState)
    } else {
        let back = other(pre.seam.running);
        let armed = (SeamView { next: back, ..pre.seam }).answered(SeamCall::RevertSwap(Ok(())));
        &&& post == (UpdateView { mode: post.mode, seam: post.seam, ..pre })
        &&& match r {
            Ok(()) => {
                &&& post.mode == UpdateState::Reverted
                &&& pre.seam.script != Some(FaultPoint::Revert)
                &&& pending_write_step(armed, PendingFlag::Clear, post.seam, Ok(()))
                &&& post.seam == (SeamView { pending: PendingFlag::Clear, ..armed }).answered(
                    SeamCall::PendingWrite(PendingFlag::Clear, Ok(())),
                )
            },
            Err(e) => {
                &&& post.mode == UpdateState::AwaitingConfirm
                &&& e matches UpdateError::Flash(f) && {
                    ||| arm_step(
                        pre.seam,
                        back,
                        FaultPoint::Revert,
                        post.seam,
                        Err(f),
                        SeamCall::RevertSwap(Err(f)),
                    )
                    ||| pre.seam.script != Some(FaultPoint::Revert) && pending_write_step(armed, PendingFlag::Clear, post.seam, Err(f))
                }
            },
        }
    }
}

/// The update driver.
///
/// Accepted bytes flow through the seam into the inactive bank. The driver itself
/// holds the header, the signature, and at most one payload page.
pub struct Updater<'k, F, S> {
    state: UpdateState,
    root_key: &'k RootKey,
    flash: F,
    se_counter: S,
    total_len: usize,
    written: usize,
    header: [u8; HEADER_LEN],
    signature: [u8; SIG_LEN],
    page_buf: [u8; PAGE_LEN],
    received: Ghost<Seq<u8>>,
}

impl<'k, F, S> Updater<'k, F, S> where F: FlashSeam, S: SeCounterSeam {
    /// What the machine shows.
    pub closed spec fn view(&self) -> UpdateView {
        UpdateView {
            mode: self.state,
            key: self.root_key@,
            declared: self.total_len as int,
            received: self.received@,
            seam: self.flash.seam(),
            se: self.se_counter.se(),
        }
    }

    /// The flash seam.
    pub closed spec fn flash_seam(&self) -> F {
        self.flash
    }

    /// The secure-element counter.
    pub closed spec fn se_seam(&self) -> S {
        self.se_counter
    }

    /// The invariant: while a file is in flight, the bank and the buffers together
    /// hold exactly the bytes received. Once accepted, the bank alone holds them.
    pub closed spec fn wf(&self) -> bool {
        &&& self.flash.wf()
        &&& self.received@.len() == self.written
        &&& self.state == UpdateState::ReceivingChunks ==> self.holds_received()
        &&& self.state == UpdateState::PendingCommit ==> self.holds_accepted()
    }

    closed spec fn holds_accepted(&self) -> bool {
        let file = self.received@;
        &&& file.len() >= FRAME_LEN
        &&& stored_file(self.flash.seam(), file.len() - FRAME_LEN) == file
        &&& image_check(file, self.root_key@) matches Ok(fields) && fields.security_counter
            >= self.flash.seam().nvcnt
    }

    /// A machine that is about to commit holds an authentic file in the inactive
    /// bank, with a counter that is not below the stored one.
    pub proof fn pending_commit_holds_an_authentic_file(&self)
        requires
            self.wf(),
            self@.mode == UpdateState::PendingCommit,
        ensures
            self@.received.len() >= FRAME_LEN,
            stored_file(self@.seam, self@.received.len() - FRAME_LEN) == self@.received,
            image_check(self@.received, self@.key) matches Ok(fields) && fields.security_counter
                >= self@.seam.nvcnt,
    {
    }

    closed spec fn holds_received(&self) -> bool {
        let got = self.received@;
        let plen = payload_len_of(self.total_len as int);
        let seam = self.flash.seam();
        let n = payload_received(self.written as int, self.total_len as int);
        let flushed = payload_flushed(self.written as int, self.total_len as int);
        &&& self.written <= self.total_len
        &&& self.total_len <= FRAME_LEN + seam.payload().len()
        &&& got.len() == self.written
        &&& seam.vacant
        &&& erased_range(seam.descriptor, 0, seam.descriptor.len() as int)
        &&& forall|i: int| 0 <= i < HEADER_LEN && i < got.len() ==> #[trigger] self.header@[i] == got[i]
        &&& forall|i: int| 0 <= i < flushed ==> #[trigger] seam.payload()[i] == got[HEADER_LEN + i]
        &&& forall|i: int| flushed <= i < seam.payload().len() ==> #[trigger] seam.payload()[i] == ERASED
        &&& forall|i: int|
            0 <= i < n - flushed ==> #[trigger] self.page_buf@[i] == got[HEADER_LEN + flushed + i]
        &&& forall|i: int|
            0 <= i < got.len() - HEADER_LEN - plen ==> #[trigger] self.signature@[i] == got[HEADER_LEN
                + plen + i]
    }

    /// Builds an idle updater bound to the seams and the pinned root key.
    pub fn new(root_key: &'k RootKey, flash: F, se_counter: S) -> (r: Updater<'k, F, S>)
        requires
            flash.wf(),
        ensures
            r.wf(),
            r.flash_seam() == flash,
            r.se_seam() == se_counter,
            r@ == (UpdateView {
                mode: UpdateState::Idle,
                key: root_key@,
                declared: 0,
                received: Seq::empty(),
                seam: flash.seam(),
                se: se_counter.se(),
            }),
    {
        Updater {
            state: UpdateState::Idle,
            root_key,
            flash,
            se_counter,
            total_len: 0,
            written: 0,
            header: [0xFF; HEADER_LEN],
            signature: [0xFF; SIG_LEN],
            page_buf: [0xFF; PAGE_LEN],
            received: Ghost(Seq::empty()),
        }
    }

    /// The current state.
    pub fn state(&self) -> (r: UpdateState)
        ensures
            r == self@.mode,
    {
        self.state
    }

    /// The number of file bytes received so far.
    pub fn written(&self) -> (r: usize)
        requires
            self.wf(),
        ensures
            r == self@.received.len(),
    {
        self.written
    }

    /// Borrows the flash seam.
    pub fn flash(&self) -> (r: &F)
        ensures
            *r == self.flash_seam(),
            r.seam() == self@.seam,
            self.wf() ==> r.wf(),
    {
        &self.flash
    }

    /// Consumes the updater and returns the flash seam.
    pub fn into_flash(self) -> (r: F)
        ensures
            r == self.flash_seam(),
            r.seam() == self@.seam,
            self.wf() ==> r.wf(),
    {
        self.flash
    }

    /// Borrows the secure-element counter.
    pub fn se_counter(&self) -> (r: &S)
        ensures
            *r == self.se_seam(),
            r.se() == self@.se,
    {
        &self.se_counter
    }

    /// Borrows the secure-element counter mutably.
    pub fn se_counter_mut(&mut self) -> (r: &mut S)
        ensures
            *r == old(self).se_seam(),
            final(self).se_seam() == *final(r),
            final(self).flash_seam() == old(self).flash_seam(),
            final(self)@ == (UpdateView { se: final(r).se(), ..old(self)@ }),
            old(self).wf() ==> final(self).wf(),
    {
        &mut self.se_counter
    }

    /// The file bytes a bank of this seam can take.
    fn capacity(&self) -> (r: usize)
        requires
            self.flash.wf(),
        ensures
            r == FRAME_LEN + self.flash.seam().payload().len(),
    {
        proof {
            self.flash.seam_is_wf();
        }
        FRAME_LEN + self.flash.inactive_secure_band().len() + self.flash.inactive_ns_band().len()
    }

    /// Starts an update: erases the inactive bank and arms the accumulator.
    ///
    /// `total_len` is the declared length of the whole file. A file that the bank
    /// cannot take is refused.
    pub fn begin(&mut self, total_len: usize) -> (r: Result<(), UpdateError>)
        requires
            old(self).wf(),
        ensures
            final(self).wf(),
            begin_step(old(self)@, total_len as int, final(self)@, r),
            final(self).se_seam() == old(self).se_seam(),
            r is Err && !(r->Err_0 is Flash) ==> *final(self) == *old(self),
            old(self).flash_seam().nominal() ==> final(self).flash_seam().nominal() && (r is Ok <==> {
                &&& old(self)@.mode == UpdateState::Idle
                &&& total_len <= FRAME_LEN + old(self)@.seam.payload().len()
            }),
    {
        if self.state != UpdateState::Idle {
            return Err(UpdateError::BadState);
        }
        if total_len > self.capacity() {
            return Err(UpdateError::ChunkOutOfRange);
        }
        match self.flash.erase_inactive() {
            Ok(u) => {
                assert(u == ());
            },
            Err(e) => return Err(UpdateError::Flash(e)),
        }
        self.total_len = total_len;
        self.written = 0;
        self.received = Ghost(Seq::empty());
        self.page_buf = [0xFF; PAGE_LEN];
        self.state = UpdateState::ReceivingChunks;
        proof {
            lemma_bank_erased(self.flash.seam());
        }
        Ok(())
    }

    /// Takes one byte of the file: into the header, the page under construction,
    /// or the signature. A page that is now full is flushed through the seam.
    fn store_byte(&mut self, byte: u8) -> (r: Result<(), FlashError>)
        requires
            old(self).flash.wf(),
            old(self).holds_received(),
            old(self).written < old(self).total_len,
        ensures
            final(self).flash.wf(),
            final(self).state == old(self).state,
            final(self).root_key == old(self).root_key,
            final(self).se_counter == old(self).se_counter,
            final(self).total_len == old(self).total_len,
            only_bank_changed(old(self).flash.seam(), final(self).flash.seam()),
            old(self).flash.nominal() ==> r is Ok && final(self).flash.nominal(),
            r is Err || old(self).flash.seam().script == Some(FaultPoint::WritePage) ==> (r is Err
                <==> payload_flushed(old(self).written + 1, old(self).total_len as int)
                > payload_flushed(old(self).written as int, old(self).total_len as int)),
            match r {
                Ok(()) => {
                    &&& final(self).holds_received()
                    &&& final(self).flash.seam().script == old(self).flash.seam().script
                    &&& final(self).received@ == old(self).received@.push(byte)
                    &&& final(self).written == old(self).written + 1
                    &&& final(self).flash.seam().calls == old(self).flash.seam().calls || {
                        let call = final(self).flash.seam().calls.last();
                        is_page_write(call) && final(self).flash.seam().calls == old(self).flash.seam().calls.push(call)
                    }
                },
                Err(e) => {
                    let call = final(self).flash.seam().calls.last();
                    &&& call is WritePage
                    &&& failure(call) == Some(e)
                    &&& write_fault_fired(old(self).flash.seam(), final(self).flash.seam(), e)
                    &&& final(self).flash.seam().calls == old(self).flash.seam().calls.push(call)
                },
            },
    {
        let at: usize = self.written;
        let plen: usize = if self.total_len >= FRAME_LEN {
            self.total_len - FRAME_LEN
        } else {
            0
        };
        let ghost pre = *self;
        let ghost got = self.received@;
        let ghost n = payload_received(at as int, self.total_len as int);
        let ghost flushed = payload_flushed(at as int, self.total_len as int);
        proof {
            self.flash.seam_is_wf();
            lemma_page_split(n);
        }
        self.received = Ghost(got.push(byte));
        self.written = at + 1;
        if at < HEADER_LEN {
            self.header[at] = byte;
        } else if at - HEADER_LEN < plen {
            let off: usize = at - HEADER_LEN;
            assert(n == off);
            self.page_buf[off % PAGE_LEN] = byte;
            if off % PAGE_LEN == PAGE_LEN - 1 {
                let page: usize = off / PAGE_LEN;
                let ghost data = self.page_buf@;
                proof {
                    lemma_page_in_band(
                        off as int,
                        page as int,
                        plen as int,
                        self.flash.seam().payload().len() as int,
                    );
                }
                match self.flash.write_inactive_page(page as PageIndex, &self.page_buf) {
                    Ok(_) => {},
                    Err(e) => return Err(e),
                }
                proof {
                    let before = pre.flash.seam().payload();
                    let after = self.flash.seam().payload();
                    assert(after == overlay(before, flushed, data));
                    assert(payload_flushed(self.written as int, self.total_len as int) == flushed
                        + PAGE_LEN);
                    assert forall|i: int| 0 <= i < flushed + PAGE_LEN implies #[trigger] after[i]
                        == self.received@[HEADER_LEN + i] by {
                        if i >= flushed {
                            assert(after[i] == data[i - flushed]);
                            if i - flushed < n - flushed {
                                assert(pre.page_buf@[i - flushed] == got[HEADER_LEN + flushed + (i
                                    - flushed)]);
                            }
                        } else {
                            assert(before[i] == got[HEADER_LEN + i]);
                        }
                    }
                }
            } else {
                assert(payload_flushed(self.written as int, self.total_len as int) == flushed) by {
                    lemma_page_split(n + 1);
                }
            }
        } else {
            self.signature[at - HEADER_LEN - plen] = byte;
        }
        Ok(())
    }

    /// Streams one contiguous chunk into the inactive bank.
    ///
    /// The chunk must continue where the last one ended, and stay inside the
    /// declared length.
    fn write_chunk(&mut self, offset: usize, data: &[u8]) -> (r: Result<(), UpdateError>)
        requires
            old(self).flash.wf(),
            old(self).holds_received(),
        ensures
            final(self).flash.wf(),
            final(self).state == old(self).state,
            final(self).root_key == old(self).root_key,
            final(self).se_counter == old(self).se_counter,
            final(self).total_len == old(self).total_len,
            only_bank_changed(old(self).flash.seam(), final(self).flash.seam()),
            more_calls(old(self).flash.seam(), final(self).flash.seam()),
            old(self).flash.nominal() ==> final(self).flash.nominal(),
            ({
                let pre = old(self).flash.seam().calls;
                let post = final(self).flash.seam().calls;
                let in_order = offset == old(self).written && offset + data@.len() <= old(self).total_len;
                match r {
                    Ok(()) => {
                        &&& in_order
                        &&& final(self).holds_received()
                        &&& final(self).received@ == old(self).received@ + data@
                        &&& final(self).written == old(self).written + data@.len()
                        &&& final(self).flash.seam().script == old(self).flash.seam().script
                        &&& old(self).flash.seam().script == Some(FaultPoint::WritePage)
                            ==> !flushes(old(self)@, data@.len() as int)
                        &&& forall|k: int| pre.len() <= k < post.len() ==> is_page_write(#[trigger] post[k])
                    },
                    Err(UpdateError::ChunkOutOfRange) => !in_order && *final(self) == *old(self),
                    Err(UpdateError::Flash(f)) => {
                        &&& in_order
                        &&& !old(self).flash.nominal()
                        &&& post.len() > pre.len()
                        &&& post.last() is WritePage
                        &&& failure(post.last()) == Some(f)
                        &&& flushes(old(self)@, data@.len() as int)
                        &&& write_fault_fired(old(self).flash.seam(), final(self).flash.seam(), f)
                        &&& forall|k: int|
                            pre.len() <= k < post.len() - 1 ==> is_page_write(#[trigger] post[k])
                    },
                    Err(_) => false,
                }
            }),
    {
        assert(self.flash.seam().calls.take(self.flash.seam().calls.len() as int)
            =~= self.flash.seam().calls);
        if offset != self.written {
            return Err(UpdateError::ChunkOutOfRange);
        }
        if data.len() > self.total_len - offset {
            return Err(UpdateError::ChunkOutOfRange);
        }
        let ghost pre = *self;
        let ghost calls = self.flash.seam().calls;
        let mut i: usize = 0;
        assert(data@.take(0) =~= Seq::empty());
        assert(self.received@ + Seq::<u8>::empty() =~= self.received@);
        while i < data.len()
            invariant
                i <= data@.len(),
                self.flash.wf(),
                self.holds_received(),
                self.state == pre.state,
                self.root_key == pre.root_key,
                self.se_counter == pre.se_counter,
                self.total_len == pre.total_len,
                self.written == pre.written + i,
                pre.written + data@.len() <= pre.total_len,
                offset == pre.written,
                *old(self) == pre,
                self.received@ == pre.received@ + data@.take(i as int),
                only_bank_changed(pre.flash.seam(), self.flash.seam()),
                more_calls(pre.flash.seam(), self.flash.seam()),
                calls == pre.flash.seam().calls,
                pre.flash.nominal() ==> self.flash.nominal(),
                self.flash.seam().script == pre.flash.seam().script,
                pre.received@.len() == pre.written,
                pre.flash.seam().script == Some(FaultPoint::WritePage) ==> payload_flushed(
                    self.written as int,
                    self.total_len as int,
                ) == payload_flushed(pre.written as int, self.total_len as int),
                forall|k: int|
                    calls.len() <= k < self.flash.seam().calls.len() ==> is_page_write(
                        #[trigger] self.flash.seam().calls[k],
                    ),
            decreases data@.len() - i,
        {
            let ghost before = self.flash.seam().calls;
            match self.store_byte(data[i]) {
                Ok(_) => {},
                Err(e) => {
                    proof {
                        let after = self.flash.seam().calls;
                        let at = pre.written + i;
                        lemma_flushed_grows(pre.written as int, at, pre.total_len as int);
                        lemma_flushed_grows(
                            at + 1,
                            pre.written + data@.len(),
                            pre.total_len as int,
                        );
                        assert(after.take(calls.len() as int) =~= before.take(calls.len() as int));
                        assert forall|k: int| calls.len() <= k < after.len() - 1 implies is_page_write(
                            #[trigger] after[k],
                        ) by {
                            assert(after[k] == before[k]);
                        }
                    }
                    return Err(UpdateError::Flash(e));
                },
            }
            proof {
                let after = self.flash.seam().calls;
                lemma_flushed_grows(pre.written + i, pre.written + i + 1, pre.total_len as int);
                assert(after.take(calls.len() as int) =~= before.take(calls.len() as int));
                assert forall|k: int| calls.len() <= k < after.len() implies is_page_write(
                    #[trigger] after[k],
                ) by {
                    if k < before.len() {
                        assert(after[k] == before[k]);
                    }
                }
                assert(data@.take(i + 1) =~= data@.take(i as int).push(data@[i as int]));
                assert(self.received@ =~= pre.received@ + data@.take(i + 1));
            }
            i += 1;
        }
        assert(data@.take(i as int) =~= data@);
        Ok(())
    }

    /// Clears the inactive bank and the accumulation counters, best effort: even
    /// where the erase fails, no swap was armed and the old bank boots.
    fn reject_cleanup(&mut self)
        requires
            old(self).flash.wf(),
        ensures
            final(self).flash.wf(),
            final(self).state == old(self).state,
            final(self).root_key == old(self).root_key,
            final(self).se_counter == old(self).se_counter,
            final(self).written == 0,
            dropped(final(self)@),
            only_bank_changed(old(self).flash.seam(), final(self).flash.seam()),
            final(self).flash.seam().calls.last() matches SeamCall::Erase(a) && erase_step(
                old(self).flash.seam(),
                final(self).flash.seam(),
                a,
            ),
            final(self).flash.seam().calls == old(self).flash.seam().calls.push(
                final(self).flash.seam().calls.last(),
            ),
            old(self).flash.nominal() ==> final(self).flash.nominal() && bank_erased(
                final(self).flash.seam(),
            ),
    {
        let erased = self.flash.erase_inactive();
        self.written = 0;
        self.total_len = 0;
        self.received = Ghost(Seq::empty());
        self.page_buf = [0xFF; PAGE_LEN];
        proof {
            if erased is Ok {
                lemma_bank_erased(self.flash.seam());
            }
        }
    }

    /// Takes one chunk of the file at `offset`.
    ///
    /// Chunks must arrive in order and fill the file contiguously. A refused chunk
    /// fails closed: the machine collapses to [`UpdateState::Rejected`] and clears
    /// the inactive bank.
    pub fn receive_chunk(&mut self, offset: usize, data: &[u8]) -> (r: Result<(), UpdateError>)
        requires
            old(self).wf(),
        ensures
            final(self).wf(),
            receive_step(old(self)@, offset as int, data@, final(self)@, r),
            final(self).se_seam() == old(self).se_seam(),
            r == Err::<(), UpdateError>(UpdateError::BadState) ==> *final(self) == *old(self),
            old(self).flash_seam().nominal() ==> final(self).flash_seam().nominal() && (r is Ok <==> {
                &&& old(self)@.mode == UpdateState::ReceivingChunks
                &&& in_order(old(self)@, offset as int, data@)
            }) && (r == Err::<(), UpdateError>(UpdateError::ChunkOutOfRange) ==> bank_erased(
                final(self)@.seam,
            )),
    {
        if self.state != UpdateState::ReceivingChunks {
            return Err(UpdateError::BadState);
        }
        let ghost pre = self.flash.seam();
        match self.write_chunk(offset, data) {
            Ok(_) => Ok(()),
            Err(error) => {
                let ghost mid = self.flash.seam();
                self.reject_cleanup();
                self.state = UpdateState::Rejected;
                proof {
                    let post = self.flash.seam();
                    assert(post.calls.take(pre.calls.len() as int) =~= mid.calls.take(
                        pre.calls.len() as int,
                    ));
                    if mid.calls.len() > 0 {
                        assert(post.calls[post.calls.len() - 2] == mid.calls.last());
                    }
                }
                Err(error)
            },
        }
    }

    /// Writes the partial trailing payload page, if there is one.
    fn flush_partial_page(&mut self) -> (r: Result<(), FlashError>)
        requires
            old(self).flash.wf(),
            old(self).holds_received(),
        ensures
            final(self).flash.wf(),
            *final(self) == (Updater { flash: final(self).flash, ..*old(self) }),
            only_bank_changed(old(self).flash.seam(), final(self).flash.seam()),
            more_calls(old(self).flash.seam(), final(self).flash.seam()),
            old(self).flash.nominal() ==> r is Ok && final(self).flash.nominal(),
            match r {
                Ok(()) => {
                    let n = payload_received(old(self).written as int, old(self).total_len as int);
                    &&& final(self).flash.seam().descriptor == old(self).flash.seam().descriptor
                    &&& final(self).flash.seam().vacant == old(self).flash.seam().vacant
                    &&& final(self).flash.seam().script == old(self).flash.seam().script
                    &&& final(self).flash.seam().calls == old(self).flash.seam().calls || {
                        let call = final(self).flash.seam().calls.last();
                        is_page_write(call) && final(self).flash.seam().calls == old(self).flash.seam().calls.push(call)
                    }
                    &&& n <= final(self).flash.seam().payload().len()
                    &&& forall|i: int|
                        0 <= i < n ==> #[trigger] final(self).flash.seam().payload()[i] == old(self).received@[HEADER_LEN + i]
                },
                Err(e) => {
                    let call = final(self).flash.seam().calls.last();
                    &&& call is WritePage
                    &&& final(self).flash.seam().calls == old(self).flash.seam().calls.push(call)
                    &&& failure(call) == Some(e)
                    &&& write_fault_fired(old(self).flash.seam(), final(self).flash.seam(), e)
                },
            },
    {
        let ghost pre = *self;
        let ghost n = payload_received(self.written as int, self.total_len as int);
        let ghost flushed = payload_flushed(self.written as int, self.total_len as int);
        proof {
            self.flash.seam_is_wf();
            lemma_page_split(n);
            assert(self.flash.seam().calls.take(self.flash.seam().calls.len() as int)
                =~= self.flash.seam().calls);
        }
        let plen: usize = if self.total_len >= FRAME_LEN {
            self.total_len - FRAME_LEN
        } else {
            0
        };
        let count: usize = if self.written <= HEADER_LEN {
            0
        } else if self.written - HEADER_LEN < plen {
            self.written - HEADER_LEN
        } else {
            plen
        };
        let fill: usize = count % PAGE_LEN;
        if fill == 0 {
            return Ok(());
        }
        let page: usize = count / PAGE_LEN;
        proof {
            lemma_page_in_band(
                count - 1,
                page as int,
                plen as int,
                self.flash.seam().payload().len() as int,
            );
        }
        let data: &[u8] = slice_subrange(&self.page_buf, 0, fill);
        let ghost written = data@;
        let r = self.flash.write_inactive_page(page as PageIndex, data);
        proof {
            let calls = pre.flash.seam().calls;
            assert(self.flash.seam().calls.take(calls.len() as int) =~= calls);
            if r is Ok {
                let before = pre.flash.seam().payload();
                let after = self.flash.seam().payload();
                assert(after == overlay(before, flushed, written));
                assert forall|i: int| 0 <= i < n implies #[trigger] after[i]
                    == pre.received@[HEADER_LEN + i] by {
                    if i >= flushed {
                        assert(after[i] == pre.page_buf@[i - flushed]);
                    } else {
                        assert(after[i] == before[i]);
                    }
                }
            }
        }
        r
    }

    /// Clears the inactive bank, returns to Idle, and reports the cause.
    fn reject(&mut self, cause: UpdateError) -> (r: Result<(), UpdateError>)
        requires
            old(self).flash.wf(),
        ensures
            final(self).wf(),
            r == Err::<(), UpdateError>(cause),
            final(self).state == UpdateState::Idle,
            final(self).root_key == old(self).root_key,
            final(self).se_counter == old(self).se_counter,
            dropped(final(self)@),
            only_bank_changed(old(self).flash.seam(), final(self).flash.seam()),
            final(self).flash.seam().calls.last() matches SeamCall::Erase(a) && erase_step(
                old(self).flash.seam(),
                final(self).flash.seam(),
                a,
            ),
            final(self).flash.seam().calls == old(self).flash.seam().calls.push(
                final(self).flash.seam().calls.last(),
            ),
            old(self).flash.nominal() ==> final(self).flash.nominal() && bank_erased(
                final(self).flash.seam(),
            ),
    {
        self.state = UpdateState::Rejected;
        self.reject_cleanup();
        self.state = UpdateState::Idle;
        Err(cause)
    }

    /// The descriptor of the file in flight: its header, then its signature.
    fn descriptor_bytes(&self) -> (r: [u8; FRAME_LEN])
        ensures
            r@ == self.header@ + self.signature@,
    {
        let mut bytes: [u8; FRAME_LEN] = [0xFF; FRAME_LEN];
        write_over(&mut bytes, 0, &self.header);
        write_over(&mut bytes, HEADER_LEN, &self.signature);
        assert(bytes@ =~= self.header@ + self.signature@);
        bytes
    }

    /// Verifies the file the inactive bank holds for the declared length.
    fn verify_stored(&self) -> (r: Result<u32, VerifyError>)
        requires
            self.flash.wf(),
            FRAME_LEN <= self.total_len <= FRAME_LEN + self.flash.seam().payload().len(),
        ensures
            ({
                let file = stored_file(self.flash.seam(), self.total_len - FRAME_LEN);
                match r {
                    Ok(counter) => image_check(file, self.root_key@) matches Ok(fields)
                        && fields.security_counter == counter,
                    Err(e) => image_check(file, self.root_key@) == Err::<HeaderFields, VerifyError>(
                        e,
                    ),
                }
            }),
    {
        proof {
            self.flash.seam_is_wf();
        }
        let plen: usize = self.total_len - FRAME_LEN;
        let descriptor: &[u8] = self.flash.inactive_descriptor();
        let secure: &[u8] = self.flash.inactive_secure_band();
        let ns: &[u8] = self.flash.inactive_ns_band();
        let secure_take: usize = if plen < secure.len() {
            plen
        } else {
            secure.len()
        };
        let head: &[u8] = slice_subrange(descriptor, 0, HEADER_LEN);
        let low: &[u8] = slice_subrange(secure, 0, secure_take);
        let high: &[u8] = slice_subrange(ns, 0, plen - secure_take);
        let sig: &[u8] = slice_subrange(descriptor, HEADER_LEN, FRAME_LEN);
        let segments: [&[u8]; 4] = [head, low, high, sig];
        proof {
            let seam = self.flash.seam();
            lemma_concat_four(segments@);
            assert(low@ + high@ =~= seam.payload().take(plen as int));
            assert(head@ + low@ + high@ + sig@ =~= head@ + (low@ + high@) + sig@);
            assert(concat(segments@) =~= stored_file(seam, plen as int));
        }
        match verify_image(&segments, self.root_key) {
            Ok(verified) => Ok(verified.security_counter()),
            Err(e) => Err(e),
        }
    }

    /// Verifies the received file and runs the two anti-rollback gates.
    ///
    /// The file is judged as it stands in the inactive bank, the bank that a swap
    /// boots. On any failure the bank is cleared, the machine returns to
    /// [`UpdateState::Idle`], and no swap is armed.
    #[verifier::rlimit(60)]
    pub fn verify_and_accept(&mut self) -> (r: Result<(), UpdateError>)
        requires
            old(self).wf(),
        ensures
            final(self).wf(),
            accept_step(old(self)@, final(self)@, r),
            r == Err::<(), UpdateError>(UpdateError::BadState) ==> *final(self) == *old(self),
            old(self).flash_seam().nominal() && old(self).se_seam().available() ==> {
                let pre = old(self)@;
                let verdict = accept_verdict(
                    pre.received,
                    pre.declared,
                    pre.key,
                    pre.seam.nvcnt,
                    pre.se.value,
                );
                &&& final(self).flash_seam().nominal()
                &&& final(self).se_seam().available()
                &&& pre.mode == UpdateState::ReceivingChunks ==> (r is Ok <==> verdict is Ok) && (r is Err
                    ==> r == verdict && bank_erased(final(self)@.seam))
            },
    {
        if self.state != UpdateState::ReceivingChunks {
            return Err(UpdateError::BadState);
        }
        let ghost pre = *self;
        let ghost file = self.received@;
        let ghost calls = self.flash.seam().calls;
        match self.flush_partial_page() {
            Ok(_) => {},
            Err(e) => {
                let ghost mid = self.flash.seam().calls;
                let r = self.reject(UpdateError::Flash(e));
                proof {
                    lemma_more(calls, mid, self.flash.seam().calls);
                }
                return r;
            },
        }
        let ghost c1 = self.flash.seam().calls;
        if self.written != self.total_len {
            let r = self.reject(UpdateError::Incomplete);
            proof {
                lemma_more(calls, c1, self.flash.seam().calls);
            }
            return r;
        }
        self.state = UpdateState::VerifyingImage;
        let nvcnt: u32 = match self.flash.nvcnt_read() {
            Ok(value) => value,
            Err(e) => {
                let ghost c2 = self.flash.seam().calls;
                let r = self.reject(UpdateError::Flash(e));
                proof {
                    lemma_more(calls, c1, c2);
                    lemma_more(calls, c2, self.flash.seam().calls);
                }
                return r;
            },
        };
        let ghost c2 = self.flash.seam().calls;
        proof {
            lemma_more(calls, c1, c2);
        }
        let se_value: u32 = match self.se_counter.read() {
            Ok(value) => value,
            Err(e) => {
                let r = self.reject(UpdateError::SeCounter(e));
                proof {
                    lemma_more(calls, c2, self.flash.seam().calls);
                }
                return r;
            },
        };
        if self.total_len < FRAME_LEN {
            let r = self.reject(UpdateError::VerifyFailed(VerifyError::TooShort));
            proof {
                lemma_more(calls, c2, self.flash.seam().calls);
            }
            return r;
        }
        let descriptor: [u8; FRAME_LEN] = self.descriptor_bytes();
        proof {
            self.flash.seam_is_wf();
        }
        match self.flash.write_descriptor(&descriptor) {
            Ok(u) => {
                assert(u == ());
            },
            Err(e) => {
                let ghost c3 = self.flash.seam().calls;
                let r = self.reject(UpdateError::Flash(e));
                proof {
                    lemma_more(calls, c2, c3);
                    lemma_more(calls, c3, self.flash.seam().calls);
                }
                return r;
            },
        }
        let ghost c3 = self.flash.seam().calls;
        proof {
            lemma_more(calls, c2, c3);
        }
        proof {
            let seam = self.flash.seam();
            assert(seam.descriptor == overlay(pre.flash.seam().descriptor, 0, descriptor@));
            lemma_frame_stored(seam, pre.header@, pre.signature@, file);
        }
        // The bytes judged are the bytes the swap boots, read back from the bank.
        let security_counter: u32 = match self.verify_stored() {
            Ok(counter) => counter,
            Err(e) => {
                let r = self.reject(UpdateError::VerifyFailed(e));
                proof {
                    lemma_more(calls, c3, self.flash.seam().calls);
                }
                return r;
            },
        };
        match check_gates(security_counter, nvcnt, se_value) {
            Ok(_) => {},
            Err(e) => {
                let r = self.reject(e);
                proof {
                    lemma_more(calls, c3, self.flash.seam().calls);
                }
                return r;
            },
        }
        self.state = UpdateState::PendingCommit;
        proof {
            assert(descriptor@ =~= file.take(HEADER_LEN as int) + file.skip(file.len() - SIG_LEN));
            assert(c3.take(c3.len() - 2) =~= c1);
            assert(accept_calls(calls, file, nvcnt, c3));
        }
        Ok(())
    }

    /// Arms the swap toward the bank that holds the accepted file.
    ///
    /// The pending record is written first, because the swap takes effect with a
    /// reset. Where the arm fails the record is cleared again.
    pub fn commit(&mut self) -> (r: Result<(), UpdateError>)
        requires
            old(self).wf(),
        ensures
            final(self).wf(),
            commit_step(old(self)@, final(self)@, r),
            final(self).se_seam() == old(self).se_seam(),
            r == Err::<(), UpdateError>(UpdateError::BadState) ==> *final(self) == *old(self),
            old(self).flash_seam().nominal() ==> final(self).flash_seam().nominal() && (r is Ok
                <==> old(self)@.mode == UpdateState::PendingCommit),
    {
        if self.state != UpdateState::PendingCommit {
            return Err(UpdateError::BadState);
        }
        let target: BankId = match self.flash.target_bank() {
            Ok(bank) => bank,
            Err(e) => return Err(UpdateError::Flash(e)),
        };
        match self.flash.pending_write(PendingFlag::Armed(target)) {
            Ok(u) => {
                assert(u == ());
            },
            Err(e) => return Err(UpdateError::Flash(e)),
        }
        match self.flash.commit_swap() {
            Ok(u) => {
                assert(u == ());
                self.state = UpdateState::Committed;
                Ok(())
            },
            Err(e) => {
                // Undo the record: the running bank stays the confirmed bank.
                let _ = self.flash.pending_write(PendingFlag::Clear);
                self.state = UpdateState::PendingCommit;
                Err(UpdateError::Flash(e))
            },
        }
    }

    /// Looks at the pending record after a boot, and proves whether the swap took
    /// effect.
    ///
    /// With the armed bank running, the boot is counted and a confirm is owed.
    /// With the other bank running, the swap never took effect: the record is
    /// cleared and no reverse swap is armed.
    pub fn on_boot(&mut self) -> (r: Result<UpdateState, UpdateError>)
        requires
            old(self).wf(),
        ensures
            final(self).wf(),
            boot_step(old(self)@, final(self)@, r),
            final(self).se_seam() == old(self).se_seam(),
            old(self).flash_seam().nominal() ==> final(self).flash_seam().nominal() && (
            old(self)@.seam.pending != PendingFlag::Armed(old(self)@.seam.running)
                || old(self)@.seam.ticks ==> r is Ok),
    {
        let flag: PendingFlag = match self.flash.pending_read() {
            Ok(flag) => flag,
            Err(e) => return Err(UpdateError::Flash(e)),
        };
        match flag {
            PendingFlag::Armed(target) => {
                let running: BankId = match self.flash.running_bank() {
                    Ok(bank) => bank,
                    Err(e) => return Err(UpdateError::Flash(e)),
                };
                if running == target {
                    self.state = UpdateState::BootingNew;
                    match self.flash.boot_count_advance() {
                        Ok(u) => {
                            assert(u == ());
                        },
                        Err(e) => return Err(UpdateError::Flash(e)),
                    }
                    self.state = UpdateState::AwaitingConfirm;
                } else {
                    match self.flash.pending_write(PendingFlag::Clear) {
                        Ok(u) => {
                            assert(u == ());
                        },
                        Err(e) => return Err(UpdateError::Flash(e)),
                    }
                    self.state = UpdateState::Idle;
                }
            },
            PendingFlag::Clear => {
                self.state = UpdateState::Idle;
            },
        }
        Ok(self.state)
    }

    /// Confirms the new bank: spends a tick of the secure-element counter, clears
    /// the record, and last raises the anti-rollback counter.
    ///
    /// From the first of these steps on the machine is out of
    /// [`UpdateState::AwaitingConfirm`], and a revert is refused.
    pub fn confirm(&mut self, security_counter: u32) -> (r: Result<(), UpdateError>)
        requires
            old(self).wf(),
        ensures
            final(self).wf(),
            confirm_step(old(self)@, security_counter, final(self)@, r),
            old(self).flash_seam().nominal() ==> final(self).flash_seam().nominal(),
            old(self).flash_seam().nominal() && old(self).se_seam().available()
                && old(self)@.mode == UpdateState::AwaitingConfirm && old(self)@.seam.boot_count
                >= CONFIRM_BOOTS && old(self)@.se.value > 0 && (security_counter
                == old(self)@.seam.nvcnt || security_counter > old(self)@.seam.nvcnt
                && old(self)@.seam.room) ==> r is Ok,
            old(self).se_seam().available() ==> final(self).se_seam().available() && (
            old(self)@.se.value > 0 ==> !(r is Err && r->Err_0 is SeCounter)),
    {
        if self.state != UpdateState::AwaitingConfirm {
            return Err(UpdateError::BadState);
        }
        let count: u32 = match self.flash.boot_count_read() {
            Ok(count) => count,
            Err(e) => return Err(UpdateError::Flash(e)),
        };
        if count < CONFIRM_BOOTS {
            return Err(UpdateError::BadState);
        }
        self.state = UpdateState::Confirming;
        match self.se_counter.update() {
            Ok(u) => {
                assert(u == ());
            },
            Err(e) => return Err(UpdateError::SeCounter(e)),
        }
        match self.flash.pending_write(PendingFlag::Clear) {
            Ok(u) => {
                assert(u == ());
            },
            Err(e) => return Err(UpdateError::Flash(e)),
        }
        match self.flash.nvcnt_bump(security_counter) {
            Ok(u) => {
                assert(u == ());
            },
            Err(e) => return Err(UpdateError::Flash(e)),
        }
        self.state = UpdateState::Confirmed;
        Ok(())
    }

    /// Arms the swap back to the other bank, then clears the record.
    ///
    /// Reachable only while a confirm is owed and none has begun.
    pub fn revert(&mut self) -> (r: Result<(), UpdateError>)
        requires
            old(self).wf(),
        ensures
            final(self).wf(),
            revert_step(old(self)@, final(self)@, r),
            final(self).se_seam() == old(self).se_seam(),
            r == Err::<(), UpdateError>(UpdateError::BadState) ==> *final(self) == *old(self),
            old(self).flash_seam().nominal() ==> final(self).flash_seam().nominal() && (r is Ok
                <==> old(self)@.mode == UpdateState::AwaitingConfirm),
    {
        if self.state != UpdateState::AwaitingConfirm {
            return Err(UpdateError::BadState);
        }
        match self.flash.revert_swap() {
            Ok(u) => {
                assert(u == ());
            },
            Err(e) => return Err(UpdateError::Flash(e)),
        }
        match self.flash.pending_write(PendingFlag::Clear) {
            Ok(u) => {
                assert(u == ());
            },
            Err(e) => return Err(UpdateError::Flash(e)),
        }
        self.state = UpdateState::Reverted;
        Ok(())
    }
}

/// A call list that grows by one call keeps its earlier part.
proof fn lemma_more(a: Seq<SeamCall>, b: Seq<SeamCall>, c: Seq<SeamCall>)
    requires
        a.len() <= b.len(),
        b.take(a.len() as int) == a,
        c.len() == b.len() + 1,
        c == b.push(c.last()),
    ensures
        a.len() <= c.len(),
        c.take(a.len() as int) == a,
        c.len() >= 2 ==> b.len() > 0 && c[c.len() - 2] == b.last(),
        c.drop_last() == b,
{
    assert(c.take(a.len() as int) =~= b.take(a.len() as int));
    assert(c.drop_last() =~= b);
}

/// A bank with the payload of a file, and its header and signature in the descriptor,
/// holds the file.
proof fn lemma_frame_stored(seam: SeamView, header: Seq<u8>, signature: Seq<u8>, file: Seq<u8>)
    requires
        header.len() == HEADER_LEN,
        signature.len() == SIG_LEN,
        file.len() >= FRAME_LEN,
        seam.descriptor.len() >= FRAME_LEN,
        file.len() - FRAME_LEN <= seam.payload().len(),
        forall|i: int| 0 <= i < HEADER_LEN ==> #[trigger] header[i] == file[i],
        forall|i: int|
            0 <= i < SIG_LEN ==> #[trigger] signature[i] == file[file.len() - SIG_LEN + i],
        forall|i: int|
            0 <= i < FRAME_LEN ==> #[trigger] seam.descriptor[i] == (header + signature)[i],
        forall|i: int|
            0 <= i < file.len() - FRAME_LEN ==> #[trigger] seam.payload()[i] == file[HEADER_LEN + i],
    ensures
        stored_file(seam, file.len() - FRAME_LEN) == file,
{
    let plen = file.len() - FRAME_LEN;
    let stored = stored_file(seam, plen);
    assert forall|i: int| 0 <= i < stored.len() implies #[trigger] stored[i] == file[i] by {
        if i < HEADER_LEN {
            assert(stored[i] == seam.descriptor[i]);
            assert(header[i] == file[i]);
        } else if i < HEADER_LEN + plen {
            assert(stored[i] == seam.payload()[i - HEADER_LEN]);
        } else {
            let k = i - HEADER_LEN - plen;
            assert(stored[i] == seam.descriptor[HEADER_LEN + k]);
            assert(signature[k] == file[file.len() - SIG_LEN + k]);
        }
    }
    assert(stored =~= file);
}

/// What was flushed stays flushed.
proof fn lemma_flushed_grows(a: int, b: int, total: int)
    requires
        0 <= a <= b,
    ensures
        payload_flushed(a, total) <= payload_flushed(b, total),
{
    let x = payload_received(a, total);
    let y = payload_received(b, total);
    assert(0 <= x <= y);
    assert(x / PAGE_LEN as int <= y / PAGE_LEN as int) by (nonlinear_arith)
        requires
            0 <= x <= y,
    ;
}

/// With both bands erased, so is the payload.
proof fn lemma_bank_erased(seam: SeamView)
    requires
        erased_range(seam.descriptor, 0, seam.descriptor.len() as int),
        erased_range(seam.secure, 0, seam.secure.len() as int),
        erased_range(seam.ns, 0, seam.ns.len() as int),
    ensures
        bank_erased(seam),
{
    assert forall|i: int| 0 <= i < seam.payload().len() implies #[trigger] seam.payload()[i]
        == ERASED by {
        if i < seam.secure.len() {
            assert(seam.payload()[i] == seam.secure[i]);
        } else {
            assert(seam.payload()[i] == seam.ns[i - seam.secure.len()]);
        }
    }
}

/// A payload count splits into full pages and a remainder.
proof fn lemma_page_split(n: int)
    requires
        n >= 0,
    ensures
        n == (n / PAGE_LEN as int) * PAGE_LEN + n % (PAGE_LEN as int),
        0 <= n % (PAGE_LEN as int) < PAGE_LEN,
        0 <= n / PAGE_LEN as int,
{
}

/// The page of a payload offset below `plen` lies inside a band that takes `plen`
/// bytes, and its index fits a [`PageIndex`].
proof fn lemma_page_in_band(off: int, page: int, plen: int, band: int)
    requires
        0 <= off < plen <= band,
        page == off / PAGE_LEN as int,
        band % PAGE_LEN as int == 0,
        band <= 0x1_0000 * PAGE_LEN,
    ensures
        0 <= page < 0x1_0000,
        page * PAGE_LEN + PAGE_LEN <= band,
{
    let k = band / PAGE_LEN as int;
    assert(band == PAGE_LEN * k);
    assert(PAGE_LEN * page <= off);
}

} // verus!
