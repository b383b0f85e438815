//! What holds of the update machine as a whole.
//!
//! Each law is stated over the step relations that the methods of
//! [`crate::update::machine::Updater`] promise, so it holds of every seam, of every
//! answer a seam gives, and of every cut.

use vstd::prelude::*;

use crate::image::laws::an_accepted_image_is_authentic;
use crate::image::verify::image_check;
use crate::update::fuzz::carried_file;
use crate::update::fuzz::declared_len;
use crate::update::fuzz::record_bytes;
use crate::update::machine::accept_step;
use crate::update::machine::accept_verdict;
use crate::update::machine::at_most_a_page;
use crate::update::machine::bank_erased;
use crate::update::machine::begin_step;
use crate::update::machine::boot_step;
use crate::update::machine::commit_step;
use crate::update::machine::confirm_step;
use crate::update::machine::gate_verdict;
use crate::update::machine::only_bank_changed;
use crate::update::machine::is_page_write;
use crate::update::machine::payload_flushed;
use crate::update::machine::payload_received;
use crate::update::machine::receive_step;
use crate::update::machine::refusal_calls;
use crate::update::machine::revert_step;
use crate::update::machine::stored_file;
use crate::update::machine::UpdateError;
use crate::update::machine::UpdateState;
use crate::update::machine::UpdateView;
use crate::update::machine::FRAME_LEN;
use crate::update::machine::SE_COUNTER_ORIGIN;
use crate::update::seam::other;
use crate::update::seam::FaultPoint;
use crate::update::seam::FlashError;
use crate::update::seam::PendingFlag;
use crate::update::seam::SeamCall;
use crate::update::seam::SeamView;

verus! {

/// A call of the update machine, with its arguments and its answer.
pub ghost enum Transition {
    Begin(int, Result<(), UpdateError>),
    Receive(int, Seq<u8>, Result<(), UpdateError>),
    Accept(Result<(), UpdateError>),
    Commit(Result<(), UpdateError>),
    Boot(Result<UpdateState, UpdateError>),
    Confirm(u32, Result<(), UpdateError>),
    Revert(Result<(), UpdateError>),
}

/// The call `t` takes the machine from `pre` to `post`.
pub open spec fn takes(pre: UpdateView, t: Transition, post: UpdateView) -> bool {
    match t {
        Transition::Begin(total, r) => begin_step(pre, total, post, r),
        Transition::Receive(offset, data, r) => receive_step(pre, offset, data, post, r),
        Transition::Accept(r) => accept_step(pre, post, r),
        Transition::Commit(r) => commit_step(pre, post, r),
        Transition::Boot(r) => boot_step(pre, post, r),
        Transition::Confirm(counter, r) => confirm_step(pre, counter, post, r),
        Transition::Revert(r) => revert_step(pre, post, r),
    }
}

/// The calls take the machine through the states, one after the other.
pub open spec fn run(states: Seq<UpdateView>, calls: Seq<Transition>) -> bool {
    &&& states.len() == calls.len() + 1
    &&& forall|k: int|
        0 <= k < calls.len() ==> takes(states[k], #[trigger] calls[k], states[k + 1])
}

/// Until a commit, the machine touches nothing but the inactive bank: whatever
/// fails or is cut, the running bank boots and no record has moved.
pub proof fn streaming_touches_only_the_inactive_bank(
    pre: UpdateView,
    t: Transition,
    post: UpdateView,
)
    requires
        takes(pre, t, post),
        t is Begin || t is Receive || t is Accept,
    ensures
        only_bank_changed(pre.seam, post.seam),
        post.se.value == pre.se.value,
{
}

/// A refused chunk or file leaves nothing behind: nothing is in flight, no swap is
/// armed, and the bank was erased, unless the erase itself failed.
pub proof fn a_refused_file_leaves_nothing_behind(
    pre: UpdateView,
    t: Transition,
    post: UpdateView,
)
    requires
        takes(pre, t, post),
        match t {
            Transition::Receive(_, _, r) => r is Err,
            Transition::Accept(r) => r is Err,
            _ => false,
        },
        pre.mode == UpdateState::ReceivingChunks,
    ensures
        post.mode == UpdateState::Rejected || post.mode == UpdateState::Idle,
        post.received.len() == 0,
        post.seam.next == pre.seam.next,
        post.seam.pending == pre.seam.pending,
        post.seam.calls.last() matches SeamCall::Erase(e) && (e is Ok ==> bank_erased(post.seam)),
{
}

/// The bank that the next reset boots changes only where a commit of an accepted
/// file arms its target, or where a revert flips back while a confirm is owed.
pub proof fn a_swap_is_armed_only_by_commit_or_revert(
    pre: UpdateView,
    t: Transition,
    post: UpdateView,
)
    requires
        takes(pre, t, post),
        post.seam.next != pre.seam.next,
    ensures
        ({
            ||| {
                &&& t is Commit
                &&& pre.mode == UpdateState::PendingCommit
                &&& post.seam.next == pre.seam.target
            }
            ||| {
                &&& t is Revert
                &&& pre.mode == UpdateState::AwaitingConfirm
                &&& post.seam.next == other(pre.seam.running)
            }
        }),
{
}

/// A machine reaches the commit only with a complete, authentic file at or above
/// both anti-rollback floors, and the bank then holds that file byte for byte.
pub proof fn only_an_authentic_file_is_accepted(
    pre: UpdateView,
    t: Transition,
    post: UpdateView,
)
    requires
        takes(pre, t, post),
        post.mode == UpdateState::PendingCommit,
        pre.mode != UpdateState::PendingCommit,
    ensures
        t is Accept,
        post.received == pre.received,
        post.received.len() == pre.declared,
        stored_file(post.seam, post.received.len() - FRAME_LEN) == post.received,
        image_check(post.received, pre.key) matches Ok(fields) && fields.security_counter
            >= pre.seam.nvcnt && fields.security_counter >= SE_COUNTER_ORIGIN - pre.se.value,
{
}

/// The bytes that were verified are the bytes that a commit boots: a commit leaves
/// the bank as it found it.
pub proof fn commit_boots_the_verified_bytes(
    pre: UpdateView,
    post: UpdateView,
    r: Result<(), UpdateError>,
    payload_len: int,
)
    requires
        commit_step(pre, post, r),
    ensures
        stored_file(post.seam, payload_len) == stored_file(pre.seam, payload_len),
{
}

/// A commit arms the swap only right after the pending record was written and
/// names its target.
pub proof fn commit_records_before_it_arms(
    pre: UpdateView,
    post: UpdateView,
    r: Result<(), UpdateError>,
    k: int,
)
    requires
        commit_step(pre, post, r),
        pre.seam.calls.len() <= k < post.seam.calls.len(),
        post.seam.calls[k] is CommitSwap,
    ensures
        k > pre.seam.calls.len(),
        post.seam.calls[k - 1] == SeamCall::PendingWrite(
            PendingFlag::Armed(pre.seam.target),
            Ok(()),
        ),
{
}

/// A confirm is owed only after a boot with the armed bank running, so a revert
/// flips back only from a swap that took effect.
pub proof fn a_confirm_is_owed_only_by_the_armed_bank(
    pre: UpdateView,
    t: Transition,
    post: UpdateView,
)
    requires
        takes(pre, t, post),
        post.mode == UpdateState::AwaitingConfirm,
        pre.mode != UpdateState::AwaitingConfirm,
    ensures
        t is Boot,
        pre.seam.pending == PendingFlag::Armed(pre.seam.running),
        post.seam.pending == pre.seam.pending,
        post.seam.running == pre.seam.running,
        post.seam.boot_count == pre.seam.boot_count + 1,
{
}

/// A boot with the other bank running arms nothing: it clears the record, or
/// leaves it where the store fails.
pub proof fn a_swap_that_never_took_effect_is_dropped(
    pre: UpdateView,
    post: UpdateView,
    r: Result<UpdateState, UpdateError>,
)
    requires
        boot_step(pre, post, r),
        pre.seam.pending != PendingFlag::Armed(pre.seam.running),
    ensures
        post.seam.next == pre.seam.next,
        post.seam.running == pre.seam.running,
        post.seam.boot_count == pre.seam.boot_count,
        r is Ok ==> post.mode == UpdateState::Idle && post.seam.pending == PendingFlag::Clear,
{
}

/// The anti-rollback counter never falls. It rises only in a confirm, after the
/// pending record was cleared.
pub proof fn the_counter_rises_only_past_the_record(
    pre: UpdateView,
    t: Transition,
    post: UpdateView,
)
    requires
        takes(pre, t, post),
    ensures
        post.seam.nvcnt >= pre.seam.nvcnt,
        post.seam.nvcnt != pre.seam.nvcnt ==> {
            &&& t is Confirm
            &&& pre.mode == UpdateState::AwaitingConfirm
            &&& post.seam.pending == PendingFlag::Clear
            &&& post.mode == UpdateState::Confirming || post.mode == UpdateState::Confirmed
        },
{
}

/// Once a confirm has begun, a revert is refused, until a boot finds an armed
/// record again: the machine never both raises the counter and flips back.
pub proof fn a_begun_confirm_forecloses_a_revert(
    states: Seq<UpdateView>,
    calls: Seq<Transition>,
    k: int,
)
    requires
        run(states, calls),
        states[0].mode == UpdateState::Confirming || states[0].mode == UpdateState::Confirmed,
        forall|i: int| 0 <= i < calls.len() ==> !(#[trigger] calls[i] is Boot),
        0 <= k < calls.len(),
        calls[k] is Revert,
    ensures
        calls[k]->Revert_0 == Err::<(), UpdateError>(UpdateError::BadState),
        states[k + 1] == states[k],
        states[k + 1].mode == states[0].mode,
{
    lemma_settled_stays(states, calls, k);
    assert(takes(states[k], calls[k], states[k + 1]));
}

/// Without a boot, a machine past its decision stays where it is.
proof fn lemma_settled_stays(states: Seq<UpdateView>, calls: Seq<Transition>, k: int)
    requires
        run(states, calls),
        settled(states[0].mode),
        forall|i: int| 0 <= i < calls.len() ==> !(#[trigger] calls[i] is Boot),
        0 <= k <= calls.len(),
    ensures
        states[k] == states[0],
    decreases k,
{
    if k > 0 {
        lemma_settled_stays(states, calls, k - 1);
        assert(takes(states[k - 1], calls[k - 1], states[k - 1 + 1]));
    }
}

/// The states that every call but a boot refuses.
pub open spec fn settled(mode: UpdateState) -> bool {
    ||| mode == UpdateState::Rejected
    ||| mode == UpdateState::Committed
    ||| mode == UpdateState::BootingNew
    ||| mode == UpdateState::VerifyingImage
    ||| mode == UpdateState::Confirming
    ||| mode == UpdateState::Confirmed
    ||| mode == UpdateState::Reverted
}

/// A refused transfer cannot be resumed, and a committed, confirmed or reverted
/// update takes no further call: all but a boot are refused and change nothing.
pub proof fn a_settled_machine_refuses_every_call(
    states: Seq<UpdateView>,
    calls: Seq<Transition>,
)
    requires
        run(states, calls),
        settled(states[0].mode),
        forall|i: int| 0 <= i < calls.len() ==> !(#[trigger] calls[i] is Boot),
    ensures
        forall|k: int| 0 <= k < states.len() ==> #[trigger] states[k] == states[0],
{
    assert forall|k: int| 0 <= k < states.len() implies #[trigger] states[k] == states[0] by {
        lemma_settled_stays(states, calls, k);
    }
}

/// The data of the chunks, one after the other.
pub open spec fn streamed(calls: Seq<Transition>) -> Seq<u8>
    decreases calls.len(),
{
    if calls.len() == 0 {
        Seq::empty()
    } else {
        streamed(calls.drop_last()) + calls.last()->Receive_1
    }
}

/// How a file is cut into chunks does not matter: a run of accepted chunks leaves
/// the machine with their data, in order.
pub proof fn accepted_chunks_add_up(states: Seq<UpdateView>, calls: Seq<Transition>)
    requires
        run(states, calls),
        forall|i: int|
            0 <= i < calls.len() ==> (#[trigger] calls[i] is Receive) && calls[i]->Receive_2 is Ok,
    ensures
        states.last().received == states[0].received + streamed(calls),
        calls.len() > 0 ==> states.last().mode == UpdateState::ReceivingChunks,
        calls.len() > 0 ==> states.last().declared == states[0].declared,
    decreases calls.len(),
{
    if calls.len() > 0 {
        let n = calls.len() - 1;
        let fewer = calls.drop_last();
        let front = states.drop_last();
        assert forall|k: int| 0 <= k < fewer.len() implies takes(
            front[k],
            #[trigger] fewer[k],
            front[k + 1],
        ) by {
            assert(calls[k] == fewer[k]);
        }
        assert forall|i: int| 0 <= i < fewer.len() implies (#[trigger] fewer[i] is Receive)
            && fewer[i]->Receive_2 is Ok by {
            assert(calls[i] == fewer[i]);
        }
        accepted_chunks_add_up(front, fewer);
        assert(takes(states[n], calls[n], states[n + 1]));
        assert(states.last().received =~= states[0].received + streamed(calls));
    } else {
        assert(states[0].received + Seq::<u8>::empty() =~= states[0].received);
    }
}

/// A confirmed counter is a floor: no file with a smaller counter is accepted
/// afterwards.
pub proof fn a_confirmed_counter_is_a_floor(
    pre: UpdateView,
    counter: u32,
    post: UpdateView,
    file: Seq<u8>,
    declared: int,
    se_value: u32,
)
    requires
        pre.mode == UpdateState::AwaitingConfirm,
        confirm_step(pre, counter, post, Ok(())),
        image_check(file, post.key) matches Ok(fields) && fields.security_counter < counter,
    ensures
        accept_verdict(file, declared, post.key, post.seam.nvcnt, se_value) is Err,
{
}

/// Equal to both floors is not a rollback: the same image can be installed again.
pub proof fn an_equal_counter_is_accepted(counter: u32)
    ensures
        gate_verdict(counter, counter, (SE_COUNTER_ORIGIN - counter) as u32) is Ok,
        counter > 0 ==> gate_verdict((counter - 1) as u32, counter, SE_COUNTER_ORIGIN) is Err,
        counter > 0 ==> gate_verdict((counter - 1) as u32, 0, (SE_COUNTER_ORIGIN - counter) as u32) is Err,
{
}

/// The gates let a counter through exactly from both floors up: it is not below the
/// stored counter, and not below the number of ticks that the secure element has spent.
/// A higher counter never does worse than a lower one.
pub proof fn the_gates_open_from_both_floors_up(
    counter: u32,
    higher: u32,
    nvcnt: u32,
    se_value: u32,
)
    ensures
        counter >= nvcnt && counter >= 0xFFFF_FFFF - se_value ==> gate_verdict(
            counter,
            nvcnt,
            se_value,
        ) == Ok::<(), UpdateError>(()),
        counter < nvcnt || counter < 0xFFFF_FFFF - se_value ==> gate_verdict(
            counter,
            nvcnt,
            se_value,
        ) == Err::<(), UpdateError>(UpdateError::Rollback),
        gate_verdict(counter, nvcnt, se_value) is Ok && higher >= counter ==> gate_verdict(
            higher,
            nvcnt,
            se_value,
        ) is Ok,
{
}

/// A complete file that verifies, with a counter at or above both floors, is accepted.
/// Any other file is refused, and the reason says what is wrong with it first.
pub proof fn a_file_is_judged_by_length_signature_and_counter(
    file: Seq<u8>,
    declared: int,
    key: Seq<u8>,
    nvcnt: u32,
    se_value: u32,
)
    ensures
        ({
            let verdict = accept_verdict(file, declared, key, nvcnt, se_value);
            &&& file.len() != declared ==> verdict == Err::<(), UpdateError>(
                UpdateError::Incomplete,
            )
            &&& file.len() == declared ==> match image_check(file, key) {
                Err(e) => verdict == Err::<(), UpdateError>(UpdateError::VerifyFailed(e)),
                Ok(fields) => {
                    let counter = fields.security_counter;
                    &&& counter >= nvcnt && counter >= 0xFFFF_FFFF - se_value ==> verdict == Ok::<
                        (),
                        UpdateError,
                    >(())
                    &&& counter < nvcnt || counter < 0xFFFF_FFFF - se_value ==> verdict == Err::<
                        (),
                        UpdateError,
                    >(UpdateError::Rollback)
                },
            }
        }),
{
}

/// A start is refused outside of the idle state, and for a file that the bank cannot
/// take. One that succeeds leaves the whole bank erased, descriptor and payload, and
/// waits for the first byte.
pub proof fn a_start_erases_the_bank(
    pre: UpdateView,
    total: int,
    post: UpdateView,
    r: Result<(), UpdateError>,
)
    requires
        begin_step(pre, total, post, r),
    ensures
        ({
            let capacity = 88 + pre.seam.secure.len() + pre.seam.ns.len();
            &&& pre.mode != UpdateState::Idle <==> r == Err::<(), UpdateError>(
                UpdateError::BadState,
            )
            &&& pre.mode == UpdateState::Idle && total > capacity <==> r == Err::<(), UpdateError>(
                UpdateError::ChunkOutOfRange,
            )
            &&& r is Err && !(r->Err_0 is Flash) ==> post == pre
            &&& r is Err ==> post.mode == pre.mode && post.received == pre.received
                && post.declared == pre.declared
        }),
        r is Ok ==> {
            &&& post.mode == UpdateState::ReceivingChunks
            &&& post.declared == total
            &&& post.received.len() == 0
            &&& forall|i: int|
                0 <= i < post.seam.descriptor.len() ==> #[trigger] post.seam.descriptor[i] == 0xFF
            &&& forall|i: int|
                0 <= i < post.seam.secure.len() ==> #[trigger] post.seam.secure[i] == 0xFF
            &&& forall|i: int| 0 <= i < post.seam.ns.len() ==> #[trigger] post.seam.ns[i] == 0xFF
            &&& post.seam.calls == pre.seam.calls.push(SeamCall::Erase(Ok(())))
        },
        post.seam.nvcnt == pre.seam.nvcnt,
        post.seam.pending == pre.seam.pending,
        post.seam.next == pre.seam.next,
        post.se == pre.se,
        post.key == pre.key,
{
    if r is Ok {
        assert forall|i: int| 0 <= i < post.seam.secure.len() implies #[trigger] post.seam.secure[i]
            == 0xFF by {
            assert(post.seam.payload()[i] == post.seam.secure[i]);
        }
        assert forall|i: int| 0 <= i < post.seam.ns.len() implies #[trigger] post.seam.ns[i]
            == 0xFF by {
            assert(post.seam.payload()[post.seam.secure.len() + i] == post.seam.ns[i]);
        }
    }
}

/// A chunk is taken only where it continues the bytes before it and stays inside the
/// declared length. The bytes received grow by exactly the chunk, every payload page
/// that is complete stands in the bank, and the rest of the bank is still erased.
pub proof fn a_chunk_continues_the_file(
    pre: UpdateView,
    offset: int,
    data: Seq<u8>,
    post: UpdateView,
    i: int,
)
    requires
        receive_step(pre, offset, data, post, Ok(())),
        0 <= i < pre.seam.secure.len() + pre.seam.ns.len(),
    ensures
        pre.mode == UpdateState::ReceivingChunks,
        post.mode == UpdateState::ReceivingChunks,
        offset == pre.received.len(),
        offset + data.len() <= pre.declared,
        post.declared == pre.declared,
        post.received == pre.received + data,
        ({
            let got = post.received.len() - 24;
            let payload = post.declared - 88;
            let page_end = (i / 256) * 256 + 256;
            let byte = if i < post.seam.secure.len() {
                post.seam.secure[i]
            } else {
                post.seam.ns[i - post.seam.secure.len()]
            };
            &&& page_end <= got && page_end <= payload ==> byte == post.received[24 + i]
            &&& page_end > got || page_end > payload ==> byte == 0xFF
        }),
        forall|k: int|
            0 <= k < post.seam.descriptor.len() ==> #[trigger] post.seam.descriptor[k] == 0xFF,
{
    let bytes = post.seam.payload();
    assert(bytes.len() == post.seam.secure.len() + post.seam.ns.len());
    assert(i < post.seam.secure.len() ==> bytes[i] == post.seam.secure[i]);
    assert(i >= post.seam.secure.len() ==> bytes[i] == post.seam.ns[i - post.seam.secure.len()]);
    let flushed = payload_flushed(post.received.len() as int, post.declared);
    let n = payload_received(post.received.len() as int, post.declared);
    assert(flushed == (n / 256) * 256);
    let page_end = (i / 256) * 256 + 256;
    if page_end <= n {
        assert(i < flushed) by (nonlinear_arith)
            requires
                flushed == (n / 256) * 256,
                page_end == (i / 256) * 256 + 256,
                page_end <= n,
                0 <= i,
        ;
    } else {
        assert(i >= flushed) by (nonlinear_arith)
            requires
                flushed == (n / 256) * 256,
                page_end == (i / 256) * 256 + 256,
                page_end > n,
                0 <= i,
        ;
    }
}

/// A chunk out of place, or past the declared length, is refused as such and ends the
/// transfer. Any other refusal of a receiving machine comes from the flash, at a page
/// write.
pub proof fn a_chunk_out_of_place_ends_the_transfer(
    pre: UpdateView,
    offset: int,
    data: Seq<u8>,
    post: UpdateView,
    r: Result<(), UpdateError>,
)
    requires
        receive_step(pre, offset, data, post, r),
    ensures
        pre.mode != UpdateState::ReceivingChunks <==> r == Err::<(), UpdateError>(
            UpdateError::BadState,
        ),
        pre.mode != UpdateState::ReceivingChunks ==> post == pre,
        pre.mode == UpdateState::ReceivingChunks && (offset != pre.received.len() || offset
            + data.len() > pre.declared) <==> r == Err::<(), UpdateError>(
            UpdateError::ChunkOutOfRange,
        ),
        r matches Err(e) ==> e == UpdateError::BadState || {
            &&& post.mode == UpdateState::Rejected
            &&& post.declared == 0 && post.received.len() == 0
            &&& e == UpdateError::ChunkOutOfRange || e is Flash && post.seam.calls.len()
                >= pre.seam.calls.len() + 2 && post.seam.calls[post.seam.calls.len() - 2] is WritePage
        },
        post.seam.nvcnt == pre.seam.nvcnt,
        post.seam.pending == pre.seam.pending,
        post.seam.next == pre.seam.next,
        post.se == pre.se,
        post.key == pre.key,
{
}

/// An accepted file stands in the bank byte for byte: the header at the front of the
/// descriptor, the signature behind it, and the payload from the start of the secure
/// band across into the non-secure one.
pub proof fn an_accepted_file_stands_in_the_bank(pre: UpdateView, post: UpdateView)
    requires
        pre.mode == UpdateState::ReceivingChunks,
        accept_step(pre, post, Ok(())),
        post.seam.wf(),
        pre.received.len() <= 88 + post.seam.secure.len() + post.seam.ns.len(),
    ensures
        post.mode == UpdateState::PendingCommit,
        post.received == pre.received,
        pre.received.len() == pre.declared,
        pre.received.len() >= 88,
        post.seam.descriptor.subrange(0, 24) == pre.received.subrange(0, 24),
        post.seam.descriptor.subrange(24, 88) == pre.received.subrange(
            pre.received.len() - 64,
            pre.received.len() as int,
        ),
        (post.seam.secure + post.seam.ns).subrange(0, pre.received.len() - 88)
            == pre.received.subrange(24, pre.received.len() - 64),
        image_check(pre.received, pre.key) matches Ok(fields) && fields.security_counter
            >= pre.seam.nvcnt && fields.security_counter >= 0xFFFF_FFFF - pre.se.value,
        post.seam.next == pre.seam.next,
        post.seam.pending == pre.seam.pending,
        post.seam.nvcnt == pre.seam.nvcnt,
        post.se.value == pre.se.value,
        post.key == pre.key,
{
    let file = pre.received;
    an_accepted_image_is_authentic(file, pre.key);
    let n = file.len() - 88;
    let held = stored_file(post.seam, n);
    assert(held == file);
    assert(post.seam.descriptor.subrange(0, 24) =~= held.subrange(0, 24));
    assert(post.seam.descriptor.subrange(24, 88) =~= held.subrange(n + 24, n + 88));
    assert((post.seam.secure + post.seam.ns).subrange(0, n) =~= held.subrange(24, n + 24));
}

/// A file that was not accepted is gone, and the machine is idle. Nothing was armed and
/// no record moved. The reason is that of the file, or a fault of a seam.
pub proof fn a_file_that_was_not_accepted_is_gone(
    pre: UpdateView,
    post: UpdateView,
    e: UpdateError,
)
    requires
        accept_step(pre, post, Err(e)),
    ensures
        pre.mode != UpdateState::ReceivingChunks <==> e == UpdateError::BadState,
        pre.mode != UpdateState::ReceivingChunks ==> post == pre,
        pre.mode == UpdateState::ReceivingChunks ==> {
            &&& post.mode == UpdateState::Idle
            &&& post.declared == 0 && post.received.len() == 0
            &&& post.seam.calls.last() is Erase
            &&& e is Flash || e is SeCounter || e == UpdateError::Incomplete && pre.received.len()
                != pre.declared || {
                &&& pre.received.len() == pre.declared
                &&& match image_check(pre.received, pre.key) {
                    Err(v) => e == UpdateError::VerifyFailed(v),
                    Ok(fields) => e == UpdateError::Rollback && (fields.security_counter
                        < pre.seam.nvcnt || fields.security_counter < 0xFFFF_FFFF - pre.se.value),
                }
            }
        },
        post.seam.next == pre.seam.next,
        post.seam.pending == pre.seam.pending,
        post.seam.nvcnt == pre.seam.nvcnt,
        post.se.value == pre.se.value,
        post.key == pre.key,
{
}

/// A commit that succeeds arms the swap: the record names the inactive bank, that bank
/// boots next, and the bank and the counters are as they were. One that fails stays
/// ready to be tried again.
pub proof fn a_commit_arms_the_inactive_bank(
    pre: UpdateView,
    post: UpdateView,
    r: Result<(), UpdateError>,
)
    requires
        commit_step(pre, post, r),
    ensures
        pre.mode != UpdateState::PendingCommit <==> r == Err::<(), UpdateError>(
            UpdateError::BadState,
        ),
        pre.mode != UpdateState::PendingCommit ==> post == pre,
        r is Ok ==> {
            &&& post.mode == UpdateState::Committed
            &&& post.seam.next == pre.seam.target
            &&& post.seam.pending == PendingFlag::Armed(pre.seam.target)
            &&& post.seam.outcome == pre.seam.outcome
            &&& post.seam.calls == pre.seam.calls.push(
                SeamCall::TargetBank(Ok(pre.seam.target)),
            ).push(SeamCall::PendingWrite(PendingFlag::Armed(pre.seam.target), Ok(()))).push(
                SeamCall::CommitSwap(Ok(())),
            )
        },
        r is Err ==> post.mode == pre.mode && post.seam.running == pre.seam.running,
        r matches Err(e) ==> e is Flash || e == UpdateError::BadState,
        post.seam.descriptor == pre.seam.descriptor,
        post.seam.secure == pre.seam.secure,
        post.seam.ns == pre.seam.ns,
        post.seam.nvcnt == pre.seam.nvcnt,
        post.seam.boot_count == pre.seam.boot_count,
        post.se == pre.se,
        post.received == pre.received && post.declared == pre.declared,
{
}

/// The first look at the records: with the armed bank running the boot is counted and a
/// confirm is owed; with the other bank running the record is cleared; without a record
/// there is nothing to do.
pub proof fn a_boot_finds_what_the_records_say(
    pre: UpdateView,
    post: UpdateView,
    r: Result<UpdateState, UpdateError>,
)
    requires
        boot_step(pre, post, r),
    ensures
        r is Ok && pre.seam.pending == PendingFlag::Armed(pre.seam.running) ==> {
            &&& r == Ok::<UpdateState, UpdateError>(UpdateState::AwaitingConfirm)
            &&& post.mode == UpdateState::AwaitingConfirm
            &&& post.seam.boot_count == pre.seam.boot_count + 1
            &&& post.seam.pending == pre.seam.pending
        },
        r is Ok && pre.seam.pending != PendingFlag::Armed(pre.seam.running) ==> {
            &&& r == Ok::<UpdateState, UpdateError>(UpdateState::Idle)
            &&& post.mode == UpdateState::Idle
            &&& post.seam.boot_count == pre.seam.boot_count
            &&& post.seam.pending == PendingFlag::Clear
        },
        r matches Err(e) ==> e is Flash,
        post.seam.next == pre.seam.next,
        post.seam.running == pre.seam.running,
        post.seam.nvcnt == pre.seam.nvcnt,
        r is Ok ==> post.seam.outcome == pre.seam.outcome,
        post.seam.descriptor == pre.seam.descriptor,
        post.seam.secure == pre.seam.secure,
        post.seam.ns == pre.seam.ns,
        post.se == pre.se,
        post.received == pre.received && post.declared == pre.declared,
{
}

/// A confirm that succeeds spends exactly one tick, clears the record and leaves the
/// counter at the value given. It is refused outside of its state, and before the new
/// bank has booted once.
pub proof fn a_confirm_spends_a_tick_and_raises_the_counter(
    pre: UpdateView,
    counter: u32,
    post: UpdateView,
    r: Result<(), UpdateError>,
)
    requires
        confirm_step(pre, counter, post, r),
    ensures
        r is Ok ==> {
            &&& pre.mode == UpdateState::AwaitingConfirm
            &&& post.mode == UpdateState::Confirmed
            &&& pre.seam.boot_count >= 1
            &&& post.se.value == pre.se.value - 1
            &&& post.seam.pending == PendingFlag::Clear
            &&& post.seam.nvcnt == counter && counter >= pre.seam.nvcnt
            &&& post.seam.outcome == pre.seam.outcome
        },
        pre.mode != UpdateState::AwaitingConfirm ==> r == Err::<(), UpdateError>(
            UpdateError::BadState,
        ) && post == pre,
        r == Err::<(), UpdateError>(UpdateError::BadState) ==> {
            &&& pre.mode != UpdateState::AwaitingConfirm || pre.seam.boot_count == 0
            &&& post.mode == pre.mode
            &&& post.se == pre.se
            &&& post.seam.nvcnt == pre.seam.nvcnt && post.seam.pending == pre.seam.pending
        },
        r is Err && pre.mode == UpdateState::AwaitingConfirm ==> {
            &&& post.mode == UpdateState::AwaitingConfirm || post.mode == UpdateState::Confirming
            &&& post.mode == UpdateState::AwaitingConfirm ==> post.se == pre.se && post.seam.nvcnt
                == pre.seam.nvcnt && post.seam.pending == pre.seam.pending
        },
        post.se.value == pre.se.value || post.se.value == pre.se.value - 1,
        post.seam.next == pre.seam.next,
        post.seam.running == pre.seam.running,
        post.seam.boot_count == pre.seam.boot_count,
        post.seam.descriptor == pre.seam.descriptor,
        post.seam.secure == pre.seam.secure,
        post.seam.ns == pre.seam.ns,
{
}

/// A revert that succeeds arms the bank that is not running and clears the record. It
/// spends no tick and raises no counter, and one that fails can be tried again.
pub proof fn a_revert_arms_the_other_bank(
    pre: UpdateView,
    post: UpdateView,
    r: Result<(), UpdateError>,
)
    requires
        revert_step(pre, post, r),
    ensures
        pre.mode != UpdateState::AwaitingConfirm <==> r == Err::<(), UpdateError>(
            UpdateError::BadState,
        ),
        pre.mode != UpdateState::AwaitingConfirm ==> post == pre,
        r is Ok ==> {
            &&& post.mode == UpdateState::Reverted
            &&& post.seam.next != pre.seam.running
            &&& post.seam.pending == PendingFlag::Clear
            &&& post.seam.running == pre.seam.running
            &&& post.seam.outcome == pre.seam.outcome
        },
        r is Err ==> post.mode == pre.mode,
        post.seam.nvcnt == pre.seam.nvcnt,
        post.seam.boot_count == pre.seam.boot_count,
        post.se == pre.se,
        post.seam.descriptor == pre.seam.descriptor,
        post.seam.secure == pre.seam.secure,
        post.seam.ns == pre.seam.ns,
{
}

/// A bank is erased where every byte of it is all ones, the descriptor and both bands.
pub proof fn an_erased_bank_is_all_ones(seam: SeamView, i: int)
    requires
        bank_erased(seam),
    ensures
        0 <= i < seam.descriptor.len() ==> seam.descriptor[i] == 0xFF,
        0 <= i < seam.secure.len() ==> seam.secure[i] == 0xFF,
        0 <= i < seam.ns.len() ==> seam.ns[i] == 0xFF,
{
    assert(0 <= i < seam.secure.len() ==> seam.payload()[i] == seam.secure[i]);
    assert(0 <= i < seam.ns.len() ==> seam.payload()[seam.secure.len() + i] == seam.ns[i]);
}

/// A stream of records carries its chunks, one after the other: a chunk of up to 255
/// bytes behind its length. A last chunk that is cut short carries what is there. The
/// length of the file stands in front, low byte first, and wraps at that of the bank.
pub proof fn a_stream_carries_its_chunks(
    low: u8,
    high: u8,
    chunk: Seq<u8>,
    rest: Seq<u8>,
    short: Seq<u8>,
    len: u8,
)
    requires
        chunk.len() <= 255,
        short.len() <= len,
    ensures
        carried_file(Seq::<u8>::empty()).len() == 0,
        carried_file(seq![chunk.len() as u8] + chunk + rest) == chunk + carried_file(rest),
        carried_file(seq![len] + short) == short,
        record_bytes(seq![low, high] + rest) == rest,
        low + 256 * high <= 4096 ==> declared_len(seq![low, high] + rest) == low + 256 * high,
        low + 256 * high > 4096 ==> declared_len(seq![low, high] + rest) == (low + 256 * high)
            % 4097,
{
    let one = seq![chunk.len() as u8] + chunk + rest;
    assert(one.subrange(1, 1int + chunk.len()) =~= chunk);
    assert(one.skip(1int + chunk.len()) =~= rest);
    let cut = seq![len] + short;
    assert(cut.subrange(1, 1int + short.len()) =~= short);
    assert(cut.skip(1int + short.len()) =~= Seq::<u8>::empty());
    assert(carried_file(cut.skip(1int + short.len())) =~= Seq::<u8>::empty());
    assert(short + Seq::<u8>::empty() =~= short);
    let whole = seq![low, high] + rest;
    assert(whole.skip(2) =~= rest);
}

/// An acceptance ends with the counter read and the descriptor written, which is the
/// first 24 and the last 64 bytes of the file. Before that at most one page was written.
pub proof fn an_acceptance_writes_the_descriptor_last(pre: UpdateView, post: UpdateView)
    requires
        pre.mode == UpdateState::ReceivingChunks,
        accept_step(pre, post, Ok(())),
    ensures
        ({
            let n = post.seam.calls.len() as int;
            let m = pre.seam.calls.len() as int;
            let file = pre.received;
            &&& m + 2 <= n <= m + 3
            &&& post.seam.calls[n - 1] == SeamCall::WriteDescriptor(
                file.subrange(0, 24) + file.subrange(file.len() - 64, file.len() as int),
                Ok(()),
            )
            &&& post.seam.calls[n - 2] == SeamCall::NvcntRead(Ok(pre.seam.nvcnt))
            &&& n == m + 3 ==> post.seam.calls[m] is WritePage
            &&& forall|k: int| 0 <= k < m ==> #[trigger] post.seam.calls[k] == pre.seam.calls[k]
        }),
{
    let before = pre.seam.calls;
    let after = post.seam.calls;
    let file = pre.received;
    an_accepted_image_is_authentic(file, pre.key);
    assert(file.take(24) =~= file.subrange(0, 24));
    assert(file.skip(file.len() - 64) =~= file.subrange(file.len() - 64, file.len() as int));
    let flushed = after.take(after.len() - 2);
    assert(after[after.len() - 1] == flushed.push(SeamCall::NvcntRead(Ok(pre.seam.nvcnt))).push(
        after[after.len() - 1],
    ).last());
    assert forall|k: int| 0 <= k < before.len() implies #[trigger] after[k] == before[k] by {
        assert(after.take(before.len() as int)[k] == before[k]);
    }
    if flushed != before {
        assert(flushed.len() == before.len() + 1);
        assert(flushed[before.len() as int] == after[before.len() as int]);
    }
}

/// A fault of the flash that ends an acceptance stands in the log: the call before the
/// cleanup was answered with it. The calls before the acceptance are kept, and at most
/// one page write, one read of the counter and one descriptor write came on top.
pub proof fn a_flash_fault_in_an_acceptance_is_logged(
    pre: UpdateView,
    post: UpdateView,
    r: Result<(), UpdateError>,
)
    requires
        pre.mode == UpdateState::ReceivingChunks,
        accept_step(pre, post, r),
    ensures
        ({
            let before = pre.seam.calls;
            let after = post.seam.calls;
            let n = after.len() as int;
            &&& before.len() <= n && after.take(before.len() as int) == before
            &&& r is Ok ==> post.declared == pre.declared
            &&& r is Err ==> n <= before.len() + 4
            &&& r matches Err(UpdateError::Flash(f)) ==> {
                &&& n >= before.len() + 2
                &&& match after[n - 2] {
                    SeamCall::WritePage(_, _, a) => a == Err::<(), FlashError>(f),
                    SeamCall::NvcntRead(a) => a == Err::<u32, FlashError>(f),
                    SeamCall::WriteDescriptor(_, a) => a == Err::<(), FlashError>(f),
                    _ => false,
                }
            }
        }),
{
    let before = pre.seam.calls;
    let after = post.seam.calls;
    if r is Err {
        let cut = after.drop_last();
        assert(after.len() > 0);
        assert(refusal_calls(before, cut));
        let read = cut.drop_last();
        if after.len() >= before.len() + 2 {
            assert(cut.last() == after[after.len() - 2]);
            if at_most_a_page(before, cut) {
                assert(cut.len() <= before.len() + 1);
            } else if cut.last() is NvcntRead && at_most_a_page(before, read) {
                assert(read.len() <= before.len() + 1);
            } else {
                assert(at_most_a_page(before, read.drop_last()));
                assert(read.drop_last().len() <= before.len() + 1);
            }
        }
    }
}

/// Where the faults are scripted, a call of the machine succeeds only past a script that
/// leaves its steps alone, and leaves the script as it was. A commit whose swap fails
/// has met the fault that was scripted for it, and has cleared the record again.
pub proof fn a_scripted_fault_stops_the_machine(
    pre: UpdateView,
    post: UpdateView,
    r: Result<(), UpdateError>,
)
    ensures
        accept_step(pre, post, r) && r is Ok ==> {
            &&& pre.seam.script != Some(FaultPoint::WritePage)
            &&& post.seam.script == pre.seam.script
        },
        commit_step(pre, post, r) && r is Ok ==> {
            &&& pre.seam.script != Some(FaultPoint::PendingWrite)
            &&& pre.seam.script != Some(FaultPoint::Commit)
            &&& post.seam.script == pre.seam.script
            &&& post.seam.running == pre.seam.running || post.seam.running == pre.seam.target
        },
        commit_step(pre, post, r) && pre.seam.script == Some(FaultPoint::Commit) && pre.mode
            == UpdateState::PendingCommit ==> {
            &&& r == Err::<(), UpdateError>(UpdateError::Flash(FlashError::Hardware))
            &&& post.seam.pending == PendingFlag::Clear && post.seam.next == pre.seam.next
            &&& post.seam.script == Some(FaultPoint::Off)
        },
        commit_step(pre, post, r) && pre.seam.script == Some(FaultPoint::PendingWrite) && pre.mode
            == UpdateState::PendingCommit ==> {
            &&& r == Err::<(), UpdateError>(UpdateError::Flash(FlashError::WriteFailed))
            &&& post.seam.pending == pre.seam.pending && post.seam.next == pre.seam.next
        },
        revert_step(pre, post, r) && r is Ok ==> {
            &&& pre.seam.script != Some(FaultPoint::Revert)
            &&& pre.seam.script != Some(FaultPoint::PendingWrite)
        },
        revert_step(pre, post, r) && pre.seam.script == Some(FaultPoint::Revert) && pre.mode
            == UpdateState::AwaitingConfirm ==> {
            &&& r == Err::<(), UpdateError>(UpdateError::Flash(FlashError::Hardware))
            &&& post.seam.next == pre.seam.next && post.seam.pending == pre.seam.pending
        },
{
}

/// A confirm begins only once the new bank has booted, and a fault that stops it stands
/// in the log of its seam. Where the faults are scripted, a read never fails.
pub proof fn a_confirm_begins_after_a_boot(
    pre: UpdateView,
    counter: u32,
    post: UpdateView,
    r: Result<(), UpdateError>,
)
    requires
        pre.mode == UpdateState::AwaitingConfirm,
        confirm_step(pre, counter, post, r),
    ensures
        post.mode == UpdateState::Confirming || post.mode == UpdateState::Confirmed
            ==> pre.seam.boot_count >= 1,
        pre.seam.boot_count == 0 && r is Ok ==> false,
        pre.seam.script is Some && r is Err && post.mode == UpdateState::AwaitingConfirm
            ==> pre.seam.boot_count == 0,
        pre.seam.script == Some(FaultPoint::PendingWrite) ==> r is Err && post.seam.nvcnt
            == pre.seam.nvcnt,
        pre.seam.script == Some(FaultPoint::NvcntBump) ==> r is Err && post.seam.nvcnt
            == pre.seam.nvcnt,
        r matches Err(UpdateError::Flash(f)) ==> match post.seam.calls.last() {
            SeamCall::BootCountRead(a) => a == Err::<u32, FlashError>(f) && post.se == pre.se,
            SeamCall::PendingWrite(flag, a) => {
                flag == PendingFlag::Clear && a == Err::<(), FlashError>(f) && post.se.value
                    == pre.se.value - 1
            },
            SeamCall::NvcntBump(value, a) => {
                value == counter && a == Err::<(), FlashError>(f) && post.seam.pending
                    == PendingFlag::Clear && post.se.value == pre.se.value - 1
            },
            _ => false,
        },
        r matches Err(UpdateError::SeCounter(f)) ==> post.seam.pending == pre.seam.pending
            && post.seam.nvcnt == pre.seam.nvcnt && post.se.value == pre.se.value,
{
}

/// A chunk that is taken writes pages and makes no other call. One that is out of place
/// makes one call, the erase. A flash fault stands in the log, as the answer to a page
/// write behind others that succeeded, and comes only where the chunk completes a page.
pub proof fn a_chunk_writes_pages_and_nothing_else(
    pre: UpdateView,
    offset: int,
    data: Seq<u8>,
    post: UpdateView,
    r: Result<(), UpdateError>,
)
    requires
        pre.mode == UpdateState::ReceivingChunks,
        receive_step(pre, offset, data, post, r),
    ensures
        ({
            let before = pre.seam.calls;
            let after = post.seam.calls;
            let n = after.len() as int;
            &&& before.len() <= n && after.take(before.len() as int) == before
            &&& r is Ok ==> {
                &&& forall|k: int|
                    before.len() <= k < n ==> (#[trigger] after[k] matches SeamCall::WritePage(_, _, a)
                        && a is Ok)
                &&& post.seam.script == pre.seam.script
            }
            &&& r == Err::<(), UpdateError>(UpdateError::ChunkOutOfRange) ==> n == before.len() + 1
                && after[n - 1] is Erase
            &&& r matches Err(UpdateError::Flash(f)) ==> {
                &&& n >= before.len() + 2 && after[n - 1] is Erase
                &&& after[n - 2] matches SeamCall::WritePage(_, _, a) && a == Err::<(), FlashError>(f)
                &&& forall|k: int|
                    before.len() <= k < n - 2 ==> (#[trigger] after[k] matches SeamCall::WritePage(
                        _,
                        _,
                        a,
                    ) && a is Ok)
                &&& pre.received.len() + data.len() >= 24 + 256 && pre.declared >= 88 + 256
            }
        }),
{
    let before = pre.seam.calls;
    let after = post.seam.calls;
    if r is Ok {
        assert forall|k: int| before.len() <= k < after.len() implies (
        #[trigger] after[k] matches SeamCall::WritePage(_, _, a) && a is Ok) by {
            assert(is_page_write(after[k]));
        }
    } else if r->Err_0 is Flash {
        assert forall|k: int| before.len() <= k < after.len() - 2 implies (
        #[trigger] after[k] matches SeamCall::WritePage(_, _, a) && a is Ok) by {
            assert(is_page_write(after[k]));
        }
        let total = pre.received.len() + data.len();
        let n = payload_received(total as int, pre.declared);
        assert(payload_flushed(total as int, pre.declared) > 0);
        assert(n >= 256) by (nonlinear_arith)
            requires
                (n / 256) * 256 > 0,
        ;
    } else {
        assert(after.len() == before.len() + 1);
    }
}

} // verus!
