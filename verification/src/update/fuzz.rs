//! Fuzzing entry over the update machine, under a fixed test key.

use vstd::prelude::*;
use vstd::slice::slice_subrange;

use crate::image::crypto::is_uncompressed_point;
use crate::image::format::ROOT_KEY_LEN;
use crate::image::verify::RootKey;
use crate::update::machine::SE_COUNTER_ORIGIN;
use crate::update::machine::UpdateState;
use crate::update::machine::Updater;
use crate::update::machine::accept_verdict;
use crate::update::machine::in_order;
use crate::update::mock::BANK_LEN;
use crate::update::mock::MockFlash;
use crate::update::mock::MockSeCounter;
use crate::update::seam::FlashSeam;
use crate::update::seam::SeCounterSeam;

verus! {

/// The public key of the all-`0x01` private scalar, a publicly known value.
/// Test only: it must never be a trust anchor of a product.
pub const DEV_ROOT_KEY_TEST_ONLY: [u8; ROOT_KEY_LEN] = [
    0x04, 0x6f, 0xf0, 0x3b, 0x94, 0x92, 0x41, 0xce, 0x1d, 0xad, 0xd4, 0x35, 0x19, 0xe6, 0x96, 0x0e,
    0x0a, 0x85, 0xb4, 0x1a, 0x69, 0xa0, 0x5c, 0x32, 0x81, 0x03, 0xaa, 0x2b, 0xce, 0x15, 0x94, 0xca,
    0x16, 0x3c, 0x4f, 0x75, 0x3a, 0x55, 0xbf, 0x01, 0xdc, 0x53, 0xf6, 0xc0, 0xb0, 0xc7, 0xee, 0xe7,
    0x8b, 0x40, 0xc6, 0xff, 0x7d, 0x25, 0xa9, 0x6e, 0x22, 0x82, 0xb9, 0x89, 0xce, 0xf7, 0x1c, 0x14,
    0x4a,
];

/// The length that the first two bytes declare, inside the modelled bank.
pub open spec fn declared_len(data: Seq<u8>) -> int {
    if data.len() >= 2 {
        (data[0] + 256 * data[1]) % (BANK_LEN + 1)
    } else {
        0
    }
}

/// The records behind the declared length.
pub open spec fn record_bytes(data: Seq<u8>) -> Seq<u8> {
    if data.len() >= 2 {
        data.skip(2)
    } else {
        data
    }
}

/// The file that a stream of records carries. A record is a length byte and that
/// many bytes, or as many as are left.
pub open spec fn carried_file(records: Seq<u8>) -> Seq<u8>
    decreases records.len(),
{
    if records.len() == 0 {
        Seq::empty()
    } else {
        let take = record_len(records);
        records.subrange(1, 1 + take) + carried_file(records.skip(1 + take))
    }
}

/// The number of bytes the first record carries.
pub open spec fn record_len(records: Seq<u8>) -> int {
    if records[0] as int <= records.len() - 1 {
        records[0] as int
    } else {
        records.len() - 1
    }
}

/// Drives the whole machine over arbitrary bytes: a declared length, then the
/// records of a stream, then verify, commit, boot and confirm.
///
/// Returns true when the machine armed the swap: exactly when the stream carried
/// a file of the declared length that the verifier accepts.
pub fn drive_machine(data: &[u8]) -> (armed: bool)
    ensures
        armed <==> {
            &&& is_uncompressed_point(DEV_ROOT_KEY_TEST_ONLY@)
            &&& accept_verdict(
                carried_file(record_bytes(data@)),
                declared_len(data@),
                DEV_ROOT_KEY_TEST_ONLY@,
                0,
                SE_COUNTER_ORIGIN,
            ) is Ok
        },
{
    let root = match RootKey::from_bytes(DEV_ROOT_KEY_TEST_ONLY) {
        Ok(key) => key,
        Err(_) => return false,
    };
    let flash = MockFlash::new(0);
    let se = MockSeCounter::new(SE_COUNTER_ORIGIN);
    let mut up = Updater::new(&root, flash, se);
    let total_len: usize = if data.len() >= 2 {
        (data[0] as usize + 256 * data[1] as usize) % (BANK_LEN + 1)
    } else {
        0
    };
    let mut rest: &[u8] = if data.len() >= 2 {
        slice_subrange(data, 2, data.len())
    } else {
        data
    };
    let ghost file = carried_file(rest@);
    assert(rest@ =~= record_bytes(data@));
    if up.begin(total_len).is_err() {
        return false;
    }
    let mut offset: usize = 0;
    assert(up@.received + carried_file(rest@) =~= file);
    while rest.len() > 0
        invariant
            up.wf(),
            up.flash_seam().nominal(),
            up.se_seam().available(),
            up@.mode == UpdateState::ReceivingChunks,
            up@.key == DEV_ROOT_KEY_TEST_ONLY@,
            up@.declared == total_len,
            up@.seam.nvcnt == 0,
            up@.se.value == SE_COUNTER_ORIGIN,
            up@.received.len() == offset,
            up@.received.len() <= up@.declared,
            up@.received + carried_file(rest@) == file,
            file == carried_file(record_bytes(data@)),
            total_len == declared_len(data@),
        decreases rest@.len(),
    {
        let ghost before = up@;
        let ghost records = rest@;
        let take: usize = if rest[0] as usize <= rest.len() - 1 {
            rest[0] as usize
        } else {
            rest.len() - 1
        };
        let chunk: &[u8] = slice_subrange(rest, 1, 1 + take);
        let tail: &[u8] = slice_subrange(rest, 1 + take, rest.len());
        proof {
            assert(tail@ =~= records.skip(1 + take));
            assert(file =~= before.received + chunk@ + carried_file(tail@));
        }
        if up.receive_chunk(offset, chunk).is_err() {
            assert(!in_order(before, offset as int, chunk@));
            return false;
        }
        offset += take;
        rest = tail;
    }
    assert(up@.received =~= file);
    if up.verify_and_accept().is_err() {
        return false;
    }
    if up.commit().is_err() {
        return false;
    }
    assert(up@.mode == UpdateState::Committed);
    let _ = up.on_boot();
    let _ = up.confirm(0);
    true
}

} // verus!
