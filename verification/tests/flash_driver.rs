//! The flash driver over the controller model: its register sequences, the records,
//! the swap, the update machine on top of it, and the addresses it emits.

use std::cell::RefCell;

use p256::ecdsa::signature::Signer;
use p256::ecdsa::SigningKey;
use patina_key::boot::glue::run;
use patina_key::boot::glue::BootOutcome;
use patina_key::boot::decision::WedgeReason;
use patina_key::flash::bus::FlashAccess;
use patina_key::flash::bus::FlashView;
use patina_key::flash::driver::Stm32FlashSeam;
use patina_key::flash::model::CutMode;
use patina_key::flash::model::FlashModel;
use patina_key::flash::regs;
use patina_key::image::encode::encode_header;
use patina_key::image::error::VerifyError;
use patina_key::image::format::ImageVersion;
use patina_key::image::format::ROOT_KEY_LEN;
use patina_key::image::verify::verify_image;
use patina_key::image::verify::RootKey;
use patina_key::update::machine::UpdateState;
use patina_key::update::machine::Updater;
use patina_key::update::machine::SE_COUNTER_ORIGIN;
use patina_key::update::mock::MockSeCounter;
use patina_key::update::seam::BankId;
use patina_key::update::seam::FlashError;
use patina_key::update::seam::FlashSeam;
use patina_key::update::seam::PendingFlag;
use patina_key::update::seam::UpdateOutcome;
use patina_key::update::seam::PAGE_LEN;

// The dev private scalar, test only. A publicly known, hardcoded key that makes
// every fixture deterministic. The all-0x01 value is a valid P-256 scalar:
// non-zero, and far below the curve order, which starts with 0xFF.
const DEV_SCALAR: [u8; 32] = [1u8; 32];

// An SE counter value whose derived anti-rollback floor is zero, so Gate 2 does
// not interfere with a test that exercises Gate 1 plus the signature.
const SE_FLOOR_ZERO: u32 = SE_COUNTER_ORIGIN;

// The signing key of the dev scalar.
fn dev_signing_key() -> SigningKey {
    SigningKey::from_slice(&DEV_SCALAR).expect("the dev scalar is in [1, n-1]")
}

// Builds a HEADER || payload || signature image signed with the dev scalar,
// carrying the given security counter. The signature is normalized to low-s,
// the only encoding the verifier accepts.
fn dev_image(security_counter: u32, payload: &[u8]) -> Vec<u8> {
    let version = ImageVersion {
        major: 1,
        minor: 0,
        revision: 0,
        build: 0,
    };
    let header = encode_header(version, security_counter, payload.len() as u32);
    let mut signed = Vec::new();
    signed.extend_from_slice(&header);
    signed.extend_from_slice(payload);
    let sig: p256::ecdsa::Signature = dev_signing_key().sign(&signed);
    let sig = sig.normalize_s();
    let mut image = signed;
    image.extend_from_slice(&sig.to_bytes());
    image
}

// The dev root key, derived from the dev scalar.
fn dev_root() -> RootKey {
    let point = dev_signing_key().verifying_key().to_sec1_point(false);
    let mut bytes = [0u8; ROOT_KEY_LEN];
    bytes.copy_from_slice(point.as_ref());
    RootKey::from_bytes(bytes).expect("the derived dev root key is on-curve")
}

// Verifies a contiguous image through the segmented verifier. A one-element
// segment list is exactly a contiguous image.
fn verify_contiguous(image: &[u8], root: &RootKey) -> Result<(), VerifyError> {
    let segments: [&[u8]; 1] = [image];
    verify_image(&segments, root)?;
    Ok(())
}

// Builds a driver over a freshly erased model that boots Bank 1, so the inactive
// (target) bank is Bank 2.
fn fresh() -> Stm32FlashSeam<FlashModel> {
    Stm32FlashSeam::new(FlashModel::new())
}

#[test]
fn inactive_bank_is_bank2_when_booting_bank1() {
    let mut up = fresh();
    assert_eq!(up.running_bank().expect("running"), BankId::Bank1);
    assert_eq!(up.target_bank().expect("target"), BankId::Bank2);
}

#[test]
fn erase_inactive_leaves_image_region_erased_and_relocks() {
    let mut up = fresh();
    up.erase_inactive().expect("erase");
    // Both sub-bands of the inactive (Bank 2) image region read erased, each
    // through its own alias (secure via 0x0C.., non-secure via 0x08..).
    let secure = up.inactive_secure_band();
    assert!(secure.iter().all(|byte| *byte == regs::ERASED_BYTE));
    let ns = up.inactive_ns_band();
    assert!(ns.iter().all(|byte| *byte == regs::ERASED_BYTE));
    // The driver re-locked the CR from a known state after the op.
    assert!(up.access().model_locked());
}

#[test]
fn write_then_read_back_round_trips_through_the_seam() {
    let mut up = fresh();
    up.erase_inactive().expect("erase");
    // A page that is not a multiple of the 16-byte quad-word, to exercise the
    // short-tail pad path (a sub-quad-word write would otherwise raise SIZERR).
    let mut data = [0u8; 70];
    for (i, byte) in data.iter_mut().enumerate() {
        *byte = (i as u8) | 0x80;
    }
    up.write_inactive_page(0, &data).expect("write page 0");
    // Logical payload page 0 lands at the start of the secure payload sub-band
    // (physical page 10), so read it back through the secure alias.
    let bank = up.inactive_secure_band();
    assert_eq!(&bank[..data.len()], &data[..], "round-trip");
    // The bytes past the written page stay erased.
    assert!(bank[data.len()..PAGE_LEN].iter().all(|b| *b == 0xFF));
}

#[test]
fn descriptor_writes_page_9_and_reads_back_through_the_secure_alias() {
    // The descriptor lands on page 9 (the image band start), one page below the
    // secure payload band. Writing it must not touch the payload band, and it
    // reads back through the secure alias.
    let mut up = fresh();
    up.erase_inactive().expect("erase");
    let mut descriptor = [0u8; 88];
    for (i, byte) in descriptor.iter_mut().enumerate() {
        *byte = (i as u8) | 0x80;
    }
    up.write_descriptor(&descriptor).expect("write descriptor");

    let read = up.inactive_descriptor();
    assert_eq!(&read[..descriptor.len()], &descriptor[..], "descriptor round-trip");
    // The secure PAYLOAD band (page 10 onward) is a different page, still erased.
    let payload = up.inactive_secure_band();
    assert!(
        payload.iter().all(|byte| *byte == regs::ERASED_BYTE),
        "the descriptor write did not touch the payload band"
    );
    // The driver re-locked the CR from a known state after the op.
    assert!(up.access().model_locked());
}

#[test]
fn active_descriptor_reads_the_running_bank_through_the_low_alias() {
    // The boot stage verifies the running bank. Write a descriptor into the
    // inactive bank (Bank 2 while running Bank 1), then commit and reset so that
    // bank becomes active. The active read must then return those exact bytes
    // through the low alias, proving the bytes verified are the bytes booted.
    let mut up = fresh();
    up.erase_inactive().expect("erase");
    let mut descriptor = [0u8; 88];
    for (i, byte) in descriptor.iter_mut().enumerate() {
        *byte = (i as u8) | 0x80;
    }
    up.write_descriptor(&descriptor).expect("write descriptor");

    // Before the swap the running bank (Bank 1) is still erased, so the active
    // read does not see the new descriptor. This makes the post-swap check
    // non-vacuous.
    assert!(
        up.active_descriptor()
            .iter()
            .all(|byte| *byte == regs::ERASED_BYTE),
        "the running bank is erased before the swap"
    );

    up.commit_swap().expect("commit");
    up.access_mut().apply_reset();
    assert_eq!(up.running_bank().expect("running"), BankId::Bank2);

    let read = up.active_descriptor();
    assert_eq!(
        &read[..descriptor.len()],
        &descriptor[..],
        "the active read returns the running bank's descriptor after the swap"
    );
}

#[test]
fn read_secwm_raw_reads_both_watermark_registers() {
    // The default model shadows no watermark, so both read back zero. The read
    // must not fault, and the boot stage treats an unprovisioned zero readback as
    // a mismatch (a fail-closed discriminator).
    let mut up = fresh();
    assert_eq!(up.read_secwm_raw().expect("read secwm"), (0, 0));
}

#[test]
fn write_without_a_prior_erase_fails_closed_on_progerr() {
    let mut up = fresh();
    up.erase_inactive().expect("erase");
    up.write_inactive_page(0, &[0x00; 16]).expect("first write");
    // Reprogramming the same quad-word with new zero bits the erase did not set
    // raises PROGERR in the model, which the driver decodes to WriteFailed.
    let again = up.write_inactive_page(0, &[0x11; 16]);
    assert_eq!(again, Err(FlashError::WriteFailed), "fail closed on PROGERR");
    // The driver still re-locked the CR despite the fault.
    assert!(up.access().model_locked());
}

#[test]
fn write_protected_page_fails_closed_on_wrperr() {
    let mut model = FlashModel::new();
    // The driver writes the inactive bank (physical Bank 2 here). The payload band
    // starts at physical page IMAGE_PAYLOAD_PAGE_FIRST, so logical payload page 0
    // lands on that physical page. Protect it to drive a WRPERR on the first
    // payload write.
    model.protect_bank2_page(regs::IMAGE_PAYLOAD_PAGE_FIRST);
    let mut up = Stm32FlashSeam::new(model);
    up.erase_inactive().ok();
    let result = up.write_inactive_page(0, &[0x00; 16]);
    assert_eq!(result, Err(FlashError::WriteFailed), "fail closed on WRPERR");
}

#[test]
fn logical_page_past_the_image_region_is_out_of_range() {
    let mut up = fresh();
    up.erase_inactive().expect("erase");
    // The payload band is 22 pages of 8 KB. PAGE_LEN is 256 bytes, so the last
    // valid logical payload page is just under IMAGE_PAYLOAD_SIZE / PAGE_LEN.
    let last_valid = (regs::IMAGE_PAYLOAD_SIZE / PAGE_LEN as u32) - 1;
    up.write_inactive_page(last_valid as u16, &[0xAA; 16])
        .expect("last valid page");
    let one_past = last_valid + 1;
    let result = up.write_inactive_page(one_past as u16, &[0xAA; 16]);
    assert_eq!(result, Err(FlashError::OutOfRange), "out of range page");
}

#[test]
fn nvcnt_starts_zero_and_bumps_monotone() {
    let mut up = fresh();
    assert_eq!(up.nvcnt_read().expect("read"), 0);
    up.nvcnt_bump(5).expect("bump 5");
    assert_eq!(up.nvcnt_read().expect("read"), 5);
    // A bump to the same value is a no-op and spends no slot.
    up.nvcnt_bump(5).expect("bump same");
    assert_eq!(up.nvcnt_read().expect("read"), 5);
    // A regression below the floor fails closed.
    assert_eq!(up.nvcnt_bump(4), Err(FlashError::WriteFailed), "regression");
    // A higher value programs the next slot.
    up.nvcnt_bump(9).expect("bump 9");
    assert_eq!(up.nvcnt_read().expect("read"), 9);
}

#[test]
fn pending_record_round_trips_and_clears() {
    let mut up = fresh();
    assert_eq!(up.pending_read().expect("read"), PendingFlag::Clear);
    up.pending_write(PendingFlag::Armed(BankId::Bank2))
        .expect("arm bank2");
    assert_eq!(
        up.pending_read().expect("read"),
        PendingFlag::Armed(BankId::Bank2)
    );
    up.pending_write(PendingFlag::Clear).expect("clear");
    assert_eq!(up.pending_read().expect("read"), PendingFlag::Clear);
}

#[test]
fn boot_count_advances_and_reads_back() {
    let mut up = fresh();
    assert_eq!(up.boot_count_read().expect("read"), 0);
    up.boot_count_advance().expect("advance");
    assert_eq!(up.boot_count_read().expect("read"), 1);
    up.boot_count_advance().expect("advance");
    assert_eq!(up.boot_count_read().expect("read"), 2);
}

#[test]
fn update_outcome_round_trips_and_clears() {
    let mut up = fresh();
    assert_eq!(up.update_outcome_read().expect("read"), UpdateOutcome::Clear);
    up.update_outcome_write(UpdateOutcome::AutoReverted)
        .expect("set auto-reverted");
    assert_eq!(
        up.update_outcome_read().expect("read"),
        UpdateOutcome::AutoReverted
    );
    up.update_outcome_clear().expect("clear");
    assert_eq!(up.update_outcome_read().expect("read"), UpdateOutcome::Clear);
}

#[test]
fn pending_and_outcome_records_are_independent() {
    // Both records share page 1 of physical Bank 1, so a rewrite of one must
    // preserve the other across the shared erase.
    let mut up = fresh();
    up.update_outcome_write(UpdateOutcome::AutoReverted)
        .expect("set outcome");
    up.pending_write(PendingFlag::Armed(BankId::Bank2))
        .expect("arm pending");
    // The outcome survived the pending rewrite.
    assert_eq!(
        up.update_outcome_read().expect("read"),
        UpdateOutcome::AutoReverted
    );
    assert_eq!(
        up.pending_read().expect("read"),
        PendingFlag::Armed(BankId::Bank2)
    );
    // Clearing the outcome leaves the pending record intact.
    up.update_outcome_clear().expect("clear outcome");
    assert_eq!(up.update_outcome_read().expect("read"), UpdateOutcome::Clear);
    assert_eq!(
        up.pending_read().expect("read"),
        PendingFlag::Armed(BankId::Bank2)
    );
}

#[test]
fn metadata_reads_from_physical_bank1_after_a_swap() {
    // NVCNT, the pending record, and the outcome
    // record are pinned to physical Bank 1, addressed through the SWAP_BANK-aware
    // helper. After a swap, physical Bank 1 sits at the high alias, so a driver that
    // used a fixed low-alias address would read the wrong physical bank. This asserts
    // the records read back unchanged after the swap.
    let mut up = fresh();
    up.nvcnt_bump(11).expect("bump nvcnt");
    up.pending_write(PendingFlag::Armed(BankId::Bank2))
        .expect("arm pending");
    up.update_outcome_write(UpdateOutcome::AutoReverted)
        .expect("set outcome");
    up.boot_count_advance().expect("advance boot count");

    // Stage and apply a swap, so physical Bank 1 moves to the high alias.
    up.commit_swap().expect("commit");
    up.access_mut().apply_reset();

    // After the swap the same physical Bank 1 metadata reads back unchanged.
    assert_eq!(up.nvcnt_read().expect("read"), 11, "NVCNT survives the swap");
    assert_eq!(
        up.pending_read().expect("read"),
        PendingFlag::Armed(BankId::Bank2),
        "pending survives the swap"
    );
    assert_eq!(
        up.update_outcome_read().expect("read"),
        UpdateOutcome::AutoReverted,
        "outcome survives the swap"
    );
    assert_eq!(
        up.boot_count_read().expect("read"),
        1,
        "boot count survives the swap"
    );
    assert!(up.access().boots_bank2(), "the part now boots Bank 2");
}

#[test]
fn commit_swap_stages_the_swap_and_records_obl_launch_inert() {
    let mut up = fresh();
    // commit_swap carries the full real option-byte sequence. On the model it
    // stages the swap and records the OBL_LAUNCH without resetting, so the inert
    // brick-class path is exercised without a real option load.
    up.commit_swap().expect("commit swap");
    let model = up.access();
    assert!(model.obl_launched(), "OBL_LAUNCH write observed");
    // The swap is staged, not yet applied: OPTR still boots Bank 1 until reset.
    assert_eq!(model.staged_swap(), Some(true), "staged toward Bank 2");
    assert!(!model.boots_bank2(), "not applied before reset");
}

#[test]
fn revert_after_commit_arms_the_swap_back_to_the_original_bank() {
    // The revert-direction proof at the model level, across two modelled resets. A
    // forward commit boots physical Bank 2, then a revert must point the boot map
    // back at physical Bank 1 (the previously-running, now inactive bank), not re-arm toward the bank already running. The check also asserts the
    // original bank's image bytes are still intact and bootable after the round trip,
    // read physically so it does not depend on the alias.
    let mut model = FlashModel::new();
    // Seed physical Bank 1 (bank2 false) image band with a recognisable pattern, so
    // the "original bank stays intact" claim is asserted against real backing bytes,
    // not a rebuilt copy.
    let pattern: [u8; 32] = std::array::from_fn(|i| (i as u8) | 0x80);
    for (i, byte) in pattern.iter().enumerate() {
        let offset = regs::IMAGE_REGION_OFFSET as usize + i;
        model.poke_phys(false, offset, *byte);
    }
    let mut up = Stm32FlashSeam::new(model);

    // Start booting Bank 1, so the inactive (target) bank is Bank 2.
    assert_eq!(up.running_bank().expect("running"), BankId::Bank1);

    // Forward commit, then the modelled reset: the part now boots physical Bank
    // 2 (SWAP_BANK set). This mirrors the existing commit test.
    up.commit_swap().expect("commit");
    up.access_mut().apply_reset();
    assert!(up.access().boots_bank2(), "commit boots Bank 2");
    assert_eq!(up.running_bank().expect("running"), BankId::Bank2);

    // Revert, then the modelled reset: the boot map must flip back to physical
    // Bank 1 (SWAP_BANK clear). A revert that re-armed toward the running bank
    // would leave SWAP_BANK set and keep the device on Bank 2.
    up.revert_swap().expect("revert");
    up.access_mut().apply_reset();
    assert!(!up.access().boots_bank2(), "revert boots Bank 1 again");
    assert_eq!(up.running_bank().expect("running"), BankId::Bank1);

    // The original physical Bank 1 image bytes survived the round trip intact,
    // read physically so the check is alias-independent.
    for (i, byte) in pattern.iter().enumerate() {
        let offset = regs::IMAGE_REGION_OFFSET as usize + i;
        assert_eq!(
            up.access().phys_byte(false, offset),
            Some(*byte),
            "original Bank 1 image byte intact after revert"
        );
    }
}

#[test]
fn commit_swap_refused_without_dualbank_or_tzen() {
    let mut model = FlashModel::new();
    model.clear_dualbank();
    let mut up = Stm32FlashSeam::new(model);
    assert_eq!(up.commit_swap(), Err(FlashError::Hardware), "no DUALBANK");
}

#[test]
fn the_dev_root_key_is_a_key_the_verifier_accepts() {
    // The derived key must be one RootKey::from_bytes accepts, so every fixture
    // below verifies against a real pinned key rather than a rejected one.
    let point = dev_signing_key().verifying_key().to_sec1_point(false);
    assert_eq!(point.as_ref().len(), ROOT_KEY_LEN, "uncompressed SEC1, 65 bytes");
    let mut bytes = [0u8; ROOT_KEY_LEN];
    bytes.copy_from_slice(point.as_ref());
    assert!(RootKey::from_bytes(bytes).is_ok());
}

#[test]
fn full_update_over_the_real_driver_reads_nvcnt_from_right_bank_after_swap() {
    let mut driver = fresh();

    // Seed the old (running, physical Bank 1) bank image band with a complete
    // valid v1 image so the "old bank stays bootable" invariant is asserted
    // against real model bytes. The seeding is physical (poke_phys on Bank 1),
    // bank-relative from the image-band offset, so it is independent of the alias
    // and survives the swap.
    let old_image = dev_image(3, b"old firmware payload v1");
    for (i, byte) in old_image.iter().enumerate() {
        let offset = regs::IMAGE_REGION_OFFSET as usize + i;
        driver.access_mut().poke_phys(false, offset, *byte);
    }
    let old_len = old_image.len();

    // Pre-set NVCNT to 3 (the OLD image counter), the install-time floor.
    driver.nvcnt_bump(3).expect("seed nvcnt");
    assert_eq!(driver.nvcnt_read(), Ok(3), "nvcnt seeded");

    let root = dev_root();
    let se = MockSeCounter::new(SE_FLOOR_ZERO);
    let mut up = Updater::new(&root, driver, se);

    // Stream a newer image (counter 7) through the public API into the inactive
    // (physical Bank 2) bank, in small chunks so the page accumulator is
    // exercised.
    let new_image = dev_image(7, b"new firmware payload v2 is a bit longer");
    up.begin(new_image.len()).expect("begin");
    let mut offset = 0usize;
    for chunk in new_image.chunks(13) {
        up.receive_chunk(offset, chunk).expect("receive_chunk");
        offset += chunk.len();
    }
    assert_eq!(up.state(), UpdateState::ReceivingChunks);

    up.verify_and_accept().expect("verify");
    assert_eq!(up.state(), UpdateState::PendingCommit);

    up.commit().expect("commit");
    assert_eq!(up.state(), UpdateState::Committed);

    // The commit only staged the swap (the inert option-byte path). No real
    // option load fired: OPTR still boots Bank 1 until a modelled reset.
    let mut driver = up.into_flash();
    assert!(driver.access().obl_launched(), "OBL_LAUNCH observed inert");
    assert!(!driver.access().boots_bank2(), "swap not applied yet");

    // Model the reset that the swap commits on: the staged
    // SWAP_BANK is applied, so the part now boots physical Bank 2 and physical
    // Bank 1 (with the NVCNT) moves to the high alias.
    driver.access_mut().apply_reset();
    assert!(driver.access().boots_bank2(), "swap applied at reset");
    let mut up = Updater::new(&root, driver, MockSeCounter::new(SE_FLOOR_ZERO));

    // First boot of the new bank: the running bank now matches the armed target.
    assert_eq!(up.on_boot().expect("boot"), UpdateState::AwaitingConfirm);

    // Confirm: spends the SE counter, clears the record, bumps NVCNT last.
    up.confirm(7).expect("confirm");
    assert_eq!(up.state(), UpdateState::Confirmed);

    // The NVCNT is read back from the right physical bank after the
    // swap. Physical Bank 1 now sits at the high alias, so a driver that used a
    // fixed low-alias metadata address would read physical Bank 2 (garbage). The
    // swap-aware helper re-derives Bank 1's high-alias address, so the counter
    // reads the value confirm just bumped.
    let mut driver = up.into_flash();
    assert_eq!(driver.nvcnt_read(), Ok(7), "nvcnt read from physical Bank 1 post-swap");

    // The old (now inactive, physical Bank 1) bank still holds its v1 image bytes
    // and is independently verifiable, read physically so the check does not
    // depend on the current alias.
    let model = driver.access();
    let mut recovered = Vec::new();
    for i in 0..old_len {
        let offset = regs::IMAGE_REGION_OFFSET as usize + i;
        recovered.push(model.phys_byte(false, offset).expect("byte"));
    }
    assert_eq!(recovered, old_image, "OLD physical bank bytes intact");
    verify_contiguous(&recovered, &root).expect("OLD bank still bootable");
}

#[test]
fn rejected_image_over_the_real_driver_never_commits() {
    let root = dev_root();
    let se = MockSeCounter::new(SE_FLOOR_ZERO);
    let mut up = Updater::new(&root, fresh(), se);

    // A valid image body with one payload byte flipped: the signature no longer
    // matches, so verify must reject and no swap may be armed.
    let mut bad = dev_image(7, b"tampered payload");
    let last = bad.len() - 1;
    bad[last] ^= 0x01;

    up.begin(bad.len()).expect("begin");
    up.receive_chunk(0, &bad).expect("receive");
    assert!(up.verify_and_accept().is_err(), "tampered image rejected");
    assert_ne!(up.state(), UpdateState::Committed);
    // No OBL_LAUNCH ever fired, the swap was never armed.
    assert!(!up.flash().access().obl_launched(), "no swap armed");
}

#[test]
fn ns_band_reads_correct_via_ns_alias_and_raz_via_secure_alias() {
    // A non-secure image page read through
    // the secure alias returns RAZ (all zeros). The banded read must use the NS
    // alias for the non-secure sub-band, or verify would see zeros for the whole
    // non-secure half while the host model stayed green. This proves the model
    // makes a wrong-alias read fail, and that the driver reads the right alias.
    //
    // If inactive_ns_band regressed to the secure alias, the first assertion here
    // goes red: the NS band would read all zeros instead of the seeded pattern.
    let mut driver = fresh();

    // Seed a recognisable non-zero pattern into the NS image sub-band (pages
    // 20-31) of the inactive bank (physical Bank 2), bank-relative so the seeding
    // is alias-independent.
    let ns_off = regs::IMAGE_NS_BAND_OFFSET as usize;
    let pattern: [u8; 64] = std::array::from_fn(|i| (i as u8) | 0x80);
    for (i, byte) in pattern.iter().enumerate() {
        driver.access_mut().poke_phys(true, ns_off + i, *byte);
    }

    // Through the NS alias the driver reads the real seeded bytes.
    let ns_band = driver.inactive_ns_band();
    assert_eq!(
        &ns_band[..pattern.len()],
        &pattern[..],
        "NS band reads the real bytes through the NS alias"
    );

    // The same physical bytes read through the secure alias are RAZ. Physical
    // Bank 2 is inactive, so it sits at the high alias, and the NS sub-band read
    // through the secure high alias returns zeros. This is exactly the
    // fault a flat address-to-store model could not observe.
    let secure_wrong = regs::HIGH_ALIAS_BASE + regs::IMAGE_NS_BAND_OFFSET;
    let via_secure = driver.access().bank_view(secure_wrong, pattern.len()).to_vec();
    assert_eq!(via_secure.len(), pattern.len(), "RAZ read keeps the length");
    assert!(
        via_secure.iter().all(|byte| *byte == 0),
        "NS band read through the secure alias is RAZ (all zeros)"
    );

    // At the word level too: the secure-alias load of an NS page is RAZ, the
    // NS-alias load returns the seeded data.
    let raz_word = driver.access_mut().read32(secure_wrong);
    assert_eq!(raz_word, 0, "secure-alias word read of an NS page is RAZ");
    let ns_addr = regs::NS_HIGH_ALIAS_BASE + regs::IMAGE_NS_BAND_OFFSET;
    let data_word = driver.access_mut().read32(ns_addr);
    assert_ne!(data_word, 0, "NS-alias word read of the NS page returns data");
}

// The secure MPU regions a driver-emitted flash address can legitimately fall in,
// as inclusive [base, limit] pairs.
//   R1 boot metadata (physical Bank 1 pages 0-1), low alias when SWAP_BANK clear,
//   high alias when set.
//   R5 inactive-bank secure image (pages 9-19, high alias): descriptor plus
//   secure payload.
//   R6 inactive-bank non-secure image (pages 20-31, high NS alias).
const R1_META_LOW: (u32, u32) = (0x0C00_0000, 0x0C00_3FFF);
const R1_META_HIGH: (u32, u32) = (0x0C04_0000, 0x0C04_3FFF);
const R5_INACTIVE_SECURE: (u32, u32) = (0x0C05_2000, 0x0C06_7FFF);
const R6_INACTIVE_NS: (u32, u32) = (0x0806_8000, 0x0807_FFFF);

const MPU_REGIONS: [(u32, u32); 4] =
    [R1_META_LOW, R1_META_HIGH, R5_INACTIVE_SECURE, R6_INACTIVE_NS];

/// True when `addr` is inside either flash bank alias (secure 0x0C.. or NS 0x08..).
/// The FLASH controller registers sit at 0x5002_xxxx and are excluded.
fn is_bank_addr(addr: u32) -> bool {
    (0x0800_0000..0x0808_0000).contains(&addr)
        || (0x0C00_0000..0x0C08_0000).contains(&addr)
}

/// True when the inclusive range `[base, base + len)` sits wholly in some region.
fn contained(base: u32, len: u32) -> bool {
    if len == 0 {
        return true;
    }
    let last = base + len - 1;
    MPU_REGIONS
        .iter()
        .any(|(lo, hi)| base >= *lo && last <= *hi)
}

/// A recording [`FlashAccess`] port over the FLASH-controller model.
///
/// It delegates every access to the model and records the address of every
/// flash-bank read / write / borrow, so a test can prove what the driver emits.
struct RecordingAccess {
    inner: FlashModel,
    ranges: RefCell<Vec<(u32, u32)>>,
}

impl RecordingAccess {
    fn new() -> RecordingAccess {
        RecordingAccess {
            inner: FlashModel::new(),
            ranges: RefCell::new(Vec::new()),
        }
    }

    fn record(&self, addr: u32, len: u32) {
        if is_bank_addr(addr) {
            self.ranges.borrow_mut().push((addr, len));
        }
    }

    fn ranges(&self) -> Vec<(u32, u32)> {
        self.ranges.borrow().clone()
    }

    fn apply_reset(&mut self) {
        self.inner.apply_reset();
    }
}

impl FlashAccess for RecordingAccess {
    // The two ghost views are never run.
    fn flash(&self) -> FlashView {
        unreachable!()
    }

    fn nominal(&self) -> bool {
        unreachable!()
    }

    fn read32(&mut self, addr: u32) -> u32 {
        self.record(addr, 4);
        self.inner.read32(addr)
    }

    fn write32(&mut self, addr: u32, value: u32) {
        self.record(addr, 4);
        self.inner.write32(addr, value);
    }

    fn peek32(&self, addr: u32) -> u32 {
        self.record(addr, 4);
        self.inner.peek32(addr)
    }

    fn bank_view(&self, base: u32, len: usize) -> &[u8] {
        self.record(base, len as u32);
        self.inner.bank_view(base, len)
    }
}

/// Drives a full inactive-bank flow (erase, payload writes spanning both
/// sub-bands, descriptor write, the three band reads, and every metadata op) and
/// returns the recording port holding every flash address the driver emitted.
///
/// When `swap_set` is true a commit plus a modelled reset first flips SWAP_BANK,
/// so physical Bank 1 (the metadata) and the inactive bank both sit at the high
/// alias, the case that breaks a low-alias-only assumption.
fn drive_full_inactive_flow(swap_set: bool) -> Stm32FlashSeam<RecordingAccess> {
    let mut driver = Stm32FlashSeam::new(RecordingAccess::new());
    if swap_set {
        driver.commit_swap().expect("stage swap");
        driver.access_mut().apply_reset();
    }
    driver.erase_inactive().expect("erase inactive");
    // A secure payload page (index 0) and the first non-secure payload page.
    driver
        .write_inactive_page(0, &[0xAA; 16])
        .expect("write secure payload page");
    let ns_page =
        (regs::IMAGE_PAYLOAD_SECURE_SIZE / PAGE_LEN as u32) as u16;
    driver
        .write_inactive_page(ns_page, &[0xBB; 16])
        .expect("write non-secure payload page");
    driver
        .write_descriptor(&[0xCC; 88])
        .expect("write descriptor");
    let _ = driver.inactive_descriptor();
    let _ = driver.inactive_secure_band();
    let _ = driver.inactive_ns_band();
    driver.nvcnt_bump(5).expect("nvcnt bump");
    driver
        .pending_write(PendingFlag::Armed(BankId::Bank2))
        .expect("pending write");
    driver.boot_count_advance().expect("boot count advance");
    driver
        .update_outcome_write(UpdateOutcome::AutoReverted)
        .expect("outcome write");
    driver
}

/// Asserts every recorded flash range is contained in a secure MPU region, and
/// that the flow actually emitted flash addresses (non-vacuous).
fn assert_all_contained(ranges: &[(u32, u32)], context: &str) {
    assert!(
        !ranges.is_empty(),
        "the {context} flow emitted no flash addresses, the test is vacuous"
    );
    for (base, len) in ranges {
        assert!(
            contained(*base, *len),
            "{context}: driver emitted [{base:#010x}, len {len}] outside every \
             secure MPU region"
        );
    }
}

#[test]
fn every_driver_emitted_address_is_inside_an_mpu_region() {
    // SWAP_BANK clear: the inactive bank is at the high alias (R5 / R6) and the
    // metadata is at the low alias (R1 low).
    let driver = drive_full_inactive_flow(false);
    assert_all_contained(&driver.access().ranges(), "swap-clear");

    // SWAP_BANK set: physical Bank 1 (the metadata) moves to the high alias (R1
    // high), and the inactive bank stays at the high alias (R5 / R6).
    let driver = drive_full_inactive_flow(true);
    assert_all_contained(&driver.access().ranges(), "swap-set");
}

#[test]
fn the_containment_check_is_not_vacuous() {
    // A range one byte past R5's limit must be rejected, so a real geometry drift
    // (an emitted address sliding out of its region) is caught, not silently
    // accepted. This pins the check itself, independent of the driver run.
    assert!(
        contained(R5_INACTIVE_SECURE.0, 16),
        "a range at R5's base must be contained"
    );
    let past = R5_INACTIVE_SECURE.1 - 15;
    assert!(
        contained(past, 16),
        "a range ending at R5's limit must be contained"
    );
    assert!(
        !contained(R5_INACTIVE_SECURE.1 - 14, 16),
        "a range ending one byte past R5's limit must be rejected"
    );
}

#[test]
fn a_locked_controller_ignores_control_writes() {
    let mut model = FlashModel::new();
    model.write32(regs::FLASH_SECCR, regs::SECCR_PG);
    assert!(model.cr_locked());
    assert_eq!(model.read32(regs::FLASH_SECCR), regs::SECCR_LOCK);
    // A wrong second key leaves it locked, and starts the sequence over.
    model.write32(regs::FLASH_SECKEYR, regs::FLASH_KEY1);
    model.write32(regs::FLASH_SECKEYR, 0);
    assert!(model.cr_locked());
    model.write32(regs::FLASH_SECKEYR, regs::FLASH_KEY1);
    model.write32(regs::FLASH_SECKEYR, regs::FLASH_KEY2);
    assert!(!model.cr_locked());
    assert!(!model.swap_bank());
}

#[test]
fn a_full_counter_log_is_exhausted() {
    let mut up = fresh();
    for value in 1..=regs::META_LOG_SLOTS {
        up.nvcnt_bump(value).expect("a free slot");
    }
    assert_eq!(up.nvcnt_read(), Ok(256));
    assert_eq!(up.nvcnt_bump(300), Err(FlashError::CounterExhausted));
    assert_eq!(up.nvcnt_bump(256), Ok(()));
    assert_eq!(up.nvcnt_read(), Ok(256));
}

#[test]
fn the_partition_check_wants_dual_bank_and_trustzone() {
    let mut up = fresh();
    assert_eq!(up.require_partition(), Ok(()));
    let mut model = FlashModel::new();
    model.clear_dualbank();
    let mut up = Stm32FlashSeam::new(model);
    assert_eq!(up.require_partition(), Err(FlashError::Hardware));
}

#[test]
fn a_boot_of_an_unprovisioned_part_wedges() {
    let mut up = fresh();
    assert_eq!(
        run(&mut up, &dev_root()),
        BootOutcome::Wedge(WedgeReason::SecwmMismatch)
    );
}

#[test]
fn a_cut_erase_leaves_the_part_dead_until_a_reset() {
    let mut model = FlashModel::new();
    model.arm_cut(0, CutMode::BeforeMutation);
    let mut up = Stm32FlashSeam::new(model);
    assert!(up.erase_inactive().is_err());
    assert!(up.access().cut_fired());
    assert!(up.nvcnt_bump(1).is_err());
    up.access_mut().apply_reset();
    assert_eq!(up.nvcnt_bump(1), Ok(()));
    assert_eq!(up.nvcnt_read(), Ok(1));
}

#[test]
fn a_swap_that_never_loads_keeps_the_running_bank() {
    let mut up = fresh();
    up.commit_swap().expect("commit");
    assert_eq!(up.access().staged_swap(), Some(true));
    up.access_mut().reboot_without_option_load();
    assert_eq!(up.running_bank(), Ok(BankId::Bank1));
    assert_eq!(up.target_bank(), Ok(BankId::Bank2));
    assert_eq!(up.access().staged_swap(), None);
}

#[test]
fn a_payload_spans_both_bands() {
    let mut up = fresh();
    up.erase_inactive().expect("erase");
    let last_secure = (regs::IMAGE_PAYLOAD_SECURE_SIZE / PAGE_LEN as u32 - 1) as u16;
    up.write_inactive_page(last_secure, &[0x21; 256]).expect("last secure page");
    up.write_inactive_page(last_secure + 1, &[0x43; 256]).expect("first non-secure page");
    let secure = up.inactive_secure_band();
    assert_eq!(&secure[secure.len() - 256..], &[0x21; 256]);
    let ns = up.inactive_ns_band();
    assert_eq!(&ns[..256], &[0x43; 256]);
    assert_eq!(ns[256], 0xFF);
    assert_eq!(
        up.access().phys_byte(true, regs::IMAGE_NS_BAND_OFFSET as usize),
        Some(0x43)
    );
    assert_eq!(up.access().phys_byte(true, regs::BANK_SIZE as usize), None);
}

#[test]
fn a_page_or_descriptor_that_is_too_long_is_refused() {
    let mut up = fresh();
    up.erase_inactive().expect("erase");
    assert_eq!(up.write_inactive_page(0, &[0; 257]), Err(FlashError::OutOfRange));
    assert_eq!(up.write_descriptor(&[0; 0x2001]), Err(FlashError::OutOfRange));
}

#[test]
fn the_counter_reads_back_every_value() {
    let mut up = fresh();
    assert_eq!(up.nvcnt_bump(0xFFFF_FFFF), Ok(()));
    assert_eq!(up.nvcnt_read(), Ok(0xFFFF_FFFF));
    // The top value is a floor like any other, and bumping to it again is free.
    assert_eq!(up.nvcnt_bump(0xFFFF_FFFE), Err(FlashError::WriteFailed));
    let spent = up.access().persistent_ops();
    assert_eq!(up.nvcnt_bump(0xFFFF_FFFF), Ok(()));
    assert_eq!(up.access().persistent_ops(), spent);

    // Behind other values, and across a reset.
    let mut up = fresh();
    assert_eq!(up.nvcnt_bump(7), Ok(()));
    assert_eq!(up.nvcnt_bump(0xFFFF_FFFE), Ok(()));
    assert_eq!(up.nvcnt_read(), Ok(0xFFFF_FFFE));
    assert_eq!(up.nvcnt_bump(0xFFFF_FFFF), Ok(()));
    up.access_mut().apply_reset();
    assert_eq!(up.nvcnt_read(), Ok(0xFFFF_FFFF));
}

#[test]
fn an_exhausted_counter_log_keeps_the_counter() {
    let mut up = fresh();
    for value in 1..=regs::META_LOG_SLOTS {
        assert_eq!(up.nvcnt_bump(value), Ok(()));
    }
    let spent = up.access().persistent_ops();
    assert_eq!(up.nvcnt_bump(1000), Err(FlashError::CounterExhausted));
    assert_eq!(up.nvcnt_bump(0xFFFF_FFFF), Err(FlashError::CounterExhausted));
    assert_eq!(up.nvcnt_read(), Ok(regs::META_LOG_SLOTS));
    assert_eq!(up.access().persistent_ops(), spent);
}

#[test]
fn a_descriptor_fills_as_much_of_its_page_as_it_is_long() {
    let mut up = fresh();
    up.erase_inactive().expect("erase");
    let long: Vec<u8> = (0..300u32).map(|i| (i % 251) as u8).collect();
    assert_eq!(up.write_descriptor(&long), Ok(()));
    let base = regs::IMAGE_DESCRIPTOR_OFFSET as usize;
    for i in 0..regs::PAGE_SIZE as usize {
        let expected = if i < long.len() { long[i] } else { 0xFF };
        assert_eq!(up.access().phys_byte(true, base + i), Some(expected));
    }
    up.erase_inactive().expect("erase");
    assert_eq!(up.write_descriptor(&vec![0x11; regs::PAGE_SIZE as usize]), Ok(()));
    assert_eq!(up.access().phys_byte(true, base + 8191), Some(0x11));
    assert_eq!(up.access().phys_byte(true, base + 8192), Some(0xFF));
}

#[test]
fn a_used_descriptor_tail_stops_no_erase_and_no_record() {
    let mut up = fresh();
    up.erase_inactive().expect("erase");
    assert_eq!(up.write_descriptor(&[0x22; 96]), Ok(()));
    assert_eq!(up.pending_write(PendingFlag::Armed(BankId::Bank2)), Ok(()));
    assert_eq!(up.erase_inactive(), Ok(()));
}

#[test]
fn without_the_dual_bank_posture_nothing_is_written() {
    let mut model = FlashModel::new();
    model.clear_dualbank();
    let mut up = Stm32FlashSeam::new(model);
    let hardware = Err(FlashError::Hardware);
    assert_eq!(FlashSeam::erase_inactive(&mut up), hardware);
    assert_eq!(FlashSeam::write_inactive_page(&mut up, 0, &[0; 16]), hardware);
    assert_eq!(FlashSeam::write_descriptor(&mut up, &[0; 88]), hardware);
    assert_eq!(FlashSeam::commit_swap(&mut up), hardware);
    assert_eq!(FlashSeam::revert_swap(&mut up), hardware);
    assert_eq!(FlashSeam::nvcnt_bump(&mut up, 1), hardware);
    assert_eq!(FlashSeam::pending_write(&mut up, PendingFlag::Armed(BankId::Bank2)), hardware);
    assert_eq!(FlashSeam::boot_count_advance(&mut up), hardware);
    assert_eq!(FlashSeam::update_outcome_write(&mut up, UpdateOutcome::AutoReverted), hardware);
    assert_eq!(FlashSeam::update_outcome_clear(&mut up), hardware);
    assert_eq!(up.access().persistent_ops(), 0);
    assert_eq!(up.access().staged_swap(), None);
    assert!(!up.access().obl_launched());
    assert!(up.access().cr_locked());
}

/// A controller that shows a status flag for good once an option program was started.
struct FlaggedAccess {
    inner: FlashModel,
    flag: u32,
    started: bool,
}

impl FlaggedAccess {
    fn new(flag: u32) -> Self {
        FlaggedAccess { inner: FlashModel::new(), flag, started: false }
    }
}

impl FlashAccess for FlaggedAccess {
    // The two ghost views are never run.
    fn flash(&self) -> FlashView {
        unreachable!()
    }

    fn nominal(&self) -> bool {
        unreachable!()
    }

    fn read32(&mut self, addr: u32) -> u32 {
        let value = self.inner.read32(addr);
        if self.started && addr == regs::FLASH_NSSR {
            value | self.flag
        } else {
            value
        }
    }

    fn write32(&mut self, addr: u32, value: u32) {
        if addr == regs::FLASH_NSCR && value & regs::NSCR_OPTSTRT != 0 {
            self.started = true;
        }
        self.inner.write32(addr, value);
    }

    fn peek32(&self, addr: u32) -> u32 {
        self.inner.peek32(addr)
    }

    fn bank_view(&self, base: u32, len: usize) -> &[u8] {
        self.inner.bank_view(base, len)
    }
}

#[test]
fn a_swap_that_times_out_locks_the_options_again() {
    let mut up = Stm32FlashSeam::new(FlaggedAccess::new(regs::SR_BSY));
    assert_eq!(up.commit_swap(), Err(FlashError::Hardware));
    let nscr = up.access().peek32(regs::FLASH_NSCR);
    assert_ne!(nscr & regs::NSCR_LOCK, 0);
    assert_ne!(nscr & regs::NSCR_OPTLOCK, 0);
    assert!(!up.access().inner.obl_launched());
}

#[test]
fn a_failed_program_leaves_no_error_flag_behind() {
    let mut model = FlashModel::new();
    model.arm_cut(0, CutMode::BeforeMutation);
    let mut up = Stm32FlashSeam::new(model);
    assert_eq!(up.nvcnt_bump(1), Err(FlashError::WriteFailed));
    assert_eq!(up.access_mut().read32(regs::FLASH_SECSR) & regs::SR_ALL_ERRORS, 0);
}

#[test]
fn a_rejected_swap_locks_the_options_again_and_launches_nothing() {
    let mut up = Stm32FlashSeam::new(FlaggedAccess::new(regs::SR_OPTWERR));
    assert_eq!(FlashSeam::revert_swap(&mut up), Err(FlashError::Hardware));
    let nscr = up.access().peek32(regs::FLASH_NSCR);
    assert_ne!(nscr & regs::NSCR_LOCK, 0);
    assert_ne!(nscr & regs::NSCR_OPTLOCK, 0);
    assert!(!up.access().inner.obl_launched());
}

#[test]
fn an_armed_swap_locks_the_options_again() {
    let mut up = fresh();
    up.commit_swap().expect("commit");
    let nscr = up.access().peek32(regs::FLASH_NSCR);
    assert_ne!(nscr & regs::NSCR_LOCK, 0);
    assert_ne!(nscr & regs::NSCR_OPTLOCK, 0);
    assert!(up.access().obl_launched());
}

// A driver that finds both control registers unlocked.
fn found_unlocked() -> Stm32FlashSeam<FlashModel> {
    let mut up = fresh();
    let access = up.access_mut();
    for keyr in [regs::FLASH_SECKEYR, regs::FLASH_NSKEYR] {
        access.write32(keyr, regs::FLASH_KEY1);
        access.write32(keyr, regs::FLASH_KEY2);
    }
    assert!(!secure_locked(&up));
    assert!(!non_secure_locked(&up));
    up
}

fn secure_locked(up: &Stm32FlashSeam<FlashModel>) -> bool {
    up.access().peek32(regs::FLASH_SECCR) & regs::SECCR_LOCK != 0
}

fn non_secure_locked(up: &Stm32FlashSeam<FlashModel>) -> bool {
    up.access().peek32(regs::FLASH_NSCR) & regs::NSCR_LOCK != 0
}

#[test]
fn an_operation_locks_the_register_set_it_used_whatever_the_start() {
    let mut up = found_unlocked();
    up.erase_inactive().expect("erase");
    assert!(secure_locked(&up) && non_secure_locked(&up));

    let mut up = found_unlocked();
    up.write_inactive_page(0, &[1; 16]).expect("secure page");
    assert!(secure_locked(&up) && !non_secure_locked(&up));

    let mut up = found_unlocked();
    up.write_inactive_page(320, &[1; 16]).expect("non-secure page");
    assert!(!secure_locked(&up) && non_secure_locked(&up));

    let mut up = found_unlocked();
    up.write_descriptor(&[1; 88]).expect("descriptor");
    assert!(secure_locked(&up) && !non_secure_locked(&up));

    let mut up = found_unlocked();
    up.nvcnt_bump(1).expect("bump");
    assert!(secure_locked(&up) && !non_secure_locked(&up));

    let mut up = found_unlocked();
    FlashSeam::pending_write(&mut up, PendingFlag::Armed(BankId::Bank2)).expect("pending");
    assert!(secure_locked(&up) && !non_secure_locked(&up));

    let mut up = found_unlocked();
    up.boot_count_advance().expect("advance");
    assert!(secure_locked(&up) && !non_secure_locked(&up));

    let mut up = found_unlocked();
    up.commit_swap().expect("commit");
    assert!(!secure_locked(&up) && non_secure_locked(&up));
}

#[test]
fn an_erase_clears_the_whole_image_region_and_nothing_below_it() {
    let mut model = FlashModel::new();
    let first = regs::IMAGE_REGION_OFFSET as usize;
    let end = regs::BANK_SIZE as usize;
    for offset in (0..end).step_by(61) {
        model.poke_phys(false, offset, 0x11);
        model.poke_phys(true, offset, 0x22);
    }
    let mut up = Stm32FlashSeam::new(model);
    up.erase_inactive().expect("erase");
    for offset in 0..end {
        let was = if offset % 61 == 0 { 0x22 } else { 0xFF };
        let want = if offset < first { was } else { 0xFF };
        assert_eq!(up.access().phys_byte(true, offset), Some(want));
        let running = if offset % 61 == 0 { 0x11 } else { 0xFF };
        assert_eq!(up.access().phys_byte(false, offset), Some(running));
    }
}

#[test]
fn an_erased_bank_gives_back_pages_of_both_bands() {
    let mut up = fresh();
    up.erase_inactive().expect("erase");
    let full = [0x5A; PAGE_LEN];
    assert_eq!(up.write_inactive_page(319, &full), Ok(()));
    assert_eq!(up.write_inactive_page(320, &full[..7]), Ok(()));
    assert_eq!(up.write_inactive_page(703, &full), Ok(()));
    assert_eq!(up.write_inactive_page(704, &full), Err(FlashError::OutOfRange));
    assert_eq!(up.write_inactive_page(0, &[0; PAGE_LEN + 1]), Err(FlashError::OutOfRange));
    let secure = up.inactive_secure_band();
    assert!(secure[..319 * PAGE_LEN].iter().all(|b| *b == 0xFF));
    assert_eq!(&secure[319 * PAGE_LEN..], &full[..]);
    let ns = up.inactive_ns_band();
    assert_eq!(&ns[..7], &full[..7]);
    let last = 383 * PAGE_LEN;
    assert!(ns[7..last].iter().all(|b| *b == 0xFF));
    assert_eq!(&ns[last..], &full[..]);
    assert!(up.access().cr_locked());
}

#[test]
fn an_erased_bank_gives_back_a_descriptor_of_a_whole_page() {
    let mut model = FlashModel::new();
    for offset in 0..regs::PAGE_SIZE as usize {
        model.poke_phys(true, regs::IMAGE_DESCRIPTOR_OFFSET as usize + offset, 0);
    }
    let mut up = Stm32FlashSeam::new(model);
    up.erase_inactive().expect("erase");
    let page: Vec<u8> = (0..regs::PAGE_SIZE).map(|i| (i % 251) as u8).collect();
    let long = vec![0; page.len() + 1];
    assert_eq!(up.write_descriptor(&long), Err(FlashError::OutOfRange));
    assert!(up.inactive_descriptor().iter().all(|b| *b == 0xFF));
    assert_eq!(up.write_descriptor(&page), Ok(()));
    for (i, byte) in page.iter().enumerate() {
        let at = regs::IMAGE_DESCRIPTOR_OFFSET as usize + i;
        assert_eq!(up.access().phys_byte(true, at), Some(*byte));
    }
    assert_eq!(up.inactive_descriptor(), &page[..88]);
    assert!(up.inactive_secure_band().iter().all(|b| *b == 0xFF));
    assert!(up.inactive_ns_band().iter().all(|b| *b == 0xFF));
    assert!(up.access().cr_locked());
}

#[test]
fn a_raise_takes_the_first_erased_slot() {
    let mut model = FlashModel::new();
    let slot = regs::QUAD_WORD_LEN as usize;
    let log = regs::META_NVCNT_OFFSET as usize;
    // A stray byte in the last word of the first slot, and one in a later slot.
    model.poke_phys(false, log + 12, 0);
    model.poke_phys(false, log + 5 * slot + 8, 0);
    let mut up = Stm32FlashSeam::new(model);
    assert_eq!(up.nvcnt_bump(3), Ok(()));
    assert_eq!(up.nvcnt_read(), Ok(3));
    assert_eq!(up.access().phys_byte(false, log), Some(0xFF));
    assert_eq!(up.access().phys_byte(false, log + slot), Some(3));
}

#[test]
fn the_first_boot_of_an_armed_bank_advances_the_countdown() {
    let mut driver = fresh();
    FlashSeam::pending_write(&mut driver, PendingFlag::Armed(BankId::Bank1)).expect("arm");
    let root = dev_root();
    let mut up = Updater::new(&root, driver, MockSeCounter::new(SE_FLOOR_ZERO));
    assert_eq!(up.on_boot(), Ok(UpdateState::AwaitingConfirm));
    assert_eq!(up.on_boot(), Ok(UpdateState::AwaitingConfirm));
}
