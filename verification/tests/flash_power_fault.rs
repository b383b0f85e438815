//! Power loss at every persistent flash operation, over the register-level driver.
//!
//! The update machine runs over the driver and the controller model. A cut hits the
//! driver's own sequences, and the armed countdown rides across the modelled reset,
//! so one index walks every quad-word program, page erase and option program of a
//! flow. After each cut the part boots until nothing changes any more, and the
//! settled state is checked.

use p256::ecdsa::signature::Signer;
use p256::ecdsa::SigningKey;
use patina_key::flash::driver::Stm32FlashSeam;
use patina_key::flash::model::CutMode;
use patina_key::flash::model::FlashModel;
use patina_key::flash::regs;
use patina_key::image::encode::encode_header;
use patina_key::image::error::VerifyError;
use patina_key::image::format::ImageVersion;
use patina_key::image::format::HEADER_LEN;
use patina_key::image::format::ROOT_KEY_LEN;
use patina_key::image::format::SIG_LEN;
use patina_key::image::verify::verify_image;
use patina_key::image::verify::RootKey;
use patina_key::update::fidelity::FidelitySeCounter;
use patina_key::update::machine::UpdateState;
use patina_key::update::machine::Updater;
use patina_key::update::machine::SE_COUNTER_ORIGIN;
use patina_key::update::seam::FlashSeam;
use patina_key::update::seam::PendingFlag;
use patina_key::update::seam::PAGE_LEN;

// The image security counters. The OLD bank and the stored NVCNT start below the
// new image counter, so the update is a forward step, not a downgrade.
const OLD_BANK_COUNTER: u32 = 4;
const NEW_IMAGE_COUNTER: u32 = 5;
const BASELINE_NVCNT: u32 = 4;

// An SE counter value whose derived anti-rollback floor equals the new image
// counter, so Gate 2 accepts the forward step (floor = ORIGIN - value).
const SE_AT_FLOOR: u32 = SE_COUNTER_ORIGIN - NEW_IMAGE_COUNTER;

// A small payload for the census, so the persistent-op count stays bounded and
// each flow is fast. A larger payload for the torn-page test, so a full page
// flushes during receive where the tear lands.
const OLD_PAYLOAD: &[u8] = b"old firmware payload v1..";
const NEW_PAYLOAD: &[u8] = b"new firmware payload bytes for the a/b census";

// The number of erase ops erase_inactive issues (image pages 9..31 of the
// inactive bank), so the torn-page test can arm at the first payload program.
const ERASE_OPS: u32 = regs::PAGES_PER_BANK - regs::IMAGE_PAGE_FIRST;

// The dev private scalar, test only. A publicly known, hardcoded key that makes
// every fixture deterministic. The all-0x01 value is a valid P-256 scalar:
// non-zero, and far below the curve order, which starts with 0xFF.
const DEV_SCALAR: [u8; 32] = [1u8; 32];

/// Which recovery branch the post-reset boot drives once the swap took effect.
#[derive(Debug, Clone, Copy, PartialEq, Eq)]
enum Health {
    /// The new bank is healthy, so on_boot reaches AwaitingConfirm and confirm is
    /// driven. The flash cut can hit the confirm flash ops (the pending clear and
    /// the NVCNT bump done last). The SE spend is a separate `SeCounterSeam` op,
    /// outside the flash-cut domain, proven by the dedicated channel-drop test.
    Confirm,
    /// The new bank failed its health check, so revert is driven instead (the
    /// reverse-swap arm, the pending clear).
    Revert,
}

/// The part: the driver over the controller model. A reboot keeps it and drops the
/// machine above it.
type Part = Stm32FlashSeam<FlashModel>;

// The signing key of the dev scalar.
fn dev_signing_key() -> SigningKey {
    SigningKey::from_slice(&DEV_SCALAR).expect("the dev scalar is in [1, n-1]")
}

// Builds a HEADER || payload || signature image signed with the dev scalar, with the header from
// the encoder. The signature is normalized to low-s, the only encoding the verifier accepts.
fn dev_image(security_counter: u32, payload: &[u8]) -> Vec<u8> {
    let version = ImageVersion {
        major: 1,
        minor: 0,
        revision: 0,
        build: 0,
    };
    let header = encode_header(version, security_counter, payload.len() as u32);
    let mut signed = Vec::new();
    signed.extend_from_slice(&header);
    signed.extend_from_slice(payload);
    let sig: p256::ecdsa::Signature = dev_signing_key().sign(&signed);
    let sig = sig.normalize_s();
    let mut image = signed;
    image.extend_from_slice(&sig.to_bytes());
    image
}

// The dev root key, derived from the dev scalar.
fn dev_root() -> RootKey {
    let point = dev_signing_key().verifying_key().to_sec1_point(false);
    let mut bytes = [0u8; ROOT_KEY_LEN];
    bytes.copy_from_slice(point.as_ref());
    RootKey::from_bytes(bytes).expect("the derived dev root key is on-curve")
}

// Seeds a physical bank store with a signed image in the exact de-interleaved
// layout the driver writes: the header into the descriptor page [0:24], the
// signature into the descriptor [24:88], and the payload into the payload band
// from offset 0. The seeding is bank-relative and alias-independent, so it holds
// across a swap. Assumes the payload fits the secure sub-band (true for the small
// census images), so the whole payload lands contiguously at the payload offset.
fn seed_bank_image(model: &mut FlashModel, bank2: bool, image: &[u8]) {
    let payload_len = image.len() - HEADER_LEN - SIG_LEN;
    let descriptor = regs::IMAGE_DESCRIPTOR_OFFSET as usize;
    let payload = regs::IMAGE_PAYLOAD_OFFSET as usize;
    for (i, byte) in image[..HEADER_LEN].iter().enumerate() {
        model.poke_phys(bank2, descriptor + i, *byte);
    }
    let sig = &image[HEADER_LEN + payload_len..];
    for (i, byte) in sig.iter().enumerate() {
        model.poke_phys(bank2, descriptor + HEADER_LEN + i, *byte);
    }
    for (i, byte) in image[HEADER_LEN..HEADER_LEN + payload_len].iter().enumerate() {
        model.poke_phys(bank2, payload + i, *byte);
    }
}

// Reassembles the de-interleaved image out of a physical bank store and verifies
// it against the root key. Reads the model's real bytes (never a rebuilt copy),
// so a passing verify proves the store actually holds a bootable image.
fn bank_verifies(
    model: &FlashModel,
    bank2: bool,
    payload_len: usize,
    root: &RootKey,
) -> bool {
    let descriptor = regs::IMAGE_DESCRIPTOR_OFFSET as usize;
    let payload = regs::IMAGE_PAYLOAD_OFFSET as usize;
    let mut header = Vec::with_capacity(HEADER_LEN);
    let mut sig = Vec::with_capacity(SIG_LEN);
    let mut body = Vec::with_capacity(payload_len);
    for i in 0..HEADER_LEN {
        match model.phys_byte(bank2, descriptor + i) {
            Some(byte) => header.push(byte),
            None => return false,
        }
    }
    for i in 0..SIG_LEN {
        match model.phys_byte(bank2, descriptor + HEADER_LEN + i) {
            Some(byte) => sig.push(byte),
            None => return false,
        }
    }
    for i in 0..payload_len {
        match model.phys_byte(bank2, payload + i) {
            Some(byte) => body.push(byte),
            None => return false,
        }
    }
    let segments: [&[u8]; 3] = [&header, &body, &sig];
    verify_image(&segments, root).is_ok()
}

// Builds a fresh model seeded with the old bank image (physical Bank 1) plus the
// baseline NVCNT, both poked physically so the seeding never ticks the cut
// counter. The inactive bank (physical Bank 2) stays erased.
fn seeded_part(old_image: &[u8]) -> Part {
    let mut model = FlashModel::new();
    seed_bank_image(&mut model, false, old_image);
    // Seed the NVCNT log slot 0 directly, so the seeding does not count as a
    // persistent op (the census length must reflect only the flow).
    let base = regs::META_NVCNT_OFFSET as usize;
    for (i, byte) in BASELINE_NVCNT.to_le_bytes().iter().enumerate() {
        model.poke_phys(false, base + i, *byte);
    }
    Stm32FlashSeam::new(model)
}

// Reads the pending record (a read, no mutation).
fn pending_of(part: &mut Part) -> PendingFlag {
    part.pending_read().expect("pending read")
}

// Reads the NVCNT.
fn nvcnt_of(part: &mut Part) -> u32 {
    part.nvcnt_read().expect("nvcnt read")
}

// Streams the image through the public receive API in small chunks, in order.
// Stops and returns the error on the first faulted chunk.
fn stream_chunks(up: &mut CensusUpdater<'_>, image: &[u8]) -> bool {
    let mut offset = 0usize;
    for chunk in image.chunks(13) {
        if up.receive_chunk(offset, chunk).is_err() {
            return false;
        }
        offset += chunk.len();
    }
    true
}

// Convenience alias for the concrete Updater the census drives: the real driver
// over the FLASH-controller model, so the injected cuts hit the real
// driver code.
type CensusUpdater<'k> = Updater<'k, Part, FidelitySeCounter>;

// The settled result of driving one flow.
struct FlowOutcome {
    part: Part,
    fired: bool,
    ops: u32,
}

// Drives the whole flow under an optional single global cut.
//
// Segment 1 runs begin -> receive -> accept -> commit with the cut armed. The cut
// countdown that survives rides in the model. `reset_applied` models the
// option-load-at-reset window: true applies the staged swap atomically, false models a cut before the option load committed, dropping the
// stage so the old bank boots. After the reset the harness reboots repeatedly,
// running on_boot recovery and driving confirm or revert by `health`, until the
// state settles.
fn run_flow(
    root: &RootKey,
    old_image: &[u8],
    new_image: &[u8],
    cut: Option<(u32, CutMode)>,
    reset_applied: bool,
    health: Health,
) -> FlowOutcome {
    let mut part = seeded_part(old_image);
    if let Some((index, mode)) = cut {
        part.access_mut().arm_cut(index, mode);
    }

    let se = FidelitySeCounter::new(SE_AT_FLOOR);
    let mut up: CensusUpdater = Updater::new(root, part, se);

    // Stream and accept. Any error here is the cut firing during erase, a page
    // write, a descriptor write, or a read, which collapses the machine
    // fail-closed.
    let accepted = up.begin(new_image.len()).is_ok()
        && stream_chunks(&mut up, new_image)
        && up.verify_and_accept().is_ok();
    // Commit the swap if accepted. A cut here leaves the staged swap either
    // set or not, which the modelled reset resolves.
    let _committed = accepted && up.commit().is_ok();
    // Drop the volatile machine: this is the reboot.
    let mut part = up.into_flash();

    // Model the option-load-at-reset window.
    if reset_applied {
        part.access_mut().apply_reset();
    } else {
        part.access_mut().reboot_without_option_load();
    }

    let part = drive_recovery(root, part, health);

    let fired = part.access().cut_fired();
    let ops = part.access().persistent_ops();
    FlowOutcome {
        part,
        fired,
        ops,
    }
}

// Reboots repeatedly from the surviving model until the state settles, driving
// on_boot recovery and then confirm or revert by `health` on each boot. A cut that
// survived into the post-reset segment fires inside one of these boots and faults
// the recovery mid-way. The next boot runs on fresh silicon (the reset cleared the
// dead flag, the cut is spent) and retries, so the loop runs until the state
// reaches a fixed point with no staged swap and no pending record.
fn drive_recovery(root: &RootKey, part: Part, health: Health) -> Part {
    let mut part = part;
    let mut guard = 0u32;
    loop {
        guard += 1;
        assert!(guard < 32, "recovery must settle in a bounded number of boots");

        // Each boot after the first applies the staged option load atomically: a
        // reboot is a reset. The caller resolved the first reset.
        if guard > 1 {
            part.access_mut().apply_reset();
        }

        let ops_before = part.access().persistent_ops();
        let se = FidelitySeCounter::new(SE_AT_FLOOR);
        let mut up: CensusUpdater = Updater::new(root, part, se);
        if let Ok(UpdateState::AwaitingConfirm) = up.on_boot() {
            match health {
                Health::Confirm => {
                    let _ = up.confirm(NEW_IMAGE_COUNTER);
                }
                Health::Revert => {
                    let _ = up.revert();
                }
            }
        }
        part = up.into_flash();

        let quiescent = part.access().staged_swap().is_none()
            && pending_of(&mut part) == PendingFlag::Clear;
        let ops_after = part.access().persistent_ops();
        // Settled once no swap is staged, no record dangles, and a full clean boot
        // cycle issued no persistent op (a functional fixed point).
        if quiescent && ops_after == ops_before {
            return part;
        }
    }
}

/// The end-to-end disposition of a settled flow, decided from its intended health
/// branch and the real physical boot bank.
///
/// A [`Health::Revert`] flow must always settle back on the old bank. A
/// [`Health::Confirm`] flow settles [`Settled::Confirmed`] on the new bank once the
/// swap is confirmed end to end, and on the old bank when a cut kept it from ever
/// confirming. Deciding the required bank from the disposition, not from the raw
/// boot bank alone, makes sure that a revert that erroneously ends confirmed on the new bank
/// fails the census instead of passing as "whatever boots verifies".
#[derive(Debug, Clone, Copy, PartialEq, Eq)]
enum Settled {
    /// The old bank (physical Bank 1) must boot: the swap was never confirmed.
    OldBank,
    /// The new bank (physical Bank 2) must boot: the swap was confirmed end to end.
    Confirmed,
}

// Decides the settled disposition from the health branch and the real boot bank. A
// confirmed swap requires the Confirm branch and the new bank actually booting.
// Every revert flow, and any confirm flow a cut kept from confirming, is OldBank.
// The pending record is already proven clear by the caller, so the disposition
// turns on the health branch and the boot bank alone.
fn settled_disposition(health: Health, boots_new: bool) -> Settled {
    if health == Health::Confirm && boots_new {
        Settled::Confirmed
    } else {
        Settled::OldBank
    }
}

// Asserts the safety invariant on a settled model, given the flow's health branch
// and the OLD and NEW image payload lengths.
//
// (a) the old bank stays bootable until a swap is confirmed, and a revert flow
//     always returns to the old bank,
// (b) the booting bank always verifies and an unverified image never boots,
// (c) the NVCNT never rises above the security counter of the bank that boots,
// (d) no settled state leaves a staged swap or a dangling pending record.
//
// The expected physical bank is required per disposition (see settled_disposition),
// not merely read off the model, so a Revert flow that ends confirmed on the new
// bank fails here rather than passing as "whatever bank boots verifies".
fn assert_invariants(
    part: &mut Part,
    old_pl: usize,
    new_pl: usize,
    root: &RootKey,
    health: Health,
) {
    // (d) No swap may be left staged and no pending record may dangle.
    assert_eq!(
        part.access().staged_swap(),
        None,
        "no staged swap may survive a settled recovery"
    );
    assert_eq!(
        pending_of(part),
        PendingFlag::Clear,
        "no pending record may survive a settled recovery"
    );

    let boots_new = part.access().boots_bank2();
    let nvcnt = nvcnt_of(part);
    let settled = settled_disposition(health, boots_new);

    match settled {
        Settled::Confirmed => {
            // The confirm flow reached an end-to-end confirmed swap, so the new
            // bank (physical Bank 2) must boot.
            assert!(boots_new, "a confirmed swap must boot the NEW bank");
            // (b) The booting bank must verify, read from the real store.
            let verified = bank_verifies(part.access(), true, new_pl, root);
            assert!(verified, "the confirmed NEW bank bytes must verify");
            // (c) NVCNT never above the booting bank counter.
            assert!(
                nvcnt <= NEW_IMAGE_COUNTER,
                "NVCNT must not exceed the booting bank counter"
            );
        }
        Settled::OldBank => {
            // A revert flow, or a confirm flow a cut kept from confirming, so the
            // old bank (physical Bank 1) must boot. A wrong-direction revert that
            // left the new bank booting fails this assertion.
            assert!(
                !boots_new,
                "an unconfirmed or reverted flow must boot the OLD bank"
            );
            // (b) The OLD bank bytes in the MODEL must still verify (non-vacuous:
            // these are the actual seeded bytes, never a rebuilt copy).
            let verified = bank_verifies(part.access(), false, old_pl, root);
            assert!(verified, "the OLD bank bytes must still verify");
            // (c) No Gate-1 poisoning: an unconfirmed update must not raise NVCNT
            // above the OLD bank counter.
            assert!(
                nvcnt <= OLD_BANK_COUNTER,
                "NVCNT must not rise above the OLD bank on an unconfirmed update"
            );
        }
    }
}

const CUT_MODES: [CutMode; 3] = [
    CutMode::BeforeMutation,
    CutMode::AfterMutation,
    CutMode::TornWrite,
];
const RESET_OUTCOMES: [bool; 2] = [true, false];
const HEALTHS: [Health; 2] = [Health::Confirm, Health::Revert];

/// One census point: a cut index, the mode it fires in, and the reset and health
/// branch the flow takes.
#[derive(Debug, Clone, Copy, PartialEq, Eq)]
struct CensusCase {
    index: u32,
    mode: CutMode,
    reset_applied: bool,
    health: Health,
}

// Enumerates the census input space as one flat iterator: every cut mode, both
// option-load-at-reset outcomes, both health branches, and every persistent-op
// index below `n`. The index varies fastest, matching the flow order the census
// walks.
fn census_cases(n: u32) -> impl Iterator<Item = CensusCase> {
    CUT_MODES
        .into_iter()
        .flat_map(|mode| {
            RESET_OUTCOMES
                .into_iter()
                .map(move |reset_applied| (mode, reset_applied))
        })
        .flat_map(|(mode, reset_applied)| {
            HEALTHS
                .into_iter()
                .map(move |health| (mode, reset_applied, health))
        })
        .flat_map(move |(mode, reset_applied, health)| {
            (0..n).map(move |index| CensusCase {
                index,
                mode,
                reset_applied,
                health,
            })
        })
}

// Marks the index whose cut fired and returns how many cuts to add to the tally.
fn record_fired(fired_seen: &mut [bool], index: u32, fired: bool) -> u32 {
    if !fired {
        return 0;
    }
    if let Some(slot) = fired_seen.get_mut(index as usize) {
        *slot = true;
    }
    1
}

// Asserts the enumerated census cases are pairwise distinct. A count pin alone
// still passes when an axis is rewritten to repeat one value, which holds the
// total while dropping the branch that axis exists to cover.
fn assert_cases_are_distinct(cases: &[CensusCase]) {
    for (i, a) in cases.iter().enumerate() {
        for b in cases.iter().skip(i + 1) {
            assert_ne!(a, b, "the census axes must enumerate distinct cases");
        }
    }
}

// Asserts every persistent-op index fired at least once across the census. This
// is the check that proves the cut spans the whole flow, including the post-reset
// confirm and revert mutations.
fn assert_every_index_fired(fired_seen: &[bool]) {
    for (idx, seen) in fired_seen.iter().enumerate() {
        assert!(
            *seen,
            "persistent op index {idx} never fired, the cut span has a gap"
        );
    }
}

#[test]
fn power_fault_tests_exhaustive_power_fault_interleavings_hold_the_invariant() {
    let root = dev_root();
    let old_image = dev_image(OLD_BANK_COUNTER, OLD_PAYLOAD);
    let new_image = dev_image(NEW_IMAGE_COUNTER, NEW_PAYLOAD);
    let old_pl = OLD_PAYLOAD.len();
    let new_pl = NEW_PAYLOAD.len();

    // Measure each health branch's flow length with a clean run (no cut). The
    // longer branch defines the census index range, and its ops are contiguous
    // indices 0..len, so arming each index there fires.
    let confirm_len =
        run_flow(&root, &old_image, &new_image, None, true, Health::Confirm).ops;
    let revert_len =
        run_flow(&root, &old_image, &new_image, None, true, Health::Revert).ops;
    let n = confirm_len.max(revert_len);
    assert!(n > ERASE_OPS, "the flow must reach past the inactive-bank erase");
    assert_eq!(n, 38, "the flow length changed, count again");

    let cases: Vec<CensusCase> = census_cases(n).collect();
    let total = cases.len() as u32;
    let mut fired_seen = vec![false; n as usize];
    let mut fired_count = 0u32;

    for case in cases.iter().copied() {
        let mut out = run_flow(
            &root,
            &old_image,
            &new_image,
            Some((case.index, case.mode)),
            case.reset_applied,
            case.health,
        );
        assert_invariants(&mut out.part, old_pl, new_pl, &root, case.health);
        fired_count += record_fired(&mut fired_seen, case.index, out.fired);
    }

    assert_eq!(total, 12 * n, "every axis combination must be exercised");
    assert_cases_are_distinct(&cases);

    assert_every_index_fired(&fired_seen);

    println!(
        "register-level power-fault harness: {total} interleavings exercised, \
         {fired_count} cuts fired, every one of {n} persistent-op indices fired \
         at least once over the real driver"
    );
    assert!(fired_count > 0, "at least one cut must have fired");
}

#[test]
fn power_fault_tests_rejected_image_never_commits_at_any_cut() {
    // Stream an image with a bad signature, drive the full flow with a cut at
    // every index in every mode, and assert it never reaches a confirmed swap and
    // the old bank always boots.
    let root = dev_root();
    let old_image = dev_image(OLD_BANK_COUNTER, OLD_PAYLOAD);
    let mut bad_image = dev_image(NEW_IMAGE_COUNTER, NEW_PAYLOAD);
    // Flip a byte inside the trailing signature so the ECDSA check fails at the
    // signature, not on a structural error. The low half of the s scalar keeps
    // the signature low-s and well-formed.
    let last = bad_image.len() - 1;
    bad_image[last] ^= 0x01;
    let self_check: [&[u8]; 1] = [&bad_image];
    assert_eq!(
        verify_image(&self_check, &root),
        Err(VerifyError::BadSignature),
        "the rejected fixture must fail at the signature check"
    );

    let old_pl = OLD_PAYLOAD.len();
    // A rejected flow never commits, so its length is bounded by the confirm flow.
    let n = run_flow(&root, &old_image, &bad_image, None, true, Health::Confirm).ops;

    for mode in CUT_MODES {
        for reset_applied in RESET_OUTCOMES {
            for k in 0..n {
                let mut out = run_flow(
                    &root,
                    &old_image,
                    &bad_image,
                    Some((k, mode)),
                    reset_applied,
                    Health::Confirm,
                );
                // The image never verifies, so the swap is never confirmed.
                assert!(
                    !out.part.access().boots_bank2(),
                    "a rejected image must never boot the NEW bank"
                );
                // The OLD bank still boots and still verifies.
                assert!(
                    bank_verifies(out.part.access(), false, old_pl, &root),
                    "the OLD bank bytes must still verify after a rejection"
                );
                // No swap staged, no record dangling, NVCNT never raised.
                assert_eq!(out.part.access().staged_swap(), None);
                assert_eq!(pending_of(&mut out.part), PendingFlag::Clear);
                assert!(
                    nvcnt_of(&mut out.part) <= OLD_BANK_COUNTER,
                    "a rejected image must not bump NVCNT"
                );
            }
        }
    }
}

#[test]
fn power_fault_tests_reset_after_clean_commit_boots_new_bank_and_confirms() {
    // A clean run with no cut: commit stages the swap, the modelled reset applies
    // it atomically, on_boot owes a confirm, confirm completes. Proves the
    // confirmed new bank store verifies and the NVCNT bumped last.
    let root = dev_root();
    let old_image = dev_image(OLD_BANK_COUNTER, OLD_PAYLOAD);
    let new_image = dev_image(NEW_IMAGE_COUNTER, NEW_PAYLOAD);
    let mut out = run_flow(
        &root,
        &old_image,
        &new_image,
        None,
        true,
        Health::Confirm,
    );
    assert!(out.part.access().boots_bank2(), "the NEW bank boots");
    assert!(
        bank_verifies(out.part.access(), true, NEW_PAYLOAD.len(), &root),
        "the confirmed NEW bank bytes verify"
    );
    assert_eq!(nvcnt_of(&mut out.part), NEW_IMAGE_COUNTER, "NVCNT bumped last");
    assert_eq!(pending_of(&mut out.part), PendingFlag::Clear, "record cleared");
}

#[test]
fn power_fault_tests_revert_returns_to_old_bank_and_leaves_no_dangling_stage() {
    // Drive the revert branch: on_boot reaches AwaitingConfirm, the health check
    // fails, so revert is driven. After a revert the OLD physical bank boots again
    // and no staged swap dangles toward the unverified bank.
    let root = dev_root();
    let old_image = dev_image(OLD_BANK_COUNTER, OLD_PAYLOAD);
    let new_image = dev_image(NEW_IMAGE_COUNTER, NEW_PAYLOAD);
    let mut out = run_flow(
        &root,
        &old_image,
        &new_image,
        None,
        true,
        Health::Revert,
    );
    assert!(
        !out.part.access().boots_bank2(),
        "the OLD physical bank boots after a revert"
    );
    assert!(
        bank_verifies(out.part.access(), false, OLD_PAYLOAD.len(), &root),
        "the OLD bank bytes still verify after a revert"
    );
    assert_eq!(nvcnt_of(&mut out.part), OLD_BANK_COUNTER, "NVCNT not bumped");
    assert_eq!(out.part.access().staged_swap(), None, "no dangling stage");
    assert_eq!(pending_of(&mut out.part), PendingFlag::Clear, "record cleared");
}

#[test]
fn power_fault_tests_cut_before_swap_reset_keeps_old_bank() {
    // The swap is staged but the option load never commits (a cut before the
    // reset). The OLD bank still boots and still verifies.
    let root = dev_root();
    let old_image = dev_image(OLD_BANK_COUNTER, OLD_PAYLOAD);
    let new_image = dev_image(NEW_IMAGE_COUNTER, NEW_PAYLOAD);
    let mut out = run_flow(
        &root,
        &old_image,
        &new_image,
        None,
        false,
        Health::Confirm,
    );
    assert!(
        !out.part.access().boots_bank2(),
        "a lost option load keeps the OLD bank booting"
    );
    assert!(
        bank_verifies(out.part.access(), false, OLD_PAYLOAD.len(), &root),
        "the OLD bank bytes still verify"
    );
    assert_eq!(pending_of(&mut out.part), PendingFlag::Clear, "record cleared on boot");
}

#[test]
fn power_fault_tests_torn_page_write_makes_bank_fail_verify() {
    // A torn quad-word during a payload page write poisons that quad-word, so the
    // inactive bank fails verify and no swap is armed. The OLD bank is untouched.
    let root = dev_root();
    let old_image = dev_image(OLD_BANK_COUNTER, OLD_PAYLOAD);
    // A payload larger than one page, so a full page flushes during receive where
    // the tear lands, not only at accept.
    let big_payload = vec![0xCDu8; 3 * PAGE_LEN];
    let new_image = dev_image(NEW_IMAGE_COUNTER, &big_payload);

    let mut part = seeded_part(&old_image);
    // Arm a torn write at the first payload program (index ERASE_OPS, just past
    // the inactive-bank erase).
    part.access_mut().arm_cut(ERASE_OPS, CutMode::TornWrite);

    let se = FidelitySeCounter::new(SE_AT_FLOOR);
    let mut up: CensusUpdater = Updater::new(&root, part, se);
    up.begin(new_image.len()).expect("begin");

    // The torn write faults the page write during receive, collapsing the
    // transfer fail-closed.
    let streamed = stream_chunks(&mut up, &new_image);
    assert!(!streamed, "the torn payload write must fault the transfer");
    assert_ne!(up.state(), UpdateState::Committed);
    let part = up.into_flash();
    assert!(part.access().cut_fired(), "the tear fired");
    assert_eq!(part.access().staged_swap(), None, "no swap staged");

    // The inactive bank (physical Bank 2) fails verify: the tear poisoned it.
    assert!(
        !bank_verifies(part.access(), true, big_payload.len(), &root),
        "the poisoned inactive bank must fail verify"
    );
    // The OLD bank store (physical Bank 1) is untouched and still bootable.
    assert!(
        bank_verifies(part.access(), false, OLD_PAYLOAD.len(), &root),
        "the OLD bank store must be untouched by an inactive-bank tear"
    );
}

#[test]
fn power_fault_tests_se_spend_interrupted_does_not_double_spend_or_strand() {
    // Interrupt confirm at the SE spend (the channel drops on se.update), then
    // prove the recovery on the next boot does not double-spend the SE counter and
    // does not strand a half-confirmed state. The machine spends the SE first in
    // confirm, so a drop there leaves the swap committed, the record still Armed,
    // and the NVCNT not yet bumped.
    let root = dev_root();
    let old_image = dev_image(OLD_BANK_COUNTER, OLD_PAYLOAD);
    let new_image = dev_image(NEW_IMAGE_COUNTER, NEW_PAYLOAD);

    // Run to a clean post-reset AwaitingConfirm state (no flash cut).
    let se = FidelitySeCounter::new(SE_AT_FLOOR);
    let mut up: CensusUpdater = Updater::new(&root, seeded_part(&old_image), se);
    up.begin(new_image.len()).expect("begin");
    assert!(stream_chunks(&mut up, &new_image), "receive");
    up.verify_and_accept().expect("accept");
    up.commit().expect("commit");
    let mut part = up.into_flash();
    part.access_mut().apply_reset();
    assert!(part.access().boots_bank2(), "the swap took effect");

    // First confirm boot: arm a channel drop on the SE update. The spend faults.
    let mut se = FidelitySeCounter::new(SE_AT_FLOOR);
    se.arm_drop_on_update();
    let mut up: CensusUpdater = Updater::new(&root, part, se);
    assert_eq!(up.on_boot().expect("on_boot"), UpdateState::AwaitingConfirm);
    assert!(up.confirm(NEW_IMAGE_COUNTER).is_err(), "the spend faults");
    assert!(
        !up.se_counter().updated(),
        "a dropped SE spend must not decrement the counter"
    );
    let value = up.se_counter().value();
    assert_eq!(value, SE_AT_FLOOR, "the counter did not decrement");
    // The swap is still committed, the record still Armed, NVCNT not bumped.
    let mut part = up.into_flash();
    assert!(part.access().boots_bank2(), "swap stays committed");
    assert!(
        matches!(pending_of(&mut part), PendingFlag::Armed(_)),
        "the confirm-owed record survives a dropped spend"
    );
    assert_eq!(nvcnt_of(&mut part), BASELINE_NVCNT, "NVCNT not bumped yet");

    // Next boot, channel up: the recovery re-enters AwaitingConfirm and confirms
    // cleanly. The SE counter, which kept its value, spends exactly once.
    let mut up: CensusUpdater = Updater::new(&root, part, FidelitySeCounter::new(value));
    assert_eq!(up.on_boot().expect("on_boot"), UpdateState::AwaitingConfirm);
    up.confirm(NEW_IMAGE_COUNTER).expect("confirm");
    assert!(up.se_counter().updated(), "the recovery spends the SE once");
    assert_eq!(up.se_counter().value(), SE_AT_FLOOR - 1, "spent exactly once");
    let mut part = up.into_flash();
    assert!(part.access().boots_bank2(), "NEW bank confirmed");
    assert_eq!(pending_of(&mut part), PendingFlag::Clear, "record cleared");
    assert_eq!(nvcnt_of(&mut part), NEW_IMAGE_COUNTER, "NVCNT bumped last");
}
