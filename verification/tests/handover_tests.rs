//! Cohort handovers.

use logcabin::cohort::{CohortConfig, EndorserData, EndorserFinalization};
use logcabin::handover::{CohortHandover, EndorserActivation, HandoverError};
use logcabin::keys::{Signature, VerifyingKey};
use logcabin::receipts;
use p256::ecdsa::signature::Signer;
use p256::ecdsa::SigningKey;
use sha2::Digest;

fn verifying_key(signing_key: &SigningKey) -> VerifyingKey {
    VerifyingKey::from_sec1_bytes(&signing_key.verifying_key().to_sec1_bytes()).unwrap()
}

fn sign(signing_key: &SigningKey, message: &[u8]) -> Signature {
    let signature: p256::ecdsa::Signature = signing_key.sign(message);
    Signature::from_slice(&signature.to_bytes()).unwrap()
}

// -----------------------------------------------------------------------
// Test helpers
// -----------------------------------------------------------------------

/// Generates `n` signing keys with their verifying keys sorted in
/// SEC1-lexicographic order. Returns `(signing_keys, verifying_keys)`.
fn sorted_key_pairs(n: usize) -> (Vec<SigningKey>, Vec<VerifyingKey>) {
    let mut pairs: Vec<(SigningKey, VerifyingKey)> = (0..n)
        .map(|_| {
            let sk = SigningKey::random(&mut rand_core::OsRng);
            let vk = verifying_key(&sk);
            (sk, vk)
        })
        .collect();
    pairs.sort_by_key(|pair| pair.1.to_sec1_bytes());
    pairs.into_iter().unzip()
}

/// A test setup for handover verification scenarios (no Verifier needed).
struct HandoverSetup {
    old_sks: Vec<SigningKey>,
    old_vks: Vec<VerifyingKey>,
    new_sks: Vec<SigningKey>,
    new_vks: Vec<VerifyingKey>,
    instance_id: [u8; 32],
    ledgers_hash: [u8; 32],
}

impl HandoverSetup {
    /// Creates a 3-endorser old cohort and 3-endorser new cohort.
    fn new() -> Self {
        let (old_sks, old_vks) = sorted_key_pairs(3);
        let (new_sks, new_vks) = sorted_key_pairs(3);
        let old_config = CohortConfig::try_from_keys(old_vks.clone()).unwrap();
        let instance_id = old_config.config_id();
        let ledgers_hash = {
            let mut hasher = sha2::Sha256::new();
            hasher.update(&(1u32).to_be_bytes());
            hasher.update(&(0u32).to_be_bytes());
            hasher.update(&[0xAA; 32]);
            hasher.update(&42u64.to_be_bytes());
            hasher.update(&[0xBB; 32]);
            hasher.finalize().into()
        };
        Self {
            old_sks,
            old_vks,
            new_sks,
            new_vks,
            instance_id,
            ledgers_hash,
        }
    }

    fn old_config_id(&self) -> [u8; 32] {
        CohortConfig::try_from_keys(self.old_vks.clone())
            .unwrap()
            .config_id()
    }

    fn new_config_id(&self) -> [u8; 32] {
        CohortConfig::try_from_keys(self.new_vks.clone())
            .unwrap()
            .config_id()
    }

    /// Signs finalization receipts for the given endorsers (by index).
    fn sign_finalization_receipts(&self, signers: &[usize]) -> Vec<EndorserFinalization> {
        let message = receipts::build_finalize_message(
            &self.instance_id,
            &self.old_config_id(),
            &self.new_config_id(),
            &self.ledgers_hash,
        );
        self.sign_finalization_receipts_with_message(signers, &message)
    }

    /// Signs finalization receipts with a custom message (for mismatch tests).
    fn sign_finalization_receipts_with_message(
        &self,
        signers: &[usize],
        message: &[u8],
    ) -> Vec<EndorserFinalization> {
        self.old_vks
            .iter()
            .enumerate()
            .map(|(i, vk)| EndorserData {
                endorser_key: *vk,
                maybe_receipt: if signers.contains(&i) {
                    Some(sign(&self.old_sks[i], message))
                } else {
                    None
                },
            })
            .collect()
    }

    /// Signs activation receipts for the given endorsers (by index).
    fn sign_activation_receipts(&self, signers: &[usize]) -> Vec<EndorserActivation> {
        let message = receipts::build_activate_from_prev_message(
            &self.instance_id,
            &self.old_config_id(),
            &self.new_config_id(),
            &self.ledgers_hash,
        );
        self.sign_activation_receipts_with_message(signers, &message)
    }

    /// Signs activation receipts with a custom message.
    fn sign_activation_receipts_with_message(
        &self,
        signers: &[usize],
        message: &[u8],
    ) -> Vec<EndorserActivation> {
        self.new_vks
            .iter()
            .enumerate()
            .map(|(i, vk)| EndorserData {
                endorser_key: *vk,
                maybe_receipt: if signers.contains(&i) {
                    Some(sign(&self.new_sks[i], message))
                } else {
                    None
                },
            })
            .collect()
    }

    /// Constructs a valid CohortHandover with just-quorum (2 of 3).
    fn valid_handover(&self) -> CohortHandover {
        let fin_entries = self.sign_finalization_receipts(&[0, 1]);
        let act_entries = self.sign_activation_receipts(&[0, 1]);
        CohortHandover::try_new(fin_entries, act_entries, self.ledgers_hash).unwrap()
    }
}

// -----------------------------------------------------------------------
// CohortHandover::verify tests
// -----------------------------------------------------------------------

#[test]
fn verify_happy_path() {
    let setup = HandoverSetup::new();
    let handover = setup.valid_handover();
    let new_config = handover.verify(&setup.instance_id).unwrap();
    assert_eq!(new_config.keys(), setup.new_vks);
}

#[test]
fn verify_fails_finalization_different_instance_id() {
    let setup = HandoverSetup::new();
    let wrong_instance_id = [0xFF; 32];
    let message = receipts::build_finalize_message(
        &wrong_instance_id,
        &setup.old_config_id(),
        &setup.new_config_id(),
        &setup.ledgers_hash,
    );
    let fin_entries = setup.sign_finalization_receipts_with_message(&[0, 1], &message);
    let act_entries = setup.sign_activation_receipts(&[0, 1]);
    let handover =
        CohortHandover::try_new(fin_entries, act_entries, setup.ledgers_hash).unwrap();

    let result = handover.verify(&setup.instance_id);
    assert!(matches!(
        result,
        Err(HandoverError::FinalizationQuorumNotMet(_))
    ));
}

#[test]
fn verify_fails_finalization_different_prev_config() {
    let setup = HandoverSetup::new();
    let wrong_prev_config_id = [0xFF; 32];
    let message = receipts::build_finalize_message(
        &setup.instance_id,
        &wrong_prev_config_id,
        &setup.new_config_id(),
        &setup.ledgers_hash,
    );
    let fin_entries = setup.sign_finalization_receipts_with_message(&[0, 1], &message);
    let act_entries = setup.sign_activation_receipts(&[0, 1]);
    let handover =
        CohortHandover::try_new(fin_entries, act_entries, setup.ledgers_hash).unwrap();

    // Endorsers signed with the wrong prev_config_id. verify() reconstructs
    // the message using finalization.config_id() (the real one), so signatures
    // won't match -> quorum not met.
    let result = handover.verify(&setup.instance_id);
    assert!(matches!(
        result,
        Err(HandoverError::FinalizationQuorumNotMet(_))
    ));
}

#[test]
fn verify_fails_finalization_different_new_config() {
    let setup = HandoverSetup::new();
    let wrong_new_config_id = [0xCC; 32];
    let message = receipts::build_finalize_message(
        &setup.instance_id,
        &setup.old_config_id(),
        &wrong_new_config_id,
        &setup.ledgers_hash,
    );
    let fin_entries = setup.sign_finalization_receipts_with_message(&[0, 1], &message);
    let act_entries = setup.sign_activation_receipts(&[0, 1]);
    let handover =
        CohortHandover::try_new(fin_entries, act_entries, setup.ledgers_hash).unwrap();

    // verify() reconstructs the finalize message using activation.new_config_id(),
    // so the signatures won't match.
    let result = handover.verify(&setup.instance_id);
    assert!(matches!(
        result,
        Err(HandoverError::FinalizationQuorumNotMet(_))
    ));
}

#[test]
fn verify_fails_finalization_ledgers_hash_mismatch() {
    let setup = HandoverSetup::new();
    let wrong_ledgers_hash = [0xDD; 32];
    let fin_message = receipts::build_finalize_message(
        &setup.instance_id,
        &setup.old_config_id(),
        &setup.new_config_id(),
        &wrong_ledgers_hash,
    );
    let fin_entries = setup.sign_finalization_receipts_with_message(&[0, 1], &fin_message);
    let act_entries = setup.sign_activation_receipts(&[0, 1]);
    // Handover carries the wrong hash.
    let handover =
        CohortHandover::try_new(fin_entries, act_entries, wrong_ledgers_hash).unwrap();

    let result = handover.verify(&setup.instance_id);
    // Finalization signatures match (they signed over wrong_ledgers_hash),
    // but the activation message is built with wrong_ledgers_hash (from
    // handover.ledgers_hash), so the activation signatures won't match.
    assert!(matches!(
        result,
        Err(HandoverError::ActivationQuorumNotMet(_))
    ));
}

#[test]
fn verify_fails_activation_ledgers_hash_mismatch() {
    let setup = HandoverSetup::new();
    let wrong_ledgers_hash = [0xDD; 32];
    let fin_entries = setup.sign_finalization_receipts(&[0, 1]);
    let act_message = receipts::build_activate_from_prev_message(
        &setup.instance_id,
        &setup.old_config_id(),
        &setup.new_config_id(),
        &wrong_ledgers_hash,
    );
    let act_entries = setup.sign_activation_receipts_with_message(&[0, 1], &act_message);
    let handover =
        CohortHandover::try_new(fin_entries, act_entries, setup.ledgers_hash).unwrap();

    let result = handover.verify(&setup.instance_id);
    // verify() builds the activation message using handover.ledgers_hash,
    // which is correct. The activation receipts signed the wrong hash.
    assert!(matches!(
        result,
        Err(HandoverError::ActivationQuorumNotMet(_))
    ));
}

#[test]
fn verify_fails_activation_different_instance_id() {
    let setup = HandoverSetup::new();
    let wrong_instance_id = [0xEE; 32];
    let fin_entries = setup.sign_finalization_receipts(&[0, 1]);
    let act_message = receipts::build_activate_from_prev_message(
        &wrong_instance_id,
        &setup.old_config_id(),
        &setup.new_config_id(),
        &setup.ledgers_hash,
    );
    let act_entries = setup.sign_activation_receipts_with_message(&[0, 1], &act_message);
    let handover =
        CohortHandover::try_new(fin_entries, act_entries, setup.ledgers_hash).unwrap();

    let result = handover.verify(&setup.instance_id);
    assert!(matches!(
        result,
        Err(HandoverError::ActivationQuorumNotMet(_))
    ));
}

#[test]
fn verify_fails_activation_different_prev_config() {
    let setup = HandoverSetup::new();
    let wrong_prev_config_id = [0xAA; 32];
    let fin_entries = setup.sign_finalization_receipts(&[0, 1]);
    let act_message = receipts::build_activate_from_prev_message(
        &setup.instance_id,
        &wrong_prev_config_id,
        &setup.new_config_id(),
        &setup.ledgers_hash,
    );
    let act_entries = setup.sign_activation_receipts_with_message(&[0, 1], &act_message);
    let handover =
        CohortHandover::try_new(fin_entries, act_entries, setup.ledgers_hash).unwrap();

    // verify() builds the activation message using finalization.config_id(),
    // which is the real prev_config. The activation receipts signed a different one.
    let result = handover.verify(&setup.instance_id);
    assert!(matches!(
        result,
        Err(HandoverError::ActivationQuorumNotMet(_))
    ));
}

#[test]
fn verify_fails_activation_extra_endorser_in_prev_config() {
    let setup = HandoverSetup::new();
    let extra_sk = SigningKey::random(&mut rand_core::OsRng);
    let extra_vk = verifying_key(&extra_sk);
    let mut extended_old_vks = setup.old_vks.clone();
    extended_old_vks.push(extra_vk);
    extended_old_vks.sort_by_key(|key| key.to_sec1_bytes());
    let extended_prev_config = CohortConfig::try_from_keys(extended_old_vks).unwrap();

    let fin_entries = setup.sign_finalization_receipts(&[0, 1]);
    let act_message = receipts::build_activate_from_prev_message(
        &setup.instance_id,
        &extended_prev_config.config_id(),
        &setup.new_config_id(),
        &setup.ledgers_hash,
    );
    let act_entries = setup.sign_activation_receipts_with_message(&[0, 1], &act_message);
    let handover =
        CohortHandover::try_new(fin_entries, act_entries, setup.ledgers_hash).unwrap();

    let result = handover.verify(&setup.instance_id);
    assert!(matches!(
        result,
        Err(HandoverError::ActivationQuorumNotMet(_))
    ));
}

#[test]
fn verify_fails_activation_different_new_config() {
    let setup = HandoverSetup::new();
    let wrong_new_config_id = [0xBB; 32];
    let fin_entries = setup.sign_finalization_receipts(&[0, 1]);
    let act_message = receipts::build_activate_from_prev_message(
        &setup.instance_id,
        &setup.old_config_id(),
        &wrong_new_config_id,
        &setup.ledgers_hash,
    );
    let act_entries = setup.sign_activation_receipts_with_message(&[0, 1], &act_message);
    let handover =
        CohortHandover::try_new(fin_entries, act_entries, setup.ledgers_hash).unwrap();

    // verify() derives new_config_id from the activation keys.
    // The signatures used a different new_config_id, so they won't verify.
    let result = handover.verify(&setup.instance_id);
    assert!(matches!(
        result,
        Err(HandoverError::ActivationQuorumNotMet(_))
    ));
}
