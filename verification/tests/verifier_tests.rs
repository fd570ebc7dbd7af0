//! The receipt verifier.

use logcabin::cohort::{CohortConfig, EndorserData, EndorserFinalization};
use logcabin::handover::{CohortHandover, EndorserActivation, HandoverError};
use logcabin::keys::{Signature, VerifyingKey};
use logcabin::ledger::LedgerBlock;
use logcabin::ledger_receipts::{LedgerReceipt, LedgerReceipts};
use logcabin::receipts;
use logcabin::verification::{Verifier, VerifyError};
use p256::ecdsa::signature::Signer;
use p256::ecdsa::SigningKey;
use sha2::Digest;

fn verifying_key(signing_key: &SigningKey) -> VerifyingKey {
    VerifyingKey::from_sec1_bytes(&signing_key.verifying_key().to_sec1_bytes()).unwrap()
}

fn sign(signing_key: &SigningKey, message: &[u8]) -> Signature {
    let signature: p256::ecdsa::Signature = signing_key.sign(message);
    Signature::from_slice(&signature.to_bytes()).unwrap()
}

// -----------------------------------------------------------------------
// Test helpers
// -----------------------------------------------------------------------

/// Generates `n` signing keys with their verifying keys sorted in
/// SEC1-lexicographic order. Returns `(signing_keys, verifying_keys)`.
fn sorted_key_pairs(n: usize) -> (Vec<SigningKey>, Vec<VerifyingKey>) {
    let mut pairs: Vec<(SigningKey, VerifyingKey)> = (0..n)
        .map(|_| {
            let sk = SigningKey::random(&mut rand_core::OsRng);
            let vk = verifying_key(&sk);
            (sk, vk)
        })
        .collect();
    pairs.sort_by_key(|pair| pair.1.to_sec1_bytes());
    pairs.into_iter().unzip()
}

/// Computes the ledgers hash that the endorser would produce for a set of
/// ledger blocks. Here we use a single-ledger hash for simplicity.
fn compute_ledgers_hash(blocks: &[(u32, &LedgerBlock)]) -> [u8; 32] {
    let mut hasher = sha2::Sha256::new();
    // Must match endorser's Ledgers::hash() format.
    hasher.update(&(blocks.len() as u32).to_be_bytes());
    for (id, block) in blocks {
        hasher.update(&id.to_be_bytes());
        hasher.update(&block.entry);
        hasher.update(&block.index.to_be_bytes());
        hasher.update(&block.hash_chain_tail);
    }
    hasher.finalize().into()
}

/// A test setup for handover scenarios.
struct HandoverSetup {
    verifier: Verifier,
    old_sks: Vec<SigningKey>,
    old_vks: Vec<VerifyingKey>,
    new_sks: Vec<SigningKey>,
    new_vks: Vec<VerifyingKey>,
    instance_id: [u8; 32],
    ledgers_hash: [u8; 32],
}

impl HandoverSetup {
    /// Creates a 3-endorser old cohort and 3-endorser new cohort.
    fn new() -> Self {
        let (old_sks, old_vks) = sorted_key_pairs(3);
        let (new_sks, new_vks) = sorted_key_pairs(3);
        let old_config = CohortConfig::try_from_keys(old_vks.clone()).unwrap();
        let instance_id = old_config.config_id();
        let ledgers_hash = compute_ledgers_hash(&[(
            0,
            &LedgerBlock {
                entry: [0xAA; 32],
                index: 42,
                hash_chain_tail: [0xBB; 32],
            },
        )]);
        let verifier = Verifier::new(old_config);
        Self {
            verifier,
            old_sks,
            old_vks,
            new_sks,
            new_vks,
            instance_id,
            ledgers_hash,
        }
    }

    fn old_config_id(&self) -> [u8; 32] {
        self.verifier.trusted_config().config_id()
    }

    fn new_config_id(&self) -> [u8; 32] {
        let cfg = CohortConfig::try_from_keys(self.new_vks.clone()).unwrap();
        cfg.config_id()
    }

    /// Signs finalization receipts for the given endorsers (by index).
    /// Uses the setup's own instance_id and ledgers_hash.
    fn sign_finalization_receipts(&self, signers: &[usize]) -> Vec<EndorserFinalization> {
        let message = receipts::build_finalize_message(
            &self.instance_id,
            &self.old_config_id(),
            &self.new_config_id(),
            &self.ledgers_hash,
        );
        self.sign_finalization_receipts_with_message(signers, &message)
    }

    /// Signs finalization receipts with a custom message (for mismatch tests).
    fn sign_finalization_receipts_with_message(
        &self,
        signers: &[usize],
        message: &[u8],
    ) -> Vec<EndorserFinalization> {
        self.old_vks
            .iter()
            .enumerate()
            .map(|(i, vk)| EndorserData {
                endorser_key: *vk,
                maybe_receipt: if signers.contains(&i) {
                    Some(sign(&self.old_sks[i], message))
                } else {
                    None
                },
            })
            .collect()
    }

    /// Signs activation receipts for the given endorsers (by index).
    fn sign_activation_receipts(&self, signers: &[usize]) -> Vec<EndorserActivation> {
        let message = receipts::build_activate_from_prev_message(
            &self.instance_id,
            &self.old_config_id(),
            &self.new_config_id(),
            &self.ledgers_hash,
        );
        self.sign_activation_receipts_with_message(signers, &message)
    }

    /// Signs activation receipts with a custom message.
    fn sign_activation_receipts_with_message(
        &self,
        signers: &[usize],
        message: &[u8],
    ) -> Vec<EndorserActivation> {
        self.new_vks
            .iter()
            .enumerate()
            .map(|(i, vk)| EndorserData {
                endorser_key: *vk,
                maybe_receipt: if signers.contains(&i) {
                    Some(sign(&self.new_sks[i], message))
                } else {
                    None
                },
            })
            .collect()
    }

    /// Constructs a valid CohortHandover with
    /// the given signer indices having just-quorum (2 of 3).
    fn valid_handover(&self) -> CohortHandover {
        let fin_entries = self.sign_finalization_receipts(&[0, 1]);
        let act_entries = self.sign_activation_receipts(&[0, 1]);
        CohortHandover::try_new(fin_entries, act_entries, self.ledgers_hash).unwrap()
    }
}

// -----------------------------------------------------------------------
// Handover tests
// -----------------------------------------------------------------------

#[test]
fn handover_happy_path_minimum_quorum() {
    let mut setup = HandoverSetup::new();
    let handover = setup.valid_handover();

    let result = setup.verifier.apply_handover(handover);
    assert!(result.is_ok());

    // After handover, trusted config should be the new cohort.
    assert_eq!(setup.verifier.trusted_config().keys(), setup.new_vks);
    // Instance ID should be preserved.
    assert_eq!(setup.verifier.instance_id(), &setup.instance_id);
}

#[test]
fn handover_fails_finalization_extra_endorser() {
    let mut setup = HandoverSetup::new();
    // Create a finalization with 4 endorsers (1 extra) - all the old
    // keys plus one more. The config IDs won't match the trusted config.
    let extra_sk = SigningKey::random(&mut rand_core::OsRng);
    let extra_vk = verifying_key(&extra_sk);
    let mut extended_sks = setup.old_sks.clone();
    let mut extended_vks = setup.old_vks.clone();
    extended_sks.push(extra_sk);
    extended_vks.push(extra_vk);
    // Sort both in lockstep by verifying key SEC1 bytes.
    let mut pairs: Vec<_> = extended_sks
        .into_iter()
        .zip(extended_vks.into_iter())
        .collect();
    pairs.sort_by_key(|pair| pair.1.to_sec1_bytes());

    // Build a finalization message using the extended config's ID.
    let extended_config = CohortConfig::try_from_keys(pairs.iter().map(|(_, vk)| *vk).collect()).unwrap();
    let message = receipts::build_finalize_message(
        &setup.instance_id,
        &extended_config.config_id(),
        &setup.new_config_id(),
        &setup.ledgers_hash,
    );

    // All 4 endorsers sign valid receipts.
    let fin_entries: Vec<EndorserFinalization> = pairs
        .iter()
        .map(|(sk, vk)| EndorserData {
            endorser_key: *vk,
            maybe_receipt: Some(sign(sk, &message)),
        })
        .collect();
    let act_entries = setup.sign_activation_receipts(&[0, 1]);
    let handover =
        CohortHandover::try_new(fin_entries, act_entries, setup.ledgers_hash).unwrap();

    let result = setup.verifier.apply_handover(handover);
    // The config ID check fires before signature verification.
    assert!(matches!(
        result,
        Err(HandoverError::FinalizationConfigMismatch)
    ));
}

#[test]
fn apply_handover_rejects_invalid_handover() {
    let mut setup = HandoverSetup::new();
    // Config IDs match (correct keys, correct order), but no endorsers
    // actually signed - all receipts are None.
    let make_handover = || {
        let fin_entries: Vec<EndorserFinalization> = setup
            .old_vks
            .iter()
            .map(|vk| EndorserData {
                endorser_key: *vk,
                maybe_receipt: None,
            })
            .collect();
        let act_entries = setup.sign_activation_receipts(&[0, 1]);
        CohortHandover::try_new(fin_entries, act_entries, setup.ledgers_hash).unwrap()
    };

    // The handover is internally invalid (no finalization quorum).
    assert!(make_handover().verify(&setup.instance_id).is_err());

    // apply_handover delegates to verify and also rejects it.
    let result = setup.verifier.apply_handover(make_handover());
    assert!(result.is_err());
}

// -----------------------------------------------------------------------
// verify_read_latest tests
// -----------------------------------------------------------------------

/// A test setup for ledger receipt verification scenarios.
struct LedgerSetup {
    verifier: Verifier,
    sks: Vec<SigningKey>,
    block: LedgerBlock,
    nonce: u64,
    ledger_id: u32,
}

impl LedgerSetup {
    /// Creates a 3-endorser cohort with a reference ledger block.
    fn new() -> Self {
        let (sks, vks) = sorted_key_pairs(3);
        let config = CohortConfig::try_from_keys(vks).unwrap();
        let verifier = Verifier::new(config);
        Self {
            verifier,
            sks,
            block: LedgerBlock {
                entry: [0xAA; 32],
                index: 42,
                hash_chain_tail: [0xBB; 32],
            },
            nonce: 12345,
            ledger_id: 7,
        }
    }

    /// Signs read_latest receipts for the given endorsers (by index).
    fn sign_read_latest_receipts(
        &self,
        signers: &[usize],
        instance_id: &[u8; 32],
        block: &LedgerBlock,
        nonce: u64,
        ledger_id: u32,
    ) -> LedgerReceipts {
        let receipts = signers
            .iter()
            .map(|&i| {
                let message = receipts::build_read_latest_message(
                    instance_id,
                    ledger_id,
                    &block.entry,
                    block.index,
                    &block.hash_chain_tail,
                    nonce,
                );
                LedgerReceipt {
                    key_index: i,
                    block: block.clone(),
                    signature: sign(&self.sks[i], &message),
                }
            })
            .collect::<Vec<_>>();
        LedgerReceipts::new(receipts)
    }

    /// Signs append_entry receipts for the given endorsers (by index).
    fn sign_append_receipts(
        &self,
        signers: &[usize],
        instance_id: &[u8; 32],
        block: &LedgerBlock,
        ledger_id: u32,
    ) -> LedgerReceipts {
        let receipts = signers
            .iter()
            .map(|&i| {
                let message = receipts::build_entry_receipt_message(
                    instance_id,
                    ledger_id,
                    &block.entry,
                    block.index,
                    &block.hash_chain_tail,
                );
                LedgerReceipt {
                    key_index: i,
                    block: block.clone(),
                    signature: sign(&self.sks[i], &message),
                }
            })
            .collect::<Vec<_>>();
        LedgerReceipts::new(receipts)
    }

    /// Signs read_latest receipts using the setup's default values.
    fn sign_good_read_latest_receipts(&self, signers: &[usize]) -> LedgerReceipts {
        self.sign_read_latest_receipts(
            signers,
            self.verifier.instance_id(),
            &self.block,
            self.nonce,
            self.ledger_id,
        )
    }

    /// Signs append_entry receipts using the setup's default values.
    fn sign_good_append_receipts(&self, signers: &[usize]) -> LedgerReceipts {
        self.sign_append_receipts(
            signers,
            self.verifier.instance_id(),
            &self.block,
            self.ledger_id,
        )
    }
}

#[test]
fn read_latest_happy_path_minimum_quorum() {
    let setup = LedgerSetup::new();
    let receipts = setup.sign_good_read_latest_receipts(&[0, 1]);
    let result = setup
        .verifier
        .verify_read_latest(&receipts, setup.nonce, setup.ledger_id);
    assert!(result.is_ok());
    assert_eq!(result.unwrap(), setup.block);
}

#[test]
fn read_latest_fails_bad_nonce() {
    let setup = LedgerSetup::new();
    let receipts = setup.sign_good_read_latest_receipts(&[0, 1]);
    let wrong_nonce = setup.nonce + 1;
    let result = setup
        .verifier
        .verify_read_latest(&receipts, wrong_nonce, setup.ledger_id);
    assert!(matches!(result, Err(VerifyError::QuorumNotMet(_))));
}

#[test]
fn read_latest_fails_bad_ledger_id() {
    let setup = LedgerSetup::new();
    let receipts = setup.sign_good_read_latest_receipts(&[0, 1]);
    let wrong_ledger_id = setup.ledger_id + 1;
    let result = setup
        .verifier
        .verify_read_latest(&receipts, setup.nonce, wrong_ledger_id);
    assert!(matches!(result, Err(VerifyError::QuorumNotMet(_))));
}

#[test]
fn read_latest_fails_bad_entry() {
    let setup = LedgerSetup::new();
    let mut bad_block = setup.block.clone();
    bad_block.entry = [0xFF; 32];
    let good_receipts = setup.sign_good_read_latest_receipts(&[0]);
    let bad_receipts = setup.sign_read_latest_receipts(
        &[1],
        setup.verifier.instance_id(),
        &bad_block,
        setup.nonce,
        setup.ledger_id,
    );
    // Combine: first receipt (reference) is good, second has different entry.
    let combined = LedgerReceipts::new(
        good_receipts
            .iter()
            .chain(bad_receipts.iter())
            .map(|r| LedgerReceipt {
                key_index: r.key_index,
                block: r.block.clone(),
                signature: r.signature,
            })
            .collect::<Vec<_>>(),
    );
    let result = setup
        .verifier
        .verify_read_latest(&combined, setup.nonce, setup.ledger_id);
    // Only 1 of 3 matches the reference -> quorum not met.
    assert!(matches!(result, Err(VerifyError::QuorumNotMet(_))));
}

#[test]
fn read_latest_fails_bad_index() {
    let setup = LedgerSetup::new();
    let mut bad_block = setup.block.clone();
    bad_block.index = 999;
    let good_receipts = setup.sign_good_read_latest_receipts(&[0]);
    let bad_receipts = setup.sign_read_latest_receipts(
        &[1],
        setup.verifier.instance_id(),
        &bad_block,
        setup.nonce,
        setup.ledger_id,
    );
    let combined = LedgerReceipts::new(
        good_receipts
            .iter()
            .chain(bad_receipts.iter())
            .map(|r| LedgerReceipt {
                key_index: r.key_index,
                block: r.block.clone(),
                signature: r.signature,
            })
            .collect::<Vec<_>>(),
    );
    let result = setup
        .verifier
        .verify_read_latest(&combined, setup.nonce, setup.ledger_id);
    assert!(matches!(result, Err(VerifyError::QuorumNotMet(_))));
}

#[test]
fn read_latest_fails_bad_hash_chain_tail() {
    let setup = LedgerSetup::new();
    let mut bad_block = setup.block.clone();
    bad_block.hash_chain_tail = [0xCC; 32];
    let good_receipts = setup.sign_good_read_latest_receipts(&[0]);
    let bad_receipts = setup.sign_read_latest_receipts(
        &[1],
        setup.verifier.instance_id(),
        &bad_block,
        setup.nonce,
        setup.ledger_id,
    );
    let combined = LedgerReceipts::new(
        good_receipts
            .iter()
            .chain(bad_receipts.iter())
            .map(|r| LedgerReceipt {
                key_index: r.key_index,
                block: r.block.clone(),
                signature: r.signature,
            })
            .collect::<Vec<_>>(),
    );
    let result = setup
        .verifier
        .verify_read_latest(&combined, setup.nonce, setup.ledger_id);
    assert!(matches!(result, Err(VerifyError::QuorumNotMet(_))));
}

#[test]
fn read_latest_fails_bad_instance_id() {
    let setup = LedgerSetup::new();
    let wrong_instance_id = [0xFF; 32];
    let receipts = setup.sign_read_latest_receipts(
        &[0, 1],
        &wrong_instance_id,
        &setup.block,
        setup.nonce,
        setup.ledger_id,
    );
    let result = setup
        .verifier
        .verify_read_latest(&receipts, setup.nonce, setup.ledger_id);
    assert!(matches!(result, Err(VerifyError::QuorumNotMet(_))));
}

// -----------------------------------------------------------------------
// verify_entry tests
// -----------------------------------------------------------------------

#[test]
fn append_happy_path_minimum_quorum() {
    let setup = LedgerSetup::new();
    let receipts = setup.sign_good_append_receipts(&[0, 1]);
    let result = setup
        .verifier
        .verify_entry(&receipts, setup.block.index, setup.ledger_id);
    assert!(result.is_ok());
    assert_eq!(result.unwrap(), setup.block);
}

#[test]
fn append_fails_bad_ledger_id() {
    let setup = LedgerSetup::new();
    let receipts = setup.sign_good_append_receipts(&[0, 1]);
    let wrong_ledger_id = setup.ledger_id + 1;
    let result = setup
        .verifier
        .verify_entry(&receipts, setup.block.index, wrong_ledger_id);
    assert!(matches!(result, Err(VerifyError::QuorumNotMet(_))));
}

#[test]
fn append_fails_bad_entry() {
    let setup = LedgerSetup::new();
    let mut bad_block = setup.block.clone();
    bad_block.entry = [0xFF; 32];
    let good_receipts = setup.sign_good_append_receipts(&[0]);
    let bad_receipts = setup.sign_append_receipts(
        &[1],
        setup.verifier.instance_id(),
        &bad_block,
        setup.ledger_id,
    );
    let combined = LedgerReceipts::new(
        good_receipts
            .iter()
            .chain(bad_receipts.iter())
            .map(|r| LedgerReceipt {
                key_index: r.key_index,
                block: r.block.clone(),
                signature: r.signature,
            })
            .collect::<Vec<_>>(),
    );
    let result = setup
        .verifier
        .verify_entry(&combined, setup.block.index, setup.ledger_id);
    assert!(matches!(result, Err(VerifyError::QuorumNotMet(_))));
}

#[test]
fn append_fails_bad_index() {
    let setup = LedgerSetup::new();
    let mut bad_block = setup.block.clone();
    bad_block.index = 999;
    let good_receipts = setup.sign_good_append_receipts(&[0]);
    let bad_receipts = setup.sign_append_receipts(
        &[1],
        setup.verifier.instance_id(),
        &bad_block,
        setup.ledger_id,
    );
    let combined = LedgerReceipts::new(
        good_receipts
            .iter()
            .chain(bad_receipts.iter())
            .map(|r| LedgerReceipt {
                key_index: r.key_index,
                block: r.block.clone(),
                signature: r.signature,
            })
            .collect::<Vec<_>>(),
    );
    let result = setup
        .verifier
        .verify_entry(&combined, setup.block.index, setup.ledger_id);
    assert!(matches!(result, Err(VerifyError::QuorumNotMet(_))));
}

#[test]
fn append_fails_bad_hash_chain_tail() {
    let setup = LedgerSetup::new();
    let mut bad_block = setup.block.clone();
    bad_block.hash_chain_tail = [0xCC; 32];
    let good_receipts = setup.sign_good_append_receipts(&[0]);
    let bad_receipts = setup.sign_append_receipts(
        &[1],
        setup.verifier.instance_id(),
        &bad_block,
        setup.ledger_id,
    );
    let combined = LedgerReceipts::new(
        good_receipts
            .iter()
            .chain(bad_receipts.iter())
            .map(|r| LedgerReceipt {
                key_index: r.key_index,
                block: r.block.clone(),
                signature: r.signature,
            })
            .collect::<Vec<_>>(),
    );
    let result = setup
        .verifier
        .verify_entry(&combined, setup.block.index, setup.ledger_id);
    assert!(matches!(result, Err(VerifyError::QuorumNotMet(_))));
}

#[test]
fn append_fails_bad_instance_id() {
    let setup = LedgerSetup::new();
    let wrong_instance_id = [0xFF; 32];
    let receipts =
        setup.sign_append_receipts(&[0, 1], &wrong_instance_id, &setup.block, setup.ledger_id);
    let result = setup
        .verifier
        .verify_entry(&receipts, setup.block.index, setup.ledger_id);
    assert!(matches!(result, Err(VerifyError::QuorumNotMet(_))));
}

#[test]
fn append_fails_wrong_expected_index() {
    let setup = LedgerSetup::new();
    let receipts = setup.sign_good_append_receipts(&[0, 1]);
    let wrong_index = setup.block.index + 1;
    let result = setup
        .verifier
        .verify_entry(&receipts, wrong_index, setup.ledger_id);
    assert!(matches!(
        result,
        Err(VerifyError::UnexpectedIndex { expected, actual })
            if expected == wrong_index && actual == setup.block.index
    ));
}
