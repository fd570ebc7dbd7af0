//! What holds of endorsers, cohorts and clients together, on concrete values.

use logcabin::challenge::{
    cohort_config, judge, new_sorted_endorsers, resolve_block, run, run_against, Falsifier, LedgerView,
    NotAForkReason, Outcome, Verification, WhichView,
};
use logcabin::cohort::{compute_config_id, CohortConfig, CohortFinalization, EndorserData};
use logcabin::endorser::{
    ActivationError, Active, AppendEntryError, CreateLedgerError, Endorser, LedgerNotFoundError,
    Uninitialized,
};
use logcabin::handover::{CohortActivation, CohortHandover, HandoverError, QuorumError};
use logcabin::keys::VerifyingKey;
use logcabin::ledger::{LedgerBlock, Ledgers};
use logcabin::ledger_receipts::{LedgerReceipt, LedgerReceipts};
use logcabin::quorum::{count_receipts, is_strict_majority};
use logcabin::receipts;
use logcabin::takeover::CohortTakeOver;
use logcabin::util::{
    activate_all, activate_all_with_takeover, all_indices, append_to, create_ledger_on,
    finalize_all_toward, hand_over_to, hand_over_to_fresh_cohort, handover_from,
    must_activate_all, must_append_to, must_create_ledger_on, must_handover_from,
    must_read_latest_from, must_takeover_from, read_latest_from, takeover_from, SuccessionError,
};
use logcabin::verification::{Verifier, VerifyError};

const LEDGER: u32 = 0;

/// A new cohort of `n` active endorsers, with its config.
fn cohort(n: usize) -> (Vec<Endorser<Active>>, CohortConfig) {
    let endorsers = new_sorted_endorsers(n);
    let config = cohort_config(&endorsers).unwrap();
    (must_activate_all(endorsers, &config), config)
}

fn view(receipts: LedgerReceipts, verification: Verification) -> LedgerView {
    LedgerView { handovers: Vec::new(), receipts, ledger_id: LEDGER, verification }
}

/// The receipts as a new collection, without those at the end.
fn first(receipts: &LedgerReceipts, n: usize) -> LedgerReceipts {
    LedgerReceipts::new(receipts[..n].to_vec())
}

// ---------------------------------------------------------------------------
// Cohorts
// ---------------------------------------------------------------------------

#[test]
fn a_cohort_has_one_order() {
    let endorsers = new_sorted_endorsers(3);
    let keys: Vec<VerifyingKey> = endorsers.iter().map(|e| *e.verifying_key()).collect();
    let orders = [[0, 1, 2], [0, 2, 1], [1, 0, 2], [1, 2, 0], [2, 0, 1], [2, 1, 0]];
    for order in orders {
        let config = CohortConfig::try_from_keys(order.iter().map(|i| keys[*i]).collect());
        assert_eq!(config.is_ok(), order == [0, 1, 2]);
    }
    assert!(CohortConfig::try_from_keys(vec![keys[0], keys[0]]).is_err());
}

#[test]
fn a_cohort_contains_its_keys_alone() {
    for n in 1..8 {
        let endorsers = new_sorted_endorsers(n);
        let config = cohort_config(&endorsers).unwrap();
        assert_eq!(config.len(), n);
        for endorser in &endorsers {
            assert!(config.contains(endorser.verifying_key()));
        }
        for other in new_sorted_endorsers(5) {
            assert!(!config.contains(other.verifying_key()));
        }
    }
}

#[test]
fn different_cohorts_have_different_ids() {
    let endorsers = new_sorted_endorsers(3);
    let keys: Vec<VerifyingKey> = endorsers.iter().map(|e| *e.verifying_key()).collect();
    let ids = [
        compute_config_id(&[]),
        compute_config_id(&keys[..1]),
        compute_config_id(&keys[1..2]),
        compute_config_id(&keys[..2]),
        compute_config_id(&keys[1..]),
        compute_config_id(&keys),
    ];
    for i in 0..ids.len() {
        for j in 0..i {
            assert_ne!(ids[i], ids[j]);
        }
    }
    assert_eq!(cohort_config(&endorsers).unwrap().config_id(), ids[5]);
}

#[test]
fn receipts_do_not_change_the_id_of_a_cohort() {
    let (active, config) = cohort(2);
    let entries: Vec<_> = active
        .iter()
        .map(|e| EndorserData {
            endorser_key: *e.verifying_key(),
            maybe_receipt: Some(*e.activation_receipt()),
        })
        .collect();
    let activation = CohortActivation::try_new(entries.clone()).unwrap();
    assert_eq!(activation.len(), 2);
    assert_eq!(activation.into_config().config_id(), config.config_id());
    let data = CohortFinalization::try_new(entries).unwrap();
    assert_eq!(data.config_id(), config.config_id());
    assert_eq!(data.clone().into_config().keys(), config.keys());
}

#[test]
fn a_strict_majority_is_more_than_half() {
    for (count, total, expected) in [
        (0, 0, false),
        (1, 1, true),
        (1, 2, false),
        (2, 2, true),
        (1, 3, false),
        (2, 3, true),
        (2, 4, false),
        (3, 4, true),
        (usize::MAX, usize::MAX, true),
        (usize::MAX / 2, usize::MAX, false),
    ] {
        assert_eq!(is_strict_majority(count, total), expected, "{count} of {total}");
    }
}

#[test]
fn only_valid_receipts_count() {
    let (active, config) = cohort(3);
    let message = receipts::build_activate_new_instance_message(&config.config_id());
    let mut entries: Vec<_> = active
        .iter()
        .map(|e| EndorserData {
            endorser_key: *e.verifying_key(),
            maybe_receipt: Some(*e.activation_receipt()),
        })
        .collect();
    assert_eq!(count_receipts(&entries, &message), 3);
    assert_eq!(count_receipts(&entries, b"another message"), 0);
    entries[0].maybe_receipt = None;
    entries[1].maybe_receipt = Some(*active[2].activation_receipt());
    assert_eq!(count_receipts(&entries, &message), 1);
}

// ---------------------------------------------------------------------------
// Endorsers
// ---------------------------------------------------------------------------

#[test]
fn an_endorser_commits_to_one_block_per_index() {
    let (mut active, _) = cohort(1);
    let first = active[0].append_entry(LEDGER, [1; 32], 1, 10).unwrap();
    match active[0].append_entry(LEDGER, [2; 32], 1, 11) {
        Err(AppendEntryError::WrongIndex { expected: 1, actual: 2 }) => {}
        other => panic!("expected the index to be refused, got {other:?}"),
    }
    let read = active[0].read_latest(LEDGER, 12).unwrap();
    assert_eq!(read.block, first.block);
    assert_eq!(read.nonce, 12);
    assert_eq!(read.entry_receipt, first.entry_receipt);
}

#[test]
fn ledgers_only_grow() {
    let (mut active, _) = cohort(1);
    let mut latest = active[0].read_latest(LEDGER, 1).unwrap().block;
    for n in 1..=5u64 {
        let appended = active[0].append_entry(LEDGER, [n as u8; 32], n, 1).unwrap();
        assert_eq!(appended.block, latest.next([n as u8; 32]));
        latest = appended.block;
        match active[0].create_ledger(LEDGER) {
            Err(CreateLedgerError::AlreadyExists { ledger_id: LEDGER }) => {}
            other => panic!("expected the ledger to be there, got {other:?}"),
        }
        assert_eq!(active[0].read_latest(LEDGER, 1).unwrap().block, latest);
    }
    assert!(matches!(
        active[0].append_entry(4, [0; 32], 1, 1),
        Err(AppendEntryError::LedgerNotFound(LedgerNotFoundError { ledger_id: 4 }))
    ));
    assert_eq!(active[0].ledger_count(), 1);
    assert!(!active[0].is_full(LEDGER));
    assert!(!active[0].is_full(4));
}

#[test]
fn a_receipt_stays_valid_whatever_follows() {
    let (mut active, config) = cohort(1);
    let signed = active[0].append_entry(LEDGER, [1; 32], 1, 10).unwrap();
    active[0].append_entry(LEDGER, [2; 32], 2, 11).unwrap();
    let verifier = Verifier::new(config.clone());
    let endorser = active.remove(0);
    let finalized = endorser.finalize(&config);
    let receipts = LedgerReceipts::new(vec![LedgerReceipt {
        key_index: 0,
        block: signed.block,
        signature: signed.entry_receipt,
    }]);
    assert_eq!(verifier.verify_entry(&receipts, 1, LEDGER), Ok(signed.block));
    assert_eq!(finalized.ledgers().get(&LEDGER).unwrap().index, 2);
}

#[test]
fn finalization_keeps_all_but_the_signing_key() {
    let (mut active, config) = cohort(1);
    let endorser = active.remove(0);
    let key = *endorser.verifying_key();
    let alias = endorser.alias();
    let activation_receipt = *endorser.activation_receipt();
    let instance_id = *endorser.instance_id();
    assert_eq!(endorser.cohort_config().keys(), config.keys());
    let finalized = endorser.finalize(&config);
    assert_eq!(*finalized.verifying_key(), key);
    assert_eq!(finalized.alias(), alias);
    assert_eq!(*finalized.activation_receipt(), activation_receipt);
    assert_eq!(*finalized.instance_id(), instance_id);
    let message = receipts::build_finalize_message(
        &instance_id,
        &config.config_id(),
        &config.config_id(),
        &finalized.ledgers().hash(),
    );
    assert!(key.verify(&message, finalized.finalization_receipt()));
}

#[test]
fn a_refused_endorser_is_given_back() {
    let mut endorsers = new_sorted_endorsers(2);
    let second = endorsers.remove(1);
    let key = *second.verifying_key();
    let alias = second.alias();
    let config = cohort_config(&endorsers).unwrap();
    let error = match second.activate(config, None) {
        Ok(_) => panic!("the key is not in the config"),
        Err(error) => error,
    };
    assert_eq!(
        error.message(),
        format!("endorser with alias {alias}'s verifying key is not in the cohort config")
    );
    assert!(matches!(error, ActivationError::KeyNotInConfig { .. }));
    let reclaimed = error.reclaim_endorser();
    assert_eq!(*reclaimed.verifying_key(), key);

    let config = CohortConfig::try_from_keys(vec![key]).unwrap();
    let takeover = CohortTakeOver::new(
        [1; 32],
        CohortFinalization::try_new(vec![EndorserData { endorser_key: key, maybe_receipt: None }])
            .unwrap(),
        Ledgers::new(),
    );
    assert_eq!(takeover.endorser_finalizations().len(), 1);
    assert_eq!(takeover.prev_config_id(), config.config_id());
    assert!(!takeover.verify(&config));
    let error = match reclaimed.activate(config, Some(takeover)) {
        Ok(_) => panic!("nobody finalized"),
        Err(error) => error,
    };
    assert_eq!(
        error.message(),
        format!("endorser with alias {alias}: finalization receipts do not form a quorum")
    );
    assert!(matches!(error, ActivationError::NoQuorum { .. }));
    assert_eq!(error.reclaim_endorser().alias(), alias);
}

// ---------------------------------------------------------------------------
// Clients
// ---------------------------------------------------------------------------

#[test]
fn honest_majorities_are_accepted() {
    let (mut active, config) = cohort(5);
    let verifier = Verifier::new(config);
    let indices = [4, 0, 2];
    let appended = must_append_to(&mut active, &indices, LEDGER, [7; 32], 1, 70);
    let block = verifier.verify_append(&appended.append, &[7; 32], 70, LEDGER).unwrap();
    assert_eq!(block, LedgerBlock::initial().next([7; 32]));
    assert_eq!(verifier.verify_entry(&appended.entry, 1, LEDGER), Ok(block));
    let read = must_read_latest_from(&active, &indices, LEDGER, 71);
    assert_eq!(verifier.verify_read_latest(&read.read, 71, LEDGER), Ok(block));
    assert_eq!(verifier.verify_entry(&read.entry, 1, LEDGER), Ok(block));
}

#[test]
fn minorities_are_not_accepted() {
    let (mut active, config) = cohort(4);
    let verifier = Verifier::new(config);
    let appended = must_append_to(&mut active, &all_indices(4), LEDGER, [7; 32], 1, 70);
    let missed = |valid: usize| Err(VerifyError::QuorumNotMet(QuorumError { valid, required: 3 }));
    for n in 1..=4 {
        let verdict =
            verifier.verify_append(&first(&appended.append, n), &[7; 32], 70, LEDGER);
        if n < 3 {
            assert_eq!(verdict, missed(n));
        } else {
            assert!(verdict.is_ok());
        }
    }
    assert_eq!(
        verifier.verify_append(&first(&appended.append, 0), &[7; 32], 70, LEDGER),
        Err(VerifyError::NoReceipts)
    );
    // Another entry, nonce or ledger is vouched for by nobody.
    assert_eq!(verifier.verify_append(&appended.append, &[8; 32], 70, LEDGER), missed(0));
    assert_eq!(verifier.verify_append(&appended.append, &[7; 32], 71, LEDGER), missed(0));
    assert_eq!(verifier.verify_append(&appended.append, &[7; 32], 70, 1), missed(0));
    assert_eq!(
        verifier.verify_entry(&appended.entry, 2, LEDGER),
        Err(VerifyError::UnexpectedIndex { expected: 2, actual: 1 })
    );
}

#[test]
fn each_key_counts_once() {
    let (active, config) = cohort(3);
    let verifier = Verifier::new(config);
    let read = must_read_latest_from(&active, &[0, 1], LEDGER, 5).read;
    let mut receipts = read.to_vec();
    receipts[1] = receipts[0];
    assert_eq!(
        verifier.verify_read_latest(&LedgerReceipts::new(receipts.clone()), 5, LEDGER),
        Err(VerifyError::DuplicateKeyIndex)
    );
    receipts[1].key_index = 3;
    assert_eq!(
        verifier.verify_read_latest(&LedgerReceipts::new(receipts.clone()), 5, LEDGER),
        Err(VerifyError::KeyIndexOutOfBounds)
    );
    // The signature of endorser 0 does not verify under the key of endorser 1.
    receipts[1].key_index = 1;
    assert_eq!(
        verifier.verify_read_latest(&LedgerReceipts::new(receipts), 5, LEDGER),
        Err(VerifyError::QuorumNotMet(QuorumError { valid: 1, required: 2 }))
    );
}

/// A cohort of three in which endorser 0 appended one entry for the nonce 5 and
/// the others another. Returns the receipts of all, the odd one first.
fn divided() -> (Verifier, Vec<Endorser<Active>>, LedgerReceipts, LedgerReceipts) {
    let (mut active, config) = cohort(3);
    let odd = must_append_to(&mut active, &[0], LEDGER, [1; 32], 1, 5);
    let most = must_append_to(&mut active, &[1, 2], LEDGER, [2; 32], 1, 5);
    let together = |a: &LedgerReceipts, b: &LedgerReceipts| {
        LedgerReceipts::new([a.to_vec(), b.to_vec()].concat())
    };
    let append = together(&odd.append, &most.append);
    let entry = together(&odd.entry, &most.entry);
    (Verifier::new(config), active, append, entry)
}

#[test]
fn a_majority_wins_though_a_minority_comes_first() {
    let (verifier, active, append, entry) = divided();
    let block = LedgerBlock::initial().next([2; 32]);
    assert_ne!(append[0].block, block);
    assert_eq!(verifier.verify_append(&append, &[2; 32], 5, LEDGER), Ok(block));
    assert_eq!(verifier.verify_entry(&entry, 1, LEDGER), Ok(block));
    for order in [[0, 1, 2], [1, 0, 2], [2, 1, 0]] {
        let read = must_read_latest_from(&active, &order, LEDGER, 6);
        assert_eq!(verifier.verify_read_latest(&read.read, 6, LEDGER), Ok(block));
    }
    assert_eq!(
        verifier.verify_entry(&entry, 2, LEDGER),
        Err(VerifyError::UnexpectedIndex { expected: 2, actual: 1 })
    );
}

#[test]
fn without_a_majority_the_count_is_that_for_the_first_receipt() {
    let (verifier, active, append, _) = divided();
    // Only endorser 0 appended this entry, and its receipt comes first.
    assert_eq!(
        verifier.verify_append(&append, &[1; 32], 5, LEDGER),
        Err(VerifyError::QuorumNotMet(QuorumError { valid: 1, required: 2 }))
    );
    let mut read = must_read_latest_from(&active, &[1, 0, 2], LEDGER, 6).read.to_vec();
    read[2].signature = read[0].signature;
    assert_eq!(
        verifier.verify_read_latest(&LedgerReceipts::new(read.clone()), 6, LEDGER),
        Err(VerifyError::QuorumNotMet(QuorumError { valid: 1, required: 2 }))
    );
    read[0].signature = read[1].signature;
    assert_eq!(
        verifier.verify_read_latest(&LedgerReceipts::new(read), 6, LEDGER),
        Err(VerifyError::QuorumNotMet(QuorumError { valid: 0, required: 2 }))
    );
}

#[test]
fn index_faults_come_before_the_majority() {
    let (verifier, active, _, _) = divided();
    let mut read = must_read_latest_from(&active, &[1, 2, 0], LEDGER, 6).read.to_vec();
    assert!(verifier.verify_read_latest(&LedgerReceipts::new(read.clone()), 6, LEDGER).is_ok());
    read[2].key_index = 1;
    assert_eq!(
        verifier.verify_read_latest(&LedgerReceipts::new(read), 6, LEDGER),
        Err(VerifyError::DuplicateKeyIndex)
    );
}

#[test]
fn operations_cannot_stand_for_one_another() {
    let (mut active, config) = cohort(3);
    let all = all_indices(3);
    let verifier = Verifier::new(config);
    let appended = must_append_to(&mut active, &all, LEDGER, [7; 32], 1, 70);
    let read = must_read_latest_from(&active, &all, LEDGER, 70);
    assert!(verifier.verify_append(&read.read, &[7; 32], 70, LEDGER).is_err());
    assert!(verifier.verify_append(&read.entry, &[7; 32], 70, LEDGER).is_err());
    assert!(verifier.verify_read_latest(&appended.append, 70, LEDGER).is_err());
    assert!(verifier.verify_read_latest(&appended.entry, 70, LEDGER).is_err());
    assert!(verifier.verify_entry(&appended.append, 1, LEDGER).is_err());
    assert!(verifier.verify_entry(&read.read, 1, LEDGER).is_err());
}

#[test]
fn fresh_nonces_show_what_is_new() {
    let (mut active, config) = cohort(3);
    let verifier = Verifier::new(config);
    let stale_read = must_read_latest_from(&active, &[0, 1], LEDGER, 1);
    let appended = must_append_to(&mut active, &[0, 1], LEDGER, [7; 32], 1, 2);
    let block = verifier.verify_append(&appended.append, &[7; 32], 2, LEDGER).unwrap();

    // Neither the old read nor the old append passes for a fresh nonce.
    assert!(verifier.verify_read_latest(&stale_read.read, 3, LEDGER).is_err());
    assert!(verifier.verify_append(&appended.append, &[7; 32], 4, LEDGER).is_err());

    // Every majority that can answer a fresh read has seen the append.
    let lagging = must_read_latest_from(&active, &[2, 1], LEDGER, 3);
    assert!(verifier.verify_read_latest(&lagging.read, 3, LEDGER).is_err());
    let read = must_read_latest_from(&active, &[1, 0], LEDGER, 3);
    assert_eq!(verifier.verify_read_latest(&read.read, 3, LEDGER), Ok(block));

    // The same entry, appended for a fresh nonce, takes a new place.
    let again = must_append_to(&mut active, &[0, 1], LEDGER, [7; 32], 2, 4);
    let next = verifier.verify_append(&again.append, &[7; 32], 4, LEDGER).unwrap();
    assert_eq!((next.entry, next.index), (block.entry, 2));
}

#[test]
fn a_verifier_of_a_later_cohort_takes_the_instance_id() {
    let (active, config) = cohort(3);
    let instance_id = config.config_id();
    let succession = match hand_over_to_fresh_cohort(active, instance_id, 2) {
        Ok(succession) => succession,
        Err(_) => panic!("an honest cohort hands over"),
    };
    let successor_config = succession.successor[0].cohort_config().clone();
    let verifier = Verifier::new_with_instance_id(successor_config.clone(), instance_id);
    assert_eq!(*verifier.instance_id(), instance_id);
    assert_eq!(verifier.trusted_config().keys(), successor_config.keys());
    let read = must_read_latest_from(&succession.successor, &[0, 1], LEDGER, 9);
    assert!(verifier.verify_read_latest(&read.read, 9, LEDGER).is_ok());
    assert!(Verifier::new(successor_config).verify_read_latest(&read.read, 9, LEDGER).is_err());
}

// ---------------------------------------------------------------------------
// Handovers
// ---------------------------------------------------------------------------

#[test]
fn clients_follow_an_honest_handover() {
    let (mut active, config) = cohort(3);
    let instance_id = config.config_id();
    must_create_ledger_on(&mut active, 5);
    must_append_to(&mut active, &all_indices(3), 5, [1; 32], 1, 1);
    let successor = new_sorted_endorsers(4);
    let successor_config = cohort_config(&successor).unwrap();
    let succession = match hand_over_to(active, instance_id, successor) {
        Ok(succession) => succession,
        Err(_) => panic!("an honest cohort hands over"),
    };
    let mut verifier = Verifier::new(config);
    assert_eq!(verifier.apply_handover(succession.handover), Ok(()));
    assert_eq!(verifier.trusted_config().keys(), successor_config.keys());
    assert_eq!(*verifier.instance_id(), instance_id);
    let read = must_read_latest_from(&succession.successor, &all_indices(4), 5, 2);
    let block = verifier.verify_read_latest(&read.read, 2, 5).unwrap();
    assert_eq!(block, LedgerBlock::initial().next([1; 32]));
}

#[test]
fn an_honest_cohort_always_hands_over_to_one() {
    for _ in 0..10 {
        let (active, config) = cohort(2);
        let succession = match hand_over_to_fresh_cohort(active, config.config_id(), 1) {
            Ok(succession) => succession,
            Err(_) => panic!("one key does not repeat"),
        };
        let mut verifier = Verifier::new(config);
        assert_eq!(verifier.apply_handover(succession.handover), Ok(()));
        assert_eq!(
            verifier.trusted_config().keys(),
            [*succession.successor[0].verifying_key()]
        );
    }
}

#[test]
fn a_cohort_in_disagreement_hands_its_successor_back() {
    let (mut active, config) = cohort(2);
    active[1].create_ledger(3).unwrap();
    match hand_over_to_fresh_cohort(active, config.config_id(), 2) {
        Err(SuccessionError::Activation(ActivationError::NoQuorum { .. })) => {}
        _ => panic!("the endorsers finalized different ledgers"),
    }
}

#[test]
fn a_cohort_hands_over_once() {
    let (active, config) = cohort(3);
    let instance_id = config.config_id();
    let p = cohort_config(&new_sorted_endorsers(1)).unwrap();
    let q_endorsers = new_sorted_endorsers(1);
    let q = cohort_config(&q_endorsers).unwrap();
    let finalized: Vec<_> = active
        .into_iter()
        .enumerate()
        .map(|(i, e)| e.finalize(if i < 2 { &p } else { &q }))
        .collect();
    let entries: Vec<_> = finalized
        .iter()
        .map(|e| EndorserData {
            endorser_key: *e.verifying_key(),
            maybe_receipt: Some(*e.finalization_receipt()),
        })
        .collect();
    let takeover = must_takeover_from(instance_id, &entries, finalized[0].ledgers());
    assert!(takeover.verify(&p));
    assert!(!takeover.verify(&q));
    match activate_all_with_takeover(q_endorsers, &q, &takeover) {
        Err(ActivationError::NoQuorum { .. }) => {}
        _ => panic!("a minority finalized in favour of this cohort"),
    }
}

#[test]
fn each_failure_of_a_handover_is_told() {
    let (active, config) = cohort(3);
    let instance_id = config.config_id();
    let successor = new_sorted_endorsers(3);
    let successor_config = cohort_config(&successor).unwrap();
    let finalization = finalize_all_toward(active, &successor_config);
    let takeover = must_takeover_from(instance_id, &finalization.entries, &finalization.ledgers);
    let successor = match activate_all_with_takeover(successor, &successor_config, &takeover) {
        Ok(successor) => successor,
        Err(_) => panic!("the whole cohort finalized"),
    };
    let hash = finalization.ledgers.hash();
    let handover = || must_handover_from(&finalization.entries, &successor, hash);
    assert!(handover().verify(&instance_id).is_ok());

    let missed = |valid: usize| QuorumError { valid, required: 2 };
    match handover().verify(&[0; 32]) {
        Err(HandoverError::FinalizationQuorumNotMet(error)) => assert_eq!(error, missed(0)),
        _ => panic!("the receipts are for another instance"),
    }
    let mut entries = finalization.entries.clone();
    entries[0].maybe_receipt = None;
    assert!(must_handover_from(&entries, &successor, hash).verify(&instance_id).is_ok());
    entries[1].maybe_receipt = None;
    match must_handover_from(&entries, &successor, hash).verify(&instance_id) {
        Err(HandoverError::FinalizationQuorumNotMet(error)) => assert_eq!(error, missed(1)),
        _ => panic!("a minority finalized"),
    }
    let activations = successor
        .iter()
        .map(|e| EndorserData { endorser_key: *e.verifying_key(), maybe_receipt: None })
        .collect();
    let handover = CohortHandover::try_new(finalization.entries.clone(), activations, hash);
    match handover.unwrap().verify(&instance_id) {
        Err(HandoverError::ActivationQuorumNotMet(error)) => assert_eq!(error, missed(0)),
        _ => panic!("nobody activated"),
    }
    let mut stranger = Verifier::new(successor_config);
    let handover = must_handover_from(&finalization.entries, &successor, hash);
    assert_eq!(
        stranger.apply_handover(handover),
        Err(HandoverError::FinalizationConfigMismatch)
    );
    assert!(takeover_from(instance_id, &[], &finalization.ledgers).is_err());
    assert!(handover_from(&[], &successor, hash).is_err());
}

// ---------------------------------------------------------------------------
// Whole cohorts
// ---------------------------------------------------------------------------

#[test]
fn an_operation_on_a_cohort_stops_at_the_first_failure() {
    let (mut active, config) = cohort(3);
    active[1].create_ledger(7).unwrap();
    assert_eq!(
        create_ledger_on(&mut active, 7),
        Err(CreateLedgerError::AlreadyExists { ledger_id: 7 })
    );
    let counts: Vec<usize> = active.iter().map(|e| e.ledger_count()).collect();
    assert_eq!(counts, [2, 2, 1]);

    assert!(matches!(
        append_to(&mut active, &[0, 2, 1], 7, [1; 32], 1, 1),
        Err(AppendEntryError::LedgerNotFound(LedgerNotFoundError { ledger_id: 7 }))
    ));
    assert_eq!(active[0].read_latest(7, 1).unwrap().block.index, 1);
    assert_eq!(active[1].read_latest(7, 1).unwrap().block.index, 0);
    assert!(matches!(
        read_latest_from(&active, &[0, 2], 7, 1),
        Err(LedgerNotFoundError { ledger_id: 7 })
    ));
    let read = read_latest_from(&active, &[1, 0], 7, 1).unwrap();
    assert_eq!((read.read[0].key_index, read.read[1].key_index), (1, 0));

    let strangers = new_sorted_endorsers(2);
    match activate_all(strangers, &config) {
        Err(ActivationError::KeyNotInConfig { .. }) => {}
        _ => panic!("the keys are not in the config"),
    }
    match hand_over_to_fresh_cohort(active, config.config_id(), 0) {
        Err(SuccessionError::InvalidConfig(_)) => {}
        _ => panic!("a cohort is not empty"),
    }
    assert_eq!(all_indices(0), Vec::<usize>::new());
    assert_eq!(all_indices(3), [0, 1, 2]);
}

// ---------------------------------------------------------------------------
// The challenge
// ---------------------------------------------------------------------------

#[test]
fn views_of_one_cohort_do_not_contradict() {
    let (mut active, config) = cohort(3);
    let all = all_indices(3);
    let appended = must_append_to(&mut active, &all, LEDGER, [1; 32], 1, 5);
    let earlier = must_read_latest_from(&active, &[0, 1], LEDGER, 6);
    must_append_to(&mut active, &all, LEDGER, [2; 32], 2, 7);
    let later = must_read_latest_from(&active, &[1, 2], LEDGER, 8);

    let outcome = judge(
        &config,
        view(appended.append, Verification::Append { entry: [1; 32], nonce: 5 }),
        view(earlier.read, Verification::ReadLatest { nonce: 6 }),
    );
    assert!(matches!(outcome, Outcome::ViewsAgree), "{outcome:?}");
    assert!(!outcome.is_split_view());
    let outcome = judge(
        &config,
        view(earlier.entry, Verification::Entry { requested_index: 1 }),
        view(later.read, Verification::ReadLatest { nonce: 8 }),
    );
    assert!(
        matches!(outcome, Outcome::NotAFork { reason: NotAForkReason::DifferentIndex }),
        "{outcome:?}"
    );
}

#[test]
fn handovers_keep_the_ledger() {
    let (mut active, config) = cohort(3);
    let genesis = config.clone();
    let instance_id = config.config_id();
    must_append_to(&mut active, &all_indices(3), LEDGER, [1; 32], 1, 5);
    let before = must_read_latest_from(&active, &all_indices(3), LEDGER, 6);
    let mut handovers = Vec::new();
    for size in [2, 4, 1] {
        let succession = match hand_over_to_fresh_cohort(active, instance_id, size) {
            Ok(succession) => succession,
            Err(_) => panic!("an honest cohort hands over"),
        };
        handovers.push(succession.handover);
        active = succession.successor;
    }
    let after = must_read_latest_from(&active, &[0], LEDGER, 7);
    let outcome = judge(
        &genesis,
        view(before.read, Verification::ReadLatest { nonce: 6 }),
        LedgerView {
            handovers,
            receipts: after.read,
            ledger_id: LEDGER,
            verification: Verification::ReadLatest { nonce: 7 },
        },
    );
    assert!(matches!(outcome, Outcome::ViewsAgree), "{outcome:?}");
}

#[test]
fn a_rejected_handover_is_reported_with_its_position() {
    let (active, config) = cohort(1);
    let genesis = config.clone();
    let instance_id = config.config_id();
    let first = match hand_over_to_fresh_cohort(active, instance_id, 1) {
        Ok(succession) => succession,
        Err(_) => panic!("an honest cohort hands over"),
    };
    let (stranger, _) = cohort(1);
    let second = match hand_over_to_fresh_cohort(stranger, instance_id, 1) {
        Err(SuccessionError::Activation(ActivationError::NoQuorum { .. })) => {
            let (stranger, stranger_config) = cohort(1);
            match hand_over_to_fresh_cohort(stranger, stranger_config.config_id(), 1) {
                Ok(succession) => succession,
                Err(_) => panic!("an honest cohort hands over"),
            }
        }
        _ => panic!("the cohort is of another instance"),
    };
    let submitted = LedgerView {
        handovers: vec![first.handover, second.handover],
        receipts: LedgerReceipts::new(vec![]),
        ledger_id: LEDGER,
        verification: Verification::ReadLatest { nonce: 1 },
    };
    match resolve_block(&genesis, submitted, WhichView::B) {
        Err(Outcome::HandoverRejected {
            which: WhichView::B,
            position: 1,
            error: HandoverError::FinalizationConfigMismatch,
        }) => {}
        other => panic!("expected the second handover to be rejected, got {other:?}"),
    }
}

struct Empty;

impl Falsifier for Empty {
    fn cohort_size(&self) -> usize {
        0
    }
    fn attempt(self, _: Vec<Endorser<Uninitialized>>) -> (LedgerView, LedgerView) {
        panic!("there is no cohort to attack")
    }
}

#[test]
fn an_empty_cohort_is_no_challenge() {
    assert!(run(Empty).is_err());
}

/// Reads twice from a cohort of one.
struct ReadsTwice;

impl Falsifier for ReadsTwice {
    fn cohort_size(&self) -> usize {
        1
    }
    fn attempt(self, endorsers: Vec<Endorser<Uninitialized>>) -> (LedgerView, LedgerView) {
        let config = cohort_config(&endorsers).unwrap();
        let active = must_activate_all(endorsers, &config);
        let first = must_read_latest_from(&active, &[0], LEDGER, 1);
        let second = must_read_latest_from(&active, &[0], LEDGER, 2);
        (
            view(first.read, Verification::ReadLatest { nonce: 1 }),
            view(second.read, Verification::ReadLatest { nonce: 2 }),
        )
    }
}

#[test]
fn an_attempt_on_a_cohort_of_one_is_judged() {
    for _ in 0..10 {
        assert!(matches!(run(ReadsTwice), Ok(Outcome::ViewsAgree)));
    }
}

#[test]
fn an_attempt_needs_endorsers_that_make_up_a_cohort() {
    assert!(matches!(run_against(ReadsTwice, new_sorted_endorsers(1)), Ok(Outcome::ViewsAgree)));
    // Of two endorsers one read is no majority.
    assert!(matches!(
        run_against(ReadsTwice, new_sorted_endorsers(2)),
        Ok(Outcome::ViewRejected {
            which: WhichView::A,
            error: VerifyError::QuorumNotMet(QuorumError { valid: 1, required: 2 }),
        })
    ));
    assert!(run_against(Empty, Vec::new()).is_err());
    let mut unsorted = new_sorted_endorsers(2);
    unsorted.reverse();
    assert!(run_against(Empty, unsorted).is_err());
}
