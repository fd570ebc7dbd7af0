//! The split-view challenge harness.

use logcabin::challenge::{
    cohort_config, evaluate_split, new_sorted_endorsers, run, Falsifier, LedgerView,
    NotAForkReason, Outcome, Verification, WhichView,
};
use logcabin::cohort::{ConfigId, EndorserData, EndorserFinalization};
use logcabin::endorser::{Active, Endorser, Uninitialized};
use logcabin::handover::HandoverError;
use logcabin::ledger::{EntryContents, LedgerBlock};
use logcabin::ledger_receipts::{LedgerReceipt, LedgerReceipts};
use logcabin::util::{
    all_indices, hand_over_to_fresh_cohort, must_activate_all, must_activate_all_with_takeover,
    must_append_to, must_create_ledger_on, must_handover_from, must_read_latest_from,
    must_takeover_from, Succession,
};
use logcabin::verification::{Verifier, VerifyError};

const LEDGER: u32 = 0;
const FORK_LEDGER: u32 = 42;
const LEDGER_A: u32 = 7;
const LEDGER_B: u32 = 9;

/// Initial cohort size of [`DivergentHandover`].
const COHORT_SIZE: usize = 5;
/// Size of each of its successor cohorts.
const SUCCESSOR_SIZE: usize = 3;
/// Endorsers `[0, FOR_P)` finalize toward `P`, the rest toward `Q`.
const FOR_P: usize = 3;

fn must_hand_over_to_fresh_cohort(
    active: Vec<Endorser<Active>>,
    instance_id: ConfigId,
    size: usize,
) -> Succession {
    match hand_over_to_fresh_cohort(active, instance_id, size) {
        Ok(succession) => succession,
        Err(_) => panic!("handover to a fresh cohort"),
    }
}

fn block(entry: u8, index: u64, tail: u8) -> LedgerBlock {
    LedgerBlock { entry: [entry; 32], index, hash_chain_tail: [tail; 32] }
}

#[test]
fn identical_blocks_agree() {
    let outcome = evaluate_split(0, block(1, 5, 9), 0, block(1, 5, 9));
    assert!(matches!(outcome, Outcome::ViewsAgree), "{outcome:?}");
}

#[test]
fn different_ledger_is_not_a_fork() {
    let outcome = evaluate_split(0, block(1, 5, 9), 1, block(2, 5, 8));
    assert!(
        matches!(outcome, Outcome::NotAFork { reason: NotAForkReason::DifferentLedger }),
        "{outcome:?}"
    );
}

#[test]
fn different_indices_are_not_a_fork() {
    // Adjacent indices are treated no differently from distant ones.
    for other in [block(2, 6, 8), block(2, 7, 8)] {
        let outcome = evaluate_split(0, block(1, 5, 9), 0, other);
        assert!(
            matches!(outcome, Outcome::NotAFork { reason: NotAForkReason::DifferentIndex }),
            "{outcome:?}"
        );
    }
}

#[test]
fn different_entry_is_a_fork() {
    let outcome = evaluate_split(0, block(1, 5, 9), 0, block(2, 5, 9));
    assert!(outcome.is_split_view(), "{outcome:?}");
}

#[test]
fn same_entry_but_different_tail_is_a_fork() {
    let outcome = evaluate_split(0, block(1, 5, 9), 0, block(1, 5, 8));
    assert!(outcome.is_split_view(), "{outcome:?}");
}

#[test]
fn split_view_reports_the_shared_ledger_and_blocks() {
    let outcome = evaluate_split(7, block(1, 5, 9), 7, block(2, 5, 9));
    match outcome {
        Outcome::SplitViewAchieved { ledger_id, block_a, block_b } => {
            assert_eq!(ledger_id, 7);
            assert_eq!(block_a.index, 5);
            assert_eq!(block_b.index, 5);
        }
        other => panic!("expected a split view, got {other:?}"),
    }
}

fn empty_views() -> (LedgerView, LedgerView) {
    let view = || LedgerView {
        handovers: Vec::new(),
        receipts: LedgerReceipts::new(vec![]),
        ledger_id: 0,
        verification: Verification::ReadLatest { nonce: 1 },
    };
    (view(), view())
}

#[test]
fn sorted_endorsers_match_their_config_positions() {
    let endorsers = new_sorted_endorsers(5);
    let config = cohort_config(&endorsers).expect("sorted endorsers form a valid config");

    assert_eq!(config.len(), 5);
    for (i, endorser) in endorsers.iter().enumerate() {
        assert_eq!(
            config.endorsers()[i].endorser_key,
            *endorser.verifying_key(),
            "endorser {i} must sit at key_index {i}"
        );
    }
}

#[test]
fn the_first_failing_view_is_the_one_reported() {
    struct Empty;
    impl Falsifier for Empty {
        fn attempt(self, _: Vec<Endorser<Uninitialized>>) -> (LedgerView, LedgerView) {
            empty_views()
        }
    }

    let outcome = run(Empty).unwrap();
    assert!(
        matches!(
            outcome,
            Outcome::ViewRejected {
                which: WhichView::A,
                ..
            }
        ),
        "{outcome:?}"
    );
}

#[test]
fn the_default_cohort_size_is_three() {
    struct Default_;
    impl Falsifier for Default_ {
        fn attempt(self, endorsers: Vec<Endorser<Uninitialized>>) -> (LedgerView, LedgerView) {
            assert_eq!(endorsers.len(), 3);
            empty_views()
        }
    }

    let _ = run(Default_);
}

#[test]
fn a_falsifier_can_override_the_cohort_size() {
    struct Sized(usize);
    impl Falsifier for Sized {
        fn cohort_size(&self) -> usize {
            self.0
        }
        fn attempt(self, endorsers: Vec<Endorser<Uninitialized>>) -> (LedgerView, LedgerView) {
            assert_eq!(endorsers.len(), self.0);
            empty_views()
        }
    }

    for n in [1, 2, 7] {
        let _ = run(Sized(n));
    }
}


/// Activates a single-endorser instance, appends `entry` at index 1, and returns the verified block.
fn committed_block(entry: EntryContents, nonce: u64) -> LedgerBlock {
    let endorsers = new_sorted_endorsers(1);
    let config = cohort_config(&endorsers).expect("a one-key config is well formed");
    let verifier = Verifier::new(config.clone());

    let mut endorser: Endorser<Active> = endorsers
        .into_iter()
        .next()
        .expect("exactly one endorser")
        .activate(config, None)
        .unwrap_or_else(|_| panic!("activation must succeed"));

    endorser
        .append_entry(LEDGER, entry, 1, 0x1111)
        .expect("appending to the fresh default ledger must succeed");

    let read = endorser
        .read_latest(LEDGER, nonce)
        .expect("the default ledger exists");

    let receipts = LedgerReceipts::new(vec![LedgerReceipt {
        key_index: 0,
        block: read.block,
        signature: read.read_receipt,
    }]);

    verifier
        .verify_read_latest(&receipts, nonce, LEDGER)
        .expect("a sole endorser is its own quorum")
}

#[test]
fn a_genuine_fork_is_reported_as_a_split_view() {
    let block_a = committed_block([0x01; 32], 0x2222);
    let block_b = committed_block([0x02; 32], 0x3333);

    assert_eq!(block_a.index, block_b.index, "both must sit at index 1");
    assert_ne!(block_a.entry, block_b.entry, "the entries must differ");

    let outcome = evaluate_split(LEDGER, block_a, LEDGER, block_b);
    assert!(
        outcome.is_split_view(),
        "a real fork must be reported as a win, got {outcome:?}"
    );
}

#[test]
fn independent_instances_that_agree_are_not_a_split_view() {
    let block_a = committed_block([0x01; 32], 0x2222);
    let block_b = committed_block([0x01; 32], 0x3333);

    let outcome = evaluate_split(LEDGER, block_a, LEDGER, block_b);
    assert!(matches!(outcome, Outcome::ViewsAgree), "{outcome:?}");
}

/// End-to-end baseline: appends one entry across the cohort, then reads it back
/// two ways - a nonce-bound `read_latest` and a nonce-free `entry` lookup -
/// yielding `Outcome::ViewsAgree`.
struct Honest;

impl Falsifier for Honest {
    fn attempt(self, endorsers: Vec<Endorser<Uninitialized>>) -> (LedgerView, LedgerView) {
        let config = cohort_config(&endorsers).expect("the handed-in cohort is well formed");
        let n = endorsers.len();
        let all = all_indices(n);
        let mut active = must_activate_all(endorsers, &config);

        must_append_to(&mut active, &all, LEDGER, [0xAA; 32], 1, 0x1111);

        let first = must_read_latest_from(&active, &all, LEDGER, 0x2222);
        let second = must_read_latest_from(&active, &all, LEDGER, 0x3333);

        (
            LedgerView {
                handovers: Vec::new(),
                receipts: first.read,
                ledger_id: LEDGER,
                verification: Verification::ReadLatest { nonce: 0x2222 },
            },
            LedgerView {
                handovers: Vec::new(),
                receipts: second.entry,
                ledger_id: LEDGER,
                verification: Verification::Entry { requested_index: 1 },
            },
        )
    }
}

#[test]
fn honest_views_agree() {
    let outcome = run(Honest).unwrap();
    assert!(matches!(outcome, Outcome::ViewsAgree), "{outcome:?}");
}

/// Minimal example returning empty receipts; rejected with `VerifyError::NoReceipts`.
struct Noop;

impl Falsifier for Noop {
    fn attempt(self, _endorsers: Vec<Endorser<Uninitialized>>) -> (LedgerView, LedgerView) {
        let empty = || LedgerView {
            handovers: Vec::new(),
            receipts: LedgerReceipts::new(vec![]),
            ledger_id: 0,
            verification: Verification::ReadLatest { nonce: 1 },
        };
        (empty(), empty())
    }
}

#[test]
fn empty_views_are_rejected() {
    let outcome = run(Noop).unwrap();
    assert!(
        matches!(
            outcome,
            Outcome::ViewRejected {
                which: WhichView::A,
                error: VerifyError::NoReceipts,
            }
        ),
        "{outcome:?}"
    );
}

/// Appends different entries to two distinct ledgers at index 1.
///
/// Fails with `NotAForkReason::DifferentLedger`:
/// ledgers are independent, and receipt signatures commit to `ledger_id`.
struct CrossLedger;

impl Falsifier for CrossLedger {
    fn attempt(self, endorsers: Vec<Endorser<Uninitialized>>) -> (LedgerView, LedgerView) {
        let config = cohort_config(&endorsers).expect("the handed-in cohort is well formed");
        let all = all_indices(endorsers.len());
        let mut active = must_activate_all(endorsers, &config);

        must_create_ledger_on(&mut active, LEDGER_A);
        must_create_ledger_on(&mut active, LEDGER_B);

        must_append_to(&mut active, &all, LEDGER_A, [0xAA; 32], 1, 0x1111);
        must_append_to(&mut active, &all, LEDGER_B, [0xBB; 32], 1, 0x2222);

        let nonce_a = 0xCCCC;
        let from_a = must_read_latest_from(&active, &all, LEDGER_A, nonce_a);
        let nonce_b = 0xDDDD;
        let from_b = must_read_latest_from(&active, &all, LEDGER_B, nonce_b);

        (
            LedgerView {
                handovers: Vec::new(),
                receipts: from_a.read,
                ledger_id: LEDGER_A,
                verification: Verification::ReadLatest { nonce: nonce_a },
            },
            LedgerView {
                handovers: Vec::new(),
                receipts: from_b.read,
                ledger_id: LEDGER_B,
                verification: Verification::ReadLatest { nonce: nonce_b },
            },
        )
    }
}

#[test]
fn different_ledgers_are_not_a_fork() {
    let outcome = run(CrossLedger).unwrap();
    assert!(
        matches!(
            outcome,
            Outcome::NotAFork {
                reason: NotAForkReason::DifferentLedger
            }
        ),
        "{outcome:?}"
    );
}

/// Compares a view from the initial cohort with a view from its successor cohort
/// after handover.
///
/// Yields `Outcome::ViewsAgree`:
/// `Verifier::apply_handover`
/// requires a finalization quorum over the inherited ledger state hash, so the
/// successor cohort preserves committed state.
struct CrossCohortFork;

impl Falsifier for CrossCohortFork {
    fn attempt(self, endorsers: Vec<Endorser<Uninitialized>>) -> (LedgerView, LedgerView) {
        let config = cohort_config(&endorsers).expect("the handed-in cohort is well formed");
        let instance_id = config.config_id();
        let n = endorsers.len();
        let all = all_indices(n);
        let mut active = must_activate_all(endorsers, &config);

        must_create_ledger_on(&mut active, FORK_LEDGER);
        must_append_to(&mut active, &all, FORK_LEDGER, [0xAA; 32], 1, 0x1111);

        let nonce_a = 0x5555;
        let from_genesis = must_read_latest_from(&active, &all, FORK_LEDGER, nonce_a);

        let succession = must_hand_over_to_fresh_cohort(active, instance_id, n);

        let nonce_b = 0x6666;
        let from_successor = must_read_latest_from(&succession.successor, &all, FORK_LEDGER, nonce_b);

        (
            LedgerView {
                handovers: Vec::new(),
                receipts: from_genesis.read,
                ledger_id: FORK_LEDGER,
                verification: Verification::ReadLatest { nonce: nonce_a },
            },
            LedgerView {
                handovers: vec![succession.handover],
                receipts: from_successor.read,
                ledger_id: FORK_LEDGER,
                verification: Verification::ReadLatest { nonce: nonce_b },
            },
        )
    }
}

#[test]
fn a_successor_cohort_inherits_committed_state() {
    let outcome = run(CrossCohortFork).unwrap();
    assert!(matches!(outcome, Outcome::ViewsAgree), "{outcome:?}");
}

/// Appends `0xAA` to endorsers `[0, 1]` and `0xBB` to endorser `[2]` at index 1.
///
/// Fails with `VerifyError::QuorumNotMet`:
/// any two strict majorities of a cohort intersect, and each endorser signs at
/// most one entry per `(ledger_id, index)`.
struct NaiveFork;

impl Falsifier for NaiveFork {
    fn attempt(self, endorsers: Vec<Endorser<Uninitialized>>) -> (LedgerView, LedgerView) {
        let config = cohort_config(&endorsers).expect("the handed-in cohort is well formed");
        let mut active = must_activate_all(endorsers, &config);

        let nonce = 0x4444;
        let majority = must_append_to(&mut active, &[0, 1], LEDGER, [0xAA; 32], 1, nonce);
        let minority = must_append_to(&mut active, &[2], LEDGER, [0xBB; 32], 1, nonce);

        (
            LedgerView {
                handovers: Vec::new(),
                receipts: majority.append,
                ledger_id: LEDGER,
                verification: Verification::Append {
                    entry: [0xAA; 32],
                    nonce,
                },
            },
            LedgerView {
                handovers: Vec::new(),
                receipts: minority.append,
                ledger_id: LEDGER,
                verification: Verification::Append {
                    entry: [0xBB; 32],
                    nonce,
                },
            },
        )
    }
}

#[test]
fn the_minority_faction_cannot_reach_a_quorum() {
    let outcome = run(NaiveFork).unwrap();
    match outcome {
        Outcome::ViewRejected {
            which: WhichView::B,
            error: VerifyError::QuorumNotMet(quorum),
        } => {
            assert_eq!(quorum.valid, 1);
            assert_eq!(quorum.required, 2);
        }
        other => panic!("expected view B to miss quorum, got {other:?}"),
    }
}

/// Hands over to a challenger-created cohort and appends a new entry.
///
/// Fails with `NotAForkReason::DifferentIndex`:
/// the verifier performs no attestation check, so the handover is accepted, but
/// finalization pins the inherited ledger state at index 1, and the new block
/// lands at index 2 rather than competing at index 1.
struct RogueCohort;

impl Falsifier for RogueCohort {
    fn attempt(self, endorsers: Vec<Endorser<Uninitialized>>) -> (LedgerView, LedgerView) {
        let config = cohort_config(&endorsers).expect("the handed-in cohort is well formed");
        let instance_id = config.config_id();
        let n = endorsers.len();
        let all = all_indices(n);
        let mut active = must_activate_all(endorsers, &config);

        must_append_to(&mut active, &all, LEDGER, [0xAA; 32], 1, 0x1111);

        let nonce_a = 0x7777;
        let honest = must_read_latest_from(&active, &all, LEDGER, nonce_a);

        let mut succession = must_hand_over_to_fresh_cohort(active, instance_id, n);

        must_append_to(
            &mut succession.successor,
            &all,
            LEDGER,
            [0xBB; 32],
            2,
            0x8888,
        );

        let nonce_b = 0x9999;
        let rogue = must_read_latest_from(&succession.successor, &all, LEDGER, nonce_b);

        (
            LedgerView {
                handovers: Vec::new(),
                receipts: honest.read,
                ledger_id: LEDGER,
                verification: Verification::ReadLatest { nonce: nonce_a },
            },
            LedgerView {
                handovers: vec![succession.handover],
                receipts: rogue.read,
                ledger_id: LEDGER,
                verification: Verification::ReadLatest { nonce: nonce_b },
            },
        )
    }
}

#[test]
fn a_rogue_cohort_can_only_extend_the_chain() {
    let outcome = run(RogueCohort).unwrap();
    assert!(
        matches!(
            outcome,
            Outcome::NotAFork {
                reason: NotAForkReason::DifferentIndex
            }
        ),
        "{outcome:?}"
    );
}

/// Attempts to fork the cohort lineage by finalizing a majority of a 5-endorser
/// cohort toward successor `P` and the remaining minority toward successor `Q`.
///
/// Also shows a non-default `Falsifier::cohort_size`: the initial cohort is 5
/// (a 3-of-5 quorum) while both successor cohorts are 3.
///
/// Fails with `HandoverError::FinalizationQuorumNotMet`:
/// `Endorser::finalize` consumes
/// `self`, so each endorser signs at most one finalization receipt and at most
/// one successor can gather a strict majority.
struct DivergentHandover;

impl Falsifier for DivergentHandover {
    fn cohort_size(&self) -> usize {
        COHORT_SIZE
    }

    fn attempt(self, endorsers: Vec<Endorser<Uninitialized>>) -> (LedgerView, LedgerView) {
        let config = cohort_config(&endorsers).expect("the handed-in cohort is well formed");
        let instance_id = config.config_id();
        let successor_all = all_indices(SUCCESSOR_SIZE);
        let mut active = must_activate_all(endorsers, &config);

        must_append_to(
            &mut active,
            &all_indices(COHORT_SIZE),
            LEDGER,
            [0xAA; 32],
            1,
            0x1111,
        );

        let p_endorsers = new_sorted_endorsers(SUCCESSOR_SIZE);
        let p_config = cohort_config(&p_endorsers).expect("freshly sorted endorsers are valid");
        let q_endorsers = new_sorted_endorsers(SUCCESSOR_SIZE);
        let q_config = cohort_config(&q_endorsers).expect("freshly sorted endorsers are valid");

        // Finalize the first FOR_P endorsers toward P and the remainder toward Q.
        let finalized: Vec<_> = active
            .into_iter()
            .enumerate()
            .map(|(i, e): (usize, Endorser<Active>)| {
                e.finalize(if i < FOR_P { &p_config } else { &q_config })
            })
            .collect();

        // Each successor only sees the receipts of the endorsers that chose it.
        let entries = |toward_p: bool| -> Vec<EndorserFinalization> {
            finalized
                .iter()
                .enumerate()
                .map(|(i, e)| EndorserData {
                    endorser_key: *e.verifying_key(),
                    maybe_receipt: if (i < FOR_P) == toward_p {
                        Some(*e.finalization_receipt())
                    } else {
                        None
                    },
                })
                .collect()
        };
        let p_entries = entries(true);
        let q_entries = entries(false);

        let ledgers = finalized[0].ledgers().clone();
        let ledgers_hash = ledgers.hash();

        let p_takeover = must_takeover_from(instance_id, &p_entries, &ledgers);
        let p_active = must_activate_all_with_takeover(p_endorsers, &p_config, &p_takeover);
        let p_handover = must_handover_from(&p_entries, &p_active, ledgers_hash);

        // Q lacks a finalization quorum so takeover activation fails; activate fresh instead.
        let q_takeover = must_takeover_from(instance_id, &q_entries, &ledgers);
        let q_active: Vec<Endorser<Active>> = q_endorsers
            .into_iter()
            .map(|e| {
                let e = match e.activate(q_config.clone(), Some(q_takeover.clone())) {
                    Ok(_) => panic!("a minority takeover must never activate an endorser"),
                    Err(error) => error.reclaim_endorser(),
                };
                e.activate(q_config.clone(), None)
                    .unwrap_or_else(|_| panic!("starting a fresh instance must succeed"))
            })
            .collect();
        let q_handover = must_handover_from(&q_entries, &q_active, ledgers_hash);

        let nonce_a = 0xAAAA;
        let from_p = must_read_latest_from(&p_active, &successor_all, LEDGER, nonce_a);
        let nonce_b = 0xBBBB;
        let from_q = must_read_latest_from(&q_active, &successor_all, LEDGER, nonce_b);

        (
            LedgerView {
                handovers: vec![p_handover],
                receipts: from_p.read,
                ledger_id: LEDGER,
                verification: Verification::ReadLatest { nonce: nonce_a },
            },
            LedgerView {
                handovers: vec![q_handover],
                receipts: from_q.read,
                ledger_id: LEDGER,
                verification: Verification::ReadLatest { nonce: nonce_b },
            },
        )
    }
}

#[test]
fn only_one_successor_can_gather_a_finalization_quorum() {
    let outcome = run(DivergentHandover).unwrap();
    match outcome {
        Outcome::HandoverRejected {
            which: WhichView::B,
            position: 0,
            error: HandoverError::FinalizationQuorumNotMet(quorum),
        } => {
            assert_eq!(quorum.valid, COHORT_SIZE - FOR_P);
            assert_eq!(quorum.required, FOR_P);
        }
        other => panic!("expected view B's handover to be rejected, got {other:?}"),
    }
}
