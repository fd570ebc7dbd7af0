//! Why a client is never shown two contradicting views of a ledger.
//!
//! Any two strict majorities of a cohort have an endorser in common. That
//! endorser commits to one block per index, finalizes once and is activated
//! once, so what the two majorities signed cannot contradict. The argument
//! goes along chains of handovers, since the ledgers that one cohort finalized
//! are those that the next one started with.
//!
//! The laws take for granted that the signatures that are presented were made
//! by the endorsers that hold the keys, each of which keeps to its
//! [`History`], and that no two of the byte strings that are hashed have the
//! same digest.

use vstd::prelude::*;

use crate::challenge;
use crate::challenge::{SubmittedView, Verification, WhichView};
use crate::cohort;
use crate::crypto;
use crate::handover::{HandoverError, HandoverView};
use crate::history;
use crate::history::History;
use crate::ledger;
use crate::ledger::LedgerBlock;
use crate::ledger_receipts::LedgerReceipt;
use crate::quorum;
use crate::quorum::ReceiptEntry;
use crate::receipts::Receipt;
use crate::verification;
use crate::verification::VerifierView;

verus! {

// ---------------------------------------------------------------------------
// Majorities meet
// ---------------------------------------------------------------------------

/// Two strict majorities of `n` have a member in common.
pub proof fn law_majorities_meet(a: Set<int>, b: Set<int>, n: nat) -> (member: int)
    requires
        a.finite(),
        b.finite(),
        a.subset_of(vstd::set_lib::set_int_range(0, n as int)),
        b.subset_of(vstd::set_lib::set_int_range(0, n as int)),
        quorum::strict_majority(a.len(), n),
        quorum::strict_majority(b.len(), n),
    ensures
        a.contains(member),
        b.contains(member),
        0 <= member < n,
{
    let all = vstd::set_lib::set_int_range(0, n as int);
    vstd::set_lib::lemma_int_range(0, n as int);
    vstd::set_lib::lemma_set_intersect_union_lens(a, b);
    assert(a.union(b).subset_of(all));
    vstd::set_lib::lemma_len_subset(a.union(b), all);
    let both = a.intersect(b);
    if forall|x: int| !both.contains(x) {
        assert(both =~= Set::empty());
    }
    let member = choose|x: int| both.contains(x);
    assert(all.contains(member));
    member
}

/// The positions of the entries that hold a receipt for `message`.
pub open spec fn entry_signers(entries: Seq<ReceiptEntry>, message: Seq<u8>) -> Set<int> {
    Set::new(|i: int| 0 <= i < entries.len() && quorum::holds_receipt(entries[i], message))
}

proof fn lemma_entry_signers(entries: Seq<ReceiptEntry>, message: Seq<u8>)
    ensures
        entry_signers(entries, message).finite(),
        entry_signers(entries, message).len() == quorum::receipt_count(entries, message),
        entry_signers(entries, message).subset_of(
            vstd::set_lib::set_int_range(0, entries.len() as int),
        ),
    decreases entries.len(),
{
    let signers = entry_signers(entries, message);
    if entries.len() == 0 {
        assert(signers =~= Set::empty());
    } else {
        let earlier = entries.drop_last();
        let before = entry_signers(earlier, message);
        let last = entries.len() - 1;
        lemma_entry_signers(earlier, message);
        assert forall|i: int| 0 <= i < last implies earlier[i] == #[trigger] entries[i] by {}
        if quorum::holds_receipt(entries.last(), message) {
            assert(signers =~= before.insert(last));
            assert(!before.contains(last));
        } else {
            assert(signers =~= before);
        }
    }
}

/// Whether some receipt vouches under the key with an index.
pub open spec fn vouched_by(
    keys: Seq<Seq<u8>>,
    receipts: Seq<LedgerReceipt>,
    block: LedgerBlock,
    message: Seq<u8>,
    key_index: int,
) -> bool {
    exists|i: int|
        0 <= i < receipts.len() && (#[trigger] receipts[i]).key_index == key_index
            && verification::vouches(keys, receipts[i], block, message)
}

/// The indices of the keys under which the receipts vouch.
pub open spec fn receipt_signers(
    keys: Seq<Seq<u8>>,
    receipts: Seq<LedgerReceipt>,
    block: LedgerBlock,
    message: Seq<u8>,
) -> Set<int> {
    Set::new(|k: int| vouched_by(keys, receipts, block, message, k))
}

proof fn lemma_receipt_signers(
    keys: Seq<Seq<u8>>,
    receipts: Seq<LedgerReceipt>,
    block: LedgerBlock,
    message: Seq<u8>,
)
    requires
        verification::index_fault(receipts, keys.len()) is None,
    ensures
        ({
            let signers = receipt_signers(keys, receipts, block, message);
            &&& signers.finite()
            &&& signers.len() == verification::vouching_count(keys, receipts, block, message)
            &&& signers.subset_of(vstd::set_lib::set_int_range(0, keys.len() as int))
        }),
    decreases receipts.len(),
{
    let signers = receipt_signers(keys, receipts, block, message);
    if receipts.len() == 0 {
        assert(signers =~= Set::empty());
    } else {
        let earlier = receipts.drop_last();
        let before = receipt_signers(keys, earlier, block, message);
        let last = receipts.last().key_index as int;
        lemma_receipt_signers(keys, earlier, block, message);
        assert forall|k: int| #[trigger] vouched_by(keys, earlier, block, message, k) implies
            vouched_by(keys, receipts, block, message, k) && k != last by {
            let i = choose|i: int|
                0 <= i < earlier.len() && (#[trigger] earlier[i]).key_index == k
                    && verification::vouches(keys, earlier[i], block, message);
            assert(receipts[i] == earlier[i]);
            if k == last {
                assert(verification::uses_key(earlier, last));
            }
        }
        assert forall|k: int| #[trigger] vouched_by(keys, receipts, block, message, k) implies
            vouched_by(keys, earlier, block, message, k) || (k == last && verification::vouches(
            keys,
            receipts.last(),
            block,
            message,
        )) by {
            let i = choose|i: int|
                0 <= i < receipts.len() && (#[trigger] receipts[i]).key_index == k
                    && verification::vouches(keys, receipts[i], block, message);
            if i < earlier.len() {
                assert(earlier[i] == receipts[i]);
            }
        }
        if verification::vouches(keys, receipts.last(), block, message) {
            assert(receipts[receipts.len() - 1].key_index == last);
            assert(vouched_by(keys, receipts, block, message, last));
            assert(signers =~= before.insert(last));
        } else {
            assert(signers =~= before);
        }
    }
}

/// A contradiction exposes its signer: if a client of one cohort accepts
/// receipts for two messages, then the receipts hold signatures of both
/// messages under one and the same trusted key.
pub proof fn law_accepted_messages_share_a_signer(
    keys: Seq<Seq<u8>>,
    receipts_a: Seq<LedgerReceipt>,
    block_a: LedgerBlock,
    message_a: Seq<u8>,
    receipts_b: Seq<LedgerReceipt>,
    block_b: LedgerBlock,
    message_b: Seq<u8>,
)
    ensures
        verification::accepted(keys, receipts_a, block_a, message_a) && verification::accepted(
            keys,
            receipts_b,
            block_b,
            message_b,
        ) ==> exists|k: int|
            0 <= k < keys.len() && #[trigger] vouched_by(
                keys,
                receipts_a,
                block_a,
                message_a,
                k,
            ) && vouched_by(keys, receipts_b, block_b, message_b, k),
{
    if verification::accepted(keys, receipts_a, block_a, message_a) && verification::accepted(
        keys,
        receipts_b,
        block_b,
        message_b,
    ) {
        let a = receipt_signers(keys, receipts_a, block_a, message_a);
        let b = receipt_signers(keys, receipts_b, block_b, message_b);
        lemma_receipt_signers(keys, receipts_a, block_a, message_a);
        lemma_receipt_signers(keys, receipts_b, block_b, message_b);
        let k = law_majorities_meet(a, b, keys.len());
        assert(vouched_by(keys, receipts_a, block_a, message_a, k));
    }
}

// ---------------------------------------------------------------------------
// What is taken for granted
// ---------------------------------------------------------------------------

/// The histories of endorsers, by their verifying keys.
pub type Histories = Map<Seq<u8>, History>;

/// Whether the endorser with a key signed a receipt.
pub open spec fn signed_by(histories: Histories, key: Seq<u8>, receipt: Receipt) -> bool {
    &&& histories.contains_key(key)
    &&& histories[key].well_formed()
    &&& histories[key].signs(receipt)
}

/// Whether a signature is not forged: if it verifies for a receipt under a key,
/// then the endorser with that key signed the receipt.
pub open spec fn genuine(
    histories: Histories,
    key: Seq<u8>,
    receipt: Receipt,
    signature: Seq<u8>,
) -> bool {
    crypto::ecdsa_verifies(key, receipt.encoding(), signature) ==> signed_by(
        histories,
        key,
        receipt,
    )
}

/// Whether the signatures in some entries are not forged.
pub open spec fn genuine_entries(
    histories: Histories,
    entries: Seq<ReceiptEntry>,
    receipt: Receipt,
) -> bool {
    forall|i: int|
        0 <= i < entries.len() ==> ((#[trigger] entries[i]).receipt matches Some(signature)
            ==> genuine(histories, entries[i].key, receipt, signature))
}

/// The receipt that finalization signs in a handover.
pub open spec fn finalize_receipt(handover: HandoverView, instance_id: Seq<u8>) -> Receipt {
    Receipt::Finalize {
        instance_id,
        cohort_config_id: cohort::config_id_of(handover.outgoing()),
        next_cohort_config_id: cohort::config_id_of(handover.incoming()),
        ledgers_hash: handover.ledgers_hash,
    }
}

/// The receipt that activation signs in a handover.
pub open spec fn activate_receipt(handover: HandoverView, instance_id: Seq<u8>) -> Receipt {
    Receipt::ActivateFromPrev {
        instance_id,
        prev_config_id: cohort::config_id_of(handover.outgoing()),
        new_config_id: cohort::config_id_of(handover.incoming()),
        ledgers_hash: handover.ledgers_hash,
    }
}

/// Whether the signatures in a handover are not forged.
pub open spec fn genuine_handover(
    histories: Histories,
    handover: HandoverView,
    instance_id: Seq<u8>,
) -> bool {
    &&& genuine_entries(
        histories,
        handover.finalization,
        finalize_receipt(handover, instance_id),
    )
    &&& genuine_entries(histories, handover.activation, activate_receipt(handover, instance_id))
}

/// The block that a view shows to a verifier that trusts some keys, if its
/// receipts are accepted.
pub open spec fn shown_block(
    keys: Seq<Seq<u8>>,
    view: SubmittedView,
    instance_id: Seq<u8>,
) -> LedgerBlock {
    view.checked_by(VerifierView { config: keys, instance_id })->Ok_0
}

/// The receipt that a signature of a view is checked against, if the view shows
/// the block.
pub open spec fn claimed_receipt(
    view: SubmittedView,
    instance_id: Seq<u8>,
    block: LedgerBlock,
) -> Receipt {
    let ledger_id = view.ledger_id;
    match view.verification {
        Verification::ReadLatest { nonce } => Receipt::Read {
            instance_id,
            ledger_id,
            block,
            nonce,
        },
        Verification::Append { nonce, .. } => Receipt::Append {
            instance_id,
            ledger_id,
            block,
            nonce,
        },
        Verification::Entry { .. } => Receipt::Entry { instance_id, ledger_id, block },
    }
}

/// The receipt that the signatures which count for a view are checked against,
/// if its receipts are accepted.
pub open spec fn checked_receipt(
    keys: Seq<Seq<u8>>,
    view: SubmittedView,
    instance_id: Seq<u8>,
) -> Receipt {
    claimed_receipt(view, instance_id, shown_block(keys, view, instance_id))
}

/// Whether the signatures of a view's receipts are not forged, for the keys
/// that they are checked under: each is checked for the block of its receipt.
pub open spec fn genuine_receipts(
    histories: Histories,
    keys: Seq<Seq<u8>>,
    view: SubmittedView,
    instance_id: Seq<u8>,
) -> bool {
    forall|i: int|
        0 <= i < view.receipts.len() && (#[trigger] view.receipts[i]).key_index < keys.len()
            ==> genuine(
            histories,
            keys[view.receipts[i].key_index as int],
            claimed_receipt(view, instance_id, view.receipts[i].block),
            view.receipts[i].signature@,
        )
}

/// The keys that a verifier trusts after the first `s` handovers.
pub open spec fn config_at(
    genesis: Seq<Seq<u8>>,
    handovers: Seq<HandoverView>,
    s: int,
) -> Seq<Seq<u8>> {
    if s == 0 {
        genesis
    } else {
        handovers[s - 1].incoming()
    }
}

/// Whether no signature in a view, handovers included, is forged.
pub open spec fn genuine_view(
    histories: Histories,
    genesis: Seq<Seq<u8>>,
    view: SubmittedView,
) -> bool {
    let instance_id = cohort::config_id_of(genesis);
    &&& forall|s: int|
        0 <= s < view.handovers.len() ==> genuine_handover(
            histories,
            #[trigger] view.handovers[s],
            instance_id,
        )
    &&& genuine_receipts(
        histories,
        config_at(genesis, view.handovers, view.handovers.len() as int),
        view,
        instance_id,
    )
}

/// Whether some keys are the initial cohort, or a cohort in a chain of
/// handovers.
pub open spec fn occurs(
    genesis: Seq<Seq<u8>>,
    handovers: Seq<HandoverView>,
    keys: Seq<Seq<u8>>,
) -> bool {
    keys == genesis || exists|s: int|
        0 <= s < handovers.len() && (keys == (#[trigger] handovers[s]).outgoing() || keys
            == handovers[s].incoming())
}

/// Whether no two of the cohorts in two chains of handovers have the same
/// digest without being the same.
pub open spec fn distinct_config_ids(
    genesis: Seq<Seq<u8>>,
    handovers_a: Seq<HandoverView>,
    handovers_b: Seq<HandoverView>,
) -> bool {
    forall|x: Seq<Seq<u8>>, y: Seq<Seq<u8>>|
        (occurs(genesis, handovers_a, x) || occurs(genesis, handovers_b, x)) && (occurs(
            genesis,
            handovers_a,
            y,
        ) || occurs(genesis, handovers_b, y)) && #[trigger] cohort::config_id_of(x)
            == #[trigger] cohort::config_id_of(y) ==> cohort::concatenated(x)
            == cohort::concatenated(y)
}

/// Whether no two ledger states, one with which an endorser started and one
/// with which one ended, have the same digest without being the same.
pub open spec fn distinct_ledger_hashes(histories: Histories) -> bool {
    forall|k1: Seq<u8>, k2: Seq<u8>|
        #![trigger histories[k1], histories[k2]]
        histories.contains_key(k1) && histories.contains_key(k2) && ledger::ledgers_hash(
            histories[k1].states[0],
        ) == ledger::ledgers_hash(histories[k2].states.last()) ==> ledger::ledgers_encoding(
            histories[k1].states[0],
        ) == ledger::ledgers_encoding(histories[k2].states.last())
}

/// Whether the keys in a chain of handovers have the length of keys.
pub open spec fn well_sized_handovers(handovers: Seq<HandoverView>) -> bool {
    forall|s: int|
        0 <= s < handovers.len() ==> cohort::well_sized((#[trigger] handovers[s]).outgoing())
            && cohort::well_sized(handovers[s].incoming())
}

// ---------------------------------------------------------------------------
// One cohort
// ---------------------------------------------------------------------------

/// An endorser that signed what a view is checked against held the block.
proof fn lemma_signer_held_block(
    histories: Histories,
    key: Seq<u8>,
    view: SubmittedView,
    instance_id: Seq<u8>,
    block: LedgerBlock,
)
    requires
        signed_by(histories, key, claimed_receipt(view, instance_id, block)),
    ensures
        histories[key].holds(view.ledger_id, block),
{
    let history = histories[key];
    match view.verification {
        Verification::ReadLatest { nonce } => {
            assert(history.attested_for(view.ledger_id, block, nonce));
        },
        Verification::Append { nonce, .. } => {
            assert(history.attested_for(view.ledger_id, block, nonce));
        },
        Verification::Entry { .. } => {},
    }
    assert(history.attested(view.ledger_id, block));
    history::law_attested_blocks_were_held(history, view.ledger_id, block);
}

/// A view whose receipts are accepted shows a block that a strict majority
/// signed.
proof fn lemma_checked_view(keys: Seq<Seq<u8>>, view: SubmittedView, instance_id: Seq<u8>)
    requires
        view.checked_by(VerifierView { config: keys, instance_id }) is Ok,
    ensures
        shows(keys, view, instance_id),
        view.claim().admits(shown_block(keys, view, instance_id)),
{
    let current = VerifierView { config: keys, instance_id };
    let block = shown_block(keys, view, instance_id);
    verification::law_verdict_is_the_majoritys(
        current,
        view.claim(),
        view.ledger_id,
        view.receipts,
    );
    assert(current.accepts(view.claim(), view.ledger_id, view.receipts, block));
}

/// Whether the receipts of a view are accepted under some keys.
spec fn shows(keys: Seq<Seq<u8>>, view: SubmittedView, instance_id: Seq<u8>) -> bool {
    verification::accepted(
        keys,
        view.receipts,
        shown_block(keys, view, instance_id),
        checked_receipt(keys, view, instance_id).encoding(),
    )
}

/// The keys under which the receipts of a view vouch.
spec fn view_signers(keys: Seq<Seq<u8>>, view: SubmittedView, instance_id: Seq<u8>) -> Set<int> {
    receipt_signers(
        keys,
        view.receipts,
        shown_block(keys, view, instance_id),
        checked_receipt(keys, view, instance_id).encoding(),
    )
}

/// A key under which the receipts of a view vouch is that of an endorser which
/// signed what the view is checked against.
proof fn lemma_view_signed(
    histories: Histories,
    keys: Seq<Seq<u8>>,
    view: SubmittedView,
    instance_id: Seq<u8>,
    k: int,
)
    requires
        genuine_receipts(histories, keys, view, instance_id),
        view_signers(keys, view, instance_id).contains(k),
        0 <= k < keys.len(),
    ensures
        signed_by(histories, keys[k], checked_receipt(keys, view, instance_id)),
{
    let block = shown_block(keys, view, instance_id);
    let message = checked_receipt(keys, view, instance_id).encoding();
    assert(vouched_by(keys, view.receipts, block, message, k));
    let i = choose|i: int|
        0 <= i < view.receipts.len() && (#[trigger] view.receipts[i]).key_index == k
            && verification::vouches(keys, view.receipts[i], block, message);
    assert(genuine(
        histories,
        keys[k],
        checked_receipt(keys, view, instance_id),
        view.receipts[i].signature@,
    ));
}

/// A key under which the receipts of a view vouch is that of an endorser which
/// held the block.
proof fn lemma_view_signer(
    histories: Histories,
    keys: Seq<Seq<u8>>,
    view: SubmittedView,
    instance_id: Seq<u8>,
    k: int,
)
    requires
        genuine_receipts(histories, keys, view, instance_id),
        view_signers(keys, view, instance_id).contains(k),
        0 <= k < keys.len(),
    ensures
        histories.contains_key(keys[k]),
        histories[keys[k]].well_formed(),
        histories[keys[k]].holds(view.ledger_id, shown_block(keys, view, instance_id)),
{
    lemma_view_signed(histories, keys, view, instance_id, k);
    lemma_signer_held_block(
        histories,
        keys[k],
        view,
        instance_id,
        shown_block(keys, view, instance_id),
    );
}

/// Within one cohort there is no split view: two views of a ledger that clients
/// of the cohort accept show the same block at the same index.
pub proof fn law_no_split_view_in_a_cohort(
    histories: Histories,
    keys: Seq<Seq<u8>>,
    instance_id: Seq<u8>,
    view_a: SubmittedView,
    view_b: SubmittedView,
)
    ensures
        ({
            let current = VerifierView { config: keys, instance_id };
            &&& genuine_receipts(histories, keys, view_a, instance_id)
            &&& genuine_receipts(histories, keys, view_b, instance_id)
            &&& view_a.ledger_id == view_b.ledger_id
            &&& view_a.checked_by(current) matches Ok(block_a)
            &&& view_b.checked_by(current) matches Ok(block_b)
            &&& block_a.index == block_b.index
        }) ==> view_a.checked_by(VerifierView { config: keys, instance_id })
            == view_b.checked_by(VerifierView { config: keys, instance_id }),
{
    let current = VerifierView { config: keys, instance_id };
    if genuine_receipts(histories, keys, view_a, instance_id) && genuine_receipts(
        histories,
        keys,
        view_b,
        instance_id,
    ) && view_a.ledger_id == view_b.ledger_id && view_a.checked_by(current) is Ok
        && view_b.checked_by(current) is Ok && view_a.checked_by(current)->Ok_0.index
        == view_b.checked_by(current)->Ok_0.index {
        lemma_checked_view(keys, view_a, instance_id);
        lemma_checked_view(keys, view_b, instance_id);
        lemma_same_block(histories, keys, instance_id, view_a, view_b);
    }
}

proof fn lemma_same_block(
    histories: Histories,
    keys: Seq<Seq<u8>>,
    instance_id: Seq<u8>,
    view_a: SubmittedView,
    view_b: SubmittedView,
)
    requires
        genuine_receipts(histories, keys, view_a, instance_id),
        genuine_receipts(histories, keys, view_b, instance_id),
        shows(keys, view_a, instance_id),
        shows(keys, view_b, instance_id),
        view_a.ledger_id == view_b.ledger_id,
        shown_block(keys, view_a, instance_id).index == shown_block(keys, view_b, instance_id).index,
    ensures
        shown_block(keys, view_a, instance_id) == shown_block(keys, view_b, instance_id),
{
    lemma_receipt_signers(
        keys,
        view_a.receipts,
        shown_block(keys, view_a, instance_id),
        checked_receipt(keys, view_a, instance_id).encoding(),
    );
    lemma_receipt_signers(
        keys,
        view_b.receipts,
        shown_block(keys, view_b, instance_id),
        checked_receipt(keys, view_b, instance_id).encoding(),
    );
    let k = law_majorities_meet(
        view_signers(keys, view_a, instance_id),
        view_signers(keys, view_b, instance_id),
        keys.len(),
    );
    lemma_view_signer(histories, keys, view_a, instance_id, k);
    lemma_view_signer(histories, keys, view_b, instance_id, k);
    history::law_one_block_per_index(
        histories[keys[k]],
        view_a.ledger_id,
        shown_block(keys, view_a, instance_id),
        shown_block(keys, view_b, instance_id),
    );
}

/// Whether a strict majority of a cohort signed a receipt.
pub open spec fn majority_signed(
    histories: Histories,
    keys: Seq<Seq<u8>>,
    receipt: Receipt,
) -> bool {
    exists|signers: Set<int>| #[trigger] is_majority_of_signers(histories, keys, receipt, signers)
}

/// Whether some endorsers of a cohort, by the indices of their keys, are a
/// strict majority that signed a receipt.
pub open spec fn is_majority_of_signers(
    histories: Histories,
    keys: Seq<Seq<u8>>,
    receipt: Receipt,
    signers: Set<int>,
) -> bool {
    &&& signers.finite()
    &&& quorum::strict_majority(signers.len(), keys.len())
    &&& forall|k: int| #[trigger]
        signers.contains(k) ==> 0 <= k < keys.len() && signed_by(histories, keys[k], receipt)
}

/// What a client accepts was done: if the receipts of a view are accepted, then
/// a strict majority of the cohort carried out what the view claims. For an
/// append these endorsers appended the client's own entry for its own nonce; for
/// a read they read the block for the client's nonce. So neither can stand for
/// the other, nor an operation for one nonce for that for another.
pub proof fn law_accepted_views_were_carried_out(
    histories: Histories,
    keys: Seq<Seq<u8>>,
    instance_id: Seq<u8>,
    view: SubmittedView,
)
    ensures
        genuine_receipts(histories, keys, view, instance_id) && view.checked_by(
            VerifierView { config: keys, instance_id },
        ) is Ok ==> {
            &&& majority_signed(histories, keys, checked_receipt(keys, view, instance_id))
            &&& view.verification matches Verification::Append { entry, .. }
                ==> shown_block(keys, view, instance_id).entry == entry
        },
{
    let current = VerifierView { config: keys, instance_id };
    if genuine_receipts(histories, keys, view, instance_id) && view.checked_by(current) is Ok {
        let receipt = checked_receipt(keys, view, instance_id);
        lemma_checked_view(keys, view, instance_id);
        lemma_receipt_signers(keys, view.receipts, shown_block(keys, view, instance_id), receipt.encoding());
        let signers = view_signers(keys, view, instance_id);
        assert forall|k: int| #[trigger] signers.contains(k) implies 0 <= k < keys.len()
            && signed_by(histories, keys[k], receipt) by {
            assert(vstd::set_lib::set_int_range(0, keys.len() as int).contains(k));
            lemma_view_signed(histories, keys, view, instance_id, k);
        }
        assert(is_majority_of_signers(histories, keys, receipt, signers));
    }
}

// ---------------------------------------------------------------------------
// Fresh nonces
// ---------------------------------------------------------------------------

/// How many events each endorser, by its verifying key, had in its history at
/// some moment; an endorser that was not yet active is not among them.
pub type Moment = Map<Seq<u8>, nat>;

/// The histories as they were at a moment.
pub open spec fn histories_at(histories: Histories, moment: Moment) -> Histories {
    Map::new(
        |key: Seq<u8>|
            histories.contains_key(key) && moment.contains_key(key) && moment[key]
                <= histories[key].events.len(),
        |key: Seq<u8>| histories[key].until(moment[key]),
    )
}

/// Whether no endorser had seen a nonce at a moment.
pub open spec fn is_fresh(histories: Histories, moment: Moment, nonce: u64) -> bool {
    forall|key: Seq<u8>| #[trigger]
        histories_at(histories, moment).contains_key(key) ==> histories_at(
            histories,
            moment,
        )[key].has_not_seen(nonce)
}

/// Whether clients of a cohort accept one view of a ledger by a moment, and then
/// another of the same ledger that is for a nonce which was fresh at the moment.
pub open spec fn fresh_view_follows(
    histories: Histories,
    moment: Moment,
    keys: Seq<Seq<u8>>,
    instance_id: Seq<u8>,
    earlier: SubmittedView,
    later: SubmittedView,
    nonce: u64,
) -> bool {
    let current = VerifierView { config: keys, instance_id };
    &&& genuine_receipts(histories_at(histories, moment), keys, earlier, instance_id)
    &&& genuine_receipts(histories, keys, later, instance_id)
    &&& is_fresh(histories, moment, nonce)
    &&& earlier.ledger_id == later.ledger_id
    &&& earlier.checked_by(current) is Ok
    &&& later.checked_by(current) is Ok
}

/// Two accepted views have a signer in common, which held the block of the one
/// by the moment, and carried out the other.
proof fn lemma_fresh_signer(
    histories: Histories,
    moment: Moment,
    keys: Seq<Seq<u8>>,
    instance_id: Seq<u8>,
    earlier: SubmittedView,
    later: SubmittedView,
    nonce: u64,
) -> (r: (Seq<u8>, int))
    requires
        fresh_view_follows(histories, moment, keys, instance_id, earlier, later, nonce),
    ensures
        histories_at(histories, moment).contains_key(r.0),
        histories[r.0].well_formed(),
        histories[r.0].signs(checked_receipt(keys, later, instance_id)),
        histories[r.0].holds_at(earlier.ledger_id, shown_block(keys, earlier, instance_id), r.1),
        r.1 <= moment[r.0] <= histories[r.0].events.len(),
{
    let current = VerifierView { config: keys, instance_id };
    let before = histories_at(histories, moment);
    lemma_checked_view(keys, earlier, instance_id);
    lemma_checked_view(keys, later, instance_id);
    lemma_receipt_signers(
        keys,
        earlier.receipts,
        shown_block(keys, earlier, instance_id),
        checked_receipt(keys, earlier, instance_id).encoding(),
    );
    lemma_receipt_signers(
        keys,
        later.receipts,
        shown_block(keys, later, instance_id),
        checked_receipt(keys, later, instance_id).encoding(),
    );
    let k = law_majorities_meet(
        view_signers(keys, earlier, instance_id),
        view_signers(keys, later, instance_id),
        keys.len(),
    );
    let key = keys[k];
    lemma_view_signer(before, keys, earlier, instance_id, k);
    lemma_view_signed(histories, keys, later, instance_id, k);
    let i = choose|i: int|
        before[key].holds_at(earlier.ledger_id, shown_block(keys, earlier, instance_id), i);
    assert(before[key] == histories[key].until(moment[key]));
    assert(histories[key].holds_at(earlier.ledger_id, shown_block(keys, earlier, instance_id), i));
    (key, i)
}

/// Reads are fresh: a read that a client accepts for a nonce that it drew after
/// another view was accepted shows the block of that view, or one with a
/// greater index.
pub proof fn law_fresh_reads_are_current(
    histories: Histories,
    moment: Moment,
    keys: Seq<Seq<u8>>,
    instance_id: Seq<u8>,
    earlier: SubmittedView,
    later: SubmittedView,
    nonce: u64,
)
    ensures
        fresh_view_follows(histories, moment, keys, instance_id, earlier, later, nonce)
            && later.verification == (Verification::ReadLatest { nonce }) ==> history::at_or_after(
            shown_block(keys, later, instance_id),
            shown_block(keys, earlier, instance_id),
        ),
{
    if fresh_view_follows(histories, moment, keys, instance_id, earlier, later, nonce)
        && later.verification == (Verification::ReadLatest { nonce }) {
        let (key, i) = lemma_fresh_signer(
            histories,
            moment,
            keys,
            instance_id,
            earlier,
            later,
            nonce,
        );
        let history = histories[key];
        let n = moment[key];
        let p = choose|p: int|
            history.read_at(later.ledger_id, shown_block(keys, later, instance_id), nonce, p);
        if p < n {
            assert(history.until(n).events[p] == history.events[p]);
            assert(histories_at(histories, moment)[key].has_not_seen(nonce));
        }
        history::law_ledgers_only_grow(history, later.ledger_id, i, p + 1);
    }
}

/// Appends are not replayed: an append that a client accepts for a nonce that it
/// drew after another view was accepted gave a block with a greater index than
/// that view shows.
pub proof fn law_fresh_appends_are_new(
    histories: Histories,
    moment: Moment,
    keys: Seq<Seq<u8>>,
    instance_id: Seq<u8>,
    earlier: SubmittedView,
    later: SubmittedView,
    nonce: u64,
)
    ensures
        fresh_view_follows(histories, moment, keys, instance_id, earlier, later, nonce)
            && (later.verification matches Verification::Append { nonce: used, .. } && used
            == nonce) ==> shown_block(keys, later, instance_id).index > shown_block(keys, earlier, instance_id).index,
{
    if fresh_view_follows(histories, moment, keys, instance_id, earlier, later, nonce)
        && (later.verification matches Verification::Append { nonce: used, .. } && used == nonce) {
        let (key, i) = lemma_fresh_signer(
            histories,
            moment,
            keys,
            instance_id,
            earlier,
            later,
            nonce,
        );
        let history = histories[key];
        let n = moment[key];
        let p = choose|p: int|
            history.appended_at(later.ledger_id, shown_block(keys, later, instance_id), nonce, p);
        if p < n {
            assert(history.until(n).events[p] == history.events[p]);
            assert(histories_at(histories, moment)[key].has_not_seen(nonce));
        }
        history::law_ledgers_only_grow(history, later.ledger_id, i, p);
        assert(history.leads_at(p));
    }
}

// ---------------------------------------------------------------------------
// Handovers
// ---------------------------------------------------------------------------

/// An entry that holds a genuine receipt is that of an endorser which signed
/// it.
proof fn lemma_entry_signer(
    histories: Histories,
    entries: Seq<ReceiptEntry>,
    receipt: Receipt,
    i: int,
)
    requires
        genuine_entries(histories, entries, receipt),
        entry_signers(entries, receipt.encoding()).contains(i),
    ensures
        0 <= i < entries.len(),
        signed_by(histories, quorum::entry_keys(entries)[i], receipt),
{
    assert(quorum::holds_receipt(entries[i], receipt.encoding()));
    assert(quorum::entry_keys(entries)[i] == entries[i].key);
}

/// A cohort hands over once: two handovers from one cohort that are both signed
/// name the same incoming cohort and the same ledgers, by their digests.
pub proof fn law_a_cohort_hands_over_once(
    histories: Histories,
    instance_id: Seq<u8>,
    first: HandoverView,
    second: HandoverView,
)
    ensures
        ({
            &&& genuine_handover(histories, first, instance_id)
            &&& genuine_handover(histories, second, instance_id)
            &&& first.outgoing() == second.outgoing()
            &&& first.finalized(instance_id)
            &&& second.finalized(instance_id)
        }) ==> {
            &&& cohort::config_id_of(first.incoming()) == cohort::config_id_of(second.incoming())
            &&& first.ledgers_hash == second.ledgers_hash
        },
{
    if genuine_handover(histories, first, instance_id) && genuine_handover(
        histories,
        second,
        instance_id,
    ) && first.outgoing() == second.outgoing() && first.finalized(instance_id)
        && second.finalized(instance_id) {
        let a = finalize_receipt(first, instance_id);
        let b = finalize_receipt(second, instance_id);
        lemma_entry_signers(first.finalization, a.encoding());
        lemma_entry_signers(second.finalization, b.encoding());
        assert(first.finalization.len() == first.outgoing().len());
        assert(second.finalization.len() == second.outgoing().len());
        let i = law_majorities_meet(
            entry_signers(first.finalization, a.encoding()),
            entry_signers(second.finalization, b.encoding()),
            first.finalization.len(),
        );
        lemma_entry_signer(histories, first.finalization, a, i);
        lemma_entry_signer(histories, second.finalization, b, i);
        history::law_one_finalization(histories[first.outgoing()[i]], a, b);
    }
}

/// Whether the endorser with a key ended with ledgers that have the given
/// digest, and in which the ledger is at or after the block.
spec fn carries(
    histories: Histories,
    key: Seq<u8>,
    ledgers_hash: Seq<u8>,
    ledger_id: u32,
    block: LedgerBlock,
) -> bool {
    let last = histories[key].states.last();
    &&& histories.contains_key(key)
    &&& histories[key].well_formed()
    &&& ledger::ledgers_hash(last) == ledgers_hash
    &&& last.contains_key(ledger_id)
    &&& history::at_or_after(last[ledger_id], block)
}

/// Being at or after is transitive.
proof fn lemma_at_or_after(later: LedgerBlock, middle: LedgerBlock, earlier: LedgerBlock)
    requires
        history::at_or_after(later, middle),
        history::at_or_after(middle, earlier),
    ensures
        history::at_or_after(later, earlier),
{
}

/// The block that a cohort shows is in the ledgers that the cohort hands over.
proof fn lemma_block_is_handed_over(
    histories: Histories,
    keys: Seq<Seq<u8>>,
    instance_id: Seq<u8>,
    view: SubmittedView,
    handover: HandoverView,
) -> (key: Seq<u8>)
    requires
        genuine_receipts(histories, keys, view, instance_id),
        shows(keys, view, instance_id),
        genuine_handover(histories, handover, instance_id),
        handover.outgoing() == keys,
        handover.finalized(instance_id),
    ensures
        carries(histories, key, handover.ledgers_hash, view.ledger_id, shown_block(keys, view, instance_id)),
{
    let receipt = finalize_receipt(handover, instance_id);
    lemma_receipt_signers(
        keys,
        view.receipts,
        shown_block(keys, view, instance_id),
        checked_receipt(keys, view, instance_id).encoding(),
    );
    lemma_entry_signers(handover.finalization, receipt.encoding());
    assert(handover.finalization.len() == keys.len());
    let k = law_majorities_meet(
        view_signers(keys, view, instance_id),
        entry_signers(handover.finalization, receipt.encoding()),
        keys.len(),
    );
    lemma_view_signer(histories, keys, view, instance_id, k);
    lemma_entry_signer(histories, handover.finalization, receipt, k);
    let history = histories[keys[k]];
    let i = choose|i: int| history.holds_at(view.ledger_id, shown_block(keys, view, instance_id), i);
    history::law_ledgers_only_grow(history, view.ledger_id, i, history.states.len() - 1);
    keys[k]
}

/// The state with which an endorser started is the one that another ended with,
/// if their digests are the same.
proof fn lemma_same_state(histories: Histories, started: Seq<u8>, ended: Seq<u8>)
    requires
        distinct_ledger_hashes(histories),
        histories.contains_key(started),
        histories.contains_key(ended),
        ledger::ledgers_hash(histories[started].states[0]) == ledger::ledgers_hash(
            histories[ended].states.last(),
        ),
    ensures
        histories[started].states[0] == histories[ended].states.last(),
{
    ledger::law_ledgers_encoding_is_injective(
        histories[started].states[0],
        histories[ended].states.last(),
    );
}

/// What was handed over to a cohort is in the ledgers that the cohort hands
/// over in turn.
proof fn lemma_handed_on(
    histories: Histories,
    instance_id: Seq<u8>,
    handover: HandoverView,
    next: HandoverView,
    ended: Seq<u8>,
    ledger_id: u32,
    block: LedgerBlock,
) -> (key: Seq<u8>)
    requires
        distinct_ledger_hashes(histories),
        genuine_handover(histories, handover, instance_id),
        genuine_handover(histories, next, instance_id),
        handover.incoming() == next.outgoing(),
        handover.activated(instance_id),
        next.finalized(instance_id),
        carries(histories, ended, handover.ledgers_hash, ledger_id, block),
    ensures
        carries(histories, key, next.ledgers_hash, ledger_id, block),
{
    let a = activate_receipt(handover, instance_id);
    let b = finalize_receipt(next, instance_id);
    lemma_entry_signers(handover.activation, a.encoding());
    lemma_entry_signers(next.finalization, b.encoding());
    assert(handover.activation.len() == handover.incoming().len());
    assert(next.finalization.len() == next.outgoing().len());
    let i = law_majorities_meet(
        entry_signers(handover.activation, a.encoding()),
        entry_signers(next.finalization, b.encoding()),
        handover.activation.len(),
    );
    lemma_entry_signer(histories, handover.activation, a, i);
    lemma_entry_signer(histories, next.finalization, b, i);
    let key = handover.incoming()[i];
    let history = histories[key];
    lemma_same_state(histories, key, ended);
    history::law_ledgers_only_grow(history, ledger_id, 0, history.states.len() - 1);
    lemma_at_or_after(
        history.states.last()[ledger_id],
        history.states[0][ledger_id],
        block,
    );
    key
}

/// A block that a cohort shows is at or after what was handed over to it.
proof fn lemma_shown_after_handover(
    histories: Histories,
    instance_id: Seq<u8>,
    handover: HandoverView,
    view: SubmittedView,
    ended: Seq<u8>,
    block: LedgerBlock,
)
    requires
        distinct_ledger_hashes(histories),
        genuine_handover(histories, handover, instance_id),
        handover.activated(instance_id),
        genuine_receipts(histories, handover.incoming(), view, instance_id),
        shows(handover.incoming(), view, instance_id),
        carries(histories, ended, handover.ledgers_hash, view.ledger_id, block),
    ensures
        history::at_or_after(shown_block(handover.incoming(), view, instance_id), block),
{
    let keys = handover.incoming();
    let receipt = activate_receipt(handover, instance_id);
    lemma_receipt_signers(
        keys,
        view.receipts,
        shown_block(keys, view, instance_id),
        checked_receipt(keys, view, instance_id).encoding(),
    );
    lemma_entry_signers(handover.activation, receipt.encoding());
    assert(handover.activation.len() == keys.len());
    let k = law_majorities_meet(
        view_signers(keys, view, instance_id),
        entry_signers(handover.activation, receipt.encoding()),
        keys.len(),
    );
    lemma_view_signer(histories, keys, view, instance_id, k);
    lemma_entry_signer(histories, handover.activation, receipt, k);
    let history = histories[keys[k]];
    lemma_same_state(histories, keys[k], ended);
    let i = choose|i: int| history.holds_at(view.ledger_id, shown_block(keys, view, instance_id), i);
    history::law_ledgers_only_grow(history, view.ledger_id, 0, i);
    lemma_at_or_after(shown_block(keys, view, instance_id), history.states[0][view.ledger_id], block);
}

// ---------------------------------------------------------------------------
// Chains of handovers
// ---------------------------------------------------------------------------

/// Whether each handover in a chain is signed, and is from the cohort that the
/// one before it is to.
spec fn linked(
    genesis: Seq<Seq<u8>>,
    instance_id: Seq<u8>,
    handovers: Seq<HandoverView>,
) -> bool {
    forall|s: int|
        0 <= s < handovers.len() ==> {
            &&& (#[trigger] handovers[s]).outgoing() == config_at(genesis, handovers, s)
            &&& handovers[s].finalized(instance_id)
            &&& handovers[s].activated(instance_id)
        }
}

/// Whether the handover at a position of a chain is signed, and is from the
/// cohort that the one before it is to, by their config IDs.
spec fn leads_on(genesis: Seq<Seq<u8>>, handovers: Seq<HandoverView>, s: int) -> bool {
    let instance_id = cohort::config_id_of(genesis);
    &&& cohort::config_id_of(handovers[s].outgoing()) == cohort::config_id_of(
        config_at(genesis, handovers, s),
    )
    &&& handovers[s].finalized(instance_id)
    &&& handovers[s].activated(instance_id)
}

/// A chain that a verifier follows leads from cohort to cohort.
proof fn lemma_followed(genesis: Seq<Seq<u8>>, handovers: Seq<HandoverView>)
    requires
        challenge::follow(challenge::genesis_verifier(genesis), handovers) is Ok,
    ensures
        challenge::follow(challenge::genesis_verifier(genesis), handovers)->Ok_0 == (VerifierView {
            config: config_at(genesis, handovers, handovers.len() as int),
            instance_id: cohort::config_id_of(genesis),
        }),
        forall|s: int| 0 <= s < handovers.len() ==> #[trigger] leads_on(genesis, handovers, s),
    decreases handovers.len(),
{
    if handovers.len() > 0 {
        let earlier = handovers.drop_last();
        let last = handovers.len() - 1;
        lemma_followed(genesis, earlier);
        lemma_last_handover(genesis, handovers);
        assert forall|s: int| 0 <= s < handovers.len() implies #[trigger] leads_on(
            genesis,
            handovers,
            s,
        ) by {
            if s < last {
                assert(leads_on(genesis, earlier, s));
                assert(earlier[s] == handovers[s]);
                if s > 0 {
                    assert(earlier[s - 1] == handovers[s - 1]);
                }
            }
        }
    }
}

/// The last handover of a chain that a verifier follows leads on.
proof fn lemma_last_handover(genesis: Seq<Seq<u8>>, handovers: Seq<HandoverView>)
    requires
        handovers.len() > 0,
        challenge::follow(challenge::genesis_verifier(genesis), handovers) is Ok,
        challenge::follow(challenge::genesis_verifier(genesis), handovers.drop_last())
            == Ok::<_, (usize, HandoverError)>(
            VerifierView {
                config: config_at(genesis, handovers.drop_last(), handovers.len() - 1),
                instance_id: cohort::config_id_of(genesis),
            },
        ),
    ensures
        leads_on(genesis, handovers, handovers.len() - 1),
        challenge::follow(challenge::genesis_verifier(genesis), handovers)->Ok_0 == (VerifierView {
            config: handovers.last().incoming(),
            instance_id: cohort::config_id_of(genesis),
        }),
{
    let last = handovers.len() - 1;
    assert(config_at(genesis, handovers.drop_last(), last) == config_at(
        genesis,
        handovers,
        last,
    )) by {
        if last > 0 {
            assert(handovers.drop_last()[last - 1] == handovers[last - 1]);
        }
    }
}

/// The cohorts of a chain that a verifier follows are linked, since config IDs
/// tell them apart.
proof fn lemma_linked(
    genesis: Seq<Seq<u8>>,
    handovers: Seq<HandoverView>,
    others: Seq<HandoverView>,
)
    requires
        challenge::follow(challenge::genesis_verifier(genesis), handovers) is Ok,
        distinct_config_ids(genesis, handovers, others),
        cohort::well_sized(genesis),
        well_sized_handovers(handovers),
    ensures
        linked(genesis, cohort::config_id_of(genesis), handovers),
{
    lemma_followed(genesis, handovers);
    let instance_id = cohort::config_id_of(genesis);
    assert forall|s: int| 0 <= s < handovers.len() implies {
        &&& (#[trigger] handovers[s]).outgoing() == config_at(genesis, handovers, s)
        &&& handovers[s].finalized(instance_id)
        &&& handovers[s].activated(instance_id)
    } by {
        assert(leads_on(genesis, handovers, s));
        let x = handovers[s].outgoing();
        let y = config_at(genesis, handovers, s);
        assert(occurs(genesis, handovers, x));
        if s > 0 {
            assert(handovers[s - 1].incoming() == y);
        }
        assert(occurs(genesis, handovers, y));
        assert(cohort::config_id_of(x) == cohort::config_id_of(y));
        cohort::law_concatenation_is_injective(x, y);
    }
}

/// Two linked chains from one cohort go through the same cohorts, as far as
/// both go.
proof fn lemma_chains_agree(
    histories: Histories,
    genesis: Seq<Seq<u8>>,
    a: Seq<HandoverView>,
    b: Seq<HandoverView>,
    s: int,
)
    requires
        distinct_config_ids(genesis, a, b),
        linked(genesis, cohort::config_id_of(genesis), a),
        linked(genesis, cohort::config_id_of(genesis), b),
        well_sized_handovers(a),
        well_sized_handovers(b),
        forall|t: int|
            0 <= t < a.len() ==> genuine_handover(
                histories,
                #[trigger] a[t],
                cohort::config_id_of(genesis),
            ),
        forall|t: int|
            0 <= t < b.len() ==> genuine_handover(
                histories,
                #[trigger] b[t],
                cohort::config_id_of(genesis),
            ),
        0 <= s <= a.len(),
        s <= b.len(),
    ensures
        config_at(genesis, a, s) == config_at(genesis, b, s),
    decreases s,
{
    if s > 0 {
        lemma_chains_agree(histories, genesis, a, b, s - 1);
        let first = a[s - 1];
        let second = b[s - 1];
        law_a_cohort_hands_over_once(histories, cohort::config_id_of(genesis), first, second);
        let x = first.incoming();
        let y = second.incoming();
        assert(occurs(genesis, a, x));
        assert(occurs(genesis, b, y));
        assert(cohort::config_id_of(x) == cohort::config_id_of(y));
        cohort::law_concatenation_is_injective(x, y);
    }
}

/// A block that a view shows is in the ledgers of each later handover of a
/// chain that goes on.
proof fn lemma_block_stays(
    histories: Histories,
    genesis: Seq<Seq<u8>>,
    handovers: Seq<HandoverView>,
    view: SubmittedView,
    m: int,
    s: int,
) -> (key: Seq<u8>)
    requires
        distinct_ledger_hashes(histories),
        linked(genesis, cohort::config_id_of(genesis), handovers),
        forall|t: int|
            0 <= t < handovers.len() ==> genuine_handover(
                histories,
                #[trigger] handovers[t],
                cohort::config_id_of(genesis),
            ),
        0 <= m <= s < handovers.len(),
        genuine_receipts(
            histories,
            config_at(genesis, handovers, m),
            view,
            cohort::config_id_of(genesis),
        ),
        shows(config_at(genesis, handovers, m), view, cohort::config_id_of(genesis)),
    ensures
        carries(
            histories,
            key,
            handovers[s].ledgers_hash,
            view.ledger_id,
            shown_block(
                config_at(genesis, handovers, m),
                view,
                cohort::config_id_of(genesis),
            ),
        ),
    decreases s - m,
{
    let instance_id = cohort::config_id_of(genesis);
    if s == m {
        lemma_block_is_handed_over(
            histories,
            config_at(genesis, handovers, m),
            instance_id,
            view,
            handovers[m],
        )
    } else {
        let ended = lemma_block_stays(histories, genesis, handovers, view, m, s - 1);
        lemma_handed_on(
            histories,
            instance_id,
            handovers[s - 1],
            handovers[s],
            ended,
            view.ledger_id,
            shown_block(config_at(genesis, handovers, m), view, instance_id),
        )
    }
}

/// What is taken for granted of two views: no signature is forged and no two
/// digests collide.
pub open spec fn sound_views(
    histories: Histories,
    genesis: Seq<Seq<u8>>,
    view_a: SubmittedView,
    view_b: SubmittedView,
) -> bool {
    &&& genuine_view(histories, genesis, view_a)
    &&& genuine_view(histories, genesis, view_b)
    &&& distinct_config_ids(genesis, view_a.handovers, view_b.handovers)
    &&& distinct_ledger_hashes(histories)
    &&& cohort::well_sized(genesis)
    &&& well_sized_handovers(view_a.handovers)
    &&& well_sized_handovers(view_b.handovers)
}

/// A ledger never goes back: a view of a ledger behind more handovers shows the
/// same block as one behind fewer, or one with a greater index.
proof fn lemma_later_view(
    histories: Histories,
    genesis: Seq<Seq<u8>>,
    view_a: SubmittedView,
    view_b: SubmittedView,
)
    requires
        sound_views(histories, genesis, view_a, view_b),
        view_a.resolved(genesis, WhichView::A) is Ok,
        view_b.resolved(genesis, WhichView::B) is Ok,
        view_a.ledger_id == view_b.ledger_id,
        view_a.handovers.len() <= view_b.handovers.len(),
    ensures
        ({
            let block_a = view_a.resolved(genesis, WhichView::A)->Ok_0;
            let block_b = view_b.resolved(genesis, WhichView::B)->Ok_0;
            &&& block_a.index == block_b.index ==> block_a == block_b
            &&& view_a.handovers.len() < view_b.handovers.len() ==> history::at_or_after(
                block_b,
                block_a,
            )
        }),
{
    let instance_id = cohort::config_id_of(genesis);
    let a = view_a.handovers;
    let b = view_b.handovers;
    let m = a.len() as int;
    let n = b.len() as int;
    lemma_followed(genesis, a);
    lemma_followed(genesis, b);
    lemma_linked(genesis, a, b);
    assert(distinct_config_ids(genesis, b, a));
    lemma_linked(genesis, b, a);
    lemma_chains_agree(histories, genesis, a, b, m);
    let current_a = challenge::follow(challenge::genesis_verifier(genesis), a)->Ok_0;
    let current_b = challenge::follow(challenge::genesis_verifier(genesis), b)->Ok_0;
    let keys = config_at(genesis, b, m);
    assert(current_a == VerifierView { config: keys, instance_id });
    lemma_checked_view(keys, view_a, instance_id);
    lemma_checked_view(current_b.config, view_b, instance_id);
    if m == n {
        if shown_block(keys, view_a, instance_id).index == shown_block(keys, view_b, instance_id).index {
            lemma_same_block(histories, keys, instance_id, view_a, view_b);
        }
    } else {
        let ended = lemma_block_stays(histories, genesis, b, view_a, m, n - 1);
        lemma_shown_after_handover(
            histories,
            instance_id,
            b[n - 1],
            view_b,
            ended,
            shown_block(keys, view_a, instance_id),
        );
    }
}

/// Trust that follows handovers never leads to a contradiction, nor back: of
/// two views of a ledger that clients of one instance accept, behind whatever
/// handovers, the blocks at the same index are the same; and the one behind
/// more handovers shows the same block as the other, or one with a greater
/// index.
pub proof fn law_handovers_keep_the_ledger(
    histories: Histories,
    genesis: Seq<Seq<u8>>,
    view_a: SubmittedView,
    view_b: SubmittedView,
)
    ensures
        ({
            &&& sound_views(histories, genesis, view_a, view_b)
            &&& view_a.resolved(genesis, WhichView::A) is Ok
            &&& view_b.resolved(genesis, WhichView::B) is Ok
            &&& view_a.ledger_id == view_b.ledger_id
        }) ==> {
            let block_a = view_a.resolved(genesis, WhichView::A)->Ok_0;
            let block_b = view_b.resolved(genesis, WhichView::B)->Ok_0;
            &&& block_a.index == block_b.index ==> block_a == block_b
            &&& view_a.handovers.len() < view_b.handovers.len() ==> history::at_or_after(
                block_b,
                block_a,
            )
            &&& view_b.handovers.len() < view_a.handovers.len() ==> history::at_or_after(
                block_a,
                block_b,
            )
        },
{
    if sound_views(histories, genesis, view_a, view_b) && view_a.resolved(
        genesis,
        WhichView::A,
    ) is Ok && view_b.resolved(genesis, WhichView::B) is Ok && view_a.ledger_id
        == view_b.ledger_id {
        if view_a.handovers.len() <= view_b.handovers.len() {
            lemma_later_view(histories, genesis, view_a, view_b);
        } else {
            assert(distinct_config_ids(genesis, view_b.handovers, view_a.handovers));
            lemma_which_view(genesis, view_a);
            lemma_which_view(genesis, view_b);
            lemma_later_view(histories, genesis, view_b, view_a);
        }
    }
}

/// Which of two views it is decides only how a rejection is reported.
proof fn lemma_which_view(genesis: Seq<Seq<u8>>, view: SubmittedView)
    ensures
        view.resolved(genesis, WhichView::A) is Ok <==> view.resolved(genesis, WhichView::B) is Ok,
        view.resolved(genesis, WhichView::A) is Ok ==> view.resolved(genesis, WhichView::A)->Ok_0
            == view.resolved(genesis, WhichView::B)->Ok_0,
{
}

/// The challenge cannot be won: whatever two views are submitted, behind
/// whatever handovers, judging them never finds a split view.
pub proof fn law_no_split_view(
    histories: Histories,
    genesis: Seq<Seq<u8>>,
    view_a: SubmittedView,
    view_b: SubmittedView,
)
    ensures
        sound_views(histories, genesis, view_a, view_b) ==> !(challenge::judgement(
            genesis,
            view_a,
            view_b,
        ) is SplitViewAchieved),
{
    law_handovers_keep_the_ledger(histories, genesis, view_a, view_b);
}

} // verus!
