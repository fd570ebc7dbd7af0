//! What a cohort signs, its clients accept.
//!
//! The laws say that the receipts of a strict majority of a cohort, whose
//! endorsers are at the same block, are accepted by a verifier that trusts the
//! cohort, whatever other receipts come along.

use vstd::prelude::*;

use crate::endorser::ActiveView;
use crate::ledger::{EntryContents, LedgerBlock};
use crate::ledger_receipts::LedgerReceipt;
use crate::quorum;
use crate::util;
use crate::verification;
use crate::verification::{Claim, VerifierView, VerifyError};

verus! {

/// Whether receipts refer to keys of a cohort of the given size, each to
/// another one.
pub open spec fn distinct_keys(receipts: Seq<LedgerReceipt>, cohort_size: nat) -> bool {
    &&& forall|i: int|
        0 <= i < receipts.len() ==> (#[trigger] receipts[i]).key_index < cohort_size
    &&& forall|i: int, j: int|
        0 <= i < j < receipts.len() ==> receipts[i].key_index != receipts[j].key_index
}

proof fn lemma_no_index_fault(receipts: Seq<LedgerReceipt>, cohort_size: nat)
    requires
        distinct_keys(receipts, cohort_size),
    ensures
        verification::index_fault(receipts, cohort_size) is None,
    decreases receipts.len(),
{
    if receipts.len() > 0 {
        let earlier = receipts.drop_last();
        let last = receipts.len() - 1;
        assert(receipts.last() == receipts[last]);
        assert forall|i: int| 0 <= i < earlier.len() implies (#[trigger] earlier[i]).key_index
            < cohort_size by {
            assert(earlier[i] == receipts[i]);
        }
        lemma_no_index_fault(earlier, cohort_size);
        if verification::uses_key(earlier, receipts.last().key_index as int) {
            let i = choose|i: int|
                0 <= i < earlier.len() && (#[trigger] earlier[i]).key_index
                    == receipts.last().key_index;
            assert(receipts[i].key_index != receipts[last].key_index);
        }
    }
}

/// Each receipt at some positions vouches for a block: then no fewer receipts
/// vouch for it than there are positions.
proof fn lemma_vouching_positions(
    keys: Seq<Seq<u8>>,
    receipts: Seq<LedgerReceipt>,
    block: LedgerBlock,
    message: Seq<u8>,
    positions: Set<int>,
)
    requires
        positions.finite(),
        forall|i: int| #[trigger]
            positions.contains(i) ==> 0 <= i < receipts.len() && verification::vouches(
                keys,
                receipts[i],
                block,
                message,
            ),
    ensures
        verification::vouching_count(keys, receipts, block, message) >= positions.len(),
    decreases receipts.len(),
{
    if receipts.len() == 0 {
        assert(positions =~= Set::empty());
    } else {
        let earlier = receipts.drop_last();
        let last = receipts.len() - 1;
        let rest = positions.remove(last);
        assert forall|i: int| #[trigger] rest.contains(i) implies 0 <= i < earlier.len()
            && verification::vouches(keys, earlier[i], block, message) by {
            assert(positions.contains(i));
            assert(earlier[i] == receipts[i]);
        }
        lemma_vouching_positions(keys, earlier, block, message, rest);
        if positions.contains(last) {
            assert(receipts.last() == receipts[last]);
        }
    }
}

/// A strict majority is accepted: if, of receipts that are each under another
/// key, those that vouch for a block are from a strict majority of the cohort,
/// then the receipts come to that block, whatever the others are.
pub proof fn law_majority_of_receipts_is_accepted(
    current: VerifierView,
    claim: Claim,
    ledger_id: u32,
    block: LedgerBlock,
    receipts: Seq<LedgerReceipt>,
)
    ensures
        ({
            &&& claim.admits(block)
            &&& distinct_keys(receipts, current.config.len())
            &&& quorum::strict_majority(
                current.vouching_for(claim, ledger_id, receipts, block),
                current.config.len(),
            )
        }) ==> current.verdict(claim, ledger_id, receipts) == Ok::<_, VerifyError>(block),
{
    if distinct_keys(receipts, current.config.len()) {
        lemma_no_index_fault(receipts, current.config.len());
        verification::law_verdict_is_the_majoritys(current, claim, ledger_id, receipts);
        assert(claim.admits(block) && quorum::strict_majority(
            current.vouching_for(claim, ledger_id, receipts, block),
            current.config.len(),
        ) ==> current.accepts(claim, ledger_id, receipts, block));
    }
}

/// The keys of some endorsers, in order.
pub open spec fn keys_of(endorsers: Seq<ActiveView>) -> Seq<Seq<u8>> {
    endorsers.map_values(|endorser: ActiveView| endorser.key)
}

/// Whether receipts are each from another endorser of a cohort that a verifier
/// trusts, and those at some positions are from a strict majority of the
/// cohort, whose endorsers are at the block. Nothing is said of the other
/// receipts.
pub open spec fn from_majority(
    endorsers: Seq<ActiveView>,
    current: VerifierView,
    ledger_id: u32,
    block: LedgerBlock,
    receipts: Seq<LedgerReceipt>,
    positions: Set<int>,
) -> bool {
    &&& current.config == keys_of(endorsers)
    &&& distinct_keys(receipts, endorsers.len())
    &&& positions.finite()
    &&& quorum::strict_majority(positions.len(), endorsers.len())
    &&& forall|i: int| #[trigger]
        positions.contains(i) ==> 0 <= i < receipts.len() && is_at(
            endorsers[receipts[i].key_index as int],
            current,
            ledger_id,
            block,
        )
}

/// Whether an endorser serves the instance that a verifier knows, and its
/// ledger is at the block.
pub open spec fn is_at(
    endorser: ActiveView,
    current: VerifierView,
    ledger_id: u32,
    block: LedgerBlock,
) -> bool {
    &&& endorser.instance_id == current.instance_id
    &&& endorser.ledgers[ledger_id] == block
}

/// The receipts of a strict majority that signed a claim for one block come to
/// that block.
proof fn lemma_majority_is_accepted(
    endorsers: Seq<ActiveView>,
    current: VerifierView,
    claim: Claim,
    ledger_id: u32,
    block: LedgerBlock,
    receipts: Seq<LedgerReceipt>,
    positions: Set<int>,
)
    requires
        claim.admits(block),
        from_majority(endorsers, current, ledger_id, block, receipts, positions),
        forall|i: int| #[trigger]
            positions.contains(i) ==> receipts[i].block == block
                && endorsers[receipts[i].key_index as int].signed(
                current.claim_message(claim, ledger_id, block),
                receipts[i].signature@,
            ),
    ensures
        current.verdict(claim, ledger_id, receipts) == Ok::<_, VerifyError>(block),
{
    let keys = current.config;
    let message = current.claim_message(claim, ledger_id, block);
    assert forall|i: int| #[trigger] positions.contains(i) implies 0 <= i < receipts.len()
        && verification::vouches(keys, receipts[i], block, message) by {
        assert(keys[receipts[i].key_index as int] == endorsers[receipts[i].key_index as int].key);
    }
    lemma_vouching_positions(keys, receipts, block, message, positions);
    law_majority_of_receipts_is_accepted(current, claim, ledger_id, block, receipts);
}

/// Reads are accepted: the read receipts of a strict majority that is at one
/// block show that block to a client that asks for the same nonce, whatever
/// other receipts come along.
pub proof fn law_honest_reads_are_accepted(
    endorsers: Seq<ActiveView>,
    current: VerifierView,
    ledger_id: u32,
    block: LedgerBlock,
    nonce: u64,
    receipts: Seq<LedgerReceipt>,
    positions: Set<int>,
)
    ensures
        from_majority(endorsers, current, ledger_id, block, receipts, positions) && (forall|
            i: int,
        | #[trigger]
            positions.contains(i) ==> util::is_read_receipt(
                endorsers[receipts[i].key_index as int],
                receipts[i].key_index,
                ledger_id,
                nonce,
                receipts[i],
            )) ==> current.read_verdict(receipts, nonce, ledger_id) == Ok::<_, VerifyError>(block),
{
    if from_majority(endorsers, current, ledger_id, block, receipts, positions) && (forall|
        i: int,
    | #[trigger]
        positions.contains(i) ==> util::is_read_receipt(
            endorsers[receipts[i].key_index as int],
            receipts[i].key_index,
            ledger_id,
            nonce,
            receipts[i],
        )) {
        lemma_majority_is_accepted(
            endorsers,
            current,
            Claim::Read { nonce },
            ledger_id,
            block,
            receipts,
            positions,
        );
    }
}

/// Appends are accepted: the append receipts of a strict majority that is at
/// one block after appending an entry for a nonce show that block to a client
/// that asks for the same entry and nonce, whatever other receipts come along.
pub proof fn law_honest_appends_are_accepted(
    endorsers: Seq<ActiveView>,
    current: VerifierView,
    ledger_id: u32,
    block: LedgerBlock,
    entry: EntryContents,
    nonce: u64,
    receipts: Seq<LedgerReceipt>,
    positions: Set<int>,
)
    ensures
        from_majority(endorsers, current, ledger_id, block, receipts, positions) && block.entry
            == entry && (forall|i: int| #[trigger]
            positions.contains(i) ==> util::is_append_receipt(
                endorsers[receipts[i].key_index as int],
                receipts[i].key_index,
                ledger_id,
                nonce,
                receipts[i],
            )) ==> current.append_verdict(receipts, entry, nonce, ledger_id) == Ok::<
            _,
            VerifyError,
        >(block),
{
    if from_majority(endorsers, current, ledger_id, block, receipts, positions) && block.entry
        == entry && (forall|i: int| #[trigger]
        positions.contains(i) ==> util::is_append_receipt(
            endorsers[receipts[i].key_index as int],
            receipts[i].key_index,
            ledger_id,
            nonce,
            receipts[i],
        )) {
        lemma_majority_is_accepted(
            endorsers,
            current,
            Claim::Append { entry, nonce },
            ledger_id,
            block,
            receipts,
            positions,
        );
    }
}

/// Entries are accepted: the entry receipts of a strict majority that is at one
/// block show that block to a client that asks for its index, whatever other
/// receipts come along.
pub proof fn law_honest_entries_are_accepted(
    endorsers: Seq<ActiveView>,
    current: VerifierView,
    ledger_id: u32,
    block: LedgerBlock,
    receipts: Seq<LedgerReceipt>,
    positions: Set<int>,
)
    ensures
        from_majority(endorsers, current, ledger_id, block, receipts, positions) && (forall|
            i: int,
        | #[trigger]
            positions.contains(i) ==> util::is_entry_receipt(
                endorsers[receipts[i].key_index as int],
                receipts[i].key_index,
                ledger_id,
                receipts[i],
            )) ==> current.entry_verdict(receipts, block.index, ledger_id) == Ok::<
            _,
            VerifyError,
        >(block),
{
    if from_majority(endorsers, current, ledger_id, block, receipts, positions) && (forall|
        i: int,
    | #[trigger]
        positions.contains(i) ==> util::is_entry_receipt(
            endorsers[receipts[i].key_index as int],
            receipts[i].key_index,
            ledger_id,
            receipts[i],
        )) {
        lemma_majority_is_accepted(
            endorsers,
            current,
            Claim::Entry,
            ledger_id,
            block,
            receipts,
            positions,
        );
    }
}

} // verus!
