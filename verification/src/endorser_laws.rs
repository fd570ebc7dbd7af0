//! How an endorser's operations relate to one another, and to what takeovers,
//! handovers and verifiers make of the receipts.

use vstd::prelude::*;

use crate::cohort;
use crate::cohort::{CohortConfig, ConfigId};
use crate::endorser::{
    ActivationError, Active, ActiveView, AppendEntryError, CreateLedgerError, Endorser, Finalized,
    LedgerNotFoundError, Uninitialized,
};
use crate::handover::HandoverView;
use crate::keys::{Signature, VerifyingKey};
use crate::ledger;
use crate::ledger::{AppendedLedgerBlock, EntryContents, LedgerBlock, Ledgers, SignedLedgerBlock};
use crate::ledger_receipts::LedgerReceipt;
use crate::quorum;
use crate::quorum::ReceiptEntry;
use crate::quorum_laws;
use crate::receipts;
use crate::takeover::CohortTakeOver;
use crate::verification;
use crate::verification::{Claim, VerifierView, VerifyError};

verus! {

// ---------------------------------------------------------------------------
// Activation
// ---------------------------------------------------------------------------

/// A new instance can be started by every endorser of the cohort and by no
/// other. The endorser keeps its key, the instance is named after the cohort,
/// and there is one ledger, with ID zero, that is empty.
pub proof fn law_new_instance_is_started_by_members(
    endorser: Endorser<Uninitialized>,
    config: CohortConfig,
    member: bool,
    key: &VerifyingKey,
    id: ConfigId,
    activated: Result<Endorser<Active>, ActivationError>,
    active: &Endorser<Active>,
    ledger_id: u32,
    nonce: u64,
    read: Result<SignedLedgerBlock, LedgerNotFoundError>,
)
    requires
        call_ensures(Endorser::<Uninitialized>::verifying_key, (&endorser,), key),
        call_ensures(CohortConfig::contains, (&config, key), member),
        call_ensures(CohortConfig::config_id, (&config,), id),
        call_ensures(
            Endorser::<Uninitialized>::activate,
            (endorser, config, None::<CohortTakeOver>),
            activated,
        ),
        activated is Ok ==> active == activated->Ok_0,
        call_ensures(Endorser::<Active>::read_latest, (active, ledger_id, nonce), read),
    ensures
        activated is Ok <==> member,
        activated is Ok ==> {
            &&& active@.key == endorser@.key
            &&& active@.config == config.key_seq()
            &&& active@.instance_id == id@
            &&& read is Ok <==> ledger_id == 0
            &&& read matches Ok(signed) ==> {
                &&& signed.block.index == 0
                &&& forall|i: int| 0 <= i < 32 ==> #[trigger] signed.block.entry@[i] == 0
                &&& forall|i: int|
                    0 <= i < 32 ==> #[trigger] signed.block.hash_chain_tail@[i] == 0
            }
        },
        activated matches Err(error) ==> error is KeyNotInConfig,
{
    if activated is Ok {
        assert(active@.ledgers.contains_key(ledger_id) <==> set![0u32].contains(ledger_id));
    }
}

/// An instance can be taken over by every endorser of the new cohort exactly if
/// the takeover is accepted for that cohort. The endorser goes on with the
/// instance and the ledgers of the takeover.
pub proof fn law_instance_is_taken_over_by_members(
    endorser: Endorser<Uninitialized>,
    config: CohortConfig,
    takeover: CohortTakeOver,
    member: bool,
    key: &VerifyingKey,
    valid: bool,
    activated: Result<Endorser<Active>, ActivationError>,
)
    requires
        call_ensures(Endorser::<Uninitialized>::verifying_key, (&endorser,), key),
        call_ensures(CohortConfig::contains, (&config, key), member),
        call_ensures(CohortTakeOver::verify, (&takeover, &config), valid),
        call_ensures(
            Endorser::<Uninitialized>::activate,
            (endorser, config, Some(takeover)),
            activated,
        ),
    ensures
        activated is Ok <==> member && valid,
        activated matches Ok(active) ==> {
            &&& active@.key == endorser@.key
            &&& active@.config == config.key_seq()
            &&& active@.instance_id == takeover@.instance_id
            &&& active@.ledgers == takeover@.ledgers
        },
        activated matches Err(error) ==> {
            &&& error is KeyNotInConfig <==> !member
            &&& error is NoQuorum <==> member && !valid
        },
{
}

/// An endorser whose activation failed is given back as it was.
pub proof fn law_failed_activation_gives_the_endorser_back(
    endorser: Endorser<Uninitialized>,
    config: CohortConfig,
    takeover: Option<CohortTakeOver>,
    error: ActivationError,
    reclaimed: Endorser<Uninitialized>,
)
    requires
        call_ensures(
            Endorser::<Uninitialized>::activate,
            (endorser, config, takeover),
            Err::<Endorser<Active>, _>(error),
        ),
        call_ensures(ActivationError::reclaim_endorser, (error,), reclaimed),
    ensures
        reclaimed == endorser,
{
}

/// The activation receipt of an endorser that started an instance is its
/// signature of the message for that instance.
pub proof fn law_new_instance_is_signed(
    endorser: Endorser<Uninitialized>,
    config: CohortConfig,
    active: Endorser<Active>,
    id: &ConfigId,
    message: Vec<u8>,
    receipt: &Signature,
    key: &VerifyingKey,
    signed: &[u8],
    valid: bool,
)
    requires
        call_ensures(
            Endorser::<Uninitialized>::activate,
            (endorser, config, None::<CohortTakeOver>),
            Ok::<_, ActivationError>(active),
        ),
        call_ensures(Endorser::<Active>::instance_id, (&active,), id),
        call_ensures(receipts::build_activate_new_instance_message, (id,), message),
        call_ensures(Endorser::<Active>::activation_receipt, (&active,), receipt),
        call_ensures(Endorser::<Active>::verifying_key, (&active,), key),
        signed@ == message@,
        call_ensures(VerifyingKey::verify, (key, signed, receipt), valid),
    ensures
        valid,
{
}

/// The activation receipt of an endorser that took over counts for a handover
/// from the same finalization to the same cohort with the same ledgers.
pub proof fn law_activation_receipt_counts_for_the_handover(
    endorser: Endorser<Uninitialized>,
    config: CohortConfig,
    takeover: CohortTakeOver,
    active: Endorser<Active>,
    handover: HandoverView,
    i: int,
)
    requires
        call_ensures(
            Endorser::<Uninitialized>::activate,
            (endorser, config, Some(takeover)),
            Ok::<_, ActivationError>(active),
        ),
        handover.finalization == takeover@.finalization,
        quorum::entry_keys(handover.activation) == config.key_seq(),
        handover.ledgers_hash == ledger::ledgers_hash(takeover@.ledgers),
        0 <= i < handover.activation.len(),
        handover.activation[i] == (ReceiptEntry {
            key: active@.key,
            receipt: Some(active@.activation_receipt),
        }),
    ensures
        quorum_laws::signed_at(
            handover.activation,
            receipts::activate_from_prev_message(
                takeover@.instance_id,
                cohort::config_id_of(quorum::entry_keys(handover.finalization)),
                cohort::config_id_of(quorum::entry_keys(handover.activation)),
                handover.ledgers_hash,
            ),
        ).contains(i),
{
}

// ---------------------------------------------------------------------------
// Ledgers
// ---------------------------------------------------------------------------

/// A ledger can be created exactly if it cannot be read yet. It then reads as an
/// empty ledger, and every other ledger reads as before.
pub proof fn law_created_ledger_reads_empty(
    endorser: &mut Endorser<Active>,
    created_id: u32,
    created: Result<Signature, CreateLedgerError>,
    before: &Endorser<Active>,
    after: &Endorser<Active>,
    ledger_id: u32,
    nonce: u64,
    read_before: Result<SignedLedgerBlock, LedgerNotFoundError>,
    read_after: Result<SignedLedgerBlock, LedgerNotFoundError>,
)
    requires
        call_ensures(Endorser::<Active>::create_ledger, (endorser, created_id), created),
        before@ == old(endorser)@,
        after@ == final(endorser)@,
        call_ensures(Endorser::<Active>::read_latest, (before, ledger_id, nonce), read_before),
        call_ensures(Endorser::<Active>::read_latest, (after, ledger_id, nonce), read_after),
    ensures
        ledger_id == created_id ==> (created is Ok <==> read_before is Err),
        ledger_id == created_id && created is Ok ==> {
            &&& read_after is Ok
            &&& read_after->Ok_0.block.index == 0
            &&& forall|i: int| 0 <= i < 32 ==> #[trigger] read_after->Ok_0.block.entry@[i] == 0
            &&& forall|i: int|
                0 <= i < 32 ==> #[trigger] read_after->Ok_0.block.hash_chain_tail@[i] == 0
        },
        ledger_id != created_id || created is Err ==> same_read(read_before, read_after),
        created matches Err(CreateLedgerError::AlreadyExists { ledger_id: id }) ==> id
            == created_id,
{
}

/// Whether two reads gave the same block, or both found no ledger.
pub open spec fn same_read(
    a: Result<SignedLedgerBlock, LedgerNotFoundError>,
    b: Result<SignedLedgerBlock, LedgerNotFoundError>,
) -> bool {
    match a {
        Ok(signed) => b matches Ok(other) && signed.block == other.block,
        Err(error) => b == Err::<SignedLedgerBlock, _>(error),
    }
}

/// An append succeeds exactly if the ledger can be read and the expected index
/// is the one after that of the block that is read. The block that it gives is
/// the next one for the entry, and is what is read afterwards; every other
/// ledger reads as before, and so do all if the append fails.
pub proof fn law_appended_block_is_read(
    endorser: &mut Endorser<Active>,
    appended_id: u32,
    entry: EntryContents,
    expected_index: u64,
    append_nonce: u64,
    appended: Result<AppendedLedgerBlock, AppendEntryError>,
    before: &Endorser<Active>,
    after: &Endorser<Active>,
    ledger_id: u32,
    nonce: u64,
    read_before: Result<SignedLedgerBlock, LedgerNotFoundError>,
    read_after: Result<SignedLedgerBlock, LedgerNotFoundError>,
    next: LedgerBlock,
)
    requires
        old(endorser)@.ledgers.contains_key(appended_id)
            ==> old(endorser)@.ledgers[appended_id].index < u64::MAX,
        call_ensures(
            Endorser::<Active>::append_entry,
            (endorser, appended_id, entry, expected_index, append_nonce),
            appended,
        ),
        before@ == old(endorser)@,
        after@ == final(endorser)@,
        call_ensures(Endorser::<Active>::read_latest, (before, ledger_id, nonce), read_before),
        call_ensures(Endorser::<Active>::read_latest, (after, ledger_id, nonce), read_after),
        read_before matches Ok(signed) ==> call_ensures(
            LedgerBlock::next,
            (&signed.block, entry),
            next,
        ),
    ensures
        ledger_id == appended_id ==> match read_before {
            Ok(signed) if signed.block.index + 1 == expected_index => {
                &&& appended is Ok
                &&& appended->Ok_0.block == next
                &&& read_after is Ok
                &&& read_after->Ok_0.block == next
            },
            Ok(signed) => appended matches Err(
                AppendEntryError::WrongIndex { expected, actual },
            ) && expected == expected_index && actual == signed.block.index + 1,
            Err(error) => appended == Err::<AppendedLedgerBlock, _>(
                AppendEntryError::LedgerNotFound(error),
            ),
        },
        ledger_id != appended_id || appended is Err ==> same_read(read_before, read_after),
        read_before matches Err(error) ==> error.ledger_id == ledger_id,
        read_after matches Ok(signed) ==> signed.nonce == nonce,
{
    if ledger_id == appended_id && appended is Ok && read_before is Ok {
        appended->Ok_0.block.lemma_ext(next);
    }
}

/// A ledger is full exactly if it reads as a block at the last index.
pub proof fn law_full_ledger_is_at_the_last_index(
    endorser: &Endorser<Active>,
    ledger_id: u32,
    full: bool,
    nonce: u64,
    read: Result<SignedLedgerBlock, LedgerNotFoundError>,
)
    requires
        call_ensures(Endorser::<Active>::is_full, (endorser, ledger_id), full),
        call_ensures(Endorser::<Active>::read_latest, (endorser, ledger_id, nonce), read),
    ensures
        full <==> read is Ok && read->Ok_0.block.index == 0xffff_ffff_ffff_ffff,
{
}

/// What an endorser is stays as it is when it creates ledgers and appends
/// entries: its key, its cohort, its instance and its activation receipt.
pub open spec fn same_identity(a: ActiveView, b: ActiveView) -> bool {
    &&& a.key == b.key
    &&& a.secret == b.secret
    &&& a.config == b.config
    &&& a.instance_id == b.instance_id
    &&& a.activation_receipt == b.activation_receipt
}

/// Creating a ledger leaves the endorser's identity as it is.
pub proof fn law_creating_a_ledger_keeps_the_identity(
    endorser: &mut Endorser<Active>,
    ledger_id: u32,
    created: Result<Signature, CreateLedgerError>,
)
    requires
        call_ensures(Endorser::<Active>::create_ledger, (endorser, ledger_id), created),
    ensures
        same_identity(old(endorser)@, final(endorser)@),
{
}

/// Appending an entry leaves the endorser's identity as it is.
pub proof fn law_appending_keeps_the_identity(
    endorser: &mut Endorser<Active>,
    ledger_id: u32,
    entry: EntryContents,
    expected_index: u64,
    nonce: u64,
    appended: Result<AppendedLedgerBlock, AppendEntryError>,
)
    requires
        old(endorser)@.ledgers.contains_key(ledger_id) ==> old(endorser)@.ledgers[ledger_id].index
            < u64::MAX,
        call_ensures(
            Endorser::<Active>::append_entry,
            (endorser, ledger_id, entry, expected_index, nonce),
            appended,
        ),
    ensures
        same_identity(old(endorser)@, final(endorser)@),
{
}

// ---------------------------------------------------------------------------
// Receipts
// ---------------------------------------------------------------------------

/// A receipt from a cohort of one is accepted for what it signs.
pub proof fn lemma_cohort_of_one(
    current: VerifierView,
    claim: Claim,
    ledger_id: u32,
    ledger_receipts: Seq<LedgerReceipt>,
    block: LedgerBlock,
)
    ensures
        current.config.len() == 1 && ledger_receipts.len() == 1 && ledger_receipts[0].key_index
            == 0 && claim.admits(block) && verification::vouches(
            current.config,
            ledger_receipts[0],
            block,
            current.claim_message(claim, ledger_id, block),
        ) ==> current.verdict(claim, ledger_id, ledger_receipts) == Ok::<_, VerifyError>(block),
{
    verification::law_verdict_is_the_majoritys(current, claim, ledger_id, ledger_receipts);
    if current.config.len() == 1 && ledger_receipts.len() == 1 && ledger_receipts[0].key_index == 0
        && claim.admits(block) && verification::vouches(
        current.config,
        ledger_receipts[0],
        block,
        current.claim_message(claim, ledger_id, block),
    ) {
        let message = current.claim_message(claim, ledger_id, block);
        assert(ledger_receipts.drop_last() =~= Seq::empty());
        assert(verification::index_fault(ledger_receipts, 1) is None) by {
            reveal_with_fuel(verification::index_fault, 2);
        }
        assert(verification::vouching_count(current.config, ledger_receipts, block, message)
            == 1) by {
            reveal_with_fuel(verification::vouching_count, 2);
        }
        assert(current.accepts(claim, ledger_id, ledger_receipts, block));
    }
}

/// The two receipts of an append count for what they are presented for to a
/// verifier with a key of the endorser at the place that the receipt refers to:
/// the append receipt for an append with the nonce, the entry receipt for an
/// entry.
pub proof fn law_append_receipts_count(
    endorser: &mut Endorser<Active>,
    ledger_id: u32,
    entry: EntryContents,
    expected_index: u64,
    nonce: u64,
    signed: AppendedLedgerBlock,
    keys: Seq<Seq<u8>>,
    ledger_receipts: Seq<LedgerReceipt>,
    i: int,
)
    requires
        old(endorser)@.ledgers.contains_key(ledger_id) ==> old(endorser)@.ledgers[ledger_id].index
            < u64::MAX,
        call_ensures(
            Endorser::<Active>::append_entry,
            (endorser, ledger_id, entry, expected_index, nonce),
            Ok::<_, AppendEntryError>(signed),
        ),
        0 <= i < ledger_receipts.len(),
        ledger_receipts[i].block == signed.block,
        keys[ledger_receipts[i].key_index as int] == old(endorser)@.key,
    ensures
        ledger_receipts[i].signature@ == signed.append_receipt@ ==> quorum_laws::vouching_at(
            keys,
            ledger_receipts,
            signed.block,
            receipts::append_message(old(endorser)@.instance_id, ledger_id, signed.block, nonce),
        ).contains(i),
        ledger_receipts[i].signature@ == signed.entry_receipt@ ==> quorum_laws::vouching_at(
            keys,
            ledger_receipts,
            signed.block,
            receipts::entry_message(old(endorser)@.instance_id, ledger_id, signed.block),
        ).contains(i),
{
}

/// The two receipts of a read count for what they are presented for in the same
/// way: the read receipt for a read with the nonce, the entry receipt for an
/// entry.
pub proof fn law_read_receipts_count(
    endorser: &Endorser<Active>,
    ledger_id: u32,
    nonce: u64,
    signed: SignedLedgerBlock,
    keys: Seq<Seq<u8>>,
    ledger_receipts: Seq<LedgerReceipt>,
    i: int,
)
    requires
        call_ensures(
            Endorser::<Active>::read_latest,
            (endorser, ledger_id, nonce),
            Ok::<_, LedgerNotFoundError>(signed),
        ),
        0 <= i < ledger_receipts.len(),
        ledger_receipts[i].block == signed.block,
        keys[ledger_receipts[i].key_index as int] == endorser@.key,
    ensures
        ledger_receipts[i].signature@ == signed.read_receipt@ ==> quorum_laws::vouching_at(
            keys,
            ledger_receipts,
            signed.block,
            receipts::read_message(endorser@.instance_id, ledger_id, signed.block, nonce),
        ).contains(i),
        ledger_receipts[i].signature@ == signed.entry_receipt@ ==> quorum_laws::vouching_at(
            keys,
            ledger_receipts,
            signed.block,
            receipts::entry_message(endorser@.instance_id, ledger_id, signed.block),
        ).contains(i),
{
}

// ---------------------------------------------------------------------------
// Finalization
// ---------------------------------------------------------------------------

/// Finalization keeps what the endorser is: its key and alias, its instance, its
/// activation receipt, and every block of its ledgers.
pub proof fn law_finalization_keeps_the_endorser(
    endorser: Endorser<Active>,
    next: &CohortConfig,
    finalized: Endorser<Finalized>,
    alias_before: u64,
    alias_after: u64,
    id_before: &ConfigId,
    id_after: &ConfigId,
    receipt_before: &Signature,
    receipt_after: &Signature,
    ledgers: &Ledgers,
    ledger_id: u32,
    nonce: u64,
    read: Result<SignedLedgerBlock, LedgerNotFoundError>,
    found: Option<&LedgerBlock>,
)
    requires
        call_ensures(Endorser::<Active>::finalize, (endorser, next), finalized),
        call_ensures(Endorser::<Active>::alias, (&endorser,), alias_before),
        call_ensures(Endorser::<Finalized>::alias, (&finalized,), alias_after),
        call_ensures(Endorser::<Active>::instance_id, (&endorser,), id_before),
        call_ensures(Endorser::<Finalized>::instance_id, (&finalized,), id_after),
        call_ensures(Endorser::<Active>::activation_receipt, (&endorser,), receipt_before),
        call_ensures(Endorser::<Finalized>::activation_receipt, (&finalized,), receipt_after),
        call_ensures(Endorser::<Finalized>::ledgers, (&finalized,), ledgers),
        call_ensures(Endorser::<Active>::read_latest, (&endorser, ledger_id, nonce), read),
        call_ensures(Ledgers::get, (ledgers, &ledger_id), found),
    ensures
        finalized@.key == endorser@.key,
        alias_after == alias_before,
        id_after@ == id_before@,
        receipt_after@ == receipt_before@,
        match read {
            Ok(signed) => found == Some(&signed.block),
            Err(_) => found is None,
        },
{
}

/// A finalization receipt counts for a takeover, by the cohort that it is in
/// favour of, of the instance and the ledgers with which the endorser finalized.
pub proof fn law_finalization_receipt_counts_for_the_takeover(
    endorser: Endorser<Active>,
    next: &CohortConfig,
    finalized: Endorser<Finalized>,
    receipt: &Signature,
    takeover: CohortTakeOver,
    i: int,
)
    requires
        call_ensures(Endorser::<Active>::finalize, (endorser, next), finalized),
        call_ensures(Endorser::<Finalized>::finalization_receipt, (&finalized,), receipt),
        takeover@.instance_id == endorser@.instance_id,
        quorum::entry_keys(takeover@.finalization) == endorser@.config,
        takeover@.ledgers == finalized@.ledgers,
        0 <= i < takeover@.finalization.len(),
        takeover@.finalization[i] == (ReceiptEntry {
            key: finalized@.key,
            receipt: Some(receipt@),
        }),
    ensures
        quorum_laws::signed_at(
            takeover@.finalization,
            quorum_laws::takeover_message(takeover, *next),
        ).contains(i),
{
}

/// A cohort of one can always hand its instance over: the next cohort can take
/// over with the finalization receipt, and with no less than the ledgers that
/// were finalized.
pub proof fn law_cohort_of_one_can_be_taken_over(
    endorser: Endorser<Active>,
    next: &CohortConfig,
    finalized: Endorser<Finalized>,
    takeover: &CohortTakeOver,
    valid: bool,
)
    requires
        call_ensures(Endorser::<Active>::finalize, (endorser, next), finalized),
        endorser@.config == seq![endorser@.key],
        takeover@.instance_id == endorser@.instance_id,
        takeover@.ledgers == finalized@.ledgers,
        takeover@.finalization == seq![
            ReceiptEntry {
                key: finalized@.key,
                receipt: Some(finalized@.finalization_receipt),
            },
        ],
        call_ensures(CohortTakeOver::verify, (takeover, next), valid),
    ensures
        valid,
{
    let entries = takeover@.finalization;
    assert(quorum::entry_keys(entries) =~= endorser@.config);
    let message = quorum_laws::takeover_message(*takeover, *next);
    quorum_laws::law_takeover_needs_more_than_half(takeover, next, valid);
    let signers = quorum_laws::signed_at(entries, message);
    quorum_laws::lemma_signed_at(entries, message);
    assert(signers.contains(0));
    assert(signers =~= set![0int]);
}

} // verus!
