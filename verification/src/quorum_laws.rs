//! What a quorum decides, stated on the receipts themselves.
//!
//! The laws speak of any call of the functions that check receipts, and say by
//! arithmetic on how many of the receipts are signatures what comes out.

use vstd::prelude::*;

use crate::cohort;
use crate::cohort::{CohortConfig, CohortData, ConfigId, EndorserData, InvalidConfigError};
use crate::crypto;
use crate::handover::{CohortHandover, HandoverError, QuorumError};
use crate::keys::{Sha256Digest, Signature};
use crate::ledger;
use crate::ledger::{EntryContents, LedgerBlock, Ledgers};
use crate::ledger_receipts::{LedgerReceipt, LedgerReceipts};
use crate::quorum;
use crate::quorum::ReceiptEntry;
use crate::receipts;
use crate::takeover::CohortTakeOver;
use crate::verification;
use crate::verification::{Claim, Verifier, VerifierView, VerifyError};

verus! {

// ---------------------------------------------------------------------------
// Majorities
// ---------------------------------------------------------------------------

/// A count is a majority exactly if it is at least half of the total, rounded
/// down, plus one: the number that errors report as required.
pub proof fn law_majority_reaches_the_required_count(count: usize, total: usize, majority: bool)
    requires
        count <= total,
        call_ensures(quorum::is_strict_majority, (count, total), majority),
    ensures
        majority <==> count >= total / 2 + 1,
        majority <==> count + count > total,
{
}

/// The positions of the entries whose receipt is a signature of the message
/// under the entry's key.
pub open spec fn signed_at(entries: Seq<ReceiptEntry>, message: Seq<u8>) -> Set<int> {
    Set::new(
        |i: int|
            {
                &&& 0 <= i < entries.len()
                &&& entries[i].receipt is Some
                &&& crypto::ecdsa_verifies(
                    entries[i].key,
                    message,
                    entries[i].receipt->Some_0,
                )
            },
    )
}

/// The count of valid receipts is that of the positions at which they are.
pub proof fn lemma_signed_at(entries: Seq<ReceiptEntry>, message: Seq<u8>)
    ensures
        signed_at(entries, message).finite(),
        signed_at(entries, message).len() == quorum::receipt_count(entries, message),
        signed_at(entries, message).len() <= entries.len(),
    decreases entries.len(),
{
    let all = signed_at(entries, message);
    if entries.len() == 0 {
        assert(all =~= Set::empty());
    } else {
        let last = entries.len() - 1;
        let earlier = signed_at(entries.drop_last(), message);
        lemma_signed_at(entries.drop_last(), message);
        assert forall|i: int| earlier.contains(i) implies #[trigger] all.contains(i) by {
            assert(entries.drop_last()[i] == entries[i]);
        }
        if quorum::holds_receipt(entries.last(), message) {
            assert(all =~= earlier.insert(last));
        } else {
            assert(all =~= earlier);
        }
    }
}

/// A takeover is accepted for a configuration exactly if more than half of the
/// finalized cohort signed finalization in favour of it, with the ledgers that
/// are taken over.
pub proof fn law_takeover_needs_more_than_half(
    takeover: &CohortTakeOver,
    config: &CohortConfig,
    valid: bool,
)
    requires
        call_ensures(CohortTakeOver::verify, (takeover, config), valid),
    ensures
        ({
            let entries = takeover@.finalization;
            let signers = signed_at(
                entries,
                receipts::finalize_message(
                    takeover@.instance_id,
                    cohort::config_id_of(quorum::entry_keys(entries)),
                    cohort::config_id_of(config.key_seq()),
                    ledger::ledgers_hash(takeover@.ledgers),
                ),
            );
            valid <==> signers.len() + signers.len() > entries.len()
        }),
{
    lemma_signed_at(
        takeover@.finalization,
        receipts::finalize_message(
            takeover@.instance_id,
            cohort::config_id_of(quorum::entry_keys(takeover@.finalization)),
            cohort::config_id_of(config.key_seq()),
            ledger::ledgers_hash(takeover@.ledgers),
        ),
    );
}

/// The message that finalization signs in a takeover for a configuration.
pub open spec fn takeover_message(takeover: CohortTakeOver, config: CohortConfig) -> Seq<u8> {
    receipts::finalize_message(
        takeover@.instance_id,
        cohort::config_id_of(quorum::entry_keys(takeover@.finalization)),
        cohort::config_id_of(config.key_seq()),
        ledger::ledgers_hash(takeover@.ledgers),
    )
}

/// Two successors cannot both take over: if no endorser of a cohort signed
/// finalization in favour of both, at most one of two takeovers from the cohort
/// is accepted.
pub proof fn law_one_takeover_is_accepted(
    first: &CohortTakeOver,
    first_config: &CohortConfig,
    first_valid: bool,
    second: &CohortTakeOver,
    second_config: &CohortConfig,
    second_valid: bool,
)
    requires
        call_ensures(CohortTakeOver::verify, (first, first_config), first_valid),
        call_ensures(CohortTakeOver::verify, (second, second_config), second_valid),
        first@.finalization.len() == second@.finalization.len(),
    ensures
        signed_at(first@.finalization, takeover_message(*first, *first_config)).disjoint(
            signed_at(second@.finalization, takeover_message(*second, *second_config)),
        ) ==> !(first_valid && second_valid),
{
    let n = first@.finalization.len();
    let a = signed_at(first@.finalization, takeover_message(*first, *first_config));
    let b = signed_at(second@.finalization, takeover_message(*second, *second_config));
    lemma_signed_at(first@.finalization, takeover_message(*first, *first_config));
    lemma_signed_at(second@.finalization, takeover_message(*second, *second_config));
    if a.disjoint(b) {
        let all = vstd::set_lib::set_int_range(0, n as int);
        vstd::set_lib::lemma_int_range(0, n as int);
        vstd::set_lib::lemma_set_disjoint_lens(a, b);
        assert((a + b).subset_of(all));
        vstd::set_lib::lemma_len_subset(a + b, all);
    }
}

/// A verifier follows a handover exactly if it is from the cohort that it
/// trusts, more than half of that cohort signed finalization, and more than half
/// of the incoming cohort signed activation; otherwise it stays as it was, and
/// the error gives the number of signatures and that which is required.
pub proof fn law_handover_needs_more_than_half_twice(
    current: &mut Verifier,
    handover: CohortHandover,
    applied: Result<(), HandoverError>,
)
    requires
        call_ensures(Verifier::apply_handover, (current, handover), applied),
    ensures
        ({
            let instance_id = old(current)@.instance_id;
            let outgoing = handover@.finalization;
            let incoming = handover@.activation;
            let outgoing_id = cohort::config_id_of(quorum::entry_keys(outgoing));
            let incoming_id = cohort::config_id_of(quorum::entry_keys(incoming));
            let finalized = signed_at(
                outgoing,
                receipts::finalize_message(
                    instance_id,
                    outgoing_id,
                    incoming_id,
                    handover@.ledgers_hash,
                ),
            ).len();
            let activated = signed_at(
                incoming,
                receipts::activate_from_prev_message(
                    instance_id,
                    outgoing_id,
                    incoming_id,
                    handover@.ledgers_hash,
                ),
            ).len();
            let from_trusted = outgoing_id == cohort::config_id_of(old(current)@.config);
            &&& applied is Ok <==> from_trusted && finalized + finalized > outgoing.len()
                && activated + activated > incoming.len()
            &&& applied is Ok ==> {
                &&& final(current)@.config.len() == incoming.len()
                &&& forall|i: int|
                    0 <= i < incoming.len() ==> #[trigger] final(current)@.config[i]
                        == incoming[i].key
                &&& final(current)@.instance_id == instance_id
            }
            &&& applied is Err ==> final(current)@ == old(current)@
            &&& applied == Err::<(), _>(HandoverError::FinalizationConfigMismatch)
                <==> !from_trusted
            &&& applied matches Err(HandoverError::FinalizationQuorumNotMet(error)) ==> {
                &&& from_trusted
                &&& error.valid == finalized as usize
                &&& error.required == (outgoing.len() / 2 + 1) as usize
                &&& finalized < outgoing.len() / 2 + 1
            }
            &&& applied matches Err(HandoverError::ActivationQuorumNotMet(error)) ==> {
                &&& from_trusted
                &&& finalized >= outgoing.len() / 2 + 1
                &&& error.valid == activated as usize
                &&& error.required == (incoming.len() / 2 + 1) as usize
                &&& activated < incoming.len() / 2 + 1
            }
        }),
{
    let instance_id = old(current)@.instance_id;
    lemma_signed_at(handover@.finalization, handover@.finalize_message(instance_id));
    lemma_signed_at(handover@.activation, handover@.activate_message(instance_id));
}

/// Endorsers and clients agree on handovers: if a client follows a handover,
/// then the incoming endorsers could activate from its finalization receipts.
pub proof fn law_followed_handovers_can_be_taken_over(
    current: &mut Verifier,
    handover: CohortHandover,
    takeover: &CohortTakeOver,
    config: &CohortConfig,
    valid: bool,
)
    requires
        call_ensures(Verifier::apply_handover, (current, handover), Ok::<(), HandoverError>(())),
        call_ensures(CohortTakeOver::verify, (takeover, config), valid),
        takeover@.instance_id == old(current)@.instance_id,
        takeover@.finalization == handover@.finalization,
        ledger::ledgers_hash(takeover@.ledgers) == handover@.ledgers_hash,
        config.key_seq() == quorum::entry_keys(handover@.activation),
    ensures
        valid,
{
}

/// Counting receipts counts the entries whose receipt is a signature of the
/// message.
pub proof fn law_receipts_are_counted(
    entries: &[EndorserData<Signature>],
    message: &[u8],
    count: usize,
)
    requires
        call_ensures(quorum::count_receipts, (entries, message), count),
    ensures
        count == signed_at(quorum::receipt_entries(entries@), message@).len(),
{
    lemma_signed_at(quorum::receipt_entries(entries@), message@);
}

/// Verifying a handover for the instance of a client comes to what following it
/// comes to for the client, if it is from the cohort that the client trusts.
pub proof fn law_handover_is_verified_as_it_is_followed(
    current: &mut Verifier,
    handover: CohortHandover,
    applied: Result<(), HandoverError>,
    instance_id: &ConfigId,
    verified: Result<CohortConfig, HandoverError>,
)
    requires
        call_ensures(Verifier::apply_handover, (current, handover), applied),
        instance_id@ == old(current)@.instance_id,
        call_ensures(CohortHandover::verify, (handover, instance_id), verified),
    ensures
        applied == Err::<(), _>(HandoverError::FinalizationConfigMismatch) || match verified {
            Ok(config) => applied is Ok && final(current)@.config == config.key_seq(),
            Err(error) => applied == Err::<(), _>(error),
        },
        verified matches Ok(config) ==> {
            &&& config.key_seq().len() == handover@.activation.len()
            &&& forall|i: int|
                0 <= i < handover@.activation.len() ==> #[trigger] config.key_seq()[i]
                    == handover@.activation[i].key
        },
{
}

/// A new client trusts the cohort that it is given, and takes the cohort's ID for
/// that of the instance unless it is given another one.
pub proof fn law_new_client_trusts_its_cohort(
    config: CohortConfig,
    id: ConfigId,
    first: Verifier,
    instance_id: ConfigId,
    later: Verifier,
)
    requires
        call_ensures(CohortConfig::config_id, (&config,), id),
        call_ensures(Verifier::new, (config,), first),
        call_ensures(Verifier::new_with_instance_id, (config, instance_id), later),
    ensures
        first@.config == config.key_seq(),
        first@.instance_id == id@,
        later@.config == config.key_seq(),
        later@.instance_id == instance_id@,
{
}

/// A handover can be made exactly if the entries of both cohorts make up one, and
/// holds the entries in order, with the digest that is given.
pub proof fn law_handover_is_made_of_two_cohorts(
    finalization: Vec<EndorserData<Signature>>,
    activation: Vec<EndorserData<Signature>>,
    ledgers_hash: Sha256Digest,
    handover: Result<CohortHandover, InvalidConfigError>,
    outgoing: Result<CohortData<Signature>, InvalidConfigError>,
    incoming: Result<CohortData<Signature>, InvalidConfigError>,
)
    requires
        call_ensures(
            CohortHandover::try_new,
            (finalization, activation, ledgers_hash),
            handover,
        ),
        call_ensures(CohortData::<Signature>::try_new, (finalization,), outgoing),
        call_ensures(CohortData::<Signature>::try_new, (activation,), incoming),
    ensures
        handover is Ok <==> outgoing is Ok && incoming is Ok,
        handover matches Ok(h) ==> {
            &&& holds_entries(h@.finalization, finalization@)
            &&& holds_entries(h@.activation, activation@)
            &&& h@.ledgers_hash == ledgers_hash@
        },
{
}

/// Whether entries have the keys and the receipts of a cohort's data, in order.
pub open spec fn holds_entries(
    entries: Seq<ReceiptEntry>,
    data: Seq<EndorserData<Signature>>,
) -> bool {
    &&& entries.len() == data.len()
    &&& forall|i: int|
        0 <= i < data.len() ==> entries[i].key == (#[trigger] data[i]).endorser_key@
            && match data[i].maybe_receipt {
            Some(receipt) => entries[i].receipt == Some(receipt@),
            None => entries[i].receipt is None,
        }
}

/// A takeover holds what it is made of, and its previous configuration is that of
/// the finalized cohort.
pub proof fn law_takeover_is_what_it_is_made_of(
    instance_id: ConfigId,
    finalization: CohortData<Signature>,
    ledgers: Ledgers,
    takeover: CohortTakeOver,
    finalized_id: ConfigId,
    prev_id: ConfigId,
    parts: (ConfigId, CohortData<Signature>, Ledgers),
)
    requires
        call_ensures(CohortTakeOver::new, (instance_id, finalization, ledgers), takeover),
        call_ensures(CohortData::<Signature>::config_id, (&finalization,), finalized_id),
        call_ensures(CohortTakeOver::prev_config_id, (&takeover,), prev_id),
        call_ensures(CohortTakeOver::into_parts, (takeover,), parts),
    ensures
        takeover@.instance_id == instance_id@,
        holds_entries(takeover@.finalization, finalization@),
        takeover@.ledgers == ledgers@,
        prev_id@ == finalized_id@,
        parts.0@ == instance_id@,
        quorum::receipt_entries(parts.1@) == takeover@.finalization,
        parts.2@ == ledgers@,
{
    quorum::lemma_entry_keys(finalization@);
}

// ---------------------------------------------------------------------------
// Ledger receipts
// ---------------------------------------------------------------------------

/// The positions of the receipts that are for the block and hold a signature of
/// the message under the key that they refer to.
pub open spec fn vouching_at(
    keys: Seq<Seq<u8>>,
    ledger_receipts: Seq<LedgerReceipt>,
    block: LedgerBlock,
    message: Seq<u8>,
) -> Set<int> {
    Set::new(
        |i: int|
            {
                &&& 0 <= i < ledger_receipts.len()
                &&& ledger_receipts[i].block == block
                &&& crypto::ecdsa_verifies(
                    keys[ledger_receipts[i].key_index as int],
                    message,
                    ledger_receipts[i].signature@,
                )
            },
    )
}

/// The count of the receipts that vouch is that of the positions at which they
/// are.
proof fn lemma_vouching_at(
    keys: Seq<Seq<u8>>,
    ledger_receipts: Seq<LedgerReceipt>,
    block: LedgerBlock,
    message: Seq<u8>,
)
    ensures
        vouching_at(keys, ledger_receipts, block, message).finite(),
        vouching_at(keys, ledger_receipts, block, message).len() == verification::vouching_count(
            keys,
            ledger_receipts,
            block,
            message,
        ),
    decreases ledger_receipts.len(),
{
    let all = vouching_at(keys, ledger_receipts, block, message);
    if ledger_receipts.len() == 0 {
        assert(all =~= Set::empty());
    } else {
        let last = ledger_receipts.len() - 1;
        let earlier = vouching_at(keys, ledger_receipts.drop_last(), block, message);
        lemma_vouching_at(keys, ledger_receipts.drop_last(), block, message);
        assert forall|i: int| earlier.contains(i) implies #[trigger] all.contains(i) by {
            assert(ledger_receipts.drop_last()[i] == ledger_receipts[i]);
        }
        if verification::vouches(keys, ledger_receipts.last(), block, message) {
            assert(all =~= earlier.insert(last));
        } else {
            assert(all =~= earlier);
        }
    }
}

/// Whether the first `n` receipts refer to keys of a cohort of the given size,
/// each to another one.
pub open spec fn usable_up_to(
    ledger_receipts: Seq<LedgerReceipt>,
    n: int,
    cohort_size: nat,
) -> bool {
    &&& forall|i: int|
        0 <= i < n ==> (#[trigger] ledger_receipts[i]).key_index < cohort_size
    &&& forall|i: int, j: int|
        0 <= i < j < n ==> ledger_receipts[i].key_index != ledger_receipts[j].key_index
}

/// A fault of the key indices is that of the first receipt that has one.
proof fn lemma_index_fault(ledger_receipts: Seq<LedgerReceipt>, n: int, cohort_size: nat)
    requires
        0 <= n <= ledger_receipts.len(),
    ensures
        verification::index_fault(ledger_receipts.take(n), cohort_size) is None
            <==> usable_up_to(ledger_receipts, n, cohort_size),
        verification::index_fault(ledger_receipts.take(n), cohort_size) matches Some(fault)
            ==> exists|i: int|
            {
                &&& 0 <= i < n
                &&& #[trigger] usable_up_to(ledger_receipts, i, cohort_size)
                &&& is_fault(ledger_receipts, i, cohort_size, fault)
            },
    decreases n,
{
    if n > 0 {
        let taken = ledger_receipts.take(n);
        let last = n - 1;
        lemma_index_fault(ledger_receipts, last, cohort_size);
        assert(taken.drop_last() =~= ledger_receipts.take(last));
        assert(taken.last() == ledger_receipts[last]);
        let earlier = ledger_receipts.take(last);
        let key_index = ledger_receipts[last].key_index;
        if verification::uses_key(earlier, key_index as int) {
            let j = choose|j: int|
                0 <= j < earlier.len() && (#[trigger] earlier[j]).key_index == key_index;
            assert(ledger_receipts[j].key_index == key_index);
        } else {
            assert forall|j: int| 0 <= j < last implies ledger_receipts[j].key_index
                != key_index by {
                assert(earlier[j] == ledger_receipts[j]);
            }
        }
        if verification::index_fault(earlier, cohort_size) is None {
            assert(usable_up_to(ledger_receipts, last, cohort_size));
        }
    } else {
        assert(ledger_receipts.take(0) =~= Seq::empty());
    }
}

/// Whether a fault is that of the receipt at a position: its key index is out of
/// bounds, or is within them and was used before.
pub open spec fn is_fault(
    ledger_receipts: Seq<LedgerReceipt>,
    i: int,
    cohort_size: nat,
    fault: VerifyError,
) -> bool {
    if ledger_receipts[i].key_index >= cohort_size {
        fault == VerifyError::KeyIndexOutOfBounds
    } else {
        &&& fault == VerifyError::DuplicateKeyIndex
        &&& exists|j: int|
            0 <= j < i && (#[trigger] ledger_receipts[j]).key_index
                == ledger_receipts[i].key_index
    }
}

/// What receipts come to, by the signatures among them: nothing without
/// receipts, the fault of the first receipt whose key index has one, the block
/// for which more than half of the cohort signed, or else how many signed for
/// the first receipt's block and how many are required.
pub open spec fn decided_by_signatures(
    verified: Result<LedgerBlock, VerifyError>,
    keys: Seq<Seq<u8>>,
    ledger_receipts: Seq<LedgerReceipt>,
    first: LedgerBlock,
    admits: spec_fn(LedgerBlock) -> bool,
    message: spec_fn(LedgerBlock) -> Seq<u8>,
) -> bool {
    let n = ledger_receipts.len() as int;
    if n == 0 {
        verified == Err::<LedgerBlock, _>(VerifyError::NoReceipts)
    } else if !usable_up_to(ledger_receipts, n, keys.len()) {
        exists|i: int|
            {
                &&& 0 <= i < n
                &&& #[trigger] usable_up_to(ledger_receipts, i, keys.len())
                &&& verified matches Err(fault)
                &&& is_fault(ledger_receipts, i, keys.len(), fault)
            }
    } else {
        &&& forall|block: LedgerBlock|
            verified == Ok::<_, VerifyError>(block) <==> admits(block) && {
                let signed = #[trigger] vouching_at(
                    keys,
                    ledger_receipts,
                    block,
                    message(block),
                ).len();
                signed + signed > keys.len()
            }
        &&& verified matches Err(error) ==> error == VerifyError::QuorumNotMet(
            QuorumError {
                valid: vouching_at(
                    keys,
                    ledger_receipts,
                    first,
                    message(first),
                ).len() as usize,
                required: (keys.len() / 2 + 1) as usize,
            },
        )
    }
}

/// The verdict on receipts for a claim is decided by the signatures.
proof fn lemma_verdict(
    current: VerifierView,
    claim: Claim,
    ledger_id: u32,
    ledger_receipts: Seq<LedgerReceipt>,
    admits: spec_fn(LedgerBlock) -> bool,
    message: spec_fn(LedgerBlock) -> Seq<u8>,
)
    requires
        forall|block: LedgerBlock| admits(block) == #[trigger] claim.admits(block),
        forall|block: LedgerBlock|
            message(block) == #[trigger] current.claim_message(claim, ledger_id, block),
    ensures
        decided_by_signatures(
            current.verdict(claim, ledger_id, ledger_receipts),
            current.config,
            ledger_receipts,
            claim.candidate_for(ledger_receipts[0].block),
            admits,
            message,
        ),
{
    let n = ledger_receipts.len() as int;
    let keys = current.config;
    assert(ledger_receipts.take(n) =~= ledger_receipts);
    lemma_index_fault(ledger_receipts, n, keys.len());
    verification::law_verdict_is_the_majoritys(current, claim, ledger_id, ledger_receipts);
    if n > 0 && usable_up_to(ledger_receipts, n, keys.len()) {
        assert forall|block: LedgerBlock|
            current.verdict(claim, ledger_id, ledger_receipts) == Ok::<_, VerifyError>(block)
                <==> admits(block) && {
                let signed = #[trigger] vouching_at(
                    keys,
                    ledger_receipts,
                    block,
                    message(block),
                ).len();
                signed + signed > keys.len()
            } by {
            assert(message(block) == current.claim_message(claim, ledger_id, block));
            assert(admits(block) == claim.admits(block));
            lemma_vouching_at(keys, ledger_receipts, block, message(block));
            assert(current.accepts(claim, ledger_id, ledger_receipts, block)
                == (current.verdict(claim, ledger_id, ledger_receipts) == Ok::<_, VerifyError>(
                block,
            )));
        }
        let first = claim.candidate_for(ledger_receipts[0].block);
        assert(message(first) == current.claim_message(claim, ledger_id, first));
        lemma_vouching_at(keys, ledger_receipts, first, message(first));
    }
}

/// A read is accepted exactly if more than half of the cohort signed the block
/// for the nonce.
pub proof fn law_reads_are_decided_by_signatures(
    current: &Verifier,
    ledger_receipts: &LedgerReceipts,
    nonce: u64,
    ledger_id: u32,
    verified: Result<LedgerBlock, VerifyError>,
)
    requires
        call_ensures(
            Verifier::verify_read_latest,
            (current, ledger_receipts, nonce, ledger_id),
            verified,
        ),
    ensures
        decided_by_signatures(
            verified,
            current@.config,
            ledger_receipts@,
            ledger_receipts@[0].block,
            |block: LedgerBlock| true,
            |block: LedgerBlock|
                receipts::read_message(current@.instance_id, ledger_id, block, nonce),
        ),
{
    let claim = Claim::Read { nonce };
    let message = |block: LedgerBlock|
        receipts::read_message(current@.instance_id, ledger_id, block, nonce);
    lemma_verdict(
        current@,
        claim,
        ledger_id,
        ledger_receipts@,
        |block: LedgerBlock| true,
        message,
    );
}

/// An append is accepted exactly if more than half of the cohort signed a block
/// with the client's own entry for its own nonce.
pub proof fn law_appends_are_decided_by_signatures(
    current: &Verifier,
    ledger_receipts: &LedgerReceipts,
    entry: &EntryContents,
    nonce: u64,
    ledger_id: u32,
    verified: Result<LedgerBlock, VerifyError>,
)
    requires
        call_ensures(
            Verifier::verify_append,
            (current, ledger_receipts, entry, nonce, ledger_id),
            verified,
        ),
    ensures
        decided_by_signatures(
            verified,
            current@.config,
            ledger_receipts@,
            LedgerBlock { entry: *entry, ..ledger_receipts@[0].block },
            |block: LedgerBlock| block.entry == *entry,
            |block: LedgerBlock|
                receipts::append_message(current@.instance_id, ledger_id, block, nonce),
        ),
{
    let claim = Claim::Append { entry: *entry, nonce };
    let message = |block: LedgerBlock|
        receipts::append_message(current@.instance_id, ledger_id, block, nonce);
    lemma_verdict(
        current@,
        claim,
        ledger_id,
        ledger_receipts@,
        |block: LedgerBlock| block.entry == *entry,
        message,
    );
}

/// What receipts for an entry come to, by the signatures among them.
pub open spec fn entry_decided_by_signatures(
    signed: Result<LedgerBlock, VerifyError>,
    current: VerifierView,
    ledger_id: u32,
    ledger_receipts: Seq<LedgerReceipt>,
) -> bool {
    decided_by_signatures(
        signed,
        current.config,
        ledger_receipts,
        ledger_receipts[0].block,
        |block: LedgerBlock| true,
        |block: LedgerBlock| receipts::entry_message(current.instance_id, ledger_id, block),
    )
}

/// An entry is accepted exactly if more than half of the cohort signed the block
/// and the block is at the requested index; a block at another index is reported
/// with its index.
pub proof fn law_entries_are_decided_by_signatures(
    current: &Verifier,
    ledger_receipts: &LedgerReceipts,
    requested_index: u64,
    ledger_id: u32,
    verified: Result<LedgerBlock, VerifyError>,
)
    requires
        call_ensures(
            Verifier::verify_entry,
            (current, ledger_receipts, requested_index, ledger_id),
            verified,
        ),
    ensures
        verified matches Ok(block) ==> block.index == requested_index,
        verified matches Err(VerifyError::UnexpectedIndex { expected, actual }) ==> {
            &&& expected == requested_index
            &&& actual != requested_index
        },
        exists|signed: Result<LedgerBlock, VerifyError>|
            {
                &&& #[trigger] entry_decided_by_signatures(
                    signed,
                    current@,
                    ledger_id,
                    ledger_receipts@,
                )
                &&& match verified {
                    Ok(block) => signed == Ok::<_, VerifyError>(block),
                    Err(VerifyError::UnexpectedIndex { actual, .. }) => signed matches Ok(block)
                        && block.index == actual,
                    Err(error) => signed == Err::<LedgerBlock, _>(error),
                }
            },
{
    let message = |block: LedgerBlock|
        receipts::entry_message(current@.instance_id, ledger_id, block);
    lemma_verdict(
        current@,
        Claim::Entry,
        ledger_id,
        ledger_receipts@,
        |block: LedgerBlock| true,
        message,
    );
    assert(entry_decided_by_signatures(
        current@.verdict(Claim::Entry, ledger_id, ledger_receipts@),
        current@,
        ledger_id,
        ledger_receipts@,
    ));
}

} // verus!
