//! How the requests to the endorser service relate to one another, and what
//! clients make of the responses.

use vstd::prelude::*;

use crate::cohort::CohortConfig;
use crate::crypto;
use crate::endorser;
use crate::endorser::{ActivationError, Active, Endorser, Uninitialized};
use crate::endorser_laws;
use crate::ledger::{EntryContents, LedgerBlock};
use crate::ledger_receipts::LedgerReceipts;
use crate::messages::{
    ActivateEndorserRequest, ActivateEndorserResponse, AppendEntryRequest, AppendEntryResponse,
    CreateLedgerRequest, CreateLedgerResponse, EndorserProto, EndorserStateProto,
    FinalizeEndorserRequest, FinalizeEndorserResponse, GetEndorserRequest, LedgerBlockProto,
    ListEndorsersRequest, ListEndorsersResponse, ReadLatestRequest, ReadLatestResponse,
};
use crate::proto_mapping;
use crate::quorum;
use crate::quorum::ReceiptEntry;
use crate::quorum_laws;
use crate::receipts;
use crate::recovery_laws;
use crate::service::{EndorserService, ServiceView};
use crate::status::{Status, StatusCode};
use crate::takeover::CohortTakeOver;
use crate::verification::{Claim, Verifier, VerifyError};

verus! {

// ---------------------------------------------------------------------------
// Blocks in responses
// ---------------------------------------------------------------------------

/// Whether a message field holds a block: its entry, its index and its tail.
pub open spec fn carries(proto: Option<LedgerBlockProto>, block: LedgerBlock) -> bool {
    match proto {
        Some(b) => b.entry@ == block.entry@ && b.index == block.index && b.hash_chain_tail@
            == block.hash_chain_tail@,
        None => false,
    }
}

/// A message field holds at most one block.
proof fn lemma_carries_one(proto: Option<LedgerBlockProto>, a: LedgerBlock, b: LedgerBlock)
    requires
        carries(proto, a),
        carries(proto, b),
    ensures
        a == b,
{
    a.lemma_ext(b);
}

/// Whether a receipt is presented by the only endorser of a cohort, for the
/// block of a response, with the signature bytes of the response.
pub open spec fn presents(
    ledger_receipts: LedgerReceipts,
    proto: Option<LedgerBlockProto>,
    signature: Seq<u8>,
) -> bool {
    &&& ledger_receipts@.len() == 1
    &&& ledger_receipts@[0].key_index == 0
    &&& carries(proto, ledger_receipts@[0].block)
    &&& ledger_receipts@[0].signature@ == signature
}

/// Whether a verifier trusts the active endorser at a position as a cohort of
/// one, for its instance.
pub open spec fn trusts_only(
    current: &Verifier,
    service: ServiceView,
    position: int,
) -> bool {
    &&& current@.config.len() == 1
    &&& current@.config[0] == service.active[position].endorser.key
    &&& current@.instance_id == service.active[position].endorser.instance_id
}

// ---------------------------------------------------------------------------
// Appends and reads, end to end
// ---------------------------------------------------------------------------

/// After an append, a client that trusts the endorser as a cohort of one comes
/// to the response's block by verifying the entry receipt as an entry, and by
/// verifying the tip receipt as an append of its own entry with its own nonce.
pub proof fn law_append_response_is_accepted(
    to: &mut EndorserService,
    request: AppendEntryRequest,
    response: AppendEntryResponse,
    position: int,
    client: &Verifier,
    entry: &EntryContents,
    entry_receipts: &LedgerReceipts,
    tip_receipts: &LedgerReceipts,
    as_entry: Result<LedgerBlock, VerifyError>,
    as_append: Result<LedgerBlock, VerifyError>,
)
    requires
        !old(to)@.appends_to_full(request),
        call_ensures(EndorserService::append_entry, (to, request), Ok::<_, Status>(response)),
        recovery_laws::is_active(old(to)@, request.endorser_alias, position),
        trusts_only(client, old(to)@, position),
        entry@ == request.entry@,
        presents(*entry_receipts, response.block, response.entry_receipt@),
        presents(*tip_receipts, response.block, response.tip_receipt@),
        call_ensures(
            Verifier::verify_entry,
            (client, entry_receipts, entry_receipts@[0].block.index, request.ledger_id),
            as_entry,
        ),
        call_ensures(
            Verifier::verify_append,
            (client, tip_receipts, entry, request.nonce, request.ledger_id),
            as_append,
        ),
    ensures
        as_entry is Ok && carries(response.block, as_entry->Ok_0),
        as_append is Ok && carries(response.block, as_append->Ok_0),
{
    let service = old(to)@;
    let after = final(to)@;
    recovery_laws::lemma_only(service.active_keys(), request.endorser_alias, position);
    let block = after.active[position].endorser.ledgers[request.ledger_id];
    lemma_carries_one(response.block, block, entry_receipts@[0].block);
    lemma_carries_one(response.block, block, tip_receipts@[0].block);
    let claim = Claim::Append { entry: *entry, nonce: request.nonce };
    crate::bytes::lemma_array_ext(block.entry, *entry);
    endorser_laws::lemma_cohort_of_one(
        client@,
        Claim::Entry,
        request.ledger_id,
        entry_receipts@,
        block,
    );
    endorser_laws::lemma_cohort_of_one(
        client@,
        claim,
        request.ledger_id,
        tip_receipts@,
        block,
    );
}

/// After a read, a client that trusts the endorser as a cohort of one comes to
/// the response's block by verifying the entry receipt as an entry, and by
/// verifying the tip receipt as a read with its own nonce.
pub proof fn law_read_response_is_accepted(
    to: &EndorserService,
    request: ReadLatestRequest,
    response: ReadLatestResponse,
    position: int,
    client: &Verifier,
    entry_receipts: &LedgerReceipts,
    tip_receipts: &LedgerReceipts,
    as_entry: Result<LedgerBlock, VerifyError>,
    as_read: Result<LedgerBlock, VerifyError>,
)
    requires
        call_ensures(EndorserService::read_latest, (to, request), Ok::<_, Status>(response)),
        recovery_laws::is_active(to@, request.endorser_alias, position),
        trusts_only(client, to@, position),
        presents(*entry_receipts, response.block, response.entry_receipt@),
        presents(*tip_receipts, response.block, response.tip_receipt@),
        call_ensures(
            Verifier::verify_entry,
            (client, entry_receipts, entry_receipts@[0].block.index, request.ledger_id),
            as_entry,
        ),
        call_ensures(
            Verifier::verify_read_latest,
            (client, tip_receipts, request.nonce, request.ledger_id),
            as_read,
        ),
    ensures
        as_entry is Ok && carries(response.block, as_entry->Ok_0),
        as_read is Ok && carries(response.block, as_read->Ok_0),
{
    let service = to@;
    recovery_laws::lemma_only(service.active_keys(), request.endorser_alias, position);
    let block = service.active[position].endorser.ledgers[request.ledger_id];
    lemma_carries_one(response.block, block, entry_receipts@[0].block);
    lemma_carries_one(response.block, block, tip_receipts@[0].block);
    endorser_laws::lemma_cohort_of_one(
        client@,
        Claim::Entry,
        request.ledger_id,
        entry_receipts@,
        block,
    );
    endorser_laws::lemma_cohort_of_one(
        client@,
        Claim::Read { nonce: request.nonce },
        request.ledger_id,
        tip_receipts@,
        block,
    );
}

/// Whether two responses to reads hold the same block, or are both failures.
pub open spec fn reads_the_same(
    a: Result<ReadLatestResponse, Status>,
    b: Result<ReadLatestResponse, Status>,
) -> bool {
    match (a, b) {
        (Ok(first), Ok(second)) => forall|block: LedgerBlock| #[trigger]
            carries(first.block, block) <==> carries(second.block, block),
        (Err(first), Err(second)) => first@ == second@,
        _ => false,
    }
}

/// After an append, the ledger reads as the block of the response. That block
/// has the request's entry, the index that the request expected, and as its tail
/// the digest of the tail and the entry that were read before.
pub proof fn law_appended_block_is_read_back(
    to: &mut EndorserService,
    request: AppendEntryRequest,
    response: AppendEntryResponse,
    position: int,
    before: &EndorserService,
    after: &EndorserService,
    nonce: u64,
    read_before: Result<ReadLatestResponse, Status>,
    read_after: Result<ReadLatestResponse, Status>,
)
    requires
        !old(to)@.appends_to_full(request),
        call_ensures(EndorserService::append_entry, (to, request), Ok::<_, Status>(response)),
        recovery_laws::is_active(old(to)@, request.endorser_alias, position),
        before@ == old(to)@,
        after@ == final(to)@,
        nonce != 0,
        call_ensures(
            EndorserService::read_latest,
            (
                before,
                ReadLatestRequest {
                    endorser_alias: request.endorser_alias,
                    ledger_id: request.ledger_id,
                    nonce,
                },
            ),
            read_before,
        ),
        call_ensures(
            EndorserService::read_latest,
            (
                after,
                ReadLatestRequest {
                    endorser_alias: request.endorser_alias,
                    ledger_id: request.ledger_id,
                    nonce,
                },
            ),
            read_after,
        ),
    ensures
        read_before is Ok,
        read_after is Ok,
        response.block is Some,
        read_before->Ok_0.block is Some,
        read_after->Ok_0.block is Some,
        ({
            let old_block = read_before->Ok_0.block->Some_0;
            let new_block = response.block->Some_0;
            let read_block = read_after->Ok_0.block->Some_0;
            &&& new_block.entry@ == request.entry@
            &&& new_block.index == request.expected_index
            &&& new_block.index == old_block.index + 1
            &&& new_block.hash_chain_tail@ == crypto::sha256_digest(
                old_block.hash_chain_tail@ + old_block.entry@,
            )
            &&& read_block.entry@ == new_block.entry@
            &&& read_block.index == new_block.index
            &&& read_block.hash_chain_tail@ == new_block.hash_chain_tail@
        }),
{
    let service = old(to)@;
    let later = final(to)@;
    let alias = request.endorser_alias;
    recovery_laws::lemma_only(service.active_keys(), alias, position);
    assert(later.active_keys() =~= service.active_keys());
}

/// An append affects no other ledger and no other endorser; neither does the
/// creation of a ledger. A request that fails affects nothing.
pub proof fn law_other_ledgers_read_as_before(
    to: &mut EndorserService,
    append: AppendEntryRequest,
    response: Option<Result<AppendEntryResponse, Status>>,
    before: &EndorserService,
    after: &EndorserService,
    read: ReadLatestRequest,
    read_before: Result<ReadLatestResponse, Status>,
    read_after: Result<ReadLatestResponse, Status>,
)
    requires
        call_ensures(EndorserService::try_append_entry, (to, append), response),
        before@ == old(to)@,
        after@ == final(to)@,
        call_ensures(EndorserService::read_latest, (before, read), read_before),
        call_ensures(EndorserService::read_latest, (after, read), read_after),
        read.endorser_alias != append.endorser_alias || read.ledger_id != append.ledger_id || !(
        response matches Some(Ok(_))),
    ensures
        reads_the_same(read_before, read_after),
{
    let service = old(to)@;
    let later = final(to)@;
    recovery_laws::lemma_found(service.active_keys(), append.endorser_alias);
    recovery_laws::lemma_found(service.active_keys(), read.endorser_alias);
    if response matches Some(Ok(_)) {
        assert(later.active_keys() =~= service.active_keys());
        assert(later.uninitialized_keys() == service.uninitialized_keys());
        assert(later.finalized_keys() == service.finalized_keys());
        let at = service.find_active(append.endorser_alias)->Ok_0;
        if service.find_active(read.endorser_alias) is Ok {
            let position = service.find_active(read.endorser_alias)->Ok_0;
            if position == at {
                assert(read.endorser_alias == append.endorser_alias);
            }
        }
    }
}

/// A created ledger reads as an empty one, and all others read as before. A
/// request that fails affects nothing.
pub proof fn law_created_ledger_is_read_back(
    to: &mut EndorserService,
    create: CreateLedgerRequest,
    response: Result<CreateLedgerResponse, Status>,
    before: &EndorserService,
    after: &EndorserService,
    read: ReadLatestRequest,
    read_before: Result<ReadLatestResponse, Status>,
    read_after: Result<ReadLatestResponse, Status>,
)
    requires
        call_ensures(EndorserService::create_ledger, (to, create), response),
        before@ == old(to)@,
        after@ == final(to)@,
        read.nonce != 0,
        call_ensures(EndorserService::read_latest, (before, read), read_before),
        call_ensures(EndorserService::read_latest, (after, read), read_after),
    ensures
        read.endorser_alias != create.endorser_alias || read.ledger_id != create.ledger_id
            || response is Err ==> reads_the_same(read_before, read_after),
        read.endorser_alias == create.endorser_alias && read.ledger_id == create.ledger_id
            && response is Ok ==> {
            &&& read_before is Err
            &&& read_before->Err_0.code == StatusCode::NotFound
            &&& read_after is Ok
            &&& read_after->Ok_0.block is Some
            &&& read_after->Ok_0.block->Some_0.index == 0
            &&& read_after->Ok_0.block->Some_0.entry@ == Seq::new(32, |i: int| 0u8)
            &&& read_after->Ok_0.block->Some_0.hash_chain_tail@ == Seq::new(32, |i: int| 0u8)
        },
{
    let service = old(to)@;
    let later = final(to)@;
    recovery_laws::lemma_found(service.active_keys(), create.endorser_alias);
    recovery_laws::lemma_found(service.active_keys(), read.endorser_alias);
    if response is Ok {
        assert(later.active_keys() =~= service.active_keys());
        assert(later.uninitialized_keys() == service.uninitialized_keys());
        assert(later.finalized_keys() == service.finalized_keys());
        let at = service.find_active(create.endorser_alias)->Ok_0;
        if service.find_active(read.endorser_alias) is Ok {
            let position = service.find_active(read.endorser_alias)->Ok_0;
            if position == at {
                assert(read.endorser_alias == create.endorser_alias);
            }
        }
    }
}

/// The receipt for a created ledger is the endorser's signature of the message
/// for that ledger.
pub proof fn law_created_ledger_is_signed(
    to: &mut EndorserService,
    request: CreateLedgerRequest,
    response: CreateLedgerResponse,
    position: int,
    instance_id: &[u8; 32],
    message: Vec<u8>,
)
    requires
        call_ensures(EndorserService::create_ledger, (to, request), Ok::<_, Status>(response)),
        recovery_laws::is_active(old(to)@, request.endorser_alias, position),
        instance_id@ == old(to)@.active[position].endorser.instance_id,
        call_ensures(
            receipts::build_create_ledger_message,
            (instance_id, request.ledger_id),
            message,
        ),
    ensures
        crypto::ecdsa_verifies(
            old(to)@.active[position].endorser.key,
            message@,
            response.create_ledger_receipt@,
        ),
{
    recovery_laws::lemma_only(old(to)@.active_keys(), request.endorser_alias, position);
}

// ---------------------------------------------------------------------------
// When requests succeed
// ---------------------------------------------------------------------------

/// An append to the only endorser with the alias, if it is active, succeeds
/// exactly if the entry has 32 bytes, the nonce is not zero, and the ledger exists
/// and its next index is the expected one; the code of a failure tells which of
/// these fails first.
pub proof fn law_when_appends_succeed(
    to: &mut EndorserService,
    request: AppendEntryRequest,
    response: Result<AppendEntryResponse, Status>,
    position: int,
)
    requires
        !old(to)@.appends_to_full(request),
        call_ensures(EndorserService::append_entry, (to, request), response),
        recovery_laws::is_active(old(to)@, request.endorser_alias, position),
    ensures
        ({
            let ledgers = old(to)@.active[position].endorser.ledgers;
            let well_formed = request.entry@.len() == 32 && request.nonce > 0;
            let found = ledgers.contains_key(request.ledger_id);
            let is_next = request.expected_index == ledgers[request.ledger_id].index + 1;
            &&& response is Ok <==> well_formed && found && is_next
            &&& response is Err ==> response->Err_0.code == if !well_formed {
                StatusCode::InvalidArgument
            } else if !found {
                StatusCode::NotFound
            } else {
                StatusCode::FailedPrecondition
            }
            &&& response is Err ==> final(to)@ == old(to)@
        }),
{
    recovery_laws::lemma_only(old(to)@.active_keys(), request.endorser_alias, position);
}

/// An append is not attempted exactly if it is well formed and the ledger of the
/// active endorser is at the last index; it is otherwise carried out.
pub proof fn law_when_appends_are_attempted(
    to: &mut EndorserService,
    request: AppendEntryRequest,
    response: Option<Result<AppendEntryResponse, Status>>,
    asked: &EndorserService,
    full: bool,
    position: int,
)
    requires
        call_ensures(EndorserService::try_append_entry, (to, request), response),
        asked@ == old(to)@,
        call_ensures(EndorserService::is_append_to_full, (asked, &request), full),
        recovery_laws::is_active(old(to)@, request.endorser_alias, position),
    ensures
        response is None <==> full,
        full <==> request.entry@.len() == 32 && request.nonce > 0
            && old(to)@.active[position].endorser.ledgers.contains_key(request.ledger_id)
            && old(to)@.active[position].endorser.ledgers[request.ledger_id].index
            == 0xffff_ffff_ffff_ffff,
        response is None ==> final(to)@ == old(to)@,
{
    recovery_laws::lemma_only(old(to)@.active_keys(), request.endorser_alias, position);
}

/// A read from the only endorser with the alias, if it is active, succeeds
/// exactly if the nonce is not zero and the ledger exists.
pub proof fn law_when_reads_succeed(
    to: &EndorserService,
    request: ReadLatestRequest,
    response: Result<ReadLatestResponse, Status>,
    position: int,
)
    requires
        call_ensures(EndorserService::read_latest, (to, request), response),
        recovery_laws::is_active(to@, request.endorser_alias, position),
    ensures
        ({
            let ledgers = to@.active[position].endorser.ledgers;
            let found = ledgers.contains_key(request.ledger_id);
            &&& response is Ok <==> request.nonce > 0 && found
            &&& response is Err ==> response->Err_0.code == if request.nonce == 0 {
                StatusCode::InvalidArgument
            } else {
                StatusCode::NotFound
            }
            &&& response matches Ok(r) ==> carries(r.block, ledgers[request.ledger_id])
        }),
{
    recovery_laws::lemma_only(to@.active_keys(), request.endorser_alias, position);
}

/// A ledger can be created on the only endorser with the alias, if it is active,
/// exactly if the endorser has fewer than a hundred ledgers and none with the ID.
pub proof fn law_when_ledgers_are_created(
    to: &mut EndorserService,
    request: CreateLedgerRequest,
    response: Result<CreateLedgerResponse, Status>,
    position: int,
)
    requires
        call_ensures(EndorserService::create_ledger, (to, request), response),
        recovery_laws::is_active(old(to)@, request.endorser_alias, position),
    ensures
        ({
            let ledgers = old(to)@.active[position].endorser.ledgers;
            &&& response is Ok <==> ledgers.len() < 100 && !ledgers.contains_key(
                request.ledger_id,
            )
            &&& response is Err ==> response->Err_0.code == StatusCode::FailedPrecondition
            &&& response is Err ==> final(to)@ == old(to)@
        }),
{
    recovery_laws::lemma_only(old(to)@.active_keys(), request.endorser_alias, position);
}

/// An endorser can be created exactly if there are fewer than a hundred.
pub proof fn law_when_endorsers_are_created(
    to: &mut EndorserService,
    endorser: Endorser<Uninitialized>,
    vk_signature: Vec<u8>,
    created: Result<EndorserProto, Status>,
    asked: &EndorserService,
    prepared: Result<Endorser<Uninitialized>, Status>,
)
    requires
        call_ensures(EndorserService::create_endorser, (to, endorser, vk_signature), created),
        asked@ == old(to)@,
        call_ensures(EndorserService::prepare_endorser, (asked,), prepared),
    ensures
        ({
            let total = old(to)@.uninitialized.len() + old(to)@.active.len()
                + old(to)@.finalized.len();
            &&& created is Ok <==> total < 100
            &&& prepared is Ok <==> total < 100
            &&& created is Err ==> created->Err_0.code == StatusCode::FailedPrecondition
            &&& prepared is Err ==> prepared->Err_0.code == StatusCode::FailedPrecondition
            &&& created is Err ==> final(to)@ == old(to)@
        }),
{
}

/// What a request on an active endorser is answered if there is none with the
/// alias: that it does not fit the state if there is one in another state, and
/// else that it is not found.
pub open spec fn answer_without_active(service: ServiceView, alias: u64) -> StatusCode {
    if exists|i: int|
        0 <= i < service.uninitialized.len() && endorser::alias_of(
            (#[trigger] service.uninitialized[i]).endorser.key,
        ) == alias {
        StatusCode::FailedPrecondition
    } else if exists|i: int|
        0 <= i < service.finalized.len() && endorser::alias_of(
            (#[trigger] service.finalized[i]).endorser.key,
        ) == alias {
        StatusCode::FailedPrecondition
    } else {
        StatusCode::NotFound
    }
}

proof fn lemma_answer_without_active(service: ServiceView, alias: u64)
    requires
        recovery_laws::none_has(service.active_keys(), alias),
    ensures
        service.find_active(alias) matches Err(failure) && failure.code == answer_without_active(
            service,
            alias,
        ),
{
    recovery_laws::lemma_found(service.active_keys(), alias);
    recovery_laws::lemma_found(service.uninitialized_keys(), alias);
    recovery_laws::lemma_found(service.finalized_keys(), alias);
    if service.find_active(alias) is Ok {
        let position = service.find_active(alias)->Ok_0;
        assert(endorser::alias_of(service.active_keys()[position]) == alias);
    }
    if crate::service::first_with_alias(service.uninitialized_keys(), alias) is Some {
        let i = crate::service::first_with_alias(service.uninitialized_keys(), alias)->Some_0;
        assert(endorser::alias_of(service.uninitialized[i].endorser.key) == alias);
    } else {
        assert forall|i: int| 0 <= i < service.uninitialized.len() implies endorser::alias_of(
            (#[trigger] service.uninitialized[i]).endorser.key,
        ) != alias by {
            assert(endorser::alias_of(service.uninitialized_keys()[i]) != alias);
        }
    }
    if crate::service::first_with_alias(service.finalized_keys(), alias) is Some {
        let i = crate::service::first_with_alias(service.finalized_keys(), alias)->Some_0;
        assert(endorser::alias_of(service.finalized[i].endorser.key) == alias);
    } else {
        assert forall|i: int| 0 <= i < service.finalized.len() implies endorser::alias_of(
            (#[trigger] service.finalized[i]).endorser.key,
        ) != alias by {
            assert(endorser::alias_of(service.finalized_keys()[i]) != alias);
        }
    }
}

/// Requests that need an active endorser fail if none has the alias, and change
/// nothing.
pub proof fn law_requests_need_an_active_endorser(
    to: &mut EndorserService,
    append: AppendEntryRequest,
    appended: Result<AppendEntryResponse, Status>,
)
    requires
        call_ensures(EndorserService::append_entry, (to, append), appended),
        recovery_laws::none_has(old(to)@.active_keys(), append.endorser_alias),
    ensures
        appended is Err,
        appended->Err_0.code == answer_without_active(old(to)@, append.endorser_alias),
        final(to)@ == old(to)@,
{
    lemma_answer_without_active(old(to)@, append.endorser_alias);
}

/// The same for creating a ledger.
pub proof fn law_ledgers_need_an_active_endorser(
    to: &mut EndorserService,
    request: CreateLedgerRequest,
    response: Result<CreateLedgerResponse, Status>,
)
    requires
        call_ensures(EndorserService::create_ledger, (to, request), response),
        recovery_laws::none_has(old(to)@.active_keys(), request.endorser_alias),
    ensures
        response is Err,
        response->Err_0.code == answer_without_active(old(to)@, request.endorser_alias),
        final(to)@ == old(to)@,
{
    lemma_answer_without_active(old(to)@, request.endorser_alias);
}

/// The same for reading.
pub proof fn law_reads_need_an_active_endorser(
    to: &EndorserService,
    request: ReadLatestRequest,
    response: Result<ReadLatestResponse, Status>,
)
    requires
        call_ensures(EndorserService::read_latest, (to, request), response),
        recovery_laws::none_has(to@.active_keys(), request.endorser_alias),
    ensures
        response is Err,
        response->Err_0.code == answer_without_active(to@, request.endorser_alias),
{
    lemma_answer_without_active(to@, request.endorser_alias);
}

/// An active endorser, and no other, can be finalized in favour of a
/// configuration that can be parsed. A configuration that cannot be parsed is
/// answered with the reason.
pub proof fn law_when_endorsers_are_finalized(
    to: &mut EndorserService,
    request: FinalizeEndorserRequest,
    response: Result<FinalizeEndorserResponse, Status>,
    parsed: Result<CohortConfig, Status>,
)
    requires
        call_ensures(EndorserService::finalize_endorser, (to, request), response),
        call_ensures(
            proto_mapping::parse_cohort_config,
            (request.next_cohort_config, "next_cohort_config"),
            parsed,
        ),
    ensures
        parsed matches Err(status) ==> response is Err && response->Err_0@ == status@,
        parsed is Ok ==> (response is Ok <==> !recovery_laws::none_has(
            old(to)@.active_keys(),
            request.endorser_alias,
        )),
        parsed is Ok && response is Err ==> response->Err_0.code == answer_without_active(
            old(to)@,
            request.endorser_alias,
        ),
        response is Err ==> final(to)@ == old(to)@,
{
    recovery_laws::lemma_found(old(to)@.active_keys(), request.endorser_alias);
    if recovery_laws::none_has(old(to)@.active_keys(), request.endorser_alias) {
        lemma_answer_without_active(old(to)@, request.endorser_alias);
    }
}

/// An endorser is activated exactly if the configuration and the takeover can be
/// parsed, exactly one endorser has the alias and is not activated, and that
/// endorser can be activated with them. What cannot be parsed is answered with
/// the reason; an activation that fails is answered as an invalid argument, and
/// changes nothing.
pub proof fn law_when_endorsers_are_activated(
    to: &mut EndorserService,
    request: ActivateEndorserRequest,
    response: Result<ActivateEndorserResponse, Status>,
    config: Result<CohortConfig, Status>,
    takeover: Result<Option<CohortTakeOver>, Status>,
    position: int,
    endorser: Endorser<Uninitialized>,
    activated: Result<Endorser<Active>, ActivationError>,
)
    requires
        call_ensures(EndorserService::activate_endorser, (to, request), response),
        call_ensures(
            proto_mapping::parse_cohort_config,
            (request.new_config, "new_config"),
            config,
        ),
        call_ensures(
            proto_mapping::parse_cohort_takeover_proto,
            (request.prev_cohort_takeover,),
            takeover,
        ),
        recovery_laws::awaits_activation(old(to)@, request.endorser_alias, position),
        endorser@ == old(to)@.uninitialized[position].endorser,
        config is Ok && takeover is Ok ==> call_ensures(
            Endorser::<Uninitialized>::activate,
            (endorser, config->Ok_0, takeover->Ok_0),
            activated,
        ),
    ensures
        config matches Err(status) ==> response is Err && response->Err_0@ == status@,
        config is Ok ==> (takeover matches Err(status) ==> response is Err && response->Err_0@
            == status@),
        config is Ok && takeover is Ok ==> (response is Ok <==> activated is Ok),
        config is Ok && takeover is Ok && response is Err ==> response->Err_0.code
            == StatusCode::InvalidArgument,
        response is Err ==> final(to)@ == old(to)@,
        response is Ok ==> {
            let active = final(to)@.active.last().endorser;
            let by_itself = activated->Ok_0@;
            &&& active.key == by_itself.key
            &&& active.config == by_itself.config
            &&& active.instance_id == by_itself.instance_id
            &&& active.activation_receipt == by_itself.activation_receipt
            &&& forall|id: u32| #[trigger]
                active.ledgers.contains_key(id) <==> by_itself.ledgers.contains_key(id)
            &&& forall|id: u32| #[trigger]
                active.ledgers.contains_key(id) ==> active.ledgers[id] == by_itself.ledgers[id]
            &&& response->Ok_0.activation_receipt@ == by_itself.activation_receipt
        },
{
    let service = old(to)@;
    recovery_laws::lemma_only(service.uninitialized_keys(), request.endorser_alias, position);
    if response is Ok {
        let active = final(to)@.active.last().endorser;
        let by_itself = activated->Ok_0@;
        if takeover->Ok_0 is None {
            assert(active.ledgers.dom() =~= by_itself.ledgers.dom());
            assert forall|id: u32| #[trigger] active.ledgers.contains_key(id) implies id == 0 by {
                assert(active.ledgers.dom().contains(id));
            }
            assert forall|id: u32| #[trigger]
                active.ledgers.contains_key(id) <==> by_itself.ledgers.contains_key(id) by {
                assert(active.ledgers.dom().contains(id) == by_itself.ledgers.dom().contains(id));
            }
            active.ledgers[0].lemma_ext(by_itself.ledgers[0]);
        }
    }
}

// ---------------------------------------------------------------------------
// Answers about endorsers
// ---------------------------------------------------------------------------

/// Whether an answer is about the endorser with a key and an attestation
/// binding.
pub open spec fn is_about(proto: EndorserProto, key: Seq<u8>, vk_signature: Seq<u8>) -> bool {
    &&& proto.alias == endorser::alias_of(key)
    &&& recovery_laws::key_bytes(proto) == Some(key)
    &&& proto.verifying_key_signature@ == vk_signature
}

/// Asking for an alias gives the first endorser that has it: of those before
/// activation, else of the active ones, else of the finalized ones. The answer
/// gives the state with its instance and its receipts. If none has the alias it
/// is not found.
pub proof fn law_answer_is_about_the_first(
    asked: &EndorserService,
    request: GetEndorserRequest,
    response: Result<EndorserProto, Status>,
    position: int,
)
    requires
        call_ensures(EndorserService::get_endorser, (asked, request), response),
    ensures
        ({
            let alias = request.endorser_alias;
            let service = asked@;
            let not_uninitialized = recovery_laws::none_has(service.uninitialized_keys(), alias);
            let not_active = recovery_laws::none_has(service.active_keys(), alias);
            let not_finalized = recovery_laws::none_has(service.finalized_keys(), alias);
            &&& recovery_laws::first_has(service.uninitialized_keys(), alias, position) ==> {
                let bound = service.uninitialized[position];
                &&& response matches Ok(proto)
                &&& is_about(proto, bound.endorser.key, bound.vk_signature)
                &&& proto.state matches Some(EndorserStateProto::Uninitialized(_))
            }
            &&& not_uninitialized && recovery_laws::first_has(
                service.active_keys(),
                alias,
                position,
            ) ==> {
                let bound = service.active[position];
                &&& response matches Ok(proto)
                &&& is_about(proto, bound.endorser.key, bound.vk_signature)
                &&& proto.state matches Some(EndorserStateProto::Active(state))
                &&& state.instance_id@ == bound.endorser.instance_id
                &&& state.activation_receipt@ == bound.endorser.activation_receipt
            }
            &&& not_uninitialized && not_active && recovery_laws::first_has(
                service.finalized_keys(),
                alias,
                position,
            ) ==> {
                let bound = service.finalized[position];
                &&& response matches Ok(proto)
                &&& is_about(proto, bound.endorser.key, bound.vk_signature)
                &&& proto.state matches Some(EndorserStateProto::Finalized(state))
                &&& state.instance_id@ == bound.endorser.instance_id
                &&& state.activation_receipt@ == bound.endorser.activation_receipt
                &&& state.finalization_receipt@ == bound.endorser.finalization_receipt
            }
            &&& not_uninitialized && not_active && not_finalized ==> {
                &&& response matches Err(status)
                &&& status.code == StatusCode::NotFound
            }
        }),
{
    let alias = request.endorser_alias;
    let service = asked@;
    recovery_laws::lemma_found(service.uninitialized_keys(), alias);
    recovery_laws::lemma_found(service.active_keys(), alias);
    recovery_laws::lemma_found(service.finalized_keys(), alias);
    if recovery_laws::first_has(service.uninitialized_keys(), alias, position) {
        crate::service::lemma_first_with_alias(service.uninitialized_keys(), position, alias);
    } else if recovery_laws::first_has(service.active_keys(), alias, position) {
        crate::service::lemma_first_with_alias(service.active_keys(), position, alias);
    }
    if recovery_laws::first_has(service.active_keys(), alias, position) {
        crate::service::lemma_first_with_alias(service.active_keys(), position, alias);
    }
    if recovery_laws::first_has(service.finalized_keys(), alias, position) {
        crate::service::lemma_first_with_alias(service.finalized_keys(), position, alias);
    }
}

/// A created endorser is what asking for its alias gives, in the same words, as
/// long as no other has the alias.
pub proof fn law_created_endorser_is_found(
    to: &mut EndorserService,
    endorser: Endorser<Uninitialized>,
    vk_signature: Vec<u8>,
    created: EndorserProto,
    asked: &EndorserService,
    response: Result<EndorserProto, Status>,
)
    requires
        call_ensures(
            EndorserService::create_endorser,
            (to, endorser, vk_signature),
            Ok::<_, Status>(created),
        ),
        recovery_laws::unknown(old(to)@, created.alias),
        asked@ == final(to)@,
        call_ensures(
            EndorserService::get_endorser,
            (asked, GetEndorserRequest { endorser_alias: created.alias }),
            response,
        ),
    ensures
        is_about(created, endorser@.key, vk_signature@),
        created.state matches Some(EndorserStateProto::Uninitialized(_)),
        response is Ok,
        is_about(response->Ok_0, endorser@.key, vk_signature@),
        response->Ok_0.state matches Some(EndorserStateProto::Uninitialized(_)),
{
    let before = old(to)@;
    let keys = final(to)@.uninitialized_keys();
    let last = before.uninitialized.len() as int;
    assert(forall|i: int| 0 <= i < last ==> keys[i] == before.uninitialized_keys()[i]);
    assert(keys[last] == endorser@.key);
    assert forall|i: int| 0 <= i < last implies endorser::alias_of(#[trigger] keys[i])
        != created.alias by {
        assert(endorser::alias_of(before.uninitialized_keys()[i]) != created.alias);
    }
    crate::service::lemma_first_with_alias(keys, last, created.alias);
}

/// The endorsers are listed in order, those before activation first, then the
/// active ones, and the finalized ones only if they are asked for. Nothing is
/// said of their state.
pub proof fn law_listing_is_in_order(
    asked: &EndorserService,
    request: ListEndorsersRequest,
    response: Result<ListEndorsersResponse, Status>,
)
    requires
        call_ensures(EndorserService::list_endorsers, (asked, request), response),
    ensures
        response is Ok,
        ({
            let protos = response->Ok_0.endorsers@;
            let service = asked@;
            let n = service.uninitialized.len() as int;
            let m = n + service.active.len();
            &&& protos.len() == if request.include_finalized {
                m + service.finalized.len()
            } else {
                m
            }
            &&& forall|i: int|
                0 <= i < protos.len() ==> (#[trigger] protos[i]).state is None && if i < n {
                    let bound = service.uninitialized[i];
                    is_about(protos[i], bound.endorser.key, bound.vk_signature)
                } else if i < m {
                    let bound = service.active[i - n];
                    is_about(protos[i], bound.endorser.key, bound.vk_signature)
                } else {
                    let bound = service.finalized[i - m];
                    is_about(protos[i], bound.endorser.key, bound.vk_signature)
                }
        }),
{
}

// ---------------------------------------------------------------------------
// Finalization, end to end
// ---------------------------------------------------------------------------

/// The response to a finalization holds the endorser's key, and exactly the
/// blocks that could be read before. The endorser cannot be read any more.
pub proof fn law_finalization_lists_what_was_read(
    to: &mut EndorserService,
    request: FinalizeEndorserRequest,
    response: FinalizeEndorserResponse,
    position: int,
    before: &EndorserService,
    after: &EndorserService,
    read: ReadLatestRequest,
    read_before: Result<ReadLatestResponse, Status>,
    read_after: Result<ReadLatestResponse, Status>,
)
    requires
        call_ensures(
            EndorserService::finalize_endorser,
            (to, request),
            Ok::<_, Status>(response),
        ),
        recovery_laws::is_active(old(to)@, request.endorser_alias, position),
        before@ == old(to)@,
        after@ == final(to)@,
        read.endorser_alias == request.endorser_alias,
        read.nonce != 0,
        call_ensures(EndorserService::read_latest, (before, read), read_before),
        call_ensures(EndorserService::read_latest, (after, read), read_after),
    ensures
        proto_mapping::is_key_proto(
            response.endorser_key,
            old(to)@.active[position].endorser.key,
        ),
        match read_before {
            Ok(r) => exists|i: int|
                {
                    &&& 0 <= i < response.ledgers@.len()
                    &&& (#[trigger] response.ledgers@[i]).ledger_id == read.ledger_id
                    &&& forall|block: LedgerBlock| #[trigger]
                        carries(r.block, block) ==> carries(response.ledgers@[i].tail, block)
                },
            Err(_) => forall|i: int|
                0 <= i < response.ledgers@.len() ==> (#[trigger] response.ledgers@[i]).ledger_id
                    != read.ledger_id,
        },
        read_after is Err,
        read_after->Err_0.code == StatusCode::FailedPrecondition,
{
    let service = old(to)@;
    let later = final(to)@;
    let alias = request.endorser_alias;
    recovery_laws::lemma_only(service.active_keys(), alias, position);
    let bound = later.finalized.last();
    assert(crate::service::only_active_with_alias(service, alias, position)) by {
        assert forall|i: int|
            0 <= i < service.active.len() && i != position implies endorser::alias_of(
            #[trigger] service.active_keys()[i],
        ) != alias by {}
    }
    crate::service::law_finalized_endorser_is_found(service, alias, position, bound);
    if read_before is Ok {
        let r = read_before->Ok_0;
        let ledgers = service.active[position].endorser.ledgers;
        let i = choose|i: int|
            0 <= i < response.ledgers@.len() && (#[trigger] response.ledgers@[i]).ledger_id
                == read.ledger_id;
        assert(response.ledgers@[i].ledger_id == read.ledger_id);
        assert forall|block: LedgerBlock| #[trigger] carries(r.block, block) implies carries(
            response.ledgers@[i].tail,
            block,
        ) by {
            lemma_carries_one(r.block, block, ledgers[read.ledger_id]);
        }
    }
}

/// What a finalization of a cohort of one returns is accepted as a takeover by
/// the cohort that it is in favour of.
pub proof fn law_finalization_response_is_accepted(
    to: &mut EndorserService,
    request: FinalizeEndorserRequest,
    response: FinalizeEndorserResponse,
    position: int,
    next: CohortConfig,
    takeover: &CohortTakeOver,
    valid: bool,
)
    requires
        call_ensures(
            EndorserService::finalize_endorser,
            (to, request),
            Ok::<_, Status>(response),
        ),
        recovery_laws::is_active(old(to)@, request.endorser_alias, position),
        call_ensures(
            proto_mapping::parse_cohort_config,
            (request.next_cohort_config, "next_cohort_config"),
            Ok::<_, Status>(next),
        ),
        ({
            let endorser = old(to)@.active[position].endorser;
            &&& endorser.config == seq![endorser.key]
            &&& takeover@.instance_id == endorser.instance_id
            &&& takeover@.ledgers == endorser.ledgers
            &&& takeover@.finalization == seq![
                ReceiptEntry {
                    key: endorser.key,
                    receipt: Some(response.finalization_receipt@),
                },
            ]
        }),
        call_ensures(CohortTakeOver::verify, (takeover, &next), valid),
    ensures
        valid,
{
    let service = old(to)@;
    recovery_laws::lemma_only(service.active_keys(), request.endorser_alias, position);
    let endorser = service.active[position].endorser;
    let entries = takeover@.finalization;
    assert(quorum::entry_keys(entries) =~= endorser.config);
    let message = quorum_laws::takeover_message(*takeover, next);
    quorum_laws::law_takeover_needs_more_than_half(takeover, &next, valid);
    quorum_laws::lemma_signed_at(entries, message);
    let signers = quorum_laws::signed_at(entries, message);
    assert(signers.contains(0));
    assert(signers =~= set![0int]);
}

// ---------------------------------------------------------------------------
// Limits
// ---------------------------------------------------------------------------

/// Whether the service is within its limits: a hundred endorsers, of which
/// sixteen are finalized, and for each active one a hundred ledgers and a cohort
/// of two hundred.
pub open spec fn is_bounded(service: ServiceView) -> bool {
    &&& service.uninitialized.len() + service.active.len() + service.finalized.len() <= 100
    &&& service.finalized.len() <= 16
    &&& forall|i: int|
        0 <= i < service.active.len() ==> {
            let endorser = (#[trigger] service.active[i]).endorser;
            &&& endorser.ledgers.dom().finite()
            &&& endorser.ledgers.len() <= 100
            &&& endorser.config.len() <= 200
        }
}

/// The service begins within its limits, and no request takes it beyond them.
pub proof fn law_limits_are_kept(
    fresh: EndorserService,
    to: &mut EndorserService,
    call: recovery_laws::Call,
)
    requires
        call_ensures(EndorserService::new, (), fresh),
        call.happens(to),
    ensures
        is_bounded(fresh@),
        is_bounded(old(to)@) ==> is_bounded(final(to)@),
{
    assert(old(to)@.within_limits() <==> is_bounded(old(to)@)) by {
        lemma_bounded(old(to)@);
    }
    lemma_bounded(final(to)@);
}

proof fn lemma_bounded(service: ServiceView)
    ensures
        service.within_limits() <==> is_bounded(service),
{
    if service.within_limits() {
        assert forall|i: int| 0 <= i < service.active.len() implies {
            let endorser = (#[trigger] service.active[i]).endorser;
            &&& endorser.ledgers.dom().finite()
            &&& endorser.ledgers.len() <= 100
            &&& endorser.config.len() <= 200
        } by {
            assert(crate::service::endorser_within_limits(service.active[i].endorser));
        }
    }
    if is_bounded(service) {
        assert forall|i: int| 0 <= i < service.active.len() implies
            crate::service::endorser_within_limits((#[trigger] service.active[i]).endorser) by {}
    }
}

} // verus!
