//! What failures say, word by word.

use vstd::prelude::*;

use crate::bytes;
use crate::cohort::CohortConfig;
use crate::endorser::{ActivationError, Active, Endorser, Uninitialized};
use crate::messages::{
    ActivateEndorserRequest, ActivateEndorserResponse, AppendEntryRequest, AppendEntryResponse,
    CohortConfigProto, CreateLedgerRequest, CreateLedgerResponse, EndorserFinalizationProto,
    EndorserProto, GetEndorserRequest, LedgerProto, ReadLatestRequest, ReadLatestResponse,
    VerifyingKeyProto,
};
use crate::proto_mapping;
use crate::recovery_laws;
use crate::service::EndorserService;
use crate::status::{Status, StatusCode};
use crate::takeover::CohortTakeOver;

verus! {

/// The decimal text of a number.
pub open spec fn written(n: int) -> Seq<char> {
    bytes::decimal(n as nat)
}

/// The words for an append that fails on the only endorser with the alias.
pub proof fn law_words_of_failed_appends(
    to: &mut EndorserService,
    request: AppendEntryRequest,
    failure: Status,
    position: int,
)
    requires
        !old(to)@.appends_to_full(request),
        call_ensures(
            EndorserService::append_entry,
            (to, request),
            Err::<AppendEntryResponse, _>(failure),
        ),
        recovery_laws::is_active(old(to)@, request.endorser_alias, position),
    ensures
        ({
            let ledgers = old(to)@.active[position].endorser.ledgers;
            failure.message@ == if request.entry@.len() != 32 {
                "entry must be exactly 32 bytes"@
            } else if request.nonce == 0 {
                "nonce must not be zero"@
            } else if !ledgers.contains_key(request.ledger_id) {
                "ledger with id "@ + written(request.ledger_id as int) + " not found"@
            } else {
                "expected index "@ + written(request.expected_index as int)
                    + " does not match next index "@ + written(
                    ledgers[request.ledger_id].index + 1,
                )
            }
        }),
{
    recovery_laws::lemma_only(old(to)@.active_keys(), request.endorser_alias, position);
}

/// The words for a read that fails on the only endorser with the alias.
pub proof fn law_words_of_failed_reads(
    to: &EndorserService,
    request: ReadLatestRequest,
    failure: Status,
    position: int,
)
    requires
        call_ensures(
            EndorserService::read_latest,
            (to, request),
            Err::<ReadLatestResponse, _>(failure),
        ),
        recovery_laws::is_active(to@, request.endorser_alias, position),
    ensures
        failure.message@ == if request.nonce == 0 {
            "nonce must not be zero"@
        } else {
            "ledger with id "@ + written(request.ledger_id as int) + " not found"@
        },
{
    recovery_laws::lemma_only(to@.active_keys(), request.endorser_alias, position);
}

/// The words for a ledger that cannot be created on the only endorser with the
/// alias.
pub proof fn law_words_of_failed_creations(
    to: &mut EndorserService,
    request: CreateLedgerRequest,
    failure: Status,
    position: int,
)
    requires
        call_ensures(
            EndorserService::create_ledger,
            (to, request),
            Err::<CreateLedgerResponse, _>(failure),
        ),
        recovery_laws::is_active(old(to)@, request.endorser_alias, position),
    ensures
        failure.message@ == if old(to)@.active[position].endorser.ledgers.len() >= 100 {
            "maximum number of ledgers ("@ + written(100) + ") exceeded"@
        } else {
            "ledger with id "@ + written(request.ledger_id as int) + " already exists"@
        },
{
    recovery_laws::lemma_only(old(to)@.active_keys(), request.endorser_alias, position);
}

/// The words for an endorser too many.
pub proof fn law_words_of_an_endorser_too_many(
    to: &mut EndorserService,
    endorser: Endorser<Uninitialized>,
    vk_signature: Vec<u8>,
    failure: Status,
)
    requires
        call_ensures(
            EndorserService::create_endorser,
            (to, endorser, vk_signature),
            Err::<EndorserProto, _>(failure),
        ),
    ensures
        failure.message@ == "Maximum number of endorsers ("@ + written(100) + ") exceeded"@,
{
}

/// The words for an alias that no endorser has, or only one in another state.
pub proof fn law_words_without_an_active_endorser(
    to: &EndorserService,
    request: ReadLatestRequest,
    failure: Status,
)
    requires
        call_ensures(
            EndorserService::read_latest,
            (to, request),
            Err::<ReadLatestResponse, _>(failure),
        ),
        recovery_laws::none_has(to@.active_keys(), request.endorser_alias),
    ensures
        ({
            let alias = written(request.endorser_alias as int);
            failure.message@ == if !recovery_laws::none_has(
                to@.uninitialized_keys(),
                request.endorser_alias,
            ) {
                "endorser "@ + alias + ": expected "@ + "active"@ + " state, but is "@
                    + "uninitialized"@
            } else if !recovery_laws::none_has(to@.finalized_keys(), request.endorser_alias) {
                "endorser "@ + alias + ": expected "@ + "active"@ + " state, but is "@
                    + "finalized"@
            } else {
                "endorser with alias "@ + alias + " not found"@
            }
        }),
{
    recovery_laws::lemma_found(to@.active_keys(), request.endorser_alias);
    recovery_laws::lemma_found(to@.uninitialized_keys(), request.endorser_alias);
    recovery_laws::lemma_found(to@.finalized_keys(), request.endorser_alias);
}

/// The words for an activation where no endorser awaits it.
pub proof fn law_words_without_an_endorser_to_activate(
    to: &mut EndorserService,
    request: ActivateEndorserRequest,
    response: Result<ActivateEndorserResponse, Status>,
    config: CohortConfig,
    takeover: Option<CohortTakeOver>,
)
    requires
        call_ensures(EndorserService::activate_endorser, (to, request), response),
        call_ensures(
            proto_mapping::parse_cohort_config,
            (request.new_config, "new_config"),
            Ok::<_, Status>(config),
        ),
        call_ensures(
            proto_mapping::parse_cohort_takeover_proto,
            (request.prev_cohort_takeover,),
            Ok::<_, Status>(takeover),
        ),
        recovery_laws::none_has(old(to)@.uninitialized_keys(), request.endorser_alias),
    ensures
        response is Err,
        final(to)@ == old(to)@,
        ({
            let service = old(to)@;
            let alias = written(request.endorser_alias as int);
            let failure = response->Err_0;
            if !recovery_laws::none_has(service.active_keys(), request.endorser_alias) {
                &&& failure.code == StatusCode::FailedPrecondition
                &&& failure.message@ == "endorser "@ + alias + ": expected "@
                    + "uninitialized"@ + " state, but is "@ + "active"@
            } else if !recovery_laws::none_has(
                service.finalized_keys(),
                request.endorser_alias,
            ) {
                &&& failure.code == StatusCode::FailedPrecondition
                &&& failure.message@ == "endorser "@ + alias + ": expected "@
                    + "uninitialized"@ + " state, but is "@ + "finalized"@
            } else {
                &&& failure.code == StatusCode::NotFound
                &&& failure.message@ == "endorser with alias "@ + alias + " not found"@
            }
        }),
{
    let service = old(to)@;
    recovery_laws::lemma_found(service.active_keys(), request.endorser_alias);
    recovery_laws::lemma_found(service.uninitialized_keys(), request.endorser_alias);
    recovery_laws::lemma_found(service.finalized_keys(), request.endorser_alias);
}

/// The words for an activation that the endorser refuses are those of the
/// endorser's own error.
pub proof fn law_words_of_refused_activations(
    endorser: Endorser<Uninitialized>,
    config: CohortConfig,
    takeover: Option<CohortTakeOver>,
    error: ActivationError,
    alias: u64,
    text: String,
)
    requires
        call_ensures(
            Endorser::<Uninitialized>::activate,
            (endorser, config, takeover),
            Err::<Endorser<Active>, _>(error),
        ),
        call_ensures(Endorser::<Uninitialized>::alias, (&endorser,), alias),
        call_ensures(ActivationError::message, (&error,), text),
    ensures
        text@ == if config.key_seq().contains(endorser@.key) {
            "endorser with alias "@ + written(alias as int)
                + ": finalization receipts do not form a quorum"@
        } else {
            "endorser with alias "@ + written(alias as int)
                + "'s verifying key is not in the cohort config"@
        },
{
}

/// The words for an alias that is not found.
pub proof fn law_words_of_an_unknown_alias(
    asked: &EndorserService,
    request: GetEndorserRequest,
    failure: Status,
)
    requires
        call_ensures(
            EndorserService::get_endorser,
            (asked, request),
            Err::<EndorserProto, _>(failure),
        ),
    ensures
        failure.message@ == "endorser with alias "@ + written(request.endorser_alias as int)
            + " not found"@,
        recovery_laws::unknown(asked@, request.endorser_alias),
{
    recovery_laws::lemma_found(asked@.active_keys(), request.endorser_alias);
    recovery_laws::lemma_found(asked@.uninitialized_keys(), request.endorser_alias);
    recovery_laws::lemma_found(asked@.finalized_keys(), request.endorser_alias);
}

/// The words for a key that cannot be taken from a message.
pub proof fn law_words_of_unusable_keys(
    vk_proto: Option<VerifyingKeyProto>,
    context: &str,
    failure: Status,
)
    requires
        call_ensures(
            proto_mapping::parse_verifying_key,
            (vk_proto, context),
            Err::<crate::keys::VerifyingKey, _>(failure),
        ),
    ensures
        failure.message@ == if vk_proto is None {
            context@ + " is missing"@
        } else if vk_proto->Some_0.key is None {
            context@ + " has no key set"@
        } else {
            context@ + ": invalid SEC1 key: "@ + "signature error"@
        },
{
}

/// The words for a configuration that is missing, empty or too large.
pub proof fn law_words_of_unusable_configs(
    config_proto: Option<CohortConfigProto>,
    field_name: &str,
    failure: Status,
)
    requires
        call_ensures(
            proto_mapping::parse_cohort_config,
            (config_proto, field_name),
            Err::<CohortConfig, _>(failure),
        ),
    ensures
        config_proto is None ==> failure.message@ == "missing "@ + field_name@,
        config_proto matches Some(proto) ==> {
            let count = proto.endorser_keys@.len();
            &&& count == 0 ==> failure.message@ == field_name@ + " must not be empty"@
            &&& count > 200 ==> failure.message@ == field_name@ + " has too many keys ("@
                + written(count as int) + ", max "@ + written(200) + ")"@
        },
{
}

/// The words for a ledger that cannot be taken from a message.
pub proof fn law_words_of_unusable_ledgers(proto: LedgerProto, failure: Status)
    requires
        call_ensures(
            proto_mapping::parse_ledger_proto,
            (proto,),
            Err::<(u32, crate::ledger::LedgerBlock), _>(failure),
        ),
    ensures
        ({
            let name = "ledger "@ + written(proto.ledger_id as int);
            failure.message@ == if proto.tail is None {
                name + " has no tail block"@
            } else if proto.tail->Some_0.entry@.len() != 32 {
                name + " entry must be exactly 32 bytes"@
            } else {
                name + " hash_chain_tail must be exactly 32 bytes"@
            }
        }),
{
}

/// The words for a finalization entry whose receipt is no signature.
pub proof fn law_words_of_unusable_receipts(
    index: usize,
    proto: EndorserFinalizationProto,
    failure: Status,
    key: Result<crate::keys::VerifyingKey, Status>,
    context: &str,
)
    requires
        call_ensures(
            proto_mapping::parse_endorser_finalization_proto,
            (index, proto),
            Err::<crate::cohort::EndorserFinalization, _>(failure),
        ),
        context@ == "endorser finalization at index "@ + written(index as int),
        call_ensures(
            proto_mapping::parse_verifying_key,
            (proto.endorser_key, context),
            key,
        ),
    ensures
        key matches Err(status) ==> failure@ == status@,
        key is Ok ==> failure.message@ == context@ + ": invalid receipt signature: "@
            + "signature error"@,
{
}

} // verus!
