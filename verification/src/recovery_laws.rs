//! Receipts that the endorser service returned can be asked for again.

use vstd::prelude::*;

use crate::endorser;
use crate::endorser::{Endorser, Uninitialized};
use crate::messages::{
    ActivateEndorserRequest, ActivateEndorserResponse, AppendEntryRequest, AppendEntryResponse,
    CreateLedgerRequest, CreateLedgerResponse, EndorserProto, EndorserStateProto,
    FinalizeEndorserRequest, FinalizeEndorserResponse, GetEndorserRequest, VerifyingKeyProto,
    VerifyingKeyProtoOneOf,
};
use crate::service;
use crate::service::{EndorserService, ServiceView};
use crate::status::{Status, StatusCode};

verus! {

// ---------------------------------------------------------------------------
// Aliases
// ---------------------------------------------------------------------------

/// Whether none of some keys has the alias.
pub open spec fn none_has(keys: Seq<Seq<u8>>, alias: u64) -> bool {
    forall|i: int| 0 <= i < keys.len() ==> endorser::alias_of(#[trigger] keys[i]) != alias
}

/// Whether of some keys that at a position has the alias, and no other.
pub open spec fn only_has(keys: Seq<Seq<u8>>, alias: u64, position: int) -> bool {
    &&& 0 <= position < keys.len()
    &&& forall|i: int|
        0 <= i < keys.len() ==> (endorser::alias_of(#[trigger] keys[i]) == alias <==> i
            == position)
}

/// Whether of some keys that at a position is the first with the alias.
pub open spec fn first_has(keys: Seq<Seq<u8>>, alias: u64, position: int) -> bool {
    &&& 0 <= position < keys.len()
    &&& endorser::alias_of(keys[position]) == alias
    &&& forall|i: int| 0 <= i < position ==> endorser::alias_of(#[trigger] keys[i]) != alias
}

/// What is found for an alias is the first key that has it.
pub proof fn lemma_found(keys: Seq<Seq<u8>>, alias: u64)
    ensures
        match service::first_with_alias(keys, alias) {
            Some(position) => first_has(keys, alias, position),
            None => none_has(keys, alias),
        },
    decreases keys.len(),
{
    if keys.len() > 0 {
        let earlier = keys.drop_last();
        let last = keys.len() - 1;
        lemma_found(earlier, alias);
        assert(forall|i: int| 0 <= i < last ==> earlier[i] == keys[i]);
        match service::first_with_alias(earlier, alias) {
            Some(position) => {
                assert(earlier[position] == keys[position]);
                assert forall|i: int| 0 <= i < position implies endorser::alias_of(
                    #[trigger] keys[i],
                ) != alias by {
                    assert(earlier[i] == keys[i]);
                }
            },
            None => {
                assert forall|i: int| 0 <= i < last implies endorser::alias_of(
                    #[trigger] keys[i],
                ) != alias by {
                    assert(earlier[i] == keys[i]);
                }
                assert(keys.last() == keys[last]);
            },
        }
    }
}

/// The only key with an alias is what is found for it.
pub proof fn lemma_only(keys: Seq<Seq<u8>>, alias: u64, position: int)
    requires
        only_has(keys, alias, position),
    ensures
        service::first_with_alias(keys, alias) == Some(position),
{
    service::lemma_first_with_alias(keys, position, alias);
}

/// Removing an item by putting the last one in its place keeps all others.
proof fn lemma_swap_removed<T>(items: Seq<T>, removed: int, i: int)
    requires
        0 <= removed < items.len(),
        0 <= i < items.len() - 1,
    ensures
        service::swap_removed(items, removed)[i] == items[if i == removed {
            items.len() - 1
        } else {
            i
        }],
{
}

// ---------------------------------------------------------------------------
// Who has a receipt
// ---------------------------------------------------------------------------

/// Whether no endorser of the service has the alias.
pub open spec fn unknown(service: ServiceView, alias: u64) -> bool {
    &&& none_has(service.uninitialized_keys(), alias)
    &&& none_has(service.active_keys(), alias)
    &&& none_has(service.finalized_keys(), alias)
}

/// Whether exactly one endorser of the service has the alias, and it is not yet
/// activated.
pub open spec fn awaits_activation(service: ServiceView, alias: u64, position: int) -> bool {
    &&& only_has(service.uninitialized_keys(), alias, position)
    &&& none_has(service.active_keys(), alias)
    &&& none_has(service.finalized_keys(), alias)
}

/// Whether exactly one endorser of the service has the alias, and it is active.
pub open spec fn is_active(service: ServiceView, alias: u64, position: int) -> bool {
    &&& none_has(service.uninitialized_keys(), alias)
    &&& only_has(service.active_keys(), alias, position)
    &&& none_has(service.finalized_keys(), alias)
}

/// Whether exactly one endorser of the service has the alias, and it is
/// finalized.
pub open spec fn is_finalized(service: ServiceView, alias: u64, position: int) -> bool {
    &&& none_has(service.uninitialized_keys(), alias)
    &&& none_has(service.active_keys(), alias)
    &&& only_has(service.finalized_keys(), alias, position)
}

/// Whether exactly one endorser of the service has the alias, and it was
/// activated with the receipt.
pub open spec fn has_receipt(service: ServiceView, alias: u64, receipt: Seq<u8>) -> bool {
    ||| exists|position: int| #[trigger]
        is_active(service, alias, position)
            && service.active[position].endorser.activation_receipt == receipt
    ||| exists|position: int| #[trigger]
        is_finalized(service, alias, position)
            && service.finalized[position].endorser.activation_receipt == receipt
}

/// The activation receipt that an answer gives.
pub open spec fn given_receipt(proto: EndorserProto) -> Option<Seq<u8>> {
    match proto.state {
        Some(EndorserStateProto::Active(state)) => Some(state.activation_receipt@),
        Some(EndorserStateProto::Finalized(state)) => Some(state.activation_receipt@),
        _ => None,
    }
}

/// A request that may change the service, and what came of it.
#[allow(inconsistent_fields)]
pub enum Call {
    CreateEndorser {
        endorser: Endorser<Uninitialized>,
        vk_signature: Vec<u8>,
        created: Result<EndorserProto, Status>,
    },
    Activate {
        request: ActivateEndorserRequest,
        response: Result<ActivateEndorserResponse, Status>,
    },
    CreateLedger {
        request: CreateLedgerRequest,
        response: Result<CreateLedgerResponse, Status>,
    },
    Append {
        request: AppendEntryRequest,
        response: Option<Result<AppendEntryResponse, Status>>,
    },
    Finalize {
        request: FinalizeEndorserRequest,
        response: Result<FinalizeEndorserResponse, Status>,
    },
}

impl Call {
    /// Whether this is what came of the request to a service.
    pub open spec fn happens(self, to: &mut EndorserService) -> bool {
        match self {
            Call::CreateEndorser { endorser, vk_signature, created } => call_ensures(
                EndorserService::create_endorser,
                (to, endorser, vk_signature),
                created,
            ),
            Call::Activate { request, response } => call_ensures(
                EndorserService::activate_endorser,
                (to, request),
                response,
            ),
            Call::CreateLedger { request, response } => call_ensures(
                EndorserService::create_ledger,
                (to, request),
                response,
            ),
            Call::Append { request, response } => call_ensures(
                EndorserService::try_append_entry,
                (to, request),
                response,
            ),
            Call::Finalize { request, response } => call_ensures(
                EndorserService::finalize_endorser,
                (to, request),
                response,
            ),
        }
    }

    /// Whether no endorser with the alias is added.
    pub open spec fn adds_none(self, alias: u64) -> bool {
        self matches Call::CreateEndorser { endorser, .. } ==> endorser::alias_of(endorser@.key)
            != alias
    }
}

/// A request on an active endorser keeps it where it is, with its key and its
/// activation receipt.
proof fn lemma_update_keeps(
    before: ServiceView,
    after: ServiceView,
    at: int,
    alias: u64,
    receipt: Seq<u8>,
)
    requires
        0 <= at < before.active.len(),
        after.uninitialized == before.uninitialized,
        after.finalized == before.finalized,
        after.active == before.active.update(at, after.active[at]),
        after.active[at].endorser.key == before.active[at].endorser.key,
        after.active[at].endorser.activation_receipt
            == before.active[at].endorser.activation_receipt,
    ensures
        has_receipt(before, alias, receipt) ==> has_receipt(after, alias, receipt),
        unknown(before, alias) ==> unknown(after, alias),
{
    assert(after.active_keys() =~= before.active_keys());
    assert(after.uninitialized_keys() == before.uninitialized_keys());
    assert(after.finalized_keys() == before.finalized_keys());
    if has_receipt(before, alias, receipt) {
        if exists|position: int| #[trigger]
            is_active(before, alias, position)
                && before.active[position].endorser.activation_receipt == receipt {
            let position = choose|position: int| #[trigger]
                is_active(before, alias, position)
                    && before.active[position].endorser.activation_receipt == receipt;
            assert(is_active(after, alias, position));
        } else {
            let position = choose|position: int| #[trigger]
                is_finalized(before, alias, position)
                    && before.finalized[position].endorser.activation_receipt == receipt;
            assert(is_finalized(after, alias, position));
        }
    }
}

/// Adding an endorser with another alias keeps those that there are.
proof fn lemma_creation_keeps(
    before: ServiceView,
    after: ServiceView,
    alias: u64,
    receipt: Seq<u8>,
)
    requires
        after.uninitialized.len() > 0,
        after.uninitialized == before.uninitialized.push(after.uninitialized.last()),
        endorser::alias_of(after.uninitialized.last().endorser.key) != alias,
        after.active == before.active,
        after.finalized == before.finalized,
    ensures
        has_receipt(before, alias, receipt) ==> has_receipt(after, alias, receipt),
        unknown(before, alias) ==> unknown(after, alias),
{
    let keys = after.uninitialized_keys();
    if none_has(before.uninitialized_keys(), alias) {
        assert forall|i: int| 0 <= i < keys.len() implies endorser::alias_of(#[trigger] keys[i])
            != alias by {
            if i < before.uninitialized.len() {
                assert(keys[i] == before.uninitialized_keys()[i]);
            }
        }
    }
    assert(after.active_keys() == before.active_keys());
    assert(after.finalized_keys() == before.finalized_keys());
    if has_receipt(before, alias, receipt) {
        if exists|position: int| #[trigger]
            is_active(before, alias, position)
                && before.active[position].endorser.activation_receipt == receipt {
            let position = choose|position: int| #[trigger]
                is_active(before, alias, position)
                    && before.active[position].endorser.activation_receipt == receipt;
            assert(is_active(after, alias, position));
        } else {
            let position = choose|position: int| #[trigger]
                is_finalized(before, alias, position)
                    && before.finalized[position].endorser.activation_receipt == receipt;
            assert(is_finalized(after, alias, position));
        }
    }
}

/// Activating another endorser keeps those that are activated already.
proof fn lemma_activation_keeps(
    before: ServiceView,
    after: ServiceView,
    at: int,
    alias: u64,
    receipt: Seq<u8>,
)
    requires
        0 <= at < before.uninitialized.len(),
        after.uninitialized == service::swap_removed(before.uninitialized, at),
        after.active.len() > 0,
        after.active == before.active.push(after.active.last()),
        after.active.last().endorser.key == before.uninitialized[at].endorser.key,
        after.finalized == before.finalized,
    ensures
        has_receipt(before, alias, receipt) ==> has_receipt(after, alias, receipt),
        unknown(before, alias) ==> unknown(after, alias),
{
    let keys = after.uninitialized_keys();
    if none_has(before.uninitialized_keys(), alias) {
        assert forall|i: int| 0 <= i < keys.len() implies endorser::alias_of(#[trigger] keys[i])
            != alias by {
            lemma_swap_removed(before.uninitialized, at, i);
            let from = if i == at {
                before.uninitialized.len() - 1
            } else {
                i
            };
            assert(keys[i] == before.uninitialized_keys()[from]);
        }
        assert(endorser::alias_of(before.uninitialized_keys()[at]) != alias);
    }
    let active = after.active_keys();
    let last = before.active.len() as int;
    assert(active[last] == before.uninitialized_keys()[at]);
    assert(forall|i: int| 0 <= i < last ==> active[i] == before.active_keys()[i]);
    if none_has(before.uninitialized_keys(), alias) && none_has(before.active_keys(), alias) {
        assert forall|i: int| 0 <= i < active.len() implies endorser::alias_of(
            #[trigger] active[i],
        ) != alias by {
            if i < last {
                assert(active[i] == before.active_keys()[i]);
            }
        }
    }
    assert(after.finalized_keys() == before.finalized_keys());
    if has_receipt(before, alias, receipt) {
        if exists|position: int| #[trigger]
            is_active(before, alias, position)
                && before.active[position].endorser.activation_receipt == receipt {
            let position = choose|position: int| #[trigger]
                is_active(before, alias, position)
                    && before.active[position].endorser.activation_receipt == receipt;
            assert forall|i: int| 0 <= i < active.len() implies (endorser::alias_of(
                #[trigger] active[i],
            ) == alias <==> i == position) by {
                if i < last {
                    assert(active[i] == before.active_keys()[i]);
                }
            }
            assert(is_active(after, alias, position));
        } else {
            let position = choose|position: int| #[trigger]
                is_finalized(before, alias, position)
                    && before.finalized[position].endorser.activation_receipt == receipt;
            assert(is_finalized(after, alias, position));
        }
    }
}

/// How many of the finalized endorsers go when one more is finalized.
pub open spec fn evicted(service: ServiceView) -> int {
    if service.finalized.len() >= 16 {
        1
    } else {
        0
    }
}

/// The keys after one endorser was finalized.
proof fn lemma_keys_after_finalization(
    before: ServiceView,
    after: ServiceView,
    at: int,
)
    requires
        0 <= at < before.active.len(),
        after.uninitialized == before.uninitialized,
        after.active == service::swap_removed(before.active, at),
        after.finalized.len() > 0,
        after.finalized == before.finalized_after(after.finalized.last()),
        after.finalized.last().endorser.key == before.active[at].endorser.key,
    ensures
        after.uninitialized_keys() == before.uninitialized_keys(),
        after.active.len() == before.active.len() - 1,
        forall|i: int|
            0 <= i < after.active.len() ==> after.active[i] == before.active[if i == at {
                before.active.len() - 1
            } else {
                i
            }] && #[trigger] after.active_keys()[i] == before.active_keys()[if i == at {
                before.active.len() - 1
            } else {
                i
            }],
        after.finalized.len() == before.finalized.len() - evicted(before) + 1,
        forall|i: int|
            0 <= i < after.finalized.len() - 1 ==> after.finalized[i]
                == before.finalized[i + evicted(before)] && #[trigger] after.finalized_keys()[i]
                == before.finalized_keys()[i + evicted(before)],
        after.finalized_keys()[after.finalized.len() - 1] == before.active_keys()[at],
{
    assert forall|i: int| 0 <= i < after.active.len() implies after.active[i]
        == before.active[if i == at {
        before.active.len() - 1
    } else {
        i
    }] && #[trigger] after.active_keys()[i] == before.active_keys()[if i == at {
        before.active.len() - 1
    } else {
        i
    }] by {
        lemma_swap_removed(before.active, at, i);
    }
}

/// Finalizing an endorser keeps its activation receipt, and keeps those of all
/// others but for the one that goes.
proof fn lemma_finalization_keeps(
    before: ServiceView,
    after: ServiceView,
    at: int,
    alias: u64,
    receipt: Seq<u8>,
)
    requires
        0 <= at < before.active.len(),
        after.uninitialized == before.uninitialized,
        after.active == service::swap_removed(before.active, at),
        after.finalized.len() > 0,
        after.finalized == before.finalized_after(after.finalized.last()),
        after.finalized.last().endorser.key == before.active[at].endorser.key,
        after.finalized.last().endorser.activation_receipt
            == before.active[at].endorser.activation_receipt,
    ensures
        has_receipt(before, alias, receipt) ==> has_receipt(after, alias, receipt) || (
        before.finalized.len() >= 16 && is_finalized(before, alias, 0) && unknown(after, alias)),
        unknown(before, alias) ==> unknown(after, alias),
{
    lemma_keys_after_finalization(before, after, at);
    let active = after.active_keys();
    let finalized = after.finalized_keys();
    let gone = evicted(before);
    let last = finalized.len() - 1;
    if unknown(before, alias) {
        assert(endorser::alias_of(before.active_keys()[at]) != alias);
        assert forall|i: int| 0 <= i < active.len() implies endorser::alias_of(
            #[trigger] active[i],
        ) != alias by {}
        assert forall|i: int| 0 <= i < finalized.len() implies endorser::alias_of(
            #[trigger] finalized[i],
        ) != alias by {
            if i < last {
                assert(finalized[i] == before.finalized_keys()[i + gone]);
            }
        }
    }
    if has_receipt(before, alias, receipt) {
        if exists|position: int| #[trigger]
            is_active(before, alias, position)
                && before.active[position].endorser.activation_receipt == receipt {
            let position = choose|position: int| #[trigger]
                is_active(before, alias, position)
                    && before.active[position].endorser.activation_receipt == receipt;
            assert(before.active_keys().len() == before.active.len());
            if position == at {
                assert forall|i: int| 0 <= i < active.len() implies endorser::alias_of(
                    #[trigger] active[i],
                ) != alias by {}
                assert forall|i: int| 0 <= i < finalized.len() implies (endorser::alias_of(
                    #[trigger] finalized[i],
                ) == alias <==> i == last) by {
                    if i < last {
                        assert(finalized[i] == before.finalized_keys()[i + gone]);
                    }
                }
                assert(is_finalized(after, alias, last));
            } else {
                let moved = if position == before.active.len() - 1 {
                    at
                } else {
                    position
                };
                assert(endorser::alias_of(before.active_keys()[at]) != alias);
                assert forall|i: int| 0 <= i < active.len() implies (endorser::alias_of(
                    #[trigger] active[i],
                ) == alias <==> i == moved) by {}
                assert forall|i: int| 0 <= i < finalized.len() implies endorser::alias_of(
                    #[trigger] finalized[i],
                ) != alias by {
                    if i < last {
                        assert(finalized[i] == before.finalized_keys()[i + gone]);
                    }
                }
                assert(active[moved] == before.active_keys()[position]);
                assert(is_active(after, alias, moved));
            }
        } else {
            let position = choose|position: int| #[trigger]
                is_finalized(before, alias, position)
                    && before.finalized[position].endorser.activation_receipt == receipt;
            assert(endorser::alias_of(before.active_keys()[at]) != alias);
            assert forall|i: int| 0 <= i < active.len() implies endorser::alias_of(
                #[trigger] active[i],
            ) != alias by {}
            assert forall|i: int| 0 <= i < finalized.len() implies (endorser::alias_of(
                #[trigger] finalized[i],
            ) == alias <==> i == position - gone) by {
                if i < last {
                    assert(finalized[i] == before.finalized_keys()[i + gone]);
                }
            }
            if position - gone >= 0 {
                assert(finalized[position - gone] == before.finalized_keys()[position]);
                assert(is_finalized(after, alias, position - gone));
            }
        }
    }
}

/// Whatever is asked of the service, it goes on to have exactly one endorser
/// with the alias, which was activated with the receipt, or has none any more:
/// that is so only if the endorser was the oldest of the finalized ones, and
/// another one was finalized while as many were kept as are kept.
pub proof fn law_receipts_are_kept(
    to: &mut EndorserService,
    call: Call,
    alias: u64,
    receipt: Seq<u8>,
)
    requires
        call.happens(to),
        call.adds_none(alias),
    ensures
        has_receipt(old(to)@, alias, receipt) ==> has_receipt(final(to)@, alias, receipt) || (
        call is Finalize && old(to)@.finalized.len() >= 16 && is_finalized(old(to)@, alias, 0)
            && unknown(final(to)@, alias)),
        unknown(old(to)@, alias) ==> unknown(final(to)@, alias),
{
    let before = old(to)@;
    let after = final(to)@;
    match call {
        Call::CreateEndorser { endorser, vk_signature, created } => {
            if created is Ok {
                lemma_creation_keeps(before, after, alias, receipt);
            }
        },
        Call::Activate { request, response } => {
            if response is Ok {
                lemma_found(before.uninitialized_keys(), request.endorser_alias);
                let at = before.find_uninitialized(request.endorser_alias)->Ok_0;
                lemma_activation_keeps(before, after, at, alias, receipt);
            }
        },
        Call::CreateLedger { request, response } => {
            if response is Ok {
                lemma_found(before.active_keys(), request.endorser_alias);
                let at = before.find_active(request.endorser_alias)->Ok_0;
                lemma_update_keeps(before, after, at, alias, receipt);
            }
        },
        Call::Append { request, response } => {
            if response matches Some(Ok(_)) {
                lemma_found(before.active_keys(), request.endorser_alias);
                let at = before.find_active(request.endorser_alias)->Ok_0;
                lemma_update_keeps(before, after, at, alias, receipt);
            }
        },
        Call::Finalize { request, response } => {
            if response is Ok {
                lemma_found(before.active_keys(), request.endorser_alias);
                let at = before.find_active(request.endorser_alias)->Ok_0;
                lemma_finalization_keeps(before, after, at, alias, receipt);
            }
        },
    }
}

/// An activation that returned a receipt leaves an endorser with that receipt.
pub proof fn law_activation_leaves_its_receipt(
    to: &mut EndorserService,
    request: ActivateEndorserRequest,
    activated: ActivateEndorserResponse,
    position: int,
)
    requires
        call_ensures(
            EndorserService::activate_endorser,
            (to, request),
            Ok::<_, Status>(activated),
        ),
        awaits_activation(old(to)@, request.endorser_alias, position),
    ensures
        has_receipt(final(to)@, request.endorser_alias, activated.activation_receipt@),
{
    let before = old(to)@;
    let after = final(to)@;
    let alias = request.endorser_alias;
    lemma_only(before.uninitialized_keys(), alias, position);
    let keys = after.uninitialized_keys();
    assert forall|i: int| 0 <= i < keys.len() implies endorser::alias_of(#[trigger] keys[i])
        != alias by {
        lemma_swap_removed(before.uninitialized, position, i);
        let from = if i == position {
            before.uninitialized.len() - 1
        } else {
            i
        };
        assert(keys[i] == before.uninitialized_keys()[from]);
    }
    let active = after.active_keys();
    let last = before.active.len() as int;
    assert(active[last] == before.uninitialized_keys()[position]);
    assert forall|i: int| 0 <= i < active.len() implies (endorser::alias_of(#[trigger] active[i])
        == alias <==> i == last) by {
        if i < last {
            assert(active[i] == before.active_keys()[i]);
        }
    }
    assert(is_active(after, alias, last));
}

/// Asking for an endorser gives the receipt with which it was activated, whether
/// it is active or finalized. An alias that no endorser has is not found.
pub proof fn law_answer_gives_the_receipt(
    asked: &EndorserService,
    request: GetEndorserRequest,
    response: Result<EndorserProto, Status>,
    receipt: Seq<u8>,
)
    requires
        call_ensures(EndorserService::get_endorser, (asked, request), response),
    ensures
        has_receipt(asked@, request.endorser_alias, receipt) ==> {
            &&& response is Ok
            &&& given_receipt(response->Ok_0) == Some(receipt)
        },
        unknown(asked@, request.endorser_alias) ==> response is Err && response->Err_0.code
            == StatusCode::NotFound,
{
    let service = asked@;
    let alias = request.endorser_alias;
    lemma_found(service.uninitialized_keys(), alias);
    lemma_found(service.active_keys(), alias);
    lemma_found(service.finalized_keys(), alias);
    if exists|position: int| #[trigger]
        is_active(service, alias, position)
            && service.active[position].endorser.activation_receipt == receipt {
        let position = choose|position: int| #[trigger]
            is_active(service, alias, position)
                && service.active[position].endorser.activation_receipt == receipt;
        lemma_only(service.active_keys(), alias, position);
    } else if exists|position: int| #[trigger]
        is_finalized(service, alias, position)
            && service.finalized[position].endorser.activation_receipt == receipt {
        let position = choose|position: int| #[trigger]
            is_finalized(service, alias, position)
                && service.finalized[position].endorser.activation_receipt == receipt;
        lemma_only(service.finalized_keys(), alias, position);
    }
}

/// Whether calls happen to a service one after the other.
pub open spec fn happen(calls: Seq<Call>, to: Seq<&mut EndorserService>) -> bool {
    &&& calls.len() == to.len()
    &&& forall|i: int| 0 <= i < calls.len() ==> (#[trigger] calls[i]).happens(to[i])
}

proof fn lemma_receipt_after_calls(
    calls: Seq<Call>,
    to: Seq<&mut EndorserService>,
    n: int,
    alias: u64,
    receipt: Seq<u8>,
)
    requires
        happen(calls, to),
        0 <= n < calls.len(),
        forall|i: int| 0 < i < calls.len() ==> (#[trigger] calls[i]).adds_none(alias),
        forall|i: int|
            #![trigger to[i]]
            0 < i < calls.len() ==> to[i]@ == final(to[i - 1])@,
        has_receipt(final(to[0])@, alias, receipt),
    ensures
        has_receipt(final(to[n])@, alias, receipt) || unknown(final(to[n])@, alias),
    decreases n,
{
    if n > 0 {
        lemma_receipt_after_calls(calls, to, n - 1, alias, receipt);
        assert(calls[n].happens(to[n]));
        assert(to[n]@ == final(to[n - 1])@);
        law_receipts_are_kept(to[n], calls[n], alias, receipt);
    }
}

/// A lost activation receipt can be recovered: after an activation that returned
/// a receipt, whatever else is asked of the service (to create endorsers with
/// other aliases, to activate, to create ledgers, to append, to finalize), asking
/// for the alias gives the same receipt, as long as the endorser is retained.
pub proof fn law_activation_receipt_can_be_recovered(
    calls: Seq<Call>,
    to: Seq<&mut EndorserService>,
    request: ActivateEndorserRequest,
    activated: ActivateEndorserResponse,
    position: int,
    asked: &EndorserService,
    response: Result<EndorserProto, Status>,
)
    requires
        happen(calls, to),
        calls.len() > 0,
        calls[0] == (Call::Activate { request, response: Ok(activated) }),
        awaits_activation(to[0]@, request.endorser_alias, position),
        forall|i: int|
            0 < i < calls.len() ==> (#[trigger] calls[i]).adds_none(request.endorser_alias),
        forall|i: int|
            #![trigger to[i]]
            0 < i < calls.len() ==> to[i]@ == final(to[i - 1])@,
        asked@ == final(to[to.len() - 1])@,
        call_ensures(
            EndorserService::get_endorser,
            (asked, GetEndorserRequest { endorser_alias: request.endorser_alias }),
            response,
        ),
    ensures
        match response {
            Ok(proto) => given_receipt(proto) == Some(activated.activation_receipt@),
            Err(status) => status.code == StatusCode::NotFound,
        },
{
    let alias = request.endorser_alias;
    let receipt = activated.activation_receipt@;
    assert(calls[0].happens(to[0]));
    law_activation_leaves_its_receipt(to[0], request, activated, position);
    lemma_receipt_after_calls(calls, to, calls.len() - 1, alias, receipt);
    law_answer_gives_the_receipt(
        asked,
        GetEndorserRequest { endorser_alias: alias },
        response,
        receipt,
    );
}

/// After a finalization, asking for the endorser gives the finalization receipt
/// that was returned, with the activation receipt and the instance that were
/// given before.
pub proof fn law_finalization_receipt_can_be_recovered(
    to: &mut EndorserService,
    request: FinalizeEndorserRequest,
    finalized: FinalizeEndorserResponse,
    position: int,
    before: &EndorserService,
    active: Result<EndorserProto, Status>,
    after: &EndorserService,
    response: Result<EndorserProto, Status>,
)
    requires
        call_ensures(
            EndorserService::finalize_endorser,
            (to, request),
            Ok::<_, Status>(finalized),
        ),
        is_active(old(to)@, request.endorser_alias, position),
        before@ == old(to)@,
        call_ensures(
            EndorserService::get_endorser,
            (before, GetEndorserRequest { endorser_alias: request.endorser_alias }),
            active,
        ),
        after@ == final(to)@,
        call_ensures(
            EndorserService::get_endorser,
            (after, GetEndorserRequest { endorser_alias: request.endorser_alias }),
            response,
        ),
    ensures
        active is Ok,
        response is Ok,
        ({
            let earlier = active->Ok_0;
            let later = response->Ok_0;
            &&& later.alias == earlier.alias
            &&& later.verifying_key_signature@ == earlier.verifying_key_signature@
            &&& key_bytes(later) == key_bytes(earlier)
            &&& earlier.state matches Some(EndorserStateProto::Active(a))
            &&& later.state matches Some(EndorserStateProto::Finalized(f))
            &&& f.instance_id@ == a.instance_id@
            &&& f.activation_receipt@ == a.activation_receipt@
            &&& f.finalization_receipt@ == finalized.finalization_receipt@
        }),
{
    let service = old(to)@;
    let alias = request.endorser_alias;
    lemma_only(service.active_keys(), alias, position);
    lemma_found(service.uninitialized_keys(), alias);
    let bound = final(to)@.finalized.last();
    assert(service::only_active_with_alias(service, alias, position)) by {
        assert forall|i: int|
            0 <= i < service.active.len() && i != position implies endorser::alias_of(
            #[trigger] service.active_keys()[i],
        ) != alias by {}
    }
    service::law_finalized_endorser_is_found(service, alias, position, bound);
}

/// The bytes of the verifying key that an answer gives.
pub open spec fn key_bytes(proto: EndorserProto) -> Option<Seq<u8>> {
    match proto.verifying_key {
        Some(VerifyingKeyProto { key: Some(VerifyingKeyProtoOneOf::Ecdsa(encoding)) }) => Some(
            encoding@,
        ),
        _ => None,
    }
}

// ---------------------------------------------------------------------------
// Endorsers that a request is not about
// ---------------------------------------------------------------------------

impl Call {
    /// Whether the request is on the endorser with the alias.
    pub open spec fn is_on(self, alias: u64) -> bool {
        match self {
            Call::CreateEndorser { endorser, .. } => endorser::alias_of(endorser@.key) == alias,
            Call::Activate { request, .. } => request.endorser_alias == alias,
            Call::CreateLedger { request, .. } => request.endorser_alias == alias,
            Call::Append { request, .. } => request.endorser_alias == alias,
            Call::Finalize { request, .. } => request.endorser_alias == alias,
        }
    }
}

/// The keys after an endorser was activated.
proof fn lemma_keys_after_activation(before: ServiceView, after: ServiceView, at: int)
    requires
        0 <= at < before.uninitialized.len(),
        after.uninitialized == service::swap_removed(before.uninitialized, at),
        after.active.len() > 0,
        after.active == before.active.push(after.active.last()),
        after.active.last().endorser.key == before.uninitialized[at].endorser.key,
    ensures
        after.uninitialized.len() == before.uninitialized.len() - 1,
        forall|i: int|
            0 <= i < after.uninitialized.len() ==> after.uninitialized[i]
                == before.uninitialized[if i == at {
                before.uninitialized.len() - 1
            } else {
                i
            }] && #[trigger] after.uninitialized_keys()[i]
                == before.uninitialized_keys()[if i == at {
                before.uninitialized.len() - 1
            } else {
                i
            }],
        after.active.len() == before.active.len() + 1,
        forall|i: int|
            0 <= i < before.active.len() ==> after.active[i] == before.active[i]
                && #[trigger] after.active_keys()[i] == before.active_keys()[i],
        after.active_keys()[before.active.len() as int] == before.uninitialized_keys()[at],
{
    assert forall|i: int| 0 <= i < after.uninitialized.len() implies after.uninitialized[i]
        == before.uninitialized[if i == at {
        before.uninitialized.len() - 1
    } else {
        i
    }] && #[trigger] after.uninitialized_keys()[i] == before.uninitialized_keys()[if i == at {
        before.uninitialized.len() - 1
    } else {
        i
    }] by {
        lemma_swap_removed(before.uninitialized, at, i);
    }
}

/// A request on one endorser leaves an active endorser with another alias as it
/// is, with its ledgers.
pub proof fn law_other_active_endorsers_are_kept(
    to: &mut EndorserService,
    call: Call,
    alias: u64,
    position: int,
)
    requires
        call.happens(to),
        !call.is_on(alias),
        is_active(old(to)@, alias, position),
    ensures
        exists|later: int| #[trigger]
            is_active(final(to)@, alias, later) && final(to)@.active[later]
                == old(to)@.active[position],
{
    let before = old(to)@;
    let after = final(to)@;
    let keys = before.active_keys();
    match call {
        Call::CreateEndorser { endorser, vk_signature, created } => {
            if created is Ok {
                let fresh = after.uninitialized_keys();
                assert forall|i: int| 0 <= i < fresh.len() implies endorser::alias_of(
                    #[trigger] fresh[i],
                ) != alias by {
                    if i < before.uninitialized.len() {
                        assert(fresh[i] == before.uninitialized_keys()[i]);
                    }
                }
            }
            assert(is_active(after, alias, position));
        },
        Call::Activate { request, response } => {
            if response is Ok {
                lemma_found(before.uninitialized_keys(), request.endorser_alias);
                let at = before.find_uninitialized(request.endorser_alias)->Ok_0;
                lemma_keys_after_activation(before, after, at);
                assert forall|i: int| 0 <= i < after.active.len() implies (endorser::alias_of(
                    #[trigger] after.active_keys()[i],
                ) == alias <==> i == position) by {
                    if i < before.active.len() {
                        assert(after.active_keys()[i] == keys[i]);
                    }
                }
            }
            assert(is_active(after, alias, position));
        },
        Call::CreateLedger { request, response } => {
            if response is Ok {
                lemma_found(keys, request.endorser_alias);
                assert(after.active_keys() =~= keys);
            }
            assert(is_active(after, alias, position));
        },
        Call::Append { request, response } => {
            if response matches Some(Ok(_)) {
                lemma_found(keys, request.endorser_alias);
                assert(after.active_keys() =~= keys);
            }
            assert(is_active(after, alias, position));
        },
        Call::Finalize { request, response } => {
            if response is Ok {
                lemma_found(keys, request.endorser_alias);
                let at = before.find_active(request.endorser_alias)->Ok_0;
                lemma_keys_after_finalization(before, after, at);
                let later = if position == before.active.len() - 1 {
                    at
                } else {
                    position
                };
                assert(endorser::alias_of(keys[at]) != alias);
                assert forall|i: int| 0 <= i < after.active.len() implies (endorser::alias_of(
                    #[trigger] after.active_keys()[i],
                ) == alias <==> i == later) by {}
                assert forall|i: int| 0 <= i < after.finalized.len() implies endorser::alias_of(
                    #[trigger] after.finalized_keys()[i],
                ) != alias by {
                    if i < after.finalized.len() - 1 {
                        assert(after.finalized_keys()[i] == before.finalized_keys()[i + evicted(
                            before,
                        )]);
                    }
                }
                assert(after.active_keys()[later] == keys[position]);
                assert(is_active(after, alias, later));
            } else {
                assert(is_active(after, alias, position));
            }
        },
    }
}

/// A request on one endorser leaves an endorser with another alias that is not
/// yet activated as it is.
pub proof fn law_others_await_activation_still(
    to: &mut EndorserService,
    call: Call,
    alias: u64,
    position: int,
)
    requires
        call.happens(to),
        !call.is_on(alias),
        awaits_activation(old(to)@, alias, position),
    ensures
        exists|later: int| #[trigger]
            awaits_activation(final(to)@, alias, later) && final(to)@.uninitialized[later]
                == old(to)@.uninitialized[position],
{
    let before = old(to)@;
    let after = final(to)@;
    let keys = before.uninitialized_keys();
    match call {
        Call::CreateEndorser { endorser, vk_signature, created } => {
            if created is Ok {
                let fresh = after.uninitialized_keys();
                assert forall|i: int| 0 <= i < fresh.len() implies (endorser::alias_of(
                    #[trigger] fresh[i],
                ) == alias <==> i == position) by {
                    if i < before.uninitialized.len() {
                        assert(fresh[i] == keys[i]);
                    }
                }
            }
            assert(awaits_activation(after, alias, position));
        },
        Call::Activate { request, response } => {
            if response is Ok {
                lemma_found(keys, request.endorser_alias);
                let at = before.find_uninitialized(request.endorser_alias)->Ok_0;
                lemma_keys_after_activation(before, after, at);
                let later = if position == before.uninitialized.len() - 1 {
                    at
                } else {
                    position
                };
                assert(endorser::alias_of(keys[at]) != alias);
                assert forall|i: int| 0 <= i < after.uninitialized.len() implies (
                endorser::alias_of(#[trigger] after.uninitialized_keys()[i]) == alias <==> i
                    == later) by {}
                assert forall|i: int| 0 <= i < after.active.len() implies endorser::alias_of(
                    #[trigger] after.active_keys()[i],
                ) != alias by {
                    if i < before.active.len() {
                        assert(after.active_keys()[i] == before.active_keys()[i]);
                    }
                }
                assert(after.uninitialized_keys()[later] == keys[position]);
                assert(awaits_activation(after, alias, later));
            } else {
                assert(awaits_activation(after, alias, position));
            }
        },
        Call::CreateLedger { request, response } => {
            if response is Ok {
                lemma_found(before.active_keys(), request.endorser_alias);
                assert(after.active_keys() =~= before.active_keys());
            }
            assert(awaits_activation(after, alias, position));
        },
        Call::Append { request, response } => {
            if response matches Some(Ok(_)) {
                lemma_found(before.active_keys(), request.endorser_alias);
                assert(after.active_keys() =~= before.active_keys());
            }
            assert(awaits_activation(after, alias, position));
        },
        Call::Finalize { request, response } => {
            if response is Ok {
                lemma_found(before.active_keys(), request.endorser_alias);
                let at = before.find_active(request.endorser_alias)->Ok_0;
                lemma_keys_after_finalization(before, after, at);
                assert(endorser::alias_of(before.active_keys()[at]) != alias);
                assert forall|i: int| 0 <= i < after.active.len() implies endorser::alias_of(
                    #[trigger] after.active_keys()[i],
                ) != alias by {}
                assert forall|i: int| 0 <= i < after.finalized.len() implies endorser::alias_of(
                    #[trigger] after.finalized_keys()[i],
                ) != alias by {
                    if i < after.finalized.len() - 1 {
                        assert(after.finalized_keys()[i] == before.finalized_keys()[i + evicted(
                            before,
                        )]);
                    }
                }
            }
            assert(awaits_activation(after, alias, position));
        },
    }
}

/// A finalized endorser stays as it is, and goes only if it is the oldest of
/// sixteen and another one is finalized.
pub proof fn law_finalized_endorsers_are_kept(
    to: &mut EndorserService,
    call: Call,
    alias: u64,
    position: int,
)
    requires
        call.happens(to),
        call.adds_none(alias),
        is_finalized(old(to)@, alias, position),
        !(call is Finalize && old(to)@.finalized.len() >= 16 && position == 0),
    ensures
        exists|later: int| #[trigger]
            is_finalized(final(to)@, alias, later) && final(to)@.finalized[later]
                == old(to)@.finalized[position],
{
    let before = old(to)@;
    let after = final(to)@;
    let keys = before.finalized_keys();
    match call {
        Call::CreateEndorser { endorser, vk_signature, created } => {
            if created is Ok {
                let fresh = after.uninitialized_keys();
                assert forall|i: int| 0 <= i < fresh.len() implies endorser::alias_of(
                    #[trigger] fresh[i],
                ) != alias by {
                    if i < before.uninitialized.len() {
                        assert(fresh[i] == before.uninitialized_keys()[i]);
                    }
                }
            }
            assert(is_finalized(after, alias, position));
        },
        Call::Activate { request, response } => {
            if response is Ok {
                lemma_found(before.uninitialized_keys(), request.endorser_alias);
                let at = before.find_uninitialized(request.endorser_alias)->Ok_0;
                lemma_keys_after_activation(before, after, at);
                assert(endorser::alias_of(before.uninitialized_keys()[at]) != alias);
                assert forall|i: int| 0 <= i < after.uninitialized.len() implies
                    endorser::alias_of(#[trigger] after.uninitialized_keys()[i]) != alias by {}
                assert forall|i: int| 0 <= i < after.active.len() implies endorser::alias_of(
                    #[trigger] after.active_keys()[i],
                ) != alias by {
                    if i < before.active.len() {
                        assert(after.active_keys()[i] == before.active_keys()[i]);
                    }
                }
            }
            assert(is_finalized(after, alias, position));
        },
        Call::CreateLedger { request, response } => {
            if response is Ok {
                lemma_found(before.active_keys(), request.endorser_alias);
                assert(after.active_keys() =~= before.active_keys());
            }
            assert(is_finalized(after, alias, position));
        },
        Call::Append { request, response } => {
            if response matches Some(Ok(_)) {
                lemma_found(before.active_keys(), request.endorser_alias);
                assert(after.active_keys() =~= before.active_keys());
            }
            assert(is_finalized(after, alias, position));
        },
        Call::Finalize { request, response } => {
            if response is Ok {
                lemma_found(before.active_keys(), request.endorser_alias);
                let at = before.find_active(request.endorser_alias)->Ok_0;
                lemma_keys_after_finalization(before, after, at);
                let gone = evicted(before);
                let later = position - gone;
                assert(endorser::alias_of(before.active_keys()[at]) != alias);
                assert forall|i: int| 0 <= i < after.active.len() implies endorser::alias_of(
                    #[trigger] after.active_keys()[i],
                ) != alias by {}
                assert forall|i: int| 0 <= i < after.finalized.len() implies (
                endorser::alias_of(#[trigger] after.finalized_keys()[i]) == alias <==> i
                    == later) by {
                    if i < after.finalized.len() - 1 {
                        assert(after.finalized_keys()[i] == keys[i + gone]);
                    }
                }
                assert(after.finalized_keys()[later] == keys[position]);
                assert(is_finalized(after, alias, later));
            } else {
                assert(is_finalized(after, alias, position));
            }
        },
    }
}

} // verus!
