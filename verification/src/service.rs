//! The endorser service: manages a set of endorsers and serves requests on
//! them.
//!
//! What needs the enclave's attestation stays with the caller: it obtains the
//! evidence, and signs the verifying key of each new endorser.

use std::collections::VecDeque;
use vstd::prelude::*;

use crate::bytes;
use crate::cohort;
use crate::crypto;
use crate::endorser;
use crate::endorser::{
    Active, ActiveView, AppendEntryError, CreateLedgerError, Endorser, Finalized,
    FinalizedView, Phase, Uninitialized, UninitializedView,
};
use crate::messages::{
    ActivateEndorserRequest, ActivateEndorserResponse, AppendEntryRequest, AppendEntryResponse,
    CreateLedgerRequest, CreateLedgerResponse, EndorserProto, FinalizeEndorserRequest,
    FinalizeEndorserResponse, GetEndorserRequest, ListEndorsersRequest, ListEndorsersResponse,
    ReadLatestRequest, ReadLatestResponse,
};
use crate::proto_mapping;
use crate::receipts;
use crate::status;
use crate::status::{Status, StatusCode, StatusView};
use crate::takeover::TakeOverView;

verus! {

// ---------------------------------------------------------------------------
// Defence-in-depth constraints
//
// These operational limits prevent a buggy coordinator from sending
// excessively large payloads that could exhaust enclave memory.
// ---------------------------------------------------------------------------

/// Maximum number of endorsers (across all states) managed by this service.
pub const MAX_ENDORSERS: usize = 100;

/// Maximum number of finalized endorsers kept for receipt recovery.
/// When this limit is reached, the oldest finalized endorser is evicted.
pub const MAX_FINALIZED_ENDORSERS: usize = 16;

/// Maximum number of ledgers per endorser.
pub const MAX_LEDGERS: usize = 100;

/// Maximum number of endorser keys in a single cohort config.
pub const MAX_COHORT_SIZE: usize = 200;

// ---------------------------------------------------------------------------
// State
// ---------------------------------------------------------------------------

/// An endorser paired with its attestation binding signature.
///
/// The `vk_signature` covers the endorser's verifying key, and binds it to the
/// TEE attestation evidence chain. This is not part of the core protocol.
pub struct BoundEndorser<S: Phase> {
    pub endorser: Endorser<S>,
    pub vk_signature: Vec<u8>,
}

/// What an endorser paired with its attestation binding signature is.
#[verifier::ext_equal]
pub struct BoundView<E> {
    pub endorser: E,
    pub vk_signature: Seq<u8>,
}

impl View for BoundEndorser<Uninitialized> {
    type V = BoundView<UninitializedView>;

    open spec fn view(&self) -> BoundView<UninitializedView> {
        BoundView { endorser: self.endorser@, vk_signature: self.vk_signature@ }
    }
}

impl View for BoundEndorser<Active> {
    type V = BoundView<ActiveView>;

    open spec fn view(&self) -> BoundView<ActiveView> {
        BoundView { endorser: self.endorser@, vk_signature: self.vk_signature@ }
    }
}

impl View for BoundEndorser<Finalized> {
    type V = BoundView<FinalizedView>;

    open spec fn view(&self) -> BoundView<FinalizedView> {
        BoundView { endorser: self.endorser@, vk_signature: self.vk_signature@ }
    }
}

/// The state of the service: the endorsers in each phase. The finalized ones
/// are in the order in which they were finalized.
#[verifier::ext_equal]
pub struct ServiceView {
    pub uninitialized: Seq<BoundView<UninitializedView>>,
    pub active: Seq<BoundView<ActiveView>>,
    pub finalized: Seq<BoundView<FinalizedView>>,
}

/// The position of the first key with the given alias.
pub open spec fn first_with_alias(keys: Seq<Seq<u8>>, alias: u64) -> Option<int>
    decreases keys.len(),
{
    if keys.len() == 0 {
        None
    } else {
        match first_with_alias(keys.drop_last(), alias) {
            Some(position) => Some(position),
            None => if endorser::alias_of(keys.last()) == alias {
                Some(keys.len() - 1)
            } else {
                None
            },
        }
    }
}

/// The status for an endorser found in the wrong state.
pub open spec fn wrong_state(alias: u64, expected: Seq<char>, actual: Seq<char>) -> StatusView {
    status::failed_precondition(
        "endorser "@ + bytes::decimal(alias as nat) + ": expected "@ + expected
            + " state, but is "@ + actual,
    )
}

/// The status for an endorser alias that doesn't exist.
pub open spec fn no_such_endorser(alias: u64) -> StatusView {
    status::not_found("endorser with alias "@ + bytes::decimal(alias as nat) + " not found"@)
}

/// The sequence without the item at a position, which the last item replaces.
pub open spec fn swap_removed<T>(items: Seq<T>, position: int) -> Seq<T> {
    items.update(position, items.last()).drop_last()
}

impl ServiceView {
    /// The keys of the endorsers before activation.
    pub open spec fn uninitialized_keys(self) -> Seq<Seq<u8>> {
        self.uninitialized.map_values(|bound: BoundView<UninitializedView>| bound.endorser.key)
    }

    /// The keys of the active endorsers.
    pub open spec fn active_keys(self) -> Seq<Seq<u8>> {
        self.active.map_values(|bound: BoundView<ActiveView>| bound.endorser.key)
    }

    /// The keys of the finalized endorsers.
    pub open spec fn finalized_keys(self) -> Seq<Seq<u8>> {
        self.finalized.map_values(|bound: BoundView<FinalizedView>| bound.endorser.key)
    }

    /// The number of endorsers in all phases.
    pub open spec fn total(self) -> nat {
        self.uninitialized.len() + self.active.len() + self.finalized.len()
    }

    /// Whether the service is within its limits: on the number of endorsers, and
    /// on the ledgers and the cohort size of each active one.
    pub open spec fn within_limits(self) -> bool {
        &&& self.total() <= MAX_ENDORSERS
        &&& self.finalized.len() <= MAX_FINALIZED_ENDORSERS
        &&& forall|i: int|
            0 <= i < self.active.len() ==> endorser_within_limits(
                (#[trigger] self.active[i]).endorser,
            )
    }

    /// Where the active endorser with the given alias is.
    pub open spec fn find_active(self, alias: u64) -> Result<int, StatusView> {
        match first_with_alias(self.active_keys(), alias) {
            Some(position) => Ok(position),
            None => if first_with_alias(self.uninitialized_keys(), alias) is Some {
                Err(wrong_state(alias, "active"@, "uninitialized"@))
            } else if first_with_alias(self.finalized_keys(), alias) is Some {
                Err(wrong_state(alias, "active"@, "finalized"@))
            } else {
                Err(no_such_endorser(alias))
            },
        }
    }

    /// Where the endorser before activation with the given alias is.
    pub open spec fn find_uninitialized(self, alias: u64) -> Result<int, StatusView> {
        match first_with_alias(self.uninitialized_keys(), alias) {
            Some(position) => Ok(position),
            None => if first_with_alias(self.active_keys(), alias) is Some {
                Err(wrong_state(alias, "uninitialized"@, "active"@))
            } else if first_with_alias(self.finalized_keys(), alias) is Some {
                Err(wrong_state(alias, "uninitialized"@, "finalized"@))
            } else {
                Err(no_such_endorser(alias))
            },
        }
    }

    /// The failure of a request to create an endorser, if it fails.
    pub open spec fn create_endorser_failure(self) -> Option<StatusView> {
        if self.total() >= MAX_ENDORSERS {
            Some(
                status::failed_precondition(
                    "Maximum number of endorsers ("@ + bytes::decimal(MAX_ENDORSERS as nat)
                        + ") exceeded"@,
                ),
            )
        } else {
            None
        }
    }

    /// The failure of an activation request, if it fails.
    pub open spec fn activate_failure(self, request: ActivateEndorserRequest) -> Option<
        StatusView,
    > {
        match proto_mapping::config_of(request.new_config, "new_config"@) {
            Err(failure) => Some(failure),
            Ok(config) => match proto_mapping::takeover_of(request.prev_cohort_takeover) {
                Err(failure) => Some(failure),
                Ok(takeover) => match self.find_uninitialized(request.endorser_alias) {
                    Err(failure) => Some(failure),
                    Ok(position) => activation_failure(
                        self.uninitialized[position].endorser,
                        config,
                        takeover,
                    ),
                },
            },
        }
    }

    /// The failure of a request to create a ledger, if it fails.
    pub open spec fn create_ledger_failure(self, request: CreateLedgerRequest) -> Option<
        StatusView,
    > {
        match self.find_active(request.endorser_alias) {
            Err(failure) => Some(failure),
            Ok(position) => {
                let ledgers = self.active[position].endorser.ledgers;
                if ledgers.len() >= MAX_LEDGERS {
                    Some(
                        status::failed_precondition(
                            "maximum number of ledgers ("@ + bytes::decimal(MAX_LEDGERS as nat)
                                + ") exceeded"@,
                        ),
                    )
                } else if ledgers.contains_key(request.ledger_id) {
                    Some(
                        status::failed_precondition(
                            "ledger with id "@ + bytes::decimal(request.ledger_id as nat)
                                + " already exists"@,
                        ),
                    )
                } else {
                    None
                }
            },
        }
    }

    /// Whether an otherwise well-formed append is for a ledger that has reached
    /// the last index.
    pub open spec fn appends_to_full(self, request: AppendEntryRequest) -> bool {
        &&& self.find_active(request.endorser_alias) matches Ok(position)
        &&& request.entry@.len() == 32
        &&& request.nonce != 0
        &&& self.active[position].endorser.ledgers.contains_key(request.ledger_id)
        &&& self.active[position].endorser.ledgers[request.ledger_id].index == u64::MAX
    }

    /// The failure of an append request, if it fails.
    pub open spec fn append_failure(self, request: AppendEntryRequest) -> Option<StatusView> {
        match self.find_active(request.endorser_alias) {
            Err(failure) => Some(failure),
            Ok(position) => {
                let ledgers = self.active[position].endorser.ledgers;
                if request.entry@.len() != 32 {
                    Some(status::invalid_argument("entry must be exactly 32 bytes"@))
                } else if request.nonce == 0 {
                    Some(status::invalid_argument("nonce must not be zero"@))
                } else if !ledgers.contains_key(request.ledger_id) {
                    Some(no_such_ledger(request.ledger_id))
                } else if request.expected_index != ledgers[request.ledger_id].index + 1 {
                    Some(
                        status::failed_precondition(
                            "expected index "@ + bytes::decimal(request.expected_index as nat)
                                + " does not match next index "@ + bytes::decimal(
                                (ledgers[request.ledger_id].index + 1) as nat,
                            ),
                        ),
                    )
                } else {
                    None
                }
            },
        }
    }

    /// The failure of a read request, if it fails.
    pub open spec fn read_failure(self, request: ReadLatestRequest) -> Option<StatusView> {
        match self.find_active(request.endorser_alias) {
            Err(failure) => Some(failure),
            Ok(position) => {
                let ledgers = self.active[position].endorser.ledgers;
                if request.nonce == 0 {
                    Some(status::invalid_argument("nonce must not be zero"@))
                } else if !ledgers.contains_key(request.ledger_id) {
                    Some(no_such_ledger(request.ledger_id))
                } else {
                    None
                }
            },
        }
    }

    /// The failure of a finalization request, if it fails.
    pub open spec fn finalize_failure(self, request: FinalizeEndorserRequest) -> Option<
        StatusView,
    > {
        match proto_mapping::config_of(request.next_cohort_config, "next_cohort_config"@) {
            Err(failure) => Some(failure),
            Ok(_) => match self.find_active(request.endorser_alias) {
                Err(failure) => Some(failure),
                Ok(_) => None,
            },
        }
    }

    /// The finalized endorsers after one more, from which the oldest is gone if
    /// there were as many as are kept.
    pub open spec fn finalized_after(self, bound: BoundView<FinalizedView>) -> Seq<
        BoundView<FinalizedView>,
    > {
        if self.finalized.len() >= MAX_FINALIZED_ENDORSERS {
            self.finalized.drop_first().push(bound)
        } else {
            self.finalized.push(bound)
        }
    }

    /// The keys and attestation bindings of the endorsers that are listed.
    pub open spec fn listed(self, include_finalized: bool) -> Seq<(Seq<u8>, Seq<u8>)> {
        let unfinalized = self.uninitialized.map_values(
            |bound: BoundView<UninitializedView>| (bound.endorser.key, bound.vk_signature),
        ) + self.active.map_values(
            |bound: BoundView<ActiveView>| (bound.endorser.key, bound.vk_signature),
        );
        if include_finalized {
            unfinalized + self.finalized.map_values(
                |bound: BoundView<FinalizedView>| (bound.endorser.key, bound.vk_signature),
            )
        } else {
            unfinalized
        }
    }
}

/// Whether an active endorser is within the limits on its ledgers and its
/// cohort's size.
pub open spec fn endorser_within_limits(endorser: ActiveView) -> bool {
    &&& endorser.ledgers.dom().finite()
    &&& endorser.ledgers.len() <= MAX_LEDGERS
    &&& endorser.config.len() <= MAX_COHORT_SIZE
}

/// The status for a ledger that doesn't exist.
pub open spec fn no_such_ledger(ledger_id: u32) -> StatusView {
    status::not_found("ledger with id "@ + bytes::decimal(ledger_id as nat) + " not found"@)
}

/// The failure of activating an endorser with a configuration and, if there is
/// one, a takeover.
pub open spec fn activation_failure(
    endorser: UninitializedView,
    config: Seq<Seq<u8>>,
    takeover: Option<TakeOverView>,
) -> Option<StatusView> {
    let alias = bytes::decimal(endorser::alias_of(endorser.key));
    if !config.contains(endorser.key) {
        Some(
            status::invalid_argument(
                "endorser with alias "@ + alias
                    + "'s verifying key is not in the cohort config"@,
            ),
        )
    } else if takeover matches Some(t) && !t.is_quorum_for(cohort::config_id_of(config)) {
        Some(
            status::invalid_argument(
                "endorser with alias "@ + alias
                    + ": finalization receipts do not form a quorum"@,
            ),
        )
    } else {
        None
    }
}

/// The endorser service.
pub struct EndorserService {
    // Endorsers in Uninitialized state.
    uninitialized_endorsers: Vec<BoundEndorser<Uninitialized>>,
    // Active endorsers.
    active_endorsers: Vec<BoundEndorser<Active>>,
    // Recently finalized endorsers, kept for receipt recovery.
    // Bounded to MAX_FINALIZED_ENDORSERS; oldest entries are evicted first.
    finalized_endorsers: VecDeque<BoundEndorser<Finalized>>,
}

impl View for EndorserService {
    type V = ServiceView;

    closed spec fn view(&self) -> ServiceView {
        ServiceView {
            uninitialized: self.uninitialized_endorsers@.map_values(
                |bound: BoundEndorser<Uninitialized>| bound@,
            ),
            active: self.active_endorsers@.map_values(|bound: BoundEndorser<Active>| bound@),
            finalized: self.finalized_endorsers@.map_values(
                |bound: BoundEndorser<Finalized>| bound@,
            ),
        }
    }
}

/// The keys of some endorsers, in order.
spec fn bound_keys<S: Phase>(endorsers: Seq<BoundEndorser<S>>) -> Seq<Seq<u8>> {
    endorsers.map_values(|bound: BoundEndorser<S>| bound.endorser.key())
}

/// The position of the first key with an alias, given that no earlier key has
/// it.
pub proof fn lemma_first_with_alias(keys: Seq<Seq<u8>>, position: int, alias: u64)
    requires
        0 <= position < keys.len(),
        endorser::alias_of(keys[position]) == alias,
        forall|j: int| 0 <= j < position ==> endorser::alias_of(#[trigger] keys[j]) != alias,
    ensures
        first_with_alias(keys, alias) == Some(position),
    decreases keys.len(),
{
    let earlier = keys.drop_last();
    if position < keys.len() - 1 {
        assert forall|j: int| 0 <= j < position implies endorser::alias_of(#[trigger] earlier[j])
            != alias by {
            assert(earlier[j] == keys[j]);
        }
        lemma_first_with_alias(earlier, position, alias);
    } else {
        assert forall|j: int| 0 <= j < earlier.len() implies endorser::alias_of(
            #[trigger] earlier[j],
        ) != alias by {
            assert(earlier[j] == keys[j]);
        }
        lemma_none_with_alias(earlier, alias);
    }
}

/// There is no position for an alias that no key has.
pub proof fn lemma_none_with_alias(keys: Seq<Seq<u8>>, alias: u64)
    requires
        forall|j: int| 0 <= j < keys.len() ==> endorser::alias_of(#[trigger] keys[j]) != alias,
    ensures
        first_with_alias(keys, alias) is None,
    decreases keys.len(),
{
    if keys.len() > 0 {
        let earlier = keys.drop_last();
        assert forall|j: int| 0 <= j < earlier.len() implies endorser::alias_of(
            #[trigger] earlier[j],
        ) != alias by {
            assert(earlier[j] == keys[j]);
        }
        lemma_none_with_alias(earlier, alias);
        assert(keys.last() == keys[keys.len() - 1]);
    }
}

/// Finds a bound endorser by alias.
fn find_by_alias<S: Phase>(endorsers: &[BoundEndorser<S>], alias: u64) -> (position: Option<usize>)
    ensures
        match position {
            Some(p) => p < endorsers@.len() && first_with_alias(bound_keys(endorsers@), alias)
                == Some(p as int),
            None => first_with_alias(bound_keys(endorsers@), alias) is None,
        },
{
    let ghost keys = bound_keys(endorsers@);
    let mut i: usize = 0;
    while i < endorsers.len()
        invariant
            i <= endorsers@.len(),
            keys == bound_keys(endorsers@),
            forall|j: int| 0 <= j < i ==> endorser::alias_of(#[trigger] keys[j]) != alias,
        decreases endorsers@.len() - i,
    {
        assert(keys[i as int] == endorsers@[i as int].endorser.key());
        if endorsers[i].endorser.alias() == alias {
            proof {
                lemma_first_with_alias(keys, i as int, alias);
            }
            return Some(i);
        }
        i += 1;
    }
    proof {
        lemma_none_with_alias(keys, alias);
    }
    None
}

/// Finds a finalized endorser by alias.
fn find_finalized(endorsers: &VecDeque<BoundEndorser<Finalized>>, alias: u64) -> (position: Option<
    usize,
>)
    ensures
        match position {
            Some(p) => p < endorsers@.len() && first_with_alias(bound_keys(endorsers@), alias)
                == Some(p as int),
            None => first_with_alias(bound_keys(endorsers@), alias) is None,
        },
{
    let ghost keys = bound_keys(endorsers@);
    let mut i: usize = 0;
    while i < endorsers.len()
        invariant
            i <= endorsers@.len(),
            keys == bound_keys(endorsers@),
            forall|j: int| 0 <= j < i ==> endorser::alias_of(#[trigger] keys[j]) != alias,
        decreases endorsers@.len() - i,
    {
        assert(keys[i as int] == endorsers@[i as int].endorser.key());
        if endorsers[i].endorser.alias() == alias {
            proof {
                lemma_first_with_alias(keys, i as int, alias);
            }
            return Some(i);
        }
        i += 1;
    }
    proof {
        lemma_none_with_alias(keys, alias);
    }
    None
}

/// Builds a `FailedPrecondition` status for an endorser found in the wrong state.
fn wrong_state_status(alias: u64, expected: &str, actual: &str) -> (status: Status)
    ensures
        status@ == wrong_state(alias, expected@, actual@),
{
    let mut message = "endorser ".to_owned();
    bytes::push_decimal(&mut message, alias);
    message.append(": expected ");
    message.append(expected);
    message.append(" state, but is ");
    message.append(actual);
    Status::new_with_message(StatusCode::FailedPrecondition, message)
}

/// Builds a `NotFound` status for an endorser alias that doesn't exist.
fn not_found_status(alias: u64) -> (status: Status)
    ensures
        status@ == no_such_endorser(alias),
{
    let mut message = "endorser with alias ".to_owned();
    bytes::push_decimal(&mut message, alias);
    message.append(" not found");
    Status::new_with_message(StatusCode::NotFound, message)
}

/// Builds a `NotFound` status for a ledger that doesn't exist.
fn ledger_not_found_status(ledger_id: u32) -> (status: Status)
    ensures
        status@ == no_such_ledger(ledger_id),
{
    let mut message = "ledger with id ".to_owned();
    bytes::push_decimal(&mut message, ledger_id as u64);
    message.append(" not found");
    Status::new_with_message(StatusCode::NotFound, message)
}

/// Builds a status whose message names a limit.
fn limit_status(before: &str, limit: usize) -> (status: Status)
    ensures
        status@ == status::failed_precondition(
            before@ + bytes::decimal(limit as nat) + ") exceeded"@,
        ),
{
    let mut message = before.to_owned();
    bytes::push_decimal(&mut message, limit as u64);
    message.append(") exceeded");
    Status::new_with_message(StatusCode::FailedPrecondition, message)
}

impl EndorserService {
    /// Creates a service without endorsers.
    pub fn new() -> (service: Self)
        ensures
            service@ == (ServiceView {
                uninitialized: Seq::empty(),
                active: Seq::empty(),
                finalized: Seq::empty(),
            }),
            service@.within_limits(),
    {
        let service = EndorserService {
            uninitialized_endorsers: Vec::new(),
            active_endorsers: Vec::new(),
            finalized_endorsers: VecDeque::new(),
        };
        assert(service@ =~= (ServiceView {
            uninitialized: Seq::empty(),
            active: Seq::empty(),
            finalized: Seq::empty(),
        }));
        service
    }

    /// The keys are the same, taken from the endorsers or from their views.
    proof fn lemma_keys(&self)
        ensures
            bound_keys(self.uninitialized_endorsers@) == self@.uninitialized_keys(),
            bound_keys(self.active_endorsers@) == self@.active_keys(),
            bound_keys(self.finalized_endorsers@) == self@.finalized_keys(),
    {
        assert(bound_keys(self.uninitialized_endorsers@) =~= self@.uninitialized_keys());
        assert(bound_keys(self.active_endorsers@) =~= self@.active_keys());
        assert(bound_keys(self.finalized_endorsers@) =~= self@.finalized_keys());
    }

    /// Returns the position of an active endorser by alias.
    ///
    /// Returns `NotFound` if the alias doesn't exist at all, or
    /// `FailedPrecondition` if it exists in a different state.
    fn get_active_endorser(&self, alias: u64) -> (position: Result<usize, Status>)
        ensures
            match position {
                Ok(p) => p < self.active_endorsers@.len() && self@.find_active(alias) == Ok::<
                    _,
                    StatusView,
                >(p as int),
                Err(s) => self@.find_active(alias) == Err::<int, _>(s@),
            },
    {
        proof {
            self.lemma_keys();
        }
        match find_by_alias(self.active_endorsers.as_slice(), alias) {
            Some(position) => Ok(position),
            None => {
                if find_by_alias(self.uninitialized_endorsers.as_slice(), alias).is_some() {
                    return Err(wrong_state_status(alias, "active", "uninitialized"));
                }
                if find_finalized(&self.finalized_endorsers, alias).is_some() {
                    return Err(wrong_state_status(alias, "active", "finalized"));
                }
                Err(not_found_status(alias))
            },
        }
    }

    /// Returns the position of an uninitialized endorser by alias.
    ///
    /// Returns `NotFound` if the alias doesn't exist at all, or
    /// `FailedPrecondition` if it exists in a different state.
    fn get_uninitialized_endorser(&self, alias: u64) -> (position: Result<usize, Status>)
        ensures
            match position {
                Ok(p) => p < self.uninitialized_endorsers@.len() && self@.find_uninitialized(alias)
                    == Ok::<_, StatusView>(p as int),
                Err(s) => self@.find_uninitialized(alias) == Err::<int, _>(s@),
            },
    {
        proof {
            self.lemma_keys();
        }
        match find_by_alias(self.uninitialized_endorsers.as_slice(), alias) {
            Some(position) => Ok(position),
            None => {
                if find_by_alias(self.active_endorsers.as_slice(), alias).is_some() {
                    return Err(wrong_state_status(alias, "uninitialized", "active"));
                }
                if find_finalized(&self.finalized_endorsers, alias).is_some() {
                    return Err(wrong_state_status(alias, "uninitialized", "finalized"));
                }
                Err(not_found_status(alias))
            },
        }
    }

    /// Whether there is room for one more endorser.
    fn check_capacity(&self) -> (checked: Result<(), Status>)
        ensures
            match checked {
                Ok(_) => self@.create_endorser_failure() is None,
                Err(s) => self@.create_endorser_failure() == Some(s@),
            },
    {
        let total_endorsers = self.uninitialized_endorsers.len().saturating_add(
            self.active_endorsers.len(),
        ).saturating_add(self.finalized_endorsers.len());
        if total_endorsers >= MAX_ENDORSERS {
            return Err(limit_status("Maximum number of endorsers (", MAX_ENDORSERS));
        }
        Ok(())
    }

    /// Makes a new endorser, which [`create_endorser`](Self::create_endorser)
    /// adds once the caller has signed its verifying key.
    ///
    /// Returns `FailedPrecondition` if there are as many endorsers as there may
    /// be.
    pub fn prepare_endorser(&self) -> (prepared: Result<Endorser<Uninitialized>, Status>)
        ensures
            match prepared {
                Ok(endorser) => {
                    &&& self@.create_endorser_failure() is None
                    &&& crypto::is_scalar(endorser@.secret)
                    &&& endorser@.key == crypto::public_key_of(endorser@.secret)
                },
                Err(s) => self@.create_endorser_failure() == Some(s@),
            },
    {
        match self.check_capacity() {
            Ok(_) => Ok(Endorser::new()),
            Err(status) => Err(status),
        }
    }

    /// Adds a new endorser. `vk_signature` binds its verifying key to the
    /// attestation evidence.
    ///
    /// Returns `FailedPrecondition` if there are as many endorsers as there may
    /// be.
    pub fn create_endorser(
        &mut self,
        endorser: Endorser<Uninitialized>,
        vk_signature: Vec<u8>,
    ) -> (created: Result<EndorserProto, Status>)
        ensures
            match created {
                Ok(proto) => {
                    let bound = BoundView { endorser: endorser@, vk_signature: vk_signature@ };
                    &&& old(self)@.create_endorser_failure() is None
                    &&& proto_mapping::describes_uninitialized(proto, bound)
                    &&& final(self)@ == (ServiceView {
                        uninitialized: old(self)@.uninitialized.push(bound),
                        ..old(self)@
                    })
                },
                Err(s) => {
                    &&& old(self)@.create_endorser_failure() == Some(s@)
                    &&& final(self)@ == old(self)@
                },
            },
            old(self)@.within_limits() ==> final(self)@.within_limits(),
    {
        match self.check_capacity() {
            Ok(_) => {},
            Err(status) => {
                return Err(status);
            },
        }
        let bound = BoundEndorser { endorser, vk_signature };
        let proto = proto_mapping::uninitialized_proto(&bound);
        self.uninitialized_endorsers.push(bound);
        assert(self@ =~= (ServiceView {
            uninitialized: old(self)@.uninitialized.push(bound@),
            ..old(self)@
        }));
        Ok(proto)
    }

    /// Lists the endorsers, without their state: those before activation, then
    /// the active ones, then, if asked for, the finalized ones.
    pub fn list_endorsers(&self, request: ListEndorsersRequest) -> (response: Result<
        ListEndorsersResponse,
        Status,
    >)
        ensures
            ({
                let listed = self@.listed(request.include_finalized);
                &&& response matches Ok(r)
                &&& r.endorsers@.len() == listed.len()
                &&& forall|i: int|
                    0 <= i < listed.len() ==> proto_mapping::names_endorser(
                        #[trigger] r.endorsers@[i],
                        listed[i].0,
                        listed[i].1,
                    ) && r.endorsers@[i].state is None
            }),
    {
        let ghost listed = self@.listed(request.include_finalized);
        let uninitialized_count = self.uninitialized_endorsers.len();
        let active_count = self.active_endorsers.len();
        let mut endorsers: Vec<EndorserProto> = Vec::new();
        let mut i: usize = 0;
        while i < uninitialized_count
            invariant
                i <= uninitialized_count,
                uninitialized_count == self.uninitialized_endorsers@.len(),
                listed == self@.listed(request.include_finalized),
                endorsers@.len() == i,
                lists(endorsers@, listed),
            decreases uninitialized_count - i,
        {
            let proto = proto_mapping::endorser_proto_without_state(
                &self.uninitialized_endorsers[i],
            );
            assert(listed[i as int] == (
                self@.uninitialized[i as int].endorser.key,
                self@.uninitialized[i as int].vk_signature,
            ));
            endorsers.push(proto);
            i += 1;
        }
        let mut j: usize = 0;
        while j < active_count
            invariant
                j <= active_count,
                uninitialized_count == self.uninitialized_endorsers@.len(),
                active_count == self.active_endorsers@.len(),
                listed == self@.listed(request.include_finalized),
                endorsers@.len() == uninitialized_count + j,
                lists(endorsers@, listed),
            decreases active_count - j,
        {
            let proto = proto_mapping::endorser_proto_without_state(&self.active_endorsers[j]);
            assert(listed[uninitialized_count + j] == (
                self@.active[j as int].endorser.key,
                self@.active[j as int].vk_signature,
            ));
            endorsers.push(proto);
            j += 1;
        }
        if request.include_finalized {
            let finalized_count = self.finalized_endorsers.len();
            let mut k: usize = 0;
            while k < finalized_count
                invariant
                    k <= finalized_count,
                    request.include_finalized,
                    uninitialized_count == self.uninitialized_endorsers@.len(),
                    active_count == self.active_endorsers@.len(),
                    finalized_count == self.finalized_endorsers@.len(),
                    listed == self@.listed(request.include_finalized),
                    endorsers@.len() == uninitialized_count + active_count + k,
                    lists(endorsers@, listed),
                decreases finalized_count - k,
            {
                let proto = proto_mapping::endorser_proto_without_state(
                    &self.finalized_endorsers[k],
                );
                assert(listed[uninitialized_count + active_count + k] == (
                    self@.finalized[k as int].endorser.key,
                    self@.finalized[k as int].vk_signature,
                ));
                endorsers.push(proto);
                k += 1;
            }
        }
        Ok(ListEndorsersResponse { endorsers })
    }

    /// Returns an endorser by alias, with its state.
    ///
    /// Returns `NotFound` if the alias doesn't exist.
    pub fn get_endorser(&self, request: GetEndorserRequest) -> (response: Result<
        EndorserProto,
        Status,
    >)
        ensures
            match first_with_alias(self@.uninitialized_keys(), request.endorser_alias) {
                Some(p) => response matches Ok(proto) && proto_mapping::describes_uninitialized(
                    proto,
                    self@.uninitialized[p],
                ),
                None => match first_with_alias(self@.active_keys(), request.endorser_alias) {
                    Some(p) => response matches Ok(proto) && proto_mapping::describes_active(
                        proto,
                        self@.active[p],
                    ),
                    None => match first_with_alias(
                        self@.finalized_keys(),
                        request.endorser_alias,
                    ) {
                        Some(p) => response matches Ok(proto)
                            && proto_mapping::describes_finalized(proto, self@.finalized[p]),
                        None => response matches Err(s) && s@ == no_such_endorser(
                            request.endorser_alias,
                        ),
                    },
                },
            },
    {
        proof {
            self.lemma_keys();
        }
        let alias = request.endorser_alias;
        if let Some(position) = find_by_alias(self.uninitialized_endorsers.as_slice(), alias) {
            return Ok(proto_mapping::uninitialized_proto(&self.uninitialized_endorsers[position]));
        }
        if let Some(position) = find_by_alias(self.active_endorsers.as_slice(), alias) {
            return Ok(proto_mapping::active_proto(&self.active_endorsers[position]));
        }
        if let Some(position) = find_finalized(&self.finalized_endorsers, alias) {
            return Ok(proto_mapping::finalized_proto(&self.finalized_endorsers[position]));
        }
        Err(not_found_status(alias))
    }

    /// Creates a ledger on an active endorser.
    ///
    /// Returns `FailedPrecondition` if the endorser has as many ledgers as it
    /// may have, or has one with the requested ID.
    pub fn create_ledger(&mut self, request: CreateLedgerRequest) -> (response: Result<
        CreateLedgerResponse,
        Status,
    >)
        ensures
            match response {
                Ok(r) => {
                    let position = old(self)@.find_active(request.endorser_alias)->Ok_0;
                    let before = old(self)@.active[position];
                    let after = final(self)@.active[position];
                    let block = after.endorser.ledgers[request.ledger_id];
                    &&& old(self)@.create_ledger_failure(request) is None
                    &&& block.is_initial()
                    &&& before.endorser.signed(
                        receipts::create_ledger_message(
                            before.endorser.instance_id,
                            request.ledger_id,
                        ),
                        r.create_ledger_receipt@,
                    )
                    &&& after == (BoundView {
                        endorser: ActiveView {
                            ledgers: before.endorser.ledgers.insert(request.ledger_id, block),
                            ..before.endorser
                        },
                        ..before
                    })
                    &&& final(self)@ == (ServiceView {
                        active: old(self)@.active.update(position, after),
                        ..old(self)@
                    })
                },
                Err(s) => {
                    &&& old(self)@.create_ledger_failure(request) == Some(s@)
                    &&& final(self)@ == old(self)@
                },
            },
            old(self)@.within_limits() ==> final(self)@.within_limits(),
    {
        let position = match self.get_active_endorser(request.endorser_alias) {
            Ok(position) => position,
            Err(status) => {
                return Err(status);
            },
        };
        if self.active_endorsers[position].endorser.ledger_count() >= MAX_LEDGERS {
            return Err(limit_status("maximum number of ledgers (", MAX_LEDGERS));
        }
        let created = self.active_endorsers[position].endorser.create_ledger(request.ledger_id);
        match created {
            Ok(receipt) => {
                assert(self@ =~= (ServiceView {
                    active: old(self)@.active.update(
                        position as int,
                        self@.active[position as int],
                    ),
                    ..old(self)@
                }));
                Ok(CreateLedgerResponse { create_ledger_receipt: receipt.to_vec() })
            },
            Err(CreateLedgerError::AlreadyExists { ledger_id }) => {
                assert(self@ =~= old(self)@);
                let mut message = "ledger with id ".to_owned();
                bytes::push_decimal(&mut message, ledger_id as u64);
                message.append(" already exists");
                Err(Status::new_with_message(StatusCode::FailedPrecondition, message))
            },
        }
    }
}

impl EndorserService {
    /// Activates an endorser with a cohort config and, where one is given, a
    /// takeover from a previous cohort.
    ///
    /// A failed activation leaves the endorser where it was.
    pub fn activate_endorser(&mut self, request: ActivateEndorserRequest) -> (response: Result<
        ActivateEndorserResponse,
        Status,
    >)
        ensures
            match response {
                Ok(r) => {
                    let config = proto_mapping::config_of(
                        request.new_config,
                        "new_config"@,
                    )->Ok_0;
                    let takeover = proto_mapping::takeover_of(request.prev_cohort_takeover)->Ok_0;
                    let position = old(self)@.find_uninitialized(request.endorser_alias)->Ok_0;
                    let before = old(self)@.uninitialized[position];
                    let after = final(self)@.active.last();
                    &&& old(self)@.activate_failure(request) is None
                    &&& match takeover {
                        None => after.endorser.starts_instance(before.endorser, config),
                        Some(t) => after.endorser.takes_over(before.endorser, config, t),
                    }
                    &&& after.vk_signature == before.vk_signature
                    &&& r.activation_receipt@ == after.endorser.activation_receipt
                    &&& final(self)@ == (ServiceView {
                        uninitialized: swap_removed(old(self)@.uninitialized, position),
                        active: old(self)@.active.push(after),
                        ..old(self)@
                    })
                },
                Err(s) => {
                    &&& old(self)@.activate_failure(request) == Some(s@)
                    &&& final(self)@ == old(self)@
                },
            },
            old(self)@.within_limits() ==> final(self)@.within_limits(),
    {
        let alias = request.endorser_alias;

        // Parse the cohort config verifying keys from SEC1 bytes.
        let new_config = match proto_mapping::parse_cohort_config(
            request.new_config,
            "new_config",
        ) {
            Ok(config) => config,
            Err(status) => {
                return Err(status);
            },
        };

        // Validate cohort takeover fields (if present) before making modifications.
        let maybe_takeover = match proto_mapping::parse_cohort_takeover_proto(
            request.prev_cohort_takeover,
        ) {
            Ok(takeover) => takeover,
            Err(status) => {
                return Err(status);
            },
        };

        // Find the uninitialized endorser by alias. Returns
        // FailedPrecondition if found in active/finalized, NotFound otherwise.
        let position = match self.get_uninitialized_endorser(alias) {
            Ok(position) => position,
            Err(status) => {
                return Err(status);
            },
        };

        // Extract and transition to Active. swap_remove is O(1): swaps the
        // last item into `position`. On failure, we put it back.
        let ghost all = self.uninitialized_endorsers@;
        let bound = self.uninitialized_endorsers.swap_remove(position);
        let vk_signature = bound.vk_signature;
        match bound.endorser.activate(new_config, maybe_takeover) {
            Ok(active_endorser) => {
                let activation_receipt = active_endorser.activation_receipt().to_vec();
                self.active_endorsers.push(
                    BoundEndorser { endorser: active_endorser, vk_signature },
                );
                proof {
                    let after = self@.active.last();
                    assert(self@.uninitialized =~= swap_removed(
                        old(self)@.uninitialized,
                        position as int,
                    ));
                    assert(self@.active =~= old(self)@.active.push(after));
                    proto_mapping::law_parsed_config_is_within_limit(
                        request.new_config,
                        "new_config"@,
                    );
                    proto_mapping::law_parsed_takeover_is_within_limit(
                        request.prev_cohort_takeover,
                    );
                    assert(endorser_within_limits(after.endorser));
                    if old(self)@.within_limits() {
                        assert forall|i: int| 0 <= i < self@.active.len() implies
                            endorser_within_limits((#[trigger] self@.active[i]).endorser) by {
                            if i < old(self)@.active.len() {
                                assert(self@.active[i] == old(self)@.active[i]);
                            }
                        }
                    }
                }
                Ok(ActivateEndorserResponse { activation_receipt })
            },
            Err(error) => {
                let reason = error.message();
                self.uninitialized_endorsers.push(
                    BoundEndorser { endorser: error.reclaim_endorser(), vk_signature },
                );
                let displaced = self.uninitialized_endorsers.swap_remove(position);
                self.uninitialized_endorsers.push(displaced);
                assert(self.uninitialized_endorsers@ =~= all);
                Err(Status::new_with_message(StatusCode::InvalidArgument, reason))
            },
        }
    }

    /// Whether an otherwise well-formed append is for a ledger that has reached
    /// the last index.
    pub fn is_append_to_full(&self, request: &AppendEntryRequest) -> (full: bool)
        ensures
            full == self@.appends_to_full(*request),
    {
        match self.get_active_endorser(request.endorser_alias) {
            Ok(position) => request.entry.len() == 32 && request.nonce != 0
                && self.active_endorsers[position].endorser.is_full(request.ledger_id),
            Err(_) => false,
        }
    }

    /// Appends an entry to a ledger of an active endorser, unless the ledger
    /// has reached the last index: `None`.
    pub fn try_append_entry(&mut self, request: AppendEntryRequest) -> (response: Option<
        Result<AppendEntryResponse, Status>,
    >)
        ensures
            response is None <==> old(self)@.appends_to_full(request),
            match response {
                None => final(self)@ == old(self)@,
                Some(Ok(r)) => appended(old(self)@, final(self)@, request, r),
                Some(Err(s)) => {
                    &&& old(self)@.append_failure(request) == Some(s@)
                    &&& final(self)@ == old(self)@
                },
            },
            old(self)@.within_limits() ==> final(self)@.within_limits(),
    {
        if self.is_append_to_full(&request) {
            return None;
        }
        Some(self.append_entry(request))
    }

    /// Appends an entry to a ledger of an active endorser.
    ///
    /// Returns `InvalidArgument` if the entry is not 32 bytes long or the nonce
    /// is zero, `NotFound` if there is no such ledger, and `FailedPrecondition`
    /// if the expected index is not the next one.
    pub fn append_entry(&mut self, request: AppendEntryRequest) -> (response: Result<
        AppendEntryResponse,
        Status,
    >)
        requires
            !old(self)@.appends_to_full(request),
        ensures
            match response {
                Ok(r) => appended(old(self)@, final(self)@, request, r),
                Err(s) => {
                    &&& old(self)@.append_failure(request) == Some(s@)
                    &&& final(self)@ == old(self)@
                },
            },
            old(self)@.within_limits() ==> final(self)@.within_limits(),
    {
        let position = match self.get_active_endorser(request.endorser_alias) {
            Ok(position) => position,
            Err(status) => {
                return Err(status);
            },
        };

        // Validate entry size (must be exactly 32 bytes).
        let entry = match bytes::to_array32(request.entry.as_slice()) {
            Some(entry) => entry,
            None => {
                return Err(
                    Status::new_with_message(
                        StatusCode::InvalidArgument,
                        "entry must be exactly 32 bytes".to_owned(),
                    ),
                );
            },
        };

        // Nonce 0 is the default of an absent field: reject it.
        if request.nonce == 0 {
            return Err(
                Status::new_with_message(
                    StatusCode::InvalidArgument,
                    "nonce must not be zero".to_owned(),
                ),
            );
        }
        let result = self.active_endorsers[position].endorser.append_entry(
            request.ledger_id,
            entry,
            request.expected_index,
            request.nonce,
        );
        match result {
            Ok(signed) => {
                assert(self@ =~= (ServiceView {
                    active: old(self)@.active.update(
                        position as int,
                        self@.active[position as int],
                    ),
                    ..old(self)@
                }));
                Ok(
                    AppendEntryResponse {
                        block: proto_mapping::block_proto(&signed.block),
                        entry_receipt: signed.entry_receipt.to_vec(),
                        tip_receipt: signed.append_receipt.to_vec(),
                    },
                )
            },
            Err(AppendEntryError::LedgerNotFound(error)) => {
                assert(self@ =~= old(self)@);
                Err(ledger_not_found_status(error.ledger_id))
            },
            Err(AppendEntryError::WrongIndex { expected, actual }) => {
                assert(self@ =~= old(self)@);
                let mut message = "expected index ".to_owned();
                bytes::push_decimal(&mut message, expected);
                message.append(" does not match next index ");
                bytes::push_decimal(&mut message, actual);
                Err(Status::new_with_message(StatusCode::FailedPrecondition, message))
            },
        }
    }

    /// Reads the latest block of a ledger of an active endorser.
    ///
    /// Returns `InvalidArgument` if the nonce is zero, and `NotFound` if there
    /// is no such ledger.
    pub fn read_latest(&self, request: ReadLatestRequest) -> (response: Result<
        ReadLatestResponse,
        Status,
    >)
        ensures
            match response {
                Ok(r) => {
                    let position = self@.find_active(request.endorser_alias)->Ok_0;
                    let endorser = self@.active[position].endorser;
                    let block = endorser.ledgers[request.ledger_id];
                    &&& self@.read_failure(request) is None
                    &&& proto_mapping::is_block_proto(r.block, block)
                    &&& endorser.signed(
                        receipts::entry_message(endorser.instance_id, request.ledger_id, block),
                        r.entry_receipt@,
                    )
                    &&& endorser.signed(
                        receipts::read_message(
                            endorser.instance_id,
                            request.ledger_id,
                            block,
                            request.nonce,
                        ),
                        r.tip_receipt@,
                    )
                },
                Err(s) => self@.read_failure(request) == Some(s@),
            },
    {
        let position = match self.get_active_endorser(request.endorser_alias) {
            Ok(position) => position,
            Err(status) => {
                return Err(status);
            },
        };

        // Nonce 0 is the default of an absent field: reject it.
        if request.nonce == 0 {
            return Err(
                Status::new_with_message(
                    StatusCode::InvalidArgument,
                    "nonce must not be zero".to_owned(),
                ),
            );
        }
        match self.active_endorsers[position].endorser.read_latest(
            request.ledger_id,
            request.nonce,
        ) {
            Ok(signed) => Ok(
                ReadLatestResponse {
                    block: proto_mapping::block_proto(&signed.block),
                    entry_receipt: signed.entry_receipt.to_vec(),
                    tip_receipt: signed.read_receipt.to_vec(),
                },
            ),
            Err(error) => Err(ledger_not_found_status(error.ledger_id)),
        }
    }

    /// Finalizes an active endorser in favour of the next cohort.
    ///
    /// The finalized endorser is retained for receipt recovery, and the oldest
    /// one goes if as many are retained as may be.
    pub fn finalize_endorser(&mut self, request: FinalizeEndorserRequest) -> (response: Result<
        FinalizeEndorserResponse,
        Status,
    >)
        ensures
            match response {
                Ok(r) => {
                    let next = proto_mapping::config_of(
                        request.next_cohort_config,
                        "next_cohort_config"@,
                    )->Ok_0;
                    let position = old(self)@.find_active(request.endorser_alias)->Ok_0;
                    let before = old(self)@.active[position];
                    let after = final(self)@.finalized.last();
                    &&& old(self)@.finalize_failure(request) is None
                    &&& before.endorser.signed(
                        before.endorser.finalize_message(next),
                        after.endorser.finalization_receipt,
                    )
                    &&& after == (BoundView {
                        endorser: FinalizedView {
                            key: before.endorser.key,
                            instance_id: before.endorser.instance_id,
                            ledgers: before.endorser.ledgers,
                            activation_receipt: before.endorser.activation_receipt,
                            finalization_receipt: after.endorser.finalization_receipt,
                        },
                        vk_signature: before.vk_signature,
                    })
                    &&& final(self)@ == (ServiceView {
                        active: swap_removed(old(self)@.active, position),
                        finalized: old(self)@.finalized_after(after),
                        ..old(self)@
                    })
                    &&& proto_mapping::is_key_proto(r.endorser_key, before.endorser.key)
                    &&& proto_mapping::lists_ledgers(r.ledgers@, before.endorser.ledgers)
                    &&& r.finalization_receipt@ == after.endorser.finalization_receipt
                },
                Err(s) => {
                    &&& old(self)@.finalize_failure(request) == Some(s@)
                    &&& final(self)@ == old(self)@
                },
            },
            old(self)@.within_limits() ==> final(self)@.within_limits(),
    {
        let alias = request.endorser_alias;
        let next_config = match proto_mapping::parse_cohort_config(
            request.next_cohort_config,
            "next_cohort_config",
        ) {
            Ok(config) => config,
            Err(status) => {
                return Err(status);
            },
        };

        // Find the active endorser and get its position for removal.
        let position = match self.get_active_endorser(alias) {
            Ok(position) => position,
            Err(status) => {
                return Err(status);
            },
        };
        let bound = self.active_endorsers.swap_remove(position);

        // Finalize: produces the receipt and erases the signing key.
        let finalized = bound.endorser.finalize(&next_config);
        let response = FinalizeEndorserResponse {
            endorser_key: proto_mapping::key_proto(finalized.verifying_key()),
            ledgers: proto_mapping::ledger_protos(finalized.ledgers()),
            finalization_receipt: finalized.finalization_receipt().to_vec(),
        };

        // Retain the finalized endorser for receipt recovery, evicting the
        // oldest if the queue is full.
        if self.finalized_endorsers.len() >= MAX_FINALIZED_ENDORSERS {
            let _evicted = self.finalized_endorsers.pop_front();
        }
        self.finalized_endorsers.push_back(
            BoundEndorser { endorser: finalized, vk_signature: bound.vk_signature },
        );
        proof {
            let after = self@.finalized.last();
            assert(self@.active =~= swap_removed(old(self)@.active, position as int));
            assert(self@.finalized =~= old(self)@.finalized_after(after));
        }
        Ok(response)
    }
}

/// Whether an append request was carried out: the ledger's latest block is the
/// one that follows the block before, and the response holds it with the
/// endorser's receipts.
pub open spec fn appended(
    before: ServiceView,
    after: ServiceView,
    request: AppendEntryRequest,
    response: AppendEntryResponse,
) -> bool {
    let position = before.find_active(request.endorser_alias)->Ok_0;
    let bound = before.active[position];
    let endorser = bound.endorser;
    let block = after.active[position].endorser.ledgers[request.ledger_id];
    &&& before.append_failure(request) is None
    &&& endorser.ledgers[request.ledger_id].followed_by(request.entry@, block)
    &&& proto_mapping::is_block_proto(response.block, block)
    &&& endorser.signed(
        receipts::entry_message(endorser.instance_id, request.ledger_id, block),
        response.entry_receipt@,
    )
    &&& endorser.signed(
        receipts::append_message(endorser.instance_id, request.ledger_id, block, request.nonce),
        response.tip_receipt@,
    )
    &&& after == (ServiceView {
        active: before.active.update(
            position,
            BoundView {
                endorser: ActiveView {
                    ledgers: endorser.ledgers.insert(request.ledger_id, block),
                    ..endorser
                },
                ..bound
            },
        ),
        ..before
    })
}

/// Whether messages name endorsers with the given keys and attestation
/// bindings, from the first on, and say nothing of their state.
spec fn lists(protos: Seq<EndorserProto>, listed: Seq<(Seq<u8>, Seq<u8>)>) -> bool {
    &&& protos.len() <= listed.len()
    &&& forall|i: int|
        0 <= i < protos.len() ==> proto_mapping::names_endorser(
            #[trigger] protos[i],
            listed[i].0,
            listed[i].1,
        ) && protos[i].state is None
}

// ---------------------------------------------------------------------------
// Laws
// ---------------------------------------------------------------------------

/// Whether no other endorser of the service has the alias of the one at a
/// position of the active ones.
pub open spec fn only_active_with_alias(service: ServiceView, alias: u64, position: int) -> bool {
    &&& 0 <= position < service.active.len()
    &&& endorser::alias_of(service.active_keys()[position]) == alias
    &&& forall|i: int|
        0 <= i < service.active.len() && i != position ==> endorser::alias_of(
            #[trigger] service.active_keys()[i],
        ) != alias
    &&& forall|i: int|
        0 <= i < service.uninitialized.len() ==> endorser::alias_of(
            #[trigger] service.uninitialized_keys()[i],
        ) != alias
    &&& forall|i: int|
        0 <= i < service.finalized.len() ==> endorser::alias_of(
            #[trigger] service.finalized_keys()[i],
        ) != alias
}

/// Where the finalized endorser with the given alias is, if the alias is found
/// among these first.
pub open spec fn found_finalized(service: ServiceView, alias: u64) -> Option<
    BoundView<FinalizedView>,
> {
    match first_with_alias(service.finalized_keys(), alias) {
        Some(position) => if first_with_alias(service.uninitialized_keys(), alias) is None
            && first_with_alias(service.active_keys(), alias) is None {
            Some(service.finalized[position])
        } else {
            None
        },
        None => None,
    }
}

/// A lost finalization receipt can be recovered: after an endorser that alone
/// has its alias is finalized, asking for the alias finds it finalized.
pub proof fn law_finalized_endorser_is_found(
    before: ServiceView,
    alias: u64,
    position: int,
    bound: BoundView<FinalizedView>,
)
    ensures
        only_active_with_alias(before, alias, position) && bound.endorser.key
            == before.active[position].endorser.key ==> found_finalized(
            ServiceView {
                active: swap_removed(before.active, position),
                finalized: before.finalized_after(bound),
                ..before
            },
            alias,
        ) == Some(bound),
{
    if only_active_with_alias(before, alias, position) && bound.endorser.key
        == before.active[position].endorser.key {
        let after = ServiceView {
            active: swap_removed(before.active, position),
            finalized: before.finalized_after(bound),
            ..before
        };
        assert(after.uninitialized_keys() == before.uninitialized_keys());
        lemma_none_with_alias(after.uninitialized_keys(), alias);
        let active = after.active_keys();
        assert forall|i: int| 0 <= i < active.len() implies endorser::alias_of(
            #[trigger] active[i],
        ) != alias by {
            let from = if i == position {
                before.active.len() - 1
            } else {
                i
            };
            assert(active[i] == before.active_keys()[from]);
        }
        lemma_none_with_alias(active, alias);
        let finalized = after.finalized_keys();
        let last = finalized.len() - 1;
        let gone = if before.finalized.len() >= MAX_FINALIZED_ENDORSERS {
            1int
        } else {
            0
        };
        assert(finalized[last] == before.active_keys()[position]);
        assert forall|i: int| 0 <= i < last implies endorser::alias_of(#[trigger] finalized[i])
            != alias by {
            assert(finalized[i] == before.finalized_keys()[i + gone]);
        }
        lemma_first_with_alias(finalized, last, alias);
    }
}

/// The latest of all endorsers that were ever finalized, as many as are kept.
pub open spec fn retained(all: Seq<BoundView<FinalizedView>>) -> Seq<BoundView<FinalizedView>> {
    if all.len() <= MAX_FINALIZED_ENDORSERS {
        all
    } else {
        all.skip(all.len() - MAX_FINALIZED_ENDORSERS)
    }
}

/// The oldest go first: what is kept of the finalized endorsers is always the
/// latest ones, in the order in which they were finalized.
pub proof fn law_latest_finalized_are_retained(
    service: ServiceView,
    all: Seq<BoundView<FinalizedView>>,
    bound: BoundView<FinalizedView>,
)
    requires
        service.finalized == retained(all),
    ensures
        service.finalized_after(bound) == retained(all.push(bound)),
{
    assert(service.finalized_after(bound) =~= retained(all.push(bound)));
}

} // verus!
