//! The messages of the endorser service, as they are after decoding.

use vstd::prelude::*;

verus! {

/// The forms that a verifying key can take in a message.
#[derive(Debug, PartialEq, Eq)]
pub enum VerifyingKeyProtoOneOf {
    /// A SEC1-encoded ECDSA P-256 key.
    Ecdsa(Vec<u8>),
}

/// A verifying key.
#[derive(Debug, PartialEq, Eq, Default)]
pub struct VerifyingKeyProto {
    pub key: Option<VerifyingKeyProtoOneOf>,
}

/// The keys of a cohort.
#[derive(Debug, PartialEq, Eq, Default)]
pub struct CohortConfigProto {
    pub endorser_keys: Vec<VerifyingKeyProto>,
}

/// A ledger block.
#[derive(Debug, PartialEq, Eq, Default)]
pub struct LedgerBlockProto {
    pub entry: Vec<u8>,
    pub index: u64,
    pub hash_chain_tail: Vec<u8>,
}

/// A ledger: its ID and its latest block.
#[derive(Debug, PartialEq, Eq, Default)]
pub struct LedgerProto {
    pub ledger_id: u32,
    pub tail: Option<LedgerBlockProto>,
}

/// An endorser of a finalized cohort, with its receipt if it produced one.
#[derive(Debug, PartialEq, Eq, Default)]
pub struct EndorserFinalizationProto {
    pub endorser_key: Option<VerifyingKeyProto>,
    pub receipt: Option<Vec<u8>>,
}

/// The endorsers of a finalized cohort.
#[derive(Debug, PartialEq, Eq, Default)]
pub struct CohortFinalizationProto {
    pub endorser_finalizations: Vec<EndorserFinalizationProto>,
}

/// What a new cohort needs to take an instance over from a finalized one.
#[derive(Debug, PartialEq, Eq, Default)]
pub struct CohortTakeOverProto {
    pub instance_id: Vec<u8>,
    pub ledgers: Vec<LedgerProto>,
    pub cohort_finalization: Option<CohortFinalizationProto>,
}

/// The state of an endorser that is not activated.
#[derive(Debug, Clone, Copy, PartialEq, Eq, Default)]
pub struct UninitializedStateProto {}

/// The state of an active endorser.
#[derive(Debug, PartialEq, Eq, Default)]
pub struct ActiveStateProto {
    pub instance_id: Vec<u8>,
    pub activation_receipt: Vec<u8>,
}

/// The state of a finalized endorser.
#[derive(Debug, PartialEq, Eq, Default)]
pub struct FinalizedStateProto {
    pub instance_id: Vec<u8>,
    pub activation_receipt: Vec<u8>,
    pub finalization_receipt: Vec<u8>,
}

/// The state of an endorser.
#[derive(Debug, PartialEq, Eq)]
pub enum EndorserStateProto {
    Uninitialized(UninitializedStateProto),
    Active(ActiveStateProto),
    Finalized(FinalizedStateProto),
}

/// An endorser.
#[derive(Debug, PartialEq, Eq, Default)]
pub struct EndorserProto {
    pub alias: u64,
    pub verifying_key: Option<VerifyingKeyProto>,
    pub verifying_key_signature: Vec<u8>,
    pub state: Option<EndorserStateProto>,
}

#[derive(Debug, Clone, Copy, PartialEq, Eq, Default)]
pub struct CreateEndorserRequest {}

#[derive(Debug, Clone, Copy, PartialEq, Eq, Default)]
pub struct ListEndorsersRequest {
    pub include_finalized: bool,
}

#[derive(Debug, PartialEq, Eq, Default)]
pub struct ListEndorsersResponse {
    pub endorsers: Vec<EndorserProto>,
}

#[derive(Debug, Clone, Copy, PartialEq, Eq, Default)]
pub struct GetEndorserRequest {
    pub endorser_alias: u64,
}

#[derive(Debug, PartialEq, Eq, Default)]
pub struct ActivateEndorserRequest {
    pub endorser_alias: u64,
    pub new_config: Option<CohortConfigProto>,
    pub prev_cohort_takeover: Option<CohortTakeOverProto>,
}

#[derive(Debug, PartialEq, Eq, Default)]
pub struct ActivateEndorserResponse {
    pub activation_receipt: Vec<u8>,
}

#[derive(Debug, Clone, Copy, PartialEq, Eq, Default)]
pub struct CreateLedgerRequest {
    pub endorser_alias: u64,
    pub ledger_id: u32,
}

#[derive(Debug, PartialEq, Eq, Default)]
pub struct CreateLedgerResponse {
    pub create_ledger_receipt: Vec<u8>,
}

#[derive(Debug, PartialEq, Eq, Default)]
pub struct AppendEntryRequest {
    pub endorser_alias: u64,
    pub ledger_id: u32,
    pub entry: Vec<u8>,
    pub expected_index: u64,
    pub nonce: u64,
}

#[derive(Debug, PartialEq, Eq, Default)]
pub struct AppendEntryResponse {
    pub block: Option<LedgerBlockProto>,
    pub entry_receipt: Vec<u8>,
    pub tip_receipt: Vec<u8>,
}

#[derive(Debug, Clone, Copy, PartialEq, Eq, Default)]
pub struct ReadLatestRequest {
    pub endorser_alias: u64,
    pub ledger_id: u32,
    pub nonce: u64,
}

#[derive(Debug, PartialEq, Eq, Default)]
pub struct ReadLatestResponse {
    pub block: Option<LedgerBlockProto>,
    pub entry_receipt: Vec<u8>,
    pub tip_receipt: Vec<u8>,
}

#[derive(Debug, PartialEq, Eq, Default)]
pub struct FinalizeEndorserRequest {
    pub endorser_alias: u64,
    pub next_cohort_config: Option<CohortConfigProto>,
}

#[derive(Debug, PartialEq, Eq, Default)]
pub struct FinalizeEndorserResponse {
    pub endorser_key: Option<VerifyingKeyProto>,
    pub ledgers: Vec<LedgerProto>,
    pub finalization_receipt: Vec<u8>,
}

} // verus!
