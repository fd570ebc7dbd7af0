//! Validation of the messages of the endorser service, and conversion between
//! them and the endorser's own types.

use vstd::prelude::*;

use crate::bytes;
use crate::cohort;
use crate::cohort::{CohortConfig, CohortFinalization, EndorserData, EndorserFinalization};
use crate::crypto;
use crate::endorser;
use crate::endorser::{
    Active, ActiveView, Finalized, FinalizedView, Phase, Uninitialized, UninitializedView,
};
use crate::keys::{Signature, VerifyingKey};
use crate::ledger;
use crate::ledger::{LedgerBlock, Ledgers};
use crate::messages::{
    ActiveStateProto, CohortConfigProto, CohortTakeOverProto, EndorserFinalizationProto,
    EndorserProto, EndorserStateProto, FinalizedStateProto, LedgerBlockProto, LedgerProto,
    UninitializedStateProto, VerifyingKeyProto, VerifyingKeyProtoOneOf,
};
use crate::quorum;
use crate::quorum::ReceiptEntry;
use crate::service::{BoundEndorser, BoundView, MAX_COHORT_SIZE, MAX_LEDGERS};
use crate::status;
use crate::status::{Status, StatusCode, StatusView};
use crate::takeover::{CohortTakeOver, TakeOverView};

verus! {

// ---------------------------------------------------------------------------
// From the service's own types to messages
// ---------------------------------------------------------------------------

/// Whether a message field holds the key with the given encoding.
pub open spec fn is_key_proto(proto: Option<VerifyingKeyProto>, key: Seq<u8>) -> bool {
    &&& proto matches Some(vk)
    &&& vk.key matches Some(VerifyingKeyProtoOneOf::Ecdsa(encoding))
    &&& encoding@ == key
}

/// Whether a message describes the endorser with the given key and attestation
/// binding, whatever it says of its state.
pub open spec fn names_endorser(
    proto: EndorserProto,
    key: Seq<u8>,
    vk_signature: Seq<u8>,
) -> bool {
    &&& proto.alias == endorser::alias_of(key)
    &&& is_key_proto(proto.verifying_key, key)
    &&& proto.verifying_key_signature@ == vk_signature
}

/// Whether a message describes an endorser before activation.
pub open spec fn describes_uninitialized(
    proto: EndorserProto,
    bound: BoundView<UninitializedView>,
) -> bool {
    &&& names_endorser(proto, bound.endorser.key, bound.vk_signature)
    &&& proto.state matches Some(EndorserStateProto::Uninitialized(_))
}

/// Whether a message describes an active endorser.
pub open spec fn describes_active(proto: EndorserProto, bound: BoundView<ActiveView>) -> bool {
    &&& names_endorser(proto, bound.endorser.key, bound.vk_signature)
    &&& proto.state matches Some(EndorserStateProto::Active(state))
    &&& state.instance_id@ == bound.endorser.instance_id
    &&& state.activation_receipt@ == bound.endorser.activation_receipt
}

/// Whether a message describes a finalized endorser.
pub open spec fn describes_finalized(
    proto: EndorserProto,
    bound: BoundView<FinalizedView>,
) -> bool {
    &&& names_endorser(proto, bound.endorser.key, bound.vk_signature)
    &&& proto.state matches Some(EndorserStateProto::Finalized(state))
    &&& state.instance_id@ == bound.endorser.instance_id
    &&& state.activation_receipt@ == bound.endorser.activation_receipt
    &&& state.finalization_receipt@ == bound.endorser.finalization_receipt
}

/// Whether a message field holds a ledger block.
pub open spec fn is_block_proto(proto: Option<LedgerBlockProto>, block: LedgerBlock) -> bool {
    &&& proto matches Some(b)
    &&& b.entry@ == block.entry@
    &&& b.index == block.index
    &&& b.hash_chain_tail@ == block.hash_chain_tail@
}

/// Whether messages list exactly the ledgers of a store, in ascending ID order.
pub open spec fn lists_ledgers(
    protos: Seq<LedgerProto>,
    ledgers: Map<u32, LedgerBlock>,
) -> bool {
    &&& forall|i: int, j: int|
        0 <= i < j < protos.len() ==> protos[i].ledger_id < protos[j].ledger_id
    &&& forall|i: int|
        0 <= i < protos.len() ==> ledgers.contains_key((#[trigger] protos[i]).ledger_id)
            && is_block_proto(protos[i].tail, ledgers[protos[i].ledger_id])
    &&& forall|id: u32| #[trigger]
        ledgers.contains_key(id) ==> exists|i: int|
            0 <= i < protos.len() && (#[trigger] protos[i]).ledger_id == id
}

/// Copies bytes to the heap.
fn to_vec(bytes: &[u8]) -> (copy: Vec<u8>)
    ensures
        copy@ == bytes@,
{
    let mut copy: Vec<u8> = Vec::new();
    bytes::push_bytes(&mut copy, bytes);
    assert(copy@ =~= bytes@);
    copy
}

/// Builds the message field for a verifying key, from which
/// [`parse_verifying_key`] gets the key back.
pub fn key_proto(key: &VerifyingKey) -> (proto: Option<VerifyingKeyProto>)
    ensures
        is_key_proto(proto, key@),
        forall|context: Seq<char>|
            #[trigger] key_of(proto, context) == Ok::<_, StatusView>(key@),
{
    Some(VerifyingKeyProto { key: Some(VerifyingKeyProtoOneOf::Ecdsa(to_vec(key.as_bytes()))) })
}

/// Builds the message field for a ledger block.
pub fn block_proto(block: &LedgerBlock) -> (proto: Option<LedgerBlockProto>)
    ensures
        is_block_proto(proto, *block),
{
    Some(
        LedgerBlockProto {
            entry: to_vec(block.entry.as_slice()),
            index: block.index,
            hash_chain_tail: to_vec(block.hash_chain_tail.as_slice()),
        },
    )
}

/// Builds the messages for the ledgers of a store, in ascending ID order.
pub fn ledger_protos(ledgers: &Ledgers) -> (protos: Vec<LedgerProto>)
    ensures
        lists_ledgers(protos@, ledgers@),
{
    let entries = ledgers.entries();
    let mut protos: Vec<LedgerProto> = Vec::new();
    let mut i: usize = 0;
    while i < entries.len()
        invariant
            i <= entries@.len(),
            protos@.len() == i,
            forall|j: int|
                0 <= j < i ==> (#[trigger] protos@[j]).ledger_id == entries@[j].0
                    && is_block_proto(protos@[j].tail, entries@[j].1),
        decreases entries@.len() - i,
    {
        let (ledger_id, block) = entries[i];
        protos.push(LedgerProto { ledger_id, tail: block_proto(&block) });
        i += 1;
    }
    proof {
        assert forall|id: u32| #[trigger] ledgers@.contains_key(id) implies exists|i: int|
            0 <= i < protos@.len() && (#[trigger] protos@[i]).ledger_id == id by {
            let k = choose|k: int|
                0 <= k < entries@.len() && entries@[k] == (id, ledgers@[id]);
            assert(protos@[k].ledger_id == id);
        }
        assert forall|i: int, j: int| 0 <= i < j < protos@.len() implies protos@[i].ledger_id
            < protos@[j].ledger_id by {
            assert(entries@[i].0 < entries@[j].0);
        }
    }
    protos
}

/// Builds an `EndorserProto` with only the common fields (alias, verifying key,
/// vk_signature) and no state-specific metadata. Used by `list_endorsers`
/// where state is intentionally omitted.
pub(crate) fn endorser_proto_without_state<S: Phase>(bound: &BoundEndorser<S>) -> (proto:
    EndorserProto)
    ensures
        names_endorser(proto, bound.endorser.key(), bound.vk_signature@),
        proto.state is None,
{
    EndorserProto {
        alias: bound.endorser.alias(),
        verifying_key: key_proto(bound.endorser.verifying_key()),
        verifying_key_signature: to_vec(bound.vk_signature.as_slice()),
        state: None,
    }
}

/// Builds the message for an endorser before activation.
pub(crate) fn uninitialized_proto(bound: &BoundEndorser<Uninitialized>) -> (proto: EndorserProto)
    ensures
        describes_uninitialized(proto, bound@),
{
    let mut proto = endorser_proto_without_state(bound);
    proto.state = Some(EndorserStateProto::Uninitialized(UninitializedStateProto {  }));
    proto
}

/// Builds the message for an active endorser.
pub(crate) fn active_proto(bound: &BoundEndorser<Active>) -> (proto: EndorserProto)
    ensures
        describes_active(proto, bound@),
{
    let mut proto = endorser_proto_without_state(bound);
    proto.state = Some(
        EndorserStateProto::Active(
            ActiveStateProto {
                instance_id: to_vec(bound.endorser.instance_id().as_slice()),
                activation_receipt: bound.endorser.activation_receipt().to_vec(),
            },
        ),
    );
    proto
}

/// Builds the message for a finalized endorser.
pub(crate) fn finalized_proto(bound: &BoundEndorser<Finalized>) -> (proto: EndorserProto)
    ensures
        describes_finalized(proto, bound@),
{
    let mut proto = endorser_proto_without_state(bound);
    proto.state = Some(
        EndorserStateProto::Finalized(
            FinalizedStateProto {
                instance_id: to_vec(bound.endorser.instance_id().as_slice()),
                activation_receipt: bound.endorser.activation_receipt().to_vec(),
                finalization_receipt: bound.endorser.finalization_receipt().to_vec(),
            },
        ),
    );
    proto
}

// ---------------------------------------------------------------------------
// Verifying keys
// ---------------------------------------------------------------------------

/// The key that a message field holds, by its encoding. `context` names the
/// field in the failure's message.
pub open spec fn key_of(vk_proto: Option<VerifyingKeyProto>, context: Seq<char>) -> Result<
    Seq<u8>,
    StatusView,
> {
    match vk_proto {
        None => Err(status::invalid_argument(context + " is missing"@)),
        Some(proto) => match proto.key {
            None => Err(status::invalid_argument(context + " has no key set"@)),
            Some(VerifyingKeyProtoOneOf::Ecdsa(encoding)) => match crypto::sec1_decode(
                encoding@,
            ) {
                Some(key) => Ok(key),
                None => Err(
                    status::invalid_argument(
                        context + ": invalid SEC1 key: "@ + "signature error"@,
                    ),
                ),
            },
        },
    }
}

/// The text that `first` and `second` make together.
fn joined(first: &str, second: &str) -> (text: String)
    ensures
        text@ == first@ + second@,
{
    let mut text = first.to_owned();
    text.append(second);
    text
}

/// Builds an `InvalidArgument` status.
fn invalid_argument(message: String) -> (status: Status)
    ensures
        status@ == status::invalid_argument(message@),
{
    Status::new_with_message(StatusCode::InvalidArgument, message)
}

/// Parses a proto `VerifyingKey` into a [`VerifyingKey`].
///
/// Returns `InvalidArgument` if the key is missing or contains invalid
/// SEC1 bytes. `context` is part of error messages to identify which
/// field failed validation.
pub fn parse_verifying_key(vk_proto: Option<VerifyingKeyProto>, context: &str) -> (key: Result<
    VerifyingKey,
    Status,
>)
    ensures
        match key {
            Ok(k) => key_of(vk_proto, context@) == Ok::<_, StatusView>(k@),
            Err(s) => key_of(vk_proto, context@) == Err::<Seq<u8>, _>(s@),
        },
{
    let proto = match vk_proto {
        Some(proto) => proto,
        None => {
            return Err(invalid_argument(joined(context, " is missing")));
        },
    };
    let encoding = match proto.key {
        Some(VerifyingKeyProtoOneOf::Ecdsa(encoding)) => encoding,
        None => {
            return Err(invalid_argument(joined(context, " has no key set")));
        },
    };
    match VerifyingKey::from_sec1_bytes(encoding.as_slice()) {
        Ok(key) => Ok(key),
        Err(error) => {
            let mut message = joined(context, ": invalid SEC1 key: ");
            message.append(error.message.as_str());
            Err(invalid_argument(message))
        },
    }
}

// ---------------------------------------------------------------------------
// Cohort configurations
// ---------------------------------------------------------------------------

/// What a failure's message calls the key at a position of a configuration.
pub open spec fn key_context(field_name: Seq<char>, index: nat) -> Seq<char> {
    field_name + " key at index "@ + bytes::decimal(index)
}

/// The keys that some message fields hold, or the first failure.
pub open spec fn config_keys_of(protos: Seq<VerifyingKeyProto>, field_name: Seq<char>) -> Result<
    Seq<Seq<u8>>,
    StatusView,
>
    decreases protos.len(),
{
    if protos.len() == 0 {
        Ok(Seq::empty())
    } else {
        match config_keys_of(protos.drop_last(), field_name) {
            Err(failure) => Err(failure),
            Ok(keys) => match key_of(
                Some(protos.last()),
                key_context(field_name, (protos.len() - 1) as nat),
            ) {
                Err(failure) => Err(failure),
                Ok(key) => Ok(keys.push(key)),
            },
        }
    }
}

proof fn lemma_config_failure_persists(
    protos: Seq<VerifyingKeyProto>,
    n: int,
    field_name: Seq<char>,
)
    requires
        0 <= n <= protos.len(),
        config_keys_of(protos.take(n), field_name) is Err,
    ensures
        config_keys_of(protos, field_name) == config_keys_of(protos.take(n), field_name),
    decreases protos.len(),
{
    if n < protos.len() {
        assert(protos.drop_last().take(n) =~= protos.take(n));
        lemma_config_failure_persists(protos.drop_last(), n, field_name);
    } else {
        assert(protos.take(n) =~= protos);
    }
}

/// Parses the keys of a cohort config.
fn parse_config_keys(protos: Vec<VerifyingKeyProto>, field_name: &str) -> (parsed: Result<
    Vec<VerifyingKey>,
    Status,
>)
    ensures
        match parsed {
            Ok(keys) => config_keys_of(protos@, field_name@) == Ok::<_, StatusView>(
                cohort::encodings(keys@),
            ),
            Err(s) => config_keys_of(protos@, field_name@) == Err::<Seq<Seq<u8>>, _>(s@),
        },
{
    let count = protos.len();
    let ghost all = protos@;
    let mut keys: Vec<VerifyingKey> = Vec::new();
    let mut i: usize = 0;
    assert(all.take(0) =~= Seq::empty());
    assert(cohort::encodings(keys@) =~= Seq::empty());
    for vk_proto in it: protos.into_iter()
        invariant
            it.seq() == all,
            i == it.index(),
            all.len() == count,
            config_keys_of(all.take(i as int), field_name@) == Ok::<_, StatusView>(
                cohort::encodings(keys@),
            ),
    {
        proof {
            assert(all.take(i + 1).drop_last() =~= all.take(i as int));
            assert(all.take(i + 1).last() == vk_proto);
        }
        let mut context = joined(field_name, " key at index ");
        bytes::push_decimal(&mut context, i as u64);
        match parse_verifying_key(Some(vk_proto), context.as_str()) {
            Ok(key) => {
                let ghost before = cohort::encodings(keys@);
                keys.push(key);
                assert(cohort::encodings(keys@) =~= before.push(key@));
            },
            Err(status) => {
                proof {
                    lemma_config_failure_persists(all, i + 1, field_name@);
                }
                return Err(status);
            },
        }
        i += 1;
    }
    assert(all.take(all.len() as int) =~= all);
    Ok(keys)
}

/// There are as many keys as message fields.
proof fn lemma_config_keys_len(protos: Seq<VerifyingKeyProto>, field_name: Seq<char>)
    ensures
        config_keys_of(protos, field_name) matches Ok(keys) ==> keys.len() == protos.len(),
    decreases protos.len(),
{
    if protos.len() > 0 {
        lemma_config_keys_len(protos.drop_last(), field_name);
    }
}

/// A configuration that a message field holds is within the limit on its size.
pub proof fn law_parsed_config_is_within_limit(
    config_proto: Option<CohortConfigProto>,
    field_name: Seq<char>,
)
    ensures
        config_of(config_proto, field_name) matches Ok(keys) ==> {
            &&& keys.len() <= MAX_COHORT_SIZE
            &&& cohort::valid_cohort(keys)
        },
{
    match config_proto {
        Some(proto) => {
            lemma_config_keys_len(proto.endorser_keys@, field_name);
        },
        None => {},
    }
}

/// The keys of the cohort that a message field holds. `field_name` names the
/// field in the failure's message.
pub open spec fn config_of(
    config_proto: Option<CohortConfigProto>,
    field_name: Seq<char>,
) -> Result<Seq<Seq<u8>>, StatusView> {
    match config_proto {
        None => Err(status::invalid_argument("missing "@ + field_name)),
        Some(proto) => {
            let protos = proto.endorser_keys@;
            if protos.len() == 0 {
                Err(status::invalid_argument(field_name + " must not be empty"@))
            } else if protos.len() > MAX_COHORT_SIZE {
                Err(
                    status::invalid_argument(
                        field_name + " has too many keys ("@ + bytes::decimal(protos.len())
                            + ", max "@ + bytes::decimal(MAX_COHORT_SIZE as nat) + ")"@,
                    ),
                )
            } else {
                match config_keys_of(protos, field_name) {
                    Err(failure) => Err(failure),
                    Ok(keys) => if cohort::valid_cohort(keys) {
                        Ok(keys)
                    } else {
                        Err(
                            status::invalid_argument(
                                field_name
                                    + " keys are not in strict ascending SEC1-lexicographic order"@,
                            ),
                        )
                    },
                }
            }
        },
    }
}

/// Validates and parses a proto `CohortConfig` into a [`CohortConfig`].
///
/// Returns `InvalidArgument` if the config is missing, empty, too large,
/// contains malformed keys, or keys are not in strict ascending
/// SEC1-lexicographic order. `field_name` is used in error messages to identify
/// which config field failed validation.
pub fn parse_cohort_config(config_proto: Option<CohortConfigProto>, field_name: &str) -> (config:
    Result<CohortConfig, Status>)
    ensures
        match config {
            Ok(c) => config_of(config_proto, field_name@) == Ok::<_, StatusView>(c.key_seq()),
            Err(s) => config_of(config_proto, field_name@) == Err::<Seq<Seq<u8>>, _>(s@),
        },
{
    let proto = match config_proto {
        Some(proto) => proto,
        None => {
            return Err(invalid_argument(joined("missing ", field_name)));
        },
    };
    let count = proto.endorser_keys.len();
    if count == 0 {
        return Err(invalid_argument(joined(field_name, " must not be empty")));
    }
    if count > MAX_COHORT_SIZE {
        let mut message = joined(field_name, " has too many keys (");
        bytes::push_decimal(&mut message, count as u64);
        message.append(", max ");
        bytes::push_decimal(&mut message, MAX_COHORT_SIZE as u64);
        message.append(")");
        return Err(invalid_argument(message));
    }
    let keys = match parse_config_keys(proto.endorser_keys, field_name) {
        Ok(keys) => keys,
        Err(status) => {
            return Err(status);
        },
    };
    match CohortConfig::try_from_keys(keys) {
        Ok(config) => Ok(config),
        Err(_) => Err(
            invalid_argument(
                joined(
                    field_name,
                    " keys are not in strict ascending SEC1-lexicographic order",
                ),
            ),
        ),
    }
}

// ---------------------------------------------------------------------------
// Ledgers
// ---------------------------------------------------------------------------

/// The block with the given contents.
pub open spec fn block_with(entry: Seq<u8>, index: u64, hash_chain_tail: Seq<u8>) -> LedgerBlock {
    choose|block: LedgerBlock|
        block.entry@ == entry && block.index == index && block.hash_chain_tail@ == hash_chain_tail
}

/// There is one block with given contents.
proof fn lemma_block_with(block: LedgerBlock)
    ensures
        block == block_with(block.entry@, block.index, block.hash_chain_tail@),
{
    let chosen = block_with(block.entry@, block.index, block.hash_chain_tail@);
    assert(chosen.entry@ == block.entry@ && chosen.index == block.index
        && chosen.hash_chain_tail@ == block.hash_chain_tail@);
    block.lemma_ext(chosen);
}

/// The ledger ID and block that a message holds.
pub open spec fn ledger_of(proto: LedgerProto) -> Result<(u32, LedgerBlock), StatusView> {
    let name = "ledger "@ + bytes::decimal(proto.ledger_id as nat);
    match proto.tail {
        None => Err(status::invalid_argument(name + " has no tail block"@)),
        Some(tail) => if tail.entry@.len() != 32 {
            Err(status::invalid_argument(name + " entry must be exactly 32 bytes"@))
        } else if tail.hash_chain_tail@.len() != 32 {
            Err(status::invalid_argument(name + " hash_chain_tail must be exactly 32 bytes"@))
        } else {
            Ok((proto.ledger_id, block_with(tail.entry@, tail.index, tail.hash_chain_tail@)))
        },
    }
}

/// The ledger that a message holds is the one with the message's ID, index and
/// bytes.
pub proof fn law_parsed_ledger_is_the_messages(proto: LedgerProto)
    ensures
        ledger_of(proto) matches Ok(pair) ==> {
            &&& pair.0 == proto.ledger_id
            &&& is_block_proto(proto.tail, pair.1)
        },
{
    if ledger_of(proto) is Ok {
        let tail = proto.tail->Some_0;
        let entry = bytes::lemma_array32(tail.entry@);
        let hash_chain_tail = bytes::lemma_array32(tail.hash_chain_tail@);
        lemma_block_with(LedgerBlock { entry, index: tail.index, hash_chain_tail });
    }
}

/// Validates and parses a proto `Ledger` into a `(ledger_id, LedgerBlock)`
/// tuple.
///
/// Returns `InvalidArgument` if the tail block is missing, or if `entry`
/// or `hash_chain_tail` are not exactly 32 bytes.
pub fn parse_ledger_proto(ledger: LedgerProto) -> (parsed: Result<(u32, LedgerBlock), Status>)
    ensures
        match parsed {
            Ok(pair) => {
                &&& ledger_of(ledger) == Ok::<_, StatusView>(pair)
                &&& pair.0 == ledger.ledger_id
                &&& is_block_proto(ledger.tail, pair.1)
            },
            Err(s) => ledger_of(ledger) == Err::<(u32, LedgerBlock), _>(s@),
        },
{
    let ledger_id = ledger.ledger_id;
    let mut message = "ledger ".to_owned();
    bytes::push_decimal(&mut message, ledger_id as u64);
    let tail = match ledger.tail {
        Some(tail) => tail,
        None => {
            message.append(" has no tail block");
            return Err(invalid_argument(message));
        },
    };
    let entry = match bytes::to_array32(tail.entry.as_slice()) {
        Some(entry) => entry,
        None => {
            message.append(" entry must be exactly 32 bytes");
            return Err(invalid_argument(message));
        },
    };
    let hash_chain_tail = match bytes::to_array32(tail.hash_chain_tail.as_slice()) {
        Some(hash_chain_tail) => hash_chain_tail,
        None => {
            message.append(" hash_chain_tail must be exactly 32 bytes");
            return Err(invalid_argument(message));
        },
    };
    let block = LedgerBlock { entry, index: tail.index, hash_chain_tail };
    proof {
        lemma_block_with(block);
    }
    Ok((ledger_id, block))
}

/// The ledgers that some messages hold, or the first failure.
pub open spec fn ledgers_of(protos: Seq<LedgerProto>) -> Result<
    Seq<(u32, LedgerBlock)>,
    StatusView,
>
    decreases protos.len(),
{
    if protos.len() == 0 {
        Ok(Seq::empty())
    } else {
        match ledgers_of(protos.drop_last()) {
            Err(failure) => Err(failure),
            Ok(ledgers) => match ledger_of(protos.last()) {
                Err(failure) => Err(failure),
                Ok(ledger) => Ok(ledgers.push(ledger)),
            },
        }
    }
}

proof fn lemma_ledgers_failure_persists(protos: Seq<LedgerProto>, n: int)
    requires
        0 <= n <= protos.len(),
        ledgers_of(protos.take(n)) is Err,
    ensures
        ledgers_of(protos) == ledgers_of(protos.take(n)),
    decreases protos.len(),
{
    if n < protos.len() {
        assert(protos.drop_last().take(n) =~= protos.take(n));
        lemma_ledgers_failure_persists(protos.drop_last(), n);
    } else {
        assert(protos.take(n) =~= protos);
    }
}

/// Parses the ledgers of a takeover.
fn parse_ledgers(protos: Vec<LedgerProto>) -> (parsed: Result<Ledgers, Status>)
    ensures
        match parsed {
            Ok(ledgers) => {
                &&& ledgers_of(protos@) is Ok
                &&& ledgers@ == ledger::from_pairs(ledgers_of(protos@)->Ok_0)
            },
            Err(s) => ledgers_of(protos@) == Err::<Seq<(u32, LedgerBlock)>, _>(s@),
        },
{
    let count = protos.len();
    let ghost all = protos@;
    let mut pairs: Vec<(u32, LedgerBlock)> = Vec::new();
    let ghost mut i: int = 0;
    assert(all.take(0) =~= Seq::empty());
    for proto in it: protos.into_iter()
        invariant
            it.seq() == all,
            i == it.index(),
            all.len() == count,
            ledgers_of(all.take(i)) == Ok::<_, StatusView>(pairs@),
    {
        proof {
            assert(all.take(i + 1).drop_last() =~= all.take(i));
            assert(all.take(i + 1).last() == proto);
        }
        match parse_ledger_proto(proto) {
            Ok(pair) => {
                pairs.push(pair);
            },
            Err(status) => {
                proof {
                    lemma_ledgers_failure_persists(all, i + 1);
                }
                return Err(status);
            },
        }
        proof {
            i = i + 1;
        }
    }
    assert(all.take(all.len() as int) =~= all);
    Ok(Ledgers::from_entries(pairs.as_slice()))
}

// ---------------------------------------------------------------------------
// Takeovers
// ---------------------------------------------------------------------------

/// What a failure's message calls the finalization entry at a position.
pub open spec fn finalization_context(index: nat) -> Seq<char> {
    "endorser finalization at index "@ + bytes::decimal(index)
}

/// The key and receipt that a finalization entry holds.
pub open spec fn finalization_entry_of(index: nat, proto: EndorserFinalizationProto) -> Result<
    ReceiptEntry,
    StatusView,
> {
    match key_of(proto.endorser_key, finalization_context(index)) {
        Err(failure) => Err(failure),
        Ok(key) => match proto.receipt {
            None => Ok(ReceiptEntry { key, receipt: None }),
            Some(receipt) => if crypto::is_signature(receipt@) {
                Ok(ReceiptEntry { key, receipt: Some(receipt@) })
            } else {
                Err(
                    status::invalid_argument(
                        finalization_context(index) + ": invalid receipt signature: "@
                            + "signature error"@,
                    ),
                )
            },
        },
    }
}

/// Validates and parses a single `EndorserFinalization` proto entry into an
/// [`EndorserFinalization`].
///
/// `index` is the position of this entry in the endorser finalizations list,
/// used in error messages.
///
/// Returns `InvalidArgument` if the endorser key is missing, malformed,
/// or if the receipt signature bytes are invalid.
pub fn parse_endorser_finalization_proto(
    index: usize,
    proto: EndorserFinalizationProto,
) -> (parsed: Result<EndorserFinalization, Status>)
    ensures
        match parsed {
            Ok(entry) => finalization_entry_of(index as nat, proto) == Ok::<_, StatusView>(entry@),
            Err(s) => finalization_entry_of(index as nat, proto) == Err::<ReceiptEntry, _>(s@),
        },
{
    let mut context = "endorser finalization at index ".to_owned();
    bytes::push_decimal(&mut context, index as u64);
    let endorser_key = match parse_verifying_key(proto.endorser_key, context.as_str()) {
        Ok(key) => key,
        Err(status) => {
            return Err(status);
        },
    };
    let maybe_receipt = match proto.receipt {
        None => None,
        Some(encoding) => match Signature::from_slice(encoding.as_slice()) {
            Ok(signature) => Some(signature),
            Err(error) => {
                context.append(": invalid receipt signature: ");
                context.append(error.message.as_str());
                return Err(invalid_argument(context));
            },
        },
    };
    Ok(EndorserData { endorser_key, maybe_receipt })
}

/// The entries that some messages hold, or the first failure.
pub open spec fn finalization_entries_of(protos: Seq<EndorserFinalizationProto>) -> Result<
    Seq<ReceiptEntry>,
    StatusView,
>
    decreases protos.len(),
{
    if protos.len() == 0 {
        Ok(Seq::empty())
    } else {
        match finalization_entries_of(protos.drop_last()) {
            Err(failure) => Err(failure),
            Ok(entries) => match finalization_entry_of(
                (protos.len() - 1) as nat,
                protos.last(),
            ) {
                Err(failure) => Err(failure),
                Ok(entry) => Ok(entries.push(entry)),
            },
        }
    }
}

proof fn lemma_finalization_failure_persists(protos: Seq<EndorserFinalizationProto>, n: int)
    requires
        0 <= n <= protos.len(),
        finalization_entries_of(protos.take(n)) is Err,
    ensures
        finalization_entries_of(protos) == finalization_entries_of(protos.take(n)),
    decreases protos.len(),
{
    if n < protos.len() {
        assert(protos.drop_last().take(n) =~= protos.take(n));
        lemma_finalization_failure_persists(protos.drop_last(), n);
    } else {
        assert(protos.take(n) =~= protos);
    }
}

/// Parses the finalization entries of a takeover.
fn parse_endorser_finalizations(protos: Vec<EndorserFinalizationProto>) -> (parsed: Result<
    Vec<EndorserFinalization>,
    Status,
>)
    ensures
        match parsed {
            Ok(entries) => finalization_entries_of(protos@) == Ok::<_, StatusView>(
                quorum::receipt_entries(entries@),
            ),
            Err(s) => finalization_entries_of(protos@) == Err::<Seq<ReceiptEntry>, _>(s@),
        },
{
    let count = protos.len();
    let ghost all = protos@;
    let mut entries: Vec<EndorserFinalization> = Vec::new();
    let mut i: usize = 0;
    assert(all.take(0) =~= Seq::empty());
    assert(quorum::receipt_entries(entries@) =~= Seq::empty());
    for proto in it: protos.into_iter()
        invariant
            it.seq() == all,
            i == it.index(),
            all.len() == count,
            finalization_entries_of(all.take(i as int)) == Ok::<_, StatusView>(
                quorum::receipt_entries(entries@),
            ),
    {
        proof {
            assert(all.take(i + 1).drop_last() =~= all.take(i as int));
            assert(all.take(i + 1).last() == proto);
        }
        match parse_endorser_finalization_proto(i, proto) {
            Ok(entry) => {
                let ghost before = quorum::receipt_entries(entries@);
                entries.push(entry);
                assert(quorum::receipt_entries(entries@) =~= before.push(entry@));
            },
            Err(status) => {
                proof {
                    lemma_finalization_failure_persists(all, i + 1);
                }
                return Err(status);
            },
        }
        i += 1;
    }
    assert(all.take(all.len() as int) =~= all);
    Ok(entries)
}

/// The finalization entries that a takeover message holds; a message without a
/// cohort finalization has none.
pub open spec fn takeover_entries(proto: CohortTakeOverProto) -> Seq<EndorserFinalizationProto> {
    match proto.cohort_finalization {
        Some(finalization) => finalization.endorser_finalizations@,
        None => Seq::empty(),
    }
}

/// The takeover that a message field holds, if any.
pub open spec fn takeover_of(cohort_takeover: Option<CohortTakeOverProto>) -> Result<
    Option<TakeOverView>,
    StatusView,
> {
    match cohort_takeover {
        None => Ok(None),
        Some(proto) => if proto.instance_id@.len() != 32 {
            Err(status::invalid_argument("instance_id must be exactly 32 bytes"@))
        } else {
            match finalization_entries_of(takeover_entries(proto)) {
                Err(failure) => Err(failure),
                Ok(entries) => if proto.ledgers@.len() > MAX_LEDGERS {
                    Err(
                        status::invalid_argument(
                            "too many ledgers in cohort takeover ("@ + bytes::decimal(
                                proto.ledgers@.len(),
                            ) + ", max "@ + bytes::decimal(MAX_LEDGERS as nat) + ")"@,
                        ),
                    )
                } else {
                    match ledgers_of(proto.ledgers@) {
                        Err(failure) => Err(failure),
                        Ok(ledgers) => if cohort::valid_cohort(quorum::entry_keys(entries)) {
                            Ok(
                                Some(
                                    TakeOverView {
                                        instance_id: proto.instance_id@,
                                        finalization: entries,
                                        ledgers: ledger::from_pairs(ledgers),
                                    },
                                ),
                            )
                        } else {
                            Err(
                                status::invalid_argument(
                                    "endorser finalization keys are not in strict ascending SEC1-lexicographic order"@,
                                ),
                            )
                        },
                    }
                },
            }
        },
    }
}

/// There are as many ledgers as messages.
proof fn lemma_ledgers_len(protos: Seq<LedgerProto>)
    ensures
        ledgers_of(protos) matches Ok(ledgers) ==> ledgers.len() == protos.len(),
    decreases protos.len(),
{
    if protos.len() > 0 {
        lemma_ledgers_len(protos.drop_last());
    }
}

/// The ledgers of a takeover that a message field holds are within the limit on
/// their number.
pub proof fn law_parsed_takeover_is_within_limit(cohort_takeover: Option<CohortTakeOverProto>)
    ensures
        takeover_of(cohort_takeover) matches Ok(Some(takeover)) ==> {
            &&& takeover.ledgers.dom().finite()
            &&& takeover.ledgers.len() <= MAX_LEDGERS
            &&& cohort::valid_cohort(quorum::entry_keys(takeover.finalization))
        },
{
    match cohort_takeover {
        Some(proto) => {
            lemma_ledgers_len(proto.ledgers@);
            if ledgers_of(proto.ledgers@) is Ok {
                ledger::lemma_from_pairs_len(ledgers_of(proto.ledgers@)->Ok_0);
            }
        },
        None => {},
    }
}

/// A ledger's message gives the ledger back.
proof fn lemma_ledger_message(proto: LedgerProto, block: LedgerBlock)
    requires
        is_block_proto(proto.tail, block),
    ensures
        ledger_of(proto) == Ok::<_, StatusView>((proto.ledger_id, block)),
{
    lemma_block_with(block);
}

/// The ledgers' messages give the ledgers back, in order.
proof fn lemma_ledger_messages(protos: Seq<LedgerProto>, ledgers: Map<u32, LedgerBlock>)
    requires
        forall|i: int|
            0 <= i < protos.len() ==> is_block_proto(
                (#[trigger] protos[i]).tail,
                ledgers[protos[i].ledger_id],
            ),
    ensures
        ledgers_of(protos) == Ok::<_, StatusView>(
            Seq::new(
                protos.len(),
                |i: int| (protos[i].ledger_id, ledgers[protos[i].ledger_id]),
            ),
        ),
    decreases protos.len(),
{
    let pairs = Seq::new(
        protos.len(),
        |i: int| (protos[i].ledger_id, ledgers[protos[i].ledger_id]),
    );
    if protos.len() == 0 {
        assert(pairs =~= Seq::empty());
    } else {
        let earlier = protos.drop_last();
        assert forall|i: int| 0 <= i < earlier.len() implies is_block_proto(
            (#[trigger] earlier[i]).tail,
            ledgers[earlier[i].ledger_id],
        ) by {
            assert(earlier[i] == protos[i]);
        }
        lemma_ledger_messages(earlier, ledgers);
        lemma_ledger_message(protos.last(), ledgers[protos.last().ledger_id]);
        let earlier_pairs = Seq::new(
            earlier.len(),
            |i: int| (earlier[i].ledger_id, ledgers[earlier[i].ledger_id]),
        );
        assert(earlier_pairs.push((protos.last().ledger_id, ledgers[protos.last().ledger_id]))
            =~= pairs);
    }
}

/// The ledgers survive a handover through messages: what finalization lists of
/// a store, a takeover that carries the same messages takes for that store.
pub proof fn law_listed_ledgers_are_parsed_back(
    protos: Seq<LedgerProto>,
    ledgers: Map<u32, LedgerBlock>,
)
    requires
        lists_ledgers(protos, ledgers),
    ensures
        ledgers_of(protos) is Ok,
        ledger::from_pairs(ledgers_of(protos)->Ok_0) == ledgers,
{
    lemma_ledger_messages(protos, ledgers);
    let pairs = ledgers_of(protos)->Ok_0;
    assert forall|i: int, j: int| 0 <= i < j < pairs.len() implies pairs[i].0 < pairs[j].0 by {
        assert(protos[i].ledger_id < protos[j].ledger_id);
    }
    assert forall|i: int| 0 <= i < pairs.len() implies ledgers.contains_key(
        (#[trigger] pairs[i]).0,
    ) && ledgers[pairs[i].0] == pairs[i].1 by {
        assert(pairs[i].0 == protos[i].ledger_id);
    }
    assert forall|id: u32| #[trigger] ledgers.contains_key(id) implies pairs.contains(
        (id, ledgers[id]),
    ) by {
        let i = choose|i: int| 0 <= i < protos.len() && (#[trigger] protos[i]).ledger_id == id;
        assert(pairs[i] == (id, ledgers[id]));
    }
    ledger::law_listed_ledgers_rebuild_the_store(pairs, ledgers);
}

/// Whether a message carries a finalization entry.
pub open spec fn carries_entry(proto: EndorserFinalizationProto, entry: ReceiptEntry) -> bool {
    &&& is_key_proto(proto.endorser_key, entry.key)
    &&& crypto::sec1_decode(entry.key) == Some(entry.key)
    &&& match entry.receipt {
        None => proto.receipt is None,
        Some(receipt) => {
            &&& crypto::is_signature(receipt)
            &&& proto.receipt matches Some(encoding)
            &&& encoding@ == receipt
        },
    }
}

/// Whether a message carries a takeover, with the ledgers as finalization lists
/// them.
pub open spec fn carries_takeover(proto: CohortTakeOverProto, takeover: TakeOverView) -> bool {
    &&& proto.instance_id@ == takeover.instance_id
    &&& takeover.instance_id.len() == 32
    &&& lists_ledgers(proto.ledgers@, takeover.ledgers)
    &&& takeover_entries(proto).len() == takeover.finalization.len()
    &&& forall|i: int|
        0 <= i < takeover.finalization.len() ==> carries_entry(
            #[trigger] takeover_entries(proto)[i],
            takeover.finalization[i],
        )
    &&& cohort::valid_cohort(quorum::entry_keys(takeover.finalization))
}

/// The messages of finalization entries give the entries back.
proof fn lemma_entry_messages(
    protos: Seq<EndorserFinalizationProto>,
    entries: Seq<ReceiptEntry>,
)
    requires
        protos.len() == entries.len(),
        forall|i: int|
            0 <= i < protos.len() ==> carries_entry(#[trigger] protos[i], entries[i]),
    ensures
        finalization_entries_of(protos) == Ok::<_, StatusView>(entries),
    decreases protos.len(),
{
    if protos.len() == 0 {
        assert(entries =~= Seq::empty());
    } else {
        let earlier = protos.drop_last();
        let earlier_entries = entries.drop_last();
        assert forall|i: int| 0 <= i < earlier.len() implies carries_entry(
            #[trigger] earlier[i],
            earlier_entries[i],
        ) by {
            assert(carries_entry(protos[i], entries[i]));
        }
        lemma_entry_messages(earlier, earlier_entries);
        assert(carries_entry(protos[protos.len() - 1], entries[protos.len() - 1]));
        assert(earlier_entries.push(entries.last()) =~= entries);
    }
}

/// A takeover survives the way through messages: within the limit on the
/// number of ledgers, what a message carries is what parsing gets from it.
pub proof fn law_carried_takeover_is_parsed_back(
    proto: CohortTakeOverProto,
    takeover: TakeOverView,
)
    ensures
        carries_takeover(proto, takeover) && proto.ledgers@.len() <= MAX_LEDGERS ==> takeover_of(
            Some(proto),
        ) == Ok::<_, StatusView>(Some(takeover)),
{
    if carries_takeover(proto, takeover) {
        lemma_entry_messages(takeover_entries(proto), takeover.finalization);
        law_listed_ledgers_are_parsed_back(proto.ledgers@, takeover.ledgers);
    }
}

/// What an optional takeover says.
pub open spec fn takeover_view(takeover: Option<CohortTakeOver>) -> Option<TakeOverView> {
    match takeover {
        Some(t) => Some(t@),
        None => None,
    }
}

/// Validates and parses an optional proto `CohortTakeOver` into a
/// [`CohortTakeOver`].
///
/// If the input is `Some`, validates all fields (`instance_id`,
/// `cohort_finalization.endorser_finalizations`, `ledgers`) and returns
/// `Ok(Some(CohortTakeOver {...}))`.
///
/// If the input is `None`, returns `Ok(None)`.
///
/// Returns `Err(InvalidArgument)` if any field is malformed, or if endorser
/// finalization keys are not in strict ascending SEC1-lexicographic order.
pub fn parse_cohort_takeover_proto(cohort_takeover: Option<CohortTakeOverProto>) -> (parsed:
    Result<Option<CohortTakeOver>, Status>)
    ensures
        match parsed {
            Ok(takeover) => takeover_of(cohort_takeover) == Ok::<_, StatusView>(
                takeover_view(takeover),
            ),
            Err(s) => takeover_of(cohort_takeover) == Err::<Option<TakeOverView>, _>(s@),
        },
{
    let proto = match cohort_takeover {
        None => {
            return Ok(None);
        },
        Some(proto) => proto,
    };

    // instance_id must be exactly 32 bytes.
    let instance_id = match bytes::to_array32(proto.instance_id.as_slice()) {
        Some(instance_id) => instance_id,
        None => {
            return Err(invalid_argument("instance_id must be exactly 32 bytes".to_owned()));
        },
    };

    // Each entry provides an endorser key and an optional finalization receipt.
    let entry_protos = match proto.cohort_finalization {
        Some(finalization) => finalization.endorser_finalizations,
        None => Vec::new(),
    };
    let endorser_finalizations = match parse_endorser_finalizations(entry_protos) {
        Ok(entries) => entries,
        Err(status) => {
            return Err(status);
        },
    };
    let count = proto.ledgers.len();
    if count > MAX_LEDGERS {
        let mut message = "too many ledgers in cohort takeover (".to_owned();
        bytes::push_decimal(&mut message, count as u64);
        message.append(", max ");
        bytes::push_decimal(&mut message, MAX_LEDGERS as u64);
        message.append(")");
        return Err(invalid_argument(message));
    }
    let ledgers = match parse_ledgers(proto.ledgers) {
        Ok(ledgers) => ledgers,
        Err(status) => {
            return Err(status);
        },
    };
    proof {
        quorum::lemma_entry_keys(endorser_finalizations@);
    }
    let cohort_finalization = match CohortFinalization::try_new(endorser_finalizations) {
        Ok(cohort_finalization) => cohort_finalization,
        Err(_) => {
            return Err(
                invalid_argument(
                    "endorser finalization keys are not in strict ascending SEC1-lexicographic order".to_owned(),
                ),
            );
        },
    };
    Ok(Some(CohortTakeOver::new(instance_id, cohort_finalization, ledgers)))
}

} // verus!
