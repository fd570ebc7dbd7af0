//! What the service takes from messages, stated on the messages' bytes.

use vstd::prelude::*;

use crate::bytes;
use crate::cohort;
use crate::cohort::{CohortConfig, EndorserFinalization};
use crate::crypto;
use crate::encoding_laws;
use crate::keys::VerifyingKey;
use crate::ledger;
use crate::ledger::{LedgerBlock, Ledgers};
use crate::messages::{
    CohortConfigProto, CohortTakeOverProto, EndorserFinalizationProto, LedgerBlockProto,
    LedgerProto, VerifyingKeyProto, VerifyingKeyProtoOneOf,
};
use crate::proto_mapping;
use crate::quorum;
use crate::quorum::ReceiptEntry;
use crate::service_laws;
use crate::status::{Status, StatusCode};
use crate::takeover::CohortTakeOver;

verus! {

// ---------------------------------------------------------------------------
// Keys
// ---------------------------------------------------------------------------

/// The key that a message holds: what its bytes decode to.
pub open spec fn decoded(proto: VerifyingKeyProto) -> Option<Seq<u8>> {
    match proto.key {
        Some(VerifyingKeyProtoOneOf::Ecdsa(encoding)) => crypto::sec1_decode(encoding@),
        None => None,
    }
}

/// A key is taken from a message exactly if the message is there and its bytes
/// decode to a key.
pub proof fn law_key_is_what_the_bytes_decode_to(
    vk_proto: Option<VerifyingKeyProto>,
    context: &str,
    key: Result<VerifyingKey, Status>,
)
    requires
        call_ensures(proto_mapping::parse_verifying_key, (vk_proto, context), key),
    ensures
        key is Ok <==> vk_proto is Some && decoded(vk_proto->Some_0) is Some,
        key matches Ok(k) ==> decoded(vk_proto->Some_0) == Some(k@),
        key matches Err(status) ==> status.code == StatusCode::InvalidArgument,
{
}

/// A key survives the way through a message.
pub proof fn law_key_survives_a_message(
    key: &VerifyingKey,
    proto: Option<VerifyingKeyProto>,
    context: &str,
    parsed: Result<VerifyingKey, Status>,
)
    requires
        call_ensures(proto_mapping::key_proto, (key,), proto),
        call_ensures(proto_mapping::parse_verifying_key, (proto, context), parsed),
    ensures
        parsed is Ok,
        parsed->Ok_0@ == key@,
{
    assert(proto_mapping::key_of(proto, context@) == Ok::<_, crate::status::StatusView>(key@));
}

proof fn lemma_config_keys(protos: Seq<VerifyingKeyProto>, field_name: Seq<char>)
    ensures
        proto_mapping::config_keys_of(protos, field_name) is Ok <==> forall|i: int|
            0 <= i < protos.len() ==> decoded(#[trigger] protos[i]) is Some,
        proto_mapping::config_keys_of(protos, field_name) matches Ok(keys) ==> {
            &&& keys.len() == protos.len()
            &&& forall|i: int|
                0 <= i < protos.len() ==> decoded(#[trigger] protos[i]) == Some(keys[i])
        },
        proto_mapping::config_keys_of(protos, field_name) matches Err(failure) ==> failure.code
            == StatusCode::InvalidArgument,
    decreases protos.len(),
{
    if protos.len() > 0 {
        let earlier = protos.drop_last();
        lemma_config_keys(earlier, field_name);
        assert(forall|i: int| 0 <= i < earlier.len() ==> earlier[i] == protos[i]);
        assert(protos.last() == protos[protos.len() - 1]);
        if forall|i: int| 0 <= i < protos.len() ==> decoded(#[trigger] protos[i]) is Some {
            assert forall|i: int| 0 <= i < earlier.len() implies decoded(
                #[trigger] earlier[i],
            ) is Some by {
                assert(earlier[i] == protos[i]);
            }
        }
        if proto_mapping::config_keys_of(protos, field_name) is Ok {
            let keys = proto_mapping::config_keys_of(protos, field_name)->Ok_0;
            assert forall|i: int| 0 <= i < protos.len() implies decoded(#[trigger] protos[i])
                == Some(keys[i]) by {
                if i < earlier.len() {
                    assert(decoded(earlier[i]) == Some(keys[i]));
                }
            }
        }
    }
}

/// A configuration is taken from a message exactly if it has from one to two
/// hundred keys, all of them decode, and each comes before every later one. It
/// then consists of those keys.
pub proof fn law_config_is_the_decoded_keys(
    config_proto: Option<CohortConfigProto>,
    field_name: &str,
    config: Result<CohortConfig, Status>,
)
    requires
        call_ensures(proto_mapping::parse_cohort_config, (config_proto, field_name), config),
    ensures
        config is Ok <==> {
            &&& config_proto matches Some(proto)
            &&& 0 < proto.endorser_keys@.len() <= 200
            &&& forall|i: int|
                0 <= i < proto.endorser_keys@.len() ==> decoded(
                    #[trigger] proto.endorser_keys@[i],
                ) is Some
            &&& forall|i: int, j: int|
                0 <= i < j < proto.endorser_keys@.len() ==> encoding_laws::precedes(
                    decoded(#[trigger] proto.endorser_keys@[i])->Some_0,
                    decoded(#[trigger] proto.endorser_keys@[j])->Some_0,
                )
        },
        config matches Ok(c) ==> {
            let protos = config_proto->Some_0.endorser_keys@;
            &&& c.key_seq().len() == protos.len()
            &&& forall|i: int|
                0 <= i < protos.len() ==> decoded(#[trigger] protos[i]) == Some(c.key_seq()[i])
        },
        config matches Err(status) ==> status.code == StatusCode::InvalidArgument,
{
    if let Some(proto) = config_proto {
        let protos = proto.endorser_keys@;
        lemma_config_keys(protos, field_name@);
        if proto_mapping::config_keys_of(protos, field_name@) is Ok {
            let keys = proto_mapping::config_keys_of(protos, field_name@)->Ok_0;
            assert forall|i: int, j: int| 0 <= i < j < protos.len() implies bytes::lex_less(
                keys[i],
                keys[j],
            ) == encoding_laws::precedes(
                decoded(#[trigger] protos[i])->Some_0,
                decoded(#[trigger] protos[j])->Some_0,
            ) by {
                encoding_laws::lemma_precedes(keys[i], keys[j]);
            }
            if cohort::valid_cohort(keys) {
                assert forall|i: int, j: int| 0 <= i < j < protos.len() implies
                    encoding_laws::precedes(
                    decoded(#[trigger] protos[i])->Some_0,
                    decoded(#[trigger] protos[j])->Some_0,
                ) by {
                    assert(bytes::lex_less(keys[i], keys[j]));
                }
            } else if protos.len() > 0 {
                let (i, j) = choose|i: int, j: int|
                    0 <= i < j < keys.len() && !bytes::lex_less(keys[i], keys[j]);
                assert(!encoding_laws::precedes(
                    decoded(protos[i])->Some_0,
                    decoded(protos[j])->Some_0,
                ));
            }
        }
    }
}

// ---------------------------------------------------------------------------
// Ledgers
// ---------------------------------------------------------------------------

/// Whether a message holds a ledger: it has a block, and the block's entry and
/// tail have 32 bytes.
pub open spec fn holds_ledger(proto: LedgerProto) -> bool {
    match proto.tail {
        Some(tail) => tail.entry@.len() == 32 && tail.hash_chain_tail@.len() == 32,
        None => false,
    }
}

/// A ledger is taken from a message exactly if the message holds one, with its
/// ID and the bytes of its block.
pub proof fn law_ledger_is_the_messages_bytes(
    proto: LedgerProto,
    parsed: Result<(u32, LedgerBlock), Status>,
)
    requires
        call_ensures(proto_mapping::parse_ledger_proto, (proto,), parsed),
    ensures
        parsed is Ok <==> holds_ledger(proto),
        parsed matches Ok(pair) ==> {
            &&& pair.0 == proto.ledger_id
            &&& service_laws::carries(proto.tail, pair.1)
        },
        parsed matches Err(status) ==> status.code == StatusCode::InvalidArgument,
{
}

/// A block survives the way through a message.
pub proof fn law_block_survives_a_message(
    block: &LedgerBlock,
    tail: Option<LedgerBlockProto>,
    ledger_id: u32,
    parsed: Result<(u32, LedgerBlock), Status>,
)
    requires
        call_ensures(proto_mapping::block_proto, (block,), tail),
        call_ensures(
            proto_mapping::parse_ledger_proto,
            (LedgerProto { ledger_id, tail },),
            parsed,
        ),
    ensures
        parsed is Ok,
        parsed->Ok_0.0 == ledger_id,
        parsed->Ok_0.1 == *block,
{
    if parsed is Ok {
        parsed->Ok_0.1.lemma_ext(*block);
    }
}

/// The messages for a ledger store are in ascending order, and there is one for
/// an ID exactly if looking the ID up gives a block, which the message holds.
pub proof fn law_ledger_messages_are_the_store(
    ledgers: &Ledgers,
    protos: Vec<LedgerProto>,
    ledger_id: u32,
    found: Option<&LedgerBlock>,
)
    requires
        call_ensures(proto_mapping::ledger_protos, (ledgers,), protos),
        call_ensures(Ledgers::get, (ledgers, &ledger_id), found),
    ensures
        forall|i: int, j: int|
            0 <= i < j < protos@.len() ==> (#[trigger] protos@[i]).ledger_id < (
            #[trigger] protos@[j]).ledger_id,
        found is None ==> forall|i: int|
            0 <= i < protos@.len() ==> (#[trigger] protos@[i]).ledger_id != ledger_id,
        found matches Some(block) ==> exists|i: int|
            {
                &&& 0 <= i < protos@.len()
                &&& (#[trigger] protos@[i]).ledger_id == ledger_id
                &&& service_laws::carries(protos@[i].tail, *block)
            },
{
}

// ---------------------------------------------------------------------------
// Takeovers
// ---------------------------------------------------------------------------

/// Whether a message holds a finalization entry: its key decodes, and its
/// receipt, if it has one, is a signature.
pub open spec fn holds_entry(proto: EndorserFinalizationProto) -> bool {
    &&& proto.endorser_key is Some
    &&& decoded(proto.endorser_key->Some_0) is Some
    &&& proto.receipt is Some ==> crypto::is_signature(proto.receipt->Some_0@)
}

/// Whether an entry has the key and the receipt of a message.
pub open spec fn is_entry_of(entry: ReceiptEntry, proto: EndorserFinalizationProto) -> bool {
    &&& proto.endorser_key is Some
    &&& decoded(proto.endorser_key->Some_0) == Some(entry.key)
    &&& match proto.receipt {
        Some(receipt) => entry.receipt == Some(receipt@),
        None => entry.receipt is None,
    }
}

/// A finalization entry is taken from a message exactly if the message holds
/// one, with its key and its receipt.
pub proof fn law_entry_is_the_messages(
    index: usize,
    proto: EndorserFinalizationProto,
    parsed: Result<EndorserFinalization, Status>,
)
    requires
        call_ensures(
            proto_mapping::parse_endorser_finalization_proto,
            (index, proto),
            parsed,
        ),
    ensures
        parsed is Ok <==> holds_entry(proto),
        parsed matches Ok(entry) ==> is_entry_of(entry@, proto),
        parsed matches Err(status) ==> status.code == StatusCode::InvalidArgument,
{
}

proof fn lemma_entries(protos: Seq<EndorserFinalizationProto>)
    ensures
        proto_mapping::finalization_entries_of(protos) is Ok <==> forall|i: int|
            0 <= i < protos.len() ==> holds_entry(#[trigger] protos[i]),
        proto_mapping::finalization_entries_of(protos) matches Ok(entries) ==> {
            &&& entries.len() == protos.len()
            &&& forall|i: int|
                0 <= i < protos.len() ==> is_entry_of(entries[i], #[trigger] protos[i])
        },
        proto_mapping::finalization_entries_of(protos) matches Err(failure) ==> failure.code
            == StatusCode::InvalidArgument,
    decreases protos.len(),
{
    if protos.len() > 0 {
        let earlier = protos.drop_last();
        lemma_entries(earlier);
        assert(protos.last() == protos[protos.len() - 1]);
        if forall|i: int| 0 <= i < protos.len() ==> holds_entry(#[trigger] protos[i]) {
            assert forall|i: int| 0 <= i < earlier.len() implies holds_entry(
                #[trigger] earlier[i],
            ) by {
                assert(earlier[i] == protos[i]);
            }
        }
        if proto_mapping::finalization_entries_of(protos) is Ok {
            let entries = proto_mapping::finalization_entries_of(protos)->Ok_0;
            assert forall|i: int| 0 <= i < protos.len() implies is_entry_of(
                entries[i],
                #[trigger] protos[i],
            ) && holds_entry(protos[i]) by {
                if i < earlier.len() {
                    assert(earlier[i] == protos[i]);
                    assert(is_entry_of(entries[i], earlier[i]));
                    assert(holds_entry(earlier[i]));
                }
            }
        }
    }
}

proof fn lemma_ledgers(protos: Seq<LedgerProto>)
    ensures
        proto_mapping::ledgers_of(protos) is Ok <==> forall|i: int|
            0 <= i < protos.len() ==> holds_ledger(#[trigger] protos[i]),
        proto_mapping::ledgers_of(protos) matches Ok(pairs) ==> {
            &&& pairs.len() == protos.len()
            &&& forall|i: int|
                0 <= i < protos.len() ==> pairs[i].0 == (#[trigger] protos[i]).ledger_id
                    && service_laws::carries(protos[i].tail, pairs[i].1)
        },
        proto_mapping::ledgers_of(protos) matches Err(failure) ==> failure.code
            == StatusCode::InvalidArgument,
    decreases protos.len(),
{
    if protos.len() > 0 {
        let earlier = protos.drop_last();
        lemma_ledgers(earlier);
        let last = protos[protos.len() - 1];
        assert(protos.last() == last);
        proto_mapping::law_parsed_ledger_is_the_messages(last);
        if forall|i: int| 0 <= i < protos.len() ==> holds_ledger(#[trigger] protos[i]) {
            assert forall|i: int| 0 <= i < earlier.len() implies holds_ledger(
                #[trigger] earlier[i],
            ) by {
                assert(earlier[i] == protos[i]);
            }
        }
        if proto_mapping::ledgers_of(protos) is Ok {
            let pairs = proto_mapping::ledgers_of(protos)->Ok_0;
            assert forall|i: int| 0 <= i < protos.len() implies pairs[i].0 == (
            #[trigger] protos[i]).ledger_id && service_laws::carries(protos[i].tail, pairs[i].1)
                && holds_ledger(protos[i]) by {
                if i < earlier.len() {
                    assert(earlier[i] == protos[i]);
                    assert(holds_ledger(earlier[i]));
                }
            }
        }
    }
}

/// The finalization entries of a takeover message.
pub open spec fn entries_in(proto: CohortTakeOverProto) -> Seq<EndorserFinalizationProto> {
    match proto.cohort_finalization {
        Some(finalization) => finalization.endorser_finalizations@,
        None => Seq::empty(),
    }
}

/// Whether a message holds a takeover: the instance ID has 32 bytes, there are at
/// most a hundred ledgers, every ledger and every entry is held, there is an
/// entry, and each key comes before every later one.
pub open spec fn holds_takeover(proto: CohortTakeOverProto) -> bool {
    let entries = entries_in(proto);
    &&& proto.instance_id@.len() == 32
    &&& proto.ledgers@.len() <= 100
    &&& forall|i: int| 0 <= i < proto.ledgers@.len() ==> holds_ledger(#[trigger] proto.ledgers@[i])
    &&& entries.len() > 0
    &&& forall|i: int| 0 <= i < entries.len() ==> holds_entry(#[trigger] entries[i])
    &&& forall|i: int, j: int|
        0 <= i < j < entries.len() ==> encoding_laws::precedes(
            decoded((#[trigger] entries[i]).endorser_key->Some_0)->Some_0,
            decoded((#[trigger] entries[j]).endorser_key->Some_0)->Some_0,
        )
}

/// A takeover is taken from a message exactly if the message holds one; where
/// there is no message there is no takeover. It has the instance, the entries
/// and the ledgers of the message; of messages for the same ledger the last one
/// counts.
pub proof fn law_takeover_is_the_messages(
    cohort_takeover: Option<CohortTakeOverProto>,
    parsed: Result<Option<CohortTakeOver>, Status>,
)
    requires
        call_ensures(proto_mapping::parse_cohort_takeover_proto, (cohort_takeover,), parsed),
    ensures
        cohort_takeover is None ==> parsed is Ok && parsed->Ok_0 is None,
        cohort_takeover matches Some(proto) ==> {
            &&& parsed is Ok <==> holds_takeover(proto)
            &&& parsed matches Ok(taken) ==> {
                &&& taken matches Some(takeover)
                &&& takeover@.instance_id == proto.instance_id@
                &&& takeover@.finalization.len() == entries_in(proto).len()
                &&& forall|i: int|
                    0 <= i < entries_in(proto).len() ==> is_entry_of(
                        takeover@.finalization[i],
                        #[trigger] entries_in(proto)[i],
                    )
                &&& forall|id: u32| #[trigger]
                    takeover@.ledgers.contains_key(id) ==> exists|i: int|
                        {
                            &&& #[trigger] is_last_message_for(proto.ledgers@, id, i)
                            &&& service_laws::carries(
                                proto.ledgers@[i].tail,
                                takeover@.ledgers[id],
                            )
                        }
                &&& forall|i: int|
                    0 <= i < proto.ledgers@.len() ==> takeover@.ledgers.contains_key(
                        (#[trigger] proto.ledgers@[i]).ledger_id,
                    )
            }
        },
        parsed matches Err(status) ==> status.code == StatusCode::InvalidArgument,
{
    if let Some(proto) = cohort_takeover {
        let entries = entries_in(proto);
        lemma_entries(entries);
        lemma_ledgers(proto.ledgers@);
        if proto_mapping::finalization_entries_of(entries) is Ok {
            let taken = proto_mapping::finalization_entries_of(entries)->Ok_0;
            let keys = quorum::entry_keys(taken);
            assert forall|i: int, j: int| 0 <= i < j < entries.len() implies bytes::lex_less(
                keys[i],
                keys[j],
            ) == encoding_laws::precedes(
                decoded((#[trigger] entries[i]).endorser_key->Some_0)->Some_0,
                decoded((#[trigger] entries[j]).endorser_key->Some_0)->Some_0,
            ) by {
                encoding_laws::lemma_precedes(keys[i], keys[j]);
            }
            if cohort::valid_cohort(keys) {
                assert forall|i: int, j: int| 0 <= i < j < entries.len() implies
                    encoding_laws::precedes(
                    decoded((#[trigger] entries[i]).endorser_key->Some_0)->Some_0,
                    decoded((#[trigger] entries[j]).endorser_key->Some_0)->Some_0,
                ) by {
                    assert(bytes::lex_less(keys[i], keys[j]));
                }
            } else if entries.len() > 0 {
                let (i, j) = choose|i: int, j: int|
                    0 <= i < j < keys.len() && !bytes::lex_less(keys[i], keys[j]);
                assert(!encoding_laws::precedes(
                    decoded(entries[i].endorser_key->Some_0)->Some_0,
                    decoded(entries[j].endorser_key->Some_0)->Some_0,
                ));
            }
        }
        if parsed is Ok {
            let pairs = proto_mapping::ledgers_of(proto.ledgers@)->Ok_0;
            lemma_last_messages(proto.ledgers@, pairs);
        }
    }
}

/// Whether a message is the last one for a ledger.
pub open spec fn is_last_message_for(protos: Seq<LedgerProto>, ledger_id: u32, i: int) -> bool {
    &&& 0 <= i < protos.len()
    &&& protos[i].ledger_id == ledger_id
    &&& forall|j: int| i < j < protos.len() ==> (#[trigger] protos[j]).ledger_id != ledger_id
}

/// What is kept of messages for a ledger is the last one for it.
proof fn lemma_last_messages(protos: Seq<LedgerProto>, pairs: Seq<(u32, LedgerBlock)>)
    requires
        pairs.len() == protos.len(),
        forall|i: int|
            0 <= i < protos.len() ==> pairs[i].0 == (#[trigger] protos[i]).ledger_id
                && service_laws::carries(protos[i].tail, pairs[i].1),
    ensures
        forall|id: u32| #[trigger]
            ledger::from_pairs(pairs).contains_key(id) ==> exists|i: int|
                {
                    &&& #[trigger] is_last_message_for(protos, id, i)
                    &&& service_laws::carries(protos[i].tail, ledger::from_pairs(pairs)[id])
                },
        forall|i: int|
            0 <= i < protos.len() ==> ledger::from_pairs(pairs).contains_key(
                (#[trigger] protos[i]).ledger_id,
            ),
{
    let kept = ledger::from_pairs(pairs);
    assert forall|id: u32| #[trigger] kept.contains_key(id) implies exists|i: int|
        {
            &&& #[trigger] is_last_message_for(protos, id, i)
            &&& service_laws::carries(protos[i].tail, kept[id])
        } by {
        encoding_laws::lemma_from_pairs(pairs, id);
        let i = choose|i: int|
            #[trigger] encoding_laws::is_last_for(pairs, id, i) && kept[id] == pairs[i].1;
        assert(pairs[i].0 == protos[i].ledger_id);
        assert forall|j: int| i < j < protos.len() implies (#[trigger] protos[j]).ledger_id
            != id by {
            assert(pairs[j].0 == protos[j].ledger_id);
        }
        assert(is_last_message_for(protos, id, i));
    }
    assert forall|i: int| 0 <= i < protos.len() implies kept.contains_key(
        (#[trigger] protos[i]).ledger_id,
    ) by {
        encoding_laws::lemma_from_pairs(pairs, protos[i].ledger_id);
        assert(pairs[i].0 == protos[i].ledger_id);
    }
}

} // verus!
