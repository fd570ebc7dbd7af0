//! The endorser service: its limits, its failures in words, and handovers
//! through messages.

use logcabin::messages::{
    ActivateEndorserRequest, AppendEntryRequest, CohortConfigProto, CohortFinalizationProto,
    CohortTakeOverProto, CreateLedgerRequest, EndorserFinalizationProto, EndorserStateProto,
    FinalizeEndorserRequest, FinalizeEndorserResponse, GetEndorserRequest, LedgerBlockProto,
    LedgerProto, ListEndorsersRequest, ReadLatestRequest, VerifyingKeyProto,
    VerifyingKeyProtoOneOf,
};
use logcabin::proto_mapping::{
    parse_cohort_config, parse_cohort_takeover_proto, parse_endorser_finalization_proto,
    parse_ledger_proto, parse_verifying_key,
};
use logcabin::service::{
    EndorserService, MAX_COHORT_SIZE, MAX_ENDORSERS, MAX_FINALIZED_ENDORSERS, MAX_LEDGERS,
};
use logcabin::status::{Status, StatusCode};
use p256::ecdsa::SigningKey;

fn random_key_bytes() -> Vec<u8> {
    SigningKey::random(&mut rand_core::OsRng).verifying_key().to_sec1_bytes().to_vec()
}

fn key_proto(bytes: Vec<u8>) -> VerifyingKeyProto {
    VerifyingKeyProto { key: Some(VerifyingKeyProtoOneOf::Ecdsa(bytes)) }
}

fn config_proto(keys: &[Vec<u8>]) -> CohortConfigProto {
    CohortConfigProto { endorser_keys: keys.iter().map(|key| key_proto(key.clone())).collect() }
}

fn key_bytes(proto: Option<VerifyingKeyProto>) -> Vec<u8> {
    match proto.unwrap().key.unwrap() {
        VerifyingKeyProtoOneOf::Ecdsa(bytes) => bytes,
    }
}

/// Creates an endorser. Returns its alias and its key.
fn create(service: &mut EndorserService) -> (u64, Vec<u8>) {
    let endorser = service.prepare_endorser().unwrap();
    let proto = service.create_endorser(endorser, vec![0xC0, 0xDE]).unwrap();
    assert_eq!(proto.verifying_key_signature, [0xC0, 0xDE]);
    (proto.alias, key_bytes(proto.verifying_key))
}

/// Creates an endorser and activates it as the only one of a new instance.
fn create_active(service: &mut EndorserService) -> (u64, Vec<u8>) {
    let (alias, key) = create(service);
    service
        .activate_endorser(ActivateEndorserRequest {
            endorser_alias: alias,
            new_config: Some(config_proto(&[key.clone()])),
            prev_cohort_takeover: None,
        })
        .unwrap();
    (alias, key)
}

fn finalize(service: &mut EndorserService, alias: u64) -> FinalizeEndorserResponse {
    service
        .finalize_endorser(FinalizeEndorserRequest {
            endorser_alias: alias,
            next_cohort_config: Some(config_proto(&[random_key_bytes()])),
        })
        .unwrap()
}

fn listed(service: &EndorserService, include_finalized: bool) -> Vec<u64> {
    service
        .list_endorsers(ListEndorsersRequest { include_finalized })
        .unwrap()
        .endorsers
        .iter()
        .map(|endorser| endorser.alias)
        .collect()
}

fn append(alias: u64, ledger_id: u32, expected_index: u64) -> AppendEntryRequest {
    AppendEntryRequest {
        endorser_alias: alias,
        ledger_id,
        entry: vec![0xAB; 32],
        expected_index,
        nonce: 77,
    }
}

fn takeover_proto(
    instance_id: Vec<u8>,
    finalized: Vec<FinalizeEndorserResponse>,
    ledgers: Vec<LedgerProto>,
) -> CohortTakeOverProto {
    CohortTakeOverProto {
        instance_id,
        ledgers,
        cohort_finalization: Some(CohortFinalizationProto {
            endorser_finalizations: finalized
                .into_iter()
                .map(|response| EndorserFinalizationProto {
                    endorser_key: response.endorser_key,
                    receipt: Some(response.finalization_receipt),
                })
                .collect(),
        }),
    }
}

fn assert_failure(status: Status, code: StatusCode, message: &str) {
    assert_eq!(status.code, code);
    assert_eq!(status.message, message);
}

#[test]
fn status_codes_have_their_grpc_numbers() {
    let codes = [
        StatusCode::Success,
        StatusCode::Cancelled,
        StatusCode::Unknown,
        StatusCode::InvalidArgument,
        StatusCode::DeadlineExceeded,
        StatusCode::NotFound,
        StatusCode::AlreadyExists,
        StatusCode::PermissionDenied,
        StatusCode::ResourceExhausted,
        StatusCode::FailedPrecondition,
        StatusCode::Aborted,
        StatusCode::OutOfRange,
        StatusCode::Unimplemented,
        StatusCode::Internal,
        StatusCode::Unavailable,
        StatusCode::DataLoss,
        StatusCode::Unauthenticated,
    ];
    for (number, code) in codes.into_iter().enumerate() {
        assert_eq!(code.grpc_number(), number as i32);
    }
}

#[test]
fn a_full_service_refuses_new_endorsers() {
    let mut service = EndorserService::new();
    let mut spare = Vec::new();
    for _ in 0..2 {
        spare.push(service.prepare_endorser().unwrap());
    }
    for _ in 0..MAX_ENDORSERS {
        create(&mut service);
    }
    let before = listed(&service, true);
    let message = "Maximum number of endorsers (100) exceeded";
    match service.prepare_endorser() {
        Ok(_) => panic!("the service is full"),
        Err(status) => assert_failure(status, StatusCode::FailedPrecondition, message),
    }
    for endorser in spare {
        let status = service.create_endorser(endorser, vec![]).unwrap_err();
        assert_failure(status, StatusCode::FailedPrecondition, message);
    }
    assert_eq!(listed(&service, true), before);
}

#[test]
fn endorsers_in_all_states_count() {
    let mut service = EndorserService::new();
    let (alias, _) = create_active(&mut service);
    finalize(&mut service, alias);
    create_active(&mut service);
    for _ in 2..MAX_ENDORSERS {
        create(&mut service);
    }
    assert!(service.prepare_endorser().is_err());
}

#[test]
fn the_latest_finalized_endorsers_are_retained() {
    let mut service = EndorserService::new();
    let mut aliases = Vec::new();
    for _ in 0..MAX_FINALIZED_ENDORSERS + 2 {
        let (alias, _) = create_active(&mut service);
        finalize(&mut service, alias);
        aliases.push(alias);
    }
    assert_eq!(listed(&service, false), Vec::<u64>::new());
    assert_eq!(listed(&service, true), aliases[2..]);
    let status = service.get_endorser(GetEndorserRequest { endorser_alias: aliases[0] });
    assert_failure(
        status.unwrap_err(),
        StatusCode::NotFound,
        &format!("endorser with alias {} not found", aliases[0]),
    );
}

#[test]
fn a_lost_finalization_receipt_can_be_recovered() {
    let mut service = EndorserService::new();
    let (alias, key) = create_active(&mut service);
    let response = finalize(&mut service, alias);
    let endorser = service.get_endorser(GetEndorserRequest { endorser_alias: alias }).unwrap();
    assert_eq!(key_bytes(endorser.verifying_key), key);
    assert_eq!(endorser.verifying_key_signature, [0xC0, 0xDE]);
    match endorser.state {
        Some(EndorserStateProto::Finalized(state)) => {
            assert_eq!(state.finalization_receipt, response.finalization_receipt)
        }
        other => panic!("expected FinalizedState, got {other:?}"),
    }
}

#[test]
fn activation_moves_the_last_endorser_into_the_gap() {
    let mut service = EndorserService::new();
    let (first, key) = create(&mut service);
    let (second, _) = create(&mut service);
    let (third, _) = create(&mut service);
    service
        .activate_endorser(ActivateEndorserRequest {
            endorser_alias: first,
            new_config: Some(config_proto(&[key])),
            prev_cohort_takeover: None,
        })
        .unwrap();
    assert_eq!(listed(&service, false), [third, second, first]);
}

#[test]
fn requests_for_the_wrong_state_name_both_states() {
    let mut service = EndorserService::new();
    let (uninitialized, _) = create(&mut service);
    let (active, key) = create_active(&mut service);
    let (finalized, _) = create_active(&mut service);
    finalize(&mut service, finalized);

    let activate = |alias: u64| ActivateEndorserRequest {
        endorser_alias: alias,
        new_config: Some(config_proto(&[key.clone()])),
        prev_cohort_takeover: None,
    };
    assert_failure(
        service.activate_endorser(activate(active)).unwrap_err(),
        StatusCode::FailedPrecondition,
        &format!("endorser {active}: expected uninitialized state, but is active"),
    );
    assert_failure(
        service.activate_endorser(activate(finalized)).unwrap_err(),
        StatusCode::FailedPrecondition,
        &format!("endorser {finalized}: expected uninitialized state, but is finalized"),
    );
    assert_failure(
        service
            .read_latest(ReadLatestRequest { endorser_alias: uninitialized, ledger_id: 0, nonce: 1 })
            .unwrap_err(),
        StatusCode::FailedPrecondition,
        &format!("endorser {uninitialized}: expected active state, but is uninitialized"),
    );
    assert_failure(
        service
            .create_ledger(CreateLedgerRequest { endorser_alias: finalized, ledger_id: 9 })
            .unwrap_err(),
        StatusCode::FailedPrecondition,
        &format!("endorser {finalized}: expected active state, but is finalized"),
    );
    let request = FinalizeEndorserRequest {
        endorser_alias: finalized,
        next_cohort_config: Some(config_proto(&[random_key_bytes()])),
    };
    assert_failure(
        service.finalize_endorser(request).unwrap_err(),
        StatusCode::FailedPrecondition,
        &format!("endorser {finalized}: expected active state, but is finalized"),
    );
    let request = FinalizeEndorserRequest { endorser_alias: active, next_cohort_config: None };
    assert_failure(
        service.finalize_endorser(request).unwrap_err(),
        StatusCode::InvalidArgument,
        "missing next_cohort_config",
    );
}

#[test]
fn failures_of_ledger_requests_in_words() {
    let mut service = EndorserService::new();
    let (alias, _) = create_active(&mut service);
    assert_failure(
        service
            .create_ledger(CreateLedgerRequest { endorser_alias: alias, ledger_id: 0 })
            .unwrap_err(),
        StatusCode::FailedPrecondition,
        "ledger with id 0 already exists",
    );
    assert_failure(
        service.append_entry(append(alias, 3, 1)).unwrap_err(),
        StatusCode::NotFound,
        "ledger with id 3 not found",
    );
    assert_failure(
        service.append_entry(append(alias, 0, 2)).unwrap_err(),
        StatusCode::FailedPrecondition,
        "expected index 2 does not match next index 1",
    );
    let mut request = append(alias, 0, 1);
    request.entry.pop();
    assert_failure(
        service.append_entry(request).unwrap_err(),
        StatusCode::InvalidArgument,
        "entry must be exactly 32 bytes",
    );
    let mut request = append(alias, 0, 1);
    request.nonce = 0;
    assert_failure(
        service.append_entry(request).unwrap_err(),
        StatusCode::InvalidArgument,
        "nonce must not be zero",
    );
    assert_failure(
        service
            .read_latest(ReadLatestRequest { endorser_alias: alias, ledger_id: 0, nonce: 0 })
            .unwrap_err(),
        StatusCode::InvalidArgument,
        "nonce must not be zero",
    );
    for ledger_id in 1..MAX_LEDGERS as u32 {
        service.create_ledger(CreateLedgerRequest { endorser_alias: alias, ledger_id }).unwrap();
    }
    assert_failure(
        service
            .create_ledger(CreateLedgerRequest { endorser_alias: alias, ledger_id: 100 })
            .unwrap_err(),
        StatusCode::FailedPrecondition,
        "maximum number of ledgers (100) exceeded",
    );
    // None of the failures left a trace.
    let read = service
        .read_latest(ReadLatestRequest { endorser_alias: alias, ledger_id: 0, nonce: 1 })
        .unwrap();
    assert_eq!(read.block.unwrap().index, 0);
}

#[test]
fn failures_of_parsing_keys_in_words() {
    let invalid = StatusCode::InvalidArgument;
    assert_failure(parse_verifying_key(None, "this key").unwrap_err(), invalid, "this key is missing");
    assert_failure(
        parse_verifying_key(Some(VerifyingKeyProto { key: None }), "this key").unwrap_err(),
        invalid,
        "this key has no key set",
    );
    assert_failure(
        parse_verifying_key(Some(key_proto(vec![1, 2])), "this key").unwrap_err(),
        invalid,
        "this key: invalid SEC1 key: signature error",
    );
    let config_failure = |config: Option<CohortConfigProto>| match parse_cohort_config(config, "field") {
        Ok(_) => panic!("the config is not valid"),
        Err(status) => status,
    };
    assert_failure(config_failure(None), invalid, "missing field");
    assert_failure(config_failure(Some(config_proto(&[]))), invalid, "field must not be empty");
    let key = random_key_bytes();
    let too_many: Vec<Vec<u8>> = (0..=MAX_COHORT_SIZE).map(|_| key.clone()).collect();
    assert_failure(
        config_failure(Some(config_proto(&too_many))),
        invalid,
        "field has too many keys (201, max 200)",
    );
    assert_failure(
        config_failure(Some(config_proto(&[key.clone(), vec![]]))),
        invalid,
        "field key at index 1: invalid SEC1 key: signature error",
    );
    assert_failure(
        config_failure(Some(config_proto(&[key.clone(), key.clone()]))),
        invalid,
        "field keys are not in strict ascending SEC1-lexicographic order",
    );
    let config = match parse_cohort_config(Some(config_proto(&[key.clone()])), "field") {
        Ok(config) => config,
        Err(_) => panic!("the config is valid"),
    };
    assert_eq!(config.keys()[0].as_bytes(), key);
}

#[test]
fn failures_of_parsing_a_takeover_in_words() {
    let invalid = StatusCode::InvalidArgument;
    let block = |entry: usize, tail: usize| {
        Some(LedgerBlockProto { entry: vec![1; entry], index: 5, hash_chain_tail: vec![2; tail] })
    };
    let ledger = |tail: Option<LedgerBlockProto>| LedgerProto { ledger_id: 8, tail };
    assert_failure(
        parse_ledger_proto(ledger(None)).unwrap_err(),
        invalid,
        "ledger 8 has no tail block",
    );
    assert_failure(
        parse_ledger_proto(ledger(block(31, 32))).unwrap_err(),
        invalid,
        "ledger 8 entry must be exactly 32 bytes",
    );
    assert_failure(
        parse_ledger_proto(ledger(block(32, 33))).unwrap_err(),
        invalid,
        "ledger 8 hash_chain_tail must be exactly 32 bytes",
    );
    let (ledger_id, parsed) = parse_ledger_proto(ledger(block(32, 32))).unwrap();
    assert_eq!(ledger_id, 8);
    assert_eq!((parsed.entry, parsed.index, parsed.hash_chain_tail), ([1; 32], 5, [2; 32]));

    let entry = |key: Option<VerifyingKeyProto>, receipt: Option<Vec<u8>>| {
        EndorserFinalizationProto { endorser_key: key, receipt }
    };
    let entry_failure = |proto: EndorserFinalizationProto| {
        match parse_endorser_finalization_proto(4, proto) {
            Ok(_) => panic!("the entry is not valid"),
            Err(status) => status,
        }
    };
    assert_failure(
        entry_failure(entry(None, None)),
        invalid,
        "endorser finalization at index 4 is missing",
    );
    assert_failure(
        entry_failure(entry(Some(key_proto(random_key_bytes())), Some(vec![0; 64]))),
        invalid,
        "endorser finalization at index 4: invalid receipt signature: signature error",
    );

    let takeover_failure = |proto: CohortTakeOverProto| {
        match parse_cohort_takeover_proto(Some(proto)) {
            Ok(_) => panic!("the takeover is not valid"),
            Err(status) => status,
        }
    };
    let takeover = |id: usize, ledgers: usize, keys: Vec<Vec<u8>>| CohortTakeOverProto {
        instance_id: vec![3; id],
        ledgers: (0..ledgers).map(|_| ledger(block(32, 32))).collect(),
        cohort_finalization: Some(CohortFinalizationProto {
            endorser_finalizations: keys
                .into_iter()
                .map(|key| entry(Some(key_proto(key)), None))
                .collect(),
        }),
    };
    assert_failure(
        takeover_failure(takeover(31, 0, vec![random_key_bytes()])),
        invalid,
        "instance_id must be exactly 32 bytes",
    );
    assert_failure(
        takeover_failure(takeover(32, MAX_LEDGERS + 1, vec![random_key_bytes()])),
        invalid,
        "too many ledgers in cohort takeover (101, max 100)",
    );
    assert_failure(
        takeover_failure(takeover(32, 1, vec![])),
        invalid,
        "endorser finalization keys are not in strict ascending SEC1-lexicographic order",
    );
    assert!(matches!(parse_cohort_takeover_proto(None), Ok(None)));

    // Of two blocks of one ledger the later one counts.
    let proto = CohortTakeOverProto {
        ledgers: vec![ledger(block(32, 32)), LedgerProto {
            ledger_id: 8,
            tail: Some(LedgerBlockProto {
                entry: vec![9; 32],
                index: 1,
                hash_chain_tail: vec![9; 32],
            }),
        }],
        ..takeover(32, 0, vec![random_key_bytes()])
    };
    let parsed = match parse_cohort_takeover_proto(Some(proto)) {
        Ok(Some(takeover)) => takeover,
        _ => panic!("the takeover is valid"),
    };
    let (instance_id, _, ledgers) = parsed.into_parts();
    assert_eq!(instance_id, [3; 32]);
    assert_eq!(ledgers.len(), 1);
    assert_eq!(ledgers.get(&8).unwrap().entry, [9; 32]);
}

#[test]
fn ledgers_survive_a_handover_through_messages() {
    let mut service = EndorserService::new();
    let (alias, _) = create_active(&mut service);
    for ledger_id in [70, 3] {
        service.create_ledger(CreateLedgerRequest { endorser_alias: alias, ledger_id }).unwrap();
    }
    service.append_entry(append(alias, 70, 1)).unwrap();
    service.append_entry(append(alias, 70, 2)).unwrap();
    let read = |service: &EndorserService, alias: u64, ledger_id: u32| {
        service
            .read_latest(ReadLatestRequest { endorser_alias: alias, ledger_id, nonce: 5 })
            .unwrap()
            .block
            .unwrap()
    };
    let before = [read(&service, alias, 0), read(&service, alias, 3), read(&service, alias, 70)];
    let state = service.get_endorser(GetEndorserRequest { endorser_alias: alias }).unwrap().state;
    let instance_id = match state {
        Some(EndorserStateProto::Active(state)) => state.instance_id,
        other => panic!("expected ActiveState, got {other:?}"),
    };

    let (successor, key) = create(&mut service);
    let mut response = service
        .finalize_endorser(FinalizeEndorserRequest {
            endorser_alias: alias,
            next_cohort_config: Some(config_proto(&[key.clone()])),
        })
        .unwrap();
    let ids: Vec<u32> = response.ledgers.iter().map(|ledger| ledger.ledger_id).collect();
    assert_eq!(ids, [0, 3, 70]);
    let ledgers = core::mem::take(&mut response.ledgers);
    service
        .activate_endorser(ActivateEndorserRequest {
            endorser_alias: successor,
            new_config: Some(config_proto(&[key])),
            prev_cohort_takeover: Some(takeover_proto(instance_id, vec![response], ledgers)),
        })
        .unwrap();
    let after =
        [read(&service, successor, 0), read(&service, successor, 3), read(&service, successor, 70)];
    assert_eq!(after, before);
    assert_eq!(after[2].index, 2);
}

#[test]
fn a_takeover_without_a_quorum_is_refused_in_words() {
    let mut service = EndorserService::new();
    let (alias, _) = create_active(&mut service);
    let (successor, key) = create(&mut service);
    let mut response = finalize(&mut service, alias);
    let ledgers = core::mem::take(&mut response.ledgers);
    // The cohort was finalized in favour of another one.
    let status = service
        .activate_endorser(ActivateEndorserRequest {
            endorser_alias: successor,
            new_config: Some(config_proto(&[key])),
            prev_cohort_takeover: Some(takeover_proto(vec![1; 32], vec![response], ledgers)),
        })
        .unwrap_err();
    assert_failure(
        status,
        StatusCode::InvalidArgument,
        &format!("endorser with alias {successor}: finalization receipts do not form a quorum"),
    );
    let status = service
        .activate_endorser(ActivateEndorserRequest {
            endorser_alias: successor,
            new_config: Some(config_proto(&[random_key_bytes()])),
            prev_cohort_takeover: None,
        })
        .unwrap_err();
    assert_failure(
        status,
        StatusCode::InvalidArgument,
        &format!("endorser with alias {successor}'s verifying key is not in the cohort config"),
    );
    assert_eq!(listed(&service, false), [successor]);
}

#[test]
fn nothing_is_appended_to_a_full_ledger() {
    let mut service = EndorserService::new();
    let (alias, _) = create_active(&mut service);
    let (successor, key) = create(&mut service);
    let state = service.get_endorser(GetEndorserRequest { endorser_alias: alias }).unwrap().state;
    assert!(matches!(state, Some(EndorserStateProto::Active(_))));

    // A cohort of one, whose key is at hand, ends with a full ledger.
    let outgoing = SigningKey::random(&mut rand_core::OsRng);
    let outgoing_key = outgoing.verifying_key().to_sec1_bytes().to_vec();
    let full = LedgerBlockProto {
        entry: vec![1; 32],
        index: u64::MAX,
        hash_chain_tail: vec![2; 32],
    };
    let ledgers = logcabin::ledger::Ledgers::from_entries(&[(
        6,
        logcabin::ledger::LedgerBlock {
            entry: [1; 32],
            index: u64::MAX,
            hash_chain_tail: [2; 32],
        },
    )]);
    let decode = |bytes: &[u8]| logcabin::keys::VerifyingKey::from_sec1_bytes(bytes).unwrap();
    let message = logcabin::receipts::build_finalize_message(
        &[4; 32],
        &logcabin::cohort::compute_config_id(&[decode(&outgoing_key)]),
        &logcabin::cohort::compute_config_id(&[decode(&key)]),
        &ledgers.hash(),
    );
    let receipt: p256::ecdsa::Signature =
        p256::ecdsa::signature::Signer::sign(&outgoing, &message);
    let response = FinalizeEndorserResponse {
        endorser_key: Some(key_proto(outgoing_key)),
        ledgers: vec![],
        finalization_receipt: receipt.to_bytes().to_vec(),
    };
    let ledgers = vec![LedgerProto { ledger_id: 6, tail: Some(full) }];
    service
        .activate_endorser(ActivateEndorserRequest {
            endorser_alias: successor,
            new_config: Some(config_proto(&[key])),
            prev_cohort_takeover: Some(takeover_proto(vec![4; 32], vec![response], ledgers)),
        })
        .unwrap();

    let request = append(successor, 6, 0);
    assert!(service.is_append_to_full(&request));
    assert!(service.try_append_entry(request).is_none());
    let read = service
        .read_latest(ReadLatestRequest { endorser_alias: successor, ledger_id: 6, nonce: 5 })
        .unwrap();
    assert_eq!(read.block.unwrap().index, u64::MAX);

    // A malformed request is refused as on any other ledger.
    let mut request = append(successor, 6, 0);
    request.nonce = 0;
    assert!(!service.is_append_to_full(&request));
    assert_failure(
        service.append_entry(request).unwrap_err(),
        StatusCode::InvalidArgument,
        "nonce must not be zero",
    );
    assert!(service.try_append_entry(append(alias, 0, 1)).unwrap().is_ok());
}
