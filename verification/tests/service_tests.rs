//! The endorser service.

use logcabin::messages::{
    ActivateEndorserRequest, AppendEntryRequest, CohortConfigProto, CohortFinalizationProto,
    CohortTakeOverProto, CreateLedgerRequest, EndorserFinalizationProto, EndorserProto,
    EndorserStateProto, FinalizeEndorserRequest, GetEndorserRequest, LedgerBlockProto, LedgerProto,
    ListEndorsersRequest, ReadLatestRequest, VerifyingKeyProto, VerifyingKeyProtoOneOf,
};
use logcabin::service::{EndorserService, MAX_ENDORSERS, MAX_LEDGERS};
use logcabin::status::{Status, StatusCode};
use p256::ecdsa::signature::{Signer, Verifier};
use p256::ecdsa::{Signature, SigningKey};

fn random_key_bytes() -> Vec<u8> {
    SigningKey::random(&mut rand_core::OsRng).verifying_key().to_sec1_bytes().to_vec()
}

/// Creates an endorser whose key `signer` vouches for.
fn create_endorser(
    service: &mut EndorserService,
    signer: &SigningKey,
) -> Result<EndorserProto, Status> {
    let endorser = service.prepare_endorser()?;
    let signature: Signature = signer.sign(&endorser.verifying_key().to_sec1_bytes());
    service.create_endorser(endorser, signature.to_bytes().to_vec())
}

/// Creates a service with one endorser that is already activated.
/// Returns `(service, endorser_alias)`.
fn create_active_service() -> (EndorserService, u64) {
    let signer = SigningKey::random(&mut rand_core::OsRng);
    let mut service = EndorserService::new();
    let endorser = create_endorser(&mut service, &signer).unwrap();
    let vk_bytes = listed_key_bytes(&service, endorser.alias);
    service
        .activate_endorser(ActivateEndorserRequest {
            endorser_alias: endorser.alias,
            new_config: Some(cohort_config_from_bytes(vec![vk_bytes])),
            prev_cohort_takeover: None,
        })
        .unwrap();

    (service, endorser.alias)
}

/// Creates a service with 3 uninitialized endorsers and returns their
/// aliases.
fn create_service_with_3_uninitialized() -> (EndorserService, Vec<u64>) {
    let signer = SigningKey::random(&mut rand_core::OsRng);
    let mut service = EndorserService::new();
    let mut aliases = Vec::new();
    for _ in 0..3 {
        let res = create_endorser(&mut service, &signer).unwrap();
        aliases.push(res.alias);
    }
    (service, aliases)
}

/// Builds a cohort config from raw SEC1 key bytes.
fn cohort_config_from_bytes(keys: Vec<Vec<u8>>) -> CohortConfigProto {
    CohortConfigProto {
        endorser_keys: keys
            .into_iter()
            .map(|k| VerifyingKeyProto { key: Some(VerifyingKeyProtoOneOf::Ecdsa(k)) })
            .collect(),
    }
}

/// The SEC1 bytes of the key that the service lists under `alias`.
fn listed_key_bytes(service: &EndorserService, alias: u64) -> Vec<u8> {
    let listed = service.list_endorsers(ListEndorsersRequest { include_finalized: true }).unwrap();
    for endorser in listed.endorsers {
        if endorser.alias == alias {
            let Some(VerifyingKeyProtoOneOf::Ecdsa(bytes)) = endorser.verifying_key.unwrap().key
            else {
                panic!("expected ECDSA verifying key");
            };
            return bytes;
        }
    }
    panic!("no endorser is listed under the alias");
}

/// Asserts that the service lists exactly these endorsers, all of them
/// uninitialized.
fn assert_uninitialized_aliases(service: &EndorserService, expected: &[u64]) {
    let listed = service.list_endorsers(ListEndorsersRequest { include_finalized: true }).unwrap();
    let aliases: Vec<u64> = listed.endorsers.iter().map(|endorser| endorser.alias).collect();
    assert_eq!(aliases, expected);
    for alias in aliases {
        let endorser = service.get_endorser(GetEndorserRequest { endorser_alias: alias }).unwrap();
        assert!(matches!(endorser.state, Some(EndorserStateProto::Uninitialized(_))));
    }
}

#[test]
fn create_endorser_enforces_max_endorser_limit() {
    let signer = SigningKey::random(&mut rand_core::OsRng);
    let mut service = EndorserService::new();

    for _ in 0..MAX_ENDORSERS {
        create_endorser(&mut service, &signer).unwrap();
    }

    let status = create_endorser(&mut service, &signer);
    assert!(status.is_err());
    assert_eq!(status.unwrap_err().code, StatusCode::FailedPrecondition);
}

#[test]
fn create_endorser_public_key_bound_to_service_key() {
    let signer = SigningKey::random(&mut rand_core::OsRng);
    let verifying_key = *signer.verifying_key();
    let mut service = EndorserService::new();
    let endorser: EndorserProto = create_endorser(&mut service, &signer).unwrap();

    let Some(VerifyingKeyProtoOneOf::Ecdsa(vk_bytes)) = endorser.verifying_key.unwrap().key
    else {
        panic!("expected ECDSA verifying key");
    };

    let vk_signature = Signature::from_slice(&endorser.verifying_key_signature)
        .expect("CreateEndorser did not return a valid public key signature");

    // Verify that vk_signature, made using service.signer, binds vk_bytes.
    verifying_key
        .verify(&vk_bytes, &vk_signature)
        .expect("CreateEndorser returned a signature which does not verify the public key");
}

#[test]
fn list_endorsers_returns_uninitialized_and_active_without_state() {
    let (mut service, active_alias) = create_active_service();

    // Create a second (uninitialized) endorser.
    let signer = SigningKey::random(&mut rand_core::OsRng);
    let uninit = create_endorser(&mut service, &signer).unwrap();

    let resp = service
        .list_endorsers(ListEndorsersRequest {
            include_finalized: false,
        })
        .unwrap();

    // Should have 2 endorsers (1 active + 1 uninitialized); order is
    // uninitialized first, then active.
    assert_eq!(resp.endorsers.len(), 2);
    assert_eq!(resp.endorsers[0].alias, uninit.alias);
    assert_eq!(resp.endorsers[1].alias, active_alias);

    // State must not be populated (per proto contract).
    for e in &resp.endorsers {
        assert!(e.state.is_none(), "ListEndorsers must not populate state");
        assert!(e.verifying_key.is_some());
        assert!(!e.verifying_key_signature.is_empty());
    }
}

#[test]
fn list_endorsers_includes_finalized_when_requested() {
    let (mut service, alias) = create_active_service();

    // Finalize the active endorser.
    let next_key = random_key_bytes();
    service
        .finalize_endorser(FinalizeEndorserRequest {
            endorser_alias: alias,
            next_cohort_config: Some(cohort_config_from_bytes(vec![next_key])),
        })
        .unwrap();

    // Without include_finalized: should be empty (no active/uninit left).
    let resp = service
        .list_endorsers(ListEndorsersRequest {
            include_finalized: false,
        })
        .unwrap();
    assert_eq!(resp.endorsers.len(), 0);

    // With include_finalized: should include the finalized endorser.
    let resp = service
        .list_endorsers(ListEndorsersRequest {
            include_finalized: true,
        })
        .unwrap();
    assert_eq!(resp.endorsers.len(), 1);
    assert_eq!(resp.endorsers[0].alias, alias);
    assert!(
        resp.endorsers[0].state.is_none(),
        "ListEndorsers must not populate state even for finalized"
    );
}

#[test]
fn get_endorser_uninitialized_populates_state_metadata() {
    let signer = SigningKey::random(&mut rand_core::OsRng);
    let mut service = EndorserService::new();
    let created = create_endorser(&mut service, &signer).unwrap();

    let endorser = service
        .get_endorser(GetEndorserRequest {
            endorser_alias: created.alias,
        })
        .unwrap();

    assert_eq!(endorser.alias, created.alias);
    assert!(endorser.verifying_key.is_some());
    assert!(!endorser.verifying_key_signature.is_empty());
    assert!(
        matches!(endorser.state, Some(EndorserStateProto::Uninitialized(_))),
        "expected UninitializedState, got {:?}",
        endorser.state
    );
}

#[test]
fn get_endorser_active_populates_state_metadata() {
    let (mut service, alias) = create_active_service();

    let endorser = service
        .get_endorser(GetEndorserRequest {
            endorser_alias: alias,
        })
        .unwrap();

    assert_eq!(endorser.alias, alias);
    let Some(EndorserStateProto::Active(active_state)) = endorser.state else {
        panic!("expected ActiveState, got {:?}", endorser.state);
    };
    assert_eq!(active_state.instance_id.len(), 32);
    assert_eq!(active_state.activation_receipt.len(), 64);
}

#[test]
fn get_endorser_finalized_populates_state_metadata() {
    let (mut service, alias) = create_active_service();

    // Finalize the active endorser.
    let next_key = random_key_bytes();
    service
        .finalize_endorser(FinalizeEndorserRequest {
            endorser_alias: alias,
            next_cohort_config: Some(cohort_config_from_bytes(vec![next_key])),
        })
        .unwrap();

    let endorser = service
        .get_endorser(GetEndorserRequest {
            endorser_alias: alias,
        })
        .unwrap();

    assert_eq!(endorser.alias, alias);
    let Some(EndorserStateProto::Finalized(finalized_state)) = endorser.state else {
        panic!("expected FinalizedState, got {:?}", endorser.state);
    };
    assert_eq!(finalized_state.instance_id.len(), 32);
    assert_eq!(finalized_state.activation_receipt.len(), 64);
    assert_eq!(finalized_state.finalization_receipt.len(), 64);
}

#[test]
fn get_endorser_not_found() {
    let signer = SigningKey::random(&mut rand_core::OsRng);
    let mut service = EndorserService::new();

    let err = service
        .get_endorser(GetEndorserRequest {
            endorser_alias: 0xDEADBEEF,
        })
        .unwrap_err();
    assert_eq!(err.code, StatusCode::NotFound);
}

#[test]
fn activate_new_instance_failure_preserves_uninitialized() {
    let signer = SigningKey::random(&mut rand_core::OsRng);
    let mut service = EndorserService::new();

    // 1. Create 3 endorsers.
    let mut aliases = Vec::new();
    for _ in 0..3 {
        let res = create_endorser(&mut service, &signer).unwrap();
        aliases.push(res.alias);
    }

    // Check the uninitialized list directly to ensure they are in order.
    assert_uninitialized_aliases(&service, &aliases);

    // 2. Try to activate the one in the middle (index 1) with a config
    // that does not contain its verifying key (uses a random unrelated key).
    let unrelated_key = random_key_bytes();
    let bad_cohort_config = CohortConfigProto {
        endorser_keys: vec![VerifyingKeyProto {
            key: Some(VerifyingKeyProtoOneOf::Ecdsa(unrelated_key)),
        }],
    };
    let req = ActivateEndorserRequest {
        endorser_alias: aliases[1],
        new_config: Some(bad_cohort_config),
        prev_cohort_takeover: None,
    };

    // Assert that activation fails because the endorser's key is not in the config.
    let status = service.activate_endorser(req).unwrap_err();
    assert_eq!(status.code, StatusCode::InvalidArgument);

    // 3. Verify that the order is preserved.
    assert_uninitialized_aliases(&service, &aliases);
}

#[test]
fn activate_from_prev_bad_instance_id_preserves_uninitialized() {
    let (mut service, aliases) = create_service_with_3_uninitialized();
    let target = aliases[1];

    let valid_key = random_key_bytes();

    let req = ActivateEndorserRequest {
        endorser_alias: target,
        new_config: Some(cohort_config_from_bytes(vec![valid_key.clone()])),
        prev_cohort_takeover: Some(CohortTakeOverProto {
            instance_id: vec![0xAB; 16], // wrong length (not 32)
            ledgers: vec![],
            cohort_finalization: Some(CohortFinalizationProto {
                endorser_finalizations: vec![EndorserFinalizationProto {
                    endorser_key: Some(VerifyingKeyProto {
                        key: Some(VerifyingKeyProtoOneOf::Ecdsa(valid_key)),
                    }),
                    receipt: None,
                }],
            }),
        }),
    };

    let err = service.activate_endorser(req).unwrap_err();
    assert_eq!(err.code, StatusCode::InvalidArgument);
    assert_uninitialized_aliases(&service, &aliases);
}

#[test]
fn activate_from_prev_bad_endorser_key_preserves_uninitialized() {
    let (mut service, aliases) = create_service_with_3_uninitialized();
    let target = aliases[1];

    let valid_key = random_key_bytes();

    let req = ActivateEndorserRequest {
        endorser_alias: target,
        new_config: Some(cohort_config_from_bytes(vec![valid_key])),
        prev_cohort_takeover: Some(CohortTakeOverProto {
            instance_id: vec![0xAB; 32],
            ledgers: vec![],
            cohort_finalization: Some(CohortFinalizationProto {
                endorser_finalizations: vec![EndorserFinalizationProto {
                    endorser_key: Some(VerifyingKeyProto {
                        // Malformed SEC1 key (wrong length).
                        key: Some(VerifyingKeyProtoOneOf::Ecdsa(vec![0xFF; 10])),
                    }),
                    receipt: None,
                }],
            }),
        }),
    };

    let err = service.activate_endorser(req).unwrap_err();
    assert_eq!(err.code, StatusCode::InvalidArgument);
    assert_uninitialized_aliases(&service, &aliases);
}

#[test]
fn activate_from_prev_bad_ledger_entry_preserves_uninitialized() {
    let (mut service, aliases) = create_service_with_3_uninitialized();
    let target = aliases[1];

    let valid_key = random_key_bytes();

    let req = ActivateEndorserRequest {
        endorser_alias: target,
        new_config: Some(cohort_config_from_bytes(vec![valid_key.clone()])),
        prev_cohort_takeover: Some(CohortTakeOverProto {
            instance_id: vec![0xAB; 32],
            ledgers: vec![LedgerProto {
                ledger_id: 0,
                tail: Some(LedgerBlockProto {
                    entry: vec![0xAB; 16], // wrong length (not 32)
                    index: 0,
                    hash_chain_tail: vec![0u8; 32],
                }),
            }],
            cohort_finalization: Some(CohortFinalizationProto {
                endorser_finalizations: vec![EndorserFinalizationProto {
                    endorser_key: Some(VerifyingKeyProto {
                        key: Some(VerifyingKeyProtoOneOf::Ecdsa(valid_key)),
                    }),
                    receipt: None,
                }],
            }),
        }),
    };

    let err = service.activate_endorser(req).unwrap_err();
    assert_eq!(err.code, StatusCode::InvalidArgument);
    assert_uninitialized_aliases(&service, &aliases);
}

#[test]
fn activate_endorser_not_found() {
    let signer = SigningKey::random(&mut rand_core::OsRng);
    let mut service = EndorserService::new();

    let valid_key = random_key_bytes();

    let req = ActivateEndorserRequest {
        endorser_alias: 12345, // random unknown alias
        new_config: Some(cohort_config_from_bytes(vec![valid_key])),
        prev_cohort_takeover: None,
    };

    let err = service.activate_endorser(req).unwrap_err();
    assert_eq!(err.code, StatusCode::NotFound);
}

#[test]
fn activate_endorser_already_activated() {
    let (mut service, alias) = create_active_service();

    // Get the active endorser's key.
    let vk_bytes = listed_key_bytes(&service, alias);

    let req = ActivateEndorserRequest {
        endorser_alias: alias,
        new_config: Some(CohortConfigProto {
            endorser_keys: vec![VerifyingKeyProto {
                key: Some(VerifyingKeyProtoOneOf::Ecdsa(vk_bytes)),
            }],
        }),
        prev_cohort_takeover: None,
    };

    let err = service.activate_endorser(req).unwrap_err();
    assert_eq!(err.code, StatusCode::FailedPrecondition);
}

#[test]
fn activate_endorser_missing_new_config() {
    let (mut service, aliases) = create_service_with_3_uninitialized();
    let target = aliases[1];

    let req = ActivateEndorserRequest {
        endorser_alias: target,
        new_config: None,
        prev_cohort_takeover: None,
    };

    let err = service.activate_endorser(req).unwrap_err();
    assert_eq!(err.code, StatusCode::InvalidArgument);
    assert!(err.message.contains("missing new_config"));
    assert_uninitialized_aliases(&service, &aliases);
}

#[test]
fn activate_endorser_empty_new_config() {
    let (mut service, aliases) = create_service_with_3_uninitialized();
    let target = aliases[1];

    let req = ActivateEndorserRequest {
        endorser_alias: target,
        new_config: Some(CohortConfigProto {
            endorser_keys: vec![],
        }),
        prev_cohort_takeover: None,
    };

    let err = service.activate_endorser(req).unwrap_err();
    assert_eq!(err.code, StatusCode::InvalidArgument);
    assert!(err.message.contains("new_config must not be empty"));
    assert_uninitialized_aliases(&service, &aliases);
}

#[test]
fn activate_endorser_invalid_config_order() {
    let (mut service, aliases) = create_service_with_3_uninitialized();
    let target = aliases[1];

    let k1 = random_key_bytes();
    let k2 = random_key_bytes();

    // Sort descending (which is incorrect for strict ascending order).
    let mut sorted = vec![k1, k2];
    sorted.sort();
    sorted.reverse();

    let req = ActivateEndorserRequest {
        endorser_alias: target,
        new_config: Some(cohort_config_from_bytes(sorted)),
        prev_cohort_takeover: None,
    };

    let err = service.activate_endorser(req).unwrap_err();
    assert_eq!(err.code, StatusCode::InvalidArgument);
    assert!(err
        .message
        .contains("keys are not in strict ascending SEC1-lexicographic order"));
    assert_uninitialized_aliases(&service, &aliases);
}

#[test]
fn activate_from_prev_too_many_ledgers() {
    let (mut service, aliases) = create_service_with_3_uninitialized();
    let target = aliases[1];

    let vk_bytes = listed_key_bytes(&service, target);

    // Generate MAX_LEDGERS + 1 ledger entries.
    let mut ledgers = vec![];
    for i in 0..=(MAX_LEDGERS as u32) {
        ledgers.push(LedgerProto {
            ledger_id: i,
            tail: Some(LedgerBlockProto {
                entry: vec![0xAA; 32],
                index: 0,
                hash_chain_tail: vec![0u8; 32],
            }),
        });
    }

    let req = ActivateEndorserRequest {
        endorser_alias: target,
        new_config: Some(cohort_config_from_bytes(vec![vk_bytes.clone()])),
        prev_cohort_takeover: Some(CohortTakeOverProto {
            instance_id: vec![0xAB; 32],
            ledgers,
            cohort_finalization: Some(CohortFinalizationProto {
                endorser_finalizations: vec![EndorserFinalizationProto {
                    endorser_key: Some(VerifyingKeyProto {
                        key: Some(VerifyingKeyProtoOneOf::Ecdsa(vk_bytes)),
                    }),
                    receipt: None,
                }],
            }),
        }),
    };

    let err = service.activate_endorser(req).unwrap_err();
    assert_eq!(err.code, StatusCode::InvalidArgument);
    assert!(err.message.contains("too many ledgers in cohort takeover"));
    assert_uninitialized_aliases(&service, &aliases);
}

#[test]
fn create_ledger_fails_when_max_ledgers_exceeded() {
    let (mut service, alias) = create_active_service();

    // activate already created ledger 0, so we can create
    // MAX_LEDGERS - 1 more before hitting the cap.
    for i in 1..MAX_LEDGERS {
        service
            .create_ledger(CreateLedgerRequest {
                endorser_alias: alias,
                ledger_id: i as u32,
            })
            .unwrap();
    }

    let err = service
        .create_ledger(CreateLedgerRequest {
            endorser_alias: alias,
            ledger_id: MAX_LEDGERS as u32,
        })
        .unwrap_err();
    assert_eq!(err.code, StatusCode::FailedPrecondition);
}

#[test]
fn append_entry_happy_path() {
    let (mut service, alias) = create_active_service();
    service
        .create_ledger(CreateLedgerRequest {
            endorser_alias: alias,
            ledger_id: 1,
        })
        .unwrap();

    let resp = service
        .append_entry(AppendEntryRequest {
            endorser_alias: alias,
            ledger_id: 1,
            entry: vec![0xAB; 32],
            expected_index: 1,
            nonce: 0xDEAD_BEEF_CAFE_BABE,
        })
        .unwrap();

    // Receipts should be valid ECDSA P-256 RAW (R || S) signatures.
    assert_eq!(resp.entry_receipt.len(), 64);
    Signature::from_slice(&resp.entry_receipt)
        .expect("entry_receipt must be a valid ECDSA P-256 signature");
    assert_eq!(resp.tip_receipt.len(), 64);
    Signature::from_slice(&resp.tip_receipt)
        .expect("tip_receipt must be a valid ECDSA P-256 signature");

    let block = resp.block.expect("block must be present");
    assert_eq!(block.index, 1);
    assert_eq!(block.entry, vec![0xAB; 32]);
}

#[test]
fn append_entry_endorser_not_activated() {
    let signer = SigningKey::random(&mut rand_core::OsRng);
    let mut service = EndorserService::new();
    let endorser = create_endorser(&mut service, &signer).unwrap();

    let err = service
        .append_entry(AppendEntryRequest {
            endorser_alias: endorser.alias,
            ledger_id: 0,
            entry: vec![0xAB; 32],
            expected_index: 1,
            nonce: 0xDEAD_BEEF_CAFE_BABE,
        })
        .unwrap_err();
    assert_eq!(err.code, StatusCode::FailedPrecondition);
}

#[test]
fn append_entry_endorser_not_found() {
    let signer = SigningKey::random(&mut rand_core::OsRng);
    let mut service = EndorserService::new();

    let err = service
        .append_entry(AppendEntryRequest {
            endorser_alias: 0xDEAD,
            ledger_id: 0,
            entry: vec![0xAB; 32],
            expected_index: 1,
            nonce: 0xDEAD_BEEF_CAFE_BABE,
        })
        .unwrap_err();
    assert_eq!(err.code, StatusCode::NotFound);
}

#[test]
fn append_entry_invalid_entry_size() {
    let (mut service, alias) = create_active_service();
    service
        .create_ledger(CreateLedgerRequest {
            endorser_alias: alias,
            ledger_id: 1,
        })
        .unwrap();

    // Entry too short (16 bytes).
    let err = service
        .append_entry(AppendEntryRequest {
            endorser_alias: alias,
            ledger_id: 1,
            entry: vec![0xAB; 16],
            expected_index: 1,
            nonce: 0xDEAD_BEEF_CAFE_BABE,
        })
        .unwrap_err();
    assert_eq!(err.code, StatusCode::InvalidArgument);

    // Entry too long (64 bytes).
    let err = service
        .append_entry(AppendEntryRequest {
            endorser_alias: alias,
            ledger_id: 1,
            entry: vec![0xAB; 64],
            expected_index: 1,
            nonce: 0xDEAD_BEEF_CAFE_BABE,
        })
        .unwrap_err();
    assert_eq!(err.code, StatusCode::InvalidArgument);
}

#[test]
fn append_entry_rejects_zero_nonce() {
    let (mut service, alias) = create_active_service();
    service
        .create_ledger(CreateLedgerRequest {
            endorser_alias: alias,
            ledger_id: 1,
        })
        .unwrap();

    let err = service
        .append_entry(AppendEntryRequest {
            endorser_alias: alias,
            ledger_id: 1,
            entry: vec![0xAB; 32],
            expected_index: 1,
            nonce: 0,
        })
        .unwrap_err();
    assert_eq!(err.code, StatusCode::InvalidArgument);
}

#[test]
fn append_entry_wrong_index() {
    let (mut service, alias) = create_active_service();
    service
        .create_ledger(CreateLedgerRequest {
            endorser_alias: alias,
            ledger_id: 1,
        })
        .unwrap();

    let err = service
        .append_entry(AppendEntryRequest {
            endorser_alias: alias,
            ledger_id: 1,
            entry: vec![0xAB; 32],
            expected_index: 99, // should be 1
            nonce: 0xDEAD_BEEF_CAFE_BABE,
        })
        .unwrap_err();
    assert_eq!(err.code, StatusCode::FailedPrecondition);
}

#[test]
fn append_entry_ledger_not_found() {
    let (mut service, alias) = create_active_service();

    let err = service
        .append_entry(AppendEntryRequest {
            endorser_alias: alias,
            ledger_id: 99, // doesn't exist
            entry: vec![0xAB; 32],
            expected_index: 1,
            nonce: 0xDEAD_BEEF_CAFE_BABE,
        })
        .unwrap_err();
    assert_eq!(err.code, StatusCode::NotFound);
}

#[test]
fn read_latest_happy_path() {
    let (mut service, alias) = create_active_service();
    service
        .create_ledger(CreateLedgerRequest {
            endorser_alias: alias,
            ledger_id: 1,
        })
        .unwrap();

    let resp = service
        .read_latest(ReadLatestRequest {
            endorser_alias: alias,
            ledger_id: 1,
            nonce: 0x0102030405060708,
        })
        .unwrap();

    let block = resp.block.unwrap();
    // Initial state: entry and hash_chain_tail should be 32 zero bytes.
    assert_eq!(block.entry, vec![0u8; 32]);
    assert_eq!(block.hash_chain_tail, vec![0u8; 32]);
    assert_eq!(block.index, 0);

    // Receipts should be valid ECDSA P-256 RAW (R || S) signatures.
    assert_eq!(resp.entry_receipt.len(), 64);
    Signature::from_slice(&resp.entry_receipt)
        .expect("entry_receipt must be a valid ECDSA P-256 signature");
    assert_eq!(resp.tip_receipt.len(), 64);
    Signature::from_slice(&resp.tip_receipt)
        .expect("tip_receipt must be a valid ECDSA P-256 signature");
}

#[test]
fn read_latest_ledger_not_found() {
    let (mut service, alias) = create_active_service();

    let err = service
        .read_latest(ReadLatestRequest {
            endorser_alias: alias,
            ledger_id: 99,
            nonce: 42,
        })
        .unwrap_err();
    assert_eq!(err.code, StatusCode::NotFound);
}

#[test]
fn read_latest_rejects_zero_nonce() {
    let (mut service, alias) = create_active_service();
    service
        .create_ledger(CreateLedgerRequest {
            endorser_alias: alias,
            ledger_id: 1,
        })
        .unwrap();

    let err = service
        .read_latest(ReadLatestRequest {
            endorser_alias: alias,
            ledger_id: 1,
            nonce: 0,
        })
        .unwrap_err();
    assert_eq!(err.code, StatusCode::InvalidArgument);
}
