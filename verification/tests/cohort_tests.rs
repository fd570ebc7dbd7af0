//! Cohorts and their config IDs.

use logcabin::cohort::{CohortConfig, CohortData, EndorserData};
use logcabin::keys::VerifyingKey;
use p256::ecdsa::SigningKey;

fn verifying_key(signing_key: &SigningKey) -> VerifyingKey {
    VerifyingKey::from_sec1_bytes(&signing_key.verifying_key().to_sec1_bytes()).unwrap()
}

fn random_key() -> VerifyingKey {
    verifying_key(&SigningKey::random(&mut rand_core::OsRng))
}

/// Generates `n` random verifying keys sorted in SEC1-lexicographic order.
fn sorted_keys(n: usize) -> Vec<VerifyingKey> {
    sorted_keys_from(
        (0..n)
            .map(|_| random_key())
            .collect(),
    )
}

fn sorted_keys_from(mut keys: Vec<VerifyingKey>) -> Vec<VerifyingKey> {
    keys.sort_by_key(|key| key.to_sec1_bytes());
    keys
}

#[test]
fn try_from_keys_accepts_sorted_keys() {
    let keys = sorted_keys(3);
    let config = CohortConfig::try_from_keys(keys.clone()).unwrap();
    assert_eq!(config.keys(), keys);
}

#[test]
fn try_from_keys_rejects_unsorted_keys() {
    let keys = sorted_keys(3);
    // Reverse to get descending order.
    let reversed: Vec<VerifyingKey> = keys.into_iter().rev().collect();
    assert!(CohortConfig::try_from_keys(reversed).is_err());
}

#[test]
fn try_from_keys_rejects_empty() {
    assert!(CohortConfig::try_from_keys(Vec::new()).is_err());
}

#[test]
fn compute_config_id_golden() {
    // Deterministic keys from known scalars.
    let sk_a = SigningKey::from_slice(&[0x01; 32]).unwrap();
    let sk_b = SigningKey::from_slice(&[0x02; 32]).unwrap();
    let keys = sorted_keys_from(vec![verifying_key(&sk_a), verifying_key(&sk_b)]);
    let config = CohortConfig::try_from_keys(keys).unwrap();
    let expected = [
        109, 104, 212, 208, 226, 191, 70, 40,
        166,   3, 218,  74, 180, 152, 35, 194,
         87, 173,  12,  60,  49, 140, 51, 146,
         42, 167, 193, 229,  63,  52, 128, 188,
    ];
    assert_eq!(config.config_id(), expected);
}

#[test]
fn try_from_keys_rejects_duplicate_keys() {
    let key = random_key();
    assert!(CohortConfig::try_from_keys(vec![key, key]).is_err());
}

// -----------------------------------------------------------------------
// CohortData::try_new - ordering invariant tests
// -----------------------------------------------------------------------

/// Helper: wraps keys into `EndorserData` entries with `None` receipts.
fn entries_from_keys(keys: Vec<VerifyingKey>) -> Vec<EndorserData<()>> {
    keys.into_iter()
        .map(|k| EndorserData {
            endorser_key: k,
            maybe_receipt: None,
        })
        .collect()
}

#[test]
fn cohort_data_rejects_empty() {
    assert!(CohortData::<()>::try_new(Vec::new()).is_err());
}

#[test]
fn cohort_data_rejects_duplicate_keys() {
    let key = random_key();
    assert!(CohortData::try_new(vec![
        EndorserData {
            endorser_key: key,
            maybe_receipt: None::<()>,
        },
        EndorserData {
            endorser_key: key,
            maybe_receipt: None::<()>,
        },
    ])
    .is_err());
}

#[test]
fn cohort_data_rejects_unsorted_keys() {
    let keys = sorted_keys(3);
    let reversed: Vec<VerifyingKey> = keys.into_iter().rev().collect();
    assert!(CohortData::try_new(entries_from_keys(reversed)).is_err());
}

#[test]
fn cohort_data_accepts_sorted_unique_keys() {
    let keys = sorted_keys(2);
    let entries = entries_from_keys(keys.clone());
    let data = CohortData::try_new(entries).unwrap();
    assert_eq!(data.keys(), keys);
}
