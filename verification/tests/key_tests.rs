//! Keys, signatures, and the digests and encodings made of them.

use logcabin::bytes::{
    comes_before, push_ascii, push_be4, push_be8, push_bytes, push_decimal, read_be8, same_bytes,
    to_array32,
};
use logcabin::keys::{Signature, SigningKey, VerifyingKey};
use p256::ecdsa::signature::{Signer, Verifier};

/// The order of the P-256 group.
const ORDER: [u8; 32] = [
    0xff, 0xff, 0xff, 0xff, 0x00, 0x00, 0x00, 0x00, 0xff, 0xff, 0xff, 0xff, 0xff, 0xff, 0xff, 0xff,
    0xbc, 0xe6, 0xfa, 0xad, 0xa7, 0x17, 0x9e, 0x84, 0xf3, 0xb9, 0xca, 0xc2, 0xfc, 0x63, 0x25, 0x51,
];

fn outside_key(scalar: u8) -> p256::ecdsa::SigningKey {
    p256::ecdsa::SigningKey::from_slice(&[scalar; 32]).unwrap()
}

#[test]
fn a_compressed_key_decodes_to_its_uncompressed_encoding() {
    let point = outside_key(1).verifying_key().to_encoded_point(true);
    assert_eq!(point.as_bytes().len(), 33);
    let key = VerifyingKey::from_sec1_bytes(point.as_bytes()).unwrap();
    let uncompressed = outside_key(1).verifying_key().to_encoded_point(false);
    assert_eq!(&key.to_sec1_bytes()[..], uncompressed.as_bytes());
    assert_eq!(key.as_bytes(), uncompressed.as_bytes());
}

#[test]
fn an_encoded_key_decodes_to_the_key() {
    let key = SigningKey::random().verifying_key();
    let decoded = VerifyingKey::from_sec1_bytes(&key.to_sec1_bytes()).unwrap();
    assert_eq!(decoded, key);
    assert!(decoded.same_as(&key));
    assert!(!decoded.same_as(&SigningKey::random().verifying_key()));
}

#[test]
fn bytes_that_are_no_key_are_refused() {
    for bytes in [vec![], vec![0u8], vec![0xFF; 10], vec![0x04; 65], vec![0x02; 32]] {
        let error = VerifyingKey::from_sec1_bytes(&bytes).unwrap_err();
        assert_eq!(error.message, "signature error");
    }
}

#[test]
fn a_signature_is_two_nonzero_scalars() {
    let mut one = [0u8; 32];
    one[31] = 1;
    let mut largest = ORDER;
    largest[31] -= 1;
    let pair = |r: [u8; 32], s: [u8; 32]| {
        let mut bytes = r.to_vec();
        bytes.extend_from_slice(&s);
        bytes
    };

    for accepted in [pair(one, one), pair(largest, one), pair(one, largest)] {
        let signature = Signature::from_slice(&accepted).unwrap();
        assert_eq!(signature.to_bytes().to_vec(), accepted);
        assert_eq!(signature.to_vec(), accepted);
    }
    for refused in [
        pair([0; 32], one),
        pair(one, [0; 32]),
        pair(ORDER, one),
        pair(one, ORDER),
        one.to_vec(),
        pair(one, one)[..63].to_vec(),
        vec![1; 65],
    ] {
        let error = Signature::from_slice(&refused).unwrap_err();
        assert_eq!(error.message, "signature error");
    }
}

#[test]
fn signatures_verify_under_the_matching_key_alone() {
    let signer = SigningKey::random();
    let key = signer.verifying_key();
    let signature = signer.sign(b"a message");

    assert!(key.verify(b"a message", &signature));
    assert!(!key.verify(b"another message", &signature));
    assert!(!SigningKey::random().verifying_key().verify(b"a message", &signature));

    // A signature of the same key over the same message is the same.
    assert_eq!(signer.sign(b"a message"), signature);
    assert_ne!(signer.sign(b"another message"), signature);
}

#[test]
fn signatures_are_those_of_the_outside_crate() {
    let signer = SigningKey::random();
    let signature = signer.sign(b"a message");
    let key = p256::ecdsa::VerifyingKey::from_sec1_bytes(&signer.verifying_key().to_sec1_bytes())
        .unwrap();
    let outside = p256::ecdsa::Signature::from_slice(&signature.to_bytes()).unwrap();
    assert!(key.verify(b"a message", &outside).is_ok());

    let outside: p256::ecdsa::Signature = outside_key(7).sign(b"a message");
    let key =
        VerifyingKey::from_sec1_bytes(&outside_key(7).verifying_key().to_sec1_bytes()).unwrap();
    assert!(key.verify(b"a message", &Signature::from_slice(&outside.to_bytes()).unwrap()));
}

#[test]
fn random_keys_differ() {
    let first = SigningKey::random().verifying_key();
    let second = SigningKey::random().verifying_key();
    assert_ne!(first, second);
}

#[test]
fn numbers_are_written_big_endian() {
    let mut out = Vec::new();
    push_be4(&mut out, 0x0102_0304);
    push_be8(&mut out, 0x1112_1314_1516_1718);
    assert_eq!(
        out,
        [0x01, 0x02, 0x03, 0x04, 0x11, 0x12, 0x13, 0x14, 0x15, 0x16, 0x17, 0x18]
    );

    let mut digest = [0xEE; 32];
    digest[..8].copy_from_slice(&[0x11, 0x12, 0x13, 0x14, 0x15, 0x16, 0x17, 0x18]);
    assert_eq!(read_be8(&digest), 0x1112_1314_1516_1718);
}

#[test]
fn numbers_are_written_in_decimal() {
    for (n, expected) in
        [(0, "<0"), (7, "<7"), (10, "<10"), (1_000_203, "<1000203"), (u64::MAX, "<18446744073709551615")]
    {
        let mut text = String::from("<");
        push_decimal(&mut text, n);
        assert_eq!(text, expected);
    }
}

#[test]
fn bytes_are_compared_and_copied() {
    let mut out = vec![1];
    push_bytes(&mut out, &[2, 3]);
    push_ascii(&mut out, "ab");
    assert_eq!(out, [1, 2, 3, 97, 98]);

    assert!(same_bytes(&[1, 2], &[1, 2]));
    assert!(!same_bytes(&[1, 2], &[1, 3]));
    assert!(!same_bytes(&[1, 2], &[1, 2, 0]));

    assert!(comes_before(&[1, 2], &[1, 3]));
    assert!(comes_before(&[1], &[1, 0]));
    assert!(!comes_before(&[1, 3], &[1, 2, 9]));
    assert!(!comes_before(&[1], &[1]));

    assert_eq!(to_array32(&[5; 32]), Some([5; 32]));
    assert_eq!(to_array32(&[5; 31]), None);
    assert_eq!(to_array32(&[5; 33]), None);
}
