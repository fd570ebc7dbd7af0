//! The cryptographic primitives: SHA-256 and ECDSA over P-256.
//!
//! Everything here is taken from the `sha2` and `p256` crates. Keys and
//! signatures cross this boundary as byte strings: a verifying key as its
//! 65-byte uncompressed SEC1 encoding, a signature as the 64 bytes `r || s`,
//! and a secret key as its 32-byte big-endian scalar.

use p256::ecdsa::signature::{Signer, Verifier};
use p256::elliptic_curve::zeroize::Zeroize;
use sha2::{Digest, Sha256};
use vstd::prelude::*;

use crate::bytes;

verus! {

/// The order of the P-256 group.
pub open spec fn p256_order() -> nat {
    0xffffffff00000000ffffffffffffffffbce6faada7179e84f3b9cac2fc632551nat
}

/// Whether `encoding` is the 32-byte big-endian form of a nonzero scalar.
pub open spec fn is_scalar(encoding: Seq<u8>) -> bool {
    encoding.len() == 32 && 0 < bytes::be_value(encoding) < p256_order()
}

/// Whether `encoding` is `r || s` for nonzero scalars `r` and `s`.
pub open spec fn is_signature(encoding: Seq<u8>) -> bool {
    &&& encoding.len() == 64
    &&& is_scalar(encoding.take(32))
    &&& is_scalar(encoding.skip(32))
}

/// The SHA-256 digest of a message.
pub uninterp spec fn sha256_digest(message: Seq<u8>) -> Seq<u8>;

/// What `VerifyingKey::from_sec1_bytes` makes of an encoding: the uncompressed
/// encoding of the point, or nothing if it encodes no P-256 public key.
pub uninterp spec fn sec1_decode(encoding: Seq<u8>) -> Option<Seq<u8>>;

/// The uncompressed encoding of the verifying key of a secret scalar.
pub uninterp spec fn public_key_of(secret: Seq<u8>) -> Seq<u8>;

/// The deterministic (RFC 6979) signature of a message under a secret scalar.
pub uninterp spec fn ecdsa_signature(secret: Seq<u8>, message: Seq<u8>) -> Seq<u8>;

/// Whether `signature` is a signature of `message` under the encoded key.
pub uninterp spec fn ecdsa_verifies(key: Seq<u8>, message: Seq<u8>, signature: Seq<u8>) -> bool;

/// Calls `sha2::Sha256::digest`: the result is a function of the message alone.
#[verifier::external_body]
pub(crate) fn sha256(message: &[u8]) -> (digest: [u8; 32])
    ensures
        digest@ == sha256_digest(message@),
{
    Sha256::digest(message).into()
}

/// Calls `p256::ecdsa::VerifyingKey::from_sec1_bytes`, and gives the key back
/// as `to_sec1_bytes` encodes it, which for P-256 is the uncompressed form:
/// decoding that form again gives the same key. On failure the error's text is
/// that of an opaque `signature::Error`.
#[verifier::external_body]
pub(crate) fn decode_verifying_key(encoding: &[u8]) -> (key: Result<[u8; 65], String>)
    ensures
        key matches Ok(k) ==> sec1_decode(encoding@) == Some(k@) && sec1_decode(k@) == Some(k@),
        key matches Err(text) ==> sec1_decode(encoding@) is None && text@ == "signature error"@,
{
    match p256::ecdsa::VerifyingKey::from_sec1_bytes(encoding) {
        Ok(key) => Ok(key.to_sec1_bytes().as_ref().try_into().unwrap()),
        Err(error) => Err(format!("{error}")),
    }
}

/// Calls `p256::ecdsa::Signature::from_slice`, which accepts exactly the
/// 64-byte strings whose halves are nonzero scalars, and gives the same bytes
/// back. On failure the error's text is that of an opaque `signature::Error`.
#[verifier::external_body]
pub(crate) fn decode_signature(encoding: &[u8]) -> (signature: Result<[u8; 64], String>)
    ensures
        signature matches Ok(s) ==> is_signature(encoding@) && s@ == encoding@,
        signature matches Err(text) ==> !is_signature(encoding@) && text@ == "signature error"@,
{
    match p256::ecdsa::Signature::from_slice(encoding) {
        Ok(signature) => Ok(signature.to_bytes().into()),
        Err(error) => Err(format!("{error}")),
    }
}

/// Calls `verify` of `p256::ecdsa::VerifyingKey` (ECDSA with SHA-256), after
/// decoding key and signature; an encoding that does not decode verifies
/// nothing. The outcome is a function of the three byte strings.
#[verifier::external_body]
pub(crate) fn verify_signature(key: &[u8], message: &[u8], signature: &[u8]) -> (valid: bool)
    ensures
        valid == ecdsa_verifies(key@, message@, signature@),
{
    match (
        p256::ecdsa::VerifyingKey::from_sec1_bytes(key),
        p256::ecdsa::Signature::from_slice(signature),
    ) {
        (Ok(key), Ok(signature)) => key.verify(message, &signature).is_ok(),
        _ => false,
    }
}

/// Calls `p256::ecdsa::SigningKey::random` with the operating system's random
/// number generator. Which scalar comes out is left open; that it is a nonzero
/// scalar is all that is claimed. The generator panics where the operating
/// system provides no randomness.
#[verifier::external_body]
pub(crate) fn random_secret() -> (secret: Box<[u8; 32]>)
    ensures
        is_scalar(secret@),
{
    Box::new(p256::ecdsa::SigningKey::random(&mut rand_core::OsRng).to_bytes().into())
}

/// Calls `verifying_key` of the `p256::ecdsa::SigningKey` for a secret scalar.
/// The result is the uncompressed encoding, which decodes to itself.
#[verifier::external_body]
pub(crate) fn public_key(secret: &[u8; 32]) -> (key: [u8; 65])
    requires
        is_scalar(secret@),
    ensures
        key@ == public_key_of(secret@),
        sec1_decode(key@) == Some(key@),
{
    let signing_key = p256::ecdsa::SigningKey::from_slice(secret).unwrap();
    signing_key.verifying_key().to_sec1_bytes().as_ref().try_into().unwrap()
}

/// Calls `sign` of the `p256::ecdsa::SigningKey` for a secret scalar. The
/// nonce is derived from the scalar and the message, so the signature is a
/// function of the two; it is well formed, and verifies under the scalar's
/// verifying key. (The crate panics if the derived `r` or `s` is zero, for
/// which no input is known.)
#[verifier::external_body]
pub(crate) fn sign_message(secret: &[u8; 32], message: &[u8]) -> (signature: [u8; 64])
    requires
        is_scalar(secret@),
    ensures
        signature@ == ecdsa_signature(secret@, message@),
        is_signature(signature@),
        ecdsa_verifies(public_key_of(secret@), message@, signature@),
{
    let signing_key = p256::ecdsa::SigningKey::from_slice(secret).unwrap();
    let signature: p256::ecdsa::Signature = signing_key.sign(message);
    signature.to_bytes().into()
}

/// Calls `zeroize`, which overwrites the bytes with zeros in a way that the
/// compiler does not remove, and does not panic.
#[verifier::external_body]
pub(crate) fn erase_secret(secret: &mut [u8; 32])
    ensures
        final(secret)@ == Seq::new(32, |i: int| 0u8),
    opens_invariants none
    no_unwind
{
    secret.zeroize();
}

} // verus!
