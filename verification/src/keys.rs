//! Verifying keys, signatures and signing keys.

use vstd::prelude::*;

use crate::bytes;
use crate::crypto;

verus! {

/// A 32-byte SHA-256 digest.
pub type Sha256Digest = [u8; 32];

/// Why a byte string is not a verifying key or not a signature.
#[derive(Debug)]
pub struct SignatureError {
    /// What was wrong, in words.
    pub message: String,
}

// ---------------------------------------------------------------------------
// Verifying key
// ---------------------------------------------------------------------------

/// A P-256 verifying key. Its view is its uncompressed SEC1 encoding.
#[derive(Clone, Copy, Debug, PartialEq, Eq)]
pub struct VerifyingKey {
    encoding: [u8; 65],
}

impl View for VerifyingKey {
    type V = Seq<u8>;

    closed spec fn view(&self) -> Seq<u8> {
        self.encoding@
    }
}

impl VerifyingKey {
    #[verifier::type_invariant]
    spec fn well_formed(self) -> bool {
        crypto::sec1_decode(self.encoding@) == Some(self.encoding@)
    }

    /// Decodes a SEC1-encoded key, compressed or not.
    pub fn from_sec1_bytes(encoding: &[u8]) -> (key: Result<VerifyingKey, SignatureError>)
        ensures
            key matches Ok(k) ==> crypto::sec1_decode(encoding@) == Some(k@),
            key matches Err(e) ==> {
                &&& crypto::sec1_decode(encoding@) is None
                &&& e.message@ == "signature error"@
            },
    {
        match crypto::decode_verifying_key(encoding) {
            Ok(encoding) => Ok(VerifyingKey { encoding }),
            Err(message) => Err(SignatureError { message }),
        }
    }

    /// The uncompressed SEC1 encoding of the key, which decodes to the key.
    pub fn to_sec1_bytes(&self) -> (encoding: [u8; 65])
        ensures
            encoding@ == self@,
            crypto::sec1_decode(encoding@) == Some(self@),
    {
        proof {
            use_type_invariant(self);
        }
        self.encoding
    }

    /// The encoding as a slice.
    pub fn as_bytes(&self) -> (encoding: &[u8])
        ensures
            encoding@ == self@,
            crypto::sec1_decode(encoding@) == Some(self@),
    {
        proof {
            use_type_invariant(self);
        }
        self.encoding.as_slice()
    }

    /// Whether `signature` is a signature of `message` under this key.
    pub fn verify(&self, message: &[u8], signature: &Signature) -> (valid: bool)
        ensures
            valid == crypto::ecdsa_verifies(self@, message@, signature@),
    {
        crypto::verify_signature(self.encoding.as_slice(), message, signature.encoding.as_slice())
    }

    /// Whether this is the same key as `other`.
    pub fn same_as(&self, other: &VerifyingKey) -> (same: bool)
        ensures
            same == (self@ == other@),
    {
        bytes::same_bytes(self.encoding.as_slice(), other.encoding.as_slice())
    }
}

// ---------------------------------------------------------------------------
// Signature
// ---------------------------------------------------------------------------

/// An ECDSA P-256 signature. Its view is the 64 bytes `r || s`.
#[derive(Clone, Copy, Debug, PartialEq, Eq)]
pub struct Signature {
    encoding: [u8; 64],
}

impl View for Signature {
    type V = Seq<u8>;

    closed spec fn view(&self) -> Seq<u8> {
        self.encoding@
    }
}

impl Signature {
    #[verifier::type_invariant]
    spec fn well_formed(self) -> bool {
        crypto::is_signature(self.encoding@)
    }

    /// Decodes a signature from the 64 bytes `r || s`.
    pub fn from_slice(encoding: &[u8]) -> (signature: Result<Signature, SignatureError>)
        ensures
            signature matches Ok(s) ==> crypto::is_signature(encoding@) && s@ == encoding@,
            signature matches Err(e) ==> {
                &&& !crypto::is_signature(encoding@)
                &&& e.message@ == "signature error"@
            },
    {
        match crypto::decode_signature(encoding) {
            Ok(encoding) => Ok(Signature { encoding }),
            Err(message) => Err(SignatureError { message }),
        }
    }

    /// The bytes `r || s`, which decode to the signature.
    pub fn to_bytes(&self) -> (encoding: [u8; 64])
        ensures
            encoding@ == self@,
            crypto::is_signature(encoding@),
    {
        proof {
            use_type_invariant(self);
        }
        self.encoding
    }

    /// The bytes `r || s`, on the heap.
    pub fn to_vec(&self) -> (encoding: Vec<u8>)
        ensures
            encoding@ == self@,
            crypto::is_signature(encoding@),
    {
        proof {
            use_type_invariant(self);
        }
        let mut encoding: Vec<u8> = Vec::new();
        bytes::push_bytes(&mut encoding, self.encoding.as_slice());
        encoding
    }
}

// ---------------------------------------------------------------------------
// Signing key
// ---------------------------------------------------------------------------

/// A secret scalar. It is held on the heap, so that moving it does not copy it,
/// and is overwritten with zeros when it is dropped. Its view is its 32 bytes.
pub struct SecretScalar {
    scalar: Box<[u8; 32]>,
}

impl View for SecretScalar {
    type V = Seq<u8>;

    closed spec fn view(&self) -> Seq<u8> {
        self.scalar@
    }
}

impl Drop for SecretScalar {
    fn drop(&mut self)
        ensures
            final(self)@ == Seq::new(32, |i: int| 0u8),
        opens_invariants none
        no_unwind
    {
        crypto::erase_secret(&mut self.scalar);
    }
}

/// A P-256 signing key. Its secret scalar is overwritten with zeros when the
/// key is dropped.
pub struct SigningKey {
    secret: SecretScalar,
    verifying_key: VerifyingKey,
}

impl SigningKey {
    #[verifier::type_invariant]
    spec fn well_formed(self) -> bool {
        &&& crypto::is_scalar(self.secret())
        &&& self.verifying_key@ == crypto::public_key_of(self.secret())
    }

    /// The secret scalar.
    pub closed spec fn secret(self) -> Seq<u8> {
        self.secret@
    }

    /// Generates a random key.
    pub fn random() -> (key: SigningKey)
        ensures
            crypto::is_scalar(key.secret()),
    {
        let secret = SecretScalar { scalar: crypto::random_secret() };
        let verifying_key = VerifyingKey { encoding: crypto::public_key(&secret.scalar) };
        SigningKey { secret, verifying_key }
    }

    /// The verifying key that checks this key's signatures.
    pub fn verifying_key(&self) -> (key: VerifyingKey)
        ensures
            key@ == crypto::public_key_of(self.secret()),
    {
        proof {
            use_type_invariant(self);
        }
        self.verifying_key
    }

    /// Signs a message. The signature verifies under the verifying key.
    pub fn sign(&self, message: &[u8]) -> (signature: Signature)
        ensures
            signature@ == crypto::ecdsa_signature(self.secret(), message@),
            crypto::is_signature(signature@),
            crypto::ecdsa_verifies(
                crypto::public_key_of(self.secret()),
                message@,
                signature@,
            ),
    {
        proof {
            use_type_invariant(self);
        }
        Signature { encoding: crypto::sign_message(&self.secret.scalar, message) }
    }
}

} // verus!
