//! What the node takes from `ring`: SHA-256, Ed25519 and random bytes.

use vstd::prelude::*;

verus! {

/// Inputs of this many bytes or more are refused by the digest.
pub const MAX_DIGEST_INPUT: u64 = 0x1000_0000_0000_0000;

/// The SHA-256 digest of a byte string.
pub uninterp spec fn sha256(data: Seq<u8>) -> Seq<u8>;

/// Calls `ring::digest::digest` with `ring::digest::SHA256`.
///
/// Trusted: the 32 bytes returned are the SHA-256 digest of `data`, the same
/// for the same input. `ring` counts the input in bits in a `u64` and panics
/// when that count overflows, so longer inputs are left out.
#[verifier::external_body]
pub(crate) fn sha256_digest(data: &[u8]) -> (out: [u8; 32])
    requires
        data@.len() < MAX_DIGEST_INPUT,
    ensures
        out@ == sha256(data@),
{
    let d = ring::digest::digest(&ring::digest::SHA256, data);
    let mut out = [0u8; 32];
    out.copy_from_slice(d.as_ref());
    out
}

/// Hashes `data`, or returns `None` when it is too long for the digest.
pub fn sha256_checked(data: &[u8]) -> (out: Option<[u8; 32]>)
    ensures
        out is Some <==> data@.len() < MAX_DIGEST_INPUT,
        out matches Some(h) ==> h@ == sha256(data@),
{
    if (data.len() as u64) < MAX_DIGEST_INPUT {
        Some(sha256_digest(data))
    } else {
        None
    }
}

/// The public key of the Ed25519 key pair that a PKCS#8 document holds, if
/// it holds one.
pub uninterp spec fn ed25519_public_key(pkcs8: Seq<u8>) -> Option<Seq<u8>>;

/// The Ed25519 signature that the key pair in a PKCS#8 document gives a
/// message, if the document holds a key pair.
pub uninterp spec fn ed25519_signature(pkcs8: Seq<u8>, message: Seq<u8>) -> Option<Seq<u8>>;

/// Whether `signature` is accepted as an Ed25519 signature of `message`
/// under `public_key`.
pub uninterp spec fn ed25519_verifies(
    public_key: Seq<u8>,
    message: Seq<u8>,
    signature: Seq<u8>,
) -> bool;

/// Calls `ring::rand::SystemRandom::fill` on eight bytes.
///
/// Trusted: nothing is claimed of the bytes; `None` stands for the error
/// that `ring` reports when the system gives no entropy.
#[verifier::external_body]
pub(crate) fn random_bytes() -> (out: Option<[u8; 8]>) {
    let mut bytes = [0u8; 8];
    match ring::rand::SecureRandom::fill(&ring::rand::SystemRandom::new(), &mut bytes) {
        Ok(()) => Some(bytes),
        Err(_) => None,
    }
}

/// Calls `ring::signature::Ed25519KeyPair::generate_pkcs8` with the system's
/// random source.
///
/// Trusted: nothing is claimed of the document; `None` stands for the error
/// that `ring` reports.
#[verifier::external_body]
pub(crate) fn generate_pkcs8() -> (out: Option<Vec<u8>>) {
    match ring::signature::Ed25519KeyPair::generate_pkcs8(&ring::rand::SystemRandom::new()) {
        Ok(document) => Some(document.as_ref().to_vec()),
        Err(_) => None,
    }
}

/// Parses `pkcs8` with `ring::signature::Ed25519KeyPair::from_pkcs8` and
/// reads the public key of the pair.
///
/// Trusted: the result depends on the document alone; `None` stands for a
/// document that `ring` rejects.
#[verifier::external_body]
pub(crate) fn public_key_of(pkcs8: &[u8]) -> (out: Option<[u8; 32]>)
    ensures
        match out {
            Some(key) => ed25519_public_key(pkcs8@) == Some(key@),
            None => ed25519_public_key(pkcs8@) is None,
        },
{
    match ring::signature::Ed25519KeyPair::from_pkcs8(pkcs8) {
        Ok(pair) => {
            let mut key = [0u8; 32];
            key.copy_from_slice(ring::signature::KeyPair::public_key(&pair).as_ref());
            Some(key)
        },
        Err(_) => None,
    }
}

/// Parses `pkcs8` as `public_key_of` does and calls
/// `ring::signature::Ed25519KeyPair::sign` on `message`.
///
/// Trusted: the 64 bytes depend on the document and the message alone, and
/// signing fails only where parsing the document fails. `ring` hashes the
/// message behind 64 bytes of its own and panics when the bit count
/// overflows, so longer messages are left out.
#[verifier::external_body]
pub(crate) fn sign_with(pkcs8: &[u8], message: &[u8]) -> (out: Option<[u8; 64]>)
    requires
        message@.len() < MAX_DIGEST_INPUT,
    ensures
        match out {
            Some(signature) => ed25519_signature(pkcs8@, message@) == Some(signature@),
            None => ed25519_signature(pkcs8@, message@) is None,
        },
        out is Some <==> ed25519_public_key(pkcs8@) is Some,
{
    match ring::signature::Ed25519KeyPair::from_pkcs8(pkcs8) {
        Ok(pair) => {
            let mut signature = [0u8; 64];
            signature.copy_from_slice(pair.sign(message).as_ref());
            Some(signature)
        },
        Err(_) => None,
    }
}

/// Calls `ring::signature::UnparsedPublicKey::verify` with
/// `ring::signature::ED25519`.
///
/// Trusted: the answer depends on the three byte strings alone. `ring`
/// hashes the message behind 64 bytes of its own and panics when the bit
/// count overflows, so longer messages are left out.
#[verifier::external_body]
pub(crate) fn verify_with(public_key: &[u8], message: &[u8], signature: &[u8]) -> (ok: bool)
    requires
        message@.len() < MAX_DIGEST_INPUT,
    ensures
        ok == ed25519_verifies(public_key@, message@, signature@),
{
    ring::signature::UnparsedPublicKey::new(&ring::signature::ED25519, public_key).verify(
        message,
        signature,
    ).is_ok()
}

/// An Ed25519 key pair, kept as the PKCS#8 document that holds it.
pub struct KeyPair {
    pkcs8: Vec<u8>,
    public_key: [u8; 32],
}

impl KeyPair {
    #[verifier::type_invariant]
    spec fn inv(&self) -> bool {
        ed25519_public_key(self.pkcs8@) == Some(self.public_key@)
    }

    /// The PKCS#8 document of the pair.
    pub closed spec fn spec_pkcs8(&self) -> Seq<u8> {
        self.pkcs8@
    }

    /// The public key of the pair.
    pub closed spec fn spec_public_key(&self) -> Seq<u8> {
        self.public_key@
    }

    /// Takes the key pair out of a PKCS#8 document, if it holds one.
    pub fn from_pkcs8(pkcs8: Vec<u8>) -> (pair: Option<KeyPair>)
        ensures
            match pair {
                Some(p) => p.spec_pkcs8() == pkcs8@ && ed25519_public_key(pkcs8@) == Some(
                    p.spec_public_key(),
                ),
                None => ed25519_public_key(pkcs8@) is None,
            },
    {
        match public_key_of(pkcs8.as_slice()) {
            Some(public_key) => Some(KeyPair { pkcs8, public_key }),
            None => None,
        }
    }

    /// Makes a new key pair from the system's entropy. `None` means that
    /// the system gave none, or that the new document did not parse.
    pub fn generate() -> (pair: Option<KeyPair>)
        ensures
            pair matches Some(p) ==> ed25519_public_key(p.spec_pkcs8()) == Some(
                p.spec_public_key(),
            ),
    {
        match generate_pkcs8() {
            Some(pkcs8) => Self::from_pkcs8(pkcs8),
            None => None,
        }
    }

    /// The 32 bytes of the public key.
    pub fn public_key(&self) -> (key: [u8; 32])
        ensures
            key@ == self.spec_public_key(),
            ed25519_public_key(self.spec_pkcs8()) == Some(key@),
    {
        proof {
            use_type_invariant(self);
        }
        self.public_key
    }

    /// Signs `message`.
    pub fn sign(&self, message: &[u8]) -> (signature: [u8; 64])
        requires
            message@.len() < MAX_DIGEST_INPUT,
        ensures
            ed25519_signature(self.spec_pkcs8(), message@) == Some(signature@),
    {
        proof {
            use_type_invariant(self);
        }
        match sign_with(self.pkcs8.as_slice(), message) {
            Some(signature) => signature,
            None => {
                // The document parsed when the pair was made.
                assert(false);
                [0u8; 64]
            },
        }
    }
}

/// Whether `signature` is an Ed25519 signature of `message` under
/// `public_key`.
pub fn verify(message: &[u8], signature: &[u8], public_key: &[u8]) -> (ok: bool)
    requires
        message@.len() < MAX_DIGEST_INPUT,
    ensures
        ok == ed25519_verifies(public_key@, message@, signature@),
{
    verify_with(public_key, message, signature)
}

} // verus!
