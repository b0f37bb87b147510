//! The cryptographic primitives this library takes from the provider
//! `OpenMlsRustCrypto`. Each result that depends on its arguments alone is
//! named by a function without a body; contracts elsewhere speak of those
//! names.

use vstd::prelude::*;
use openmls_rust_crypto::OpenMlsRustCrypto;
use openmls_traits::crypto::OpenMlsCrypto;
use openmls_traits::types::{AeadType, CryptoError, HashType, HpkeAeadType, HpkeConfig, HpkeKdfType, HpkeKemType, SignatureScheme};
use openmls_traits::random::OpenMlsRand;
use openmls_traits::OpenMlsCryptoProvider;
use crate::ciphersuite::{AeadAlgorithm, CiphersuiteName, HashAlgorithm, KemAlgorithm, SignatureAlgorithm, hash_length, suite_kem, suite_supported};
use crate::tree::HpkeCiphertext;

verus! {

#[verifier::external_type_specification]
#[verifier::external_body]
pub struct ExOpenMlsRustCrypto(OpenMlsRustCrypto);

#[verifier::external_type_specification]
#[verifier::external_body]
pub struct ExCryptoError(CryptoError);

/// HKDF-Extract with the hash, on salt and input keying material.
pub uninterp spec fn hkdf_extract_of(hash: HashAlgorithm, salt: Seq<u8>, ikm: Seq<u8>) -> Seq<u8>;

/// HKDF-Expand with the hash, on a pseudorandom key, info and output length.
pub uninterp spec fn hkdf_expand_of(
    hash: HashAlgorithm,
    prk: Seq<u8>,
    info: Seq<u8>,
    len: nat,
) -> Seq<u8>;

/// HKDF-Expand succeeds on a key of at least one hash output and an output
/// of at most 255 hash outputs.
pub open spec fn expand_succeeds(hash: HashAlgorithm, prk_len: nat, len: nat) -> bool {
    prk_len >= hash_length(hash) && len <= 255 * hash_length(hash)
}

/// The signature over the data under the private key, if the key suits
/// the scheme.
pub uninterp spec fn signature_of(
    scheme: SignatureAlgorithm,
    data: Seq<u8>,
    private_key: Seq<u8>,
) -> Option<Seq<u8>>;

/// The (private, public) HPKE key pair that the suite's KEM derives from
/// input keying material.
pub uninterp spec fn hpke_key_pair_of(suite: CiphersuiteName, ikm: Seq<u8>) -> (Seq<u8>, Seq<u8>);

/// The digest of the data under the hash.
pub uninterp spec fn hash_of(hash: HashAlgorithm, data: Seq<u8>) -> Seq<u8>;

/// The plaintext of an AEAD ciphertext, if it opens under key, nonce and
/// additional data.
pub uninterp spec fn aead_open_of(
    aead: AeadAlgorithm,
    key: Seq<u8>,
    ciphertext: Seq<u8>,
    nonce: Seq<u8>,
    aad: Seq<u8>,
) -> Option<Seq<u8>>;

/// The plaintext of an HPKE ciphertext in base mode, if it opens under the
/// private key, info and additional data.
pub uninterp spec fn hpke_open_of(
    suite: CiphersuiteName,
    kem_output: Seq<u8>,
    ciphertext: Seq<u8>,
    private_key: Seq<u8>,
    info: Seq<u8>,
    aad: Seq<u8>,
) -> Option<Seq<u8>>;

/// Whether a signature over the data verifies under the public key.
pub uninterp spec fn signature_valid(
    scheme: SignatureAlgorithm,
    data: Seq<u8>,
    public_key: Seq<u8>,
    signature: Seq<u8>,
) -> bool;

/// Relies on `OpenMlsCrypto::hkdf_extract` of `RustCrypto` (hkdf crate):
/// HKDF-Extract, which returns `Ok` for every hash type and yields one hash
/// output.
#[verifier::external_body]
pub(crate) fn hkdf_extract(
    backend: &OpenMlsRustCrypto,
    hash: HashAlgorithm,
    salt: &[u8],
    ikm: &[u8],
) -> (r: Vec<u8>)
    ensures
        r@ == hkdf_extract_of(hash, salt@, ikm@),
        r@.len() == hash_length(hash),
{
    let h = match hash {
        HashAlgorithm::Sha256 => HashType::Sha2_256,
        HashAlgorithm::Sha384 => HashType::Sha2_384,
        HashAlgorithm::Sha512 => HashType::Sha2_512,
    };
    backend.crypto().hkdf_extract(h, salt, ikm).unwrap_or_default()
}

/// Relies on `OpenMlsCrypto::hkdf_expand` of `RustCrypto` (hkdf crate):
/// HKDF-Expand into a buffer of the asked length; it fails exactly on a key
/// shorter than one hash output or a length over 255 hash outputs.
#[verifier::external_body]
pub(crate) fn hkdf_expand(
    backend: &OpenMlsRustCrypto,
    hash: HashAlgorithm,
    prk: &[u8],
    info: &[u8],
    len: usize,
) -> (r: Result<Vec<u8>, CryptoError>)
    requires
        len <= 0xffff,
    ensures
        r is Ok == expand_succeeds(hash, prk@.len(), len as nat),
        r is Ok ==> r->Ok_0@ == hkdf_expand_of(hash, prk@, info@, len as nat),
        r is Ok ==> r->Ok_0@.len() == len,
{
    let h = match hash {
        HashAlgorithm::Sha256 => HashType::Sha2_256,
        HashAlgorithm::Sha384 => HashType::Sha2_384,
        HashAlgorithm::Sha512 => HashType::Sha2_512,
    };
    backend.crypto().hkdf_expand(h, prk, info, len)
}

/// Relies on `OpenMlsCrypto::hash` of `RustCrypto` (sha2 crate): the
/// digest, which it returns for every hash type.
#[verifier::external_body]
pub(crate) fn hash(backend: &OpenMlsRustCrypto, alg: HashAlgorithm, data: &[u8]) -> (r: Vec<u8>)
    ensures
        r@ == hash_of(alg, data@),
        r@.len() == hash_length(alg),
{
    let h = match alg {
        HashAlgorithm::Sha256 => HashType::Sha2_256,
        HashAlgorithm::Sha384 => HashType::Sha2_384,
        HashAlgorithm::Sha512 => HashType::Sha2_512,
    };
    backend.crypto().hash(h, data).unwrap_or_default()
}

/// Relies on `OpenMlsCrypto::aead_decrypt` of `RustCrypto` (aes-gcm and
/// chacha20poly1305 crates): the plaintext where the ciphertext opens. The
/// nonce must be 12 bytes long: a nonce of another length panics there.
#[verifier::external_body]
pub(crate) fn aead_decrypt(
    backend: &OpenMlsRustCrypto,
    aead: AeadAlgorithm,
    key: &[u8],
    ciphertext: &[u8],
    nonce: &[u8],
    aad: &[u8],
) -> (r: Result<Vec<u8>, CryptoError>)
    requires
        nonce@.len() == 12,
    ensures
        r is Ok <==> aead_open_of(aead, key@, ciphertext@, nonce@, aad@) is Some,
        r is Ok ==> r->Ok_0@ == aead_open_of(aead, key@, ciphertext@, nonce@, aad@)->Some_0,
{
    let a = match aead {
        AeadAlgorithm::Aes128Gcm => AeadType::Aes128Gcm,
        AeadAlgorithm::Aes256Gcm => AeadType::Aes256Gcm,
        AeadAlgorithm::ChaCha20Poly1305 => AeadType::ChaCha20Poly1305,
    };
    backend.crypto().aead_decrypt(a, key, ciphertext, nonce, aad)
}

/// Relies on `OpenMlsCrypto::hpke_open` of `RustCrypto` (hpke-rs crate):
/// single-shot base-mode HPKE decryption with the suite's KEM, KDF and AEAD,
/// the plaintext where it opens. Only the suites that `RustCrypto` supports
/// are handed to it.
#[verifier::external_body]
pub(crate) fn hpke_open(
    backend: &OpenMlsRustCrypto,
    suite: CiphersuiteName,
    input: &HpkeCiphertext,
    private_key: &[u8],
    info: &[u8],
    aad: &[u8],
) -> (r: Result<Vec<u8>, CryptoError>)
    requires
        suite_supported(suite),
    ensures
        r is Ok <==> hpke_open_of(suite, input.kem_output@, input.ciphertext@, private_key@, info@, aad@) is Some,
        r is Ok ==> r->Ok_0@ == hpke_open_of(suite, input.kem_output@, input.ciphertext@, private_key@, info@, aad@)->Some_0,
{
    let config = match suite {
        CiphersuiteName::MLS10_128_DHKEMP256_AES128GCM_SHA256_P256 => HpkeConfig(HpkeKemType::DhKemP256, HpkeKdfType::HkdfSha256, HpkeAeadType::AesGcm128),
        CiphersuiteName::MLS10_128_DHKEMX25519_CHACHA20POLY1305_SHA256_Ed25519 => HpkeConfig(HpkeKemType::DhKem25519, HpkeKdfType::HkdfSha256, HpkeAeadType::ChaCha20Poly1305),
        _ => HpkeConfig(HpkeKemType::DhKem25519, HpkeKdfType::HkdfSha256, HpkeAeadType::AesGcm128),
    };
    let ct = openmls_traits::types::HpkeCiphertext { kem_output: input.kem_output.clone().into(), ciphertext: input.ciphertext.clone().into() };
    backend.crypto().hpke_open(config, &ct, private_key, info, aad)
}

/// Relies on `OpenMlsCrypto::verify_signature` of `RustCrypto` (ed25519-dalek
/// and p256 crates): `Ok` exactly where the signature verifies.
#[verifier::external_body]
pub(crate) fn verify_signature(
    backend: &OpenMlsRustCrypto,
    scheme: SignatureAlgorithm,
    data: &[u8],
    public_key: &[u8],
    signature: &[u8],
) -> (r: Result<(), CryptoError>)
    ensures
        r is Ok <==> signature_valid(scheme, data@, public_key@, signature@),
{
    let s = match scheme {
        SignatureAlgorithm::Ed25519 => SignatureScheme::ED25519,
        SignatureAlgorithm::EcdsaP256Sha256 => SignatureScheme::ECDSA_SECP256R1_SHA256,
        SignatureAlgorithm::Ed448 => SignatureScheme::ED448,
        SignatureAlgorithm::EcdsaP521Sha512 => SignatureScheme::ECDSA_SECP521R1_SHA512,
    };
    backend.crypto().verify_signature(s, data, public_key, signature)
}

/// Relies on `OpenMlsCrypto::sign` of `RustCrypto` (ed25519-dalek and p256,
/// whose signatures are deterministic): the signature, or an error for an
/// unsupported scheme or a malformed key.
#[verifier::external_body]
pub(crate) fn sign(
    backend: &OpenMlsRustCrypto,
    scheme: SignatureAlgorithm,
    data: &[u8],
    private_key: &[u8],
) -> (r: Result<Vec<u8>, CryptoError>)
    ensures
        r is Ok <==> signature_of(scheme, data@, private_key@) is Some,
        r is Ok ==> r->Ok_0@ == signature_of(scheme, data@, private_key@)->Some_0,
{
    let s = match scheme {
        SignatureAlgorithm::Ed25519 => SignatureScheme::ED25519,
        SignatureAlgorithm::EcdsaP256Sha256 => SignatureScheme::ECDSA_SECP256R1_SHA256,
        SignatureAlgorithm::Ed448 => SignatureScheme::ED448,
        SignatureAlgorithm::EcdsaP521Sha512 => SignatureScheme::ECDSA_SECP521R1_SHA512,
    };
    backend.crypto().sign(s, data, private_key)
}

/// Relies on `OpenMlsRand::random_vec` of `RustCrypto` (a ChaCha20 RNG):
/// `len` random bytes, or nothing where the RNG fails.
#[verifier::external_body]
pub(crate) fn random_vec(backend: &OpenMlsRustCrypto, len: usize) -> (r: Option<Vec<u8>>)
    requires
        len <= 0xff,
    ensures
        r is Some ==> r->Some_0@.len() == len,
{
    backend.rand().random_vec(len).ok()
}

/// Relies on `OpenMlsCrypto::derive_hpke_keypair` of `RustCrypto` (hpke-rs
/// DeriveKeyPair): the key pair for the suite's KEM. Only X25519 suites are
/// handed to it: for P-256 the rejection sampling there may fail, and the
/// provider panics then.
#[verifier::external_body]
pub(crate) fn derive_hpke_keypair(
    backend: &OpenMlsRustCrypto,
    suite: CiphersuiteName,
    ikm: &[u8],
) -> (r: (Vec<u8>, Vec<u8>))
    requires
        suite_kem(suite) == KemAlgorithm::DhKemX25519,
    ensures
        (r.0@, r.1@) == hpke_key_pair_of(suite, ikm@),
{
    let config = match suite {
        CiphersuiteName::MLS10_128_DHKEMX25519_CHACHA20POLY1305_SHA256_Ed25519 => HpkeConfig(HpkeKemType::DhKem25519, HpkeKdfType::HkdfSha256, HpkeAeadType::ChaCha20Poly1305),
        _ => HpkeConfig(HpkeKemType::DhKem25519, HpkeKdfType::HkdfSha256, HpkeAeadType::AesGcm128),
    };
    let pair = backend.crypto().derive_hpke_keypair(config, ikm);
    (pair.private, pair.public)
}

} // verus!
