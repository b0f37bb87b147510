//! Ciphersuites and protocol versions, and the primitives each suite names.

use vstd::prelude::*;

verus! {

/// The protocol versions of MLS.
#[derive(Clone, Copy, Debug, PartialEq, Eq, Structural)]
pub enum ProtocolVersion {
    Mls10,
}

impl ProtocolVersion {
    /// Wire value of the version.
    pub fn to_u8(&self) -> (r: u8)
        ensures
            r == 1,
    {
        1
    }

    /// Every version that this library speaks.
    pub fn is_supported(&self) -> (r: bool)
        ensures
            r == (*self == ProtocolVersion::Mls10),
    {
        match self {
            ProtocolVersion::Mls10 => true,
        }
    }
}

/// Hash functions of the ciphersuites.
#[derive(Clone, Copy, Debug, PartialEq, Eq, Structural)]
pub enum HashAlgorithm {
    Sha256,
    Sha384,
    Sha512,
}

/// AEAD schemes of the ciphersuites.
#[derive(Clone, Copy, Debug, PartialEq, Eq, Structural)]
pub enum AeadAlgorithm {
    Aes128Gcm,
    Aes256Gcm,
    ChaCha20Poly1305,
}

/// HPKE key encapsulation mechanisms of the ciphersuites.
#[derive(Clone, Copy, Debug, PartialEq, Eq, Structural)]
pub enum KemAlgorithm {
    DhKemX25519,
    DhKemP256,
    DhKemX448,
    DhKemP521,
}

/// Signature schemes of the ciphersuites.
#[derive(Clone, Copy, Debug, PartialEq, Eq, Structural)]
pub enum SignatureAlgorithm {
    Ed25519,
    EcdsaP256Sha256,
    Ed448,
    EcdsaP521Sha512,
}

/// The MLS ciphersuites: KEM, AEAD, hash and signature scheme.
#[allow(non_camel_case_types)]
#[derive(Clone, Copy, Debug, PartialEq, Eq, Structural)]
pub enum CiphersuiteName {
    MLS10_128_DHKEMX25519_AES128GCM_SHA256_Ed25519,
    MLS10_128_DHKEMP256_AES128GCM_SHA256_P256,
    MLS10_128_DHKEMX25519_CHACHA20POLY1305_SHA256_Ed25519,
    MLS10_256_DHKEMX448_AES256GCM_SHA512_Ed448,
    MLS10_256_DHKEMP521_AES256GCM_SHA512_P521,
    MLS10_256_DHKEMX448_CHACHA20POLY1305_SHA512_Ed448,
}

pub open spec fn suite_code(c: CiphersuiteName) -> u16 {
    match c {
        CiphersuiteName::MLS10_128_DHKEMX25519_AES128GCM_SHA256_Ed25519 => 1,
        CiphersuiteName::MLS10_128_DHKEMP256_AES128GCM_SHA256_P256 => 2,
        CiphersuiteName::MLS10_128_DHKEMX25519_CHACHA20POLY1305_SHA256_Ed25519 => 3,
        CiphersuiteName::MLS10_256_DHKEMX448_AES256GCM_SHA512_Ed448 => 4,
        CiphersuiteName::MLS10_256_DHKEMP521_AES256GCM_SHA512_P521 => 5,
        CiphersuiteName::MLS10_256_DHKEMX448_CHACHA20POLY1305_SHA512_Ed448 => 6,
    }
}

pub open spec fn suite_hash(c: CiphersuiteName) -> HashAlgorithm {
    match c {
        CiphersuiteName::MLS10_128_DHKEMX25519_AES128GCM_SHA256_Ed25519
        | CiphersuiteName::MLS10_128_DHKEMP256_AES128GCM_SHA256_P256
        | CiphersuiteName::MLS10_128_DHKEMX25519_CHACHA20POLY1305_SHA256_Ed25519 => HashAlgorithm::Sha256,
        _ => HashAlgorithm::Sha512,
    }
}

pub open spec fn suite_aead(c: CiphersuiteName) -> AeadAlgorithm {
    match c {
        CiphersuiteName::MLS10_128_DHKEMX25519_AES128GCM_SHA256_Ed25519
        | CiphersuiteName::MLS10_128_DHKEMP256_AES128GCM_SHA256_P256 => AeadAlgorithm::Aes128Gcm,
        CiphersuiteName::MLS10_256_DHKEMX448_AES256GCM_SHA512_Ed448
        | CiphersuiteName::MLS10_256_DHKEMP521_AES256GCM_SHA512_P521 => AeadAlgorithm::Aes256Gcm,
        _ => AeadAlgorithm::ChaCha20Poly1305,
    }
}

pub open spec fn suite_kem(c: CiphersuiteName) -> KemAlgorithm {
    match c {
        CiphersuiteName::MLS10_128_DHKEMX25519_AES128GCM_SHA256_Ed25519
        | CiphersuiteName::MLS10_128_DHKEMX25519_CHACHA20POLY1305_SHA256_Ed25519 => KemAlgorithm::DhKemX25519,
        CiphersuiteName::MLS10_128_DHKEMP256_AES128GCM_SHA256_P256 => KemAlgorithm::DhKemP256,
        CiphersuiteName::MLS10_256_DHKEMP521_AES256GCM_SHA512_P521 => KemAlgorithm::DhKemP521,
        _ => KemAlgorithm::DhKemX448,
    }
}

pub open spec fn hash_length(h: HashAlgorithm) -> nat {
    match h {
        HashAlgorithm::Sha256 => 32,
        HashAlgorithm::Sha384 => 48,
        HashAlgorithm::Sha512 => 64,
    }
}

pub open spec fn aead_key_length(a: AeadAlgorithm) -> nat {
    match a {
        AeadAlgorithm::Aes128Gcm => 16,
        _ => 32,
    }
}

/// The suites whose primitives the crypto provider implements.
pub open spec fn suite_supported(c: CiphersuiteName) -> bool {
    suite_code(c) <= 3
}

/// The suite with a wire code, if there is one.
pub open spec fn suite_of_code(code: u16) -> Option<CiphersuiteName> {
    if code == 1 {
        Some(CiphersuiteName::MLS10_128_DHKEMX25519_AES128GCM_SHA256_Ed25519)
    } else if code == 2 {
        Some(CiphersuiteName::MLS10_128_DHKEMP256_AES128GCM_SHA256_P256)
    } else if code == 3 {
        Some(CiphersuiteName::MLS10_128_DHKEMX25519_CHACHA20POLY1305_SHA256_Ed25519)
    } else if code == 4 {
        Some(CiphersuiteName::MLS10_256_DHKEMX448_AES256GCM_SHA512_Ed448)
    } else if code == 5 {
        Some(CiphersuiteName::MLS10_256_DHKEMP521_AES256GCM_SHA512_P521)
    } else if code == 6 {
        Some(CiphersuiteName::MLS10_256_DHKEMX448_CHACHA20POLY1305_SHA512_Ed448)
    } else {
        None
    }
}

/// The signature scheme with a wire code, if this library knows it.
pub open spec fn signature_of_code(code: u16) -> Option<SignatureAlgorithm> {
    if code == 0x0807 {
        Some(SignatureAlgorithm::Ed25519)
    } else if code == 0x0403 {
        Some(SignatureAlgorithm::EcdsaP256Sha256)
    } else if code == 0x0808 {
        Some(SignatureAlgorithm::Ed448)
    } else if code == 0x0603 {
        Some(SignatureAlgorithm::EcdsaP521Sha512)
    } else {
        None
    }
}

impl SignatureAlgorithm {
    pub fn from_code(code: u16) -> (r: Option<SignatureAlgorithm>)
        ensures
            r == signature_of_code(code),
    {
        if code == 0x0807 {
            Some(SignatureAlgorithm::Ed25519)
        } else if code == 0x0403 {
            Some(SignatureAlgorithm::EcdsaP256Sha256)
        } else if code == 0x0808 {
            Some(SignatureAlgorithm::Ed448)
        } else if code == 0x0603 {
            Some(SignatureAlgorithm::EcdsaP521Sha512)
        } else {
            None
        }
    }
}

impl CiphersuiteName {
    pub fn code(&self) -> (r: u16)
        ensures
            r == suite_code(*self),
    {
        match self {
            CiphersuiteName::MLS10_128_DHKEMX25519_AES128GCM_SHA256_Ed25519 => 1,
            CiphersuiteName::MLS10_128_DHKEMP256_AES128GCM_SHA256_P256 => 2,
            CiphersuiteName::MLS10_128_DHKEMX25519_CHACHA20POLY1305_SHA256_Ed25519 => 3,
            CiphersuiteName::MLS10_256_DHKEMX448_AES256GCM_SHA512_Ed448 => 4,
            CiphersuiteName::MLS10_256_DHKEMP521_AES256GCM_SHA512_P521 => 5,
            CiphersuiteName::MLS10_256_DHKEMX448_CHACHA20POLY1305_SHA512_Ed448 => 6,
        }
    }

    /// The suite with a wire code, if there is one.
    pub fn from_code(code: u16) -> (r: Option<CiphersuiteName>)
        ensures
            r == suite_of_code(code),
            r is Some <==> 1 <= code <= 6,
            r is Some ==> suite_code(r->Some_0) == code,
    {
        if code == 1 {
            Some(CiphersuiteName::MLS10_128_DHKEMX25519_AES128GCM_SHA256_Ed25519)
        } else if code == 2 {
            Some(CiphersuiteName::MLS10_128_DHKEMP256_AES128GCM_SHA256_P256)
        } else if code == 3 {
            Some(CiphersuiteName::MLS10_128_DHKEMX25519_CHACHA20POLY1305_SHA256_Ed25519)
        } else if code == 4 {
            Some(CiphersuiteName::MLS10_256_DHKEMX448_AES256GCM_SHA512_Ed448)
        } else if code == 5 {
            Some(CiphersuiteName::MLS10_256_DHKEMP521_AES256GCM_SHA512_P521)
        } else if code == 6 {
            Some(CiphersuiteName::MLS10_256_DHKEMX448_CHACHA20POLY1305_SHA512_Ed448)
        } else {
            None
        }
    }

    pub fn hash(&self) -> (r: HashAlgorithm)
        ensures
            r == suite_hash(*self),
    {
        match self {
            CiphersuiteName::MLS10_128_DHKEMX25519_AES128GCM_SHA256_Ed25519
            | CiphersuiteName::MLS10_128_DHKEMP256_AES128GCM_SHA256_P256
            | CiphersuiteName::MLS10_128_DHKEMX25519_CHACHA20POLY1305_SHA256_Ed25519 => HashAlgorithm::Sha256,
            _ => HashAlgorithm::Sha512,
        }
    }

    pub fn aead(&self) -> (r: AeadAlgorithm)
        ensures
            r == suite_aead(*self),
    {
        match self {
            CiphersuiteName::MLS10_128_DHKEMX25519_AES128GCM_SHA256_Ed25519
            | CiphersuiteName::MLS10_128_DHKEMP256_AES128GCM_SHA256_P256 => AeadAlgorithm::Aes128Gcm,
            CiphersuiteName::MLS10_256_DHKEMX448_AES256GCM_SHA512_Ed448
            | CiphersuiteName::MLS10_256_DHKEMP521_AES256GCM_SHA512_P521 => AeadAlgorithm::Aes256Gcm,
            _ => AeadAlgorithm::ChaCha20Poly1305,
        }
    }

    pub fn kem(&self) -> (r: KemAlgorithm)
        ensures
            r == suite_kem(*self),
    {
        match self {
            CiphersuiteName::MLS10_128_DHKEMX25519_AES128GCM_SHA256_Ed25519
            | CiphersuiteName::MLS10_128_DHKEMX25519_CHACHA20POLY1305_SHA256_Ed25519 => KemAlgorithm::DhKemX25519,
            CiphersuiteName::MLS10_128_DHKEMP256_AES128GCM_SHA256_P256 => KemAlgorithm::DhKemP256,
            CiphersuiteName::MLS10_256_DHKEMP521_AES256GCM_SHA512_P521 => KemAlgorithm::DhKemP521,
            _ => KemAlgorithm::DhKemX448,
        }
    }

    pub fn hash_length(&self) -> (r: usize)
        ensures
            r == hash_length(suite_hash(*self)),
    {
        match self.hash() {
            HashAlgorithm::Sha256 => 32,
            HashAlgorithm::Sha384 => 48,
            HashAlgorithm::Sha512 => 64,
        }
    }

    pub fn aead_key_length(&self) -> (r: usize)
        ensures
            r == aead_key_length(suite_aead(*self)),
    {
        match self.aead() {
            AeadAlgorithm::Aes128Gcm => 16,
            _ => 32,
        }
    }

    /// Nonces of every AEAD scheme here are 12 bytes long.
    pub fn aead_nonce_length(&self) -> (r: usize)
        ensures
            r == 12,
    {
        12
    }

    pub fn is_supported(&self) -> (r: bool)
        ensures
            r == suite_supported(*self),
    {
        self.code() <= 3
    }
}

} // verus!
