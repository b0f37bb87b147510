use openmls_core::ciphersuite::{CiphersuiteName, ProtocolVersion};
use openmls_core::secret::{equal_ct, kdf_label, Mac, Secret};
use openmls_rust_crypto::OpenMlsRustCrypto;

fn unhex(s: &str) -> Vec<u8> {
    (0..s.len())
        .step_by(2)
        .map(|i| u8::from_str_radix(&s[i..i + 2], 16).unwrap())
        .collect()
}

const SUITE: CiphersuiteName = CiphersuiteName::MLS10_128_DHKEMX25519_AES128GCM_SHA256_Ed25519;

fn secret(bytes: &[u8]) -> Secret {
    Secret::from_slice(bytes, ProtocolVersion::Mls10, SUITE)
}

#[test]
fn mac_is_hmac_sha256() {
    // HMAC-SHA-256 with key "Jefe" (RFC 4231, test case 2).
    let crypto = OpenMlsRustCrypto::default();
    let mac = Mac::new(&crypto, &secret(b"Jefe"), b"what do ya want for nothing?");
    assert_eq!(
        mac.mac_value,
        unhex("5bdcc146bf60754e6a042426089575c75a003f089d2739839dec58b964ec3843")
    );
}

#[test]
fn hkdf_extract_and_expand() {
    // RFC 5869, test case 1.
    let crypto = OpenMlsRustCrypto::default();
    let salt = secret(&unhex("000102030405060708090a0b0c"));
    let ikm = secret(&[0x0b; 22]);
    let prk = salt.hkdf_extract(&crypto, &ikm);
    assert_eq!(
        prk.value,
        unhex("077709362c2e32df0ddc3f0dc47bba6390b6c73bb50f9c3122ec844ad7c2b3e5")
    );
    let okm = prk.hkdf_expand(&crypto, &unhex("f0f1f2f3f4f5f6f7f8f9"), 42).unwrap();
    assert_eq!(
        okm.value,
        unhex("3cb25f25faacd57a90434f64d0362f2a2d2d0a90cf1a5a4c5db02d56ecc4c5bf34007208d5b887185865")
    );
    assert_eq!(okm.ciphersuite, SUITE);
}

#[test]
fn expand_fails_on_short_key() {
    let crypto = OpenMlsRustCrypto::default();
    assert!(secret(&[1; 16]).hkdf_expand(&crypto, b"info", 32).is_err());
    assert!(secret(&[1; 32]).derive_secret(&crypto, b"epoch").is_ok());
}

#[test]
fn derive_secret_uses_the_label() {
    let crypto = OpenMlsRustCrypto::default();
    let s = secret(&[2; 32]);
    let a = s.derive_secret(&crypto, b"welcome").unwrap();
    let b = s.derive_secret(&crypto, b"epoch").unwrap();
    let again = s.derive_secret(&crypto, b"welcome").unwrap();
    assert_eq!(a.value.len(), 32);
    assert!(a == again);
    assert!(!(a == b));
    let info = kdf_label(b"welcome", &[], 32);
    let direct = s.hkdf_expand(&crypto, &info, 32).unwrap();
    assert!(a == direct);
}

#[test]
fn kdf_label_encoding() {
    let label = kdf_label(b"key", &[9, 9], 16);
    assert_eq!(
        label,
        vec![0, 16, 9, b'm', b'l', b's', b'1', b'0', b' ', b'k', b'e', b'y', 0, 0, 0, 2, 9, 9]
    );
}

#[test]
fn constant_time_equality() {
    assert!(equal_ct(&[1, 2, 3], &[1, 2, 3]));
    assert!(!equal_ct(&[1, 2, 3], &[1, 2, 4]));
    assert!(!equal_ct(&[0, 2, 3], &[1, 2, 3]));
    assert!(!equal_ct(&[1, 2], &[1, 2, 3]));
    assert!(equal_ct(&[], &[]));
    let a = Mac { mac_value: vec![5; 32] };
    let b = Mac { mac_value: vec![5; 32] };
    let c = Mac { mac_value: vec![6; 32] };
    assert!(a == b);
    assert!(a != c);
    assert!(a.equals(&b));
}

#[test]
fn secrets_compare_tags() {
    let a = secret(&[1; 32]);
    let mut b = secret(&[1; 32]);
    assert!(a == b);
    b.config(CiphersuiteName::MLS10_128_DHKEMP256_AES128GCM_SHA256_P256, ProtocolVersion::Mls10);
    assert!(!(a == b));
    let z = Secret::zero(SUITE, ProtocolVersion::Mls10, 4);
    assert_eq!(z.value, vec![0, 0, 0, 0]);
}
