use openmls_core::ciphersuite::{CiphersuiteName, ProtocolVersion};
use openmls_core::key_package::{Credential, CredentialBundle, Extension, KeyPackage};
use openmls_core::messages::{
    ConfirmationTag, CredentialError, EncryptedGroupSecrets, GroupContext, GroupInfo, GroupInfoPayload,
    GroupSecrets, PathSecret, PreSharedKeyId, PreSharedKeys, Welcome,
};
use openmls_core::index::{LeafIndex, NodeIndex};
use openmls_core::ratchet_tree::tree_hash;
use openmls_core::schedule::{
    derive_welcome_key_nonce, psk_secret, EpochSecrets, KeySchedule, KeyScheduleError,
};
use openmls_core::secret::{Mac, Secret};
use openmls_core::tree::{encode_tree_nodes, HpkeCiphertext, Node, ParentNode};
use openmls_core::welcome::{key_package_hash, KeyPackageBundle, MlsGroup, WelcomeError};
use openmls_rust_crypto::OpenMlsRustCrypto;
use openmls_traits::crypto::OpenMlsCrypto;
use openmls_traits::types::{
    AeadType, HashType, HpkeAeadType, HpkeConfig, HpkeKdfType, HpkeKemType, SignatureScheme,
};
use openmls_traits::OpenMlsCryptoProvider;

const SUITE: CiphersuiteName = CiphersuiteName::MLS10_128_DHKEMX25519_AES128GCM_SHA256_Ed25519;

fn hpke_config() -> HpkeConfig {
    HpkeConfig(HpkeKemType::DhKem25519, HpkeKdfType::HkdfSha256, HpkeAeadType::AesGcm128)
}

fn key_package(name: &[u8], init_key: Vec<u8>, signature_key: Vec<u8>) -> KeyPackage {
    KeyPackage {
        version: 1,
        cipher_suite: 1,
        hpke_init_key: init_key,
        credential: Credential {
            credential_type: 1,
            identity: name.to_vec(),
            signature_scheme: 0x0807,
            public_key: signature_key,
        },
        extensions: vec![],
        signature: vec![],
    }
}

fn secret(bytes: &[u8]) -> Secret {
    Secret::from_slice(bytes, ProtocolVersion::Mls10, SUITE)
}

/// How the sender of a welcome misbehaves, if at all.
#[derive(Clone, Copy, PartialEq)]
enum Twist {
    Honest,
    DuplicateTreeExtension,
    NoTreeExtension,
    WrongTag,
    WrongTreeHash,
    BadSignature,
    WithPathSecret,
    WrongPathSecret,
    BadParentHash,
    WithPsk,
    SignerOutOfTree,
    GarbageSecrets,
}

struct Fixture {
    welcome: Welcome,
    bob: KeyPackageBundle,
    nodes: Vec<Option<Node>>,
    epoch_secrets: EpochSecrets,
    tree_hash: Vec<u8>,
    parent_private_key: Vec<u8>,
}

fn fixture(twist: Twist) -> Fixture {
    let crypto = OpenMlsRustCrypto::default();
    let bob_keys = crypto.crypto().derive_hpke_keypair(hpke_config(), &[7; 32]);
    let (alice_sk, alice_pk) = crypto.crypto().signature_key_gen(SignatureScheme::ED25519).unwrap();
    let path_secret = [4u8; 32];
    let node_secret = secret(&path_secret).derive_secret(&crypto, b"node").unwrap();
    let parent_keys = crypto.crypto().derive_hpke_keypair(hpke_config(), &node_secret.value);
    let mut alice = key_package(b"Alice", vec![1; 32], alice_pk);
    let bob = key_package(b"Bob", bob_keys.public.clone(), vec![2; 32]);

    let with_path = twist == Twist::WithPathSecret
        || twist == Twist::WrongPathSecret
        || twist == Twist::BadParentHash;
    if with_path {
        // Alice's leaf names the parent: its parent hash covers the parent's
        // key, its empty parent hash and the tree hash of Bob's leaf.
        let mut bob_input = vec![0, 0, 0, 2, 1];
        bob.encode(&mut bob_input).unwrap();
        let bob_hash = crypto.crypto().hash(HashType::Sha2_256, &bob_input).unwrap();
        let mut input = vec![0, 32];
        input.extend_from_slice(&parent_keys.public);
        input.push(0);
        input.push(32);
        input.extend_from_slice(&bob_hash);
        let mut parent_hash = crypto.crypto().hash(HashType::Sha2_256, &input).unwrap();
        if twist == Twist::BadParentHash {
            parent_hash[0] ^= 1;
        }
        let mut data = vec![32];
        data.extend_from_slice(&parent_hash);
        alice.extensions.push(Extension { extension_type: 4, extension_data: data });
    }
    let parent = if with_path {
        Some(Node::Parent(ParentNode {
            public_key: parent_keys.public.clone(),
            unmerged_leaves: vec![],
            parent_hash: vec![],
        }))
    } else {
        None
    };
    let nodes = vec![Some(Node::Leaf(alice)), parent, Some(Node::Leaf(bob.clone()))];
    let tree_hash = tree_hash(&crypto, SUITE, &nodes).unwrap();

    // Alice's key schedule for the new epoch.
    let joiner = [5u8; 32];
    let psk_ids = if twist == Twist::WithPsk {
        vec![PreSharedKeyId { psk_type: 1, psk_id: vec![1], psk_nonce: vec![2; 32] }]
    } else {
        vec![]
    };
    let psk = psk_secret(&crypto, SUITE, ProtocolVersion::Mls10, &psk_ids, &psk_values_for(&psk_ids)).unwrap();
    let mut schedule = KeySchedule::init(&crypto, secret(&joiner), psk);
    let welcome_secret = schedule.welcome(&crypto).unwrap();
    let (welcome_key, welcome_nonce) = derive_welcome_key_nonce(&crypto, &welcome_secret);
    let confirmed_transcript_hash = vec![9u8; 32];
    let context = GroupContext {
        group_id: b"group".to_vec(),
        epoch: 1,
        tree_hash: tree_hash.clone(),
        confirmed_transcript_hash: confirmed_transcript_hash.clone(),
        extensions: vec![],
    };
    schedule.add_context(&crypto, &context.encode().unwrap()).unwrap();
    let epoch_secrets = schedule.epoch_secrets(&crypto).unwrap();
    let mut tag = Mac::new(&crypto, &epoch_secrets.confirmation_key, &confirmed_transcript_hash);
    if twist == Twist::WrongTag {
        tag.mac_value[0] ^= 1;
    }

    let mut tree_bytes = Vec::new();
    encode_tree_nodes(&nodes, &mut tree_bytes).unwrap();
    let tree_extension = Extension { extension_type: 5, extension_data: tree_bytes };
    let other_extensions = match twist {
        Twist::DuplicateTreeExtension => vec![tree_extension.clone(), tree_extension],
        Twist::NoTreeExtension => vec![],
        _ => vec![tree_extension],
    };
    let mut signed_tree_hash = tree_hash.clone();
    if twist == Twist::WrongTreeHash {
        signed_tree_hash[0] ^= 1;
    }
    let payload = GroupInfoPayload::new(
        b"group".to_vec(),
        1,
        signed_tree_hash,
        confirmed_transcript_hash,
        vec![],
        other_extensions,
        ConfirmationTag(tag),
        LeafIndex(if twist == Twist::SignerOutOfTree { 5 } else { 0 }),
    );
    let tbs = payload.unsigned_payload().unwrap();
    let mut signature = crypto.crypto().sign(SignatureScheme::ED25519, &tbs, &alice_sk).unwrap();
    if twist == Twist::BadSignature {
        signature[0] ^= 1;
    }
    let group_info = GroupInfo::from_payload(payload, signature);
    let mut group_info_bytes = Vec::new();
    group_info.encode(&mut group_info_bytes).unwrap();
    let encrypted_group_info = crypto
        .crypto()
        .aead_encrypt(
            AeadType::Aes128Gcm,
            &welcome_key.value,
            &group_info_bytes,
            &welcome_nonce.value,
            &[],
        )
        .unwrap();

    let sent_path_secret = match twist {
        Twist::WithPathSecret => Some(PathSecret::from(secret(&path_secret))),
        Twist::WrongPathSecret => Some(PathSecret::from(secret(&[3; 32]))),
        _ => None,
    };
    let psks = psk_ids.clone();
    let mut group_secrets = GroupSecrets::new_encoded(
        &secret(&joiner),
        sent_path_secret.as_ref(),
        &PreSharedKeys { psks },
    )
    .unwrap();
    if twist == Twist::GarbageSecrets {
        group_secrets.truncate(10);
    }
    let sealed = crypto.crypto().hpke_seal(hpke_config(), &bob_keys.public, &[], &[], &group_secrets);
    let secrets = vec![EncryptedGroupSecrets {
        key_package_hash: key_package_hash(&crypto, &bob).unwrap(),
        encrypted_group_secrets: HpkeCiphertext {
            kem_output: sealed.kem_output.as_slice().to_vec(),
            ciphertext: sealed.ciphertext.as_slice().to_vec(),
        },
    }];
    Fixture {
        welcome: Welcome::new(ProtocolVersion::Mls10, SUITE, secrets, encrypted_group_info),
        bob: KeyPackageBundle { key_package: bob, private_key: bob_keys.private },
        nodes,
        epoch_secrets,
        tree_hash,
        parent_private_key: parent_keys.private,
    }
}

/// The pre-shared key the fixture injects for each identifier.
fn psk_values_for(ids: &[PreSharedKeyId]) -> Vec<Vec<u8>> {
    ids.iter().map(|_| vec![9u8; 32]).collect()
}

fn join(f: Fixture, nodes: Option<Vec<Option<Node>>>) -> Result<MlsGroup, WelcomeError> {
    let crypto = OpenMlsRustCrypto::default();
    MlsGroup::new_from_welcome_internal(f.welcome, nodes, f.bob, None, &crypto)
}

#[test]
fn join_from_welcome() {
    let f = fixture(Twist::Honest);
    let expected_secrets = [
        f.epoch_secrets.confirmation_key.value.clone(),
        f.epoch_secrets.encryption_secret.value.clone(),
        f.epoch_secrets.exporter_secret.value.clone(),
        f.epoch_secrets.init_secret.value.clone(),
    ];
    let expected_tree_hash = f.tree_hash.clone();
    let group = join(f, None).expect("join succeeds");
    assert!(group.use_ratchet_tree_extension);
    assert_eq!(group.group_context.epoch, 1);
    assert_eq!(group.group_context.group_id, b"group".to_vec());
    assert_eq!(group.group_context.tree_hash, expected_tree_hash);
    assert_eq!(group.nodes.len(), 3);
    assert_eq!(group.interim_transcript_hash.len(), 32);
    // The joiner derives the same epoch secrets as the sender.
    assert_eq!(group.epoch_secrets.confirmation_key.value, expected_secrets[0]);
    assert_eq!(group.epoch_secrets.encryption_secret.value, expected_secrets[1]);
    assert_eq!(group.epoch_secrets.exporter_secret.value, expected_secrets[2]);
    assert_eq!(group.epoch_secrets.init_secret.value, expected_secrets[3]);
}

#[test]
fn duplicate_ratchet_tree_extension() {
    let f = fixture(Twist::DuplicateTreeExtension);
    assert_eq!(
        join(f, None).err(),
        Some(WelcomeError::DuplicateRatchetTreeExtension)
    );
}

#[test]
fn tree_from_caller_without_extension() {
    let f = fixture(Twist::NoTreeExtension);
    let nodes = f.nodes.clone();
    let group = join(f, Some(nodes)).expect("join succeeds");
    assert!(!group.use_ratchet_tree_extension);
}

#[test]
fn missing_ratchet_tree() {
    let f = fixture(Twist::NoTreeExtension);
    assert_eq!(join(f, None).err(), Some(WelcomeError::MissingRatchetTree));
}

#[test]
fn confirmation_tag_mismatch() {
    let f = fixture(Twist::WrongTag);
    assert_eq!(join(f, None).err(), Some(WelcomeError::ConfirmationTagMismatch));
}

#[test]
fn tree_hash_mismatch() {
    let f = fixture(Twist::WrongTreeHash);
    assert_eq!(join(f, None).err(), Some(WelcomeError::TreeHashMismatch));
}

#[test]
fn invalid_group_info_signature() {
    let f = fixture(Twist::BadSignature);
    assert_eq!(join(f, None).err(), Some(WelcomeError::InvalidGroupInfoSignature));
}

#[test]
fn joiner_secret_not_found() {
    let mut f = fixture(Twist::Honest);
    f.bob.key_package.credential.identity = b"Carol".to_vec();
    assert_eq!(join(f, None).err(), Some(WelcomeError::JoinerSecretNotFound));
}

#[test]
fn unsupported_ciphersuite() {
    let mut f = fixture(Twist::Honest);
    f.welcome.cipher_suite = CiphersuiteName::MLS10_256_DHKEMX448_AES256GCM_SHA512_Ed448;
    assert_eq!(join(f, None).err(), Some(WelcomeError::UnsupportedCiphersuite));
}

#[test]
fn ciphersuite_mismatch() {
    let mut f = fixture(Twist::Honest);
    f.welcome.cipher_suite = CiphersuiteName::MLS10_128_DHKEMP256_AES128GCM_SHA256_P256;
    assert_eq!(join(f, None).err(), Some(WelcomeError::CiphersuiteMismatch));
}

#[test]
fn group_info_decryption_failure() {
    let mut f = fixture(Twist::Honest);
    f.welcome.encrypted_group_info[0] ^= 1;
    assert_eq!(join(f, None).err(), Some(WelcomeError::GroupInfoDecryptionFailure));
}

#[test]
fn group_secrets_decryption_failure() {
    let mut f = fixture(Twist::Honest);
    f.bob.private_key = vec![8; 32];
    assert_eq!(join(f, None).err(), Some(WelcomeError::GroupSecretsDecryptionFailure));
}

#[test]
fn key_schedule_order_is_enforced() {
    let crypto = OpenMlsRustCrypto::default();
    let mut schedule = KeySchedule::init(
        &crypto,
        secret(&[5; 32]),
        Secret::zero(SUITE, ProtocolVersion::Mls10, 32),
    );
    assert_eq!(schedule.epoch_secrets(&crypto).err(), Some(KeyScheduleError::InvalidState));
    schedule.add_context(&crypto, &[1, 2, 3]).unwrap();
    assert_eq!(schedule.welcome(&crypto).err(), Some(KeyScheduleError::InvalidState));
    assert_eq!(schedule.add_context(&crypto, &[1]).err(), Some(KeyScheduleError::InvalidState));
    let first = schedule.epoch_secrets(&crypto).unwrap();
    assert!(schedule.epoch_secrets(&crypto).is_err());

    // The same inputs give the same secrets.
    let mut again = KeySchedule::init(
        &crypto,
        secret(&[5; 32]),
        Secret::zero(SUITE, ProtocolVersion::Mls10, 32),
    );
    again.add_context(&crypto, &[1, 2, 3]).unwrap();
    let second = again.epoch_secrets(&crypto).unwrap();
    assert!(first.sender_data_secret == second.sender_data_secret);
    assert!(first.membership_key == second.membership_key);
    assert!(first.resumption_secret == second.resumption_secret);
    assert!(!(first.sender_data_secret == first.membership_key));
}

#[test]
fn sign_and_re_sign_group_info() {
    let crypto = OpenMlsRustCrypto::default();
    let (sk, pk) = crypto.crypto().signature_key_gen(SignatureScheme::ED25519).unwrap();
    let bundle = CredentialBundle {
        credential: Credential {
            credential_type: 1,
            identity: b"Alice".to_vec(),
            signature_scheme: 0x0807,
            public_key: pk.clone(),
        },
        signature_private_key: sk,
    };
    let payload = || {
        GroupInfoPayload::new(
            b"group".to_vec(),
            3,
            vec![1; 32],
            vec![2; 32],
            vec![],
            vec![],
            ConfirmationTag(Mac { mac_value: vec![3; 32] }),
            LeafIndex(0),
        )
    };
    let tbs = payload().unsigned_payload().unwrap();
    let info = payload().sign(&crypto, &bundle).unwrap();
    assert!(crypto
        .crypto()
        .verify_signature(SignatureScheme::ED25519, &tbs, &pk, info.signature())
        .is_ok());
    let first = info.signature().to_vec();
    let again = info.re_sign(&bundle, &crypto).unwrap();
    assert_eq!(again.signature(), &first[..]);

    let mut unknown = bundle;
    unknown.credential.signature_scheme = 0x9999;
    assert_eq!(
        payload().sign(&crypto, &unknown).err(),
        Some(CredentialError::UnsupportedSignatureScheme)
    );
}

#[test]
fn random_group_secrets() {
    let crypto = OpenMlsRustCrypto::default();
    let a = GroupSecrets::random_encoded(SUITE, &crypto, ProtocolVersion::Mls10).unwrap();
    let b = GroupSecrets::random_encoded(SUITE, &crypto, ProtocolVersion::Mls10).unwrap();
    assert_ne!(a, b);
    let (decoded, used) = GroupSecrets::decode(&a, 0).unwrap();
    assert_eq!(used, a.len());
    assert_eq!(decoded.joiner_secret.value.len(), 32);
    assert_eq!(decoded.path_secret.unwrap().path_secret.value.len(), 32);
    assert_eq!(decoded.psks.psks.len(), 1);
    assert_eq!(decoded.psks.psks[0].psk_type, 1);
    assert_eq!(decoded.psks.psks[0].psk_id.len(), 32);
}

#[test]
fn join_with_path_secret() {
    let f = fixture(Twist::WithPathSecret);
    let expected_private = f.parent_private_key.clone();
    let group = join(f, None).expect("join succeeds");
    assert_eq!(group.own_leaf, LeafIndex(1));
    assert_eq!(group.path_keys.len(), 1);
    assert_eq!(group.path_keys[0].node, NodeIndex(1));
    assert_eq!(group.path_keys[0].private_key, expected_private);
}

#[test]
fn wrong_path_secret() {
    let f = fixture(Twist::WrongPathSecret);
    assert_eq!(join(f, None).err(), Some(WelcomeError::InvalidRatchetTree));
}

#[test]
fn join_without_path_secret_has_no_path_keys() {
    let f = fixture(Twist::Honest);
    let group = join(f, None).expect("join succeeds");
    assert_eq!(group.own_leaf, LeafIndex(1));
    assert!(group.path_keys.is_empty());
}

#[test]
fn parent_hash_mismatch() {
    let f = fixture(Twist::BadParentHash);
    assert_eq!(join(f, None).err(), Some(WelcomeError::ParentHashMismatch));
}

#[test]
fn pre_shared_keys_must_be_handed_in() {
    let f = fixture(Twist::WithPsk);
    assert_eq!(join(f, None).err(), Some(WelcomeError::PskMissing));
}

#[test]
fn join_with_pre_shared_key() {
    let crypto = OpenMlsRustCrypto::default();
    let f = fixture(Twist::WithPsk);
    let expected = f.epoch_secrets.confirmation_key.value.clone();
    let ids = MlsGroup::welcome_psk_ids(&f.welcome, &f.bob, &crypto).unwrap();
    assert_eq!(ids.len(), 1);
    assert_eq!(ids[0].psk_id, vec![1]);
    let values = psk_values_for(&ids);
    let wrong_count = MlsGroup::new_from_welcome_internal(
        f.welcome.clone(),
        None,
        KeyPackageBundle { key_package: f.bob.key_package.clone(), private_key: f.bob.private_key.clone() },
        Some(vec![]),
        &crypto,
    );
    assert_eq!(wrong_count.err(), Some(WelcomeError::PskMissing));
    let wrong_value = MlsGroup::new_from_welcome_internal(
        f.welcome.clone(),
        None,
        KeyPackageBundle { key_package: f.bob.key_package.clone(), private_key: f.bob.private_key.clone() },
        Some(vec![vec![8u8; 32]]),
        &crypto,
    );
    assert_eq!(wrong_value.err(), Some(WelcomeError::GroupInfoDecryptionFailure));
    let group = MlsGroup::new_from_welcome_internal(f.welcome, None, f.bob, Some(values), &crypto)
        .expect("join succeeds");
    assert_eq!(group.epoch_secrets.confirmation_key.value, expected);
}

#[test]
fn signer_outside_the_tree() {
    let f = fixture(Twist::SignerOutOfTree);
    assert_eq!(join(f, None).err(), Some(WelcomeError::MissingKeyPackage));
}

#[test]
fn malformed_group_secrets() {
    let f = fixture(Twist::GarbageSecrets);
    assert_eq!(join(f, None).err(), Some(WelcomeError::MalformedGroupSecrets));
}
