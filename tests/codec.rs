use openmls_core::codec::{decode_vec, encode_vec, read_u64, write_u64, CodecError, VecSize};
use openmls_core::index::LeafIndex;
use openmls_core::key_package::{Credential, Extension, KeyPackage};
use openmls_core::messages::{
    ConfirmationTag, GroupInfo, GroupInfoPayload, GroupSecrets, PathSecret, PreSharedKeyId,
    PreSharedKeys,
};
use openmls_core::ciphersuite::{CiphersuiteName, ProtocolVersion};
use openmls_core::secret::{Mac, Secret};
use openmls_core::tree::{
    decode_tree_nodes, encode_tree_nodes, HpkeCiphertext, Node, NodeType, ParentNode,
    SecretTreeNode, UpdatePath, UpdatePathNode,
};
use tls_codec::Serialize;

fn key_package(name: &[u8]) -> KeyPackage {
    KeyPackage {
        version: 1,
        cipher_suite: 1,
        hpke_init_key: vec![7; 32],
        credential: Credential {
            credential_type: 1,
            identity: name.to_vec(),
            signature_scheme: 0x0807,
            public_key: vec![3; 32],
        },
        extensions: vec![Extension { extension_type: 2, extension_data: vec![0, 0, 0, 60] }],
        signature: vec![9; 64],
    }
}

#[test]
fn vector_prefixes() {
    let mut buffer = Vec::new();
    encode_vec(VecSize::VecU8, &mut buffer, &[1, 2, 3]).unwrap();
    encode_vec(VecSize::VecU16, &mut buffer, &[4]).unwrap();
    encode_vec(VecSize::VecU32, &mut buffer, &[]).unwrap();
    assert_eq!(buffer, vec![3, 1, 2, 3, 0, 1, 4, 0, 0, 0, 0]);
    let (v, pos) = decode_vec(VecSize::VecU8, &buffer, 0).unwrap();
    assert_eq!((v, pos), (vec![1, 2, 3], 4));
    let (v, pos) = decode_vec(VecSize::VecU16, &buffer, 4).unwrap();
    assert_eq!((v, pos), (vec![4], 7));
    let (v, pos) = decode_vec(VecSize::VecU32, &buffer, 7).unwrap();
    assert_eq!((v, pos), (vec![], 11));
}

#[test]
fn vector_prefixes_match_tls_codec() {
    let data: Vec<u8> = (0..300u32).map(|i| i as u8).collect();
    let mut ours = Vec::new();
    encode_vec(VecSize::VecU16, &mut ours, &data).unwrap();
    let theirs = tls_codec::TlsByteVecU16::from(data.clone()).tls_serialize_detached().unwrap();
    assert_eq!(ours, theirs);
    let mut ours = Vec::new();
    encode_vec(VecSize::VecU32, &mut ours, &data).unwrap();
    let theirs = tls_codec::TlsByteVecU32::from(data).tls_serialize_detached().unwrap();
    assert_eq!(ours, theirs);
}

#[test]
fn vector_too_long_for_prefix() {
    let mut buffer = vec![5];
    assert_eq!(
        Err(CodecError::EncodingError),
        encode_vec(VecSize::VecU8, &mut buffer, &[0; 256])
    );
    assert_eq!(buffer, vec![5]);
}

#[test]
fn truncated_vector() {
    assert_eq!(
        Err(CodecError::DecodingError),
        decode_vec(VecSize::VecU16, &[0, 5, 1, 2], 0)
    );
    assert_eq!(Err(CodecError::DecodingError), decode_vec(VecSize::VecU32, &[0, 0], 0));
}

#[test]
fn sixty_four_bit_integers() {
    let mut buffer = Vec::new();
    write_u64(&mut buffer, 0x0102_0304_0506_0708);
    assert_eq!(buffer, vec![1, 2, 3, 4, 5, 6, 7, 8]);
    assert_eq!(Ok((0x0102_0304_0506_0708, 8)), read_u64(&buffer, 0));
    assert_eq!(Err(CodecError::DecodingError), read_u64(&buffer, 1));
}

#[test]
fn node_round_trip() {
    let leaf = Node::Leaf(key_package(b"Alice"));
    let parent = Node::Parent(ParentNode {
        public_key: vec![1, 2, 3],
        unmerged_leaves: vec![LeafIndex(2), LeafIndex(5)],
        parent_hash: vec![4; 32],
    });
    for node in [leaf, parent] {
        let mut bytes = Vec::new();
        node.encode(&mut bytes).unwrap();
        let (decoded, used) = Node::decode(&bytes, 0).unwrap();
        assert_eq!(decoded, node);
        assert_eq!(used, bytes.len());
    }
}

#[test]
fn parent_node_exact_encoding() {
    let node = Node::Parent(ParentNode {
        public_key: vec![0xaa],
        unmerged_leaves: vec![LeafIndex(1)],
        parent_hash: vec![],
    });
    let mut bytes = Vec::new();
    node.encode(&mut bytes).unwrap();
    assert_eq!(bytes, vec![2, 0, 1, 0xaa, 0, 0, 0, 4, 0, 0, 0, 1, 0]);
}

#[test]
fn node_with_unknown_type_is_rejected() {
    assert_eq!(NodeType::Default, NodeType::from_u8(7));
    assert_eq!(Err(CodecError::DecodingError), Node::decode(&[255, 0, 0], 0));
    assert_eq!(Err(CodecError::DecodingError), Node::decode(&[], 0));
}

#[test]
fn update_path_round_trip() {
    let path = UpdatePath {
        leaf_key_package: key_package(b"Bob"),
        nodes: vec![
            UpdatePathNode {
                public_key: vec![1; 32],
                encrypted_path_secret: vec![
                    HpkeCiphertext { kem_output: vec![2; 32], ciphertext: vec![3; 48] },
                    HpkeCiphertext { kem_output: vec![4; 32], ciphertext: vec![] },
                ],
            },
            UpdatePathNode { public_key: vec![5; 32], encrypted_path_secret: vec![] },
        ],
    };
    let mut bytes = Vec::new();
    path.encode(&mut bytes).unwrap();
    let (decoded, used) = UpdatePath::decode(&bytes, 0).unwrap();
    assert_eq!(decoded, path);
    assert_eq!(used, bytes.len());
    assert!(UpdatePath::decode(&bytes[..bytes.len() - 1], 0).is_err());
}

#[test]
fn tree_nodes_round_trip() {
    let nodes = vec![
        Some(Node::Leaf(key_package(b"Alice"))),
        None,
        Some(Node::Leaf(key_package(b"Bob"))),
    ];
    let mut bytes = Vec::new();
    encode_tree_nodes(&nodes, &mut bytes).unwrap();
    let (decoded, used) = decode_tree_nodes(&bytes, 0).unwrap();
    assert_eq!(decoded, nodes);
    assert_eq!(used, bytes.len());
}

#[test]
fn secret_tree_node_encoding() {
    let mut bytes = Vec::new();
    SecretTreeNode { secret: vec![1, 2] }.encode(&mut bytes).unwrap();
    assert_eq!(bytes, vec![2, 1, 2]);
}

fn secret(bytes: &[u8]) -> Secret {
    Secret::from_slice(
        bytes,
        ProtocolVersion::Mls10,
        CiphersuiteName::MLS10_128_DHKEMX25519_AES128GCM_SHA256_Ed25519,
    )
}

#[test]
fn group_secrets_round_trip() {
    let psks = PreSharedKeys {
        psks: vec![PreSharedKeyId { psk_type: 1, psk_id: vec![1, 2], psk_nonce: vec![3; 32] }],
    };
    let path = PathSecret::from(secret(&[8; 32]));
    let bytes = GroupSecrets::new_encoded(&secret(&[6; 32]), Some(&path), &psks).unwrap();
    assert_eq!(&bytes[..2], &[32, 6]);
    let (decoded, used) = GroupSecrets::decode(&bytes, 0).unwrap();
    assert_eq!(used, bytes.len());
    let suite = CiphersuiteName::MLS10_128_DHKEMP256_AES128GCM_SHA256_P256;
    let decoded = decoded.config(suite, ProtocolVersion::Mls10);
    assert_eq!(decoded.joiner_secret.value, vec![6; 32]);
    assert_eq!(decoded.joiner_secret.ciphersuite, suite);
    let path_secret = decoded.path_secret.expect("path secret present");
    assert_eq!(path_secret.path_secret.value, vec![8; 32]);
    assert_eq!(path_secret.path_secret.ciphersuite, suite);
    assert_eq!(decoded.psks, psks);
}

#[test]
fn group_secrets_without_path_secret() {
    let psks = PreSharedKeys { psks: vec![] };
    let bytes = GroupSecrets::new_encoded(&secret(&[1]), None, &psks).unwrap();
    assert_eq!(bytes, vec![1, 1, 0, 0, 0]);
    let (decoded, _) = GroupSecrets::decode(&bytes, 0).unwrap();
    assert!(decoded.path_secret.is_none());
    assert!(GroupSecrets::new_encoded(&secret(&[0; 256]), None, &psks).is_err());
    let mut bad = bytes.clone();
    bad[2] = 2;
    assert!(GroupSecrets::decode(&bad, 0).is_err());
}

#[test]
fn group_info_round_trip() {
    let payload = GroupInfoPayload::new(
        b"group".to_vec(),
        0x0102_0304_0506_0708,
        vec![1; 32],
        vec![2; 32],
        vec![],
        vec![Extension { extension_type: 5, extension_data: vec![0, 0, 0, 0] }],
        ConfirmationTag(Mac { mac_value: vec![3; 32] }),
        LeafIndex(4),
    );
    let tbs = payload.unsigned_payload().unwrap();
    assert_eq!(&tbs[..6], &[5, b'g', b'r', b'o', b'u', b'p']);
    assert_eq!(&tbs[6..14], &[1, 2, 3, 4, 5, 6, 7, 8]);
    let info = GroupInfo::from_payload(payload, vec![9; 64]);
    let mut bytes = Vec::new();
    info.encode(&mut bytes).unwrap();
    assert_eq!(bytes.len(), tbs.len() + 2 + 64);
    let (decoded, used) = GroupInfo::decode(&bytes, 0).unwrap();
    assert_eq!(used, bytes.len());
    assert_eq!(decoded.group_id(), b"group");
    assert_eq!(decoded.epoch(), 0x0102_0304_0506_0708);
    assert_eq!(decoded.tree_hash(), &[1; 32][..]);
    assert_eq!(decoded.confirmed_transcript_hash(), &[2; 32][..]);
    assert_eq!(decoded.other_extensions(), info.other_extensions());
    assert_eq!(decoded.signer_index(), LeafIndex(4));
    assert_eq!(decoded.signature(), &[9; 64][..]);
    assert!(decoded.confirmation_tag() == info.confirmation_tag());
}
