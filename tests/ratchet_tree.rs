use openmls_core::ciphersuite::CiphersuiteName;
use openmls_core::index::LeafIndex;
use openmls_core::key_package::{Credential, KeyPackage};
use openmls_core::ratchet_tree::{
    leaf_key_package, tree_hash, verify_parent_hashes, RatchetTree, TreeError,
};
use openmls_core::tree::{Node, ParentNode};
use openmls_rust_crypto::OpenMlsRustCrypto;
use openmls_traits::crypto::OpenMlsCrypto;
use openmls_traits::types::HashType;
use openmls_traits::OpenMlsCryptoProvider;

fn key_package(name: &[u8]) -> KeyPackage {
    KeyPackage {
        version: 1,
        cipher_suite: 1,
        hpke_init_key: name.to_vec(),
        credential: Credential {
            credential_type: 1,
            identity: name.to_vec(),
            signature_scheme: 0x0807,
            public_key: vec![1; 32],
        },
        extensions: vec![],
        signature: vec![],
    }
}

fn parent() -> Option<Node> {
    Some(Node::Parent(ParentNode {
        public_key: vec![4; 32],
        unmerged_leaves: vec![],
        parent_hash: vec![],
    }))
}

fn three_leaves() -> RatchetTree {
    RatchetTree {
        nodes: vec![
            Some(Node::Leaf(key_package(b"A"))),
            parent(),
            Some(Node::Leaf(key_package(b"B"))),
            parent(),
            Some(Node::Leaf(key_package(b"C"))),
        ],
        own_leaf: LeafIndex(0),
    }
}

const SUITE: CiphersuiteName = CiphersuiteName::MLS10_128_DHKEMX25519_AES128GCM_SHA256_Ed25519;

#[test]
fn remove_blanks_leaf_and_direct_path() {
    let mut tree = three_leaves();
    assert_eq!(tree.leaf_count(), LeafIndex(3));
    tree.remove(LeafIndex(2)).unwrap();
    assert_eq!(tree.nodes[4], None);
    assert_eq!(tree.nodes[3], None);
    assert!(tree.nodes[1].is_some());
    assert!(tree.nodes[2].is_some());
}

#[test]
fn failed_mutations_leave_the_tree_unchanged() {
    let mut tree = three_leaves();
    let before = tree.nodes.clone();
    assert_eq!(Err(TreeError::SelfRemoval), tree.remove(LeafIndex(0)));
    assert_eq!(tree.nodes, before);
    assert_eq!(Err(TreeError::LeafNotInTree), tree.remove(LeafIndex(3)));
    assert_eq!(tree.nodes, before);
    assert_eq!(
        Err(TreeError::LeafNotInTree),
        tree.update(LeafIndex(7), key_package(b"D"))
    );
    assert_eq!(tree.nodes, before);
}

#[test]
fn update_replaces_leaf_and_blanks_path() {
    let mut tree = three_leaves();
    tree.update(LeafIndex(1), key_package(b"B2")).unwrap();
    assert_eq!(tree.nodes[2], Some(Node::Leaf(key_package(b"B2"))));
    assert_eq!(tree.nodes[1], None);
    assert_eq!(tree.nodes[3], None);
    assert!(tree.nodes[0].is_some());
    assert!(tree.nodes[4].is_some());
}

#[test]
fn single_leaf_tree() {
    let mut tree = RatchetTree::new(key_package(b"A"));
    assert_eq!(tree.leaf_count(), LeafIndex(1));
    tree.update(LeafIndex(0), key_package(b"A2")).unwrap();
    assert_eq!(tree.nodes, vec![Some(Node::Leaf(key_package(b"A2")))]);
}

#[test]
fn tree_hash_of_one_leaf() {
    let crypto = OpenMlsRustCrypto::default();
    let kp = key_package(b"A");
    let nodes = vec![Some(Node::Leaf(kp.clone()))];
    let mut input = vec![0, 0, 0, 0, 1];
    kp.encode(&mut input).unwrap();
    let expected = crypto.crypto().hash(HashType::Sha2_256, &input).unwrap();
    assert_eq!(tree_hash(&crypto, SUITE, &nodes), Some(expected));
}

#[test]
fn tree_hash_of_three_nodes() {
    let crypto = OpenMlsRustCrypto::default();
    let nodes = vec![Some(Node::Leaf(key_package(b"A"))), None, None];
    let h = |data: &[u8]| crypto.crypto().hash(HashType::Sha2_256, data).unwrap();
    let mut left_input = vec![0, 0, 0, 0, 1];
    key_package(b"A").encode(&mut left_input).unwrap();
    let left = h(&left_input);
    let right = h(&[0, 0, 0, 2, 0]);
    let mut root_input = vec![0, 0, 0, 1, 0, 32];
    root_input.extend_from_slice(&left);
    root_input.push(32);
    root_input.extend_from_slice(&right);
    assert_eq!(tree_hash(&crypto, SUITE, &nodes), Some(h(&root_input)));
    assert_eq!(tree_hash(&crypto, SUITE, &vec![None, None]), None);
    assert_eq!(tree_hash(&crypto, SUITE, &vec![]), None);
}

#[test]
fn signer_leaf_lookup() {
    let tree = three_leaves();
    assert_eq!(leaf_key_package(&tree.nodes, LeafIndex(1)), Some(&key_package(b"B")));
    assert_eq!(leaf_key_package(&tree.nodes, LeafIndex(3)), None);
    let blanked = vec![None, None, Some(Node::Leaf(key_package(b"B")))];
    assert_eq!(leaf_key_package(&blanked, LeafIndex(0)), None);
}

#[test]
fn add_fills_blank_leaves_then_extends() {
    let mut tree = three_leaves();
    tree.remove(LeafIndex(1)).unwrap();
    let leaves = tree.add_nodes(&[key_package(b"D"), key_package(b"E")]).unwrap();
    assert_eq!(leaves, vec![LeafIndex(1), LeafIndex(3)]);
    assert_eq!(tree.nodes.len(), 7);
    assert_eq!(tree.nodes[2], Some(Node::Leaf(key_package(b"D"))));
    assert_eq!(tree.nodes[5], None);
    assert_eq!(tree.nodes[6], Some(Node::Leaf(key_package(b"E"))));
    assert_eq!(tree.leaf_count(), LeafIndex(4));
}

#[test]
fn add_records_unmerged_leaves() {
    let mut tree = RatchetTree {
        nodes: vec![Some(Node::Leaf(key_package(b"A"))), parent(), None],
        own_leaf: LeafIndex(0),
    };
    assert_eq!(tree.add_leaf(key_package(b"B")), Ok(LeafIndex(1)));
    assert_eq!(tree.nodes[2], Some(Node::Leaf(key_package(b"B"))));
    match &tree.nodes[1] {
        Some(Node::Parent(p)) => assert_eq!(p.unmerged_leaves, vec![LeafIndex(1)]),
        other => panic!("expected a parent, found {:?}", other),
    }
    assert_eq!(tree.add_leaf(key_package(b"C")), Ok(LeafIndex(2)));
    match &tree.nodes[3] {
        None => {}
        other => panic!("expected a blank root, found {:?}", other),
    }
    match &tree.nodes[1] {
        Some(Node::Parent(p)) => assert_eq!(p.unmerged_leaves, vec![LeafIndex(1)]),
        other => panic!("expected a parent, found {:?}", other),
    }
}

#[test]
fn parent_hashes_of_trees_without_parents() {
    let crypto = OpenMlsRustCrypto::default();
    let nodes = vec![Some(Node::Leaf(key_package(b"A"))), None, Some(Node::Leaf(key_package(b"B")))];
    assert!(verify_parent_hashes(&crypto, SUITE, &nodes));
    assert!(!verify_parent_hashes(&crypto, SUITE, &vec![None, None]));
}

#[test]
fn parent_without_matching_child_is_rejected() {
    let crypto = OpenMlsRustCrypto::default();
    let nodes = vec![Some(Node::Leaf(key_package(b"A"))), parent(), Some(Node::Leaf(key_package(b"B")))];
    assert!(!verify_parent_hashes(&crypto, SUITE, &nodes));
}

#[test]
fn parent_named_by_its_parent_child() {
    // Root 3 over parent 1 and leaf 4 (three leaves): parent 1 names the root.
    let crypto = OpenMlsRustCrypto::default();
    let h = |data: &[u8]| crypto.crypto().hash(HashType::Sha2_256, data).unwrap();
    let root_key = vec![7u8; 32];
    let mut leaf_input = vec![0, 0, 0, 4, 1];
    key_package(b"C").encode(&mut leaf_input).unwrap();
    let sibling_hash = h(&leaf_input);
    let mut input = vec![0, 32];
    input.extend_from_slice(&root_key);
    input.push(0);
    input.push(32);
    input.extend_from_slice(&sibling_hash);
    let child = ParentNode { public_key: vec![4; 32], unmerged_leaves: vec![], parent_hash: h(&input) };
    let root = ParentNode { public_key: root_key, unmerged_leaves: vec![], parent_hash: vec![] };
    let mut nodes = vec![
        Some(Node::Leaf(key_package(b"A"))),
        Some(Node::Parent(child)),
        Some(Node::Leaf(key_package(b"B"))),
        Some(Node::Parent(root)),
        Some(Node::Leaf(key_package(b"C"))),
    ];
    // The parent at 1 is named by neither leaf, so the tree is rejected.
    assert!(!verify_parent_hashes(&crypto, SUITE, &nodes));
    // Blanking it leaves the root, which node 1 no longer names.
    nodes[1] = None;
    assert!(!verify_parent_hashes(&crypto, SUITE, &nodes));
}

#[test]
fn random_secrets() {
    let crypto = OpenMlsRustCrypto::default();
    let a = openmls_core::secret::Secret::random(SUITE, &crypto, openmls_core::ciphersuite::ProtocolVersion::Mls10).unwrap();
    let b = openmls_core::secret::Secret::random(SUITE, &crypto, openmls_core::ciphersuite::ProtocolVersion::Mls10).unwrap();
    assert_eq!(a.value.len(), 32);
    assert!(!(a == b));
}

#[test]
fn test_tree_hash() {
    let crypto = OpenMlsRustCrypto::default();
    for ciphersuite in [
        CiphersuiteName::MLS10_128_DHKEMX25519_AES128GCM_SHA256_Ed25519,
        CiphersuiteName::MLS10_128_DHKEMP256_AES128GCM_SHA256_P256,
        CiphersuiteName::MLS10_128_DHKEMX25519_CHACHA20POLY1305_SHA256_Ed25519,
    ] {
        let mut kp = key_package(b"Tree creator");
        kp.cipher_suite = ciphersuite.code();

        // Initialise tree
        let mut tree = RatchetTree::new(kp.clone());
        let tree_hash_value = tree_hash(&crypto, ciphersuite, &tree.nodes);
        println!("Tree hash: {:?}", tree_hash_value);
        assert!(tree_hash_value.is_some());

        // Add 5 nodes to the tree.
        let nodes: Vec<KeyPackage> = (0..5).map(|_| kp.clone()).collect();
        let _ = tree.add_nodes(&nodes);
        let new_hash = tree_hash(&crypto, ciphersuite, &tree.nodes);
        println!("Tree hash: {:?}", new_hash);
        assert_eq!(tree.leaf_count(), LeafIndex(6));
        assert!(new_hash.is_some());
        assert_ne!(new_hash, tree_hash_value);
    }
}
