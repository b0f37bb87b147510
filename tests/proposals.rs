use openmls_core::ciphersuite::CiphersuiteName;
use openmls_core::key_package::{Credential, KeyPackage};
use openmls_core::proposals::{
    Proposal, ProposalOrRef, ProposalQueue, ProposalQueueError, ProposalReference, ProposalType,
    QueuedProposal, RemoveProposal,
};
use openmls_rust_crypto::OpenMlsRustCrypto;
use openmls_traits::crypto::OpenMlsCrypto;
use openmls_traits::types::HashType;
use openmls_traits::OpenMlsCryptoProvider;

fn key_package(name: &[u8]) -> KeyPackage {
    KeyPackage {
        version: 1,
        cipher_suite: 1,
        hpke_init_key: name.to_vec(),
        credential: Credential {
            credential_type: 1,
            identity: name.to_vec(),
            signature_scheme: 0x0807,
            public_key: vec![1; 32],
        },
        extensions: vec![],
        signature: vec![],
    }
}

const SUITE: CiphersuiteName = CiphersuiteName::MLS10_128_DHKEMX25519_AES128GCM_SHA256_Ed25519;

#[test]
fn proposals_codec() {
    let crypto = OpenMlsRustCrypto::default();
    let ciphersuite = SUITE;

    // Proposal

    let remove_proposal = RemoveProposal { removed: 123 };
    let proposal = Proposal::Remove(remove_proposal);
    let proposal_or_ref = ProposalOrRef::Proposal(proposal.clone());
    let mut encoded = Vec::new();
    proposal_or_ref.encode(&mut encoded).unwrap();
    let (decoded, _) = ProposalOrRef::decode(&encoded, 0).unwrap();

    assert_eq!(proposal_or_ref, decoded);

    // Reference

    let reference = ProposalReference::from_proposal(ciphersuite, &crypto, &proposal).unwrap();
    let proposal_or_ref = ProposalOrRef::Reference(reference);
    let mut encoded = Vec::new();
    proposal_or_ref.encode(&mut encoded).unwrap();
    let (decoded, _) = ProposalOrRef::decode(&encoded, 0).unwrap();

    assert_eq!(proposal_or_ref, decoded);
}

#[test]
fn remove_proposal_exact_encoding() {
    let mut encoded = Vec::new();
    ProposalOrRef::Proposal(Proposal::Remove(RemoveProposal { removed: 123 }))
        .encode(&mut encoded)
        .unwrap();
    assert_eq!(encoded, vec![1, 0, 3, 0, 0, 0, 123]);
    assert!(ProposalOrRef::decode(&[3, 0], 0).is_err());
}

#[test]
fn proposal_reference_is_hash_of_encoding() {
    let crypto = OpenMlsRustCrypto::default();
    let proposal = Proposal::Remove(RemoveProposal { removed: 123 });
    let reference = ProposalReference::from_proposal(SUITE, &crypto, &proposal).unwrap();
    let expected = crypto
        .crypto()
        .hash(HashType::Sha2_256, &[0, 3, 0, 0, 0, 123])
        .unwrap();
    assert_eq!(reference.value, expected);
    assert_eq!(reference.value.len(), 32);
}

#[test]
fn proposal_types() {
    let add = Proposal::Add(key_package(b"Alice"));
    assert!(add.is_type(ProposalType::Add));
    assert!(!add.is_type(ProposalType::Update));
    assert!(!add.is_type(ProposalType::Remove));
}

#[test]
fn proposal_queue_order() {
    let crypto = OpenMlsRustCrypto::default();
    let alice_add = Proposal::Add(key_package(b"Alice"));
    let bob_add = Proposal::Add(key_package(b"Bob"));
    let alice_ref = ProposalReference::from_proposal(SUITE, &crypto, &alice_add).unwrap();

    // Queue built from proposals keeps their order.
    let queue = ProposalQueue::from_proposals_by_reference(
        SUITE,
        &crypto,
        &[alice_add.clone(), bob_add.clone()],
    )
    .unwrap();
    let adds = queue.filtered_by_type(ProposalType::Add);
    assert_eq!(adds.len(), 2);
    assert_eq!(adds[0].proposal(), &alice_add);
    assert_eq!(adds[1].proposal(), &bob_add);

    // Queue built from a commit follows the commit's order.
    let available = queue.queued.clone();
    let committed = vec![
        ProposalOrRef::Proposal(bob_add.clone()),
        ProposalOrRef::Reference(alice_ref),
    ];
    let queue =
        ProposalQueue::from_committed_proposals(SUITE, &crypto, &committed, &available).unwrap();
    let adds = queue.filtered_by_type(ProposalType::Add);
    assert_eq!(adds[0].proposal(), &bob_add);
    assert_eq!(adds[1].proposal(), &alice_add);
}

#[test]
fn duplicate_references_collapse() {
    let crypto = OpenMlsRustCrypto::default();
    let alice_add = Proposal::Add(key_package(b"Alice"));
    let remove = Proposal::Remove(RemoveProposal { removed: 1 });
    let queue = ProposalQueue::from_proposals_by_reference(
        SUITE,
        &crypto,
        &[alice_add.clone(), remove.clone(), alice_add.clone()],
    )
    .unwrap();
    assert_eq!(queue.queued.len(), 2);
    assert_eq!(queue.queued[0].proposal(), &alice_add);
    assert_eq!(queue.queued[1].proposal(), &remove);
    assert_eq!(queue.filtered_by_type(ProposalType::Remove).len(), 1);
    assert_eq!(queue.filtered_by_type(ProposalType::Update).len(), 0);
    let remove_ref = ProposalReference::from_proposal(SUITE, &crypto, &remove).unwrap();
    let other_ref = ProposalReference::from_proposal(
        SUITE,
        &crypto,
        &Proposal::Remove(RemoveProposal { removed: 2 }),
    )
    .unwrap();
    assert!(queue.contains(&[remove_ref.clone()]));
    assert!(queue.contains(&[]));
    assert!(!queue.contains(&[remove_ref, other_ref]));
}

#[test]
fn unresolved_reference() {
    let crypto = OpenMlsRustCrypto::default();
    let available: Vec<QueuedProposal> = vec![];
    let committed = vec![ProposalOrRef::Reference(ProposalReference { value: vec![1; 32] })];
    assert_eq!(
        Err(ProposalQueueError::ProposalNotFound),
        ProposalQueue::from_committed_proposals(SUITE, &crypto, &committed, &available)
            .map(|q| q.queued.len())
    );
}

#[test]
fn unencodable_inline_proposal() {
    let crypto = OpenMlsRustCrypto::default();
    let mut huge = key_package(b"Huge");
    huge.signature = vec![0; 70_000];
    let committed = vec![ProposalOrRef::Proposal(Proposal::Add(huge.clone()))];
    assert_eq!(
        Err(ProposalQueueError::EncodingError),
        ProposalQueue::from_committed_proposals(SUITE, &crypto, &committed, &[])
            .map(|q| q.queued.len())
    );
    assert_eq!(
        Err(ProposalQueueError::EncodingError),
        ProposalQueue::from_proposals_by_reference(SUITE, &crypto, &[Proposal::Add(huge)])
            .map(|q| q.queued.len())
    );
}

/// The queue covers the references of the proposals it was built from, and
/// filtering by type yields proposals of that type.
#[test]
fn proposal_queue_functions() {
    let crypto = OpenMlsRustCrypto::default();
    for ciphersuite in [
        CiphersuiteName::MLS10_128_DHKEMX25519_AES128GCM_SHA256_Ed25519,
        CiphersuiteName::MLS10_128_DHKEMP256_AES128GCM_SHA256_P256,
        CiphersuiteName::MLS10_128_DHKEMX25519_CHACHA20POLY1305_SHA256_Ed25519,
    ] {
        // Mandatory extensions
        let lifetime_extension = openmls_core::key_package::Extension {
            extension_type: 2,
            extension_data: vec![0, 0, 0, 0, 0, 0, 0, 60],
        };
        let mut alice_key_package = key_package(b"Alice");
        alice_key_package.cipher_suite = ciphersuite.code();
        alice_key_package.extensions = vec![lifetime_extension.clone()];
        let mut bob_key_package = key_package(b"Bob");
        bob_key_package.cipher_suite = ciphersuite.code();
        bob_key_package.extensions = vec![lifetime_extension];

        // Let's create some proposals
        let proposal_add_alice1 = Proposal::Add(alice_key_package.clone());
        let proposal_reference_add_alice1 =
            ProposalReference::from_proposal(ciphersuite, &crypto, &proposal_add_alice1).unwrap();
        let proposal_add_alice2 = Proposal::Add(alice_key_package);
        let proposal_reference_add_alice2 =
            ProposalReference::from_proposal(ciphersuite, &crypto, &proposal_add_alice2).unwrap();
        let proposal_add_bob1 = Proposal::Add(bob_key_package);
        let proposal_reference_add_bob1 =
            ProposalReference::from_proposal(ciphersuite, &crypto, &proposal_add_bob1).unwrap();

        // Test proposal types
        assert!(proposal_add_alice1.is_type(ProposalType::Add));
        assert!(!proposal_add_alice1.is_type(ProposalType::Update));
        assert!(!proposal_add_alice1.is_type(ProposalType::Remove));

        let proposals = &[proposal_add_alice1, proposal_add_alice2];

        let proposal_queue =
            ProposalQueue::from_proposals_by_reference(ciphersuite, &crypto, proposals).unwrap();

        // Test if proposals are all covered
        let valid_proposal_reference_list = &[
            proposal_reference_add_alice1.clone(),
            proposal_reference_add_alice2.clone(),
        ];
        assert!(proposal_queue.contains(valid_proposal_reference_list));

        let invalid_proposal_reference_list = &[
            proposal_reference_add_alice1,
            proposal_reference_add_alice2,
            proposal_reference_add_bob1,
        ];
        assert!(!proposal_queue.contains(invalid_proposal_reference_list));

        // Get filtered proposals
        for filtered_proposal in proposal_queue.filtered_by_type(ProposalType::Add) {
            assert!(filtered_proposal.proposal().is_type(ProposalType::Add));
        }
    }
}
