//! Joining a group from a welcome message.

use vstd::prelude::*;
use openmls_rust_crypto::OpenMlsRustCrypto;
use crate::ciphersuite::{
    CiphersuiteName, KemAlgorithm, ProtocolVersion, SignatureAlgorithm, hash_length,
    signature_of_code, suite_aead, suite_code, suite_hash, suite_kem, suite_of_code,
    suite_supported,
};
use crate::codec::{VecSize, copy_bytes, encode_vec, opaque_bytes, parse_vec};
use crate::crypto::{
    aead_decrypt, aead_open_of, derive_hpke_keypair, hash, hash_of, hkdf_extract_of,
    hpke_key_pair_of, hpke_open, hpke_open_of, signature_valid, verify_signature,
};
use crate::index::{LeafIndex, NodeIndex};
use crate::key_package::{
    Extension, ExtensionModel, KeyPackage, KeyPackageModel, RATCHET_TREE_EXTENSION, copy_extensions,
    extension_views, key_package_bytes, key_package_ok, lemma_key_package_round_trip,
};
use crate::messages::{
    EncryptedGroupSecrets, GroupContext, GroupInfo, GroupInfoPayloadModel, GroupSecrets,
    GroupSecretsModel, PreSharedKeyId, PreSharedKeys, Welcome, group_context_bytes,
    group_context_ok, parse_group_info, parse_group_secrets, path_secret_view, payload_bytes,
    payload_ok, psk_views,
};
use crate::ratchet_tree::{
    leaf_content, leaf_count_of, leaf_key_package, parent_content, parent_hashes_valid,
    ratchet_tree_hash, slot_at, tree_hash, tree_width_ok, verify_parent_hashes,
};
use crate::schedule::{
    EpochSecrets, KeySchedule, ScheduleState, derive_welcome_key_nonce, epoch_secrets_of,
    node_label, psk_ids_encodable, psk_secret, psk_secret_of, zero_secret,
    node_label_bytes, path_label, path_label_bytes, welcome_key_of, welcome_nonce_of,
    welcome_secret_of,
};
use crate::secret::{Mac, Secret, derive_secret_of, equal_ct};
use crate::tree::{Node, NodeModel, decode_tree_nodes, slot_parse, slot_views};
use crate::treemath::{
    node_width, MAX_LEAVES, common_ancestor_index, common_ancestor_of, parent_direct_path, parent_direct_path_of,
    positions,
};

verus! {

/// Failures of joining from a welcome message.
#[derive(Clone, Copy, Debug, PartialEq, Eq, Structural)]
pub enum WelcomeError {
    UnsupportedMlsVersion,
    UnsupportedCiphersuite,
    CiphersuiteMismatch,
    JoinerSecretNotFound,
    GroupSecretsDecryptionFailure,
    MalformedGroupSecrets,
    PskMissing,
    GroupInfoDecryptionFailure,
    MalformedGroupInfo,
    DuplicateRatchetTreeExtension,
    MissingRatchetTree,
    InvalidRatchetTree,
    TreeHashMismatch,
    ParentHashMismatch,
    MissingKeyPackage,
    InvalidGroupInfoSignature,
    ConfirmationTagMismatch,
    KeyScheduleFailure,
}

/// A key package together with the private key of its HPKE init key.
pub struct KeyPackageBundle {
    pub key_package: KeyPackage,
    pub private_key: Vec<u8>,
}

/// The private key of a node on this member's path, derived from a path
/// secret.
pub struct PathKey {
    pub node: NodeIndex,
    pub private_key: Vec<u8>,
}

/// The path secret `k` steps up from `s0`: each step is DeriveSecret under
/// the label "path".
pub open spec fn path_secret_at(suite: CiphersuiteName, s0: Seq<u8>, k: nat) -> Seq<u8>
    decreases k,
{
    if k == 0 {
        s0
    } else {
        derive_secret_of(suite, path_secret_at(suite, s0, (k - 1) as nat), path_label())
    }
}

/// The key pair of the node `k` steps up: derived from DeriveSecret of the
/// path secret under the label "node".
pub open spec fn node_key_pair(suite: CiphersuiteName, s0: Seq<u8>, k: nat) -> (Seq<u8>, Seq<u8>) {
    hpke_key_pair_of(suite, derive_secret_of(suite, path_secret_at(suite, s0, k), node_label()))
}

/// The path that a joiner shares with the signer of the group info: from
/// the lowest common ancestor of their leaves up to the root.
pub open spec fn common_path_of(own: nat, signer: nat, n: nat) -> Seq<nat> {
    parent_direct_path_of(common_ancestor_of(2 * own, 2 * signer), n)
}

/// The key of the node at `position`, `k` steps up the path, matches the
/// public key the tree holds there.
pub open spec fn key_matches(
    suite: CiphersuiteName,
    nodes: Seq<Option<NodeModel>>,
    position: nat,
    s0: Seq<u8>,
    k: nat,
    key: PathKey,
) -> bool {
    let pair = node_key_pair(suite, s0, k);
    &&& key.node@ == position
    &&& key.private_key@ == pair.0
    &&& parent_content(slot_at(nodes, position)) is Some
    &&& parent_content(slot_at(nodes, position))->Some_0.public_key == pair.1
}

/// The keys derived along a path match the public keys the tree holds.
pub open spec fn path_keys_match(
    suite: CiphersuiteName,
    nodes: Seq<Option<NodeModel>>,
    path: Seq<nat>,
    s0: Seq<u8>,
    keys: Seq<PathKey>,
) -> bool {
    &&& keys.len() == path.len()
    &&& forall|k: int|
        0 <= k < keys.len() ==> key_matches(suite, nodes, path[k], s0, k as nat, #[trigger] keys[k])
}

/// The state of a member in one epoch of a group.
pub struct MlsGroup {
    pub ciphersuite: CiphersuiteName,
    pub mls_version: ProtocolVersion,
    pub group_context: GroupContext,
    pub epoch_secrets: EpochSecrets,
    pub nodes: Vec<Option<Node>>,
    pub interim_transcript_hash: Vec<u8>,
    pub use_ratchet_tree_extension: bool,
    pub group_info: GroupInfo,
    pub own_leaf: LeafIndex,
    pub path_keys: Vec<PathKey>,
    pub joiner_secret: Ghost<Seq<u8>>,
    pub path_secret: Ghost<Option<Seq<u8>>>,
    pub psk_secret: Ghost<Seq<u8>>,
}

/// The hash that names a key package in a welcome: that of its encoding,
/// under its own ciphersuite's hash.
pub open spec fn key_package_hash_of(kp: KeyPackageModel) -> Option<Seq<u8>> {
    match suite_of_code(kp.cipher_suite) {
        None => None,
        Some(s) => if key_package_ok(kp) {
            Some(hash_of(suite_hash(s), key_package_bytes(kp)))
        } else {
            None
        },
    }
}

/// Whether some encrypted group secrets are addressed to the key package.
pub open spec fn addressed_to(secrets: Seq<EncryptedGroupSecrets>, kp: KeyPackageModel) -> bool {
    key_package_hash_of(kp) is Some && exists|i: int|
        0 <= i < secrets.len() && #[trigger] secrets[i].key_package_hash@ == key_package_hash_of(
            kp,
        )->Some_0
}

/// The first position from `i` on of encrypted group secrets with the hash.
pub open spec fn first_addressed(secrets: Seq<EncryptedGroupSecrets>, h: Seq<u8>, i: int) -> Option<int>
    decreases secrets.len() - i,
{
    if i < 0 || i >= secrets.len() {
        None
    } else if secrets[i].key_package_hash@ == h {
        Some(i)
    } else {
        first_addressed(secrets, h, i + 1)
    }
}

proof fn lemma_first_addressed(secrets: Seq<EncryptedGroupSecrets>, h: Seq<u8>, i: int)
    requires
        0 <= i <= secrets.len(),
    ensures
        first_addressed(secrets, h, i) is Some <==> exists|j: int|
            i <= j < secrets.len() && #[trigger] secrets[j].key_package_hash@ == h,
        first_addressed(secrets, h, i) is Some ==> i <= first_addressed(secrets, h, i)->Some_0
            < secrets.len() && secrets[first_addressed(secrets, h, i)->Some_0].key_package_hash@
            == h,
    decreases secrets.len() - i,
{
    if i < secrets.len() && secrets[i].key_package_hash@ != h {
        lemma_first_addressed(secrets, h, i + 1);
        if exists|j: int| i <= j < secrets.len() && #[trigger] secrets[j].key_package_hash@ == h {
            let j = choose|j: int| i <= j < secrets.len() && #[trigger] secrets[j].key_package_hash@ == h;
            assert(j != i);
        }
    }
}

/// The encrypted group secrets addressed to a key package.
pub open spec fn addressed_secrets(secrets: Seq<EncryptedGroupSecrets>, kp: KeyPackageModel) -> Option<
    EncryptedGroupSecrets,
> {
    match key_package_hash_of(kp) {
        None => None,
        Some(h) => match first_addressed(secrets, h, 0) {
            None => None,
            Some(i) => Some(secrets[i]),
        },
    }
}

/// The group secrets a welcome holds for a key package bundle, or the
/// first failure on the way to them.
pub open spec fn secrets_stage(welcome: Welcome, bundle: KeyPackageBundle) -> Result<
    GroupSecretsModel,
    WelcomeError,
> {
    let suite = welcome.cipher_suite;
    let kp = bundle.key_package@;
    if !suite_supported(suite) {
        Err(WelcomeError::UnsupportedCiphersuite)
    } else if addressed_secrets(welcome.secrets@, kp) is None {
        Err(WelcomeError::JoinerSecretNotFound)
    } else if kp.cipher_suite != suite_code(suite) {
        Err(WelcomeError::CiphersuiteMismatch)
    } else {
        let e = addressed_secrets(welcome.secrets@, kp)->Some_0.encrypted_group_secrets;
        match hpke_open_of(
            suite,
            e.kem_output@,
            e.ciphertext@,
            bundle.private_key@,
            seq![],
            seq![],
        ) {
            None => Err(WelcomeError::GroupSecretsDecryptionFailure),
            Some(b) => match parse_group_secrets(b) {
                None => Err(WelcomeError::MalformedGroupSecrets),
                Some((gs, k)) => Ok(gs),
            },
        }
    }
}

/// The bytes of an optional secret.
pub open spec fn secret_value(s: Option<Secret>) -> Option<Seq<u8>> {
    match s {
        None => None,
        Some(x) => Some(x.value@),
    }
}

/// The pre-shared key values a caller hands in, as byte strings.
pub open spec fn psk_values_view(o: Option<Vec<Vec<u8>>>) -> Option<Seq<Seq<u8>>> {
    match o {
        None => None,
        Some(v) => Some(v@.map_values(|x: Vec<u8>| x@)),
    }
}

/// The pre-shared key secret for the identifiers in the group secrets and
/// the values handed in, one per identifier.
pub open spec fn psk_stage(
    suite: CiphersuiteName,
    gs: GroupSecretsModel,
    values: Option<Seq<Seq<u8>>>,
) -> Result<Seq<u8>, WelcomeError> {
    let ids = gs.psks;
    if ids.len() == 0 {
        Ok(zero_secret(suite))
    } else {
        match values {
            None => Err(WelcomeError::PskMissing),
            Some(v) => if v.len() != ids.len() {
                Err(WelcomeError::PskMissing)
            } else if !psk_ids_encodable(ids) {
                Err(WelcomeError::MalformedGroupSecrets)
            } else {
                Ok(psk_secret_of(suite, ids, v, ids.len()))
            },
        }
    }
}

/// The group info (payload and signature) that the welcome key opens.
pub open spec fn info_stage(
    welcome: Welcome,
    suite: CiphersuiteName,
    joiner: Seq<u8>,
    psk: Seq<u8>,
) -> Result<(GroupInfoPayloadModel, Seq<u8>), WelcomeError> {
    let ws = welcome_secret_of(suite, joiner, psk);
    match aead_open_of(
        suite_aead(suite),
        welcome_key_of(suite, ws),
        welcome.encrypted_group_info@,
        welcome_nonce_of(suite, ws),
        seq![],
    ) {
        None => Err(WelcomeError::GroupInfoDecryptionFailure),
        Some(p) => match parse_group_info(p) {
            None => Err(WelcomeError::MalformedGroupInfo),
            Some((info, k)) => Ok(info),
        },
    }
}

/// Position of the first ratchet tree extension.
pub open spec fn first_ratchet_tree(exts: Seq<ExtensionModel>) -> Option<int>
    decreases exts.len(),
{
    if exts.len() == 0 {
        None
    } else {
        match first_ratchet_tree(exts.drop_last()) {
            Some(i) => Some(i),
            None => if exts.last().extension_type == RATCHET_TREE_EXTENSION {
                Some(exts.len() - 1)
            } else {
                None
            },
        }
    }
}

/// The slots of optional caller-provided nodes.
pub open spec fn option_slots(o: Option<Vec<Option<Node>>>) -> Option<Seq<Option<NodeModel>>> {
    match o {
        None => None,
        Some(v) => Some(slot_views(v@)),
    }
}

/// The ratchet tree to join with, and whether it came from an extension.
pub open spec fn tree_choice(
    exts: Seq<ExtensionModel>,
    provided: Option<Seq<Option<NodeModel>>>,
) -> Result<(Seq<Option<NodeModel>>, bool), WelcomeError> {
    let count = ratchet_tree_count(exts);
    if count > 1 {
        Err(WelcomeError::DuplicateRatchetTreeExtension)
    } else if count == 1 {
        match parse_vec(
            exts[first_ratchet_tree(exts)->Some_0].extension_data,
            slot_parse(),
            VecSize::VecU32,
        ) {
            None => Err(WelcomeError::InvalidRatchetTree),
            Some((v, k)) => Ok((v, true)),
        }
    } else {
        match provided {
            None => Err(WelcomeError::MissingRatchetTree),
            Some(v) => Ok((v, false)),
        }
    }
}

/// The first leaf from `l` on that holds the key package.
pub open spec fn first_leaf_from(nodes: Seq<Option<NodeModel>>, kp: KeyPackageModel, l: nat) -> Option<nat>
    decreases leaf_count_of(nodes.len()) - l,
{
    if l >= leaf_count_of(nodes.len()) {
        None
    } else if leaf_content(slot_at(nodes, 2 * l)) == Some(kp) {
        Some(l)
    } else {
        first_leaf_from(nodes, kp, l + 1)
    }
}

/// The tree holds, at the node `k` steps up the path, the public key
/// derived from the path secret.
pub open spec fn node_key_ok(
    suite: CiphersuiteName,
    nodes: Seq<Option<NodeModel>>,
    position: nat,
    s0: Seq<u8>,
    k: nat,
) -> bool {
    &&& parent_content(slot_at(nodes, position)) is Some
    &&& parent_content(slot_at(nodes, position))->Some_0.public_key == node_key_pair(suite, s0, k).1
}

/// Why the keys derived from a path secret do not fit the tree, if they
/// do not.
pub open spec fn path_keys_error(
    suite: CiphersuiteName,
    nodes: Seq<Option<NodeModel>>,
    own: nat,
    signer: nat,
    s0: Seq<u8>,
) -> Option<WelcomeError> {
    let n = leaf_count_of(nodes.len());
    let ancestor = common_ancestor_of(2 * own, 2 * signer);
    let path = parent_direct_path_of(ancestor, n);
    if suite_kem(suite) != KemAlgorithm::DhKemX25519 {
        Some(WelcomeError::UnsupportedCiphersuite)
    } else if ancestor >= node_width(n) {
        Some(WelcomeError::InvalidRatchetTree)
    } else if path.len() > 0 && s0.len() < hash_length(suite_hash(suite)) {
        Some(WelcomeError::InvalidRatchetTree)
    } else if exists|k: int| 0 <= k < path.len() && !#[trigger] node_key_ok(suite, nodes, path[k], s0, k as nat) {
        Some(WelcomeError::InvalidRatchetTree)
    } else {
        None
    }
}

proof fn lemma_path_keys_invalid(
    suite: CiphersuiteName,
    nodes: Seq<Option<NodeModel>>,
    own: nat,
    signer: nat,
    s0: Seq<u8>,
    k: int,
)
    requires
        suite_kem(suite) == KemAlgorithm::DhKemX25519,
        common_ancestor_of(2 * own, 2 * signer) < node_width(leaf_count_of(nodes.len())),
        0 <= k < parent_direct_path_of(
            common_ancestor_of(2 * own, 2 * signer),
            leaf_count_of(nodes.len()),
        ).len(),
        s0.len() < hash_length(suite_hash(suite)) || !node_key_ok(
            suite,
            nodes,
            parent_direct_path_of(common_ancestor_of(2 * own, 2 * signer), leaf_count_of(nodes.len()))[k],
            s0,
            k as nat,
        ),
    ensures
        path_keys_error(suite, nodes, own, signer, s0) == Some(WelcomeError::InvalidRatchetTree),
{
}

/// The first failed check of the group info and the ratchet tree, if any.
pub open spec fn checks_error(
    suite: CiphersuiteName,
    p: GroupInfoPayloadModel,
    signature: Seq<u8>,
    nodes: Seq<Option<NodeModel>>,
    kp: KeyPackageModel,
    path_secret: Option<Seq<u8>>,
) -> Option<WelcomeError> {
    match ratchet_tree_hash(suite, nodes) {
        None => Some(WelcomeError::InvalidRatchetTree),
        Some(th) => if th != p.tree_hash {
            Some(WelcomeError::TreeHashMismatch)
        } else if !parent_hashes_valid(suite, nodes) {
            Some(WelcomeError::ParentHashMismatch)
        } else {
            match leaf_content(slot_at(nodes, 2 * p.signer_index)) {
                None => Some(WelcomeError::MissingKeyPackage),
                Some(sk) => match signature_of_code(sk.credential.signature_scheme) {
                    None => Some(WelcomeError::InvalidGroupInfoSignature),
                    Some(scheme) => if !payload_ok(p) {
                        Some(WelcomeError::MalformedGroupInfo)
                    } else if !signature_valid(
                        scheme,
                        payload_bytes(p),
                        sk.credential.public_key,
                        signature,
                    ) {
                        Some(WelcomeError::InvalidGroupInfoSignature)
                    } else {
                        match first_leaf_from(nodes, kp, 0) {
                            None => Some(WelcomeError::InvalidRatchetTree),
                            Some(own) => match path_secret {
                                None => None,
                                Some(s0) => path_keys_error(suite, nodes, own, p.signer_index, s0),
                            },
                        }
                    },
                },
            }
        },
    }
}

/// The encoded group context of the epoch a group info describes.
pub open spec fn context_of(p: GroupInfoPayloadModel) -> Seq<u8> {
    group_context_bytes(
        p.group_id,
        p.epoch,
        p.tree_hash,
        p.confirmed_transcript_hash,
        p.group_context_extensions,
    )
}

/// The failure of the last stage: the group context and the confirmation
/// tag.
pub open spec fn final_error(
    suite: CiphersuiteName,
    p: GroupInfoPayloadModel,
    joiner: Seq<u8>,
    psk: Seq<u8>,
) -> Option<WelcomeError> {
    if !group_context_ok(p.group_id, p.tree_hash, p.confirmed_transcript_hash, p.group_context_extensions)
        || context_of(p).len() > 0xffff_ffff {
        Some(WelcomeError::MalformedGroupInfo)
    } else if hkdf_extract_of(
        suite_hash(suite),
        epoch_secrets_of(suite, joiner, psk, context_of(p)).confirmation_key,
        p.confirmed_transcript_hash,
    ) != p.confirmation_tag {
        Some(WelcomeError::ConfirmationTagMismatch)
    } else {
        None
    }
}

/// The failure of joining from a welcome, stage by stage; `None` where the
/// join succeeds.
pub open spec fn join_error(
    welcome: Welcome,
    provided: Option<Seq<Option<NodeModel>>>,
    bundle: KeyPackageBundle,
    psk_values: Option<Seq<Seq<u8>>>,
) -> Option<WelcomeError> {
    let suite = welcome.cipher_suite;
    match secrets_stage(welcome, bundle) {
        Err(e) => Some(e),
        Ok(gs) => match psk_stage(suite, gs, psk_values) {
            Err(e) => Some(e),
            Ok(psk) => match info_stage(welcome, suite, gs.joiner_secret, psk) {
                Err(e) => Some(e),
                Ok((p, sig)) => match tree_choice(p.other_extensions, provided) {
                    Err(e) => Some(e),
                    Ok((nodes, ext)) => match checks_error(
                        suite,
                        p,
                        sig,
                        nodes,
                        bundle.key_package@,
                        gs.path_secret,
                    ) {
                        Some(e) => Some(e),
                        None => final_error(suite, p, gs.joiner_secret, psk),
                    },
                },
            },
        },
    }
}

/// The number of ratchet tree extensions in a list.
pub open spec fn ratchet_tree_count(exts: Seq<ExtensionModel>) -> nat
    decreases exts.len(),
{
    if exts.len() == 0 {
        0
    } else {
        ratchet_tree_count(exts.drop_last()) + if exts.last().extension_type
            == RATCHET_TREE_EXTENSION {
            1nat
        } else {
            0nat
        }
    }
}

/// What a member that joined from a welcome has checked and derived.
pub open spec fn joined_consistently(g: MlsGroup) -> bool {
    let suite = g.ciphersuite;
    let p = g.group_info.payload@;
    let gc = g.group_context;
    let signer = leaf_content(slot_at(slot_views(g.nodes@), 2 * p.signer_index));
    &&& ratchet_tree_hash(suite, slot_views(g.nodes@)) == Some(gc.tree_hash@)
    &&& parent_hashes_valid(suite, slot_views(g.nodes@))
    &&& gc.tree_hash@ == p.tree_hash
    &&& gc.group_id@ == p.group_id
    &&& gc.epoch == p.epoch
    &&& gc.confirmed_transcript_hash@ == p.confirmed_transcript_hash
    &&& extension_views(gc.extensions@) == p.group_context_extensions
    &&& g.use_ratchet_tree_extension == (ratchet_tree_count(p.other_extensions) == 1)
    &&& signer is Some
    &&& signature_of_code(signer->Some_0.credential.signature_scheme) is Some
    &&& signature_valid(
        signature_of_code(signer->Some_0.credential.signature_scheme)->Some_0,
        payload_bytes(p),
        signer->Some_0.credential.public_key,
        g.group_info.signature@,
    )
    &&& g.epoch_secrets@ == epoch_secrets_of(
        suite,
        g.joiner_secret@,
        g.psk_secret@,
        group_context_bytes(
            gc.group_id@,
            gc.epoch,
            gc.tree_hash@,
            gc.confirmed_transcript_hash@,
            extension_views(gc.extensions@),
        ),
    )
    &&& p.confirmation_tag == hkdf_extract_of(
        suite_hash(suite),
        g.epoch_secrets.confirmation_key.value@,
        gc.confirmed_transcript_hash@,
    )
    &&& g.own_leaf@ < leaf_count_of(g.nodes@.len())
    &&& match g.path_secret@ {
        None => g.path_keys@.len() == 0,
        Some(s0) => path_keys_match(
            suite,
            slot_views(g.nodes@),
            common_path_of(g.own_leaf@, p.signer_index, leaf_count_of(g.nodes@.len())),
            s0,
            g.path_keys@,
        ),
    }
    &&& g.interim_transcript_hash@ == hash_of(
        suite_hash(suite),
        gc.confirmed_transcript_hash@ + opaque_bytes(p.confirmation_tag, VecSize::VecU8),
    )
}

/// The hash of a key package's encoding under its own ciphersuite.
pub fn key_package_hash(backend: &OpenMlsRustCrypto, key_package: &KeyPackage) -> (r: Option<Vec<u8>>)
    ensures
        r is Some <==> key_package_hash_of(key_package@) is Some,
        r is Some ==> r->Some_0@ == key_package_hash_of(key_package@)->Some_0,
{
    let suite = match CiphersuiteName::from_code(key_package.cipher_suite) {
        Some(s) => s,
        None => {
            return None;
        },
    };
    let mut bytes: Vec<u8> = Vec::new();
    if key_package.encode(&mut bytes).is_err() {
        return None;
    }
    assert(bytes@ =~= key_package_bytes(key_package@));
    Some(hash(backend, suite.hash(), bytes.as_slice()))
}

/// Counts the ratchet tree extensions and remembers where the first one is.
fn count_ratchet_trees(exts: &[Extension]) -> (r: (u64, usize))
    ensures
        r.0 == ratchet_tree_count(extension_views(exts@)),
        r.0 > 0 ==> first_ratchet_tree(extension_views(exts@)) == Some(r.1 as int) && r.1
            < exts@.len(),
        r.0 == 0 ==> first_ratchet_tree(extension_views(exts@)) is None,
{
    let ghost views = extension_views(exts@);
    let mut count: u64 = 0;
    let mut at: usize = 0;
    let mut i: usize = 0;
    assert(views.take(0) =~= Seq::<ExtensionModel>::empty());
    while i < exts.len()
        invariant
            i <= exts@.len(),
            views == extension_views(exts@),
            count == ratchet_tree_count(views.take(i as int)),
            count <= i,
            count > 0 ==> at < i && first_ratchet_tree(views.take(i as int)) == Some(at as int),
            count == 0 ==> first_ratchet_tree(views.take(i as int)) is None,
        decreases exts@.len() - i,
    {
        proof {
            assert(views.take(i + 1).drop_last() =~= views.take(i as int));
            assert(views.take(i + 1).last() == exts@[i as int]@);
        }
        if exts[i].extension_type == RATCHET_TREE_EXTENSION {
            if count == 0 {
                at = i;
            }
            count = count + 1;
        }
        i = i + 1;
    }
    proof {
        assert(views.take(i as int) =~= views);
    }
    (count, at)
}

/// Chooses the ratchet tree: the one in the group info's extensions, or
/// else the one the caller provides.
pub fn select_ratchet_tree(
    other_extensions: &[Extension],
    nodes_option: Option<Vec<Option<Node>>>,
) -> (r: Result<(Vec<Option<Node>>, bool), WelcomeError>)
    ensures
        match tree_choice(extension_views(other_extensions@), option_slots(nodes_option)) {
            Err(e) => r == Err::<(Vec<Option<Node>>, bool), WelcomeError>(e),
            Ok((v, ext)) => r is Ok && slot_views(r->Ok_0.0@) == v && r->Ok_0.1 == ext,
        },
{
    let ghost views = extension_views(other_extensions@);
    let (count, at) = count_ratchet_trees(other_extensions);
    if count > 1 {
        return Err(WelcomeError::DuplicateRatchetTreeExtension);
    }
    if count == 1 {
        let data = other_extensions[at].extension_data.as_slice();
        assert(views[at as int] == other_extensions@[at as int]@);
        assert(data@.skip(0) =~= data@);
        return match decode_tree_nodes(data, 0) {
            Ok((nodes, _)) => Ok((nodes, true)),
            Err(_) => Err(WelcomeError::InvalidRatchetTree),
        };
    }
    match nodes_option {
        Some(n) => Ok((n, false)),
        None => Err(WelcomeError::MissingRatchetTree),
    }
}

/// The leaf that holds a key package.
pub fn find_own_leaf(nodes: &Vec<Option<Node>>, key_package: &KeyPackage) -> (r: Option<LeafIndex>)
    requires
        key_package_ok(key_package@),
        tree_width_ok(nodes@.len()),
    ensures
        r is Some ==> r->Some_0@ < leaf_count_of(nodes@.len()) && leaf_content(
            slot_at(slot_views(nodes@), 2 * r->Some_0@),
        ) == Some(key_package@),
        r is None ==> forall|l: nat|
            l < leaf_count_of(nodes@.len()) ==> leaf_content(
                #[trigger] slot_at(slot_views(nodes@), 2 * l),
            ) != Some(key_package@),
        match first_leaf_from(slot_views(nodes@), key_package@, 0) {
            None => r is None,
            Some(l) => r is Some && r->Some_0@ == l,
        },
{
    let ghost views = slot_views(nodes@);
    let mut own: Vec<u8> = Vec::new();
    if key_package.encode(&mut own).is_err() {
        return None;
    }
    assert(own@ =~= key_package_bytes(key_package@));
    let n = (nodes.len() / 2 + 1) as u32;
    let mut l: u32 = 0;
    while l < n
        invariant
            n == leaf_count_of(nodes@.len()),
            n <= MAX_LEAVES,
            l <= n,
            views == slot_views(nodes@),
            own@ == key_package_bytes(key_package@),
            key_package_ok(key_package@),
            forall|j: nat| j < l ==> leaf_content(#[trigger] slot_at(views, 2 * j)) != Some(key_package@),
            first_leaf_from(views, key_package@, 0) == first_leaf_from(views, key_package@, l as nat),
        decreases n - l,
    {
        let i = 2 * l as usize;
        assert(views[i as int] == crate::tree::slot_view(nodes@[i as int]));
        assert(slot_at(views, 2 * l as nat) == views[i as int]);
        match &nodes[i] {
            Some(Node::Leaf(kp)) => {
                let mut other: Vec<u8> = Vec::new();
                let encoded = kp.encode(&mut other);
                assert(encoded is Ok ==> other@ =~= key_package_bytes(kp@));
                if encoded.is_ok() {
                    if equal_ct(own.as_slice(), other.as_slice()) {
                        proof {
                            lemma_key_package_round_trip(kp@, Seq::empty());
                            lemma_key_package_round_trip(key_package@, Seq::empty());
                            assert(key_package_bytes(kp@) + Seq::<u8>::empty() =~= key_package_bytes(kp@));
                            assert(key_package_bytes(key_package@) + Seq::<u8>::empty()
                                =~= key_package_bytes(key_package@));
                        }
                        return Some(LeafIndex(l));
                    }
                }
            },
            _ => {},
        }
        proof {
            assert(leaf_content(slot_at(views, 2 * l as nat)) != Some(key_package@));
        }
        l = l + 1;
    }
    None
}

/// Derives the key pairs along the path shared with the signer from the
/// path secret, and checks each public key against the tree.
fn derive_path_keys(
    backend: &OpenMlsRustCrypto,
    suite: CiphersuiteName,
    nodes: &Vec<Option<Node>>,
    own_leaf: LeafIndex,
    signer: LeafIndex,
    path_secret: Secret,
) -> (r: Result<Vec<PathKey>, WelcomeError>)
    requires
        tree_width_ok(nodes@.len()),
        own_leaf@ < leaf_count_of(nodes@.len()),
        signer@ < leaf_count_of(nodes@.len()),
        path_secret.ciphersuite == suite,
    ensures
        r is Ok ==> path_keys_match(
            suite,
            slot_views(nodes@),
            common_path_of(own_leaf@, signer@, leaf_count_of(nodes@.len())),
            path_secret.value@,
            r->Ok_0@,
        ),
        match path_keys_error(suite, slot_views(nodes@), own_leaf@, signer@, path_secret.value@) {
            Some(e) => r == Err::<Vec<PathKey>, WelcomeError>(e),
            None => r is Ok,
        },
{
    if suite.kem() != KemAlgorithm::DhKemX25519 {
        return Err(WelcomeError::UnsupportedCiphersuite);
    }
    let ghost views = slot_views(nodes@);
    let ghost s0 = path_secret.value@;
    assert(views.len() == nodes@.len());
    let n = LeafIndex((nodes.len() / 2 + 1) as u32);
    assert(n@ == leaf_count_of(nodes@.len()));
    let ancestor = common_ancestor_index(
        NodeIndex((2 * own_leaf.0 as u64) as u32),
        NodeIndex((2 * signer.0 as u64) as u32),
    );
    assert(2 * own_leaf@ < 0x1_0000_0000);
    assert(2 * signer@ < 0x1_0000_0000);
    assert(ancestor@ == common_ancestor_of(2 * own_leaf@, 2 * signer@));
    let path = match parent_direct_path(ancestor, n) {
        Ok(p) => p,
        Err(_) => {
            return Err(WelcomeError::InvalidRatchetTree);
        },
    };
    let ghost common = common_path_of(own_leaf@, signer@, n@);
    let mut keys: Vec<PathKey> = Vec::new();
    let mut secret = path_secret;
    let mut k: usize = 0;
    while k < path.len()
        invariant
            k <= path@.len(),
            positions(path@) == common,
            common == common_path_of(own_leaf@, signer@, leaf_count_of(nodes@.len())),
            views == slot_views(nodes@),
            views.len() == nodes@.len(),
            s0 == path_secret.value@,
            n@ == leaf_count_of(nodes@.len()),
            ancestor@ == common_ancestor_of(2 * own_leaf@, 2 * signer@),
            ancestor@ < node_width(n@),
            common == parent_direct_path_of(ancestor@, n@),
            k > 0 ==> secret.value@.len() == hash_length(suite_hash(suite)),
            k > 0 ==> s0.len() >= hash_length(suite_hash(suite)),
            forall|j: int| 0 <= j < k ==> #[trigger] node_key_ok(suite, views, common[j], s0, j as nat),
            secret.ciphersuite == suite,
            secret.value@ == path_secret_at(suite, s0, k as nat),
            suite_kem(suite) == KemAlgorithm::DhKemX25519,
            path_keys_match(suite, views, common.take(k as int), s0, keys@),
        decreases path@.len() - k,
    {
        let node_secret = match secret.derive_secret(backend, node_label_bytes().as_slice()) {
            Ok(s) => s,
            Err(_) => {
                assert(k == 0);
                assert(common.len() == path@.len());
                assert(s0.len() < hash_length(suite_hash(suite)));
                proof {
                    let pth = parent_direct_path_of(
                        common_ancestor_of(2 * own_leaf@, 2 * signer@),
                        leaf_count_of(views.len()),
                    );
                    assert(pth == common);
                    assert(pth.len() > 0);
                    lemma_path_keys_invalid(suite, views, own_leaf@, signer@, s0, 0);
                }
                return Err(WelcomeError::InvalidRatchetTree);
            },
        };
        let (private_key, public_key) = derive_hpke_keypair(backend, suite, node_secret.value.as_slice());
        let position = path[k].0 as usize;
        assert(positions(path@)[k as int] == position as nat);
        assert(common[k as int] == position as nat);
        if position >= nodes.len() {
            assert(!node_key_ok(suite, views, common[k as int], s0, k as nat));
            proof {
                let pth = parent_direct_path_of(
                    common_ancestor_of(2 * own_leaf@, 2 * signer@),
                    leaf_count_of(views.len()),
                );
                assert(pth == common);
                let kk: int = k as int;
                    assert(common[kk] == common[k as int]);
                    assert(!node_key_ok(suite, views, pth[kk], s0, kk as nat));
                lemma_path_keys_invalid(suite, views, own_leaf@, signer@, s0, kk);
            }
            return Err(WelcomeError::InvalidRatchetTree);
        }
        assert(views[position as int] == crate::tree::slot_view(nodes@[position as int]));
        assert(slot_at(views, position as nat) == views[position as int]);
        let ghost before = keys@;
        match &nodes[position] {
            Some(Node::Parent(p)) => {
                assert(node_secret.value@ == derive_secret_of(
                    suite,
                    path_secret_at(suite, s0, k as nat),
                    node_label(),
                ));
                assert(slot_at(views, position as nat) == Some(NodeModel::Parent(p@)));
                if !equal_ct(p.public_key.as_slice(), public_key.as_slice()) {
                    assert(!node_key_ok(suite, views, common[k as int], s0, k as nat));
                    proof {
                    let pth = parent_direct_path_of(
                        common_ancestor_of(2 * own_leaf@, 2 * signer@),
                        leaf_count_of(views.len()),
                    );
                    assert(pth == common);
                    let kk: int = k as int;
                    assert(common[kk] == common[k as int]);
                    assert(!node_key_ok(suite, views, pth[kk], s0, kk as nat));
                    lemma_path_keys_invalid(suite, views, own_leaf@, signer@, s0, kk);
                }
                    return Err(WelcomeError::InvalidRatchetTree);
                }
                assert(node_key_ok(suite, views, common[k as int], s0, k as nat));
                keys.push(PathKey { node: path[k], private_key });
                proof {
                    let taken1 = common.take(k + 1);
                    assert(taken1 =~= common.take(k as int).push(common[k as int]));
                    assert forall|j: int| 0 <= j < keys@.len() implies key_matches(
                        suite,
                        views,
                        taken1[j],
                        s0,
                        j as nat,
                        #[trigger] keys@[j],
                    ) by {
                        if j < k {
                            assert(keys@[j] == before[j]);
                            assert(key_matches(suite, views, common.take(k as int)[j], s0, j as nat, before[j]));
                            assert(taken1[j] == common.take(k as int)[j]);
                        } else {
                            assert(taken1[j] == common[k as int]);
                            assert(keys@[j].node@ == position as nat);
                            assert(node_secret.value@ == derive_secret_of(
                                suite,
                                path_secret_at(suite, s0, k as nat),
                                node_label(),
                            ));
                            assert(keys@[j].private_key@ == node_key_pair(suite, s0, k as nat).0);
                            assert(slot_at(views, position as nat) == Some(
                                NodeModel::Parent(p@),
                            ));
                            assert(p@.public_key == public_key@);
                        }
                    }
                    assert(keys@.len() == taken1.len());
                    assert(path_keys_match(suite, views, taken1, s0, keys@));
                }
            },
            _ => {
                assert(parent_content(slot_at(views, position as nat)) is None);
                assert(!node_key_ok(suite, views, common[k as int], s0, k as nat));
                proof {
                    let pth = parent_direct_path_of(
                        common_ancestor_of(2 * own_leaf@, 2 * signer@),
                        leaf_count_of(views.len()),
                    );
                    assert(pth == common);
                    let kk: int = k as int;
                    assert(common[kk] == common[k as int]);
                    assert(!node_key_ok(suite, views, pth[kk], s0, kk as nat));
                    lemma_path_keys_invalid(suite, views, own_leaf@, signer@, s0, kk);
                }
                return Err(WelcomeError::InvalidRatchetTree);
            },
        }
        secret = match secret.derive_secret(backend, path_label_bytes().as_slice()) {
            Ok(s) => s,
            Err(_) => {
                return Err(WelcomeError::InvalidRatchetTree);
            },
        };
        k = k + 1;
    }
    proof {
        assert(common.take(k as int) =~= common);
    }
    Ok(keys)
}

impl MlsGroup {
    /// The encrypted group secrets addressed to a key package: the first
    /// whose key package hash is the hash of the key package.
    pub fn find_key_package_from_welcome_secrets<'a>(
        key_package: &KeyPackage,
        welcome_secrets: &'a [EncryptedGroupSecrets],
        backend: &OpenMlsRustCrypto,
    ) -> (r: Option<&'a EncryptedGroupSecrets>)
        ensures
            r is Some <==> addressed_to(welcome_secrets@, key_package@),
            r is Some <==> addressed_secrets(welcome_secrets@, key_package@) is Some,
            r is Some ==> *r->Some_0 == addressed_secrets(welcome_secrets@, key_package@)->Some_0,
    {
        let h = match key_package_hash(backend, key_package) {
            Some(h) => h,
            None => {
                return None;
            },
        };
        let ghost secrets = welcome_secrets@;
        let mut i: usize = 0;
        proof {
            lemma_first_addressed(secrets, h@, 0);
        }
        while i < welcome_secrets.len()
            invariant
                i <= welcome_secrets@.len(),
                secrets == welcome_secrets@,
                h@ == key_package_hash_of(key_package@)->Some_0,
                key_package_hash_of(key_package@) is Some,
                forall|j: int| 0 <= j < i ==> welcome_secrets@[j].key_package_hash@ != h@,
                first_addressed(secrets, h@, 0) == first_addressed(secrets, h@, i as int),
            decreases welcome_secrets@.len() - i,
        {
            if equal_ct(h.as_slice(), welcome_secrets[i].key_package_hash.as_slice()) {
                return Some(&welcome_secrets[i]);
            }
            i = i + 1;
        }
        proof {
            assert(first_addressed(secrets, h@, i as int) is None);
            if addressed_to(secrets, key_package@) {
                let j = choose|j: int|
                    0 <= j < secrets.len() && #[trigger] secrets[j].key_package_hash@ == h@;
                assert(secrets[j].key_package_hash@ != h@);
            }
        }
        None
    }

    /// The group secrets that a welcome holds for a key package bundle.
    fn open_group_secrets(
        welcome: &Welcome,
        key_package_bundle: &KeyPackageBundle,
        backend: &OpenMlsRustCrypto,
    ) -> (r: Result<GroupSecrets, WelcomeError>)
        ensures
            match secrets_stage(*welcome, *key_package_bundle) {
                Err(e) => r == Err::<GroupSecrets, WelcomeError>(e),
                Ok(gs) => r is Ok && r->Ok_0@ == gs && r->Ok_0.joiner_secret.ciphersuite
                    == welcome.cipher_suite && r->Ok_0.joiner_secret.mls_version == welcome.version
                    && (r->Ok_0.path_secret is Some ==> r->Ok_0.path_secret->Some_0.path_secret.ciphersuite
                    == welcome.cipher_suite),
            },
    {
        let mls_version = *welcome.version();
        let suite = welcome.ciphersuite();
        if !suite.is_supported() {
            return Err(WelcomeError::UnsupportedCiphersuite);
        }
        let egs = match MlsGroup::find_key_package_from_welcome_secrets(
            &key_package_bundle.key_package,
            welcome.secrets(),
            backend,
        ) {
            Some(e) => e,
            None => {
                return Err(WelcomeError::JoinerSecretNotFound);
            },
        };
        if key_package_bundle.key_package.cipher_suite != suite.code() {
            return Err(WelcomeError::CiphersuiteMismatch);
        }
        let empty: Vec<u8> = Vec::new();
        assert(empty@ =~= Seq::<u8>::empty());
        let group_secrets_bytes = match hpke_open(
            backend,
            suite,
            &egs.encrypted_group_secrets,
            key_package_bundle.private_key.as_slice(),
            empty.as_slice(),
            empty.as_slice(),
        ) {
            Ok(b) => b,
            Err(_) => {
                return Err(WelcomeError::GroupSecretsDecryptionFailure);
            },
        };
        assert(group_secrets_bytes@.skip(0) =~= group_secrets_bytes@);
        match GroupSecrets::decode(group_secrets_bytes.as_slice(), 0) {
            Ok((g, _)) => Ok(g.config(suite, mls_version)),
            Err(_) => Err(WelcomeError::MalformedGroupSecrets),
        }
    }

    /// The pre-shared key identifiers of the group secrets that a welcome
    /// holds for a key package bundle: the keys a caller must fetch before
    /// joining.
    pub fn welcome_psk_ids(
        welcome: &Welcome,
        key_package_bundle: &KeyPackageBundle,
        backend: &OpenMlsRustCrypto,
    ) -> (r: Result<Vec<PreSharedKeyId>, WelcomeError>)
        ensures
            match secrets_stage(*welcome, *key_package_bundle) {
                Err(e) => r == Err::<Vec<PreSharedKeyId>, WelcomeError>(e),
                Ok(gs) => r is Ok && psk_views(r->Ok_0@) == gs.psks,
            },
    {
        let gs = MlsGroup::open_group_secrets(welcome, key_package_bundle, backend)?;
        Ok(gs.psks.psks)
    }

    /// The pre-shared key secret of the group secrets and the values handed
    /// in.
    fn psk_for(
        backend: &OpenMlsRustCrypto,
        suite: CiphersuiteName,
        mls_version: ProtocolVersion,
        psks: &PreSharedKeys,
        psk_values: Option<Vec<Vec<u8>>>,
    ) -> (r: Result<Secret, WelcomeError>)
        ensures
            match psk_stage(
                suite,
                GroupSecretsModel { joiner_secret: seq![], path_secret: None, psks: psk_views(psks.psks@) },
                psk_values_view(psk_values),
            ) {
                Err(e) => r == Err::<Secret, WelcomeError>(e),
                Ok(s) => r is Ok && r->Ok_0.value@ == s && r->Ok_0.ciphersuite == suite,
            },
    {
        if psks.psks.len() == 0 {
            let z = Secret::zero(suite, mls_version, suite.hash_length());
            assert(z.value@ =~= zero_secret(suite));
            return Ok(z);
        }
        let values = match psk_values {
            Some(v) => v,
            None => {
                return Err(WelcomeError::PskMissing);
            },
        };
        if values.len() != psks.psks.len() {
            return Err(WelcomeError::PskMissing);
        }
        match psk_secret(backend, suite, mls_version, psks.psks.as_slice(), values.as_slice()) {
            Ok(s) => Ok(s),
            Err(_) => Err(WelcomeError::MalformedGroupSecrets),
        }
    }

    /// Opens the group info of a welcome with the key schedule started from
    /// the joiner secret and the pre-shared key secret.
    fn open_group_info(
        backend: &OpenMlsRustCrypto,
        welcome: &Welcome,
        joiner_secret: Secret,
        psk: Secret,
    ) -> (r: Result<(GroupInfo, KeySchedule), WelcomeError>)
        requires
            joiner_secret.ciphersuite == welcome.cipher_suite,
        ensures
            match info_stage(*welcome, welcome.cipher_suite, joiner_secret.value@, psk.value@) {
                Err(e) => r == Err::<(GroupInfo, KeySchedule), WelcomeError>(e),
                Ok((p, sig)) => r is Ok && r->Ok_0.0.payload@ == p && r->Ok_0.0.signature@ == sig
                    && r->Ok_0.1.wf() && r->Ok_0.1.state == ScheduleState::Initial
                    && r->Ok_0.1.ciphersuite == welcome.cipher_suite && r->Ok_0.1.joiner@
                    == joiner_secret.value@ && r->Ok_0.1.psk@ == psk.value@,
            },
    {
        let suite = welcome.ciphersuite();
        let key_schedule = KeySchedule::init(backend, joiner_secret, psk);
        let welcome_secret = match key_schedule.welcome(backend) {
            Ok(s) => s,
            Err(_) => {
                return Err(WelcomeError::KeyScheduleFailure);
            },
        };
        let (welcome_key, welcome_nonce) = derive_welcome_key_nonce(backend, &welcome_secret);
        let empty: Vec<u8> = Vec::new();
        assert(empty@ =~= Seq::<u8>::empty());
        let group_info_bytes = match aead_decrypt(
            backend,
            suite.aead(),
            welcome_key.value.as_slice(),
            welcome.encrypted_group_info(),
            welcome_nonce.value.as_slice(),
            empty.as_slice(),
        ) {
            Ok(b) => b,
            Err(_) => {
                return Err(WelcomeError::GroupInfoDecryptionFailure);
            },
        };
        assert(group_info_bytes@.skip(0) =~= group_info_bytes@);
        match GroupInfo::decode(group_info_bytes.as_slice(), 0) {
            Ok((g, _)) => Ok((g, key_schedule)),
            Err(_) => Err(WelcomeError::MalformedGroupInfo),
        }
    }

    /// Checks the group info against the ratchet tree: tree hash, parent
    /// hashes, the signer's signature, this member's leaf and, with a path
    /// secret, the keys it derives along the path shared with the signer.
    fn check_tree(
        backend: &OpenMlsRustCrypto,
        suite: CiphersuiteName,
        group_info: &GroupInfo,
        nodes: &Vec<Option<Node>>,
        key_package: &KeyPackage,
        path_secret: Option<Secret>,
    ) -> (r: Result<(Vec<u8>, LeafIndex, Vec<PathKey>), WelcomeError>)
        requires
            key_package_ok(key_package@),
            path_secret is Some ==> path_secret->Some_0.ciphersuite == suite,
        ensures
            match checks_error(
                suite,
                group_info.payload@,
                group_info.signature@,
                slot_views(nodes@),
                key_package@,
                secret_value(path_secret),
            ) {
                Some(e) => r == Err::<(Vec<u8>, LeafIndex, Vec<PathKey>), WelcomeError>(e),
                None => r is Ok && {
                    let (th, own, keys) = r->Ok_0;
                    &&& ratchet_tree_hash(suite, slot_views(nodes@)) == Some(th@)
                    &&& th@ == group_info.payload@.tree_hash
                    &&& own@ < leaf_count_of(nodes@.len())
                    &&& first_leaf_from(slot_views(nodes@), key_package@, 0) == Some(own@)
                    &&& leaf_content(slot_at(slot_views(nodes@), 2 * own@)) == Some(key_package@)
                    &&& match secret_value(path_secret) {
                        None => keys@.len() == 0,
                        Some(s0) => path_keys_match(
                            suite,
                            slot_views(nodes@),
                            common_path_of(own@, group_info.payload@.signer_index, leaf_count_of(nodes@.len())),
                            s0,
                            keys@,
                        ),
                    }
                },
            },
    {
        let tree_hash_value = match tree_hash(backend, suite, nodes) {
            Some(h) => h,
            None => {
                return Err(WelcomeError::InvalidRatchetTree);
            },
        };
        if !equal_ct(tree_hash_value.as_slice(), group_info.tree_hash()) {
            return Err(WelcomeError::TreeHashMismatch);
        }
        if !verify_parent_hashes(backend, suite, nodes) {
            return Err(WelcomeError::ParentHashMismatch);
        }
        let signer = match leaf_key_package(nodes, group_info.signer_index()) {
            Some(kp) => kp,
            None => {
                return Err(WelcomeError::MissingKeyPackage);
            },
        };
        let scheme = match SignatureAlgorithm::from_code(signer.credential.signature_scheme) {
            Some(s) => s,
            None => {
                return Err(WelcomeError::InvalidGroupInfoSignature);
            },
        };
        let tbs = match group_info.unsigned_payload() {
            Ok(b) => b,
            Err(_) => {
                return Err(WelcomeError::MalformedGroupInfo);
            },
        };
        if verify_signature(
            backend,
            scheme,
            tbs.as_slice(),
            signer.credential.public_key.as_slice(),
            group_info.signature(),
        ).is_err() {
            return Err(WelcomeError::InvalidGroupInfoSignature);
        }
        let own_leaf = match find_own_leaf(nodes, key_package) {
            Some(l) => l,
            None => {
                return Err(WelcomeError::InvalidRatchetTree);
            },
        };
        let path_keys = match path_secret {
            None => Vec::new(),
            Some(s) => derive_path_keys(
                backend,
                suite,
                nodes,
                own_leaf,
                group_info.signer_index(),
                s,
            )?,
        };
        Ok((tree_hash_value, own_leaf, path_keys))
    }

    /// Joins a group from a welcome message with the key package bundle
    /// that the welcome is addressed to. The ratchet tree comes from the
    /// group info's extension or, without one, from `nodes_option`.
    /// `psk_values` are the pre-shared keys for the identifiers that
    /// `welcome_psk_ids` lists, in that order.
    pub fn new_from_welcome_internal(
        welcome: Welcome,
        nodes_option: Option<Vec<Option<Node>>>,
        key_package_bundle: KeyPackageBundle,
        psk_values: Option<Vec<Vec<u8>>>,
        backend: &OpenMlsRustCrypto,
    ) -> (r: Result<MlsGroup, WelcomeError>)
        ensures
            r is Ok <==> join_error(
                welcome,
                option_slots(nodes_option),
                key_package_bundle,
                psk_values_view(psk_values),
            ) is None,
            r is Err ==> r == Err::<MlsGroup, WelcomeError>(
                join_error(
                    welcome,
                    option_slots(nodes_option),
                    key_package_bundle,
                    psk_values_view(psk_values),
                )->Some_0,
            ),
            r is Ok ==> {
                let suite = welcome.cipher_suite;
                let gs = secrets_stage(welcome, key_package_bundle)->Ok_0;
                let psk = psk_stage(suite, gs, psk_values_view(psk_values))->Ok_0;
                let info = info_stage(welcome, suite, gs.joiner_secret, psk)->Ok_0;
                let g = r->Ok_0;
                &&& g.ciphersuite == suite
                &&& g.mls_version == welcome.version
                &&& g.joiner_secret@ == gs.joiner_secret
                &&& g.path_secret@ == gs.path_secret
                &&& g.psk_secret@ == psk
                &&& g.group_info.payload@ == info.0
                &&& g.group_info.signature@ == info.1
                &&& slot_views(g.nodes@) == tree_choice(
                    info.0.other_extensions,
                    option_slots(nodes_option),
                )->Ok_0.0
                &&& g.use_ratchet_tree_extension == tree_choice(
                    info.0.other_extensions,
                    option_slots(nodes_option),
                )->Ok_0.1
                &&& leaf_content(slot_at(slot_views(g.nodes@), 2 * g.own_leaf@)) == Some(
                    key_package_bundle.key_package@,
                )
                &&& joined_consistently(g)
            },
    {
        let mls_version = *welcome.version();
        let suite = welcome.ciphersuite();
        let group_secrets = MlsGroup::open_group_secrets(&welcome, &key_package_bundle, backend)?;
        let ghost joiner = group_secrets.joiner_secret.value@;
        let ghost path_secret_value = path_secret_view(group_secrets.path_secret);
        proof {
            assert(psk_views(group_secrets.psks.psks@) == group_secrets@.psks);
        }
        let psk = MlsGroup::psk_for(backend, suite, mls_version, &group_secrets.psks, psk_values)?;
        let ghost psk_value = psk.value@;
        let (group_info, mut key_schedule) = MlsGroup::open_group_info(
            backend,
            &welcome,
            group_secrets.joiner_secret,
            psk,
        )?;
        let (nodes, use_ratchet_tree_extension) = select_ratchet_tree(
            group_info.other_extensions(),
            nodes_option,
        )?;
        let path_secret = match group_secrets.path_secret {
            None => None,
            Some(p) => Some(p.path_secret),
        };
        assert(secret_value(path_secret) == path_secret_value);
        let (tree_hash_value, own_leaf, path_keys) = MlsGroup::check_tree(
            backend,
            suite,
            &group_info,
            &nodes,
            &key_package_bundle.key_package,
            path_secret,
        )?;
        let group_context = GroupContext {
            group_id: copy_bytes(group_info.group_id()),
            epoch: group_info.epoch(),
            tree_hash: tree_hash_value,
            confirmed_transcript_hash: copy_bytes(group_info.confirmed_transcript_hash()),
            extensions: copy_extensions(group_info.group_context_extensions()),
        };
        let context_bytes = match group_context.encode() {
            Ok(b) => b,
            Err(_) => {
                return Err(WelcomeError::MalformedGroupInfo);
            },
        };
        if context_bytes.len() > 0xffff_ffff {
            return Err(WelcomeError::MalformedGroupInfo);
        }
        if key_schedule.add_context(backend, context_bytes.as_slice()).is_err() {
            return Err(WelcomeError::KeyScheduleFailure);
        }
        let epoch_secrets = match key_schedule.epoch_secrets(backend) {
            Ok(s) => s,
            Err(_) => {
                return Err(WelcomeError::KeyScheduleFailure);
            },
        };
        let confirmation_tag = Mac::new(
            backend,
            &epoch_secrets.confirmation_key,
            group_context.confirmed_transcript_hash.as_slice(),
        );
        if !confirmation_tag.equals(&group_info.payload.confirmation_tag.0) {
            return Err(WelcomeError::ConfirmationTagMismatch);
        }
        let mut auth: Vec<u8> = copy_bytes(group_context.confirmed_transcript_hash.as_slice());
        if encode_vec(VecSize::VecU8, &mut auth, confirmation_tag.mac_value.as_slice()).is_err() {
            return Err(WelcomeError::ConfirmationTagMismatch);
        }
        let interim_transcript_hash = hash(backend, suite.hash(), auth.as_slice());
        Ok(
            MlsGroup {
                ciphersuite: suite,
                mls_version,
                group_context,
                epoch_secrets,
                nodes,
                interim_transcript_hash,
                use_ratchet_tree_extension,
                group_info,
                own_leaf,
                path_keys,
                joiner_secret: Ghost(joiner),
                path_secret: Ghost(path_secret_value),
                psk_secret: Ghost(psk_value),
            },
        )
    }
}

} // verus!
