//! The tree hash of a ratchet tree given as a list of optional nodes, one
//! per position of the flat array.

use vstd::prelude::*;
use openmls_rust_crypto::OpenMlsRustCrypto;
use crate::ciphersuite::{CiphersuiteName, hash_length, suite_hash};
use crate::codec::{
    VecSize, append_bytes, copy_bytes, decode_vec, encode_vec, opaque_bytes, parse_opaque, uint_bytes,
    write_uint,
};
use crate::crypto::{hash, hash_of};
use crate::key_package::{
    ExtensionModel, KeyPackage, KeyPackageModel, extension_views, key_package_bytes, key_package_ok,
};
use crate::secret::equal_ct;
use crate::index::LeafIndex;
use crate::tree::{
    Node, NodeModel, ParentNodeModel, duplicate_slots, leaf_views, parent_node_bytes, parent_node_ok,
    slot_view, slot_views,
};
use crate::treemath::{
    ancestors_from, ancestor_at, depth, leaf_direct_path, leaf_direct_path_of,
    lemma_ancestor_level, positions, MAX_LEAVES, left_of, level, level_u64, left_pos, lemma_left, lemma_root, lemma_right, lemma_depth_small,
    node_width, right_of, right_pos, root_of, shape,
};

verus! {

/// The key package at a leaf position, if the slot holds a leaf.
pub open spec fn leaf_content(s: Option<NodeModel>) -> Option<KeyPackageModel> {
    match s {
        Some(NodeModel::Leaf(kp)) => Some(kp),
        _ => None,
    }
}

/// The parent node at a parent position, if the slot holds a parent.
pub open spec fn parent_content(s: Option<NodeModel>) -> Option<ParentNodeModel> {
    match s {
        Some(NodeModel::Parent(p)) => Some(p),
        _ => None,
    }
}

pub open spec fn slot_at(nodes: Seq<Option<NodeModel>>, x: nat) -> Option<NodeModel> {
    if x < nodes.len() {
        nodes[x as int]
    } else {
        None
    }
}

/// `LeafNodeHashInput`: the node index and the optional key package.
pub open spec fn leaf_hash_input(x: nat, kp: Option<KeyPackageModel>) -> Seq<u8> {
    uint_bytes(x, VecSize::VecU32) + match kp {
        None => seq![0u8],
        Some(k) => seq![1u8] + key_package_bytes(k),
    }
}

/// `ParentNodeHashInput`: the node index, the optional parent node and the
/// hashes of both subtrees.
pub open spec fn parent_hash_input(
    x: nat,
    p: Option<ParentNodeModel>,
    left: Seq<u8>,
    right: Seq<u8>,
) -> Seq<u8> {
    uint_bytes(x, VecSize::VecU32) + match p {
        None => seq![0u8],
        Some(q) => seq![1u8] + parent_node_bytes(q),
    } + opaque_bytes(left, VecSize::VecU8) + opaque_bytes(right, VecSize::VecU8)
}

/// The tree hash of the subtree under `x`; `None` where a node there cannot
/// be encoded.
pub open spec fn tree_hash_at(
    suite: CiphersuiteName,
    nodes: Seq<Option<NodeModel>>,
    x: nat,
    n: nat,
) -> Option<Seq<u8>>
    decreases level(x),
    via tree_hash_decreases
{
    let h = suite_hash(suite);
    if level(x) == 0 {
        match leaf_content(slot_at(nodes, x)) {
            None => Some(hash_of(h, leaf_hash_input(x, None))),
            Some(kp) => if key_package_ok(kp) {
                Some(hash_of(h, leaf_hash_input(x, Some(kp))))
            } else {
                None
            },
        }
    } else {
        match tree_hash_at(suite, nodes, left_of(x), n) {
            None => None,
            Some(l) => match tree_hash_at(suite, nodes, right_of(x, n), n) {
                None => None,
                Some(r) => {
                    let p = parent_content(slot_at(nodes, x));
                    if (p is Some ==> parent_node_ok(p->Some_0)) && l.len() <= 0xff && r.len()
                        <= 0xff {
                        Some(hash_of(h, parent_hash_input(x, p, l, r)))
                    } else {
                        None
                    }
                },
            },
        }
    }
}

#[via_fn]
proof fn tree_hash_decreases(suite: CiphersuiteName, nodes: Seq<Option<NodeModel>>, x: nat, n: nat) {
    if level(x) != 0 {
        lemma_left(x);
        lemma_right(x, n);
    }
}

/// A list of slots is the flat array of some tree when its length is
/// `2n - 1` for `1 <= n <= MAX_LEAVES`.
pub open spec fn tree_width_ok(len: nat) -> bool {
    len % 2 == 1 && (len + 1) / 2 <= MAX_LEAVES
}

/// The tree hash of a ratchet tree: that of the subtree under its root.
pub open spec fn ratchet_tree_hash(suite: CiphersuiteName, nodes: Seq<Option<NodeModel>>) -> Option<
    Seq<u8>,
> {
    if tree_width_ok(nodes.len()) {
        let n = ((nodes.len() + 1) / 2) as nat;
        tree_hash_at(suite, nodes, root_of(n), n)
    } else {
        None
    }
}

fn tree_hash_node(
    backend: &OpenMlsRustCrypto,
    suite: CiphersuiteName,
    nodes: &Vec<Option<Node>>,
    x: u64,
    n: u32,
) -> (r: Option<Vec<u8>>)
    requires
        1 <= n <= MAX_LEAVES,
        nodes@.len() == node_width(n as nat),
        x < node_width(n as nat),
    ensures
        r is Some <==> tree_hash_at(suite, slot_views(nodes@), x as nat, n as nat) is Some,
        r is Some ==> r->Some_0@ == tree_hash_at(suite, slot_views(nodes@), x as nat, n as nat)->Some_0,
        r is Some ==> r->Some_0@.len() == hash_length(suite_hash(suite)),
    decreases level(x as nat),
{
    let ghost views = slot_views(nodes@);
    proof {
        lemma_depth_small(n as nat);
    }
    let mut input: Vec<u8> = Vec::new();
    write_uint(&mut input, x, VecSize::VecU32);
    assert(slot_at(views, x as nat) == views[x as int]);
    if level_u64(x) == 0 {
        match &nodes[x as usize] {
            Some(Node::Leaf(kp)) => {
                let mut body: Vec<u8> = Vec::new();
                if kp.encode(&mut body).is_err() {
                    return None;
                }
                input.push(1u8);
                append_bytes(&mut input, &body);
            },
            _ => {
                input.push(0u8);
            },
        }
        proof {
            assert(input@ =~= leaf_hash_input(x as nat, leaf_content(slot_at(views, x as nat))));
        }
        return Some(hash(backend, suite.hash(), input.as_slice()));
    }
    proof {
        lemma_left(x as nat);
        lemma_right(x as nat, n as nat);
    }
    let l = left_pos(x);
    let r = right_pos(x, n);
    let lh = tree_hash_node(backend, suite, nodes, l, n)?;
    let rh = tree_hash_node(backend, suite, nodes, r, n)?;
    match &nodes[x as usize] {
        Some(Node::Parent(p)) => {
            let mut body: Vec<u8> = Vec::new();
            if p.encode(&mut body).is_err() {
                return None;
            }
            input.push(1u8);
            append_bytes(&mut input, &body);
        },
        _ => {
            input.push(0u8);
        },
    }
    let e1 = encode_vec(VecSize::VecU8, &mut input, lh.as_slice());
    let e2 = encode_vec(VecSize::VecU8, &mut input, rh.as_slice());
    proof {
        assert(input@ =~= parent_hash_input(
            x as nat,
            parent_content(slot_at(views, x as nat)),
            lh@,
            rh@,
        ));
    }
    Some(hash(backend, suite.hash(), input.as_slice()))
}

/// The tree hash of a ratchet tree; `None` where the list is not the flat
/// array of a tree or a node cannot be encoded.
pub fn tree_hash(backend: &OpenMlsRustCrypto, suite: CiphersuiteName, nodes: &Vec<Option<Node>>) -> (r:
    Option<Vec<u8>>)
    ensures
        r is Some <==> ratchet_tree_hash(suite, slot_views(nodes@)) is Some,
        r is Some ==> r->Some_0@ == ratchet_tree_hash(suite, slot_views(nodes@))->Some_0,
        r is Some ==> r->Some_0@.len() == hash_length(suite_hash(suite)),
{
    let len = nodes.len();
    if len % 2 != 1 || len / 2 + 1 > MAX_LEAVES as usize {
        return None;
    }
    let n = (len / 2 + 1) as u32;
    let (w, d, rt) = shape(n);
    proof {
        lemma_root(n as nat);
    }
    tree_hash_node(backend, suite, nodes, rt, n)
}

/// The key package in the slot of a leaf, if it holds one.
pub fn leaf_key_package(nodes: &Vec<Option<Node>>, leaf: LeafIndex) -> (r: Option<&KeyPackage>)
    ensures
        r is Some <==> 2 * leaf@ < nodes@.len() && leaf_content(slot_at(slot_views(nodes@), 2 * leaf@)) is Some,
        r is Some ==> r->Some_0@ == leaf_content(slot_at(slot_views(nodes@), 2 * leaf@))->Some_0,
{
    let i = 2 * leaf.0 as u64;
    if i >= nodes.len() as u64 {
        return None;
    }
    assert(slot_views(nodes@)[i as int] == crate::tree::slot_view(nodes@[i as int]));
    match &nodes[i as usize] {
        Some(Node::Leaf(kp)) => Some(kp),
        _ => None,
    }
}

// ---------------------------------------------------------------------------
// Parent hashes
// ---------------------------------------------------------------------------

/// The extension type of a leaf's parent hash.
pub const PARENT_HASH_EXTENSION: u16 = 4;

/// The parent hash that the first parent hash extension holds, if any.
pub open spec fn leaf_parent_hash(exts: Seq<ExtensionModel>) -> Option<Seq<u8>>
    decreases exts.len(),
{
    if exts.len() == 0 {
        None
    } else if exts[0].extension_type == PARENT_HASH_EXTENSION {
        match parse_opaque(exts[0].extension_data, VecSize::VecU8) {
            None => None,
            Some((v, k)) => Some(v),
        }
    } else {
        leaf_parent_hash(exts.skip(1))
    }
}

/// The parent hash a node carries: a parent's field, or a leaf's extension.
pub open spec fn parent_hash_field(s: Option<NodeModel>) -> Option<Seq<u8>> {
    match s {
        Some(NodeModel::Parent(p)) => Some(p.parent_hash),
        Some(NodeModel::Leaf(kp)) => leaf_parent_hash(kp.extensions),
        None => None,
    }
}

/// `ParentHashInput`: the parent's public key and parent hash, and the tree
/// hash of the sibling of the child that names the parent.
pub open spec fn parent_hash_input_bytes(
    public_key: Seq<u8>,
    parent_hash: Seq<u8>,
    sibling_hash: Seq<u8>,
) -> Seq<u8> {
    opaque_bytes(public_key, VecSize::VecU16) + opaque_bytes(parent_hash, VecSize::VecU8)
        + opaque_bytes(sibling_hash, VecSize::VecU8)
}

/// The parent hash of the parent at `x` as the child whose sibling is at
/// `sibling` sees it.
pub open spec fn expected_parent_hash(
    suite: CiphersuiteName,
    nodes: Seq<Option<NodeModel>>,
    x: nat,
    n: nat,
    sibling: nat,
) -> Option<Seq<u8>> {
    match parent_content(slot_at(nodes, x)) {
        None => None,
        Some(p) => match tree_hash_at(suite, nodes, sibling, n) {
            None => None,
            Some(th) => if p.public_key.len() <= 0xffff && p.parent_hash.len() <= 0xff && th.len()
                <= 0xff {
                Some(hash_of(suite_hash(suite), parent_hash_input_bytes(p.public_key, p.parent_hash, th)))
            } else {
                None
            },
        },
    }
}

/// A parent is parent-hash valid where one of its children carries the
/// parent hash computed against that child's sibling.
pub open spec fn parent_hash_valid(suite: CiphersuiteName, nodes: Seq<Option<NodeModel>>, x: nat, n: nat) -> bool {
    let l = left_of(x);
    let r = right_of(x, n);
    ||| (expected_parent_hash(suite, nodes, x, n, r) is Some && parent_hash_field(slot_at(nodes, l))
        == expected_parent_hash(suite, nodes, x, n, r))
    ||| (expected_parent_hash(suite, nodes, x, n, l) is Some && parent_hash_field(slot_at(nodes, r))
        == expected_parent_hash(suite, nodes, x, n, l))
}

/// Every parent that is not blank is parent-hash valid.
pub open spec fn parent_hashes_valid(suite: CiphersuiteName, nodes: Seq<Option<NodeModel>>) -> bool {
    let n = leaf_count_of(nodes.len());
    forall|x: nat|
        x < nodes.len() && x % 2 == 1 && parent_content(#[trigger] slot_at(nodes, x)) is Some
            ==> parent_hash_valid(suite, nodes, x, n)
}

/// The parent hash a slot carries.
fn slot_parent_hash(s: &Option<Node>) -> (r: Option<Vec<u8>>)
    ensures
        match parent_hash_field(slot_view(*s)) {
            None => r is None,
            Some(v) => r is Some && r->Some_0@ == v,
        },
{
    match s {
        Some(Node::Parent(p)) => Some(copy_bytes(p.parent_hash.as_slice())),
        Some(Node::Leaf(kp)) => {
            let ghost views = extension_views(kp.extensions@);
            let mut i: usize = 0;
            assert(views.skip(0) =~= views);
            while i < kp.extensions.len()
                invariant
                    i <= kp.extensions@.len(),
                    views == extension_views(kp.extensions@),
                    parent_hash_field(slot_view(*s)) == leaf_parent_hash(views),
                    leaf_parent_hash(views) == leaf_parent_hash(views.skip(i as int)),
                decreases kp.extensions@.len() - i,
            {
                proof {
                    assert(views.skip(i as int).skip(1) =~= views.skip(i + 1));
                    assert(views.skip(i as int)[0] == kp.extensions@[i as int]@);
                }
                if kp.extensions[i].extension_type == PARENT_HASH_EXTENSION {
                    let data = kp.extensions[i].extension_data.as_slice();
                    assert(data@.skip(0) =~= data@);
                    assert(views.skip(i as int)[0].extension_data == data@);
                    assert(views.skip(i as int).len() > 0);
                    return match decode_vec(VecSize::VecU8, data, 0) {
                        Ok((v, _)) => Some(v),
                        Err(_) => None,
                    };
                }
                i = i + 1;
            }
            None
        },
        None => None,
    }
}

/// The parent hash of the parent at `x` against the sibling at `sibling`.
fn expected_parent_hash_exec(
    backend: &OpenMlsRustCrypto,
    suite: CiphersuiteName,
    nodes: &Vec<Option<Node>>,
    x: u64,
    n: u32,
    sibling: u64,
) -> (r: Option<Vec<u8>>)
    requires
        1 <= n <= MAX_LEAVES,
        nodes@.len() == node_width(n as nat),
        x < node_width(n as nat),
        sibling < node_width(n as nat),
    ensures
        match expected_parent_hash(suite, slot_views(nodes@), x as nat, n as nat, sibling as nat) {
            None => r is None,
            Some(v) => r is Some && r->Some_0@ == v,
        },
{
    let ghost views = slot_views(nodes@);
    assert(views[x as int] == slot_view(nodes@[x as int]));
    assert(slot_at(views, x as nat) == views[x as int]);
    match &nodes[x as usize] {
        Some(Node::Parent(p)) => {
            let th = tree_hash_node(backend, suite, nodes, sibling, n)?;
            if p.public_key.len() > 0xffff || p.parent_hash.len() > 0xff || th.len() > 0xff {
                return None;
            }
            let mut input: Vec<u8> = Vec::new();
            let e1 = encode_vec(VecSize::VecU16, &mut input, p.public_key.as_slice());
            let e2 = encode_vec(VecSize::VecU8, &mut input, p.parent_hash.as_slice());
            let e3 = encode_vec(VecSize::VecU8, &mut input, th.as_slice());
            proof {
                assert(input@ =~= parent_hash_input_bytes(p.public_key@, p.parent_hash@, th@));
            }
            Some(hash(backend, suite.hash(), input.as_slice()))
        },
        _ => None,
    }
}

/// Whether the slots form a tree whose parents that are not blank are all
/// parent-hash valid.
pub fn verify_parent_hashes(
    backend: &OpenMlsRustCrypto,
    suite: CiphersuiteName,
    nodes: &Vec<Option<Node>>,
) -> (r: bool)
    ensures
        r == (tree_width_ok(nodes@.len()) && parent_hashes_valid(suite, slot_views(nodes@))),
{
    let ghost views = slot_views(nodes@);
    let len = nodes.len();
    if len % 2 != 1 || len / 2 + 1 > MAX_LEAVES as usize {
        return false;
    }
    let n = (len / 2 + 1) as u32;
    let (w, d, rt) = shape(n);
    proof {
        lemma_depth_small(n as nat);
    }
    let mut x: u64 = 1;
    while x < w
        invariant
            w == node_width(n as nat),
            w == nodes@.len(),
            1 <= n <= MAX_LEAVES,
            w < 0x1_0000_0000,
            x % 2 == 1,
            views == slot_views(nodes@),
            n == leaf_count_of(nodes@.len()),
            forall|y: nat|
                y < x && y < nodes@.len() && y % 2 == 1 && parent_content(#[trigger] slot_at(views, y))
                    is Some ==> parent_hash_valid(suite, views, y, n as nat),
        decreases w + 1 - x,
    {
        assert(views[x as int] == slot_view(nodes@[x as int]));
        assert(slot_at(views, x as nat) == views[x as int]);
        assert(level(x as nat) >= 1);
        let is_parent = match &nodes[x as usize] {
            Some(Node::Parent(_)) => true,
            _ => false,
        };
        if is_parent {
            proof {
                lemma_left(x as nat);
                lemma_right(x as nat, n as nat);
            }
            let l = left_pos(x);
            let r = right_pos(x, n);
            assert(views[l as int] == slot_view(nodes@[l as int]));
            assert(slot_at(views, l as nat) == views[l as int]);
            assert(views[r as int] == slot_view(nodes@[r as int]));
            assert(slot_at(views, r as nat) == views[r as int]);
            let via_left = match (
                expected_parent_hash_exec(backend, suite, nodes, x, n, r),
                slot_parent_hash(&nodes[l as usize]),
            ) {
                (Some(e), Some(f)) => equal_ct(e.as_slice(), f.as_slice()),
                _ => false,
            };
            let via_right = match (
                expected_parent_hash_exec(backend, suite, nodes, x, n, l),
                slot_parent_hash(&nodes[r as usize]),
            ) {
                (Some(e), Some(f)) => equal_ct(e.as_slice(), f.as_slice()),
                _ => false,
            };
            if !via_left && !via_right {
                return false;
            }
        }
        x = x + 2;
    }
    true
}

// ---------------------------------------------------------------------------
// Mutations
// ---------------------------------------------------------------------------

/// Failures of tree mutations.
#[derive(Clone, Copy, Debug, PartialEq, Eq, Structural)]
pub enum TreeError {
    LeafNotInTree,
    SelfRemoval,
    TreeFull,
}

/// The first blank leaf from leaf `l` on, or the leaf count where there is
/// none.
pub open spec fn free_leaf_from(nodes: Seq<Option<NodeModel>>, l: nat) -> nat
    decreases leaf_count_of(nodes.len()) - l,
{
    if l >= leaf_count_of(nodes.len()) || slot_at(nodes, 2 * l) is None {
        l
    } else {
        free_leaf_from(nodes, l + 1)
    }
}

/// The parent's slot with one more unmerged leaf; other slots as they are.
pub open spec fn with_unmerged(s: Option<NodeModel>, leaf: nat) -> Option<NodeModel> {
    match s {
        Some(NodeModel::Parent(p)) => Some(
            NodeModel::Parent(
                ParentNodeModel {
                    public_key: p.public_key,
                    unmerged_leaves: p.unmerged_leaves.push(leaf),
                    parent_hash: p.parent_hash,
                },
            ),
        ),
        other => other,
    }
}

/// The leaf count after adding at leaf `l`: one more where `l` is past the
/// end.
pub open spec fn grown_count(nodes: Seq<Option<NodeModel>>, l: nat) -> nat {
    if l < leaf_count_of(nodes.len()) {
        leaf_count_of(nodes.len())
    } else {
        leaf_count_of(nodes.len()) + 1
    }
}

/// Adding the key packages one after the other: the slots and the leaves
/// they went to; `None` where the tree fills up on the way.
pub open spec fn added_all(nodes: Seq<Option<NodeModel>>, kps: Seq<KeyPackageModel>) -> Option<
    (Seq<Option<NodeModel>>, Seq<nat>),
>
    decreases kps.len(),
{
    if kps.len() == 0 {
        Some((nodes, seq![]))
    } else {
        match added_all(nodes, kps.drop_last()) {
            None => None,
            Some((prev, leaves)) => {
                let l = free_leaf_from(prev, 0);
                if l >= MAX_LEAVES {
                    None
                } else {
                    Some((added(prev, kps.last(), l, grown_count(prev, l)), leaves.push(l)))
                }
            },
        }
    }
}

/// Once adding a prefix fails, adding the whole list fails.
proof fn lemma_added_all_stops(nodes: Seq<Option<NodeModel>>, kps: Seq<KeyPackageModel>, k: nat)
    requires
        k <= kps.len(),
        added_all(nodes, kps.take(k as int)) is None,
    ensures
        added_all(nodes, kps) is None,
    decreases kps.len() - k,
{
    if k == kps.len() {
        assert(kps.take(k as int) =~= kps);
    } else {
        assert(kps.take((k + 1) as int).drop_last() =~= kps.take(k as int));
        lemma_added_all_stops(nodes, kps, k + 1);
    }
}

pub open spec fn key_package_views(v: Seq<KeyPackage>) -> Seq<KeyPackageModel> {
    v.map_values(|k: KeyPackage| k@)
}

proof fn lemma_free_leaf(nodes: Seq<Option<NodeModel>>, l: nat)
    requires
        l <= leaf_count_of(nodes.len()),
    ensures
        l <= free_leaf_from(nodes, l) <= leaf_count_of(nodes.len()),
        free_leaf_from(nodes, l) < leaf_count_of(nodes.len()) ==> slot_at(
            nodes,
            2 * free_leaf_from(nodes, l),
        ) is None,
    decreases leaf_count_of(nodes.len()) - l,
{
    if l < leaf_count_of(nodes.len()) && slot_at(nodes, 2 * l) is Some {
        lemma_free_leaf(nodes, l + 1);
    }
}

/// The slots after putting a key package at leaf `l` of a tree of `n`
/// leaves (grown by one leaf where `l` is past its end) and recording `l`
/// as unmerged at every parent on its direct path.
pub open spec fn added(
    old: Seq<Option<NodeModel>>,
    kp: KeyPackageModel,
    l: nat,
    n: nat,
) -> Seq<Option<NodeModel>> {
    let len = node_width(n);
    let path = leaf_direct_path_of(l, n);
    Seq::new(
        len,
        |i: int|
            if i == 2 * l {
                Some(NodeModel::Leaf(kp))
            } else if path.contains(i as nat) {
                with_unmerged(slot_at(old, i as nat), l)
            } else {
                slot_at(old, i as nat)
            },
    )
}

/// A ratchet tree as this member holds it: the flat array of optional
/// nodes and the member's own leaf.
pub struct RatchetTree {
    pub nodes: Vec<Option<Node>>,
    pub own_leaf: LeafIndex,
}

/// Number of leaves of a flat array of `len` nodes.
pub open spec fn leaf_count_of(len: nat) -> nat {
    (len + 1) / 2
}

/// The slots after blanking the positions in `path` and, where `leaf` is
/// given, putting it at position `at`.
pub open spec fn blanked(
    old: Seq<Option<NodeModel>>,
    path: Seq<nat>,
    at: nat,
    leaf: Option<NodeModel>,
) -> Seq<Option<NodeModel>> {
    Seq::new(
        old.len(),
        |i: int|
            if leaf is Some && i == at {
                leaf
            } else if path.contains(i as nat) {
                None
            } else {
                old[i]
            },
    )
}

/// The slot that holds a key package as a leaf, if one is given.
pub open spec fn leaf_slot(key_package: Option<KeyPackage>) -> Option<NodeModel> {
    match key_package {
        None => None,
        Some(kp) => Some(NodeModel::Leaf(kp@)),
    }
}

proof fn lemma_ancestors_levels(x: nat, k: nat, n: nat)
    ensures
        forall|j: int|
            0 <= j < ancestors_from(x, k, n).len() ==> level(#[trigger] ancestors_from(x, k, n)[j])
                >= k && ancestors_from(x, k, n)[j] < node_width(n),
    decreases depth(n) + 1 - k,
{
    if k <= depth(n) {
        lemma_ancestors_levels(x, k + 1, n);
        lemma_ancestor_level(x, k);
        let s = ancestors_from(x, k, n);
        let t = ancestors_from(x, k + 1, n);
        if ancestor_at(x, k) < node_width(n) {
            assert forall|j: int| 0 <= j < s.len() implies level(#[trigger] s[j]) >= k && s[j]
                < node_width(n) by {
                if j > 0 {
                    assert(s[j] == t[j - 1]);
                }
            }
        } else {
            assert forall|j: int| 0 <= j < s.len() implies level(#[trigger] s[j]) >= k && s[j]
                < node_width(n) by {
                assert(s[j] == t[j]);
            }
        }
    }
}

proof fn lemma_ancestors_distinct(x: nat, k: nat, n: nat)
    ensures
        forall|a: int, b: int|
            0 <= a < b < ancestors_from(x, k, n).len() ==> ancestors_from(x, k, n)[a]
                != ancestors_from(x, k, n)[b],
    decreases depth(n) + 1 - k,
{
    if k <= depth(n) {
        lemma_ancestors_distinct(x, k + 1, n);
        lemma_ancestors_levels(x, k + 1, n);
        lemma_ancestor_level(x, k);
        let s = ancestors_from(x, k, n);
        let t = ancestors_from(x, k + 1, n);
        if ancestor_at(x, k) < node_width(n) {
            assert forall|a: int, b: int| 0 <= a < b < s.len() implies s[a] != s[b] by {
                assert(s[b] == t[b - 1]);
                if a > 0 {
                    assert(s[a] == t[a - 1]);
                } else {
                    assert(level(t[b - 1]) >= k + 1);
                }
            }
        } else {
            assert(s == t);
        }
    }
}

impl RatchetTree {
    pub open spec fn wf(&self) -> bool {
        &&& tree_width_ok(self.nodes@.len())
        &&& self.own_leaf@ < leaf_count_of(self.nodes@.len())
        &&& leaf_content(slot_at(slot_views(self.nodes@), 2 * self.own_leaf@)) is Some
    }

    pub open spec fn view_nodes(&self) -> Seq<Option<NodeModel>> {
        slot_views(self.nodes@)
    }

    /// A tree of one leaf: this member's.
    pub fn new(key_package: KeyPackage) -> (r: RatchetTree)
        ensures
            r.wf(),
            r.own_leaf@ == 0,
            r.view_nodes() == seq![Some(NodeModel::Leaf(key_package@))],
    {
        let mut nodes: Vec<Option<Node>> = Vec::new();
        nodes.push(Some(Node::Leaf(key_package)));
        let r = RatchetTree { nodes, own_leaf: LeafIndex(0) };
        proof {
            assert(r.view_nodes() =~= seq![Some(NodeModel::Leaf(key_package@))]);
        }
        r
    }

    pub fn leaf_count(&self) -> (r: LeafIndex)
        requires
            self.wf(),
        ensures
            r@ == leaf_count_of(self.nodes@.len()),
    {
        LeafIndex((self.nodes.len() / 2 + 1) as u32)
    }

    /// Blanks the positions of a leaf's direct path, then, where a key
    /// package is given, puts it at the leaf.
    fn blank_path(&mut self, leaf: LeafIndex, key_package: Option<KeyPackage>)
        requires
            old(self).wf(),
            leaf@ < leaf_count_of(old(self).nodes@.len()),
            key_package is None ==> leaf@ != old(self).own_leaf@,
        ensures
            final(self).wf(),
            final(self).own_leaf == old(self).own_leaf,
            final(self).view_nodes() == blanked(
                old(self).view_nodes(),
                leaf_direct_path_of(leaf@, leaf_count_of(old(self).nodes@.len())),
                2 * leaf@,
                leaf_slot(key_package),
            ),
    {
        let ghost old_nodes = self.view_nodes();
        let n = self.leaf_count();
        let ghost path = leaf_direct_path_of(leaf@, n@);
        let ghost leaf_model = leaf_slot(key_package);
        proof {
            lemma_depth_small(n@);
            if n@ > 1 {
                lemma_ancestors_levels(2 * leaf@, 1, n@);
            }
        }
        let path_nodes = match leaf_direct_path(leaf, n) {
            Ok(p) => p,
            Err(_) => Vec::new(),
        };
        let mut k: usize = 0;
        while k < path_nodes.len()
            invariant
                k <= path_nodes@.len(),
                positions(path_nodes@) == path,
                self.nodes@.len() == old_nodes.len(),
                self.own_leaf == old(self).own_leaf,
                n@ == leaf_count_of(old_nodes.len()),
                tree_width_ok(old_nodes.len()),
                forall|j: int| 0 <= j < path.len() ==> #[trigger] path[j] < old_nodes.len(),
                forall|i: int|
                    0 <= i < old_nodes.len() ==> slot_view(#[trigger] self.nodes@[i]) == if positions(
                        path_nodes@,
                    ).take(k as int).contains(i as nat) {
                        None
                    } else {
                        old_nodes[i]
                    },
            decreases path_nodes@.len() - k,
        {
            let p = path_nodes[k].0 as usize;
            assert(positions(path_nodes@)[k as int] == p as nat);
            let ghost before = self.nodes@;
            self.nodes.set(p, None);
            proof {
                let taken = positions(path_nodes@).take(k as int);
                let taken1 = positions(path_nodes@).take(k + 1);
                assert(taken1 =~= taken.push(p as nat));
                assert forall|i: int| 0 <= i < old_nodes.len() implies slot_view(
                    #[trigger] self.nodes@[i],
                ) == if taken1.contains(i as nat) {
                    None
                } else {
                    old_nodes[i]
                } by {
                    if i != p {
                        assert(self.nodes@[i] == before[i]);
                        if taken1.contains(i as nat) {
                            let j = choose|j: int| 0 <= j < taken1.len() && taken1[j] == i as nat;
                            assert(j < k);
                            assert(taken[j] == i as nat);
                        }
                        if taken.contains(i as nat) {
                            let j = choose|j: int| 0 <= j < taken.len() && taken[j] == i as nat;
                            assert(taken1[j] == i as nat);
                        }
                    } else {
                        assert(taken1[k as int] == p as nat);
                    }
                }
            }
            k = k + 1;
        }
        proof {
            assert(positions(path_nodes@).take(k as int) =~= path);
        }
        let ghost mid = self.nodes@;
        match key_package {
            Some(kp) => {
                let at = 2 * leaf.0 as usize;
                self.nodes.set(at, Some(Node::Leaf(kp)));
            },
            None => {},
        }
        proof {
            let own = 2 * self.own_leaf@;
            assert(level(own) == 0);
            if n@ > 1 {
                if path.contains(own) {
                    let j = choose|j: int| 0 <= j < path.len() && path[j] == own;
                    assert(level(path[j]) >= 1);
                }
            } else {
                assert(self.own_leaf@ == 0);
                assert(leaf@ == 0);
            }
            assert forall|i: int| 0 <= i < old_nodes.len() implies #[trigger] self.view_nodes()[i]
                == blanked(old_nodes, path, 2 * leaf@, leaf_model)[i] by {
                if !(leaf_model is Some && i == 2 * leaf@) {
                    assert(self.nodes@[i] == mid[i]);
                }
            }
            assert(self.view_nodes() =~= blanked(old_nodes, path, 2 * leaf@, leaf_model));
        }
    }

    /// The first blank leaf, or the leaf count where there is none.
    fn free_leaf(&self) -> (r: u32)
        requires
            self.wf(),
        ensures
            r == free_leaf_from(self.view_nodes(), 0),
            r <= leaf_count_of(self.nodes@.len()),
    {
        let ghost views = self.view_nodes();
        let n = self.leaf_count().0;
        let mut l: u32 = 0;
        while l < n
            invariant
                n == leaf_count_of(self.nodes@.len()),
                tree_width_ok(self.nodes@.len()),
                l <= n,
                views == self.view_nodes(),
                free_leaf_from(views, 0) == free_leaf_from(views, l as nat),
            decreases n - l,
        {
            let i = 2 * l as usize;
            assert(views[i as int] == crate::tree::slot_view(self.nodes@[i as int]));
            if self.nodes[i].is_none() {
                return l;
            }
            l = l + 1;
        }
        l
    }

    /// Adds a member at the first blank leaf, or at a new leaf past the end,
    /// and records it as unmerged at every parent on its direct path. The
    /// tree is left as it was where the addition fails.
    pub fn add_leaf(&mut self, key_package: KeyPackage) -> (r: Result<LeafIndex, TreeError>)
        requires
            old(self).wf(),
        ensures
            final(self).wf(),
            final(self).own_leaf == old(self).own_leaf,
            r is Err ==> *final(self) == *old(self),
            r is Err <==> free_leaf_from(old(self).view_nodes(), 0) >= MAX_LEAVES,
            r is Err ==> r == Err::<LeafIndex, TreeError>(TreeError::TreeFull),
            r is Ok ==> r->Ok_0@ == free_leaf_from(old(self).view_nodes(), 0),
            r is Ok ==> final(self).view_nodes() == added(
                old(self).view_nodes(),
                key_package@,
                r->Ok_0@,
                grown_count(old(self).view_nodes(), r->Ok_0@),
            ),
    {
        let ghost old_nodes = self.view_nodes();
        let l = self.free_leaf();
        if l >= MAX_LEAVES {
            return Err(TreeError::TreeFull);
        }
        proof {
            lemma_free_leaf(old_nodes, 0);
        }
        let n_old = self.leaf_count().0;
        if l == n_old {
            self.nodes.push(None);
            self.nodes.push(None);
        }
        let ghost grown = self.view_nodes();
        let n = self.leaf_count();
        proof {
            assert(n@ == grown_count(old_nodes, l as nat));
            assert forall|i: int| 0 <= i < grown.len() implies #[trigger] grown[i] == slot_at(
                old_nodes,
                i as nat,
            ) by {
                if i < old_nodes.len() {
                    assert(self.nodes@[i] == old(self).nodes@[i]);
                }
            }
            let own = self.own_leaf@;
            assert(slot_at(old_nodes, 2 * own) is Some);
            assert(l != own);
            lemma_depth_small(n@);
            lemma_ancestors_levels(2 * l as nat, 1, n@);
            lemma_ancestors_distinct(2 * l as nat, 1, n@);
        }
        let path_nodes = match leaf_direct_path(LeafIndex(l), n) {
            Ok(p) => p,
            Err(_) => Vec::new(),
        };
        let ghost path = leaf_direct_path_of(l as nat, n@);
        let mut k: usize = 0;
        while k < path_nodes.len()
            invariant
                k <= path_nodes@.len(),
                positions(path_nodes@) == path,
                path == ancestors_from(2 * l as nat, 1, n@),
                self.nodes@.len() == grown.len(),
                grown.len() == node_width(n@),
                self.own_leaf == old(self).own_leaf,
                forall|j: int| 0 <= j < path.len() ==> #[trigger] path[j] < grown.len(),
                forall|a: int, b: int| 0 <= a < b < path.len() ==> path[a] != path[b],
                forall|i: int|
                    0 <= i < grown.len() ==> slot_view(#[trigger] self.nodes@[i]) == if positions(
                        path_nodes@,
                    ).take(k as int).contains(i as nat) {
                        with_unmerged(grown[i], l as nat)
                    } else {
                        grown[i]
                    },
            decreases path_nodes@.len() - k,
        {
            let p = path_nodes[k].0 as usize;
            let ghost taken = positions(path_nodes@).take(k as int);
            let ghost taken1 = positions(path_nodes@).take(k + 1);
            proof {
                assert(positions(path_nodes@)[k as int] == p as nat);
                assert(taken1 =~= taken.push(p as nat));
                if taken.contains(p as nat) {
                    let a = choose|a: int| 0 <= a < taken.len() && taken[a] == p as nat;
                    assert(path[a] == path[k as int]);
                }
                assert(slot_view(self.nodes@[p as int]) == grown[p as int]);
            }
            let ghost before = self.nodes@;
            let replacement = match &self.nodes[p] {
                Some(Node::Parent(parent)) => Some(Node::Parent(parent.with_unmerged_leaf(LeafIndex(l)))),
                _ => None,
            };
            match replacement {
                Some(node) => {
                    self.nodes.set(p, Some(node));
                },
                None => {},
            }
            proof {
                assert forall|i: int| 0 <= i < grown.len() implies slot_view(
                    #[trigger] self.nodes@[i],
                ) == if taken1.contains(i as nat) {
                    with_unmerged(grown[i], l as nat)
                } else {
                    grown[i]
                } by {
                    if i != p {
                        assert(self.nodes@[i] == before[i]);
                        if taken1.contains(i as nat) {
                            let a = choose|a: int| 0 <= a < taken1.len() && taken1[a] == i as nat;
                            assert(taken[a] == i as nat);
                        }
                        if taken.contains(i as nat) {
                            let a = choose|a: int| 0 <= a < taken.len() && taken[a] == i as nat;
                            assert(taken1[a] == i as nat);
                        }
                    } else {
                        assert(taken1[k as int] == p as nat);
                    }
                }
            }
            k = k + 1;
        }
        proof {
            assert(positions(path_nodes@).take(k as int) =~= path);
        }
        let ghost mid = self.nodes@;
        let at = 2 * l as usize;
        self.nodes.set(at, Some(Node::Leaf(key_package)));
        proof {
            let own = 2 * self.own_leaf@;
            assert(level(own) == 0);
            assert(level(2 * l as nat) == 0);
            if path.contains(2 * l as nat) {
                let j = choose|j: int| 0 <= j < path.len() && path[j] == 2 * l as nat;
                assert(level(path[j]) >= 1);
            }
            if path.contains(own) {
                let j = choose|j: int| 0 <= j < path.len() && path[j] == own;
                assert(level(path[j]) >= 1);
            }
            assert(mid[own as int] == self.nodes@[own as int]);
            assert forall|i: int| 0 <= i < grown.len() implies #[trigger] self.view_nodes()[i]
                == added(old_nodes, key_package@, l as nat, n@)[i] by {
                if i != 2 * l {
                    assert(self.nodes@[i] == mid[i]);
                }
            }
            assert(self.view_nodes() =~= added(old_nodes, key_package@, l as nat, n@));
        }
        Ok(LeafIndex(l))
    }

    /// Adds members one after the other as `add_leaf` does, and returns
    /// their leaves. The tree is left as it was where an addition fails.
    pub fn add_nodes(&mut self, key_packages: &[KeyPackage]) -> (r: Result<Vec<LeafIndex>, TreeError>)
        requires
            old(self).wf(),
        ensures
            final(self).wf(),
            final(self).own_leaf == old(self).own_leaf,
            match added_all(old(self).view_nodes(), key_package_views(key_packages@)) {
                None => r == Err::<Vec<LeafIndex>, TreeError>(TreeError::TreeFull)
                    && final(self).view_nodes() == old(self).view_nodes(),
                Some((v, leaves)) => r is Ok && final(self).view_nodes() == v && leaf_views(
                    r->Ok_0@,
                ) == leaves,
            },
    {
        let ghost kps = key_package_views(key_packages@);
        let ghost start = self.view_nodes();
        let saved = duplicate_slots(&self.nodes);
        let mut leaves: Vec<LeafIndex> = Vec::new();
        let mut i: usize = 0;
        proof {
            assert(kps.take(0) =~= Seq::<KeyPackageModel>::empty());
            assert(leaf_views(leaves@) =~= Seq::<nat>::empty());
        }
        while i < key_packages.len()
            invariant
                i <= key_packages@.len(),
                kps == key_package_views(key_packages@),
                self.wf(),
                old(self).wf(),
                self.own_leaf == old(self).own_leaf,
                slot_views(saved@) == start,
                start == old(self).view_nodes(),
                added_all(start, kps.take(i as int)) == Some((self.view_nodes(), leaf_views(leaves@))),
            decreases key_packages@.len() - i,
        {
            let kp = key_packages[i].duplicate();
            proof {
                assert(kps.take(i + 1).drop_last() =~= kps.take(i as int));
                assert(kps.take(i + 1).last() == kps[i as int]);
            }
            match self.add_leaf(kp) {
                Ok(l) => {
                    let ghost before = leaves@;
                    leaves.push(l);
                    proof {
                        assert(leaf_views(leaves@) =~= leaf_views(before).push(l@));
                    }
                },
                Err(e) => {
                    self.nodes = saved;
                    proof {
                        assert(slot_views(self.nodes@).len() == self.nodes@.len());
                        assert(slot_views(old(self).nodes@).len() == old(self).nodes@.len());
                        assert(self.view_nodes() == old(self).view_nodes());
                        assert(self.nodes@.len() == old(self).nodes@.len());
                        assert(self.own_leaf == old(self).own_leaf);
                        assert(slot_at(self.view_nodes(), 2 * self.own_leaf@) == slot_at(
                            old(self).view_nodes(),
                            2 * old(self).own_leaf@,
                        ));
                        lemma_added_all_stops(start, kps, (i + 1) as nat);
                    }
                    return Err(e);
                },
            }
            i = i + 1;
        }
        proof {
            assert(kps.take(i as int) =~= kps);
        }
        Ok(leaves)
    }

    /// Removes a member: blanks its leaf and every node of its direct path.
    /// The tree is left as it was where the removal fails.
    pub fn remove(&mut self, leaf: LeafIndex) -> (r: Result<(), TreeError>)
        requires
            old(self).wf(),
        ensures
            final(self).wf(),
            final(self).own_leaf == old(self).own_leaf,
            r is Err ==> *final(self) == *old(self),
            leaf@ >= leaf_count_of(old(self).nodes@.len()) ==> r == Err::<(), TreeError>(
                TreeError::LeafNotInTree,
            ),
            leaf@ < leaf_count_of(old(self).nodes@.len()) && leaf@ == old(self).own_leaf@ ==> r
                == Err::<(), TreeError>(TreeError::SelfRemoval),
            r is Ok ==> final(self).view_nodes() == blanked(
                old(self).view_nodes(),
                leaf_direct_path_of(leaf@, leaf_count_of(old(self).nodes@.len())).push(2 * leaf@),
                0,
                None,
            ),
            r is Ok <==> leaf@ < leaf_count_of(old(self).nodes@.len()) && leaf@ != old(
                self,
            ).own_leaf@,
    {
        let n = self.leaf_count();
        if leaf.0 >= n.0 {
            return Err(TreeError::LeafNotInTree);
        }
        if leaf.0 == self.own_leaf.0 {
            return Err(TreeError::SelfRemoval);
        }
        let ghost old_nodes = self.view_nodes();
        let ghost path = leaf_direct_path_of(leaf@, n@);
        self.blank_path(leaf, None);
        let ghost mid = self.nodes@;
        let ghost after_path = self.view_nodes();
        let at = 2 * leaf.0 as usize;
        self.nodes.set(at, None);
        proof {
            let full = path.push(2 * leaf@);
            assert forall|i: int| 0 <= i < old_nodes.len() implies #[trigger] self.view_nodes()[i]
                == blanked(old_nodes, full, 0, None)[i] by {
                if i == 2 * leaf@ {
                    assert(full[path.len() as int] == 2 * leaf@);
                } else {
                    assert(self.nodes@[i] == mid[i]);
                    assert(after_path[i] == blanked(old_nodes, path, 2 * leaf@, None)[i]);
                    if full.contains(i as nat) {
                        let j = choose|j: int| 0 <= j < full.len() && full[j] == i as nat;
                        assert(path[j] == i as nat);
                    }
                    if path.contains(i as nat) {
                        let j = choose|j: int| 0 <= j < path.len() && path[j] == i as nat;
                        assert(full[j] == i as nat);
                    }
                }
            }
            assert(self.view_nodes() =~= blanked(old_nodes, full, 0, None));
        }
        Ok(())
    }

    /// Replaces a member's key package and blanks its direct path. The tree
    /// is left as it was where the update fails.
    pub fn update(&mut self, leaf: LeafIndex, key_package: KeyPackage) -> (r: Result<(), TreeError>)
        requires
            old(self).wf(),
        ensures
            final(self).wf(),
            final(self).own_leaf == old(self).own_leaf,
            r is Err ==> *final(self) == *old(self),
            r is Ok <==> leaf@ < leaf_count_of(old(self).nodes@.len()),
            r is Err ==> r == Err::<(), TreeError>(TreeError::LeafNotInTree),
            r is Ok ==> final(self).view_nodes() == blanked(
                old(self).view_nodes(),
                leaf_direct_path_of(leaf@, leaf_count_of(old(self).nodes@.len())),
                2 * leaf@,
                Some(NodeModel::Leaf(key_package@)),
            ),
    {
        let n = self.leaf_count();
        if leaf.0 >= n.0 {
            return Err(TreeError::LeafNotInTree);
        }
        self.blank_path(leaf, Some(key_package));
        Ok(())
    }
}

} // verus!
