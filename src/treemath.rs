//! Index arithmetic on a left-balanced binary tree stored as a flat array.
//!
//! A tree of `n` leaves has `2n - 1` nodes. Node `x` lies at level
//! `level(x)`, the number of trailing one bits of `x`: leaves at level 0.
//! Seen inside the complete infinite binary tree over the same positions,
//! the ancestor of `x` at level `k` is `ancestor_at(x, k)`. The tree of `n`
//! leaves keeps the positions below `node_width(n)`; a node's parent is the
//! nearest of its ancestors that is kept.

use vstd::prelude::*;
use vstd::arithmetic::power2::*;
use vstd::arithmetic::div_mod::*;
use vstd::arithmetic::mul::*;
use crate::index::{LeafIndex, NodeIndex};

verus! {

/// Failures of the tree math functions.
#[derive(Clone, Copy, Debug, PartialEq, Eq, Structural)]
pub enum TreeMathError {
    LeafHasNoChildren,
    RootHasNoParent,
    NodeNotInTree,
    LeafNotInTree,
}

/// Largest number of leaves: every node index must fit in 32 bits.
pub const MAX_LEAVES: u32 = 0x8000_0000;

/// Number of nodes of a tree with `n` leaves.
pub open spec fn node_width(n: nat) -> nat {
    if n == 0 {
        0
    } else {
        (2 * n - 1) as nat
    }
}

/// Floor of the binary logarithm; 0 for 0 and 1.
pub open spec fn log2(x: nat) -> nat
    decreases x,
{
    if x <= 1 {
        0
    } else {
        1 + log2(x / 2)
    }
}

/// Level of a node: the number of trailing one bits of its index.
pub open spec fn level(x: nat) -> nat
    decreases x,
{
    if x % 2 == 0 {
        0
    } else {
        1 + level(x / 2)
    }
}

/// Level of the root of a tree with `n` leaves.
pub open spec fn depth(n: nat) -> nat {
    log2(node_width(n))
}

/// The root: the largest `2^k - 1` that lies in the tree (0 for `n <= 1`).
pub open spec fn root_of(n: nat) -> nat {
    (pow2(depth(n)) - 1) as nat
}

/// The node at level `k` whose subtree, in the complete infinite binary
/// tree, holds position `x`.
pub open spec fn ancestor_at(x: nat, k: nat) -> nat {
    ((x / pow2(k + 1)) * pow2(k + 1) + pow2(k) - 1) as nat
}

/// The first level from `k` upward at which the ancestor of `x` lies in the
/// tree (capped at the root's level).
pub open spec fn parent_level_from(x: nat, k: nat, n: nat) -> nat
    decreases depth(n) - k,
{
    if k >= depth(n) || ancestor_at(x, k) < node_width(n) {
        k
    } else {
        parent_level_from(x, k + 1, n)
    }
}

/// The parent of `x`: its nearest proper ancestor inside the tree.
pub open spec fn parent_of(x: nat, n: nat) -> nat {
    ancestor_at(x, parent_level_from(x, level(x) + 1, n))
}

/// The ancestors of `x` at levels `k` up to the root's level that lie in
/// the tree, lowest first.
pub open spec fn ancestors_from(x: nat, k: nat, n: nat) -> Seq<nat>
    decreases depth(n) + 1 - k,
{
    if k > depth(n) {
        seq![]
    } else if ancestor_at(x, k) < node_width(n) {
        seq![ancestor_at(x, k)] + ancestors_from(x, k + 1, n)
    } else {
        ancestors_from(x, k + 1, n)
    }
}

/// Direct path of a leaf: from its parent up to the root. A one-leaf tree's
/// only leaf is its root, and its path is that node.
pub open spec fn leaf_direct_path_of(l: nat, n: nat) -> Seq<nat> {
    if n == 1 {
        seq![0]
    } else {
        ancestors_from(2 * l, 1, n)
    }
}

/// Direct path of a node: the node itself, then its ancestors up to the root.
pub open spec fn parent_direct_path_of(x: nat, n: nat) -> Seq<nat> {
    ancestors_from(x, level(x), n)
}

/// Left child of a node of level at least 1.
pub open spec fn left_of(x: nat) -> nat {
    (x - pow2((level(x) - 1) as nat)) as nat
}

/// Level of the right child of `x`, searched from level `j` downward: the
/// first candidate `x + 2^j` that lies in the tree.
pub open spec fn right_level_from(x: nat, j: nat, n: nat) -> nat
    decreases j,
{
    if j == 0 || x + pow2(j) < node_width(n) {
        j
    } else {
        right_level_from(x, (j - 1) as nat, n)
    }
}

/// Right child of a node of level at least 1: the node `x + 2^(k-1)` or,
/// where that lies past the tree's end, the nearest node below it on its
/// leftmost path.
pub open spec fn right_of(x: nat, n: nat) -> nat {
    x + pow2(right_level_from(x, (level(x) - 1) as nat, n))
}

/// The other child of the parent of `x`.
pub open spec fn sibling_of(x: nat, n: nat) -> nat {
    let p = parent_of(x, n);
    if x < p {
        right_of(p, n)
    } else {
        left_of(p)
    }
}

/// Siblings of the ancestors of `x` at levels `j` up to below the root's,
/// for those ancestors that lie in the tree.
pub open spec fn copath_from(x: nat, j: nat, n: nat) -> Seq<nat>
    decreases depth(n) - j,
{
    if j >= depth(n) {
        seq![]
    } else if ancestor_at(x, j) < node_width(n) {
        seq![sibling_of(ancestor_at(x, j), n)] + copath_from(x, j + 1, n)
    } else {
        copath_from(x, j + 1, n)
    }
}

/// Copath of a leaf: the siblings of the leaf and of every node of its
/// direct path but the root.
pub open spec fn copath_of(l: nat, n: nat) -> Seq<nat> {
    copath_from(2 * l, 0, n)
}

/// Lowest position of the subtree under `x`.
pub open spec fn subtree_lo(x: nat) -> nat {
    (x + 1 - pow2(level(x))) as nat
}

/// Highest position of the subtree under `x` that lies in the tree.
pub open spec fn subtree_hi(x: nat, n: nat) -> nat {
    if x + pow2(level(x)) - 1 < node_width(n) - 1 {
        (x + pow2(level(x)) - 1) as nat
    } else {
        (node_width(n) - 1) as nat
    }
}

/// The nodes of the subtree under `x` (the node included), in index order.
pub open spec fn subtree(x: nat, n: nat) -> Seq<nat> {
    Seq::new((subtree_hi(x, n) + 1 - subtree_lo(x)) as nat, |i: int| (subtree_lo(x) + i) as nat)
}

/// The nodes under `x` (the node included) gathered by walking down the
/// tree: those under its left child, the node, those under its right child.
pub open spec fn descendants_rec(x: nat, n: nat) -> Seq<nat>
    decreases level(x),
    via descendants_rec_decreases
{
    if level(x) == 0 {
        seq![x]
    } else {
        descendants_rec(left_of(x), n) + seq![x] + descendants_rec(right_of(x, n), n)
    }
}

#[via_fn]
proof fn descendants_rec_decreases(x: nat, n: nat) {
    if level(x) != 0 {
        lemma_left(x);
        lemma_right(x, n);
    }
}

/// The first level from `k` upward at which `x` and `y` share an ancestor.
pub open spec fn common_level_from(x: nat, y: nat, k: nat) -> nat
    decreases 64 - k,
{
    if k >= 64 || x / pow2(k + 1) == y / pow2(k + 1) {
        k
    } else {
        common_level_from(x, y, k + 1)
    }
}

/// Lowest node whose subtree holds both `x` and `y`.
pub open spec fn common_ancestor_of(x: nat, y: nat) -> nat {
    let k = if level(x) >= level(y) { level(x) } else { level(y) };
    ancestor_at(x, common_level_from(x, y, k))
}

/// The positions that a vector of node indices holds.
pub open spec fn positions(v: Seq<NodeIndex>) -> Seq<nat> {
    v.map_values(|i: NodeIndex| i@)
}

// ---------------------------------------------------------------------------
// Arithmetic facts
// ---------------------------------------------------------------------------

proof fn lemma_pow2_succ(k: nat)
    ensures
        pow2(k + 1) == 2 * pow2(k),
        pow2(k) >= 1,
{
    lemma_pow2_unfold(k + 1);
    lemma_pow2_pos(k);
}

proof fn lemma_log2_bounds(x: nat)
    requires
        x >= 1,
    ensures
        pow2(log2(x)) <= x < pow2(log2(x) + 1),
    decreases x,
{
    if x <= 1 {
        lemma_pow2_succ(0);
        lemma2_to64();
    } else {
        lemma_log2_bounds(x / 2);
        lemma_pow2_succ(log2(x / 2));
        lemma_pow2_succ(log2(x / 2) + 1);
    }
}

/// A node is its own ancestor at its level.
proof fn lemma_ancestor_self(x: nat)
    ensures
        ancestor_at(x, level(x)) == x,
    decreases x,
{
    lemma_pow2_succ(0);
    lemma2_to64();
    if x % 2 == 0 {
        assert(level(x) == 0);
    } else {
        let l = level(x / 2);
        lemma_ancestor_self(x / 2);
        lemma_pow2_succ(l);
        lemma_pow2_succ(l + 1);
        let p = pow2(l + 1);
        lemma_div_denominator(x as int, 2, p as int);
        let q = (x / 2) / p;
        assert(x / pow2(l + 2) == q);
        assert(q * pow2(l + 2) == 2 * (q * p)) by (nonlinear_arith)
            requires
                pow2(l + 2) == 2 * p,
        ;
    }
}

/// Every `q * 2^(k+1) + 2^k - 1` lies at level `k`.
proof fn lemma_level_form(q: nat, k: nat)
    ensures
        level((q * pow2(k + 1) + pow2(k) - 1) as nat) == k,
    decreases k,
{
    lemma_pow2_succ(k);
    let v = (q * pow2(k + 1) + pow2(k) - 1) as nat;
    if k == 0 {
        lemma2_to64();
        assert(v == 2 * q);
    } else {
        let k1 = (k - 1) as nat;
        lemma_pow2_succ(k1);
        lemma_level_form(q, k1);
        let t = (q * pow2(k) + pow2(k1) - 1) as nat;
        assert(q * pow2(k + 1) == 2 * (q * pow2(k))) by (nonlinear_arith)
            requires
                pow2(k + 1) == 2 * pow2(k),
        ;
        assert(v == 2 * t + 1);
        assert(v / 2 == t);
    }
}

pub(crate) proof fn lemma_ancestor_level(x: nat, k: nat)
    ensures
        level(ancestor_at(x, k)) == k,
        ancestor_at(x, k) <= x + pow2(k) - 1,
        ancestor_at(x, k) + 1 >= pow2(k),
{
    lemma_level_form(x / pow2(k + 1), k);
    lemma_pow2_succ(k);
    lemma_fundamental_div_mod(x as int, pow2(k + 1) as int);
    lemma_mod_pos_bound(x as int, pow2(k + 1) as int);
    lemma_mul_is_commutative((x / pow2(k + 1)) as int, pow2(k + 1) as int);
}

/// The ancestor at level `j` of an ancestor of `x` is that of `x`.
proof fn lemma_ancestor_of_ancestor(x: nat, k: nat, j: nat)
    requires
        k <= j,
    ensures
        ancestor_at(ancestor_at(x, k), j) == ancestor_at(x, j),
{
    let a = ancestor_at(x, k);
    let p = pow2(k + 1);
    let m = pow2((j - k) as nat);
    lemma_pow2_adds(k + 1, (j - k) as nat);
    assert(pow2(j + 1) == p * m);
    lemma_pow2_succ(k);
    lemma_pow2_pos((j - k) as nat);
    let q = x / p;
    lemma_fundamental_div_mod_converse_div(a as int, p as int, q as int, pow2(k) - 1);
    lemma_div_denominator(x as int, p as int, m as int);
    lemma_div_denominator(a as int, p as int, m as int);
}

/// Facts on the root of a tree with `n >= 1` leaves.
pub(crate) proof fn lemma_root(n: nat)
    requires
        n >= 1,
    ensures
        pow2(depth(n)) <= node_width(n) < pow2(depth(n) + 1),
        root_of(n) < node_width(n),
        level(root_of(n)) == depth(n),
        forall|x: nat| x < node_width(n) ==> #[trigger] ancestor_at(x, depth(n)) == root_of(n),
{
    let d = depth(n);
    lemma_log2_bounds(node_width(n));
    lemma_pow2_succ(d);
    lemma_level_form(0, d);
    assert forall|x: nat| x < node_width(n) implies #[trigger] ancestor_at(x, d) == root_of(n) by {
        lemma_basic_div(x as int, pow2(d + 1) as int);
    }
}

/// Every node of the tree lies at most at the root's level, and the root
/// is the only one there.
pub(crate) proof fn lemma_level_bound(x: nat, n: nat)
    requires
        n >= 1,
        x < node_width(n),
    ensures
        level(x) <= depth(n),
        level(x) == depth(n) ==> x == root_of(n),
{
    let l = level(x);
    let d = depth(n);
    lemma_root(n);
    lemma_ancestor_self(x);
    lemma_ancestor_level(x, l);
    if l > d {
        lemma_pow2_strictly_increases(d, l);
        lemma_pow2_succ(d);
        if l > d + 1 {
            lemma_pow2_strictly_increases(d + 1, l);
        }
    }
    if l == d {
        let q = x / pow2(d + 1);
        lemma_pow2_succ(d);
        if q >= 1 {
            assert(q * pow2(d + 1) >= pow2(d + 1)) by (nonlinear_arith)
                requires
                    q >= 1,
            ;
        }
    }
}

proof fn lemma_parent_level_from(x: nat, k: nat, n: nat)
    requires
        n >= 1,
        x < node_width(n),
        k <= depth(n),
    ensures
        k <= parent_level_from(x, k, n) <= depth(n),
        ancestor_at(x, parent_level_from(x, k, n)) < node_width(n),
        forall|j: nat|
            k <= j < parent_level_from(x, k, n) ==> #[trigger] ancestor_at(x, j) >= node_width(n),
    decreases depth(n) - k,
{
    lemma_root(n);
    if k >= depth(n) || ancestor_at(x, k) < node_width(n) {
    } else {
        lemma_parent_level_from(x, k + 1, n);
    }
}

/// The parent of a node other than the root lies in the tree, one or more
/// levels up, and no ancestor in between does.
proof fn lemma_parent(x: nat, n: nat)
    requires
        n >= 1,
        x < node_width(n),
        x != root_of(n),
    ensures
        level(x) < parent_level_from(x, level(x) + 1, n) <= depth(n),
        parent_of(x, n) < node_width(n),
        level(parent_of(x, n)) == parent_level_from(x, level(x) + 1, n),
        forall|j: nat|
            level(x) < j < parent_level_from(x, level(x) + 1, n) ==> #[trigger] ancestor_at(x, j)
                >= node_width(n),
{
    lemma_level_bound(x, n);
    lemma_parent_level_from(x, level(x) + 1, n);
    lemma_ancestor_level(x, parent_level_from(x, level(x) + 1, n));
}

// ---------------------------------------------------------------------------
// Executable arithmetic on positions
// ---------------------------------------------------------------------------

fn width_u64(n: u32) -> (r: u64)
    ensures
        r == node_width(n as nat),
{
    if n == 0 {
        0
    } else {
        2 * (n as u64) - 1
    }
}

fn pow2_u64(k: u64) -> (r: u64)
    requires
        k <= 40,
    ensures
        r == pow2(k as nat),
        r > 0,
        k <= 32 ==> r <= 0x1_0000_0000,
{
    proof {
        lemma_pow2_pos(k as nat);
        lemma2_to64();
        if k < 32 {
            lemma_pow2_strictly_increases(k as nat, 32);
        }
    }
    let mut r: u64 = 1;
    let mut i: u64 = 0;
    proof {
        lemma2_to64();
    }
    while i < k
        invariant
            i <= k <= 40,
            r == pow2(i as nat),
        decreases k - i,
    {
        proof {
            lemma_pow2_succ(i as nat);
            lemma_pow2_strictly_increases((i + 1) as nat, 41);
            lemma_pow2_adds(32, 9);
            lemma2_to64();
        }
        r = r * 2;
        i = i + 1;
    }
    r
}

fn log2_u64(x: u64) -> (r: u64)
    ensures
        r == log2(x as nat),
        r < 64,
{
    let mut v: u64 = x;
    let mut k: u64 = 0;
    proof {
        if x >= 1 {
            lemma_log2_bounds(x as nat);
            lemma2_to64();
            if log2(x as nat) > 64 {
                lemma_pow2_strictly_increases(64, log2(x as nat));
            }
        }
    }
    while v > 1
        invariant
            log2(x as nat) == k + log2(v as nat),
            log2(x as nat) < 64,
        decreases v,
    {
        v = v / 2;
        k = k + 1;
    }
    k
}

/// Positions of 32 bits lie at level 32 or below.
proof fn lemma_level_small(x: nat)
    requires
        x < 0x1_0000_0000,
    ensures
        level(x) <= 32,
{
    lemma_ancestor_self(x);
    lemma_ancestor_level(x, level(x));
    if level(x) > 32 {
        lemma_pow2_strictly_increases(32, level(x));
        lemma2_to64();
    }
}

pub(crate) fn level_u64(x: u64) -> (r: u64)
    requires
        x < 0x1_0000_0000,
    ensures
        r == level(x as nat),
        r <= 32,
{
    let mut v: u64 = x;
    let mut k: u64 = 0;
    proof {
        lemma_level_small(x as nat);
    }
    while v % 2 == 1
        invariant
            level(x as nat) == k + level(v as nat),
            level(x as nat) <= 32,
        decreases v,
    {
        v = v / 2;
        k = k + 1;
    }
    k
}

/// `ancestor_at` on positions of 32 bits.
fn ancestor_u64(x: u64, k: u64) -> (r: u64)
    requires
        x < 0x1_0000_0000,
        k <= 32,
    ensures
        r == ancestor_at(x as nat, k as nat),
{
    let p = pow2_u64(k);
    let at2 = pow2_u64(k + 1);
    proof {
        lemma_pow2_succ(k as nat);
        lemma_pow2_strictly_increases(k as nat, 33);
        lemma2_to64();
        lemma_fundamental_div_mod(x as int, at2 as int);
        lemma_mod_pos_bound(x as int, at2 as int);
        lemma_mul_is_commutative((x / at2) as int, at2 as int);
    }
    (x / at2) * at2 + p - 1
}

pub(crate) proof fn lemma_depth_small(n: nat)
    requires
        1 <= n <= MAX_LEAVES,
    ensures
        depth(n) <= 31,
        node_width(n) < 0x1_0000_0000,
{
    lemma_root(n);
    lemma2_to64();
    if depth(n) > 32 {
        lemma_pow2_strictly_increases(32, depth(n));
    }
}

/// The tree's width, depth and root, for `1 <= n <= MAX_LEAVES`.
pub(crate) fn shape(n: u32) -> (r: (u64, u64, u64))
    requires
        1 <= n <= MAX_LEAVES,
    ensures
        r.0 == node_width(n as nat),
        r.1 == depth(n as nat),
        r.2 == root_of(n as nat),
        r.1 <= 31,
        r.0 < 0x1_0000_0000,
{
    let w = width_u64(n);
    let d = log2_u64(w);
    proof {
        lemma_depth_small(n as nat);
        lemma_pow2_pos(d as nat);
    }
    let rt = pow2_u64(d) - 1;
    (w, d, rt)
}

/// The root of a tree with `size` leaves.
pub fn root(size: LeafIndex) -> (r: NodeIndex)
    requires
        size@ <= MAX_LEAVES,
    ensures
        r@ == root_of(size@),
{
    if size.0 == 0 {
        proof {
            lemma2_to64();
        }
        return NodeIndex(0);
    }
    let (w, d, rt) = shape(size.0);
    proof {
        lemma_root(size@);
    }
    NodeIndex(rt as u32)
}

/// The parent of a node.
pub fn parent(index: NodeIndex, size: LeafIndex) -> (r: Result<NodeIndex, TreeMathError>)
    requires
        size@ <= MAX_LEAVES,
    ensures
        index@ >= node_width(size@) ==> r == Err::<NodeIndex, TreeMathError>(
            TreeMathError::NodeNotInTree,
        ),
        index@ < node_width(size@) && index@ == root_of(size@) ==> r == Err::<
            NodeIndex,
            TreeMathError,
        >(TreeMathError::RootHasNoParent),
        index@ < node_width(size@) && index@ != root_of(size@) ==> r is Ok && r->Ok_0@
            == parent_of(index@, size@),
{
    let x = index.0 as u64;
    if size.0 == 0 || x >= width_u64(size.0) {
        return Err(TreeMathError::NodeNotInTree);
    }
    let (w, d, rt) = shape(size.0);
    if x == rt {
        return Err(TreeMathError::RootHasNoParent);
    }
    proof {
        lemma_parent(x as nat, size@);
        lemma_level_bound(x as nat, size@);
    }
    let mut k = level_u64(x) + 1;
    while k < d && ancestor_u64(x, k) >= w
        invariant
            x < w,
            w < 0x1_0000_0000,
            w == node_width(size@),
            d == depth(size@),
            d <= 31,
            level(x as nat) < k <= d,
            parent_level_from(x as nat, level(x as nat) + 1, size@) == parent_level_from(
                x as nat,
                k as nat,
                size@,
            ),
        decreases d - k,
    {
        k = k + 1;
    }
    let p = ancestor_u64(x, k);
    Ok(NodeIndex(p as u32))
}

/// The ancestors of `x` from level `k` up that lie in the tree.
fn ancestors(x: u64, k: u64, n: u32) -> (r: Vec<NodeIndex>)
    requires
        1 <= n <= MAX_LEAVES,
        x < node_width(n as nat),
    ensures
        positions(r@) == ancestors_from(x as nat, k as nat, n as nat),
{
    let (w, d, rt) = shape(n);
    let mut v: Vec<NodeIndex> = Vec::new();
    let mut j = k;
    while j <= d
        invariant
            x < w,
            w == node_width(n as nat),
            d == depth(n as nat),
            d <= 31,
            w < 0x1_0000_0000,
            positions(v@) + ancestors_from(x as nat, j as nat, n as nat) == ancestors_from(
                x as nat,
                k as nat,
                n as nat,
            ),
        decreases d + 1 - j,
    {
        let a = ancestor_u64(x, j);
        if a < w {
            let ghost old_v = v@;
            v.push(NodeIndex(a as u32));
            proof {
                assert(positions(v@) == positions(old_v) + seq![a as nat]);
                assert(positions(v@) + ancestors_from(x as nat, (j + 1) as nat, n as nat)
                    =~= positions(old_v) + ancestors_from(x as nat, j as nat, n as nat));
            }
        }
        j = j + 1;
    }
    proof {
        assert(positions(v@) =~= positions(v@) + ancestors_from(x as nat, j as nat, n as nat));
    }
    v
}

/// Direct path of a leaf: from its parent up to and including the root.
pub fn leaf_direct_path(leaf_index: LeafIndex, size: LeafIndex) -> (r: Result<
    Vec<NodeIndex>,
    TreeMathError,
>)
    requires
        size@ <= MAX_LEAVES,
    ensures
        leaf_index@ >= size@ ==> r == Err::<Vec<NodeIndex>, TreeMathError>(
            TreeMathError::LeafNotInTree,
        ),
        leaf_index@ < size@ ==> r is Ok && positions(r->Ok_0@) == leaf_direct_path_of(
            leaf_index@,
            size@,
        ),
{
    if leaf_index.0 >= size.0 {
        return Err(TreeMathError::LeafNotInTree);
    }
    if size.0 == 1 {
        let mut v: Vec<NodeIndex> = Vec::new();
        v.push(NodeIndex(0));
        proof {
            assert(positions(v@) =~= seq![0nat]);
        }
        return Ok(v);
    }
    Ok(ancestors(2 * leaf_index.0 as u64, 1, size.0))
}

/// Direct path of a node: the node itself, then its ancestors up to the root.
pub fn parent_direct_path(node_index: NodeIndex, size: LeafIndex) -> (r: Result<
    Vec<NodeIndex>,
    TreeMathError,
>)
    requires
        size@ <= MAX_LEAVES,
    ensures
        node_index@ >= node_width(size@) ==> r == Err::<Vec<NodeIndex>, TreeMathError>(
            TreeMathError::NodeNotInTree,
        ),
        node_index@ < node_width(size@) ==> r is Ok && positions(r->Ok_0@)
            == parent_direct_path_of(node_index@, size@),
{
    let x = node_index.0 as u64;
    if size.0 == 0 || x >= width_u64(size.0) {
        return Err(TreeMathError::NodeNotInTree);
    }
    let k = level_u64(x);
    Ok(ancestors(x, k, size.0))
}

proof fn lemma_skip_outside(x: nat, j: nat, k: nat, n: nat)
    requires
        j <= k,
        forall|i: nat| j <= i < k ==> #[trigger] ancestor_at(x, i) >= node_width(n),
    ensures
        ancestors_from(x, j, n) == ancestors_from(x, k, n),
    decreases k - j,
{
    if j < k {
        lemma_skip_outside(x, j + 1, k, n);
        assert(ancestor_at(x, j) >= node_width(n));
    }
}

proof fn lemma_shared_ancestors(x: nat, k: nat, j: nat, n: nat)
    requires
        k <= j,
    ensures
        ancestors_from(ancestor_at(x, k), j, n) == ancestors_from(x, j, n),
    decreases depth(n) + 1 - j,
{
    lemma_ancestor_of_ancestor(x, k, j);
    if j <= depth(n) {
        lemma_shared_ancestors(x, k, j + 1, n);
    }
}

/// In a tree of two or more leaves, the direct path of every leaf equals the
/// direct path that starts at the leaf's parent.
pub proof fn lemma_leaf_path_is_parent_path(l: nat, n: nat)
    requires
        2 <= n <= MAX_LEAVES,
        l < n,
    ensures
        leaf_direct_path_of(l, n) == parent_direct_path_of(parent_of(2 * l, n), n),
{
    let x = 2 * l;
    lemma_root(n);
    lemma_pow2_succ(0);
    lemma2_to64();
    if depth(n) == 0 {
        assert(pow2(1) == 2);
    }
    assert(level(x) == 0);
    lemma_parent(x, n);
    let k = parent_level_from(x, 1, n);
    lemma_skip_outside(x, 1, k, n);
    lemma_shared_ancestors(x, k, k, n);
}

pub(crate) proof fn lemma_left(x: nat)
    requires
        level(x) >= 1,
    ensures
        level(left_of(x)) == level(x) - 1,
        pow2((level(x) - 1) as nat) <= x,
        left_of(x) + pow2((level(x) - 1) as nat) == x,
        subtree_lo(left_of(x)) == subtree_lo(x),
{
    let k = level(x);
    let k1 = (k - 1) as nat;
    let q = x / pow2(k + 1);
    lemma_ancestor_self(x);
    lemma_pow2_succ(k);
    lemma_pow2_succ(k1);
    assert(q * pow2(k + 1) == (2 * q) * pow2(k)) by (nonlinear_arith)
        requires
            pow2(k + 1) == 2 * pow2(k),
    ;
    assert(x == (2 * q) * pow2(k1 + 1) + pow2(k1) + pow2(k1) - 1);
    lemma_level_form(2 * q, k1);
}

pub(crate) proof fn lemma_right_level_from(x: nat, j: nat, n: nat)
    ensures
        right_level_from(x, j, n) <= j,
        right_level_from(x, j, n) == j || x + pow2(right_level_from(x, j, n) + 1)
            >= node_width(n),
        right_level_from(x, j, n) == 0 || x + pow2(right_level_from(x, j, n)) < node_width(n),
    decreases j,
{
    if j == 0 || x + pow2(j) < node_width(n) {
    } else {
        lemma_right_level_from(x, (j - 1) as nat, n);
    }
}

pub(crate) proof fn lemma_right(x: nat, n: nat)
    requires
        level(x) >= 1,
    ensures
        right_level_from(x, (level(x) - 1) as nat, n) < level(x),
        level(right_of(x, n)) == right_level_from(x, (level(x) - 1) as nat, n),
        subtree_lo(right_of(x, n)) == x + 1,
{
    let k = level(x);
    let j = right_level_from(x, (k - 1) as nat, n);
    lemma_right_level_from(x, (k - 1) as nat, n);
    let q = x / pow2(k + 1);
    let e = (k - j - 1) as nat;
    lemma_ancestor_self(x);
    lemma_pow2_succ(k);
    lemma_pow2_succ(j);
    lemma_pow2_adds(e, j + 1);
    assert(e + (j + 1) == k);
    let big = (2 * q + 1) * pow2(e);
    assert(q * pow2(k + 1) + pow2(k) == big * pow2(j + 1)) by (nonlinear_arith)
        requires
            pow2(k + 1) == 2 * pow2(k),
            pow2(k) == pow2(e) * pow2(j + 1),
            big == (2 * q + 1) * pow2(e),
    ;
    assert(right_of(x, n) == big * pow2(j + 1) + pow2(j) - 1);
    lemma_level_form(big, j);
}

/// The nodes gathered by walking down from `x` are exactly the positions of
/// the subtree under `x` that lie in the tree, in index order.
proof fn lemma_descendants_rec(x: nat, n: nat)
    requires
        n >= 1,
        x < node_width(n),
    ensures
        descendants_rec(x, n) == subtree(x, n),
    decreases level(x),
{
    let k = level(x);
    lemma_pow2_succ(0);
    lemma2_to64();
    if k == 0 {
        assert(subtree(x, n) =~= seq![x]);
    } else {
        let l = left_of(x);
        let r = right_of(x, n);
        let j = right_level_from(x, (k - 1) as nat, n);
        lemma_left(x);
        lemma_right(x, n);
        lemma_right_level_from(x, (k - 1) as nat, n);
        lemma_pow2_succ(j);
        lemma_pow2_succ((k - 1) as nat);
        if j < k - 1 {
            lemma_pow2_strictly_increases(j + 1, k);
        }
        assert(x % 2 == 1);
        assert(r < node_width(n));
        lemma_descendants_rec(l, n);
        lemma_descendants_rec(r, n);
        lemma_ancestor_self(x);
        lemma_ancestor_level(x, k);
        lemma_ancestor_self(l);
        lemma_ancestor_level(l, level(l));
        assert(subtree_lo(l) == subtree_lo(x));
        assert(subtree(l, n).len() == subtree_hi(l, n) + 1 - subtree_lo(l));
        assert(subtree_hi(l, n) + 1 == x);
        assert(subtree_hi(r, n) == subtree_hi(x, n));
        let lo = subtree_lo(x);
        let left_part = subtree(l, n);
        let right_part = subtree(r, n);
        assert(left_part.len() == x - lo);
        assert forall|i: int| 0 <= i < subtree(x, n).len() implies #[trigger] (left_part
            + seq![x] + right_part)[i] == subtree(x, n)[i] by {
            if i < x - lo {
            } else if i == x - lo {
            } else {
                assert((left_part + seq![x] + right_part)[i] == right_part[i - (x - lo) - 1]);
            }
        }
        assert(left_part + seq![x] + right_part =~= subtree(x, n));
    }
}

/// For every tree and every node in it, gathering the nodes under it by
/// walking down the tree gives the contiguous run of positions under it.
pub proof fn lemma_descendants_agree(x: nat, n: nat)
    requires
        1 <= n <= MAX_LEAVES,
        x < node_width(n),
    ensures
        descendants_rec(x, n) == subtree(x, n),
{
    lemma_descendants_rec(x, n);
}

pub(crate) fn left_pos(x: u64) -> (r: u64)
    requires
        x < 0x1_0000_0000,
        level(x as nat) >= 1,
    ensures
        r == left_of(x as nat),
{
    let k = level_u64(x);
    proof {
        lemma_left(x as nat);
    }
    x - pow2_u64(k - 1)
}

pub(crate) fn right_pos(x: u64, n: u32) -> (r: u64)
    requires
        1 <= n <= MAX_LEAVES,
        x < node_width(n as nat),
        level(x as nat) >= 1,
    ensures
        r == right_of(x as nat, n as nat),
        r < node_width(n as nat),
{
    let (w, d, rt) = shape(n);
    let k = level_u64(x);
    proof {
        lemma_level_bound(x as nat, n as nat);
    }
    let mut j = k - 1;
    while j > 0 && x + pow2_u64(j) >= w
        invariant
            x < w,
            w == node_width(n as nat),
            w < 0x1_0000_0000,
            j < k <= 32,
            k == level(x as nat),
            right_level_from(x as nat, (k - 1) as nat, n as nat) == right_level_from(
                x as nat,
                j as nat,
                n as nat,
            ),
        decreases j,
    {
        j = j - 1;
    }
    proof {
        lemma_right_level_from(x as nat, (k - 1) as nat, n as nat);
        lemma_pow2_succ(0);
        lemma2_to64();
        assert(x % 2 == 1);
    }
    x + pow2_u64(j)
}

fn sibling_pos(x: u64, n: u32) -> (r: u64)
    requires
        1 <= n <= MAX_LEAVES,
        x < node_width(n as nat),
        x != root_of(n as nat),
    ensures
        r == sibling_of(x as nat, n as nat),
        r < node_width(n as nat),
{
    proof {
        lemma_depth_small(n as nat);
        lemma_parent(x as nat, n as nat);
    }
    let p = match parent(NodeIndex(x as u32), LeafIndex(n)) {
        Ok(p) => p.0 as u64,
        Err(_) => 0,
    };
    if x < p {
        right_pos(p, n)
    } else {
        proof {
            lemma_left(p as nat);
        }
        left_pos(p)
    }
}

/// The left child of a node.
pub fn left(index: NodeIndex) -> (r: Result<NodeIndex, TreeMathError>)
    ensures
        level(index@) == 0 ==> r == Err::<NodeIndex, TreeMathError>(
            TreeMathError::LeafHasNoChildren,
        ),
        level(index@) > 0 ==> r is Ok && r->Ok_0@ == left_of(index@),
{
    let x = index.0 as u64;
    if level_u64(x) == 0 {
        return Err(TreeMathError::LeafHasNoChildren);
    }
    proof {
        lemma_left(x as nat);
    }
    Ok(NodeIndex(left_pos(x) as u32))
}

/// The right child of a node: where `x + 2^(k-1)` lies past the tree's end,
/// the nearest node on that node's leftmost path that lies in the tree.
pub fn right(index: NodeIndex, size: LeafIndex) -> (r: Result<NodeIndex, TreeMathError>)
    requires
        size@ <= MAX_LEAVES,
    ensures
        index@ >= node_width(size@) ==> r == Err::<NodeIndex, TreeMathError>(
            TreeMathError::NodeNotInTree,
        ),
        index@ < node_width(size@) && level(index@) == 0 ==> r == Err::<
            NodeIndex,
            TreeMathError,
        >(TreeMathError::LeafHasNoChildren),
        index@ < node_width(size@) && level(index@) > 0 ==> r is Ok && r->Ok_0@ == right_of(
            index@,
            size@,
        ),
{
    let x = index.0 as u64;
    if size.0 == 0 || x >= width_u64(size.0) {
        return Err(TreeMathError::NodeNotInTree);
    }
    if level_u64(x) == 0 {
        return Err(TreeMathError::LeafHasNoChildren);
    }
    proof {
        lemma_depth_small(size@);
    }
    Ok(NodeIndex(right_pos(x, size.0) as u32))
}

/// The other child of a node's parent.
pub fn sibling(index: NodeIndex, size: LeafIndex) -> (r: Result<NodeIndex, TreeMathError>)
    requires
        size@ <= MAX_LEAVES,
    ensures
        index@ >= node_width(size@) ==> r == Err::<NodeIndex, TreeMathError>(
            TreeMathError::NodeNotInTree,
        ),
        index@ < node_width(size@) && index@ == root_of(size@) ==> r == Err::<
            NodeIndex,
            TreeMathError,
        >(TreeMathError::RootHasNoParent),
        index@ < node_width(size@) && index@ != root_of(size@) ==> r is Ok && r->Ok_0@
            == sibling_of(index@, size@),
{
    let x = index.0 as u64;
    if size.0 == 0 || x >= width_u64(size.0) {
        return Err(TreeMathError::NodeNotInTree);
    }
    let (w, d, rt) = shape(size.0);
    if x == rt {
        return Err(TreeMathError::RootHasNoParent);
    }
    Ok(NodeIndex(sibling_pos(x, size.0) as u32))
}

/// The copath of a leaf: the siblings of the leaf and of every node of its
/// direct path below the root.
pub fn copath(leaf_index: LeafIndex, size: LeafIndex) -> (r: Result<
    Vec<NodeIndex>,
    TreeMathError,
>)
    requires
        size@ <= MAX_LEAVES,
    ensures
        leaf_index@ >= size@ ==> r == Err::<Vec<NodeIndex>, TreeMathError>(
            TreeMathError::LeafNotInTree,
        ),
        leaf_index@ < size@ ==> r is Ok && positions(r->Ok_0@) == copath_of(
            leaf_index@,
            size@,
        ),
{
    if leaf_index.0 >= size.0 {
        return Err(TreeMathError::LeafNotInTree);
    }
    let n = size.0;
    let x = 2 * leaf_index.0 as u64;
    let (w, d, rt) = shape(n);
    proof {
        lemma_root(n as nat);
    }
    let mut v: Vec<NodeIndex> = Vec::new();
    let mut j: u64 = 0;
    while j < d
        invariant
            x < w,
            w == node_width(n as nat),
            w < 0x1_0000_0000,
            d == depth(n as nat),
            d <= 31,
            rt == root_of(n as nat),
            level(rt as nat) == d,
            1 <= n <= MAX_LEAVES,
            positions(v@) + copath_from(x as nat, j as nat, n as nat) == copath_from(
                x as nat,
                0,
                n as nat,
            ),
        decreases d - j,
    {
        let a = ancestor_u64(x, j);
        if a < w {
            proof {
                lemma_ancestor_level(x as nat, j as nat);
            }
            let sib = sibling_pos(a, n);
            let ghost old_v = v@;
            v.push(NodeIndex(sib as u32));
            proof {
                assert(positions(v@) == positions(old_v) + seq![sib as nat]);
                assert(positions(v@) + copath_from(x as nat, (j + 1) as nat, n as nat)
                    =~= positions(old_v) + copath_from(x as nat, j as nat, n as nat));
            }
        }
        j = j + 1;
    }
    proof {
        assert(positions(v@) =~= positions(v@) + copath_from(x as nat, j as nat, n as nat));
    }
    Ok(v)
}

/// The nodes under a node (the node included), in index order, computed as
/// a range of positions.
pub fn descendants(x: NodeIndex, size: LeafIndex) -> (r: Vec<NodeIndex>)
    requires
        1 <= size@ <= MAX_LEAVES,
        x@ < node_width(size@),
    ensures
        positions(r@) == subtree(x@, size@),
{
    let n = size.0;
    let (w, d, rt) = shape(n);
    let xv = x.0 as u64;
    let k = level_u64(xv);
    proof {
        lemma_level_bound(xv as nat, n as nat);
        lemma_ancestor_self(xv as nat);
        lemma_ancestor_level(xv as nat, k as nat);
        lemma_pow2_strictly_increases(k as nat, 33);
        lemma2_to64();
    }
    let p = pow2_u64(k);
    let lo = xv + 1 - p;
    let hi = if xv + p - 1 < w - 1 {
        xv + p - 1
    } else {
        w - 1
    };
    let mut v: Vec<NodeIndex> = Vec::new();
    let mut i = lo;
    while i <= hi
        invariant
            lo == subtree_lo(xv as nat),
            hi == subtree_hi(xv as nat, n as nat),
            hi < w < 0x1_0000_0000,
            lo <= i <= hi + 1,
            positions(v@) =~= subtree(xv as nat, n as nat).take(i - lo),
        decreases hi + 1 - i,
    {
        let ghost old_v = v@;
        v.push(NodeIndex(i as u32));
        proof {
            let st = subtree(xv as nat, n as nat);
            assert(st[i - lo] == i as nat);
            assert(positions(v@) == positions(old_v).push(i as nat));
            assert(st.take(i + 1 - lo) =~= st.take(i - lo).push(i as nat));
        }
        i = i + 1;
    }
    proof {
        assert(subtree(xv as nat, n as nat).take(i - lo) =~= subtree(xv as nat, n as nat));
    }
    v
}

/// The nodes under a node (the node included), in index order, gathered by
/// walking down the tree.
pub fn descendants_alt(x: NodeIndex, size: LeafIndex) -> (r: Vec<NodeIndex>)
    requires
        1 <= size@ <= MAX_LEAVES,
        x@ < node_width(size@),
    ensures
        positions(r@) == descendants_rec(x@, size@),
    decreases level(x@),
{
    let xv = x.0 as u64;
    proof {
        lemma_depth_small(size@);
    }
    if level_u64(xv) == 0 {
        let mut v: Vec<NodeIndex> = Vec::new();
        v.push(x);
        proof {
            assert(positions(v@) =~= seq![x@]);
        }
        return v;
    }
    proof {
        lemma_left(xv as nat);
        lemma_right(xv as nat, size@);
    }
    let l = left_pos(xv);
    let r = right_pos(xv, size.0);
    let mut v = descendants_alt(NodeIndex(l as u32), size);
    let mut right_part = descendants_alt(NodeIndex(r as u32), size);
    let ghost lv = v@;
    let ghost rv = right_part@;
    v.push(x);
    v.append(&mut right_part);
    proof {
        assert(positions(v@) =~= positions(lv) + seq![x@] + positions(rv));
    }
    v
}

proof fn lemma_ancestor_small(x: nat, k: nat)
    requires
        x < 0x1_0000_0000,
        k <= 32,
    ensures
        ancestor_at(x, k) < 0x1_0000_0000,
{
    lemma2_to64();
    lemma_pow2_succ(k);
    let p = pow2(k + 1);
    let q = x / p;
    if k == 32 {
        lemma_pow2_succ(32);
        lemma_basic_div(x as int, p as int);
        assert(q == 0);
        assert(q * p == 0) by (nonlinear_arith)
            requires
                q == 0,
        ;
    } else {
        let m = pow2((31 - k) as nat);
        lemma_pow2_adds(k + 1, (31 - k) as nat);
        assert(p * m == 0x1_0000_0000);
        lemma_fundamental_div_mod(x as int, p as int);
        lemma_mod_pos_bound(x as int, p as int);
        lemma_mul_is_commutative(q as int, p as int);
        if q >= m {
            assert(q * p >= m * p) by (nonlinear_arith)
                requires
                    q >= m,
                    p > 0,
            ;
        }
        assert(q * p <= (m - 1) * p) by (nonlinear_arith)
            requires
                q <= m - 1,
                p > 0,
        ;
        assert((m - 1) * p == m * p - p) by (nonlinear_arith);
        assert(q * p + pow2(k) - 1 < 0x1_0000_0000);
    }
}

/// The lowest node whose subtree holds both `x` and `y`.
pub fn common_ancestor_index(x: NodeIndex, y: NodeIndex) -> (r: NodeIndex)
    ensures
        r@ == common_ancestor_of(x@, y@),
{
    let xv = x.0 as u64;
    let yv = y.0 as u64;
    let lx = level_u64(xv);
    let ly = level_u64(yv);
    let mut k = if lx >= ly {
        lx
    } else {
        ly
    };
    let ghost k0 = k;
    while xv / pow2_u64(k + 1) != yv / pow2_u64(k + 1)
        invariant
            xv < 0x1_0000_0000,
            yv < 0x1_0000_0000,
            k0 <= k <= 32,
            common_level_from(xv as nat, yv as nat, k0 as nat) == common_level_from(
                xv as nat,
                yv as nat,
                k as nat,
            ),
        decreases 32 - k,
    {
        proof {
            if k >= 31 {
                lemma2_to64();
                lemma_pow2_succ(k as nat);
                if k == 32 {
                    lemma_pow2_succ(32);
                }
                lemma_basic_div(xv as int, pow2((k + 1) as nat) as int);
                lemma_basic_div(yv as int, pow2((k + 1) as nat) as int);
            }
        }
        k = k + 1;
    }
    proof {
        lemma_ancestor_small(xv as nat, k as nat);
    }
    NodeIndex(ancestor_u64(xv, k) as u32)
}

} // verus!
