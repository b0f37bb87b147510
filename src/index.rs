//! Typed indices into the ratchet tree.

use vstd::prelude::*;

verus! {

/// Index of a leaf, counted over leaves only. Also used for the number of
/// leaves of a tree.
#[derive(Clone, Copy, Debug, PartialEq, Eq, Structural, Hash)]
pub struct LeafIndex(pub u32);

/// Index of a node in the flat array representation of the tree: leaves sit
/// at even positions, parents at odd ones.
#[derive(Clone, Copy, Debug, PartialEq, Eq, Structural, Hash)]
pub struct NodeIndex(pub u32);

impl View for LeafIndex {
    type V = nat;

    open spec fn view(&self) -> nat {
        self.0 as nat
    }
}

impl View for NodeIndex {
    type V = nat;

    open spec fn view(&self) -> nat {
        self.0 as nat
    }
}

impl LeafIndex {
    pub fn as_u32(&self) -> (r: u32)
        ensures
            r == self.0,
    {
        self.0
    }

    pub fn as_usize(&self) -> (r: usize)
        ensures
            r == self.0 as usize,
    {
        self.0 as usize
    }
}

impl NodeIndex {
    pub fn as_u32(&self) -> (r: u32)
        ensures
            r == self.0,
    {
        self.0
    }

    pub fn as_usize(&self) -> (r: usize)
        ensures
            r == self.0 as usize,
    {
        self.0 as usize
    }

    /// Leaves are the nodes at even positions.
    pub fn is_leaf(&self) -> (r: bool)
        ensures
            r == (self@ % 2 == 0),
    {
        self.0 % 2 == 0
    }
}

impl From<u32> for LeafIndex {
    fn from(i: u32) -> (r: LeafIndex)
        ensures
            r.0 == i,
    {
        LeafIndex(i)
    }
}

impl vstd::std_specs::convert::FromSpecImpl<u32> for LeafIndex {
    open spec fn obeys_from_spec() -> bool {
        true
    }

    open spec fn from_spec(v: u32) -> LeafIndex {
        LeafIndex(v)
    }
}

/// Truncates to 32 bits, the width of an index on the wire.
impl From<usize> for LeafIndex {
    fn from(i: usize) -> (r: LeafIndex)
        ensures
            r.0 == i as u32,
    {
        LeafIndex(i as u32)
    }
}

impl vstd::std_specs::convert::FromSpecImpl<usize> for LeafIndex {
    open spec fn obeys_from_spec() -> bool {
        true
    }

    open spec fn from_spec(v: usize) -> LeafIndex {
        LeafIndex(v as u32)
    }
}

impl From<u32> for NodeIndex {
    fn from(i: u32) -> (r: NodeIndex)
        ensures
            r.0 == i,
    {
        NodeIndex(i)
    }
}

impl vstd::std_specs::convert::FromSpecImpl<u32> for NodeIndex {
    open spec fn obeys_from_spec() -> bool {
        true
    }

    open spec fn from_spec(v: u32) -> NodeIndex {
        NodeIndex(v)
    }
}

/// Truncates to 32 bits, the width of an index on the wire.
impl From<usize> for NodeIndex {
    fn from(i: usize) -> (r: NodeIndex)
        ensures
            r.0 == i as u32,
    {
        NodeIndex(i as u32)
    }
}

impl vstd::std_specs::convert::FromSpecImpl<usize> for NodeIndex {
    open spec fn obeys_from_spec() -> bool {
        true
    }

    open spec fn from_spec(v: usize) -> NodeIndex {
        NodeIndex(v as u32)
    }
}

/// The node of leaf `l` sits at position `2 * l` (taken modulo 2^32, the
/// width of a node index).
impl From<LeafIndex> for NodeIndex {
    fn from(l: LeafIndex) -> (r: NodeIndex)
        ensures
            r.0 == (2 * l.0 as u64) as u32,
    {
        NodeIndex((2 * l.0 as u64) as u32)
    }
}

impl vstd::std_specs::convert::FromSpecImpl<LeafIndex> for NodeIndex {
    open spec fn obeys_from_spec() -> bool {
        true
    }

    open spec fn from_spec(v: LeafIndex) -> NodeIndex {
        NodeIndex((2 * v.0 as u64) as u32)
    }
}

} // verus!
