use openmls_core::index::{LeafIndex, NodeIndex};
use openmls_core::treemath;
use openmls_core::treemath::{descendants, descendants_alt, TreeMathError};
use std::convert::TryFrom;

fn nodes(v: &[u32]) -> Vec<NodeIndex> {
    v.iter().map(|&i| NodeIndex::from(i)).collect()
}

#[test]
fn test_dir_path() {
    const SIZE: u32 = 100;
    for size in 0..SIZE {
        for i in (0..size / 2).step_by(2) {
            let leaf_index = LeafIndex::try_from(i).expect("Could not create LeafIndex");
            let tree_size = LeafIndex::from(size);
            let leaf_dir_path = treemath::leaf_direct_path(leaf_index, tree_size).unwrap();
            let parent_node = treemath::parent(NodeIndex::from(leaf_index), tree_size)
                .expect("Could not calculate parent node");
            let parent_direct_path = treemath::parent_direct_path(parent_node, tree_size)
                .expect("Could not calculate direct path");

            assert_eq!(leaf_dir_path, parent_direct_path);
        }
    }
}

#[test]
fn verify_descendants() {
    const LEAVES: usize = 100;
    for size in 1..LEAVES {
        for node in 0..(size * 2 - 1) {
            assert_eq!(
                descendants(NodeIndex::from(node), LeafIndex::from(size)),
                descendants_alt(NodeIndex::from(node), LeafIndex::from(size))
            );
        }
    }
}

#[test]
fn test_treemath_functions() {
    assert_eq!(0, treemath::root(LeafIndex::from(0u32)).as_u32());
    // The tree with only one leaf has only one node, which is leaf and root at the
    // same time.
    assert_eq!(0, treemath::root(LeafIndex::from(1u32)).as_u32());
    assert_eq!(1, treemath::root(LeafIndex::from(2u32)).as_u32());
    assert_eq!(3, treemath::root(LeafIndex::from(3u32)).as_u32());
}

#[test]
fn invalid_inputs() {
    assert_eq!(
        Err(TreeMathError::LeafNotInTree),
        treemath::leaf_direct_path(3u32.into(), 2u32.into())
    );
    assert_eq!(
        Err(TreeMathError::NodeNotInTree),
        treemath::parent_direct_path(3u32.into(), 2u32.into())
    );
    assert_eq!(
        Err(TreeMathError::LeafNotInTree),
        treemath::copath(10u32.into(), 5u32.into())
    );
    assert_eq!(
        Err(TreeMathError::NodeNotInTree),
        treemath::parent(1000u32.into(), 100u32.into())
    );
}

#[test]
fn root_of_larger_trees() {
    assert_eq!(3, treemath::root(LeafIndex::from(4u32)).as_u32());
    assert_eq!(7, treemath::root(LeafIndex::from(5u32)).as_u32());
    assert_eq!(15, treemath::root(LeafIndex::from(9u32)).as_u32());
    assert_eq!(127, treemath::root(LeafIndex::from(100u32)).as_u32());
}

#[test]
fn parent_in_truncated_tree() {
    // Five leaves: nodes 0..=8, root 7; the last leaf hangs right under the root.
    assert_eq!(Ok(NodeIndex::from(7u32)), treemath::parent(8u32.into(), 5u32.into()));
    assert_eq!(Ok(NodeIndex::from(1u32)), treemath::parent(2u32.into(), 5u32.into()));
    assert_eq!(Ok(NodeIndex::from(7u32)), treemath::parent(3u32.into(), 5u32.into()));
    assert_eq!(
        Err(TreeMathError::RootHasNoParent),
        treemath::parent(7u32.into(), 5u32.into())
    );
    assert_eq!(
        Err(TreeMathError::NodeNotInTree),
        treemath::parent(9u32.into(), 5u32.into())
    );
    assert_eq!(
        Err(TreeMathError::NodeNotInTree),
        treemath::parent(0u32.into(), 0u32.into())
    );
}

#[test]
fn direct_paths() {
    assert_eq!(
        Ok(nodes(&[1, 3])),
        treemath::leaf_direct_path(0u32.into(), 4u32.into())
    );
    assert_eq!(
        Ok(nodes(&[5, 3])),
        treemath::leaf_direct_path(2u32.into(), 4u32.into())
    );
    assert_eq!(
        Ok(nodes(&[7])),
        treemath::leaf_direct_path(4u32.into(), 5u32.into())
    );
    assert_eq!(
        Ok(nodes(&[0])),
        treemath::leaf_direct_path(0u32.into(), 1u32.into())
    );
    assert_eq!(
        Ok(nodes(&[5, 3])),
        treemath::parent_direct_path(5u32.into(), 4u32.into())
    );
    assert_eq!(
        Ok(nodes(&[8, 7])),
        treemath::parent_direct_path(8u32.into(), 5u32.into())
    );
}

#[test]
fn children_and_siblings() {
    assert_eq!(Ok(NodeIndex::from(3u32)), treemath::left(7u32.into()));
    assert_eq!(
        Err(TreeMathError::LeafHasNoChildren),
        treemath::left(4u32.into())
    );
    assert_eq!(Ok(NodeIndex::from(8u32)), treemath::right(7u32.into(), 5u32.into()));
    assert_eq!(Ok(NodeIndex::from(5u32)), treemath::right(3u32.into(), 4u32.into()));
    assert_eq!(
        Err(TreeMathError::LeafHasNoChildren),
        treemath::right(2u32.into(), 4u32.into())
    );
    assert_eq!(
        Err(TreeMathError::NodeNotInTree),
        treemath::right(9u32.into(), 5u32.into())
    );
    assert_eq!(Ok(NodeIndex::from(8u32)), treemath::sibling(3u32.into(), 5u32.into()));
    assert_eq!(Ok(NodeIndex::from(3u32)), treemath::sibling(8u32.into(), 5u32.into()));
    assert_eq!(Ok(NodeIndex::from(2u32)), treemath::sibling(0u32.into(), 4u32.into()));
    assert_eq!(
        Err(TreeMathError::RootHasNoParent),
        treemath::sibling(3u32.into(), 4u32.into())
    );
}

#[test]
fn copaths() {
    assert_eq!(Ok(nodes(&[2, 5])), treemath::copath(0u32.into(), 4u32.into()));
    assert_eq!(Ok(nodes(&[3])), treemath::copath(4u32.into(), 5u32.into()));
    assert_eq!(Ok(nodes(&[])), treemath::copath(0u32.into(), 1u32.into()));
}

#[test]
fn common_ancestors() {
    let ca = |a: u32, b: u32| treemath::common_ancestor_index(a.into(), b.into()).as_u32();
    assert_eq!(3, ca(0, 6));
    assert_eq!(3, ca(2, 4));
    assert_eq!(1, ca(0, 2));
    assert_eq!(4, ca(4, 4));
    assert_eq!(7, ca(8, 0));
    assert_eq!(5, ca(5, 6));
}

#[test]
fn descendants_exact() {
    assert_eq!(
        nodes(&[0, 1, 2, 3, 4]),
        descendants(3u32.into(), 3u32.into())
    );
    assert_eq!(
        nodes(&[0, 1, 2, 3, 4]),
        descendants_alt(3u32.into(), 3u32.into())
    );
    assert_eq!(nodes(&[8]), descendants(8u32.into(), 5u32.into()));
    assert_eq!(nodes(&[4, 5, 6]), descendants(5u32.into(), 4u32.into()));
}
