//! The tree itself: a flat array of nodes in which a node's position gives
//! the positions of its parent and of its children.

use vstd::prelude::*;
use crate::digest::{blake3_hash, pair_hash};
use crate::layout::{data_positions, lemma_built_in_order, tree_nodes};
use crate::node::{node_views, Node, NodeKind, NodeView};

verus! {

/// A merkle tree, laid out level by level in one array.
///
/// The root is at position 0. The children of the node at position `i` are at
/// `2 * i + 1` and `2 * i + 2`, and the parent of a node at position `i > 0`
/// is at `(i - 1) / 2`. Only interior nodes have children; data blocks and
/// padding have none, whatever the array holds at those positions.
#[derive(Debug, Clone)]
pub struct Tree {
    /// The nodes, the root first, then each level from left to right.
    pub inner: Vec<Node>,
    /// For each payload the tree was built from, in the order given, the
    /// position in `inner` of its data block.
    pub data: Vec<usize>,
}

/// The failure of building a tree from no payloads: a merkle tree cannot be
/// empty.
#[derive(Debug, Clone, Copy, PartialEq, Eq)]
pub struct EmptyInputError;

/// The position of the parent of position `i` in an array of `len` nodes.
pub open spec fn parent_pos(len: nat, i: int) -> Option<int> {
    if i >= 1 && (i - 1) / 2 < len {
        Some((i - 1) / 2)
    } else {
        None
    }
}

/// The position of the left child of position `i`, if `i` holds an interior
/// node and the position is in the array.
pub open spec fn left_pos(nodes: Seq<NodeView>, i: int) -> Option<int> {
    if 0 <= i < nodes.len() && nodes[i].is_leaf() && 2 * i + 1 < nodes.len() {
        Some(2 * i + 1)
    } else {
        None
    }
}

/// The position of the right child of position `i`, if `i` holds an interior
/// node and the position is in the array.
pub open spec fn right_pos(nodes: Seq<NodeView>, i: int) -> Option<int> {
    if 0 <= i < nodes.len() && nodes[i].is_leaf() && 2 * i + 2 < nodes.len() {
        Some(2 * i + 2)
    } else {
        None
    }
}

/// Whether position `i` lies in the subtree whose top is position `top`.
pub open spec fn below(i: int, top: int) -> bool
    decreases i,
{
    if i <= top || i <= 0 {
        i == top
    } else {
        below((i - 1) / 2, top)
    }
}

/// Whether position `i` belongs to the tree: it is the root, or a child of
/// an interior node that belongs to the tree.
pub open spec fn in_tree(nodes: Seq<NodeView>, i: int) -> bool
    decreases i,
{
    if i <= 0 {
        i == 0 && nodes.len() > 0
    } else {
        i < nodes.len() && nodes[(i - 1) / 2].is_leaf() && in_tree(nodes, (i - 1) / 2)
    }
}

/// Every interior node has both of its children in the array.
pub open spec fn shape_ok(nodes: Seq<NodeView>) -> bool {
    forall|i: int|
        0 <= i < nodes.len() && (#[trigger] nodes[i]).is_leaf() ==> 2 * i + 2 < nodes.len()
}

/// The hash that the node at position `i` should store: for a data block the
/// hash of its payload, for an interior node the hash of its children's
/// stored hashes. Padding commits to nothing and keeps the hash it has.
pub open spec fn expected_hash(nodes: Seq<NodeView>, i: int) -> [u8; 32] {
    match nodes[i].kind {
        NodeKind::Data(payload) => blake3_hash(payload),
        NodeKind::Leaf => pair_hash(nodes[2 * i + 1].hash, nodes[2 * i + 2].hash),
        NodeKind::Padding => nodes[i].hash,
    }
}

/// The node at position `i` stores the hash it should.
pub open spec fn node_ok(nodes: Seq<NodeView>, i: int) -> bool {
    nodes[i].hash == expected_hash(nodes, i)
}

/// Every node stores the hash it should.
pub open spec fn hashes_ok(nodes: Seq<NodeView>) -> bool {
    forall|i: int| 0 <= i < nodes.len() ==> node_ok(nodes, i)
}

/// Going from an interior node to either of its children and back to the
/// parent leads to the node again.
pub proof fn lemma_parent_of_child(nodes: Seq<NodeView>, i: int)
    ensures
        left_pos(nodes, i) matches Some(child) ==> parent_pos(nodes.len(), child) == Some(i),
        right_pos(nodes, i) matches Some(child) ==> parent_pos(nodes.len(), child) == Some(i),
{
}

/// Two trees built from the same payloads hold the same nodes at the same
/// positions, and so the same root hash.
pub proof fn lemma_build_deterministic(first: Tree, second: Tree, payloads: Seq<Seq<u8>>)
    requires
        first.built_from(payloads),
        second.built_from(payloads),
    ensures
        first.nodes() == second.nodes(),
        first.data@ == second.data@,
        payloads.len() >= 1 ==> first.inner@[0].hash == second.inner@[0].hash,
{
    if payloads.len() >= 1 {
        lemma_built_in_order(payloads);
        assert(first.nodes()[0] == first.inner@[0]@);
        assert(second.nodes()[0] == second.inner@[0]@);
    }
}

impl Tree {
    /// The nodes of the tree as mathematical values, by position.
    pub open spec fn nodes(&self) -> Seq<NodeView> {
        node_views(self.inner@)
    }

    /// The tree is the one that building from `payloads` gives: its array
    /// holds the levels over the payloads' data blocks, and its index holds
    /// the position of each data block.
    pub open spec fn built_from(&self, payloads: Seq<Seq<u8>>) -> bool {
        &&& self.nodes() == tree_nodes(payloads)
        &&& self.data@ == data_positions(payloads)
    }

    /// The tree is not empty and every interior node has two children.
    pub open spec fn well_formed(&self) -> bool {
        &&& self.inner@.len() > 0
        &&& shape_ok(self.nodes())
    }

    /// Tells whether the tree is well formed: it is not empty, and every
    /// interior node has both children in the array.
    pub fn is_well_formed(&self) -> (yes: bool)
        ensures
            yes == self.well_formed(),
    {
        let len: usize = self.inner.len();
        if len == 0 {
            return false;
        }
        let mut i: usize = 0;
        while i < len
            invariant
                len == self.inner@.len(),
                i <= len,
                forall|k: int|
                    0 <= k < i && (#[trigger] self.nodes()[k]).is_leaf() ==> 2 * k + 2 < len,
            decreases len - i,
        {
            assert(self.nodes()[i as int] == self.inner@[i as int]@);
            if self.inner[i].has_children() && i >= (len - 1) / 2 {
                return false;
            }
            i = i + 1;
        }
        true
    }

    /// The hash stored at the root, which stands for the whole tree.
    pub fn get_hash(&self) -> (hash: [u8; 32])
        requires
            self.inner@.len() > 0,
        ensures
            hash == self.inner@[0].hash,
    {
        self.inner[0].hash
    }
}

} // verus!
