//! The nodes of a tree: data blocks, the nodes that pair two children, and
//! padding.

use vstd::prelude::*;
use crate::digest::{blake3_hash, digest, hash_lr, pair_hash};

verus! {

/// What kind a [`Node`] is, with the payload of a data block.
#[derive(Debug, Clone, PartialEq, Eq)]
pub enum NodeInner {
    /// An interior node, whose hash commits to the hashes of its two children.
    Leaf,
    /// A stand-in that evens out a level; it has a fixed hash and no children.
    Padding,
    /// A data block at the bottom of the tree, with its payload.
    Data(Vec<u8>),
}

/// One entry of a tree's array: a hash and the kind of node it belongs to.
#[derive(Debug, Clone, PartialEq, Eq)]
pub struct Node {
    /// The hash stored for this node.
    pub hash: [u8; 32],
    /// The kind of node, with the payload if it is a data block.
    pub inner: NodeInner,
}

/// The mathematical value of a [`NodeInner`].
pub enum NodeKind {
    Leaf,
    Padding,
    Data(Seq<u8>),
}

/// The mathematical value of a [`Node`].
pub struct NodeView {
    pub hash: [u8; 32],
    pub kind: NodeKind,
}

impl View for NodeInner {
    type V = NodeKind;

    open spec fn view(&self) -> NodeKind {
        match self {
            NodeInner::Leaf => NodeKind::Leaf,
            NodeInner::Padding => NodeKind::Padding,
            NodeInner::Data(payload) => NodeKind::Data(payload@),
        }
    }
}

impl View for Node {
    type V = NodeView;

    open spec fn view(&self) -> NodeView {
        NodeView { hash: self.hash, kind: self.inner@ }
    }
}

/// The hash that every padding node carries: 32 zero bytes.
pub open spec fn padding_hash() -> [u8; 32] {
    vstd::array::spec_array_fill_for_copy_type::<u8, 32>(0u8)
}

/// Every byte of the padding hash is zero.
pub proof fn lemma_padding_hash_zero()
    ensures
        padding_hash()@ == Seq::new(32, |i: int| 0u8),
{
    assert(padding_hash()@ =~= Seq::new(32, |i: int| 0u8));
}

/// The interior node above two children with the given hashes.
pub open spec fn leaf_node(left: [u8; 32], right: [u8; 32]) -> NodeView {
    NodeView { hash: pair_hash(left, right), kind: NodeKind::Leaf }
}

/// The data block that holds `payload`.
pub open spec fn data_node(payload: Seq<u8>) -> NodeView {
    NodeView { hash: blake3_hash(payload), kind: NodeKind::Data(payload) }
}

/// The padding node.
pub open spec fn padding_node() -> NodeView {
    NodeView { hash: padding_hash(), kind: NodeKind::Padding }
}

/// The mathematical values of a run of nodes, place by place.
pub open spec fn node_views(nodes: Seq<Node>) -> Seq<NodeView> {
    Seq::new(nodes.len(), |i: int| nodes[i]@)
}

impl NodeView {
    /// Whether nodes of this kind have children.
    pub open spec fn is_leaf(self) -> bool {
        self.kind is Leaf
    }
}

impl Node {
    /// Makes the interior node above two children from their hashes.
    pub fn new_leaf(left: [u8; 32], right: [u8; 32]) -> (node: Node)
        ensures
            node@ == leaf_node(left, right),
    {
        Node { hash: hash_lr(&left, &right), inner: NodeInner::Leaf }
    }

    /// Makes a data block from its payload, hashing it.
    pub fn new_data(data: Vec<u8>) -> (node: Node)
        ensures
            node@ == data_node(data@),
    {
        let hash = digest(data.as_slice());
        Node { hash, inner: NodeInner::Data(data) }
    }

    /// Makes a padding node.
    pub fn new_padding() -> (node: Node)
        ensures
            node@ == padding_node(),
    {
        Node { hash: [0u8; 32], inner: NodeInner::Padding }
    }

    /// The hash stored in this node.
    pub fn get_hash(&self) -> (hash: [u8; 32])
        ensures
            hash == self.hash,
    {
        self.hash
    }

    /// Whether this node is an interior node, the only kind with children.
    pub fn has_children(&self) -> (yes: bool)
        ensures
            yes == self@.is_leaf(),
    {
        match &self.inner {
            NodeInner::Leaf => true,
            NodeInner::Padding => false,
            NodeInner::Data(_) => false,
        }
    }
}

} // verus!
