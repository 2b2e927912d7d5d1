//! Verifying a tree: recomputing each stored hash from what it commits to.

use vstd::prelude::*;
use crate::digest::{digest, digest_eq, hash_lr};
use crate::layout::{lemma_built_in_order, tree_nodes};
use crate::node::{Node, NodeInner, NodeView};
use crate::tree::{below, expected_hash, hashes_ok, in_tree, node_ok, shape_ok, Tree};

verus! {

/// A stored hash that does not match what it should commit to.
#[derive(Debug, Clone, Copy, PartialEq, Eq)]
pub struct Mismatch {
    /// The position of the node in the tree's array.
    pub position: usize,
    /// The hash recomputed from the node's payload or from its children.
    pub expected: [u8; 32],
    /// The hash that the node stores.
    pub found: [u8; 32],
}

/// What is wrong with the node at position `i` where it is not in order.
pub open spec fn mismatch_at(nodes: Seq<NodeView>, i: int) -> Mismatch {
    Mismatch { position: i as usize, expected: expected_hash(nodes, i), found: nodes[i].hash }
}

/// The first mismatch in the subtree below position `i`, if it has one: the
/// left child's subtree is searched first, then the right child's, and the
/// node itself comes last.
pub open spec fn first_mismatch(nodes: Seq<NodeView>, i: int) -> Option<Mismatch>
    decreases nodes.len() - i,
{
    if 0 <= i < nodes.len() {
        let own = if node_ok(nodes, i) {
            None
        } else {
            Some(mismatch_at(nodes, i))
        };
        if nodes[i].is_leaf() && 2 * i + 2 < nodes.len() {
            match first_mismatch(nodes, 2 * i + 1) {
                Some(m) => Some(m),
                None => match first_mismatch(nodes, 2 * i + 2) {
                    Some(m) => Some(m),
                    None => own,
                },
            }
        } else {
            own
        }
    } else {
        None
    }
}

/// Where every node stores the hash it should, no subtree has a mismatch.
pub proof fn lemma_in_order_verifies(nodes: Seq<NodeView>, i: int)
    requires
        hashes_ok(nodes),
    ensures
        first_mismatch(nodes, i) is None,
    decreases nodes.len() - i,
{
    if 0 <= i < nodes.len() {
        assert(node_ok(nodes, i));
        if nodes[i].is_leaf() && 2 * i + 2 < nodes.len() {
            lemma_in_order_verifies(nodes, 2 * i + 1);
            lemma_in_order_verifies(nodes, 2 * i + 2);
        }
    }
}

/// Where the search from the root finds no mismatch, the search from any node
/// of the tree finds none, and that node stores the hash it should.
pub proof fn lemma_clean_tree_node(nodes: Seq<NodeView>, i: int)
    requires
        shape_ok(nodes),
        first_mismatch(nodes, 0) is None,
        in_tree(nodes, i),
    ensures
        first_mismatch(nodes, i) is None,
        node_ok(nodes, i),
    decreases i,
{
    if i > 0 {
        lemma_clean_tree_node(nodes, (i - 1) / 2);
    }
}

/// Where every node of the tree stores the hash it should, the search from
/// any node of the tree finds no mismatch.
pub proof fn lemma_tree_in_order_verifies(nodes: Seq<NodeView>, top: int)
    requires
        forall|i: int| in_tree(nodes, i) ==> node_ok(nodes, i),
        in_tree(nodes, top),
    ensures
        first_mismatch(nodes, top) is None,
    decreases nodes.len() - top,
{
    if nodes[top].is_leaf() && 2 * top + 2 < nodes.len() {
        assert(in_tree(nodes, 2 * top + 1));
        assert(in_tree(nodes, 2 * top + 2));
        lemma_tree_in_order_verifies(nodes, 2 * top + 1);
        lemma_tree_in_order_verifies(nodes, 2 * top + 2);
    }
}

/// What it means to verify. In a well formed array, the search from the
/// root finds no mismatch exactly if every node that belongs to the tree
/// stores the hash it should.
pub proof fn lemma_verified_means_in_order(nodes: Seq<NodeView>)
    requires
        nodes.len() > 0,
        shape_ok(nodes),
    ensures
        first_mismatch(nodes, 0) is None <==> (forall|i: int|
            in_tree(nodes, i) ==> node_ok(nodes, i)),
{
    if first_mismatch(nodes, 0) is None {
        assert forall|i: int| in_tree(nodes, i) implies node_ok(nodes, i) by {
            lemma_clean_tree_node(nodes, i);
        }
    }
    if forall|i: int| in_tree(nodes, i) ==> node_ok(nodes, i) {
        lemma_tree_in_order_verifies(nodes, 0);
    }
}

/// A tree built from at least one payload verifies: it is well
/// formed, and the search for a mismatch from the root finds none.
pub proof fn lemma_built_tree_verifies(tree: Tree, payloads: Seq<Seq<u8>>)
    requires
        payloads.len() >= 1,
        tree.built_from(payloads),
    ensures
        tree.well_formed(),
        first_mismatch(tree.nodes(), 0) is None,
{
    lemma_built_in_order(payloads);
    lemma_in_order_verifies(tree.nodes(), 0);
}

/// The array with the hash stored at position `i` replaced by `hash`.
pub open spec fn with_hash(nodes: Seq<NodeView>, i: int, hash: [u8; 32]) -> Seq<NodeView> {
    nodes.update(i, NodeView { hash, kind: nodes[i].kind })
}

/// What lies below a node lies below the node's parent.
pub proof fn lemma_below_parent(i: int, top: int)
    requires
        top >= 1,
        below(i, top),
    ensures
        below(i, (top - 1) / 2),
    decreases i,
{
    if i != top {
        lemma_below_parent((i - 1) / 2, top);
    } else {
        assert(below((top - 1) / 2, (top - 1) / 2));
    }
}

/// What lies below a node, and is not the node, lies below one of its
/// children.
pub proof fn lemma_below_child(i: int, top: int)
    requires
        top >= 0,
        below(i, top),
        i != top,
    ensures
        below(i, 2 * top + 1) || below(i, 2 * top + 2),
    decreases i,
{
    if (i - 1) / 2 != top {
        lemma_below_child((i - 1) / 2, top);
    }
}

/// Every node above a node of the tree is an interior node in the array.
pub proof fn lemma_path_of_leaves(nodes: Seq<NodeView>, i: int, top: int)
    requires
        top >= 0,
        in_tree(nodes, i),
        below(i, top),
        i != top,
    ensures
        top < nodes.len(),
        nodes[top].is_leaf(),
    decreases i,
{
    if (i - 1) / 2 != top {
        lemma_path_of_leaves(nodes, (i - 1) / 2, top);
    }
}

/// Replacing the hash at position `i` leaves every subtree that does not
/// hold `i` without a mismatch.
pub proof fn lemma_untouched_subtree(nodes: Seq<NodeView>, i: int, hash: [u8; 32], top: int)
    requires
        shape_ok(nodes),
        hashes_ok(nodes),
        0 <= i < nodes.len(),
        top >= 0,
        !below(i, top),
    ensures
        first_mismatch(with_hash(nodes, i, hash), top) is None,
    decreases nodes.len() - top,
{
    let changed = with_hash(nodes, i, hash);
    if top < nodes.len() {
        assert(changed[top] == nodes[top]);
        assert(node_ok(nodes, top));
        if nodes[top].is_leaf() {
            assert(2 * top + 2 < nodes.len());
            if below(i, 2 * top + 1) {
                lemma_below_parent(i, 2 * top + 1);
            }
            if below(i, 2 * top + 2) {
                lemma_below_parent(i, 2 * top + 2);
            }
            lemma_untouched_subtree(nodes, i, hash, 2 * top + 1);
            lemma_untouched_subtree(nodes, i, hash, 2 * top + 2);
            assert(changed[2 * top + 1] == nodes[2 * top + 1]);
            assert(changed[2 * top + 2] == nodes[2 * top + 2]);
        }
        assert(node_ok(changed, top));
    }
}

/// Replacing the hash at position `i` makes the search in any subtree that
/// holds `i` stop at `i`.
pub proof fn lemma_corrupted_subtree(nodes: Seq<NodeView>, i: int, hash: [u8; 32], top: int)
    requires
        shape_ok(nodes),
        hashes_ok(nodes),
        in_tree(nodes, i),
        !(nodes[i].kind is Padding),
        hash != nodes[i].hash,
        top >= 0,
        below(i, top),
    ensures
        first_mismatch(with_hash(nodes, i, hash), top) == Some(
            Mismatch { position: i as usize, expected: nodes[i].hash, found: hash },
        ),
    decreases nodes.len() - top,
{
    let changed = with_hash(nodes, i, hash);
    assert(0 <= i < nodes.len());
    assert(node_ok(nodes, i));
    if top == i {
        if nodes[i].is_leaf() {
            assert(2 * i + 2 < nodes.len());
            lemma_untouched_subtree(nodes, i, hash, 2 * i + 1);
            lemma_untouched_subtree(nodes, i, hash, 2 * i + 2);
            assert(changed[2 * i + 1] == nodes[2 * i + 1]);
            assert(changed[2 * i + 2] == nodes[2 * i + 2]);
        }
        assert(expected_hash(changed, i) == nodes[i].hash);
        assert(!node_ok(changed, i));
    } else {
        lemma_path_of_leaves(nodes, i, top);
        assert(changed[top] == nodes[top]);
        assert(2 * top + 2 < nodes.len());
        lemma_below_child(i, top);
        if below(i, 2 * top + 1) {
            lemma_corrupted_subtree(nodes, i, hash, 2 * top + 1);
        } else {
            lemma_untouched_subtree(nodes, i, hash, 2 * top + 1);
            lemma_corrupted_subtree(nodes, i, hash, 2 * top + 2);
        }
    }
}

/// Corrupting one stored hash is found out. Where every node of a well
/// formed array stores the hash it should, and the hash of one data block or
/// interior node of the tree is replaced by another, verifying the whole
/// tree reports that very position, with the hash that was there as the
/// expected one and the replacement as the one found. Padding is left out:
/// its own hash is never recomputed, so a replaced padding hash can show only
/// where the hash of its parent is recomputed.
pub proof fn lemma_corruption_found(nodes: Seq<NodeView>, i: int, hash: [u8; 32])
    requires
        shape_ok(nodes),
        hashes_ok(nodes),
        in_tree(nodes, i),
        !(nodes[i].kind is Padding),
        hash != nodes[i].hash,
    ensures
        first_mismatch(with_hash(nodes, i, hash), 0) == Some(
            Mismatch { position: i as usize, expected: nodes[i].hash, found: hash },
        ),
{
    lemma_below_root(i);
    lemma_corrupted_subtree(nodes, i, hash, 0);
}

/// Corrupting one stored hash of a built tree is found out: the search names
/// the position of the data block or interior node whose hash was replaced.
pub proof fn lemma_built_tree_detects(payloads: Seq<Seq<u8>>, i: int, hash: [u8; 32])
    requires
        payloads.len() >= 1,
        in_tree(tree_nodes(payloads), i),
        !(tree_nodes(payloads)[i].kind is Padding),
        hash != tree_nodes(payloads)[i].hash,
    ensures
        first_mismatch(with_hash(tree_nodes(payloads), i, hash), 0) == Some(
            Mismatch { position: i as usize, expected: tree_nodes(payloads)[i].hash, found: hash },
        ),
{
    lemma_built_in_order(payloads);
    lemma_corruption_found(tree_nodes(payloads), i, hash);
}

/// Every position from the root on lies below the root.
pub proof fn lemma_below_root(i: int)
    requires
        i >= 0,
    ensures
        below(i, 0),
    decreases i,
{
    if i > 0 {
        lemma_below_root((i - 1) / 2);
    }
}

impl Tree {
    /// Verifies the subtree below position `pos`, the children before their
    /// parent and the left child before the right, and stops at the first
    /// node whose stored hash is not the one recomputed.
    pub fn verify_node(&self, pos: usize) -> (checked: Result<(), Mismatch>)
        requires
            self.well_formed(),
            pos < self.inner@.len(),
        ensures
            match checked {
                Ok(()) => first_mismatch(self.nodes(), pos as int) is None,
                Err(m) => first_mismatch(self.nodes(), pos as int) == Some(m),
            },
        decreases self.inner@.len() - pos,
    {
        let len: usize = self.inner.len();
        let node: &Node = &self.inner[pos];
        assert(self.nodes()[pos as int] == node@);
        let expected: [u8; 32] = match &node.inner {
            NodeInner::Data(payload) => digest(payload.as_slice()),
            NodeInner::Padding => { return Ok(()); },
            NodeInner::Leaf => {
                assert(self.nodes()[pos as int].is_leaf());
                assert(2 * pos + 2 < len);
                let left: usize = 2 * pos + 1;
                let right: usize = 2 * pos + 2;
                match self.verify_node(left) {
                    Err(m) => { return Err(m); },
                    Ok(()) => {},
                }
                match self.verify_node(right) {
                    Err(m) => { return Err(m); },
                    Ok(()) => {},
                }
                assert(self.nodes()[left as int] == self.inner@[left as int]@);
                assert(self.nodes()[right as int] == self.inner@[right as int]@);
                hash_lr(&self.inner[left].hash, &self.inner[right].hash)
            },
        };
        if digest_eq(&node.hash, &expected) {
            Ok(())
        } else {
            Err(Mismatch { position: pos, expected, found: node.hash })
        }
    }

    /// Verifies the whole tree from the root.
    pub fn verify(&self) -> (checked: Result<(), Mismatch>)
        requires
            self.well_formed(),
        ensures
            match checked {
                Ok(()) => first_mismatch(self.nodes(), 0) is None,
                Err(m) => first_mismatch(self.nodes(), 0) == Some(m),
            },
    {
        self.verify_node(0)
    }
}

} // verus!
