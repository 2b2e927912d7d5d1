//! Building a tree from payloads: the bottom level of data blocks, the levels
//! of pairs above it, and their layout in one array.

use vstd::prelude::*;
use vstd::arithmetic::power2::pow2;
use crate::layout::{
    bottom_level, data_level, data_positions, evened, filled, height_above, laid_out,
    lemma_built_in_order, lemma_level_fits, lemma_ready_up, lemma_upper_len, level_above,
    level_up, paired, ready, upper_levels,
};
use crate::node::{data_node, leaf_node, node_views, Node, NodeView};
use crate::tree::{hashes_ok, EmptyInputError, Tree};

verus! {

/// The byte strings that a list of payloads holds, place by place.
pub open spec fn payload_views(payloads: Seq<Vec<u8>>) -> Seq<Seq<u8>> {
    Seq::new(payloads.len(), |k: int| payloads[k]@)
}

/// Turns payloads into data blocks, hashing each.
pub fn data_blocks(payloads: Vec<Vec<u8>>) -> (blocks: Vec<Node>)
    ensures
        node_views(blocks@) == data_level(payload_views(payloads@)),
{
    let ghost given = payloads@;
    let mut blocks: Vec<Node> = Vec::new();
    for payload in it: payloads.into_iter()
        invariant
            it.seq() == given,
            blocks@.len() == it.index(),
            forall|k: int| 0 <= k < blocks@.len() ==> (#[trigger] blocks@[k])@ == data_node(given[k]@),
    {
        blocks.push(Node::new_data(payload));
    }
    assert(node_views(blocks@) =~= data_level(payload_views(given)));
    blocks
}

/// Makes a level ready for pairing: adds one padding node on the right where
/// the level has more than one node and an odd count.
pub fn even_out(level: &mut Vec<Node>)
    ensures
        node_views(final(level)@) == evened(node_views(old(level)@)),
{
    if level.len() > 1 && level.len() % 2 == 1 {
        level.push(Node::new_padding());
        assert(node_views(level@) =~= evened(node_views(old(level)@)));
    }
}

/// Pairs the nodes of a level from left to right and gives the level of
/// interior nodes above them.
pub fn pair_up(level: &Vec<Node>) -> (above: Vec<Node>)
    ensures
        node_views(above@) == paired(node_views(level@)),
{
    let len: usize = level.len();
    let count: usize = len / 2;
    let mut above: Vec<Node> = Vec::new();
    let mut j: usize = 0;
    while j < count
        invariant
            len == level@.len(),
            count == len / 2,
            j <= count,
            above@.len() == j,
            forall|k: int| 0 <= k < j ==> (#[trigger] above@[k])@ == leaf_node(
                level@[2 * k].hash,
                level@[2 * k + 1].hash,
            ),
        decreases count - j,
    {
        let left: [u8; 32] = level[2 * j].hash;
        let right: [u8; 32] = level[2 * j + 1].hash;
        above.push(Node::new_leaf(left, right));
        j = j + 1;
    }
    assert(node_views(above@) =~= paired(node_views(level@)));
    above
}

/// Adds `count` padding nodes on the right of a level.
pub fn push_padding(level: &mut Vec<Node>, count: usize)
    ensures
        node_views(final(level)@) == filled(
            node_views(old(level)@),
            (old(level)@.len() + count) as nat,
        ),
{
    let ghost before = node_views(level@);
    let mut added: usize = 0;
    while added < count
        invariant
            added <= count,
            before.len() == old(level)@.len(),
            level@.len() == before.len() + added,
            node_views(level@) == filled(before, (before.len() + added) as nat),
        decreases count - added,
    {
        let ghost shorter = level@;
        level.push(Node::new_padding());
        added = added + 1;
        assert forall|j: int| 0 <= j < level@.len() implies node_views(level@)[j] == filled(
            before,
            (before.len() + added) as nat,
        )[j] by {
            if j < shorter.len() {
                assert(node_views(shorter)[j] == shorter[j]@);
            }
        }
        assert(node_views(level@) =~= filled(before, (before.len() + added) as nat));
    }
    assert(node_views(level@) =~= filled(before, (before.len() + count) as nat)) by {
        assert(before =~= filled(before, before.len()));
    }
}

/// Builds the levels above a bottom level, one after the other, until a
/// single node is left. Gives that top level, and the levels below it from
/// the bottom up.
fn stack_levels(bottom: Vec<Node>) -> (stack: (Vec<Node>, Vec<Vec<Node>>))
    ensures
        node_views(stack.0@) == level_up(node_views(bottom@), stack.1@.len() as nat),
        stack.0@.len() <= 1,
        bottom@.len() >= 1 ==> stack.0@.len() == 1,
        forall|d: int|
            0 <= d < stack.1@.len() ==> node_views(#[trigger] stack.1@[d]@) == level_up(
                node_views(bottom@),
                d as nat,
            ) && stack.1@[d]@.len() > 1,
{
    let ghost lowest = node_views(bottom@);
    let mut current: Vec<Node> = bottom;
    let mut below: Vec<Vec<Node>> = Vec::new();
    while current.len() > 1
        invariant
            lowest.len() >= 1 ==> current@.len() >= 1,
            node_views(current@) == level_up(lowest, below@.len() as nat),
            forall|d: int|
                0 <= d < below@.len() ==> node_views(#[trigger] below@[d]@) == level_up(
                    lowest,
                    d as nat,
                ) && below@[d]@.len() > 1,
        decreases current@.len(),
    {
        let mut above: Vec<Node> = pair_up(&current);
        even_out(&mut above);
        assert(above@.len() == node_views(above@).len());
        below.push(current);
        current = above;
    }
    (current, below)
}

/// Lays the levels out in one array, the top level first. Every level but
/// the bottom one is filled with padding to the full width of its depth.
/// Gives the array and the position at which the bottom level starts.
fn flatten(top: Vec<Node>, below: Vec<Vec<Node>>, Ghost(bottom): Ghost<Seq<NodeView>>) -> (out: (
    Vec<Node>,
    usize,
))
    requires
        ready(bottom),
        top@.len() == 1,
        node_views(top@) == level_up(bottom, below@.len() as nat),
        forall|d: int|
            0 <= d < below@.len() ==> node_views(#[trigger] below@[d]@) == level_up(bottom, d as nat)
                && below@[d]@.len() > 1,
    ensures
        node_views(out.0@) == laid_out(bottom),
        out.1 == upper_levels(bottom).len(),
{
    let mut inner: Vec<Node> = top;
    let mut below: Vec<Vec<Node>> = below;
    let mut start: usize = 0;
    proof {
        assert(node_views(inner@).len() == 1);
        assert(upper_levels(node_views(inner@)) =~= Seq::empty());
        assert(node_views(inner@) =~= laid_out(node_views(inner@)));
    }
    while below.len() > 0
        invariant
            ready(bottom),
            forall|d: int|
                0 <= d < below@.len() ==> node_views(#[trigger] below@[d]@) == level_up(
                    bottom,
                    d as nat,
                ) && below@[d]@.len() > 1,
            node_views(inner@) == laid_out(level_up(bottom, below@.len() as nat)),
            start == upper_levels(level_up(bottom, below@.len() as nat)).len(),
            level_up(bottom, below@.len() as nat).len() >= 1,
        decreases below@.len(),
    {
        let ghost depth = below@.len() as nat;
        let ghost upper = level_up(bottom, depth);
        let ghost lower = level_up(bottom, (depth - 1) as nat);
        let mut level: Vec<Node> = below.pop().unwrap();
        proof {
            assert(level@.len() == node_views(level@).len());
            lemma_ready_up(bottom, depth);
            lemma_level_fits(upper);
            lemma_upper_len(upper);
            assert(inner@.len() == node_views(inner@).len());
        }
        let lowest: usize = inner.len() - start;
        let missing: usize = start + 1 - lowest;
        push_padding(&mut inner, missing);
        proof {
            assert(node_views(inner@) =~= upper_levels(upper) + filled(
                upper,
                pow2(height_above(upper)),
            ));
            assert(node_views(inner@) == upper_levels(lower));
            assert(inner@.len() == node_views(inner@).len());
        }
        start = inner.len();
        let ghost filled_up = inner@;
        inner.append(&mut level);
        proof {
            assert(node_views(inner@) =~= node_views(filled_up) + lower);
        }
    }
    (inner, start)
}

/// Records where the data blocks of `count` payloads lie, given the position
/// where the bottom level starts.
fn index_data(start: usize, count: usize) -> (data: Vec<usize>)
    requires
        start + count <= usize::MAX,
    ensures
        data@ == Seq::new(count as nat, |k: int| (start + k) as usize),
{
    let mut data: Vec<usize> = Vec::new();
    let mut k: usize = 0;
    while k < count
        invariant
            k <= count,
            start + count <= usize::MAX,
            data@ == Seq::new(k as nat, |j: int| (start + j) as usize),
        decreases count - k,
    {
        data.push(start + k);
        k = k + 1;
        assert(data@ =~= Seq::new(k as nat, |j: int| (start + j) as usize));
    }
    data
}

impl Tree {
    /// Builds the tree over `payloads`, which are kept in the order given.
    ///
    /// Each payload becomes a data block of the bottom level. Each level of
    /// more than one node is paired from left to right into the level above,
    /// after one padding node was added on its right if its count was odd;
    /// the padding's hash enters its parent's hash like any other. Building
    /// from no payloads fails.
    pub fn new(payloads: Vec<Vec<u8>>) -> (built: Result<Tree, EmptyInputError>)
        ensures
            built is Err <==> payloads@.len() == 0,
            built matches Ok(tree) ==> tree.built_from(payload_views(payloads@))
                && tree.well_formed() && hashes_ok(tree.nodes()),
    {
        let count: usize = payloads.len();
        if count == 0 {
            return Err(EmptyInputError);
        }
        let ghost given = payload_views(payloads@);
        let mut blocks: Vec<Node> = data_blocks(payloads);
        even_out(&mut blocks);
        let ghost bottom = node_views(blocks@);
        let bottom_len: usize = blocks.len();
        assert(bottom == bottom_level(given));
        assert(count <= bottom_len) by {
            assert(data_level(given).len() == count);
        }
        let (top, below) = stack_levels(blocks);
        let (inner, start) = flatten(top, below, Ghost(bottom));
        let total: usize = inner.len();
        proof {
            lemma_upper_len(bottom);
            assert(inner@.len() == node_views(inner@).len());
            assert(total == start + bottom_len);
        }
        let data: Vec<usize> = index_data(start, count);
        let tree = Tree { inner, data };
        proof {
            assert(tree.data@ =~= data_positions(given));
            lemma_built_in_order(given);
        }
        Ok(tree)
    }
}

} // verus!
