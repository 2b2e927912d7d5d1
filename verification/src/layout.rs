//! How the levels of a tree follow from its payloads, and where each level
//! lies in the tree's array.

use vstd::prelude::*;
use vstd::arithmetic::power2::{lemma2_to64, lemma_pow2_unfold, pow2};
use crate::node::{data_node, leaf_node, padding_node, NodeView};
use crate::tree::{hashes_ok, in_tree, node_ok, shape_ok};

verus! {

/// The data blocks of the payloads, in the order given.
pub open spec fn data_level(payloads: Seq<Seq<u8>>) -> Seq<NodeView> {
    Seq::new(payloads.len(), |k: int| data_node(payloads[k]))
}

/// A level made ready for pairing: where it has more than one node and an odd
/// count, one padding node is added on the right.
pub open spec fn evened(level: Seq<NodeView>) -> Seq<NodeView> {
    if level.len() > 1 && level.len() % 2 == 1 {
        level.push(padding_node())
    } else {
        level
    }
}

/// Whether a level can be paired as it stands: it is a single node, or has an
/// even count.
pub open spec fn ready(level: Seq<NodeView>) -> bool {
    level.len() <= 1 || level.len() % 2 == 0
}

/// The pairs over a level, from left to right: the node at place `j` stands
/// above the nodes at places `2 * j` and `2 * j + 1`.
pub open spec fn paired(level: Seq<NodeView>) -> Seq<NodeView> {
    Seq::new(level.len() / 2, |j: int| leaf_node(level[2 * j].hash, level[2 * j + 1].hash))
}

/// The level above `level`, itself made ready for pairing.
pub open spec fn level_above(level: Seq<NodeView>) -> Seq<NodeView> {
    evened(paired(level))
}

/// How many levels stand above `level`.
pub open spec fn height_above(level: Seq<NodeView>) -> nat
    decreases level.len(),
{
    if level.len() <= 1 {
        0
    } else {
        1 + height_above(level_above(level))
    }
}

/// The level that stands `steps` levels above `level`.
pub open spec fn level_up(level: Seq<NodeView>, steps: nat) -> Seq<NodeView>
    decreases steps,
{
    if steps == 0 {
        level
    } else {
        level_above(level_up(level, (steps - 1) as nat))
    }
}

/// A level brought to `width` nodes with padding on the right.
pub open spec fn filled(level: Seq<NodeView>, width: nat) -> Seq<NodeView> {
    Seq::new(
        width,
        |j: int|
            if j < level.len() {
                level[j]
            } else {
                padding_node()
            },
    )
}

/// All the levels above `level` in one run, the root first. Each of them is
/// filled to the full width of its depth, so that the children of the node at
/// position `i` lie at `2 * i + 1` and `2 * i + 2`.
pub open spec fn upper_levels(level: Seq<NodeView>) -> Seq<NodeView>
    decreases level.len(),
{
    if level.len() <= 1 {
        Seq::empty()
    } else {
        let above = level_above(level);
        upper_levels(above) + filled(above, pow2(height_above(above)))
    }
}

/// The array of the tree whose bottom level is `level`: the levels above it,
/// then the level itself.
pub open spec fn laid_out(level: Seq<NodeView>) -> Seq<NodeView> {
    upper_levels(level) + level
}

/// The bottom level of the tree built from `payloads`.
pub open spec fn bottom_level(payloads: Seq<Seq<u8>>) -> Seq<NodeView> {
    evened(data_level(payloads))
}

/// The array of the tree built from `payloads`.
pub open spec fn tree_nodes(payloads: Seq<Seq<u8>>) -> Seq<NodeView> {
    laid_out(bottom_level(payloads))
}

/// The position in the array at which the bottom level of a tree of the given
/// height starts.
pub open spec fn bottom_start(height: nat) -> nat {
    (pow2(height) - 1) as nat
}

/// The positions of the payloads' data blocks in the array, in the order the
/// payloads were given.
pub open spec fn data_positions(payloads: Seq<Seq<u8>>) -> Seq<usize> {
    let start = bottom_start(height_above(bottom_level(payloads)));
    Seq::new(payloads.len(), |k: int| (start + k) as usize)
}

/// A level is no wider than its depth allows: it has at most `2^h` nodes,
/// where `h` is the number of levels above it.
pub proof fn lemma_level_fits(level: Seq<NodeView>)
    requires
        ready(level),
    ensures
        level.len() <= pow2(height_above(level)),
        pow2(height_above(level)) >= 1,
    decreases level.len(),
{
    lemma2_to64();
    if level.len() > 1 {
        let above = level_above(level);
        lemma_level_fits(above);
        lemma_pow2_unfold(height_above(level));
    }
}

/// Every level above a level that is ready for pairing is ready itself.
pub proof fn lemma_ready_up(level: Seq<NodeView>, steps: nat)
    requires
        ready(level),
    ensures
        ready(level_up(level, steps)),
{
}

/// The levels above a level of height `h` take `2^h - 1` places.
pub proof fn lemma_upper_len(level: Seq<NodeView>)
    ensures
        upper_levels(level).len() == pow2(height_above(level)) - 1,
    decreases level.len(),
{
    lemma2_to64();
    if level.len() > 1 {
        let above = level_above(level);
        lemma_upper_len(above);
        lemma_level_fits(above);
        lemma_pow2_unfold(height_above(level));
    }
}

/// In the array over a level, every interior node above that level has its
/// two children in the array and stores the hash of their hashes, and no node
/// above the level is a data block.
pub proof fn lemma_upper_nodes(level: Seq<NodeView>)
    requires
        ready(level),
        level.len() >= 1,
    ensures
        forall|i: int|
            0 <= i < upper_levels(level).len() ==> !(#[trigger] laid_out(level)[i].kind is Data)
                && (laid_out(level)[i].is_leaf() ==> 2 * i + 2 < laid_out(level).len() && node_ok(
                laid_out(level),
                i,
            )),
    decreases level.len(),
{
    if level.len() > 1 {
        let above = level_above(level);
        let upper = upper_levels(above);
        let width = pow2(height_above(above));
        let row = filled(above, width);
        let all = laid_out(level);
        let prefix = laid_out(above);
        lemma_upper_nodes(above);
        lemma_upper_len(above);
        lemma_upper_len(level);
        lemma_level_fits(above);
        lemma_pow2_unfold(height_above(level));
        assert(upper_levels(level) == upper + row);
        assert(upper.len() == width - 1);
        assert(row.len() == width);
        assert(all.len() == 2 * width - 1 + level.len());
        assert forall|p: int| 0 <= p < prefix.len() implies all[p] == prefix[p] by {
            if p >= upper.len() {
                assert(all[p] == row[p - upper.len()]);
            }
        }
        assert forall|i: int| 0 <= i < upper_levels(level).len() implies !(#[trigger] all[i].kind is Data)
            && (all[i].is_leaf() ==> 2 * i + 2 < all.len() && node_ok(all, i)) by {
            if i < upper.len() {
                assert(all[i] == prefix[i]);
                if all[i].is_leaf() {
                    assert(2 * i + 2 < prefix.len());
                    assert(node_ok(prefix, i));
                    assert(all[2 * i + 1] == prefix[2 * i + 1]);
                    assert(all[2 * i + 2] == prefix[2 * i + 2]);
                }
            } else {
                let j = i - upper.len();
                assert(all[i] == row[j]);
                if j < paired(level).len() {
                    assert(row[j] == above[j]);
                    assert(above[j] == paired(level)[j]);
                    assert(all[2 * i + 1] == level[2 * j]);
                    assert(all[2 * i + 2] == level[2 * j + 1]);
                } else {
                    assert(row[j] == padding_node());
                }
            }
        }
    }
}

/// The array built from at least one payload is well formed in shape, and
/// every node in it stores the hash it should.
pub proof fn lemma_built_in_order(payloads: Seq<Seq<u8>>)
    requires
        payloads.len() >= 1,
    ensures
        tree_nodes(payloads).len() >= 1,
        shape_ok(tree_nodes(payloads)),
        hashes_ok(tree_nodes(payloads)),
{
    let bottom = bottom_level(payloads);
    let all = tree_nodes(payloads);
    lemma_upper_nodes(bottom);
    assert forall|i: int| 0 <= i < all.len() implies node_ok(all, i) && ((#[trigger] all[i]).is_leaf()
        ==> 2 * i + 2 < all.len()) by {
        if i >= upper_levels(bottom).len() {
            let k = i - upper_levels(bottom).len();
            assert(all[i] == bottom[k]);
            if k < payloads.len() {
                assert(bottom[k] == data_level(payloads)[k]);
            } else {
                assert(bottom[k] == padding_node());
            }
        } else {
            assert(!(laid_out(bottom)[i].kind is Data));
        }
    }
}

/// A node that belongs to the tree in an array still does when the array
/// goes on behind it.
pub proof fn lemma_in_tree_extends(short: Seq<NodeView>, long: Seq<NodeView>, i: int)
    requires
        short.len() <= long.len(),
        forall|p: int| 0 <= p < short.len() ==> long[p] == short[p],
        in_tree(short, i),
    ensures
        in_tree(long, i),
    decreases i,
{
    if i > 0 {
        lemma_in_tree_extends(short, long, (i - 1) / 2);
    }
}

/// Every node of a level belongs to the tree over that level.
pub proof fn lemma_level_in_tree(level: Seq<NodeView>, k: int)
    requires
        ready(level),
        0 <= k < level.len(),
    ensures
        in_tree(laid_out(level), upper_levels(level).len() + k),
    decreases level.len(),
{
    if level.len() > 1 {
        let above = level_above(level);
        let upper = upper_levels(above);
        let width = pow2(height_above(above));
        let row = filled(above, width);
        let all = laid_out(level);
        let prefix = laid_out(above);
        let j = k / 2;
        lemma_level_in_tree(above, j);
        lemma_upper_len(above);
        lemma_upper_len(level);
        lemma_level_fits(above);
        lemma_pow2_unfold(height_above(level));
        assert(upper_levels(level) == upper + row);
        assert forall|p: int| 0 <= p < prefix.len() implies all[p] == prefix[p] by {
            if p >= upper.len() {
                assert(all[p] == row[p - upper.len()]);
            }
        }
        lemma_in_tree_extends(prefix, all, upper.len() + j);
        let i = upper_levels(level).len() + k;
        assert((i - 1) / 2 == upper.len() + j);
        assert(all[upper.len() + j] == row[j]);
        assert(row[j] == above[j]);
        assert(above[j] == paired(level)[j]);
    }
}

/// Where the data blocks lie. In the tree built from at least one payload,
/// the data block of the payload given at place `k` stands at place `k` of
/// the bottom level, which starts at position `2^h - 1` for a tree of height
/// `h`, and it belongs to the tree.
pub proof fn lemma_data_block_placed(payloads: Seq<Seq<u8>>, k: int)
    requires
        0 <= k < payloads.len(),
    ensures
        bottom_start(height_above(bottom_level(payloads))) + k < tree_nodes(payloads).len(),
        tree_nodes(payloads)[bottom_start(height_above(bottom_level(payloads))) + k] == data_node(
            payloads[k],
        ),
        in_tree(tree_nodes(payloads), bottom_start(height_above(bottom_level(payloads))) + k),
{
    let bottom = bottom_level(payloads);
    lemma_upper_len(bottom);
    lemma_level_in_tree(bottom, k);
    assert(bottom[k] == data_level(payloads)[k]);
}

/// A power of two is one or even.
pub proof fn lemma_pow2_parity(e: nat)
    ensures
        pow2(e) == 1 || pow2(e) % 2 == 0,
{
    lemma2_to64();
    if e > 0 {
        lemma_pow2_unfold(e);
    }
}

/// A level of more than one node lies more than one step under the top only
/// if it is wider than half the width its depth allows: with `h` levels above
/// it, it has more than `2^(h - 1)` nodes.
pub proof fn lemma_level_needs_height(level: Seq<NodeView>)
    requires
        ready(level),
        level.len() > 1,
    ensures
        height_above(level) >= 1,
        pow2((height_above(level) - 1) as nat) < level.len(),
    decreases level.len(),
{
    lemma2_to64();
    let above = level_above(level);
    let half = paired(level).len();
    assert(level.len() == 2 * half);
    if above.len() > 1 {
        let less = (height_above(above) - 1) as nat;
        lemma_level_needs_height(above);
        lemma_pow2_unfold(height_above(above));
        lemma_pow2_parity(less);
        assert(pow2(less) < half) by {
            if above.len() != half {
                assert(above.len() == half + 1 && half % 2 == 1);
            }
        }
    } else {
        assert(height_above(above) == 0);
    }
}

/// The height of a tree is the logarithm of its payload count, rounded up: a
/// tree over one payload has height 0, and a tree of height `h >= 1` holds
/// more than `2^(h - 1)` and at most `2^h` payloads.
pub proof fn lemma_height_is_log(payloads: Seq<Seq<u8>>)
    requires
        payloads.len() >= 1,
    ensures
        payloads.len() == 1 ==> height_above(bottom_level(payloads)) == 0,
        payloads.len() > 1 ==> height_above(bottom_level(payloads)) >= 1 && pow2(
            (height_above(bottom_level(payloads)) - 1) as nat,
        ) < payloads.len() <= pow2(height_above(bottom_level(payloads))),
{
    let bottom = bottom_level(payloads);
    lemma_level_fits(bottom);
    if payloads.len() > 1 {
        lemma_level_needs_height(bottom);
        lemma_pow2_parity((height_above(bottom) - 1) as nat);
    }
}

} // verus!
