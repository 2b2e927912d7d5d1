//! Moving through a tree by position: from a node to its parent or to one of
//! its children.

use vstd::prelude::*;
use crate::node::Node;
use crate::tree::{left_pos, parent_pos, right_pos, Tree};

verus! {

impl Tree {
    /// The parent of the node at `ind`, with its position. There is none for
    /// the root, nor where the parent's position is outside the array.
    pub fn parent(&self, ind: usize) -> (found: Option<(usize, &Node)>)
        ensures
            match found {
                Some((pos, node)) => parent_pos(self.inner@.len(), ind as int) == Some(pos as int)
                    && *node == self.inner@[pos as int],
                None => parent_pos(self.inner@.len(), ind as int) is None,
            },
    {
        if ind < 1 {
            None
        } else {
            let pos: usize = (ind - 1) / 2;
            if pos < self.inner.len() {
                Some((pos, &self.inner[pos]))
            } else {
                None
            }
        }
    }

    /// The parent of the node at `ind`, for changing it in place, with its
    /// position. Nothing else in the tree changes.
    pub fn parent_mut(&mut self, ind: usize) -> (found: Option<(usize, &mut Node)>)
        ensures
            match found {
                Some((pos, node)) => parent_pos(old(self).inner@.len(), ind as int) == Some(pos as int)
                    && *node == old(self).inner@[pos as int]
                    && final(self).inner@ == old(self).inner@.update(pos as int, *final(node))
                    && final(self).data == old(self).data,
                None => parent_pos(old(self).inner@.len(), ind as int) is None
                    && *final(self) == *old(self),
            },
    {
        if ind < 1 {
            None
        } else {
            let pos: usize = (ind - 1) / 2;
            if pos < self.inner.len() {
                Some((pos, &mut self.inner[pos]))
            } else {
                None
            }
        }
    }

    /// The left child of the node at `ind`, with its position. There is none
    /// where `ind` holds no interior node, nor where the child's position is
    /// outside the array.
    pub fn left(&self, ind: usize) -> (found: Option<(usize, &Node)>)
        ensures
            match found {
                Some((pos, node)) => left_pos(self.nodes(), ind as int) == Some(pos as int)
                    && *node == self.inner@[pos as int],
                None => left_pos(self.nodes(), ind as int) is None,
            },
    {
        let len: usize = self.inner.len();
        if ind >= len || !self.inner[ind].has_children() {
            return None;
        }
        if ind > (len - 1) / 2 {
            return None;
        }
        let pos: usize = ind * 2 + 1;
        if pos < len {
            Some((pos, &self.inner[pos]))
        } else {
            None
        }
    }

    /// The left child of the node at `ind`, for changing it in place, with
    /// its position. Nothing else in the tree changes.
    pub fn left_mut(&mut self, ind: usize) -> (found: Option<(usize, &mut Node)>)
        ensures
            match found {
                Some((pos, node)) => left_pos(old(self).nodes(), ind as int) == Some(pos as int)
                    && *node == old(self).inner@[pos as int]
                    && final(self).inner@ == old(self).inner@.update(pos as int, *final(node))
                    && final(self).data == old(self).data,
                None => left_pos(old(self).nodes(), ind as int) is None
                    && *final(self) == *old(self),
            },
    {
        let len: usize = self.inner.len();
        if ind >= len || !self.inner[ind].has_children() {
            return None;
        }
        if ind > (len - 1) / 2 {
            return None;
        }
        let pos: usize = ind * 2 + 1;
        if pos < len {
            Some((pos, &mut self.inner[pos]))
        } else {
            None
        }
    }

    /// The right child of the node at `ind`, with its position. There is none
    /// where `ind` holds no interior node, nor where the child's position is
    /// outside the array.
    pub fn right(&self, ind: usize) -> (found: Option<(usize, &Node)>)
        ensures
            match found {
                Some((pos, node)) => right_pos(self.nodes(), ind as int) == Some(pos as int)
                    && *node == self.inner@[pos as int],
                None => right_pos(self.nodes(), ind as int) is None,
            },
    {
        let len: usize = self.inner.len();
        if ind >= len || !self.inner[ind].has_children() {
            return None;
        }
        if ind >= (len - 1) / 2 {
            return None;
        }
        let pos: usize = ind * 2 + 2;
        if pos < len {
            Some((pos, &self.inner[pos]))
        } else {
            None
        }
    }

    /// The right child of the node at `ind`, for changing it in place, with
    /// its position. Nothing else in the tree changes.
    pub fn right_mut(&mut self, ind: usize) -> (found: Option<(usize, &mut Node)>)
        ensures
            match found {
                Some((pos, node)) => right_pos(old(self).nodes(), ind as int) == Some(pos as int)
                    && *node == old(self).inner@[pos as int]
                    && final(self).inner@ == old(self).inner@.update(pos as int, *final(node))
                    && final(self).data == old(self).data,
                None => right_pos(old(self).nodes(), ind as int) is None
                    && *final(self) == *old(self),
            },
    {
        let len: usize = self.inner.len();
        if ind >= len || !self.inner[ind].has_children() {
            return None;
        }
        if ind >= (len - 1) / 2 {
            return None;
        }
        let pos: usize = ind * 2 + 2;
        if pos < len {
            Some((pos, &mut self.inner[pos]))
        } else {
            None
        }
    }

    /// The data block of the payload that was given at place `index` when the
    /// tree was built. There is none where the tree records no such payload,
    /// nor where the recorded position is outside the array.
    pub fn lookup_data(&self, index: usize) -> (found: Option<&Node>)
        ensures
            match found {
                Some(node) => index < self.data@.len() && self.data@[index as int] < self.inner@.len()
                    && *node == self.inner@[self.data@[index as int] as int],
                None => index >= self.data@.len() || self.data@[index as int] >= self.inner@.len(),
            },
    {
        if index >= self.data.len() {
            return None;
        }
        let pos: usize = self.data[index];
        if pos < self.inner.len() {
            Some(&self.inner[pos])
        } else {
            None
        }
    }
}

} // verus!