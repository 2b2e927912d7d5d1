//! A merkle tree over byte payloads, stored as a flat array whose positions
//! imply the parent and child relations.
//!
//! [`Tree::new`] builds a tree from payloads, [`Tree::verify`] recomputes its
//! hashes, and [`Tree::parent`], [`Tree::left`] and [`Tree::right`] move
//! through it by position.

pub mod builder;
pub mod digest;
pub mod layout;
pub mod node;
pub mod retrieval;
pub mod tree;
pub mod verify;

pub use node::{Node, NodeInner};
pub use tree::Tree;
