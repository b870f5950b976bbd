//! The binary-tree data type and the tagged work items that drive the
//! explicit-stack interpreters.

use vstd::prelude::*;

verus! {

/// A subtree slot: either empty (`None`) or an exclusively owned node.
/// The empty slot is a first-class value, valid at every level including
/// the top (the empty tree).
pub type Noderef<T> = Option<Box<Node<T>>>;

/// One node of a binary tree: a value and two owned subtree slots.
/// Nodes are never mutated after construction; transformations build
/// fresh nodes.
#[derive(Debug, Default, PartialEq, Eq)]
pub struct Node<T> {
    pub value: T,
    pub right: Noderef<T>,
    pub left: Noderef<T>,
}

/// One pending unit of simulated call-stack work: `Call` stands for a
/// recursive sub-call still to be expanded, `Handle` for the code that
/// runs after the sub-calls below it have finished.
pub enum Action<T, U> {
    Call(T),
    Handle(U),
}

/// The number of nodes in a tree.
pub open spec fn node_count<T>(root: Noderef<T>) -> nat
    decreases root,
{
    match root {
        None => 0,
        Some(node) => 1 + node_count(node.left) + node_count(node.right),
    }
}

/// The height of a tree: 0 for the empty tree, otherwise one more than
/// the taller subtree.
pub open spec fn height<T>(root: Noderef<T>) -> nat
    decreases root,
{
    match root {
        None => 0,
        Some(node) => 1 + if height(node.left) >= height(node.right) {
            height(node.left)
        } else {
            height(node.right)
        },
    }
}

} // verus!
