//! Tree-shaped recursive algorithms run without the host call stack: each
//! algorithm is driven by an explicit LIFO stack of work items plus a stack
//! of partial results, and is proved to produce exactly what the natural
//! recursion produces.

use vstd::prelude::*;

pub mod builder;
pub mod inverter;
pub mod printer;
pub mod tree;
pub mod visitor;

use builder::build_tree;
use inverter::mirror;
use printer::print_lines;
use tree::Node;
use visitor::VisitOrder;
use visitor::traversal;

verus! {

/// The empty tree is an ordinary input everywhere, not a special case:
/// depth 0 builds it, mirroring it gives it back, every traversal of it
/// is empty, and its rendering has no lines.
pub proof fn lemma_empty_base<T>(counter: int, order: VisitOrder, level: usize)
    ensures
        build_tree(0, counter) == None::<Box<Node<i32>>>,
        mirror(None::<Box<Node<T>>>) == None::<Box<Node<T>>>,
        traversal(None::<Box<Node<T>>>, order) == Seq::<T>::empty(),
        print_lines(None::<Box<Node<T>>>, level) == Seq::<(T, usize)>::empty(),
{
}

} // verus!
