//! Ordered traversal: the three classic orders as spec-level recursion
//! (the oracle) and as executable functions.

use vstd::prelude::*;

use crate::tree::Action;
use crate::tree::Noderef;

verus! {

/// Which of the three traversal orders to produce.
#[derive(Debug, Clone, Copy, PartialEq, Eq)]
pub enum VisitOrder {
    Pre,
    In,
    Post,
}

/// Pre-order: the node's value, then the left subtree, then the right.
pub open spec fn preorder<T>(root: Noderef<T>) -> Seq<T>
    decreases root,
{
    match root {
        None => Seq::empty(),
        Some(node) => seq![node.value] + preorder(node.left) + preorder(node.right),
    }
}

/// In-order: the left subtree, then the node's value, then the right.
pub open spec fn inorder<T>(root: Noderef<T>) -> Seq<T>
    decreases root,
{
    match root {
        None => Seq::empty(),
        Some(node) => inorder(node.left) + seq![node.value] + inorder(node.right),
    }
}

/// Post-order: the left subtree, then the right, then the node's value.
pub open spec fn postorder<T>(root: Noderef<T>) -> Seq<T>
    decreases root,
{
    match root {
        None => Seq::empty(),
        Some(node) => postorder(node.left) + postorder(node.right) + seq![node.value],
    }
}

/// The sequence a traversal of the given order emits.
pub open spec fn traversal<T>(root: Noderef<T>, order: VisitOrder) -> Seq<T> {
    match order {
        VisitOrder::Pre => preorder(root),
        VisitOrder::In => inorder(root),
        VisitOrder::Post => postorder(root),
    }
}

/// Recursive reference traversal, pre-order: emit the value, then visit
/// the left subtree, then the right.
pub fn visit_nodes<T: Copy>(root: &Noderef<T>) -> (out: Vec<T>)
    ensures
        out@ == preorder(*root),
    decreases *root,
{
    match root {
        Some(node) => {
            let mut out: Vec<T> = Vec::new();
            out.push(node.value);
            let mut left = visit_nodes(&node.left);
            let mut right = visit_nodes(&node.right);
            out.append(&mut left);
            out.append(&mut right);
            proof {
                assert(out@ =~= preorder(*root));
            }
            out
        }
        None => {
            let out: Vec<T> = Vec::new();
            proof {
                assert(out@ =~= preorder(*root));
            }
            out
        }
    }
}

/// The number of interpreter steps a pending `Call` on the given subtree
/// still costs: itself and, per node, a `Handle` plus both children.
pub open spec fn visit_steps<T>(root: Noderef<T>) -> nat
    decreases root,
{
    match root {
        None => 1,
        Some(node) => 2 + visit_steps(node.left) + visit_steps(node.right),
    }
}

/// The number of interpreter steps left on the whole work stack.
pub open spec fn visit_weight<T>(args: Seq<Action<&Noderef<T>, T>>) -> nat
    decreases args.len(),
{
    if args.len() == 0 {
        0
    } else {
        (match args.last() {
            Action::Call(sub) => visit_steps(*sub),
            Action::Handle(value) => 1,
        }) + visit_weight(args.drop_last())
    }
}

/// What the work stack still owes to the output: the values the pending
/// items will emit, top of the stack first. A pending `Call` stands for
/// the whole traversal of its subtree; a `Handle` for one emitted value.
pub open spec fn visit_pending<T>(args: Seq<Action<&Noderef<T>, T>>, order: VisitOrder) -> Seq<T>
    decreases args.len(),
{
    if args.len() == 0 {
        Seq::empty()
    } else {
        (match args.last() {
            Action::Call(sub) => traversal(*sub, order),
            Action::Handle(value) => seq![value],
        }) + visit_pending(args.drop_last(), order)
    }
}

/// Explicit-stack traversal in any of the three orders: a LIFO stack of
/// work items replaces the call stack; there is no result stack, a
/// `Handle` simply emits its value. The push order within one expansion
/// is the reverse of the order in which the three parts must run.
pub fn visit_nodes_norec<T: Copy>(root: &Noderef<T>, order: VisitOrder) -> (out: Vec<T>)
    ensures
        out@ == traversal(*root, order),
{
    let mut out: Vec<T> = Vec::new();
    let mut arg_stack: Vec<Action<&Noderef<T>, T>> = Vec::new();

    arg_stack.push(Action::Call(root));
    proof {
        assert(arg_stack@.drop_last() =~= Seq::<Action<&Noderef<T>, T>>::empty());
        assert(visit_pending(Seq::<Action<&Noderef<T>, T>>::empty(), order) =~= Seq::<T>::empty());
        assert(visit_pending(arg_stack@, order) =~= traversal(*root, order) + Seq::<T>::empty());
        assert(out@ + visit_pending(arg_stack@, order) =~= traversal(*root, order));
    }

    while arg_stack.len() != 0
        invariant
            out@ + visit_pending(arg_stack@, order) == traversal(*root, order),
        decreases visit_weight(arg_stack@),
    {
        let ghost args0 = arg_stack@;
        let action = arg_stack.pop().unwrap();
        proof {
            assert(arg_stack@ =~= args0.drop_last());
        }
        match action {
            Action::Call(r) => {
                if let Some(node) = r {
                    match order {
                        VisitOrder::Pre => {
                            arg_stack.push(Action::Call(&node.right));
                            arg_stack.push(Action::Call(&node.left));
                            arg_stack.push(Action::Handle(node.value));
                        }
                        VisitOrder::In => {
                            arg_stack.push(Action::Call(&node.right));
                            arg_stack.push(Action::Handle(node.value));
                            arg_stack.push(Action::Call(&node.left));
                        }
                        VisitOrder::Post => {
                            arg_stack.push(Action::Handle(node.value));
                            arg_stack.push(Action::Call(&node.right));
                            arg_stack.push(Action::Call(&node.left));
                        }
                    }
                    proof {
                        let rest = args0.drop_last();
                        // Whatever the order, the three pushed items owe the
                        // node's value and both subtrees, in the traversal's
                        // own order; the unfolding below makes that explicit.
                        assert(arg_stack@.drop_last().drop_last() =~= rest.push(
                            arg_stack@[rest.len() as int],
                        ));
                        assert(arg_stack@.drop_last() =~= rest.push(
                            arg_stack@[rest.len() as int],
                        ).push(arg_stack@[rest.len() + 1int]));
                        assert(visit_pending(arg_stack@, order) == (match args0.last() {
                            Action::Call(sub) => traversal(*sub, order),
                            Action::Handle(value) => seq![value],
                        }) + visit_pending(rest, order)) by {
                            assert(rest.push(arg_stack@[rest.len() as int]).drop_last() =~= rest);
                            assert(visit_pending(rest.push(arg_stack@[rest.len() as int]), order)
                                =~= (match arg_stack@[rest.len() as int] {
                                Action::Call(sub) => traversal(*sub, order),
                                Action::Handle(value) => seq![value],
                            }) + visit_pending(rest, order));
                            assert(visit_pending(arg_stack@.drop_last(), order) =~= (match arg_stack@[
                                rest.len() + 1int] {
                                Action::Call(sub) => traversal(*sub, order),
                                Action::Handle(value) => seq![value],
                            }) + visit_pending(arg_stack@.drop_last().drop_last(), order));
                            assert(visit_pending(arg_stack@, order) =~= (match arg_stack@[rest.len()
                                + 2int] {
                                Action::Call(sub) => traversal(*sub, order),
                                Action::Handle(value) => seq![value],
                            }) + visit_pending(arg_stack@.drop_last(), order));
                        }
                        assert(out@ + visit_pending(arg_stack@, order) =~= traversal(
                            *root,
                            order,
                        ));
                        // One step was spent: the work stack's weight shrank.
                        assert(visit_weight(arg_stack@) == visit_steps(node.left) + visit_steps(
                            node.right,
                        ) + 1 + visit_weight(rest)) by {
                            assert(rest.push(arg_stack@[rest.len() as int]).drop_last() =~= rest);
                            assert(visit_weight(rest.push(arg_stack@[rest.len() as int]))
                                == (match arg_stack@[rest.len() as int] {
                                Action::Call(sub) => visit_steps(*sub),
                                Action::Handle(value) => 1nat,
                            }) + visit_weight(rest));
                            assert(visit_weight(arg_stack@.drop_last()) == (match arg_stack@[
                                rest.len() + 1int] {
                                Action::Call(sub) => visit_steps(*sub),
                                Action::Handle(value) => 1nat,
                            }) + visit_weight(arg_stack@.drop_last().drop_last()));
                            assert(visit_weight(arg_stack@) == (match arg_stack@[rest.len() + 2int] {
                                Action::Call(sub) => visit_steps(*sub),
                                Action::Handle(value) => 1nat,
                            }) + visit_weight(arg_stack@.drop_last()));
                        }
                        assert(visit_weight(args0) == visit_steps(*r) + visit_weight(rest));
                        assert(visit_weight(arg_stack@) < visit_weight(args0));
                    }
                } else {
                    proof {
                        assert(visit_pending(args0, order) == traversal(*r, order)
                            + visit_pending(args0.drop_last(), order));
                        assert(out@ + visit_pending(arg_stack@, order) =~= traversal(
                            *root,
                            order,
                        ));
                        assert(visit_weight(args0) == 1 + visit_weight(args0.drop_last()));
                    }
                }
            }
            Action::Handle(value) => {
                out.push(value);
                proof {
                    assert(visit_pending(args0, order) == seq![value] + visit_pending(
                        args0.drop_last(),
                        order,
                    ));
                    assert(out@ + visit_pending(arg_stack@, order) =~= traversal(*root, order));
                    assert(visit_weight(args0) == 1 + visit_weight(args0.drop_last()));
                }
            }
        }
    }
    proof {
        assert(out@ =~= out@ + visit_pending(arg_stack@, order));
    }
    out
}

} // verus!
