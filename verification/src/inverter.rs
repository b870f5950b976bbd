//! Structural inversion (mirroring): a recursive reference and an
//! explicit-stack version, both producing a fresh mirrored copy.

use vstd::prelude::*;

use crate::tree::Action;
use crate::tree::Node;
use crate::tree::Noderef;

verus! {

/// The mirror image of a tree: at every node the two subtree slots are
/// swapped, recursively; values are unchanged.
pub open spec fn mirror<T>(root: Noderef<T>) -> Noderef<T>
    decreases root,
{
    match root {
        None => None,
        Some(node) => Some(Box::new(Node {
            value: node.value,
            left: mirror(node.right),
            right: mirror(node.left),
        })),
    }
}

/// Inversion is an involution: mirroring any tree twice, the empty tree
/// among them, gives back a tree identical to the one it started from.
pub proof fn lemma_mirror_involution<T>(root: Noderef<T>)
    ensures
        mirror(mirror(root)) == root,
    decreases root,
{
    match root {
        None => {
        }
        Some(node) => {
            lemma_mirror_involution(node.left);
            lemma_mirror_involution(node.right);
        }
    }
}

/// Recursive reference inversion: copy the value, mirror the children
/// crosswise.
pub fn invert_tree<T: Copy>(root: &Noderef<T>) -> (out: Noderef<T>)
    ensures
        out == mirror(*root),
    decreases *root,
{
    match root {
        Some(node) => Some(Box::new(Node {
            value: node.value,
            left: invert_tree(&node.right),
            right: invert_tree(&node.left),
        })),
        None => None,
    }
}

/// The number of interpreter steps a pending `Call` on the given subtree
/// still costs: itself and, per node, a `Handle` plus both children.
pub open spec fn invert_steps<T>(root: Noderef<T>) -> nat
    decreases root,
{
    match root {
        None => 1,
        Some(node) => 2 + invert_steps(node.left) + invert_steps(node.right),
    }
}

/// The number of interpreter steps left on the whole work stack.
pub open spec fn invert_weight<T>(args: Seq<Action<&Noderef<T>, &T>>) -> nat
    decreases args.len(),
{
    if args.len() == 0 {
        0
    } else {
        (match args.last() {
            Action::Call(sub) => invert_steps(*sub),
            Action::Handle(value) => 1,
        }) + invert_weight(args.drop_last())
    }
}

/// What the interpreter state still owes: running the pending work items
/// from the top of `args` down against the partial results in `rets`
/// yields the final result stack. A pending `Call` accounts for the whole
/// mirrored subtree it will produce; a `Handle` pops the two transformed
/// children (the transform of the input's right subtree on top, since the
/// input's left subtree was expanded first) and assembles the node with
/// the slots crossed. `None` marks a result-stack underflow, which a
/// correct push/pop discipline never reaches.
pub open spec fn drain_invert<T>(
    args: Seq<Action<&Noderef<T>, &T>>,
    rets: Seq<Noderef<T>>,
) -> Option<Seq<Noderef<T>>>
    decreases args.len(),
{
    if args.len() == 0 {
        Some(rets)
    } else {
        match args.last() {
            Action::Call(sub) => drain_invert(args.drop_last(), rets.push(mirror(*sub))),
            Action::Handle(value) => if rets.len() >= 2 {
                drain_invert(
                    args.drop_last(),
                    rets.drop_last().drop_last().push(
                        Some(Box::new(Node {
                            value: *value,
                            left: rets.last(),
                            right: rets[rets.len() - 2],
                        })),
                    ),
                )
            } else {
                None
            },
        }
    }
}

/// Explicit-stack inversion: a LIFO stack of work items replaces the call
/// stack, a second LIFO stack carries the mirrored partial subtrees. The
/// input is read through shared references and left untouched.
pub fn invert_tree_norec<T: Copy>(root: &Noderef<T>) -> (out: Noderef<T>)
    ensures
        out == mirror(*root),
{
    let mut arg_stack: Vec<Action<&Noderef<T>, &T>> = Vec::new();
    let mut ret_stack: Vec<Noderef<T>> = Vec::new();
    let ghost target: Option<Seq<Noderef<T>>> = Some(seq![mirror(*root)]);

    arg_stack.push(Action::Call(root));
    proof {
        assert(arg_stack@.drop_last() =~= Seq::<Action<&Noderef<T>, &T>>::empty());
        assert(ret_stack@.push(mirror(*root)) =~= seq![mirror(*root)]);
        assert(drain_invert(arg_stack@, ret_stack@) == drain_invert(
            Seq::<Action<&Noderef<T>, &T>>::empty(),
            seq![mirror(*root)],
        ));
    }

    while arg_stack.len() != 0
        invariant
            drain_invert(arg_stack@, ret_stack@) == target,
            target == Some(seq![mirror(*root)]),
        decreases invert_weight(arg_stack@),
    {
        let ghost args0 = arg_stack@;
        let ghost rets0 = ret_stack@;
        let action = arg_stack.pop().unwrap();
        proof {
            assert(arg_stack@ =~= args0.drop_last());
        }
        match action {
            Action::Call(r) => {
                if let Some(node) = r {
                    arg_stack.push(Action::Handle(&node.value));
                    arg_stack.push(Action::Call(&node.right));
                    arg_stack.push(Action::Call(&node.left));
                    proof {
                        let args1 = args0.drop_last().push(Action::Handle(&node.value));
                        let args2 = args1.push(Action::Call(&node.right));
                        let args3 = args2.push(Action::Call(&node.left));
                        let mirror_l = mirror(node.left);
                        let mirror_r = mirror(node.right);
                        assert(arg_stack@ =~= args3);
                        // Unfold the drain one work item at a time: left child,
                        // right child, then the node's own assembly.
                        assert(args3.drop_last() =~= args2);
                        assert(drain_invert(args3, rets0) == drain_invert(
                            args2,
                            rets0.push(mirror_l),
                        ));
                        assert(args2.drop_last() =~= args1);
                        assert(drain_invert(args2, rets0.push(mirror_l)) == drain_invert(
                            args1,
                            rets0.push(mirror_l).push(mirror_r),
                        ));
                        assert(args1.drop_last() =~= args0.drop_last());
                        assert(rets0.push(mirror_l).push(mirror_r).drop_last().drop_last()
                            =~= rets0);
                        assert(rets0.push(mirror_l).push(mirror_r)[rets0.len() as int]
                            == mirror_l);
                        assert(drain_invert(args1, rets0.push(mirror_l).push(mirror_r))
                            == drain_invert(
                            args0.drop_last(),
                            rets0.push(Some(Box::new(Node {
                                value: node.value,
                                left: mirror_r,
                                right: mirror_l,
                            }))),
                        ));
                        assert(Some(Box::new(Node {
                            value: node.value,
                            left: mirror_r,
                            right: mirror_l,
                        })) == mirror(*r));
                        assert(drain_invert(args0, rets0) == drain_invert(
                            args0.drop_last(),
                            rets0.push(mirror(*r)),
                        ));
                        // One step was spent: the work stack's weight shrank.
                        assert(invert_weight(args0) == invert_steps(*r) + invert_weight(
                            args0.drop_last(),
                        ));
                        assert(invert_weight(args3) == invert_steps(node.left) + invert_weight(
                            args2,
                        ));
                        assert(invert_weight(args2) == invert_steps(node.right) + invert_weight(
                            args1,
                        ));
                        assert(invert_weight(args1) == 1 + invert_weight(args0.drop_last()));
                        assert(invert_weight(arg_stack@) < invert_weight(args0));
                    }
                } else {
                    ret_stack.push(None);
                    proof {
                        assert(mirror(*r) == None::<Box<Node<T>>>);
                        assert(drain_invert(args0, rets0) == drain_invert(
                            args0.drop_last(),
                            rets0.push(None),
                        ));
                        assert(invert_weight(args0) == 1 + invert_weight(args0.drop_last()));
                    }
                }
            }
            Action::Handle(value) => {
                proof {
                    if rets0.len() < 2 {
                        assert(drain_invert(args0, rets0) is None);
                    }
                    assert(invert_weight(args0) == 1 + invert_weight(args0.drop_last()));
                }
                let left = ret_stack.pop().unwrap();
                let right = ret_stack.pop().unwrap();
                ret_stack.push(Some(Box::new(Node { value: *value, left, right })));
                proof {
                    assert(ret_stack@ =~= rets0.drop_last().drop_last().push(
                        Some(Box::new(Node {
                            value: *value,
                            left: rets0.last(),
                            right: rets0[rets0.len() - 2],
                        })),
                    ));
                }
            }
        }
    }
    let out = ret_stack.pop().unwrap();
    out
}

} // verus!
