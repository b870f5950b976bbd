//! The sideways rendering order: right subtree first, then the node's
//! value at its depth, then the left subtree. The executable functions
//! return the (value, depth) lines; writing them out is the caller's
//! business.

use vstd::prelude::*;

use crate::tree::Action;
use crate::tree::Noderef;
use crate::tree::height;

verus! {

/// The lines of the sideways rendering of a tree whose root sits at the
/// given depth: right subtree (one level deeper), then the node's own
/// value, then the left subtree.
pub open spec fn print_lines<T>(root: Noderef<T>, level: usize) -> Seq<(T, usize)>
    decreases root,
{
    match root {
        None => Seq::empty(),
        Some(node) => print_lines(node.right, (level + 1) as usize)
            + seq![(node.value, level)]
            + print_lines(node.left, (level + 1) as usize),
    }
}

/// Recursive reference rendering.
pub fn print_tree<T: Copy>(root: &Noderef<T>, level: usize) -> (out: Vec<(T, usize)>)
    requires
        level + height(*root) <= usize::MAX,
    ensures
        out@ == print_lines(*root, level),
    decreases *root,
{
    match root {
        None => {
            let out: Vec<(T, usize)> = Vec::new();
            proof {
                assert(out@ =~= print_lines(*root, level));
            }
            out
        }
        Some(node) => {
            let mut out = print_tree(&node.right, level + 1);
            out.push((node.value, level));
            let mut left = print_tree(&node.left, level + 1);
            out.append(&mut left);
            proof {
                assert(out@ =~= print_lines(*root, level));
            }
            out
        }
    }
}

/// The lines one pending work item still owes: a `Call` owes the whole
/// rendering of its subtree at its depth, a `Handle` owes one line.
pub open spec fn print_item<T>(item: Action<(&Noderef<T>, usize), (T, usize)>) -> Seq<(T, usize)> {
    match item {
        Action::Call(sub) => print_lines(*sub.0, sub.1),
        Action::Handle(line) => seq![line],
    }
}

/// The number of interpreter steps a pending `Call` on the given subtree
/// still costs: itself and, per node, a `Handle` plus both children.
pub open spec fn print_steps<T>(root: Noderef<T>) -> nat
    decreases root,
{
    match root {
        None => 1,
        Some(node) => 2 + print_steps(node.left) + print_steps(node.right),
    }
}

/// The number of interpreter steps one pending work item still costs.
pub open spec fn print_item_steps<T>(item: Action<(&Noderef<T>, usize), (T, usize)>) -> nat {
    match item {
        Action::Call(sub) => print_steps(*sub.0),
        Action::Handle(line) => 1,
    }
}

/// A pending work item whose depth arithmetic cannot overflow.
pub open spec fn print_item_fits<T>(item: Action<(&Noderef<T>, usize), (T, usize)>) -> bool {
    match item {
        Action::Call(sub) => sub.1 + height(*sub.0) <= usize::MAX,
        Action::Handle(line) => true,
    }
}

/// The lines the whole work stack still owes, top of the stack first.
pub open spec fn print_pending<T>(args: Seq<Action<(&Noderef<T>, usize), (T, usize)>>) -> Seq<
    (T, usize),
>
    decreases args.len(),
{
    if args.len() == 0 {
        Seq::empty()
    } else {
        print_item(args.last()) + print_pending(args.drop_last())
    }
}

/// The number of interpreter steps left on the whole work stack.
pub open spec fn print_weight<T>(args: Seq<Action<(&Noderef<T>, usize), (T, usize)>>) -> nat
    decreases args.len(),
{
    if args.len() == 0 {
        0
    } else {
        print_item_steps(args.last()) + print_weight(args.drop_last())
    }
}

/// Explicit-stack rendering: a LIFO stack of work items replaces the call
/// stack; every item carries the depth at which its output belongs, and a
/// `Handle` simply emits its line.
pub fn print_tree_norec<T: Copy>(root: &Noderef<T>) -> (out: Vec<(T, usize)>)
    requires
        height(*root) <= usize::MAX,
    ensures
        out@ == print_lines(*root, 0),
{
    let mut out: Vec<(T, usize)> = Vec::new();
    let mut arg_stack: Vec<Action<(&Noderef<T>, usize), (T, usize)>> = Vec::new();

    arg_stack.push(Action::Call((root, 0)));
    proof {
        assert(arg_stack@.drop_last() =~= Seq::<
            Action<(&Noderef<T>, usize), (T, usize)>,
        >::empty());
        assert(print_pending(Seq::<Action<(&Noderef<T>, usize), (T, usize)>>::empty()) =~= Seq::<
            (T, usize),
        >::empty());
        assert(print_pending(arg_stack@) =~= print_lines(*root, 0) + Seq::<(T, usize)>::empty());
        assert(out@ + print_pending(arg_stack@) =~= print_lines(*root, 0));
    }

    while arg_stack.len() != 0
        invariant
            out@ + print_pending(arg_stack@) == print_lines(*root, 0),
            forall|i: int| 0 <= i < arg_stack@.len() ==> print_item_fits(#[trigger] arg_stack@[i]),
        decreases print_weight(arg_stack@),
    {
        let ghost args0 = arg_stack@;
        let action = arg_stack.pop().unwrap();
        proof {
            assert(arg_stack@ =~= args0.drop_last());
            assert(print_item_fits(args0.last()));
        }
        match action {
            Action::Call((r, level)) => {
                if let Some(node) = r {
                    arg_stack.push(Action::Call((&node.left, level + 1)));
                    arg_stack.push(Action::Handle((node.value, level)));
                    arg_stack.push(Action::Call((&node.right, level + 1)));
                    proof {
                        let rest = args0.drop_last();
                        let args1 = rest.push(Action::Call((&node.left, (level + 1) as usize)));
                        let args2 = args1.push(Action::Handle((node.value, level)));
                        let args3 = args2.push(Action::Call((&node.right, (level + 1) as usize)));
                        assert(arg_stack@ =~= args3);
                        // Unfold the pending lines one work item at a time:
                        // right subtree, the node's own line, left subtree.
                        assert(args3.drop_last() =~= args2);
                        assert(args2.drop_last() =~= args1);
                        assert(args1.drop_last() =~= rest);
                        assert(print_pending(args3) =~= print_item(args3.last()) + print_pending(
                            args2,
                        ));
                        assert(print_pending(args2) =~= print_item(args2.last()) + print_pending(
                            args1,
                        ));
                        assert(print_pending(args1) =~= print_item(args1.last()) + print_pending(
                            rest,
                        ));
                        assert(print_pending(args0) =~= print_item(args0.last()) + print_pending(
                            rest,
                        ));
                        assert(out@ + print_pending(arg_stack@) =~= print_lines(*root, 0));
                        // Every pushed item keeps the depth bound: descending
                        // one level trades a unit of depth for a unit of height.
                        assert(forall|i: int|
                            0 <= i < arg_stack@.len() ==> print_item_fits(
                                #[trigger] arg_stack@[i],
                            ));
                        // One step was spent: the work stack's weight shrank.
                        assert(print_weight(args3) == print_item_steps(args3.last())
                            + print_weight(args2));
                        assert(print_weight(args2) == print_item_steps(args2.last())
                            + print_weight(args1));
                        assert(print_weight(args1) == print_item_steps(args1.last())
                            + print_weight(rest));
                        assert(print_weight(args0) == print_item_steps(args0.last())
                            + print_weight(rest));
                        assert(print_weight(arg_stack@) < print_weight(args0));
                    }
                } else {
                    proof {
                        assert(print_pending(args0) =~= print_item(args0.last()) + print_pending(
                            args0.drop_last(),
                        ));
                        assert(out@ + print_pending(arg_stack@) =~= print_lines(*root, 0));
                        assert(print_weight(args0) == 1 + print_weight(args0.drop_last()));
                    }
                }
            }
            Action::Handle((value, level)) => {
                out.push((value, level));
                proof {
                    assert(print_pending(args0) =~= seq![(value, level)] + print_pending(
                        args0.drop_last(),
                    ));
                    assert(out@ + print_pending(arg_stack@) =~= print_lines(*root, 0));
                    assert(print_weight(args0) == 1 + print_weight(args0.drop_last()));
                }
            }
        }
    }
    proof {
        assert(out@ =~= out@ + print_pending(arg_stack@));
    }
    out
}

} // verus!
