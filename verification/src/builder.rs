//! Tree construction with sequential labeling: a recursive builder and an
//! explicit-stack builder, both pinned to the same oracle.

use vstd::prelude::*;

use crate::tree::Action;
use crate::tree::Node;
use crate::tree::Noderef;
use crate::tree::node_count;
use crate::visitor::preorder;
use vstd::arithmetic::power2::lemma2_to64;
use vstd::arithmetic::power2::lemma_pow2_unfold;
use vstd::arithmetic::power2::pow2;

verus! {

/// The number of nodes in a full binary tree of the given depth,
/// i.e. 2^depth - 1.
pub open spec fn full_count(depth: nat) -> nat
    decreases depth,
{
    if depth == 0 {
        0
    } else {
        1 + 2 * full_count((depth - 1) as nat)
    }
}

/// The oracle: the tree of the given depth whose nodes are labeled
/// `counter`, `counter + 1`, ... in pre-order (each label assigned before
/// either child is built, as natural recursion assigns them).
pub open spec fn build_tree(depth: nat, counter: int) -> Noderef<i32>
    decreases depth,
{
    if depth == 0 {
        None
    } else {
        Some(Box::new(Node {
            value: counter as i32,
            left: build_tree((depth - 1) as nat, counter + 1),
            right: build_tree((depth - 1) as nat, counter + 1 + full_count((depth - 1) as nat)),
        }))
    }
}

/// The number of interpreter steps a pending `Call` of the given depth
/// still costs: itself, its `Handle`, and both children.
pub open spec fn build_steps(level: nat) -> nat
    decreases level,
{
    if level == 0 {
        1
    } else {
        2 + 2 * build_steps((level - 1) as nat)
    }
}

/// The number of interpreter steps left on the whole work stack.
pub open spec fn build_weight(args: Seq<Action<usize, i32>>) -> nat
    decreases args.len(),
{
    if args.len() == 0 {
        0
    } else {
        (match args.last() {
            Action::Call(level) => build_steps(level as nat),
            Action::Handle(value) => 1,
        }) + build_weight(args.drop_last())
    }
}

/// What the interpreter state still owes: running the pending work items
/// from the top of `args` down, against the partial results in `rets` and
/// the label counter, yields the final result stack and counter. A pending
/// `Call` accounts for the whole subtree it will build; a `Handle` pops the
/// two child subtrees (right on top, since the left child finished first)
/// and assembles the node. `None` marks a result-stack underflow, which a
/// correct push/pop discipline never reaches.
pub open spec fn drain_build(
    args: Seq<Action<usize, i32>>,
    rets: Seq<Noderef<i32>>,
    counter: int,
) -> Option<(Seq<Noderef<i32>>, int)>
    decreases args.len(),
{
    if args.len() == 0 {
        Some((rets, counter))
    } else {
        match args.last() {
            Action::Call(level) => drain_build(
                args.drop_last(),
                rets.push(build_tree(level as nat, counter)),
                counter + full_count(level as nat),
            ),
            Action::Handle(value) => if rets.len() >= 2 {
                drain_build(
                    args.drop_last(),
                    rets.drop_last().drop_last().push(
                        Some(Box::new(Node {
                            value,
                            left: rets[rets.len() - 2],
                            right: rets.last(),
                        })),
                    ),
                    counter,
                )
            } else {
                None
            },
        }
    }
}

/// Draining never moves the counter backwards.
proof fn lemma_drain_build_counter(
    args: Seq<Action<usize, i32>>,
    rets: Seq<Noderef<i32>>,
    counter: int,
)
    requires
        drain_build(args, rets, counter) is Some,
    ensures
        counter <= drain_build(args, rets, counter).unwrap().1,
    decreases args.len(),
{
    if args.len() != 0 {
        match args.last() {
            Action::Call(level) => {
                lemma_drain_build_counter(
                    args.drop_last(),
                    rets.push(build_tree(level as nat, counter)),
                    counter + full_count(level as nat),
                );
            }
            Action::Handle(value) => {
                lemma_drain_build_counter(
                    args.drop_last(),
                    rets.drop_last().drop_last().push(
                        Some(Box::new(Node {
                            value,
                            left: rets[rets.len() - 2],
                            right: rets.last(),
                        })),
                    ),
                    counter,
                );
            }
        }
    }
}

/// Node count: a built tree of depth `depth` has exactly `full_count(depth)`
/// nodes, i.e. 2^depth - 1.
pub proof fn lemma_build_tree_count(depth: nat, counter: int)
    ensures
        node_count(build_tree(depth, counter)) == full_count(depth),
    decreases depth,
{
    if depth != 0 {
        lemma_build_tree_count((depth - 1) as nat, counter + 1);
        lemma_build_tree_count((depth - 1) as nat, counter + 1 + full_count((depth - 1) as nat));
    }
}

/// `full_count` is 2^depth - 1 in the usual power notation.
pub proof fn lemma_full_count_pow2(depth: nat)
    ensures
        full_count(depth) + 1 == pow2(depth),
    decreases depth,
{
    if depth == 0 {
        lemma2_to64();
    } else {
        lemma_full_count_pow2((depth - 1) as nat);
        lemma_pow2_unfold(depth);
    }
}

/// Pre-order consecutiveness: enumerating a built tree in pre-order
/// yields exactly the labels counter, counter + 1, ..., one per node.
pub proof fn lemma_build_tree_preorder(depth: nat, counter: int)
    ensures
        preorder(build_tree(depth, counter)) == Seq::new(
            full_count(depth),
            |i: int| (counter + i) as i32,
        ),
    decreases depth,
{
    if depth == 0 {
        assert(preorder(build_tree(depth, counter)) =~= Seq::new(
            full_count(depth),
            |i: int| (counter + i) as i32,
        ));
    } else {
        let rest = (depth - 1) as nat;
        lemma_build_tree_preorder(rest, counter + 1);
        lemma_build_tree_preorder(rest, counter + 1 + full_count(rest));
        assert(preorder(build_tree(depth, counter)) =~= Seq::new(
            full_count(depth),
            |i: int| (counter + i) as i32,
        ));
    }
}

/// Recursive reference construction: assign the label, bump the counter,
/// then build the two children of one less depth.
pub fn generate_tree(level: usize, counter: &mut i32) -> (root: Noderef<i32>)
    requires
        *old(counter) + full_count(level as nat) <= i32::MAX,
    ensures
        root == build_tree(level as nat, *old(counter) as int),
        *final(counter) == *old(counter) + full_count(level as nat),
    decreases level,
{
    if level == 0 {
        None
    } else {
        let value = *counter;
        *counter = *counter + 1;
        let left = generate_tree(level - 1, counter);
        let right = generate_tree(level - 1, counter);
        Some(Box::new(Node { value, right, left }))
    }
}

/// Explicit-stack construction: the call stack is simulated by a LIFO
/// stack of work items, the partial subtrees by a second LIFO stack, so
/// no host recursion is used. Labels are assigned when a node's `Call` is
/// expanded, before either child, so they run 1, 2, ... in pre-order.
pub fn gen_tree_norec(level: usize) -> (root: Noderef<i32>)
    requires
        1 + full_count(level as nat) <= i32::MAX,
    ensures
        root == build_tree(level as nat, 1),
{
    let mut counter: i32 = 1;
    let mut arg_stack: Vec<Action<usize, i32>> = Vec::new();
    let mut ret_stack: Vec<Noderef<i32>> = Vec::new();
    let ghost target: Option<(Seq<Noderef<i32>>, int)> = Some((
        seq![build_tree(level as nat, 1)],
        1 + full_count(level as nat) as int,
    ));

    arg_stack.push(Action::Call(level));
    proof {
        assert(arg_stack@.drop_last() =~= Seq::<Action<usize, i32>>::empty());
        assert(ret_stack@.push(build_tree(level as nat, 1)) =~= seq![build_tree(level as nat, 1)]);
        assert(drain_build(arg_stack@, ret_stack@, 1) == drain_build(
            Seq::<Action<usize, i32>>::empty(),
            seq![build_tree(level as nat, 1)],
            1 + full_count(level as nat) as int,
        ));
        assert(drain_build(
            Seq::<Action<usize, i32>>::empty(),
            seq![build_tree(level as nat, 1)],
            1 + full_count(level as nat) as int,
        ) == target);
    }

    while arg_stack.len() != 0
        invariant
            drain_build(arg_stack@, ret_stack@, counter as int) == target,
            target == Some((seq![build_tree(level as nat, 1)], 1 + full_count(level as nat) as int)),
            1 + full_count(level as nat) <= i32::MAX,
        decreases build_weight(arg_stack@),
    {
        let ghost args0 = arg_stack@;
        let ghost rets0 = ret_stack@;
        let ghost c0 = counter as int;
        let action = arg_stack.pop().unwrap();
        proof {
            assert(arg_stack@ =~= args0.drop_last());
        }
        match action {
            Action::Call(l) => {
                if l > 0 {
                    proof {
                        // One drain step accounts for the whole pending subtree;
                        // the final counter bounds the current one, so the
                        // increment below cannot overflow.
                        assert(drain_build(args0, rets0, c0) == drain_build(
                            args0.drop_last(),
                            rets0.push(build_tree(l as nat, c0)),
                            c0 + full_count(l as nat),
                        ));
                        lemma_drain_build_counter(
                            args0.drop_last(),
                            rets0.push(build_tree(l as nat, c0)),
                            c0 + full_count(l as nat),
                        );
                        assert(full_count(l as nat) >= 1);
                    }
                    arg_stack.push(Action::Handle(counter));
                    counter = counter + 1;
                    arg_stack.push(Action::Call(l - 1));
                    arg_stack.push(Action::Call(l - 1));
                    proof {
                        let args1 = args0.drop_last().push(Action::Handle(c0 as i32));
                        let args2 = args1.push(Action::Call((l - 1) as usize));
                        let args3 = args2.push(Action::Call((l - 1) as usize));
                        let tree_l = build_tree((l - 1) as nat, c0 + 1);
                        let tree_r = build_tree((l - 1) as nat, c0 + 1 + full_count((l - 1) as nat));
                        assert(arg_stack@ =~= args3);
                        // Unfold the drain one work item at a time: left child,
                        // right child, then the node's own assembly.
                        assert(args3.drop_last() =~= args2);
                        assert(drain_build(args3, rets0, c0 + 1) == drain_build(
                            args2,
                            rets0.push(tree_l),
                            c0 + 1 + full_count((l - 1) as nat),
                        ));
                        assert(args2.drop_last() =~= args1);
                        assert(drain_build(args2, rets0.push(tree_l), c0 + 1 + full_count((l - 1) as nat))
                            == drain_build(
                            args1,
                            rets0.push(tree_l).push(tree_r),
                            c0 + 1 + 2 * full_count((l - 1) as nat),
                        ));
                        assert(args1.drop_last() =~= args0.drop_last());
                        assert(rets0.push(tree_l).push(tree_r).drop_last().drop_last() =~= rets0);
                        assert(rets0.push(tree_l).push(tree_r)[rets0.len() as int] == tree_l);
                        assert(drain_build(args1, rets0.push(tree_l).push(tree_r), c0 + full_count(l as nat))
                            == drain_build(
                            args0.drop_last(),
                            rets0.push(Some(Box::new(Node {
                                value: c0 as i32,
                                left: tree_l,
                                right: tree_r,
                            }))),
                            c0 + full_count(l as nat),
                        ));
                        assert(Some(Box::new(Node {
                            value: c0 as i32,
                            left: tree_l,
                            right: tree_r,
                        })) == build_tree(l as nat, c0));
                        assert(drain_build(arg_stack@, ret_stack@, counter as int) == target);
                        // One step was spent: the work stack's weight shrank.
                        assert(build_weight(args0) == build_steps(l as nat) + build_weight(
                            args0.drop_last(),
                        ));
                        assert(build_weight(args3) == build_steps((l - 1) as nat) + build_weight(
                            args2,
                        ));
                        assert(build_weight(args2) == build_steps((l - 1) as nat) + build_weight(
                            args1,
                        ));
                        assert(build_weight(args1) == 1 + build_weight(args0.drop_last()));
                        assert(build_weight(arg_stack@) < build_weight(args0));
                    }
                } else {
                    ret_stack.push(None);
                    proof {
                        assert(drain_build(args0, rets0, c0) == drain_build(
                            args0.drop_last(),
                            rets0.push(None),
                            c0,
                        ));
                        assert(build_weight(args0) == 1 + build_weight(args0.drop_last()));
                    }
                }
            }
            Action::Handle(value) => {
                proof {
                    if rets0.len() < 2 {
                        assert(drain_build(args0, rets0, c0) is None);
                    }
                    assert(build_weight(args0) == 1 + build_weight(args0.drop_last()));
                }
                let right = ret_stack.pop().unwrap();
                let left = ret_stack.pop().unwrap();
                ret_stack.push(Some(Box::new(Node { value, right, left })));
                proof {
                    assert(ret_stack@ =~= rets0.drop_last().drop_last().push(
                        Some(Box::new(Node {
                            value,
                            left: rets0[rets0.len() - 2],
                            right: rets0.last(),
                        })),
                    ));
                }
            }
        }
    }
    let root = ret_stack.pop().unwrap();
    root
}

} // verus!
