use tree_stack::builder::gen_tree_norec;
use tree_stack::inverter::invert_tree;
use tree_stack::inverter::invert_tree_norec;
use tree_stack::tree::Node;
use tree_stack::tree::Noderef;

fn leaf(value: i32) -> Noderef<i32> {
    Some(Box::new(Node { value, left: None, right: None }))
}

fn branch(value: i32, left: Noderef<i32>, right: Noderef<i32>) -> Noderef<i32> {
    Some(Box::new(Node { value, left, right }))
}

#[test]
fn invert_empty_tree() {
    let empty: Noderef<i32> = None;
    assert_eq!(invert_tree(&empty), None);
    assert_eq!(invert_tree_norec(&empty), None);
}

#[test]
fn invert_depth_two_swaps_leaves() {
    let tree = gen_tree_norec(2);
    let expected = branch(1, leaf(3), leaf(2));
    assert_eq!(invert_tree(&tree), expected);
    assert_eq!(invert_tree_norec(&tree), expected);
}

#[test]
fn invert_leaves_input_unchanged() {
    let tree = gen_tree_norec(3);
    let _mirrored = invert_tree_norec(&tree);
    assert_eq!(tree, gen_tree_norec(3));
}

#[test]
fn invert_twice_is_identity() {
    for depth in 0..=6usize {
        let tree = gen_tree_norec(depth);
        assert_eq!(invert_tree_norec(&invert_tree_norec(&tree)), tree);
        assert_eq!(invert_tree(&invert_tree(&tree)), tree);
    }
}

#[test]
fn invert_twice_on_asymmetric_tree() {
    let tree = branch(10, branch(20, leaf(40), None), leaf(30));
    assert_eq!(invert_tree_norec(&invert_tree_norec(&tree)), tree);
}

#[test]
fn invert_left_chain_becomes_right_chain() {
    let chain = branch(1, branch(2, branch(3, None, None), None), None);
    let expected = branch(1, None, branch(2, None, branch(3, None, None)));
    assert_eq!(invert_tree_norec(&chain), expected);
    assert_eq!(invert_tree(&chain), expected);
}

#[test]
fn invert_matches_recursive_oracle() {
    for depth in 0..=6usize {
        let tree = gen_tree_norec(depth);
        assert_eq!(invert_tree_norec(&tree), invert_tree(&tree));
    }
}
