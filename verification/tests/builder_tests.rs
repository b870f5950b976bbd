use tree_stack::builder::gen_tree_norec;
use tree_stack::builder::generate_tree;
use tree_stack::tree::Noderef;
use tree_stack::visitor::VisitOrder;
use tree_stack::visitor::visit_nodes_norec;

#[test]
fn builder_depth_zero_is_empty() {
    assert_eq!(gen_tree_norec(0), None);
    let mut counter: i32 = 1;
    assert_eq!(generate_tree(0, &mut counter), None);
    assert_eq!(counter, 1);
}

#[test]
fn builder_depth_two_shape() {
    let tree: Noderef<i32> = gen_tree_norec(2);
    let root = tree.expect("depth 2 has a root");
    assert_eq!(root.value, 1);
    let left = root.left.expect("root has a left child");
    let right = root.right.expect("root has a right child");
    assert_eq!(left.value, 2);
    assert_eq!(right.value, 3);
    assert_eq!(left.left, None);
    assert_eq!(left.right, None);
    assert_eq!(right.left, None);
    assert_eq!(right.right, None);
}

#[test]
fn builder_depth_three_preorder() {
    let tree = gen_tree_norec(3);
    let labels = visit_nodes_norec(&tree, VisitOrder::Pre);
    assert_eq!(labels, vec![1, 2, 3, 4, 5, 6, 7]);
}

#[test]
fn builder_node_count_per_depth() {
    for depth in 0..=10usize {
        let tree = gen_tree_norec(depth);
        let labels = visit_nodes_norec(&tree, VisitOrder::Pre);
        assert_eq!(labels.len(), (1usize << depth) - 1);
    }
}

#[test]
fn builder_preorder_consecutive() {
    for depth in 0..=10usize {
        let tree = gen_tree_norec(depth);
        let labels = visit_nodes_norec(&tree, VisitOrder::Pre);
        let expected: Vec<i32> = (1..(1i32 << depth)).collect();
        assert_eq!(labels, expected);
    }
}

#[test]
fn builder_matches_recursive_oracle() {
    for depth in 0..=10usize {
        let mut counter: i32 = 1;
        let oracle = generate_tree(depth, &mut counter);
        assert_eq!(gen_tree_norec(depth), oracle);
        assert_eq!(counter as usize, 1usize << depth);
    }
}

#[test]
fn builder_counter_threads_through() {
    let mut counter: i32 = 5;
    let tree = generate_tree(2, &mut counter);
    assert_eq!(counter, 8);
    let root = tree.expect("depth 2 has a root");
    assert_eq!(root.value, 5);
    assert_eq!(root.left.expect("left child").value, 6);
    assert_eq!(root.right.expect("right child").value, 7);
}
