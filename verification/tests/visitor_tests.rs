use tree_stack::builder::gen_tree_norec;
use tree_stack::tree::Node;
use tree_stack::tree::Noderef;
use tree_stack::visitor::VisitOrder;
use tree_stack::visitor::visit_nodes;
use tree_stack::visitor::visit_nodes_norec;

fn leaf(value: i32) -> Noderef<i32> {
    Some(Box::new(Node { value, left: None, right: None }))
}

fn branch(value: i32, left: Noderef<i32>, right: Noderef<i32>) -> Noderef<i32> {
    Some(Box::new(Node { value, left, right }))
}

fn inorder_oracle(root: &Noderef<i32>, out: &mut Vec<i32>) {
    if let Some(node) = root {
        inorder_oracle(&node.left, out);
        out.push(node.value);
        inorder_oracle(&node.right, out);
    }
}

fn postorder_oracle(root: &Noderef<i32>, out: &mut Vec<i32>) {
    if let Some(node) = root {
        postorder_oracle(&node.left, out);
        postorder_oracle(&node.right, out);
        out.push(node.value);
    }
}

#[test]
fn visit_empty_tree_emits_nothing() {
    let empty: Noderef<i32> = None;
    assert_eq!(visit_nodes(&empty), Vec::<i32>::new());
    assert_eq!(visit_nodes_norec(&empty, VisitOrder::Pre), Vec::<i32>::new());
    assert_eq!(visit_nodes_norec(&empty, VisitOrder::In), Vec::<i32>::new());
    assert_eq!(visit_nodes_norec(&empty, VisitOrder::Post), Vec::<i32>::new());
}

#[test]
fn visit_depth_two_all_orders() {
    let tree = gen_tree_norec(2);
    assert_eq!(visit_nodes_norec(&tree, VisitOrder::Pre), vec![1, 2, 3]);
    assert_eq!(visit_nodes_norec(&tree, VisitOrder::In), vec![2, 1, 3]);
    assert_eq!(visit_nodes_norec(&tree, VisitOrder::Post), vec![2, 3, 1]);
}

#[test]
fn visit_single_node() {
    let tree = leaf(42);
    assert_eq!(visit_nodes_norec(&tree, VisitOrder::Pre), vec![42]);
    assert_eq!(visit_nodes_norec(&tree, VisitOrder::In), vec![42]);
    assert_eq!(visit_nodes_norec(&tree, VisitOrder::Post), vec![42]);
}

#[test]
fn visit_preorder_matches_recursive_oracle() {
    for depth in 0..=10usize {
        let tree = gen_tree_norec(depth);
        assert_eq!(visit_nodes_norec(&tree, VisitOrder::Pre), visit_nodes(&tree));
    }
}

#[test]
fn visit_inorder_matches_recursive_oracle() {
    for depth in 0..=10usize {
        let tree = gen_tree_norec(depth);
        let mut expected = Vec::new();
        inorder_oracle(&tree, &mut expected);
        assert_eq!(visit_nodes_norec(&tree, VisitOrder::In), expected);
    }
}

#[test]
fn visit_postorder_matches_recursive_oracle() {
    for depth in 0..=10usize {
        let tree = gen_tree_norec(depth);
        let mut expected = Vec::new();
        postorder_oracle(&tree, &mut expected);
        assert_eq!(visit_nodes_norec(&tree, VisitOrder::Post), expected);
    }
}

#[test]
fn visit_asymmetric_tree_all_orders() {
    let tree = branch(1, branch(2, None, leaf(4)), leaf(3));
    assert_eq!(visit_nodes_norec(&tree, VisitOrder::Pre), vec![1, 2, 4, 3]);
    assert_eq!(visit_nodes_norec(&tree, VisitOrder::In), vec![2, 4, 1, 3]);
    assert_eq!(visit_nodes_norec(&tree, VisitOrder::Post), vec![4, 2, 3, 1]);
}
