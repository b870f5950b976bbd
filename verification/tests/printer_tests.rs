use tree_stack::builder::gen_tree_norec;
use tree_stack::printer::print_tree;
use tree_stack::printer::print_tree_norec;
use tree_stack::tree::Node;
use tree_stack::tree::Noderef;

fn leaf(value: i32) -> Noderef<i32> {
    Some(Box::new(Node { value, left: None, right: None }))
}

fn branch(value: i32, left: Noderef<i32>, right: Noderef<i32>) -> Noderef<i32> {
    Some(Box::new(Node { value, left, right }))
}

#[test]
fn print_empty_tree_has_no_lines() {
    let empty: Noderef<i32> = None;
    assert_eq!(print_tree(&empty, 0), Vec::<(i32, usize)>::new());
    assert_eq!(print_tree_norec(&empty), Vec::<(i32, usize)>::new());
}

#[test]
fn print_depth_two_sideways() {
    let tree = gen_tree_norec(2);
    let expected = vec![(3, 1), (1, 0), (2, 1)];
    assert_eq!(print_tree_norec(&tree), expected);
    assert_eq!(print_tree(&tree, 0), expected);
}

#[test]
fn print_starts_at_requested_level() {
    let tree = gen_tree_norec(2);
    assert_eq!(print_tree(&tree, 2), vec![(3, 3), (1, 2), (2, 3)]);
}

#[test]
fn print_matches_recursive_oracle() {
    for depth in 0..=6usize {
        let tree = gen_tree_norec(depth);
        assert_eq!(print_tree_norec(&tree), print_tree(&tree, 0));
    }
}

#[test]
fn print_asymmetric_tree() {
    let tree = branch(1, leaf(2), branch(3, leaf(4), None));
    let expected = vec![(3, 1), (4, 2), (1, 0), (2, 1)];
    assert_eq!(print_tree_norec(&tree), expected);
    assert_eq!(print_tree(&tree, 0), expected);
}
