use unity_sprite_author::editor::node_path::NodePath;
use unity_sprite_author::editor::tree::{move_node_across, TreeNode};

fn leaf(s: &str) -> TreeNode<String> {
    TreeNode { data: s.to_string(), children: Vec::new() }
}

fn node(s: &str, kids: Vec<TreeNode<String>>) -> TreeNode<String> {
    TreeNode { data: s.to_string(), children: kids }
}

/// `root(a,body(x,y),c)` style rendering of a tree.
fn shape(t: &TreeNode<String>) -> String {
    if t.children.is_empty() {
        t.data.clone()
    } else {
        let inner: Vec<String> = t.children.iter().map(shape).collect();
        format!("{}({})", t.data, inner.join(","))
    }
}

fn sample() -> TreeNode<String> {
    node("root", vec![leaf("a"), node("body", vec![leaf("x"), leaf("y")]), leaf("c")])
}

#[test]
fn resolve_follows_the_chain() {
    let t = sample();
    assert_eq!(t.resolve(&[]).map(|n| n.data.clone()), Some("root".to_string()));
    assert_eq!(t.resolve(&[1, 1]).map(|n| n.data.clone()), Some("y".to_string()));
    assert!(t.resolve(&[1, 2]).is_none());
    assert!(t.resolve(&[0, 0]).is_none());
    assert!(t.resolve(&[3]).is_none());
}

#[test]
fn add_then_delete_round_trips_manifest() {
    let mut t = sample();
    let before = shape(&t);
    let root = NodePath::tree_root(0, 0);
    assert!(t.add_child(&root.child_chain, leaf("new")));
    assert_ne!(shape(&t), before, "add should mutate");
    let n = t.children.len();
    let new_child = root.child(n - 1);
    let parent = new_child.parent().unwrap();
    assert!(t.delete_node(&parent.child_chain, *new_child.child_chain.last().unwrap()));
    assert_eq!(shape(&t), before, "delete should undo the add");
}

#[test]
fn add_child_under_a_missing_parent_changes_nothing() {
    let mut t = sample();
    assert!(!t.add_child(&[7], leaf("z")));
    assert_eq!(shape(&t), "root(a,body(x,y),c)");
}

#[test]
fn duplicate_then_delete_copy() {
    let mut t = sample();
    assert!(t.duplicate_node(&[], 1));
    assert_eq!(shape(&t), "root(a,body(x,y),body(x,y),c)");
    assert!(t.delete_node(&[], 2));
    assert_eq!(shape(&t), "root(a,body(x,y),c)");
    assert!(!t.duplicate_node(&[1], 5));
}

#[test]
fn move_sibling_node_clamps_and_goes_back() {
    let mut t = sample();
    assert_eq!(t.move_sibling_node(&[1], 0, 5), Some(1));
    assert_eq!(shape(&t), "root(a,body(y,x),c)");
    assert_eq!(t.move_sibling_node(&[1], 1, -1), Some(0));
    assert_eq!(shape(&t), "root(a,body(x,y),c)");
    assert_eq!(t.move_sibling_node(&[], 0, -3), None);
}

#[test]
fn move_to_reorders_within_parent() {
    let mut t = sample();
    let n = t.children.len();
    let first = shape(&t.children[0]);
    assert_eq!(t.move_node_to(&[], 0, &[], n), Some(n - 1));
    assert_eq!(t.children.len(), n, "child count preserved");
    assert_eq!(shape(t.children.last().unwrap()), first, "moved to end");
}

#[test]
fn move_to_reparents_and_refuses_own_subtree() {
    let mut t = sample();
    // `x` out of `body` into the root, at the front.
    assert_eq!(t.move_node_to(&[1], 0, &[], 0), Some(0));
    assert_eq!(shape(&t), "root(x,a,body(y),c)");
    // `a` (now [1]) into `body` (now [2]); the destination is found after
    // `a` left, so [2] names `c` then, and `a` goes under `c`.
    assert_eq!(t.move_node_to(&[], 1, &[2], 0), Some(0));
    assert_eq!(shape(&t), "root(x,body(y),c(a))");
    // `body` cannot go under itself.
    assert_eq!(t.move_node_to(&[], 1, &[1], 0), None);
    assert_eq!(t.move_node_to(&[], 1, &[1, 0], 0), None);
    assert_eq!(shape(&t), "root(x,body(y),c(a))");
    // A missing destination puts the node back.
    assert_eq!(t.move_node_to(&[], 0, &[5], 0), None);
    assert_eq!(shape(&t), "root(x,body(y),c(a))");
}

#[test]
fn move_across_trees() {
    let mut a = sample();
    let mut b = node("other", vec![leaf("p")]);
    assert_eq!(move_node_across(&mut a, &[1], 0, &mut b, &[], 9), Some(1));
    assert_eq!(shape(&a), "root(a,body(y),c)");
    assert_eq!(shape(&b), "other(p,x)");
    assert_eq!(move_node_across(&mut a, &[1], 3, &mut b, &[], 0), None);
    assert_eq!(shape(&b), "other(p,x)");
}

#[test]
fn clone_is_deep() {
    let t = sample();
    let mut c = t.clone();
    assert!(c.delete_node(&[1], 0));
    assert_eq!(shape(&t), "root(a,body(x,y),c)");
    assert_eq!(shape(&c), "root(a,body(y),c)");
}
