use fbpconvert::node::{NodeType, TreeNode};
use fbpconvert::status::{ProgressDisplayVariant, UsageError};
use fbpconvert::tree::{NodeKind, Summary, Tracker};

/// root
/// - first branch
///     - first sub branch
/// - first node (no error)
/// - second branch
///     - a leaf with an error
///
/// Returns the tree and the handles of the first node, the second branch and
/// the leaf with the error.
fn create_known_tree() -> (Tracker, usize, usize, usize, usize) {
    let mut root = Tracker::new();
    let r = root.insert(None, NodeType::new_branch("root")).unwrap();
    let first_branch = root.insert(Some(r), NodeType::new_branch("first branch")).unwrap();
    root.insert(Some(first_branch), NodeType::new_branch("first sub branch")).unwrap();
    let first_node = root.insert(Some(r), NodeType::new_node("first node")).unwrap();
    let second_branch = root.insert(Some(r), NodeType::new_branch("second branch")).unwrap();
    let sub_node = NodeType::Node(TreeNode::new(""));
    let sub = root.insert(Some(second_branch), sub_node).unwrap();
    root.fail(sub, Some("some_message".to_string())).unwrap();
    (root, first_branch, first_node, second_branch, sub)
}

#[test]
fn total_lines_test() {
    let (root, _first_branch, first_node, last_branch, sub) = create_known_tree();

    assert_eq!(root.total_lines(0), 5);

    // a leaf without an error takes no row; its offset is that of the row
    // after its parent's header and the rows of the siblings before it
    assert_eq!(root.total_lines(first_node), 0);
    assert_eq!(root.num_lines(first_node), 3);

    assert_eq!(root.num_lines(last_branch), 3);
    assert!(matches!(root.get(sub).error_message(), Some(_)));
    assert_eq!(root.num_lines(sub), 4);
}

#[test]
fn num_lines_test() {
    let (root, first_branch, _, _, _) = create_known_tree();

    assert_eq!(root.num_lines(0), 0, "num lines to root should always be 0.");
    assert_eq!(root.num_lines(first_branch), 1, "num lines to first branch.");
}

/// A root with 10 leaves; those at even positions fail.
fn create_ten_leaves() -> Tracker {
    let mut tree = Tracker::new();
    tree.insert(None, NodeType::new_branch("root")).unwrap();
    let mut handles = Vec::new();
    for num in 0..10 {
        let h = tree
            .insert(Some(0), NodeType::new_node(&format!("node number {num}")))
            .unwrap();
        handles.push(h);
    }
    for (num, h) in handles.iter().enumerate() {
        if num % 2 == 0 {
            tree.fail(*h, Some(format!("node {num} error"))).unwrap();
        }
    }
    tree
}

#[test]
fn error_iter_test() {
    let tree = create_ten_leaves();
    let root = tree.branch(0).unwrap();

    assert_eq!(root.num_children(), 10);
    assert_eq!(root.error_iter(&tree).len(), 5);
    assert_eq!(tree.total_lines(0), 6);
}

fn create_larger_known_tree() -> Tracker {
    let mut tree = Tracker::new();
    let root = tree.insert(None, NodeType::new_branch("root")).unwrap();
    let branch_1 = tree.insert(Some(root), NodeType::new_branch("branch 1")).unwrap();
    tree.insert(Some(root), NodeType::new_branch("branch 2")).unwrap();
    tree.insert(Some(root), NodeType::new_branch("branch 3")).unwrap();
    let fill = |tree: &mut Tracker, b: usize| {
        tree.insert(Some(b), NodeType::new_branch("sub branch 1")).unwrap();
        tree.insert(Some(b), NodeType::new_branch("sub_branch 2")).unwrap();
        for name in ["sub node 1", "sub node 2"] {
            let h = tree.insert(Some(b), NodeType::new_node(name)).unwrap();
            tree.fail(h, Some("random error".to_string())).unwrap();
        }
    };
    fill(&mut tree, branch_1);
    let branch_1b = tree.insert(Some(branch_1), NodeType::new_branch("branch 1")).unwrap();
    fill(&mut tree, branch_1b);
    tree
}

#[test]
fn show_tree_test() {
    let tree = create_ten_leaves();
    let bigger_tree = create_larger_known_tree();

    println!("Num lines for tree: {}", bigger_tree.total_lines(0));
    let lines = bigger_tree.render();
    println!("{}", lines.join("\n"));
    assert_eq!(lines.len(), bigger_tree.total_lines(0));
    assert_eq!(tree.render().len(), 6);

    let root = bigger_tree.branch(0).unwrap();
    for b in root.branch_iter(&bigger_tree) {
        println!("{}", bigger_tree.get(b).name());
    }
    assert_eq!(root.branch_iter(&bigger_tree).len(), 3);
}

#[test]
fn completion_tests() {
    let mut tree = create_ten_leaves();
    let items = tree.branch(0).unwrap().incomplete_iter(&tree);
    assert_eq!(items.len(), 10);
    for item in items {
        match tree.get(item).status() {
            ProgressDisplayVariant::Error => {
                // a failed leaf is finished and cannot complete any more
                assert_eq!(tree.succeed(item), Err(UsageError::AlreadyFinished));
            }
            _ => tree.succeed(item).unwrap(),
        }
    }

    let root = tree.branch(0).unwrap();
    assert_eq!(root.num_children(), root.num_children_complete + root.num_children_errors);
    assert_eq!(root.num_children_complete, 5);
    assert_eq!(root.num_children_errors, 5);
    assert!(matches!(root.progress, ProgressDisplayVariant::CompleteWithError));
    assert!(root.incomplete_iter(&tree).iter().all(|h| tree.get(*h).status() == ProgressDisplayVariant::Error));
}

#[test]
fn all_leaves_complete_gives_complete_root() {
    let mut tree = Tracker::new();
    tree.begin(None, NodeKind::Branch, "root").unwrap();
    let mut handles = Vec::new();
    for num in 0..10 {
        handles.push(tree.begin(Some(0), NodeKind::Leaf, &format!("node number {num}")).unwrap());
    }
    for h in handles {
        tree.succeed(h).unwrap();
    }
    let root = tree.branch(0).unwrap();
    assert_eq!(root.num_children_complete, 10);
    assert_eq!(root.num_children_errors, 0);
    assert_eq!(root.progress, ProgressDisplayVariant::Complete);
    assert_eq!(tree.total_lines(0), 0);
    assert_eq!(tree.render(), vec!["root".to_string()]);
}

#[test]
fn book_with_one_failure() {
    let mut tree = Tracker::new();
    let b = tree.begin(None, NodeKind::Branch, "B").unwrap();
    let a = tree.begin(Some(b), NodeKind::Leaf, "a").unwrap();
    let bad = tree.begin(Some(b), NodeKind::Leaf, "b").unwrap();
    tree.succeed(a).unwrap();
    tree.fail(bad, Some("bad json".to_string())).unwrap();

    assert_eq!(tree.summary(), Summary { completed: 1, errored: 1 });
    assert_eq!(tree.render(), vec!["B".to_string(), "└── b: bad json".to_string()]);
    assert_eq!(tree.get(b).status(), ProgressDisplayVariant::CompleteWithError);
}

#[test]
fn nested_book_with_failure() {
    let mut tree = Tracker::new();
    let b = tree.begin(None, NodeKind::Branch, "B").unwrap();
    let c = tree.begin(Some(b), NodeKind::Branch, "C").unwrap();
    let x = tree.begin(Some(c), NodeKind::Leaf, "x").unwrap();
    let y = tree.begin(Some(b), NodeKind::Leaf, "y").unwrap();
    tree.fail(x, Some("no label".to_string())).unwrap();
    tree.succeed(y).unwrap();

    assert_eq!(
        tree.render(),
        vec![
            "B".to_string(),
            "├── C".to_string(),
            "│   └── x: no label".to_string(),
        ]
    );
    assert_eq!(tree.get(c).status(), ProgressDisplayVariant::CompleteWithError);
    assert_eq!(tree.get(b).status(), ProgressDisplayVariant::CompleteWithError);
    assert_eq!(tree.total_lines(0), 3);
    assert_eq!(tree.num_lines(c), 1);
    assert_eq!(tree.num_lines(x), 2);
}

#[test]
fn render_twice_is_the_same() {
    let tree = create_larger_known_tree();
    let first = tree.render();
    let second = tree.render();
    assert_eq!(first, second);
}

#[test]
fn last_branch_has_no_dangling_pipe() {
    let mut tree = Tracker::new();
    let r = tree.begin(None, NodeKind::Branch, "r").unwrap();
    let a = tree.begin(Some(r), NodeKind::Leaf, "a").unwrap();
    let d = tree.begin(Some(r), NodeKind::Branch, "d").unwrap();
    let e = tree.begin(Some(d), NodeKind::Leaf, "e").unwrap();
    tree.begin(Some(d), NodeKind::Leaf, "f").unwrap();
    tree.fail(a, Some("m1".to_string())).unwrap();
    tree.fail(e, Some("m2".to_string())).unwrap();
    assert_eq!(
        tree.render(),
        vec![
            "r".to_string(),
            "├── a: m1".to_string(),
            "└── d".to_string(),
            "    ├── e: m2".to_string(),
        ]
    );
    assert_eq!(tree.num_lines(d), 2);
}

#[test]
fn error_leaves_each_take_a_row() {
    let mut tree = Tracker::new();
    let r = tree.begin(None, NodeKind::Branch, "r").unwrap();
    let mut leaves = Vec::new();
    for name in ["a", "b", "c", "d"] {
        leaves.push(tree.begin(Some(r), NodeKind::Leaf, name).unwrap());
    }
    tree.begin(Some(r), NodeKind::Branch, "open").unwrap();
    for h in leaves {
        tree.fail(h, Some("x".to_string())).unwrap();
    }
    // the root, the open branch, and one row per error leaf
    assert_eq!(tree.total_lines(0), 1 + 1 + 4);
}

#[test]
fn counts_never_exceed_children() {
    let mut tree = create_ten_leaves();
    let handles = tree.branch(0).unwrap().children.clone();
    for h in handles {
        let _ = tree.succeed(h);
        let root = tree.branch(0).unwrap();
        assert!(root.num_children_complete + root.num_children_errors <= root.num_children());
    }
}

#[test]
fn deep_error_shows_at_the_top() {
    let mut tree = Tracker::new();
    let r = tree.begin(None, NodeKind::Branch, "r").unwrap();
    let a = tree.begin(Some(r), NodeKind::Branch, "a").unwrap();
    let b = tree.begin(Some(a), NodeKind::Branch, "b").unwrap();
    let leaf = tree.begin(Some(b), NodeKind::Leaf, "leaf").unwrap();
    let other = tree.begin(Some(r), NodeKind::Leaf, "other").unwrap();
    tree.succeed(other).unwrap();
    assert_eq!(tree.get(r).status(), ProgressDisplayVariant::Running);
    tree.fail(leaf, None).unwrap();
    assert_eq!(tree.get(b).status(), ProgressDisplayVariant::CompleteWithError);
    assert_eq!(tree.get(a).status(), ProgressDisplayVariant::CompleteWithError);
    assert_eq!(tree.get(r).status(), ProgressDisplayVariant::CompleteWithError);
    // a failed leaf without a message takes no row
    assert_eq!(tree.total_lines(leaf), 0);
}

#[test]
fn empty_branch_completes_on_succeed() {
    let mut tree = Tracker::new();
    let r = tree.begin(None, NodeKind::Branch, "r").unwrap();
    let empty = tree.begin(Some(r), NodeKind::Branch, "empty").unwrap();
    assert_eq!(tree.get(r).status(), ProgressDisplayVariant::Waiting);
    tree.succeed(empty).unwrap();
    assert_eq!(tree.get(empty).status(), ProgressDisplayVariant::Complete);
    assert_eq!(tree.get(r).status(), ProgressDisplayVariant::Complete);
    assert_eq!(tree.summary(), Summary { completed: 2, errored: 0 });
}

#[test]
fn usage_errors_are_reported() {
    let mut tree = Tracker::new();
    assert_eq!(tree.begin(Some(0), NodeKind::Leaf, "x"), Err(UsageError::UnknownHandle));
    let r = tree.begin(None, NodeKind::Branch, "r").unwrap();
    assert_eq!(tree.begin(None, NodeKind::Branch, "r2"), Err(UsageError::RootMismatch));
    let leaf = tree.begin(Some(r), NodeKind::Leaf, "leaf").unwrap();
    assert_eq!(tree.begin(Some(leaf), NodeKind::Leaf, "x"), Err(UsageError::NotABranch));
    assert_eq!(tree.begin(Some(r), NodeKind::Leaf, "leaf"), Err(UsageError::DuplicateName));
    assert_eq!(tree.succeed(r), Err(UsageError::BranchHasChildren));
    assert_eq!(tree.succeed(42), Err(UsageError::UnknownHandle));
    assert_eq!(tree.fail(42, None), Err(UsageError::UnknownHandle));
    let mut odd = NodeType::new_node("odd");
    odd.update(ProgressDisplayVariant::Running);
    assert_eq!(tree.insert(Some(r), odd), Err(UsageError::NotDetached));
    let mut failed = NodeType::new_node("failed");
    failed.error(Some("early".to_string())).unwrap();
    assert_eq!(tree.insert(Some(r), failed), Err(UsageError::NotDetached));
    assert_eq!(tree.get(r).status(), ProgressDisplayVariant::Waiting);
    tree.succeed(leaf).unwrap();
    assert_eq!(tree.succeed(leaf), Err(UsageError::AlreadyFinished));
    assert_eq!(tree.fail(leaf, None), Err(UsageError::AlreadyFinished));
    assert_eq!(tree.begin(Some(r), NodeKind::Leaf, "late"), Err(UsageError::ParentFinished));
    assert_eq!(tree.len(), 2);
}

#[test]
fn detached_node_transitions() {
    let mut branch = NodeType::new_branch("book");
    assert_eq!(branch.name(), "book");
    assert_eq!(branch.status(), ProgressDisplayVariant::Waiting);
    branch.complete().unwrap();
    assert_eq!(branch.status(), ProgressDisplayVariant::Complete);
    assert_eq!(branch.complete(), Err(UsageError::AlreadyFinished));
    let mut leaf = NodeType::new_node("bp");
    leaf.error(None).unwrap();
    assert_eq!(leaf.status(), ProgressDisplayVariant::Error);
    assert!(leaf.error_message().is_none());
    assert_eq!(leaf.error(Some("again".to_string())), Err(UsageError::AlreadyFinished));
}
