use fbpconvert::shared::RwArc;
use fbpconvert::tree::{NodeKind, Tracker};
use fbpconvert::status::ProgressDisplayVariant;
use rayon::iter::IntoParallelRefIterator;
use rayon::iter::ParallelIterator;

#[test]
fn parallel_leaves_are_all_counted() {
    let n: usize = 200;
    let shared = RwArc::new(Tracker::new());
    let root = shared.begin(None, NodeKind::Branch, "root").unwrap();
    let handles: Vec<usize> = (0..n)
        .map(|i| shared.begin(Some(root), NodeKind::Leaf, &format!("leaf {i}")).unwrap())
        .collect();
    handles.par_iter().for_each(|h| {
        shared.succeed(*h).unwrap();
        let _ = shared.render();
    });
    let summary = shared.summary();
    assert_eq!(summary.completed, n as u64 + 1);
    let tree = shared.into_inner();
    let branch = tree.branch(root).unwrap();
    assert_eq!(branch.num_children_complete, n);
    assert_eq!(branch.progress, ProgressDisplayVariant::Complete);
}

#[test]
fn parallel_failures_are_all_counted() {
    let n: usize = 64;
    let shared = RwArc::new(Tracker::new());
    let root = shared.begin(None, NodeKind::Branch, "root").unwrap();
    let keep = shared.begin(Some(root), NodeKind::Leaf, "keep").unwrap();
    let handles: Vec<usize> = (0..n)
        .map(|i| shared.begin(Some(root), NodeKind::Leaf, &format!("leaf {i}")).unwrap())
        .collect();
    handles.par_iter().for_each(|h| {
        shared.fail(*h, Some("broken".to_string())).unwrap();
    });
    assert_eq!(shared.render().len(), n + 1);
    shared.succeed(keep).unwrap();
    let tree = shared.into_inner();
    let branch = tree.branch(root).unwrap();
    assert_eq!(branch.num_children_errors, n);
    assert_eq!(branch.num_children_complete, 1);
    assert_eq!(branch.progress, ProgressDisplayVariant::CompleteWithError);
}
