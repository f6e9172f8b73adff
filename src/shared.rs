//! A tree shared by many workers behind a reader/writer lock.

use vstd::prelude::*;
use vstd::rwlock::{RwLock, RwLockPredicate};
use crate::model::tree_wf;
use crate::node::{NodeType, opt_view};
use crate::render::{rows_view, spec_render};
use crate::status::UsageError;
use crate::tree::{
    NodeKind, Summary, Tracker, count_status, fail_outcome, insert_outcome, place_outcome,
    propagated_from,
    succeed_outcome,
};
use crate::status::ProgressDisplayVariant;

verus! {

/// What the lock holds: a well-formed tree.
pub struct WellFormed;

impl RwLockPredicate<Tracker> for WellFormed {
    open spec fn inv(self, v: Tracker) -> bool {
        tree_wf(v@)
    }
}

/// A tree shared between workers. Every change takes the write lock for
/// one operation on the tree, propagation included, and releases it;
/// readers take the read lock. Each result is the one that the operation
/// gives on the tree as it stood while the lock was held, and a change is
/// the one that the operation makes on that tree.
pub struct RwArc {
    lock: RwLock<Tracker, WellFormed>,
}

impl RwArc {
    /// Shares a tree.
    pub fn new(data: Tracker) -> (r: RwArc) {
        data.well_formed();
        RwArc { lock: RwLock::new(data, Ghost(WellFormed)) }
    }

    /// The tree, once no worker shares it any more.
    pub fn into_inner(self) -> (r: Tracker) {
        self.lock.into_inner()
    }

    /// Inserts a node that belongs to no tree under `parent`, or as the root.
    pub fn insert(&self, parent: Option<usize>, node: NodeType) -> (r: Result<usize, UsageError>)
        ensures
            exists|t: Seq<NodeType>, u: Seq<NodeType>|
                tree_wf(t) && tree_wf(u) && r == insert_outcome(t, parent, node) && (r is Err ==> u
                    == t) && (r matches Ok(h) ==> u.len() == t.len() + 1 && u[h as int].spec_status()
                    == node.spec_status() && u[h as int].spec_parent() == parent && propagated_from(
                    t,
                    u,
                    h as int,
                    match parent {
                        Some(p) => p as int,
                        None => -1,
                    },
                )),
    {
        let (mut tree, handle) = self.lock.acquire_write();
        let ghost before = tree@;
        let ghost given = node;
        let r = tree.insert(parent, node);
        tree.well_formed();
        let ghost after = tree@;
        handle.release_write(tree);
        assert(tree_wf(before) && tree_wf(after) && r == insert_outcome(before, parent, given));
        r
    }

    /// Registers a new node, waiting, under `parent`, or as the root.
    pub fn begin(&self, parent: Option<usize>, kind: NodeKind, name: &str) -> (r: Result<
        usize,
        UsageError,
    >)
        ensures
            exists|t: Seq<NodeType>, u: Seq<NodeType>|
                tree_wf(t) && tree_wf(u) && r == place_outcome(t, parent, name@) && (r is Err ==> u
                    == t) && (r matches Ok(h) ==> u.len() == t.len() + 1 && u[h as int].spec_status()
                    == ProgressDisplayVariant::Waiting && u[h as int].spec_parent() == parent
                    && propagated_from(
                    t,
                    u,
                    h as int,
                    match parent {
                        Some(p) => p as int,
                        None => -1,
                    },
                )),
    {
        let (mut tree, handle) = self.lock.acquire_write();
        let ghost before = tree@;
        let r = tree.begin(parent, kind, name);
        tree.well_formed();
        let ghost after = tree@;
        handle.release_write(tree);
        assert(tree_wf(before) && tree_wf(after) && r == place_outcome(before, parent, name@));
        r
    }

    /// Reports that the conversion of node `h` succeeded.
    pub fn succeed(&self, h: usize) -> (r: Result<(), UsageError>)
        ensures
            exists|t: Seq<NodeType>, u: Seq<NodeType>|
                tree_wf(t) && tree_wf(u) && r == succeed_outcome(t, h) && (r is Err ==> u == t) && (r
                    is Ok ==> u.len() == t.len() && u[h as int].spec_status()
                    == ProgressDisplayVariant::Complete && propagated_from(t, u, h as int, -1)),
    {
        let (mut tree, handle) = self.lock.acquire_write();
        let ghost before = tree@;
        let r = tree.succeed(h);
        tree.well_formed();
        let ghost after = tree@;
        handle.release_write(tree);
        assert(tree_wf(before) && tree_wf(after) && r == succeed_outcome(before, h));
        r
    }

    /// Reports that the conversion of node `h` failed.
    pub fn fail(&self, h: usize, message: Option<String>) -> (r: Result<(), UsageError>)
        ensures
            exists|t: Seq<NodeType>, u: Seq<NodeType>|
                tree_wf(t) && tree_wf(u) && r == fail_outcome(t, h) && (r is Err ==> u == t) && (r
                    is Ok ==> u.len() == t.len() && u[h as int].spec_status()
                    == ProgressDisplayVariant::Error && u[h as int].spec_message() == opt_view(message)
                    && propagated_from(t, u, h as int, -1)),
    {
        let (mut tree, handle) = self.lock.acquire_write();
        let ghost before = tree@;
        let ghost given = message;
        let r = tree.fail(h, message);
        tree.well_formed();
        let ghost after = tree@;
        handle.release_write(tree);
        assert(tree_wf(before) && tree_wf(after) && r == fail_outcome(before, h));
        r
    }

    /// The rows of the tree as it stands.
    pub fn render(&self) -> (r: Vec<String>)
        ensures
            exists|t: Seq<NodeType>| tree_wf(t) && rows_view(r@) == spec_render(t, 0),
    {
        let handle = self.lock.acquire_read();
        let tree = handle.borrow();
        tree.well_formed();
        let r = tree.render();
        let ghost snapshot = tree@;
        handle.release_read();
        assert(tree_wf(snapshot) && rows_view(r@) == spec_render(snapshot, 0));
        r
    }

    /// Completed and failed nodes over the tree as it stands.
    pub fn summary(&self) -> (r: Summary)
        ensures
            exists|t: Seq<NodeType>|
                tree_wf(t) && r.completed == count_status(
                    t,
                    t.len() as int,
                    ProgressDisplayVariant::Complete,
                ) && r.errored == count_status(t, t.len() as int, ProgressDisplayVariant::Error),
    {
        let handle = self.lock.acquire_read();
        let tree = handle.borrow();
        tree.well_formed();
        let r = tree.summary();
        let ghost snapshot = tree@;
        handle.release_read();
        assert(tree_wf(snapshot) && r.completed == count_status(snapshot, snapshot.len() as int, ProgressDisplayVariant::Complete));
        r
    }
}

} // verus!
