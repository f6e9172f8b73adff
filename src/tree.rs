//! The arena of nodes: insertion under a parent and the terminal transitions
//! with their upward propagation.

use vstd::prelude::*;
use crate::model::{
    child_added, counted_step, structure_ok, lemma_child_added, lemma_node_finished, lemma_pending_room,
    lemma_record_step, node_finished, node_ok, pending, same_node_shape, same_shape, tree_wf,
};
use crate::laws::lemma_counts_bounded_everywhere;
use crate::lines::{is_desc, lemma_desc_child, lemma_desc_ge, lemma_desc_same_parents};
use crate::node::{NodeType, opt_view};
use crate::status::{ProgressDisplayVariant, UsageError};

verus! {

/// The progress tree: an arena of nodes addressed by their handles, the root
/// at handle 0.
pub struct Tracker {
    nodes: Vec<NodeType>,
}

impl View for Tracker {
    type V = Seq<NodeType>;

    closed spec fn view(&self) -> Seq<NodeType> {
        self.nodes@
    }
}

/// What `insert` returns on arena `nodes`: the new handle, or the usage
/// error that refuses the node.
pub open spec fn insert_outcome(nodes: Seq<NodeType>, parent: Option<usize>, node: NodeType) -> Result<
    usize,
    UsageError,
> {
    if !node.spec_detached() {
        Err(UsageError::NotDetached)
    } else {
        place_outcome(nodes, parent, node.spec_name())
    }
}

/// Where a node named `name` goes under `parent`: the new handle, or the
/// usage error that refuses it.
pub open spec fn place_outcome(nodes: Seq<NodeType>, parent: Option<usize>, name: Seq<char>) -> Result<
    usize,
    UsageError,
> {
    match parent {
        None => if nodes.len() == 0 {
            Ok(0)
        } else {
            Err(UsageError::RootMismatch)
        },
        Some(p) => if p >= nodes.len() {
            Err(UsageError::UnknownHandle)
        } else if !nodes[p as int].is_branch() {
            Err(UsageError::NotABranch)
        } else if nodes[p as int].spec_status().spec_is_terminal() {
            Err(UsageError::ParentFinished)
        } else if exists|k: int|
            0 <= k < nodes[p as int].spec_children().len() && #[trigger] nodes[nodes[p as int].spec_children()[k] as int].spec_name()
                == name {
            Err(UsageError::DuplicateName)
        } else {
            Ok(nodes.len() as usize)
        },
    }
}

/// Number of the first `n` nodes whose status is `s`.
pub open spec fn count_status(nodes: Seq<NodeType>, n: int, s: ProgressDisplayVariant) -> nat
    decreases n,
{
    if n <= 0 {
        0
    } else {
        count_status(nodes, n - 1, s) + (if nodes[n - 1].spec_status() == s {
            1nat
        } else {
            0nat
        })
    }
}

/// The kind of node to register.
#[derive(Clone, Copy, Debug, PartialEq, Eq, Structural)]
pub enum NodeKind {
    Branch,
    Leaf,
}

/// Final statistics of a tree.
#[derive(Clone, Copy, Debug, PartialEq, Eq, Structural)]
pub struct Summary {
    /// Nodes that completed cleanly
    pub completed: u64,
    /// Nodes that failed
    pub errored: u64,
}

/// What `succeed` returns on arena `nodes` for handle `h`.
pub open spec fn succeed_outcome(nodes: Seq<NodeType>, h: usize) -> Result<(), UsageError> {
    if h >= nodes.len() {
        Err(UsageError::UnknownHandle)
    } else if nodes[h as int].spec_status().spec_is_terminal() {
        Err(UsageError::AlreadyFinished)
    } else if nodes[h as int].spec_children().len() > 0 {
        Err(UsageError::BranchHasChildren)
    } else {
        Ok(())
    }
}

/// What `fail` returns on arena `nodes` for handle `h`.
pub open spec fn fail_outcome(nodes: Seq<NodeType>, h: usize) -> Result<(), UsageError> {
    if h >= nodes.len() {
        Err(UsageError::UnknownHandle)
    } else if nodes[h as int].spec_status().spec_is_terminal() {
        Err(UsageError::AlreadyFinished)
    } else {
        Ok(())
    }
}

/// Arena `b` follows from `a` by one change and its propagation alone: the
/// shape and the messages are kept, but for the message of node `h` and the
/// children of node `p`; so is the status of every leaf, of every failed
/// branch and of every branch without children, but for nodes `h` and `p`.
/// No node but `h` becomes `Error`, and every node that is neither `h`, nor
/// above `h`, nor `p` is left as it was. The status of every branch above
/// `h` is then fixed by the counts of its children in the well-formed arena
/// `b`.
pub open spec fn propagated_from(a: Seq<NodeType>, b: Seq<NodeType>, h: int, p: int) -> bool {
    &&& a.len() <= b.len()
    &&& forall|i: int|
        0 <= i < a.len() ==> {
            &&& #[trigger] b[i].is_branch() == a[i].is_branch()
            &&& b[i].spec_name() == a[i].spec_name()
            &&& b[i].spec_parent() == a[i].spec_parent()
            &&& i != p ==> b[i].spec_children() == a[i].spec_children()
        }
    &&& forall|i: int| 0 <= i < a.len() && i != h ==> #[trigger] b[i].spec_message() == a[i].spec_message()
    &&& forall|i: int|
        0 <= i < a.len() && i != h && i != p && (!a[i].is_branch() || a[i].spec_status()
            == ProgressDisplayVariant::Error || a[i].spec_children().len() == 0)
            ==> #[trigger] b[i].spec_status() == a[i].spec_status()
    &&& forall|i: int|
        0 <= i < a.len() && i != h && #[trigger] b[i].spec_status() == ProgressDisplayVariant::Error
            ==> a[i].spec_status() == ProgressDisplayVariant::Error
    &&& forall|i: int| 0 <= i < a.len() && i != p && !is_desc(b, h, i) ==> #[trigger] b[i] == a[i]
}

/// Counts a terminal transition of `child` in its ancestors, walking up as
/// long as a branch reaches a terminal status by it.
fn propagate(nodes: &mut Vec<NodeType>, child: usize)
    requires
        pending(old(nodes)@, child as int),
    ensures
        tree_wf(final(nodes)@),
        same_shape(old(nodes)@, final(nodes)@),
        forall|i: int|
            0 <= i < final(nodes)@.len() && (!old(nodes)@[i].is_branch() || old(nodes)@[i].spec_status()
                == ProgressDisplayVariant::Error || old(
                nodes,
            )@[i].spec_children().len() == 0) ==> #[trigger] final(nodes)@[i].spec_status()
                == old(nodes)@[i].spec_status(),
        forall|i: int|
            0 <= i < final(nodes)@.len() && #[trigger] final(nodes)@[i].spec_status()
                == ProgressDisplayVariant::Error ==> old(nodes)@[i].spec_status()
                == ProgressDisplayVariant::Error,
        forall|i: int|
            0 <= i < final(nodes)@.len() && !(is_desc(old(nodes)@, child as int, i) && i
                != child as int) ==> #[trigger] final(nodes)@[i] == old(nodes)@[i],
{
    let ghost orig = nodes@;
    let len: usize = nodes.len();
    proof {
        assert(is_desc(orig, child as int, child as int));
    }
    let mut cur: usize = child;
    let mut done = false;
    while !done
        invariant
            same_shape(orig, nodes@),
            done ==> tree_wf(nodes@),
            !done ==> pending(nodes@, cur as int),
            forall|i: int|
                0 <= i < nodes@.len() && (!orig[i].is_branch() || orig[i].spec_status()
                    == ProgressDisplayVariant::Error || orig[i].spec_children().len() == 0)
                    ==> #[trigger] nodes@[i].spec_status() == orig[i].spec_status(),
            len == orig.len(),
            !done ==> is_desc(orig, child as int, cur as int),
            forall|i: int|
                0 <= i < nodes@.len() && #[trigger] nodes@[i].spec_status()
                    == ProgressDisplayVariant::Error ==> orig[i].spec_status()
                    == ProgressDisplayVariant::Error,
            forall|i: int|
                0 <= i < nodes@.len() && !(is_desc(orig, child as int, i) && i != child as int)
                    ==> #[trigger] nodes@[i] == orig[i],
        decreases cur + (if done { 0int } else { 1int }),
    {
        let p: usize = nodes[cur].parent().unwrap();
        let ghost a = nodes@;
        proof {
            lemma_pending_room(a, cur, p);
        }
        let st = nodes[cur].status();
        let before = nodes[p].status();
        nodes[p].record_child(st);
        let after = nodes[p].status();
        proof {
            assert forall|i: int| 0 <= i < a.len() && i != p as int implies #[trigger] nodes@[i] == a[i] by {}
            assert(counted_step(a, nodes@, cur as int, p as int));
            lemma_record_step(a, nodes@, cur, p);
            assert forall|i: int| 0 <= i < orig.len() implies #[trigger] same_node_shape(orig[i], nodes@[i]) by {
                assert(same_node_shape(orig[i], a[i]));
                assert(same_node_shape(a[i], nodes@[i]));
            }
            assert forall|i: int|
                0 <= i < nodes@.len() && (!orig[i].is_branch() || orig[i].spec_status()
                    == ProgressDisplayVariant::Error || orig[i].spec_children().len() == 0)
                    implies #[trigger] nodes@[i].spec_status() == orig[i].spec_status() by {
                assert(same_node_shape(orig[i], a[i]));
                assert(a[i].spec_status() == orig[i].spec_status());
            }
            assert(same_node_shape(orig[cur as int], a[cur as int]));
            lemma_desc_ge(orig, child as int, cur as int);
            lemma_desc_child(orig, child as int, cur as int, p as int);
            assert forall|i: int|
                0 <= i < nodes@.len() && #[trigger] nodes@[i].spec_status()
                    == ProgressDisplayVariant::Error implies orig[i].spec_status()
                    == ProgressDisplayVariant::Error by {
                if i != p as int {
                    assert(nodes@[i] == a[i]);
                }
            }
            assert forall|i: int|
                0 <= i < nodes@.len() && !(is_desc(orig, child as int, i) && i != child as int)
                    implies #[trigger] nodes@[i] == orig[i] by {
                assert(nodes@[i] == a[i]);
            }
        }
        if !before.is_terminal() && after.is_terminal() && nodes[p].parent().is_some() {
            cur = p;
        } else {
            done = true;
        }
    }
}

impl Tracker {
    #[verifier::type_invariant]
    pub open spec fn inv(&self) -> bool {
        tree_wf(self@)
    }

    /// An empty tree, waiting for its root.
    pub fn new() -> (r: Tracker)
        ensures
            r@.len() == 0,
    {
        Tracker { nodes: Vec::new() }
    }

    /// Number of nodes in the tree.
    pub fn len(&self) -> (r: usize)
        ensures
            r == self@.len(),
    {
        self.nodes.len()
    }

    /// The node at handle `h`.
    pub fn get(&self, h: usize) -> (r: &NodeType)
        requires
            h < self@.len(),
        ensures
            *r == self@[h as int],
    {
        &self.nodes[h]
    }

    /// Inserts a node that belongs to no tree: as the root (`parent` is
    /// `None`) of an empty tree, or as the last child of branch `parent`.
    /// Returns the handle of the new node. Insertion counts nothing: the node
    /// must be waiting, and the parent keeps its status and its counts.
    pub fn insert(&mut self, parent: Option<usize>, node: NodeType) -> (r: Result<usize, UsageError>)
        ensures
            r == insert_outcome(old(self)@, parent, node),
            tree_wf(final(self)@),
            r is Err ==> final(self)@ == old(self)@,
            r matches Ok(h) ==> {
                let x = final(self)@[h as int];
                &&& final(self)@.len() == old(self)@.len() + 1
                &&& x.is_branch() == node.is_branch()
                &&& x.spec_name() == node.spec_name()
                &&& x.spec_parent() == parent
                &&& x.spec_children().len() == 0
                &&& x.spec_message() == node.spec_message()
                &&& x.spec_status() == node.spec_status()
                &&& parent matches Some(p) ==> final(self)@[p as int].spec_children() == old(
                    self,
                )@[p as int].spec_children().push(h)
                &&& propagated_from(
                    old(self)@,
                    final(self)@,
                    h as int,
                    match parent {
                        Some(p) => p as int,
                        None => -1,
                    },
                )
                &&& (parent matches Some(p) ==> (
                (forall|i: int|
                    0 <= i < old(self)@.len() && i != p as int ==> #[trigger] final(self)@[i]
                        == old(self)@[i])
                    && final(self)@[p as int].spec_status() == old(self)@[p as int].spec_status()
                    && final(self)@[p as int].spec_complete() == old(self)@[p as int].spec_complete()
                    && final(self)@[p as int].spec_errors() == old(self)@[p as int].spec_errors()))
            },
    {
        proof {
            use_type_invariant(&*self);
        }
        if !node.is_detached() {
            return Err(UsageError::NotDetached);
        }
        let len = self.nodes.len();
        match parent {
            None => {
                if len != 0 {
                    return Err(UsageError::RootMismatch);
                }
                let mut nodes: Vec<NodeType> = Vec::new();
                std::mem::swap(&mut self.nodes, &mut nodes);
                nodes.push(node);
                proof {
                    assert(nodes@[0] == node);
                    assert(node_ok(nodes@, 0));
                }
                self.nodes = nodes;
                proof {
                    assert(self@.len() == 1);
                    assert(self@[0] == node);
                }
                self.well_formed();
                Ok(0)
            },
            Some(p) => {
                if p >= len {
                    return Err(UsageError::UnknownHandle);
                }
                if !self.nodes[p].is_branch_node() {
                    return Err(UsageError::NotABranch);
                }
                if self.nodes[p].status().is_terminal() {
                    return Err(UsageError::ParentFinished);
                }
                let ghost a = self@;
                let ghost cs = a[p as int].spec_children();
                let children: &Vec<usize> = match &self.nodes[p] {
                    NodeType::Branch(b) => &b.children,
                    NodeType::Node(_) => {
                        assert(false);
                        return Err(UsageError::NotABranch);
                    },
                };
                let mut k: usize = 0;
                while k < children.len()
                    invariant
                        children@ == cs,
                        cs == a[p as int].spec_children(),
                        k <= cs.len(),
                        node.spec_detached(),
                        parent == Some(p),
                        a[p as int].is_branch(),
                        !a[p as int].spec_status().spec_is_terminal(),
                        tree_wf(a),
                        0 <= p < a.len(),
                        a == self@,
                        forall|j: int| 0 <= j < k ==> #[trigger] a[cs[j] as int].spec_name() != node.spec_name(),
                    decreases children.len() - k,
                {
                    proof {
                        assert(node_ok(a, p as int));
                        assert(structure_ok(a, p as int));
                    }
                    let c = children[k];
                    if self.nodes[c].name_ref().eq(node.name_ref()) {
                        assert(a[a[p as int].spec_children()[k as int] as int].spec_name() == node.spec_name());
                        return Err(UsageError::DuplicateName);
                    }
                    assert(a[cs[k as int] as int].spec_name() != node.spec_name());
                    k = k + 1;
                }
                let mut nodes: Vec<NodeType> = Vec::new();
                std::mem::swap(&mut self.nodes, &mut nodes);
                let mut node = node;
                node.set_parent(p);
                nodes.push(node);
                nodes[p].push_child(len);
                proof {
                    assert forall|i: int| 0 <= i < len && i != p as int implies #[trigger] nodes@[i] == a[i] by {}
                    assert(child_added(a, nodes@, p as int));
                    lemma_child_added(a, nodes@, p as int);
                }
                proof {
                    let c = nodes@;
                    assert(c[p as int].spec_children() == a[p as int].spec_children().push(len));
                    assert forall|i: int| 0 <= i < a.len() && i != p as int implies #[trigger] nodes@[i] == a[i] by {}
                    assert forall|i: int| 0 <= i < a.len() implies #[trigger] nodes@[i].is_branch() == a[i].is_branch() && nodes@[i].spec_name() == a[i].spec_name() && nodes@[i].spec_parent() == a[i].spec_parent() && (i != p as int ==> nodes@[i].spec_children() == a[i].spec_children()) by {}
                    assert forall|i: int| 0 <= i < a.len() && i != len as int implies #[trigger] nodes@[i].spec_message() == a[i].spec_message() by {}
                }
                self.nodes = nodes;
                self.well_formed();
                Ok(len)
            },
        }
    }

    /// Registers a new node of the given kind and name, waiting, under
    /// `parent`, or as the root when `parent` is `None`.
    pub fn begin(&mut self, parent: Option<usize>, kind: NodeKind, name: &str) -> (r: Result<
        usize,
        UsageError,
    >)
        ensures
            r == place_outcome(old(self)@, parent, name@),
            tree_wf(final(self)@),
            r is Err ==> final(self)@ == old(self)@,
            r matches Ok(h) ==> {
                let x = final(self)@[h as int];
                &&& final(self)@.len() == old(self)@.len() + 1
                &&& x.is_branch() == (kind == NodeKind::Branch)
                &&& x.spec_name() == name@
                &&& x.spec_parent() == parent
                &&& x.spec_children().len() == 0
                &&& x.spec_message() is None
                &&& x.spec_status() == ProgressDisplayVariant::Waiting
                &&& parent matches Some(p) ==> final(self)@[p as int].spec_children() == old(
                    self,
                )@[p as int].spec_children().push(h)
                &&& propagated_from(
                    old(self)@,
                    final(self)@,
                    h as int,
                    match parent {
                        Some(p) => p as int,
                        None => -1,
                    },
                )
                &&& parent matches Some(p) ==> (
                (forall|i: int|
                    0 <= i < old(self)@.len() && i != p as int ==> #[trigger] final(self)@[i]
                        == old(self)@[i])
                    && final(self)@[p as int].spec_status() == old(self)@[p as int].spec_status()
                    && final(self)@[p as int].spec_complete() == old(self)@[p as int].spec_complete()
                    && final(self)@[p as int].spec_errors() == old(self)@[p as int].spec_errors())
            },
    {
        let node = match kind {
            NodeKind::Branch => NodeType::new_branch(name),
            NodeKind::Leaf => NodeType::new_node(name),
        };
        self.insert(parent, node)
    }

    /// Completed and failed nodes over the whole tree.
    pub fn summary(&self) -> (r: Summary)
        ensures
            r.completed == count_status(self@, self@.len() as int, ProgressDisplayVariant::Complete),
            r.errored == count_status(self@, self@.len() as int, ProgressDisplayVariant::Error),
    {
        let n = self.nodes.len();
        let mut completed: u64 = 0;
        let mut errored: u64 = 0;
        let mut i: usize = 0;
        while i < n
            invariant
                n == self@.len(),
                i <= n,
                completed == count_status(self@, i as int, ProgressDisplayVariant::Complete),
                errored == count_status(self@, i as int, ProgressDisplayVariant::Error),
                completed <= i,
                errored <= i,
            decreases n - i,
        {
            match self.nodes[i].status() {
                ProgressDisplayVariant::Complete => {
                    completed = completed + 1;
                },
                ProgressDisplayVariant::Error => {
                    errored = errored + 1;
                },
                _ => {},
            }
            i = i + 1;
        }
        Summary { completed, errored }
    }

    /// Reports that the conversion of node `h` succeeded. A leaf, or a branch
    /// without children, becomes `Complete`, and its ancestors count it.
    pub fn succeed(&mut self, h: usize) -> (r: Result<(), UsageError>)
        ensures
            r == succeed_outcome(old(self)@, h),
            tree_wf(final(self)@),
            forall|i: int|
                0 <= i < final(self)@.len() && final(self)@[i].is_branch()
                    ==> #[trigger] final(self)@[i].spec_complete() + final(self)@[i].spec_errors()
                    <= final(self)@[i].spec_children().len(),
            r is Err ==> final(self)@ == old(self)@,
            r is Ok ==> final(self)@.len() == old(self)@.len() && final(self)@[h as int].spec_status()
                == ProgressDisplayVariant::Complete && final(self)@[h as int].spec_message() == old(
                self,
            )@[h as int].spec_message()
                && propagated_from(old(self)@, final(self)@, h as int, -1),
    {
        proof {
            use_type_invariant(&*self);
            lemma_counts_bounded_everywhere(self@);
        }
        if h >= self.nodes.len() {
            return Err(UsageError::UnknownHandle);
        }
        if self.nodes[h].status().is_terminal() {
            return Err(UsageError::AlreadyFinished);
        }
        let has_children = match &self.nodes[h] {
            NodeType::Branch(b) => b.children.len() > 0,
            NodeType::Node(_) => false,
        };
        if has_children {
            return Err(UsageError::BranchHasChildren);
        }
        let ghost a = self@;
        proof {
            assert(node_ok(a, h as int));
        }
        let mut nodes: Vec<NodeType> = Vec::new();
        std::mem::swap(&mut self.nodes, &mut nodes);
        nodes[h].update(ProgressDisplayVariant::Complete);
        proof {
            assert forall|i: int| 0 <= i < a.len() && i != h as int implies #[trigger] nodes@[i] == a[i] by {}
        }
        self.finish(nodes, h, Ghost(a));
        self.well_formed();
        Ok(())
    }

    /// Reports that the conversion of node `h` failed, with an optional
    /// message. The node becomes `Error`, and its ancestors count it.
    pub fn fail(&mut self, h: usize, message: Option<String>) -> (r: Result<(), UsageError>)
        ensures
            r == fail_outcome(old(self)@, h),
            tree_wf(final(self)@),
            forall|i: int|
                0 <= i < final(self)@.len() && final(self)@[i].is_branch()
                    ==> #[trigger] final(self)@[i].spec_complete() + final(self)@[i].spec_errors()
                    <= final(self)@[i].spec_children().len(),
            r is Err ==> final(self)@ == old(self)@,
            r is Ok ==> final(self)@.len() == old(self)@.len() && final(self)@[h as int].spec_status()
                == ProgressDisplayVariant::Error && final(self)@[h as int].spec_message() == opt_view(
                message,
            )
                && propagated_from(old(self)@, final(self)@, h as int, -1),
    {
        proof {
            use_type_invariant(&*self);
            lemma_counts_bounded_everywhere(self@);
        }
        if h >= self.nodes.len() {
            return Err(UsageError::UnknownHandle);
        }
        if self.nodes[h].status().is_terminal() {
            return Err(UsageError::AlreadyFinished);
        }
        let ghost a = self@;
        let mut nodes: Vec<NodeType> = Vec::new();
        std::mem::swap(&mut self.nodes, &mut nodes);
        nodes[h].set_failed(message);
        proof {
            assert forall|i: int| 0 <= i < a.len() && i != h as int implies #[trigger] nodes@[i] == a[i] by {}
        }
        self.finish(nodes, h, Ghost(a));
        self.well_formed();
        Ok(())
    }

    /// Puts back the arena `nodes`, in which node `h` of `a` just reached a
    /// terminal status, once its ancestors have counted it.
    fn finish(&mut self, nodes: Vec<NodeType>, h: usize, Ghost(a): Ghost<Seq<NodeType>>)
        requires
            old(self)@.len() == 0,
            tree_wf(a),
            node_finished(a, nodes@, h as int),
            !a[h as int].spec_status().spec_is_terminal(),
        ensures
            final(self)@.len() == a.len(),
            final(self)@[h as int].spec_status() == nodes@[h as int].spec_status(),
            final(self)@[h as int].spec_message() == nodes@[h as int].spec_message(),
            propagated_from(a, final(self)@, h as int, -1),
    {
        let mut nodes = nodes;
        let ghost c = nodes@;
        proof {
            lemma_node_finished(a, c, h);
        }
        let has_parent = nodes[h].parent().is_some();
        if has_parent {
            propagate(&mut nodes, h);
        }
        proof {
            if has_parent {
                assert(same_node_shape(c[h as int], nodes@[h as int]));
            }
            assert forall|i: int| 0 <= i < a.len() && i != h as int implies #[trigger] nodes@[i] .spec_message() == a[i].spec_message() by {
                if has_parent {
                    assert(same_node_shape(c[i], nodes@[i]));
                }
            }
            assert forall|i: int| 0 <= i < a.len() implies #[trigger] nodes@[i].is_branch() == a[i].is_branch() && nodes@[i].spec_name() == a[i].spec_name() && nodes@[i].spec_parent() == a[i].spec_parent() && (i != -1 ==> nodes@[i].spec_children() == a[i].spec_children()) by {
                if has_parent {
                    assert(same_node_shape(c[i], nodes@[i]));
                }
            }
            assert forall|j: int| 0 <= j < c.len() implies #[trigger] c[j].spec_parent() == nodes@[j].spec_parent() by {
                if has_parent {
                    assert(same_node_shape(c[j], nodes@[j]));
                }
            }
            assert forall|i: int|
                0 <= i < a.len() && i != h as int && #[trigger] nodes@[i].spec_status()
                    == ProgressDisplayVariant::Error implies a[i].spec_status()
                    == ProgressDisplayVariant::Error by {
                assert(c[i] == a[i]);
            }
            assert forall|i: int| 0 <= i < a.len() && i != -1 && !is_desc(nodes@, h as int, i) implies #[trigger] nodes@[i] == a[i] by {
                lemma_desc_same_parents(c, nodes@, h as int, i);
                assert(is_desc(c, h as int, h as int));
                assert(c[i] == a[i]);
            }
        }
        self.nodes = nodes;
    }

    /// The tree is well-formed at every point in time, and no branch counts
    /// more finished children than it has.
    pub fn well_formed(&self)
        ensures
            tree_wf(self@),
            forall|i: int|
                0 <= i < self@.len() && self@[i].is_branch() ==> #[trigger] self@[i].spec_complete()
                    + self@[i].spec_errors() <= self@[i].spec_children().len(),
    {
        proof {
            use_type_invariant(self);
            lemma_counts_bounded_everywhere(self@);
        }
    }
}

} // verus!
