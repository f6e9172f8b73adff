//! Views of the children of a branch inside a tree.

use vstd::prelude::*;
use crate::node::{NodeType, TreeBranch};
use crate::status::ProgressDisplayVariant;
use crate::tree::Tracker;

verus! {

/// Handles among `cs` of nodes of `nodes` that satisfy `f`, in order.
pub open spec fn select(nodes: Seq<NodeType>, cs: Seq<usize>, f: spec_fn(NodeType) -> bool) -> Seq<
    usize,
>
    decreases cs.len(),
{
    if cs.len() == 0 {
        Seq::empty()
    } else {
        let c = cs.last();
        let init = select(nodes, cs.drop_last(), f);
        if (c as int) < nodes.len() && f(nodes[c as int]) {
            init.push(c)
        } else {
            init
        }
    }
}

pub open spec fn is_errored(n: NodeType) -> bool {
    n.spec_status() == ProgressDisplayVariant::Error
}

pub open spec fn is_branch_node(n: NodeType) -> bool {
    n.is_branch()
}

pub open spec fn is_incomplete(n: NodeType) -> bool {
    n.spec_status() != ProgressDisplayVariant::Complete
}

impl Tracker {
    /// The branch at handle `h`, if `h` names one.
    pub fn branch(&self, h: usize) -> (r: Option<&TreeBranch>)
        ensures
            r matches Some(b) ==> h < self@.len() && self@[h as int] == NodeType::Branch(*b),
            r is None ==> h >= self@.len() || !self@[h as int].is_branch(),
    {
        if h >= self.len() {
            return None;
        }
        match self.get(h) {
            NodeType::Branch(b) => Some(b),
            NodeType::Node(_) => None,
        }
    }
}

impl TreeBranch {
    fn select_children(&self, tree: &Tracker, kind: u8) -> (r: Vec<usize>)
        requires
            kind <= 2,
        ensures
            kind == 0 ==> r@ == select(tree@, self.children@, |n: NodeType| is_errored(n)),
            kind == 1 ==> r@ == select(tree@, self.children@, |n: NodeType| is_branch_node(n)),
            kind == 2 ==> r@ == select(tree@, self.children@, |n: NodeType| is_incomplete(n)),
    {
        let ghost f: spec_fn(NodeType) -> bool = if kind == 0 {
            |n: NodeType| is_errored(n)
        } else if kind == 1 {
            |n: NodeType| is_branch_node(n)
        } else {
            |n: NodeType| is_incomplete(n)
        };
        let mut out: Vec<usize> = Vec::new();
        let mut k: usize = 0;
        while k < self.children.len()
            invariant
                k <= self.children@.len(),
                kind <= 2,
                f == (if kind == 0 {
                    |n: NodeType| is_errored(n)
                } else if kind == 1 {
                    |n: NodeType| is_branch_node(n)
                } else {
                    |n: NodeType| is_incomplete(n)
                }),
                out@ == select(tree@, self.children@.take(k as int), f),
            decreases self.children@.len() - k,
        {
            let c = self.children[k];
            proof {
                assert(self.children@.take(k as int + 1).drop_last() =~= self.children@.take(k as int));
            }
            if c < tree.len() {
                let node = tree.get(c);
                let keep = if kind == 0 {
                    match node.status() {
                        ProgressDisplayVariant::Error => true,
                        _ => false,
                    }
                } else if kind == 1 {
                    node.is_branch_node()
                } else {
                    !node.status().is_complete()
                };
                if keep {
                    out.push(c);
                }
            }
            k = k + 1;
        }
        proof {
            assert(self.children@.take(k as int) =~= self.children@);
        }
        out
    }

    /// Handles of the children that failed.
    pub fn error_iter(&self, tree: &Tracker) -> (r: Vec<usize>)
        ensures
            r@ == select(tree@, self.children@, |n: NodeType| is_errored(n)),
    {
        self.select_children(tree, 0)
    }

    /// Handles of the children that are branches.
    pub fn branch_iter(&self, tree: &Tracker) -> (r: Vec<usize>)
        ensures
            r@ == select(tree@, self.children@, |n: NodeType| is_branch_node(n)),
    {
        self.select_children(tree, 1)
    }

    /// Handles of the children that have not completed.
    pub fn incomplete_iter(&self, tree: &Tracker) -> (r: Vec<usize>)
        ensures
            r@ == select(tree@, self.children@, |n: NodeType| is_incomplete(n)),
    {
        self.select_children(tree, 2)
    }
}

} // verus!
