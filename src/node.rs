//! Nodes of the progress tree: leaves (blueprints and planners) and branches
//! (blueprint books).

use vstd::prelude::*;
use crate::status::{ProgressDisplayVariant, UsageError, branch_rule, branch_status};

verus! {

/// A leaf of the tree: a blueprint or a planner.
pub struct TreeNode {
    /// Name of the node
    pub name: String,
    /// Progress of the node
    pub progress: ProgressDisplayVariant,
    /// Error message, if any
    pub error_message: Option<String>,
    /// Handle of the parent branch, if any
    pub parent: Option<usize>,
}

/// A branch of the tree: a blueprint book.
pub struct TreeBranch {
    pub name: String,
    /// Number of children that ended with an error, their own or a descendant's
    pub num_children_errors: usize,
    /// Number of children that completed cleanly
    pub num_children_complete: usize,
    /// Progress of the branch
    pub progress: ProgressDisplayVariant,
    /// Error message, if any
    pub error_message: Option<String>,
    /// Handles of the children, in insertion order
    pub children: Vec<usize>,
    /// Handle of the parent branch, if any
    pub parent: Option<usize>,
}

/// A node of the tree.
pub enum NodeType {
    /// A blueprint book
    Branch(TreeBranch),
    /// Anything other than a blueprint book
    Node(TreeNode),
}

pub open spec fn opt_view(o: Option<String>) -> Option<Seq<char>> {
    match o {
        Some(s) => Some(s@),
        None => None,
    }
}

impl TreeNode {
    /// Create a new leaf, waiting and without a parent.
    pub fn new(name: &str) -> (r: TreeNode)
        ensures
            r.name@ == name@,
            r.progress == ProgressDisplayVariant::Waiting,
            r.error_message is None,
            r.parent is None,
    {
        TreeNode {
            name: String::from_str(name),
            progress: ProgressDisplayVariant::Waiting,
            error_message: None,
            parent: None,
        }
    }
}

impl TreeBranch {
    /// Create a new branch, waiting, without children and without a parent.
    pub fn new(name: &str) -> (r: TreeBranch)
        ensures
            r.name@ == name@,
            r.progress == ProgressDisplayVariant::Waiting,
            r.error_message is None,
            r.parent is None,
            r.children@.len() == 0,
            r.num_children_complete == 0,
            r.num_children_errors == 0,
    {
        TreeBranch {
            name: String::from_str(name),
            num_children_errors: 0,
            num_children_complete: 0,
            progress: ProgressDisplayVariant::Waiting,
            error_message: None,
            children: Vec::new(),
            parent: None,
        }
    }

    /// Returns the number of children immediately under the branch.
    pub fn num_children(&self) -> (r: usize)
        ensures
            r == self.children@.len(),
    {
        self.children.len()
    }

    /// Re-evaluates the progress of a branch from its counts: a branch with
    /// children is complete once every child is, with an error if any child
    /// ended with one. A failed branch stays failed, and a branch without
    /// children keeps its status.
    pub fn update_internal_progress(&mut self)
        requires
            old(self).num_children_complete + old(self).num_children_errors
                <= old(self).children@.len(),
        ensures
            final(self).progress == (if old(self).progress == ProgressDisplayVariant::Error
                || old(self).children@.len() == 0 {
                old(self).progress
            } else {
                branch_rule(
                    old(self).num_children_complete as nat,
                    old(self).num_children_errors as nat,
                    old(self).children@.len(),
                )
            }),
            final(self).name == old(self).name,
            final(self).num_children_complete == old(self).num_children_complete,
            final(self).num_children_errors == old(self).num_children_errors,
            final(self).error_message == old(self).error_message,
            final(self).children == old(self).children,
            final(self).parent == old(self).parent,
    {
        let is_error = match self.progress {
            ProgressDisplayVariant::Error => true,
            _ => false,
        };
        if !is_error && self.children.len() > 0 {
            self.progress = branch_status(
                self.num_children_complete,
                self.num_children_errors,
                self.children.len(),
            );
        }
    }
}

impl NodeType {
    pub open spec fn is_branch(&self) -> bool {
        self is Branch
    }

    pub open spec fn spec_name(&self) -> Seq<char> {
        match self {
            NodeType::Branch(b) => b.name@,
            NodeType::Node(n) => n.name@,
        }
    }

    pub open spec fn spec_status(&self) -> ProgressDisplayVariant {
        match self {
            NodeType::Branch(b) => b.progress,
            NodeType::Node(n) => n.progress,
        }
    }

    pub open spec fn spec_message(&self) -> Option<Seq<char>> {
        match self {
            NodeType::Branch(b) => opt_view(b.error_message),
            NodeType::Node(n) => opt_view(n.error_message),
        }
    }

    pub open spec fn spec_parent(&self) -> Option<usize> {
        match self {
            NodeType::Branch(b) => b.parent,
            NodeType::Node(n) => n.parent,
        }
    }

    /// Handles of the children; a leaf has none.
    pub open spec fn spec_children(&self) -> Seq<usize> {
        match self {
            NodeType::Branch(b) => b.children@,
            NodeType::Node(_) => Seq::empty(),
        }
    }

    pub open spec fn spec_complete(&self) -> nat {
        match self {
            NodeType::Branch(b) => b.num_children_complete as nat,
            NodeType::Node(_) => 0,
        }
    }

    pub open spec fn spec_errors(&self) -> nat {
        match self {
            NodeType::Branch(b) => b.num_children_errors as nat,
            NodeType::Node(_) => 0,
        }
    }

    /// A node that belongs to no tree, as the constructors leave it: no
    /// parent, no children, no counts, waiting and without a message.
    pub open spec fn spec_detached(&self) -> bool {
        &&& self.spec_parent() is None
        &&& self.spec_children().len() == 0
        &&& self.spec_complete() == 0
        &&& self.spec_errors() == 0
        &&& self.spec_status() == ProgressDisplayVariant::Waiting
        &&& self.spec_message() is None
    }

    /// Create a new branch variant
    pub fn new_branch(branch_name: &str) -> (r: NodeType)
        ensures
            r.is_branch(),
            r.spec_name() == branch_name@,
            r.spec_status() == ProgressDisplayVariant::Waiting,
            r.spec_message() is None,
            r.spec_detached(),
    {
        NodeType::Branch(TreeBranch::new(branch_name))
    }

    /// Create a new node (leaf) variant
    pub fn new_node(node_name: &str) -> (r: NodeType)
        ensures
            !r.is_branch(),
            r.spec_name() == node_name@,
            r.spec_status() == ProgressDisplayVariant::Waiting,
            r.spec_message() is None,
            r.spec_detached(),
    {
        NodeType::Node(TreeNode::new(node_name))
    }

    /// Returns the name of the node
    pub fn name(&self) -> (r: String)
        ensures
            r@ == self.spec_name(),
    {
        match self {
            NodeType::Branch(b) => b.name.clone(),
            NodeType::Node(n) => n.name.clone(),
        }
    }

    pub fn name_ref(&self) -> (r: &String)
        ensures
            r@ == self.spec_name(),
    {
        match self {
            NodeType::Branch(b) => &b.name,
            NodeType::Node(n) => &n.name,
        }
    }

    /// Returns the status of the node
    pub fn status(&self) -> (r: ProgressDisplayVariant)
        ensures
            r == self.spec_status(),
    {
        match self {
            NodeType::Branch(b) => b.progress,
            NodeType::Node(n) => n.progress,
        }
    }

    pub fn is_branch_node(&self) -> (r: bool)
        ensures
            r == self.is_branch(),
    {
        match self {
            NodeType::Branch(_) => true,
            NodeType::Node(_) => false,
        }
    }

    pub fn parent(&self) -> (r: Option<usize>)
        ensures
            r == self.spec_parent(),
    {
        match self {
            NodeType::Branch(b) => b.parent,
            NodeType::Node(n) => n.parent,
        }
    }

    /// Returns the error message of the node, if any
    pub fn error_message(&self) -> (r: Option<&String>)
        ensures
            match r {
                Some(s) => self.spec_message() == Some(s@),
                None => self.spec_message() is None,
            },
    {
        match self {
            NodeType::Branch(b) => match &b.error_message {
                Some(m) => Some(m),
                None => None,
            },
            NodeType::Node(n) => match &n.error_message {
                Some(m) => Some(m),
                None => None,
            },
        }
    }

    /// Whether the node belongs to no tree, has not finished, and may be
    /// inserted into one.
    pub fn is_detached(&self) -> (r: bool)
        ensures
            r == self.spec_detached(),
    {
        let status_ok = match self.status() {
            ProgressDisplayVariant::Waiting => true,
            _ => false,
        };
        let message_ok = self.error_message().is_none();
        match self {
            NodeType::Branch(b) => b.parent.is_none() && b.children.len() == 0
                && b.num_children_complete == 0 && b.num_children_errors == 0 && status_ok
                && message_ok,
            NodeType::Node(n) => n.parent.is_none() && status_ok && message_ok,
        }
    }

    /// Overwrites the status of the node.
    pub fn update(&mut self, status: ProgressDisplayVariant)
        ensures
            final(self).spec_status() == status,
            final(self).is_branch() == old(self).is_branch(),
            final(self).spec_name() == old(self).spec_name(),
            final(self).spec_message() == old(self).spec_message(),
            final(self).spec_parent() == old(self).spec_parent(),
            final(self).spec_children() == old(self).spec_children(),
            final(self).spec_complete() == old(self).spec_complete(),
            final(self).spec_errors() == old(self).spec_errors(),
    {
        match self {
            NodeType::Branch(b) => {
                b.progress = status;
            },
            NodeType::Node(n) => {
                n.progress = status;
            },
        }
    }

    /// Marks a node that belongs to no tree as complete. A branch that holds
    /// children completes through them only.
    pub fn complete(&mut self) -> (r: Result<(), UsageError>)
        ensures
            r == (if old(self).spec_status().spec_is_terminal() {
                Err::<(), UsageError>(UsageError::AlreadyFinished)
            } else if old(self).spec_children().len() > 0 {
                Err(UsageError::BranchHasChildren)
            } else {
                Ok(())
            }),
            r is Ok ==> final(self).spec_status() == ProgressDisplayVariant::Complete,
            r is Err ==> final(self).spec_status() == old(self).spec_status(),
            final(self).is_branch() == old(self).is_branch(),
            final(self).spec_name() == old(self).spec_name(),
            final(self).spec_message() == old(self).spec_message(),
            final(self).spec_parent() == old(self).spec_parent(),
            final(self).spec_children() == old(self).spec_children(),
            final(self).spec_complete() == old(self).spec_complete(),
            final(self).spec_errors() == old(self).spec_errors(),
    {
        if self.status().is_terminal() {
            return Err(UsageError::AlreadyFinished);
        }
        let has_children = match self {
            NodeType::Branch(b) => b.children.len() > 0,
            NodeType::Node(_) => false,
        };
        if has_children {
            return Err(UsageError::BranchHasChildren);
        }
        self.update(ProgressDisplayVariant::Complete);
        Ok(())
    }

    /// Marks a node that belongs to no tree as failed, with an optional message.
    pub fn error(&mut self, err_message: Option<String>) -> (r: Result<(), UsageError>)
        ensures
            r == (if old(self).spec_status().spec_is_terminal() {
                Err::<(), UsageError>(UsageError::AlreadyFinished)
            } else {
                Ok(())
            }),
            r is Ok ==> final(self).spec_status() == ProgressDisplayVariant::Error
                && final(self).spec_message() == opt_view(err_message),
            r is Err ==> final(self).spec_status() == old(self).spec_status()
                && final(self).spec_message() == old(self).spec_message(),
            final(self).is_branch() == old(self).is_branch(),
            final(self).spec_name() == old(self).spec_name(),
            final(self).spec_parent() == old(self).spec_parent(),
            final(self).spec_children() == old(self).spec_children(),
            final(self).spec_complete() == old(self).spec_complete(),
            final(self).spec_errors() == old(self).spec_errors(),
    {
        if self.status().is_terminal() {
            return Err(UsageError::AlreadyFinished);
        }
        self.set_failed(err_message);
        Ok(())
    }

    /// Sets the status to `Error` and records the message.
    pub(crate) fn set_failed(&mut self, err_message: Option<String>)
        ensures
            final(self).spec_status() == ProgressDisplayVariant::Error,
            final(self).spec_message() == opt_view(err_message),
            final(self).is_branch() == old(self).is_branch(),
            final(self).spec_name() == old(self).spec_name(),
            final(self).spec_parent() == old(self).spec_parent(),
            final(self).spec_children() == old(self).spec_children(),
            final(self).spec_complete() == old(self).spec_complete(),
            final(self).spec_errors() == old(self).spec_errors(),
    {
        match self {
            NodeType::Branch(b) => {
                b.progress = ProgressDisplayVariant::Error;
                b.error_message = err_message;
            },
            NodeType::Node(n) => {
                n.progress = ProgressDisplayVariant::Error;
                n.error_message = err_message;
            },
        }
    }
}

impl NodeType {
    /// Sets the parent link of the node.
    pub(crate) fn set_parent(&mut self, parent: usize)
        ensures
            final(self).spec_parent() == Some(parent),
            final(self).spec_status() == old(self).spec_status(),
            final(self).is_branch() == old(self).is_branch(),
            final(self).spec_name() == old(self).spec_name(),
            final(self).spec_message() == old(self).spec_message(),
            final(self).spec_children() == old(self).spec_children(),
            final(self).spec_complete() == old(self).spec_complete(),
            final(self).spec_errors() == old(self).spec_errors(),
    {
        match self {
            NodeType::Branch(b) => {
                b.parent = Some(parent);
            },
            NodeType::Node(n) => {
                n.parent = Some(parent);
            },
        }
    }

    /// Appends a child handle to a branch.
    pub(crate) fn push_child(&mut self, child: usize)
        requires
            old(self).is_branch(),
        ensures
            final(self).spec_children() == old(self).spec_children().push(child),
            final(self).spec_parent() == old(self).spec_parent(),
            final(self).spec_status() == old(self).spec_status(),
            final(self).is_branch() == old(self).is_branch(),
            final(self).spec_name() == old(self).spec_name(),
            final(self).spec_message() == old(self).spec_message(),
            final(self).spec_complete() == old(self).spec_complete(),
            final(self).spec_errors() == old(self).spec_errors(),
    {
        match self {
            NodeType::Branch(b) => {
                b.children.push(child);
            },
            NodeType::Node(_) => {},
        }
    }

    /// Counts a child that reached the terminal status `child_status` and
    /// re-evaluates the progress of the branch.
    pub(crate) fn record_child(&mut self, child_status: ProgressDisplayVariant)
        requires
            old(self).is_branch(),
            child_status.spec_is_terminal(),
            old(self).spec_complete() + old(self).spec_errors() < old(self).spec_children().len(),
        ensures
            final(self).spec_complete() == old(self).spec_complete() + (if child_status
                == ProgressDisplayVariant::Complete {
                1nat
            } else {
                0nat
            }),
            final(self).spec_errors() == old(self).spec_errors() + (if child_status
                == ProgressDisplayVariant::Complete {
                0nat
            } else {
                1nat
            }),
            final(self).spec_status() == (if old(self).spec_status()
                == ProgressDisplayVariant::Error {
                ProgressDisplayVariant::Error
            } else {
                branch_rule(
                    final(self).spec_complete(),
                    final(self).spec_errors(),
                    old(self).spec_children().len(),
                )
            }),
            final(self).spec_children() == old(self).spec_children(),
            final(self).spec_parent() == old(self).spec_parent(),
            final(self).is_branch() == old(self).is_branch(),
            final(self).spec_name() == old(self).spec_name(),
            final(self).spec_message() == old(self).spec_message(),
    {
        match self {
            NodeType::Branch(b) => {
                let len: usize = b.children.len();
                assert(b.num_children_complete + b.num_children_errors < len);
                match child_status {
                    ProgressDisplayVariant::Complete => {
                        b.num_children_complete = b.num_children_complete + 1;
                    },
                    _ => {
                        b.num_children_errors = b.num_children_errors + 1;
                    },
                }
                b.update_internal_progress();
            },
            NodeType::Node(_) => {},
        }
    }
}

} // verus!
