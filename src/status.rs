//! Progress states and the usage errors of the tree.

use vstd::prelude::*;

verus! {

/// The stage of progress of a node.
#[derive(Clone, Copy, Debug, PartialEq, Eq, Structural)]
pub enum ProgressDisplayVariant {
    Waiting,
    Running,
    Complete,
    Error,
    CompleteWithError,
}

impl ProgressDisplayVariant {
    /// A terminal status is one that a node never leaves.
    pub open spec fn spec_is_terminal(self) -> bool {
        self == ProgressDisplayVariant::Complete || self == ProgressDisplayVariant::Error
            || self == ProgressDisplayVariant::CompleteWithError
    }

    /// Whether the status carries an error, its own or one of a descendant.
    pub open spec fn spec_is_error_bearing(self) -> bool {
        self == ProgressDisplayVariant::Error || self == ProgressDisplayVariant::CompleteWithError
    }

    pub fn is_terminal(&self) -> (r: bool)
        ensures
            r == self.spec_is_terminal(),
    {
        match self {
            ProgressDisplayVariant::Complete => true,
            ProgressDisplayVariant::Error => true,
            ProgressDisplayVariant::CompleteWithError => true,
            _ => false,
        }
    }

    pub fn is_complete(&self) -> (r: bool)
        ensures
            r == (*self == ProgressDisplayVariant::Complete),
    {
        match self {
            ProgressDisplayVariant::Complete => true,
            _ => false,
        }
    }
}

impl Default for ProgressDisplayVariant {
    fn default() -> (r: Self)
        ensures
            r == ProgressDisplayVariant::Waiting,
    {
        ProgressDisplayVariant::Waiting
    }
}

/// The status a branch holds given how many of its `len` children completed
/// cleanly (`complete`) and how many ended with an error (`errors`).
pub open spec fn branch_rule(complete: nat, errors: nat, len: nat) -> ProgressDisplayVariant {
    if len > 0 && complete + errors == len {
        if errors > 0 {
            ProgressDisplayVariant::CompleteWithError
        } else {
            ProgressDisplayVariant::Complete
        }
    } else if complete + errors > 0 {
        ProgressDisplayVariant::Running
    } else {
        ProgressDisplayVariant::Waiting
    }
}

/// Computes `branch_rule` for a branch with at least one child.
pub fn branch_status(complete: usize, errors: usize, len: usize) -> (r: ProgressDisplayVariant)
    requires
        complete + errors <= len,
    ensures
        r == branch_rule(complete as nat, errors as nat, len as nat),
{
    if len > 0 && complete + errors == len {
        if errors > 0 {
            ProgressDisplayVariant::CompleteWithError
        } else {
            ProgressDisplayVariant::Complete
        }
    } else if complete + errors > 0 {
        ProgressDisplayVariant::Running
    } else {
        ProgressDisplayVariant::Waiting
    }
}

/// A misuse of the tree by its caller: the caller's bookkeeping is out of
/// step with the tree.
#[derive(Clone, Copy, Debug, PartialEq, Eq, Structural)]
pub enum UsageError {
    /// The handle names no node of the tree.
    UnknownHandle,
    /// A child was offered to a node that is not a branch.
    NotABranch,
    /// The branch already has a child of that name.
    DuplicateName,
    /// The node already reached a terminal status.
    AlreadyFinished,
    /// The branch already reached a terminal status and takes no more children.
    ParentFinished,
    /// A root was offered to a tree that has one, or a child to a tree without one.
    RootMismatch,
    /// A branch with children completes through its children only.
    BranchHasChildren,
    /// A node offered for insertion already belongs to a tree or holds
    /// children or counts of its own.
    NotDetached,
}

} // verus!
