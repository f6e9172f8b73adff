//! A completed-of-total counter shown beside a branch.

use vstd::prelude::*;

verus! {

/// Count of completed items out of a total.
#[derive(Clone, Copy, Debug, PartialEq, Eq, Structural)]
pub struct ProgressIndicator {
    pub complete: u16,
    pub total: u16,
}

impl ProgressIndicator {
    /// An indicator with nothing completed out of `total`.
    pub fn new(total: u16) -> (r: ProgressIndicator)
        ensures
            r.complete == 0,
            r.total == total,
    {
        ProgressIndicator { complete: 0, total }
    }

    /// Adds 1 to the completed count while it is below the total.
    pub fn add(&mut self)
        ensures
            final(self).total == old(self).total,
            final(self).complete == (if old(self).complete < old(self).total {
                (old(self).complete + 1) as u16
            } else {
                old(self).complete
            }),
    {
        if self.complete < self.total {
            self.complete = self.complete + 1;
        }
    }

    /// Sets the completed count.
    pub fn update(&mut self, count: u16)
        ensures
            final(self).complete == count,
            final(self).total == old(self).total,
    {
        self.complete = count;
    }
}

} // verus!
