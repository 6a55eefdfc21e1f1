//! Trying candidates in a fixed order, keeping the failure of each.
use vstd::prelude::*;

verus! {

/// The state of a run over `total` candidates, tried in order: candidate `i` is tried
/// only after candidates `0..i` have failed, each failure leaving one message.
pub struct Attempts {
    pub total: usize,
    pub failures: Vec<String>,
}

impl Attempts {
    pub open spec fn wf(&self) -> bool {
        self.failures@.len() <= self.total
    }

    /// A run over `total` candidates in which nothing has been tried yet.
    pub fn new(total: usize) -> (r: Self)
        ensures
            r.wf(),
            r.total == total,
            r.failures@.len() == 0,
    {
        Attempts { total, failures: Vec::new() }
    }

    /// The candidate to try next: the first one that has not failed, if any is left.
    pub fn next_index(&self) -> (r: Option<usize>)
        requires
            self.wf(),
        ensures
            r is Some <==> self.failures@.len() < self.total,
            r matches Some(i) ==> i == self.failures@.len(),
    {
        if self.failures.len() < self.total {
            Some(self.failures.len())
        } else {
            None
        }
    }

    /// Records that the candidate being tried failed with `message`.
    pub fn record_failure(&mut self, message: String)
        requires
            old(self).wf(),
            old(self).failures@.len() < old(self).total,
        ensures
            final(self).wf(),
            final(self).total == old(self).total,
            final(self).failures@ == old(self).failures@.push(message),
    {
        self.failures.push(message);
    }
}

} // verus!
