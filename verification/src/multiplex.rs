//! The readiness report: the outcome of one blocking multiplexer wait,
//! recorded as one readable/not-readable mark per watched connection.
//!
//! The blocking wait itself is the embedding program's: it watches the
//! descriptors the connection set hands it, blocks until at least one is
//! readable, and records the outcome here. A wait failure is fatal for the
//! whole process by policy, so no error state is modelled. The report is
//! ephemeral: it describes one wait, is indexed by the position of each
//! connection in the sweep snapshot, and is rebuilt for every iteration.

use vstd::prelude::*;

verus! {

/// Which members of a watched snapshot are currently readable, by position.
#[derive(Debug, Clone)]
pub struct ReadinessReport {
    flags: Vec<bool>,
}

impl View for ReadinessReport {
    type V = Seq<bool>;

    closed spec fn view(&self) -> Seq<bool> {
        self.flags@
    }
}

impl ReadinessReport {
    /// A report over `n` watched connections, none of them ready yet.
    pub fn new(n: usize) -> (r: ReadinessReport)
        ensures
            r@.len() == n,
            forall|i: int| 0 <= i < n ==> !r@[i],
    {
        let mut flags: Vec<bool> = Vec::new();
        let mut i: usize = 0;
        while i < n
            invariant
                i <= n,
                flags@.len() == i,
                forall|j: int| 0 <= j < i ==> !flags@[j],
            decreases n - i,
        {
            flags.push(false);
            i = i + 1;
        }
        ReadinessReport { flags }
    }

    /// How many connections the report covers.
    pub fn len(&self) -> (n: usize)
        ensures
            n == self@.len(),
    {
        self.flags.len()
    }

    /// Marks the connection at `i` as readable.
    pub fn mark_ready(&mut self, i: usize)
        requires
            i < old(self)@.len(),
        ensures
            final(self)@ == old(self)@.update(i as int, true),
    {
        self.flags.set(i, true);
    }

    /// Whether the connection at `i` was reported readable.
    pub fn is_ready(&self, i: usize) -> (r: bool)
        requires
            i < self@.len(),
        ensures
            r == self@[i as int],
    {
        self.flags[i]
    }
}

} // verus!
