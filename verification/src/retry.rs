//! Giving up after a number of failures.
use vstd::prelude::*;

verus! {

/// The failures of something that is tried again. It is given up with the
/// failure after `limit` others.
#[derive(Clone, Copy, Debug, PartialEq, Eq, Structural)]
pub struct Retry {
    pub attempt: u32,
    pub limit: u32,
}

impl Retry {
    /// No more failures than it takes to give up have been counted.
    pub open spec fn wf(self) -> bool {
        self.attempt <= self.limit < u32::MAX
    }

    /// Nothing has failed yet.
    pub fn new(limit: u32) -> (r: Retry)
        requires
            limit < u32::MAX,
        ensures
            r == (Retry { attempt: 0, limit }),
            r.wf(),
    {
        Retry { attempt: 0, limit }
    }

    /// Counts a failure, and says whether to try again.
    pub fn failed(&mut self) -> (again: bool)
        requires
            old(self).wf(),
        ensures
            again == (old(self).attempt < old(self).limit),
            again ==> *final(self) == (Retry {
                attempt: (old(self).attempt + 1) as u32,
                limit: old(self).limit,
            }),
            !again ==> *final(self) == *old(self),
            final(self).wf(),
    {
        if self.attempt < self.limit {
            self.attempt = self.attempt + 1;
            true
        } else {
            false
        }
    }
}

/// What `n` failures in a row make of it.
pub open spec fn after_failures(r: Retry, n: nat) -> Retry
    decreases n,
{
    if n == 0 {
        r
    } else {
        let before = after_failures(r, (n - 1) as nat);
        if before.attempt < before.limit {
            Retry { attempt: (before.attempt + 1) as u32, limit: before.limit }
        } else {
            before
        }
    }
}

/// Exactly `limit` failures are forgiven.
pub proof fn law_gives_up_after_the_limit(limit: u32, n: nat)
    requires
        limit < u32::MAX,
    ensures
        ({
            let r = after_failures(Retry { attempt: 0, limit }, n);
            r.attempt < r.limit <==> n < limit
        }),
        after_failures(Retry { attempt: 0, limit }, n).wf(),
{
    lemma_count(limit, n);
}

proof fn lemma_count(limit: u32, n: nat)
    requires
        limit < u32::MAX,
    ensures
        ({
            let r = after_failures(Retry { attempt: 0, limit }, n);
            r.limit == limit && r.attempt == (if n < limit {
                n as int
            } else {
                limit as int
            })
        }),
    decreases n,
{
    if n > 0 {
        lemma_count(limit, (n - 1) as nat);
    }
}

} // verus!
