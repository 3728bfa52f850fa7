//! Accounting for the fixed pool of exclusively-ownable queue pairs: each
//! worker takes at most one at spawn time, and every pair taken must come
//! home exactly once for teardown — losing one leaks device-side resources
//! for the life of the process.  The ledger is the verified book-keeping
//! of that handoff; the handles themselves live with the unverified pool.

use vstd::prelude::*;

verus! {

/// The book of a pool of `total` pairs: how many still sit in the pool and
/// how many are out with workers.  Every pair is always in exactly one of
/// the two places.
pub struct PairLedger {
    total: usize,
    available: usize,
    outstanding: usize,
}

impl PairLedger {
    pub closed spec fn total(self) -> int {
        self.total as int
    }

    pub closed spec fn available(self) -> int {
        self.available as int
    }

    pub closed spec fn outstanding(self) -> int {
        self.outstanding as int
    }

    /// The conservation invariant: no pair appears or disappears.
    pub open spec fn wf(self) -> bool {
        self.available() + self.outstanding() == self.total()
    }

    /// A full pool of `total` pairs, none handed out.
    pub fn new(total: usize) -> (r: PairLedger)
        ensures
            r.wf(),
            r.total() == total,
            r.available() == total,
            r.outstanding() == 0,
    {
        PairLedger { total, available: total, outstanding: 0 }
    }

    /// Books one pair out to a worker; answers whether one was available.
    pub fn take(&mut self) -> (r: bool)
        requires
            old(self).wf(),
        ensures
            final(self).wf(),
            final(self).total() == old(self).total(),
            r <==> old(self).available() > 0,
            r ==> final(self).available() == old(self).available() - 1
                && final(self).outstanding() == old(self).outstanding() + 1,
            !r ==> *final(self) == *old(self),
    {
        if self.available > 0 {
            self.available = self.available - 1;
            self.outstanding = self.outstanding + 1;
            true
        } else {
            false
        }
    }

    /// Books one pair back in for teardown.
    pub fn give_back(&mut self)
        requires
            old(self).wf(),
            old(self).outstanding() > 0,
        ensures
            final(self).wf(),
            final(self).total() == old(self).total(),
            final(self).outstanding() == old(self).outstanding() - 1,
            final(self).available() == old(self).available() + 1,
    {
        self.outstanding = self.outstanding - 1;
        self.available = self.available + 1;
    }

    /// Whether every pair is home again: true exactly when nothing is
    /// still out, so teardown may proceed without leaking a pair.
    pub fn all_home(&self) -> (r: bool)
        requires
            self.wf(),
        ensures
            r <==> self.outstanding() == 0,
            r <==> self.available() == self.total(),
    {
        self.outstanding == 0
    }
}

} // verus!
