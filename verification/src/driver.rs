//! Batched I/O driver: plans submission and completion of a sequence of
//! allocations on one exclusively owned queue pair, keeping the number of
//! in-flight operations bounded below the queue's depth.
//!
//! The hardware calls themselves (submit one operation, complete a batch)
//! live outside this crate; the driver is the decision core that an outer
//! loop consults: it says what to do next, and is told what happened.

use vstd::prelude::*;
use crate::types::{Allocation, BenchErrorKind};

verus! {

/// The next thing the outer loop should do with its queue pair.
#[derive(Copy, Clone, Debug, PartialEq, Eq, Structural)]
pub enum DriverStep {
    /// Submit the allocation at this index of the driver's sequence.
    Submit { index: usize },
    /// Pass over the zero-length allocation at this index without
    /// consuming a queue slot.
    Skip { index: usize },
    /// Block until this many in-flight operations have completed.
    Complete { count: u64 },
    /// Every allocation was submitted and every completion drained.
    Done,
    /// A submission was rejected and the backlog has been drained; the run
    /// failed with [`BenchErrorKind::QueueFull`].
    Aborted,
}

/// Whether a driver may be built from this configuration: a positive batch
/// threshold, every non-empty allocation a whole number of blocks, and a
/// queue deep enough to hold the threshold plus one full submission.
pub open spec fn config_accepted(
    allocs: Seq<Allocation>,
    block_size: u64,
    batch_threshold: u64,
    queue_depth: u64,
) -> bool {
    &&& batch_threshold >= 1
    &&& queue_depth >= batch_threshold + 1
    &&& forall|i: int|
        0 <= i < allocs.len() && #[trigger] allocs[i].byte_len() > 0 ==> {
            &&& allocs[i].byte_len() % (block_size as int) == 0
            &&& allocs[i].byte_len() / (block_size as int)
                <= queue_depth - batch_threshold
        }
}

/// Decision core of one driver run over a fixed allocation sequence.
///
/// A submission is only offered while the in-flight count is at or below
/// the batch threshold, and one submission adds at most the largest
/// allocation's block count, so the in-flight count never exceeds
/// `batch_threshold + max_per_submit`, which the configuration check keeps
/// at or below the queue depth.  A rejected submission turns the run into a
/// drain of the backlog followed by [`DriverStep::Aborted`], so the caller
/// always gets its queue pair back in a quiescent state.
pub struct BatchDriver {
    allocs: Vec<Allocation>,
    block_size: u64,
    batch_threshold: u64,
    queue_depth: u64,
    max_per_submit: u64,
    in_flight: u64,
    next_index: usize,
    failed: bool,
}

impl BatchDriver {
    /// The allocations the driver walks, in order.
    pub closed spec fn allocs(self) -> Seq<Allocation> {
        self.allocs@
    }

    pub closed spec fn block_size(self) -> u64 {
        self.block_size
    }

    pub closed spec fn batch_threshold(self) -> u64 {
        self.batch_threshold
    }

    pub closed spec fn queue_depth(self) -> u64 {
        self.queue_depth
    }

    /// The largest number of operations one submission can add.
    pub closed spec fn max_per_submit(self) -> u64 {
        self.max_per_submit
    }

    /// Submitted-but-not-completed operations, the driver's own account of
    /// the queue pair's state.
    pub closed spec fn in_flight(self) -> u64 {
        self.in_flight
    }

    /// Index of the next allocation to submit or skip.
    pub closed spec fn next_index(self) -> int {
        self.next_index as int
    }

    /// Whether a submission was rejected.
    pub closed spec fn failed(self) -> bool {
        self.failed
    }

    /// Operations the allocation at `i` submits.
    pub open spec fn units_of(self, i: int) -> int {
        self.allocs()[i].byte_len() / (self.block_size() as int)
    }

    /// The driver's invariant.  Its heart is the round-trip bound: the
    /// in-flight count stays at or below `batch_threshold + max_per_submit`,
    /// and the queue is at least that deep, so the count never exceeds the
    /// queue pair's configured depth, however many allocations the run has
    /// and whatever batch threshold was chosen.
    pub open spec fn wf(self) -> bool {
        &&& self.block_size() >= 1
        &&& self.batch_threshold() >= 1
        &&& self.max_per_submit() >= 1
        &&& self.queue_depth() >= self.batch_threshold() + self.max_per_submit()
        &&& self.in_flight() <= self.batch_threshold() + self.max_per_submit()
        &&& 0 <= self.next_index() <= self.allocs().len()
        &&& forall|i: int|
            0 <= i < self.allocs().len() && #[trigger] self.allocs()[i].byte_len() > 0 ==> {
                &&& self.allocs()[i].byte_len() % (self.block_size() as int) == 0
                &&& self.units_of(i) <= self.max_per_submit()
            }
    }

    /// What the outer loop should do next, as a function of the state.
    pub open spec fn spec_next_step(self) -> DriverStep {
        if self.failed() {
            if self.in_flight() > 0 {
                DriverStep::Complete { count: self.in_flight() }
            } else {
                DriverStep::Aborted
            }
        } else if self.in_flight() > self.batch_threshold() {
            DriverStep::Complete { count: self.in_flight() / 2 }
        } else if self.next_index() < self.allocs().len() {
            if self.allocs()[self.next_index()].byte_len() == 0 {
                DriverStep::Skip { index: self.next_index() as usize }
            } else {
                DriverStep::Submit { index: self.next_index() as usize }
            }
        } else if self.in_flight() > 0 {
            DriverStep::Complete { count: self.in_flight() }
        } else {
            DriverStep::Done
        }
    }

    /// Builds a driver over the allocation sequence; rejected (with nothing
    /// submitted) exactly when the configuration cannot bound the in-flight
    /// count by the queue depth.
    pub fn new(
        allocs: Vec<Allocation>,
        block_size: u64,
        batch_threshold: u64,
        queue_depth: u64,
    ) -> (r: Result<BatchDriver, BenchErrorKind>)
        requires
            block_size >= 1,
        ensures
            r is Ok <==> config_accepted(allocs@, block_size, batch_threshold, queue_depth),
            r matches Err(e) ==> e == BenchErrorKind::InvalidConfig,
            r matches Ok(d) ==> {
                &&& d.wf()
                &&& d.allocs() == allocs@
                &&& d.block_size() == block_size
                &&& d.batch_threshold() == batch_threshold
                &&& d.queue_depth() == queue_depth
                &&& d.in_flight() == 0
                &&& d.next_index() == 0
                &&& !d.failed()
            },
    {
        if batch_threshold < 1 || queue_depth < batch_threshold
            || queue_depth - batch_threshold < 1 {
            return Err(BenchErrorKind::InvalidConfig);
        }
        let window = queue_depth - batch_threshold;
        let mut i: usize = 0;
        let mut max_units: u64 = 1;
        while i < allocs.len()
            invariant
                i <= allocs@.len(),
                block_size >= 1,
                batch_threshold >= 1,
                queue_depth >= batch_threshold + 1,
                window == queue_depth - batch_threshold,
                window >= 1,
                1 <= max_units <= window,
                forall|k: int|
                    0 <= k < i && #[trigger] allocs@[k].byte_len() > 0 ==> {
                        &&& allocs@[k].byte_len() % (block_size as int) == 0
                        &&& allocs@[k].byte_len() / (block_size as int) <= max_units
                    },
            decreases allocs@.len() - i,
        {
            let a = allocs[i];
            if a.stop > a.start {
                let len = (a.stop - a.start) as u64;
                let units = len / block_size;
                if len % block_size != 0 || units > window {
                    proof {
                        let b = allocs@[i as int].byte_len();
                        assert(b == len);
                        assert(b > 0);
                        if len % block_size == 0 {
                            assert(b / (block_size as int) == units);
                            assert(b / (block_size as int) > queue_depth - batch_threshold);
                        } else {
                            assert(b % (block_size as int) != 0);
                        }
                        assert(!config_accepted(allocs@, block_size, batch_threshold,
                            queue_depth));
                    }
                    return Err(BenchErrorKind::InvalidConfig);
                }
                if units > max_units {
                    max_units = units;
                }
            }
            i = i + 1;
        }
        Ok(BatchDriver {
            allocs,
            block_size,
            batch_threshold,
            queue_depth,
            max_per_submit: max_units,
            in_flight: 0,
            next_index: 0,
            failed: false,
        })
    }

    /// What to do next; pure, so the outer loop can consult it repeatedly.
    pub fn next_step(&self) -> (step: DriverStep)
        requires
            self.wf(),
        ensures
            step == self.spec_next_step(),
    {
        if self.failed {
            if self.in_flight > 0 {
                DriverStep::Complete { count: self.in_flight }
            } else {
                DriverStep::Aborted
            }
        } else if self.in_flight > self.batch_threshold {
            DriverStep::Complete { count: self.in_flight / 2 }
        } else if self.next_index < self.allocs.len() {
            let a = self.allocs[self.next_index];
            if a.stop <= a.start {
                DriverStep::Skip { index: self.next_index }
            } else {
                DriverStep::Submit { index: self.next_index }
            }
        } else if self.in_flight > 0 {
            DriverStep::Complete { count: self.in_flight }
        } else {
            DriverStep::Done
        }
    }

    /// The allocation behind a [`DriverStep::Submit`] step: the outer loop
    /// reads the byte range and address to submit from here.
    pub fn alloc_at(&self, index: usize) -> (a: Allocation)
        requires
            self.wf(),
            0 <= index < self.allocs().len(),
        ensures
            a == self.allocs()[index as int],
    {
        self.allocs[index]
    }

    /// Passes over the zero-length allocation the driver asked to skip.
    pub fn on_skipped(&mut self)
        requires
            old(self).wf(),
            old(self).spec_next_step() == (DriverStep::Skip {
                index: old(self).next_index() as usize,
            }),
        ensures
            final(self).wf(),
            final(self).in_flight() == old(self).in_flight(),
            final(self).next_index() == old(self).next_index() + 1,
            final(self).allocs() == old(self).allocs(),
            final(self).block_size() == old(self).block_size(),
            final(self).batch_threshold() == old(self).batch_threshold(),
            final(self).queue_depth() == old(self).queue_depth(),
            final(self).max_per_submit() == old(self).max_per_submit(),
            final(self).failed() == old(self).failed(),
    {
        let n = self.allocs.len();
        proof {
            assert(old(self).next_index() < old(self).allocs().len());
            assert(self.next_index < n);
        }
        self.next_index = self.next_index + 1;
    }

    /// Records the outcome of the submission the driver asked for:
    /// `accepted` operations were queued, or the submission was rejected
    /// (`accepted == 0`, the ring was full) and the run turns into a drain.
    /// Either way the in-flight count stays at or below the queue depth.
    pub fn on_submitted(&mut self, accepted: u64)
        requires
            old(self).wf(),
            old(self).spec_next_step() == (DriverStep::Submit {
                index: old(self).next_index() as usize,
            }),
            accepted == 0 || accepted as int == old(self).units_of(old(self).next_index()),
        ensures
            final(self).wf(),
            final(self).in_flight() <= final(self).queue_depth(),
            final(self).allocs() == old(self).allocs(),
            final(self).block_size() == old(self).block_size(),
            final(self).batch_threshold() == old(self).batch_threshold(),
            final(self).queue_depth() == old(self).queue_depth(),
            final(self).max_per_submit() == old(self).max_per_submit(),
            accepted == 0 ==> final(self).failed() && final(self).in_flight()
                == old(self).in_flight() && final(self).next_index() == old(self).next_index(),
            accepted > 0 ==> !final(self).failed() && final(self).in_flight()
                == old(self).in_flight() + accepted && final(self).next_index()
                == old(self).next_index() + 1,
    {
        if accepted == 0 {
            self.failed = true;
        } else {
            let n = self.allocs.len();
            proof {
                assert(!old(self).failed());
                assert(old(self).in_flight() <= old(self).batch_threshold());
                assert(old(self).next_index() < old(self).allocs().len());
                assert(self.next_index < n);
                assert(old(self).allocs()[old(self).next_index()].byte_len() > 0);
                assert(accepted <= old(self).max_per_submit());
            }
            self.in_flight = self.in_flight + accepted;
            self.next_index = self.next_index + 1;
        }
    }

    /// Records that `count` operations completed, as asked for by a
    /// [`DriverStep::Complete`] step.
    pub fn on_completed(&mut self, count: u64)
        requires
            old(self).wf(),
            old(self).spec_next_step() == (DriverStep::Complete { count }),
        ensures
            final(self).wf(),
            final(self).in_flight() == old(self).in_flight() - count,
            final(self).in_flight() <= final(self).queue_depth(),
            final(self).allocs() == old(self).allocs(),
            final(self).block_size() == old(self).block_size(),
            final(self).batch_threshold() == old(self).batch_threshold(),
            final(self).queue_depth() == old(self).queue_depth(),
            final(self).max_per_submit() == old(self).max_per_submit(),
            final(self).next_index() == old(self).next_index(),
            final(self).failed() == old(self).failed(),
    {
        proof {
            assert(count <= old(self).in_flight());
        }
        self.in_flight = self.in_flight - count;
    }

    /// The round-trip bound: however many allocations the run was given and
    /// whatever batch threshold was configured, a well-formed driver's
    /// in-flight count never exceeds the queue pair's configured depth.
    pub proof fn lemma_in_flight_bounded(self)
        requires
            self.wf(),
        ensures
            self.in_flight() <= self.queue_depth(),
    {
    }
}

} // verus!
