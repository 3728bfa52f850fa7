//! Core data types shared by the generator, driver, prober and aggregator.

use vstd::prelude::*;

verus! {

/// One planned I/O operation: a destination logical block address and the
/// byte range of the shared transfer buffer that supplies or receives the
/// payload.
#[derive(Copy, Clone, Debug, PartialEq, Eq, Structural)]
pub struct Allocation {
    /// Destination logical block address on the device.
    pub lba: u64,
    /// First byte (inclusive) of the buffer range.
    pub start: usize,
    /// Last byte (exclusive) of the buffer range.
    pub stop: usize,
}

impl Allocation {
    /// Number of bytes the operation transfers; zero-length allocations are
    /// skipped by the driver without consuming a queue slot.
    pub open spec fn byte_len(self) -> int {
        if self.stop > self.start {
            self.stop - self.start
        } else {
            0
        }
    }
}

/// One sampled measurement window of one worker.  Timestamps are in
/// microseconds from an arbitrary per-run epoch; the aggregator only ever
/// uses differences of them.
#[derive(Copy, Clone, Debug, PartialEq, Eq, Structural)]
pub struct IoLog {
    /// Window start, microseconds from the run epoch.
    pub start: u64,
    /// Window end, microseconds from the run epoch.
    pub end: u64,
    /// Completed operations inside the window.
    pub actions: u64,
    /// Bytes transferred inside the window.
    pub cumulative_size: u64,
}

impl IoLog {
    /// Duration of the window; a zero-duration window is a degenerate
    /// sample that cannot be apportioned over buckets.
    pub open spec fn duration(self) -> int {
        if self.end >= self.start {
            self.end - self.start
        } else {
            0
        }
    }

    /// A log that the aggregator apportions: a strictly positive duration.
    pub open spec fn is_live(self) -> bool {
        self.end > self.start
    }
}

/// What went wrong while planning or driving a workload.
#[derive(Copy, Clone, Debug, PartialEq, Eq, Structural)]
pub enum BenchErrorKind {
    /// A submission was rejected because the hardware ring had no free slot.
    QueueFull,
    /// The requested transfer does not fit the device geometry.
    WorkloadDoesNotFit,
    /// The driver configuration cannot bound the in-flight count by the
    /// queue depth.
    InvalidConfig,
}

/// Failure of a driver run that still owns the exclusive resource it was
/// given, so the caller can release the resource on every exit path.
pub struct DriveFailure<R> {
    /// The exclusively owned resource (for instance a hardware queue pair),
    /// handed back so it can be torn down exactly once.
    pub resource: R,
    /// Why the run failed.
    pub kind: BenchErrorKind,
}

} // verus!
