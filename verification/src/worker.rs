//! Per-worker sampling loop of the cache-size benchmark: the decision core
//! that plans fixed-size transfers at increasing offsets, accounts for
//! completions against a batch bound, and closes a timing window into an
//! [`IoLog`] every `step_size` completed operations.  The outer loop does
//! the hardware calls and supplies timestamps; everything it decides comes
//! from here.

use vstd::prelude::*;
use crate::types::{BenchErrorKind, IoLog};

verus! {

/// The transfer size one request uses: the requested size, capped one
/// block below the page size, rounded down to a whole number of blocks.
pub fn effective_io_size(single_io_size: u64, block_size: u64, page_size: u64) -> (r: u64)
    requires
        1 <= block_size,
        block_size < page_size,
    ensures
        r == ({
            let capped = if single_io_size < page_size - block_size {
                single_io_size as int
            } else {
                page_size - block_size
            };
            capped - capped % (block_size as int)
        }),
        r % block_size == 0,
        r <= single_io_size,
{
    let capped = if single_io_size < page_size - block_size {
        single_io_size
    } else {
        page_size - block_size
    };
    proof {
        vstd::arithmetic::div_mod::lemma_fundamental_div_mod(capped as int, block_size as int);
        vstd::arithmetic::div_mod::lemma_mod_multiples_basic(
            capped as int / block_size as int,
            block_size as int,
        );
        let q = capped as int / block_size as int;
        let m = block_size as int;
        assert(m * q == q * m) by (nonlinear_arith);
        assert(capped - capped % block_size == q * m);
    }
    capped - capped % block_size
}

/// How many completed operations close one sampling window: one unit per
/// `unit` bytes of transfer size (at least one), times `factor`.
pub fn sample_step_size(io_size: u64, unit: u64, factor: u64) -> (r: u64)
    requires
        unit >= 1,
        factor >= 1,
        (if io_size as int / unit as int >= 1 {
            io_size as int / unit as int
        } else {
            1
        }) * factor <= u64::MAX,
    ensures
        r == (if io_size as int / unit as int >= 1 {
            io_size as int / unit as int
        } else {
            1
        }) * factor,
        r >= 1,
{
    let base = io_size / unit;
    let base = if base >= 1 {
        base
    } else {
        1
    };
    proof {
        assert(base * factor >= 1) by (nonlinear_arith)
            requires
                base >= 1,
                factor >= 1,
        ;
    }
    base * factor
}

/// The byte budget of one run, clamped to half the device: a zero request
/// means the default budget, and a budget at or above the device size is
/// halved so the transfers fit.
pub fn clamped_max_write(requested: u64, default_budget: u64, max_blocks: u64, block_size: u64)
    -> (r: u64)
    requires
        block_size >= 1,
        max_blocks >= 1,
        max_blocks * block_size <= u64::MAX,
    ensures
        r == ({
            let wanted = if requested == 0 {
                default_budget as int
            } else {
                requested as int
            };
            if wanted >= max_blocks * block_size {
                max_blocks * block_size / 2
            } else {
                wanted
            }
        }),
        r < max_blocks * block_size || max_blocks * block_size == 0,
{
    proof {
        assert(max_blocks * block_size >= 1) by (nonlinear_arith)
            requires
                block_size >= 1,
                max_blocks >= 1,
        ;
    }
    let device_bytes = max_blocks * block_size;
    let wanted = if requested == 0 {
        default_budget
    } else {
        requested
    };
    if wanted >= device_bytes {
        device_bytes / 2
    } else {
        wanted
    }
}

/// The first logical block of worker `worker_index`'s slice: workers write
/// disjoint ranges, each starting `per_worker_bytes` further into the
/// device.
pub fn worker_start_block(per_worker_bytes: u64, block_size: u64, worker_index: u64) -> (r: u64)
    requires
        block_size >= 1,
        (per_worker_bytes as int / block_size as int) * worker_index <= u64::MAX,
    ensures
        r == (per_worker_bytes as int / block_size as int) * worker_index,
{
    (per_worker_bytes / block_size) * worker_index
}

/// Decision core of one cache-size worker: transfers of `io_size` bytes at
/// block `start_block + i * blocks_per_io` for `i` up to
/// `max_write / io_size`, with in-flight accounting against `batch_size`
/// and one [`IoLog`] emitted per `step_size` completed operations.
pub struct CacheWorker {
    io_size: u64,
    block_size: u64,
    batch_size: u64,
    step_size: u64,
    total_ops: u64,
    start_block: u64,
    it_check: u64,
    in_flight: u64,
    window_actions: u64,
    window_start: u64,
    logs: Vec<IoLog>,
}

impl CacheWorker {
    pub closed spec fn io_size(self) -> u64 {
        self.io_size
    }

    pub closed spec fn block_size(self) -> u64 {
        self.block_size
    }

    pub closed spec fn batch_size(self) -> u64 {
        self.batch_size
    }

    pub closed spec fn step_size(self) -> u64 {
        self.step_size
    }

    /// How many transfers the run makes (`max_write / io_size`).
    pub closed spec fn total_ops(self) -> u64 {
        self.total_ops
    }

    pub closed spec fn start_block(self) -> u64 {
        self.start_block
    }

    /// Transfers submitted so far.
    pub closed spec fn it_check(self) -> u64 {
        self.it_check
    }

    /// Submitted-but-not-completed operations.
    pub closed spec fn in_flight(self) -> u64 {
        self.in_flight
    }

    /// Completions since the last sample was taken.
    pub closed spec fn window_actions(self) -> u64 {
        self.window_actions
    }

    /// When the current sampling window opened, microseconds.
    pub closed spec fn window_start(self) -> u64 {
        self.window_start
    }

    /// The samples taken so far.
    pub closed spec fn logs(self) -> Seq<IoLog> {
        self.logs@
    }

    /// Operations one transfer submits.
    pub open spec fn blocks_per_io(self) -> int {
        self.io_size() as int / self.block_size() as int
    }

    pub open spec fn wf(self) -> bool {
        &&& self.block_size() >= 1
        &&& self.io_size() >= 1
        &&& self.io_size() % self.block_size() == 0
        &&& self.batch_size() >= 1
        &&& self.step_size() >= 1
        &&& self.it_check() <= self.total_ops()
        &&& self.batch_size() - 1 + self.blocks_per_io() <= u64::MAX
        &&& self.in_flight() <= self.batch_size() - 1 + self.blocks_per_io()
        &&& self.start_block() + self.total_ops() * self.blocks_per_io() <= u64::MAX
        &&& self.window_actions() * self.io_size() <= u64::MAX
    }

    /// Builds a worker; rejected exactly when the slice would not fit the
    /// addressable blocks (the workload does not fit the device).
    pub fn new(
        io_size: u64,
        block_size: u64,
        batch_size: u64,
        step_size: u64,
        max_write: u64,
        start_block: u64,
        max_blocks: u64,
        start_time: u64,
    ) -> (r: Result<CacheWorker, BenchErrorKind>)
        requires
            block_size >= 1,
            io_size >= 1,
            io_size % block_size == 0,
            batch_size >= 1,
            step_size >= 1,
            batch_size - 1 + io_size as int / block_size as int <= u64::MAX,
        ensures
            r is Err <==> start_block + (max_write as int / io_size as int) * (io_size as int
                / block_size as int) > max_blocks,
            r matches Err(e) ==> e == BenchErrorKind::WorkloadDoesNotFit,
            r matches Ok(w) ==> {
                &&& w.wf()
                &&& w.io_size() == io_size
                &&& w.block_size() == block_size
                &&& w.batch_size() == batch_size
                &&& w.step_size() == step_size
                &&& w.total_ops() == max_write as int / io_size as int
                &&& w.start_block() == start_block
                &&& w.it_check() == 0
                &&& w.in_flight() == 0
                &&& w.window_actions() == 0
                &&& w.window_start() == start_time
                &&& w.logs() == Seq::<IoLog>::empty()
            },
    {
        let total_ops = max_write / io_size;
        let blocks_per_io = io_size / block_size;
        proof {
            assert(total_ops * blocks_per_io >= 0) by (nonlinear_arith)
                requires
                    total_ops >= 0,
                    blocks_per_io >= 0,
            ;
            assert(total_ops as int * blocks_per_io as int <= u64::MAX as int * u64::MAX as int)
                by (nonlinear_arith)
                requires
                    0 <= total_ops <= u64::MAX,
                    0 <= blocks_per_io <= u64::MAX,
            ;
        }
        let span = (total_ops as u128) * (blocks_per_io as u128);
        if (start_block as u128) + span > (max_blocks as u128) {
            return Err(BenchErrorKind::WorkloadDoesNotFit);
        }
        Ok(CacheWorker {
            io_size,
            block_size,
            batch_size,
            step_size,
            total_ops,
            start_block,
            it_check: 0,
            in_flight: 0,
            window_actions: 0,
            window_start: start_time,
            logs: Vec::new(),
        })
    }

    /// Whether another transfer is due.
    pub fn has_more(&self) -> (r: bool)
        requires
            self.wf(),
        ensures
            r <==> self.it_check() < self.total_ops(),
    {
        self.it_check < self.total_ops
    }

    /// The logical block the next transfer targets; the whole transfer
    /// stays inside the device's `max_blocks` checked at construction.
    pub fn next_lba(&self) -> (r: u64)
        requires
            self.wf(),
            self.it_check() < self.total_ops(),
        ensures
            r == self.start_block() + self.it_check() * self.blocks_per_io(),
            r + self.blocks_per_io() <= self.start_block() + self.total_ops()
                * self.blocks_per_io(),
    {
        let blocks_per_io = self.io_size / self.block_size;
        proof {
            assert((self.it_check() + 1) * self.blocks_per_io() <= self.total_ops()
                * self.blocks_per_io() && 0 <= self.it_check() * self.blocks_per_io()
                && (self.it_check() + 1) * self.blocks_per_io() == self.it_check()
                * self.blocks_per_io() + self.blocks_per_io()) by (nonlinear_arith)
                requires
                    0 <= self.it_check() < self.total_ops(),
                    self.blocks_per_io() >= 0,
            ;
        }
        self.start_block + self.it_check * blocks_per_io
    }

    /// Records the outcome of the submission: `accepted` operations were
    /// queued (zero when the ring rejected it, which the benchmark logs
    /// and tolerates; the transfer still counts as attempted).
    pub fn on_submitted(&mut self, accepted: u64)
        requires
            old(self).wf(),
            old(self).it_check() < old(self).total_ops(),
            old(self).in_flight() < old(self).batch_size(),
            accepted == 0 || accepted as int == old(self).blocks_per_io(),
        ensures
            final(self).wf(),
            final(self).it_check() == old(self).it_check() + 1,
            final(self).in_flight() == old(self).in_flight() + accepted,
            final(self).window_actions() == old(self).window_actions(),
            final(self).logs() == old(self).logs(),
            final(self).io_size() == old(self).io_size(),
            final(self).block_size() == old(self).block_size(),
            final(self).batch_size() == old(self).batch_size(),
            final(self).step_size() == old(self).step_size(),
            final(self).total_ops() == old(self).total_ops(),
            final(self).start_block() == old(self).start_block(),
            final(self).window_start() == old(self).window_start(),
    {
        proof {
            assert(old(self).blocks_per_io() <= old(self).io_size());
        }
        self.it_check = self.it_check + 1;
        self.in_flight = self.in_flight + accepted;
    }

    /// Records `count` completions (polled or drained): they leave the
    /// in-flight window and join the current sample's action count.
    pub fn on_completed(&mut self, count: u64)
        requires
            old(self).wf(),
            count <= old(self).in_flight(),
            (old(self).window_actions() + count) * old(self).io_size() <= u64::MAX,
        ensures
            final(self).wf(),
            final(self).in_flight() == old(self).in_flight() - count,
            final(self).window_actions() == old(self).window_actions() + count,
            final(self).it_check() == old(self).it_check(),
            final(self).logs() == old(self).logs(),
            final(self).io_size() == old(self).io_size(),
            final(self).block_size() == old(self).block_size(),
            final(self).batch_size() == old(self).batch_size(),
            final(self).step_size() == old(self).step_size(),
            final(self).total_ops() == old(self).total_ops(),
            final(self).start_block() == old(self).start_block(),
            final(self).window_start() == old(self).window_start(),
    {
        proof {
            let wa = old(self).window_actions() as int + count;
            let io = old(self).io_size() as int;
            assert(wa * io >= wa * 1) by (nonlinear_arith)
                requires
                    io >= 1,
                    wa >= 0,
            ;
        }
        self.in_flight = self.in_flight - count;
        self.window_actions = self.window_actions + count;
    }

    /// How many completions to drain now so the next submission fits the
    /// batch bound: down to one below `batch_size`, as the benchmark keeps
    /// the queue busy while amortising completion polling.
    pub fn completions_due(&self) -> (r: u64)
        requires
            self.wf(),
        ensures
            r == if self.in_flight() >= self.batch_size() {
                self.in_flight() + 1 - self.batch_size()
            } else {
                0
            },
            r <= self.in_flight(),
            self.in_flight() - r < self.batch_size(),
    {
        if self.in_flight >= self.batch_size {
            self.in_flight - (self.batch_size - 1)
        } else {
            0
        }
    }

    /// Whether enough completions have gathered to close the window.
    pub fn sample_due(&self) -> (r: bool)
        requires
            self.wf(),
        ensures
            r <==> self.window_actions() > self.step_size(),
    {
        self.window_actions > self.step_size
    }

    /// Closes the current sampling window at time `now`: appends one
    /// [`IoLog`] covering the window, with the completions it gathered and
    /// the bytes they moved, and opens a fresh window at `now`.  A window
    /// may only close once it is due: more than `step_size` completions
    /// gathered, so every emitted sample carries a full step.
    pub fn take_sample(&mut self, now: u64)
        requires
            old(self).wf(),
            now >= old(self).window_start(),
            old(self).window_actions() > old(self).step_size(),
        ensures
            final(self).wf(),
            final(self).logs() == old(self).logs().push(IoLog {
                start: old(self).window_start(),
                end: now,
                actions: old(self).window_actions(),
                cumulative_size: (old(self).window_actions() * old(self).io_size()) as u64,
            }),
            final(self).window_actions() == 0,
            final(self).window_start() == now,
            final(self).in_flight() == old(self).in_flight(),
            final(self).it_check() == old(self).it_check(),
            final(self).io_size() == old(self).io_size(),
            final(self).block_size() == old(self).block_size(),
            final(self).batch_size() == old(self).batch_size(),
            final(self).step_size() == old(self).step_size(),
            final(self).total_ops() == old(self).total_ops(),
            final(self).start_block() == old(self).start_block(),
    {
        proof {
            let io = old(self).io_size() as int;
            assert(0 * io == 0) by (nonlinear_arith);
        }
        let log = IoLog {
            start: self.window_start,
            end: now,
            actions: self.window_actions,
            cumulative_size: self.window_actions * self.io_size,
        };
        self.logs.push(log);
        self.window_actions = 0;
        self.window_start = now;
    }

    /// Hands the accumulated samples out at the end of the run.  The run
    /// must be drained first — every submitted operation completed — so a
    /// worker cannot finish while operations are still in flight on its
    /// queue pair.
    pub fn into_logs(self) -> (r: Vec<IoLog>)
        requires
            self.in_flight() == 0,
        ensures
            r@ == self.logs(),
    {
        self.logs
    }
}

} // verus!
