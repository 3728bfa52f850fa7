//! Adaptive cache-size prober: watches the per-bucket times of a sequence
//! of fixed-size transfers and decides when sustained throughput has
//! collapsed, which marks the exhaustion of a device's write-back cache.
//!
//! The stop rule is a tunable heuristic, not an exact detector: a bucket
//! counts as collapsed when its time is at least `collapse_num /
//! collapse_den` of the previous bucket's time (four thirds is the
//! customary tuning), and no collapse is accepted before `warmup_buckets`
//! buckets have been sampled, to avoid false positives from start-up
//! jitter.

use vstd::prelude::*;

verus! {

/// Tuning of the stop rule.
#[derive(Copy, Clone, Debug, PartialEq, Eq, Structural)]
pub struct ProbeConfig {
    /// Buckets that must have been sampled before a collapse is accepted.
    pub warmup_buckets: usize,
    /// Numerator of the collapse threshold ratio.
    pub collapse_num: u64,
    /// Denominator of the collapse threshold ratio.
    pub collapse_den: u64,
}

/// What a probe run reports.
#[derive(Copy, Clone, Debug, PartialEq, Eq, Structural)]
pub enum ProbeOutcome {
    /// Throughput collapsed after this many buckets; the caller interprets
    /// the index (times the bytes per bucket) as the detected cache size.
    Detected { bucket: usize },
    /// The byte budget ran out before any collapse: no cache size could be
    /// detected within the bound.
    Undetermined,
}

/// A sane tuning: a positive ratio of at least one (a bucket can only be
/// "worse" than the previous one).
pub open spec fn probe_config_wf(cfg: ProbeConfig) -> bool {
    &&& cfg.collapse_den >= 1
    &&& cfg.collapse_num >= cfg.collapse_den
    &&& cfg.warmup_buckets >= 2
}

/// Whether the bucket time `cur` counts as collapsed against the previous
/// bucket time `prev`: `cur >= (collapse_num / collapse_den) * prev`.
pub open spec fn collapsed(cfg: ProbeConfig, prev: u64, cur: u64) -> bool {
    cur * cfg.collapse_den >= prev * cfg.collapse_num
}

/// Whether a collapse may be reported at bucket index `i` of a time
/// series: enough buckets sampled, and the step from `i - 1` to `i`
/// collapsed.
pub open spec fn collapse_at(cfg: ProbeConfig, times: Seq<u64>, i: int) -> bool {
    &&& 1 <= i < times.len()
    &&& i + 1 >= cfg.warmup_buckets
    &&& collapsed(cfg, times[i - 1], times[i])
}

/// Two 64-bit values multiply without leaving 128-bit range.
proof fn lemma_u64_products_fit(a: u64, b: u64, c: u64, d: u64)
    ensures
        (a as u128 as int) * (b as u128 as int) <= u128::MAX,
        (c as u128 as int) * (d as u128 as int) <= u128::MAX,
{
    assert((a as int) * (b as int) <= u128::MAX && (c as int) * (d as int) <= u128::MAX)
        by (nonlinear_arith)
        requires
            0 <= a as int <= u64::MAX,
            0 <= b as int <= u64::MAX,
            0 <= c as int <= u64::MAX,
            0 <= d as int <= u64::MAX,
    ;
}

/// Runs the stop rule over a complete series of bucket times: reports the
/// first eligible collapse, or `Undetermined` when the series ends (the
/// byte budget was exhausted) without one.
pub fn run_probe(times: &Vec<u64>, cfg: ProbeConfig) -> (r: ProbeOutcome)
    requires
        probe_config_wf(cfg),
    ensures
        r matches ProbeOutcome::Detected { bucket } ==> collapse_at(cfg, times@, bucket as int)
            && forall|j: int| 1 <= j < bucket ==> !collapse_at(cfg, times@, j),
        r is Undetermined ==> forall|j: int| 1 <= j < times@.len() ==> !collapse_at(
            cfg,
            times@,
            j,
        ),
{
    let n = times.len();
    let mut i: usize = 1;
    while i < n
        invariant
            1 <= i,
            i <= n || n < 1,
            n == times@.len(),
            probe_config_wf(cfg),
            forall|j: int| 1 <= j < i ==> !collapse_at(cfg, times@, j),
        decreases n - i,
    {
        if i + 1 >= cfg.warmup_buckets {
            let prev = times[i - 1];
            let cur = times[i];
            proof {
                lemma_u64_products_fit(cur, cfg.collapse_den, prev, cfg.collapse_num);
            }
            if (cur as u128) * (cfg.collapse_den as u128) >= (prev as u128) * (cfg.collapse_num
                as u128) {
                return ProbeOutcome::Detected { bucket: i };
            }
        }
        i = i + 1;
    }
    ProbeOutcome::Undetermined
}

/// Online form of the prober for a loop that measures as it goes: the
/// state after some buckets, fed one more bucket time at a time.
pub struct Prober {
    cfg: ProbeConfig,
    buckets_seen: usize,
    last_time: u64,
}

impl Prober {
    pub closed spec fn cfg(self) -> ProbeConfig {
        self.cfg
    }

    /// Buckets observed so far.
    pub closed spec fn buckets_seen(self) -> int {
        self.buckets_seen as int
    }

    /// The last observed bucket time (meaningful once a bucket was seen).
    pub closed spec fn last_time(self) -> u64 {
        self.last_time
    }

    pub fn new(cfg: ProbeConfig) -> (r: Prober)
        requires
            probe_config_wf(cfg),
        ensures
            r.cfg() == cfg,
            r.buckets_seen() == 0,
    {
        Prober { cfg, buckets_seen: 0, last_time: 0 }
    }

    /// Feeds the time of the next closed bucket; answers whether the probe
    /// should stop here: at least `warmup_buckets` sampled (this one
    /// included) and the step from the previous bucket collapsed.
    pub fn observe(&mut self, bucket_time: u64) -> (stop: bool)
        requires
            old(self).buckets_seen() < usize::MAX,
        ensures
            final(self).cfg() == old(self).cfg(),
            final(self).buckets_seen() == old(self).buckets_seen() + 1,
            final(self).last_time() == bucket_time,
            stop <==> old(self).buckets_seen() >= 1 && old(self).buckets_seen() + 1
                >= old(self).cfg().warmup_buckets && collapsed(
                old(self).cfg(),
                old(self).last_time(),
                bucket_time,
            ),
    {
        let seen = self.buckets_seen;
        let prev = self.last_time;
        self.buckets_seen = seen + 1;
        self.last_time = bucket_time;
        if seen >= 1 && seen + 1 >= self.cfg.warmup_buckets {
            proof {
                lemma_u64_products_fit(bucket_time, self.cfg.collapse_den, prev,
                    self.cfg.collapse_num);
            }
            (bucket_time as u128) * (self.cfg.collapse_den as u128) >= (prev as u128)
                * (self.cfg.collapse_num as u128)
        } else {
            false
        }
    }
}

} // verus!
