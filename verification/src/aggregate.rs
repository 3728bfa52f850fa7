//! Result aggregation: merges the per-worker timing logs of one benchmark
//! cell into a single chronological series of fixed-width time buckets,
//! each holding a fractional-overlap-weighted action count and byte count.
//!
//! The merge works in integer microseconds.  Each live log contributes
//! `floor(amount * overlap / duration)` to every bucket it overlaps, so a
//! bucket's value sits within one unit per contributing log of the exact
//! rational apportioning — a bounded, non-accumulating error — and the
//! merge succeeds on any input.  The exact rational values themselves are
//! kept as specification functions, and lemmas bound the distance between
//! the two and carry the conservation law.

use vstd::prelude::*;
use crate::types::IoLog;

verus! {

/// One merged time bucket: whole actions and whole bytes apportioned to
/// this time window, each within one unit per contributing live log of
/// the exact fractional value.
#[derive(Copy, Clone, Debug, PartialEq, Eq, Structural)]
pub struct Bucket {
    pub actions: u128,
    pub bytes: u128,
}

/// `x` clamped into `[lo, hi]`.
pub open spec fn clamp_to(x: int, lo: int, hi: int) -> int {
    if x < lo {
        lo
    } else if x > hi {
        hi
    } else {
        x
    }
}

/// The `k`-th bucket boundary, clamped into a log's offset window `[s, e]`.
pub open spec fn boundary_mark(k: int, bw: int, s: int, e: int) -> int {
    clamp_to(k * bw, s, e)
}

/// Microseconds of overlap between bucket `b` (the window
/// `[b * bw, (b + 1) * bw)`) and a log spanning offsets `[s, e)`.
pub open spec fn overlap_amount(b: int, bw: int, s: int, e: int) -> int {
    boundary_mark(b + 1, bw, s, e) - boundary_mark(b, bw, s, e)
}

/// The per-worker log vectors as sequences.
pub open spec fn worker_views(rs: Seq<Vec<IoLog>>) -> Seq<Seq<IoLog>> {
    rs.map_values(|v: Vec<IoLog>| v@)
}

/// All logs of all workers, in worker order.
pub open spec fn flat_logs(rs: Seq<Seq<IoLog>>) -> Seq<IoLog>
    decreases rs.len(),
{
    if rs.len() == 0 {
        Seq::empty()
    } else {
        flat_logs(rs.drop_last()) + rs.last()
    }
}

/// Every window starts no later than it ends.
pub open spec fn logs_ordered(logs: Seq<IoLog>) -> bool {
    forall|k: int| 0 <= k < logs.len() ==> #[trigger] logs[k].start <= logs[k].end
}

/// The earliest start over all logs.
pub open spec fn min_start_of(logs: Seq<IoLog>) -> int
    recommends
        logs.len() > 0,
    decreases logs.len(),
{
    if logs.len() <= 1 {
        logs[0].start as int
    } else {
        let rest = min_start_of(logs.drop_last());
        if logs.last().start < rest {
            logs.last().start as int
        } else {
            rest
        }
    }
}

/// The latest end over all logs.
pub open spec fn max_end_of(logs: Seq<IoLog>) -> int
    recommends
        logs.len() > 0,
    decreases logs.len(),
{
    if logs.len() <= 1 {
        logs[0].end as int
    } else {
        let rest = max_end_of(logs.drop_last());
        if logs.last().end > rest {
            logs.last().end as int
        } else {
            rest
        }
    }
}

/// Bucket count: the total span divided by the bucket width, rounded up.
pub open spec fn num_buckets_of(logs: Seq<IoLog>, bw: int) -> int {
    if logs.len() == 0 {
        0
    } else {
        let span = max_end_of(logs) - min_start_of(logs);
        span / bw + if span % bw == 0 {
            0int
        } else {
            1int
        }
    }
}

/// How many logs carry weight: those with a positive duration.
pub open spec fn live_count(logs: Seq<IoLog>) -> int
    decreases logs.len(),
{
    if logs.len() == 0 {
        0
    } else {
        live_count(logs.drop_last()) + if logs.last().is_live() {
            1int
        } else {
            0int
        }
    }
}

/// What the merge computes for bucket `b`'s action count: the sum over
/// live logs of `floor(actions * overlap / duration)`.
pub open spec fn bucket_actions_of(logs: Seq<IoLog>, ms: int, bw: int, b: int) -> int
    decreases logs.len(),
{
    if logs.len() == 0 {
        0
    } else {
        let prev = bucket_actions_of(logs.drop_last(), ms, bw, b);
        let l = logs.last();
        if l.is_live() {
            prev + (l.actions as int) * overlap_amount(b, bw, l.start - ms, l.end - ms)
                / l.duration()
        } else {
            prev
        }
    }
}

/// What the merge computes for bucket `b`'s byte count, the same way.
pub open spec fn bucket_bytes_of(logs: Seq<IoLog>, ms: int, bw: int, b: int) -> int
    decreases logs.len(),
{
    if logs.len() == 0 {
        0
    } else {
        let prev = bucket_bytes_of(logs.drop_last(), ms, bw, b);
        let l = logs.last();
        if l.is_live() {
            prev + (l.cumulative_size as int) * overlap_amount(b, bw, l.start - ms, l.end - ms)
                / l.duration()
        } else {
            prev
        }
    }
}

/// The exact apportioning, as a rational over a common denominator: the
/// product of the durations of the live logs.
pub open spec fn den_of(logs: Seq<IoLog>) -> int
    decreases logs.len(),
{
    if logs.len() == 0 {
        1
    } else {
        den_of(logs.drop_last()) * (if logs.last().is_live() {
            logs.last().duration()
        } else {
            1
        })
    }
}

/// Numerator of bucket `b`'s exact action count over `den_of(logs)`.
pub open spec fn actions_num_of(logs: Seq<IoLog>, ms: int, bw: int, b: int) -> int
    decreases logs.len(),
{
    if logs.len() == 0 {
        0
    } else {
        let prev = actions_num_of(logs.drop_last(), ms, bw, b);
        let l = logs.last();
        if l.is_live() {
            prev * l.duration() + (l.actions as int) * overlap_amount(
                b,
                bw,
                l.start - ms,
                l.end - ms,
            ) * den_of(logs.drop_last())
        } else {
            prev
        }
    }
}

/// Numerator of bucket `b`'s exact byte count over `den_of(logs)`.
pub open spec fn bytes_num_of(logs: Seq<IoLog>, ms: int, bw: int, b: int) -> int
    decreases logs.len(),
{
    if logs.len() == 0 {
        0
    } else {
        let prev = bytes_num_of(logs.drop_last(), ms, bw, b);
        let l = logs.last();
        if l.is_live() {
            prev * l.duration() + (l.cumulative_size as int) * overlap_amount(
                b,
                bw,
                l.start - ms,
                l.end - ms,
            ) * den_of(logs.drop_last())
        } else {
            prev
        }
    }
}

proof fn lemma_den_pos(logs: Seq<IoLog>)
    ensures
        den_of(logs) >= 1,
    decreases logs.len(),
{
    if logs.len() > 0 {
        lemma_den_pos(logs.drop_last());
        let f = if logs.last().is_live() {
            logs.last().duration()
        } else {
            1
        };
        assert(f >= 1);
        assert(den_of(logs.drop_last()) * f >= 1) by (nonlinear_arith)
            requires
                den_of(logs.drop_last()) >= 1,
                f >= 1,
        ;
    }
}

proof fn lemma_overlap_bounds(b: int, bw: int, s: int, e: int)
    requires
        bw >= 1,
        s <= e,
    ensures
        0 <= overlap_amount(b, bw, s, e),
        overlap_amount(b, bw, s, e) <= e - s,
{
    assert(b * bw <= (b + 1) * bw) by (nonlinear_arith)
        requires
            bw >= 1,
    ;
}

proof fn lemma_nums_nonneg(logs: Seq<IoLog>, ms: int, bw: int, b: int)
    requires
        bw >= 1,
    ensures
        actions_num_of(logs, ms, bw, b) >= 0,
        bytes_num_of(logs, ms, bw, b) >= 0,
    decreases logs.len(),
{
    if logs.len() > 0 {
        lemma_nums_nonneg(logs.drop_last(), ms, bw, b);
        lemma_den_pos(logs.drop_last());
        let l = logs.last();
        if l.is_live() {
            lemma_overlap_bounds(b, bw, l.start - ms, l.end - ms);
            let prev = actions_num_of(logs.drop_last(), ms, bw, b);
            let pb = bytes_num_of(logs.drop_last(), ms, bw, b);
            let ov = overlap_amount(b, bw, l.start - ms, l.end - ms);
            let den = den_of(logs.drop_last());
            assert(prev * l.duration() + (l.actions as int) * ov * den >= 0)
                by (nonlinear_arith)
                requires
                    prev >= 0,
                    l.duration() >= 1,
                    l.actions as int >= 0,
                    ov >= 0,
                    den >= 1,
            ;
            assert(pb * l.duration() + (l.cumulative_size as int) * ov * den >= 0)
                by (nonlinear_arith)
                requires
                    pb >= 0,
                    l.duration() >= 1,
                    l.cumulative_size as int >= 0,
                    ov >= 0,
                    den >= 1,
            ;
        }
    }
}

proof fn lemma_min_max_bound(logs: Seq<IoLog>, k: int)
    requires
        0 <= k < logs.len(),
    ensures
        min_start_of(logs) <= logs[k].start,
        max_end_of(logs) >= logs[k].end,
    decreases logs.len(),
{
    if logs.len() > 1 {
        if k < logs.len() - 1 {
            lemma_min_max_bound(logs.drop_last(), k);
            assert(logs.drop_last()[k] == logs[k]);
        }
    }
}

/// One live log's floored contribution to one bucket never exceeds its
/// whole amount, so a bucket's value is at most `live_count` whole
/// amounts — in particular it always fits the machine arithmetic.
proof fn lemma_bucket_floor_small(logs: Seq<IoLog>, ms: int, bw: int, b: int)
    requires
        bw >= 1,
        logs_ordered(logs),
    ensures
        0 <= bucket_actions_of(logs, ms, bw, b),
        bucket_actions_of(logs, ms, bw, b) <= live_count(logs) * (u64::MAX as int),
        0 <= bucket_bytes_of(logs, ms, bw, b),
        bucket_bytes_of(logs, ms, bw, b) <= live_count(logs) * (u64::MAX as int),
        0 <= live_count(logs) <= logs.len(),
    decreases logs.len(),
{
    if logs.len() > 0 {
        assert(forall|k: int|
            0 <= k < logs.drop_last().len() ==> #[trigger] logs.drop_last()[k] == logs[k]);
        lemma_bucket_floor_small(logs.drop_last(), ms, bw, b);
        let l = logs.last();
        if l.is_live() {
            assert(logs[logs.len() - 1].start <= logs[logs.len() - 1].end);
            lemma_overlap_bounds(b, bw, l.start - ms, l.end - ms);
            let ov = overlap_amount(b, bw, l.start - ms, l.end - ms);
            let d = l.duration();
            lemma_floor_share_bounds(l.actions as int, ov, d);
            lemma_floor_share_bounds(l.cumulative_size as int, ov, d);
            let lc = live_count(logs.drop_last());
            assert((lc + 1) * (u64::MAX as int) == lc * (u64::MAX as int) + u64::MAX)
                by (nonlinear_arith);
        }
    }
}

/// The floored share of one amount: it is non-negative, at most the whole
/// amount, and within one of the exact fraction —
/// `q * d <= a * ov < (q + 1) * d` for `q = (a * ov) / d`.
proof fn lemma_floor_share_bounds(a: int, ov: int, d: int)
    requires
        0 <= a,
        0 <= ov <= d,
        1 <= d,
    ensures
        0 <= a * ov / d <= a,
        (a * ov / d) * d <= a * ov,
        a * ov < (a * ov / d + 1) * d,
{
    let q = a * ov / d;
    assert(a * ov >= 0) by (nonlinear_arith)
        requires
            a >= 0,
            ov >= 0,
    ;
    vstd::arithmetic::div_mod::lemma_fundamental_div_mod(a * ov, d);
    vstd::arithmetic::div_mod::lemma_mod_bound(a * ov, d);
    assert(a * ov == d * q + (a * ov) % d);
    assert(q * d == d * q && (q + 1) * d == d * q + d) by (nonlinear_arith);
    assert(q >= 0) by (nonlinear_arith)
        requires
            a * ov >= 0,
            d >= 1,
            a * ov == d * q + (a * ov) % d,
            0 <= (a * ov) % d < d,
    ;
    assert(a * ov <= a * d) by (nonlinear_arith)
        requires
            a >= 0,
            ov <= d,
    ;
    vstd::arithmetic::div_mod::lemma_div_is_ordered(a * ov, a * d, d);
    vstd::arithmetic::div_mod::lemma_div_multiples_vanish(a, d);
    assert(a * d == d * a) by (nonlinear_arith);
}

/// How far the floored merge can sit from the exact rational: for every
/// bucket, `floor_value <= exact <= floor_value + live_count` — the merge
/// never over-counts and under-counts by less than one unit per
/// contributing live log, stated here with the exact value
/// cross-multiplied by its denominator.
pub proof fn lemma_bucket_within_live_count(logs: Seq<IoLog>, ms: int, bw: int, b: int)
    requires
        bw >= 1,
        logs_ordered(logs),
    ensures
        bucket_actions_of(logs, ms, bw, b) * den_of(logs) <= actions_num_of(logs, ms, bw, b),
        actions_num_of(logs, ms, bw, b) <= (bucket_actions_of(logs, ms, bw, b) + live_count(
            logs,
        )) * den_of(logs),
        bucket_bytes_of(logs, ms, bw, b) * den_of(logs) <= bytes_num_of(logs, ms, bw, b),
        bytes_num_of(logs, ms, bw, b) <= (bucket_bytes_of(logs, ms, bw, b) + live_count(logs))
            * den_of(logs),
    decreases logs.len(),
{
    if logs.len() == 0 {
        assert(0 * den_of(logs) == 0) by (nonlinear_arith);
        assert((0 + 0) * den_of(logs) == 0) by (nonlinear_arith);
    } else {
        let pre = logs.drop_last();
        assert(forall|k: int| 0 <= k < pre.len() ==> #[trigger] pre[k] == logs[k]);
        lemma_bucket_within_live_count(pre, ms, bw, b);
        lemma_den_pos(pre);
        let l = logs.last();
        if l.is_live() {
            assert(logs[logs.len() - 1].start <= logs[logs.len() - 1].end);
            lemma_overlap_bounds(b, bw, l.start - ms, l.end - ms);
            lemma_bucket_floor_small(pre, ms, bw, b);
            let d = l.duration();
            let ov = overlap_amount(b, bw, l.start - ms, l.end - ms);
            let dn = den_of(pre);
            lemma_floor_step(
                bucket_actions_of(pre, ms, bw, b),
                actions_num_of(pre, ms, bw, b),
                live_count(pre),
                l.actions as int,
                ov,
                d,
                dn,
            );
            lemma_floor_step(
                bucket_bytes_of(pre, ms, bw, b),
                bytes_num_of(pre, ms, bw, b),
                live_count(pre),
                l.cumulative_size as int,
                ov,
                d,
                dn,
            );
        }
    }
}

/// One step of the floor-versus-exact bound: adding one live log keeps
/// the floored sum within one more unit of the exact numerator.
proof fn lemma_floor_step(f: int, num: int, lc: int, a: int, ov: int, d: int, dn: int)
    requires
        f * dn <= num,
        num <= (f + lc) * dn,
        0 <= a,
        0 <= ov <= d,
        1 <= d,
        1 <= dn,
        0 <= lc,
    ensures
        (f + a * ov / d) * (dn * d) <= num * d + a * ov * dn,
        num * d + a * ov * dn <= ((f + a * ov / d) + (lc + 1)) * (dn * d),
{
    let q = a * ov / d;
    lemma_floor_share_bounds(a, ov, d);
    assert((f + q) * (dn * d) == f * dn * d + q * d * dn) by (nonlinear_arith);
    assert(f * dn * d <= num * d) by (nonlinear_arith)
        requires
            f * dn <= num,
            d >= 1,
    ;
    assert(q * d * dn <= a * ov * dn) by (nonlinear_arith)
        requires
            q * d <= a * ov,
            dn >= 1,
    ;
    assert(((f + q) + (lc + 1)) * (dn * d) == (f + lc) * dn * d + (q + 1) * d * dn)
        by (nonlinear_arith);
    assert(num * d <= (f + lc) * dn * d) by (nonlinear_arith)
        requires
            num <= (f + lc) * dn,
            d >= 1,
    ;
    assert(a * ov * dn < (q + 1) * d * dn) by (nonlinear_arith)
        requires
            a * ov < (q + 1) * d,
            dn >= 1,
    ;
}

/// What the merge returns: one bucket per width of the covered span, each
/// holding the floored per-log shares.
pub open spec fn merged_correct(v: Seq<Bucket>, logs: Seq<IoLog>, bw: int) -> bool {
    let ms = min_start_of(logs);
    &&& v.len() == num_buckets_of(logs, bw)
    &&& forall|b: int|
        0 <= b < v.len() ==> {
            &&& (#[trigger] v[b]).actions == bucket_actions_of(logs, ms, bw, b)
            &&& v[b].bytes == bucket_bytes_of(logs, ms, bw, b)
        }
}

/// `x` clamped into `[lo, hi]`, executably.
fn clamp_u128(x: u128, lo: u128, hi: u128) -> (r: u128)
    requires
        lo <= hi,
    ensures
        r == clamp_to(x as int, lo as int, hi as int),
{
    if x < lo {
        lo
    } else if x > hi {
        hi
    } else {
        x
    }
}

/// Merges the per-worker logs into buckets of `bucket_duration_us`
/// microseconds, from the earliest start over all logs to the latest end.
/// A live log's actions and bytes are split over the buckets it overlaps,
/// each bucket receiving the whole-unit share `amount * overlap /
/// duration`; zero-duration logs are skipped (they cannot be
/// apportioned), though they still widen the covered span.  Each bucket
/// value sits within one unit per contributing live log of the exact
/// fractional apportioning ([`lemma_bucket_within_live_count`]).
#[verifier::rlimit(60)]
pub fn combine_results(results: &Vec<Vec<IoLog>>, bucket_duration_us: u64) -> (r: Vec<Bucket>)
    requires
        bucket_duration_us >= 1,
        logs_ordered(flat_logs(worker_views(results@))),
        num_buckets_of(flat_logs(worker_views(results@)), bucket_duration_us as int)
            <= usize::MAX,
    ensures
        merged_correct(r@, flat_logs(worker_views(results@)), bucket_duration_us as int),
{
    let ghost logs = flat_logs(worker_views(results@));
    let ghost bw = bucket_duration_us as int;

    let mut flat: Vec<IoLog> = Vec::new();
    let mut i: usize = 0;
    while i < results.len()
        invariant
            i <= results@.len(),
            flat@ == flat_logs(worker_views(results@).take(i as int)),
        decreases results@.len() - i,
    {
        let inner_len = results[i].len();
        let mut j: usize = 0;
        while j < inner_len
            invariant
                i < results@.len(),
                j <= inner_len,
                inner_len == results@[i as int]@.len(),
                flat@ == flat_logs(worker_views(results@).take(i as int))
                    + results@[i as int]@.take(j as int),
            decreases inner_len - j,
        {
            let log = results[i][j];
            flat.push(log);
            proof {
                assert(results@[i as int]@.take(j as int).push(log)
                    =~= results@[i as int]@.take(j + 1));
                assert(flat@ =~= flat_logs(worker_views(results@).take(i as int))
                    + results@[i as int]@.take(j + 1));
            }
            j = j + 1;
        }
        proof {
            let wv = worker_views(results@);
            assert(wv.take(i + 1).drop_last() =~= wv.take(i as int));
            assert(wv.take(i + 1).last() == results@[i as int]@);
            assert(results@[i as int]@.take(inner_len as int) =~= results@[i as int]@);
            assert(flat@ =~= flat_logs(wv.take(i + 1)));
        }
        i = i + 1;
    }
    proof {
        assert(worker_views(results@).take(results@.len() as int) =~= worker_views(results@));
        assert(flat@ == logs);
    }

    if flat.len() == 0 {
        return Vec::new();
    }
    let n_logs = flat.len();

    let mut ms: u64 = flat[0].start;
    let mut me: u64 = flat[0].end;
    proof {
        assert(logs[0].start <= logs[0].end);
        assert(flat@.take(1).len() == 1);
    }
    let mut k: usize = 1;
    while k < flat.len()
        invariant
            logs == flat_logs(worker_views(results@)),
            1 <= k <= flat@.len(),
            flat@ == logs,
            logs_ordered(logs),
            ms == min_start_of(flat@.take(k as int)),
            me == max_end_of(flat@.take(k as int)),
            ms <= me,
        decreases flat@.len() - k,
    {
        let l = flat[k];
        proof {
            assert(flat@.take(k + 1).drop_last() =~= flat@.take(k as int));
            assert(flat@.take(k + 1).last() == l);
            assert(flat@.take(k + 1).len() == k + 1);
            assert(l.start <= l.end);
        }
        if l.start < ms {
            ms = l.start;
        }
        if l.end > me {
            me = l.end;
        }
        k = k + 1;
    }
    proof {
        assert(flat@.take(flat@.len() as int) =~= flat@);
    }

    let span = me - ms;
    let nb_wide = span / bucket_duration_us + if span % bucket_duration_us != 0 {
        1u64
    } else {
        0u64
    };
    proof {
        assert(nb_wide == num_buckets_of(logs, bw));
    }
    let nb = nb_wide as usize;

    let mut buckets: Vec<Bucket> = Vec::new();
    let mut c: usize = 0;
    while c < nb
        invariant
            c <= nb,
            buckets@.len() == c,
            forall|b: int|
                0 <= b < c ==> #[trigger] buckets@[b] == (Bucket { actions: 0, bytes: 0 }),
        decreases nb - c,
    {
        buckets.push(Bucket { actions: 0, bytes: 0 });
        c = c + 1;
    }

    let ghost msi = ms as int;
    let mut k: usize = 0;
    while k < flat.len()
        invariant
            logs == flat_logs(worker_views(results@)),
            k <= flat@.len(),
            flat@ == logs,
            logs_ordered(logs),
            bucket_duration_us >= 1,
            bw == bucket_duration_us as int,
            msi == ms as int,
            msi == min_start_of(logs),
            nb == num_buckets_of(logs, bw),
            n_logs == logs.len(),
            buckets@.len() == nb,
            forall|b: int|
                0 <= b < nb ==> {
                    &&& (#[trigger] buckets@[b]).actions == bucket_actions_of(
                        logs.take(k as int),
                        msi,
                        bw,
                        b,
                    )
                    &&& buckets@[b].bytes == bucket_bytes_of(logs.take(k as int), msi, bw, b)
                },
        decreases flat@.len() - k,
    {
        let l = flat[k];
        proof {
            assert(logs.take(k + 1).drop_last() =~= logs.take(k as int));
            assert(logs.take(k + 1).last() == l);
            lemma_min_max_bound(logs, k as int);
        }
        if l.end > l.start {
            let dur = l.end - l.start;
            let s_off = l.start - ms;
            let e_off = l.end - ms;
            let mut b: usize = 0;
            while b < nb
                invariant
                    logs == flat_logs(worker_views(results@)),
                    b <= nb,
                    flat@ == logs,
                    logs_ordered(logs),
                    bucket_duration_us >= 1,
                    bw == bucket_duration_us as int,
                    msi == ms as int,
                    msi == min_start_of(logs),
                    nb == num_buckets_of(logs, bw),
                    n_logs == logs.len(),
                    buckets@.len() == nb,
                    k < logs.len(),
                    l == logs[k as int],
                    l.is_live(),
                    dur == l.duration(),
                    s_off == l.start - msi,
                    e_off == l.end - msi,
                    s_off <= e_off,
                    forall|x: int|
                        0 <= x < b ==> {
                            &&& (#[trigger] buckets@[x]).actions == bucket_actions_of(
                                logs.take(k + 1),
                                msi,
                                bw,
                                x,
                            )
                            &&& buckets@[x].bytes == bucket_bytes_of(
                                logs.take(k + 1),
                                msi,
                                bw,
                                x,
                            )
                        },
                    forall|x: int|
                        b <= x < nb ==> {
                            &&& (#[trigger] buckets@[x]).actions == bucket_actions_of(
                                logs.take(k as int),
                                msi,
                                bw,
                                x,
                            )
                            &&& buckets@[x].bytes == bucket_bytes_of(
                                logs.take(k as int),
                                msi,
                                bw,
                                x,
                            )
                        },
                decreases nb - b,
            {
                proof {
                    assert(logs.take(k + 1).drop_last() =~= logs.take(k as int));
                    assert(logs.take(k + 1).last() == l);
                    assert((b as int) * bw <= (b as int + 1) * bw) by (nonlinear_arith)
                        requires
                            bw >= 1,
                    ;
                    assert((b as int + 1) * bw == (b as int) * bw + bw) by (nonlinear_arith);
                    assert((b as u128 as int) * (bucket_duration_us as u128 as int)
                        <= u128::MAX - bucket_duration_us) by (nonlinear_arith)
                        requires
                            0 <= b as u128 as int <= u64::MAX,
                            1 <= bucket_duration_us as u128 as int <= u64::MAX,
                    ;
                }
                let lo = (b as u128) * (bucket_duration_us as u128);
                let hi = lo + bucket_duration_us as u128;
                let m1 = clamp_u128(lo, s_off as u128, e_off as u128);
                let m2 = clamp_u128(hi, s_off as u128, e_off as u128);
                let ghost ov_spec = overlap_amount(b as int, bw, s_off as int, e_off as int);
                proof {
                    assert(m1 == boundary_mark(b as int, bw, s_off as int, e_off as int));
                    assert(m2 == boundary_mark(b as int + 1, bw, s_off as int, e_off as int));
                    lemma_overlap_bounds(b as int, bw, s_off as int, e_off as int);
                }
                let ov = (m2 - m1) as u64;
                proof {
                    assert(ov == ov_spec);
                }

                let ghost pre = logs.take(k as int);
                let ghost nxt = logs.take(k + 1);
                proof {
                    assert(bucket_actions_of(nxt, msi, bw, b as int) == bucket_actions_of(
                        pre,
                        msi,
                        bw,
                        b as int,
                    ) + (l.actions as int) * ov_spec / l.duration());
                    assert(bucket_bytes_of(nxt, msi, bw, b as int) == bucket_bytes_of(
                        pre,
                        msi,
                        bw,
                        b as int,
                    ) + (l.cumulative_size as int) * ov_spec / l.duration());
                    lemma_floor_share_bounds(l.actions as int, ov_spec, l.duration());
                    lemma_floor_share_bounds(l.cumulative_size as int, ov_spec, l.duration());
                    assert(forall|x: int|
                        0 <= x < pre.len() ==> #[trigger] pre[x] == logs[x]);
                    lemma_bucket_floor_small(pre, msi, bw, b as int);
                    lemma_bucket_floor_small(nxt, msi, bw, b as int);
                    assert(nxt.len() <= logs.len());
                    assert(logs.len() <= usize::MAX);
                    assert(logs.len() <= u64::MAX);
                    assert(live_count(nxt) * (u64::MAX as int) <= (logs.len() as int)
                        * (u64::MAX as int)) by (nonlinear_arith)
                        requires
                            live_count(nxt) <= nxt.len() <= logs.len(),
                    ;
                    assert((logs.len() as int) * (u64::MAX as int) <= (u64::MAX as int)
                        * (u64::MAX as int)) by (nonlinear_arith)
                        requires
                            logs.len() <= u64::MAX,
                    ;
                    assert((u64::MAX as int) * (u64::MAX as int) < u128::MAX as int)
                        by (nonlinear_arith);
                    assert((l.actions as u128 as int) * (ov as u128 as int) <= u128::MAX)
                        by (nonlinear_arith)
                        requires
                            0 <= l.actions as u128 as int <= u64::MAX,
                            0 <= ov as u128 as int <= u64::MAX,
                    ;
                    assert((l.cumulative_size as u128 as int) * (ov as u128 as int)
                        <= u128::MAX) by (nonlinear_arith)
                        requires
                            0 <= l.cumulative_size as u128 as int <= u64::MAX,
                            0 <= ov as u128 as int <= u64::MAX,
                    ;
                }
                let cur = buckets[b];
                let d128 = dur as u128;
                let qa = ((l.actions as u128) * (ov as u128)) / d128;
                let qb = ((l.cumulative_size as u128) * (ov as u128)) / d128;
                buckets.set(b, Bucket { actions: cur.actions + qa, bytes: cur.bytes + qb });
                b = b + 1;
            }
        } else {
            proof {
                assert forall|x: int| 0 <= x < nb implies bucket_actions_of(
                    logs.take(k + 1),
                    msi,
                    bw,
                    x,
                ) == bucket_actions_of(logs.take(k as int), msi, bw, x) && bucket_bytes_of(
                    logs.take(k + 1),
                    msi,
                    bw,
                    x,
                ) == bucket_bytes_of(logs.take(k as int), msi, bw, x) by {
                }
            }
        }
        k = k + 1;
    }
    proof {
        assert(logs.take(logs.len() as int) =~= logs);
    }
    buckets
}

/// Sum of the action counts of the live logs.
pub open spec fn total_actions(logs: Seq<IoLog>) -> int
    decreases logs.len(),
{
    if logs.len() == 0 {
        0
    } else {
        total_actions(logs.drop_last()) + if logs.last().is_live() {
            logs.last().actions as int
        } else {
            0
        }
    }
}

/// Sum of the byte counts of the live logs.
pub open spec fn total_bytes(logs: Seq<IoLog>) -> int
    decreases logs.len(),
{
    if logs.len() == 0 {
        0
    } else {
        total_bytes(logs.drop_last()) + if logs.last().is_live() {
            logs.last().cumulative_size as int
        } else {
            0
        }
    }
}

/// Sum of the exact action numerators of the first `nb` buckets.
pub open spec fn sum_actions_nums(logs: Seq<IoLog>, ms: int, bw: int, nb: int) -> int
    decreases nb,
{
    if nb <= 0 {
        0
    } else {
        sum_actions_nums(logs, ms, bw, nb - 1) + actions_num_of(logs, ms, bw, nb - 1)
    }
}

/// Sum of the exact byte numerators of the first `nb` buckets.
pub open spec fn sum_bytes_nums(logs: Seq<IoLog>, ms: int, bw: int, nb: int) -> int
    decreases nb,
{
    if nb <= 0 {
        0
    } else {
        sum_bytes_nums(logs, ms, bw, nb - 1) + bytes_num_of(logs, ms, bw, nb - 1)
    }
}

/// Sum of one log's overlaps with the first `nb` buckets.
pub open spec fn sum_overlaps(bw: int, s: int, e: int, nb: int) -> int
    decreases nb,
{
    if nb <= 0 {
        0
    } else {
        sum_overlaps(bw, s, e, nb - 1) + overlap_amount(nb - 1, bw, s, e)
    }
}

proof fn lemma_sum_overlaps_telescopes(bw: int, s: int, e: int, nb: int)
    requires
        nb >= 0,
    ensures
        sum_overlaps(bw, s, e, nb) == boundary_mark(nb, bw, s, e) - boundary_mark(0, bw, s, e),
    decreases nb,
{
    if nb > 0 {
        lemma_sum_overlaps_telescopes(bw, s, e, nb - 1);
    }
}

/// A log whose offsets lie inside the bucketed span has its whole duration
/// apportioned: the overlaps over all buckets sum to `e - s`.
pub proof fn lemma_overlap_partition(bw: int, s: int, e: int, nb: int)
    requires
        bw >= 1,
        0 <= s <= e,
        e <= nb * bw,
        nb >= 0,
    ensures
        sum_overlaps(bw, s, e, nb) == e - s,
{
    lemma_sum_overlaps_telescopes(bw, s, e, nb);
    assert(boundary_mark(0, bw, s, e) == s);
    assert(boundary_mark(nb, bw, s, e) == e);
}

proof fn lemma_sum_empty(ms: int, bw: int, nb: int)
    requires
        nb >= 0,
    ensures
        sum_actions_nums(Seq::<IoLog>::empty(), ms, bw, nb) == 0,
        sum_bytes_nums(Seq::<IoLog>::empty(), ms, bw, nb) == 0,
    decreases nb,
{
    if nb > 0 {
        lemma_sum_empty(ms, bw, nb - 1);
    }
}

proof fn lemma_sum_step(full: Seq<IoLog>, ms: int, bw: int, nb: int)
    requires
        full.len() > 0,
        nb >= 0,
    ensures
        full.last().is_live() ==> sum_actions_nums(full, ms, bw, nb) == full.last().duration()
            * sum_actions_nums(full.drop_last(), ms, bw, nb) + (full.last().actions as int)
            * den_of(full.drop_last()) * sum_overlaps(
            bw,
            full.last().start - ms,
            full.last().end - ms,
            nb,
        ),
        !full.last().is_live() ==> sum_actions_nums(full, ms, bw, nb) == sum_actions_nums(
            full.drop_last(),
            ms,
            bw,
            nb,
        ),
    decreases nb,
{
    if nb > 0 {
        lemma_sum_step(full, ms, bw, nb - 1);
        let l = full.last();
        let pre = full.drop_last();
        if l.is_live() {
            let d = l.duration();
            let a = l.actions as int;
            let dn = den_of(pre);
            let sp = sum_actions_nums(pre, ms, bw, nb - 1);
            let np = actions_num_of(pre, ms, bw, nb - 1);
            let so = sum_overlaps(bw, l.start - ms, l.end - ms, nb - 1);
            let ov = overlap_amount(nb - 1, bw, l.start - ms, l.end - ms);
            assert(actions_num_of(full, ms, bw, nb - 1) == np * d + a * ov * dn);
            assert((d * sp + a * dn * so) + (np * d + a * ov * dn) == d * (sp + np) + a * dn
                * (so + ov)) by (nonlinear_arith);
        }
    }
}

proof fn lemma_sum_step_bytes(full: Seq<IoLog>, ms: int, bw: int, nb: int)
    requires
        full.len() > 0,
        nb >= 0,
    ensures
        full.last().is_live() ==> sum_bytes_nums(full, ms, bw, nb) == full.last().duration()
            * sum_bytes_nums(full.drop_last(), ms, bw, nb) + (full.last().cumulative_size
            as int) * den_of(full.drop_last()) * sum_overlaps(
            bw,
            full.last().start - ms,
            full.last().end - ms,
            nb,
        ),
        !full.last().is_live() ==> sum_bytes_nums(full, ms, bw, nb) == sum_bytes_nums(
            full.drop_last(),
            ms,
            bw,
            nb,
        ),
    decreases nb,
{
    if nb > 0 {
        lemma_sum_step_bytes(full, ms, bw, nb - 1);
        let l = full.last();
        let pre = full.drop_last();
        if l.is_live() {
            let d = l.duration();
            let a = l.cumulative_size as int;
            let dn = den_of(pre);
            let sp = sum_bytes_nums(pre, ms, bw, nb - 1);
            let np = bytes_num_of(pre, ms, bw, nb - 1);
            let so = sum_overlaps(bw, l.start - ms, l.end - ms, nb - 1);
            let ov = overlap_amount(nb - 1, bw, l.start - ms, l.end - ms);
            assert(bytes_num_of(full, ms, bw, nb - 1) == np * d + a * ov * dn);
            assert((d * sp + a * dn * so) + (np * d + a * ov * dn) == d * (sp + np) + a * dn
                * (so + ov)) by (nonlinear_arith);
        }
    }
}

proof fn lemma_conservation_rec(logs: Seq<IoLog>, ms: int, bw: int, nb: int)
    requires
        bw >= 1,
        nb >= 0,
        logs_ordered(logs),
        forall|k: int|
            0 <= k < logs.len() && (#[trigger] logs[k]).is_live() ==> ms <= logs[k].start
                && logs[k].end - ms <= nb * bw,
    ensures
        sum_actions_nums(logs, ms, bw, nb) == den_of(logs) * total_actions(logs),
        sum_bytes_nums(logs, ms, bw, nb) == den_of(logs) * total_bytes(logs),
    decreases logs.len(),
{
    if logs.len() == 0 {
        lemma_sum_empty(ms, bw, nb);
        assert(logs =~= Seq::<IoLog>::empty());
    } else {
        let pre = logs.drop_last();
        let l = logs.last();
        assert(forall|k: int| 0 <= k < pre.len() ==> #[trigger] pre[k] == logs[k]);
        lemma_conservation_rec(pre, ms, bw, nb);
        lemma_sum_step(logs, ms, bw, nb);
        lemma_sum_step_bytes(logs, ms, bw, nb);
        if l.is_live() {
            assert(logs[logs.len() - 1].is_live());
            let s = l.start - ms;
            let e = l.end - ms;
            lemma_overlap_partition(bw, s, e, nb);
            let d = l.duration();
            let a = l.actions as int;
            let y = l.cumulative_size as int;
            let dn = den_of(pre);
            let tp = total_actions(pre);
            let yp = total_bytes(pre);
            assert(e - s == d);
            assert(d * (dn * tp) + a * dn * d == (dn * d) * (tp + a)) by (nonlinear_arith);
            assert(d * (dn * yp) + y * dn * d == (dn * d) * (yp + y)) by (nonlinear_arith);
            assert(den_of(logs) == dn * d);
            assert(total_actions(logs) == tp + a);
            assert(total_bytes(logs) == yp + y);
        }
    }
}

/// Aggregator conservation, exactly: summed over all buckets, the exact
/// action and byte numerators equal the common denominator times the
/// total counts of the live logs — the exact fractional bucket values sum
/// to the raw totals, with degenerate zero-duration logs excluded.
pub proof fn lemma_aggregation_conserves_actions(logs: Seq<IoLog>, bw: int)
    requires
        bw >= 1,
        logs_ordered(logs),
    ensures
        sum_actions_nums(logs, min_start_of(logs), bw, num_buckets_of(logs, bw)) == den_of(logs)
            * total_actions(logs),
        sum_bytes_nums(logs, min_start_of(logs), bw, num_buckets_of(logs, bw)) == den_of(logs)
            * total_bytes(logs),
{
    let ms = min_start_of(logs);
    let nb = num_buckets_of(logs, bw);
    if logs.len() == 0 {
        lemma_sum_empty(ms, bw, 0);
        assert(logs =~= Seq::<IoLog>::empty());
    } else {
        let span = max_end_of(logs) - min_start_of(logs);
        assert(span >= 0) by {
            lemma_min_max_bound(logs, 0);
            assert(logs[0].start <= logs[0].end);
        }
        vstd::arithmetic::div_mod::lemma_fundamental_div_mod(span, bw);
        assert(nb * bw >= span) by (nonlinear_arith)
            requires
                bw >= 1,
                span >= 0,
                span == bw * (span / bw) + span % bw,
                0 <= span % bw < bw,
                nb == span / bw + if span % bw == 0 {
                    0int
                } else {
                    1int
                },
        ;
        assert forall|k: int|
            0 <= k < logs.len() && (#[trigger] logs[k]).is_live() implies ms <= logs[k].start
            && logs[k].end - ms <= nb * bw by {
            lemma_min_max_bound(logs, k);
        }
        assert(nb >= 0) by (nonlinear_arith)
            requires
                bw >= 1,
                span >= 0,
                nb == span / bw + if span % bw == 0 {
                    0int
                } else {
                    1int
                },
        ;
        lemma_conservation_rec(logs, ms, bw, nb);
    }
}

/// Sum of the action counts of the first `n` buckets of a merge result.
pub open spec fn sum_bucket_actions(v: Seq<Bucket>, n: int) -> int
    decreases n,
{
    if n <= 0 {
        0
    } else {
        sum_bucket_actions(v, n - 1) + v[n - 1].actions
    }
}

/// Sum of the byte counts of the first `n` buckets of a merge result.
pub open spec fn sum_bucket_bytes(v: Seq<Bucket>, n: int) -> int
    decreases n,
{
    if n <= 0 {
        0
    } else {
        sum_bucket_bytes(v, n - 1) + v[n - 1].bytes
    }
}

/// The floored bucket sums over the first `nb` buckets bracket the exact
/// numerator sums to within `live_count` per bucket.
proof fn lemma_sum_floor_bounds(logs: Seq<IoLog>, ms: int, bw: int, nb: int)
    requires
        bw >= 1,
        logs_ordered(logs),
        nb >= 0,
    ensures
        sum_floor_actions(logs, ms, bw, nb) * den_of(logs) <= sum_actions_nums(
            logs,
            ms,
            bw,
            nb,
        ),
        sum_actions_nums(logs, ms, bw, nb) <= (sum_floor_actions(logs, ms, bw, nb) + nb
            * live_count(logs)) * den_of(logs),
        sum_floor_bytes(logs, ms, bw, nb) * den_of(logs) <= sum_bytes_nums(logs, ms, bw, nb),
        sum_bytes_nums(logs, ms, bw, nb) <= (sum_floor_bytes(logs, ms, bw, nb) + nb
            * live_count(logs)) * den_of(logs),
    decreases nb,
{
    lemma_den_pos(logs);
    let dn = den_of(logs);
    if nb == 0 {
        assert(0 * dn == 0) by (nonlinear_arith);
    } else {
        lemma_sum_floor_bounds(logs, ms, bw, nb - 1);
        lemma_bucket_within_live_count(logs, ms, bw, nb - 1);
        let sf = sum_floor_actions(logs, ms, bw, nb - 1);
        let f = bucket_actions_of(logs, ms, bw, nb - 1);
        let lc = live_count(logs);
        assert((sf + f) * dn == sf * dn + f * dn) by (nonlinear_arith);
        assert((f + lc) * dn == f * dn + lc * dn) by (nonlinear_arith);
        assert(((sf + f) + nb * lc) * dn == (sf + (nb - 1) * lc) * dn + (f + lc) * dn)
            by (nonlinear_arith);
        let sb = sum_floor_bytes(logs, ms, bw, nb - 1);
        let g = bucket_bytes_of(logs, ms, bw, nb - 1);
        assert((sb + g) * dn == sb * dn + g * dn) by (nonlinear_arith);
        assert((g + lc) * dn == g * dn + lc * dn) by (nonlinear_arith);
        assert(((sb + g) + nb * lc) * dn == (sb + (nb - 1) * lc) * dn + (g + lc) * dn)
            by (nonlinear_arith);
    }
}

/// Sum of the floored action values of the first `nb` buckets.
pub open spec fn sum_floor_actions(logs: Seq<IoLog>, ms: int, bw: int, nb: int) -> int
    decreases nb,
{
    if nb <= 0 {
        0
    } else {
        sum_floor_actions(logs, ms, bw, nb - 1) + bucket_actions_of(logs, ms, bw, nb - 1)
    }
}

/// Sum of the floored byte values of the first `nb` buckets.
pub open spec fn sum_floor_bytes(logs: Seq<IoLog>, ms: int, bw: int, nb: int) -> int
    decreases nb,
{
    if nb <= 0 {
        0
    } else {
        sum_floor_bytes(logs, ms, bw, nb - 1) + bucket_bytes_of(logs, ms, bw, nb - 1)
    }
}

proof fn lemma_sum_bucket_matches(v: Seq<Bucket>, logs: Seq<IoLog>, bw: int, n: int)
    requires
        merged_correct(v, logs, bw),
        0 <= n <= v.len(),
    ensures
        sum_bucket_actions(v, n) == sum_floor_actions(logs, min_start_of(logs), bw, n),
        sum_bucket_bytes(v, n) == sum_floor_bytes(logs, min_start_of(logs), bw, n),
    decreases n,
{
    if n > 0 {
        lemma_sum_bucket_matches(v, logs, bw, n - 1);
    }
}

/// Conservation, stated of what [`combine_results`] hands back: the
/// bucket values sum to the raw totals of the live logs, up to the
/// flooring — at most `live_count` whole units lost per bucket, and never
/// an over-count.  Degenerate zero-duration logs are excluded throughout.
pub proof fn lemma_merged_conserves_actions(v: Seq<Bucket>, logs: Seq<IoLog>, bw: int)
    requires
        bw >= 1,
        logs_ordered(logs),
        merged_correct(v, logs, bw),
    ensures
        sum_bucket_actions(v, v.len() as int) <= total_actions(logs),
        total_actions(logs) <= sum_bucket_actions(v, v.len() as int) + v.len() * live_count(
            logs,
        ),
        sum_bucket_bytes(v, v.len() as int) <= total_bytes(logs),
        total_bytes(logs) <= sum_bucket_bytes(v, v.len() as int) + v.len() * live_count(logs),
{
    let ms = min_start_of(logs);
    let nb = v.len() as int;
    lemma_sum_bucket_matches(v, logs, bw, nb);
    lemma_sum_floor_bounds(logs, ms, bw, nb);
    lemma_aggregation_conserves_actions(logs, bw);
    lemma_den_pos(logs);
    let dn = den_of(logs);
    let sf = sum_floor_actions(logs, ms, bw, nb);
    let ta = total_actions(logs);
    let lc = live_count(logs);
    assert(sf <= ta) by (nonlinear_arith)
        requires
            sf * dn <= dn * ta,
            dn >= 1,
    ;
    assert(ta <= sf + nb * lc) by (nonlinear_arith)
        requires
            dn * ta <= (sf + nb * lc) * dn,
            dn >= 1,
    ;
    let sb = sum_floor_bytes(logs, ms, bw, nb);
    let tb = total_bytes(logs);
    assert(sb <= tb) by (nonlinear_arith)
        requires
            sb * dn <= dn * tb,
            dn >= 1,
    ;
    assert(tb <= sb + nb * lc) by (nonlinear_arith)
        requires
            dn * tb <= (sb + nb * lc) * dn,
            dn >= 1,
    ;
}

} // verus!
