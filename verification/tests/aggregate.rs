use nvmebench::{combine_results, IoLog};

fn log(start: u64, end: u64, actions: u64, bytes: u64) -> IoLog {
    IoLog { start, end, actions, cumulative_size: bytes }
}

#[test]
fn one_log_split_thirty_seventy() {
    // One 1000 us log over 700 us buckets: 70% in the first bucket,
    // 30% in the second, exact because the shares divide evenly.
    let results = vec![vec![log(0, 1000, 100, 8000)]];
    let buckets = combine_results(&results, 700);
    assert_eq!(buckets.len(), 2);
    assert_eq!(buckets[0].actions, 70);
    assert_eq!(buckets[1].actions, 30);
    assert_eq!(buckets[0].bytes, 5600);
    assert_eq!(buckets[1].bytes, 2400);
    assert!((buckets[0].actions as f64 - 70.0).abs() < 1e-9);
    assert!((buckets[1].actions as f64 - 30.0).abs() < 1e-9);
}

#[test]
fn totals_are_conserved_within_the_flooring_bound() {
    // Several overlapping logs of different durations; the bucketed
    // values never over-count, and under-count by less than one unit per
    // live log per bucket.
    let results = vec![
        vec![log(0, 1000, 100, 8000), log(1000, 1300, 7, 700)],
        vec![log(250, 2250, 40, 4000)],
        vec![],
        vec![log(500, 500, 999, 99999)],  // degenerate: skipped
    ];
    let buckets = combine_results(&results, 300);
    assert_eq!(buckets.len(), 8);  // ceil(2250 / 300)
    let live = 3u128;
    let actions_sum: u128 = buckets.iter().map(|b| b.actions).sum();
    let bytes_sum: u128 = buckets.iter().map(|b| b.bytes).sum();
    let total_actions = 100 + 7 + 40;
    let total_bytes = 8000 + 700 + 4000;
    assert!(actions_sum <= total_actions);
    assert!(total_actions <= actions_sum + buckets.len() as u128 * live);
    assert!(bytes_sum <= total_bytes);
    assert!(total_bytes <= bytes_sum + buckets.len() as u128 * live);
}

#[test]
fn evenly_divisible_logs_are_conserved_exactly() {
    // Every per-bucket share divides evenly, so nothing is floored away.
    let results = vec![vec![log(0, 1000, 100, 8000)], vec![log(0, 2000, 40, 4000)]];
    let buckets = combine_results(&results, 500);
    assert_eq!(buckets.len(), 4);
    let actions_sum: u128 = buckets.iter().map(|b| b.actions).sum();
    let bytes_sum: u128 = buckets.iter().map(|b| b.bytes).sum();
    assert_eq!(actions_sum, 140);
    assert_eq!(bytes_sum, 12000);
    assert_eq!(buckets[0].actions, 50 + 10);
    assert_eq!(buckets[1].actions, 50 + 10);
    assert_eq!(buckets[2].actions, 10);
    assert_eq!(buckets[3].actions, 10);
}

#[test]
fn three_workers_two_buckets() {
    // Three workers, one log each of (0 ms, 10 ms, 10 actions, 81920
    // bytes), merged with 5 ms buckets: two buckets of (15, 122880) each.
    let one = vec![log(0, 10_000, 10, 81920)];
    let results = vec![one.clone(), one.clone(), one];
    let buckets = combine_results(&results, 5_000);
    assert_eq!(buckets.len(), 2);
    for b in &buckets {
        assert_eq!(b.actions, 15);
        assert_eq!(b.bytes, 122_880);
        assert!((b.actions as f64 - 15.0).abs() < 1e-9);
        assert!((b.bytes as f64 - 122_880.0).abs() < 1e-9);
    }
}

#[test]
fn many_logs_merge_without_failing() {
    // A realistic cell: thousands of logs across many workers still merge
    // (the flooring scheme never runs out of arithmetic).
    let mut results = Vec::new();
    for w in 0..32u64 {
        let mut worker = Vec::new();
        for s in 0..500u64 {
            let start = w * 13 + s * 1000;
            worker.push(log(start, start + 997, 64, 512 * 64));
        }
        results.push(worker);
    }
    let buckets = combine_results(&results, 1000);
    assert!(!buckets.is_empty());
    let total: u128 = 32 * 500 * 64;
    let live: u128 = 32 * 500;
    let actions_sum: u128 = buckets.iter().map(|b| b.actions).sum();
    assert!(actions_sum <= total);
    assert!(total <= actions_sum + buckets.len() as u128 * live);
    // Nothing floored away exceeds one unit per live log per bucket, so
    // the bulk of the weight is still accounted for.
    assert!(actions_sum > total / 2);
}

#[test]
fn empty_input_gives_no_buckets() {
    let buckets = combine_results(&Vec::new(), 1000);
    assert!(buckets.is_empty());
    let buckets = combine_results(&vec![Vec::new(), Vec::new()], 1000);
    assert!(buckets.is_empty());
}

#[test]
fn degenerate_logs_widen_the_span_but_carry_nothing() {
    // The degenerate log at 2000 us stretches the span to two buckets but
    // contributes no actions.
    let results = vec![vec![log(0, 1000, 50, 500), log(2000, 2000, 123, 456)]];
    let buckets = combine_results(&results, 1000);
    assert_eq!(buckets.len(), 2);
    assert_eq!(buckets[0].actions, 50);
    assert_eq!(buckets[1].actions, 0);
    assert_eq!(buckets[1].bytes, 0);
}

#[test]
fn a_log_covering_many_buckets_spreads_evenly() {
    let results = vec![vec![log(0, 10_000, 100, 1000)]];
    let buckets = combine_results(&results, 1_000);
    assert_eq!(buckets.len(), 10);
    for b in &buckets {
        assert_eq!(b.actions, 10);
        assert_eq!(b.bytes, 100);
    }
}
