use nvmebench::{run_probe, ProbeConfig, ProbeOutcome, Prober};

fn four_thirds() -> ProbeConfig {
    ProbeConfig { warmup_buckets: 8, collapse_num: 4, collapse_den: 3 }
}

#[test]
fn detects_a_known_collapse_point() {
    // Constant bucket times until the cache is exhausted at bucket 12,
    // where the time per bucket jumps well past four thirds.
    let mut times: Vec<u64> = vec![100; 12];
    times.extend(vec![200; 8]);
    let r = run_probe(&times, four_thirds());
    assert_eq!(r, ProbeOutcome::Detected { bucket: 12 });
}

#[test]
fn constant_throughput_is_undetermined() {
    let times: Vec<u64> = vec![100; 64];
    assert_eq!(run_probe(&times, four_thirds()), ProbeOutcome::Undetermined);
}

#[test]
fn mild_jitter_below_the_threshold_is_tolerated() {
    // 100 -> 130 is below 4/3 (133.33); no stop.
    let times: Vec<u64> = vec![100, 130, 100, 130, 100, 130, 100, 130, 100, 130, 100, 130];
    assert_eq!(run_probe(&times, four_thirds()), ProbeOutcome::Undetermined);
    // 100 -> 134 is at/over 4/3; detected once warm.
    let times: Vec<u64> = vec![100, 100, 100, 100, 100, 100, 100, 100, 100, 134];
    assert_eq!(run_probe(&times, four_thirds()), ProbeOutcome::Detected { bucket: 9 });
}

#[test]
fn collapses_during_warmup_are_ignored() {
    // A huge jump at bucket 3 is start-up jitter: fewer than eight buckets
    // sampled, so the probe keeps going and fires only at the real jump.
    let times: Vec<u64> = vec![100, 100, 100, 900, 900, 900, 900, 900, 900, 2000];
    assert_eq!(run_probe(&times, four_thirds()), ProbeOutcome::Detected { bucket: 9 });
}

#[test]
fn the_threshold_is_tunable() {
    // A doubling rule (2/1) ignores the 4/3 jump a default prober reports.
    let mut times: Vec<u64> = vec![90; 12];
    times.extend(vec![135; 4]);
    let strict = ProbeConfig { warmup_buckets: 8, collapse_num: 2, collapse_den: 1 };
    assert_eq!(run_probe(&times, strict), ProbeOutcome::Undetermined);
    assert_eq!(run_probe(&times, four_thirds()), ProbeOutcome::Detected { bucket: 12 });
}

#[test]
fn online_prober_matches_the_batch_run() {
    let mut times: Vec<u64> = vec![100; 12];
    times.extend(vec![200; 8]);
    let mut p = Prober::new(four_thirds());
    let mut stopped_at = None;
    for (i, t) in times.iter().enumerate() {
        if p.observe(*t) {
            stopped_at = Some(i);
            break;
        }
    }
    assert_eq!(stopped_at, Some(12));
}
