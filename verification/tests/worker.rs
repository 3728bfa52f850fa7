use nvmebench::{
    clamped_max_write, effective_io_size, sample_step_size, worker_start_block, BenchErrorKind,
    CacheWorker,
};

#[test]
fn io_size_is_capped_and_block_aligned() {
    // Page 2 MiB, blocks 512: a huge request is capped one block below the
    // page and rounded down to a block multiple.
    let hp = 2 * 1024 * 1024;
    assert_eq!(effective_io_size(8 * 1024 * 1024, 512, hp), hp - 512);
    assert_eq!(effective_io_size(8192, 512, hp), 8192);
    assert_eq!(effective_io_size(1000, 512, hp), 512);
    assert_eq!(effective_io_size(100, 512, hp), 0);
}

#[test]
fn step_size_scales_with_the_transfer() {
    assert_eq!(sample_step_size(8192, 8192, 32), 32);
    assert_eq!(sample_step_size(1024 * 1024, 8192, 32), 4096);
    // Below one unit the floor of one transfer applies.
    assert_eq!(sample_step_size(100, 8192, 32), 32);
}

#[test]
fn byte_budget_is_clamped_to_half_the_device() {
    let max_blocks = 1000;
    let bs = 512;
    let device = max_blocks * bs;
    assert_eq!(clamped_max_write(0, 4096, max_blocks, bs), 4096);
    assert_eq!(clamped_max_write(100_000, 4096, max_blocks, bs), 100_000);
    assert_eq!(clamped_max_write(device, 4096, max_blocks, bs), device / 2);
    assert_eq!(clamped_max_write(device + 5, 4096, max_blocks, bs), device / 2);
    assert_eq!(clamped_max_write(0, device + 1, max_blocks, bs), device / 2);
}

#[test]
fn workers_get_disjoint_slices() {
    let per_worker = 64 * 8192;
    let a = worker_start_block(per_worker, 8192, 0);
    let b = worker_start_block(per_worker, 8192, 1);
    let c = worker_start_block(per_worker, 8192, 2);
    assert_eq!(a, 0);
    assert_eq!(b, 64);
    assert_eq!(c, 128);
}

#[test]
fn a_worker_samples_every_step_and_addresses_climb() {
    // 8 transfers of 1024 bytes (2 blocks each), batch 4, a sample per 3
    // completions.
    let mut w = CacheWorker::new(1024, 512, 4, 3, 8192, 100, 10_000, 0).unwrap();
    let mut clock = 0u64;
    let mut submitted = 0u64;
    let mut drained = 0u64;
    let mut expected_lba = 100u64;
    while w.has_more() {
        let lba = w.next_lba();
        assert_eq!(lba, expected_lba);
        expected_lba += 2;
        w.on_submitted(2);
        submitted += 2;
        let due = w.completions_due();
        if due > 0 {
            w.on_completed(due);
            drained += due;
        }
        clock += 10;
        if w.sample_due() {
            w.take_sample(clock);
        }
    }
    // Drain the leftover in-flight operations before closing the run.
    let leftover = submitted - drained;
    if leftover > 0 {
        w.on_completed(leftover);
        drained += leftover;
    }
    let logs = w.into_logs();
    assert!(!logs.is_empty());
    let counted: u64 = logs.iter().map(|l| l.actions).sum();
    assert!(counted <= drained);
    assert_eq!(submitted, 16);
    for l in &logs {
        assert!(l.end >= l.start);
        assert_eq!(l.cumulative_size, l.actions * 1024);
    }
}

#[test]
fn a_rejected_submission_still_advances_the_run() {
    let mut w = CacheWorker::new(1024, 512, 4, 3, 4096, 0, 10_000, 0).unwrap();
    let mut outstanding = 0u64;
    assert!(w.has_more());
    w.on_submitted(0);
    for _ in 0..3 {
        assert!(w.has_more());
        w.on_submitted(2);
        outstanding += 2;
        let due = w.completions_due();
        if due > 0 {
            w.on_completed(due);
            outstanding -= due;
        }
    }
    assert!(!w.has_more());
    if outstanding > 0 {
        w.on_completed(outstanding);
    }
}

#[test]
fn a_slice_past_the_device_is_rejected() {
    // 16 transfers of 2 blocks from block 100 need blocks up to 132.
    let r = CacheWorker::new(1024, 512, 4, 3, 16 * 1024, 100, 131, 0);
    assert_eq!(r.err().unwrap(), BenchErrorKind::WorkloadDoesNotFit);
    assert!(CacheWorker::new(1024, 512, 4, 3, 16 * 1024, 100, 132, 0).is_ok());
}
