use nvmebench::{Allocation, BatchDriver, BenchErrorKind, DriveFailure, DriverStep};

const BLOCK: u64 = 512;

fn one_block(lba: u64, slot: usize) -> Allocation {
    Allocation { lba, start: slot * BLOCK as usize, stop: (slot + 1) * BLOCK as usize }
}

/// Drives the state machine to completion against a fake queue pair that
/// accepts everything, and reports the highest in-flight count seen.
fn run_to_done(mut d: BatchDriver) -> (u64, u64) {
    let mut fake_in_flight: u64 = 0;
    let mut max_seen: u64 = 0;
    let mut completed: u64 = 0;
    loop {
        match d.next_step() {
            DriverStep::Submit { index } => {
                let a = d.alloc_at(index);
                let units = (a.stop - a.start) as u64 / BLOCK;
                fake_in_flight += units;
                max_seen = max_seen.max(fake_in_flight);
                d.on_submitted(units);
            }
            DriverStep::Skip { .. } => d.on_skipped(),
            DriverStep::Complete { count } => {
                fake_in_flight -= count;
                completed += count;
                d.on_completed(count);
            }
            DriverStep::Done => return (max_seen, completed),
            DriverStep::Aborted => panic!("run aborted unexpectedly"),
        }
    }
}

#[test]
fn in_flight_stays_below_the_queue_depth() {
    for (m, batch, depth) in [(200usize, 4u64, 8u64), (50, 64, 128), (7, 1, 4), (0, 2, 16)] {
        let allocs: Vec<Allocation> = (0..m).map(|i| one_block(i as u64, i)).collect();
        let d = BatchDriver::new(allocs, BLOCK, batch, depth).unwrap();
        let (max_seen, completed) = run_to_done(d);
        assert!(max_seen <= depth, "in-flight {max_seen} exceeded depth {depth}");
        assert_eq!(completed, m as u64, "every submitted operation must complete");
    }
}

#[test]
fn multi_block_allocations_respect_the_bound() {
    // Each allocation submits 4 operations at once.
    let allocs: Vec<Allocation> = (0..40u64)
        .map(|i| Allocation {
            lba: i * 4,
            start: 0,
            stop: 4 * BLOCK as usize,
        })
        .collect();
    let d = BatchDriver::new(allocs, BLOCK, 8, 12).unwrap();
    let (max_seen, completed) = run_to_done(d);
    assert!(max_seen <= 12);
    assert_eq!(completed, 160);
}

#[test]
fn zero_length_allocations_are_skipped() {
    let mut allocs: Vec<Allocation> = (0..10).map(|i| one_block(i as u64, i)).collect();
    allocs.insert(3, Allocation { lba: 99, start: 100, stop: 100 });
    allocs.insert(7, Allocation { lba: 98, start: 50, stop: 0 });
    let d = BatchDriver::new(allocs, BLOCK, 4, 8).unwrap();
    let (_, completed) = run_to_done(d);
    assert_eq!(completed, 10, "only the ten real allocations consume queue slots");
}

#[test]
fn a_rejected_submission_drains_and_aborts() {
    let allocs: Vec<Allocation> = (0..20).map(|i| one_block(i as u64, i)).collect();
    let mut d = BatchDriver::new(allocs, BLOCK, 4, 8).unwrap();
    let mut fake_in_flight: u64 = 0;
    let mut submissions = 0;
    loop {
        match d.next_step() {
            DriverStep::Submit { .. } => {
                if submissions == 6 {
                    // The hardware ring reports "not queued".
                    d.on_submitted(0);
                } else {
                    fake_in_flight += 1;
                    d.on_submitted(1);
                }
                submissions += 1;
            }
            DriverStep::Skip { .. } => d.on_skipped(),
            DriverStep::Complete { count } => {
                fake_in_flight -= count;
                d.on_completed(count);
            }
            DriverStep::Done => panic!("the run should abort, not finish"),
            DriverStep::Aborted => break,
        }
    }
    assert_eq!(fake_in_flight, 0, "the backlog must be drained before aborting");
    let failure = DriveFailure { resource: "queue pair", kind: BenchErrorKind::QueueFull };
    assert_eq!(failure.kind, BenchErrorKind::QueueFull);
    assert_eq!(failure.resource, "queue pair");
}

#[test]
fn impossible_configurations_are_rejected() {
    let allocs: Vec<Allocation> = (0..4).map(|i| one_block(i as u64, i)).collect();
    // Queue not deeper than the threshold.
    let r = BatchDriver::new(allocs.clone(), BLOCK, 8, 8);
    assert_eq!(r.err().unwrap(), BenchErrorKind::InvalidConfig);
    // Zero batch threshold.
    let r = BatchDriver::new(allocs.clone(), BLOCK, 0, 8);
    assert_eq!(r.err().unwrap(), BenchErrorKind::InvalidConfig);
    // An allocation too large for the window above the threshold.
    let big = vec![Allocation { lba: 0, start: 0, stop: 32 * BLOCK as usize }];
    let r = BatchDriver::new(big, BLOCK, 4, 8);
    assert_eq!(r.err().unwrap(), BenchErrorKind::InvalidConfig);
    // An allocation that is not a whole number of blocks.
    let ragged = vec![Allocation { lba: 0, start: 0, stop: 700 }];
    let r = BatchDriver::new(ragged, BLOCK, 4, 8);
    assert_eq!(r.err().unwrap(), BenchErrorKind::InvalidConfig);
}
