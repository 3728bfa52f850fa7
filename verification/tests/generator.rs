use nvmebench::{construct_random_allocations, get_random_safe_start, zipf_allocations};
use nvmebench::construct_allocation_from_distribution;
use nvmebench::BenchErrorKind;
use rand::rngs::SmallRng;
use rand::SeedableRng;
use rand_distr::{Distribution, Zipf};
use std::collections::HashSet;

const BLOCK: u64 = 512;

#[test]
fn all_four_combinations_cover_every_block_once() {
    let num_blocks: usize = 64;
    let size = num_blocks * BLOCK as usize;
    let start = 10u64;
    for random_from in [false, true] {
        for random_to in [false, true] {
            let allocs =
                construct_random_allocations(size, 1000, BLOCK, random_from, random_to, 1, start)
                    .unwrap();
            assert_eq!(allocs.len(), num_blocks);

            let mut lbas = HashSet::new();
            let mut starts = HashSet::new();
            for a in &allocs {
                assert!(a.lba >= start && a.lba < start + num_blocks as u64);
                assert!(lbas.insert(a.lba), "repeated destination address");
                assert_eq!(a.stop - a.start, BLOCK as usize);
                assert!(a.stop <= size);
                assert!(starts.insert(a.start), "overlapping byte ranges");
            }
            if !random_to {
                for (i, a) in allocs.iter().enumerate() {
                    assert_eq!(a.lba, start + i as u64);
                }
            }
            if !random_from {
                for (i, a) in allocs.iter().enumerate() {
                    assert_eq!(a.start, i * BLOCK as usize);
                    assert_eq!(a.stop, (i + 1) * BLOCK as usize);
                }
            }
        }
    }
}

#[test]
fn shuffle_actually_permutes() {
    let num_blocks: usize = 256;
    let size = num_blocks * BLOCK as usize;
    let allocs =
        construct_random_allocations(size, 100000, BLOCK, true, true, 1, 0).unwrap();
    let sequential_dest = allocs.iter().enumerate().all(|(i, a)| a.lba == i as u64);
    let sequential_src =
        allocs.iter().enumerate().all(|(i, a)| a.start == i * BLOCK as usize);
    assert!(!sequential_dest, "destination shuffle left the order unchanged");
    assert!(!sequential_src, "source shuffle left the order unchanged");
}

#[test]
fn source_and_destination_shuffles_differ() {
    let num_blocks: usize = 256;
    let size = num_blocks * BLOCK as usize;
    let allocs =
        construct_random_allocations(size, 100000, BLOCK, true, true, 7, 0).unwrap();
    let paired = allocs
        .iter()
        .all(|a| a.lba as usize * BLOCK as usize == a.start);
    assert!(!paired, "the two permutations were identical");
}

#[test]
fn generator_is_deterministic_for_a_seed() {
    let size = 128 * BLOCK as usize;
    let a = construct_random_allocations(size, 4096, BLOCK, true, true, 42, 5).unwrap();
    let b = construct_random_allocations(size, 4096, BLOCK, true, true, 42, 5).unwrap();
    assert_eq!(a, b);
    let c = construct_random_allocations(size, 4096, BLOCK, true, true, 43, 5).unwrap();
    assert_ne!(a, c, "a different seed should give a different workload");
}

#[test]
fn oversized_workload_is_rejected() {
    let size = 64 * BLOCK as usize;
    let r = construct_random_allocations(size, 32, BLOCK, false, false, 1, 0);
    assert_eq!(r.unwrap_err(), BenchErrorKind::WorkloadDoesNotFit);
    // An unsafe start is rejected the same way.
    let r = construct_random_allocations(size, 70, BLOCK, false, false, 1, 10);
    assert_eq!(r.unwrap_err(), BenchErrorKind::WorkloadDoesNotFit);
    // The largest start that still fits is accepted.
    let r = construct_random_allocations(size, 70, BLOCK, false, false, 1, 6);
    assert!(r.is_ok());
}

#[test]
fn zipf_allocations_stay_in_the_hot_range() {
    let n: u64 = 4096;
    let k: usize = 64;
    let total = k * BLOCK as usize;
    let ram = 16 * BLOCK as usize;
    let start_lba = 1_000_000u64;

    let zipf = Zipf::new(n as f64, 1.0).unwrap();
    let mut rng = SmallRng::seed_from_u64(9);
    let draws: Vec<u64> = (0..k).map(|_| zipf.sample(&mut rng) as u64).collect();
    for d in &draws {
        assert!(*d >= 1 && *d <= n);
    }

    let allocs = zipf_allocations(total, ram, BLOCK, n, start_lba, &draws);
    assert_eq!(allocs.len(), k);
    for (i, a) in allocs.iter().enumerate() {
        assert!(a.lba >= start_lba && a.lba < start_lba + n);
        assert_eq!(a.lba, start_lba + draws[i] - 1);
        assert_eq!(a.start, (i * BLOCK as usize) % ram);
        assert_eq!(a.stop, a.start + BLOCK as usize);
        assert!(a.stop <= ram);
    }
}

#[test]
fn distribution_allocations_wrap_around_the_buffer() {
    let total = 8 * BLOCK as usize;
    let ram = 4 * BLOCK as usize;
    let draws: Vec<u64> = vec![3, 1, 4, 1, 5, 9, 2, 6];
    let allocs = construct_allocation_from_distribution(total, ram, BLOCK, &draws);
    assert_eq!(allocs.len(), 8);
    for (i, a) in allocs.iter().enumerate() {
        assert_eq!(a.lba, draws[i]);
        assert_eq!(a.start, (i % 4) * BLOCK as usize);
    }
}

#[test]
fn safe_start_respects_the_geometry() {
    // More blocks than the device has: no start exists.
    assert_eq!(get_random_safe_start(100 * BLOCK, 50, BLOCK), None);
    // Exactly the device: only block zero is safe.
    assert_eq!(get_random_safe_start(50 * BLOCK, 50, BLOCK), Some(0));
    // Smaller: any returned start leaves room for the whole transfer.
    for _ in 0..32 {
        let s = get_random_safe_start(10 * BLOCK, 50, BLOCK).unwrap();
        assert!(s + 10 <= 50);
    }
}
