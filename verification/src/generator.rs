//! Address/Allocation generation: maps a workload description (pattern,
//! size, device geometry) to an ordered sequence of [`Allocation`]s.

use vstd::prelude::*;
use vstd::seq_lib::*;
use crate::types::{Allocation, BenchErrorKind};
use rand::rngs::Xoshiro256PlusPlus;
use rand::seq::SliceRandom;
use rand::Rng;
use rand::SeedableRng;

verus! {

/// The permutation that the seeded shuffle produces for a given seed and
/// input: a fixed function of the two, so that generation is repeatable.
pub uninterp spec fn shuffled(seed: u64, v: Seq<u64>) -> Seq<u64>;

/// Relies on `rand::seq::SliceRandom::shuffle` driven by the fixed
/// `Xoshiro256PlusPlus` generator seeded with `seed_from_u64`: the shuffle
/// rearranges the slice into a permutation of itself, and with the fixed
/// generator the result depends on the seed and the input alone.
#[verifier::external_body]
fn shuffle_seeded(seed: u64, v: Vec<u64>) -> (r: Vec<u64>)
    ensures
        r@ == shuffled(seed, v@),
        r@.to_multiset() == v@.to_multiset(),
{
    let mut v = v;
    let mut rng = Xoshiro256PlusPlus::seed_from_u64(seed);
    v.shuffle(&mut rng);
    v
}

/// Relies on `rand::rng` (the thread-local generator): some unsigned value;
/// nothing is assumed about which.
#[verifier::external_body]
fn random_u64() -> u64 {
    rand::rng().next_u64()
}

/// The seed used for the source-range permutation, kept distinct from the
/// destination permutation's seed so the two shuffles are independent.
pub open spec fn source_seed(seed: u64) -> u64 {
    ((seed + 1) % (u64::MAX as int + 1)) as u64
}

/// The ascending sequence `start, start + 1, ..., start + n - 1`.
pub open spec fn block_run(start: u64, n: int) -> Seq<u64>
    recommends
        0 <= n,
        start + n <= u64::MAX + 1,
{
    Seq::new(n as nat, |i: int| (start + i) as u64)
}

/// Destination addresses of the fully-random pattern: the block run from
/// `start`, shuffled when the destination knob is set.
pub open spec fn dest_lbas(n: int, random_to: bool, seed: u64, start: u64) -> Seq<u64> {
    if random_to {
        shuffled(seed, block_run(start, n))
    } else {
        block_run(start, n)
    }
}

/// Source buffer slots of the fully-random pattern: block indices
/// `0..n`, shuffled when the source knob is set.
pub open spec fn source_slots(n: int, random_from: bool, seed: u64) -> Seq<u64> {
    if random_from {
        shuffled(source_seed(seed), block_run(0, n))
    } else {
        block_run(0, n)
    }
}

/// The full allocation sequence of the fully-random pattern, as a function
/// of the parameters alone: pairing the destination addresses with the
/// source byte ranges element-wise.
pub open spec fn random_allocations(
    size: usize,
    block_size: u64,
    random_from: bool,
    random_to: bool,
    seed: u64,
    start: u64,
) -> Seq<Allocation> {
    let n = size as int / block_size as int;
    let dest = dest_lbas(n, random_to, seed, start);
    let slots = source_slots(n, random_from, seed);
    Seq::new(n as nat, |i: int| Allocation {
        lba: dest[i],
        start: (slots[i] * block_size) as usize,
        stop: ((slots[i] + 1) * block_size) as usize,
    })
}

proof fn lemma_run_no_duplicates(start: u64, n: int)
    requires
        0 <= n,
        start + n <= u64::MAX + 1,
    ensures
        block_run(start, n).no_duplicates(),
        forall|x: u64| block_run(start, n).to_multiset().count(x) <= 1,
        forall|x: u64|
            block_run(start, n).to_multiset().count(x) > 0 ==> start <= x < start + n,
{
    let s = block_run(start, n);
    assert(s.no_duplicates());
    s.lemma_multiset_has_no_duplicates();
    broadcast use vstd::seq_lib::group_to_multiset_ensures;

    assert forall|x: u64| s.to_multiset().count(x) > 0 implies start <= x < start + n by {
        assert(s.contains(x));
        let i = choose|i: int| 0 <= i < s.len() && s[i] == x;
        assert(s[i] == (start + i) as u64);
    }
    assert forall|x: u64| s.to_multiset().count(x) <= 1 by {
        if s.to_multiset().count(x) > 0 {
            assert(s.to_multiset().contains(x));
        }
    }
}

/// A shuffled copy of a duplicate-free run keeps every value exactly once:
/// the result has no repeats and ranges over the same values.
proof fn lemma_perm_of_run(s: Seq<u64>, start: u64, n: int)
    requires
        0 <= n,
        start + n <= u64::MAX + 1,
        s.to_multiset() == block_run(start, n).to_multiset(),
    ensures
        s.len() == n,
        s.no_duplicates(),
        forall|i: int| 0 <= i < s.len() ==> start <= #[trigger] s[i] < start + n,
{
    broadcast use vstd::seq_lib::group_to_multiset_ensures;

    lemma_run_no_duplicates(start, n);
    assert(block_run(start, n).len() == n);
    assert(s.len() == s.to_multiset().len());
    assert(block_run(start, n).to_multiset().len() == n);
    s.lemma_multiset_has_no_duplicates_conv();
    assert forall|i: int| 0 <= i < s.len() implies start <= #[trigger] s[i] < start + n by {
        assert(s.contains(s[i]));
        assert(s.to_multiset().count(s[i]) > 0);
    }
}

/// A slot below `n` starts a block-sized range that stays within the first
/// `n * bs <= size` bytes of the buffer.
proof fn lemma_slot_start_in_range(s: int, n: int, bs: int, size: int)
    requires
        0 <= s < n,
        bs >= 1,
        n * bs <= size,
    ensures
        0 <= s * bs,
        s * bs + bs <= size,
        (s + 1) * bs == s * bs + bs,
{
    assert(0 <= s * bs && (s + 1) * bs <= n * bs && (s + 1) * bs == s * bs + bs)
        by (nonlinear_arith)
        requires
            0 <= s,
            s + 1 <= n,
            bs >= 1,
    ;
}

/// Builds the ascending block run `start..start + n` as a vector.
fn build_block_run(start: u64, n: usize) -> (r: Vec<u64>)
    requires
        start + n <= u64::MAX + 1,
    ensures
        r@ == block_run(start, n as int),
{
    let mut r: Vec<u64> = Vec::new();
    let mut i: usize = 0;
    while i < n
        invariant
            i <= n,
            start + n <= u64::MAX + 1,
            r@ == block_run(start, i as int),
        decreases n - i,
    {
        r.push(start + i as u64);
        proof {
            assert(r@ =~= block_run(start, i + 1));
        }
        i = i + 1;
    }
    r
}

/// The fully-random address pattern: one allocation per block of `size`,
/// with the destination addresses and the source byte ranges each either
/// ascending or permuted by its own seeded shuffle, paired element-wise.
///
/// Exactly `size / block_size` allocations come back; the destination
/// addresses are the blocks `start..start + num_blocks`, each exactly once,
/// and the byte ranges are the block-aligned ranges of a `size`-byte
/// buffer, each exactly once.  The whole sequence is a fixed function of
/// the parameters, so a repeated call with the same seed yields the same
/// workload.
pub fn construct_random_allocations(
    size: usize,
    max_block_amount: u64,
    block_size: u64,
    random_from: bool,
    random_to: bool,
    seed: u64,
    start: u64,
) -> (r: Result<Vec<Allocation>, BenchErrorKind>)
    requires
        block_size >= 1,
    ensures
        r is Err <==> start + size as int / block_size as int > max_block_amount,
        r matches Err(e) ==> e == BenchErrorKind::WorkloadDoesNotFit,
        r matches Ok(v) ==> {
            let n = size as int / block_size as int;
            &&& v@ == random_allocations(size, block_size, random_from, random_to, seed, start)
            &&& v@.len() == n
            &&& forall|i: int|
                0 <= i < n ==> start <= #[trigger] v@[i].lba < start + n
            &&& forall|i: int, j: int|
                0 <= i < n && 0 <= j < n && i != j ==> v@[i].lba != v@[j].lba
            &&& forall|i: int|
                0 <= i < n ==> #[trigger] v@[i].stop == v@[i].start + block_size
                    && v@[i].stop <= size
            &&& forall|i: int, j: int|
                0 <= i < n && 0 <= j < n && i != j ==> v@[i].start != v@[j].start
            &&& forall|i: int|
                0 <= i < n ==> #[trigger] v@[i].start == source_slots(n, random_from, seed)[i]
                    * block_size
            &&& source_slots(n, random_from, seed).to_multiset() == block_run(0, n)
                .to_multiset()
            &&& forall|i: int|
                0 <= i < n ==> #[trigger] v@[i].lba == dest_lbas(n, random_to, seed, start)[i]
            &&& dest_lbas(n, random_to, seed, start).to_multiset() == block_run(start, n)
                .to_multiset()
            &&& !random_to ==> forall|i: int| 0 <= i < n ==> #[trigger] v@[i].lba == start + i
            &&& !random_from ==> forall|i: int|
                0 <= i < n ==> #[trigger] v@[i].start == i * block_size
                    && v@[i].stop == (i + 1) * block_size
        },
{
    let num_blocks_wide = size as u64 / block_size;
    if start as u128 + num_blocks_wide as u128 > max_block_amount as u128 {
        return Err(BenchErrorKind::WorkloadDoesNotFit);
    }
    let num_blocks = num_blocks_wide as usize;
    proof {
        assert(num_blocks_wide <= size);
        assert(num_blocks as int == size as int / block_size as int);
        assert(num_blocks as int * block_size as int <= size as int)
            by (nonlinear_arith)
            requires
                block_size >= 1,
                num_blocks as int == size as int / block_size as int,
        ;
    }
    let ghost n = num_blocks as int;

    let mut dest = build_block_run(start, num_blocks);
    if random_to {
        dest = shuffle_seeded(seed, dest);
    }
    let mut slots = build_block_run(0, num_blocks);
    if random_from {
        let source_seed_val = if seed == u64::MAX {
            0u64
        } else {
            seed + 1
        };
        assert(source_seed_val == source_seed(seed));
        slots = shuffle_seeded(source_seed_val, slots);
    }
    proof {
        if !random_to {
            block_run(start, n).lemma_multiset_has_no_duplicates();
        }
        lemma_perm_of_run(dest@, start, n);
        lemma_perm_of_run(slots@, 0, n);
        assert(dest@ == dest_lbas(n, random_to, seed, start));
        assert(slots@ == source_slots(n, random_from, seed));
    }

    let mut v: Vec<Allocation> = Vec::new();
    let mut i: usize = 0;
    while i < num_blocks
        invariant
            i <= num_blocks,
            block_size >= 1,
            num_blocks as int == size as int / block_size as int,
            num_blocks as int * block_size as int <= size as int,
            dest@ == dest_lbas(num_blocks as int, random_to, seed, start),
            slots@ == source_slots(num_blocks as int, random_from, seed),
            dest@.len() == num_blocks,
            slots@.len() == num_blocks,
            forall|k: int| 0 <= k < num_blocks ==> 0 <= #[trigger] slots@[k] < num_blocks,
            v@ == random_allocations(size, block_size, random_from, random_to, seed, start)
                .take(i as int),
        decreases num_blocks - i,
    {
        let slot = slots[i];
        proof {
            assert(slot < num_blocks);
            assert(slot as int * block_size as int >= 0 && (slot as int + 1) * block_size as int
                <= num_blocks as int * block_size as int && (slot as int * block_size as int)
                < ((slot as int + 1) * block_size as int)) by (nonlinear_arith)
                requires
                    0 <= slot as int,
                    slot as int + 1 <= num_blocks as int,
                    block_size >= 1,
            ;
        }
        let a = Allocation {
            lba: dest[i],
            start: (slot * block_size) as usize,
            stop: ((slot + 1) * block_size) as usize,
        };
        v.push(a);
        proof {
            let full = random_allocations(size, block_size, random_from, random_to, seed, start);
            assert(a == full[i as int]);
            assert(v@ =~= full.take(i + 1));
        }
        i = i + 1;
    }
    proof {
        let full = random_allocations(size, block_size, random_from, random_to, seed, start);
        assert(v@ =~= full);
        lemma_perm_of_run(dest_lbas(n, random_to, seed, start), start, n);
        lemma_perm_of_run(source_slots(n, random_from, seed), 0, n);
        let bs = block_size as int;
        let slots_seq = source_slots(n, random_from, seed);
        assert forall|i: int| 0 <= i < n implies {
            &&& #[trigger] v@[i].stop == v@[i].start + block_size
            &&& v@[i].stop <= size
            &&& v@[i].start == slots_seq[i] * bs
        } by {
            let s = slots_seq[i];
            assert(0 <= s < n);
            assert(0 <= s * bs && s * bs + bs <= n * bs && (s + 1) * bs == s * bs + bs)
                by (nonlinear_arith)
                requires
                    0 <= s,
                    s + 1 <= n,
                    bs >= 1,
            ;
            assert(n * bs <= size);
        }
        assert forall|i: int|
            0 <= i < n implies #[trigger] v@[i].start == slots_seq[i] * bs by {
            lemma_slot_start_in_range(slots_seq[i] as int, n, bs, size as int);
        }
        assert forall|i: int, j: int|
            0 <= i < n && 0 <= j < n && i != j implies v@[i].start != v@[j].start by {
            assert(v@[i].start == slots_seq[i] * bs);
            assert(v@[j].start == slots_seq[j] * bs);
            assert(slots_seq[i] != slots_seq[j]);
            assert(slots_seq[i] * bs != slots_seq[j] * bs) by (nonlinear_arith)
                requires
                    slots_seq[i] != slots_seq[j],
                    bs >= 1,
                    slots_seq[i] >= 0,
                    slots_seq[j] >= 0,
            ;
        }
        if !random_from {
            assert forall|i: int| 0 <= i < n implies #[trigger] v@[i].start == i * bs
                && v@[i].stop == (i + 1) * bs by {
                assert(slots_seq[i] == i);
                assert(v@[i].start == slots_seq[i] * bs);
                assert(v@[i].stop == v@[i].start + bs);
                assert(i * bs + bs == (i + 1) * bs) by (nonlinear_arith);
            }
        }
    }
    Ok(v)
}

/// Repeatability of the fully-random pattern: the generated sequence is a
/// function of the parameters alone, so two runs of
/// [`construct_random_allocations`] with the same seed and parameters yield
/// identical allocation sequences.
pub proof fn lemma_generator_deterministic(
    a: Seq<Allocation>,
    b: Seq<Allocation>,
    size: usize,
    block_size: u64,
    random_from: bool,
    random_to: bool,
    seed: u64,
    start: u64,
)
    requires
        a == random_allocations(size, block_size, random_from, random_to, seed, start),
        b == random_allocations(size, block_size, random_from, random_to, seed, start),
    ensures
        a == b,
{
}

/// One allocation per drawn address: operation `i` targets the `i`-th draw
/// and the block-sized byte range at offset `i * block_size`, wrapping
/// around the buffer of `ram_size` bytes when the transfer is larger than
/// the buffer.
pub fn construct_allocation_from_distribution(
    total_size: usize,
    ram_size: usize,
    block_size: u64,
    draws: &Vec<u64>,
) -> (r: Vec<Allocation>)
    requires
        block_size >= 1,
        block_size <= ram_size,
        ram_size as int % block_size as int == 0,
        draws@.len() >= total_size as int / block_size as int,
    ensures
        r@.len() == total_size as int / block_size as int,
        forall|i: int| 0 <= i < r@.len() ==> #[trigger] r@[i].lba == draws@[i],
        forall|i: int|
            0 <= i < r@.len() ==> #[trigger] r@[i].start
                == (i * block_size) % ram_size as int,
        forall|i: int|
            0 <= i < r@.len() ==> #[trigger] r@[i].stop == r@[i].start + block_size
                && r@[i].stop <= ram_size,
{
    let bs = block_size as usize;
    let n_ops = total_size / bs;
    let blocks_per_buffer = ram_size / bs;
    proof {
        vstd::arithmetic::div_mod::lemma_fundamental_div_mod(ram_size as int, bs as int);
        assert(ram_size as int == bs as int * blocks_per_buffer as int);
        assert(bs as int * blocks_per_buffer as int == blocks_per_buffer as int * bs as int)
            by (nonlinear_arith);
    }
    let mut r: Vec<Allocation> = Vec::new();
    let mut i: usize = 0;
    while i < n_ops
        invariant
            i <= n_ops,
            bs == block_size,
            bs >= 1,
            bs <= ram_size,
            ram_size as int % bs as int == 0,
            blocks_per_buffer as int == ram_size as int / bs as int,
            ram_size as int == blocks_per_buffer as int * bs as int,
            n_ops as int == total_size as int / block_size as int,
            draws@.len() >= n_ops,
            r@.len() == i,
            forall|k: int| 0 <= k < i ==> #[trigger] r@[k].lba == draws@[k],
            forall|k: int|
                0 <= k < i ==> #[trigger] r@[k].start == (k * block_size) % ram_size as int,
            forall|k: int|
                0 <= k < i ==> #[trigger] r@[k].stop == r@[k].start + block_size
                    && r@[k].stop <= ram_size,
        decreases n_ops - i,
    {
        proof {
            lemma_block_offset_in_buffer(i as int, bs as int, ram_size as int);
            assert((i as int % blocks_per_buffer as int) * bs as int
                == (i as int * bs as int) % ram_size as int);
            assert((i as int % blocks_per_buffer as int) * bs as int + bs as int
                <= ram_size as int) by (nonlinear_arith)
                requires
                    0 <= (i as int % blocks_per_buffer as int)
                        < (blocks_per_buffer as int),
                    bs >= 1,
                    ram_size as int == blocks_per_buffer as int * bs as int,
            ;
        }
        let start = (i % blocks_per_buffer) * bs;
        let stop = start + bs;
        r.push(Allocation { lba: draws[i], start, stop });
        i = i + 1;
    }
    r
}

/// A block-aligned offset wrapped modulo a buffer that is a whole number of
/// blocks stays block-aligned, so a block starting there lies inside the
/// buffer.
proof fn lemma_block_offset_in_buffer(i: int, bs: int, ram: int)
    requires
        1 <= bs <= ram,
        ram % bs == 0,
        0 <= i,
    ensures
        0 <= (i * bs) % ram,
        (i * bs) % ram + bs <= ram,
        (i * bs) % ram == (i % (ram / bs)) * bs,
{
    let q = ram / bs;
    vstd::arithmetic::div_mod::lemma_fundamental_div_mod(ram, bs);
    assert(ram == q * bs);
    vstd::arithmetic::div_mod::lemma_fundamental_div_mod(i, q);
    let d = i / q;
    let m = i % q;
    assert(i == q * d + m);
    assert(0 <= m < q) by {
        vstd::arithmetic::div_mod::lemma_mod_bound(i, q);
    }
    assert(i * bs == (q * bs) * d + m * bs) by (nonlinear_arith)
        requires
            i == q * d + m,
    ;
    assert(0 <= m * bs && m * bs + bs <= q * bs) by (nonlinear_arith)
        requires
            0 <= m < q,
            bs >= 1,
    ;
    vstd::arithmetic::div_mod::lemma_fundamental_div_mod_converse(i * bs, ram, d, m * bs);
    assert((i * bs) % ram == m * bs);
}

/// The Zipf-skewed pattern: one allocation per draw from a Zipf
/// distribution over `population` hot blocks, offset by a safe start.
/// A draw `d` (in `1..=population`) targets block `start_lba + d - 1`, so
/// every address lies in `start_lba..start_lba + population`; repeated hot
/// addresses are expected and intentional.
pub fn zipf_allocations(
    total_size: usize,
    ram_size: usize,
    block_size: u64,
    population: u64,
    start_lba: u64,
    draws: &Vec<u64>,
) -> (r: Vec<Allocation>)
    requires
        block_size >= 1,
        block_size <= ram_size,
        ram_size as int % block_size as int == 0,
        draws@.len() >= total_size as int / block_size as int,
        forall|i: int| 0 <= i < draws@.len() ==> 1 <= #[trigger] draws@[i] <= population,
        start_lba + population <= u64::MAX + 1,
    ensures
        r@.len() == total_size as int / block_size as int,
        forall|i: int|
            0 <= i < r@.len() ==> #[trigger] r@[i].lba == start_lba + draws@[i] - 1,
        forall|i: int|
            0 <= i < r@.len() ==> start_lba <= #[trigger] r@[i].lba < start_lba + population,
        forall|i: int|
            0 <= i < r@.len() ==> #[trigger] r@[i].start == (i * block_size) % ram_size as int
                && r@[i].stop == r@[i].start + block_size
                && r@[i].stop <= ram_size,
{
    let mut r = construct_allocation_from_distribution(total_size, ram_size, block_size, draws);
    let n = r.len();
    let mut i: usize = 0;
    while i < n
        invariant
            i <= n,
            n == r@.len(),
            n <= draws@.len(),
            forall|k: int| 0 <= k < draws@.len() ==> 1 <= #[trigger] draws@[k] <= population,
            start_lba + population <= u64::MAX + 1,
            forall|k: int| i <= k < n ==> #[trigger] r@[k].lba == draws@[k],
            forall|k: int| 0 <= k < i ==> #[trigger] r@[k].lba == start_lba + draws@[k] - 1,
            forall|k: int|
                0 <= k < n ==> #[trigger] r@[k].start == (k * block_size) % ram_size as int
                    && r@[k].stop == r@[k].start + block_size
                    && r@[k].stop <= ram_size,
        decreases n - i,
    {
        let lba = r[i].lba;
        let byte_start = r[i].start;
        let byte_stop = r[i].stop;
        r.set(i, Allocation { lba: start_lba + (lba - 1), start: byte_start, stop: byte_stop });
        i = i + 1;
    }
    r
}

/// A start address from which `op_size` bytes of blocks fit on the device:
/// `Some` exactly when the transfer fits at all, and then a start with
/// `start + op_size / block_size <= max_blocks` — strictly below when the
/// transfer is smaller than the device.  The choice of start is random and
/// nothing more is promised of it.
pub fn get_random_safe_start(op_size: u64, max_blocks: u64, block_size: u64) -> (r: Option<u64>)
    requires
        block_size >= 1,
    ensures
        r is Some <==> op_size as int / block_size as int <= max_blocks,
        r matches Some(s) ==> s + op_size as int / block_size as int <= max_blocks,
        r matches Some(s) ==> ((op_size as int / block_size as int) < max_blocks ==> (s
            + op_size as int / block_size as int) < max_blocks),
{
    let num_blocks = op_size / block_size;
    if num_blocks > max_blocks {
        None
    } else if num_blocks == max_blocks {
        Some(0)
    } else {
        Some(random_u64() % (max_blocks - num_blocks))
    }
}

} // verus!
