//! Verified core of a block-storage micro-benchmark engine.
//!
//! The crate models workloads for a queue-pair based storage device:
//! it generates address/allocation sequences, plans batched submission
//! and completion of I/O operations under a bounded in-flight window,
//! drives an adaptive cache-size probe, and merges per-worker timing
//! logs into uniform time buckets.  Everything that touches hardware,
//! clocks or threads lives outside this crate; the logic here is pure
//! and carries contracts.

mod aggregate;
mod driver;
mod generator;
mod pool;
mod probe;
mod text;
mod types;
mod worker;

pub use aggregate::Bucket;
pub use aggregate::actions_num_of;
pub use aggregate::bytes_num_of;
pub use aggregate::combine_results;
pub use aggregate::bucket_actions_of;
pub use aggregate::bucket_bytes_of;
pub use aggregate::den_of;
pub use aggregate::flat_logs;
pub use aggregate::lemma_aggregation_conserves_actions;
pub use aggregate::lemma_merged_conserves_actions;
pub use aggregate::lemma_bucket_within_live_count;
pub use aggregate::lemma_overlap_partition;
pub use aggregate::live_count;
pub use aggregate::logs_ordered;
pub use aggregate::max_end_of;
pub use aggregate::merged_correct;
pub use aggregate::min_start_of;
pub use aggregate::num_buckets_of;
pub use aggregate::overlap_amount;
pub use aggregate::sum_actions_nums;
pub use aggregate::sum_bucket_actions;
pub use aggregate::sum_bucket_bytes;
pub use aggregate::sum_bytes_nums;
pub use aggregate::sum_floor_actions;
pub use aggregate::sum_floor_bytes;
pub use aggregate::sum_overlaps;
pub use aggregate::total_actions;
pub use aggregate::total_bytes;
pub use aggregate::worker_views;
pub use driver::BatchDriver;
pub use driver::DriverStep;
pub use driver::config_accepted;
pub use generator::block_run;
pub use generator::construct_allocation_from_distribution;
pub use generator::construct_random_allocations;
pub use generator::dest_lbas;
pub use generator::get_random_safe_start;
pub use generator::lemma_generator_deterministic;
pub use generator::random_allocations;
pub use generator::shuffled;
pub use generator::source_seed;
pub use generator::source_slots;
pub use generator::zipf_allocations;
pub use pool::PairLedger;
pub use probe::ProbeConfig;
pub use probe::ProbeOutcome;
pub use probe::Prober;
pub use probe::collapse_at;
pub use probe::collapsed;
pub use probe::probe_config_wf;
pub use probe::run_probe;
pub use text::ascii_to_string;
pub use text::version_parts;
pub use types::Allocation;
pub use types::BenchErrorKind;
pub use types::DriveFailure;
pub use types::IoLog;
pub use worker::CacheWorker;
pub use worker::clamped_max_write;
pub use worker::effective_io_size;
pub use worker::sample_step_size;
pub use worker::worker_start_block;
