use vstd::prelude::*;

verus! {

/// Which compaction strategy drives classification and the continue condition.
#[derive(Clone, Copy, Debug, PartialEq, Eq, Structural)]
pub enum AlgoVersion {
    /// Merge all non-final files of a partition at once.
    AllAtOnce,
    /// Move files one level up per round.
    TargetLevel,
}

/// Which partitions this process owns: those whose identifier is
/// `shard_id` modulo `n_shards`.
#[derive(Clone, Copy, Debug, PartialEq, Eq, Structural)]
pub struct ShardConfig {
    pub n_shards: u64,
    pub shard_id: u64,
}

/// Where candidate partition identifiers come from.
#[derive(Clone, Debug)]
pub enum PartitionsSourceConfig {
    /// Partitions written to recently, older than a threshold (seconds).
    CatalogRecentWrites,
    /// Every partition of the catalog.
    CatalogAll,
    /// A fixed list of identifiers.
    Fixed(Vec<u64>),
}

/// The settings the compaction components are built from.
#[derive(Clone, Debug)]
pub struct Config {
    pub partitions_source: PartitionsSourceConfig,
    /// Seconds since the last write before a partition is a candidate.
    pub partition_threshold_secs: u64,
    pub shard_config: Option<ShardConfig>,
    pub compact_version: AlgoVersion,
    pub ignore_partition_skip_marker: bool,
    pub max_num_columns_per_table: u64,
    pub max_input_files_per_partition: u64,
    pub max_input_parquet_bytes_per_partition: u64,
    pub min_num_l1_files_to_compact: u64,
    pub max_desired_file_size_bytes: u64,
    pub percentage_max_file_size: u16,
    pub split_percentage: u16,
    pub partition_scratchpad_concurrency: u64,
    /// Route commits and writes to inert collaborators.
    pub shadow_mode: bool,
    /// Drain the candidate set once and stop.
    pub process_once: bool,
    pub all_errors_are_fatal: bool,
    pub simulate_without_object_store: bool,
    /// A caller-supplied sink for output files replaces the object store one.
    pub parquet_files_sink_override: bool,
}

} // verus!
