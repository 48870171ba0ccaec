use std::sync::Arc;
use vstd::prelude::*;
use crate::admission::ShardPartitionFilter;
use crate::classifier::FileClassifier;
use crate::config::{AlgoVersion, Config, PartitionsSourceConfig};
use crate::error::{ErrorKind, recoverable_kinds, spec_recoverable_kinds};
use crate::filter::{FileCondition, PartitionFilter};
use crate::level::{CompactionLevel, LevelRange};
use crate::plan::IrPlanner;
use crate::round::{DivideInitial, FilesFilter, PartitionGate, RoundSplit};

verus! {

/// Seconds a partition waits after a pass before it is admitted again.
pub const THROTTLE_SECS: u64 = 60;

/// Seconds an endless stream sleeps when it found no candidate.
pub const EMPTY_SOURCE_WAIT_SECS: u64 = 5;

/// Seed of the shuffle of candidate partitions.
pub const RANDOMIZE_SEED: u64 = 1234;

/// Most passes of one partition in flight at a time.
pub const MAX_IN_FLIGHT_PER_PARTITION: u64 = 1;

/// Where candidate partitions are read from.
#[derive(Clone, Debug)]
pub enum PartitionsSourceKind {
    /// Recently written partitions, older than the threshold in seconds.
    CatalogToCompact { threshold_secs: u64 },
    CatalogAll,
    Fixed(Vec<u64>),
}

/// Whether a collaborator acts on the catalog or is an inert stand-in.
#[derive(Clone, Copy, Debug, PartialEq, Eq, Structural)]
pub enum Backend {
    Catalog,
    Mock,
}

/// Where the scratchpad writes output files.
#[derive(Clone, Copy, Debug, PartialEq, Eq, Structural)]
pub enum ScratchpadKind {
    /// No scratchpad: nothing is read or written.
    Noop,
    /// Staging in object storage, with this many transfers at a time,
    /// writing outputs to the real store or, in shadow mode, dropping them.
    Prod { concurrency: u64, discard_output: bool },
}

/// Who executes the physical merge.
#[derive(Clone, Copy, Debug, PartialEq, Eq, Structural)]
pub enum PlanExecKind {
    Noop,
    Dedicated,
}

/// Who writes output files.
#[derive(Clone, Copy, Debug, PartialEq, Eq, Structural)]
pub enum FilesSinkKind {
    /// The sink the caller supplied.
    Override,
    /// The object store, file by file.
    ObjectStore,
}

/// How the candidate stream ends.
#[derive(Clone, Copy, Debug, PartialEq, Eq, Structural)]
pub enum StreamKind {
    /// Drain the candidates once.
    Once,
    /// Poll forever, sleeping this long when nothing is found.
    Endless { empty_wait_secs: u64 },
}

/// The components a compaction process is made of, as chosen from its
/// configuration.
#[derive(Clone, Debug)]
pub struct Components {
    pub partitions_source: PartitionsSourceKind,
    /// Identifier-only filters, applied before any catalog request.
    pub id_only_filters: Vec<ShardPartitionFilter>,
    pub max_in_flight_per_partition: u64,
    pub throttle_secs: u64,
    pub randomize_seed: u64,
    pub stream: StreamKind,
    pub gate: PartitionGate,
    pub files_filter: FilesFilter,
    pub file_classifier: FileClassifier,
    pub ir_planner: IrPlanner,
    pub round_split: RoundSplit,
    pub divide_initial: DivideInitial,
    pub partition_done_sink: Backend,
    pub commit: Backend,
    /// Error kinds recorded as recoverable skips; the others are fatal.
    pub recoverable_error_kinds: Vec<ErrorKind>,
    pub scratchpad: ScratchpadKind,
    pub plan_exec: PlanExecKind,
    pub files_sink: FilesSinkKind,
}

pub open spec fn l0() -> LevelRange {
    LevelRange { low: CompactionLevel::Initial, high: CompactionLevel::Initial }
}

pub open spec fn l1() -> LevelRange {
    LevelRange { low: CompactionLevel::FileNonOverlapped, high: CompactionLevel::FileNonOverlapped }
}

/// The conditions under which a strategy finds work in a partition.
pub open spec fn spec_version_filters(config: Config) -> Seq<FileCondition> {
    match config.compact_version {
        AlgoVersion::AllAtOnce => seq![FileCondition::HasMatchingFile(l0())],
        AlgoVersion::TargetLevel => seq![
            FileCondition::HasMatchingFile(l0()),
            FileCondition::GreaterMatchingFiles(l1(), config.min_num_l1_files_to_compact),
            FileCondition::GreaterSizeMatchingFiles(l1(), config.max_desired_file_size_bytes),
        ],
    }
}

/// The strategy's continue condition: with all at once, an `Initial` file;
/// with target level, an `Initial` file, or more than the minimum number of
/// `FileNonOverlapped` files, or such files over the desired size in total.
pub fn version_specific_partition_filters(config: &Config) -> (r: Vec<PartitionFilter>)
    ensures
        r@.len() == 1,
        match r@[0] {
            PartitionFilter::AnyOf(cs) => cs@ == spec_version_filters(*config),
            _ => false,
        },
{
    let l0 = LevelRange::new(CompactionLevel::Initial, CompactionLevel::Initial);
    let l1 = LevelRange::new(CompactionLevel::FileNonOverlapped, CompactionLevel::FileNonOverlapped);
    let cs = match config.compact_version {
        AlgoVersion::AllAtOnce => vec![FileCondition::HasMatchingFile(l0)],
        AlgoVersion::TargetLevel => vec![
            FileCondition::HasMatchingFile(l0),
            FileCondition::GreaterMatchingFiles(l1, config.min_num_l1_files_to_compact),
            FileCondition::GreaterSizeMatchingFiles(l1, config.max_desired_file_size_bytes),
        ],
    };
    vec![PartitionFilter::AnyOf(cs)]
}

pub open spec fn spec_version_classifier(config: Config) -> FileClassifier {
    match config.compact_version {
        AlgoVersion::AllAtOnce => FileClassifier::AllAtOnce,
        AlgoVersion::TargetLevel => FileClassifier::SplitBased {
            max_desired_file_size_bytes: config.max_desired_file_size_bytes,
        },
    }
}

/// The file classifier of the configured strategy.
pub fn version_specific_file_classifier(config: &Config) -> (r: FileClassifier)
    ensures
        r == spec_version_classifier(*config),
{
    match config.compact_version {
        AlgoVersion::AllAtOnce => FileClassifier::AllAtOnce,
        AlgoVersion::TargetLevel => FileClassifier::SplitBased {
            max_desired_file_size_bytes: config.max_desired_file_size_bytes,
        },
    }
}

pub open spec fn spec_version_files_filter(config: Config) -> FilesFilter {
    match config.compact_version {
        AlgoVersion::AllAtOnce => FilesFilter {
            keep: Some(LevelRange { low: CompactionLevel::Initial, high: CompactionLevel::FileNonOverlapped }),
        },
        AlgoVersion::TargetLevel => FilesFilter { keep: None },
    }
}

/// The files a strategy works on: all at once leaves `Final` files out,
/// target level takes every file.
pub fn version_specific_files_filter(config: &Config) -> (r: FilesFilter)
    ensures
        r == spec_version_files_filter(*config),
{
    match config.compact_version {
        AlgoVersion::AllAtOnce => FilesFilter {
            keep: Some(LevelRange::new(CompactionLevel::Initial, CompactionLevel::FileNonOverlapped)),
        },
        AlgoVersion::TargetLevel => FilesFilter { keep: None },
    }
}

/// The configuration is one components can be built from.
pub open spec fn config_valid(config: Config) -> bool {
    &&& match config.shard_config {
        Some(s) => s.n_shards > 0 && s.shard_id < s.n_shards,
        None => true,
    }
    &&& config.max_desired_file_size_bytes > 0
    &&& 1 <= config.percentage_max_file_size <= 100
    &&& config.split_percentage <= 100
}

/// Assembles the components from the configuration.
pub fn hardcoded_components(config: &Config) -> (r: Arc<Components>)
    requires
        config_valid(*config),
    ensures
        match (config.partitions_source, r.partitions_source) {
            (PartitionsSourceConfig::CatalogRecentWrites, PartitionsSourceKind::CatalogToCompact { threshold_secs }) =>
                threshold_secs == config.partition_threshold_secs,
            (PartitionsSourceConfig::CatalogAll, PartitionsSourceKind::CatalogAll) => true,
            (PartitionsSourceConfig::Fixed(ids), PartitionsSourceKind::Fixed(rids)) => rids@ == ids@,
            _ => false,
        },
        match config.shard_config {
            Some(s) => r.id_only_filters@ == seq![ShardPartitionFilter { n_shards: s.n_shards, shard_id: s.shard_id }],
            None => r.id_only_filters@.len() == 0,
        },
        forall|k: int| 0 <= k < r.id_only_filters@.len() ==> #[trigger] r.id_only_filters@[k].wf(),
        r.max_in_flight_per_partition == MAX_IN_FLIGHT_PER_PARTITION,
        r.throttle_secs == THROTTLE_SECS,
        r.randomize_seed == RANDOMIZE_SEED,
        r.stream == (if config.process_once {
            StreamKind::Once
        } else {
            StreamKind::Endless { empty_wait_secs: EMPTY_SOURCE_WAIT_SECS }
        }),
        r.gate.continue_filters@.len() == (if config.ignore_partition_skip_marker { 3int } else { 4int }),
        r.gate.continue_filters@[0] is HasFiles,
        !config.ignore_partition_skip_marker ==> r.gate.continue_filters@[1] is NeverSkipped,
        match r.gate.continue_filters@[r.gate.continue_filters@.len() - 2] {
            PartitionFilter::MaxNumColumns(n) => n == config.max_num_columns_per_table,
            _ => false,
        },
        match r.gate.continue_filters@.last() {
            PartitionFilter::AnyOf(cs) => cs@ == spec_version_filters(*config),
            _ => false,
        },
        r.gate.resource_limit_filters@.len() == 2,
        match r.gate.resource_limit_filters@[0] {
            PartitionFilter::MaxFiles(n) => n == config.max_input_files_per_partition,
            _ => false,
        },
        match r.gate.resource_limit_filters@[1] {
            PartitionFilter::MaxParquetBytes(n) => n == config.max_input_parquet_bytes_per_partition,
            _ => false,
        },
        r.files_filter == spec_version_files_filter(*config),
        r.file_classifier == spec_version_classifier(*config),
        r.ir_planner == (IrPlanner {
            max_desired_file_size_bytes: config.max_desired_file_size_bytes,
            percentage_max_file_size: config.percentage_max_file_size,
            split_percentage: config.split_percentage,
        }),
        r.ir_planner.wf(),
        r.round_split == RoundSplit::AllNow,
        r.divide_initial == DivideInitial::SingleBranch,
        r.partition_done_sink == (if config.shadow_mode { Backend::Mock } else { Backend::Catalog }),
        r.commit == (if config.shadow_mode { Backend::Mock } else { Backend::Catalog }),
        r.recoverable_error_kinds@ == spec_recoverable_kinds(config.all_errors_are_fatal),
        r.scratchpad == (if config.simulate_without_object_store {
            ScratchpadKind::Noop
        } else {
            ScratchpadKind::Prod {
                concurrency: config.partition_scratchpad_concurrency,
                discard_output: config.shadow_mode,
            }
        }),
        r.plan_exec == (if config.simulate_without_object_store {
            PlanExecKind::Noop
        } else {
            PlanExecKind::Dedicated
        }),
        r.files_sink == (if config.parquet_files_sink_override {
            FilesSinkKind::Override
        } else {
            FilesSinkKind::ObjectStore
        }),
{
    let partitions_source = match &config.partitions_source {
        PartitionsSourceConfig::CatalogRecentWrites => PartitionsSourceKind::CatalogToCompact {
            threshold_secs: config.partition_threshold_secs,
        },
        PartitionsSourceConfig::CatalogAll => PartitionsSourceKind::CatalogAll,
        PartitionsSourceConfig::Fixed(ids) => PartitionsSourceKind::Fixed(ids.clone()),
    };

    let mut id_only_filters: Vec<ShardPartitionFilter> = Vec::new();
    if let Some(shard) = config.shard_config {
        id_only_filters.push(ShardPartitionFilter::new(shard.n_shards, shard.shard_id));
    }

    let mut continue_filters: Vec<PartitionFilter> = Vec::new();
    continue_filters.push(PartitionFilter::HasFiles);
    if !config.ignore_partition_skip_marker {
        continue_filters.push(PartitionFilter::NeverSkipped);
    }
    continue_filters.push(PartitionFilter::MaxNumColumns(config.max_num_columns_per_table));
    let mut version_filters = version_specific_partition_filters(config);
    continue_filters.append(&mut version_filters);

    let resource_limit_filters = vec![
        PartitionFilter::MaxFiles(config.max_input_files_per_partition),
        PartitionFilter::MaxParquetBytes(config.max_input_parquet_bytes_per_partition),
    ];

    let backend = if config.shadow_mode { Backend::Mock } else { Backend::Catalog };
    let stream = if config.process_once {
        StreamKind::Once
    } else {
        StreamKind::Endless { empty_wait_secs: EMPTY_SOURCE_WAIT_SECS }
    };
    let scratchpad = if config.simulate_without_object_store {
        ScratchpadKind::Noop
    } else {
        ScratchpadKind::Prod {
            concurrency: config.partition_scratchpad_concurrency,
            discard_output: config.shadow_mode,
        }
    };
    let plan_exec = if config.simulate_without_object_store {
        PlanExecKind::Noop
    } else {
        PlanExecKind::Dedicated
    };
    let files_sink = if config.parquet_files_sink_override {
        FilesSinkKind::Override
    } else {
        FilesSinkKind::ObjectStore
    };

    Arc::new(Components {
        partitions_source,
        id_only_filters,
        max_in_flight_per_partition: MAX_IN_FLIGHT_PER_PARTITION,
        throttle_secs: THROTTLE_SECS,
        randomize_seed: RANDOMIZE_SEED,
        stream,
        gate: PartitionGate { continue_filters, resource_limit_filters },
        files_filter: version_specific_files_filter(config),
        file_classifier: version_specific_file_classifier(config),
        ir_planner: IrPlanner {
            max_desired_file_size_bytes: config.max_desired_file_size_bytes,
            percentage_max_file_size: config.percentage_max_file_size,
            split_percentage: config.split_percentage,
        },
        round_split: RoundSplit::AllNow,
        divide_initial: DivideInitial::SingleBranch,
        partition_done_sink: backend,
        commit: backend,
        recoverable_error_kinds: recoverable_kinds(config.all_errors_are_fatal),
        scratchpad,
        plan_exec,
        files_sink,
    })
}

} // verus!
