use compactor2::branch::plan_branch;
use compactor2::classifier::{FileClassifier, FileOutcome};
use compactor2::commit::{build_commit, Catalog};
use compactor2::components::hardcoded_components;
use compactor2::config::{AlgoVersion, Config, PartitionsSourceConfig, ShardConfig};
use compactor2::error::{PartitionOutcome, SkipReason};
use compactor2::admission::filter_partition_ids;
use compactor2::file::ParquetFile;
use compactor2::filter::PartitionInfo;
use compactor2::level::CompactionLevel;
use compactor2::plan::PlanKind;
use compactor2::round::{next_round, GateDecision, RoundAction};

const MB: u64 = 1024 * 1024;

fn config(version: AlgoVersion) -> Config {
    Config {
        partitions_source: PartitionsSourceConfig::CatalogAll,
        partition_threshold_secs: 600,
        shard_config: None,
        compact_version: version,
        ignore_partition_skip_marker: false,
        max_num_columns_per_table: 200,
        max_input_files_per_partition: 1000,
        max_input_parquet_bytes_per_partition: 1 << 40,
        min_num_l1_files_to_compact: 10,
        max_desired_file_size_bytes: 100 * MB,
        percentage_max_file_size: 30,
        split_percentage: 80,
        partition_scratchpad_concurrency: 4,
        shadow_mode: false,
        process_once: true,
        all_errors_are_fatal: false,
        simulate_without_object_store: false,
        parquet_files_sink_override: false,
    }
}

fn file(id: u64, level: CompactionLevel, size: u64, min_time: i64, max_time: i64) -> ParquetFile {
    ParquetFile {
        id,
        partition_id: 7,
        compaction_level: level,
        file_size_bytes: size,
        min_time,
        max_time,
    }
}

fn info() -> PartitionInfo {
    PartitionInfo { partition_id: 7, num_columns: 10, skip_marker: false }
}

#[test]
fn simple_strategy_merges_initial_files_then_stops() {
    let cfg = config(AlgoVersion::AllAtOnce);
    let comps = hardcoded_components(&cfg);
    let files = vec![
        file(1, CompactionLevel::Initial, 10 * MB, 0, 10),
        file(2, CompactionLevel::Initial, 10 * MB, 5, 15),
        file(3, CompactionLevel::Initial, 10 * MB, 12, 20),
    ];
    let mut catalog = Catalog { files: files.clone() };

    assert_eq!(comps.gate.check(&info(), &catalog.files), GateDecision::Compact);
    assert_eq!(
        next_round(true, 0, 10, GateDecision::Compact),
        RoundAction::Compact
    );
    let eligible = comps.files_filter.apply(&catalog.files);
    let bp = plan_branch(&comps.file_classifier, &comps.ir_planner, &eligible);
    assert_eq!(bp.classification.target_level, CompactionLevel::FileNonOverlapped);
    assert_eq!(bp.classification.outcomes, vec![FileOutcome::Compact; 3]);
    assert!(matches!(bp.plan.kind, PlanKind::Compact));
    assert_eq!(bp.plan.input_ids, vec![1, 2, 3]);

    let output = vec![file(4, CompactionLevel::FileNonOverlapped, 30 * MB, 0, 20)];
    let update = build_commit(&eligible, &bp.classification, &output);
    assert_eq!(update.delete, vec![1, 2, 3]);
    assert!(update.upgrade.is_empty());
    assert_eq!(update.create, output);
    assert_eq!(catalog.commit(&update), Ok(()));
    assert_eq!(catalog.files, output);

    let decision = comps.gate.check(&info(), &catalog.files);
    assert_eq!(decision, GateDecision::Skip(SkipReason::NothingToDo));
    assert_eq!(
        next_round(false, 1, 10, decision),
        RoundAction::Finish(PartitionOutcome::Success)
    );
    assert_eq!(
        comps.gate.decide_round(&info(), &catalog.files, 1, 10),
        RoundAction::Finish(PartitionOutcome::Success)
    );
}

#[test]
fn tiered_strategy_upgrades_lone_file_in_place() {
    let cfg = config(AlgoVersion::TargetLevel);
    let comps = hardcoded_components(&cfg);
    let only = file(9, CompactionLevel::FileNonOverlapped, 40 * MB, 0, 100);
    let mut catalog = Catalog { files: vec![only] };
    let eligible = comps.files_filter.apply(&catalog.files);
    let bp = plan_branch(&comps.file_classifier, &comps.ir_planner, &eligible);
    assert_eq!(bp.classification.target_level, CompactionLevel::Final);
    assert_eq!(bp.classification.outcomes, vec![FileOutcome::Upgrade]);
    assert!(bp.files_to_compact.is_empty());
    assert!(matches!(bp.plan.kind, PlanKind::Nothing));

    let update = build_commit(&eligible, &bp.classification, &vec![]);
    assert!(update.delete.is_empty());
    assert!(update.create.is_empty());
    assert_eq!(update.upgrade, vec![9]);
    assert_eq!(catalog.commit(&update), Ok(()));
    assert_eq!(catalog.files.len(), 1);
    assert_eq!(catalog.files[0].id, 9);
    assert_eq!(catalog.files[0].compaction_level, CompactionLevel::Final);
    assert_eq!(catalog.files[0].file_size_bytes, 40 * MB);
}

#[test]
fn too_many_files_is_a_resource_limit_skip() {
    let cfg = config(AlgoVersion::AllAtOnce);
    let comps = hardcoded_components(&cfg);
    let files: Vec<ParquetFile> = (0..5000)
        .map(|i| file(i, CompactionLevel::Initial, MB, i as i64, i as i64 + 1))
        .collect();
    let decision = comps.gate.check(&info(), &files);
    assert_eq!(decision, GateDecision::Skip(SkipReason::ResourceLimit));
    assert_eq!(
        comps.gate.decide_round(&info(), &files, 0, 10),
        RoundAction::Finish(PartitionOutcome::Skipped(SkipReason::ResourceLimit))
    );
    assert_eq!(
        next_round(true, 0, 10, decision),
        RoundAction::Finish(PartitionOutcome::Skipped(SkipReason::ResourceLimit))
    );
}

#[test]
fn shard_filter_drops_foreign_partitions_before_listing() {
    let mut cfg = config(AlgoVersion::AllAtOnce);
    cfg.shard_config = Some(ShardConfig { n_shards: 4, shard_id: 2 });
    let comps = hardcoded_components(&cfg);
    let ids: Vec<u64> = (0..20).collect();
    let listed = filter_partition_ids(&ids, &comps.id_only_filters);
    assert_eq!(listed, vec![2, 6, 10, 14, 18]);
    assert!(listed.iter().all(|id| id % 4 == 2));
}

#[test]
fn classification_is_repeatable() {
    let c = FileClassifier::SplitBased { max_desired_file_size_bytes: 100 * MB };
    let files = vec![
        file(1, CompactionLevel::Initial, 10 * MB, 0, 10),
        file(2, CompactionLevel::FileNonOverlapped, 50 * MB, 5, 20),
        file(3, CompactionLevel::FileNonOverlapped, 50 * MB, 30, 40),
        file(4, CompactionLevel::Final, 90 * MB, 0, 100),
    ];
    let a = c.classify(&files);
    let b = c.classify(&files);
    assert_eq!(a.target_level, b.target_level);
    assert_eq!(a.outcomes, b.outcomes);
    assert_eq!(a.target_level, CompactionLevel::FileNonOverlapped);
    assert_eq!(
        a.outcomes,
        vec![FileOutcome::Compact, FileOutcome::Compact, FileOutcome::Skip, FileOutcome::Skip]
    );
}
