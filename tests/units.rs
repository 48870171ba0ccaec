use compactor2::admission::{AdmissionState, ShardPartitionFilter};
use compactor2::branch::commit_branch;
use compactor2::classifier::{FileClassification, FileClassifier, FileOutcome};
use compactor2::commit::{build_commit, Catalog, CommitError, CommitUpdate};
use compactor2::components::{
    hardcoded_components, version_specific_file_classifier, version_specific_files_filter,
    version_specific_partition_filters, Backend, PartitionsSourceKind, ScratchpadKind, StreamKind,
};
use compactor2::config::{AlgoVersion, Config, PartitionsSourceConfig};
use compactor2::error::{outcome_of, recoverable_kinds, ErrorKind, PartitionOutcome, SkipReason};
use compactor2::file::{any_at_level, ParquetFile};
use compactor2::filter::{apply_all, count_matching, size_matching, FileCondition, PartitionFilter, PartitionInfo};
use compactor2::level::{CompactionLevel, LevelRange};
use compactor2::plan::{IrPlanner, PlanKind};
use compactor2::round::{next_round, DivideInitial, GateDecision, RoundAction, RoundSplit};

fn file(id: u64, level: CompactionLevel, size: u64, min_time: i64, max_time: i64) -> ParquetFile {
    ParquetFile {
        id,
        partition_id: 1,
        compaction_level: level,
        file_size_bytes: size,
        min_time,
        max_time,
    }
}

fn base_config() -> Config {
    Config {
        partitions_source: PartitionsSourceConfig::Fixed(vec![3, 1, 2]),
        partition_threshold_secs: 600,
        shard_config: None,
        compact_version: AlgoVersion::TargetLevel,
        ignore_partition_skip_marker: true,
        max_num_columns_per_table: 50,
        max_input_files_per_partition: 10,
        max_input_parquet_bytes_per_partition: 1000,
        min_num_l1_files_to_compact: 2,
        max_desired_file_size_bytes: 100,
        percentage_max_file_size: 50,
        split_percentage: 80,
        partition_scratchpad_concurrency: 3,
        shadow_mode: true,
        process_once: false,
        all_errors_are_fatal: true,
        simulate_without_object_store: true,
        parquet_files_sink_override: true,
    }
}

#[test]
fn level_order_and_neighbours() {
    assert_eq!(CompactionLevel::Initial.next(), CompactionLevel::FileNonOverlapped);
    assert_eq!(CompactionLevel::FileNonOverlapped.next(), CompactionLevel::Final);
    assert_eq!(CompactionLevel::Final.next(), CompactionLevel::Final);
    assert_eq!(CompactionLevel::Final.prev(), CompactionLevel::FileNonOverlapped);
    assert_eq!(CompactionLevel::Initial.prev(), CompactionLevel::Initial);
    assert!(CompactionLevel::Initial.le(CompactionLevel::Final));
    assert!(!CompactionLevel::Final.le(CompactionLevel::Initial));
    let r = LevelRange::new(CompactionLevel::Initial, CompactionLevel::FileNonOverlapped);
    assert!(r.contains(CompactionLevel::FileNonOverlapped));
    assert!(!r.contains(CompactionLevel::Final));
}

#[test]
fn admission_refuses_busy_partition_and_throttles() {
    let mut s = AdmissionState::new(2, 60);
    assert!(s.offer(5, 0));
    assert!(!s.offer(5, 1));
    assert!(s.offer(6, 1));
    s.done(5, 10);
    assert!(!s.offer(5, 20));
    assert!(!s.offer(5, 69));
    assert!(s.offer(5, 70));
    assert_eq!(s.in_flight, vec![6, 5]);
}

#[test]
fn admission_forgets_oldest_completion() {
    let mut s = AdmissionState::new(1, 60);
    assert!(s.offer(1, 0));
    assert!(s.offer(2, 0));
    s.done(1, 5);
    s.done(2, 6);
    assert_eq!(s.done_at, vec![(2, 6)]);
    assert!(s.offer(1, 7));
    assert!(!s.offer(2, 7));
}

#[test]
fn shard_filter_keeps_its_residue() {
    let f = ShardPartitionFilter::new(3, 1);
    assert!(f.apply(4));
    assert!(!f.apply(5));
}

#[test]
fn rejected_commit_leaves_catalog_unchanged() {
    let files = vec![
        file(1, CompactionLevel::Initial, 10, 0, 5),
        file(2, CompactionLevel::Initial, 10, 3, 8),
    ];
    let mut catalog = Catalog { files: files.clone() };
    let unknown = CommitUpdate {
        target_level: CompactionLevel::FileNonOverlapped,
        delete: vec![1, 99],
        upgrade: vec![],
        create: vec![file(3, CompactionLevel::FileNonOverlapped, 20, 0, 8)],
    };
    assert_eq!(catalog.commit(&unknown), Err(CommitError::Rejected));
    assert_eq!(catalog.files, files);
    let clash = CommitUpdate {
        target_level: CompactionLevel::FileNonOverlapped,
        delete: vec![1],
        upgrade: vec![],
        create: vec![file(2, CompactionLevel::FileNonOverlapped, 20, 0, 8)],
    };
    assert_eq!(catalog.commit(&clash), Err(CommitError::Rejected));
    let downgrade = CommitUpdate {
        target_level: CompactionLevel::Initial,
        delete: vec![],
        upgrade: vec![1],
        create: vec![],
    };
    let mut c2 = Catalog { files: vec![file(1, CompactionLevel::Final, 1, 0, 1)] };
    assert_eq!(c2.commit(&downgrade), Err(CommitError::Rejected));
    assert_eq!(c2.files[0].compaction_level, CompactionLevel::Final);
    let both = CommitUpdate {
        target_level: CompactionLevel::Final,
        delete: vec![1],
        upgrade: vec![1],
        create: vec![],
    };
    assert_eq!(catalog.commit(&both), Err(CommitError::Rejected));
    assert_eq!(catalog.files, files);
}

#[test]
fn empty_branch_commits_nothing_and_succeeds() {
    let files = vec![file(1, CompactionLevel::Final, 10, 0, 5)];
    let c = FileClassification {
        target_level: CompactionLevel::Final,
        outcomes: vec![FileOutcome::Skip],
    };
    let update = build_commit(&files, &c, &vec![]);
    assert!(update.delete.is_empty() && update.upgrade.is_empty() && update.create.is_empty());
    let mut catalog = Catalog { files: files.clone() };
    assert_eq!(catalog.commit(&update), Ok(()));
    assert_eq!(catalog.files, files);
}

#[test]
fn commit_keeps_skipped_and_raises_levels() {
    let files = vec![
        file(1, CompactionLevel::Initial, 10, 0, 5),
        file(2, CompactionLevel::Initial, 200, 100, 200),
        file(3, CompactionLevel::Final, 10, 0, 5),
    ];
    let c = FileClassifier::SplitBased { max_desired_file_size_bytes: 100 }.classify(&files);
    assert_eq!(c.target_level, CompactionLevel::FileNonOverlapped);
    assert_eq!(c.outcomes, vec![FileOutcome::Compact, FileOutcome::Upgrade, FileOutcome::Skip]);
    let out = vec![file(4, CompactionLevel::Initial, 10, 0, 5)];
    let update = build_commit(&files, &c, &out);
    assert_eq!(update.create[0].compaction_level, CompactionLevel::FileNonOverlapped);
    let mut catalog = Catalog { files };
    assert_eq!(catalog.commit(&update), Ok(()));
    assert_eq!(
        catalog.files,
        vec![
            file(2, CompactionLevel::FileNonOverlapped, 200, 100, 200),
            file(3, CompactionLevel::Final, 10, 0, 5),
            file(4, CompactionLevel::FileNonOverlapped, 10, 0, 5),
        ]
    );
}

#[test]
fn small_upgrade_candidate_is_compacted_with_company() {
    let files = vec![
        file(1, CompactionLevel::Initial, 10, 0, 5),
        file(2, CompactionLevel::Initial, 10, 10, 15),
    ];
    let c = FileClassifier::SplitBased { max_desired_file_size_bytes: 100 }.classify(&files);
    assert_eq!(c.outcomes, vec![FileOutcome::Compact, FileOutcome::Compact]);
    let all = FileClassifier::AllAtOnce.classify(&files);
    assert_eq!(all.target_level, CompactionLevel::FileNonOverlapped);
    assert_eq!(all.outcomes, vec![FileOutcome::Compact, FileOutcome::Compact]);
}

#[test]
fn error_kinds_and_outcomes() {
    assert_eq!(ErrorKind::variants().len(), 4);
    assert!(recoverable_kinds(true).is_empty());
    let rec = recoverable_kinds(false);
    assert_eq!(rec, vec![ErrorKind::OutOfMemory, ErrorKind::Timeout, ErrorKind::Unknown]);
    assert_eq!(outcome_of(Ok(()), &rec), PartitionOutcome::Success);
    assert_eq!(
        outcome_of(Err(ErrorKind::Timeout), &rec),
        PartitionOutcome::Skipped(SkipReason::Recoverable(ErrorKind::Timeout))
    );
    assert_eq!(
        outcome_of(Err(ErrorKind::ObjectStore), &rec),
        PartitionOutcome::Error(ErrorKind::ObjectStore)
    );
    assert_eq!(
        outcome_of(Err(ErrorKind::Unknown), &recoverable_kinds(true)),
        PartitionOutcome::Error(ErrorKind::Unknown)
    );
}

#[test]
fn filters_count_and_sum() {
    let files = vec![
        file(1, CompactionLevel::Initial, 10, 0, 5),
        file(2, CompactionLevel::FileNonOverlapped, 60, 0, 5),
        file(3, CompactionLevel::FileNonOverlapped, 70, 6, 9),
        file(4, CompactionLevel::Final, 1000, 0, 9),
    ];
    let l1 = LevelRange::new(CompactionLevel::FileNonOverlapped, CompactionLevel::FileNonOverlapped);
    assert_eq!(count_matching(&files, l1), 2);
    assert_eq!(size_matching(&files, l1), 130);
    assert!(any_at_level(&files, CompactionLevel::Final));
    assert!(FileCondition::GreaterSizeMatchingFiles(l1, 100).apply(&files));
    assert!(!FileCondition::GreaterMatchingFiles(l1, 2).apply(&files));
    let info = PartitionInfo { partition_id: 1, num_columns: 5, skip_marker: true };
    assert!(!PartitionFilter::NeverSkipped.apply(&info, &files));
    assert!(!PartitionFilter::MaxParquetBytes(1139).apply(&info, &files));
    assert!(PartitionFilter::MaxParquetBytes(1140).apply(&info, &files));
    assert!(PartitionFilter::MaxNumColumns(5).apply(&info, &files));
    assert!(!apply_all(&vec![PartitionFilter::HasFiles, PartitionFilter::NeverSkipped], &info, &files));
    assert!(!PartitionFilter::HasFiles.apply(&info, &vec![]));
}

#[test]
fn planner_sizes_outputs() {
    let p = IrPlanner { max_desired_file_size_bytes: 100, percentage_max_file_size: 50, split_percentage: 80 };
    let one = p.plan(&vec![file(1, CompactionLevel::Initial, 500, 0, 100)], CompactionLevel::Final);
    assert!(matches!(one.kind, PlanKind::Compact));
    let none = p.plan(&vec![], CompactionLevel::Final);
    assert!(matches!(none.kind, PlanKind::Nothing));
    let two = vec![
        file(1, CompactionLevel::Initial, 80, 0, 50),
        file(2, CompactionLevel::Initial, 80, 40, 100),
    ];
    match p.plan(&two, CompactionLevel::FileNonOverlapped).kind {
        PlanKind::Split { split_times } => assert_eq!(split_times, vec![80]),
        _ => panic!("expected a split"),
    }
    let big = vec![
        file(1, CompactionLevel::Initial, 250, 0, 50),
        file(2, CompactionLevel::Initial, 200, 40, 100),
    ];
    let plan = p.plan(&big, CompactionLevel::FileNonOverlapped);
    assert_eq!(plan.input_ids, vec![1, 2]);
    match plan.kind {
        PlanKind::Split { split_times } => assert_eq!(split_times, vec![20, 40, 60, 80]),
        _ => panic!("expected a split"),
    }
}

#[test]
fn rounds_continue_until_the_gate_says_stop() {
    assert_eq!(next_round(true, 0, 3, GateDecision::Compact), RoundAction::Compact);
    assert_eq!(
        next_round(false, 3, 3, GateDecision::Compact),
        RoundAction::Finish(PartitionOutcome::Success)
    );
    assert_eq!(
        next_round(true, 0, 3, GateDecision::Skip(SkipReason::NothingToDo)),
        RoundAction::Finish(PartitionOutcome::Skipped(SkipReason::NothingToDo))
    );
    let files = vec![file(1, CompactionLevel::Initial, 1, 0, 1), file(2, CompactionLevel::Final, 1, 0, 1)];
    let (now, later) = RoundSplit::AllNow.split(files.clone());
    assert_eq!(now, files);
    assert!(later.is_empty());
    let branches = DivideInitial::SingleBranch.divide(files.clone());
    assert_eq!(branches, vec![files]);
    assert!(DivideInitial::SingleBranch.divide(vec![]).is_empty());
}

#[test]
fn components_follow_configuration() {
    let cfg = base_config();
    let comps = hardcoded_components(&cfg);
    assert!(matches!(comps.partitions_source, PartitionsSourceKind::Fixed(ref ids) if *ids == vec![3, 1, 2]));
    assert!(comps.id_only_filters.is_empty());
    assert_eq!(comps.stream, StreamKind::Endless { empty_wait_secs: 5 });
    assert_eq!(comps.throttle_secs, 60);
    assert_eq!(comps.randomize_seed, 1234);
    assert_eq!(comps.commit, Backend::Mock);
    assert_eq!(comps.partition_done_sink, Backend::Mock);
    assert!(comps.recoverable_error_kinds.is_empty());
    assert_eq!(comps.scratchpad, ScratchpadKind::Noop);
    assert_eq!(comps.gate.continue_filters.len(), 3);
    assert_eq!(comps.gate.resource_limit_filters.len(), 2);
    assert_eq!(
        version_specific_file_classifier(&cfg),
        FileClassifier::SplitBased { max_desired_file_size_bytes: 100 }
    );
    assert_eq!(version_specific_files_filter(&cfg).keep, None);
    assert_eq!(version_specific_partition_filters(&cfg).len(), 1);

    let mut all = base_config();
    all.compact_version = AlgoVersion::AllAtOnce;
    all.shadow_mode = false;
    all.simulate_without_object_store = false;
    all.all_errors_are_fatal = false;
    let comps = hardcoded_components(&all);
    assert_eq!(comps.commit, Backend::Catalog);
    assert_eq!(comps.file_classifier, FileClassifier::AllAtOnce);
    assert_eq!(comps.recoverable_error_kinds.len(), 3);
    assert_eq!(comps.scratchpad, ScratchpadKind::Prod { concurrency: 3, discard_output: false });
    let ff = comps.files_filter;
    let kept = ff.apply(&vec![
        file(1, CompactionLevel::Initial, 1, 0, 1),
        file(2, CompactionLevel::Final, 1, 0, 1),
        file(3, CompactionLevel::FileNonOverlapped, 1, 0, 1),
    ]);
    assert_eq!(kept.iter().map(|f| f.id).collect::<Vec<_>>(), vec![1, 3]);
    // The all-at-once continue condition wants an Initial file.
    let info = PartitionInfo { partition_id: 1, num_columns: 5, skip_marker: false };
    assert_eq!(
        comps.gate.check(&info, &vec![file(1, CompactionLevel::FileNonOverlapped, 1, 0, 1)]),
        GateDecision::Skip(SkipReason::NothingToDo)
    );
    assert_eq!(
        comps.gate.check(&info, &vec![file(1, CompactionLevel::Initial, 1, 0, 1)]),
        GateDecision::Compact
    );
}

#[test]
fn branch_commit_applies_or_refuses_whole() {
    let files = vec![
        file(1, CompactionLevel::Initial, 10, 0, 5),
        file(2, CompactionLevel::Initial, 10, 3, 8),
    ];
    let c = FileClassifier::AllAtOnce.classify(&files);
    let mut catalog = Catalog { files: files.clone() };
    let clash = vec![file(1, CompactionLevel::Initial, 20, 0, 8)];
    let mut other = Catalog { files: vec![file(7, CompactionLevel::Final, 1, 0, 1)] };
    assert_eq!(commit_branch(&mut other, &files, &c, &clash), Err(CommitError::Rejected));
    assert_eq!(other.files, vec![file(7, CompactionLevel::Final, 1, 0, 1)]);
    let out = vec![file(5, CompactionLevel::Initial, 20, 0, 8)];
    assert_eq!(commit_branch(&mut catalog, &files, &c, &out), Ok(()));
    assert_eq!(catalog.files, vec![file(5, CompactionLevel::FileNonOverlapped, 20, 0, 8)]);
}
