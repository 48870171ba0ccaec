use vstd::prelude::*;
use crate::file::{ParquetFile, count_in_levels, size_in_levels};
use crate::level::LevelRange;

verus! {

/// What the catalog says of a partition besides its files.
#[derive(Clone, Copy, Debug, PartialEq, Eq, Structural)]
pub struct PartitionInfo {
    pub partition_id: u64,
    /// Number of columns of the partition's table.
    pub num_columns: u64,
    /// A previous run left a "skip compaction" marker.
    pub skip_marker: bool,
}

/// A condition over the files of a partition that signals useful work.
#[derive(Clone, Copy, Debug, PartialEq, Eq, Structural)]
pub enum FileCondition {
    /// At least one file in the level range.
    HasMatchingFile(LevelRange),
    /// More than the given number of files in the level range.
    GreaterMatchingFiles(LevelRange, u64),
    /// Files in the level range whose total size exceeds the given bytes.
    GreaterSizeMatchingFiles(LevelRange, u64),
}

/// A predicate over a partition and its files.
#[derive(Clone, Debug)]
pub enum PartitionFilter {
    /// The partition has at least one file.
    HasFiles,
    /// The partition carries no skip marker.
    NeverSkipped,
    /// The table has at most this many columns.
    MaxNumColumns(u64),
    /// The partition has at most this many files.
    MaxFiles(u64),
    /// The partition's files total at most this many bytes.
    MaxParquetBytes(u64),
    /// At least one of the conditions holds.
    AnyOf(Vec<FileCondition>),
}

pub open spec fn condition_holds(c: FileCondition, files: Seq<ParquetFile>) -> bool {
    match c {
        FileCondition::HasMatchingFile(r) => count_in_levels(files, r.low.rank(), r.high.rank())
            > 0,
        FileCondition::GreaterMatchingFiles(r, n) => count_in_levels(
            files,
            r.low.rank(),
            r.high.rank(),
        ) > n,
        FileCondition::GreaterSizeMatchingFiles(r, n) => size_in_levels(
            files,
            r.low.rank(),
            r.high.rank(),
        ) > n,
    }
}

pub open spec fn any_condition_holds(cs: Seq<FileCondition>, files: Seq<ParquetFile>) -> bool {
    exists|i: int| 0 <= i < cs.len() && condition_holds(#[trigger] cs[i], files)
}

impl PartitionFilter {
    pub open spec fn holds(&self, info: PartitionInfo, files: Seq<ParquetFile>) -> bool {
        match self {
            PartitionFilter::HasFiles => files.len() > 0,
            PartitionFilter::NeverSkipped => !info.skip_marker,
            PartitionFilter::MaxNumColumns(n) => info.num_columns <= *n,
            PartitionFilter::MaxFiles(n) => files.len() <= *n,
            PartitionFilter::MaxParquetBytes(n) => size_in_levels(files, 0, 2) <= *n,
            PartitionFilter::AnyOf(cs) => any_condition_holds(cs@, files),
        }
    }
}

/// Every filter of the conjunction holds.
pub open spec fn all_hold(
    filters: Seq<PartitionFilter>,
    info: PartitionInfo,
    files: Seq<ParquetFile>,
) -> bool {
    forall|i: int| 0 <= i < filters.len() ==> #[trigger] filters[i].holds(info, files)
}

proof fn lemma_prefix_step(files: Seq<ParquetFile>, i: int)
    requires
        0 <= i < files.len(),
    ensures
        files.subrange(0, i + 1).drop_last() == files.subrange(0, i),
        files.subrange(0, i + 1).last() == files[i],
{
    assert(files.subrange(0, i + 1).drop_last() =~= files.subrange(0, i));
}

/// Number of files whose level lies in the range.
pub fn count_matching(files: &Vec<ParquetFile>, range: LevelRange) -> (r: u64)
    ensures
        r as int == count_in_levels(files@, range.low.rank(), range.high.rank()),
{
    let mut n: u64 = 0;
    let mut i: usize = 0;
    while i < files.len()
        invariant
            0 <= i <= files.len(),
            n <= i,
            n as int == count_in_levels(files@.subrange(0, i as int), range.low.rank(), range.high.rank()),
        decreases files.len() - i,
    {
        proof {
            lemma_prefix_step(files@, i as int);
        }
        if range.contains(files[i].compaction_level) {
            n = n + 1;
        }
        i = i + 1;
    }
    assert(files@.subrange(0, files@.len() as int) =~= files@);
    n
}

/// Total bytes of the files whose level lies in the range.
pub fn size_matching(files: &Vec<ParquetFile>, range: LevelRange) -> (r: u128)
    ensures
        r as int == size_in_levels(files@, range.low.rank(), range.high.rank()),
{
    let mut n: u128 = 0;
    let mut i: usize = 0;
    while i < files.len()
        invariant
            0 <= i <= files.len(),
            n <= i * 0xffff_ffff_ffff_ffffu64,
            n as int == size_in_levels(files@.subrange(0, i as int), range.low.rank(), range.high.rank()),
        decreases files.len() - i,
    {
        proof {
            lemma_prefix_step(files@, i as int);
            assert((i + 1) * 0xffff_ffff_ffff_ffffu64 == i * 0xffff_ffff_ffff_ffffu64 + 0xffff_ffff_ffff_ffffu64) by (nonlinear_arith);
            assert(i * 0xffff_ffff_ffff_ffffu64 <= 0xffff_ffff_ffff_ffffu64 * 0xffff_ffff_ffff_ffffu64) by (nonlinear_arith)
                requires i <= 0xffff_ffff_ffff_ffffu64;
        }
        if range.contains(files[i].compaction_level) {
            n = n + files[i].file_size_bytes as u128;
        }
        i = i + 1;
    }
    assert(files@.subrange(0, files@.len() as int) =~= files@);
    n
}

impl FileCondition {
    pub fn apply(&self, files: &Vec<ParquetFile>) -> (r: bool)
        ensures
            r == condition_holds(*self, files@),
    {
        match self {
            FileCondition::HasMatchingFile(range) => count_matching(files, *range) > 0,
            FileCondition::GreaterMatchingFiles(range, n) => count_matching(files, *range) > *n,
            FileCondition::GreaterSizeMatchingFiles(range, n) => size_matching(files, *range)
                > *n as u128,
        }
    }
}

impl PartitionFilter {
    /// Evaluates the predicate.
    pub fn apply(&self, info: &PartitionInfo, files: &Vec<ParquetFile>) -> (r: bool)
        ensures
            r == self.holds(*info, files@),
    {
        match self {
            PartitionFilter::HasFiles => files.len() > 0,
            PartitionFilter::NeverSkipped => !info.skip_marker,
            PartitionFilter::MaxNumColumns(n) => info.num_columns <= *n,
            PartitionFilter::MaxFiles(n) => files.len() as u128 <= *n as u128,
            PartitionFilter::MaxParquetBytes(n) => {
                let all = LevelRange::new(crate::level::CompactionLevel::Initial, crate::level::CompactionLevel::Final);
                size_matching(files, all) <= *n as u128
            },
            PartitionFilter::AnyOf(cs) => {
                let mut i: usize = 0;
                while i < cs.len()
                    invariant
                        0 <= i <= cs.len(),
                        *self == PartitionFilter::AnyOf(*cs),
                        forall|k: int| 0 <= k < i ==> !condition_holds(#[trigger] cs@[k], files@),
                    decreases cs.len() - i,
                {
                    if cs[i].apply(files) {
                        assert(condition_holds(cs@[i as int], files@));
                        assert(any_condition_holds(cs@, files@));
                        return true;
                    }
                    i = i + 1;
                }
                false
            },
        }
    }
}

/// Evaluates a conjunction left to right, stopping at the first filter that
/// does not hold.
pub fn apply_all(filters: &Vec<PartitionFilter>, info: &PartitionInfo, files: &Vec<ParquetFile>) -> (r: bool)
    ensures
        r == all_hold(filters@, *info, files@),
{
    let mut i: usize = 0;
    while i < filters.len()
        invariant
            0 <= i <= filters.len(),
            forall|k: int| 0 <= k < i ==> #[trigger] filters@[k].holds(*info, files@),
        decreases filters.len() - i,
    {
        if !filters[i].apply(info, files) {
            return false;
        }
        i = i + 1;
    }
    true
}

} // verus!
