use vstd::prelude::*;
use crate::level::CompactionLevel;

verus! {

/// A data file of a partition as the catalog records it.
#[derive(Clone, Copy, Debug, PartialEq, Eq, Structural)]
pub struct ParquetFile {
    pub id: u64,
    pub partition_id: u64,
    pub compaction_level: CompactionLevel,
    pub file_size_bytes: u64,
    pub min_time: i64,
    pub max_time: i64,
}

/// Two files whose time ranges share at least one instant.
pub open spec fn spec_overlaps(a: ParquetFile, b: ParquetFile) -> bool {
    a.min_time <= b.max_time && b.min_time <= a.max_time
}

/// Number of the files at a level within `lo ..= hi` (by rank).
pub open spec fn count_in_levels(files: Seq<ParquetFile>, lo: int, hi: int) -> int
    decreases files.len(),
{
    if files.len() == 0 {
        0
    } else {
        count_in_levels(files.drop_last(), lo, hi) + (if lo <= files.last().compaction_level.rank()
            && files.last().compaction_level.rank() <= hi {
            1int
        } else {
            0int
        })
    }
}

/// Sum of the byte sizes of the files at a level within `lo ..= hi`.
pub open spec fn size_in_levels(files: Seq<ParquetFile>, lo: int, hi: int) -> int
    decreases files.len(),
{
    if files.len() == 0 {
        0
    } else {
        size_in_levels(files.drop_last(), lo, hi) + (if lo <= files.last().compaction_level.rank()
            && files.last().compaction_level.rank() <= hi {
            files.last().file_size_bytes as int
        } else {
            0int
        })
    }
}

/// Whether some file is at the level.
pub open spec fn has_level(files: Seq<ParquetFile>, l: CompactionLevel) -> bool {
    exists|i: int| 0 <= i < files.len() && #[trigger] files[i].compaction_level == l
}

/// No two files share an identifier.
pub open spec fn ids_unique(files: Seq<ParquetFile>) -> bool {
    forall|i: int, j: int|
        0 <= i < files.len() && 0 <= j < files.len() && i != j ==> #[trigger] files[i].id
            != #[trigger] files[j].id
}

impl ParquetFile {
    pub fn overlaps(&self, other: &ParquetFile) -> (r: bool)
        ensures
            r == spec_overlaps(*self, *other),
    {
        self.min_time <= other.max_time && other.min_time <= self.max_time
    }
}

/// Whether some file of `files` is at `level`.
pub fn any_at_level(files: &Vec<ParquetFile>, level: CompactionLevel) -> (r: bool)
    ensures
        r == has_level(files@, level),
{
    let mut i: usize = 0;
    while i < files.len()
        invariant
            0 <= i <= files.len(),
            forall|k: int| 0 <= k < i ==> files@[k].compaction_level != level,
        decreases files.len() - i,
    {
        if files[i].compaction_level == level {
            return true;
        }
        i = i + 1;
    }
    false
}

} // verus!
