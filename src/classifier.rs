use vstd::prelude::*;
use crate::file::{ParquetFile, spec_overlaps, has_level, any_at_level};
use crate::level::CompactionLevel;

verus! {

/// What a round does with one file of a branch.
#[derive(Clone, Copy, Debug, PartialEq, Eq, Structural)]
pub enum FileOutcome {
    /// Rewritten into the branch's output files.
    Compact,
    /// Moved to the target level with no rewrite.
    Upgrade,
    /// Left untouched this round.
    Skip,
}

/// The two classification strategies.
#[derive(Clone, Copy, Debug, PartialEq, Eq, Structural)]
pub enum FileClassifier {
    /// Every file of the branch is merged into `FileNonOverlapped` output.
    AllAtOnce,
    /// Moves files one level up at a time, upgrading files that need no
    /// rewrite and leaving correctly placed files alone.
    SplitBased { max_desired_file_size_bytes: u64 },
}

/// Outcome of every file of a branch, with the level the round writes.
#[derive(Clone, Debug)]
pub struct FileClassification {
    pub target_level: CompactionLevel,
    /// One outcome per input file, in input order.
    pub outcomes: Vec<FileOutcome>,
}

/// The level a branch is moved to: one above the lowest level that holds a
/// file (`Final` when no file is below it).
pub open spec fn spec_target_level(c: FileClassifier, files: Seq<ParquetFile>) -> CompactionLevel {
    match c {
        FileClassifier::AllAtOnce => CompactionLevel::FileNonOverlapped,
        FileClassifier::SplitBased { .. } => if has_level(files, CompactionLevel::Initial) {
            CompactionLevel::FileNonOverlapped
        } else {
            CompactionLevel::Final
        },
    }
}

/// File `i` overlaps in time some file of the branch at level `l`.
pub open spec fn overlaps_level(files: Seq<ParquetFile>, i: int, l: CompactionLevel) -> bool {
    exists|j: int|
        0 <= j < files.len() && #[trigger] files[j].compaction_level == l && spec_overlaps(
            files[i],
            files[j],
        )
}

/// File `i` has to take part in a merge towards level `t`: it is below `t`,
/// or at `t` and overlapping a file of the level below.
pub open spec fn is_candidate(files: Seq<ParquetFile>, t: CompactionLevel, i: int) -> bool {
    files[i].compaction_level.rank() < t.rank() || (files[i].compaction_level == t
        && overlaps_level(files, i, t.spec_prev()))
}

/// Some other merge candidate overlaps file `i`.
pub open spec fn overlaps_other_candidate(
    files: Seq<ParquetFile>,
    t: CompactionLevel,
    i: int,
) -> bool {
    exists|j: int|
        0 <= j < files.len() && j != i && #[trigger] is_candidate(files, t, j) && spec_overlaps(
            files[i],
            files[j],
        )
}

/// File `i` is the only merge candidate.
pub open spec fn lone_candidate(files: Seq<ParquetFile>, t: CompactionLevel, i: int) -> bool {
    forall|j: int| 0 <= j < files.len() && j != i ==> !#[trigger] is_candidate(files, t, j)
}

/// File `i` can reach level `t` without a rewrite: it is a candidate one
/// level below `t`, overlaps no other candidate, and is large enough or alone.
pub open spec fn is_upgradable(
    files: Seq<ParquetFile>,
    t: CompactionLevel,
    max_size: u64,
    i: int,
) -> bool {
    &&& is_candidate(files, t, i)
    &&& files[i].compaction_level == t.spec_prev()
    &&& !overlaps_other_candidate(files, t, i)
    &&& (files[i].file_size_bytes >= max_size || lone_candidate(files, t, i))
}

/// The outcome of file `i` of a branch.
pub open spec fn spec_outcome(c: FileClassifier, files: Seq<ParquetFile>, i: int) -> FileOutcome {
    match c {
        FileClassifier::AllAtOnce => FileOutcome::Compact,
        FileClassifier::SplitBased { max_desired_file_size_bytes } => {
            let t = spec_target_level(c, files);
            if !is_candidate(files, t, i) {
                FileOutcome::Skip
            } else if is_upgradable(files, t, max_desired_file_size_bytes, i) {
                FileOutcome::Upgrade
            } else {
                FileOutcome::Compact
            }
        },
    }
}

/// The outcomes of all files of a branch, in order.
pub open spec fn spec_classify(c: FileClassifier, files: Seq<ParquetFile>) -> Seq<FileOutcome> {
    Seq::new(files.len(), |i: int| spec_outcome(c, files, i))
}

fn any_overlap_at_level(files: &Vec<ParquetFile>, i: usize, l: CompactionLevel) -> (r: bool)
    requires
        i < files.len(),
    ensures
        r == overlaps_level(files@, i as int, l),
{
    let mut j: usize = 0;
    while j < files.len()
        invariant
            i < files.len(),
            0 <= j <= files.len(),
            forall|k: int|
                0 <= k < j ==> !(#[trigger] files@[k].compaction_level == l && spec_overlaps(
                    files@[i as int],
                    files@[k],
                )),
        decreases files.len() - j,
    {
        if files[j].compaction_level == l && files[i].overlaps(&files[j]) {
            return true;
        }
        j = j + 1;
    }
    false
}

fn candidate_flags(files: &Vec<ParquetFile>, t: CompactionLevel) -> (r: Vec<bool>)
    ensures
        r@.len() == files@.len(),
        forall|i: int| 0 <= i < files@.len() ==> r@[i] == is_candidate(files@, t, i),
{
    let mut r: Vec<bool> = Vec::new();
    let mut i: usize = 0;
    let below = t.prev();
    while i < files.len()
        invariant
            0 <= i <= files.len(),
            below == t.spec_prev(),
            r@.len() == i,
            forall|k: int| 0 <= k < i ==> r@[k] == is_candidate(files@, t, k),
        decreases files.len() - i,
    {
        let f = files[i].compaction_level;
        let c = if f.as_u8() < t.as_u8() {
            true
        } else if f == t {
            any_overlap_at_level(files, i, below)
        } else {
            false
        };
        r.push(c);
        i = i + 1;
    }
    r
}

impl FileClassifier {
    /// The level this strategy moves the branch to.
    pub fn target_level(&self, files: &Vec<ParquetFile>) -> (r: CompactionLevel)
        ensures
            r == spec_target_level(*self, files@),
    {
        match self {
            FileClassifier::AllAtOnce => CompactionLevel::FileNonOverlapped,
            FileClassifier::SplitBased { .. } => {
                if any_at_level(files, CompactionLevel::Initial) {
                    CompactionLevel::FileNonOverlapped
                } else {
                    CompactionLevel::Final
                }
            },
        }
    }

    /// Tags every file of the branch Compact, Upgrade or Skip.
    pub fn classify(&self, files: &Vec<ParquetFile>) -> (r: FileClassification)
        ensures
            r.target_level == spec_target_level(*self, files@),
            r.outcomes@ == spec_classify(*self, files@),
    {
        let t = self.target_level(files);
        let mut outcomes: Vec<FileOutcome> = Vec::new();
        match self {
            FileClassifier::AllAtOnce => {
                let mut i: usize = 0;
                while i < files.len()
                    invariant
                        *self == FileClassifier::AllAtOnce,
                        0 <= i <= files.len(),
                        outcomes@.len() == i,
                        forall|k: int|
                            0 <= k < i ==> outcomes@[k] == spec_outcome(*self, files@, k),
                    decreases files.len() - i,
                {
                    outcomes.push(FileOutcome::Compact);
                    i = i + 1;
                }
            },
            FileClassifier::SplitBased { max_desired_file_size_bytes } => {
                let max = *max_desired_file_size_bytes;
                let cand = candidate_flags(files, t);
                let below = t.prev();
                let mut n_cand: usize = 0;
                let mut i: usize = 0;
                while i < files.len()
                    invariant
                        0 <= i <= files.len(),
                        n_cand <= i,
                        cand@.len() == files@.len(),
                        n_cand <= 1 ==> forall|a: int, b: int|
                            0 <= a < i && 0 <= b < i && a != b ==> !(cand@[a] && cand@[b]),
                        n_cand >= 1 <==> exists|a: int| 0 <= a < i && #[trigger] cand@[a],
                        n_cand >= 2 ==> exists|a: int, b: int|
                            0 <= a < i && 0 <= b < i && a != b && cand@[a] && cand@[b],
                    decreases files.len() - i,
                {
                    if cand[i] {
                        n_cand = n_cand + 1;
                    }
                    i = i + 1;
                }
                let mut i: usize = 0;
                while i < files.len()
                    invariant
                        *self == (FileClassifier::SplitBased { max_desired_file_size_bytes: max }),
                        t == spec_target_level(*self, files@),
                        below == t.spec_prev(),
                        0 <= i <= files.len(),
                        cand@.len() == files@.len(),
                        forall|k: int| 0 <= k < files@.len() ==> cand@[k] == is_candidate(files@, t, k),
                        n_cand <= 1 ==> forall|a: int, b: int|
                            0 <= a < files@.len() && 0 <= b < files@.len() && a != b ==> !(cand@[a] && cand@[b]),
                        n_cand >= 2 ==> exists|a: int, b: int|
                            0 <= a < files@.len() && 0 <= b < files@.len() && a != b && cand@[a] && cand@[b],
                        outcomes@.len() == i,
                        forall|k: int|
                            0 <= k < i ==> outcomes@[k] == spec_outcome(*self, files@, k),
                    decreases files.len() - i,
                {
                    let o = if !cand[i] {
                        FileOutcome::Skip
                    } else if files[i].compaction_level != below {
                        FileOutcome::Compact
                    } else {
                        let mut clash = false;
                        let mut j: usize = 0;
                        while j < files.len()
                            invariant
                                0 <= j <= files.len(),
                                i < files.len(),
                                cand@.len() == files@.len(),
                                forall|k: int| 0 <= k < files@.len() ==> cand@[k] == is_candidate(files@, t, k),
                                clash == exists|k: int|
                                    0 <= k < j && k != i && #[trigger] is_candidate(files@, t, k)
                                        && spec_overlaps(files@[i as int], files@[k]),
                            decreases files.len() - j,
                        {
                            if j != i && cand[j] && files[i].overlaps(&files[j]) {
                                clash = true;
                            }
                            j = j + 1;
                        }
                        proof {
                            if n_cand >= 2 {
                                let (a, b) = choose|a: int, b: int|
                                    0 <= a < files@.len() && 0 <= b < files@.len() && a != b && cand@[a] && cand@[b];
                                if a != i {
                                    assert(is_candidate(files@, t, a));
                                } else {
                                    assert(is_candidate(files@, t, b));
                                }
                            }
                            if n_cand <= 1 {
                                assert forall|j: int| 0 <= j < files@.len() && j != i implies !#[trigger] is_candidate(files@, t, j) by {
                                    assert(cand@[i as int]);
                                    assert(!(cand@[i as int] && cand@[j]));
                                }
                            }
                        }
                        if !clash && (files[i].file_size_bytes >= max || n_cand <= 1) {
                            FileOutcome::Upgrade
                        } else {
                            FileOutcome::Compact
                        }
                    };
                    outcomes.push(o);
                    i = i + 1;
                }
            },
        }
        let r = FileClassification { target_level: t, outcomes };
        assert(r.outcomes@ =~= spec_classify(*self, files@));
        r
    }
}

} // verus!
