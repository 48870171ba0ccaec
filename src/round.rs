use vstd::prelude::*;
use crate::error::{PartitionOutcome, SkipReason};
use crate::file::{ParquetFile, ids_unique};
use crate::filter::{PartitionFilter, PartitionInfo, all_hold, apply_all};
use crate::level::LevelRange;

verus! {

/// Drops the files of a partition that a strategy never compacts.
#[derive(Clone, Copy, Debug, PartialEq, Eq, Structural)]
pub struct FilesFilter {
    /// Keep only files in this level range; keep all when `None`.
    pub keep: Option<LevelRange>,
}

impl FilesFilter {
    pub open spec fn keeps(&self, f: ParquetFile) -> bool {
        match self.keep {
            Some(r) => r.spec_contains(f.compaction_level),
            None => true,
        }
    }

    pub open spec fn spec_apply(&self, files: Seq<ParquetFile>) -> Seq<ParquetFile>
        decreases files.len(),
    {
        if files.len() == 0 {
            seq![]
        } else {
            let rest = self.spec_apply(files.drop_last());
            if self.keeps(files.last()) {
                rest.push(files.last())
            } else {
                rest
            }
        }
    }

    /// The files the strategy may work on, in order.
    pub fn apply(&self, files: &Vec<ParquetFile>) -> (r: Vec<ParquetFile>)
        ensures
            r@ == self.spec_apply(files@),
    {
        let mut r: Vec<ParquetFile> = Vec::new();
        let mut i: usize = 0;
        while i < files.len()
            invariant
                0 <= i <= files.len(),
                r@ == self.spec_apply(files@.subrange(0, i as int)),
            decreases files.len() - i,
        {
            proof {
                assert(files@.subrange(0, i + 1).drop_last() =~= files@.subrange(0, i as int));
            }
            let keep = match self.keep {
                Some(range) => range.contains(files[i].compaction_level),
                None => true,
            };
            if keep {
                r.push(files[i]);
            }
            i = i + 1;
        }
        assert(files@.subrange(0, files@.len() as int) =~= files@);
        r
    }
}

/// Answer of the partition gate.
#[derive(Clone, Copy, Debug, PartialEq, Eq, Structural)]
pub enum GateDecision {
    /// There is work, within the resource limits.
    Compact,
    /// Stop: the partition is skipped for the given reason.
    Skip(SkipReason),
}

/// The two conjunctions that decide whether a partition is worked on.
#[derive(Clone, Debug)]
pub struct PartitionGate {
    /// Whether there is useful work.
    pub continue_filters: Vec<PartitionFilter>,
    /// Whether the work is within the resource limits.
    pub resource_limit_filters: Vec<PartitionFilter>,
}

pub open spec fn spec_gate(
    cont: Seq<PartitionFilter>,
    limits: Seq<PartitionFilter>,
    info: PartitionInfo,
    files: Seq<ParquetFile>,
) -> GateDecision {
    if !all_hold(cont, info, files) {
        GateDecision::Skip(SkipReason::NothingToDo)
    } else if !all_hold(limits, info, files) {
        GateDecision::Skip(SkipReason::ResourceLimit)
    } else {
        GateDecision::Compact
    }
}

impl PartitionGate {
    /// Checks for useful work first, then the resource limits.
    pub fn check(&self, info: &PartitionInfo, files: &Vec<ParquetFile>) -> (r: GateDecision)
        ensures
            r == spec_gate(self.continue_filters@, self.resource_limit_filters@, *info, files@),
    {
        if !apply_all(&self.continue_filters, info, files) {
            GateDecision::Skip(SkipReason::NothingToDo)
        } else if !apply_all(&self.resource_limit_filters, info, files) {
            GateDecision::Skip(SkipReason::ResourceLimit)
        } else {
            GateDecision::Compact
        }
    }
}

/// What the planner does next with a partition.
#[derive(Clone, Copy, Debug, PartialEq, Eq, Structural)]
pub enum RoundAction {
    /// Run another round.
    Compact,
    /// The partition is finished with this outcome.
    Finish(PartitionOutcome),
}

pub open spec fn spec_next_round(
    first_round: bool,
    rounds_done: u64,
    max_rounds: u64,
    decision: GateDecision,
) -> RoundAction {
    match decision {
        GateDecision::Compact => if rounds_done >= max_rounds {
            RoundAction::Finish(PartitionOutcome::Success)
        } else {
            RoundAction::Compact
        },
        GateDecision::Skip(reason) => if first_round {
            RoundAction::Finish(PartitionOutcome::Skipped(reason))
        } else {
            RoundAction::Finish(PartitionOutcome::Success)
        },
    }
}

/// Whether another round runs, given what the partition gate said of the
/// files as they are now. A rejection before any round is a skip; after a
/// round it means the partition is done.
pub fn next_round(first_round: bool, rounds_done: u64, max_rounds: u64, decision: GateDecision) -> (r: RoundAction)
    ensures
        r == spec_next_round(first_round, rounds_done, max_rounds, decision),
{
    match decision {
        GateDecision::Compact => if rounds_done >= max_rounds {
            RoundAction::Finish(PartitionOutcome::Success)
        } else {
            RoundAction::Compact
        },
        GateDecision::Skip(reason) => if first_round {
            RoundAction::Finish(PartitionOutcome::Skipped(reason))
        } else {
            RoundAction::Finish(PartitionOutcome::Success)
        },
    }
}

impl PartitionGate {
    /// Checks the partition's files as they are now and decides whether
    /// round `rounds_done + 1` runs.
    pub fn decide_round(
        &self,
        info: &PartitionInfo,
        files: &Vec<ParquetFile>,
        rounds_done: u64,
        max_rounds: u64,
    ) -> (r: RoundAction)
        ensures
            r == spec_next_round(
                rounds_done == 0,
                rounds_done,
                max_rounds,
                spec_gate(self.continue_filters@, self.resource_limit_filters@, *info, files@),
            ),
    {
        let decision = self.check(info, files);
        next_round(rounds_done == 0, rounds_done, max_rounds, decision)
    }
}

/// Which files of a round are compacted now.
#[derive(Clone, Copy, Debug, PartialEq, Eq, Structural)]
pub enum RoundSplit {
    /// Every file, in this round.
    AllNow,
}

/// How a round's files are grouped into branches.
#[derive(Clone, Copy, Debug, PartialEq, Eq, Structural)]
pub enum DivideInitial {
    /// One branch with every file.
    SingleBranch,
}

/// The branches of a round.
pub open spec fn spec_branches(d: DivideInitial, files: Seq<ParquetFile>) -> Seq<Seq<ParquetFile>> {
    match d {
        DivideInitial::SingleBranch => if files.len() == 0 {
            seq![]
        } else {
            seq![files]
        },
    }
}

impl RoundSplit {
    /// The files compacted now, and those left for later.
    pub fn split(&self, files: Vec<ParquetFile>) -> (r: (Vec<ParquetFile>, Vec<ParquetFile>))
        ensures
            r.0@ == files@,
            r.1@.len() == 0,
    {
        (files, Vec::new())
    }
}

impl DivideInitial {
    pub fn divide(&self, files: Vec<ParquetFile>) -> (r: Vec<Vec<ParquetFile>>)
        ensures
            r@.len() == spec_branches(*self, files@).len(),
            forall|b: int| 0 <= b < r@.len() ==> (#[trigger] r@[b])@ == spec_branches(*self, files@)[b],
    {
        let mut r: Vec<Vec<ParquetFile>> = Vec::new();
        if files.len() > 0 {
            r.push(files);
        }
        r
    }
}

/// Branches never share a file: over all branches of a round, two places
/// that are not the same place hold files with different identifiers.
pub proof fn lemma_branches_disjoint(d: DivideInitial, files: Seq<ParquetFile>, b1: int, i1: int, b2: int, i2: int)
    requires
        ids_unique(files),
        0 <= b1 < spec_branches(d, files).len(),
        0 <= b2 < spec_branches(d, files).len(),
        0 <= i1 < spec_branches(d, files)[b1].len(),
        0 <= i2 < spec_branches(d, files)[b2].len(),
        (b1, i1) != (b2, i2),
    ensures
        spec_branches(d, files)[b1][i1].id != spec_branches(d, files)[b2][i2].id,
{
    assert(spec_branches(d, files)[b1] == files);
    assert(spec_branches(d, files)[b2] == files);
}

} // verus!
