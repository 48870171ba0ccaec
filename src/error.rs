use vstd::prelude::*;

verus! {

/// Kind of a failure that ended a partition's processing.
#[derive(Clone, Copy, Debug, PartialEq, Eq, Structural, Hash)]
pub enum ErrorKind {
    ObjectStore,
    OutOfMemory,
    Timeout,
    Unknown,
}

/// Why a partition was skipped.
#[derive(Clone, Copy, Debug, PartialEq, Eq, Structural)]
pub enum SkipReason {
    /// The continue condition found no useful work.
    NothingToDo,
    /// The partition is over a resource limit.
    ResourceLimit,
    /// A recoverable error; the partition may be retried later.
    Recoverable(ErrorKind),
}

/// What the completion sink records for a partition.
#[derive(Clone, Copy, Debug, PartialEq, Eq, Structural)]
pub enum PartitionOutcome {
    Success,
    Skipped(SkipReason),
    Error(ErrorKind),
}

impl ErrorKind {
    /// Every kind, in declaration order.
    pub fn variants() -> (r: Vec<ErrorKind>)
        ensures
            r@ == seq![ErrorKind::ObjectStore, ErrorKind::OutOfMemory, ErrorKind::Timeout, ErrorKind::Unknown],
    {
        vec![ErrorKind::ObjectStore, ErrorKind::OutOfMemory, ErrorKind::Timeout, ErrorKind::Unknown]
    }

    /// Partition-local kinds; an object store fault is systemic.
    pub open spec fn spec_is_partition_local(self) -> bool {
        match self {
            ErrorKind::OutOfMemory | ErrorKind::Timeout | ErrorKind::Unknown => true,
            ErrorKind::ObjectStore => false,
        }
    }

    pub fn is_partition_local(&self) -> (r: bool)
        ensures
            r == self.spec_is_partition_local(),
    {
        match self {
            ErrorKind::OutOfMemory | ErrorKind::Timeout | ErrorKind::Unknown => true,
            ErrorKind::ObjectStore => false,
        }
    }
}

/// The kinds whose errors are recoverable: none when every error is
/// fatal, else the partition-local ones.
pub open spec fn spec_recoverable_kinds(all_errors_are_fatal: bool) -> Seq<ErrorKind> {
    if all_errors_are_fatal {
        seq![]
    } else {
        seq![ErrorKind::OutOfMemory, ErrorKind::Timeout, ErrorKind::Unknown]
    }
}

pub fn recoverable_kinds(all_errors_are_fatal: bool) -> (r: Vec<ErrorKind>)
    ensures
        r@ == spec_recoverable_kinds(all_errors_are_fatal),
{
    let mut r: Vec<ErrorKind> = Vec::new();
    if all_errors_are_fatal {
        return r;
    }
    let all = ErrorKind::variants();
    if all[0].is_partition_local() {
        r.push(all[0]);
    }
    if all[1].is_partition_local() {
        r.push(all[1]);
    }
    if all[2].is_partition_local() {
        r.push(all[2]);
    }
    if all[3].is_partition_local() {
        r.push(all[3]);
    }
    assert(r@ =~= seq![ErrorKind::OutOfMemory, ErrorKind::Timeout, ErrorKind::Unknown]);
    r
}

/// Whether an error of `kind` is recoverable under the given kinds.
pub open spec fn spec_is_recoverable(recoverable: Seq<ErrorKind>, kind: ErrorKind) -> bool {
    recoverable.contains(kind)
}

/// What the completion sink records for a partition pass: a recoverable
/// error becomes a skip, any other error stays an error.
pub open spec fn spec_outcome_of(result: Result<(), ErrorKind>, recoverable: Seq<ErrorKind>) -> PartitionOutcome {
    match result {
        Ok(()) => PartitionOutcome::Success,
        Err(k) => if spec_is_recoverable(recoverable, k) {
            PartitionOutcome::Skipped(SkipReason::Recoverable(k))
        } else {
            PartitionOutcome::Error(k)
        },
    }
}

pub fn outcome_of(result: Result<(), ErrorKind>, recoverable: &Vec<ErrorKind>) -> (r: PartitionOutcome)
    ensures
        r == spec_outcome_of(result, recoverable@),
{
    match result {
        Ok(()) => PartitionOutcome::Success,
        Err(k) => {
            let mut i: usize = 0;
            while i < recoverable.len()
                invariant
                    0 <= i <= recoverable.len(),
                    result == Err::<(), ErrorKind>(k),
                    forall|j: int| 0 <= j < i ==> recoverable@[j] != k,
                decreases recoverable.len() - i,
            {
                if recoverable[i] == k {
                    assert(recoverable@[i as int] == k);
                    return PartitionOutcome::Skipped(SkipReason::Recoverable(k));
                }
                i = i + 1;
            }
            PartitionOutcome::Error(k)
        },
    }
}

} // verus!
