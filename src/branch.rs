use vstd::prelude::*;
use crate::classifier::{FileClassification, FileClassifier, FileOutcome, spec_classify, spec_target_level};
use crate::commit::{Catalog, CommitError, build_commit, commit_valid, ids_tagged, spec_apply, spec_build_commit};
use crate::file::ParquetFile;
use crate::plan::{CompactionPlan, IrPlanner};

verus! {

/// The files tagged `o`, in order.
pub open spec fn files_tagged(files: Seq<ParquetFile>, outcomes: Seq<FileOutcome>, o: FileOutcome) -> Seq<ParquetFile>
    decreases files.len(),
{
    if files.len() == 0 || outcomes.len() == 0 {
        seq![]
    } else {
        let rest = files_tagged(files.drop_last(), outcomes.drop_last(), o);
        if outcomes.last() == o {
            rest.push(files.last())
        } else {
            rest
        }
    }
}

/// What a branch hands to the query engine: its classification, the files
/// to merge and the plan of the merge.
#[derive(Clone, Debug)]
pub struct BranchPlan {
    pub classification: FileClassification,
    pub files_to_compact: Vec<ParquetFile>,
    pub plan: CompactionPlan,
}

proof fn lemma_tagged_ids(files: Seq<ParquetFile>, outcomes: Seq<FileOutcome>, o: FileOutcome)
    ensures
        Seq::new(files_tagged(files, outcomes, o).len(), |i: int| files_tagged(files, outcomes, o)[i].id)
            == ids_tagged(files, outcomes, o),
    decreases files.len(),
{
    if files.len() > 0 && outcomes.len() > 0 {
        lemma_tagged_ids(files.drop_last(), outcomes.drop_last(), o);
        let ft = files_tagged(files, outcomes, o);
        assert(Seq::new(ft.len(), |i: int| ft[i].id) =~= ids_tagged(files, outcomes, o));
    } else {
        assert(Seq::new(files_tagged(files, outcomes, o).len(), |i: int| files_tagged(files, outcomes, o)[i].id) =~= seq![]);
    }
}

/// Classifies a branch, picks the files to merge and plans their merge
/// into the target level.
pub fn plan_branch(classifier: &FileClassifier, planner: &IrPlanner, files: &Vec<ParquetFile>) -> (r: BranchPlan)
    requires
        planner.wf(),
    ensures
        r.classification.target_level == spec_target_level(*classifier, files@),
        r.classification.outcomes@ == spec_classify(*classifier, files@),
        r.files_to_compact@ == files_tagged(files@, r.classification.outcomes@, FileOutcome::Compact),
        r.plan.target_level == r.classification.target_level,
        r.plan.input_ids@ == ids_tagged(files@, r.classification.outcomes@, FileOutcome::Compact),
        r.files_to_compact@.len() == 0 ==> r.plan.kind is Nothing,
{
    let c = classifier.classify(files);
    let mut chosen: Vec<ParquetFile> = Vec::new();
    let mut i: usize = 0;
    while i < files.len()
        invariant
            0 <= i <= files.len(),
            c.outcomes@.len() == files@.len(),
            chosen@ == files_tagged(files@.subrange(0, i as int), c.outcomes@.subrange(0, i as int), FileOutcome::Compact),
        decreases files.len() - i,
    {
        proof {
            assert(files@.subrange(0, i + 1).drop_last() =~= files@.subrange(0, i as int));
            assert(c.outcomes@.subrange(0, i + 1).drop_last() =~= c.outcomes@.subrange(0, i as int));
        }
        if c.outcomes[i] == FileOutcome::Compact {
            chosen.push(files[i]);
        }
        i = i + 1;
    }
    assert(files@.subrange(0, files@.len() as int) =~= files@);
    assert(c.outcomes@.subrange(0, files@.len() as int) =~= c.outcomes@);
    let plan = planner.plan(&chosen, c.target_level);
    proof {
        lemma_tagged_ids(files@, c.outcomes@, FileOutcome::Compact);
        assert(plan.input_ids@ =~= Seq::new(chosen@.len(), |k: int| chosen@[k].id));
    }
    BranchPlan { classification: c, files_to_compact: chosen, plan }
}

/// Commits a branch: deletes its compacted files, upgrades its upgraded
/// files and creates the merge outputs at the target level, all in one
/// transaction, or changes nothing when the catalog refuses the update.
pub fn commit_branch(
    catalog: &mut Catalog,
    files: &Vec<ParquetFile>,
    classification: &FileClassification,
    outputs: &Vec<ParquetFile>,
) -> (r: Result<(), CommitError>)
    requires
        old(catalog).wf(),
        classification.outcomes@.len() == files@.len(),
    ensures
        final(catalog).wf(),
        ({
            let (d, u, c) = spec_build_commit(files@, *classification, outputs@);
            exists|update: crate::commit::CommitUpdate|
                update.target_level == classification.target_level && update.delete@ == d
                    && update.upgrade@ == u && update.create@ == c
                    && r.is_ok() == commit_valid(old(catalog).files@, update)
                    && (r.is_ok() ==> final(catalog).files@ == spec_apply(old(catalog).files@, update))
        }),
        r.is_err() ==> *final(catalog) == *old(catalog),
{
    let update = build_commit(files, classification, outputs);
    let r = catalog.commit(&update);
    assert(update.delete@ == spec_build_commit(files@, *classification, outputs@).0);
    r
}

/// Classification depends on the strategy and the files alone: the same
/// files classified again give the same target level and the same outcome
/// for every file.
pub proof fn lemma_classification_idempotent(c: FileClassifier, files: Seq<ParquetFile>, again: Seq<ParquetFile>)
    requires
        again == files,
    ensures
        spec_target_level(c, again) == spec_target_level(c, files),
        spec_classify(c, again) == spec_classify(c, files),
        spec_classify(c, files).len() == files.len(),
{
}

} // verus!
