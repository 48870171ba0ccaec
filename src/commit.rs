use vstd::prelude::*;
use crate::classifier::{FileClassification, FileOutcome};
use crate::file::{ParquetFile, ids_unique};
use crate::level::CompactionLevel;

verus! {

/// The atomic change of one branch: files to delete, files to move to the
/// target level without a rewrite, and new files to create.
#[derive(Clone, Debug)]
pub struct CommitUpdate {
    pub target_level: CompactionLevel,
    pub delete: Vec<u64>,
    pub upgrade: Vec<u64>,
    pub create: Vec<ParquetFile>,
}

/// Why the catalog refused an update.
#[derive(Clone, Copy, Debug, PartialEq, Eq, Structural)]
pub enum CommitError {
    /// The update does not fit the catalog's current files.
    Rejected,
}

/// The identifiers of the files tagged `o`, in order.
pub open spec fn ids_tagged(files: Seq<ParquetFile>, outcomes: Seq<FileOutcome>, o: FileOutcome) -> Seq<u64>
    decreases files.len(),
{
    if files.len() == 0 || outcomes.len() == 0 {
        seq![]
    } else {
        let rest = ids_tagged(files.drop_last(), outcomes.drop_last(), o);
        if outcomes.last() == o {
            rest.push(files.last().id)
        } else {
            rest
        }
    }
}

/// A file placed at a level.
pub open spec fn at_level(f: ParquetFile, l: CompactionLevel) -> ParquetFile {
    ParquetFile { compaction_level: l, ..f }
}

/// The outputs of a merge, all placed at the target level.
pub open spec fn placed(outputs: Seq<ParquetFile>, l: CompactionLevel) -> Seq<ParquetFile> {
    Seq::new(outputs.len(), |i: int| at_level(outputs[i], l))
}

impl CommitUpdate {
    pub open spec fn is_empty(&self) -> bool {
        self.delete@.len() == 0 && self.upgrade@.len() == 0 && self.create@.len() == 0
    }
}

/// The update of a branch: delete what was compacted, upgrade what was
/// tagged so, and create the merge outputs at the target level.
pub open spec fn spec_build_commit(
    files: Seq<ParquetFile>,
    c: FileClassification,
    outputs: Seq<ParquetFile>,
) -> (Seq<u64>, Seq<u64>, Seq<ParquetFile>) {
    (
        ids_tagged(files, c.outcomes@, FileOutcome::Compact),
        ids_tagged(files, c.outcomes@, FileOutcome::Upgrade),
        placed(outputs, c.target_level),
    )
}

/// Builds the update of a branch from its files, their classification and
/// the files the merge produced.
pub fn build_commit(
    files: &Vec<ParquetFile>,
    classification: &FileClassification,
    outputs: &Vec<ParquetFile>,
) -> (r: CommitUpdate)
    requires
        classification.outcomes@.len() == files@.len(),
    ensures
        r.target_level == classification.target_level,
        (r.delete@, r.upgrade@, r.create@) == spec_build_commit(files@, *classification, outputs@),
{
    let mut delete: Vec<u64> = Vec::new();
    let mut upgrade: Vec<u64> = Vec::new();
    let oc = &classification.outcomes;
    let mut i: usize = 0;
    while i < files.len()
        invariant
            0 <= i <= files.len(),
            oc@.len() == files@.len(),
            delete@ == ids_tagged(files@.subrange(0, i as int), oc@.subrange(0, i as int), FileOutcome::Compact),
            upgrade@ == ids_tagged(files@.subrange(0, i as int), oc@.subrange(0, i as int), FileOutcome::Upgrade),
        decreases files.len() - i,
    {
        proof {
            assert(files@.subrange(0, i + 1).drop_last() =~= files@.subrange(0, i as int));
            assert(oc@.subrange(0, i + 1).drop_last() =~= oc@.subrange(0, i as int));
        }
        match oc[i] {
            FileOutcome::Compact => delete.push(files[i].id),
            FileOutcome::Upgrade => upgrade.push(files[i].id),
            FileOutcome::Skip => {},
        }
        i = i + 1;
    }
    assert(files@.subrange(0, files@.len() as int) =~= files@);
    assert(oc@.subrange(0, files@.len() as int) =~= oc@);
    let mut create: Vec<ParquetFile> = Vec::new();
    let t = classification.target_level;
    let mut k: usize = 0;
    while k < outputs.len()
        invariant
            0 <= k <= outputs.len(),
            create@ =~= placed(outputs@.subrange(0, k as int), t),
        decreases outputs.len() - k,
    {
        let f = outputs[k];
        create.push(ParquetFile { compaction_level: t, ..f });
        k = k + 1;
    }
    assert(outputs@.subrange(0, outputs@.len() as int) =~= outputs@);
    CommitUpdate { target_level: t, delete, upgrade, create }
}

/// Some file of the set has the identifier.
pub open spec fn has_id(files: Seq<ParquetFile>, id: u64) -> bool {
    exists|i: int| 0 <= i < files.len() && #[trigger] files[i].id == id
}

/// The update fits the file set: it deletes and upgrades files that are
/// there, never both for one file, never lowers a level, and creates files
/// under fresh, distinct identifiers at the target level.
pub open spec fn commit_valid(files: Seq<ParquetFile>, u: CommitUpdate) -> bool {
    &&& forall|k: int| 0 <= k < u.delete@.len() ==> has_id(files, #[trigger] u.delete@[k])
    &&& forall|k: int|
        0 <= k < u.upgrade@.len() ==> has_id(files, #[trigger] u.upgrade@[k])
    &&& forall|i: int|
        0 <= i < files.len() && u.upgrade@.contains(#[trigger] files[i].id)
            ==> files[i].compaction_level.rank() <= u.target_level.rank()
    &&& forall|k: int| 0 <= k < u.delete@.len() ==> !u.upgrade@.contains(#[trigger] u.delete@[k])
    &&& forall|k: int| 0 <= k < u.create@.len() ==> !has_id(files, #[trigger] u.create@[k].id)
    &&& ids_unique(u.create@)
    &&& forall|k: int|
        0 <= k < u.create@.len() ==> (#[trigger] u.create@[k]).compaction_level == u.target_level
}

/// A file that stays, after the update's upgrade.
pub open spec fn upgraded(f: ParquetFile, u: CommitUpdate) -> ParquetFile {
    if u.upgrade@.contains(f.id) {
        at_level(f, u.target_level)
    } else {
        f
    }
}

/// The files that are not deleted, upgraded where the update says so.
pub open spec fn kept(files: Seq<ParquetFile>, u: CommitUpdate) -> Seq<ParquetFile>
    decreases files.len(),
{
    if files.len() == 0 {
        seq![]
    } else {
        let rest = kept(files.drop_last(), u);
        if u.delete@.contains(files.last().id) {
            rest
        } else {
            rest.push(upgraded(files.last(), u))
        }
    }
}

/// The file set after the update.
pub open spec fn spec_apply(files: Seq<ParquetFile>, u: CommitUpdate) -> Seq<ParquetFile> {
    kept(files, u) + u.create@
}

/// Every file that stays comes from a file of the old set that was not deleted.
pub proof fn lemma_kept_origin(files: Seq<ParquetFile>, u: CommitUpdate)
    ensures
        forall|j: int|
            0 <= j < kept(files, u).len() ==> exists|i: int|
                0 <= i < files.len() && !u.delete@.contains(files[i].id) && #[trigger] kept(
                    files,
                    u,
                )[j] == upgraded(files[i], u),
    decreases files.len(),
{
    if files.len() > 0 {
        let p = files.drop_last();
        lemma_kept_origin(p, u);
        assert forall|j: int| 0 <= j < kept(files, u).len() implies exists|i: int|
            0 <= i < files.len() && !u.delete@.contains(files[i].id) && #[trigger] kept(
                files,
                u,
            )[j] == upgraded(files[i], u) by {
            if j < kept(p, u).len() {
                let i = choose|i: int|
                    0 <= i < p.len() && !u.delete@.contains(p[i].id) && #[trigger] kept(p, u)[j]
                        == upgraded(p[i], u);
                assert(files[i] == p[i]);
            } else {
                assert(files[files.len() - 1] == files.last());
            }
        }
    }
}

/// Every file of the old set that is not deleted stays.
pub proof fn lemma_kept_complete(files: Seq<ParquetFile>, u: CommitUpdate)
    ensures
        forall|i: int|
            0 <= i < files.len() && !u.delete@.contains(#[trigger] files[i].id) ==> exists|j: int|
                0 <= j < kept(files, u).len() && kept(files, u)[j] == upgraded(files[i], u),
    decreases files.len(),
{
    if files.len() > 0 {
        let p = files.drop_last();
        lemma_kept_complete(p, u);
        assert forall|i: int|
            0 <= i < files.len() && !u.delete@.contains(#[trigger] files[i].id) implies exists|j: int|
                0 <= j < kept(files, u).len() && kept(files, u)[j] == upgraded(files[i], u) by {
            if i < p.len() {
                assert(files[i] == p[i]);
                let j = choose|j: int| 0 <= j < kept(p, u).len() && kept(p, u)[j] == upgraded(p[i], u);
                assert(kept(files, u)[j] == kept(p, u)[j]);
            } else {
                let j = kept(p, u).len() as int;
                assert(kept(files, u)[j] == upgraded(files[i], u));
            }
        }
    }
}

/// The set after a valid update keeps identifiers unique.
pub proof fn lemma_apply_unique(files: Seq<ParquetFile>, u: CommitUpdate)
    requires
        ids_unique(files),
        commit_valid(files, u),
    ensures
        ids_unique(spec_apply(files, u)),
    decreases files.len(),
{
    lemma_kept_unique(files, u);
    lemma_kept_origin(files, u);
    let k = kept(files, u);
    let n = spec_apply(files, u);
    assert forall|a: int, b: int|
        0 <= a < n.len() && 0 <= b < n.len() && a != b implies #[trigger] n[a].id != #[trigger] n[b].id by {
        if a < k.len() && b >= k.len() {
            let i = choose|i: int| 0 <= i < files.len() && !u.delete@.contains(files[i].id) && #[trigger] k[a] == upgraded(files[i], u);
            assert(n[b] == u.create@[b - k.len()]);
            assert(!has_id(files, u.create@[b - k.len()].id));
            assert(files[i].id == k[a].id);
        } else if a >= k.len() && b < k.len() {
            let i = choose|i: int| 0 <= i < files.len() && !u.delete@.contains(files[i].id) && #[trigger] k[b] == upgraded(files[i], u);
            assert(n[a] == u.create@[a - k.len()]);
            assert(!has_id(files, u.create@[a - k.len()].id));
            assert(files[i].id == k[b].id);
        } else if a >= k.len() && b >= k.len() {
            assert(n[a] == u.create@[a - k.len()]);
            assert(n[b] == u.create@[b - k.len()]);
        } else {
            assert(n[a] == k[a]);
            assert(n[b] == k[b]);
        }
    }
}

proof fn lemma_kept_unique(files: Seq<ParquetFile>, u: CommitUpdate)
    requires
        ids_unique(files),
    ensures
        ids_unique(kept(files, u)),
    decreases files.len(),
{
    if files.len() > 0 {
        let p = files.drop_last();
        assert forall|a: int, b: int|
            0 <= a < p.len() && 0 <= b < p.len() && a != b implies #[trigger] p[a].id != #[trigger] p[b].id by {
            assert(p[a] == files[a]);
            assert(p[b] == files[b]);
        }
        lemma_kept_unique(p, u);
        lemma_kept_origin(p, u);
        let k = kept(files, u);
        let kp = kept(p, u);
        if !u.delete@.contains(files.last().id) {
            assert forall|a: int, b: int|
                0 <= a < k.len() && 0 <= b < k.len() && a != b implies #[trigger] k[a].id != #[trigger] k[b].id by {
                if a < kp.len() && b < kp.len() {
                    assert(k[a] == kp[a]);
                    assert(k[b] == kp[b]);
                } else if a < kp.len() {
                    let i = choose|i: int| 0 <= i < p.len() && !u.delete@.contains(p[i].id) && #[trigger] kp[a] == upgraded(p[i], u);
                    assert(k[a] == kp[a]);
                    assert(files[i] == p[i]);
                    assert(files[files.len() - 1] == files.last());
                } else {
                    let i = choose|i: int| 0 <= i < p.len() && !u.delete@.contains(p[i].id) && #[trigger] kp[b] == upgraded(p[i], u);
                    assert(k[b] == kp[b]);
                    assert(files[i] == p[i]);
                    assert(files[files.len() - 1] == files.last());
                }
            }
        }
    }
}

/// The durable record of a partition's files.
#[derive(Debug)]
pub struct Catalog {
    pub files: Vec<ParquetFile>,
}

fn vec_contains(v: &Vec<u64>, x: u64) -> (r: bool)
    ensures
        r == v@.contains(x),
{
    let mut i: usize = 0;
    while i < v.len()
        invariant
            0 <= i <= v.len(),
            forall|k: int| 0 <= k < i ==> v@[k] != x,
        decreases v.len() - i,
    {
        if v[i] == x {
            assert(v@[i as int] == x);
            return true;
        }
        i = i + 1;
    }
    false
}

fn find_id(files: &Vec<ParquetFile>, id: u64) -> (r: Option<usize>)
    ensures
        match r {
            Some(i) => i < files@.len() && files@[i as int].id == id,
            None => !has_id(files@, id),
        },
{
    let mut i: usize = 0;
    while i < files.len()
        invariant
            0 <= i <= files.len(),
            forall|k: int| 0 <= k < i ==> files@[k].id != id,
        decreases files.len() - i,
    {
        if files[i].id == id {
            return Some(i);
        }
        i = i + 1;
    }
    None
}

impl Catalog {
    pub open spec fn wf(&self) -> bool {
        ids_unique(self.files@)
    }

    /// Decides whether the update fits the current files.
    pub fn validate(&self, u: &CommitUpdate) -> (r: bool)
        requires
            self.wf(),
        ensures
            r == commit_valid(self.files@, *u),
    {
        let files = &self.files;
        let mut k: usize = 0;
        while k < u.delete.len()
            invariant
                0 <= k <= u.delete.len(),
                files@ == self.files@,
                forall|m: int| 0 <= m < k ==> has_id(files@, #[trigger] u.delete@[m]),
                forall|m: int| 0 <= m < k ==> !u.upgrade@.contains(#[trigger] u.delete@[m]),
            decreases u.delete.len() - k,
        {
            if find_id(files, u.delete[k]).is_none() {
                assert(!has_id(files@, u.delete@[k as int]));
                return false;
            }
            if vec_contains(&u.upgrade, u.delete[k]) {
                assert(u.upgrade@.contains(u.delete@[k as int]));
                return false;
            }
            k = k + 1;
        }
        let mut k: usize = 0;
        while k < u.upgrade.len()
            invariant
                0 <= k <= u.upgrade.len(),
                files@ == self.files@,
                ids_unique(files@),
                forall|m: int| 0 <= m < k ==> has_id(files@, #[trigger] u.upgrade@[m]),
                forall|i: int|
                    0 <= i < files@.len() && u.upgrade@.subrange(0, k as int).contains(#[trigger] files@[i].id)
                        ==> files@[i].compaction_level.rank() <= u.target_level.rank(),
            decreases u.upgrade.len() - k,
        {
            match find_id(files, u.upgrade[k]) {
                None => {
                    assert(!has_id(files@, u.upgrade@[k as int]));
                    return false;
                },
                Some(i) => {
                    if !files[i].compaction_level.le(u.target_level) {
                        assert(u.upgrade@.contains(files@[i as int].id)) by {
                            assert(u.upgrade@[k as int] == files@[i as int].id);
                        }
                        return false;
                    }
                    proof {
                        assert forall|j: int|
                            0 <= j < files@.len() && u.upgrade@.subrange(0, k + 1).contains(#[trigger] files@[j].id)
                                implies files@[j].compaction_level.rank() <= u.target_level.rank() by {
                            let w = choose|w: int| 0 <= w < k + 1 && #[trigger] u.upgrade@.subrange(0, k + 1)[w] == files@[j].id;
                            if w < k {
                                assert(u.upgrade@.subrange(0, k as int)[w] == files@[j].id);
                            } else {
                                assert(files@[j].id == files@[i as int].id);
                            }
                        }
                    }
                },
            }
            k = k + 1;
        }
        assert(u.upgrade@.subrange(0, u.upgrade@.len() as int) =~= u.upgrade@);
        let mut k: usize = 0;
        while k < u.create.len()
            invariant
                0 <= k <= u.create.len(),
                files@ == self.files@,
                forall|m: int| 0 <= m < k ==> !has_id(files@, #[trigger] u.create@[m].id),
                forall|m: int| 0 <= m < k ==> (#[trigger] u.create@[m]).compaction_level == u.target_level,
                forall|a: int, b: int| 0 <= a < k && 0 <= b < k && a != b ==> #[trigger] u.create@[a].id != #[trigger] u.create@[b].id,
            decreases u.create.len() - k,
        {
            if find_id(files, u.create[k].id).is_some() {
                assert(has_id(files@, u.create@[k as int].id));
                return false;
            }
            if u.create[k].compaction_level != u.target_level {
                assert(u.create@[k as int].compaction_level != u.target_level);
                return false;
            }
            let mut m: usize = 0;
            while m < k
                invariant
                    0 <= m <= k < u.create.len(),
                    forall|a: int| 0 <= a < m ==> u.create@[a].id != u.create@[k as int].id,
                decreases k - m,
            {
                if u.create[m].id == u.create[k].id {
                    assert(!ids_unique(u.create@)) by {
                        assert(u.create@[m as int].id == u.create@[k as int].id);
                    }
                    return false;
                }
                m = m + 1;
            }
            k = k + 1;
        }
        true
    }

    /// Applies the update as one transaction: either all of it or, when it
    /// does not fit the current files, none of it.
    pub fn commit(&mut self, u: &CommitUpdate) -> (r: Result<(), CommitError>)
        requires
            old(self).wf(),
        ensures
            final(self).wf(),
            r.is_ok() == commit_valid(old(self).files@, *u),
            r.is_ok() ==> final(self).files@ == spec_apply(old(self).files@, *u),
            r.is_err() ==> *final(self) == *old(self),
    {
        if !self.validate(u) {
            return Err(CommitError::Rejected);
        }
        let mut next: Vec<ParquetFile> = Vec::new();
        let mut i: usize = 0;
        while i < self.files.len()
            invariant
                0 <= i <= self.files.len(),
                next@ == kept(self.files@.subrange(0, i as int), *u),
            decreases self.files.len() - i,
        {
            proof {
                assert(self.files@.subrange(0, i + 1).drop_last() =~= self.files@.subrange(0, i as int));
            }
            let f = self.files[i];
            if !vec_contains(&u.delete, f.id) {
                if vec_contains(&u.upgrade, f.id) {
                    next.push(ParquetFile { compaction_level: u.target_level, ..f });
                } else {
                    next.push(f);
                }
            }
            i = i + 1;
        }
        assert(self.files@.subrange(0, self.files@.len() as int) =~= self.files@);
        let mut k: usize = 0;
        let ghost base = next@;
        while k < u.create.len()
            invariant
                0 <= k <= u.create.len(),
                next@ == base + u.create@.subrange(0, k as int),
            decreases u.create.len() - k,
        {
            next.push(u.create[k]);
            k = k + 1;
            assert(next@ =~= base + u.create@.subrange(0, k as int));
        }
        assert(u.create@.subrange(0, u.create@.len() as int) =~= u.create@);
        proof {
            lemma_apply_unique(self.files@, *u);
        }
        self.files = next;
        Ok(())
    }
}

/// An identifier listed for outcome `o` belongs to a file tagged `o`.
pub proof fn lemma_ids_tagged_origin(files: Seq<ParquetFile>, outcomes: Seq<FileOutcome>, o: FileOutcome, x: u64)
    requires
        outcomes.len() == files.len(),
        ids_tagged(files, outcomes, o).contains(x),
    ensures
        exists|i: int| 0 <= i < files.len() && #[trigger] files[i].id == x && outcomes[i] == o,
    decreases files.len(),
{
    if files.len() > 0 {
        let p = files.drop_last();
        let q = outcomes.drop_last();
        let rest = ids_tagged(p, q, o);
        if outcomes.last() == o && files.last().id == x {
            assert(files[files.len() - 1].id == x);
        } else {
            if outcomes.last() == o {
                let w = choose|w: int| 0 <= w < ids_tagged(files, outcomes, o).len() && ids_tagged(files, outcomes, o)[w] == x;
                assert(rest.push(files.last().id)[w] == x);
                assert(w < rest.len());
                assert(rest[w] == x);
            }
            lemma_ids_tagged_origin(p, q, o, x);
            let i = choose|i: int| 0 <= i < p.len() && #[trigger] p[i].id == x && q[i] == o;
            assert(files[i].id == x);
        }
    }
}

/// Levels never go down: a file that is still there after a commit is at
/// its old level or above, and one that the update neither deletes nor
/// upgrades is left exactly as it was.
pub proof fn lemma_levels_never_decrease(files: Seq<ParquetFile>, u: CommitUpdate, i: int, j: int)
    requires
        ids_unique(files),
        commit_valid(files, u),
        0 <= i < files.len(),
        0 <= j < spec_apply(files, u).len(),
        spec_apply(files, u)[j].id == files[i].id,
    ensures
        spec_apply(files, u)[j].compaction_level.rank() >= files[i].compaction_level.rank(),
        !u.upgrade@.contains(files[i].id) ==> spec_apply(files, u)[j] == files[i],
{
    let k = kept(files, u);
    let n = spec_apply(files, u);
    lemma_kept_origin(files, u);
    if j < k.len() {
        assert(n[j] == k[j]);
        let w = choose|w: int| 0 <= w < files.len() && !u.delete@.contains(files[w].id) && #[trigger] k[j] == upgraded(files[w], u);
        assert(files[w].id == files[i].id);
        assert(w == i);
    } else {
        assert(n[j] == u.create@[j - k.len()]);
        assert(has_id(files, u.create@[j - k.len()].id));
    }
}

/// A file tagged Skip keeps its level, and every other field, through the
/// commit of its branch, in any catalog that holds it.
pub proof fn lemma_skipped_file_untouched(
    catalog: Seq<ParquetFile>,
    files: Seq<ParquetFile>,
    c: FileClassification,
    outputs: Seq<ParquetFile>,
    u: CommitUpdate,
    i: int,
    ci: int,
)
    requires
        ids_unique(files),
        c.outcomes@.len() == files.len(),
        (u.delete@, u.upgrade@, u.create@) == spec_build_commit(files, c, outputs),
        0 <= i < files.len(),
        c.outcomes@[i] == FileOutcome::Skip,
        0 <= ci < catalog.len(),
        catalog[ci] == files[i],
    ensures
        exists|j: int| 0 <= j < spec_apply(catalog, u).len() && spec_apply(catalog, u)[j] == files[i],
{
    let id = files[i].id;
    if u.delete@.contains(id) {
        lemma_ids_tagged_origin(files, c.outcomes@, FileOutcome::Compact, id);
        let w = choose|w: int| 0 <= w < files.len() && #[trigger] files[w].id == id && c.outcomes@[w] == FileOutcome::Compact;
        assert(false);
    }
    if u.upgrade@.contains(id) {
        lemma_ids_tagged_origin(files, c.outcomes@, FileOutcome::Upgrade, id);
        let w = choose|w: int| 0 <= w < files.len() && #[trigger] files[w].id == id && c.outcomes@[w] == FileOutcome::Upgrade;
        assert(false);
    }
    lemma_kept_complete(catalog, u);
    assert(!u.delete@.contains(catalog[ci].id));
    let j = choose|j: int| 0 <= j < kept(catalog, u).len() && kept(catalog, u)[j] == upgraded(catalog[ci], u);
    assert(spec_apply(catalog, u)[j] == kept(catalog, u)[j]);
}

/// A branch whose files are all tagged Skip yields an empty update, which
/// any catalog accepts and which changes nothing.
pub proof fn lemma_empty_branch_is_noop(
    files: Seq<ParquetFile>,
    c: FileClassification,
    u: CommitUpdate,
    catalog: Seq<ParquetFile>,
)
    requires
        c.outcomes@.len() == files.len(),
        forall|i: int| 0 <= i < files.len() ==> c.outcomes@[i] == FileOutcome::Skip,
        (u.delete@, u.upgrade@, u.create@) == spec_build_commit(files, c, seq![]),
        u.target_level == c.target_level,
    ensures
        u.is_empty(),
        commit_valid(catalog, u),
        spec_apply(catalog, u) == catalog,
{
    lemma_no_tag_no_ids(files, c.outcomes@, FileOutcome::Compact);
    lemma_no_tag_no_ids(files, c.outcomes@, FileOutcome::Upgrade);
    assert(u.create@ =~= seq![]);
    lemma_kept_nothing_removed(catalog, u);
    assert(spec_apply(catalog, u) =~= catalog);
}

proof fn lemma_no_tag_no_ids(files: Seq<ParquetFile>, outcomes: Seq<FileOutcome>, o: FileOutcome)
    requires
        outcomes.len() == files.len(),
        forall|i: int| 0 <= i < files.len() ==> outcomes[i] != o,
    ensures
        ids_tagged(files, outcomes, o).len() == 0,
    decreases files.len(),
{
    if files.len() > 0 {
        assert(outcomes.last() == outcomes[outcomes.len() - 1]);
        lemma_no_tag_no_ids(files.drop_last(), outcomes.drop_last(), o);
    }
}

proof fn lemma_kept_nothing_removed(files: Seq<ParquetFile>, u: CommitUpdate)
    requires
        u.delete@.len() == 0,
        u.upgrade@.len() == 0,
    ensures
        kept(files, u) == files,
    decreases files.len(),
{
    if files.len() > 0 {
        lemma_kept_nothing_removed(files.drop_last(), u);
        assert(files.drop_last().push(files.last()) =~= files);
    }
}

} // verus!
