use vstd::prelude::*;
use crate::file::{ParquetFile, size_in_levels};
use crate::filter::size_matching;
use crate::level::{CompactionLevel, LevelRange};

verus! {

/// How the merge of a branch's files is written out.
#[derive(Clone, Debug)]
pub enum PlanKind {
    /// Nothing to merge.
    Nothing,
    /// One output file.
    Compact,
    /// One output file per time interval cut at these instants.
    Split { split_times: Vec<i64> },
}

/// The logical description of one branch's merge.
#[derive(Clone, Debug)]
pub struct CompactionPlan {
    pub input_ids: Vec<u64>,
    pub target_level: CompactionLevel,
    pub kind: PlanKind,
}

/// Turns the files to merge into a plan sized by the desired output size.
#[derive(Clone, Copy, Debug, PartialEq, Eq, Structural)]
pub struct IrPlanner {
    /// The size an output file should have.
    pub max_desired_file_size_bytes: u64,
    /// Total input up to `max_desired * 100 / this` is cut in two, not more.
    pub percentage_max_file_size: u16,
    /// Where, in percent of the time span, that single cut lies.
    pub split_percentage: u16,
}

pub open spec fn spec_min_time(files: Seq<ParquetFile>) -> int
    decreases files.len(),
{
    if files.len() <= 1 {
        if files.len() == 0 { 0 } else { files[0].min_time as int }
    } else {
        let m = spec_min_time(files.drop_last());
        if files.last().min_time < m { files.last().min_time as int } else { m }
    }
}

pub open spec fn spec_max_time(files: Seq<ParquetFile>) -> int
    decreases files.len(),
{
    if files.len() <= 1 {
        if files.len() == 0 { 0 } else { files[0].max_time as int }
    } else {
        let m = spec_max_time(files.drop_last());
        if files.last().max_time > m { files.last().max_time as int } else { m }
    }
}

/// Length of the time range the files cover (zero if it is empty).
pub open spec fn spec_span(files: Seq<ParquetFile>) -> int {
    if spec_max_time(files) >= spec_min_time(files) {
        spec_max_time(files) - spec_min_time(files)
    } else {
        0
    }
}

/// Number of outputs when the input is over the large cutoff: enough for
/// each to be at most the desired size, and no more than there are
/// instants in the time span.
pub open spec fn spec_n_outputs(total: int, max_desired: int, span: int) -> int {
    let n = (total + max_desired - 1) / max_desired;
    if n > span + 1 { span + 1 } else { n }
}

impl IrPlanner {
    pub open spec fn wf(&self) -> bool {
        &&& self.max_desired_file_size_bytes > 0
        &&& 1 <= self.percentage_max_file_size <= 100
        &&& self.split_percentage <= 100
    }

    pub open spec fn large_cutoff(&self) -> int {
        self.max_desired_file_size_bytes * 100 / (self.percentage_max_file_size as int)
    }

    /// The cut instants of a plan over files with the given total size,
    /// earliest instant and span.
    pub open spec fn spec_split_times(&self, total: int, lo: int, span: int) -> Seq<i64> {
        if total <= self.large_cutoff() {
            seq![(lo + span * self.split_percentage / 100) as i64]
        } else {
            let n = spec_n_outputs(total, self.max_desired_file_size_bytes as int, span);
            Seq::new((n - 1) as nat, |k: int| (lo + span * (k + 1) / n) as i64)
        }
    }
}

/// Least `min_time` and greatest `max_time` of non-empty files.
fn time_span(files: &Vec<ParquetFile>) -> (r: (i64, i64))
    requires
        files@.len() > 0,
    ensures
        r.0 == spec_min_time(files@),
        r.1 == spec_max_time(files@),
{
    let mut lo = files[0].min_time;
    let mut hi = files[0].max_time;
    let mut i: usize = 1;
    while i < files.len()
        invariant
            1 <= i <= files.len(),
            lo == spec_min_time(files@.subrange(0, i as int)),
            hi == spec_max_time(files@.subrange(0, i as int)),
        decreases files.len() - i,
    {
        proof {
            assert(files@.subrange(0, i + 1).drop_last() =~= files@.subrange(0, i as int));
        }
        if files[i].min_time < lo {
            lo = files[i].min_time;
        }
        if files[i].max_time > hi {
            hi = files[i].max_time;
        }
        i = i + 1;
    }
    assert(files@.subrange(0, files@.len() as int) =~= files@);
    (lo, hi)
}

proof fn lemma_span_bounds(files: Seq<ParquetFile>)
    requires
        files.len() > 0,
    ensures
        i64::MIN <= spec_min_time(files) <= i64::MAX,
        i64::MIN <= spec_max_time(files) <= i64::MAX,
    decreases files.len(),
{
    if files.len() > 1 {
        lemma_span_bounds(files.drop_last());
    }
}

impl IrPlanner {
    /// Plans the merge of `files` into `target_level`: nothing for no file;
    /// one output for a single file or a total within the desired size; one
    /// cut at `split_percentage` of the time span up to the large cutoff;
    /// beyond it, evenly spaced cuts into outputs of at most the desired size.
    pub fn plan(&self, files: &Vec<ParquetFile>, target_level: CompactionLevel) -> (r: CompactionPlan)
        requires
            self.wf(),
        ensures
            r.target_level == target_level,
            r.input_ids@ == Seq::new(files@.len(), |i: int| files@[i].id),
            files@.len() == 0 ==> r.kind is Nothing,
            files@.len() > 0 && (files@.len() == 1 || size_in_levels(files@, 0, 2)
                <= self.max_desired_file_size_bytes) ==> r.kind is Compact,
            files@.len() > 1 && size_in_levels(files@, 0, 2) > self.max_desired_file_size_bytes ==> (
            match r.kind {
                PlanKind::Split { split_times } => split_times@ == self.spec_split_times(
                    size_in_levels(files@, 0, 2),
                    spec_min_time(files@),
                    spec_span(files@),
                ),
                _ => false,
            }),
    {
        let mut ids: Vec<u64> = Vec::new();
        let mut i: usize = 0;
        while i < files.len()
            invariant
                0 <= i <= files.len(),
                ids@ == Seq::new(i as nat, |k: int| files@[k].id),
            decreases files.len() - i,
        {
            ids.push(files[i].id);
            i = i + 1;
            assert(ids@ =~= Seq::new(i as nat, |k: int| files@[k].id));
        }
        assert(ids@ =~= Seq::new(files@.len(), |k: int| files@[k].id));
        if files.len() == 0 {
            return CompactionPlan { input_ids: ids, target_level, kind: PlanKind::Nothing };
        }
        let all = LevelRange::new(CompactionLevel::Initial, CompactionLevel::Final);
        let total = size_matching(files, all);
        let max = self.max_desired_file_size_bytes;
        if files.len() == 1 || total <= max as u128 {
            return CompactionPlan { input_ids: ids, target_level, kind: PlanKind::Compact };
        }
        let (lo, hi) = time_span(files);
        proof {
            lemma_span_bounds(files@);
        }
        let span: u128 = if hi >= lo { (hi as i128 - lo as i128) as u128 } else { 0 };
        assert(span == spec_span(files@));
        assert(span <= 0xffff_ffff_ffff_ffffu128);
        let large = (max as u128) * 100 / (self.percentage_max_file_size as u128);
        let mut cuts: Vec<i64> = Vec::new();
        if total <= large {
            let sp = self.split_percentage as u128;
            assert(span * sp <= span * 100) by (nonlinear_arith)
                requires sp <= 100, span >= 0;
            let off = span * sp / 100;
            assert(off <= span) by (nonlinear_arith)
                requires off == span * sp / 100, span * sp <= span * 100, span >= 0;
            cuts.push((lo as i128 + off as i128) as i64);
            assert(cuts@ =~= self.spec_split_times(total as int, lo as int, span as int));
        } else {
            let mx = max as u128;
            let mut n = total / mx;
            if total % mx != 0 {
                assert(total / mx < 0xffff_ffff_ffff_ffff_ffff_ffff_ffff_ffffu128) by (nonlinear_arith)
                    requires mx >= 2 || total % mx == 0, total % mx != 0, mx > 0;
                n = n + 1;
            }
            assert(n as int == (total as int + mx as int - 1) / (mx as int)) by (nonlinear_arith)
                requires n as int == total as int / (mx as int) + if total as int % (mx as int) != 0 { 1int } else { 0int }, mx > 0;
            if n > span + 1 {
                n = span + 1;
            }
            assert(n >= 1) by (nonlinear_arith)
                requires n == span + 1 || n as int == (total as int + mx as int - 1) / (mx as int), total > mx, mx > 0;
            let ghost gn = n;
            assert(gn == spec_n_outputs(total as int, mx as int, span as int));
            let mut k: u128 = 1;
            while k < n
                invariant
                    1 <= k <= n,
                    n == gn,
                    n >= 1,
                    n <= span + 1,
                    span <= 0xffff_ffff_ffff_ffffu128,
                    lo as int + span <= i64::MAX,
                    cuts@ =~= Seq::new((k - 1) as nat, |j: int| (lo + span * (j + 1) / (n as int)) as i64),
                decreases n - k,
            {
                assert(span * k <= span * n) by (nonlinear_arith)
                    requires k <= n, span >= 0;
                assert(span * n <= 0xffff_ffff_ffff_ffffu128 * 0x1_0000_0000_0000_0000u128) by (nonlinear_arith)
                    requires n <= span + 1, span <= 0xffff_ffff_ffff_ffffu128;
                let q = span * k / n;
                assert(q <= span) by (nonlinear_arith)
                    requires q as int == (span as int) * (k as int) / (n as int), span * k <= span * n, n >= 1;
                cuts.push((lo as i128 + q as i128) as i64);
                k = k + 1;
                assert(cuts@ =~= Seq::new((k - 1) as nat, |j: int| (lo + span * (j + 1) / (n as int)) as i64));
            }
            assert(cuts@ =~= self.spec_split_times(total as int, lo as int, span as int));
        }
        CompactionPlan { input_ids: ids, target_level, kind: PlanKind::Split { split_times: cuts } }
    }
}

} // verus!
