use vstd::prelude::*;

verus! {

/// Keeps the partitions whose identifier is `shard_id` modulo `n_shards`.
#[derive(Clone, Copy, Debug, PartialEq, Eq, Structural)]
pub struct ShardPartitionFilter {
    pub n_shards: u64,
    pub shard_id: u64,
}

impl ShardPartitionFilter {
    pub open spec fn wf(&self) -> bool {
        self.n_shards > 0 && self.shard_id < self.n_shards
    }

    pub open spec fn owns(&self, id: u64) -> bool {
        id % self.n_shards == self.shard_id
    }

    pub fn new(n_shards: u64, shard_id: u64) -> (r: ShardPartitionFilter)
        requires
            n_shards > 0,
            shard_id < n_shards,
        ensures
            r.n_shards == n_shards,
            r.shard_id == shard_id,
            r.wf(),
    {
        ShardPartitionFilter { n_shards, shard_id }
    }

    pub fn apply(&self, id: u64) -> (r: bool)
        requires
            self.wf(),
        ensures
            r == self.owns(id),
    {
        id % self.n_shards == self.shard_id
    }
}

/// Every filter of the conjunction keeps the identifier.
pub open spec fn all_own(filters: Seq<ShardPartitionFilter>, id: u64) -> bool {
    forall|k: int| 0 <= k < filters.len() ==> #[trigger] filters[k].owns(id)
}

/// The identifiers that every filter keeps, in order.
pub open spec fn spec_filter_ids(ids: Seq<u64>, filters: Seq<ShardPartitionFilter>) -> Seq<u64>
    decreases ids.len(),
{
    if ids.len() == 0 {
        seq![]
    } else {
        let rest = spec_filter_ids(ids.drop_last(), filters);
        if all_own(filters, ids.last()) {
            rest.push(ids.last())
        } else {
            rest
        }
    }
}

/// Drops, before any other work is done on them, the identifiers that some
/// identifier-only filter rejects.
pub fn filter_partition_ids(ids: &Vec<u64>, filters: &Vec<ShardPartitionFilter>) -> (r: Vec<u64>)
    requires
        forall|k: int| 0 <= k < filters@.len() ==> #[trigger] filters@[k].wf(),
    ensures
        r@ == spec_filter_ids(ids@, filters@),
{
    let mut r: Vec<u64> = Vec::new();
    let mut i: usize = 0;
    while i < ids.len()
        invariant
            0 <= i <= ids.len(),
            forall|k: int| 0 <= k < filters@.len() ==> #[trigger] filters@[k].wf(),
            r@ == spec_filter_ids(ids@.subrange(0, i as int), filters@),
        decreases ids.len() - i,
    {
        proof {
            assert(ids@.subrange(0, i + 1).drop_last() =~= ids@.subrange(0, i as int));
        }
        let id = ids[i];
        let mut keep = true;
        let mut k: usize = 0;
        while k < filters.len()
            invariant
                0 <= k <= filters.len(),
                forall|m: int| 0 <= m < filters@.len() ==> #[trigger] filters@[m].wf(),
                keep == forall|m: int| 0 <= m < k ==> #[trigger] filters@[m].owns(id),
            decreases filters.len() - k,
        {
            if !filters[k].apply(id) {
                keep = false;
            }
            k = k + 1;
        }
        if keep {
            r.push(id);
        }
        i = i + 1;
    }
    assert(ids@.subrange(0, ids@.len() as int) =~= ids@);
    r
}

/// An identifier that a filter drops is never handed on.
pub proof fn lemma_filtered_ids_owned(ids: Seq<u64>, filters: Seq<ShardPartitionFilter>, id: u64)
    requires
        !all_own(filters, id),
    ensures
        !spec_filter_ids(ids, filters).contains(id),
    decreases ids.len(),
{
    if ids.len() > 0 {
        lemma_filtered_ids_owned(ids.drop_last(), filters, id);
        let rest = spec_filter_ids(ids.drop_last(), filters);
        if all_own(filters, ids.last()) {
            assert forall|w: int| 0 <= w < rest.len() + 1 implies rest.push(ids.last())[w] != id by {
                if w < rest.len() {
                    assert(rest.push(ids.last())[w] == rest[w]);
                }
            }
        }
    }
}

/// The sequence without any occurrence of `x`.
pub open spec fn without(s: Seq<u64>, x: u64) -> Seq<u64>
    decreases s.len(),
{
    if s.len() == 0 {
        seq![]
    } else {
        let rest = without(s.drop_last(), x);
        if s.last() == x {
            rest
        } else {
            rest.push(s.last())
        }
    }
}

/// The completion records without any record of `x`.
pub open spec fn without_records(s: Seq<(u64, u64)>, x: u64) -> Seq<(u64, u64)>
    decreases s.len(),
{
    if s.len() == 0 {
        seq![]
    } else {
        let rest = without_records(s.drop_last(), x);
        if s.last().0 == x {
            rest
        } else {
            rest.push(s.last())
        }
    }
}

/// The state of admission in the abstract: identifiers in flight,
/// completion records `(id, time)` oldest first, and their bounds.
pub struct AdmissionView {
    pub in_flight: Seq<u64>,
    pub done_at: Seq<(u64, u64)>,
    pub max_tracked: nat,
    pub throttle_secs: u64,
}

/// The identifier completed less than the throttle interval before `now`.
pub open spec fn throttled(v: AdmissionView, id: u64, now: u64) -> bool {
    exists|k: int|
        0 <= k < v.done_at.len() && (#[trigger] v.done_at[k]).0 == id && now < v.done_at[k].1
            + v.throttle_secs
}

/// Offering an identifier: it is admitted, and then in flight, when it is
/// neither in flight nor throttled.
pub open spec fn spec_offer(v: AdmissionView, id: u64, now: u64) -> (AdmissionView, bool) {
    if !v.in_flight.contains(id) && !throttled(v, id, now) {
        (AdmissionView { in_flight: v.in_flight.push(id), ..v }, true)
    } else {
        (v, false)
    }
}

/// Completing an identifier: it leaves the in-flight set and its completion
/// time replaces any earlier record; the oldest record goes when the
/// records are over their bound.
pub open spec fn spec_done(v: AdmissionView, id: u64, now: u64) -> AdmissionView {
    let recs = without_records(v.done_at, id).push((id, now));
    AdmissionView {
        in_flight: without(v.in_flight, id),
        done_at: if recs.len() > v.max_tracked {
            recs.subrange(1, recs.len() as int)
        } else {
            recs
        },
        ..v
    }
}

/// Admission of partitions: at most one pass per identifier at a time, and
/// a quiet interval after each completion.
#[derive(Debug)]
pub struct AdmissionState {
    pub in_flight: Vec<u64>,
    pub done_at: Vec<(u64, u64)>,
    pub max_tracked: usize,
    pub throttle_secs: u64,
}

impl View for AdmissionState {
    type V = AdmissionView;

    open spec fn view(&self) -> AdmissionView {
        AdmissionView {
            in_flight: self.in_flight@,
            done_at: self.done_at@,
            max_tracked: self.max_tracked as nat,
            throttle_secs: self.throttle_secs,
        }
    }
}

impl AdmissionState {
    pub fn new(max_tracked: usize, throttle_secs: u64) -> (r: AdmissionState)
        ensures
            r@.in_flight.len() == 0,
            r@.done_at.len() == 0,
            r@.max_tracked == max_tracked,
            r@.throttle_secs == throttle_secs,
    {
        AdmissionState { in_flight: Vec::new(), done_at: Vec::new(), max_tracked, throttle_secs }
    }

    /// Whether the identifier may start now; if so it is in flight.
    pub fn offer(&mut self, id: u64, now: u64) -> (r: bool)
        ensures
            (final(self)@, r) == spec_offer(old(self)@, id, now),
    {
        let mut i: usize = 0;
        while i < self.in_flight.len()
            invariant
                0 <= i <= self.in_flight.len(),
                forall|k: int| 0 <= k < i ==> self.in_flight@[k] != id,
            decreases self.in_flight.len() - i,
        {
            if self.in_flight[i] == id {
                assert(self.in_flight@[i as int] == id);
                return false;
            }
            i = i + 1;
        }
        let mut k: usize = 0;
        while k < self.done_at.len()
            invariant
                0 <= k <= self.done_at.len(),
                forall|m: int|
                    0 <= m < k ==> !((#[trigger] self.done_at@[m]).0 == id && now < self.done_at@[m].1
                        + self.throttle_secs),
            decreases self.done_at.len() - k,
        {
            let (d, t) = self.done_at[k];
            if d == id && (now as u128) < (t as u128) + (self.throttle_secs as u128) {
                assert(self.done_at@[k as int].0 == id);
                return false;
            }
            k = k + 1;
        }
        self.in_flight.push(id);
        true
    }

    /// Records that the identifier's pass ended at `now`.
    pub fn done(&mut self, id: u64, now: u64)
        ensures
            final(self)@ == spec_done(old(self)@, id, now),
    {
        let mut fl: Vec<u64> = Vec::new();
        let mut i: usize = 0;
        while i < self.in_flight.len()
            invariant
                0 <= i <= self.in_flight.len(),
                fl@ == without(self.in_flight@.subrange(0, i as int), id),
            decreases self.in_flight.len() - i,
        {
            proof {
                assert(self.in_flight@.subrange(0, i + 1).drop_last() =~= self.in_flight@.subrange(0, i as int));
            }
            if self.in_flight[i] != id {
                fl.push(self.in_flight[i]);
            }
            i = i + 1;
        }
        assert(self.in_flight@.subrange(0, self.in_flight@.len() as int) =~= self.in_flight@);
        let mut recs: Vec<(u64, u64)> = Vec::new();
        let mut k: usize = 0;
        while k < self.done_at.len()
            invariant
                0 <= k <= self.done_at.len(),
                recs@ == without_records(self.done_at@.subrange(0, k as int), id),
                recs@.len() <= k,
            decreases self.done_at.len() - k,
        {
            proof {
                assert(self.done_at@.subrange(0, k + 1).drop_last() =~= self.done_at@.subrange(0, k as int));
            }
            let rec = self.done_at[k];
            if rec.0 != id {
                recs.push(rec);
            }
            k = k + 1;
        }
        assert(self.done_at@.subrange(0, self.done_at@.len() as int) =~= self.done_at@);
        recs.push((id, now));
        if recs.len() > self.max_tracked {
            let mut trimmed: Vec<(u64, u64)> = Vec::new();
            let mut m: usize = 1;
            while m < recs.len()
                invariant
                    1 <= m <= recs.len(),
                    trimmed@ == recs@.subrange(1, m as int),
                decreases recs.len() - m,
            {
                trimmed.push(recs[m]);
                m = m + 1;
                assert(trimmed@ =~= recs@.subrange(1, m as int));
            }
            recs = trimmed;
        }
        self.in_flight = fl;
        self.done_at = recs;
    }
}

proof fn lemma_without_absent(s: Seq<u64>, x: u64)
    ensures
        !without(s, x).contains(x),
    decreases s.len(),
{
    if s.len() > 0 {
        lemma_without_absent(s.drop_last(), x);
        let rest = without(s.drop_last(), x);
        if s.last() != x {
            assert forall|w: int| 0 <= w < rest.len() + 1 implies rest.push(s.last())[w] != x by {
                if w < rest.len() {
                    assert(rest.push(s.last())[w] == rest[w]);
                }
            }
        }
    }
}

proof fn lemma_without_records_absent(s: Seq<(u64, u64)>, x: u64)
    ensures
        forall|k: int| 0 <= k < without_records(s, x).len() ==> (#[trigger] without_records(s, x)[k]).0 != x,
    decreases s.len(),
{
    if s.len() > 0 {
        lemma_without_records_absent(s.drop_last(), x);
        let rest = without_records(s.drop_last(), x);
        if s.last().0 != x {
            assert forall|w: int| 0 <= w < rest.len() + 1 implies (#[trigger] rest.push(s.last())[w]).0 != x by {
                if w < rest.len() {
                    assert(rest.push(s.last())[w] == rest[w]);
                }
            }
        }
    }
}

/// An identifier that was just admitted is refused until it completes: no
/// two passes over one partition run at once.
pub proof fn lemma_at_most_one_in_flight(v: AdmissionView, id: u64, t1: u64, t2: u64)
    requires
        spec_offer(v, id, t1).1,
    ensures
        spec_offer(v, id, t1).0.in_flight.contains(id),
        !spec_offer(spec_offer(v, id, t1).0, id, t2).1,
{
    let s = spec_offer(v, id, t1).0;
    assert(s.in_flight[s.in_flight.len() - 1] == id);
}

/// Once an identifier has completed at `t`, it is admitted again at any
/// time from `t` plus the throttle interval on.
pub proof fn lemma_readmitted_after_interval(v: AdmissionView, id: u64, t: u64, later: u64)
    requires
        later >= t + v.throttle_secs,
    ensures
        spec_offer(spec_done(v, id, t), id, later).1,
{
    let d = spec_done(v, id, t);
    lemma_without_absent(v.in_flight, id);
    lemma_without_records_absent(v.done_at, id);
    let base = without_records(v.done_at, id);
    let recs = base.push((id, t));
    assert forall|k: int| 0 <= k < recs.len() && (#[trigger] recs[k]).0 == id implies recs[k].1 == t by {
        if k < base.len() {
            assert(recs[k] == base[k]);
        }
    }
    assert forall|k: int| 0 <= k < d.done_at.len() && (#[trigger] d.done_at[k]).0 == id implies !(later
        < d.done_at[k].1 + d.throttle_secs) by {
        if recs.len() > v.max_tracked {
            assert(d.done_at[k] == recs[k + 1]);
        } else {
            assert(d.done_at[k] == recs[k]);
        }
    }
}

proof fn lemma_without_subset(s: Seq<u64>, x: u64, y: u64)
    requires
        without(s, x).contains(y),
    ensures
        s.contains(y),
    decreases s.len(),
{
    if s.len() > 0 {
        let p = s.drop_last();
        let rest = without(p, x);
        if rest.contains(y) {
            lemma_without_subset(p, x, y);
            let w = choose|w: int| 0 <= w < p.len() && p[w] == y;
            assert(s[w] == y);
        } else {
            let w = choose|w: int| 0 <= w < without(s, x).len() && without(s, x)[w] == y;
            if s.last() != x {
                if w < rest.len() {
                    assert(rest.push(s.last())[w] == rest[w]);
                }
            }
            assert(s[s.len() - 1] == y);
        }
    }
}

proof fn lemma_without_distinct(s: Seq<u64>, x: u64)
    requires
        s.no_duplicates(),
    ensures
        without(s, x).no_duplicates(),
    decreases s.len(),
{
    if s.len() > 0 {
        let p = s.drop_last();
        assert(p.no_duplicates()) by {
            assert forall|a: int, b: int| 0 <= a < p.len() && 0 <= b < p.len() && a != b implies p[a] != p[b] by {
                assert(p[a] == s[a]);
                assert(p[b] == s[b]);
            }
        }
        lemma_without_distinct(p, x);
        let rest = without(p, x);
        if s.last() != x {
            if rest.contains(s.last()) {
                lemma_without_subset(p, x, s.last());
                let w = choose|w: int| 0 <= w < p.len() && p[w] == s.last();
                assert(s[w] == s[s.len() - 1]);
            }
            let n = rest.push(s.last());
            assert forall|a: int, b: int| 0 <= a < n.len() && 0 <= b < n.len() && a != b implies n[a] != n[b] by {
                if a < rest.len() && b < rest.len() {
                    assert(n[a] == rest[a]);
                    assert(n[b] == rest[b]);
                } else if a < rest.len() {
                    assert(n[a] == rest[a]);
                    assert(rest.contains(rest[a]));
                } else if b < rest.len() {
                    assert(n[b] == rest[b]);
                    assert(rest.contains(rest[b]));
                }
            }
        }
    }
}

/// No identifier is ever in flight twice: offering and completing keep the
/// in-flight identifiers distinct.
pub proof fn lemma_in_flight_stays_distinct(v: AdmissionView, id: u64, now: u64)
    requires
        v.in_flight.no_duplicates(),
    ensures
        spec_offer(v, id, now).0.in_flight.no_duplicates(),
        spec_done(v, id, now).in_flight.no_duplicates(),
{
    lemma_without_distinct(v.in_flight, id);
    if spec_offer(v, id, now).1 {
        let n = v.in_flight.push(id);
        assert forall|a: int, b: int| 0 <= a < n.len() && 0 <= b < n.len() && a != b implies n[a] != n[b] by {
            if a < v.in_flight.len() && b < v.in_flight.len() {
                assert(n[a] == v.in_flight[a]);
                assert(n[b] == v.in_flight[b]);
            } else if a < v.in_flight.len() {
                assert(n[a] == v.in_flight[a]);
            } else if b < v.in_flight.len() {
                assert(n[b] == v.in_flight[b]);
            }
        }
    }
}

} // verus!
