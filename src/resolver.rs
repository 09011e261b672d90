//! Cache-first resolution of many external ids, with batched upstream fetches for
//! the misses and write-back of every fetched value before the result is handed out.
//!
//! The resolver is a state machine: the caller performs each `ResolveAction`
//! (a cache read, an upstream batch fetch, a cache write) and reports back with
//! the matching `on_*` method. Cached and fetched values are serialized blobs.
use vstd::prelude::*;
use crate::error::SyncError;

verus! {

/// Largest number of ids the catalog API accepts in one batch lookup.
pub const MAX_BATCH_ENTITY_COUNT: usize = 50;

/// Number of upstream batches needed for `n` missing ids: the ceiling of `n / 50`.
pub open spec fn batch_count(n: nat) -> nat {
    (n + 49) / 50
}

/// The `k`-th batch of `s`: the ids at positions `50k` up to `50k + 50`, clipped to `s`.
pub open spec fn batch_of(s: Seq<String>, k: int) -> Seq<String> {
    let end = if 50 * k + 50 <= s.len() { 50 * k + 50 } else { s.len() as int };
    s.subrange(50 * k, end)
}

/// Number of cache misses in `cached`.
pub open spec fn count_missing(cached: Seq<Option<String>>) -> nat
    decreases cached.len(),
{
    if cached.len() == 0 {
        0
    } else {
        count_missing(cached.drop_last()) + if cached.last() is None { 1nat } else { 0nat }
    }
}

/// The ids whose cache entry is missing, in input order.
pub open spec fn missing_ids_of(ids: Seq<String>, cached: Seq<Option<String>>) -> Seq<String>
    decreases cached.len(),
{
    if cached.len() == 0 || ids.len() == 0 {
        seq![]
    } else {
        let rest = missing_ids_of(ids.drop_last(), cached.drop_last());
        if cached.last() is None {
            rest.push(ids.last())
        } else {
            rest
        }
    }
}

/// The final result: at each position the cached value if there is one, else the next
/// fetched value, taken in the order in which the misses occur.
pub open spec fn merged(cached: Seq<Option<String>>, fetched: Seq<String>) -> Seq<String> {
    Seq::new(
        cached.len(),
        |i: int|
            match cached[i] {
                Some(v) => v,
                None => fetched[count_missing(cached.take(i)) as int],
            },
    )
}

/// Pairs each id of `keys` with the value at the same position of `vals`.
pub open spec fn zipped(keys: Seq<String>, vals: Seq<String>) -> Seq<(String, String)> {
    Seq::new(keys.len(), |i: int| (keys[i], vals[i]))
}

proof fn lemma_count_missing_prefix(cached: Seq<Option<String>>, i: int, j: int)
    requires
        0 <= i <= j <= cached.len(),
    ensures
        count_missing(cached.take(i)) <= count_missing(cached.take(j)),
        i < j && cached[i] is None ==> count_missing(cached.take(i)) < count_missing(
            cached.take(j),
        ),
    decreases j - i,
{
    if i < j {
        lemma_count_missing_prefix(cached, i, j - 1);
        assert(cached.take(j).drop_last() =~= cached.take(j - 1));
    }
}

proof fn lemma_missing_len(ids: Seq<String>, cached: Seq<Option<String>>)
    requires
        ids.len() == cached.len(),
    ensures
        missing_ids_of(ids, cached).len() == count_missing(cached),
    decreases cached.len(),
{
    if cached.len() > 0 {
        lemma_missing_len(ids.drop_last(), cached.drop_last());
    }
}

/// Every cache miss is requested in exactly one batch, at the position that follows
/// the order of the misses; there are `batch_count` batches, none empty and none
/// larger than the upstream limit.
pub proof fn lemma_batches_cover(s: Seq<String>)
    ensures
        forall|k: int| 0 <= k < batch_count(s.len()) ==> 0 < #[trigger] batch_of(s, k).len() <= 50,
        forall|j: int|
            0 <= j < s.len() ==> j / 50 < batch_count(s.len()) && #[trigger] s[j] == batch_of(
                s,
                j / 50,
            )[j % 50],
        s.len() == 0 ==> batch_count(s.len()) == 0,
{
    assert forall|j: int| 0 <= j < s.len() implies j / 50 < batch_count(s.len()) && #[trigger] s[j]
        == batch_of(s, j / 50)[j % 50] by {
        let k = j / 50;
        assert(50 * k <= j < 50 * k + 50);
    }
}

/// The `i`-th id missed the cache, is the `k`-th miss for `k` the misses before it, and
/// receives the `k`-th fetched value.
pub open spec fn miss_placed(ids: Seq<String>, cached: Seq<Option<String>>, fetched: Seq<String>, i: int) -> bool {
    let k = count_missing(cached.take(i)) as int;
    &&& k < fetched.len()
    &&& missing_ids_of(ids, cached)[k] == ids[i]
    &&& merged(cached, fetched)[i] == fetched[k]
}

proof fn lemma_missing_at(ids: Seq<String>, cached: Seq<Option<String>>, i: int)
    requires
        ids.len() == cached.len(),
        0 <= i < cached.len(),
        cached[i] is None,
    ensures
        count_missing(cached.take(i)) < missing_ids_of(ids, cached).len(),
        missing_ids_of(ids, cached)[count_missing(cached.take(i)) as int] == ids[i],
    decreases cached.len(),
{
    let d = cached.drop_last();
    lemma_missing_len(ids.drop_last(), d);
    if i == cached.len() - 1 {
        assert(cached.take(i) =~= d);
    } else {
        assert(cached.take(i) =~= d.take(i));
        lemma_missing_at(ids.drop_last(), d, i);
    }
}

/// The resolved list has one value per id, in input order: a cached id gets its cached
/// value, and a missed id gets the value fetched at its own place in the list of misses.
pub proof fn lemma_merged_aligned(ids: Seq<String>, cached: Seq<Option<String>>, fetched: Seq<String>)
    requires
        ids.len() == cached.len(),
        fetched.len() == count_missing(cached),
    ensures
        merged(cached, fetched).len() == ids.len(),
        forall|i: int|
            0 <= i < ids.len() && cached[i] is Some ==> #[trigger] merged(cached, fetched)[i]
                == cached[i]->Some_0,
        forall|i: int|
            0 <= i < ids.len() && (cached[i] is None) ==> miss_placed(ids, cached, fetched, i),
{
    lemma_missing_len(ids, cached);
    assert forall|i: int| 0 <= i < ids.len() && (cached[i] is None) implies miss_placed(
        ids,
        cached,
        fetched,
        i,
    ) by {
        lemma_missing_at(ids, cached, i);
    }
}

/// Collects the ids whose cache entry is missing, in input order.
pub fn missing_ids(ids: &Vec<String>, cached: &Vec<Option<String>>) -> (r: Vec<String>)
    requires
        ids.len() == cached.len(),
    ensures
        r@ == missing_ids_of(ids@, cached@),
{
    let mut r: Vec<String> = Vec::new();
    let mut i: usize = 0;
    while i < cached.len()
        invariant
            ids.len() == cached.len(),
            i <= cached.len(),
            r@ == missing_ids_of(ids@.take(i as int), cached@.take(i as int)),
        decreases cached.len() - i,
    {
        assert(ids@.take(i + 1).drop_last() =~= ids@.take(i as int));
        assert(cached@.take(i + 1).drop_last() =~= cached@.take(i as int));
        if cached[i].is_none() {
            r.push(ids[i].clone());
        }
        i += 1;
    }
    assert(ids@.take(i as int) =~= ids@);
    assert(cached@.take(i as int) =~= cached@);
    r
}

/// The `k`-th upstream batch of the missing ids.
pub fn batch_at(missing: &Vec<String>, k: usize) -> (r: Vec<String>)
    requires
        k < batch_count(missing.len() as nat),
    ensures
        r@ == batch_of(missing@, k as int),
{
    let start: usize = k * MAX_BATCH_ENTITY_COUNT;
    let end: usize = if missing.len() - start >= MAX_BATCH_ENTITY_COUNT {
        start + MAX_BATCH_ENTITY_COUNT
    } else {
        missing.len()
    };
    let mut r: Vec<String> = Vec::new();
    let mut i: usize = start;
    while i < end
        invariant
            start == 50 * k,
            start <= i <= end <= missing.len(),
            end == if 50 * k + 50 <= missing.len() { 50 * k + 50 } else { missing.len() as int },
            r@ == missing@.subrange(start as int, i as int),
        decreases end - i,
    {
        r.push(missing[i].clone());
        i += 1;
        assert(r@ =~= missing@.subrange(start as int, i as int));
    }
    r
}

/// Pairs each id of a batch with the value fetched for it, ready to be cached.
pub fn backfill_pairs(keys: &Vec<String>, vals: &Vec<String>) -> (r: Vec<(String, String)>)
    requires
        keys.len() == vals.len(),
    ensures
        r@ == zipped(keys@, vals@),
{
    let mut r: Vec<(String, String)> = Vec::new();
    let mut i: usize = 0;
    while i < keys.len()
        invariant
            keys.len() == vals.len(),
            i <= keys.len(),
            r@ =~= zipped(keys@, vals@).take(i as int),
        decreases keys.len() - i,
    {
        r.push((keys[i].clone(), vals[i].clone()));
        i += 1;
        assert(r@ =~= zipped(keys@, vals@).take(i as int));
    }
    assert(zipped(keys@, vals@).take(i as int) =~= zipped(keys@, vals@));
    r
}

/// Rebuilds the result in input order from the cache reply and the values fetched for
/// the misses, in the order the misses occur.
pub fn merge_results(cached: &Vec<Option<String>>, fetched: &Vec<String>) -> (r: Vec<String>)
    requires
        count_missing(cached@) <= fetched.len(),
    ensures
        r@ == merged(cached@, fetched@),
        r.len() == cached.len(),
{
    let mut r: Vec<String> = Vec::new();
    let mut i: usize = 0;
    let mut k: usize = 0;
    while i < cached.len()
        invariant
            i <= cached.len(),
            count_missing(cached@) <= fetched.len(),
            k == count_missing(cached@.take(i as int)),
            r@ =~= merged(cached@, fetched@).take(i as int),
        decreases cached.len() - i,
    {
        proof {
            lemma_count_missing_prefix(cached@, i as int, cached.len() as int);
            assert(cached@.take(cached.len() as int) =~= cached@);
            assert(cached@.take(i + 1).drop_last() =~= cached@.take(i as int));
        }
        match &cached[i] {
            Some(v) => {
                r.push(v.clone());
            },
            None => {
                r.push(fetched[k].clone());
                k += 1;
            },
        }
        i += 1;
        assert(r@ =~= merged(cached@, fetched@).take(i as int));
    }
    assert(merged(cached@, fetched@).take(i as int) =~= merged(cached@, fetched@));
    r
}

/// What the caller must do next for a resolution in progress.
pub enum ResolveAction {
    /// Read these keys from the cache namespace; report with `on_cache_read`.
    GetMany(Vec<String>),
    /// Fetch these ids upstream in one batch; report with `on_batch_fetched`.
    FetchBatch(Vec<String>),
    /// Write these (id, value) pairs to the cache namespace; report with `on_cache_written`.
    SetMany(Vec<(String, String)>),
    /// The resolution is complete: one value per input id, in input order.
    Finished(Vec<String>),
    /// The resolution failed and nothing is returned.
    Abort(SyncError),
}

/// Where a resolution stands.
#[derive(Clone, Copy, Debug, PartialEq, Eq, Structural)]
pub enum ResolveStage {
    AwaitingCache,
    AwaitingBatch,
    AwaitingStore,
    Done,
}

/// A resolution of an ordered list of ids against the cache and the upstream API.
pub struct BatchResolver {
    ids: Vec<String>,
    cached: Vec<Option<String>>,
    missing: Vec<String>,
    fetched: Vec<String>,
    next_batch: usize,
    stage: ResolveStage,
}

impl BatchResolver {
    /// The ids being resolved.
    pub closed spec fn ids(self) -> Seq<String> {
        self.ids@
    }

    /// The cache reply, aligned with `ids`.
    pub closed spec fn cached(self) -> Seq<Option<String>> {
        self.cached@
    }

    /// The values fetched upstream so far, in the order of the misses.
    pub closed spec fn fetched(self) -> Seq<String> {
        self.fetched@
    }

    /// Index of the batch being fetched or written back.
    pub closed spec fn next_batch(self) -> nat {
        self.next_batch as nat
    }

    /// Where the resolution stands.
    pub closed spec fn stage_spec(self) -> ResolveStage {
        self.stage
    }

    /// The ids the cache did not hold.
    pub open spec fn missing_spec(self) -> Seq<String> {
        missing_ids_of(self.ids(), self.cached())
    }

    /// The batch currently being fetched or written back.
    pub open spec fn current_batch(self) -> Seq<String> {
        batch_of(self.missing_spec(), self.next_batch() as int)
    }

    /// The fields agree with the stage: the misses come from the cache reply, and the
    /// fetched values fill exactly the batches before the current one (and the current
    /// one, once fetched).
    pub closed spec fn wf(self) -> bool {
        &&& self.stage == ResolveStage::AwaitingCache ==> self.fetched@.len() == 0
        &&& (self.stage == ResolveStage::AwaitingBatch || self.stage == ResolveStage::AwaitingStore)
            ==> {
            &&& self.cached@.len() == self.ids@.len()
            &&& self.missing@ == missing_ids_of(self.ids@, self.cached@)
        }
        &&& self.stage == ResolveStage::AwaitingBatch ==> {
            &&& self.next_batch < batch_count(self.missing@.len())
            &&& self.fetched@.len() == 50 * self.next_batch
        }
        &&& self.stage == ResolveStage::AwaitingStore ==> {
            &&& self.next_batch < batch_count(self.missing@.len())
            &&& self.fetched@.len() == 50 * self.next_batch + batch_of(
                self.missing@,
                self.next_batch as int,
            ).len()
        }
    }

    /// Starts a resolution of `ids`; the first action reads them all from the cache.
    pub fn new(ids: Vec<String>) -> (r: (BatchResolver, ResolveAction))
        ensures
            r.0.wf(),
            r.0.ids() == ids@,
            r.0.stage_spec() == ResolveStage::AwaitingCache,
            r.1 matches ResolveAction::GetMany(k) && k@ == ids@,
    {
        let keys = ids.clone();
        proof {
            assert(keys@ =~= ids@);
        }
        let res = BatchResolver {
            ids,
            cached: Vec::new(),
            missing: Vec::new(),
            fetched: Vec::new(),
            next_batch: 0,
            stage: ResolveStage::AwaitingCache,
        };
        (res, ResolveAction::GetMany(keys))
    }

    /// Where the resolution stands.
    pub fn stage(&self) -> (r: ResolveStage)
        ensures
            r == self.stage_spec(),
    {
        self.stage
    }

    /// Takes the cache reply for all ids (`None` for a miss). With no miss the result is
    /// handed out at once and nothing is fetched; otherwise the first batch of misses is
    /// requested. A reply whose length differs from the ids aborts.
    pub fn on_cache_read(&mut self, cached: Vec<Option<String>>) -> (r: ResolveAction)
        requires
            old(self).wf(),
            old(self).stage_spec() == ResolveStage::AwaitingCache,
        ensures
            final(self).wf(),
            final(self).ids() == old(self).ids(),
            cached.len() != old(self).ids().len() ==> r == ResolveAction::Abort(
                SyncError::CacheUnavailable,
            ) && final(self).stage_spec() == ResolveStage::Done,
            cached.len() == old(self).ids().len() ==> {
                &&& final(self).cached() == cached@
                &&& count_missing(cached@) == 0 ==> {
                    &&& r matches ResolveAction::Finished(v) && v@ == cached@.map_values(
                        |c: Option<String>| c->Some_0,
                    )
                    &&& final(self).stage_spec() == ResolveStage::Done
                }
                &&& count_missing(cached@) > 0 ==> {
                    &&& final(self).stage_spec() == ResolveStage::AwaitingBatch
                    &&& final(self).next_batch() == 0
                    &&& r matches ResolveAction::FetchBatch(b) && b@ == final(self).current_batch()
                }
            },
    {
        if cached.len() != self.ids.len() {
            self.stage = ResolveStage::Done;
            return ResolveAction::Abort(SyncError::CacheUnavailable);
        }
        self.missing = missing_ids(&self.ids, &cached);
        self.cached = cached;
        proof {
            lemma_missing_len(self.ids@, self.cached@);
        }
        if self.missing.len() == 0 {
            self.stage = ResolveStage::Done;
            let out = merge_results(&self.cached, &self.fetched);
            proof {
                assert(self.cached@.take(self.cached@.len() as int) =~= self.cached@);
                assert forall|i: int| 0 <= i < self.cached@.len() implies self.cached@[i] is Some by {
                    lemma_count_missing_prefix(self.cached@, i, self.cached@.len() as int);
                }
                assert(out@ =~= self.cached@.map_values(|c: Option<String>| c->Some_0));
            }
            return ResolveAction::Finished(out);
        }
        self.next_batch = 0;
        self.stage = ResolveStage::AwaitingBatch;
        ResolveAction::FetchBatch(batch_at(&self.missing, 0))
    }

    /// Takes the values fetched for the current batch, in the batch's order. They join
    /// the fetched values and the next action writes them all to the cache. A reply whose
    /// length differs from the batch aborts.
    pub fn on_batch_fetched(&mut self, values: Vec<String>) -> (r: ResolveAction)
        requires
            old(self).wf(),
            old(self).stage_spec() == ResolveStage::AwaitingBatch,
        ensures
            final(self).wf(),
            final(self).ids() == old(self).ids(),
            final(self).cached() == old(self).cached(),
            final(self).next_batch() == old(self).next_batch(),
            values.len() != old(self).current_batch().len() ==> r == ResolveAction::Abort(
                SyncError::UpstreamResponse,
            ) && final(self).stage_spec() == ResolveStage::Done,
            values.len() == old(self).current_batch().len() ==> {
                &&& final(self).stage_spec() == ResolveStage::AwaitingStore
                &&& final(self).fetched() == old(self).fetched() + values@
                &&& r matches ResolveAction::SetMany(p) && p@ == zipped(
                    old(self).current_batch(),
                    values@,
                )
            },
    {
        let keys = batch_at(&self.missing, self.next_batch);
        if values.len() != keys.len() {
            self.stage = ResolveStage::Done;
            return ResolveAction::Abort(SyncError::UpstreamResponse);
        }
        let pairs = backfill_pairs(&keys, &values);
        let mut values = values;
        self.fetched.append(&mut values);
        self.stage = ResolveStage::AwaitingStore;
        ResolveAction::SetMany(pairs)
    }

    /// Takes the acknowledgement of the cache write for the current batch. The next batch
    /// is requested if one is left; otherwise the result is handed out, so that no
    /// result leaves the resolver before every fetched value has been written back.
    pub fn on_cache_written(&mut self) -> (r: ResolveAction)
        requires
            old(self).wf(),
            old(self).stage_spec() == ResolveStage::AwaitingStore,
        ensures
            final(self).wf(),
            final(self).ids() == old(self).ids(),
            final(self).cached() == old(self).cached(),
            final(self).fetched() == old(self).fetched(),
            old(self).next_batch() + 1 < batch_count(old(self).missing_spec().len()) ==> {
                &&& final(self).stage_spec() == ResolveStage::AwaitingBatch
                &&& final(self).next_batch() == old(self).next_batch() + 1
                &&& r matches ResolveAction::FetchBatch(b) && b@ == final(self).current_batch()
            },
            old(self).next_batch() + 1 >= batch_count(old(self).missing_spec().len()) ==> {
                &&& final(self).stage_spec() == ResolveStage::Done
                &&& final(self).fetched().len() == count_missing(final(self).cached())
                &&& r matches ResolveAction::Finished(v) && v@ == merged(
                    final(self).cached(),
                    final(self).fetched(),
                )
            },
    {
        proof {
            lemma_missing_len(self.ids@, self.cached@);
        }
        if self.missing.len() - self.next_batch * MAX_BATCH_ENTITY_COUNT > MAX_BATCH_ENTITY_COUNT {
            self.next_batch = self.next_batch + 1;
            self.stage = ResolveStage::AwaitingBatch;
            return ResolveAction::FetchBatch(batch_at(&self.missing, self.next_batch));
        }
        self.stage = ResolveStage::Done;
        ResolveAction::Finished(merge_results(&self.cached, &self.fetched))
    }
}

} // verus!
