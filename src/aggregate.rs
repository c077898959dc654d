//! Scan-wide aggregation: per-type statistics plus counts of keys folded in
//! and keys that could not be measured.
use vstd::prelude::*;
use crate::key_type::KeyTypeCode;
use crate::stats::{added, AllStats, TypeStats};

verus! {

/// Everything a scan has learnt so far.
pub struct AggregateState {
    stats: AllStats,
    scanned: u64,
    errors: u64,
}

/// Whether one key's metadata is usable and fits the running totals.
pub open spec fn accepts(
    stats: AllStats,
    meta: (Option<u64>, Option<KeyTypeCode>),
) -> bool {
    meta.0 is Some && meta.1 is Some && stats.mem_sum() + meta.0->Some_0 <= u64::MAX
}

/// One `record(key, meta)` call takes the state `old` to `new`.
pub open spec fn recorded(
    old: AggregateState,
    new: AggregateState,
    key: Seq<char>,
    meta: (Option<u64>, Option<KeyTypeCode>),
) -> bool {
    &&& new.wf()
    &&& new.stats_spec().limit_spec() == old.stats_spec().limit_spec()
    &&& accepts(old.stats_spec(), meta) ==> {
        let t = meta.1->Some_0;
        let m = meta.0->Some_0;
        &&& new.scanned_spec() == old.scanned_spec() + 1
        &&& new.errors_spec() == old.errors_spec()
        &&& added(old.stats_spec().slot(t), new.stats_spec().slot(t), m, key)
        &&& new.stats_spec().mem_sum() == old.stats_spec().mem_sum() + m
        &&& forall|u: KeyTypeCode|
            u != t ==> #[trigger] new.stats_spec().slot(u) == old.stats_spec().slot(u)
    }
    &&& !accepts(old.stats_spec(), meta) ==> {
        &&& new.scanned_spec() == old.scanned_spec()
        &&& new.errors_spec() == old.errors_spec() + 1
        &&& new.stats_spec() == old.stats_spec()
    }
}

impl AggregateState {
    pub closed spec fn stats_spec(&self) -> AllStats {
        self.stats
    }

    pub closed spec fn scanned_spec(&self) -> u64 {
        self.scanned
    }

    pub closed spec fn errors_spec(&self) -> u64 {
        self.errors
    }

    /// Statistics are well formed, and every scanned key sits in exactly one
    /// type's count.
    pub open spec fn wf(&self) -> bool {
        &&& self.stats_spec().wf()
        &&& self.stats_spec().count_sum() == self.scanned_spec() as int
    }

    /// Empty state: no keys, zero counters, `top_n` keys retained per type.
    pub fn new(top_n: usize) -> (r: AggregateState)
        requires
            top_n >= 1,
        ensures
            r.wf(),
            r.stats_spec().limit_spec() == top_n,
            forall|t: KeyTypeCode| #[trigger] r.stats_spec().slot(t).history().len() == 0,
            forall|t: KeyTypeCode| #[trigger] r.stats_spec().slot(t).top_view().len() == 0,
            r.stats_spec().mem_sum() == 0,
            r.stats_spec().count_sum() == 0,
            r.scanned_spec() == 0,
            r.errors_spec() == 0,
    {
        let stats = AllStats::with_limit(top_n);
        AggregateState { stats, scanned: 0, errors: 0 }
    }

    /// Folds in one key. A key with both a size and a type is added to its
    /// type's statistics and counted as scanned; a key missing either, or
    /// whose size would push the whole-store total past 64 bits, is counted
    /// as an error and changes nothing else.
    pub fn record(&mut self, key: &str, meta: (Option<u64>, Option<KeyTypeCode>))
        requires
            old(self).wf(),
            old(self).scanned_spec() + old(self).errors_spec() < u64::MAX,
        ensures
            recorded(*old(self), *final(self), key@, meta),
    {
        match meta {
            (Some(mem), Some(t)) => {
                let total = self.stats.total_mem();
                if mem <= u64::MAX - total {
                    proof {
                        let s = self.stats;
                        assert(s.slot(t).count_spec() <= s.count_sum()) by {
                            assert(s.slot(KeyTypeCode::StringKey).wf());
                            assert(s.slot(KeyTypeCode::ListKey).wf());
                            assert(s.slot(KeyTypeCode::SetKey).wf());
                            assert(s.slot(KeyTypeCode::ZSetKey).wf());
                            assert(s.slot(KeyTypeCode::HashKey).wf());
                            assert(s.slot(KeyTypeCode::StreamKey).wf());
                        }
                    }
                    self.stats.add_key(t, mem, key);
                    self.scanned = self.scanned + 1;
                } else {
                    self.errors = self.errors + 1;
                }
            },
            _ => {
                self.errors = self.errors + 1;
            },
        }
    }

    /// Counts `n` keys whose metadata could not be fetched as errors.
    pub fn record_failed(&mut self, n: u64)
        requires
            old(self).wf(),
            old(self).scanned_spec() + old(self).errors_spec() + n <= u64::MAX,
        ensures
            final(self).wf(),
            final(self).stats_spec() == old(self).stats_spec(),
            final(self).scanned_spec() == old(self).scanned_spec(),
            final(self).errors_spec() == old(self).errors_spec() + n,
    {
        self.errors = self.errors + n;
    }

    /// Keys folded into the statistics.
    pub fn scanned(&self) -> (r: u64)
        ensures
            r == self.scanned_spec(),
    {
        self.scanned
    }

    /// Keys that could not be measured.
    pub fn errors(&self) -> (r: u64)
        ensures
            r == self.errors_spec(),
    {
        self.errors
    }

    /// The per-type statistics.
    pub fn stats(&self) -> (r: &AllStats)
        ensures
            *r == self.stats_spec(),
    {
        &self.stats
    }

    /// Statistics of one value type.
    pub fn get(&self, t: KeyTypeCode) -> (r: &TypeStats)
        ensures
            *r == self.stats_spec().slot(t),
    {
        self.stats.get(t)
    }

    /// Whole-store total size of the scanned keys.
    pub fn total_mem(&self) -> (r: u64)
        requires
            self.wf(),
        ensures
            r == self.stats_spec().mem_sum(),
    {
        self.stats.total_mem()
    }
}

} // verus!
