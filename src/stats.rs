//! Per-type bounded "largest keys" tracker with running totals.
use vstd::prelude::*;
use vstd::seq_lib::*;
use vstd::multiset::Multiset;
use crate::key_type::{index_spec, KeyTypeCode};

verus! {

broadcast use vstd::seq_lib::group_to_multiset_ensures;

/// Default number of largest keys retained per type.
pub const TOP_N: usize = 10;

/// Sum of the sizes of a sequence of observed `(size, key)` pairs.
pub open spec fn sum_sizes(h: Seq<(u64, Seq<char>)>) -> int
    decreases h.len(),
{
    if h.len() == 0 {
        0
    } else {
        sum_sizes(h.drop_last()) + h.last().0 as int
    }
}

/// Sizes of a sequence of retained entries, as plain numbers.
pub open spec fn entry_sizes(v: Seq<(u64, String)>) -> Seq<u64> {
    v.map_values(|p: (u64, String)| p.0)
}

/// Sizes of a sequence of observed `(size, key)` pairs.
pub open spec fn history_sizes(h: Seq<(u64, Seq<char>)>) -> Seq<u64> {
    h.map_values(|p: (u64, Seq<char>)| p.0)
}

/// Entries ordered from largest to smallest size.
pub open spec fn sorted_desc(v: Seq<(u64, String)>) -> bool {
    forall|i: int, j: int| 0 <= i < j < v.len() ==> v[i].0 >= v[j].0
}

/// `r` lists the entries of `v` in the order `perm` gives (`r[k]` is
/// `v[perm[k]]`, each index once), and entries of equal size keep their
/// order in `v`.
pub open spec fn stable_arrangement(r: Seq<(u64, String)>, v: Seq<(u64, String)>, perm: Seq<int>) -> bool {
    &&& perm.len() == r.len() == v.len()
    &&& forall|k: int| 0 <= k < r.len() ==> 0 <= #[trigger] perm[k] < v.len() && r[k] == v[perm[k]]
    &&& forall|a: int, b: int| 0 <= a < b < r.len() ==> #[trigger] perm[a] != #[trigger] perm[b]
    &&& forall|a: int, b: int|
        0 <= a < b < r.len() && #[trigger] r[a].0 == #[trigger] r[b].0 ==> perm[a] < perm[b]
}

/// Index `i` holds the first entry of least size.
pub open spec fn is_first_min(v: Seq<(u64, String)>, i: int) -> bool {
    &&& 0 <= i < v.len()
    &&& forall|j: int| 0 <= j < v.len() ==> v[i].0 <= #[trigger] v[j].0
    &&& forall|j: int| 0 <= j < i ==> v[i].0 < #[trigger] v[j].0
}

/// One `add_key(mem, key)` call takes the tracker `old` to `new`.
pub open spec fn added(old: TypeStats, new: TypeStats, mem: u64, key: Seq<char>) -> bool {
    &&& new.wf()
    &&& new.limit_spec() == old.limit_spec()
    &&& new.history() == old.history().push((mem, key))
    &&& new.count_spec() == old.count_spec() + 1
    &&& new.total_mem_spec() == old.total_mem_spec() + mem
    &&& old.top_view().len() < old.limit_spec() ==> {
        &&& new.top_view().len() == old.top_view().len() + 1
        &&& new.top_view().drop_last() == old.top_view()
        &&& new.top_view().last().0 == mem
        &&& new.top_view().last().1@ == key
    }
    &&& old.top_view().len() == old.limit_spec() && (exists|k: int|
        0 <= k < old.top_view().len() && mem > #[trigger] old.top_view()[k].0) ==> exists|i: int|
        #![auto]
        is_first_min(old.top_view(), i) && new.top_view().len() == old.top_view().len()
            && new.top_view()[i].0 == mem && new.top_view()[i].1@ == key && (forall|j: int|
            0 <= j < old.top_view().len() && j != i ==> new.top_view()[j] == old.top_view()[j])
    &&& old.top_view().len() == old.limit_spec() && (forall|k: int|
        0 <= k < old.top_view().len() ==> mem <= #[trigger] old.top_view()[k].0)
        ==> new.top_view() == old.top_view()
}

/// Statistics for one value type: the largest keys seen so far (at most
/// `limit` of them, in no particular order), plus count and total size of
/// every key ever added.
pub struct TypeStats {
    top: Vec<(u64, String)>,
    total_mem: u64,
    count: u64,
    limit: usize,
    /// Every `(size, key)` pair ever added, in order.
    history: Ghost<Seq<(u64, Seq<char>)>>,
    /// For each retained entry, the position in `history` it came from.
    slots: Ghost<Seq<int>>,
    /// Sizes of the added keys that are not retained.
    dropped: Ghost<Multiset<u64>>,
}

impl TypeStats {
    /// Every `(size, key)` pair ever passed to `add_key`, in order.
    pub closed spec fn history(&self) -> Seq<(u64, Seq<char>)> {
        self.history@
    }

    /// Retained entries, in storage order.
    pub closed spec fn top_view(&self) -> Seq<(u64, String)> {
        self.top@
    }

    pub closed spec fn limit_spec(&self) -> nat {
        self.limit as nat
    }

    pub closed spec fn count_spec(&self) -> u64 {
        self.count
    }

    pub closed spec fn total_mem_spec(&self) -> u64 {
        self.total_mem
    }

    /// Whether the history entry at `j` is among the retained ones.
    pub closed spec fn retained(&self, j: int) -> bool {
        exists|k: int| 0 <= k < self.slots@.len() && self.slots@[k] == j
    }

    pub closed spec fn wf(&self) -> bool {
        &&& self.limit >= 1
        &&& self.top@.len() <= self.limit
        &&& self.top@.len() == if self.history@.len() < self.limit {
            self.history@.len()
        } else {
            self.limit as nat
        }
        &&& self.count as nat == self.history@.len()
        &&& self.total_mem as int == sum_sizes(self.history@)
        &&& self.slots@.len() == self.top@.len()
        &&& forall|k: int|
            0 <= k < self.slots@.len() ==> 0 <= #[trigger] self.slots@[k] < self.history@.len()
        &&& forall|k1: int, k2: int|
            0 <= k1 < k2 < self.slots@.len() ==> self.slots@[k1] != self.slots@[k2]
        &&& forall|k: int|
            0 <= k < self.slots@.len() ==> self.history@[#[trigger] self.slots@[k]] == (
            self.top@[k].0,
            self.top@[k].1@,
        )
        &&& history_sizes(self.history@).to_multiset() == entry_sizes(self.top@).to_multiset().add(
            self.dropped@,
        )
        &&& forall|x: u64, k: int|
            #[trigger] self.dropped@.contains(x) && 0 <= k < self.top@.len() ==> x <= #[trigger] self.top@[k].0
        &&& self.history@.len() <= self.limit ==> self.dropped@.len() == 0
        &&& self.history@.len() <= self.limit ==> forall|k: int|
            0 <= k < self.slots@.len() ==> #[trigger] self.slots@[k] == k
        &&& forall|j: int, k: int|
            0 <= j < self.history@.len() && !self.retained(j) && 0 <= k < self.top@.len()
                ==> #[trigger] self.history@[j].0 <= #[trigger] self.top@[k].0
    }

    /// An empty tracker retaining the default number of largest keys.
    pub fn new() -> (r: TypeStats)
        ensures
            r.wf(),
            r.limit_spec() == TOP_N,
            r.history() == Seq::<(u64, Seq<char>)>::empty(),
            r.top_view() == Seq::<(u64, String)>::empty(),
            r.count_spec() == 0,
            r.total_mem_spec() == 0,
    {
        TypeStats::with_limit(TOP_N)
    }

    /// An empty tracker retaining at most `limit` largest keys.
    pub fn with_limit(limit: usize) -> (r: TypeStats)
        requires
            limit >= 1,
        ensures
            r.wf(),
            r.limit_spec() == limit,
            r.history() == Seq::<(u64, Seq<char>)>::empty(),
            r.top_view() == Seq::<(u64, String)>::empty(),
            r.count_spec() == 0,
            r.total_mem_spec() == 0,
    {
        let r = TypeStats {
            top: Vec::new(),
            total_mem: 0,
            count: 0,
            limit,
            history: Ghost(Seq::empty()),
            slots: Ghost(Seq::empty()),
            dropped: Ghost(Multiset::empty()),
        };
        assert(history_sizes(r.history@) =~= Seq::<u64>::empty());
        assert(entry_sizes(r.top@) =~= Seq::<u64>::empty());
        assert(Seq::<u64>::empty().to_multiset() =~= Multiset::<u64>::empty()) by {
            assert(Seq::<u64>::empty().to_multiset().len() == 0);
        }
        assert(Multiset::<u64>::empty().add(Multiset::empty()) =~= Multiset::empty());
        assert(r.dropped@.len() == 0);
        assert(history_sizes(r.history@).to_multiset() == entry_sizes(r.top@).to_multiset().add(
            r.dropped@,
        ));
        r
    }

    /// Records one key of `mem` bytes. Count and total always grow; the key
    /// is retained while fewer than `limit` entries are held, and afterwards
    /// replaces the first least entry only when strictly larger than it.
    pub fn add_key(&mut self, mem: u64, key: &str)
        requires
            old(self).wf(),
            old(self).count_spec() < u64::MAX,
            old(self).total_mem_spec() + mem <= u64::MAX,
        ensures
            added(*old(self), *final(self), mem, key@),
    {
        let ghost old_h = self.history@;
        let ghost h = old_h.push((mem, key@));
        let ghost hi = old_h.len() as int;
        self.count = self.count + 1;
        self.total_mem = self.total_mem + mem;
        self.history = Ghost(h);
        assert(h.drop_last() =~= old_h);
        assert(history_sizes(h) =~= history_sizes(old_h).push(mem));
        if self.top.len() < self.limit {
            let ghost old_top = self.top@;
            self.top.push((mem, key.to_owned()));
            self.slots = Ghost(self.slots@.push(hi));
            assert(entry_sizes(self.top@) =~= entry_sizes(old_top).push(mem));
            assert forall|x: u64, k: int|
                #[trigger] self.dropped@.contains(x) && 0 <= k < self.top@.len() implies x
                <= #[trigger] self.top@[k].0 by {
                assert(self.dropped@.len() == 0);
            }
            assert(history_sizes(h).to_multiset() =~= entry_sizes(self.top@).to_multiset().add(
                self.dropped@,
            ));
            assert(self.top@.drop_last() =~= old(self).top@);
            assert forall|j: int, k: int|
                0 <= j < h.len() && !self.retained(j) && 0 <= k < self.top@.len() implies
                #[trigger] h[j].0 <= #[trigger] self.top@[k].0 by {
                assert(self.slots@[j] == j);
            }
            return;
        }
        let mut min_idx: usize = 0;
        let mut min_mem: u64 = self.top[0].0;
        let mut i: usize = 1;
        while i < self.top.len()
            invariant
                self.top@ == old(self).top@,
                1 <= i <= self.top@.len(),
                min_idx < i,
                min_mem == self.top@[min_idx as int].0,
                forall|j: int| 0 <= j < i ==> min_mem <= #[trigger] self.top@[j].0,
                forall|j: int| 0 <= j < min_idx ==> min_mem < #[trigger] self.top@[j].0,
            decreases self.top@.len() - i,
        {
            if self.top[i].0 < min_mem {
                min_mem = self.top[i].0;
                min_idx = i;
            }
            i = i + 1;
        }
        assert(is_first_min(self.top@, min_idx as int));
        if mem > min_mem {
            let ghost evicted = self.slots@[min_idx as int];
            let ghost old_top = self.top@;
            self.top.set(min_idx, (mem, key.to_owned()));
            self.slots = Ghost(self.slots@.update(min_idx as int, hi));
            assert(entry_sizes(self.top@) =~= entry_sizes(old_top).update(min_idx as int, mem));
            assert(entry_sizes(old_top)[min_idx as int] == min_mem);
            assert(entry_sizes(old_top).to_multiset().count(min_mem) > 0);
            self.dropped = Ghost(self.dropped@.insert(min_mem));
            assert(history_sizes(h).to_multiset() =~= entry_sizes(self.top@).to_multiset().add(
                self.dropped@,
            ));
            assert forall|x: u64, k: int|
                #[trigger] self.dropped@.contains(x) && 0 <= k < self.top@.len() implies x
                <= #[trigger] self.top@[k].0 by {
                if x != min_mem {
                    assert(old(self).dropped@.contains(x));
                    assert(x <= old_top[min_idx as int].0);
                }
                if k != min_idx {
                    assert(min_mem <= old_top[k].0);
                }
            }
            assert forall|j: int, k: int|
                0 <= j < h.len() && !self.retained(j) && 0 <= k < self.top@.len() implies
                #[trigger] h[j].0 <= #[trigger] self.top@[k].0 by {
                if j == hi {
                    assert(self.slots@[min_idx as int] == j);
                } else if j == evicted {
                    assert(old_h[j].0 == min_mem);
                    if k != min_idx {
                        assert(min_mem <= old(self).top@[k].0);
                    }
                } else {
                    assert(!old(self).retained(j)) by {
                        if old(self).retained(j) {
                            let k2 = choose|k2: int|
                                0 <= k2 < old(self).slots@.len() && old(self).slots@[k2] == j;
                            assert(k2 != min_idx);
                            assert(self.slots@[k2] == j);
                        }
                    }
                    assert(old_h[j].0 <= old(self).top@[min_idx as int].0);
                    if k != min_idx {
                        assert(min_mem <= old(self).top@[k].0);
                    }
                }
            }
        } else {
            self.dropped = Ghost(self.dropped@.insert(mem));
            assert(history_sizes(h).to_multiset() =~= entry_sizes(self.top@).to_multiset().add(
                self.dropped@,
            ));
            assert forall|x: u64, k: int|
                #[trigger] self.dropped@.contains(x) && 0 <= k < self.top@.len() implies x
                <= #[trigger] self.top@[k].0 by {
                if x != mem {
                    assert(old(self).dropped@.contains(x));
                }
                assert(min_mem <= self.top@[k].0);
            }
            assert forall|j: int, k: int|
                0 <= j < h.len() && !self.retained(j) && 0 <= k < self.top@.len() implies
                #[trigger] h[j].0 <= #[trigger] self.top@[k].0 by {
                if j == hi {
                    assert(min_mem <= self.top@[k].0);
                } else {
                    assert(old(self).retained(j) == self.retained(j));
                }
            }
        }
    }

    /// The retained entries ordered from largest to smallest size (entries of
    /// equal size keep their storage order); the tracker is not changed.
    pub fn sorted_top_desc(&self) -> (r: Vec<(u64, String)>)
        requires
            self.wf(),
        ensures
            r@.len() == self.top_view().len(),
            r@.len() <= self.limit_spec(),
            r@.to_multiset() == self.top_view().to_multiset(),
            entry_sizes(r@).to_multiset() == entry_sizes(self.top_view()).to_multiset(),
            sorted_desc(r@),
            forall|k: int| 0 <= k < r@.len() ==> self.top_view().contains(#[trigger] r@[k]),
            exists|perm: Seq<int>| stable_arrangement(r@, self.top_view(), perm),
            (forall|a: int, b: int|
                0 <= a < b < self.top_view().len() ==> #[trigger] self.top_view()[a].0
                    != #[trigger] self.top_view()[b].0) ==> forall|a: int, b: int|
                0 <= a < b < r@.len() ==> #[trigger] r@[a].0 > #[trigger] r@[b].0,
            forall|j: int, k: int|
                0 <= j < self.history().len() && !self.retained(j) && 0 <= k < r@.len()
                    ==> #[trigger] self.history()[j].0 <= #[trigger] r@[k].0,
    {
        let mut out: Vec<(u64, String)> = Vec::new();
        let mut i: usize = 0;
        let ghost mut perm: Seq<int> = Seq::empty();
        while i < self.top.len()
            invariant
                self.wf(),
                i <= self.top@.len(),
                out@.len() == i,
                sorted_desc(out@),
                out@.to_multiset() == self.top@.subrange(0, i as int).to_multiset(),
                entry_sizes(out@).to_multiset() == entry_sizes(
                    self.top@.subrange(0, i as int),
                ).to_multiset(),
                forall|k: int|
                    0 <= k < out@.len() ==> self.top@.subrange(0, i as int).contains(
                        #[trigger] out@[k],
                    ),
                stable_arrangement(out@, self.top@.subrange(0, i as int), perm),
            decreases self.top@.len() - i,
        {
            let x: u64 = self.top[i].0;
            let name: String = self.top[i].1.clone();
            let mut p: usize = 0;
            while p < out.len() && out[p].0 >= x
                invariant
                    p <= out@.len(),
                    forall|q: int| 0 <= q < p ==> #[trigger] out@[q].0 >= x,
                decreases out@.len() - p,
            {
                p = p + 1;
            }
            let ghost before = out@;
            let ghost old_perm = perm;
            let ghost e = (x, name);
            assert(e == self.top@[i as int]);
            out.insert(p, (x, name));
            assert(self.top@.subrange(0, i + 1) =~= self.top@.subrange(0, i as int).push(e));
            assert(out@.to_multiset() == before.to_multiset().insert(e)) by {
                to_multiset_insert(before, p as int, e);
            }
            assert(entry_sizes(out@).to_multiset() == entry_sizes(before).to_multiset().insert(x))
                by {
                assert(entry_sizes(out@) =~= entry_sizes(before).insert(p as int, x));
                to_multiset_insert(entry_sizes(before), p as int, x);
            }
            assert(entry_sizes(self.top@.subrange(0, i + 1)) =~= entry_sizes(
                self.top@.subrange(0, i as int),
            ).push(x));
            assert(sorted_desc(out@)) by {
                assert forall|a: int, b: int| 0 <= a < b < out@.len() implies out@[a].0
                    >= out@[b].0 by {
                    if p < b && b < out@.len() && p < before.len() {
                        assert(before[p as int].0 < x);
                    }
                }
            }
            proof {
                perm = old_perm.insert(p as int, i as int);
                let sub = self.top@.subrange(0, i + 1);
                let sub0 = self.top@.subrange(0, i as int);
                assert forall|k: int| 0 <= k < out@.len() implies 0 <= #[trigger] perm[k]
                    < sub.len() && out@[k] == sub[perm[k]] by {
                    if k < p {
                        assert(out@[k] == before[k]);
                        assert(perm[k] == old_perm[k]);
                        assert(sub0[old_perm[k]] == sub[old_perm[k]]);
                    } else if k > p {
                        assert(out@[k] == before[k - 1]);
                        assert(perm[k] == old_perm[k - 1]);
                        assert(sub0[old_perm[k - 1]] == sub[old_perm[k - 1]]);
                    }
                }
                assert forall|a: int, b: int| 0 <= a < b < out@.len() implies #[trigger] perm[a]
                    != #[trigger] perm[b] by {
                    if a != p && b != p {
                        let a0 = if a < p { a } else { a - 1 };
                        let b0 = if b < p { b } else { b - 1 };
                        assert(perm[a] == old_perm[a0] && perm[b] == old_perm[b0]);
                        assert(old_perm[a0] != old_perm[b0]);
                    } else if a == p {
                        assert(perm[b] == old_perm[b - 1]);
                        assert(old_perm[b - 1] < i);
                    } else {
                        assert(perm[a] == old_perm[a]);
                        assert(old_perm[a] < i);
                    }
                }
                assert forall|a: int, b: int|
                    0 <= a < b < out@.len() && #[trigger] out@[a].0 == #[trigger] out@[b].0
                        implies perm[a] < perm[b] by {
                    if a != p && b != p {
                        let a0 = if a < p { a } else { a - 1 };
                        let b0 = if b < p { b } else { b - 1 };
                        assert(perm[a] == old_perm[a0] && perm[b] == old_perm[b0]);
                        assert(out@[a] == before[a0] && out@[b] == before[b0]);
                    } else if a == p {
                        assert(out@[b] == before[b - 1]);
                        assert(before[p as int].0 < x);
                        assert(before[b - 1].0 <= before[p as int].0);
                    } else {
                        assert(perm[a] == old_perm[a]);
                        assert(old_perm[a] < i);
                    }
                }
                assert(stable_arrangement(out@, sub, perm));
            }
            assert forall|k: int| 0 <= k < out@.len() implies self.top@.subrange(
                0,
                i + 1,
            ).contains(#[trigger] out@[k]) by {
                let sub = self.top@.subrange(0, i + 1);
                if k == p {
                    assert(sub[i as int] == out@[k]);
                } else {
                    let b = if k < p { k } else { k - 1 };
                    assert(out@[k] == before[b]);
                    let m = choose|m: int|
                        0 <= m < i && self.top@.subrange(0, i as int)[m] == before[b];
                    assert(sub[m] == out@[k]);
                }
            }
            i = i + 1;
        }
        assert(self.top@.subrange(0, i as int) =~= self.top@);
        assert(entry_sizes(out@).to_multiset() == entry_sizes(self.top_view()).to_multiset());
        assert(stable_arrangement(out@, self.top_view(), perm));
        proof {
            if forall|a: int, b: int|
                0 <= a < b < self.top_view().len() ==> #[trigger] self.top_view()[a].0
                    != #[trigger] self.top_view()[b].0 {
                assert forall|a: int, b: int| 0 <= a < b < out@.len() implies #[trigger] out@[a].0
                    > #[trigger] out@[b].0 by {
                    let (pa, pb) = (perm[a], perm[b]);
                    assert(pa != pb);
                    if pa < pb {
                        assert(self.top_view()[pa].0 != self.top_view()[pb].0);
                    } else {
                        assert(self.top_view()[pb].0 != self.top_view()[pa].0);
                    }
                }
            }
        }
        assert forall|j: int, k: int|
            0 <= j < self.history().len() && !self.retained(j) && 0 <= k < out@.len()
                implies #[trigger] self.history()[j].0 <= #[trigger] out@[k].0 by {
            let m = choose|m: int| 0 <= m < self.top@.len() && self.top@[m] == out@[k];
            assert(self.history@[j].0 <= self.top@[m].0);
        }
        out
    }

    /// Number of keys ever added.
    pub fn count(&self) -> (r: u64)
        ensures
            r == self.count_spec(),
    {
        self.count
    }

    /// Total size of every key ever added.
    pub fn total_mem(&self) -> (r: u64)
        ensures
            r == self.total_mem_spec(),
    {
        self.total_mem
    }

    /// Maximum number of retained entries.
    pub fn limit(&self) -> (r: usize)
        ensures
            r as nat == self.limit_spec(),
    {
        self.limit
    }

    /// Number of entries currently retained.
    pub fn top_len(&self) -> (r: usize)
        ensures
            r as nat == self.top_view().len(),
    {
        self.top.len()
    }
}

} // verus!

verus! {

/// A tracker's count and total are the number and the sum of sizes of all
/// keys ever added to it, whether or not they are retained.
pub proof fn lemma_totals_cover_every_add(s: TypeStats)
    requires
        s.wf(),
    ensures
        s.count_spec() as nat == s.history().len(),
        s.total_mem_spec() as int == sum_sizes(s.history()),
{
}

/// No value ever added but not retained exceeds a retained one, and at most
/// `limit` entries are retained.
pub proof fn lemma_retained_are_largest(s: TypeStats, j: int, k: int)
    requires
        s.wf(),
        0 <= j < s.history().len(),
        !s.retained(j),
        0 <= k < s.top_view().len(),
    ensures
        s.history()[j].0 <= s.top_view()[k].0,
        s.top_view().len() <= s.limit_spec(),
{
}

/// A largest value of a non-empty multiset.
pub open spec fn max_of(m: Multiset<u64>) -> u64 {
    choose|x: u64| m.contains(x) && forall|y: u64| #[trigger] m.contains(y) ==> y <= x
}

/// The `n` largest values of `m` (all of them when it holds fewer).
pub open spec fn largest(m: Multiset<u64>, n: nat) -> Multiset<u64>
    decreases n,
{
    if n == 0 || m.len() == 0 {
        Multiset::empty()
    } else {
        largest(m.remove(max_of(m)), (n - 1) as nat).insert(max_of(m))
    }
}

proof fn lemma_max_exists(m: Multiset<u64>)
    requires
        m.len() > 0,
    ensures
        exists|x: u64| m.contains(x) && forall|y: u64| #[trigger] m.contains(y) ==> y <= x,
    decreases m.len(),
{
    let e = m.choose();
    assert(m.contains(e));
    let rest = m.remove(e);
    if rest.len() == 0 {
        assert forall|y: u64| #[trigger] m.contains(y) implies y <= e by {
            if y != e {
                assert(rest.count(y) == m.count(y));
                assert(rest =~= Multiset::empty());
            }
        }
        assert(m.contains(e) && forall|y: u64| #[trigger] m.contains(y) ==> y <= e);
    } else {
        lemma_max_exists(rest);
        let x = choose|x: u64| rest.contains(x) && forall|y: u64| #[trigger] rest.contains(y) ==> y <= x;
        let top = if e > x { e } else { x };
        assert forall|y: u64| #[trigger] m.contains(y) implies y <= top by {
            if y != e {
                assert(rest.contains(y));
            }
        }
        assert(m.contains(top));
        assert(m.contains(top) && forall|y: u64| #[trigger] m.contains(y) ==> y <= top);
    }
}

/// A multiset split into a part `r` of `n` values and a part `d` none of
/// whose values exceeds a value of `r`: then `r` holds its `n` largest values.
proof fn lemma_split_is_largest(r: Multiset<u64>, d: Multiset<u64>, n: nat)
    requires
        r.len() == n,
        forall|x: u64, y: u64| #[trigger] d.contains(x) && #[trigger] r.contains(y) ==> x <= y,
    ensures
        r == largest(r.add(d), n),
    decreases n,
{
    let h = r.add(d);
    if n == 0 {
        assert(r =~= Multiset::empty());
    } else {
        lemma_max_exists(h);
        let x = max_of(h);
        assert(h.contains(x) && forall|y: u64| #[trigger] h.contains(y) ==> y <= x);
        assert(r.contains(x)) by {
            if !r.contains(x) {
                let y = r.choose();
                assert(r.contains(y));
                assert(d.contains(x));
                assert(h.contains(y));
                assert(y <= x);
                assert(x <= y);
            }
        }
        let r2 = r.remove(x);
        assert forall|a: u64, b: u64| #[trigger] d.contains(a) && #[trigger] r2.contains(b)
            implies a <= b by {
            assert(r.contains(b));
        }
        assert(h.remove(x) =~= r2.add(d));
        lemma_split_is_largest(r2, d, (n - 1) as nat);
        assert(r2.insert(x) =~= r);
    }
}

/// Asking for more values than a multiset holds gives all of them.
proof fn lemma_largest_all(m: Multiset<u64>, n: nat)
    requires
        n >= m.len(),
    ensures
        largest(m, n) == largest(m, m.len()),
    decreases m.len(),
{
    if m.len() > 0 {
        lemma_max_exists(m);
        let x = max_of(m);
        assert(m.contains(x));
        lemma_largest_all(m.remove(x), (n - 1) as nat);
    }
}

/// The retained sizes are exactly the `limit` largest sizes ever added
/// (all of them while fewer were added), and their number is the lesser of
/// `limit` and the count of keys added.
pub proof fn lemma_retained_are_the_largest(s: TypeStats)
    requires
        s.wf(),
    ensures
        entry_sizes(s.top_view()).to_multiset() == largest(
            history_sizes(s.history()).to_multiset(),
            s.limit_spec(),
        ),
        s.top_view().len() == if s.count_spec() < s.limit_spec() {
            s.count_spec() as nat
        } else {
            s.limit_spec()
        },
{
    let h = history_sizes(s.history()).to_multiset();
    let n = s.top_view().len();
    assert(h.len() == s.history().len());
    lemma_split_is_largest(entry_sizes(s.top_view()).to_multiset(), s.dropped@, n);
    if h.len() < s.limit_spec() {
        lemma_largest_all(h, s.limit_spec());
    }
}

/// Feeding the same sizes to two trackers of equal limit, in whatever
/// order, leaves them retaining the same multiset of sizes.
pub proof fn lemma_retained_sizes_ignore_order(a: TypeStats, b: TypeStats)
    requires
        a.wf(),
        b.wf(),
        a.limit_spec() == b.limit_spec(),
        history_sizes(a.history()).to_multiset() == history_sizes(b.history()).to_multiset(),
    ensures
        entry_sizes(a.top_view()).to_multiset() == entry_sizes(b.top_view()).to_multiset(),
{
    let h = history_sizes(a.history()).to_multiset();
    let n = a.top_view().len();
    assert(h.len() == a.history().len());
    assert(h.len() == b.history().len());
    assert(b.top_view().len() == n);
    lemma_split_is_largest(entry_sizes(a.top_view()).to_multiset(), a.dropped@, n);
    lemma_split_is_largest(entry_sizes(b.top_view()).to_multiset(), b.dropped@, n);
}

proof fn lemma_sum_remove(s: Seq<(u64, Seq<char>)>, i: int)
    requires
        0 <= i < s.len(),
    ensures
        sum_sizes(s.remove(i)) + s[i].0 == sum_sizes(s),
    decreases s.len(),
{
    if i == s.len() - 1 {
        assert(s.remove(i) =~= s.drop_last());
    } else {
        lemma_sum_remove(s.drop_last(), i);
        assert(s.remove(i).drop_last() =~= s.drop_last().remove(i));
    }
}

/// Two sequences of added pairs that are permutations of each other have
/// the same size total and the same multiset of sizes.
proof fn lemma_permuted_history(s1: Seq<(u64, Seq<char>)>, s2: Seq<(u64, Seq<char>)>)
    requires
        s1.to_multiset() == s2.to_multiset(),
    ensures
        sum_sizes(s1) == sum_sizes(s2),
        history_sizes(s1).to_multiset() == history_sizes(s2).to_multiset(),
    decreases s1.len(),
{
    assert(s1.len() == s2.len()) by {
        assert(s1.to_multiset().len() == s1.len());
        assert(s2.to_multiset().len() == s2.len());
    }
    if s1.len() == 0 {
        assert(s1 =~= s2);
    } else {
        let e = s1.last();
        let s1r = s1.drop_last();
        assert(s1r.push(e) =~= s1);
        assert(s1.to_multiset() == s1r.to_multiset().insert(e));
        assert(s1.to_multiset().count(e) > 0);
        assert(s2.contains(e));
        let i = choose|i: int| 0 <= i < s2.len() && s2[i] == e;
        let s2r = s2.remove(i);
        to_multiset_remove(s2, i);
        assert(s1r.to_multiset() =~= s2r.to_multiset());
        lemma_permuted_history(s1r, s2r);
        lemma_sum_remove(s2, i);
        assert(history_sizes(s1) =~= history_sizes(s1r).push(e.0));
        assert(history_sizes(s2r) =~= history_sizes(s2).remove(i));
        to_multiset_remove(history_sizes(s2), i);
        assert(history_sizes(s2).to_multiset().count(e.0) > 0) by {
            assert(history_sizes(s2)[i] == e.0);
        }
        assert(history_sizes(s1).to_multiset() =~= history_sizes(s2).to_multiset());
    }
}

/// Adding the same `(size, key)` pairs in any order to two trackers of equal
/// limit gives the same count, the same total and the same multiset of
/// retained sizes.
pub proof fn lemma_permuted_adds_agree(a: TypeStats, b: TypeStats)
    requires
        a.wf(),
        b.wf(),
        a.limit_spec() == b.limit_spec(),
        a.history().to_multiset() == b.history().to_multiset(),
    ensures
        a.count_spec() == b.count_spec(),
        a.total_mem_spec() == b.total_mem_spec(),
        entry_sizes(a.top_view()).to_multiset() == entry_sizes(b.top_view()).to_multiset(),
{
    lemma_permuted_history(a.history(), b.history());
    assert(a.history().to_multiset().len() == a.history().len());
    assert(b.history().to_multiset().len() == b.history().len());
    lemma_retained_sizes_ignore_order(a, b);
}

/// Statistics for all six value types, one slot per variant.
pub struct AllStats {
    inner: [TypeStats; 6],
}

impl AllStats {
    /// Statistics for type `t`.
    pub closed spec fn slot(&self, t: KeyTypeCode) -> TypeStats {
        self.inner@[index_spec(t) as int]
    }

    /// Sum of the totals of all six types.
    pub open spec fn mem_sum(&self) -> int {
        self.slot(KeyTypeCode::StringKey).total_mem_spec() + self.slot(
            KeyTypeCode::ListKey,
        ).total_mem_spec() + self.slot(KeyTypeCode::SetKey).total_mem_spec() + self.slot(
            KeyTypeCode::ZSetKey,
        ).total_mem_spec() + self.slot(KeyTypeCode::HashKey).total_mem_spec() + self.slot(
            KeyTypeCode::StreamKey,
        ).total_mem_spec()
    }

    /// Sum of the key counts of all six types.
    pub open spec fn count_sum(&self) -> int {
        self.slot(KeyTypeCode::StringKey).count_spec() + self.slot(
            KeyTypeCode::ListKey,
        ).count_spec() + self.slot(KeyTypeCode::SetKey).count_spec() + self.slot(
            KeyTypeCode::ZSetKey,
        ).count_spec() + self.slot(KeyTypeCode::HashKey).count_spec() + self.slot(
            KeyTypeCode::StreamKey,
        ).count_spec()
    }

    /// Every slot is a well-formed tracker with the same retention limit, and
    /// the whole-store total fits in 64 bits.
    pub open spec fn wf(&self) -> bool {
        &&& forall|t: KeyTypeCode| #[trigger] self.slot(t).wf()
        &&& forall|t: KeyTypeCode|
            #[trigger] self.slot(t).limit_spec() == self.slot(KeyTypeCode::StringKey).limit_spec()
        &&& self.mem_sum() <= u64::MAX
    }

    /// Retention limit shared by all slots.
    pub open spec fn limit_spec(&self) -> nat {
        self.slot(KeyTypeCode::StringKey).limit_spec()
    }

    /// Empty statistics retaining the default number of largest keys per type.
    pub fn new() -> (r: AllStats)
        ensures
            r.wf(),
            r.limit_spec() == TOP_N,
            forall|t: KeyTypeCode| #[trigger] r.slot(t).history().len() == 0,
            forall|t: KeyTypeCode| #[trigger] r.slot(t).top_view().len() == 0,
            r.count_sum() == 0,
            r.mem_sum() == 0,
    {
        AllStats::with_limit(TOP_N)
    }

    /// Empty statistics retaining at most `limit` largest keys per type.
    pub fn with_limit(limit: usize) -> (r: AllStats)
        requires
            limit >= 1,
        ensures
            r.wf(),
            r.limit_spec() == limit,
            forall|t: KeyTypeCode| #[trigger] r.slot(t).history().len() == 0,
            forall|t: KeyTypeCode| #[trigger] r.slot(t).top_view().len() == 0,
            r.count_sum() == 0,
            r.mem_sum() == 0,
    {
        let r = AllStats {
            inner: [
                TypeStats::with_limit(limit),
                TypeStats::with_limit(limit),
                TypeStats::with_limit(limit),
                TypeStats::with_limit(limit),
                TypeStats::with_limit(limit),
                TypeStats::with_limit(limit),
            ],
        };
        assert forall|t: KeyTypeCode| #[trigger] r.slot(t).wf() by {
            assert(0 <= index_spec(t) < 6);
        }
        assert forall|t: KeyTypeCode| #[trigger] r.slot(t).top_view().len() == 0 by {
            assert(0 <= index_spec(t) < 6);
        }
        r
    }

    /// Statistics for type `t`.
    pub fn get(&self, t: KeyTypeCode) -> (r: &TypeStats)
        ensures
            *r == self.slot(t),
    {
        &self.inner[t.index()]
    }

    /// Whole-store total: the sum of the six per-type totals.
    pub fn total_mem(&self) -> (r: u64)
        requires
            self.wf(),
        ensures
            r == self.mem_sum(),
    {
        self.get(KeyTypeCode::StringKey).total_mem() + self.get(KeyTypeCode::ListKey).total_mem()
            + self.get(KeyTypeCode::SetKey).total_mem() + self.get(KeyTypeCode::ZSetKey).total_mem()
            + self.get(KeyTypeCode::HashKey).total_mem() + self.get(
            KeyTypeCode::StreamKey,
        ).total_mem()
    }

    /// Records one key of type `t` and size `mem` in that type's slot; the
    /// other slots are unchanged.
    pub fn add_key(&mut self, t: KeyTypeCode, mem: u64, key: &str)
        requires
            old(self).wf(),
            old(self).slot(t).count_spec() < u64::MAX,
            old(self).mem_sum() + mem <= u64::MAX,
        ensures
            final(self).wf(),
            final(self).limit_spec() == old(self).limit_spec(),
            final(self).mem_sum() == old(self).mem_sum() + mem,
            final(self).count_sum() == old(self).count_sum() + 1,
            added(old(self).slot(t), final(self).slot(t), mem, key@),
            forall|u: KeyTypeCode| u != t ==> #[trigger] final(self).slot(u) == old(self).slot(u),
    {
        let i = t.index();
        assert(self.slot(t).wf());
        self.inner[i].add_key(mem, key);
        assert forall|u: KeyTypeCode| u != t implies #[trigger] self.slot(u) == old(self).slot(u) by {
            assert(index_spec(u) != index_spec(t));
        }
        assert(self.slot(t).wf());
    }
}

} // verus!
