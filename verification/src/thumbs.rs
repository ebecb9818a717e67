//! The bookkeeping of a memory-bounded thumbnail cache: decoded sizes, an access clock,
//! and eviction of the least recently used thumbnails until the cache is back within
//! its budget. The images themselves stay with the renderer, keyed alike.
use vstd::prelude::*;

verus! {

/// Default ceiling on decoded thumbnail bytes held in memory.
pub const DEFAULT_BUDGET_BYTES: usize = 536870912;

/// The smallest budget a cache accepts.
pub const MIN_BUDGET_BYTES: usize = 67108864;

/// One cached thumbnail.
#[derive(Debug, Clone, Copy, PartialEq, Eq, Structural)]
pub struct CacheEntry {
    pub key: u64,
    /// Decoded size, counted once the image finished loading; zero while it loads.
    pub bytes: usize,
    /// Access clock at the last use.
    pub stamp: u64,
}

/// The sizes of the entries added up.
pub open spec fn total_bytes(es: Seq<CacheEntry>) -> int
    decreases es.len(),
{
    if es.len() == 0 {
        0
    } else {
        total_bytes(es.drop_last()) + es.last().bytes
    }
}

/// Some entry has this key.
pub open spec fn cached(es: Seq<CacheEntry>, key: u64) -> bool {
    exists|i: int| 0 <= i < es.len() && (#[trigger] es[i]).key == key
}

proof fn lemma_total_remove(es: Seq<CacheEntry>, i: int)
    requires
        0 <= i < es.len(),
    ensures
        total_bytes(es.remove(i)) == total_bytes(es) - es[i].bytes,
    decreases es.len(),
{
    if i < es.len() - 1 {
        let d = es.drop_last();
        lemma_total_remove(d, i);
        assert(es.remove(i).drop_last() =~= d.remove(i));
        assert(es.remove(i).last() == es.last());
    } else {
        assert(es.remove(i) =~= es.drop_last());
    }
}

proof fn lemma_total_update(es: Seq<CacheEntry>, i: int, e: CacheEntry)
    requires
        0 <= i < es.len(),
    ensures
        total_bytes(es.update(i, e)) == total_bytes(es) - es[i].bytes + e.bytes,
    decreases es.len(),
{
    if i < es.len() - 1 {
        lemma_total_update(es.drop_last(), i, e);
        assert(es.update(i, e).drop_last() =~= es.drop_last().update(i, e));
    } else {
        assert(es.update(i, e).drop_last() =~= es.drop_last());
    }
}

proof fn lemma_total_push(es: Seq<CacheEntry>, e: CacheEntry)
    ensures
        total_bytes(es.push(e)) == total_bytes(es) + e.bytes,
{
    assert(es.push(e).drop_last() =~= es);
}

proof fn lemma_total_nonneg(es: Seq<CacheEntry>)
    ensures
        total_bytes(es) >= 0,
        forall|i: int| 0 <= i < es.len() ==> (#[trigger] es[i]).bytes <= total_bytes(es),
    decreases es.len(),
{
    if es.len() > 0 {
        lemma_total_nonneg(es.drop_last());
        assert forall|i: int| 0 <= i < es.len() implies (#[trigger] es[i]).bytes <= total_bytes(es) by {
            if i < es.len() - 1 {
                assert(es[i] == es.drop_last()[i]);
            }
        }
    }
}

/// Decoded sizes and access order of the cached thumbnails, within a memory budget.
pub struct LruImageCache {
    entries: Vec<CacheEntry>,
    clock: u64,
    bytes: usize,
    budget: usize,
}

impl LruImageCache {
    pub closed spec fn spec_entries(&self) -> Seq<CacheEntry> {
        self.entries@
    }

    pub closed spec fn spec_clock(&self) -> u64 {
        self.clock
    }

    pub closed spec fn spec_bytes(&self) -> usize {
        self.bytes
    }

    pub closed spec fn spec_budget(&self) -> usize {
        self.budget
    }

    /// Keys and stamps are unique, no stamp is ahead of the clock, and the byte count is
    /// the sum of the entries' sizes.
    pub open spec fn wf(&self) -> bool {
        let es = self.spec_entries();
        &&& forall|a: int, b: int| 0 <= a < b < es.len() ==> es[a].key != es[b].key && es[a].stamp != es[b].stamp
        &&& forall|a: int| 0 <= a < es.len() ==> (#[trigger] es[a]).stamp <= self.spec_clock()
        &&& self.spec_bytes() == total_bytes(es)
        &&& self.spec_budget() >= MIN_BUDGET_BYTES
    }

    /// An empty cache; a budget below the minimum is raised to it.
    pub fn new(budget: usize) -> (r: Self)
        ensures
            r.wf(),
            r.spec_entries().len() == 0,
            r.spec_clock() == 0,
            r.spec_budget() == if budget < MIN_BUDGET_BYTES {
                MIN_BUDGET_BYTES
            } else {
                budget
            },
    {
        LruImageCache {
            entries: Vec::new(),
            clock: 0,
            bytes: 0,
            budget: if budget < MIN_BUDGET_BYTES {
                MIN_BUDGET_BYTES
            } else {
                budget
            },
        }
    }

    /// Decoded bytes held.
    pub fn bytes(&self) -> (r: usize)
        ensures
            r == self.spec_bytes(),
    {
        self.bytes
    }

    fn position(&self, key: u64) -> (r: Option<usize>)
        ensures
            match r {
                Some(i) => i < self.spec_entries().len() && self.spec_entries()[i as int].key == key,
                None => !cached(self.spec_entries(), key),
            },
    {
        let mut i: usize = 0;
        while i < self.entries.len()
            invariant
                i <= self.entries.len(),
                forall|j: int| 0 <= j < i ==> (#[trigger] self.entries@[j]).key != key,
            decreases self.entries.len() - i,
        {
            if self.entries[i].key == key {
                return Some(i);
            }
            i += 1;
        }
        None
    }

    /// Whether a thumbnail with this key is cached.
    pub fn contains(&self, key: u64) -> (r: bool)
        ensures
            r == cached(self.spec_entries(), key),
    {
        self.position(key).is_some()
    }

    /// Whether the cached thumbnail's decoded size was counted.
    pub fn accounted(&self, key: u64) -> (r: bool)
        requires
            self.wf(),
        ensures
            r == exists|i: int| 0 <= i < self.spec_entries().len() && (#[trigger] self.spec_entries()[i]).key == key
                && self.spec_entries()[i].bytes > 0,
    {
        match self.position(key) {
            Some(i) => {
                if self.entries[i].bytes > 0 {
                    true
                } else {
                    proof {
                        assert forall|j: int| 0 <= j < self.entries.len() && (#[trigger] self.entries@[j]).key == key implies self.entries@[j].bytes == 0 by {
                            if j < i {
                                assert(self.entries@[j].key != self.entries@[i as int].key);
                            } else if j > i {
                                assert(self.entries@[i as int].key != self.entries@[j].key);
                            }
                        }
                    }
                    false
                }
            },
            None => false,
        }
    }
}

} // verus!

verus! {

/// Every entry of `cur` is an entry of `start`, unchanged.
pub open spec fn kept_from(start: Seq<CacheEntry>, cur: Seq<CacheEntry>) -> bool {
    forall|a: int| 0 <= a < cur.len() ==> start.contains(#[trigger] cur[a])
}

/// Every entry of `start` either stays in `cur` or is among the `evicted` keys, not both.
pub open spec fn split_between(start: Seq<CacheEntry>, cur: Seq<CacheEntry>, evicted: Seq<u64>) -> bool {
    forall|b: int| 0 <= b < start.len() ==> (cached(cur, (#[trigger] start[b]).key) <==> !evicted.contains(start[b].key))
}

/// Only loaded thumbnails other than `protect` are evicted.
pub open spec fn evicted_loaded(start: Seq<CacheEntry>, evicted: Seq<u64>, protect: u64) -> bool {
    forall|b: int| 0 <= b < start.len() && evicted.contains((#[trigger] start[b]).key) ==> start[b].bytes > 0 && start[b].key != protect
}

/// The cache fits its budget, or no loaded thumbnail other than `protect` is left to give up.
pub open spec fn fits_or_nothing_to_evict(cur: Seq<CacheEntry>, bytes: usize, budget: usize, protect: u64) -> bool {
    bytes <= budget || forall|a: int| 0 <= a < cur.len() ==> (#[trigger] cur[a]).key == protect || cur[a].bytes == 0
}

/// Every evicted thumbnail was used before every loaded thumbnail that stays, but for
/// `protect`.
pub open spec fn evicted_oldest(start: Seq<CacheEntry>, cur: Seq<CacheEntry>, evicted: Seq<u64>, protect: u64) -> bool {
    forall|b: int, a: int|
        0 <= b < start.len() && 0 <= a < cur.len() && evicted.contains((#[trigger] start[b]).key) && (#[trigger] cur[a]).key != protect
            && cur[a].bytes > 0 ==> start[b].stamp < cur[a].stamp
}

impl LruImageCache {
    /// The least recently used loaded thumbnail other than `protect`.
    fn oldest_loaded(&self, protect: u64) -> (r: Option<usize>)
        ensures
            match r {
                Some(i) => i < self.spec_entries().len() && self.spec_entries()[i as int].bytes > 0
                    && self.spec_entries()[i as int].key != protect
                    && forall|j: int| 0 <= j < self.spec_entries().len() && (#[trigger] self.spec_entries()[j]).bytes > 0
                        && self.spec_entries()[j].key != protect ==> self.spec_entries()[i as int].stamp <= self.spec_entries()[j].stamp,
                None => forall|j: int| 0 <= j < self.spec_entries().len() ==> (#[trigger] self.spec_entries()[j]).bytes == 0
                    || self.spec_entries()[j].key == protect,
            },
    {
        let mut best: Option<usize> = None;
        let mut i: usize = 0;
        while i < self.entries.len()
            invariant
                i <= self.entries.len(),
                match best {
                    Some(k) => k < i && self.entries@[k as int].bytes > 0 && self.entries@[k as int].key != protect
                        && forall|j: int| 0 <= j < i && (#[trigger] self.entries@[j]).bytes > 0 && self.entries@[j].key != protect
                            ==> self.entries@[k as int].stamp <= self.entries@[j].stamp,
                    None => forall|j: int| 0 <= j < i ==> (#[trigger] self.entries@[j]).bytes == 0 || self.entries@[j].key == protect,
                },
            decreases self.entries.len() - i,
        {
            let e = self.entries[i];
            if e.bytes > 0 && e.key != protect {
                match best {
                    Some(k) => {
                        if e.stamp < self.entries[k].stamp {
                            best = Some(i);
                        }
                    },
                    None => {
                        best = Some(i);
                    },
                }
            }
            i += 1;
        }
        best
    }

    /// Marks a thumbnail as used now. The clock advances whether or not it is cached.
    pub fn touch(&mut self, key: u64)
        requires
            old(self).wf(),
            old(self).spec_clock() < u64::MAX,
        ensures
            final(self).wf(),
            final(self).spec_clock() == old(self).spec_clock() + 1,
            final(self).spec_budget() == old(self).spec_budget(),
            match old(self).position_spec(key) {
                Some(i) => final(self).spec_entries() == old(self).spec_entries().update(i, CacheEntry { stamp: final(self).spec_clock(), ..old(self).spec_entries()[i] }),
                None => final(self).spec_entries() == old(self).spec_entries(),
            },
    {
        self.clock = self.clock + 1;
        match self.position(key) {
            Some(i) => {
                let e = self.entries[i];
                let ghost before = self.entries@;
                self.entries.set(i, CacheEntry { stamp: self.clock, ..e });
                proof {
                    lemma_total_update(before, i as int, CacheEntry { stamp: self.clock, ..e });
                    assert forall|a: int, b: int| 0 <= a < b < self.entries.len() implies self.entries@[a].key != self.entries@[b].key
                        && self.entries@[a].stamp != self.entries@[b].stamp by {
                        if a != i && b != i {
                            assert(self.entries@[a] == before[a] && self.entries@[b] == before[b]);
                        }
                    }
                    assert(self.position_spec(key) == Some(i as int)) by {
                        self.lemma_position(key, i as int);
                    }
                }
            },
            None => {},
        }
    }

    /// The position of the entry with this key.
    pub open spec fn position_spec(&self, key: u64) -> Option<int> {
        if cached(self.spec_entries(), key) {
            Some(choose|i: int| 0 <= i < self.spec_entries().len() && (#[trigger] self.spec_entries()[i]).key == key)
        } else {
            None
        }
    }

    proof fn lemma_position(&self, key: u64, i: int)
        requires
            self.wf(),
            0 <= i < self.spec_entries().len(),
            self.spec_entries()[i].key == key,
        ensures
            self.position_spec(key) == Some(i),
    {
        let es = self.spec_entries();
        let c = choose|c: int| 0 <= c < es.len() && (#[trigger] es[c]).key == key;
        if c < i {
            assert(es[c].key != es[i].key);
        } else if c > i {
            assert(es[i].key != es[c].key);
        }
    }
}

} // verus!

verus! {

impl LruImageCache {
    /// Starts caching a thumbnail that is loading: no size yet, used now.
    pub fn start_loading(&mut self, key: u64)
        requires
            old(self).wf(),
            old(self).spec_clock() < u64::MAX,
            !cached(old(self).spec_entries(), key),
        ensures
            final(self).wf(),
            final(self).spec_clock() == old(self).spec_clock() + 1,
            final(self).spec_budget() == old(self).spec_budget(),
            final(self).spec_entries() == old(self).spec_entries().push(CacheEntry { key: key, bytes: 0, stamp: final(self).spec_clock() }),
    {
        self.clock = self.clock + 1;
        let ghost before = self.entries@;
        let e = CacheEntry { key, bytes: 0, stamp: self.clock };
        self.entries.push(e);
        proof {
            lemma_total_push(before, e);
            assert forall|a: int, b: int| 0 <= a < b < self.entries.len() implies self.entries@[a].key != self.entries@[b].key
                && self.entries@[a].stamp != self.entries@[b].stamp by {
                if b == before.len() {
                    assert(self.entries@[a] == before[a]);
                    assert(before[a].key != key);
                }
            }
        }
    }

    fn remove_at(&mut self, i: usize) -> (e: CacheEntry)
        requires
            old(self).wf(),
            i < old(self).spec_entries().len(),
        ensures
            final(self).wf(),
            e == old(self).spec_entries()[i as int],
            final(self).spec_entries() == old(self).spec_entries().remove(i as int),
            final(self).spec_clock() == old(self).spec_clock(),
            final(self).spec_budget() == old(self).spec_budget(),
    {
        let ghost before = self.entries@;
        proof {
            lemma_total_nonneg(before);
            lemma_total_remove(before, i as int);
        }
        let e = self.entries.remove(i);
        self.bytes = self.bytes - e.bytes;
        proof {
            assert forall|a: int, b: int| 0 <= a < b < self.entries.len() implies self.entries@[a].key != self.entries@[b].key
                && self.entries@[a].stamp != self.entries@[b].stamp by {
                let a0 = if a < i { a } else { a + 1 };
                let b0 = if b < i { b } else { b + 1 };
                assert(self.entries@[a] == before[a0] && self.entries@[b] == before[b0]);
            }
            assert forall|a: int| 0 <= a < self.entries.len() implies (#[trigger] self.entries@[a]).stamp <= self.clock by {
                let a0 = if a < i { a } else { a + 1 };
                assert(self.entries@[a] == before[a0]);
            }
        }
        e
    }

    /// Evicts least recently used loaded thumbnails until the cache is within its budget.
    /// `protect` is the thumbnail just handed to the renderer and is never evicted;
    /// thumbnails still loading hold no bytes and stay.
    fn evict(&mut self, protect: u64) -> (evicted: Vec<u64>)
        requires
            old(self).wf(),
        ensures
            final(self).wf(),
            final(self).spec_budget() == old(self).spec_budget(),
            final(self).spec_clock() == old(self).spec_clock(),
            kept_from(old(self).spec_entries(), final(self).spec_entries()),
            split_between(old(self).spec_entries(), final(self).spec_entries(), evicted@),
            evicted_loaded(old(self).spec_entries(), evicted@, protect),
            evicted_oldest(old(self).spec_entries(), final(self).spec_entries(), evicted@, protect),
            fits_or_nothing_to_evict(final(self).spec_entries(), final(self).spec_bytes(), final(self).spec_budget(), protect),
    {
        let ghost start = self.entries@;
        let mut evicted: Vec<u64> = Vec::new();
        assert forall|a: int| 0 <= a < start.len() implies start.contains(#[trigger] start[a]) by {
            assert(start[a] == start[a]);
        }
        assert forall|b: int| 0 <= b < start.len() implies (cached(start, (#[trigger] start[b]).key) <==> !evicted@.contains(start[b].key)) by {
            assert(start[b].key == start[b].key);
        }
        let mut done = false;
        while !done
            invariant
                self.wf(),
                self.budget == old(self).budget,
                self.clock == old(self).clock,
                start == old(self).spec_entries(),
                forall|a: int, b: int| 0 <= a < b < start.len() ==> start[a].key != start[b].key,
                kept_from(start, self.entries@),
                split_between(start, self.entries@, evicted@),
                evicted_loaded(start, evicted@, protect),
                evicted_oldest(start, self.entries@, evicted@, protect),
                done ==> fits_or_nothing_to_evict(self.entries@, self.bytes, self.budget, protect),
            decreases self.entries.len() + if done { 0int } else { 1int },
        {
            if self.bytes <= self.budget {
                done = true;
            } else {
                match self.oldest_loaded(protect) {
                    None => {
                        done = true;
                    },
                    Some(i) => {
                        let ghost before = self.entries@;
                        let ghost ev = evicted@;
                        proof {
                            lemma_remove_kept(start, before, i as int);
                            lemma_remove_split(start, before, ev, i as int);
                            lemma_remove_oldest(start, before, ev, i as int, protect);
                        }
                        let gone = self.remove_at(i);
                        evicted.push(gone.key);
                        proof {
                            assert(evicted@ == ev.push(gone.key));
                        }
                    },
                }
            }
        }
        evicted
    }
}

} // verus!

verus! {

proof fn lemma_remove_kept(start: Seq<CacheEntry>, cur: Seq<CacheEntry>, i: int)
    requires
        kept_from(start, cur),
        0 <= i < cur.len(),
    ensures
        kept_from(start, cur.remove(i)),
{
    let w = cur.remove(i);
    assert forall|a: int| 0 <= a < w.len() implies start.contains(#[trigger] w[a]) by {
        let a0 = if a < i { a } else { a + 1 };
        assert(w[a] == cur[a0]);
    }
}

proof fn lemma_remove_split(start: Seq<CacheEntry>, cur: Seq<CacheEntry>, ev: Seq<u64>, i: int)
    requires
        split_between(start, cur, ev),
        0 <= i < cur.len(),
        forall|a: int, b: int| 0 <= a < b < cur.len() ==> cur[a].key != cur[b].key,
    ensures
        split_between(start, cur.remove(i), ev.push(cur[i].key)),
{
    let w = cur.remove(i);
    let k0 = cur[i].key;
    let ev2 = ev.push(k0);
    assert forall|b: int| 0 <= b < start.len() implies (cached(w, (#[trigger] start[b]).key) <==> !ev2.contains(start[b].key)) by {
        let k = start[b].key;
        assert(cached(cur, k) <==> !ev.contains(k));
        if cached(w, k) {
            let a = choose|a: int| 0 <= a < w.len() && (#[trigger] w[a]).key == k;
            let a0 = if a < i { a } else { a + 1 };
            assert(cur[a0].key == k);
            assert(cached(cur, k));
            if k == k0 {
                if a0 < i {
                    assert(cur[a0].key != cur[i].key);
                } else {
                    assert(cur[i].key != cur[a0].key);
                }
            }
            if ev2.contains(k) {
                let x = choose|x: int| 0 <= x < ev2.len() && ev2[x] == k;
                if x < ev.len() {
                    assert(ev[x] == k);
                }
            }
        } else {
            if cached(cur, k) {
                let a0 = choose|a: int| 0 <= a < cur.len() && (#[trigger] cur[a]).key == k;
                if a0 != i {
                    let a = if a0 < i { a0 } else { a0 - 1 };
                    assert(w[a].key == k);
                }
                assert(ev2[ev.len() as int] == k);
            } else {
                assert(ev.contains(k));
                let x = choose|x: int| 0 <= x < ev.len() && ev[x] == k;
                assert(ev2[x] == k);
            }
        }
    }
}

/// The entry of `start` with the key of an entry of `cur` is that entry.
proof fn lemma_same_entry(start: Seq<CacheEntry>, cur: Seq<CacheEntry>, i: int, b: int)
    requires
        kept_from(start, cur),
        0 <= i < cur.len(),
        0 <= b < start.len(),
        start[b].key == cur[i].key,
        forall|x: int, y: int| 0 <= x < y < start.len() ==> start[x].key != start[y].key,
    ensures
        start[b] == cur[i],
{
    assert(start.contains(cur[i]));
    let b2 = choose|b2: int| 0 <= b2 < start.len() && start[b2] == cur[i];
    if b2 < b {
        assert(start[b2].key != start[b].key);
    } else if b < b2 {
        assert(start[b].key != start[b2].key);
    }
}

proof fn lemma_remove_oldest(start: Seq<CacheEntry>, cur: Seq<CacheEntry>, ev: Seq<u64>, i: int, protect: u64)
    requires
        evicted_oldest(start, cur, ev, protect),
        evicted_loaded(start, ev, protect),
        kept_from(start, cur),
        0 <= i < cur.len(),
        cur[i].bytes > 0,
        cur[i].key != protect,
        forall|j: int| 0 <= j < cur.len() && (#[trigger] cur[j]).bytes > 0 && cur[j].key != protect ==> cur[i].stamp <= cur[j].stamp,
        forall|a: int, b: int| 0 <= a < b < start.len() ==> start[a].key != start[b].key,
        forall|a: int, b: int| 0 <= a < b < cur.len() ==> cur[a].stamp != cur[b].stamp,
    ensures
        evicted_oldest(start, cur.remove(i), ev.push(cur[i].key), protect),
        evicted_loaded(start, ev.push(cur[i].key), protect),
{
    let w = cur.remove(i);
    let k0 = cur[i].key;
    let ev2 = ev.push(k0);
    assert forall|b: int| 0 <= b < start.len() && ev2.contains((#[trigger] start[b]).key) implies start[b].bytes > 0
        && start[b].key != protect by {
        if start[b].key == k0 {
            lemma_same_entry(start, cur, i, b);
        } else {
            let x = choose|x: int| 0 <= x < ev2.len() && ev2[x] == start[b].key;
            assert(ev[x] == start[b].key);
        }
    }
    assert forall|b: int, a: int|
        0 <= b < start.len() && 0 <= a < w.len() && ev2.contains((#[trigger] start[b]).key) && (#[trigger] w[a]).key != protect
            && w[a].bytes > 0 implies start[b].stamp < w[a].stamp by {
        let a0 = if a < i { a } else { a + 1 };
        assert(w[a] == cur[a0]);
        if start[b].key == k0 {
            lemma_same_entry(start, cur, i, b);
            assert(cur[i].stamp <= cur[a0].stamp);
            if a0 < i {
                assert(cur[a0].stamp != cur[i].stamp);
            } else {
                assert(cur[i].stamp != cur[a0].stamp);
            }
        } else {
            let x = choose|x: int| 0 <= x < ev2.len() && ev2[x] == start[b].key;
            assert(x < ev.len());
            assert(ev[x] == start[b].key);
            assert(ev.contains(start[b].key));
        }
    }
}

} // verus!

verus! {

} // verus!

verus! {

impl LruImageCache {
    /// Counts the decoded size of a thumbnail that finished loading, once, then evicts
    /// least recently used loaded thumbnails other than this one until the cache fits its
    /// budget; thumbnails still loading stay. Returns the evicted keys, whose images the
    /// renderer drops. The access clock does not move.
    pub fn account(&mut self, key: u64, bytes: usize) -> (evicted: Vec<u64>)
        requires
            old(self).wf(),
            old(self).spec_bytes() + bytes <= usize::MAX,
        ensures
            final(self).wf(),
            final(self).spec_budget() == old(self).spec_budget(),
            final(self).spec_clock() == old(self).spec_clock(),
            match old(self).position_spec(key) {
                Some(i) if old(self).spec_entries()[i].bytes == 0 => {
                    let mid = old(self).spec_entries().update(i, CacheEntry { bytes: bytes, ..old(self).spec_entries()[i] });
                    &&& kept_from(mid, final(self).spec_entries())
                    &&& split_between(mid, final(self).spec_entries(), evicted@)
                    &&& evicted_loaded(mid, evicted@, key)
                    &&& evicted_oldest(mid, final(self).spec_entries(), evicted@, key)
                    &&& fits_or_nothing_to_evict(final(self).spec_entries(), final(self).spec_bytes(), final(self).spec_budget(), key)
                },
                _ => final(self).spec_entries() == old(self).spec_entries() && evicted@.len() == 0,
            },
    {
        let i = match self.position(key) {
            Some(i) => i,
            None => {
                return Vec::new();
            },
        };
        proof {
            self.lemma_position(key, i as int);
        }
        let e = self.entries[i];
        if e.bytes > 0 {
            return Vec::new();
        }
        let ghost before = self.entries@;
        let updated = CacheEntry { bytes, ..e };
        self.entries.set(i, updated);
        self.bytes = self.bytes + bytes;
        proof {
            lemma_total_update(before, i as int, updated);
            assert forall|a: int, b: int| 0 <= a < b < self.entries.len() implies self.entries@[a].key != self.entries@[b].key
                && self.entries@[a].stamp != self.entries@[b].stamp by {
                if a != i && b != i {
                    assert(self.entries@[a] == before[a] && self.entries@[b] == before[b]);
                }
            }
            assert forall|a: int| 0 <= a < self.entries.len() implies (#[trigger] self.entries@[a]).stamp <= self.clock by {
                if a != i {
                    assert(self.entries@[a] == before[a]);
                }
            }
        }
        self.evict(key)
    }

    /// Forgets every thumbnail, as when the cache itself goes away.
    pub fn clear(&mut self)
        requires
            old(self).wf(),
        ensures
            final(self).wf(),
            final(self).spec_entries().len() == 0,
            final(self).spec_bytes() == 0,
            final(self).spec_budget() == old(self).spec_budget(),
            final(self).spec_clock() == old(self).spec_clock(),
    {
        self.entries = Vec::new();
        self.bytes = 0;
    }
}

} // verus!
