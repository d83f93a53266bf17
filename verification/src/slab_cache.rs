//! The device-side expert slab cache: a pool of equal slots holding a stable
//! hot set.
//!
//! The pool is smaller than one token's working set, so evicting on every
//! miss would replace everything on every token. Instead each requested
//! offset keeps a touch count for good, and a slab is admitted only when it is
//! strictly hotter than the coldest resident.

use std::collections::HashMap;

use vstd::prelude::*;

use crate::census::{by_popularity, lists, Heat};

verus! {

/// Spare bytes after the last slab, so that a read past a short last row
/// stays inside the pool.
pub const SLAB_SLACK: usize = 256;

/// In a slot's record: no slab.
pub const FREE: u64 = u64::MAX;

/// Which slab is where, and how often each offset was asked for. The bytes
/// themselves are the caller's.
pub struct DeviceSlabCache {
    slab_bytes: usize,
    map: HashMap<u64, usize>,
    /// Per slot: touch count at admission or last hit, and offset.
    meta: Vec<(u64, u64)>,
    /// Per requested offset, resident or not: touch count and slab length.
    touch: HashMap<u64, (u64, u64)>,
    pub hits: u64,
    pub misses: u64,
}

/// The cache as mathematics.
pub ghost struct Slabs {
    pub slab_bytes: nat,
    /// Slot of each resident offset.
    pub resident: Map<u64, usize>,
    /// Per slot: touch count and offset, or [`FREE`].
    pub slots: Seq<(u64, u64)>,
    /// Touch count and slab length of every offset ever asked for.
    pub touch: Map<u64, (u64, u64)>,
    pub hits: nat,
    pub misses: nat,
}

impl View for DeviceSlabCache {
    type V = Slabs;

    closed spec fn view(&self) -> Slabs {
        Slabs {
            slab_bytes: self.slab_bytes as nat,
            resident: self.map@,
            slots: self.meta@,
            touch: self.touch@,
            hits: self.hits as nat,
            misses: self.misses as nat,
        }
    }
}

/// The first slot that holds no slab, among those from `i` on.
pub open spec fn first_free(slots: Seq<(u64, u64)>, i: int) -> Option<int>
    decreases slots.len() - i,
{
    if i < 0 || i >= slots.len() {
        None
    } else if slots[i].1 == FREE {
        Some(i)
    } else {
        first_free(slots, i + 1)
    }
}

/// Whether slot `i` holds a slab that may leave.
pub open spec fn evictable(slots: Seq<(u64, u64)>, in_use: Seq<u64>, i: int) -> bool {
    slots[i].1 != FREE && !in_use.contains(slots[i].1)
}

/// Among the first `n` slots, the one with the lowest touch count whose slab
/// may leave; the first of equal ones.
pub open spec fn coldest(slots: Seq<(u64, u64)>, in_use: Seq<u64>, n: int) -> Option<int>
    decreases n,
{
    if n <= 0 {
        None
    } else {
        let before = coldest(slots, in_use, n - 1);
        if !evictable(slots, in_use, n - 1) {
            before
        } else {
            match before {
                None => Some(n - 1),
                Some(b) => if slots[n - 1].0 < slots[b].0 {
                    Some(n - 1)
                } else {
                    before
                },
            }
        }
    }
}

/// The coldest slot is in range, may be evicted, and none that may be is colder.
pub proof fn coldest_is_coldest(slots: Seq<(u64, u64)>, in_use: Seq<u64>, n: int)
    requires
        n <= slots.len(),
    ensures
        match coldest(slots, in_use, n) {
            Some(b) => {
                &&& 0 <= b < n
                &&& evictable(slots, in_use, b)
                &&& forall|j: int|
                    0 <= j < n && #[trigger] evictable(slots, in_use, j) ==> slots[b].0
                        <= slots[j].0
            },
            None => forall|j: int| 0 <= j < n ==> !#[trigger] evictable(slots, in_use, j),
        },
    decreases n,
{
    if n > 0 {
        coldest_is_coldest(slots, in_use, n - 1);
    }
}

proof fn first_free_is_free(slots: Seq<(u64, u64)>, i: int)
    requires
        0 <= i,
    ensures
        match first_free(slots, i) {
            Some(f) => i <= f < slots.len() && slots[f].1 == FREE,
            None => forall|j: int| i <= j < slots.len() ==> (#[trigger] slots[j]).1 != FREE,
        },
    decreases slots.len() - i,
{
    if i < slots.len() && slots[i].1 != FREE {
        first_free_is_free(slots, i + 1);
    }
}

impl Slabs {
    /// Every resident offset is recorded in its slot, and the pool has a size.
    pub open spec fn wf(self) -> bool {
        &&& self.slots.len() * self.slab_bytes + SLAB_SLACK <= usize::MAX
        &&& forall|o: u64|
            #[trigger] self.resident.contains_key(o) ==> {
                &&& o != FREE
                &&& self.resident[o] < self.slots.len()
                &&& self.slots[self.resident[o] as int].1 == o
            }
    }

    /// How often `offset` was asked for.
    pub open spec fn count(self, offset: u64) -> u64 {
        if self.touch.contains_key(offset) {
            self.touch[offset].0
        } else {
            0
        }
    }

    /// The slot that a slab at `offset` may enter: a free one; else that of
    /// the coldest slab not in use, if `offset` is strictly hotter.
    pub open spec fn admission(self, offset: u64, in_use: Seq<u64>) -> Option<int> {
        match first_free(self.slots, 0) {
            Some(f) => Some(f),
            None => match coldest(self.slots, in_use, self.slots.len() as int) {
                Some(v) => if self.slots[v].0 < self.count(offset) {
                    Some(v)
                } else {
                    None
                },
                None => None,
            },
        }
    }

    /// The cache after `offset` was asked for once more.
    pub open spec fn touched(self, offset: u64, len: u64) -> Slabs {
        let known = if self.touch.contains_key(offset) {
            self.touch[offset]
        } else {
            (0, len)
        };
        let count = (known.0 + 1) as u64;
        let t = Slabs { touch: self.touch.insert(offset, (count, known.1)), ..self };
        if self.resident.contains_key(offset) {
            let slot = self.resident[offset] as int;
            Slabs { slots: self.slots.update(slot, (count, self.slots[slot].1)), hits: self.hits + 1, ..t }
        } else {
            Slabs { misses: self.misses + 1, ..t }
        }
    }

    /// The cache after `offset` was counted without being asked for.
    pub open spec fn warmed(self, offset: u64, len: u64) -> Slabs {
        let known = if self.touch.contains_key(offset) {
            self.touch[offset]
        } else {
            (0, len)
        };
        Slabs { touch: self.touch.insert(offset, ((known.0 + 1) as u64, known.1)), ..self }
    }

    /// Whether every count can still rise by `k`.
    pub open spec fn room(self, k: int) -> bool {
        &&& self.hits + k <= u64::MAX
        &&& self.misses + k <= u64::MAX
        &&& forall|o: u64| #[trigger] self.touch.contains_key(o) ==> self.touch[o].0 + k <= u64::MAX
        &&& k <= u64::MAX
    }

    /// The cache after `slot` was given up for a new slab.
    pub open spec fn vacated(self, slot: int) -> Slabs {
        if self.slots[slot].1 == FREE {
            self
        } else {
            Slabs { resident: self.resident.remove(self.slots[slot].1), ..self }
        }
    }

    /// The cache after the slab at `offset` was put into `slot`.
    pub open spec fn filled(self, slot: usize, offset: u64) -> Slabs {
        Slabs {
            slots: self.slots.update(slot as int, (self.count(offset), offset)),
            resident: self.resident.insert(offset, slot),
            ..self
        }
    }

    /// Whether no resident slab is in `slot`.
    pub open spec fn vacant(self, slot: usize) -> bool {
        &&& slot < self.slots.len()
        &&& forall|o: u64| #[trigger] self.resident.contains_key(o) ==> self.resident[o] != slot
    }
}

/// A slab in use is never the one that makes room; and room is made only for
/// a strictly hotter slab.
pub proof fn admission_spares(s: Slabs, offset: u64, in_use: Seq<u64>)
    ensures
        s.admission(offset, in_use) matches Some(v) ==> {
            &&& 0 <= v < s.slots.len()
            &&& s.slots[v].1 == FREE || {
                &&& !in_use.contains(s.slots[v].1)
                &&& s.slots[v].0 < s.count(offset)
            }
        },
{
    first_free_is_free(s.slots, 0);
    coldest_is_coldest(s.slots, in_use, s.slots.len() as int);
}

/// Two resident slabs never share pool bytes, and all of them lie in the pool.
pub proof fn residents_disjoint(s: Slabs, a: u64, b: u64)
    requires
        s.wf(),
        s.resident.contains_key(a),
        s.resident.contains_key(b),
        a != b,
    ensures
        s.resident[a] != s.resident[b],
        s.resident[a] < s.resident[b] ==> (s.resident[a] + 1) * s.slab_bytes <= s.resident[b]
            * s.slab_bytes,
        (s.resident[a] + 1) * s.slab_bytes <= s.slots.len() * s.slab_bytes,
{
    let (i, j, w, n) = (
        s.resident[a] as int,
        s.resident[b] as int,
        s.slab_bytes as int,
        s.slots.len() as int,
    );
    assert(i < j ==> (i + 1) * w <= j * w) by (nonlinear_arith)
        requires
            0 <= w,
    ;
    assert((i + 1) * w <= n * w) by (nonlinear_arith)
        requires
            0 <= w,
            i < n,
    ;
}

/// A slab that was just put in is found where it was put.
pub proof fn filled_is_found(s: Slabs, slot: usize, offset: u64)
    requires
        s.wf(),
        s.vacant(slot),
        offset != FREE,
    ensures
        s.filled(slot, offset).wf(),
        s.filled(slot, offset).resident.contains_key(offset),
        s.filled(slot, offset).resident[offset] == slot,
        forall|o: u64|
            o != offset ==> (#[trigger] s.filled(slot, offset).resident.contains_key(o)
                <==> s.resident.contains_key(o)),
{
}

/// Counting once uses up one of the counts to spare.
pub proof fn room_shrinks(s: Slabs, offset: u64, len: u64, k: int)
    requires
        s.room(k),
        k > 0,
    ensures
        s.count(offset) < u64::MAX,
        s.touched(offset, len).room(k - 1),
        s.warmed(offset, len).room(k - 1),
{
}

/// Asking for a slab moves nothing.
pub proof fn touched_moves_nothing(s: Slabs, offset: u64, len: u64)
    requires
        s.wf(),
    ensures
        s.touched(offset, len).wf(),
        s.touched(offset, len).resident == s.resident,
{
}

proof fn seeded_prefix(list: Seq<Heat>, n: int)
    requires
        0 <= n <= list.len(),
        forall|i: int, j: int|
            0 <= i < j < list.len() ==> (#[trigger] list[i]).offset != (#[trigger] list[j]).offset,
    ensures
        forall|i: int|
            0 <= i < n ==> {
                let h = #[trigger] list[i];
                let m = seeded(Map::empty(), list.take(n));
                m.contains_key(h.offset) && m[h.offset] == (h.count, h.len)
            },
        forall|o: u64| #[trigger]
            seeded(Map::empty(), list.take(n)).contains_key(o) ==> exists|i: int|
                0 <= i < n && (#[trigger] list[i]).offset == o,
    decreases n,
{
    if n > 0 {
        seeded_prefix(list, n - 1);
        assert(list.take(n).drop_last() =~= list.take(n - 1));
        assert(list.take(n).last() == list[n - 1]);
        let m0 = seeded(Map::empty(), list.take(n - 1));
        let m = seeded(Map::empty(), list.take(n));
        assert forall|o: u64| #[trigger] m.contains_key(o) implies exists|i: int|
            0 <= i < n && (#[trigger] list[i]).offset == o by {
            if o == list[n - 1].offset {
            } else {
                assert(m0.contains_key(o));
            }
        }
    } else {
        assert(list.take(n) =~= Seq::empty());
    }
}

/// Seeding a fresh cache with the census of another restores every touch count.
pub proof fn census_restores(list: Seq<Heat>, touch: Map<u64, (u64, u64)>)
    requires
        lists(list, touch),
    ensures
        seeded(Map::empty(), list) == touch,
{
    seeded_prefix(list, list.len() as int);
    assert(list.take(list.len() as int) =~= list);
    assert(seeded(Map::empty(), list) =~= touch);
}

impl DeviceSlabCache {
    /// An empty cache of as many slots as `budget_bytes` hold, at least one.
    pub fn new(budget_bytes: usize, slab_bytes: usize) -> (c: DeviceSlabCache)
        requires
            budget_bytes + SLAB_SLACK <= usize::MAX,
            slab_bytes + SLAB_SLACK <= usize::MAX,
        ensures
            c@.slab_bytes == slab_bytes,
            c@.slots == Seq::new(slot_count(budget_bytes, slab_bytes), |i: int| (0u64, FREE)),
            c@.resident == Map::<u64, usize>::empty(),
            c@.touch == Map::<u64, (u64, u64)>::empty(),
            c@.hits == 0 && c@.misses == 0,
            c@.wf(),
    {
        let unit: usize = if slab_bytes > 1 {
            slab_bytes
        } else {
            1
        };
        let fit: usize = budget_bytes / unit;
        let slots: usize = if fit > 1 {
            fit
        } else {
            1
        };
        assert(fit * unit <= budget_bytes) by (nonlinear_arith)
            requires
                fit == budget_bytes / unit,
                unit > 0,
        ;
        assert(slots * slab_bytes <= budget_bytes || slots * slab_bytes <= slab_bytes)
            by (nonlinear_arith)
            requires
                fit * unit <= budget_bytes,
                slab_bytes <= unit,
                slots == fit || slots == 1,
        ;
        let mut meta: Vec<(u64, u64)> = Vec::new();
        while meta.len() < slots
            invariant
                meta@.len() <= slots,
                meta@ =~= Seq::new(meta@.len(), |i: int| (0u64, FREE)),
            decreases slots - meta@.len(),
        {
            meta.push((0, FREE));
        }
        DeviceSlabCache { slab_bytes, map: HashMap::new(), meta, touch: HashMap::new(), hits: 0, misses: 0 }
    }

    /// Bytes the pool has to hold.
    pub fn pool_bytes(&self) -> (n: usize)
        requires
            self@.wf(),
        ensures
            n == self@.slots.len() * self@.slab_bytes + SLAB_SLACK,
    {
        self.meta.len() * self.slab_bytes + SLAB_SLACK
    }

    /// How many slots there are.
    pub fn slots(&self) -> (n: usize)
        ensures
            n == self@.slots.len(),
    {
        self.meta.len()
    }

    /// Where slot `slot` begins in the pool.
    pub fn slot_ptr(&self, slot: usize) -> (base: usize)
        requires
            self@.wf(),
            slot < self@.slots.len(),
        ensures
            base == slot * self@.slab_bytes,
    {
        proof {
            assert(slot * self.slab_bytes <= self.meta@.len() * self.slab_bytes)
                by (nonlinear_arith)
                requires
                    slot < self.meta@.len(),
                    self.slab_bytes >= 0,
            ;
        }
        slot * self.slab_bytes
    }

    /// Asks for the slab at `offset`: counts the touch, and says where in the
    /// pool the slab begins when it is resident.
    pub fn get(&mut self, offset: u64, len: u64) -> (r: Option<usize>)
        requires
            old(self)@.count(offset) < u64::MAX,
            old(self)@.hits < u64::MAX,
            old(self)@.misses < u64::MAX,
            old(self)@.wf(),
        ensures
            final(self)@.wf(),
            final(self)@ == old(self)@.touched(offset, len),
            match r {
                Some(base) => {
                    &&& old(self)@.resident.contains_key(offset)
                    &&& base == old(self)@.resident[offset] * old(self)@.slab_bytes
                },
                None => !old(self)@.resident.contains_key(offset),
            },
    {
        broadcast use vstd::std_specs::hash::group_hash_axioms;

        let known: (u64, u64) = match self.touch.get(&offset) {
            Some(t) => *t,
            None => (0, len),
        };
        let count: u64 = known.0 + 1;
        self.touch.insert(offset, (count, known.1));
        let found: Option<usize> = match self.map.get(&offset) {
            Some(slot) => Some(*slot),
            None => None,
        };
        match found {
            Some(slot) => {
                assert(old(self)@.resident.contains_key(offset));
                let at: u64 = self.meta[slot].1;
                self.meta[slot] = (count, at);
                self.hits = self.hits + 1;
                proof {
                    touched_moves_nothing(old(self)@, offset, len);
                }
                assert(self@ == old(self)@.touched(offset, len));
                Some(self.slot_ptr(slot))
            },
            None => {
                self.misses = self.misses + 1;
                assert(self@ == old(self)@.touched(offset, len));
                None
            },
        }
    }

    /// Counts a slab that another device holds, so that its popularity does
    /// not freeze there.
    pub fn keep_warm(&mut self, offset: u64, len: u64)
        requires
            old(self)@.wf(),
            old(self)@.count(offset) < u64::MAX,
        ensures
            final(self)@ == old(self)@.warmed(offset, len),
            final(self)@.wf(),
    {
        broadcast use vstd::std_specs::hash::group_hash_axioms;

        let known: (u64, u64) = match self.touch.get(&offset) {
            Some(t) => *t,
            None => (0, len),
        };
        self.touch.insert(offset, (known.0 + 1, known.1));
        assert(self@ == old(self)@.warmed(offset, len));
    }

    /// Whether the slab at `offset` is resident. Counts nothing.
    pub fn holds(&self, offset: u64) -> (r: bool)
        ensures
            r == self@.resident.contains_key(offset),
    {
        broadcast use vstd::std_specs::hash::group_hash_axioms;

        self.map.contains_key(&offset)
    }

    /// Whether the slab at `offset` is worth a slot, and which. A slab that
    /// has to leave for it leaves; the slot is then the caller's to fill.
    pub fn maybe_insert(&mut self, offset: u64, in_use: &[u64]) -> (r: Option<usize>)
        requires
            old(self)@.wf(),
        ensures
            final(self)@.wf(),
            match r {
                Some(slot) => {
                    &&& old(self)@.admission(offset, in_use@) == Some(slot as int)
                    &&& final(self)@ == old(self)@.vacated(slot as int)
                    &&& final(self)@.vacant(slot)
                },
                None => {
                    &&& old(self)@.admission(offset, in_use@) is None
                    &&& final(self)@ == old(self)@
                },
            },
    {
        proof {
            first_free_is_free(self@.slots, 0);
            coldest_is_coldest(self@.slots, in_use@, self@.slots.len() as int);
        }
        broadcast use vstd::std_specs::hash::group_hash_axioms;

        let count: u64 = match self.touch.get(&offset) {
            Some(t) => t.0,
            None => 0,
        };
        if let Some(free) = self.find_free() {
            assert(self@.vacated(free as int) == self@);
            return Some(free);
        }
        let victim: usize = match self.find_coldest(in_use) {
            Some(v) => v,
            None => return None,
        };
        if self.meta[victim].0 >= count {
            return None;
        }
        let leaving: u64 = self.meta[victim].1;
        self.map.remove(&leaving);
        assert(self@.resident == old(self)@.resident.remove(leaving));
        assert(self@ == old(self)@.vacated(victim as int));
        Some(victim)
    }

    /// Records that the slab at `offset` now fills `slot`, and says where in
    /// the pool it begins.
    pub fn fill(&mut self, slot: usize, offset: u64) -> (base: usize)
        requires
            old(self)@.wf(),
            old(self)@.vacant(slot),
            offset != FREE,
        ensures
            final(self)@.wf(),
            final(self)@ == old(self)@.filled(slot, offset),
            base == slot * old(self)@.slab_bytes,
    {
        proof {
            filled_is_found(self@, slot, offset);
        }
        broadcast use vstd::std_specs::hash::group_hash_axioms;

        let count: u64 = match self.touch.get(&offset) {
            Some(t) => t.0,
            None => 0,
        };
        let base: usize = self.slot_ptr(slot);
        self.meta[slot] = (count, offset);
        self.map.insert(offset, slot);
        assert(self@.resident =~= old(self)@.resident.insert(offset, slot));
        assert(self@ == old(self)@.filled(slot, offset));
        base
    }

    /// The popularity of every slab ever asked for, most popular first.
    pub fn census(&self) -> (list: Vec<Heat>)
        ensures
            lists(list@, self@.touch),
    {
        broadcast use vstd::std_specs::hash::group_hash_axioms;

        let mut list: Vec<Heat> = Vec::new();
        for kv in it: self.touch.iter()
            invariant
                it.seq().no_duplicates(),
                list@.len() == it.index(),
                forall|o: u64| #[trigger]
                    self.touch@.contains_key(o) ==> it.seq().contains((&o, &self.touch@[o])),
                forall|i: int|
                    0 <= i < it.seq().len() ==> {
                        let e = #[trigger] it.seq()[i];
                        self.touch@.contains_key(*e.0) && self.touch@[*e.0] == *e.1
                    },
                forall|i: int|
                    0 <= i < it.index() ==> {
                        let h = #[trigger] list@[i];
                        let e = it.seq()[i];
                        h.offset == *e.0 && (h.count, h.len) == *e.1
                    },
                forall|i: int|
                    0 <= i < it.index() ==> list@[i].offset == *(#[trigger] it.seq()[i]).0,
        {
            let (o, t) = kv;
            list.push(Heat { offset: *o, len: t.1, count: t.0 });
        }
        proof {
            assert forall|i: int, j: int| 0 <= i < j < list@.len() implies (#[trigger] list@[i]).offset
                != (#[trigger] list@[j]).offset by {}
            assert forall|o: u64| #[trigger] self.touch@.contains_key(o) implies exists|i: int|
                0 <= i < list@.len() && (#[trigger] list@[i]).offset == o by {}
        }
        by_popularity(&list, Ghost(self.touch@))
    }

    /// Seeds touch counts from a census; of equal offsets, the last counts.
    pub fn seed(&mut self, seeds: &[Heat])
        requires
            old(self)@.wf(),
        ensures
            final(self)@ == (Slabs { touch: seeded(old(self)@.touch, seeds@), ..old(self)@ }),
            final(self)@.wf(),
    {
        broadcast use vstd::std_specs::hash::group_hash_axioms;

        let mut i: usize = 0;
        assert(seeds@.take(0) =~= Seq::empty());
        while i < seeds.len()
            invariant
                i <= seeds@.len(),
                self@ == (Slabs {
                    touch: seeded(old(self)@.touch, seeds@.take(i as int)),
                    ..old(self)@
                }),
            decreases seeds@.len() - i,
        {
            broadcast use vstd::std_specs::hash::group_hash_axioms;

            let h: Heat = seeds[i];
            self.touch.insert(h.offset, (h.count, h.len));
            assert(seeds@.take(i + 1).drop_last() =~= seeds@.take(i as int));
            i += 1;
        }
        assert(seeds@.take(i as int) =~= seeds@);
    }

    /// Zeroes the hit and miss counts.
    pub fn reset_stats(&mut self)
        ensures
            final(self)@ == (Slabs { hits: 0, misses: 0, ..old(self)@ }),
    {
        self.hits = 0;
        self.misses = 0;
    }

    fn find_free(&self) -> (r: Option<usize>)
        ensures
            match r {
                Some(i) => first_free(self@.slots, 0) == Some(i as int),
                None => first_free(self@.slots, 0) is None,
            },
    {
        let mut i: usize = 0;
        while i < self.meta.len()
            invariant
                i <= self.meta@.len(),
                first_free(self.meta@, 0) == first_free(self.meta@, i as int),
            decreases self.meta@.len() - i,
        {
            if self.meta[i].1 == FREE {
                return Some(i);
            }
            i += 1;
        }
        None
    }

    fn find_coldest(&self, in_use: &[u64]) -> (r: Option<usize>)
        ensures
            match r {
                Some(i) => coldest(self@.slots, in_use@, self@.slots.len() as int) == Some(i as int),
                None => coldest(self@.slots, in_use@, self@.slots.len() as int) is None,
            },
    {
        let mut best: Option<usize> = None;
        let mut i: usize = 0;
        while i < self.meta.len()
            invariant
                i <= self.meta@.len(),
                match best {
                    Some(b) => b < i && coldest(self.meta@, in_use@, i as int) == Some(b as int),
                    None => coldest(self.meta@, in_use@, i as int) is None,
                },
            decreases self.meta@.len() - i,
        {
            if self.meta[i].1 != FREE && !listed(in_use, self.meta[i].1) {
                let colder: bool = match best {
                    Some(b) => self.meta[i].0 < self.meta[b].0,
                    None => true,
                };
                if colder {
                    best = Some(i);
                }
            }
            i += 1;
        }
        best
    }
}

/// Touch counts after seeding `seeds` in order.
pub open spec fn seeded(touch: Map<u64, (u64, u64)>, seeds: Seq<Heat>) -> Map<u64, (u64, u64)>
    decreases seeds.len(),
{
    if seeds.len() == 0 {
        touch
    } else {
        let h = seeds.last();
        seeded(touch, seeds.drop_last()).insert(h.offset, (h.count, h.len))
    }
}

/// How many slots `budget` holds, at least one.
pub open spec fn slot_count(budget: usize, slab_bytes: usize) -> nat {
    let unit = if slab_bytes > 1 {
        slab_bytes as int
    } else {
        1
    };
    let fit = budget as int / unit;
    if fit > 1 {
        fit as nat
    } else {
        1
    }
}

/// Whether `offset` is one of `list`.
pub fn listed(list: &[u64], offset: u64) -> (r: bool)
    ensures
        r == list@.contains(offset),
{
    let mut i: usize = 0;
    while i < list.len()
        invariant
            i <= list@.len(),
            forall|j: int| 0 <= j < i ==> list@[j] != offset,
        decreases list@.len() - i,
    {
        if list[i] == offset {
            assert(list@[i as int] == offset);
            return true;
        }
        i += 1;
    }
    false
}

} // verus!
