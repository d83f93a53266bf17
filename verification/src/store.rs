//! The host-side expert store: a least-frequently-used cache of slabs keyed
//! by file offset, in front of batch reads from disk.
//!
//! The store decides what is a hit, what has to be read, and what leaves to
//! make room. Placing payloads and reading the disk are the caller's, who
//! follows the steps that [`StreamingStore::ensure_next`] hands out.

use std::collections::HashMap;

use vstd::prelude::*;

verus! {

/// A range of the model file.
#[derive(Debug, Clone, Copy, PartialEq, Eq, Structural)]
pub struct Read {
    pub offset: u64,
    pub len: u64,
}

/// What is known of one cached slab.
#[derive(Debug, Clone, Copy, PartialEq, Eq, Structural)]
pub struct CacheEntry {
    /// Memory that the slab takes.
    pub bytes: usize,
    /// How often it was wanted.
    pub freq: u64,
    /// When it was last wanted.
    pub tick: u64,
}

/// Which slabs are cached and what they cost.
pub struct StreamingStore {
    cache: HashMap<u64, CacheEntry>,
    used: usize,
    budget: usize,
    tick: u64,
    pub hits: u64,
    pub misses: u64,
}

/// The store as mathematics.
pub ghost struct Store {
    pub entries: Map<u64, CacheEntry>,
    pub used: nat,
    pub budget: nat,
    pub tick: nat,
    pub hits: nat,
    pub misses: nat,
}

impl View for StreamingStore {
    type V = Store;

    closed spec fn view(&self) -> Store {
        Store {
            entries: self.cache@,
            used: self.used as nat,
            budget: self.budget as nat,
            tick: self.tick as nat,
            hits: self.hits as nat,
            misses: self.misses as nat,
        }
    }
}

/// A batch of wants being resolved.
pub struct Ensure {
    /// The next want to look at.
    pub pos: usize,
    /// The wants so far that were not cached.
    pub missing: Vec<Read>,
}

/// What the caller does next.
pub enum Step {
    /// Place the cached slab at this offset, and ask again.
    Place(u64),
    /// Drop the slabs at these offsets, read all that is missing, and report
    /// each slab as it arrives.
    Fetch(Vec<u64>),
    /// Everything was cached.
    Done,
}

/// Bytes of all slabs in `entries`.
pub open spec fn total(entries: Map<u64, CacheEntry>) -> nat
    decreases entries.dom().len(),
    when entries.dom().finite()
{
    if entries.dom().len() == 0 {
        0
    } else {
        let k = entries.dom().choose();
        entries[k].bytes as nat + total(entries.remove(k))
    }
}

/// The offsets of `wants`.
pub open spec fn offsets(wants: Seq<Read>) -> Seq<u64> {
    wants.map_values(|r: Read| r.offset)
}

/// The lengths of `reads`, added up.
pub open spec fn sum_len(reads: Seq<Read>) -> nat
    decreases reads.len(),
{
    if reads.len() == 0 {
        0
    } else {
        sum_len(reads.drop_last()) + reads.last().len as nat
    }
}

/// Whether `a` was wanted less often than `b`, or as often but not more recently.
pub open spec fn colder(a: CacheEntry, b: CacheEntry) -> bool {
    a.freq < b.freq || a.freq == b.freq && a.tick <= b.tick
}

impl Store {
    /// The cost of what is cached is covered by what is accounted for.
    pub open spec fn wf(self) -> bool {
        &&& self.entries.dom().finite()
        &&& total(self.entries) <= self.used
    }

    /// Whether the slab at `k` is cached and not one of `keep`.
    pub open spec fn candidate(self, keep: Seq<u64>, k: u64) -> bool {
        self.entries.contains_key(k) && !keep.contains(k)
    }

    /// Whether the slab at `k` may leave now: no candidate is colder.
    pub open spec fn victim(self, keep: Seq<u64>, k: u64) -> bool {
        &&& self.candidate(keep, k)
        &&& forall|j: u64| #[trigger]
            self.candidate(keep, j) ==> colder(self.entries[k], self.entries[j])
    }

    /// The store without the slab at `k`.
    pub open spec fn without(self, k: u64) -> Store {
        Store {
            entries: self.entries.remove(k),
            used: (self.used - self.entries[k].bytes) as nat,
            ..self
        }
    }

    /// The store without the slabs at `victims`.
    pub open spec fn without_all(self, victims: Seq<u64>) -> Store
        decreases victims.len(),
    {
        if victims.len() == 0 {
            self
        } else {
            self.without_all(victims.drop_last()).without(victims.last())
        }
    }

    /// Whether evicting exactly `victims`, in order, is what making room for
    /// `incoming` bytes does as far as it goes: room was short and the victim
    /// was a coldest one each time.
    pub open spec fn evicts(self, victims: Seq<u64>, keep: Seq<u64>, incoming: nat) -> bool
        decreases victims.len(),
    {
        victims.len() > 0 ==> {
            let before = self.without_all(victims.drop_last());
            &&& self.evicts(victims.drop_last(), keep, incoming)
            &&& before.used + incoming > before.budget
            &&& before.victim(keep, victims.last())
        }
    }

    /// Whether there is no need or no way to make more room.
    pub open spec fn settled(self, keep: Seq<u64>, incoming: nat) -> bool {
        self.used + incoming <= self.budget || forall|k: u64| !#[trigger] self.candidate(keep, k)
    }

    /// The store after the cached slab at `offset` was wanted.
    pub open spec fn hit(self, offset: u64) -> Store {
        let e = self.entries[offset];
        let e2 = CacheEntry { bytes: e.bytes, freq: (e.freq + 1) as u64, tick: self.tick as u64 };
        Store { entries: self.entries.insert(offset, e2), hits: self.hits + 1, ..self }
    }

    /// The store after something that is not cached was wanted.
    pub open spec fn miss(self) -> Store {
        Store { misses: self.misses + 1, ..self }
    }

    /// The store with a slab of `bytes` put in at `offset`.
    pub open spec fn admitted(self, offset: u64, bytes: usize) -> Store {
        let e = CacheEntry { bytes, freq: 1, tick: self.tick as u64 };
        Store { entries: self.entries.insert(offset, e), used: self.used + bytes as nat, ..self }
    }
}

/// Where a scan over wants stops.
pub ghost struct Scan {
    pub store: Store,
    pub pos: int,
    pub missing: Seq<Read>,
    /// The cached offset it stopped at; `None` at the end of the wants.
    pub found: Option<u64>,
}

/// Walks `wants` from `pos`: what is not cached is missing; the first that is
/// cached is counted and stops the walk.
pub open spec fn scan(s: Store, wants: Seq<Read>, pos: int, missing: Seq<Read>) -> Scan
    decreases wants.len() - pos,
{
    if pos < 0 || pos >= wants.len() {
        Scan { store: s, pos, missing, found: None }
    } else if s.entries.contains_key(wants[pos].offset) {
        let o = wants[pos].offset;
        Scan { store: s.hit(o), pos: pos + 1, missing, found: Some(o) }
    } else {
        scan(s.miss(), wants, pos + 1, missing.push(wants[pos]))
    }
}

/// The total is one slab's bytes and the rest.
pub proof fn total_remove(m: Map<u64, CacheEntry>, k: u64)
    requires
        m.dom().finite(),
        m.contains_key(k),
    ensures
        total(m) == m[k].bytes + total(m.remove(k)),
    decreases m.dom().len(),
{
    let c = m.dom().choose();
    assert(m.dom().contains(k));
    assert(m.dom().len() > 0);
    assert(m.contains_key(c));
    if c != k {
        total_remove(m.remove(c), k);
        total_remove(m.remove(k), c);
        assert(m.remove(c).remove(k) =~= m.remove(k).remove(c));
    }
}

/// Putting a slab in adds its bytes, less those of the slab it replaces.
pub proof fn total_insert(m: Map<u64, CacheEntry>, k: u64, e: CacheEntry)
    requires
        m.dom().finite(),
    ensures
        m.insert(k, e).dom().finite(),
        m.contains_key(k) ==> total(m.insert(k, e)) == total(m) - m[k].bytes + e.bytes,
        !m.contains_key(k) ==> total(m.insert(k, e)) == total(m) + e.bytes,
{
    let n = m.insert(k, e);
    assert(n.dom() =~= m.dom().insert(k));
    total_remove(n, k);
    if m.contains_key(k) {
        total_remove(m, k);
        assert(n.remove(k) =~= m.remove(k));
    } else {
        assert(n.remove(k) =~= m);
    }
}

/// Only unwanted slabs are evicted, and the store stays accounted for.
pub proof fn evictions_spare(s: Store, victims: Seq<u64>, keep: Seq<u64>, incoming: nat)
    requires
        s.wf(),
        s.evicts(victims, keep, incoming),
    ensures
        s.without_all(victims).wf(),
        s.without_all(victims).used <= s.used,
        forall|i: int| 0 <= i < victims.len() ==> !keep.contains(#[trigger] victims[i]),
        forall|k: u64|
            #[trigger] keep.contains(k) && s.entries.contains_key(k) ==> {
                &&& s.without_all(victims).entries.contains_key(k)
                &&& s.without_all(victims).entries[k] == s.entries[k]
            },
    decreases victims.len(),
{
    if victims.len() > 0 {
        let init = victims.drop_last();
        let before = s.without_all(init);
        evictions_spare(s, init, keep, incoming);
        total_remove(before.entries, victims.last());
        assert forall|i: int| 0 <= i < victims.len() implies !keep.contains(
            #[trigger] victims[i],
        ) by {
            if i < victims.len() - 1 {
                assert(victims[i] == init[i]);
            }
        }
    }
}

/// A scan keeps the store accounted for and evicts nothing.
pub proof fn scan_keeps(s: Store, wants: Seq<Read>, pos: int, missing: Seq<Read>)
    requires
        s.wf(),
    ensures
        scan(s, wants, pos, missing).store.wf(),
        scan(s, wants, pos, missing).store.used == s.used,
        scan(s, wants, pos, missing).store.budget == s.budget,
        scan(s, wants, pos, missing).store.entries.dom() == s.entries.dom(),
    decreases wants.len() - pos,
{
    if 0 <= pos < wants.len() {
        let o = wants[pos].offset;
        if s.entries.contains_key(o) {
            let h = s.hit(o);
            total_insert(s.entries, o, h.entries[o]);
            assert(h.entries.dom() =~= s.entries.dom());
        } else {
            scan_keeps(s.miss(), wants, pos + 1, missing.push(wants[pos]));
        }
    }
}

/// What a scan reports missing was wanted and is not cached.
pub proof fn scan_misses(s: Store, wants: Seq<Read>, pos: int, missing: Seq<Read>)
    requires
        0 <= pos <= wants.len(),
    ensures
        ({
            let r = scan(s, wants, pos, missing);
            &&& pos <= r.pos <= wants.len()
            &&& missing.is_prefix_of(r.missing)
            &&& r.found is None ==> r.pos == wants.len()
            &&& r.found matches Some(o) ==> s.entries.contains_key(o) && r.pos > pos && wants[r.pos
                - 1].offset == o
            &&& forall|i: int|
                missing.len() <= i < r.missing.len() ==> !s.entries.contains_key(
                    (#[trigger] r.missing[i]).offset,
                )
            &&& sum_len(r.missing) <= sum_len(missing) + sum_len(
                wants.subrange(pos, wants.len() as int),
            )
            &&& r.missing.len() <= missing.len() + r.pos - pos
        }),
    decreases wants.len() - pos,
{
    let rest = wants.subrange(pos, wants.len() as int);
    if pos < wants.len() && !s.entries.contains_key(wants[pos].offset) {
        let m2 = missing.push(wants[pos]);
        scan_misses(s.miss(), wants, pos + 1, m2);
        let r = scan(s.miss(), wants, pos + 1, m2);
        assert(m2.drop_last() =~= missing);
        sum_len_first(rest);
        assert(rest.drop_first() =~= wants.subrange(pos + 1, wants.len() as int));
        assert forall|i: int| missing.len() <= i < r.missing.len() implies !s.entries.contains_key(
            (#[trigger] r.missing[i]).offset,
        ) by {
            if i == missing.len() {
                assert(r.missing[i] == m2[i]);
            }
        }
        assert forall|i: int| 0 <= i < missing.len() implies missing[i] == r.missing[i] by {
            assert(m2[i] == r.missing[i]);
        }
        assert(missing =~= r.missing.take(missing.len() as int));
    } else {
        assert(missing =~= missing.take(missing.len() as int));
    }
}

proof fn sum_len_first(reads: Seq<Read>)
    requires
        reads.len() > 0,
    ensures
        sum_len(reads) == reads[0].len + sum_len(reads.drop_first()),
    decreases reads.len(),
{
    if reads.len() == 1 {
        assert(reads.drop_last() =~= Seq::empty());
        assert(reads.drop_first() =~= Seq::empty());
    } else {
        sum_len_first(reads.drop_last());
        assert(reads.drop_last().drop_first() =~= reads.drop_first().drop_last());
        assert(reads.drop_first().last() == reads.last());
    }
}

fn wanted(wants: &[Read], offset: u64) -> (r: bool)
    ensures
        r == offsets(wants@).contains(offset),
{
    let mut i: usize = 0;
    while i < wants.len()
        invariant
            i <= wants@.len(),
            forall|j: int| 0 <= j < i ==> offsets(wants@)[j] != offset,
        decreases wants@.len() - i,
    {
        if wants[i].offset == offset {
            assert(offsets(wants@)[i as int] == offset);
            return true;
        }
        i += 1;
    }
    false
}

/// Adds up the lengths of `reads`.
pub fn add_len(reads: &[Read]) -> (n: usize)
    requires
        sum_len(reads@) <= usize::MAX,
    ensures
        n == sum_len(reads@),
{
    let mut n: usize = 0;
    let mut i: usize = 0;
    assert(reads@.take(0) =~= Seq::empty());
    while i < reads.len()
        invariant
            i <= reads@.len(),
            n == sum_len(reads@.take(i as int)),
            sum_len(reads@) <= usize::MAX,
        decreases reads@.len() - i,
    {
        proof {
            assert(reads@.take(i + 1).drop_last() =~= reads@.take(i as int));
            sum_len_take(reads@, i + 1);
        }
        n = n + reads[i].len as usize;
        i += 1;
    }
    assert(reads@.take(i as int) =~= reads@);
    n
}

proof fn sum_len_take(reads: Seq<Read>, n: int)
    requires
        0 <= n <= reads.len(),
    ensures
        sum_len(reads.take(n)) <= sum_len(reads),
    decreases reads.len() - n,
{
    if n < reads.len() {
        sum_len_take(reads, n + 1);
        assert(reads.take(n + 1).drop_last() =~= reads.take(n));
    } else {
        assert(reads.take(n) =~= reads);
    }
}

impl StreamingStore {
    /// An empty store that aims to stay within `budget` bytes.
    pub fn open(budget: usize) -> (s: StreamingStore)
        ensures
            s@ == (Store {
                entries: Map::empty(),
                used: 0,
                budget: budget as nat,
                tick: 0,
                hits: 0,
                misses: 0,
            }),
            s@.wf(),
    {
        broadcast use vstd::std_specs::hash::group_hash_axioms;

        StreamingStore { cache: HashMap::new(), used: 0, budget, tick: 0, hits: 0, misses: 0 }
    }

    /// Starts resolving a batch of wants.
    pub fn ensure_begin(&mut self) -> (job: Ensure)
        requires
            old(self)@.tick < u64::MAX,
        ensures
            final(self)@ == (Store { tick: old(self)@.tick + 1, ..old(self)@ }),
            job.pos == 0,
            job.missing@ == Seq::<Read>::empty(),
    {
        self.tick = self.tick + 1;
        Ensure { pos: 0, missing: Vec::new() }
    }

    /// The next step of resolving `wants`. When the wants are exhausted and
    /// something is missing, room is made for it: lowest (frequency, age)
    /// first, never a slab that is wanted right now.
    pub fn ensure_next(&mut self, wants: &[Read], job: &mut Ensure) -> (step: Step)
        requires
            old(self)@.wf(),
            old(job).pos <= wants@.len(),
            old(self)@.hits < u64::MAX,
            old(self)@.misses + wants@.len() - old(job).pos <= u64::MAX,
            forall|k: u64| #[trigger]
                old(self)@.entries.contains_key(k) ==> old(self)@.entries[k].freq < u64::MAX,
            old(self)@.used + sum_len(old(job).missing@) + sum_len(
                wants@.subrange(old(job).pos as int, wants@.len() as int),
            ) <= usize::MAX,
        ensures
            final(self)@.wf(),
            final(job).pos <= wants@.len(),
            ({
                let r = scan(old(self)@, wants@, old(job).pos as int, old(job).missing@);
                &&& final(job).pos == r.pos
                &&& final(job).missing@ == r.missing
                &&& match step {
                    Step::Place(o) => r.found == Some(o) && final(self)@ == r.store,
                    Step::Done => r.found is None && r.missing.len() == 0 && final(self)@
                        == r.store,
                    Step::Fetch(gone) => {
                        &&& r.found is None
                        &&& r.missing.len() > 0
                        &&& r.store.evicts(gone@, offsets(wants@), sum_len(r.missing))
                        &&& final(self)@ == r.store.without_all(gone@)
                        &&& final(self)@.settled(offsets(wants@), sum_len(r.missing))
                        &&& final(self)@.used + sum_len(r.missing) <= usize::MAX
                    },
                }
            }),
    {
        broadcast use vstd::std_specs::hash::group_hash_axioms;

        let ghost s0 = self@;
        let ghost p0 = job.pos as int;
        let ghost m0 = job.missing@;
        proof {
            scan_keeps(s0, wants@, p0, m0);
            scan_misses(s0, wants@, p0, m0);
        }
        while job.pos < wants.len()
            invariant
                s0 == old(self)@,
                p0 == old(job).pos,
                m0 == old(job).missing@,
                p0 <= job.pos <= wants@.len(),
                self@ == (Store { misses: s0.misses + (job.pos - p0) as nat, ..s0 }),
                scan(self@, wants@, job.pos as int, job.missing@) == scan(s0, wants@, p0, m0),
                s0.hits < u64::MAX,
                s0.misses + wants@.len() - p0 <= u64::MAX,
                forall|k: u64| #[trigger]
                    s0.entries.contains_key(k) ==> s0.entries[k].freq < u64::MAX,
                s0.wf(),
                scan(s0, wants@, p0, m0).store.wf(),
            decreases wants@.len() - job.pos,
        {
            broadcast use vstd::std_specs::hash::group_hash_axioms;

            let r: Read = wants[job.pos];
            let found: Option<CacheEntry> = match self.cache.get(&r.offset) {
                Some(e) => Some(*e),
                None => None,
            };
            match found {
                Some(e) => {
                    assert(self@.entries.contains_key(r.offset));
                    let e2: CacheEntry = CacheEntry {
                        bytes: e.bytes,
                        freq: e.freq + 1,
                        tick: self.tick,
                    };
                    let ghost s1 = self@;
                    let ghost p1 = job.pos as int;
                    self.cache.insert(r.offset, e2);
                    self.hits = self.hits + 1;
                    job.pos = job.pos + 1;
                    assert(self@.entries =~= s1.hit(r.offset).entries);
                    assert(self@ == s1.hit(r.offset));
                    assert(scan(s1, wants@, p1, job.missing@) == (Scan {
                        store: s1.hit(r.offset),
                        pos: p1 + 1,
                        missing: job.missing@,
                        found: Some(r.offset),
                    }));
                    return Step::Place(r.offset);
                },
                None => {
                    self.misses = self.misses + 1;
                    job.missing.push(r);
                    job.pos = job.pos + 1;
                },
            }
        }
        if job.missing.len() == 0 {
            return Step::Done;
        }
        let incoming: usize = add_len(&job.missing);
        let gone: Vec<u64> = self.make_room(wants, incoming);
        proof {
            evictions_spare(scan(s0, wants@, p0, m0).store, gone@, offsets(wants@), incoming as nat);
        }
        Step::Fetch(gone)
    }

    /// Evicts until `incoming` bytes fit or nothing unwanted is left.
    fn make_room(&mut self, keep: &[Read], incoming: usize) -> (gone: Vec<u64>)
        requires
            old(self)@.wf(),
            old(self)@.used + incoming <= usize::MAX,
        ensures
            old(self)@.evicts(gone@, offsets(keep@), incoming as nat),
            final(self)@ == old(self)@.without_all(gone@),
            final(self)@.settled(offsets(keep@), incoming as nat),
            final(self)@.wf(),
            final(self)@.used <= old(self)@.used,
    {
        broadcast use vstd::std_specs::hash::group_hash_axioms;

        let ghost s0 = self@;
        let mut gone: Vec<u64> = Vec::new();
        loop
            invariant
                s0.wf(),
                s0.used + incoming <= usize::MAX,
                s0.evicts(gone@, offsets(keep@), incoming as nat),
                self@ == s0.without_all(gone@),
                self@.wf(),
                self@.used <= s0.used,
            ensures
                self@.settled(offsets(keep@), incoming as nat),
            decreases self@.entries.dom().len(),
        {
            broadcast use vstd::std_specs::hash::group_hash_axioms;

            if self.used + incoming <= self.budget {
                break;
            }
            let k: u64 = match self.find_victim(keep) {
                Some(k) => k,
                None => break,
            };
            let ghost before = self@;
            proof {
                total_remove(self@.entries, k);
            }
            let bytes: usize = match self.cache.get(&k) {
                Some(e) => e.bytes,
                None => 0,
            };
            self.cache.remove(&k);
            self.used = self.used - bytes;
            let ghost earlier = gone@;
            gone.push(k);
            assert(self@.entries =~= before.entries.remove(k));
            assert(self@ == before.without(k));
            proof {
                assert(gone@.drop_last() =~= earlier);
                evictions_spare(s0, gone@, offsets(keep@), incoming as nat);
            }
        }
        gone
    }

    /// A coldest cached slab that is not one of `keep`.
    fn find_victim(&self, keep: &[Read]) -> (r: Option<u64>)
        ensures
            match r {
                Some(k) => self@.victim(offsets(keep@), k),
                None => forall|k: u64| !#[trigger] self@.candidate(offsets(keep@), k),
            },
    {
        broadcast use vstd::std_specs::hash::group_hash_axioms;

        let mut best: Option<(u64, CacheEntry)> = None;
        for kv in it: self.cache.iter()
            invariant
                forall|k: u64| #[trigger]
                    self.cache@.contains_key(k) ==> it.seq().contains((&k, &self.cache@[k])),
                forall|i: int|
                    0 <= i < it.seq().len() ==> {
                        let kv = #[trigger] it.seq()[i];
                        self.cache@.contains_key(*kv.0) && self.cache@[*kv.0] == *kv.1
                    },
                match best {
                    Some((b, e)) => {
                        &&& self@.candidate(offsets(keep@), b)
                        &&& self.cache@[b] == e
                        &&& forall|i: int|
                            0 <= i < it.index() && !offsets(keep@).contains(
                                *(#[trigger] it.seq()[i]).0,
                            ) ==> colder(e, *it.seq()[i].1)
                    },
                    None => forall|i: int|
                        0 <= i < it.index() ==> offsets(keep@).contains(
                            *(#[trigger] it.seq()[i]).0,
                        ),
                },
        {
            let (k, e) = kv;
            if !wanted(keep, *k) {
                assert(self.cache@.contains_key(*k) && self.cache@[*k] == *e);
                let better: bool = match best {
                    Some((_, b)) => e.freq < b.freq || (e.freq == b.freq && e.tick < b.tick),
                    None => true,
                };
                if better {
                    best = Some((*k, *e));
                }
            }
        }
        proof {
            assert forall|j: u64| #[trigger] self@.candidate(offsets(keep@), j) implies (best matches Some(
                (b, e),
            ) && colder(e, self@.entries[j])) by {
                assert(self.cache@.contains_key(j));
            }
        }
        match best {
            Some((k, _)) => Some(k),
            None => None,
        }
    }

    /// Records that the slab at `offset` arrived and takes `bytes`.
    pub fn fetched(&mut self, offset: u64, bytes: usize)
        requires
            old(self)@.wf(),
            old(self)@.used + bytes <= usize::MAX,
        ensures
            final(self)@ == old(self)@.admitted(offset, bytes),
            final(self)@.wf(),
    {
        broadcast use vstd::std_specs::hash::group_hash_axioms;

        let e: CacheEntry = CacheEntry { bytes, freq: 1, tick: self.tick };
        proof {
            total_insert(self@.entries, offset, e);
        }
        self.used = self.used + bytes;
        self.cache.insert(offset, e);
        assert(self@.entries =~= old(self)@.entries.insert(offset, e));
    }

    /// Zeroes the hit and miss counts.
    pub fn reset_stats(&mut self)
        ensures
            final(self)@ == (Store { hits: 0, misses: 0, ..old(self)@ }),
    {
        self.hits = 0;
        self.misses = 0;
    }

    /// Whether the slab at `offset` is cached.
    pub fn contains(&self, offset: u64) -> (r: bool)
        ensures
            r == self@.entries.contains_key(offset),
    {
        broadcast use vstd::std_specs::hash::group_hash_axioms;

        self.cache.contains_key(&offset)
    }

    /// Bytes accounted for.
    pub fn used_bytes(&self) -> (n: usize)
        ensures
            n == self@.used,
    {
        self.used
    }

    /// Takes in a slab that was read ahead, evicting to the budget first.
    /// `None` when the offset is already cached and the slab is not needed.
    pub fn absorb(&mut self, offset: u64, bytes: usize) -> (r: Option<Vec<u64>>)
        requires
            old(self)@.wf(),
            old(self)@.used + bytes <= usize::MAX,
        ensures
            final(self)@.wf(),
            match r {
                None => old(self)@.entries.contains_key(offset) && final(self)@ == old(self)@,
                Some(gone) => {
                    &&& !old(self)@.entries.contains_key(offset)
                    &&& old(self)@.evicts(gone@, Seq::empty(), bytes as nat)
                    &&& old(self)@.without_all(gone@).settled(Seq::empty(), bytes as nat)
                    &&& final(self)@ == old(self)@.without_all(gone@).admitted(offset, bytes)
                },
            },
    {
        if self.contains(offset) {
            return None;
        }
        let none: Vec<Read> = Vec::new();
        assert(offsets(none@) =~= Seq::empty());
        let gone: Vec<u64> = self.make_room(&none, bytes);
        self.fetched(offset, bytes);
        Some(gone)
    }
}

} // verus!
