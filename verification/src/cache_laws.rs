//! What the two expert caches promise, said of what is in them before and after.

use vstd::prelude::*;

#[allow(unused_imports)]
use crate::slab_cache::{coldest_is_coldest, evictable, first_free, slot_count, Slabs, FREE};
#[allow(unused_imports)]
use crate::store::{evictions_spare, scan, total_remove, CacheEntry, Read, Store};

verus! {

/// Asking for a slab counts once: its own count rises by one, no other changes, and
/// exactly one of hits and misses rises, a hit where the slab is resident. Its
/// slot remembers the new count; nothing moves and no other slot changes.
pub proof fn asking_counts_once(s: Slabs, offset: u64, len: u64)
    requires
        s.wf(),
        s.count(offset) < u64::MAX,
    ensures
        ({
            let t = s.touched(offset, len);
            &&& t.count(offset) == s.count(offset) + 1
            &&& t.touch.contains_key(offset)
            &&& t.touch[offset].1 == (if s.touch.contains_key(offset) {
                s.touch[offset].1
            } else {
                len
            })
            &&& forall|o: u64|
                o != offset ==> #[trigger] t.count(o) == s.count(o) && t.touch.contains_key(o)
                    == s.touch.contains_key(o)
            &&& t.resident == s.resident
            &&& t.slab_bytes == s.slab_bytes
            &&& t.slots.len() == s.slots.len()
            &&& s.resident.contains_key(offset) ==> {
                &&& t.hits == s.hits + 1
                &&& t.misses == s.misses
                &&& t.slots[s.resident[offset] as int] == (t.count(offset), offset)
                &&& forall|i: int|
                    0 <= i < s.slots.len() && i != s.resident[offset] ==> #[trigger] t.slots[i]
                        == s.slots[i]
            }
            &&& !s.resident.contains_key(offset) ==> {
                &&& t.misses == s.misses + 1
                &&& t.hits == s.hits
                &&& t.slots == s.slots
            }
        }),
{
}

/// Keeping a slab warm counts it and does nothing else.
pub proof fn warming_only_counts(s: Slabs, offset: u64, len: u64)
    requires
        s.count(offset) < u64::MAX,
    ensures
        ({
            let t = s.warmed(offset, len);
            &&& t.count(offset) == s.count(offset) + 1
            &&& forall|o: u64| o != offset ==> #[trigger] t.count(o) == s.count(o)
            &&& t.resident == s.resident
            &&& t.slots == s.slots
            &&& t.hits == s.hits
            &&& t.misses == s.misses
            &&& t.slab_bytes == s.slab_bytes
        }),
{
}

proof fn first_free_is_first(slots: Seq<(u64, u64)>, i: int)
    requires
        0 <= i,
    ensures
        match first_free(slots, i) {
            Some(f) => {
                &&& i <= f < slots.len()
                &&& slots[f].1 == FREE
                &&& forall|j: int| i <= j < f ==> (#[trigger] slots[j]).1 != FREE
            },
            None => forall|j: int| i <= j < slots.len() ==> (#[trigger] slots[j]).1 != FREE,
        },
    decreases slots.len() - i,
{
    if i < slots.len() && slots[i].1 != FREE {
        first_free_is_first(slots, i + 1);
    }
}

/// Who is let in. While a slot is free, everyone, into the first free one. Then
/// exactly those that were asked for more often than some resident slab that is
/// not in use; the slab that leaves for it is one that was asked for least.
pub proof fn admission_is_for_hotter_slabs(s: Slabs, offset: u64, in_use: Seq<u64>)
    ensures
        ({
            let a = s.admission(offset, in_use);
            &&& (exists|i: int| 0 <= i < s.slots.len() && (#[trigger] s.slots[i]).1 == FREE) ==> {
                &&& a matches Some(v) && 0 <= v < s.slots.len() && s.slots[v].1 == FREE && forall|
                    j: int,
                |
                    0 <= j < v ==> (#[trigger] s.slots[j]).1 != FREE
            }
            &&& (forall|i: int| 0 <= i < s.slots.len() ==> (#[trigger] s.slots[i]).1 != FREE) ==> {
                &&& a is Some <==> exists|i: int|
                    0 <= i < s.slots.len() && !in_use.contains((#[trigger] s.slots[i]).1)
                        && s.slots[i].0 < s.count(offset)
                &&& a matches Some(v) ==> 0 <= v < s.slots.len() && !in_use.contains(s.slots[v].1)
                    && forall|i: int|
                    0 <= i < s.slots.len() && !in_use.contains((#[trigger] s.slots[i]).1)
                        ==> s.slots[v].0 <= s.slots[i].0
            }
        }),
{
    let n = s.slots.len() as int;
    first_free_is_first(s.slots, 0);
    coldest_is_coldest(s.slots, in_use, n);
    if forall|i: int| 0 <= i < s.slots.len() ==> (#[trigger] s.slots[i]).1 != FREE {
        assert forall|i: int|
            0 <= i < n && !in_use.contains((#[trigger] s.slots[i]).1) implies evictable(
            s.slots,
            in_use,
            i,
        ) by {}
        match s.admission(offset, in_use) {
            Some(v) => {
                assert(evictable(s.slots, in_use, v));
            },
            None => {
                assert forall|i: int| 0 <= i < n && !in_use.contains(
                    (#[trigger] s.slots[i]).1,
                ) implies s.slots[i].0 >= s.count(offset) by {
                    assert(evictable(s.slots, in_use, i));
                }
            },
        }
    }
}

/// Giving up a slot takes only the slab in it out of the cache.
pub proof fn only_the_victim_leaves(s: Slabs, slot: int)
    requires
        s.wf(),
        0 <= slot < s.slots.len(),
    ensures
        ({
            let t = s.vacated(slot);
            &&& t.slots == s.slots
            &&& t.touch == s.touch
            &&& t.hits == s.hits
            &&& t.misses == s.misses
            &&& forall|o: u64|
                #[trigger] t.resident.contains_key(o) <==> s.resident.contains_key(o) && o
                    != s.slots[slot].1
            &&& forall|o: u64|
                #[trigger] t.resident.contains_key(o) ==> t.resident[o] == s.resident[o]
        }),
{
    if s.slots[slot].1 == FREE {
        assert forall|o: u64| #[trigger] s.resident.contains_key(o) implies o != FREE by {}
    }
}

/// A slab that is put into a slot is resident there under its own count; every
/// other slab stays where it is.
pub proof fn filling_places_one_slab(s: Slabs, slot: usize, offset: u64)
    requires
        s.wf(),
        s.vacant(slot),
        offset != FREE,
    ensures
        ({
            let t = s.filled(slot, offset);
            &&& t.resident.contains_key(offset) && t.resident[offset] == slot
            &&& t.slots[slot as int] == (s.count(offset), offset)
            &&& t.slots.len() == s.slots.len()
            &&& forall|i: int|
                0 <= i < s.slots.len() && i != slot ==> #[trigger] t.slots[i] == s.slots[i]
            &&& forall|o: u64|
                o != offset ==> (#[trigger] t.resident.contains_key(o)
                    <==> s.resident.contains_key(o))
            &&& forall|o: u64|
                o != offset && #[trigger] t.resident.contains_key(o) ==> t.resident[o]
                    == s.resident[o]
            &&& t.touch == s.touch
            &&& t.hits == s.hits
            &&& t.misses == s.misses
        }),
{
}

/// The slab that leaves the host store is one that was wanted least often, and
/// among those one that was not wanted for the longest.
pub proof fn victim_is_least_wanted(s: Store, keep: Seq<u64>, k: u64, j: u64)
    requires
        s.victim(keep, k),
        s.entries.contains_key(j),
        !keep.contains(j),
    ensures
        s.entries.contains_key(k),
        !keep.contains(k),
        s.entries[k].freq <= s.entries[j].freq,
        s.entries[k].freq == s.entries[j].freq ==> s.entries[k].tick <= s.entries[j].tick,
{
    assert(s.candidate(keep, j));
}

/// A wanted slab that is cached is counted as wanted once more, now; nothing else
/// in the store changes but the number of hits.
pub proof fn hit_counts_once(s: Store, offset: u64)
    requires
        s.entries.contains_key(offset),
        s.entries[offset].freq < u64::MAX,
        s.tick <= u64::MAX,
    ensures
        ({
            let t = s.hit(offset);
            &&& t.entries.contains_key(offset)
            &&& t.entries[offset].freq == s.entries[offset].freq + 1
            &&& t.entries[offset].tick == s.tick
            &&& t.entries[offset].bytes == s.entries[offset].bytes
            &&& forall|o: u64|
                o != offset ==> (#[trigger] t.entries.contains_key(o) <==> s.entries.contains_key(o))
            &&& forall|o: u64|
                o != offset && s.entries.contains_key(o) ==> #[trigger] t.entries[o] == s.entries[o]
            &&& t.hits == s.hits + 1
            &&& t.misses == s.misses
            &&& t.used == s.used
            &&& t.budget == s.budget
            &&& t.tick == s.tick
        }),
{
}

/// A slab that arrives is cached with one want, now, and its bytes are accounted
/// for.
pub proof fn arrival_is_accounted_for(s: Store, offset: u64, bytes: usize)
    requires
        s.tick <= u64::MAX,
    ensures
        ({
            let t = s.admitted(offset, bytes);
            &&& t.entries.contains_key(offset)
            &&& t.entries[offset] == (CacheEntry { bytes, freq: 1, tick: s.tick as u64 })
            &&& t.used == s.used + bytes
            &&& t.budget == s.budget
            &&& t.hits == s.hits
            &&& t.misses == s.misses
            &&& t.tick == s.tick
            &&& forall|o: u64|
                o != offset ==> (#[trigger] t.entries.contains_key(o) <==> s.entries.contains_key(o))
            &&& forall|o: u64|
                o != offset && s.entries.contains_key(o) ==> #[trigger] t.entries[o] == s.entries[o]
        }),
{
}

/// A walk over wants passes over none: up to where it stops, or to the end, every
/// want that it passed is reported missing, in order and once, and counted as a
/// miss; and it stops at the first that is cached, which counts as a hit.
pub proof fn walk_reports_every_want(s: Store, wants: Seq<Read>, pos: int, missing: Seq<Read>)
    requires
        0 <= pos <= wants.len(),
    ensures
        ({
            let r = scan(s, wants, pos, missing);
            let stop = if r.found is Some {
                r.pos - 1
            } else {
                r.pos
            };
            &&& pos <= stop <= wants.len()
            &&& r.found is None ==> r.pos == wants.len()
            &&& r.missing == missing + wants.subrange(pos, stop)
            &&& forall|i: int|
                pos <= i < stop ==> !s.entries.contains_key((#[trigger] wants[i]).offset)
            &&& r.found matches Some(o) ==> {
                &&& stop < wants.len()
                &&& wants[stop].offset == o
                &&& s.entries.contains_key(o)
                &&& r.store.hits == s.hits + 1
            }
            &&& r.found is None ==> r.store.hits == s.hits && r.store.entries == s.entries
            &&& r.store.misses == s.misses + (stop - pos)
        }),
    decreases wants.len() - pos,
{
    if pos < wants.len() && !s.entries.contains_key(wants[pos].offset) {
        let m2 = missing.push(wants[pos]);
        walk_reports_every_want(s.miss(), wants, pos + 1, m2);
        let r = scan(s, wants, pos, missing);
        let stop = if r.found is Some {
            r.pos - 1
        } else {
            r.pos
        };
        assert(m2 + wants.subrange(pos + 1, stop) =~= missing + wants.subrange(pos, stop));
    } else {
        let stop = pos;
        assert(missing + wants.subrange(pos, stop) =~= missing);
    }
}

/// Evicting takes just the victims out and gives their bytes back.
pub proof fn evicting_removes_victims(s: Store, victims: Seq<u64>, keep: Seq<u64>, incoming: nat)
    requires
        s.wf(),
        s.evicts(victims, keep, incoming),
    ensures
        ({
            let t = s.without_all(victims);
            &&& forall|o: u64|
                #[trigger] t.entries.contains_key(o) <==> s.entries.contains_key(o)
                    && !victims.contains(o)
            &&& forall|o: u64| #[trigger] t.entries.contains_key(o) ==> t.entries[o] == s.entries[o]
            &&& t.used + victim_bytes(s, victims) == s.used
            &&& t.budget == s.budget
            &&& t.tick == s.tick
            &&& t.hits == s.hits
            &&& t.misses == s.misses
        }),
    decreases victims.len(),
{
    if victims.len() > 0 {
        let init = victims.drop_last();
        let last = victims.last();
        evicting_removes_victims(s, init, keep, incoming);
        evictions_spare(s, init, keep, incoming);
        let before = s.without_all(init);
        total_remove(before.entries, last);
        let t = s.without_all(victims);
        assert(victims =~= init.push(last));
        assert forall|o: u64| #[trigger] t.entries.contains_key(o) <==> s.entries.contains_key(o)
            && !victims.contains(o) by {
            assert(before.entries.contains_key(o) <==> s.entries.contains_key(o)
                && !init.contains(o));
            if victims.contains(o) && o != last {
                let k = victims.index_of(o);
                assert(victims[k] == o);
                assert(init[k] == o);
            }
            if init.contains(o) {
                let k = init.index_of(o);
                assert(victims[k] == o);
            }
            assert(victims[victims.len() - 1] == last);
        }
    }
}

/// The bytes of all victims.
pub open spec fn victim_bytes(s: Store, victims: Seq<u64>) -> nat
    decreases victims.len(),
{
    if victims.len() == 0 {
        0
    } else {
        victim_bytes(s, victims.drop_last()) + s.entries[victims.last()].bytes as nat
    }
}

/// Nothing is evicted while there is room: before each victim left, what was
/// cached and what is coming did not fit the budget.
pub proof fn evicts_only_when_short(s: Store, victims: Seq<u64>, keep: Seq<u64>, incoming: nat, n: int)
    requires
        s.wf(),
        s.evicts(victims, keep, incoming),
        0 <= n < victims.len(),
    ensures
        s.used - victim_bytes(s, victims.take(n)) + incoming > s.budget,
        s.entries.contains_key(victims[n]),
        !keep.contains(victims[n]),
    decreases victims.len(),
{
    let init = victims.drop_last();
    if n < victims.len() - 1 {
        evicts_only_when_short(s, init, keep, incoming, n);
        assert(init.take(n) =~= victims.take(n));
        assert(init[n] == victims[n]);
    } else {
        assert(victims.take(n) =~= init);
        evicting_removes_victims(s, init, keep, incoming);
        let before = s.without_all(init);
        assert(before.victim(keep, victims.last()));
        assert(before.candidate(keep, victims.last()));
        assert(before.entries.contains_key(victims.last()));
    }
}

/// Where making room ends, what is coming fits the budget, or everything that is
/// left is wanted right now.
pub proof fn room_is_made(s: Store, keep: Seq<u64>, incoming: nat)
    requires
        s.settled(keep, incoming),
    ensures
        s.used + incoming <= s.budget || forall|k: u64| #[trigger]
            s.entries.contains_key(k) ==> keep.contains(k),
{
    if s.used + incoming > s.budget {
        assert forall|k: u64| #[trigger] s.entries.contains_key(k) implies keep.contains(k) by {
            assert(!s.candidate(keep, k));
        }
    }
}

/// The device cache has as many slots as its budget holds slabs, and one where it
/// holds none.
pub proof fn slots_fill_the_budget(budget: usize, slab_bytes: usize)
    requires
        slab_bytes > 0,
    ensures
        ({
            let n = slot_count(budget, slab_bytes) as int;
            &&& n >= 1
            &&& n * slab_bytes <= budget || n == 1
            &&& (n + 1) * slab_bytes > budget
        }),
{
    let (b, w) = (budget as int, slab_bytes as int);
    let q = b / w;
    assert(q * w <= b && b < (q + 1) * w) by (nonlinear_arith)
        requires
            0 < w,
            0 <= b,
            q == b / w,
    ;
    if q == 0 {
        assert(b < w) by (nonlinear_arith)
            requires
                q == 0,
                b < (q + 1) * w,
        ;
    }
}

} // verus!
