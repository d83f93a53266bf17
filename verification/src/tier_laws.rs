//! What the placement of experts promises: which of them a tier takes, how slots
//! are gathered, and what a warm start loads.

use vstd::prelude::*;

#[allow(unused_imports)]
use crate::census::{after, at_most, census_of, fitting, outside, reads, Heat};
#[allow(unused_imports)]
use crate::grouping::{flat, gathered, gathered_sizes, group_of, starts};
#[allow(unused_imports)]
use crate::le::le_value;
#[allow(unused_imports)]
use crate::resolve::{ExpertPtrs, Place};
#[allow(unused_imports)]
use crate::slab_cache::SLAB_SLACK;
#[allow(unused_imports)]
use crate::tiers::{
    all_triples, candidates, filled, heat_of, laid_out, place_map, triple_of, warm_triples, Fill,
    MoeTensors, Placement, Triple,
};

verus! {

/// A slab's heat is the count of the last census entry for it, and none where there
/// is none.
pub proof fn heat_is_last_count(census: Seq<Heat>, offset: u64, i: int)
    requires
        forall|j: int| i < j < census.len() ==> (#[trigger] census[j]).offset != offset,
        -1 <= i < census.len(),
        i >= 0 ==> census[i].offset == offset,
    ensures
        i >= 0 ==> heat_of(census, offset) == census[i].count,
        i < 0 ==> heat_of(census, offset) == 0,
    decreases census.len(),
{
    if census.len() > 0 {
        let n = census.len() - 1;
        if i < n {
            assert(census[n].offset != offset);
            assert forall|j: int| i < j < census.drop_last().len() implies (
            #[trigger] census.drop_last()[j]).offset != offset by {
                assert(census[j].offset != offset);
            }
            heat_is_last_count(census.drop_last(), offset, i);
        }
    }
}

/// An expert is its three slabs, and as hot as they are together.
pub proof fn expert_is_three_slabs(census: Seq<Heat>, l: MoeTensors, e: int)
    requires
        heat_of(census, l.gate.slab(e).offset) + heat_of(census, l.up.slab(e).offset) + heat_of(
            census,
            l.down.slab(e).offset,
        ) <= u64::MAX,
    ensures
        ({
            let t = triple_of(census, l, e);
            &&& t.gate == l.gate.slab(e)
            &&& t.up == l.up.slab(e)
            &&& t.down == l.down.slab(e)
            &&& t.heat == heat_of(census, t.gate.offset) + heat_of(census, t.up.offset) + heat_of(
                census,
                t.down.offset,
            )
            &&& t.bytes() == l.gate.expert_bytes + l.up.expert_bytes + l.down.expert_bytes
        }),
{
}

/// Of a layer's experts, exactly those that were ever asked for may go on a tier.
pub proof fn warm_experts_are_listed(census: Seq<Heat>, l: MoeTensors, n: nat, t: Triple)
    ensures
        warm_triples(census, l, n).contains(t) <==> exists|e: int|
            0 <= e < n && t == #[trigger] triple_of(census, l, e) && t.heat > 0,
        warm_triples(census, l, n).len() <= n,
    decreases n,
{
    let v = warm_triples(census, l, n);
    if n > 0 {
        let v0 = warm_triples(census, l, (n - 1) as nat);
        let last = triple_of(census, l, n - 1);
        warm_experts_are_listed(census, l, (n - 1) as nat, t);
        if v.contains(t) {
            let x = v.index_of(t);
            if x < v0.len() {
                assert(v0[x] == t);
                let e = choose|e: int|
                    0 <= e < n - 1 && t == #[trigger] triple_of(census, l, e) && t.heat > 0;
                assert(t == triple_of(census, l, e));
            } else {
                assert(t == triple_of(census, l, n - 1));
            }
        }
        if exists|e: int| 0 <= e < n && t == #[trigger] triple_of(census, l, e) && t.heat > 0 {
            let e = choose|e: int|
                0 <= e < n && t == #[trigger] triple_of(census, l, e) && t.heat > 0;
            if e < n - 1 {
                assert(t == triple_of(census, l, e));
                let x = v0.index_of(t);
                assert(v0.contains(t));
                assert(v[x] == t);
            } else {
                assert(v[v.len() - 1] == t);
            }
        }
    }
}

/// All layers' warm experts are listed, layer by layer.
pub proof fn layers_are_listed(census: Seq<Heat>, layers: Seq<MoeTensors>, n: nat, t: Triple)
    ensures
        all_triples(census, layers, n).contains(t) <==> exists|i: int|
            0 <= i < layers.len() && warm_triples(census, #[trigger] layers[i], n).contains(t),
    decreases layers.len(),
{
    let v = all_triples(census, layers, n);
    if layers.len() > 0 {
        let init = layers.drop_last();
        let m = layers.len() - 1;
        let v0 = all_triples(census, init, n);
        let w = warm_triples(census, layers[m], n);
        layers_are_listed(census, init, n, t);
        if v.contains(t) {
            let x = v.index_of(t);
            if x < v0.len() {
                assert(v0[x] == t);
                let i = choose|i: int|
                    0 <= i < init.len() && warm_triples(census, #[trigger] init[i], n).contains(t);
                assert(layers[i] == init[i]);
            } else {
                assert(w[x - v0.len()] == t);
                assert(w.contains(t));
            }
        }
        if exists|i: int|
            0 <= i < layers.len() && warm_triples(census, #[trigger] layers[i], n).contains(t) {
            let i = choose|i: int|
                0 <= i < layers.len() && warm_triples(census, #[trigger] layers[i], n).contains(t);
            if i < m {
                assert(init[i] == layers[i]);
                let x = v0.index_of(t);
                assert(v0.contains(t));
                assert(v[x] == t);
            } else {
                let x = w.index_of(t);
                assert(v[v0.len() + x] == t);
            }
        }
    }
}

/// A device may become a tier exactly if it is neither the primary nor
/// attention's; each is listed once, in order.
pub proof fn other_devices_are_candidates(n: int, primary: i32, attn: Option<i32>)
    requires
        0 <= n <= i32::MAX,
    ensures
        ({
            let v = candidates(n, primary, attn);
            &&& forall|i: int, j: int|
                0 <= i < j < v.len() ==> (#[trigger] v[i]) < (#[trigger] v[j])
            &&& forall|d: i32|
                #[trigger] v.contains(d) <==> 0 <= d < n && d != primary && attn != Some(d)
        }),
    decreases n,
{
    let v = candidates(n, primary, attn);
    if n > 0 {
        let v0 = candidates(n - 1, primary, attn);
        other_devices_are_candidates(n - 1, primary, attn);
        assert forall|i: int| 0 <= i < v0.len() implies (#[trigger] v0[i]) < n - 1 by {
            assert(v0.contains(v0[i]));
        }
        assert forall|d: i32| #[trigger] v.contains(d) <==> 0 <= d < n && d != primary && attn
            != Some(d) by {
            assert(v0.contains(d) <==> 0 <= d < n - 1 && d != primary && attn != Some(d));
            if v.contains(d) {
                let x = v.index_of(d);
                if x < v0.len() {
                    assert(v0[x] == d);
                }
            }
            if 0 <= d < n && d != primary && attn != Some(d) {
                if d < n - 1 {
                    let x = v0.index_of(d);
                    assert(v[x] == d);
                } else {
                    assert(v[v.len() - 1] == d);
                }
            }
        }
    }
}

/// A triple's slabs lie one behind the other: gate, up, down.
pub proof fn triple_lies_together(t: Triple, at: int)
    requires
        0 <= at,
        at + t.gate.len + t.up.len + t.down.len <= usize::MAX,
    ensures
        ({
            let l = laid_out(t, at);
            &&& l.len() == 3
            &&& l[0].slab == t.gate && l[0].at == at
            &&& l[1].slab == t.up && l[1].at == l[0].at + t.gate.len
            &&& l[2].slab == t.down && l[2].at == l[1].at + t.up.len
        }),
{
}

/// A pool is filled as far as it goes: it stops at the end of the ranking or before
/// a triple that does not fit any more with the slack behind it.
pub proof fn pool_is_filled_up(triples: Seq<Triple>, f: Fill, pool: int)
    requires
        0 <= f.next <= triples.len(),
    ensures
        ({
            let r = filled(triples, f, pool);
            &&& f.next <= r.next <= triples.len()
            &&& r.next < triples.len() ==> r.cursor + triples[r.next].gate.len
                + triples[r.next].up.len + triples[r.next].down.len + SLAB_SLACK > pool
            &&& r.next > f.next ==> r.cursor + SLAB_SLACK <= pool
            &&& r.next == f.next ==> r == f
        }),
    decreases triples.len() - f.next,
{
    if f.next < triples.len() {
        let t = triples[f.next];
        if f.cursor + t.bytes() + SLAB_SLACK <= pool {
            let g = Fill {
                placed: f.placed + laid_out(t, f.cursor),
                cursor: f.cursor + t.bytes(),
                next: f.next + 1,
            };
            pool_is_filled_up(triples, g, pool);
        }
    }
}

/// A tier finds a slab where it was placed last.
pub proof fn placed_slab_is_found(placed: Seq<Placement>, i: int)
    requires
        0 <= i < placed.len(),
        forall|j: int|
            i < j < placed.len() ==> (#[trigger] placed[j]).slab.offset != placed[i].slab.offset,
    ensures
        place_map(placed).contains_key(placed[i].slab.offset),
        place_map(placed)[placed[i].slab.offset] == placed[i].at,
    decreases placed.len(),
{
    let n = placed.len() - 1;
    if i < n {
        assert(placed[n].slab.offset != placed[i].slab.offset);
        let init = placed.drop_last();
        assert forall|j: int| i < j < init.len() implies (#[trigger] init[j]).slab.offset
            != init[i].slab.offset by {
            assert(placed[j].slab.offset != placed[i].slab.offset);
        }
        placed_slab_is_found(init, i);
    }
}

/// A tier holds nothing that was not placed there.
pub proof fn only_placed_slabs_are_found(placed: Seq<Placement>, o: u64)
    requires
        place_map(placed).contains_key(o),
    ensures
        exists|i: int|
            0 <= i < placed.len() && (#[trigger] placed[i]).slab.offset == o && placed[i].at
                == place_map(placed)[o],
    decreases placed.len(),
{
    if placed.len() > 0 {
        let n = placed.len() - 1;
        if placed[n].slab.offset != o {
            let init = placed.drop_last();
            only_placed_slabs_are_found(init, o);
            let i = choose|i: int|
                0 <= i < init.len() && (#[trigger] init[i]).slab.offset == o && init[i].at
                    == place_map(init)[o];
            assert(placed[i] == init[i]);
        }
    }
}

proof fn group_of_is_first(ptrs: Seq<ExpertPtrs>, gate: Place, k: int)
    requires
        0 <= k,
    ensures
        match group_of(ptrs, gate, k) {
            Some(x) => k <= x < ptrs.len() && ptrs[x].gate == gate,
            None => forall|x: int| k <= x < ptrs.len() ==> (#[trigger] ptrs[x]).gate != gate,
        },
    decreases ptrs.len() - k,
{
    if k < ptrs.len() && ptrs[k].gate != gate {
        group_of_is_first(ptrs, gate, k + 1);
    }
}

/// A group lists only slots that use its weights, each by token and place among the
/// token's experts, and its weights are those of one of them.
pub proof fn groups_hold_their_own_slots(
    here: Seq<Option<ExpertPtrs>>,
    n_used: int,
    n: int,
    k: int,
    x: int,
)
    requires
        0 <= n <= here.len(),
        n_used > 0,
        0 <= k < gathered(here, n_used, n).ptrs.len(),
        0 <= x < gathered(here, n_used, n).members[k].len(),
    ensures
        ({
            let g = gathered(here, n_used, n);
            exists|i: int|
                {
                    &&& 0 <= i < n
                    &&& (#[trigger] here[i]) is Some
                    &&& here[i]->0.gate == g.ptrs[k].gate
                    &&& g.members[k][x] == (i / n_used * 16 + i % n_used) as u32
                    &&& x == 0 ==> here[i]->0 == g.ptrs[k]
                }
        }),
    decreases n,
{
    if n > 0 {
        let g0 = gathered(here, n_used, n - 1);
        let g = gathered(here, n_used, n);
        gathered_sizes(here, n_used, n - 1);
        gathered_sizes(here, n_used, n);
        let mut done = false;
        if here[n - 1] is Some {
            let p = here[n - 1]->0;
            group_of_is_first(g0.ptrs, p.gate, 0);
            match group_of(g0.ptrs, p.gate, 0) {
                Some(y) => {
                    if y == k && x == g0.members[k].len() {
                        done = true;
                        no_group_is_empty(here, n_used, n - 1, k);
                        assert(here[n - 1] is Some);
                    }
                },
                None => {
                    if k == g0.ptrs.len() {
                        done = true;
                        assert(here[n - 1] is Some);
                    }
                },
            }
        }
        if !done {
            groups_hold_their_own_slots(here, n_used, n - 1, k, x);
            assert(g.members[k][x] == g0.members[k][x]);
            assert(g.ptrs[k] == g0.ptrs[k]);
            let i = choose|i: int|
                {
                    &&& 0 <= i < n - 1
                    &&& (#[trigger] here[i]) is Some
                    &&& here[i]->0.gate == g0.ptrs[k].gate
                    &&& g0.members[k][x] == (i / n_used * 16 + i % n_used) as u32
                    &&& x == 0 ==> here[i]->0 == g0.ptrs[k]
                };
            assert(here[i] is Some);
        }
    }
}

proof fn no_group_is_empty(here: Seq<Option<ExpertPtrs>>, n_used: int, n: int, k: int)
    requires
        0 <= n <= here.len(),
        0 <= k < gathered(here, n_used, n).ptrs.len(),
    ensures
        gathered(here, n_used, n).members.len() == gathered(here, n_used, n).ptrs.len(),
        gathered(here, n_used, n).members[k].len() > 0,
    decreases n,
{
    gathered_sizes(here, n_used, n);
    if n > 0 {
        let g0 = gathered(here, n_used, n - 1);
        gathered_sizes(here, n_used, n - 1);
        if here[n - 1] is Some {
            group_of_is_first(g0.ptrs, here[n - 1]->0.gate, 0);
        }
        if k < g0.ptrs.len() {
            no_group_is_empty(here, n_used, n - 1, k);
        }
    }
}

proof fn flat_take(members: Seq<Seq<u32>>, k: int)
    requires
        0 <= k < members.len(),
    ensures
        flat(members.take(k + 1)) == flat(members.take(k)) + members[k],
{
    assert(members.take(k + 1).drop_last() =~= members.take(k));
}

proof fn flat_prefix(members: Seq<Seq<u32>>, k: int, m: int)
    requires
        0 <= k <= m <= members.len(),
    ensures
        flat(members.take(k)).len() <= flat(members.take(m)).len(),
        flat(members.take(m)).take(flat(members.take(k)).len() as int) == flat(members.take(k)),
    decreases m - k,
{
    let a = flat(members.take(k));
    if k < m {
        flat_prefix(members, k, m - 1);
        flat_take(members, m - 1);
        let b = flat(members.take(m - 1));
        assert((b + members[m - 1]).take(a.len() as int) =~= b.take(a.len() as int));
    } else {
        assert(a.take(a.len() as int) =~= a);
    }
}

/// The groups lie one behind the other in the flat list: group `k` between its
/// start and the next one's, and the last ends with the list.
pub proof fn groups_lie_between_starts(members: Seq<Seq<u32>>, k: int)
    requires
        0 <= k < members.len(),
    ensures
        ({
            let s = starts(members);
            &&& s.len() == members.len() + 1
            &&& s[0] == 0
            &&& s[members.len() as int] == flat(members).len()
            &&& 0 <= s[k] <= s[k + 1] <= flat(members).len()
            &&& flat(members).subrange(s[k], s[k + 1]) == members[k]
        }),
{
    let n = members.len() as int;
    let s = starts(members);
    assert(members.take(0) =~= Seq::empty());
    assert(members.take(n) =~= members);
    flat_take(members, k);
    flat_prefix(members, k + 1, n);
    flat_prefix(members, k, n);
    let all = flat(members);
    let upto = all.take(s[k + 1]);
    assert(upto == flat(members.take(k)) + members[k]);
    assert(all.subrange(s[k], s[k + 1]) =~= upto.subrange(s[k], s[k + 1]));
    assert(upto.subrange(s[k], s[k + 1]) =~= members[k]);
}

/// A census file is records of 24 bytes: offset, length and count, eight bytes each,
/// the lowest first.
pub proof fn census_file_layout(b: Seq<u8>, i: int)
    requires
        0 <= i,
        24 * i + 24 <= b.len(),
    ensures
        i < census_of(b).len(),
        census_of(b).len() == b.len() / 24,
        ({
            let h = census_of(b)[i];
            &&& h.offset == le_value(b.subrange(24 * i, 24 * i + 8)) as u64
            &&& h.len == le_value(b.subrange(24 * i + 8, 24 * i + 16)) as u64
            &&& h.count == le_value(b.subrange(24 * i + 16, 24 * i + 24)) as u64
        }),
{
}

/// A warm start leaves out what tiers hold and nothing else, in order.
pub proof fn warm_start_is_outside_tiers(list: Seq<Heat>, in_tier: Seq<bool>, h: Heat)
    requires
        in_tier.len() >= list.len(),
    ensures
        outside(list, in_tier).contains(h) <==> exists|i: int|
            0 <= i < list.len() && (#[trigger] list[i]) == h && !in_tier[i],
        outside(list, in_tier).len() <= list.len(),
        (forall|i: int| 0 <= i < list.len() ==> !#[trigger] in_tier[i]) ==> outside(list, in_tier)
            == list,
    decreases list.len(),
{
    let v = outside(list, in_tier);
    if list.len() > 0 {
        let init = list.drop_last();
        let n = list.len() - 1;
        let v0 = outside(init, in_tier);
        warm_start_is_outside_tiers(init, in_tier, h);
        if v.contains(h) {
            let x = v.index_of(h);
            if x < v0.len() {
                assert(v0[x] == h);
                let i = choose|i: int|
                    0 <= i < init.len() && (#[trigger] init[i]) == h && !in_tier[i];
                assert(list[i] == init[i]);
            } else {
                assert(list[n] == h);
            }
        }
        if exists|i: int| 0 <= i < list.len() && (#[trigger] list[i]) == h && !in_tier[i] {
            let i = choose|i: int| 0 <= i < list.len() && (#[trigger] list[i]) == h && !in_tier[i];
            if i < n {
                assert(init[i] == list[i]);
                let x = v0.index_of(h);
                assert(v0.contains(h));
                assert(v[x] == h);
            } else {
                assert(v[v.len() - 1] == h);
            }
        }
        if forall|i: int| 0 <= i < list.len() ==> !#[trigger] in_tier[i] {
            assert(v0 == init);
            assert(!in_tier[n]);
            assert(v =~= list);
        }
    } else {
        assert(v =~= list);
    }
}

/// The lengths of a list's slabs, added up.
pub open spec fn lengths(list: Seq<Heat>) -> int
    decreases list.len(),
{
    if list.len() == 0 {
        0
    } else {
        list[0].len + lengths(list.drop_first())
    }
}

/// The host takes as much of the list as its budget holds: a prefix whose lengths
/// stay within it, and the next slab, if there is one, does not fit.
pub proof fn host_budget_is_used_up(list: Seq<Heat>, budget: int)
    requires
        0 <= budget,
    ensures
        ({
            let v = fitting(list, budget);
            &&& v.len() <= list.len()
            &&& v == list.take(v.len() as int)
            &&& lengths(v) <= budget
            &&& v.len() < list.len() ==> lengths(v) + list[v.len() as int].len > budget
        }),
    decreases list.len(),
{
    let v = fitting(list, budget);
    if list.len() == 0 || list[0].len > budget {
        assert(v =~= list.take(0));
    } else {
        let rest = list.drop_first();
        let w = fitting(rest, budget - list[0].len);
        host_budget_is_used_up(rest, budget - list[0].len);
        assert(v.drop_first() =~= w);
        assert(v =~= list.take(v.len() as int)) by {
            assert forall|i: int| 0 <= i < v.len() implies v[i] == list[i] by {
                if i > 0 {
                    assert(v[i] == w[i - 1]);
                    assert(w[i - 1] == rest[i - 1]);
                }
            }
        }
        if v.len() < list.len() {
            assert(list[v.len() as int] == rest[w.len() as int]);
        }
    }
}

/// The device takes the first of the list, the host goes on right behind, and each
/// read is an entry's own.
pub proof fn device_first_then_host(list: Seq<Heat>, n: int, i: int)
    requires
        0 <= n,
        0 <= i < list.len(),
    ensures
        at_most(list, n) + after(list, n) == list,
        at_most(list, n).len() == (if n < list.len() {
            n
        } else {
            list.len() as int
        }),
        reads(list).len() == list.len(),
        reads(list)[i].offset == list[i].offset,
        reads(list)[i].len == list[i].len,
{
    assert(at_most(list, n) + after(list, n) =~= list);
}

} // verus!
