//! What resolving the experts of a step promises: every routed slot is computed
//! once, from its own expert's weights, and only what is nowhere is read.

use vstd::prelude::*;

#[allow(unused_imports)]
use crate::expert::{quant_of, ExpertTensor};
#[allow(unused_imports)]
use crate::gguf::TensorType;
#[allow(unused_imports)]
use crate::resolve::{
    absent, active, first_home, home, layer_slabs, looked_up, missing_slabs, needed, on_tier,
    predicted_slabs, slab_stride, slabs, slot_of, tier_count, tiers_counted, Place, Slot,
};
#[allow(unused_imports)]
use crate::slab_cache::{room_shrinks, Slabs};
#[allow(unused_imports)]
use crate::store::{CacheEntry, Read};
#[allow(unused_imports)]
use crate::tiers::{tier_index, ExpertTier, MoeTensors};

verus! {

/// The slab of expert `e` lies `e` slabs behind the tensor's beginning.
pub proof fn slab_lies_in_order(t: ExpertTensor, n: nat, e: int)
    requires
        t.holds(n),
        0 <= e < n,
    ensures
        t.slab(e).offset == t.abs_offset + e * t.expert_bytes,
        t.slab(e).len == t.expert_bytes,
{
    let w = t.expert_bytes as int;
    assert(0 <= e * w && e * w <= n * w) by (nonlinear_arith)
        requires
            0 <= e < n,
            0 <= w,
    ;
}

/// Formats that differ have different kernels, and exactly the plain ones have
/// none.
pub proof fn kernels_differ(a: TensorType, b: TensorType)
    ensures
        quant_of(a) is None <==> a == TensorType::F32 || a == TensorType::Other,
        quant_of(a) is Some && quant_of(a) == quant_of(b) ==> a == b,
        quant_of(a) matches Some(q) ==> q < 12,
{
}

proof fn first_home_is_first(tiers: Seq<ExpertTier>, exps: MoeTensors, e: int, i: int)
    requires
        tiers.len() <= usize::MAX,
        0 <= i,
    ensures
        match first_home(tiers, exps, e, i) {
            Some(h) => {
                &&& i <= h.tier < tiers.len()
                &&& on_tier(tiers[h.tier as int], exps, e)
                &&& h.gate == tiers[h.tier as int]@[exps.gate.slab(e).offset]
                &&& h.up == tiers[h.tier as int]@[exps.up.slab(e).offset]
                &&& h.down == tiers[h.tier as int]@[exps.down.slab(e).offset]
                &&& forall|j: int| i <= j < h.tier ==> !on_tier(#[trigger] tiers[j], exps, e)
            },
            None => forall|j: int| i <= j < tiers.len() ==> !on_tier(#[trigger] tiers[j], exps, e),
        },
    decreases tiers.len() - i,
{
    if i < tiers.len() && !on_tier(tiers[i], exps, e) {
        first_home_is_first(tiers, exps, e, i + 1);
    }
}

/// A tier computes an expert only if it holds all three of its slabs, and then
/// from where it holds them; the first such tier does, unless the expert is
/// resident with the draft layer.
pub proof fn home_holds_whole_expert(
    tiers: Seq<ExpertTier>,
    draft: Map<u64, usize>,
    exps: MoeTensors,
    e: int,
)
    requires
        tiers.len() <= usize::MAX,
    ensures
        ({
            let (g, u, d) = (
                exps.gate.slab(e).offset,
                exps.up.slab(e).offset,
                exps.down.slab(e).offset,
            );
            match home(tiers, draft, exps, e) {
                Some(h) => {
                    let t = tiers[h.tier as int]@;
                    &&& h.tier < tiers.len()
                    &&& !draft.contains_key(g)
                    &&& t.contains_key(g) && t[g] == h.gate
                    &&& t.contains_key(u) && t[u] == h.up
                    &&& t.contains_key(d) && t[d] == h.down
                    &&& forall|j: int|
                        0 <= j < h.tier ==> !((#[trigger] tiers[j])@.contains_key(g)
                            && tiers[j]@.contains_key(u) && tiers[j]@.contains_key(d))
                },
                None => draft.contains_key(g) || forall|j: int|
                    0 <= j < tiers.len() ==> !((#[trigger] tiers[j])@.contains_key(g)
                        && tiers[j]@.contains_key(u) && tiers[j]@.contains_key(d)),
            }
        }),
{
    first_home_is_first(tiers, exps, e, 0);
}

/// A slot runs on its own expert's weights. A number that is no expert's runs
/// nothing; an expert that a tier holds runs there, from that tier's three slabs;
/// any other runs here, from where its gate, up and down slab were found.
pub proof fn slot_runs_its_own_expert(
    tiers: Seq<ExpertTier>,
    draft: Map<u64, usize>,
    exps: MoeTensors,
    fused_up_off: u64,
    n_expert: u32,
    resolved: Map<u64, Place>,
    e: i32,
)
    requires
        tiers.len() <= usize::MAX,
    ensures
        match slot_of(tiers, draft, exps, fused_up_off, n_expert, resolved, e) {
            Slot::Nothing => e < 0 || e >= n_expert,
            Slot::Tier(h) => {
                &&& 0 <= e < n_expert
                &&& h.tier < tiers.len()
                &&& h.gate == tiers[h.tier as int]@[exps.gate.slab(e as int).offset]
                &&& h.up == tiers[h.tier as int]@[exps.up.slab(e as int).offset]
                &&& h.down == tiers[h.tier as int]@[exps.down.slab(e as int).offset]
            },
            Slot::Here(p) => {
                &&& 0 <= e < n_expert
                &&& home(tiers, draft, exps, e as int) is None
                &&& p.gate == resolved[exps.gate.slab(e as int).offset]
                &&& p.up == resolved[exps.up.slab(e as int).offset]
                &&& p.down == resolved[exps.down.slab(e as int).offset]
                &&& p.up_off == fused_up_off
            },
        },
{
    first_home_is_first(tiers, exps, e as int, 0);
}

/// Nothing is read for an expert that a tier computes: every read is a slab of one
/// that is computed here.
pub proof fn only_own_slabs_are_read(
    tiers: Seq<ExpertTier>,
    draft: Map<u64, usize>,
    exps: MoeTensors,
    distinct: Seq<u32>,
    k: int,
)
    requires
        0 <= k < needed(tiers, draft, exps, distinct).len(),
    ensures
        exists|i: int|
            {
                let r = needed(tiers, draft, exps, distinct)[k];
                &&& 0 <= i < distinct.len()
                &&& home(tiers, draft, exps, #[trigger] distinct[i] as int) is None
                &&& {
                    ||| r == exps.gate.slab(distinct[i] as int)
                    ||| r == exps.up.slab(distinct[i] as int)
                    ||| r == exps.down.slab(distinct[i] as int)
                }
            },
    decreases distinct.len(),
{
    let init = distinct.drop_last();
    let n = distinct.len() - 1;
    let before = needed(tiers, draft, exps, init);
    let all = needed(tiers, draft, exps, distinct);
    let e = distinct[n] as int;
    if k < before.len() {
        assert(all[k] == before[k]);
        only_own_slabs_are_read(tiers, draft, exps, init, k);
        let i = choose|i: int|
            {
                let r = before[k];
                &&& 0 <= i < init.len()
                &&& home(tiers, draft, exps, #[trigger] init[i] as int) is None
                &&& {
                    ||| r == exps.gate.slab(init[i] as int)
                    ||| r == exps.up.slab(init[i] as int)
                    ||| r == exps.down.slab(init[i] as int)
                }
            };
        assert(distinct[i] == init[i]);
    } else {
        assert(home(tiers, draft, exps, e) is None);
        assert(home(tiers, draft, exps, distinct[n] as int) is None);
    }
}

/// What the first look says is true: what it places with the draft layer is there,
/// what it places in the cache is resident at that byte, and what it wants is in
/// neither, or the cache is not asked.
pub proof fn first_look_is_true(
    c: Slabs,
    draft: Map<u64, usize>,
    unified: bool,
    reads: Seq<Read>,
)
    requires
        c.wf(),
        c.room(reads.len() as int),
    ensures
        ({
            let f = looked_up(c, draft, unified, reads);
            &&& f.cache.resident == c.resident
            &&& f.cache.slab_bytes == c.slab_bytes
            &&& forall|o: u64|
                #[trigger] f.resolved.contains_key(o) ==> match f.resolved[o] {
                    Place::Draft(at) => draft.contains_key(o) && draft[o] == at,
                    Place::Cache(base) => {
                        &&& !unified
                        &&& !draft.contains_key(o)
                        &&& c.resident.contains_key(o)
                        &&& base == (c.resident[o] * c.slab_bytes) as usize
                    },
                    _ => false,
                }
            &&& forall|i: int|
                0 <= i < f.wants.len() ==> {
                    let o = (#[trigger] f.wants[i]).offset;
                    &&& !draft.contains_key(o)
                    &&& unified || !c.resident.contains_key(o)
                    &&& reads.contains(f.wants[i])
                }
            &&& unified ==> f.cache == c
        }),
    decreases reads.len(),
{
    if reads.len() > 0 {
        let init = reads.drop_last();
        first_look_is_true(c, draft, unified, init);
        let f0 = looked_up(c, draft, unified, init);
        let f = looked_up(c, draft, unified, reads);
        let r = reads.last();
        assert(reads[reads.len() - 1] == r);
        assert forall|i: int| 0 <= i < f.wants.len() implies {
            let o = (#[trigger] f.wants[i]).offset;
            &&& !draft.contains_key(o)
            &&& unified || !c.resident.contains_key(o)
            &&& reads.contains(f.wants[i])
        } by {
            if i < f0.wants.len() {
                assert(f.wants[i] == f0.wants[i]);
                let x = init.index_of(f0.wants[i]);
                assert(init.contains(f0.wants[i]));
                assert(reads[x] == init[x]);
            }
        }
    }
}

/// Counting the slabs of those that a tier computes moves nothing and counts
/// nothing else: a slab of one of them was counted, and any other was not.
pub proof fn tier_slabs_are_counted(
    c: Slabs,
    tiers: Seq<ExpertTier>,
    draft: Map<u64, usize>,
    exps: MoeTensors,
    distinct: Seq<u32>,
    o: u64,
)
    requires
        c.room(3 * distinct.len() as int),
    ensures
        ({
            let t = tiers_counted(c, tiers, draft, exps, distinct);
            let counted = exists|i: int|
                {
                    &&& 0 <= i < distinct.len()
                    &&& home(tiers, draft, exps, #[trigger] distinct[i] as int) is Some
                    &&& {
                        ||| o == exps.gate.slab(distinct[i] as int).offset
                        ||| o == exps.up.slab(distinct[i] as int).offset
                        ||| o == exps.down.slab(distinct[i] as int).offset
                    }
                };
            &&& t.resident == c.resident
            &&& t.slots == c.slots
            &&& t.hits == c.hits
            &&& t.misses == c.misses
            &&& t.slab_bytes == c.slab_bytes
            &&& counted ==> t.count(o) > c.count(o)
            &&& !counted ==> t.count(o) == c.count(o)
            &&& c.count(o) <= t.count(o) <= c.count(o) + 3 * distinct.len()
        }),
    decreases distinct.len(),
{
    if distinct.len() > 0 {
        let init = distinct.drop_last();
        let n = distinct.len() - 1;
        tier_slabs_are_counted(c, tiers, draft, exps, init, o);
        let t0 = tiers_counted(c, tiers, draft, exps, init);
        let e = distinct[n] as int;
        let s = slabs(exps, e);
        let t = tiers_counted(c, tiers, draft, exps, distinct);
        if exists|i: int|
            {
                &&& 0 <= i < init.len()
                &&& home(tiers, draft, exps, #[trigger] init[i] as int) is Some
                &&& {
                    ||| o == exps.gate.slab(init[i] as int).offset
                    ||| o == exps.up.slab(init[i] as int).offset
                    ||| o == exps.down.slab(init[i] as int).offset
                }
            } {
            let i = choose|i: int|
                {
                    &&& 0 <= i < init.len()
                    &&& home(tiers, draft, exps, #[trigger] init[i] as int) is Some
                    &&& {
                        ||| o == exps.gate.slab(init[i] as int).offset
                        ||| o == exps.up.slab(init[i] as int).offset
                        ||| o == exps.down.slab(init[i] as int).offset
                    }
                };
            assert(distinct[i] == init[i]);
        }
        assert forall|i: int| 0 <= i < n implies #[trigger] distinct[i] == init[i] by {}
        if home(tiers, draft, exps, e) is Some {
            assert(home(tiers, draft, exps, distinct[n] as int) is Some);
            let t1 = t0.warmed(s[0].offset, s[0].len);
            let t2 = t1.warmed(s[1].offset, s[1].len);
            let t3 = t2.warmed(s[2].offset, s[2].len);
            assert(t == t3);
            counted_room(c, tiers, draft, exps, init, 3);
            room_shrinks(t0, s[0].offset, s[0].len, 3);
            room_shrinks(t1, s[1].offset, s[1].len, 2);
            room_shrinks(t2, s[2].offset, s[2].len, 1);
            count_warmed(t0, s[0].offset, s[0].len, o);
            count_warmed(t1, s[1].offset, s[1].len, o);
            count_warmed(t2, s[2].offset, s[2].len, o);
        }
    }
}

proof fn counted_room(
    c: Slabs,
    tiers: Seq<ExpertTier>,
    draft: Map<u64, usize>,
    exps: MoeTensors,
    distinct: Seq<u32>,
    k: int,
)
    requires
        0 <= k,
        c.room(3 * distinct.len() + k),
    ensures
        tiers_counted(c, tiers, draft, exps, distinct).room(k),
    decreases distinct.len(),
{
    if distinct.len() > 0 {
        counted_room(c, tiers, draft, exps, distinct.drop_last(), k + 3);
        let t0 = tiers_counted(c, tiers, draft, exps, distinct.drop_last());
        let s = slabs(exps, distinct.last() as int);
        let t1 = t0.warmed(s[0].offset, s[0].len);
        let t2 = t1.warmed(s[1].offset, s[1].len);
        room_shrinks(t0, s[0].offset, s[0].len, k + 3);
        room_shrinks(t1, s[1].offset, s[1].len, k + 2);
        room_shrinks(t2, s[2].offset, s[2].len, k + 1);
    }
}

proof fn count_warmed(s: Slabs, offset: u64, len: u64, o: u64)
    requires
        s.count(offset) < u64::MAX,
    ensures
        s.warmed(offset, len).count(o) == s.count(o) + (if o == offset {
            1int
        } else {
            0
        }),
{
}

/// The tiers with work are those that compute a slot, each once and in order.
pub proof fn active_tiers_have_work(tier_slots: Seq<u64>, n: int)
    requires
        0 <= n <= tier_slots.len(),
        n <= usize::MAX,
    ensures
        ({
            let v = active(tier_slots, n);
            &&& forall|i: int, j: int|
                0 <= i < j < v.len() ==> (#[trigger] v[i]) < (#[trigger] v[j])
            &&& forall|i: int|
                0 <= i < v.len() ==> (#[trigger] v[i]) < n && tier_slots[v[i] as int] > 0
            &&& forall|t: int|
                0 <= t < n && (#[trigger] tier_slots[t]) > 0 ==> v.contains(t as usize)
        }),
    decreases n,
{
    if n > 0 {
        active_tiers_have_work(tier_slots, n - 1);
        let v0 = active(tier_slots, n - 1);
        let v = active(tier_slots, n);
        assert forall|t: int| 0 <= t < n && (#[trigger] tier_slots[t]) > 0 implies v.contains(
            t as usize,
        ) by {
            if t < n - 1 {
                let x = v0.index_of(t as usize);
                assert(v0.contains(t as usize));
                assert(v[x] == t as usize);
            } else {
                assert(v[v.len() - 1] == t as usize);
            }
        }
    }
}

/// A tier computes at least one slot exactly if it is some slot's home.
pub proof fn tier_count_counts(slots: spec_fn(int) -> Slot, t: int, n: int)
    requires
        0 <= n,
    ensures
        0 <= tier_count(slots, t, n) <= n,
        tier_count(slots, t, n) > 0 <==> exists|i: int|
            0 <= i < n && (#[trigger] slots(i) matches Slot::Tier(h) && h.tier == t),
    decreases n,
{
    if n > 0 {
        tier_count_counts(slots, t, n - 1);
        let last = slots(n - 1);
        if tier_count(slots, t, n) > 0 && !(last matches Slot::Tier(h) && h.tier == t) {
            let i = choose|i: int|
                0 <= i < n - 1 && (#[trigger] slots(i) matches Slot::Tier(h) && h.tier == t);
            assert(slots(i) matches Slot::Tier(h) && h.tier == t);
        }
    }
}

proof fn tier_index_is_first(tiers: Seq<ExpertTier>, offset: u64, i: int)
    requires
        0 <= i,
    ensures
        tier_index(tiers, offset, i) is None <==> forall|j: int|
            i <= j < tiers.len() ==> !(#[trigger] tiers[j])@.contains_key(offset),
    decreases tiers.len() - i,
{
    if i < tiers.len() && !tiers[i]@.contains_key(offset) {
        tier_index_is_first(tiers, offset, i + 1);
    }
}

/// A slab is absent exactly if neither the host store, nor the device cache, nor
/// any tier has it.
pub proof fn absent_is_nowhere(
    store: Map<u64, CacheEntry>,
    cache: Slabs,
    tiers: Seq<ExpertTier>,
    offset: u64,
)
    ensures
        absent(store, cache, tiers, offset) <==> {
            &&& !store.contains_key(offset)
            &&& !cache.resident.contains_key(offset)
            &&& forall|j: int|
                0 <= j < tiers.len() ==> !(#[trigger] tiers[j])@.contains_key(offset)
        },
{
    tier_index_is_first(tiers, offset, 0);
}

/// Reading ahead asks for what is absent, all of it and nothing else.
pub proof fn absent_slabs_are_read(
    store: Map<u64, CacheEntry>,
    cache: Slabs,
    tiers: Seq<ExpertTier>,
    list: Seq<Read>,
)
    ensures
        ({
            let v = missing_slabs(store, cache, tiers, list);
            &&& forall|r: Read|
                #[trigger] v.contains(r) <==> list.contains(r) && absent(
                    store,
                    cache,
                    tiers,
                    r.offset,
                )
            &&& v.len() <= list.len()
            &&& (forall|i: int|
                0 <= i < list.len() ==> absent(store, cache, tiers, (#[trigger] list[i]).offset))
                ==> v == list
        }),
    decreases list.len(),
{
    let v = missing_slabs(store, cache, tiers, list);
    if list.len() > 0 {
        let init = list.drop_last();
        let v0 = missing_slabs(store, cache, tiers, init);
        absent_slabs_are_read(store, cache, tiers, init);
        assert(list =~= init.push(list.last()));
        let n = list.len() - 1;
        assert forall|r: Read| #[trigger] v.contains(r) <==> list.contains(r) && absent(
            store,
            cache,
            tiers,
            r.offset,
        ) by {
            assert(v0.contains(r) <==> init.contains(r) && absent(store, cache, tiers, r.offset));
            if v.contains(r) {
                let x = v.index_of(r);
                if x < v0.len() {
                    assert(v0[x] == r);
                    let y = init.index_of(r);
                    assert(list[y] == r);
                } else {
                    assert(list[n] == r);
                }
            }
            if list.contains(r) && absent(store, cache, tiers, r.offset) {
                let y = list.index_of(r);
                if y < n {
                    assert(init[y] == r);
                    let x = v0.index_of(r);
                    assert(v[x] == r);
                } else {
                    assert(v[v.len() - 1] == r);
                }
            }
        }
        if forall|i: int|
            0 <= i < list.len() ==> absent(store, cache, tiers, (#[trigger] list[i]).offset) {
            assert forall|i: int| 0 <= i < init.len() implies absent(
                store,
                cache,
                tiers,
                (#[trigger] init[i]).offset,
            ) by {
                assert(init[i] == list[i]);
            }
            assert(absent(store, cache, tiers, list[n].offset));
            assert(v =~= list);
        }
    } else {
        assert(v =~= list);
    }
}

/// A prediction is for the three slabs of each expert that it names.
pub proof fn predicted_experts_are_whole(exps: MoeTensors, n_expert: u32, pred: Seq<i32>, r: Read)
    ensures
        predicted_slabs(exps, n_expert, pred).contains(r) <==> exists|i: int|
            {
                &&& 0 <= i < pred.len()
                &&& 0 <= #[trigger] pred[i] < n_expert
                &&& {
                    ||| r == exps.gate.slab(pred[i] as int)
                    ||| r == exps.up.slab(pred[i] as int)
                    ||| r == exps.down.slab(pred[i] as int)
                }
            },
    decreases pred.len(),
{
    let v = predicted_slabs(exps, n_expert, pred);
    if pred.len() > 0 {
        let init = pred.drop_last();
        let n = pred.len() - 1;
        let v0 = predicted_slabs(exps, n_expert, init);
        predicted_experts_are_whole(exps, n_expert, init, r);
        assert forall|i: int| 0 <= i < n implies #[trigger] init[i] == pred[i] by {}
        let e = pred[n];
        let s = slabs(exps, e as int);
        if v.contains(r) {
            let x = v.index_of(r);
            if x < v0.len() {
                assert(v0[x] == r);
                let i = choose|i: int|
                    {
                        &&& 0 <= i < init.len()
                        &&& 0 <= #[trigger] init[i] < n_expert
                        &&& {
                            ||| r == exps.gate.slab(init[i] as int)
                            ||| r == exps.up.slab(init[i] as int)
                            ||| r == exps.down.slab(init[i] as int)
                        }
                    };
                assert(pred[i] == init[i]);
            } else {
                assert(v[x] == s[x - v0.len()]);
                assert(pred[n] == e);
            }
        }
        if exists|i: int|
            {
                &&& 0 <= i < pred.len()
                &&& 0 <= #[trigger] pred[i] < n_expert
                &&& {
                    ||| r == exps.gate.slab(pred[i] as int)
                    ||| r == exps.up.slab(pred[i] as int)
                    ||| r == exps.down.slab(pred[i] as int)
                }
            } {
            let i = choose|i: int|
                {
                    &&& 0 <= i < pred.len()
                    &&& 0 <= #[trigger] pred[i] < n_expert
                    &&& {
                        ||| r == exps.gate.slab(pred[i] as int)
                        ||| r == exps.up.slab(pred[i] as int)
                        ||| r == exps.down.slab(pred[i] as int)
                    }
                };
            if i < n {
                assert(init[i] == pred[i]);
                let x = v0.index_of(r);
                assert(v0.contains(r));
                assert(v[x] == r);
            } else {
                let m = v0.len() as int;
                assert(v[m] == s[0] && v[m + 1] == s[1] && v[m + 2] == s[2]);
            }
        }
    }
}

/// A whole layer is its experts' slabs, three each and in order.
pub proof fn layer_is_all_experts(exps: MoeTensors, n: nat, e: int)
    requires
        0 <= e < n,
    ensures
        layer_slabs(exps, n).len() == 3 * n,
        layer_slabs(exps, n)[3 * e] == exps.gate.slab(e),
        layer_slabs(exps, n)[3 * e + 1] == exps.up.slab(e),
        layer_slabs(exps, n)[3 * e + 2] == exps.down.slab(e),
    decreases n,
{
    if e < n - 1 {
        layer_is_all_experts(exps, (n - 1) as nat, e);
    } else {
        layer_len(exps, (n - 1) as nat);
    }
}

proof fn layer_len(exps: MoeTensors, n: nat)
    ensures
        layer_slabs(exps, n).len() == 3 * n,
    decreases n,
{
    if n > 0 {
        layer_len(exps, (n - 1) as nat);
    }
}

/// A staging slot holds the largest of a layer's slabs, and is no larger.
pub proof fn staging_slot_holds_any_slab(exps: MoeTensors)
    ensures
        ({
            let n = slab_stride(exps);
            let (a, b, c) = (
                exps.gate.expert_bytes,
                exps.up.expert_bytes,
                exps.down.expert_bytes,
            );
            &&& a <= n && b <= n && c <= n
            &&& n == a || n == b || n == c
        }),
{
}

} // verus!
