//! Expert resolve for one layer step: from the routed expert numbers to where
//! each expert's weights are.
//!
//! The distinct experts of a batch are looked up once each: on a tier that
//! holds the whole triple, among the draft layer's resident experts, in the
//! device cache, and last in the host store, whose slabs are placed as they
//! arrive, in a cache slot if worth it and in the staging arena otherwise.

use std::collections::HashMap;

use vstd::prelude::*;

use crate::expert::ExpertTensor;
#[allow(unused_imports)]
use crate::settings::{less, Staging};
use crate::slab_cache::{room_shrinks, touched_moves_nothing, DeviceSlabCache, Slabs, FREE, SLAB_SLACK};
use crate::store::{offsets, Read, StreamingStore};
use crate::tiers::{ExpertTier, MoeTensors};

verus! {

/// Whether `e` is the number of an expert.
pub open spec fn routed(e: i32, n_expert: u32) -> bool {
    0 <= e && e < n_expert
}

/// Whether `out` lists the routed experts of `selected`, each once, in order.
pub open spec fn is_distinct(out: Seq<u32>, selected: Seq<i32>, n_expert: u32) -> bool {
    &&& forall|i: int, j: int| 0 <= i < j < out.len() ==> #[trigger] out[i] < #[trigger] out[j]
    &&& forall|i: int|
        0 <= i < out.len() ==> #[trigger] out[i] < n_expert && exists|k: int|
            0 <= k < selected.len() && #[trigger] selected[k] == out[i]
    &&& forall|k: int|
        0 <= k < selected.len() && routed(#[trigger] selected[k], n_expert) ==> out.contains(
            selected[k] as u32,
        )
}

/// Lists the routed experts of a batch, each once, in order.
pub fn distinct_experts(selected: &[i32], n_expert: u32) -> (out: Vec<u32>)
    ensures
        is_distinct(out@, selected@, n_expert),
{
    let mut mark: Vec<bool> = Vec::new();
    let mut i: u32 = 0;
    while i < n_expert
        invariant
            i <= n_expert,
            mark@.len() == i,
            forall|e: int| 0 <= e < i ==> !#[trigger] mark@[e],
        decreases n_expert - i,
    {
        mark.push(false);
        i += 1;
    }
    let mut k: usize = 0;
    while k < selected.len()
        invariant
            k <= selected@.len(),
            mark@.len() == n_expert,
            forall|e: int|
                0 <= e < n_expert && #[trigger] mark@[e] ==> exists|x: int|
                    0 <= x < k && #[trigger] selected@[x] == e,
            forall|x: int|
                0 <= x < k && routed(#[trigger] selected@[x], n_expert)
                    ==> mark@[selected@[x] as int],
        decreases selected@.len() - k,
    {
        let e: i32 = selected[k];
        if e >= 0 && (e as u32) < n_expert {
            let ghost before = mark@;
            mark[e as usize] = true;
            assert forall|y: int| 0 <= y < n_expert && #[trigger] mark@[y] implies exists|x: int|
                0 <= x < k + 1 && #[trigger] selected@[x] == y by {
                if y == e {
                    assert(selected@[k as int] == y);
                } else {
                    assert(before[y]);
                }
            }
        }
        k += 1;
    }
    let mut out: Vec<u32> = Vec::new();
    let mut e: u32 = 0;
    while e < n_expert
        invariant
            e <= n_expert,
            mark@.len() == n_expert,
            forall|i: int, j: int|
                0 <= i < j < out@.len() ==> #[trigger] out@[i] < #[trigger] out@[j],
            forall|i: int|
                0 <= i < out@.len() ==> #[trigger] out@[i] < e && mark@[out@[i] as int],
            forall|y: u32| y < e && #[trigger] mark@[y as int] ==> out@.contains(y),
        decreases n_expert - e,
    {
        if mark[e as usize] {
            let ghost before = out@;
            out.push(e);
            assert(out@[before.len() as int] == e);
            assert forall|y: u32| y < e + 1 && #[trigger] mark@[y as int] implies out@.contains(
                y,
            ) by {
                if y < e {
                    let i = choose|i: int| 0 <= i < before.len() && before[i] == y;
                    assert(out@[i] == y);
                }
            }
        }
        e += 1;
    }
    assert forall|x: int| 0 <= x < selected@.len() && routed(
        #[trigger] selected@[x],
        n_expert,
    ) implies out@.contains(selected@[x] as u32) by {
        let y = selected@[x] as u32;
        assert(mark@[y as int]);
    }
    out
}

/// One expert's place on a tier.
#[derive(Debug, Clone, Copy, PartialEq, Eq, Structural)]
pub struct TierHome {
    pub tier: usize,
    /// Where in that tier's pool the slabs begin.
    pub gate: usize,
    pub up: usize,
    pub down: usize,
}

/// Whether one tier holds all three slabs of expert `e`.
pub open spec fn on_tier(t: ExpertTier, exps: MoeTensors, e: int) -> bool {
    &&& t@.contains_key(exps.gate.slab(e).offset)
    &&& t@.contains_key(exps.up.slab(e).offset)
    &&& t@.contains_key(exps.down.slab(e).offset)
}

/// The first tier from `i` on that holds all three slabs of expert `e`.
pub open spec fn first_home(tiers: Seq<ExpertTier>, exps: MoeTensors, e: int, i: int) -> Option<
    TierHome,
>
    decreases tiers.len() - i,
{
    if i < 0 || i >= tiers.len() {
        None
    } else if on_tier(tiers[i], exps, e) {
        Some(
            TierHome {
                tier: i as usize,
                gate: tiers[i]@[exps.gate.slab(e).offset],
                up: tiers[i]@[exps.up.slab(e).offset],
                down: tiers[i]@[exps.down.slab(e).offset],
            },
        )
    } else {
        first_home(tiers, exps, e, i + 1)
    }
}

/// The tier that computes expert `e`. Experts resident with the draft layer
/// are computed there.
pub open spec fn home(
    tiers: Seq<ExpertTier>,
    draft: Map<u64, usize>,
    exps: MoeTensors,
    e: int,
) -> Option<TierHome> {
    if draft.contains_key(exps.gate.slab(e).offset) {
        None
    } else {
        first_home(tiers, exps, e, 0)
    }
}

proof fn first_home_in_range(tiers: Seq<ExpertTier>, exps: MoeTensors, e: int, i: int)
    requires
        tiers.len() <= usize::MAX,
        0 <= i,
    ensures
        first_home(tiers, exps, e, i) matches Some(h) ==> h.tier < tiers.len(),
    decreases tiers.len() - i,
{
    if i < tiers.len() && !on_tier(tiers[i], exps, e) {
        first_home_in_range(tiers, exps, e, i + 1);
    }
}

/// Whether the slabs of experts `0..n` all have offsets.
pub open spec fn exps_hold(exps: MoeTensors, n: nat) -> bool {
    exps.gate.holds(n) && exps.up.holds(n) && exps.down.holds(n)
}

fn slab_at(t: &ExpertTensor, e: u32, n: Ghost<nat>) -> (r: Read)
    requires
        t.holds(n@),
        e <= n@,
    ensures
        r == t.slab(e as int),
{
    proof {
        let w = t.expert_bytes as int;
        let m = n@ as int;
        assert(e * w <= m * w) by (nonlinear_arith)
            requires
                e <= m,
                0 <= w,
        ;
    }
    t.slab_of(e as u64)
}

/// Finds the tier that computes expert `e`, if any.
pub fn find_home(
    tiers: &[ExpertTier],
    draft: &HashMap<u64, usize>,
    exps: &MoeTensors,
    e: u32,
) -> (r: Option<TierHome>)
    requires
        exps_hold(*exps, e as nat),
    ensures
        r == home(tiers@, draft@, *exps, e as int),
        r matches Some(h) ==> h.tier < tiers@.len(),
{
    broadcast use vstd::std_specs::hash::group_hash_axioms;

    let gate: u64 = exps.gate.slab_of(e as u64).offset;
    let up: u64 = exps.up.slab_of(e as u64).offset;
    let down: u64 = exps.down.slab_of(e as u64).offset;
    let n: usize = tiers.len();
    proof {
        assert(n == tiers@.len());
        first_home_in_range(tiers@, *exps, e as int, 0);
    }
    if draft.contains_key(&gate) {
        return None;
    }
    let mut i: usize = 0;
    while i < tiers.len()
        invariant
            i <= tiers@.len(),
            gate == exps.gate.slab(e as int).offset,
            up == exps.up.slab(e as int).offset,
            down == exps.down.slab(e as int).offset,
            !draft@.contains_key(gate),
            home(tiers@, draft@, *exps, e as int) == first_home(tiers@, *exps, e as int, i as int),
            home(tiers@, draft@, *exps, e as int) matches Some(h) ==> h.tier < tiers@.len(),
        decreases tiers@.len() - i,
    {
        match (tiers[i].find(gate), tiers[i].find(up), tiers[i].find(down)) {
            (Some(g), Some(u), Some(d)) => {
                return Some(TierHome { tier: i, gate: g, up: u, down: d });
            },
            _ => {},
        }
        i += 1;
    }
    None
}

/// The three slabs of expert `e`.
pub open spec fn slabs(exps: MoeTensors, e: int) -> Seq<Read> {
    seq![exps.gate.slab(e), exps.up.slab(e), exps.down.slab(e)]
}

/// `list` with `r` behind it, unless it already ends there: fused gate and up
/// share a slab, and one read serves both.
pub open spec fn with_read(list: Seq<Read>, r: Read) -> Seq<Read> {
    if list.len() > 0 && list.last().offset == r.offset {
        list
    } else {
        list.push(r)
    }
}

/// The reads that `distinct` needs here: the slabs of those no tier computes.
pub open spec fn needed(
    tiers: Seq<ExpertTier>,
    draft: Map<u64, usize>,
    exps: MoeTensors,
    distinct: Seq<u32>,
) -> Seq<Read>
    decreases distinct.len(),
{
    if distinct.len() == 0 {
        Seq::empty()
    } else {
        let before = needed(tiers, draft, exps, distinct.drop_last());
        let e = distinct.last() as int;
        if home(tiers, draft, exps, e) is Some {
            before
        } else {
            let s = slabs(exps, e);
            with_read(with_read(with_read(before, s[0]), s[1]), s[2])
        }
    }
}

/// The cache after the slabs of those that a tier computes were counted.
pub open spec fn tiers_counted(
    c: Slabs,
    tiers: Seq<ExpertTier>,
    draft: Map<u64, usize>,
    exps: MoeTensors,
    distinct: Seq<u32>,
) -> Slabs
    decreases distinct.len(),
{
    if distinct.len() == 0 {
        c
    } else {
        let before = tiers_counted(c, tiers, draft, exps, distinct.drop_last());
        let e = distinct.last() as int;
        if home(tiers, draft, exps, e) is Some {
            let s = slabs(exps, e);
            before.warmed(s[0].offset, s[0].len).warmed(s[1].offset, s[1].len).warmed(
                s[2].offset,
                s[2].len,
            )
        } else {
            before
        }
    }
}

fn push_read(list: &mut Vec<Read>, r: Read)
    ensures
        final(list)@ == with_read(old(list)@, r),
{
    let n: usize = list.len();
    if n == 0 || list[n - 1].offset != r.offset {
        list.push(r);
    }
}

/// Lists the reads that `distinct` needs here, and counts the slabs of those
/// that a tier computes.
pub fn plan_reads(
    cache: &mut DeviceSlabCache,
    tiers: &[ExpertTier],
    draft: &HashMap<u64, usize>,
    exps: &MoeTensors,
    n_expert: u32,
    distinct: &[u32],
) -> (reads: Vec<Read>)
    requires
        old(cache)@.wf(),
        old(cache)@.room(3 * distinct@.len() as int),
        exps_hold(*exps, n_expert as nat),
        forall|i: int| 0 <= i < distinct@.len() ==> #[trigger] distinct@[i] < n_expert,
    ensures
        reads@ == needed(tiers@, draft@, *exps, distinct@),
        final(cache)@ == tiers_counted(old(cache)@, tiers@, draft@, *exps, distinct@),
        final(cache)@.wf(),
{
    let mut reads: Vec<Read> = Vec::new();
    let mut i: usize = 0;
    assert(distinct@.take(0) =~= Seq::empty());
    while i < distinct.len()
        invariant
            i <= distinct@.len(),
            exps_hold(*exps, n_expert as nat),
            forall|i: int| 0 <= i < distinct@.len() ==> #[trigger] distinct@[i] < n_expert,
            reads@ == needed(tiers@, draft@, *exps, distinct@.take(i as int)),
            cache@ == tiers_counted(
                old(cache)@,
                tiers@,
                draft@,
                *exps,
                distinct@.take(i as int),
            ),
            cache@.wf(),
            cache@.room(3 * (distinct@.len() - i)),
        decreases distinct@.len() - i,
    {
        let e: u32 = distinct[i];
        proof {
            assert(distinct@.take(i + 1).drop_last() =~= distinct@.take(i as int));
            assert(distinct@.take(i + 1).last() == e);
            let (a, b, c) = (
                exps.gate.expert_bytes,
                exps.up.expert_bytes,
                exps.down.expert_bytes,
            );
            assert(e * a <= n_expert * a && e * b <= n_expert * b && e * c <= n_expert * c)
                by (nonlinear_arith)
                requires
                    e <= n_expert,
            ;
        }
        let gate: Read = exps.gate.slab_of(e as u64);
        let up: Read = exps.up.slab_of(e as u64);
        let down: Read = exps.down.slab_of(e as u64);
        let ghost k = 3 * (distinct@.len() - i);
        if find_home(tiers, draft, exps, e).is_some() {
            proof {
                room_shrinks(cache@, gate.offset, gate.len, k);
            }
            cache.keep_warm(gate.offset, gate.len);
            proof {
                room_shrinks(cache@, up.offset, up.len, k - 1);
            }
            cache.keep_warm(up.offset, up.len);
            proof {
                room_shrinks(cache@, down.offset, down.len, k - 2);
            }
            cache.keep_warm(down.offset, down.len);
        } else {
            push_read(&mut reads, gate);
            push_read(&mut reads, up);
            push_read(&mut reads, down);
        }
        i += 1;
    }
    assert(distinct@.take(i as int) =~= distinct@);
    reads
}

/// Where a slab's bytes are.
#[derive(Debug, Clone, Copy, PartialEq, Eq, Structural)]
pub enum Place {
    /// In the draft layer's pool, from this byte on.
    Draft(usize),
    /// In the device cache's pool, from this byte on.
    Cache(usize),
    /// In the staging arena, from this byte on.
    Staging(usize),
    /// In the host store's slab for this file offset, readable by the device.
    Host(u64),
}

/// What a first look at the device found.
pub ghost struct Found {
    pub cache: Slabs,
    pub resolved: Map<u64, Place>,
    pub wants: Seq<Read>,
}

/// Looks up `reads` one after the other: with the draft layer, then in the
/// device cache unless memory is unified; what is in neither is wanted.
pub open spec fn looked_up(
    c: Slabs,
    draft: Map<u64, usize>,
    unified: bool,
    reads: Seq<Read>,
) -> Found
    decreases reads.len(),
{
    if reads.len() == 0 {
        Found { cache: c, resolved: Map::empty(), wants: Seq::empty() }
    } else {
        let f = looked_up(c, draft, unified, reads.drop_last());
        let r = reads.last();
        if draft.contains_key(r.offset) {
            Found { resolved: f.resolved.insert(r.offset, Place::Draft(draft[r.offset])), ..f }
        } else if unified {
            Found { wants: f.wants.push(r), ..f }
        } else if f.cache.resident.contains_key(r.offset) {
            let base = (f.cache.resident[r.offset] * f.cache.slab_bytes) as usize;
            Found {
                cache: f.cache.touched(r.offset, r.len),
                resolved: f.resolved.insert(r.offset, Place::Cache(base)),
                wants: f.wants,
            }
        } else {
            Found {
                cache: f.cache.touched(r.offset, r.len),
                wants: f.wants.push(r),
                resolved: f.resolved,
            }
        }
    }
}

/// A batch has no more distinct experts than picks, nor than there are experts.
pub proof fn distinct_are_few(out: Seq<u32>, selected: Seq<i32>, n_expert: u32)
    requires
        is_distinct(out, selected, n_expert),
    ensures
        out.len() <= n_expert,
        out.len() <= selected.len(),
{
    if out.len() > 0 {
        rises(out, out.len() - 1);
        assert(out[out.len() - 1] < n_expert);
    }
    let picks = selected.map_values(|e: i32| e as int);
    let found = out.map_values(|e: u32| e as int);
    assert(found.no_duplicates()) by {
        assert forall|i: int, j: int| 0 <= i < j < found.len() implies found[i] != found[j] by {
            assert(out[i] < out[j]);
        }
    }
    assert(found.to_set().subset_of(picks.to_set())) by {
        assert forall|x: int| found.to_set().contains(x) implies picks.to_set().contains(x) by {
            let i = choose|i: int| 0 <= i < found.len() && found[i] == x;
            assert(out[i] < n_expert);
            let k = choose|k: int| 0 <= k < selected.len() && #[trigger] selected[k] == out[i];
            assert(picks[k] == x);
        }
    }
    found.unique_seq_to_set();
    picks.lemma_cardinality_of_set();
    vstd::seq_lib::seq_to_set_is_finite(picks);
    vstd::set_lib::lemma_len_subset(found.to_set(), picks.to_set());
}

proof fn rises(out: Seq<u32>, i: int)
    requires
        0 <= i < out.len(),
        forall|i: int, j: int| 0 <= i < j < out.len() ==> #[trigger] out[i] < #[trigger] out[j],
    ensures
        out[i] >= i,
    decreases i,
{
    if i > 0 {
        rises(out, i - 1);
        assert(out[i - 1] < out[i]);
    }
}

proof fn needed_are_few(
    tiers: Seq<ExpertTier>,
    draft: Map<u64, usize>,
    exps: MoeTensors,
    distinct: Seq<u32>,
)
    ensures
        needed(tiers, draft, exps, distinct).len() <= 3 * distinct.len(),
    decreases distinct.len(),
{
    if distinct.len() > 0 {
        needed_are_few(tiers, draft, exps, distinct.drop_last());
    }
}

proof fn wants_are_few(c: Slabs, draft: Map<u64, usize>, unified: bool, reads: Seq<Read>)
    ensures
        looked_up(c, draft, unified, reads).wants.len() <= reads.len(),
    decreases reads.len(),
{
    if reads.len() > 0 {
        wants_are_few(c, draft, unified, reads.drop_last());
    }
}

/// What a chunk is sized by is the worst case: whatever its tokens pick, and
/// wherever the experts are, staging what has to be fetched takes no more.
pub proof fn staging_at_worst(
    s: Staging,
    n: nat,
    selected: Seq<i32>,
    distinct: Seq<u32>,
    c: Slabs,
    tiers: Seq<ExpertTier>,
    draft: Map<u64, usize>,
    unified: bool,
    exps: MoeTensors,
)
    requires
        is_distinct(distinct, selected, s.n_expert),
        selected.len() <= n * s.used,
        slab_stride(exps) <= s.slab,
    ensures
        looked_up(c, draft, unified, needed(tiers, draft, exps, distinct)).wants.len()
            * slab_stride(exps) + SLAB_SLACK <= s.worst(n as int),
{
    let reads = needed(tiers, draft, exps, distinct);
    distinct_are_few(distinct, selected, s.n_expert);
    needed_are_few(tiers, draft, exps, distinct);
    wants_are_few(c, draft, unified, reads);
    let w = looked_up(c, draft, unified, reads).wants.len() as int;
    let d = less(n * s.used, s.n_expert as int);
    let (stride, slab) = (slab_stride(exps) as int, s.slab as int);
    assert(w * stride <= d * (3 * slab)) by (nonlinear_arith)
        requires
            0 <= w <= 3 * d,
            0 <= stride <= slab,
    ;
}

/// Where to put a slab that arrived.
#[derive(Debug, Clone, Copy, PartialEq, Eq, Structural)]
pub enum Target {
    /// Nowhere: the device reads it where it is.
    Host,
    /// Into this slot of the device cache.
    Slot(usize),
    /// Into the staging arena, from this byte on.
    Staging(usize),
}

/// One layer step's resolve in progress.
pub struct Resolve {
    /// Every slab this step needs; none of them may leave the cache meanwhile.
    pub in_use: Vec<u64>,
    /// What has to come from the host store.
    pub wants: Vec<Read>,
    /// Where each slab found so far is.
    pub resolved: HashMap<u64, Place>,
    /// Staging slots used so far.
    pub staged: usize,
    /// Stride of a staging slot.
    pub slab: usize,
    pub unified: bool,
}

impl Resolve {
    /// The staging arena has a slot for everything wanted.
    pub open spec fn wf(self) -> bool {
        &&& self.staged <= self.wants@.len()
        &&& self.wants@.len() * self.slab + SLAB_SLACK <= usize::MAX
    }
}

/// The largest slab of a layer.
pub open spec fn slab_stride(exps: MoeTensors) -> u64 {
    let a = exps.gate.expert_bytes;
    let b = exps.up.expert_bytes;
    let c = exps.down.expert_bytes;
    let m = if a >= b {
        a
    } else {
        b
    };
    if m >= c {
        m
    } else {
        c
    }
}

proof fn looked_up_keeps(c: Slabs, draft: Map<u64, usize>, unified: bool, reads: Seq<Read>, n: int)
    requires
        c.wf(),
        0 <= n <= reads.len(),
        c.room(reads.len() as int),
    ensures
        looked_up(c, draft, unified, reads.take(n)).cache.wf(),
        looked_up(c, draft, unified, reads.take(n)).cache.resident == c.resident,
        looked_up(c, draft, unified, reads.take(n)).cache.slab_bytes == c.slab_bytes,
        looked_up(c, draft, unified, reads.take(n)).cache.slots.len() == c.slots.len(),
        looked_up(c, draft, unified, reads.take(n)).cache.room(reads.len() - n),
        looked_up(c, draft, unified, reads.take(n)).wants.len() <= n,
    decreases n,
{
    let t = reads.take(n);
    if n > 0 {
        looked_up_keeps(c, draft, unified, reads, n - 1);
        assert(t.drop_last() =~= reads.take(n - 1));
        let f = looked_up(c, draft, unified, t.drop_last());
        let r = t.last();
        room_shrinks(f.cache, r.offset, r.len, reads.len() - n + 1);
        touched_moves_nothing(f.cache, r.offset, r.len);
    }
}

/// Everything that was looked up is resolved or wanted.
pub proof fn looked_up_complete(
    c: Slabs,
    draft: Map<u64, usize>,
    unified: bool,
    reads: Seq<Read>,
    i: int,
)
    requires
        0 <= i < reads.len(),
    ensures
        ({
            let f = looked_up(c, draft, unified, reads);
            f.resolved.contains_key(reads[i].offset) || offsets(f.wants).contains(reads[i].offset)
        }),
    decreases reads.len(),
{
    let init = reads.drop_last();
    let f0 = looked_up(c, draft, unified, init);
    let f = looked_up(c, draft, unified, reads);
    if i < reads.len() - 1 {
        looked_up_complete(c, draft, unified, init, i);
        let o = reads[i].offset;
        assert(init[i] == reads[i]);
        if offsets(f0.wants).contains(o) {
            let x = choose|x: int|
                0 <= x < offsets(f0.wants).len() && offsets(f0.wants)[x] == o;
            assert(offsets(f.wants)[x] == o);
        }
    } else if !f.resolved.contains_key(reads[i].offset) {
        assert(offsets(f.wants)[f.wants.len() - 1] == reads[i].offset);
    }
}

proof fn with_read_lists(list: Seq<Read>, r: Read)
    ensures
        offsets(with_read(list, r)).contains(r.offset),
        forall|o: u64| #[trigger]
            offsets(list).contains(o) ==> offsets(with_read(list, r)).contains(o),
{
    let w = with_read(list, r);
    assert(offsets(w)[w.len() - 1] == r.offset);
    assert forall|o: u64| #[trigger] offsets(list).contains(o) implies offsets(w).contains(o) by {
        let x = choose|x: int| 0 <= x < offsets(list).len() && offsets(list)[x] == o;
        assert(offsets(w)[x] == o);
    }
}

/// Every slab of an expert that no tier computes is among the reads.
pub proof fn needed_complete(
    tiers: Seq<ExpertTier>,
    draft: Map<u64, usize>,
    exps: MoeTensors,
    distinct: Seq<u32>,
    i: int,
)
    requires
        0 <= i < distinct.len(),
        home(tiers, draft, exps, distinct[i] as int) is None,
    ensures
        offsets(needed(tiers, draft, exps, distinct)).contains(
            exps.gate.slab(distinct[i] as int).offset,
        ),
        offsets(needed(tiers, draft, exps, distinct)).contains(
            exps.up.slab(distinct[i] as int).offset,
        ),
        offsets(needed(tiers, draft, exps, distinct)).contains(
            exps.down.slab(distinct[i] as int).offset,
        ),
    decreases distinct.len(),
{
    let init = distinct.drop_last();
    let before = needed(tiers, draft, exps, init);
    let s = slabs(exps, distinct.last() as int);
    let w0 = with_read(before, s[0]);
    let w1 = with_read(w0, s[1]);
    with_read_lists(before, s[0]);
    with_read_lists(w0, s[1]);
    with_read_lists(w1, s[2]);
    if i < distinct.len() - 1 {
        needed_complete(tiers, draft, exps, init, i);
    }
}

impl Resolve {
    /// Looks up `reads` and sets up the staging of what is not on the device.
    pub fn begin(
        cache: &mut DeviceSlabCache,
        draft: &HashMap<u64, usize>,
        unified: bool,
        exps: &MoeTensors,
        reads: &[Read],
    ) -> (r: Resolve)
        requires
            old(cache)@.wf(),
            old(cache)@.room(reads@.len() as int),
            slab_stride(*exps) <= usize::MAX,
            reads@.len() * slab_stride(*exps) + SLAB_SLACK <= usize::MAX,
        ensures
            final(cache)@.wf(),
            ({
                let f = looked_up(old(cache)@, draft@, unified, reads@);
                &&& final(cache)@ == f.cache
                &&& r.resolved@ == f.resolved
                &&& r.wants@ == f.wants
            }),
            r.in_use@ == offsets(reads@),
            r.staged == 0,
            r.slab == slab_stride(*exps),
            r.unified == unified,
            r.wf(),
    {
        broadcast use vstd::std_specs::hash::group_hash_axioms;

        let ghost c0 = cache@;
        let mut resolved: HashMap<u64, Place> = HashMap::new();
        let mut wants: Vec<Read> = Vec::new();
        let mut in_use: Vec<u64> = Vec::new();
        let mut i: usize = 0;
        assert(reads@.take(0) =~= Seq::empty());
        while i < reads.len()
            invariant
                i <= reads@.len(),
                c0 == old(cache)@,
                c0.wf(),
                c0.room(reads@.len() as int),
                cache@ == looked_up(c0, draft@, unified, reads@.take(i as int)).cache,
                resolved@ == looked_up(c0, draft@, unified, reads@.take(i as int)).resolved,
                wants@ == looked_up(c0, draft@, unified, reads@.take(i as int)).wants,
                in_use@.len() == i,
                forall|k: int| 0 <= k < i ==> #[trigger] in_use@[k] == reads@[k].offset,
            decreases reads@.len() - i,
        {
            broadcast use vstd::std_specs::hash::group_hash_axioms;

            let r: Read = reads[i];
            proof {
                looked_up_keeps(c0, draft@, unified, reads@, i as int);
                assert(reads@.take(i + 1).drop_last() =~= reads@.take(i as int));
                assert(reads@.take(i + 1).last() == r);
                room_shrinks(cache@, r.offset, r.len, reads@.len() - i);
            }
            in_use.push(r.offset);
            let near: Option<usize> = match draft.get(&r.offset) {
                Some(at) => Some(*at),
                None => None,
            };
            match near {
                Some(at) => {
                    resolved.insert(r.offset, Place::Draft(at));
                },
                None => {
                    if unified {
                        wants.push(r);
                    } else {
                        match cache.get(r.offset, r.len) {
                            Some(base) => {
                                resolved.insert(r.offset, Place::Cache(base));
                            },
                            None => wants.push(r),
                        }
                    }
                },
            }
            i += 1;
        }
        proof {
            looked_up_keeps(c0, draft@, unified, reads@, reads@.len() as int);
            assert(reads@.take(i as int) =~= reads@);
            assert(in_use@ =~= offsets(reads@));
            let (a, b, w) = (wants@.len() as int, reads@.len() as int, slab_stride(*exps) as int);
            assert(a * w <= b * w) by (nonlinear_arith)
                requires
                    0 <= a <= b,
                    0 <= w,
            ;
        }
        let a: u64 = exps.gate.expert_bytes;
        let b: u64 = exps.up.expert_bytes;
        let c: u64 = exps.down.expert_bytes;
        let m: u64 = if a >= b {
            a
        } else {
            b
        };
        let stride: u64 = if m >= c {
            m
        } else {
            c
        };
        Resolve { in_use, wants, resolved, staged: 0, slab: stride as usize, unified }
    }

    /// The size the staging arena has to grow to, if `have` bytes are too few.
    pub fn staging_need(&self, have: usize) -> (r: Option<usize>)
        requires
            self.wf(),
        ensures
            r == (if self.wants@.len() * self.slab > have {
                Some((self.wants@.len() * self.slab + SLAB_SLACK) as usize)
            } else {
                None
            }),
    {
        let need: usize = self.wants.len() * self.slab;
        if need > have {
            Some(need + SLAB_SLACK)
        } else {
            None
        }
    }

    /// Decides where the slab at `offset` goes. A slab that the cache does not
    /// take gets the next staging slot.
    pub fn target(&mut self, cache: &mut DeviceSlabCache, offset: u64) -> (t: Target)
        requires
            old(self).wf(),
            old(cache)@.wf(),
            old(self).staged < old(self).wants@.len(),
        ensures
            final(cache)@.wf(),
            final(self).wf(),
            final(self).in_use == old(self).in_use,
            final(self).wants == old(self).wants,
            final(self).resolved == old(self).resolved,
            final(self).slab == old(self).slab,
            final(self).unified == old(self).unified,
            match t {
                Target::Host => old(self).unified && final(cache)@ == old(cache)@
                    && final(self).staged == old(self).staged,
                Target::Slot(slot) => {
                    &&& !old(self).unified
                    &&& old(cache)@.admission(offset, old(self).in_use@) == Some(slot as int)
                    &&& final(cache)@ == old(cache)@.vacated(slot as int)
                    &&& final(cache)@.vacant(slot)
                    &&& final(self).staged == old(self).staged
                },
                Target::Staging(base) => {
                    &&& !old(self).unified
                    &&& old(cache)@.admission(offset, old(self).in_use@) is None
                    &&& final(cache)@ == old(cache)@
                    &&& base == old(self).staged * old(self).slab
                    &&& base + old(self).slab <= old(self).wants@.len() * old(self).slab
                    &&& final(self).staged == old(self).staged + 1
                },
            },
    {
        if self.unified {
            return Target::Host;
        }
        match cache.maybe_insert(offset, &self.in_use) {
            Some(slot) => Target::Slot(slot),
            None => {
                proof {
                    let (k, n, w) = (
                        self.staged as int,
                        self.wants@.len() as int,
                        self.slab as int,
                    );
                    assert(k * w + w <= n * w) by (nonlinear_arith)
                        requires
                            0 <= k < n,
                            0 <= w,
                    ;
                }
                assert(self.staged < self.wants.len());
                let base: usize = self.staged * self.slab;
                self.staged = self.staged + 1;
                Target::Staging(base)
            },
        }
    }

    /// Records that the slab at `offset` is now where `t` said.
    pub fn landed(&mut self, cache: &mut DeviceSlabCache, offset: u64, t: Target)
        requires
            old(cache)@.wf(),
            t matches Target::Slot(slot) ==> old(cache)@.vacant(slot) && offset != FREE,
        ensures
            final(cache)@.wf(),
            final(self).in_use == old(self).in_use,
            final(self).wants == old(self).wants,
            final(self).staged == old(self).staged,
            final(self).slab == old(self).slab,
            final(self).unified == old(self).unified,
            final(self).resolved@ == old(self).resolved@.insert(
                offset,
                match t {
                    Target::Host => Place::Host(offset),
                    Target::Slot(slot) => Place::Cache(
                        (slot * old(cache)@.slab_bytes) as usize,
                    ),
                    Target::Staging(base) => Place::Staging(base),
                },
            ),
            final(cache)@ == (match t {
                Target::Slot(slot) => old(cache)@.filled(slot, offset),
                _ => old(cache)@,
            }),
    {
        broadcast use vstd::std_specs::hash::group_hash_axioms;

        let p: Place = match t {
            Target::Host => Place::Host(offset),
            Target::Slot(slot) => Place::Cache(cache.fill(slot, offset)),
            Target::Staging(base) => Place::Staging(base),
        };
        self.resolved.insert(offset, p);
    }
}

/// Where the weights of one routed slot are on the primary device.
#[derive(Debug, Clone, Copy, PartialEq, Eq, Structural)]
pub struct ExpertPtrs {
    pub gate: Place,
    pub up: Place,
    /// Bytes into the up slab where its rows begin.
    pub up_off: u64,
    pub down: Place,
}

/// Where a slot's expert is computed and from what.
pub ghost enum Slot {
    Nothing,
    Tier(TierHome),
    Here(ExpertPtrs),
}

/// What slot value `e` means.
pub open spec fn slot_of(
    tiers: Seq<ExpertTier>,
    draft: Map<u64, usize>,
    exps: MoeTensors,
    fused_up_off: u64,
    n_expert: u32,
    resolved: Map<u64, Place>,
    e: i32,
) -> Slot {
    if !routed(e, n_expert) {
        Slot::Nothing
    } else {
        match home(tiers, draft, exps, e as int) {
            Some(h) => Slot::Tier(h),
            None => Slot::Here(
                ExpertPtrs {
                    gate: resolved[exps.gate.slab(e as int).offset],
                    up: resolved[exps.up.slab(e as int).offset],
                    up_off: fused_up_off,
                    down: resolved[exps.down.slab(e as int).offset],
                },
            ),
        }
    }
}

/// Every routed slot is computed in exactly one place, here or on one of the
/// tiers, and no other slot is computed at all.
pub proof fn slot_runs_once(
    tiers: Seq<ExpertTier>,
    draft: Map<u64, usize>,
    exps: MoeTensors,
    fused_up_off: u64,
    n_expert: u32,
    resolved: Map<u64, Place>,
    e: i32,
)
    requires
        tiers.len() <= usize::MAX,
    ensures
        ({
            let slot = slot_of(tiers, draft, exps, fused_up_off, n_expert, resolved, e);
            &&& routed(e, n_expert) <==> !(slot is Nothing)
            &&& slot matches Slot::Tier(h) ==> h.tier < tiers.len()
        }),
{
    first_home_in_range(tiers, exps, e as int, 0);
}

/// Whether the weights of everything computed here have been found.
pub open spec fn all_found(
    tiers: Seq<ExpertTier>,
    draft: Map<u64, usize>,
    exps: MoeTensors,
    n_expert: u32,
    resolved: Map<u64, Place>,
    selected: Seq<i32>,
) -> bool {
    forall|i: int|
        0 <= i < selected.len() && routed(#[trigger] selected[i], n_expert) && home(
            tiers,
            draft,
            exps,
            selected[i] as int,
        ) is None ==> {
            &&& resolved.contains_key(exps.gate.slab(selected[i] as int).offset)
            &&& resolved.contains_key(exps.up.slab(selected[i] as int).offset)
            &&& resolved.contains_key(exps.down.slab(selected[i] as int).offset)
        }
}

/// Once everything wanted has landed, every expert computed here is found.
pub proof fn landed_finds_all(
    tiers: Seq<ExpertTier>,
    draft: Map<u64, usize>,
    exps: MoeTensors,
    n_expert: u32,
    selected: Seq<i32>,
    distinct: Seq<u32>,
    c: Slabs,
    unified: bool,
    resolved: Map<u64, Place>,
)
    requires
        is_distinct(distinct, selected, n_expert),
        ({
            let f = looked_up(c, draft, unified, needed(tiers, draft, exps, distinct));
            &&& forall|o: u64| #[trigger] f.resolved.contains_key(o) ==> resolved.contains_key(o)
            &&& forall|o: u64| #[trigger] offsets(f.wants).contains(o) ==> resolved.contains_key(o)
        }),
    ensures
        all_found(tiers, draft, exps, n_expert, resolved, selected),
{
    let reads = needed(tiers, draft, exps, distinct);
    assert forall|i: int|
        0 <= i < selected.len() && routed(#[trigger] selected[i], n_expert) && home(
            tiers,
            draft,
            exps,
            selected[i] as int,
        ) is None implies {
        &&& resolved.contains_key(exps.gate.slab(selected[i] as int).offset)
        &&& resolved.contains_key(exps.up.slab(selected[i] as int).offset)
        &&& resolved.contains_key(exps.down.slab(selected[i] as int).offset)
    } by {
        let e = selected[i] as u32;
        assert(distinct.contains(e));
        let x = choose|x: int| 0 <= x < distinct.len() && distinct[x] == e;
        needed_complete(tiers, draft, exps, distinct, x);
        found_in_reads(c, draft, unified, reads, resolved, exps.gate.slab(e as int).offset);
        found_in_reads(c, draft, unified, reads, resolved, exps.up.slab(e as int).offset);
        found_in_reads(c, draft, unified, reads, resolved, exps.down.slab(e as int).offset);
    }
}

proof fn found_in_reads(
    c: Slabs,
    draft: Map<u64, usize>,
    unified: bool,
    reads: Seq<Read>,
    resolved: Map<u64, Place>,
    o: u64,
)
    requires
        offsets(reads).contains(o),
        ({
            let f = looked_up(c, draft, unified, reads);
            &&& forall|o: u64| #[trigger] f.resolved.contains_key(o) ==> resolved.contains_key(o)
            &&& forall|o: u64| #[trigger] offsets(f.wants).contains(o) ==> resolved.contains_key(o)
        }),
    ensures
        resolved.contains_key(o),
{
    let y = choose|y: int| 0 <= y < offsets(reads).len() && offsets(reads)[y] == o;
    looked_up_complete(c, draft, unified, reads, y);
}

/// The routed slots of a batch, sorted by where they are computed.
pub struct Slots {
    /// Per slot: the weights on the primary, where it is computed there.
    pub here: Vec<Option<ExpertPtrs>>,
    /// Per tier and slot: the place on that tier, where it is computed there.
    pub on_tier: Vec<Vec<Option<TierHome>>>,
    /// Per tier: how many slots it computes.
    pub tier_slots: Vec<u64>,
}

/// How many of the first `n` slots tier `t` computes.
pub open spec fn tier_count(slots: spec_fn(int) -> Slot, t: int, n: int) -> int
    decreases n,
{
    if n <= 0 {
        0
    } else {
        tier_count(slots, t, n - 1) + (match slots(n - 1) {
            Slot::Tier(h) => if h.tier == t {
                1int
            } else {
                0
            },
            _ => 0,
        })
    }
}

proof fn tier_count_bound(slots: spec_fn(int) -> Slot, t: int, n: int)
    requires
        0 <= n,
    ensures
        0 <= tier_count(slots, t, n) <= n,
    decreases n,
{
    if n > 0 {
        tier_count_bound(slots, t, n - 1);
    }
}

/// Sorts the routed slots by where they are computed.
pub fn sort_slots(
    selected: &[i32],
    tiers: &[ExpertTier],
    draft: &HashMap<u64, usize>,
    exps: &MoeTensors,
    fused_up_off: u64,
    n_expert: u32,
    resolved: &HashMap<u64, Place>,
) -> (r: Slots)
    requires
        exps_hold(*exps, n_expert as nat),
        all_found(tiers@, draft@, *exps, n_expert, resolved@, selected@),
    ensures
        ({
            let slot = |i: int|
                slot_of(tiers@, draft@, *exps, fused_up_off, n_expert, resolved@, selected@[i]);
            &&& r.here@.len() == selected@.len()
            &&& r.on_tier@.len() == tiers@.len()
            &&& r.tier_slots@.len() == tiers@.len()
            &&& forall|i: int|
                0 <= i < selected@.len() ==> (#[trigger] r.here@[i]) == (match slot(i) {
                    Slot::Here(p) => Some(p),
                    _ => None,
                })
            &&& forall|t: int|
                0 <= t < tiers@.len() ==> (#[trigger] r.on_tier@[t])@.len() == selected@.len()
            &&& forall|t: int, i: int|
                0 <= t < tiers@.len() && 0 <= i < selected@.len() ==> (#[trigger] r.on_tier@[t]@[i])
                    == (match slot(i) {
                    Slot::Tier(h) => if h.tier == t {
                        Some(h)
                    } else {
                        None
                    },
                    _ => None,
                })
            &&& forall|t: int|
                0 <= t < tiers@.len() ==> (#[trigger] r.tier_slots@[t]) == tier_count(
                    slot,
                    t,
                    selected@.len() as int,
                )
        }),
{
    broadcast use vstd::std_specs::hash::group_hash_axioms;

    let ghost slot = |i: int|
        slot_of(tiers@, draft@, *exps, fused_up_off, n_expert, resolved@, selected@[i]);
    let mut here: Vec<Option<ExpertPtrs>> = Vec::new();
    let mut on_tier: Vec<Vec<Option<TierHome>>> = Vec::new();
    let mut tier_slots: Vec<u64> = Vec::new();
    let mut t: usize = 0;
    while t < tiers.len()
        invariant
            t <= tiers@.len(),
            on_tier@.len() == t,
            tier_slots@.len() == t,
            forall|x: int| 0 <= x < t ==> (#[trigger] on_tier@[x])@.len() == 0,
            forall|x: int| 0 <= x < t ==> #[trigger] tier_slots@[x] == 0,
        decreases tiers@.len() - t,
    {
        on_tier.push(Vec::new());
        tier_slots.push(0);
        t += 1;
    }
    let mut i: usize = 0;
    while i < selected.len()
        invariant
            i <= selected@.len(),
            slot == (|i: int|
                slot_of(tiers@, draft@, *exps, fused_up_off, n_expert, resolved@, selected@[i])),
            exps_hold(*exps, n_expert as nat),
            all_found(tiers@, draft@, *exps, n_expert, resolved@, selected@),
            here@.len() == i,
            on_tier@.len() == tiers@.len(),
            tier_slots@.len() == tiers@.len(),
            forall|x: int|
                0 <= x < i ==> (#[trigger] here@[x]) == (match slot(x) {
                    Slot::Here(p) => Some(p),
                    _ => None,
                }),
            forall|t: int| 0 <= t < tiers@.len() ==> (#[trigger] on_tier@[t])@.len() == i,
            forall|t: int, x: int|
                0 <= t < tiers@.len() && 0 <= x < i ==> (#[trigger] on_tier@[t]@[x]) == (
                match slot(x) {
                    Slot::Tier(h) => if h.tier == t {
                        Some(h)
                    } else {
                        None
                    },
                    _ => None,
                }),
            forall|t: int|
                0 <= t < tiers@.len() ==> (#[trigger] tier_slots@[t]) == tier_count(
                    slot,
                    t,
                    i as int,
                ),
        decreases selected@.len() - i,
    {
        broadcast use vstd::std_specs::hash::group_hash_axioms;

        let e: i32 = selected[i];
        let mut found: Option<TierHome> = None;
        let mut ptrs: Option<ExpertPtrs> = None;
        if e >= 0 && (e as u32) < n_expert {
            assert(routed(selected@[i as int], n_expert));
            proof {
                let (a, b, c) = (
                    exps.gate.expert_bytes,
                    exps.up.expert_bytes,
                    exps.down.expert_bytes,
                );
                assert(e * a <= n_expert * a && e * b <= n_expert * b && e * c <= n_expert * c)
                    by (nonlinear_arith)
                    requires
                        0 <= e <= n_expert,
                ;
            }
            let gate: u64 = exps.gate.slab_of(e as u64).offset;
            let up: u64 = exps.up.slab_of(e as u64).offset;
            let down: u64 = exps.down.slab_of(e as u64).offset;
            found = find_home(tiers, draft, exps, e as u32);
            if found.is_none() {
                match (resolved.get(&gate), resolved.get(&up), resolved.get(&down)) {
                    (Some(g), Some(u), Some(d)) => {
                        ptrs = Some(
                            ExpertPtrs { gate: *g, up: *u, up_off: fused_up_off, down: *d },
                        );
                    },
                    _ => {},
                }
            }
        }
        here.push(ptrs);
        assert(slot(i as int) == (match found {
            Some(h) => Slot::Tier(h),
            None => match ptrs {
                Some(p) => Slot::Here(p),
                None => Slot::Nothing,
            },
        }));
        let ghost on0 = on_tier@;
        let ghost ts0 = tier_slots@;
        assert forall|x: int| 0 <= x < tiers@.len() implies (#[trigger] ts0[x]) <= i by {
            tier_count_bound(slot, x, i as int);
        }
        let mut t: usize = 0;
        while t < tiers.len()
            invariant
                t <= tiers@.len(),
                i < selected.len(),
                on_tier@.len() == tiers@.len(),
                tier_slots@.len() == tiers@.len(),
                on0.len() == tiers@.len(),
                ts0.len() == tiers@.len(),
                forall|x: int| 0 <= x < tiers@.len() ==> (#[trigger] on0[x])@.len() == i,
                forall|x: int| 0 <= x < tiers@.len() ==> (#[trigger] ts0[x]) <= i,
                forall|x: int| t <= x < tiers@.len() ==> #[trigger] on_tier@[x] == on0[x],
                forall|x: int| t <= x < tiers@.len() ==> #[trigger] tier_slots@[x] == ts0[x],
                forall|x: int|
                    0 <= x < t ==> (#[trigger] on_tier@[x])@ == on0[x]@.push(
                        match found {
                            Some(h) => if h.tier == x {
                                Some(h)
                            } else {
                                None
                            },
                            None => None,
                        },
                    ),
                forall|x: int|
                    0 <= x < t ==> (#[trigger] tier_slots@[x]) == ts0[x] + (match found {
                        Some(h) => if h.tier == x {
                            1int
                        } else {
                            0
                        },
                        None => 0,
                    }),
            decreases tiers@.len() - t,
        {
            let mut v: Option<TierHome> = None;
            if let Some(h) = found {
                if h.tier == t {
                    v = Some(h);
                    tier_slots[t] = tier_slots[t] + 1;
                }
            }
            on_tier[t].push(v);
            t += 1;
        }
        i += 1;
    }
    Slots { here, on_tier, tier_slots }
}

/// The tiers among the first `n` that compute at least one slot.
pub open spec fn active(tier_slots: Seq<u64>, n: int) -> Seq<usize>
    decreases n,
{
    if n <= 0 {
        Seq::empty()
    } else if tier_slots[n - 1] > 0 {
        active(tier_slots, n - 1).push((n - 1) as usize)
    } else {
        active(tier_slots, n - 1)
    }
}

/// Lists the tiers that have work in this step.
pub fn active_tiers(tier_slots: &[u64]) -> (v: Vec<usize>)
    ensures
        v@ == active(tier_slots@, tier_slots@.len() as int),
{
    let mut v: Vec<usize> = Vec::new();
    let mut i: usize = 0;
    while i < tier_slots.len()
        invariant
            i <= tier_slots@.len(),
            v@ == active(tier_slots@, i as int),
        decreases tier_slots@.len() - i,
    {
        if tier_slots[i] > 0 {
            v.push(i);
        }
        i += 1;
    }
    v
}

/// Whether the slab at `offset` is in none of the places it could be used from.
pub open spec fn absent(
    store: Map<u64, crate::store::CacheEntry>,
    cache: Slabs,
    tiers: Seq<ExpertTier>,
    offset: u64,
) -> bool {
    &&& !store.contains_key(offset)
    &&& !cache.resident.contains_key(offset)
    &&& crate::tiers::tier_index(tiers, offset, 0) is None
}

/// The slabs of `experts` that are nowhere yet, in order.
pub open spec fn missing_slabs(
    store: Map<u64, crate::store::CacheEntry>,
    cache: Slabs,
    tiers: Seq<ExpertTier>,
    list: Seq<Read>,
) -> Seq<Read>
    decreases list.len(),
{
    if list.len() == 0 {
        Seq::empty()
    } else {
        let before = missing_slabs(store, cache, tiers, list.drop_last());
        if absent(store, cache, tiers, list.last().offset) {
            before.push(list.last())
        } else {
            before
        }
    }
}

/// The slabs of the experts of `pred` that exist, in order.
pub open spec fn predicted_slabs(exps: MoeTensors, n_expert: u32, pred: Seq<i32>) -> Seq<Read>
    decreases pred.len(),
{
    if pred.len() == 0 {
        Seq::empty()
    } else {
        let before = predicted_slabs(exps, n_expert, pred.drop_last());
        if routed(pred.last(), n_expert) {
            before + slabs(exps, pred.last() as int)
        } else {
            before
        }
    }
}

fn keep_absent(
    store: &StreamingStore,
    cache: &DeviceSlabCache,
    tiers: &[ExpertTier],
    list: &Vec<Read>,
) -> (reads: Vec<Read>)
    ensures
        reads@ == missing_slabs(store@.entries, cache@, tiers@, list@),
{
    let mut reads: Vec<Read> = Vec::new();
    let mut i: usize = 0;
    assert(list@.take(0) =~= Seq::empty());
    while i < list.len()
        invariant
            i <= list@.len(),
            reads@ == missing_slabs(store@.entries, cache@, tiers@, list@.take(i as int)),
        decreases list@.len() - i,
    {
        let r: Read = list[i];
        assert(list@.take(i + 1).drop_last() =~= list@.take(i as int));
        if !store.contains(r.offset) && !cache.holds(r.offset) && crate::tiers::tier_of(
            tiers,
            r.offset,
        ).is_none() {
            reads.push(r);
        }
        i += 1;
    }
    assert(list@.take(i as int) =~= list@);
    reads
}

/// The reads to start ahead for the experts predicted for the next layer.
pub fn prefetch_predicted(
    store: &StreamingStore,
    cache: &DeviceSlabCache,
    tiers: &[ExpertTier],
    exps: &MoeTensors,
    n_expert: u32,
    pred: &[i32],
) -> (reads: Vec<Read>)
    requires
        exps_hold(*exps, n_expert as nat),
    ensures
        reads@ == missing_slabs(
            store@.entries,
            cache@,
            tiers@,
            predicted_slabs(*exps, n_expert, pred@),
        ),
{
    let mut list: Vec<Read> = Vec::new();
    let mut i: usize = 0;
    assert(pred@.take(0) =~= Seq::empty());
    while i < pred.len()
        invariant
            i <= pred@.len(),
            exps_hold(*exps, n_expert as nat),
            list@ == predicted_slabs(*exps, n_expert, pred@.take(i as int)),
        decreases pred@.len() - i,
    {
        let e: i32 = pred[i];
        assert(pred@.take(i + 1).drop_last() =~= pred@.take(i as int));
        if e >= 0 && (e as u32) < n_expert {
            let ghost before = list@;
            list.push(slab_at(&exps.gate, e as u32, Ghost(n_expert as nat)));
            list.push(slab_at(&exps.up, e as u32, Ghost(n_expert as nat)));
            list.push(slab_at(&exps.down, e as u32, Ghost(n_expert as nat)));
            assert(list@ =~= before + slabs(*exps, e as int));
        }
        i += 1;
    }
    assert(pred@.take(i as int) =~= pred@);
    keep_absent(store, cache, tiers, &list)
}

/// The slabs of experts `0..n`, in order.
pub open spec fn layer_slabs(exps: MoeTensors, n: nat) -> Seq<Read>
    decreases n,
{
    if n == 0 {
        Seq::empty()
    } else {
        layer_slabs(exps, (n - 1) as nat) + slabs(exps, n - 1)
    }
}

/// The reads to start ahead for a whole next layer: a prefill chunk touches
/// nearly every expert, so there is nothing to predict.
pub fn prefetch_layer(
    store: &StreamingStore,
    cache: &DeviceSlabCache,
    tiers: &[ExpertTier],
    exps: &MoeTensors,
    n_expert: u32,
) -> (reads: Vec<Read>)
    requires
        exps_hold(*exps, n_expert as nat),
    ensures
        reads@ == missing_slabs(
            store@.entries,
            cache@,
            tiers@,
            layer_slabs(*exps, n_expert as nat),
        ),
{
    let mut list: Vec<Read> = Vec::new();
    let mut e: u32 = 0;
    while e < n_expert
        invariant
            e <= n_expert,
            exps_hold(*exps, n_expert as nat),
            list@ == layer_slabs(*exps, e as nat),
        decreases n_expert - e,
    {
        let ghost before = list@;
        list.push(slab_at(&exps.gate, e, Ghost(n_expert as nat)));
        list.push(slab_at(&exps.up, e, Ghost(n_expert as nat)));
        list.push(slab_at(&exps.down, e, Ghost(n_expert as nat)));
        assert(list@ =~= before + slabs(*exps, e as int));
        e += 1;
    }
    keep_absent(store, cache, tiers, &list)
}

/// Whether the next layer's experts are worth predicting: decode only.
pub fn predicts(n_tok: u32, disabled: bool) -> (r: bool)
    ensures
        r == (n_tok == 1 && !disabled),
{
    n_tok == 1 && !disabled
}

/// Whether a whole next layer is worth reading ahead: real prefill chunks only.
pub fn reads_layer_ahead(n_tok: u32, disabled: bool) -> (r: bool)
    ensures
        r == (n_tok > 8 && !disabled),
{
    n_tok > 8 && !disabled
}

} // verus!
