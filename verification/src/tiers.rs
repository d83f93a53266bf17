//! Resident expert tiers: leftover devices filled, for good, with the hottest
//! expert triples. The three slabs of a triple stay together, because what
//! passes between them never leaves the device.

use std::collections::HashMap;

use vstd::prelude::*;

use crate::census::Heat;
use crate::expert::ExpertTensor;
#[allow(unused_imports)]
use crate::order::ranking_in_range;
use crate::order::{rank, ranks};
use crate::slab_cache::SLAB_SLACK;
use crate::store::Read;

verus! {

/// Device memory kept free of slabs: scratch and driver context.
pub const RESERVE: usize = 1_073_741_824;

/// One layer's routed experts.
#[derive(Debug, Clone, Copy, PartialEq, Eq, Structural)]
pub struct MoeTensors {
    pub gate: ExpertTensor,
    pub up: ExpertTensor,
    pub down: ExpertTensor,
}

/// The three slabs of one expert, with how often they were asked for.
#[derive(Debug, Clone, Copy, PartialEq, Eq, Structural)]
pub struct Triple {
    pub heat: u64,
    pub gate: Read,
    pub up: Read,
    pub down: Read,
}

impl Triple {
    /// Bytes of the three slabs.
    pub open spec fn bytes(self) -> int {
        self.gate.len + self.up.len + self.down.len
    }
}

/// How often the slab at `offset` was asked for; of repeated entries, the
/// last counts.
pub open spec fn heat_of(census: Seq<Heat>, offset: u64) -> u64
    decreases census.len(),
{
    if census.len() == 0 {
        0
    } else if census.last().offset == offset {
        census.last().count
    } else {
        heat_of(census.drop_last(), offset)
    }
}

/// Expert `e` of a layer.
pub open spec fn triple_of(census: Seq<Heat>, l: MoeTensors, e: int) -> Triple {
    let gate = l.gate.slab(e);
    let up = l.up.slab(e);
    let down = l.down.slab(e);
    Triple {
        heat: (heat_of(census, gate.offset) + heat_of(census, up.offset) + heat_of(
            census,
            down.offset,
        )) as u64,
        gate,
        up,
        down,
    }
}

/// The experts of a layer, up to `n`, that were ever asked for.
pub open spec fn warm_triples(census: Seq<Heat>, l: MoeTensors, n: nat) -> Seq<Triple>
    decreases n,
{
    if n == 0 {
        Seq::empty()
    } else {
        let before = warm_triples(census, l, (n - 1) as nat);
        let t = triple_of(census, l, n - 1);
        if t.heat > 0 {
            before.push(t)
        } else {
            before
        }
    }
}

/// The experts of all layers that were ever asked for.
pub open spec fn all_triples(census: Seq<Heat>, layers: Seq<MoeTensors>, n: nat) -> Seq<Triple>
    decreases layers.len(),
{
    if layers.len() == 0 {
        Seq::empty()
    } else {
        all_triples(census, layers.drop_last(), n) + warm_triples(census, layers.last(), n)
    }
}

/// Whether `out` is `list` in another order, hottest first.
pub open spec fn ranked(out: Seq<Triple>, list: Seq<Triple>) -> bool {
    exists|p: Seq<usize>| #[trigger] ranks(heats(list), p) && out == picked(list, p)
}

/// The heat of each triple.
pub open spec fn heats(list: Seq<Triple>) -> Seq<u64> {
    list.map_values(|t: Triple| t.heat)
}

/// The triples at positions `p`.
pub open spec fn picked(list: Seq<Triple>, p: Seq<usize>) -> Seq<Triple> {
    p.map_values(|i: usize| list[i as int])
}

/// Devices that may become tiers: all but the primary and the attention one.
pub open spec fn is_candidate(d: int, primary: i32, attn: Option<i32>) -> bool {
    d != primary && (attn matches Some(a) ==> d != a)
}

/// The candidates among devices `0..n`, in order.
pub open spec fn candidates(n: int, primary: i32, attn: Option<i32>) -> Seq<i32>
    decreases n,
{
    if n <= 0 {
        Seq::empty()
    } else if is_candidate(n - 1, primary, attn) {
        candidates(n - 1, primary, attn).push((n - 1) as i32)
    } else {
        candidates(n - 1, primary, attn)
    }
}

/// Lists the devices that may become tiers.
pub fn tier_candidates(count: i32, primary: i32, attn: Option<i32>) -> (out: Vec<i32>)
    ensures
        out@ == candidates(count as int, primary, attn),
{
    let mut out: Vec<i32> = Vec::new();
    let mut d: i32 = 0;
    while d < count
        invariant
            0 <= d,
            d <= count || d == 0,
            out@ == candidates(d as int, primary, attn),
        decreases count - d,
    {
        let other: bool = match attn {
            Some(a) => d != a,
            None => true,
        };
        if d != primary && other {
            out.push(d);
        }
        d += 1;
    }
    out
}

/// Bytes of the pool on a device with `free` bytes; `None` when a tier there
/// is not worth it.
pub fn tier_pool(free: usize) -> (r: Option<usize>)
    ensures
        r == (if free > 2 * RESERVE {
            Some((free - RESERVE) as usize)
        } else {
            None
        }),
{
    if free / 2 > RESERVE || (free / 2 == RESERVE && free % 2 == 1) {
        Some(free - RESERVE)
    } else {
        None
    }
}

fn find_heat(census: &HashMap<u64, u64>, offset: u64) -> (h: u64)
    ensures
        h == (if census@.contains_key(offset) {
            census@[offset]
        } else {
            0
        }),
{
    broadcast use vstd::std_specs::hash::group_hash_axioms;

    match census.get(&offset) {
        Some(c) => *c,
        None => 0,
    }
}

/// The counts of a census by offset.
pub open spec fn heat_map(census: Seq<Heat>) -> Map<u64, u64>
    decreases census.len(),
{
    if census.len() == 0 {
        Map::empty()
    } else {
        heat_map(census.drop_last()).insert(census.last().offset, census.last().count)
    }
}

proof fn heat_map_finds(census: Seq<Heat>, offset: u64)
    ensures
        heat_of(census, offset) == (if heat_map(census).contains_key(offset) {
            heat_map(census)[offset]
        } else {
            0
        }),
    decreases census.len(),
{
    if census.len() > 0 {
        heat_map_finds(census.drop_last(), offset);
    }
}

/// Whether three counts never add up past a machine word.
pub open spec fn counts_add(census: Seq<Heat>) -> bool {
    forall|i: int| 0 <= i < census.len() ==> (#[trigger] census[i]).count <= u64::MAX / 3
}

/// Tells whether three counts never add up past a machine word.
pub fn counts_fit(census: &[Heat]) -> (r: bool)
    ensures
        r == counts_add(census@),
{
    let mut i: usize = 0;
    while i < census.len()
        invariant
            i <= census@.len(),
            forall|k: int| 0 <= k < i ==> (#[trigger] census@[k]).count <= u64::MAX / 3,
        decreases census@.len() - i,
    {
        if census[i].count > u64::MAX / 3 {
            assert(!(census@[i as int].count <= u64::MAX / 3));
            return false;
        }
        i += 1;
    }
    true
}

proof fn heat_bounded(census: Seq<Heat>, offset: u64)
    requires
        counts_add(census),
    ensures
        heat_of(census, offset) <= u64::MAX / 3,
    decreases census.len(),
{
    if census.len() > 0 {
        let init = census.drop_last();
        assert forall|i: int| 0 <= i < init.len() implies (#[trigger] init[i]).count <= u64::MAX
            / 3 by {
            assert(init[i] == census[i]);
        }
        assert(census[census.len() - 1] == census.last());
        heat_bounded(init, offset);
    }
}

/// Whether every slab of the layers has an offset.
pub open spec fn layers_hold(layers: Seq<MoeTensors>, n: nat) -> bool {
    forall|i: int|
        0 <= i < layers.len() ==> {
            let l = #[trigger] layers[i];
            l.gate.holds(n) && l.up.holds(n) && l.down.holds(n)
        }
}

/// Ranks every expert that was ever asked for, hottest first.
pub fn rank_triples(census: &[Heat], layers: &[MoeTensors], n_expert: u32) -> (out: Vec<Triple>)
    requires
        counts_add(census@),
        layers_hold(layers@, n_expert as nat),
    ensures
        ranked(out@, all_triples(census@, layers@, n_expert as nat)),
{
    broadcast use vstd::std_specs::hash::group_hash_axioms;

    let mut counts: HashMap<u64, u64> = HashMap::new();
    let mut i: usize = 0;
    assert(census@.take(0) =~= Seq::empty());
    while i < census.len()
        invariant
            i <= census@.len(),
            counts@ == heat_map(census@.take(i as int)),
        decreases census@.len() - i,
    {
        broadcast use vstd::std_specs::hash::group_hash_axioms;

        counts.insert(census[i].offset, census[i].count);
        assert(census@.take(i + 1).drop_last() =~= census@.take(i as int));
        i += 1;
    }
    assert(census@.take(i as int) =~= census@);
    let mut list: Vec<Triple> = Vec::new();
    let mut keys: Vec<u64> = Vec::new();
    let mut l: usize = 0;
    assert(layers@.take(0) =~= Seq::empty());
    while l < layers.len()
        invariant
            l <= layers@.len(),
            counts@ == heat_map(census@),
            counts_add(census@),
            layers_hold(layers@, n_expert as nat),
            list@ == all_triples(census@, layers@.take(l as int), n_expert as nat),
            keys@ == heats(list@),
        decreases layers@.len() - l,
    {
        let layer: MoeTensors = layers[l];
        let ghost before = list@;
        let mut e: u64 = 0;
        assert(list@ =~= before + warm_triples(census@, layer, 0));
        while e < n_expert as u64
            invariant
                e <= n_expert,
                counts@ == heat_map(census@),
                counts_add(census@),
                layer.gate.holds(n_expert as nat),
                layer.up.holds(n_expert as nat),
                layer.down.holds(n_expert as nat),
                list@ == before + warm_triples(census@, layer, e as nat),
                keys@ == heats(list@),
            decreases n_expert - e,
        {
            proof {
                let (a, b, c) = (
                    layer.gate.expert_bytes,
                    layer.up.expert_bytes,
                    layer.down.expert_bytes,
                );
                assert(e * a <= n_expert * a && e * b <= n_expert * b && e * c <= n_expert * c)
                    by (nonlinear_arith)
                    requires
                        e <= n_expert,
                ;
                let t = triple_of(census@, layer, e as int);
                heat_map_finds(census@, t.gate.offset);
                heat_map_finds(census@, t.up.offset);
                heat_map_finds(census@, t.down.offset);
                heat_bounded(census@, t.gate.offset);
                heat_bounded(census@, t.up.offset);
                heat_bounded(census@, t.down.offset);
            }
            let gate: Read = layer.gate.slab_of(e);
            let up: Read = layer.up.slab_of(e);
            let down: Read = layer.down.slab_of(e);
            let heat: u64 = find_heat(&counts, gate.offset) + find_heat(&counts, up.offset)
                + find_heat(&counts, down.offset);
            let t: Triple = Triple { heat, gate, up, down };
            assert(t == triple_of(census@, layer, e as int));
            if heat > 0 {
                list.push(t);
                keys.push(heat);
                assert(keys@ =~= heats(list@));
            }
            assert(list@ =~= before + warm_triples(census@, layer, (e + 1) as nat));
            e += 1;
        }
        assert(layers@.take(l + 1).drop_last() =~= layers@.take(l as int));
        l += 1;
    }
    assert(layers@.take(l as int) =~= layers@);
    let p: Vec<usize> = rank(&keys);
    let mut out: Vec<Triple> = Vec::new();
    let mut k: usize = 0;
    while k < p.len()
        invariant
            k <= p@.len(),
            keys@.len() == list@.len(),
            forall|x: int| 0 <= x < p@.len() ==> #[trigger] p@[x] < keys@.len(),
            out@.len() == k,
            forall|x: int| 0 <= x < k ==> #[trigger] out@[x] == list@[p@[x] as int],
        decreases p@.len() - k,
    {
        out.push(list[p[k]]);
        k += 1;
    }
    assert(out@ =~= picked(list@, p@));
    out
}

/// A slab's place in a tier's pool.
#[derive(Debug, Clone, Copy, PartialEq, Eq, Structural)]
pub struct Placement {
    pub slab: Read,
    /// Where in the pool it begins.
    pub at: usize,
}

/// Where filling a pool has got to.
pub ghost struct Fill {
    pub placed: Seq<Placement>,
    /// Bytes placed.
    pub cursor: int,
    /// The next triple for the next tier.
    pub next: int,
}

/// A triple's slabs, one behind the other from `at` on.
pub open spec fn laid_out(t: Triple, at: int) -> Seq<Placement> {
    seq![
        Placement { slab: t.gate, at: at as usize },
        Placement { slab: t.up, at: (at + t.gate.len) as usize },
        Placement { slab: t.down, at: (at + t.gate.len + t.up.len) as usize },
    ]
}

/// Fills a pool with triples in order until one does not fit with its slack.
/// The next tier starts at that one.
pub open spec fn filled(triples: Seq<Triple>, f: Fill, pool: int) -> Fill
    decreases triples.len() - f.next,
{
    if f.next < 0 || f.next >= triples.len() {
        f
    } else {
        let t = triples[f.next];
        if f.cursor + t.bytes() + SLAB_SLACK > pool {
            f
        } else {
            filled(
                triples,
                Fill {
                    placed: f.placed + laid_out(t, f.cursor),
                    cursor: f.cursor + t.bytes(),
                    next: f.next + 1,
                },
                pool,
            )
        }
    }
}

/// The placements lie one behind the other from the start of the pool to
/// `end`, without overlap.
pub open spec fn packed(placed: Seq<Placement>, end: int) -> bool
    decreases placed.len(),
{
    if placed.len() == 0 {
        end == 0
    } else {
        let p = placed.last();
        p.at + p.slab.len == end && packed(placed.drop_last(), p.at as int)
    }
}

proof fn packed_triple(placed: Seq<Placement>, cursor: int, t: Triple)
    requires
        packed(placed, cursor),
        0 <= cursor,
        cursor + t.bytes() <= usize::MAX,
    ensures
        packed(placed + laid_out(t, cursor), cursor + t.bytes()),
{
    let l = laid_out(t, cursor);
    let c = placed + l;
    let b = placed + l.take(2);
    let a = placed + l.take(1);
    assert(c.drop_last() =~= b);
    assert(b.drop_last() =~= a);
    assert(a.drop_last() =~= placed);
    reveal_with_fuel(packed, 4);
}

/// A filled pool holds whole triples, packed without overlap, with the slack
/// still free behind them.
pub proof fn filled_is_packed(triples: Seq<Triple>, f: Fill, pool: int)
    requires
        packed(f.placed, f.cursor),
        0 <= f.cursor,
        f.placed.len() == 0 || f.cursor + SLAB_SLACK <= pool,
        f.placed.len() % 3 == 0,
        0 <= f.next,
        pool <= usize::MAX,
    ensures
        ({
            let r = filled(triples, f, pool);
            &&& packed(r.placed, r.cursor)
            &&& r.cursor >= 0
            &&& r.placed.len() == 0 || r.cursor + SLAB_SLACK <= pool
            &&& r.placed.len() % 3 == 0
            &&& f.next <= r.next
            &&& f.next <= triples.len() ==> r.next <= triples.len()
        }),
    decreases triples.len() - f.next,
{
    if f.next < triples.len() {
        let t = triples[f.next];
        if f.cursor + t.bytes() + SLAB_SLACK <= pool {
            packed_triple(f.placed, f.cursor, t);
            let g = Fill {
                placed: f.placed + laid_out(t, f.cursor),
                cursor: f.cursor + t.bytes(),
                next: f.next + 1,
            };
            filled_is_packed(triples, g, pool);
        }
    }
}

/// In a packed pool, an earlier slab ends before a later one begins.
pub proof fn packed_disjoint(placed: Seq<Placement>, end: int, i: int, j: int)
    requires
        packed(placed, end),
        0 <= i < j < placed.len(),
    ensures
        placed[i].at + placed[i].slab.len <= placed[j].at,
    decreases placed.len(),
{
    let init = placed.drop_last();
    let at = placed.last().at as int;
    if j == placed.len() - 1 {
        packed_below(init, at, i);
    } else {
        packed_disjoint(init, at, i, j);
    }
}

proof fn packed_below(placed: Seq<Placement>, end: int, i: int)
    requires
        packed(placed, end),
        0 <= i < placed.len(),
    ensures
        placed[i].at + placed[i].slab.len <= end,
    decreases placed.len(),
{
    if i < placed.len() - 1 {
        packed_below(placed.drop_last(), placed.last().at as int, i);
    }
}

/// The outcome of filling one tier.
pub struct TierFill {
    pub placed: Vec<Placement>,
    /// Bytes placed.
    pub cursor: usize,
    /// The first triple for the next tier.
    pub next: usize,
}

/// Plans one tier: which slabs go where in a pool of `pool` bytes, taking
/// triples from `next` on.
pub fn fill_tier(triples: &[Triple], next: usize, pool: usize) -> (r: TierFill)
    requires
        next <= triples@.len(),
        forall|i: int|
            0 <= i < triples@.len() ==> (#[trigger] triples@[i]).bytes() + SLAB_SLACK
                <= usize::MAX,
    ensures
        ({
            let f = filled(
                triples@,
                Fill { placed: Seq::empty(), cursor: 0, next: next as int },
                pool as int,
            );
            &&& r.placed@ == f.placed
            &&& r.cursor == f.cursor
            &&& r.next == f.next
        }),
        packed(r.placed@, r.cursor as int),
        r.placed@.len() == 0 || r.cursor + SLAB_SLACK <= pool,
        next <= r.next <= triples@.len(),
{
    let mut placed: Vec<Placement> = Vec::new();
    let mut cursor: usize = 0;
    let mut k: usize = next;
    let ghost start = Fill { placed: Seq::empty(), cursor: 0, next: next as int };
    proof {
        filled_is_packed(triples@, start, pool as int);
    }
    loop
        invariant_except_break
            next <= k <= triples@.len(),
            cursor <= pool,
            forall|i: int|
                0 <= i < triples@.len() ==> (#[trigger] triples@[i]).bytes() + SLAB_SLACK
                    <= usize::MAX,
            filled(
                triples@,
                Fill { placed: placed@, cursor: cursor as int, next: k as int },
                pool as int,
            ) == filled(triples@, start, pool as int),
        ensures
            filled(triples@, start, pool as int) == (Fill {
                placed: placed@,
                cursor: cursor as int,
                next: k as int,
            }),
        decreases triples@.len() - k,
    {
        if k == triples.len() {
            break;
        }
        let t: Triple = triples[k];
        let need: usize = t.gate.len as usize + t.up.len as usize + t.down.len as usize;
        if need + SLAB_SLACK > pool - cursor {
            break;
        }
        let ghost before = placed@;
        let c0: usize = cursor;
        placed.push(Placement { slab: t.gate, at: cursor });
        cursor = cursor + t.gate.len as usize;
        placed.push(Placement { slab: t.up, at: cursor });
        cursor = cursor + t.up.len as usize;
        placed.push(Placement { slab: t.down, at: cursor });
        cursor = cursor + t.down.len as usize;
        assert(placed@ =~= before + laid_out(t, c0 as int));
        k += 1;
    }
    TierFill { placed, cursor, next: k }
}

/// The slabs of triples `from..to`, one triple behind the other from `at` on.
pub open spec fn run(triples: Seq<Triple>, from: int, to: int, at: int) -> Seq<Placement>
    decreases to - from,
{
    if from >= to {
        Seq::empty()
    } else {
        laid_out(triples[from], at) + run(triples, from + 1, to, at + triples[from].bytes())
    }
}

/// A pool takes triples as they stand in the order, none left out between two
/// that it takes.
pub proof fn filled_is_a_run(triples: Seq<Triple>, f: Fill, pool: int)
    requires
        0 <= f.next,
    ensures
        ({
            let r = filled(triples, f, pool);
            &&& f.next <= r.next
            &&& r.placed == f.placed + run(triples, f.next, r.next, f.cursor)
        }),
    decreases triples.len() - f.next,
{
    let r = filled(triples, f, pool);
    if f.next < triples.len() && f.cursor + triples[f.next].bytes() + SLAB_SLACK <= pool {
        let t = triples[f.next];
        let g = Fill {
            placed: f.placed + laid_out(t, f.cursor),
            cursor: f.cursor + t.bytes(),
            next: f.next + 1,
        };
        filled_is_a_run(triples, g, pool);
        assert(r.placed =~= f.placed + run(triples, f.next, r.next, f.cursor));
    } else {
        assert(r.placed =~= f.placed + run(triples, f.next, r.next, f.cursor));
    }
}

/// The first triple that is left once the first `n` pools are full.
pub open spec fn next_after(triples: Seq<Triple>, pools: Seq<usize>, n: int) -> int
    decreases n, 1int,
{
    if n <= 0 {
        0
    } else {
        tier_plan(triples, pools, n - 1).next
    }
}

/// What tier `k` takes: it goes on where the one before it stopped.
pub open spec fn tier_plan(triples: Seq<Triple>, pools: Seq<usize>, k: int) -> Fill
    decreases k, 2int,
{
    filled(
        triples,
        Fill { placed: Seq::empty(), cursor: 0, next: next_after(triples, pools, k) },
        pools[k] as int,
    )
}

/// The triples that tier `k` takes, and that tiers take them in order.
pub proof fn tier_takes(triples: Seq<Triple>, pools: Seq<usize>, k: int)
    requires
        0 <= k,
    ensures
        0 <= next_after(triples, pools, k) <= next_after(triples, pools, k + 1),
        next_after(triples, pools, k + 1) <= triples.len(),
        tier_plan(triples, pools, k).placed == run(
            triples,
            next_after(triples, pools, k),
            next_after(triples, pools, k + 1),
            0,
        ),
    decreases k,
{
    if k > 0 {
        tier_takes(triples, pools, k - 1);
    }
    let f = Fill { placed: Seq::empty(), cursor: 0, next: next_after(triples, pools, k) };
    filled_is_a_run(triples, f, pools[k] as int);
    filled_stops(triples, f, pools[k] as int);
    assert(f.placed + run(triples, f.next, next_after(triples, pools, k + 1), 0) =~= run(
        triples,
        f.next,
        next_after(triples, pools, k + 1),
        0,
    ));
}

proof fn filled_stops(triples: Seq<Triple>, f: Fill, pool: int)
    requires
        0 <= f.next <= triples.len(),
    ensures
        filled(triples, f, pool).next <= triples.len(),
    decreases triples.len() - f.next,
{
    if f.next < triples.len() {
        let t = triples[f.next];
        let g = Fill {
            placed: f.placed + laid_out(t, f.cursor),
            cursor: f.cursor + t.bytes(),
            next: f.next + 1,
        };
        filled_stops(triples, g, pool);
    }
}

/// Whether triple `i` is in one of the first `n` tiers.
pub open spec fn resident(triples: Seq<Triple>, pools: Seq<usize>, n: int, i: int) -> bool {
    exists|k: int|
        0 <= k < n && #[trigger] next_after(triples, pools, k) <= i < next_after(
            triples,
            pools,
            k + 1,
        )
}

proof fn resident_are_first(triples: Seq<Triple>, pools: Seq<usize>, n: int, i: int)
    requires
        0 <= n,
        0 <= i,
    ensures
        resident(triples, pools, n, i) <==> i < next_after(triples, pools, n),
    decreases n,
{
    if n > 0 {
        resident_are_first(triples, pools, n - 1, i);
        tier_takes(triples, pools, n - 1);
        if next_after(triples, pools, n - 1) <= i < next_after(triples, pools, n) {
            assert(next_after(triples, pools, n - 1) <= i < next_after(triples, pools, n - 1 + 1));
        }
        if resident(triples, pools, n - 1, i) {
            let k = choose|k: int|
                0 <= k < n - 1 && #[trigger] next_after(triples, pools, k) <= i < next_after(
                    triples,
                    pools,
                    k + 1,
                );
            assert(0 <= k < n && next_after(triples, pools, k) <= i);
        }
    }
}

/// The tiers together hold the hottest triples: all up to some place in the
/// ranking and none behind it, so none that is left out is hotter than one that
/// is resident.
pub proof fn tiers_hold_the_hottest(
    triples: Seq<Triple>,
    list: Seq<Triple>,
    pools: Seq<usize>,
    i: int,
    j: int,
)
    requires
        list.len() <= usize::MAX,
        ranked(triples, list),
        0 <= i < triples.len(),
        0 <= j < triples.len(),
        resident(triples, pools, pools.len() as int, i),
        !resident(triples, pools, pools.len() as int, j),
    ensures
        i < j,
        triples[i].heat >= triples[j].heat,
{
    resident_are_first(triples, pools, pools.len() as int, i);
    resident_are_first(triples, pools, pools.len() as int, j);
    let p = choose|p: Seq<usize>| #[trigger] ranks(heats(list), p) && triples == picked(list, p);
    ranking_in_range(heats(list), p);
    assert(heats(list)[p[i] as int] >= heats(list)[p[j] as int]);
}

/// Plans all tiers, one for each pool: the first takes the hottest triples, and
/// each goes on where the one before it stopped.
pub fn fill_tiers(triples: &[Triple], pools: &[usize]) -> (out: Vec<TierFill>)
    requires
        forall|i: int|
            0 <= i < triples@.len() ==> (#[trigger] triples@[i]).bytes() + SLAB_SLACK
                <= usize::MAX,
    ensures
        out@.len() == pools@.len(),
        forall|k: int|
            0 <= k < out@.len() ==> {
                let f = tier_plan(triples@, pools@, k);
                &&& (#[trigger] out@[k]).placed@ == f.placed
                &&& out@[k].cursor == f.cursor
                &&& out@[k].next == f.next
                &&& packed(out@[k].placed@, out@[k].cursor as int)
                &&& out@[k].placed@.len() == 0 || out@[k].cursor + SLAB_SLACK <= pools@[k]
            },
{
    let mut out: Vec<TierFill> = Vec::new();
    let mut next: usize = 0;
    let mut k: usize = 0;
    while k < pools.len()
        invariant
            k <= pools@.len(),
            forall|i: int|
                0 <= i < triples@.len() ==> (#[trigger] triples@[i]).bytes() + SLAB_SLACK
                    <= usize::MAX,
            next == next_after(triples@, pools@, k as int),
            next <= triples@.len(),
            out@.len() == k,
            forall|k: int|
                0 <= k < out@.len() ==> {
                    let f = tier_plan(triples@, pools@, k);
                    &&& (#[trigger] out@[k]).placed@ == f.placed
                    &&& out@[k].cursor == f.cursor
                    &&& out@[k].next == f.next
                    &&& packed(out@[k].placed@, out@[k].cursor as int)
                    &&& out@[k].placed@.len() == 0 || out@[k].cursor + SLAB_SLACK <= pools@[k]
                },
        decreases pools@.len() - k,
    {
        let f: TierFill = fill_tier(triples, next, pools[k]);
        next = f.next;
        out.push(f);
        k += 1;
    }
    out
}

/// A device that holds expert slabs for good.
pub struct ExpertTier {
    pub dev: i32,
    /// Where in the pool each slab begins, by file offset.
    pub map: HashMap<u64, usize>,
    pub hits: u64,
}

/// Where a list of placements puts the slab at `offset`; of repeated ones,
/// the last counts.
pub open spec fn place_map(placed: Seq<Placement>) -> Map<u64, usize>
    decreases placed.len(),
{
    if placed.len() == 0 {
        Map::empty()
    } else {
        place_map(placed.drop_last()).insert(placed.last().slab.offset, placed.last().at)
    }
}

impl View for ExpertTier {
    type V = Map<u64, usize>;

    open spec fn view(&self) -> Map<u64, usize> {
        self.map@
    }
}

impl ExpertTier {
    /// A tier on `dev` with these slabs in place.
    pub fn new(dev: i32, placed: &[Placement]) -> (t: ExpertTier)
        ensures
            t@ == place_map(placed@),
            t.dev == dev,
            t.hits == 0,
    {
        broadcast use vstd::std_specs::hash::group_hash_axioms;

        let mut map: HashMap<u64, usize> = HashMap::new();
        let mut i: usize = 0;
        assert(placed@.take(0) =~= Seq::empty());
        while i < placed.len()
            invariant
                i <= placed@.len(),
                map@ == place_map(placed@.take(i as int)),
            decreases placed@.len() - i,
        {
            broadcast use vstd::std_specs::hash::group_hash_axioms;

            map.insert(placed[i].slab.offset, placed[i].at);
            assert(placed@.take(i + 1).drop_last() =~= placed@.take(i as int));
            i += 1;
        }
        assert(placed@.take(i as int) =~= placed@);
        ExpertTier { dev, map, hits: 0 }
    }

    /// Where in the pool the slab at `offset` begins, if the tier holds it.
    pub fn find(&self, offset: u64) -> (r: Option<usize>)
        ensures
            match r {
                Some(at) => self@.contains_key(offset) && at == self@[offset],
                None => !self@.contains_key(offset),
            },
    {
        broadcast use vstd::std_specs::hash::group_hash_axioms;

        match self.map.get(&offset) {
            Some(at) => Some(*at),
            None => None,
        }
    }
}

/// The first tier that holds the slab at `offset`, among those from `i` on.
pub open spec fn tier_index(tiers: Seq<ExpertTier>, offset: u64, i: int) -> Option<int>
    decreases tiers.len() - i,
{
    if i < 0 || i >= tiers.len() {
        None
    } else if tiers[i]@.contains_key(offset) {
        Some(i)
    } else {
        tier_index(tiers, offset, i + 1)
    }
}

/// Finds the first tier that holds the slab at `offset`.
pub fn tier_of(tiers: &[ExpertTier], offset: u64) -> (r: Option<usize>)
    ensures
        match r {
            Some(i) => i < tiers@.len() && tier_index(tiers@, offset, 0) == Some(i as int),
            None => tier_index(tiers@, offset, 0) is None,
        },
{
    let mut i: usize = 0;
    while i < tiers.len()
        invariant
            i <= tiers@.len(),
            tier_index(tiers@, offset, 0) == tier_index(tiers@, offset, i as int),
        decreases tiers@.len() - i,
    {
        if tiers[i].find(offset).is_some() {
            return Some(i);
        }
        i += 1;
    }
    None
}

} // verus!
