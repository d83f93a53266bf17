//! A layer with experts on several devices: the order in which the tiers' shares,
//! the primary's own experts and their sums are run.

use vstd::prelude::*;

#[allow(unused_imports)]
use crate::attention::{Rows, Selection};
use crate::buffers::{Buffer, Sizing};
#[allow(unused_imports)]
use crate::dataflow::{
    closed, closed_to, combine_closed, filled, filled_all, filling, gqa_closed, mla_closed, pointed,
    reads, routed_closed, until_experts_closed, until_experts_ops, writes,
};
#[allow(unused_imports)]
use crate::flow::{
    live_after, live_after_all, live_grows, marked, marked_grows, sound, sound_concat, sound_to,
    supplied,
};
use crate::flow::Touches;
#[allow(unused_imports)]
use crate::graph::{
    admitted, allocated, combine_ops, gqa_block_ops, mla_ops, routed_ops,
};
use crate::graph::{plan_combine, plan_routed, LayerParts, LayerStep, Op};
use crate::loader::Geom;
use crate::shape::Shape;
#[allow(unused_imports)]
use crate::tier_graph::{return_ops, tier_ops};
use crate::tier_graph::{plan_return, plan_tier, TierOp};

verus! {

/// A step of a layer whose experts are spread over devices.
#[derive(Debug, Clone, Copy, PartialEq, Eq, Structural)]
pub enum LayerOp {
    /// A launch on the primary device, or on attention's.
    Here(Op),
    /// A step of this tier's share.
    Tier(usize, TierOp),
}

/// A buffer and whose it is.
pub ghost enum Place {
    Here(Buffer),
    Tier(usize, Buffer),
}

/// The buffers of the layer's own devices.
pub open spec fn all_here(v: Seq<Buffer>) -> Seq<Place> {
    v.map_values(|b: Buffer| Place::Here(b))
}

impl Touches for LayerOp {
    type Spot = Place;

    open spec fn reads_of(self) -> Seq<Place> {
        match self {
            LayerOp::Here(op) => all_here(reads(op)),
            LayerOp::Tier(i, op) => match op {
                TierOp::Send { dst, src, n } => seq![Place::Here(src)],
                TierOp::Fetch { dst, src, n } => seq![Place::Tier(i, src)],
                TierOp::AddTo { out, x, n } => seq![Place::Here(out), Place::Here(x)],
                TierOp::Quantize { out, x, dim, rows } => seq![Place::Tier(i, x)],
                TierOp::MoePair => seq![
                    Place::Tier(i, Buffer::ExpertPtrs),
                    Place::Tier(i, Buffer::TierWeights),
                    Place::Tier(i, Buffer::Xq),
                ],
                TierOp::MoeDown => seq![
                    Place::Tier(i, Buffer::ExpertPtrs),
                    Place::Tier(i, Buffer::Midq),
                ],
                TierOp::ToTier | TierOp::ToPrimary | TierOp::Pointers => Seq::empty(),
            },
        }
    }

    open spec fn fills_of(self) -> Seq<Place> {
        match self {
            LayerOp::Here(op) => all_here(writes(op)),
            LayerOp::Tier(i, op) => match op {
                TierOp::Send { dst, src, n } => seq![Place::Tier(i, dst)],
                TierOp::Fetch { dst, src, n } => seq![Place::Here(dst)],
                TierOp::AddTo { out, x, n } => seq![Place::Here(out)],
                TierOp::Quantize { out, x, dim, rows } => seq![Place::Tier(i, out)],
                TierOp::MoePair => seq![Place::Tier(i, Buffer::TierMid)],
                TierOp::MoeDown => seq![Place::Tier(i, Buffer::TierOut)],
                TierOp::Pointers => seq![Place::Tier(i, Buffer::ExpertPtrs)],
                TierOp::ToTier | TierOp::ToPrimary => Seq::empty(),
            },
        }
    }
}

/// Launches of the layer's own devices.
pub open spec fn here(ops: Seq<Op>) -> Seq<LayerOp> {
    ops.map_values(|op: Op| LayerOp::Here(op))
}

/// Steps of tier `i`'s share.
pub open spec fn on_tier(i: usize, ops: Seq<TierOp>) -> Seq<LayerOp> {
    ops.map_values(|op: TierOp| LayerOp::Tier(i, op))
}

/// The shares of the first `n` active tiers.
pub open spec fn shares(active: Seq<usize>, n: int, t: LayerStep, s: Shape) -> Seq<LayerOp>
    decreases n,
{
    if n <= 0 {
        Seq::empty()
    } else {
        shares(active, n - 1, t, s) + on_tier(active[n - 1], tier_ops(t, s))
    }
}

/// How the sums of the first `n` active tiers are added up.
pub open spec fn sums(active: Seq<usize>, n: int, t: LayerStep, s: Shape) -> Seq<LayerOp>
    decreases n,
{
    if n <= 0 {
        Seq::empty()
    } else {
        sums(active, n - 1, t, s) + on_tier(active[n - 1], return_ops(t, s))
    }
}

/// What follows once the experts' weights are where they are used: the active
/// tiers start, the primary runs its own experts meanwhile, the tiers' sums are
/// added, and all of it goes into the residual stream.
pub open spec fn expert_ops(
    active: Seq<usize>,
    t: LayerStep,
    s: Shape,
    groups: Option<u32>,
    p: LayerParts,
) -> Seq<LayerOp> {
    let n = active.len() as int;
    shares(active, n, t, s) + here(routed_ops(t, s, groups)) + sums(active, n, t, s) + here(
        combine_ops(t, s, p),
    )
}

/// All steps of a layer with experts, some of them on tiers.
pub open spec fn tiered_layer_ops(
    attend: Seq<Op>,
    active: Seq<usize>,
    t: LayerStep,
    s: Shape,
    p: LayerParts,
    predict: bool,
    groups: Option<u32>,
) -> Seq<LayerOp> {
    here(until_experts_ops(attend, t, s, p, predict)) + expert_ops(active, t, s, groups, p)
}

/// Whether what is filled among the layer's own buffers is also live.
spec fn covers(own: Set<Buffer>, live: Set<Place>) -> bool {
    forall|b: Buffer| #[trigger] own.contains(b) ==> live.contains(Place::Here(b))
}

/// Launches that are closed among the layer's own buffers are so among all.
proof fn here_sound(ops: Seq<Op>, n: int, own: Set<Buffer>, live: Set<Place>)
    requires
        0 <= n <= ops.len(),
        closed_to(ops, n, own),
        covers(own, live),
    ensures
        sound_to(here(ops), n, live),
        covers(filled(ops, n, own), live_after(here(ops), n, live)),
    decreases n,
{
    if n > 0 {
        here_sound(ops, n - 1, own, live);
        let op = ops[n - 1];
        let before = live_after(here(ops), n - 1, live);
        assert(here(ops)[n - 1] == LayerOp::Here(op));
        assert(supplied(here(ops)[n - 1], before)) by {
            assert forall|k: int| 0 <= k < here(ops)[n - 1].reads_of().len() implies before.contains(
                #[trigger] here(ops)[n - 1].reads_of()[k],
            ) by {
                assert(here(ops)[n - 1].reads_of()[k] == Place::Here(reads(op)[k]));
                assert(filled(ops, n - 1, own).contains(reads(op)[k]));
            }
        }
        let w = here(ops)[n - 1].fills_of();
        marked_grows(before, w, w.len() as int);
        assert forall|b: Buffer| #[trigger] filled(ops, n, own).contains(b) implies live_after(
            here(ops),
            n,
            live,
        ).contains(Place::Here(b)) by {
            if !filled(ops, n - 1, own).contains(b) {
                if writes(op).len() == 1 {
                    assert(w[0] == Place::Here(b));
                } else if writes(op)[0] == b {
                    assert(w[0] == Place::Here(b));
                } else {
                    assert(w[1] == Place::Here(b));
                }
            }
        }
    }
}

/// A tier's share reads what it is handed and nothing that was there before.
proof fn share_sound(i: usize, t: LayerStep, s: Shape, live: Set<Place>)
    requires
        live.contains(Place::Here(Buffer::Normed)),
        live.contains(Place::Here(Buffer::RouterWeights)),
    ensures
        sound(on_tier(i, tier_ops(t, s)), live),
        live_after_all(on_tier(i, tier_ops(t, s)), live).contains(
            Place::Tier(i, Buffer::TierOut),
        ),
{
    reveal_with_fuel(sound_to, 10);
    reveal_with_fuel(live_after, 10);
    reveal_with_fuel(marked, 2);
}

proof fn sum_sound(i: usize, t: LayerStep, s: Shape, live: Set<Place>)
    requires
        live.contains(Place::Here(Buffer::MoeOut)),
        live.contains(Place::Tier(i, Buffer::TierOut)),
    ensures
        sound(on_tier(i, return_ops(t, s)), live),
{
    reveal_with_fuel(sound_to, 5);
    reveal_with_fuel(live_after, 5);
    reveal_with_fuel(marked, 2);
}

proof fn shares_sound(active: Seq<usize>, n: int, t: LayerStep, s: Shape, live: Set<Place>)
    requires
        0 <= n <= active.len(),
        live.contains(Place::Here(Buffer::Normed)),
        live.contains(Place::Here(Buffer::RouterWeights)),
    ensures
        sound(shares(active, n, t, s), live),
        live.subset_of(live_after_all(shares(active, n, t, s), live)),
        forall|k: int|
            0 <= k < n ==> live_after_all(shares(active, n, t, s), live).contains(
                Place::Tier(#[trigger] active[k], Buffer::TierOut),
            ),
    decreases n,
{
    let all = shares(active, n, t, s);
    live_grows(all, all.len() as int, live);
    if n > 0 {
        shares_sound(active, n - 1, t, s, live);
        let before = shares(active, n - 1, t, s);
        let own = on_tier(active[n - 1], tier_ops(t, s));
        let mid = live_after_all(before, live);
        share_sound(active[n - 1], t, s, mid);
        live_grows(own, own.len() as int, mid);
        sound_concat(before, own, live);
    }
}

proof fn sums_sound(active: Seq<usize>, n: int, t: LayerStep, s: Shape, live: Set<Place>)
    requires
        0 <= n <= active.len(),
        live.contains(Place::Here(Buffer::MoeOut)),
        forall|k: int|
            0 <= k < active.len() ==> live.contains(
                Place::Tier(#[trigger] active[k], Buffer::TierOut),
            ),
    ensures
        sound(sums(active, n, t, s), live),
        live.subset_of(live_after_all(sums(active, n, t, s), live)),
    decreases n,
{
    let all = sums(active, n, t, s);
    live_grows(all, all.len() as int, live);
    if n > 0 {
        sums_sound(active, n - 1, t, s, live);
        let before = sums(active, n - 1, t, s);
        let own = on_tier(active[n - 1], return_ops(t, s));
        sum_sound(active[n - 1], t, s, live_after_all(before, live));
        sound_concat(before, own, live);
    }
}

/// A layer whose experts are spread over tiers depends on nothing but what its
/// attention depends on, the residual stream and the uploaded pointers, and
/// fills the residual stream: whatever the attention, and whichever tiers are
/// active, no step reads a buffer, here or on a tier, before the layer fills it.
pub proof fn tiered_layer_is_closed(
    attend: Seq<Op>,
    active: Seq<usize>,
    t: LayerStep,
    s: Shape,
    p: LayerParts,
    predict: bool,
    groups: Option<u32>,
    own: Set<Buffer>,
    live: Set<Place>,
)
    requires
        forall|b: Buffer| #[trigger] own.contains(b) ==> live.contains(Place::Here(b)),
        own.contains(Buffer::Cur),
        pointed(groups, own),
        closed(attend, own),
        filled_all(attend, own).contains(Buffer::AttnOut),
    ensures
        sound(tiered_layer_ops(attend, active, t, s, p, predict, groups), live),
        live_after_all(tiered_layer_ops(attend, active, t, s, p, predict, groups), live).contains(
            Place::Here(Buffer::Cur),
        ),
{
    let n = active.len() as int;
    let until = until_experts_ops(attend, t, s, p, predict);
    let routed = routed_ops(t, s, groups);
    let combine = combine_ops(t, s, p);
    let (a, b, c, d, e) = (
        here(until),
        shares(active, n, t, s),
        here(routed),
        sums(active, n, t, s),
        here(combine),
    );
    until_experts_closed(attend, t, s, p, predict, own);
    let o1 = filled_all(until, own);
    here_sound(until, until.len() as int, own, live);
    let l1 = live_after_all(a, live);
    assert(covers(o1, l1));
    assert(o1.contains(Buffer::Normed) && o1.contains(Buffer::RouterWeights));
    shares_sound(active, n, t, s, l1);
    let l2 = live_after_all(b, l1);
    assert(covers(o1, l2));
    routed_closed(t, s, groups, o1);
    here_sound(routed, routed.len() as int, o1, l2);
    let o3 = filled_all(routed, o1);
    let l3 = live_after_all(c, l2);
    live_grows(c, c.len() as int, l2);
    assert(covers(o3, l3));
    assert(o3.contains(Buffer::MoeOut));
    sums_sound(active, n, t, s, l3);
    let l4 = live_after_all(d, l3);
    let o4 = o1.insert(Buffer::MoeOut);
    assert(covers(o4, l4));
    combine_closed(t, s, p, o4);
    here_sound(combine, combine.len() as int, o4, l4);
    assert(filled_all(combine, o4).contains(Buffer::Cur));
    sound_concat(a, b, live);
    sound_concat(a + b, c, live);
    sound_concat(a + b + c, d, live);
    sound_concat(a + b + c + d, e, live);
    assert(tiered_layer_ops(attend, active, t, s, p, predict, groups) =~= a + b + c + d + e);
}

/// The same of a grouped-query layer: it depends on the residual stream, its own
/// caches and the uploaded pointers.
pub proof fn gqa_tiered_layer_is_closed(
    active: Seq<usize>,
    t: LayerStep,
    s: Shape,
    g: Option<Geom>,
    p: LayerParts,
    predict: bool,
    groups: Option<u32>,
    own: Set<Buffer>,
    live: Set<Place>,
)
    requires
        forall|b: Buffer| #[trigger] own.contains(b) ==> live.contains(Place::Here(b)),
        own.contains(Buffer::Cur),
        own.contains(Buffer::Kcache(t.il)),
        own.contains(Buffer::Vcache(t.il)),
        pointed(groups, own),
    ensures
        ({
            let attend = gqa_block_ops(t, s, g, p);
            let ops = tiered_layer_ops(attend, active, t, s, p, predict, groups);
            sound(ops, live) && live_after_all(ops, live).contains(Place::Here(Buffer::Cur))
        }),
{
    gqa_closed(t, s, g, p, own);
    tiered_layer_is_closed(
        gqa_block_ops(t, s, g, p),
        active,
        t,
        s,
        p,
        predict,
        groups,
        own,
        live,
    );
}

/// The same of a latent attention layer.
pub proof fn mla_tiered_layer_is_closed(
    active: Seq<usize>,
    t: LayerStep,
    s: Shape,
    attn_dev: bool,
    keeps_keys: bool,
    rows: Rows,
    p: LayerParts,
    predict: bool,
    groups: Option<u32>,
    own: Set<Buffer>,
    live: Set<Place>,
)
    requires
        forall|b: Buffer| #[trigger] own.contains(b) ==> live.contains(Place::Here(b)),
        own.contains(Buffer::Cur),
        own.contains(Buffer::Kcache(t.il)),
        own.contains(Buffer::Vcache(t.il)),
        own.contains(Buffer::IdxKcache(t.il)),
        rows.how == Selection::Reuse ==> own.contains(Buffer::MlaSelected),
        pointed(groups, own),
    ensures
        ({
            let attend = mla_ops(t, s, attn_dev, keeps_keys, rows);
            let ops = tiered_layer_ops(attend, active, t, s, p, predict, groups);
            sound(ops, live) && live_after_all(ops, live).contains(Place::Here(Buffer::Cur))
        }),
{
    mla_closed(t, s, attn_dev, keeps_keys, rows, own);
    tiered_layer_is_closed(
        mla_ops(t, s, attn_dev, keeps_keys, rows),
        active,
        t,
        s,
        p,
        predict,
        groups,
        own,
        live,
    );
}

fn push_here(out: &mut Vec<LayerOp>, ops: &Vec<Op>)
    ensures
        final(out)@ == old(out)@ + here(ops@),
{
    let mut i: usize = 0;
    assert(out@ =~= old(out)@ + here(ops@.take(0)));
    while i < ops.len()
        invariant
            i <= ops@.len(),
            out@ == old(out)@ + here(ops@.take(i as int)),
        decreases ops@.len() - i,
    {
        out.push(LayerOp::Here(ops[i]));
        i += 1;
        assert(out@ =~= old(out)@ + here(ops@.take(i as int)));
    }
    assert(ops@.take(i as int) =~= ops@);
}

fn push_on_tier(out: &mut Vec<LayerOp>, tier: usize, ops: &Vec<TierOp>)
    ensures
        final(out)@ == old(out)@ + on_tier(tier, ops@),
{
    let mut i: usize = 0;
    assert(out@ =~= old(out)@ + on_tier(tier, ops@.take(0)));
    while i < ops.len()
        invariant
            i <= ops@.len(),
            out@ == old(out)@ + on_tier(tier, ops@.take(i as int)),
        decreases ops@.len() - i,
    {
        out.push(LayerOp::Tier(tier, ops[i]));
        i += 1;
        assert(out@ =~= old(out)@ + on_tier(tier, ops@.take(i as int)));
    }
    assert(ops@.take(i as int) =~= ops@);
}

/// Lists what follows once the experts' weights are where they are used, with
/// the tiers that have a share.
pub fn plan_experts(
    active: &[usize],
    t: LayerStep,
    z: &Sizing,
    s: &Shape,
    g: &[Geom],
    groups: Option<u32>,
    p: LayerParts,
) -> (ops: Vec<LayerOp>)
    requires
        allocated(*z, *s, g@),
        admitted(t, *z),
        active@.len() > 0 ==> z.tiers,
    ensures
        ops@ == expert_ops(active@, t, *s, groups, p),
{
    let mut ops: Vec<LayerOp> = Vec::new();
    let mut i: usize = 0;
    while i < active.len()
        invariant
            i <= active@.len(),
            allocated(*z, *s, g@),
            admitted(t, *z),
            ops@ == shares(active@, i as int, t, *s),
        decreases active@.len() - i,
    {
        let share: Vec<TierOp> = plan_tier(t, z, s, g);
        push_on_tier(&mut ops, active[i], &share);
        i += 1;
    }
    let routed: Vec<Op> = plan_routed(t, z, s, g, groups);
    push_here(&mut ops, &routed);
    let ghost before = ops@;
    let mut k: usize = 0;
    assert(ops@ =~= before + sums(active@, 0, t, *s));
    while k < active.len()
        invariant
            k <= active@.len(),
            allocated(*z, *s, g@),
            admitted(t, *z),
            active@.len() > 0 ==> z.tiers,
            ops@ == before + sums(active@, k as int, t, *s),
        decreases active@.len() - k,
    {
        let sum: Vec<TierOp> = plan_return(t, z, s, g);
        push_on_tier(&mut ops, active[k], &sum);
        k += 1;
        assert(ops@ =~= before + sums(active@, k as int, t, *s));
    }
    let combine: Vec<Op> = plan_combine(t, z, s, g, p);
    push_here(&mut ops, &combine);
    ops
}

} // verus!
