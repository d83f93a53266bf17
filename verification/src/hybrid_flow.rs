//! What the launches of a hybrid layer read and fill.

use vstd::prelude::*;

use crate::buffers::Buffer;
#[allow(unused_imports)]
use crate::dataflow::{reads, writes};
#[allow(unused_imports)]
use crate::flow::{
    live_after, live_after_all, live_grows, marked, sound, sound_concat, sound_to, supplied,
};
use crate::flow::Touches;
#[allow(unused_imports)]
use crate::graph::{routed_ops, LayerStep};
use crate::graph::Op;
#[allow(unused_imports)]
use crate::hybrid::{HybridKind, HybridShape};
#[allow(unused_imports)]
use crate::hybrid_graph::{delta_ops, full_ops, hybrid_ffn_ops, hybrid_ops, hybrid_tail_ops};
use crate::hybrid_graph::{HybridBuffer, HybridOp};
#[allow(unused_imports)]
use crate::hybrid_graph::HybridWeight;
#[allow(unused_imports)]
use crate::shape::Shape;

verus! {

/// A launch of a hybrid layer: one of its own, or one of its routed experts.
pub ghost enum HybridStep {
    Own(HybridOp),
    Routed(Op),
}

/// The buffers that every model has.
pub open spec fn common(v: Seq<Buffer>) -> Seq<HybridBuffer> {
    v.map_values(|b: Buffer| HybridBuffer::Common(b))
}

impl Touches for HybridStep {
    type Spot = HybridBuffer;

    open spec fn reads_of(self) -> Seq<HybridBuffer> {
        match self {
            HybridStep::Routed(op) => common(reads(op)),
            HybridStep::Own(op) => match op {
                HybridOp::RmsNorm { out, x, w } => seq![HybridBuffer::Common(x)],
                HybridOp::MatmulQ8 { out, w, x, in_dim, out_dim } => seq![x],
                HybridOp::MatmulF32 { out, w, x, in_dim, out_dim } => seq![x],
                HybridOp::Decay | HybridOp::Mix => seq![HybridBuffer::Small],
                HybridOp::ConvStep { il } => seq![HybridBuffer::Qkv, HybridBuffer::Window(il)],
                HybridOp::L2Norm | HybridOp::Split => seq![HybridBuffer::ConvOut],
                HybridOp::DeltaStep { il } => seq![
                    HybridBuffer::State(il),
                    HybridBuffer::Gq,
                    HybridBuffer::Gk,
                    HybridBuffer::Gv,
                    HybridBuffer::G,
                    HybridBuffer::Beta,
                ],
                HybridOp::HeadNorm { x, w, rows, dim } => seq![x],
                HybridOp::Swiglu { out, a, b, n } => seq![a, b],
                HybridOp::SplitGate => seq![HybridBuffer::Qfull],
                HybridOp::Rope { x, heads } => seq![HybridBuffer::Common(x)],
                HybridOp::KvAppend { cache, kv } => seq![
                    HybridBuffer::Common(cache),
                    HybridBuffer::Common(kv),
                ],
                HybridOp::Attention { il } => seq![
                    HybridBuffer::Common(Buffer::Q),
                    HybridBuffer::Common(Buffer::Kcache(il)),
                    HybridBuffer::Common(Buffer::Vcache(il)),
                ],
                HybridOp::SigmoidGate => seq![
                    HybridBuffer::Common(Buffer::Heads),
                    HybridBuffer::Gate,
                ],
                HybridOp::Add { out, a, b } => seq![
                    HybridBuffer::Common(a),
                    HybridBuffer::Common(b),
                ],
                HybridOp::RouterSelect => seq![HybridBuffer::Common(Buffer::RouterLogits)],
                HybridOp::ScaleShared => seq![
                    HybridBuffer::Common(Buffer::SharedOut),
                    HybridBuffer::SharedGate,
                ],
                HybridOp::ZeroShared => Seq::empty(),
                HybridOp::Quantize => seq![HybridBuffer::Common(Buffer::Normed)],
            },
        }
    }

    open spec fn fills_of(self) -> Seq<HybridBuffer> {
        match self {
            HybridStep::Routed(op) => common(writes(op)),
            HybridStep::Own(op) => match op {
                HybridOp::RmsNorm { out, x, w } => seq![HybridBuffer::Common(out)],
                HybridOp::MatmulQ8 { out, w, x, in_dim, out_dim } => seq![out],
                HybridOp::MatmulF32 { out, w, x, in_dim, out_dim } => seq![out],
                HybridOp::Decay => seq![HybridBuffer::G],
                HybridOp::Mix => seq![HybridBuffer::Beta],
                HybridOp::ConvStep { il } => seq![
                    HybridBuffer::ConvOut,
                    HybridBuffer::Window(il),
                ],
                HybridOp::L2Norm => seq![HybridBuffer::ConvOut],
                HybridOp::Split => seq![HybridBuffer::Gq, HybridBuffer::Gk, HybridBuffer::Gv],
                HybridOp::DeltaStep { il } => seq![HybridBuffer::GdnO, HybridBuffer::State(il)],
                HybridOp::HeadNorm { x, w, rows, dim } => seq![x],
                HybridOp::Swiglu { out, a, b, n } => seq![out],
                HybridOp::SplitGate => seq![
                    HybridBuffer::Common(Buffer::Q),
                    HybridBuffer::Gate,
                ],
                HybridOp::Rope { x, heads } => seq![HybridBuffer::Common(x)],
                HybridOp::KvAppend { cache, kv } => seq![HybridBuffer::Common(cache)],
                HybridOp::Attention { .. } | HybridOp::SigmoidGate => seq![
                    HybridBuffer::Common(Buffer::Heads),
                ],
                HybridOp::Add { out, a, b } => seq![HybridBuffer::Common(out)],
                HybridOp::RouterSelect => seq![
                    HybridBuffer::Common(Buffer::RouterSelected),
                    HybridBuffer::Common(Buffer::RouterWeights),
                ],
                HybridOp::ScaleShared | HybridOp::ZeroShared => seq![
                    HybridBuffer::Common(Buffer::SharedOut),
                ],
                HybridOp::Quantize => seq![HybridBuffer::Common(Buffer::Xq)],
            },
        }
    }
}

/// Launches of the layer's own.
pub open spec fn own(ops: Seq<HybridOp>) -> Seq<HybridStep> {
    ops.map_values(|op: HybridOp| HybridStep::Own(op))
}

/// Launches of its routed experts.
pub open spec fn routed(ops: Seq<Op>) -> Seq<HybridStep> {
    ops.map_values(|op: Op| HybridStep::Routed(op))
}

/// All launches of a hybrid layer: up to its experts, the experts, and what
/// follows them.
pub open spec fn hybrid_layer_ops(
    kind: HybridKind,
    h: HybridShape,
    s: Shape,
    shexp: bool,
    t: LayerStep,
    groups: Option<u32>,
) -> Seq<HybridStep> {
    own(hybrid_ops(t.il, kind, h, s, shexp)) + routed(routed_ops(t, s, groups)) + own(
        hybrid_tail_ops(),
    )
}

/// Whether the pointers that the routed experts run on have been uploaded.
pub open spec fn hybrid_pointed(groups: Option<u32>, live: Set<HybridBuffer>) -> bool {
    match groups {
        Some(_) => {
            &&& live.contains(HybridBuffer::Common(Buffer::GrpPtrs))
            &&& live.contains(HybridBuffer::Common(Buffer::GrpStarts))
            &&& live.contains(HybridBuffer::Common(Buffer::GrpPairs))
        },
        None => live.contains(HybridBuffer::Common(Buffer::ExpertPtrs)),
    }
}

/// Whether what a layer keeps between tokens is there: its recurrent state and
/// window, or its caches.
pub open spec fn kept(kind: HybridKind, il: u32, live: Set<HybridBuffer>) -> bool {
    match kind {
        HybridKind::Delta => {
            &&& live.contains(HybridBuffer::State(il))
            &&& live.contains(HybridBuffer::Window(il))
        },
        HybridKind::Full => {
            &&& live.contains(HybridBuffer::Common(Buffer::Kcache(il)))
            &&& live.contains(HybridBuffer::Common(Buffer::Vcache(il)))
        },
    }
}

proof fn delta_sound(il: u32, h: HybridShape, s: Shape, live: Set<HybridBuffer>)
    requires
        live.contains(HybridBuffer::Common(Buffer::Normed)),
        kept(HybridKind::Delta, il, live),
    ensures
        sound(own(delta_ops(il, h, s)), live),
        live_after_all(own(delta_ops(il, h, s)), live).contains(
            HybridBuffer::Common(Buffer::AttnOut),
        ),
{
    reveal_with_fuel(sound_to, 14);
    reveal_with_fuel(live_after, 14);
    reveal_with_fuel(marked, 4);
}

proof fn full_sound(il: u32, s: Shape, live: Set<HybridBuffer>)
    requires
        live.contains(HybridBuffer::Common(Buffer::Normed)),
        kept(HybridKind::Full, il, live),
    ensures
        sound(own(full_ops(il, s)), live),
        live_after_all(own(full_ops(il, s)), live).contains(
            HybridBuffer::Common(Buffer::AttnOut),
        ),
{
    reveal_with_fuel(sound_to, 14);
    reveal_with_fuel(live_after, 14);
    reveal_with_fuel(marked, 4);
}

proof fn ffn_sound(s: Shape, shexp: bool, live: Set<HybridBuffer>)
    requires
        live.contains(HybridBuffer::Common(Buffer::Cur)),
        live.contains(HybridBuffer::Common(Buffer::AttnOut)),
    ensures
        sound(own(hybrid_ffn_ops(s, shexp)), live),
        ({
            let after = live_after_all(own(hybrid_ffn_ops(s, shexp)), live);
            &&& after.contains(HybridBuffer::Common(Buffer::RouterWeights))
            &&& after.contains(HybridBuffer::Common(Buffer::Xq))
            &&& after.contains(HybridBuffer::Common(Buffer::SharedOut))
            &&& after.contains(HybridBuffer::Common(Buffer::AfterAttn))
        }),
{
    let ops = own(hybrid_ffn_ops(s, shexp));
    reveal_with_fuel(sound_to, 12);
    reveal_with_fuel(live_after, 12);
    reveal_with_fuel(marked, 3);
    if shexp {
        assert(ops.len() == 11);
    } else {
        assert(ops.len() == 6);
    }
}

proof fn routed_sound(t: LayerStep, s: Shape, groups: Option<u32>, live: Set<HybridBuffer>)
    requires
        hybrid_pointed(groups, live),
        live.contains(HybridBuffer::Common(Buffer::RouterWeights)),
        live.contains(HybridBuffer::Common(Buffer::Xq)),
    ensures
        sound(routed(routed_ops(t, s, groups)), live),
        live_after_all(routed(routed_ops(t, s, groups)), live).contains(
            HybridBuffer::Common(Buffer::MoeOut),
        ),
{
    let ops = routed(routed_ops(t, s, groups));
    reveal_with_fuel(sound_to, 5);
    reveal_with_fuel(live_after, 5);
    reveal_with_fuel(marked, 3);
    if groups is Some {
        assert(ops.len() == 4);
    } else {
        assert(ops.len() == 3);
    }
}

proof fn tail_sound(live: Set<HybridBuffer>)
    requires
        live.contains(HybridBuffer::Common(Buffer::MoeOut)),
        live.contains(HybridBuffer::Common(Buffer::SharedOut)),
        live.contains(HybridBuffer::Common(Buffer::AfterAttn)),
    ensures
        sound(own(hybrid_tail_ops()), live),
        live_after_all(own(hybrid_tail_ops()), live).contains(HybridBuffer::Common(Buffer::Cur)),
{
    reveal_with_fuel(sound_to, 3);
    reveal_with_fuel(live_after, 3);
    reveal_with_fuel(marked, 2);
}

/// A hybrid layer depends only on the residual stream, what it keeps between
/// tokens and the uploaded pointers, and fills the residual stream: no launch
/// reads a buffer before the layer fills it.
pub proof fn hybrid_layer_is_closed(
    kind: HybridKind,
    h: HybridShape,
    s: Shape,
    shexp: bool,
    t: LayerStep,
    groups: Option<u32>,
    live: Set<HybridBuffer>,
)
    requires
        live.contains(HybridBuffer::Common(Buffer::Cur)),
        kept(kind, t.il, live),
        hybrid_pointed(groups, live),
    ensures
        sound(hybrid_layer_ops(kind, h, s, shexp, t, groups), live),
        live_after_all(hybrid_layer_ops(kind, h, s, shexp, t, groups), live).contains(
            HybridBuffer::Common(Buffer::Cur),
        ),
{
    let norm_ops = seq![
        HybridOp::RmsNorm { out: Buffer::Normed, x: Buffer::Cur, w: HybridWeight::AttnNorm },
    ];
    let attend_ops = match kind {
        HybridKind::Delta => delta_ops(t.il, h, s),
        HybridKind::Full => full_ops(t.il, s),
    };
    let (a, b, c, d, e) = (
        own(norm_ops),
        own(attend_ops),
        own(hybrid_ffn_ops(s, shexp)),
        routed(routed_ops(t, s, groups)),
        own(hybrid_tail_ops()),
    );
    assert(sound(a, live)) by {
        reveal_with_fuel(sound_to, 2);
        reveal_with_fuel(live_after, 2);
    }
    let l1 = live_after_all(a, live);
    assert(l1.contains(HybridBuffer::Common(Buffer::Normed))) by {
        reveal_with_fuel(live_after, 2);
        reveal_with_fuel(marked, 2);
    }
    live_grows(a, a.len() as int, live);
    match kind {
        HybridKind::Delta => delta_sound(t.il, h, s, l1),
        HybridKind::Full => full_sound(t.il, s, l1),
    }
    let l2 = live_after_all(b, l1);
    live_grows(b, b.len() as int, l1);
    ffn_sound(s, shexp, l2);
    let l3 = live_after_all(c, l2);
    live_grows(c, c.len() as int, l2);
    routed_sound(t, s, groups, l3);
    let l4 = live_after_all(d, l3);
    live_grows(d, d.len() as int, l3);
    tail_sound(l4);
    sound_concat(a, b, live);
    sound_concat(a + b, c, live);
    sound_concat(a + b + c, d, live);
    sound_concat(a + b + c + d, e, live);
    assert(hybrid_layer_ops(kind, h, s, shexp, t, groups) =~= a + b + c + d + e);
}

} // verus!
