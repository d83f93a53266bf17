//! One transformer layer as a list of kernel launches, and why none of them
//! leaves its buffers.

use vstd::prelude::*;

use crate::attention::{heads_of, layer_heads, Heads, Rows, Selection};
use crate::buffers::{bytes_in, full_indexer, has_idx, measure, most, q8_bytes, room, Buffer, Measure, Sizing};
use crate::loader::{Geom, Role};
use crate::shape::{Family, Shape};

verus! {

/// Which device is current.
#[derive(Debug, Clone, Copy, PartialEq, Eq, Structural)]
pub enum Device {
    Primary,
    Attn,
}

/// A weight: the layer's own tensor, the next layer's, or the router's input
/// norm, which is worked out on load.
#[derive(Debug, Clone, Copy, PartialEq, Eq, Structural)]
pub enum Weight {
    Own(Role),
    Next(Role),
    RouterNorm,
}

/// A kernel launch or a switch of device. Real parameters that are the same
/// for a whole model are not repeated.
#[derive(Debug, Clone, Copy, PartialEq, Eq, Structural)]
pub enum Op {
    SetDevice(Device),
    RmsNorm { out: Buffer, x: Buffer, w: Weight, n: u32, rows: u32 },
    MatmulQ8 { out: Buffer, w: Weight, x: Buffer, in_dim: u32, out_dim: u32, rows: u32 },
    MatmulF32 { out: Buffer, w: Weight, x: Buffer, in_dim: u32, out_dim: u32, rows: u32 },
    /// Copy this many values, between any two devices.
    Copy { dst: Buffer, src: Buffer, n: u32 },
    Zero { x: Buffer, n: u32 },
    Add { out: Buffer, a: Buffer, b: Buffer, n: u32 },
    Swiglu { out: Buffer, a: Buffer, b: Buffer, n: u32 },
    Quantize { out: Buffer, x: Buffer, dim: u32, rows: u32 },
    HeadNorm { x: Buffer, norm: Option<Role>, rows: u32, dim: u32 },
    Rope { x: Buffer, heads: u32, dim: u32, rot: u32, theta: u32, factors: bool },
    KvAppend { cache: Buffer, kv: Buffer, heads: u32, dim: u32 },
    /// `unit` scores at scale one instead of by head width.
    GqaAttention { il: u32, heads_kv: u32, dim: u32, window: u32, unit: bool },
    MlaRope,
    MlaKvNorm,
    MlaStore { il: u32 },
    IdxStore { il: u32 },
    FillRange { visible: u32 },
    IdxRope,
    /// `one` when there is a single row, which has kernels of its own.
    IdxScores { il: u32, visible: u32, one: bool },
    IdxTopk { visible: u32, topk: u32, one: bool },
    MlaQkLow,
    MlaAttention { il: u32, selected: u32 },
    RouterSelect { next: bool },
    RouterScale,
    MoePair,
    MoeDown,
    MoePairGrouped { groups: u32 },
    /// Partial sums go to an arena that grows with its use.
    MoeDownGrouped { groups: u32 },
    MoeSlotSum,
}

/// What a layer step depends on besides the model.
#[derive(Debug, Clone, Copy, PartialEq, Eq, Structural)]
pub struct LayerStep {
    pub il: u32,
    pub n_tok: u32,
    pub pos0: u32,
}

/// What a layer has.
#[derive(Debug, Clone, Copy, PartialEq, Eq, Structural)]
pub struct LayerParts {
    /// A value projection of its own; without one the keys serve as values.
    pub attn_v: bool,
    /// The Gemma layout.
    pub gemma: bool,
    /// A shared expert.
    pub shexp: bool,
    /// Scales for its experts' outputs.
    pub down_scale: bool,
}

/// Bytes that a launch reads or writes in each of its buffers.
pub open spec fn accesses(op: Op, t: LayerStep, z: Sizing, s: Shape) -> Seq<(Buffer, int)> {
    let n = t.n_tok as int;
    let ctx = z.ctx as int;
    let qk = s.qk_nope + s.qk_rope;
    let raw = s.n_kv_lora + s.qk_rope;
    match op {
        Op::SetDevice(_) => Seq::empty(),
        Op::RmsNorm { out, x, w, n, rows } => seq![(out, rows * n * 4), (x, rows * n * 4)],
        Op::MatmulQ8 { out, w, x, in_dim, out_dim, rows } => seq![
            (out, rows * out_dim * 4),
            (x, rows * in_dim * 4),
        ],
        Op::MatmulF32 { out, w, x, in_dim, out_dim, rows } => seq![
            (out, rows * out_dim * 4),
            (x, rows * in_dim * 4),
        ],
        Op::Copy { dst, src, n } => seq![(dst, n * 4), (src, n * 4)],
        Op::Zero { x, n } => seq![(x, n * 4)],
        Op::Add { out, a, b, n } => seq![(out, n * 4), (a, n * 4), (b, n * 4)],
        Op::Swiglu { out, a, b, n } => seq![(out, n * 4), (a, n * 4), (b, n * 4)],
        Op::Quantize { out, x, dim, rows } => seq![
            (out, q8_bytes(rows as int, dim as int)),
            (x, rows * dim * 4),
        ],
        Op::HeadNorm { x, norm, rows, dim } => seq![(x, rows * dim * 4)],
        Op::Rope { x, heads, dim, rot, theta, factors } => seq![(x, n * heads * dim * 4)],
        Op::KvAppend { cache, kv, heads, dim } => seq![
            (cache, heads * ctx * dim * 4),
            (kv, n * heads * dim * 4),
        ],
        Op::GqaAttention { il, heads_kv, dim, window, unit } => seq![
            (Buffer::Heads, n * s.n_head * dim * 4),
            (Buffer::Q, n * s.n_head * dim * 4),
            (Buffer::Kcache(il), heads_kv * ctx * dim * 4),
            (Buffer::Vcache(il), heads_kv * ctx * dim * 4),
        ],
        Op::MlaRope => seq![(Buffer::Q, n * s.n_head * qk * 4)],
        Op::MlaKvNorm => seq![
            (Buffer::KvNorm, n * s.n_kv_lora * 4),
            (Buffer::KvRaw, n * raw * 4),
        ],
        Op::MlaStore { il } => seq![
            (Buffer::Kcache(il), ctx * s.n_kv_lora * 4),
            (Buffer::Vcache(il), ctx * s.qk_rope * 4),
            (Buffer::KvNorm, n * s.n_kv_lora * 4),
            (Buffer::KvRaw, n * raw * 4),
        ],
        Op::IdxStore { il } => seq![
            (Buffer::IdxKraw, n * s.n_idx_dim * 4),
            (Buffer::IdxKcache(il), ctx * s.n_idx_dim * 4),
        ],
        Op::FillRange { visible } => seq![(Buffer::MlaSelected, n * visible * 4)],
        Op::IdxRope => seq![(Buffer::IdxQ, n * s.n_idx_head * s.n_idx_dim * 4)],
        Op::IdxScores { il, visible, one } => seq![
            (Buffer::IdxScores, n * visible * 4),
            (Buffer::IdxQ, n * s.n_idx_head * s.n_idx_dim * 4),
            (Buffer::IdxW, n * s.n_idx_head * 4),
            (Buffer::IdxKcache(il), visible * s.n_idx_dim * 4),
        ],
        Op::IdxTopk { visible, topk, one } => seq![
            (Buffer::MlaSelected, n * topk * 4),
            (Buffer::IdxScores, n * visible * 4),
        ],
        Op::MlaQkLow => seq![
            (Buffer::QkLow, n * s.n_head * s.n_kv_lora * 4),
            (Buffer::Q, n * s.n_head * qk * 4),
        ],
        Op::MlaAttention { il, selected } => seq![
            (Buffer::Heads, n * s.n_head * s.value_mla * 4),
            (Buffer::Q, n * s.n_head * qk * 4),
            (Buffer::QkLow, n * s.n_head * s.n_kv_lora * 4),
            (Buffer::Kcache(il), ctx * s.n_kv_lora * 4),
            (Buffer::Vcache(il), ctx * s.qk_rope * 4),
            (Buffer::MlaSelected, n * selected * 4),
        ],
        Op::RouterSelect { next } => if next {
            seq![
                (Buffer::PredSelected, s.n_expert_used * 4),
                (Buffer::PredWeights, s.n_expert_used * 4),
                (Buffer::PredLogits, s.n_expert * 4),
            ]
        } else {
            seq![
                (Buffer::RouterSelected, n * s.n_expert_used * 4),
                (Buffer::RouterWeights, n * s.n_expert_used * 4),
                (Buffer::RouterLogits, n * s.n_expert * 4),
            ]
        },
        Op::RouterScale => seq![
            (Buffer::RouterWeights, n * s.n_expert_used * 4),
            (Buffer::RouterSelected, n * s.n_expert_used * 4),
        ],
        Op::MoePair => seq![
            (Buffer::MoeMid, n * s.n_expert_used * s.n_ff_exp * 4),
            (Buffer::ExpertPtrs, n * s.n_expert_used * 24),
            (Buffer::RouterWeights, n * s.n_expert_used * 4),
            (Buffer::Xq, q8_bytes(n, s.n_embd as int)),
        ],
        Op::MoeDown => seq![
            (Buffer::MoeOut, n * s.n_embd * 4),
            (Buffer::ExpertPtrs, n * s.n_expert_used * 24),
            (Buffer::Midq, q8_bytes(n * s.n_expert_used, s.n_ff_exp as int)),
        ],
        Op::MoePairGrouped { groups } => seq![
            (Buffer::MoeMid, n * s.n_expert_used * s.n_ff_exp * 4),
            (Buffer::GrpPtrs, groups * 24),
            (Buffer::GrpStarts, (groups + 1) * 4),
            (Buffer::GrpPairs, n * s.n_expert_used * 4),
            (Buffer::RouterWeights, n * s.n_expert_used * 4),
            (Buffer::Xq, q8_bytes(n, s.n_embd as int)),
        ],
        Op::MoeDownGrouped { groups } => seq![
            (Buffer::GrpPtrs, groups * 24),
            (Buffer::GrpStarts, (groups + 1) * 4),
            (Buffer::GrpPairs, n * s.n_expert_used * 4),
            (Buffer::Midq, q8_bytes(n * s.n_expert_used, s.n_ff_exp as int)),
        ],
        Op::MoeSlotSum => seq![(Buffer::MoeOut, n * s.n_embd * 4)],
    }
}

/// Bytes that a buffer holds.
pub open spec fn capacity(b: Buffer, z: Sizing, s: Shape, g: Seq<Geom>) -> int {
    room(b, z, s, g)
}

/// Whether a launch stays inside its buffers.
pub open spec fn fits(op: Op, t: LayerStep, z: Sizing, s: Shape, g: Seq<Geom>) -> bool {
    forall|i: int|
        0 <= i < accesses(op, t, z, s).len() ==> {
            let a = #[trigger] accesses(op, t, z, s)[i];
            a.1 <= capacity(a.0, z, s, g)
        }
}

/// Whether every launch of a list does.
pub open spec fn all_fit(ops: Seq<Op>, t: LayerStep, z: Sizing, s: Shape, g: Seq<Geom>) -> bool {
    forall|i: int| 0 <= i < ops.len() ==> fits(#[trigger] ops[i], t, z, s, g)
}

/// Whether every buffer has a size.
pub open spec fn allocated(z: Sizing, s: Shape, g: Seq<Geom>) -> bool {
    forall|b: Buffer|
        bytes_in(#[trigger] measure(b, z, s, g)) is Some && room(b, z, s, g) <= usize::MAX
}

/// A step that was let through: some tokens, no more than a batch, all within
/// the context.
pub open spec fn admitted(t: LayerStep, z: Sizing) -> bool {
    &&& 1 <= t.n_tok <= z.mb
    &&& t.pos0 + t.n_tok <= z.ctx
}

/// Tells whether a step can be let through.
pub fn admits(t: LayerStep, z: &Sizing) -> (r: bool)
    ensures
        r == admitted(t, *z),
{
    1 <= t.n_tok && t.n_tok <= z.mb && t.n_tok <= z.ctx && t.pos0 <= z.ctx - t.n_tok
}

/// Whether no layer's heads are wider than those the buffers are made for.
pub open spec fn geometry_within(s: Shape, g: Seq<Geom>) -> bool {
    forall|i: int|
        0 <= i < g.len() ==> (#[trigger] g[i]).n_head_kv <= s.n_head_kv && g[i].head_dim
            <= s.head_dim
}

/// Tells whether no layer's heads are wider than those the buffers are made for.
pub fn geometry_fits(s: &Shape, g: &[Geom]) -> (r: bool)
    ensures
        r == geometry_within(*s, g@),
{
    let mut i: usize = 0;
    while i < g.len()
        invariant
            i <= g@.len(),
            geometry_within(*s, g@.take(i as int)),
        decreases g@.len() - i,
    {
        if g[i].n_head_kv > s.n_head_kv || g[i].head_dim > s.head_dim {
            assert(!(g@[i as int].n_head_kv <= s.n_head_kv && g@[i as int].head_dim
                <= s.head_dim));
            return false;
        }
        assert forall|k: int| 0 <= k < i + 1 implies (#[trigger] g@.take(i + 1)[k]).n_head_kv
            <= s.n_head_kv && g@.take(i + 1)[k].head_dim <= s.head_dim by {
            if k < i {
                assert(g@.take(i as int)[k] == g@[k]);
            }
        }
        i += 1;
    }
    assert(g@.take(i as int) =~= g@);
    true
}

/// Layer `il`'s own geometry, where layers differ.
pub open spec fn geom_at(g: Seq<Geom>, il: u32) -> Option<Geom> {
    if il < g.len() {
        Some(g[il as int])
    } else {
        None
    }
}

/// Grouped-query attention up to the heads' outputs.
pub open spec fn gqa_ops(t: LayerStep, s: Shape, g: Option<Geom>, p: LayerParts) -> Seq<Op> {
    let h = heads_of(s, g);
    let n = t.n_tok;
    let kv = (h.n_head_kv * h.head_dim) as u32;
    let values = if p.attn_v {
        Op::MatmulQ8 {
            out: Buffer::V,
            w: Weight::Own(Role::AttnV),
            x: Buffer::Normed,
            in_dim: s.n_embd,
            out_dim: kv,
            rows: n,
        }
    } else {
        Op::Copy { dst: Buffer::V, src: Buffer::K, n: (n * kv) as u32 }
    };
    let value_norm = if g is Some {
        seq![
            Op::HeadNorm {
                x: Buffer::V,
                norm: None,
                rows: (n * h.n_head_kv) as u32,
                dim: h.head_dim,
            },
        ]
    } else {
        Seq::empty()
    };
    seq![
        Op::RmsNorm {
            out: Buffer::Normed,
            x: Buffer::Cur,
            w: Weight::Own(Role::AttnNorm),
            n: s.n_embd,
            rows: n,
        },
        Op::MatmulQ8 {
            out: Buffer::Q,
            w: Weight::Own(Role::AttnQ),
            x: Buffer::Normed,
            in_dim: s.n_embd,
            out_dim: (s.n_head * h.head_dim) as u32,
            rows: n,
        },
        Op::MatmulQ8 {
            out: Buffer::K,
            w: Weight::Own(Role::AttnK),
            x: Buffer::Normed,
            in_dim: s.n_embd,
            out_dim: kv,
            rows: n,
        },
        values,
        Op::HeadNorm {
            x: Buffer::Q,
            norm: Some(Role::AttnQNorm),
            rows: (n * s.n_head) as u32,
            dim: h.head_dim,
        },
        Op::HeadNorm {
            x: Buffer::K,
            norm: Some(Role::AttnKNorm),
            rows: (n * h.n_head_kv) as u32,
            dim: h.head_dim,
        },
    ] + value_norm + seq![
        Op::Rope {
            x: Buffer::Q,
            heads: s.n_head,
            dim: h.head_dim,
            rot: h.rot_dim,
            theta: h.theta,
            factors: h.factors,
        },
        Op::Rope {
            x: Buffer::K,
            heads: h.n_head_kv,
            dim: h.head_dim,
            rot: h.rot_dim,
            theta: h.theta,
            factors: h.factors,
        },
        Op::KvAppend {
            cache: Buffer::Kcache(t.il),
            kv: Buffer::K,
            heads: h.n_head_kv,
            dim: h.head_dim,
        },
        Op::KvAppend {
            cache: Buffer::Vcache(t.il),
            kv: Buffer::V,
            heads: h.n_head_kv,
            dim: h.head_dim,
        },
        Op::GqaAttention {
            il: t.il,
            heads_kv: h.n_head_kv,
            dim: h.head_dim,
            window: h.window,
            unit: g is Some,
        },
    ]
}

/// Latent attention up to the compact KV cache.
pub open spec fn mla_head_ops(t: LayerStep, s: Shape, attn_dev: bool) -> Seq<Op> {
    let n = t.n_tok;
    let xin = if attn_dev {
        Buffer::NormedA
    } else {
        Buffer::Normed
    };
    let hop = if attn_dev {
        seq![
            Op::Copy { dst: Buffer::NormedA, src: Buffer::Normed, n: (n * s.n_embd) as u32 },
            Op::SetDevice(Device::Attn),
        ]
    } else {
        Seq::empty()
    };
    seq![
        Op::RmsNorm {
            out: Buffer::Normed,
            x: Buffer::Cur,
            w: Weight::Own(Role::AttnNorm),
            n: s.n_embd,
            rows: n,
        },
    ] + hop + seq![
        Op::MatmulQ8 {
            out: Buffer::QRank,
            w: Weight::Own(Role::AttnQA),
            x: xin,
            in_dim: s.n_embd,
            out_dim: s.n_lora_q,
            rows: n,
        },
        Op::RmsNorm {
            out: Buffer::QRankNorm,
            x: Buffer::QRank,
            w: Weight::Own(Role::AttnQANorm),
            n: s.n_lora_q,
            rows: n,
        },
        Op::MatmulQ8 {
            out: Buffer::Q,
            w: Weight::Own(Role::AttnQB),
            x: Buffer::QRankNorm,
            in_dim: s.n_lora_q,
            out_dim: (s.n_head * (s.qk_nope + s.qk_rope)) as u32,
            rows: n,
        },
        Op::MlaRope,
        Op::MatmulQ8 {
            out: Buffer::KvRaw,
            w: Weight::Own(Role::AttnKvA),
            x: xin,
            in_dim: s.n_embd,
            out_dim: (s.n_kv_lora + s.qk_rope) as u32,
            rows: n,
        },
        Op::MlaKvNorm,
        Op::MlaStore { il: t.il },
    ]
}

/// The indexer's keys for the rows of this step.
pub open spec fn idx_key_ops(t: LayerStep, s: Shape, attn_dev: bool) -> Seq<Op> {
    let xin = if attn_dev {
        Buffer::NormedA
    } else {
        Buffer::Normed
    };
    seq![
        Op::MatmulQ8 {
            out: Buffer::IdxKraw,
            w: Weight::Own(Role::IndexerK),
            x: xin,
            in_dim: s.n_embd,
            out_dim: s.n_idx_dim,
            rows: t.n_tok,
        },
        Op::IdxStore { il: t.il },
    ]
}

/// The indexer's scores, and the best rows by them.
pub open spec fn idx_score_ops(t: LayerStep, s: Shape, attn_dev: bool, topk: u32) -> Seq<Op> {
    let n = t.n_tok;
    let visible = (t.pos0 + n) as u32;
    let residual = if attn_dev {
        Buffer::AttnOutA
    } else {
        Buffer::Cur
    };
    let hop = if attn_dev {
        seq![Op::Copy { dst: Buffer::AttnOutA, src: Buffer::Cur, n: (n * s.n_embd) as u32 }]
    } else {
        Seq::empty()
    };
    seq![
        Op::MatmulQ8 {
            out: Buffer::IdxQ,
            w: Weight::Own(Role::IndexerQB),
            x: Buffer::QRankNorm,
            in_dim: s.n_lora_q,
            out_dim: (s.n_idx_head * s.n_idx_dim) as u32,
            rows: n,
        },
        Op::IdxRope,
    ] + hop + seq![
        Op::MatmulF32 {
            out: Buffer::IdxW,
            w: Weight::Own(Role::IndexerProj),
            x: residual,
            in_dim: s.n_embd,
            out_dim: s.n_idx_head,
            rows: n,
        },
        Op::IdxScores { il: t.il, visible, one: n == 1 },
        Op::IdxTopk { visible, topk, one: n == 1 },
    ]
}

/// The row selection of latent attention.
pub open spec fn mla_select_ops(
    t: LayerStep,
    s: Shape,
    attn_dev: bool,
    keeps_keys: bool,
    rows: Rows,
) -> Seq<Op> {
    let keys = if keeps_keys {
        idx_key_ops(t, s, attn_dev)
    } else {
        Seq::empty()
    };
    let choice = match rows.how {
        Selection::Range => seq![Op::FillRange { visible: (t.pos0 + t.n_tok) as u32 }],
        Selection::Reuse => Seq::empty(),
        Selection::Score => idx_score_ops(t, s, attn_dev, rows.count),
    };
    keys + choice
}

/// Latent attention over the selected rows, and the output projection.
pub open spec fn mla_tail_ops(t: LayerStep, s: Shape, attn_dev: bool, selected: u32) -> Seq<Op> {
    let n = t.n_tok;
    let project = if attn_dev {
        seq![
            Op::MatmulQ8 {
                out: Buffer::AttnOutA,
                w: Weight::Own(Role::AttnOutput),
                x: Buffer::Heads,
                in_dim: s.heads_width() as u32,
                out_dim: s.n_embd,
                rows: n,
            },
            Op::Copy { dst: Buffer::AttnOut, src: Buffer::AttnOutA, n: (n * s.n_embd) as u32 },
            Op::SetDevice(Device::Primary),
        ]
    } else {
        seq![
            Op::MatmulQ8 {
                out: Buffer::AttnOut,
                w: Weight::Own(Role::AttnOutput),
                x: Buffer::Heads,
                in_dim: s.heads_width() as u32,
                out_dim: s.n_embd,
                rows: n,
            },
        ]
    };
    seq![Op::MlaQkLow, Op::MlaAttention { il: t.il, selected }] + project
}

/// A whole latent attention block.
pub open spec fn mla_ops(
    t: LayerStep,
    s: Shape,
    attn_dev: bool,
    keeps_keys: bool,
    rows: Rows,
) -> Seq<Op> {
    mla_head_ops(t, s, attn_dev) + mla_select_ops(t, s, attn_dev, keeps_keys, rows) + mla_tail_ops(
        t,
        s,
        attn_dev,
        rows.count,
    )
}

/// A whole grouped-query attention block.
pub open spec fn gqa_block_ops(t: LayerStep, s: Shape, g: Option<Geom>, p: LayerParts) -> Seq<Op> {
    gqa_ops(t, s, g, p) + seq![
        Op::MatmulQ8 {
            out: Buffer::AttnOut,
            w: Weight::Own(Role::AttnOutput),
            x: Buffer::Heads,
            in_dim: (s.n_head * heads_of(s, g).head_dim) as u32,
            out_dim: s.n_embd,
            rows: t.n_tok,
        },
    ]
}

/// From attention's output to the feed-forward block's input.
pub open spec fn residual_ops(t: LayerStep, s: Shape, p: LayerParts) -> Seq<Op> {
    let n = t.n_tok;
    let norm = if p.gemma {
        seq![
            Op::RmsNorm {
                out: Buffer::AttnOut,
                x: Buffer::AttnOut,
                w: Weight::Own(Role::PostAttnNorm),
                n: s.n_embd,
                rows: n,
            },
        ]
    } else {
        Seq::empty()
    };
    norm + seq![
        Op::Add {
            out: Buffer::AfterAttn,
            a: Buffer::Cur,
            b: Buffer::AttnOut,
            n: (n * s.n_embd) as u32,
        },
        Op::RmsNorm {
            out: Buffer::Normed,
            x: Buffer::AfterAttn,
            w: Weight::Own(Role::FfnNorm),
            n: s.n_embd,
            rows: n,
        },
    ]
}

/// A gated feed-forward pass of width `w` into `out`.
pub open spec fn gated_ops(
    t: LayerStep,
    s: Shape,
    gate: Role,
    up: Role,
    down: Role,
    w: u32,
    out: Buffer,
) -> Seq<Op> {
    let n = t.n_tok;
    seq![
        Op::MatmulQ8 {
            out: Buffer::GateAct,
            w: Weight::Own(gate),
            x: Buffer::Normed,
            in_dim: s.n_embd,
            out_dim: w,
            rows: n,
        },
        Op::MatmulQ8 {
            out: Buffer::UpAct,
            w: Weight::Own(up),
            x: Buffer::Normed,
            in_dim: s.n_embd,
            out_dim: w,
            rows: n,
        },
        Op::Swiglu {
            out: Buffer::FfnMid,
            a: Buffer::GateAct,
            b: Buffer::UpAct,
            n: (n * w) as u32,
        },
        Op::MatmulQ8 {
            out,
            w: Weight::Own(down),
            x: Buffer::FfnMid,
            in_dim: w,
            out_dim: s.n_embd,
            rows: n,
        },
    ]
}

/// A dense feed-forward block.
pub open spec fn dense_ops(t: LayerStep, s: Shape) -> Seq<Op> {
    gated_ops(
        t,
        s,
        Role::FfnGate,
        Role::FfnUp,
        Role::FfnDown,
        s.n_ff_dense,
        Buffer::FfnOut,
    ) + seq![
        Op::Add {
            out: Buffer::Cur,
            a: Buffer::AfterAttn,
            b: Buffer::FfnOut,
            n: (t.n_tok * s.n_embd) as u32,
        },
    ]
}

/// Routing, and the routing predicted for the next layer.
pub open spec fn router_ops(t: LayerStep, s: Shape, p: LayerParts, predict: bool) -> Seq<Op> {
    let n = t.n_tok;
    let own = if p.gemma {
        seq![
            Op::RmsNorm {
                out: Buffer::AttnOut,
                x: Buffer::AfterAttn,
                w: Weight::RouterNorm,
                n: s.n_embd,
                rows: n,
            },
            Op::MatmulF32 {
                out: Buffer::RouterLogits,
                w: Weight::Own(Role::GateInp),
                x: Buffer::AttnOut,
                in_dim: s.n_embd,
                out_dim: s.n_expert,
                rows: n,
            },
        ]
    } else {
        seq![
            Op::MatmulF32 {
                out: Buffer::RouterLogits,
                w: Weight::Own(Role::GateInp),
                x: Buffer::Normed,
                in_dim: s.n_embd,
                out_dim: s.n_expert,
                rows: n,
            },
        ]
    };
    let scale = if p.down_scale {
        seq![Op::RouterScale]
    } else {
        Seq::empty()
    };
    let ahead = if predict {
        seq![
            Op::MatmulF32 {
                out: Buffer::PredLogits,
                w: Weight::Next(Role::GateInp),
                x: Buffer::Normed,
                in_dim: s.n_embd,
                out_dim: s.n_expert,
                rows: 1,
            },
            Op::RouterSelect { next: true },
        ]
    } else {
        Seq::empty()
    };
    own + seq![Op::RouterSelect { next: false }] + scale + ahead
}

/// The shared expert, launched while the routed ones are still on their way,
/// and their activations.
pub open spec fn shared_ops(t: LayerStep, s: Shape, p: LayerParts) -> Seq<Op> {
    let n = t.n_tok;
    let width = if p.gemma {
        s.n_ff_dense
    } else {
        s.n_ff_exp
    };
    let shared = if p.shexp {
        gated_ops(
            t,
            s,
            Role::GateShexp,
            Role::UpShexp,
            Role::DownShexp,
            width,
            Buffer::SharedOut,
        ) + norm_ops(t, s, p, Buffer::SharedOut, Role::PostFfwNorm1)
    } else {
        seq![Op::Zero { x: Buffer::SharedOut, n: (n * s.n_embd) as u32 }]
    };
    let own_norm = if p.gemma {
        seq![
            Op::RmsNorm {
                out: Buffer::Normed,
                x: Buffer::AfterAttn,
                w: Weight::Own(Role::PreFfwNorm2),
                n: s.n_embd,
                rows: n,
            },
        ]
    } else {
        Seq::empty()
    };
    shared + own_norm + seq![
        Op::Quantize { out: Buffer::Xq, x: Buffer::Normed, dim: s.n_embd, rows: n },
    ]
}

/// Routed and shared experts' outputs back into the residual stream.
pub open spec fn combine_ops(t: LayerStep, s: Shape, p: LayerParts) -> Seq<Op> {
    let n = t.n_tok;
    let row = (n * s.n_embd) as u32;
    norm_ops(t, s, p, Buffer::MoeOut, Role::PostFfwNorm2) + seq![
        Op::Add { out: Buffer::FfnOut, a: Buffer::MoeOut, b: Buffer::SharedOut, n: row },
    ] + norm_ops(t, s, p, Buffer::FfnOut, Role::PostFfwNorm) + seq![
        Op::Add { out: Buffer::Cur, a: Buffer::AfterAttn, b: Buffer::FfnOut, n: row },
    ]
}

/// In the Gemma layout, a norm of `x` in place.
pub open spec fn norm_ops(t: LayerStep, s: Shape, p: LayerParts, x: Buffer, r: Role) -> Seq<Op> {
    if p.gemma {
        seq![Op::RmsNorm { out: x, x, w: Weight::Own(r), n: s.n_embd, rows: t.n_tok }]
    } else {
        Seq::empty()
    }
}

pub(crate) proof fn scaled(a: int, b: int, w: int)
    requires
        0 <= a <= b,
        0 <= w,
    ensures
        0 <= a * w <= b * w,
{
    assert(0 <= a * w <= b * w) by (nonlinear_arith)
        requires
            0 <= a <= b,
            0 <= w,
    ;
}

/// A product of three grows with each factor.
pub(crate) proof fn scaled3(a: int, b: int, c: int, x: int, y: int, z: int)
    requires
        0 <= a <= x,
        0 <= b <= y,
        0 <= c <= z,
    ensures
        0 <= a * b * c <= x * y * z,
        0 <= a * b <= x * y,
{
    scaled(a, x, b);
    assert(x * b <= x * y) by (nonlinear_arith)
        requires
            0 <= x,
            b <= y,
    ;
    scaled(a * b, x * y, c);
    let p = x * y;
    assert(p * c <= p * z) by (nonlinear_arith)
        requires
            0 <= p,
            c <= z,
    ;
}

/// What fits once per token of a batch fits once.
proof fn one_of_many(n: int, w: int)
    requires
        1 <= n,
        0 <= w,
    ensures
        w <= n * w,
{
    assert(w <= n * w) by (nonlinear_arith)
        requires
            1 <= n,
            0 <= w,
    ;
}

pub(crate) proof fn row_fits(t: LayerStep, z: Sizing, s: Shape, g: Seq<Geom>)
    requires
        allocated(z, s, g),
        admitted(t, z),
    ensures
        0 <= t.n_tok * s.n_embd <= z.mb * s.n_embd <= u32::MAX,
{
    assert(bytes_in(measure(Buffer::Cur, z, s, g)) is Some);
    scaled(t.n_tok as int, z.mb as int, s.n_embd as int);
}

proof fn gqa_fits(t: LayerStep, z: Sizing, s: Shape, g: Seq<Geom>)
    requires
        allocated(z, s, g),
        admitted(t, z),
        geometry_within(s, g),
        s.head_dim > 0,
    ensures
        ({
            let h = heads_of(s, geom_at(g, t.il));
            let n = t.n_tok as int;
            &&& h.n_head_kv <= s.n_head_kv
            &&& h.head_dim <= s.head_dim
            &&& 0 <= h.n_head_kv * h.head_dim <= u32::MAX
            &&& 0 <= n * (h.n_head_kv * h.head_dim) <= z.mb * s.n_head_kv * s.head_dim <= u32::MAX
            &&& n * h.n_head_kv * h.head_dim == n * (h.n_head_kv * h.head_dim)
            &&& 0 <= s.n_head * h.head_dim <= u32::MAX
            &&& 0 <= n * s.n_head * h.head_dim <= z.mb * s.n_head * s.head_dim <= u32::MAX
            &&& n * s.n_head * h.head_dim == n * (s.n_head * h.head_dim)
            &&& 0 <= n * s.n_head <= u32::MAX
            &&& 0 <= n * h.n_head_kv <= u32::MAX
        }),
{
    let h = heads_of(s, geom_at(g, t.il));
    if t.il < g.len() {
        assert(g[t.il as int].n_head_kv <= s.n_head_kv);
    }
    let (n, m) = (t.n_tok as int, z.mb as int);
    let (kv, hd, nh) = (h.n_head_kv as int, h.head_dim as int, s.n_head as int);
    let (skv, shd) = (s.n_head_kv as int, s.head_dim as int);
    assert(bytes_in(measure(Buffer::K, z, s, g)) is Some);
    assert(bytes_in(measure(Buffer::Q, z, s, g)) is Some);
    let wide = most(shd, s.qk_nope + s.qk_rope);
    scaled3(n, kv, hd, m, skv, shd);
    scaled3(n, nh, hd, m, nh, shd);
    scaled3(m, nh, shd, m, nh, wide);
    assert(n * kv * hd == n * (kv * hd)) by (nonlinear_arith);
    assert(n * nh * hd == n * (nh * hd)) by (nonlinear_arith);
    assert(0 <= kv * hd && 0 <= nh * hd) by (nonlinear_arith)
        requires
            0 <= kv,
            0 <= hd,
            0 <= nh,
    ;
    one_of_many(n, kv * hd);
    one_of_many(n, nh * hd);
    scaled3(n, nh, 1, m, nh, shd);
    scaled3(n, kv, 1, m, skv, shd);
    assert(n * nh * 1 == n * nh && n * kv * 1 == n * kv) by (nonlinear_arith);
}

pub(crate) fn times(a: u32, b: u32) -> (r: u32)
    requires
        a * b <= u32::MAX,
    ensures
        r == a * b,
{
    proof {
        scaled(0, a as int, b as int);
    }
    a * b
}

/// Lists the launches of a grouped-query attention block.
pub fn plan_gqa(t: LayerStep, z: &Sizing, s: &Shape, g: &[Geom], p: LayerParts) -> (ops: Vec<Op>)
    requires
        allocated(*z, *s, g@),
        admitted(t, *z),
        geometry_within(*s, g@),
        s.head_dim > 0,
    ensures
        ops@ == gqa_block_ops(t, *s, geom_at(g@, t.il), p),
        t.il < g@.len() ==> ops@ == gqa_block_ops(t, *s, Some(g@[t.il as int]), p),
        t.il >= g@.len() ==> ops@ == gqa_block_ops(t, *s, None, p),
{
    proof {
        gqa_fits(t, *z, *s, g@);
    }
    let own: Option<Geom> = if (t.il as usize) < g.len() {
        Some(g[t.il as usize])
    } else {
        None
    };
    let h: Heads = layer_heads(s, own);
    let n: u32 = t.n_tok;
    let kv: u32 = times(h.n_head_kv, h.head_dim);
    let qw: u32 = times(s.n_head, h.head_dim);
    let mut ops: Vec<Op> = Vec::new();
    ops.push(
        Op::RmsNorm {
            out: Buffer::Normed,
            x: Buffer::Cur,
            w: Weight::Own(Role::AttnNorm),
            n: s.n_embd,
            rows: n,
        },
    );
    ops.push(
        Op::MatmulQ8 {
            out: Buffer::Q,
            w: Weight::Own(Role::AttnQ),
            x: Buffer::Normed,
            in_dim: s.n_embd,
            out_dim: qw,
            rows: n,
        },
    );
    ops.push(
        Op::MatmulQ8 {
            out: Buffer::K,
            w: Weight::Own(Role::AttnK),
            x: Buffer::Normed,
            in_dim: s.n_embd,
            out_dim: kv,
            rows: n,
        },
    );
    if p.attn_v {
        ops.push(
            Op::MatmulQ8 {
                out: Buffer::V,
                w: Weight::Own(Role::AttnV),
                x: Buffer::Normed,
                in_dim: s.n_embd,
                out_dim: kv,
                rows: n,
            },
        );
    } else {
        ops.push(Op::Copy { dst: Buffer::V, src: Buffer::K, n: times(n, kv) });
    }
    ops.push(
        Op::HeadNorm {
            x: Buffer::Q,
            norm: Some(Role::AttnQNorm),
            rows: times(n, s.n_head),
            dim: h.head_dim,
        },
    );
    ops.push(
        Op::HeadNorm {
            x: Buffer::K,
            norm: Some(Role::AttnKNorm),
            rows: times(n, h.n_head_kv),
            dim: h.head_dim,
        },
    );
    if own.is_some() {
        ops.push(
            Op::HeadNorm {
                x: Buffer::V,
                norm: None,
                rows: times(n, h.n_head_kv),
                dim: h.head_dim,
            },
        );
    }
    ops.push(
        Op::Rope {
            x: Buffer::Q,
            heads: s.n_head,
            dim: h.head_dim,
            rot: h.rot_dim,
            theta: h.theta,
            factors: h.factors,
        },
    );
    ops.push(
        Op::Rope {
            x: Buffer::K,
            heads: h.n_head_kv,
            dim: h.head_dim,
            rot: h.rot_dim,
            theta: h.theta,
            factors: h.factors,
        },
    );
    ops.push(
        Op::KvAppend {
            cache: Buffer::Kcache(t.il),
            kv: Buffer::K,
            heads: h.n_head_kv,
            dim: h.head_dim,
        },
    );
    ops.push(
        Op::KvAppend {
            cache: Buffer::Vcache(t.il),
            kv: Buffer::V,
            heads: h.n_head_kv,
            dim: h.head_dim,
        },
    );
    ops.push(
        Op::GqaAttention {
            il: t.il,
            heads_kv: h.n_head_kv,
            dim: h.head_dim,
            window: h.window,
            unit: own.is_some(),
        },
    );
    ops.push(
        Op::MatmulQ8 {
            out: Buffer::AttnOut,
            w: Weight::Own(Role::AttnOutput),
            x: Buffer::Heads,
            in_dim: qw,
            out_dim: s.n_embd,
            rows: n,
        },
    );
    assert(ops@ =~= gqa_block_ops(t, *s, geom_at(g@, t.il), p));
    ops
}

/// No launch of a grouped-query attention block leaves its buffers.
pub proof fn gqa_stays_inside(t: LayerStep, z: Sizing, s: Shape, g: Seq<Geom>, p: LayerParts)
    requires
        allocated(z, s, g),
        admitted(t, z),
        geometry_within(s, g),
        s.head_dim > 0,
        s.family == Family::Gqa,
    ensures
        all_fit(gqa_block_ops(t, s, geom_at(g, t.il), p), t, z, s, g),
{
    let own = geom_at(g, t.il);
    let h = heads_of(s, own);
    let ops = gqa_block_ops(t, s, own, p);
    gqa_fits(t, z, s, g);
    row_fits(t, z, s, g);
    let (n, m, hd) = (t.n_tok as int, z.mb as int, h.head_dim as int);
    let wide = most(s.head_dim as int, s.qk_nope + s.qk_rope);
    scaled3(n, s.n_head as int, hd, m, s.n_head as int, wide);
    let over = most(s.heads_width(), s.n_head * s.head_dim);
    scaled3(n, s.n_head as int, hd, m, s.n_head as int, s.head_dim as int);
    assert(m * s.n_head * s.head_dim == m * (s.n_head * s.head_dim)) by (nonlinear_arith);
    assert(m * (s.n_head * s.head_dim) <= m * over) by (nonlinear_arith)
        requires
            0 <= m,
            s.n_head * s.head_dim <= over,
    ;
    assert forall|i: int| 0 <= i < ops.len() implies fits(#[trigger] ops[i], t, z, s, g) by {
        let op = ops[i];
        assert forall|k: int| 0 <= k < accesses(op, t, z, s).len() implies {
            let a = #[trigger] accesses(op, t, z, s)[k];
            a.1 <= capacity(a.0, z, s, g)
        } by {}
    }
}

proof fn mla_fits(t: LayerStep, z: Sizing, s: Shape, g: Seq<Geom>)
    requires
        allocated(z, s, g),
        admitted(t, z),
        s.family == Family::Mla,
    ensures
        ({
            let n = t.n_tok as int;
            let m = z.mb as int;
            let qk = s.qk_nope + s.qk_rope;
            let raw = s.n_kv_lora + s.qk_rope;
            &&& 0 <= s.n_head * qk <= u32::MAX
            &&& 0 <= n * (s.n_head * qk) == n * s.n_head * qk <= capacity(Buffer::Q, z, s, g) / 4
            &&& raw <= u32::MAX
            &&& 0 <= n * raw <= capacity(Buffer::KvRaw, z, s, g) / 4
            &&& 0 <= n * s.n_kv_lora <= capacity(Buffer::KvNorm, z, s, g) / 4
            &&& 0 <= n * s.n_lora_q <= capacity(Buffer::QRank, z, s, g) / 4
            &&& 0 <= n * s.n_head * s.n_kv_lora <= capacity(Buffer::QkLow, z, s, g) / 4
            &&& 0 <= s.heads_width() <= u32::MAX
            &&& 0 <= n * s.heads_width() == n * s.n_head * s.value_mla <= capacity(
                Buffer::Heads,
                z,
                s,
                g,
            ) / 4
        }),
{
    let (n, m, nh) = (t.n_tok as int, z.mb as int, s.n_head as int);
    let qk = s.qk_nope + s.qk_rope;
    let raw = s.n_kv_lora + s.qk_rope;
    let kvl = s.n_kv_lora as int;
    let vm = s.value_mla as int;
    let wide = most(s.head_dim as int, qk);
    assert(bytes_in(measure(Buffer::Q, z, s, g)) is Some);
    assert(bytes_in(measure(Buffer::KvRaw, z, s, g)) is Some);
    assert(bytes_in(measure(Buffer::Heads, z, s, g)) is Some);
    scaled3(n, nh, qk, m, nh, wide);
    assert(n * nh * qk == n * (nh * qk)) by (nonlinear_arith);
    assert(0 <= nh * qk && 0 <= nh * vm) by (nonlinear_arith)
        requires
            0 <= nh,
            0 <= qk,
            0 <= vm,
    ;
    one_of_many(n, nh * qk);
    scaled(n, m, raw);
    scaled(n, m, kvl);
    scaled(n, m, s.n_lora_q as int);
    assert(m * raw <= m * most(raw, 1)) by (nonlinear_arith)
        requires
            0 <= m,
            raw <= most(raw, 1),
    ;
    assert(m * kvl <= m * most(kvl, 1)) by (nonlinear_arith)
        requires
            0 <= m,
            kvl <= most(kvl, 1),
    ;
    assert(m * s.n_lora_q <= m * most(s.n_lora_q as int, 1)) by (nonlinear_arith)
        requires
            0 <= m,
            s.n_lora_q <= most(s.n_lora_q as int, 1),
    ;
    one_of_many(m, most(raw, 1));
    scaled3(n, nh, kvl, m, nh, most(kvl, 1));
    let over = most(s.heads_width(), s.n_head * s.head_dim);
    scaled(n, m, s.heads_width());
    assert(m * s.heads_width() <= m * over) by (nonlinear_arith)
        requires
            0 <= m,
            s.heads_width() <= over,
    ;
    one_of_many(m, s.heads_width());
    assert(n * nh * vm == n * (nh * vm)) by (nonlinear_arith);
}

fn plan_mla_head(t: LayerStep, z: &Sizing, s: &Shape, g: Ghost<Seq<Geom>>) -> (ops: Vec<Op>)
    requires
        allocated(*z, *s, g@),
        admitted(t, *z),
        s.family == Family::Mla,
    ensures
        ops@ == mla_head_ops(t, *s, z.attn_dev),
{
    proof {
        mla_fits(t, *z, *s, g@);
        row_fits(t, *z, *s, g@);
    }
    let n: u32 = t.n_tok;
    let xin: Buffer = if z.attn_dev {
        Buffer::NormedA
    } else {
        Buffer::Normed
    };
    let mut ops: Vec<Op> = Vec::new();
    ops.push(
        Op::RmsNorm {
            out: Buffer::Normed,
            x: Buffer::Cur,
            w: Weight::Own(Role::AttnNorm),
            n: s.n_embd,
            rows: n,
        },
    );
    if z.attn_dev {
        ops.push(Op::Copy { dst: Buffer::NormedA, src: Buffer::Normed, n: times(n, s.n_embd) });
        ops.push(Op::SetDevice(Device::Attn));
    }
    ops.push(
        Op::MatmulQ8 {
            out: Buffer::QRank,
            w: Weight::Own(Role::AttnQA),
            x: xin,
            in_dim: s.n_embd,
            out_dim: s.n_lora_q,
            rows: n,
        },
    );
    ops.push(
        Op::RmsNorm {
            out: Buffer::QRankNorm,
            x: Buffer::QRank,
            w: Weight::Own(Role::AttnQANorm),
            n: s.n_lora_q,
            rows: n,
        },
    );
    ops.push(
        Op::MatmulQ8 {
            out: Buffer::Q,
            w: Weight::Own(Role::AttnQB),
            x: Buffer::QRankNorm,
            in_dim: s.n_lora_q,
            out_dim: (s.n_head as u64 * (s.qk_nope as u64 + s.qk_rope as u64)) as u32,
            rows: n,
        },
    );
    ops.push(Op::MlaRope);
    ops.push(
        Op::MatmulQ8 {
            out: Buffer::KvRaw,
            w: Weight::Own(Role::AttnKvA),
            x: xin,
            in_dim: s.n_embd,
            out_dim: s.n_kv_lora + s.qk_rope,
            rows: n,
        },
    );
    ops.push(Op::MlaKvNorm);
    ops.push(Op::MlaStore { il: t.il });
    assert(ops@ =~= mla_head_ops(t, *s, z.attn_dev));
    ops
}

fn plan_mla_select(
    t: LayerStep,
    z: &Sizing,
    s: &Shape,
    keeps_keys: bool,
    rows: Rows,
    g: Ghost<Seq<Geom>>,
) -> (ops: Vec<Op>)
    requires
        allocated(*z, *s, g@),
        admitted(t, *z),
        s.family == Family::Mla,
        rows.how == Selection::Score ==> has_idx(*s),
    ensures
        ops@ == mla_select_ops(t, *s, z.attn_dev, keeps_keys, rows),
{
    proof {
        row_fits(t, *z, *s, g@);
        if has_idx(*s) {
            idx_fits(t, *z, *s, g@);
        }
    }
    let n: u32 = t.n_tok;
    let visible: u32 = t.pos0 + n;
    let xin: Buffer = if z.attn_dev {
        Buffer::NormedA
    } else {
        Buffer::Normed
    };
    let mut ops: Vec<Op> = Vec::new();
    if keeps_keys {
        ops.push(
            Op::MatmulQ8 {
                out: Buffer::IdxKraw,
                w: Weight::Own(Role::IndexerK),
                x: xin,
                in_dim: s.n_embd,
                out_dim: s.n_idx_dim,
                rows: n,
            },
        );
        ops.push(Op::IdxStore { il: t.il });
    }
    match rows.how {
        Selection::Range => ops.push(Op::FillRange { visible }),
        Selection::Reuse => {},
        Selection::Score => {
            ops.push(
                Op::MatmulQ8 {
                    out: Buffer::IdxQ,
                    w: Weight::Own(Role::IndexerQB),
                    x: Buffer::QRankNorm,
                    in_dim: s.n_lora_q,
                    out_dim: times(s.n_idx_head, s.n_idx_dim),
                    rows: n,
                },
            );
            ops.push(Op::IdxRope);
            let mut residual: Buffer = Buffer::Cur;
            if z.attn_dev {
                ops.push(
                    Op::Copy { dst: Buffer::AttnOutA, src: Buffer::Cur, n: times(n, s.n_embd) },
                );
                residual = Buffer::AttnOutA;
            }
            ops.push(
                Op::MatmulF32 {
                    out: Buffer::IdxW,
                    w: Weight::Own(Role::IndexerProj),
                    x: residual,
                    in_dim: s.n_embd,
                    out_dim: s.n_idx_head,
                    rows: n,
                },
            );
            ops.push(Op::IdxScores { il: t.il, visible, one: n == 1 });
            ops.push(Op::IdxTopk { visible, topk: rows.count, one: n == 1 });
        },
    }
    assert(ops@ =~= mla_select_ops(t, *s, z.attn_dev, keeps_keys, rows));
    ops
}

fn plan_mla_tail(t: LayerStep, z: &Sizing, s: &Shape, selected: u32, g: Ghost<Seq<Geom>>) -> (ops: Vec<
    Op,
>)
    requires
        allocated(*z, *s, g@),
        admitted(t, *z),
        s.family == Family::Mla,
    ensures
        ops@ == mla_tail_ops(t, *s, z.attn_dev, selected),
{
    proof {
        mla_fits(t, *z, *s, g@);
        row_fits(t, *z, *s, g@);
    }
    let n: u32 = t.n_tok;
    let width: u32 = s.heads_dim();
    let mut ops: Vec<Op> = Vec::new();
    ops.push(Op::MlaQkLow);
    ops.push(Op::MlaAttention { il: t.il, selected });
    let out: Buffer = if z.attn_dev {
        Buffer::AttnOutA
    } else {
        Buffer::AttnOut
    };
    ops.push(
        Op::MatmulQ8 {
            out,
            w: Weight::Own(Role::AttnOutput),
            x: Buffer::Heads,
            in_dim: width,
            out_dim: s.n_embd,
            rows: n,
        },
    );
    if z.attn_dev {
        ops.push(Op::Copy { dst: Buffer::AttnOut, src: Buffer::AttnOutA, n: times(n, s.n_embd) });
        ops.push(Op::SetDevice(Device::Primary));
    }
    assert(ops@ =~= mla_tail_ops(t, *s, z.attn_dev, selected));
    ops
}

/// Lists the launches of a latent attention block. `keeps_keys` is whether the
/// layer keeps indexer keys.
pub fn plan_mla(
    t: LayerStep,
    z: &Sizing,
    s: &Shape,
    g: &[Geom],
    keeps_keys: bool,
    rows: Rows,
) -> (ops: Vec<Op>)
    requires
        allocated(*z, *s, g@),
        admitted(t, *z),
        s.family == Family::Mla,
        rows.how == Selection::Score ==> has_idx(*s),
    ensures
        ops@ == mla_ops(t, *s, z.attn_dev, keeps_keys, rows),
{
    let mut ops: Vec<Op> = plan_mla_head(t, z, s, Ghost(g@));
    let mut select: Vec<Op> = plan_mla_select(t, z, s, keeps_keys, rows, Ghost(g@));
    let mut tail: Vec<Op> = plan_mla_tail(t, z, s, rows.count, Ghost(g@));
    ops.append(&mut select);
    ops.append(&mut tail);
    assert(ops@ =~= mla_ops(t, *s, z.attn_dev, keeps_keys, rows));
    ops
}

proof fn all_fit_concat(a: Seq<Op>, b: Seq<Op>, t: LayerStep, z: Sizing, s: Shape, g: Seq<Geom>)
    requires
        all_fit(a, t, z, s, g),
        all_fit(b, t, z, s, g),
    ensures
        all_fit(a + b, t, z, s, g),
{
    let c = a + b;
    assert forall|i: int| 0 <= i < c.len() implies fits(#[trigger] c[i], t, z, s, g) by {
        if i < a.len() {
            assert(c[i] == a[i]);
        } else {
            assert(c[i] == b[i - a.len()]);
        }
    }
}

proof fn mla_head_inside(t: LayerStep, z: Sizing, s: Shape, g: Seq<Geom>)
    requires
        allocated(z, s, g),
        admitted(t, z),
        s.family == Family::Mla,
        t.il >= g.len(),
    ensures
        all_fit(mla_head_ops(t, s, z.attn_dev), t, z, s, g),
{
    let ops = mla_head_ops(t, s, z.attn_dev);
    mla_fits(t, z, s, g);
    row_fits(t, z, s, g);
    assert forall|i: int| 0 <= i < ops.len() implies fits(#[trigger] ops[i], t, z, s, g) by {
        let op = ops[i];
        assert forall|k: int| 0 <= k < accesses(op, t, z, s).len() implies {
            let a = #[trigger] accesses(op, t, z, s)[k];
            a.1 <= capacity(a.0, z, s, g)
        } by {}
    }
}

proof fn idx_fits(t: LayerStep, z: Sizing, s: Shape, g: Seq<Geom>)
    requires
        allocated(z, s, g),
        admitted(t, z),
        has_idx(s),
    ensures
        ({
            let n = t.n_tok as int;
            let (a, b) = (s.n_idx_head as int, s.n_idx_dim as int);
            let visible = t.pos0 + t.n_tok;
            &&& 0 <= a * b <= u32::MAX
            &&& n * (a * b) == n * a * b
            &&& 0 <= n * a * b * 4 <= capacity(Buffer::IdxQ, z, s, g)
            &&& 0 <= n * a * 4 <= capacity(Buffer::IdxW, z, s, g)
            &&& 0 <= n * b * 4 <= capacity(Buffer::IdxKraw, z, s, g)
            &&& 0 <= n * visible * 4 <= capacity(Buffer::IdxScores, z, s, g)
            &&& 0 <= visible * b * 4 <= z.ctx * b * 4
        }),
{
    let (n, m, ctx) = (t.n_tok as int, z.mb as int, z.ctx as int);
    let visible = t.pos0 + t.n_tok;
    let (a, b) = (s.n_idx_head as int, s.n_idx_dim as int);
    assert(bytes_in(measure(Buffer::IdxQ, z, s, g)) is Some);
    scaled(0, a, b);
    one_of_many(m, a * b);
    assert(m * (a * b) == m * a * b) by (nonlinear_arith);
    scaled3(n, a, b, m, a, b);
    assert(n * (a * b) == n * a * b) by (nonlinear_arith);
    scaled(n, m, b);
    scaled(visible, ctx, b);
    scaled3(n, visible, 1, m, ctx, 1);
    assert(n * visible * 1 == n * visible && m * ctx * 1 == m * ctx) by (nonlinear_arith);
}

proof fn idx_key_inside(t: LayerStep, z: Sizing, s: Shape, g: Seq<Geom>)
    requires
        allocated(z, s, g),
        admitted(t, z),
        has_idx(s),
        full_indexer(t.il as int, s.n_leading_dense),
    ensures
        all_fit(idx_key_ops(t, s, z.attn_dev), t, z, s, g),
{
    let ops = idx_key_ops(t, s, z.attn_dev);
    row_fits(t, z, s, g);
    idx_fits(t, z, s, g);
    assert forall|i: int| 0 <= i < ops.len() implies fits(#[trigger] ops[i], t, z, s, g) by {
        let op = ops[i];
        assert forall|k: int| 0 <= k < accesses(op, t, z, s).len() implies {
            let a = #[trigger] accesses(op, t, z, s)[k];
            a.1 <= capacity(a.0, z, s, g)
        } by {}
    }
}

proof fn idx_score_inside(t: LayerStep, z: Sizing, s: Shape, g: Seq<Geom>, topk: u32)
    requires
        allocated(z, s, g),
        admitted(t, z),
        s.family == Family::Mla,
        has_idx(s),
        full_indexer(t.il as int, s.n_leading_dense),
        topk <= t.pos0 + t.n_tok,
    ensures
        all_fit(idx_score_ops(t, s, z.attn_dev, topk), t, z, s, g),
{
    let ops = idx_score_ops(t, s, z.attn_dev, topk);
    row_fits(t, z, s, g);
    mla_fits(t, z, s, g);
    idx_fits(t, z, s, g);
    scaled3(t.n_tok as int, topk as int, 4, z.mb as int, z.ctx as int, 4);
    assert forall|i: int| 0 <= i < ops.len() implies fits(#[trigger] ops[i], t, z, s, g) by {
        let op = ops[i];
        assert forall|k: int| 0 <= k < accesses(op, t, z, s).len() implies {
            let a = #[trigger] accesses(op, t, z, s)[k];
            a.1 <= capacity(a.0, z, s, g)
        } by {}
    }
}

proof fn mla_select_inside(
    t: LayerStep,
    z: Sizing,
    s: Shape,
    g: Seq<Geom>,
    keeps_keys: bool,
    rows: Rows,
)
    requires
        allocated(z, s, g),
        admitted(t, z),
        s.family == Family::Mla,
        rows.how == Selection::Score || keeps_keys ==> has_idx(s) && full_indexer(
            t.il as int,
            s.n_leading_dense,
        ),
        rows.count <= t.pos0 + t.n_tok,
    ensures
        all_fit(mla_select_ops(t, s, z.attn_dev, keeps_keys, rows), t, z, s, g),
{
    let keys = if keeps_keys {
        idx_key_ops(t, s, z.attn_dev)
    } else {
        Seq::empty()
    };
    if keeps_keys {
        idx_key_inside(t, z, s, g);
    }
    let range = seq![Op::FillRange { visible: (t.pos0 + t.n_tok) as u32 }];
    let choice = match rows.how {
        Selection::Range => range,
        Selection::Reuse => Seq::empty(),
        Selection::Score => idx_score_ops(t, s, z.attn_dev, rows.count),
    };
    if rows.how == Selection::Score {
        idx_score_inside(t, z, s, g, rows.count);
    }
    if rows.how == Selection::Range {
        let visible = t.pos0 + t.n_tok;
        scaled3(t.n_tok as int, visible, 4, z.mb as int, z.ctx as int, 4);
        let op = range[0];
        assert forall|k: int| 0 <= k < accesses(op, t, z, s).len() implies {
            let a = #[trigger] accesses(op, t, z, s)[k];
            a.1 <= capacity(a.0, z, s, g)
        } by {}
        assert(fits(op, t, z, s, g));
    }
    all_fit_concat(keys, choice, t, z, s, g);
}

proof fn mla_tail_inside(t: LayerStep, z: Sizing, s: Shape, g: Seq<Geom>, selected: u32)
    requires
        allocated(z, s, g),
        admitted(t, z),
        s.family == Family::Mla,
        t.il >= g.len(),
        selected <= t.pos0 + t.n_tok,
    ensures
        all_fit(mla_tail_ops(t, s, z.attn_dev, selected), t, z, s, g),
{
    let ops = mla_tail_ops(t, s, z.attn_dev, selected);
    mla_fits(t, z, s, g);
    row_fits(t, z, s, g);
    let (n, m, ctx) = (t.n_tok as int, z.mb as int, z.ctx as int);
    scaled3(n, selected as int, 4, m, ctx, 4);
    assert forall|i: int| 0 <= i < ops.len() implies fits(#[trigger] ops[i], t, z, s, g) by {
        let op = ops[i];
        assert forall|k: int| 0 <= k < accesses(op, t, z, s).len() implies {
            let a = #[trigger] accesses(op, t, z, s)[k];
            a.1 <= capacity(a.0, z, s, g)
        } by {}
    }
}

/// No launch of a latent attention block leaves its buffers, as long as no more
/// rows are selected than are visible and only layers that run the indexer
/// score or keep keys.
pub proof fn mla_stays_inside(
    t: LayerStep,
    z: Sizing,
    s: Shape,
    g: Seq<Geom>,
    keeps_keys: bool,
    rows: Rows,
)
    requires
        allocated(z, s, g),
        admitted(t, z),
        s.family == Family::Mla,
        t.il >= g.len(),
        rows.how == Selection::Score || keeps_keys ==> has_idx(s) && full_indexer(
            t.il as int,
            s.n_leading_dense,
        ),
        rows.count <= t.pos0 + t.n_tok,
    ensures
        all_fit(mla_ops(t, s, z.attn_dev, keeps_keys, rows), t, z, s, g),
{
    let a = mla_head_ops(t, s, z.attn_dev);
    let b = mla_select_ops(t, s, z.attn_dev, keeps_keys, rows);
    let c = mla_tail_ops(t, s, z.attn_dev, rows.count);
    mla_head_inside(t, z, s, g);
    mla_select_inside(t, z, s, g, keeps_keys, rows);
    mla_tail_inside(t, z, s, g, rows.count);
    all_fit_concat(a, b, t, z, s, g);
    all_fit_concat(a + b, c, t, z, s, g);
}

/// The routed experts: by group where the batch was gathered by expert, else
/// slot by slot.
pub open spec fn routed_ops(t: LayerStep, s: Shape, groups: Option<u32>) -> Seq<Op> {
    let mid = Op::Quantize {
        out: Buffer::Midq,
        x: Buffer::MoeMid,
        dim: s.n_ff_exp,
        rows: (t.n_tok * s.n_expert_used) as u32,
    };
    match groups {
        Some(groups) => seq![
            Op::MoePairGrouped { groups },
            mid,
            Op::MoeDownGrouped { groups },
            Op::MoeSlotSum,
        ],
        None => seq![Op::MoePair, mid, Op::MoeDown],
    }
}

proof fn ffn_fits(t: LayerStep, z: Sizing, s: Shape, g: Seq<Geom>, w: u32)
    requires
        allocated(z, s, g),
        admitted(t, z),
        w <= most(s.n_ff_dense as int, s.n_ff_exp as int),
    ensures
        0 <= t.n_tok * w <= u32::MAX,
        t.n_tok * w * 4 <= capacity(Buffer::GateAct, z, s, g),
{
    assert(bytes_in(measure(Buffer::GateAct, z, s, g)) is Some);
    let (n, m, f) = (t.n_tok as int, z.mb as int, most(s.n_ff_dense as int, s.n_ff_exp as int));
    scaled(n, m, w as int);
    assert(m * w <= m * f) by (nonlinear_arith)
        requires
            0 <= m,
            w <= f,
    ;
}

pub(crate) proof fn moe_fits(t: LayerStep, z: Sizing, s: Shape, g: Seq<Geom>)
    requires
        allocated(z, s, g),
        admitted(t, z),
    ensures
        ({
            let n = t.n_tok as int;
            let (u, f, e) = (s.n_expert_used as int, s.n_ff_exp as int, s.n_embd as int);
            &&& 0 <= n * u <= z.mb * u <= u32::MAX
            &&& 0 <= n * u * f <= z.mb * u * f
            &&& n * u * f == (n * u) * f
            &&& q8_bytes(n * u, f) <= q8_bytes(z.mb * u, f)
            &&& q8_bytes(n, e) <= q8_bytes(z.mb as int, e)
            &&& 0 <= n * s.n_expert <= z.mb * s.n_expert
            &&& 1 * s.n_expert == s.n_expert
            &&& 1 * s.n_embd <= z.mb * s.n_embd
        }),
{
    let (n, m) = (t.n_tok as int, z.mb as int);
    let (u, f, e) = (s.n_expert_used as int, s.n_ff_exp as int, s.n_embd as int);
    assert(bytes_in(measure(Buffer::RouterWeights, z, s, g)) is Some);
    scaled(n, m, u);
    scaled3(n, u, f, m, u, f);
    scaled(n, m, e);
    scaled(n, m, s.n_expert as int);
    scaled(n * u, m * u, (f + 255) / 256);
    scaled(n, m, (e + 255) / 256);
    one_of_many(m, e);
}

fn push_norm(ops: &mut Vec<Op>, t: LayerStep, s: &Shape, p: LayerParts, x: Buffer, r: Role)
    ensures
        final(ops)@ == old(ops)@ + norm_ops(t, *s, p, x, r),
{
    if p.gemma {
        ops.push(Op::RmsNorm { out: x, x, w: Weight::Own(r), n: s.n_embd, rows: t.n_tok });
    }
    assert(ops@ =~= old(ops)@ + norm_ops(t, *s, p, x, r));
}

fn push_gated(
    ops: &mut Vec<Op>,
    t: LayerStep,
    s: &Shape,
    gate: Role,
    up: Role,
    down: Role,
    w: u32,
    out: Buffer,
)
    requires
        t.n_tok * w <= u32::MAX,
    ensures
        final(ops)@ == old(ops)@ + gated_ops(t, *s, gate, up, down, w, out),
{
    let n: u32 = t.n_tok;
    ops.push(
        Op::MatmulQ8 {
            out: Buffer::GateAct,
            w: Weight::Own(gate),
            x: Buffer::Normed,
            in_dim: s.n_embd,
            out_dim: w,
            rows: n,
        },
    );
    ops.push(
        Op::MatmulQ8 {
            out: Buffer::UpAct,
            w: Weight::Own(up),
            x: Buffer::Normed,
            in_dim: s.n_embd,
            out_dim: w,
            rows: n,
        },
    );
    ops.push(
        Op::Swiglu { out: Buffer::FfnMid, a: Buffer::GateAct, b: Buffer::UpAct, n: times(n, w) },
    );
    ops.push(
        Op::MatmulQ8 {
            out,
            w: Weight::Own(down),
            x: Buffer::FfnMid,
            in_dim: w,
            out_dim: s.n_embd,
            rows: n,
        },
    );
    assert(ops@ =~= old(ops)@ + gated_ops(t, *s, gate, up, down, w, out));
}

/// Lists the launches between attention and the feed-forward block.
pub fn plan_residual(t: LayerStep, z: &Sizing, s: &Shape, g: &[Geom], p: LayerParts) -> (ops: Vec<Op>)
    requires
        allocated(*z, *s, g@),
        admitted(t, *z),
    ensures
        ops@ == residual_ops(t, *s, p),
{
    proof {
        row_fits(t, *z, *s, g@);
    }
    let mut ops: Vec<Op> = Vec::new();
    push_norm(&mut ops, t, s, p, Buffer::AttnOut, Role::PostAttnNorm);
    ops.push(
        Op::Add {
            out: Buffer::AfterAttn,
            a: Buffer::Cur,
            b: Buffer::AttnOut,
            n: times(t.n_tok, s.n_embd),
        },
    );
    ops.push(
        Op::RmsNorm {
            out: Buffer::Normed,
            x: Buffer::AfterAttn,
            w: Weight::Own(Role::FfnNorm),
            n: s.n_embd,
            rows: t.n_tok,
        },
    );
    assert(ops@ =~= residual_ops(t, *s, p));
    ops
}

/// Lists the launches of a dense feed-forward block.
pub fn plan_dense(t: LayerStep, z: &Sizing, s: &Shape, g: &[Geom]) -> (ops: Vec<Op>)
    requires
        allocated(*z, *s, g@),
        admitted(t, *z),
    ensures
        ops@ == dense_ops(t, *s),
{
    proof {
        row_fits(t, *z, *s, g@);
        ffn_fits(t, *z, *s, g@, s.n_ff_dense);
    }
    let mut ops: Vec<Op> = Vec::new();
    push_gated(
        &mut ops,
        t,
        s,
        Role::FfnGate,
        Role::FfnUp,
        Role::FfnDown,
        s.n_ff_dense,
        Buffer::FfnOut,
    );
    ops.push(
        Op::Add {
            out: Buffer::Cur,
            a: Buffer::AfterAttn,
            b: Buffer::FfnOut,
            n: times(t.n_tok, s.n_embd),
        },
    );
    assert(ops@ =~= dense_ops(t, *s));
    ops
}

/// Lists the launches that route a batch, and predict the next layer's routing.
pub fn plan_router(t: LayerStep, s: &Shape, p: LayerParts, predict: bool) -> (ops: Vec<Op>)
    ensures
        ops@ == router_ops(t, *s, p, predict),
{
    let n: u32 = t.n_tok;
    let mut ops: Vec<Op> = Vec::new();
    let mut x: Buffer = Buffer::Normed;
    if p.gemma {
        ops.push(
            Op::RmsNorm {
                out: Buffer::AttnOut,
                x: Buffer::AfterAttn,
                w: Weight::RouterNorm,
                n: s.n_embd,
                rows: n,
            },
        );
        x = Buffer::AttnOut;
    }
    ops.push(
        Op::MatmulF32 {
            out: Buffer::RouterLogits,
            w: Weight::Own(Role::GateInp),
            x,
            in_dim: s.n_embd,
            out_dim: s.n_expert,
            rows: n,
        },
    );
    ops.push(Op::RouterSelect { next: false });
    if p.down_scale {
        ops.push(Op::RouterScale);
    }
    if predict {
        ops.push(
            Op::MatmulF32 {
                out: Buffer::PredLogits,
                w: Weight::Next(Role::GateInp),
                x: Buffer::Normed,
                in_dim: s.n_embd,
                out_dim: s.n_expert,
                rows: 1,
            },
        );
        ops.push(Op::RouterSelect { next: true });
    }
    assert(ops@ =~= router_ops(t, *s, p, predict));
    ops
}

/// Lists the launches of the shared expert, and of the activations for the
/// routed ones.
pub fn plan_shared(t: LayerStep, z: &Sizing, s: &Shape, g: &[Geom], p: LayerParts) -> (ops: Vec<Op>)
    requires
        allocated(*z, *s, g@),
        admitted(t, *z),
    ensures
        ops@ == shared_ops(t, *s, p),
{
    proof {
        row_fits(t, *z, *s, g@);
        ffn_fits(t, *z, *s, g@, s.n_ff_dense);
        ffn_fits(t, *z, *s, g@, s.n_ff_exp);
    }
    let mut ops: Vec<Op> = Vec::new();
    let width: u32 = if p.gemma {
        s.n_ff_dense
    } else {
        s.n_ff_exp
    };
    if p.shexp {
        push_gated(
            &mut ops,
            t,
            s,
            Role::GateShexp,
            Role::UpShexp,
            Role::DownShexp,
            width,
            Buffer::SharedOut,
        );
        push_norm(&mut ops, t, s, p, Buffer::SharedOut, Role::PostFfwNorm1);
    } else {
        ops.push(Op::Zero { x: Buffer::SharedOut, n: times(t.n_tok, s.n_embd) });
    }
    if p.gemma {
        ops.push(
            Op::RmsNorm {
                out: Buffer::Normed,
                x: Buffer::AfterAttn,
                w: Weight::Own(Role::PreFfwNorm2),
                n: s.n_embd,
                rows: t.n_tok,
            },
        );
    }
    ops.push(
        Op::Quantize { out: Buffer::Xq, x: Buffer::Normed, dim: s.n_embd, rows: t.n_tok },
    );
    assert(ops@ =~= shared_ops(t, *s, p));
    ops
}

/// Lists the launches of the routed experts on the primary device.
pub fn plan_routed(t: LayerStep, z: &Sizing, s: &Shape, g: &[Geom], groups: Option<u32>) -> (ops: Vec<
    Op,
>)
    requires
        allocated(*z, *s, g@),
        admitted(t, *z),
    ensures
        ops@ == routed_ops(t, *s, groups),
{
    proof {
        moe_fits(t, *z, *s, g@);
    }
    let mid: Op = Op::Quantize {
        out: Buffer::Midq,
        x: Buffer::MoeMid,
        dim: s.n_ff_exp,
        rows: times(t.n_tok, s.n_expert_used),
    };
    let mut ops: Vec<Op> = Vec::new();
    match groups {
        Some(groups) => {
            ops.push(Op::MoePairGrouped { groups });
            ops.push(mid);
            ops.push(Op::MoeDownGrouped { groups });
            ops.push(Op::MoeSlotSum);
        },
        None => {
            ops.push(Op::MoePair);
            ops.push(mid);
            ops.push(Op::MoeDown);
        },
    }
    assert(ops@ =~= routed_ops(t, *s, groups));
    ops
}

/// Lists the launches that bring the experts' outputs into the residual stream.
pub fn plan_combine(t: LayerStep, z: &Sizing, s: &Shape, g: &[Geom], p: LayerParts) -> (ops: Vec<Op>)
    requires
        allocated(*z, *s, g@),
        admitted(t, *z),
    ensures
        ops@ == combine_ops(t, *s, p),
{
    proof {
        row_fits(t, *z, *s, g@);
    }
    let row: u32 = times(t.n_tok, s.n_embd);
    let mut ops: Vec<Op> = Vec::new();
    push_norm(&mut ops, t, s, p, Buffer::MoeOut, Role::PostFfwNorm2);
    ops.push(Op::Add { out: Buffer::FfnOut, a: Buffer::MoeOut, b: Buffer::SharedOut, n: row });
    push_norm(&mut ops, t, s, p, Buffer::FfnOut, Role::PostFfwNorm);
    ops.push(Op::Add { out: Buffer::Cur, a: Buffer::AfterAttn, b: Buffer::FfnOut, n: row });
    assert(ops@ =~= combine_ops(t, *s, p));
    ops
}

proof fn gated_inside(
    t: LayerStep,
    z: Sizing,
    s: Shape,
    g: Seq<Geom>,
    gate: Role,
    up: Role,
    down: Role,
    w: u32,
    out: Buffer,
)
    requires
        allocated(z, s, g),
        admitted(t, z),
        w <= most(s.n_ff_dense as int, s.n_ff_exp as int),
        out == Buffer::FfnOut || out == Buffer::SharedOut,
    ensures
        all_fit(gated_ops(t, s, gate, up, down, w, out), t, z, s, g),
{
    let ops = gated_ops(t, s, gate, up, down, w, out);
    row_fits(t, z, s, g);
    ffn_fits(t, z, s, g, w);
    assert forall|i: int| 0 <= i < ops.len() implies fits(#[trigger] ops[i], t, z, s, g) by {
        let op = ops[i];
        assert forall|k: int| 0 <= k < accesses(op, t, z, s).len() implies {
            let a = #[trigger] accesses(op, t, z, s)[k];
            a.1 <= capacity(a.0, z, s, g)
        } by {}
    }
}

proof fn norm_inside(
    t: LayerStep,
    z: Sizing,
    s: Shape,
    g: Seq<Geom>,
    p: LayerParts,
    x: Buffer,
    r: Role,
)
    requires
        allocated(z, s, g),
        admitted(t, z),
        x == Buffer::SharedOut || x == Buffer::MoeOut || x == Buffer::FfnOut || x
            == Buffer::AttnOut,
    ensures
        all_fit(norm_ops(t, s, p, x, r), t, z, s, g),
{
    let ops = norm_ops(t, s, p, x, r);
    row_fits(t, z, s, g);
    assert forall|i: int| 0 <= i < ops.len() implies fits(#[trigger] ops[i], t, z, s, g) by {
        let op = ops[i];
        assert forall|k: int| 0 <= k < accesses(op, t, z, s).len() implies {
            let a = #[trigger] accesses(op, t, z, s)[k];
            a.1 <= capacity(a.0, z, s, g)
        } by {}
    }
}

/// No launch of a dense feed-forward block, or of the step before it, leaves
/// its buffers.
pub proof fn dense_stays_inside(t: LayerStep, z: Sizing, s: Shape, g: Seq<Geom>, p: LayerParts)
    requires
        allocated(z, s, g),
        admitted(t, z),
    ensures
        all_fit(residual_ops(t, s, p) + dense_ops(t, s), t, z, s, g),
{
    row_fits(t, z, s, g);
    residual_inside(t, z, s, g, p);
    gated_inside(
        t,
        z,
        s,
        g,
        Role::FfnGate,
        Role::FfnUp,
        Role::FfnDown,
        s.n_ff_dense,
        Buffer::FfnOut,
    );
    let body = gated_ops(
        t,
        s,
        Role::FfnGate,
        Role::FfnUp,
        Role::FfnDown,
        s.n_ff_dense,
        Buffer::FfnOut,
    );
    let ops = seq![
        Op::Add {
            out: Buffer::Cur,
            a: Buffer::AfterAttn,
            b: Buffer::FfnOut,
            n: (t.n_tok * s.n_embd) as u32,
        },
    ];
    assert forall|i: int| 0 <= i < ops.len() implies fits(#[trigger] ops[i], t, z, s, g) by {
        let op = ops[i];
        assert forall|k: int| 0 <= k < accesses(op, t, z, s).len() implies {
            let a = #[trigger] accesses(op, t, z, s)[k];
            a.1 <= capacity(a.0, z, s, g)
        } by {}
    }
    all_fit_concat(body, ops, t, z, s, g);
    all_fit_concat(residual_ops(t, s, p), dense_ops(t, s), t, z, s, g);
}

proof fn residual_inside(t: LayerStep, z: Sizing, s: Shape, g: Seq<Geom>, p: LayerParts)
    requires
        allocated(z, s, g),
        admitted(t, z),
    ensures
        all_fit(residual_ops(t, s, p), t, z, s, g),
{
    let ops = residual_ops(t, s, p);
    row_fits(t, z, s, g);
    assert forall|i: int| 0 <= i < ops.len() implies fits(#[trigger] ops[i], t, z, s, g) by {
        let op = ops[i];
        assert forall|k: int| 0 <= k < accesses(op, t, z, s).len() implies {
            let a = #[trigger] accesses(op, t, z, s)[k];
            a.1 <= capacity(a.0, z, s, g)
        } by {}
    }
}

proof fn router_inside(
    t: LayerStep,
    z: Sizing,
    s: Shape,
    g: Seq<Geom>,
    p: LayerParts,
    predict: bool,
)
    requires
        allocated(z, s, g),
        admitted(t, z),
    ensures
        all_fit(router_ops(t, s, p, predict), t, z, s, g),
{
    let ops = router_ops(t, s, p, predict);
    row_fits(t, z, s, g);
    moe_fits(t, z, s, g);
    assert forall|i: int| 0 <= i < ops.len() implies fits(#[trigger] ops[i], t, z, s, g) by {
        let op = ops[i];
        assert forall|k: int| 0 <= k < accesses(op, t, z, s).len() implies {
            let a = #[trigger] accesses(op, t, z, s)[k];
            a.1 <= capacity(a.0, z, s, g)
        } by {}
    }
}

proof fn shared_inside(t: LayerStep, z: Sizing, s: Shape, g: Seq<Geom>, p: LayerParts)
    requires
        allocated(z, s, g),
        admitted(t, z),
    ensures
        all_fit(shared_ops(t, s, p), t, z, s, g),
{
    row_fits(t, z, s, g);
    moe_fits(t, z, s, g);
    let width = if p.gemma {
        s.n_ff_dense
    } else {
        s.n_ff_exp
    };
    let pass = gated_ops(
        t,
        s,
        Role::GateShexp,
        Role::UpShexp,
        Role::DownShexp,
        width,
        Buffer::SharedOut,
    );
    let norm = norm_ops(t, s, p, Buffer::SharedOut, Role::PostFfwNorm1);
    gated_inside(
        t,
        z,
        s,
        g,
        Role::GateShexp,
        Role::UpShexp,
        Role::DownShexp,
        width,
        Buffer::SharedOut,
    );
    norm_inside(t, z, s, g, p, Buffer::SharedOut, Role::PostFfwNorm1);
    all_fit_concat(pass, norm, t, z, s, g);
    let zero = seq![Op::Zero { x: Buffer::SharedOut, n: (t.n_tok * s.n_embd) as u32 }];
    let shared = if p.shexp {
        pass + norm
    } else {
        zero
    };
    let own = if p.gemma {
        seq![
            Op::RmsNorm {
                out: Buffer::Normed,
                x: Buffer::AfterAttn,
                w: Weight::Own(Role::PreFfwNorm2),
                n: s.n_embd,
                rows: t.n_tok,
            },
        ]
    } else {
        Seq::empty()
    };
    let quant = seq![
        Op::Quantize { out: Buffer::Xq, x: Buffer::Normed, dim: s.n_embd, rows: t.n_tok },
    ];
    let ops = zero + own + quant;
    assert forall|i: int| 0 <= i < ops.len() implies fits(#[trigger] ops[i], t, z, s, g) by {
        let op = ops[i];
        assert forall|k: int| 0 <= k < accesses(op, t, z, s).len() implies {
            let a = #[trigger] accesses(op, t, z, s)[k];
            a.1 <= capacity(a.0, z, s, g)
        } by {}
    }
    assert forall|i: int| 0 <= i < zero.len() implies fits(#[trigger] zero[i], t, z, s, g) by {
        assert(zero[i] == ops[i]);
    }
    assert forall|i: int| 0 <= i < own.len() implies fits(#[trigger] own[i], t, z, s, g) by {
        assert(own[i] == ops[zero.len() + i]);
    }
    assert forall|i: int| 0 <= i < quant.len() implies fits(#[trigger] quant[i], t, z, s, g) by {
        assert(quant[i] == ops[zero.len() + own.len() + i]);
    }
    all_fit_concat(shared, own, t, z, s, g);
    all_fit_concat(shared + own, quant, t, z, s, g);
}

proof fn routed_inside(t: LayerStep, z: Sizing, s: Shape, g: Seq<Geom>, groups: Option<u32>)
    requires
        allocated(z, s, g),
        admitted(t, z),
        groups matches Some(k) ==> k <= s.n_expert,
    ensures
        all_fit(routed_ops(t, s, groups), t, z, s, g),
{
    let ops = routed_ops(t, s, groups);
    row_fits(t, z, s, g);
    moe_fits(t, z, s, g);
    assert forall|i: int| 0 <= i < ops.len() implies fits(#[trigger] ops[i], t, z, s, g) by {
        let op = ops[i];
        assert forall|k: int| 0 <= k < accesses(op, t, z, s).len() implies {
            let a = #[trigger] accesses(op, t, z, s)[k];
            a.1 <= capacity(a.0, z, s, g)
        } by {}
    }
}

proof fn combine_inside(t: LayerStep, z: Sizing, s: Shape, g: Seq<Geom>, p: LayerParts)
    requires
        allocated(z, s, g),
        admitted(t, z),
    ensures
        all_fit(combine_ops(t, s, p), t, z, s, g),
{
    let ops = combine_ops(t, s, p);
    row_fits(t, z, s, g);
    assert forall|i: int| 0 <= i < ops.len() implies fits(#[trigger] ops[i], t, z, s, g) by {
        let op = ops[i];
        assert forall|k: int| 0 <= k < accesses(op, t, z, s).len() implies {
            let a = #[trigger] accesses(op, t, z, s)[k];
            a.1 <= capacity(a.0, z, s, g)
        } by {}
    }
}

/// No launch of an expert feed-forward block leaves its buffers, as long as
/// there are no more groups than experts.
pub proof fn moe_stays_inside(
    t: LayerStep,
    z: Sizing,
    s: Shape,
    g: Seq<Geom>,
    p: LayerParts,
    predict: bool,
    groups: Option<u32>,
)
    requires
        allocated(z, s, g),
        admitted(t, z),
        groups matches Some(k) ==> k <= s.n_expert,
    ensures
        all_fit(
            residual_ops(t, s, p) + router_ops(t, s, p, predict) + shared_ops(t, s, p)
                + routed_ops(t, s, groups) + combine_ops(t, s, p),
            t,
            z,
            s,
            g,
        ),
{
    residual_inside(t, z, s, g, p);
    router_inside(t, z, s, g, p, predict);
    shared_inside(t, z, s, g, p);
    routed_inside(t, z, s, g, groups);
    combine_inside(t, z, s, g, p);
    let a = residual_ops(t, s, p);
    let b = router_ops(t, s, p, predict);
    let c = shared_ops(t, s, p);
    let d = routed_ops(t, s, groups);
    all_fit_concat(a, b, t, z, s, g);
    all_fit_concat(a + b, c, t, z, s, g);
    all_fit_concat(a + b + c, d, t, z, s, g);
    all_fit_concat(a + b + c + d, combine_ops(t, s, p), t, z, s, g);
}

/// A copy of bytes between two buffers of one device.
#[derive(Debug, Clone, Copy, PartialEq, Eq, Structural)]
pub struct CopyRange {
    pub dst: Buffer,
    pub dst_off: usize,
    pub src: Buffer,
    pub src_off: usize,
    pub bytes: usize,
}

/// Whether a copy stays inside both buffers.
pub open spec fn copy_fits(c: CopyRange, z: Sizing, s: Shape, g: Seq<Geom>) -> bool {
    &&& c.dst_off + c.bytes <= capacity(c.dst, z, s, g)
    &&& c.src_off + c.bytes <= capacity(c.src, z, s, g)
}

/// Whether every copy of a list does.
pub open spec fn copies_fit(v: Seq<CopyRange>, z: Sizing, s: Shape, g: Seq<Geom>) -> bool {
    forall|i: int| 0 <= i < v.len() ==> copy_fits(#[trigger] v[i], z, s, g)
}

/// The hidden states that the draft layer reads for `n` tokens: each token's
/// predecessor, so the one kept from before and all but the last of these. The
/// last is kept for the next time.
pub open spec fn draft_hidden(n: int, row: int) -> Seq<CopyRange> {
    let rest = if n > 1 {
        seq![
            CopyRange {
                dst: Buffer::MtpERaw,
                dst_off: row as usize,
                src: Buffer::Cur,
                src_off: 0,
                bytes: ((n - 1) * row) as usize,
            },
        ]
    } else {
        Seq::empty()
    };
    seq![
        CopyRange {
            dst: Buffer::MtpERaw,
            dst_off: 0,
            src: Buffer::MtpHidden,
            src_off: 0,
            bytes: row as usize,
        },
    ] + rest + seq![
        CopyRange {
            dst: Buffer::MtpHidden,
            dst_off: 0,
            src: Buffer::Cur,
            src_off: ((n - 1) * row) as usize,
            bytes: row as usize,
        },
    ]
}

/// The draft layer's input for the first `n` tokens: embedding and hidden state
/// side by side.
pub open spec fn draft_pairs(n: nat, row: int) -> Seq<CopyRange>
    decreases n,
{
    if n == 0 {
        Seq::empty()
    } else {
        let i = n - 1;
        draft_pairs((n - 1) as nat, row).push(
            CopyRange {
                dst: Buffer::MtpX,
                dst_off: (i * 2 * row) as usize,
                src: Buffer::MtpE,
                src_off: (i * row) as usize,
                bytes: row as usize,
            },
        ).push(
            CopyRange {
                dst: Buffer::MtpX,
                dst_off: (i * 2 * row + row) as usize,
                src: Buffer::MtpH,
                src_off: (i * row) as usize,
                bytes: row as usize,
            },
        )
    }
}

/// The last `k` of `n` rows, from which logits are read.
pub open spec fn tail_copy(n: int, k: int, row: int) -> CopyRange {
    CopyRange {
        dst: Buffer::LastRow,
        dst_off: 0,
        src: Buffer::Cur,
        src_off: ((n - k) * row) as usize,
        bytes: (k * row) as usize,
    }
}

/// Lists the copies of hidden states for the draft layer.
pub fn plan_draft_hidden(n: u32, row: usize) -> (v: Vec<CopyRange>)
    requires
        n >= 1,
        n * row <= usize::MAX,
    ensures
        v@ == draft_hidden(n as int, row as int),
{
    proof {
        let (a, r) = (n as int, row as int);
        scaled(a - 1, a, r);
    }
    let before: usize = (n as usize - 1) * row;
    let mut v: Vec<CopyRange> = Vec::new();
    v.push(
        CopyRange {
            dst: Buffer::MtpERaw,
            dst_off: 0,
            src: Buffer::MtpHidden,
            src_off: 0,
            bytes: row,
        },
    );
    if n > 1 {
        v.push(
            CopyRange {
                dst: Buffer::MtpERaw,
                dst_off: row,
                src: Buffer::Cur,
                src_off: 0,
                bytes: before,
            },
        );
    }
    v.push(
        CopyRange {
            dst: Buffer::MtpHidden,
            dst_off: 0,
            src: Buffer::Cur,
            src_off: before,
            bytes: row,
        },
    );
    assert(v@ =~= draft_hidden(n as int, row as int));
    v
}

/// Lists the copies that pair embeddings with hidden states.
pub fn plan_draft_pairs(n: u32, row: usize) -> (v: Vec<CopyRange>)
    requires
        n * 2 * row <= usize::MAX,
    ensures
        v@ == draft_pairs(n as nat, row as int),
{
    let mut v: Vec<CopyRange> = Vec::new();
    let mut i: u32 = 0;
    while i < n
        invariant
            i <= n,
            n * 2 * row <= usize::MAX,
            v@ == draft_pairs(i as nat, row as int),
        decreases n - i,
    {
        proof {
            let (a, b, r) = (i as int, n as int, row as int);
            scaled3(a + 1, 2, r, b, 2, r);
            scaled(a, b * 2, r);
            assert((a + 1) * 2 * r == a * 2 * r + r + r) by (nonlinear_arith);
            assert(0 <= a * r && a * 2 * r == a * r + a * r) by (nonlinear_arith)
                requires
                    0 <= a,
                    0 <= r,
            ;
        }
        let from: usize = i as usize * row;
        let at: usize = from + from;
        v.push(
            CopyRange {
                dst: Buffer::MtpX,
                dst_off: at,
                src: Buffer::MtpE,
                src_off: from,
                bytes: row,
            },
        );
        v.push(
            CopyRange {
                dst: Buffer::MtpX,
                dst_off: at + row,
                src: Buffer::MtpH,
                src_off: from,
                bytes: row,
            },
        );
        i += 1;
        assert(v@ =~= draft_pairs(i as nat, row as int));
    }
    v
}

/// Works out which rows logits are read from.
pub fn plan_tail_copy(n: u32, k: u32, row: usize) -> (c: CopyRange)
    requires
        k <= n,
        n * row <= usize::MAX,
    ensures
        c == tail_copy(n as int, k as int, row as int),
{
    proof {
        let (a, b, r) = (n as int, k as int, row as int);
        scaled(b, a, r);
        scaled(a - b, a, r);
    }
    CopyRange {
        dst: Buffer::LastRow,
        dst_off: 0,
        src: Buffer::Cur,
        src_off: (n - k) as usize * row,
        bytes: k as usize * row,
    }
}

proof fn draft_pairs_inside(n: nat, t: LayerStep, z: Sizing, s: Shape, g: Seq<Geom>)
    requires
        allocated(z, s, g),
        admitted(t, z),
        z.mtp,
        n <= t.n_tok,
    ensures
        copies_fit(draft_pairs(n, s.n_embd * 4), z, s, g),
    decreases n,
{
    let row = s.n_embd * 4;
    let v = draft_pairs(n, row);
    if n > 0 {
        draft_pairs_inside((n - 1) as nat, t, z, s, g);
        let before = draft_pairs((n - 1) as nat, row);
        assert(bytes_in(measure(Buffer::MtpX, z, s, g)) is Some);
        let (i, m, e) = (n - 1, z.mb as int, s.n_embd as int);
        scaled3(i + 1, 2, e, m, 2, e);
        scaled(i + 1, m, e);
        assert((i + 1) * 2 * e * 4 == i * 2 * row + row + row) by (nonlinear_arith)
            requires
                row == e * 4,
        ;
        assert((i + 1) * e * 4 == i * row + row) by (nonlinear_arith)
            requires
                row == e * 4,
        ;
        assert(0 <= i * row && 0 <= i * 2 * row) by (nonlinear_arith)
            requires
                0 <= i,
                0 <= row,
        ;
        assert forall|k: int| 0 <= k < v.len() implies copy_fits(#[trigger] v[k], z, s, g) by {
            if k < before.len() {
                assert(v[k] == before[k]);
            }
        }
    }
}

/// No copy for the draft layer, or for logits, leaves its buffers.
pub proof fn copies_stay_inside(t: LayerStep, z: Sizing, s: Shape, g: Seq<Geom>, k: nat)
    requires
        allocated(z, s, g),
        admitted(t, z),
        k <= t.n_tok,
        k <= z.spec_rows,
    ensures
        z.mtp ==> copies_fit(draft_hidden(t.n_tok as int, s.n_embd * 4), z, s, g),
        z.mtp ==> copies_fit(draft_pairs(t.n_tok as nat, s.n_embd * 4), z, s, g),
        copy_fits(tail_copy(t.n_tok as int, k as int, s.n_embd * 4), z, s, g),
{
    let (n, m, e) = (t.n_tok as int, z.mb as int, s.n_embd as int);
    let row = e * 4;
    row_fits(t, z, s, g);
    assert(bytes_in(measure(Buffer::LastRow, z, s, g)) is Some);
    assert(bytes_in(measure(Buffer::Cur, z, s, g)) is Some);
    scaled(k as int, z.spec_rows as int, e);
    assert((n - k) * row + k * row == n * e * 4) by (nonlinear_arith)
        requires
            row == e * 4,
    ;
    assert(k * row == k * e * 4) by (nonlinear_arith)
        requires
            row == e * 4,
    ;
    assert(0 <= (n - k) * row && 0 <= k * row) by (nonlinear_arith)
        requires
            0 <= k <= n,
            0 <= row,
    ;
    if z.mtp {
        draft_pairs_inside(t.n_tok as nat, t, z, s, g);
        let v = draft_hidden(n, row);
        assert((n - 1) * row + row == n * e * 4) by (nonlinear_arith)
            requires
                row == e * 4,
        ;
        assert(0 <= (n - 1) * row) by (nonlinear_arith)
            requires
                1 <= n,
                0 <= row,
        ;
        assert forall|i: int| 0 <= i < v.len() implies copy_fits(#[trigger] v[i], z, s, g) by {}
    }
}

/// Where byte `y` of a buffer comes from under a list of copies, the last that
/// writes it counting: the buffer, and the byte in it.
pub open spec fn copied_from(v: Seq<CopyRange>, n: int, dst: Buffer, y: int) -> Option<(Buffer, int)>
    decreases n,
{
    if n <= 0 {
        None
    } else {
        let c = v[n - 1];
        if c.dst == dst && c.dst_off <= y < c.dst_off + c.bytes {
            Some((c.src, c.src_off + (y - c.dst_off)))
        } else {
            copied_from(v, n - 1, dst, y)
        }
    }
}

/// The draft layer sees each token's predecessor: the first row is the hidden state
/// kept from before, every other the row before it of this step; and the last row
/// of this step is kept for the next.
pub proof fn draft_sees_predecessors(n: int, row: int, y: int)
    requires
        1 <= n,
        0 < row,
        n * row <= usize::MAX,
    ensures
        ({
            let v = draft_hidden(n, row);
            let all = v.len() as int;
            &&& 0 <= y < row ==> copied_from(v, all, Buffer::MtpERaw, y) == Some(
                (Buffer::MtpHidden, y),
            )
            &&& row <= y < n * row ==> copied_from(v, all, Buffer::MtpERaw, y) == Some(
                (Buffer::Cur, y - row),
            )
            &&& 0 <= y < row ==> copied_from(v, all, Buffer::MtpHidden, y) == Some(
                (Buffer::Cur, (n - 1) * row + y),
            )
        }),
{
    let v = draft_hidden(n, row);
    reveal_with_fuel(copied_from, 4);
    scaled(n - 1, n, row);
    assert((n - 1) * row + row == n * row) by (nonlinear_arith);
    assert(1 * row <= n * row) by (nonlinear_arith)
        requires
            1 <= n,
            0 < row,
    ;
    if n == 1 {
        assert((n - 1) * row == 0) by (nonlinear_arith)
            requires
                n == 1,
        ;
    }
}

proof fn draft_pairs_len(n: nat, row: int)
    ensures
        draft_pairs(n, row).len() == 2 * n,
    decreases n,
{
    if n > 0 {
        draft_pairs_len((n - 1) as nat, row);
    }
}

/// The draft layer's input pairs each token's embedding with its hidden state, in
/// that order.
pub proof fn draft_pairs_side_by_side(n: nat, row: int, i: int)
    requires
        0 <= i < n,
        0 <= row,
        n * 2 * row <= usize::MAX,
    ensures
        ({
            let v = draft_pairs(n, row);
            let (a, b) = (v[2 * i], v[2 * i + 1]);
            &&& v.len() == 2 * n
            &&& a.dst == Buffer::MtpX && b.dst == Buffer::MtpX
            &&& a.src == Buffer::MtpE && b.src == Buffer::MtpH
            &&& a.bytes == row && b.bytes == row
            &&& a.src_off == i * row && b.src_off == i * row
            &&& a.dst_off == 2 * (i * row) && b.dst_off == a.dst_off + row
        }),
    decreases n,
{
    draft_pairs_len(n, row);
    draft_pairs_len((n - 1) as nat, row);
    let m = n - 1;
    assert(0 <= i * row && i * 2 * row == 2 * (i * row) && i * 2 * row + 2 * row <= n * 2 * row
        && m * 2 * row <= n * 2 * row) by (nonlinear_arith)
        requires
            0 <= i < n,
            0 <= row,
            m == n - 1,
    ;
    if i < n - 1 {
        draft_pairs_side_by_side((n - 1) as nat, row, i);
    }
}

/// Logits are read from the last rows of a step.
pub proof fn logits_are_of_last_rows(n: int, k: int, row: int)
    requires
        0 <= k <= n,
        0 <= row,
        n * row <= usize::MAX,
    ensures
        ({
            let c = tail_copy(n, k, row);
            &&& c.src == Buffer::Cur && c.dst == Buffer::LastRow && c.dst_off == 0
            &&& c.bytes == k * row
            &&& c.src_off + c.bytes == n * row
        }),
{
    scaled(k, n, row);
    scaled(n - k, n, row);
    assert((n - k) * row + k * row == n * row) by (nonlinear_arith);
}

} // verus!
