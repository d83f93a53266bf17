//! One layer of a hybrid model as a list of launches, one token at a time, and
//! why none of them leaves its buffers.

use vstd::prelude::*;

use crate::buffers::{bytes_in, measure, most, q8_bytes, Buffer, Measure, Sizing};
use crate::graph::{allocated, capacity};
use crate::hybrid::{HybridKind, HybridShape};
use crate::shape::Shape;

verus! {

/// A buffer of the hybrid path.
#[derive(Debug, Clone, Copy, PartialEq, Eq, Hash, Structural)]
pub enum HybridBuffer {
    /// One of those every model has.
    Common(Buffer),
    Qkv,
    ConvOut,
    Z,
    Gq,
    Gk,
    Gv,
    Small,
    G,
    Beta,
    GdnO,
    GdnTmp,
    Qfull,
    Gate,
    SharedGate,
    /// Recurrent state of this layer.
    State(u32),
    /// Convolution window of this layer.
    Window(u32),
}

/// A weight of the hybrid path.
#[derive(Debug, Clone, Copy, PartialEq, Eq, Hash, Structural)]
pub enum HybridWeight {
    AttnNorm,
    Qkv,
    Z,
    Alpha,
    Beta,
    SsmNorm,
    SsmOut,
    AttnQ,
    AttnK,
    AttnV,
    QNorm,
    KNorm,
    AttnOutput,
    FfnNorm,
    GateInp,
    SharedGate,
    GateShexp,
    UpShexp,
    DownShexp,
}

/// A launch of the hybrid path, on one token.
#[allow(inconsistent_fields)]
#[derive(Debug, Clone, Copy, PartialEq, Eq, Structural)]
pub enum HybridOp {
    RmsNorm { out: Buffer, x: Buffer, w: HybridWeight },
    MatmulQ8 { out: HybridBuffer, w: HybridWeight, x: HybridBuffer, in_dim: u32, out_dim: u32 },
    MatmulF32 { out: HybridBuffer, w: HybridWeight, x: HybridBuffer, in_dim: u32, out_dim: u32 },
    /// Decay of each head, from what was just projected.
    Decay,
    /// Mixing coefficient of each head, from what was just projected.
    Mix,
    ConvStep { il: u32 },
    /// Normalizes the query and key heads in place.
    L2Norm,
    /// Copies query, key and value out of the convolution's output.
    Split,
    DeltaStep { il: u32 },
    HeadNorm { x: HybridBuffer, w: HybridWeight, rows: u32, dim: u32 },
    Swiglu { out: HybridBuffer, a: HybridBuffer, b: HybridBuffer, n: u32 },
    SplitGate,
    Rope { x: Buffer, heads: u32 },
    KvAppend { cache: Buffer, kv: Buffer },
    Attention { il: u32 },
    SigmoidGate,
    Add { out: Buffer, a: Buffer, b: Buffer },
    RouterSelect,
    /// Scales the shared expert's output by its own logit.
    ScaleShared,
    ZeroShared,
    Quantize,
}

/// How much a buffer holds: values, or bytes.
pub open spec fn hybrid_measure(b: HybridBuffer, h: HybridShape, z: Sizing, s: Shape) -> Measure {
    match b {
        HybridBuffer::Common(c) => measure(c, z, s, Seq::empty()),
        HybridBuffer::Qkv | HybridBuffer::ConvOut => Measure::Values(h.conv_dim()),
        HybridBuffer::Z | HybridBuffer::Gv | HybridBuffer::GdnO
            | HybridBuffer::GdnTmp => Measure::Values(h.value_dim()),
        HybridBuffer::Gq | HybridBuffer::Gk => Measure::Values(h.key_dim()),
        HybridBuffer::Small | HybridBuffer::G | HybridBuffer::Beta => Measure::Values(
            h.ssm_v_heads as int,
        ),
        HybridBuffer::Qfull => Measure::Values(2 * (s.n_head * s.head_dim)),
        HybridBuffer::Gate => Measure::Values(s.n_head * s.head_dim),
        HybridBuffer::SharedGate => Measure::Values(1),
        HybridBuffer::State(_) => Measure::Bytes(h.state_bytes()),
        HybridBuffer::Window(_) => Measure::Bytes(h.window_bytes()),
    }
}

/// Bytes that a buffer holds.
pub open spec fn hybrid_capacity(b: HybridBuffer, h: HybridShape, z: Sizing, s: Shape) -> int {
    match (b, hybrid_measure(b, h, z, s)) {
        (HybridBuffer::Common(c), _) => capacity(c, z, s, Seq::empty()),
        (_, Measure::Values(n)) => n * 4,
        (_, Measure::Bytes(n)) => n,
    }
}

/// Whether the sizes of a hybrid model fit the machine, its heads' included.
pub open spec fn hybrid_sized(h: HybridShape, s: Shape) -> bool {
    &&& h.fits()
    &&& 2 * (s.n_head * s.head_dim) <= u32::MAX
    &&& s.n_head_kv * s.head_dim <= u32::MAX
}

/// Tells whether the sizes of a hybrid model fit the machine.
pub fn hybrid_sizes_fit(h: &HybridShape, s: &Shape) -> (r: bool)
    ensures
        r == hybrid_sized(*h, *s),
{
    proof {
        let m: int = u32::MAX as int;
        let (a, b, c) = (s.n_head as int, s.n_head_kv as int, s.head_dim as int);
        assert(0 <= a * c <= m * m && 0 <= b * c <= m * m) by (nonlinear_arith)
            requires
                0 <= a <= m,
                0 <= b <= m,
                0 <= c <= m,
        ;
        assert(m * m <= 0x1_0000_0000_0000_0000) by (nonlinear_arith)
            requires
                m == 0xffff_ffff,
        ;
    }
    let heads: u128 = s.n_head as u128 * s.head_dim as u128;
    let kv: u128 = s.n_head_kv as u128 * s.head_dim as u128;
    h.fits_machine() && 2 * heads <= u32::MAX as u128 && kv <= u32::MAX as u128
}

/// Works out the size of a buffer of the hybrid path in bytes.
pub fn hybrid_bytes(b: HybridBuffer, h: &HybridShape, z: &Sizing, s: &Shape) -> (r: Option<usize>)
    requires
        h.fits(),
        2 * (s.n_head * s.head_dim) <= u32::MAX,
    ensures
        r == bytes_in(hybrid_measure(b, *h, *z, *s)),
{
    proof {
        h.sizes_not_negative();
        let (a, c) = (s.n_head as int, s.head_dim as int);
        assert(0 <= a * c) by (nonlinear_arith)
            requires
                0 <= a,
                0 <= c,
        ;
    }
    let d = h.dims();
    let heads: u32 = s.n_head * s.head_dim;
    match b {
        HybridBuffer::Common(c) => {
            let none: Vec<crate::loader::Geom> = Vec::new();
            assert(none@ =~= Seq::empty());
            crate::buffers::buffer_bytes(c, z, s, &none)
        },
        HybridBuffer::Qkv | HybridBuffer::ConvOut => four_bytes(d.conv_dim),
        HybridBuffer::Z | HybridBuffer::Gv | HybridBuffer::GdnO
            | HybridBuffer::GdnTmp => four_bytes(d.value_dim),
        HybridBuffer::Gq | HybridBuffer::Gk => four_bytes(d.key_dim),
        HybridBuffer::Small | HybridBuffer::G | HybridBuffer::Beta => four_bytes(h.ssm_v_heads),
        HybridBuffer::Qfull => four_bytes(2 * heads),
        HybridBuffer::Gate => four_bytes(heads),
        HybridBuffer::SharedGate => four_bytes(1),
        HybridBuffer::State(_) => Some(h.state_size().0),
        HybridBuffer::Window(_) => Some(h.state_size().1),
    }
}

fn four_bytes(n: u32) -> (r: Option<usize>)
    ensures
        r == bytes_in(Measure::Values(n as int)),
{
    if n as u64 * 4 <= usize::MAX as u64 {
        Some(n as usize * 4)
    } else {
        None
    }
}

/// Bytes that a launch reads or writes in each of its buffers.
pub open spec fn hybrid_accesses(op: HybridOp, h: HybridShape, z: Sizing, s: Shape) -> Seq<
    (HybridBuffer, int),
> {
    let row = s.n_embd * 4;
    let heads = s.n_head * s.head_dim;
    let c = |b: Buffer| HybridBuffer::Common(b);
    match op {
        HybridOp::RmsNorm { out, x, w } => seq![(c(out), row), (c(x), row)],
        HybridOp::MatmulQ8 { out, w, x, in_dim, out_dim } => seq![
            (out, out_dim * 4),
            (x, in_dim * 4),
        ],
        HybridOp::MatmulF32 { out, w, x, in_dim, out_dim } => seq![
            (out, out_dim * 4),
            (x, in_dim * 4),
        ],
        HybridOp::Decay => seq![
            (HybridBuffer::Small, h.ssm_v_heads * 4),
            (HybridBuffer::G, h.ssm_v_heads * 4),
        ],
        HybridOp::Mix => seq![
            (HybridBuffer::Small, h.ssm_v_heads * 4),
            (HybridBuffer::Beta, h.ssm_v_heads * 4),
        ],
        HybridOp::ConvStep { il } => seq![
            (HybridBuffer::ConvOut, h.conv_dim() * 4),
            (HybridBuffer::Qkv, h.conv_dim() * 4),
            (HybridBuffer::Window(il), h.window_bytes()),
        ],
        HybridOp::L2Norm => seq![(HybridBuffer::ConvOut, 2 * h.ssm_k_heads * h.ssm_state * 4)],
        HybridOp::Split => seq![
            (HybridBuffer::ConvOut, h.conv_dim() * 4),
            (HybridBuffer::Gq, h.key_dim() * 4),
            (HybridBuffer::Gk, h.key_dim() * 4),
            (HybridBuffer::Gv, h.value_dim() * 4),
        ],
        HybridOp::DeltaStep { il } => seq![
            (HybridBuffer::GdnO, h.value_dim() * 4),
            (HybridBuffer::State(il), h.state_bytes()),
            (HybridBuffer::Gq, h.key_dim() * 4),
            (HybridBuffer::Gk, h.key_dim() * 4),
            (HybridBuffer::Gv, h.value_dim() * 4),
            (HybridBuffer::G, h.ssm_v_heads * 4),
            (HybridBuffer::Beta, h.ssm_v_heads * 4),
        ],
        HybridOp::HeadNorm { x, w, rows, dim } => seq![(x, rows * dim * 4)],
        HybridOp::Swiglu { out, a, b, n } => seq![(out, n * 4), (a, n * 4), (b, n * 4)],
        HybridOp::SplitGate => seq![
            (c(Buffer::Q), heads * 4),
            (HybridBuffer::Gate, heads * 4),
            (HybridBuffer::Qfull, 2 * heads * 4),
        ],
        HybridOp::Rope { x, heads } => seq![(c(x), heads * s.head_dim * 4)],
        HybridOp::KvAppend { cache, kv } => seq![
            (c(cache), s.n_head_kv * z.ctx * s.head_dim * 4),
            (c(kv), s.n_head_kv * s.head_dim * 4),
        ],
        HybridOp::Attention { il } => seq![
            (c(Buffer::Heads), heads * 4),
            (c(Buffer::Q), heads * 4),
            (c(Buffer::Kcache(il)), s.n_head_kv * z.ctx * s.head_dim * 4),
            (c(Buffer::Vcache(il)), s.n_head_kv * z.ctx * s.head_dim * 4),
        ],
        HybridOp::SigmoidGate => seq![
            (c(Buffer::Heads), heads * 4),
            (HybridBuffer::Gate, heads * 4),
        ],
        HybridOp::Add { out, a, b } => seq![(c(out), row), (c(a), row), (c(b), row)],
        HybridOp::RouterSelect => seq![
            (c(Buffer::RouterSelected), s.n_expert_used * 4),
            (c(Buffer::RouterWeights), s.n_expert_used * 4),
            (c(Buffer::RouterLogits), s.n_expert * 4),
        ],
        HybridOp::ScaleShared => seq![
            (c(Buffer::SharedOut), row),
            (HybridBuffer::SharedGate, 4),
        ],
        HybridOp::ZeroShared => seq![(c(Buffer::SharedOut), row)],
        HybridOp::Quantize => seq![
            (c(Buffer::Xq), q8_bytes(1, s.n_embd as int)),
            (c(Buffer::Normed), row),
        ],
    }
}

/// Whether a launch stays inside its buffers.
pub open spec fn hybrid_fits(op: HybridOp, h: HybridShape, z: Sizing, s: Shape) -> bool {
    forall|i: int|
        0 <= i < hybrid_accesses(op, h, z, s).len() ==> {
            let a = #[trigger] hybrid_accesses(op, h, z, s)[i];
            a.1 <= hybrid_capacity(a.0, h, z, s)
        }
}

/// The recurrent half of a layer.
pub open spec fn delta_ops(il: u32, h: HybridShape, s: Shape) -> Seq<HybridOp> {
    let normed = HybridBuffer::Common(Buffer::Normed);
    let conv = h.conv_dim() as u32;
    let value = h.value_dim() as u32;
    seq![
        HybridOp::MatmulQ8 {
            out: HybridBuffer::Qkv,
            w: HybridWeight::Qkv,
            x: normed,
            in_dim: s.n_embd,
            out_dim: conv,
        },
        HybridOp::MatmulQ8 {
            out: HybridBuffer::Z,
            w: HybridWeight::Z,
            x: normed,
            in_dim: s.n_embd,
            out_dim: value,
        },
        HybridOp::MatmulF32 {
            out: HybridBuffer::Small,
            w: HybridWeight::Alpha,
            x: normed,
            in_dim: s.n_embd,
            out_dim: h.ssm_v_heads,
        },
        HybridOp::Decay,
        HybridOp::MatmulF32 {
            out: HybridBuffer::Small,
            w: HybridWeight::Beta,
            x: normed,
            in_dim: s.n_embd,
            out_dim: h.ssm_v_heads,
        },
        HybridOp::Mix,
        HybridOp::ConvStep { il },
        HybridOp::L2Norm,
        HybridOp::Split,
        HybridOp::DeltaStep { il },
        HybridOp::HeadNorm {
            x: HybridBuffer::GdnO,
            w: HybridWeight::SsmNorm,
            rows: h.ssm_v_heads,
            dim: h.ssm_state,
        },
        HybridOp::Swiglu {
            out: HybridBuffer::GdnTmp,
            a: HybridBuffer::Z,
            b: HybridBuffer::GdnO,
            n: value,
        },
        HybridOp::MatmulQ8 {
            out: HybridBuffer::Common(Buffer::AttnOut),
            w: HybridWeight::SsmOut,
            x: HybridBuffer::GdnTmp,
            in_dim: value,
            out_dim: s.n_embd,
        },
    ]
}

/// Gated full attention.
pub open spec fn full_ops(il: u32, s: Shape) -> Seq<HybridOp> {
    let normed = HybridBuffer::Common(Buffer::Normed);
    let heads = (s.n_head * s.head_dim) as u32;
    let kv = (s.n_head_kv * s.head_dim) as u32;
    seq![
        HybridOp::MatmulQ8 {
            out: HybridBuffer::Qfull,
            w: HybridWeight::AttnQ,
            x: normed,
            in_dim: s.n_embd,
            out_dim: (2 * heads) as u32,
        },
        HybridOp::SplitGate,
        HybridOp::MatmulQ8 {
            out: HybridBuffer::Common(Buffer::K),
            w: HybridWeight::AttnK,
            x: normed,
            in_dim: s.n_embd,
            out_dim: kv,
        },
        HybridOp::MatmulQ8 {
            out: HybridBuffer::Common(Buffer::V),
            w: HybridWeight::AttnV,
            x: normed,
            in_dim: s.n_embd,
            out_dim: kv,
        },
        HybridOp::HeadNorm {
            x: HybridBuffer::Common(Buffer::Q),
            w: HybridWeight::QNorm,
            rows: s.n_head,
            dim: s.head_dim,
        },
        HybridOp::HeadNorm {
            x: HybridBuffer::Common(Buffer::K),
            w: HybridWeight::KNorm,
            rows: s.n_head_kv,
            dim: s.head_dim,
        },
        HybridOp::Rope { x: Buffer::Q, heads: s.n_head },
        HybridOp::Rope { x: Buffer::K, heads: s.n_head_kv },
        HybridOp::KvAppend { cache: Buffer::Kcache(il), kv: Buffer::K },
        HybridOp::KvAppend { cache: Buffer::Vcache(il), kv: Buffer::V },
        HybridOp::Attention { il },
        HybridOp::SigmoidGate,
        HybridOp::MatmulQ8 {
            out: HybridBuffer::Common(Buffer::AttnOut),
            w: HybridWeight::AttnOutput,
            x: HybridBuffer::Common(Buffer::Heads),
            in_dim: heads,
            out_dim: s.n_embd,
        },
    ]
}

/// Routing and the shared expert.
pub open spec fn hybrid_ffn_ops(s: Shape, shexp: bool) -> Seq<HybridOp> {
    let normed = HybridBuffer::Common(Buffer::Normed);
    let shared = if shexp {
        seq![
            HybridOp::MatmulQ8 {
                out: HybridBuffer::Common(Buffer::GateAct),
                w: HybridWeight::GateShexp,
                x: normed,
                in_dim: s.n_embd,
                out_dim: s.n_ff_exp,
            },
            HybridOp::MatmulQ8 {
                out: HybridBuffer::Common(Buffer::UpAct),
                w: HybridWeight::UpShexp,
                x: normed,
                in_dim: s.n_embd,
                out_dim: s.n_ff_exp,
            },
            HybridOp::Swiglu {
                out: HybridBuffer::Common(Buffer::FfnMid),
                a: HybridBuffer::Common(Buffer::GateAct),
                b: HybridBuffer::Common(Buffer::UpAct),
                n: s.n_ff_exp,
            },
            HybridOp::MatmulQ8 {
                out: HybridBuffer::Common(Buffer::SharedOut),
                w: HybridWeight::DownShexp,
                x: HybridBuffer::Common(Buffer::FfnMid),
                in_dim: s.n_ff_exp,
                out_dim: s.n_embd,
            },
            HybridOp::MatmulF32 {
                out: HybridBuffer::SharedGate,
                w: HybridWeight::SharedGate,
                x: normed,
                in_dim: s.n_embd,
                out_dim: 1,
            },
            HybridOp::ScaleShared,
        ]
    } else {
        seq![HybridOp::ZeroShared]
    };
    seq![
        HybridOp::Add { out: Buffer::AfterAttn, a: Buffer::Cur, b: Buffer::AttnOut },
        HybridOp::RmsNorm {
            out: Buffer::Normed,
            x: Buffer::AfterAttn,
            w: HybridWeight::FfnNorm,
        },
        HybridOp::MatmulF32 {
            out: HybridBuffer::Common(Buffer::RouterLogits),
            w: HybridWeight::GateInp,
            x: normed,
            in_dim: s.n_embd,
            out_dim: s.n_expert,
        },
        HybridOp::RouterSelect,
    ] + shared + seq![HybridOp::Quantize]
}

/// A layer up to where its experts are resolved.
pub open spec fn hybrid_ops(
    il: u32,
    kind: HybridKind,
    h: HybridShape,
    s: Shape,
    shexp: bool,
) -> Seq<HybridOp> {
    let attend = match kind {
        HybridKind::Delta => delta_ops(il, h, s),
        HybridKind::Full => full_ops(il, s),
    };
    seq![
        HybridOp::RmsNorm { out: Buffer::Normed, x: Buffer::Cur, w: HybridWeight::AttnNorm },
    ] + attend + hybrid_ffn_ops(s, shexp)
}

/// What follows the routed experts.
pub open spec fn hybrid_tail_ops() -> Seq<HybridOp> {
    seq![
        HybridOp::Add { out: Buffer::FfnOut, a: Buffer::MoeOut, b: Buffer::SharedOut },
        HybridOp::Add { out: Buffer::Cur, a: Buffer::AfterAttn, b: Buffer::FfnOut },
    ]
}

/// What the buffers promise for one token.
proof fn one_token(z: Sizing, s: Shape)
    requires
        allocated(z, s, Seq::empty()),
        z.mb >= 1,
    ensures
        s.n_embd <= z.mb * s.n_embd,
        0 <= s.n_head * s.head_dim <= u32::MAX,
        s.n_head * s.head_dim <= z.mb * s.n_head * most(
            s.head_dim as int,
            s.qk_nope + s.qk_rope,
        ),
        s.n_head * s.head_dim <= z.mb * most(s.heads_width(), s.n_head * s.head_dim),
        0 <= s.n_head_kv * s.head_dim <= z.mb * s.n_head_kv * s.head_dim,
        s.n_head_kv * s.head_dim <= u32::MAX,
        s.n_ff_exp <= z.mb * most(s.n_ff_dense as int, s.n_ff_exp as int),
        s.n_expert <= z.mb * s.n_expert,
        s.n_expert_used <= z.mb * s.n_expert_used,
        q8_bytes(1, s.n_embd as int) <= q8_bytes(z.mb as int, s.n_embd as int),
{
    let m = z.mb as int;
    let blocks = (s.n_embd + 255) / 256;
    assert(1 * blocks <= m * blocks) by (nonlinear_arith)
        requires
            1 <= m,
            0 <= blocks,
    ;
    let (nh, kv, hd) = (s.n_head as int, s.n_head_kv as int, s.head_dim as int);
    let wide = most(hd, s.qk_nope + s.qk_rope);
    let over = most(s.heads_width(), nh * hd);
    assert(bytes_in(measure(Buffer::Q, z, s, Seq::empty())) is Some);
    assert(bytes_in(measure(Buffer::K, z, s, Seq::empty())) is Some);
    assert(s.n_embd <= m * s.n_embd) by (nonlinear_arith)
        requires
            1 <= m,
            0 <= s.n_embd,
    ;
    assert(0 <= nh * hd <= m * nh * wide) by (nonlinear_arith)
        requires
            1 <= m,
            0 <= nh,
            0 <= hd <= wide,
    ;
    assert(nh * hd <= m * over) by (nonlinear_arith)
        requires
            1 <= m,
            0 <= nh * hd <= over,
    ;
    assert(0 <= kv * hd <= m * kv * hd) by (nonlinear_arith)
        requires
            1 <= m,
            0 <= kv,
            0 <= hd,
    ;
    let f = most(s.n_ff_dense as int, s.n_ff_exp as int);
    assert(f <= m * f) by (nonlinear_arith)
        requires
            1 <= m,
            0 <= f,
    ;
    assert(s.n_expert <= m * s.n_expert && s.n_expert_used <= m * s.n_expert_used)
        by (nonlinear_arith)
        requires
            1 <= m,
            0 <= s.n_expert,
            0 <= s.n_expert_used,
    ;
}

/// Whether every launch of a list stays inside its buffers.
pub open spec fn hybrid_all_fit(ops: Seq<HybridOp>, h: HybridShape, z: Sizing, s: Shape) -> bool {
    forall|i: int| 0 <= i < ops.len() ==> hybrid_fits(#[trigger] ops[i], h, z, s)
}

proof fn hybrid_concat(a: Seq<HybridOp>, b: Seq<HybridOp>, h: HybridShape, z: Sizing, s: Shape)
    requires
        hybrid_all_fit(a, h, z, s),
        hybrid_all_fit(b, h, z, s),
    ensures
        hybrid_all_fit(a + b, h, z, s),
{
    let c = a + b;
    assert forall|i: int| 0 <= i < c.len() implies hybrid_fits(#[trigger] c[i], h, z, s) by {
        if i < a.len() {
            assert(c[i] == a[i]);
        } else {
            assert(c[i] == b[i - a.len()]);
        }
    }
}

proof fn delta_inside(il: u32, h: HybridShape, z: Sizing, s: Shape)
    requires
        h.fits(),
        allocated(z, s, Seq::empty()),
        z.mb >= 1,
    ensures
        hybrid_all_fit(delta_ops(il, h, s), h, z, s),
{
    let ops = delta_ops(il, h, s);
    one_token(z, s);
    h.sizes_not_negative();
    assert(2 * h.ssm_k_heads * h.ssm_state == 2 * (h.ssm_k_heads * h.ssm_state))
        by (nonlinear_arith);
    assert forall|i: int| 0 <= i < ops.len() implies hybrid_fits(#[trigger] ops[i], h, z, s) by {
        let op = ops[i];
        assert forall|k: int| 0 <= k < hybrid_accesses(op, h, z, s).len() implies {
            let a = #[trigger] hybrid_accesses(op, h, z, s)[k];
            a.1 <= hybrid_capacity(a.0, h, z, s)
        } by {}
    }
}

proof fn full_inside(il: u32, h: HybridShape, z: Sizing, s: Shape)
    requires
        h.fits(),
        allocated(z, s, Seq::empty()),
        z.mb >= 1,
        s.family == crate::shape::Family::Gqa,
        2 * (s.n_head * s.head_dim) <= u32::MAX,
    ensures
        hybrid_all_fit(full_ops(il, s), h, z, s),
{
    let ops = full_ops(il, s);
    one_token(z, s);
    assert forall|i: int| 0 <= i < ops.len() implies hybrid_fits(#[trigger] ops[i], h, z, s) by {
        let op = ops[i];
        assert forall|k: int| 0 <= k < hybrid_accesses(op, h, z, s).len() implies {
            let a = #[trigger] hybrid_accesses(op, h, z, s)[k];
            a.1 <= hybrid_capacity(a.0, h, z, s)
        } by {}
    }
}

proof fn hybrid_ffn_inside(h: HybridShape, z: Sizing, s: Shape, shexp: bool)
    requires
        h.fits(),
        allocated(z, s, Seq::empty()),
        z.mb >= 1,
    ensures
        hybrid_all_fit(hybrid_ffn_ops(s, shexp), h, z, s),
{
    let ops = hybrid_ffn_ops(s, shexp);
    one_token(z, s);
    assert forall|i: int| 0 <= i < ops.len() implies hybrid_fits(#[trigger] ops[i], h, z, s) by {
        let op = ops[i];
        assert forall|k: int| 0 <= k < hybrid_accesses(op, h, z, s).len() implies {
            let a = #[trigger] hybrid_accesses(op, h, z, s)[k];
            a.1 <= hybrid_capacity(a.0, h, z, s)
        } by {}
    }
}

/// No launch of a hybrid layer leaves its buffers.
pub proof fn hybrid_stays_inside(
    il: u32,
    kind: HybridKind,
    h: HybridShape,
    z: Sizing,
    s: Shape,
    shexp: bool,
)
    requires
        h.fits(),
        allocated(z, s, Seq::empty()),
        z.mb >= 1,
        s.family == crate::shape::Family::Gqa,
        2 * (s.n_head * s.head_dim) <= u32::MAX,
    ensures
        hybrid_all_fit(hybrid_ops(il, kind, h, s, shexp), h, z, s),
        hybrid_all_fit(hybrid_tail_ops(), h, z, s),
{
    one_token(z, s);
    let ops = seq![
        HybridOp::RmsNorm { out: Buffer::Normed, x: Buffer::Cur, w: HybridWeight::AttnNorm },
    ] + hybrid_tail_ops();
    assert forall|i: int| 0 <= i < ops.len() implies hybrid_fits(#[trigger] ops[i], h, z, s) by {
        let op = ops[i];
        assert forall|k: int| 0 <= k < hybrid_accesses(op, h, z, s).len() implies {
            let a = #[trigger] hybrid_accesses(op, h, z, s)[k];
            a.1 <= hybrid_capacity(a.0, h, z, s)
        } by {}
    }
    let norm = seq![
        HybridOp::RmsNorm { out: Buffer::Normed, x: Buffer::Cur, w: HybridWeight::AttnNorm },
    ];
    let tail = hybrid_tail_ops();
    assert forall|i: int| 0 <= i < norm.len() implies hybrid_fits(#[trigger] norm[i], h, z, s) by {
        assert(norm[i] == ops[i]);
    }
    assert forall|i: int| 0 <= i < tail.len() implies hybrid_fits(#[trigger] tail[i], h, z, s) by {
        assert(tail[i] == ops[i + 1]);
    }
    let attend = match kind {
        HybridKind::Delta => delta_ops(il, h, s),
        HybridKind::Full => full_ops(il, s),
    };
    delta_inside(il, h, z, s);
    full_inside(il, h, z, s);
    hybrid_ffn_inside(h, z, s, shexp);
    hybrid_concat(norm, attend, h, z, s);
    hybrid_concat(norm + attend, hybrid_ffn_ops(s, shexp), h, z, s);
}

fn push_delta(ops: &mut Vec<HybridOp>, il: u32, h: &HybridShape, s: &Shape)
    requires
        h.fits(),
    ensures
        final(ops)@ == old(ops)@ + delta_ops(il, *h, *s),
{
    let normed: HybridBuffer = HybridBuffer::Common(Buffer::Normed);
    let d = h.dims();
    ops.push(
        HybridOp::MatmulQ8 {
            out: HybridBuffer::Qkv,
            w: HybridWeight::Qkv,
            x: normed,
            in_dim: s.n_embd,
            out_dim: d.conv_dim,
        },
    );
    ops.push(
        HybridOp::MatmulQ8 {
            out: HybridBuffer::Z,
            w: HybridWeight::Z,
            x: normed,
            in_dim: s.n_embd,
            out_dim: d.value_dim,
        },
    );
    ops.push(
        HybridOp::MatmulF32 {
            out: HybridBuffer::Small,
            w: HybridWeight::Alpha,
            x: normed,
            in_dim: s.n_embd,
            out_dim: h.ssm_v_heads,
        },
    );
    ops.push(HybridOp::Decay);
    ops.push(
        HybridOp::MatmulF32 {
            out: HybridBuffer::Small,
            w: HybridWeight::Beta,
            x: normed,
            in_dim: s.n_embd,
            out_dim: h.ssm_v_heads,
        },
    );
    ops.push(HybridOp::Mix);
    ops.push(HybridOp::ConvStep { il });
    ops.push(HybridOp::L2Norm);
    ops.push(HybridOp::Split);
    ops.push(HybridOp::DeltaStep { il });
    ops.push(
        HybridOp::HeadNorm {
            x: HybridBuffer::GdnO,
            w: HybridWeight::SsmNorm,
            rows: h.ssm_v_heads,
            dim: h.ssm_state,
        },
    );
    ops.push(
        HybridOp::Swiglu {
            out: HybridBuffer::GdnTmp,
            a: HybridBuffer::Z,
            b: HybridBuffer::GdnO,
            n: d.value_dim,
        },
    );
    ops.push(
        HybridOp::MatmulQ8 {
            out: HybridBuffer::Common(Buffer::AttnOut),
            w: HybridWeight::SsmOut,
            x: HybridBuffer::GdnTmp,
            in_dim: d.value_dim,
            out_dim: s.n_embd,
        },
    );
    assert(ops@ =~= old(ops)@ + delta_ops(il, *h, *s));
}

fn push_full(ops: &mut Vec<HybridOp>, il: u32, s: &Shape)
    requires
        2 * (s.n_head * s.head_dim) <= u32::MAX,
        s.n_head_kv * s.head_dim <= u32::MAX,
    ensures
        final(ops)@ == old(ops)@ + full_ops(il, *s),
{
    let normed: HybridBuffer = HybridBuffer::Common(Buffer::Normed);
    proof {
        let (a, b, c) = (s.n_head as int, s.n_head_kv as int, s.head_dim as int);
        assert(0 <= a * c && 0 <= b * c) by (nonlinear_arith)
            requires
                0 <= a,
                0 <= b,
                0 <= c,
        ;
    }
    let heads: u32 = s.n_head * s.head_dim;
    let kv: u32 = s.n_head_kv * s.head_dim;
    ops.push(
        HybridOp::MatmulQ8 {
            out: HybridBuffer::Qfull,
            w: HybridWeight::AttnQ,
            x: normed,
            in_dim: s.n_embd,
            out_dim: 2 * heads,
        },
    );
    ops.push(HybridOp::SplitGate);
    ops.push(
        HybridOp::MatmulQ8 {
            out: HybridBuffer::Common(Buffer::K),
            w: HybridWeight::AttnK,
            x: normed,
            in_dim: s.n_embd,
            out_dim: kv,
        },
    );
    ops.push(
        HybridOp::MatmulQ8 {
            out: HybridBuffer::Common(Buffer::V),
            w: HybridWeight::AttnV,
            x: normed,
            in_dim: s.n_embd,
            out_dim: kv,
        },
    );
    ops.push(
        HybridOp::HeadNorm {
            x: HybridBuffer::Common(Buffer::Q),
            w: HybridWeight::QNorm,
            rows: s.n_head,
            dim: s.head_dim,
        },
    );
    ops.push(
        HybridOp::HeadNorm {
            x: HybridBuffer::Common(Buffer::K),
            w: HybridWeight::KNorm,
            rows: s.n_head_kv,
            dim: s.head_dim,
        },
    );
    ops.push(HybridOp::Rope { x: Buffer::Q, heads: s.n_head });
    ops.push(HybridOp::Rope { x: Buffer::K, heads: s.n_head_kv });
    ops.push(HybridOp::KvAppend { cache: Buffer::Kcache(il), kv: Buffer::K });
    ops.push(HybridOp::KvAppend { cache: Buffer::Vcache(il), kv: Buffer::V });
    ops.push(HybridOp::Attention { il });
    ops.push(HybridOp::SigmoidGate);
    ops.push(
        HybridOp::MatmulQ8 {
            out: HybridBuffer::Common(Buffer::AttnOut),
            w: HybridWeight::AttnOutput,
            x: HybridBuffer::Common(Buffer::Heads),
            in_dim: heads,
            out_dim: s.n_embd,
        },
    );
    assert(ops@ =~= old(ops)@ + full_ops(il, *s));
}

/// Lists the launches of a hybrid layer up to where its experts are resolved.
pub fn plan_hybrid(il: u32, kind: HybridKind, h: &HybridShape, s: &Shape, shexp: bool) -> (ops: Vec<
    HybridOp,
>)
    requires
        h.fits(),
        2 * (s.n_head * s.head_dim) <= u32::MAX,
        s.n_head_kv * s.head_dim <= u32::MAX,
    ensures
        ops@ == hybrid_ops(il, kind, *h, *s, shexp),
{
    let normed: HybridBuffer = HybridBuffer::Common(Buffer::Normed);
    let mut ops: Vec<HybridOp> = Vec::new();
    ops.push(
        HybridOp::RmsNorm { out: Buffer::Normed, x: Buffer::Cur, w: HybridWeight::AttnNorm },
    );
    match kind {
        HybridKind::Delta => push_delta(&mut ops, il, h, s),
        HybridKind::Full => push_full(&mut ops, il, s),
    }
    ops.push(HybridOp::Add { out: Buffer::AfterAttn, a: Buffer::Cur, b: Buffer::AttnOut });
    ops.push(
        HybridOp::RmsNorm { out: Buffer::Normed, x: Buffer::AfterAttn, w: HybridWeight::FfnNorm },
    );
    ops.push(
        HybridOp::MatmulF32 {
            out: HybridBuffer::Common(Buffer::RouterLogits),
            w: HybridWeight::GateInp,
            x: normed,
            in_dim: s.n_embd,
            out_dim: s.n_expert,
        },
    );
    ops.push(HybridOp::RouterSelect);
    if shexp {
        ops.push(
            HybridOp::MatmulQ8 {
                out: HybridBuffer::Common(Buffer::GateAct),
                w: HybridWeight::GateShexp,
                x: normed,
                in_dim: s.n_embd,
                out_dim: s.n_ff_exp,
            },
        );
        ops.push(
            HybridOp::MatmulQ8 {
                out: HybridBuffer::Common(Buffer::UpAct),
                w: HybridWeight::UpShexp,
                x: normed,
                in_dim: s.n_embd,
                out_dim: s.n_ff_exp,
            },
        );
        ops.push(
            HybridOp::Swiglu {
                out: HybridBuffer::Common(Buffer::FfnMid),
                a: HybridBuffer::Common(Buffer::GateAct),
                b: HybridBuffer::Common(Buffer::UpAct),
                n: s.n_ff_exp,
            },
        );
        ops.push(
            HybridOp::MatmulQ8 {
                out: HybridBuffer::Common(Buffer::SharedOut),
                w: HybridWeight::DownShexp,
                x: HybridBuffer::Common(Buffer::FfnMid),
                in_dim: s.n_ff_exp,
                out_dim: s.n_embd,
            },
        );
        ops.push(
            HybridOp::MatmulF32 {
                out: HybridBuffer::SharedGate,
                w: HybridWeight::SharedGate,
                x: normed,
                in_dim: s.n_embd,
                out_dim: 1,
            },
        );
        ops.push(HybridOp::ScaleShared);
    } else {
        ops.push(HybridOp::ZeroShared);
    }
    ops.push(HybridOp::Quantize);
    assert(ops@ =~= hybrid_ops(il, kind, *h, *s, shexp));
    ops
}

/// Lists the launches that follow the routed experts.
pub fn plan_hybrid_tail() -> (ops: Vec<HybridOp>)
    ensures
        ops@ == hybrid_tail_ops(),
{
    let mut ops: Vec<HybridOp> = Vec::new();
    ops.push(HybridOp::Add { out: Buffer::FfnOut, a: Buffer::MoeOut, b: Buffer::SharedOut });
    ops.push(HybridOp::Add { out: Buffer::Cur, a: Buffer::AfterAttn, b: Buffer::FfnOut });
    assert(ops@ =~= hybrid_tail_ops());
    ops
}

} // verus!
