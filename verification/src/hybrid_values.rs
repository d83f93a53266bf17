//! What a hybrid layer computes: the value that its launches leave in the
//! residual stream and in what it keeps between tokens, as expressions over the
//! kernels and the values that were there before.

use vstd::prelude::*;

#[allow(unused_imports)]
use crate::buffers::Buffer;
#[allow(unused_imports)]
use crate::dataflow::{kernel, reads, writes};
#[allow(unused_imports)]
use crate::flow::Touches;
#[allow(unused_imports)]
use crate::graph::{routed_ops, LayerStep, Op};
#[allow(unused_imports)]
use crate::hybrid::{HybridKind, HybridShape};
#[allow(unused_imports)]
use crate::hybrid_flow::{hybrid_layer_ops, own, routed, HybridStep};
#[allow(unused_imports)]
use crate::hybrid_graph::{
    delta_ops, full_ops, hybrid_ffn_ops, hybrid_tail_ops, HybridBuffer, HybridOp, HybridWeight,
};
#[allow(unused_imports)]
use crate::shape::Shape;

verus! {

/// What the buffers hold.
pub type HybridValues = Map<HybridBuffer, int>;

/// What kernels compute: the value of a launch's `i`-th output, from what the
/// launch is and what it reads.
pub type HybridKernels = spec_fn(HybridStep, int, Seq<int>) -> int;

/// A launch without the names of the buffers that it is given.
pub open spec fn bare(step: HybridStep) -> HybridStep {
    let c = Buffer::Tok;
    let b = HybridBuffer::Common(c);
    match step {
        HybridStep::Routed(op) => HybridStep::Routed(kernel(op)),
        HybridStep::Own(op) => HybridStep::Own(
            match op {
                HybridOp::RmsNorm { out, x, w } => HybridOp::RmsNorm { out: c, x: c, w },
                HybridOp::MatmulQ8 { out, w, x, in_dim, out_dim } => HybridOp::MatmulQ8 {
                    out: b,
                    w,
                    x: b,
                    in_dim,
                    out_dim,
                },
                HybridOp::MatmulF32 { out, w, x, in_dim, out_dim } => HybridOp::MatmulF32 {
                    out: b,
                    w,
                    x: b,
                    in_dim,
                    out_dim,
                },
                HybridOp::HeadNorm { x, w, rows, dim } => HybridOp::HeadNorm { x: b, w, rows, dim },
                HybridOp::Swiglu { out, a, b: d, n } => HybridOp::Swiglu { out: b, a: b, b, n },
                HybridOp::Rope { x, heads } => HybridOp::Rope { x: c, heads },
                HybridOp::KvAppend { cache, kv } => HybridOp::KvAppend { cache: c, kv: c },
                HybridOp::Add { out, a, b: d } => HybridOp::Add { out: c, a: c, b: c },
                other => other,
            },
        ),
    }
}

/// The value of a launch's `i`-th output.
pub open spec fn yields(step: HybridStep, i: int, k: HybridKernels, v: HybridValues) -> int {
    k(bare(step), i, step.reads_of().map_values(|b: HybridBuffer| v[b]))
}

/// The buffers after the first `n` outputs of a launch have been written.
pub open spec fn written(
    step: HybridStep,
    n: int,
    k: HybridKernels,
    v: HybridValues,
) -> HybridValues
    decreases n,
{
    if n <= 0 {
        v
    } else {
        written(step, n - 1, k, v).insert(step.fills_of()[n - 1], yields(step, n - 1, k, v))
    }
}

/// The buffers after a launch.
pub open spec fn after(step: HybridStep, k: HybridKernels, v: HybridValues) -> HybridValues {
    written(step, step.fills_of().len() as int, k, v)
}

/// The buffers after the first `n` launches of a list.
pub open spec fn after_first(
    ops: Seq<HybridStep>,
    n: int,
    k: HybridKernels,
    v: HybridValues,
) -> HybridValues
    decreases n,
{
    if n <= 0 {
        v
    } else {
        after(ops[n - 1], k, after_first(ops, n - 1, k, v))
    }
}

/// The buffers after a whole list of launches.
pub open spec fn after_all(
    ops: Seq<HybridStep>,
    k: HybridKernels,
    v: HybridValues,
) -> HybridValues {
    after_first(ops, ops.len() as int, k, v)
}

proof fn after_prefix(
    a: Seq<HybridStep>,
    b: Seq<HybridStep>,
    n: int,
    k: HybridKernels,
    v: HybridValues,
)
    requires
        0 <= n <= a.len(),
    ensures
        after_first(a + b, n, k, v) == after_first(a, n, k, v),
    decreases n,
{
    if n > 0 {
        after_prefix(a, b, n - 1, k, v);
        assert((a + b)[n - 1] == a[n - 1]);
    }
}

proof fn after_suffix(
    a: Seq<HybridStep>,
    b: Seq<HybridStep>,
    m: int,
    k: HybridKernels,
    v: HybridValues,
)
    requires
        0 <= m <= b.len(),
    ensures
        after_first(a + b, a.len() + m, k, v) == after_first(b, m, k, after_all(a, k, v)),
    decreases m,
{
    if m > 0 {
        after_suffix(a, b, m - 1, k, v);
        assert((a + b)[a.len() + m - 1] == b[m - 1]);
    } else {
        after_prefix(a, b, a.len() as int, k, v);
    }
}

proof fn after_concat(
    a: Seq<HybridStep>,
    b: Seq<HybridStep>,
    k: HybridKernels,
    v: HybridValues,
)
    ensures
        after_all(a + b, k, v) == after_all(b, k, after_all(a, k, v)),
{
    after_suffix(a, b, b.len() as int, k, v);
}

/// One more launch of a list, and what it gives.
proof fn step_gives(
    ops: Seq<HybridStep>,
    n: int,
    k: HybridKernels,
    v: HybridValues,
    xs: Seq<int>,
)
    requires
        0 <= n < ops.len(),
        xs.len() == ops[n].reads_of().len(),
        forall|j: int|
            0 <= j < xs.len() ==> #[trigger] xs[j] == after_first(ops, n, k, v)[ops[n].reads_of()[j]],
        1 <= ops[n].fills_of().len() <= 3,
    ensures
        ({
            let e = after_first(ops, n, k, v);
            let w = ops[n].fills_of();
            let b = bare(ops[n]);
            &&& after_first(ops, 0, k, v) == v
            &&& after_first(ops, n + 1, k, v) == (if w.len() == 1 {
                e.insert(w[0], k(b, 0, xs))
            } else if w.len() == 2 {
                e.insert(w[0], k(b, 0, xs)).insert(w[1], k(b, 1, xs))
            } else {
                e.insert(w[0], k(b, 0, xs)).insert(w[1], k(b, 1, xs)).insert(w[2], k(b, 2, xs))
            })
        }),
{
    let e = after_first(ops, n, k, v);
    assert(ops[n].reads_of().map_values(|b: HybridBuffer| e[b]) =~= xs);
    reveal_with_fuel(written, 4);
}

/// `x` normed by a weight of the layer.
pub open spec fn h_normed(k: HybridKernels, w: HybridWeight, x: int) -> int {
    k(
        HybridStep::Own(HybridOp::RmsNorm { out: Buffer::Tok, x: Buffer::Tok, w }),
        0,
        seq![x],
    )
}

/// `x` times a quantized matrix.
pub open spec fn h_times(
    k: HybridKernels,
    w: HybridWeight,
    in_dim: u32,
    out_dim: u32,
    x: int,
) -> int {
    let b = HybridBuffer::Common(Buffer::Tok);
    k(HybridStep::Own(HybridOp::MatmulQ8 { out: b, w, x: b, in_dim, out_dim }), 0, seq![x])
}

/// `x` times a matrix in single precision.
pub open spec fn h_times_f32(
    k: HybridKernels,
    w: HybridWeight,
    in_dim: u32,
    out_dim: u32,
    x: int,
) -> int {
    let b = HybridBuffer::Common(Buffer::Tok);
    k(HybridStep::Own(HybridOp::MatmulF32 { out: b, w, x: b, in_dim, out_dim }), 0, seq![x])
}

/// `x` normed head by head.
pub open spec fn h_head_normed(
    k: HybridKernels,
    w: HybridWeight,
    rows: u32,
    dim: u32,
    x: int,
) -> int {
    let b = HybridBuffer::Common(Buffer::Tok);
    k(HybridStep::Own(HybridOp::HeadNorm { x: b, w, rows, dim }), 0, seq![x])
}

/// `x` rotated head by head.
pub open spec fn h_rotated(k: HybridKernels, heads: u32, x: int) -> int {
    k(HybridStep::Own(HybridOp::Rope { x: Buffer::Tok, heads }), 0, seq![x])
}

/// A cache with the token's row appended.
pub open spec fn h_appended(k: HybridKernels, cache: int, x: int) -> int {
    k(
        HybridStep::Own(HybridOp::KvAppend { cache: Buffer::Tok, kv: Buffer::Tok }),
        0,
        seq![cache, x],
    )
}

/// `a` behind the activation, times `b`.
pub open spec fn h_gated(k: HybridKernels, n: u32, a: int, b: int) -> int {
    let c = HybridBuffer::Common(Buffer::Tok);
    k(HybridStep::Own(HybridOp::Swiglu { out: c, a: c, b: c, n }), 0, seq![a, b])
}

/// The sum of two rows.
pub open spec fn h_sum(k: HybridKernels, a: int, b: int) -> int {
    k(
        HybridStep::Own(
            HybridOp::Add { out: Buffer::Tok, a: Buffer::Tok, b: Buffer::Tok },
        ),
        0,
        seq![a, b],
    )
}

/// The buffers that a full attention block writes.
pub open spec fn full_scratch(b: HybridBuffer, il: u32) -> bool {
    ||| b == HybridBuffer::Qfull
    ||| b == HybridBuffer::Gate
    ||| b == HybridBuffer::Common(Buffer::Q)
    ||| b == HybridBuffer::Common(Buffer::K)
    ||| b == HybridBuffer::Common(Buffer::V)
    ||| b == HybridBuffer::Common(Buffer::Heads)
    ||| b == HybridBuffer::Common(Buffer::AttnOut)
    ||| b == HybridBuffer::Common(Buffer::Kcache(il))
    ||| b == HybridBuffer::Common(Buffer::Vcache(il))
}

/// Gated full attention over the normed stream `x`: the query projection gives
/// the queries and a gate; queries and keys are normed head by head and rotated;
/// the key cache takes in the keys and the value cache the bare value projection
/// of `x`; what the queries find is gated and projected.
#[verifier::rlimit(60)]
pub proof fn full_attention_computes(il: u32, s: Shape, k: HybridKernels, v: HybridValues)
    ensures
        ({
            let e = after_all(own(full_ops(il, s)), k, v);
            let (kc, vc) = (
                HybridBuffer::Common(Buffer::Kcache(il)),
                HybridBuffer::Common(Buffer::Vcache(il)),
            );
            let x = v[HybridBuffer::Common(Buffer::Normed)];
            let (qw, kvw) = ((s.n_head * s.head_dim) as u32, (s.n_head_kv * s.head_dim) as u32);
            let both = h_times(k, HybridWeight::AttnQ, s.n_embd, (2 * qw) as u32, x);
            let split = HybridStep::Own(HybridOp::SplitGate);
            let query = h_rotated(
                k,
                s.n_head,
                h_head_normed(
                    k,
                    HybridWeight::QNorm,
                    s.n_head,
                    s.head_dim,
                    k(split, 0, seq![both]),
                ),
            );
            let key = h_rotated(
                k,
                s.n_head_kv,
                h_head_normed(
                    k,
                    HybridWeight::KNorm,
                    s.n_head_kv,
                    s.head_dim,
                    h_times(k, HybridWeight::AttnK, s.n_embd, kvw, x),
                ),
            );
            let value = h_times(k, HybridWeight::AttnV, s.n_embd, kvw, x);
            let heads = k(
                HybridStep::Own(HybridOp::Attention { il }),
                0,
                seq![query, e[kc], e[vc]],
            );
            let gated = k(
                HybridStep::Own(HybridOp::SigmoidGate),
                0,
                seq![heads, k(split, 1, seq![both])],
            );
            &&& e[kc] == h_appended(k, v[kc], key)
            &&& e[vc] == h_appended(k, v[vc], value)
            &&& e[HybridBuffer::Common(Buffer::AttnOut)] == h_times(
                k,
                HybridWeight::AttnOutput,
                qw,
                s.n_embd,
                gated,
            )
            &&& forall|b: HybridBuffer| !full_scratch(b, il) ==> #[trigger] e[b] == v[b]
        }),
{
    let ops = own(full_ops(il, s));
    assert(ops.len() == 13);
    let x = HybridBuffer::Common(Buffer::Normed);
    let (q, kk, vv) = (
        HybridBuffer::Common(Buffer::Q),
        HybridBuffer::Common(Buffer::K),
        HybridBuffer::Common(Buffer::V),
    );
    let (kc, vc) = (
        HybridBuffer::Common(Buffer::Kcache(il)),
        HybridBuffer::Common(Buffer::Vcache(il)),
    );
    let heads = HybridBuffer::Common(Buffer::Heads);
    step_gives(ops, 0, k, v, seq![v[x]]);
    let e1 = after_first(ops, 1, k, v);
    step_gives(ops, 1, k, v, seq![e1[HybridBuffer::Qfull]]);
    let e2 = after_first(ops, 2, k, v);
    step_gives(ops, 2, k, v, seq![e2[x]]);
    let e3 = after_first(ops, 3, k, v);
    step_gives(ops, 3, k, v, seq![e3[x]]);
    let e4 = after_first(ops, 4, k, v);
    step_gives(ops, 4, k, v, seq![e4[q]]);
    let e5 = after_first(ops, 5, k, v);
    step_gives(ops, 5, k, v, seq![e5[kk]]);
    let e6 = after_first(ops, 6, k, v);
    step_gives(ops, 6, k, v, seq![e6[q]]);
    let e7 = after_first(ops, 7, k, v);
    step_gives(ops, 7, k, v, seq![e7[kk]]);
    let e8 = after_first(ops, 8, k, v);
    step_gives(ops, 8, k, v, seq![e8[kc], e8[kk]]);
    let e9 = after_first(ops, 9, k, v);
    step_gives(ops, 9, k, v, seq![e9[vc], e9[vv]]);
    let e10 = after_first(ops, 10, k, v);
    step_gives(ops, 10, k, v, seq![e10[q], e10[kc], e10[vc]]);
    let e11 = after_first(ops, 11, k, v);
    step_gives(ops, 11, k, v, seq![e11[heads], e11[HybridBuffer::Gate]]);
    let e12 = after_first(ops, 12, k, v);
    step_gives(ops, 12, k, v, seq![e12[heads]]);
}

/// The buffers that a recurrent block writes.
pub open spec fn delta_scratch(b: HybridBuffer, il: u32) -> bool {
    ||| b == HybridBuffer::Qkv
    ||| b == HybridBuffer::Z
    ||| b == HybridBuffer::Small
    ||| b == HybridBuffer::G
    ||| b == HybridBuffer::Beta
    ||| b == HybridBuffer::ConvOut
    ||| b == HybridBuffer::Gq
    ||| b == HybridBuffer::Gk
    ||| b == HybridBuffer::Gv
    ||| b == HybridBuffer::GdnO
    ||| b == HybridBuffer::GdnTmp
    ||| b == HybridBuffer::Common(Buffer::AttnOut)
    ||| b == HybridBuffer::State(il)
    ||| b == HybridBuffer::Window(il)
}

/// A recurrent block over the normed stream `x`: the joint projection goes
/// through the convolution over the layer's window, is normed and split into
/// query, key and value; the state takes in key and value with the decay from
/// the alpha projection and the mixing from the beta projection, and gives the
/// query's answer; that is normed head by head, gated by the z projection and
/// projected. Window and state are kept for the next token.
#[verifier::rlimit(60)]
pub proof fn recurrent_block_computes(
    il: u32,
    h: HybridShape,
    s: Shape,
    k: HybridKernels,
    v: HybridValues,
)
    ensures
        ({
            let e = after_all(own(delta_ops(il, h, s)), k, v);
            let x = v[HybridBuffer::Common(Buffer::Normed)];
            let (conv, value) = (h.conv_dim() as u32, h.value_dim() as u32);
            let joint = h_times(k, HybridWeight::Qkv, s.n_embd, conv, x);
            let z = h_times(k, HybridWeight::Z, s.n_embd, value, x);
            let decay = k(
                HybridStep::Own(HybridOp::Decay),
                0,
                seq![h_times_f32(k, HybridWeight::Alpha, s.n_embd, h.ssm_v_heads, x)],
            );
            let mix = k(
                HybridStep::Own(HybridOp::Mix),
                0,
                seq![h_times_f32(k, HybridWeight::Beta, s.n_embd, h.ssm_v_heads, x)],
            );
            let slide = HybridStep::Own(HybridOp::ConvStep { il });
            let window = v[HybridBuffer::Window(il)];
            let mixed = k(
                HybridStep::Own(HybridOp::L2Norm),
                0,
                seq![k(slide, 0, seq![joint, window])],
            );
            let split = HybridStep::Own(HybridOp::Split);
            let step = HybridStep::Own(HybridOp::DeltaStep { il });
            let given = seq![
                v[HybridBuffer::State(il)],
                k(split, 0, seq![mixed]),
                k(split, 1, seq![mixed]),
                k(split, 2, seq![mixed]),
                decay,
                mix,
            ];
            let answer = h_head_normed(
                k,
                HybridWeight::SsmNorm,
                h.ssm_v_heads,
                h.ssm_state,
                k(step, 0, given),
            );
            &&& e[HybridBuffer::Window(il)] == k(slide, 1, seq![joint, window])
            &&& e[HybridBuffer::State(il)] == k(step, 1, given)
            &&& e[HybridBuffer::Common(Buffer::AttnOut)] == h_times(
                k,
                HybridWeight::SsmOut,
                value,
                s.n_embd,
                h_gated(k, value, z, answer),
            )
            &&& forall|b: HybridBuffer| !delta_scratch(b, il) ==> #[trigger] e[b] == v[b]
        }),
{
    let ops = own(delta_ops(il, h, s));
    assert(ops.len() == 13);
    let x = HybridBuffer::Common(Buffer::Normed);
    step_gives(ops, 0, k, v, seq![v[x]]);
    let e1 = after_first(ops, 1, k, v);
    step_gives(ops, 1, k, v, seq![e1[x]]);
    let e2 = after_first(ops, 2, k, v);
    step_gives(ops, 2, k, v, seq![e2[x]]);
    let e3 = after_first(ops, 3, k, v);
    step_gives(ops, 3, k, v, seq![e3[HybridBuffer::Small]]);
    let e4 = after_first(ops, 4, k, v);
    step_gives(ops, 4, k, v, seq![e4[x]]);
    let e5 = after_first(ops, 5, k, v);
    step_gives(ops, 5, k, v, seq![e5[HybridBuffer::Small]]);
    let e6 = after_first(ops, 6, k, v);
    step_gives(ops, 6, k, v, seq![e6[HybridBuffer::Qkv], e6[HybridBuffer::Window(il)]]);
    let e7 = after_first(ops, 7, k, v);
    step_gives(ops, 7, k, v, seq![e7[HybridBuffer::ConvOut]]);
    let e8 = after_first(ops, 8, k, v);
    step_gives(ops, 8, k, v, seq![e8[HybridBuffer::ConvOut]]);
    let e9 = after_first(ops, 9, k, v);
    step_gives(
        ops,
        9,
        k,
        v,
        seq![
            e9[HybridBuffer::State(il)],
            e9[HybridBuffer::Gq],
            e9[HybridBuffer::Gk],
            e9[HybridBuffer::Gv],
            e9[HybridBuffer::G],
            e9[HybridBuffer::Beta],
        ],
    );
    let e10 = after_first(ops, 10, k, v);
    step_gives(ops, 10, k, v, seq![e10[HybridBuffer::GdnO]]);
    let e11 = after_first(ops, 11, k, v);
    step_gives(ops, 11, k, v, seq![e11[HybridBuffer::Z], e11[HybridBuffer::GdnO]]);
    let e12 = after_first(ops, 12, k, v);
    step_gives(ops, 12, k, v, seq![e12[HybridBuffer::GdnTmp]]);
}

/// The shared expert's output over the normed stream, scaled by its own logit, or
/// zeros where there is none.
pub open spec fn h_shared(s: Shape, shexp: bool, k: HybridKernels, x: int) -> int {
    if shexp {
        let mid = h_gated(
            k,
            s.n_ff_exp,
            h_times(k, HybridWeight::GateShexp, s.n_embd, s.n_ff_exp, x),
            h_times(k, HybridWeight::UpShexp, s.n_embd, s.n_ff_exp, x),
        );
        k(
            HybridStep::Own(HybridOp::ScaleShared),
            0,
            seq![
                h_times(k, HybridWeight::DownShexp, s.n_ff_exp, s.n_embd, mid),
                h_times_f32(k, HybridWeight::SharedGate, s.n_embd, 1, x),
            ],
        )
    } else {
        k(HybridStep::Own(HybridOp::ZeroShared), 0, Seq::empty())
    }
}

/// The buffers that routing and the shared expert write.
pub open spec fn ffn_scratch(b: HybridBuffer) -> bool {
    ||| b == HybridBuffer::Common(Buffer::AfterAttn)
    ||| b == HybridBuffer::Common(Buffer::Normed)
    ||| b == HybridBuffer::Common(Buffer::RouterLogits)
    ||| b == HybridBuffer::Common(Buffer::RouterSelected)
    ||| b == HybridBuffer::Common(Buffer::RouterWeights)
    ||| b == HybridBuffer::Common(Buffer::GateAct)
    ||| b == HybridBuffer::Common(Buffer::UpAct)
    ||| b == HybridBuffer::Common(Buffer::FfnMid)
    ||| b == HybridBuffer::Common(Buffer::SharedOut)
    ||| b == HybridBuffer::SharedGate
    ||| b == HybridBuffer::Common(Buffer::Xq)
}

/// Attention is added to the residual stream; the router, the shared expert and
/// the routed experts' input all see the normed sum.
#[verifier::rlimit(60)]
pub proof fn hybrid_ffn_computes(s: Shape, shexp: bool, k: HybridKernels, v: HybridValues)
    ensures
        ({
            let e = after_all(own(hybrid_ffn_ops(s, shexp)), k, v);
            let stream = h_sum(
                k,
                v[HybridBuffer::Common(Buffer::Cur)],
                v[HybridBuffer::Common(Buffer::AttnOut)],
            );
            let x = h_normed(k, HybridWeight::FfnNorm, stream);
            let logits = h_times_f32(k, HybridWeight::GateInp, s.n_embd, s.n_expert, x);
            let select = HybridStep::Own(HybridOp::RouterSelect);
            &&& e[HybridBuffer::Common(Buffer::AfterAttn)] == stream
            &&& e[HybridBuffer::Common(Buffer::RouterSelected)] == k(select, 0, seq![logits])
            &&& e[HybridBuffer::Common(Buffer::RouterWeights)] == k(select, 1, seq![logits])
            &&& e[HybridBuffer::Common(Buffer::SharedOut)] == h_shared(s, shexp, k, x)
            &&& e[HybridBuffer::Common(Buffer::Xq)] == k(
                HybridStep::Own(HybridOp::Quantize),
                0,
                seq![x],
            )
            &&& forall|b: HybridBuffer| !ffn_scratch(b) ==> #[trigger] e[b] == v[b]
        }),
{
    let ops = own(hybrid_ffn_ops(s, shexp));
    let x = HybridBuffer::Common(Buffer::Normed);
    let so = HybridBuffer::Common(Buffer::SharedOut);
    step_gives(
        ops,
        0,
        k,
        v,
        seq![v[HybridBuffer::Common(Buffer::Cur)], v[HybridBuffer::Common(Buffer::AttnOut)]],
    );
    let e1 = after_first(ops, 1, k, v);
    step_gives(ops, 1, k, v, seq![e1[HybridBuffer::Common(Buffer::AfterAttn)]]);
    let e2 = after_first(ops, 2, k, v);
    step_gives(ops, 2, k, v, seq![e2[x]]);
    let e3 = after_first(ops, 3, k, v);
    step_gives(ops, 3, k, v, seq![e3[HybridBuffer::Common(Buffer::RouterLogits)]]);
    let e4 = after_first(ops, 4, k, v);
    if shexp {
        assert(ops.len() == 11);
        step_gives(ops, 4, k, v, seq![e4[x]]);
        let e5 = after_first(ops, 5, k, v);
        step_gives(ops, 5, k, v, seq![e5[x]]);
        let e6 = after_first(ops, 6, k, v);
        step_gives(
            ops,
            6,
            k,
            v,
            seq![
                e6[HybridBuffer::Common(Buffer::GateAct)],
                e6[HybridBuffer::Common(Buffer::UpAct)],
            ],
        );
        let e7 = after_first(ops, 7, k, v);
        step_gives(ops, 7, k, v, seq![e7[HybridBuffer::Common(Buffer::FfnMid)]]);
        let e8 = after_first(ops, 8, k, v);
        step_gives(ops, 8, k, v, seq![e8[x]]);
        let e9 = after_first(ops, 9, k, v);
        step_gives(ops, 9, k, v, seq![e9[so], e9[HybridBuffer::SharedGate]]);
        let e10 = after_first(ops, 10, k, v);
        step_gives(ops, 10, k, v, seq![e10[x]]);
    } else {
        assert(ops.len() == 6);
        step_gives(ops, 4, k, v, Seq::empty());
        let e5 = after_first(ops, 5, k, v);
        step_gives(ops, 5, k, v, seq![e5[x]]);
    }
}

/// The routed experts' weighted sum, as in every model.
pub open spec fn h_routed(
    t: LayerStep,
    s: Shape,
    groups: Option<u32>,
    k: HybridKernels,
    v: HybridValues,
    weights: int,
    input: int,
) -> int {
    let quantized = |mid: int|
        k(
            HybridStep::Routed(
                Op::Quantize {
                    out: Buffer::Tok,
                    x: Buffer::Tok,
                    dim: s.n_ff_exp,
                    rows: (t.n_tok * s.n_expert_used) as u32,
                },
            ),
            0,
            seq![mid],
        );
    match groups {
        None => {
            let ptrs = v[HybridBuffer::Common(Buffer::ExpertPtrs)];
            let mid = k(HybridStep::Routed(Op::MoePair), 0, seq![ptrs, weights, input]);
            k(HybridStep::Routed(Op::MoeDown), 0, seq![ptrs, quantized(mid)])
        },
        Some(groups) => {
            let (a, b, c) = (
                v[HybridBuffer::Common(Buffer::GrpPtrs)],
                v[HybridBuffer::Common(Buffer::GrpStarts)],
                v[HybridBuffer::Common(Buffer::GrpPairs)],
            );
            let mid = k(
                HybridStep::Routed(Op::MoePairGrouped { groups }),
                0,
                seq![a, b, c, weights, input],
            );
            let partial = k(
                HybridStep::Routed(Op::MoeDownGrouped { groups }),
                0,
                seq![a, b, c, quantized(mid)],
            );
            k(HybridStep::Routed(Op::MoeSlotSum), 0, seq![partial])
        },
    }
}

proof fn hybrid_routed_computes(
    t: LayerStep,
    s: Shape,
    groups: Option<u32>,
    k: HybridKernels,
    v: HybridValues,
)
    ensures
        ({
            let e = after_all(routed(routed_ops(t, s, groups)), k, v);
            &&& e[HybridBuffer::Common(Buffer::MoeOut)] == h_routed(
                t,
                s,
                groups,
                k,
                v,
                v[HybridBuffer::Common(Buffer::RouterWeights)],
                v[HybridBuffer::Common(Buffer::Xq)],
            )
            &&& forall|b: HybridBuffer|
                b != HybridBuffer::Common(Buffer::MoeMid) && b != HybridBuffer::Common(Buffer::Midq)
                    && b != HybridBuffer::Common(Buffer::GrpPartial) && b != HybridBuffer::Common(
                    Buffer::MoeOut,
                ) ==> #[trigger] e[b] == v[b]
        }),
{
    let ops = routed(routed_ops(t, s, groups));
    let mid = HybridBuffer::Common(Buffer::MoeMid);
    let midq = HybridBuffer::Common(Buffer::Midq);
    let w = HybridBuffer::Common(Buffer::RouterWeights);
    let xq = HybridBuffer::Common(Buffer::Xq);
    match groups {
        None => {
            assert(ops.len() == 3);
            let ptrs = HybridBuffer::Common(Buffer::ExpertPtrs);
            step_gives(ops, 0, k, v, seq![v[ptrs], v[w], v[xq]]);
            let e1 = after_first(ops, 1, k, v);
            step_gives(ops, 1, k, v, seq![e1[mid]]);
            let e2 = after_first(ops, 2, k, v);
            step_gives(ops, 2, k, v, seq![e2[ptrs], e2[midq]]);
        },
        Some(_) => {
            assert(ops.len() == 4);
            let a = HybridBuffer::Common(Buffer::GrpPtrs);
            let b = HybridBuffer::Common(Buffer::GrpStarts);
            let c = HybridBuffer::Common(Buffer::GrpPairs);
            step_gives(ops, 0, k, v, seq![v[a], v[b], v[c], v[w], v[xq]]);
            let e1 = after_first(ops, 1, k, v);
            step_gives(ops, 1, k, v, seq![e1[mid]]);
            let e2 = after_first(ops, 2, k, v);
            step_gives(ops, 2, k, v, seq![e2[a], e2[b], e2[c], e2[midq]]);
            let e3 = after_first(ops, 3, k, v);
            step_gives(ops, 3, k, v, seq![e3[HybridBuffer::Common(Buffer::GrpPartial)]]);
        },
    }
}

/// What the attention of a hybrid layer leaves behind, on the normed residual
/// stream.
pub open spec fn attended(
    kind: HybridKind,
    h: HybridShape,
    s: Shape,
    il: u32,
    k: HybridKernels,
    v: HybridValues,
) -> HybridValues {
    let x = h_normed(k, HybridWeight::AttnNorm, v[HybridBuffer::Common(Buffer::Cur)]);
    let e = v.insert(HybridBuffer::Common(Buffer::Normed), x);
    match kind {
        HybridKind::Delta => after_all(own(delta_ops(il, h, s)), k, e),
        HybridKind::Full => after_all(own(full_ops(il, s)), k, e),
    }
}

/// A hybrid layer: its attention or recurrent block on the normed residual stream
/// is added to the stream, and then what the routed experts, weighted by the
/// router, and the shared one give on the normed sum.
pub proof fn hybrid_layer_computes(
    kind: HybridKind,
    h: HybridShape,
    s: Shape,
    shexp: bool,
    t: LayerStep,
    groups: Option<u32>,
    k: HybridKernels,
    v: HybridValues,
)
    ensures
        ({
            let e = after_all(hybrid_layer_ops(kind, h, s, shexp, t, groups), k, v);
            let a = attended(kind, h, s, t.il, k, v);
            let stream = h_sum(
                k,
                v[HybridBuffer::Common(Buffer::Cur)],
                a[HybridBuffer::Common(Buffer::AttnOut)],
            );
            let x = h_normed(k, HybridWeight::FfnNorm, stream);
            let logits = h_times_f32(k, HybridWeight::GateInp, s.n_embd, s.n_expert, x);
            let weights = k(HybridStep::Own(HybridOp::RouterSelect), 1, seq![logits]);
            let input = k(HybridStep::Own(HybridOp::Quantize), 0, seq![x]);
            &&& e[HybridBuffer::Common(Buffer::Cur)] == h_sum(
                k,
                stream,
                h_sum(
                    k,
                    h_routed(t, s, groups, k, v, weights, input),
                    h_shared(s, shexp, k, x),
                ),
            )
            &&& forall|il: u32|
                #[trigger] e[HybridBuffer::State(il)] == a[HybridBuffer::State(il)]
            &&& forall|il: u32|
                #[trigger] e[HybridBuffer::Window(il)] == a[HybridBuffer::Window(il)]
            &&& forall|il: u32|
                #[trigger] e[HybridBuffer::Common(Buffer::Kcache(il))] == a[HybridBuffer::Common(
                    Buffer::Kcache(il),
                )]
            &&& forall|il: u32|
                #[trigger] e[HybridBuffer::Common(Buffer::Vcache(il))] == a[HybridBuffer::Common(
                    Buffer::Vcache(il),
                )]
        }),
{
    let norm = own(
        seq![HybridOp::RmsNorm { out: Buffer::Normed, x: Buffer::Cur, w: HybridWeight::AttnNorm }],
    );
    let attend = match kind {
        HybridKind::Delta => own(delta_ops(t.il, h, s)),
        HybridKind::Full => own(full_ops(t.il, s)),
    };
    let ffn = own(hybrid_ffn_ops(s, shexp));
    let experts = routed(routed_ops(t, s, groups));
    let tail = own(hybrid_tail_ops());
    let all = (((norm + attend) + ffn) + experts) + tail;
    assert(hybrid_layer_ops(kind, h, s, shexp, t, groups) =~= all);
    after_concat(((norm + attend) + ffn) + experts, tail, k, v);
    after_concat((norm + attend) + ffn, experts, k, v);
    after_concat(norm + attend, ffn, k, v);
    after_concat(norm, attend, k, v);
    step_gives(norm, 0, k, v, seq![v[HybridBuffer::Common(Buffer::Cur)]]);
    let e1 = after_all(norm, k, v);
    let e2 = after_all(attend, k, e1);
    assert(e2 == attended(kind, h, s, t.il, k, v));
    match kind {
        HybridKind::Delta => recurrent_block_computes(t.il, h, s, k, e1),
        HybridKind::Full => full_attention_computes(t.il, s, k, e1),
    }
    assert(e2[HybridBuffer::Common(Buffer::Cur)] == v[HybridBuffer::Common(Buffer::Cur)]);
    hybrid_ffn_computes(s, shexp, k, e2);
    let e3 = after_all(ffn, k, e2);
    hybrid_routed_computes(t, s, groups, k, e3);
    let e4 = after_all(experts, k, e3);
    let out = HybridBuffer::Common(Buffer::FfnOut);
    step_gives(
        tail,
        0,
        k,
        e4,
        seq![
            e4[HybridBuffer::Common(Buffer::MoeOut)],
            e4[HybridBuffer::Common(Buffer::SharedOut)],
        ],
    );
    let e5 = after_first(tail, 1, k, e4);
    step_gives(tail, 1, k, e4, seq![e5[HybridBuffer::Common(Buffer::AfterAttn)], e5[out]]);
    assert(tail.len() == 2);
    let p = HybridBuffer::Common(Buffer::ExpertPtrs);
    let (a, b, c) = (
        HybridBuffer::Common(Buffer::GrpPtrs),
        HybridBuffer::Common(Buffer::GrpStarts),
        HybridBuffer::Common(Buffer::GrpPairs),
    );
    assert(e3[p] == e2[p] && e2[p] == e1[p] && e1[p] == v[p]);
    assert(e3[a] == e2[a] && e2[a] == e1[a] && e1[a] == v[a]);
    assert(e3[b] == e2[b] && e2[b] == e1[b] && e1[b] == v[b]);
    assert(e3[c] == e2[c] && e2[c] == e1[c] && e1[c] == v[c]);
}

} // verus!
