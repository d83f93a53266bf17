//! What a layer computes: the value that each block of launches leaves in every
//! buffer it touches, as an expression over the kernels and the values that were
//! there before. A launch on the wrong buffer, with the wrong weight or in the
//! wrong order gives another expression.

use vstd::prelude::*;

#[allow(unused_imports)]
use crate::attention::{heads_of, Rows, Selection};
#[allow(unused_imports)]
use crate::buffers::Buffer;
#[allow(unused_imports)]
use crate::dataflow::{
    dense_layer_ops, kernel, launched, moe_layer_ops, offload_changes_nothing, output, ran,
    ran_all, ran_concat, reads, same, until_experts_ops, Kernels, Values,
};
#[allow(unused_imports)]
use crate::graph::{
    combine_ops, dense_ops, gated_ops, gqa_block_ops, idx_key_ops, idx_score_ops, mla_head_ops,
    mla_ops, mla_select_ops, mla_tail_ops, norm_ops, residual_ops, routed_ops, router_ops,
    shared_ops, Device, LayerParts, LayerStep, Op, Weight,
};
#[allow(unused_imports)]
use crate::loader::{Geom, Role};
#[allow(unused_imports)]
use crate::shape::{Family, Shape};

verus! {

/// `x` normed by a weight of the layer, in rows of `n`.
pub open spec fn normed(k: Kernels, w: Weight, n: u32, rows: u32, x: int) -> int {
    k(Op::RmsNorm { out: Buffer::Tok, x: Buffer::Tok, w, n, rows }, 0, seq![x])
}

/// `x` times a quantized matrix.
pub open spec fn times(k: Kernels, w: Role, in_dim: u32, out_dim: u32, rows: u32, x: int) -> int {
    k(
        Op::MatmulQ8 {
            out: Buffer::Tok,
            w: Weight::Own(w),
            x: Buffer::Tok,
            in_dim,
            out_dim,
            rows,
        },
        0,
        seq![x],
    )
}

/// `x` times a matrix in single precision.
pub open spec fn times_f32(
    k: Kernels,
    w: Weight,
    in_dim: u32,
    out_dim: u32,
    rows: u32,
    x: int,
) -> int {
    k(
        Op::MatmulF32 { out: Buffer::Tok, w, x: Buffer::Tok, in_dim, out_dim, rows },
        0,
        seq![x],
    )
}

/// The sum of `n` values each.
pub open spec fn sum(k: Kernels, n: u32, a: int, b: int) -> int {
    k(Op::Add { out: Buffer::Tok, a: Buffer::Tok, b: Buffer::Tok, n }, 0, seq![a, b])
}

/// `x` normed head by head.
pub open spec fn head_normed(k: Kernels, norm: Option<Role>, rows: u32, dim: u32, x: int) -> int {
    k(Op::HeadNorm { x: Buffer::Tok, norm, rows, dim }, 0, seq![x])
}

/// `x` rotated head by head.
pub open spec fn rotated(
    k: Kernels,
    heads: u32,
    dim: u32,
    rot: u32,
    theta: u32,
    factors: bool,
    x: int,
) -> int {
    k(Op::Rope { x: Buffer::Tok, heads, dim, rot, theta, factors }, 0, seq![x])
}

/// A cache with the step's rows appended.
pub open spec fn appended(k: Kernels, heads: u32, dim: u32, cache: int, x: int) -> int {
    k(Op::KvAppend { cache: Buffer::Tok, kv: Buffer::Tok, heads, dim }, 0, seq![cache, x])
}

/// A gated feed-forward pass of `x`: gate and up projection, multiplied behind
/// the activation, projected down.
pub open spec fn gated(
    k: Kernels,
    gate: Role,
    up: Role,
    down: Role,
    n_embd: u32,
    width: u32,
    rows: u32,
    x: int,
) -> int {
    let mid = k(
        Op::Swiglu {
            out: Buffer::Tok,
            a: Buffer::Tok,
            b: Buffer::Tok,
            n: (rows * width) as u32,
        },
        0,
        seq![
            times(k, gate, n_embd, width, rows, x),
            times(k, up, n_embd, width, rows, x),
        ],
    );
    times(k, down, width, n_embd, rows, mid)
}

/// A launch gives what its kernel makes of the values it reads.
pub(crate) proof fn gives(op: Op, k: Kernels, v: Values, xs: Seq<int>)
    requires
        !(op is Copy),
        xs.len() == reads(op).len(),
        forall|j: int| 0 <= j < xs.len() ==> #[trigger] xs[j] == v[reads(op)[j]],
    ensures
        forall|i: int| #[trigger] output(op, i, k, v) == k(kernel(op), i, xs),
{
    assert(reads(op).map_values(|b: Buffer| v[b]) =~= xs);
}

/// One launch at the end of a list.
proof fn ran_step(ops: Seq<Op>, n: int, k: Kernels, v: Values)
    requires
        0 <= n,
    ensures
        ran(ops, n + 1, k, v) == launched(ops[n], k, ran(ops, n, k, v)),
        ran(ops, 0, k, v) == v,
{
}

/// Grouped-query attention computes attention. With `x` the normed residual
/// stream: the queries are the query projection of `x`, normed head by head and
/// rotated; the key cache takes in the key projection of `x`, likewise normed
/// and rotated; the value cache takes in the value projection of `x`, or the bare
/// key projection where the layer has none, normed head by head where the layer
/// has a geometry of its own, and never rotated; and the output is the output
/// projection of what the queries find in both caches. The residual stream and
/// every other layer's caches stay as they were.
#[verifier::rlimit(60)]
pub proof fn gqa_computes_attention(
    t: LayerStep,
    s: Shape,
    g: Option<Geom>,
    p: LayerParts,
    k: Kernels,
    v: Values,
)
    ensures
        ({
            let e = ran_all(gqa_block_ops(t, s, g, p), k, v);
            let n = t.n_tok;
            let (kv_heads, dim, theta, window, rot, factors) = match g {
                Some(o) => (o.n_head_kv, o.head_dim, o.theta, o.window, o.head_dim, o.factors),
                None => (s.n_head_kv, s.head_dim, s.rope_freq_base, 0u32, s.rot_dim, false),
            };
            let (qw, kvw) = ((s.n_head * dim) as u32, (kv_heads * dim) as u32);
            let x = normed(k, Weight::Own(Role::AttnNorm), s.n_embd, n, v[Buffer::Cur]);
            let keys = times(k, Role::AttnK, s.n_embd, kvw, n, x);
            let values = if p.attn_v {
                times(k, Role::AttnV, s.n_embd, kvw, n, x)
            } else {
                keys
            };
            let rows = (n * kv_heads) as u32;
            let query = rotated(
                k,
                s.n_head,
                dim,
                rot,
                theta,
                factors,
                head_normed(
                    k,
                    Some(Role::AttnQNorm),
                    (n * s.n_head) as u32,
                    dim,
                    times(k, Role::AttnQ, s.n_embd, qw, n, x),
                ),
            );
            let key = rotated(
                k,
                kv_heads,
                dim,
                rot,
                theta,
                factors,
                head_normed(k, Some(Role::AttnKNorm), rows, dim, keys),
            );
            let value = if g is Some {
                head_normed(k, None, rows, dim, values)
            } else {
                values
            };
            let heads = k(
                Op::GqaAttention {
                    il: t.il,
                    heads_kv: kv_heads,
                    dim,
                    window,
                    unit: g is Some,
                },
                0,
                seq![query, e[Buffer::Kcache(t.il)], e[Buffer::Vcache(t.il)]],
            );
            &&& e[Buffer::Kcache(t.il)] == appended(k, kv_heads, dim, v[Buffer::Kcache(t.il)], key)
            &&& e[Buffer::Vcache(t.il)] == appended(
                k,
                kv_heads,
                dim,
                v[Buffer::Vcache(t.il)],
                value,
            )
            &&& e[Buffer::AttnOut] == times(k, Role::AttnOutput, qw, s.n_embd, n, heads)
            &&& forall|b: Buffer|
                b != Buffer::Normed && b != Buffer::Q && b != Buffer::K && b != Buffer::V && b
                    != Buffer::Heads && b != Buffer::AttnOut && b != Buffer::Kcache(t.il) && b
                    != Buffer::Vcache(t.il) ==> #[trigger] e[b] == v[b]
        }),
{
    let ops = gqa_block_ops(t, s, g, p);
    let m: int = if g is Some {
        7
    } else {
        6
    };
    assert(ops.len() == m + 6);
    let e0 = v;
    ran_step(ops, 0, k, v);
    let e1 = launched(ops[0], k, e0);
    gives(ops[0], k, e0, seq![e0[Buffer::Cur]]);
    ran_step(ops, 1, k, v);
    let e2 = launched(ops[1], k, e1);
    gives(ops[1], k, e1, seq![e1[Buffer::Normed]]);
    ran_step(ops, 2, k, v);
    let e3 = launched(ops[2], k, e2);
    gives(ops[2], k, e2, seq![e2[Buffer::Normed]]);
    ran_step(ops, 3, k, v);
    let e4 = launched(ops[3], k, e3);
    if p.attn_v {
        gives(ops[3], k, e3, seq![e3[Buffer::Normed]]);
    }
    ran_step(ops, 4, k, v);
    let e5 = launched(ops[4], k, e4);
    gives(ops[4], k, e4, seq![e4[Buffer::Q]]);
    ran_step(ops, 5, k, v);
    let e6 = launched(ops[5], k, e5);
    gives(ops[5], k, e5, seq![e5[Buffer::K]]);
    ran_step(ops, 6, k, v);
    let e7 = if g is Some {
        launched(ops[6], k, e6)
    } else {
        e6
    };
    if g is Some {
        gives(ops[6], k, e6, seq![e6[Buffer::V]]);
    }
    assert(ran(ops, m, k, v) == e7);
    ran_step(ops, m, k, v);
    let e8 = launched(ops[m], k, e7);
    gives(ops[m], k, e7, seq![e7[Buffer::Q]]);
    ran_step(ops, m + 1, k, v);
    let e9 = launched(ops[m + 1], k, e8);
    gives(ops[m + 1], k, e8, seq![e8[Buffer::K]]);
    ran_step(ops, m + 2, k, v);
    let e10 = launched(ops[m + 2], k, e9);
    gives(ops[m + 2], k, e9, seq![e9[Buffer::Kcache(t.il)], e9[Buffer::K]]);
    ran_step(ops, m + 3, k, v);
    let e11 = launched(ops[m + 3], k, e10);
    gives(ops[m + 3], k, e10, seq![e10[Buffer::Vcache(t.il)], e10[Buffer::V]]);
    ran_step(ops, m + 4, k, v);
    let e12 = launched(ops[m + 4], k, e11);
    gives(
        ops[m + 4],
        k,
        e11,
        seq![e11[Buffer::Q], e11[Buffer::Kcache(t.il)], e11[Buffer::Vcache(t.il)]],
    );
    ran_step(ops, m + 5, k, v);
    let e13 = launched(ops[m + 5], k, e12);
    gives(ops[m + 5], k, e12, seq![e12[Buffer::Heads]]);
    assert(ran_all(ops, k, v) == e13);
}

/// With a value projection of its own, what a layer keeps as values does not
/// depend on its key weights: two sets of kernels that differ in those alone
/// leave the same in the value cache.
pub proof fn values_do_not_come_from_keys(
    t: LayerStep,
    s: Shape,
    g: Option<Geom>,
    p: LayerParts,
    a: Kernels,
    b: Kernels,
    v: Values,
)
    requires
        p.attn_v,
        forall|op: Op, i: int, xs: Seq<int>|
            !(op matches Op::MatmulQ8 { w: Weight::Own(Role::AttnK), .. }) && !(
            op matches Op::HeadNorm { norm: Some(Role::AttnKNorm), .. }) ==> #[trigger] a(op, i, xs)
                == b(op, i, xs),
    ensures
        ran_all(gqa_block_ops(t, s, g, p), a, v)[Buffer::Vcache(t.il)] == ran_all(
            gqa_block_ops(t, s, g, p),
            b,
            v,
        )[Buffer::Vcache(t.il)],
{
    gqa_computes_attention(t, s, g, p, a, v);
    gqa_computes_attention(t, s, g, p, b, v);
}

/// Attention's output, normed first in the Gemma layout, is added to the residual
/// stream, and the sum is normed for the feed-forward block.
pub proof fn residual_adds_attention(
    t: LayerStep,
    s: Shape,
    p: LayerParts,
    k: Kernels,
    v: Values,
)
    ensures
        ({
            let e = ran_all(residual_ops(t, s, p), k, v);
            let out = if p.gemma {
                normed(
                    k,
                    Weight::Own(Role::PostAttnNorm),
                    s.n_embd,
                    t.n_tok,
                    v[Buffer::AttnOut],
                )
            } else {
                v[Buffer::AttnOut]
            };
            let after = sum(k, (t.n_tok * s.n_embd) as u32, v[Buffer::Cur], out);
            &&& e[Buffer::AfterAttn] == after
            &&& e[Buffer::Normed] == normed(
                k,
                Weight::Own(Role::FfnNorm),
                s.n_embd,
                t.n_tok,
                after,
            )
            &&& forall|b: Buffer|
                b != Buffer::AttnOut && b != Buffer::AfterAttn && b != Buffer::Normed
                    ==> #[trigger] e[b] == v[b]
        }),
{
    let ops = residual_ops(t, s, p);
    let m: int = if p.gemma {
        1
    } else {
        0
    };
    assert(ops.len() == m + 2);
    ran_step(ops, 0, k, v);
    let e1 = if p.gemma {
        launched(ops[0], k, v)
    } else {
        v
    };
    if p.gemma {
        gives(ops[0], k, v, seq![v[Buffer::AttnOut]]);
    }
    assert(ran(ops, m, k, v) == e1);
    ran_step(ops, m, k, v);
    let e2 = launched(ops[m], k, e1);
    gives(ops[m], k, e1, seq![e1[Buffer::Cur], e1[Buffer::AttnOut]]);
    ran_step(ops, m + 1, k, v);
    let e3 = launched(ops[m + 1], k, e2);
    gives(ops[m + 1], k, e2, seq![e2[Buffer::AfterAttn]]);
    assert(ran_all(ops, k, v) == e3);
}

proof fn gated_computes(
    t: LayerStep,
    s: Shape,
    gate: Role,
    up: Role,
    down: Role,
    w: u32,
    out: Buffer,
    k: Kernels,
    v: Values,
)
    requires
        out != Buffer::GateAct,
        out != Buffer::UpAct,
        out != Buffer::FfnMid,
    ensures
        ({
            let e = ran_all(gated_ops(t, s, gate, up, down, w, out), k, v);
            &&& e[out] == gated(k, gate, up, down, s.n_embd, w, t.n_tok, v[Buffer::Normed])
            &&& forall|b: Buffer|
                b != Buffer::GateAct && b != Buffer::UpAct && b != Buffer::FfnMid && b != out
                    ==> #[trigger] e[b] == v[b]
        }),
{
    let ops = gated_ops(t, s, gate, up, down, w, out);
    ran_step(ops, 0, k, v);
    let e1 = launched(ops[0], k, v);
    gives(ops[0], k, v, seq![v[Buffer::Normed]]);
    ran_step(ops, 1, k, v);
    let e2 = launched(ops[1], k, e1);
    gives(ops[1], k, e1, seq![e1[Buffer::Normed]]);
    ran_step(ops, 2, k, v);
    let e3 = launched(ops[2], k, e2);
    gives(ops[2], k, e2, seq![e2[Buffer::GateAct], e2[Buffer::UpAct]]);
    ran_step(ops, 3, k, v);
    let e4 = launched(ops[3], k, e3);
    gives(ops[3], k, e3, seq![e3[Buffer::FfnMid]]);
    assert(ran_all(ops, k, v) == e4);
}

/// A dense feed-forward block adds its gated pass over the normed stream to the
/// residual stream.
pub proof fn dense_adds_feed_forward(t: LayerStep, s: Shape, k: Kernels, v: Values)
    ensures
        ({
            let e = ran_all(dense_ops(t, s), k, v);
            let ffn = gated(
                k,
                Role::FfnGate,
                Role::FfnUp,
                Role::FfnDown,
                s.n_embd,
                s.n_ff_dense,
                t.n_tok,
                v[Buffer::Normed],
            );
            &&& e[Buffer::Cur] == sum(k, (t.n_tok * s.n_embd) as u32, v[Buffer::AfterAttn], ffn)
            &&& forall|il: u32| #[trigger] e[Buffer::Kcache(il)] == v[Buffer::Kcache(il)]
            &&& forall|il: u32| #[trigger] e[Buffer::Vcache(il)] == v[Buffer::Vcache(il)]
            &&& forall|il: u32| #[trigger] e[Buffer::IdxKcache(il)] == v[Buffer::IdxKcache(il)]
        }),
{
    let a = gated_ops(
        t,
        s,
        Role::FfnGate,
        Role::FfnUp,
        Role::FfnDown,
        s.n_ff_dense,
        Buffer::FfnOut,
    );
    let b = seq![
        Op::Add {
            out: Buffer::Cur,
            a: Buffer::AfterAttn,
            b: Buffer::FfnOut,
            n: (t.n_tok * s.n_embd) as u32,
        },
    ];
    assert(dense_ops(t, s) =~= a + b);
    ran_concat(a, b, k, v);
    gated_computes(
        t,
        s,
        Role::FfnGate,
        Role::FfnUp,
        Role::FfnDown,
        s.n_ff_dense,
        Buffer::FfnOut,
        k,
        v,
    );
    let mid = ran_all(a, k, v);
    ran_step(b, 0, k, mid);
    gives(b[0], k, mid, seq![mid[Buffer::AfterAttn], mid[Buffer::FfnOut]]);
}

/// The experts that the router picks and their weights: from the logits of the
/// normed stream, or in the Gemma layout from those of the stream under the
/// router's own norm; the weights are scaled by expert where the layer has
/// scales. `part` is 0 for the experts and 1 for their weights.
pub open spec fn routing(
    t: LayerStep,
    s: Shape,
    p: LayerParts,
    k: Kernels,
    stream: int,
    x: int,
    part: int,
) -> int {
    let seen = if p.gemma {
        normed(k, Weight::RouterNorm, s.n_embd, t.n_tok, stream)
    } else {
        x
    };
    let logits = times_f32(
        k,
        Weight::Own(Role::GateInp),
        s.n_embd,
        s.n_expert,
        t.n_tok,
        seen,
    );
    let experts = k(Op::RouterSelect { next: false }, 0, seq![logits]);
    let weights = k(Op::RouterSelect { next: false }, 1, seq![logits]);
    if part == 0 {
        experts
    } else if p.down_scale {
        k(Op::RouterScale, 0, seq![weights, experts])
    } else {
        weights
    }
}

/// Routing picks experts by the layer's own router, and the next layer's router,
/// where asked, predicts from the same normed stream without touching the
/// layer's own choice.
#[verifier::rlimit(30)]
pub proof fn router_picks_experts(
    t: LayerStep,
    s: Shape,
    p: LayerParts,
    predict: bool,
    k: Kernels,
    v: Values,
)
    ensures
        ({
            let e = ran_all(router_ops(t, s, p, predict), k, v);
            let (stream, x) = (v[Buffer::AfterAttn], v[Buffer::Normed]);
            let ahead = times_f32(k, Weight::Next(Role::GateInp), s.n_embd, s.n_expert, 1, x);
            &&& e[Buffer::RouterSelected] == routing(t, s, p, k, stream, x, 0)
            &&& e[Buffer::RouterWeights] == routing(t, s, p, k, stream, x, 1)
            &&& predict ==> {
                &&& e[Buffer::PredSelected] == k(Op::RouterSelect { next: true }, 0, seq![ahead])
                &&& e[Buffer::PredWeights] == k(Op::RouterSelect { next: true }, 1, seq![ahead])
            }
            &&& forall|b: Buffer|
                b != Buffer::AttnOut && b != Buffer::RouterLogits && b != Buffer::RouterSelected
                    && b != Buffer::RouterWeights && b != Buffer::PredLogits && b
                    != Buffer::PredSelected && b != Buffer::PredWeights ==> #[trigger] e[b] == v[b]
        }),
{
    let ops = router_ops(t, s, p, predict);
    let m: int = if p.gemma {
        1
    } else {
        0
    };
    let r: int = if p.down_scale {
        1
    } else {
        0
    };
    assert(ops.len() == m + 2 + r + (if predict {
        2int
    } else {
        0
    }));
    ran_step(ops, 0, k, v);
    let e1 = if p.gemma {
        launched(ops[0], k, v)
    } else {
        v
    };
    if p.gemma {
        gives(ops[0], k, v, seq![v[Buffer::AfterAttn]]);
    }
    assert(ran(ops, m, k, v) == e1);
    ran_step(ops, m, k, v);
    let e2 = launched(ops[m], k, e1);
    gives(
        ops[m],
        k,
        e1,
        seq![
            e1[if p.gemma {
                Buffer::AttnOut
            } else {
                Buffer::Normed
            }],
        ],
    );
    ran_step(ops, m + 1, k, v);
    let e3 = launched(ops[m + 1], k, e2);
    gives(ops[m + 1], k, e2, seq![e2[Buffer::RouterLogits]]);
    ran_step(ops, m + 2, k, v);
    let e4 = if p.down_scale {
        launched(ops[m + 2], k, e3)
    } else {
        e3
    };
    if p.down_scale {
        gives(ops[m + 2], k, e3, seq![e3[Buffer::RouterWeights], e3[Buffer::RouterSelected]]);
    }
    assert(ran(ops, m + 2 + r, k, v) == e4);
    if predict {
        ran_step(ops, m + 2 + r, k, v);
        let e5 = launched(ops[m + 2 + r], k, e4);
        gives(ops[m + 2 + r], k, e4, seq![e4[Buffer::Normed]]);
        ran_step(ops, m + 3 + r, k, v);
        let e6 = launched(ops[m + 3 + r], k, e5);
        gives(ops[m + 3 + r], k, e5, seq![e5[Buffer::PredLogits]]);
        assert(ran_all(ops, k, v) == e6);
    } else {
        assert(ran_all(ops, k, v) == e4);
    }
}

/// A value under a norm in the Gemma layout, else as it is.
pub open spec fn under_norm(t: LayerStep, s: Shape, p: LayerParts, k: Kernels, w: Role, x: int) -> int {
    if p.gemma {
        normed(k, Weight::Own(w), s.n_embd, t.n_tok, x)
    } else {
        x
    }
}

/// The shared expert's output over the normed stream, or zeros where there is
/// none.
pub open spec fn shared(t: LayerStep, s: Shape, p: LayerParts, k: Kernels, x: int) -> int {
    if p.shexp {
        let width = if p.gemma {
            s.n_ff_dense
        } else {
            s.n_ff_exp
        };
        under_norm(
            t,
            s,
            p,
            k,
            Role::PostFfwNorm1,
            gated(
                k,
                Role::GateShexp,
                Role::UpShexp,
                Role::DownShexp,
                s.n_embd,
                width,
                t.n_tok,
                x,
            ),
        )
    } else {
        k(Op::Zero { x: Buffer::Tok, n: (t.n_tok * s.n_embd) as u32 }, 0, Seq::empty())
    }
}

/// What the routed experts see: the normed stream, in the Gemma layout the stream
/// under a norm of its own.
pub open spec fn expert_view(
    t: LayerStep,
    s: Shape,
    p: LayerParts,
    k: Kernels,
    stream: int,
    x: int,
) -> int {
    if p.gemma {
        normed(k, Weight::Own(Role::PreFfwNorm2), s.n_embd, t.n_tok, stream)
    } else {
        x
    }
}

/// What the routed experts are given: what they see, quantized.
pub open spec fn expert_input(
    t: LayerStep,
    s: Shape,
    p: LayerParts,
    k: Kernels,
    stream: int,
    x: int,
) -> int {
    k(
        Op::Quantize { out: Buffer::Tok, x: Buffer::Tok, dim: s.n_embd, rows: t.n_tok },
        0,
        seq![expert_view(t, s, p, k, stream, x)],
    )
}

proof fn norm_computes(t: LayerStep, s: Shape, p: LayerParts, x: Buffer, r: Role, k: Kernels, v: Values)
    ensures
        ({
            let e = ran_all(norm_ops(t, s, p, x, r), k, v);
            &&& e[x] == under_norm(t, s, p, k, r, v[x])
            &&& forall|b: Buffer| b != x ==> #[trigger] e[b] == v[b]
        }),
{
    let ops = norm_ops(t, s, p, x, r);
    if p.gemma {
        ran_step(ops, 0, k, v);
        gives(ops[0], k, v, seq![v[x]]);
    }
}

/// The shared expert sees the normed stream, and the routed experts' input is
/// set aside for them.
#[verifier::rlimit(30)]
pub proof fn shared_expert_computes(
    t: LayerStep,
    s: Shape,
    p: LayerParts,
    k: Kernels,
    v: Values,
)
    ensures
        ({
            let e = ran_all(shared_ops(t, s, p), k, v);
            let (stream, x) = (v[Buffer::AfterAttn], v[Buffer::Normed]);
            &&& e[Buffer::SharedOut] == shared(t, s, p, k, x)
            &&& e[Buffer::Xq] == expert_input(t, s, p, k, stream, x)
            &&& e[Buffer::Normed] == expert_view(t, s, p, k, stream, x)
            &&& forall|b: Buffer|
                b != Buffer::GateAct && b != Buffer::UpAct && b != Buffer::FfnMid && b
                    != Buffer::SharedOut && b != Buffer::Normed && b != Buffer::Xq
                    ==> #[trigger] e[b] == v[b]
        }),
{
    let width = if p.gemma {
        s.n_ff_dense
    } else {
        s.n_ff_exp
    };
    let pass = gated_ops(
        t,
        s,
        Role::GateShexp,
        Role::UpShexp,
        Role::DownShexp,
        width,
        Buffer::SharedOut,
    );
    let norm = norm_ops(t, s, p, Buffer::SharedOut, Role::PostFfwNorm1);
    let zero = seq![Op::Zero { x: Buffer::SharedOut, n: (t.n_tok * s.n_embd) as u32 }];
    let first = if p.shexp {
        pass + norm
    } else {
        zero
    };
    let own = norm_ops_of(t, s, p);
    let last = seq![
        Op::Quantize { out: Buffer::Xq, x: Buffer::Normed, dim: s.n_embd, rows: t.n_tok },
    ];
    assert(shared_ops(t, s, p) =~= (first + own) + last);
    ran_concat(first + own, last, k, v);
    ran_concat(first, own, k, v);
    let e1 = ran_all(first, k, v);
    if p.shexp {
        ran_concat(pass, norm, k, v);
        gated_computes(
            t,
            s,
            Role::GateShexp,
            Role::UpShexp,
            Role::DownShexp,
            width,
            Buffer::SharedOut,
            k,
            v,
        );
        norm_computes(
            t,
            s,
            p,
            Buffer::SharedOut,
            Role::PostFfwNorm1,
            k,
            ran_all(pass, k, v),
        );
    } else {
        ran_step(zero, 0, k, v);
        gives(zero[0], k, v, Seq::empty());
    }
    let e2 = ran_all(own, k, e1);
    if p.gemma {
        ran_step(own, 0, k, e1);
        gives(own[0], k, e1, seq![e1[Buffer::AfterAttn]]);
    }
    ran_step(last, 0, k, e2);
    gives(last[0], k, e2, seq![e2[Buffer::Normed]]);
}

/// In the Gemma layout, the routed experts' own norm.
spec fn norm_ops_of(t: LayerStep, s: Shape, p: LayerParts) -> Seq<Op> {
    if p.gemma {
        seq![
            Op::RmsNorm {
                out: Buffer::Normed,
                x: Buffer::AfterAttn,
                w: Weight::Own(Role::PreFfwNorm2),
                n: s.n_embd,
                rows: t.n_tok,
            },
        ]
    } else {
        Seq::empty()
    }
}

/// The routed experts' weighted sum, from their weights and input and the uploaded
/// pointers. In groups, each expert is run once for all its rows, and the partial
/// sums are added up.
pub open spec fn routed(
    t: LayerStep,
    s: Shape,
    groups: Option<u32>,
    k: Kernels,
    v: Values,
    weights: int,
    input: int,
) -> int {
    let quantized = |mid: int|
        k(
            Op::Quantize {
                out: Buffer::Tok,
                x: Buffer::Tok,
                dim: s.n_ff_exp,
                rows: (t.n_tok * s.n_expert_used) as u32,
            },
            0,
            seq![mid],
        );
    match groups {
        None => {
            let mid = k(Op::MoePair, 0, seq![v[Buffer::ExpertPtrs], weights, input]);
            k(Op::MoeDown, 0, seq![v[Buffer::ExpertPtrs], quantized(mid)])
        },
        Some(groups) => {
            let (a, b, c) = (v[Buffer::GrpPtrs], v[Buffer::GrpStarts], v[Buffer::GrpPairs]);
            let mid = k(Op::MoePairGrouped { groups }, 0, seq![a, b, c, weights, input]);
            let partial = k(Op::MoeDownGrouped { groups }, 0, seq![a, b, c, quantized(mid)]);
            k(Op::MoeSlotSum, 0, seq![partial])
        },
    }
}

/// The routed experts run on what routing and the shared block left for them.
pub proof fn routed_experts_compute(
    t: LayerStep,
    s: Shape,
    groups: Option<u32>,
    k: Kernels,
    v: Values,
)
    ensures
        ({
            let e = ran_all(routed_ops(t, s, groups), k, v);
            &&& e[Buffer::MoeOut] == routed(
                t,
                s,
                groups,
                k,
                v,
                v[Buffer::RouterWeights],
                v[Buffer::Xq],
            )
            &&& forall|b: Buffer|
                b != Buffer::MoeMid && b != Buffer::Midq && b != Buffer::GrpPartial && b
                    != Buffer::MoeOut ==> #[trigger] e[b] == v[b]
        }),
{
    let ops = routed_ops(t, s, groups);
    ran_step(ops, 0, k, v);
    ran_step(ops, 1, k, v);
    ran_step(ops, 2, k, v);
    let e1 = launched(ops[0], k, v);
    let e2 = launched(ops[1], k, e1);
    let e3 = launched(ops[2], k, e2);
    match groups {
        None => {
            assert(ops.len() == 3);
            gives(
                ops[0],
                k,
                v,
                seq![v[Buffer::ExpertPtrs], v[Buffer::RouterWeights], v[Buffer::Xq]],
            );
            gives(ops[1], k, e1, seq![e1[Buffer::MoeMid]]);
            gives(ops[2], k, e2, seq![e2[Buffer::ExpertPtrs], e2[Buffer::Midq]]);
            assert(ran_all(ops, k, v) == e3);
        },
        Some(groups) => {
            assert(ops.len() == 4);
            gives(
                ops[0],
                k,
                v,
                seq![
                    v[Buffer::GrpPtrs],
                    v[Buffer::GrpStarts],
                    v[Buffer::GrpPairs],
                    v[Buffer::RouterWeights],
                    v[Buffer::Xq],
                ],
            );
            gives(ops[1], k, e1, seq![e1[Buffer::MoeMid]]);
            gives(
                ops[2],
                k,
                e2,
                seq![
                    e2[Buffer::GrpPtrs],
                    e2[Buffer::GrpStarts],
                    e2[Buffer::GrpPairs],
                    e2[Buffer::Midq],
                ],
            );
            ran_step(ops, 3, k, v);
            let e4 = launched(ops[3], k, e3);
            gives(ops[3], k, e3, seq![e3[Buffer::GrpPartial]]);
            assert(ran_all(ops, k, v) == e4);
        },
    }
}

/// The residual stream behind a block of experts: the routed and the shared
/// experts' outputs are added, and their sum to the stream, each under its own
/// norm in the Gemma layout.
pub open spec fn combined(
    t: LayerStep,
    s: Shape,
    p: LayerParts,
    k: Kernels,
    stream: int,
    routed: int,
    shared: int,
) -> int {
    let n = (t.n_tok * s.n_embd) as u32;
    let both = sum(k, n, under_norm(t, s, p, k, Role::PostFfwNorm2, routed), shared);
    sum(k, n, stream, under_norm(t, s, p, k, Role::PostFfwNorm, both))
}

/// Routed and shared experts' outputs end in the residual stream.
pub proof fn experts_are_combined(t: LayerStep, s: Shape, p: LayerParts, k: Kernels, v: Values)
    ensures
        ({
            let e = ran_all(combine_ops(t, s, p), k, v);
            &&& e[Buffer::Cur] == combined(
                t,
                s,
                p,
                k,
                v[Buffer::AfterAttn],
                v[Buffer::MoeOut],
                v[Buffer::SharedOut],
            )
            &&& forall|b: Buffer|
                b != Buffer::MoeOut && b != Buffer::FfnOut && b != Buffer::Cur ==> #[trigger] e[b]
                    == v[b]
        }),
{
    let n = (t.n_tok * s.n_embd) as u32;
    let a = norm_ops(t, s, p, Buffer::MoeOut, Role::PostFfwNorm2);
    let b = seq![
        Op::Add { out: Buffer::FfnOut, a: Buffer::MoeOut, b: Buffer::SharedOut, n },
    ];
    let c = norm_ops(t, s, p, Buffer::FfnOut, Role::PostFfwNorm);
    let d = seq![Op::Add { out: Buffer::Cur, a: Buffer::AfterAttn, b: Buffer::FfnOut, n }];
    assert(combine_ops(t, s, p) =~= ((a + b) + c) + d);
    ran_concat((a + b) + c, d, k, v);
    ran_concat(a + b, c, k, v);
    ran_concat(a, b, k, v);
    norm_computes(t, s, p, Buffer::MoeOut, Role::PostFfwNorm2, k, v);
    let e1 = ran_all(a, k, v);
    ran_step(b, 0, k, e1);
    gives(b[0], k, e1, seq![e1[Buffer::MoeOut], e1[Buffer::SharedOut]]);
    let e2 = ran_all(b, k, e1);
    norm_computes(t, s, p, Buffer::FfnOut, Role::PostFfwNorm, k, e2);
    let e3 = ran_all(c, k, e2);
    ran_step(d, 0, k, e3);
    gives(d[0], k, e3, seq![e3[Buffer::AfterAttn], e3[Buffer::FfnOut]]);
}

/// The residual stream between attention and the feed-forward block, attention
/// having given `out`.
pub open spec fn behind_attention(
    t: LayerStep,
    s: Shape,
    p: LayerParts,
    k: Kernels,
    cur: int,
    out: int,
) -> int {
    sum(
        k,
        (t.n_tok * s.n_embd) as u32,
        cur,
        under_norm(t, s, p, k, Role::PostAttnNorm, out),
    )
}

/// A layer with a dense feed-forward block, whatever its attention: attention is
/// added to the residual stream, then the feed-forward pass over the normed sum.
pub proof fn dense_layer_computes(
    attend: Seq<Op>,
    t: LayerStep,
    s: Shape,
    p: LayerParts,
    k: Kernels,
    v: Values,
)
    requires
        ran_all(attend, k, v)[Buffer::Cur] == v[Buffer::Cur],
    ensures
        ({
            let e = ran_all(dense_layer_ops(attend, t, s, p), k, v);
            let a = ran_all(attend, k, v);
            let stream = behind_attention(t, s, p, k, v[Buffer::Cur], a[Buffer::AttnOut]);
            let x = normed(k, Weight::Own(Role::FfnNorm), s.n_embd, t.n_tok, stream);
            &&& e[Buffer::Cur] == sum(
                k,
                (t.n_tok * s.n_embd) as u32,
                stream,
                gated(
                    k,
                    Role::FfnGate,
                    Role::FfnUp,
                    Role::FfnDown,
                    s.n_embd,
                    s.n_ff_dense,
                    t.n_tok,
                    x,
                ),
            )
            &&& forall|il: u32| #[trigger] e[Buffer::Kcache(il)] == a[Buffer::Kcache(il)]
            &&& forall|il: u32| #[trigger] e[Buffer::Vcache(il)] == a[Buffer::Vcache(il)]
            &&& forall|il: u32| #[trigger] e[Buffer::IdxKcache(il)] == a[Buffer::IdxKcache(il)]
        }),
{
    let residual = residual_ops(t, s, p);
    ran_concat(attend + residual, dense_ops(t, s), k, v);
    ran_concat(attend, residual, k, v);
    let a = ran_all(attend, k, v);
    residual_adds_attention(t, s, p, k, a);
    dense_adds_feed_forward(t, s, k, ran_all(residual, k, a));
}

/// What a layer up to its experts leaves for them.
pub proof fn until_experts_computes(
    attend: Seq<Op>,
    t: LayerStep,
    s: Shape,
    p: LayerParts,
    predict: bool,
    k: Kernels,
    v: Values,
)
    requires
        ran_all(attend, k, v)[Buffer::Cur] == v[Buffer::Cur],
    ensures
        ({
            let e = ran_all(until_experts_ops(attend, t, s, p, predict), k, v);
            let a = ran_all(attend, k, v);
            let stream = behind_attention(t, s, p, k, v[Buffer::Cur], a[Buffer::AttnOut]);
            let x = normed(k, Weight::Own(Role::FfnNorm), s.n_embd, t.n_tok, stream);
            &&& e[Buffer::AfterAttn] == stream
            &&& e[Buffer::RouterSelected] == routing(t, s, p, k, stream, x, 0)
            &&& e[Buffer::RouterWeights] == routing(t, s, p, k, stream, x, 1)
            &&& e[Buffer::SharedOut] == shared(t, s, p, k, x)
            &&& e[Buffer::Xq] == expert_input(t, s, p, k, stream, x)
            &&& e[Buffer::Normed] == expert_view(t, s, p, k, stream, x)
            &&& forall|il: u32| #[trigger] e[Buffer::Kcache(il)] == a[Buffer::Kcache(il)]
            &&& forall|il: u32| #[trigger] e[Buffer::Vcache(il)] == a[Buffer::Vcache(il)]
            &&& forall|il: u32| #[trigger] e[Buffer::IdxKcache(il)] == a[Buffer::IdxKcache(il)]
            &&& e[Buffer::ExpertPtrs] == a[Buffer::ExpertPtrs]
            &&& e[Buffer::GrpPtrs] == a[Buffer::GrpPtrs]
            &&& e[Buffer::GrpStarts] == a[Buffer::GrpStarts]
            &&& e[Buffer::GrpPairs] == a[Buffer::GrpPairs]
            &&& predict ==> {
                let ahead = times_f32(k, Weight::Next(Role::GateInp), s.n_embd, s.n_expert, 1, x);
                e[Buffer::PredSelected] == k(Op::RouterSelect { next: true }, 0, seq![ahead])
            }
        }),
{
    let residual = residual_ops(t, s, p);
    let router = router_ops(t, s, p, predict);
    ran_concat((attend + residual) + router, shared_ops(t, s, p), k, v);
    ran_concat(attend + residual, router, k, v);
    ran_concat(attend, residual, k, v);
    let a = ran_all(attend, k, v);
    residual_adds_attention(t, s, p, k, a);
    let e1 = ran_all(residual, k, a);
    router_picks_experts(t, s, p, predict, k, e1);
    shared_expert_computes(t, s, p, k, ran_all(router, k, e1));
}

/// A layer with experts, whatever its attention: attention is added to the
/// residual stream; the router, the shared expert and the routed experts all see
/// the normed sum, or in the Gemma layout the sum under norms of their own; and
/// what the routed experts, weighted by the router, and the shared one give is
/// added to that sum.
#[verifier::rlimit(30)]
pub proof fn moe_layer_computes(
    attend: Seq<Op>,
    t: LayerStep,
    s: Shape,
    p: LayerParts,
    predict: bool,
    groups: Option<u32>,
    k: Kernels,
    v: Values,
)
    requires
        ran_all(attend, k, v)[Buffer::Cur] == v[Buffer::Cur],
    ensures
        ({
            let e = ran_all(moe_layer_ops(attend, t, s, p, predict, groups), k, v);
            let a = ran_all(attend, k, v);
            let stream = behind_attention(t, s, p, k, v[Buffer::Cur], a[Buffer::AttnOut]);
            let x = normed(k, Weight::Own(Role::FfnNorm), s.n_embd, t.n_tok, stream);
            &&& e[Buffer::Cur] == combined(
                t,
                s,
                p,
                k,
                stream,
                routed(
                    t,
                    s,
                    groups,
                    k,
                    a,
                    routing(t, s, p, k, stream, x, 1),
                    expert_input(t, s, p, k, stream, x),
                ),
                shared(t, s, p, k, x),
            )
            &&& forall|il: u32| #[trigger] e[Buffer::Kcache(il)] == a[Buffer::Kcache(il)]
            &&& forall|il: u32| #[trigger] e[Buffer::Vcache(il)] == a[Buffer::Vcache(il)]
            &&& forall|il: u32| #[trigger] e[Buffer::IdxKcache(il)] == a[Buffer::IdxKcache(il)]
        }),
{
    let until = until_experts_ops(attend, t, s, p, predict);
    let experts = routed_ops(t, s, groups);
    ran_concat(until + experts, combine_ops(t, s, p), k, v);
    ran_concat(until, experts, k, v);
    until_experts_computes(attend, t, s, p, predict, k, v);
    let e1 = ran_all(until, k, v);
    routed_experts_compute(t, s, groups, k, e1);
    experts_are_combined(t, s, p, k, ran_all(experts, k, e1));
}

/// The latent queries: the stream's low-rank query projection, normed.
pub open spec fn latent_query(t: LayerStep, s: Shape, k: Kernels, x: int) -> int {
    normed(
        k,
        Weight::Own(Role::AttnQANorm),
        s.n_lora_q,
        t.n_tok,
        times(k, Role::AttnQA, s.n_embd, s.n_lora_q, t.n_tok, x),
    )
}

/// The heads' queries, from the latent ones, with their rotary part rotated.
pub open spec fn mla_query(t: LayerStep, s: Shape, k: Kernels, x: int) -> int {
    k(
        Op::MlaRope,
        0,
        seq![
            times(
                k,
                Role::AttnQB,
                s.n_lora_q,
                (s.n_head * (s.qk_nope + s.qk_rope)) as u32,
                t.n_tok,
                latent_query(t, s, k, x),
            ),
        ],
    )
}

/// The compact row that a token leaves in the cache, before its norm.
pub open spec fn mla_row(t: LayerStep, s: Shape, k: Kernels, x: int) -> int {
    times(k, Role::AttnKvA, s.n_embd, (s.n_kv_lora + s.qk_rope) as u32, t.n_tok, x)
}

/// A half of the compact cache with the step's rows stored: the normed latent
/// part, and the rotary part. `part` is 0 or 1.
pub open spec fn mla_stored(
    t: LayerStep,
    s: Shape,
    k: Kernels,
    x: int,
    latent: int,
    rotary: int,
    part: int,
) -> int {
    let row = mla_row(t, s, k, x);
    let norm = k(Op::MlaKvNorm, 0, seq![row]);
    k(Op::MlaStore { il: t.il }, part, seq![latent, rotary, norm, row])
}

#[verifier::rlimit(30)]
proof fn mla_head_computes(t: LayerStep, s: Shape, k: Kernels, v: Values)
    ensures
        ({
            let e = ran_all(mla_head_ops(t, s, false), k, v);
            let x = normed(k, Weight::Own(Role::AttnNorm), s.n_embd, t.n_tok, v[Buffer::Cur]);
            let (l, r) = (v[Buffer::Kcache(t.il)], v[Buffer::Vcache(t.il)]);
            &&& e[Buffer::Normed] == x
            &&& e[Buffer::QRankNorm] == latent_query(t, s, k, x)
            &&& e[Buffer::Q] == mla_query(t, s, k, x)
            &&& e[Buffer::Kcache(t.il)] == mla_stored(t, s, k, x, l, r, 0)
            &&& e[Buffer::Vcache(t.il)] == mla_stored(t, s, k, x, l, r, 1)
            &&& forall|b: Buffer|
                b != Buffer::Normed && b != Buffer::QRank && b != Buffer::QRankNorm && b
                    != Buffer::Q && b != Buffer::KvRaw && b != Buffer::KvNorm && b
                    != Buffer::Kcache(t.il) && b != Buffer::Vcache(t.il) ==> #[trigger] e[b] == v[b]
        }),
{
    let ops = mla_head_ops(t, s, false);
    assert(ops.len() == 8);
    ran_step(ops, 0, k, v);
    let e1 = launched(ops[0], k, v);
    gives(ops[0], k, v, seq![v[Buffer::Cur]]);
    ran_step(ops, 1, k, v);
    let e2 = launched(ops[1], k, e1);
    gives(ops[1], k, e1, seq![e1[Buffer::Normed]]);
    ran_step(ops, 2, k, v);
    let e3 = launched(ops[2], k, e2);
    gives(ops[2], k, e2, seq![e2[Buffer::QRank]]);
    ran_step(ops, 3, k, v);
    let e4 = launched(ops[3], k, e3);
    gives(ops[3], k, e3, seq![e3[Buffer::QRankNorm]]);
    ran_step(ops, 4, k, v);
    let e5 = launched(ops[4], k, e4);
    gives(ops[4], k, e4, seq![e4[Buffer::Q]]);
    ran_step(ops, 5, k, v);
    let e6 = launched(ops[5], k, e5);
    gives(ops[5], k, e5, seq![e5[Buffer::Normed]]);
    ran_step(ops, 6, k, v);
    let e7 = launched(ops[6], k, e6);
    gives(ops[6], k, e6, seq![e6[Buffer::KvRaw]]);
    ran_step(ops, 7, k, v);
    let e8 = launched(ops[7], k, e7);
    gives(
        ops[7],
        k,
        e7,
        seq![
            e7[Buffer::Kcache(t.il)],
            e7[Buffer::Vcache(t.il)],
            e7[Buffer::KvNorm],
            e7[Buffer::KvRaw],
        ],
    );
    assert(ran_all(ops, k, v) == e8);
}

/// The indexer's keys with the step's rows stored, where the layer keeps them.
pub open spec fn indexer_keys(
    t: LayerStep,
    s: Shape,
    keeps_keys: bool,
    k: Kernels,
    x: int,
    keys: int,
) -> int {
    if keeps_keys {
        k(
            Op::IdxStore { il: t.il },
            0,
            seq![times(k, Role::IndexerK, s.n_embd, s.n_idx_dim, t.n_tok, x), keys],
        )
    } else {
        keys
    }
}

/// The rows that the indexer scores best among those visible: its queries come
/// from the latent queries, its head weights from the residual stream.
pub open spec fn best_rows(
    t: LayerStep,
    s: Shape,
    topk: u32,
    k: Kernels,
    cur: int,
    latent: int,
    keys: int,
) -> int {
    let visible = (t.pos0 + t.n_tok) as u32;
    let one = t.n_tok == 1;
    let query = k(
        Op::IdxRope,
        0,
        seq![
            times(
                k,
                Role::IndexerQB,
                s.n_lora_q,
                (s.n_idx_head * s.n_idx_dim) as u32,
                t.n_tok,
                latent,
            ),
        ],
    );
    let weights = times_f32(
        k,
        Weight::Own(Role::IndexerProj),
        s.n_embd,
        s.n_idx_head,
        t.n_tok,
        cur,
    );
    let scores = k(Op::IdxScores { il: t.il, visible, one }, 0, seq![query, weights, keys]);
    k(Op::IdxTopk { visible, topk, one }, 0, seq![scores])
}

proof fn idx_keys_compute(t: LayerStep, s: Shape, k: Kernels, v: Values)
    ensures
        ({
            let e = ran_all(idx_key_ops(t, s, false), k, v);
            &&& e[Buffer::IdxKcache(t.il)] == indexer_keys(
                t,
                s,
                true,
                k,
                v[Buffer::Normed],
                v[Buffer::IdxKcache(t.il)],
            )
            &&& forall|b: Buffer|
                b != Buffer::IdxKraw && b != Buffer::IdxKcache(t.il) ==> #[trigger] e[b] == v[b]
        }),
{
    let ops = idx_key_ops(t, s, false);
    ran_step(ops, 0, k, v);
    let e1 = launched(ops[0], k, v);
    gives(ops[0], k, v, seq![v[Buffer::Normed]]);
    ran_step(ops, 1, k, v);
    let e2 = launched(ops[1], k, e1);
    gives(ops[1], k, e1, seq![e1[Buffer::IdxKraw], e1[Buffer::IdxKcache(t.il)]]);
    assert(ran_all(ops, k, v) == e2);
}

proof fn idx_scores_compute(t: LayerStep, s: Shape, topk: u32, k: Kernels, v: Values)
    ensures
        ({
            let e = ran_all(idx_score_ops(t, s, false, topk), k, v);
            &&& e[Buffer::MlaSelected] == best_rows(
                t,
                s,
                topk,
                k,
                v[Buffer::Cur],
                v[Buffer::QRankNorm],
                v[Buffer::IdxKcache(t.il)],
            )
            &&& forall|b: Buffer|
                b != Buffer::IdxQ && b != Buffer::IdxW && b != Buffer::IdxScores && b
                    != Buffer::MlaSelected ==> #[trigger] e[b] == v[b]
        }),
{
    let ops = idx_score_ops(t, s, false, topk);
    assert(ops.len() == 5);
    ran_step(ops, 0, k, v);
    let e1 = launched(ops[0], k, v);
    gives(ops[0], k, v, seq![v[Buffer::QRankNorm]]);
    ran_step(ops, 1, k, v);
    let e2 = launched(ops[1], k, e1);
    gives(ops[1], k, e1, seq![e1[Buffer::IdxQ]]);
    ran_step(ops, 2, k, v);
    let e3 = launched(ops[2], k, e2);
    gives(ops[2], k, e2, seq![e2[Buffer::Cur]]);
    ran_step(ops, 3, k, v);
    let e4 = launched(ops[3], k, e3);
    gives(
        ops[3],
        k,
        e3,
        seq![e3[Buffer::IdxQ], e3[Buffer::IdxW], e3[Buffer::IdxKcache(t.il)]],
    );
    ran_step(ops, 4, k, v);
    let e5 = launched(ops[4], k, e4);
    gives(ops[4], k, e4, seq![e4[Buffer::IdxScores]]);
    assert(ran_all(ops, k, v) == e5);
}

/// The width of all heads' outputs side by side.
pub open spec fn mla_width(s: Shape) -> u32 {
    (s.n_head * (match s.family {
        Family::Mla => s.value_mla,
        Family::Gqa => s.head_dim,
    })) as u32
}

proof fn mla_tail_computes(t: LayerStep, s: Shape, selected: u32, k: Kernels, v: Values)
    ensures
        ({
            let e = ran_all(mla_tail_ops(t, s, false, selected), k, v);
            let low = k(Op::MlaQkLow, 0, seq![v[Buffer::Q]]);
            let heads = k(
                Op::MlaAttention { il: t.il, selected },
                0,
                seq![
                    v[Buffer::Q],
                    low,
                    v[Buffer::Kcache(t.il)],
                    v[Buffer::Vcache(t.il)],
                    v[Buffer::MlaSelected],
                ],
            );
            &&& e[Buffer::AttnOut] == times(
                k,
                Role::AttnOutput,
                mla_width(s),
                s.n_embd,
                t.n_tok,
                heads,
            )
            &&& forall|b: Buffer|
                b != Buffer::QkLow && b != Buffer::Heads && b != Buffer::AttnOut
                    ==> #[trigger] e[b] == v[b]
        }),
{
    let ops = mla_tail_ops(t, s, false, selected);
    assert(ops.len() == 3);
    ran_step(ops, 0, k, v);
    let e1 = launched(ops[0], k, v);
    gives(ops[0], k, v, seq![v[Buffer::Q]]);
    ran_step(ops, 1, k, v);
    let e2 = launched(ops[1], k, e1);
    gives(
        ops[1],
        k,
        e1,
        seq![
            e1[Buffer::Q],
            e1[Buffer::QkLow],
            e1[Buffer::Kcache(t.il)],
            e1[Buffer::Vcache(t.il)],
            e1[Buffer::MlaSelected],
        ],
    );
    ran_step(ops, 2, k, v);
    let e3 = launched(ops[2], k, e2);
    gives(ops[2], k, e2, seq![e2[Buffer::Heads]]);
    assert(ran_all(ops, k, v) == e3);
}

/// Latent attention computes attention, on whichever device. With `x` the normed
/// residual stream: the queries come from `x` through the low-rank projection and
/// its norm; the compact cache takes in the normed latent part and the rotary
/// part of the key-value projection of `x`; the indexer's cache its key
/// projection of `x`; the rows attended to are all visible ones, the best by the
/// indexer's scores, or those of before; and the output is the output projection
/// of what the queries find in those rows. The residual stream and every other
/// layer's caches stay as they were.
#[verifier::rlimit(30)]
pub proof fn mla_computes_attention(
    t: LayerStep,
    s: Shape,
    attn_dev: bool,
    keeps_keys: bool,
    rows: Rows,
    k: Kernels,
    v: Values,
)
    ensures
        ({
            let e = ran_all(mla_ops(t, s, attn_dev, keeps_keys, rows), k, v);
            let x = normed(k, Weight::Own(Role::AttnNorm), s.n_embd, t.n_tok, v[Buffer::Cur]);
            let (l, r) = (v[Buffer::Kcache(t.il)], v[Buffer::Vcache(t.il)]);
            let query = mla_query(t, s, k, x);
            let keys = indexer_keys(t, s, keeps_keys, k, x, v[Buffer::IdxKcache(t.il)]);
            let selected = match rows.how {
                Selection::Range => k(
                    Op::FillRange { visible: (t.pos0 + t.n_tok) as u32 },
                    0,
                    Seq::empty(),
                ),
                Selection::Reuse => v[Buffer::MlaSelected],
                Selection::Score => best_rows(
                    t,
                    s,
                    rows.count,
                    k,
                    v[Buffer::Cur],
                    latent_query(t, s, k, x),
                    keys,
                ),
            };
            let heads = k(
                Op::MlaAttention { il: t.il, selected: rows.count },
                0,
                seq![
                    query,
                    k(Op::MlaQkLow, 0, seq![query]),
                    mla_stored(t, s, k, x, l, r, 0),
                    mla_stored(t, s, k, x, l, r, 1),
                    selected,
                ],
            );
            &&& e[Buffer::Kcache(t.il)] == mla_stored(t, s, k, x, l, r, 0)
            &&& e[Buffer::Vcache(t.il)] == mla_stored(t, s, k, x, l, r, 1)
            &&& e[Buffer::IdxKcache(t.il)] == keys
            &&& e[Buffer::MlaSelected] == selected
            &&& e[Buffer::AttnOut] == times(
                k,
                Role::AttnOutput,
                mla_width(s),
                s.n_embd,
                t.n_tok,
                heads,
            )
            &&& e[Buffer::Cur] == v[Buffer::Cur]
            &&& forall|il: u32|
                il != t.il ==> #[trigger] e[Buffer::Kcache(il)] == v[Buffer::Kcache(il)]
            &&& forall|il: u32|
                il != t.il ==> #[trigger] e[Buffer::Vcache(il)] == v[Buffer::Vcache(il)]
            &&& forall|il: u32|
                il != t.il ==> #[trigger] e[Buffer::IdxKcache(il)] == v[Buffer::IdxKcache(il)]
            &&& e[Buffer::ExpertPtrs] == v[Buffer::ExpertPtrs]
            &&& e[Buffer::GrpPtrs] == v[Buffer::GrpPtrs]
            &&& e[Buffer::GrpStarts] == v[Buffer::GrpStarts]
            &&& e[Buffer::GrpPairs] == v[Buffer::GrpPairs]
        }),
    decreases attn_dev as int,
{
    if attn_dev {
        mla_computes_attention(t, s, false, keeps_keys, rows, k, v);
        offload_changes_nothing(t, s, keeps_keys, rows, k, v);
        let a = ran_all(mla_ops(t, s, false, keeps_keys, rows), k, v);
        let b = ran_all(mla_ops(t, s, true, keeps_keys, rows), k, v);
        assert(same(a, b));
        assert(a[Buffer::AttnOut] == b[Buffer::AttnOut]);
        assert(a[Buffer::Cur] == b[Buffer::Cur]);
        assert(a[Buffer::MlaSelected] == b[Buffer::MlaSelected]);
        assert(a[Buffer::ExpertPtrs] == b[Buffer::ExpertPtrs]);
        assert(a[Buffer::GrpPtrs] == b[Buffer::GrpPtrs]);
        assert(a[Buffer::GrpStarts] == b[Buffer::GrpStarts]);
        assert(a[Buffer::GrpPairs] == b[Buffer::GrpPairs]);
        assert forall|il: u32| #[trigger] b[Buffer::Kcache(il)] == a[Buffer::Kcache(il)] by {}
        assert forall|il: u32| #[trigger] b[Buffer::Vcache(il)] == a[Buffer::Vcache(il)] by {}
        assert forall|il: u32| #[trigger] b[Buffer::IdxKcache(il)] == a[Buffer::IdxKcache(il)] by {}
    } else {
        let head = mla_head_ops(t, s, false);
        let select = mla_select_ops(t, s, false, keeps_keys, rows);
        let keys = if keeps_keys {
            idx_key_ops(t, s, false)
        } else {
            Seq::empty()
        };
        let range = seq![Op::FillRange { visible: (t.pos0 + t.n_tok) as u32 }];
        let choice = match rows.how {
            Selection::Range => range,
            Selection::Reuse => Seq::empty(),
            Selection::Score => idx_score_ops(t, s, false, rows.count),
        };
        ran_concat(head + select, mla_tail_ops(t, s, false, rows.count), k, v);
        ran_concat(head, select, k, v);
        mla_head_computes(t, s, k, v);
        let e1 = ran_all(head, k, v);
        ran_concat(keys, choice, k, e1);
        let e2 = ran_all(keys, k, e1);
        if keeps_keys {
            idx_keys_compute(t, s, k, e1);
        }
        match rows.how {
            Selection::Range => {
                ran_step(range, 0, k, e2);
                gives(range[0], k, e2, Seq::empty());
            },
            Selection::Reuse => {},
            Selection::Score => idx_scores_compute(t, s, rows.count, k, e2),
        }
        let e3 = ran_all(choice, k, e2);
        assert(ran_all(select, k, e1) == e3);
        mla_tail_computes(t, s, rows.count, k, e3);
    }
}

/// The device that is current after the first `n` launches of a list, which begins
/// on the primary.
pub open spec fn current(ops: Seq<Op>, n: int) -> Device
    decreases n,
{
    if n <= 0 {
        Device::Primary
    } else {
        match ops[n - 1] {
            Op::SetDevice(d) => d,
            _ => current(ops, n - 1),
        }
    }
}

/// How many values of a buffer a step uses, of those that are copied.
pub open spec fn step_values(b: Buffer, t: LayerStep, s: Shape, g: Option<Geom>) -> int {
    if b == Buffer::K {
        match g {
            Some(o) => t.n_tok * (o.n_head_kv * o.head_dim),
            None => t.n_tok * (s.n_head_kv * s.head_dim),
        }
    } else {
        t.n_tok * s.n_embd
    }
}

/// Grouped-query attention copies the keys whole where they serve as values, and
/// stays on the primary device.
pub proof fn gqa_copies_are_whole(
    t: LayerStep,
    s: Shape,
    g: Option<Geom>,
    p: LayerParts,
    i: int,
)
    requires
        0 <= i < gqa_block_ops(t, s, g, p).len(),
        (heads_of(s, g).n_head_kv * heads_of(s, g).head_dim) <= u32::MAX,
        step_values(Buffer::K, t, s, g) <= u32::MAX,
        0 <= step_values(Buffer::K, t, s, g),
        0 <= heads_of(s, g).n_head_kv * heads_of(s, g).head_dim,
    ensures
        ({
            let op = gqa_block_ops(t, s, g, p)[i];
            &&& !(op is SetDevice)
            &&& op matches Op::Copy { dst, src, n } ==> {
                &&& n == step_values(src, t, s, g)
                &&& src == Buffer::K
                &&& dst == Buffer::V
            }
        }),
{
}

/// Latent attention on a device of its own: what is copied there and back is copied
/// whole, everything between the two switches runs there, and the block ends on
/// the primary. Without a device of its own nothing is switched or copied.
pub proof fn mla_runs_on_its_device(
    t: LayerStep,
    s: Shape,
    attn_dev: bool,
    keeps_keys: bool,
    rows: Rows,
    i: int,
)
    requires
        0 <= i < mla_ops(t, s, attn_dev, keeps_keys, rows).len(),
        t.n_tok * s.n_embd <= u32::MAX,
        0 <= t.n_tok * s.n_embd,
    ensures
        ({
            let ops = mla_ops(t, s, attn_dev, keeps_keys, rows);
            let last = ops.len() - 1;
            let op = ops[i];
            &&& op matches Op::Copy { dst, src, n } ==> attn_dev && n == t.n_tok * s.n_embd
            &&& op is SetDevice <==> attn_dev && (i == 2 || i == last)
            &&& attn_dev ==> {
                &&& ops[2] == Op::SetDevice(Device::Attn)
                &&& ops[last] == Op::SetDevice(Device::Primary)
                &&& ops.len() > 3
                &&& op is MatmulQ8 || op is MatmulF32 || op is MlaAttention || op is MlaStore
                    || op is IdxScores || op is IdxTopk || op is IdxStore ==> current(ops, i)
                    == Device::Attn
            }
            &&& current(ops, ops.len() as int) == Device::Primary
        }),
{
    let ops = mla_ops(t, s, attn_dev, keeps_keys, rows);
    let last = ops.len() - 1;
    mla_switches(t, s, attn_dev, keeps_keys, rows, i);
    if attn_dev {
        assert forall|k: int| 0 <= k < ops.len() implies (#[trigger] ops[k] is SetDevice <==> k == 2
            || k == last) by {
            mla_switches(t, s, attn_dev, keeps_keys, rows, k);
        }
        if i > 2 {
            current_between(ops, i);
        }
    } else {
        assert forall|k: int| 0 <= k < ops.len() implies !(#[trigger] ops[k] is SetDevice) by {
            mla_switches(t, s, attn_dev, keeps_keys, rows, k);
        }
        current_stays(ops, ops.len() as int);
    }
}

proof fn current_between(ops: Seq<Op>, i: int)
    requires
        2 < i <= ops.len() - 1,
        ops[2] == Op::SetDevice(Device::Attn),
        forall|k: int| 2 < k < i ==> !(#[trigger] ops[k] is SetDevice),
    ensures
        current(ops, i) == Device::Attn,
    decreases i,
{
    if i > 3 {
        assert(!(ops[i - 1] is SetDevice));
        current_between(ops, i - 1);
    }
}

proof fn current_stays(ops: Seq<Op>, n: int)
    requires
        0 <= n <= ops.len(),
        forall|k: int| 0 <= k < n ==> !(#[trigger] ops[k] is SetDevice),
    ensures
        current(ops, n) == Device::Primary,
    decreases n,
{
    if n > 0 {
        assert(!(ops[n - 1] is SetDevice));
        current_stays(ops, n - 1);
    }
}

#[verifier::rlimit(30)]
proof fn mla_switches(
    t: LayerStep,
    s: Shape,
    attn_dev: bool,
    keeps_keys: bool,
    rows: Rows,
    i: int,
)
    requires
        0 <= i < mla_ops(t, s, attn_dev, keeps_keys, rows).len(),
        0 <= t.n_tok * s.n_embd <= u32::MAX,
    ensures
        ({
            let ops = mla_ops(t, s, attn_dev, keeps_keys, rows);
            let last = ops.len() - 1;
            let op = ops[i];
            &&& ops.len() >= 8
            &&& op matches Op::Copy { dst, src, n } ==> attn_dev && n == t.n_tok * s.n_embd
            &&& op is SetDevice <==> attn_dev && (i == 2 || i == last)
            &&& attn_dev ==> ops[2] == Op::SetDevice(Device::Attn) && ops[last] == Op::SetDevice(
                Device::Primary,
            )
            &&& attn_dev && i < 2 ==> op is RmsNorm || op is Copy
        }),
{
    let a = mla_head_ops(t, s, attn_dev);
    let b = mla_select_ops(t, s, attn_dev, keeps_keys, rows);
    let c = mla_tail_ops(t, s, attn_dev, rows.count);
    let ops = mla_ops(t, s, attn_dev, keeps_keys, rows);
    assert(ops =~= a + b + c);
    let (n, m) = (a.len() as int, b.len() as int);
    assert(n == (if attn_dev {
        10int
    } else {
        8
    }));
    assert(c.len() == (if attn_dev {
        5int
    } else {
        3
    }));
    assert(a[if attn_dev {
        2int
    } else {
        0
    }] == ops[if attn_dev {
        2int
    } else {
        0
    }]);
    assert(ops[ops.len() - 1] == c[c.len() - 1]);
    if i < n {
        assert(ops[i] == a[i]);
    } else if i < n + m {
        assert(ops[i] == b[i - n]);
        select_stays(t, s, attn_dev, keeps_keys, rows, i - n);
    } else {
        assert(ops[i] == c[i - n - m]);
    }
}

proof fn select_stays(
    t: LayerStep,
    s: Shape,
    attn_dev: bool,
    keeps_keys: bool,
    rows: Rows,
    i: int,
)
    requires
        0 <= i < mla_select_ops(t, s, attn_dev, keeps_keys, rows).len(),
        0 <= t.n_tok * s.n_embd <= u32::MAX,
    ensures
        ({
            let op = mla_select_ops(t, s, attn_dev, keeps_keys, rows)[i];
            &&& !(op is SetDevice)
            &&& op matches Op::Copy { dst, src, n } ==> attn_dev && n == t.n_tok * s.n_embd
        }),
{
    let keys = if keeps_keys {
        idx_key_ops(t, s, attn_dev)
    } else {
        Seq::empty()
    };
    let ops = mla_select_ops(t, s, attn_dev, keeps_keys, rows);
    if i < keys.len() {
        assert(ops[i] == keys[i]);
    } else {
        match rows.how {
            Selection::Score => {
                assert(ops[i] == idx_score_ops(t, s, attn_dev, rows.count)[i - keys.len()]);
            },
            Selection::Range => {
                assert(ops[i] is FillRange);
            },
            Selection::Reuse => {},
        }
    }
}

/// Behind attention, nothing is copied and no device is switched.
pub proof fn rest_of_layer_stays_on_primary(
    t: LayerStep,
    s: Shape,
    p: LayerParts,
    predict: bool,
    groups: Option<u32>,
    i: int,
)
    ensures
        0 <= i < residual_ops(t, s, p).len() ==> !(residual_ops(t, s, p)[i] is Copy)
            && !(residual_ops(t, s, p)[i] is SetDevice),
        0 <= i < dense_ops(t, s).len() ==> !(dense_ops(t, s)[i] is Copy) && !(dense_ops(
            t,
            s,
        )[i] is SetDevice),
        0 <= i < router_ops(t, s, p, predict).len() ==> !(router_ops(t, s, p, predict)[i] is Copy)
            && !(router_ops(t, s, p, predict)[i] is SetDevice),
        0 <= i < shared_ops(t, s, p).len() ==> !(shared_ops(t, s, p)[i] is Copy) && !(shared_ops(
            t,
            s,
            p,
        )[i] is SetDevice),
        0 <= i < routed_ops(t, s, groups).len() ==> !(routed_ops(t, s, groups)[i] is Copy)
            && !(routed_ops(t, s, groups)[i] is SetDevice),
        0 <= i < combine_ops(t, s, p).len() ==> !(combine_ops(t, s, p)[i] is Copy)
            && !(combine_ops(t, s, p)[i] is SetDevice),
{
}

} // verus!
