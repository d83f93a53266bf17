//! What a layer's launches read and write, and what follows from it: a step's
//! outcome depends on nothing that earlier steps left behind, and moving
//! attention to a device of its own changes no value.

use vstd::prelude::*;

use crate::attention::{Rows, Selection};
use crate::buffers::{Buffer, Sizing};
use crate::graph::{
    admitted, allocated, combine_ops, dense_ops, gqa_block_ops, idx_key_ops, idx_score_ops,
    mla_head_ops, mla_ops, mla_select_ops, mla_tail_ops, plan_dense, plan_residual, plan_router,
    plan_shared, residual_ops, routed_ops, router_ops, shared_ops, LayerParts, LayerStep, Op,
};
use crate::loader::Geom;
use crate::shape::Shape;

verus! {

/// The buffers that a launch reads.
pub open spec fn reads(op: Op) -> Seq<Buffer> {
    match op {
        Op::SetDevice(_) | Op::Zero { .. } | Op::FillRange { .. } => Seq::empty(),
        Op::RmsNorm { out, x, w, n, rows } => seq![x],
        Op::MatmulQ8 { out, w, x, in_dim, out_dim, rows } => seq![x],
        Op::MatmulF32 { out, w, x, in_dim, out_dim, rows } => seq![x],
        Op::Copy { dst, src, n } => seq![src],
        Op::Add { out, a, b, n } => seq![a, b],
        Op::Swiglu { out, a, b, n } => seq![a, b],
        Op::Quantize { out, x, dim, rows } => seq![x],
        Op::HeadNorm { x, norm, rows, dim } => seq![x],
        Op::Rope { x, heads, dim, rot, theta, factors } => seq![x],
        Op::KvAppend { cache, kv, heads, dim } => seq![cache, kv],
        Op::GqaAttention { il, heads_kv, dim, window, unit } => seq![
            Buffer::Q,
            Buffer::Kcache(il),
            Buffer::Vcache(il),
        ],
        Op::MlaRope => seq![Buffer::Q],
        Op::MlaKvNorm => seq![Buffer::KvRaw],
        Op::MlaStore { il } => seq![
            Buffer::Kcache(il),
            Buffer::Vcache(il),
            Buffer::KvNorm,
            Buffer::KvRaw,
        ],
        Op::IdxStore { il } => seq![Buffer::IdxKraw, Buffer::IdxKcache(il)],
        Op::IdxRope => seq![Buffer::IdxQ],
        Op::IdxScores { il, .. } => seq![
            Buffer::IdxQ,
            Buffer::IdxW,
            Buffer::IdxKcache(il),
        ],
        Op::IdxTopk { .. } => seq![Buffer::IdxScores],
        Op::MlaQkLow => seq![Buffer::Q],
        Op::MlaAttention { il, selected } => seq![
            Buffer::Q,
            Buffer::QkLow,
            Buffer::Kcache(il),
            Buffer::Vcache(il),
            Buffer::MlaSelected,
        ],
        Op::RouterSelect { next } => if next {
            seq![Buffer::PredLogits]
        } else {
            seq![Buffer::RouterLogits]
        },
        Op::RouterScale => seq![Buffer::RouterWeights, Buffer::RouterSelected],
        Op::MoePair => seq![Buffer::ExpertPtrs, Buffer::RouterWeights, Buffer::Xq],
        Op::MoeDown => seq![Buffer::ExpertPtrs, Buffer::Midq],
        Op::MoePairGrouped { groups } => seq![
            Buffer::GrpPtrs,
            Buffer::GrpStarts,
            Buffer::GrpPairs,
            Buffer::RouterWeights,
            Buffer::Xq,
        ],
        Op::MoeDownGrouped { groups } => seq![
            Buffer::GrpPtrs,
            Buffer::GrpStarts,
            Buffer::GrpPairs,
            Buffer::Midq,
        ],
        Op::MoeSlotSum => seq![Buffer::GrpPartial],
    }
}

/// The buffers that a launch writes: none, one or two.
pub open spec fn writes(op: Op) -> Seq<Buffer> {
    match op {
        Op::SetDevice(_) => Seq::empty(),
        Op::RmsNorm { out, x, w, n, rows } => seq![out],
        Op::MatmulQ8 { out, w, x, in_dim, out_dim, rows } => seq![out],
        Op::MatmulF32 { out, w, x, in_dim, out_dim, rows } => seq![out],
        Op::Copy { dst, src, n } => seq![dst],
        Op::Zero { x, n } => seq![x],
        Op::Add { out, a, b, n } => seq![out],
        Op::Swiglu { out, a, b, n } => seq![out],
        Op::Quantize { out, x, dim, rows } => seq![out],
        Op::HeadNorm { x, norm, rows, dim } => seq![x],
        Op::Rope { x, heads, dim, rot, theta, factors } => seq![x],
        Op::KvAppend { cache, kv, heads, dim } => seq![cache],
        Op::GqaAttention { .. } | Op::MlaAttention { .. } => seq![Buffer::Heads],
        Op::MlaRope => seq![Buffer::Q],
        Op::MlaKvNorm => seq![Buffer::KvNorm],
        Op::MlaStore { il } => seq![Buffer::Kcache(il), Buffer::Vcache(il)],
        Op::IdxStore { il } => seq![Buffer::IdxKcache(il)],
        Op::FillRange { .. } | Op::IdxTopk { .. } => seq![Buffer::MlaSelected],
        Op::IdxRope => seq![Buffer::IdxQ],
        Op::IdxScores { .. } => seq![Buffer::IdxScores],
        Op::MlaQkLow => seq![Buffer::QkLow],
        Op::RouterSelect { next } => if next {
            seq![Buffer::PredSelected, Buffer::PredWeights]
        } else {
            seq![Buffer::RouterSelected, Buffer::RouterWeights]
        },
        Op::RouterScale => seq![Buffer::RouterWeights],
        Op::MoePair | Op::MoePairGrouped { .. } => seq![Buffer::MoeMid],
        Op::MoeDown | Op::MoeSlotSum => seq![Buffer::MoeOut],
        Op::MoeDownGrouped { .. } => seq![Buffer::GrpPartial],
    }
}

/// A launch without the names of the buffers that it is given: what is left
/// says which kernel runs, on which weights and with which sizes.
pub open spec fn kernel(op: Op) -> Op {
    let b = Buffer::Tok;
    match op {
        Op::RmsNorm { out, x, w, n, rows } => Op::RmsNorm { out: b, x: b, w, n, rows },
        Op::MatmulQ8 { out, w, x, in_dim, out_dim, rows } => Op::MatmulQ8 {
            out: b,
            w,
            x: b,
            in_dim,
            out_dim,
            rows,
        },
        Op::MatmulF32 { out, w, x, in_dim, out_dim, rows } => Op::MatmulF32 {
            out: b,
            w,
            x: b,
            in_dim,
            out_dim,
            rows,
        },
        Op::Copy { dst, src, n } => Op::Copy { dst: b, src: b, n },
        Op::Zero { x, n } => Op::Zero { x: b, n },
        Op::Add { out, a, b: c, n } => Op::Add { out: b, a: b, b, n },
        Op::Swiglu { out, a, b: c, n } => Op::Swiglu { out: b, a: b, b, n },
        Op::Quantize { out, x, dim, rows } => Op::Quantize { out: b, x: b, dim, rows },
        Op::HeadNorm { x, norm, rows, dim } => Op::HeadNorm { x: b, norm, rows, dim },
        Op::Rope { x, heads, dim, rot, theta, factors } => Op::Rope {
            x: b,
            heads,
            dim,
            rot,
            theta,
            factors,
        },
        Op::KvAppend { cache, kv, heads, dim } => Op::KvAppend { cache: b, kv: b, heads, dim },
        other => other,
    }
}

/// What the buffers hold: for each, the rows that a step uses of it, as one
/// value.
pub type Values = Map<Buffer, int>;

/// What kernels compute: the value of a launch's `i`-th output, from what the
/// launch is and what it reads.
pub type Kernels = spec_fn(Op, int, Seq<int>) -> int;

/// The value of a launch's `i`-th output.
pub open spec fn output(op: Op, i: int, k: Kernels, v: Values) -> int {
    match op {
        Op::Copy { dst, src, n } => v[src],
        _ => k(kernel(op), i, reads(op).map_values(|b: Buffer| v[b])),
    }
}

/// The buffers after a launch.
pub open spec fn launched(op: Op, k: Kernels, v: Values) -> Values {
    let w = writes(op);
    if w.len() == 0 {
        v
    } else if w.len() == 1 {
        v.insert(w[0], output(op, 0, k, v))
    } else {
        v.insert(w[0], output(op, 0, k, v)).insert(w[1], output(op, 1, k, v))
    }
}

/// The buffers after the first `n` launches of a list.
pub open spec fn ran(ops: Seq<Op>, n: int, k: Kernels, v: Values) -> Values
    decreases n,
{
    if n <= 0 {
        v
    } else {
        launched(ops[n - 1], k, ran(ops, n - 1, k, v))
    }
}

/// The buffers after a whole list of launches.
pub open spec fn ran_all(ops: Seq<Op>, k: Kernels, v: Values) -> Values {
    ran(ops, ops.len() as int, k, v)
}

proof fn ran_prefix(a: Seq<Op>, b: Seq<Op>, n: int, k: Kernels, v: Values)
    requires
        0 <= n <= a.len(),
    ensures
        ran(a + b, n, k, v) == ran(a, n, k, v),
    decreases n,
{
    if n > 0 {
        ran_prefix(a, b, n - 1, k, v);
        assert((a + b)[n - 1] == a[n - 1]);
    }
}

proof fn ran_suffix(a: Seq<Op>, b: Seq<Op>, m: int, k: Kernels, v: Values)
    requires
        0 <= m <= b.len(),
    ensures
        ran(a + b, a.len() + m, k, v) == ran(b, m, k, ran_all(a, k, v)),
    decreases m,
{
    if m > 0 {
        ran_suffix(a, b, m - 1, k, v);
        assert((a + b)[a.len() + m - 1] == b[m - 1]);
    } else {
        ran_prefix(a, b, a.len() as int, k, v);
    }
}

/// A list of launches followed by another.
pub proof fn ran_concat(a: Seq<Op>, b: Seq<Op>, k: Kernels, v: Values)
    ensures
        ran_all(a + b, k, v) == ran_all(b, k, ran_all(a, k, v)),
{
    ran_suffix(a, b, b.len() as int, k, v);
}

/// The buffers that have been filled once a launch is through.
pub open spec fn filling(op: Op, live: Set<Buffer>) -> Set<Buffer> {
    let w = writes(op);
    if w.len() == 0 {
        live
    } else if w.len() == 1 {
        live.insert(w[0])
    } else {
        live.insert(w[0]).insert(w[1])
    }
}

/// The buffers that have been filled after the first `n` launches of a list.
pub open spec fn filled(ops: Seq<Op>, n: int, live: Set<Buffer>) -> Set<Buffer>
    decreases n,
{
    if n <= 0 {
        live
    } else {
        filling(ops[n - 1], filled(ops, n - 1, live))
    }
}

/// Whether everything that a launch reads has been filled.
pub open spec fn fed(op: Op, live: Set<Buffer>) -> bool {
    forall|j: int| 0 <= j < reads(op).len() ==> live.contains(#[trigger] reads(op)[j])
}

/// Whether none of the first `n` launches reads a buffer before it is filled.
pub open spec fn closed_to(ops: Seq<Op>, n: int, live: Set<Buffer>) -> bool
    decreases n,
{
    n <= 0 || (closed_to(ops, n - 1, live) && fed(ops[n - 1], filled(ops, n - 1, live)))
}

/// Whether no launch of a list reads a buffer before it is filled.
pub open spec fn closed(ops: Seq<Op>, live: Set<Buffer>) -> bool {
    closed_to(ops, ops.len() as int, live)
}

/// The buffers that are filled after a whole list of launches.
pub open spec fn filled_all(ops: Seq<Op>, live: Set<Buffer>) -> Set<Buffer> {
    filled(ops, ops.len() as int, live)
}

/// Whether two states of the buffers agree on some of them.
pub open spec fn agree(a: Values, b: Values, on: Set<Buffer>) -> bool {
    forall|x: Buffer| #[trigger] on.contains(x) ==> a[x] == b[x]
}

/// A launch gives the same output wherever it reads the same values.
proof fn same_output(p: Op, q: Op, i: int, k: Kernels, a: Values, b: Values)
    requires
        kernel(p) == kernel(q),
        reads(p).len() == reads(q).len(),
        forall|j: int| 0 <= j < reads(p).len() ==> a[#[trigger] reads(p)[j]] == b[reads(q)[j]],
    ensures
        output(p, i, k, a) == output(q, i, k, b),
{
    assert(reads(p).map_values(|x: Buffer| a[x]) =~= reads(q).map_values(|x: Buffer| b[x]));
    if p is Copy {
        assert(a[reads(p)[0]] == b[reads(q)[0]]);
    }
}

proof fn agree_to(ops: Seq<Op>, n: int, k: Kernels, a: Values, b: Values, live: Set<Buffer>)
    requires
        0 <= n <= ops.len(),
        closed_to(ops, n, live),
        agree(a, b, live),
    ensures
        agree(ran(ops, n, k, a), ran(ops, n, k, b), filled(ops, n, live)),
    decreases n,
{
    if n > 0 {
        agree_to(ops, n - 1, k, a, b, live);
        let op = ops[n - 1];
        let (x, y) = (ran(ops, n - 1, k, a), ran(ops, n - 1, k, b));
        let before = filled(ops, n - 1, live);
        assert forall|j: int| 0 <= j < reads(op).len() implies x[#[trigger] reads(op)[j]]
            == y[reads(op)[j]] by {
            assert(before.contains(reads(op)[j]));
        }
        same_output(op, op, 0, k, x, y);
        same_output(op, op, 1, k, x, y);
    }
}

/// Launches that read only what is filled give the same results on the same
/// inputs, whatever the other buffers hold.
pub proof fn closed_is_repeatable(
    ops: Seq<Op>,
    k: Kernels,
    a: Values,
    b: Values,
    live: Set<Buffer>,
)
    requires
        closed(ops, live),
        agree(a, b, live),
    ensures
        agree(ran_all(ops, k, a), ran_all(ops, k, b), filled_all(ops, live)),
{
    agree_to(ops, ops.len() as int, k, a, b, live);
}

proof fn filled_grows(ops: Seq<Op>, n: int, live: Set<Buffer>)
    ensures
        live.subset_of(filled(ops, n, live)),
    decreases n,
{
    if n > 0 {
        filled_grows(ops, n - 1, live);
    }
}

proof fn filled_suffix(a: Seq<Op>, b: Seq<Op>, m: int, live: Set<Buffer>)
    requires
        0 <= m <= b.len(),
    ensures
        filled(a + b, a.len() + m, live) == filled(b, m, filled_all(a, live)),
    decreases m,
{
    if m > 0 {
        filled_suffix(a, b, m - 1, live);
        assert((a + b)[a.len() + m - 1] == b[m - 1]);
    } else {
        filled_prefix(a, b, a.len() as int, live);
    }
}

proof fn filled_prefix(a: Seq<Op>, b: Seq<Op>, n: int, live: Set<Buffer>)
    requires
        0 <= n <= a.len(),
    ensures
        filled(a + b, n, live) == filled(a, n, live),
    decreases n,
{
    if n > 0 {
        filled_prefix(a, b, n - 1, live);
        assert((a + b)[n - 1] == a[n - 1]);
    }
}

proof fn closed_prefix(a: Seq<Op>, b: Seq<Op>, n: int, live: Set<Buffer>)
    requires
        0 <= n <= a.len(),
    ensures
        closed_to(a + b, n, live) == closed_to(a, n, live),
    decreases n,
{
    if n > 0 {
        closed_prefix(a, b, n - 1, live);
        filled_prefix(a, b, n - 1, live);
        assert((a + b)[n - 1] == a[n - 1]);
    }
}

proof fn closed_suffix(a: Seq<Op>, b: Seq<Op>, m: int, live: Set<Buffer>)
    requires
        0 <= m <= b.len(),
        closed(a, live),
        closed_to(b, m, filled_all(a, live)),
    ensures
        closed_to(a + b, a.len() + m, live),
    decreases m,
{
    if m > 0 {
        closed_suffix(a, b, m - 1, live);
        filled_suffix(a, b, m - 1, live);
        assert((a + b)[a.len() + m - 1] == b[m - 1]);
    } else {
        closed_prefix(a, b, a.len() as int, live);
    }
}

/// Two lists, the second of which reads only what is filled after the first.
proof fn closed_concat(a: Seq<Op>, b: Seq<Op>, live: Set<Buffer>)
    requires
        closed(a, live),
        closed(b, filled_all(a, live)),
    ensures
        closed(a + b, live),
        filled_all(a + b, live) == filled_all(b, filled_all(a, live)),
{
    closed_suffix(a, b, b.len() as int, live);
    filled_suffix(a, b, b.len() as int, live);
}


pub(crate) proof fn gqa_closed(t: LayerStep, s: Shape, g: Option<Geom>, p: LayerParts, live: Set<Buffer>)
    requires
        live.contains(Buffer::Cur),
        live.contains(Buffer::Kcache(t.il)),
        live.contains(Buffer::Vcache(t.il)),
    ensures
        closed(gqa_block_ops(t, s, g, p), live),
        filled_all(gqa_block_ops(t, s, g, p), live).contains(Buffer::AttnOut),
{
    let ops = gqa_block_ops(t, s, g, p);
    reveal_with_fuel(closed_to, 14);
    reveal_with_fuel(filled, 14);
    if g is Some {
        assert(ops.len() == 13);
    } else {
        assert(ops.len() == 12);
    }
}

proof fn residual_closed(t: LayerStep, s: Shape, p: LayerParts, live: Set<Buffer>)
    requires
        live.contains(Buffer::Cur),
        live.contains(Buffer::AttnOut),
    ensures
        closed(residual_ops(t, s, p), live),
        filled_all(residual_ops(t, s, p), live).contains(Buffer::AfterAttn),
        filled_all(residual_ops(t, s, p), live).contains(Buffer::Normed),
{
    reveal_with_fuel(closed_to, 4);
    reveal_with_fuel(filled, 4);
}

proof fn dense_closed(t: LayerStep, s: Shape, live: Set<Buffer>)
    requires
        live.contains(Buffer::AfterAttn),
        live.contains(Buffer::Normed),
    ensures
        closed(dense_ops(t, s), live),
        filled_all(dense_ops(t, s), live).contains(Buffer::Cur),
{
    reveal_with_fuel(closed_to, 6);
    reveal_with_fuel(filled, 6);
}

proof fn router_closed(t: LayerStep, s: Shape, p: LayerParts, predict: bool, live: Set<Buffer>)
    requires
        live.contains(Buffer::AfterAttn),
        live.contains(Buffer::Normed),
    ensures
        closed(router_ops(t, s, p, predict), live),
        filled_all(router_ops(t, s, p, predict), live).contains(Buffer::RouterSelected),
        filled_all(router_ops(t, s, p, predict), live).contains(Buffer::RouterWeights),
{
    reveal_with_fuel(closed_to, 7);
    reveal_with_fuel(filled, 7);
}

proof fn shared_closed(t: LayerStep, s: Shape, p: LayerParts, live: Set<Buffer>)
    requires
        live.contains(Buffer::AfterAttn),
        live.contains(Buffer::Normed),
    ensures
        closed(shared_ops(t, s, p), live),
        filled_all(shared_ops(t, s, p), live).contains(Buffer::SharedOut),
        filled_all(shared_ops(t, s, p), live).contains(Buffer::Xq),
{
    reveal_with_fuel(closed_to, 8);
    reveal_with_fuel(filled, 8);
}

/// Whether the pointers that the routed experts run on have been uploaded.
pub open spec fn pointed(groups: Option<u32>, live: Set<Buffer>) -> bool {
    match groups {
        Some(_) => live.contains(Buffer::GrpPtrs) && live.contains(Buffer::GrpStarts)
            && live.contains(Buffer::GrpPairs),
        None => live.contains(Buffer::ExpertPtrs),
    }
}

pub(crate) proof fn routed_closed(t: LayerStep, s: Shape, groups: Option<u32>, live: Set<Buffer>)
    requires
        pointed(groups, live),
        live.contains(Buffer::RouterWeights),
        live.contains(Buffer::Xq),
    ensures
        closed(routed_ops(t, s, groups), live),
        filled_all(routed_ops(t, s, groups), live).contains(Buffer::MoeOut),
{
    reveal_with_fuel(closed_to, 5);
    reveal_with_fuel(filled, 5);
}

pub(crate) proof fn combine_closed(t: LayerStep, s: Shape, p: LayerParts, live: Set<Buffer>)
    requires
        live.contains(Buffer::MoeOut),
        live.contains(Buffer::SharedOut),
        live.contains(Buffer::AfterAttn),
    ensures
        closed(combine_ops(t, s, p), live),
        filled_all(combine_ops(t, s, p), live).contains(Buffer::Cur),
{
    reveal_with_fuel(closed_to, 5);
    reveal_with_fuel(filled, 5);
}

proof fn mla_head_closed(t: LayerStep, s: Shape, attn_dev: bool, live: Set<Buffer>)
    requires
        live.contains(Buffer::Cur),
        live.contains(Buffer::Kcache(t.il)),
        live.contains(Buffer::Vcache(t.il)),
    ensures
        closed(mla_head_ops(t, s, attn_dev), live),
        filled_all(mla_head_ops(t, s, attn_dev), live).contains(Buffer::Q),
        filled_all(mla_head_ops(t, s, attn_dev), live).contains(Buffer::QRankNorm),
        filled_all(mla_head_ops(t, s, attn_dev), live).contains(Buffer::Normed),
        attn_dev ==> filled_all(mla_head_ops(t, s, attn_dev), live).contains(Buffer::NormedA),
{
    let ops = mla_head_ops(t, s, attn_dev);
    reveal_with_fuel(closed_to, 11);
    reveal_with_fuel(filled, 11);
    if attn_dev {
        assert(ops.len() == 10);
    } else {
        assert(ops.len() == 8);
    }
}

proof fn idx_keys_closed(t: LayerStep, s: Shape, attn_dev: bool, live: Set<Buffer>)
    requires
        live.contains(Buffer::Normed),
        attn_dev ==> live.contains(Buffer::NormedA),
        live.contains(Buffer::IdxKcache(t.il)),
    ensures
        closed(idx_key_ops(t, s, attn_dev), live),
{
    reveal_with_fuel(closed_to, 3);
    reveal_with_fuel(filled, 3);
}

proof fn idx_scores_closed(t: LayerStep, s: Shape, attn_dev: bool, topk: u32, live: Set<Buffer>)
    requires
        live.contains(Buffer::Cur),
        live.contains(Buffer::QRankNorm),
        live.contains(Buffer::IdxKcache(t.il)),
    ensures
        closed(idx_score_ops(t, s, attn_dev, topk), live),
        filled_all(idx_score_ops(t, s, attn_dev, topk), live).contains(Buffer::MlaSelected),
{
    let ops = idx_score_ops(t, s, attn_dev, topk);
    reveal_with_fuel(closed_to, 7);
    reveal_with_fuel(filled, 7);
    if attn_dev {
        assert(ops.len() == 6);
    } else {
        assert(ops.len() == 5);
    }
}

proof fn mla_select_closed(
    t: LayerStep,
    s: Shape,
    attn_dev: bool,
    keeps_keys: bool,
    rows: Rows,
    live: Set<Buffer>,
)
    requires
        live.contains(Buffer::Cur),
        live.contains(Buffer::QRankNorm),
        live.contains(Buffer::Normed),
        attn_dev ==> live.contains(Buffer::NormedA),
        live.contains(Buffer::IdxKcache(t.il)),
        rows.how == Selection::Reuse ==> live.contains(Buffer::MlaSelected),
    ensures
        closed(mla_select_ops(t, s, attn_dev, keeps_keys, rows), live),
        filled_all(mla_select_ops(t, s, attn_dev, keeps_keys, rows), live).contains(
            Buffer::MlaSelected,
        ),
{
    let keys = if keeps_keys {
        idx_key_ops(t, s, attn_dev)
    } else {
        Seq::empty()
    };
    let choice = match rows.how {
        Selection::Range => seq![Op::FillRange { visible: (t.pos0 + t.n_tok) as u32 }],
        Selection::Reuse => Seq::empty(),
        Selection::Score => idx_score_ops(t, s, attn_dev, rows.count),
    };
    idx_keys_closed(t, s, attn_dev, live);
    let first = filled_all(keys, live);
    filled_grows(keys, keys.len() as int, live);
    assert(closed(choice, first) && filled_all(choice, first).contains(Buffer::MlaSelected)) by {
        match rows.how {
            Selection::Score => idx_scores_closed(t, s, attn_dev, rows.count, first),
            _ => {
                reveal_with_fuel(closed_to, 2);
                reveal_with_fuel(filled, 2);
            },
        }
    }
    closed_concat(keys, choice, live);
}

proof fn mla_tail_closed(t: LayerStep, s: Shape, attn_dev: bool, n: u32, live: Set<Buffer>)
    requires
        live.contains(Buffer::Q),
        live.contains(Buffer::Kcache(t.il)),
        live.contains(Buffer::Vcache(t.il)),
        live.contains(Buffer::MlaSelected),
    ensures
        closed(mla_tail_ops(t, s, attn_dev, n), live),
        filled_all(mla_tail_ops(t, s, attn_dev, n), live).contains(Buffer::AttnOut),
{
    let ops = mla_tail_ops(t, s, attn_dev, n);
    reveal_with_fuel(closed_to, 6);
    reveal_with_fuel(filled, 6);
    if attn_dev {
        assert(ops.len() == 5);
    } else {
        assert(ops.len() == 3);
    }
}

pub(crate) proof fn mla_closed(
    t: LayerStep,
    s: Shape,
    attn_dev: bool,
    keeps_keys: bool,
    rows: Rows,
    live: Set<Buffer>,
)
    requires
        live.contains(Buffer::Cur),
        live.contains(Buffer::Kcache(t.il)),
        live.contains(Buffer::Vcache(t.il)),
        live.contains(Buffer::IdxKcache(t.il)),
        rows.how == Selection::Reuse ==> live.contains(Buffer::MlaSelected),
    ensures
        closed(mla_ops(t, s, attn_dev, keeps_keys, rows), live),
        filled_all(mla_ops(t, s, attn_dev, keeps_keys, rows), live).contains(Buffer::AttnOut),
{
    let head = mla_head_ops(t, s, attn_dev);
    let select = mla_select_ops(t, s, attn_dev, keeps_keys, rows);
    let tail = mla_tail_ops(t, s, attn_dev, rows.count);
    let first = filled_all(head, live);
    let second = filled_all(select, first);
    mla_head_closed(t, s, attn_dev, live);
    filled_grows(head, head.len() as int, live);
    mla_select_closed(t, s, attn_dev, keeps_keys, rows, first);
    filled_grows(select, select.len() as int, first);
    mla_tail_closed(t, s, attn_dev, rows.count, second);
    closed_concat(head, select, live);
    closed_concat(head + select, tail, live);
}

/// The launches of a layer with a dense feed-forward block, `attend` being
/// those of its attention.
pub open spec fn dense_layer_ops(
    attend: Seq<Op>,
    t: LayerStep,
    s: Shape,
    p: LayerParts,
) -> Seq<Op> {
    attend + residual_ops(t, s, p) + dense_ops(t, s)
}

/// The launches of a layer with experts, up to where their weights are needed.
pub open spec fn until_experts_ops(
    attend: Seq<Op>,
    t: LayerStep,
    s: Shape,
    p: LayerParts,
    predict: bool,
) -> Seq<Op> {
    attend + residual_ops(t, s, p) + router_ops(t, s, p, predict) + shared_ops(t, s, p)
}

/// All launches of a layer with experts.
pub open spec fn moe_layer_ops(
    attend: Seq<Op>,
    t: LayerStep,
    s: Shape,
    p: LayerParts,
    predict: bool,
    groups: Option<u32>,
) -> Seq<Op> {
    until_experts_ops(attend, t, s, p, predict) + routed_ops(t, s, groups) + combine_ops(t, s, p)
}

/// Lists the launches of a layer with a dense feed-forward block, after those
/// of its attention.
pub fn plan_dense_layer(
    attend: Vec<Op>,
    t: LayerStep,
    z: &Sizing,
    s: &Shape,
    g: &[Geom],
    p: LayerParts,
) -> (ops: Vec<Op>)
    requires
        allocated(*z, *s, g@),
        admitted(t, *z),
    ensures
        ops@ == dense_layer_ops(attend@, t, *s, p),
{
    let mut ops = attend;
    let mut residual = plan_residual(t, z, s, g, p);
    ops.append(&mut residual);
    let mut dense = plan_dense(t, z, s, g);
    ops.append(&mut dense);
    ops
}

/// Lists the launches of a layer with experts up to where their weights are
/// needed, after those of its attention.
pub fn plan_until_experts(
    attend: Vec<Op>,
    t: LayerStep,
    z: &Sizing,
    s: &Shape,
    g: &[Geom],
    p: LayerParts,
    predict: bool,
) -> (ops: Vec<Op>)
    requires
        allocated(*z, *s, g@),
        admitted(t, *z),
    ensures
        ops@ == until_experts_ops(attend@, t, *s, p, predict),
{
    let mut ops = attend;
    let mut residual = plan_residual(t, z, s, g, p);
    ops.append(&mut residual);
    let mut router = plan_router(t, s, p, predict);
    ops.append(&mut router);
    let mut shared = plan_shared(t, z, s, g, p);
    ops.append(&mut shared);
    ops
}

proof fn dense_layer_closed(
    attend: Seq<Op>,
    t: LayerStep,
    s: Shape,
    p: LayerParts,
    live: Set<Buffer>,
)
    requires
        live.contains(Buffer::Cur),
        closed(attend, live),
        filled_all(attend, live).contains(Buffer::AttnOut),
    ensures
        closed(dense_layer_ops(attend, t, s, p), live),
        filled_all(dense_layer_ops(attend, t, s, p), live).contains(Buffer::Cur),
{
    let residual = residual_ops(t, s, p);
    let first = filled_all(attend, live);
    filled_grows(attend, attend.len() as int, live);
    residual_closed(t, s, p, first);
    dense_closed(t, s, filled_all(residual, first));
    closed_concat(attend, residual, live);
    closed_concat(attend + residual, dense_ops(t, s), live);
}

/// A layer up to its experts leaves filled what they and the rest need.
pub(crate) proof fn until_experts_closed(
    attend: Seq<Op>,
    t: LayerStep,
    s: Shape,
    p: LayerParts,
    predict: bool,
    live: Set<Buffer>,
)
    requires
        live.contains(Buffer::Cur),
        closed(attend, live),
        filled_all(attend, live).contains(Buffer::AttnOut),
    ensures
        closed(until_experts_ops(attend, t, s, p, predict), live),
        ({
            let after = filled_all(until_experts_ops(attend, t, s, p, predict), live);
            &&& live.subset_of(after)
            &&& after.contains(Buffer::Normed)
            &&& after.contains(Buffer::RouterSelected)
            &&& after.contains(Buffer::RouterWeights)
            &&& after.contains(Buffer::Xq)
            &&& after.contains(Buffer::SharedOut)
            &&& after.contains(Buffer::AfterAttn)
        }),
{
    let residual = residual_ops(t, s, p);
    let router = router_ops(t, s, p, predict);
    let shared = shared_ops(t, s, p);
    let l1 = filled_all(attend, live);
    filled_grows(attend, attend.len() as int, live);
    residual_closed(t, s, p, l1);
    let l2 = filled_all(residual, l1);
    filled_grows(residual, residual.len() as int, l1);
    router_closed(t, s, p, predict, l2);
    let l3 = filled_all(router, l2);
    filled_grows(router, router.len() as int, l2);
    shared_closed(t, s, p, l3);
    filled_grows(shared, shared.len() as int, l3);
    closed_concat(attend, residual, live);
    closed_concat(attend + residual, router, live);
    closed_concat(attend + residual + router, shared, live);
}

proof fn moe_layer_closed(
    attend: Seq<Op>,
    t: LayerStep,
    s: Shape,
    p: LayerParts,
    predict: bool,
    groups: Option<u32>,
    live: Set<Buffer>,
)
    requires
        live.contains(Buffer::Cur),
        pointed(groups, live),
        closed(attend, live),
        filled_all(attend, live).contains(Buffer::AttnOut),
    ensures
        closed(moe_layer_ops(attend, t, s, p, predict, groups), live),
        filled_all(moe_layer_ops(attend, t, s, p, predict, groups), live).contains(Buffer::Cur),
{
    let until = until_experts_ops(attend, t, s, p, predict);
    let routed = routed_ops(t, s, groups);
    let combine = combine_ops(t, s, p);
    until_experts_closed(attend, t, s, p, predict, live);
    let first = filled_all(until, live);
    routed_closed(t, s, groups, first);
    filled_grows(routed, routed.len() as int, first);
    combine_closed(t, s, p, filled_all(routed, first));
    closed_concat(until, routed, live);
    closed_concat(until + routed, combine, live);
}

/// A grouped-query layer depends only on the residual stream, its own caches
/// and, with experts, the uploaded pointers: nothing else is read before the
/// layer fills it.
pub proof fn gqa_layer_is_closed(
    t: LayerStep,
    s: Shape,
    g: Option<Geom>,
    p: LayerParts,
    predict: bool,
    groups: Option<u32>,
    live: Set<Buffer>,
)
    requires
        live.contains(Buffer::Cur),
        live.contains(Buffer::Kcache(t.il)),
        live.contains(Buffer::Vcache(t.il)),
    ensures
        closed(dense_layer_ops(gqa_block_ops(t, s, g, p), t, s, p), live),
        filled_all(dense_layer_ops(gqa_block_ops(t, s, g, p), t, s, p), live).contains(
            Buffer::Cur,
        ),
        pointed(groups, live) ==> {
            let ops = moe_layer_ops(gqa_block_ops(t, s, g, p), t, s, p, predict, groups);
            closed(ops, live) && filled_all(ops, live).contains(Buffer::Cur)
        },
{
    gqa_closed(t, s, g, p, live);
    dense_layer_closed(gqa_block_ops(t, s, g, p), t, s, p, live);
    if pointed(groups, live) {
        moe_layer_closed(gqa_block_ops(t, s, g, p), t, s, p, predict, groups, live);
    }
}

/// The same of a latent attention layer, whose caches include its indexer's
/// keys; where it reuses the last selection it depends on that too.
pub proof fn mla_layer_is_closed(
    t: LayerStep,
    s: Shape,
    attn_dev: bool,
    keeps_keys: bool,
    rows: Rows,
    p: LayerParts,
    predict: bool,
    groups: Option<u32>,
    live: Set<Buffer>,
)
    requires
        live.contains(Buffer::Cur),
        live.contains(Buffer::Kcache(t.il)),
        live.contains(Buffer::Vcache(t.il)),
        live.contains(Buffer::IdxKcache(t.il)),
        rows.how == Selection::Reuse ==> live.contains(Buffer::MlaSelected),
    ensures
        ({
            let attend = mla_ops(t, s, attn_dev, keeps_keys, rows);
            let dense = dense_layer_ops(attend, t, s, p);
            let moe = moe_layer_ops(attend, t, s, p, predict, groups);
            &&& closed(dense, live) && filled_all(dense, live).contains(Buffer::Cur)
            &&& pointed(groups, live) ==> closed(moe, live) && filled_all(moe, live).contains(
                Buffer::Cur,
            )
        }),
{
    let attend = mla_ops(t, s, attn_dev, keeps_keys, rows);
    mla_closed(t, s, attn_dev, keeps_keys, rows, live);
    dense_layer_closed(attend, t, s, p, live);
    if pointed(groups, live) {
        moe_layer_closed(attend, t, s, p, predict, groups, live);
    }
}

/// The buffers that exist only where attention has a device of its own.
pub open spec fn apart(x: Buffer) -> bool {
    x == Buffer::NormedA || x == Buffer::AttnOutA
}

/// Whether two states of the buffers agree on all others.
pub open spec fn same(a: Values, b: Values) -> bool {
    forall|x: Buffer| !apart(x) ==> #[trigger] a[x] == b[x]
}

/// The same, and the copies on the other device are up to date.
spec fn linked(a: Values, b: Values, residual: bool) -> bool {
    &&& same(a, b)
    &&& b[Buffer::NormedA] == b[Buffer::Normed]
    &&& residual ==> b[Buffer::AttnOutA] == b[Buffer::Cur]
}

/// Whether launch `q` does on the other device what `p` does here.
spec fn mirrors(p: Op, q: Op, residual: bool) -> bool {
    &&& kernel(p) == kernel(q)
    &&& writes(p) == writes(q)
    &&& reads(p).len() == reads(q).len()
    &&& forall|j: int|
        0 <= j < writes(p).len() ==> {
            let w = #[trigger] writes(p)[j];
            !apart(w) && w != Buffer::Normed && w != Buffer::Cur
        }
    &&& forall|j: int|
        0 <= j < reads(p).len() ==> {
            let (r, o) = (#[trigger] reads(p)[j], reads(q)[j]);
            ||| r == o && !apart(r)
            ||| r == Buffer::Normed && o == Buffer::NormedA
            ||| residual && r == Buffer::Cur && o == Buffer::AttnOutA
        }
}

spec fn mirrors_to(f: Seq<Op>, h: Seq<Op>, n: int, residual: bool) -> bool
    decreases n,
{
    n <= 0 || (mirrors_to(f, h, n - 1, residual) && mirrors(f[n - 1], h[n - 1], residual))
}

proof fn mirror_step(p: Op, q: Op, k: Kernels, a: Values, b: Values, residual: bool)
    requires
        mirrors(p, q, residual),
        linked(a, b, residual),
    ensures
        linked(launched(p, k, a), launched(q, k, b), residual),
{
    assert forall|j: int| 0 <= j < reads(p).len() implies a[#[trigger] reads(p)[j]]
        == b[reads(q)[j]] by {
        let (r, o) = (reads(p)[j], reads(q)[j]);
        assert(a[r] == b[r] || apart(r));
    }
    same_output(p, q, 0, k, a, b);
    same_output(p, q, 1, k, a, b);
    let w = writes(p);
    let (x, y) = (launched(p, k, a), launched(q, k, b));
    if w.len() >= 1 {
        assert(!apart(w[0]) && w[0] != Buffer::Normed && w[0] != Buffer::Cur);
    }
    if w.len() >= 2 {
        assert(!apart(w[1]) && w[1] != Buffer::Normed && w[1] != Buffer::Cur);
    }
    assert forall|z: Buffer| !apart(z) implies #[trigger] x[z] == y[z] by {
        assert(a[z] == b[z]);
    }
}

proof fn mirror_list(
    f: Seq<Op>,
    h: Seq<Op>,
    n: int,
    k: Kernels,
    a: Values,
    b: Values,
    residual: bool,
)
    requires
        0 <= n,
        mirrors_to(f, h, n, residual),
        linked(a, b, residual),
    ensures
        linked(ran(f, n, k, a), ran(h, n, k, b), residual),
    decreases n,
{
    if n > 0 {
        mirror_list(f, h, n - 1, k, a, b, residual);
        mirror_step(f[n - 1], h[n - 1], k, ran(f, n - 1, k, a), ran(h, n - 1, k, b), residual);
    }
}

proof fn head_mirrors(t: LayerStep, s: Shape, k: Kernels, a: Values, b: Values)
    requires
        same(a, b),
    ensures
        linked(
            ran_all(mla_head_ops(t, s, false), k, a),
            ran_all(mla_head_ops(t, s, true), k, b),
            false,
        ),
{
    let (f, h) = (mla_head_ops(t, s, false), mla_head_ops(t, s, true));
    let (f0, h0) = (f.subrange(0, 1), h.subrange(0, 3));
    let (f1, h1) = (f.subrange(1, 8), h.subrange(3, 10));
    assert(f =~= f0 + f1 && h =~= h0 + h1);
    ran_concat(f0, f1, k, a);
    ran_concat(h0, h1, k, b);
    let (x, y) = (ran_all(f0, k, a), ran_all(h0, k, b));
    assert(linked(x, y, false)) by {
        reveal_with_fuel(ran, 4);
        assert(a[Buffer::Cur] == b[Buffer::Cur]);
        same_output(f0[0], h0[0], 0, k, a, b);
        assert forall|z: Buffer| !apart(z) implies #[trigger] x[z] == y[z] by {
            assert(a[z] == b[z]);
        }
    }
    assert(mirrors_to(f1, h1, 7, false)) by {
        reveal_with_fuel(mirrors_to, 8);
    }
    mirror_list(f1, h1, 7, k, x, y, false);
}

proof fn scores_mirror(t: LayerStep, s: Shape, topk: u32, k: Kernels, a: Values, b: Values)
    requires
        linked(a, b, false),
    ensures
        linked(
            ran_all(idx_score_ops(t, s, false, topk), k, a),
            ran_all(idx_score_ops(t, s, true, topk), k, b),
            false,
        ),
{
    let (f, h) = (idx_score_ops(t, s, false, topk), idx_score_ops(t, s, true, topk));
    let (f0, h0, hop) = (f.subrange(0, 2), h.subrange(0, 2), h.subrange(2, 3));
    let (f1, h1) = (f.subrange(2, 5), h.subrange(3, 6));
    assert(f =~= f0 + f1 && h =~= (h0 + hop) + h1);
    ran_concat(f0, f1, k, a);
    ran_concat(h0 + hop, h1, k, b);
    ran_concat(h0, hop, k, b);
    assert(mirrors_to(f0, h0, 2, false)) by {
        reveal_with_fuel(mirrors_to, 3);
    }
    mirror_list(f0, h0, 2, k, a, b, false);
    let (x, y) = (ran_all(f0, k, a), ran_all(h0, k, b));
    let z = ran_all(hop, k, y);
    assert(linked(x, z, true)) by {
        reveal_with_fuel(ran, 2);
        assert(hop[0] is Copy);
        assert forall|c: Buffer| !apart(c) implies #[trigger] x[c] == z[c] by {
            assert(x[c] == y[c]);
        }
    }
    assert(mirrors_to(f1, h1, 3, true)) by {
        reveal_with_fuel(mirrors_to, 4);
    }
    mirror_list(f1, h1, 3, k, x, z, true);
}

proof fn select_mirrors(
    t: LayerStep,
    s: Shape,
    keeps_keys: bool,
    rows: Rows,
    k: Kernels,
    a: Values,
    b: Values,
)
    requires
        linked(a, b, false),
    ensures
        linked(
            ran_all(mla_select_ops(t, s, false, keeps_keys, rows), k, a),
            ran_all(mla_select_ops(t, s, true, keeps_keys, rows), k, b),
            false,
        ),
{
    let none: Seq<Op> = Seq::empty();
    let (f0, h0) = if keeps_keys {
        (idx_key_ops(t, s, false), idx_key_ops(t, s, true))
    } else {
        (none, none)
    };
    let range = seq![Op::FillRange { visible: (t.pos0 + t.n_tok) as u32 }];
    let (f1, h1) = match rows.how {
        Selection::Range => (range, range),
        Selection::Reuse => (none, none),
        Selection::Score => (
            idx_score_ops(t, s, false, rows.count),
            idx_score_ops(t, s, true, rows.count),
        ),
    };
    ran_concat(f0, f1, k, a);
    ran_concat(h0, h1, k, b);
    let (x, y) = (ran_all(f0, k, a), ran_all(h0, k, b));
    assert(linked(x, y, false)) by {
        assert(mirrors_to(f0, h0, f0.len() as int, false)) by {
            reveal_with_fuel(mirrors_to, 3);
        }
        mirror_list(f0, h0, f0.len() as int, k, a, b, false);
    }
    match rows.how {
        Selection::Score => scores_mirror(t, s, rows.count, k, x, y),
        _ => {
            assert(mirrors_to(f1, h1, f1.len() as int, false)) by {
                reveal_with_fuel(mirrors_to, 2);
            }
            mirror_list(f1, h1, f1.len() as int, k, x, y, false);
        },
    }
}

proof fn tail_mirrors(t: LayerStep, s: Shape, n: u32, k: Kernels, a: Values, b: Values)
    requires
        linked(a, b, false),
    ensures
        same(
            ran_all(mla_tail_ops(t, s, false, n), k, a),
            ran_all(mla_tail_ops(t, s, true, n), k, b),
        ),
{
    let (f, h) = (mla_tail_ops(t, s, false, n), mla_tail_ops(t, s, true, n));
    let (f0, h0) = (f.subrange(0, 2), h.subrange(0, 2));
    let (f1, h1) = (f.subrange(2, 3), h.subrange(2, 5));
    assert(f =~= f0 + f1 && h =~= h0 + h1);
    ran_concat(f0, f1, k, a);
    ran_concat(h0, h1, k, b);
    assert(mirrors_to(f0, h0, 2, false)) by {
        reveal_with_fuel(mirrors_to, 3);
    }
    mirror_list(f0, h0, 2, k, a, b, false);
    let (x, y) = (ran_all(f0, k, a), ran_all(h0, k, b));
    assert(x[Buffer::Heads] == y[Buffer::Heads]);
    same_output(f1[0], h1[0], 0, k, x, y);
    reveal_with_fuel(ran, 4);
    let (c, d) = (ran_all(f1, k, x), ran_all(h1, k, y));
    assert forall|z: Buffer| !apart(z) implies #[trigger] c[z] == d[z] by {
        assert(x[z] == y[z]);
    }
}

/// Attention on a device of its own computes what it computes on the primary
/// one: every buffer that both have holds the same afterwards, whatever the
/// kernels compute.
pub proof fn offload_changes_nothing(
    t: LayerStep,
    s: Shape,
    keeps_keys: bool,
    rows: Rows,
    k: Kernels,
    v: Values,
)
    ensures
        same(
            ran_all(mla_ops(t, s, false, keeps_keys, rows), k, v),
            ran_all(mla_ops(t, s, true, keeps_keys, rows), k, v),
        ),
{
    let (f0, h0) = (mla_head_ops(t, s, false), mla_head_ops(t, s, true));
    let f1 = mla_select_ops(t, s, false, keeps_keys, rows);
    let h1 = mla_select_ops(t, s, true, keeps_keys, rows);
    let f2 = mla_tail_ops(t, s, false, rows.count);
    let h2 = mla_tail_ops(t, s, true, rows.count);
    ran_concat(f0 + f1, f2, k, v);
    ran_concat(f0, f1, k, v);
    ran_concat(h0 + h1, h2, k, v);
    ran_concat(h0, h1, k, v);
    head_mirrors(t, s, k, v, v);
    let (a, b) = (ran_all(f0, k, v), ran_all(h0, k, v));
    select_mirrors(t, s, keeps_keys, rows, k, a, b);
    tail_mirrors(t, s, rows.count, k, ran_all(f1, k, a), ran_all(h1, k, b));
}

} // verus!
