//! A tier's share of the routed experts: what is handed to its device, the
//! launches there, and how the result comes back.

use vstd::prelude::*;

#[allow(unused_imports)]
use crate::buffers::{bytes_in, measure, q8_bytes};
use crate::buffers::{Buffer, Sizing};
#[allow(unused_imports)]
use crate::graph::{admitted, allocated, capacity, moe_fits, row_fits, scaled};
use crate::graph::{times, LayerStep};
use crate::loader::Geom;
use crate::shape::Shape;

verus! {

/// One step of a tier's share. Where no side is said, the buffers are the
/// tier's own.
#[derive(Debug, Clone, Copy, PartialEq, Eq, Structural)]
pub enum TierOp {
    /// Copy this many values of four bytes from the primary device to the tier.
    Send { dst: Buffer, src: Buffer, n: u32 },
    /// Make the tier's device the current one.
    ToTier,
    /// Make the primary device the current one.
    ToPrimary,
    /// Write the pointers of the tier's slots.
    Pointers,
    Quantize { out: Buffer, x: Buffer, dim: u32, rows: u32 },
    MoePair,
    MoeDown,
    /// Copy this many values of four bytes from the tier to the primary device.
    Fetch { dst: Buffer, src: Buffer, n: u32 },
    /// Add values on the primary device.
    AddTo { out: Buffer, x: Buffer, n: u32 },
}

/// What a tier is handed and what it computes: the tokens and their weights,
/// both halves of each expert, and the sum.
pub open spec fn tier_ops(t: LayerStep, s: Shape) -> Seq<TierOp> {
    let picks = (t.n_tok * s.n_expert_used) as u32;
    seq![
        TierOp::Send {
            dst: Buffer::TierXin,
            src: Buffer::Normed,
            n: (t.n_tok * s.n_embd) as u32,
        },
        TierOp::Send { dst: Buffer::TierWeights, src: Buffer::RouterWeights, n: picks },
        TierOp::ToTier,
        TierOp::Pointers,
        TierOp::Quantize { out: Buffer::Xq, x: Buffer::TierXin, dim: s.n_embd, rows: t.n_tok },
        TierOp::MoePair,
        TierOp::Quantize { out: Buffer::Midq, x: Buffer::TierMid, dim: s.n_ff_exp, rows: picks },
        TierOp::MoeDown,
        TierOp::ToPrimary,
    ]
}

/// How a tier's sum is added to the others.
pub open spec fn return_ops(t: LayerStep, s: Shape) -> Seq<TierOp> {
    let n = (t.n_tok * s.n_embd) as u32;
    seq![
        TierOp::ToTier,
        TierOp::Fetch { dst: Buffer::TierRet, src: Buffer::TierOut, n },
        TierOp::ToPrimary,
        TierOp::AddTo { out: Buffer::MoeOut, x: Buffer::TierRet, n },
    ]
}

/// Bytes that a step reads or writes in each of its buffers.
pub open spec fn tier_accesses(op: TierOp, t: LayerStep, s: Shape) -> Seq<(Buffer, int)> {
    let n = t.n_tok as int;
    let picks = n * s.n_expert_used;
    match op {
        TierOp::ToTier | TierOp::ToPrimary => Seq::empty(),
        TierOp::Send { dst, src, n } => seq![(dst, n * 4), (src, n * 4)],
        TierOp::Fetch { dst, src, n } => seq![(dst, n * 4), (src, n * 4)],
        TierOp::AddTo { out, x, n } => seq![(out, n * 4), (x, n * 4)],
        TierOp::Pointers => seq![(Buffer::ExpertPtrs, picks * 24)],
        TierOp::Quantize { out, x, dim, rows } => seq![
            (out, q8_bytes(rows as int, dim as int)),
            (x, rows * dim * 4),
        ],
        TierOp::MoePair => seq![
            (Buffer::TierMid, picks * s.n_ff_exp * 4),
            (Buffer::ExpertPtrs, picks * 24),
            (Buffer::TierWeights, picks * 4),
            (Buffer::Xq, q8_bytes(n, s.n_embd as int)),
        ],
        TierOp::MoeDown => seq![
            (Buffer::TierOut, n * s.n_embd * 4),
            (Buffer::ExpertPtrs, picks * 24),
            (Buffer::Midq, q8_bytes(picks, s.n_ff_exp as int)),
        ],
    }
}

/// Whether every step of a list stays inside its buffers.
pub open spec fn tier_inside(
    ops: Seq<TierOp>,
    t: LayerStep,
    z: Sizing,
    s: Shape,
    g: Seq<Geom>,
) -> bool {
    forall|i: int, k: int|
        0 <= i < ops.len() && 0 <= k < tier_accesses(ops[i], t, s).len() ==> {
            let a = #[trigger] tier_accesses(ops[i], t, s)[k];
            0 <= a.1 <= capacity(a.0, z, s, g)
        }
}

proof fn share_fits(t: LayerStep, z: Sizing, s: Shape, g: Seq<Geom>)
    requires
        allocated(z, s, g),
        admitted(t, z),
    ensures
        tier_inside(tier_ops(t, s), t, z, s, g),
        z.tiers ==> tier_inside(return_ops(t, s), t, z, s, g),
        t.n_tok * s.n_embd <= u32::MAX,
        t.n_tok * s.n_expert_used <= u32::MAX,
{
    moe_fits(t, z, s, g);
    row_fits(t, z, s, g);
    let (n, u, f) = (t.n_tok as int, s.n_expert_used as int, s.n_ff_exp as int);
    assert(bytes_in(measure(Buffer::TierMid, z, s, g)) is Some);
    let ops = tier_ops(t, s);
    assert forall|i: int, k: int|
        0 <= i < ops.len() && 0 <= k < tier_accesses(ops[i], t, s).len() implies {
        let a = #[trigger] tier_accesses(ops[i], t, s)[k];
        0 <= a.1 <= capacity(a.0, z, s, g)
    } by {
        scaled(0, n * u, (f + 255) / 256);
        scaled(0, n, (s.n_embd + 255) / 256);
    }
}

/// Lists a tier's share of the routed experts, from the hand-over to the sum.
pub fn plan_tier(t: LayerStep, z: &Sizing, s: &Shape, g: &[Geom]) -> (ops: Vec<TierOp>)
    requires
        allocated(*z, *s, g@),
        admitted(t, *z),
    ensures
        ops@ == tier_ops(t, *s),
        tier_inside(ops@, t, *z, *s, g@),
{
    proof {
        share_fits(t, *z, *s, g@);
    }
    let row: u32 = times(t.n_tok, s.n_embd);
    let picks: u32 = times(t.n_tok, s.n_expert_used);
    let mut ops: Vec<TierOp> = Vec::new();
    ops.push(TierOp::Send { dst: Buffer::TierXin, src: Buffer::Normed, n: row });
    ops.push(TierOp::Send { dst: Buffer::TierWeights, src: Buffer::RouterWeights, n: picks });
    ops.push(TierOp::ToTier);
    ops.push(TierOp::Pointers);
    ops.push(
        TierOp::Quantize { out: Buffer::Xq, x: Buffer::TierXin, dim: s.n_embd, rows: t.n_tok },
    );
    ops.push(TierOp::MoePair);
    ops.push(
        TierOp::Quantize { out: Buffer::Midq, x: Buffer::TierMid, dim: s.n_ff_exp, rows: picks },
    );
    ops.push(TierOp::MoeDown);
    ops.push(TierOp::ToPrimary);
    assert(ops@ =~= tier_ops(t, *s));
    ops
}

/// Lists how a tier's sum is added to the others.
pub fn plan_return(t: LayerStep, z: &Sizing, s: &Shape, g: &[Geom]) -> (ops: Vec<TierOp>)
    requires
        allocated(*z, *s, g@),
        admitted(t, *z),
        z.tiers,
    ensures
        ops@ == return_ops(t, *s),
        tier_inside(ops@, t, *z, *s, g@),
{
    proof {
        share_fits(t, *z, *s, g@);
    }
    let n: u32 = times(t.n_tok, s.n_embd);
    let mut ops: Vec<TierOp> = Vec::new();
    ops.push(TierOp::ToTier);
    ops.push(TierOp::Fetch { dst: Buffer::TierRet, src: Buffer::TierOut, n });
    ops.push(TierOp::ToPrimary);
    ops.push(TierOp::AddTo { out: Buffer::MoeOut, x: Buffer::TierRet, n });
    assert(ops@ =~= return_ops(t, *s));
    ops
}

} // verus!
