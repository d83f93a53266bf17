//! Sizes of the device buffers that decoding works in.

use vstd::prelude::*;

use crate::loader::Geom;
use crate::shape::{Family, Shape};
use crate::slab_cache::SLAB_SLACK;
use crate::tiers::MoeTensors;

verus! {

/// Numbers per block of quantized activations.
pub const Q8_K_BLOCK_ELEMS: usize = 256;

/// Bytes per block of quantized activations.
pub const Q8_K_BLOCK_BYTES: usize = 292;

/// Bytes of one slot's three weight pointers.
pub const PTRS_BYTES: usize = 24;

/// Leading dense layers, and every fourth from the seventh on, run the
/// indexer themselves; the others use the last selection again.
pub open spec fn full_indexer(il: int, n_leading_dense: u32) -> bool {
    il < n_leading_dense || (il >= 6 && (il - 6) % 4 == 0)
}

/// Whether layer `il` runs the indexer itself.
pub fn uses_full_indexer(il: usize, n_leading_dense: u32) -> (r: bool)
    ensures
        r == full_indexer(il as int, n_leading_dense),
        r <==> il < n_leading_dense || (il > 5 && il % 4 == 2),
{
    il < n_leading_dense as usize || (il >= 6 && (il - 6) % 4 == 0)
}

/// A device buffer.
#[derive(Debug, Clone, Copy, PartialEq, Eq, Hash, Structural)]
pub enum Buffer {
    Tok,
    LastRow,
    Cur,
    Normed,
    Q,
    K,
    V,
    Heads,
    AttnOut,
    AfterAttn,
    GateAct,
    UpAct,
    FfnMid,
    FfnOut,
    SharedOut,
    RouterLogits,
    RouterSelected,
    RouterWeights,
    MoeMid,
    MoeOut,
    Xq,
    Midq,
    Staging,
    ExpertPtrs,
    Logits,
    PredLogits,
    PredSelected,
    PredWeights,
    QRank,
    QRankNorm,
    KvRaw,
    KvNorm,
    QkLow,
    MlaSelected,
    IdxKraw,
    IdxQ,
    IdxW,
    IdxScores,
    NormedA,
    AttnOutA,
    TierRet,
    GrpPtrs,
    GrpStarts,
    GrpPairs,
    GrpPartial,
    MtpERaw,
    MtpE,
    MtpH,
    MtpX,
    MtpHidden,
    MtpHiddenSave,
    HeadXq,
    TierXin,
    TierMid,
    TierOut,
    TierWeights,
    /// Key cache of this layer.
    Kcache(u32),
    /// Value cache of this layer.
    Vcache(u32),
    /// Indexer key cache of this layer.
    IdxKcache(u32),
}

/// What the sizes depend on besides the model's dimensions.
#[derive(Debug, Clone, Copy, PartialEq, Eq, Structural)]
pub struct Sizing {
    pub ctx: u32,
    /// Tokens per batch.
    pub mb: u32,
    /// Rows of logits per verification.
    pub spec_rows: u32,
    /// The largest expert slab.
    pub max_slab: u64,
    /// Attention has a device of its own.
    pub attn_dev: bool,
    /// There is a draft layer.
    pub mtp: bool,
    /// There are resident tiers.
    pub tiers: bool,
    /// The output head is a K-quant.
    pub head_kq: bool,
}

/// `a` or `b`, whichever is more.
pub open spec fn most(a: int, b: int) -> int {
    if a >= b {
        a
    } else {
        b
    }
}

/// Whether the model has an indexer.
pub open spec fn has_idx(s: Shape) -> bool {
    s.n_idx_topk > 0 && s.family == Family::Mla
}

/// `n` when `on`, else the one element of a buffer that is not used.
pub open spec fn only_if(on: bool, n: int) -> int {
    if on {
        n
    } else {
        1
    }
}

/// Bytes of `n` numbers quantized in full blocks.
pub open spec fn q8_size(n: int) -> int {
    n / 256 * 292
}

/// Bytes of `rows` rows of `dim` numbers, each row quantized in blocks of its
/// own, the last of which may be short of numbers.
pub open spec fn q8_bytes(rows: int, dim: int) -> int {
    rows * ((dim + 255) / 256) * 292
}

/// How much a buffer holds: a number of single-precision values, or of bytes.
pub ghost enum Measure {
    Values(int),
    Bytes(int),
}

/// How much each buffer holds. `g` is layer geometry where it differs by layer.
pub open spec fn measure(b: Buffer, z: Sizing, s: Shape, g: Seq<Geom>) -> Measure {
    let mb = z.mb as int;
    let ctx = z.ctx as int;
    let used = s.n_expert_used as int;
    let row = mb * s.n_embd;
    let ff = most(s.n_ff_dense as int, s.n_ff_exp as int);
    match b {
        Buffer::Tok => Measure::Bytes(mb * 4),
        Buffer::LastRow => Measure::Values(z.spec_rows * s.n_embd),
        Buffer::Cur | Buffer::Normed | Buffer::AttnOut | Buffer::AfterAttn | Buffer::FfnOut
            | Buffer::SharedOut | Buffer::MoeOut => Measure::Values(row),
        Buffer::Q => Measure::Values(
            mb * s.n_head * most(s.head_dim as int, s.qk_nope + s.qk_rope),
        ),
        Buffer::K | Buffer::V => Measure::Values(mb * s.n_head_kv * s.head_dim),
        Buffer::Heads => Measure::Values(mb * most(s.heads_width(), s.n_head * s.head_dim)),
        Buffer::GateAct | Buffer::UpAct | Buffer::FfnMid => Measure::Values(mb * ff),
        Buffer::RouterLogits => Measure::Values(mb * s.n_expert),
        Buffer::RouterSelected | Buffer::GrpPairs | Buffer::TierWeights => Measure::Bytes(
            mb * used * 4,
        ),
        Buffer::RouterWeights => Measure::Values(mb * used),
        Buffer::MoeMid => Measure::Values(mb * used * s.n_ff_exp),
        Buffer::Xq => Measure::Bytes(q8_size(row)),
        Buffer::Midq => Measure::Bytes(q8_size(mb * used * s.n_ff_exp)),
        Buffer::Staging => Measure::Bytes(used * 3 * z.max_slab + SLAB_SLACK),
        Buffer::ExpertPtrs => Measure::Bytes(mb * used * PTRS_BYTES),
        Buffer::Logits => Measure::Values(z.spec_rows * s.n_vocab),
        Buffer::PredLogits => Measure::Values(s.n_expert as int),
        Buffer::PredSelected => Measure::Bytes(used * 4),
        Buffer::PredWeights => Measure::Values(used),
        Buffer::QRank | Buffer::QRankNorm => Measure::Values(mb * most(s.n_lora_q as int, 1)),
        Buffer::KvRaw => Measure::Values(mb * most(s.n_kv_lora + s.qk_rope, 1)),
        Buffer::KvNorm => Measure::Values(mb * most(s.n_kv_lora as int, 1)),
        Buffer::QkLow => Measure::Values(mb * s.n_head * most(s.n_kv_lora as int, 1)),
        Buffer::MlaSelected => Measure::Bytes(mb * ctx * 4),
        Buffer::IdxKraw => Measure::Values(only_if(has_idx(s), mb * s.n_idx_dim)),
        Buffer::IdxQ => Measure::Values(only_if(has_idx(s), mb * s.n_idx_head * s.n_idx_dim)),
        Buffer::IdxW => Measure::Values(only_if(has_idx(s), mb * s.n_idx_head)),
        Buffer::IdxScores => Measure::Values(only_if(has_idx(s), mb * ctx)),
        Buffer::NormedA | Buffer::AttnOutA => Measure::Values(only_if(z.attn_dev, row)),
        Buffer::TierRet => Measure::Values(only_if(z.tiers, row)),
        Buffer::GrpPtrs => Measure::Bytes(most(s.n_expert as int, 1) * PTRS_BYTES),
        Buffer::GrpStarts => Measure::Bytes((s.n_expert + 1) * 4),
        Buffer::GrpPartial => Measure::Values(1),
        Buffer::MtpERaw | Buffer::MtpE | Buffer::MtpH => Measure::Values(only_if(z.mtp, row)),
        Buffer::MtpX => Measure::Values(only_if(z.mtp, mb * 2 * s.n_embd)),
        Buffer::MtpHidden | Buffer::MtpHiddenSave => Measure::Values(
            only_if(z.mtp, s.n_embd as int),
        ),
        Buffer::HeadXq => if z.head_kq {
            Measure::Bytes(q8_size(z.spec_rows * s.n_embd))
        } else {
            Measure::Values(1)
        },
        Buffer::TierXin | Buffer::TierOut => Measure::Bytes(row * 4),
        Buffer::TierMid => Measure::Bytes(mb * used * s.n_ff_exp * 4),
        Buffer::Kcache(il) => Measure::Bytes(
            if il < g.len() {
                g[il as int].n_head_kv * ctx * g[il as int].head_dim * 4
            } else {
                match s.family {
                    Family::Gqa => s.n_head_kv * ctx * s.head_dim * 4,
                    Family::Mla => ctx * s.n_kv_lora * 4,
                }
            },
        ),
        Buffer::Vcache(il) => Measure::Bytes(
            if il < g.len() {
                g[il as int].n_head_kv * ctx * g[il as int].head_dim * 4
            } else {
                match s.family {
                    Family::Gqa => s.n_head_kv * ctx * s.head_dim * 4,
                    Family::Mla => ctx * s.qk_rope * 4,
                }
            },
        ),
        Buffer::IdxKcache(il) => if has_idx(s) && full_indexer(il as int, s.n_leading_dense) {
            Measure::Bytes(ctx * s.n_idx_dim * 4)
        } else {
            Measure::Values(1)
        },
    }
}

/// The buffer's size in bytes. Values are counted in 32 bits and a size in
/// the machine's; `None` when either is too small.
pub open spec fn bytes_in(m: Measure) -> Option<usize> {
    match m {
        Measure::Values(n) => if n <= u32::MAX && n * 4 <= usize::MAX {
            Some((n * 4) as usize)
        } else {
            None
        },
        Measure::Bytes(n) => if n <= usize::MAX {
            Some(n as usize)
        } else {
            None
        },
    }
}

fn values(n: u128) -> (r: Option<usize>)
    ensures
        r == bytes_in(Measure::Values(n as int)),
{
    if n <= u32::MAX as u128 && n * 4 <= usize::MAX as u128 {
        Some((n * 4) as usize)
    } else {
        None
    }
}

fn bytes(n: u128) -> (r: Option<usize>)
    ensures
        r == bytes_in(Measure::Bytes(n as int)),
{
    if n <= usize::MAX as u128 {
        Some(n as usize)
    } else {
        None
    }
}

/// `a * b * c` for factors of at most 33 bits, with the bound that keeps
/// further small factors in range.
fn product(a: u64, b: u64, c: u64) -> (n: u128)
    requires
        a <= 0x1_ffff_ffff,
        b <= 0x1_ffff_ffff,
        c <= 0x1_ffff_ffff,
    ensures
        n == a * b * c,
        n <= 0x8_0000_0000_0000_0000_0000_0000,
{
    proof {
        let m: int = 0x2_0000_0000;
        assert(0 <= a * b <= m * m) by (nonlinear_arith)
            requires
                0 <= a <= m,
                0 <= b <= m,
        ;
        assert(0 <= a * b * c <= m * m * m) by (nonlinear_arith)
            requires
                0 <= a * b <= m * m,
                0 <= c <= m,
                0 <= m,
        ;
        assert(m * m * m == 0x8_0000_0000_0000_0000_0000_0000) by (nonlinear_arith)
            requires
                m == 0x2_0000_0000,
        ;
        assert(m * m == 0x4_0000_0000_0000_0000) by (nonlinear_arith)
            requires
                m == 0x2_0000_0000,
        ;
    }
    (a as u128) * (b as u128) * (c as u128)
}

fn larger(a: u64, b: u64) -> (m: u64)
    ensures
        m == most(a as int, b as int),
{
    if a >= b {
        a
    } else {
        b
    }
}

fn heads_values(z: &Sizing, s: &Shape) -> (n: u128)
    ensures
        n == z.mb * most(s.heads_width(), s.n_head * s.head_dim),
{
    let mb: u64 = z.mb as u64;
    let head: u64 = s.n_head as u64;
    let a: u128 = product(mb, head, s.head_dim as u64);
    let w: u64 = match s.family {
        Family::Gqa => s.head_dim as u64,
        Family::Mla => s.value_mla as u64,
    };
    let b: u128 = product(mb, head, w);
    proof {
        let (m, p, q) = (z.mb as int, s.heads_width(), s.n_head * s.head_dim);
        assert(m * p == mb * head * w) by (nonlinear_arith)
            requires
                m == mb,
                p == head * w,
        ;
        assert(m * q == mb * head * s.head_dim) by (nonlinear_arith)
            requires
                m == mb,
                q == head * s.head_dim,
        ;
        assert(p >= q ==> m * p >= m * q) by (nonlinear_arith)
            requires
                m >= 0,
        ;
        assert(p <= q ==> m * p <= m * q) by (nonlinear_arith)
            requires
                m >= 0,
        ;
    }
    if a >= b {
        a
    } else {
        b
    }
}

/// Works out a buffer's size in bytes.
pub fn buffer_bytes(b: Buffer, z: &Sizing, s: &Shape, g: &[Geom]) -> (r: Option<usize>)
    ensures
        r == bytes_in(measure(b, *z, *s, g@)),
{
    let mb: u64 = z.mb as u64;
    let ctx: u64 = z.ctx as u64;
    let used: u64 = s.n_expert_used as u64;
    let embd: u64 = s.n_embd as u64;
    let rows: u64 = z.spec_rows as u64;
    let idx: bool = s.n_idx_topk > 0 && s.family == Family::Mla;
    match b {
        Buffer::Tok => bytes(product(mb, 4, 1)),
        Buffer::LastRow => values(product(rows, embd, 1)),
        Buffer::Cur | Buffer::Normed | Buffer::AttnOut | Buffer::AfterAttn | Buffer::FfnOut
            | Buffer::SharedOut | Buffer::MoeOut => values(product(mb, embd, 1)),
        Buffer::Q => values(
            product(
                mb,
                s.n_head as u64,
                larger(s.head_dim as u64, s.qk_nope as u64 + s.qk_rope as u64),
            ),
        ),
        Buffer::K | Buffer::V => values(product(mb, s.n_head_kv as u64, s.head_dim as u64)),
        Buffer::Heads => values(heads_values(z, s)),
        Buffer::GateAct | Buffer::UpAct | Buffer::FfnMid => values(
            product(mb, larger(s.n_ff_dense as u64, s.n_ff_exp as u64), 1),
        ),
        Buffer::RouterLogits => values(product(mb, s.n_expert as u64, 1)),
        Buffer::RouterSelected | Buffer::GrpPairs | Buffer::TierWeights => bytes(
            product(mb, used, 4),
        ),
        Buffer::RouterWeights => values(product(mb, used, 1)),
        Buffer::MoeMid => values(product(mb, used, s.n_ff_exp as u64)),
        Buffer::Xq => bytes(product(mb, embd, 1) / 256 * 292),
        Buffer::Midq => bytes(product(mb, used, s.n_ff_exp as u64) / 256 * 292),
        Buffer::Staging => {
            let k: u64 = used * 3;
            proof {
                let w = z.max_slab as int;
                assert(0 <= k * w <= 0x3_0000_0000 * 0x1_0000_0000_0000_0000) by (nonlinear_arith)
                    requires
                        0 <= k <= 0x3_0000_0000,
                        0 <= w <= 0x1_0000_0000_0000_0000,
                ;
            }
            bytes(k as u128 * z.max_slab as u128 + SLAB_SLACK as u128)
        },
        Buffer::ExpertPtrs => bytes(product(mb, used, 24)),
        Buffer::Logits => values(product(rows, s.n_vocab as u64, 1)),
        Buffer::PredLogits => values(s.n_expert as u128),
        Buffer::PredSelected => bytes(product(used, 4, 1)),
        Buffer::PredWeights => values(used as u128),
        Buffer::QRank | Buffer::QRankNorm => values(product(mb, larger(s.n_lora_q as u64, 1), 1)),
        Buffer::KvRaw => values(
            product(mb, larger(s.n_kv_lora as u64 + s.qk_rope as u64, 1), 1),
        ),
        Buffer::KvNorm => values(product(mb, larger(s.n_kv_lora as u64, 1), 1)),
        Buffer::QkLow => values(product(mb, s.n_head as u64, larger(s.n_kv_lora as u64, 1))),
        Buffer::MlaSelected => bytes(product(mb, ctx, 4)),
        Buffer::IdxKraw => values(
            if idx {
                product(mb, s.n_idx_dim as u64, 1)
            } else {
                1
            },
        ),
        Buffer::IdxQ => values(
            if idx {
                product(mb, s.n_idx_head as u64, s.n_idx_dim as u64)
            } else {
                1
            },
        ),
        Buffer::IdxW => values(
            if idx {
                product(mb, s.n_idx_head as u64, 1)
            } else {
                1
            },
        ),
        Buffer::IdxScores => values(
            if idx {
                product(mb, ctx, 1)
            } else {
                1
            },
        ),
        Buffer::NormedA | Buffer::AttnOutA => values(
            if z.attn_dev {
                product(mb, embd, 1)
            } else {
                1
            },
        ),
        Buffer::TierRet => values(
            if z.tiers {
                product(mb, embd, 1)
            } else {
                1
            },
        ),
        Buffer::GrpPtrs => bytes(product(larger(s.n_expert as u64, 1), 24, 1)),
        Buffer::GrpStarts => bytes(product(s.n_expert as u64 + 1, 4, 1)),
        Buffer::GrpPartial => values(1),
        Buffer::MtpERaw | Buffer::MtpE | Buffer::MtpH => values(
            if z.mtp {
                product(mb, embd, 1)
            } else {
                1
            },
        ),
        Buffer::MtpX => values(
            if z.mtp {
                product(mb, 2, embd)
            } else {
                1
            },
        ),
        Buffer::MtpHidden | Buffer::MtpHiddenSave => values(
            if z.mtp {
                embd as u128
            } else {
                1
            },
        ),
        Buffer::HeadXq => if z.head_kq {
            bytes(product(rows, embd, 1) / 256 * 292)
        } else {
            values(1)
        },
        Buffer::TierXin | Buffer::TierOut => bytes(product(mb, embd, 4)),
        Buffer::TierMid => bytes(product(mb, used, s.n_ff_exp as u64) * 4),
        Buffer::Kcache(il) => if (il as usize) < g.len() {
            let x: Geom = g[il as usize];
            bytes(product(x.n_head_kv as u64, ctx, x.head_dim as u64) * 4)
        } else {
            match s.family {
                Family::Gqa => bytes(product(s.n_head_kv as u64, ctx, s.head_dim as u64) * 4),
                Family::Mla => bytes(product(ctx, s.n_kv_lora as u64, 4)),
            }
        },
        Buffer::Vcache(il) => if (il as usize) < g.len() {
            let x: Geom = g[il as usize];
            bytes(product(x.n_head_kv as u64, ctx, x.head_dim as u64) * 4)
        } else {
            match s.family {
                Family::Gqa => bytes(product(s.n_head_kv as u64, ctx, s.head_dim as u64) * 4),
                Family::Mla => bytes(product(ctx, s.qk_rope as u64, 4)),
            }
        },
        Buffer::IdxKcache(il) => if idx && uses_full_indexer(il as usize, s.n_leading_dense) {
            bytes(product(ctx, s.n_idx_dim as u64, 4))
        } else {
            values(1)
        },
    }
}

/// The largest slab of the first `n` layers.
pub open spec fn largest_slab(layers: Seq<MoeTensors>, n: int) -> u64
    decreases n,
{
    if n <= 0 {
        0
    } else {
        let l = layers[n - 1];
        most(
            largest_slab(layers, n - 1) as int,
            most(
                most(l.gate.expert_bytes as int, l.up.expert_bytes as int),
                l.down.expert_bytes as int,
            ),
        ) as u64
    }
}

/// Finds the largest expert slab of all layers that stream experts, so that a
/// cache slot of that size holds any of them.
pub fn max_slab(layers: &[MoeTensors]) -> (m: u64)
    ensures
        m == largest_slab(layers@, layers@.len() as int),
        forall|i: int|
            0 <= i < layers@.len() ==> {
                let l = #[trigger] layers@[i];
                l.gate.expert_bytes <= m && l.up.expert_bytes <= m && l.down.expert_bytes <= m
            },
{
    let mut m: u64 = 0;
    let mut i: usize = 0;
    while i < layers.len()
        invariant
            i <= layers@.len(),
            m == largest_slab(layers@, i as int),
            forall|k: int|
                0 <= k < i ==> {
                    let l = #[trigger] layers@[k];
                    l.gate.expert_bytes <= m && l.up.expert_bytes <= m && l.down.expert_bytes <= m
                },
        decreases layers@.len() - i,
    {
        let l: MoeTensors = layers[i];
        m = larger(m, larger(larger(l.gate.expert_bytes, l.up.expert_bytes), l.down.expert_bytes));
        i += 1;
    }
    m
}

/// Bytes that the quantizing kernels fill in a buffer at most: whole blocks for
/// each of its rows. Zero for a buffer that they do not write.
pub open spec fn block_bytes(b: Buffer, z: Sizing, s: Shape) -> int {
    match b {
        Buffer::Xq => q8_bytes(z.mb as int, s.n_embd as int),
        Buffer::Midq => q8_bytes(z.mb * s.n_expert_used, s.n_ff_exp as int),
        Buffer::HeadXq => if z.head_kq {
            q8_bytes(z.spec_rows as int, s.n_embd as int)
        } else {
            0
        },
        _ => 0,
    }
}

/// Bytes to set aside for a buffer: its size, or more where rows do not fill
/// their last block and the kernels fill it up.
pub open spec fn room(b: Buffer, z: Sizing, s: Shape, g: Seq<Geom>) -> int {
    most(
        match measure(b, z, s, g) {
            Measure::Values(n) => n * 4,
            Measure::Bytes(n) => n,
        },
        block_bytes(b, z, s),
    )
}

/// Works out how many bytes to set aside for a buffer.
pub fn buffer_room(b: Buffer, z: &Sizing, s: &Shape, g: &[Geom]) -> (r: Option<usize>)
    ensures
        r == (if bytes_in(measure(b, *z, *s, g@)) is Some && room(b, *z, *s, g@) <= usize::MAX {
            Some(room(b, *z, *s, g@) as usize)
        } else {
            None
        }),
{
    let blocks: u128 = match b {
        Buffer::Xq => product(z.mb as u64, (s.n_embd as u64 + 255) / 256, 1) * 292,
        Buffer::Midq => product(
            z.mb as u64,
            s.n_expert_used as u64,
            (s.n_ff_exp as u64 + 255) / 256,
        ) * 292,
        Buffer::HeadXq => if z.head_kq {
            product(z.spec_rows as u64, (s.n_embd as u64 + 255) / 256, 1) * 292
        } else {
            0
        },
        _ => 0,
    };
    assert(blocks == block_bytes(b, *z, *s));
    match buffer_bytes(b, z, s, g) {
        Some(own) => if blocks <= own as u128 {
            Some(own)
        } else if blocks <= usize::MAX as u128 {
            Some(blocks as usize)
        } else {
            None
        },
        None => None,
    }
}

/// Bytes of the partial sums of `n_tok` tokens that were gathered by expert: a
/// row for each pick. `None` when they exceed the address space.
pub fn partial_bytes(n_tok: u32, s: &Shape) -> (r: Option<usize>)
    ensures
        r == bytes_in(Measure::Values(n_tok * s.n_expert_used * s.n_embd)),
{
    values(product(n_tok as u64, s.n_expert_used as u64, s.n_embd as u64))
}

/// A decode step never outgrows the staging arena: three slabs for each of the
/// experts it uses, and the slack behind them.
pub proof fn staging_covers_decode(z: Sizing, s: Shape, g: Seq<Geom>, wants: nat, slab: nat)
    requires
        wants <= 3 * s.n_expert_used,
        slab <= z.max_slab,
        bytes_in(measure(Buffer::Staging, z, s, g)) is Some,
    ensures
        wants * slab + SLAB_SLACK <= bytes_in(measure(Buffer::Staging, z, s, g))->0,
{
    let (w, k, a, m) = (wants as int, s.n_expert_used * 3, slab as int, z.max_slab as int);
    assert(w * a <= k * m) by (nonlinear_arith)
        requires
            0 <= w <= k,
            0 <= a <= m,
    ;
}

/// A batch within the limit never outgrows the residual stream's buffer.
pub proof fn rows_cover_batch(z: Sizing, s: Shape, g: Seq<Geom>, n_tok: nat)
    requires
        n_tok <= z.mb,
        bytes_in(measure(Buffer::Cur, z, s, g)) is Some,
    ensures
        n_tok * s.n_embd * 4 <= bytes_in(measure(Buffer::Cur, z, s, g))->0,
{
    let (n, m, e) = (n_tok as int, z.mb as int, s.n_embd as int);
    assert(n * e <= m * e) by (nonlinear_arith)
        requires
            n <= m,
            0 <= e,
    ;
}

} // verus!
