//! What a layer computes whose experts are spread over devices: every active
//! tier's share, run on that tier's own experts and the same input, is added to
//! the primary's.

use vstd::prelude::*;

#[allow(unused_imports)]
use crate::buffers::Buffer;
#[allow(unused_imports)]
use crate::dataflow::{
    kernel, output, ran, ran_all, reads, until_experts_ops, writes, Kernels, Values,
};
#[allow(unused_imports)]
use crate::flow::Touches;
#[allow(unused_imports)]
use crate::graph::{combine_ops, routed_ops, LayerParts, LayerStep, Op, Weight};
#[allow(unused_imports)]
use crate::loader::Role;
#[allow(unused_imports)]
use crate::shape::Shape;
#[allow(unused_imports)]
use crate::tier_graph::{return_ops, tier_ops, TierOp};
#[allow(unused_imports)]
use crate::tiered::{expert_ops, here, on_tier, shares, sums, tiered_layer_ops, LayerOp, Place};
#[allow(unused_imports)]
use crate::values::{
    behind_attention, combined, expert_input, expert_view, experts_are_combined, normed, routed,
    routed_experts_compute, routing, shared, until_experts_computes,
};

verus! {

/// What the buffers of all devices hold.
pub type Places = Map<Place, int>;

/// What kernels compute on whichever device.
pub type TierKernels = spec_fn(LayerOp, int, Seq<int>) -> int;

/// A step without the names of its buffers. Which tier runs it makes no
/// difference, but for the pointers that the tier writes.
pub open spec fn bare(op: LayerOp) -> LayerOp {
    let b = Buffer::Tok;
    match op {
        LayerOp::Here(op) => LayerOp::Here(kernel(op)),
        LayerOp::Tier(i, op) => match op {
            TierOp::Pointers => LayerOp::Tier(i, op),
            TierOp::Quantize { out, x, dim, rows } => LayerOp::Tier(
                0,
                TierOp::Quantize { out: b, x: b, dim, rows },
            ),
            TierOp::AddTo { out, x, n } => LayerOp::Tier(0, TierOp::AddTo { out: b, x: b, n }),
            other => LayerOp::Tier(0, other),
        },
    }
}

/// Whether a step only copies.
pub open spec fn copies(op: LayerOp) -> bool {
    match op {
        LayerOp::Here(op) => op is Copy,
        LayerOp::Tier(_, op) => op is Send || op is Fetch,
    }
}

/// The value of a step's `i`-th output: a copy is what was copied, anything else
/// what the kernel makes of what it reads.
pub open spec fn yields(op: LayerOp, i: int, k: TierKernels, v: Places) -> int {
    if copies(op) {
        v[op.reads_of()[0]]
    } else {
        k(bare(op), i, op.reads_of().map_values(|b: Place| v[b]))
    }
}

/// The buffers after a step.
pub open spec fn after(op: LayerOp, k: TierKernels, v: Places) -> Places {
    let w = op.fills_of();
    if w.len() == 0 {
        v
    } else if w.len() == 1 {
        v.insert(w[0], yields(op, 0, k, v))
    } else {
        v.insert(w[0], yields(op, 0, k, v)).insert(w[1], yields(op, 1, k, v))
    }
}

/// The buffers after the first `n` steps of a list.
pub open spec fn after_first(ops: Seq<LayerOp>, n: int, k: TierKernels, v: Places) -> Places
    decreases n,
{
    if n <= 0 {
        v
    } else {
        after(ops[n - 1], k, after_first(ops, n - 1, k, v))
    }
}

/// The buffers after a whole list of steps.
pub open spec fn after_all(ops: Seq<LayerOp>, k: TierKernels, v: Places) -> Places {
    after_first(ops, ops.len() as int, k, v)
}

proof fn after_prefix(a: Seq<LayerOp>, b: Seq<LayerOp>, n: int, k: TierKernels, v: Places)
    requires
        0 <= n <= a.len(),
    ensures
        after_first(a + b, n, k, v) == after_first(a, n, k, v),
    decreases n,
{
    if n > 0 {
        after_prefix(a, b, n - 1, k, v);
        assert((a + b)[n - 1] == a[n - 1]);
    }
}

proof fn after_suffix(a: Seq<LayerOp>, b: Seq<LayerOp>, m: int, k: TierKernels, v: Places)
    requires
        0 <= m <= b.len(),
    ensures
        after_first(a + b, a.len() + m, k, v) == after_first(b, m, k, after_all(a, k, v)),
    decreases m,
{
    if m > 0 {
        after_suffix(a, b, m - 1, k, v);
        assert((a + b)[a.len() + m - 1] == b[m - 1]);
    } else {
        after_prefix(a, b, a.len() as int, k, v);
    }
}

proof fn after_concat(a: Seq<LayerOp>, b: Seq<LayerOp>, k: TierKernels, v: Places)
    ensures
        after_all(a + b, k, v) == after_all(b, k, after_all(a, k, v)),
{
    after_suffix(a, b, b.len() as int, k, v);
}

proof fn step_gives(ops: Seq<LayerOp>, n: int, k: TierKernels, v: Places, xs: Seq<int>)
    requires
        0 <= n < ops.len(),
        xs.len() == ops[n].reads_of().len(),
        forall|j: int|
            0 <= j < xs.len() ==> #[trigger] xs[j] == after_first(ops, n, k, v)[ops[n].reads_of()[j]],
        ops[n].fills_of().len() <= 1,
        copies(ops[n]) ==> xs.len() == 1,
    ensures
        ({
            let e = after_first(ops, n, k, v);
            let w = ops[n].fills_of();
            &&& after_first(ops, 0, k, v) == v
            &&& after_first(ops, n + 1, k, v) == (if w.len() == 0 {
                e
            } else if copies(ops[n]) {
                e.insert(w[0], xs[0])
            } else {
                e.insert(w[0], k(bare(ops[n]), 0, xs))
            })
        }),
{
    let e = after_first(ops, n, k, v);
    assert(ops[n].reads_of().map_values(|b: Place| e[b]) =~= xs);
    if copies(ops[n]) {
        assert(xs[0] == e[ops[n].reads_of()[0]]);
    }
}

/// The kernels of the layer's own devices.
pub open spec fn home(k: TierKernels) -> Kernels {
    |op: Op, i: int, xs: Seq<int>| k(LayerOp::Here(op), i, xs)
}

/// Whether `w` is what the layer's own devices hold.
pub open spec fn shows(v: Places, w: Values) -> bool {
    forall|b: Buffer| #[trigger] w[b] == v[Place::Here(b)]
}

/// Launches on the layer's own devices do there what they do without tiers, and
/// nothing on the tiers.
proof fn here_runs(ops: Seq<Op>, n: int, k: TierKernels, v: Places, w: Values)
    requires
        0 <= n <= ops.len(),
        shows(v, w),
    ensures
        shows(after_first(here(ops), n, k, v), ran(ops, n, home(k), w)),
        forall|i: usize, b: Buffer|
            #[trigger] after_first(here(ops), n, k, v)[Place::Tier(i, b)] == v[Place::Tier(i, b)],
    decreases n,
{
    if n > 0 {
        here_runs(ops, n - 1, k, v, w);
        let op = ops[n - 1];
        let e = after_first(here(ops), n - 1, k, v);
        let f = ran(ops, n - 1, home(k), w);
        assert(here(ops)[n - 1] == LayerOp::Here(op));
        let r = LayerOp::Here(op).reads_of();
        let (g1, g2) = (
            r.map_values(|b: Place| e[b]),
            reads(op).map_values(|b: Buffer| f[b]),
        );
        assert(g1 =~= g2) by {
            assert forall|j: int| 0 <= j < r.len() implies #[trigger] g1[j] == g2[j] by {
                assert(r[j] == Place::Here(reads(op)[j]));
                assert(f[reads(op)[j]] == e[Place::Here(reads(op)[j])]);
            }
        }
        if op is Copy {
            assert(r[0] == Place::Here(reads(op)[0]));
            assert(f[reads(op)[0]] == e[Place::Here(reads(op)[0])]);
        }
        let x = LayerOp::Here(op).fills_of();
        assert(x.len() == writes(op).len());
        let e2 = after_first(here(ops), n, k, v);
        let f2 = ran(ops, n, home(k), w);
        assert forall|b: Buffer| #[trigger] f2[b] == e2[Place::Here(b)] by {
            assert(f[b] == e[Place::Here(b)]);
            if x.len() >= 1 {
                assert(x[0] == Place::Here(writes(op)[0]));
            }
            if x.len() >= 2 {
                assert(x[1] == Place::Here(writes(op)[1]));
            }
        }
        assert forall|i: usize, b: Buffer| #[trigger] e2[Place::Tier(i, b)] == v[Place::Tier(
            i,
            b,
        )] by {
            assert(e[Place::Tier(i, b)] == v[Place::Tier(i, b)]);
            if x.len() >= 1 {
                assert(x[0] == Place::Here(writes(op)[0]));
            }
            if x.len() >= 2 {
                assert(x[1] == Place::Here(writes(op)[1]));
            }
        }
    }
}

/// What tier `i` computes of its share: its experts' weighted sum, by its own
/// pointers, from the router's weights and the normed stream.
pub open spec fn tier_share(
    i: usize,
    t: LayerStep,
    s: Shape,
    k: TierKernels,
    weights: int,
    x: int,
) -> int {
    let b = Buffer::Tok;
    let ptrs = k(LayerOp::Tier(i, TierOp::Pointers), 0, Seq::empty());
    let input = k(
        LayerOp::Tier(0, TierOp::Quantize { out: b, x: b, dim: s.n_embd, rows: t.n_tok }),
        0,
        seq![x],
    );
    let mid = k(LayerOp::Tier(0, TierOp::MoePair), 0, seq![ptrs, weights, input]);
    let quantized = k(
        LayerOp::Tier(
            0,
            TierOp::Quantize {
                out: b,
                x: b,
                dim: s.n_ff_exp,
                rows: (t.n_tok * s.n_expert_used) as u32,
            },
        ),
        0,
        seq![mid],
    );
    k(LayerOp::Tier(0, TierOp::MoeDown), 0, seq![ptrs, quantized])
}

#[verifier::rlimit(60)]
proof fn share_computes(i: usize, t: LayerStep, s: Shape, k: TierKernels, v: Places)
    ensures
        ({
            let e = after_all(on_tier(i, tier_ops(t, s)), k, v);
            &&& e[Place::Tier(i, Buffer::TierOut)] == tier_share(
                i,
                t,
                s,
                k,
                v[Place::Here(Buffer::RouterWeights)],
                v[Place::Here(Buffer::Normed)],
            )
            &&& forall|b: Buffer| #[trigger] e[Place::Here(b)] == v[Place::Here(b)]
            &&& forall|j: usize, b: Buffer|
                j != i ==> #[trigger] e[Place::Tier(j, b)] == v[Place::Tier(j, b)]
        }),
{
    let ops = on_tier(i, tier_ops(t, s));
    assert(ops.len() == 9);
    let p = |b: Buffer| Place::Tier(i, b);
    step_gives(ops, 0, k, v, seq![v[Place::Here(Buffer::Normed)]]);
    let e1 = after_first(ops, 1, k, v);
    step_gives(ops, 1, k, v, seq![e1[Place::Here(Buffer::RouterWeights)]]);
    let e2 = after_first(ops, 2, k, v);
    step_gives(ops, 2, k, v, Seq::empty());
    let e3 = after_first(ops, 3, k, v);
    step_gives(ops, 3, k, v, Seq::empty());
    let e4 = after_first(ops, 4, k, v);
    step_gives(ops, 4, k, v, seq![e4[p(Buffer::TierXin)]]);
    let e5 = after_first(ops, 5, k, v);
    step_gives(
        ops,
        5,
        k,
        v,
        seq![e5[p(Buffer::ExpertPtrs)], e5[p(Buffer::TierWeights)], e5[p(Buffer::Xq)]],
    );
    let e6 = after_first(ops, 6, k, v);
    step_gives(ops, 6, k, v, seq![e6[p(Buffer::TierMid)]]);
    let e7 = after_first(ops, 7, k, v);
    step_gives(ops, 7, k, v, seq![e7[p(Buffer::ExpertPtrs)], e7[p(Buffer::Midq)]]);
    let e8 = after_first(ops, 8, k, v);
    step_gives(ops, 8, k, v, Seq::empty());
}

/// The primary's sum and those of the first `n` active tiers.
pub open spec fn added_up(
    active: Seq<usize>,
    n: int,
    t: LayerStep,
    s: Shape,
    k: TierKernels,
    own: int,
    weights: int,
    x: int,
) -> int
    decreases n,
{
    if n <= 0 {
        own
    } else {
        k(
            LayerOp::Tier(
                0,
                TierOp::AddTo {
                    out: Buffer::Tok,
                    x: Buffer::Tok,
                    n: (t.n_tok * s.n_embd) as u32,
                },
            ),
            0,
            seq![
                added_up(active, n - 1, t, s, k, own, weights, x),
                tier_share(active[n - 1], t, s, k, weights, x),
            ],
        )
    }
}

proof fn shares_compute(
    active: Seq<usize>,
    n: int,
    t: LayerStep,
    s: Shape,
    k: TierKernels,
    v: Places,
)
    requires
        0 <= n <= active.len(),
    ensures
        ({
            let e = after_all(shares(active, n, t, s), k, v);
            &&& forall|b: Buffer| #[trigger] e[Place::Here(b)] == v[Place::Here(b)]
            &&& forall|j: int|
                0 <= j < n ==> e[Place::Tier(#[trigger] active[j], Buffer::TierOut)] == tier_share(
                    active[j],
                    t,
                    s,
                    k,
                    v[Place::Here(Buffer::RouterWeights)],
                    v[Place::Here(Buffer::Normed)],
                )
        }),
    decreases n,
{
    if n > 0 {
        shares_compute(active, n - 1, t, s, k, v);
        let a = shares(active, n - 1, t, s);
        let b = on_tier(active[n - 1], tier_ops(t, s));
        after_concat(a, b, k, v);
        let mid = after_all(a, k, v);
        share_computes(active[n - 1], t, s, k, mid);
        let e = after_all(b, k, mid);
        assert(mid[Place::Here(Buffer::RouterWeights)] == v[Place::Here(Buffer::RouterWeights)]);
        assert(mid[Place::Here(Buffer::Normed)] == v[Place::Here(Buffer::Normed)]);
        assert forall|c: Buffer| #[trigger] e[Place::Here(c)] == v[Place::Here(c)] by {
            assert(mid[Place::Here(c)] == v[Place::Here(c)]);
        }
        assert forall|j: int| 0 <= j < n implies e[Place::Tier(
            #[trigger] active[j],
            Buffer::TierOut,
        )] == tier_share(
            active[j],
            t,
            s,
            k,
            v[Place::Here(Buffer::RouterWeights)],
            v[Place::Here(Buffer::Normed)],
        ) by {
            if active[j] != active[n - 1] {
                assert(e[Place::Tier(active[j], Buffer::TierOut)] == mid[Place::Tier(
                    active[j],
                    Buffer::TierOut,
                )]);
            }
        }
    }
}

proof fn sum_computes(i: usize, t: LayerStep, s: Shape, k: TierKernels, v: Places)
    ensures
        ({
            let e = after_all(on_tier(i, return_ops(t, s)), k, v);
            &&& e[Place::Here(Buffer::MoeOut)] == k(
                LayerOp::Tier(
                    0,
                    TierOp::AddTo {
                        out: Buffer::Tok,
                        x: Buffer::Tok,
                        n: (t.n_tok * s.n_embd) as u32,
                    },
                ),
                0,
                seq![v[Place::Here(Buffer::MoeOut)], v[Place::Tier(i, Buffer::TierOut)]],
            )
            &&& forall|b: Buffer|
                b != Buffer::MoeOut && b != Buffer::TierRet ==> #[trigger] e[Place::Here(b)]
                    == v[Place::Here(b)]
            &&& forall|j: usize, b: Buffer| #[trigger] e[Place::Tier(j, b)] == v[Place::Tier(j, b)]
        }),
{
    let ops = on_tier(i, return_ops(t, s));
    assert(ops.len() == 4);
    step_gives(ops, 0, k, v, Seq::empty());
    let e1 = after_first(ops, 1, k, v);
    step_gives(ops, 1, k, v, seq![e1[Place::Tier(i, Buffer::TierOut)]]);
    let e2 = after_first(ops, 2, k, v);
    step_gives(ops, 2, k, v, Seq::empty());
    let e3 = after_first(ops, 3, k, v);
    step_gives(
        ops,
        3,
        k,
        v,
        seq![e3[Place::Here(Buffer::MoeOut)], e3[Place::Here(Buffer::TierRet)]],
    );
}

proof fn sums_compute(
    active: Seq<usize>,
    n: int,
    t: LayerStep,
    s: Shape,
    k: TierKernels,
    v: Places,
    weights: int,
    x: int,
)
    requires
        0 <= n <= active.len(),
        forall|j: int|
            0 <= j < active.len() ==> v[Place::Tier(#[trigger] active[j], Buffer::TierOut)]
                == tier_share(active[j], t, s, k, weights, x),
    ensures
        ({
            let e = after_all(sums(active, n, t, s), k, v);
            &&& e[Place::Here(Buffer::MoeOut)] == added_up(
                active,
                n,
                t,
                s,
                k,
                v[Place::Here(Buffer::MoeOut)],
                weights,
                x,
            )
            &&& forall|b: Buffer|
                b != Buffer::MoeOut && b != Buffer::TierRet ==> #[trigger] e[Place::Here(b)]
                    == v[Place::Here(b)]
            &&& forall|j: usize, b: Buffer| #[trigger] e[Place::Tier(j, b)] == v[Place::Tier(j, b)]
        }),
    decreases n,
{
    if n > 0 {
        sums_compute(active, n - 1, t, s, k, v, weights, x);
        let a = sums(active, n - 1, t, s);
        let b = on_tier(active[n - 1], return_ops(t, s));
        after_concat(a, b, k, v);
        let mid = after_all(a, k, v);
        sum_computes(active[n - 1], t, s, k, mid);
        let e = after_all(b, k, mid);
        let p = Place::Tier(active[n - 1], Buffer::TierOut);
        assert(mid[p] == v[p]);
        assert forall|c: Buffer| c != Buffer::MoeOut && c != Buffer::TierRet implies
            #[trigger] e[Place::Here(c)] == v[Place::Here(c)] by {
            assert(mid[Place::Here(c)] == v[Place::Here(c)]);
        }
        assert forall|j: usize, c: Buffer| #[trigger] e[Place::Tier(j, c)] == v[Place::Tier(
            j,
            c,
        )] by {
            assert(mid[Place::Tier(j, c)] == v[Place::Tier(j, c)]);
        }
    }
}

/// The experts of a layer, wherever they are: each active tier's share is
/// computed from the same weights and the same normed stream as the primary's
/// own, all shares are added up once each, and what the shared expert gives and
/// the residual stream are added to them.
pub proof fn tiered_experts_compute(
    active: Seq<usize>,
    t: LayerStep,
    s: Shape,
    groups: Option<u32>,
    p: LayerParts,
    k: TierKernels,
    v: Places,
    w: Values,
)
    requires
        shows(v, w),
    ensures
        ({
            let e = after_all(expert_ops(active, t, s, groups, p), k, v);
            let weights = w[Buffer::RouterWeights];
            let own = routed(t, s, groups, home(k), w, weights, w[Buffer::Xq]);
            e[Place::Here(Buffer::Cur)] == combined(
                t,
                s,
                p,
                home(k),
                w[Buffer::AfterAttn],
                added_up(
                    active,
                    active.len() as int,
                    t,
                    s,
                    k,
                    own,
                    weights,
                    w[Buffer::Normed],
                ),
                w[Buffer::SharedOut],
            )
        }),
{
    let n = active.len() as int;
    let a = shares(active, n, t, s);
    let own_ops = routed_ops(t, s, groups);
    let b = here(own_ops);
    let c = sums(active, n, t, s);
    let last = combine_ops(t, s, p);
    let d = here(last);
    let (weights, x) = (w[Buffer::RouterWeights], w[Buffer::Normed]);
    after_concat((a + b) + c, d, k, v);
    after_concat(a + b, c, k, v);
    after_concat(a, b, k, v);
    assert(expert_ops(active, t, s, groups, p) =~= ((a + b) + c) + d);
    shares_compute(active, n, t, s, k, v);
    let e1 = after_all(a, k, v);
    assert(w[Buffer::RouterWeights] == v[Place::Here(Buffer::RouterWeights)]);
    assert(w[Buffer::Normed] == v[Place::Here(Buffer::Normed)]);
    assert(shows(e1, w)) by {
        assert forall|z: Buffer| #[trigger] w[z] == e1[Place::Here(z)] by {
            assert(e1[Place::Here(z)] == v[Place::Here(z)]);
        }
    }
    here_runs(own_ops, own_ops.len() as int, k, e1, w);
    let e2 = after_all(b, k, e1);
    let w2 = ran_all(own_ops, home(k), w);
    assert(b.len() == own_ops.len());
    assert(shows(e2, w2));
    routed_experts_compute(t, s, groups, home(k), w);
    assert forall|j: int| 0 <= j < active.len() implies e2[Place::Tier(
        #[trigger] active[j],
        Buffer::TierOut,
    )] == tier_share(active[j], t, s, k, weights, x) by {
        let q = Place::Tier(active[j], Buffer::TierOut);
        assert(e2[q] == e1[q]);
    }
    sums_compute(active, n, t, s, k, e2, weights, x);
    let e3 = after_all(c, k, e2);
    let w3 = w2.insert(Buffer::MoeOut, e3[Place::Here(Buffer::MoeOut)]).insert(
        Buffer::TierRet,
        e3[Place::Here(Buffer::TierRet)],
    );
    assert(shows(e3, w3)) by {
        assert forall|z: Buffer| #[trigger] w3[z] == e3[Place::Here(z)] by {
            if z != Buffer::MoeOut && z != Buffer::TierRet {
                assert(e3[Place::Here(z)] == e2[Place::Here(z)]);
                assert(w2[z] == e2[Place::Here(z)]);
            }
        }
    }
    assert(w2[Buffer::MoeOut] == e2[Place::Here(Buffer::MoeOut)]);
    here_runs(last, last.len() as int, k, e3, w3);
    assert(d.len() == last.len());
    experts_are_combined(t, s, p, home(k), w3);
    let e4 = after_all(d, k, e3);
    let w4 = ran_all(last, home(k), w3);
    assert(shows(e4, w4));
    assert(w4[Buffer::Cur] == e4[Place::Here(Buffer::Cur)]);
    assert(w3[Buffer::AfterAttn] == w2[Buffer::AfterAttn]);
    assert(w3[Buffer::SharedOut] == w2[Buffer::SharedOut]);
}

/// Whether the tier's device is current after the first `n` steps of its share,
/// which begins on the primary.
pub open spec fn at_tier(ops: Seq<TierOp>, n: int) -> bool
    decreases n,
{
    if n <= 0 {
        false
    } else {
        match ops[n - 1] {
            TierOp::ToTier => true,
            TierOp::ToPrimary => false,
            _ => at_tier(ops, n - 1),
        }
    }
}

/// A tier's share is run on the tier's device and its sum is added on the primary;
/// both end on the primary. What is handed over and what comes back is copied
/// whole: the step's rows, and a weight for each of its picks.
pub proof fn share_runs_on_its_device(t: LayerStep, s: Shape, i: int)
    requires
        0 <= t.n_tok * s.n_embd <= u32::MAX,
        0 <= t.n_tok * s.n_expert_used <= u32::MAX,
    ensures
        ({
            let (a, b) = (tier_ops(t, s), return_ops(t, s));
            &&& !at_tier(a, a.len() as int) && !at_tier(b, b.len() as int)
            &&& 0 <= i < a.len() ==> {
                &&& a[i] is Pointers || a[i] is Quantize || a[i] is MoePair || a[i] is MoeDown
                    ==> at_tier(a, i)
                &&& a[i] matches TierOp::Send { dst, src, n } ==> {
                    &&& src == Buffer::Normed ==> n == t.n_tok * s.n_embd
                    &&& src == Buffer::RouterWeights ==> n == t.n_tok * s.n_expert_used
                    &&& src == Buffer::Normed || src == Buffer::RouterWeights
                }
                &&& !(a[i] is Fetch) && !(a[i] is AddTo)
            }
            &&& 0 <= i < b.len() ==> {
                &&& b[i] is Fetch ==> at_tier(b, i)
                &&& b[i] is AddTo ==> !at_tier(b, i)
                &&& b[i] matches TierOp::Fetch { dst, src, n } ==> n == t.n_tok * s.n_embd
            }
        }),
{
    reveal_with_fuel(at_tier, 10);
    let a = tier_ops(t, s);
    if 0 <= i < a.len() {
        assert(i == 0 || i == 1 || i == 2 || i == 3 || i == 4 || i == 5 || i == 6 || i == 7 || i
            == 8);
    }
    let b = return_ops(t, s);
    if 0 <= i < b.len() {
        assert(i == 0 || i == 1 || i == 2 || i == 3);
    }
}

/// A layer whose experts are spread over tiers, whatever its attention: it computes
/// what the layer computes without tiers, but that the routed experts' sum is the
/// primary's share and every active tier's, each from the same weights and the
/// same view of the stream.
pub proof fn tiered_layer_computes(
    attend: Seq<Op>,
    active: Seq<usize>,
    t: LayerStep,
    s: Shape,
    p: LayerParts,
    predict: bool,
    groups: Option<u32>,
    k: TierKernels,
    v: Places,
    w: Values,
)
    requires
        shows(v, w),
        ran_all(attend, home(k), w)[Buffer::Cur] == w[Buffer::Cur],
    ensures
        ({
            let h = home(k);
            let e = after_all(tiered_layer_ops(attend, active, t, s, p, predict, groups), k, v);
            let a = ran_all(attend, h, w);
            let stream = behind_attention(t, s, p, h, w[Buffer::Cur], a[Buffer::AttnOut]);
            let x = normed(h, Weight::Own(Role::FfnNorm), s.n_embd, t.n_tok, stream);
            let weights = routing(t, s, p, h, stream, x, 1);
            let own = routed(t, s, groups, h, a, weights, expert_input(t, s, p, h, stream, x));
            e[Place::Here(Buffer::Cur)] == combined(
                t,
                s,
                p,
                h,
                stream,
                added_up(
                    active,
                    active.len() as int,
                    t,
                    s,
                    k,
                    own,
                    weights,
                    expert_view(t, s, p, h, stream, x),
                ),
                shared(t, s, p, h, x),
            )
        }),
{
    let until = until_experts_ops(attend, t, s, p, predict);
    let a = here(until);
    let b = expert_ops(active, t, s, groups, p);
    after_concat(a, b, k, v);
    here_runs(until, until.len() as int, k, v, w);
    let e1 = after_all(a, k, v);
    let w1 = ran_all(until, home(k), w);
    assert(a.len() == until.len());
    assert(shows(e1, w1));
    until_experts_computes(attend, t, s, p, predict, home(k), w);
    tiered_experts_compute(active, t, s, groups, p, k, e1, w1);
}

} // verus!
