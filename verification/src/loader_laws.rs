//! What loading promises: a layer gets every weight that its launches use, and is
//! said to have just what the file has.

use vstd::prelude::*;
use vstd::string::*;

#[allow(unused_imports)]
use crate::expert::{quant_of, ExpertTensor};
#[allow(unused_imports)]
use crate::gguf::{Gguf, TensorType};
#[allow(unused_imports)]
use crate::layer::{bias_of, expert_tensors, has_weight, keeps, parts_of, plain, serving, Bias};
#[allow(unused_imports)]
use crate::loader::{
    attn_steps, bytes_of, converted, ffn_steps, geom_of, has_part, head_quant, layer_steps, slides,
    stack_bytes, stacks_bytes, tensor_placements, unsigned_items, LoadMode, Role, Step,
};
#[allow(unused_imports)]
use crate::shape::Family;
verus! {

proof fn has_weight_concat(a: Seq<Step>, b: Seq<Step>, r: Role)
    ensures
        has_weight(a + b, r) <==> has_weight(a, r) || has_weight(b, r),
{
    if has_weight(a, r) {
        let i = choose|i: int| 0 <= i < a.len() && keeps(#[trigger] a[i], r);
        assert(keeps((a + b)[i], r));
    }
    if has_weight(b, r) {
        let i = choose|i: int| 0 <= i < b.len() && keeps(#[trigger] b[i], r);
        assert(keeps((a + b)[a.len() + i], r));
    }
    if has_weight(a + b, r) {
        let i = choose|i: int| 0 <= i < (a + b).len() && keeps(#[trigger] (a + b)[i], r);
        if i < a.len() {
            assert(keeps(a[i], r));
        } else {
            assert(keeps(b[i - a.len()], r));
        }
    }
}

spec fn hop(m: LoadMode) -> Seq<Step> {
    if m.attn_dev {
        seq![Step::ToAttn]
    } else {
        Seq::empty()
    }
}

spec fn back(m: LoadMode) -> Seq<Step> {
    if m.attn_dev {
        seq![Step::ToPrimary]
    } else {
        Seq::empty()
    }
}

spec fn extra(m: LoadMode) -> Seq<Step> {
    if m.gemma {
        seq![
            Step::Host(Role::GateInpScale),
            Step::HostOrDefault(Role::OutScale),
            Step::Device(Role::PostAttnNorm),
            Step::Device(Role::PreFfwNorm2),
            Step::Device(Role::PostFfwNorm1),
            Step::Device(Role::PostFfwNorm2),
            Step::Device(Role::PostFfwNorm),
        ]
    } else {
        Seq::empty()
    }
}

spec fn output() -> Seq<Step> {
    seq![Step::Large(Role::AttnOutput)]
}

spec fn norms() -> Seq<Step> {
    seq![Step::Device(Role::AttnNorm), Step::Device(Role::FfnNorm)]
}

proof fn layer_has(g: &Gguf, m: LoadMode, il: u32, r: Role)
    ensures
        has_weight(layer_steps(g, m, il), r) <==> {
            ||| has_weight(ffn_steps(g, m, il), r)
            ||| has_weight(attn_steps(g, m, il), r)
            ||| has_weight(extra(m), r)
            ||| r == Role::AttnOutput || r == Role::AttnNorm || r == Role::FfnNorm
        },
{
    let (a, b) = (ffn_steps(g, m, il), attn_steps(g, m, il));
    assert(layer_steps(g, m, il) =~= a + hop(m) + b + output() + back(m) + extra(m) + norms());
    has_weight_concat(a, hop(m), r);
    has_weight_concat(a + hop(m), b, r);
    has_weight_concat(a + hop(m) + b, output(), r);
    has_weight_concat(a + hop(m) + b + output(), back(m), r);
    has_weight_concat(a + hop(m) + b + output() + back(m), extra(m), r);
    has_weight_concat(a + hop(m) + b + output() + back(m) + extra(m), norms(), r);
    assert(!has_weight(hop(m), r));
    assert(!has_weight(back(m), r));
    assert(has_weight(output(), r) <==> r == Role::AttnOutput) by {
        assert(keeps(output()[0], Role::AttnOutput));
    }
    assert(has_weight(norms(), r) <==> r == Role::AttnNorm || r == Role::FfnNorm) by {
        assert(keeps(norms()[0], Role::AttnNorm));
        assert(keeps(norms()[1], Role::FfnNorm));
    }
}

/// Attention's weights: with grouped queries the query, key and output projection
/// and the two head norms, and the value projection exactly if the file has one;
/// with latent attention the low-rank query and key-value projections with their
/// norms and the two per-head projections, and the indexer's five exactly if the
/// model runs one and the file has it. Every layer has its two norms.
#[verifier::rlimit(30)]
pub proof fn attention_weights_are_loaded(g: &Gguf, m: LoadMode, il: u32)
    ensures
        ({
            let steps = layer_steps(g, m, il);
            let indexed = m.n_idx_topk > 0 && has_part(g, il, Role::IndexerQB);
            &&& has_weight(steps, Role::AttnNorm) && has_weight(steps, Role::FfnNorm)
            &&& has_weight(steps, Role::AttnOutput)
            &&& m.family == Family::Gqa ==> {
                &&& has_weight(steps, Role::AttnQ) && has_weight(steps, Role::AttnK)
                &&& has_weight(steps, Role::AttnQNorm) && has_weight(steps, Role::AttnKNorm)
                &&& has_weight(steps, Role::AttnV) <==> has_part(g, il, Role::AttnV)
            }
            &&& m.family == Family::Mla ==> {
                &&& has_weight(steps, Role::AttnQA) && has_weight(steps, Role::AttnQANorm)
                &&& has_weight(steps, Role::AttnQB)
                &&& has_weight(steps, Role::AttnKvA) && has_weight(steps, Role::AttnKvANorm)
                &&& has_weight(steps, Role::AttnKB) && has_weight(steps, Role::AttnVB)
                &&& has_weight(steps, Role::IndexerQB) <==> indexed
                &&& indexed ==> has_weight(steps, Role::IndexerK) && has_weight(
                    steps,
                    Role::IndexerKNorm,
                ) && has_weight(steps, Role::IndexerKNormB) && has_weight(steps, Role::IndexerProj)
            }
        }),
{
    layer_has(g, m, il, Role::AttnNorm);
    layer_has(g, m, il, Role::FfnNorm);
    layer_has(g, m, il, Role::AttnOutput);
    ffn_lacks(g, m, il);
    match m.family {
        Family::Gqa => {
            gqa_has(g, m, il);
            layer_has(g, m, il, Role::AttnQ);
            layer_has(g, m, il, Role::AttnK);
            layer_has(g, m, il, Role::AttnV);
            layer_has(g, m, il, Role::AttnQNorm);
            layer_has(g, m, il, Role::AttnKNorm);
        },
        Family::Mla => {
            mla_has(g, m, il);
            layer_has(g, m, il, Role::AttnQA);
            layer_has(g, m, il, Role::AttnQANorm);
            layer_has(g, m, il, Role::AttnQB);
            layer_has(g, m, il, Role::AttnKvA);
            layer_has(g, m, il, Role::AttnKvANorm);
            layer_has(g, m, il, Role::AttnKB);
            layer_has(g, m, il, Role::AttnVB);
            layer_has(g, m, il, Role::IndexerQB);
            layer_has(g, m, il, Role::IndexerK);
            layer_has(g, m, il, Role::IndexerKNorm);
            layer_has(g, m, il, Role::IndexerKNormB);
            layer_has(g, m, il, Role::IndexerProj);
        },
    }
}

proof fn ffn_lacks(g: &Gguf, m: LoadMode, il: u32)
    ensures
        !has_weight(ffn_steps(g, m, il), Role::AttnV),
        !has_weight(ffn_steps(g, m, il), Role::IndexerQB),
        !has_weight(extra(m), Role::AttnV),
        !has_weight(extra(m), Role::IndexerQB),
{
    let f = ffn_steps(g, m, il);
    let x = extra(m);
    assert forall|i: int| 0 <= i < f.len() implies !keeps(#[trigger] f[i], Role::AttnV) && !keeps(
        f[i],
        Role::IndexerQB,
    ) by {}
    assert forall|i: int| 0 <= i < x.len() implies !keeps(#[trigger] x[i], Role::AttnV) && !keeps(
        x[i],
        Role::IndexerQB,
    ) by {}
}

proof fn gqa_has(g: &Gguf, m: LoadMode, il: u32)
    requires
        m.family == Family::Gqa,
    ensures
        ({
            let a = attn_steps(g, m, il);
            &&& has_weight(a, Role::AttnQ) && has_weight(a, Role::AttnK)
            &&& has_weight(a, Role::AttnQNorm) && has_weight(a, Role::AttnKNorm)
            &&& has_weight(a, Role::AttnV) <==> has_part(g, il, Role::AttnV)
        }),
{
    let a = attn_steps(g, m, il);
    assert(keeps(a[0], Role::AttnQ));
    assert(keeps(a[1], Role::AttnK));
    if has_part(g, il, Role::AttnV) {
        assert(keeps(a[2], Role::AttnV));
        assert(keeps(a[3], Role::AttnQNorm));
        assert(keeps(a[4], Role::AttnKNorm));
    } else {
        assert(a.len() == 4);
        assert(keeps(a[2], Role::AttnQNorm));
        assert(keeps(a[3], Role::AttnKNorm));
        assert forall|i: int| 0 <= i < a.len() implies !keeps(#[trigger] a[i], Role::AttnV) by {}
    }
}

proof fn mla_has(g: &Gguf, m: LoadMode, il: u32)
    requires
        m.family == Family::Mla,
    ensures
        ({
            let a = attn_steps(g, m, il);
            let indexed = m.n_idx_topk > 0 && has_part(g, il, Role::IndexerQB);
            &&& has_weight(a, Role::AttnQA) && has_weight(a, Role::AttnQANorm)
            &&& has_weight(a, Role::AttnQB)
            &&& has_weight(a, Role::AttnKvA) && has_weight(a, Role::AttnKvANorm)
            &&& has_weight(a, Role::AttnKB) && has_weight(a, Role::AttnVB)
            &&& has_weight(a, Role::IndexerQB) <==> indexed
            &&& indexed ==> has_weight(a, Role::IndexerK) && has_weight(a, Role::IndexerKNorm)
                && has_weight(a, Role::IndexerKNormB) && has_weight(a, Role::IndexerProj)
        }),
{
    let a = attn_steps(g, m, il);
    assert(keeps(a[0], Role::AttnQA));
    assert(keeps(a[1], Role::AttnQANorm));
    assert(keeps(a[2], Role::AttnQB));
    assert(keeps(a[3], Role::AttnKvA));
    assert(keeps(a[4], Role::AttnKvANorm));
    assert(keeps(a[5], Role::AttnKB));
    assert(keeps(a[6], Role::AttnVB));
    if m.n_idx_topk > 0 && has_part(g, il, Role::IndexerQB) {
        assert(keeps(a[7], Role::IndexerQB));
        assert(keeps(a[8], Role::IndexerK));
        assert(keeps(a[9], Role::IndexerKNorm));
        assert(keeps(a[10], Role::IndexerKNormB));
        assert(keeps(a[11], Role::IndexerProj));
    } else {
        assert(a.len() == 7);
        assert forall|i: int| 0 <= i < a.len() implies !keeps(
            #[trigger] a[i],
            Role::IndexerQB,
        ) by {}
    }
}

/// A dense layer has the three feed-forward weights, and the Gemma layout its five
/// further norms.
pub proof fn dense_weights_are_loaded(g: &Gguf, m: LoadMode, il: u32)
    ensures
        ({
            let steps = layer_steps(g, m, il);
            &&& il < m.n_leading_dense ==> has_weight(steps, Role::FfnGate) && has_weight(
                steps,
                Role::FfnUp,
            ) && has_weight(steps, Role::FfnDown)
            &&& m.gemma ==> has_weight(steps, Role::PostAttnNorm) && has_weight(
                steps,
                Role::PreFfwNorm2,
            ) && has_weight(steps, Role::PostFfwNorm1) && has_weight(steps, Role::PostFfwNorm2)
                && has_weight(steps, Role::PostFfwNorm)
        }),
{
    let f = ffn_steps(g, m, il);
    let x = extra(m);
    layer_has(g, m, il, Role::FfnGate);
    layer_has(g, m, il, Role::FfnUp);
    layer_has(g, m, il, Role::FfnDown);
    layer_has(g, m, il, Role::PostAttnNorm);
    layer_has(g, m, il, Role::PreFfwNorm2);
    layer_has(g, m, il, Role::PostFfwNorm1);
    layer_has(g, m, il, Role::PostFfwNorm2);
    layer_has(g, m, il, Role::PostFfwNorm);
    if il < m.n_leading_dense {
        assert(keeps(f[0], Role::FfnGate));
        assert(keeps(f[1], Role::FfnUp));
        assert(keeps(f[2], Role::FfnDown));
    }
    if m.gemma {
        assert(keeps(x[2], Role::PostAttnNorm));
        assert(keeps(x[3], Role::PreFfwNorm2));
        assert(keeps(x[4], Role::PostFfwNorm1));
        assert(keeps(x[5], Role::PostFfwNorm2));
        assert(keeps(x[6], Role::PostFfwNorm));
    }
}

/// What a layer with experts is said to have is what the file has: a value
/// projection, a shared expert, or in the Gemma layout always one, and scales. Its
/// shared expert is its own three tensors, or in the Gemma layout the plain
/// feed-forward ones; its experts are one fused tensor or two; and its router's
/// bias is the tensor under its first name, else under its second, else zeros.
#[verifier::rlimit(30)]
pub proof fn parts_are_those_of_the_file(g: &Gguf, m: LoadMode, il: u32)
    requires
        il >= m.n_leading_dense,
    ensures
        ({
            let steps = layer_steps(g, m, il);
            let p = parts_of(steps, m.gemma);
            let own = has_part(g, il, Role::GateShexp);
            &&& m.family == Family::Gqa ==> (p.attn_v <==> has_part(g, il, Role::AttnV))
            &&& p.gemma == m.gemma
            &&& p.shexp <==> own || m.gemma
            &&& p.down_scale <==> has_part(g, il, Role::DownScale)
            &&& own ==> serving(steps, Role::GateShexp) == Some(Role::GateShexp) && serving(
                steps,
                Role::UpShexp,
            ) == Some(Role::UpShexp) && serving(steps, Role::DownShexp) == Some(Role::DownShexp)
            &&& !own && m.gemma ==> serving(steps, Role::GateShexp) == Some(Role::FfnGate)
                && serving(steps, Role::UpShexp) == Some(Role::FfnUp) && serving(
                steps,
                Role::DownShexp,
            ) == Some(Role::FfnDown)
            &&& expert_tensors(steps) == Some(
                if has_part(g, il, Role::GateUpExps) {
                    (Role::GateUpExps, None)
                } else {
                    (Role::GateExps, Some(Role::UpExps))
                },
            )
            &&& bias_of(steps) == Some(
                if has_part(g, il, Role::ProbsB) {
                    Bias::Tensor(Role::ProbsB)
                } else if has_part(g, il, Role::ProbsBias) {
                    Bias::Tensor(Role::ProbsBias)
                } else {
                    Bias::Zero
                },
            )
        }),
{
    attention_weights_are_loaded(g, m, il);
    ffn_has_step(g, m, il);
    ffn_has(g, m, il, Role::GateShexp);
    ffn_has(g, m, il, Role::UpShexp);
    ffn_has(g, m, il, Role::DownShexp);
    ffn_has(g, m, il, Role::FfnGate);
    ffn_has(g, m, il, Role::FfnUp);
    ffn_has(g, m, il, Role::FfnDown);
    ffn_has(g, m, il, Role::DownScale);
    ffn_has(g, m, il, Role::ProbsB);
    ffn_has(g, m, il, Role::ProbsBias);
    attn_lacks(g, m, il);
    layer_has(g, m, il, Role::GateShexp);
    layer_has(g, m, il, Role::UpShexp);
    layer_has(g, m, il, Role::DownShexp);
    layer_has(g, m, il, Role::FfnGate);
    layer_has(g, m, il, Role::FfnUp);
    layer_has(g, m, il, Role::FfnDown);
    layer_has(g, m, il, Role::DownScale);
    layer_has(g, m, il, Role::ProbsB);
    layer_has(g, m, il, Role::ProbsBias);
    contains_front(g, m, il, Step::Expert(Role::GateUpExps));
    contains_front(g, m, il, Step::Expert(Role::GateExps));
    contains_front(g, m, il, Step::Expert(Role::UpExps));
    contains_front(g, m, il, Step::Expert(Role::DownExps));
    contains_front(g, m, il, Step::ZeroBias);
}

spec fn exps_part(g: &Gguf, il: u32) -> Seq<Step> {
    if has_part(g, il, Role::GateUpExps) {
        seq![Step::Expert(Role::GateUpExps)]
    } else {
        seq![Step::Expert(Role::GateExps), Step::Expert(Role::UpExps)]
    }
}

spec fn router_part(g: &Gguf, il: u32) -> Seq<Step> {
    let bias = if has_part(g, il, Role::ProbsB) {
        Step::Device(Role::ProbsB)
    } else if has_part(g, il, Role::ProbsBias) {
        Step::Device(Role::ProbsBias)
    } else {
        Step::ZeroBias
    };
    seq![Step::Device(Role::GateInp), bias]
}

spec fn shared_part(g: &Gguf, m: LoadMode, il: u32) -> Seq<Step> {
    if has_part(g, il, Role::GateShexp) {
        seq![
            Step::Device(Role::GateShexp),
            Step::Device(Role::UpShexp),
            Step::Device(Role::DownShexp),
        ]
    } else if m.gemma {
        seq![Step::Device(Role::FfnGate), Step::Device(Role::FfnUp), Step::Device(Role::FfnDown)]
    } else {
        Seq::empty()
    }
}

spec fn down_part(g: &Gguf, il: u32) -> Seq<Step> {
    let scale = if has_part(g, il, Role::DownScale) {
        seq![Step::Device(Role::DownScale)]
    } else {
        Seq::empty()
    };
    seq![Step::Expert(Role::DownExps)] + scale
}

proof fn ffn_parts(g: &Gguf, m: LoadMode, il: u32, r: Role)
    requires
        il >= m.n_leading_dense,
    ensures
        ffn_steps(g, m, il) == exps_part(g, il) + router_part(g, il) + shared_part(g, m, il)
            + down_part(g, il),
        has_weight(ffn_steps(g, m, il), r) <==> has_weight(router_part(g, il), r) || has_weight(
            shared_part(g, m, il),
            r,
        ) || has_weight(down_part(g, il), r),
{
    let (a, b, c, d) = (
        exps_part(g, il),
        router_part(g, il),
        shared_part(g, m, il),
        down_part(g, il),
    );
    assert(ffn_steps(g, m, il) =~= a + b + c + d);
    has_weight_concat(a, b, r);
    has_weight_concat(a + b, c, r);
    has_weight_concat(a + b + c, d, r);
    assert forall|i: int| 0 <= i < a.len() implies !keeps(#[trigger] a[i], r) by {}
}

proof fn parts_have(g: &Gguf, m: LoadMode, il: u32, r: Role)
    ensures
        has_weight(router_part(g, il), r) <==> {
            ||| r == Role::GateInp
            ||| r == Role::ProbsB && has_part(g, il, Role::ProbsB)
            ||| r == Role::ProbsBias && !has_part(g, il, Role::ProbsB) && has_part(
                g,
                il,
                Role::ProbsBias,
            )
        },
        has_weight(shared_part(g, m, il), r) <==> {
            ||| (r == Role::GateShexp || r == Role::UpShexp || r == Role::DownShexp) && has_part(
                g,
                il,
                Role::GateShexp,
            )
            ||| (r == Role::FfnGate || r == Role::FfnUp || r == Role::FfnDown) && !has_part(
                g,
                il,
                Role::GateShexp,
            ) && m.gemma
        },
        has_weight(down_part(g, il), r) <==> r == Role::DownScale && has_part(
            g,
            il,
            Role::DownScale,
        ),
{
    let b = router_part(g, il);
    assert(keeps(b[0], Role::GateInp));
    assert(keeps(b[1], r) <==> b[1] == Step::Device(r));
    let c = shared_part(g, m, il);
    if has_part(g, il, Role::GateShexp) {
        assert(keeps(c[0], Role::GateShexp));
        assert(keeps(c[1], Role::UpShexp));
        assert(keeps(c[2], Role::DownShexp));
    } else if m.gemma {
        assert(keeps(c[0], Role::FfnGate));
        assert(keeps(c[1], Role::FfnUp));
        assert(keeps(c[2], Role::FfnDown));
    }
    let d = down_part(g, il);
    if has_part(g, il, Role::DownScale) {
        assert(keeps(d[1], Role::DownScale));
    }
}

proof fn ffn_has(g: &Gguf, m: LoadMode, il: u32, r: Role)
    requires
        il >= m.n_leading_dense,
    ensures
        has_weight(ffn_steps(g, m, il), r) <==> {
            ||| r == Role::GateInp
            ||| r == Role::ProbsB && has_part(g, il, Role::ProbsB)
            ||| r == Role::ProbsBias && !has_part(g, il, Role::ProbsB) && has_part(
                g,
                il,
                Role::ProbsBias,
            )
            ||| (r == Role::GateShexp || r == Role::UpShexp || r == Role::DownShexp) && has_part(
                g,
                il,
                Role::GateShexp,
            )
            ||| (r == Role::FfnGate || r == Role::FfnUp || r == Role::FfnDown) && !has_part(
                g,
                il,
                Role::GateShexp,
            ) && m.gemma
            ||| r == Role::DownScale && has_part(g, il, Role::DownScale)
        },
{
    ffn_parts(g, m, il, r);
    parts_have(g, m, il, r);
}

#[verifier::rlimit(30)]
proof fn ffn_has_step(g: &Gguf, m: LoadMode, il: u32)
    requires
        il >= m.n_leading_dense,
    ensures
        ({
            let f = ffn_steps(g, m, il);
            let fused = has_part(g, il, Role::GateUpExps);
            &&& f.contains(Step::Expert(Role::GateUpExps)) <==> fused
            &&& f.contains(Step::Expert(Role::GateExps)) <==> !fused
            &&& f.contains(Step::Expert(Role::UpExps)) <==> !fused
            &&& f.contains(Step::Expert(Role::DownExps))
            &&& f.contains(Step::ZeroBias) <==> !has_part(g, il, Role::ProbsB) && !has_part(
                g,
                il,
                Role::ProbsBias,
            )
        }),
{
    let (a, b, c, d) = (
        exps_part(g, il),
        router_part(g, il),
        shared_part(g, m, il),
        down_part(g, il),
    );
    ffn_parts(g, m, il, Role::GateInp);
    let f = ffn_steps(g, m, il);
    let e = a.len() as int;
    let k = c.len() as int;
    assert forall|i: int| 0 <= i < f.len() implies (#[trigger] f[i]) == (if i < e {
        a[i]
    } else if i < e + 2 {
        b[i - e]
    } else if i < e + 2 + k {
        c[i - e - 2]
    } else {
        d[i - e - 2 - k]
    }) by {}
    assert(f[0] == a[0]);
    if !has_part(g, il, Role::GateUpExps) {
        assert(f[1] == a[1]);
    }
    assert(f[e + 1] == b[1]);
    assert(f[e + 2 + k] == d[0]);
}

proof fn attn_lacks(g: &Gguf, m: LoadMode, il: u32)
    ensures
        ({
            let a = attn_steps(g, m, il);
            let x = extra(m);
            forall|r: Role|
                r == Role::GateShexp || r == Role::UpShexp || r == Role::DownShexp || r
                    == Role::FfnGate || r == Role::FfnUp || r == Role::FfnDown || r
                    == Role::DownScale || r == Role::ProbsB || r == Role::ProbsBias
                    ==> !#[trigger] has_weight(a, r) && !has_weight(x, r)
        }),
{
    let a = attn_steps(g, m, il);
    let x = extra(m);
    assert forall|r: Role|
        r == Role::GateShexp || r == Role::UpShexp || r == Role::DownShexp || r == Role::FfnGate
            || r == Role::FfnUp || r == Role::FfnDown || r == Role::DownScale || r == Role::ProbsB
            || r == Role::ProbsBias implies !#[trigger] has_weight(a, r) && !has_weight(x, r) by {
        assert forall|i: int| 0 <= i < a.len() implies !keeps(#[trigger] a[i], r) by {}
        assert forall|i: int| 0 <= i < x.len() implies !keeps(#[trigger] x[i], r) by {}
    }
}

proof fn contains_front(g: &Gguf, m: LoadMode, il: u32, s: Step)
    requires
        s is Expert || s is ZeroBias,
    ensures
        layer_steps(g, m, il).contains(s) <==> ffn_steps(g, m, il).contains(s),
{
    let (a, f) = (attn_steps(g, m, il), ffn_steps(g, m, il));
    let all = layer_steps(g, m, il);
    assert(all =~= f + (hop(m) + a + output() + back(m) + extra(m) + norms()));
    let rest = hop(m) + a + output() + back(m) + extra(m) + norms();
    assert forall|i: int| 0 <= i < a.len() implies #[trigger] a[i] != s by {}
    assert forall|i: int| 0 <= i < rest.len() implies #[trigger] rest[i] != s by {
        let p = hop(m).len() as int;
        if p <= i < p + a.len() {
            assert(rest[i] == a[i - p]);
        }
    }
    if f.contains(s) {
        let i = f.index_of(s);
        assert(all[i] == s);
    }
    if all.contains(s) {
        let i = all.index_of(s);
        if i < f.len() {
            assert(f[i] == s);
        } else {
            assert(rest[i - f.len()] == s);
        }
    }
}

/// A layer's geometry is what the header states for it: KV heads by layer, and for
/// a layer that slides the window, width and rotary base of the sliding ones,
/// without rotary factors; for any other the model's own, no window, and factors.
pub proof fn geometry_is_as_stated(g: &Gguf, il: int)
    requires
        0 <= il,
    ensures
        ({
            let o = geom_of(g, il);
            let full = match g.arch_unsigned("attention.key_length"@) {
                Some(v) => v as u32,
                None => 512,
            };
            let slides_here = g.arch_value("attention.sliding_window_pattern"@) matches Some(v) && (
            v.items matches Some(a) && il < a@.len() && a@[il].flag == Some(true));
            &&& slides_here ==> {
                &&& o.head_dim == (match g.arch_unsigned("attention.key_length_swa"@) {
                    Some(v) => v as u32,
                    None => full,
                })
                &&& o.theta == (match g.arch_real("rope.freq_base_swa"@) {
                    Some(x) => x,
                    None => 0x461c_4000,
                })
                &&& o.window == (match g.arch_unsigned("attention.sliding_window"@) {
                    Some(v) => v as u32,
                    None => 0,
                })
                &&& !o.factors
            }
            &&& !slides_here ==> {
                &&& o.head_dim == full
                &&& o.theta == (match g.arch_real("rope.freq_base"@) {
                    Some(x) => x,
                    None => 0x4974_2400,
                })
                &&& o.window == 0
                &&& o.factors
            }
        }),
{
}

/// KV heads by layer: item `il` of a list of numbers, or the one number for the
/// first layer, else one.
pub proof fn kv_heads_by_layer(g: &Gguf, il: int)
    requires
        0 <= il,
    ensures
        ({
            let o = geom_of(g, il);
            let v = g.arch_value("attention.head_count_kv"@);
            &&& v is None ==> o.n_head_kv == 1
            &&& v is Some && v->0.items is None ==> o.n_head_kv == (if il == 0
                && v->0.unsigned is Some {
                v->0.unsigned->0 as u32
            } else {
                1
            })
            &&& v is Some && v->0.items is Some && (forall|i: int|
                0 <= i < v->0.items->0@.len() ==> (#[trigger] v->0.items->0@[i]).unsigned is Some)
                ==> o.n_head_kv == (if il < v->0.items->0@.len() {
                v->0.items->0@[il].unsigned->0 as u32
            } else {
                1
            })
        }),
{
    let v = g.arch_value("attention.head_count_kv"@);
    if v is Some && v->0.items is Some && (forall|i: int|
        0 <= i < v->0.items->0@.len() ==> (#[trigger] v->0.items->0@[i]).unsigned is Some) {
        all_unsigned(v->0.items->0@);
    }
}

proof fn all_unsigned(items: Seq<crate::gguf::MetaValue>)
    requires
        forall|i: int| 0 <= i < items.len() ==> (#[trigger] items[i]).unsigned is Some,
    ensures
        unsigned_items(items) == Seq::new(items.len(), |i: int| items[i].unsigned->0),
    decreases items.len(),
{
    if items.len() > 0 {
        let init = items.drop_last();
        assert forall|i: int| 0 <= i < init.len() implies (#[trigger] init[i]).unsigned is Some by {
            assert(init[i] == items[i]);
        }
        all_unsigned(init);
        assert(items[items.len() - 1].unsigned is Some);
    }
    assert(unsigned_items(items) =~= Seq::new(items.len(), |i: int| items[i].unsigned->0));
}

/// Attention's need counts each of its eight tensors of a layer once, and of every
/// layer.
pub proof fn attention_need_counts_all(g: &Gguf, n: nat)
    requires
        n < u32::MAX,
    ensures
        stacks_bytes(g, 0) == 0,
        stacks_bytes(g, n + 1) == stacks_bytes(g, n) + bytes_of(g, n as u32, Role::AttnQA) + bytes_of(
            g,
            n as u32,
            Role::AttnQANorm,
        ) + bytes_of(g, n as u32, Role::AttnQB) + bytes_of(g, n as u32, Role::AttnKvA) + bytes_of(
            g,
            n as u32,
            Role::AttnKvANorm,
        ) + bytes_of(g, n as u32, Role::AttnKB) + bytes_of(g, n as u32, Role::AttnVB) + bytes_of(
            g,
            n as u32,
            Role::AttnOutput,
        ),
{
    reveal_with_fuel(stack_bytes, 9);
}

/// Slab `e` of a draft tensor lies `e` slabs behind the tensor's place in the pool.
pub proof fn draft_slabs_lie_in_order(t: ExpertTensor, at: int, n: nat, e: int)
    requires
        0 <= e < n,
        0 <= at,
        at + n * t.expert_bytes <= usize::MAX,
    ensures
        tensor_placements(t, at, n).len() == n,
        tensor_placements(t, at, n)[e].slab == t.slab(e),
        tensor_placements(t, at, n)[e].at == at + e * t.expert_bytes,
    decreases n,
{
    let w = t.expert_bytes as int;
    placements_len(t, at, n);
    placements_len(t, at, (n - 1) as nat);
    assert(0 <= e * w && e * w <= n * w && 0 <= (n - 1) * w <= n * w) by (nonlinear_arith)
        requires
            0 <= e < n,
            0 <= w,
    ;
    if e < n - 1 {
        draft_slabs_lie_in_order(t, at, (n - 1) as nat, e);
    }
}

proof fn placements_len(t: ExpertTensor, at: int, n: nat)
    ensures
        tensor_placements(t, at, n).len() == n,
    decreases n,
{
    if n > 0 {
        placements_len(t, at, (n - 1) as nat);
    }
}

/// Dense K-quants are converted on load, but for the output head; a head format
/// that has a kernel has the experts' kernel for it.
pub proof fn dense_quants_are_converted(ty: TensorType, name: Seq<char>)
    ensures
        converted(ty, name) <==> {
            &&& name != "output.weight"@
            &&& ty == TensorType::Q2K || ty == TensorType::Q3K || ty == TensorType::Q4K || ty
                == TensorType::Q5K || ty == TensorType::Q6K
        },
        head_quant(ty) matches Some(q) ==> quant_of(ty) == Some(q),
        head_quant(ty) is Some <==> (ty == TensorType::Q2K || ty == TensorType::Q3K || ty
            == TensorType::Q4K || ty == TensorType::Q5K || ty == TensorType::Q6K || ty
            == TensorType::IQ2XXS),
{
}

/// What is kept where: the large projections count against the large budget, the
/// small ones of latent attention against the small one, and norms, the indexer and
/// everything outside attention are always on the device.
pub proof fn weights_by_budget(g: &Gguf, m: LoadMode, il: u32, i: int)
    requires
        0 <= i < attn_steps(g, m, il).len(),
    ensures
        ({
            let step = attn_steps(g, m, il)[i];
            &&& step matches Step::Large(r) ==> r == Role::AttnQ || r == Role::AttnK || r
                == Role::AttnV || r == Role::AttnQB
            &&& step matches Step::Small(r) ==> r == Role::AttnQA || r == Role::AttnKvA || r
                == Role::AttnKB || r == Role::AttnVB
            &&& step matches Step::Device(r) ==> r == Role::AttnQNorm || r == Role::AttnKNorm || r
                == Role::AttnQANorm || r == Role::AttnKvANorm || r == Role::IndexerQB || r
                == Role::IndexerK || r == Role::IndexerKNorm || r == Role::IndexerKNormB || r
                == Role::IndexerProj
            &&& step is Large || step is Small || step is Device
        }),
{
}

} // verus!
