//! Loading a model: which tensors each layer needs, where they go, and which
//! device attention lives on. Reading and uploading are the caller's.

use vstd::prelude::*;
use vstd::string::*;

use crate::expert::{
    expert_quant, quant_of, ExpertTensor, QUANT_IQ2_XXS, QUANT_Q2_K, QUANT_Q3_K, QUANT_Q4_K,
    QUANT_Q5_K, QUANT_Q6_K,
};
use crate::gguf::{Gguf, TensorInfo, TensorType, MetaValue};
use crate::shape::{layer_name, layer_tensor, Family, Shape};
use crate::slab_cache::SLAB_SLACK;
use crate::store::Read;
use crate::text::same_text;
use crate::tiers::{packed, MoeTensors, Placement};

verus! {

/// A layer's tensors.
#[derive(Debug, Clone, Copy, PartialEq, Eq, Hash, Structural)]
pub enum Role {
    FfnGate,
    FfnUp,
    FfnDown,
    GateInp,
    ProbsB,
    ProbsBias,
    GateShexp,
    UpShexp,
    DownShexp,
    GateUpExps,
    GateExps,
    UpExps,
    DownExps,
    DownScale,
    AttnQ,
    AttnK,
    AttnV,
    AttnQNorm,
    AttnKNorm,
    AttnQA,
    AttnQANorm,
    AttnQB,
    AttnKvA,
    AttnKvANorm,
    AttnKB,
    AttnVB,
    IndexerQB,
    IndexerK,
    IndexerKNorm,
    IndexerKNormB,
    IndexerProj,
    AttnOutput,
    GateInpScale,
    OutScale,
    PostAttnNorm,
    PreFfwNorm2,
    PostFfwNorm1,
    PostFfwNorm2,
    PostFfwNorm,
    AttnNorm,
    FfnNorm,
}

/// A tensor's name within its layer.
pub open spec fn suffix_of(r: Role) -> Seq<char> {
    match r {
        Role::FfnGate => "ffn_gate.weight"@,
        Role::FfnUp => "ffn_up.weight"@,
        Role::FfnDown => "ffn_down.weight"@,
        Role::GateInp => "ffn_gate_inp.weight"@,
        Role::ProbsB => "exp_probs_b"@,
        Role::ProbsBias => "exp_probs_b.bias"@,
        Role::GateShexp => "ffn_gate_shexp.weight"@,
        Role::UpShexp => "ffn_up_shexp.weight"@,
        Role::DownShexp => "ffn_down_shexp.weight"@,
        Role::GateUpExps => "ffn_gate_up_exps.weight"@,
        Role::GateExps => "ffn_gate_exps.weight"@,
        Role::UpExps => "ffn_up_exps.weight"@,
        Role::DownExps => "ffn_down_exps.weight"@,
        Role::DownScale => "ffn_down_exps.scale"@,
        Role::AttnQ => "attn_q.weight"@,
        Role::AttnK => "attn_k.weight"@,
        Role::AttnV => "attn_v.weight"@,
        Role::AttnQNorm => "attn_q_norm.weight"@,
        Role::AttnKNorm => "attn_k_norm.weight"@,
        Role::AttnQA => "attn_q_a.weight"@,
        Role::AttnQANorm => "attn_q_a_norm.weight"@,
        Role::AttnQB => "attn_q_b.weight"@,
        Role::AttnKvA => "attn_kv_a_mqa.weight"@,
        Role::AttnKvANorm => "attn_kv_a_norm.weight"@,
        Role::AttnKB => "attn_k_b.weight"@,
        Role::AttnVB => "attn_v_b.weight"@,
        Role::IndexerQB => "indexer.attn_q_b.weight"@,
        Role::IndexerK => "indexer.attn_k.weight"@,
        Role::IndexerKNorm => "indexer.k_norm.weight"@,
        Role::IndexerKNormB => "indexer.k_norm.bias"@,
        Role::IndexerProj => "indexer.proj.weight"@,
        Role::AttnOutput => "attn_output.weight"@,
        Role::GateInpScale => "ffn_gate_inp.scale"@,
        Role::OutScale => "layer_output_scale.weight"@,
        Role::PostAttnNorm => "post_attention_norm.weight"@,
        Role::PreFfwNorm2 => "pre_ffw_norm_2.weight"@,
        Role::PostFfwNorm1 => "post_ffw_norm_1.weight"@,
        Role::PostFfwNorm2 => "post_ffw_norm_2.weight"@,
        Role::PostFfwNorm => "post_ffw_norm.weight"@,
        Role::AttnNorm => "attn_norm.weight"@,
        Role::FfnNorm => "ffn_norm.weight"@,
    }
}

/// A tensor's full name.
pub open spec fn name_of(il: u32, r: Role) -> Seq<char> {
    layer_tensor(il as nat, suffix_of(r))
}

/// Names a tensor of layer `il`.
pub fn tensor_name(il: u32, r: Role) -> (s: String)
    ensures
        s@ == name_of(il, r),
        s@ == "blk."@ + crate::text::decimal(il as nat) + "."@ + (match r {
            Role::FfnGate => "ffn_gate.weight"@,
            Role::FfnUp => "ffn_up.weight"@,
            Role::FfnDown => "ffn_down.weight"@,
            Role::GateInp => "ffn_gate_inp.weight"@,
            Role::ProbsB => "exp_probs_b"@,
            Role::ProbsBias => "exp_probs_b.bias"@,
            Role::GateShexp => "ffn_gate_shexp.weight"@,
            Role::UpShexp => "ffn_up_shexp.weight"@,
            Role::DownShexp => "ffn_down_shexp.weight"@,
            Role::GateUpExps => "ffn_gate_up_exps.weight"@,
            Role::GateExps => "ffn_gate_exps.weight"@,
            Role::UpExps => "ffn_up_exps.weight"@,
            Role::DownExps => "ffn_down_exps.weight"@,
            Role::DownScale => "ffn_down_exps.scale"@,
            Role::AttnQ => "attn_q.weight"@,
            Role::AttnK => "attn_k.weight"@,
            Role::AttnV => "attn_v.weight"@,
            Role::AttnQNorm => "attn_q_norm.weight"@,
            Role::AttnKNorm => "attn_k_norm.weight"@,
            Role::AttnQA => "attn_q_a.weight"@,
            Role::AttnQANorm => "attn_q_a_norm.weight"@,
            Role::AttnQB => "attn_q_b.weight"@,
            Role::AttnKvA => "attn_kv_a_mqa.weight"@,
            Role::AttnKvANorm => "attn_kv_a_norm.weight"@,
            Role::AttnKB => "attn_k_b.weight"@,
            Role::AttnVB => "attn_v_b.weight"@,
            Role::IndexerQB => "indexer.attn_q_b.weight"@,
            Role::IndexerK => "indexer.attn_k.weight"@,
            Role::IndexerKNorm => "indexer.k_norm.weight"@,
            Role::IndexerKNormB => "indexer.k_norm.bias"@,
            Role::IndexerProj => "indexer.proj.weight"@,
            Role::AttnOutput => "attn_output.weight"@,
            Role::GateInpScale => "ffn_gate_inp.scale"@,
            Role::OutScale => "layer_output_scale.weight"@,
            Role::PostAttnNorm => "post_attention_norm.weight"@,
            Role::PreFfwNorm2 => "pre_ffw_norm_2.weight"@,
            Role::PostFfwNorm1 => "post_ffw_norm_1.weight"@,
            Role::PostFfwNorm2 => "post_ffw_norm_2.weight"@,
            Role::PostFfwNorm => "post_ffw_norm.weight"@,
            Role::AttnNorm => "attn_norm.weight"@,
            Role::FfnNorm => "ffn_norm.weight"@,
        }),
{
    let suffix: &str = match r {
        Role::FfnGate => "ffn_gate.weight",
        Role::FfnUp => "ffn_up.weight",
        Role::FfnDown => "ffn_down.weight",
        Role::GateInp => "ffn_gate_inp.weight",
        Role::ProbsB => "exp_probs_b",
        Role::ProbsBias => "exp_probs_b.bias",
        Role::GateShexp => "ffn_gate_shexp.weight",
        Role::UpShexp => "ffn_up_shexp.weight",
        Role::DownShexp => "ffn_down_shexp.weight",
        Role::GateUpExps => "ffn_gate_up_exps.weight",
        Role::GateExps => "ffn_gate_exps.weight",
        Role::UpExps => "ffn_up_exps.weight",
        Role::DownExps => "ffn_down_exps.weight",
        Role::DownScale => "ffn_down_exps.scale",
        Role::AttnQ => "attn_q.weight",
        Role::AttnK => "attn_k.weight",
        Role::AttnV => "attn_v.weight",
        Role::AttnQNorm => "attn_q_norm.weight",
        Role::AttnKNorm => "attn_k_norm.weight",
        Role::AttnQA => "attn_q_a.weight",
        Role::AttnQANorm => "attn_q_a_norm.weight",
        Role::AttnQB => "attn_q_b.weight",
        Role::AttnKvA => "attn_kv_a_mqa.weight",
        Role::AttnKvANorm => "attn_kv_a_norm.weight",
        Role::AttnKB => "attn_k_b.weight",
        Role::AttnVB => "attn_v_b.weight",
        Role::IndexerQB => "indexer.attn_q_b.weight",
        Role::IndexerK => "indexer.attn_k.weight",
        Role::IndexerKNorm => "indexer.k_norm.weight",
        Role::IndexerKNormB => "indexer.k_norm.bias",
        Role::IndexerProj => "indexer.proj.weight",
        Role::AttnOutput => "attn_output.weight",
        Role::GateInpScale => "ffn_gate_inp.scale",
        Role::OutScale => "layer_output_scale.weight",
        Role::PostAttnNorm => "post_attention_norm.weight",
        Role::PreFfwNorm2 => "pre_ffw_norm_2.weight",
        Role::PostFfwNorm1 => "post_ffw_norm_1.weight",
        Role::PostFfwNorm2 => "post_ffw_norm_2.weight",
        Role::PostFfwNorm => "post_ffw_norm.weight",
        Role::AttnNorm => "attn_norm.weight",
        Role::FfnNorm => "ffn_norm.weight",
    };
    layer_name(il, suffix)
}

/// One step of loading a layer.
#[derive(Debug, Clone, Copy, PartialEq, Eq, Structural)]
pub enum Step {
    /// Upload to the current device.
    Device(Role),
    /// Upload to the current device within the large attention budget, else
    /// to pinned host memory.
    Large(Role),
    /// The same within the small attention budget.
    Small(Role),
    /// Read single-precision numbers to the host.
    Host(Role),
    /// The same, with a default when the tensor cannot be read.
    HostOrDefault(Role),
    /// A zero router bias.
    ZeroBias,
    /// Locate an expert tensor, which stays in the file.
    Expert(Role),
    /// Make attention's device the current one.
    ToAttn,
    /// Make the primary device the current one.
    ToPrimary,
}

/// Whether layer `il` has the tensor.
pub open spec fn has_part(g: &Gguf, il: u32, r: Role) -> bool {
    g.has_tensor(name_of(il, r))
}

/// What loading depends on besides the header.
#[derive(Debug, Clone, Copy, PartialEq, Eq, Structural)]
pub struct LoadMode {
    pub family: Family,
    pub n_leading_dense: u32,
    pub n_idx_topk: u32,
    /// Attention has a device of its own.
    pub attn_dev: bool,
    /// The Gemma layout: norms on both sides of each block, and a shared MLP.
    pub gemma: bool,
}

/// Steps for a layer's feed-forward block.
pub open spec fn ffn_steps(g: &Gguf, m: LoadMode, il: u32) -> Seq<Step> {
    if il < m.n_leading_dense {
        seq![Step::Device(Role::FfnGate), Step::Device(Role::FfnUp), Step::Device(Role::FfnDown)]
    } else {
        let exps = if has_part(g, il, Role::GateUpExps) {
            seq![Step::Expert(Role::GateUpExps)]
        } else {
            seq![Step::Expert(Role::GateExps), Step::Expert(Role::UpExps)]
        };
        let bias = if has_part(g, il, Role::ProbsB) {
            Step::Device(Role::ProbsB)
        } else if has_part(g, il, Role::ProbsBias) {
            Step::Device(Role::ProbsBias)
        } else {
            Step::ZeroBias
        };
        let shared = if has_part(g, il, Role::GateShexp) {
            seq![
                Step::Device(Role::GateShexp),
                Step::Device(Role::UpShexp),
                Step::Device(Role::DownShexp),
            ]
        } else if m.gemma {
            seq![
                Step::Device(Role::FfnGate),
                Step::Device(Role::FfnUp),
                Step::Device(Role::FfnDown),
            ]
        } else {
            Seq::empty()
        };
        let scale = if has_part(g, il, Role::DownScale) {
            seq![Step::Device(Role::DownScale)]
        } else {
            Seq::empty()
        };
        exps + seq![Step::Device(Role::GateInp), bias] + shared + seq![
            Step::Expert(Role::DownExps),
        ] + scale
    }
}

/// Steps for a layer's attention block.
pub open spec fn attn_steps(g: &Gguf, m: LoadMode, il: u32) -> Seq<Step> {
    match m.family {
        Family::Gqa => {
            let v = if has_part(g, il, Role::AttnV) {
                seq![Step::Large(Role::AttnV)]
            } else {
                Seq::empty()
            };
            seq![Step::Large(Role::AttnQ), Step::Large(Role::AttnK)] + v + seq![
                Step::Device(Role::AttnQNorm),
                Step::Device(Role::AttnKNorm),
            ]
        },
        Family::Mla => {
            let idx = if m.n_idx_topk > 0 && has_part(g, il, Role::IndexerQB) {
                seq![
                    Step::Device(Role::IndexerQB),
                    Step::Device(Role::IndexerK),
                    Step::Device(Role::IndexerKNorm),
                    Step::Device(Role::IndexerKNormB),
                    Step::Device(Role::IndexerProj),
                ]
            } else {
                Seq::empty()
            };
            seq![
                Step::Small(Role::AttnQA),
                Step::Device(Role::AttnQANorm),
                Step::Large(Role::AttnQB),
                Step::Small(Role::AttnKvA),
                Step::Device(Role::AttnKvANorm),
                Step::Small(Role::AttnKB),
                Step::Small(Role::AttnVB),
            ] + idx
        },
    }
}

/// All steps for layer `il`, in order.
pub open spec fn layer_steps(g: &Gguf, m: LoadMode, il: u32) -> Seq<Step> {
    let hop = if m.attn_dev {
        seq![Step::ToAttn]
    } else {
        Seq::empty()
    };
    let back = if m.attn_dev {
        seq![Step::ToPrimary]
    } else {
        Seq::empty()
    };
    let gemma = if m.gemma {
        seq![
            Step::Host(Role::GateInpScale),
            Step::HostOrDefault(Role::OutScale),
            Step::Device(Role::PostAttnNorm),
            Step::Device(Role::PreFfwNorm2),
            Step::Device(Role::PostFfwNorm1),
            Step::Device(Role::PostFfwNorm2),
            Step::Device(Role::PostFfwNorm),
        ]
    } else {
        Seq::empty()
    };
    ffn_steps(g, m, il) + hop + attn_steps(g, m, il) + seq![Step::Large(Role::AttnOutput)] + back
        + gemma + seq![Step::Device(Role::AttnNorm), Step::Device(Role::FfnNorm)]
}

fn has_tensor(g: &Gguf, il: u32, r: Role) -> (b: bool)
    ensures
        b == has_part(g, il, r),
{
    let name: String = tensor_name(il, r);
    g.tensor(name.as_str()).is_some()
}

fn plan_ffn(g: &Gguf, m: LoadMode, il: u32) -> (v: Vec<Step>)
    ensures
        v@ == ffn_steps(g, m, il),
{
    let mut v: Vec<Step> = Vec::new();
    if il < m.n_leading_dense {
        v.push(Step::Device(Role::FfnGate));
        v.push(Step::Device(Role::FfnUp));
        v.push(Step::Device(Role::FfnDown));
        assert(v@ =~= ffn_steps(g, m, il));
        return v;
    }
    if has_tensor(g, il, Role::GateUpExps) {
        v.push(Step::Expert(Role::GateUpExps));
    } else {
        v.push(Step::Expert(Role::GateExps));
        v.push(Step::Expert(Role::UpExps));
    }
    v.push(Step::Device(Role::GateInp));
    if has_tensor(g, il, Role::ProbsB) {
        v.push(Step::Device(Role::ProbsB));
    } else if has_tensor(g, il, Role::ProbsBias) {
        v.push(Step::Device(Role::ProbsBias));
    } else {
        v.push(Step::ZeroBias);
    }
    if has_tensor(g, il, Role::GateShexp) {
        v.push(Step::Device(Role::GateShexp));
        v.push(Step::Device(Role::UpShexp));
        v.push(Step::Device(Role::DownShexp));
    } else if m.gemma {
        v.push(Step::Device(Role::FfnGate));
        v.push(Step::Device(Role::FfnUp));
        v.push(Step::Device(Role::FfnDown));
    }
    v.push(Step::Expert(Role::DownExps));
    if has_tensor(g, il, Role::DownScale) {
        v.push(Step::Device(Role::DownScale));
    }
    assert(v@ =~= ffn_steps(g, m, il));
    v
}

fn plan_attn(g: &Gguf, m: LoadMode, il: u32) -> (v: Vec<Step>)
    ensures
        v@ == attn_steps(g, m, il),
{
    let mut v: Vec<Step> = Vec::new();
    match m.family {
        Family::Gqa => {
            v.push(Step::Large(Role::AttnQ));
            v.push(Step::Large(Role::AttnK));
            if has_tensor(g, il, Role::AttnV) {
                v.push(Step::Large(Role::AttnV));
            }
            v.push(Step::Device(Role::AttnQNorm));
            v.push(Step::Device(Role::AttnKNorm));
        },
        Family::Mla => {
            v.push(Step::Small(Role::AttnQA));
            v.push(Step::Device(Role::AttnQANorm));
            v.push(Step::Large(Role::AttnQB));
            v.push(Step::Small(Role::AttnKvA));
            v.push(Step::Device(Role::AttnKvANorm));
            v.push(Step::Small(Role::AttnKB));
            v.push(Step::Small(Role::AttnVB));
            if m.n_idx_topk > 0 && has_tensor(g, il, Role::IndexerQB) {
                v.push(Step::Device(Role::IndexerQB));
                v.push(Step::Device(Role::IndexerK));
                v.push(Step::Device(Role::IndexerKNorm));
                v.push(Step::Device(Role::IndexerKNormB));
                v.push(Step::Device(Role::IndexerProj));
            }
        },
    }
    assert(v@ =~= attn_steps(g, m, il));
    v
}

/// Plans the loading of layer `il`.
pub fn plan_layer(g: &Gguf, m: LoadMode, il: u32) -> (v: Vec<Step>)
    ensures
        v@ == layer_steps(g, m, il),
{
    let mut v: Vec<Step> = plan_ffn(g, m, il);
    let mut attn: Vec<Step> = plan_attn(g, m, il);
    if m.attn_dev {
        v.push(Step::ToAttn);
    }
    v.append(&mut attn);
    v.push(Step::Large(Role::AttnOutput));
    if m.attn_dev {
        v.push(Step::ToPrimary);
    }
    if m.gemma {
        v.push(Step::Host(Role::GateInpScale));
        v.push(Step::HostOrDefault(Role::OutScale));
        v.push(Step::Device(Role::PostAttnNorm));
        v.push(Step::Device(Role::PreFfwNorm2));
        v.push(Step::Device(Role::PostFfwNorm1));
        v.push(Step::Device(Role::PostFfwNorm2));
        v.push(Step::Device(Role::PostFfwNorm));
    }
    v.push(Step::Device(Role::AttnNorm));
    v.push(Step::Device(Role::FfnNorm));
    assert(v@ =~= layer_steps(g, m, il));
    v
}

/// Why an expert tensor cannot be located.
#[derive(Debug, Clone, Copy, PartialEq, Eq, Structural)]
pub enum ExpertFault {
    /// The model has no such tensor.
    Missing,
    /// Its stated sizes cannot describe expert slabs.
    BadSize,
    /// Its format has no kernel.
    Unsupported,
}

/// Whether a tensor's stated sizes can describe expert slabs.
pub open spec fn well_sized(g: &Gguf, t: TensorInfo) -> bool {
    &&& t.dims@.len() >= 2
    &&& quant_of(t.ty) is Some ==> t.row_bytes is Some
    &&& g.data_offset + t.offset <= u64::MAX
    &&& t.row_bytes matches Some(b) ==> b * t.dims@[1] <= u64::MAX
}

/// Locates an expert tensor of layer `il`.
pub fn locate_expert(g: &Gguf, il: u32, r: Role) -> (x: Result<ExpertTensor, ExpertFault>)
    ensures
        match x {
            Ok(e) => {
                let t = g.tensors@[name_of(il, r)];
                &&& has_part(g, il, r)
                &&& well_sized(g, t)
                &&& quant_of(t.ty) == Some(e.quant)
                &&& e.abs_offset == g.data_offset + t.offset
                &&& Some(e.row_bytes) == t.row_bytes
                &&& e.expert_bytes == e.row_bytes * t.dims@[1]
            },
            Err(ExpertFault::Missing) => !has_part(g, il, r),
            Err(ExpertFault::BadSize) => has_part(g, il, r) && !well_sized(
                g,
                g.tensors@[name_of(il, r)],
            ),
            Err(ExpertFault::Unsupported) => {
                let t = g.tensors@[name_of(il, r)];
                has_part(g, il, r) && well_sized(g, t) && quant_of(t.ty) is None
            },
        },
{
    let name: String = tensor_name(il, r);
    match g.tensor(name.as_str()) {
        None => Err(ExpertFault::Missing),
        Some(t) => if !sizes_go(g, t) {
            Err(ExpertFault::BadSize)
        } else {
            match ExpertTensor::new(g, t) {
                Some(e) => Ok(e),
                None => Err(ExpertFault::Unsupported),
            }
        },
    }
}

fn sizes_go(g: &Gguf, t: &TensorInfo) -> (r: bool)
    ensures
        r == well_sized(g, *t),
{
    if t.dims.len() < 2 || g.data_offset.checked_add(t.offset).is_none() {
        return false;
    }
    match t.row_bytes {
        Some(b) => b.checked_mul(t.dims[1]).is_some(),
        None => expert_quant(t.ty).is_none(),
    }
}

/// A layer's experts, with how far into the up slab its rows begin. A fused
/// tensor serves as gate and up: gate rows come first. `None` when those rows
/// are larger than any file.
pub fn moe_tensors(
    first: ExpertTensor,
    up: Option<ExpertTensor>,
    down: ExpertTensor,
    n_ff_exp: u32,
) -> (r: Option<(MoeTensors, u64)>)
    ensures
        match r {
            Some((m, off)) => {
                &&& m.gate == first
                &&& m.up == (match up {
                    Some(u) => u,
                    None => first,
                })
                &&& m.down == down
                &&& off == (match up {
                    Some(_) => 0,
                    None => first.row_bytes * n_ff_exp,
                })
            },
            None => up is None && first.row_bytes * n_ff_exp > u64::MAX,
        },
{
    match up {
        Some(u) => Some((MoeTensors { gate: first, up: u, down }, 0)),
        None => match first.row_bytes.checked_mul(n_ff_exp as u64) {
            Some(off) => Some((MoeTensors { gate: first, up: first, down }, off)),
            None => None,
        },
    }
}

/// Attention tensors are uploaded between the switch to attention's device and
/// the switch back, and nothing else is.
pub open spec fn attn_role(r: Role) -> bool {
    match r {
        Role::AttnQ | Role::AttnK | Role::AttnV | Role::AttnQNorm | Role::AttnKNorm
            | Role::AttnQA | Role::AttnQANorm | Role::AttnQB | Role::AttnKvA | Role::AttnKvANorm
            | Role::AttnKB | Role::AttnVB | Role::IndexerQB | Role::IndexerK
            | Role::IndexerKNorm | Role::IndexerKNormB | Role::IndexerProj
            | Role::AttnOutput => true,
        _ => false,
    }
}

/// Whether a step uploads an attention tensor.
pub open spec fn attn_step(s: Step) -> bool {
    match s {
        Step::Device(r) | Step::Large(r) | Step::Small(r) => attn_role(r),
        _ => false,
    }
}

/// With a device of its own, attention's tensors and no others go there: the
/// steps are ones for the primary, the switch, attention's, the switch back,
/// and ones for the primary again.
pub proof fn attn_steps_enclosed(g: &Gguf, m: LoadMode, il: u32)
    requires
        m.attn_dev,
    ensures
        ({
            let before = ffn_steps(g, m, il);
            let inside = attn_steps(g, m, il).push(Step::Large(Role::AttnOutput));
            let all = layer_steps(g, m, il);
            let a = before.len() as int;
            let b = a + 1 + inside.len();
            &&& all[a] == Step::ToAttn
            &&& all[b] == Step::ToPrimary
            &&& all.take(a) == before
            &&& all.subrange(a + 1, b) == inside
            &&& forall|i: int| 0 <= i < a ==> !attn_step(#[trigger] all[i])
            &&& forall|i: int| a < i < b ==> attn_step(#[trigger] all[i])
            &&& forall|i: int| b < i < all.len() ==> !attn_step(#[trigger] all[i])
        }),
{
    let before = ffn_steps(g, m, il);
    let inside = attn_steps(g, m, il).push(Step::Large(Role::AttnOutput));
    let all = layer_steps(g, m, il);
    let a = before.len() as int;
    let b = a + 1 + inside.len();
    assert(all.take(a) =~= before);
    assert(all.subrange(a + 1, b) =~= inside);
    assert forall|i: int| 0 <= i < a implies !attn_step(#[trigger] all[i]) by {
        assert(all[i] == before[i]);
    }
    assert forall|i: int| a < i < b implies attn_step(#[trigger] all[i]) by {
        assert(all[i] == inside[i - a - 1]);
    }
}

/// The tensor that serves as the output head: its own, or the embeddings.
pub fn head_name(g: &Gguf) -> (s: &'static str)
    ensures
        s@ == (if g.has_tensor("output.weight"@) {
            "output.weight"@
        } else {
            "token_embd.weight"@
        }),
{
    if g.tensor("output.weight").is_some() {
        "output.weight"
    } else {
        "token_embd.weight"
    }
}

/// Head formats that have a kernel of their own.
pub open spec fn head_quant(ty: TensorType) -> Option<u32> {
    match ty {
        TensorType::Q2K => Some(QUANT_Q2_K),
        TensorType::IQ2XXS => Some(QUANT_IQ2_XXS),
        TensorType::Q4K => Some(QUANT_Q4_K),
        TensorType::Q5K => Some(QUANT_Q5_K),
        TensorType::Q6K => Some(QUANT_Q6_K),
        TensorType::Q3K => Some(QUANT_Q3_K),
        _ => None,
    }
}

/// Row size and kernel number of the head called `name`, in such a format. A
/// head that is converted on load no longer has the format it was stored in.
pub fn output_kq(t: &TensorInfo, name: &str) -> (r: Option<(u64, u32)>)
    requires
        head_quant(t.ty) is Some ==> t.row_bytes is Some,
    ensures
        r == (if converted(t.ty, name@) {
            None
        } else {
            match head_quant(t.ty) {
                Some(q) => Some((t.row_bytes->0, q)),
                None => None,
            }
        }),
{
    if converts(t, name) {
        return None;
    }
    let q: u32 = match t.ty {
        TensorType::Q2K => QUANT_Q2_K,
        TensorType::IQ2XXS => QUANT_IQ2_XXS,
        TensorType::Q4K => QUANT_Q4_K,
        TensorType::Q5K => QUANT_Q5_K,
        TensorType::Q6K => QUANT_Q6_K,
        TensorType::Q3K => QUANT_Q3_K,
        _ => return None,
    };
    Some((t.row_bytes.unwrap(), q))
}

/// Formats that dense layers have no kernel for.
pub open spec fn k_quant(ty: TensorType) -> bool {
    match ty {
        TensorType::Q2K | TensorType::Q3K | TensorType::Q4K | TensorType::Q5K
            | TensorType::Q6K => true,
        _ => false,
    }
}

/// Whether a tensor of that format and name is converted on load: dense
/// K-quants are, the output head is read as it is.
pub open spec fn converted(ty: TensorType, name: Seq<char>) -> bool {
    k_quant(ty) && name != "output.weight"@
}

/// Whether a tensor is converted on load.
pub fn converts(t: &TensorInfo, name: &str) -> (r: bool)
    ensures
        r == converted(t.ty, name@),
{
    let k: bool = match t.ty {
        TensorType::Q2K | TensorType::Q3K | TensorType::Q4K | TensorType::Q5K
            | TensorType::Q6K => true,
        _ => false,
    };
    k && !same_text(name, "output.weight")
}

/// The attention tensors that a device of its own would have to hold.
pub open spec fn stack_roles() -> Seq<Role> {
    seq![
        Role::AttnQA,
        Role::AttnQANorm,
        Role::AttnQB,
        Role::AttnKvA,
        Role::AttnKvANorm,
        Role::AttnKB,
        Role::AttnVB,
        Role::AttnOutput,
    ]
}

/// Bytes of a layer's tensor; none when it is absent or has no layout.
pub open spec fn bytes_of(g: &Gguf, il: u32, r: Role) -> int {
    if has_part(g, il, r) {
        match g.tensors@[name_of(il, r)].byte_size {
            Some(b) => b as int,
            None => 0,
        }
    } else {
        0
    }
}

/// Bytes of the first `n` attention tensors of a layer.
pub open spec fn stack_bytes(g: &Gguf, il: u32, n: nat) -> int
    decreases n,
{
    if n == 0 {
        0
    } else {
        stack_bytes(g, il, (n - 1) as nat) + bytes_of(g, il, stack_roles()[n - 1])
    }
}

/// Bytes of the attention tensors of the first `n` layers.
pub open spec fn stacks_bytes(g: &Gguf, n: nat) -> int
    decreases n,
{
    if n == 0 {
        0
    } else {
        stacks_bytes(g, (n - 1) as nat) + stack_bytes(g, (n - 1) as u32, 8)
    }
}

/// Bytes that attention needs on a device of its own: the weights, a compact
/// KV cache for 4096 positions, and a reserve.
pub open spec fn attn_bytes(g: &Gguf, s: Shape) -> int {
    stacks_bytes(g, s.n_exec_layer as nat) + s.n_exec_layer * 4096 * (s.n_kv_lora + s.qk_rope) * 4
        + 1_073_741_824
}

fn tensor_bytes(g: &Gguf, il: u32, r: Role) -> (n: u64)
    ensures
        n == bytes_of(g, il, r),
{
    let name: String = tensor_name(il, r);
    match g.tensor(name.as_str()) {
        Some(t) => t.byte_size.unwrap_or(0),
        None => 0,
    }
}

/// Adds up what attention needs on a device of its own; `None` when that is more
/// than a machine word counts.
pub fn attn_need(g: &Gguf, s: &Shape) -> (n: Option<u64>)
    ensures
        n == (if attn_bytes(g, *s) <= u64::MAX {
            Some(attn_bytes(g, *s) as u64)
        } else {
            None
        }),
{
    let rows: u64 = s.n_exec_layer as u64 * 4096;
    let width: u64 = s.n_kv_lora as u64 + s.qk_rope as u64;
    proof {
        let (a, w) = (rows as int, width as int);
        assert(0 <= a * w <= 0x1000_0000_0000 * 0x2_0000_0000) by (nonlinear_arith)
            requires
                0 <= a <= 0x1000_0000_0000,
                0 <= w <= 0x2_0000_0000,
        ;
        assert(s.n_exec_layer * 4096 * (s.n_kv_lora + s.qk_rope) * 4 == a * w * 4);
    }
    let kv: u128 = rows as u128 * width as u128 * 4;
    let mut need: u128 = 0;
    let mut il: u32 = 0;
    while il < s.n_exec_layer
        invariant
            il <= s.n_exec_layer,
            need == stacks_bytes(g, il as nat),
            need <= il * 8 * u64::MAX,
        decreases s.n_exec_layer - il,
    {
        let roles: [Role; 8] = [
            Role::AttnQA,
            Role::AttnQANorm,
            Role::AttnQB,
            Role::AttnKvA,
            Role::AttnKvANorm,
            Role::AttnKB,
            Role::AttnVB,
            Role::AttnOutput,
        ];
        let ghost base = stacks_bytes(g, il as nat);
        let mut k: usize = 0;
        while k < 8
            invariant
                k <= 8,
                il < s.n_exec_layer,
                roles@ =~= stack_roles(),
                base == stacks_bytes(g, il as nat),
                need == base + stack_bytes(g, il, k as nat),
                need <= (il * 8 + k) * u64::MAX,
            decreases 8 - k,
        {
            need = need + tensor_bytes(g, il, roles[k]) as u128;
            k += 1;
        }
        il += 1;
    }
    let all: u128 = need + kv + 1_073_741_824;
    if all <= u64::MAX as u128 {
        Some(all as u64)
    } else {
        None
    }
}

/// A device's free memory.
#[derive(Debug, Clone, Copy, PartialEq, Eq, Structural)]
pub struct FreeMemory {
    pub dev: i32,
    pub free: usize,
}

/// Among the first `n` devices, the one with most free memory, of at least
/// `need`, that is not the primary; the first of equal ones.
pub open spec fn roomiest(devs: Seq<FreeMemory>, primary: i32, need: u64, n: int) -> Option<
    FreeMemory,
>
    decreases n,
{
    if n <= 0 {
        None
    } else {
        let best = roomiest(devs, primary, need, n - 1);
        let d = devs[n - 1];
        if d.dev == primary || d.free < need {
            best
        } else {
            match best {
                Some(b) => if d.free > b.free {
                    Some(d)
                } else {
                    best
                },
                None => Some(d),
            }
        }
    }
}

/// Picks the device for attention: the one with most free memory that fits it.
pub fn pick_attn_device(devs: &[FreeMemory], primary: i32, need: u64) -> (r: Option<i32>)
    ensures
        r == (match roomiest(devs@, primary, need, devs@.len() as int) {
            Some(d) => Some(d.dev),
            None => None,
        }),
{
    let mut best: Option<FreeMemory> = None;
    let mut i: usize = 0;
    while i < devs.len()
        invariant
            i <= devs@.len(),
            best == roomiest(devs@, primary, need, i as int),
        decreases devs@.len() - i,
    {
        let d: FreeMemory = devs[i];
        if d.dev != primary && d.free as u64 >= need {
            let better: bool = match best {
                Some(b) => d.free > b.free,
                None => true,
            };
            if better {
                best = Some(d);
            }
        }
        i += 1;
    }
    match best {
        Some(d) => Some(d.dev),
        None => None,
    }
}

/// The picked device is not the primary, has room, and none with room has more.
pub proof fn roomiest_is_roomiest(devs: Seq<FreeMemory>, primary: i32, need: u64, n: int)
    requires
        0 <= n <= devs.len(),
    ensures
        match roomiest(devs, primary, need, n) {
            Some(b) => {
                &&& b.dev != primary
                &&& b.free >= need
                &&& forall|i: int|
                    0 <= i < n && (#[trigger] devs[i]).dev != primary ==> devs[i].free <= b.free
            },
            None => forall|i: int|
                0 <= i < n && (#[trigger] devs[i]).dev != primary ==> devs[i].free < need,
        },
    decreases n,
{
    if n > 0 {
        roomiest_is_roomiest(devs, primary, need, n - 1);
    }
}

/// One layer's attention geometry. The rotary base is kept as bits.
#[derive(Debug, Clone, Copy, PartialEq, Eq, Structural)]
pub struct Geom {
    pub n_head_kv: u32,
    pub head_dim: u32,
    pub theta: u32,
    /// Sliding window; 0 is full causal.
    pub window: u32,
    /// Scales rotary frequencies by the model's factors.
    pub factors: bool,
}

/// The unsigned items of a list.
pub open spec fn unsigned_items(items: Seq<MetaValue>) -> Seq<u64>
    decreases items.len(),
{
    if items.len() == 0 {
        Seq::empty()
    } else {
        let before = unsigned_items(items.drop_last());
        match items.last().unsigned {
            Some(v) => before.push(v),
            None => before,
        }
    }
}

/// KV heads per layer: a list, or one number for the first layer.
pub open spec fn kv_list(g: &Gguf) -> Seq<u64> {
    match g.arch_value("attention.head_count_kv"@) {
        Some(v) => match v.items {
            Some(a) => unsigned_items(a@),
            None => match v.unsigned {
                Some(x) => seq![x],
                None => Seq::empty(),
            },
        },
        None => Seq::empty(),
    }
}

/// Whether layer `il` attends within a sliding window.
pub open spec fn slides(g: &Gguf, il: int) -> bool {
    match g.arch_value("attention.sliding_window_pattern"@) {
        Some(v) => match v.items {
            Some(a) => 0 <= il < a@.len() && a@[il].flag == Some(true),
            None => false,
        },
        None => false,
    }
}

/// The value under `k`, or `d`.
pub open spec fn arch_u32(g: &Gguf, k: Seq<char>, d: u32) -> u32 {
    match g.arch_unsigned(k) {
        Some(v) => v as u32,
        None => d,
    }
}

/// The real value under `k`, or `d`, as bits.
pub open spec fn arch_bits(g: &Gguf, k: Seq<char>, d: u32) -> u32 {
    match g.arch_real(k) {
        Some(v) => v,
        None => d,
    }
}

/// Bits of one million as an IEEE 754 single.
pub const MILLION_BITS: u32 = 0x4974_2400;

/// Bits of ten thousand as an IEEE 754 single.
pub const TEN_THOUSAND_BITS: u32 = 0x461c_4000;

/// Layer `il`'s geometry in a model that interleaves sliding and full attention.
pub open spec fn geom_of(g: &Gguf, il: int) -> Geom {
    let full = arch_u32(g, "attention.key_length"@, 512);
    let swa = slides(g, il);
    Geom {
        n_head_kv: if 0 <= il < kv_list(g).len() {
            kv_list(g)[il] as u32
        } else {
            1
        },
        head_dim: if swa {
            arch_u32(g, "attention.key_length_swa"@, full)
        } else {
            full
        },
        theta: if swa {
            arch_bits(g, "rope.freq_base_swa"@, TEN_THOUSAND_BITS)
        } else {
            arch_bits(g, "rope.freq_base"@, MILLION_BITS)
        },
        window: if swa {
            arch_u32(g, "attention.sliding_window"@, 0)
        } else {
            0
        },
        factors: !swa,
    }
}

fn get_u32(g: &Gguf, k: &str, d: u32) -> (r: u32)
    ensures
        r == arch_u32(g, k@, d),
{
    match g.arch_meta(k) {
        Some(v) => match v.unsigned {
            Some(x) => x as u32,
            None => d,
        },
        None => d,
    }
}

fn get_bits(g: &Gguf, k: &str, d: u32) -> (r: u32)
    ensures
        r == arch_bits(g, k@, d),
{
    match g.arch_meta(k) {
        Some(v) => v.real.unwrap_or(d),
        None => d,
    }
}

fn get_kv_list(g: &Gguf) -> (out: Vec<u64>)
    ensures
        out@ == kv_list(g),
{
    let mut out: Vec<u64> = Vec::new();
    match g.arch_meta("attention.head_count_kv") {
        Some(v) => match &v.items {
            Some(a) => {
                let mut i: usize = 0;
                assert(a@.take(0) =~= Seq::empty());
                while i < a.len()
                    invariant
                        i <= a@.len(),
                        out@ == unsigned_items(a@.take(i as int)),
                    decreases a@.len() - i,
                {
                    assert(a@.take(i + 1).drop_last() =~= a@.take(i as int));
                    if let Some(x) = a[i].unsigned {
                        out.push(x);
                    }
                    i += 1;
                }
                assert(a@.take(i as int) =~= a@);
            },
            None => {
                if let Some(x) = v.unsigned {
                    out.push(x);
                    assert(out@ =~= seq![x]);
                }
            },
        },
        None => {},
    }
    out
}

/// Works out every layer's attention geometry.
pub fn layer_geometry(g: &Gguf, n_exec_layer: u32) -> (out: Vec<Geom>)
    ensures
        out@ == Seq::new(n_exec_layer as nat, |il: int| geom_of(g, il)),
{
    let kvh: Vec<u64> = get_kv_list(g);
    let none: Vec<MetaValue> = Vec::new();
    let pattern: &Vec<MetaValue> = match g.arch_meta("attention.sliding_window_pattern") {
        Some(v) => match &v.items {
            Some(a) => a,
            None => &none,
        },
        None => &none,
    };
    let full: u32 = get_u32(g, "attention.key_length", 512);
    let swa_dim: u32 = get_u32(g, "attention.key_length_swa", full);
    let theta_full: u32 = get_bits(g, "rope.freq_base", MILLION_BITS);
    let theta_swa: u32 = get_bits(g, "rope.freq_base_swa", TEN_THOUSAND_BITS);
    let window: u32 = get_u32(g, "attention.sliding_window", 0);
    let mut out: Vec<Geom> = Vec::new();
    let mut il: u32 = 0;
    assert forall|i: int| 0 <= i implies slides(g, i) == (i < pattern@.len() && #[trigger] pattern@[i].flag
        == Some(true)) by {}
    while il < n_exec_layer
        invariant
            il <= n_exec_layer,
            kvh@ == kv_list(g),
            forall|i: int|
                0 <= i ==> slides(g, i) == (i < pattern@.len() && #[trigger] pattern@[i].flag
                    == Some(true)),
            full == arch_u32(g, "attention.key_length"@, 512),
            swa_dim == arch_u32(g, "attention.key_length_swa"@, full),
            theta_full == arch_bits(g, "rope.freq_base"@, MILLION_BITS),
            theta_swa == arch_bits(g, "rope.freq_base_swa"@, TEN_THOUSAND_BITS),
            window == arch_u32(g, "attention.sliding_window"@, 0),
            out@ =~= Seq::new(il as nat, |i: int| geom_of(g, i)),
        decreases n_exec_layer - il,
    {
        let i: usize = il as usize;
        let swa: bool = i < pattern.len() && match pattern[i].flag {
            Some(b) => b,
            None => false,
        };
        assert(swa == slides(g, il as int)) by {
            assert(pattern@[il as int].flag == pattern@[il as int].flag);
        }
        out.push(
            Geom {
                n_head_kv: if i < kvh.len() {
                    kvh[i] as u32
                } else {
                    1
                },
                head_dim: if swa {
                    swa_dim
                } else {
                    full
                },
                theta: if swa {
                    theta_swa
                } else {
                    theta_full
                },
                window: if swa {
                    window
                } else {
                    0
                },
                factors: !swa,
            },
        );
        il += 1;
    }
    out
}

/// Whether a header describes the Gemma layout.
pub fn is_gemma(g: &Gguf) -> (r: bool)
    ensures
        r == (g.arch() == Some("gemma4"@)),
{
    match &g.architecture {
        Some(a) => same_text(a.as_str(), "gemma4"),
        None => false,
    }
}

/// The name of a tensor of the draft block.
pub open spec fn draft_tensor(il: u32, part: Seq<char>) -> Seq<char> {
    layer_tensor(il as nat, "nextn."@ + part + ".weight"@)
}

/// Names a tensor of the draft block.
pub fn draft_name(il: u32, part: &str) -> (s: String)
    ensures
        s@ == draft_tensor(il, part@),
        s@ == "blk."@ + crate::text::decimal(il as nat) + "."@ + ("nextn."@ + part@ + ".weight"@),
{
    let mut suffix: String = String::from_str("nextn.");
    suffix.append(part);
    suffix.append(".weight");
    layer_name(il, suffix.as_str())
}

/// What to do about a draft block.
#[derive(Debug, Clone, Copy, PartialEq, Eq, Structural)]
pub enum Draft {
    /// Not asked for.
    Off,
    /// Asked for, but the model has none.
    Absent,
    /// Load it.
    Load,
}

/// Decides about the draft block: loaded when asked for and there.
pub fn draft_block(g: &Gguf, n_exec_layer: u32, env: Option<&str>) -> (d: Draft)
    ensures
        d == (if env matches Some(v) && v@ == "1"@ {
            if g.has_tensor(draft_tensor(n_exec_layer, "eh_proj"@)) {
                Draft::Load
            } else {
                Draft::Absent
            }
        } else {
            Draft::Off
        }),
{
    let asked: bool = match env {
        Some(v) => same_text(v, "1"),
        None => false,
    };
    if !asked {
        return Draft::Off;
    }
    let name: String = draft_name(n_exec_layer, "eh_proj");
    if g.tensor(name.as_str()).is_some() {
        Draft::Load
    } else {
        Draft::Absent
    }
}

/// The slabs of one tensor's first `n` experts, one behind the other from `at`.
pub open spec fn tensor_placements(t: ExpertTensor, at: int, n: nat) -> Seq<Placement>
    decreases n,
{
    if n == 0 {
        Seq::empty()
    } else {
        tensor_placements(t, at, (n - 1) as nat).push(
            Placement {
                slab: t.slab(n - 1),
                at: (at + (n - 1) * t.expert_bytes) as usize,
            },
        )
    }
}

/// Bytes of `n` experts' slabs.
pub open spec fn draft_bytes(x: MoeTensors, n: nat) -> int {
    n * x.gate.expert_bytes + n * x.up.expert_bytes + n * x.down.expert_bytes
}

/// Every slab of the draft layer: gate, then up, then down tensors.
pub open spec fn draft_placements(x: MoeTensors, n: nat) -> Seq<Placement> {
    tensor_placements(x.gate, 0, n) + tensor_placements(x.up, n * x.gate.expert_bytes, n)
        + tensor_placements(x.down, n * x.gate.expert_bytes + n * x.up.expert_bytes, n)
}

fn push_tensor(out: &mut Vec<Placement>, t: &ExpertTensor, at: usize, n: u32) -> (end: usize)
    requires
        t.holds(n as nat),
        at + n * t.expert_bytes <= usize::MAX,
    ensures
        final(out)@ == old(out)@ + tensor_placements(*t, at as int, n as nat),
        end == at + n * t.expert_bytes,
{
    let mut e: u32 = 0;
    let mut cursor: usize = at;
    assert(0 * t.expert_bytes == 0);
    assert(out@ =~= old(out)@ + tensor_placements(*t, at as int, 0));
    while e < n
        invariant
            e <= n,
            t.holds(n as nat),
            at + n * t.expert_bytes <= usize::MAX,
            cursor == at + e * t.expert_bytes,
            out@ == old(out)@ + tensor_placements(*t, at as int, e as nat),
        decreases n - e,
    {
        proof {
            let w = t.expert_bytes as int;
            assert(e * w + w <= n * w && (e + 1) * w == e * w + w) by (nonlinear_arith)
                requires
                    e + 1 <= n,
                    0 <= w,
            ;
        }
        out.push(Placement { slab: t.slab_of(e as u64), at: cursor });
        cursor = cursor + t.expert_bytes as usize;
        assert(out@ =~= old(out)@ + tensor_placements(*t, at as int, (e + 1) as nat));
        e += 1;
    }
    cursor
}

/// Whether all slabs of the draft layer have offsets, and fit a pool.
pub open spec fn draft_holds(x: MoeTensors, n: nat) -> bool {
    &&& x.gate.holds(n)
    &&& x.up.holds(n)
    &&& x.down.holds(n)
    &&& draft_bytes(x, n) + SLAB_SLACK <= usize::MAX
}

/// Plans the residence of every expert of the draft layer in one pool, whose
/// size with slack comes with the plan; `None` when there can be no such pool.
pub fn draft_residents(x: &MoeTensors, n: u32) -> (r: Option<(Vec<Placement>, usize)>)
    ensures
        match r {
            Some((v, bytes)) => {
                &&& draft_holds(*x, n as nat)
                &&& v@ == draft_placements(*x, n as nat)
                &&& bytes == draft_bytes(*x, n as nat) + SLAB_SLACK
            },
            None => !draft_holds(*x, n as nat),
        },
{
    if !x.gate.holds_all(n) || !x.up.holds_all(n) || !x.down.holds_all(n) {
        return None;
    }
    proof {
        let (a, b, c) = (x.gate.expert_bytes, x.up.expert_bytes, x.down.expert_bytes);
        assert(n * a >= 0 && n * b >= 0 && n * c >= 0) by (nonlinear_arith);
    }
    let each: [u64; 3] = [
        n as u64 * x.gate.expert_bytes,
        n as u64 * x.up.expert_bytes,
        n as u64 * x.down.expert_bytes,
    ];
    let all: u128 = each[0] as u128 + each[1] as u128 + each[2] as u128 + SLAB_SLACK as u128;
    if all > usize::MAX as u128 {
        return None;
    }
    let mut out: Vec<Placement> = Vec::new();
    let a: usize = push_tensor(&mut out, &x.gate, 0, n);
    let b: usize = push_tensor(&mut out, &x.up, a, n);
    let c: usize = push_tensor(&mut out, &x.down, b, n);
    assert(out@ =~= draft_placements(*x, n as nat));
    Some((out, c + SLAB_SLACK))
}

proof fn tensor_packed(before: Seq<Placement>, t: ExpertTensor, at: int, n: nat)
    requires
        packed(before, at),
        0 <= at,
        t.holds(n),
        at + n * t.expert_bytes <= usize::MAX,
    ensures
        packed(before + tensor_placements(t, at, n), at + n * t.expert_bytes),
    decreases n,
{
    let w = t.expert_bytes as int;
    if n == 0 {
        assert(n * w == 0) by (nonlinear_arith)
            requires
                n == 0,
        ;
        assert(before + tensor_placements(t, at, 0) =~= before);
    } else {
        let m = (n - 1) as nat;
        assert(m * w >= 0 && n * w == m * w + w) by (nonlinear_arith)
            requires
                m == n - 1,
                n >= 1,
                w >= 0,
        ;
        tensor_packed(before, t, at, m);
        let all = before + tensor_placements(t, at, n);
        assert(all.drop_last() =~= before + tensor_placements(t, at, m));
        assert((n - 1) * w == m * w);
        assert(all.last().at == at + m * w);
    }
}

/// The draft layer's slabs fill its pool without overlap.
pub proof fn draft_packed(x: MoeTensors, n: nat)
    requires
        x.gate.holds(n),
        x.up.holds(n),
        x.down.holds(n),
        draft_bytes(x, n) <= usize::MAX,
    ensures
        packed(draft_placements(x, n), draft_bytes(x, n)),
{
    let (a, b, c) = (
        n * x.gate.expert_bytes,
        n * x.up.expert_bytes,
        n * x.down.expert_bytes,
    );
    assert(a >= 0 && b >= 0 && c >= 0) by (nonlinear_arith)
        requires
            a == n * x.gate.expert_bytes,
            b == n * x.up.expert_bytes,
            c == n * x.down.expert_bytes,
    ;
    let p0 = Seq::<Placement>::empty();
    let p1 = tensor_placements(x.gate, 0, n);
    let p2 = p1 + tensor_placements(x.up, a, n);
    tensor_packed(p0, x.gate, 0, n);
    assert(p0 + p1 =~= p1);
    tensor_packed(p1, x.up, a, n);
    tensor_packed(p2, x.down, a + b, n);
}

} // verus!
