//! The model's dimensions, read from its header.

use vstd::prelude::*;
use vstd::string::*;

use crate::gguf::{Gguf, MetaValue};
use crate::text::{decimal, push_decimal, same_text};

verus! {

/// Bits of 1.0 as an IEEE 754 single.
pub const ONE_BITS: u32 = 0x3f80_0000;

/// The attention families.
#[derive(Debug, Clone, Copy, PartialEq, Eq, Structural)]
pub enum Family {
    /// Plain grouped-query attention.
    Gqa,
    /// Multi-head latent attention over a compact KV cache.
    Mla,
}

/// The model's dimensions. Real numbers are kept as the bits of an IEEE 754
/// single: the library only passes them on.
#[derive(Debug, Clone, Copy, PartialEq, Eq, Structural)]
pub struct Shape {
    pub family: Family,
    pub n_embd: u32,
    pub n_head: u32,
    pub n_head_kv: u32,
    pub head_dim: u32,
    pub n_layer: u32,
    /// Layers that run; the rest predict further tokens.
    pub n_exec_layer: u32,
    pub n_leading_dense: u32,
    pub n_expert: u32,
    pub n_expert_used: u32,
    pub n_ff_exp: u32,
    pub n_ff_dense: u32,
    pub n_vocab: u32,
    pub expert_weight_scale: u32,
    /// Softmax router; otherwise sigmoid.
    pub router_softmax: bool,
    /// Expert gate activation: 0 silu, 1 gelu, 2 clamped swiglu.
    pub moe_act_op: u32,
    pub rope_freq_base: u32,
    pub rms_eps: u32,
    pub n_lora_q: u32,
    pub n_kv_lora: u32,
    pub qk_nope: u32,
    pub qk_rope: u32,
    pub value_mla: u32,
    pub rope_orig_ctx: u32,
    /// Rotary width; less than `head_dim` for partial rotary.
    pub rot_dim: u32,
    pub n_idx_head: u32,
    pub n_idx_dim: u32,
    pub n_idx_topk: u32,
    pub rope_scale_factor: u32,
    pub rope_yarn_log_mult: u32,
}

/// Why the header describes no model that can run.
#[derive(Debug)]
pub enum ShapeError {
    /// This metadata is missing or has the wrong type.
    Meta(&'static str),
    /// The architecture is not one of those supported.
    Architecture(Option<String>),
}

/// The message for metadata that is missing or has the wrong type.
pub fn meta_err(key: &str) -> (s: String)
    ensures
        s@ == "gguf metadata missing/bad: "@ + key@,
{
    let mut s: String = String::from_str("gguf metadata missing/bad: ");
    s.append(key);
    s
}

/// The family of an architecture.
pub open spec fn family_of(arch: Option<Seq<char>>) -> Option<Family> {
    match arch {
        None => None,
        Some(a) => if a == "hy-v3"@ || a == "hy_v3"@ || a == "minimax-m3"@ || a == "minimax-m2"@
            || a == "qwen3moe"@ || a == "gemma4"@ {
            Some(Family::Gqa)
        } else if a == "glm-dsa"@ || a == "glm_dsa"@ || a == "deepseek2"@ {
            Some(Family::Mla)
        } else {
            None
        },
    }
}

/// The unsigned value under `k`, cut to 32 bits.
pub open spec fn u(g: &Gguf, k: Seq<char>) -> Option<u32> {
    match g.arch_unsigned(k) {
        Some(v) => Some(v as u32),
        None => None,
    }
}

/// `v`, or `d` when there is none.
pub open spec fn or(v: Option<u32>, d: u32) -> u32 {
    match v {
        Some(x) => x,
        None => d,
    }
}

/// The largest unsigned item of a list.
pub open spec fn largest(items: Seq<MetaValue>) -> Option<u64>
    decreases items.len(),
{
    if items.len() == 0 {
        None
    } else {
        match (largest(items.drop_last()), items.last().unsigned) {
            (None, x) => x,
            (m, None) => m,
            (Some(m), Some(x)) => if x >= m {
                Some(x)
            } else {
                Some(m)
            },
        }
    }
}

/// Whether `n` is the largest unsigned item of a list, cut to 32 bits.
pub open spec fn is_largest(items: Seq<MetaValue>, n: u32) -> bool {
    exists|k: int|
        {
            &&& 0 <= k < items.len()
            &&& (#[trigger] items[k]).unsigned matches Some(m) && n == m as u32 && forall|i: int|
                0 <= i < items.len() ==> ((#[trigger] items[i]).unsigned matches Some(x) ==> x <= m)
        }
}

proof fn largest_is_largest(items: Seq<MetaValue>)
    ensures
        match largest(items) {
            Some(m) => {
                &&& is_largest(items, m as u32)
                &&& exists|k: int|
                    0 <= k < items.len() && (#[trigger] items[k]).unsigned == Some(m)
                &&& forall|i: int|
                    0 <= i < items.len() ==> ((#[trigger] items[i]).unsigned matches Some(x) ==> x
                        <= m)
            },
            None => forall|i: int|
                0 <= i < items.len() ==> (#[trigger] items[i]).unsigned is None,
        },
    decreases items.len(),
{
    if items.len() > 0 {
        let rest = items.drop_last();
        largest_is_largest(rest);
        let n = items.len() - 1;
        assert forall|i: int| 0 <= i < n implies #[trigger] items[i] == rest[i] by {}
        match largest(items) {
            Some(m) => {
                if items[n].unsigned == Some(m) {
                } else {
                    let k = choose|k: int|
                        0 <= k < rest.len() && (#[trigger] rest[k]).unsigned == Some(m);
                    assert(items[k].unsigned == Some(m));
                }
                assert forall|i: int| 0 <= i < items.len() implies ((
                #[trigger] items[i]).unsigned matches Some(x) ==> x <= m) by {
                    if i < n {
                        assert(items[i] == rest[i]);
                    }
                }
            },
            None => {
                assert forall|i: int| 0 <= i < items.len() implies (
                #[trigger] items[i]).unsigned is None by {
                    if i < n {
                        assert(items[i] == rest[i]);
                    }
                }
            },
        }
    }
}

/// KV heads: one number, or the largest of one per layer, or 1.
pub open spec fn kv_heads(g: &Gguf) -> u32 {
    match u(g, "attention.head_count_kv"@) {
        Some(v) => v,
        None => match g.arch_value("attention.head_count_kv"@) {
            Some(v) => match v.items {
                Some(a) => match largest(a@) {
                    Some(m) => m as u32,
                    None => 1,
                },
                None => 1,
            },
            None => 1,
        },
    }
}

/// The name of a tensor of layer `il`.
pub open spec fn layer_tensor(il: nat, suffix: Seq<char>) -> Seq<char> {
    "blk."@ + decimal(il) + "."@ + suffix
}

/// Whether layer `il` has routed experts.
pub open spec fn has_experts(g: &Gguf, il: nat) -> bool {
    g.has_tensor(layer_tensor(il, "ffn_gate_exps.weight"@)) || g.has_tensor(
        layer_tensor(il, "ffn_gate_up_exps.weight"@),
    )
}

/// The first of the layers `il..n` with routed experts.
pub open spec fn first_moe(g: &Gguf, il: nat, n: nat) -> Option<nat>
    decreases n - il,
{
    if il >= n {
        None
    } else if has_experts(g, il) {
        Some(il)
    } else {
        first_moe(g, il + 1, n)
    }
}

proof fn first_moe_is_first(g: &Gguf, il: nat, n: nat)
    ensures
        match first_moe(g, il, n) {
            Some(k) => {
                &&& il <= k < n
                &&& has_experts(g, k)
                &&& forall|j: nat| il <= j < k ==> !#[trigger] has_experts(g, j)
                &&& forall|j: nat|
                    il <= j < k ==> !g.has_tensor(
                        #[trigger] layer_tensor(j, "ffn_gate_exps.weight"@),
                    )
                &&& forall|j: nat|
                    il <= j < k ==> !g.has_tensor(
                        #[trigger] layer_tensor(j, "ffn_gate_up_exps.weight"@),
                    )
            },
            None => forall|j: nat| il <= j < n ==> !#[trigger] has_experts(g, j),
        },
    decreases n - il,
{
    if il < n && !has_experts(g, il) {
        first_moe_is_first(g, il + 1, n);
    }
}

proof fn distinct_names()
    ensures
        "hy-v3"@.len() == 5,
        "hy_v3"@.len() == 5,
        "minimax-m3"@.len() == 10,
        "minimax-m2"@.len() == 10,
        "qwen3moe"@.len() == 8,
        "gemma4"@.len() == 6,
        "glm-dsa"@.len() == 7,
        "glm_dsa"@.len() == 7,
        "deepseek2"@.len() == 9,
{
    reveal_strlit("hy-v3");
    reveal_strlit("hy_v3");
    reveal_strlit("minimax-m3");
    reveal_strlit("minimax-m2");
    reveal_strlit("qwen3moe");
    reveal_strlit("gemma4");
    reveal_strlit("glm-dsa");
    reveal_strlit("glm_dsa");
    reveal_strlit("deepseek2");
}

/// Leading dense layers: as stated, or up to the first with routed experts.
pub open spec fn leading_dense(g: &Gguf) -> Option<u32> {
    match u(g, "leading_dense_block_count"@) {
        Some(v) => Some(v),
        None => match first_moe(g, 0, or(u(g, "block_count"@), 0) as nat) {
            Some(il) => Some(il as u32),
            None => None,
        },
    }
}

/// The first thing that is wrong up to where the layer count is worked out.
pub open spec fn early_fault(g: &Gguf) -> Option<Seq<char>> {
    if u(g, "block_count"@) is None {
        Some("block_count"@)
    } else if g.items("tokenizer.ggml.tokens"@) is None {
        Some("tokenizer.ggml.tokens"@)
    } else if u(g, "embedding_length"@) is None {
        Some("embedding_length"@)
    } else if u(g, "attention.head_count"@) is None {
        Some("attention.head_count"@)
    } else if u(g, "attention.key_length"@) is None {
        Some("attention.key_length"@)
    } else {
        None
    }
}

/// The first thing that is wrong with the metadata.
pub open spec fn fault(g: &Gguf) -> Option<Seq<char>> {
    if early_fault(g) is Some {
        early_fault(g)
    } else if leading_dense(g) is None {
        Some("no MoE layers found"@)
    } else if u(g, "expert_count"@) is None {
        Some("expert_count"@)
    } else if u(g, "expert_used_count"@) is None {
        Some("expert_used_count"@)
    } else if u(g, "expert_feed_forward_length"@) is None {
        Some("expert_feed_forward_length"@)
    } else if u(g, "feed_forward_length"@) is None {
        Some("feed_forward_length"@)
    } else if g.arch_real("rope.freq_base"@) is None {
        Some("rope.freq_base"@)
    } else if g.arch_real("attention.layer_norm_rms_epsilon"@) is None {
        Some("attention.layer_norm_rms_epsilon"@)
    } else {
        None
    }
}

/// Layers that only predict further tokens.
pub open spec fn nextn(g: &Gguf) -> u32 {
    or(u(g, "nextn_predict_layers"@), 0)
}

/// Per-head query width of latent attention.
pub open spec fn mla_key(g: &Gguf) -> u32 {
    or(u(g, "attention.key_length_mla"@), 256)
}

/// The rotary part of it.
pub open spec fn mla_rope(g: &Gguf) -> u32 {
    or(u(g, "rope.dimension_count"@), 64)
}

/// The first key whose value is too large or too small for what is subtracted
/// from it, in a header that lacks nothing.
pub open spec fn width_fault(g: &Gguf) -> Option<Seq<char>> {
    if nextn(g) > u(g, "block_count"@)->0 {
        Some("nextn_predict_layers"@)
    } else if family_of(g.arch()) == Some(Family::Mla) && mla_rope(g) > mla_key(g) {
        Some("attention.key_length_mla"@)
    } else {
        None
    }
}

/// The shape that a faultless header describes.
pub open spec fn shape_of(g: &Gguf) -> Shape {
    let arch = g.arch()->0;
    let family = family_of(g.arch())->0;
    let mla = family == Family::Mla;
    let n_layer = u(g, "block_count"@)->0;
    let head_dim = u(g, "attention.key_length"@)->0;
    Shape {
        family,
        n_embd: u(g, "embedding_length"@)->0,
        n_head: u(g, "attention.head_count"@)->0,
        n_head_kv: kv_heads(g),
        head_dim,
        n_layer,
        n_exec_layer: (n_layer - nextn(g)) as u32,
        n_leading_dense: leading_dense(g)->0,
        n_expert: u(g, "expert_count"@)->0,
        n_expert_used: u(g, "expert_used_count"@)->0,
        n_ff_exp: u(g, "expert_feed_forward_length"@)->0,
        n_ff_dense: u(g, "feed_forward_length"@)->0,
        n_vocab: g.items("tokenizer.ggml.tokens"@)->0.len() as u32,
        expert_weight_scale: or(g.arch_real("expert_weights_scale"@), ONE_BITS),
        router_softmax: arch == "qwen3moe"@ || arch == "gemma4"@,
        moe_act_op: if arch == "gemma4"@ {
            1
        } else if arch == "minimax-m3"@ {
            2
        } else {
            0
        },
        rope_freq_base: g.arch_real("rope.freq_base"@)->0,
        rms_eps: g.arch_real("attention.layer_norm_rms_epsilon"@)->0,
        n_lora_q: if mla {
            or(u(g, "attention.q_lora_rank"@), 2048)
        } else {
            0
        },
        n_kv_lora: if mla {
            or(u(g, "attention.kv_lora_rank"@), 512)
        } else {
            0
        },
        qk_nope: if mla {
            (mla_key(g) - mla_rope(g)) as u32
        } else {
            0
        },
        qk_rope: if mla {
            mla_rope(g)
        } else {
            0
        },
        value_mla: if mla {
            or(u(g, "attention.value_length_mla"@), 256)
        } else {
            0
        },
        rope_orig_ctx: if mla {
            or(u(g, "rope.scaling.original_context_length"@), 1_048_576)
        } else {
            0
        },
        rot_dim: if mla {
            0
        } else {
            or(u(g, "rope.dimension_count"@), head_dim)
        },
        n_idx_head: if mla {
            or(u(g, "attention.indexer.head_count"@), 0)
        } else {
            0
        },
        n_idx_dim: if mla {
            or(u(g, "attention.indexer.key_length"@), 0)
        } else {
            0
        },
        n_idx_topk: if mla {
            or(u(g, "attention.indexer.top_k"@), 0)
        } else {
            0
        },
        rope_scale_factor: if mla {
            or(g.arch_real("rope.scaling.factor"@), ONE_BITS)
        } else {
            ONE_BITS
        },
        rope_yarn_log_mult: if mla {
            or(g.arch_real("rope.scaling.yarn_log_multiplier"@), 0)
        } else {
            0
        },
    }
}

fn get_u(g: &Gguf, k: &str) -> (r: Option<u32>)
    ensures
        r == u(g, k@),
{
    match g.arch_meta(k) {
        Some(v) => match v.unsigned {
            Some(x) => Some(x as u32),
            None => None,
        },
        None => None,
    }
}

fn get_f(g: &Gguf, k: &str) -> (r: Option<u32>)
    ensures
        r == g.arch_real(k@),
{
    match g.arch_meta(k) {
        Some(v) => v.real,
        None => None,
    }
}

fn get_largest(items: &Vec<MetaValue>) -> (r: Option<u64>)
    ensures
        r == largest(items@),
{
    let mut m: Option<u64> = None;
    let mut i: usize = 0;
    assert(items@.take(0) =~= Seq::empty());
    while i < items.len()
        invariant
            i <= items@.len(),
            m == largest(items@.take(i as int)),
        decreases items@.len() - i,
    {
        assert(items@.take(i + 1).drop_last() =~= items@.take(i as int));
        match (m, items[i].unsigned) {
            (None, x) => {
                m = x;
            },
            (Some(_), None) => {},
            (Some(a), Some(x)) => {
                if x >= a {
                    m = Some(x);
                }
            },
        }
        i += 1;
    }
    assert(items@.take(i as int) =~= items@);
    m
}

fn get_kv_heads(g: &Gguf) -> (n: u32)
    ensures
        n == kv_heads(g),
{
    match get_u(g, "attention.head_count_kv") {
        Some(v) => v,
        None => match g.arch_meta("attention.head_count_kv") {
            Some(v) => match &v.items {
                Some(a) => match get_largest(a) {
                    Some(m) => m as u32,
                    None => 1,
                },
                None => 1,
            },
            None => 1,
        },
    }
}

/// Names a tensor of layer `il`.
pub fn layer_name(il: u32, suffix: &str) -> (s: String)
    ensures
        s@ == layer_tensor(il as nat, suffix@),
        s@ == "blk."@ + decimal(il as nat) + "."@ + suffix@,
{
    let mut s: String = String::from_str("blk.");
    push_decimal(&mut s, il as u64);
    s.append(".");
    s.append(suffix);
    s
}

fn find_first_moe(g: &Gguf, n: u32) -> (r: Option<u32>)
    ensures
        match r {
            Some(il) => first_moe(g, 0, n as nat) == Some(il as nat),
            None => first_moe(g, 0, n as nat) is None,
        },
{
    let mut il: u32 = 0;
    while il < n
        invariant
            il <= n,
            first_moe(g, 0, n as nat) == first_moe(g, il as nat, n as nat),
        decreases n - il,
    {
        let a: String = layer_name(il, "ffn_gate_exps.weight");
        let b: String = layer_name(il, "ffn_gate_up_exps.weight");
        if g.tensor(a.as_str()).is_some() || g.tensor(b.as_str()).is_some() {
            return Some(il);
        }
        il += 1;
    }
    None
}

fn get_family(a: &str) -> (r: Option<Family>)
    ensures
        r == family_of(Some(a@)),
{
    if same_text(a, "hy-v3") || same_text(a, "hy_v3") || same_text(a, "minimax-m3") || same_text(
        a,
        "minimax-m2",
    ) || same_text(a, "qwen3moe") || same_text(a, "gemma4") {
        Some(Family::Gqa)
    } else if same_text(a, "glm-dsa") || same_text(a, "glm_dsa") || same_text(a, "deepseek2") {
        Some(Family::Mla)
    } else {
        None
    }
}

impl Shape {
    /// Reads the dimensions from a header. Fails on the architecture first,
    /// then on the first value that is missing, then on widths that do not go
    /// together.
    #[verifier::rlimit(30)]
    pub fn from_gguf(g: &Gguf) -> (r: Result<Shape, ShapeError>)
        ensures
            match r {
                Ok(s) => {
                    &&& family_of(g.arch()) is Some
                    &&& fault(g) is None
                    &&& width_fault(g) is None
                    &&& s == shape_of(g)
                },
                Err(ShapeError::Architecture(a)) => {
                    &&& family_of(g.arch()) is None
                    &&& crate::gguf::text_view(a) == g.arch()
                },
                Err(ShapeError::Meta(k)) => {
                    &&& family_of(g.arch()) is Some
                    &&& match fault(g) {
                        Some(missing) => k@ == missing,
                        None => width_fault(g) == Some(k@),
                    }
                },
            },
            // What every accepted header states is what the shape holds.
            r matches Ok(s) ==> {
                &&& g.arch_unsigned("embedding_length"@) matches Some(v) && s.n_embd == v as u32
                &&& g.arch_unsigned("attention.head_count"@) matches Some(v) && s.n_head == v as u32
                &&& g.arch_unsigned("attention.key_length"@) matches Some(v) && s.head_dim == v as u32
                &&& g.arch_unsigned("block_count"@) matches Some(v) && s.n_layer == v as u32
                &&& g.arch_unsigned("expert_count"@) matches Some(v) && s.n_expert == v as u32
                &&& g.arch_unsigned("expert_used_count"@) matches Some(v) && s.n_expert_used == v as u32
                &&& g.arch_unsigned("expert_feed_forward_length"@) matches Some(v) && s.n_ff_exp == v as u32
                &&& g.arch_unsigned("feed_forward_length"@) matches Some(v) && s.n_ff_dense == v as u32
                &&& g.arch_real("rope.freq_base"@) == Some(s.rope_freq_base)
                &&& g.arch_real("attention.layer_norm_rms_epsilon"@) == Some(s.rms_eps)
                &&& g.items("tokenizer.ggml.tokens"@) matches Some(a) && s.n_vocab == a.len() as u32
                &&& match g.arch_real("expert_weights_scale"@) {
                    Some(x) => s.expert_weight_scale == x,
                    None => s.expert_weight_scale == 0x3f80_0000,
                }
                &&& match g.arch_unsigned("nextn_predict_layers"@) {
                    Some(v) => s.n_exec_layer + (v as u32) == s.n_layer,
                    None => s.n_exec_layer == s.n_layer,
                }
            },
            // Latent attention has widths of its own.
            r matches Ok(s) ==> s.family == Family::Mla ==> {
                &&& match g.arch_unsigned("attention.q_lora_rank"@) {
                    Some(v) => s.n_lora_q == v as u32,
                    None => s.n_lora_q == 2048,
                }
                &&& match g.arch_unsigned("attention.kv_lora_rank"@) {
                    Some(v) => s.n_kv_lora == v as u32,
                    None => s.n_kv_lora == 512,
                }
                &&& match g.arch_unsigned("rope.dimension_count"@) {
                    Some(v) => s.qk_rope == v as u32,
                    None => s.qk_rope == 64,
                }
                &&& match g.arch_unsigned("attention.key_length_mla"@) {
                    Some(v) => s.qk_nope + s.qk_rope == v as u32,
                    None => s.qk_nope + s.qk_rope == 256,
                }
                &&& match g.arch_unsigned("attention.value_length_mla"@) {
                    Some(v) => s.value_mla == v as u32,
                    None => s.value_mla == 256,
                }
                &&& match g.arch_unsigned("rope.scaling.original_context_length"@) {
                    Some(v) => s.rope_orig_ctx == v as u32,
                    None => s.rope_orig_ctx == 1_048_576,
                }
                &&& match g.arch_unsigned("attention.indexer.head_count"@) {
                    Some(v) => s.n_idx_head == v as u32,
                    None => s.n_idx_head == 0,
                }
                &&& match g.arch_unsigned("attention.indexer.key_length"@) {
                    Some(v) => s.n_idx_dim == v as u32,
                    None => s.n_idx_dim == 0,
                }
                &&& match g.arch_unsigned("attention.indexer.top_k"@) {
                    Some(v) => s.n_idx_topk == v as u32,
                    None => s.n_idx_topk == 0,
                }
                &&& match g.arch_real("rope.scaling.factor"@) {
                    Some(x) => s.rope_scale_factor == x,
                    None => s.rope_scale_factor == 0x3f80_0000,
                }
                &&& match g.arch_real("rope.scaling.yarn_log_multiplier"@) {
                    Some(x) => s.rope_yarn_log_mult == x,
                    None => s.rope_yarn_log_mult == 0,
                }
                &&& s.rot_dim == 0
            },
            // Grouped-query attention has a rotary width.
            r matches Ok(s) ==> s.family == Family::Gqa ==> {
                &&& match g.arch_unsigned("rope.dimension_count"@) {
                    Some(v) => s.rot_dim == v as u32,
                    None => s.rot_dim == s.head_dim,
                }
                &&& s.n_lora_q == 0 && s.n_kv_lora == 0 && s.qk_nope == 0 && s.qk_rope == 0
                &&& s.value_mla == 0 && s.rope_orig_ctx == 0
                &&& s.n_idx_head == 0 && s.n_idx_dim == 0 && s.n_idx_topk == 0
                &&& s.rope_scale_factor == 0x3f80_0000 && s.rope_yarn_log_mult == 0
            },
            // The architecture decides the family, the router and the activation.
            r matches Ok(s) ==> g.arch() is Some && {
                let a = g.arch()->0;
                &&& s.family == Family::Mla <==> a == "glm-dsa"@ || a == "glm_dsa"@ || a
                    == "deepseek2"@
                &&& s.family == Family::Gqa <==> a == "hy-v3"@ || a == "hy_v3"@ || a
                    == "minimax-m3"@ || a == "minimax-m2"@ || a == "qwen3moe"@ || a == "gemma4"@
                &&& s.router_softmax <==> a == "qwen3moe"@ || a == "gemma4"@
                &&& s.moe_act_op == 1 <==> a == "gemma4"@
                &&& s.moe_act_op == 2 <==> a == "minimax-m3"@
                &&& s.moe_act_op <= 2
            },
            // KV heads: one number, or the largest of those listed, or one.
            r matches Ok(s) ==> match (
                g.arch_unsigned("attention.head_count_kv"@),
                g.arch_value("attention.head_count_kv"@),
            ) {
                (Some(v), _) => s.n_head_kv == v as u32,
                (None, Some(v)) => v.items matches Some(a) ==> {
                    ||| is_largest(a@, s.n_head_kv)
                    ||| s.n_head_kv == 1 && forall|i: int|
                        0 <= i < a@.len() ==> (#[trigger] a@[i]).unsigned is None
                },
                (None, None) => s.n_head_kv == 1,
            },
            r matches Ok(s) ==> g.arch_unsigned("attention.head_count_kv"@) is None && (g.arch_value(
                "attention.head_count_kv"@,
            ) matches Some(v) ==> v.items is None) ==> s.n_head_kv == 1,
            // Leading dense layers: as stated, or those before the first with experts.
            r matches Ok(s) ==> match g.arch_unsigned("leading_dense_block_count"@) {
                Some(v) => s.n_leading_dense == v as u32,
                None => {
                    &&& s.n_leading_dense < s.n_layer
                    &&& g.has_tensor(
                        layer_tensor(s.n_leading_dense as nat, "ffn_gate_exps.weight"@),
                    ) || g.has_tensor(
                        layer_tensor(s.n_leading_dense as nat, "ffn_gate_up_exps.weight"@),
                    )
                    &&& forall|il: nat|
                        il < s.n_leading_dense ==> !g.has_tensor(
                            #[trigger] layer_tensor(il, "ffn_gate_exps.weight"@),
                        )
                    &&& forall|il: nat|
                        il < s.n_leading_dense ==> !g.has_tensor(
                            #[trigger] layer_tensor(il, "ffn_gate_up_exps.weight"@),
                        )
                },
            },
            r matches Err(ShapeError::Architecture(_)) ==> g.arch() is Some ==> {
                let a = g.arch()->0;
                &&& a != "glm-dsa"@ && a != "glm_dsa"@ && a != "deepseek2"@
                &&& a != "hy-v3"@ && a != "hy_v3"@ && a != "minimax-m3"@ && a != "minimax-m2"@
                &&& a != "qwen3moe"@ && a != "gemma4"@
            },
            // A header is turned away only for what it lacks or what does not fit.
            r matches Err(ShapeError::Meta(k)) ==> {
                ||| k@ == "tokenizer.ggml.tokens"@ && g.items(k@) is None
                ||| (k@ == "rope.freq_base"@ || k@ == "attention.layer_norm_rms_epsilon"@)
                    && g.arch_real(k@) is None
                ||| (k@ == "block_count"@ || k@ == "embedding_length"@ || k@
                    == "attention.head_count"@ || k@ == "attention.key_length"@ || k@
                    == "expert_count"@ || k@ == "expert_used_count"@ || k@
                    == "expert_feed_forward_length"@ || k@ == "feed_forward_length"@)
                    && g.arch_unsigned(k@) is None
                ||| k@ == "no MoE layers found"@ && g.arch_unsigned("leading_dense_block_count"@)
                    is None && forall|il: nat|
                    il < (g.arch_unsigned("block_count"@)->0 as u32) ==> !#[trigger] has_experts(
                        g,
                        il,
                    )
                ||| k@ == "nextn_predict_layers"@ && g.arch_unsigned(k@) is Some && (
                g.arch_unsigned(k@)->0 as u32) > (g.arch_unsigned("block_count"@)->0 as u32)
                ||| k@ == "attention.key_length_mla"@ && {
                    let key = match g.arch_unsigned("attention.key_length_mla"@) {
                        Some(v) => v as u32,
                        None => 256,
                    };
                    let rope = match g.arch_unsigned("rope.dimension_count"@) {
                        Some(v) => v as u32,
                        None => 64,
                    };
                    rope > key
                }
            },
    {
        let r: Result<Shape, ShapeError> = Shape::read(g);
        proof {
            distinct_names();
            first_moe_is_first(g, 0, or(u(g, "block_count"@), 0) as nat);
            let listed = g.arch_value("attention.head_count_kv"@);
            if listed is Some && listed->0.items is Some {
                largest_is_largest(listed->0.items->0@);
            }
        }
        r
    }

    fn read(g: &Gguf) -> (r: Result<Shape, ShapeError>)
        ensures
            match r {
                Ok(s) => {
                    &&& family_of(g.arch()) is Some
                    &&& fault(g) is None
                    &&& width_fault(g) is None
                    &&& s == shape_of(g)
                },
                Err(ShapeError::Architecture(a)) => {
                    &&& family_of(g.arch()) is None
                    &&& crate::gguf::text_view(a) == g.arch()
                },
                Err(ShapeError::Meta(k)) => {
                    &&& family_of(g.arch()) is Some
                    &&& match fault(g) {
                        Some(missing) => k@ == missing,
                        None => width_fault(g) == Some(k@),
                    }
                },
            },
    {
        let arch: &str = match &g.architecture {
            Some(a) => a.as_str(),
            None => return Err(ShapeError::Architecture(None)),
        };
        let family: Family = match get_family(arch) {
            Some(f) => f,
            None => return Err(ShapeError::Architecture(Some(String::from_str(arch)))),
        };
        let n_layer: u32 = match get_u(g, "block_count") {
            Some(v) => v,
            None => return Err(ShapeError::Meta("block_count")),
        };
        let nextn: u32 = get_u(g, "nextn_predict_layers").unwrap_or(0);
        let n_vocab: u32 = match g.get_items("tokenizer.ggml.tokens") {
            Some(a) => a.len() as u32,
            None => return Err(ShapeError::Meta("tokenizer.ggml.tokens")),
        };
        let n_embd: u32 = match get_u(g, "embedding_length") {
            Some(v) => v,
            None => return Err(ShapeError::Meta("embedding_length")),
        };
        let n_head: u32 = match get_u(g, "attention.head_count") {
            Some(v) => v,
            None => return Err(ShapeError::Meta("attention.head_count")),
        };
        let n_head_kv: u32 = get_kv_heads(g);
        let head_dim: u32 = match get_u(g, "attention.key_length") {
            Some(v) => v,
            None => return Err(ShapeError::Meta("attention.key_length")),
        };
        let n_leading_dense: u32 = match get_u(g, "leading_dense_block_count") {
            Some(v) => v,
            None => match find_first_moe(g, n_layer) {
                Some(il) => il,
                None => return Err(ShapeError::Meta("no MoE layers found")),
            },
        };
        let n_expert: u32 = match get_u(g, "expert_count") {
            Some(v) => v,
            None => return Err(ShapeError::Meta("expert_count")),
        };
        let n_expert_used: u32 = match get_u(g, "expert_used_count") {
            Some(v) => v,
            None => return Err(ShapeError::Meta("expert_used_count")),
        };
        let n_ff_exp: u32 = match get_u(g, "expert_feed_forward_length") {
            Some(v) => v,
            None => return Err(ShapeError::Meta("expert_feed_forward_length")),
        };
        let n_ff_dense: u32 = match get_u(g, "feed_forward_length") {
            Some(v) => v,
            None => return Err(ShapeError::Meta("feed_forward_length")),
        };
        let gemma: bool = same_text(arch, "gemma4");
        let rope_freq_base: u32 = match get_f(g, "rope.freq_base") {
            Some(v) => v,
            None => return Err(ShapeError::Meta("rope.freq_base")),
        };
        let rms_eps: u32 = match get_f(g, "attention.layer_norm_rms_epsilon") {
            Some(v) => v,
            None => return Err(ShapeError::Meta("attention.layer_norm_rms_epsilon")),
        };
        if nextn > n_layer {
            return Err(ShapeError::Meta("nextn_predict_layers"));
        }
        let n_exec_layer: u32 = n_layer - nextn;
        let mut s: Shape = Shape {
            family,
            n_embd,
            n_head,
            n_head_kv,
            head_dim,
            n_layer,
            n_exec_layer,
            n_leading_dense,
            n_expert,
            n_expert_used,
            n_ff_exp,
            n_ff_dense,
            n_vocab,
            expert_weight_scale: get_f(g, "expert_weights_scale").unwrap_or(ONE_BITS),
            router_softmax: gemma || same_text(arch, "qwen3moe"),
            moe_act_op: if gemma {
                1
            } else if same_text(arch, "minimax-m3") {
                2
            } else {
                0
            },
            rope_freq_base,
            rms_eps,
            n_lora_q: 0,
            n_kv_lora: 0,
            qk_nope: 0,
            qk_rope: 0,
            value_mla: 0,
            rope_orig_ctx: 0,
            rot_dim: 0,
            n_idx_head: 0,
            n_idx_dim: 0,
            n_idx_topk: 0,
            rope_scale_factor: ONE_BITS,
            rope_yarn_log_mult: 0,
        };
        if family == Family::Gqa {
            s.rot_dim = get_u(g, "rope.dimension_count").unwrap_or(head_dim);
        } else {
            s.n_lora_q = get_u(g, "attention.q_lora_rank").unwrap_or(2048);
            s.n_kv_lora = get_u(g, "attention.kv_lora_rank").unwrap_or(512);
            s.qk_rope = get_u(g, "rope.dimension_count").unwrap_or(64);
            let qk_mla: u32 = get_u(g, "attention.key_length_mla").unwrap_or(256);
            if s.qk_rope > qk_mla {
                return Err(ShapeError::Meta("attention.key_length_mla"));
            }
            s.qk_nope = qk_mla - s.qk_rope;
            s.value_mla = get_u(g, "attention.value_length_mla").unwrap_or(256);
            s.rope_orig_ctx = get_u(g, "rope.scaling.original_context_length").unwrap_or(1_048_576);
            s.n_idx_head = get_u(g, "attention.indexer.head_count").unwrap_or(0);
            s.n_idx_dim = get_u(g, "attention.indexer.key_length").unwrap_or(0);
            s.n_idx_topk = get_u(g, "attention.indexer.top_k").unwrap_or(0);
            s.rope_scale_factor = get_f(g, "rope.scaling.factor").unwrap_or(ONE_BITS);
            s.rope_yarn_log_mult = get_f(g, "rope.scaling.yarn_log_multiplier").unwrap_or(0);
        }
        Ok(s)
    }

    /// Per-head query width.
    pub fn qk_dim(&self) -> (n: u32)
        requires
            self.qk_nope + self.qk_rope <= u32::MAX,
        ensures
            n == self.qk_nope + self.qk_rope,
    {
        self.qk_nope + self.qk_rope
    }

    /// Attention output width.
    pub open spec fn heads_width(self) -> int {
        match self.family {
            Family::Gqa => self.n_head * self.head_dim,
            Family::Mla => self.n_head * self.value_mla,
        }
    }

    /// Attention output width, the input of the output projection.
    pub fn heads_dim(&self) -> (n: u32)
        requires
            self.heads_width() <= u32::MAX,
        ensures
            n == self.heads_width(),
    {
        match self.family {
            Family::Gqa => self.n_head * self.head_dim,
            Family::Mla => self.n_head * self.value_mla,
        }
    }
}

/// For latent attention, the query width is the one the header states.
pub proof fn query_width_as_stated(g: &Gguf)
    requires
        width_fault(g) is None,
        family_of(g.arch()) == Some(Family::Mla),
        fault(g) is None,
    ensures
        shape_of(g).qk_nope + shape_of(g).qk_rope == mla_key(g),
{
}

} // verus!
