use pulsar::attention::{
    layer_heads, select_rows, stage_of, AttnStage, Rows, Selection, SelectionMissing,
};
use pulsar::buffers::{buffer_bytes, buffer_room, max_slab, partial_bytes, uses_full_indexer, Buffer, Sizing};
use pulsar::device::{
    alloc_bytes, check, check_rt, in_range, pick_primary, pinned_alloc, pinned_free, read_gpu,
    row_offset, PinnedPool, Probe,
};
use pulsar::expert::{expert_quant, ExpertTensor};
use pulsar::gguf::{Gguf, TensorInfo, TensorType, MetaValue};
use pulsar::dataflow::{plan_dense_layer, plan_until_experts};
use pulsar::graph::{
    admits, geometry_fits, plan_combine, plan_dense, plan_draft_hidden, plan_draft_pairs,
    plan_gqa, plan_mla, plan_residual, plan_routed, plan_router, plan_shared, plan_tail_copy,
    Device, LayerParts, LayerStep, Op, Weight,
};
use pulsar::hybrid_graph::{hybrid_bytes, hybrid_sizes_fit, plan_hybrid, plan_hybrid_tail, HybridBuffer, HybridOp, HybridWeight};
use pulsar::hybrid::{
    check_hybrid, hybrid_kind, starts_afresh, HybridError, HybridKind, HybridShape,
};
use pulsar::layer::{
    expert_roles, holds_weight, layer_parts, router_bias, weight_role, Bias,
};
use pulsar::loader::{
    attn_need, converts, draft_block, draft_name, draft_residents, head_name, is_gemma,
    layer_geometry, locate_expert, moe_tensors, output_kq, pick_attn_device, plan_layer,
    tensor_name, Draft, ExpertFault, FreeMemory, Geom, LoadMode, Role, Step,
};
use pulsar::prof::{Prof, Times};
use pulsar::settings::{
    attn_budget, batch_size, dev_cache_bytes, host_cache_bytes, mtp_depth, ngram_depth, Staging,
    read_attn_choice, read_available, spec_rows, spend, unified_override, AttnChoice, GIB,
};
use pulsar::shape::{layer_name, meta_err, Family, Shape, ShapeError};
use pulsar::slab_cache::SLAB_SLACK;
use pulsar::tier_graph::{plan_return, plan_tier, TierOp};
use pulsar::tiered::{plan_experts, LayerOp};
use pulsar::tiers::MoeTensors;
use pulsar::vfile::{grow_head, locate, shard_bases, HeadStep};

fn number(n: u64) -> MetaValue {
    MetaValue { unsigned: Some(n), real: None, text: None, flag: None, items: None }
}

fn single(x: f32) -> MetaValue {
    MetaValue { unsigned: None, real: Some(x.to_bits()), text: None, flag: None, items: None }
}

fn flag(b: bool) -> MetaValue {
    MetaValue { unsigned: None, real: None, text: None, flag: Some(b), items: None }
}

fn list(items: Vec<MetaValue>) -> MetaValue {
    MetaValue { unsigned: None, real: None, text: None, flag: None, items: Some(items) }
}

fn tensor(name: &str, ty: TensorType, dims: &[u64], offset: u64, bytes: u64) -> TensorInfo {
    TensorInfo {
        name: name.to_string(),
        ty,
        format_name: "?".to_string(),
        dims: dims.to_vec(),
        offset,
        row_bytes: Some(10),
        byte_size: Some(bytes),
        n_elements: dims.iter().product(),
    }
}

fn header(arch: &str) -> Gguf {
    let mut g = Gguf::new(Some(arch.to_string()), 1000);
    g.set("tokenizer.ggml.tokens".to_string(), list((0..5).map(number).collect()));
    for (k, v) in [
        ("block_count", 4),
        ("nextn_predict_layers", 1),
        ("embedding_length", 64),
        ("attention.head_count", 8),
        ("attention.head_count_kv", 2),
        ("attention.key_length", 16),
        ("leading_dense_block_count", 1),
        ("expert_count", 6),
        ("expert_used_count", 2),
        ("expert_feed_forward_length", 32),
        ("feed_forward_length", 48),
    ] {
        g.set(format!("{arch}.{k}"), number(v));
    }
    g.set(format!("{arch}.rope.freq_base"), single(1e6));
    g.set(format!("{arch}.attention.layer_norm_rms_epsilon"), single(1e-5));
    g
}

#[test]
fn a_plain_shape_is_read() {
    let s = Shape::from_gguf(&header("hy-v3")).ok().unwrap();
    assert_eq!(s.family, Family::Gqa);
    assert_eq!((s.n_layer, s.n_exec_layer, s.n_leading_dense), (4, 3, 1));
    assert_eq!((s.n_vocab, s.n_expert, s.n_expert_used), (5, 6, 2));
    assert_eq!(f32::from_bits(s.expert_weight_scale), 1.0);
    assert_eq!(f32::from_bits(s.rope_freq_base), 1e6);
    assert_eq!((s.rot_dim, s.moe_act_op, s.router_softmax), (16, 0, false));
    assert_eq!((s.qk_dim(), s.heads_dim()), (0, 128));
    let s = Shape::from_gguf(&header("minimax-m3")).ok().unwrap();
    assert_eq!(s.moe_act_op, 2);
    let s = Shape::from_gguf(&header("qwen3moe")).ok().unwrap();
    assert!(s.router_softmax);
}

#[test]
fn a_latent_shape_has_its_defaults() {
    let mut g = header("deepseek2");
    g.set("deepseek2.attention.key_length_mla".to_string(), number(200));
    let s = Shape::from_gguf(&g).ok().unwrap();
    assert_eq!(s.family, Family::Mla);
    assert_eq!((s.qk_rope, s.qk_nope, s.value_mla), (64, 136, 256));
    assert_eq!((s.n_lora_q, s.n_kv_lora, s.rope_orig_ctx), (2048, 512, 1_048_576));
    assert_eq!((s.qk_dim(), s.heads_dim(), s.rot_dim), (200, 2048, 0));
    assert_eq!(f32::from_bits(s.rope_scale_factor), 1.0);
}

#[test]
fn missing_metadata_is_named() {
    assert!(matches!(
        Shape::from_gguf(&Gguf::new(None, 0)),
        Err(ShapeError::Architecture(None))
    ));
    match Shape::from_gguf(&header("llama")) {
        Err(ShapeError::Architecture(Some(a))) => assert_eq!(a, "llama"),
        _ => panic!("an architecture that is not supported"),
    }
    let mut g = header("hy_v3");
    g.set("hy_v3.expert_count".to_string(), single(3.0));
    match Shape::from_gguf(&g) {
        Err(ShapeError::Meta(k)) => assert_eq!(meta_err(k), "gguf metadata missing/bad: expert_count"),
        _ => panic!("a count that is no number"),
    }
}

#[test]
fn widths_that_do_not_go_together_are_named() {
    let fault = |g: &Gguf| match Shape::from_gguf(g) {
        Err(ShapeError::Meta(k)) => k,
        _ => panic!("widths that do not subtract"),
    };
    let mut g = header("hy-v3");
    g.set("hy-v3.nextn_predict_layers".to_string(), number(5));
    assert_eq!(fault(&g), "nextn_predict_layers");
    g.set("hy-v3.nextn_predict_layers".to_string(), number(4));
    assert_eq!(Shape::from_gguf(&g).ok().unwrap().n_exec_layer, 0);
    let mut g = header("deepseek2");
    g.set("deepseek2.attention.key_length_mla".to_string(), number(63));
    assert_eq!(fault(&g), "attention.key_length_mla");
    g.set("deepseek2.attention.key_length_mla".to_string(), number(64));
    assert_eq!(Shape::from_gguf(&g).ok().unwrap().qk_nope, 0);
    // what is missing comes first
    g.set("deepseek2.attention.key_length_mla".to_string(), number(63));
    g.set("deepseek2.expert_count".to_string(), single(3.0));
    assert_eq!(fault(&g), "expert_count");
}

#[test]
fn a_layer_knows_its_weights() {
    let mut g = header("hy-v3");
    let steps = plan_layer(&g, PLAIN, 1);
    assert!(holds_weight(&steps, Role::AttnQ) && !holds_weight(&steps, Role::AttnV));
    let bare = LayerParts { attn_v: false, gemma: false, shexp: false, down_scale: false };
    assert_eq!(layer_parts(&steps, false), bare);
    assert_eq!(router_bias(&steps), Some(Bias::Zero));
    assert_eq!(expert_roles(&steps), Some((Role::GateExps, Some(Role::UpExps))));
    assert_eq!(weight_role(&steps, Role::GateShexp), None);
    assert_eq!(weight_role(&steps, Role::AttnK), Some(Role::AttnK));

    // Gemma's own MLP is its shared expert
    let gemma = plan_layer(&g, LoadMode { gemma: true, ..PLAIN }, 1);
    assert!(layer_parts(&gemma, true).shexp);
    assert_eq!(weight_role(&gemma, Role::UpShexp), Some(Role::FfnUp));

    for name in ["ffn_gate_shexp.weight", "exp_probs_b.bias", "ffn_gate_up_exps.weight"] {
        g.add_tensor(tensor(&format!("blk.1.{name}"), TensorType::Q8_0, &[1, 1], 0, 1));
    }
    let steps = plan_layer(&g, PLAIN, 1);
    assert!(layer_parts(&steps, false).shexp);
    assert_eq!(weight_role(&steps, Role::DownShexp), Some(Role::DownShexp));
    assert_eq!(router_bias(&steps), Some(Bias::Tensor(Role::ProbsBias)));
    assert_eq!(expert_roles(&steps), Some((Role::GateUpExps, None)));
    g.add_tensor(tensor("blk.1.exp_probs_b", TensorType::F32, &[1, 1], 0, 1));
    let steps = plan_layer(&g, PLAIN, 1);
    assert_eq!(router_bias(&steps), Some(Bias::Tensor(Role::ProbsB)));

    let dense = plan_layer(&g, PLAIN, 0);
    assert_eq!((router_bias(&dense), expert_roles(&dense)), (None, None));
}

#[test]
fn dense_layers_and_heads_are_inferred() {
    let mut g = header("gemma4");
    g.set("gemma4.leading_dense_block_count".to_string(), flag(true));
    g.set("gemma4.attention.head_count_kv".to_string(), list(vec![number(2), flag(true), number(8)]));
    match Shape::from_gguf(&g) {
        Err(ShapeError::Meta(k)) => assert_eq!(k, "no MoE layers found"),
        _ => panic!("no experts anywhere"),
    }
    g.add_tensor(tensor("blk.2.ffn_gate_up_exps.weight", TensorType::Q4K, &[1, 1], 0, 1));
    let s = Shape::from_gguf(&g).ok().unwrap();
    assert_eq!((s.n_leading_dense, s.n_head_kv, s.moe_act_op), (2, 8, 1));
    assert_eq!(layer_name(12, "x"), "blk.12.x");
}

const PLAIN: LoadMode = LoadMode {
    family: Family::Gqa,
    n_leading_dense: 1,
    n_idx_topk: 0,
    attn_dev: false,
    gemma: false,
};

#[test]
fn layers_are_loaded_step_by_step() {
    let mut g = header("hy-v3");
    let dense = plan_layer(&g, PLAIN, 0);
    assert_eq!(
        dense,
        vec![
            Step::Device(Role::FfnGate),
            Step::Device(Role::FfnUp),
            Step::Device(Role::FfnDown),
            Step::Large(Role::AttnQ),
            Step::Large(Role::AttnK),
            Step::Device(Role::AttnQNorm),
            Step::Device(Role::AttnKNorm),
            Step::Large(Role::AttnOutput),
            Step::Device(Role::AttnNorm),
            Step::Device(Role::FfnNorm),
        ]
    );
    for t in ["exp_probs_b.bias", "ffn_gate_shexp.weight", "attn_v.weight", "ffn_down_exps.scale"] {
        g.add_tensor(tensor(&format!("blk.1.{t}"), TensorType::F32, &[1], 0, 1));
    }
    let moe = plan_layer(&g, PLAIN, 1);
    assert_eq!(
        moe[..9].to_vec(),
        vec![
            Step::Expert(Role::GateExps),
            Step::Expert(Role::UpExps),
            Step::Device(Role::GateInp),
            Step::Device(Role::ProbsBias),
            Step::Device(Role::GateShexp),
            Step::Device(Role::UpShexp),
            Step::Device(Role::DownShexp),
            Step::Expert(Role::DownExps),
            Step::Device(Role::DownScale),
        ]
    );
    assert!(moe.contains(&Step::Large(Role::AttnV)));
    assert_eq!(plan_layer(&g, PLAIN, 2)[3], Step::ZeroBias);
    assert_eq!(tensor_name(1, Role::ProbsBias), "blk.1.exp_probs_b.bias");
}

#[test]
fn attention_goes_to_its_own_device() {
    let mut g = header("glm-dsa");
    g.add_tensor(tensor("blk.0.indexer.attn_q_b.weight", TensorType::Q8_0, &[1], 0, 1));
    let m = LoadMode { family: Family::Mla, n_idx_topk: 2048, attn_dev: true, ..PLAIN };
    let v = plan_layer(&g, m, 0);
    let a = v.iter().position(|s| *s == Step::ToAttn).unwrap();
    let b = v.iter().position(|s| *s == Step::ToPrimary).unwrap();
    assert_eq!((a, b), (3, 17));
    assert_eq!(v[4], Step::Small(Role::AttnQA));
    assert_eq!(v[11], Step::Device(Role::IndexerQB));
    assert_eq!(v[16], Step::Large(Role::AttnOutput));
    let gemma = plan_layer(&g, LoadMode { gemma: true, ..PLAIN }, 1);
    assert!(gemma.contains(&Step::Host(Role::GateInpScale)));
    assert!(gemma.contains(&Step::HostOrDefault(Role::OutScale)));
    assert!(gemma.contains(&Step::Device(Role::FfnGate)));
}

#[test]
fn expert_tensors_are_located() {
    let mut g = header("hy-v3");
    g.add_tensor(tensor("blk.1.ffn_gate_exps.weight", TensorType::IQ2XXS, &[64, 32, 6], 500, 1920));
    g.add_tensor(tensor("blk.1.ffn_up_exps.weight", TensorType::F32, &[64, 32, 6], 0, 1));
    let x = locate_expert(&g, 1, Role::GateExps).ok().unwrap();
    assert_eq!(x, ExpertTensor { abs_offset: 1500, expert_bytes: 320, row_bytes: 10, quant: 1 });
    assert_eq!(x.slab_of(3).offset, 1500 + 960);
    assert_eq!(locate_expert(&g, 1, Role::UpExps), Err(ExpertFault::Unsupported));
    assert_eq!(locate_expert(&g, 1, Role::DownExps), Err(ExpertFault::Missing));
    let (m, off) = moe_tensors(x, None, x, 32).unwrap();
    assert_eq!((m.up, off), (x, 320));
    assert_eq!(moe_tensors(x, Some(x), x, 32).unwrap().1, 0);
    let huge = ExpertTensor { row_bytes: u64::MAX, ..x };
    assert!(moe_tensors(huge, None, x, 2).is_none());
    assert!(moe_tensors(huge, Some(x), x, 2).is_some());
    assert!(x.holds_all(2) && !ExpertTensor { expert_bytes: u64::MAX, ..x }.holds_all(2));
    let flat = tensor("blk.1.ffn_down_exps.weight", TensorType::Q4K, &[64], 0, 9);
    g.add_tensor(flat);
    assert_eq!(locate_expert(&g, 1, Role::DownExps), Err(ExpertFault::BadSize));
    assert_eq!(expert_quant(TensorType::IQ4XS), Some(11));
    assert_eq!(expert_quant(TensorType::Other), None);
}

#[test]
fn the_head_may_be_tied_and_quantized() {
    let mut g = header("gemma4");
    assert_eq!(head_name(&g), "token_embd.weight");
    let t = tensor("output.weight", TensorType::Q6K, &[64, 5], 0, 9);
    assert_eq!(output_kq(&t, "output.weight"), Some((10, 4)));
    assert!(!converts(&t, "output.weight"));
    assert!(converts(&t, "blk.0.attn_q.weight"));
    let plain = tensor("output.weight", TensorType::Q8_0, &[64], 0, 9);
    assert_eq!(output_kq(&plain, "output.weight"), None);
    // a head tied to the embedding is converted with it
    let tied = tensor("token_embd.weight", TensorType::Q6K, &[64, 5], 0, 9);
    assert!(converts(&tied, "token_embd.weight"));
    assert_eq!(output_kq(&tied, "token_embd.weight"), None);
    g.add_tensor(t);
    assert_eq!(head_name(&g), "output.weight");
    assert!(is_gemma(&g) && !is_gemma(&header("hy-v3")));
}

#[test]
fn the_roomiest_device_takes_attention() {
    let d = |dev: i32, free: usize| FreeMemory { dev, free };
    let devs = [d(0, 900), d(1, 500), d(2, 700), d(3, 700)];
    assert_eq!(pick_attn_device(&devs, 0, 600), Some(2));
    assert_eq!(pick_attn_device(&devs, 0, 701), None);
    let mut g = header("deepseek2");
    g.add_tensor(tensor("blk.0.attn_q_a.weight", TensorType::Q8_0, &[1], 0, 100));
    g.add_tensor(tensor("blk.2.attn_output.weight", TensorType::Q8_0, &[1], 0, 11));
    g.add_tensor(tensor("blk.3.attn_output.weight", TensorType::Q8_0, &[1], 0, 9999));
    let s = Shape::from_gguf(&g).ok().unwrap();
    assert_eq!(attn_need(&g, &s), Some(111 + 3 * 4096 * 576 * 4 + (1 << 30)));
    g.add_tensor(tensor("blk.0.attn_q_b.weight", TensorType::Q8_0, &[1], 0, u64::MAX));
    assert_eq!(attn_need(&g, &s), None);
}

#[test]
fn interleaved_geometry_is_worked_out() {
    let mut g = header("gemma4");
    g.set("gemma4.attention.head_count_kv".to_string(), list(vec![number(2), number(8)]));
    g.set("gemma4.attention.sliding_window_pattern".to_string(), list(vec![flag(true), flag(false)]));
    g.set("gemma4.attention.key_length_swa".to_string(), number(8));
    g.set("gemma4.attention.sliding_window".to_string(), number(1024));
    let v = layer_geometry(&g, 3);
    assert_eq!(
        v[0],
        Geom { n_head_kv: 2, head_dim: 8, theta: 1e4f32.to_bits(), window: 1024, factors: false }
    );
    assert_eq!(
        v[1],
        Geom { n_head_kv: 8, head_dim: 16, theta: 1e6f32.to_bits(), window: 0, factors: true }
    );
    assert_eq!(v[2].n_head_kv, 1);
}

#[test]
fn the_draft_block_is_resident_as_a_whole() {
    let mut g = header("hy-v3");
    assert_eq!(draft_block(&g, 3, Some("1")), Draft::Absent);
    assert_eq!(draft_block(&g, 3, Some("yes")), Draft::Off);
    g.add_tensor(tensor("blk.3.nextn.eh_proj.weight", TensorType::Q8_0, &[1], 0, 1));
    assert_eq!(draft_block(&g, 3, Some("1")), Draft::Load);
    assert_eq!(draft_name(3, "enorm"), "blk.3.nextn.enorm.weight");
    let t = |abs_offset: u64, expert_bytes: u64| ExpertTensor {
        abs_offset,
        expert_bytes,
        row_bytes: 1,
        quant: 0,
    };
    let (v, bytes) =
        draft_residents(&MoeTensors { gate: t(0, 10), up: t(100, 10), down: t(200, 20) }, 2).unwrap();
    let at: Vec<(u64, usize)> = v.iter().map(|p| (p.slab.offset, p.at)).collect();
    assert_eq!(at, vec![(0, 0), (10, 10), (100, 20), (110, 30), (200, 40), (220, 60)]);
    assert_eq!(bytes, 80 + SLAB_SLACK);
    let x = MoeTensors { gate: t(0, 10), up: t(100, 10), down: t(200, u64::MAX) };
    assert!(draft_residents(&x, 2).is_none());
    let x = MoeTensors { gate: t(0, u64::MAX), up: t(0, u64::MAX), down: t(0, 1) };
    assert!(draft_residents(&x, 1).is_none());
}

#[test]
fn steps_and_geometry_are_held_to_the_buffers() {
    let z = sizing();
    let step = |n_tok: u32, pos0: u32| LayerStep { il: 0, n_tok, pos0 };
    assert!(admits(step(4, 124), &z) && !admits(step(4, 125), &z));
    assert!(!admits(step(0, 0), &z) && !admits(step(5, 0), &z));
    assert!(!admits(step(1, u32::MAX), &z));
    let s = Shape::from_gguf(&header("hy-v3")).ok().unwrap();
    let own = Geom { n_head_kv: 2, head_dim: 16, theta: 0, window: 0, factors: false };
    assert!(geometry_fits(&s, &[]) && geometry_fits(&s, &[own, own]));
    assert!(!geometry_fits(&s, &[own, Geom { head_dim: 17, ..own }]));
    assert!(!geometry_fits(&s, &[Geom { n_head_kv: 3, ..own }, own]));
}

#[test]
fn chunk_is_the_largest_whose_staging_fits_a_third() {
    let s = Staging { used: 8, n_expert: 192, slab: 1000 };
    // 8 experts of 3 slabs for each token, 256 bytes of slack
    assert_eq!((s.worst_bytes(1), s.worst_bytes(2)), (24_256, 48_256));
    assert_eq!((s.worst_bytes(24), s.worst_bytes(25)), (576_256, 576_256));
    let third = |bytes: usize| 3 * bytes;
    assert_eq!(batch_size(None, third(48_256), &s, 4096), 2);
    assert_eq!(batch_size(None, third(48_256) - 1, &s, 4096), 1);
    assert_eq!(batch_size(None, third(48_256) + 3, &s, 4096), 2);
    assert_eq!(batch_size(None, third(576_255), &s, 4096), 23);
    // with room for every expert only the context bounds it
    assert_eq!(batch_size(None, third(576_256), &s, 4096), 4096);
    assert_eq!(batch_size(None, third(48_256), &s, 1), 1);
    // where nothing fits, one token at a time
    assert_eq!((batch_size(None, 0, &s, 4096), batch_size(None, 0, &s, 0)), (1, 1));
    assert_eq!((batch_size(Some("0"), 0, &s, 9), batch_size(Some("64"), 0, &s, 9)), (1, 64));
    let wide = Staging { used: u32::MAX, n_expert: u32::MAX, slab: u64::MAX };
    assert_eq!(wide.worst_bytes(u32::MAX), usize::MAX);
    let none = Staging { used: 0, n_expert: 0, slab: 0 };
    assert_eq!((none.worst_bytes(7), batch_size(None, 768, &none, 99)), (256, 99));
}

#[test]
fn settings_have_defaults_and_bounds() {
    assert_eq!(host_cache_bytes(Some("5"), false, None), 5 * GIB);
    assert_eq!(host_cache_bytes(None, false, None), 12 * GIB);
    assert_eq!(host_cache_bytes(Some("x"), true, None), 22 * GIB);
    let info = "MemTotal:       32000000 kB\nMemAvailable:   16777216 kB\n";
    assert_eq!(read_available(info), Some(16777216));
    assert_eq!(host_cache_bytes(None, true, Some(info)), 10 * GIB);
    assert_eq!(host_cache_bytes(None, true, Some("MemAvailable: 1 kB")), 4 * GIB);
    assert_eq!(read_available("MemAvailable:"), None);
    assert_eq!(read_available("x MemAvailable: 5"), None);
    assert_eq!((mtp_depth(false, Some("3")), mtp_depth(true, None)), (0, 1));
    assert_eq!((mtp_depth(true, Some("0")), mtp_depth(true, Some("99"))), (1, 8));
    assert_eq!((ngram_depth(None), ngram_depth(Some("0")), ngram_depth(Some("99"))), (0, 1, 15));
    assert_eq!((spec_rows(0, 0), spec_rows(3, 0), spec_rows(1, 7)), (2, 4, 8));
    assert_eq!(dev_cache_bytes(true, Some("9"), 0, 0), 1);
    assert_eq!(dev_cache_bytes(false, Some("9"), 5, 3), 9 * GIB);
    assert_eq!(dev_cache_bytes(false, None, 8 * GIB, 3 * GIB), 4 * GIB);
    assert_eq!(dev_cache_bytes(false, None, 4 * GIB, 3 * GIB), 0);
    assert_eq!(dev_cache_bytes(false, None, GIB / 2, 0), 0);
    assert_eq!(unified_override(Some("1")), Some(true));
    assert_eq!(unified_override(Some("0")), Some(false));
    assert_eq!(unified_override(Some("maybe")), None);
}

#[test]
fn attention_placement_is_chosen() {
    assert_eq!(read_attn_choice(None, 0, 2), AttnChoice::Auto);
    assert_eq!(read_attn_choice(Some("off"), 0, 2), AttnChoice::Off);
    assert_eq!(read_attn_choice(Some("-1"), 0, 2), AttnChoice::Off);
    assert_eq!(read_attn_choice(Some(" 1\n"), 0, 2), AttnChoice::Device(1));
    assert_eq!(read_attn_choice(Some("0"), 0, 2), AttnChoice::Off);
    assert_eq!(read_attn_choice(Some("2"), 0, 2), AttnChoice::Off);
    assert_eq!(read_attn_choice(Some("one"), 0, 2), AttnChoice::Off);
    let b = attn_budget(None, Family::Mla, false);
    assert_eq!((b.large, b.small), (6 << 30, 0));
    let b = attn_budget(Some("2"), Family::Mla, true);
    assert_eq!((b.large, b.small), (2 << 30, i64::MAX));
    assert_eq!(attn_budget(Some("2"), Family::Gqa, false).large, i64::MAX);
    assert_eq!(spend(100, 60, false), (true, 40));
    assert_eq!(spend(40, 60, false), (false, 40));
    assert_eq!(spend(100, 60, true), (false, 100));
}

fn sizing() -> Sizing {
    Sizing {
        ctx: 128,
        mb: 4,
        spec_rows: 2,
        max_slab: 1000,
        attn_dev: false,
        mtp: true,
        tiers: false,
        head_kq: true,
    }
}

#[test]
fn buffers_have_their_sizes() {
    let s = Shape::from_gguf(&header("hy-v3")).ok().unwrap();
    let z = sizing();
    let bytes = |b: Buffer| buffer_bytes(b, &z, &s, &[]).unwrap();
    assert_eq!(bytes(Buffer::Cur), 4 * 64 * 4);
    assert_eq!(bytes(Buffer::Q), 4 * 8 * 16 * 4);
    assert_eq!(bytes(Buffer::GateAct), 4 * 48 * 4);
    assert_eq!(bytes(Buffer::Staging), 2 * 3 * 1000 + SLAB_SLACK);
    assert_eq!(bytes(Buffer::Kcache(0)), 2 * 128 * 16 * 4);
    assert_eq!(bytes(Buffer::Logits), 2 * 5 * 4);
    assert_eq!(bytes(Buffer::Xq), 292);
    // a row of 64 fills a block of its own
    let room = |b: Buffer| buffer_room(b, &z, &s, &[]).unwrap();
    assert_eq!((room(Buffer::Xq), room(Buffer::Cur)), (4 * 292, bytes(Buffer::Cur)));
    assert_eq!((bytes(Buffer::HeadXq), room(Buffer::HeadXq)), (0, 2 * 292));
    let full = Shape { n_embd: 512, n_ff_exp: 256, ..s };
    for b in [Buffer::Xq, Buffer::Midq, Buffer::HeadXq] {
        assert_eq!(buffer_room(b, &z, &full, &[]), buffer_bytes(b, &z, &full, &[]));
    }
    assert_eq!(bytes(Buffer::MtpX), 4 * 2 * 64 * 4);
    assert_eq!((bytes(Buffer::IdxQ), bytes(Buffer::TierRet)), (4, 4));
    let wide = [Geom { n_head_kv: 8, head_dim: 32, theta: 0, window: 0, factors: false }];
    assert_eq!(buffer_bytes(Buffer::Kcache(0), &z, &s, &wide), Some(8 * 128 * 32 * 4));
    assert_eq!(buffer_bytes(Buffer::Kcache(1), &z, &s, &wide), Some(2 * 128 * 16 * 4));
    let big = Sizing { mb: u32::MAX, ..z };
    assert_eq!(buffer_bytes(Buffer::Cur, &big, &s, &[]), None);
    let t = |expert_bytes: u64| ExpertTensor { abs_offset: 0, expert_bytes, row_bytes: 1, quant: 0 };
    let l = |a: u64, b: u64, c: u64| MoeTensors { gate: t(a), up: t(b), down: t(c) };
    assert_eq!(max_slab(&[l(1, 2, 3), l(9, 2, 1), l(4, 5, 6)]), 9);
    assert_eq!(max_slab(&[]), 0);
    let full: Vec<usize> = (0..16).filter(|&il| uses_full_indexer(il, 3)).collect();
    assert_eq!(full, vec![0, 1, 2, 6, 10, 14]);
}

#[test]
fn rows_are_selected_by_position() {
    let mut last = 0;
    assert_eq!(
        select_rows(2048, 100, false, &mut last),
        Ok(Rows { how: Selection::Range, count: 100 })
    );
    assert_eq!(last, 100);
    last = 0;
    assert_eq!(select_rows(2048, 3000, false, &mut last), Err(SelectionMissing));
    assert_eq!(
        select_rows(2048, 3000, true, &mut last),
        Ok(Rows { how: Selection::Score, count: 2048 })
    );
    assert_eq!(
        select_rows(2048, 3001, false, &mut last),
        Ok(Rows { how: Selection::Reuse, count: 2048 })
    );
    assert_eq!(select_rows(0, 9999, false, &mut last).unwrap().how, Selection::Range);
}

#[test]
fn staging_arenas_take_turns() {
    let mut s = AttnStage::new();
    assert!(!s.ready_for(0, true));
    assert_eq!(s.kick(&[true, false, true], 5), vec![0, 2]);
    assert!(s.ready_for(5, true) && !s.ready_for(5, false) && !s.ready_for(7, true));
    assert!(s.kick(&[false, false], 7).is_empty());
    assert!(!s.ready_for(7, true) && !s.ready_for(5, true));
    assert_eq!((stage_of(4), stage_of(7)), (0, 1));
}

const PARTS: LayerParts = LayerParts {
    attn_v: true,
    gemma: false,
    shexp: true,
    down_scale: false,
};

#[test]
fn a_tier_gets_its_share_and_hands_it_back() {
    let s = Shape::from_gguf(&header("hy-v3")).ok().unwrap();
    let z = Sizing { tiers: true, ..sizing() };
    let t = LayerStep { il: 1, n_tok: 3, pos0: 10 };
    assert_eq!(
        plan_tier(t, &z, &s, &[]),
        vec![
            TierOp::Send { dst: Buffer::TierXin, src: Buffer::Normed, n: 3 * 64 },
            TierOp::Send { dst: Buffer::TierWeights, src: Buffer::RouterWeights, n: 6 },
            TierOp::ToTier,
            TierOp::Pointers,
            TierOp::Quantize { out: Buffer::Xq, x: Buffer::TierXin, dim: 64, rows: 3 },
            TierOp::MoePair,
            TierOp::Quantize {
                out: Buffer::Midq,
                x: Buffer::TierMid,
                dim: s.n_ff_exp,
                rows: 6
            },
            TierOp::MoeDown,
            TierOp::ToPrimary,
        ]
    );
    assert_eq!(
        plan_return(t, &z, &s, &[]),
        vec![
            TierOp::ToTier,
            TierOp::Fetch { dst: Buffer::TierRet, src: Buffer::TierOut, n: 192 },
            TierOp::ToPrimary,
            TierOp::AddTo { out: Buffer::MoeOut, x: Buffer::TierRet, n: 192 },
        ]
    );
    assert_eq!(partial_bytes(3, &s), Some(3 * 2 * 64 * 4));

    // the tiers start first and their sums come last, before everything is combined
    let ops = plan_experts(&[2, 0], t, &z, &s, &[], None, PARTS);
    let mut want = Vec::new();
    for tier in [2, 0] {
        want.extend(plan_tier(t, &z, &s, &[]).into_iter().map(|op| LayerOp::Tier(tier, op)));
    }
    want.extend(plan_routed(t, &z, &s, &[], None).into_iter().map(LayerOp::Here));
    for tier in [2, 0] {
        want.extend(plan_return(t, &z, &s, &[]).into_iter().map(|op| LayerOp::Tier(tier, op)));
    }
    want.extend(plan_combine(t, &z, &s, &[], PARTS).into_iter().map(LayerOp::Here));
    assert_eq!(ops, want);
    let alone = plan_experts(&[], t, &sizing(), &s, &[], Some(4), PARTS);
    assert!(alone.iter().all(|op| matches!(op, LayerOp::Here(_))));
    assert_eq!(alone.len(), 4 + plan_combine(t, &z, &s, &[], PARTS).len());
    let wide = Shape { n_expert_used: u32::MAX, n_embd: u32::MAX, ..s };
    assert_eq!(partial_bytes(u32::MAX, &wide), None);
}

#[test]
fn a_layer_is_a_list_of_launches() {
    let s = Shape::from_gguf(&header("hy-v3")).ok().unwrap();
    let z = sizing();
    let t = LayerStep { il: 1, n_tok: 3, pos0: 10 };
    let ops = plan_gqa(t, &z, &s, &[], PARTS);
    assert_eq!(ops.len(), 12);
    assert_eq!(
        ops[1],
        Op::MatmulQ8 {
            out: Buffer::Q,
            w: Weight::Own(Role::AttnQ),
            x: Buffer::Normed,
            in_dim: 64,
            out_dim: 128,
            rows: 3
        }
    );
    assert_eq!(
        ops[10],
        Op::GqaAttention { il: 1, heads_kv: 2, dim: 16, window: 0, unit: false }
    );
    let reused = plan_gqa(t, &z, &s, &[], LayerParts { attn_v: false, ..PARTS });
    assert_eq!(reused[3], Op::Copy { dst: Buffer::V, src: Buffer::K, n: 96 });
    assert_eq!(plan_residual(t, &z, &s, &[], PARTS).len(), 2);
    let gemma = LayerParts { gemma: true, ..PARTS };
    assert_eq!(plan_residual(t, &z, &s, &[], gemma).len(), 3);
    assert_eq!(plan_dense(t, &z, &s, &[]).len(), 5);
    assert_eq!(plan_router(t, &s, PARTS, true).len(), 4);
    assert_eq!(plan_shared(t, &z, &s, &[], PARTS).len(), 5);
    assert_eq!(
        plan_shared(t, &z, &s, &[], LayerParts { shexp: false, ..PARTS })[0],
        Op::Zero { x: Buffer::SharedOut, n: 192 }
    );
    assert_eq!(plan_routed(t, &z, &s, &[], None), vec![
        Op::MoePair,
        Op::Quantize { out: Buffer::Midq, x: Buffer::MoeMid, dim: 32, rows: 6 },
        Op::MoeDown,
    ]);
    assert_eq!(plan_routed(t, &z, &s, &[], Some(4)).len(), 4);
    assert_eq!(plan_combine(t, &z, &s, &[], PARTS).len(), 2);
    assert_eq!(plan_combine(t, &z, &s, &[], gemma).len(), 4);
    let before = plan_until_experts(plan_gqa(t, &z, &s, &[], PARTS), t, &z, &s, &[], PARTS, true);
    assert_eq!(before.len(), 12 + 2 + 4 + 5);
    assert_eq!(before[14..16], plan_router(t, &s, PARTS, true)[..2]);
    assert_eq!(plan_dense_layer(Vec::new(), t, &z, &s, &[], PARTS).len(), 2 + 5);
    let own = Geom { n_head_kv: 1, head_dim: 8, theta: 7, window: 9, factors: true };
    let h = layer_heads(&s, Some(own));
    assert_eq!((h.rot_dim, h.window, h.factors), (8, 9, true));
}

#[test]
fn latent_attention_hops_to_its_device_and_back() {
    let mut g = header("glm-dsa");
    for (k, v) in [("head_count", 2), ("key_length", 8), ("top_k", 4)] {
        g.set(format!("glm-dsa.attention.indexer.{k}"), number(v));
    }
    let s = Shape::from_gguf(&g).ok().unwrap();
    let z = Sizing { attn_dev: true, ..sizing() };
    let t = LayerStep { il: 0, n_tok: 1, pos0: 20 };
    let rows = Rows { how: Selection::Score, count: 4 };
    let ops = plan_mla(t, &z, &s, &[], true, rows);
    assert_eq!(ops[2], Op::SetDevice(Device::Attn));
    assert_eq!(*ops.last().unwrap(), Op::SetDevice(Device::Primary));
    assert!(ops.contains(&Op::IdxTopk { visible: 21, topk: 4, one: true }));
    assert!(ops.contains(&Op::Copy { dst: Buffer::AttnOutA, src: Buffer::Cur, n: 64 }));
    let z = sizing();
    let ops = plan_mla(t, &z, &s, &[], false, Rows { how: Selection::Range, count: 21 });
    assert!(ops.contains(&Op::FillRange { visible: 21 }));
    assert!(!ops.contains(&Op::SetDevice(Device::Attn)));
}

#[test]
fn draft_inputs_are_paired() {
    let v = plan_draft_hidden(3, 100);
    assert_eq!(v.len(), 3);
    assert_eq!((v[1].dst_off, v[1].bytes), (100, 200));
    assert_eq!((v[2].dst, v[2].src_off), (Buffer::MtpHidden, 200));
    assert_eq!(plan_draft_hidden(1, 100).len(), 2);
    let p = plan_draft_pairs(2, 100);
    let at: Vec<(usize, usize)> = p.iter().map(|c| (c.dst_off, c.src_off)).collect();
    assert_eq!(at, vec![(0, 0), (100, 0), (200, 100), (300, 100)]);
    let c = plan_tail_copy(5, 2, 100);
    assert_eq!((c.src_off, c.bytes), (300, 200));
}

#[test]
fn hybrid_models_alternate() {
    let h = HybridShape {
        n_exec_layer: 6,
        ssm_k_heads: 2,
        ssm_v_heads: 4,
        ssm_state: 8,
        ssm_conv_k: 4,
        full_attn_interval: 4,
    };
    let d = h.dims();
    assert_eq!((d.key_dim, d.value_dim, d.conv_dim), (16, 32, 64));
    let plan = h.state_plan();
    assert_eq!(plan[3], None);
    assert_eq!(plan[0], Some((4 * 8 * 8 * 4, 3 * 64 * 4)));
    assert_eq!(plan.len(), 6);
    assert!(h.is_full_attn(3) && !h.is_full_attn(4));
    assert_eq!(h.conv_parts(), [(0, 64), (64, 64), (128, 128)]);
    assert_eq!(check_hybrid(0, 0, 0, 9), Err(HybridError::Empty));
    assert_eq!(check_hybrid(1, 0, 2, 9), Err(HybridError::Rows));
    assert_eq!(check_hybrid(5, 5, 1, 9), Err(HybridError::Context));
    assert_eq!(check_hybrid(4, 5, 1, 9), Ok(()));
    assert_eq!(hybrid_kind(true, true), Some(HybridKind::Delta));
    assert_eq!(hybrid_kind(false, true), Some(HybridKind::Full));
    assert_eq!(hybrid_kind(false, false), None);
    assert!(starts_afresh(0) && !starts_afresh(1));
    assert!(h.fits_machine());
    assert!(!HybridShape { ssm_conv_k: 0, ..h }.fits_machine());
    assert!(!HybridShape { full_attn_interval: 0, ..h }.fits_machine());
    assert!(!HybridShape { ssm_state: u32::MAX, ..h }.fits_machine());
    let s = Shape::from_gguf(&header("hy-v3")).ok().unwrap();
    assert!(hybrid_sizes_fit(&h, &s));
    assert!(!hybrid_sizes_fit(&h, &Shape { head_dim: u32::MAX, ..s }));
    assert!(!hybrid_sizes_fit(&HybridShape { ssm_conv_k: 0, ..h }, &s));
}

#[test]
fn offsets_find_their_shard() {
    let bases = shard_bases(&[100, 50, 25]);
    assert_eq!(bases, vec![0, 100, 150]);
    assert_eq!(locate(&bases, 0), (0, 0));
    assert_eq!(locate(&bases, 99), (0, 99));
    assert_eq!(locate(&bases, 100), (1, 0));
    assert_eq!(locate(&bases, 174), (2, 24));
    assert_eq!(grow_head(32, 32, true), HeadStep::Retry(64));
    assert_eq!(grow_head(32, 31, true), HeadStep::Fail);
    assert_eq!(grow_head(32, 32, false), HeadStep::Fail);
}

#[test]
fn device_calls_are_checked() {
    assert!(check(1, "x").is_ok() && check_rt(0, "x").is_ok());
    assert_eq!(check(0, "add").unwrap_err().message(), "cuda kernel op failed: add");
    assert_eq!(check_rt(2, "cudaMalloc").unwrap_err().0, "cudaMalloc");
    assert!(in_range(4, 4, 8) && !in_range(5, 4, 8) && !in_range(usize::MAX, 2, 8));
    assert_eq!((alloc_bytes(0), alloc_bytes(5)), (1, 5));
    assert_eq!(row_offset(3, 5), 60);
}

#[test]
fn pinned_buffers_are_used_again_by_size() {
    let mut p = PinnedPool::new();
    assert_eq!(pinned_alloc(&mut p, 64), None);
    pinned_free(&mut p, 0x1000, 64);
    pinned_free(&mut p, 0x2000, 64);
    pinned_free(&mut p, 0x3000, 128);
    assert_eq!(pinned_alloc(&mut p, 64), Some(0x2000));
    assert_eq!(pinned_alloc(&mut p, 64), Some(0x1000));
    assert_eq!(pinned_alloc(&mut p, 64), None);
    assert_eq!(pinned_alloc(&mut p, 128), Some(0x3000));
}

#[test]
fn the_fastest_link_is_primary() {
    let p = |dev: i32, gbps: f64, capability: i32| Probe { dev, bandwidth: gbps.to_bits(), capability };
    assert_eq!(pick_primary(&[p(0, 0.8, 89), p(1, 28.8, 120)]), 1);
    assert_eq!(pick_primary(&[p(0, 10.0, 89), p(1, 10.0, 120), p(2, 10.0, 120)]), 1);
    assert_eq!(pick_primary(&[p(0, 0.0, 1), p(1, 0.0, 1)]), 0);
    assert_eq!(pick_primary(&[]), 0);
    assert_eq!(read_gpu(Some(" 2 ")), Some(2));
    assert_eq!(read_gpu(Some("two")), None);
    assert_eq!(read_gpu(None), None);
}

#[test]
fn the_profile_is_one_line() {
    let mut p = Prof::new();
    p.calls = 7;
    (p.resolve, p.h2d) = (25, 5);
    assert_eq!(p.disk(), 20);
    p.h2d = 26;
    assert_eq!(p.disk(), 0);
    let t = Times { sync: "1.00", resolve: "2.50", h2d: "0.50", disk: "2.00", tail: "0.01" };
    assert_eq!(
        p.report(&t),
        "gpu-wait 1.00s, resolve 2.50s (h2d 0.50s, disk/host 2.00s), logits-tail 0.01s over 7 layer steps"
    );
}

#[test]
fn hybrid_layers_are_lists_of_launches() {
    let s = Shape::from_gguf(&header("hy-v3")).ok().unwrap();
    let z = sizing();
    let h = HybridShape {
        n_exec_layer: 4,
        ssm_k_heads: 2,
        ssm_v_heads: 4,
        ssm_state: 8,
        ssm_conv_k: 4,
        full_attn_interval: 4,
    };
    let delta = plan_hybrid(0, HybridKind::Delta, &h, &s, false);
    assert_eq!(delta.len(), 1 + 13 + 4 + 1 + 1);
    assert_eq!(
        delta[1],
        HybridOp::MatmulQ8 {
            out: HybridBuffer::Qkv,
            w: HybridWeight::Qkv,
            x: HybridBuffer::Common(Buffer::Normed),
            in_dim: 64,
            out_dim: 64
        }
    );
    assert_eq!(delta[10], HybridOp::DeltaStep { il: 0 });
    assert_eq!(delta[18], HybridOp::ZeroShared);
    let full = plan_hybrid(3, HybridKind::Full, &h, &s, true);
    assert_eq!(full.len(), 1 + 13 + 4 + 6 + 1);
    assert_eq!(full[11], HybridOp::Attention { il: 3 });
    assert_eq!(full[23], HybridOp::ScaleShared);
    assert_eq!(*full.last().unwrap(), HybridOp::Quantize);
    assert_eq!(plan_hybrid_tail()[1], HybridOp::Add {
        out: Buffer::Cur,
        a: Buffer::AfterAttn,
        b: Buffer::FfnOut
    });
    assert_eq!(hybrid_bytes(HybridBuffer::ConvOut, &h, &z, &s), Some(64 * 4));
    assert_eq!(hybrid_bytes(HybridBuffer::Qfull, &h, &z, &s), Some(2 * 128 * 4));
    assert_eq!(hybrid_bytes(HybridBuffer::State(1), &h, &z, &s), Some(4 * 8 * 8 * 4));
    assert_eq!(hybrid_bytes(HybridBuffer::Window(1), &h, &z, &s), Some(3 * 64 * 4));
}

/// Attention on a device of its own runs the same kernels in the same order.
#[test]
fn offloaded_attention_runs_the_same_kernels() {
    let mut g = header("glm-dsa");
    for (k, v) in [("head_count", 2), ("key_length", 8), ("top_k", 4)] {
        g.set(format!("glm-dsa.attention.indexer.{k}"), number(v));
    }
    let s = Shape::from_gguf(&g).ok().unwrap();
    let t = LayerStep { il: 0, n_tok: 1, pos0: 20 };
    let rows = Rows { how: Selection::Score, count: 4 };
    let names = |attn_dev: bool| -> Vec<String> {
        plan_mla(t, &Sizing { attn_dev, ..sizing() }, &s, &[], true, rows)
            .iter()
            .filter(|op| !matches!(op, Op::Copy { .. } | Op::SetDevice(_)))
            .map(|op| format!("{op:?}").replace("NormedA", "Normed"))
            .map(|name| name.replace("x: AttnOutA", "x: Cur").replace("AttnOutA", "AttnOut"))
            .collect()
    };
    assert_eq!(names(true), names(false));
}

/// Every projection reads what the same step filled before it.
#[test]
fn launches_read_what_was_filled() {
    let s = Shape::from_gguf(&header("hy-v3")).ok().unwrap();
    let z = sizing();
    let t = LayerStep { il: 1, n_tok: 2, pos0: 4 };
    let attend = plan_gqa(t, &z, &s, &[], PARTS);
    let mut filled = vec![Buffer::Cur];
    for op in plan_until_experts(attend, t, &z, &s, &[], PARTS, false) {
        match op {
            Op::RmsNorm { out, x, .. }
            | Op::MatmulQ8 { out, x, .. }
            | Op::MatmulF32 { out, x, .. }
            | Op::Quantize { out, x, .. } => {
                assert!(filled.contains(&x), "{op:?}");
                filled.push(out);
            }
            Op::Add { out, a, b, .. } | Op::Swiglu { out, a, b, .. } => {
                assert!(filled.contains(&a) && filled.contains(&b), "{op:?}");
                filled.push(out);
            }
            Op::GqaAttention { .. } => filled.push(Buffer::Heads),
            _ => {}
        }
    }
    assert!(filled.contains(&Buffer::Xq) && filled.contains(&Buffer::SharedOut));
}
