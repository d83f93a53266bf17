//! What a loaded layer has, and which of its tensors serves for what.

use vstd::prelude::*;

use crate::graph::LayerParts;
#[allow(unused_imports)]
use crate::loader::{attn_steps, ffn_steps, has_part, layer_steps, LoadMode};
#[allow(unused_imports)]
use crate::gguf::Gguf;
use crate::loader::{Role, Step};

verus! {

/// Whether a step keeps the tensor as a weight.
pub open spec fn keeps(step: Step, r: Role) -> bool {
    step == Step::Device(r) || step == Step::Large(r) || step == Step::Small(r)
}

/// Whether a layer that was loaded by `steps` has the weight.
pub open spec fn has_weight(steps: Seq<Step>, r: Role) -> bool {
    exists|i: int| 0 <= i < steps.len() && keeps(#[trigger] steps[i], r)
}

/// Tells whether a layer that was loaded by `steps` has the weight.
pub fn holds_weight(steps: &[Step], r: Role) -> (b: bool)
    ensures
        b == has_weight(steps@, r),
{
    let mut i: usize = 0;
    while i < steps.len()
        invariant
            i <= steps@.len(),
            forall|k: int| 0 <= k < i ==> !keeps(#[trigger] steps@[k], r),
        decreases steps@.len() - i,
    {
        let kept: bool = match steps[i] {
            Step::Device(x) => x == r,
            Step::Large(x) => x == r,
            Step::Small(x) => x == r,
            _ => false,
        };
        assert(kept == keeps(steps@[i as int], r));
        if kept {
            return true;
        }
        i += 1;
    }
    false
}

fn takes_step(steps: &[Step], step: Step) -> (b: bool)
    ensures
        b == steps@.contains(step),
{
    let mut i: usize = 0;
    while i < steps.len()
        invariant
            i <= steps@.len(),
            forall|k: int| 0 <= k < i ==> steps@[k] != step,
        decreases steps@.len() - i,
    {
        if steps[i] == step {
            return true;
        }
        i += 1;
    }
    false
}

/// What a layer that was loaded by `steps` has. A Gemma layer's own MLP is its
/// shared expert.
pub open spec fn parts_of(steps: Seq<Step>, gemma: bool) -> LayerParts {
    LayerParts {
        attn_v: has_weight(steps, Role::AttnV),
        gemma,
        shexp: has_weight(steps, Role::GateShexp) || gemma,
        down_scale: has_weight(steps, Role::DownScale),
    }
}

/// Tells what a layer has.
pub fn layer_parts(steps: &[Step], gemma: bool) -> (p: LayerParts)
    ensures
        p == parts_of(steps@, gemma),
{
    LayerParts {
        attn_v: holds_weight(steps, Role::AttnV),
        gemma,
        shexp: holds_weight(steps, Role::GateShexp) || gemma,
        down_scale: holds_weight(steps, Role::DownScale),
    }
}

/// The plain feed-forward tensor that serves where a layer has no shared expert
/// of its own.
pub open spec fn plain(r: Role) -> Role {
    match r {
        Role::GateShexp => Role::FfnGate,
        Role::UpShexp => Role::FfnUp,
        Role::DownShexp => Role::FfnDown,
        other => other,
    }
}

/// The tensor that serves as weight `r`: its own, or the plain one.
pub open spec fn serving(steps: Seq<Step>, r: Role) -> Option<Role> {
    if has_weight(steps, r) {
        Some(r)
    } else if has_weight(steps, plain(r)) {
        Some(plain(r))
    } else {
        None
    }
}

/// Finds the tensor that serves as weight `r`.
pub fn weight_role(steps: &[Step], r: Role) -> (w: Option<Role>)
    ensures
        w == serving(steps@, r),
{
    if holds_weight(steps, r) {
        return Some(r);
    }
    let other: Role = match r {
        Role::GateShexp => Role::FfnGate,
        Role::UpShexp => Role::FfnUp,
        Role::DownShexp => Role::FfnDown,
        other => other,
    };
    if holds_weight(steps, other) {
        Some(other)
    } else {
        None
    }
}

/// Where a router's bias comes from.
#[derive(Debug, Clone, Copy, PartialEq, Eq, Structural)]
pub enum Bias {
    Tensor(Role),
    Zero,
}

/// The router's bias: the tensor under its first name, then under its second,
/// then zeros.
pub open spec fn bias_of(steps: Seq<Step>) -> Option<Bias> {
    if has_weight(steps, Role::ProbsB) {
        Some(Bias::Tensor(Role::ProbsB))
    } else if has_weight(steps, Role::ProbsBias) {
        Some(Bias::Tensor(Role::ProbsBias))
    } else if steps.contains(Step::ZeroBias) {
        Some(Bias::Zero)
    } else {
        None
    }
}

/// Finds the router's bias.
pub fn router_bias(steps: &[Step]) -> (b: Option<Bias>)
    ensures
        b == bias_of(steps@),
{
    if holds_weight(steps, Role::ProbsB) {
        Some(Bias::Tensor(Role::ProbsB))
    } else if holds_weight(steps, Role::ProbsBias) {
        Some(Bias::Tensor(Role::ProbsBias))
    } else if takes_step(steps, Step::ZeroBias) {
        Some(Bias::Zero)
    } else {
        None
    }
}

/// The tensors of a layer's routed experts: that of their first halves, which may
/// hold the second halves too; and that of the second halves, where they have one.
pub open spec fn expert_tensors(steps: Seq<Step>) -> Option<(Role, Option<Role>)> {
    let up = if steps.contains(Step::Expert(Role::UpExps)) {
        Some(Role::UpExps)
    } else {
        None
    };
    if !steps.contains(Step::Expert(Role::DownExps)) {
        None
    } else if steps.contains(Step::Expert(Role::GateUpExps)) {
        Some((Role::GateUpExps, up))
    } else if steps.contains(Step::Expert(Role::GateExps)) {
        Some((Role::GateExps, up))
    } else {
        None
    }
}

/// Finds the tensors of a layer's routed experts; `None` when it has none.
pub fn expert_roles(steps: &[Step]) -> (r: Option<(Role, Option<Role>)>)
    ensures
        r == expert_tensors(steps@),
{
    let up: Option<Role> = if takes_step(steps, Step::Expert(Role::UpExps)) {
        Some(Role::UpExps)
    } else {
        None
    };
    if !takes_step(steps, Step::Expert(Role::DownExps)) {
        None
    } else if takes_step(steps, Step::Expert(Role::GateUpExps)) {
        Some((Role::GateUpExps, up))
    } else if takes_step(steps, Step::Expert(Role::GateExps)) {
        Some((Role::GateExps, up))
    } else {
        None
    }
}

/// A step at the front of a layer's plan is in the plan.
proof fn front_step(g: &Gguf, m: LoadMode, il: u32, k: int)
    requires
        0 <= k < ffn_steps(g, m, il).len(),
    ensures
        ffn_steps(g, m, il).len() <= layer_steps(g, m, il).len(),
        layer_steps(g, m, il)[k] == ffn_steps(g, m, il)[k],
{
}

/// A planned layer with routed experts has the tensors of its experts, a bias
/// for its router, and all three weights of the shared expert that it is said
/// to have.
pub proof fn routed_layer_is_whole(g: &Gguf, m: LoadMode, il: u32)
    requires
        il >= m.n_leading_dense,
    ensures
        ({
            let steps = layer_steps(g, m, il);
            &&& expert_tensors(steps) is Some
            &&& bias_of(steps) is Some
            &&& serving(steps, Role::GateInp) == Some(Role::GateInp)
            &&& parts_of(steps, m.gemma).shexp ==> {
                &&& serving(steps, Role::GateShexp) is Some
                &&& serving(steps, Role::UpShexp) is Some
                &&& serving(steps, Role::DownShexp) is Some
            }
        }),
{
    let steps = layer_steps(g, m, il);
    let f = ffn_steps(g, m, il);
    let e: int = if has_part(g, il, Role::GateUpExps) {
        1
    } else {
        2
    };
    front_step(g, m, il, 0);
    assert(steps.contains(steps[0]));
    front_step(g, m, il, e);
    assert(keeps(steps[e], Role::GateInp));
    front_step(g, m, il, e + 1);
    assert(steps.contains(steps[e + 1]));
    if has_part(g, il, Role::ProbsB) {
        assert(keeps(steps[e + 1], Role::ProbsB));
    } else if has_part(g, il, Role::ProbsBias) {
        assert(keeps(steps[e + 1], Role::ProbsBias));
    }
    let shared = has_part(g, il, Role::GateShexp) || m.gemma;
    let down: int = if shared {
        e + 5
    } else {
        e + 2
    };
    front_step(g, m, il, down);
    assert(steps.contains(steps[down]));
    assert(steps[down] == Step::Expert(Role::DownExps));
    if shared {
        front_step(g, m, il, e + 2);
        front_step(g, m, il, e + 3);
        front_step(g, m, il, e + 4);
        let (a, b, c) = if has_part(g, il, Role::GateShexp) {
            (Role::GateShexp, Role::UpShexp, Role::DownShexp)
        } else {
            (Role::FfnGate, Role::FfnUp, Role::FfnDown)
        };
        assert(keeps(steps[e + 2], a));
        assert(keeps(steps[e + 3], b));
        assert(keeps(steps[e + 4], c));
    } else {
        no_shared(g, m, il);
    }
}

proof fn absent_from_both(a: Seq<Step>, b: Seq<Step>, r: Role)
    requires
        !has_weight(a, r),
        !has_weight(b, r),
    ensures
        !has_weight(a + b, r),
{
    assert forall|i: int| 0 <= i < (a + b).len() implies !keeps(#[trigger] (a + b)[i], r) by {
        if i < a.len() {
            assert(!keeps(a[i], r));
        } else {
            assert(!keeps(b[i - a.len()], r));
        }
    }
}

/// Where the file has no shared expert, none is loaded.
proof fn no_shared(g: &Gguf, m: LoadMode, il: u32)
    requires
        il >= m.n_leading_dense,
        !has_part(g, il, Role::GateShexp),
    ensures
        !has_weight(layer_steps(g, m, il), Role::GateShexp),
{
    let r = Role::GateShexp;
    let ffn = ffn_steps(g, m, il);
    assert(!has_weight(ffn, r)) by {
        assert forall|i: int| 0 <= i < ffn.len() implies !keeps(#[trigger] ffn[i], r) by {}
    }
    let attn = attn_steps(g, m, il);
    assert(!has_weight(attn, r)) by {
        assert forall|i: int| 0 <= i < attn.len() implies !keeps(#[trigger] attn[i], r) by {}
    }
    let hop = if m.attn_dev {
        seq![Step::ToAttn]
    } else {
        Seq::empty()
    };
    let back = if m.attn_dev {
        seq![Step::ToPrimary]
    } else {
        Seq::empty()
    };
    let gemma = if m.gemma {
        seq![
            Step::Host(Role::GateInpScale),
            Step::HostOrDefault(Role::OutScale),
            Step::Device(Role::PostAttnNorm),
            Step::Device(Role::PreFfwNorm2),
            Step::Device(Role::PostFfwNorm1),
            Step::Device(Role::PostFfwNorm2),
            Step::Device(Role::PostFfwNorm),
        ]
    } else {
        Seq::empty()
    };
    let output = seq![Step::Large(Role::AttnOutput)];
    let norms = seq![Step::Device(Role::AttnNorm), Step::Device(Role::FfnNorm)];
    absent_from_both(ffn, hop, r);
    absent_from_both(ffn + hop, attn, r);
    absent_from_both(ffn + hop + attn, output, r);
    absent_from_both(ffn + hop + attn + output, back, r);
    absent_from_both(ffn + hop + attn + output + back, gemma, r);
    absent_from_both(ffn + hop + attn + output + back + gemma, norms, r);
}

} // verus!
