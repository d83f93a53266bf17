//! Grouped batch MoE: the routed slots of a prefill chunk gathered by expert,
//! so that each weight row is staged once instead of once per token.

use vstd::prelude::*;

use crate::resolve::{ExpertPtrs, Place};

verus! {

/// Shared memory that one block of threads can use.
pub const SMEM_BYTES: u64 = 49152;

/// Whether a batch is worth grouping and its rows fit in shared memory.
pub open spec fn groups(
    n_tok: u32,
    n_expert_used: u32,
    gate_row: u64,
    up_row: u64,
    down_row: u64,
    n_ff_exp: u32,
    disabled: bool,
) -> bool {
    let widest = if gate_row >= up_row {
        gate_row
    } else {
        up_row
    };
    &&& n_tok >= 16
    &&& n_expert_used <= 16
    &&& 8 * widest <= SMEM_BYTES
    &&& 4 * down_row <= SMEM_BYTES
    &&& n_ff_exp % 256 == 0
    &&& !disabled
}

/// Decides whether to group a batch.
pub fn use_groups(
    n_tok: u32,
    n_expert_used: u32,
    gate_row: u64,
    up_row: u64,
    down_row: u64,
    n_ff_exp: u32,
    disabled: bool,
) -> (r: bool)
    ensures
        r == groups(n_tok, n_expert_used, gate_row, up_row, down_row, n_ff_exp, disabled),
        r <==> {
            &&& !disabled
            &&& n_tok >= 16
            &&& n_expert_used <= 16
            &&& 8 * gate_row <= 49152
            &&& 8 * up_row <= 49152
            &&& 4 * down_row <= 49152
            &&& n_ff_exp % 256 == 0
        },
{
    let widest: u64 = if gate_row >= up_row {
        gate_row
    } else {
        up_row
    };
    n_tok >= 16 && n_expert_used <= 16 && widest <= SMEM_BYTES / 8 && down_row <= SMEM_BYTES / 4
        && n_ff_exp % 256 == 0 && !disabled
}

/// How a slot is numbered: by its token, and in the low four bits by its place
/// among the token's experts.
pub open spec fn slot_code(i: int, n_used: int) -> int {
    i / n_used * 16 + i % n_used
}

/// Slots gathered by the expert weights they use.
pub ghost struct Gathered {
    /// The weights of each group, in order of first use.
    pub ptrs: Seq<ExpertPtrs>,
    /// The codes of each group's slots, in order.
    pub members: Seq<Seq<u32>>,
}

/// The group whose first matrix is at `gate`, among those from `k` on.
pub open spec fn group_of(ptrs: Seq<ExpertPtrs>, gate: Place, k: int) -> Option<int>
    decreases ptrs.len() - k,
{
    if k < 0 || k >= ptrs.len() {
        None
    } else if ptrs[k].gate == gate {
        Some(k)
    } else {
        group_of(ptrs, gate, k + 1)
    }
}

/// The first `n` slots, gathered.
pub open spec fn gathered(here: Seq<Option<ExpertPtrs>>, n_used: int, n: int) -> Gathered
    decreases n,
{
    if n <= 0 {
        Gathered { ptrs: Seq::empty(), members: Seq::empty() }
    } else {
        let g = gathered(here, n_used, n - 1);
        let code = slot_code(n - 1, n_used) as u32;
        match here[n - 1] {
            None => g,
            Some(p) => match group_of(g.ptrs, p.gate, 0) {
                Some(k) => Gathered {
                    members: g.members.update(k, g.members[k].push(code)),
                    ptrs: g.ptrs,
                },
                None => Gathered {
                    ptrs: g.ptrs.push(p),
                    members: g.members.push(seq![code]),
                },
            },
        }
    }
}

/// The members of all groups, one behind the other.
pub open spec fn flat(members: Seq<Seq<u32>>) -> Seq<u32>
    decreases members.len(),
{
    if members.len() == 0 {
        Seq::empty()
    } else {
        flat(members.drop_last()) + members.last()
    }
}

/// Where each group begins in the flat list, and where the last one ends.
pub open spec fn starts(members: Seq<Seq<u32>>) -> Seq<int> {
    Seq::new(members.len() + 1, |k: int| flat(members.take(k)).len() as int)
}

proof fn group_of_found(ptrs: Seq<ExpertPtrs>, gate: Place, k: int)
    requires
        0 <= k,
    ensures
        match group_of(ptrs, gate, k) {
            Some(x) => k <= x < ptrs.len() && ptrs[x].gate == gate,
            None => forall|x: int| k <= x < ptrs.len() ==> (#[trigger] ptrs[x]).gate != gate,
        },
    decreases ptrs.len() - k,
{
    if k < ptrs.len() && ptrs[k].gate != gate {
        group_of_found(ptrs, gate, k + 1);
    }
}

/// There are as many member lists as groups, and no more members than slots.
pub proof fn gathered_sizes(here: Seq<Option<ExpertPtrs>>, n_used: int, n: int)
    requires
        0 <= n <= here.len(),
    ensures
        ({
            let g = gathered(here, n_used, n);
            &&& g.members.len() == g.ptrs.len()
            &&& g.ptrs.len() <= n
            &&& flat(g.members).len() <= n
        }),
    decreases n,
{
    if n > 0 {
        gathered_sizes(here, n_used, n - 1);
        let g = gathered(here, n_used, n - 1);
        let code = slot_code(n - 1, n_used) as u32;
        if let Some(p) = here[n - 1] {
            group_of_found(g.ptrs, p.gate, 0);
            match group_of(g.ptrs, p.gate, 0) {
                Some(k) => flat_update(g.members, k, code),
                None => {
                    assert(g.members.push(seq![code]).drop_last() =~= g.members);
                },
            }
        }
    }
}

proof fn flat_update(members: Seq<Seq<u32>>, k: int, code: u32)
    requires
        0 <= k < members.len(),
    ensures
        flat(members.update(k, members[k].push(code))).len() == flat(members).len() + 1,
    decreases members.len(),
{
    let m = members.update(k, members[k].push(code));
    if k == members.len() - 1 {
        assert(m.drop_last() =~= members.drop_last());
    } else {
        flat_update(members.drop_last(), k, code);
        assert(m.drop_last() =~= members.drop_last().update(k, members[k].push(code)));
    }
}

/// Every slot with weights is listed in the group of those weights.
pub proof fn gathered_covers(here: Seq<Option<ExpertPtrs>>, n_used: int, n: int, i: int)
    requires
        0 <= i < n <= here.len(),
        here[i] is Some,
    ensures
        ({
            let g = gathered(here, n_used, n);
            exists|k: int|
                {
                    &&& 0 <= k < g.ptrs.len()
                    &&& k < g.members.len()
                    &&& (#[trigger] g.ptrs[k]).gate == here[i]->0.gate
                    &&& g.members[k].contains(slot_code(i, n_used) as u32)
                }
        }),
    decreases n,
{
    gathered_sizes(here, n_used, n - 1);
    gathered_sizes(here, n_used, n);
    let g0 = gathered(here, n_used, n - 1);
    let g = gathered(here, n_used, n);
    let code = slot_code(n - 1, n_used) as u32;
    if i < n - 1 {
        gathered_covers(here, n_used, n - 1, i);
        let c = slot_code(i, n_used) as u32;
        let k = choose|k: int|
            {
                &&& 0 <= k < g0.ptrs.len()
                &&& k < g0.members.len()
                &&& (#[trigger] g0.ptrs[k]).gate == here[i]->0.gate
                &&& g0.members[k].contains(c)
            };
        let x = choose|x: int| 0 <= x < g0.members[k].len() && g0.members[k][x] == c;
        if let Some(p) = here[n - 1] {
            group_of_found(g0.ptrs, p.gate, 0);
        }
        assert(g.members[k][x] == c);
        assert(g.ptrs[k].gate == here[i]->0.gate);
    } else {
        let p = here[i]->0;
        group_of_found(g0.ptrs, p.gate, 0);
        match group_of(g0.ptrs, p.gate, 0) {
            Some(k) => {
                assert(g.members[k][g0.members[k].len() as int] == code);
                assert(g.ptrs[k].gate == p.gate);
            },
            None => {
                let k = g0.ptrs.len() as int;
                assert(g.members[k][0] == code);
                assert(g.ptrs[k].gate == p.gate);
            },
        }
    }
}

/// No two groups share a first matrix.
pub proof fn groups_differ(here: Seq<Option<ExpertPtrs>>, n_used: int, n: int, a: int, b: int)
    requires
        0 <= n <= here.len(),
        0 <= a < b < gathered(here, n_used, n).ptrs.len(),
    ensures
        gathered(here, n_used, n).ptrs[a].gate != gathered(here, n_used, n).ptrs[b].gate,
    decreases n,
{
    if n > 0 {
        let g0 = gathered(here, n_used, n - 1);
        if let Some(p) = here[n - 1] {
            group_of_found(g0.ptrs, p.gate, 0);
        }
        if b < g0.ptrs.len() {
            groups_differ(here, n_used, n - 1, a, b);
        }
    }
}

proof fn group_has_slot(here: Seq<Option<ExpertPtrs>>, n_used: int, n: int, k: int) -> (i: int)
    requires
        0 <= n <= here.len(),
        0 <= k < gathered(here, n_used, n).ptrs.len(),
    ensures
        0 <= i < n,
        here[i] is Some,
        here[i]->0.gate == gathered(here, n_used, n).ptrs[k].gate,
    decreases n,
{
    let g0 = gathered(here, n_used, n - 1);
    if n > 0 && k < g0.ptrs.len() {
        group_has_slot(here, n_used, n - 1, k)
    } else {
        n - 1
    }
}

/// There are no more groups than experts, when every slot's weights are those
/// of the expert it was routed to.
pub proof fn groups_at_most(
    here: Seq<Option<ExpertPtrs>>,
    n_used: int,
    selected: Seq<i32>,
    gate_of: spec_fn(int) -> Place,
    n_expert: nat,
)
    requires
        selected.len() == here.len(),
        forall|i: int|
            0 <= i < here.len() && (#[trigger] here[i]) is Some ==> 0 <= selected[i] < n_expert
                && here[i]->0.gate == gate_of(selected[i] as int),
    ensures
        gathered(here, n_used, here.len() as int).ptrs.len() <= n_expert,
{
    let n = here.len() as int;
    let ptrs = gathered(here, n_used, n).ptrs;
    let experts = Seq::new(
        ptrs.len(),
        |k: int| selected[choose|i: int|
            0 <= i < n && (#[trigger] here[i]) is Some && here[i]->0.gate == ptrs[k].gate] as int,
    );
    assert forall|k: int| 0 <= k < experts.len() implies 0 <= #[trigger] experts[k] < n_expert
        && gate_of(experts[k]) == ptrs[k].gate by {
        let i0 = group_has_slot(here, n_used, n, k);
        assert(here[i0] is Some);
        let i = choose|i: int|
            0 <= i < n && (#[trigger] here[i]) is Some && here[i]->0.gate == ptrs[k].gate;
        assert(here[i] is Some && here[i]->0.gate == ptrs[k].gate);
    }
    assert forall|a: int, b: int| 0 <= a < b < experts.len() implies experts[a] != experts[b] by {
        groups_differ(here, n_used, n, a, b);
    }
    assert(experts.no_duplicates());
    experts.unique_seq_to_set();
    let all = vstd::set_lib::set_int_range(0, n_expert as int);
    vstd::set_lib::lemma_int_range(0, n_expert as int);
    assert(experts.to_set().subset_of(all));
    vstd::set_lib::lemma_len_subset(experts.to_set(), all);
}

/// A slot's code gives back the token and the place among its experts.
pub proof fn slot_code_decodes(i: int, n_used: int)
    requires
        0 <= i,
        0 < n_used <= 16,
    ensures
        slot_code(i, n_used) / 16 == i / n_used,
        slot_code(i, n_used) % 16 == i % n_used,
{
    let (q, r) = (i / n_used, i % n_used);
    assert(0 <= r < n_used) by (nonlinear_arith)
        requires
            r == i % n_used,
            0 < n_used,
    ;
}

/// The grouping that the kernels read.
pub struct Groups {
    /// The weights of each group.
    pub ptrs: Vec<ExpertPtrs>,
    /// Where each group begins in `pairs`, and where the last one ends.
    pub starts: Vec<u32>,
    /// Slot codes, group by group.
    pub pairs: Vec<u32>,
}

fn find_group(ptrs: &Vec<ExpertPtrs>, gate: Place) -> (r: Option<usize>)
    ensures
        match r {
            Some(k) => k < ptrs@.len() && group_of(ptrs@, gate, 0) == Some(k as int),
            None => group_of(ptrs@, gate, 0) is None,
        },
{
    let mut k: usize = 0;
    while k < ptrs.len()
        invariant
            k <= ptrs@.len(),
            group_of(ptrs@, gate, 0) == group_of(ptrs@, gate, k as int),
        decreases ptrs@.len() - k,
    {
        if ptrs[k].gate == gate {
            return Some(k);
        }
        k += 1;
    }
    None
}

/// The contents of a list of lists.
pub open spec fn lists_of(members: Seq<Vec<u32>>) -> Seq<Seq<u32>> {
    members.map_values(|m: Vec<u32>| m@)
}

/// Gathers the routed slots of a batch by expert.
pub fn group_slots(here: &[Option<ExpertPtrs>], n_used: u32) -> (r: Groups)
    requires
        0 < n_used <= 16,
        here@.len() <= u32::MAX,
        here@.len() / n_used as nat <= 0x0fff_ffff,
    ensures
        ({
            let g = gathered(here@, n_used as int, here@.len() as int);
            &&& r.ptrs@ == g.ptrs
            &&& r.pairs@ == flat(g.members)
            &&& r.starts@.len() == g.members.len() + 1
            &&& forall|k: int|
                0 <= k < r.starts@.len() ==> #[trigger] r.starts@[k] == starts(g.members)[k]
        }),
{
    let mut ptrs: Vec<ExpertPtrs> = Vec::new();
    let mut members: Vec<Vec<u32>> = Vec::new();
    let mut i: usize = 0;
    assert(lists_of(members@) =~= Seq::empty());
    while i < here.len()
        invariant
            i <= here@.len(),
            0 < n_used <= 16,
            here@.len() <= u32::MAX,
            here@.len() / n_used as nat <= 0x0fff_ffff,
            ptrs@ == gathered(here@, n_used as int, i as int).ptrs,
            lists_of(members@) == gathered(here@, n_used as int, i as int).members,
        decreases here@.len() - i,
    {
        proof {
            gathered_sizes(here@, n_used as int, i as int);
            assert(lists_of(members@).len() == members@.len());
            assert(i as int / n_used as int <= here@.len() as int / n_used as int)
                by (nonlinear_arith)
                requires
                    i <= here@.len(),
                    0 < n_used,
            ;
            assert(0 <= i as int % n_used as int) by (nonlinear_arith)
                requires
                    0 < n_used,
            ;
            assert((i as int % n_used as int) < n_used as int) by (nonlinear_arith)
                requires
                    0 < n_used,
            ;
        }
        if let Some(p) = here[i] {
            let token: u32 = (i as u32) / n_used;
            let slot: u32 = (i as u32) % n_used;
            let code: u32 = (token << 4) | slot;
            assert(code == token * 16 + slot) by (bit_vector)
                requires
                    code == (token << 4) | slot,
                    token <= 0x0fff_ffffu32,
                    slot < 16,
            ;
            assert(code == slot_code(i as int, n_used as int));
            let ghost before = lists_of(members@);
            match find_group(&ptrs, p.gate) {
                Some(k) => {
                    members[k].push(code);
                    assert(lists_of(members@) =~= before.update(k as int, before[k as int].push(code)));
                },
                None => {
                    ptrs.push(p);
                    let one: Vec<u32> = vec![code];
                    assert(one@ =~= seq![code]);
                    members.push(one);
                    assert(lists_of(members@) =~= before.push(seq![code]));
                },
            }
        }
        i += 1;
    }
    let ghost all = lists_of(members@);
    proof {
        gathered_sizes(here@, n_used as int, here@.len() as int);
        assert(all.take(0) =~= Seq::empty());
    }
    let mut pairs: Vec<u32> = Vec::new();
    let mut begins: Vec<u32> = vec![0];
    let mut k: usize = 0;
    while k < members.len()
        invariant
            k <= members@.len(),
            all == lists_of(members@),
            flat(all).len() <= here@.len() <= u32::MAX,
            pairs@ == flat(all.take(k as int)),
            begins@.len() == k + 1,
            forall|x: int| 0 <= x <= k ==> #[trigger] begins@[x] == flat(all.take(x)).len(),
        decreases members@.len() - k,
    {
        let ghost before = pairs@;
        let mut x: usize = 0;
        assert(all[k as int] == members@[k as int]@);
        assert(pairs@ =~= before + all[k as int].take(0));
        while x < members[k].len()
            invariant
                k < members@.len(),
                all == lists_of(members@),
                all[k as int] == members@[k as int]@,
                x <= members@[k as int]@.len(),
                pairs@ == before + all[k as int].take(x as int),
            decreases members@[k as int]@.len() - x,
        {
            pairs.push(members[k][x]);
            assert(all[k as int].take(x + 1) =~= all[k as int].take(x as int).push(
                all[k as int][x as int],
            ));
            assert(pairs@ =~= before + all[k as int].take(x + 1));
            x += 1;
        }
        proof {
            assert(all[k as int].take(x as int) =~= all[k as int]);
            assert(all.take(k + 1).drop_last() =~= all.take(k as int));
            flat_prefix(all, k + 1);
        }
        begins.push(pairs.len() as u32);
        k += 1;
    }
    assert(all.take(k as int) =~= all);
    Groups { ptrs, starts: begins, pairs }
}

proof fn flat_prefix(members: Seq<Seq<u32>>, k: int)
    requires
        0 <= k <= members.len(),
    ensures
        flat(members.take(k)).len() <= flat(members).len(),
    decreases members.len() - k,
{
    if k < members.len() {
        flat_prefix(members, k + 1);
        assert(members.take(k + 1).drop_last() =~= members.take(k));
    } else {
        assert(members.take(k) =~= members);
    }
}

} // verus!
