//! Lists of steps that read and fill places: when none of them reads a place
//! that nothing has filled.

use vstd::prelude::*;

verus! {

/// A step that reads some places and fills some.
pub trait Touches: Sized {
    /// A place that a step reads or fills.
    type Spot;

    /// The places that it reads.
    spec fn reads_of(self) -> Seq<Self::Spot>;

    /// The places that it fills.
    spec fn fills_of(self) -> Seq<Self::Spot>;
}

/// The places that are filled once the first `n` of `w` are.
pub open spec fn marked<L>(live: Set<L>, w: Seq<L>, n: int) -> Set<L>
    decreases n,
{
    if n <= 0 {
        live
    } else {
        marked(live, w, n - 1).insert(w[n - 1])
    }
}

/// The places that are filled after the first `n` steps of a list.
pub open spec fn live_after<T: Touches>(ops: Seq<T>, n: int, live: Set<T::Spot>) -> Set<T::Spot>
    decreases n,
{
    if n <= 0 {
        live
    } else {
        marked(live_after(ops, n - 1, live), ops[n - 1].fills_of(), ops[n - 1].fills_of().len() as int)
    }
}

/// The places that are filled after a whole list.
pub open spec fn live_after_all<T: Touches>(ops: Seq<T>, live: Set<T::Spot>) -> Set<T::Spot> {
    live_after(ops, ops.len() as int, live)
}

/// Whether everything that a step reads has been filled.
pub open spec fn supplied<T: Touches>(op: T, live: Set<T::Spot>) -> bool {
    forall|k: int| 0 <= k < op.reads_of().len() ==> live.contains(#[trigger] op.reads_of()[k])
}

/// Whether none of the first `n` steps reads a place before it is filled.
pub open spec fn sound_to<T: Touches>(ops: Seq<T>, n: int, live: Set<T::Spot>) -> bool
    decreases n,
{
    n <= 0 || (sound_to(ops, n - 1, live) && supplied(ops[n - 1], live_after(ops, n - 1, live)))
}

/// Whether no step of a list reads a place before it is filled.
pub open spec fn sound<T: Touches>(ops: Seq<T>, live: Set<T::Spot>) -> bool {
    sound_to(ops, ops.len() as int, live)
}

pub(crate) proof fn marked_grows<L>(live: Set<L>, w: Seq<L>, n: int)
    ensures
        live.subset_of(marked(live, w, n)),
        forall|k: int| 0 <= k < n ==> marked(live, w, n).contains(#[trigger] w[k]),
    decreases n,
{
    if n > 0 {
        marked_grows(live, w, n - 1);
    }
}

pub(crate) proof fn live_grows<T: Touches>(ops: Seq<T>, n: int, live: Set<T::Spot>)
    ensures
        live.subset_of(live_after(ops, n, live)),
    decreases n,
{
    if n > 0 {
        live_grows(ops, n - 1, live);
        let w = ops[n - 1].fills_of();
        marked_grows(live_after(ops, n - 1, live), w, w.len() as int);
    }
}

proof fn live_prefix<T: Touches>(a: Seq<T>, b: Seq<T>, n: int, live: Set<T::Spot>)
    requires
        0 <= n <= a.len(),
    ensures
        live_after(a + b, n, live) == live_after(a, n, live),
        sound_to(a + b, n, live) == sound_to(a, n, live),
    decreases n,
{
    if n > 0 {
        live_prefix(a, b, n - 1, live);
        assert((a + b)[n - 1] == a[n - 1]);
    }
}

proof fn live_suffix<T: Touches>(a: Seq<T>, b: Seq<T>, m: int, live: Set<T::Spot>)
    requires
        0 <= m <= b.len(),
        sound(a, live),
        sound_to(b, m, live_after_all(a, live)),
    ensures
        live_after(a + b, a.len() + m, live) == live_after(b, m, live_after_all(a, live)),
        sound_to(a + b, a.len() + m, live),
    decreases m,
{
    if m > 0 {
        live_suffix(a, b, m - 1, live);
        assert((a + b)[a.len() + m - 1] == b[m - 1]);
    } else {
        live_prefix(a, b, a.len() as int, live);
    }
}

/// Two lists, the second of which reads only what is filled after the first.
pub proof fn sound_concat<T: Touches>(a: Seq<T>, b: Seq<T>, live: Set<T::Spot>)
    requires
        sound(a, live),
        sound(b, live_after_all(a, live)),
    ensures
        sound(a + b, live),
        live_after_all(a + b, live) == live_after_all(b, live_after_all(a, live)),
{
    live_suffix(a, b, b.len() as int, live);
}

} // verus!
