//! Attention decisions of a layer step: which rows are attended to, where the
//! weights are read from, and with what geometry.

use vstd::prelude::*;

use crate::loader::Geom;
use crate::shape::Shape;

verus! {

/// How a layer gets its list of rows.
#[derive(Debug, Clone, Copy, PartialEq, Eq, Structural)]
pub enum Selection {
    /// Every visible row.
    Range,
    /// The best rows by the indexer's scores.
    Score,
    /// The list of the last layer that had one.
    Reuse,
}

/// The rows a layer attends to.
#[derive(Debug, Clone, Copy, PartialEq, Eq, Structural)]
pub struct Rows {
    pub how: Selection,
    pub count: u32,
}

/// A list was to be used again and there is none.
#[derive(Debug, Clone, Copy, PartialEq, Eq, Structural)]
pub struct SelectionMissing;

/// Rows for a layer: all of them up to the indexer's limit; behind it the
/// layers that run the indexer score their own and the others use the last
/// list again.
pub open spec fn rows_for(topk: u32, visible: u32, scores: bool, last: u32) -> Option<Rows> {
    if topk == 0 || visible <= topk {
        Some(Rows { how: Selection::Range, count: visible })
    } else if scores {
        Some(Rows { how: Selection::Score, count: topk })
    } else if last == 0 {
        None
    } else {
        Some(Rows { how: Selection::Reuse, count: last })
    }
}

/// Decides which rows a layer attends to, and remembers how many for the
/// layers that use the list again.
pub fn select_rows(topk: u32, visible: u32, scores: bool, last: &mut u32) -> (r: Result<
    Rows,
    SelectionMissing,
>)
    ensures
        match r {
            Ok(rows) => {
                &&& rows_for(topk, visible, scores, *old(last)) == Some(rows)
                &&& *final(last) == rows.count
            },
            Err(_) => {
                &&& rows_for(topk, visible, scores, *old(last)) is None
                &&& *final(last) == *old(last)
            },
        },
        match r {
            Ok(rows) => match rows.how {
                Selection::Range => (topk == 0 || visible <= topk) && rows.count == visible,
                Selection::Score => topk > 0 && visible > topk && scores && rows.count == topk,
                Selection::Reuse => topk > 0 && visible > topk && !scores && *old(last) > 0
                    && rows.count == *old(last),
            },
            Err(_) => topk > 0 && visible > topk && !scores && *old(last) == 0,
        },
{
    if topk == 0 || visible <= topk {
        *last = visible;
        Ok(Rows { how: Selection::Range, count: visible })
    } else if scores {
        *last = topk;
        Ok(Rows { how: Selection::Score, count: topk })
    } else if *last == 0 {
        Err(SelectionMissing)
    } else {
        Ok(Rows { how: Selection::Reuse, count: *last })
    }
}

/// A layer attends to no more rows than are visible, if the last list did not
/// and is not from a later position.
pub proof fn rows_within_visible(topk: u32, visible: u32, scores: bool, last: u32)
    requires
        last <= visible,
    ensures
        rows_for(topk, visible, scores, last) matches Some(r) ==> r.count <= visible,
{
}

/// Behind the limit, every list but the first layers' has exactly as many rows
/// as the indexer keeps.
pub proof fn rows_behind_limit(topk: u32, visible: u32, scores: bool, last: u32)
    requires
        topk > 0,
        visible > topk,
        last == 0 || last == topk,
    ensures
        rows_for(topk, visible, scores, last) matches Some(r) ==> r.count == topk,
        scores ==> rows_for(topk, visible, scores, last) is Some,
{
}

/// A staging arena for one parity of layers: the next layer's pinned attention
/// tensors are copied into it under the current layer's compute.
#[derive(Debug, Clone, Copy, PartialEq, Eq, Structural)]
pub struct AttnStage {
    /// The layer whose tensors were queued.
    pub layer: Option<usize>,
}

/// The positions of the pinned tensors among the first `n`.
pub open spec fn pinned_positions(pinned: Seq<bool>, n: int) -> Seq<usize>
    decreases n,
{
    if n <= 0 {
        Seq::empty()
    } else if pinned[n - 1] {
        pinned_positions(pinned, n - 1).push((n - 1) as usize)
    } else {
        pinned_positions(pinned, n - 1)
    }
}

impl AttnStage {
    /// An arena with nothing in it.
    pub fn new() -> (s: AttnStage)
        ensures
            s.layer is None,
    {
        AttnStage { layer: None }
    }

    /// Queues layer `il`: which of its tensors are to be copied. The arena is
    /// the layer's only if at least one is.
    pub fn kick(&mut self, pinned: &[bool], il: usize) -> (copies: Vec<usize>)
        ensures
            copies@ == pinned_positions(pinned@, pinned@.len() as int),
            final(self).layer == (if copies@.len() > 0 {
                Some(il)
            } else {
                None
            }),
    {
        self.layer = None;
        let mut copies: Vec<usize> = Vec::new();
        let mut i: usize = 0;
        while i < pinned.len()
            invariant
                i <= pinned@.len(),
                copies@ == pinned_positions(pinned@, i as int),
            decreases pinned@.len() - i,
        {
            if pinned[i] {
                copies.push(i);
            }
            i += 1;
        }
        if copies.len() > 0 {
            self.layer = Some(il);
        }
        copies
    }

    /// Whether layer `il` may read from the arena: its copies were queued and
    /// have landed.
    pub fn ready_for(&self, il: usize, landed: bool) -> (r: bool)
        ensures
            r == (self.layer == Some(il) && landed),
    {
        match self.layer {
            Some(l) => l == il && landed,
            None => false,
        }
    }
}

/// The arena that layer `il` uses: the two take turns.
pub fn stage_of(il: usize) -> (k: usize)
    ensures
        k == il % 2,
        k < 2,
{
    il % 2
}

/// One layer's heads. The rotary base is kept as bits.
#[derive(Debug, Clone, Copy, PartialEq, Eq, Structural)]
pub struct Heads {
    pub n_head_kv: u32,
    pub head_dim: u32,
    pub theta: u32,
    pub window: u32,
    pub rot_dim: u32,
    pub factors: bool,
}

/// A layer's heads: its own geometry where layers differ, else the model's.
pub open spec fn heads_of(s: Shape, g: Option<Geom>) -> Heads {
    match g {
        Some(x) => Heads {
            n_head_kv: x.n_head_kv,
            head_dim: x.head_dim,
            theta: x.theta,
            window: x.window,
            rot_dim: x.head_dim,
            factors: x.factors,
        },
        None => Heads {
            n_head_kv: s.n_head_kv,
            head_dim: s.head_dim,
            theta: s.rope_freq_base,
            window: 0,
            rot_dim: s.rot_dim,
            factors: false,
        },
    }
}

/// Works out a layer's heads.
pub fn layer_heads(s: &Shape, g: Option<Geom>) -> (h: Heads)
    ensures
        h == heads_of(*s, g),
{
    match g {
        Some(x) => Heads {
            n_head_kv: x.n_head_kv,
            head_dim: x.head_dim,
            theta: x.theta,
            window: x.window,
            rot_dim: x.head_dim,
            factors: x.factors,
        },
        None => Heads {
            n_head_kv: s.n_head_kv,
            head_dim: s.head_dim,
            theta: s.rope_freq_base,
            window: 0,
            rot_dim: s.rot_dim,
            factors: false,
        },
    }
}

/// The positions of pinned tensors are those of all pinned tensors, in order.
pub proof fn pinned_are_listed(pinned: Seq<bool>, n: int)
    requires
        0 <= n <= pinned.len(),
        n <= usize::MAX,
    ensures
        ({
            let v = pinned_positions(pinned, n);
            &&& forall|i: int, j: int|
                0 <= i < j < v.len() ==> (#[trigger] v[i]) < (#[trigger] v[j])
            &&& forall|i: int| 0 <= i < v.len() ==> (#[trigger] v[i]) < n && pinned[v[i] as int]
            &&& forall|k: int| 0 <= k < n && #[trigger] pinned[k] ==> v.contains(k as usize)
        }),
    decreases n,
{
    if n > 0 {
        pinned_are_listed(pinned, n - 1);
        let v0 = pinned_positions(pinned, n - 1);
        let v = pinned_positions(pinned, n);
        assert forall|k: int| 0 <= k < n && #[trigger] pinned[k] implies v.contains(k as usize) by {
            if k < n - 1 {
                let x = v0.index_of(k as usize);
                assert(v0.contains(k as usize));
                assert(v[x] == k as usize);
            } else {
                assert(v[v.len() - 1] == k as usize);
            }
        }
    }
}

/// A layer's heads are those of its own geometry where it has one, all of whose
/// width is rotated; else the model's, without a window.
pub proof fn heads_are_the_layers_own(s: Shape, g: Option<Geom>)
    ensures
        ({
            let h = heads_of(s, g);
            &&& g matches Some(x) ==> h.n_head_kv == x.n_head_kv && h.head_dim == x.head_dim
                && h.theta == x.theta && h.window == x.window && h.rot_dim == x.head_dim && h.factors
                == x.factors
            &&& g is None ==> h.n_head_kv == s.n_head_kv && h.head_dim == s.head_dim && h.theta
                == s.rope_freq_base && h.window == 0 && h.rot_dim == s.rot_dim && !h.factors
        }),
{
}

} // verus!
