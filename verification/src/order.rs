//! Ranking by a key, highest first.

use vstd::prelude::*;

verus! {

/// Whether the keys of `p`, in order, never rise.
pub open spec fn falling(keys: Seq<u64>, p: Seq<usize>) -> bool {
    forall|i: int, j: int|
        0 <= i < j < p.len() ==> keys[#[trigger] p[i] as int] >= keys[#[trigger] p[j] as int]
}

/// The positions `0..n`.
pub open spec fn positions(n: nat) -> Seq<usize> {
    Seq::new(n, |i: int| i as usize)
}

/// Whether `p` lists every position of `keys` once, highest key first.
pub open spec fn ranks(keys: Seq<u64>, p: Seq<usize>) -> bool {
    &&& p.to_multiset() == positions(keys.len()).to_multiset()
    &&& falling(keys, p)
}

/// A ranking has as many places as there are keys, and each is a position.
pub proof fn ranking_in_range(keys: Seq<u64>, p: Seq<usize>)
    requires
        keys.len() <= usize::MAX,
        p.to_multiset() == positions(keys.len()).to_multiset(),
    ensures
        p.len() == keys.len(),
        forall|i: int| 0 <= i < p.len() ==> #[trigger] p[i] < keys.len(),
{
    let q = positions(keys.len());
    broadcast use vstd::seq_lib::group_to_multiset_ensures;

    assert(p.to_multiset().len() == p.len());
    assert(q.to_multiset().len() == q.len());
    assert forall|i: int| 0 <= i < p.len() implies #[trigger] p[i] < keys.len() by {
        assert(p.contains(p[i]));
        assert(p.to_multiset().count(p[i]) > 0);
        assert(q.contains(p[i]));
    }
}

/// A ranking leaves out no position.
pub proof fn ranking_is_total(keys: Seq<u64>, p: Seq<usize>, k: int)
    requires
        keys.len() <= usize::MAX,
        p.to_multiset() == positions(keys.len()).to_multiset(),
        0 <= k < keys.len(),
    ensures
        p.contains(k as usize),
{
    let q = positions(keys.len());
    broadcast use vstd::seq_lib::group_to_multiset_ensures;

    assert(q[k] == k as usize);
    assert(q.contains(k as usize));
    assert(q.to_multiset().count(k as usize) > 0);
}

/// A ranking repeats no position.
pub proof fn ranking_has_no_repeats(keys: Seq<u64>, p: Seq<usize>)
    requires
        keys.len() <= usize::MAX,
        p.to_multiset() == positions(keys.len()).to_multiset(),
    ensures
        p.no_duplicates(),
{
    let q = positions(keys.len());
    assert(q.no_duplicates());
    q.lemma_multiset_has_no_duplicates();
    p.lemma_multiset_has_no_duplicates_conv();
}

fn merge(keys: &[u64], a: &Vec<usize>, b: &Vec<usize>) -> (out: Vec<usize>)
    requires
        forall|i: int| 0 <= i < a@.len() ==> #[trigger] a@[i] < keys@.len(),
        forall|i: int| 0 <= i < b@.len() ==> #[trigger] b@[i] < keys@.len(),
        falling(keys@, a@),
        falling(keys@, b@),
    ensures
        falling(keys@, out@),
        out@.to_multiset() == a@.to_multiset().add(b@.to_multiset()),
        forall|i: int| 0 <= i < out@.len() ==> #[trigger] out@[i] < keys@.len(),
{
    let mut out: Vec<usize> = Vec::new();
    let mut i: usize = 0;
    let mut j: usize = 0;
    broadcast use vstd::seq_lib::group_to_multiset_ensures;

    assert(a@.take(0) =~= Seq::empty());
    assert(b@.take(0) =~= Seq::empty());
    assert(out@.to_multiset() =~= a@.take(0).to_multiset().add(b@.take(0).to_multiset()));
    while i < a.len() || j < b.len()
        invariant
            i <= a@.len(),
            j <= b@.len(),
            forall|k: int| 0 <= k < a@.len() ==> #[trigger] a@[k] < keys@.len(),
            forall|k: int| 0 <= k < b@.len() ==> #[trigger] b@[k] < keys@.len(),
            forall|k: int| 0 <= k < out@.len() ==> #[trigger] out@[k] < keys@.len(),
            falling(keys@, a@),
            falling(keys@, b@),
            falling(keys@, out@),
            forall|k: int, x: int|
                0 <= k < out@.len() && i <= x < a@.len() ==> keys@[#[trigger] out@[k] as int]
                    >= keys@[#[trigger] a@[x] as int],
            forall|k: int, y: int|
                0 <= k < out@.len() && j <= y < b@.len() ==> keys@[#[trigger] out@[k] as int]
                    >= keys@[#[trigger] b@[y] as int],
            out@.to_multiset() == a@.take(i as int).to_multiset().add(
                b@.take(j as int).to_multiset(),
            ),
        decreases a@.len() - i + b@.len() - j,
    {
        broadcast use vstd::seq_lib::group_to_multiset_ensures;

        let left: bool = if i >= a.len() {
            false
        } else if j >= b.len() {
            true
        } else {
            keys[a[i]] >= keys[b[j]]
        };
        let ghost before = out@;
        if left {
            out.push(a[i]);
            proof {
                assert(a@.take(i + 1) =~= a@.take(i as int).push(a@[i as int]));
                assert(out@.to_multiset() =~= a@.take(i + 1).to_multiset().add(
                    b@.take(j as int).to_multiset(),
                ));
            }
            i += 1;
        } else {
            out.push(b[j]);
            proof {
                assert(b@.take(j + 1) =~= b@.take(j as int).push(b@[j as int]));
                assert(out@.to_multiset() =~= a@.take(i as int).to_multiset().add(
                    b@.take(j + 1).to_multiset(),
                ));
            }
            j += 1;
        }
    }
    assert(a@.take(i as int) =~= a@);
    assert(b@.take(j as int) =~= b@);
    out
}

fn sort_range(keys: &[u64], lo: usize, hi: usize) -> (out: Vec<usize>)
    requires
        lo <= hi <= keys@.len(),
    ensures
        falling(keys@, out@),
        out@.to_multiset() == positions(keys@.len()).subrange(lo as int, hi as int).to_multiset(),
        forall|i: int| 0 <= i < out@.len() ==> #[trigger] out@[i] < keys@.len(),
    decreases hi - lo,
{
    let ghost q = positions(keys@.len());
    if hi - lo < 2 {
        let mut out: Vec<usize> = Vec::new();
        if lo < hi {
            out.push(lo);
        }
        assert(out@ =~= q.subrange(lo as int, hi as int));
        return out;
    }
    let mid: usize = lo + (hi - lo) / 2;
    let a: Vec<usize> = sort_range(keys, lo, mid);
    let b: Vec<usize> = sort_range(keys, mid, hi);
    let out: Vec<usize> = merge(keys, &a, &b);
    proof {
        let l = q.subrange(lo as int, mid as int);
        let r = q.subrange(mid as int, hi as int);
        assert(q.subrange(lo as int, hi as int) =~= l + r);
        vstd::seq_lib::lemma_multiset_commutative(l, r);
    }
    out
}

/// Ranks the positions of `keys`, highest key first.
pub fn rank(keys: &[u64]) -> (p: Vec<usize>)
    ensures
        ranks(keys@, p@),
        p@.len() == keys@.len(),
        forall|i: int| 0 <= i < p@.len() ==> #[trigger] p@[i] < keys@.len(),
{
    let p: Vec<usize> = sort_range(keys, 0, keys.len());
    proof {
        let q = positions(keys@.len());
        assert(q.subrange(0, keys@.len() as int) =~= q);
        ranking_in_range(keys@, p@);
    }
    p
}

} // verus!
