//! Draft-free speculation: propose the tokens that followed the last earlier
//! occurrence of the context's own ending.

use vstd::prelude::*;

verus! {

/// Whether the last `m` tokens of `hist` also stand at `i`.
pub open spec fn recurs(hist: Seq<u32>, m: int, i: int) -> bool {
    hist.subrange(i, i + m) == hist.subrange(hist.len() - m, hist.len() as int)
}

/// The last position before `i` where the last `m` tokens stand, with
/// something between that occurrence and the ending itself.
pub open spec fn last_match(hist: Seq<u32>, m: int, i: int) -> Option<int>
    decreases i,
{
    if i <= 0 {
        None
    } else if recurs(hist, m, i - 1) && i - 1 + m < hist.len() - m {
        Some(i - 1)
    } else {
        last_match(hist, m, i - 1)
    }
}

/// What followed an occurrence of the last `m` tokens at `i`: at most `depth`
/// tokens, and none of the ending itself.
pub open spec fn followers(hist: Seq<u32>, m: int, i: int, depth: int) -> Seq<u32> {
    let end = if i + m + depth < hist.len() - m {
        i + m + depth
    } else {
        hist.len() - m
    };
    hist.subrange(i + m, end)
}

/// The draft for endings of `m` tokens, if such an ending recurs.
pub open spec fn draft_by(hist: Seq<u32>, m: int, depth: int) -> Option<Seq<u32>> {
    if hist.len() <= m {
        None
    } else {
        match last_match(hist, m, hist.len() - m) {
            Some(i) => Some(followers(hist, m, i, depth)),
            None => None,
        }
    }
}

/// The draft: by the last four tokens, else by the last three, else none.
pub open spec fn ngram(hist: Seq<u32>, depth: int) -> Seq<u32> {
    match draft_by(hist, 4, depth) {
        Some(d) => d,
        None => match draft_by(hist, 3, depth) {
            Some(d) => d,
            None => Seq::empty(),
        },
    }
}

/// A match is a real earlier occurrence with followers before the ending.
pub proof fn last_match_recurs(hist: Seq<u32>, m: int, i: int)
    ensures
        last_match(hist, m, i) matches Some(k) ==> {
            &&& 0 <= k < i
            &&& recurs(hist, m, k)
            &&& k + m < hist.len() - m
        },
    decreases i,
{
    if i > 0 {
        last_match_recurs(hist, m, i - 1);
    }
}

/// A draft is at most `depth` tokens of the context, and follows an earlier
/// occurrence of its last three.
pub proof fn ngram_follows(hist: Seq<u32>, depth: int)
    requires
        1 <= depth,
        ngram(hist, depth).len() > 0,
    ensures
        ngram(hist, depth).len() <= depth,
        exists|i: int|
            {
                &&& 0 <= i
                &&& i + 3 + ngram(hist, depth).len() <= hist.len() - 3
                &&& #[trigger] recurs(hist, 3, i)
                &&& hist.subrange(i + 3, i + 3 + ngram(hist, depth).len()) == ngram(hist, depth)
            },
{
    let d = ngram(hist, depth);
    let m = if draft_by(hist, 4, depth) is Some {
        4int
    } else {
        3
    };
    last_match_recurs(hist, m, hist.len() - m);
    let k = last_match(hist, m, hist.len() - m)->0;
    let i = k + m - 3;
    let n = hist.len() as int;
    assert(hist.subrange(i, i + 3) =~= hist.subrange(n - 3, n)) by {
        let a = hist.subrange(k, k + m);
        let b = hist.subrange(n - m, n);
        assert(a == b);
        let u = hist.subrange(i, i + 3);
        let v = hist.subrange(n - 3, n);
        assert forall|x: int| 0 <= x < 3 implies #[trigger] u[x] == v[x] by {
            assert(a[m - 3 + x] == b[m - 3 + x]);
        }
    }
    assert(recurs(hist, 3, i));
    assert(hist.subrange(i + 3, i + 3 + d.len()) =~= d);
}

/// Whether the last `m` tokens stand at `i`, with something between that
/// occurrence and the ending.
pub open spec fn stands_at(hist: Seq<u32>, m: int, i: int) -> bool {
    &&& 0 <= i
    &&& i + m < hist.len() - m
    &&& forall|x: int| 0 <= x < m ==> #[trigger] hist[i + x] == hist[hist.len() - m + x]
}

proof fn last_match_is_last(hist: Seq<u32>, m: int, i: int, k: int)
    requires
        0 < m < hist.len(),
        k < i <= hist.len() - m,
        stands_at(hist, m, k),
        forall|x: int| k < x ==> !stands_at(hist, m, x),
    ensures
        last_match(hist, m, i) == Some(k),
    decreases i,
{
    let n = hist.len() as int;
    let c = i - 1;
    if recurs(hist, m, c) && c + m < n - m {
        let (a, b) = (hist.subrange(c, c + m), hist.subrange(n - m, n));
        assert forall|x: int| 0 <= x < m implies #[trigger] hist[c + x] == hist[n - m + x] by {
            assert(a[x] == b[x]);
        }
        assert(stands_at(hist, m, c));
    } else {
        if c == k {
            let (a, b) = (hist.subrange(c, c + m), hist.subrange(n - m, n));
            assert forall|x: int| 0 <= x < m implies #[trigger] a[x] == b[x] by {
                assert(hist[k + x] == hist[n - m + x]);
            }
            assert(a =~= b);
        }
        last_match_is_last(hist, m, i - 1, k);
    }
}

proof fn no_match(hist: Seq<u32>, m: int, i: int)
    requires
        0 < m < hist.len(),
        i <= hist.len() - m,
        forall|x: int| !stands_at(hist, m, x),
    ensures
        last_match(hist, m, i) is None,
    decreases i,
{
    if i > 0 {
        let n = hist.len() as int;
        let c = i - 1;
        if recurs(hist, m, c) && c + m < n - m {
            let (a, b) = (hist.subrange(c, c + m), hist.subrange(n - m, n));
            assert forall|x: int| 0 <= x < m implies #[trigger] hist[c + x] == hist[n - m + x] by {
                assert(a[x] == b[x]);
            }
            assert(stands_at(hist, m, c));
        }
        no_match(hist, m, i - 1);
    }
}

/// The draft is what followed the latest earlier occurrence of the last four
/// tokens, or where these are new, of the last three: the tokens behind it up to
/// `depth` of them or to where the ending begins.
pub proof fn draft_follows_latest(hist: Seq<u32>, depth: int, m: int, k: int)
    requires
        1 <= depth,
        m == 4 || (m == 3 && forall|x: int| !stands_at(hist, 4, x)),
        stands_at(hist, m, k),
        forall|x: int| k < x ==> !stands_at(hist, m, x),
    ensures
        ({
            let d = ngram(hist, depth);
            &&& 0 < d.len() <= depth
            &&& d.len() == depth || k + m + d.len() == hist.len() - m
            &&& forall|x: int| 0 <= x < d.len() ==> #[trigger] d[x] == hist[k + m + x]
        }),
{
    if m == 3 && hist.len() > 4 {
        no_match(hist, 4, hist.len() - 4);
    }
    last_match_is_last(hist, m, hist.len() - m, k);
}

/// Where neither the last four nor the last three tokens occur earlier, nothing
/// is drafted.
pub proof fn new_ending_drafts_nothing(hist: Seq<u32>, depth: int)
    requires
        forall|x: int| !stands_at(hist, 4, x),
        forall|x: int| !stands_at(hist, 3, x),
    ensures
        ngram(hist, depth).len() == 0,
{
    if hist.len() > 4 {
        no_match(hist, 4, hist.len() - 4);
    }
    if hist.len() > 3 {
        no_match(hist, 3, hist.len() - 3);
    }
}

fn recurs_at(hist: &[u32], m: usize, i: usize) -> (r: bool)
    requires
        m <= hist@.len(),
        i + m <= hist@.len(),
    ensures
        r == recurs(hist@, m as int, i as int),
{
    let from: usize = hist.len() - m;
    let ghost a = hist@.subrange(i as int, i + m);
    let ghost b = hist@.subrange(from as int, hist@.len() as int);
    let mut k: usize = 0;
    while k < m
        invariant
            k <= m,
            from + m == hist.len(),
            i + m <= hist.len(),
            a == hist@.subrange(i as int, i + m),
            b == hist@.subrange(from as int, hist@.len() as int),
            forall|x: int| 0 <= x < k ==> a[x] == b[x],
        decreases m - k,
    {
        if hist[i + k] != hist[from + k] {
            assert(a[k as int] != b[k as int]);
            return false;
        }
        assert(a[k as int] == b[k as int]);
        k += 1;
    }
    assert(a =~= b);
    true
}

fn draft_with(hist: &[u32], m: usize, depth: usize) -> (r: Option<Vec<u32>>)
    requires
        1 <= m <= 4,
        1 <= depth <= 15,
    ensures
        match r {
            Some(d) => draft_by(hist@, m as int, depth as int) == Some(d@),
            None => draft_by(hist@, m as int, depth as int) is None,
        },
{
    if hist.len() <= m {
        return None;
    }
    let limit: usize = hist.len() - m;
    let mut i: usize = limit;
    while i > 0
        invariant
            1 <= m <= 4,
            1 <= depth <= 15,
            limit + m == hist.len(),
            i <= limit,
            last_match(hist@, m as int, limit as int) == last_match(hist@, m as int, i as int),
        decreases i,
    {
        if recurs_at(hist, m, i - 1) && i - 1 + m < limit {
            let from: usize = i - 1 + m;
            let end: usize = if depth < limit - from {
                from + depth
            } else {
                limit
            };
            let mut d: Vec<u32> = Vec::new();
            let mut j: usize = from;
            while j < end
                invariant
                    from <= j <= end <= hist@.len(),
                    d@ == hist@.subrange(from as int, j as int),
                decreases end - j,
            {
                d.push(hist[j]);
                j += 1;
                assert(d@ =~= hist@.subrange(from as int, j as int));
            }
            return Some(d);
        }
        i -= 1;
    }
    None
}

/// Proposes at most `depth` tokens to follow `hist`; none when its ending is new.
pub fn ngram_draft(hist: &[u32], depth: usize) -> (d: Vec<u32>)
    requires
        1 <= depth <= 15,
    ensures
        d@ == ngram(hist@, depth as int),
        d@.len() <= depth,
{
    proof {
        last_match_recurs(hist@, 4, hist@.len() - 4);
        last_match_recurs(hist@, 3, hist@.len() - 3);
    }
    match draft_with(hist, 4, depth) {
        Some(d) => d,
        None => match draft_with(hist, 3, depth) {
            Some(d) => d,
            None => Vec::new(),
        },
    }
}

} // verus!
