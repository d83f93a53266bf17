//! One model file in several shards: where each begins in the whole, and which
//! one holds an offset.

use vstd::prelude::*;

verus! {

/// Bytes read first to parse a header.
pub const HEAD_READ_START: usize = 33_554_432;

/// The lengths of the first `n` shards, added up.
pub open spec fn base_of(lens: Seq<u64>, n: int) -> int
    decreases n,
{
    if n <= 0 {
        0
    } else {
        base_of(lens, n - 1) + lens[n - 1]
    }
}

proof fn base_of_grows(lens: Seq<u64>, a: int, b: int)
    requires
        0 <= a <= b <= lens.len(),
    ensures
        0 <= base_of(lens, a) <= base_of(lens, b),
    decreases b,
{
    if a < b {
        base_of_grows(lens, a, b - 1);
    } else if a > 0 {
        base_of_grows(lens, a - 1, b - 1);
    }
}

/// Where each shard begins in the whole.
pub fn shard_bases(lens: &[u64]) -> (bases: Vec<u64>)
    requires
        base_of(lens@, lens@.len() as int) <= u64::MAX,
    ensures
        bases@.len() == lens@.len(),
        forall|i: int| 0 <= i < bases@.len() ==> #[trigger] bases@[i] == base_of(lens@, i),
{
    let mut bases: Vec<u64> = Vec::new();
    let mut base: u64 = 0;
    let mut i: usize = 0;
    while i < lens.len()
        invariant
            i <= lens@.len(),
            bases@.len() == i,
            base == base_of(lens@, i as int),
            base_of(lens@, lens@.len() as int) <= u64::MAX,
            forall|k: int| 0 <= k < i ==> #[trigger] bases@[k] == base_of(lens@, k),
        decreases lens@.len() - i,
    {
        bases.push(base);
        proof {
            base_of_grows(lens@, i + 1, lens@.len() as int);
        }
        base = base + lens[i];
        i += 1;
    }
    bases
}

/// Whether the shards begin in order, the first at zero.
pub open spec fn in_order(bases: Seq<u64>) -> bool {
    &&& bases.len() > 0
    &&& bases[0] == 0
    &&& forall|i: int, j: int|
        0 <= i <= j < bases.len() ==> #[trigger] bases[i] <= #[trigger] bases[j]
}

/// Finds the shard that holds `offset` and where in it that is: the last
/// shard that begins at or before it.
pub fn locate(bases: &[u64], offset: u64) -> (r: (usize, u64))
    requires
        in_order(bases@),
    ensures
        r.0 < bases@.len(),
        bases@[r.0 as int] <= offset,
        forall|j: int| r.0 < j < bases@.len() ==> offset < #[trigger] bases@[j],
        r.1 == offset - bases@[r.0 as int],
{
    let mut lo: usize = 0;
    let mut hi: usize = bases.len();
    while hi - lo > 1
        invariant
            lo < hi <= bases@.len(),
            in_order(bases@),
            bases@[lo as int] <= offset,
            forall|j: int| hi <= j < bases@.len() ==> offset < #[trigger] bases@[j],
        decreases hi - lo,
    {
        let mid: usize = lo + (hi - lo) / 2;
        if bases[mid] <= offset {
            lo = mid;
        } else {
            hi = mid;
        }
    }
    (lo, offset - bases[lo])
}

/// Shards laid end to end are found by the offsets they hold.
pub proof fn shards_are_found(lens: Seq<u64>, i: int, at: int, found: int)
    requires
        0 <= i < lens.len(),
        0 <= at < lens[i],
        0 <= found < lens.len(),
        base_of(lens, found) <= base_of(lens, i) + at,
        found + 1 < lens.len() ==> base_of(lens, i) + at < base_of(lens, found + 1),
    ensures
        found == i,
{
    if found < i {
        base_of_grows(lens, found + 1, i);
    } else if found > i {
        base_of_grows(lens, i + 1, found);
    }
}

/// What to do after a header did not parse.
#[derive(Debug, Clone, Copy, PartialEq, Eq, Structural)]
pub enum HeadStep {
    /// Read this many bytes and try again.
    Retry(usize),
    /// Give up with the parse error.
    Fail,
}

/// Decides after a parse error: a header cut short by the read is read again
/// with twice the bytes.
pub fn grow_head(n: usize, got: usize, truncated: bool) -> (s: HeadStep)
    requires
        2 * n <= usize::MAX,
    ensures
        s == (if truncated && got == n {
            HeadStep::Retry((2 * n) as usize)
        } else {
            HeadStep::Fail
        }),
{
    if truncated && got == n {
        HeadStep::Retry(2 * n)
    } else {
        HeadStep::Fail
    }
}

/// Shards lie end to end: the first begins at zero, each where the one before it
/// ends.
pub proof fn shards_lie_end_to_end(lens: Seq<u64>, n: int)
    requires
        0 <= n < lens.len(),
    ensures
        base_of(lens, 0) == 0,
        base_of(lens, n + 1) == base_of(lens, n) + lens[n],
{
}

} // verus!
