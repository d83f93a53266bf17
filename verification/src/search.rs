//! Finding a pattern in a sequence.

use vstd::prelude::*;

verus! {

/// Whether `pat` stands at `i`.
pub open spec fn stands_at<T>(s: Seq<T>, pat: Seq<T>, i: int) -> bool {
    0 <= i && i + pat.len() <= s.len() && s.subrange(i, i + pat.len()) == pat
}

/// The first place from `i` on where `pat` stands.
pub open spec fn find_from<T>(s: Seq<T>, pat: Seq<T>, i: int) -> Option<int>
    decreases s.len() - i,
{
    if i < 0 || i >= s.len() {
        None
    } else if stands_at(s, pat, i) {
        Some(i)
    } else {
        find_from(s, pat, i + 1)
    }
}

/// The first place found is a place, and no earlier one is.
pub proof fn find_from_finds<T>(s: Seq<T>, pat: Seq<T>, i: int)
    requires
        0 <= i,
    ensures
        match find_from(s, pat, i) {
            Some(k) => {
                &&& i <= k
                &&& stands_at(s, pat, k)
                &&& forall|j: int| i <= j < k ==> !#[trigger] stands_at(s, pat, j)
            },
            None => pat.len() > 0 ==> forall|j: int|
                i <= j ==> !#[trigger] stands_at(s, pat, j),
        },
    decreases s.len() - i,
{
    if i < s.len() && !stands_at(s, pat, i) {
        find_from_finds(s, pat, i + 1);
    }
}

/// A place before which there is none is the first.
pub proof fn find_from_is<T>(s: Seq<T>, pat: Seq<T>, i: int, k: int)
    requires
        0 <= i <= k < s.len(),
        stands_at(s, pat, k),
        forall|j: int| i <= j < k ==> !#[trigger] stands_at(s, pat, j),
    ensures
        find_from(s, pat, i) == Some(k),
    decreases k - i,
{
    if i < k {
        assert(!stands_at(s, pat, i));
        find_from_is(s, pat, i + 1, k);
    }
}

fn chars_at(s: &[char], pat: &[char], i: usize) -> (r: bool)
    requires
        i <= s@.len(),
    ensures
        r == stands_at(s@, pat@, i as int),
{
    if pat.len() > s.len() - i {
        return false;
    }
    let ghost here = s@.subrange(i as int, i + pat@.len());
    let mut k: usize = 0;
    while k < pat.len()
        invariant
            k <= pat@.len(),
            i + pat@.len() <= s.len(),
            here == s@.subrange(i as int, i + pat@.len()),
            forall|j: int| 0 <= j < k ==> here[j] == pat@[j],
        decreases pat@.len() - k,
    {
        if s[i + k] != pat[k] {
            assert(here[k as int] != pat@[k as int]);
            return false;
        }
        assert(here[k as int] == pat@[k as int]);
        k += 1;
    }
    assert(here =~= pat@);
    true
}

/// Finds the first place from `from` on where the characters `pat` stand.
pub fn find_chars(s: &[char], pat: &[char], from: usize) -> (r: Option<usize>)
    ensures
        match r {
            Some(k) => find_from(s@, pat@, from as int) == Some(k as int),
            None => find_from(s@, pat@, from as int) is None,
        },
{
    let mut i: usize = from;
    while i < s.len()
        invariant
            from <= i,
            find_from(s@, pat@, from as int) == find_from(s@, pat@, i as int),
        decreases s@.len() - i,
    {
        if chars_at(s, pat, i) {
            return Some(i);
        }
        i += 1;
    }
    None
}

fn bytes_at(s: &[u8], pat: &[u8], i: usize) -> (r: bool)
    requires
        i <= s@.len(),
    ensures
        r == stands_at(s@, pat@, i as int),
{
    if pat.len() > s.len() - i {
        return false;
    }
    let ghost here = s@.subrange(i as int, i + pat@.len());
    let mut k: usize = 0;
    while k < pat.len()
        invariant
            k <= pat@.len(),
            i + pat@.len() <= s.len(),
            here == s@.subrange(i as int, i + pat@.len()),
            forall|j: int| 0 <= j < k ==> here[j] == pat@[j],
        decreases pat@.len() - k,
    {
        if s[i + k] != pat[k] {
            assert(here[k as int] != pat@[k as int]);
            return false;
        }
        assert(here[k as int] == pat@[k as int]);
        k += 1;
    }
    assert(here =~= pat@);
    true
}

/// Finds the first place from `from` on where the bytes `pat` stand.
pub fn find_bytes(s: &[u8], pat: &[u8], from: usize) -> (r: Option<usize>)
    ensures
        match r {
            Some(k) => find_from(s@, pat@, from as int) == Some(k as int),
            None => find_from(s@, pat@, from as int) is None,
        },
{
    let mut i: usize = from;
    while i < s.len()
        invariant
            from <= i,
            find_from(s@, pat@, from as int) == find_from(s@, pat@, i as int),
        decreases s@.len() - i,
    {
        if bytes_at(s, pat, i) {
            return Some(i);
        }
        i += 1;
    }
    None
}

} // verus!
