//! Device bookkeeping: call results, the pool of pinned buffers, and which
//! device to use.

use std::collections::HashMap;

use vstd::prelude::*;
use vstd::string::*;

use crate::lines::piece;
use crate::text::{parse_signed, signed_in, to_chars, trim_bounds, trimmed};

verus! {

/// A device call that failed.
#[derive(Debug)]
pub struct Error(pub &'static str);

impl Error {
    /// The message shown to a user.
    pub fn message(&self) -> (s: String)
        ensures
            s@ == "cuda kernel op failed: "@ + self.0@,
    {
        let mut s: String = String::from_str("cuda kernel op failed: ");
        s.append(self.0);
        s
    }
}

/// The result of a kernel launch, which returns zero when it fails.
pub fn check(ret: i32, op: &'static str) -> (r: Result<(), Error>)
    ensures
        match r {
            Ok(()) => ret != 0,
            Err(e) => ret == 0 && e.0@ == op@,
        },
{
    if ret != 0 {
        Ok(())
    } else {
        Err(Error(op))
    }
}

/// The result of a runtime call, which returns zero when it succeeds.
pub fn check_rt(ret: i32, op: &'static str) -> (r: Result<(), Error>)
    ensures
        match r {
            Ok(()) => ret == 0,
            Err(e) => ret != 0 && e.0@ == op@,
        },
{
    if ret == 0 {
        Ok(())
    } else {
        Err(Error(op))
    }
}

/// Whether `len` bytes from `off` on lie in a buffer of `bytes`.
pub fn in_range(off: usize, len: usize, bytes: usize) -> (r: bool)
    ensures
        r == (off + len <= bytes),
{
    len <= bytes && off <= bytes - len
}

/// Bytes to ask for: an empty allocation is of one byte.
pub fn alloc_bytes(bytes: usize) -> (n: usize)
    ensures
        n == (if bytes == 0 {
            1
        } else {
            bytes
        }),
{
    if bytes == 0 {
        1
    } else {
        bytes
    }
}

/// Pinned buffers that were given back, by size. Pinning is slow, so they are
/// used again instead of being freed.
pub struct PinnedPool {
    free: HashMap<usize, Vec<usize>>,
}

impl PinnedPool {
    /// Addresses of the free buffers of a size, the last given back last.
    pub closed spec fn free(&self, bytes: usize) -> Seq<usize> {
        if self.free@.contains_key(bytes) {
            self.free@[bytes]@
        } else {
            Seq::empty()
        }
    }

    /// A pool with no buffers.
    pub fn new() -> (p: PinnedPool)
        ensures
            forall|b: usize| #[trigger] p.free(b) == Seq::<usize>::empty(),
    {
        broadcast use vstd::std_specs::hash::group_hash_axioms;

        PinnedPool { free: HashMap::new() }
    }
}

/// Takes a free buffer of exactly that size, the last given back; `None` when
/// there is none and one has to be pinned.
pub fn pinned_alloc(pool: &mut PinnedPool, bytes: usize) -> (r: Option<usize>)
    ensures
        match r {
            Some(ptr) => {
                &&& old(pool).free(bytes).len() > 0
                &&& ptr == old(pool).free(bytes).last()
                &&& final(pool).free(bytes) == old(pool).free(bytes).drop_last()
            },
            None => {
                &&& old(pool).free(bytes).len() == 0
                &&& final(pool).free(bytes).len() == 0
            },
        },
        forall|b: usize| b != bytes ==> #[trigger] final(pool).free(b) == old(pool).free(b),
{
    broadcast use vstd::std_specs::hash::group_hash_axioms;

    let mut list: Vec<usize> = match pool.free.remove(&bytes) {
        Some(v) => v,
        None => Vec::new(),
    };
    assert(list@ == old(pool).free(bytes));
    let r: Option<usize> = list.pop();
    pool.free.insert(bytes, list);
    r
}

/// Gives a buffer back for later use.
pub fn pinned_free(pool: &mut PinnedPool, ptr: usize, bytes: usize)
    ensures
        final(pool).free(bytes) == old(pool).free(bytes).push(ptr),
        forall|b: usize| b != bytes ==> #[trigger] final(pool).free(b) == old(pool).free(b),
{
    broadcast use vstd::std_specs::hash::group_hash_axioms;

    let mut list: Vec<usize> = match pool.free.remove(&bytes) {
        Some(v) => v,
        None => Vec::new(),
    };
    list.push(ptr);
    pool.free.insert(bytes, list);
}

/// What is known of a device: its link's measured speed and its capability.
#[derive(Debug, Clone, Copy, PartialEq, Eq, Structural)]
pub struct Probe {
    pub dev: i32,
    /// Host-to-device bandwidth as the bits of a non-negative double, which
    /// order as the numbers do.
    pub bandwidth: u64,
    pub capability: i32,
}

/// Whether `a` makes the better primary: the faster link, then the higher
/// capability, then the lower number.
pub open spec fn better(a: Probe, b: Probe) -> bool {
    a.bandwidth > b.bandwidth || a.bandwidth == b.bandwidth && (a.capability > b.capability
        || a.capability == b.capability && a.dev < b.dev)
}

/// The best of the first `n` devices.
pub open spec fn best_of(probes: Seq<Probe>, n: int) -> Option<Probe>
    decreases n,
{
    if n <= 0 {
        None
    } else {
        let p = probes[n - 1];
        match best_of(probes, n - 1) {
            Some(b) => if better(b, p) {
                Some(b)
            } else {
                Some(p)
            },
            None => Some(p),
        }
    }
}

/// No device is better than the best.
pub proof fn best_is_best(probes: Seq<Probe>, n: int)
    requires
        0 <= n <= probes.len(),
    ensures
        match best_of(probes, n) {
            Some(b) => {
                &&& exists|i: int| 0 <= i < n && #[trigger] probes[i] == b
                &&& forall|i: int| 0 <= i < n ==> !better(#[trigger] probes[i], b)
            },
            None => n == 0,
        },
    decreases n,
{
    if n > 0 {
        best_is_best(probes, n - 1);
        let p = probes[n - 1];
        match best_of(probes, n - 1) {
            Some(b) => {
                let i = choose|i: int| 0 <= i < n - 1 && #[trigger] probes[i] == b;
                assert(probes[i] == b);
            },
            None => {},
        }
        assert(probes[n - 1] == p);
    }
}

/// Picks the primary device from what was measured; the first when nothing was.
pub fn pick_primary(probes: &[Probe]) -> (d: i32)
    ensures
        d == (match best_of(probes@, probes@.len() as int) {
            Some(b) => b.dev,
            None => 0,
        }),
{
    let mut best: Option<Probe> = None;
    let mut i: usize = 0;
    while i < probes.len()
        invariant
            i <= probes@.len(),
            best == best_of(probes@, i as int),
        decreases probes@.len() - i,
    {
        let p: Probe = probes[i];
        let keep: bool = match best {
            Some(b) => b.bandwidth > p.bandwidth || (b.bandwidth == p.bandwidth && (b.capability
                > p.capability || (b.capability == p.capability && b.dev < p.dev))),
            None => false,
        };
        if !keep {
            best = Some(p);
        }
        i += 1;
    }
    match best {
        Some(b) => b.dev,
        None => 0,
    }
}

/// The device that a setting names.
pub open spec fn gpu_setting(env: Option<&str>) -> Option<int> {
    match env {
        Some(v) => signed_in(trimmed(v@), i32::MAX as nat),
        None => None,
    }
}

/// Reads which device a setting names.
pub fn read_gpu(env: Option<&str>) -> (r: Option<i32>)
    ensures
        match r {
            Some(d) => gpu_setting(env) == Some(d as int),
            None => gpu_setting(env) is None,
        },
{
    match env {
        Some(v) => {
            let chars: Vec<char> = to_chars(v);
            let (a, b) = trim_bounds(&chars);
            match parse_signed(piece(&chars, (a, b)), i32::MAX as i64) {
                Some(d) => Some(d as i32),
                None => None,
            }
        },
        None => None,
    }
}

/// Where row `t` of a matrix of `width` four-byte values begins.
pub fn row_offset(t: u32, width: u32) -> (n: usize)
    requires
        t * width * 4 <= usize::MAX,
    ensures
        n == t * width * 4,
{
    proof {
        let (a, b) = (t as int, width as int);
        assert(0 <= a * b) by (nonlinear_arith)
            requires
                0 <= a,
                0 <= b,
        ;
    }
    t as usize * width as usize * 4
}

/// The best device has the fastest link; among those the highest capability; and
/// among those the lowest number.
pub proof fn best_has_fastest_link(probes: Seq<Probe>, i: int)
    requires
        0 <= i < probes.len(),
    ensures
        best_of(probes, probes.len() as int) matches Some(b) && {
            let p = probes[i];
            &&& b.bandwidth >= p.bandwidth
            &&& b.bandwidth == p.bandwidth ==> b.capability >= p.capability
            &&& b.bandwidth == p.bandwidth && b.capability == p.capability ==> b.dev <= p.dev
        },
{
    best_is_best(probes, probes.len() as int);
    let b = best_of(probes, probes.len() as int)->0;
    assert(!better(probes[i], b));
}

} // verus!
