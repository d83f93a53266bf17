//! Little-endian integers in byte sequences.

use vstd::prelude::*;

verus! {

/// 256 to the power of `n`.
pub open spec fn pow256(n: nat) -> nat
    decreases n,
{
    if n == 0 {
        1
    } else {
        256 * pow256((n - 1) as nat)
    }
}

/// The value of `s`, least significant byte first.
pub open spec fn le_value(s: Seq<u8>) -> nat
    decreases s.len(),
{
    if s.len() == 0 {
        0
    } else {
        s[0] as nat + 256 * le_value(s.drop_first())
    }
}

/// The low `n` bytes of `x`, least significant first.
pub open spec fn le_bytes(x: nat, n: nat) -> Seq<u8>
    decreases n,
{
    if n == 0 {
        Seq::empty()
    } else {
        seq![(x % 256) as u8] + le_bytes(x / 256, (n - 1) as nat)
    }
}

/// `n` bytes hold less than `256^n`.
pub proof fn le_value_bound(s: Seq<u8>)
    ensures
        le_value(s) < pow256(s.len()),
    decreases s.len(),
{
    if s.len() > 0 {
        le_value_bound(s.drop_first());
    }
}

/// There are `n` low bytes.
pub proof fn le_bytes_len(x: nat, n: nat)
    ensures
        le_bytes(x, n).len() == n,
    decreases n,
{
    if n > 0 {
        le_bytes_len(x / 256, (n - 1) as nat);
    }
}

/// A value that fits is read back from its bytes.
pub proof fn le_round_trip(x: nat, n: nat)
    requires
        x < pow256(n),
    ensures
        le_value(le_bytes(x, n)) == x,
        le_bytes(x, n).len() == n,
    decreases n,
{
    if n > 0 {
        le_round_trip(x / 256, (n - 1) as nat);
        assert(le_bytes(x, n).drop_first() =~= le_bytes(x / 256, (n - 1) as nat));
    }
}

/// The powers that machine words end at.
pub proof fn pow256_values()
    ensures
        pow256(1) == 0x100,
        pow256(2) == 0x1_0000,
        pow256(4) == 0x1_0000_0000,
        pow256(7) == 0x100_0000_0000_0000,
        pow256(8) == 0x1_0000_0000_0000_0000,
{
    reveal_with_fuel(pow256, 9);
}

proof fn pow256_grows(a: nat, b: nat)
    requires
        a <= b,
    ensures
        pow256(a) <= pow256(b),
    decreases b,
{
    if a < b {
        pow256_grows(a, (b - 1) as nat);
    }
}

/// Appends the low `n` bytes of `x`.
pub fn push_le(out: &mut Vec<u8>, x: u64, n: usize)
    ensures
        final(out)@ == old(out)@ + le_bytes(x as nat, n as nat),
{
    let mut v: u64 = x;
    let mut k: usize = n;
    while k > 0
        invariant
            k <= n,
            old(out)@ + le_bytes(x as nat, n as nat) == out@ + le_bytes(v as nat, k as nat),
        decreases k,
    {
        let ghost before = out@;
        let ghost rest = le_bytes(v as nat, k as nat);
        out.push((v % 256) as u8);
        assert(before + rest =~= out@ + le_bytes(v as nat / 256, (k - 1) as nat));
        v = v / 256;
        k -= 1;
    }
    assert(out@ =~= out@ + le_bytes(v as nat, 0));
}

/// Reads `n` bytes of `buf` from `at` on.
pub fn read_le(buf: &[u8], at: usize, n: usize) -> (v: u64)
    requires
        n <= 8,
        at + n <= buf@.len(),
    ensures
        v == le_value(buf@.subrange(at as int, at + n)),
        v < pow256(n as nat),
{
    let mut v: u64 = 0;
    let mut k: usize = n;
    let ghost end = at + n;
    assert(buf@.subrange(end, end) =~= Seq::empty());
    while k > 0
        invariant
            k <= n <= 8,
            end == at + n,
            end <= buf.len(),
            v == le_value(buf@.subrange(at + k, end)),
        decreases k,
    {
        let ghost high = buf@.subrange(at + k, end);
        proof {
            le_value_bound(high);
            pow256_grows(high.len(), 7);
            pow256_values();
        }
        k -= 1;
        v = v * 256 + buf[at + k] as u64;
        assert(buf@.subrange(at + k, end).drop_first() =~= high);
    }
    proof {
        le_value_bound(buf@.subrange(at as int, end));
    }
    v
}

} // verus!
