//! Integer dot products of quantized expert rows with quantized activations.
//!
//! Per block of 256 the sum is exact integer arithmetic; the caller multiplies
//! it by the block's real factors.

use vstd::prelude::*;
use vstd::slice::slice_subrange;

use crate::le::{le_value, pow256_values, read_le};
use crate::quant::{bits, q2k_term, signed};

verus! {

/// Bytes of an IQ2_XXS block: a half precision factor and sixteen words.
pub const IQ2_XXS_BLOCK_BYTES: usize = 66;

/// Bytes of a Q2_K block.
pub const Q2_K_BLOCK_BYTES: usize = 84;

/// The first `n` values of a function, added up.
pub open spec fn sum(f: spec_fn(int) -> int, n: int) -> int
    decreases n,
{
    if n <= 0 {
        0
    } else {
        sum(f, n - 1) + f(n - 1)
    }
}

proof fn sum_bound(f: spec_fn(int) -> int, n: int, m: int)
    requires
        0 <= n,
        0 <= m,
        forall|i: int| 0 <= i < n ==> -m <= #[trigger] f(i) <= m,
    ensures
        -(n * m) <= sum(f, n) <= n * m,
    decreases n,
{
    if n > 0 {
        sum_bound(f, n - 1, m);
        assert(n * m == (n - 1) * m + m) by (nonlinear_arith);
    }
}

proof fn sum_split(f: spec_fn(int) -> int, a: int, n: int)
    requires
        0 <= a <= n,
    ensures
        sum(f, n) == sum(f, a) + sum(|i: int| f(a + i), n - a),
    decreases n - a,
{
    let g = |i: int| f(a + i);
    if a < n {
        sum_split(f, a, n - 1);
        assert(sum(g, n - a) == sum(g, n - a - 1) + g(n - a - 1));
    }
}

proof fn sum_same(f: spec_fn(int) -> int, g: spec_fn(int) -> int, n: int)
    requires
        forall|i: int| 0 <= i < n ==> #[trigger] f(i) == g(i),
    ensures
        sum(f, n) == sum(g, n),
    decreases n,
{
    if n > 0 {
        sum_same(f, g, n - 1);
    }
}

proof fn sum_scaled(f: spec_fn(int) -> int, k: int, n: int)
    ensures
        sum(|i: int| f(i) * k, n) == sum(f, n) * k,
    decreases n,
{
    let g = |i: int| f(i) * k;
    if n > 0 {
        sum_scaled(f, k, n - 1);
        assert((sum(f, n - 1) + f(n - 1)) * k == sum(f, n - 1) * k + f(n - 1) * k)
            by (nonlinear_arith);
    } else {
        assert(0 * k == 0);
    }
}

/// Group sum `j`: sixteen activations added up.
pub open spec fn group_sum(qs: Seq<i8>, j: int) -> int {
    sum(|i: int| qs[16 * j + i] as int, 16)
}

/// The sums of each sixteen activations; a remainder is ignored.
pub open spec fn group_sums(qs: Seq<i8>) -> Seq<i32> {
    Seq::new((qs.len() / 16) as nat, |j: int| group_sum(qs, j) as i32)
}

proof fn group_sum_bound(qs: Seq<i8>, j: int)
    ensures
        -2048 <= group_sum(qs, j) <= 2048,
{
    sum_bound(|i: int| qs[16 * j + i] as int, 16, 128);
}

/// Adds up each sixteen activations.
pub fn block_sums(qs: &[i8]) -> (out: Vec<i32>)
    ensures
        out@ == group_sums(qs@),
{
    let n: usize = qs.len() / 16;
    let mut out: Vec<i32> = Vec::new();
    let mut j: usize = 0;
    while j < n
        invariant
            j <= n,
            n == qs.len() / 16,
            out@ =~= group_sums(qs@).take(j as int),
        decreases n - j,
    {
        let ghost f = |i: int| qs@[16 * j + i] as int;
        let mut s: i32 = 0;
        let mut i: usize = 0;
        assert(16 * j + 16 <= qs.len());
        while i < 16
            invariant
                i <= 16,
                16 * j + 16 <= qs.len(),
                f == (|i: int| qs@[16 * j + i] as int),
                s == sum(f, i as int),
                -128 * i <= s <= 128 * i,
            decreases 16 - i,
        {
            s = s + qs[16 * j + i] as i32;
            i += 1;
        }
        out.push(s);
        j += 1;
    }
    assert(out@ =~= group_sums(qs@));
    out
}

/// What weight `i` of a Q2_K block contributes to the scaled sum.
pub open spec fn q2k_product(blk: Seq<u8>, q8: Seq<i8>, i: int) -> int {
    let t = q2k_term(blk, i);
    t.scale * t.q * q8[i]
}

/// The scaled sum of a Q2_K block.
pub open spec fn q2k_isum(blk: Seq<u8>, q8: Seq<i8>) -> int {
    sum(|i: int| q2k_product(blk, q8, i), 256)
}

/// The minimum of group `j`.
pub open spec fn q2k_min(blk: Seq<u8>, j: int) -> int {
    bits(blk[j], 4, 15) as int
}

/// The sum of a Q2_K block's minima, by group sums of the activations.
pub open spec fn q2k_summs(blk: Seq<u8>, bsums: Seq<i32>) -> int {
    sum(|j: int| bsums[j] * q2k_min(blk, j), 16)
}

proof fn bits_small(b: u8, s: u8)
    requires
        s < 8,
    ensures
        bits(b, s, 15) <= 15,
        bits(b, s, 3) <= 3,
{
    assert((b >> s) & 15 <= 15) by (bit_vector);
    assert((b >> s) & 3 <= 3) by (bit_vector);
}

proof fn q2k_product_bound(blk: Seq<u8>, q8: Seq<i8>, i: int)
    requires
        0 <= i < 256,
    ensures
        0 <= q2k_term(blk, i).scale <= 15,
        0 <= q2k_term(blk, i).q <= 3,
        -5760 <= q2k_product(blk, q8, i) <= 5760,
{
    let t = q2k_term(blk, i);
    bits_small(blk[i / 16], 0);
    bits_small(blk[16 + i / 128 * 32 + i % 32], (i % 128 / 32 * 2) as u8);
    let (a, b, c) = (t.scale as int, t.q as int, q8[i] as int);
    assert(0 <= a * b <= 45) by (nonlinear_arith)
        requires
            0 <= a <= 15,
            0 <= b <= 3,
    ;
    assert(-5760 <= a * b * c <= 5760) by (nonlinear_arith)
        requires
            0 <= a * b <= 45,
            -128 <= c <= 127,
    ;
}

/// Adds up a Q2_K block's minima.
fn q2k_minima(blk: &[u8], bsums: &[i32]) -> (summs: i32)
    requires
        blk@.len() >= 84,
        bsums@.len() >= 16,
        forall|j: int| 0 <= j < 16 ==> -2048 <= #[trigger] bsums@[j] <= 2048,
    ensures
        summs == q2k_summs(blk@, bsums@),
{
    let ghost g = |j: int| bsums@[j] * q2k_min(blk@, j);
    let mut summs: i32 = 0;
    let mut j: usize = 0;
    while j < 16
        invariant
            j <= 16,
            blk@.len() >= 84,
            bsums@.len() >= 16,
            forall|j: int| 0 <= j < 16 ==> -2048 <= #[trigger] bsums@[j] <= 2048,
            g == (|j: int| bsums@[j] * q2k_min(blk@, j)),
            summs == sum(g, j as int),
            -30720 * j <= summs <= 30720 * j,
        decreases 16 - j,
    {
        let b: u8 = blk[j];
        let m: u8 = (b >> 4) & 15;
        assert(m == b >> 4) by (bit_vector)
            requires
                m == (b >> 4) & 15,
        ;
        proof {
            bits_small(blk@[j as int], 4);
            let (x, y) = (bsums@[j as int] as int, m as int);
            assert(-30720 <= x * y <= 30720) by (nonlinear_arith)
                requires
                    -2048 <= x <= 2048,
                    0 <= y <= 15,
            ;
        }
        summs = summs + bsums[j] * (m as i32);
        j += 1;
    }
    summs
}

/// The two integer sums of a Q2_K block against 256 activations. Its dot
/// product is `d * isum - dmin * summs`, times the activations' factor.
pub fn q2k_block_dot(blk: &[u8], q8: &[i8], bsums: &[i32]) -> (r: (i32, i32))
    requires
        blk@.len() >= 84,
        q8@.len() >= 256,
        bsums@.len() >= 16,
        forall|j: int| 0 <= j < 16 ==> -2048 <= #[trigger] bsums@[j] <= 2048,
    ensures
        r.0 == q2k_isum(blk@, q8@),
        r.1 == q2k_summs(blk@, bsums@),
{
    let summs: i32 = q2k_minima(blk, bsums);
    let ghost f = |i: int| q2k_product(blk@, q8@, i);
    let mut isum: i32 = 0;
    let mut i: usize = 0;
    while i < 256
        invariant
            i <= 256,
            blk@.len() >= 84,
            q8@.len() >= 256,
            f == (|i: int| q2k_product(blk@, q8@, i)),
            isum == sum(f, i as int),
            -5760 * i <= isum <= 5760 * i,
        decreases 256 - i,
    {
        proof {
            q2k_product_bound(blk@, q8@, i as int);
        }
        let scale: i32 = ((blk[i / 16] >> 0) & 15) as i32;
        let q: i32 = ((blk[16 + i / 128 * 32 + i % 32] >> ((i % 128 / 32 * 2) as u8)) & 3) as i32;
        proof {
            assert(0 <= scale * q <= 45) by (nonlinear_arith)
                requires
                    0 <= scale <= 15,
                    0 <= q <= 3,
            ;
        }
        isum = isum + scale * q * (q8[i] as i32);
        i += 1;
    }
    (isum, summs)
}

/// Group `g` of a block's weights adds its scale times the sum of its own
/// products.
proof fn q2k_group(blk: Seq<u8>, q8: Seq<i8>, g: int)
    requires
        0 <= g < 16,
    ensures
        sum(|i: int| q2k_product(blk, q8, i), 16 * (g + 1)) == sum(
            |i: int| q2k_product(blk, q8, i),
            16 * g,
        ) + bits(blk[g], 0, 15) * sum(|l: int| q2k_term(blk, 16 * g + l).q * q8[16 * g + l], 16),
{
    let all = |i: int| q2k_product(blk, q8, i);
    let own = |l: int| q2k_term(blk, 16 * g + l).q * q8[16 * g + l];
    let d = bits(blk[g], 0, 15) as int;
    sum_split(all, 16 * g, 16 * (g + 1));
    sum_scaled(own, d, 16);
    let tail = |l: int| all(16 * g + l);
    let scaled = |l: int| own(l) * d;
    assert forall|l: int| 0 <= l < 16 implies #[trigger] tail(l) == scaled(l) by {
        let i = 16 * g + l;
        assert(i / 16 == g);
        let (q, x) = (q2k_term(blk, i).q as int, q8[i] as int);
        assert(d * q * x == q * x * d) by (nonlinear_arith);
    }
    sum_same(tail, scaled, 16);
    assert(sum(own, 16) * d == d * sum(own, 16)) by (nonlinear_arith);
}

/// The two integer sums of a Q2_K block, group by group: the products of a
/// group are added up first and scaled together.
pub fn q2k_block_dot_scalar(blk: &[u8], q8: &[i8], bsums: &[i32]) -> (r: (i32, i32))
    requires
        blk@.len() >= 84,
        q8@.len() >= 256,
        bsums@.len() >= 16,
        forall|j: int| 0 <= j < 16 ==> -2048 <= #[trigger] bsums@[j] <= 2048,
    ensures
        r.0 == q2k_isum(blk@, q8@),
        r.1 == q2k_summs(blk@, bsums@),
{
    let summs: i32 = q2k_minima(blk, bsums);
    let ghost f = |i: int| q2k_product(blk@, q8@, i);
    let mut isum: i32 = 0;
    let mut g: usize = 0;
    while g < 16
        invariant
            g <= 16,
            blk@.len() >= 84,
            q8@.len() >= 256,
            f == (|i: int| q2k_product(blk@, q8@, i)),
            isum == sum(f, 16 * g),
            -92160 * g <= isum <= 92160 * g,
        decreases 16 - g,
    {
        let d: i32 = ((blk[g] >> 0) & 15) as i32;
        let base: usize = 16 + g / 8 * 32 + g % 2 * 16;
        let shift: u8 = (g % 8 / 2 * 2) as u8;
        let ghost own = |l: int| q2k_term(blk@, 16 * g + l).q * q8@[16 * g + l];
        let mut sumi: i32 = 0;
        let mut l: usize = 0;
        while l < 16
            invariant
                l <= 16,
                g < 16,
                blk@.len() >= 84,
                q8@.len() >= 256,
                base == 16 + g / 8 * 32 + g % 2 * 16,
                shift == g % 8 / 2 * 2,
                own == (|l: int| q2k_term(blk@, 16 * g + l).q * q8@[16 * g + l]),
                sumi == sum(own, l as int),
                -384 * l <= sumi <= 384 * l,
            decreases 16 - l,
        {
            let ghost i = 16 * g + l;
            proof {
                bits_small(blk@[base + l], shift);
                assert(i / 128 == g / 8);
                assert(i % 32 == g % 2 * 16 + l);
                assert(i % 128 / 32 * 2 == g % 8 / 2 * 2);
            }
            let q: i32 = ((blk[base + l] >> shift) & 3) as i32;
            let x: i32 = q8[16 * g + l] as i32;
            proof {
                assert(-384 <= q * x <= 384) by (nonlinear_arith)
                    requires
                        0 <= q <= 3,
                        -128 <= x <= 127,
                ;
                assert(own(l as int) == q * x);
            }
            sumi = sumi + q * x;
            l += 1;
        }
        proof {
            q2k_group(blk@, q8@, g as int);
            bits_small(blk@[g as int], 0);
            assert(-92160 <= d * sumi <= 92160) by (nonlinear_arith)
                requires
                    0 <= d <= 15,
                    -6144 <= sumi <= 6144,
            ;
        }
        isum = isum + d * sumi;
        g += 1;
    }
    (isum, summs)
}

/// With the activations' own group sums, the minima's sum is that over all
/// weights: a block's dot product is that of its weights taken apart.
pub proof fn q2k_minima_match(blk: Seq<u8>, q8: Seq<i8>)
    requires
        q8.len() >= 256,
    ensures
        q2k_summs(blk, group_sums(q8)) == sum(|i: int| q2k_term(blk, i).min * q8[i], 256),
{
    minima_prefix(blk, q8, 16);
}

proof fn minima_prefix(blk: Seq<u8>, q8: Seq<i8>, n: int)
    requires
        0 <= n <= 16,
        q8.len() >= 256,
    ensures
        sum(|j: int| group_sums(q8)[j] * q2k_min(blk, j), n) == sum(
            |i: int| q2k_term(blk, i).min * q8[i],
            16 * n,
        ),
    decreases n,
{
    let all = |i: int| q2k_term(blk, i).min * q8[i];
    let by_group = |j: int| group_sums(q8)[j] * q2k_min(blk, j);
    if n > 0 {
        let k = n - 1;
        minima_prefix(blk, q8, k);
        sum_split(all, 16 * k, 16 * n);
        let m = q2k_min(blk, k);
        bits_small(blk[k], 4);
        let own = |i: int| q8[16 * k + i] as int;
        sum_scaled(own, m, 16);
        let tail = |i: int| all(16 * k + i);
        assert forall|i: int| 0 <= i < 16 implies #[trigger] tail(i) == (|i: int| own(i) * m)(
            i,
        ) by {
            assert((16 * k + i) / 16 == k);
            assert(q2k_term(blk, 16 * k + i).min == m);
            assert(m * q8[16 * k + i] == q8[16 * k + i] * m) by (nonlinear_arith);
        }
        sum_same(tail, |i: int| own(i) * m, 16);
        group_sum_bound(q8, k);
        assert(group_sums(q8)[k] == group_sum(q8, k));
    }
}

/// How many bits of `x` are one.
pub open spec fn ones(x: nat) -> nat
    decreases x,
{
    if x == 0 {
        0
    } else {
        x % 2 + ones(x / 2)
    }
}

/// A stored seven-bit sign mask with an eighth bit that makes the number of
/// ones even.
pub open spec fn full_mask(s7: nat) -> nat {
    s7 + 128 * (ones(s7) % 2)
}

/// Completes a sign mask.
pub fn sign_mask(s7: u32) -> (m: u32)
    requires
        s7 < 128,
    ensures
        m == full_mask(s7 as nat),
        m < 256,
{
    let mut n: u32 = 0;
    let mut x: u32 = s7;
    while x > 0
        invariant
            s7 < 128,
            x <= s7,
            n + x <= s7,
            n + ones(x as nat) == ones(s7 as nat),
        decreases x,
    {
        n = n + x % 2;
        x = x / 2;
    }
    s7 + 128 * (n % 2)
}

/// Two to the power of `k`.
pub open spec fn two_to(k: nat) -> nat
    decreases k,
{
    if k == 0 {
        1
    } else {
        2 * two_to((k - 1) as nat)
    }
}

proof fn ones_of_sum(x: nat, k: nat)
    requires
        x < two_to(k),
    ensures
        ones(x + two_to(k)) == ones(x) + 1,
    decreases k,
{
    if k == 0 {
        reveal_with_fuel(ones, 2);
    } else {
        let h = two_to((k - 1) as nat);
        ones_of_sum(x / 2, (k - 1) as nat);
        assert((x + 2 * h) / 2 == x / 2 + h);
        assert((x + 2 * h) % 2 == x % 2);
    }
}

/// A completed mask keeps the stored bits and has an even number of ones.
pub proof fn full_mask_is_even(s7: nat)
    requires
        s7 < 128,
    ensures
        full_mask(s7) % 128 == s7,
        ones(full_mask(s7)) % 2 == 0,
{
    reveal_with_fuel(two_to, 8);
    ones_of_sum(s7, 7);
}

/// Bit `i` of `x`.
pub open spec fn bit(x: nat, i: nat) -> bool
    decreases i,
{
    if i == 0 {
        x % 2 == 1
    } else {
        bit(x / 2, (i - 1) as nat)
    }
}

/// The word at `at`.
pub open spec fn word(blk: Seq<u8>, at: int) -> nat {
    le_value(blk.subrange(at, at + 4))
}

/// The seven stored sign bits of the eight weights from `8 * k` on in
/// sub-block `ib`.
pub open spec fn stored_signs(blk: Seq<u8>, ib: int, k: int) -> nat {
    let w = word(blk, 6 + 8 * ib);
    (if k == 0 {
        w % 128
    } else if k == 1 {
        w / 128 % 128
    } else if k == 2 {
        w / 16384 % 128
    } else {
        w / 2097152 % 128
    }) as nat
}

/// The odd scale of sub-block `ib`.
pub open spec fn iq2_scale(blk: Seq<u8>, ib: int) -> int {
    2 * (word(blk, 6 + 8 * ib) as int / 0x1000_0000) + 1
}

/// Whether weight `i` is negated.
pub open spec fn negated(blk: Seq<u8>, i: int) -> bool {
    bit(full_mask(stored_signs(blk, i / 32, i % 32 / 8)), (i % 8) as nat)
}

/// Byte `i` of a grid word.
pub open spec fn grid_byte(w: u64, i: int) -> u8
    decreases i,
{
    if i <= 0 {
        (w % 256) as u8
    } else {
        grid_byte(w / 256, i - 1)
    }
}

/// The grid value of weight `i`.
pub open spec fn grid_value(blk: Seq<u8>, grid: Seq<u64>, i: int) -> int {
    signed(grid_byte(grid[blk[2 + 8 * (i / 32) + i % 32 / 8] as int], i % 8))
}

/// Weight `i` of a block, without its factors.
pub open spec fn iq2_weight(blk: Seq<u8>, grid: Seq<u64>, i: int) -> int {
    if negated(blk, i) {
        -grid_value(blk, grid, i)
    } else {
        grid_value(blk, grid, i)
    }
}

/// What weight `i` contributes to the block's sum.
pub open spec fn iq2_product(blk: Seq<u8>, grid: Seq<u64>, q8: Seq<i8>, i: int) -> int {
    iq2_scale(blk, i / 32) * (iq2_weight(blk, grid, i) * q8[i])
}

/// The sum of a block.
pub open spec fn iq2_sum(blk: Seq<u8>, grid: Seq<u64>, q8: Seq<i8>) -> int {
    sum(|i: int| iq2_product(blk, grid, q8, i), 256)
}

fn read_word(blk: &[u8], at: usize) -> (w: u32)
    requires
        at + 4 <= blk@.len(),
    ensures
        w == word(blk@, at as int),
{
    proof {
        pow256_values();
    }
    read_le(blk, at, 4) as u32
}

fn get_signs(w: u32, k: usize, blk: Ghost<Seq<u8>>, ib: Ghost<int>) -> (s: u32)
    requires
        k < 4,
        w == word(blk@, 6 + 8 * ib@),
    ensures
        s == stored_signs(blk@, ib@, k as int),
        s < 128,
{
    if k == 0 {
        w % 128
    } else if k == 1 {
        w / 128 % 128
    } else if k == 2 {
        w / 16384 % 128
    } else {
        w / 2097152 % 128
    }
}

fn test_bit(x: u32, i: usize) -> (r: bool)
    ensures
        r == bit(x as nat, i as nat),
    decreases i,
{
    if i == 0 {
        x % 2 == 1
    } else {
        test_bit(x / 2, i - 1)
    }
}

fn take_byte(w: u64, i: usize) -> (b: u8)
    ensures
        b == grid_byte(w, i as int),
    decreases i,
{
    if i == 0 {
        (w % 256) as u8
    } else {
        take_byte(w / 256, i - 1)
    }
}

fn weight_at(blk: &[u8], grid: &[u64], i: usize) -> (w: i32)
    requires
        blk@.len() >= 66,
        grid@.len() >= 256,
        i < 256,
    ensures
        w == iq2_weight(blk@, grid@, i as int),
        -128 <= w <= 128,
{
    let ib: usize = i / 32;
    let k: usize = i % 32 / 8;
    let aux: u32 = read_word(blk, 6 + 8 * ib);
    let s7: u32 = get_signs(aux, k, Ghost(blk@), Ghost(ib as int));
    let b: u8 = take_byte(grid[blk[2 + 8 * ib + k] as usize], i % 8);
    let g: i32 = if b < 128 {
        b as i32
    } else {
        b as i32 - 256
    };
    if test_bit(sign_mask(s7), i % 8) {
        -g
    } else {
        g
    }
}

fn scale_at(blk: &[u8], ib: usize) -> (s: i32)
    requires
        blk@.len() >= 66,
        ib < 8,
    ensures
        s == iq2_scale(blk@, ib as int),
        1 <= s <= 31,
{
    let aux: u32 = read_word(blk, 6 + 8 * ib);
    (2 * (aux / 0x1000_0000) + 1) as i32
}

/// The integer sum of an IQ2_XXS block against 256 activations. `grid` is the
/// format's table of eight-byte patterns.
pub fn iq2_xxs_block_dot(blk: &[u8], grid: &[u64], q8: &[i8]) -> (r: i32)
    requires
        blk@.len() >= 66,
        grid@.len() >= 256,
        q8@.len() >= 256,
    ensures
        r == iq2_sum(blk@, grid@, q8@),
{
    let ghost f = |i: int| iq2_product(blk@, grid@, q8@, i);
    let mut total: i32 = 0;
    let mut i: usize = 0;
    while i < 256
        invariant
            i <= 256,
            blk@.len() >= 66,
            grid@.len() >= 256,
            q8@.len() >= 256,
            f == (|i: int| iq2_product(blk@, grid@, q8@, i)),
            total == sum(f, i as int),
            -507904 * i <= total <= 507904 * i,
        decreases 256 - i,
    {
        let s: i32 = scale_at(blk, i / 32);
        let w: i32 = weight_at(blk, grid, i);
        let q: i32 = q8[i] as i32;
        proof {
            product_bound(s as int, w as int, q as int);
        }
        total = total + s * (w * q);
        i += 1;
    }
    total
}

proof fn product_bound(s: int, w: int, q: int)
    requires
        1 <= s <= 31,
        -128 <= w <= 128,
        -128 <= q <= 127,
    ensures
        -16384 <= w * q <= 16384,
        -507904 <= s * (w * q) <= 507904,
{
    assert(-16384 <= w * q <= 16384) by (nonlinear_arith)
        requires
            -128 <= w <= 128,
            -128 <= q <= 127,
    ;
    let p = w * q;
    assert(-507904 <= s * p <= 507904) by (nonlinear_arith)
        requires
            1 <= s <= 31,
            -16384 <= p <= 16384,
    ;
}

/// The signs of eight weights, one per byte: 0xff for minus one, 1 for one.
pub open spec fn sign_byte(s7: nat, i: nat) -> u8 {
    if bit(full_mask(s7), i) {
        0xff
    } else {
        1
    }
}

/// The table of sign bytes for every stored mask.
pub fn build_ksigns() -> (t: Vec<[u8; 8]>)
    ensures
        t@.len() == 128,
        forall|m: int, i: int|
            0 <= m < 128 && 0 <= i < 8 ==> #[trigger] t@[m]@[i] == sign_byte(m as nat, i as nat),
{
    let mut t: Vec<[u8; 8]> = Vec::new();
    let mut m: u32 = 0;
    while m < 128
        invariant
            m <= 128,
            t@.len() == m,
            forall|x: int, i: int|
                0 <= x < m && 0 <= i < 8 ==> #[trigger] t@[x]@[i] == sign_byte(
                    x as nat,
                    i as nat,
                ),
        decreases 128 - m,
    {
        let full: u32 = sign_mask(m);
        let mut row: [u8; 8] = [1, 1, 1, 1, 1, 1, 1, 1];
        let mut i: usize = 0;
        while i < 8
            invariant
                i <= 8,
                m < 128,
                full == full_mask(m as nat),
                forall|k: int| 0 <= k < i ==> #[trigger] row@[k] == sign_byte(m as nat, k as nat),
                forall|k: int| i <= k < 8 ==> #[trigger] row@[k] == 1,
            decreases 8 - i,
        {
            if test_bit(full, i) {
                row[i] = 0xff;
            }
            i += 1;
        }
        t.push(row);
        m += 1;
    }
    t
}

/// The same sum with the signs moved from the weights to the activations by
/// table, as vector units compute it.
pub fn iq2_xxs_block_dot_by_table(
    blk: &[u8],
    grid: &[u64],
    ksigns: &[[u8; 8]],
    q8: &[i8],
) -> (r: i32)
    requires
        blk@.len() >= 66,
        grid@.len() >= 256,
        q8@.len() >= 256,
        ksigns@.len() == 128,
        forall|m: int, i: int|
            0 <= m < 128 && 0 <= i < 8 ==> #[trigger] ksigns@[m]@[i] == sign_byte(
                m as nat,
                i as nat,
            ),
    ensures
        r == iq2_sum(blk@, grid@, q8@),
{
    let ghost f = |i: int| iq2_product(blk@, grid@, q8@, i);
    let mut total: i32 = 0;
    let mut i: usize = 0;
    while i < 256
        invariant
            i <= 256,
            blk@.len() >= 66,
            grid@.len() >= 256,
            q8@.len() >= 256,
            ksigns@.len() == 128,
            forall|m: int, i: int|
                0 <= m < 128 && 0 <= i < 8 ==> #[trigger] ksigns@[m]@[i] == sign_byte(
                    m as nat,
                    i as nat,
                ),
            f == (|i: int| iq2_product(blk@, grid@, q8@, i)),
            total == sum(f, i as int),
            -507904 * i <= total <= 507904 * i,
        decreases 256 - i,
    {
        let ib: usize = i / 32;
        let k: usize = i % 32 / 8;
        let s: i32 = scale_at(blk, ib);
        let aux: u32 = read_word(blk, 6 + 8 * ib);
        let s7: u32 = get_signs(aux, k, Ghost(blk@), Ghost(ib as int));
        let sign: u8 = ksigns[s7 as usize][i % 8];
        let b: u8 = take_byte(grid[blk[2 + 8 * ib + k] as usize], i % 8);
        let g: i32 = if b < 128 {
            b as i32
        } else {
            b as i32 - 256
        };
        let q: i32 = if sign == 0xff {
            -(q8[i] as i32)
        } else {
            q8[i] as i32
        };
        proof {
            let x = q8@[i as int] as int;
            let w = iq2_weight(blk@, grid@, i as int);
            assert(ksigns@[s7 as int]@[(i % 8) as int] == sign_byte(s7 as nat, (i % 8) as nat));
            assert(g * (-x) == (-g) * x) by (nonlinear_arith);
            assert(g * q == w * x);
            product_bound(s as int, w, x);
        }
        total = total + s * (g * q);
        i += 1;
    }
    total
}

/// A row of activations quantized in blocks of 256.
pub struct Q8KRow {
    /// Bits of each block's factor.
    pub d: Vec<u32>,
    pub qs: Vec<i8>,
    /// Sums of each sixteen quants.
    pub bsums: Vec<i32>,
}

impl Q8KRow {
    /// The sums are those of the quants.
    pub open spec fn wf(&self) -> bool {
        self.bsums@ == group_sums(self.qs@)
    }

    /// A row with the sums of its quants.
    pub fn new(d: Vec<u32>, qs: Vec<i8>) -> (r: Q8KRow)
        ensures
            r.d == d,
            r.qs == qs,
            r.wf(),
    {
        let bsums: Vec<i32> = block_sums(&qs);
        Q8KRow { d, qs, bsums }
    }
}

/// Block `k` of a sequence, of `n` items each.
pub open spec fn part<T>(s: Seq<T>, k: int, n: int) -> Seq<T> {
    s.subrange(k * n, (k + 1) * n)
}

proof fn group_sums_part(qs: Seq<i8>, k: int)
    requires
        0 <= k,
        (k + 1) * 256 <= qs.len(),
    ensures
        (k + 1) * 16 <= group_sums(qs).len(),
        part(group_sums(qs), k, 16) == group_sums(part(qs, k, 256)),
        forall|j: int|
            0 <= j < 16 ==> -2048 <= #[trigger] part(group_sums(qs), k, 16)[j] <= 2048,
{
    let a = part(group_sums(qs), k, 16);
    let b = group_sums(part(qs, k, 256));
    assert forall|j: int| 0 <= j < 16 implies #[trigger] a[j] == b[j] by {
        let f = |i: int| qs[16 * (k * 16 + j) + i] as int;
        let g = |i: int| part(qs, k, 256)[16 * j + i] as int;
        sum_same(f, g, 16);
    }
    assert(a =~= b);
    assert forall|j: int| 0 <= j < 16 implies -2048 <= #[trigger] a[j] <= 2048 by {
        group_sum_bound(part(qs, k, 256), j);
    }
}

/// Whether `out` holds the two integer sums of each of the first `nb` Q2_K
/// blocks of a row against the activations `qs`.
pub open spec fn q2k_sums(row: Seq<u8>, qs: Seq<i8>, nb: usize, out: Seq<(i32, i32)>) -> bool {
    &&& out.len() == nb
    &&& forall|k: int|
        0 <= k < nb ==> {
            let blk = part(row, k, 84);
            let q8 = part(qs, k, 256);
            &&& (#[trigger] out[k]).0 == q2k_isum(blk, q8)
            &&& out[k].1 == q2k_summs(blk, group_sums(q8))
        }
}

/// The two integer sums of each Q2_K block of a row of `n` weights.
pub fn vec_dot_q2_k_q8_k(row: &[u8], x: &Q8KRow, n: usize) -> (out: Vec<(i32, i32)>)
    requires
        x.wf(),
        n % 256 == 0,
        n <= x.qs@.len(),
        n / 256 * 84 <= row@.len(),
    ensures
        q2k_sums(row@, x.qs@, n / 256, out@),
{
    let nb: usize = n / 256;
    let mut out: Vec<(i32, i32)> = Vec::new();
    let mut k: usize = 0;
    while k < nb
        invariant
            k <= nb,
            nb == n / 256,
            n % 256 == 0,
            x.wf(),
            n <= x.qs.len(),
            nb * 84 <= row.len(),
            q2k_sums(row@, x.qs@, k, out@),
        decreases nb - k,
    {
        proof {
            group_sums_part(x.qs@, k as int);
        }
        let blk: &[u8] = slice_subrange(row, k * 84, k * 84 + 84);
        let q8: &[i8] = slice_subrange(&x.qs, k * 256, k * 256 + 256);
        assert((k + 1) * 16 <= x.bsums.len());
        let bs: &[i32] = slice_subrange(&x.bsums, k * 16, k * 16 + 16);
        out.push(q2k_block_dot(blk, q8, bs));
        k += 1;
    }
    out
}

/// The same sums, each block's group by group.
pub fn vec_dot_q2_k_q8_k_scalar(row: &[u8], x: &Q8KRow, n: usize) -> (out: Vec<(i32, i32)>)
    requires
        x.wf(),
        n % 256 == 0,
        n <= x.qs@.len(),
        n / 256 * 84 <= row@.len(),
    ensures
        q2k_sums(row@, x.qs@, n / 256, out@),
{
    let nb: usize = n / 256;
    let mut out: Vec<(i32, i32)> = Vec::new();
    let mut k: usize = 0;
    while k < nb
        invariant
            k <= nb,
            nb == n / 256,
            n % 256 == 0,
            x.wf(),
            n <= x.qs.len(),
            nb * 84 <= row.len(),
            q2k_sums(row@, x.qs@, k, out@),
        decreases nb - k,
    {
        proof {
            group_sums_part(x.qs@, k as int);
        }
        let blk: &[u8] = slice_subrange(row, k * 84, k * 84 + 84);
        let q8: &[i8] = slice_subrange(&x.qs, k * 256, k * 256 + 256);
        assert((k + 1) * 16 <= x.bsums.len());
        let bs: &[i32] = slice_subrange(&x.bsums, k * 16, k * 16 + 16);
        out.push(q2k_block_dot_scalar(blk, q8, bs));
        k += 1;
    }
    out
}

/// Both ways to add up a row give the same sums.
pub proof fn q2k_sums_agree(
    row: Seq<u8>,
    qs: Seq<i8>,
    nb: usize,
    fast: Seq<(i32, i32)>,
    scalar: Seq<(i32, i32)>,
)
    requires
        q2k_sums(row, qs, nb, fast),
        q2k_sums(row, qs, nb, scalar),
    ensures
        fast == scalar,
{
    assert(fast =~= scalar);
}

/// The integer sum of each IQ2_XXS block of a row of `n` weights.
pub fn vec_dot_iq2_xxs_q8_k_scalar(row: &[u8], grid: &[u64], x: &Q8KRow, n: usize) -> (out: Vec<
    i32,
>)
    requires
        grid@.len() >= 256,
        n % 256 == 0,
        n <= x.qs@.len(),
        n / 256 * 66 <= row@.len(),
    ensures
        out@.len() == n / 256,
        forall|k: int|
            0 <= k < n / 256 ==> #[trigger] out@[k] == iq2_sum(
                part(row@, k, 66),
                grid@,
                part(x.qs@, k, 256),
            ),
{
    let nb: usize = n / 256;
    let mut out: Vec<i32> = Vec::new();
    let mut k: usize = 0;
    while k < nb
        invariant
            k <= nb,
            nb == n / 256,
            n % 256 == 0,
            grid@.len() >= 256,
            n <= x.qs.len(),
            nb * 66 <= row.len(),
            out@.len() == k,
            forall|k0: int|
                0 <= k0 < k ==> #[trigger] out@[k0] == iq2_sum(
                    part(row@, k0, 66),
                    grid@,
                    part(x.qs@, k0, 256),
                ),
        decreases nb - k,
    {
        let blk: &[u8] = slice_subrange(row, k * 66, k * 66 + 66);
        let q8: &[i8] = slice_subrange(&x.qs, k * 256, k * 256 + 256);
        out.push(iq2_xxs_block_dot(blk, grid, q8));
        k += 1;
    }
    out
}

/// The same sums with signs taken from a table, as vector units compute them.
pub fn vec_dot_iq2_xxs_q8_k(
    row: &[u8],
    grid: &[u64],
    ksigns: &[[u8; 8]],
    x: &Q8KRow,
    n: usize,
) -> (out: Vec<i32>)
    requires
        grid@.len() >= 256,
        n % 256 == 0,
        n <= x.qs@.len(),
        n / 256 * 66 <= row@.len(),
        ksigns@.len() == 128,
        forall|m: int, i: int|
            0 <= m < 128 && 0 <= i < 8 ==> #[trigger] ksigns@[m]@[i] == sign_byte(
                m as nat,
                i as nat,
            ),
    ensures
        out@.len() == n / 256,
        forall|k: int|
            0 <= k < n / 256 ==> #[trigger] out@[k] == iq2_sum(
                part(row@, k, 66),
                grid@,
                part(x.qs@, k, 256),
            ),
{
    let nb: usize = n / 256;
    let mut out: Vec<i32> = Vec::new();
    let mut k: usize = 0;
    while k < nb
        invariant
            k <= nb,
            nb == n / 256,
            n % 256 == 0,
            grid@.len() >= 256,
            n <= x.qs.len(),
            nb * 66 <= row.len(),
            ksigns@.len() == 128,
            forall|m: int, i: int|
                0 <= m < 128 && 0 <= i < 8 ==> #[trigger] ksigns@[m]@[i] == sign_byte(
                    m as nat,
                    i as nat,
                ),
            out@.len() == k,
            forall|k0: int|
                0 <= k0 < k ==> #[trigger] out@[k0] == iq2_sum(
                    part(row@, k0, 66),
                    grid@,
                    part(x.qs@, k0, 256),
                ),
        decreases nb - k,
    {
        let blk: &[u8] = slice_subrange(row, k * 66, k * 66 + 66);
        let q8: &[i8] = slice_subrange(&x.qs, k * 256, k * 256 + 256);
        out.push(iq2_xxs_block_dot_by_table(blk, grid, ksigns, q8));
        k += 1;
    }
    out
}

/// Scale and signed value of each weight of an IQ2_XXS block, without the
/// factor.
pub fn dequant_iq2_xxs(blk: &[u8], grid: &[u64]) -> (out: Vec<(i32, i32)>)
    requires
        blk@.len() >= 66,
        grid@.len() >= 256,
    ensures
        out@ == Seq::new(
            256,
            |i: int| (iq2_scale(blk@, i / 32) as i32, iq2_weight(blk@, grid@, i) as i32),
        ),
{
    let mut out: Vec<(i32, i32)> = Vec::new();
    let mut i: usize = 0;
    while i < 256
        invariant
            i <= 256,
            blk@.len() >= 66,
            grid@.len() >= 256,
            out@ =~= Seq::new(
                i as nat,
                |i: int| (iq2_scale(blk@, i / 32) as i32, iq2_weight(blk@, grid@, i) as i32),
            ),
        decreases 256 - i,
    {
        out.push((scale_at(blk, i / 32), weight_at(blk, grid, i)));
        i += 1;
    }
    out
}

} // verus!
