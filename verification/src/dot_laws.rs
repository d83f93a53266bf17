//! That the integer dot products are those of the weights that a block was packed
//! from.

use vstd::arithmetic::div_mod::lemma_div_denominator;
use vstd::prelude::*;

#[allow(unused_imports)]
use crate::dot::{
    bit, full_mask, grid_byte, group_sums, iq2_product, iq2_scale, iq2_sum, iq2_weight, ones,
    q2k_isum, q2k_minima_match, q2k_product, q2k_summs, stored_signs, sum, word,
};
#[allow(unused_imports)]
use crate::gguf::TensorType;
#[allow(unused_imports)]
use crate::le::{le_value, pow256};
#[allow(unused_imports)]
use crate::pack::{all_below, half_byte, q2k_packed, q2k_reads_back};
#[allow(unused_imports)]
use crate::quant::{q2k_term, term};

verus! {

proof fn same_sum(f: spec_fn(int) -> int, g: spec_fn(int) -> int, n: int)
    requires
        forall|i: int| 0 <= i < n ==> #[trigger] f(i) == g(i),
    ensures
        sum(f, n) == sum(g, n),
    decreases n,
{
    if n > 0 {
        same_sum(f, g, n - 1);
    }
}

/// A sum is of its terms, each once.
pub proof fn sum_of_terms(f: spec_fn(int) -> int, n: int)
    ensures
        sum(f, 0) == 0,
        0 <= n ==> sum(f, n + 1) == sum(f, n) + f(n),
{
}

/// The two sums of a Q2_K block against activations are those of the scales,
/// minima and quants that were packed into it: each weight's quant times the
/// scale of its sixteen times its activation, and each weight's minimum times its
/// activation.
pub proof fn q2k_sums_of_packed(
    sc: Seq<int>,
    mn: Seq<int>,
    q: Seq<int>,
    d: u16,
    dmin: u16,
    x: Seq<i8>,
)
    requires
        all_below(sc, 16, 16),
        all_below(mn, 16, 16),
        all_below(q, 256, 4),
        x.len() >= 256,
    ensures
        ({
            let blk = q2k_packed(sc, mn, q, d, dmin);
            &&& q2k_isum(blk, x) == sum(|i: int| sc[i / 16] * q[i] * x[i], 256)
            &&& q2k_summs(blk, group_sums(x)) == sum(|i: int| mn[i / 16] * x[i], 256)
        }),
{
    let blk = q2k_packed(sc, mn, q, d, dmin);
    let f = |i: int| q2k_product(blk, x, i);
    let g = |i: int| sc[i / 16] * q[i] * x[i];
    assert forall|i: int| 0 <= i < 256 implies #[trigger] f(i) == g(i) by {
        q2k_reads_back(sc, mn, q, d, dmin, i);
        assert(0 <= sc[i / 16] < 16 && 0 <= q[i] < 4);
        assert(term(TensorType::Q2K, blk, i) == q2k_term(blk, i));
    }
    same_sum(f, g, 256);
    q2k_minima_match(blk, x);
    let a = |i: int| q2k_term(blk, i).min * x[i];
    let b = |i: int| mn[i / 16] * x[i];
    assert forall|i: int| 0 <= i < 256 implies #[trigger] a(i) == b(i) by {
        q2k_reads_back(sc, mn, q, d, dmin, i);
        assert(0 <= mn[i / 16] < 16);
        assert(term(TensorType::Q2K, blk, i) == q2k_term(blk, i));
    }
    same_sum(a, b, 256);
}

/// The sums of activations are of sixteen each, in order.
pub proof fn group_sums_by_sixteen(x: Seq<i8>, j: int)
    requires
        0 <= j,
        16 * j + 16 <= x.len(),
    ensures
        j < group_sums(x).len(),
        group_sums(x)[j] == x[16 * j] + x[16 * j + 1] + x[16 * j + 2] + x[16 * j + 3] + x[16 * j
            + 4] + x[16 * j + 5] + x[16 * j + 6] + x[16 * j + 7] + x[16 * j + 8] + x[16 * j + 9]
            + x[16 * j + 10] + x[16 * j + 11] + x[16 * j + 12] + x[16 * j + 13] + x[16 * j + 14]
            + x[16 * j + 15],
{
    reveal_with_fuel(sum, 17);
    let f = |i: int| x[16 * j + i] as int;
    assert(sum(f, 16) == f(0) + f(1) + f(2) + f(3) + f(4) + f(5) + f(6) + f(7) + f(8) + f(9) + f(10)
        + f(11) + f(12) + f(13) + f(14) + f(15));
}

/// A sub-block's word in an IQ2_XXS block: seven sign bits for each eight weights,
/// and four bits of scale above them.
pub open spec fn signs_word(s7: Seq<int>, sc: Seq<int>, ib: int) -> int {
    s7[4 * ib] + 128 * s7[4 * ib + 1] + 16384 * s7[4 * ib + 2] + 2097152 * s7[4 * ib + 3]
        + 0x1000_0000 * sc[ib]
}

/// An IQ2_XXS block: the factor, then for each 32 weights four pattern numbers, one
/// for each eight, and a word of signs and scale.
pub open spec fn iq2_packed(idx: Seq<u8>, s7: Seq<int>, sc: Seq<int>, d: u16) -> Seq<u8> {
    Seq::new(
        66,
        |b: int|
            if b < 2 {
                half_byte(d, b)
            } else {
                let ib = (b - 2) / 8;
                let k = (b - 2) % 8;
                let w = signs_word(s7, sc, ib);
                if k < 4 {
                    idx[4 * ib + k]
                } else if k == 4 {
                    (w % 256) as u8
                } else if k == 5 {
                    (w / 256 % 256) as u8
                } else if k == 6 {
                    (w / 65536 % 256) as u8
                } else {
                    (w / 16777216) as u8
                }
            },
    )
}

proof fn word_of_bytes(blk: Seq<u8>, at: int, w: int)
    requires
        0 <= at,
        at + 4 <= blk.len(),
        0 <= w < 0x1_0000_0000,
        blk[at] == w % 256,
        blk[at + 1] == w / 256 % 256,
        blk[at + 2] == w / 65536 % 256,
        blk[at + 3] == w / 16777216,
    ensures
        word(blk, at) == w,
{
    let s = blk.subrange(at, at + 4);
    let (s1, s2, s3) = (
        s.drop_first(),
        s.drop_first().drop_first(),
        s.drop_first().drop_first().drop_first(),
    );
    reveal_with_fuel(le_value, 5);
    assert(s[0] == blk[at] && s1[0] == blk[at + 1] && s2[0] == blk[at + 2] && s3[0] == blk[at + 3]);
    assert(s3.drop_first().len() == 0);
    assert(le_value(s) == s[0] + 256 * (s1[0] + 256 * (s2[0] + 256 * (s3[0] as int))));
}

proof fn grid_byte_is_digit(w: u64, i: int)
    requires
        0 <= i,
    ensures
        pow256(i as nat) > 0,
        grid_byte(w, i) == w as int / (pow256(i as nat) as int) % 256,
    decreases i,
{
    if i > 0 {
        grid_byte_is_digit(w / 256, i - 1);
        let h = pow256((i - 1) as nat) as int;
        assert(pow256(i as nat) == 256 * h);
        lemma_div_denominator(w as int, 256, h);
        assert(w as int / 256 / h == w as int / (256 * h));
        assert((w / 256) as int == w as int / 256);
    } else {
        assert(pow256(0) == 1);
        assert(w as int / 1 == w as int);
    }
}

/// Sign `i` of eight weights whose mask of seven bits is `s`: the stored bit, and
/// for the eighth weight the one that makes the number of minus signs even.
pub open spec fn sign_of(s: int, i: int) -> bool {
    if i == 0 {
        s % 2 == 1
    } else if i == 1 {
        s / 2 % 2 == 1
    } else if i == 2 {
        s / 4 % 2 == 1
    } else if i == 3 {
        s / 8 % 2 == 1
    } else if i == 4 {
        s / 16 % 2 == 1
    } else if i == 5 {
        s / 32 % 2 == 1
    } else if i == 6 {
        s / 64 % 2 == 1
    } else {
        (s % 2 + s / 2 % 2 + s / 4 % 2 + s / 8 % 2 + s / 16 % 2 + s / 32 % 2 + s / 64 % 2) % 2 == 1
    }
}

#[verifier::rlimit(30)]
proof fn ones_by_bits(s: nat)
    requires
        s < 128,
    ensures
        ones(s) == s % 2 + s / 2 % 2 + s / 4 % 2 + s / 8 % 2 + s / 16 % 2 + s / 32 % 2 + s / 64 % 2,
{
    reveal_with_fuel(ones, 9);
    assert(s / 2 / 2 == s / 4 && s / 4 / 2 == s / 8 && s / 8 / 2 == s / 16 && s / 16 / 2 == s / 32
        && s / 32 / 2 == s / 64 && s / 64 / 2 == 0);
    assert(ones(s / 64) == s / 64 % 2);
    assert(ones(s / 32) == s / 32 % 2 + ones(s / 64));
    assert(ones(s / 16) == s / 16 % 2 + ones(s / 32));
    assert(ones(s / 8) == s / 8 % 2 + ones(s / 16));
    assert(ones(s / 4) == s / 4 % 2 + ones(s / 8));
    assert(ones(s / 2) == s / 2 % 2 + ones(s / 4));
    assert(ones(s) == s % 2 + ones(s / 2));
}

/// A completed sign mask gives each of eight weights its sign.
#[verifier::rlimit(30)]
pub proof fn mask_gives_signs(s: nat, i: int)
    requires
        s < 128,
        0 <= i < 8,
    ensures
        bit(full_mask(s), i as nat) == sign_of(s as int, i),
{
    let m = full_mask(s);
    ones_by_bits(s);
    let p = ones(s) % 2;
    assert(m == s + 128 * p);
    assert(m / 2 / 2 == m / 4 && m / 4 / 2 == m / 8 && m / 8 / 2 == m / 16 && m / 16 / 2 == m / 32
        && m / 32 / 2 == m / 64 && m / 64 / 2 == m / 128);
    assert(m / 128 == p);
    assert(bit(m / 128, 0) == (p == 1));
    assert(bit(m / 64, 1) == bit(m / 128, 0));
    assert(bit(m / 32, 2) == bit(m / 64, 1));
    assert(bit(m / 16, 3) == bit(m / 32, 2));
    assert(bit(m / 8, 4) == bit(m / 16, 3));
    assert(bit(m / 4, 5) == bit(m / 8, 4));
    assert(bit(m / 2, 6) == bit(m / 4, 5));
    assert(bit(m, 7) == bit(m / 2, 6));
    reveal_with_fuel(bit, 8);
    if i == 0 {
        assert(m % 2 == s % 2);
    } else if i == 1 {
        assert(m / 2 % 2 == s / 2 % 2);
    } else if i == 2 {
        assert(m / 4 % 2 == s / 4 % 2);
    } else if i == 3 {
        assert(m / 8 % 2 == s / 8 % 2);
    } else if i == 4 {
        assert(m / 16 % 2 == s / 16 % 2);
    } else if i == 5 {
        assert(m / 32 % 2 == s / 32 % 2);
    } else if i == 6 {
        assert(m / 64 % 2 == s / 64 % 2);
    }
}

/// An IQ2_XXS block gives back what was packed into it: the odd scale of each 32
/// weights, and each weight's own byte of its eight's pattern, under its sign.
#[verifier::rlimit(30)]
pub proof fn iq2_reads_back(
    idx: Seq<u8>,
    s7: Seq<int>,
    sc: Seq<int>,
    d: u16,
    grid: Seq<u64>,
    i: int,
)
    requires
        idx.len() == 32,
        all_below(s7, 32, 128),
        all_below(sc, 8, 16),
        grid.len() >= 256,
        0 <= i < 256,
    ensures
        ({
            let blk = iq2_packed(idx, s7, sc, d);
            let byte = (grid[idx[i / 8] as int] as int / (pow256((i % 8) as nat) as int) % 256) as u8;
            let value = if byte < 128 {
                byte as int
            } else {
                byte - 256
            };
            &&& blk.len() == 66
            &&& iq2_scale(blk, i / 32) == 2 * sc[i / 32] + 1
            &&& iq2_weight(blk, grid, i) == (if sign_of(s7[i / 8], i % 8) {
                -value
            } else {
                value
            })
        }),
{
    let blk = iq2_packed(idx, s7, sc, d);
    let ib = i / 32;
    let k = i % 32 / 8;
    let at = 6 + 8 * ib;
    let w = signs_word(s7, sc, ib);
    let (a, b, c, e) = (s7[4 * ib], s7[4 * ib + 1], s7[4 * ib + 2], s7[4 * ib + 3]);
    assert(0 <= a < 128 && 0 <= b < 128 && 0 <= c < 128 && 0 <= e < 128 && 0 <= sc[ib] < 16);
    assert(0 <= w < 0x1_0000_0000);
    assert((at - 2) / 8 == ib && (at - 2) % 8 == 4);
    assert((at + 1 - 2) / 8 == ib && (at + 1 - 2) % 8 == 5);
    assert((at + 2 - 2) / 8 == ib && (at + 2 - 2) % 8 == 6);
    assert((at + 3 - 2) / 8 == ib && (at + 3 - 2) % 8 == 7);
    word_of_bytes(blk, at, w);
    signs_apart(w, a, b, c, e, sc[ib]);
    assert(i / 8 == 4 * ib + k);
    assert(k == 0 || k == 1 || k == 2 || k == 3);
    assert(stored_signs(blk, ib, k) == s7[i / 8]);
    mask_gives_signs(s7[i / 8] as nat, i % 8);
    let p = 2 + 8 * ib + k;
    assert((p - 2) / 8 == ib && (p - 2) % 8 == k);
    assert(blk[p] == idx[i / 8]);
    grid_byte_is_digit(grid[idx[i / 8] as int], i % 8);
}

#[verifier::rlimit(30)]
proof fn signs_apart(w: int, a: int, b: int, c: int, e: int, s: int)
    requires
        w == a + 128 * b + 16384 * c + 2097152 * e + 0x1000_0000 * s,
        0 <= a < 128,
        0 <= b < 128,
        0 <= c < 128,
        0 <= e < 128,
        0 <= s < 16,
    ensures
        w % 128 == a,
        w / 128 % 128 == b,
        w / 16384 % 128 == c,
        w / 2097152 % 128 == e,
        w / 0x1000_0000 == s,
{
    let w1 = b + 128 * c + 16384 * e + 2097152 * s;
    let w2 = c + 128 * e + 16384 * s;
    let w3 = e + 128 * s;
    assert(w == a + 128 * w1);
    assert(w / 128 == w1);
    assert(w1 == b + 128 * w2);
    assert(w / 16384 == w2);
    assert(w2 == c + 128 * w3);
    assert(w / 2097152 == w3);
}

/// The sum of an IQ2_XXS block against activations: each weight under its sign
/// times its activation times the scale of its 32.
pub proof fn iq2_sum_of_weights(blk: Seq<u8>, grid: Seq<u64>, x: Seq<i8>)
    ensures
        iq2_sum(blk, grid, x) == sum(
            |i: int| iq2_scale(blk, i / 32) * (iq2_weight(blk, grid, i) * x[i]),
            256,
        ),
{
    same_sum(
        |i: int| iq2_product(blk, grid, x, i),
        |i: int| iq2_scale(blk, i / 32) * (iq2_weight(blk, grid, i) * x[i]),
        256,
    );
}

} // verus!
