//! How blocks of quantized weights are laid out, and that taking such a block
//! apart gives back what was packed into it.

use vstd::prelude::*;
#[allow(unused_imports)]
use vstd::arithmetic::power2::{lemma2_to64, lemma_pow2_unfold, pow2};

#[allow(unused_imports)]
use crate::f16::{doubled, doublings, half_of, single_of};
#[allow(unused_imports)]
use crate::gguf::TensorType;
#[allow(unused_imports)]
use crate::le::{le_bytes, le_bytes_len, le_round_trip, le_value, pow256_values};
#[allow(unused_imports)]
use crate::quant::{
    bits, block_bytes, block_d, block_dmin, half_at, k4_min, k4_scale, q3k_scale, q8_0_block,
    signed, term, two_bits, words_of, Term,
};

verus! {

/// Whether each of `n` numbers is at least 0 and below `limit`.
pub open spec fn all_below(v: Seq<int>, n: int, limit: int) -> bool {
    v.len() == n && forall|k: int| 0 <= k < n ==> 0 <= #[trigger] v[k] < limit
}

/// The two bytes of a half precision number, the lower first.
pub open spec fn half_byte(h: u16, k: int) -> u8 {
    if k == 0 {
        (h as int % 256) as u8
    } else {
        (h as int / 256) as u8
    }
}

/// Four two-bit numbers in a byte, those of weights 32 apart.
pub open spec fn four_in_byte(q: Seq<int>, at: int) -> u8 {
    (q[at] % 4 + 4 * (q[at + 32] % 4) + 16 * (q[at + 64] % 4) + 64 * (q[at + 96] % 4)) as u8
}

/// 1 where a number is `unit` or more, else 0.
pub open spec fn over(v: int, unit: int) -> int {
    if v >= unit {
        1
    } else {
        0
    }
}

/// One bit of each of eight weights in a byte, those of weights 32 apart: whether
/// the weight's number is `unit` or more.
pub open spec fn eight_in_byte(q: Seq<int>, at: int, unit: int) -> u8 {
    (over(q[at], unit) + 2 * over(q[at + 32], unit) + 4 * over(q[at + 64], unit) + 8 * over(
        q[at + 96],
        unit,
    ) + 16 * over(q[at + 128], unit) + 32 * over(q[at + 160], unit) + 64 * over(q[at + 192], unit)
        + 128 * over(q[at + 224], unit)) as u8
}

/// Eight six-bit scales and eight six-bit minima in twelve bytes.
pub open spec fn scale_byte(sc: Seq<int>, mn: Seq<int>, b: int) -> u8 {
    if b < 4 {
        (sc[b] + 64 * (sc[b + 4] / 16)) as u8
    } else if b < 8 {
        (mn[b - 4] + 64 * (mn[b] / 16)) as u8
    } else {
        (sc[b - 4] % 16 + 16 * (mn[b - 4] % 16)) as u8
    }
}

/// A Q2_K block: a scale and a minimum for each sixteen weights in a byte, two
/// bits for each weight, and the two factors.
pub open spec fn q2k_packed(sc: Seq<int>, mn: Seq<int>, q: Seq<int>, d: u16, dmin: u16) -> Seq<u8> {
    Seq::new(
        84,
        |b: int|
            if b < 16 {
                (sc[b] + 16 * mn[b]) as u8
            } else if b < 80 {
                four_in_byte(q, (b - 16) / 32 * 128 + (b - 16) % 32)
            } else if b < 82 {
                half_byte(d, b - 80)
            } else {
                half_byte(dmin, b - 82)
            },
    )
}

/// A Q3_K block: the high bit of each weight, its two low bits, sixteen six-bit
/// scales in twelve bytes, and the factor.
pub open spec fn q3k_packed(sc: Seq<int>, q: Seq<int>, d: u16) -> Seq<u8> {
    Seq::new(
        110,
        |b: int|
            if b < 32 {
                eight_in_byte(q, b, 4)
            } else if b < 96 {
                four_in_byte(q, (b - 32) / 32 * 128 + (b - 32) % 32)
            } else if b < 104 {
                (sc[b - 96] % 16 + 16 * (sc[b - 96 + 8] % 16)) as u8
            } else if b < 108 {
                (sc[b - 104] / 16 + 4 * (sc[b - 104 + 4] / 16) + 16 * (sc[b - 104 + 8] / 16) + 64 * (
                sc[b - 104 + 12] / 16)) as u8
            } else {
                half_byte(d, b - 108)
            },
    )
}

/// A Q4_K block: the two factors, the packed scales and minima of each 32
/// weights, and four bits for each weight, two weights 32 apart to a byte.
pub open spec fn q4k_packed(sc: Seq<int>, mn: Seq<int>, q: Seq<int>, d: u16, dmin: u16) -> Seq<u8> {
    Seq::new(
        144,
        |b: int|
            if b < 2 {
                half_byte(d, b)
            } else if b < 4 {
                half_byte(dmin, b - 2)
            } else if b < 16 {
                scale_byte(sc, mn, b - 4)
            } else {
                let at = (b - 16) / 32 * 64 + (b - 16) % 32;
                (q[at] + 16 * q[at + 32]) as u8
            },
    )
}

/// A Q5_K block: as Q4_K, with the fifth bit of each weight between the scales
/// and the low bits.
pub open spec fn q5k_packed(sc: Seq<int>, mn: Seq<int>, q: Seq<int>, d: u16, dmin: u16) -> Seq<u8> {
    Seq::new(
        176,
        |b: int|
            if b < 2 {
                half_byte(d, b)
            } else if b < 4 {
                half_byte(dmin, b - 2)
            } else if b < 16 {
                scale_byte(sc, mn, b - 4)
            } else if b < 48 {
                eight_in_byte(q, b - 16, 16)
            } else {
                let at = (b - 48) / 32 * 64 + (b - 48) % 32;
                (q[at] % 16 + 16 * (q[at + 32] % 16)) as u8
            },
    )
}

/// A Q6_K block: four low bits of each weight, two weights 64 apart to a byte;
/// two high bits, four weights 32 apart to a byte; a signed scale for each
/// sixteen weights; the factor.
pub open spec fn q6k_packed(sc: Seq<int>, q: Seq<int>, d: u16) -> Seq<u8> {
    Seq::new(
        210,
        |b: int|
            if b < 128 {
                let at = b / 64 * 128 + b % 64;
                (q[at] % 16 + 16 * (q[at + 64] % 16)) as u8
            } else if b < 192 {
                let at = (b - 128) / 32 * 128 + (b - 128) % 32;
                (q[at] / 16 + 4 * (q[at + 32] / 16) + 16 * (q[at + 64] / 16) + 64 * (q[at + 96]
                    / 16)) as u8
            } else if b < 208 {
                (if sc[b - 192] >= 0 {
                    sc[b - 192]
                } else {
                    sc[b - 192] + 256
                }) as u8
            } else {
                half_byte(d, b - 208)
            },
    )
}

/// A byte of four two-bit numbers.
proof fn four_digits(b: u8, x: int, y: int, z: int, w: int)
    requires
        0 <= x < 4,
        0 <= y < 4,
        0 <= z < 4,
        0 <= w < 4,
        b == x + 4 * y + 16 * z + 64 * w,
    ensures
        bits(b, 0, 3) == x,
        bits(b, 2, 3) == y,
        bits(b, 4, 3) == z,
        bits(b, 6, 3) == w,
{
    assert((b >> 0) & 3 == b % 4 && (b >> 2) & 3 == b / 4 % 4 && (b >> 4) & 3 == b / 16 % 4 && (b
        >> 6) & 3 == b / 64) by (bit_vector);
}

/// A byte of two four-bit numbers.
proof fn two_digits(b: u8, x: int, y: int)
    requires
        0 <= x < 16,
        0 <= y < 16,
        b == x + 16 * y,
    ensures
        bits(b, 0, 15) == x,
        bits(b, 4, 15) == y,
{
    assert((b >> 0) & 15 == b % 16 && (b >> 4) & 15 == b / 16) by (bit_vector);
}

/// A byte of a six-bit and a two-bit number.
proof fn six_and_two(b: u8, x: int, y: int)
    requires
        0 <= x < 64,
        0 <= y < 4,
        b == x + 64 * y,
    ensures
        bits(b, 0, 63) == x,
        bits(b, 6, 3) == y,
{
    assert((b >> 0) & 63 == b % 64 && (b >> 6) & 3 == b / 64) by (bit_vector);
}

/// A byte of eight bits.
#[verifier::rlimit(30)]
proof fn eight_digits(b: u8, x: Seq<int>, g: int)
    requires
        all_below(x, 8, 2),
        b == x[0] + 2 * x[1] + 4 * x[2] + 8 * x[3] + 16 * x[4] + 32 * x[5] + 64 * x[6] + 128 * x[7],
        0 <= g < 8,
    ensures
        bits(b, g as u8, 1) == x[g],
{
    assert({
        &&& (b >> 0) & 1 == b % 2
        &&& (b >> 1) & 1 == b / 2 % 2
        &&& (b >> 2) & 1 == b / 4 % 2
        &&& (b >> 3) & 1 == b / 8 % 2
        &&& (b >> 4) & 1 == b / 16 % 2
        &&& (b >> 5) & 1 == b / 32 % 2
        &&& (b >> 6) & 1 == b / 64 % 2
        &&& (b >> 7) & 1 == b / 128
    }) by (bit_vector);
    let high = x[4] + 2 * x[5] + 4 * x[6] + 8 * x[7];
    let low = x[0] + 2 * x[1] + 4 * x[2] + 8 * x[3];
    assert(0 <= low < 16);
    assert(b == low + 16 * high);
    assert(b / 16 == high);
    assert(b % 2 == x[0]);
    assert(b / 2 % 2 == x[1]);
    assert(b / 4 % 2 == x[2]);
    assert(b / 8 % 2 == x[3]);
    assert(b / 16 % 2 == x[4]);
    assert(b / 32 % 2 == x[5]);
    assert(b / 64 % 2 == x[6]);
    assert(b / 128 == x[7]);
}

/// A half precision number is read from where its two bytes stand.
proof fn half_reads(src: Seq<u8>, at: int, h: u16)
    requires
        0 <= at,
        at + 2 <= src.len(),
        src[at] == half_byte(h, 0),
        src[at + 1] == half_byte(h, 1),
    ensures
        half_at(src, at) == single_of(h),
{
    let s = src.subrange(at, at + 2);
    let t = s.drop_first();
    assert(t.drop_first().len() == 0);
    assert(t[0] == src[at + 1]);
    assert(le_value(t.drop_first()) == 0);
    assert(le_value(t) == t[0] as nat + 256 * le_value(t.drop_first()));
    assert(le_value(s) == s[0] as nat + 256 * le_value(t));
    assert(le_value(s) == h as nat);
}

#[verifier::rlimit(30)]
proof fn two_bits_read(src: Seq<u8>, base: int, q: Seq<int>, i: int)
    requires
        q.len() == 256,
        forall|k: int| 0 <= k < 256 ==> 0 <= #[trigger] q[k],
        0 <= i < 256,
        src[base + i / 128 * 32 + i % 32] == four_in_byte(q, i / 128 * 128 + i % 32),
    ensures
        two_bits(src, base, i) == q[i] % 4,
{
    let at = i / 128 * 128 + i % 32;
    let part = i % 128 / 32;
    let b = src[base + i / 128 * 32 + i % 32];
    assert(i == at + part * 32);
    assert(0 <= at && at + 96 < 256);
    let (x, y, z, w) = (q[at] % 4, q[at + 32] % 4, q[at + 64] % 4, q[at + 96] % 4);
    assert(b == x + 4 * y + 16 * z + 64 * w);
    four_digits(b, x, y, z, w);
    assert(part == 0 || part == 1 || part == 2 || part == 3);
}

proof fn high_bit_read(b: u8, q: Seq<int>, unit: int, i: int)
    requires
        q.len() == 256,
        0 <= i < 256,
        b == eight_in_byte(q, i % 32, unit),
    ensures
        bits(b, (i / 32) as u8, 1) == over(q[i], unit),
{
    let at = i % 32;
    let g = i / 32;
    assert(i == at + g * 32);
    let x = Seq::new(8, |k: int| over(q[at + 32 * k], unit));
    eight_digits(b, x, g);
}

/// Low four bits of two weights `apart` in a byte.
proof fn nibble_read(b: u8, q: Seq<int>, at: int, apart: int, half: int)
    requires
        b == (q[at] % 16 + 16 * (q[at + apart] % 16)) as u8,
        half == 0 || half == 1,
    ensures
        half == 0 ==> bits(b, 0, 15) == q[at] % 16,
        half == 1 ==> bits(b, 4, 15) == q[at + apart] % 16,
        bits(b, (half * 4) as u8, 15) == q[at + half * apart] % 16,
{
    two_digits(b, q[at] % 16, q[at + apart] % 16);
    assert(1 * apart == apart);
}

/// A Q2_K block gives back what was packed into it: each weight its own quant,
/// and the scale and minimum of its sixteen.
#[verifier::rlimit(40)]
pub proof fn q2k_reads_back(sc: Seq<int>, mn: Seq<int>, q: Seq<int>, d: u16, dmin: u16, i: int)
    requires
        all_below(sc, 16, 16),
        all_below(mn, 16, 16),
        all_below(q, 256, 4),
        0 <= i < 256,
    ensures
        ({
            let src = q2k_packed(sc, mn, q, d, dmin);
            &&& term(TensorType::Q2K, src, i) == (Term {
                scale: sc[i / 16] as i32,
                q: q[i] as i32,
                min: mn[i / 16] as i32,
            })
            &&& block_bytes(TensorType::Q2K) == Some(src.len())
            &&& block_d(TensorType::Q2K, src) == single_of(d)
            &&& block_dmin(TensorType::Q2K, src) == single_of(dmin)
        }),
{
    let src = q2k_packed(sc, mn, q, d, dmin);
    half_reads(src, 80, d);
    half_reads(src, 82, dmin);
    two_bits_read(src, 16, q, i);
    assert(0 <= sc[i / 16] < 16 && 0 <= mn[i / 16] < 16);
    assert(src[i / 16] == sc[i / 16] + 16 * mn[i / 16]);
    two_digits(src[i / 16], sc[i / 16], mn[i / 16]);
    assert(0 <= q[i] < 4);
}

/// A Q3_K block gives back what was packed into it: each weight its own quant,
/// less 4, and the scale of its sixteen, less 32.
#[verifier::rlimit(40)]
pub proof fn q3k_reads_back(sc: Seq<int>, q: Seq<int>, d: u16, i: int)
    requires
        all_below(sc, 16, 64),
        all_below(q, 256, 8),
        0 <= i < 256,
    ensures
        ({
            let src = q3k_packed(sc, q, d);
            &&& term(TensorType::Q3K, src, i) == (Term {
                scale: (sc[i / 16] - 32) as i32,
                q: (q[i] - 4) as i32,
                min: 0,
            })
            &&& block_bytes(TensorType::Q3K) == Some(src.len())
            &&& block_d(TensorType::Q3K, src) == single_of(d)
            &&& block_dmin(TensorType::Q3K, src) == 0
        }),
{
    let src = q3k_packed(sc, q, d);
    half_reads(src, 108, d);
    two_bits_read(src, 32, q, i);
    high_bit_read(src[i % 32], q, 4, i);
    assert(0 <= q[i] < 8);
    assert(q[i] == q[i] % 4 + 4 * over(q[i], 4));
    let j = i / 16;
    q3k_scale_read(src, sc, j);
}

#[verifier::rlimit(30)]
proof fn q3k_scale_read(src: Seq<u8>, sc: Seq<int>, j: int)
    requires
        all_below(sc, 16, 64),
        0 <= j < 16,
        src.len() >= 108,
        forall|b: int|
            96 <= b < 104 ==> #[trigger] src[b] == (sc[b - 96] % 16 + 16 * (sc[b - 88] % 16)) as u8,
        forall|b: int|
            104 <= b < 108 ==> #[trigger] src[b] == (sc[b - 104] / 16 + 4 * (sc[b - 100] / 16) + 16 * (
            sc[b - 96] / 16) + 64 * (sc[b - 92] / 16)) as u8,
    ensures
        q3k_scale(src, j) == sc[j] - 32,
{
    assert(q3k_scale(src, j) == sc[j] - 32) by {
        let n = j % 8;
        let b = src[96 + n];
        assert(0 <= sc[n] < 64 && 0 <= sc[n + 8] < 64);
        assert(b == sc[n] % 16 + 16 * (sc[n + 8] % 16));
        two_digits(b, sc[n] % 16, sc[n + 8] % 16);
        let m = j % 4;
        let c = src[104 + m];
        assert(0 <= sc[m] < 64 && 0 <= sc[m + 4] < 64 && 0 <= sc[m + 8] < 64 && 0 <= sc[m + 12]
            < 64);
        assert(c == sc[m] / 16 + 4 * (sc[m + 4] / 16) + 16 * (sc[m + 8] / 16) + 64 * (sc[m + 12]
            / 16));
        four_digits(c, sc[m] / 16, sc[m + 4] / 16, sc[m + 8] / 16, sc[m + 12] / 16);
        let r = j / 4;
        assert(j == m + 4 * r);
        assert(r == 0 || r == 1 || r == 2 || r == 3);
        assert(bits(c, (r * 2) as u8, 3) == sc[j] / 16);
        if j < 8 {
            assert(j == n);
        } else {
            assert(j == n + 8);
        }
    }
}

/// Scales and minima are read back from their twelve bytes.
#[verifier::rlimit(30)]
proof fn scales_read(src: Seq<u8>, sc: Seq<int>, mn: Seq<int>, j: int)
    requires
        all_below(sc, 8, 64),
        all_below(mn, 8, 64),
        0 <= j < 8,
        src.len() >= 16,
        forall|b: int| 4 <= b < 16 ==> #[trigger] src[b] == scale_byte(sc, mn, b - 4),
    ensures
        k4_scale(src, 4, j) == sc[j],
        k4_min(src, 4, j) == mn[j],
{
    let m = j % 4;
    let (a, b, c) = (src[4 + m], src[8 + m], src[12 + m]);
    assert(0 <= sc[m] < 64 && 0 <= sc[m + 4] < 64 && 0 <= mn[m] < 64 && 0 <= mn[m + 4] < 64);
    assert(a == sc[m] + 64 * (sc[m + 4] / 16));
    assert(b == mn[m] + 64 * (mn[m + 4] / 16));
    assert(c == sc[m + 4] % 16 + 16 * (mn[m + 4] % 16));
    six_and_two(a, sc[m], sc[m + 4] / 16);
    six_and_two(b, mn[m], mn[m + 4] / 16);
    two_digits(c, sc[m + 4] % 16, mn[m + 4] % 16);
    if j < 4 {
        assert(j == m);
    } else {
        assert(j == m + 4);
    }
}

/// A Q4_K block gives back what was packed into it: each weight its own quant,
/// and the scale and minimum of its 32.
#[verifier::rlimit(40)]
pub proof fn q4k_reads_back(sc: Seq<int>, mn: Seq<int>, q: Seq<int>, d: u16, dmin: u16, i: int)
    requires
        all_below(sc, 8, 64),
        all_below(mn, 8, 64),
        all_below(q, 256, 16),
        0 <= i < 256,
    ensures
        ({
            let src = q4k_packed(sc, mn, q, d, dmin);
            &&& term(TensorType::Q4K, src, i) == (Term {
                scale: sc[i / 32] as i32,
                q: q[i] as i32,
                min: mn[i / 32] as i32,
            })
            &&& block_bytes(TensorType::Q4K) == Some(src.len())
            &&& block_d(TensorType::Q4K, src) == single_of(d)
            &&& block_dmin(TensorType::Q4K, src) == single_of(dmin)
        }),
{
    let src = q4k_packed(sc, mn, q, d, dmin);
    half_reads(src, 0, d);
    half_reads(src, 2, dmin);
    scales_read(src, sc, mn, i / 32);
    let at = i / 64 * 64 + i % 32;
    let b = src[16 + i / 64 * 32 + i % 32];
    assert(0 <= q[at] < 16 && 0 <= q[at + 32] < 16);
    assert(b == q[at] + 16 * q[at + 32]);
    two_digits(b, q[at], q[at + 32]);
    let half = i % 64 / 32;
    assert(i == at + half * 32);
    assert(half == 0 || half == 1);
}

/// A Q5_K block gives back what was packed into it: each weight its own quant,
/// and the scale and minimum of its 32.
#[verifier::rlimit(40)]
#[verifier::spinoff_prover]
pub proof fn q5k_reads_back(sc: Seq<int>, mn: Seq<int>, q: Seq<int>, d: u16, dmin: u16, i: int)
    requires
        all_below(sc, 8, 64),
        all_below(mn, 8, 64),
        all_below(q, 256, 32),
        0 <= i < 256,
    ensures
        ({
            let src = q5k_packed(sc, mn, q, d, dmin);
            &&& term(TensorType::Q5K, src, i) == (Term {
                scale: sc[i / 32] as i32,
                q: q[i] as i32,
                min: mn[i / 32] as i32,
            })
            &&& block_bytes(TensorType::Q5K) == Some(src.len())
            &&& block_d(TensorType::Q5K, src) == single_of(d)
            &&& block_dmin(TensorType::Q5K, src) == single_of(dmin)
        }),
{
    let src = q5k_packed(sc, mn, q, d, dmin);
    half_reads(src, 0, d);
    half_reads(src, 2, dmin);
    scales_read(src, sc, mn, i / 32);
    q5k_quant_read(src, q, i);
}

#[verifier::rlimit(30)]
proof fn q5k_quant_read(src: Seq<u8>, q: Seq<int>, i: int)
    requires
        all_below(q, 256, 32),
        0 <= i < 256,
        src.len() >= 176,
        forall|b: int| 16 <= b < 48 ==> #[trigger] src[b] == eight_in_byte(q, b - 16, 16),
        forall|b: int|
            48 <= b < 176 ==> #[trigger] src[b] == ({
                let at = (b - 48) / 32 * 64 + (b - 48) % 32;
                (q[at] % 16 + 16 * (q[at + 32] % 16)) as u8
            }),
    ensures
        bits(src[48 + i / 64 * 32 + i % 32], (i % 64 / 32 * 4) as u8, 15) == q[i] % 16,
        bits(src[16 + i % 32], (i / 32) as u8, 1) == over(q[i], 16),
        q[i] == q[i] % 16 + 16 * over(q[i], 16),
{
    high_bit_read(src[16 + i % 32], q, 16, i);
    let b = 48 + i / 64 * 32 + i % 32;
    let at = i / 64 * 64 + i % 32;
    assert((b - 48) / 32 * 64 + (b - 48) % 32 == at);
    let half = i % 64 / 32;
    assert(half == 0 || half == 1);
    nibble_read(src[b], q, at, 32, half);
    assert(i == at + half * 32);
    assert(0 <= q[i] < 32);
}

/// A Q6_K block gives back what was packed into it: each weight its own quant,
/// less 32, and the signed scale of its sixteen.
#[verifier::rlimit(40)]
#[verifier::spinoff_prover]
pub proof fn q6k_reads_back(sc: Seq<int>, q: Seq<int>, d: u16, i: int)
    requires
        sc.len() == 16,
        forall|k: int| 0 <= k < 16 ==> -128 <= #[trigger] sc[k] < 128,
        all_below(q, 256, 64),
        0 <= i < 256,
    ensures
        ({
            let src = q6k_packed(sc, q, d);
            &&& term(TensorType::Q6K, src, i) == (Term {
                scale: sc[i / 16] as i32,
                q: (q[i] - 32) as i32,
                min: 0,
            })
            &&& block_bytes(TensorType::Q6K) == Some(src.len())
            &&& block_d(TensorType::Q6K, src) == single_of(d)
            &&& block_dmin(TensorType::Q6K, src) == 0
        }),
{
    let src = q6k_packed(sc, q, d);
    half_reads(src, 208, d);
    assert(bits(
        src[i / 128 * 64 + i % 128 / 32 % 2 * 32 + i % 32],
        (i % 128 / 32 / 2 * 4) as u8,
        15,
    ) == q[i] % 16) by {
        q6k_low_read(src, q, i);
    }
    assert(bits(src[128 + i / 128 * 32 + i % 32], (i % 128 / 32 * 2) as u8, 3) == q[i] / 16) by {
        q6k_high_read(src, q, i);
    }
    let g = i / 16;
    assert(-128 <= sc[g] < 128);
    assert(src[192 + g] == (if sc[g] >= 0 {
        sc[g]
    } else {
        sc[g] + 256
    }));
    q6k_scale_of_sixteen(src, i);
    assert(0 <= q[i] < 64);
    assert(q[i] == q[i] % 16 + 16 * (q[i] / 16));
}

#[verifier::rlimit(30)]
proof fn q6k_low_read(src: Seq<u8>, q: Seq<int>, i: int)
    requires
        0 <= i < 256,
        src.len() >= 128,
        forall|b: int|
            0 <= b < 128 ==> #[trigger] src[b] == (q[b / 64 * 128 + b % 64] % 16 + 16 * (q[b / 64
                * 128 + b % 64 + 64] % 16)) as u8,
    ensures
        bits(
            src[i / 128 * 64 + i % 128 / 32 % 2 * 32 + i % 32],
            (i % 128 / 32 / 2 * 4) as u8,
            15,
        ) == q[i] % 16,
{
    let b = i / 128 * 64 + i % 64;
    assert(i / 128 * 64 + i % 128 / 32 % 2 * 32 + i % 32 == b);
    let at = i / 128 * 128 + i % 64;
    assert(b / 64 * 128 + b % 64 == at);
    let half = i % 128 / 64;
    assert(i % 128 / 32 / 2 == half);
    assert(i == at + half * 64);
    nibble_read(src[b], q, at, 64, half);
}

#[verifier::rlimit(30)]
proof fn q6k_high_read(src: Seq<u8>, q: Seq<int>, i: int)
    requires
        0 <= i < 256,
        all_below(q, 256, 64),
        src.len() >= 192,
        forall|b: int|
            128 <= b < 192 ==> #[trigger] src[b] == ({
                let at = (b - 128) / 32 * 128 + (b - 128) % 32;
                (q[at] / 16 + 4 * (q[at + 32] / 16) + 16 * (q[at + 64] / 16) + 64 * (q[at + 96]
                    / 16)) as u8
            }),
    ensures
        bits(src[128 + i / 128 * 32 + i % 32], (i % 128 / 32 * 2) as u8, 3) == q[i] / 16,
{
    let b = 128 + i / 128 * 32 + i % 32;
    let from = i / 128 * 128 + i % 32;
    assert((b - 128) / 32 * 128 + (b - 128) % 32 == from);
    let c = src[b];
    assert(0 <= q[from] < 64 && 0 <= q[from + 32] < 64 && 0 <= q[from + 64] < 64 && 0 <= q[from
        + 96] < 64);
    four_digits(c, q[from] / 16, q[from + 32] / 16, q[from + 64] / 16, q[from + 96] / 16);
    let part = i % 128 / 32;
    assert(i == from + part * 32);
    assert(part == 0 || part == 1 || part == 2 || part == 3);
}

/// In a Q6_K block each signed scale byte scales its own sixteen weights: that of
/// weight `i` is the value of byte `192 + i / 16`, whatever the block holds.
pub proof fn q6k_scale_of_sixteen(src: Seq<u8>, i: int)
    requires
        0 <= i < 256,
        src.len() >= 210,
    ensures
        ({
            let b = src[192 + i / 16];
            let scale = term(TensorType::Q6K, src, i).scale;
            &&& b < 128 ==> scale == b
            &&& b >= 128 ==> scale == b - 256
        }),
{
    assert(i / 128 * 8 + i % 128 / 32 * 2 + i % 32 / 16 == i / 16);
}

/// Weights of one group share their scale and minimum: groups are of sixteen in
/// Q2_K, Q3_K and Q6_K and of 32 in Q4_K and Q5_K.
pub proof fn groups_share_scale(ty: TensorType, src: Seq<u8>, i: int, k: int)
    requires
        block_bytes(ty) is Some,
        0 <= i < 256,
        0 <= k < 256,
        ty == TensorType::Q4K || ty == TensorType::Q5K ==> i / 32 == k / 32,
        ty != TensorType::Q4K && ty != TensorType::Q5K ==> i / 16 == k / 16,
    ensures
        term(ty, src, i).scale == term(ty, src, k).scale,
        term(ty, src, i).min == term(ty, src, k).min,
{
    assert(i / 128 * 8 + i % 128 / 32 * 2 + i % 32 / 16 == i / 16);
    assert(k / 128 * 8 + k % 128 / 32 * 2 + k % 32 / 16 == k / 16);
}

/// A number of doublings is a power of two.
proof fn doubled_by_powers(m: nat)
    requires
        0 < m < 2048,
    ensures
        doubled(m) == m * pow2(doublings(m)),
        0x400 <= doubled(m) < 0x800,
        doublings(m) <= 10,
    decreases 2048 - m,
{
    lemma2_to64();
    if m < 1024 {
        doubled_by_powers(2 * m);
        let k = doublings(2 * m);
        lemma_pow2_unfold(k + 1);
        let p = pow2(k);
        assert(pow2(k + 1) == 2 * p);
        assert(doublings(m) == k + 1);
        assert((2 * m) * p == m * (2 * p)) by (nonlinear_arith);
        doubling_limit(m);
    } else {
        assert(doublings(m) == 0);
        assert(pow2(0) == 1);
        assert(m * 1 == m);
    }
}

proof fn doubling_limit(m: nat)
    requires
        0 < m < 2048,
    ensures
        doublings(m) <= 10,
{
    reveal_with_fuel(doublings, 12);
}

/// A half precision number keeps its value when it is widened. Of the single
/// precision bits, `x` is the exponent field and `f` the fraction: in the normal
/// range they are the half's exponent moved by the difference of the biases and
/// its fraction moved up; below it, the leading one is brought up by as many
/// places as the exponent is lowered, so that the value, the fraction times two
/// to the power of the exponent, stays the same.
#[verifier::rlimit(30)]
pub proof fn widening_keeps_value(h: u16)
    ensures
        ({
            let b = single_of(h);
            let (s, e, m) = (h as int / 0x8000, h as int / 0x400 % 32, h as int % 0x400);
            let (x, f) = (b / 0x80_0000 % 256, b % 0x80_0000);
            &&& 0 <= b <= u32::MAX
            &&& b / 0x8000_0000 == s
            &&& 0 < e < 31 ==> x == e + 112 && f == m * 0x2000
            &&& e == 31 ==> x == 255 && f == m * 0x2000
            &&& e == 0 && m == 0 ==> x == 0 && f == 0
            &&& e == 0 && m > 0 ==> {
                &&& 103 <= x <= 113
                &&& 0x80_0000 + f == m * 0x2000 * pow2((113 - x) as nat)
            }
        }),
{
    let m = h as int % 0x400;
    if h as int / 0x400 % 32 == 0 && m > 0 {
        doubled_by_powers(m as nat);
        let k = doublings(m as nat);
        let b = single_of(h);
        let g = (doubled(m as nat) - 0x400) * 0x2000;
        let s = h as int / 0x8000;
        assert(b == s * 0x8000_0000 + (113 - k) * 0x80_0000 + g);
        assert(0 <= g < 0x80_0000);
        assert(b % 0x80_0000 == g);
        assert(b / 0x80_0000 == s * 256 + (113 - k));
        assert(b / 0x80_0000 % 256 == 113 - k);
        assert(b / 0x8000_0000 == s);
        let p = pow2(k);
        assert(m * 0x2000 * p == (m * p) * 0x2000) by (nonlinear_arith);
    }
}

/// Narrowing keeps the sign, and within range the exponent and the upper ten
/// bits of the fraction; what is too small becomes zero, what is too large
/// infinity.
pub proof fn narrowing_cuts_fraction(b: u32)
    ensures
        ({
            let h = half_of(b);
            let (s, x, f) = (
                b as int / 0x8000_0000,
                b as int / 0x80_0000 % 256,
                b as int % 0x80_0000,
            );
            &&& 0 <= h <= u16::MAX
            &&& h / 0x8000 == s
            &&& 113 <= x <= 142 ==> h / 0x400 % 32 == x - 112 && h % 0x400 == f / 0x2000
            &&& x <= 112 ==> h % 0x8000 == 0
            &&& x >= 143 ==> h / 0x400 % 32 == 31 && h % 0x400 == 0
        }),
{
}

/// A single precision number that half precision can hold comes back unchanged.
pub proof fn narrowing_is_exact(b: u32)
    requires
        113 <= b as int / 0x80_0000 % 256 <= 142,
        b as int % 0x2000 == 0,
    ensures
        single_of(half_of(b) as u16) == b,
{
}

/// The factor of a Q8_0 block is read back from its first two bytes, in half
/// precision.
pub proof fn q8_0_factor_reads_back(d: u32, qs: Seq<i8>)
    ensures
        half_at(q8_0_block(d, qs), 0) == single_of(half_of(d) as u16),
{
    narrowing_cuts_fraction(d);
    le_bytes_len(half_of(d) as nat, 2);
    pow256_values();
    le_round_trip(half_of(d) as nat, 2);
    assert(q8_0_block(d, qs).subrange(0, 2) =~= le_bytes(half_of(d) as nat, 2));
}

/// Words are read four bytes each, the lowest first.
pub proof fn words_by_fours(b: Seq<u8>, i: int)
    requires
        0 <= i,
        4 * i + 4 <= b.len(),
    ensures
        i < words_of(b).len(),
        words_of(b)[i] == b[4 * i] + 0x100 * b[4 * i + 1] + 0x1_0000 * b[4 * i + 2] + 0x100_0000 * b[4
            * i + 3],
        words_of(b).len() == b.len() / 4,
{
    let s = b.subrange(4 * i, 4 * i + 4);
    let (s1, s2, s3) = (s.drop_first(), s.drop_first().drop_first(), s.drop_first().drop_first().drop_first());
    reveal_with_fuel(le_value, 5);
    assert(s[0] == b[4 * i] && s1[0] == b[4 * i + 1] && s2[0] == b[4 * i + 2] && s3[0] == b[4 * i
        + 3]);
    assert(s3.drop_first().len() == 0);
}

} // verus!
