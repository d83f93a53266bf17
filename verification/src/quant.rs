//! Block formats of quantized weights, taken apart into integers.
//!
//! A block holds 256 weights. Each is `d * scale * q - dmin * min` for the
//! block's two real factors and three small integers of its own; the integers
//! are worked out here, and the reals are passed on as bits.

use vstd::prelude::*;
use vstd::slice::slice_subrange;

use crate::f16::{f16_to_f32, f32_to_f16, half_of, single_of};
use crate::gguf::TensorType;
use crate::le::{le_bytes, le_value, pow256_values, push_le, read_le};

verus! {

/// Weights per block.
pub const QK_K: usize = 256;

/// The integers of one weight.
#[derive(Debug, Clone, Copy, PartialEq, Eq, Structural)]
pub struct Term {
    pub scale: i32,
    pub q: i32,
    pub min: i32,
}

/// A block taken apart.
pub struct Block {
    /// Bits of the factor of `scale * q`.
    pub d: u32,
    /// Bits of the factor of `min`; zero in formats without one.
    pub dmin: u32,
    /// The 256 weights' integers.
    pub terms: Vec<Term>,
}

/// Bytes of a block, for the formats that are taken apart here.
pub open spec fn block_bytes(ty: TensorType) -> Option<nat> {
    match ty {
        TensorType::Q2K => Some(84),
        TensorType::Q3K => Some(110),
        TensorType::Q4K => Some(144),
        TensorType::Q5K => Some(176),
        TensorType::Q6K => Some(210),
        _ => None,
    }
}

/// Bits of `b` from `shift` on, under `mask`.
pub open spec fn bits(b: u8, shift: u8, mask: u8) -> u8 {
    (b >> shift) & mask
}

fn get_bits(b: u8, shift: u8, mask: u8) -> (r: u8)
    requires
        shift < 8,
    ensures
        r == bits(b, shift, mask),
        r <= mask,
{
    let r: u8 = (b >> shift) & mask;
    assert(r <= mask) by (bit_vector)
        requires
            r == (b >> shift) & mask,
    ;
    r
}

/// The value of a byte as a signed one.
pub open spec fn signed(b: u8) -> int {
    if b < 128 {
        b as int
    } else {
        b - 256
    }
}

fn as_signed(b: u8) -> (v: i32)
    ensures
        v == signed(b),
{
    if b < 128 {
        b as i32
    } else {
        b as i32 - 256
    }
}

/// Single precision bits of the half precision number at `at`.
pub open spec fn half_at(src: Seq<u8>, at: int) -> int {
    single_of(le_value(src.subrange(at, at + 2)) as u16)
}

fn read_half(src: &[u8], at: usize) -> (b: u32)
    requires
        at + 2 <= src@.len(),
    ensures
        b == half_at(src@, at as int),
{
    proof {
        pow256_values();
    }
    let v: u64 = read_le(src, at, 2);
    f16_to_f32(v as u16)
}

/// Two-bit quant of weight `i`, where the quants begin at `base`: blocks of 32
/// bytes, each byte holding four weights 32 apart.
pub open spec fn two_bits(src: Seq<u8>, base: int, i: int) -> u8 {
    bits(src[base + i / 128 * 32 + i % 32], (i % 128 / 32 * 2) as u8, 3)
}

/// Q2_K: sixteen scales with their minima, the quants, the factors.
pub open spec fn q2k_term(src: Seq<u8>, i: int) -> Term {
    Term {
        scale: bits(src[i / 16], 0, 15) as i32,
        q: two_bits(src, 16, i) as i32,
        min: bits(src[i / 16], 4, 15) as i32,
    }
}

/// Q3_K's scale `j`: four low bits and two high ones, less 32.
pub open spec fn q3k_scale(src: Seq<u8>, j: int) -> int {
    let low = if j < 8 {
        bits(src[96 + j], 0, 15)
    } else {
        bits(src[96 + j - 8], 4, 15)
    };
    let high = bits(src[104 + j % 4], (j / 4 * 2) as u8, 3);
    low + 16 * high - 32
}

/// Q3_K: a high bit for each weight, low bits as in Q2_K, packed scales.
pub open spec fn q3k_term(src: Seq<u8>, i: int) -> Term {
    let low = two_bits(src, 32, i) as int;
    let set = bits(src[i % 32], (i / 32) as u8, 1) == 1;
    Term {
        scale: q3k_scale(src, i / 16) as i32,
        q: (if set {
            low
        } else {
            low - 4
        }) as i32,
        min: 0,
    }
}

/// Scale `j` of a packed list of eight six-bit scales and minima at `base`.
pub open spec fn k4_scale(src: Seq<u8>, base: int, j: int) -> int {
    if j < 4 {
        bits(src[base + j], 0, 63) as int
    } else {
        bits(src[base + j + 4], 0, 15) + 16 * bits(src[base + j - 4], 6, 3)
    }
}

/// Minimum `j` of such a list.
pub open spec fn k4_min(src: Seq<u8>, base: int, j: int) -> int {
    if j < 4 {
        bits(src[base + j + 4], 0, 63) as int
    } else {
        bits(src[base + j + 4], 4, 15) + 16 * bits(src[base + j], 6, 3)
    }
}

/// Q4_K and Q5_K: factors, packed scales, for Q5_K a high bit for each weight,
/// and four bits for each, two weights 32 apart to a byte.
pub open spec fn q45k_term(src: Seq<u8>, five: bool, i: int) -> Term {
    let base = if five {
        48int
    } else {
        16
    };
    let group = i / 32;
    let low = bits(src[base + i / 64 * 32 + i % 32], (i % 64 / 32 * 4) as u8, 15) as int;
    let high = if five {
        16 * bits(src[16 + i % 32], group as u8, 1)
    } else {
        0
    };
    Term {
        scale: k4_scale(src, 4, group) as i32,
        q: (low + high) as i32,
        min: k4_min(src, 4, group) as i32,
    }
}

/// Q6_K: four low bits and two high ones less 32, signed byte scales.
pub open spec fn q6k_term(src: Seq<u8>, i: int) -> Term {
    let chunk = i / 128;
    let part = i % 128 / 32;
    let l = i % 32;
    let low = bits(src[chunk * 64 + part % 2 * 32 + l], (part / 2 * 4) as u8, 15);
    let high = bits(src[128 + chunk * 32 + l], (part * 2) as u8, 3);
    Term {
        scale: signed(src[192 + chunk * 8 + part * 2 + l / 16]) as i32,
        q: (low + 16 * high - 32) as i32,
        min: 0,
    }
}

/// The integers of weight `i`.
pub open spec fn term(ty: TensorType, src: Seq<u8>, i: int) -> Term {
    match ty {
        TensorType::Q2K => q2k_term(src, i),
        TensorType::Q3K => q3k_term(src, i),
        TensorType::Q4K => q45k_term(src, false, i),
        TensorType::Q5K => q45k_term(src, true, i),
        _ => q6k_term(src, i),
    }
}

/// Bits of the block's factor.
pub open spec fn block_d(ty: TensorType, src: Seq<u8>) -> int {
    match ty {
        TensorType::Q2K => half_at(src, 80),
        TensorType::Q3K => half_at(src, 108),
        TensorType::Q4K | TensorType::Q5K => half_at(src, 0),
        _ => half_at(src, 208),
    }
}

/// Bits of the block's factor for minima.
pub open spec fn block_dmin(ty: TensorType, src: Seq<u8>) -> int {
    match ty {
        TensorType::Q2K => half_at(src, 82),
        TensorType::Q4K | TensorType::Q5K => half_at(src, 2),
        _ => 0,
    }
}

fn get_two_bits(src: &[u8], base: usize, i: usize) -> (q: u8)
    requires
        base <= 32,
        i < 256,
        base + 64 <= src@.len(),
    ensures
        q == two_bits(src@, base as int, i as int),
        q <= 3,
{
    get_bits(src[base + i / 128 * 32 + i % 32], (i % 128 / 32 * 2) as u8, 3)
}

fn get_q3k_scale(src: &[u8], j: usize) -> (s: i32)
    requires
        src@.len() >= 110,
        j < 16,
    ensures
        s == q3k_scale(src@, j as int),
        -32 <= s < 32,
{
    let low: u8 = if j < 8 {
        get_bits(src[96 + j], 0, 15)
    } else {
        get_bits(src[96 + j - 8], 4, 15)
    };
    let high: u8 = get_bits(src[104 + j % 4], (j / 4 * 2) as u8, 3);
    low as i32 + 16 * high as i32 - 32
}

/// Unpacks scale and minimum `j` of the list at `base`.
pub fn k4_scale_min(src: &[u8], base: usize, j: usize) -> (r: (u8, u8))
    requires
        j < 8,
        base <= 4,
        base + 12 <= src@.len(),
    ensures
        r.0 == k4_scale(src@, base as int, j as int),
        r.1 == k4_min(src@, base as int, j as int),
        r.0 < 64,
        r.1 < 64,
{
    if j < 4 {
        (get_bits(src[base + j], 0, 63), get_bits(src[base + j + 4], 0, 63))
    } else {
        (
            get_bits(src[base + j + 4], 0, 15) + 16 * get_bits(src[base + j - 4], 6, 3),
            get_bits(src[base + j + 4], 4, 15) + 16 * get_bits(src[base + j], 6, 3),
        )
    }
}

fn get_q45k(src: &[u8], five: bool, i: usize) -> (t: Term)
    requires
        i < 256,
        src@.len() >= (if five {
            176int
        } else {
            144
        }),
    ensures
        t == q45k_term(src@, five, i as int),
{
    let base: usize = if five {
        48
    } else {
        16
    };
    let group: usize = i / 32;
    let low: u8 = get_bits(src[base + i / 64 * 32 + i % 32], (i % 64 / 32 * 4) as u8, 15);
    let high: u8 = if five {
        16 * get_bits(src[16 + i % 32], group as u8, 1)
    } else {
        0
    };
    let (s, m) = k4_scale_min(src, 4, group);
    Term { scale: s as i32, q: low as i32 + high as i32, min: m as i32 }
}

fn get_term(ty: TensorType, src: &[u8], i: usize) -> (t: Term)
    requires
        i < 256,
        block_bytes(ty) is Some,
        src@.len() >= block_bytes(ty)->0,
    ensures
        t == term(ty, src@, i as int),
{
    match ty {
        TensorType::Q2K => Term {
            scale: get_bits(src[i / 16], 0, 15) as i32,
            q: get_two_bits(src, 16, i) as i32,
            min: get_bits(src[i / 16], 4, 15) as i32,
        },
        TensorType::Q3K => {
            let low: i32 = get_two_bits(src, 32, i) as i32;
            let set: bool = get_bits(src[i % 32], (i / 32) as u8, 1) == 1;
            Term {
                scale: get_q3k_scale(src, i / 16),
                q: if set {
                    low
                } else {
                    low - 4
                },
                min: 0,
            }
        },
        TensorType::Q4K => get_q45k(src, false, i),
        TensorType::Q5K => get_q45k(src, true, i),
        _ => {
            let chunk: usize = i / 128;
            let part: usize = i % 128 / 32;
            let l: usize = i % 32;
            let low: u8 = get_bits(src[chunk * 64 + part % 2 * 32 + l], (part / 2 * 4) as u8, 15);
            let high: u8 = get_bits(src[128 + chunk * 32 + l], (part * 2) as u8, 3);
            Term {
                scale: as_signed(src[192 + chunk * 8 + part * 2 + l / 16]),
                q: low as i32 + 16 * high as i32 - 32,
                min: 0,
            }
        },
    }
}

/// Takes a block apart.
pub fn dequant_block(ty: TensorType, src: &[u8]) -> (b: Block)
    requires
        block_bytes(ty) is Some,
        src@.len() >= block_bytes(ty)->0,
    ensures
        b.d == block_d(ty, src@),
        b.dmin == block_dmin(ty, src@),
        b.terms@ == Seq::new(256, |i: int| term(ty, src@, i)),
{
    let (d, dmin): (u32, u32) = match ty {
        TensorType::Q2K => (read_half(src, 80), read_half(src, 82)),
        TensorType::Q3K => (read_half(src, 108), 0),
        TensorType::Q4K | TensorType::Q5K => (read_half(src, 0), read_half(src, 2)),
        _ => (read_half(src, 208), 0),
    };
    let mut terms: Vec<Term> = Vec::new();
    let mut i: usize = 0;
    while i < 256
        invariant
            i <= 256,
            block_bytes(ty) is Some,
            src@.len() >= block_bytes(ty)->0,
            terms@ =~= Seq::new(i as nat, |k: int| term(ty, src@, k)),
        decreases 256 - i,
    {
        terms.push(get_term(ty, src, i));
        i += 1;
    }
    Block { d, dmin, terms }
}

/// Quantized weights fit their bits: scales in seven with sign, quants in six
/// with sign, minima in six.
pub proof fn terms_are_small(ty: TensorType, src: Seq<u8>, i: int)
    requires
        0 <= i < 256,
        block_bytes(ty) is Some,
        src.len() >= block_bytes(ty)->0,
    ensures
        -128 <= term(ty, src, i).scale < 128,
        -32 <= term(ty, src, i).q < 32,
        0 <= term(ty, src, i).min < 64,
{
    bits_bound();
}

proof fn bits_bound()
    ensures
        forall|b: u8, s: u8| s < 8 ==> #[trigger] bits(b, s, 1) <= 1,
        forall|b: u8, s: u8| s < 8 ==> #[trigger] bits(b, s, 3) <= 3,
        forall|b: u8, s: u8| s < 8 ==> #[trigger] bits(b, s, 15) <= 15,
        forall|b: u8, s: u8| s < 8 ==> #[trigger] bits(b, s, 63) <= 63,
{
    assert forall|b: u8, s: u8| s < 8 implies #[trigger] bits(b, s, 1) <= 1 by {
        assert((b >> s) & 1 <= 1) by (bit_vector);
    }
    assert forall|b: u8, s: u8| s < 8 implies #[trigger] bits(b, s, 3) <= 3 by {
        assert((b >> s) & 3 <= 3) by (bit_vector);
    }
    assert forall|b: u8, s: u8| s < 8 implies #[trigger] bits(b, s, 15) <= 15 by {
        assert((b >> s) & 15 <= 15) by (bit_vector);
    }
    assert forall|b: u8, s: u8| s < 8 implies #[trigger] bits(b, s, 63) <= 63 by {
        assert((b >> s) & 63 <= 63) by (bit_vector);
    }
}

/// The byte that holds a signed value.
pub open spec fn unsigned_byte(q: i8) -> u8 {
    (if q >= 0 {
        q as int
    } else {
        q + 256
    }) as u8
}

/// One Q8_0 block: the factor in half precision, and a signed byte per weight.
pub open spec fn q8_0_block(d: u32, qs: Seq<i8>) -> Seq<u8> {
    le_bytes(half_of(d) as nat, 2) + qs.map_values(|q: i8| unsigned_byte(q))
}

/// Appends a Q8_0 block. `d` is the factor's single precision bits.
pub fn push_q8_0(out: &mut Vec<u8>, d: u32, qs: &[i8])
    ensures
        final(out)@ == old(out)@ + q8_0_block(d, qs@),
{
    let h: u16 = f32_to_f16(d);
    push_le(out, h as u64, 2);
    let ghost before = out@;
    let mut i: usize = 0;
    let ghost want = qs@.map_values(|q: i8| unsigned_byte(q));
    assert(out@ =~= before + want.take(0));
    while i < qs.len()
        invariant
            i <= qs@.len(),
            want == qs@.map_values(|q: i8| unsigned_byte(q)),
            out@ == before + want.take(i as int),
        decreases qs@.len() - i,
    {
        let q: i32 = qs[i] as i32;
        let b: u8 = if q >= 0 {
            q as u8
        } else {
            (q + 256) as u8
        };
        out.push(b);
        assert(want.take(i + 1) =~= want.take(i as int).push(b));
        assert(out@ =~= before + want.take(i + 1));
        i += 1;
    }
    assert(want.take(i as int) =~= want);
    assert(out@ =~= old(out)@ + q8_0_block(d, qs@));
}

/// A signed byte is read back from where it was put.
pub proof fn q8_0_reads_back(d: u32, qs: Seq<i8>, i: int)
    requires
        0 <= i < qs.len(),
    ensures
        q8_0_block(d, qs).len() == 2 + qs.len(),
        signed(q8_0_block(d, qs)[2 + i]) == qs[i],
{
    crate::le::le_bytes_len(half_of(d) as nat, 2);
}

/// Single precision bits of each four bytes; a remainder is ignored.
pub open spec fn words_of(b: Seq<u8>) -> Seq<u32> {
    Seq::new((b.len() / 4) as nat, |i: int| le_value(b.subrange(4 * i, 4 * i + 4)) as u32)
}

/// Reads little-endian single precision bits.
pub fn read_words(b: &[u8]) -> (v: Vec<u32>)
    ensures
        v@ == words_of(b@),
{
    let n: usize = b.len() / 4;
    let mut v: Vec<u32> = Vec::new();
    let mut i: usize = 0;
    proof {
        pow256_values();
    }
    while i < n
        invariant
            i <= n,
            n == b.len() / 4,
            crate::le::pow256(4) == 0x1_0000_0000,
            v@ =~= words_of(b@).take(i as int),
        decreases n - i,
    {
        assert(4 * i + 4 <= b.len());
        v.push(read_le(b, 4 * i, 4) as u32);
        i += 1;
    }
    assert(v@ =~= words_of(b@));
    v
}

/// The block at position `k` of a row.
pub fn block_at(row: &[u8], k: usize, bytes: usize) -> (b: &[u8])
    requires
        (k + 1) * bytes <= row@.len(),
    ensures
        b@ == row@.subrange(k * bytes, (k + 1) * bytes),
{
    let n: usize = row.len();
    proof {
        assert(k * bytes + bytes == (k + 1) * bytes) by (nonlinear_arith);
        assert(0 <= k * bytes) by (nonlinear_arith);
        assert(n == row@.len());
    }
    slice_subrange(row, k * bytes, k * bytes + bytes)
}

} // verus!
