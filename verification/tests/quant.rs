use pulsar::dot::{
    block_sums, build_ksigns, dequant_iq2_xxs, sign_mask, vec_dot_iq2_xxs_q8_k,
    vec_dot_iq2_xxs_q8_k_scalar, vec_dot_q2_k_q8_k, vec_dot_q2_k_q8_k_scalar, Q8KRow, Q2_K_BLOCK_BYTES,
};
use pulsar::f16::{f16_to_f32, f32_to_f16};
use pulsar::gguf::TensorType;
use pulsar::quant::{block_at, dequant_block, k4_scale_min, push_q8_0, read_words, Block, QK_K};

fn lcg(state: &mut u64) -> f32 {
    *state = state.wrapping_mul(6364136223846793005).wrapping_add(1442695040888963407);
    ((*state >> 33) as f32 / (1u64 << 31) as f32) - 1.0
}

/// d = amax/127, q = round(x/d), per block of 256.
fn quantize_row_q8_k(x: &[f32]) -> Q8KRow {
    let mut d = Vec::new();
    let mut qs: Vec<i8> = Vec::new();
    for b in x.chunks_exact(QK_K) {
        let amax = b.iter().fold(0f32, |a, &v| a.max(v.abs()));
        if amax == 0.0 {
            d.push(0f32.to_bits());
            qs.extend(std::iter::repeat(0i8).take(QK_K));
            continue;
        }
        let inv = 127.0 / amax;
        d.push((amax / 127.0).to_bits());
        for &v in b {
            qs.push((v * inv).round().clamp(-127.0, 127.0) as i8);
        }
    }
    Q8KRow::new(d, qs)
}

fn single(bits: u32) -> f32 {
    f32::from_bits(bits)
}

fn half(lo: u8, hi: u8) -> f32 {
    single(f16_to_f32(u16::from_le_bytes([lo, hi])))
}

/// The row's dot product from its blocks' integer sums.
fn q2k_total(row: &[u8], x: &Q8KRow, sums: &[(i32, i32)]) -> f32 {
    let mut total = 0f32;
    for (k, &(isum, summs)) in sums.iter().enumerate() {
        let blk = block_at(row, k, Q2_K_BLOCK_BYTES);
        let xd = half(blk[80], blk[81]);
        let xmin = half(blk[82], blk[83]);
        let d = single(x.d[k]);
        total += d * xd * isum as f32 - d * xmin * summs as f32;
    }
    total
}

/// q2_K dequant straight from the format: value chunk c (16 values) uses scale
/// sc[c], q2 byte 32*(c/8) + 16*(c%2), shift 2*((c%8)/2).
fn dequant_q2_k(row: &[u8], n: usize, out: &mut Vec<f32>) {
    out.clear();
    for ibl in 0..n / QK_K {
        let blk = &row[ibl * Q2_K_BLOCK_BYTES..(ibl + 1) * Q2_K_BLOCK_BYTES];
        let (sc, q2) = (&blk[..16], &blk[16..80]);
        let xd = half(blk[80], blk[81]);
        let xmin = half(blk[82], blk[83]);
        for c in 0..16 {
            let (k, js, half) = (c / 8, (c % 8) / 2, c % 2);
            for i in 0..16 {
                let q = (q2[32 * k + 16 * half + i] >> (2 * js)) & 3;
                out.push(xd * (sc[c] & 0x0f) as f32 * q as f32 - xmin * (sc[c] >> 4) as f32);
            }
        }
    }
}

fn q2k_row(n: usize, st: &mut u64) -> Vec<u8> {
    let nb = n / QK_K;
    let mut row = vec![0u8; nb * Q2_K_BLOCK_BYTES];
    for b in row.iter_mut() {
        *b = (lcg(st) * 127.0 + 128.0) as u8;
    }
    for ibl in 0..nb {
        let o = ibl * Q2_K_BLOCK_BYTES;
        row[o + 81] &= 0x3b; // d exponent small
        row[o + 83] &= 0x3b; // dmin exponent small
    }
    row
}

#[test]
fn q2k_dot_matches_dequant_and_scalar() {
    let n = 5120;
    let mut st = 99u64;
    // random bytes are a valid q2_K row; cap the f16 d/dmin exponents
    // so the reference stays finite
    let row = q2k_row(n, &mut st);
    let act: Vec<f32> = (0..n).map(|_| lcg(&mut st)).collect();
    let xq = quantize_row_q8_k(&act);
    let got = q2k_total(&row, &xq, &vec_dot_q2_k_q8_k_scalar(&row, &xq, n));
    let mut deq = Vec::new();
    dequant_q2_k(&row, n, &mut deq);
    let mut reference = 0f64;
    for i in 0..n {
        reference += deq[i] as f64 * (single(xq.d[i / QK_K]) as f64 * xq.qs[i] as f64);
    }
    let rel = ((got as f64 - reference) / reference.abs().max(1e-6)).abs();
    assert!(rel < 1e-4, "q2k dot {got} vs reference {reference} (rel {rel})");
    let simd = q2k_total(&row, &xq, &vec_dot_q2_k_q8_k(&row, &xq, n));
    assert_eq!(simd.to_bits(), got.to_bits(), "q2k simd {simd} vs scalar {got}");
}

/// Weights from a block's integers.
fn weights(b: &Block) -> Vec<f32> {
    let (d, dmin) = (single(b.d), single(b.dmin));
    b.terms
        .iter()
        .map(|t| d * t.scale as f32 * t.q as f32 - dmin * t.min as f32)
        .collect()
}

#[test]
fn q2k_block_taken_apart_is_the_format() {
    let mut st = 5u64;
    let row = q2k_row(QK_K, &mut st);
    let mut want = Vec::new();
    dequant_q2_k(&row, QK_K, &mut want);
    assert_eq!(weights(&dequant_block(TensorType::Q2K, &row)), want);
}

#[test]
fn q4k_and_q5k_blocks_are_taken_apart() {
    // d = 1.0, dmin = 0.5, scale j = j + 1, min j = 2j + 1 for j < 4
    let mut src = vec![0u8; 176];
    src[0..2].copy_from_slice(&0x3c00u16.to_le_bytes());
    src[2..4].copy_from_slice(&0x3800u16.to_le_bytes());
    for j in 0..4 {
        src[4 + j] = (j + 1) as u8 | 0x40; // two high bits belong to scale j + 4
        src[8 + j] = (2 * j + 1) as u8 | 0x80; // and to minimum j + 4
        src[12 + j] = 0x25; // low nibble 5, high nibble 2
    }
    assert_eq!(k4_scale_min(&src, 4, 2), (3, 5));
    assert_eq!(k4_scale_min(&src, 4, 6), (0x15, 0x22));
    let mut q4 = src.clone();
    q4[16] = 0xa7; // weights 0 and 32
    let b = dequant_block(TensorType::Q4K, &q4);
    assert_eq!((single(b.d), single(b.dmin)), (1.0, 0.5));
    assert_eq!((b.terms[0].scale, b.terms[0].q, b.terms[0].min), (1, 7, 1));
    assert_eq!((b.terms[32].scale, b.terms[32].q, b.terms[32].min), (2, 10, 3));
    let mut q5 = src;
    q5[16] = 0b10; // high bit of weight 32 only
    q5[48] = 0xa7;
    let b = dequant_block(TensorType::Q5K, &q5);
    assert_eq!((b.terms[0].q, b.terms[32].q), (7, 26));
    assert_eq!(weights(&b)[32], 2.0 * 26.0 - 0.5 * 3.0);
}

#[test]
fn q3k_and_q6k_blocks_are_taken_apart() {
    let mut src = vec![0u8; 110];
    src[0] = 0b1; // high bit of weight 0
    src[32] = 0b0110; // weight 0: 2, weight 32: 1
    src[96] = 0x93; // scale 0 low nibble 3, scale 8 low nibble 9
    src[104] = 0b10_00_00_11; // high bits: scale 0: 3, scale 12: 2
    src[108..110].copy_from_slice(&0x4000u16.to_le_bytes());
    let b = dequant_block(TensorType::Q3K, &src);
    assert_eq!(single(b.d), 2.0);
    assert_eq!((b.terms[0].scale, b.terms[0].q), (3 + 48 - 32, 2));
    assert_eq!((b.terms[32].scale, b.terms[32].q), (0 - 32, 1 - 4));
    assert_eq!(b.terms[128].scale, 9 - 32);
    assert_eq!(weights(&b)[0], 2.0 * 19.0 * 2.0);

    let mut src = vec![0u8; 210];
    src[0] = 0x5c; // weight 0 low 12, weight 64 low 5
    src[128] = 0b00_10_00_01; // weight 0 high 1, weight 64 high 2
    src[192] = 0xfe; // scale of weight 0: -2
    src[196] = 7; // scale of weight 64
    src[208..210].copy_from_slice(&0x3c00u16.to_le_bytes());
    let b = dequant_block(TensorType::Q6K, &src);
    assert_eq!((b.terms[0].scale, b.terms[0].q), (-2, 12 + 16 - 32));
    assert_eq!((b.terms[64].scale, b.terms[64].q), (7, 5 + 32 - 32));
    assert_eq!(b.terms[1].q, -32);
}

#[test]
fn half_precision_goes_both_ways() {
    assert_eq!(single(f16_to_f32(0x3c00)), 1.0);
    assert_eq!(single(f16_to_f32(0xc500)), -5.0);
    assert_eq!(single(f16_to_f32(0x0001)), 5.9604645e-8);
    assert_eq!(single(f16_to_f32(0x03ff)), 6.0975552e-5);
    assert_eq!(single(f16_to_f32(0x8000)).to_bits(), (-0.0f32).to_bits());
    assert_eq!(single(f16_to_f32(0x7c00)), f32::INFINITY);
    assert!(single(f16_to_f32(0x7e00)).is_nan());
    assert_eq!(f32_to_f16(1.0f32.to_bits()), 0x3c00);
    assert_eq!(f32_to_f16(65536.0f32.to_bits()), 0x7c00);
    assert_eq!(f32_to_f16((-1e-8f32).to_bits()), 0x8000);
    for h in 0..=u16::MAX {
        let e = (h >> 10) & 0x1f;
        if (e > 0 && e < 31) || h & 0x3ff == 0 {
            assert_eq!(f32_to_f16(f16_to_f32(h)), h);
        }
    }
}

#[test]
fn q8_0_blocks_are_framed() {
    let mut out = vec![9u8];
    push_q8_0(&mut out, 0.5f32.to_bits(), &[1, -1, -128, 127]);
    assert_eq!(out, vec![9, 0x00, 0x38, 1, 0xff, 0x80, 0x7f]);
}

#[test]
fn words_are_read_little_endian() {
    let mut b = 1.5f32.to_le_bytes().to_vec();
    b.extend((-2.0f32).to_le_bytes());
    b.push(7);
    assert_eq!(read_words(&b), vec![1.5f32.to_bits(), (-2.0f32).to_bits()]);
}

#[test]
fn sums_of_sixteen() {
    let qs: Vec<i8> = (0..40).map(|i| i as i8 - 10).collect();
    assert_eq!(block_sums(&qs), vec![-40, 216]);
}

#[test]
fn sign_masks_have_even_parity() {
    assert_eq!(sign_mask(0), 0);
    assert_eq!(sign_mask(0b1), 0b1000_0001);
    assert_eq!(sign_mask(0b11), 0b11);
    let table = build_ksigns();
    for m in 0..128u32 {
        let full = sign_mask(m);
        assert_eq!(full & 127, m);
        assert_eq!(full.count_ones() % 2, 0);
        for i in 0..8 {
            assert_eq!(table[m as usize][i], if (full >> i) & 1 == 1 { 0xff } else { 1 });
        }
    }
}

#[test]
fn signs_by_table_give_the_same_sums() {
    let n = 1024;
    let mut st = 7u64;
    let grid: Vec<u64> = (0..256)
        .map(|_| {
            let mut w = 0u64;
            for i in 0..8 {
                w |= (((lcg(&mut st) + 1.0) * 21.0) as u64) << (8 * i);
            }
            w
        })
        .collect();
    let row: Vec<u8> = (0..n / QK_K * 66).map(|_| (lcg(&mut st) * 127.0 + 128.0) as u8).collect();
    let act: Vec<f32> = (0..n).map(|_| lcg(&mut st)).collect();
    let xq = quantize_row_q8_k(&act);
    let a = vec_dot_iq2_xxs_q8_k(&row, &grid, &build_ksigns(), &xq, n);
    let b = vec_dot_iq2_xxs_q8_k_scalar(&row, &grid, &xq, n);
    assert_eq!(a, b);
    // and both are the sum over the weights taken apart
    for k in 0..n / QK_K {
        let w = dequant_iq2_xxs(block_at(&row, k, 66), &grid);
        let sum: i32 = w
            .iter()
            .zip(&xq.qs[k * QK_K..(k + 1) * QK_K])
            .map(|(&(s, v), &q)| s * v * q as i32)
            .sum();
        assert_eq!(a[k], sum);
    }
}

#[test]
fn an_iq2_block_by_hand() {
    let mut blk = vec![0u8; 66];
    blk[2] = 3; // first pattern of sub-block 0
    // signs 0b0000001 for it, scale 2 on top
    blk[6..10].copy_from_slice(&(1u32 | 2 << 28).to_le_bytes());
    let mut grid = vec![0u64; 256];
    grid[3] = 0x0807_0605_0403_0201;
    let w = dequant_iq2_xxs(&blk, &grid);
    // the first weight is negated, and the eighth to make the parity even
    let head: Vec<(i32, i32)> = w[..8].to_vec();
    assert_eq!(
        head,
        vec![(5, -1), (5, 2), (5, 3), (5, 4), (5, 5), (5, 6), (5, 7), (5, -8)]
    );
    assert_eq!(w[8], (5, 0));
    assert_eq!(w[32], (1, 0));
}
