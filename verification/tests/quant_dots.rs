//! Integer dot products of packed rows with 8-bit rows, and the grid tables.

use pulsar::fp::f16_to_f32;
use pulsar::quant::blocks::QK_K;
use pulsar::quant::dots::{dot_i8, group_sums, q3_k_sum, q3_k_sum_folded};
use pulsar::quant::iq::{grid_bytes, tables, Lookup, KMAP_SIZE};
use pulsar::quant::iq_blocks::{
    build_ksigns64, iq2_xs_sum, iq2_xxs_sum, iq2_xxs_weights, iq3_xxs_sums, pack_iq2_xxs, sign_mask,
    store_signs, IQ2_XS_BLOCK_BYTES, IQ2_XXS_BLOCK_BYTES, IQ3_XXS_BLOCK_BYTES,
};
use pulsar::quant::iq_encode::{closest, least_place, level_code, F32_MAX_BITS};
use pulsar::quant::pack::{Q2_K_BLOCK_BYTES, Q3_K_BLOCK_BYTES, Q4_K_BLOCK_BYTES};
use pulsar::quant::q8row::{
    k3_pack_q8_row, k3_reconstruct_q8, vec_dot_iq2_xs_q8_k, vec_dot_iq2_xxs_q8_k,
    vec_dot_iq3_xxs_q8_k, vec_dot_q2_k_q8_k, vec_dot_q3_k_q8_k, vec_dot_q4_k_q8_k, BlockDot, Q8KRow,
    Q8_K_BLOCK_BYTES,
};
use pulsar::quant::scales::{k3_scales, k4_scale_min};

fn lcg(state: &mut u64) -> f32 {
    *state = state
        .wrapping_mul(6364136223846793005)
        .wrapping_add(1442695040888963407);
    ((*state >> 33) as f32 / (1u64 << 31) as f32) - 1.0
}

fn half(h: u16) -> f32 {
    f32::from_bits(f16_to_f32(h))
}

/// d = amax/127, q = round(x/d)
fn quantize_row_q8_k(x: &[f32]) -> Q8KRow {
    let mut d = Vec::new();
    let mut qs: Vec<i8> = Vec::new();
    for b in x.chunks_exact(QK_K) {
        let amax = b.iter().fold(0f32, |a, &v| a.max(v.abs()));
        if amax == 0.0 {
            d.push(0);
            qs.extend(vec![0i8; QK_K]);
            continue;
        }
        d.push((amax / 127.0).to_bits());
        for &v in b {
            qs.push((v * (127.0 / amax)).round().clamp(-127.0, 127.0) as i8);
        }
    }
    Q8KRow::new(d, qs)
}

fn scale(x: &Q8KRow, i: usize) -> f64 {
    f32::from_bits(x.d[i / QK_K]) as f64 * x.qs[i] as f64
}

fn random_row(st: &mut u64, n: usize) -> Vec<u8> {
    (0..n).map(|_| (lcg(st) * 127.0 + 128.0) as u8).collect()
}

/// The value of a row of block products.
fn total(v: &[BlockDot]) -> f32 {
    let mut sum = 0f32;
    for b in v {
        let xd = f32::from_bits(b.xd);
        sum += xd * half(b.d) * b.isum as f32 - xd * half(b.dmin) * b.summs as f32;
    }
    sum
}

/// q2_K dequant reference straight from the format: value chunk c
/// (16 values) uses scale sc[c], q2 byte 32*(c/8) + 16*(c%2), shift
/// 2*((c%8)/2).
fn dequant_q2_k(row: &[u8], n: usize, out: &mut Vec<f32>) {
    out.clear();
    for ibl in 0..n / QK_K {
        let blk = &row[ibl * Q2_K_BLOCK_BYTES..(ibl + 1) * Q2_K_BLOCK_BYTES];
        let (sc, q2) = (&blk[..16], &blk[16..80]);
        let xd = half(u16::from_le_bytes([blk[80], blk[81]]));
        let xmin = half(u16::from_le_bytes([blk[82], blk[83]]));
        for c in 0..16 {
            let (k, js, h) = (c / 8, (c % 8) / 2, c % 2);
            for i in 0..16 {
                let q = (q2[32 * k + 16 * h + i] >> (2 * js)) & 3;
                out.push(xd * (sc[c] & 0x0f) as f32 * q as f32 - xmin * (sc[c] >> 4) as f32);
            }
        }
    }
}

#[test]
fn q2k_dot_matches_dequant_and_scalar() {
    let n = 5120;
    let mut st = 99u64;
    // random bytes are a valid q2_K row; cap the f16 d/dmin exponents
    // so the reference stays finite
    let nb = n / QK_K;
    let mut row = random_row(&mut st, nb * Q2_K_BLOCK_BYTES);
    for ibl in 0..nb {
        let o = ibl * Q2_K_BLOCK_BYTES;
        row[o + 81] &= 0x3b; // d exponent small
        row[o + 83] &= 0x3b; // dmin exponent small
    }
    let act: Vec<f32> = (0..n).map(|_| lcg(&mut st)).collect();
    let xq = quantize_row_q8_k(&act);
    let got = total(&vec_dot_q2_k_q8_k(&row, &xq, n));
    let mut deq = Vec::new();
    dequant_q2_k(&row, n, &mut deq);
    let mut reference = 0f64;
    for i in 0..n {
        reference += deq[i] as f64 * scale(&xq, i);
    }
    let rel = ((got as f64 - reference) / reference.abs().max(1e-6)).abs();
    assert!(rel < 1e-4, "q2k dot {got} vs reference {reference} (rel {rel})");
}

#[test]
fn q3k_dot_matches_dequant_and_scalar() {
    let n = 5120;
    let mut st = 7331u64;
    let nb = n / QK_K;
    let mut row = random_row(&mut st, nb * Q3_K_BLOCK_BYTES);
    for ibl in 0..nb {
        row[ibl * Q3_K_BLOCK_BYTES + 109] &= 0x3b; // keep f16 d finite/small
    }
    let act: Vec<f32> = (0..n).map(|_| lcg(&mut st)).collect();
    let xq = quantize_row_q8_k(&act);
    let dots = vec_dot_q3_k_q8_k(&row, &xq, n);
    let got = total(&dots);
    let mut reference = 0f64;
    for ibl in 0..nb {
        let blk = &row[ibl * Q3_K_BLOCK_BYTES..(ibl + 1) * Q3_K_BLOCK_BYTES];
        let (hm, q3) = (&blk[..32], &blk[32..96]);
        let xd = half(u16::from_le_bytes([blk[108], blk[109]])) as f64;
        let sc = k3_scales(&blk[96..108]);
        for c in 0..16 {
            let (k, js, h) = (c / 8, (c % 8) / 2, c % 2);
            for i in 0..16 {
                let l = h * 16 + i;
                let mut q = ((q3[32 * k + l] >> (2 * js)) & 3) as i32;
                if hm[l] & (1 << (4 * k + js)) == 0 {
                    q -= 4;
                }
                let v = xd * sc[c] as f64 * q as f64;
                let idx = ibl * QK_K + 16 * c + i;
                reference += v * scale(&xq, idx);
            }
        }
        // the folded form sums the same
        let q8 = &xq.qs[ibl * QK_K..(ibl + 1) * QK_K];
        let bs = &xq.bsums[ibl * 16..(ibl + 1) * 16];
        assert_eq!(q3_k_sum(blk, q8), q3_k_sum_folded(blk, q8, bs));
        assert_eq!(q3_k_sum(blk, q8), dots[ibl].isum);
    }
    let rel = ((got as f64 - reference) / reference.abs().max(1e-6)).abs();
    assert!(rel < 1e-4, "q3k dot {got} vs reference {reference} (rel {rel})");
}

#[test]
fn q4k_dot_matches_dequant_and_scalar() {
    let n = 5120;
    let mut st = 424242u64;
    let nb = n / QK_K;
    let mut row = random_row(&mut st, nb * Q4_K_BLOCK_BYTES);
    for ibl in 0..nb {
        row[ibl * Q4_K_BLOCK_BYTES + 1] &= 0x3b;
        row[ibl * Q4_K_BLOCK_BYTES + 3] &= 0x3b;
    }
    let act: Vec<f32> = (0..n).map(|_| lcg(&mut st)).collect();
    let xq = quantize_row_q8_k(&act);
    let got = total(&vec_dot_q4_k_q8_k(&row, &xq, n));
    let mut reference = 0f64;
    for ibl in 0..nb {
        let blk = &row[ibl * Q4_K_BLOCK_BYTES..(ibl + 1) * Q4_K_BLOCK_BYTES];
        let xd = half(u16::from_le_bytes([blk[0], blk[1]])) as f64;
        let xmin = half(u16::from_le_bytes([blk[2], blk[3]])) as f64;
        let (scales, q4) = (&blk[4..16], &blk[16..144]);
        for j in 0..4 {
            let (sc1, m1) = k4_scale_min(2 * j, scales);
            let (sc2, m2) = k4_scale_min(2 * j + 1, scales);
            for i in 0..32 {
                let v = q4[32 * j + i];
                for (q, sc, m, idx) in [
                    ((v & 0x0f) as f64, sc1, m1, ibl * QK_K + 64 * j + i),
                    ((v >> 4) as f64, sc2, m2, ibl * QK_K + 64 * j + 32 + i),
                ] {
                    let val = xd * sc as f64 * q - xmin * m as f64;
                    reference += val * scale(&xq, idx);
                }
            }
        }
    }
    let rel = ((got as f64 - reference) / reference.abs().max(1e-6)).abs();
    assert!(rel < 1e-4, "q4k dot {got} vs reference {reference} (rel {rel})");
}

#[test]
fn iq2xxs_dot_follows_the_format() {
    let n = 512;
    let mut st = 42u64;
    let row = random_row(&mut st, 2 * IQ2_XXS_BLOCK_BYTES);
    let act: Vec<f32> = (0..n).map(|_| lcg(&mut st)).collect();
    let xq = quantize_row_q8_k(&act);
    let grid = tables().grid;
    let dots = vec_dot_iq2_xxs_q8_k(&row, &xq, n, &grid);
    assert_eq!(dots.len(), 2);
    for ibl in 0..2 {
        let blk = &row[ibl * IQ2_XXS_BLOCK_BYTES..(ibl + 1) * IQ2_XXS_BLOCK_BYTES];
        let q8 = &xq.qs[ibl * QK_K..(ibl + 1) * QK_K];
        let mut sum = 0i32;
        for g in 0..8 {
            let a0 = u32::from_le_bytes(blk[2 + 8 * g..6 + 8 * g].try_into().unwrap());
            let a1 = u32::from_le_bytes(blk[6 + 8 * g..10 + 8 * g].try_into().unwrap());
            for k in 0..4 {
                let b = grid[((a0 >> (8 * k)) & 255) as usize].to_le_bytes();
                let s7 = (a1 >> (7 * k)) & 127;
                let sm = s7 | ((s7.count_ones() & 1) << 7);
                for i in 0..8 {
                    let w = b[i] as i32 * if (sm >> i) & 1 == 1 { -1 } else { 1 };
                    sum += (2 * (a1 >> 28) + 1) as i32 * w * q8[32 * g + 8 * k + i] as i32;
                }
            }
        }
        assert_eq!(iq2_xxs_sum(blk, q8, &grid), sum);
        assert_eq!(dots[ibl].isum, sum);
        assert_eq!(dots[ibl].d, u16::from_le_bytes([blk[0], blk[1]]));
        assert_eq!(dots[ibl].xd, xq.d[ibl]);
        assert_eq!(dots[ibl].summs, 0);
        let w = iq2_xxs_weights(blk, &grid);
        assert_eq!(dot_i8(&w, q8), sum);
    }
}

#[test]
fn iq2xs_dot_follows_the_format() {
    let n = 512;
    let mut st = 555u64;
    let row = random_row(&mut st, 2 * IQ2_XS_BLOCK_BYTES);
    let act: Vec<f32> = (0..n).map(|_| lcg(&mut st)).collect();
    let xq = quantize_row_q8_k(&act);
    let grid: Vec<u64> = (0..512u64).map(|i| 0x0108_192b_0108_192b ^ (i & 1) << 8).collect();
    let dots = vec_dot_iq2_xs_q8_k(&row, &xq, n, &grid);
    for ibl in 0..2 {
        let blk = &row[ibl * IQ2_XS_BLOCK_BYTES..(ibl + 1) * IQ2_XS_BLOCK_BYTES];
        let q8 = &xq.qs[ibl * QK_K..(ibl + 1) * QK_K];
        let mut sum = 0i32;
        for g in 0..8 {
            let sc = blk[66 + g];
            for j in 0..4 {
                let q = u16::from_le_bytes([blk[2 + 2 * (4 * g + j)], blk[3 + 2 * (4 * g + j)]]);
                let gr = grid[(q & 511) as usize].to_le_bytes();
                let sm = sign_mask((q >> 9) as u32);
                let ls = if j < 2 { 2 * (sc & 0x0f) + 1 } else { 2 * (sc >> 4) + 1 } as i32;
                for i in 0..8 {
                    let w = gr[i] as i8 as i32 * if (sm >> i) & 1 == 1 { -1 } else { 1 };
                    sum += ls * w * q8[32 * g + 8 * j + i] as i32;
                }
            }
        }
        assert_eq!(iq2_xs_sum(blk, q8, &grid), sum);
        assert_eq!(dots[ibl].isum, sum);
    }
}

#[test]
fn iq3xxs_dot_follows_the_format() {
    let n = 512;
    let mut st = 777u64;
    let row = random_row(&mut st, 2 * IQ3_XXS_BLOCK_BYTES);
    let act: Vec<f32> = (0..n).map(|_| lcg(&mut st)).collect();
    let xq = quantize_row_q8_k(&act);
    let grid: Vec<u32> = (0..256u32).map(|i| 0x040c_141c ^ (i & 3) << 8).collect();
    let dots = vec_dot_iq3_xxs_q8_k(&row, &xq, n, &grid);
    for ibl in 0..2 {
        let blk = &row[ibl * IQ3_XXS_BLOCK_BYTES..(ibl + 1) * IQ3_XXS_BLOCK_BYTES];
        let q8 = &xq.qs[ibl * QK_K..(ibl + 1) * QK_K];
        let (isums, scales) = iq3_xxs_sums(blk, q8, &grid);
        for g in 0..8 {
            let aux = u32::from_le_bytes(blk[66 + 4 * g..70 + 4 * g].try_into().unwrap());
            let mut sum = 0i32;
            for j in 0..4 {
                let sm = sign_mask((aux >> (7 * j)) & 127);
                let g0 = grid[blk[2 + 8 * g + 2 * j] as usize].to_le_bytes();
                let g1 = grid[blk[2 + 8 * g + 2 * j + 1] as usize].to_le_bytes();
                for i in 0..4 {
                    let w0 = g0[i] as i8 as i32 * if (sm >> i) & 1 == 1 { -1 } else { 1 };
                    let w1 = g1[i] as i8 as i32 * if (sm >> (4 + i)) & 1 == 1 { -1 } else { 1 };
                    sum += w0 * q8[32 * g + 8 * j + i] as i32 + w1 * q8[32 * g + 8 * j + 4 + i] as i32;
                }
            }
            assert_eq!(isums[g], sum);
            assert_eq!(scales[g], (aux >> 28) as i32);
        }
        assert_eq!((&dots[ibl].isums, &dots[ibl].scales), (&isums, &scales));
        assert_eq!(dots[ibl].xd, xq.d[ibl]);
    }
}

/// A codebook of 512 words with small odd magnitudes, each word another one.
fn words_512() -> Vec<u64> {
    let levels = [8u64, 25, 43];
    (0..512usize)
        .map(|i| (0..8u32).fold(0, |w, k| w | levels[(i / 3usize.pow(k % 6) + k as usize) % 3] << (8 * k)))
        .collect()
}

/// A codebook of 256 words of four magnitudes.
fn words_256() -> Vec<u32> {
    let levels = [4u32, 12, 20, 28, 36, 44, 52, 62];
    (0..256usize)
        .map(|i| (0..4u32).fold(0, |w, k| w | levels[(i >> (2 * k)) % 8] << (8 * k)))
        .collect()
}

#[test]
fn iq2xs_dot_matches_dequant_and_scalar() {
    let n = 5120;
    let mut st = 555u64;
    let nb = n / QK_K;
    let mut row = random_row(&mut st, nb * IQ2_XS_BLOCK_BYTES);
    for ibl in 0..nb {
        row[ibl * IQ2_XS_BLOCK_BYTES + 1] &= 0x3b;
    }
    let act: Vec<f32> = (0..n).map(|_| lcg(&mut st)).collect();
    let xq = quantize_row_q8_k(&act);
    let grid = words_512();
    let dots = vec_dot_iq2_xs_q8_k(&row, &xq, n, &grid);
    let mut got = 0f32;
    for b in &dots {
        got += 0.125 * half(b.d) * f32::from_bits(b.xd) * b.isum as f32;
    }
    let mut reference = 0f64;
    let mut scalar = 0f32;
    for ibl in 0..nb {
        let blk = &row[ibl * IQ2_XS_BLOCK_BYTES..(ibl + 1) * IQ2_XS_BLOCK_BYTES];
        let xd = half(u16::from_le_bytes([blk[0], blk[1]])) as f64;
        let mut bsum = 0i32;
        for g in 0..8 {
            let sc = blk[66 + g];
            for j in 0..4 {
                let q = u16::from_le_bytes([blk[2 + 2 * (4 * g + j)], blk[3 + 2 * (4 * g + j)]]);
                let gr = grid[(q & 511) as usize].to_le_bytes();
                let sm = sign_mask((q >> 9) as u32);
                let ls = if j < 2 { 2 * (sc & 0x0f) + 1 } else { 2 * (sc >> 4) + 1 } as f64;
                for i in 0..8 {
                    let w = gr[i] as i8 as f64 * if (sm >> i) & 1 == 1 { -1.0 } else { 1.0 };
                    let idx = ibl * QK_K + 32 * g + 8 * j + i;
                    reference += 0.125 * xd * ls * w * scale(&xq, idx);
                    bsum += (ls * w) as i32 * xq.qs[idx] as i32;
                }
            }
        }
        scalar += 0.125 * xd as f32 * f32::from_bits(xq.d[ibl]) * bsum as f32;
    }
    let rel = ((got as f64 - reference) / reference.abs().max(1e-6)).abs();
    assert!(rel < 1e-4, "iq2xs dot {got} vs reference {reference} (rel {rel})");
    assert_eq!(got.to_bits(), scalar.to_bits(), "iq2xs dot {got} vs scalar {scalar}");
}

#[test]
fn iq3xxs_dot_matches_dequant_and_scalar() {
    let n = 5120;
    let mut st = 777u64;
    let nb = n / QK_K;
    let mut row = random_row(&mut st, nb * IQ3_XXS_BLOCK_BYTES);
    for ibl in 0..nb {
        row[ibl * IQ3_XXS_BLOCK_BYTES + 1] &= 0x3b;
    }
    let act: Vec<f32> = (0..n).map(|_| lcg(&mut st)).collect();
    let xq = quantize_row_q8_k(&act);
    let grid = words_256();
    let dots = vec_dot_iq3_xxs_q8_k(&row, &xq, n, &grid);
    let mut got = 0f32;
    for b in &dots {
        let mut sum = 0f32;
        for (&isum, &s) in b.isums.iter().zip(&b.scales) {
            sum += half(b.d) * (0.5 + s as f32) * 0.5 * isum as f32;
        }
        got += f32::from_bits(b.xd) * sum;
    }
    let mut reference = 0f64;
    let mut scalar = 0f32;
    for ibl in 0..nb {
        let blk = &row[ibl * IQ3_XXS_BLOCK_BYTES..(ibl + 1) * IQ3_XXS_BLOCK_BYTES];
        let xd = half(u16::from_le_bytes([blk[0], blk[1]]));
        let mut bsum = 0f32;
        for g in 0..8 {
            let aux = u32::from_le_bytes(blk[66 + 4 * g..70 + 4 * g].try_into().unwrap());
            let db = xd as f64 * (0.5 + (aux >> 28) as f64) * 0.5;
            let mut isum = 0i32;
            for j in 0..4 {
                let sm = sign_mask((aux >> (7 * j)) & 127);
                let g0 = grid[blk[2 + 8 * g + 2 * j] as usize].to_le_bytes();
                let g1 = grid[blk[2 + 8 * g + 2 * j + 1] as usize].to_le_bytes();
                for i in 0..4 {
                    let idx = ibl * QK_K + 32 * g + 8 * j + i;
                    let w0 = g0[i] as i8 as f64 * if (sm >> i) & 1 == 1 { -1.0 } else { 1.0 };
                    let w1 = g1[i] as i8 as f64 * if (sm >> (4 + i)) & 1 == 1 { -1.0 } else { 1.0 };
                    reference += db * w0 * scale(&xq, idx);
                    reference += db * w1 * scale(&xq, idx + 4);
                    isum += w0 as i32 * xq.qs[idx] as i32 + w1 as i32 * xq.qs[idx + 4] as i32;
                }
            }
            bsum += xd * (0.5 + (aux >> 28) as f32) * 0.5 * isum as f32;
        }
        scalar += f32::from_bits(xq.d[ibl]) * bsum;
    }
    let rel = ((got as f64 - reference) / reference.abs().max(1e-6)).abs();
    assert!(rel < 1e-4, "iq3xxs dot {got} vs reference {reference} (rel {rel})");
    assert_eq!(got.to_bits(), scalar.to_bits(), "iq3xxs dot {got} vs scalar {scalar}");
}

#[test]
fn lanes_come_to_the_sum() {
    let w: Vec<i32> = (0..256).map(|i| (i * 37 % 61) - 30).collect();
    let x: Vec<i8> = (0..256).map(|i| ((i * 91 % 251) - 125) as i8).collect();
    let whole = dot_i8(&w, &x);
    let mut lanes = [0i32; 8];
    for i in 0..256 {
        lanes[i % 8] += w[i] * x[i] as i32;
    }
    assert_eq!(lanes.iter().sum::<i32>(), whole);
    let tripled: Vec<i32> = w.iter().map(|v| 3 * v).collect();
    assert_eq!(dot_i8(&tripled, &x), 3 * whole);
    assert_eq!(dot_i8(&w[..96], &x[..96]) + dot_i8(&w[96..], &x[96..]), whole);
}

#[test]
fn tables_sane() {
    let t = tables();
    assert_eq!(t.grid.len(), 256);
    assert_eq!(t.kmap.len(), KMAP_SIZE);
    // every packed grid point maps to itself
    let mut on_grid = 0;
    for &m in &t.kmap {
        if m >= 0 {
            on_grid += 1;
        } else {
            let off = (-m - 1) as usize;
            let cnt = t.neighbours[off] as usize;
            assert!(cnt > 0 && off + cnt < t.neighbours.len());
        }
    }
    assert_eq!(on_grid, 256);
    // grid coordinates are odd values 1..7
    for &g in &t.grid {
        for b in g.to_le_bytes() {
            assert!(matches!(b, 1 | 3 | 5 | 7));
        }
    }
}

#[test]
fn lookups_agree_with_the_map() {
    let t = tables();
    for (i, &g) in t.grid.iter().enumerate() {
        let ls = t.levels(i);
        assert_eq!(ls.iter().map(|&l| 2 * l as u8 + 1).collect::<Vec<u8>>(), g.to_le_bytes().to_vec());
        let code = level_code(&ls);
        match t.lookup(code) {
            Lookup::Point(j) => assert_eq!(j, i),
            Lookup::Near(_) => panic!("grid point {i} is off the grid"),
        }
        assert_eq!(grid_bytes(g), g.to_le_bytes().map(|b| b as i8).to_vec());
    }
    let off = t.kmap.iter().position(|&m| m < 0).unwrap();
    match t.lookup(off) {
        Lookup::Point(_) => panic!("off the grid"),
        Lookup::Near(c) => {
            let at = (-t.kmap[off] - 1) as usize;
            assert_eq!(c.len(), t.neighbours[at] as usize);
            assert_eq!(c, &t.neighbours[at + 1..at + 1 + c.len()]);
        }
    }
}

#[test]
fn signs_keep_an_even_count() {
    for s in 0..128u32 {
        let m = sign_mask(s);
        assert_eq!(m & 127, s);
        assert_eq!(m.count_ones() % 2, 0);
        let neg: Vec<bool> = (0..8).map(|i| (m >> i) & 1 == 1).collect();
        assert_eq!(store_signs(&neg, 0) as u32, s);
    }
    let words = build_ksigns64();
    assert_eq!(words.len(), 128);
    assert_eq!(words[0], 0x0101_0101_0101_0101);
    assert_eq!(words[1], 0xff01_0101_0101_01ff);
    assert_eq!(words[3], 0x0101_0101_0101_ffff);
}

#[test]
fn a_packed_grid_block_unpacks_to_its_parts() {
    let grid = tables().grid;
    let gi: Vec<u8> = (0..32).map(|i| (i * 7) as u8).collect();
    let signs: Vec<u8> = (0..32).map(|i| (i * 3 % 128) as u8).collect();
    let ls: Vec<u8> = (0..8).map(|i| (15 - i) as u8).collect();
    let mut out = vec![9u8];
    pack_iq2_xxs(&mut out, 0x3c01, &gi, &signs, &ls);
    assert_eq!(out.len(), 1 + IQ2_XXS_BLOCK_BYTES);
    assert_eq!(out[0], 9);
    let w = iq2_xxs_weights(&out[1..], &grid);
    for g in 0..8 {
        for k in 0..4 {
            let b = grid[gi[4 * g + k] as usize].to_le_bytes();
            let sm = sign_mask(signs[4 * g + k] as u32);
            for i in 0..8 {
                let v = b[i] as i32 * (2 * ls[g] as i32 + 1);
                let want = if (sm >> i) & 1 == 1 { -v } else { v };
                assert_eq!(w[32 * g + 8 * k + i], want);
            }
        }
    }
}

#[test]
fn the_closest_candidate_wins() {
    let bits = |v: &[f32]| v.iter().map(|x| x.to_bits()).collect::<Vec<u32>>();
    assert_eq!(closest(&[4, 9, 2], &bits(&[3.0, 1.5, 1.5])), Some(9));
    assert_eq!(closest(&[], &[]), None);
    assert_eq!(closest(&[7], &[F32_MAX_BITS]), None);
    assert_eq!(closest(&[7, 8], &bits(&[f32::NAN, f32::MAX])), None);
    assert_eq!(least_place(&bits(&[2.0, -1.0, 0.5, -1.0])), 1);
    assert_eq!(level_code(&[0, 1, 2, 2, 0, 0, 0, 0]), 1 << 2 | 2 << 4 | 2 << 6);
}

#[test]
fn q8_rows_survive_packing() {
    let mut st = 5u64;
    let act: Vec<f32> = (0..512).map(|_| lcg(&mut st)).collect();
    let x = quantize_row_q8_k(&act);
    assert_eq!(x.bsums, group_sums(&x.qs));
    let raw = k3_pack_q8_row(&x);
    assert_eq!(raw.len(), 2 * Q8_K_BLOCK_BYTES);
    assert_eq!(&raw[..4], &x.d[0].to_le_bytes());
    assert_eq!(raw[4], x.qs[0] as u8);
    assert_eq!(i16::from_le_bytes([raw[260], raw[261]]) as i32, x.bsums[0]);
    let (d, qs) = k3_reconstruct_q8(&raw, 512);
    assert_eq!(qs, x.qs);
    assert_eq!(d.len(), 2);
    assert_eq!(d, x.d);
}
