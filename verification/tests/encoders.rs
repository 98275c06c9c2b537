//! Rows through encoders in single precision and back: what the packed blocks say of the values.

use pulsar::fp;
use pulsar::gguf::TensorType;
use pulsar::quant::blocks::{QK8_0, QK_K};
use pulsar::quant::iq::{grid_bytes, tables, Iq2Tables, Lookup};
use pulsar::quant::iq_blocks::{
    iq2_xxs_sum, iq2_xxs_weights, pack_iq2_xxs, sign_mask, store_signs, IQ2_XXS_BLOCK_BYTES,
};
use pulsar::quant::iq_encode::{closest, least_place, level_code, LEVELS};
use pulsar::quant::pack::{
    pack_q2_k, pack_q3_k, pack_q4_k, pack_q5_k, pack_q6_k, pack_q8_0, Q6_K_BLOCK_BYTES,
};
use pulsar::quant::q8row::{vec_dot_iq2_xxs_q8_k, Q8KRow};
use pulsar::quant::row_blocks::row_blocks;
use pulsar::quant::rows::{quantize_row, Encoder};
use pulsar::quant::unpack::unpack_block;

fn half(x: f32) -> u16 {
    fp::f32_to_f16(x.to_bits())
}

fn single(h: u16) -> f32 {
    f32::from_bits(fp::f16_to_f32(h))
}

/// Rounds half away from zero.
fn nearest_int(x: f32) -> i32 {
    x.round() as i32
}

/// The value of greatest magnitude, and that magnitude.
fn peak(x: &[f32]) -> (f32, f32) {
    let mut max = 0f32;
    let mut amax = 0f32;
    for &v in x {
        let a = v.abs();
        if a > amax {
            amax = a;
            max = v;
        }
    }
    (max, amax)
}

/// A symmetric scale for signed codes, by weighted regression over 19 steps.
fn make_qx_quants(nmax: i32, x: &[f32]) -> f32 {
    let (max, amax) = peak(x);
    if amax < 1e-30 {
        return 0.0;
    }
    let sums = |iscale: f32| {
        let mut sumlx = 0f32;
        let mut suml2 = 0f32;
        for &v in x {
            let l = nearest_int(iscale * v).clamp(-nmax, nmax - 1);
            let w = v * v;
            sumlx += w * v * l as f32;
            suml2 += w * (l * l) as f32;
        }
        (sumlx, suml2)
    };
    let (sumlx, suml2) = sums(-(nmax as f32) / max);
    let mut scale = if suml2 > 0.0 { sumlx / suml2 } else { 0.0 };
    let mut best = scale * sumlx;
    for is in -9..=9i32 {
        if is == 0 {
            continue;
        }
        let (sumlx, suml2) = sums(-(nmax as f32 + 0.1 * is as f32) / max);
        if suml2 > 0.0 && sumlx * sumlx > best * suml2 {
            scale = sumlx / suml2;
            best = scale * sumlx;
        }
    }
    scale
}

/// The grid of a scale-and-minimum search.
struct Sweep {
    nmax: i32,
    rmin: f32,
    rdelta: f32,
    nstep: i32,
    use_mad: bool,
}

/// Scale and minimum for unsigned codes, by regression over a sweep of scales.
fn make_qkx2_quants(s: &Sweep, x: &[f32], weights: &[f32]) -> (f32, f32) {
    let mut min = x[0];
    let mut max = x[0];
    let mut sum_w = weights[0];
    let mut sum_x = sum_w * x[0];
    for (&v, &w) in x.iter().zip(weights).skip(1) {
        min = min.min(v);
        max = max.max(v);
        sum_w += w;
        sum_x += w * v;
    }
    if min > 0.0 {
        min = 0.0;
    }
    if max == min {
        return (0.0, -min);
    }
    let cost = |diff: f32| if s.use_mad { diff.abs() } else { diff * diff };
    let code = |iscale: f32, v: f32, low: f32| nearest_int(iscale * (v - low)).clamp(0, s.nmax);
    let low = min;
    let iscale = s.nmax as f32 / (max - low);
    let mut scale = 1.0 / iscale;
    let mut best_mad = 0f32;
    for (&v, &w) in x.iter().zip(weights) {
        let l = code(iscale, v, low);
        best_mad += w * cost(scale * l as f32 + low - v);
    }
    let mut laux = vec![0i32; x.len()];
    for is in 0..=s.nstep {
        let iscale = (s.rmin + s.rdelta * is as f32 + s.nmax as f32) / (max - min);
        let mut sum_l = 0f32;
        let mut sum_l2 = 0f32;
        let mut sum_xl = 0f32;
        for i in 0..x.len() {
            let l = code(iscale, x[i], min);
            laux[i] = l;
            sum_l += weights[i] * l as f32;
            sum_l2 += weights[i] * (l * l) as f32;
            sum_xl += weights[i] * l as f32 * x[i];
        }
        let det = sum_w * sum_l2 - sum_l * sum_l;
        if det > 0.0 {
            let mut this_scale = (sum_w * sum_xl - sum_x * sum_l) / det;
            let mut this_min = (sum_l2 * sum_x - sum_l * sum_xl) / det;
            if this_min > 0.0 {
                this_min = 0.0;
                this_scale = if sum_l2 > 0.0 { sum_xl / sum_l2 } else { 0.0 };
            }
            let mut mad = 0f32;
            for i in 0..x.len() {
                mad += weights[i] * cost(this_scale * laux[i] as f32 + this_min - x[i]);
            }
            if mad < best_mad {
                best_mad = mad;
                scale = this_scale;
                min = this_min;
            }
        }
    }
    (scale, -min)
}

/// A scale for the codes -4..=3, refined greedily.
fn make_q3_quants(nmax: i32, x: &[f32]) -> f32 {
    let (max, amax) = peak(x);
    if amax == 0.0 {
        return 0.0;
    }
    let iscale = -(nmax as f32) / max;
    let mut sumlx = 0f32;
    let mut suml2 = 0f32;
    let mut ls = vec![0i32; x.len()];
    for i in 0..x.len() {
        let l = nearest_int(iscale * x[i]).clamp(-nmax, nmax - 1);
        ls[i] = l;
        let w = x[i] * x[i];
        sumlx += w * x[i] * l as f32;
        suml2 += w * (l * l) as f32;
    }
    for _ in 0..5 {
        let mut changed = false;
        for i in 0..x.len() {
            let w = x[i] * x[i];
            let mut slx = sumlx - w * x[i] * ls[i] as f32;
            if slx > 0.0 {
                let mut sl2 = suml2 - w * (ls[i] * ls[i]) as f32;
                let new_l = nearest_int(x[i] * sl2 / slx).clamp(-nmax, nmax - 1);
                if new_l != ls[i] {
                    slx += w * x[i] * new_l as f32;
                    sl2 += w * (new_l * new_l) as f32;
                    if sl2 > 0.0 && slx * slx * suml2 > sumlx * sumlx * sl2 {
                        ls[i] = new_l;
                        sumlx = slx;
                        suml2 = sl2;
                        changed = true;
                    }
                }
            }
        }
        if !changed {
            break;
        }
    }
    if suml2 > 0.0 {
        sumlx / suml2
    } else {
        0.0
    }
}

/// One scale per 32 values.
fn quantize_row_q8_0(x: &[f32], out: &mut Vec<u8>) {
    for blk in x.chunks(QK8_0) {
        let amax = blk.iter().fold(0f32, |a, v| a.max(v.abs()));
        let d = amax / 127.0;
        let id = if d > 0.0 { 1.0 / d } else { 0.0 };
        let mut q = [0i8; QK8_0];
        for (c, &v) in q.iter_mut().zip(blk) {
            *c = nearest_int(v * id).clamp(-127, 127) as i8;
        }
        pack_q8_0(out, half(d), &q);
    }
}

/// Scales and minima of 16 sub-blocks in steps of the largest.
fn quantize_row_q2_k(x: &[f32], out: &mut Vec<u8>) {
    let sweep = Sweep { nmax: 3, rmin: -0.5, rdelta: 0.1, nstep: 15, use_mad: true };
    for blk in x.chunks_exact(QK_K) {
        let mut scales = [0f32; 16];
        let mut mins = [0f32; 16];
        for (j, xs) in blk.chunks_exact(16).enumerate() {
            let weights: Vec<f32> = xs.iter().map(|v| v.abs()).collect();
            (scales[j], mins[j]) = make_qkx2_quants(&sweep, xs, &weights);
        }
        let (sc, d) = steps(&scales, 15);
        let (mn, dmin) = steps(&mins, 15);
        let mut q = [0u8; QK_K];
        for j in 0..16 {
            let dj = d * sc[j] as f32;
            if dj == 0.0 {
                continue;
            }
            let mj = dmin * mn[j] as f32;
            for l in 16 * j..16 * j + 16 {
                q[l] = nearest_int((blk[l] + mj) / dj).clamp(0, 3) as u8;
            }
        }
        pack_q2_k(out, &sc, &mn, &q, half(d), half(dmin));
    }
}

/// Non-negative values as steps of the largest over `top`, and that step.
fn steps(v: &[f32], top: i32) -> (Vec<u8>, f32) {
    let max = v.iter().fold(0f32, |a, &b| a.max(b));
    if max > 0.0 {
        let inv = top as f32 / max;
        let q = v.iter().map(|&s| nearest_int(inv * s).clamp(0, top) as u8).collect();
        (q, max / top as f32)
    } else {
        (vec![0; v.len()], 0.0)
    }
}

/// Signed scales of 16 sub-blocks.
fn quantize_row_q3_k(x: &[f32], out: &mut Vec<u8>) {
    for blk in x.chunks_exact(QK_K) {
        let scales: Vec<f32> = blk.chunks_exact(16).map(|xs| make_q3_quants(4, xs)).collect();
        let (max_scale, _) = peak(&scales);
        let mut sc = [0i8; 16];
        let mut d = 0f32;
        if max_scale != 0.0 {
            let iscale = -32.0 / max_scale;
            for j in 0..16 {
                sc[j] = nearest_int(iscale * scales[j]).clamp(-32, 31) as i8;
            }
            d = 1.0 / iscale;
        }
        let dq = single(half(d));
        let mut q = [4u8; QK_K];
        for j in 0..16 {
            let s = sc[j] as f32 * dq;
            if s == 0.0 {
                continue;
            }
            for l in 16 * j..16 * j + 16 {
                q[l] = (nearest_int(blk[l] / s).clamp(-4, 3) + 4) as u8;
            }
        }
        let stored: Vec<u8> = sc.iter().map(|&v| (v + 32) as u8).collect();
        pack_q3_k(out, &q, &stored, half(d));
    }
}

/// Weights that lean on the mean magnitude of a sub-block.
fn qkx_weights_av(xs: &[f32]) -> Vec<f32> {
    let sum_x2: f32 = xs.iter().map(|v| v * v).sum();
    let av_x = (sum_x2 / xs.len() as f32).sqrt();
    xs.iter().map(|v| av_x + v.abs()).collect()
}

/// A block of 32-wide sub-blocks: scale and minimum codes, their steps and the value codes.
struct Sub32 {
    sc: Vec<u8>,
    mn: Vec<u8>,
    d: f32,
    dmin: f32,
    q: [u8; QK_K],
}

/// Scales and minima of 8 sub-blocks, then the codes under the stored scales.
fn sub32(blk: &[f32], sweep: &Sweep) -> Sub32 {
    let mut scales = [0f32; 8];
    let mut mins = [0f32; 8];
    for (j, xs) in blk.chunks_exact(32).enumerate() {
        (scales[j], mins[j]) = make_qkx2_quants(sweep, xs, &qkx_weights_av(xs));
    }
    let (sc, d) = steps(&scales, 63);
    let (mn, dmin) = steps(&mins, 63);
    let dq = single(half(d));
    let mq = single(half(dmin));
    let mut q = [0u8; QK_K];
    for j in 0..8 {
        let dj = dq * sc[j] as f32;
        if dj == 0.0 {
            continue;
        }
        let mj = mq * mn[j] as f32;
        for l in 32 * j..32 * j + 32 {
            q[l] = nearest_int((blk[l] + mj) / dj).clamp(0, sweep.nmax) as u8;
        }
    }
    Sub32 { sc, mn, d, dmin, q }
}

/// See `sub32`.
fn quantize_row_q4_k(x: &[f32], out: &mut Vec<u8>) {
    let sweep = Sweep { nmax: 15, rmin: -1.0, rdelta: 0.1, nstep: 20, use_mad: false };
    for blk in x.chunks_exact(QK_K) {
        let b = sub32(blk, &sweep);
        pack_q4_k(out, &b.sc, &b.mn, &b.q, half(b.d), half(b.dmin));
    }
}

/// See `sub32`.
fn quantize_row_q5_k(x: &[f32], out: &mut Vec<u8>) {
    let sweep = Sweep { nmax: 31, rmin: -0.5, rdelta: 0.1, nstep: 15, use_mad: false };
    for blk in x.chunks_exact(QK_K) {
        let b = sub32(blk, &sweep);
        pack_q5_k(out, &b.sc, &b.mn, &b.q, half(b.d), half(b.dmin));
    }
}

/// Signed scales of 16 sub-blocks in steps of the largest.
fn quantize_row_q6_k(x: &[f32], out: &mut Vec<u8>) {
    for blk in x.chunks_exact(QK_K) {
        let scales: Vec<f32> = blk.chunks_exact(16).map(|xs| make_qx_quants(32, xs)).collect();
        let (max_scale, max_abs) = peak(&scales);
        if max_abs == 0.0 {
            out.extend_from_slice(&[0u8; Q6_K_BLOCK_BYTES]);
            continue;
        }
        let iscale = -128f32 / max_scale;
        let d = 1.0 / iscale;
        let dq = single(half(d));
        let sc: Vec<i8> = scales.iter().map(|s| nearest_int(iscale * s).min(127) as i8).collect();
        let mut q = [32u8; QK_K];
        for j in 0..16 {
            let dj = dq * sc[j] as f32;
            if dj == 0.0 {
                continue;
            }
            for l in 16 * j..16 * j + 16 {
                q[l] = (nearest_int(blk[l] / dj).clamp(-32, 31) + 32) as u8;
            }
        }
        pack_q6_k(out, &q, &sc, half(d));
    }
}

/// A scale for non-negative codes, refined under weights.
fn make_qp_quants(nmax: i32, x: &[f32], qw: &[f32]) -> f32 {
    let max = x.iter().fold(0f32, |a, &b| a.max(b));
    if max < 1e-30 {
        return 0.0;
    }
    let mse_of = |iscale: f32| {
        let scale = 1.0 / iscale;
        let mut mse = 0f32;
        for (&v, &w) in x.iter().zip(qw) {
            let diff = v - scale * nearest_int(iscale * v).min(nmax) as f32;
            mse += w * diff * diff;
        }
        mse
    };
    let mut iscale = nmax as f32 / max;
    let mut best_mse = mse_of(iscale);
    for is in -4..=4i32 {
        if is == 0 {
            continue;
        }
        let iscale_is = (0.1 * is as f32 + nmax as f32) / max;
        let mse = mse_of(iscale_is);
        if mse < best_mse {
            best_mse = mse;
            iscale = iscale_is;
        }
    }
    let mut sumlx = 0f32;
    let mut suml2 = 0f32;
    let mut ls = vec![0u8; x.len()];
    for i in 0..x.len() {
        let l = nearest_int(iscale * x[i]).min(nmax);
        ls[i] = l as u8;
        sumlx += qw[i] * x[i] * l as f32;
        suml2 += qw[i] * (l * l) as f32;
    }
    for _ in 0..5 {
        let mut changed = false;
        for i in 0..x.len() {
            let w = qw[i];
            let slx = sumlx - w * x[i] * ls[i] as f32;
            let sl2 = suml2 - w * (ls[i] as i32 * ls[i] as i32) as f32;
            if slx > 0.0 && sl2 > 0.0 {
                let new_l = nearest_int(x[i] * sl2 / slx).min(nmax);
                if new_l != ls[i] as i32 {
                    let slx2 = slx + w * x[i] * new_l as f32;
                    let sl22 = sl2 + w * (new_l * new_l) as f32;
                    if slx2 * slx2 * suml2 > sumlx * sumlx * sl22 {
                        ls[i] = new_l as u8;
                        sumlx = slx2;
                        suml2 = sl22;
                        changed = true;
                    }
                }
            }
        }
        if !changed {
            break;
        }
    }
    if suml2 > 0.0 {
        sumlx / suml2
    } else {
        0.0
    }
}

/// The grid point nearest to eight values under a scale.
fn nearest_point(t: &Iq2Tables, ls: &[i8], xval: &[f32], waux: &[f32], scale: f32) -> usize {
    match t.lookup(level_code(ls)) {
        Lookup::Point(j) => j,
        Lookup::Near(cands) => {
            let d2: Vec<u32> = cands
                .iter()
                .map(|&j| {
                    let pg = grid_bytes(t.grid[j as usize]);
                    let mut d2 = 0f32;
                    for i in 0..8 {
                        let diff = scale * pg[i] as f32 - xval[i];
                        d2 += waux[i] * diff * diff;
                    }
                    d2.to_bits()
                })
                .collect();
            closest(cands, &d2).expect("a neighbour at a finite distance") as usize
        }
    }
}

/// The levels of values under an inverse scale.
fn levels_of(xval: &[f32], id: f32) -> Vec<i8> {
    xval.iter()
        .map(|&v| nearest_int(0.5 * (id * v - 1.0)).clamp(0, LEVELS as i32 - 1) as i8)
        .collect()
}

/// The regression of values on odd levels under weights.
fn fit(ls: &[i8], xval: &[f32], weight: &[f32]) -> (f32, f32) {
    let mut sumqx = 0f32;
    let mut sumq2 = 0f32;
    for i in 0..ls.len() {
        let q = (2 * ls[i] + 1) as f32;
        sumqx += weight[i] * xval[i] * q;
        sumq2 += weight[i] * q * q;
    }
    (sumqx, sumq2)
}

/// One 32-wide sub-block: grid points, stored signs and the scale.
struct Sub {
    points: [u8; 4],
    signs: [u8; 4],
    scale: f32,
}

const NO_SUB: Sub = Sub { points: [0; 4], signs: [0; 4], scale: 0.0 };

/// Signs, grid points and scale of a sub-block.
fn sub_block(t: &Iq2Tables, xb: &[f32], qwb: &[f32], sigma2: f32) -> Sub {
    let top = LEVELS as f32;
    let weight: Vec<f32> = (0..32).map(|i| qwb[i] * (sigma2 + xb[i] * xb[i]).sqrt()).collect();
    let waux: Vec<f32> = weight.iter().map(|w| w.sqrt()).collect();
    let mut xval: Vec<f32> = xb.iter().map(|v| v.abs()).collect();
    let mut signs = [0u8; 4];
    for k in 0..4 {
        let neg: Vec<bool> = xb[8 * k..8 * k + 8].iter().map(|&v| !(v >= 0.0)).collect();
        let cost: Vec<u32> = (8 * k..8 * k + 8)
            .map(|i| (weight[i] * xb[i] * xb[i]).to_bits())
            .collect();
        let least = least_place(&cost);
        signs[k] = store_signs(&neg, least);
        if neg.iter().filter(|&&n| n).count() % 2 == 1 {
            xval[8 * k + least] = -xval[8 * k + least];
        }
    }
    let max = xval.iter().fold(xval[0], |a, &b| a.max(b));
    if max < 1e-30 {
        return NO_SUB;
    }
    let mut scale = make_qp_quants(LEVELS as i32 + 1, &xval, &weight);
    let eff_max = scale * top;
    if eff_max <= 0.0 {
        return NO_SUB;
    }
    let at = |k: usize| 8 * k..8 * k + 8;
    let mut ls = vec![0i8; 32];
    let mut best = 0f32;
    for is in -6..=6i32 {
        let id = (2.0 * top - 1.0 + is as f32 * 0.1) / eff_max;
        let mut laux = levels_of(&xval, id);
        for k in 0..4 {
            let j = nearest_point(t, &laux[at(k)], &xval[at(k)], &waux[at(k)], 1.0 / id);
            laux[at(k)].copy_from_slice(&t.levels(j));
        }
        let (sumqx, sumq2) = fit(&laux, &xval, &weight);
        if sumq2 > 0.0 && sumqx * sumqx > best * sumq2 {
            scale = sumqx / sumq2;
            best = scale * sumqx;
            ls = laux;
        }
    }
    if scale > 0.0 {
        let coarse = levels_of(&xval, 1.0 / scale);
        for k in 0..4 {
            let j = nearest_point(t, &coarse[at(k)], &xval[at(k)], &waux[at(k)], scale);
            ls[at(k)].copy_from_slice(&t.levels(j));
        }
        let (sumqx, sumq2) = fit(&ls, &xval, &weight);
        if sumq2 > 0.0 {
            scale = sumqx / sumq2;
        }
    }
    if scale < 0.0 {
        scale = -scale;
        signs = signs.map(|s| !s & 127);
    }
    let mut points = [0u8; 4];
    for k in 0..4 {
        match t.lookup(level_code(&ls[at(k)])) {
            Lookup::Point(j) => points[k] = j as u8,
            Lookup::Near(_) => panic!("off-grid point after final requant"),
        }
    }
    assert!(scale >= 0.0);
    Sub { points, signs, scale }
}

/// 256 values with per-column weights to 66 bytes.
fn quantize_row_iq2_xxs(t: &Iq2Tables, x: &[f32], qw: &[f32], out: &mut Vec<u8>) {
    for (xbl, qwbl) in x.chunks_exact(QK_K).zip(qw.chunks_exact(QK_K)) {
        let sigma2: f32 = xbl.iter().map(|v| v * v).sum::<f32>() / QK_K as f32;
        let subs: Vec<Sub> = (0..QK_K / 32)
            .map(|ib| {
                let r = 32 * ib..32 * (ib + 1);
                sub_block(t, &xbl[r.clone()], &qwbl[r], sigma2)
            })
            .collect();
        let max_scale = subs.iter().fold(0f32, |a, s| a.max(s.scale));
        if max_scale == 0.0 {
            pack_iq2_xxs(out, half(0.0), &[0; 32], &[0; 32], &[0; 8]);
            continue;
        }
        let points: Vec<u8> = subs.iter().flat_map(|s| s.points).collect();
        let signs: Vec<u8> = subs.iter().flat_map(|s| s.signs).collect();
        let d = max_scale / 31.0;
        let id = 1.0 / d;
        let scales: Vec<u8> = subs
            .iter()
            .map(|s| nearest_int(0.5 * (id * s.scale - 1.0)).clamp(0, 15) as u8)
            .collect();
        pack_iq2_xxs(out, half(d), &points, &signs, &scales);
    }
}

fn encode(ty: TensorType, x: &[f32], out: &mut Vec<u8>) {
    let bits: Vec<u32> = x.iter().map(|v| v.to_bits()).collect();
    let e = quantize_row(ty, &bits, false, out).unwrap().unwrap();
    for b in row_blocks(e, &bits) {
        let blk: Vec<f32> = b.iter().map(|&v| f32::from_bits(v)).collect();
        match e {
            Encoder::Q8_0 => quantize_row_q8_0(&blk, out),
            Encoder::Q2K => quantize_row_q2_k(&blk, out),
            Encoder::Q3K => quantize_row_q3_k(&blk, out),
            Encoder::Q4K => quantize_row_q4_k(&blk, out),
            Encoder::Q5K => quantize_row_q5_k(&blk, out),
            Encoder::Q6K => quantize_row_q6_k(&blk, out),
            Encoder::IQ2XXS => panic!("no weights"),
        }
    }
}

#[test]
fn rows_are_cut_into_blocks() {
    let x: Vec<u32> = (1..=300).collect();
    let small = row_blocks(Encoder::Q8_0, &x);
    assert_eq!(small.len(), 10);
    assert_eq!(small[0], (1..=32).collect::<Vec<u32>>());
    assert_eq!(small[9][..13], [289, 290, 291, 292, 293, 294, 295, 296, 297, 298, 299, 300, 0]);
    assert_eq!(small[9].len(), 32);
    assert_eq!(row_blocks(Encoder::Q8_0, &x[..64]).len(), 2);
    let large = row_blocks(Encoder::Q4K, &x);
    assert_eq!(large, vec![(1..=256).collect::<Vec<u32>>()]);
    assert!(row_blocks(Encoder::IQ2XXS, &x[..255]).is_empty());
    assert!(row_blocks(Encoder::Q8_0, &[]).is_empty());
}

#[test]
fn joined_rows_are_their_parts_joined() {
    for ty in [
        TensorType::Q8_0,
        TensorType::Q2K,
        TensorType::Q3K,
        TensorType::Q4K,
        TensorType::Q5K,
        TensorType::Q6K,
    ] {
        let a = rand_rows(QK_K * 2, 7);
        let b = rand_rows(QK_K * 3, 8);
        let (mut ea, mut eb, mut both) = (Vec::new(), Vec::new(), Vec::new());
        encode(ty, &a, &mut ea);
        encode(ty, &b, &mut eb);
        encode(ty, &[a, b].concat(), &mut both);
        assert_eq!(ty.row_bytes(QK_K as u64 * 2), Some(ea.len() as u64));
        assert_eq!(both, [ea, eb].concat(), "{ty:?}");
    }
}

fn half_at(b: &[u8], at: usize) -> f32 {
    single(u16::from_le_bytes([b[at], b[at + 1]]))
}

fn dequant_q8_0(raw: &[u8], out: &mut Vec<f32>) {
    for b in raw.chunks_exact(34) {
        let d = half_at(b, 0);
        for i in 0..32 {
            out.push(d * (b[2 + i] as i8) as f32);
        }
    }
}

fn dequant_q2_k(raw: &[u8], out: &mut Vec<f32>) {
    for b in raw.chunks_exact(84) {
        let (d, dmin) = (half_at(b, 80), half_at(b, 82));
        let mut y = [0f32; QK_K];
        for n in 0..2 {
            for j in 0..32 {
                let byte = b[16 + 32 * n + j];
                for s in 0..4 {
                    let idx = 128 * n + 32 * s + j;
                    let q = (byte >> (2 * s)) & 3;
                    let sc = b[idx / 16];
                    y[idx] = d * (sc & 0xF) as f32 * q as f32 - dmin * (sc >> 4) as f32;
                }
            }
        }
        out.extend_from_slice(&y);
    }
}

fn q3_scales(sb: &[u8]) -> [i8; 16] {
    let mut sc = [0i8; 16];
    for j in 0..16 {
        let lo = if j < 8 { sb[j] & 0xF } else { sb[j - 8] >> 4 };
        let hi = (sb[8 + j % 4] >> (2 * (j / 4))) & 3;
        sc[j] = ((lo | (hi << 4)) as i32 - 32) as i8;
    }
    sc
}

fn dequant_q3_k(raw: &[u8], out: &mut Vec<f32>) {
    for b in raw.chunks_exact(110) {
        let sc = q3_scales(&b[96..108]);
        let d = half_at(b, 108);
        let mut y = [0f32; QK_K];
        for n in 0..2 {
            for j in 0..32 {
                let byte = b[32 + 32 * n + j];
                for s in 0..4 {
                    let idx = 128 * n + 32 * s + j;
                    let mut q = ((byte >> (2 * s)) & 3) as i32;
                    if b[j] & (1 << (4 * n + s)) == 0 {
                        q -= 4;
                    }
                    y[idx] = d * sc[idx / 16] as f32 * q as f32;
                }
            }
        }
        out.extend_from_slice(&y);
    }
}

fn scale_min_k4(s: &[u8], j: usize) -> (u8, u8) {
    if j < 4 {
        (s[j] & 63, s[j + 4] & 63)
    } else {
        ((s[j + 4] & 0xF) | ((s[j - 4] >> 6) << 4), (s[j + 4] >> 4) | ((s[j] >> 6) << 4))
    }
}

fn dequant_q4_k(raw: &[u8], out: &mut Vec<f32>) {
    for b in raw.chunks_exact(144) {
        let (d, dmin) = (half_at(b, 0), half_at(b, 2));
        for g in 0..4 {
            let (sc1, mn1) = scale_min_k4(&b[4..16], 2 * g);
            let (sc2, mn2) = scale_min_k4(&b[4..16], 2 * g + 1);
            let qs = &b[16 + 32 * g..48 + 32 * g];
            out.extend(qs.iter().map(|q| d * sc1 as f32 * (q & 0xF) as f32 - dmin * mn1 as f32));
            out.extend(qs.iter().map(|q| d * sc2 as f32 * (q >> 4) as f32 - dmin * mn2 as f32));
        }
    }
}

fn dequant_q5_k(raw: &[u8], out: &mut Vec<f32>) {
    for b in raw.chunks_exact(176) {
        let (d, dmin) = (half_at(b, 0), half_at(b, 2));
        for g in 0..4 {
            let (sc1, mn1) = scale_min_k4(&b[4..16], 2 * g);
            let (sc2, mn2) = scale_min_k4(&b[4..16], 2 * g + 1);
            for l in 0..32 {
                let hi = if b[16 + l] & (1 << (2 * g)) != 0 { 16 } else { 0 };
                let q = (b[48 + 32 * g + l] & 0xF) + hi;
                out.push(d * sc1 as f32 * q as f32 - dmin * mn1 as f32);
            }
            for l in 0..32 {
                let hi = if b[16 + l] & (2 << (2 * g)) != 0 { 16 } else { 0 };
                let q = (b[48 + 32 * g + l] >> 4) + hi;
                out.push(d * sc2 as f32 * q as f32 - dmin * mn2 as f32);
            }
        }
    }
}

fn dequant_q6_k(raw: &[u8], out: &mut Vec<f32>) {
    for b in raw.chunks_exact(210) {
        let d = half_at(b, 208);
        let mut y = [0f32; QK_K];
        for n in 0..2 {
            for l in 0..32 {
                let h = b[128 + 32 * n + l];
                let (lo, hi) = (b[64 * n + l], b[64 * n + 32 + l]);
                let q = [
                    (lo & 0xF) | ((h & 3) << 4),
                    (hi & 0xF) | (((h >> 2) & 3) << 4),
                    (lo >> 4) | (((h >> 4) & 3) << 4),
                    (hi >> 4) | (((h >> 6) & 3) << 4),
                ];
                for (k, &q) in q.iter().enumerate() {
                    let idx = 128 * n + 32 * k + l;
                    y[idx] = d * (b[192 + idx / 16] as i8) as f32 * (q as i32 - 32) as f32;
                }
            }
        }
        out.extend_from_slice(&y);
    }
}

fn rand_rows(n: usize, seed: u64) -> Vec<f32> {
    let mut s = seed.max(1);
    let mut next = move || {
        s ^= s << 13;
        s ^= s >> 7;
        s ^= s << 17;
        (s as f64 / u64::MAX as f64) as f32 - 0.5
    };
    (0..n).map(|_| (0..4).map(|_| next()).sum::<f32>() * 0.5).collect()
}

fn rel_rmse(x: &[f32], y: &[f32]) -> f32 {
    let rms = (x.iter().map(|v| v * v).sum::<f32>() / x.len() as f32).sqrt();
    let err: f32 = x.iter().zip(y).map(|(a, b)| (a - b) * (a - b)).sum();
    (err / x.len() as f32).sqrt() / rms
}

fn check(ty: TensorType, max_rel_rmse: f32) {
    let x = rand_rows(QK_K * 8, 42);
    let mut enc = Vec::new();
    encode(ty, &x, &mut enc);
    let (bs, bb) = ty.block_layout().unwrap();
    assert_eq!(enc.len() as u64, (x.len() as u64 / bs) * bb, "{ty:?} size");
    let mut dec = Vec::new();
    match ty {
        TensorType::Q8_0 => dequant_q8_0(&enc, &mut dec),
        TensorType::Q2K => dequant_q2_k(&enc, &mut dec),
        TensorType::Q3K => dequant_q3_k(&enc, &mut dec),
        TensorType::Q4K => dequant_q4_k(&enc, &mut dec),
        TensorType::Q5K => dequant_q5_k(&enc, &mut dec),
        TensorType::Q6K => dequant_q6_k(&enc, &mut dec),
        _ => unreachable!(),
    }
    let e = rel_rmse(&x, &dec);
    assert!(e < max_rel_rmse, "{ty:?} rel rmse {e} >= {max_rel_rmse}");
    // blocks taken apart say the same
    let mut apart = Vec::new();
    for raw in enc.chunks_exact(bb as usize) {
        if let Some(u) = unpack_block(ty, raw) {
            let (d, dmin) = (single(u.d), single(u.dmin));
            for (f, m) in u.factors.iter().zip(&u.mins) {
                apart.push(d * *f as f32 - dmin * *m as f32);
            }
        }
    }
    if !apart.is_empty() {
        assert_eq!(apart.len(), x.len());
        assert!(rel_rmse(&dec, &apart) < 1.0e-5);
    }
}

#[test]
fn q8_0_roundtrip() {
    check(TensorType::Q8_0, 0.01);
}

#[test]
fn q2_k_roundtrip() {
    check(TensorType::Q2K, 0.30);
}

#[test]
fn q3_k_roundtrip() {
    check(TensorType::Q3K, 0.15);
}

#[test]
fn q4_k_roundtrip() {
    check(TensorType::Q4K, 0.08);
}

#[test]
fn q5_k_roundtrip() {
    check(TensorType::Q5K, 0.041);
}

#[test]
fn q6_k_roundtrip() {
    check(TensorType::Q6K, 0.02);
}

/// Decodes with the values that devices have for the three levels.
fn dequant_iq2_xxs(t: &Iq2Tables, raw: &[u8], out: &mut Vec<f32>) {
    for b in raw.chunks_exact(66) {
        let d = half_at(b, 0);
        for ib in 0..8 {
            let base = 2 + 8 * ib;
            let a0 = u32::from_le_bytes(b[base..base + 4].try_into().unwrap());
            let a1 = u32::from_le_bytes(b[base + 4..base + 8].try_into().unwrap());
            let db = d * (0.5 + (a1 >> 28) as f32) * 0.25;
            for k in 0..4 {
                let g = t.grid[((a0 >> (8 * k)) & 255) as usize].to_le_bytes();
                let signs = sign_mask((a1 >> (7 * k)) & 127);
                for i in 0..8 {
                    let v = match g[i] {
                        1 => 8.0,
                        3 => 25.0,
                        _ => 43.0,
                    };
                    let s = if signs & (1 << i) != 0 { -1.0 } else { 1.0 };
                    out.push(db * v * s);
                }
            }
        }
    }
}

#[test]
fn iq2_xxs_roundtrip() {
    let t = tables();
    let x = rand_rows(QK_K * 8, 7);
    let qw = vec![1.0f32; x.len()];
    let mut enc = Vec::new();
    quantize_row_iq2_xxs(&t, &x, &qw, &mut enc);
    assert_eq!(enc.len(), (x.len() / QK_K) * 66);
    let mut dec = Vec::new();
    dequant_iq2_xxs(&t, &enc, &mut dec);
    let rel = rel_rmse(&x, &dec);
    assert!(rel < 0.6, "iq2_xxs rel rmse {rel}");
    assert!(rel < 0.9);
}

fn lcg(state: &mut u64) -> f32 {
    *state = state.wrapping_mul(6364136223846793005).wrapping_add(1442695040888963407);
    ((*state >> 33) as f32 / (1u64 << 31) as f32) - 1.0
}

fn quantize_row_q8_k(x: &[f32]) -> Q8KRow {
    let mut d = Vec::new();
    let mut qs = Vec::new();
    for b in x.chunks_exact(QK_K) {
        let amax = b.iter().fold(0f32, |a, &v| a.max(v.abs()));
        let inv = if amax == 0.0 { 0.0 } else { 127.0 / amax };
        d.push((amax / 127.0).to_bits());
        qs.extend(b.iter().map(|v| (v * inv).round().clamp(-127.0, 127.0) as i8));
    }
    Q8KRow::new(d, qs)
}

fn dot_iq2_xxs(t: &Iq2Tables, row: &[u8], xq: &Q8KRow, n: usize) -> f32 {
    let mut total = 0f32;
    for b in vec_dot_iq2_xxs_q8_k(row, xq, n, &t.grid) {
        total += 0.125 * single(b.d) * f32::from_bits(b.xd) * b.isum as f32;
    }
    total
}

#[test]
fn dot_matches_dequant_reference() {
    let t = tables();
    let n = 2048;
    let mut st = 42u64;
    let src: Vec<f32> = (0..n).map(|_| lcg(&mut st)).collect();
    let act: Vec<f32> = (0..n).map(|_| lcg(&mut st)).collect();
    let ones = vec![1f32; n];
    let mut row = Vec::new();
    quantize_row_iq2_xxs(&t, &src, &ones, &mut row);

    let xq = quantize_row_q8_k(&act);
    let got = dot_iq2_xxs(&t, &row, &xq, n);

    let mut deq: Vec<f32> = Vec::new();
    for blk in row.chunks_exact(IQ2_XXS_BLOCK_BYTES) {
        let d = 0.125 * half_at(blk, 0);
        deq.extend(iq2_xxs_weights(blk, &t.grid).iter().map(|&w| d * w as f32));
    }
    let mut reference = 0f64;
    for i in 0..n {
        let a = f32::from_bits(xq.d[i / QK_K]) as f64 * xq.qs[i] as f64;
        reference += deq[i] as f64 * a;
    }
    let rel = ((got as f64 - reference) / reference.abs().max(1e-6)).abs();
    assert!(rel < 1e-4, "dot {got} vs reference {reference} (rel {rel})");
    let true_dot: f64 = src.iter().zip(&act).map(|(&a, &b)| a as f64 * b as f64).sum();
    assert!(reference.signum() == true_dot.signum() || true_dot.abs() < 1.0);
}

/// The whole-row and the block-wise products agree bit for bit.
#[test]
fn simd_matches_scalar_bitwise() {
    let t = tables();
    let n = 5120;
    let mut st = 7u64;
    let ones = vec![1f32; n];
    for trial in 0..8 {
        let src: Vec<f32> = (0..n).map(|_| lcg(&mut st) * (trial + 1) as f32).collect();
        let act: Vec<f32> = (0..n).map(|_| lcg(&mut st)).collect();
        let mut row = Vec::new();
        quantize_row_iq2_xxs(&t, &src, &ones, &mut row);
        let xq = quantize_row_q8_k(&act);
        let a = dot_iq2_xxs(&t, &row, &xq, n);
        let mut b = 0f32;
        for (i, blk) in row.chunks_exact(IQ2_XXS_BLOCK_BYTES).enumerate() {
            let isum = iq2_xxs_sum(blk, &xq.qs[256 * i..256 * (i + 1)], &t.grid);
            b += 0.125 * half_at(blk, 0) * f32::from_bits(xq.d[i]) * isum as f32;
        }
        assert_eq!(a.to_bits(), b.to_bits(), "trial {trial}: {a} vs {b}");
    }
}
