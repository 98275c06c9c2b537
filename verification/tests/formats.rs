//! Number formats and packed blocks.

use pulsar::fp::{bf16_to_f32, f16_round, f16_to_f32, f32_gt, f32_to_f16, f32_to_f16_rte, f64_to_f32};
use pulsar::gguf::TensorType;
use pulsar::narrow::{e2m1_roundtrip, e4m3_dec, e4m3_enc};
use pulsar::quant::blocks::{
    push_crumbs, push_fifth_bits, push_high_bits, push_lows, push_nibbles, push_uppers, read_crumb,
    read_fifth_bit, read_half, read_high_bit, read_low, read_nibble, read_upper,
};
use pulsar::quant::pack::{
    pack_q2_k, pack_q3_k, pack_q4_k, pack_q5_k, pack_q6_k, pack_q8_0, Q2_K_BLOCK_BYTES,
    Q3_K_BLOCK_BYTES, Q4_K_BLOCK_BYTES, Q5_K_BLOCK_BYTES, Q6_K_BLOCK_BYTES, Q8_0_BLOCK_BYTES,
};
use pulsar::quant::scales::{k3_scales, k4_scale_min, pack_scale_min_k4, push_k3_scales};
use pulsar::quant::unpack::unpack_block;

#[test]
fn f16_conv_roundtrip() {
    for v in [0.0f32, 1.0, -1.0, 0.5, 65504.0, 1e-5, -3.14159] {
        let h = f32_to_f16(v.to_bits());
        let back = f32::from_bits(f16_to_f32(h));
        assert!((back - v).abs() <= v.abs() * 0.001 + 1e-7, "{v} -> {back}");
    }
}

#[test]
fn f16_rte_matches_known_values() {
    assert_eq!(f32_to_f16_rte(1.0f32.to_bits()), 0x3c00);
    assert_eq!(f32_to_f16_rte((-2.0f32).to_bits()), 0xc000);
    assert_eq!(f32_to_f16_rte(0.0f32.to_bits()), 0x0000);
    assert_eq!(f32_to_f16_rte(65504.0f32.to_bits()), 0x7bff);
    assert_eq!(f32_to_f16_rte(1.0e6f32.to_bits()), 0x7c00); // overflow -> inf
    // 1 + 2^-11 is exactly halfway between 1.0 and the next half
    // value 1+2^-10; nearest-even keeps 1.0
    assert_eq!(f32_to_f16_rte((1.0 + 2.0f32.powi(-11)).to_bits()), 0x3c00);
    let roundtrip = f32::from_bits(f16_to_f32(f32_to_f16_rte(0.333_333_34f32.to_bits())));
    assert!((roundtrip - 0.333_333_34).abs() < 3.0e-4);
}

#[test]
fn every_half_survives_single_precision() {
    for h in 0..=u16::MAX {
        let f = f16_to_f32(h);
        let v = f32::from_bits(f);
        if v.is_nan() {
            assert!(f32::from_bits(f16_to_f32(f32_to_f16(f))).is_nan());
            continue;
        }
        assert_eq!(f32_to_f16(f), h);
        assert_eq!(f16_round(f), f);
        let e = (h >> 10) & 31;
        let m = (h & 1023) as f64;
        let want = if e == 31 {
            f64::INFINITY
        } else if e == 0 {
            m * 2f64.powi(-24)
        } else {
            (1024.0 + m) * 2f64.powi(e as i32 - 25)
        };
        assert_eq!(v.abs() as f64, want);
        assert_eq!(v.is_sign_negative(), h >= 0x8000);
    }
}

#[test]
fn singles_and_doubles() {
    assert_eq!(bf16_to_f32(0x4049), 0x4049_0000);
    for v in [0.0f64, 1.0, -0.1, 1e300, -1e-60, 3.5e-40, f64::INFINITY, 16777217.0] {
        assert_eq!(f64_to_f32(v.to_bits()), (v as f32).to_bits(), "{v}");
    }
    assert!(f32::from_bits(f64_to_f32(f64::NAN.to_bits())).is_nan());
    let vals = [-f32::INFINITY, -2.5, -0.0, 0.0, 1e-40, 3.0, f32::INFINITY, f32::NAN];
    for a in vals {
        for b in vals {
            assert_eq!(f32_gt(a.to_bits(), b.to_bits()), a > b, "{a} > {b}");
        }
    }
}

#[test]
fn e4m3_roundtrip_is_idempotent_and_bounded() {
    let trip = |v: f32| f32::from_bits(e4m3_dec(e4m3_enc(v.to_bits())));
    for i in 0..10_000 {
        let v = (i as f32 - 5000.0) * 0.11;
        let once = trip(v);
        let twice = trip(once);
        assert_eq!(once, twice, "not idempotent at {v}");
        assert!(once.abs() <= 448.0);
        if v.abs() <= 448.0 && v != 0.0 {
            assert!(((once - v) / v).abs() < 0.07, "e4m3 rel err at {v}: {once}");
        }
    }
}

#[test]
fn e4m3_codes() {
    let enc = |v: f32| e4m3_enc(v.to_bits());
    assert_eq!(enc(1.0), 0x38);
    assert_eq!(enc(-1.5), 0xbc);
    assert_eq!(enc(448.0), 0x7e);
    assert_eq!(enc(1.0e9), 0x7e);
    assert_eq!(enc(f32::NEG_INFINITY), 0xfe);
    assert_eq!(enc(f32::NAN), 0);
    assert_eq!(enc(-0.0), 0);
    assert_eq!(enc(2f32.powi(-10)), 0); // halfway to the least subnormal
    assert_eq!(enc(1.5 * 2f32.powi(-9)), 2); // halfway between the first two
    assert_eq!(enc(2f32.powi(-6)), 8);
    assert_eq!(enc(-1e-9), 0x80);
    for b in 0..=255u8 {
        let (e, m) = ((b >> 3) & 15, (b & 7) as f32);
        let v = if e == 0 { m * 0.001953125 } else { (8.0 + m) * 2f32.powi(e as i32 - 10) };
        assert_eq!(f32::from_bits(e4m3_dec(b)), if b >= 128 { -v } else { v });
    }
}

#[test]
fn e2m1_prefers_even_index_on_ties() {
    let trip = |v: f32| f32::from_bits(e2m1_roundtrip(v.to_bits()));
    // 2.5 ties between 2.0 (idx 4, even) and 3.0 (idx 5, odd) -> 2.0
    assert_eq!(trip(2.5), 2.0);
    // 1.25 ties between 1.0 (idx 2) and 1.5 (idx 3) -> 1.0
    assert_eq!(trip(1.25), 1.0);
    assert_eq!(trip(-2.5), -2.0);
    assert_eq!(trip(10.0), 6.0);
    assert_eq!(trip(0.75), 1.0);
    assert_eq!(trip(f32::NAN), 6.0);
    assert_eq!(trip(-0.1).to_bits(), (-0.0f32).to_bits());
    let table = [0.0f32, 0.5, 1.0, 1.5, 2.0, 3.0, 4.0, 6.0];
    for i in 0..2000 {
        let v = i as f32 * 0.0037;
        let best = table.iter().map(|t| (t - v).abs()).fold(f32::MAX, f32::min);
        assert_eq!((trip(v) - v).abs(), best, "{v}");
    }
}

fn levels(n: usize, bound: usize) -> Vec<u8> {
    (0..n).map(|i| ((i * 7 + i / 5) % bound) as u8).collect()
}

#[test]
fn bit_planes_give_back_their_elements() {
    let q = levels(256, 4);
    let mut raw = Vec::new();
    push_crumbs(&mut raw, &q);
    assert_eq!(raw.len(), 64);
    assert_eq!(raw[0], q[0] | q[32] << 2 | q[64] << 4 | q[96] << 6);
    assert!((0..256).all(|i| read_crumb(&raw, i) == q[i]));
    let q = levels(256, 8);
    let mut raw = Vec::new();
    push_high_bits(&mut raw, &q);
    assert_eq!(raw.len(), 32);
    assert!((0..256).all(|i| read_high_bit(&raw, i) == q[i] / 4));
    let q = levels(256, 16);
    let mut raw = Vec::new();
    push_nibbles(&mut raw, &q);
    assert_eq!((raw.len(), raw[0]), (128, q[0] | q[32] << 4));
    assert!((0..256).all(|i| read_nibble(&raw, i) == q[i]));
    let q = levels(256, 32);
    let mut raw = Vec::new();
    push_fifth_bits(&mut raw, &q);
    assert_eq!(raw.len(), 32);
    assert!((0..256).all(|i| read_fifth_bit(&raw, i) == q[i] / 16));
    let q = levels(256, 64);
    let mut raw = Vec::new();
    push_lows(&mut raw, &q);
    assert_eq!((raw.len(), raw[0]), (128, q[0] % 16 | (q[64] % 16) << 4));
    assert!((0..256).all(|i| read_low(&raw, i) == q[i] % 16));
    let mut raw = Vec::new();
    push_uppers(&mut raw, &q);
    assert_eq!(raw.len(), 64);
    assert!((0..256).all(|i| read_upper(&raw, i) == q[i] / 16));
}

#[test]
fn packed_scales_come_back() {
    let v = levels(16, 64);
    let mut raw = Vec::new();
    push_k3_scales(&mut raw, &v);
    assert_eq!(k3_scales(&raw), v.iter().map(|&x| x as i32 - 32).collect::<Vec<_>>());
    let (sc, mn) = (levels(8, 64), levels(8, 61));
    let raw = pack_scale_min_k4(&sc, &mn);
    for j in 0..8 {
        assert_eq!(k4_scale_min(j, &raw), (sc[j] as i32, mn[j] as i32));
    }
}

#[test]
fn packed_blocks_come_back() {
    let (d, dmin) = (0x3c00u16, 0x2a55u16);

    let q: Vec<i8> = (0..32).map(|i| (i * 8 - 128) as i8).collect();
    let mut raw = Vec::new();
    pack_q8_0(&mut raw, d, &q);
    assert_eq!(raw.len(), Q8_0_BLOCK_BYTES);
    let u = unpack_block(TensorType::Q8_0, &raw).unwrap();
    assert_eq!((u.d, read_half(&raw, 0)), (d, d));
    assert!((0..32).all(|i| u.factors[i] == q[i] as i32));

    let (sc, mn, q) = (levels(16, 16), levels(16, 15), levels(256, 4));
    let mut raw = Vec::new();
    pack_q2_k(&mut raw, &sc, &mn, &q, d, dmin);
    assert_eq!(raw.len(), Q2_K_BLOCK_BYTES);
    let u = unpack_block(TensorType::Q2K, &raw).unwrap();
    assert_eq!((u.d, u.dmin), (d, dmin));
    for i in 0..256 {
        assert_eq!(u.factors[i], sc[i / 16] as i32 * q[i] as i32);
        assert_eq!(u.mins[i], mn[i / 16] as i32);
    }

    let (sc, q) = (levels(16, 64), levels(256, 8));
    let mut raw = Vec::new();
    pack_q3_k(&mut raw, &q, &sc, d);
    assert_eq!(raw.len(), Q3_K_BLOCK_BYTES);
    let u = unpack_block(TensorType::Q3K, &raw).unwrap();
    for i in 0..256 {
        assert_eq!(u.factors[i], (sc[i / 16] as i32 - 32) * (q[i] as i32 - 4));
        assert_eq!(u.mins[i], 0);
    }

    let (sc, mn, q) = (levels(8, 64), levels(8, 63), levels(256, 16));
    let mut raw = Vec::new();
    pack_q4_k(&mut raw, &sc, &mn, &q, d, dmin);
    assert_eq!(raw.len(), Q4_K_BLOCK_BYTES);
    let u = unpack_block(TensorType::Q4K, &raw).unwrap();
    for i in 0..256 {
        assert_eq!(u.factors[i], sc[i / 32] as i32 * q[i] as i32);
        assert_eq!(u.mins[i], mn[i / 32] as i32);
    }

    let q = levels(256, 32);
    let mut raw = Vec::new();
    pack_q5_k(&mut raw, &sc, &mn, &q, d, dmin);
    assert_eq!(raw.len(), Q5_K_BLOCK_BYTES);
    let u = unpack_block(TensorType::Q5K, &raw).unwrap();
    for i in 0..256 {
        assert_eq!(u.factors[i], sc[i / 32] as i32 * q[i] as i32);
        assert_eq!(u.mins[i], mn[i / 32] as i32);
    }

    let sc: Vec<i8> = (0..16).map(|i| (i * 15 - 120) as i8).collect();
    let q = levels(256, 64);
    let mut raw = Vec::new();
    pack_q6_k(&mut raw, &q, &sc, d);
    assert_eq!(raw.len(), Q6_K_BLOCK_BYTES);
    let u = unpack_block(TensorType::Q6K, &raw).unwrap();
    for i in 0..256 {
        assert_eq!(u.factors[i], sc[i / 16] as i32 * (q[i] as i32 - 32));
    }

    assert!(unpack_block(TensorType::Q6K, &raw[1..]).is_none());
    assert!(unpack_block(TensorType::IQ2XXS, &[0u8; 66]).is_none());
}
