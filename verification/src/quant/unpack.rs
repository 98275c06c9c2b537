//! Blocks taken apart: the integer factors of their elements.
use vstd::prelude::*;
use vstd::slice::slice_subrange;

use super::blocks;
use super::blocks::{
    read_crumb, read_fifth_bit, read_half, read_high_bit, read_low, read_nibble, read_upper,
};
use super::pack;
use super::scales::{k3_scales, k4_scale_min};
use crate::gguf::TensorType;

verus! {

/// A block taken apart. Element `i` is `d * factors[i] - dmin * mins[i]`; `d` and `dmin` are
/// patterns of half precision.
pub struct Unpacked {
    pub d: u16,
    pub dmin: u16,
    pub factors: Vec<i32>,
    pub mins: Vec<i32>,
}

/// Formats that are taken apart: their elements and bytes.
pub open spec fn block_of(ty: TensorType) -> Option<(int, int)> {
    match ty {
        TensorType::Q4_0 => Some((32, 18)),
        TensorType::Q8_0 => Some((32, 34)),
        TensorType::Q2K => Some((256, 84)),
        TensorType::Q3K => Some((256, 110)),
        TensorType::Q4K => Some((256, 144)),
        TensorType::Q5K => Some((256, 176)),
        TensorType::Q6K => Some((256, 210)),
        _ => None,
    }
}

/// What `d` is multiplied by in element `i`.
pub open spec fn factor(ty: TensorType, raw: Seq<u8>, i: int) -> int {
    match ty {
        TensorType::Q4_0 => if i < 16 {
            raw[2 + i] as int % 16 - 8
        } else {
            raw[2 + i - 16] as int / 16 - 8
        },
        TensorType::Q8_0 => raw[2 + i] as i8 as int,
        TensorType::Q2K => pack::q2_k_scale(raw, i / 16) * pack::q2_k_elem(raw, i),
        TensorType::Q3K => pack::q3_k_scale(raw, i / 16) * pack::q3_k_elem(raw, i),
        TensorType::Q4K => pack::q45_k_pair(raw, i / 32).0 * pack::q4_k_elem(raw, i),
        TensorType::Q5K => pack::q45_k_pair(raw, i / 32).0 * pack::q5_k_elem(raw, i),
        TensorType::Q6K => pack::q6_k_scale(raw, i / 16) * pack::q6_k_elem(raw, i),
        _ => 0,
    }
}

/// What `dmin` is multiplied by in element `i`.
pub open spec fn minimum(ty: TensorType, raw: Seq<u8>, i: int) -> int {
    match ty {
        TensorType::Q2K => pack::q2_k_min(raw, i / 16),
        TensorType::Q4K | TensorType::Q5K => pack::q45_k_pair(raw, i / 32).1,
        _ => 0,
    }
}

/// The scales of a block.
pub open spec fn scales_of(ty: TensorType, raw: Seq<u8>) -> (u16, u16) {
    match ty {
        TensorType::Q2K => (blocks::half_at(raw, 80), blocks::half_at(raw, 82)),
        TensorType::Q3K => (blocks::half_at(raw, 108), 0),
        TensorType::Q4K | TensorType::Q5K => (blocks::half_at(raw, 0), blocks::half_at(raw, 2)),
        TensorType::Q6K => (blocks::half_at(raw, 208), 0),
        _ => (blocks::half_at(raw, 0), 0),
    }
}

/// Factor and minimum of element `i` of a block.
fn element(ty: TensorType, raw: &[u8], i: usize) -> (r: (i32, i32))
    requires
        block_of(ty) matches Some((n, bytes)) && raw@.len() == bytes && i < n,
    ensures
        r.0 == factor(ty, raw@, i as int),
        r.1 == minimum(ty, raw@, i as int),
{
    match ty {
        TensorType::Q4_0 => {
            if i < 16 {
                ((raw[2 + i] % 16) as i32 - 8, 0)
            } else {
                ((raw[2 + i - 16] / 16) as i32 - 8, 0)
            }
        },
        TensorType::Q8_0 => (raw[2 + i] as i8 as i32, 0),
        TensorType::Q2K => {
            let sc: i32 = (raw[i / 16] % 16) as i32;
            let q: i32 = read_crumb(slice_subrange(raw, 16, 80), i) as i32;
            assert(0 <= sc * q <= 15 * 255) by (nonlinear_arith)
                requires
                    0 <= sc <= 15,
                    0 <= q <= 255,
            ;
            (sc * q, (raw[i / 16] / 16) as i32)
        },
        TensorType::Q3K => {
            let all = k3_scales(slice_subrange(raw, 96, 108));
            let sc: i32 = all[i / 16];
            let c: i32 = read_crumb(slice_subrange(raw, 32, 96), i) as i32;
            let h: i32 = read_high_bit(slice_subrange(raw, 0, 32), i) as i32;
            let q: i32 = c + 4 * h - 4;
            assert(-32 * 2000 <= sc * q <= 32 * 2000) by (nonlinear_arith)
                requires
                    -32 <= sc <= 31,
                    -2000 <= q <= 2000,
            ;
            (sc * q, 0)
        },
        TensorType::Q4K => {
            let (sc, mn) = k4_scale_min(i / 32, slice_subrange(raw, 4, 16));
            let q: i32 = read_nibble(slice_subrange(raw, 16, 144), i) as i32;
            assert(0 <= sc * q <= 63 * 255) by (nonlinear_arith)
                requires
                    0 <= sc < 64,
                    0 <= q <= 255,
            ;
            (sc * q, mn)
        },
        TensorType::Q5K => {
            let (sc, mn) = k4_scale_min(i / 32, slice_subrange(raw, 4, 16));
            let a: i32 = read_nibble(slice_subrange(raw, 48, 176), i) as i32;
            let b: i32 = read_fifth_bit(slice_subrange(raw, 16, 48), i) as i32;
            let q: i32 = a + 16 * b;
            assert(0 <= sc * q <= 63 * 5000) by (nonlinear_arith)
                requires
                    0 <= sc < 64,
                    0 <= q <= 5000,
            ;
            (sc * q, mn)
        },
        _ => {
            let sc: i32 = raw[192 + i / 16] as i8 as i32;
            let a: i32 = read_low(slice_subrange(raw, 0, 128), i) as i32;
            let b: i32 = read_upper(slice_subrange(raw, 128, 192), i) as i32;
            let q: i32 = a + 16 * b - 32;
            assert(-128 * 5000 <= sc * q <= 128 * 5000) by (nonlinear_arith)
                requires
                    -128 <= sc <= 127,
                    -5000 <= q <= 5000,
            ;
            (sc * q, 0)
        },
    }
}

/// Takes a block apart; none where the format is not known or the block has the wrong length.
pub fn unpack_block(ty: TensorType, raw: &[u8]) -> (r: Option<Unpacked>)
    ensures
        match r {
            Some(u) => {
                &&& block_of(ty) matches Some((n, bytes)) && raw@.len() == bytes && u.factors@.len()
                    == n && u.mins@.len() == n
                &&& (u.d, u.dmin) == scales_of(ty, raw@)
                &&& forall|i: int|
                    0 <= i < u.factors@.len() ==> #[trigger] u.factors@[i] == factor(ty, raw@, i)
                &&& forall|i: int|
                    0 <= i < u.mins@.len() ==> #[trigger] u.mins@[i] == minimum(ty, raw@, i)
            },
            None => !(block_of(ty) matches Some((_, bytes)) && raw@.len() == bytes),
        },
{
    let (n, bytes): (usize, usize) = match ty {
        TensorType::Q4_0 => (32, 18),
        TensorType::Q8_0 => (32, 34),
        TensorType::Q2K => (256, 84),
        TensorType::Q3K => (256, 110),
        TensorType::Q4K => (256, 144),
        TensorType::Q5K => (256, 176),
        TensorType::Q6K => (256, 210),
        _ => {
            return None;
        },
    };
    if raw.len() != bytes {
        return None;
    }
    let (d, dmin): (u16, u16) = match ty {
        TensorType::Q2K => (read_half(raw, 80), read_half(raw, 82)),
        TensorType::Q3K => (read_half(raw, 108), 0),
        TensorType::Q4K => (read_half(raw, 0), read_half(raw, 2)),
        TensorType::Q5K => (read_half(raw, 0), read_half(raw, 2)),
        TensorType::Q6K => (read_half(raw, 208), 0),
        _ => (read_half(raw, 0), 0),
    };
    let mut factors: Vec<i32> = Vec::new();
    let mut mins: Vec<i32> = Vec::new();
    let mut i: usize = 0;
    while i < n
        invariant
            i <= n,
            block_of(ty) == Some((n as int, raw@.len() as int)),
            factors@.len() == i,
            mins@.len() == i,
            forall|k: int| 0 <= k < i ==> #[trigger] factors@[k] == factor(ty, raw@, k),
            forall|k: int| 0 <= k < i ==> #[trigger] mins@[k] == minimum(ty, raw@, k),
        decreases n - i,
    {
        let (f, m) = element(ty, raw, i);
        factors.push(f);
        mins.push(m);
        i = i + 1;
    }
    Some(Unpacked { d, dmin, factors, mins })
}

/// A packed `Q2_K` block gives back the product of scale and element, and the minimum, of every
/// element, and both scales.
pub proof fn law_unpack_q2_k(sc: Seq<u8>, mn: Seq<u8>, q: Seq<u8>, d: u16, dmin: u16, i: int)
    requires
        sc.len() == 16,
        mn.len() == 16,
        q.len() == 256,
        blocks::below(sc, 16),
        blocks::below(mn, 16),
        blocks::below(q, 4),
        0 <= i < 256,
    ensures
        ({
            let raw = pack::q2_k_bytes(sc, mn, q, d, dmin);
            &&& factor(TensorType::Q2K, raw, i) == sc[i / 16] * q[i]
            &&& minimum(TensorType::Q2K, raw, i) == mn[i / 16]
            &&& scales_of(TensorType::Q2K, raw) == (d, dmin)
        }),
{
    pack::law_q2_k(sc, mn, q, d, dmin);
    let raw = pack::q2_k_bytes(sc, mn, q, d, dmin);
    assert(pack::q2_k_scale(raw, i / 16) == sc[i / 16]);
    assert(pack::q2_k_elem(raw, i) == q[i]);
}

/// A packed `Q6_K` block gives back the product of scale and element of every element, and its
/// scale.
pub proof fn law_unpack_q6_k(q: Seq<u8>, sc: Seq<i8>, d: u16, i: int)
    requires
        q.len() == 256,
        sc.len() == 16,
        blocks::below(q, 64),
        0 <= i < 256,
    ensures
        ({
            let raw = pack::q6_k_bytes(q, sc, d);
            &&& factor(TensorType::Q6K, raw, i) == sc[i / 16] * (q[i] - 32)
            &&& scales_of(TensorType::Q6K, raw) == (d, 0u16)
        }),
{
    pack::law_q6_k(q, sc, d);
    let raw = pack::q6_k_bytes(q, sc, d);
    assert(pack::q6_k_scale(raw, i / 16) == sc[i / 16]);
    assert(pack::q6_k_elem(raw, i) == q[i] - 32);
}

} // verus!
