//! Whole blocks of the quantized formats: their bytes, and the fields read back from them.
use vstd::prelude::*;

use super::blocks;
use super::blocks::{
    push_crumbs, push_fifth_bits, push_high_bits, push_lows, push_nibbles, push_uppers,
};
use super::scales;
use super::scales::{pack_scale_min_k4, push_k3_scales};
use crate::bytes::push_bytes;

verus! {

/// Bytes of the block formats.
pub const Q8_0_BLOCK_BYTES: usize = 34;

pub const Q2_K_BLOCK_BYTES: usize = 84;

pub const Q3_K_BLOCK_BYTES: usize = 110;

pub const Q4_K_BLOCK_BYTES: usize = 144;

pub const Q5_K_BLOCK_BYTES: usize = 176;

pub const Q6_K_BLOCK_BYTES: usize = 210;

/// A 16-bit number as two little-endian bytes.
pub open spec fn half(x: u16) -> Seq<u8> {
    seq![(x % 256) as u8, (x / 256) as u8]
}

/// Appends a 16-bit number, least significant byte first.
pub fn push_half(out: &mut Vec<u8>, x: u16)
    ensures
        final(out)@ == old(out)@ + half(x),
{
    out.push((x % 256) as u8);
    out.push((x / 256) as u8);
    assert(out@ =~= old(out)@ + half(x));
}

/// Signed elements as bytes.
pub open spec fn signed(q: Seq<i8>) -> Seq<u8> {
    q.map_values(|x: i8| x as u8)
}

/// Appends signed elements as bytes.
pub fn push_signed(out: &mut Vec<u8>, q: &[i8])
    ensures
        final(out)@ == old(out)@ + signed(q@),
{
    let mut i: usize = 0;
    while i < q.len()
        invariant
            i <= q@.len(),
            out@ == old(out)@ + signed(q@).take(i as int),
        decreases q@.len() - i,
    {
        out.push(q[i] as u8);
        assert(signed(q@).take(i + 1) =~= signed(q@).take(i as int).push(q@[i as int] as u8));
        i = i + 1;
    }
    assert(signed(q@).take(i as int) =~= signed(q@));
}

proof fn lemma_signed(x: i8)
    ensures
        x as u8 as i8 == x,
{
    assert(x as u8 as i8 == x) by (bit_vector);
}

/// Scales and minima of four bits each, two to a byte.
pub open spec fn pairs(sc: Seq<u8>, mn: Seq<u8>) -> Seq<u8> {
    Seq::new(16, |i: int| (sc[i] + 16 * mn[i]) as u8)
}

/// A `Q8_0` block: scale, 32 signed bytes.
pub open spec fn q8_0_bytes(d: u16, q: Seq<i8>) -> Seq<u8> {
    half(d) + signed(q)
}

/// Appends a `Q8_0` block.
pub fn pack_q8_0(out: &mut Vec<u8>, d: u16, q: &[i8])
    requires
        q@.len() == 32,
    ensures
        final(out)@ == old(out)@ + q8_0_bytes(d, q@),
{
    push_half(out, d);
    push_signed(out, q);
    assert(out@ =~= old(out)@ + q8_0_bytes(d, q@));
}

/// A `Q8_0` block gives back its scale and its elements.
pub proof fn law_q8_0(d: u16, q: Seq<i8>)
    requires
        q.len() == 32,
    ensures
        q8_0_bytes(d, q).len() == Q8_0_BLOCK_BYTES,
        blocks::half_at(q8_0_bytes(d, q), 0) == d,
        forall|i: int| 0 <= i < 32 ==> #[trigger] q8_0_bytes(d, q)[2 + i] as i8 == q[i],
{
    let raw = q8_0_bytes(d, q);
    assert forall|i: int| 0 <= i < 32 implies #[trigger] raw[2 + i] as i8 == q[i] by {
        lemma_signed(q[i]);
    }
}

/// A `Q2_K` block: 16 pairs of scale and minimum, 256 elements of two bits, two scales of the
/// block.
pub open spec fn q2_k_bytes(sc: Seq<u8>, mn: Seq<u8>, q: Seq<u8>, d: u16, dmin: u16) -> Seq<u8> {
    pairs(sc, mn) + blocks::crumbs(q) + half(d) + half(dmin)
}

/// Appends a `Q2_K` block.
pub fn pack_q2_k(out: &mut Vec<u8>, sc: &[u8], mn: &[u8], q: &[u8], d: u16, dmin: u16)
    requires
        sc@.len() == 16,
        mn@.len() == 16,
        q@.len() == 256,
        blocks::below(sc@, 16),
        blocks::below(mn@, 16),
        blocks::below(q@, 4),
    ensures
        final(out)@ == old(out)@ + q2_k_bytes(sc@, mn@, q@, d, dmin),
{
    let mut i: usize = 0;
    while i < 16
        invariant
            i <= 16,
            sc@.len() == 16,
            mn@.len() == 16,
            blocks::below(sc@, 16),
            blocks::below(mn@, 16),
            out@ == old(out)@ + pairs(sc@, mn@).take(i as int),
        decreases 16 - i,
    {
        out.push(sc[i] + 16 * mn[i]);
        assert(pairs(sc@, mn@).take(i + 1) =~= pairs(sc@, mn@).take(i as int).push(
            (sc@[i as int] + 16 * mn@[i as int]) as u8,
        ));
        i = i + 1;
    }
    assert(pairs(sc@, mn@).take(i as int) =~= pairs(sc@, mn@));
    push_crumbs(out, q);
    push_half(out, d);
    push_half(out, dmin);
    assert(out@ =~= old(out)@ + q2_k_bytes(sc@, mn@, q@, d, dmin));
}

/// Scale of group `g` of a `Q2_K` block.
pub open spec fn q2_k_scale(raw: Seq<u8>, g: int) -> int {
    raw[g] as int % 16
}

/// Minimum of group `g` of a `Q2_K` block.
pub open spec fn q2_k_min(raw: Seq<u8>, g: int) -> int {
    raw[g] as int / 16
}

/// Element `idx` of a `Q2_K` block.
pub open spec fn q2_k_elem(raw: Seq<u8>, idx: int) -> int {
    blocks::crumb(raw.subrange(16, 80), idx) as int
}

/// A `Q2_K` block gives back every field that was packed.
pub proof fn law_q2_k(sc: Seq<u8>, mn: Seq<u8>, q: Seq<u8>, d: u16, dmin: u16)
    requires
        sc.len() == 16,
        mn.len() == 16,
        q.len() == 256,
        blocks::below(sc, 16),
        blocks::below(mn, 16),
        blocks::below(q, 4),
    ensures
        ({
            let raw = q2_k_bytes(sc, mn, q, d, dmin);
            &&& raw.len() == Q2_K_BLOCK_BYTES
            &&& forall|g: int|
                0 <= g < 16 ==> #[trigger] q2_k_scale(raw, g) == sc[g] && q2_k_min(raw, g) == mn[g]
            &&& forall|i: int| 0 <= i < 256 ==> #[trigger] q2_k_elem(raw, i) == q[i]
            &&& blocks::half_at(raw, 80) == d
            &&& blocks::half_at(raw, 82) == dmin
        }),
{
    let raw = q2_k_bytes(sc, mn, q, d, dmin);
    assert(raw.subrange(16, 80) =~= blocks::crumbs(q));
    assert forall|g: int| 0 <= g < 16 implies #[trigger] q2_k_scale(raw, g) == sc[g] && q2_k_min(
        raw,
        g,
    ) == mn[g] by {
        assert(raw[g] == pairs(sc, mn)[g]);
        assert(sc[g] < 16 && mn[g] < 16);
    }
    assert forall|i: int| 0 <= i < 256 implies #[trigger] q2_k_elem(raw, i) == q[i] by {
        blocks::law_crumbs(q, i);
        assert(q[i] < 4);
    }
}

/// A `Q3_K` block: high bits, low bits, scales, scale of the block.
pub open spec fn q3_k_bytes(q: Seq<u8>, sc: Seq<u8>, d: u16) -> Seq<u8> {
    blocks::high_bits(q) + blocks::crumbs(q) + scales::k3_pack(sc) + half(d)
}

/// Appends a `Q3_K` block; elements are given 4 and scales 32 too high.
pub fn pack_q3_k(out: &mut Vec<u8>, q: &[u8], sc: &[u8], d: u16)
    requires
        q@.len() == 256,
        sc@.len() == 16,
        blocks::below(q@, 8),
        blocks::below(sc@, 64),
    ensures
        final(out)@ == old(out)@ + q3_k_bytes(q@, sc@, d),
{
    push_high_bits(out, q);
    push_crumbs(out, q);
    push_k3_scales(out, sc);
    push_half(out, d);
    assert(out@ =~= old(out)@ + q3_k_bytes(q@, sc@, d));
}

/// Scale of group `g` of a `Q3_K` block, between -32 and 31.
pub open spec fn q3_k_scale(raw: Seq<u8>, g: int) -> int {
    scales::k3_scale(raw.subrange(96, 108), g)
}

/// Element `idx` of a `Q3_K` block, between -4 and 3.
pub open spec fn q3_k_elem(raw: Seq<u8>, idx: int) -> int {
    blocks::crumb(raw.subrange(32, 96), idx) + 4 * blocks::high_bit(raw.subrange(0, 32), idx) - 4
}

/// A `Q3_K` block gives back every field that was packed.
pub proof fn law_q3_k(q: Seq<u8>, sc: Seq<u8>, d: u16)
    requires
        q.len() == 256,
        sc.len() == 16,
        blocks::below(q, 8),
        blocks::below(sc, 64),
    ensures
        ({
            let raw = q3_k_bytes(q, sc, d);
            &&& raw.len() == Q3_K_BLOCK_BYTES
            &&& forall|g: int| 0 <= g < 16 ==> #[trigger] q3_k_scale(raw, g) == sc[g] - 32
            &&& forall|i: int| 0 <= i < 256 ==> #[trigger] q3_k_elem(raw, i) == q[i] - 4
            &&& blocks::half_at(raw, 108) == d
        }),
{
    let raw = q3_k_bytes(q, sc, d);
    assert(raw.subrange(0, 32) =~= blocks::high_bits(q));
    assert(raw.subrange(32, 96) =~= blocks::crumbs(q));
    assert(raw.subrange(96, 108) =~= scales::k3_pack(sc));
    assert forall|g: int| 0 <= g < 16 implies #[trigger] q3_k_scale(raw, g) == sc[g] - 32 by {
        scales::law_k3_scales(sc, g);
    }
    assert forall|i: int| 0 <= i < 256 implies #[trigger] q3_k_elem(raw, i) == q[i] - 4 by {
        blocks::law_crumbs(q, i);
        blocks::law_high_bits(q, i);
    }
}

/// A `Q4_K` block: two scales of the block, scales and minima, 256 elements of four bits.
pub open spec fn q4_k_bytes(sc: Seq<u8>, mn: Seq<u8>, q: Seq<u8>, d: u16, dmin: u16) -> Seq<u8> {
    half(d) + half(dmin) + scales::k4_pack(sc, mn) + blocks::nibbles(q)
}

/// Appends a `Q4_K` block.
pub fn pack_q4_k(out: &mut Vec<u8>, sc: &[u8], mn: &[u8], q: &[u8], d: u16, dmin: u16)
    requires
        sc@.len() == 8,
        mn@.len() == 8,
        q@.len() == 256,
        blocks::below(sc@, 64),
        blocks::below(mn@, 64),
        blocks::below(q@, 16),
    ensures
        final(out)@ == old(out)@ + q4_k_bytes(sc@, mn@, q@, d, dmin),
{
    push_half(out, d);
    push_half(out, dmin);
    let s = pack_scale_min_k4(sc, mn);
    push_bytes(out, s.as_slice());
    push_nibbles(out, q);
    assert(out@ =~= old(out)@ + q4_k_bytes(sc@, mn@, q@, d, dmin));
}

/// Scale and minimum of group `j` of a `Q4_K` or `Q5_K` block.
pub open spec fn q45_k_pair(raw: Seq<u8>, j: int) -> (int, int) {
    scales::k4_pair(raw.subrange(4, 16), j)
}

/// Element `idx` of a `Q4_K` block.
pub open spec fn q4_k_elem(raw: Seq<u8>, idx: int) -> int {
    blocks::nibble(raw.subrange(16, 144), idx) as int
}

/// A `Q4_K` block gives back every field that was packed.
pub proof fn law_q4_k(sc: Seq<u8>, mn: Seq<u8>, q: Seq<u8>, d: u16, dmin: u16)
    requires
        sc.len() == 8,
        mn.len() == 8,
        q.len() == 256,
        blocks::below(sc, 64),
        blocks::below(mn, 64),
        blocks::below(q, 16),
    ensures
        ({
            let raw = q4_k_bytes(sc, mn, q, d, dmin);
            &&& raw.len() == Q4_K_BLOCK_BYTES
            &&& forall|j: int|
                0 <= j < 8 ==> #[trigger] q45_k_pair(raw, j) == (sc[j] as int, mn[j] as int)
            &&& forall|i: int| 0 <= i < 256 ==> #[trigger] q4_k_elem(raw, i) == q[i]
            &&& blocks::half_at(raw, 0) == d
            &&& blocks::half_at(raw, 2) == dmin
        }),
{
    let raw = q4_k_bytes(sc, mn, q, d, dmin);
    assert(raw.subrange(4, 16) =~= scales::k4_pack(sc, mn));
    assert(raw.subrange(16, 144) =~= blocks::nibbles(q));
    assert forall|j: int| 0 <= j < 8 implies #[trigger] q45_k_pair(raw, j) == (
        sc[j] as int,
        mn[j] as int,
    ) by {
        scales::law_k4_scales(sc, mn, j);
    }
    assert forall|i: int| 0 <= i < 256 implies #[trigger] q4_k_elem(raw, i) == q[i] by {
        blocks::law_nibbles(q, i);
        assert(q[i] < 16);
    }
}

/// A `Q5_K` block: two scales of the block, scales and minima, fifth bits, low bits.
pub open spec fn q5_k_bytes(sc: Seq<u8>, mn: Seq<u8>, q: Seq<u8>, d: u16, dmin: u16) -> Seq<u8> {
    half(d) + half(dmin) + scales::k4_pack(sc, mn) + blocks::fifth_bits(q) + blocks::nibbles(q)
}

/// Appends a `Q5_K` block.
pub fn pack_q5_k(out: &mut Vec<u8>, sc: &[u8], mn: &[u8], q: &[u8], d: u16, dmin: u16)
    requires
        sc@.len() == 8,
        mn@.len() == 8,
        q@.len() == 256,
        blocks::below(sc@, 64),
        blocks::below(mn@, 64),
        blocks::below(q@, 32),
    ensures
        final(out)@ == old(out)@ + q5_k_bytes(sc@, mn@, q@, d, dmin),
{
    push_half(out, d);
    push_half(out, dmin);
    let s = pack_scale_min_k4(sc, mn);
    push_bytes(out, s.as_slice());
    push_fifth_bits(out, q);
    push_nibbles(out, q);
    assert(out@ =~= old(out)@ + q5_k_bytes(sc@, mn@, q@, d, dmin));
}

/// Element `idx` of a `Q5_K` block.
pub open spec fn q5_k_elem(raw: Seq<u8>, idx: int) -> int {
    blocks::nibble(raw.subrange(48, 176), idx) + 16 * blocks::fifth_bit(raw.subrange(16, 48), idx)
}

/// A `Q5_K` block gives back every field that was packed.
pub proof fn law_q5_k(sc: Seq<u8>, mn: Seq<u8>, q: Seq<u8>, d: u16, dmin: u16)
    requires
        sc.len() == 8,
        mn.len() == 8,
        q.len() == 256,
        blocks::below(sc, 64),
        blocks::below(mn, 64),
        blocks::below(q, 32),
    ensures
        ({
            let raw = q5_k_bytes(sc, mn, q, d, dmin);
            &&& raw.len() == Q5_K_BLOCK_BYTES
            &&& forall|j: int|
                0 <= j < 8 ==> #[trigger] q45_k_pair(raw, j) == (sc[j] as int, mn[j] as int)
            &&& forall|i: int| 0 <= i < 256 ==> #[trigger] q5_k_elem(raw, i) == q[i]
            &&& blocks::half_at(raw, 0) == d
            &&& blocks::half_at(raw, 2) == dmin
        }),
{
    let raw = q5_k_bytes(sc, mn, q, d, dmin);
    assert(raw.subrange(4, 16) =~= scales::k4_pack(sc, mn));
    assert(raw.subrange(16, 48) =~= blocks::fifth_bits(q));
    assert(raw.subrange(48, 176) =~= blocks::nibbles(q));
    assert forall|j: int| 0 <= j < 8 implies #[trigger] q45_k_pair(raw, j) == (
        sc[j] as int,
        mn[j] as int,
    ) by {
        scales::law_k4_scales(sc, mn, j);
    }
    assert forall|i: int| 0 <= i < 256 implies #[trigger] q5_k_elem(raw, i) == q[i] by {
        blocks::law_nibbles(q, i);
        blocks::law_fifth_bits(q, i);
    }
}

/// A `Q6_K` block: low bits, high bits, signed scales, scale of the block.
pub open spec fn q6_k_bytes(q: Seq<u8>, sc: Seq<i8>, d: u16) -> Seq<u8> {
    blocks::lows(q) + blocks::uppers(q) + signed(sc) + half(d)
}

/// Appends a `Q6_K` block; elements are given 32 too high.
pub fn pack_q6_k(out: &mut Vec<u8>, q: &[u8], sc: &[i8], d: u16)
    requires
        q@.len() == 256,
        sc@.len() == 16,
        blocks::below(q@, 64),
    ensures
        final(out)@ == old(out)@ + q6_k_bytes(q@, sc@, d),
{
    push_lows(out, q);
    push_uppers(out, q);
    push_signed(out, sc);
    push_half(out, d);
    assert(out@ =~= old(out)@ + q6_k_bytes(q@, sc@, d));
}

/// Element `idx` of a `Q6_K` block, between -32 and 31.
pub open spec fn q6_k_elem(raw: Seq<u8>, idx: int) -> int {
    blocks::low(raw.subrange(0, 128), idx) + 16 * blocks::upper(raw.subrange(128, 192), idx) - 32
}

/// Scale of group `g` of a `Q6_K` block.
pub open spec fn q6_k_scale(raw: Seq<u8>, g: int) -> int {
    raw[192 + g] as i8 as int
}

/// A `Q6_K` block gives back every field that was packed.
pub proof fn law_q6_k(q: Seq<u8>, sc: Seq<i8>, d: u16)
    requires
        q.len() == 256,
        sc.len() == 16,
        blocks::below(q, 64),
    ensures
        ({
            let raw = q6_k_bytes(q, sc, d);
            &&& raw.len() == Q6_K_BLOCK_BYTES
            &&& forall|g: int| 0 <= g < 16 ==> #[trigger] q6_k_scale(raw, g) == sc[g]
            &&& forall|i: int| 0 <= i < 256 ==> #[trigger] q6_k_elem(raw, i) == q[i] - 32
            &&& blocks::half_at(raw, 208) == d
        }),
{
    let raw = q6_k_bytes(q, sc, d);
    assert(raw.subrange(0, 128) =~= blocks::lows(q));
    assert(raw.subrange(128, 192) =~= blocks::uppers(q));
    assert forall|g: int| 0 <= g < 16 implies #[trigger] q6_k_scale(raw, g) == sc[g] by {
        lemma_signed(sc[g]);
        assert(raw[192 + g] == signed(sc)[g]);
    }
    assert forall|i: int| 0 <= i < 256 implies #[trigger] q6_k_elem(raw, i) == q[i] - 32 by {
        blocks::law_lows(q, i);
        blocks::law_uppers(q, i);
    }
}

} // verus!
