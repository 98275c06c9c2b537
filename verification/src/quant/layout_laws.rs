//! Where the parts of a block and of a file of weights stand, byte by byte, and what they mean.
use vstd::prelude::*;
use vstd::utf8::*;

use super::blocks;
use super::carry;
use super::dots;
use super::imatrix;
use super::imatrix::EntryView;
use super::iq_blocks;
use super::pack;
use super::q8row;
use super::q8row::Q8KRow;
use super::recipe;
use super::rewrite;
use super::row_blocks;
use super::rows;
use super::rows::Encoder;
use super::scales;
use super::shard;
use super::unpack;
use crate::bytes;
use crate::fp;
use crate::gguf::tensor;
use crate::gguf::value::Val;
use crate::gguf::writer;
use crate::gguf::TensorType;
use crate::text;

verus! {

/// A number of half precision stands with its low byte first, and is written so.
pub proof fn law_half_bytes(raw: Seq<u8>, at: int, x: u16)
    ensures
        blocks::half_at(raw, at) == raw[at] + 256 * raw[at + 1],
        pack::half(x).len() == 2,
        pack::half(x)[0] + 256 * pack::half(x)[1] == x,
        blocks::half_at(pack::half(x), 0) == x,
{
}

/// Blocks of 32 begin with their scale; 8-bit levels follow one by one, 4-bit ones in pairs sixteen
/// apart, the first half in the low bits, eight above their value.
pub proof fn law_small_blocks(raw: Seq<u8>, i: int)
    requires
        0 <= i < 32,
    ensures
        unpack::scales_of(TensorType::Q8_0, raw) == (blocks::half_at(raw, 0), 0u16),
        unpack::scales_of(TensorType::Q4_0, raw) == (blocks::half_at(raw, 0), 0u16),
        unpack::factor(TensorType::Q8_0, raw, i) == raw[2 + i] as i8,
        i < 16 ==> unpack::factor(TensorType::Q4_0, raw, i) == raw[2 + i] % 16 - 8,
        i >= 16 ==> unpack::factor(TensorType::Q4_0, raw, i) == raw[2 + (i - 16)] / 16 - 8,
        unpack::minimum(TensorType::Q8_0, raw, i) == 0,
        unpack::minimum(TensorType::Q4_0, raw, i) == 0,
{
}

proof fn lemma_place(n: int, s: int, j: int)
    requires
        0 <= n < 2,
        0 <= s < 4,
        0 <= j < 32,
    ensures
        ({
            let i = 128 * n + 32 * s + j;
            &&& i / 128 == n
            &&& (i % 128) / 32 == s
            &&& i % 32 == j
            &&& i / 32 == 4 * n + s
            &&& (i / 64) % 2 == s / 2
            &&& i % 64 == 32 * (s % 2) + j
        }),
{
    let i = 128 * n + 32 * s + j;
    assert(i / 128 == n);
    assert(i % 128 == 32 * s + j);
    assert(i / 32 == 4 * n + s);
    assert(i / 64 == 2 * n + s / 2);
}

/// Two bits: sixteen bytes of scales and minima in four bits each, then the levels, the four of a
/// byte 32 places apart, then the two factors.
pub proof fn law_q2_k_layout(raw: Seq<u8>, n: int, j: int, g: int)
    requires
        0 <= n < 2,
        0 <= j < 32,
        0 <= g < 16,
        raw.len() == 84,
    ensures
        pack::q2_k_scale(raw, g) == raw[g] % 16,
        pack::q2_k_min(raw, g) == raw[g] / 16,
        pack::q2_k_elem(raw, 128 * n + j) == raw[16 + 32 * n + j] % 4,
        pack::q2_k_elem(raw, 128 * n + 32 + j) == (raw[16 + 32 * n + j] / 4) % 4,
        pack::q2_k_elem(raw, 128 * n + 64 + j) == (raw[16 + 32 * n + j] / 16) % 4,
        pack::q2_k_elem(raw, 128 * n + 96 + j) == raw[16 + 32 * n + j] / 64,
        unpack::scales_of(TensorType::Q2K, raw) == (
            blocks::half_at(raw, 80),
            blocks::half_at(raw, 82),
        ),
{
    lemma_place(n, 0, j);
    lemma_place(n, 1, j);
    lemma_place(n, 2, j);
    lemma_place(n, 3, j);
    let s = raw.subrange(16, 80);
    assert(s[32 * n + j] == raw[16 + 32 * n + j]);
}

/// Three bits: 32 bytes of third bits, one bit for each run of 32 levels, then the levels' low bits
/// as with two, then twelve bytes of scales, then the factor. Levels lie four above their value.
pub proof fn law_q3_k_layout(raw: Seq<u8>, n: int, j: int)
    requires
        0 <= n < 2,
        0 <= j < 32,
        raw.len() == 110,
    ensures
        pack::q3_k_elem(raw, 128 * n + j) == raw[32 + 32 * n + j] % 4 + 4 * ((raw[j]
            / (if n == 0 { 1u8 } else { 16 })) % 2) - 4,
        pack::q3_k_elem(raw, 128 * n + 32 + j) == (raw[32 + 32 * n + j] / 4) % 4 + 4 * ((raw[j]
            / (if n == 0 { 2u8 } else { 32 })) % 2) - 4,
        pack::q3_k_elem(raw, 128 * n + 64 + j) == (raw[32 + 32 * n + j] / 16) % 4 + 4 * ((raw[j]
            / (if n == 0 { 4u8 } else { 64 })) % 2) - 4,
        pack::q3_k_elem(raw, 128 * n + 96 + j) == raw[32 + 32 * n + j] / 64 + 4 * ((raw[j]
            / (if n == 0 { 8u8 } else { 128 })) % 2) - 4,
        unpack::scales_of(TensorType::Q3K, raw) == (blocks::half_at(raw, 108), 0u16),
{
    lemma_place(n, 0, j);
    lemma_place(n, 1, j);
    lemma_place(n, 2, j);
    lemma_place(n, 3, j);
    let s = raw.subrange(32, 96);
    let h = raw.subrange(0, 32);
    assert(s[32 * n + j] == raw[32 + 32 * n + j]);
    assert(h[j] == raw[j]);
}

/// The sixteen 6-bit scales of three-bit blocks: low four bits of two scales in each of eight bytes,
/// eight apart, and the two high bits of four scales in each of the last four, four apart. They lie
/// 32 above their value.
pub proof fn law_q3_k_scales(raw: Seq<u8>, j: int)
    requires
        0 <= j < 4,
        raw.len() == 110,
    ensures
        pack::q3_k_scale(raw, j) == raw[96 + j] % 16 + 16 * (raw[104 + j] % 4) - 32,
        pack::q3_k_scale(raw, 4 + j) == raw[100 + j] % 16 + 16 * ((raw[104 + j] / 4) % 4) - 32,
        pack::q3_k_scale(raw, 8 + j) == raw[96 + j] / 16 + 16 * ((raw[104 + j] / 16) % 4) - 32,
        pack::q3_k_scale(raw, 12 + j) == raw[100 + j] / 16 + 16 * (raw[104 + j] / 64) - 32,
{
    let s = raw.subrange(96, 108);
    assert(s[j] == raw[96 + j] && s[4 + j] == raw[100 + j] && s[8 + j] == raw[104 + j]);
}

/// Four and five bits share their head: two factors, then twelve bytes of eight 6-bit scales and
/// minima. The first four of each stand in the low bits of four bytes; of the last four the low bits
/// stand in pairs in the last bytes, and the high bits above the first four.
pub proof fn law_q45_k_head(raw: Seq<u8>, j: int)
    requires
        0 <= j < 4,
        raw.len() >= 144,
    ensures
        pack::q45_k_pair(raw, j) == (raw[4 + j] as int % 64, raw[8 + j] as int % 64),
        pack::q45_k_pair(raw, 4 + j) == (
            raw[12 + j] as int % 16 + 16 * (raw[4 + j] as int / 64),
            raw[12 + j] as int / 16 + 16 * (raw[8 + j] as int / 64),
        ),
        unpack::scales_of(TensorType::Q4K, raw) == (
            blocks::half_at(raw, 0),
            blocks::half_at(raw, 2),
        ),
        unpack::scales_of(TensorType::Q5K, raw) == (
            blocks::half_at(raw, 0),
            blocks::half_at(raw, 2),
        ),
{
    let s = raw.subrange(4, 16);
    assert(s[j] == raw[4 + j] && s[4 + j] == raw[8 + j] && s[8 + j] == raw[12 + j]);
}

/// Four bits: the levels of each run of 64 stand in 32 bytes, the first half in the low bits.
pub proof fn law_q4_k_layout(raw: Seq<u8>, g: int, j: int)
    requires
        0 <= g < 4,
        0 <= j < 32,
        raw.len() == 144,
    ensures
        pack::q4_k_elem(raw, 64 * g + j) == raw[16 + 32 * g + j] % 16,
        pack::q4_k_elem(raw, 64 * g + 32 + j) == raw[16 + 32 * g + j] / 16,
{
    let s = raw.subrange(16, 144);
    assert(s[32 * g + j] == raw[16 + 32 * g + j]);
}

/// Five bits: 32 bytes of fifth bits, one bit for each run of 32 levels, then the levels' low bits as
/// with four.
pub proof fn law_q5_k_layout(raw: Seq<u8>, g: int, j: int)
    requires
        0 <= g < 4,
        0 <= j < 32,
        raw.len() == 176,
    ensures
        pack::q5_k_elem(raw, 64 * g + j) == raw[48 + 32 * g + j] % 16 + 16 * ((raw[16 + j] as int
            / blocks::p2(2 * g)) % 2),
        pack::q5_k_elem(raw, 64 * g + 32 + j) == raw[48 + 32 * g + j] / 16 + 16 * ((raw[16 + j]
            as int / blocks::p2(2 * g + 1)) % 2),
{
    let s = raw.subrange(48, 176);
    let h = raw.subrange(16, 48);
    assert(s[32 * g + j] == raw[48 + 32 * g + j]);
    assert(h[j] == raw[16 + j]);
    assert((64 * g + j) / 32 == 2 * g && (64 * g + 32 + j) / 32 == 2 * g + 1);
}

/// Six bits: the levels' low four bits, those of each run of 128 in 64 bytes, then their high two
/// bits, those of each run in 32 bytes, then sixteen signed scales, then the factor. Levels lie 32
/// above their value.
pub proof fn law_q6_k_layout(raw: Seq<u8>, n: int, j: int, g: int)
    requires
        0 <= n < 2,
        0 <= j < 32,
        0 <= g < 16,
        raw.len() == 210,
    ensures
        pack::q6_k_elem(raw, 128 * n + j) == raw[64 * n + j] % 16 + 16 * (raw[128 + 32 * n + j]
            % 4) - 32,
        pack::q6_k_elem(raw, 128 * n + 32 + j) == raw[64 * n + 32 + j] % 16 + 16 * ((raw[128 + 32
            * n + j] / 4) % 4) - 32,
        pack::q6_k_elem(raw, 128 * n + 64 + j) == raw[64 * n + j] / 16 + 16 * ((raw[128 + 32 * n
            + j] / 16) % 4) - 32,
        pack::q6_k_elem(raw, 128 * n + 96 + j) == raw[64 * n + 32 + j] / 16 + 16 * (raw[128 + 32
            * n + j] / 64) - 32,
        pack::q6_k_scale(raw, g) == raw[192 + g] as i8,
        unpack::scales_of(TensorType::Q6K, raw) == (blocks::half_at(raw, 208), 0u16),
{
    lemma_place(n, 0, j);
    lemma_place(n, 1, j);
    lemma_place(n, 2, j);
    lemma_place(n, 3, j);
    let s = raw.subrange(0, 128);
    let h = raw.subrange(128, 192);
    assert(s[64 * n + j] == raw[64 * n + j]);
    assert(s[64 * n + 32 + j] == raw[64 * n + 32 + j]);
    assert(h[32 * n + j] == raw[128 + 32 * n + j]);
    assert(blocks::low(s, 128 * n + j) == raw[64 * n + j] % 16);
    assert(blocks::low(s, 128 * n + 32 + j) == raw[64 * n + 32 + j] % 16);
    assert(blocks::low(s, 128 * n + 64 + j) == raw[64 * n + j] / 16);
    assert(blocks::low(s, 128 * n + 96 + j) == raw[64 * n + 32 + j] / 16);
    assert(blocks::upper(h, 128 * n + j) == raw[128 + 32 * n + j] % 4);
    assert(blocks::upper(h, 128 * n + 32 + j) == (raw[128 + 32 * n + j] / 4) % 4);
    assert(blocks::upper(h, 128 * n + 64 + j) == (raw[128 + 32 * n + j] / 16) % 4);
    assert(blocks::upper(h, 128 * n + 96 + j) == raw[128 + 32 * n + j] / 64);
}

/// The powers that pick bits are powers of two.
pub proof fn law_bit_places(k: int)
    requires
        0 <= k < 7,
    ensures
        blocks::p2(0) == 1,
        blocks::p2(k + 1) == 2 * blocks::p2(k),
        blocks::p4(0) == 1,
        k < 3 ==> blocks::p4(k + 1) == 4 * blocks::p4(k),
{
}

/// Each level is scaled by the scale of its group, and lowered by its minimum where the kind has one;
/// groups have sixteen levels, and 32 with four and five bits.
pub proof fn law_unpacked(raw: Seq<u8>, i: int)
    requires
        0 <= i < 256,
    ensures
        unpack::factor(TensorType::Q2K, raw, i) == pack::q2_k_scale(raw, i / 16) * pack::q2_k_elem(
            raw,
            i,
        ),
        unpack::factor(TensorType::Q3K, raw, i) == pack::q3_k_scale(raw, i / 16) * pack::q3_k_elem(
            raw,
            i,
        ),
        unpack::factor(TensorType::Q4K, raw, i) == pack::q45_k_pair(raw, i / 32).0
            * pack::q4_k_elem(raw, i),
        unpack::factor(TensorType::Q5K, raw, i) == pack::q45_k_pair(raw, i / 32).0
            * pack::q5_k_elem(raw, i),
        unpack::factor(TensorType::Q6K, raw, i) == pack::q6_k_scale(raw, i / 16) * pack::q6_k_elem(
            raw,
            i,
        ),
        unpack::minimum(TensorType::Q2K, raw, i) == pack::q2_k_min(raw, i / 16),
        unpack::minimum(TensorType::Q4K, raw, i) == pack::q45_k_pair(raw, i / 32).1,
        unpack::minimum(TensorType::Q5K, raw, i) == pack::q45_k_pair(raw, i / 32).1,
        unpack::minimum(TensorType::Q3K, raw, i) == 0,
        unpack::minimum(TensorType::Q6K, raw, i) == 0,
{
}

/// What can be unpacked is as large as its blocks are stored.
pub proof fn law_unpack_blocks(ty: TensorType)
    ensures
        unpack::block_of(ty) matches Some((n, b)) ==> (ty.layout() matches Some((m, c)) && n == m
            && b == c),
        unpack::block_of(ty) is Some <==> ty == TensorType::Q4_0 || ty == TensorType::Q8_0 || ty
            == TensorType::Q2K || ty == TensorType::Q3K || ty == TensorType::Q4K || ty
            == TensorType::Q5K || ty == TensorType::Q6K,
{
}

/// A dot product in integers multiplies the same factors and minima that unpacking gives: each weight
/// is the factor of its level, and each group's minimum is that of every level in it.
pub proof fn law_dots_agree(raw: Seq<u8>, i: int, g: int, k: int)
    requires
        0 <= i < 256,
        0 <= g < 16,
        0 <= k < 16,
    ensures
        dots::q2_k_weights(raw).len() == 256,
        dots::q3_k_weights(raw).len() == 256,
        dots::q4_k_weights(raw).len() == 256,
        dots::q2_k_weights(raw)[i] == unpack::factor(TensorType::Q2K, raw, i),
        dots::q3_k_weights(raw)[i] == unpack::factor(TensorType::Q3K, raw, i),
        dots::q4_k_weights(raw)[i] == unpack::factor(TensorType::Q4K, raw, i),
        dots::q2_k_mins(raw)[g] == unpack::minimum(TensorType::Q2K, raw, 16 * g + k),
        dots::q4_k_mins(raw)[g] == unpack::minimum(TensorType::Q4K, raw, 16 * g + k),
{
    assert((16 * g + k) / 16 == g);
    assert((16 * g + k) / 32 == g / 2);
}

proof fn lemma_dot_prefix(v: Seq<int>, w: Seq<int>, x: Seq<i8>, y: Seq<i8>, n: int)
    requires
        0 <= n,
        forall|i: int| 0 <= i < n ==> v[i] == w[i] && x[i] == y[i],
    ensures
        dots::dot(v, x, n) == dots::dot(w, y, n),
    decreases n,
{
    if n > 0 {
        lemma_dot_prefix(v, w, x, y, n - 1);
        assert(v[n - 1] == w[n - 1] && x[n - 1] == y[n - 1]);
    }
}

/// A dot product adds the product of each weight with its own level, and nothing more.
pub proof fn law_dot_adds(w: Seq<int>, x: Seq<i8>, a: int, b: i8)
    requires
        w.len() == x.len(),
    ensures
        dots::dot(w.push(a), x.push(b), w.len() as int + 1) == dots::dot(w, x, w.len() as int) + a
            * b,
        dots::dot(w, x, 0) == 0,
{
    lemma_dot_prefix(w.push(a), w, x.push(b), x, w.len() as int);
}

/// Minima are multiplied with the sum of the levels that they belong to, so that they are taken off
/// every level alike.
pub proof fn law_group_sums(x: Seq<i8>, b: Seq<i32>, g: int, m: Seq<int>, n: int)
    requires
        dots::are_group_sums(x, b),
        0 <= g < b.len(),
        0 <= n,
    ensures
        b[g] == x[16 * g] + x[16 * g + 1] + x[16 * g + 2] + x[16 * g + 3] + x[16 * g + 4] + x[16
            * g + 5] + x[16 * g + 6] + x[16 * g + 7] + x[16 * g + 8] + x[16 * g + 9] + x[16 * g
            + 10] + x[16 * g + 11] + x[16 * g + 12] + x[16 * g + 13] + x[16 * g + 14] + x[16 * g
            + 15],
        dots::pair_sum(m, b, n + 1) == dots::pair_sum(m, b, n) + m[n] * b[n],
        dots::pair_sum(m, b, 0) == 0,
{
    reveal_with_fuel(dots::group_sum, 17);
}

/// Blocks of a row stand one behind the other, each as long as its kind says; the activation's block
/// of the same number goes with each, and the factors stand where the kind has them.
pub proof fn law_row_blocks(row: Seq<u8>, x: Q8KRow, b: int)
    requires
        x.wf(),
        0 <= b < x.d@.len(),
        row.len() >= 144 * x.d@.len(),
    ensures
        q8row::q2_k_block(row, x, b).xd == x.d@[b],
        q8row::q3_k_block(row, x, b).xd == x.d@[b],
        q8row::q4_k_block(row, x, b).xd == x.d@[b],
        q8row::q2_k_block(row, x, b).d == blocks::half_at(row, 84 * b + 80),
        q8row::q2_k_block(row, x, b).dmin == blocks::half_at(row, 84 * b + 82),
        q8row::q3_k_block(row, x, b).d == blocks::half_at(row, 110 * b + 108),
        q8row::q3_k_block(row, x, b).dmin == 0,
        q8row::q3_k_block(row, x, b).summs == 0,
        q8row::q4_k_block(row, x, b).d == blocks::half_at(row, 144 * b),
        q8row::q4_k_block(row, x, b).dmin == blocks::half_at(row, 144 * b + 2),
        forall|i: int| 0 <= i < 256 ==> #[trigger] q8row::levels(x, b)[i] == x.qs@[256 * b + i],
        forall|g: int| 0 <= g < 16 ==> #[trigger] q8row::sums(x, b)[g] == x.bsums@[16 * b + g],
{
    assert(row.len() >= 84 * b + 84);
    assert(row.len() >= 110 * b + 110);
    assert(row.len() >= 144 * b + 144);
    let p = q8row::block(row, b, 84);
    assert(p[80] == row[84 * b + 80] && p[81] == row[84 * b + 81] && p[82] == row[84 * b + 82]
        && p[83] == row[84 * b + 83]);
    let q = q8row::block(row, b, 110);
    assert(q[108] == row[110 * b + 108] && q[109] == row[110 * b + 109]);
    let r = q8row::block(row, b, 144);
    assert(r[0] == row[144 * b] && r[1] == row[144 * b + 1] && r[2] == row[144 * b + 2] && r[3]
        == row[144 * b + 3]);
}

proof fn lemma_low_bits(s7: int, f: int)
    requires
        0 <= s7 < 128,
        f == s7 || f == s7 + 128,
    ensures
        iq_blocks::bit(f, 0) == iq_blocks::bit(s7, 0),
        iq_blocks::bit(f, 1) == iq_blocks::bit(s7, 1),
        iq_blocks::bit(f, 2) == iq_blocks::bit(s7, 2),
        iq_blocks::bit(f, 3) == iq_blocks::bit(s7, 3),
        iq_blocks::bit(f, 4) == iq_blocks::bit(s7, 4),
        iq_blocks::bit(f, 5) == iq_blocks::bit(s7, 5),
        iq_blocks::bit(f, 6) == iq_blocks::bit(s7, 6),
{
    if f == s7 + 128 {
        assert(f / 2 == s7 / 2 + 64);
        assert(f / 4 == s7 / 4 + 32);
        assert(f / 8 == s7 / 8 + 16);
        assert(f / 16 == s7 / 16 + 8);
        assert(f / 32 == s7 / 32 + 4);
        assert(f / 64 == s7 / 64 + 2);
    }
}

/// Groups of eight codebook weights: the byte of the grid's word, scaled, and negative exactly where
/// its sign is set. The eighth sign makes the number of signs even.
pub proof fn law_codebook_group(g: u64, s7: int, ls: int, i: int)
    requires
        0 <= s7 < 128,
        0 <= i < 8,
    ensures
        iq_blocks::group_weights(g, s7, ls).len() == 8,
        iq_blocks::group_weights(g, s7, ls)[i] == ls * (super::iq::word_byte(
            g,
            i as nat,
        ) as i8 as int) || iq_blocks::group_weights(g, s7, ls)[i] == ls * -(super::iq::word_byte(
            g,
            i as nat,
        ) as i8 as int),
        i < 7 ==> (iq_blocks::group_weights(g, s7, ls)[i] == ls * if (s7 / blocks::p2(i)) % 2
            == 1 {
            -(super::iq::word_byte(g, i as nat) as i8 as int)
        } else {
            super::iq::word_byte(g, i as nat) as i8 as int
        }),
        iq_blocks::full_signs(s7) % 128 == s7,
        (iq_blocks::ones7(iq_blocks::full_signs(s7)) + iq_blocks::full_signs(s7) / 128) % 2 == 0,
{
    let f = iq_blocks::full_signs(s7);
    assert(0 <= iq_blocks::ones7(s7) % 2 < 2);
    assert(f / 128 == iq_blocks::ones7(s7) % 2);
    lemma_low_bits(s7, f);
    assert(iq_blocks::ones7(f) == iq_blocks::ones7(s7));
}

/// Two-bit codebook blocks: the factor, then eight parts of four grid numbers and a word of four
/// sign patterns of seven bits and a scale of four.
pub proof fn law_iq2_xxs_layout(raw: Seq<u8>, b: int, k: int, a: nat)
    requires
        0 <= b < 8,
        0 <= k < 4,
        a < 0x1_0000_0000,
    ensures
        iq_blocks::iq2_xxs_index(raw, 4 * b + k) == raw[2 + 8 * b + k],
        iq_blocks::iq2_xxs_aux(raw, b) == bytes::le_nat(raw.subrange(6 + 8 * b, 10 + 8 * b)),
        a == iq_blocks::aux_signs(a, 0) + 0x80 * iq_blocks::aux_signs(a, 1) + 0x4000
            * iq_blocks::aux_signs(a, 2) + 0x20_0000 * iq_blocks::aux_signs(a, 3) + 0x1000_0000
            * iq_blocks::aux_scale(a),
        0 <= iq_blocks::aux_signs(a, k) < 128,
        0 <= iq_blocks::aux_scale(a) < 16,
{
    let p = a / 0x80;
    let q = p / 0x80;
    let r = q / 0x80;
    assert(q == a / 0x4000);
    assert(r == a / 0x20_0000);
    assert(r / 0x80 == a / 0x1000_0000);
    assert((4 * b + k) / 4 == b && (4 * b + k) % 4 == k);
}

/// Scales of the wider two-bit codebook: one of four bits for each half of a part, one above twice
/// it.
pub proof fn law_iq2_xs_scales(raw: Seq<u8>, b: int)
    requires
        0 <= b < 8,
    ensures
        iq_blocks::iq2_xs_scale(raw, 4 * b) == 2 * (raw[66 + b] % 16) + 1,
        iq_blocks::iq2_xs_scale(raw, 4 * b + 1) == 2 * (raw[66 + b] % 16) + 1,
        iq_blocks::iq2_xs_scale(raw, 4 * b + 2) == 2 * (raw[66 + b] / 16) + 1,
        iq_blocks::iq2_xs_scale(raw, 4 * b + 3) == 2 * (raw[66 + b] / 16) + 1,
{
}

/// A row is read value by value: four bytes each in single precision, two in half precision, exactly,
/// and two that are the upper half of single precision. Other types are not read.
pub proof fn law_row_read(ty: TensorType, raw: Seq<u8>, i: int)
    ensures
        rows::row_values(TensorType::F32, raw) matches Some(x) && x.len() == raw.len() / 4 && (0
            <= i < x.len() ==> x[i] as nat == bytes::le_nat(raw.subrange(4 * i, 4 * i + 4))),
        rows::row_values(TensorType::F16, raw) matches Some(x) && x.len() == raw.len() / 2 && (0
            <= i < x.len() ==> x[i] as nat == fp::single_of(
            (raw[2 * i] + 256 * raw[2 * i + 1]) as u16,
        )),
        rows::row_values(TensorType::BF16, raw) matches Some(x) && x.len() == raw.len() / 2 && (0
            <= i < x.len() ==> x[i] == 0x1_0000 * (raw[2 * i] + 256 * raw[2 * i + 1])),
        rows::row_values(ty, raw) is Some <==> ty == TensorType::F32 || ty == TensorType::F16 || ty
            == TensorType::BF16,
{
    if 0 <= i < raw.len() / 4 {
        let s = raw.subrange(4 * i, 4 * i + 4);
        bytes::lemma_le_bound(s);
        bytes::lemma_pow256();
    }
    if 0 <= i < raw.len() / 2 {
        fp::law_half_roundtrip(blocks::half_at(raw, 2 * i));
    }
}

/// Each type is written by its own encoder, whose blocks are as long as the type stores them; the
/// other types have none.
pub proof fn law_encoders(ty: TensorType)
    ensures
        rows::encoder_of(TensorType::Q8_0) == Some(Encoder::Q8_0),
        rows::encoder_of(TensorType::Q2K) == Some(Encoder::Q2K),
        rows::encoder_of(TensorType::Q3K) == Some(Encoder::Q3K),
        rows::encoder_of(TensorType::Q4K) == Some(Encoder::Q4K),
        rows::encoder_of(TensorType::Q5K) == Some(Encoder::Q5K),
        rows::encoder_of(TensorType::Q6K) == Some(Encoder::Q6K),
        rows::encoder_of(TensorType::IQ2XXS) == Some(Encoder::IQ2XXS),
        rows::encoder_of(ty) matches Some(e) ==> (ty.layout() matches Some((n, b))
            && row_blocks::block_len(e) == n && row_blocks::block_bytes(e) == b),
        ty == TensorType::F32 || ty == TensorType::F16 || ty == TensorType::BF16 ==> (
        rows::encoder_of(ty) is None),
{
}

/// A row is cut into blocks in order. Only blocks of 32 may end behind the row, filled up with zeros.
pub proof fn law_blocks_cut(e: Encoder, x: Seq<u32>, i: int, k: int)
    requires
        0 <= i,
        0 <= k < row_blocks::block_len(e),
    ensures
        row_blocks::block(e, x, i).len() == row_blocks::block_len(e),
        row_blocks::block_len(e) * i + k < x.len() ==> row_blocks::block(e, x, i)[k]
            == x[row_blocks::block_len(e) * i + k],
        row_blocks::block_len(e) * i + k >= x.len() ==> row_blocks::block(e, x, i)[k] == 0,
        row_blocks::block_count(Encoder::Q8_0, x.len() as int) * 32 >= x.len(),
        (row_blocks::block_count(Encoder::Q8_0, x.len() as int) - 1) * 32 < x.len(),
        e != Encoder::Q8_0 && x.len() % 256 == 0 ==> row_blocks::block_count(e, x.len() as int)
            * 256 == x.len(),
{
}

proof fn lemma_words(buf: Seq<u8>, at: nat, n: nat)
    requires
        at + 4 * n <= buf.len(),
    ensures
        imatrix::words(buf, at, n).len() == n,
        forall|i: int|
            0 <= i < n ==> #[trigger] imatrix::words(buf, at, n)[i] as nat == bytes::le_nat(
                buf.subrange(at + 4 * i, at + 4 * i + 4),
            ),
{
    assert forall|i: int| 0 <= i < n implies #[trigger] imatrix::words(buf, at, n)[i] as nat
        == bytes::le_nat(buf.subrange(at + 4 * i, at + 4 * i + 4)) by {
        bytes::lemma_le_bound(buf.subrange(at + 4 * i, at + 4 * i + 4));
        bytes::lemma_pow256();
    }
}

/// An entry of weights is the length of its name in four bytes, the name, a count of four bytes that
/// is passed over, the number of weights in four bytes, and the weights in single precision. The next
/// entry begins behind them.
pub proof fn law_weights_entry(buf: Seq<u8>, at: nat)
    ensures
        imatrix::entry(buf, at) matches Ok((e, next)) ==> {
            let len = bytes::le_nat(buf.subrange(at as int, at as int + 4)) as int;
            let n = bytes::le_nat(buf.subrange(at + 8 + len, at + 12 + len)) as int;
            &&& next == at + 4 + len + 4 + 4 + 4 * n
            &&& next <= buf.len()
            &&& encode_utf8(e.name) == buf.subrange(at as int + 4, at + 4 + len)
            &&& e.weights.len() == n
            &&& forall|i: int|
                0 <= i < n ==> #[trigger] e.weights[i] as nat == bytes::le_nat(
                    buf.subrange(at + 12 + len + 4 * i, at + 12 + len + 4 * i + 4),
                )
        },
{
    if let Ok((e, next)) = imatrix::entry(buf, at) {
        let len = bytes::le_nat(buf.subrange(at as int, at as int + 4));
        let n = bytes::le_nat(buf.subrange(at as int + 8 + len, at as int + 12 + len));
        lemma_words(buf, at + 12 + len, n);
        decode_utf8_encode_utf8(buf.subrange(at as int + 4, at as int + 4 + len));
    }
}

/// Of the entries with one name the last one counts.
pub proof fn law_last_weights_count(s: Seq<EntryView>, e: EntryView, name: Seq<char>)
    ensures
        imatrix::by_name(Seq::empty()) == Map::<Seq<char>, Seq<u32>>::empty(),
        imatrix::by_name(s.push(e)).contains_key(e.name),
        imatrix::by_name(s.push(e))[e.name] == e.weights,
        name != e.name ==> (imatrix::by_name(s.push(e)).contains_key(name) <==> imatrix::by_name(
            s,
        ).contains_key(name)),
        name != e.name && imatrix::by_name(s).contains_key(name) ==> imatrix::by_name(
            s.push(e),
        )[name] == imatrix::by_name(s)[name],
{
    assert(s.push(e).drop_last() =~= s);
}

/// A file of weights begins with the number of its entries, in four bytes; a negative number and one
/// of a million and more are refused.
pub proof fn law_weights_file(buf: Seq<u8>)
    ensures
        imatrix::matrix(buf) matches Ok(s) ==> buf.len() >= 4 && s.len() == bytes::le_nat(
            buf.subrange(0, 4),
        ) && s.len() < 1_000_000,
        buf.len() >= 4 && bytes::le_nat(buf.subrange(0, 4)) >= 1_000_000 ==> (imatrix::matrix(
            buf,
        ) matches Err(e) && e is Count),
        buf.len() < 4 ==> (imatrix::matrix(buf) matches Err(e) && e is Truncated),
{
    if buf.len() >= 4 {
        let n = bytes::le_nat(buf.subrange(0, 4));
        bytes::lemma_le_bound(buf.subrange(0, 4));
        bytes::lemma_pow256();
        lemma_entries_len(buf, 4, n, Seq::empty());
    }
}

proof fn lemma_entries_len(buf: Seq<u8>, at: nat, n: nat, acc: Seq<EntryView>)
    ensures
        imatrix::entries(buf, at, n, acc) matches Ok(s) ==> s.len() == acc.len() + n,
    decreases n,
{
    if n > 0 {
        if let Ok((e, next)) = imatrix::entry(buf, at) {
            lemma_entries_len(buf, next, (n - 1) as nat, acc.push(e));
        }
    }
}

/// How many tensors a file in parts announces: the number under its key, of either width, and its own
/// where there is none.
pub proof fn law_announced(m: Map<Seq<char>, Val>, n: u64, a: u32, b: u64)
    ensures
        !m.contains_key("split.tensors.count"@) ==> rewrite::announced(m, n) == n,
        m.contains_key("split.tensors.count"@) && m["split.tensors.count"@] == Val::U32(a)
            ==> rewrite::announced(m, n) == a,
        m.contains_key("split.tensors.count"@) && m["split.tensors.count"@] == Val::U64(b)
            ==> rewrite::announced(m, n) == b,
        m.contains_key("split.tensors.count"@) ==> (m["split.tensors.count"@] matches Val::I32(x)
            ==> x >= 0 ==> rewrite::announced(m, n) == x),
        m.contains_key("split.tensors.count"@) ==> (m["split.tensors.count"@] matches Val::I64(x)
            ==> x >= 0 ==> rewrite::announced(m, n) == x),
        m.contains_key("split.tensors.count"@) && m["split.tensors.count"@] is Str
            ==> rewrite::announced(m, n) == n,
{
}

/// What is written is aligned as the source is, and to 32 bytes at least.
pub proof fn law_out_alignment(a: u64)
    ensures
        rewrite::out_alignment(a) >= 32,
        rewrite::out_alignment(a) >= a,
        rewrite::out_alignment(a) == a || rewrite::out_alignment(a) == 32,
{
}

/// Room for the header: the megabytes that are asked for, or that of the source with 160 bytes for
/// each tensor and a megabyte more.
pub proof fn law_reserve(mb: u64, data_offset: u64, n: u64)
    ensures
        mb * 0x10_0000 <= u64::MAX ==> rewrite::reserve(Some(mb), data_offset, n) == mb * 0x10_0000,
        rewrite::reserve(None, data_offset, n) == data_offset + 160 * n + 0x10_0000,
{
}

/// A tensor is its first extent wide and has one row for each index of the others.
pub proof fn law_rows_of(dims: Seq<u64>)
    ensures
        dims.len() > 0 ==> rewrite::shape(dims).0 == dims[0],
        dims.len() > 0 && tensor::product(dims.skip(1)) > 0 ==> rewrite::shape(dims).1
            == tensor::product(dims.skip(1)),
        dims.len() <= 1 ==> rewrite::shape(dims).1 == 1,
        rewrite::shape(dims).1 >= 1,
{
    if dims.len() == 1 {
        assert(dims.skip(1) =~= Seq::<u64>::empty());
    }
}

/// Rows are shared out so that all workers together take them all, with as few for each as that
/// allows.
pub proof fn law_chunks(rows: nat, workers: nat)
    requires
        workers > 0,
    ensures
        rewrite::chunk_rows(rows, workers) * workers >= rows,
        rows > 0 ==> (rewrite::chunk_rows(rows, workers) - 1) * workers < rows,
{
    tensor::lemma_ceil_div(rows, workers);
    let c = rewrite::chunk_rows(rows, workers);
    assert((c - 1) * workers == c * workers - workers) by (nonlinear_arith);
}

/// Each row is weighted by the weights of its slice: all rows of a slice by the same ones, the next
/// slice by the next ones; weights for one slice serve all.
pub proof fn law_slice_weights(row: nat, ne1: nat, slices: nat, e: nat, k: nat)
    requires
        row > 0,
        slices > 1,
        e < slices,
        k < ne1,
    ensures
        rewrite::weight_range(row * slices, row, ne1, e * ne1 + k) == (
            (e * row) as int,
            (e * row + row) as int,
        ),
        rewrite::weight_range(row, row, ne1, e * ne1 + k) == (0int, row as int),
{
    assert(row * slices > row) by (nonlinear_arith)
        requires
            row > 0,
            slices > 1,
    ;
    vstd::arithmetic::div_mod::lemma_fundamental_div_mod_converse(
        (e * ne1 + k) as int,
        ne1 as int,
        e as int,
        k as int,
    );
}

/// What is carried over is all metadata but that on how a file is split, unchanged.
pub proof fn law_carried(m: Map<Seq<char>, Val>, k: Seq<char>, tail: Seq<char>)
    ensures
        !carry::carried(m).contains_key("split."@ + tail),
        m.contains_key(k) && !carry::is_split_key(k) ==> carry::carried(m).contains_key(k)
            && carry::carried(m)[k] == m[k],
        carry::carried(m).contains_key(k) ==> m.contains_key(k),
        carry::is_split_key(k) ==> exists|t: Seq<char>| k == #[trigger] ("split."@ + t),
{
    let p = "split."@;
    let s = p + tail;
    assert(s.subrange(0, p.len() as int) =~= p);
    assert(carry::is_split_key(s));
    if carry::is_split_key(k) {
        let t = k.skip(p.len() as int);
        assert(k =~= p + t);
    }
}

/// Keys are ordered by their bytes: an earlier difference decides, and a key comes before its
/// extensions.
pub proof fn law_key_bytes(p: Seq<u8>, a: u8, b: u8, s: Seq<u8>, t: Seq<u8>)
    requires
        a < b,
    ensures
        carry::before(p + seq![a] + s, p + seq![b] + t),
        !carry::before(p + seq![b] + t, p + seq![a] + s),
        carry::before(p, p + seq![b] + t),
        !carry::before(p + seq![b] + t, p),
        !carry::before(p, p),
    decreases p.len(),
{
    let x = p + seq![a] + s;
    let y = p + seq![b] + t;
    if p.len() > 0 {
        let q = p.skip(1);
        law_key_bytes(q, a, b, s, t);
        assert(x.skip(1) =~= q + seq![a] + s);
        assert(y.skip(1) =~= q + seq![b] + t);
        assert(x[0] == p[0] && y[0] == p[0]);
    } else {
        assert(x[0] == a && y[0] == b);
    }
}

/// Packed scales keep within six bits what they hold, whatever the bytes are.
pub proof fn law_scale_ranges(s: Seq<u8>, j: int)
    requires
        s.len() == 12,
    ensures
        0 <= j < 16 ==> -32 <= scales::k3_scale(s, j) < 32,
        0 <= j < 8 ==> 0 <= scales::k4_pair(s, j).0 < 64 && 0 <= scales::k4_pair(s, j).1 < 64,
{
}

/// What is wrong with a source, a target or a file of weights is said with its name or number.
pub proof fn law_complaints(ty: TensorType, name: Seq<char>, status: Seq<char>, a: nat, n: i32)
    ensures
        rows::unsupported_text(ty) == "unsupported source type "@ + tensor::type_text(ty),
        rows::no_weights_text() == "iq2_xxs requires an imatrix (--imatrix)"@,
        rows::no_encoder_text(ty) == "no encoder for "@ + tensor::type_text(ty),
        recipe::source_text(name, ty) == name + ": source type "@ + tensor::type_text(ty)
            + " is not a float type"@,
        rewrite::self_check_text(a, a + 1) == "self-check: output has "@ + text::decimal(a)
            + " tensors, expected "@ + text::decimal(a + 1),
        shard::missing_text(name) == name + " missing and no --fetch-cmd given"@,
        shard::failed_text(name, status) == "fetch command failed ("@ + status + ") for "@ + name,
        shard::still_missing_text(name) == "fetch command succeeded but "@ + name
            + " still missing"@,
        imatrix::fault_text(imatrix::Fault::Truncated) == "imatrix truncated"@,
        imatrix::fault_text(imatrix::Fault::BadName) == "imatrix name not utf-8"@,
        n >= 0 ==> imatrix::fault_text(imatrix::Fault::Count(n))
            == "implausible imatrix entry count "@ + text::decimal(n as nat)
            + " (gguf-format imatrix? use the legacy .dat)"@,
        n < 0 ==> imatrix::fault_text(imatrix::Fault::Count(n))
            == "implausible imatrix entry count "@ + ("-"@ + text::decimal((-n) as nat))
            + " (gguf-format imatrix? use the legacy .dat)"@,
        writer::oversize_text(a, a + 1) == "header ("@ + text::decimal(a) + "B) exceeds reserve ("@
            + text::decimal(a + 1) + "B); rerun with --header-reserve "@ + text::decimal(
            a / 0x10_0000 + 8,
        ),
{
}

/// An entry of weights is read exactly where the whole of it is there, neither of its counts is
/// negative, and its name is UTF-8.
pub proof fn law_weights_entry_accepted(buf: Seq<u8>, at: nat)
    ensures
        imatrix::entry(buf, at) is Ok <==> {
            let len = bytes::le_nat(buf.subrange(at as int, at as int + 4)) as int;
            let n = bytes::le_nat(buf.subrange(at + 8 + len, at + 12 + len)) as int;
            &&& at + 4 <= buf.len()
            &&& len < 0x8000_0000
            &&& at + 12 + len <= buf.len()
            &&& valid_utf8(buf.subrange(at as int + 4, at + 4 + len))
            &&& n < 0x8000_0000
            &&& at + 12 + len + 4 * n <= buf.len()
        },
{
    bytes::lemma_pow256();
    if at + 4 <= buf.len() {
        bytes::lemma_le_bound(buf.subrange(at as int, at as int + 4));
        let len = bytes::le_nat(buf.subrange(at as int, at as int + 4));
        if at + 12 + len <= buf.len() {
            bytes::lemma_le_bound(buf.subrange(at as int + 8 + len, at as int + 12 + len));
        }
    }
}

/// Three-bit codebook blocks of a row: the factor first, and a sum and a scale for each of the eight
/// parts.
pub proof fn law_iq3_rows(r: q8row::SubDots, row: Seq<u8>, x: Q8KRow, b: int, grid: Seq<u32>, k: int)
    requires
        q8row::is_iq3_xxs_block(r, row, x, b, grid),
        0 <= b,
        row.len() >= 98 * b + 98,
        0 <= k < 8,
    ensures
        r.xd == x.d@[b],
        r.d == blocks::half_at(row, 98 * b),
        r.isums@.len() == 8,
        r.scales@.len() == 8,
        r.scales@[k] == bytes::le_nat(
            row.subrange(98 * b + 66 + 4 * k, 98 * b + 70 + 4 * k),
        ) as int / 0x1000_0000,
{
    let p = q8row::block(row, b, 98);
    assert(p[0] == row[98 * b] && p[1] == row[98 * b + 1]);
    assert(p.subrange(66 + 4 * k, 70 + 4 * k) =~= row.subrange(
        98 * b + 66 + 4 * k,
        98 * b + 70 + 4 * k,
    ));
}

} // verus!
