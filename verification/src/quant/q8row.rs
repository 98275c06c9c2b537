//! Rows quantized to 8 bits, and their products with packed rows.
//!
//! A product comes as integers: one record per block, whose sums the caller scales by the block
//! scales and adds up.
use vstd::prelude::*;
use vstd::slice::slice_subrange;

use super::blocks;
use super::blocks::{read_half, QK_K};
use super::dots;
use super::dots::{group_sums, q2_k_sums, q3_k_sum, q4_k_sums};
use super::iq_blocks;
use super::iq_blocks::{
    iq2_xs_sum, iq2_xxs_sum, iq3_xxs_sums, IQ2_XS_BLOCK_BYTES, IQ2_XXS_BLOCK_BYTES,
    IQ3_XXS_BLOCK_BYTES,
};
use super::pack;
use super::pack::{Q2_K_BLOCK_BYTES, Q3_K_BLOCK_BYTES, Q4_K_BLOCK_BYTES};
use crate::bytes;
use crate::bytes::push_le;

verus! {

/// Bytes of a packed block of 256 elements: scale, elements, sums of groups of 16.
pub const Q8_K_BLOCK_BYTES: usize = 292;

/// A row quantized to 8 bits: per block of 256 a scale (the bit pattern of a single-precision
/// number), per element a level, per group of 16 the sum of its levels.
pub struct Q8KRow {
    pub d: Vec<u32>,
    pub qs: Vec<i8>,
    pub bsums: Vec<i32>,
}

impl Q8KRow {
    /// Whole blocks, with the sums of their groups.
    pub open spec fn wf(self) -> bool {
        &&& self.qs@.len() == 256 * self.d@.len()
        &&& dots::are_group_sums(self.qs@, self.bsums@)
    }

    /// A row of whole blocks, given scales and levels.
    pub fn new(d: Vec<u32>, qs: Vec<i8>) -> (r: Q8KRow)
        requires
            qs@.len() == 256 * d@.len(),
        ensures
            r.wf(),
            r.d@ == d@,
            r.qs@ == qs@,
    {
        let bsums = group_sums(qs.as_slice());
        Q8KRow { d, qs, bsums }
    }
}

/// The levels of block `b`.
pub open spec fn levels(x: Q8KRow, b: int) -> Seq<i8> {
    x.qs@.subrange(256 * b, 256 * b + 256)
}

/// The group sums of block `b`.
pub open spec fn sums(x: Q8KRow, b: int) -> Seq<i32> {
    x.bsums@.subrange(16 * b, 16 * b + 16)
}

proof fn lemma_block_sums(x: Q8KRow, b: int)
    requires
        x.wf(),
        0 <= b < x.d@.len(),
    ensures
        dots::are_group_sums(levels(x, b), sums(x, b)),
{
    assert forall|g: int| 0 <= g < 16 implies #[trigger] sums(x, b)[g] == dots::group_sum(
        levels(x, b),
        g,
        16,
    ) by {
        assert(sums(x, b)[g] == x.bsums@[16 * b + g]);
        lemma_group_shift(x, b, g, 16);
    }
}

proof fn lemma_group_shift(x: Q8KRow, b: int, g: int, n: int)
    requires
        x.wf(),
        0 <= b < x.d@.len(),
        0 <= g < 16,
        n <= 16,
    ensures
        dots::group_sum(x.qs@, 16 * b + g, n) == dots::group_sum(levels(x, b), g, n),
    decreases n,
{
    if n > 0 {
        lemma_group_shift(x, b, g, n - 1);
        assert(levels(x, b)[16 * g + n - 1] == x.qs@[16 * (16 * b + g) + n - 1]);
    }
}

/// The product of one block: the row's scale, the packed block's scale and minimum scale (half
/// precision), the sum of the weighted levels and the sum of the minima.
#[derive(Debug, Clone, Copy, PartialEq, Eq, Structural)]
pub struct BlockDot {
    pub xd: u32,
    pub d: u16,
    pub dmin: u16,
    pub isum: i32,
    pub summs: i32,
}

/// Block `b` of a packed row.
pub open spec fn block(row: Seq<u8>, b: int, size: int) -> Seq<u8> {
    row.subrange(size * b, size * b + size)
}

/// The product of block `b` of a `Q2_K` row.
pub open spec fn q2_k_block(row: Seq<u8>, x: Q8KRow, b: int) -> BlockDot {
    let raw = block(row, b, Q2_K_BLOCK_BYTES as int);
    BlockDot {
        xd: x.d@[b],
        d: blocks::half_at(raw, 80),
        dmin: blocks::half_at(raw, 82),
        isum: dots::dot(dots::q2_k_weights(raw), levels(x, b), 256) as i32,
        summs: dots::pair_sum(dots::q2_k_mins(raw), sums(x, b), 16) as i32,
    }
}

/// The products of the blocks of a `Q2_K` row of `n` elements.
pub fn vec_dot_q2_k_q8_k(row: &[u8], x: &Q8KRow, n: usize) -> (r: Vec<BlockDot>)
    requires
        x.wf(),
        n % 256 == 0,
        n / 256 <= x.d@.len(),
        (n / 256) * Q2_K_BLOCK_BYTES <= row@.len(),
    ensures
        r@.len() == n / 256,
        forall|b: int| 0 <= b < r@.len() ==> #[trigger] r@[b] == q2_k_block(row@, *x, b),
{
    let nb: usize = n / QK_K;
    let total: usize = row.len();
    let elems: usize = x.qs.len();
    let groups: usize = x.bsums.len();
    let mut out: Vec<BlockDot> = Vec::new();
    let mut b: usize = 0;
    while b < nb
        invariant
            b == out@.len() <= nb,
            nb == n / 256,
            nb <= x.d@.len(),
            total == row@.len(),
            elems == x.qs@.len(),
            groups == x.bsums@.len(),
            nb * Q2_K_BLOCK_BYTES <= total,
            x.wf(),
            forall|k: int| 0 <= k < b ==> #[trigger] out@[k] == q2_k_block(row@, *x, k),
        decreases nb - b,
    {
        assert((b + 1) * Q2_K_BLOCK_BYTES <= total) by (nonlinear_arith)
            requires
                b + 1 <= nb,
                nb * Q2_K_BLOCK_BYTES <= total,
        ;
        let blk = slice_subrange(row, b * Q2_K_BLOCK_BYTES, b * Q2_K_BLOCK_BYTES + Q2_K_BLOCK_BYTES);
        let q8 = slice_subrange(x.qs.as_slice(), b * 256, b * 256 + 256);
        assert(blk@ =~= block(row@, b as int, Q2_K_BLOCK_BYTES as int));
        assert(q8@ =~= levels(*x, b as int));
        proof {
            lemma_block_sums(*x, b as int);
        }
        let bs = slice_subrange(x.bsums.as_slice(), b * 16, b * 16 + 16);
        assert(bs@ =~= sums(*x, b as int));
        let (isum, summs): (i32, i32) = q2_k_sums(blk, q8, bs);
        out.push(
            BlockDot {
                xd: x.d[b],
                d: read_half(blk, 80),
                dmin: read_half(blk, 82),
                isum,
                summs,
            },
        );
        b = b + 1;
    }
    out
}

/// The product of block `b` of a `Q3_K` row.
pub open spec fn q3_k_block(row: Seq<u8>, x: Q8KRow, b: int) -> BlockDot {
    let raw = block(row, b, Q3_K_BLOCK_BYTES as int);
    BlockDot {
        xd: x.d@[b],
        d: blocks::half_at(raw, 108),
        dmin: 0,
        isum: dots::dot(dots::q3_k_weights(raw), levels(x, b), 256) as i32,
        summs: 0,
    }
}

/// The products of the blocks of a `Q3_K` row of `n` elements.
pub fn vec_dot_q3_k_q8_k(row: &[u8], x: &Q8KRow, n: usize) -> (r: Vec<BlockDot>)
    requires
        x.wf(),
        n % 256 == 0,
        n / 256 <= x.d@.len(),
        (n / 256) * Q3_K_BLOCK_BYTES <= row@.len(),
    ensures
        r@.len() == n / 256,
        forall|b: int| 0 <= b < r@.len() ==> #[trigger] r@[b] == q3_k_block(row@, *x, b),
{
    let nb: usize = n / QK_K;
    let total: usize = row.len();
    let elems: usize = x.qs.len();
    let groups: usize = x.bsums.len();
    let mut out: Vec<BlockDot> = Vec::new();
    let mut b: usize = 0;
    while b < nb
        invariant
            b == out@.len() <= nb,
            nb == n / 256,
            nb <= x.d@.len(),
            total == row@.len(),
            elems == x.qs@.len(),
            groups == x.bsums@.len(),
            nb * Q3_K_BLOCK_BYTES <= total,
            x.wf(),
            forall|k: int| 0 <= k < b ==> #[trigger] out@[k] == q3_k_block(row@, *x, k),
        decreases nb - b,
    {
        assert((b + 1) * Q3_K_BLOCK_BYTES <= total) by (nonlinear_arith)
            requires
                b + 1 <= nb,
                nb * Q3_K_BLOCK_BYTES <= total,
        ;
        let blk = slice_subrange(row, b * Q3_K_BLOCK_BYTES, b * Q3_K_BLOCK_BYTES + Q3_K_BLOCK_BYTES);
        let q8 = slice_subrange(x.qs.as_slice(), b * 256, b * 256 + 256);
        assert(blk@ =~= block(row@, b as int, Q3_K_BLOCK_BYTES as int));
        assert(q8@ =~= levels(*x, b as int));
        proof {
            lemma_block_sums(*x, b as int);
        }
        let isum: i32 = q3_k_sum(blk, q8);
        let summs: i32 = 0;
        out.push(
            BlockDot {
                xd: x.d[b],
                d: read_half(blk, 108),
                dmin: 0,
                isum,
                summs,
            },
        );
        b = b + 1;
    }
    out
}

/// The product of block `b` of a `Q4_K` row.
pub open spec fn q4_k_block(row: Seq<u8>, x: Q8KRow, b: int) -> BlockDot {
    let raw = block(row, b, Q4_K_BLOCK_BYTES as int);
    BlockDot {
        xd: x.d@[b],
        d: blocks::half_at(raw, 0),
        dmin: blocks::half_at(raw, 2),
        isum: dots::dot(dots::q4_k_weights(raw), levels(x, b), 256) as i32,
        summs: dots::pair_sum(dots::q4_k_mins(raw), sums(x, b), 16) as i32,
    }
}

/// The products of the blocks of a `Q4_K` row of `n` elements.
pub fn vec_dot_q4_k_q8_k(row: &[u8], x: &Q8KRow, n: usize) -> (r: Vec<BlockDot>)
    requires
        x.wf(),
        n % 256 == 0,
        n / 256 <= x.d@.len(),
        (n / 256) * Q4_K_BLOCK_BYTES <= row@.len(),
    ensures
        r@.len() == n / 256,
        forall|b: int| 0 <= b < r@.len() ==> #[trigger] r@[b] == q4_k_block(row@, *x, b),
{
    let nb: usize = n / QK_K;
    let total: usize = row.len();
    let elems: usize = x.qs.len();
    let groups: usize = x.bsums.len();
    let mut out: Vec<BlockDot> = Vec::new();
    let mut b: usize = 0;
    while b < nb
        invariant
            b == out@.len() <= nb,
            nb == n / 256,
            nb <= x.d@.len(),
            total == row@.len(),
            elems == x.qs@.len(),
            groups == x.bsums@.len(),
            nb * Q4_K_BLOCK_BYTES <= total,
            x.wf(),
            forall|k: int| 0 <= k < b ==> #[trigger] out@[k] == q4_k_block(row@, *x, k),
        decreases nb - b,
    {
        assert((b + 1) * Q4_K_BLOCK_BYTES <= total) by (nonlinear_arith)
            requires
                b + 1 <= nb,
                nb * Q4_K_BLOCK_BYTES <= total,
        ;
        let blk = slice_subrange(row, b * Q4_K_BLOCK_BYTES, b * Q4_K_BLOCK_BYTES + Q4_K_BLOCK_BYTES);
        let q8 = slice_subrange(x.qs.as_slice(), b * 256, b * 256 + 256);
        assert(blk@ =~= block(row@, b as int, Q4_K_BLOCK_BYTES as int));
        assert(q8@ =~= levels(*x, b as int));
        proof {
            lemma_block_sums(*x, b as int);
        }
        let bs = slice_subrange(x.bsums.as_slice(), b * 16, b * 16 + 16);
        assert(bs@ =~= sums(*x, b as int));
        let (isum, summs): (i32, i32) = q4_k_sums(blk, q8, bs);
        out.push(
            BlockDot {
                xd: x.d[b],
                d: read_half(blk, 0),
                dmin: read_half(blk, 2),
                isum,
                summs,
            },
        );
        b = b + 1;
    }
    out
}

/// The product of block `b` of a `IQ2_XXS` row.
pub open spec fn iq2_xxs_block(row: Seq<u8>, x: Q8KRow, b: int, grid: Seq<u64>) -> BlockDot {
    let raw = block(row, b, IQ2_XXS_BLOCK_BYTES as int);
    BlockDot {
        xd: x.d@[b],
        d: blocks::half_at(raw, 0),
        dmin: 0,
        isum: dots::dot(iq_blocks::iq2_xxs_groups(raw, grid, 32), levels(x, b), 256) as i32,
        summs: 0,
    }
}

/// The products of the blocks of a `IQ2_XXS` row of `n` elements.
pub fn vec_dot_iq2_xxs_q8_k(row: &[u8], x: &Q8KRow, n: usize, grid: &[u64]) -> (r: Vec<BlockDot>)
    requires
        x.wf(),
        n % 256 == 0,
        n / 256 <= x.d@.len(),
        (n / 256) * IQ2_XXS_BLOCK_BYTES <= row@.len(),
        grid@.len() == 256,
    ensures
        r@.len() == n / 256,
        forall|b: int| 0 <= b < r@.len() ==> #[trigger] r@[b] == iq2_xxs_block(row@, *x, b, grid@),
{
    let nb: usize = n / QK_K;
    let total: usize = row.len();
    let elems: usize = x.qs.len();
    let groups: usize = x.bsums.len();
    let mut out: Vec<BlockDot> = Vec::new();
    let mut b: usize = 0;
    while b < nb
        invariant
            b == out@.len() <= nb,
            nb == n / 256,
            nb <= x.d@.len(),
            total == row@.len(),
            elems == x.qs@.len(),
            groups == x.bsums@.len(),
            nb * IQ2_XXS_BLOCK_BYTES <= total,
            x.wf(),
            grid@.len() == 256,
            forall|k: int| 0 <= k < b ==> #[trigger] out@[k] == iq2_xxs_block(row@, *x, k, grid@),
        decreases nb - b,
    {
        assert((b + 1) * IQ2_XXS_BLOCK_BYTES <= total) by (nonlinear_arith)
            requires
                b + 1 <= nb,
                nb * IQ2_XXS_BLOCK_BYTES <= total,
        ;
        let blk = slice_subrange(row, b * IQ2_XXS_BLOCK_BYTES, b * IQ2_XXS_BLOCK_BYTES + IQ2_XXS_BLOCK_BYTES);
        let q8 = slice_subrange(x.qs.as_slice(), b * 256, b * 256 + 256);
        assert(blk@ =~= block(row@, b as int, IQ2_XXS_BLOCK_BYTES as int));
        assert(q8@ =~= levels(*x, b as int));
        proof {
            lemma_block_sums(*x, b as int);
        }
        let isum: i32 = iq2_xxs_sum(blk, q8, grid);
        let summs: i32 = 0;
        out.push(
            BlockDot {
                xd: x.d[b],
                d: read_half(blk, 0),
                dmin: 0,
                isum,
                summs,
            },
        );
        b = b + 1;
    }
    out
}

/// The product of block `b` of a `IQ2_XS` row.
pub open spec fn iq2_xs_block(row: Seq<u8>, x: Q8KRow, b: int, grid: Seq<u64>) -> BlockDot {
    let raw = block(row, b, IQ2_XS_BLOCK_BYTES as int);
    BlockDot {
        xd: x.d@[b],
        d: blocks::half_at(raw, 0),
        dmin: 0,
        isum: dots::dot(iq_blocks::iq2_xs_groups(raw, grid, 32), levels(x, b), 256) as i32,
        summs: 0,
    }
}

/// The products of the blocks of a `IQ2_XS` row of `n` elements.
pub fn vec_dot_iq2_xs_q8_k(row: &[u8], x: &Q8KRow, n: usize, grid: &[u64]) -> (r: Vec<BlockDot>)
    requires
        x.wf(),
        n % 256 == 0,
        n / 256 <= x.d@.len(),
        (n / 256) * IQ2_XS_BLOCK_BYTES <= row@.len(),
        grid@.len() == 512,
    ensures
        r@.len() == n / 256,
        forall|b: int| 0 <= b < r@.len() ==> #[trigger] r@[b] == iq2_xs_block(row@, *x, b, grid@),
{
    let nb: usize = n / QK_K;
    let total: usize = row.len();
    let elems: usize = x.qs.len();
    let groups: usize = x.bsums.len();
    let mut out: Vec<BlockDot> = Vec::new();
    let mut b: usize = 0;
    while b < nb
        invariant
            b == out@.len() <= nb,
            nb == n / 256,
            nb <= x.d@.len(),
            total == row@.len(),
            elems == x.qs@.len(),
            groups == x.bsums@.len(),
            nb * IQ2_XS_BLOCK_BYTES <= total,
            x.wf(),
            grid@.len() == 512,
            forall|k: int| 0 <= k < b ==> #[trigger] out@[k] == iq2_xs_block(row@, *x, k, grid@),
        decreases nb - b,
    {
        assert((b + 1) * IQ2_XS_BLOCK_BYTES <= total) by (nonlinear_arith)
            requires
                b + 1 <= nb,
                nb * IQ2_XS_BLOCK_BYTES <= total,
        ;
        let blk = slice_subrange(row, b * IQ2_XS_BLOCK_BYTES, b * IQ2_XS_BLOCK_BYTES + IQ2_XS_BLOCK_BYTES);
        let q8 = slice_subrange(x.qs.as_slice(), b * 256, b * 256 + 256);
        assert(blk@ =~= block(row@, b as int, IQ2_XS_BLOCK_BYTES as int));
        assert(q8@ =~= levels(*x, b as int));
        proof {
            lemma_block_sums(*x, b as int);
        }
        let isum: i32 = iq2_xs_sum(blk, q8, grid);
        let summs: i32 = 0;
        out.push(
            BlockDot {
                xd: x.d[b],
                d: read_half(blk, 0),
                dmin: 0,
                isum,
                summs,
            },
        );
        b = b + 1;
    }
    out
}

/// The product of one block whose sub-blocks have their own scales: the row's scale, the block's
/// scale, and sum and scale of each sub-block.
pub struct SubDots {
    pub xd: u32,
    pub d: u16,
    pub isums: Vec<i32>,
    pub scales: Vec<i32>,
}

/// A record says what block `b` of an `IQ3_XXS` row gives.
pub open spec fn is_iq3_xxs_block(r: SubDots, row: Seq<u8>, x: Q8KRow, b: int, grid: Seq<u32>) -> bool {
    let raw = block(row, b, IQ3_XXS_BLOCK_BYTES as int);
    let w = iq_blocks::iq3_xxs_groups(raw, grid, 32);
    &&& r.xd == x.d@[b]
    &&& r.d == blocks::half_at(raw, 0)
    &&& r.isums@.len() == 8
    &&& r.scales@.len() == 8
    &&& forall|k: int|
        0 <= k < 8 ==> #[trigger] r.isums@[k] == dots::dot(
            w.subrange(32 * k, 32 * k + 32),
            levels(x, b).subrange(32 * k, 32 * k + 32),
            32,
        )
    &&& forall|k: int|
        0 <= k < 8 ==> #[trigger] r.scales@[k] == iq_blocks::aux_scale(
            iq_blocks::iq3_xxs_aux(raw, k),
        )
}

/// The products of the blocks of an `IQ3_XXS` row of `n` elements.
pub fn vec_dot_iq3_xxs_q8_k(row: &[u8], x: &Q8KRow, n: usize, grid: &[u32]) -> (r: Vec<SubDots>)
    requires
        x.wf(),
        n % 256 == 0,
        n / 256 <= x.d@.len(),
        (n / 256) * IQ3_XXS_BLOCK_BYTES <= row@.len(),
        grid@.len() == 256,
    ensures
        r@.len() == n / 256,
        forall|b: int|
            0 <= b < r@.len() ==> is_iq3_xxs_block(#[trigger] r@[b], row@, *x, b, grid@),
{
    let nb: usize = n / QK_K;
    let total: usize = row.len();
    let elems: usize = x.qs.len();
    let mut out: Vec<SubDots> = Vec::new();
    let mut b: usize = 0;
    while b < nb
        invariant
            b == out@.len() <= nb,
            nb == n / 256,
            nb <= x.d@.len(),
            total == row@.len(),
            elems == x.qs@.len(),
            nb * IQ3_XXS_BLOCK_BYTES <= total,
            x.wf(),
            grid@.len() == 256,
            forall|k: int|
                0 <= k < b ==> is_iq3_xxs_block(#[trigger] out@[k], row@, *x, k, grid@),
        decreases nb - b,
    {
        assert((b + 1) * IQ3_XXS_BLOCK_BYTES <= total) by (nonlinear_arith)
            requires
                b + 1 <= nb,
                nb * IQ3_XXS_BLOCK_BYTES <= total,
        ;
        let blk = slice_subrange(row, b * IQ3_XXS_BLOCK_BYTES, b * IQ3_XXS_BLOCK_BYTES
            + IQ3_XXS_BLOCK_BYTES);
        let q8 = slice_subrange(x.qs.as_slice(), b * 256, b * 256 + 256);
        assert(blk@ =~= block(row@, b as int, IQ3_XXS_BLOCK_BYTES as int));
        assert(q8@ =~= levels(*x, b as int));
        let (isums, scales) = iq3_xxs_sums(blk, q8, grid);
        let rec = SubDots { xd: x.d[b], d: read_half(blk, 0), isums, scales };
        assert(is_iq3_xxs_block(rec, row@, *x, b as int, grid@));
        out.push(rec);
        b = b + 1;
    }
    out
}

/// The bytes of block `b`: scale, levels, group sums in 16 bits.
pub open spec fn packed_block(x: Q8KRow, b: int) -> Seq<u8> {
    bytes::le_bytes(x.d@[b] as nat, 4) + level_bytes(levels(x, b)) + sum_bytes(sums(x, b))
}

/// Levels as bytes.
pub open spec fn level_bytes(q: Seq<i8>) -> Seq<u8> {
    q.map_values(|v: i8| v as u8)
}

/// Sums in 16 bits each.
pub open spec fn sum_bytes(b: Seq<i32>) -> Seq<u8>
    decreases b.len(),
{
    if b.len() == 0 {
        Seq::empty()
    } else {
        sum_bytes(b.drop_last()) + pack::half(b.last() as i16 as u16)
    }
}

/// The bytes of the first `n` blocks.
pub open spec fn packed(x: Q8KRow, n: int) -> Seq<u8>
    decreases n,
{
    if n <= 0 {
        Seq::empty()
    } else {
        packed(x, n - 1) + packed_block(x, n - 1)
    }
}

/// Packs a row.
pub fn k3_pack_q8_row(x: &Q8KRow) -> (r: Vec<u8>)
    requires
        x.wf(),
    ensures
        r@ == packed(*x, x.d@.len() as int),
{
    let nb: usize = x.d.len();
    let elems: usize = x.qs.len();
    let groups: usize = x.bsums.len();
    let mut out: Vec<u8> = Vec::new();
    let mut b: usize = 0;
    while b < nb
        invariant
            b <= nb,
            nb == x.d@.len(),
            elems == x.qs@.len(),
            groups == x.bsums@.len(),
            x.wf(),
            out@ == packed(*x, b as int),
        decreases nb - b,
    {
        let ghost start = out@;
        push_le(&mut out, x.d[b] as u64, 4);
        let ghost mid = out@;
        let q = slice_subrange(x.qs.as_slice(), b * 256, b * 256 + 256);
        assert(q@ =~= levels(*x, b as int));
        push_levels(&mut out, q);
        let s = slice_subrange(x.bsums.as_slice(), b * 16, b * 16 + 16);
        assert(s@ =~= sums(*x, b as int));
        push_sums(&mut out, s);
        assert(out@ =~= start + packed_block(*x, b as int));
        b = b + 1;
    }
    out
}

/// Appends levels as bytes.
fn push_levels(out: &mut Vec<u8>, q: &[i8])
    ensures
        final(out)@ == old(out)@ + level_bytes(q@),
{
    let mut i: usize = 0;
    assert(out@ =~= out@ + level_bytes(q@).take(0));
    while i < q.len()
        invariant
            i <= q@.len(),
            out@ == old(out)@ + level_bytes(q@).take(i as int),
        decreases q@.len() - i,
    {
        out.push(q[i] as u8);
        assert(out@ =~= old(out)@ + level_bytes(q@).take(i + 1));
        i = i + 1;
    }
    assert(level_bytes(q@).take(i as int) =~= level_bytes(q@));
}

/// Appends sums in 16 bits each.
fn push_sums(out: &mut Vec<u8>, b: &[i32])
    ensures
        final(out)@ == old(out)@ + sum_bytes(b@),
{
    let mut i: usize = 0;
    assert(b@.take(0) =~= Seq::<i32>::empty());
    while i < b.len()
        invariant
            i <= b@.len(),
            out@ == old(out)@ + sum_bytes(b@.take(i as int)),
        decreases b@.len() - i,
    {
        pack::push_half(out, b[i] as i16 as u16);
        assert(b@.take(i + 1).drop_last() =~= b@.take(i as int));
        assert(out@ =~= old(out)@ + sum_bytes(b@.take(i + 1)));
        i = i + 1;
    }
    assert(b@.take(i as int) =~= b@);
}

/// Scale of block `b` of packed bytes.
pub open spec fn packed_scale(raw: Seq<u8>, b: int) -> nat {
    bytes::le_nat(raw.subrange(292 * b, 292 * b + 4))
}

/// Level `i` of packed bytes.
pub open spec fn packed_level(raw: Seq<u8>, i: int) -> i8 {
    raw[292 * (i / 256) + 4 + i % 256] as i8
}

/// Reads `n` elements back: the scales of their blocks and their levels.
pub fn k3_reconstruct_q8(raw: &[u8], n: usize) -> (r: (Vec<u32>, Vec<i8>))
    requires
        ((n + 255) / 256) * Q8_K_BLOCK_BYTES <= raw@.len(),
    ensures
        r.0@.len() == (n + 255) / 256,
        forall|b: int| 0 <= b < r.0@.len() ==> #[trigger] r.0@[b] == packed_scale(raw@, b),
        r.1@.len() == n,
        forall|i: int| 0 <= i < n ==> #[trigger] r.1@[i] == packed_level(raw@, i),
{
    let total: usize = raw.len();
    let nb: usize = (n + 255) / 256;
    let mut d: Vec<u32> = Vec::new();
    let mut b: usize = 0;
    while b < nb
        invariant
            b == d@.len() <= nb,
            nb * Q8_K_BLOCK_BYTES <= total == raw@.len(),
            forall|k: int| 0 <= k < b ==> #[trigger] d@[k] == packed_scale(raw@, k),
        decreases nb - b,
    {
        proof {
            bytes::lemma_pow256();
            bytes::lemma_le_bound(raw@.subrange(292 * b, 292 * b + 4));
        }
        d.push(bytes::read_le(slice_subrange(raw, 292 * b, 292 * b + 4)) as u32);
        b = b + 1;
    }
    let mut q: Vec<i8> = Vec::new();
    let mut i: usize = 0;
    while i < n
        invariant
            i == q@.len() <= n,
            n <= usize::MAX - 255,
            nb == (n + 255) / 256,
            nb * Q8_K_BLOCK_BYTES <= total == raw@.len(),
            forall|k: int| 0 <= k < i ==> #[trigger] q@[k] == packed_level(raw@, k),
        decreases n - i,
    {
        assert(i / 256 < nb);
        q.push(raw[292 * (i / 256) + 4 + i % 256] as i8);
        i = i + 1;
    }
    (d, q)
}

proof fn lemma_sum_bytes_len(b: Seq<i32>)
    ensures
        sum_bytes(b).len() == 2 * b.len(),
    decreases b.len(),
{
    if b.len() > 0 {
        lemma_sum_bytes_len(b.drop_last());
    }
}

proof fn lemma_packed_len(x: Q8KRow, n: int)
    requires
        x.wf(),
        0 <= n <= x.d@.len(),
    ensures
        packed(x, n).len() == 292 * n,
    decreases n,
{
    if n > 0 {
        lemma_packed_len(x, n - 1);
        lemma_sum_bytes_len(sums(x, n - 1));
        bytes::lemma_pow256();
        bytes::lemma_le_roundtrip(x.d@[n - 1] as nat, 4);
    }
}

proof fn lemma_packed_at(x: Q8KRow, n: int, b: int)
    requires
        x.wf(),
        0 <= b < n <= x.d@.len(),
    ensures
        packed(x, n).len() == 292 * n,
        packed(x, n).subrange(292 * b, 292 * b + 292) == packed_block(x, b),
    decreases n,
{
    lemma_packed_len(x, n);
    lemma_packed_len(x, n - 1);
    let p = packed(x, n);
    if b < n - 1 {
        lemma_packed_at(x, n - 1, b);
        assert(p.subrange(292 * b, 292 * b + 292) =~= packed(x, n - 1).subrange(
            292 * b,
            292 * b + 292,
        ));
    } else {
        assert(p.subrange(292 * b, 292 * b + 292) =~= packed_block(x, b));
    }
}

/// A packed row gives back its scales and its levels.
pub proof fn law_pack_q8_row(x: Q8KRow, i: int)
    requires
        x.wf(),
        0 <= i < x.qs@.len(),
    ensures
        ({
            let raw = packed(x, x.d@.len() as int);
            &&& raw.len() == Q8_K_BLOCK_BYTES * x.d@.len()
            &&& packed_scale(raw, i / 256) == x.d@[i / 256]
            &&& packed_level(raw, i) == x.qs@[i]
        }),
{
    let n = x.d@.len() as int;
    let raw = packed(x, n);
    let b = i / 256;
    lemma_packed_at(x, n, b);
    bytes::lemma_pow256();
    bytes::lemma_le_roundtrip(x.d@[b] as nat, 4);
    let blk = packed_block(x, b);
    let w = raw.subrange(292 * b, 292 * b + 292);
    assert(raw.subrange(292 * b, 292 * b + 4) =~= w.subrange(0, 4));
    assert(w.subrange(0, 4) =~= bytes::le_bytes(x.d@[b] as nat, 4));
    assert(raw[292 * b + 4 + i % 256] == w[4 + i % 256]);
    assert(w[4 + i % 256] == level_bytes(levels(x, b))[i % 256]);
    assert(levels(x, b)[i % 256] == x.qs@[i]);
    let v = x.qs@[i];
    assert(v as u8 as i8 == v) by (bit_vector);
}

} // verus!
