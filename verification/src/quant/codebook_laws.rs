//! What the codebook blocks mean, group by group, and how their signs and points are chosen.
use vstd::prelude::*;

use super::blocks;
use super::iq;
use super::iq_blocks;
use super::iq_encode;
use super::q8row;
use super::q8row::Q8KRow;
use crate::bytes;
use crate::fp;

verus! {

proof fn lemma_xxs_len(raw: Seq<u8>, grid: Seq<u64>, n: int)
    requires
        0 <= n,
    ensures
        iq_blocks::iq2_xxs_groups(raw, grid, n).len() == 8 * n,
    decreases n,
{
    if n > 0 {
        lemma_xxs_len(raw, grid, n - 1);
    }
}

/// Group `c` of a two-bit codebook block is the grid's word of its number, with the signs of its
/// place in the word of its part and one more than twice that word's scale.
pub proof fn law_iq2_xxs_group(raw: Seq<u8>, grid: Seq<u64>, n: int, c: int, i: int)
    requires
        0 <= c < n,
        0 <= i < 8,
    ensures
        iq_blocks::iq2_xxs_groups(raw, grid, n).len() == 8 * n,
        iq_blocks::iq2_xxs_groups(raw, grid, n)[8 * c + i] == iq_blocks::group_weights(
            grid[raw[2 + 8 * (c / 4) + c % 4] as int],
            iq_blocks::aux_signs(
                bytes::le_nat(raw.subrange(6 + 8 * (c / 4), 10 + 8 * (c / 4))),
                c % 4,
            ),
            2 * iq_blocks::aux_scale(
                bytes::le_nat(raw.subrange(6 + 8 * (c / 4), 10 + 8 * (c / 4))),
            ) + 1,
        )[i],
    decreases n,
{
    lemma_xxs_len(raw, grid, n);
    lemma_xxs_len(raw, grid, n - 1);
    if c < n - 1 {
        law_iq2_xxs_group(raw, grid, n - 1, c, i);
    }
}

proof fn lemma_xs_len(raw: Seq<u8>, grid: Seq<u64>, n: int)
    requires
        0 <= n,
    ensures
        iq_blocks::iq2_xs_groups(raw, grid, n).len() == 8 * n,
    decreases n,
{
    if n > 0 {
        lemma_xs_len(raw, grid, n - 1);
    }
}

/// Group `c` of the wider two-bit codebook: nine bits of grid number and seven of signs in two bytes,
/// and the scale of its half of a part.
pub proof fn law_iq2_xs_group(raw: Seq<u8>, grid: Seq<u64>, n: int, c: int, i: int)
    requires
        0 <= c < n,
        0 <= i < 8,
    ensures
        iq_blocks::iq2_xs_groups(raw, grid, n).len() == 8 * n,
        iq_blocks::iq2_xs_groups(raw, grid, n)[8 * c + i] == iq_blocks::group_weights(
            grid[blocks::half_at(raw, 2 + 2 * c) as int % 512],
            blocks::half_at(raw, 2 + 2 * c) as int / 512,
            iq_blocks::iq2_xs_scale(raw, c),
        )[i],
    decreases n,
{
    lemma_xs_len(raw, grid, n);
    lemma_xs_len(raw, grid, n - 1);
    if c < n - 1 {
        law_iq2_xs_group(raw, grid, n - 1, c, i);
    }
}

proof fn lemma_iq3_len(raw: Seq<u8>, grid: Seq<u32>, n: int)
    requires
        0 <= n,
    ensures
        iq_blocks::iq3_xxs_groups(raw, grid, n).len() == 8 * n,
    decreases n,
{
    if n > 0 {
        lemma_iq3_len(raw, grid, n - 1);
    }
}

/// Group `c` of a three-bit codebook block: two grid words of four levels, the first one first, with
/// the signs of its place; the scale of a part stands in the last words.
pub proof fn law_iq3_xxs_group(raw: Seq<u8>, grid: Seq<u32>, n: int, c: int, i: int, b: int)
    requires
        0 <= c < n,
        0 <= i < 8,
    ensures
        iq_blocks::iq3_xxs_groups(raw, grid, n).len() == 8 * n,
        iq_blocks::iq3_xxs_groups(raw, grid, n)[8 * c + i] == iq_blocks::group_weights(
            (grid[raw[2 + 2 * c] as int] + 0x1_0000_0000 * grid[raw[3 + 2 * c] as int]) as u64,
            iq_blocks::aux_signs(iq_blocks::iq3_xxs_aux(raw, c / 4), c % 4),
            1,
        )[i],
        iq_blocks::iq3_xxs_aux(raw, b) == bytes::le_nat(raw.subrange(66 + 4 * b, 70 + 4 * b)),
    decreases n,
{
    lemma_iq3_len(raw, grid, n);
    lemma_iq3_len(raw, grid, n - 1);
    if c < n - 1 {
        law_iq3_xxs_group(raw, grid, n - 1, c, i, b);
    }
}

/// Codebook blocks of a row: the block's factor stands first, and its levels go with those of the
/// activation's block of the same number.
pub proof fn law_codebook_rows(row: Seq<u8>, x: Q8KRow, b: int, grid: Seq<u64>)
    requires
        0 <= b,
        row.len() >= 74 * b + 74,
    ensures
        q8row::iq2_xxs_block(row, x, b, grid).xd == x.d@[b],
        q8row::iq2_xs_block(row, x, b, grid).xd == x.d@[b],
        q8row::iq2_xxs_block(row, x, b, grid).d == blocks::half_at(row, 66 * b),
        q8row::iq2_xs_block(row, x, b, grid).d == blocks::half_at(row, 74 * b),
        q8row::iq2_xxs_block(row, x, b, grid).dmin == 0,
        q8row::iq2_xs_block(row, x, b, grid).dmin == 0,
        q8row::iq2_xxs_block(row, x, b, grid).summs == 0,
        q8row::iq2_xs_block(row, x, b, grid).summs == 0,
{
    let p = q8row::block(row, b, 66);
    assert(p[0] == row[66 * b] && p[1] == row[66 * b + 1]);
    let q = q8row::block(row, b, 74);
    assert(q[0] == row[74 * b] && q[1] == row[74 * b + 1]);
}

proof fn lemma_count_update(neg: Seq<bool>, k: int, n: int)
    requires
        0 <= k < neg.len(),
        0 <= n <= neg.len(),
    ensures
        iq_blocks::count(neg.update(k, !neg[k]), n) == iq_blocks::count(neg, n) + if k < n {
            if neg[k] {
                -1int
            } else {
                1int
            }
        } else {
            0int
        },
    decreases n,
{
    if n > 0 {
        lemma_count_update(neg, k, n - 1);
    }
}

/// Signs are made even in number by flipping one, and only where they are odd.
pub proof fn law_even_signs(neg: Seq<bool>, k: int, i: int)
    requires
        neg.len() == 8,
        0 <= k < 8,
        0 <= i < 8,
    ensures
        iq_blocks::count(iq_blocks::even_signs(neg, k), 8) % 2 == 0,
        i != k ==> iq_blocks::even_signs(neg, k)[i] == neg[i],
        iq_blocks::count(neg, 8) % 2 == 0 ==> iq_blocks::even_signs(neg, k) == neg,
{
    lemma_count_update(neg, k, 8);
}

/// The sign bytes of a pattern are 255 for a minus and 1 for a plus, the first sign lowest.
pub proof fn law_sign_bytes(m: int, i: nat)
    requires
        0 <= m < 128,
        i < 8,
    ensures
        iq_blocks::ksign_byte(m, i as int) == if iq_blocks::bit(iq_blocks::full_signs(m), i as int)
            == 1 {
            255int
        } else {
            1int
        },
        iq_blocks::ksign_word(m, i) == iq_blocks::ksign_byte(m, i as int) + 256
            * iq_blocks::ksign_word(m, i + 1),
        iq_blocks::ksign_word(m, 8) == 0,
{
}

/// The distance of two points is the sum of the squares of their differences, place by place, and so
/// is the same both ways; a point has none from itself.
pub proof fn law_distance(p: nat, q: nat, n: nat)
    ensures
        iq::dist(p, q, 0) == 0,
        iq::dist(p, q, n + 1) == iq::dist(p, q, n) + 4 * (iq::digit(p, n) - iq::digit(q, n)) * (
        iq::digit(p, n) - iq::digit(q, n)),
        iq::dist(p, p, n) == 0,
        iq::dist(p, q, n) == iq::dist(q, p, n),
        iq::dist(p, q, n) >= 0,
        iq::coord(p, n) == 2 * iq::digit(p, n) + 1,
        iq::digit(p, 0) == p % 4,
    decreases n,
{
    let a = iq::digit(p, n) as int;
    let b = iq::digit(q, n) as int;
    assert((2 * a + 1 - (2 * b + 1)) * (2 * a + 1 - (2 * b + 1)) == 4 * (a - b) * (a - b))
        by (nonlinear_arith);
    if n > 0 {
        let k = (n - 1) as nat;
        law_distance(p, q, k);
        let c = iq::digit(p, k) as int;
        let d = iq::digit(q, k) as int;
        assert(4 * (c - d) * (c - d) == 4 * (d - c) * (d - c)) by (nonlinear_arith);
        assert(4 * (c - d) * (c - d) >= 0) by (nonlinear_arith);
        assert((2 * c + 1 - (2 * d + 1)) * (2 * c + 1 - (2 * d + 1)) == 4 * (c - d) * (c - d))
            by (nonlinear_arith);
        assert((2 * d + 1 - (2 * c + 1)) * (2 * d + 1 - (2 * c + 1)) == 4 * (d - c) * (d - c))
            by (nonlinear_arith);
        assert((2 * c + 1 - (2 * c + 1)) * (2 * c + 1 - (2 * c + 1)) == 0) by (nonlinear_arith);
    }
}

/// A point of the grid is found by its own number; any other point is found by its list of near
/// ones, and the lists stand one behind the other, each with its length in front.
pub proof fn law_points_found(p: nat, m: i32)
    ensures
        iq::on_grid(p) && iq::maps_to(p, m) ==> 0 <= m < 256 && iq::code(m as int) == p,
        !iq::on_grid(p) && iq::maps_to(p, m) ==> m < 0 && -m - 1 == iq::lists(p).len(),
        iq::on_grid(p) ==> iq::lists(p + 1) == iq::lists(p),
        !iq::on_grid(p) ==> iq::lists(p + 1) == iq::lists(p).push(iq::near(p).len() as u16)
            + iq::near(p),
        iq::lists(0) == Seq::<u16>::empty(),
{
}

/// The place of the least of several numbers: no other is less, and the first of equals counts.
pub proof fn law_least(v: Seq<u32>, n: int)
    requires
        1 <= n <= v.len(),
        forall|i: int| 0 <= i < n ==> !fp::is_nan(#[trigger] v[i]),
    ensures
        0 <= iq_encode::least_at(v, n) < n,
        forall|i: int| 0 <= i < n ==> !fp::gt(v[iq_encode::least_at(v, n)], #[trigger] v[i]),
        forall|i: int|
            0 <= i < iq_encode::least_at(v, n) ==> fp::gt(
                #[trigger] v[i],
                v[iq_encode::least_at(v, n)],
            ),
    decreases n,
{
    if n > 1 {
        law_least(v, n - 1);
    }
}

} // verus!
