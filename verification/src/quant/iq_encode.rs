//! Choosing codebook points for groups of eight levels. Distances come in as bit patterns of
//! single-precision numbers.
use vstd::prelude::*;

use super::iq;
use super::iq::{grid_bytes, Iq2Tables, KMAP_SIZE};
use crate::fp;
use crate::fp::f32_gt;

verus! {

/// Bit pattern of the greatest finite single-precision number.
pub const F32_MAX_BITS: u32 = 0x7f7f_ffff;

/// Levels that the encoder gives an element are below this.
pub const LEVELS: i8 = 3;

/// The number whose base-4 digits are the levels from `k` on.
pub open spec fn code_of(ls: Seq<i8>, k: nat) -> nat
    decreases 8 - k,
{
    if k >= 8 {
        0
    } else {
        (ls[k as int] + 4 * code_of(ls, k + 1)) as nat
    }
}

/// Eight levels, each a digit.
pub open spec fn are_levels(ls: Seq<i8>) -> bool {
    ls.len() == 8 && forall|k: int| 0 <= k < 8 ==> 0 <= #[trigger] ls[k] < LEVELS
}

/// Every digit is between zero and three.
spec fn are_digits(ls: Seq<i8>) -> bool {
    ls.len() == 8 && forall|k: int| 0 <= k < 8 ==> 0 <= #[trigger] ls[k] < 4
}

proof fn lemma_shifted(ls: Seq<i8>, k: nat)
    requires
        are_digits(ls),
        k <= 8,
    ensures
        iq::shifted(code_of(ls, 0), k) == code_of(ls, k),
    decreases k,
{
    if k > 0 {
        let j = (k - 1) as nat;
        lemma_shifted(ls, j);
        assert(0 <= ls[j as int] < 4);
        assert(code_of(ls, j) / 4 == code_of(ls, k));
    }
}

/// The digits of a code are the levels it was made of.
pub proof fn law_code_digits(ls: Seq<i8>, k: nat)
    requires
        are_levels(ls),
        k < 8,
    ensures
        iq::digit(code_of(ls, 0), k) == ls[k as int],
{
    assert(are_digits(ls));
    lemma_shifted(ls, k);
    assert(0 <= ls[k as int] < 4);
}

/// The code of eight levels.
pub fn level_code(ls: &[i8]) -> (r: usize)
    requires
        are_levels(ls@),
    ensures
        r as nat == code_of(ls@, 0),
        r < KMAP_SIZE,
{
    assert(ls@[0] < 3 && ls@[1] < 3 && ls@[2] < 3 && ls@[3] < 3);
    assert(ls@[4] < 3 && ls@[5] < 3 && ls@[6] < 3 && ls@[7] < 3);
    assert(ls@[0] >= 0 && ls@[1] >= 0 && ls@[2] >= 0 && ls@[3] >= 0);
    assert(ls@[4] >= 0 && ls@[5] >= 0 && ls@[6] >= 0 && ls@[7] >= 0);
    proof {
        reveal_with_fuel(code_of, 9);
    }
    ls[0] as usize + 4 * (ls[1] as usize + 4 * (ls[2] as usize + 4 * (ls[3] as usize + 4 * (
    ls[4] as usize + 4 * (ls[5] as usize + 4 * (ls[6] as usize + 4 * ls[7] as usize))))))
}

/// The levels of a codebook point.
pub open spec fn point_levels(j: int) -> Seq<i8> {
    Seq::new(8, |k: int| iq::digit(iq::code(j), k as nat) as i8)
}

proof fn lemma_code_of_digits(j: int, k: nat)
    requires
        0 <= j < 256,
        k <= 8,
    ensures
        code_of(point_levels(j), k) == iq::shifted(iq::code(j), k),
    decreases 8 - k,
{
    if k == 8 {
        reveal_with_fuel(iq::shifted, 9);
        assert(iq::code(j) < 0x1_0000);
        lemma_shift_out(iq::code(j));
    } else {
        lemma_code_of_digits(j, k + 1);
        let s = iq::shifted(iq::code(j), k);
        assert(iq::shifted(iq::code(j), k + 1) == s / 4);
        assert(point_levels(j)[k as int] == s % 4);
    }
}

proof fn lemma_shift_out(p: nat)
    requires
        p < 0x1_0000,
    ensures
        iq::shifted(p, 8) == 0,
{
    reveal_with_fuel(iq::shifted, 9);
    let a = p / 4;
    assert(a < 0x4000);
    let b = a / 4;
    assert(b < 0x1000);
    let c = b / 4;
    assert(c < 0x400);
    let d = c / 4;
    assert(d < 0x100);
    let e = d / 4;
    assert(e < 0x40);
    let f = e / 4;
    assert(f < 0x10);
    let g = f / 4;
    assert(g < 4);
}

/// The levels of a codebook point have its code: a group that took the levels of a point is found
/// in the codebook again.
pub proof fn law_point_levels(j: int)
    requires
        0 <= j < 256,
    ensures
        code_of(point_levels(j), 0) == iq::code(j),
        iq::on_grid(code_of(point_levels(j), 0)),
{
    lemma_code_of_digits(j, 0);
}

impl Iq2Tables {
    /// The levels of a codebook point.
    pub fn levels(&self, j: usize) -> (r: Vec<i8>)
        requires
            self.wf(),
            j < 256,
        ensures
            r@ == point_levels(j as int),
    {
        let gb = grid_bytes(self.grid[j]);
        let mut r: Vec<i8> = Vec::new();
        let mut k: usize = 0;
        while k < 8
            invariant
                k <= 8,
                j < 256,
                self.wf(),
                gb@.len() == 8,
                forall|i: int|
                    0 <= i < 8 ==> #[trigger] gb@[i] == iq::word_byte(self.grid@[j as int], i as nat) as i8,
                r@ == point_levels(j as int).take(k as int),
            decreases 8 - k,
        {
            proof {
                iq::law_grid_bytes(j as int, k as nat);
                assert(self.grid@[j as int] == iq::word(iq::code(j as int), 0));
                assert(gb@[k as int] == iq::coord(iq::code(j as int), k as nat));
            }
            r.push((gb[k] - 1) / 2);
            assert(r@ =~= point_levels(j as int).take(k + 1));
            k = k + 1;
        }
        assert(point_levels(j as int).take(8) =~= point_levels(j as int));
        r
    }
}

/// Among the first `n` candidates, the first at the least distance below the greatest finite
/// number, with that distance. A distance that is no number is never the least.
pub open spec fn closest_of(cands: Seq<u16>, d2: Seq<u32>, n: int) -> (Option<u16>, u32)
    decreases n,
{
    if n <= 0 {
        (None, F32_MAX_BITS)
    } else {
        let (j, best) = closest_of(cands, d2, n - 1);
        if fp::gt(best, d2[n - 1]) {
            (Some(cands[n - 1]), d2[n - 1])
        } else {
            (j, best)
        }
    }
}

/// The candidate at the least distance.
pub fn closest(cands: &[u16], d2: &[u32]) -> (r: Option<u16>)
    requires
        cands@.len() == d2@.len(),
    ensures
        r == closest_of(cands@, d2@, cands@.len() as int).0,
{
    let mut best: u32 = F32_MAX_BITS;
    let mut pick: Option<u16> = None;
    let n: usize = cands.len();
    let mut i: usize = 0;
    while i < n
        invariant
            i <= n,
            n == cands@.len() == d2@.len(),
            (pick, best) == closest_of(cands@, d2@, i as int),
        decreases n - i,
    {
        if f32_gt(best, d2[i]) {
            best = d2[i];
            pick = Some(cands[i]);
        }
        i = i + 1;
    }
    pick
}

/// No candidate is closer than the one chosen, and one before it is farther.
pub proof fn law_closest(cands: Seq<u16>, d2: Seq<u32>, n: int)
    requires
        0 <= n <= cands.len(),
        cands.len() == d2.len(),
    ensures
        ({
            let (j, best) = closest_of(cands, d2, n);
            &&& !fp::is_nan(best)
            &&& forall|i: int| 0 <= i < n ==> !fp::gt(best, #[trigger] d2[i])
            &&& j matches Some(c) ==> exists|i: int|
                0 <= i < n && #[trigger] d2[i] == best && cands[i] == c && forall|k: int|
                    0 <= k < i ==> !fp::is_nan(#[trigger] d2[k]) ==> fp::gt(d2[k], best)
            &&& j is None ==> best == F32_MAX_BITS
        }),
    decreases n,
{
    if n > 0 {
        law_closest(cands, d2, n - 1);
        let (j0, best0) = closest_of(cands, d2, n - 1);
        let d = d2[n - 1];
        if fp::gt(best0, d) {
            assert forall|k: int| 0 <= k < n - 1 && !fp::is_nan(#[trigger] d2[k]) implies fp::gt(
                d2[k],
                d,
            ) by {
                assert(!fp::gt(best0, d2[k]));
            }
            assert(d2[n - 1] == d && cands[n - 1] == cands[n - 1]);
        } else {
            if j0 is Some {
                let i = choose|i: int|
                    0 <= i < n - 1 && #[trigger] d2[i] == best0 && cands[i] == j0->0 && forall|k: int|
                        0 <= k < i ==> !fp::is_nan(#[trigger] d2[k]) ==> fp::gt(d2[k], best0);
                assert(d2[i] == best0 && cands[i] == j0->0);
            }
        }
    }
}

/// The first place of the least value among the first `n`.
pub open spec fn least_at(v: Seq<u32>, n: int) -> int
    decreases n,
{
    if n <= 1 {
        0
    } else {
        let i = least_at(v, n - 1);
        if fp::gt(v[i], v[n - 1]) {
            n - 1
        } else {
            i
        }
    }
}

/// The first place of the least value: the element whose sign costs least to flip.
pub fn least_place(v: &[u32]) -> (r: usize)
    requires
        v@.len() > 0,
    ensures
        r == least_at(v@, v@.len() as int),
        r < v@.len(),
{
    let n: usize = v.len();
    let mut r: usize = 0;
    let mut i: usize = 1;
    while i < n
        invariant
            1 <= i <= n,
            n == v@.len(),
            r < i,
            r == least_at(v@, i as int),
        decreases n - i,
    {
        if f32_gt(v[r], v[i]) {
            r = i;
        }
        i = i + 1;
    }
    r
}

} // verus!
