//! The integer side of block dot products: weights of a block and their sums against a row of
//! signed bytes.
//!
//! A block stands for 256 integer weights times its scale. Every sum below is exact, so any order
//! of summation gives it.
use vstd::prelude::*;
use vstd::slice::slice_subrange;

use super::blocks;
use super::blocks::{read_crumb, read_high_bit, read_nibble};
use super::pack;
use super::pack::{Q2_K_BLOCK_BYTES, Q3_K_BLOCK_BYTES, Q4_K_BLOCK_BYTES};
use super::scales;
use super::scales::{k3_scales, k4_scale_min};

verus! {

/// The sum of the first `n` products.
pub open spec fn dot(w: Seq<int>, x: Seq<i8>, n: int) -> int
    decreases n,
{
    if n <= 0 {
        0
    } else {
        dot(w, x, n - 1) + w[n - 1] * x[n - 1]
    }
}

/// What a run of machine integers says.
pub open spec fn ints(w: Seq<i32>) -> Seq<int> {
    w.map_values(|v: i32| v as int)
}

/// Every weight lies within `b` of zero.
pub open spec fn within(w: Seq<i32>, b: int) -> bool {
    forall|i: int| 0 <= i < w.len() ==> -b <= #[trigger] w[i] <= b
}

/// Multiplies and sums.
pub fn dot_i8(w: &[i32], x: &[i8]) -> (r: i32)
    requires
        w@.len() == x@.len() <= 256,
        within(w@, 4096),
    ensures
        r == dot(ints(w@), x@, w@.len() as int),
{
    let mut acc: i32 = 0;
    let mut i: usize = 0;
    while i < w.len()
        invariant
            i <= w@.len() == x@.len() <= 256,
            within(w@, 4096),
            acc == dot(ints(w@), x@, i as int),
            -(i * 0x8_0000) <= acc <= i * 0x8_0000,
        decreases w@.len() - i,
    {
        let a: i32 = w[i];
        let b: i32 = x[i] as i32;
        assert(-0x8_0000 <= a * b <= 0x8_0000) by (nonlinear_arith)
            requires
                -4096 <= a <= 4096,
                -128 <= b <= 127,
        ;
        acc = acc + a * b;
        i = i + 1;
    }
    acc
}

/// What lane `l` of `k` adds up of the first `n` products: every `k`-th of them.
pub open spec fn lane(w: Seq<int>, x: Seq<i8>, n: int, k: int, l: int) -> int
    decreases n,
{
    if n <= 0 {
        0
    } else if (n - 1) % k == l {
        lane(w, x, n - 1, k, l) + w[n - 1] * x[n - 1]
    } else {
        lane(w, x, n - 1, k, l)
    }
}

/// The sum of the first `m` of `k` lanes.
pub open spec fn lane_total(w: Seq<int>, x: Seq<i8>, n: int, k: int, m: int) -> int
    decreases m,
{
    if m <= 0 {
        0
    } else {
        lane_total(w, x, n, k, m - 1) + lane(w, x, n, k, m - 1)
    }
}

proof fn lemma_lane_step(w: Seq<int>, x: Seq<i8>, n: int, k: int, m: int)
    requires
        0 < n,
        0 < k,
        0 <= m,
    ensures
        lane_total(w, x, n, k, m) == lane_total(w, x, n - 1, k, m) + if (n - 1) % k < m {
            w[n - 1] * x[n - 1]
        } else {
            0
        },
    decreases m,
{
    assert(0 <= (n - 1) % k) by (nonlinear_arith)
        requires
            0 < n,
            0 < k,
    ;
    if m > 0 {
        lemma_lane_step(w, x, n, k, m - 1);
    }
}

/// However many lanes a sum of products is split over, the lanes come to the sum.
pub proof fn law_lanes(w: Seq<int>, x: Seq<i8>, n: int, k: int)
    requires
        0 < k,
    ensures
        lane_total(w, x, n, k, k) == dot(w, x, n),
    decreases n,
{
    if n > 0 {
        law_lanes(w, x, n - 1, k);
        lemma_lane_step(w, x, n, k, k);
        assert((n - 1) % k < k) by (nonlinear_arith)
            requires
                0 < n,
                0 < k,
        ;
    } else {
        lemma_no_lanes(w, x, n, k, k);
    }
}

proof fn lemma_no_lanes(w: Seq<int>, x: Seq<i8>, n: int, k: int, m: int)
    requires
        n <= 0,
    ensures
        lane_total(w, x, n, k, m) == 0,
    decreases m,
{
    if m > 0 {
        lemma_no_lanes(w, x, n, k, m - 1);
    }
}

/// A factor that a run of weights shares can be taken out of their sum.
pub proof fn law_shared_factor(w: Seq<int>, x: Seq<i8>, n: int, c: int)
    requires
        n <= w.len(),
    ensures
        dot(w.map_values(|v: int| c * v), x, n) == c * dot(w, x, n),
    decreases n,
{
    if n > 0 {
        law_shared_factor(w, x, n - 1, c);
        let (s, v, b) = (dot(w, x, n - 1), w[n - 1], x[n - 1] as int);
        assert(c * s + (c * v) * b == c * (s + v * b)) by (nonlinear_arith);
    } else {
        assert(c * dot(w, x, n) == 0) by (nonlinear_arith)
            requires
                dot(w, x, n) == 0,
        ;
    }
}

/// The sum over two runs of weights is the sum of both.
pub proof fn law_runs(a: Seq<int>, b: Seq<int>, x: Seq<i8>, n: int)
    requires
        0 <= n <= b.len(),
        a.len() + n <= x.len(),
    ensures
        dot(a + b, x, a.len() + n) == dot(a, x, a.len() as int) + dot(
            b,
            x.skip(a.len() as int),
            n,
        ),
    decreases n,
{
    let m = a.len() as int;
    if n > 0 {
        law_runs(a, b, x, n - 1);
        assert((a + b)[m + n - 1] == b[n - 1]);
        assert(x.skip(m)[n - 1] == x[m + n - 1]);
    } else {
        lemma_first_run(a, b, x, m);
    }
}

proof fn lemma_first_run(a: Seq<int>, b: Seq<int>, x: Seq<i8>, n: int)
    requires
        n <= a.len(),
    ensures
        dot(a + b, x, n) == dot(a, x, n),
    decreases n,
{
    if n > 0 {
        lemma_first_run(a, b, x, n - 1);
        assert((a + b)[n - 1] == a[n - 1]);
    }
}

/// The sum of group `g` of 16 elements.
pub open spec fn group_sum(x: Seq<i8>, g: int, n: int) -> int
    decreases n,
{
    if n <= 0 {
        0
    } else {
        group_sum(x, g, n - 1) + x[16 * g + n - 1]
    }
}

/// `b` holds the sum of each group of 16 elements of `x`.
pub open spec fn are_group_sums(x: Seq<i8>, b: Seq<i32>) -> bool {
    &&& x.len() == 16 * b.len()
    &&& forall|g: int| 0 <= g < b.len() ==> #[trigger] b[g] == group_sum(x, g, 16)
}

/// The sum of each group of 16 elements.
pub fn group_sums(x: &[i8]) -> (r: Vec<i32>)
    requires
        x@.len() % 16 == 0,
    ensures
        are_group_sums(x@, r@),
        forall|g: int| 0 <= g < r@.len() ==> -2048 <= #[trigger] r@[g] <= 2032,
{
    let len: usize = x.len();
    let n: usize = len / 16;
    let mut r: Vec<i32> = Vec::new();
    let mut g: usize = 0;
    while g < n
        invariant
            g == r@.len() <= n,
            16 * n == x@.len() == len,
            forall|k: int| 0 <= k < g ==> #[trigger] r@[k] == group_sum(x@, k, 16),
            forall|k: int| 0 <= k < g ==> -2048 <= #[trigger] r@[k] <= 2032,
        decreases n - g,
    {
        let mut acc: i32 = 0;
        let mut i: usize = 0;
        while i < 16
            invariant
                i <= 16,
                g < n,
                16 * n == x@.len() == len,
                acc == group_sum(x@, g as int, i as int),
                -128 * i <= acc <= 127 * i,
            decreases 16 - i,
        {
            acc = acc + x[16 * g + i] as i32;
            i = i + 1;
        }
        r.push(acc);
        g = g + 1;
    }
    r
}

/// Sums of 16 signed bytes are small.
proof fn lemma_group_bound(x: Seq<i8>, g: int, n: int)
    requires
        0 <= n <= 16,
    ensures
        -128 * n <= group_sum(x, g, n) <= 127 * n,
    decreases n,
{
    if n > 0 {
        lemma_group_bound(x, g, n - 1);
    }
}

/// The sum of `m[g] * b[g]` over the first `n` groups.
pub open spec fn pair_sum(m: Seq<int>, b: Seq<i32>, n: int) -> int
    decreases n,
{
    if n <= 0 {
        0
    } else {
        pair_sum(m, b, n - 1) + m[n - 1] * b[n - 1]
    }
}

/// A factor per group, spread over its 16 elements.
pub open spec fn spread(m: Seq<int>) -> Seq<int> {
    Seq::new(16 * m.len(), |i: int| m[i / 16])
}

proof fn lemma_spread_group(m: Seq<int>, x: Seq<i8>, g: int, n: int)
    requires
        0 <= g < m.len(),
        0 <= n <= 16,
        x.len() == 16 * m.len(),
    ensures
        dot(spread(m), x, 16 * g + n) == dot(spread(m), x, 16 * g) + m[g] * group_sum(x, g, n),
    decreases n,
{
    if n > 0 {
        lemma_spread_group(m, x, g, n - 1);
        let i = 16 * g + n - 1;
        assert(i / 16 == g);
        assert(spread(m)[i] == m[g]);
        assert(m[g] * (group_sum(x, g, n - 1) + x[i]) == m[g] * group_sum(x, g, n - 1) + m[g] * x[i])
            by (nonlinear_arith);
    } else {
        assert(m[g] * 0 == 0);
    }
}

proof fn lemma_spread(m: Seq<int>, x: Seq<i8>, b: Seq<i32>, n: int)
    requires
        0 <= n <= m.len(),
        m.len() == b.len(),
        are_group_sums(x, b),
    ensures
        dot(spread(m), x, 16 * n) == pair_sum(m, b, n),
    decreases n,
{
    if n > 0 {
        lemma_spread(m, x, b, n - 1);
        lemma_spread_group(m, x, n - 1, 16);
    }
}

/// A factor that is the same throughout each group can be taken out of the sum: its products with
/// the elements add up to its products with the group sums.
pub proof fn law_group_factor(m: Seq<int>, x: Seq<i8>, b: Seq<i32>)
    requires
        m.len() == b.len(),
        are_group_sums(x, b),
    ensures
        dot(spread(m), x, 16 * m.len() as int) == pair_sum(m, b, m.len() as int),
{
    lemma_spread(m, x, b, m.len() as int);
}

/// The weights of a `Q2_K` block: scale of the group times element.
pub open spec fn q2_k_weights(raw: Seq<u8>) -> Seq<int> {
    Seq::new(256, |i: int| pack::q2_k_scale(raw, i / 16) * pack::q2_k_elem(raw, i))
}

/// The minima of a `Q2_K` block.
pub open spec fn q2_k_mins(raw: Seq<u8>) -> Seq<int> {
    Seq::new(16, |g: int| pack::q2_k_min(raw, g))
}

/// The sums of a `Q2_K` block: weights against elements, and minima against group sums.
pub fn q2_k_sums(blk: &[u8], q8: &[i8], bsums: &[i32]) -> (r: (i32, i32))
    requires
        blk@.len() == Q2_K_BLOCK_BYTES,
        q8@.len() == 256,
        are_group_sums(q8@, bsums@),
    ensures
        r.0 == dot(q2_k_weights(blk@), q8@, 256),
        r.1 == pair_sum(q2_k_mins(blk@), bsums@, 16),
{
    let qs = slice_subrange(blk, 16, 80);
    let mut w: Vec<i32> = Vec::new();
    let mut i: usize = 0;
    while i < 256
        invariant
            i == w@.len() <= 256,
            blk@.len() == Q2_K_BLOCK_BYTES,
            qs@ == blk@.subrange(16, 80),
            within(w@, 4096),
            forall|k: int| 0 <= k < i ==> #[trigger] w@[k] == q2_k_weights(blk@)[k],
        decreases 256 - i,
    {
        let sc: i32 = (blk[i / 16] % 16) as i32;
        let q: i32 = read_crumb(qs, i) as i32;
        assert(0 <= sc * q <= 45) by (nonlinear_arith)
            requires
                0 <= sc <= 15,
                0 <= q <= 3,
        ;
        w.push(sc * q);
        i = i + 1;
    }
    assert(ints(w@) =~= q2_k_weights(blk@));
    let isum: i32 = dot_i8(w.as_slice(), q8);
    let mut summs: i32 = 0;
    let mut g: usize = 0;
    while g < 16
        invariant
            g <= 16,
            blk@.len() == Q2_K_BLOCK_BYTES,
            q8@.len() == 256,
            are_group_sums(q8@, bsums@),
            summs == pair_sum(q2_k_mins(blk@), bsums@, g as int),
            -(g * 0x8000) <= summs <= g * 0x8000,
        decreases 16 - g,
    {
        let m: i32 = (blk[g] / 16) as i32;
        let b: i32 = bsums[g];
        proof {
            lemma_group_bound(q8@, g as int, 16);
            assert(-0x8000 <= m * b <= 0x8000) by (nonlinear_arith)
                requires
                    0 <= m <= 15,
                    -2048 <= b <= 2032,
            ;
            assert(m * b == b * m) by (nonlinear_arith);
        }
        summs = summs + b * m;
        g = g + 1;
    }
    (isum, summs)
}

/// The weights of a `Q3_K` block.
pub open spec fn q3_k_weights(raw: Seq<u8>) -> Seq<int> {
    Seq::new(256, |i: int| pack::q3_k_scale(raw, i / 16) * pack::q3_k_elem(raw, i))
}

/// The sum of a `Q3_K` block.
pub fn q3_k_sum(blk: &[u8], q8: &[i8]) -> (r: i32)
    requires
        blk@.len() == Q3_K_BLOCK_BYTES,
        q8@.len() == 256,
    ensures
        r == dot(q3_k_weights(blk@), q8@, 256),
{
    let hm = slice_subrange(blk, 0, 32);
    let qs = slice_subrange(blk, 32, 96);
    let sc = k3_scales(slice_subrange(blk, 96, 108));
    let mut w: Vec<i32> = Vec::new();
    let mut i: usize = 0;
    while i < 256
        invariant
            i == w@.len() <= 256,
            hm@ == blk@.subrange(0, 32),
            qs@ == blk@.subrange(32, 96),
            hm@.len() == 32,
            qs@.len() == 64,
            sc@.len() == 16,
            forall|j: int| 0 <= j < 16 ==> #[trigger] sc@[j] == pack::q3_k_scale(blk@, j),
            forall|j: int| 0 <= j < 16 ==> -32 <= #[trigger] sc@[j] <= 31,
            within(w@, 4096),
            forall|k: int| 0 <= k < i ==> #[trigger] w@[k] == q3_k_weights(blk@)[k],
        decreases 256 - i,
    {
        let s: i32 = sc[i / 16];
        let q: i32 = read_crumb(qs, i) as i32 + 4 * read_high_bit(hm, i) as i32 - 4;
        assert(-128 <= s * q <= 128) by (nonlinear_arith)
            requires
                -32 <= s <= 31,
                -4 <= q <= 3,
        ;
        w.push(s * q);
        i = i + 1;
    }
    assert(ints(w@) =~= q3_k_weights(blk@));
    dot_i8(w.as_slice(), q8)
}

/// Weights that are all given a constant too high per group unit.
proof fn lemma_folded(
    u: Seq<int>,
    m: Seq<int>,
    w: Seq<int>,
    x: Seq<i8>,
    n: int,
)
    requires
        0 <= n <= w.len(),
        u.len() == w.len() == m.len(),
        forall|i: int| 0 <= i < w.len() ==> #[trigger] u[i] == w[i] + 4 * m[i],
    ensures
        dot(u, x, n) == dot(w, x, n) + 4 * dot(m, x, n),
    decreases n,
{
    if n > 0 {
        lemma_folded(u, m, w, x, n - 1);
        let i = n - 1;
        assert(u[i] == w[i] + 4 * m[i]);
        assert((w[i] + 4 * m[i]) * x[i] == w[i] * x[i] + 4 * (m[i] * x[i])) by (nonlinear_arith);
    }
}

/// The sum of a `Q3_K` block over unsigned elements, with the shift of the elements taken out
/// through the group sums. The same number as `q3_k_sum`.
pub fn q3_k_sum_folded(blk: &[u8], q8: &[i8], bsums: &[i32]) -> (r: i32)
    requires
        blk@.len() == Q3_K_BLOCK_BYTES,
        q8@.len() == 256,
        are_group_sums(q8@, bsums@),
    ensures
        r == dot(q3_k_weights(blk@), q8@, 256),
{
    let hm = slice_subrange(blk, 0, 32);
    let qs = slice_subrange(blk, 32, 96);
    let sc = k3_scales(slice_subrange(blk, 96, 108));
    let ghost factors = ints(sc@);
    let mut corr: i32 = 0;
    let mut g: usize = 0;
    while g < 16
        invariant
            g <= 16,
            q8@.len() == 256,
            are_group_sums(q8@, bsums@),
            sc@.len() == 16,
            factors == ints(sc@),
            forall|j: int| 0 <= j < 16 ==> -32 <= #[trigger] sc@[j] <= 31,
            corr == pair_sum(factors, bsums@, g as int),
            -(g * 0x1_0000) <= corr <= g * 0x1_0000,
        decreases 16 - g,
    {
        let s: i32 = sc[g];
        let b: i32 = bsums[g];
        proof {
            lemma_group_bound(q8@, g as int, 16);
            assert(-0x1_0000 <= s * b <= 0x1_0000) by (nonlinear_arith)
                requires
                    -32 <= s <= 31,
                    -2048 <= b <= 2032,
            ;
        }
        corr = corr + s * b;
        g = g + 1;
    }
    let mut u: Vec<i32> = Vec::new();
    let mut i: usize = 0;
    while i < 256
        invariant
            i == u@.len() <= 256,
            hm@ == blk@.subrange(0, 32),
            qs@ == blk@.subrange(32, 96),
            hm@.len() == 32,
            qs@.len() == 64,
            sc@.len() == 16,
            factors == ints(sc@),
            forall|j: int| 0 <= j < 16 ==> #[trigger] sc@[j] == pack::q3_k_scale(blk@, j),
            forall|j: int| 0 <= j < 16 ==> -32 <= #[trigger] sc@[j] <= 31,
            within(u@, 4096),
            forall|k: int|
                0 <= k < i ==> #[trigger] u@[k] == q3_k_weights(blk@)[k] + 4 * spread(factors)[k],
        decreases 256 - i,
    {
        let s: i32 = sc[i / 16];
        let q: i32 = read_crumb(qs, i) as i32 + 4 * read_high_bit(hm, i) as i32;
        assert(-224 <= s * q <= 224) by (nonlinear_arith)
            requires
                -32 <= s <= 31,
                0 <= q <= 7,
        ;
        assert(s * q == s * (q - 4) + 4 * s) by (nonlinear_arith);
        u.push(s * q);
        i = i + 1;
    }
    proof {
        lemma_folded(ints(u@), spread(factors), q3_k_weights(blk@), q8@, 256);
        law_group_factor(factors, q8@, bsums@);
        lemma_q3_bound(blk@, q8@, 256);
    }
    let usum: i32 = dot_i8(u.as_slice(), q8);
    usum - 4 * corr
}

proof fn lemma_q3_bound(raw: Seq<u8>, x: Seq<i8>, n: int)
    requires
        raw.len() == Q3_K_BLOCK_BYTES,
        0 <= n <= 256,
        x.len() == 256,
    ensures
        -0x4000 * n <= dot(q3_k_weights(raw), x, n) <= 0x4000 * n,
    decreases n,
{
    if n > 0 {
        lemma_q3_bound(raw, x, n - 1);
        let i = n - 1;
        let s = pack::q3_k_scale(raw, i / 16);
        let q = pack::q3_k_elem(raw, i);
        let v = x[i] as int;
        assert(-32 <= s <= 31);
        assert(-4 <= q <= 3);
        assert(-128 <= s * q <= 128) by (nonlinear_arith)
            requires
                -32 <= s <= 31,
                -4 <= q <= 3,
        ;
        let w = s * q;
        assert(-0x4000 <= w * v <= 0x4000) by (nonlinear_arith)
            requires
                -128 <= w <= 128,
                -128 <= v <= 127,
        ;
    }
}

/// The weights of a `Q4_K` block.
pub open spec fn q4_k_weights(raw: Seq<u8>) -> Seq<int> {
    Seq::new(256, |i: int| pack::q45_k_pair(raw, i / 32).0 * pack::q4_k_elem(raw, i))
}

/// The minima of a `Q4_K` block, one per group of 16: each serves two groups.
pub open spec fn q4_k_mins(raw: Seq<u8>) -> Seq<int> {
    Seq::new(16, |g: int| pack::q45_k_pair(raw, g / 2).1)
}

/// The sums of a `Q4_K` block: weights against elements, and minima against group sums.
pub fn q4_k_sums(blk: &[u8], q8: &[i8], bsums: &[i32]) -> (r: (i32, i32))
    requires
        blk@.len() == Q4_K_BLOCK_BYTES,
        q8@.len() == 256,
        are_group_sums(q8@, bsums@),
    ensures
        r.0 == dot(q4_k_weights(blk@), q8@, 256),
        r.1 == pair_sum(q4_k_mins(blk@), bsums@, 16),
{
    let sc = slice_subrange(blk, 4, 16);
    let qs = slice_subrange(blk, 16, 144);
    let mut w: Vec<i32> = Vec::new();
    let mut i: usize = 0;
    while i < 256
        invariant
            i == w@.len() <= 256,
            sc@ == blk@.subrange(4, 16),
            qs@ == blk@.subrange(16, 144),
            sc@.len() == 12,
            qs@.len() == 128,
            within(w@, 4096),
            forall|k: int| 0 <= k < i ==> #[trigger] w@[k] == q4_k_weights(blk@)[k],
        decreases 256 - i,
    {
        let (s, _m) = k4_scale_min(i / 32, sc);
        let q: i32 = read_nibble(qs, i) as i32;
        assert(0 <= s * q <= 945) by (nonlinear_arith)
            requires
                0 <= s <= 63,
                0 <= q <= 15,
        ;
        w.push(s * q);
        i = i + 1;
    }
    assert(ints(w@) =~= q4_k_weights(blk@));
    let isum: i32 = dot_i8(w.as_slice(), q8);
    let mut msum: i32 = 0;
    let mut g: usize = 0;
    while g < 16
        invariant
            g <= 16,
            sc@ == blk@.subrange(4, 16),
            sc@.len() == 12,
            q8@.len() == 256,
            are_group_sums(q8@, bsums@),
            msum == pair_sum(q4_k_mins(blk@), bsums@, g as int),
            -(g * 0x2_0000) <= msum <= g * 0x2_0000,
        decreases 16 - g,
    {
        let (_s, m) = k4_scale_min(g / 2, sc);
        let b: i32 = bsums[g];
        proof {
            lemma_group_bound(q8@, g as int, 16);
            assert(-0x2_0000 <= m * b <= 0x2_0000) by (nonlinear_arith)
                requires
                    0 <= m <= 63,
                    -2048 <= b <= 2032,
            ;
        }
        msum = msum + m * b;
        g = g + 1;
    }
    (isum, msum)
}

} // verus!
