//! Eight-bit (`e4m3`) and four-bit (`e2m1`) floating-point formats as bit patterns.
use vstd::arithmetic::div_mod::*;
use vstd::arithmetic::power2::*;
use vstd::prelude::*;

use crate::fp;
use crate::fp::{div_rne, two_to};

verus! {

/// The value of a finite single-precision pattern without sign, in units of `2` to the power -149.
pub open spec fn magnitude(x: nat) -> nat {
    let e = x / 0x80_0000;
    let m = x % 0x80_0000;
    if e == 0 {
        m
    } else {
        (m + 0x80_0000) * pow2((e - 1) as nat)
    }
}

/// Larger patterns have larger values.
pub proof fn law_magnitude_order(x: nat, y: nat)
    requires
        x <= y,
    ensures
        magnitude(x) <= magnitude(y),
        x < y ==> magnitude(x) < magnitude(y),
{
    let (ex, mx) = (x / 0x80_0000, x % 0x80_0000);
    let (ey, my) = (y / 0x80_0000, y % 0x80_0000);
    lemma2_to64();
    if ex == ey {
        if ex > 0 {
            let p = pow2((ex - 1) as nat);
            lemma_pow2_pos((ex - 1) as nat);
            assert((mx + 0x80_0000) * p <= (my + 0x80_0000) * p) by (nonlinear_arith)
                requires
                    mx <= my,
            ;
            if mx < my {
                assert((mx + 0x80_0000) * p < (my + 0x80_0000) * p) by (nonlinear_arith)
                    requires
                        mx < my,
                        p > 0,
                ;
            }
        }
    } else {
        let q = pow2((ey - 1) as nat);
        lemma_pow2_pos((ey - 1) as nat);
        assert((my + 0x80_0000) * q >= 0x80_0000 * q) by (nonlinear_arith);
        if ex == 0 {
            assert(0x80_0000 * q >= 0x80_0000);
        } else {
            let p = pow2((ex - 1) as nat);
            lemma_pow2_unfold(ex);
            if ex < ey - 1 {
                lemma_pow2_strictly_increases(ex, (ey - 1) as nat);
            }
            lemma_pow2_pos((ex - 1) as nat);
            assert(2 * p <= q);
            assert((mx + 0x80_0000) * p < 0x80_0000 * q) by (nonlinear_arith)
                requires
                    mx < 0x80_0000,
                    2 * p <= q,
                    p > 0,
            ;
        }
    }
}

/// The `e4m3` code nearest to a single-precision pattern without sign, halves to even; 448 from
/// there on, and zero for a NaN.
pub open spec fn e4m3_code(x: nat) -> nat {
    let e = x / 0x80_0000;
    let m = x % 0x80_0000;
    if x > 0x7f80_0000 {
        0
    } else if x >= 0x43e0_0000 {
        0x7e
    } else if e < 117 {
        0
    } else if e <= 120 {
        fp::rne(m + 0x80_0000, pow2((141 - e) as nat))
    } else {
        ((e - 120) * 8 + fp::rne(m, 0x10_0000)) as nat
    }
}

/// A pattern of a value below zero.
pub open spec fn negative(bits: u32) -> bool {
    0x8000_0000 < bits <= 0xff80_0000
}

/// The `e4m3` pattern of a single-precision pattern.
pub open spec fn e4m3_of(bits: u32) -> nat {
    e4m3_code(bits as nat % 0x8000_0000) + if negative(bits) {
        0x80nat
    } else {
        0
    }
}

proof fn lemma_e4m3_code_bound(x: nat)
    ensures
        e4m3_code(x) <= 0x7e,
{
    let e = x / 0x80_0000;
    let m = x % 0x80_0000;
    if x < 0x43e0_0000 && e >= 117 {
        if e <= 120 {
            let d = pow2((141 - e) as nat);
            lemma2_to64();
            fp::law_rne_nearest(m + 0x80_0000, d);
            let r = fp::rne(m + 0x80_0000, d);
            assert(r <= 8) by (nonlinear_arith)
                requires
                    2 * (r * d - (m + 0x80_0000)) <= d,
                    m < 0x80_0000,
                    d >= 0x20_0000,
            ;
        } else {
            fp::law_rne_nearest(m, 0x10_0000);
            if e == 135 {
                assert(m < 0x60_0000);
            }
        }
    }
}

/// Encodes a single-precision pattern in `e4m3`: nearest, halves to even, clamped to 448.
pub fn e4m3_enc(bits: u32) -> (r: u8)
    ensures
        r as nat == e4m3_of(bits),
{
    let x: u32 = bits % 0x8000_0000;
    let e: u32 = x / 0x80_0000;
    let m: u32 = x % 0x80_0000;
    proof {
        lemma_e4m3_code_bound(x as nat);
        lemma2_to64();
    }
    let code: u64 = if x > 0x7f80_0000 {
        0
    } else if x >= 0x43e0_0000 {
        0x7e
    } else if e < 117 {
        0
    } else if e <= 120 {
        div_rne(m as u64 + 0x80_0000, two_to(141 - e))
    } else {
        (e as u64 - 120) * 8 + div_rne(m as u64, 0x10_0000)
    };
    if 0x8000_0000 < bits && bits <= 0xff80_0000 {
        code as u8 + 0x80
    } else {
        code as u8
    }
}

/// The single-precision pattern without sign of an `e4m3` code.
pub open spec fn e4m3_pattern(c: nat) -> nat {
    if c == 0 {
        0
    } else if c == 1 {
        0x3b00_0000
    } else if c < 4 {
        0x3b80_0000 + (c - 2) as nat * 0x40_0000
    } else if c < 8 {
        0x3c00_0000 + (c - 4) as nat * 0x20_0000
    } else {
        (c / 8 + 120) * 0x80_0000 + (c % 8) * 0x10_0000
    }
}

/// Decodes an `e4m3` pattern.
pub fn e4m3_dec(b: u8) -> (r: u32)
    ensures
        r as nat == e4m3_pattern(b as nat % 128) + (b as nat / 128) * 0x8000_0000,
{
    let s: u32 = b as u32 / 128;
    let c: u32 = b as u32 % 128;
    let x: u32 = if c == 0 {
        0
    } else if c == 1 {
        0x3b00_0000
    } else if c < 4 {
        0x3b80_0000 + (c - 2) * 0x40_0000
    } else if c < 8 {
        0x3c00_0000 + (c - 4) * 0x20_0000
    } else {
        (c / 8 + 120) * 0x80_0000 + (c % 8) * 0x10_0000
    };
    x + s * 0x8000_0000
}

/// An `e4m3` code stands for `c % 8`, with a leading eight where `c / 8` is not zero, in units of
/// `2` to the power -9, doubled `c / 8 - 1` times.
pub proof fn law_e4m3_value(c: nat)
    requires
        c < 128,
    ensures
        magnitude(e4m3_pattern(c)) == if c < 8 {
            c * pow2(140)
        } else {
            (8 + c % 8) * pow2((139 + c / 8) as nat)
        },
{
    lemma2_to64();
    let x = e4m3_pattern(c);
    if c < 8 {
        if c > 0 {
            let e = x / 0x80_0000;
            assert(118 <= e <= 120);
            lemma_pow2_adds(23, 117);
            lemma_pow2_adds(22, 118);
            lemma_pow2_adds(21, 119);
            let (a, b, d) = (pow2(117), pow2(118), pow2(119));
            assert(pow2(140) == 0x80_0000 * a);
            assert(pow2(140) == 0x40_0000 * b);
            assert(pow2(140) == 0x20_0000 * d);
            if c == 1 {
                assert(x % 0x80_0000 == 0);
            } else if c < 4 {
                assert(x % 0x80_0000 + 0x80_0000 == c * 0x40_0000);
                assert(c * 0x40_0000 * b == c * (0x40_0000 * b)) by (nonlinear_arith);
            } else {
                assert(x % 0x80_0000 + 0x80_0000 == c * 0x20_0000);
                assert(c * 0x20_0000 * d == c * (0x20_0000 * d)) by (nonlinear_arith);
            }
        }
    } else {
        let e = c / 8 + 120;
        assert(x / 0x80_0000 == e);
        assert(x % 0x80_0000 == (c % 8) * 0x10_0000);
        lemma_pow2_adds(20, (e - 1) as nat);
        let p = pow2((e - 1) as nat);
        let k = 8 + c % 8;
        assert(k * 0x10_0000 * p == k * (0x10_0000 * p)) by (nonlinear_arith);
    }
}

/// Coding is idempotent: what a code stands for has that code, and every code that is given stands
/// for at most 448.
pub proof fn law_e4m3_idempotent(bits: u32)
    ensures
        ({
            let c = e4m3_code(bits as nat % 0x8000_0000);
            &&& e4m3_code(e4m3_pattern(c)) == c
            &&& magnitude(e4m3_pattern(c)) <= magnitude(0x43e0_0000)
        }),
{
    let x = bits as nat % 0x8000_0000;
    let c = e4m3_code(x);
    lemma_e4m3_code_bound(x);
    let y = e4m3_pattern(c);
    lemma2_to64();
    if c >= 8 {
        assert(y / 0x80_0000 == c / 8 + 120);
        assert(y % 0x80_0000 == (c % 8) * 0x10_0000);
        assert(fp::rne((c % 8) * 0x10_0000, 0x10_0000) == c % 8);
    } else if c >= 4 {
        assert(y / 0x80_0000 == 120);
        assert(fp::rne(c * 0x20_0000, 0x20_0000) == c);
    } else if c >= 2 {
        assert(y / 0x80_0000 == 119);
        assert(fp::rne(c * 0x40_0000, 0x40_0000) == c);
    } else if c == 1 {
        assert(y / 0x80_0000 == 118);
        assert(fp::rne(0x80_0000, 0x80_0000) == 1);
    }
    assert(y <= 0x43e0_0000);
    law_magnitude_order(y, 0x43e0_0000);
}

/// From the least normal value up to 448 the relative error is at most one in sixteen.
pub proof fn law_e4m3_error(x: nat)
    requires
        0x3c80_0000 <= x <= 0x43e0_0000,
    ensures
        16 * (magnitude(e4m3_pattern(e4m3_code(x))) - magnitude(x)) <= magnitude(x),
        16 * (magnitude(x) - magnitude(e4m3_pattern(e4m3_code(x)))) <= magnitude(x),
{
    let e = x / 0x80_0000;
    let m = x % 0x80_0000;
    let c = e4m3_code(x);
    lemma_e4m3_code_bound(x);
    if x == 0x43e0_0000 {
        assert(e4m3_pattern(0x7e) == 0x43e0_0000);
    } else {
        let r = fp::rne(m, 0x10_0000);
        fp::law_rne_nearest(m, 0x10_0000);
        assert(r <= 8);
        assert(c == (e - 120) * 8 + r);
        law_e4m3_value(c);
        let p = pow2((e - 1) as nat);
        lemma2_to64();
        lemma_pow2_adds(20, (e - 1) as nat);
        lemma_pow2_unfold((e + 20) as nat);
        let v = magnitude(e4m3_pattern(c));
        assert(v == (8 + r) * 0x10_0000 * p) by {
            if r < 8 {
                assert(c / 8 == e - 120 && c % 8 == r);
                assert((8 + r) * (0x10_0000 * p) == (8 + r) * 0x10_0000 * p) by (nonlinear_arith);
            } else {
                assert(c / 8 == e - 119 && c % 8 == 0);
                assert(16 * 0x10_0000 * p == 8 * (2 * (0x10_0000 * p))) by (nonlinear_arith);
            }
        }
        assert(16 * (v - magnitude(x)) <= magnitude(x) && 16 * (magnitude(x) - v) <= magnitude(x))
            by (nonlinear_arith)
            requires
                v == (8 + r) * 0x10_0000 * p,
                magnitude(x) == (m + 0x80_0000) * p,
                2 * (m - r * 0x10_0000) <= 0x10_0000,
                2 * (r * 0x10_0000 - m) <= 0x10_0000,
                m >= 0,
                p >= 0,
        ;
    }
}

/// The single-precision pattern of entry `i` of the `e2m1` table: 0, 0.5, 1, 1.5, 2, 3, 4, 6.
pub open spec fn e2m1_pattern(i: int) -> nat {
    if i == 0 {
        0
    } else if i == 1 {
        0x3f00_0000
    } else if i == 2 {
        0x3f80_0000
    } else if i == 3 {
        0x3fc0_0000
    } else if i == 4 {
        0x4000_0000
    } else if i == 5 {
        0x4040_0000
    } else if i == 6 {
        0x4080_0000
    } else {
        0x40c0_0000
    }
}

/// A pattern without sign, clamped to 6; a NaN counts as 6.
pub open spec fn clamped(x: nat) -> nat {
    if x < 0x40c0_0000 {
        x
    } else {
        0x40c0_0000
    }
}

/// The distance of two values.
pub open spec fn distance(a: nat, b: nat) -> nat {
    if a < b {
        (b - a) as nat
    } else {
        (a - b) as nat
    }
}

/// Entry `i` of the table is nearest to a pattern without sign; where two are equally near, it is
/// the one with the even index.
pub open spec fn is_nearest(i: int, x: nat) -> bool {
    &&& 0 <= i < 8
    &&& forall|k: int|
        #![trigger e2m1_pattern(k)]
        0 <= k < 8 && k != i ==> {
            let here = distance(magnitude(clamped(x)), magnitude(e2m1_pattern(i)));
            let there = distance(magnitude(clamped(x)), magnitude(e2m1_pattern(k)));
            here < there || (here == there && i % 2 == 0 && k % 2 == 1)
        }
}

/// The values of the table and of the midpoints between its entries.
proof fn lemma_e2m1_table()
    ensures
        pow2(147) > 0,
        magnitude(0) == 0,
        magnitude(0x3e80_0000) == pow2(147),
        magnitude(0x3f00_0000) == 2 * pow2(147),
        magnitude(0x3f40_0000) == 3 * pow2(147),
        magnitude(0x3f80_0000) == 4 * pow2(147),
        magnitude(0x3fa0_0000) == 5 * pow2(147),
        magnitude(0x3fc0_0000) == 6 * pow2(147),
        magnitude(0x3fe0_0000) == 7 * pow2(147),
        magnitude(0x4000_0000) == 8 * pow2(147),
        magnitude(0x4020_0000) == 10 * pow2(147),
        magnitude(0x4040_0000) == 12 * pow2(147),
        magnitude(0x4060_0000) == 14 * pow2(147),
        magnitude(0x4080_0000) == 16 * pow2(147),
        magnitude(0x40a0_0000) == 20 * pow2(147),
        magnitude(0x40c0_0000) == 24 * pow2(147),
{
    lemma2_to64();
    lemma_pow2_pos(147);
    lemma_pow2_adds(23, 124);
    lemma_pow2_unfold(125);
    lemma_pow2_unfold(126);
    lemma_pow2_unfold(127);
    lemma_pow2_unfold(128);
    let p = pow2(124);
    assert(pow2(147) == 0x80_0000 * p);
    assert(pow2(125) == 2 * p);
    assert(pow2(126) == 4 * p);
    assert(pow2(127) == 8 * p);
    assert(pow2(128) == 16 * p);
    lemma_parts(0x3e80_0000, 125, 8, 1, 1);
    lemma_parts(0x3f00_0000, 126, 8, 2, 2);
    lemma_parts(0x3f40_0000, 126, 12, 2, 3);
    lemma_parts(0x3f80_0000, 127, 8, 4, 4);
    lemma_parts(0x3fa0_0000, 127, 10, 4, 5);
    lemma_parts(0x3fc0_0000, 127, 12, 4, 6);
    lemma_parts(0x3fe0_0000, 127, 14, 4, 7);
    lemma_parts(0x4000_0000, 128, 8, 8, 8);
    lemma_parts(0x4020_0000, 128, 10, 8, 10);
    lemma_parts(0x4040_0000, 128, 12, 8, 12);
    lemma_parts(0x4060_0000, 128, 14, 8, 14);
    lemma_parts(0x4080_0000, 129, 8, 16, 16);
    lemma_parts(0x40a0_0000, 129, 10, 16, 20);
    lemma_parts(0x40c0_0000, 129, 12, 16, 24);
}

/// The value of a pattern whose mantissa has three places.
proof fn lemma_parts(x: nat, e: nat, q: nat, j: nat, k: nat)
    requires
        e > 0,
        8 <= q < 16,
        x == e * 0x80_0000 + (q - 8) * 0x10_0000,
        pow2((e - 1) as nat) == j * pow2(124),
        pow2(147) == 0x80_0000 * pow2(124),
        q * j == 8 * k,
    ensures
        magnitude(x) == k * pow2(147),
{
    let p = pow2(124);
    assert(x / 0x80_0000 == e && x % 0x80_0000 == (q - 8) * 0x10_0000);
    assert((q * 0x10_0000) * (j * p) == k * (0x80_0000 * p)) by (nonlinear_arith)
        requires
            q * j == 8 * k,
    ;
}

/// Rounds a single-precision pattern to the nearest `e2m1` value, ties toward the even entry of the
/// table; at most 6. A NaN becomes 6.
pub fn e2m1_roundtrip(bits: u32) -> (r: u32)
    ensures
        exists|i: int|
            #![trigger e2m1_pattern(i)]
            is_nearest(i, bits as nat % 0x8000_0000) && r as nat == e2m1_pattern(i) + if negative(
                bits,
            ) {
                0x8000_0000nat
            } else {
                0
            },
{
    let x: u32 = bits % 0x8000_0000;
    let ghost mut i: int = 7;
    let v: u32 = if x <= 0x3e80_0000 {
        proof {
            i = 0;
        }
        0
    } else if x < 0x3f40_0000 {
        proof {
            i = 1;
        }
        0x3f00_0000
    } else if x <= 0x3fa0_0000 {
        proof {
            i = 2;
        }
        0x3f80_0000
    } else if x < 0x3fe0_0000 {
        proof {
            i = 3;
        }
        0x3fc0_0000
    } else if x <= 0x4020_0000 {
        proof {
            i = 4;
        }
        0x4000_0000
    } else if x < 0x4060_0000 {
        proof {
            i = 5;
        }
        0x4040_0000
    } else if x <= 0x40a0_0000 {
        proof {
            i = 6;
        }
        0x4080_0000
    } else {
        0x40c0_0000
    };
    proof {
        lemma_e2m1_table();
        let y = clamped(x as nat);
        lemma_side(y, 0);
        lemma_side(y, 0x3e80_0000);
        lemma_side(y, 0x3f40_0000);
        lemma_side(y, 0x3fa0_0000);
        lemma_side(y, 0x3fe0_0000);
        lemma_side(y, 0x4020_0000);
        lemma_side(y, 0x4060_0000);
        lemma_side(y, 0x40a0_0000);
        lemma_side(y, 0x40c0_0000);
        assert(is_nearest(i, x as nat));
        assert(v as nat == e2m1_pattern(i));
    }
    if 0x8000_0000 < bits && bits <= 0xff80_0000 {
        v + 0x8000_0000
    } else {
        v
    }
}

/// Values compare as their patterns do.
proof fn lemma_side(x: nat, t: nat)
    ensures
        x < t <==> magnitude(x) < magnitude(t),
        x == t ==> magnitude(x) == magnitude(t),
        x > t <==> magnitude(x) > magnitude(t),
{
    if x <= t {
        law_magnitude_order(x, t);
    } else {
        law_magnitude_order(t, x);
    }
}

/// Below the least normal value the error is at most half the smallest step; from 448 on everything
/// becomes the greatest value, and what is no number becomes zero.
pub proof fn law_e4m3_ends(x: nat)
    ensures
        x < 0x3c80_0000 ==> 2 * (magnitude(e4m3_pattern(e4m3_code(x))) - magnitude(x)) <= magnitude(
            0x3b00_0000,
        ),
        x < 0x3c80_0000 ==> 2 * (magnitude(x) - magnitude(e4m3_pattern(e4m3_code(x)))) <= magnitude(
            0x3b00_0000,
        ),
        0x43e0_0000 <= x <= 0x7f80_0000 ==> e4m3_code(x) == 0x7e,
        e4m3_pattern(0x7e) == 0x43e0_0000,
        x > 0x7f80_0000 ==> e4m3_code(x) == 0,
        e4m3_code(0) == 0,
{
    if x < 0x3c80_0000 {
        let e = x / 0x80_0000;
        let m = x % 0x80_0000;
        let unit = pow2(117);
        lemma2_to64();
        lemma_pow2_adds(23, 117);
        assert(magnitude(0x3b00_0000) == 0x80_0000 * unit) by {
            assert(0x3b00_0000nat / 0x80_0000 == 118 && 0x3b00_0000nat % 0x80_0000 == 0);
        }
        if e < 117 {
            assert(magnitude(0) == 0);
            if e == 0 {
                lemma_pow2_strictly_increases(24, 140);
            } else {
                let p = pow2((e - 1) as nat);
                if e < 116 {
                    lemma_pow2_strictly_increases((e - 1) as nat, 115);
                }
                lemma_pow2_unfold(116);
                lemma_pow2_unfold(117);
                assert((m + 0x80_0000) * p <= 0x100_0000 * pow2(115)) by (nonlinear_arith)
                    requires
                        m + 0x80_0000 <= 0x100_0000,
                        0 <= p <= pow2(115),
                ;
            }
        } else {
            let d = pow2((141 - e) as nat);
            let n = m + 0x80_0000;
            let p = pow2((e - 1) as nat);
            lemma_pow2_pos((141 - e) as nat);
            fp::law_rne_nearest(n, d);
            let r = fp::rne(n, d);
            if e < 120 {
                lemma_pow2_strictly_increases(21, (141 - e) as nat);
            }
            assert(r <= 8) by (nonlinear_arith)
                requires
                    2 * (r * d - n) <= d,
                    n < 0x100_0000,
                    d >= 0x20_0000,
            ;
            lemma_pow2_adds((141 - e) as nat, (e - 1) as nat);
            assert(magnitude(e4m3_pattern(r)) == r * pow2(140)) by {
                lemma_e4m3_small(r);
            }
            assert(2 * (r * (d * p) - n * p) <= d * p && 2 * (n * p - r * (d * p)) <= d * p)
                by (nonlinear_arith)
                requires
                    2 * (n - r * d) <= d,
                    2 * (r * d - n) <= d,
                    p >= 0,
            ;
        }
    }
}

proof fn lemma_e4m3_small(r: nat)
    requires
        r <= 8,
    ensures
        magnitude(e4m3_pattern(r)) == r * pow2(140),
{
    lemma2_to64();
    lemma_pow2_adds(23, 117);
    lemma_pow2_unfold(118);
    lemma_pow2_unfold(119);
    lemma_pow2_unfold(120);
    let u = pow2(117);
    if r == 0 {
        assert(0 * pow2(140) == 0) by (nonlinear_arith);
    } else if r == 1 {
        assert(0x3b00_0000nat / 0x80_0000 == 118 && 0x3b00_0000nat % 0x80_0000 == 0);
    } else if r < 4 {
        let x = e4m3_pattern(r);
        assert(x / 0x80_0000 == 119 && x % 0x80_0000 == (r - 2) * 0x40_0000);
        assert(((r - 2) * 0x40_0000 + 0x80_0000) * (2 * u) == r * (0x80_0000 * u))
            by (nonlinear_arith);
    } else if r < 8 {
        let x = e4m3_pattern(r);
        assert(x / 0x80_0000 == 120 && x % 0x80_0000 == (r - 4) * 0x20_0000);
        assert(((r - 4) * 0x20_0000 + 0x80_0000) * (4 * u) == r * (0x80_0000 * u))
            by (nonlinear_arith);
    } else {
        let x = e4m3_pattern(8);
        assert(x / 0x80_0000 == 121 && x % 0x80_0000 == 0);
        assert(0x80_0000 * (8 * u) == 8 * (0x80_0000 * u)) by (nonlinear_arith);
    }
}

/// The eight magnitudes of the four-bit format are 0, 1, 2, 3, 4, 6, 8 and 12 halves.
pub proof fn law_e2m1_values()
    ensures
        magnitude(e2m1_pattern(0)) == 0,
        magnitude(e2m1_pattern(1)) > 0,
        magnitude(e2m1_pattern(2)) == 2 * magnitude(e2m1_pattern(1)),
        magnitude(e2m1_pattern(3)) == 3 * magnitude(e2m1_pattern(1)),
        magnitude(e2m1_pattern(4)) == 4 * magnitude(e2m1_pattern(1)),
        magnitude(e2m1_pattern(5)) == 6 * magnitude(e2m1_pattern(1)),
        magnitude(e2m1_pattern(6)) == 8 * magnitude(e2m1_pattern(1)),
        magnitude(e2m1_pattern(7)) == 12 * magnitude(e2m1_pattern(1)),
        e2m1_pattern(2) == 0x3f80_0000,
{
    lemma_pow2_pos(125);
    lemma_pow2_unfold(126);
    lemma_pow2_unfold(127);
    lemma_pow2_unfold(128);
    let u = pow2(125);
    assert(0x3f00_0000nat / 0x80_0000 == 126 && 0x3f00_0000nat % 0x80_0000 == 0);
    assert(0x3f80_0000nat / 0x80_0000 == 127 && 0x3f80_0000nat % 0x80_0000 == 0);
    assert(0x3fc0_0000nat / 0x80_0000 == 127 && 0x3fc0_0000nat % 0x80_0000 == 0x40_0000);
    assert(0x4000_0000nat / 0x80_0000 == 128 && 0x4000_0000nat % 0x80_0000 == 0);
    assert(0x4040_0000nat / 0x80_0000 == 128 && 0x4040_0000nat % 0x80_0000 == 0x40_0000);
    assert(0x4080_0000nat / 0x80_0000 == 129 && 0x4080_0000nat % 0x80_0000 == 0);
    assert(0x40c0_0000nat / 0x80_0000 == 129 && 0x40c0_0000nat % 0x80_0000 == 0x40_0000);
    assert(magnitude(e2m1_pattern(1)) == 0x80_0000 * u);
    assert(magnitude(e2m1_pattern(2)) == 0x80_0000 * (2 * u));
    assert(magnitude(e2m1_pattern(3)) == 0xc0_0000 * (2 * u));
    assert(magnitude(e2m1_pattern(4)) == 0x80_0000 * (4 * u));
    assert(magnitude(e2m1_pattern(5)) == 0xc0_0000 * (4 * u));
    assert(magnitude(e2m1_pattern(6)) == 0x80_0000 * (8 * u));
    assert(magnitude(e2m1_pattern(7)) == 0xc0_0000 * (8 * u));
}

/// The sign of the eight-bit format is its highest bit: it is set for numbers below zero and for no
/// others.
pub proof fn law_e4m3_sign(bits: u32)
    ensures
        e4m3_of(bits) >= 0x80 <==> 0x8000_0000 < bits <= 0xff80_0000,
        e4m3_of(bits) % 0x80 == e4m3_code(bits as nat % 0x8000_0000),
{
    lemma_e4m3_code_bound(bits as nat % 0x8000_0000);
}

/// Rounding to the four-bit format takes the nearest of the eight magnitudes, and the greatest for
/// everything from six on.
pub proof fn law_e2m1_nearest(i: int, k: int, x: nat)
    requires
        is_nearest(i, x),
        0 <= k < 8,
    ensures
        x <= 0x40c0_0000 ==> distance(magnitude(x), magnitude(e2m1_pattern(i))) <= distance(
            magnitude(x),
            magnitude(e2m1_pattern(k)),
        ),
        x >= 0x40c0_0000 ==> i == 7,
        distance(x, x) == 0,
{
    law_e2m1_values();
    assert(e2m1_pattern(k) >= 0);
    if x >= 0x40c0_0000 && i != 7 {
        assert(e2m1_pattern(7) == 0x40c0_0000);
        assert(clamped(x) == 0x40c0_0000);
    }
}

} // verus!
