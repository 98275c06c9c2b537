//! Floating-point formats as bit patterns: conversions and order, by integer arithmetic.
use vstd::arithmetic::div_mod::*;
use vstd::arithmetic::power2::*;
use vstd::prelude::*;

verus! {

/// `n / d`, rounded to the nearest integer, halves to the even one.
pub open spec fn rne(n: nat, d: nat) -> nat {
    let q = n / d;
    let r = n % d;
    if 2 * r > d || (2 * r == d && q % 2 == 1) {
        q + 1
    } else {
        q
    }
}

/// `n / d`, rounded to the nearest integer, halves to the even one.
pub(crate) fn div_rne(n: u64, d: u64) -> (r: u64)
    requires
        0 < d <= 0x4000_0000_0000_0000,
        n <= 0x4000_0000_0000_0000,
    ensures
        r as nat == rne(n as nat, d as nat),
{
    let q: u64 = n / d;
    let m: u64 = n % d;
    assert(q <= n) by (nonlinear_arith)
        requires
            q == n / d,
            d >= 1,
            n >= 0,
    ;
    if 2 * m > d || (2 * m == d && q % 2 == 1) {
        q + 1
    } else {
        q
    }
}

/// The rounded quotient is nearest: it is at most half a step away, and where two are equally
/// near it is the even one.
pub proof fn law_rne_nearest(n: nat, d: nat)
    requires
        d > 0,
    ensures
        -(d as int) <= 2 * (n - rne(n, d) * d) <= d,
        2 * (n - rne(n, d) * d) == d ==> rne(n, d) % 2 == 0,
        2 * (rne(n, d) * d - n) == d ==> rne(n, d) % 2 == 0,
{
    lemma_fundamental_div_mod(n as int, d as int);
    let q = n / d;
    assert(d * q == q * d) by (nonlinear_arith);
    assert((q + 1) * d == q * d + d) by (nonlinear_arith);
}

/// `2` to the power `k`.
pub(crate) fn two_to(k: u32) -> (r: u64)
    requires
        k < 64,
    ensures
        r as nat == pow2(k as nat),
{
    let mut acc: u64 = 1;
    let mut i: u32 = 0;
    proof {
        lemma2_to64();
    }
    while i < k
        invariant
            i <= k < 64,
            acc as nat == pow2(i as nat),
        decreases k - i,
    {
        proof {
            lemma_pow2_unfold((i + 1) as nat);
            lemma2_to64();
            lemma2_to64_rest();
            if i + 1 < 63 {
                lemma_pow2_strictly_increases((i + 1) as nat, 63);
            }
        }
        acc = acc * 2;
        i = i + 1;
    }
    acc
}

/// The single-precision pattern of a bfloat16 pattern: the same value.
pub fn bf16_to_f32(b: u16) -> (r: u32)
    ensures
        r == b * 0x1_0000,
{
    b as u32 * 0x1_0000
}

/// Exponent and mantissa of half precision, without sign, for a single-precision exponent `e` and
/// mantissa `m`: rounded to the nearest, halves to even. Too large becomes infinity.
pub open spec fn half_magnitude(e: nat, m: nat) -> nat {
    if e == 255 {
        if m != 0 {
            0x7e00
        } else {
            0x7c00
        }
    } else if e >= 143 {
        0x7c00
    } else if e < 102 {
        0
    } else if e <= 112 {
        rne(m + 0x80_0000, pow2((126 - e) as nat))
    } else {
        ((e - 112) * 1024 + rne(m, 0x2000)) as nat
    }
}

/// The half-precision pattern nearest to a single-precision pattern.
pub open spec fn half_of(bits: u32) -> nat {
    (bits as nat / 0x8000_0000) * 0x8000 + half_magnitude(
        (bits as nat / 0x80_0000) % 256,
        bits as nat % 0x80_0000,
    )
}

/// Rounded magnitudes stay below the sign bit.
proof fn lemma_half_magnitude_bound(e: nat, m: nat)
    requires
        e < 256,
        m < 0x80_0000,
    ensures
        half_magnitude(e, m) <= 0x7e00,
        e != 255 ==> half_magnitude(e, m) <= 0x7c00,
{
    if 102 <= e <= 112 {
        let d = pow2((126 - e) as nat);
        lemma2_to64();
        if e < 112 {
            lemma_pow2_strictly_increases(14, (126 - e) as nat);
        }
        law_rne_nearest(m + 0x80_0000, d);
        let r = rne(m + 0x80_0000, d);
        assert(r <= 1024) by (nonlinear_arith)
            requires
                2 * (r * d - (m + 0x80_0000)) <= d,
                m < 0x80_0000,
                d >= 0x4000,
        ;
    } else if 112 < e < 143 {
        law_rne_nearest(m, 0x2000);
        let r = rne(m, 0x2000);
        assert(r <= 1024);
    }
}

/// Single precision to half precision, rounded to the nearest, halves to even. A NaN stays a NaN
/// of the same sign.
pub fn f32_to_f16(bits: u32) -> (r: u16)
    ensures
        r as nat == half_of(bits),
{
    let s: u32 = bits / 0x8000_0000;
    let e: u32 = (bits / 0x80_0000) % 256;
    let m: u32 = bits % 0x80_0000;
    proof {
        lemma_half_magnitude_bound(e as nat, m as nat);
        lemma2_to64();
    }
    let mag: u64 = if e == 255 {
        if m != 0 {
            0x7e00
        } else {
            0x7c00
        }
    } else if e >= 143 {
        0x7c00
    } else if e < 102 {
        0
    } else if e <= 112 {
        proof {
            lemma_pow2_strictly_increases((126 - e) as nat, 30);
            lemma_pow2_pos((126 - e) as nat);
        }
        div_rne(m as u64 + 0x80_0000, two_to(126 - e))
    } else {
        (e as u64 - 112) * 1024 + div_rne(m as u64, 0x2000)
    };
    (s * 0x8000 + mag as u32) as u16
}

/// The rounding conversion of cached values: the same as `f32_to_f16`.
pub fn f32_to_f16_rte(bits: u32) -> (r: u16)
    ensures
        r as nat == half_of(bits),
{
    f32_to_f16(bits)
}

/// Doublings that bring a subnormal mantissa up to the leading bit.
pub open spec fn lead(m: nat) -> nat
    decreases 2048 - m,
{
    if m == 0 || m >= 1024 {
        0
    } else {
        1 + lead(2 * m)
    }
}

/// Exponent and mantissa of single precision, without sign, for a half-precision exponent `e` and
/// mantissa `m`: the same value.
pub open spec fn single_magnitude(e: nat, m: nat) -> nat {
    if e == 31 {
        255 * 0x80_0000 + m * 0x2000
    } else if e > 0 {
        (e + 112) * 0x80_0000 + m * 0x2000
    } else if m == 0 {
        0
    } else {
        ((113 - lead(m)) * 0x80_0000 + (m * pow2(lead(m)) - 1024) * 0x2000) as nat
    }
}

/// The single-precision pattern of a half-precision pattern.
pub open spec fn single_of(h: u16) -> nat {
    (h as nat / 0x8000) * 0x8000_0000 + single_magnitude(
        (h as nat / 1024) % 32,
        h as nat % 1024,
    )
}

proof fn lemma_lead(m: nat)
    requires
        0 < m < 2048,
    ensures
        1024 <= m * pow2(lead(m)) < 2048,
        lead(m) <= 10,
    decreases 2048 - m,
{
    lemma2_to64();
    if m < 1024 {
        lemma_lead(2 * m);
        lemma_pow2_unfold(lead(m));
        assert(m * (2 * pow2(lead(2 * m))) == (2 * m) * pow2(lead(2 * m))) by (nonlinear_arith);
        lemma_lead_small(m);
    } else {
        assert(m * 1 == m);
    }
}

proof fn lemma_lead_small(m: nat)
    requires
        0 < m < 1024,
    ensures
        lead(m) <= 10,
{
    reveal_with_fuel(lead, 12);
}

/// Half precision to single precision: the same value.
pub fn f16_to_f32(h: u16) -> (r: u32)
    ensures
        r as nat == single_of(h),
{
    let s: u32 = h as u32 / 0x8000;
    let e: u32 = (h as u32 / 1024) % 32;
    let m: u32 = h as u32 % 1024;
    let mag: u32 = if e == 31 {
        255 * 0x80_0000 + m * 0x2000
    } else if e > 0 {
        (e + 112) * 0x80_0000 + m * 0x2000
    } else if m == 0 {
        0
    } else {
        let mut x: u32 = m;
        let mut k: u32 = 0;
        proof {
            lemma2_to64();
            lemma_lead(m as nat);
            assert(m * 1 == m);
        }
        while x < 1024
            invariant
                0 < m < 1024,
                0 < x < 2048,
                k + lead(x as nat) == lead(m as nat) <= 10,
                x as nat == m as nat * pow2(k as nat),
            decreases 2048 - x,
        {
            proof {
                lemma_pow2_unfold((k + 1) as nat);
                assert(m * (2 * pow2(k as nat)) == 2 * (m * pow2(k as nat))) by (nonlinear_arith);
            }
            x = x * 2;
            k = k + 1;
        }
        (113 - k) * 0x80_0000 + (x - 1024) * 0x2000
    };
    s * 0x8000_0000 + mag
}

/// The magnitude of a finite single-precision pattern, in units of 2^-149.
pub open spec fn single_units(bits: nat) -> nat {
    let e = (bits / 0x80_0000) % 256;
    let m = bits % 0x80_0000;
    if e == 0 {
        m
    } else {
        (m + 0x80_0000) * pow2((e - 1) as nat)
    }
}

/// The magnitude of a finite half-precision pattern, in units of 2^-24.
pub open spec fn half_units(h: nat) -> nat {
    let e = (h / 1024) % 32;
    let m = h % 1024;
    if e == 0 {
        m
    } else {
        (m + 1024) * pow2((e - 1) as nat)
    }
}

/// Fields of a single-precision pattern that `single_of` builds.
proof fn lemma_single_fields(h: u16, e32: nat, m32: nat)
    requires
        e32 < 256,
        m32 < 0x80_0000,
        single_magnitude((h as nat / 1024) % 32, h as nat % 1024) == e32 * 0x80_0000 + m32,
    ensures
        single_of(h) / 0x8000_0000 == h as nat / 0x8000,
        (single_of(h) / 0x80_0000) % 256 == e32,
        single_of(h) % 0x80_0000 == m32,
        single_of(h) <= u32::MAX,
{
}

/// Half precision to single precision keeps the value of every finite pattern.
pub proof fn law_half_to_single_exact(h: u16)
    requires
        (h as nat / 1024) % 32 < 31,
    ensures
        single_of(h) <= u32::MAX,
        single_of(h) / 0x8000_0000 == h as nat / 0x8000,
        single_units(single_of(h)) == half_units(h as nat) * pow2(125),
{
    let e = (h as nat / 1024) % 32;
    let m = h as nat % 1024;
    lemma2_to64();
    if e > 0 {
        lemma_single_fields(h, e + 112, m * 0x2000);
        lemma_pow2_adds(13, (e + 111) as nat);
        lemma_pow2_adds((e - 1) as nat, 125);
        assert((m * 0x2000 + 0x80_0000) * pow2((e + 111) as nat) == (m + 1024) * (0x2000 * pow2(
            (e + 111) as nat,
        ))) by (nonlinear_arith);
        assert((m + 1024) * pow2((e - 1) as nat) * pow2(125) == (m + 1024) * (pow2((e - 1) as nat)
            * pow2(125))) by (nonlinear_arith);
    } else if m == 0 {
        lemma_single_fields(h, 0, 0);
        assert(0 * pow2(125) == 0);
    } else {
        lemma_lead(m);
        let k = lead(m);
        let x = m * pow2(k);
        lemma_single_fields(h, (113 - k) as nat, ((x - 1024) * 0x2000) as nat);
        assert((x - 1024) * 0x2000 + 0x80_0000 == x * 0x2000);
        lemma_pow2_adds(k, 13);
        lemma_pow2_adds(k + 13, (112 - k) as nat);
        assert((m * pow2(k)) * 0x2000 * pow2((112 - k) as nat) == m * (pow2(k) * 0x2000 * pow2(
            (112 - k) as nat,
        ))) by (nonlinear_arith);
    }
}

/// Converting to single precision and back gives every half-precision pattern that is no NaN; a
/// NaN comes back as the quiet NaN of its sign.
pub proof fn law_half_roundtrip(h: u16)
    ensures
        single_of(h) <= u32::MAX,
        !((h as nat / 1024) % 32 == 31 && h % 1024 != 0) ==> half_of(single_of(h) as u32) == h,
        (h as nat / 1024) % 32 == 31 && h % 1024 != 0 ==> half_of(single_of(h) as u32) == (h as nat
            / 0x8000) * 0x8000 + 0x7e00,
{
    let e = (h as nat / 1024) % 32;
    let m = h as nat % 1024;
    lemma2_to64();
    if e == 31 {
        lemma_single_fields(h, 255, m * 0x2000);
    } else if e > 0 {
        lemma_single_fields(h, e + 112, m * 0x2000);
        lemma_rne_exact(m, 0x2000);
    } else if m == 0 {
        lemma_single_fields(h, 0, 0);
    } else {
        lemma_lead(m);
        let k = lead(m);
        let x = m * pow2(k);
        lemma_single_fields(h, (113 - k) as nat, ((x - 1024) * 0x2000) as nat);
        assert((x - 1024) * 0x2000 + 0x80_0000 == x * 0x2000);
        lemma_pow2_adds(k, 13);
        lemma_pow2_pos(k + 13);
        assert((m * pow2(k)) * 0x2000 == m * (pow2(k) * 0x2000)) by (nonlinear_arith);
        lemma_rne_exact(m, pow2(k + 13));
        if k == 0 {
            lemma_lead_small(m);
        }
    }
}

/// An exact quotient is not rounded.
proof fn lemma_rne_exact(q: nat, d: nat)
    requires
        d > 0,
    ensures
        rne(q * d, d) == q,
{
    lemma_fundamental_div_mod_converse((q * d) as int, d as int, q as int, 0);
}

/// Rounding to half precision twice is rounding once.
pub proof fn law_half_round_idempotent(bits: u32)
    ensures
        half_of(bits) <= u16::MAX,
        half_of(single_of(half_of(bits) as u16) as u32) == half_of(bits),
{
    let e = (bits as nat / 0x80_0000) % 256;
    let m = bits as nat % 0x80_0000;
    lemma_half_magnitude_bound(e, m);
    let h = half_of(bits) as u16;
    law_half_roundtrip(h);
}

/// A NaN pattern of single precision.
pub open spec fn is_nan(bits: u32) -> bool {
    bits as nat % 0x8000_0000 > 0x7f80_0000
}

/// The place of a single-precision pattern that is no NaN in the order of the values.
pub open spec fn rank(bits: u32) -> int {
    if bits >= 0x8000_0000 {
        -(bits - 0x8000_0000)
    } else {
        bits as int
    }
}

/// The value of `a` is greater than that of `b`.
pub open spec fn gt(a: u32, b: u32) -> bool {
    !is_nan(a) && !is_nan(b) && rank(a) > rank(b)
}

/// Whether the value of one single-precision pattern is greater than that of another. Nothing is
/// greater than a NaN, nor is a NaN greater than anything; the two zeros are equal.
pub fn f32_gt(a: u32, b: u32) -> (r: bool)
    ensures
        r == gt(a, b),
{
    if a % 0x8000_0000 > 0x7f80_0000 || b % 0x8000_0000 > 0x7f80_0000 {
        return false;
    }
    let x: i64 = if a >= 0x8000_0000 {
        -((a - 0x8000_0000) as i64)
    } else {
        a as i64
    };
    let y: i64 = if b >= 0x8000_0000 {
        -((b - 0x8000_0000) as i64)
    } else {
        b as i64
    };
    x > y
}

/// A single-precision pattern rounded to half precision and brought back.
pub fn f16_round(bits: u32) -> (r: u32)
    ensures
        r as nat == single_of(half_of(bits) as u16),
{
    f16_to_f32(f32_to_f16_rte(bits))
}

/// Exponent and mantissa of single precision, without sign, for a double-precision exponent `e`
/// and mantissa `m`: rounded to the nearest, halves to even. Too large becomes infinity; a NaN
/// keeps the top of its payload and becomes quiet.
pub open spec fn narrow_magnitude(e: nat, m: nat) -> nat {
    if e == 2047 {
        if m != 0 {
            0x7fc0_0000 + (m / 0x2000_0000) % 0x40_0000
        } else {
            0x7f80_0000
        }
    } else if e >= 1151 {
        0x7f80_0000
    } else if e < 872 {
        0
    } else if e <= 896 {
        rne(m + 0x10_0000_0000_0000, pow2((926 - e) as nat))
    } else {
        ((e - 896) * 0x80_0000 + rne(m, 0x2000_0000)) as nat
    }
}

/// The single-precision pattern nearest to a double-precision pattern.
pub open spec fn narrow_of(bits: u64) -> nat {
    (bits as nat / 0x8000_0000_0000_0000) * 0x8000_0000 + narrow_magnitude(
        (bits as nat / 0x10_0000_0000_0000) % 2048,
        bits as nat % 0x10_0000_0000_0000,
    )
}

/// The place of the leading bit of a number.
pub open spec fn leading(n: nat) -> nat
    decreases n,
{
    if n < 2 {
        0
    } else {
        1 + leading(n / 2)
    }
}

/// A whole number in double precision, rounded to the nearest, halves to even.
pub open spec fn double_of(n: nat) -> nat {
    if n == 0 {
        0
    } else {
        (1022 + leading(n)) * 0x10_0000_0000_0000 + rne(n * 0x10_0000_0000_0000, pow2(leading(n)))
    }
}

/// Double precision to single precision, rounded to the nearest, halves to even.
pub fn f64_to_f32(bits: u64) -> (r: u32)
    ensures
        r as nat == narrow_of(bits),
{
    let s: u64 = bits / 0x8000_0000_0000_0000;
    let e: u64 = (bits / 0x10_0000_0000_0000) % 2048;
    let m: u64 = bits % 0x10_0000_0000_0000;
    let mag: u64 = if e == 2047 {
        if m != 0 {
            0x7fc0_0000 + (m / 0x2000_0000) % 0x40_0000
        } else {
            0x7f80_0000
        }
    } else if e >= 1151 {
        0x7f80_0000
    } else if e < 872 {
        0
    } else if e <= 896 {
        let k: u32 = (926 - e) as u32;
        proof {
            lemma2_to64();
            lemma2_to64_rest();
            lemma_pow2_pos(k as nat);
            lemma_pow2_strictly_increases(k as nat, 62);
            if k > 30 {
                lemma_pow2_strictly_increases(30, k as nat);
            }
            let d = pow2(k as nat);
            let n = m as nat + 0x10_0000_0000_0000;
            law_rne_nearest(n, d);
            let r = rne(n, d);
            assert(r <= 0x80_0000) by (nonlinear_arith)
                requires
                    2 * (r * d - n) <= d,
                    n < 0x20_0000_0000_0000,
                    d >= 0x4000_0000,
            ;
        }
        div_rne(m + 0x10_0000_0000_0000, two_to(k))
    } else {
        proof {
            law_rne_nearest(m as nat, 0x2000_0000);
        }
        (e - 896) * 0x80_0000 + div_rne(m, 0x2000_0000)
    };
    (s * 0x8000_0000 + mag) as u32
}

/// The order of numbers: larger magnitudes are greater among the positive and smaller among the
/// negative ones, every negative number lies below every positive one, the two zeros are equal, and
/// no comparison with a NaN holds.
pub proof fn law_order(a: u32, b: u32)
    ensures
        b < a <= 0x7f80_0000 ==> gt(a, b) && !gt(b, a),
        0x8000_0000 <= b < a <= 0xff80_0000 ==> gt(b, a) && !gt(a, b),
        a <= 0x7f80_0000 && 0x8000_0000 < b <= 0xff80_0000 ==> gt(a, b) && !gt(b, a),
        !gt(0, 0x8000_0000) && !gt(0x8000_0000, 0),
        !gt(a, a),
        0x7f80_0000 < a < 0x8000_0000 || a > 0xff80_0000 ==> !gt(a, b) && !gt(b, a),
{
}

proof fn lemma_small_half(r: nat)
    requires
        r <= 1024,
    ensures
        half_units(r) == r,
{
    lemma2_to64();
    if r == 1024 {
        assert((r / 1024) % 32 == 1 && r % 1024 == 0);
        assert(half_units(r) == 1024 * pow2(0));
    } else {
        assert((r / 1024) % 32 == 0 && r % 1024 == r);
    }
}

proof fn lemma_small_single(r: nat)
    requires
        r <= 0x80_0000,
    ensures
        single_units(r) == r,
{
    lemma2_to64();
    if r == 0x80_0000 {
        assert((r / 0x80_0000) % 256 == 1 && r % 0x80_0000 == 0);
        assert(single_units(r) == 0x80_0000 * pow2(0));
    } else {
        assert((r / 0x80_0000) % 256 == 0 && r % 0x80_0000 == r);
    }
}

/// Rounding to half precision keeps the sign, and no finite number of half precision lies nearer by
/// more than a tie: the error is at most half a step of the result's size. What is too large becomes
/// infinite, and what is no number stays none.
pub proof fn law_half_nearest(bits: u32)
    ensures
        half_of(bits) / 0x8000 == bits as nat / 0x8000_0000,
        ({
            let e = (bits as nat / 0x80_0000) % 256;
            let m = bits as nat % 0x80_0000;
            let h = half_of(bits) % 0x8000;
            let step = pow2(
                if e >= 113 {
                    e + 12
                } else {
                    125
                },
            );
            &&& e < 143 ==> 2 * (half_units(h) * pow2(125) - single_units(bits as nat)) <= step
            &&& e < 143 ==> 2 * (single_units(bits as nat) - half_units(h) * pow2(125)) <= step
            &&& 143 <= e < 255 || (e == 255 && m == 0) ==> h == 0x7c00
            &&& e == 255 && m != 0 ==> h > 0x7c00
        }),
{
    let e = (bits as nat / 0x80_0000) % 256;
    let m = bits as nat % 0x80_0000;
    lemma_half_magnitude_bound(e, m);
    let h = half_of(bits) % 0x8000;
    assert(h == half_magnitude(e, m));
    lemma2_to64();
    if 113 <= e < 143 {
        let r = rne(m, 0x2000);
        law_rne_nearest(m, 0x2000);
        assert(r <= 1024);
        let p = pow2((e - 1) as nat);
        lemma_pow2_adds(13, (e - 1) as nat);
        lemma_pow2_adds((e - 113) as nat, 125);
        lemma_pow2_adds((e - 112) as nat, 125);
        lemma_pow2_unfold((e - 112) as nat);
        let u = half_units(h);
        assert(u * pow2(125) == (r + 1024) * (0x2000 * p)) by {
            if r < 1024 {
                assert((h / 1024) % 32 == e - 112 && h % 1024 == r);
                assert((r + 1024) * pow2((e - 113) as nat) * pow2(125) == (r + 1024) * (pow2(
                    (e - 113) as nat,
                ) * pow2(125))) by (nonlinear_arith);
            } else {
                assert((h / 1024) % 32 == e - 111 && h % 1024 == 0);
                assert(1024 * pow2((e - 112) as nat) * pow2(125) == 2048 * (pow2((e - 113) as nat)
                    * pow2(125))) by (nonlinear_arith)
                    requires
                        pow2((e - 112) as nat) == 2 * pow2((e - 113) as nat),
                ;
            }
        }
        assert(2 * ((r + 1024) * (0x2000 * p) - (m + 0x80_0000) * p) <= 0x2000 * p && 2 * ((m
            + 0x80_0000) * p - (r + 1024) * (0x2000 * p)) <= 0x2000 * p) by (nonlinear_arith)
            requires
                2 * (m - r * 0x2000) <= 0x2000,
                2 * (r * 0x2000 - m) <= 0x2000,
                p >= 0,
        ;
    } else if 102 <= e < 113 {
        let d = pow2((126 - e) as nat);
        let n = m + 0x80_0000;
        let p = pow2((e - 1) as nat);
        lemma_pow2_pos((126 - e) as nat);
        law_rne_nearest(n, d);
        let r = rne(n, d);
        if e < 112 {
            lemma_pow2_strictly_increases(14, (126 - e) as nat);
        }
        assert(r <= 1024) by (nonlinear_arith)
            requires
                2 * (r * d - n) <= d,
                n < 0x100_0000,
                d >= 0x4000,
        ;
        lemma_small_half(r);
        assert(half_units(h) == r);
        lemma_pow2_adds((126 - e) as nat, (e - 1) as nat);
        assert(2 * (r * (d * p) - n * p) <= d * p && 2 * (n * p - r * (d * p)) <= d * p)
            by (nonlinear_arith)
            requires
                2 * (n - r * d) <= d,
                2 * (r * d - n) <= d,
                p >= 0,
        ;
    } else if e < 102 {
        assert(half_units(0) == 0);
        assert(0 * pow2(125) == 0) by (nonlinear_arith);
        if e == 0 {
            lemma_pow2_strictly_increases(24, 125);
        } else {
            let p = pow2((e - 1) as nat);
            if e < 101 {
                lemma_pow2_strictly_increases((e - 1) as nat, 100);
            }
            lemma_pow2_adds(24, 100);
            lemma_pow2_unfold(125);
            assert((m + 0x80_0000) * p <= 0x100_0000 * pow2(100)) by (nonlinear_arith)
                requires
                    m + 0x80_0000 <= 0x100_0000,
                    0 <= p <= pow2(100),
            ;
        }
    }
}

/// The magnitude of a pattern of double precision, in units of its smallest step.
pub open spec fn double_units(bits: nat) -> nat {
    let e = (bits / 0x10_0000_0000_0000) % 2048;
    let m = bits % 0x10_0000_0000_0000;
    if e == 0 {
        m
    } else {
        (m + 0x10_0000_0000_0000) * pow2((e - 1) as nat)
    }
}

proof fn lemma_narrow_bound(e: nat, m: nat)
    requires
        e < 2048,
        m < 0x10_0000_0000_0000,
    ensures
        narrow_magnitude(e, m) < 0x8000_0000,
{
    lemma2_to64();
    if 897 <= e < 1151 {
        law_rne_nearest(m, 0x2000_0000);
    } else if 872 <= e <= 896 {
        let d = pow2((926 - e) as nat);
        if e < 896 {
            lemma_pow2_strictly_increases(30, (926 - e) as nat);
        }
        let n = m + 0x10_0000_0000_0000;
        law_rne_nearest(n, d);
        let r = rne(n, d);
        assert(r <= 0x80_0000) by (nonlinear_arith)
            requires
                2 * (r * d - n) <= d,
                n < 0x20_0000_0000_0000,
                d >= 0x4000_0000,
        ;
    }
}

/// Rounding from double to single precision keeps the sign, and the error is at most half a step of
/// the result's size. What is too large becomes infinite, and what is no number stays none.
pub proof fn law_single_nearest(bits: u64)
    ensures
        narrow_of(bits) / 0x8000_0000 == bits as nat / 0x8000_0000_0000_0000,
        ({
            let e = (bits as nat / 0x10_0000_0000_0000) % 2048;
            let m = bits as nat % 0x10_0000_0000_0000;
            let x = narrow_of(bits) % 0x8000_0000;
            let step = pow2(
                if e >= 897 {
                    (e + 28) as nat
                } else {
                    925
                },
            );
            &&& e < 1151 ==> 2 * (single_units(x) * pow2(925) - double_units(bits as nat)) <= step
            &&& e < 1151 ==> 2 * (double_units(bits as nat) - single_units(x) * pow2(925)) <= step
            &&& 1151 <= e < 2047 || (e == 2047 && m == 0) ==> x == 0x7f80_0000
            &&& e == 2047 && m != 0 ==> x > 0x7f80_0000
        }),
{
    let e = (bits as nat / 0x10_0000_0000_0000) % 2048;
    let m = bits as nat % 0x10_0000_0000_0000;
    lemma_narrow_bound(e, m);
    let x = narrow_of(bits) % 0x8000_0000;
    assert(x == narrow_magnitude(e, m));
    lemma2_to64();
    if 897 <= e < 1151 {
        let r = rne(m, 0x2000_0000);
        law_rne_nearest(m, 0x2000_0000);
        assert(r <= 0x80_0000);
        let p = pow2((e - 1) as nat);
        lemma_pow2_adds(29, (e - 1) as nat);
        lemma_pow2_adds((e - 897) as nat, 925);
        lemma_pow2_unfold((e - 896) as nat);
        let u = single_units(x);
        assert(u * pow2(925) == (r + 0x80_0000) * (0x2000_0000 * p)) by {
            if r < 0x80_0000 {
                assert((x / 0x80_0000) % 256 == e - 896 && x % 0x80_0000 == r);
                assert((r + 0x80_0000) * pow2((e - 897) as nat) * pow2(925) == (r + 0x80_0000) * (
                pow2((e - 897) as nat) * pow2(925))) by (nonlinear_arith);
            } else {
                assert((x / 0x80_0000) % 256 == e - 895 && x % 0x80_0000 == 0);
                assert(0x80_0000 * pow2((e - 896) as nat) * pow2(925) == 0x100_0000 * (pow2(
                    (e - 897) as nat,
                ) * pow2(925))) by (nonlinear_arith)
                    requires
                        pow2((e - 896) as nat) == 2 * pow2((e - 897) as nat),
                ;
            }
        }
        assert(2 * ((r + 0x80_0000) * (0x2000_0000 * p) - (m + 0x10_0000_0000_0000) * p)
            <= 0x2000_0000 * p && 2 * ((m + 0x10_0000_0000_0000) * p - (r + 0x80_0000) * (
        0x2000_0000 * p)) <= 0x2000_0000 * p) by (nonlinear_arith)
            requires
                2 * (m - r * 0x2000_0000) <= 0x2000_0000,
                2 * (r * 0x2000_0000 - m) <= 0x2000_0000,
                p >= 0,
        ;
    } else if 872 <= e < 897 {
        let d = pow2((926 - e) as nat);
        let n = m + 0x10_0000_0000_0000;
        let p = pow2((e - 1) as nat);
        lemma_pow2_pos((926 - e) as nat);
        law_rne_nearest(n, d);
        let r = rne(n, d);
        if e < 896 {
            lemma_pow2_strictly_increases(30, (926 - e) as nat);
        }
        assert(r <= 0x80_0000) by (nonlinear_arith)
            requires
                2 * (r * d - n) <= d,
                n < 0x20_0000_0000_0000,
                d >= 0x4000_0000,
        ;
        lemma_small_single(r);
        assert(single_units(x) == r);
        lemma_pow2_adds((926 - e) as nat, (e - 1) as nat);
        assert(2 * (r * (d * p) - n * p) <= d * p && 2 * (n * p - r * (d * p)) <= d * p)
            by (nonlinear_arith)
            requires
                2 * (n - r * d) <= d,
                2 * (r * d - n) <= d,
                p >= 0,
        ;
    } else if e < 872 {
        assert(single_units(0) == 0);
        assert(0 * pow2(925) == 0) by (nonlinear_arith);
        lemma2_to64_rest();
        if e == 0 {
            lemma_pow2_strictly_increases(53, 925);
        } else {
            let p = pow2((e - 1) as nat);
            if e < 871 {
                lemma_pow2_strictly_increases((e - 1) as nat, 870);
            }
            lemma_pow2_adds(53, 870);
            lemma_pow2_strictly_increases(923, 924);
            lemma_pow2_unfold(925);
            assert((m + 0x10_0000_0000_0000) * p <= 0x20_0000_0000_0000 * pow2(870))
                by (nonlinear_arith)
                requires
                    m + 0x10_0000_0000_0000 <= 0x20_0000_0000_0000,
                    0 <= p <= pow2(870),
            ;
        }
    }
}

} // verus!
