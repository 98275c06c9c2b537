//! Block codecs of the K-quant formats: fields of a block to its bytes and back.
//!
//! A field is written as a number in place: `a + 4 * b` puts `b` two bits above `a`.
use vstd::prelude::*;

verus! {

/// Elements of a super-block.
pub const QK_K: usize = 256;

/// Elements of a `Q8_0` block.
pub const QK8_0: usize = 32;

/// `4` to the power `s`, for `s < 4`.
pub open spec fn p4(s: int) -> int {
    if s == 0 {
        1
    } else if s == 1 {
        4
    } else if s == 2 {
        16
    } else {
        64
    }
}

/// `2` to the power `k`, for `k < 8`.
pub open spec fn p2(k: int) -> int {
    if k == 0 {
        1
    } else if k == 1 {
        2
    } else if k == 2 {
        4
    } else if k == 3 {
        8
    } else if k == 4 {
        16
    } else if k == 5 {
        32
    } else if k == 6 {
        64
    } else {
        128
    }
}

pub(crate) fn pow4(s: usize) -> (r: u8)
    requires
        s < 4,
    ensures
        r == p4(s as int),
{
    if s == 0 {
        1
    } else if s == 1 {
        4
    } else if s == 2 {
        16
    } else {
        64
    }
}

pub(crate) fn pow2_8(k: usize) -> (r: u8)
    requires
        k < 8,
    ensures
        r == p2(k as int),
{
    if k < 4 {
        if k == 0 {
            1
        } else if k == 1 {
            2
        } else if k == 2 {
            4
        } else {
            8
        }
    } else if k == 4 {
        16
    } else if k == 5 {
        32
    } else if k == 6 {
        64
    } else {
        128
    }
}

/// Every element is below `m`.
pub open spec fn below(s: Seq<u8>, m: int) -> bool {
    forall|i: int| 0 <= i < s.len() ==> (#[trigger] s[i]) < m
}

/// The 16-bit number of two little-endian bytes.
pub open spec fn half_at(raw: Seq<u8>, at: int) -> u16 {
    (raw[at] + 256 * raw[at + 1]) as u16
}

/// Reads a little-endian 16-bit number.
pub fn read_half(raw: &[u8], at: usize) -> (r: u16)
    requires
        at + 1 < raw@.len(),
    ensures
        r == half_at(raw@, at as int),
{
    raw[at] as u16 + 256 * raw[at + 1] as u16
}

/// Four two-bit fields in place are read back one by one.
pub proof fn lemma_quad(a: int, b: int, c: int, d: int)
    requires
        0 <= a < 4,
        0 <= b < 4,
        0 <= c < 4,
        0 <= d < 4,
    ensures
        ({
            let x = a + 4 * b + 16 * c + 64 * d;
            &&& 0 <= x < 256
            &&& (x / 1) % 4 == a
            &&& (x / 4) % 4 == b
            &&& (x / 16) % 4 == c
            &&& (x / 64) % 4 == d
        }),
{
    let x = a + 4 * b + 16 * c + 64 * d;
    assert(x / 4 == b + 4 * c + 16 * d);
    assert(x / 16 == c + 4 * d);
    assert(x / 64 == d);
}

/// Eight one-bit fields in place are read back one by one.
pub proof fn lemma_octet(b0: int, b1: int, b2: int, b3: int, b4: int, b5: int, b6: int, b7: int)
    requires
        0 <= b0 < 2,
        0 <= b1 < 2,
        0 <= b2 < 2,
        0 <= b3 < 2,
        0 <= b4 < 2,
        0 <= b5 < 2,
        0 <= b6 < 2,
        0 <= b7 < 2,
    ensures
        ({
            let x = b0 + 2 * b1 + 4 * b2 + 8 * b3 + 16 * b4 + 32 * b5 + 64 * b6 + 128 * b7;
            &&& 0 <= x < 256
            &&& (x / 1) % 2 == b0
            &&& (x / 2) % 2 == b1
            &&& (x / 4) % 2 == b2
            &&& (x / 8) % 2 == b3
            &&& (x / 16) % 2 == b4
            &&& (x / 32) % 2 == b5
            &&& (x / 64) % 2 == b6
            &&& (x / 128) % 2 == b7
        }),
{
    let x = b0 + 2 * b1 + 4 * b2 + 8 * b3 + 16 * b4 + 32 * b5 + 64 * b6 + 128 * b7;
    assert(x / 2 == b1 + 2 * b2 + 4 * b3 + 8 * b4 + 16 * b5 + 32 * b6 + 64 * b7);
    assert(x / 4 == b2 + 2 * b3 + 4 * b4 + 8 * b5 + 16 * b6 + 32 * b7);
    assert(x / 8 == b3 + 2 * b4 + 4 * b5 + 8 * b6 + 16 * b7);
    assert(x / 16 == b4 + 2 * b5 + 4 * b6 + 8 * b7);
    assert(x / 32 == b5 + 2 * b6 + 4 * b7);
    assert(x / 64 == b6 + 2 * b7);
    assert(x / 128 == b7);
}

/// Byte `i` of the two-bit planes: elements 32 apart within a half.
pub open spec fn crumbs_byte(q: Seq<u8>, i: int) -> u8 {
    let n = i / 32;
    let j = i % 32;
    (q[128 * n + j] % 4 + 4 * (q[128 * n + 32 + j] % 4) + 16 * (q[128 * n + 64 + j] % 4) + 64 * (q[128
        * n + 96 + j] % 4)) as u8
}

/// The two low bits of 256 elements, four to a byte.
pub open spec fn crumbs(q: Seq<u8>) -> Seq<u8> {
    Seq::new(64, |i: int| crumbs_byte(q, i))
}

/// Appends the two low bits of 256 elements, four to a byte.
pub fn push_crumbs(out: &mut Vec<u8>, q: &[u8])
    requires
        q@.len() == 256,
        below(q@, 256),
    ensures
        final(out)@ == old(out)@ + crumbs(q@),
{
    let mut i: usize = 0;
    while i < 64
        invariant
            i <= 64,
            q@.len() == 256,
            below(q@, 256),
            out@ == old(out)@ + crumbs(q@).take(i as int),
        decreases 64 - i,
    {
        let base: usize = 128 * (i / 32) + i % 32;
        let b: u8 = q[base] % 4 + 4 * (q[base + 32] % 4) + 16 * (q[base + 64] % 4) + 64 * (q[base
            + 96] % 4);
        out.push(b);
        assert(crumbs(q@).take(i + 1) =~= crumbs(q@).take(i as int).push(crumbs_byte(q@, i as int)));
        i = i + 1;
    }
    assert(crumbs(q@).take(i as int) =~= crumbs(q@));
}

/// The two-bit field of element `idx`.
pub open spec fn crumb(raw: Seq<u8>, idx: int) -> u8 {
    let n = idx / 128;
    let s = (idx % 128) / 32;
    let j = idx % 32;
    ((raw[32 * n + j] as int / p4(s)) % 4) as u8
}

/// The two-bit field of element `idx`.
pub fn read_crumb(raw: &[u8], idx: usize) -> (r: u8)
    requires
        raw@.len() == 64,
        idx < 256,
    ensures
        r == crumb(raw@, idx as int),
{
    let n: usize = idx / 128;
    let s: usize = (idx % 128) / 32;
    let j: usize = idx % 32;
    (raw[32 * n + j] / pow4(s)) % 4
}

/// Reading a two-bit field gives back the two low bits of its element.
pub proof fn law_crumbs(q: Seq<u8>, idx: int)
    requires
        q.len() == 256,
        below(q, 256),
        0 <= idx < 256,
    ensures
        crumb(crumbs(q), idx) == q[idx] % 4,
{
    let n = idx / 128;
    let s = (idx % 128) / 32;
    let j = idx % 32;
    let i = 32 * n + j;
    assert(i / 32 == n && i % 32 == j);
    assert(idx == 128 * n + 32 * s + j);
    assert(crumbs(q)[i] == crumbs_byte(q, i));
    lemma_quad(
        q[128 * n + j] as int % 4,
        q[128 * n + 32 + j] as int % 4,
        q[128 * n + 64 + j] as int % 4,
        q[128 * n + 96 + j] as int % 4,
    );
    assert(s == 0 || s == 1 || s == 2 || s == 3);
}

/// Byte `j` of the high-bit mask: bit `4 n + s` belongs to element `128 n + 32 s + j`.
pub open spec fn high_bits_byte(q: Seq<u8>, i: int) -> u8 {
    (q[i] / 4 + 2 * (q[32 + i] / 4) + 4 * (q[64 + i] / 4) + 8 * (q[96 + i] / 4) + 16 * (q[128 + i]
        / 4) + 32 * (q[160 + i] / 4) + 64 * (q[192 + i] / 4) + 128 * (q[224 + i] / 4)) as u8
}

/// The third bit of 256 elements, eight to a byte.
pub open spec fn high_bits(q: Seq<u8>) -> Seq<u8> {
    Seq::new(32, |i: int| high_bits_byte(q, i))
}

/// Appends the third bit of 256 elements, eight to a byte.
pub fn push_high_bits(out: &mut Vec<u8>, q: &[u8])
    requires
        q@.len() == 256,
        below(q@, 8),
    ensures
        final(out)@ == old(out)@ + high_bits(q@),
{
    let mut i: usize = 0;
    while i < 32
        invariant
            i <= 32,
            q@.len() == 256,
            below(q@, 8),
            out@ == old(out)@ + high_bits(q@).take(i as int),
        decreases 32 - i,
    {
        let b: u8 = q[i] / 4 + 2 * (q[32 + i] / 4) + 4 * (q[64 + i] / 4) + 8 * (q[96 + i] / 4) + 16
            * (q[128 + i] / 4) + 32 * (q[160 + i] / 4) + 64 * (q[192 + i] / 4) + 128 * (q[224 + i]
            / 4);
        out.push(b);
        assert(high_bits(q@).take(i + 1) =~= high_bits(q@).take(i as int).push(high_bits_byte(q@, i as int)));
        i = i + 1;
    }
    assert(high_bits(q@).take(i as int) =~= high_bits(q@));
}

/// The high bit of element `idx`.
pub open spec fn high_bit(raw: Seq<u8>, idx: int) -> u8 {
    ((raw[idx % 32] as int / p2(idx / 32)) % 2) as u8
}

/// The high bit of element `idx`.
pub fn read_high_bit(raw: &[u8], idx: usize) -> (r: u8)
    requires
        raw@.len() == 32,
        idx < 256,
    ensures
        r == high_bit(raw@, idx as int),
{
    (raw[idx % 32] / pow2_8(idx / 32)) % 2
}

/// Reading a high bit gives back the third bit of its element.
pub proof fn law_high_bits(q: Seq<u8>, idx: int)
    requires
        q.len() == 256,
        below(q, 8),
        0 <= idx < 256,
    ensures
        high_bit(high_bits(q), idx) == q[idx] / 4,
{
    let j = idx % 32;
    assert(high_bits(q)[j] == high_bits_byte(q, j));
    let k = idx / 32;
    assert(idx == 32 * k + j);
    assert(forall|i: int| 0 <= i < 256 ==> (#[trigger] q[i]) < 8);
    lemma_octet(
        q[j] as int / 4,
        q[32 + j] as int / 4,
        q[64 + j] as int / 4,
        q[96 + j] as int / 4,
        q[128 + j] as int / 4,
        q[160 + j] as int / 4,
        q[192 + j] as int / 4,
        q[224 + j] as int / 4,
    );
    assert(k == 0 || k == 1 || k == 2 || k == 3 || k == 4 || k == 5 || k == 6 || k == 7);
}

/// Byte `i` of the four-bit planes: elements 32 apart within a group of 64.
pub open spec fn nibbles_byte(q: Seq<u8>, i: int) -> u8 {
    let g = i / 32;
    let l = i % 32;
    (q[64 * g + l] % 16 + 16 * (q[64 * g + 32 + l] % 16)) as u8
}

/// The four low bits of 256 elements, two to a byte.
pub open spec fn nibbles(q: Seq<u8>) -> Seq<u8> {
    Seq::new(128, |i: int| nibbles_byte(q, i))
}

/// Appends the four low bits of 256 elements, two to a byte.
pub fn push_nibbles(out: &mut Vec<u8>, q: &[u8])
    requires
        q@.len() == 256,
        below(q@, 256),
    ensures
        final(out)@ == old(out)@ + nibbles(q@),
{
    let mut i: usize = 0;
    while i < 128
        invariant
            i <= 128,
            q@.len() == 256,
            below(q@, 256),
            out@ == old(out)@ + nibbles(q@).take(i as int),
        decreases 128 - i,
    {
        let base: usize = 64 * (i / 32) + i % 32;
        let b: u8 = q[base] % 16 + 16 * (q[base + 32] % 16);
        out.push(b);
        assert(nibbles(q@).take(i + 1) =~= nibbles(q@).take(i as int).push(nibbles_byte(q@, i as int)));
        i = i + 1;
    }
    assert(nibbles(q@).take(i as int) =~= nibbles(q@));
}

/// The four-bit field of element `idx`.
pub open spec fn nibble(raw: Seq<u8>, idx: int) -> u8 {
    let b = raw[32 * (idx / 64) + idx % 32];
    if (idx / 32) % 2 == 0 {
        (b % 16) as u8
    } else {
        (b / 16) as u8
    }
}

/// The four-bit field of element `idx`.
pub fn read_nibble(raw: &[u8], idx: usize) -> (r: u8)
    requires
        raw@.len() == 128,
        idx < 256,
    ensures
        r == nibble(raw@, idx as int),
{
    let b: u8 = raw[32 * (idx / 64) + idx % 32];
    if (idx / 32) % 2 == 0 {
        b % 16
    } else {
        b / 16
    }
}

/// Reading a four-bit field gives back the four low bits of its element.
pub proof fn law_nibbles(q: Seq<u8>, idx: int)
    requires
        q.len() == 256,
        below(q, 256),
        0 <= idx < 256,
    ensures
        nibble(nibbles(q), idx) == q[idx] % 16,
{
    let g = idx / 64;
    let l = idx % 32;
    let i = 32 * g + l;
    assert(i / 32 == g && i % 32 == l);
    assert(nibbles(q)[i] == nibbles_byte(q, i));
    assert(idx == 64 * g + 32 * ((idx / 32) % 2) + l);
}

/// Byte `l` of the fifth-bit mask: bit `k` belongs to element `32 k + l`.
pub open spec fn fifth_bits_byte(q: Seq<u8>, i: int) -> u8 {
    (q[i] / 16 + 2 * (q[32 + i] / 16) + 4 * (q[64 + i] / 16) + 8 * (q[96 + i] / 16) + 16 * (q[128 + i]
        / 16) + 32 * (q[160 + i] / 16) + 64 * (q[192 + i] / 16) + 128 * (q[224 + i] / 16)) as u8
}

/// The fifth bit of 256 elements, eight to a byte.
pub open spec fn fifth_bits(q: Seq<u8>) -> Seq<u8> {
    Seq::new(32, |i: int| fifth_bits_byte(q, i))
}

/// Appends the fifth bit of 256 elements, eight to a byte.
pub fn push_fifth_bits(out: &mut Vec<u8>, q: &[u8])
    requires
        q@.len() == 256,
        below(q@, 32),
    ensures
        final(out)@ == old(out)@ + fifth_bits(q@),
{
    let mut i: usize = 0;
    while i < 32
        invariant
            i <= 32,
            q@.len() == 256,
            below(q@, 32),
            out@ == old(out)@ + fifth_bits(q@).take(i as int),
        decreases 32 - i,
    {
        let b: u8 = q[i] / 16 + 2 * (q[32 + i] / 16) + 4 * (q[64 + i] / 16) + 8 * (q[96 + i] / 16)
            + 16 * (q[128 + i] / 16) + 32 * (q[160 + i] / 16) + 64 * (q[192 + i] / 16) + 128 * (q[224
            + i] / 16);
        out.push(b);
        assert(fifth_bits(q@).take(i + 1) =~= fifth_bits(q@).take(i as int).push(fifth_bits_byte(q@, i as int)));
        i = i + 1;
    }
    assert(fifth_bits(q@).take(i as int) =~= fifth_bits(q@));
}

/// The fifth bit of element `idx`.
pub open spec fn fifth_bit(raw: Seq<u8>, idx: int) -> u8 {
    ((raw[idx % 32] as int / p2(idx / 32)) % 2) as u8
}

/// The fifth bit of element `idx`.
pub fn read_fifth_bit(raw: &[u8], idx: usize) -> (r: u8)
    requires
        raw@.len() == 32,
        idx < 256,
    ensures
        r == fifth_bit(raw@, idx as int),
{
    (raw[idx % 32] / pow2_8(idx / 32)) % 2
}

/// Reading a fifth bit gives back the fifth bit of its element.
pub proof fn law_fifth_bits(q: Seq<u8>, idx: int)
    requires
        q.len() == 256,
        below(q, 32),
        0 <= idx < 256,
    ensures
        fifth_bit(fifth_bits(q), idx) == q[idx] / 16,
{
    let l = idx % 32;
    assert(fifth_bits(q)[l] == fifth_bits_byte(q, l));
    let k = idx / 32;
    assert(idx == 32 * k + l);
    assert(forall|i: int| 0 <= i < 256 ==> (#[trigger] q[i]) < 32);
    lemma_octet(
        q[l] as int / 16,
        q[32 + l] as int / 16,
        q[64 + l] as int / 16,
        q[96 + l] as int / 16,
        q[128 + l] as int / 16,
        q[160 + l] as int / 16,
        q[192 + l] as int / 16,
        q[224 + l] as int / 16,
    );
    assert(k == 0 || k == 1 || k == 2 || k == 3 || k == 4 || k == 5 || k == 6 || k == 7);
}

/// Byte `i` of the four-bit planes of the six-bit format: elements 64 apart within a half.
pub open spec fn lows_byte(q: Seq<u8>, i: int) -> u8 {
    let n = i / 64;
    let l = i % 64;
    (q[128 * n + l] % 16 + 16 * (q[128 * n + 64 + l] % 16)) as u8
}

/// The four low bits of 256 elements, two to a byte, by halves of 128.
pub open spec fn lows(q: Seq<u8>) -> Seq<u8> {
    Seq::new(128, |i: int| lows_byte(q, i))
}

/// Appends the four low bits of 256 elements, two to a byte, by halves of 128.
pub fn push_lows(out: &mut Vec<u8>, q: &[u8])
    requires
        q@.len() == 256,
        below(q@, 256),
    ensures
        final(out)@ == old(out)@ + lows(q@),
{
    let mut i: usize = 0;
    while i < 128
        invariant
            i <= 128,
            q@.len() == 256,
            below(q@, 256),
            out@ == old(out)@ + lows(q@).take(i as int),
        decreases 128 - i,
    {
        let base: usize = 128 * (i / 64) + i % 64;
        let b: u8 = q[base] % 16 + 16 * (q[base + 64] % 16);
        out.push(b);
        assert(lows(q@).take(i + 1) =~= lows(q@).take(i as int).push(lows_byte(q@, i as int)));
        i = i + 1;
    }
    assert(lows(q@).take(i as int) =~= lows(q@));
}

/// The four low bits of element `idx` of the six-bit format.
pub open spec fn low(raw: Seq<u8>, idx: int) -> u8 {
    let b = raw[64 * (idx / 128) + idx % 64];
    if (idx / 64) % 2 == 0 {
        (b % 16) as u8
    } else {
        (b / 16) as u8
    }
}

/// The four low bits of element `idx` of the six-bit format.
pub fn read_low(raw: &[u8], idx: usize) -> (r: u8)
    requires
        raw@.len() == 128,
        idx < 256,
    ensures
        r == low(raw@, idx as int),
{
    let b: u8 = raw[64 * (idx / 128) + idx % 64];
    if (idx / 64) % 2 == 0 {
        b % 16
    } else {
        b / 16
    }
}

/// Reading the four low bits gives back those of the element.
pub proof fn law_lows(q: Seq<u8>, idx: int)
    requires
        q.len() == 256,
        below(q, 256),
        0 <= idx < 256,
    ensures
        low(lows(q), idx) == q[idx] % 16,
{
    let n = idx / 128;
    let l = idx % 64;
    let i = 64 * n + l;
    assert(i / 64 == n && i % 64 == l);
    assert(lows(q)[i] == lows_byte(q, i));
    assert(idx == 128 * n + 64 * ((idx / 64) % 2) + l);
}

/// Byte `i` of the two-bit planes of the six-bit format: elements 32 apart within a half.
pub open spec fn uppers_byte(q: Seq<u8>, i: int) -> u8 {
    let n = i / 32;
    let l = i % 32;
    (q[128 * n + l] / 16 + 4 * (q[128 * n + 32 + l] / 16) + 16 * (q[128 * n + 64 + l] / 16) + 64 * (
    q[128 * n + 96 + l] / 16)) as u8
}

/// The two high bits of 256 six-bit elements, four to a byte.
pub open spec fn uppers(q: Seq<u8>) -> Seq<u8> {
    Seq::new(64, |i: int| uppers_byte(q, i))
}

/// Appends the two high bits of 256 six-bit elements, four to a byte.
pub fn push_uppers(out: &mut Vec<u8>, q: &[u8])
    requires
        q@.len() == 256,
        below(q@, 64),
    ensures
        final(out)@ == old(out)@ + uppers(q@),
{
    let mut i: usize = 0;
    while i < 64
        invariant
            i <= 64,
            q@.len() == 256,
            below(q@, 64),
            out@ == old(out)@ + uppers(q@).take(i as int),
        decreases 64 - i,
    {
        let base: usize = 128 * (i / 32) + i % 32;
        let b: u8 = q[base] / 16 + 4 * (q[base + 32] / 16) + 16 * (q[base + 64] / 16) + 64 * (q[base
            + 96] / 16);
        out.push(b);
        assert(uppers(q@).take(i + 1) =~= uppers(q@).take(i as int).push(uppers_byte(q@, i as int)));
        i = i + 1;
    }
    assert(uppers(q@).take(i as int) =~= uppers(q@));
}

/// The two high bits of element `idx` of the six-bit format.
pub open spec fn upper(raw: Seq<u8>, idx: int) -> u8 {
    let n = idx / 128;
    let s = (idx % 128) / 32;
    ((raw[32 * n + idx % 32] as int / p4(s)) % 4) as u8
}

/// The two high bits of element `idx` of the six-bit format.
pub fn read_upper(raw: &[u8], idx: usize) -> (r: u8)
    requires
        raw@.len() == 64,
        idx < 256,
    ensures
        r == upper(raw@, idx as int),
{
    let n: usize = idx / 128;
    let s: usize = (idx % 128) / 32;
    (raw[32 * n + idx % 32] / pow4(s)) % 4
}

/// Reading the two high bits gives back those of the element.
pub proof fn law_uppers(q: Seq<u8>, idx: int)
    requires
        q.len() == 256,
        below(q, 64),
        0 <= idx < 256,
    ensures
        upper(uppers(q), idx) == q[idx] / 16,
{
    let n = idx / 128;
    let s = (idx % 128) / 32;
    let l = idx % 32;
    let i = 32 * n + l;
    assert(i / 32 == n && i % 32 == l);
    assert(idx == 128 * n + 32 * s + l);
    assert(uppers(q)[i] == uppers_byte(q, i));
    assert(forall|k: int| 0 <= k < 256 ==> (#[trigger] q[k]) < 64);
    lemma_quad(
        q[128 * n + l] as int / 16,
        q[128 * n + 32 + l] as int / 16,
        q[128 * n + 64 + l] as int / 16,
        q[128 * n + 96 + l] as int / 16,
    );
    assert(s == 0 || s == 1 || s == 2 || s == 3);
}

} // verus!
