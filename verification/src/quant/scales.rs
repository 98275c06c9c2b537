//! The 12-byte packings of six-bit scales.
use vstd::prelude::*;

use super::blocks;

verus! {

/// Byte `i` of sixteen six-bit scales: low halves two to a byte, then the high pairs four to a
/// byte.
pub open spec fn k3_byte(v: Seq<u8>, i: int) -> u8 {
    if i < 8 {
        (v[i] % 16 + 16 * (v[i + 8] % 16)) as u8
    } else {
        (v[i - 8] / 16 + 4 * (v[i - 4] / 16) + 16 * (v[i] / 16) + 64 * (v[i + 4] / 16)) as u8
    }
}

/// Sixteen six-bit scales in twelve bytes.
pub open spec fn k3_pack(v: Seq<u8>) -> Seq<u8> {
    Seq::new(12, |i: int| k3_byte(v, i))
}

/// Scale `j` of a twelve-byte packing, between -32 and 31.
pub open spec fn k3_scale(s: Seq<u8>, j: int) -> int {
    let low = if j < 8 {
        s[j] as int % 16
    } else {
        s[j - 8] as int / 16
    };
    low + 16 * ((s[8 + j % 4] as int / blocks::p4(j / 4)) % 4) - 32
}

/// Appends sixteen scales, each given 32 too high.
pub fn push_k3_scales(out: &mut Vec<u8>, v: &[u8])
    requires
        v@.len() == 16,
        blocks::below(v@, 64),
    ensures
        final(out)@ == old(out)@ + k3_pack(v@),
{
    let mut i: usize = 0;
    while i < 12
        invariant
            i <= 12,
            v@.len() == 16,
            blocks::below(v@, 64),
            out@ == old(out)@ + k3_pack(v@).take(i as int),
        decreases 12 - i,
    {
        let b: u8 = if i < 8 {
            v[i] % 16 + 16 * (v[i + 8] % 16)
        } else {
            v[i - 8] / 16 + 4 * (v[i - 4] / 16) + 16 * (v[i] / 16) + 64 * (v[i + 4] / 16)
        };
        out.push(b);
        assert(k3_pack(v@).take(i + 1) =~= k3_pack(v@).take(i as int).push(k3_byte(v@, i as int)));
        i = i + 1;
    }
    assert(k3_pack(v@).take(i as int) =~= k3_pack(v@));
}

/// The sixteen scales of a twelve-byte packing.
pub fn k3_scales(s: &[u8]) -> (r: Vec<i32>)
    requires
        s@.len() == 12,
    ensures
        r@.len() == 16,
        forall|j: int| 0 <= j < 16 ==> #[trigger] r@[j] == k3_scale(s@, j),
        forall|j: int| 0 <= j < 16 ==> -32 <= #[trigger] r@[j] <= 31,
{
    let mut r: Vec<i32> = Vec::new();
    let mut j: usize = 0;
    while j < 16
        invariant
            j == r@.len() <= 16,
            s@.len() == 12,
            forall|k: int| 0 <= k < j ==> #[trigger] r@[k] == k3_scale(s@, k),
            forall|k: int| 0 <= k < j ==> -32 <= #[trigger] r@[k] <= 31,
        decreases 16 - j,
    {
        let low: u8 = if j < 8 {
            s[j] % 16
        } else {
            s[j - 8] / 16
        };
        let p: u8 = blocks::pow4(j / 4);
        let high: u8 = (s[8 + j % 4] / p) % 4;
        r.push(low as i32 + 16 * high as i32 - 32);
        j = j + 1;
    }
    r
}

/// Unpacking gives back every scale that was packed.
pub proof fn law_k3_scales(v: Seq<u8>, j: int)
    requires
        v.len() == 16,
        blocks::below(v, 64),
        0 <= j < 16,
    ensures
        k3_scale(k3_pack(v), j) == v[j] - 32,
{
    let s = k3_pack(v);
    let m = j % 4;
    let g = j / 4;
    assert(j == 4 * g + m);
    assert(s[8 + m] == k3_byte(v, 8 + m));
    assert(v[m] < 64 && v[m + 4] < 64 && v[m + 8] < 64 && v[m + 12] < 64);
    blocks::lemma_quad(
        v[m] as int / 16,
        v[m + 4] as int / 16,
        v[m + 8] as int / 16,
        v[m + 12] as int / 16,
    );
    assert(g == 0 || g == 1 || g == 2 || g == 3);
    if j < 8 {
        assert(s[j] == k3_byte(v, j));
    } else {
        assert(s[j - 8] == k3_byte(v, j - 8));
    }
}

/// Byte `i` of eight six-bit scales and eight six-bit minima.
pub open spec fn k4_byte(sc: Seq<u8>, mn: Seq<u8>, i: int) -> u8 {
    if i < 4 {
        (sc[i] + 64 * (sc[i + 4] / 16)) as u8
    } else if i < 8 {
        (mn[i - 4] + 64 * (mn[i] / 16)) as u8
    } else {
        (sc[i - 4] % 16 + 16 * (mn[i - 4] % 16)) as u8
    }
}

/// Eight six-bit scales and minima in twelve bytes.
pub open spec fn k4_pack(sc: Seq<u8>, mn: Seq<u8>) -> Seq<u8> {
    Seq::new(12, |i: int| k4_byte(sc, mn, i))
}

/// Packs eight scales and minima.
pub fn pack_scale_min_k4(sc: &[u8], mn: &[u8]) -> (r: Vec<u8>)
    requires
        sc@.len() == 8,
        mn@.len() == 8,
        blocks::below(sc@, 64),
        blocks::below(mn@, 64),
    ensures
        r@ == k4_pack(sc@, mn@),
{
    let mut r: Vec<u8> = Vec::new();
    let mut i: usize = 0;
    while i < 12
        invariant
            i == r@.len() <= 12,
            sc@.len() == 8,
            mn@.len() == 8,
            blocks::below(sc@, 64),
            blocks::below(mn@, 64),
            forall|k: int| 0 <= k < i ==> #[trigger] r@[k] == k4_byte(sc@, mn@, k),
        decreases 12 - i,
    {
        let b: u8 = if i < 4 {
            sc[i] + 64 * (sc[i + 4] / 16)
        } else if i < 8 {
            mn[i - 4] + 64 * (mn[i] / 16)
        } else {
            sc[i - 4] % 16 + 16 * (mn[i - 4] % 16)
        };
        r.push(b);
        i = i + 1;
    }
    assert(r@ =~= k4_pack(sc@, mn@));
    r
}

/// Scale and minimum `j` of a twelve-byte packing.
pub open spec fn k4_pair(s: Seq<u8>, j: int) -> (int, int) {
    if j < 4 {
        (s[j] as int % 64, s[j + 4] as int % 64)
    } else {
        (
            s[j + 4] as int % 16 + 16 * (s[j - 4] as int / 64),
            s[j + 4] as int / 16 + 16 * (s[j] as int / 64),
        )
    }
}

/// Scale and minimum `j` of a twelve-byte packing.
pub fn k4_scale_min(j: usize, s: &[u8]) -> (r: (i32, i32))
    requires
        j < 8,
        s@.len() == 12,
    ensures
        (r.0 as int, r.1 as int) == k4_pair(s@, j as int),
        0 <= r.0 < 64,
        0 <= r.1 < 64,
{
    if j < 4 {
        ((s[j] % 64) as i32, (s[j + 4] % 64) as i32)
    } else {
        (
            (s[j + 4] % 16) as i32 + 16 * (s[j - 4] / 64) as i32,
            (s[j + 4] / 16) as i32 + 16 * (s[j] / 64) as i32,
        )
    }
}

/// Fields of the mixed bytes.
proof fn lemma_mixed(a: int, b: int)
    requires
        0 <= a < 64,
        0 <= b < 64,
    ensures
        0 <= a + 64 * (b / 16) < 256,
        (a + 64 * (b / 16)) % 64 == a,
        (a + 64 * (b / 16)) / 64 == b / 16,
        0 <= a % 16 + 16 * (b % 16) < 256,
        (a % 16 + 16 * (b % 16)) % 16 == a % 16,
        (a % 16 + 16 * (b % 16)) / 16 == b % 16,
        a == a % 16 + 16 * (a / 16),
{
}

/// Unpacking gives back every scale and minimum that was packed.
pub proof fn law_k4_scales(sc: Seq<u8>, mn: Seq<u8>, j: int)
    requires
        sc.len() == 8,
        mn.len() == 8,
        blocks::below(sc, 64),
        blocks::below(mn, 64),
        0 <= j < 8,
    ensures
        k4_pair(k4_pack(sc, mn), j) == (sc[j] as int, mn[j] as int),
{
    let s = k4_pack(sc, mn);
    if j < 4 {
        assert(s[j] == k4_byte(sc, mn, j));
        assert(s[j + 4] == k4_byte(sc, mn, j + 4));
        lemma_mixed(sc[j] as int, sc[j + 4] as int);
        lemma_mixed(mn[j] as int, mn[j + 4] as int);
    } else {
        assert(s[j] == k4_byte(sc, mn, j));
        assert(s[j + 4] == k4_byte(sc, mn, j + 4));
        assert(s[j - 4] == k4_byte(sc, mn, j - 4));
        lemma_mixed(sc[j - 4] as int, sc[j] as int);
        lemma_mixed(mn[j - 4] as int, mn[j] as int);
        lemma_mixed(sc[j] as int, mn[j] as int);
        lemma_mixed(mn[j] as int, sc[j] as int);
    }
}

} // verus!
