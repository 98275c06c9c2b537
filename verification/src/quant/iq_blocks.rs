//! Blocks of the codebook formats: signs, scales and codebook indices, and the weights they stand
//! for.
use vstd::prelude::*;
use vstd::slice::slice_subrange;

use super::blocks;
use super::blocks::{pow2_8, read_half};
use super::dots;
use super::dots::dot_i8;
use super::iq;
use super::iq::grid_bytes;
use super::pack;
use super::pack::push_half;
use crate::bytes;
use crate::bytes::{push_le, read_le};

verus! {

pub const IQ2_XXS_BLOCK_BYTES: usize = 66;

pub const IQ2_XS_BLOCK_BYTES: usize = 74;

pub const IQ3_XXS_BLOCK_BYTES: usize = 98;

/// Bit `i` of a byte.
pub open spec fn bit(n: int, i: int) -> int {
    (n / blocks::p2(i)) % 2
}

/// Number of set bits among the low seven.
pub open spec fn ones7(n: int) -> int {
    bit(n, 0) + bit(n, 1) + bit(n, 2) + bit(n, 3) + bit(n, 4) + bit(n, 5) + bit(n, 6)
}

/// The eight sign bits of seven stored ones: the last makes the number of set bits even.
pub open spec fn full_signs(s7: int) -> int {
    s7 + 128 * (ones7(s7) % 2)
}

/// The eight sign bits of seven stored ones.
pub fn sign_mask(s7: u32) -> (r: u32)
    requires
        s7 < 128,
    ensures
        r == full_signs(s7 as int),
        r < 256,
{
    let n: u32 = s7 % 2 + (s7 / 2) % 2 + (s7 / 4) % 2 + (s7 / 8) % 2 + (s7 / 16) % 2 + (s7 / 32) % 2
        + (s7 / 64) % 2;
    s7 + 128 * (n % 2)
}

/// The bits of a byte below 256 determine it.
proof fn lemma_bits(n: int)
    requires
        0 <= n < 256,
    ensures
        n == bit(n, 0) + 2 * bit(n, 1) + 4 * bit(n, 2) + 8 * bit(n, 3) + 16 * bit(n, 4) + 32 * bit(
            n,
            5,
        ) + 64 * bit(n, 6) + 128 * bit(n, 7),
        0 <= bit(n, 0) < 2,
        0 <= bit(n, 1) < 2,
        0 <= bit(n, 2) < 2,
        0 <= bit(n, 3) < 2,
        0 <= bit(n, 4) < 2,
        0 <= bit(n, 5) < 2,
        0 <= bit(n, 6) < 2,
        0 <= bit(n, 7) < 2,
{
    assert(n / 4 == (n / 2) / 2);
    assert(n / 8 == (n / 4) / 2);
    assert(n / 16 == (n / 8) / 2);
    assert(n / 32 == (n / 16) / 2);
    assert(n / 64 == (n / 32) / 2);
    assert(n / 128 == (n / 64) / 2);
    assert(bit(n, 0) == n % 2);
    assert(bit(n, 7) == n / 128);
}

/// A byte with an even number of set bits is restored from its low seven.
pub proof fn law_signs_restored(s: int)
    requires
        0 <= s < 256,
        (ones7(s) + bit(s, 7)) % 2 == 0,
    ensures
        full_signs(s % 128) == s,
{
    let t = s % 128;
    lemma_bits(s);
    lemma_bits(t);
    assert(bit(s, 7) == s / 128);
    assert(bit(t, 0) == bit(s, 0));
    assert(bit(t, 1) == bit(s, 1));
    assert(bit(t, 2) == bit(s, 2));
    assert(bit(t, 3) == bit(s, 3));
    assert(bit(t, 4) == bit(s, 4));
    assert(bit(t, 5) == bit(s, 5));
    assert(bit(t, 6) == bit(s, 6));
}

/// Flipping all eight signs is flipping the seven stored ones.
pub proof fn law_signs_flipped(s7: int)
    requires
        0 <= s7 < 128,
    ensures
        full_signs(127 - s7) == 255 - full_signs(s7),
{
    lemma_bits(s7);
    assert(bit(s7, 7) == 0);
    blocks::lemma_octet(
        1 - bit(s7, 0),
        1 - bit(s7, 1),
        1 - bit(s7, 2),
        1 - bit(s7, 3),
        1 - bit(s7, 4),
        1 - bit(s7, 5),
        1 - bit(s7, 6),
        0,
    );
}

/// The number whose bits are the first `n` flags.
pub open spec fn flags(neg: Seq<bool>, n: int) -> int
    decreases n,
{
    if n <= 0 {
        0
    } else {
        flags(neg, n - 1) + if neg[n - 1] {
            blocks::p2(n - 1)
        } else {
            0
        }
    }
}

/// Number of flags set among the first `n`.
pub open spec fn count(neg: Seq<bool>, n: int) -> int
    decreases n,
{
    if n <= 0 {
        0
    } else {
        count(neg, n - 1) + if neg[n - 1] {
            1int
        } else {
            0
        }
    }
}

/// The signs of eight elements, with that of element `k` flipped where their number is odd.
pub open spec fn even_signs(neg: Seq<bool>, k: int) -> Seq<bool> {
    if count(neg, 8) % 2 == 1 {
        neg.update(k, !neg[k])
    } else {
        neg
    }
}

proof fn lemma_flags(neg: Seq<bool>)
    requires
        neg.len() == 8,
    ensures
        0 <= flags(neg, 8) < 256,
        forall|i: int| 0 <= i < 8 ==> #[trigger] bit(flags(neg, 8), i) == (if neg[i] {
            1int
        } else {
            0
        }),
        count(neg, 8) == ones7(flags(neg, 8)) + bit(flags(neg, 8), 7),
{
    reveal_with_fuel(flags, 9);
    reveal_with_fuel(count, 9);
    let b = |i: int| if neg[i] {
        1int
    } else {
        0
    };
    blocks::lemma_octet(b(0), b(1), b(2), b(3), b(4), b(5), b(6), b(7));
    let x = flags(neg, 8);
    assert(x == b(0) + 2 * b(1) + 4 * b(2) + 8 * b(3) + 16 * b(4) + 32 * b(5) + 64 * b(6) + 128
        * b(7));
    assert forall|i: int| 0 <= i < 8 implies #[trigger] bit(x, i) == b(i) by {
        assert(i == 0 || i == 1 || i == 2 || i == 3 || i == 4 || i == 5 || i == 6 || i == 7);
    }
}

proof fn lemma_count_update(neg: Seq<bool>, k: int, n: int)
    requires
        0 <= k < neg.len(),
        0 <= n <= neg.len(),
    ensures
        count(neg.update(k, !neg[k]), n) == count(neg, n) + (if k < n {
            if neg[k] {
                -1int
            } else {
                1
            }
        } else {
            0
        }),
    decreases n,
{
    if n > 0 {
        lemma_count_update(neg, k, n - 1);
    }
}

proof fn lemma_flags_update(neg: Seq<bool>, k: int, n: int)
    requires
        0 <= k < neg.len(),
        0 <= n <= neg.len(),
    ensures
        flags(neg.update(k, !neg[k]), n) == flags(neg, n) + (if k < n {
            if neg[k] {
                -blocks::p2(k)
            } else {
                blocks::p2(k)
            }
        } else {
            0
        }),
    decreases n,
{
    if n > 0 {
        lemma_flags_update(neg, k, n - 1);
    }
}

/// Bits of the evened signs, and what the one flipped adds or takes.
proof fn lemma_even(neg: Seq<bool>, k: int)
    requires
        neg.len() == 8,
        0 <= k < 8,
    ensures
        ({
            let e = even_signs(neg, k);
            let x = flags(e, 8);
            &&& 0 <= x < 256
            &&& full_signs(x % 128) == x
            &&& forall|i: int|
                0 <= i < 8 ==> #[trigger] bit(x, i) == (if e[i] {
                    1int
                } else {
                    0
                })
            &&& x == flags(neg, 8) + (if count(neg, 8) % 2 == 1 {
                if neg[k] {
                    -blocks::p2(k)
                } else {
                    blocks::p2(k)
                }
            } else {
                0
            })
        }),
{
    let e = even_signs(neg, k);
    lemma_flags(e);
    lemma_count_update(neg, k, 8);
    lemma_flags_update(neg, k, 8);
    law_signs_restored(flags(e, 8));
}

/// The stored signs of eight elements. Where the number of negative ones is odd, the sign of
/// element `k` is flipped, so that the full signs can be restored.
pub fn store_signs(neg: &[bool], k: usize) -> (r: u8)
    requires
        neg@.len() == 8,
        k < 8,
    ensures
        r < 128,
        forall|i: int|
            0 <= i < 8 ==> #[trigger] bit(full_signs(r as int), i) == (if even_signs(
                neg@,
                k as int,
            )[i] {
                1int
            } else {
                0
            }),
{
    let mut n: u32 = 0;
    let mut s: u32 = 0;
    let mut i: usize = 0;
    while i < 8
        invariant
            i <= 8,
            neg@.len() == 8,
            n == count(neg@, i as int),
            s == flags(neg@, i as int),
            s < blocks::p2(i as int) || i == 8,
            s < 256,
            n <= i,
        decreases 8 - i,
    {
        if neg[i] {
            n = n + 1;
            s = s + pow2_8(i) as u32;
        }
        i = i + 1;
    }
    let odd: bool = n % 2 == 1;
    proof {
        lemma_even(neg@, k as int);
    }
    if odd {
        if neg[k] {
            s = s - pow2_8(k) as u32;
        } else {
            s = s + pow2_8(k) as u32;
        }
    }
    (s % 128) as u8
}

/// The word of stored signs `k` of a group: 255 where the sign is set, 1 elsewhere, a byte each.
pub open spec fn ksign_byte(m: int, i: int) -> int {
    if bit(full_signs(m), i) == 1 {
        255
    } else {
        1
    }
}

/// The sign bytes from `i` on, as a little-endian number.
pub open spec fn ksign_word(m: int, i: nat) -> nat
    decreases 8 - i,
{
    if i >= 8 {
        0
    } else {
        (ksign_byte(m, i as int) + 256 * ksign_word(m, i + 1)) as nat
    }
}

proof fn lemma_ksign_bound(m: int, i: nat)
    requires
        i <= 8,
    ensures
        ksign_word(m, i) < bytes::pow256((8 - i) as nat),
    decreases 8 - i,
{
    if i < 8 {
        lemma_ksign_bound(m, i + 1);
        assert((8 - i) as nat == (8 - (i + 1)) as nat + 1);
    }
}

/// Sign bytes of all 128 stored sign patterns.
pub fn build_ksigns64() -> (r: Vec<u64>)
    ensures
        r@.len() == 128,
        forall|m: int| 0 <= m < 128 ==> #[trigger] r@[m] == ksign_word(m, 0),
{
    let mut t: Vec<u64> = Vec::new();
    let mut m: u32 = 0;
    while m < 128
        invariant
            m == t@.len() <= 128,
            forall|k: int| 0 <= k < m ==> #[trigger] t@[k] == ksign_word(k, 0),
        decreases 128 - m,
    {
        let full: u32 = sign_mask(m);
        let mut w: u64 = 0;
        let mut i: usize = 8;
        while i > 0
            invariant
                i <= 8,
                full == full_signs(m as int),
                full < 256,
                w as nat == ksign_word(m as int, i as nat),
            decreases i,
        {
            i = i - 1;
            proof {
                lemma_ksign_bound(m as int, i as nat);
                bytes::lemma_pow256_mono((8 - i) as nat, 8);
                bytes::lemma_pow256();
            }
            let b: u64 = if (full / pow2_8(i) as u32) % 2 == 1 {
                255
            } else {
                1
            };
            w = b + 256 * w;
        }
        t.push(w);
        m = m + 1;
    }
    t
}

/// Four stored sign patterns and a scale in one word.
pub open spec fn aux_word(s: Seq<u8>, l: u8) -> nat {
    (s[0] + 0x80 * s[1] + 0x4000 * s[2] + 0x20_0000 * s[3] + 0x1000_0000 * l) as nat
}

/// Sign pattern `k` of a word.
pub open spec fn aux_signs(a: nat, k: int) -> int {
    if k == 0 {
        a as int % 128
    } else if k == 1 {
        (a as int / 0x80) % 128
    } else if k == 2 {
        (a as int / 0x4000) % 128
    } else {
        (a as int / 0x20_0000) % 128
    }
}

/// Scale of a word.
pub open spec fn aux_scale(a: nat) -> int {
    a as int / 0x1000_0000
}

/// A word gives back its sign patterns and its scale.
pub proof fn law_aux_word(s: Seq<u8>, l: u8)
    requires
        s.len() == 4,
        blocks::below(s, 128),
        l < 16,
    ensures
        aux_word(s, l) < 0x1_0000_0000,
        forall|k: int| 0 <= k < 4 ==> #[trigger] aux_signs(aux_word(s, l), k) == s[k],
        aux_scale(aux_word(s, l)) == l,
{
    let a = aux_word(s, l) as int;
    assert(s[0] < 128 && s[1] < 128 && s[2] < 128 && s[3] < 128);
    let y1 = s[1] + 0x80 * s[2] + 0x4000 * s[3] + 0x20_0000 * l;
    let y2 = s[2] + 0x80 * s[3] + 0x4000 * l;
    let y3 = s[3] + 0x80 * l;
    assert(a == s[0] + 0x80 * y1);
    assert(a / 0x80 == y1);
    assert(a / 0x4000 == y2);
    assert(a / 0x20_0000 == y3);
    assert(a / 0x1000_0000 == l);
    assert forall|k: int| 0 <= k < 4 implies #[trigger] aux_signs(aux_word(s, l), k) == s[k] by {
        assert(k == 0 || k == 1 || k == 2 || k == 3);
    }
}

/// Sub-block `b` of an `IQ2_XXS` block: four codebook indices, then signs and scale.
pub open spec fn iq2_xxs_sub(gi: Seq<u8>, signs: Seq<u8>, ls: Seq<u8>, b: int) -> Seq<u8> {
    gi.subrange(4 * b, 4 * b + 4) + bytes::le_bytes(
        aux_word(signs.subrange(4 * b, 4 * b + 4), ls[b]),
        4,
    )
}

/// The first `n` sub-blocks.
pub open spec fn iq2_xxs_subs(gi: Seq<u8>, signs: Seq<u8>, ls: Seq<u8>, n: int) -> Seq<u8>
    decreases n,
{
    if n <= 0 {
        Seq::empty()
    } else {
        iq2_xxs_subs(gi, signs, ls, n - 1) + iq2_xxs_sub(gi, signs, ls, n - 1)
    }
}

/// An `IQ2_XXS` block: scale of the block, eight sub-blocks.
pub open spec fn iq2_xxs_bytes(d: u16, gi: Seq<u8>, signs: Seq<u8>, ls: Seq<u8>) -> Seq<u8> {
    pack::half(d) + iq2_xxs_subs(gi, signs, ls, 8)
}

/// Appends an `IQ2_XXS` block: 32 codebook indices, 32 stored sign patterns and 8 scales.
pub fn pack_iq2_xxs(out: &mut Vec<u8>, d: u16, gi: &[u8], signs: &[u8], ls: &[u8])
    requires
        gi@.len() == 32,
        signs@.len() == 32,
        ls@.len() == 8,
        blocks::below(signs@, 128),
        blocks::below(ls@, 16),
    ensures
        final(out)@ == old(out)@ + iq2_xxs_bytes(d, gi@, signs@, ls@),
{
    push_half(out, d);
    let ghost start = out@;
    let mut b: usize = 0;
    while b < 8
        invariant
            b <= 8,
            gi@.len() == 32,
            signs@.len() == 32,
            ls@.len() == 8,
            blocks::below(signs@, 128),
            blocks::below(ls@, 16),
            out@ == start + iq2_xxs_subs(gi@, signs@, ls@, b as int),
        decreases 8 - b,
    {
        let ghost here = out@;
        out.push(gi[4 * b]);
        out.push(gi[4 * b + 1]);
        out.push(gi[4 * b + 2]);
        out.push(gi[4 * b + 3]);
        assert(out@ =~= here + gi@.subrange(4 * b, 4 * b + 4));
        let ghost s = signs@.subrange(4 * b, 4 * b + 4);
        assert(s[0] < 128 && s[1] < 128 && s[2] < 128 && s[3] < 128);
        let aux: u64 = signs[4 * b] as u64 + 0x80 * signs[4 * b + 1] as u64 + 0x4000 * signs[4 * b
            + 2] as u64 + 0x20_0000 * signs[4 * b + 3] as u64 + 0x1000_0000 * ls[b] as u64;
        assert(aux == aux_word(s, ls@[b as int]));
        push_le(out, aux, 4);
        assert(out@ =~= start + iq2_xxs_subs(gi@, signs@, ls@, b + 1));
        b = b + 1;
    }
    assert(out@ =~= old(out)@ + iq2_xxs_bytes(d, gi@, signs@, ls@));
}

/// Codebook index `c` of an `IQ2_XXS` block.
pub open spec fn iq2_xxs_index(raw: Seq<u8>, c: int) -> int {
    raw[2 + 8 * (c / 4) + c % 4] as int
}

/// The word of signs and scale of sub-block `b` of an `IQ2_XXS` block.
pub open spec fn iq2_xxs_aux(raw: Seq<u8>, b: int) -> nat {
    bytes::le_nat(raw.subrange(6 + 8 * b, 10 + 8 * b))
}

proof fn lemma_subs(gi: Seq<u8>, signs: Seq<u8>, ls: Seq<u8>, n: int, b: int)
    requires
        gi.len() == 32,
        signs.len() == 32,
        ls.len() == 8,
        blocks::below(signs, 128),
        blocks::below(ls, 16),
        0 <= b < n <= 8,
    ensures
        iq2_xxs_subs(gi, signs, ls, n).len() == 8 * n,
        iq2_xxs_subs(gi, signs, ls, n).subrange(8 * b, 8 * b + 8) == iq2_xxs_sub(gi, signs, ls, b),
    decreases n,
{
    lemma_sub_len(gi, signs, ls, n - 1);
    let t = iq2_xxs_subs(gi, signs, ls, n);
    if n > 1 {
        lemma_subs(gi, signs, ls, n - 1, if b < n - 1 {
            b
        } else {
            0
        });
    }
    if b < n - 1 {
        assert(t.subrange(8 * b, 8 * b + 8) =~= iq2_xxs_subs(gi, signs, ls, n - 1).subrange(
            8 * b,
            8 * b + 8,
        ));
    } else {
        assert(t.subrange(8 * b, 8 * b + 8) =~= iq2_xxs_sub(gi, signs, ls, b));
    }
}

proof fn lemma_sub_len(gi: Seq<u8>, signs: Seq<u8>, ls: Seq<u8>, b: int)
    requires
        gi.len() == 32,
        signs.len() == 32,
        ls.len() == 8,
        blocks::below(signs, 128),
        blocks::below(ls, 16),
        0 <= b < 8,
    ensures
        iq2_xxs_sub(gi, signs, ls, b).len() == 8,
        aux_word(signs.subrange(4 * b, 4 * b + 4), ls[b]) < 0x1_0000_0000,
        bytes::le_nat(
            bytes::le_bytes(aux_word(signs.subrange(4 * b, 4 * b + 4), ls[b]), 4),
        ) == aux_word(signs.subrange(4 * b, 4 * b + 4), ls[b]),
{
    let s = signs.subrange(4 * b, 4 * b + 4);
    assert forall|i: int| 0 <= i < s.len() implies (#[trigger] s[i]) < 128 by {
        assert(signs[4 * b + i] < 128);
    }
    law_aux_word(s, ls[b]);
    bytes::lemma_pow256();
    bytes::lemma_le_roundtrip(aux_word(s, ls[b]), 4);
}

/// An `IQ2_XXS` block gives back every field that was packed.
pub proof fn law_iq2_xxs(d: u16, gi: Seq<u8>, signs: Seq<u8>, ls: Seq<u8>, c: int)
    requires
        gi.len() == 32,
        signs.len() == 32,
        ls.len() == 8,
        blocks::below(signs, 128),
        blocks::below(ls, 16),
        0 <= c < 32,
    ensures
        ({
            let raw = iq2_xxs_bytes(d, gi, signs, ls);
            &&& raw.len() == IQ2_XXS_BLOCK_BYTES
            &&& blocks::half_at(raw, 0) == d
            &&& iq2_xxs_index(raw, c) == gi[c]
            &&& aux_signs(iq2_xxs_aux(raw, c / 4), c % 4) == signs[c]
            &&& aux_scale(iq2_xxs_aux(raw, c / 4)) == ls[c / 4]
        }),
{
    let raw = iq2_xxs_bytes(d, gi, signs, ls);
    let b = c / 4;
    lemma_subs(gi, signs, ls, 8, b);
    lemma_sub_len(gi, signs, ls, b);
    let sub = iq2_xxs_sub(gi, signs, ls, b);
    let s = signs.subrange(4 * b, 4 * b + 4);
    assert(raw.subrange(2 + 8 * b, 10 + 8 * b) =~= sub);
    assert(raw[2 + 8 * b + c % 4] == raw.subrange(2 + 8 * b, 10 + 8 * b)[c % 4]);
    assert(sub[c % 4] == gi[4 * b + c % 4]);
    assert(raw.subrange(6 + 8 * b, 10 + 8 * b) =~= sub.subrange(4, 8));
    assert(sub.subrange(4, 8) =~= bytes::le_bytes(aux_word(s, ls[b]), 4));
    assert forall|i: int| 0 <= i < s.len() implies (#[trigger] s[i]) < 128 by {
        assert(signs[4 * b + i] < 128);
    }
    law_aux_word(s, ls[b]);
    assert(s[c % 4] == signs[c]);
}

/// Weight `i` of a group of eight: scale times codebook byte, with the sign applied.
pub open spec fn group_weight(g: u64, s7: int, ls: int, i: int) -> int {
    let b = iq::word_byte(g, i as nat) as i8 as int;
    ls * if bit(full_signs(s7), i) == 1 {
        -b
    } else {
        b
    }
}

/// The weights of a group of eight.
pub open spec fn group_weights(g: u64, s7: int, ls: int) -> Seq<int> {
    Seq::new(8, |i: int| group_weight(g, s7, ls, i))
}

/// Appends the weights of a group of eight.
fn push_group(w: &mut Vec<i32>, g: u64, s7: u32, ls: i32)
    requires
        s7 < 128,
        1 <= ls <= 31,
        dots::within(old(w)@, 4096),
    ensures
        dots::ints(final(w)@) == dots::ints(old(w)@) + group_weights(g, s7 as int, ls as int),
        dots::within(final(w)@, 4096),
{
    let gb = grid_bytes(g);
    let sm: u32 = sign_mask(s7);
    let mut i: usize = 0;
    let ghost ws = group_weights(g, s7 as int, ls as int);
    assert(dots::ints(w@) =~= dots::ints(w@) + ws.take(0));
    while i < 8
        invariant
            i <= 8,
            gb@.len() == 8,
            forall|k: int| 0 <= k < 8 ==> #[trigger] gb@[k] == iq::word_byte(g, k as nat) as i8,
            sm == full_signs(s7 as int),
            sm < 256,
            1 <= ls <= 31,
            ws == group_weights(g, s7 as int, ls as int),
            dots::ints(w@) == dots::ints(old(w)@) + ws.take(i as int),
            dots::within(w@, 4096),
        decreases 8 - i,
    {
        let b: i32 = gb[i] as i32;
        let v: i32 = if (sm / pow2_8(i) as u32) % 2 == 1 {
            -b
        } else {
            b
        };
        assert(-3968 <= ls * v <= 3968) by (nonlinear_arith)
            requires
                1 <= ls <= 31,
                -128 <= v <= 128,
        ;
        proof {
            let x = iq::word_byte(g, i as nat) as i8 as int;
            assert(gb@[i as int] == x);
            assert(v == if bit(full_signs(s7 as int), i as int) == 1 {
                -x
            } else {
                x
            });
            assert(ws[i as int] == ls * v);
        }
        let ghost before = w@;
        w.push(ls * v);
        assert(dots::ints(w@) =~= dots::ints(before).push(ls * v));
        assert(ws.take(i + 1) =~= ws.take(i as int).push(ws[i as int]));
        assert(dots::ints(w@) =~= dots::ints(old(w)@) + ws.take(i + 1));
        i = i + 1;
    }
    assert(ws.take(8) =~= ws);
}

/// The weights of the first `n` groups of an `IQ2_XXS` block.
pub open spec fn iq2_xxs_groups(raw: Seq<u8>, grid: Seq<u64>, n: int) -> Seq<int>
    decreases n,
{
    if n <= 0 {
        Seq::empty()
    } else {
        let c = n - 1;
        iq2_xxs_groups(raw, grid, c) + group_weights(
            grid[iq2_xxs_index(raw, c)],
            aux_signs(iq2_xxs_aux(raw, c / 4), c % 4),
            2 * aux_scale(iq2_xxs_aux(raw, c / 4)) + 1,
        )
    }
}

/// Reads a word of signs and scale: the sign pattern of one of its four groups, and the scale.
fn read_aux(raw: &[u8], at: usize, k: usize) -> (r: (u32, i32))
    requires
        at + 4 <= raw@.len(),
        k < 4,
    ensures
        r.0 == aux_signs(bytes::le_nat(raw@.subrange(at as int, at + 4)), k as int),
        r.0 < 128,
        r.1 == aux_scale(bytes::le_nat(raw@.subrange(at as int, at + 4))),
        0 <= r.1 <= 15,
{
    let n: usize = raw.len();
    assert(at + 4 <= n);
    let a: u64 = read_le(slice_subrange(raw, at, at + 4));
    proof {
        bytes::lemma_pow256();
    }
    let s: u64 = if k == 0 {
        a % 128
    } else if k == 1 {
        (a / 0x80) % 128
    } else if k == 2 {
        (a / 0x4000) % 128
    } else {
        (a / 0x20_0000) % 128
    };
    (s as u32, (a / 0x1000_0000) as i32)
}

/// The weights of an `IQ2_XXS` block: scale, sign and codebook byte of each element.
pub fn iq2_xxs_weights(blk: &[u8], grid: &[u64]) -> (r: Vec<i32>)
    requires
        blk@.len() == IQ2_XXS_BLOCK_BYTES,
        grid@.len() == 256,
    ensures
        dots::ints(r@) == iq2_xxs_groups(blk@, grid@, 32),
        r@.len() == 256,
        dots::within(r@, 4096),
{
    let mut w: Vec<i32> = Vec::new();
    let mut c: usize = 0;
    assert(dots::ints(w@) =~= Seq::<int>::empty());
    while c < 32
        invariant
            c <= 32,
            blk@.len() == IQ2_XXS_BLOCK_BYTES,
            grid@.len() == 256,
            dots::ints(w@) == iq2_xxs_groups(blk@, grid@, c as int),
            w@.len() == 8 * c,
            dots::within(w@, 4096),
        decreases 32 - c,
    {
        let (s7, l) = read_aux(blk, 6 + 8 * (c / 4), c % 4);
        let gi: usize = blk[2 + 8 * (c / 4) + c % 4] as usize;
        let ghost before = dots::ints(w@);
        push_group(&mut w, grid[gi], s7, 2 * l + 1);
        assert(dots::ints(w@).len() == before.len() + 8);
        c = c + 1;
    }
    w
}

/// The sum of an `IQ2_XXS` block.
pub fn iq2_xxs_sum(blk: &[u8], q8: &[i8], grid: &[u64]) -> (r: i32)
    requires
        blk@.len() == IQ2_XXS_BLOCK_BYTES,
        grid@.len() == 256,
        q8@.len() == 256,
    ensures
        r == dots::dot(iq2_xxs_groups(blk@, grid@, 32), q8@, 256),
{
    let w = iq2_xxs_weights(blk, grid);
    dot_i8(w.as_slice(), q8)
}

/// Scale of group `c` of an `IQ2_XS` block.
pub open spec fn iq2_xs_scale(raw: Seq<u8>, c: int) -> int {
    let sc = raw[66 + c / 4] as int;
    2 * (if c % 4 < 2 {
        sc % 16
    } else {
        sc / 16
    }) + 1
}

/// The weights of the first `n` groups of an `IQ2_XS` block.
pub open spec fn iq2_xs_groups(raw: Seq<u8>, grid: Seq<u64>, n: int) -> Seq<int>
    decreases n,
{
    if n <= 0 {
        Seq::empty()
    } else {
        let c = n - 1;
        let q = blocks::half_at(raw, 2 + 2 * c) as int;
        iq2_xs_groups(raw, grid, c) + group_weights(grid[q % 512], q / 512, iq2_xs_scale(raw, c))
    }
}

/// The sum of an `IQ2_XS` block: each group names one of 512 codebook points and a sign pattern.
pub fn iq2_xs_sum(blk: &[u8], q8: &[i8], grid: &[u64]) -> (r: i32)
    requires
        blk@.len() == IQ2_XS_BLOCK_BYTES,
        grid@.len() == 512,
        q8@.len() == 256,
    ensures
        r == dots::dot(iq2_xs_groups(blk@, grid@, 32), q8@, 256),
{
    let mut w: Vec<i32> = Vec::new();
    let mut c: usize = 0;
    assert(dots::ints(w@) =~= Seq::<int>::empty());
    while c < 32
        invariant
            c <= 32,
            blk@.len() == IQ2_XS_BLOCK_BYTES,
            grid@.len() == 512,
            dots::ints(w@) == iq2_xs_groups(blk@, grid@, c as int),
            w@.len() == 8 * c,
            dots::within(w@, 4096),
        decreases 32 - c,
    {
        let q: u16 = read_half(blk, 2 + 2 * c);
        let sc: u8 = blk[66 + c / 4];
        let l: i32 = if c % 4 < 2 {
            (sc % 16) as i32
        } else {
            (sc / 16) as i32
        };
        let ghost before = dots::ints(w@);
        push_group(&mut w, grid[(q % 512) as usize], (q / 512) as u32, 2 * l + 1);
        assert(dots::ints(w@).len() == before.len() + 8);
        c = c + 1;
    }
    dot_i8(w.as_slice(), q8)
}

/// Two codebook words of four bytes each as one of eight.
pub open spec fn joined(lo: u32, hi: u32) -> u64 {
    (lo + 0x1_0000_0000 * hi) as u64
}

/// The weights of the first `n` groups of an `IQ3_XXS` block, without the scale of the sub-block.
pub open spec fn iq3_xxs_groups(raw: Seq<u8>, grid: Seq<u32>, n: int) -> Seq<int>
    decreases n,
{
    if n <= 0 {
        Seq::empty()
    } else {
        let c = n - 1;
        iq3_xxs_groups(raw, grid, c) + group_weights(
            joined(grid[raw[2 + 2 * c] as int], grid[raw[3 + 2 * c] as int]),
            aux_signs(iq3_xxs_aux(raw, c / 4), c % 4),
            1,
        )
    }
}

/// The word of signs and scale of sub-block `b` of an `IQ3_XXS` block.
pub open spec fn iq3_xxs_aux(raw: Seq<u8>, b: int) -> nat {
    bytes::le_nat(raw.subrange(66 + 4 * b, 70 + 4 * b))
}

/// The sums of the eight sub-blocks of an `IQ3_XXS` block, each with its scale: the scale of a
/// sub-block is applied behind its sum.
pub fn iq3_xxs_sums(blk: &[u8], q8: &[i8], grid: &[u32]) -> (r: (Vec<i32>, Vec<i32>))
    requires
        blk@.len() == IQ3_XXS_BLOCK_BYTES,
        grid@.len() == 256,
        q8@.len() == 256,
    ensures
        r.0@.len() == 8,
        r.1@.len() == 8,
        forall|b: int|
            0 <= b < 8 ==> #[trigger] r.0@[b] == dots::dot(
                iq3_xxs_groups(blk@, grid@, 32).subrange(32 * b, 32 * b + 32),
                q8@.subrange(32 * b, 32 * b + 32),
                32,
            ),
        forall|b: int| 0 <= b < 8 ==> #[trigger] r.1@[b] == aux_scale(iq3_xxs_aux(blk@, b)),
{
    let mut w: Vec<i32> = Vec::new();
    let mut c: usize = 0;
    assert(dots::ints(w@) =~= Seq::<int>::empty());
    while c < 32
        invariant
            c <= 32,
            blk@.len() == IQ3_XXS_BLOCK_BYTES,
            grid@.len() == 256,
            dots::ints(w@) == iq3_xxs_groups(blk@, grid@, c as int),
            w@.len() == 8 * c,
            dots::within(w@, 4096),
        decreases 32 - c,
    {
        let (s7, _l) = read_aux(blk, 66 + 4 * (c / 4), c % 4);
        let lo: u32 = grid[blk[2 + 2 * c] as usize];
        let hi: u32 = grid[blk[3 + 2 * c] as usize];
        let g: u64 = lo as u64 + 0x1_0000_0000 * hi as u64;
        let ghost before = dots::ints(w@);
        push_group(&mut w, g, s7, 1);
        assert(dots::ints(w@).len() == before.len() + 8);
        c = c + 1;
    }
    let ghost all = iq3_xxs_groups(blk@, grid@, 32);
    let mut sums: Vec<i32> = Vec::new();
    let mut scales: Vec<i32> = Vec::new();
    let mut b: usize = 0;
    while b < 8
        invariant
            b == sums@.len() == scales@.len() <= 8,
            blk@.len() == IQ3_XXS_BLOCK_BYTES,
            q8@.len() == 256,
            w@.len() == 256,
            dots::ints(w@) == all,
            dots::within(w@, 4096),
            forall|k: int|
                0 <= k < b ==> #[trigger] sums@[k] == dots::dot(
                    all.subrange(32 * k, 32 * k + 32),
                    q8@.subrange(32 * k, 32 * k + 32),
                    32,
                ),
            forall|k: int| 0 <= k < b ==> #[trigger] scales@[k] == aux_scale(iq3_xxs_aux(blk@, k)),
        decreases 8 - b,
    {
        let part = slice_subrange(w.as_slice(), 32 * b, 32 * b + 32);
        assert forall|i: int| 0 <= i < part@.len() implies -4096 <= #[trigger] part@[i] <= 4096 by {
            assert(part@[i] == w@[32 * b + i]);
        }
        assert(dots::ints(part@) =~= all.subrange(32 * b, 32 * b + 32));
        sums.push(dot_i8(part, slice_subrange(q8, 32 * b, 32 * b + 32)));
        let (_s, l) = read_aux(blk, 66 + 4 * b, 0);
        scales.push(l);
        b = b + 1;
    }
    (sums, scales)
}

/// Eight signs are packed one bit each, the first lowest, and counted as they are packed.
pub proof fn law_flags(neg: Seq<bool>, i: int)
    requires
        neg.len() == 8,
        0 <= i < 8,
    ensures
        0 <= flags(neg, 8) < 256,
        bit(flags(neg, 8), i) == 1 <==> neg[i],
        count(neg, 8) == ones7(flags(neg, 8)) + bit(flags(neg, 8), 7),
{
    lemma_flags(neg);
}

} // verus!
