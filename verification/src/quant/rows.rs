//! Rows of source tensors and of tensors that are stored element by element. Numbers are bit
//! patterns of single precision.
use vstd::prelude::*;
use vstd::slice::slice_subrange;

use super::blocks;
use super::blocks::read_half;
use super::pack;
use super::pack::push_half;
use crate::bytes;
use crate::bytes::{push_le, read_le};
use crate::fp;
use crate::fp::{bf16_to_f32, f16_to_f32, f32_to_f16};
use crate::gguf::tensor;
use crate::gguf::TensorType;
use crate::text::{owned, push_str};

verus! {

/// The single-precision number at `4 * i`.
pub open spec fn single_at(raw: Seq<u8>, i: int) -> u32 {
    bytes::le_nat(raw.subrange(4 * i, 4 * i + 4)) as u32
}

/// The elements of a source row, if the type is one that can be read. Bytes that fill no whole
/// element are dropped.
pub open spec fn row_values(ty: TensorType, raw: Seq<u8>) -> Option<Seq<u32>> {
    match ty {
        TensorType::F32 => Some(Seq::new(raw.len() / 4, |i: int| single_at(raw, i))),
        TensorType::F16 => Some(
            Seq::new(raw.len() / 2, |i: int| fp::single_of(blocks::half_at(raw, 2 * i)) as u32),
        ),
        TensorType::BF16 => Some(
            Seq::new(
                raw.len() / 2,
                |i: int| (blocks::half_at(raw, 2 * i) as int * 0x1_0000) as u32,
            ),
        ),
        _ => None,
    }
}

/// The complaint about a source type that cannot be read.
pub open spec fn unsupported_text(ty: TensorType) -> Seq<char> {
    "unsupported source type "@ + tensor::type_text(ty)
}

/// Decodes a raw source row. The earlier content of `out` is dropped in any case.
pub fn row_to_f32(ty: TensorType, raw: &[u8], out: &mut Vec<u32>) -> (r: Result<(), String>)
    ensures
        match r {
            Ok(()) => row_values(ty, raw@) == Some(final(out)@),
            Err(e) => row_values(ty, raw@) is None && e@ == unsupported_text(ty) && final(out)@
                == Seq::<u32>::empty(),
        },
{
    out.clear();
    let n: usize = raw.len();
    let mut i: usize = 0;
    match ty {
        TensorType::F32 => {
            let ghost all = row_values(ty, raw@)->0;
            while i < n / 4
                invariant
                    i <= n / 4,
                    n == raw@.len(),
                    ty == TensorType::F32,
                    all == row_values(ty, raw@)->0,
                    out@ == all.take(i as int),
                decreases n / 4 - i,
            {
                proof {
                    bytes::lemma_pow256();
                    bytes::lemma_le_bound(raw@.subrange(4 * i, 4 * i + 4));
                }
                out.push(read_le(slice_subrange(raw, 4 * i, 4 * i + 4)) as u32);
                assert(out@ =~= all.take(i + 1));
                i = i + 1;
            }
            assert(all.take(i as int) =~= all);
            Ok(())
        },
        TensorType::F16 => {
            let ghost all = row_values(ty, raw@)->0;
            while i < n / 2
                invariant
                    i <= n / 2,
                    n == raw@.len(),
                    ty == TensorType::F16,
                    all == row_values(ty, raw@)->0,
                    out@ == all.take(i as int),
                decreases n / 2 - i,
            {
                out.push(f16_to_f32(read_half(raw, 2 * i)));
                assert(out@ =~= all.take(i + 1));
                i = i + 1;
            }
            assert(all.take(i as int) =~= all);
            Ok(())
        },
        TensorType::BF16 => {
            let ghost all = row_values(ty, raw@)->0;
            while i < n / 2
                invariant
                    i <= n / 2,
                    n == raw@.len(),
                    ty == TensorType::BF16,
                    all == row_values(ty, raw@)->0,
                    out@ == all.take(i as int),
                decreases n / 2 - i,
            {
                out.push(bf16_to_f32(read_half(raw, 2 * i)));
                assert(out@ =~= all.take(i + 1));
                i = i + 1;
            }
            assert(all.take(i as int) =~= all);
            Ok(())
        },
        _ => {
            let mut m = String::new();
            push_str(&mut m, "unsupported source type ");
            push_str(&mut m, ty.name().as_str());
            assert(m@ =~= unsupported_text(ty));
            assert(out@ =~= Seq::<u32>::empty());
            Err(m)
        },
    }
}

/// The block encoders.
#[derive(Debug, Clone, Copy, PartialEq, Eq, Structural)]
pub enum Encoder {
    Q8_0,
    Q2K,
    Q3K,
    Q4K,
    Q5K,
    Q6K,
    /// Codebook blocks; takes one weight per column.
    IQ2XXS,
}

/// The block encoder of a type.
pub open spec fn encoder_of(ty: TensorType) -> Option<Encoder> {
    match ty {
        TensorType::Q8_0 => Some(Encoder::Q8_0),
        TensorType::Q2K => Some(Encoder::Q2K),
        TensorType::Q3K => Some(Encoder::Q3K),
        TensorType::Q4K => Some(Encoder::Q4K),
        TensorType::Q5K => Some(Encoder::Q5K),
        TensorType::Q6K => Some(Encoder::Q6K),
        TensorType::IQ2XXS => Some(Encoder::IQ2XXS),
        _ => None,
    }
}

/// The bytes of a row in single precision.
pub open spec fn single_bytes(x: Seq<u32>) -> Seq<u8>
    decreases x.len(),
{
    if x.len() == 0 {
        Seq::empty()
    } else {
        single_bytes(x.drop_last()) + bytes::le_bytes(x.last() as nat, 4)
    }
}

/// The bytes of a row in half precision.
pub open spec fn half_bytes(x: Seq<u32>) -> Seq<u8>
    decreases x.len(),
{
    if x.len() == 0 {
        Seq::empty()
    } else {
        half_bytes(x.drop_last()) + pack::half(fp::half_of(x.last()) as u16)
    }
}

/// The complaint about codebook blocks without weights.
pub open spec fn no_weights_text() -> Seq<char> {
    "iq2_xxs requires an imatrix (--imatrix)"@
}

/// The complaint about a type that cannot be written.
pub open spec fn no_encoder_text(ty: TensorType) -> Seq<char> {
    "no encoder for "@ + tensor::type_text(ty)
}

/// Stores a row. The element-wise types are appended to `out`; for the block types the result
/// names the encoder to run on the row.
pub fn quantize_row(ty: TensorType, x: &[u32], weighted: bool, out: &mut Vec<u8>) -> (r: Result<
    Option<Encoder>,
    String,
>)
    ensures
        match r {
            Ok(Some(e)) => encoder_of(ty) == Some(e) && (e == Encoder::IQ2XXS ==> weighted)
                && final(out)@ == old(out)@,
            Ok(None) => {
                ||| ty == TensorType::F32 && final(out)@ == old(out)@ + single_bytes(x@)
                ||| ty == TensorType::F16 && final(out)@ == old(out)@ + half_bytes(x@)
            },
            Err(e) => final(out)@ == old(out)@ && if ty == TensorType::IQ2XXS {
                !weighted && e@ == no_weights_text()
            } else {
                encoder_of(ty) is None && ty != TensorType::F32 && ty != TensorType::F16 && e@
                    == no_encoder_text(ty)
            },
        },
{
    match ty {
        TensorType::Q8_0 => Ok(Some(Encoder::Q8_0)),
        TensorType::Q2K => Ok(Some(Encoder::Q2K)),
        TensorType::Q3K => Ok(Some(Encoder::Q3K)),
        TensorType::Q4K => Ok(Some(Encoder::Q4K)),
        TensorType::Q5K => Ok(Some(Encoder::Q5K)),
        TensorType::Q6K => Ok(Some(Encoder::Q6K)),
        TensorType::IQ2XXS => {
            if weighted {
                Ok(Some(Encoder::IQ2XXS))
            } else {
                Err(owned("iq2_xxs requires an imatrix (--imatrix)"))
            }
        },
        TensorType::F32 => {
            push_singles(out, x);
            Ok(None)
        },
        TensorType::F16 => {
            push_halves(out, x);
            Ok(None)
        },
        _ => {
            let mut m = String::new();
            push_str(&mut m, "no encoder for ");
            push_str(&mut m, ty.name().as_str());
            assert(m@ =~= no_encoder_text(ty));
            Err(m)
        },
    }
}

/// Appends a row in single precision.
fn push_singles(out: &mut Vec<u8>, x: &[u32])
    ensures
        final(out)@ == old(out)@ + single_bytes(x@),
{
    let mut i: usize = 0;
    assert(x@.take(0) =~= Seq::<u32>::empty());
    while i < x.len()
        invariant
            i <= x@.len(),
            out@ == old(out)@ + single_bytes(x@.take(i as int)),
        decreases x@.len() - i,
    {
        push_le(out, x[i] as u64, 4);
        assert(x@.take(i + 1).drop_last() =~= x@.take(i as int));
        assert(out@ =~= old(out)@ + single_bytes(x@.take(i + 1)));
        i = i + 1;
    }
    assert(x@.take(i as int) =~= x@);
}

/// Appends a row in half precision.
fn push_halves(out: &mut Vec<u8>, x: &[u32])
    ensures
        final(out)@ == old(out)@ + half_bytes(x@),
{
    let mut i: usize = 0;
    assert(x@.take(0) =~= Seq::<u32>::empty());
    while i < x.len()
        invariant
            i <= x@.len(),
            out@ == old(out)@ + half_bytes(x@.take(i as int)),
        decreases x@.len() - i,
    {
        push_half(out, f32_to_f16(x[i]));
        assert(x@.take(i + 1).drop_last() =~= x@.take(i as int));
        assert(out@ =~= old(out)@ + half_bytes(x@.take(i + 1)));
        i = i + 1;
    }
    assert(x@.take(i as int) =~= x@);
}

proof fn lemma_single_bytes(x: Seq<u32>, i: int)
    requires
        0 <= i < x.len(),
    ensures
        single_bytes(x).len() == 4 * x.len(),
        single_at(single_bytes(x), i) == x[i],
    decreases x.len(),
{
    bytes::lemma_pow256();
    bytes::lemma_le_roundtrip(x.last() as nat, 4);
    let s = single_bytes(x);
    let t = single_bytes(x.drop_last());
    if x.len() > 1 {
        lemma_single_bytes(x.drop_last(), if i < x.len() - 1 {
            i
        } else {
            0
        });
    }
    if i < x.len() - 1 {
        assert(s.subrange(4 * i, 4 * i + 4) =~= t.subrange(4 * i, 4 * i + 4));
    } else {
        assert(s.subrange(4 * i, 4 * i + 4) =~= bytes::le_bytes(x.last() as nat, 4));
    }
}

/// A row stored in single precision reads back as it was.
pub proof fn law_single_row(x: Seq<u32>)
    ensures
        row_values(TensorType::F32, single_bytes(x)) == Some(x),
{
    if x.len() > 0 {
        lemma_single_bytes(x, 0);
    }
    let v = row_values(TensorType::F32, single_bytes(x))->0;
    assert forall|i: int| 0 <= i < x.len() implies #[trigger] v[i] == x[i] by {
        lemma_single_bytes(x, i);
    }
    assert(v =~= x);
}

proof fn lemma_half_bytes(x: Seq<u32>, i: int)
    requires
        0 <= i < x.len(),
    ensures
        half_bytes(x).len() == 2 * x.len(),
        blocks::half_at(half_bytes(x), 2 * i) == fp::half_of(x[i]) as u16,
    decreases x.len(),
{
    let s = half_bytes(x);
    let t = half_bytes(x.drop_last());
    if x.len() > 1 {
        lemma_half_bytes(x.drop_last(), if i < x.len() - 1 {
            i
        } else {
            0
        });
    }
    if i < x.len() - 1 {
        assert(s[2 * i] == t[2 * i] && s[2 * i + 1] == t[2 * i + 1]);
    } else {
        let h = pack::half(fp::half_of(x.last()) as u16);
        assert(s[2 * i] == h[0] && s[2 * i + 1] == h[1]);
    }
}

/// A row stored in half precision reads back rounded to it.
pub proof fn law_half_row(x: Seq<u32>)
    ensures
        row_values(TensorType::F16, half_bytes(x)) == Some(
            Seq::new(x.len(), |i: int| fp::single_of(fp::half_of(x[i]) as u16) as u32),
        ),
{
    if x.len() > 0 {
        lemma_half_bytes(x, 0);
    }
    let v = row_values(TensorType::F16, half_bytes(x))->0;
    let w = Seq::new(x.len(), |i: int| fp::single_of(fp::half_of(x[i]) as u16) as u32);
    assert forall|i: int| 0 <= i < x.len() implies #[trigger] v[i] == w[i] by {
        lemma_half_bytes(x, i);
    }
    assert(v =~= w);
}

/// A joined row in single precision is its parts joined, and takes the bytes that its type says.
pub proof fn law_single_join(a: Seq<u32>, b: Seq<u32>)
    ensures
        single_bytes(a + b) == single_bytes(a) + single_bytes(b),
        TensorType::F32.row_size(a.len()) == Some(single_bytes(a).len()),
    decreases b.len(),
{
    if a.len() > 0 {
        lemma_single_bytes(a, 0);
    }
    let n = tensor::ceil_div(a.len(), 1);
    assert(n == a.len());
    assert(TensorType::F32.layout() == Some((1u64, 4u64)));
    assert(n * 4nat == 4 * a.len());
    if b.len() == 0 {
        assert(a + b =~= a);
        assert(single_bytes(a) + single_bytes(b) =~= single_bytes(a));
    } else {
        law_single_join(a, b.drop_last());
        assert((a + b).drop_last() =~= a + b.drop_last());
        assert(single_bytes(a + b) =~= single_bytes(a) + single_bytes(b));
    }
}

/// A joined row in half precision is its parts joined, and takes the bytes that its type says.
pub proof fn law_half_join(a: Seq<u32>, b: Seq<u32>)
    ensures
        half_bytes(a + b) == half_bytes(a) + half_bytes(b),
        TensorType::F16.row_size(a.len()) == Some(half_bytes(a).len()),
    decreases b.len(),
{
    if a.len() > 0 {
        lemma_half_bytes(a, 0);
    }
    let n = tensor::ceil_div(a.len(), 1);
    assert(n == a.len());
    assert(TensorType::F16.layout() == Some((1u64, 2u64)));
    assert(n * 2nat == 2 * a.len());
    if b.len() == 0 {
        assert(a + b =~= a);
        assert(half_bytes(a) + half_bytes(b) =~= half_bytes(a));
    } else {
        law_half_join(a, b.drop_last());
        assert((a + b).drop_last() =~= a + b.drop_last());
        assert(half_bytes(a + b) =~= half_bytes(a) + half_bytes(b));
    }
}

} // verus!
