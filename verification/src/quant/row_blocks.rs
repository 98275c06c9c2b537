//! Rows cut into the blocks that the block encoders take one by one.
use vstd::prelude::*;

use super::rows;
use super::rows::Encoder;
use crate::gguf::tensor;
use crate::gguf::TensorType;

verus! {

/// Elements of a block.
pub open spec fn block_len(e: Encoder) -> int {
    if e == Encoder::Q8_0 {
        32
    } else {
        256
    }
}

/// Bytes of a block.
pub open spec fn block_bytes(e: Encoder) -> nat {
    match e {
        Encoder::Q8_0 => 34,
        Encoder::Q2K => 84,
        Encoder::Q3K => 110,
        Encoder::Q4K => 144,
        Encoder::Q5K => 176,
        Encoder::Q6K => 210,
        Encoder::IQ2XXS => 66,
    }
}

/// Blocks of a row of `n` elements. Only an encoder of 32 elements takes what is left over.
pub open spec fn block_count(e: Encoder, n: int) -> int {
    if e == Encoder::Q8_0 {
        (n + 31) / 32
    } else {
        n / 256
    }
}

/// A block of a row; zeros stand behind its end.
pub open spec fn block(e: Encoder, x: Seq<u32>, i: int) -> Seq<u32> {
    Seq::new(
        block_len(e) as nat,
        |k: int|
            if block_len(e) * i + k < x.len() {
                x[block_len(e) * i + k]
            } else {
                0u32
            },
    )
}

/// The bytes of the first `n` blocks of a row, where `enc` says what a block becomes.
pub open spec fn encoded(
    e: Encoder,
    enc: spec_fn(Seq<u32>) -> Seq<u8>,
    x: Seq<u32>,
    n: int,
) -> Seq<u8>
    decreases n,
{
    if n <= 0 {
        Seq::empty()
    } else {
        encoded(e, enc, x, n - 1) + enc(block(e, x, n - 1))
    }
}

/// The bytes of a row, where `enc` says what a block becomes.
pub open spec fn row_encoded(e: Encoder, enc: spec_fn(Seq<u32>) -> Seq<u8>, x: Seq<u32>) -> Seq<
    u8,
> {
    encoded(e, enc, x, block_count(e, x.len() as int))
}

/// Cuts a row into the blocks that an encoder takes.
pub fn row_blocks(e: Encoder, x: &[u32]) -> (r: Vec<Vec<u32>>)
    ensures
        r@.len() == block_count(e, x@.len() as int),
        forall|i: int| 0 <= i < r@.len() ==> (#[trigger] r@[i])@ == block(e, x@, i),
{
    let len: usize = match e {
        Encoder::Q8_0 => 32,
        _ => 256,
    };
    let total: usize = x.len();
    let whole: usize = total / len;
    let n: usize = if len == 32 && total % 32 > 0 {
        whole + 1
    } else {
        whole
    };
    let mut out: Vec<Vec<u32>> = Vec::new();
    let mut i: usize = 0;
    while i < n
        invariant
            i <= n,
            total == x@.len(),
            n == block_count(e, x@.len() as int),
            len == block_len(e),
            len * n < x@.len() + len,
            len == 32 || len * n <= x@.len(),
            out@.len() == i,
            forall|j: int| 0 <= j < i ==> (#[trigger] out@[j])@ == block(e, x@, j),
        decreases n - i,
    {
        assert(len * i + len <= len * n) by (nonlinear_arith)
            requires
                i < n,
                0 <= len,
        ;
        assert(len * i >= 0) by (nonlinear_arith);
        let at: usize = len * i;
        let mut b: Vec<u32> = Vec::new();
        let mut k: usize = 0;
        while k < len
            invariant
                k <= len <= 256,
                total == x@.len(),
                at == len * i,
                at < x@.len(),
                len == block_len(e),
                b@ == block(e, x@, i as int).take(k as int),
            decreases len - k,
        {
            if k < total - at {
                b.push(x[at + k]);
            } else {
                b.push(0);
            }
            assert(b@ =~= block(e, x@, i as int).take(k + 1));
            k = k + 1;
        }
        assert(b@ =~= block(e, x@, i as int));
        out.push(b);
        i = i + 1;
    }
    out
}

/// The blocks of a row that begins with whole blocks are those of its two parts.
proof fn lemma_join(
    e: Encoder,
    enc: spec_fn(Seq<u32>) -> Seq<u8>,
    a: Seq<u32>,
    b: Seq<u32>,
    m: int,
    n: int,
)
    requires
        a.len() == block_len(e) * m,
        0 <= m,
        0 <= n,
    ensures
        encoded(e, enc, a + b, m + n) == encoded(e, enc, a, m) + encoded(e, enc, b, n),
    decreases m + n,
{
    let len = block_len(e);
    if n > 0 {
        lemma_join(e, enc, a, b, m, n - 1);
        assert(len * (m + (n - 1)) == len * m + len * (n - 1)) by (nonlinear_arith);
        assert(len * (n - 1) >= 0) by (nonlinear_arith)
            requires
                n > 0,
                len >= 0,
        ;
        assert(block(e, a + b, m + n - 1) =~= block(e, b, n - 1));
        assert(encoded(e, enc, a + b, m + n) =~= encoded(e, enc, a, m) + encoded(e, enc, b, n));
    } else if m > 0 {
        assert((a + b).take(a.len() as int) =~= a);
        lemma_same(e, enc, a + b, a, m);
        assert(encoded(e, enc, a, m) + encoded(e, enc, b, n) =~= encoded(e, enc, a, m));
    } else {
        assert(encoded(e, enc, a, m) + encoded(e, enc, b, n) =~= Seq::<u8>::empty());
    }
}

/// The first whole blocks of a row rest on its first elements only.
proof fn lemma_same(
    e: Encoder,
    enc: spec_fn(Seq<u32>) -> Seq<u8>,
    x: Seq<u32>,
    a: Seq<u32>,
    m: int,
)
    requires
        0 <= m,
        block_len(e) * m <= a.len() <= x.len(),
        a == x.take(a.len() as int),
    ensures
        encoded(e, enc, x, m) == encoded(e, enc, a, m),
    decreases m,
{
    let len = block_len(e);
    if m > 0 {
        assert(len * m == len * (m - 1) + len && len * (m - 1) >= 0) by (nonlinear_arith)
            requires
                m > 0,
                len >= 0,
        ;
        lemma_same(e, enc, x, a, m - 1);
        assert(block(e, x, m - 1) =~= block(e, a, m - 1));
    }
}

proof fn lemma_size(
    e: Encoder,
    enc: spec_fn(Seq<u32>) -> Seq<u8>,
    x: Seq<u32>,
    n: int,
)
    requires
        0 <= n,
        forall|b: Seq<u32>| b.len() == block_len(e) ==> (#[trigger] enc(b)).len() == block_bytes(e),
    ensures
        encoded(e, enc, x, n).len() == n * block_bytes(e),
    decreases n,
{
    if n > 0 {
        lemma_size(e, enc, x, n - 1);
        assert(enc(block(e, x, n - 1)).len() == block_bytes(e));
        assert(n * block_bytes(e) == (n - 1) * block_bytes(e) + block_bytes(e))
            by (nonlinear_arith);
    } else {
        assert(n * block_bytes(e) == 0) by (nonlinear_arith)
            requires
                n == 0,
        ;
    }
}

/// Whatever a block becomes, joined rows become their parts joined, where the first ends with a
/// block.
pub proof fn law_row_join(
    e: Encoder,
    enc: spec_fn(Seq<u32>) -> Seq<u8>,
    a: Seq<u32>,
    b: Seq<u32>,
)
    requires
        a.len() as int % block_len(e) == 0,
    ensures
        row_encoded(e, enc, a + b) == row_encoded(e, enc, a) + row_encoded(e, enc, b),
{
    let m = a.len() as int / block_len(e);
    let n = block_count(e, b.len() as int);
    assert(block_count(e, a.len() as int) == m);
    assert(block_count(e, (a + b).len() as int) == m + n);
    lemma_join(e, enc, a, b, m, n);
}

/// Where every block becomes as many bytes as its type says, a row of whole blocks does; where the
/// encoder takes what is left over, any row does.
pub proof fn law_row_size(
    ty: TensorType,
    e: Encoder,
    enc: spec_fn(Seq<u32>) -> Seq<u8>,
    x: Seq<u32>,
)
    requires
        rows::encoder_of(ty) == Some(e),
        forall|b: Seq<u32>| b.len() == block_len(e) ==> (#[trigger] enc(b)).len() == block_bytes(e),
        e == Encoder::Q8_0 || x.len() as int % block_len(e) == 0,
    ensures
        ty.layout() == Some((block_len(e) as u64, block_bytes(e) as u64)),
        ty.row_size(x.len()) == Some(row_encoded(e, enc, x).len()),
{
    let n = block_count(e, x.len() as int);
    lemma_size(e, enc, x, n);
    assert(tensor::ceil_div(x.len(), block_len(e) as nat) == n);
}

} // verus!
