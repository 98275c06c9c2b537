//! Packed weight formats as the layers use them.
use vstd::prelude::*;

use crate::gguf::tensor;
use crate::gguf::TensorType;
use crate::text;
use crate::text::{push_decimal, push_str};

verus! {

/// Quantization ids; they are the GGML type ids.
pub const QUANT_Q4_0: u32 = 2;

pub const QUANT_Q8_0: u32 = 8;

pub const QUANT_Q2_K: u32 = 10;

pub const QUANT_Q3_K: u32 = 11;

pub const QUANT_Q4_K: u32 = 12;

pub const QUANT_Q5_K: u32 = 13;

pub const QUANT_Q6_K: u32 = 14;

pub const QUANT_IQ2_XXS: u32 = 16;

pub const QUANT_IQ2_XS: u32 = 17;

pub const QUANT_IQ3_XXS: u32 = 18;

/// The format of a dense weight matrix: its quantization and the bytes of a row.
#[derive(Debug, Clone, Copy, PartialEq, Eq, Structural)]
pub struct K3WeightQuant {
    pub quant: u32,
    pub row_bytes: u64,
}

/// The quantization id of a format that a dense weight can have.
pub open spec fn dense_quant(ty: TensorType) -> Option<u32> {
    match ty {
        TensorType::Q2K => Some(QUANT_Q2_K),
        TensorType::Q3K => Some(QUANT_Q3_K),
        TensorType::Q4K => Some(QUANT_Q4_K),
        TensorType::Q5K => Some(QUANT_Q5_K),
        TensorType::Q6K => Some(QUANT_Q6_K),
        TensorType::Q8_0 => Some(QUANT_Q8_0),
        _ => None,
    }
}

/// The formats that a product takes as they are, on a quantized activation.
pub open spec fn is_direct(quant: u32) -> bool {
    quant == QUANT_Q2_K || quant == QUANT_Q3_K
}

impl K3WeightQuant {
    /// Whether the weight is used as it is, on a quantized activation.
    pub fn is_direct_kq(&self) -> (r: bool)
        ensures
            r == is_direct(self.quant),
    {
        self.quant == QUANT_Q2_K || self.quant == QUANT_Q3_K
    }

    /// Whether the weight is in 8-bit blocks.
    pub fn is_q8_0(&self) -> (r: bool)
        ensures
            r == (self.quant == QUANT_Q8_0),
    {
        self.quant == QUANT_Q8_0
    }

    /// The format of a tensor with rows of `n_elems` elements, where a dense weight can have it.
    pub fn from_gguf(ty: TensorType, n_elems: u64) -> (r: Option<Self>)
        requires
            ty.row_size(n_elems as nat) matches Some(b) ==> b <= u64::MAX,
        ensures
            match r {
                Some(q) => dense_quant(ty) == Some(q.quant) && ty.row_size(n_elems as nat) == Some(
                    q.row_bytes as nat,
                ),
                None => dense_quant(ty) is None,
            },
    {
        let quant: u32 = match ty {
            TensorType::Q2K => QUANT_Q2_K,
            TensorType::Q3K => QUANT_Q3_K,
            TensorType::Q4K => QUANT_Q4_K,
            TensorType::Q5K => QUANT_Q5_K,
            TensorType::Q6K => QUANT_Q6_K,
            TensorType::Q8_0 => QUANT_Q8_0,
            _ => {
                return None;
            },
        };
        match ty.row_bytes(n_elems) {
            Some(row_bytes) => Some(K3WeightQuant { quant, row_bytes }),
            None => None,
        }
    }
}

/// How a product with a weight is computed.
#[derive(Debug, Clone, Copy, PartialEq, Eq, Structural)]
pub enum Product {
    /// On the activation quantized to 8 bits.
    Direct,
    /// 8-bit blocks on the activation as it is.
    Q8_0,
    /// Single precision.
    F32,
}

/// How a product with a weight is computed.
pub open spec fn product_of(quant: u32) -> Product {
    if is_direct(quant) {
        Product::Direct
    } else if quant == QUANT_Q8_0 {
        Product::Q8_0
    } else {
        Product::F32
    }
}

/// The complaint about a weight that takes no quantized activation.
pub open spec fn not_direct_text(quant: u32) -> Seq<char> {
    "matmul_q8k requires Q2_K/Q3_K, got quant="@ + text::decimal(quant as nat)
}

/// A dense weight matrix: its buffer and its format.
pub struct K3DenseWeight<B> {
    pub buf: B,
    pub quant: K3WeightQuant,
}

impl<B> K3DenseWeight<B> {
    pub fn new(buf: B, quant: K3WeightQuant) -> (r: Self)
        ensures
            r.buf == buf,
            r.quant == quant,
    {
        K3DenseWeight { buf, quant }
    }

    /// How the product with an activation in single precision is computed.
    pub fn matmul(&self) -> (r: Product)
        ensures
            r == product_of(self.quant.quant),
    {
        if self.quant.is_direct_kq() {
            Product::Direct
        } else if self.quant.is_q8_0() {
            Product::Q8_0
        } else {
            Product::F32
        }
    }

    /// Accepts an activation that is quantized already.
    pub fn matmul_q8k(&self) -> (r: Result<(), String>)
        ensures
            r is Ok <==> is_direct(self.quant.quant),
            r matches Err(e) ==> e@ == not_direct_text(self.quant.quant),
    {
        check_direct(self.quant)
    }
}

/// Accepts a format that takes a quantized activation.
pub fn check_direct(q: K3WeightQuant) -> (r: Result<(), String>)
    ensures
        r is Ok <==> is_direct(q.quant),
        r matches Err(e) ==> e@ == not_direct_text(q.quant),
{
    if q.is_direct_kq() {
        return Ok(());
    }
    let mut m = String::new();
    push_str(&mut m, "matmul_q8k requires Q2_K/Q3_K, got quant=");
    push_decimal(&mut m, q.quant as u64);
    assert(m@ =~= not_direct_text(q.quant));
    Err(m)
}

/// The type of an expert's quantization id.
pub open spec fn expert_type(q: u32) -> Option<TensorType> {
    if q == QUANT_Q2_K {
        Some(TensorType::Q2K)
    } else if q == QUANT_Q3_K {
        Some(TensorType::Q3K)
    } else if q == QUANT_Q4_K {
        Some(TensorType::Q4K)
    } else if q == QUANT_Q5_K {
        Some(TensorType::Q5K)
    } else if q == QUANT_Q6_K {
        Some(TensorType::Q6K)
    } else if q == QUANT_Q8_0 {
        Some(TensorType::Q8_0)
    } else if q == QUANT_Q4_0 {
        Some(TensorType::Q4_0)
    } else {
        None
    }
}

/// The complaint about an expert format that cannot be decoded.
pub open spec fn unsupported_quant_text(q: u32) -> Seq<char> {
    "K3 latent MoE: unsupported quant id "@ + text::decimal(q as nat)
}

/// The type of an expert's quantization id.
pub fn k3_quant_to_tensor_type(q: u32) -> (r: Result<TensorType, String>)
    ensures
        match r {
            Ok(t) => expert_type(q) == Some(t),
            Err(e) => expert_type(q) is None && e@ == unsupported_quant_text(q),
        },
{
    if q == QUANT_Q2_K {
        Ok(TensorType::Q2K)
    } else if q == QUANT_Q3_K {
        Ok(TensorType::Q3K)
    } else if q == QUANT_Q4_K {
        Ok(TensorType::Q4K)
    } else if q == QUANT_Q5_K {
        Ok(TensorType::Q5K)
    } else if q == QUANT_Q6_K {
        Ok(TensorType::Q6K)
    } else if q == QUANT_Q8_0 {
        Ok(TensorType::Q8_0)
    } else if q == QUANT_Q4_0 {
        Ok(TensorType::Q4_0)
    } else {
        let mut m = String::new();
        push_str(&mut m, "K3 latent MoE: unsupported quant id ");
        push_decimal(&mut m, q as u64);
        assert(m@ =~= unsupported_quant_text(q));
        Err(m)
    }
}

/// The complaint about a number of elements that fills no whole blocks.
pub open spec fn ragged_text(ty: TensorType, n: nat, block: nat) -> Seq<char> {
    "K3 latent MoE: "@ + tensor::type_text(ty) + " element count "@ + text::decimal(n)
        + " is not divisible by block size "@ + text::decimal(block)
}

/// The complaint about a buffer of the wrong length.
pub open spec fn wrong_length_text(ty: TensorType, got: nat, expected: nat) -> Seq<char> {
    "K3 latent MoE: "@ + tensor::type_text(ty) + " buffer has "@ + text::decimal(got)
        + " bytes, expected "@ + text::decimal(expected) + " bytes"@
}

/// Why a packed expert of `n` elements in `len` bytes cannot be decoded: a format without a
/// decoder, elements that fill no whole blocks, or the wrong number of bytes.
pub open spec fn blocks_fault(len: nat, n: nat, quant: u32) -> Option<Seq<char>> {
    match expert_type(quant) {
        None => Some(unsupported_quant_text(quant)),
        Some(ty) => {
            let (e64, b64) = ty.layout()->0;
            let elems = e64 as nat;
            let bytes = b64 as nat;
            if n % elems != 0 {
                Some(ragged_text(ty, n, elems))
            } else if len != (n / elems) * bytes {
                Some(wrong_length_text(ty, len, (n / elems) * bytes))
            } else {
                None
            }
        },
    }
}

/// How a packed expert is decoded: its type, its blocks, and the elements and bytes of each.
#[derive(Debug, Clone, Copy, PartialEq, Eq, Structural)]
pub struct ExpertBlocks {
    pub ty: TensorType,
    pub blocks: usize,
    pub block_elems: usize,
    pub block_bytes: usize,
}

/// Accepts a packed expert of `n` elements: a format that can be decoded, whole blocks, and exactly
/// their bytes. Nothing is decoded of a buffer that is refused.
pub fn k3_expert_blocks(len: usize, n: usize, quant: u32) -> (r: Result<ExpertBlocks, String>)
    requires
        n <= usize::MAX / 2,
    ensures
        match r {
            Ok(b) => {
                &&& blocks_fault(len as nat, n as nat, quant) is None
                &&& expert_type(quant) == Some(b.ty)
                &&& b.ty.layout() == Some((b.block_elems as u64, b.block_bytes as u64))
                &&& n == b.blocks * b.block_elems
                &&& len == b.blocks * b.block_bytes
            },
            Err(e) => blocks_fault(len as nat, n as nat, quant) == Some(e@),
        },
{
    let ty: TensorType = match k3_quant_to_tensor_type(quant) {
        Ok(t) => t,
        Err(e) => {
            return Err(e);
        },
    };
    let (elems, bytes): (u64, u64) = match ty.block_layout() {
        Some(l) => l,
        None => (1, 1),
    };
    assert(ty.layout() == Some((elems, bytes)));
    assert(0 < elems <= 256 && bytes <= 210 && bytes <= 2 * elems);
    let be: usize = elems as usize;
    let bb: usize = bytes as usize;
    if n % be != 0 {
        let mut m = String::new();
        push_str(&mut m, "K3 latent MoE: ");
        push_str(&mut m, ty.name().as_str());
        push_str(&mut m, " element count ");
        push_decimal(&mut m, n as u64);
        push_str(&mut m, " is not divisible by block size ");
        push_decimal(&mut m, elems);
        assert(m@ =~= ragged_text(ty, n as nat, elems as nat));
        return Err(m);
    }
    let blocks: usize = n / be;
    proof {
        vstd::arithmetic::div_mod::lemma_fundamental_div_mod(n as int, be as int);
        assert(be * blocks == blocks * be) by (nonlinear_arith);
        assert(blocks * bytes <= 2 * (blocks * elems)) by (nonlinear_arith)
            requires
                bytes <= 2 * elems,
        ;
    }
    let expected: usize = blocks * bb;
    if len != expected {
        let mut m = String::new();
        push_str(&mut m, "K3 latent MoE: ");
        push_str(&mut m, ty.name().as_str());
        push_str(&mut m, " buffer has ");
        push_decimal(&mut m, len as u64);
        push_str(&mut m, " bytes, expected ");
        push_decimal(&mut m, expected as u64);
        push_str(&mut m, " bytes");
        assert(m@ =~= wrong_length_text(ty, len as nat, expected as nat));
        return Err(m);
    }
    Ok(ExpertBlocks { ty, blocks, block_elems: be, block_bytes: bb })
}

} // verus!
