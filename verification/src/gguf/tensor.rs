//! Tensor storage types and entries of the tensor table.
use vstd::prelude::*;

use crate::text;
use crate::text::{push_decimal, push_str};

verus! {

/// GGML tensor quantization/storage types.
#[allow(non_camel_case_types)]
#[derive(Debug, Clone, Copy, PartialEq, Eq, Hash, Structural)]
#[non_exhaustive]
pub enum TensorType {
    F32,
    F16,
    Q4_0,
    Q5_1,
    Q8_0,
    Q2K,
    Q3K,
    Q4K,
    Q5K,
    Q6K,
    Q8K,
    IQ2XXS,
    IQ2XS,
    IQ3XXS,
    IQ3S,
    IQ2S,
    IQ4XS,
    IQ4NL,
    BF16,
    /// Plain int32 tensors (hash-routing tables).
    I32,
    /// A type that is not modeled; the raw id is preserved.
    Other(u32),
}

/// The storage type that a GGML type id names.
pub open spec fn type_of_id(id: u32) -> TensorType {
    if id == 0 {
        TensorType::F32
    } else if id == 1 {
        TensorType::F16
    } else if id == 2 {
        TensorType::Q4_0
    } else if id == 7 {
        TensorType::Q5_1
    } else if id == 8 {
        TensorType::Q8_0
    } else if id == 10 {
        TensorType::Q2K
    } else if id == 11 {
        TensorType::Q3K
    } else if id == 12 {
        TensorType::Q4K
    } else if id == 13 {
        TensorType::Q5K
    } else if id == 14 {
        TensorType::Q6K
    } else if id == 15 {
        TensorType::Q8K
    } else if id == 16 {
        TensorType::IQ2XXS
    } else if id == 17 {
        TensorType::IQ2XS
    } else if id == 18 {
        TensorType::IQ3XXS
    } else if id == 20 {
        TensorType::IQ4NL
    } else if id == 21 {
        TensorType::IQ3S
    } else if id == 22 {
        TensorType::IQ2S
    } else if id == 23 {
        TensorType::IQ4XS
    } else if id == 26 {
        TensorType::I32
    } else if id == 30 {
        TensorType::BF16
    } else {
        TensorType::Other(id)
    }
}

/// `a` divided by `b`, rounded up.
pub open spec fn ceil_div(a: nat, b: nat) -> nat {
    if b == 0 {
        0
    } else {
        ((a + b - 1) / b as int) as nat
    }
}

impl TensorType {
    /// The GGML type id of a storage type.
    pub open spec fn id(self) -> u32 {
        match self {
            TensorType::F32 => 0,
            TensorType::F16 => 1,
            TensorType::Q4_0 => 2,
            TensorType::Q5_1 => 7,
            TensorType::Q8_0 => 8,
            TensorType::Q2K => 10,
            TensorType::Q3K => 11,
            TensorType::Q4K => 12,
            TensorType::Q5K => 13,
            TensorType::Q6K => 14,
            TensorType::Q8K => 15,
            TensorType::IQ2XXS => 16,
            TensorType::IQ2XS => 17,
            TensorType::IQ3XXS => 18,
            TensorType::IQ4NL => 20,
            TensorType::IQ3S => 21,
            TensorType::IQ2S => 22,
            TensorType::IQ4XS => 23,
            TensorType::I32 => 26,
            TensorType::BF16 => 30,
            TensorType::Other(id) => id,
        }
    }

    /// Elements and bytes of one storage block.
    pub open spec fn layout(self) -> Option<(u64, u64)> {
        match self {
            TensorType::F32 | TensorType::I32 => Some((1, 4)),
            TensorType::F16 | TensorType::BF16 => Some((1, 2)),
            TensorType::Q4_0 | TensorType::IQ4NL => Some((32, 18)),
            TensorType::Q5_1 => Some((32, 24)),
            TensorType::Q8_0 => Some((32, 34)),
            TensorType::Q2K => Some((256, 84)),
            TensorType::Q3K | TensorType::IQ3S => Some((256, 110)),
            TensorType::Q4K => Some((256, 144)),
            TensorType::Q5K => Some((256, 176)),
            TensorType::Q6K => Some((256, 210)),
            TensorType::Q8K => Some((256, 292)),
            TensorType::IQ2XXS => Some((256, 66)),
            TensorType::IQ2XS => Some((256, 74)),
            TensorType::IQ2S => Some((256, 82)),
            TensorType::IQ3XXS => Some((256, 98)),
            TensorType::IQ4XS => Some((256, 136)),
            TensorType::Other(_) => None,
        }
    }

    /// Bytes that a row of `n` elements occupies: whole blocks, the last one padded.
    pub open spec fn row_size(self, n: nat) -> Option<nat> {
        match self.layout() {
            Some((bs, bb)) => Some(ceil_div(n, bs as nat) * bb as nat),
            None => None,
        }
    }

    pub fn from_id(id: u32) -> (r: Self)
        ensures
            r == type_of_id(id),
    {
        match id {
            0 => TensorType::F32,
            1 => TensorType::F16,
            2 => TensorType::Q4_0,
            7 => TensorType::Q5_1,
            8 => TensorType::Q8_0,
            10 => TensorType::Q2K,
            11 => TensorType::Q3K,
            12 => TensorType::Q4K,
            13 => TensorType::Q5K,
            14 => TensorType::Q6K,
            15 => TensorType::Q8K,
            16 => TensorType::IQ2XXS,
            17 => TensorType::IQ2XS,
            18 => TensorType::IQ3XXS,
            20 => TensorType::IQ4NL,
            21 => TensorType::IQ3S,
            22 => TensorType::IQ2S,
            23 => TensorType::IQ4XS,
            26 => TensorType::I32,
            30 => TensorType::BF16,
            other => TensorType::Other(other),
        }
    }

    /// Inverse of `from_id`, for writers.
    pub fn to_id(self) -> (r: u32)
        ensures
            r == self.id(),
    {
        match self {
            TensorType::F32 => 0,
            TensorType::F16 => 1,
            TensorType::Q4_0 => 2,
            TensorType::Q5_1 => 7,
            TensorType::Q8_0 => 8,
            TensorType::Q2K => 10,
            TensorType::Q3K => 11,
            TensorType::Q4K => 12,
            TensorType::Q5K => 13,
            TensorType::Q6K => 14,
            TensorType::Q8K => 15,
            TensorType::IQ2XXS => 16,
            TensorType::IQ2XS => 17,
            TensorType::IQ3XXS => 18,
            TensorType::IQ4NL => 20,
            TensorType::IQ3S => 21,
            TensorType::IQ2S => 22,
            TensorType::IQ4XS => 23,
            TensorType::I32 => 26,
            TensorType::BF16 => 30,
            TensorType::Other(id) => id,
        }
    }

    /// (block size in elements, bytes per block); `None` for `Other`.
    pub fn block_layout(self) -> (r: Option<(u64, u64)>)
        ensures
            r == self.layout(),
    {
        match self {
            TensorType::F32 | TensorType::I32 => Some((1, 4)),
            TensorType::F16 | TensorType::BF16 => Some((1, 2)),
            TensorType::Q4_0 => Some((32, 18)),
            TensorType::Q5_1 => Some((32, 24)),
            TensorType::Q8_0 => Some((32, 34)),
            TensorType::Q2K => Some((256, 84)),
            TensorType::Q3K => Some((256, 110)),
            TensorType::Q4K => Some((256, 144)),
            TensorType::Q5K => Some((256, 176)),
            TensorType::Q6K => Some((256, 210)),
            TensorType::Q8K => Some((256, 292)),
            TensorType::IQ2XXS => Some((256, 66)),
            TensorType::IQ2XS => Some((256, 74)),
            TensorType::IQ2S => Some((256, 82)),
            TensorType::IQ3XXS => Some((256, 98)),
            TensorType::IQ3S => Some((256, 110)),
            TensorType::IQ4XS => Some((256, 136)),
            TensorType::IQ4NL => Some((32, 18)),
            TensorType::Other(_) => None,
        }
    }

    /// Bytes a row of `n` elements occupies, if the layout is known.
    pub fn row_bytes(self, n: u64) -> (r: Option<u64>)
        requires
            self.row_size(n as nat) matches Some(b) ==> b <= u64::MAX,
        ensures
            r is Some <==> self.layout() is Some,
            r matches Some(b) ==> self.row_size(n as nat) == Some(b as nat),
    {
        match self.block_layout() {
            None => None,
            Some((bs, bb)) => {
                let blocks: u64 = n / bs + if n % bs == 0 { 0u64 } else { 1u64 };
                proof {
                    lemma_ceil_div(n as nat, bs as nat);
                }
                Some(blocks * bb)
            },
        }
    }
}

/// Rounding a quotient up adds one exactly when there is a remainder.
pub proof fn lemma_ceil_div(a: nat, b: nat)
    requires
        b > 0,
    ensures
        ceil_div(a, b) == a / b + if a % b == 0 { 0nat } else { 1nat },
        ceil_div(a, b) * b >= a,
        ceil_div(a, b) * b < a + b,
{
    let q = a / b;
    let r = a % b;
    vstd::arithmetic::div_mod::lemma_fundamental_div_mod(a as int, b as int);
    assert(a == b * q + r);
    assert(0 <= r < b);
    assert(b * q == q * b) by (nonlinear_arith);
    assert((q + 1) * b == q * b + b) by (nonlinear_arith);
    if r == 0 {
        vstd::arithmetic::div_mod::lemma_fundamental_div_mod_converse(
            a + b - 1,
            b as int,
            q as int,
            b - 1,
        );
    } else {
        vstd::arithmetic::div_mod::lemma_fundamental_div_mod_converse(
            a + b - 1,
            b as int,
            q as int + 1,
            r - 1,
        );
    }
    let c = ceil_div(a, b);
    assert(c * b == b * c) by (nonlinear_arith);
    assert(b * (q + 1) == b * q + b) by (nonlinear_arith);
}

/// `to_id` undoes `from_id` for every id.
pub proof fn law_id_roundtrip(id: u32)
    ensures
        type_of_id(id).id() == id,
{
}

/// `from_id` undoes `to_id` for every modeled type: only an `Other` that carries the id of a
/// modeled type comes back as that type.
pub proof fn law_type_roundtrip(ty: TensorType)
    requires
        ty matches TensorType::Other(id) ==> type_of_id(id) == TensorType::Other(id),
    ensures
        type_of_id(ty.id()) == ty,
{
}

/// Product of a sequence of extents; the empty product is 1.
pub open spec fn product(s: Seq<u64>) -> nat
    decreases s.len(),
{
    if s.len() == 0 {
        1
    } else {
        product(s.drop_last()) * s.last() as nat
    }
}

/// No running product of the extents leaves 64 bits.
pub open spec fn product_fits(s: Seq<u64>) -> bool {
    forall|k: int| 0 <= k <= s.len() ==> #[trigger] product(s.take(k)) <= u64::MAX
}

#[derive(Debug)]
pub struct TensorInfo {
    pub name: String,
    /// Dimensions in GGUF order (fastest-varying first).
    pub dims: Vec<u64>,
    pub ty: TensorType,
    /// Offset relative to the start of the data section.
    pub offset: u64,
}

impl Clone for TensorInfo {
    fn clone(&self) -> (r: Self)
        ensures
            r.name@ == self.name@,
            r.dims@ == self.dims@,
            r.ty == self.ty,
            r.offset == self.offset,
    {
        TensorInfo {
            name: self.name.clone(),
            dims: self.dims.clone(),
            ty: self.ty,
            offset: self.offset,
        }
    }
}

/// Multiplies the extents from index `from` on.
fn product_from(dims: &Vec<u64>, from: usize) -> (r: u64)
    requires
        from <= dims@.len(),
        product_fits(dims@.skip(from as int)),
    ensures
        r as nat == product(dims@.skip(from as int)),
{
    let mut acc: u64 = 1;
    let mut i: usize = from;
    let ghost s = dims@.skip(from as int);
    while i < dims.len()
        invariant
            from <= i <= dims@.len(),
            s == dims@.skip(from as int),
            product_fits(s),
            acc as nat == product(s.take(i - from)),
        decreases dims@.len() - i,
    {
        proof {
            let t = s.take(i - from + 1);
            assert(t.drop_last() =~= s.take(i - from));
            assert(t.last() == dims@[i as int]);
            assert(product(t) <= u64::MAX);
        }
        acc = acc * dims[i];
        i = i + 1;
    }
    assert(s.take(i - from) =~= s);
    acc
}

/// Total bytes of a tensor of the given extents: one padded row per index of the other axes, and
/// at least one row.
pub open spec fn tensor_bytes(dims: Seq<u64>, ty: TensorType) -> Option<nat> {
    if dims.len() == 0 {
        None
    } else {
        match ty.row_size(dims[0] as nat) {
            None => None,
            Some(b) => {
                let rows = product(dims.skip(1));
                Some(b * if rows == 0 { 1 } else { rows })
            },
        }
    }
}

/// Bytes of one expert of a three-axis slab.
pub open spec fn slab_bytes(dims: Seq<u64>, ty: TensorType) -> Option<nat> {
    if dims.len() != 3 {
        None
    } else {
        match ty.row_size(dims[0] as nat) {
            None => None,
            Some(b) => Some(b * dims[1] as nat),
        }
    }
}

impl TensorInfo {
    pub fn n_elements(&self) -> (r: u64)
        requires
            product_fits(self.dims@),
        ensures
            r as nat == product(self.dims@),
    {
        assert(self.dims@.skip(0) =~= self.dims@);
        product_from(&self.dims, 0)
    }

    /// Total byte size, if the type layout is known. Row = dims[0].
    pub fn byte_size(&self) -> (r: Option<u64>)
        requires
            self.dims@.len() > 0 ==> product_fits(self.dims@.skip(1)),
            tensor_bytes(self.dims@, self.ty) matches Some(b) ==> b <= u64::MAX,
        ensures
            r is Some <==> tensor_bytes(self.dims@, self.ty) is Some,
            r matches Some(b) ==> tensor_bytes(self.dims@, self.ty) == Some(b as nat),
    {
        if self.dims.len() == 0 {
            return None;
        }
        let row: u64 = self.dims[0];
        let rows: u64 = product_from(&self.dims, 1);
        let per: u64 = if rows == 0 {
            1
        } else {
            rows
        };
        proof {
            if let Some(b) = self.ty.row_size(row as nat) {
                assert(b * per as nat >= b) by (nonlinear_arith)
                    requires
                        per >= 1,
                ;
            }
        }
        match self.ty.row_bytes(row) {
            None => None,
            Some(b) => Some(b * per),
        }
    }

    /// True when this tensor has exactly 3 dimensions (an expert slab shaped
    /// `[width, hidden, expert_count]`).
    pub fn is_3d_slab(&self) -> (r: bool)
        ensures
            r == (self.dims@.len() == 3),
    {
        self.dims.len() == 3
    }

    /// `dims[2]`, the expert count of a slab; `None` for a tensor that is not 3D.
    pub fn slab_expert_count(&self) -> (r: Option<u64>)
        ensures
            r == if self.dims@.len() == 3 { Some(self.dims@[2]) } else { None },
    {
        if self.is_3d_slab() {
            Some(self.dims[2])
        } else {
            None
        }
    }

    /// Whether a row and a slab of experts have a 64-bit size.
    pub fn slab_counted(&self) -> (r: bool)
        ensures
            r == (self.dims@.len() == 3 ==> {
                &&& self.ty.row_size(self.dims@[0] as nat) matches Some(b) ==> b <= u64::MAX
                &&& slab_bytes(self.dims@, self.ty) matches Some(b) ==> b <= u64::MAX
            }),
    {
        if self.dims.len() != 3 {
            return true;
        }
        match self.ty.block_layout() {
            None => true,
            Some((bs, bb)) => {
                let n: u64 = self.dims[0];
                let blocks: u64 = n / bs + if n % bs == 0 { 0u64 } else { 1u64 };
                let rows: u64 = self.dims[1];
                proof {
                    lemma_ceil_div(n as nat, bs as nat);
                    assert(0 <= blocks * bb <= u64::MAX * u64::MAX) by (nonlinear_arith);
                }
                let row: u128 = blocks as u128 * bb as u128;
                if row > u64::MAX as u128 {
                    return false;
                }
                assert(0 <= row * rows <= u64::MAX * u64::MAX) by (nonlinear_arith)
                    requires
                        0 <= row <= u64::MAX,
                        0 <= rows <= u64::MAX,
                ;
                row * rows as u128 <= u64::MAX as u128
            },
        }
    }

    /// Byte size of one expert's slice within a 3D slab: `row_bytes(width) * hidden`.
    pub fn slab_expert_byte_size(&self) -> (r: Option<u64>)
        requires
            self.dims@.len() == 3 ==> (self.ty.row_size(self.dims@[0] as nat) matches Some(b)
                ==> b <= u64::MAX),
            slab_bytes(self.dims@, self.ty) matches Some(b) ==> b <= u64::MAX,
        ensures
            r is Some <==> slab_bytes(self.dims@, self.ty) is Some,
            r matches Some(b) ==> slab_bytes(self.dims@, self.ty) == Some(b as nat),
    {
        if !self.is_3d_slab() {
            return None;
        }
        let row: u64 = self.dims[0];
        let hidden: u64 = self.dims[1];
        match self.ty.row_bytes(row) {
            None => None,
            Some(b) => Some(b * hidden),
        }
    }
}

/// The name of a storage type in messages.
pub open spec fn type_text(t: TensorType) -> Seq<char> {
    match t {
        TensorType::F32 => "F32"@,
        TensorType::F16 => "F16"@,
        TensorType::Q4_0 => "Q4_0"@,
        TensorType::Q5_1 => "Q5_1"@,
        TensorType::Q8_0 => "Q8_0"@,
        TensorType::Q2K => "Q2K"@,
        TensorType::Q3K => "Q3K"@,
        TensorType::Q4K => "Q4K"@,
        TensorType::Q5K => "Q5K"@,
        TensorType::Q6K => "Q6K"@,
        TensorType::Q8K => "Q8K"@,
        TensorType::IQ2XXS => "IQ2XXS"@,
        TensorType::IQ2XS => "IQ2XS"@,
        TensorType::IQ3XXS => "IQ3XXS"@,
        TensorType::IQ3S => "IQ3S"@,
        TensorType::IQ2S => "IQ2S"@,
        TensorType::IQ4XS => "IQ4XS"@,
        TensorType::IQ4NL => "IQ4NL"@,
        TensorType::BF16 => "BF16"@,
        TensorType::I32 => "I32"@,
        TensorType::Other(id) => "Other("@ + text::decimal(id as nat) + ")"@,
    }
}

impl TensorType {
    /// The name of a storage type in messages.
    pub fn name(self) -> (r: String)
        ensures
            r@ == type_text(self),
    {
        let mut s = String::new();
        match self {
            TensorType::F32 => push_str(&mut s, "F32"),
            TensorType::F16 => push_str(&mut s, "F16"),
            TensorType::Q4_0 => push_str(&mut s, "Q4_0"),
            TensorType::Q5_1 => push_str(&mut s, "Q5_1"),
            TensorType::Q8_0 => push_str(&mut s, "Q8_0"),
            TensorType::Q2K => push_str(&mut s, "Q2K"),
            TensorType::Q3K => push_str(&mut s, "Q3K"),
            TensorType::Q4K => push_str(&mut s, "Q4K"),
            TensorType::Q5K => push_str(&mut s, "Q5K"),
            TensorType::Q6K => push_str(&mut s, "Q6K"),
            TensorType::Q8K => push_str(&mut s, "Q8K"),
            TensorType::IQ2XXS => push_str(&mut s, "IQ2XXS"),
            TensorType::IQ2XS => push_str(&mut s, "IQ2XS"),
            TensorType::IQ3XXS => push_str(&mut s, "IQ3XXS"),
            TensorType::IQ3S => push_str(&mut s, "IQ3S"),
            TensorType::IQ2S => push_str(&mut s, "IQ2S"),
            TensorType::IQ4XS => push_str(&mut s, "IQ4XS"),
            TensorType::IQ4NL => push_str(&mut s, "IQ4NL"),
            TensorType::BF16 => push_str(&mut s, "BF16"),
            TensorType::I32 => push_str(&mut s, "I32"),
            TensorType::Other(id) => {
                push_str(&mut s, "Other(");
                push_decimal(&mut s, id as u64);
                push_str(&mut s, ")");
            },
        }
        assert(s@ =~= type_text(self));
        s
    }
}

} // verus!
