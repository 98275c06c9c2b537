//! What the container format fixes, number by number and byte by byte.
use vstd::prelude::*;
use vstd::utf8::*;

use super::encode;
use super::error;
use super::error::Fault;
use super::grammar;
use super::grammar::TensorView;
use super::model;
use super::shards;
use super::tensor;
use super::tensor::TensorType;
use super::value::Val;
use super::writer;
use crate::bytes;
use crate::text;

verus! {

/// The type ids are those of GGML, for reading: each id names this type and no other, and every id
/// that is not listed is kept as it is.
pub proof fn law_types_read(id: u32)
    ensures
        tensor::type_of_id(0) == TensorType::F32,
        tensor::type_of_id(1) == TensorType::F16,
        tensor::type_of_id(2) == TensorType::Q4_0,
        tensor::type_of_id(7) == TensorType::Q5_1,
        tensor::type_of_id(8) == TensorType::Q8_0,
        tensor::type_of_id(10) == TensorType::Q2K,
        tensor::type_of_id(11) == TensorType::Q3K,
        tensor::type_of_id(12) == TensorType::Q4K,
        tensor::type_of_id(13) == TensorType::Q5K,
        tensor::type_of_id(14) == TensorType::Q6K,
        tensor::type_of_id(15) == TensorType::Q8K,
        tensor::type_of_id(16) == TensorType::IQ2XXS,
        tensor::type_of_id(17) == TensorType::IQ2XS,
        tensor::type_of_id(18) == TensorType::IQ3XXS,
        tensor::type_of_id(20) == TensorType::IQ4NL,
        tensor::type_of_id(21) == TensorType::IQ3S,
        tensor::type_of_id(22) == TensorType::IQ2S,
        tensor::type_of_id(23) == TensorType::IQ4XS,
        tensor::type_of_id(26) == TensorType::I32,
        tensor::type_of_id(30) == TensorType::BF16,
        id == 3 || id == 4 || id == 5 || id == 6 || id == 9 || id == 19 || id == 24 || id == 25
            || 27 <= id <= 29 || id > 30 ==> tensor::type_of_id(id) == TensorType::Other(id),
{
}

/// The type ids are those of GGML, for writing.
pub proof fn law_types_written(id: u32)
    ensures
        TensorType::F32.id() == 0,
        TensorType::F16.id() == 1,
        TensorType::Q4_0.id() == 2,
        TensorType::Q5_1.id() == 7,
        TensorType::Q8_0.id() == 8,
        TensorType::Q2K.id() == 10,
        TensorType::Q3K.id() == 11,
        TensorType::Q4K.id() == 12,
        TensorType::Q5K.id() == 13,
        TensorType::Q6K.id() == 14,
        TensorType::Q8K.id() == 15,
        TensorType::IQ2XXS.id() == 16,
        TensorType::IQ2XS.id() == 17,
        TensorType::IQ3XXS.id() == 18,
        TensorType::IQ4NL.id() == 20,
        TensorType::IQ3S.id() == 21,
        TensorType::IQ2S.id() == 22,
        TensorType::IQ4XS.id() == 23,
        TensorType::I32.id() == 26,
        TensorType::BF16.id() == 30,
        TensorType::Other(id).id() == id,
{
}

/// The name of a type is read once: two ids name two types, and two types have two ids unless one of
/// them is kept by its id alone.
pub proof fn law_ids_apart(a: u32, b: u32, s: TensorType, t: TensorType)
    requires
        a != b,
        s != t,
        !(s is Other),
        !(t is Other),
    ensures
        tensor::type_of_id(a) != tensor::type_of_id(b),
        s.id() != t.id(),
{
}

/// A block is as long as its parts together: scales and minima in half precision, packed scales,
/// high bits, low bits, signs, and for 8-bit blocks of a row the sums of its groups.
pub proof fn law_block_parts(id: u32)
    ensures
        TensorType::F32.layout() == Some((1u64, 4u64)),
        TensorType::I32.layout() == Some((1u64, 4u64)),
        TensorType::F16.layout() == Some((1u64, 2u64)),
        TensorType::BF16.layout() == Some((1u64, 2u64)),
        TensorType::Q4_0.layout() matches Some((n, b)) && n == 32 && b == 2 + 32int / 2,
        TensorType::IQ4NL.layout() matches Some((n, b)) && n == 32 && b == 2 + 32int / 2,
        TensorType::Q5_1.layout() matches Some((n, b)) && n == 32 && b == 2 + 2 + 32int / 8 + 32int / 2,
        TensorType::Q8_0.layout() matches Some((n, b)) && n == 32 && b == 2 + 32,
        TensorType::Q2K.layout() matches Some((n, b)) && n == 256 && b == 256int / 16 + 256int / 4 + 2
            + 2,
        TensorType::Q3K.layout() matches Some((n, b)) && n == 256 && b == 256int / 8 + 256int / 4 + 12
            + 2,
        TensorType::Q4K.layout() matches Some((n, b)) && n == 256 && b == 2 + 2 + 12 + 256int / 2,
        TensorType::Q5K.layout() matches Some((n, b)) && n == 256 && b == 2 + 2 + 12 + 256int / 8
            + 256int / 2,
        TensorType::Q6K.layout() matches Some((n, b)) && n == 256 && b == 256int / 2 + 256int / 4 + 256int
            / 16 + 2,
        TensorType::Q8K.layout() matches Some((n, b)) && n == 256 && b == 4 + 256 + 2 * (256int / 16),
        TensorType::IQ2XXS.layout() matches Some((n, b)) && n == 256 && b == 2 + 256int / 4,
        TensorType::IQ2XS.layout() matches Some((n, b)) && n == 256 && b == 2 + 256int / 4 + 256int / 32,
        TensorType::IQ2S.layout() matches Some((n, b)) && n == 256 && b == 2 + 256int / 4 + 256int / 32
            + 256int / 32,
        TensorType::IQ3XXS.layout() matches Some((n, b)) && n == 256 && b == 2 + 256int / 4 + 256int / 8,
        TensorType::IQ3S.layout() matches Some((n, b)) && n == 256 && b == 2 + 256int / 4 + 256int / 32
            + 256int / 8 + 256int / 64,
        TensorType::IQ4XS.layout() matches Some((n, b)) && n == 256 && b == 2 + 2 + 256int / 64 + 256int
            / 2,
        TensorType::Other(id).layout() is None,
{
}

/// A row takes the fewest whole blocks that hold its elements.
pub proof fn law_row_fewest_blocks(ty: TensorType, n: nat)
    ensures
        match ty.layout() {
            Some((bs, bb)) => exists|k: nat|
                #![trigger k * (bb as nat)]
                ty.row_size(n) == Some(k * (bb as nat)) && k * (bs as nat) >= n && forall|j: nat|
                    #![trigger j * (bs as nat)]
                    j * (bs as nat) >= n ==> j >= k,
            None => ty.row_size(n) is None,
        },
{
    if let Some((bs, bb)) = ty.layout() {
        let b = bs as nat;
        let k = tensor::ceil_div(n, b);
        tensor::lemma_ceil_div(n, b);
        assert(ty.row_size(n) == Some(k * (bb as nat)));
        assert forall|j: nat| #![trigger j * b] j * b >= n implies j >= k by {
            if j < k {
                assert(k * b >= (j + 1) * b) by (nonlinear_arith)
                    requires
                        k >= j + 1,
                ;
                assert((j + 1) * b == j * b + b) by (nonlinear_arith);
            }
        }
    }
}

/// Rows that fill whole blocks add up: two of them side by side take the bytes of both.
pub proof fn law_rows_add(ty: TensorType, m: nat, n: nat)
    requires
        ty.layout() is Some,
        m % (ty.layout()->Some_0.0 as nat) == 0,
    ensures
        ty.row_size(m + n)->0 == ty.row_size(m)->0 + ty.row_size(n)->0,
{
    let (bs, bb) = ty.layout()->Some_0;
    let b = bs as nat;
    tensor::lemma_ceil_div(m, b);
    tensor::lemma_ceil_div(n, b);
    tensor::lemma_ceil_div(m + n, b);
    let q = m / b;
    vstd::arithmetic::div_mod::lemma_fundamental_div_mod(m as int, b as int);
    vstd::arithmetic::div_mod::lemma_fundamental_div_mod(n as int, b as int);
    let p = n / b;
    let r = n % b;
    assert(m + n == b * (q + p) + r) by (nonlinear_arith)
        requires
            m == b * q,
            n == b * p + r,
    ;
    vstd::arithmetic::div_mod::lemma_fundamental_div_mod_converse(
        (m + n) as int,
        b as int,
        (q + p) as int,
        r as int,
    );
    let x = tensor::ceil_div(m, b);
    let y = tensor::ceil_div(n, b);
    assert(tensor::ceil_div(m + n, b) == x + y);
    assert((x + y) * (bb as nat) == x * (bb as nat) + y * (bb as nat)) by (nonlinear_arith);
}

proof fn lemma_product_push(s: Seq<u64>, d: u64)
    ensures
        tensor::product(s.push(d)) == tensor::product(s) * d as nat,
{
    assert(s.push(d).drop_last() =~= s);
}

/// A tensor with one more axis holds its extent times the elements and, where nothing is empty, the
/// bytes. A tensor of one axis is one row, and a scalar without axes has no size.
pub proof fn law_axis_multiplies(dims: Seq<u64>, d: u64, ty: TensorType)
    requires
        dims.len() > 0,
        tensor::product(dims.skip(1)) > 0,
        d > 0,
    ensures
        tensor::product(dims.push(d)) == tensor::product(dims) * d as nat,
        tensor::tensor_bytes(dims, ty) matches Some(b) ==> tensor::tensor_bytes(dims.push(d), ty)
            == Some(b * d as nat),
        tensor::tensor_bytes(dims.push(d), ty) is Some <==> ty.layout() is Some,
        tensor::tensor_bytes(dims.take(1), ty) == ty.row_size(dims[0] as nat),
        tensor::tensor_bytes(Seq::empty(), ty) is None,
        tensor::product(Seq::empty()) == 1,
{
    lemma_product_push(dims, d);
    assert(dims.push(d).skip(1) =~= dims.skip(1).push(d));
    lemma_product_push(dims.skip(1), d);
    let p = tensor::product(dims.skip(1));
    assert(p * d as nat > 0) by (nonlinear_arith)
        requires
            p > 0,
            d > 0,
    ;
    if let Some(b) = ty.row_size(dims[0] as nat) {
        assert(b * (p * d as nat) == (b * p) * d as nat) by (nonlinear_arith);
    }
    assert(dims.take(1).skip(1) =~= Seq::<u64>::empty());
    assert(dims.take(1)[0] == dims[0]);
    if let Some(b) = ty.row_size(dims[0] as nat) {
        assert(b * 1 == b) by (nonlinear_arith);
    }
}

/// The experts of a slab, each of the bytes of one, make up the slab.
pub proof fn law_slab_of_experts(dims: Seq<u64>, ty: TensorType)
    requires
        dims.len() == 3,
        dims[1] > 0,
        dims[2] > 0,
    ensures
        match (tensor::slab_bytes(dims, ty), tensor::tensor_bytes(dims, ty)) {
            (Some(one), Some(all)) => all == one * dims[2] as nat,
            (None, None) => ty.layout() is None,
            _ => false,
        },
        tensor::slab_bytes(dims.take(2), ty) is None,
        tensor::slab_bytes(dims.push(1), ty) is None,
        tensor::slab_bytes(dims, ty) == tensor::tensor_bytes(dims.take(2), ty),
{
    let a = dims[1];
    let b = dims[2];
    assert(dims.skip(1) =~= seq![a].push(b));
    lemma_product_push(seq![a], b);
    assert(seq![a] =~= Seq::<u64>::empty().push(a));
    lemma_product_push(Seq::empty(), a);
    assert(tensor::product(seq![a]) == a as nat) by (nonlinear_arith)
        requires
            tensor::product(seq![a]) == 1 * a as nat,
    ;
    assert(a as nat * b as nat > 0) by (nonlinear_arith)
        requires
            a > 0,
            b > 0,
    ;
    if let Some(r) = ty.row_size(dims[0] as nat) {
        assert(r * (a as nat * b as nat) == (r * a as nat) * b as nat) by (nonlinear_arith);
    }
    assert(dims.take(2).skip(1) =~= seq![a]);
}

/// Numbers are little-endian: the first byte counts ones and the rest count 256 times as much; and
/// they are written the same way.
pub proof fn law_first_byte_least(b: u8, rest: Seq<u8>, n: nat, k: nat)
    requires
        k > 0,
    ensures
        bytes::le_nat(seq![b] + rest) == b as nat + 256 * bytes::le_nat(rest),
        bytes::le_nat(Seq::empty()) == 0,
        bytes::le_bytes(n, k).len() == k,
        bytes::le_bytes(n, k)[0] as nat == n % 256,
        bytes::le_bytes(n, k).skip(1) == bytes::le_bytes(n / 256, (k - 1) as nat),
{
    let s = seq![b] + rest;
    assert(s.subrange(1, s.len() as int) =~= rest);
    lemma_le_len(n, k);
    assert(bytes::le_bytes(n, k).skip(1) =~= bytes::le_bytes(n / 256, (k - 1) as nat));
}

proof fn lemma_le_len(n: nat, k: nat)
    ensures
        bytes::le_bytes(n, k).len() == k,
    decreases k,
{
    if k > 0 {
        lemma_le_len(n / 256, (k - 1) as nat);
    }
}

/// Each kind of value has its number, whatever it holds.
pub proof fn law_kinds(v: Val)
    ensures
        v is U8 <==> encode::kind(v) == 0,
        v is I8 <==> encode::kind(v) == 1,
        v is U16 <==> encode::kind(v) == 2,
        v is I16 <==> encode::kind(v) == 3,
        v is U32 <==> encode::kind(v) == 4,
        v is I32 <==> encode::kind(v) == 5,
        v is F32 <==> encode::kind(v) == 6,
        v is Bool <==> encode::kind(v) == 7,
        v is Str <==> encode::kind(v) == 8,
        v is Array <==> encode::kind(v) == 9,
        v is U64 <==> encode::kind(v) == 10,
        v is I64 <==> encode::kind(v) == 11,
        v is F64 <==> encode::kind(v) == 12,
{
}

/// Bytes of a value by its kind: one for the 8-bit kinds and truth values, two for the 16-bit kinds,
/// four for the 32-bit kinds, eight for the 64-bit kinds. Strings, arrays and unknown kinds have no
/// fixed width.
pub proof fn law_widths(ty: u32)
    ensures
        grammar::scalar_width(ty) == 1 <==> ty == 0 || ty == 1 || ty == 7,
        grammar::scalar_width(ty) == 2 <==> ty == 2 || ty == 3,
        grammar::scalar_width(ty) == 4 <==> ty == 4 || ty == 5 || ty == 6,
        grammar::scalar_width(ty) == 8 <==> ty == 10 || ty == 11 || ty == 12,
        grammar::scalar_width(ty) == 0 <==> ty == 8 || ty == 9 || ty > 12,
{
}

/// What the bytes of a number mean by its kind: unsigned kinds are the number, signed kinds are it
/// in two's complement, floating-point kinds keep their bits, and every number but zero is true.
pub proof fn law_numbers(a: u8, b: u16, c: u32, d: u64)
    ensures
        grammar::number_val(0, a as nat) == Val::U8(a),
        grammar::number_val(2, b as nat) == Val::U16(b),
        grammar::number_val(4, c as nat) == Val::U32(c),
        grammar::number_val(10, d as nat) == Val::U64(d),
        grammar::number_val(6, c as nat) == Val::F32(c),
        grammar::number_val(12, d as nat) == Val::F64(d),
        grammar::number_val(7, a as nat) == Val::Bool(a != 0),
        grammar::number_val(1, a as nat) matches Val::I8(x) && x == (if a < 0x80 {
            a as int
        } else {
            a - 0x100
        }),
        grammar::number_val(3, b as nat) matches Val::I16(x) && x == (if b < 0x8000 {
            b as int
        } else {
            b - 0x1_0000
        }),
        grammar::number_val(5, c as nat) matches Val::I32(x) && x == (if c < 0x8000_0000 {
            c as int
        } else {
            c - 0x1_0000_0000
        }),
        grammar::number_val(11, d as nat) matches Val::I64(x) && x == (if d
            < 0x8000_0000_0000_0000 {
            d as int
        } else {
            d - 0x1_0000_0000_0000_0000
        }),
{
    assert(a as i8 == (if a < 0x80 { a as int } else { a - 0x100 })) by (bit_vector);
    assert(b as i16 == (if b < 0x8000 { b as int } else { b - 0x1_0000 })) by (bit_vector);
    assert(c as i32 == (if c < 0x8000_0000 { c as int } else { c - 0x1_0000_0000 })) by (bit_vector);
    assert(d as i64 == (if d < 0x8000_0000_0000_0000 {
        d as int
    } else {
        d - 0x1_0000_0000_0000_0000
    })) by (bit_vector);
}

/// A value counts as a natural number exactly where it is a whole number of any width that is not
/// negative, and it is then that number. Truth values, strings, arrays and floating-point values
/// never count as one.
pub proof fn law_naturals(v: Val)
    ensures
        match v {
            Val::U8(x) => v.to_u64() == Some(x as u64),
            Val::U16(x) => v.to_u64() == Some(x as u64),
            Val::U32(x) => v.to_u64() == Some(x as u64),
            Val::U64(x) => v.to_u64() == Some(x),
            Val::I8(x) => if x < 0 {
                v.to_u64() is None
            } else {
                v.to_u64() == Some(x as u64)
            },
            Val::I16(x) => if x < 0 {
                v.to_u64() is None
            } else {
                v.to_u64() == Some(x as u64)
            },
            Val::I32(x) => if x < 0 {
                v.to_u64() is None
            } else {
                v.to_u64() == Some(x as u64)
            },
            Val::I64(x) => if x < 0 {
                v.to_u64() is None
            } else {
                v.to_u64() == Some(x as u64)
            },
            Val::F32(_) | Val::F64(_) | Val::Bool(_) | Val::Str(_) | Val::Array(_) => v.to_u64() is None,
        },
{
}

/// A value counts as a number of single precision exactly where it is a floating-point one; one of
/// single precision keeps its bits.
pub proof fn law_singles(v: Val)
    ensures
        v.to_f32() is Some <==> v is F32 || v is F64,
        v matches Val::F32(x) ==> v.to_f32() == Some(x),
        v matches Val::F64(x) ==> v.to_f32() == Some(crate::fp::narrow_of(x) as u32),
{
}

/// A string is written as the count of its bytes, in eight bytes, and then its UTF-8.
pub proof fn law_string_written(s: Seq<char>)
    ensures
        encode::enc_string(s).len() == 8 + encode_utf8(s).len(),
        encode::enc_string(s).take(8) == bytes::le_bytes(encode_utf8(s).len(), 8),
        encode::enc_string(s).skip(8) == encode_utf8(s),
{
    lemma_le_len(encode_utf8(s).len(), 8);
    assert(encode::enc_string(s).take(8) =~= bytes::le_bytes(encode_utf8(s).len(), 8));
    assert(encode::enc_string(s).skip(8) =~= encode_utf8(s));
}

/// A value is written in the bytes of its kind; a truth value is the byte 1 or 0.
pub proof fn law_scalar_written(v: Val, s: Seq<char>)
    requires
        !(v is Str),
        !(v is Array),
    ensures
        encode::enc_val(v).len() == grammar::scalar_width(encode::kind(v)),
        encode::enc_val(Val::Bool(true)) == seq![1u8],
        encode::enc_val(Val::Bool(false)) == seq![0u8],
        encode::enc_val(Val::Str(s)) == encode::enc_string(s),
{
    match v {
        Val::U8(x) => lemma_le_len(x as nat, 1),
        Val::I8(x) => lemma_le_len(x as u8 as nat, 1),
        Val::U16(x) => lemma_le_len(x as nat, 2),
        Val::I16(x) => lemma_le_len(x as u16 as nat, 2),
        Val::U32(x) => lemma_le_len(x as nat, 4),
        Val::I32(x) => lemma_le_len(x as u32 as nat, 4),
        Val::F32(x) => lemma_le_len(x as nat, 4),
        Val::Bool(x) => lemma_le_len(
            if x {
                1
            } else {
                0
            },
            1,
        ),
        Val::U64(x) => lemma_le_len(x as nat, 8),
        Val::I64(x) => lemma_le_len(x as u64 as nat, 8),
        Val::F64(x) => lemma_le_len(x as nat, 8),
        Val::Str(_) => {},
        Val::Array(_) => {},
    }
    reveal_with_fuel(bytes::le_bytes, 2);
    assert(encode::enc_val(Val::Bool(true)) =~= seq![1u8]);
    assert(encode::enc_val(Val::Bool(false)) =~= seq![0u8]);
}

/// An array is written as the kind of its elements in four bytes, their count in eight, and the
/// elements in order. An empty one announces the kind of 32-bit numbers.
pub proof fn law_array_written(a: Seq<Val>, v: Val)
    ensures
        encode::enc_val(Val::Array(a)).take(4) == bytes::le_bytes(
            if a.len() == 0 {
                4
            } else {
                encode::kind(a[0]) as nat
            },
            4,
        ),
        encode::enc_val(Val::Array(a)).subrange(4, 12) == bytes::le_bytes(a.len(), 8),
        encode::enc_val(Val::Array(a)).skip(12) == encode::enc_vals(a),
        encode::enc_vals(a.push(v)) == encode::enc_vals(a) + encode::enc_val(v),
        encode::enc_vals(Seq::empty()) == Seq::<u8>::empty(),
{
    let k = encode::elem_kind(a) as nat;
    lemma_le_len(k, 4);
    lemma_le_len(a.len(), 8);
    let w = encode::enc_val(Val::Array(a));
    assert(w.take(4) =~= bytes::le_bytes(k, 4));
    assert(w.subrange(4, 12) =~= bytes::le_bytes(a.len(), 8));
    assert(w.skip(12) =~= encode::enc_vals(a));
    assert(a.push(v).drop_last() =~= a);
}

/// A metadata entry is its key, the kind of its value in four bytes, and the value.
pub proof fn law_entry_written(key: Seq<char>, v: Val)
    ensures
        ({
            let w = encode::enc_entry((key, v));
            let k = encode::enc_string(key).len() as int;
            &&& w.take(k) == encode::enc_string(key)
            &&& w.subrange(k, k + 4) == bytes::le_bytes(encode::kind(v) as nat, 4)
            &&& w.skip(k + 4) == encode::enc_val(v)
        }),
{
    let w = encode::enc_entry((key, v));
    let k = encode::enc_string(key).len() as int;
    lemma_le_len(encode::kind(v) as nat, 4);
    assert(w.take(k) =~= encode::enc_string(key));
    assert(w.subrange(k, k + 4) =~= bytes::le_bytes(encode::kind(v) as nat, 4));
    assert(w.skip(k + 4) =~= encode::enc_val(v));
}

proof fn lemma_extents_len(d: Seq<u64>)
    ensures
        encode::enc_extents(d).len() == 8 * d.len(),
    decreases d.len(),
{
    if d.len() > 0 {
        lemma_extents_len(d.drop_last());
        lemma_le_len(d.last() as nat, 8);
    }
}

/// The extents of a tensor stand one behind the other, the fastest-varying first, eight bytes each.
pub proof fn law_extents_written(d: Seq<u64>, i: int)
    requires
        0 <= i < d.len(),
    ensures
        encode::enc_extents(d).len() == 8 * d.len(),
        encode::enc_extents(d).subrange(8 * i, 8 * i + 8) == bytes::le_bytes(d[i] as nat, 8),
    decreases d.len(),
{
    let e = d.drop_last();
    lemma_extents_len(d);
    lemma_extents_len(e);
    lemma_le_len(d.last() as nat, 8);
    let w = encode::enc_extents(d);
    if i == d.len() - 1 {
        assert(w.subrange(8 * i, 8 * i + 8) =~= bytes::le_bytes(d[i] as nat, 8));
    } else {
        law_extents_written(e, i);
        assert(w.subrange(8 * i, 8 * i + 8) =~= encode::enc_extents(e).subrange(8 * i, 8 * i + 8));
    }
}

/// An entry of the tensor table ends with the offset in eight bytes and, before it, the type id in
/// four. It begins with the name and, behind that, the number of axes in four bytes; the extents are
/// in between.
pub proof fn law_tensor_written(t: TensorView)
    ensures
        ({
            let w = encode::enc_tensor(t);
            let n = w.len() as int;
            let k = encode::enc_string(t.name).len() as int;
            &&& w.skip(n - 8) == bytes::le_bytes(t.offset as nat, 8)
            &&& w.subrange(n - 12, n - 8) == bytes::le_bytes(t.ty.id() as nat, 4)
            &&& w.take(k) == encode::enc_string(t.name)
            &&& w.subrange(k, k + 4) == bytes::le_bytes(t.dims.len(), 4)
            &&& w.subrange(k + 4, n - 12) == encode::enc_extents(t.dims)
            &&& n == k + 4 + 8 * t.dims.len() + 4 + 8
        }),
{
    let w = encode::enc_tensor(t);
    let n = w.len() as int;
    let k = encode::enc_string(t.name).len() as int;
    lemma_extents_len(t.dims);
    lemma_le_len(t.dims.len(), 4);
    lemma_le_len(t.ty.id() as nat, 4);
    lemma_le_len(t.offset as nat, 8);
    assert(w.skip(n - 8) =~= bytes::le_bytes(t.offset as nat, 8));
    assert(w.subrange(n - 12, n - 8) =~= bytes::le_bytes(t.ty.id() as nat, 4));
    assert(w.take(k) =~= encode::enc_string(t.name));
    assert(w.subrange(k, k + 4) =~= bytes::le_bytes(t.dims.len(), 4));
    assert(w.subrange(k + 4, n - 12) =~= encode::enc_extents(t.dims));
}

/// A header begins with the letters G, G, U, F, the version 3 in four bytes, the number of tensors
/// and the number of metadata entries in eight bytes each; the entries come next, the tensor table
/// last.
pub proof fn law_header_written(m: Seq<(Seq<char>, Val)>, ts: Seq<TensorView>)
    ensures
        ({
            let w = encode::enc_header(m, ts);
            &&& w.take(8) == seq![0x47u8, 0x47, 0x55, 0x46, 3, 0, 0, 0]
            &&& w.subrange(8, 16) == bytes::le_bytes(ts.len(), 8)
            &&& w.subrange(16, 24) == bytes::le_bytes(m.len(), 8)
            &&& w.skip(24) == encode::enc_entries(m) + encode::enc_tensors(ts)
        }),
{
    let w = encode::enc_header(m, ts);
    reveal_with_fuel(bytes::le_bytes, 5);
    assert(bytes::le_bytes(grammar::GGUF_MAGIC as nat, 4) =~= seq![0x47u8, 0x47, 0x55, 0x46]);
    assert(bytes::le_bytes(3, 4) =~= seq![3u8, 0, 0, 0]);
    lemma_le_len(ts.len(), 8);
    lemma_le_len(m.len(), 8);
    assert(w.take(8) =~= seq![0x47u8, 0x47, 0x55, 0x46, 3, 0, 0, 0]);
    assert(w.subrange(8, 16) =~= bytes::le_bytes(ts.len(), 8));
    assert(w.subrange(16, 24) =~= bytes::le_bytes(m.len(), 8));
    assert(w.skip(24) =~= encode::enc_entries(m) + encode::enc_tensors(ts));
}

/// Entries and tensors are written in their order.
pub proof fn law_runs_written(
    m: Seq<(Seq<char>, Val)>,
    e: (Seq<char>, Val),
    ts: Seq<TensorView>,
    t: TensorView,
)
    ensures
        encode::enc_entries(m.push(e)) == encode::enc_entries(m) + encode::enc_entry(e),
        encode::enc_tensors(ts.push(t)) == encode::enc_tensors(ts) + encode::enc_tensor(t),
        encode::enc_entries(Seq::empty()) == Seq::<u8>::empty(),
        encode::enc_tensors(Seq::empty()) == Seq::<u8>::empty(),
{
    assert(m.push(e).drop_last() =~= m);
    assert(ts.push(t).drop_last() =~= ts);
}

/// Of the entries with one key the last one counts, and no key comes from elsewhere.
pub proof fn law_last_entry_counts(m: Seq<(Seq<char>, Val)>, i: int, key: Seq<char>)
    ensures
        0 <= i < m.len() && (forall|j: int| i < j < m.len() ==> (#[trigger] m[j]).0 != m[i].0) ==> {
            &&& encode::table_of(m).contains_key(m[i].0)
            &&& encode::table_of(m)[m[i].0] == m[i].1
        },
        encode::table_of(m).contains_key(key) ==> exists|j: int|
            0 <= j < m.len() && (#[trigger] m[j]).0 == key,
    decreases m.len(),
{
    if m.len() > 0 {
        let p = m.drop_last();
        law_last_entry_counts(p, i, key);
        let last = m.len() - 1;
        assert(m[last] == m.last());
        if 0 <= i < last && (forall|j: int| i < j < m.len() ==> (#[trigger] m[j]).0 != m[i].0) {
            assert(m[last].0 != m[i].0);
            assert(p[i] == m[i]);
            assert forall|j: int| i < j < p.len() implies (#[trigger] p[j]).0 != p[i].0 by {
                assert(m[j].0 != m[i].0);
            }
        }
        if encode::table_of(m).contains_key(key) {
            if key == m.last().0 {
                assert(m[last].0 == key);
            } else {
                let j = choose|j: int| 0 <= j < p.len() && (#[trigger] p[j]).0 == key;
                assert(m[j].0 == key);
            }
        }
    }
}

/// What is not a header: other first letters, another version than 2 and 3, more than 2^20 tensors
/// or metadata entries. What is one says the version and the number of tensors that its bytes say.
pub proof fn law_header_read(buf: Seq<u8>)
    ensures
        grammar::header(buf) matches Ok(h) ==> {
            &&& buf.len() >= 24
            &&& buf.take(4) == seq![0x47u8, 0x47, 0x55, 0x46]
            &&& h.version == bytes::le_nat(buf.subrange(4, 8))
            &&& h.version == 2 || h.version == 3
            &&& h.tensors.len() == bytes::le_nat(buf.subrange(8, 16))
            &&& h.tensors.len() <= 0x10_0000
            &&& bytes::le_nat(buf.subrange(16, 24)) <= 0x10_0000
            &&& h.alignment == grammar::alignment_of(h.metadata)
            &&& h.data_offset as int % h.alignment as int == 0
            &&& h.data_offset >= 24
        },
        buf.len() >= 4 && buf.take(4) != seq![0x47u8, 0x47, 0x55, 0x46] ==> (grammar::header(
            buf,
        ) matches Err(e) && e is BadMagic),
        buf.len() >= 8 && buf.take(4) == seq![0x47u8, 0x47, 0x55, 0x46] && bytes::le_nat(
            buf.subrange(4, 8),
        ) != 2 && bytes::le_nat(buf.subrange(4, 8)) != 3 ==> (grammar::header(buf) matches Err(e)
            && e is UnsupportedVersion),
{
    let f = buf.subrange(0, 4);
    if buf.len() >= 4 {
        assert(f =~= buf.take(4));
        lemma_four(f);
    }
    if let Ok(h) = grammar::header(buf) {
        let v = bytes::le_nat(buf.subrange(4, 8));
        let n = bytes::le_nat(buf.subrange(8, 16));
        let k = bytes::le_nat(buf.subrange(16, 24));
        assert(buf.len() >= 24);
        bytes::lemma_le_bound(buf.subrange(4, 8));
        bytes::lemma_pow256();
        assert(grammar::header(buf) == grammar::counts(buf, 8, v as u32));
        assert(grammar::header(buf) == grammar::body(buf, 24, v as u32, n, k));
        lemma_entries_end(buf, 24, k, Map::empty());
        let (md, at) = grammar::entries(buf, 24, k, Map::empty())->Ok_0;
        lemma_tensors_end(buf, at, n, Seq::empty());
        let (ts, end) = grammar::tensors(buf, at, n, Seq::empty())->Ok_0;
        let a = h.alignment as nat;
        law_alignment_asked(md);
        tensor::lemma_ceil_div(end as nat, a);
        vstd::arithmetic::div_mod::lemma_mod_multiples_basic(
            tensor::ceil_div(end as nat, a) as int,
            a as int,
        );
    }
}

proof fn lemma_four(f: Seq<u8>)
    requires
        f.len() == 4,
    ensures
        bytes::le_nat(f) == grammar::GGUF_MAGIC <==> f == seq![0x47u8, 0x47, 0x55, 0x46],
{
    reveal_with_fuel(bytes::le_nat, 5);
    assert(f.subrange(1, 4).subrange(1, 3) =~= f.subrange(2, 4));
    assert(f.subrange(2, 4).subrange(1, 2) =~= f.subrange(3, 4));
    let g = seq![0x47u8, 0x47, 0x55, 0x46];
    if bytes::le_nat(f) == grammar::GGUF_MAGIC {
        assert(f =~= g);
    }
}

proof fn lemma_string_end(buf: Seq<u8>, at: usize)
    ensures
        grammar::string(buf, at) matches Ok((_, end)) ==> end >= at + 8,
{
}

proof fn lemma_elements_end(buf: Seq<u8>, at: usize, ty: u32, depth: nat, n: nat, acc: Seq<Val>)
    ensures
        grammar::elements(buf, at, ty, depth, n, acc) matches Ok((_, end)) ==> end >= at,
    decreases grammar::depth_left(depth) + 1, n,
{
    if n > 0 {
        lemma_value_end(buf, at, ty, depth);
        if let Ok((v, mid)) = grammar::value(buf, at, ty, depth) {
            lemma_elements_end(buf, mid, ty, depth, (n - 1) as nat, acc.push(v));
        }
    }
}

proof fn lemma_value_end(buf: Seq<u8>, at: usize, ty: u32, depth: nat)
    ensures
        grammar::value(buf, at, ty, depth) matches Ok((_, end)) ==> end >= at,
    decreases grammar::depth_left(depth), 0nat,
{
    if ty == 9 && depth <= 2 {
        if let Ok((e, a)) = grammar::number(buf, at, 4) {
            if let Ok((count, b)) = grammar::number(buf, a, 8) {
                lemma_elements_end(buf, b, e as u32, depth + 1, count, Seq::empty());
            }
        }
    } else {
        lemma_string_end(buf, at);
    }
}

proof fn lemma_entries_end(buf: Seq<u8>, at: usize, n: nat, acc: Map<Seq<char>, Val>)
    ensures
        grammar::entries(buf, at, n, acc) matches Ok((_, end)) ==> end >= at,
    decreases n,
{
    if n > 0 {
        if let Ok((key, a)) = grammar::string(buf, at) {
            lemma_string_end(buf, at);
            if let Ok((ty, b)) = grammar::number(buf, a, 4) {
                lemma_value_end(buf, b, ty as u32, 0);
                if let Ok((v, c)) = grammar::value(buf, b, ty as u32, 0) {
                    lemma_entries_end(buf, c, (n - 1) as nat, acc.insert(key, v));
                }
            }
        }
    }
}

proof fn lemma_dims_end(buf: Seq<u8>, at: usize, n: nat, acc: Seq<u64>)
    ensures
        grammar::extents(buf, at, n, acc) matches Ok((_, end)) ==> end >= at,
    decreases n,
{
    if n > 0 {
        if let Ok((d, a)) = grammar::number(buf, at, 8) {
            lemma_dims_end(buf, a, (n - 1) as nat, acc.push(d as u64));
        }
    }
}

proof fn lemma_tensors_end(buf: Seq<u8>, at: usize, n: nat, acc: Seq<TensorView>)
    ensures
        grammar::tensors(buf, at, n, acc) matches Ok((ts, end)) ==> end >= at && ts.len()
            == acc.len() + n,
    decreases n,
{
    if n > 0 {
        if let Ok((t, a)) = grammar::tensor(buf, at) {
            lemma_string_end(buf, at);
            if let Ok((_, b)) = grammar::string(buf, at) {
                if let Ok((k, c)) = grammar::number(buf, b, 4) {
                    lemma_dims_end(buf, c, k, Seq::empty());
                }
            }
            lemma_tensors_end(buf, a, (n - 1) as nat, acc.push(t));
        }
    }
}

proof fn lemma_pow2_positive(n: nat)
    ensures
        grammar::is_pow2(n) ==> n > 0,
{
}

/// The data section is aligned to a power of two, always: to the one under `general.alignment`,
/// of whatever width it is, or to 32 where that holds none.
pub proof fn law_alignment_asked(m: Map<Seq<char>, Val>)
    ensures
        grammar::is_pow2(grammar::alignment_of(m) as nat),
        grammar::alignment_of(m) > 0,
        m.contains_key("general.alignment"@) && m["general.alignment"@].to_u64() is Some
            && grammar::is_pow2(m["general.alignment"@].to_u64()->0 as nat) ==> Some(
            grammar::alignment_of(m),
        ) == m["general.alignment"@].to_u64(),
        !m.contains_key("general.alignment"@) ==> grammar::alignment_of(m) == 32,
        m.contains_key("general.alignment"@) && !(m["general.alignment"@].to_u64() matches Some(a)
            && grammar::is_pow2(a as nat)) ==> grammar::alignment_of(m) == 32,
{
    reveal_with_fuel(grammar::is_pow2, 7);
    lemma_pow2_positive(grammar::alignment_of(m) as nat);
}

/// A number is a power of two exactly where it is one or twice a power of two.
pub proof fn law_powers_of_two(n: nat)
    ensures
        grammar::is_pow2(1),
        !grammar::is_pow2(0),
        grammar::is_pow2(2 * n) <==> grammar::is_pow2(n),
        grammar::is_pow2(2 * n + 1) <==> n == 0,
{
}

/// A number or value of the architecture is what stands under the architecture's name, a dot and the
/// rest of the key; without the architecture there is none.
pub proof fn law_architecture(m: Map<Seq<char>, Val>, a: Seq<char>, key: Seq<char>)
    ensures
        m.contains_key("general.architecture"@) && m["general.architecture"@] == Val::Str(a) ==> {
            &&& model::arch_of(m) == Some(a)
            &&& m.contains_key(a + "."@ + key) ==> model::arch_value(m, key) == Some(
                m[a + "."@ + key],
            )
            &&& m.contains_key(a + "."@ + key) ==> model::arch_number(m, key) == m[a + "."@
                + key].to_u64()
            &&& !m.contains_key(a + "."@ + key) ==> model::arch_value(m, key) is None
                && model::arch_number(m, key) is None
        },
        !m.contains_key("general.architecture"@) ==> model::arch_of(m) is None && model::arch_value(
            m,
            key,
        ) is None && model::arch_number(m, key) is None,
        m.contains_key("general.architecture"@) && !(m["general.architecture"@] is Str)
            ==> model::arch_of(m) is None && model::arch_value(m, key) is None,
{
}

/// Moving a table moves every offset by the same amount and changes nothing else.
pub proof fn law_table_moved(ts: Seq<TensorView>, by: int, i: int)
    requires
        0 <= i < ts.len(),
        0 <= ts[i].offset + by <= u64::MAX,
    ensures
        model::shifted(ts, by).len() == ts.len(),
        model::shifted(ts, by)[i].offset == ts[i].offset + by,
        model::shifted(ts, by)[i].name == ts[i].name,
        model::shifted(ts, by)[i].dims == ts[i].dims,
        model::shifted(ts, by)[i].ty == ts[i].ty,
{
}

proof fn lemma_five(n: nat)
    requires
        n <= 99999,
    ensures
        text::digits(n, 5).len() == 5,
        text::all_digits(text::digits(n, 5)),
        text::digits_value(text::digits(n, 5)) == n,
{
    reveal_with_fuel(text::digits, 6);
    reveal_with_fuel(text::digits_value, 6);
    let a = n / 10;
    let b = a / 10;
    let c = b / 10;
    let d = c / 10;
    let s = text::digits(n, 5);
    assert(d / 10 == 0);
    assert(s[0] as u32 == 48 + d % 10 && s[1] as u32 == 48 + c % 10 && s[2] as u32 == 48 + b % 10
        && s[3] as u32 == 48 + a % 10 && s[4] as u32 == 48 + n % 10);
    assert(s.drop_last() =~= text::digits(a, 4));
    assert(text::digits(a, 4).drop_last() =~= text::digits(b, 3));
    assert(text::digits(b, 3).drop_last() =~= text::digits(c, 2));
    assert(text::digits(c, 2).drop_last() =~= text::digits(d, 1));
    assert(text::digits(d, 1).drop_last() =~= Seq::<char>::empty());
}

/// The first of several parts is known by its name, and the name gives the prefix and the number of
/// parts back.
pub proof fn law_first_part_named(prefix: Seq<char>, count: nat)
    requires
        2 <= count <= 99999,
    ensures
        shards::first_part(shards::part_name(prefix, 1, count)) == Some((prefix, count as u32)),
        shards::part_name(prefix, 1, count) == prefix + "-00001-of-"@ + text::digits(count, 5)
            + ".gguf"@,
{
    reveal_strlit("-");
    reveal_strlit("-of-");
    reveal_strlit("-00001-of-");
    reveal_strlit(".gguf");
    lemma_five(count);
    lemma_five(1);
    let one = text::digits(1, 5);
    assert(one =~= seq!['0', '0', '0', '0', '1']) by {
        reveal_with_fuel(text::digits, 6);
    }
    let d = text::digits(count, 5);
    let s = shards::part_name(prefix, 1, count);
    let n = s.len() as int;
    assert("-"@ + one + "-of-"@ =~= "-00001-of-"@);
    assert(s =~= prefix + "-00001-of-"@ + d + ".gguf"@);
    assert(s.subrange(n - 5, n) =~= ".gguf"@);
    assert(s.subrange(n - 10, n - 5) =~= d);
    assert(s.subrange(n - 20, n - 10) =~= "-00001-of-"@);
    assert(s.take(n - 20) =~= prefix);
}

/// Parts of one file differ in their numbers alone, and every part has its own name.
pub proof fn law_parts_named(prefix: Seq<char>, i: nat, j: nat, count: nat)
    requires
        i <= 99999,
        j <= 99999,
        i != j,
        count <= 99999,
    ensures
        shards::part_name(prefix, i, count) == prefix + "-"@ + text::digits(i, 5) + "-of-"@
            + text::digits(count, 5) + ".gguf"@,
        shards::part_name(prefix, i, count) != shards::part_name(prefix, j, count),
{
    lemma_five(i);
    lemma_five(j);
    let a = shards::part_name(prefix, i, count);
    let b = shards::part_name(prefix, j, count);
    let k = (prefix + "-"@).len() as int;
    assert(a.subrange(k, k + 5) =~= text::digits(i, 5));
    assert(b.subrange(k, k + 5) =~= text::digits(j, 5));
}

/// A header is filled up by an entry of blanks under a key of its own.
pub proof fn law_padding(n: nat, i: int)
    requires
        0 <= i < n,
    ensures
        writer::pad_entry(n).0 == "pulsar.pad"@,
        writer::pad_entry(n).1 == Val::Str(writer::spaces(n)),
        writer::spaces(n).len() == n,
        writer::spaces(n)[i] == ' ',
{
}

/// Arrays nest three deep at most and hold at most 2^26 elements, and a tensor has at most eight
/// axes; what goes beyond is refused by its kind or by its count.
pub proof fn law_limits(buf: Seq<u8>, at: usize, depth: nat, after: usize, name: Seq<char>)
    requires
        buf.len() <= usize::MAX,
    ensures
        depth >= 3 ==> grammar::value(buf, at, 9, depth) == Err::<(Val, usize), Fault>(
            Fault::BadValueType(9),
        ),
        depth <= 2 && at + 12 <= buf.len() && bytes::le_nat(
            buf.subrange(at as int + 4, at as int + 12),
        ) > 0x400_0000 ==> (grammar::value(buf, at, 9, depth) matches Err(e) && e is TooMany),
        grammar::string(buf, at) == Ok::<(Seq<char>, usize), Fault>((name, after)) && after + 4
            <= buf.len() && bytes::le_nat(buf.subrange(after as int, after as int + 4)) > 8 ==> (
        grammar::tensor(buf, at) matches Err(e) && e is TooMany),
{
}

/// A kind that is none is refused by its number; so is what ends before its value does.
pub proof fn law_unknown_kinds(buf: Seq<u8>, at: usize, ty: u32, depth: nat)
    ensures
        ty > 12 ==> grammar::value(buf, at, ty, depth) == Err::<(Val, usize), Fault>(
            Fault::BadValueType(ty),
        ),
        ty <= 12 && ty != 9 && at >= buf.len() && buf.len() < usize::MAX - 8 && at < usize::MAX - 8
            ==> (grammar::value(buf, at, ty, depth) matches Err(e) && e is Truncated),
{
}

/// A scalar is read from the bytes of its kind's width at its place, and reading goes on behind them.
pub proof fn law_scalar_read(buf: Seq<u8>, at: usize, ty: u32, depth: nat)
    requires
        buf.len() <= usize::MAX,
        ty <= 7 || 10 <= ty <= 12,
        at + grammar::scalar_width(ty) <= buf.len(),
    ensures
        grammar::value(buf, at, ty, depth) == Ok::<(Val, usize), Fault>(
            (
                grammar::number_val(
                    ty,
                    bytes::le_nat(buf.subrange(at as int, at + grammar::scalar_width(ty))),
                ),
                (at + grammar::scalar_width(ty)) as usize,
            ),
        ),
{
}

/// Types are shown by their names, and those that are not modeled by their numbers.
pub proof fn law_type_names(id: u32)
    ensures
        tensor::type_text(TensorType::F32) == "F32"@,
        tensor::type_text(TensorType::F16) == "F16"@,
        tensor::type_text(TensorType::BF16) == "BF16"@,
        tensor::type_text(TensorType::I32) == "I32"@,
        tensor::type_text(TensorType::Q4_0) == "Q4_0"@,
        tensor::type_text(TensorType::Q5_1) == "Q5_1"@,
        tensor::type_text(TensorType::Q8_0) == "Q8_0"@,
        tensor::type_text(TensorType::Q2K) == "Q2K"@,
        tensor::type_text(TensorType::Q3K) == "Q3K"@,
        tensor::type_text(TensorType::Q4K) == "Q4K"@,
        tensor::type_text(TensorType::Q5K) == "Q5K"@,
        tensor::type_text(TensorType::Q6K) == "Q6K"@,
        tensor::type_text(TensorType::Q8K) == "Q8K"@,
        tensor::type_text(TensorType::IQ2XXS) == "IQ2XXS"@,
        tensor::type_text(TensorType::IQ2XS) == "IQ2XS"@,
        tensor::type_text(TensorType::IQ2S) == "IQ2S"@,
        tensor::type_text(TensorType::IQ3XXS) == "IQ3XXS"@,
        tensor::type_text(TensorType::IQ3S) == "IQ3S"@,
        tensor::type_text(TensorType::IQ4XS) == "IQ4XS"@,
        tensor::type_text(TensorType::IQ4NL) == "IQ4NL"@,
        tensor::type_text(TensorType::Other(id)) == "Other("@ + text::decimal(id as nat) + ")"@,
{
}

/// What is shown of a header that is refused names the number that was wrong.
pub proof fn law_fault_texts(n: u32, at: usize, need: usize, have: usize, what: Seq<char>, c: u64)
    ensures
        error::fault_text(Fault::BadMagic(n)) == "not a GGUF file (magic 0x"@ + text::hex_digits(
            n as nat,
            8,
        ) + ")"@,
        error::fault_text(Fault::UnsupportedVersion(n)) == "unsupported GGUF version "@
            + text::decimal(n as nat),
        error::fault_text(Fault::Truncated { at, need, have }) == "truncated at byte "@
            + text::decimal(at as nat) + ": need "@ + text::decimal(need as nat) + ", have "@
            + text::decimal(have as nat),
        error::fault_text(Fault::BadUtf8 { at }) == "invalid utf-8 in string at byte "@
            + text::decimal(at as nat),
        error::fault_text(Fault::BadValueType(n)) == "unknown metadata value type "@
            + text::decimal(n as nat),
        error::fault_text(Fault::TooMany { what, count: c }) == "implausible "@ + what + " count "@
            + text::decimal(c as nat),
{
}

} // verus!
