//! The GGUF header as a function of its bytes.
use vstd::prelude::*;
use vstd::utf8::*;

use super::error::Fault;
use super::tensor;
use super::tensor::TensorType;
use super::value::Val;
use crate::bytes;

verus! {

/// "GGUF" read as a little-endian number.
pub const GGUF_MAGIC: u32 = 0x4655_4747;

/// Alignment of the data section where the metadata names none.
pub const DEFAULT_ALIGNMENT: u64 = 32;

/// Most tensors, and most metadata entries, of a plausible header.
pub const MAX_ENTRIES: u64 = 0x10_0000;

/// Most elements of a plausible metadata array.
pub const MAX_ARRAY: u64 = 0x400_0000;

/// The `n` bytes at `at`, or the fault of a header that ends before them.
pub open spec fn take(buf: Seq<u8>, at: usize, n: usize) -> Result<Seq<u8>, Fault> {
    if at + n > usize::MAX {
        Err(Fault::Truncated { at, need: n, have: 0 })
    } else if at + n > buf.len() {
        Err(Fault::Truncated { at, need: n, have: (buf.len() - at) as usize })
    } else {
        Ok(buf.subrange(at as int, at + n))
    }
}

/// The little-endian number in the `n` bytes at `at`, with the position behind it.
pub open spec fn number(buf: Seq<u8>, at: usize, n: usize) -> Result<(nat, usize), Fault> {
    match take(buf, at, n) {
        Err(e) => Err(e),
        Ok(s) => Ok((bytes::le_nat(s), (at + n) as usize)),
    }
}

/// A string: its byte count as eight bytes, then UTF-8.
pub open spec fn string(buf: Seq<u8>, at: usize) -> Result<(Seq<char>, usize), Fault> {
    match number(buf, at, 8) {
        Err(e) => Err(e),
        Ok((len, at)) => {
            let len = len as u64 as usize;
            match take(buf, at, len) {
                Err(e) => Err(e),
                Ok(s) => if valid_utf8(s) {
                    Ok((decode_utf8(s), (at + len) as usize))
                } else {
                    Err(Fault::BadUtf8 { at })
                },
            }
        },
    }
}

/// How much deeper arrays may nest, for a bound on the reading of values.
pub open spec fn depth_left(depth: nat) -> nat {
    if depth <= 3 {
        (2 * (4 - depth)) as nat
    } else {
        0
    }
}

/// A value of kind `ty`. Arrays nest at most three deep.
pub open spec fn value(buf: Seq<u8>, at: usize, ty: u32, depth: nat) -> Result<(Val, usize), Fault>
    decreases depth_left(depth), 0nat,
{
    if ty == 9 {
        if depth > 2 {
            Err(Fault::BadValueType(ty))
        } else {
            match number(buf, at, 4) {
                Err(e) => Err(e),
                Ok((elem_ty, at)) => match number(buf, at, 8) {
                    Err(e) => Err(e),
                    Ok((count, at)) => if count > MAX_ARRAY {
                        Err(Fault::TooMany { what: "array element"@, count: count as u64 })
                    } else {
                        match elements(buf, at, elem_ty as u32, depth + 1, count, Seq::empty()) {
                            Err(e) => Err(e),
                            Ok((a, at)) => Ok((Val::Array(a), at)),
                        }
                    },
                },
            }
        }
    } else {
        scalar(buf, at, ty)
    }
}

/// A value that is no array.
pub open spec fn scalar(buf: Seq<u8>, at: usize, ty: u32) -> Result<(Val, usize), Fault> {
    if ty == 8 {
        match string(buf, at) {
            Err(e) => Err(e),
            Ok((s, at)) => Ok((Val::Str(s), at)),
        }
    } else if scalar_width(ty) == 0 {
        Err(Fault::BadValueType(ty))
    } else {
        match number(buf, at, scalar_width(ty)) {
            Err(e) => Err(e),
            Ok((n, at)) => Ok((number_val(ty, n), at)),
        }
    }
}

/// Bytes of a fixed-width value kind; 0 for any other kind.
pub open spec fn scalar_width(ty: u32) -> usize {
    if ty == 0 || ty == 1 || ty == 7 {
        1
    } else if ty == 2 || ty == 3 {
        2
    } else if ty == 4 || ty == 5 || ty == 6 {
        4
    } else if ty == 10 || ty == 11 || ty == 12 {
        8
    } else {
        0
    }
}

/// The value of kind `ty` whose bytes read as the number `n`.
pub open spec fn number_val(ty: u32, n: nat) -> Val {
    if ty == 0 {
        Val::U8(n as u8)
    } else if ty == 1 {
        Val::I8(n as u8 as i8)
    } else if ty == 2 {
        Val::U16(n as u16)
    } else if ty == 3 {
        Val::I16(n as u16 as i16)
    } else if ty == 4 {
        Val::U32(n as u32)
    } else if ty == 5 {
        Val::I32(n as u32 as i32)
    } else if ty == 6 {
        Val::F32(n as u32)
    } else if ty == 7 {
        Val::Bool(n != 0)
    } else if ty == 10 {
        Val::U64(n as u64)
    } else if ty == 11 {
        Val::I64(n as u64 as i64)
    } else {
        Val::F64(n as u64)
    }
}

/// `n` values of kind `ty`, behind those in `acc`.
pub open spec fn elements(
    buf: Seq<u8>,
    at: usize,
    ty: u32,
    depth: nat,
    n: nat,
    acc: Seq<Val>,
) -> Result<(Seq<Val>, usize), Fault>
    decreases depth_left(depth) + 1, n,
{
    if n == 0 {
        Ok((acc, at))
    } else {
        match value(buf, at, ty, depth) {
            Err(e) => Err(e),
            Ok((v, at)) => elements(buf, at, ty, depth, (n - 1) as nat, acc.push(v)),
        }
    }
}

/// `n` metadata entries (key, kind, value), entered into `acc` in turn.
pub open spec fn entries(
    buf: Seq<u8>,
    at: usize,
    n: nat,
    acc: Map<Seq<char>, Val>,
) -> Result<(Map<Seq<char>, Val>, usize), Fault>
    decreases n,
{
    if n == 0 {
        Ok((acc, at))
    } else {
        match string(buf, at) {
            Err(e) => Err(e),
            Ok((key, at)) => match number(buf, at, 4) {
                Err(e) => Err(e),
                Ok((ty, at)) => match value(buf, at, ty as u32, 0) {
                    Err(e) => Err(e),
                    Ok((v, at)) => entries(buf, at, (n - 1) as nat, acc.insert(key, v)),
                },
            },
        }
    }
}

/// What an entry of the tensor table says.
pub struct TensorView {
    pub name: Seq<char>,
    pub dims: Seq<u64>,
    pub ty: TensorType,
    pub offset: u64,
}

/// `n` extents, behind those in `acc`.
pub open spec fn extents(buf: Seq<u8>, at: usize, n: nat, acc: Seq<u64>) -> Result<
    (Seq<u64>, usize),
    Fault,
>
    decreases n,
{
    if n == 0 {
        Ok((acc, at))
    } else {
        match number(buf, at, 8) {
            Err(e) => Err(e),
            Ok((d, at)) => extents(buf, at, (n - 1) as nat, acc.push(d as u64)),
        }
    }
}

/// One entry of the tensor table: name, axis count, extents, type id, offset.
pub open spec fn tensor(buf: Seq<u8>, at: usize) -> Result<(TensorView, usize), Fault> {
    match string(buf, at) {
        Err(e) => Err(e),
        Ok((name, at)) => match number(buf, at, 4) {
            Err(e) => Err(e),
            Ok((n_dims, at)) => if n_dims > 8 {
                Err(Fault::TooMany { what: "tensor dim"@, count: n_dims as u64 })
            } else {
                match extents(buf, at, n_dims, Seq::empty()) {
                    Err(e) => Err(e),
                    Ok((dims, at)) => match number(buf, at, 4) {
                        Err(e) => Err(e),
                        Ok((id, at)) => match number(buf, at, 8) {
                            Err(e) => Err(e),
                            Ok((offset, at)) => Ok(
                                (
                                    TensorView {
                                        name,
                                        dims,
                                        ty: tensor::type_of_id(id as u32),
                                        offset: offset as u64,
                                    },
                                    at,
                                ),
                            ),
                        },
                    },
                }
            },
        },
    }
}

/// `n` entries of the tensor table, behind those in `acc`.
pub open spec fn tensors(buf: Seq<u8>, at: usize, n: nat, acc: Seq<TensorView>) -> Result<
    (Seq<TensorView>, usize),
    Fault,
>
    decreases n,
{
    if n == 0 {
        Ok((acc, at))
    } else {
        match tensor(buf, at) {
            Err(e) => Err(e),
            Ok((t, at)) => tensors(buf, at, (n - 1) as nat, acc.push(t)),
        }
    }
}

/// What a header says.
pub struct Header {
    pub version: u32,
    pub metadata: Map<Seq<char>, Val>,
    pub tensors: Seq<TensorView>,
    pub alignment: u64,
    pub data_offset: nat,
}

/// `n` is a power of two.
pub open spec fn is_pow2(n: nat) -> bool
    decreases n,
{
    n == 1 || (n > 1 && n % 2 == 0 && is_pow2(n / 2))
}

/// The data alignment that the metadata asks for: a power of two under `general.alignment`, else
/// the default.
pub open spec fn alignment_of(m: Map<Seq<char>, Val>) -> u64 {
    if m.contains_key("general.alignment"@) {
        match m["general.alignment"@].to_u64() {
            Some(a) => if is_pow2(a as nat) {
                a
            } else {
                DEFAULT_ALIGNMENT
            },
            None => DEFAULT_ALIGNMENT,
        }
    } else {
        DEFAULT_ALIGNMENT
    }
}

/// The least multiple of `a` that is not below `n`.
pub open spec fn round_up(n: nat, a: nat) -> nat {
    tensor::ceil_div(n, a) * a
}

/// The header at the start of `buf`.
pub open spec fn header(buf: Seq<u8>) -> Result<Header, Fault> {
    match number(buf, 0, 4) {
        Err(e) => Err(e),
        Ok((magic, at)) => if magic != GGUF_MAGIC {
            Err(Fault::BadMagic(magic as u32))
        } else {
            match number(buf, at, 4) {
                Err(e) => Err(e),
                Ok((version, at)) => if version != 2 && version != 3 {
                    Err(Fault::UnsupportedVersion(version as u32))
                } else {
                    counts(buf, at, version as u32)
                },
            }
        },
    }
}

/// The header behind its version: the two counts and what they announce.
pub open spec fn counts(buf: Seq<u8>, at: usize, version: u32) -> Result<Header, Fault> {
    match number(buf, at, 8) {
        Err(e) => Err(e),
        Ok((n_tensors, at)) => if n_tensors > MAX_ENTRIES {
            Err(Fault::TooMany { what: "tensor"@, count: n_tensors as u64 })
        } else {
            match number(buf, at, 8) {
                Err(e) => Err(e),
                Ok((n_kv, at)) => if n_kv > MAX_ENTRIES {
                    Err(Fault::TooMany { what: "metadata kv"@, count: n_kv as u64 })
                } else {
                    body(buf, at, version, n_tensors, n_kv)
                },
            }
        },
    }
}

/// The metadata and the tensor table.
pub open spec fn body(buf: Seq<u8>, at: usize, version: u32, n_tensors: nat, n_kv: nat) -> Result<
    Header,
    Fault,
> {
    match entries(buf, at, n_kv, Map::empty()) {
        Err(e) => Err(e),
        Ok((metadata, at)) => match tensors(buf, at, n_tensors, Seq::empty()) {
            Err(e) => Err(e),
            Ok((tensors, at)) => {
                let alignment = alignment_of(metadata);
                Ok(
                    Header {
                        version,
                        metadata,
                        tensors,
                        alignment,
                        data_offset: round_up(at as nat, alignment as nat),
                    },
                )
            },
        },
    }
}

} // verus!
