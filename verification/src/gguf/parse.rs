//! Reader of the GGUF header.
use vstd::prelude::*;
use vstd::slice::slice_subrange;
use vstd::slice::slice_to_vec;
use vstd::utf8::*;

use super::error::{Error, Fault};
use super::grammar;
use super::grammar::{Header, TensorView, DEFAULT_ALIGNMENT, GGUF_MAGIC, MAX_ARRAY, MAX_ENTRIES};
use super::tensor::{TensorInfo, TensorType};
use super::value;
use super::value::{Metadata, Val, Value};
use crate::bytes::read_le;
use crate::text::string_from_utf8;

verus! {

/// A parsed GGUF header.
#[derive(Debug)]
pub struct Gguf {
    pub version: u32,
    pub metadata: Metadata,
    /// Tensor table in file order.
    pub tensors: Vec<TensorInfo>,
    pub alignment: u64,
    /// Absolute file offset where the tensor data section begins.
    pub data_offset: u64,
}

/// What an entry of a tensor table says.
pub open spec fn info_view(t: TensorInfo) -> TensorView {
    TensorView { name: t.name@, dims: t.dims@, ty: t.ty, offset: t.offset }
}

/// What a tensor table says.
pub open spec fn table_view(s: Seq<TensorInfo>) -> Seq<TensorView> {
    s.map_values(|t: TensorInfo| info_view(t))
}

impl View for Gguf {
    type V = Header;

    open spec fn view(&self) -> Header {
        Header {
            version: self.version,
            metadata: self.metadata@,
            tensors: table_view(self.tensors@),
            alignment: self.alignment,
            data_offset: self.data_offset as nat,
        }
    }
}

/// An array of the elements read, or the fault met.
spec fn array_of(r: Result<(Seq<Val>, usize), Fault>) -> Result<(Val, usize), Fault> {
    match r {
        Err(e) => Err(e),
        Ok((a, at)) => Ok((Val::Array(a), at)),
    }
}

/// A position in a header.
pub struct Cursor<'a> {
    pub buf: &'a [u8],
    pub at: usize,
}

impl<'a> Cursor<'a> {
    /// The position lies within the bytes.
    pub open spec fn wf(self) -> bool {
        self.at <= self.buf@.len()
    }

    /// Moved from `old` to where a read of `old.buf` ended.
    pub open spec fn moved(self, old: Self) -> bool {
        self.buf == old.buf && self.wf()
    }

    pub fn take(&mut self, n: usize) -> (r: Result<&'a [u8], Error>)
        requires
            old(self).wf(),
        ensures
            final(self).moved(*old(self)),
            match r {
                Ok(s) => grammar::take(old(self).buf@, old(self).at, n) == Ok::<_, Fault>(s@)
                    && final(self).at == old(self).at + n && s@.len() == n,
                Err(e) => grammar::take(old(self).buf@, old(self).at, n) == Err::<Seq<u8>, _>(e@)
                    && final(self).at == old(self).at,
            },
    {
        let end: usize = match self.at.checked_add(n) {
            Some(end) => end,
            None => {
                return Err(Error::Truncated { at: self.at, need: n, have: 0 });
            },
        };
        if end > self.buf.len() {
            return Err(
                Error::Truncated { at: self.at, need: n, have: self.buf.len() - self.at },
            );
        }
        let s = slice_subrange(self.buf, self.at, end);
        self.at = end;
        Ok(s)
    }

    /// An unsigned little-endian number of `n` bytes.
    fn number(&mut self, n: usize) -> (r: Result<u64, Error>)
        requires
            old(self).wf(),
            n <= 8,
        ensures
            final(self).moved(*old(self)),
            match r {
                Ok(x) => grammar::number(old(self).buf@, old(self).at, n) == Ok::<_, Fault>(
                    (x as nat, final(self).at),
                ) && x < crate::bytes::pow256(n as nat),
                Err(e) => grammar::number(old(self).buf@, old(self).at, n) == Err::<
                    (nat, usize),
                    _,
                >(e@),
            },
    {
        match self.take(n) {
            Ok(s) => Ok(read_le(s)),
            Err(e) => Err(e),
        }
    }

    pub fn u32(&mut self) -> (r: Result<u32, Error>)
        requires
            old(self).wf(),
        ensures
            final(self).moved(*old(self)),
            match r {
                Ok(x) => grammar::number(old(self).buf@, old(self).at, 4) == Ok::<_, Fault>(
                    (x as nat, final(self).at),
                ),
                Err(e) => grammar::number(old(self).buf@, old(self).at, 4) == Err::<
                    (nat, usize),
                    _,
                >(e@),
            },
    {
        match self.number(4) {
            Ok(x) => {
                proof {
                    crate::bytes::lemma_pow256();
                }
                Ok(x as u32)
            },
            Err(e) => Err(e),
        }
    }

    pub fn u64(&mut self) -> (r: Result<u64, Error>)
        requires
            old(self).wf(),
        ensures
            final(self).moved(*old(self)),
            match r {
                Ok(x) => grammar::number(old(self).buf@, old(self).at, 8) == Ok::<_, Fault>(
                    (x as nat, final(self).at),
                ),
                Err(e) => grammar::number(old(self).buf@, old(self).at, 8) == Err::<
                    (nat, usize),
                    _,
                >(e@),
            },
    {
        self.number(8)
    }

    pub fn string(&mut self) -> (r: Result<String, Error>)
        requires
            old(self).wf(),
        ensures
            final(self).moved(*old(self)),
            match r {
                Ok(s) => grammar::string(old(self).buf@, old(self).at) == Ok::<_, Fault>(
                    (s@, final(self).at),
                ),
                Err(e) => grammar::string(old(self).buf@, old(self).at) == Err::<
                    (Seq<char>, usize),
                    _,
                >(e@),
            },
    {
        let len: usize = match self.u64() {
            Ok(n) => n as usize,
            Err(e) => {
                return Err(e);
            },
        };
        let at: usize = self.at;
        let bytes = match self.take(len) {
            Ok(s) => s,
            Err(e) => {
                return Err(e);
            },
        };
        match string_from_utf8(slice_to_vec(bytes)) {
            Some(s) => {
                proof {
                    encode_utf8_decode_utf8(s@);
                }
                Ok(s)
            },
            None => Err(Error::BadUtf8 { at }),
        }
    }

    pub fn value(&mut self, ty: u32, depth: u8) -> (r: Result<Value, Error>)
        requires
            old(self).wf(),
        ensures
            final(self).moved(*old(self)),
            (ty == 9 && depth > 2) || ty > 12 ==> r is Err && final(self).at == old(self).at,
            match r {
                Ok(v) => grammar::value(old(self).buf@, old(self).at, ty, depth as nat) == Ok::<
                    _,
                    Fault,
                >((v@, final(self).at)),
                Err(e) => grammar::value(old(self).buf@, old(self).at, ty, depth as nat) == Err::<
                    (Val, usize),
                    _,
                >(e@),
            },
        decreases grammar::depth_left(depth as nat) + 1,
    {
        if ty == 9 {
            if depth > 2 {
                return Err(Error::BadValueType(ty));
            }
            return self.array(depth);
        }
        self.scalar(ty)
    }

    /// A value that is no array.
    fn scalar(&mut self, ty: u32) -> (r: Result<Value, Error>)
        requires
            old(self).wf(),
        ensures
            final(self).moved(*old(self)),
            ty > 12 ==> final(self).at == old(self).at,
            match r {
                Ok(v) => grammar::scalar(old(self).buf@, old(self).at, ty) == Ok::<_, Fault>(
                    (v@, final(self).at),
                ),
                Err(e) => grammar::scalar(old(self).buf@, old(self).at, ty) == Err::<
                    (Val, usize),
                    _,
                >(e@),
            },
    {
        proof {
            crate::bytes::lemma_pow256();
        }
        if ty == 8 {
            return match self.string() {
                Ok(s) => Ok(Value::String(s)),
                Err(e) => Err(e),
            };
        }
        let width: usize = match ty {
            0 | 1 | 7 => 1,
            2 | 3 => 2,
            4 | 5 | 6 => 4,
            10 | 11 | 12 => 8,
            _ => {
                return Err(Error::BadValueType(ty));
            },
        };
        let n: u64 = match self.number(width) {
            Ok(n) => n,
            Err(e) => {
                return Err(e);
            },
        };
        Ok(
            match ty {
                0 => Value::U8(n as u8),
                1 => Value::I8(n as u8 as i8),
                2 => Value::U16(n as u16),
                3 => Value::I16(n as u16 as i16),
                4 => Value::U32(n as u32),
                5 => Value::I32(n as u32 as i32),
                6 => Value::F32(n as u32),
                7 => Value::Bool(n != 0),
                10 => Value::U64(n),
                11 => Value::I64(n as i64),
                _ => Value::F64(n),
            },
        )
    }

    /// The array whose kind was just read at nesting `depth`.
    fn array(&mut self, depth: u8) -> (r: Result<Value, Error>)
        requires
            old(self).wf(),
            depth <= 2,
        ensures
            final(self).moved(*old(self)),
            match r {
                Ok(v) => grammar::value(old(self).buf@, old(self).at, 9, depth as nat) == Ok::<
                    _,
                    Fault,
                >((v@, final(self).at)),
                Err(e) => grammar::value(old(self).buf@, old(self).at, 9, depth as nat) == Err::<
                    (Val, usize),
                    _,
                >(e@),
            },
        decreases grammar::depth_left(depth as nat),
    {
        let elem_ty: u32 = match self.u32() {
            Ok(t) => t,
            Err(e) => {
                return Err(e);
            },
        };
        let count: u64 = match self.u64() {
            Ok(n) => n,
            Err(e) => {
                return Err(e);
            },
        };
        if count > MAX_ARRAY {
            return Err(Error::TooMany { what: "array element", count });
        }
        let mut v: Vec<Value> = Vec::new();
        let mut i: u64 = 0;
        while i < count
            invariant
                i <= count,
                depth <= 2,
                self.moved(*old(self)),
                grammar::value(old(self).buf@, old(self).at, 9, depth as nat) == array_of(
                    grammar::elements(
                        self.buf@,
                        self.at,
                        elem_ty,
                        (depth + 1) as nat,
                        (count - i) as nat,
                        value::vals(v@),
                    ),
                ),
            decreases count - i,
        {
            let x = match self.value(elem_ty, depth + 1) {
                Ok(x) => x,
                Err(e) => {
                    return Err(e);
                },
            };
            proof {
                assert(v@.push(x).drop_last() =~= v@);
            }
            v.push(x);
            i = i + 1;
        }
        Ok(Value::Array(v))
    }
}

/// Whether a number is a power of two.
pub fn power_of_two(n: u64) -> (r: bool)
    ensures
        r == grammar::is_pow2(n as nat),
{
    if n == 0 {
        return false;
    }
    let mut m: u64 = n;
    while m % 2 == 0
        invariant
            m > 0,
            grammar::is_pow2(m as nat) == grammar::is_pow2(n as nat),
        decreases m,
    {
        m = m / 2;
    }
    m == 1
}

/// The least multiple of `a` that is not below `n`.
pub fn round_up(n: u64, a: u64) -> (r: u64)
    requires
        a > 0,
        grammar::round_up(n as nat, a as nat) <= u64::MAX,
    ensures
        r as nat == grammar::round_up(n as nat, a as nat),
{
    let q: u64 = n / a;
    let rem: u64 = n % a;
    proof {
        super::tensor::lemma_ceil_div(n as nat, a as nat);
        vstd::arithmetic::div_mod::lemma_fundamental_div_mod(n as int, a as int);
        assert(a * q == q * a) by (nonlinear_arith);
        assert((q + 1) * a == q * a + a) by (nonlinear_arith);
    }
    if rem == 0 {
        n
    } else {
        n - rem + a
    }
}

/// The round-up of a position in a buffer to a 64-bit alignment fits 64 bits.
proof fn lemma_round_up_fits(n: nat, a: nat)
    requires
        0 < a <= u64::MAX,
        n <= 0x8000_0000_0000_0000,
    ensures
        grammar::round_up(n, a) <= u64::MAX,
{
    super::tensor::lemma_ceil_div(n, a);
    if a > n {
        assert(n / a == 0) by (nonlinear_arith)
            requires
                n < a,
        ;
        assert(grammar::round_up(n, a) <= 1 * a) by (nonlinear_arith)
            requires
                grammar::round_up(n, a) == super::tensor::ceil_div(n, a) * a,
                super::tensor::ceil_div(n, a) <= 1,
        ;
    }
}

impl Gguf {
    /// Parses header, metadata and tensor table from the head of a GGUF file. `head` does not
    /// need to contain tensor data; it must merely cover the header.
    pub fn parse(head: &[u8]) -> (r: Result<Self, Error>)
        requires
            head@.len() <= 0x8000_0000_0000_0000,
        ensures
            match r {
                Ok(g) => grammar::header(head@) == Ok::<_, Fault>(g@),
                Err(e) => grammar::header(head@) == Err::<Header, _>(e@),
            },
    {
        let mut c = Cursor { buf: head, at: 0 };
        let magic: u32 = match c.u32() {
            Ok(m) => m,
            Err(e) => {
                return Err(e);
            },
        };
        if magic != GGUF_MAGIC {
            return Err(Error::BadMagic(magic));
        }
        let version: u32 = match c.u32() {
            Ok(v) => v,
            Err(e) => {
                return Err(e);
            },
        };
        if version != 2 && version != 3 {
            return Err(Error::UnsupportedVersion(version));
        }
        let tensor_count: u64 = match c.u64() {
            Ok(n) => n,
            Err(e) => {
                return Err(e);
            },
        };
        if tensor_count > MAX_ENTRIES {
            return Err(Error::TooMany { what: "tensor", count: tensor_count });
        }
        let kv_count: u64 = match c.u64() {
            Ok(n) => n,
            Err(e) => {
                return Err(e);
            },
        };
        if kv_count > MAX_ENTRIES {
            return Err(Error::TooMany { what: "metadata kv", count: kv_count });
        }
        let metadata = match c.entries(kv_count) {
            Ok(m) => m,
            Err(e) => {
                return Err(e);
            },
        };
        let tensors = match c.tensors(tensor_count) {
            Ok(t) => t,
            Err(e) => {
                return Err(e);
            },
        };
        let asked: Option<u64> = match metadata.get("general.alignment") {
            Some(v) => v.as_u64(),
            None => None,
        };
        let alignment: u64 = match asked {
            Some(a) => if power_of_two(a) {
                a
            } else {
                DEFAULT_ALIGNMENT
            },
            None => DEFAULT_ALIGNMENT,
        };
        proof {
            lemma_round_up_fits(c.at as nat, alignment as nat);
        }
        let data_offset: u64 = round_up(c.at as u64, alignment);
        Ok(Gguf { version, metadata, tensors, alignment, data_offset })
    }
}

impl<'a> Cursor<'a> {
    /// The metadata entries.
    fn entries(&mut self, count: u64) -> (r: Result<Metadata, Error>)
        requires
            old(self).wf(),
        ensures
            final(self).moved(*old(self)),
            match r {
                Ok(m) => grammar::entries(
                    old(self).buf@,
                    old(self).at,
                    count as nat,
                    Map::empty(),
                ) == Ok::<_, Fault>((m@, final(self).at)),
                Err(e) => grammar::entries(
                    old(self).buf@,
                    old(self).at,
                    count as nat,
                    Map::empty(),
                ) == Err::<(Map<Seq<char>, Val>, usize), _>(e@),
            },
    {
        let mut metadata = Metadata::new();
        let mut i: u64 = 0;
        while i < count
            invariant
                i <= count,
                self.moved(*old(self)),
                grammar::entries(old(self).buf@, old(self).at, count as nat, Map::empty())
                    == grammar::entries(
                    self.buf@,
                    self.at,
                    (count - i) as nat,
                    metadata@,
                ),
            decreases count - i,
        {
            let key = match self.string() {
                Ok(s) => s,
                Err(e) => {
                    return Err(e);
                },
            };
            let ty: u32 = match self.u32() {
                Ok(t) => t,
                Err(e) => {
                    return Err(e);
                },
            };
            let value = match self.value(ty, 0) {
                Ok(v) => v,
                Err(e) => {
                    return Err(e);
                },
            };
            metadata.insert(key, value);
            i = i + 1;
        }
        Ok(metadata)
    }

    /// The extents of one tensor.
    fn extents(&mut self, count: u32) -> (r: Result<Vec<u64>, Error>)
        requires
            old(self).wf(),
        ensures
            final(self).moved(*old(self)),
            match r {
                Ok(d) => grammar::extents(
                    old(self).buf@,
                    old(self).at,
                    count as nat,
                    Seq::empty(),
                ) == Ok::<_, Fault>((d@, final(self).at)),
                Err(e) => grammar::extents(
                    old(self).buf@,
                    old(self).at,
                    count as nat,
                    Seq::empty(),
                ) == Err::<(Seq<u64>, usize), _>(e@),
            },
    {
        let mut dims: Vec<u64> = Vec::new();
        let mut i: u32 = 0;
        while i < count
            invariant
                i <= count,
                self.moved(*old(self)),
                grammar::extents(old(self).buf@, old(self).at, count as nat, Seq::empty())
                    == grammar::extents(self.buf@, self.at, (count - i) as nat, dims@),
            decreases count - i,
        {
            let d: u64 = match self.u64() {
                Ok(d) => d,
                Err(e) => {
                    return Err(e);
                },
            };
            dims.push(d);
            i = i + 1;
        }
        Ok(dims)
    }

    /// One entry of the tensor table.
    fn tensor(&mut self) -> (r: Result<TensorInfo, Error>)
        requires
            old(self).wf(),
        ensures
            final(self).moved(*old(self)),
            match r {
                Ok(t) => grammar::tensor(old(self).buf@, old(self).at) == Ok::<_, Fault>(
                    (info_view(t), final(self).at),
                ),
                Err(e) => grammar::tensor(old(self).buf@, old(self).at) == Err::<
                    (TensorView, usize),
                    _,
                >(e@),
            },
    {
        let name = match self.string() {
            Ok(s) => s,
            Err(e) => {
                return Err(e);
            },
        };
        let n_dims: u32 = match self.u32() {
            Ok(n) => n,
            Err(e) => {
                return Err(e);
            },
        };
        if n_dims > 8 {
            return Err(Error::TooMany { what: "tensor dim", count: n_dims as u64 });
        }
        let dims = match self.extents(n_dims) {
            Ok(d) => d,
            Err(e) => {
                return Err(e);
            },
        };
        let ty_id: u32 = match self.u32() {
            Ok(t) => t,
            Err(e) => {
                return Err(e);
            },
        };
        let offset: u64 = match self.u64() {
            Ok(o) => o,
            Err(e) => {
                return Err(e);
            },
        };
        Ok(TensorInfo { name, dims, ty: TensorType::from_id(ty_id), offset })
    }

    /// The tensor table.
    fn tensors(&mut self, count: u64) -> (r: Result<Vec<TensorInfo>, Error>)
        requires
            old(self).wf(),
        ensures
            final(self).moved(*old(self)),
            match r {
                Ok(t) => grammar::tensors(
                    old(self).buf@,
                    old(self).at,
                    count as nat,
                    Seq::empty(),
                ) == Ok::<_, Fault>((table_view(t@), final(self).at)),
                Err(e) => grammar::tensors(
                    old(self).buf@,
                    old(self).at,
                    count as nat,
                    Seq::empty(),
                ) == Err::<(Seq<TensorView>, usize), _>(e@),
            },
    {
        let mut tensors: Vec<TensorInfo> = Vec::new();
        let mut i: u64 = 0;
        assert(table_view(tensors@) =~= Seq::<TensorView>::empty());
        while i < count
            invariant
                i <= count,
                self.moved(*old(self)),
                grammar::tensors(old(self).buf@, old(self).at, count as nat, Seq::empty())
                    == grammar::tensors(
                    self.buf@,
                    self.at,
                    (count - i) as nat,
                    table_view(tensors@),
                ),
            decreases count - i,
        {
            let t = match self.tensor() {
                Ok(t) => t,
                Err(e) => {
                    return Err(e);
                },
            };
            assert(table_view(tensors@.push(t)) =~= table_view(tensors@).push(info_view(t)));
            tensors.push(t);
            i = i + 1;
        }
        Ok(tensors)
    }
}

} // verus!
