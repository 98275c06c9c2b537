//! The bytes that stand for a header, and that the reader gives back what they stand for.
use vstd::prelude::*;
use vstd::utf8::*;

use super::error::Fault;
use super::grammar;
use super::grammar::{TensorView, MAX_ARRAY};
use super::tensor;
use super::value::Val;
use crate::bytes;

verus! {

/// A string as its byte count and its UTF-8 bytes.
pub open spec fn enc_string(s: Seq<char>) -> Seq<u8> {
    bytes::le_bytes(encode_utf8(s).len(), 8) + encode_utf8(s)
}

/// The kind number of a value.
pub open spec fn kind(v: Val) -> u32 {
    match v {
        Val::U8(_) => 0,
        Val::I8(_) => 1,
        Val::U16(_) => 2,
        Val::I16(_) => 3,
        Val::U32(_) => 4,
        Val::I32(_) => 5,
        Val::F32(_) => 6,
        Val::Bool(_) => 7,
        Val::Str(_) => 8,
        Val::Array(_) => 9,
        Val::U64(_) => 10,
        Val::I64(_) => 11,
        Val::F64(_) => 12,
    }
}

/// The kind of an array's elements: that of the first, and `U32` for an empty array.
pub open spec fn elem_kind(a: Seq<Val>) -> u32 {
    if a.len() == 0 {
        4
    } else {
        kind(a[0])
    }
}

/// The bytes of a value, without its kind.
pub open spec fn enc_val(v: Val) -> Seq<u8>
    decreases v,
{
    match v {
        Val::U8(x) => bytes::le_bytes(x as nat, 1),
        Val::I8(x) => bytes::le_bytes(x as u8 as nat, 1),
        Val::U16(x) => bytes::le_bytes(x as nat, 2),
        Val::I16(x) => bytes::le_bytes(x as u16 as nat, 2),
        Val::U32(x) => bytes::le_bytes(x as nat, 4),
        Val::I32(x) => bytes::le_bytes(x as u32 as nat, 4),
        Val::F32(x) => bytes::le_bytes(x as nat, 4),
        Val::Bool(x) => bytes::le_bytes(if x { 1 } else { 0 }, 1),
        Val::Str(s) => enc_string(s),
        Val::U64(x) => bytes::le_bytes(x as nat, 8),
        Val::I64(x) => bytes::le_bytes(x as u64 as nat, 8),
        Val::F64(x) => bytes::le_bytes(x as nat, 8),
        Val::Array(a) => bytes::le_bytes(elem_kind(a) as nat, 4) + bytes::le_bytes(a.len(), 8) + enc_vals(a),
    }
}

/// The bytes of a run of values.
pub open spec fn enc_vals(a: Seq<Val>) -> Seq<u8>
    decreases a,
{
    if a.len() == 0 {
        Seq::empty()
    } else {
        enc_vals(a.drop_last()) + enc_val(a.last())
    }
}

/// All elements are of the kind that the array announces.
pub open spec fn same_kind(a: Seq<Val>) -> bool {
    forall|i: int| 0 <= i < a.len() ==> kind(#[trigger] a[i]) == elem_kind(a)
}

/// Every array within the value holds elements of one kind.
pub open spec fn uniform(v: Val) -> bool
    decreases v,
{
    match v {
        Val::Array(a) => same_kind(a) && uniform_all(a),
        _ => true,
    }
}

/// `uniform`, for each of a run of values.
pub open spec fn uniform_all(a: Seq<Val>) -> bool
    decreases a,
{
    a.len() == 0 || (uniform_all(a.drop_last()) && uniform(a.last()))
}

/// A value that a header can hold at nesting `depth`: its arrays are of one kind each, not too
/// long and not too deep.
pub open spec fn storable(v: Val, depth: nat) -> bool
    decreases 4 - depth,
    when depth <= 4
{
    match v {
        Val::Array(a) => depth <= 2 && a.len() <= MAX_ARRAY && same_kind(a) && forall|i: int|
            0 <= i < a.len() ==> storable(#[trigger] a[i], depth + 1),
        _ => true,
    }
}

/// `part` stands in `buf` at `at`.
pub open spec fn stands(buf: Seq<u8>, at: int, part: Seq<u8>) -> bool {
    0 <= at && at + part.len() <= buf.len() <= usize::MAX && buf.subrange(
        at,
        at + part.len(),
    ) == part
}

/// A run that stands at a place does so part by part.
pub proof fn lemma_stands_split(buf: Seq<u8>, at: int, a: Seq<u8>, b: Seq<u8>)
    requires
        stands(buf, at, a + b),
    ensures
        stands(buf, at, a),
        stands(buf, at + a.len(), b),
{
    let w = buf.subrange(at, at + a.len() + b.len());
    assert(w == a + b);
    assert(buf.subrange(at, at + a.len()) =~= w.subrange(0, a.len() as int));
    assert(buf.subrange(at, at + a.len()) =~= a);
    assert(buf.subrange(at + a.len(), at + a.len() + b.len()) =~= w.subrange(
        a.len() as int,
        a.len() as int + b.len(),
    ));
    assert(buf.subrange(at + a.len(), at + a.len() + b.len()) =~= b);
}

/// Reading a number gives back what was written.
pub proof fn lemma_number(buf: Seq<u8>, at: usize, n: nat, k: usize)
    requires
        k == 1 || k == 2 || k == 4 || k == 8,
        n < crate::bytes::pow256(k as nat),
        stands(buf, at as int, bytes::le_bytes(n, k as nat)),
    ensures
        bytes::le_bytes(n, k as nat).len() == k,
        grammar::number(buf, at, k) == Ok::<_, Fault>((n, (at + k) as usize)),
{
    bytes::lemma_le_roundtrip(n, k as nat);
}

/// Reading a string gives back what was written.
pub proof fn lemma_string(buf: Seq<u8>, at: usize, s: Seq<char>)
    requires
        stands(buf, at as int, enc_string(s)),
    ensures
        grammar::string(buf, at) == Ok::<_, Fault>((s, (at + enc_string(s).len()) as usize)),
{
    let b = encode_utf8(s);
    bytes::lemma_pow256();
    lemma_stands_split(buf, at as int, bytes::le_bytes(b.len(), 8), b);
    assert(b.len() <= usize::MAX);
    lemma_number(buf, at, b.len(), 8);
    encode_utf8_valid_utf8(s);
    encode_utf8_decode_utf8(s);
}

proof fn lemma_sign_casts(a: i8, b: i16, c: i32, d: i64)
    ensures
        a as u8 as i8 == a,
        b as u16 as i16 == b,
        c as u32 as i32 == c,
        d as u64 as i64 == d,
{
    assert(a as u8 as i8 == a) by (bit_vector);
    assert(b as u16 as i16 == b) by (bit_vector);
    assert(c as u32 as i32 == c) by (bit_vector);
    assert(d as u64 as i64 == d) by (bit_vector);
}

/// Reading a value gives back what was written.
pub proof fn lemma_value(buf: Seq<u8>, at: usize, v: Val, depth: nat)
    requires
        depth <= 3,
        storable(v, depth),
        stands(buf, at as int, enc_val(v)),
    ensures
        grammar::value(buf, at, kind(v), depth) == Ok::<_, Fault>(
            (v, (at + enc_val(v).len()) as usize),
        ),
    decreases 2 * (4 - depth), 0nat,
{
    bytes::lemma_pow256();
    match v {
        Val::Array(a) => {
            let head = bytes::le_bytes(elem_kind(a) as nat, 4);
            let count = bytes::le_bytes(a.len(), 8);
            bytes::lemma_le_roundtrip(elem_kind(a) as nat, 4);
            bytes::lemma_le_roundtrip(a.len(), 8);
            lemma_stands_split(buf, at as int, head + count, enc_vals(a));
            lemma_stands_split(buf, at as int, head, count);
            lemma_number(buf, at, elem_kind(a) as nat, 4);
            let at1 = (at + 4) as usize;
            lemma_number(buf, at1, a.len(), 8);
            let at2 = (at + 12) as usize;
            lemma_elements(buf, at2, elem_kind(a), depth + 1, a, 0);
            assert(a.take(0) =~= Seq::<Val>::empty());
        },
        Val::Str(s) => {
            lemma_string(buf, at, s);
        },
        Val::U8(x) => lemma_number(buf, at, x as nat, 1),
        Val::I8(x) => {
            lemma_sign_casts(x, 0, 0, 0);
            lemma_number(buf, at, x as u8 as nat, 1);
        },
        Val::U16(x) => lemma_number(buf, at, x as nat, 2),
        Val::I16(x) => {
            lemma_sign_casts(0, x, 0, 0);
            lemma_number(buf, at, x as u16 as nat, 2);
        },
        Val::U32(x) => lemma_number(buf, at, x as nat, 4),
        Val::I32(x) => {
            lemma_sign_casts(0, 0, x, 0);
            lemma_number(buf, at, x as u32 as nat, 4);
        },
        Val::F32(x) => lemma_number(buf, at, x as nat, 4),
        Val::Bool(x) => lemma_number(buf, at, if x { 1 } else { 0 }, 1),
        Val::U64(x) => lemma_number(buf, at, x as nat, 8),
        Val::I64(x) => {
            lemma_sign_casts(0, 0, 0, x);
            lemma_number(buf, at, x as u64 as nat, 8);
        },
        Val::F64(x) => lemma_number(buf, at, x as nat, 8),
    }
}

/// The bytes of a longer run begin with those of a shorter one.
pub proof fn lemma_enc_vals_step(a: Seq<Val>, k: int)
    requires
        0 <= k < a.len(),
    ensures
        enc_vals(a.take(k + 1)) == enc_vals(a.take(k)) + enc_val(a[k]),
{
    assert(a.take(k + 1).drop_last() =~= a.take(k));
}

/// The bytes of the first `k` values, within those of all.
proof fn lemma_enc_vals_prefix(a: Seq<Val>, k: int)
    requires
        0 <= k <= a.len(),
    ensures
        enc_vals(a).len() >= enc_vals(a.take(k)).len(),
        enc_vals(a).subrange(0, enc_vals(a.take(k)).len() as int) == enc_vals(a.take(k)),
    decreases a.len() - k,
{
    if k == a.len() {
        assert(a.take(k) =~= a);
        assert(enc_vals(a).subrange(0, enc_vals(a).len() as int) =~= enc_vals(a));
    } else {
        lemma_enc_vals_prefix(a, k + 1);
        lemma_enc_vals_step(a, k);
        let p = enc_vals(a.take(k));
        let q = enc_vals(a.take(k + 1));
        assert(enc_vals(a).subrange(0, p.len() as int) =~= q.subrange(0, p.len() as int));
        assert(q.subrange(0, p.len() as int) =~= p);
    }
}

/// Reading the elements from the `k`th on gives back the whole run.
proof fn lemma_elements(buf: Seq<u8>, at: usize, ty: u32, depth: nat, a: Seq<Val>, k: int)
    requires
        1 <= depth <= 3,
        0 <= k <= a.len(),
        same_kind(a),
        a.len() > 0 ==> ty == elem_kind(a),
        forall|i: int| 0 <= i < a.len() ==> storable(#[trigger] a[i], depth),
        stands(buf, at as int, enc_vals(a)),
    ensures
        grammar::elements(
            buf,
            (at + enc_vals(a.take(k)).len()) as usize,
            ty,
            depth,
            (a.len() - k) as nat,
            a.take(k),
        ) == Ok::<_, Fault>((a, (at + enc_vals(a).len()) as usize)),
    decreases 2 * (4 - depth) + 1, a.len() - k,
{
    if k == a.len() {
        assert(a.take(k) =~= a);
    } else {
        let p = enc_vals(a.take(k));
        let here = (at + p.len()) as usize;
        lemma_enc_vals_step(a, k);
        lemma_enc_vals_prefix(a, k);
        lemma_enc_vals_prefix(a, k + 1);
        assert(stands(buf, here as int, enc_val(a[k]))) by {
            let q = enc_vals(a.take(k + 1));
            assert(buf.subrange(at as int, at + q.len()) =~= buf.subrange(
                at as int,
                at + enc_vals(a).len(),
            ).subrange(0, q.len() as int));
            lemma_stands_split(buf, at as int, p, enc_val(a[k]));
        }
        lemma_value(buf, here, a[k], depth);
        assert(a.take(k).push(a[k]) =~= a.take(k + 1));
        lemma_elements(buf, at, ty, depth, a, k + 1);
    }
}

/// A metadata entry: key, kind, value.
pub open spec fn enc_entry(e: (Seq<char>, Val)) -> Seq<u8> {
    enc_string(e.0) + bytes::le_bytes(kind(e.1) as nat, 4) + enc_val(e.1)
}

/// The bytes of a run of metadata entries.
pub open spec fn enc_entries(m: Seq<(Seq<char>, Val)>) -> Seq<u8>
    decreases m.len(),
{
    if m.len() == 0 {
        Seq::empty()
    } else {
        enc_entries(m.drop_last()) + enc_entry(m.last())
    }
}

/// The table that a run of entries stands for: a later entry replaces an earlier one.
pub open spec fn table_of(m: Seq<(Seq<char>, Val)>) -> Map<Seq<char>, Val>
    decreases m.len(),
{
    if m.len() == 0 {
        Map::empty()
    } else {
        table_of(m.drop_last()).insert(m.last().0, m.last().1)
    }
}

/// The bytes of a tensor's extents.
pub open spec fn enc_extents(d: Seq<u64>) -> Seq<u8>
    decreases d.len(),
{
    if d.len() == 0 {
        Seq::empty()
    } else {
        enc_extents(d.drop_last()) + bytes::le_bytes(d.last() as nat, 8)
    }
}

/// An entry of the tensor table: name, axis count, extents, type id, offset.
pub open spec fn enc_tensor(t: TensorView) -> Seq<u8> {
    enc_string(t.name) + bytes::le_bytes(t.dims.len(), 4) + enc_extents(t.dims) + bytes::le_bytes(
        t.ty.id() as nat,
        4,
    ) + bytes::le_bytes(t.offset as nat, 8)
}

/// The bytes of a run of tensor entries.
pub open spec fn enc_tensors(ts: Seq<TensorView>) -> Seq<u8>
    decreases ts.len(),
{
    if ts.len() == 0 {
        Seq::empty()
    } else {
        enc_tensors(ts.drop_last()) + enc_tensor(ts.last())
    }
}

/// The bytes of a version 3 header.
pub open spec fn enc_header(m: Seq<(Seq<char>, Val)>, ts: Seq<TensorView>) -> Seq<u8> {
    bytes::le_bytes(grammar::GGUF_MAGIC as nat, 4) + bytes::le_bytes(3, 4) + bytes::le_bytes(ts.len(), 8) + bytes::le_bytes(
        m.len(),
        8,
    ) + enc_entries(m) + enc_tensors(ts)
}

proof fn lemma_entries_prefix(m: Seq<(Seq<char>, Val)>, k: int)
    requires
        0 <= k <= m.len(),
    ensures
        enc_entries(m).len() >= enc_entries(m.take(k)).len(),
        enc_entries(m).subrange(0, enc_entries(m.take(k)).len() as int) == enc_entries(m.take(k)),
        k < m.len() ==> enc_entries(m.take(k + 1)) == enc_entries(m.take(k)) + enc_entry(m[k]),
    decreases m.len() - k,
{
    if k == m.len() {
        assert(m.take(k) =~= m);
        assert(enc_entries(m).subrange(0, enc_entries(m).len() as int) =~= enc_entries(m));
    } else {
        lemma_entries_prefix(m, k + 1);
        assert(m.take(k + 1).drop_last() =~= m.take(k));
        let p = enc_entries(m.take(k));
        let q = enc_entries(m.take(k + 1));
        assert(enc_entries(m).subrange(0, p.len() as int) =~= q.subrange(0, p.len() as int));
        assert(q.subrange(0, p.len() as int) =~= p);
    }
}

/// Reading an entry in front of others gives it back.
proof fn lemma_entry(
    buf: Seq<u8>,
    at: usize,
    e: (Seq<char>, Val),
    n: nat,
    acc: Map<Seq<char>, Val>,
)
    requires
        n > 0,
        storable(e.1, 0),
        stands(buf, at as int, enc_entry(e)),
    ensures
        grammar::entries(buf, at, n, acc) == grammar::entries(
            buf,
            (at + enc_entry(e).len()) as usize,
            (n - 1) as nat,
            acc.insert(e.0, e.1),
        ),
{
    lemma_stands_split(
        buf,
        at as int,
        enc_string(e.0) + bytes::le_bytes(kind(e.1) as nat, 4),
        enc_val(e.1),
    );
    lemma_stands_split(buf, at as int, enc_string(e.0), bytes::le_bytes(kind(e.1) as nat, 4));
    lemma_string(buf, at, e.0);
    bytes::lemma_pow256();
    bytes::lemma_le_roundtrip(kind(e.1) as nat, 4);
    let at1 = (at + enc_string(e.0).len()) as usize;
    lemma_number(buf, at1, kind(e.1) as nat, 4);
    let at2 = (at1 + 4) as usize;
    lemma_value(buf, at2, e.1, 0);
}

/// Reading the entries from the `k`th on gives back the whole table.
proof fn lemma_entries(buf: Seq<u8>, at: usize, m: Seq<(Seq<char>, Val)>, k: int)
    requires
        0 <= k <= m.len(),
        forall|i: int| 0 <= i < m.len() ==> storable((#[trigger] m[i]).1, 0),
        stands(buf, at as int, enc_entries(m)),
    ensures
        grammar::entries(
            buf,
            (at + enc_entries(m.take(k)).len()) as usize,
            (m.len() - k) as nat,
            table_of(m.take(k)),
        ) == Ok::<_, Fault>((table_of(m), (at + enc_entries(m).len()) as usize)),
    decreases m.len() - k,
{
    if k == m.len() {
        assert(m.take(k) =~= m);
    } else {
        let p = enc_entries(m.take(k));
        let here = (at + p.len()) as usize;
        lemma_entries_prefix(m, k);
        lemma_entries_prefix(m, k + 1);
        let e = m[k];
        assert(stands(buf, here as int, enc_entry(e))) by {
            let q = enc_entries(m.take(k + 1));
            assert(buf.subrange(at as int, at + q.len()) =~= buf.subrange(
                at as int,
                at + enc_entries(m).len(),
            ).subrange(0, q.len() as int));
            lemma_stands_split(buf, at as int, p, enc_entry(e));
        }
        lemma_entry(buf, here, e, (m.len() - k) as nat, table_of(m.take(k)));
        assert(m.take(k + 1).drop_last() =~= m.take(k));
        lemma_entries(buf, at, m, k + 1);
    }
}

proof fn lemma_extents_prefix(d: Seq<u64>, k: int)
    requires
        0 <= k <= d.len(),
    ensures
        enc_extents(d.take(k)).len() == 8 * k,
        enc_extents(d).len() >= 8 * k,
        enc_extents(d).subrange(0, 8 * k) == enc_extents(d.take(k)),
        k < d.len() ==> enc_extents(d.take(k + 1)) == enc_extents(d.take(k)) + bytes::le_bytes(
            d[k] as nat,
            8,
        ),
    decreases d.len() - k,
{
    lemma_extents_len(d.take(k));
    if k == d.len() {
        assert(d.take(k) =~= d);
        assert(enc_extents(d).subrange(0, enc_extents(d).len() as int) =~= enc_extents(d));
    } else {
        lemma_extents_prefix(d, k + 1);
        assert(d.take(k + 1).drop_last() =~= d.take(k));
        let p = enc_extents(d.take(k));
        let q = enc_extents(d.take(k + 1));
        assert(enc_extents(d).subrange(0, p.len() as int) =~= q.subrange(0, p.len() as int));
        assert(q.subrange(0, p.len() as int) =~= p);
    }
}

proof fn lemma_extents_len(d: Seq<u64>)
    ensures
        enc_extents(d).len() == 8 * d.len(),
    decreases d.len(),
{
    if d.len() > 0 {
        lemma_extents_len(d.drop_last());
        bytes::lemma_pow256();
        bytes::lemma_le_roundtrip(d.last() as nat, 8);
    }
}

/// Reading the extents from the `k`th on gives back the whole run.
proof fn lemma_extents(buf: Seq<u8>, at: usize, d: Seq<u64>, k: int)
    requires
        0 <= k <= d.len(),
        stands(buf, at as int, enc_extents(d)),
    ensures
        grammar::extents(buf, (at + 8 * k) as usize, (d.len() - k) as nat, d.take(k)) == Ok::<
            _,
            Fault,
        >((d, (at + 8 * d.len()) as usize)),
    decreases d.len() - k,
{
    lemma_extents_len(d);
    if k == d.len() {
        assert(d.take(k) =~= d);
    } else {
        let here = (at + 8 * k) as usize;
        lemma_extents_prefix(d, k);
        lemma_extents_prefix(d, k + 1);
        bytes::lemma_pow256();
        assert(stands(buf, here as int, bytes::le_bytes(d[k] as nat, 8))) by {
            let q = enc_extents(d.take(k + 1));
            assert(buf.subrange(at as int, at + q.len()) =~= buf.subrange(
                at as int,
                at + enc_extents(d).len(),
            ).subrange(0, q.len() as int));
            lemma_stands_split(buf, at as int, enc_extents(d.take(k)), bytes::le_bytes(d[k] as nat, 8));
        }
        lemma_number(buf, here, d[k] as nat, 8);
        assert(d.take(k).push(d[k]) =~= d.take(k + 1));
        lemma_extents(buf, at, d, k + 1);
    }
}

/// An entry that a tensor table can hold: at most eight axes and a type that its id names.
pub open spec fn listable(t: TensorView) -> bool {
    t.dims.len() <= 8 && tensor::type_of_id(t.ty.id()) == t.ty
}

/// Reading an entry of the tensor table gives back what was written.
proof fn lemma_tensor(buf: Seq<u8>, at: usize, t: TensorView)
    requires
        listable(t),
        stands(buf, at as int, enc_tensor(t)),
    ensures
        grammar::tensor(buf, at) == Ok::<_, Fault>((t, (at + enc_tensor(t).len()) as usize)),
{
    let a = enc_string(t.name);
    let b = bytes::le_bytes(t.dims.len(), 4);
    let c = enc_extents(t.dims);
    let d = bytes::le_bytes(t.ty.id() as nat, 4);
    let e = bytes::le_bytes(t.offset as nat, 8);
    bytes::lemma_pow256();
    bytes::lemma_le_roundtrip(t.dims.len(), 4);
    bytes::lemma_le_roundtrip(t.ty.id() as nat, 4);
    bytes::lemma_le_roundtrip(t.offset as nat, 8);
    lemma_extents_len(t.dims);
    lemma_stands_split(buf, at as int, a + b + c + d, e);
    lemma_stands_split(buf, at as int, a + b + c, d);
    lemma_stands_split(buf, at as int, a + b, c);
    lemma_stands_split(buf, at as int, a, b);
    lemma_string(buf, at, t.name);
    let at1 = (at + a.len()) as usize;
    lemma_number(buf, at1, t.dims.len(), 4);
    let at2 = (at1 + 4) as usize;
    lemma_extents(buf, at2, t.dims, 0);
    assert(t.dims.take(0) =~= Seq::<u64>::empty());
    let at3 = (at2 + c.len()) as usize;
    lemma_number(buf, at3, t.ty.id() as nat, 4);
    let at4 = (at3 + 4) as usize;
    lemma_number(buf, at4, t.offset as nat, 8);
}

proof fn lemma_tensors_prefix(ts: Seq<TensorView>, k: int)
    requires
        0 <= k <= ts.len(),
    ensures
        enc_tensors(ts).len() >= enc_tensors(ts.take(k)).len(),
        enc_tensors(ts).subrange(0, enc_tensors(ts.take(k)).len() as int) == enc_tensors(
            ts.take(k),
        ),
        k < ts.len() ==> enc_tensors(ts.take(k + 1)) == enc_tensors(ts.take(k)) + enc_tensor(ts[k]),
    decreases ts.len() - k,
{
    if k == ts.len() {
        assert(ts.take(k) =~= ts);
        assert(enc_tensors(ts).subrange(0, enc_tensors(ts).len() as int) =~= enc_tensors(ts));
    } else {
        lemma_tensors_prefix(ts, k + 1);
        assert(ts.take(k + 1).drop_last() =~= ts.take(k));
        let p = enc_tensors(ts.take(k));
        let q = enc_tensors(ts.take(k + 1));
        assert(enc_tensors(ts).subrange(0, p.len() as int) =~= q.subrange(0, p.len() as int));
        assert(q.subrange(0, p.len() as int) =~= p);
    }
}

/// Reading the tensor table from the `k`th entry on gives back the whole table.
proof fn lemma_tensors(buf: Seq<u8>, at: usize, ts: Seq<TensorView>, k: int)
    requires
        0 <= k <= ts.len(),
        forall|i: int| 0 <= i < ts.len() ==> listable(#[trigger] ts[i]),
        stands(buf, at as int, enc_tensors(ts)),
    ensures
        grammar::tensors(
            buf,
            (at + enc_tensors(ts.take(k)).len()) as usize,
            (ts.len() - k) as nat,
            ts.take(k),
        ) == Ok::<_, Fault>((ts, (at + enc_tensors(ts).len()) as usize)),
    decreases ts.len() - k,
{
    if k == ts.len() {
        assert(ts.take(k) =~= ts);
    } else {
        let p = enc_tensors(ts.take(k));
        let here = (at + p.len()) as usize;
        lemma_tensors_prefix(ts, k);
        lemma_tensors_prefix(ts, k + 1);
        assert(stands(buf, here as int, enc_tensor(ts[k]))) by {
            let q = enc_tensors(ts.take(k + 1));
            assert(buf.subrange(at as int, at + q.len()) =~= buf.subrange(
                at as int,
                at + enc_tensors(ts).len(),
            ).subrange(0, q.len() as int));
            lemma_stands_split(buf, at as int, p, enc_tensor(ts[k]));
        }
        lemma_tensor(buf, here, ts[k]);
        assert(ts.take(k).push(ts[k]) =~= ts.take(k + 1));
        lemma_tensors(buf, at, ts, k + 1);
    }
}

/// Reading a file that begins with a written header gives back the metadata and the tensor table
/// that were written, and places the data section behind the header, rounded up to the alignment.
pub proof fn law_header_roundtrip(
    buf: Seq<u8>,
    m: Seq<(Seq<char>, Val)>,
    ts: Seq<TensorView>,
)
    requires
        m.len() <= grammar::MAX_ENTRIES,
        ts.len() <= grammar::MAX_ENTRIES,
        forall|i: int| 0 <= i < m.len() ==> storable((#[trigger] m[i]).1, 0),
        forall|i: int| 0 <= i < ts.len() ==> listable(#[trigger] ts[i]),
        stands(buf, 0, enc_header(m, ts)),
    ensures
        grammar::header(buf) == Ok::<_, Fault>(
            grammar::Header {
                version: 3,
                metadata: table_of(m),
                tensors: ts,
                alignment: grammar::alignment_of(table_of(m)),
                data_offset: grammar::round_up(
                    enc_header(m, ts).len(),
                    grammar::alignment_of(table_of(m)) as nat,
                ),
            },
        ),
{
    let a = bytes::le_bytes(grammar::GGUF_MAGIC as nat, 4);
    let b = bytes::le_bytes(3, 4);
    let c = bytes::le_bytes(ts.len(), 8);
    let d = bytes::le_bytes(m.len(), 8);
    let e = enc_entries(m);
    let f = enc_tensors(ts);
    bytes::lemma_pow256();
    bytes::lemma_le_roundtrip(grammar::GGUF_MAGIC as nat, 4);
    bytes::lemma_le_roundtrip(3, 4);
    bytes::lemma_le_roundtrip(ts.len(), 8);
    bytes::lemma_le_roundtrip(m.len(), 8);
    lemma_stands_split(buf, 0, a + b + c + d + e, f);
    lemma_stands_split(buf, 0, a + b + c + d, e);
    lemma_stands_split(buf, 0, a + b + c, d);
    lemma_stands_split(buf, 0, a + b, c);
    lemma_stands_split(buf, 0, a, b);
    lemma_number(buf, 0, grammar::GGUF_MAGIC as nat, 4);
    lemma_number(buf, 4, 3, 4);
    lemma_number(buf, 8, ts.len(), 8);
    lemma_number(buf, 16, m.len(), 8);
    lemma_entries(buf, 24, m, 0);
    assert(m.take(0) =~= Seq::<(Seq<char>, Val)>::empty());
    let at = (24 + e.len()) as usize;
    lemma_tensors(buf, at, ts, 0);
    assert(ts.take(0) =~= Seq::<TensorView>::empty());
}

/// What the reader returns for a value of kind `ty` is of that kind and can be written again.
pub proof fn lemma_value_storable(buf: Seq<u8>, at: usize, ty: u32, depth: nat)
    requires
        depth <= 3,
    ensures
        grammar::value(buf, at, ty, depth) matches Ok((v, _)) ==> kind(v) == ty && storable(
            v,
            depth,
        ),
    decreases 2 * (4 - depth), 0nat,
{
    if ty == 9 && depth <= 2 {
        if let Ok((elem_ty, at1)) = grammar::number(buf, at, 4) {
            if let Ok((count, at2)) = grammar::number(buf, at1, 8) {
                if count <= MAX_ARRAY {
                    lemma_elements_storable(
                        buf,
                        at2,
                        elem_ty as u32,
                        depth + 1,
                        count,
                        Seq::empty(),
                    );
                }
            }
        }
    }
}

proof fn lemma_elements_storable(
    buf: Seq<u8>,
    at: usize,
    ty: u32,
    depth: nat,
    n: nat,
    acc: Seq<Val>,
)
    requires
        1 <= depth <= 3,
        forall|i: int|
            0 <= i < acc.len() ==> kind(#[trigger] acc[i]) == ty && storable(acc[i], depth),
    ensures
        grammar::elements(buf, at, ty, depth, n, acc) matches Ok((a, _)) ==> a.len() == acc.len()
            + n && forall|i: int|
            0 <= i < a.len() ==> kind(#[trigger] a[i]) == ty && storable(a[i], depth),
    decreases 2 * (4 - depth) + 1, n,
{
    if n > 0 {
        lemma_value_storable(buf, at, ty, depth);
        if let Ok((v, at1)) = grammar::value(buf, at, ty, depth) {
            lemma_elements_storable(buf, at1, ty, depth, (n - 1) as nat, acc.push(v));
        }
    }
}

proof fn lemma_entries_storable(buf: Seq<u8>, at: usize, n: nat, acc: Map<Seq<char>, Val>)
    requires
        forall|k: Seq<char>| acc.contains_key(k) ==> storable(#[trigger] acc[k], 0),
    ensures
        grammar::entries(buf, at, n, acc) matches Ok((m, _)) ==> forall|k: Seq<char>|
            m.contains_key(k) ==> storable(#[trigger] m[k], 0),
    decreases n,
{
    if n > 0 {
        if let Ok((key, at1)) = grammar::string(buf, at) {
            if let Ok((ty, at2)) = grammar::number(buf, at1, 4) {
                lemma_value_storable(buf, at2, ty as u32, 0);
                if let Ok((v, at3)) = grammar::value(buf, at2, ty as u32, 0) {
                    lemma_entries_storable(buf, at3, (n - 1) as nat, acc.insert(key, v));
                }
            }
        }
    }
}

proof fn lemma_tensors_listable(buf: Seq<u8>, at: usize, n: nat, acc: Seq<TensorView>)
    requires
        forall|i: int| 0 <= i < acc.len() ==> listable(#[trigger] acc[i]),
    ensures
        grammar::tensors(buf, at, n, acc) matches Ok((ts, _)) ==> ts.len() == acc.len() + n
            && forall|i: int| 0 <= i < ts.len() ==> listable(#[trigger] ts[i]),
    decreases n,
{
    if n > 0 {
        if let Ok((t, at1)) = grammar::tensor(buf, at) {
            lemma_tensor_listable(buf, at);
            lemma_tensors_listable(buf, at1, (n - 1) as nat, acc.push(t));
        }
    }
}

proof fn lemma_extents_count(buf: Seq<u8>, at: usize, n: nat, acc: Seq<u64>)
    ensures
        grammar::extents(buf, at, n, acc) matches Ok((d, _)) ==> d.len() == acc.len() + n,
    decreases n,
{
    if n > 0 {
        if let Ok((d, at1)) = grammar::number(buf, at, 8) {
            lemma_extents_count(buf, at1, (n - 1) as nat, acc.push(d as u64));
        }
    }
}

proof fn lemma_tensor_listable(buf: Seq<u8>, at: usize)
    ensures
        grammar::tensor(buf, at) matches Ok((t, _)) ==> listable(t),
{
    if let Ok((name, at1)) = grammar::string(buf, at) {
        if let Ok((n_dims, at2)) = grammar::number(buf, at1, 4) {
            lemma_extents_count(buf, at2, n_dims, Seq::empty());
        }
    }
}

/// Whatever the reader accepts can be written again: every metadata value is storable and every
/// tensor entry listable.
pub proof fn law_parsed_writable(buf: Seq<u8>)
    ensures
        grammar::header(buf) matches Ok(h) ==> {
            &&& forall|k: Seq<char>| h.metadata.contains_key(k) ==> storable(#[trigger] h.metadata[k], 0)
            &&& forall|i: int| 0 <= i < h.tensors.len() ==> listable(#[trigger] h.tensors[i])
            &&& h.tensors.len() <= grammar::MAX_ENTRIES
        },
{
    if let Ok((n_tensors, at)) = grammar::number(buf, 8, 8) {
        if let Ok((n_kv, at1)) = grammar::number(buf, at, 8) {
            lemma_entries_storable(buf, at1, n_kv, Map::empty());
            if let Ok((m, at2)) = grammar::entries(buf, at1, n_kv, Map::empty()) {
                lemma_tensors_listable(buf, at2, n_tensors, Seq::empty());
            }
        }
    }
}

/// A storable value is uniform.
pub proof fn lemma_storable_uniform(v: Val, depth: nat)
    requires
        depth <= 3,
        storable(v, depth),
    ensures
        uniform(v),
    decreases 4 - depth, 0nat,
{
    if let Val::Array(a) = v {
        lemma_storable_uniform_all(a, depth + 1);
    }
}

proof fn lemma_storable_uniform_all(a: Seq<Val>, depth: nat)
    requires
        1 <= depth <= 3,
        forall|i: int| 0 <= i < a.len() ==> storable(#[trigger] a[i], depth),
    ensures
        uniform_all(a),
    decreases 4 - depth, 1 + a.len(),
{
    if a.len() > 0 {
        assert(storable(a[a.len() - 1], depth));
        lemma_storable_uniform(a.last(), depth);
        assert forall|i: int| 0 <= i < a.drop_last().len() implies storable(
            #[trigger] a.drop_last()[i],
            depth,
        ) by {
            assert(storable(a[i], depth));
        }
        lemma_storable_uniform_all(a.drop_last(), depth);
    }
}

} // verus!
