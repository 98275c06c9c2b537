//! Writer of the GGUF header.
use vstd::prelude::*;
use vstd::utf8::*;

use super::encode;
use super::grammar::{TensorView, GGUF_MAGIC};
use super::parse;
use super::tensor::TensorInfo;
use super::value;
use super::value::{Val, Value};
use crate::bytes;
use crate::bytes::{push_bytes, push_le};
use crate::text;
use crate::text::{owned, push_decimal, push_str};

verus! {

pub fn write_string(out: &mut Vec<u8>, s: &str)
    ensures
        final(out)@ == old(out)@ + encode::enc_string(s@),
{
    let b = s.as_bytes();
    push_le(out, b.len() as u64, 8);
    push_bytes(out, b);
    assert(out@ =~= old(out)@ + encode::enc_string(s@));
}

pub fn value_type_id(v: &Value) -> (r: u32)
    ensures
        r == encode::kind(v@),
{
    match v {
        Value::U8(_) => 0,
        Value::I8(_) => 1,
        Value::U16(_) => 2,
        Value::I16(_) => 3,
        Value::U32(_) => 4,
        Value::I32(_) => 5,
        Value::F32(_) => 6,
        Value::Bool(_) => 7,
        Value::String(_) => 8,
        Value::Array(_) => 9,
        Value::U64(_) => 10,
        Value::I64(_) => 11,
        Value::F64(_) => 12,
    }
}

/// Appends the bytes of a value, without its kind. An array of mixed kinds cannot be written: the
/// call then fails, and what it had written of the value stays behind what was there.
pub fn write_value_payload(out: &mut Vec<u8>, v: &Value) -> (r: Result<(), String>)
    ensures
        r is Ok <==> encode::uniform(v@),
        r is Ok ==> final(out)@ == old(out)@ + encode::enc_val(v@),
        r matches Err(e) ==> e@ == "heterogeneous metadata array"@,
        old(out)@.is_prefix_of(final(out)@),
    decreases v,
{
    match v {
        Value::U8(x) => push_le(out, *x as u64, 1),
        Value::I8(x) => push_le(out, *x as u8 as u64, 1),
        Value::U16(x) => push_le(out, *x as u64, 2),
        Value::I16(x) => push_le(out, *x as u16 as u64, 2),
        Value::U32(x) => push_le(out, *x as u64, 4),
        Value::I32(x) => push_le(out, *x as u32 as u64, 4),
        Value::F32(x) => push_le(out, *x as u64, 4),
        Value::Bool(x) => push_le(out, if *x { 1u64 } else { 0u64 }, 1),
        Value::String(s) => write_string(out, s.as_str()),
        Value::U64(x) => push_le(out, *x, 8),
        Value::I64(x) => push_le(out, *x as u64, 8),
        Value::F64(x) => push_le(out, *x, 8),
        Value::Array(items) => {
            return write_array(out, items);
        },
    }
    Ok(())
}

/// Appends the bytes of an array: element kind, count, elements.
fn write_array(out: &mut Vec<u8>, items: &Vec<Value>) -> (r: Result<(), String>)
    ensures
        r is Ok <==> encode::uniform(Val::Array(value::vals(items@))),
        r is Ok ==> final(out)@ == old(out)@ + encode::enc_val(Val::Array(value::vals(items@))),
        r matches Err(e) ==> e@ == "heterogeneous metadata array"@,
        old(out)@.is_prefix_of(final(out)@),
    decreases items,
{
    let ghost a = value::vals(items@);
    proof {
        super::value::lemma_vals(items@);
    }
    let elem_ty: u32 = if items.len() == 0 {
        4
    } else {
        value_type_id(&items[0])
    };
    let mut i: usize = 0;
    while i < items.len()
        invariant
            i <= items@.len(),
            a == value::vals(items@),
            a.len() == items@.len(),
            elem_ty == encode::elem_kind(a),
            forall|j: int| 0 <= j < items@.len() ==> #[trigger] a[j] == value::val(items@[j]),
            forall|j: int| 0 <= j < i ==> encode::kind(#[trigger] a[j]) == elem_ty,
            *out == *old(out),
        decreases items@.len() - i,
    {
        assert(a[i as int] == value::val(items@[i as int]));
        if value_type_id(&items[i]) != elem_ty {
            assert(!encode::same_kind(a));
            return Err(owned("heterogeneous metadata array"));
        }
        i = i + 1;
    }
    push_le(out, elem_ty as u64, 4);
    push_le(out, items.len() as u64, 8);
    let ghost head = bytes::le_bytes(elem_ty as nat, 4) + bytes::le_bytes(a.len(), 8);
    assert(out@ =~= old(out)@ + head);
    assert(a.take(0) =~= Seq::<Val>::empty());
    let mut i: usize = 0;
    while i < items.len()
        invariant
            i <= items@.len(),
            a == value::vals(items@),
            a.len() == items@.len(),
            encode::same_kind(a),
            forall|j: int| 0 <= j < items@.len() ==> #[trigger] a[j] == value::val(items@[j]),
            encode::uniform_all(a.take(i as int)),
            out@ == old(out)@ + head + encode::enc_vals(a.take(i as int)),
        decreases items@.len() - i,
    {
        let ghost before = out@;
        proof {
            assert(decreases_to!(*items => items@));
            assert(decreases_to!(items@ => items@[i as int]));
            assert(a.take(i + 1).drop_last() =~= a.take(i as int));
            assert(a[i as int] == value::val(items@[i as int]));
        }
        match write_value_payload(out, &items[i]) {
            Ok(()) => {},
            Err(e) => {
                proof {
                    lemma_uniform_all_take(a, i + 1);
                    assert(old(out)@.is_prefix_of(out@)) by {
                        assert(before.is_prefix_of(out@));
                        assert(old(out)@ =~= before.take(old(out)@.len() as int));
                    }
                }
                return Err(e);
            },
        }
        assert(out@ =~= old(out)@ + head + encode::enc_vals(a.take(i + 1)));
        i = i + 1;
    }
    assert(a.take(i as int) =~= a);
    assert(out@ =~= old(out)@ + encode::enc_val(Val::Array(a)));
    Ok(())
}

/// A run is uniform only if each run that it begins with is.
proof fn lemma_uniform_all_take(a: Seq<Val>, k: int)
    requires
        0 <= k <= a.len(),
    ensures
        encode::uniform_all(a) ==> encode::uniform_all(a.take(k)),
    decreases a.len() - k,
{
    if k == a.len() {
        assert(a.take(k) =~= a);
    } else {
        lemma_uniform_all_take(a, k + 1);
        assert(a.take(k + 1).drop_last() =~= a.take(k));
    }
}

/// What a run of metadata entries says.
pub open spec fn entry_views(m: Seq<(String, Value)>) -> Seq<(Seq<char>, Val)> {
    m.map_values(|e: (String, Value)| (e.0@, value::val(e.1)))
}

/// `n` spaces.
pub open spec fn spaces(n: nat) -> Seq<char> {
    Seq::new(n, |i: int| ' ')
}

/// The entry that takes up the slack between the header and the data section.
pub open spec fn pad_entry(n: nat) -> (Seq<char>, Val) {
    ("pulsar.pad"@, Val::Str(spaces(n)))
}

/// Bytes of a header whose slack entry is empty.
pub open spec fn header_size(m: Seq<(Seq<char>, Val)>, ts: Seq<TensorView>) -> nat {
    encode::enc_header(m.push(pad_entry(0)), ts).len()
}

/// The values of all entries are uniform.
pub open spec fn uniform_entries(m: Seq<(Seq<char>, Val)>) -> bool {
    forall|i: int| 0 <= i < m.len() ==> encode::uniform((#[trigger] m[i]).1)
}

/// The complaint about a header that does not fit before the data section.
pub open spec fn oversize_text(used: nat, data_start: nat) -> Seq<char> {
    "header ("@ + text::decimal(used) + "B) exceeds reserve ("@ + text::decimal(data_start)
        + "B); rerun with --header-reserve "@ + text::decimal(used / 0x10_0000 + 8)
}

/// The bytes of `n` spaces as a string.
proof fn lemma_spaces(n: nat)
    ensures
        encode_utf8(spaces(n)) == Seq::new(n, |i: int| 32u8),
{
    is_ascii_chars_encode_utf8(spaces(n));
    assert(encode_utf8(spaces(n)) =~= Seq::new(n, |i: int| 32u8));
}

/// The length of a number's bytes.
proof fn lemma_le_len(n: nat, k: nat)
    ensures
        bytes::le_bytes(n, k).len() == k,
    decreases k,
{
    if k > 0 {
        lemma_le_len(n / 256, (k - 1) as nat);
    }
}

/// Appends the metadata entries.
fn write_entries(out: &mut Vec<u8>, meta: &Vec<(String, Value)>) -> (r: Result<(), String>)
    ensures
        r is Ok <==> uniform_entries(entry_views(meta@)),
        r is Ok ==> final(out)@ == old(out)@ + encode::enc_entries(entry_views(meta@)),
        r matches Err(e) ==> e@ == "heterogeneous metadata array"@,
{
    let ghost m = entry_views(meta@);
    assert(m.take(0) =~= Seq::<(Seq<char>, Val)>::empty());
    let mut i: usize = 0;
    while i < meta.len()
        invariant
            i <= meta@.len(),
            m == entry_views(meta@),
            forall|j: int| 0 <= j < i ==> encode::uniform((#[trigger] m[j]).1),
            out@ == old(out)@ + encode::enc_entries(m.take(i as int)),
        decreases meta@.len() - i,
    {
        assert(m[i as int] == (meta@[i as int].0@, value::val(meta@[i as int].1)));
        write_string(out, meta[i].0.as_str());
        push_le(out, value_type_id(&meta[i].1) as u64, 4);
        match write_value_payload(out, &meta[i].1) {
            Ok(()) => {},
            Err(e) => {
                assert(!encode::uniform(m[i as int].1));
                return Err(e);
            },
        }
        assert(m.take(i + 1).drop_last() =~= m.take(i as int));
        assert(out@ =~= old(out)@ + encode::enc_entries(m.take(i + 1)));
        i = i + 1;
    }
    assert(m.take(i as int) =~= m);
    Ok(())
}

/// Appends the tensor table.
fn write_tensors(out: &mut Vec<u8>, tensors: &Vec<TensorInfo>)
    requires
        forall|i: int| 0 <= i < tensors@.len() ==> (#[trigger] tensors@[i]).dims@.len() <= u32::MAX,
    ensures
        final(out)@ == old(out)@ + encode::enc_tensors(parse::table_view(tensors@)),
{
    let ghost ts = parse::table_view(tensors@);
    assert(ts.take(0) =~= Seq::<TensorView>::empty());
    let mut i: usize = 0;
    while i < tensors.len()
        invariant
            i <= tensors@.len(),
            ts == parse::table_view(tensors@),
            forall|i: int| 0 <= i < tensors@.len() ==> (#[trigger] tensors@[i]).dims@.len() <= u32::MAX,
            out@ == old(out)@ + encode::enc_tensors(ts.take(i as int)),
        decreases tensors@.len() - i,
    {
        let t = &tensors[i];
        let ghost before = out@;
        write_string(out, t.name.as_str());
        push_le(out, t.dims.len() as u64, 4);
        let ghost mid = out@;
        assert(t.dims@.take(0) =~= Seq::<u64>::empty());
        let mut j: usize = 0;
        while j < t.dims.len()
            invariant
                j <= t.dims@.len(),
                out@ == mid + encode::enc_extents(t.dims@.take(j as int)),
            decreases t.dims@.len() - j,
        {
            push_le(out, t.dims[j], 8);
            assert(t.dims@.take(j + 1).drop_last() =~= t.dims@.take(j as int));
            assert(out@ =~= mid + encode::enc_extents(t.dims@.take(j + 1)));
            j = j + 1;
        }
        assert(t.dims@.take(j as int) =~= t.dims@);
        push_le(out, t.ty.to_id() as u64, 4);
        push_le(out, t.offset, 8);
        assert(ts[i as int] == parse::info_view(*t));
        assert(out@ =~= before + encode::enc_tensor(ts[i as int]));
        assert(ts.take(i + 1).drop_last() =~= ts.take(i as int));
        assert(out@ =~= old(out)@ + encode::enc_tensors(ts.take(i + 1)));
        i = i + 1;
    }
    assert(ts.take(i as int) =~= ts);
}

/// The header of a file whose data section begins at `data_start`: magic, version 3, counts,
/// metadata, a string of spaces under `pulsar.pad`, tensor table. The spaces make the header end
/// exactly where the data begins.
pub fn write_header(
    meta: &Vec<(String, Value)>,
    tensors: &Vec<TensorInfo>,
    data_start: u64,
) -> (r: Result<Vec<u8>, String>)
    requires
        data_start <= usize::MAX,
        header_size(entry_views(meta@), parse::table_view(tensors@)) <= u64::MAX,
        forall|i: int| 0 <= i < tensors@.len() ==> (#[trigger] tensors@[i]).dims@.len() <= u32::MAX,
    ensures
        ({
            let m = entry_views(meta@);
            let ts = parse::table_view(tensors@);
            match r {
                Ok(h) => {
                    &&& uniform_entries(m)
                    &&& header_size(m, ts) <= data_start
                    &&& h@ == encode::enc_header(
                        m.push(pad_entry((data_start - header_size(m, ts)) as nat)),
                        ts,
                    )
                    &&& h@.len() == data_start
                },
                Err(e) => if uniform_entries(m) {
                    header_size(m, ts) > data_start && e@ == oversize_text(
                        header_size(m, ts),
                        data_start as nat,
                    )
                } else {
                    e@ == "heterogeneous metadata array"@
                },
            }
        }),
{
    let ghost m = entry_views(meta@);
    let ghost ts = parse::table_view(tensors@);
    let ghost fixed = bytes::le_bytes(GGUF_MAGIC as nat, 4) + bytes::le_bytes(3, 4)
        + bytes::le_bytes(ts.len(), 8) + bytes::le_bytes(m.len() + 1, 8);
    proof {
        lemma_header_split(m, ts, 0);
        lemma_entries_len(m);
        lemma_le_len(GGUF_MAGIC as nat, 4);
        lemma_le_len(3, 4);
        lemma_le_len(ts.len(), 8);
        lemma_le_len(m.len() + 1, 8);
    }
    let mut head: Vec<u8> = Vec::new();
    push_le(&mut head, GGUF_MAGIC as u64, 4);
    push_le(&mut head, 3, 4);
    push_le(&mut head, tensors.len() as u64, 8);
    push_le(&mut head, meta.len() as u64 + 1, 8);
    assert(head@ =~= fixed);
    match write_entries(&mut head, meta) {
        Ok(()) => {},
        Err(e) => {
            return Err(e);
        },
    }
    let mut table: Vec<u8> = Vec::new();
    write_tensors(&mut table, tensors);
    assert(table@ =~= encode::enc_tensors(ts));
    let overhead: u64 = 30;
    let used: u64 = head.len() as u64 + overhead + table.len() as u64;
    assert(used == header_size(m, ts));
    if used > data_start {
        let mut msg = String::new();
        push_str(&mut msg, "header (");
        push_decimal(&mut msg, used);
        push_str(&mut msg, "B) exceeds reserve (");
        push_decimal(&mut msg, data_start);
        push_str(&mut msg, "B); rerun with --header-reserve ");
        push_decimal(&mut msg, used / 0x10_0000 + 8);
        assert(msg@ =~= oversize_text(used as nat, data_start as nat));
        return Err(msg);
    }
    let pad: u64 = data_start - used;
    proof {
        lemma_header_split(m, ts, pad as nat);
    }
    write_string(&mut head, "pulsar.pad");
    push_le(&mut head, 8, 4);
    push_le(&mut head, pad, 8);
    let ghost before = head@;
    let mut k: u64 = 0;
    while k < pad
        invariant
            k <= pad,
            head@ == before + Seq::new(k as nat, |i: int| 32u8),
        decreases pad - k,
    {
        head.push(32);
        assert(head@ =~= before + Seq::new((k + 1) as nat, |i: int| 32u8));
        k = k + 1;
    }
    push_bytes(&mut head, table.as_slice());
    assert(head@ =~= encode::enc_header(m.push(pad_entry(pad as nat)), ts));
    Ok(head)
}

/// Every entry takes up at least a byte.
proof fn lemma_entries_len(m: Seq<(Seq<char>, Val)>)
    ensures
        encode::enc_entries(m).len() >= m.len(),
    decreases m.len(),
{
    if m.len() > 0 {
        lemma_entries_len(m.drop_last());
        lemma_le_len(encode_utf8(m.last().0).len(), 8);
    }
}

/// The parts of a header that ends in a slack entry of `n` spaces.
proof fn lemma_header_split(m: Seq<(Seq<char>, Val)>, ts: Seq<TensorView>, n: nat)
    ensures
        encode::enc_header(m.push(pad_entry(n)), ts) == bytes::le_bytes(GGUF_MAGIC as nat, 4)
            + bytes::le_bytes(3, 4) + bytes::le_bytes(ts.len(), 8) + bytes::le_bytes(
            m.len() + 1,
            8,
        ) + encode::enc_entries(m) + (encode::enc_string("pulsar.pad"@) + bytes::le_bytes(8, 4)
            + bytes::le_bytes(n, 8) + Seq::new(n, |i: int| 32u8)) + encode::enc_tensors(ts),
        encode::enc_header(m.push(pad_entry(n)), ts).len() == 24 + encode::enc_entries(m).len() + 30
            + n + encode::enc_tensors(ts).len(),
{
    lemma_spaces(n);
    lemma_le_len(GGUF_MAGIC as nat, 4);
    lemma_le_len(3, 4);
    lemma_le_len(ts.len(), 8);
    lemma_le_len(m.len() + 1, 8);
    lemma_le_len(8, 4);
    lemma_le_len(n, 8);
    reveal_strlit("pulsar.pad");
    is_ascii_chars_encode_utf8("pulsar.pad"@);
    lemma_le_len(encode_utf8("pulsar.pad"@).len(), 8);
    let m2 = m.push(pad_entry(n));
    assert(m2.drop_last() =~= m);
    assert(encode::enc_entry(pad_entry(n)) =~= encode::enc_string("pulsar.pad"@)
        + bytes::le_bytes(8, 4) + bytes::le_bytes(n, 8) + Seq::new(n, |i: int| 32u8));
    assert(encode::enc_header(m2, ts) =~= bytes::le_bytes(GGUF_MAGIC as nat, 4) + bytes::le_bytes(
        3,
        4,
    ) + bytes::le_bytes(ts.len(), 8) + bytes::le_bytes(m.len() + 1, 8) + encode::enc_entries(m) + (
    encode::enc_string("pulsar.pad"@) + bytes::le_bytes(8, 4) + bytes::le_bytes(n, 8) + Seq::new(
        n,
        |i: int| 32u8,
    )) + encode::enc_tensors(ts));
}

/// A slack entry of `n` spaces makes a header longer by `n`.
pub proof fn law_slack(m: Seq<(Seq<char>, Val)>, ts: Seq<TensorView>, n: nat)
    ensures
        encode::enc_header(m.push(pad_entry(n)), ts).len() == header_size(m, ts) + n,
{
    lemma_header_split(m, ts, n);
    lemma_header_split(m, ts, 0);
}

} // verus!
