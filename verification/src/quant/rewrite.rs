//! The layout of a rewritten file: where its data begins, where each tensor goes, how a tensor is
//! divided among workers, and the header that describes it all.
use vstd::arithmetic::div_mod::*;
use vstd::prelude::*;
use vstd::slice::slice_subrange;

use super::carry;
use crate::gguf::encode;
use crate::gguf::error::Fault;
use crate::gguf::grammar;
use crate::gguf::grammar::{Header, TensorView};
use crate::gguf::parse;
use crate::gguf::parse::round_up;
use crate::gguf::tensor;
use crate::gguf::tensor::TensorInfo;
use crate::gguf::value;
use crate::gguf::value::Val;
use crate::gguf::writer;
use crate::gguf::{Metadata, TensorType, Value};
use crate::text;
use crate::text::{push_decimal, push_str};

verus! {

/// Number of tensors that a split file announces; that of its first shard where it does not.
pub open spec fn announced(m: Map<Seq<char>, Val>, n_tensors: u64) -> u64 {
    let k = "split.tensors.count"@;
    if m.contains_key(k) {
        match m[k] {
            Val::I32(n) => n as u64,
            Val::U32(n) => n as u64,
            Val::I64(n) => n as u64,
            Val::U64(n) => n,
            _ => n_tensors,
        }
    } else {
        n_tensors
    }
}

/// Number of tensors that a split file announces.
pub fn tensor_total(m: &Metadata, n_tensors: u64) -> (r: u64)
    ensures
        r == announced(m@, n_tensors),
{
    match m.get("split.tensors.count") {
        Some(v) => match v {
            Value::I32(n) => *n as u64,
            Value::U32(n) => *n as u64,
            Value::I64(n) => *n as u64,
            Value::U64(n) => *n,
            _ => n_tensors,
        },
        None => n_tensors,
    }
}

/// Data is aligned to at least this.
pub const MIN_ALIGNMENT: u64 = 32;

/// The alignment of the rewritten data.
pub open spec fn out_alignment(a: u64) -> u64 {
    if a > MIN_ALIGNMENT {
        a
    } else {
        MIN_ALIGNMENT
    }
}

/// The alignment of the rewritten data.
pub fn output_alignment(a: u64) -> (r: u64)
    ensures
        r == out_alignment(a),
{
    if a > MIN_ALIGNMENT {
        a
    } else {
        MIN_ALIGNMENT
    }
}

/// Bytes set aside for the header: as many megabytes as asked for (the top bits of a number that
/// is too large are lost), else the first shard's header, room for the table and a megabyte.
pub open spec fn reserve(mb: Option<u64>, data_offset: u64, n_total: u64) -> nat {
    match mb {
        Some(m) => ((m * 0x10_0000) % 0x1_0000_0000_0000_0000) as nat,
        None => (data_offset + n_total * 160 + 0x10_0000) as nat,
    }
}

/// Where the data of a rewritten file begins.
pub fn data_start(mb: Option<u64>, data_offset: u64, n_total: u64, align: u64) -> (r: u64)
    requires
        align > 0,
        grammar::round_up(reserve(mb, data_offset, n_total), align as nat) <= u64::MAX,
    ensures
        r as nat == grammar::round_up(reserve(mb, data_offset, n_total), align as nat),
{
    proof {
        tensor::lemma_ceil_div(reserve(mb, data_offset, n_total), align as nat);
    }
    let n: u64 = match mb {
        Some(m) => ((m as u128 * 0x10_0000) % 0x1_0000_0000_0000_0000) as u64,
        None => data_offset + n_total * 160 + 0x10_0000,
    };
    round_up(n, align)
}

/// Width and number of the rows of a tensor. A tensor without extents is one row of one element;
/// there is at least one row.
pub open spec fn shape(dims: Seq<u64>) -> (nat, nat) {
    if dims.len() == 0 {
        (1, 1)
    } else {
        let p = tensor::product(dims.skip(1));
        (
            dims[0] as nat,
            if p == 0 {
                1
            } else {
                p
            },
        )
    }
}

/// Width and number of the rows of a tensor.
pub fn rows_of(dims: &[u64]) -> (r: (u64, u64))
    requires
        dims@.len() > 0 ==> tensor::product_fits(dims@.skip(1)),
    ensures
        (r.0 as nat, r.1 as nat) == shape(dims@),
{
    let n: usize = dims.len();
    if n == 0 {
        return (1, 1);
    }
    let ghost tail = dims@.skip(1);
    let mut p: u64 = 1;
    let mut i: usize = 1;
    assert(tail.take(0) =~= Seq::<u64>::empty());
    while i < n
        invariant
            1 <= i <= n,
            n == dims@.len(),
            tail == dims@.skip(1),
            tensor::product_fits(tail),
            p as nat == tensor::product(tail.take(i - 1)),
        decreases n - i,
    {
        proof {
            assert(tail.take(i as int).drop_last() =~= tail.take(i - 1));
            assert(tail.take(i as int).last() == dims@[i as int]);
            assert(tensor::product(tail.take(i as int)) <= u64::MAX);
        }
        p = p * dims[i];
        i = i + 1;
    }
    assert(tail.take(n - 1) =~= tail);
    (
        dims[0],
        if p == 0 {
            1
        } else {
            p
        },
    )
}

/// Rows that each of `workers` workers takes.
pub open spec fn chunk_rows(rows: nat, workers: nat) -> nat {
    tensor::ceil_div(rows, workers)
}

/// The row ranges of the workers, in order. The last may be shorter, and workers that would have
/// nothing to do have no range.
pub fn chunks(rows: usize, workers: usize) -> (r: Vec<(usize, usize)>)
    requires
        workers > 0,
    ensures
        r@.len() <= workers,
        forall|c: int|
            0 <= c < r@.len() ==> {
                &&& (#[trigger] r@[c]).0 == c * chunk_rows(rows as nat, workers as nat)
                &&& r@[c].0 < r@[c].1
                &&& r@[c].1 == if c == r@.len() - 1 {
                    rows as int
                } else {
                    (c + 1) * chunk_rows(rows as nat, workers as nat)
                }
            },
        r@.len() == 0 <==> rows == 0,
{
    let mut out: Vec<(usize, usize)> = Vec::new();
    if rows == 0 {
        return out;
    }
    let ghost q = chunk_rows(rows as nat, workers as nat) as int;
    proof {
        tensor::lemma_ceil_div(rows as nat, workers as nat);
        assert(q > 0) by {
            if q == 0 {
                assert(q * workers == 0) by (nonlinear_arith)
                    requires
                        q == 0,
                ;
            }
        }
        lemma_mod_decreases(rows as nat, workers as nat);
        assert(rows as int % workers as int == 0 ==> q == rows as int / workers as int);
        assert(q <= rows) by {
            lemma_div_is_ordered_by_denominator(rows as int, 1, workers as int);
            lemma_fundamental_div_mod(rows as int, workers as int);
            if rows as int / workers as int == rows && rows as int % workers as int != 0 {
                assert(workers * rows >= rows) by (nonlinear_arith)
                    requires
                        workers >= 1,
                        rows >= 0,
                ;
            }
        }
    }
    let step: usize = rows / workers + if rows % workers == 0 {
        0
    } else {
        1
    };
    let mut lo: usize = 0;
    assert(0 * q == 0) by (nonlinear_arith);
    assert(out@.len() * q == 0);
    while rows - lo > step
        invariant
            lo == out@.len() * q,
            step == q,
            0 < q,
            lo < rows,
            forall|c: int|
                0 <= c < out@.len() ==> {
                    &&& (#[trigger] out@[c]).0 == c * q
                    &&& out@[c].0 < out@[c].1
                    &&& out@[c].1 == (c + 1) * q
                },
        decreases rows - lo,
    {
        proof {
            let n = out@.len() as int;
            assert((n + 1) * q == n * q + q) by (nonlinear_arith);
        }
        out.push((lo, lo + step));
        lo = lo + step;
    }
    out.push((lo, rows));
    proof {
        let n = out@.len() as int;
        assert((n - 1) * q < workers * q) by {
            assert(workers * q == q * workers) by (nonlinear_arith);
        }
        assert(n - 1 < workers) by (nonlinear_arith)
            requires
                (n - 1) * q < workers * q,
                q > 0,
        ;
    }
    out
}

/// The slice of a row's weights: all of them, or those of the row's slice of the tensor.
pub open spec fn weight_range(n: nat, row: nat, ne1: nat, r: nat) -> (int, int) {
    if n == row {
        (0, n as int)
    } else {
        let e = r / if ne1 == 0 {
            1
        } else {
            ne1
        };
        ((e * row) as int, (e * row + row) as int)
    }
}

/// The weights of row `r` of a tensor whose slices have `ne1` rows each.
pub fn row_weights(w: &[u32], row: usize, ne1: usize, r: usize) -> (s: &[u32])
    requires
        weight_range(w@.len(), row as nat, ne1 as nat, r as nat).1 <= w@.len(),
    ensures
        ({
            let (a, b) = weight_range(w@.len(), row as nat, ne1 as nat, r as nat);
            s@ == w@.subrange(a, b)
        }),
{
    let n: usize = w.len();
    if n == row {
        return slice_subrange(w, 0, n);
    }
    let m: usize = if ne1 == 0 {
        1
    } else {
        ne1
    };
    let e: usize = r / m;
    proof {
        assert(e as nat * row as nat + row <= n);
        assert(e * row <= n);
    }
    let a: usize = e * row;
    slice_subrange(w, a, a + row)
}

/// Every row of a tensor with one set of weights per slice finds its weights.
pub proof fn law_row_weights(row: nat, ne1: nat, slices: nat, r: nat)
    requires
        r < ne1 * slices,
    ensures
        weight_range(row * slices, row, ne1, r).1 <= row * slices,
        weight_range(row, row, ne1, r) == (0int, row as int),
{
    assert(ne1 > 0) by {
        if ne1 == 0 {
            assert(ne1 * slices == 0) by (nonlinear_arith)
                requires
                    ne1 == 0,
            ;
        }
    }
    let e = r / ne1;
    lemma_fundamental_div_mod(r as int, ne1 as int);
    assert(e < slices) by (nonlinear_arith)
        requires
            r == ne1 * e + (r as int % ne1 as int),
            0 <= r as int % ne1 as int,
            r < ne1 * slices,
            ne1 > 0,
    ;
    assert(e * row + row <= row * slices) by (nonlinear_arith)
        requires
            e + 1 <= slices,
    ;
}

/// The tensors of a rewritten file, with the bytes of each, and where the next one goes.
pub struct OutTable {
    pub tensors: Vec<TensorInfo>,
    pub sizes: Vec<u64>,
    pub next: u64,
    pub align: u64,
}

impl OutTable {
    /// Each tensor starts at a multiple of the alignment, behind the end of the one before.
    pub open spec fn wf(self) -> bool {
        &&& self.align > 0
        &&& self.sizes@.len() == self.tensors@.len()
        &&& self.next as int % self.align as int == 0
        &&& forall|i: int|
            0 <= i < self.tensors@.len() ==> {
                &&& (#[trigger] self.tensors@[i]).offset as int % self.align as int == 0
                &&& self.tensors@[i].offset + self.sizes@[i] <= self.next
            }
        &&& forall|i: int, j: int|
            0 <= i < j < self.tensors@.len() ==> (#[trigger] self.tensors@[i]).offset + self.sizes@[i]
                <= (#[trigger] self.tensors@[j]).offset
    }

    pub fn new(align: u64) -> (r: OutTable)
        requires
            align > 0,
        ensures
            r.wf(),
            r.tensors@.len() == 0,
            r.next == 0,
            r.align == align,
    {
        proof {
            lemma_small_mod(0, align as nat);
        }
        OutTable { tensors: Vec::new(), sizes: Vec::new(), next: 0, align }
    }

    /// Places a tensor of `nbytes` bytes and returns the zero bytes to write behind it.
    pub fn push(&mut self, name: String, dims: Vec<u64>, ty: TensorType, nbytes: u64) -> (pad: u64)
        requires
            old(self).wf(),
            grammar::round_up((old(self).next + nbytes) as nat, old(self).align as nat) <= u64::MAX,
        ensures
            final(self).wf(),
            final(self).align == old(self).align,
            final(self).tensors@ == old(self).tensors@.push(
                TensorInfo { name, dims, ty, offset: old(self).next },
            ),
            final(self).sizes@ == old(self).sizes@.push(nbytes),
            final(self).next as nat == grammar::round_up(
                (old(self).next + nbytes) as nat,
                old(self).align as nat,
            ),
            pad == final(self).next - old(self).next - nbytes,
            pad < old(self).align,
    {
        let a: u64 = self.align;
        proof {
            tensor::lemma_ceil_div((self.next + nbytes) as nat, a as nat);
            lemma_mod_multiples_basic(
                tensor::ceil_div((self.next + nbytes) as nat, a as nat) as int,
                a as int,
            );
        }
        let end: u64 = self.next + nbytes;
        let next: u64 = round_up(end, a);
        self.tensors.push(TensorInfo { name, dims, ty, offset: self.next });
        self.sizes.push(nbytes);
        self.next = next;
        next - end
    }
}

/// A number below or at the default alignment that is a power of two divides the alignment of the
/// output, and a greater one is it.
pub proof fn law_alignment(a: u64)
    requires
        grammar::is_pow2(a as nat),
    ensures
        a > 0,
        out_alignment(a) as int % a as int == 0,
{
    if a <= 32 {
        reveal_with_fuel(grammar::is_pow2, 7);
        assert(a == 1 || a == 2 || a == 4 || a == 8 || a == 16 || a == 32);
        assert(32int % 1 == 0 && 32int % 2 == 0 && 32int % 4 == 0);
        assert(32int % 8 == 0 && 32int % 16 == 0 && 32int % 32 == 0);
    } else {
        lemma_mod_self_0(a as int);
    }
}

proof fn lemma_alignment_pow2(m: Map<Seq<char>, Val>)
    ensures
        grammar::is_pow2(grammar::alignment_of(m) as nat),
{
    reveal_with_fuel(grammar::is_pow2, 7);
}

/// Rounding up a multiple changes nothing.
proof fn lemma_round_up_multiple(n: nat, a: nat)
    requires
        a > 0,
        n as int % a as int == 0,
    ensures
        grammar::round_up(n, a) == n,
{
    tensor::lemma_ceil_div(n, a);
    lemma_fundamental_div_mod(n as int, a as int);
    assert(a * (n / a) == (n / a) * a) by (nonlinear_arith);
}

proof fn lemma_multiple_chain(n: nat, big: nat, a: nat)
    requires
        a > 0,
        big > 0,
        n as int % big as int == 0,
        big as int % a as int == 0,
    ensures
        n as int % a as int == 0,
{
    lemma_fundamental_div_mod(n as int, big as int);
    lemma_fundamental_div_mod(big as int, a as int);
    let x = n as int / big as int;
    let y = big as int / a as int;
    assert(n == (x * y) * a) by (nonlinear_arith)
        requires
            n == big * x,
            big == a * y,
    ;
    lemma_mod_multiples_basic(x * y, a as int);
}

/// The slack entry and the bookkeeping of a split file do not touch the alignment.
proof fn lemma_same_alignment(m: Map<Seq<char>, Val>, n: nat)
    ensures
        ({
            let p = writer::pad_entry(n);
            grammar::alignment_of(carry::carried(m).insert(p.0, p.1)) == grammar::alignment_of(m)
        }),
{
    reveal_strlit("general.alignment");
    reveal_strlit("pulsar.pad");
    reveal_strlit("split.");
    let k = "general.alignment"@;
    assert("general.alignment"@.len() != "pulsar.pad"@.len());
    assert(!carry::is_split_key(k)) by {
        if carry::is_split_key(k) {
            assert(k.subrange(0, 6)[0] == 'g');
            assert("split."@[0] == 's');
        }
    }
}

/// A rewritten file reads back: its header gives the metadata that was carried over with the slack
/// entry, the tensor table that was written, and exactly the place where the data was put.
pub proof fn law_rewritten_header(
    buf: Seq<u8>,
    source: Map<Seq<char>, Val>,
    m: Seq<(Seq<char>, Val)>,
    ts: Seq<TensorView>,
    mb: Option<u64>,
    data_offset: u64,
    n_total: u64,
)
    requires
        m.len() < grammar::MAX_ENTRIES,
        ts.len() <= grammar::MAX_ENTRIES,
        encode::table_of(m) == carry::carried(source),
        forall|i: int| 0 <= i < m.len() ==> encode::storable((#[trigger] m[i]).1, 0),
        forall|i: int| 0 <= i < ts.len() ==> encode::listable(#[trigger] ts[i]),
        ({
            let start = grammar::round_up(
                reserve(mb, data_offset, n_total),
                out_alignment(grammar::alignment_of(source)) as nat,
            );
            &&& writer::header_size(m, ts) <= start
            &&& encode::stands(
                buf,
                0,
                encode::enc_header(
                    m.push(writer::pad_entry((start - writer::header_size(m, ts)) as nat)),
                    ts,
                ),
            )
        }),
    ensures
        ({
            let start = grammar::round_up(
                reserve(mb, data_offset, n_total),
                out_alignment(grammar::alignment_of(source)) as nat,
            );
            let pad = writer::pad_entry((start - writer::header_size(m, ts)) as nat);
            grammar::header(buf) == Ok::<_, Fault>(
                Header {
                    version: 3,
                    metadata: carry::carried(source).insert(pad.0, pad.1),
                    tensors: ts,
                    alignment: grammar::alignment_of(source),
                    data_offset: start,
                },
            )
        }),
{
    let a = grammar::alignment_of(source);
    let big = out_alignment(a);
    let res = reserve(mb, data_offset, n_total);
    let start = grammar::round_up(res, big as nat);
    let n = (start - writer::header_size(m, ts)) as nat;
    let pad = writer::pad_entry(n);
    let all = m.push(pad);
    assert(all.drop_last() =~= m);
    assert(encode::table_of(all) == encode::table_of(m).insert(pad.0, pad.1));
    assert forall|i: int| 0 <= i < all.len() implies encode::storable((#[trigger] all[i]).1, 0) by {
        if i < m.len() {
            assert(all[i] == m[i]);
        }
    }
    encode::law_header_roundtrip(buf, all, ts);
    lemma_same_alignment(source, n);
    lemma_alignment_pow2(source);
    law_alignment(a);
    lemma_mod_multiples_basic(tensor::ceil_div(res, big as nat) as int, big as int);
    lemma_multiple_chain(start, big as nat, a as nat);
    writer::law_slack(m, ts, n);
    lemma_round_up_multiple(start, a as nat);
}

/// The complaint about a rewritten file that lost tensors.
pub open spec fn self_check_text(found: nat, expected: nat) -> Seq<char> {
    "self-check: output has "@ + text::decimal(found) + " tensors, expected "@ + text::decimal(
        expected,
    )
}

/// Holds the number of tensors read back against the number written.
pub fn self_check(found: usize, expected: usize) -> (r: Result<(), String>)
    ensures
        r is Ok <==> found == expected,
        r matches Err(e) ==> e@ == self_check_text(found as nat, expected as nat),
{
    if found == expected {
        return Ok(());
    }
    let mut m = String::new();
    push_str(&mut m, "self-check: output has ");
    push_decimal(&mut m, found as u64);
    push_str(&mut m, " tensors, expected ");
    push_decimal(&mut m, expected as u64);
    assert(m@ =~= self_check_text(found as nat, expected as nat));
    Err(m)
}

/// Bytes of the first attempt to read a header.
pub const FIRST_HEAD: usize = 0x200_0000;

/// How many bytes to read next for a header of which `got` out of `asked` bytes were read: twice as
/// many where all were there and the header still was cut short, else none.
pub fn next_head(truncated: bool, got: usize, asked: usize) -> (r: Option<usize>)
    requires
        got <= asked <= usize::MAX / 2,
    ensures
        r == if truncated && got == asked {
            Some((2 * asked) as usize)
        } else {
            None
        },
{
    if truncated && got == asked {
        Some(2 * asked)
    } else {
        None
    }
}

} // verus!
