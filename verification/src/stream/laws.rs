//! What the reads of a plan cover, what they cost, and how completions are told apart.
use vstd::prelude::*;

use super::bracket;
use super::bracket::Request;
use super::buffer::Aligned;
use super::experts;
use super::fetch;
use super::pipeline;
use super::pipeline::{Done, Pipeline, Slot, Submission};
use super::plan;
use super::plan::{Line, Read};
use super::sample;
use crate::gguf::grammar::{Header, TensorView};
use crate::gguf::model;
use crate::gguf::tensor;
use crate::text;

verus! {

/// Expert tensors are those whose names end in the word for them.
pub proof fn law_expert_names(a: Seq<char>, name: Seq<char>)
    ensures
        experts::is_exps(a + "_exps.weight"@),
        experts::is_exps(name) ==> exists|p: Seq<char>| name == #[trigger] (p + "_exps.weight"@),
{
    let w = "_exps.weight"@;
    let s = a + w;
    assert(w.is_suffix_of(s)) by {
        assert(w =~= s.subrange(s.len() - w.len(), s.len() as int));
    }
    if experts::is_exps(name) {
        let p = name.take(name.len() - w.len());
        assert(name =~= p + w);
    }
}

/// The read of expert `e` of tensor `k`.
pub open spec fn expert_read(h: Header, k: int, e: nat) -> Read {
    let t = h.tensors[k];
    let b = tensor::slab_bytes(t.dims, t.ty)->0;
    Read { offset: (h.data_offset + t.offset + e * b) as u64, len: b as u64 }
}

/// A read is that of an expert of a tensor from `k` on.
pub open spec fn reads_expert(h: Header, k: int, n: nat, r: Read) -> bool {
    exists|i: int, e: nat|
        k <= i < h.tensors.len() && experts::is_exps(h.tensors[i].name) && e < n && r
            == #[trigger] expert_read(h, i, e)
}

proof fn lemma_slab(
    name: Seq<char>,
    base: int,
    bytes: nat,
    e: nat,
    n: nat,
    model_len: nat,
    acc: Seq<Read>,
)
    requires
        e <= n,
    ensures
        experts::slab_reads(name, base, bytes, e, n, model_len, acc) matches Ok(v) ==> {
            &&& v.len() == acc.len() + n - e
            &&& forall|p: int| 0 <= p < acc.len() ==> v[p] == acc[p]
            &&& forall|q: nat|
                e <= q < n ==> v[acc.len() + q - e] == (Read {
                    offset: #[trigger] ((base + q * bytes) as u64),
                    len: bytes as u64,
                })
        },
    decreases n - e,
{
    if e < n && base + e * bytes + bytes <= model_len {
        let r = Read { offset: (base + e * bytes) as u64, len: bytes as u64 };
        lemma_slab(name, base, bytes, e + 1, n, model_len, acc.push(r));
        if let Ok(v) = experts::slab_reads(name, base, bytes, e, n, model_len, acc) {
            assert(v[acc.len() as int] == acc.push(r)[acc.len() as int]);
            assert forall|p: int| 0 <= p < acc.len() implies v[p] == acc[p] by {
                assert(v[p] == acc.push(r)[p]);
            }
            assert forall|q: nat| e <= q < n implies v[acc.len() + q - e] == (Read {
                offset: #[trigger] ((base + q * bytes) as u64),
                len: bytes as u64,
            }) by {
                if q > e {
                    assert(v[acc.push(r).len() + q - (e + 1)] == (Read {
                        offset: (base + q * bytes) as u64,
                        len: bytes as u64,
                    }));
                }
            }
        }
    }
}

proof fn lemma_table(h: Header, k: int, n: nat, model_len: nat, acc: Seq<Read>)
    requires
        0 <= k <= h.tensors.len(),
    ensures
        experts::table_reads(h, k, n, model_len, acc) matches Ok(v) ==> {
            &&& v.len() >= acc.len()
            &&& forall|p: int| 0 <= p < acc.len() ==> v[p] == acc[p]
            &&& forall|i: int, e: nat|
                k <= i < h.tensors.len() && experts::is_exps(h.tensors[i].name) && e < n
                    ==> v.contains(#[trigger] expert_read(h, i, e))
            &&& forall|p: int|
                acc.len() <= p < v.len() ==> reads_expert(h, k, n, #[trigger] v[p])
        },
    decreases h.tensors.len() - k,
{
    if k < h.tensors.len() {
        let t = h.tensors[k];
        if !experts::is_exps(t.name) {
            lemma_table(h, k + 1, n, model_len, acc);
            if let Ok(v) = experts::table_reads(h, k, n, model_len, acc) {
                assert forall|p: int| acc.len() <= p < v.len() implies reads_expert(
                    h,
                    k,
                    n,
                    #[trigger] v[p],
                ) by {
                    assert(reads_expert(h, k + 1, n, v[p]));
                }
            }
        } else if t.dims.len() == 3 && t.dims[2] == n {
            if let Some(b) = tensor::slab_bytes(t.dims, t.ty) {
                let base = h.data_offset + t.offset;
                lemma_slab(t.name, base, b, 0, n, model_len, acc);
                if let Ok(mid) = experts::slab_reads(t.name, base, b, 0, n, model_len, acc) {
                    lemma_table(h, k + 1, n, model_len, mid);
                    if let Ok(v) = experts::table_reads(h, k, n, model_len, acc) {
                        assert forall|p: int| 0 <= p < acc.len() implies v[p] == acc[p] by {
                            assert(v[p] == mid[p]);
                        }
                        assert forall|i: int, e: nat|
                            k <= i < h.tensors.len() && experts::is_exps(h.tensors[i].name) && e
                                < n implies v.contains(#[trigger] expert_read(h, i, e)) by {
                            if i == k {
                                let at = acc.len() + e;
                                assert(mid[at as int] == (Read {
                                    offset: (base + e * b) as u64,
                                    len: b as u64,
                                }));
                                assert(v[at as int] == mid[at as int]);
                            }
                        }
                        assert forall|p: int| acc.len() <= p < v.len() implies reads_expert(
                            h,
                            k,
                            n,
                            #[trigger] v[p],
                        ) by {
                            if p < mid.len() {
                                let e = (p - acc.len()) as nat;
                                assert(mid[acc.len() + e - 0] == (Read {
                                    offset: (base + e * b) as u64,
                                    len: b as u64,
                                }));
                                assert(v[p] == mid[p]);
                                assert(v[p] == expert_read(h, k, e));
                            } else {
                                assert(reads_expert(h, k + 1, n, v[p]));
                            }
                        }
                    }
                }
            }
        }
    }
}

/// The plan of a model reads every expert of every expert tensor, whole and where it lies, and
/// nothing else. It needs the number of experts in the metadata.
pub proof fn law_plan_reads_experts(h: Header, model_len: nat, i: int, e: nat, p: int)
    ensures
        experts::expert_plan(h, model_len) matches Ok(v) ==> {
            &&& v.len() > 0
            &&& model::arch_number(h.metadata, "expert_count"@) matches Some(n) ==> {
                &&& 0 <= i < h.tensors.len() && experts::is_exps(h.tensors[i].name) && e < n
                    ==> v.contains(expert_read(h, i, e))
                &&& 0 <= p < v.len() ==> reads_expert(h, 0, n as nat, v[p])
            }
        },
        model::arch_number(h.metadata, "expert_count"@) is None ==> experts::expert_plan(
            h,
            model_len,
        ) is Err,
{
    if let Some(n) = model::arch_number(h.metadata, "expert_count"@) {
        lemma_table(h, 0, n as nat, model_len, Seq::empty());
    }
}

/// A request asks the file that holds the first byte for the whole pages around the bytes, and its
/// buffer has 256 bytes to spare.
pub proof fn law_request(bases: Seq<u64>, r: Read, q: Request)
    requires
        bases.len() > 0,
        bracket::asks_for(bases, r, q),
        bases[0] <= r.offset,
    ensures
        bases[q.file as int] <= r.offset,
        q.file + 1 < bases.len() ==> r.offset < bases[q.file + 1],
        q.bracket.aligned_off % 4096 == 0,
        q.bracket.disk_len % 4096 == 0,
        bases[q.file as int] + q.bracket.aligned_off + q.bracket.payload_off == r.offset,
        q.bracket.payload_off < 4096,
        q.bracket.payload_off + r.len <= q.bracket.disk_len,
        q.bracket.disk_len < q.bracket.payload_off + r.len + 4096,
        q.cap == q.bracket.disk_len + 256,
{
    bracket::law_bracket_covers((r.offset - bases[q.file as int]) as nat, r.len as nat, 4096);
}

/// Files follow one another: each begins where those before it end.
pub proof fn law_bases(lens: Seq<u64>, bases: Seq<u64>, i: int)
    requires
        bracket::bases_of(lens, bases),
        0 <= i,
        i + 1 < lens.len(),
    ensures
        bases[0] == 0,
        bases[i + 1] == bases[i] + lens[i],
{
}

/// The generator is a xor-shift of 64 bits by 13, 7 and 17, and each state follows from the one
/// before it.
pub proof fn law_generator(x: u64, n: nat)
    ensures
        sample::next_state(x) == ((x ^ (x << 13)) ^ ((x ^ (x << 13)) >> 7)) ^ (((x ^ (x << 13)) ^ ((x
            ^ (x << 13)) >> 7)) << 17),
        sample::state_after(x, 0) == x,
        sample::state_after(x, n + 1) == sample::next_state(sample::state_after(x, n)),
{
}

/// What is read from disk is at least what is asked for, in whole pages, and less than a page more at
/// either end of each read.
pub proof fn law_disk_cost(reads: Seq<Read>, n: int)
    requires
        0 <= n <= reads.len(),
    ensures
        sample::payload(reads, n) <= sample::disk(reads, n),
        sample::disk(reads, n) <= sample::payload(reads, n) + 8192 * n,
        sample::disk(reads, n) % 4096 == 0,
        n < reads.len() ==> sample::payload(reads, n + 1) == sample::payload(reads, n)
            + reads[n].len,
        sample::payload(reads, 0) == 0,
    decreases n,
{
    if n > 0 {
        law_disk_cost(reads, n - 1);
        let r = reads[n - 1];
        bracket::law_bracket_covers(r.offset as nat, r.len as nat, 4096);
        let b = bracket::bracket_of(r.offset as nat, r.len as nat, 4096);
        assert(b.2 <= r.len + 8192);
        assert(sample::disk(reads, n) == sample::disk(reads, n - 1) + b.2);
        assert(sample::payload(reads, n) == sample::payload(reads, n - 1) + r.len);
    }
}

/// Requests in flight are counted one by one.
pub proof fn law_occupied<T>(s: Seq<Option<T>>, x: Option<T>)
    ensures
        fetch::occupied(Seq::<Option<T>>::empty()) == 0,
        x is Some ==> fetch::occupied(s.push(x)) == fetch::occupied(s) + 1,
        x is None ==> fetch::occupied(s.push(x)) == fetch::occupied(s),
{
    assert(s.push(x).drop_last() =~= s);
}

/// A tag tells batch and slot: both are read back from it.
pub proof fn law_tag(batch: u64, slot: usize)
    requires
        slot < 0x1_0000_0000,
    ensures
        pipeline::tag(batch, slot) / 0x1_0000_0000 == batch,
        pipeline::tag(batch, slot) % 0x1_0000_0000 == slot,
{
}

/// A completion brings what lies behind the bytes before the payload, never more than was asked for:
/// all of it exactly where the read reached its end.
pub proof fn law_brought(off: usize, len: usize, result: i32)
    ensures
        pipeline::brought(off, len, result) <= len,
        result >= off + len ==> pipeline::brought(off, len, result) == len,
        off <= result < off + len ==> pipeline::brought(off, len, result) == result - off,
        result <= off ==> pipeline::brought(off, len, result) == 0,
{
}

/// A batch that is given up loses what it waits for and what is ready of it; other batches lose
/// nothing.
pub proof fn law_given_up<B>(s: Slot<B>, done: Seq<Done<B>>, d: Done<B>, batch: u64)
    ensures
        pipeline::given_up(Some(s), batch) matches Some(t) && t.wanted == (s.wanted && s.batch_id
            != batch) && t.batch_id == s.batch_id && t.batch_pos == s.batch_pos && t.buf == s.buf
            && t.payload_off == s.payload_off && t.payload_len == s.payload_len,
        pipeline::given_up(None::<Slot<B>>, batch) is None,
        d.batch_id == batch ==> pipeline::of_others(done.push(d), batch) == pipeline::of_others(
            done,
            batch,
        ),
        d.batch_id != batch ==> pipeline::of_others(done.push(d), batch) == pipeline::of_others(
            done,
            batch,
        ).push(d),
        pipeline::of_others(Seq::<Done<B>>::empty(), batch) == Seq::<Done<B>>::empty(),
{
    assert(done.push(d).drop_last() =~= done);
}

/// A line of a plan ends with a line feed, and a carriage return before it is not part of the line;
/// an empty line says nothing.
pub proof fn law_lines(s: Seq<char>, rest: Seq<char>)
    requires
        forall|i: int| 0 <= i < s.len() ==> #[trigger] s[i] != '\n' && s[i] != '\r',
    ensures
        plan::first_line(s + seq!['\n'] + rest) == s,
        plan::other_lines(s + seq!['\n'] + rest) == rest,
        plan::first_line(s + seq!['\r', '\n'] + rest) == s,
        plan::other_lines(s + seq!['\r', '\n'] + rest) == rest,
        plan::line_of(Seq::empty()) == Line::Blank,
{
    let a = s + seq!['\n'] + rest;
    let n = s.len() as int;
    assert forall|i: int| 0 <= i < n implies #[trigger] a[i] != '\n' by {
        assert(a[i] == s[i]);
    }
    assert(a[n] == '\n');
    plan::lemma_line_len_is(a, n);
    if n > 0 {
        assert(a[n - 1] == s[n - 1]);
    }
    assert(a.take(n) =~= s);
    assert(a.skip(n + 1) =~= rest);
    let b = s + seq!['\r', '\n'] + rest;
    assert forall|i: int| 0 <= i < n + 1 implies #[trigger] b[i] != '\n' by {
        if i < n {
            assert(b[i] == s[i]);
        } else {
            assert(b[i] == '\r');
        }
    }
    assert(b[n + 1] == '\n');
    plan::lemma_line_len_is(b, n + 1);
    assert(b[n] == '\r');
    assert(b.take(n) =~= s);
    assert(b.skip(n + 2) =~= rest);
}

/// A line is the offset and the length, in decimal, with a blank between them.
pub proof fn law_line_written(r: Read)
    ensures
        plan::line_text(r) == text::decimal(r.offset as nat) + " "@ + text::decimal(r.len as nat)
            + "\n"@,
{
}

/// A read that is entered takes the last free slot, is asked for in whole pages, and counts as
/// nothing read yet.
pub proof fn law_entered<B>(
    p: Pipeline<B>,
    next: Pipeline<B>,
    sub: Submission,
    r: Read,
    q: Request,
    buf: Aligned<B>,
)
    requires
        p.enters(next, sub, r, q, buf),
        p.free_ok(),
        p.free@.len() > 0,
        p.counters.bytes_disk + q.bracket.disk_len <= u64::MAX,
    ensures
        next.free@ == p.free@.drop_last(),
        next.pool@[p.free@.last() as int] matches Some(s) && s.wanted && s.batch_id == sub.batch_id
            && s.batch_pos == sub.start && s.buf == buf && s.payload_len == r.len as usize
            && s.payload_off == q.bracket.payload_off as usize,
        next.counters.bytes_disk == p.counters.bytes_disk + q.bracket.disk_len,
        next.counters.reads == p.counters.reads,
        next.counters.bytes_payload == p.counters.bytes_payload,
        next.ready@ == p.ready@,
        next.bases@ == p.bases@,
{
    assert(p.free@[p.free@.len() - 1] < p.pool@.len());
}

/// A completed read frees its slot, counts as one and with the bytes it brought, and is ready for
/// its batch, and only where that still waits for it.
pub proof fn law_completed<B>(
    p: Pipeline<B>,
    next: Pipeline<B>,
    batch: u64,
    slot: usize,
    result: i32,
    ns: u64,
)
    requires
        slot < 0x1_0000_0000,
        slot < p.pool@.len(),
        pipeline::tag(batch, slot) <= u64::MAX,
        p.expects(pipeline::tag(batch, slot) as u64),
        p.completes(next, pipeline::tag(batch, slot) as u64, result, ns),
        p.counters.reads < u64::MAX,
        p.counters.bytes_payload + p.pool@[slot as int]->0.payload_len <= u64::MAX,
    ensures
        p.pool@[slot as int] matches Some(s) && s.batch_id == batch,
        next.pool@[slot as int] is None,
        next.free@ == p.free@.push(slot),
        next.counters.reads == p.counters.reads + 1,
        ({
            let s = p.pool@[slot as int]->0;
            let len = pipeline::brought(s.payload_off, s.payload_len, result);
            &&& next.counters.bytes_payload == p.counters.bytes_payload + len
            &&& s.wanted ==> next.ready@.len() == p.ready@.len() + 1 && next.ready@.last().batch_id
                == batch && next.ready@.last().batch_pos == s.batch_pos
                && next.ready@.last().slab.buf == s.buf && next.ready@.last().slab.payload_len
                == len && next.ready@.last().slab.payload_off == s.payload_off
            &&& !s.wanted ==> next.ready@ == p.ready@
        }),
        next.counters.bytes_disk == p.counters.bytes_disk,
{
    law_tag(batch, slot);
    let s = p.pool@[slot as int]->0;
    law_brought(s.payload_off, s.payload_len, result);
}

/// Counting begins at zero.
pub proof fn law_no_counts()
    ensures
        pipeline::no_stats().reads == 0,
        pipeline::no_stats().bytes_payload == 0,
        pipeline::no_stats().bytes_disk == 0,
        pipeline::no_stats().t_submit_ns == 0,
        pipeline::no_stats().t_complete_ns == 0,
        pipeline::no_stats().t_yield_ns == 0,
{
}

/// What is wrong with a plan or with a model is said with the line, the tensor or the expert.
pub proof fn law_complaints(line: Seq<char>, name: Seq<char>, e: nat, t: TensorView, d: Seq<u64>, x: u64)
    ensures
        plan::bad_line_text(line) == "bad plan line: "@ + line,
        experts::eof_fault(name, e) == name + ": expert "@ + text::decimal(e) + " beyond eof"@,
        experts::dims_fault(t) == t.name + ": unexpected exps dims "@ + experts::list_text(t.dims),
        experts::type_fault(t) == t.name + ": unmodeled type Other("@ + text::decimal(
            t.ty.id() as nat,
        ) + ")"@,
        experts::list_text(d) == "["@ + experts::items_text(d) + "]"@,
        d.len() > 0 ==> experts::items_text(d.push(x)) == experts::items_text(d) + ", "@
            + text::decimal(x as nat),
        experts::items_text(seq![x]) == text::decimal(x as nat),
        fetch::plan_args_text() == "qd must be nonzero and align must be a power of two"@,
{
    assert(d.push(x).drop_last() =~= d);
}

/// A tensor holds all `n` experts within the model.
pub open spec fn holds_experts(h: Header, k: int, n: nat, model_len: nat) -> bool {
    let t = h.tensors[k];
    &&& t.dims.len() == 3
    &&& t.dims[2] == n
    &&& tensor::slab_bytes(t.dims, t.ty) matches Some(b) && h.data_offset + t.offset + n * b
        <= model_len
}

proof fn lemma_slab_ok(
    name: Seq<char>,
    base: int,
    bytes: nat,
    e: nat,
    n: nat,
    model_len: nat,
    acc: Seq<Read>,
)
    requires
        e <= n,
        base + n * bytes <= model_len,
    ensures
        experts::slab_reads(name, base, bytes, e, n, model_len, acc) is Ok,
    decreases n - e,
{
    if e < n {
        assert(e * bytes + bytes <= n * bytes) by (nonlinear_arith)
            requires
                e + 1 <= n,
        ;
        lemma_slab_ok(
            name,
            base,
            bytes,
            e + 1,
            n,
            model_len,
            acc.push(Read { offset: (base + e * bytes) as u64, len: bytes as u64 }),
        );
    }
}

proof fn lemma_table_ok(h: Header, k: int, n: nat, model_len: nat, acc: Seq<Read>)
    requires
        0 <= k <= h.tensors.len(),
        forall|i: int|
            k <= i < h.tensors.len() && experts::is_exps((#[trigger] h.tensors[i]).name)
                ==> holds_experts(h, i, n, model_len),
    ensures
        experts::table_reads(h, k, n, model_len, acc) is Ok,
    decreases h.tensors.len() - k,
{
    if k < h.tensors.len() {
        let t = h.tensors[k];
        if experts::is_exps(t.name) {
            assert(holds_experts(h, k, n, model_len));
            let b = tensor::slab_bytes(t.dims, t.ty)->0;
            let base = h.data_offset + t.offset;
            lemma_slab_ok(t.name, base, b, 0, n, model_len, acc);
            let mid = experts::slab_reads(t.name, base, b, 0, n, model_len, acc)->Ok_0;
            lemma_table_ok(h, k + 1, n, model_len, mid);
        } else {
            lemma_table_ok(h, k + 1, n, model_len, acc);
        }
    }
}

/// A model is planned wherever it names its number of experts, has an expert tensor, and every one
/// of those holds all experts within the model.
pub proof fn law_plan_accepted(h: Header, model_len: nat, n: u64, i: int)
    requires
        model::arch_number(h.metadata, "expert_count"@) == Some(n),
        n > 0,
        0 <= i < h.tensors.len(),
        experts::is_exps(h.tensors[i].name),
        forall|j: int|
            0 <= j < h.tensors.len() && experts::is_exps((#[trigger] h.tensors[j]).name)
                ==> holds_experts(h, j, n as nat, model_len),
    ensures
        experts::expert_plan(h, model_len) is Ok,
{
    lemma_table_ok(h, 0, n as nat, model_len, Seq::empty());
    lemma_table(h, 0, n as nat, model_len, Seq::empty());
    let v = experts::table_reads(h, 0, n as nat, model_len, Seq::empty())->Ok_0;
    assert(v.contains(expert_read(h, i, 0)));
}

} // verus!
