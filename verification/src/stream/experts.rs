//! The per-expert reads of a mixture-of-experts model.
use vstd::prelude::*;

use super::plan::Read;
use crate::gguf::grammar::{Header, TensorView};
use crate::gguf::model;
use crate::gguf::parse;
use crate::gguf::tensor;
use crate::gguf::{Gguf, TensorInfo};
use crate::text;
use crate::text::{owned, push_decimal, push_str, to_chars};

verus! {

/// The name of a tensor that holds one slab per expert.
pub open spec fn is_exps(name: Seq<char>) -> bool {
    "_exps.weight"@.is_suffix_of(name)
}

/// A list of numbers in square brackets.
pub open spec fn list_text(d: Seq<u64>) -> Seq<char> {
    "["@ + items_text(d) + "]"@
}

/// Numbers separated by commas.
pub open spec fn items_text(d: Seq<u64>) -> Seq<char>
    decreases d.len(),
{
    if d.len() == 0 {
        Seq::empty()
    } else if d.len() == 1 {
        text::decimal(d[0] as nat)
    } else {
        items_text(d.drop_last()) + ", "@ + text::decimal(d.last() as nat)
    }
}

/// The complaint about a slab of other extents.
pub open spec fn dims_fault(t: TensorView) -> Seq<char> {
    t.name + ": unexpected exps dims "@ + list_text(t.dims)
}

/// The complaint about a slab of a type without layout.
pub open spec fn type_fault(t: TensorView) -> Seq<char> {
    t.name + ": unmodeled type Other("@ + text::decimal(t.ty.id() as nat) + ")"@
}

/// The complaint about an expert that the file does not cover.
pub open spec fn eof_fault(name: Seq<char>, e: nat) -> Seq<char> {
    name + ": expert "@ + text::decimal(e) + " beyond eof"@
}

/// The reads of experts `e` to `n` of a tensor at `base`, behind those in `acc`: expert `i` has
/// `bytes` bytes at `base + i * bytes`. The first expert that ends behind `model_len` is reported.
pub open spec fn slab_reads(
    name: Seq<char>,
    base: int,
    bytes: nat,
    e: nat,
    n: nat,
    model_len: nat,
    acc: Seq<Read>,
) -> Result<Seq<Read>, Seq<char>>
    decreases n - e,
{
    if e >= n {
        Ok(acc)
    } else if base + e * bytes + bytes > model_len {
        Err(eof_fault(name, e))
    } else {
        slab_reads(
            name,
            base,
            bytes,
            e + 1,
            n,
            model_len,
            acc.push(Read { offset: (base + e * bytes) as u64, len: bytes as u64 }),
        )
    }
}

/// The reads of all expert slabs of the tensors from index `k` on, behind those in `acc`.
pub open spec fn table_reads(
    h: Header,
    k: int,
    n_expert: nat,
    model_len: nat,
    acc: Seq<Read>,
) -> Result<Seq<Read>, Seq<char>>
    decreases h.tensors.len() - k,
{
    if k < 0 || k >= h.tensors.len() {
        Ok(acc)
    } else {
        let t = h.tensors[k];
        if !is_exps(t.name) {
            table_reads(h, k + 1, n_expert, model_len, acc)
        } else if t.dims.len() != 3 || t.dims[2] != n_expert {
            Err(dims_fault(t))
        } else {
            match tensor::slab_bytes(t.dims, t.ty) {
                None => Err(type_fault(t)),
                Some(b) => match slab_reads(
                    t.name,
                    h.data_offset + t.offset,
                    b,
                    0,
                    n_expert,
                    model_len,
                    acc,
                ) {
                    Err(e) => Err(e),
                    Ok(acc) => table_reads(h, k + 1, n_expert, model_len, acc),
                },
            }
        }
    }
}

/// The per-expert reads of a model.
pub open spec fn expert_plan(h: Header, model_len: nat) -> Result<Seq<Read>, Seq<char>> {
    match model::arch_number(h.metadata, "expert_count"@) {
        None => Err("missing expert_count"@),
        Some(n) => match table_reads(h, 0, n as nat, model_len, Seq::empty()) {
            Err(e) => Err(e),
            Ok(v) => if v.len() == 0 {
                Err("no *_exps.weight tensors found"@)
            } else {
                Ok(v)
            },
        },
    }
}

/// Whether a name marks a tensor that holds one slab per expert.
fn exps(name: &str) -> (r: bool)
    ensures
        r == is_exps(name@),
{
    let cs = to_chars(name);
    let suffix = to_chars("_exps.weight");
    let n: usize = cs.len();
    let k: usize = suffix.len();
    if n < k {
        return false;
    }
    let mut i: usize = 0;
    while i < k
        invariant
            i <= k <= n,
            n == cs@.len(),
            k == suffix@.len(),
            forall|j: int| 0 <= j < i ==> #[trigger] cs@[n - k + j] == suffix@[j],
            cs@ == name@,
            suffix@ == "_exps.weight"@,
        decreases k - i,
    {
        if cs[n - k + i] != suffix[i] {
            proof {
                if is_exps(name@) {
                    assert(name@.subrange(n - k, n as int)[i as int] == suffix@[i as int]);
                }
            }
            return false;
        }
        i = i + 1;
    }
    assert forall|j: int| 0 <= j < k implies name@.subrange(n - k, n as int)[j] == suffix@[j] by {
        assert(cs@[n - k + j] == suffix@[j]);
    }
    assert(name@.subrange(n - k, n as int) =~= "_exps.weight"@);
    true
}

/// Appends a list of numbers in square brackets.
fn push_list(out: &mut String, d: &Vec<u64>)
    ensures
        final(out)@ == old(out)@ + list_text(d@),
{
    push_str(out, "[");
    let ghost start = out@;
    let mut i: usize = 0;
    assert(d@.take(0) =~= Seq::<u64>::empty());
    assert(out@ =~= start + items_text(d@.take(0)));
    while i < d.len()
        invariant
            i <= d@.len(),
            out@ == start + items_text(d@.take(i as int)),
        decreases d@.len() - i,
    {
        let ghost t = d@.take(i + 1);
        assert(t.drop_last() =~= d@.take(i as int));
        if i > 0 {
            push_str(out, ", ");
        }
        push_decimal(out, d[i]);
        assert(out@ =~= start + items_text(t));
        i = i + 1;
    }
    assert(d@.take(i as int) =~= d@);
    push_str(out, "]");
    assert(out@ =~= old(out)@ + list_text(d@));
}

/// Appends the reads of one tensor.
fn push_slabs(
    out: &mut Vec<Read>,
    name: &String,
    data_offset: u64,
    offset: u64,
    bytes: u64,
    n: u64,
    model_len: u64,
) -> (r: Result<(), String>)
    ensures
        match r {
            Ok(()) => slab_reads(
                name@,
                data_offset + offset,
                bytes as nat,
                0,
                n as nat,
                model_len as nat,
                old(out)@,
            ) == Ok::<_, Seq<char>>(final(out)@),
            Err(e) => slab_reads(
                name@,
                data_offset + offset,
                bytes as nat,
                0,
                n as nat,
                model_len as nat,
                old(out)@,
            ) == Err::<Seq<Read>, _>(e@),
        },
{
    let base: u128 = data_offset as u128 + offset as u128;
    let mut at: u128 = base;
    let mut e: u64 = 0;
    while e < n
        invariant
            e <= n,
            base == data_offset + offset,
            at == base + e * bytes,
            e > 0 ==> at <= model_len,
            slab_reads(
                name@,
                base as int,
                bytes as nat,
                0,
                n as nat,
                model_len as nat,
                old(out)@,
            ) == slab_reads(
                name@,
                base as int,
                bytes as nat,
                e as nat,
                n as nat,
                model_len as nat,
                out@,
            ),
        decreases n - e,
    {
        let end: u128 = at + bytes as u128;
        if end > model_len as u128 {
            let mut msg = String::new();
            push_str(&mut msg, name.as_str());
            push_str(&mut msg, ": expert ");
            push_decimal(&mut msg, e);
            push_str(&mut msg, " beyond eof");
            assert(msg@ =~= eof_fault(name@, e as nat));
            return Err(msg);
        }
        assert((e + 1) * bytes == e * bytes + bytes) by (nonlinear_arith);
        out.push(Read { offset: at as u64, len: bytes });
        at = end;
        e = e + 1;
    }
    Ok(())
}

/// Every expert slab has a 64-bit size.
pub open spec fn slabs_fit(ts: Seq<TensorInfo>) -> bool {
    forall|i: int|
        #![trigger ts[i]]
        0 <= i < ts.len() && ts[i].dims@.len() == 3 ==> {
            &&& ts[i].ty.row_size(ts[i].dims@[0] as nat) matches Some(b) ==> b <= u64::MAX
            &&& tensor::slab_bytes(ts[i].dims@, ts[i].ty) matches Some(b) ==> b <= u64::MAX
        }
}

/// Whether every slab of experts has a 64-bit size.
pub fn slabs_counted(ts: &Vec<TensorInfo>) -> (r: bool)
    ensures
        r == slabs_fit(ts@),
{
    let n: usize = ts.len();
    let mut i: usize = 0;
    while i < n
        invariant
            i <= n,
            n == ts@.len(),
            slabs_fit(ts@.take(i as int)),
        decreases n - i,
    {
        if !ts[i].slab_counted() {
            return false;
        }
        assert forall|k: int|
            #![trigger ts@.take(i + 1)[k]]
            0 <= k < i + 1 && ts@.take(i + 1)[k].dims@.len() == 3 implies {
            let t = ts@.take(i + 1)[k];
            &&& t.ty.row_size(t.dims@[0] as nat) matches Some(b) ==> b <= u64::MAX
            &&& tensor::slab_bytes(t.dims@, t.ty) matches Some(b) ==> b <= u64::MAX
        } by {
            if k < i {
                assert(ts@.take(i as int)[k] == ts@.take(i + 1)[k]);
            }
        }
        i = i + 1;
    }
    assert(ts@.take(n as int) =~= ts@);
    true
}

/// Builds the per-expert slab reads of a streamed model: for each tensor named `*_exps.weight`, in
/// table order, one read per expert.
pub fn expert_reads(g: &Gguf, model_len: u64) -> (r: Result<Vec<Read>, String>)
    requires
        slabs_fit(g.tensors@),
    ensures
        match r {
            Ok(v) => expert_plan(g@, model_len as nat) == Ok::<_, Seq<char>>(v@),
            Err(e) => expert_plan(g@, model_len as nat) == Err::<Seq<Read>, _>(e@),
        },
{
    let n_expert: u64 = match g.arch_u64("expert_count") {
        Some(n) => n,
        None => {
            return Err(owned("missing expert_count"));
        },
    };
    let ghost h = g@;
    let mut out: Vec<Read> = Vec::new();
    let mut k: usize = 0;
    while k < g.tensors.len()
        invariant
            k <= g.tensors@.len(),
            slabs_fit(g.tensors@),
            h == g@,
            model::arch_number(h.metadata, "expert_count"@) == Some(n_expert),
            table_reads(h, 0, n_expert as nat, model_len as nat, Seq::empty()) == table_reads(
                h,
                k as int,
                n_expert as nat,
                model_len as nat,
                out@,
            ),
        decreases g.tensors@.len() - k,
    {
        let t = &g.tensors[k];
        assert(h.tensors[k as int] == parse::info_view(*t));
        if exps(t.name.as_str()) {
            if t.dims.len() != 3 || t.dims[2] != n_expert {
                let mut msg = String::new();
                push_str(&mut msg, t.name.as_str());
                push_str(&mut msg, ": unexpected exps dims ");
                push_list(&mut msg, &t.dims);
                assert(msg@ =~= dims_fault(h.tensors[k as int]));
                return Err(msg);
            }
            let bytes: u64 = match t.slab_expert_byte_size() {
                Some(b) => b,
                None => {
                    let mut msg = String::new();
                    push_str(&mut msg, t.name.as_str());
                    push_str(&mut msg, ": unmodeled type Other(");
                    push_decimal(&mut msg, t.ty.to_id() as u64);
                    push_str(&mut msg, ")");
                    assert(msg@ =~= type_fault(h.tensors[k as int]));
                    return Err(msg);
                },
            };
            match push_slabs(
                &mut out,
                &t.name,
                g.data_offset,
                t.offset,
                bytes,
                n_expert,
                model_len,
            ) {
                Ok(()) => {},
                Err(e) => {
                    return Err(e);
                },
            }
        }
        k = k + 1;
    }
    if out.len() == 0 {
        return Err(owned("no *_exps.weight tensors found"));
    }
    Ok(out)
}

/// The reads of `n` experts of one tensor: expert `i` stands `i` slabs behind the first, each
/// read lies within the file, and no two overlap.
pub proof fn law_slab_reads(
    name: Seq<char>,
    base: int,
    bytes: nat,
    n: nat,
    model_len: nat,
    acc: Seq<Read>,
)
    requires
        0 <= base,
        model_len <= u64::MAX,
    ensures
        slab_reads(name, base, bytes, 0, n, model_len, acc) matches Ok(v) ==> {
            &&& v.len() == acc.len() + n
            &&& v.take(acc.len() as int) == acc
            &&& forall|p: int|
                acc.len() <= p < v.len() ==> (#[trigger] v[p]).offset == base + (p - acc.len())
                    * bytes && v[p].len == bytes && v[p].offset + bytes <= model_len
            &&& forall|p: int, q: int|
                acc.len() <= p < q < v.len() ==> (#[trigger] v[p]).offset + bytes <= (
                #[trigger] v[q]).offset
        },
        slab_reads(name, base, bytes, 0, n, model_len, acc) is Ok <==> n == 0 || base + n * bytes
            <= model_len,
{
    lemma_slab_reads(name, base, bytes, 0, n, model_len, acc);
    if let Ok(v) = slab_reads(name, base, bytes, 0, n, model_len, acc) {
        assert forall|p: int, q: int| acc.len() <= p < q < v.len() implies (
        #[trigger] v[p]).offset + bytes <= (#[trigger] v[q]).offset by {
            let i = p - acc.len();
            let j = q - acc.len();
            assert(i * bytes + bytes <= j * bytes) by (nonlinear_arith)
                requires
                    i < j,
                    bytes >= 0,
            ;
        }
    }
}

proof fn lemma_slab_reads(
    name: Seq<char>,
    base: int,
    bytes: nat,
    e: nat,
    n: nat,
    model_len: nat,
    acc: Seq<Read>,
)
    requires
        0 <= base,
        model_len <= u64::MAX,
        e <= n,
    ensures
        slab_reads(name, base, bytes, e, n, model_len, acc) matches Ok(v) ==> {
            &&& v.len() == acc.len() + (n - e)
            &&& v.take(acc.len() as int) == acc
            &&& forall|p: int|
                acc.len() <= p < v.len() ==> (#[trigger] v[p]).offset == base + (p - acc.len() + e)
                    * bytes && v[p].len == bytes && v[p].offset + bytes <= model_len
        },
        slab_reads(name, base, bytes, e, n, model_len, acc) is Ok <==> e == n || base + n * bytes
            <= model_len,
    decreases n - e,
{
    if e < n {
        assert((e + 1) * bytes == e * bytes + bytes) by (nonlinear_arith);
        assert(e * bytes + bytes <= n * bytes) by (nonlinear_arith)
            requires
                e < n,
        ;
        assert(0 <= e * bytes) by (nonlinear_arith);
        if base + e * bytes + bytes <= model_len {
            let r = Read { offset: (base + e * bytes) as u64, len: bytes as u64 };
            lemma_slab_reads(name, base, bytes, e + 1, n, model_len, acc.push(r));
            if let Ok(v) = slab_reads(name, base, bytes, e + 1, n, model_len, acc.push(r)) {
                assert(v.take(acc.len() as int) =~= v.take(acc.len() as int + 1).take(
                    acc.len() as int,
                ));
                assert(v[acc.len() as int] == v.take(acc.len() as int + 1)[acc.len() as int]);
            }
        }
    } else {
        assert(acc.take(acc.len() as int) =~= acc);
    }
}

} // verus!
