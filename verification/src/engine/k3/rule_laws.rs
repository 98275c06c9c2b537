//! What settings choose, which experts are read and from where, what a layer needs, and how buffers
//! are sized.
use vstd::prelude::*;

use super::compare;
use super::compare::Boundary;
use super::compute;
use super::compute::{Brought, Job, Tensors};
use super::dense;
use super::dims;
use super::dims::{K3LayerKind, K3Shape};
use super::forward;
use super::forward::{Placement, Readiness};
use super::kda;
use super::kernels::{Buf, Kernel, Weight};
use super::layer::KimiK3W;
use super::mla;
use super::moe;
use super::moe::{Accumulation, Backend, Path};
use super::runtime;
use super::runtime::RuntimeSizes;
use super::trace;
use super::weights;
use super::weights::Product;
use crate::engine::experts;
use crate::engine::experts::ExpertTensor;
use crate::engine::program::{Step, Term};
use crate::gguf::TensorType;
use crate::stream::Read;
use crate::text;
use crate::words;

verus! {

proof fn lemma_backend_names()
    ensures
        "cpu"@.len() == 3,
        "cuda"@.len() == 4,
        "cpu-q8"@.len() == 6,
{
    reveal_strlit("cpu");
    reveal_strlit("cuda");
    reveal_strlit("cpu-q8");
}

/// A backend is chosen by its own name; without a setting, and with any other, the processor
/// computes in single precision.
pub proof fn law_backend(b: Backend, s: Seq<char>)
    ensures
        moe::backend_of(Some("cuda"@)) == Backend::Cuda,
        moe::backend_of(Some("cpu-q8"@)) == Backend::CpuQ8,
        moe::backend_of(Some("cpu"@)) == Backend::Cpu,
        moe::backend_of(None) == Backend::Cpu,
        s != "cuda"@ && s != "cpu-q8"@ ==> moe::backend_of(Some(s)) == Backend::Cpu,
        moe::backend_of(Some(b.text())) == b,
        Backend::Cpu.text() == "cpu"@,
        Backend::CpuQ8.text() == "cpu-q8"@,
        Backend::Cuda.text() == "cuda"@,
{
    lemma_backend_names();
}

/// How sums are formed is chosen by name.
pub proof fn law_accumulation(s: Seq<char>)
    ensures
        moe::accumulation_of(Some("serial"@)) == Accumulation::Serial,
        moe::accumulation_of(Some("serial-nofma"@)) == Accumulation::SerialNofma,
        moe::accumulation_of(Some("f64-reference"@)) == Accumulation::F64Reference,
        moe::accumulation_of(None) == Accumulation::Current,
        s != "serial"@ && s != "serial-nofma"@ && s != "f64-reference"@ ==> moe::accumulation_of(
            Some(s),
        ) == Accumulation::Current,
{
    reveal_strlit("serial");
    reveal_strlit("serial-nofma");
    reveal_strlit("f64-reference");
    assert("serial"@.len() == 6 && "serial-nofma"@.len() == 12 && "f64-reference"@.len() == 13);
}

/// The experts are computed on the device exactly where it is asked for and their weights are of a
/// kind that it takes: gate and up of the same one of the two, with rows of the same length, and
/// down of either. Otherwise the processor computes them, in 8-bit integers exactly where that is
/// asked for.
pub proof fn law_path(b: Backend, gate: ExpertTensor, up: ExpertTensor, down: ExpertTensor)
    ensures
        moe::path_of(b, gate, up, down) == Path::Gpu <==> b == Backend::Cuda && (gate.quant == 10
            || gate.quant == 11) && up.quant == gate.quant && (down.quant == 10 || down.quant
            == 11) && gate.row_bytes == up.row_bytes,
        moe::path_of(b, gate, up, down) == Path::CpuQ8 <==> b == Backend::CpuQ8,
{
}

/// The kinds of quantized weights are told apart by their GGML ids, and a product on a quantized
/// activation takes two of them.
pub proof fn law_quantized(q: u32, ty: TensorType)
    ensures
        weights::is_direct(q) <==> q == TensorType::Q2K.id() || q == TensorType::Q3K.id(),
        weights::product_of(q) == Product::Direct <==> q == 10 || q == 11,
        weights::product_of(q) == Product::Q8_0 <==> q == 8,
        weights::dense_quant(ty) is Some <==> ty == TensorType::Q2K || ty == TensorType::Q3K || ty
            == TensorType::Q4K || ty == TensorType::Q5K || ty == TensorType::Q6K || ty
            == TensorType::Q8_0,
        weights::dense_quant(ty) matches Some(i) ==> i == ty.id(),
        weights::expert_type(q) is Some <==> q == 2 || q == 8 || 10 <= q <= 14,
        weights::expert_type(q) matches Some(t) ==> t.id() == q,
{
}

/// Blocks of weights are as they should be exactly where their kind is known, the elements fill
/// whole blocks, and the bytes are those of the blocks.
pub proof fn law_blocks(len: nat, n: nat, q: u32)
    ensures
        weights::blocks_fault(len, n, q) is None <==> (weights::expert_type(q) matches Some(ty) && n
            % (ty.layout()->Some_0.0 as nat) == 0 && ty.row_size(n) == Some(len)),
{
    if let Some(ty) = weights::expert_type(q) {
        let (e, b) = ty.layout()->Some_0;
        crate::gguf::tensor::lemma_ceil_div(n, e as nat);
    }
}

proof fn lemma_inserted_has(s: Seq<i32>, e: i32, x: i32)
    ensures
        experts::inserted(s, e).contains(x) <==> s.contains(x) || x == e,
    decreases s.len(),
{
    let r = experts::inserted(s, e);
    if s.len() == 0 {
        assert(r[0] == e);
    } else if s.last() == e {
        assert(s[s.len() - 1] == e);
    } else if s.last() < e {
        assert(r[s.len() as int] == e);
        if s.contains(x) {
            let i = choose|i: int| 0 <= i < s.len() && s[i] == x;
            assert(r[i] == x);
        }
    } else {
        let t = s.drop_last();
        let q = experts::inserted(t, e);
        lemma_inserted_has(t, e, x);
        assert(r[q.len() as int] == s.last());
        if q.contains(x) {
            let i = choose|i: int| 0 <= i < q.len() && q[i] == x;
            assert(r[i] == x);
        }
        if s.contains(x) {
            let i = choose|i: int| 0 <= i < s.len() && s[i] == x;
            if i < t.len() {
                assert(t[i] == x);
            }
        }
        if r.contains(x) {
            let i = choose|i: int| 0 <= i < r.len() && r[i] == x;
            if i < q.len() {
                assert(q[i] == x);
            } else {
                assert(s[s.len() - 1] == x);
            }
        }
        if t.contains(x) {
            let i = choose|i: int| 0 <= i < t.len() && t[i] == x;
            assert(s[i] == x);
        }
    }
}

proof fn lemma_inserted_ascends(s: Seq<i32>, e: i32)
    requires
        experts::ascending(s),
    ensures
        experts::ascending(experts::inserted(s, e)),
        experts::inserted(s, e).len() > 0,
        s.len() > 0 && s.last() > e ==> experts::inserted(s, e).last() == s.last(),
        s.len() == 0 || s.last() <= e ==> experts::inserted(s, e).last() == e,
    decreases s.len(),
{
    if s.len() > 0 && s.last() > e {
        let t = s.drop_last();
        lemma_inserted_ascends(t, e);
        let q = experts::inserted(t, e);
        let r = experts::inserted(s, e);
        assert(q.last() < s.last()) by {
            if t.len() > 0 {
                assert(t.last() == s[s.len() - 2]);
                assert(s[s.len() - 2] < s[s.len() - 1]);
            }
        }
        assert forall|i: int, j: int| 0 <= i < j < r.len() implies #[trigger] r[i]
            < #[trigger] r[j] by {
            if j == q.len() {
                if i < q.len() - 1 {
                    assert(q[i] < q[q.len() - 1]);
                }
            } else {
                assert(q[i] < q[j]);
            }
        }
    } else if s.len() > 0 && s.last() < e {
        let r = experts::inserted(s, e);
        assert forall|i: int, j: int| 0 <= i < j < r.len() implies #[trigger] r[i]
            < #[trigger] r[j] by {
            if j == s.len() {
                if i < s.len() - 1 {
                    assert(s[i] < s[s.len() - 1]);
                }
            } else {
                assert(s[i] < s[j]);
            }
        }
    }
}

/// The experts that are read are those that are selected and exist, each once, in ascending order.
pub proof fn law_experts_once(selected: Seq<i32>, n_expert: u32, e: i32)
    ensures
        experts::distinct_of(selected, n_expert).contains(e) <==> selected.contains(e) && 0 <= e
            < n_expert,
        experts::ascending(experts::distinct_of(selected, n_expert)),
    decreases selected.len(),
{
    if selected.len() > 0 {
        let t = selected.drop_last();
        let x = selected.last();
        law_experts_once(t, n_expert, e);
        let d = experts::distinct_of(t, n_expert);
        assert(selected[selected.len() - 1] == x);
        if t.contains(e) {
            let i = choose|i: int| 0 <= i < t.len() && t[i] == e;
            assert(selected[i] == e);
        }
        if selected.contains(e) && e != x {
            let i = choose|i: int| 0 <= i < selected.len() && selected[i] == e;
            assert(t[i] == e);
        }
        if experts::in_range(x, n_expert) {
            lemma_inserted_has(d, x, e);
            lemma_inserted_ascends(d, x);
        }
    }
}

/// Each expert is read in three pieces, gate, up and down, each from its own tensor at the expert's
/// place in it and as long as one expert of it.
pub proof fn law_three_reads(
    list: Seq<i32>,
    gate: ExpertTensor,
    up: ExpertTensor,
    down: ExpertTensor,
    i: int,
)
    requires
        0 <= i < list.len(),
    ensures
        ({
            let r = experts::triple_reads(list, gate, up, down);
            let e = list[i] as int;
            &&& r.len() == 3 * list.len()
            &&& r[3 * i] == (Read {
                offset: (gate.abs_offset + e * gate.expert_bytes) as u64,
                len: gate.expert_bytes,
            })
            &&& r[3 * i + 1] == (Read {
                offset: (up.abs_offset + e * up.expert_bytes) as u64,
                len: up.expert_bytes,
            })
            &&& r[3 * i + 2] == (Read {
                offset: (down.abs_offset + e * down.expert_bytes) as u64,
                len: down.expert_bytes,
            })
        }),
    decreases list.len(),
{
    let t = list.drop_last();
    lemma_reads_len(list, gate, up, down);
    lemma_reads_len(t, gate, up, down);
    if i < t.len() {
        law_three_reads(t, gate, up, down, i);
    }
}

proof fn lemma_reads_len(list: Seq<i32>, gate: ExpertTensor, up: ExpertTensor, down: ExpertTensor)
    ensures
        experts::triple_reads(list, gate, up, down).len() == 3 * list.len(),
    decreases list.len(),
{
    if list.len() > 0 {
        lemma_reads_len(list.drop_last(), gate, up, down);
    }
}

/// A read is left out only where the one kept before it begins at the same place: every place that
/// is asked for is kept, nothing else is, and no two in a row begin alike.
pub proof fn law_repeats_left_out(s: Seq<Read>, r: Read)
    ensures
        ({
            let t = experts::without_repeats(s);
            &&& t.contains(r) ==> s.contains(r)
            &&& s.contains(r) ==> exists|j: int|
                0 <= j < t.len() && (#[trigger] t[j]).offset == r.offset
            &&& forall|i: int|
                #![trigger t[i]]
                0 < i < t.len() ==> t[i - 1].offset != t[i].offset
            &&& s.len() > 0 ==> t.len() > 0 && t.last().offset == s.last().offset
        }),
    decreases s.len(),
{
    if s.len() > 0 {
        let p = s.drop_last();
        law_repeats_left_out(p, r);
        let t = experts::without_repeats(p);
        let u = experts::without_repeats(s);
        assert(s[s.len() - 1] == s.last());
        if p.contains(r) {
            let i = choose|i: int| 0 <= i < p.len() && p[i] == r;
            assert(s[i] == r);
        }
        if u.contains(r) && !t.contains(r) {
            let i = choose|i: int| 0 <= i < u.len() && u[i] == r;
            if i < t.len() {
                assert(t[i] == r);
            }
        }
        if s.contains(r) {
            if r == s.last() {
                assert(u[u.len() - 1].offset == r.offset);
            } else {
                let i = choose|i: int| 0 <= i < s.len() && s[i] == r;
                assert(p[i] == r);
                let j = choose|j: int| 0 <= j < t.len() && (#[trigger] t[j]).offset == r.offset;
                assert(u[j].offset == r.offset);
            }
        }
        assert forall|i: int| #![trigger u[i]] 0 < i < u.len() implies u[i - 1].offset
            != u[i].offset by {
            if i < t.len() {
                assert(t[i - 1].offset != t[i].offset);
            }
        }
    }
}

/// A slab is found by where it begins, the first one there counts, and one that was not brought is
/// missing.
pub proof fn law_slab_found(slabs: Seq<Brought>, from: int, k: int, off: u64)
    requires
        0 <= from <= k <= slabs.len(),
        forall|j: int| from <= j < k ==> (#[trigger] slabs[j]).offset != off,
    ensures
        k < slabs.len() && slabs[k].offset == off ==> compute::brought_len(slabs, from, off)
            == Some(slabs[k].len),
        k == slabs.len() ==> compute::brought_len(slabs, from, off) is None,
    decreases k - from,
{
    if from < k {
        assert(slabs[from].offset != off);
        law_slab_found(slabs, from + 1, k, off);
    }
}

proof fn lemma_jobs(
    path: Path,
    selected: Seq<i32>,
    n_expert: u32,
    t: Tensors,
    slabs: Seq<Brought>,
    elems: nat,
    i: int,
    n: int,
    acc: Seq<Job>,
)
    requires
        0 <= i <= n <= selected.len() <= u32::MAX,
    ensures
        compute::jobs_of(path, selected, n_expert, t, slabs, elems, i, n, acc) matches Ok(jobs) ==> {
            &&& jobs.len() >= acc.len()
            &&& jobs.take(acc.len() as int) == acc
            &&& forall|k: int|
                acc.len() <= k < jobs.len() ==> {
                    let j = #[trigger] jobs[k];
                    &&& i <= j.slot < n
                    &&& j.expert == selected[j.slot as int]
                    &&& 0 <= j.expert < n_expert
                    &&& j.at == experts::offsets_of(j.expert, t.gate, t.up, t.down)
                }
            &&& forall|q: int|
                i <= q < n && 0 <= #[trigger] selected[q] < n_expert ==> exists|k: int|
                    acc.len() <= k < jobs.len() && (#[trigger] jobs[k]).slot == q
        },
    decreases n - i,
{
    if i < n {
        if !experts::in_range(selected[i], n_expert) {
            lemma_jobs(path, selected, n_expert, t, slabs, elems, i + 1, n, acc);
        } else if compute::job_fault(path, selected[i], t, slabs, elems) is None {
            let one = Job {
                slot: i as u32,
                expert: selected[i],
                at: experts::offsets_of(selected[i], t.gate, t.up, t.down),
            };
            let next = acc.push(one);
            lemma_jobs(path, selected, n_expert, t, slabs, elems, i + 1, n, next);
            if let Ok(jobs) = compute::jobs_of(
                path,
                selected,
                n_expert,
                t,
                slabs,
                elems,
                i,
                n,
                acc,
            ) {
                assert(jobs.take(next.len() as int)[acc.len() as int] == one);
                assert(jobs[acc.len() as int] == one);
                assert(jobs.take(acc.len() as int) =~= jobs.take(next.len() as int).take(
                    acc.len() as int,
                ));
                assert(next.take(acc.len() as int) =~= acc);
                assert forall|q: int|
                    i <= q < n && 0 <= #[trigger] selected[q] < n_expert implies exists|k: int|
                    acc.len() <= k < jobs.len() && (#[trigger] jobs[k]).slot == q by {
                    if q == i {
                        assert(jobs[acc.len() as int].slot == q);
                    } else {
                        let k = choose|k: int|
                            next.len() <= k < jobs.len() && (#[trigger] jobs[k]).slot == q;
                        assert(jobs[k].slot == q);
                    }
                }
            }
        }
    } else {
        assert(acc.take(acc.len() as int) =~= acc);
    }
}

/// Every slot that selects an expert which exists is computed, with the weights of that expert; no
/// other slot is.
pub proof fn law_jobs(
    path: Path,
    selected: Seq<i32>,
    n_expert: u32,
    t: Tensors,
    slabs: Seq<Brought>,
    elems: nat,
)
    requires
        selected.len() <= u32::MAX,
    ensures
        compute::jobs_of(
            path,
            selected,
            n_expert,
            t,
            slabs,
            elems,
            0,
            selected.len() as int,
            Seq::empty(),
        ) matches Ok(jobs) ==> {
            &&& forall|k: int|
                0 <= k < jobs.len() ==> {
                    let j = #[trigger] jobs[k];
                    &&& j.slot < selected.len()
                    &&& j.expert == selected[j.slot as int]
                    &&& 0 <= j.expert < n_expert
                    &&& j.at == experts::offsets_of(j.expert, t.gate, t.up, t.down)
                }
            &&& forall|q: int|
                0 <= q < selected.len() && 0 <= #[trigger] selected[q] < n_expert ==> exists|
                    k: int,
                |
                    0 <= k < jobs.len() && (#[trigger] jobs[k]).slot == q
        },
{
    lemma_jobs(
        path,
        selected,
        n_expert,
        t,
        slabs,
        elems,
        0,
        selected.len() as int,
        Seq::empty(),
    );
}

/// The weights of an expert are those of its number in each of the three tensors.
pub proof fn law_expert_place(e: i32, gate: ExpertTensor, up: ExpertTensor, down: ExpertTensor)
    requires
        0 <= e,
        gate.holds(e as int),
        up.holds(e as int),
        down.holds(e as int),
    ensures
        experts::offsets_of(e, gate, up, down).gate == gate.abs_offset + e * gate.expert_bytes,
        experts::offsets_of(e, gate, up, down).up == up.abs_offset + e * up.expert_bytes,
        experts::offsets_of(e, gate, up, down).down == down.abs_offset + e * down.expert_bytes,
{
    assert(e * gate.expert_bytes >= 0) by (nonlinear_arith)
        requires
            0 <= e,
            0 <= gate.expert_bytes,
    ;
    assert(e * up.expert_bytes >= 0) by (nonlinear_arith)
        requires
            0 <= e,
            0 <= up.expert_bytes,
    ;
    assert(e * down.expert_bytes >= 0) by (nonlinear_arith)
        requires
            0 <= e,
            0 <= down.expert_bytes,
    ;
}

/// The path of 8-bit integers takes gate and up of the same one of two kinds, and down of either.
pub proof fn law_integer_path(t: Tensors)
    ensures
        compute::q8_serves(t) <==> (t.gate.quant == 10 || t.gate.quant == 11) && t.up.quant
            == t.gate.quant && (t.down.quant == 10 || t.down.quant == 11),
        compute::q8_block_bytes(10) == 84,
        compute::q8_block_bytes(11) == 110,
{
}

/// A layer of experts can run exactly where it has all its weights.
pub proof fn law_moe_complete(w: KimiK3W)
    ensures
        moe::moe_fault(w) is None <==> w.ffn_gate_inp is Some && w.ffn_exp_probs_b
            && w.ffn_latent_down is Some && w.ffn_latent_norm && w.ffn_latent_up
            && w.ffn_gate_exps is Some && w.ffn_up_exps is Some && w.ffn_down_exps is Some
            && w.ffn_gate_shexp is Some && w.ffn_up_shexp is Some && w.ffn_down_shexp,
{
}

/// A dense layer can run exactly where it has its three weights and those of gate and up take a
/// quantized activation.
pub proof fn law_dense_complete(w: KimiK3W)
    ensures
        dense::dense_fault(w) is None <==> w.ffn_gate is Some && w.ffn_up is Some && w.ffn_down
            is Some && (w.ffn_gate->0.quant == 10 || w.ffn_gate->0.quant == 11) && (
        w.ffn_up->0.quant == 10 || w.ffn_up->0.quant == 11),
{
}

/// A layer of delta attention can run exactly where it has all its weights and the six that share
/// the quantized input take it.
pub proof fn law_delta_complete(w: KimiK3W, il: u32)
    ensures
        kda::kda_fault(w, il) is None <==> w.ssm_q_conv && w.ssm_k_conv && w.ssm_v_conv && w.wq
            is Some && w.wk is Some && w.wv is Some && w.ssm_f_a is Some && w.ssm_f_b && w.ssm_beta
            is Some && w.ssm_a && w.ssm_dt_b && w.wqkv_gate is Some && w.ssm_o_norm && w.wo is Some
            && weights::is_direct(w.wq->0.quant) && weights::is_direct(w.wk->0.quant)
            && weights::is_direct(w.wv->0.quant) && weights::is_direct(w.ssm_f_a->0.quant)
            && weights::is_direct(w.ssm_beta->0.quant) && weights::is_direct(w.wqkv_gate->0.quant),
{
}

/// A layer of latent attention can run exactly where it has all its weights, those of the cached
/// latents as the split pair, and the position lies within the context.
pub proof fn law_latent_complete(w: KimiK3W, pos: u32, ctx: u32)
    ensures
        mla::mla_fault(w, pos, ctx) is None <==> mla::mla_lacks(w) is None && pos < ctx
            && w.mla_wk_b && w.mla_wv_b,
        mla::mla_lacks(w) is None <==> w.mla_wq_a is Some && w.mla_wq_b is Some && w.mla_q_a_norm
            && w.mla_kv_a_norm && w.mla_wkv_a_mqa is Some && w.mla_wqkv_gate is Some && w.mla_wo
            is Some,
{
}

/// A layer can run exactly where its attention can and, behind it, its dense part in the leading
/// layers or its experts in the others.
pub proof fn law_layer_complete(s: K3Shape, w: KimiK3W, il: u32, pos: u32, ctx: u32)
    ensures
        forward::layer_fault(s, w, il, pos, ctx) is None <==> {
            &&& w.kind == K3LayerKind::Kda ==> kda::kda_fault(w, il) is None
            &&& w.kind == K3LayerKind::Mla ==> mla::mla_fault(w, pos, ctx) is None
            &&& il < s.n_leading_dense ==> dense::dense_fault(w) is None
            &&& il >= s.n_leading_dense ==> moe::moe_fault(w) is None
        },
{
}

/// A step can run exactly where there is a device, the buffers are there, and the last residual has
/// its norm and projection.
pub proof fn law_ready(r: Readiness)
    ensures
        forward::unready(r) is None <==> r.devices > 0 && r.runtime && r.output_res_norm
            && r.output_res_proj,
{
}

/// Nothing is misplaced exactly where all that is placed is on the primary device; what is placed
/// nowhere does not matter.
pub proof fn law_placed(p: Seq<Placement>, i: int, primary: i32)
    requires
        0 <= i <= p.len(),
    ensures
        forward::misplaced(p, i, primary) is None <==> forall|j: int|
            i <= j < p.len() ==> (#[trigger] p[j]).device < 0 || p[j].device == primary,
    decreases p.len() - i,
{
    if i < p.len() {
        law_placed(p, i + 1, primary);
        let here = p[i].device < 0 || p[i].device == primary;
        if here && forward::misplaced(p, i + 1, primary) is None {
            assert forall|j: int| i <= j < p.len() implies (#[trigger] p[j]).device < 0
                || p[j].device == primary by {
                if j > i {
                    assert(p[j].device < 0 || p[j].device == primary);
                }
            }
        }
    }
}

/// Tokens of a batch take their own token at consecutive positions. Only the last one is asked for
/// rows, and for one at most; a single token is asked for what is wanted.
pub proof fn law_steps(tokens: Seq<u32>, i: int, pos0: u32, rows: u32)
    requires
        0 <= i < tokens.len(),
        pos0 + tokens.len() <= u32::MAX,
    ensures
        forward::step_of(tokens, i, pos0, rows).token == tokens[i],
        forward::step_of(tokens, i, pos0, rows).pos == pos0 + i,
        i < tokens.len() - 1 ==> forward::step_of(tokens, i, pos0, rows).rows == 0,
        tokens.len() > 1 && i == tokens.len() - 1 && rows >= 1 ==> forward::step_of(
            tokens,
            i,
            pos0,
            rows,
        ).rows == 1,
        rows == 0 ==> forward::step_of(tokens, i, pos0, rows).rows == 0,
        tokens.len() == 1 ==> forward::step_of(tokens, i, pos0, rows).rows == rows,
{
}

/// The sizes of the shape: all heads of delta attention side by side, keys of both parts, and the
/// shared experts side by side. What is zero counts as one where it is a factor.
pub proof fn law_shape_sizes(s: K3Shape)
    ensures
        s.d_inner() == s.n_head * s.kda_head_dim,
        s.qk() == s.qk_nope + s.qk_rope,
        s.mla_gate() == s.n_head * s.value_mla,
        s.mla_kv() == s.n_head * (s.qk_nope + s.qk_rope + s.value_mla),
        s.mla_q() >= s.n_head * (s.qk_nope + s.qk_rope),
        s.mla_q() >= s.n_head * s.value_mla,
        s.n_ff_exp > 0 && s.n_expert_shared > 0 ==> s.shexp() == s.n_ff_exp * s.n_expert_shared,
        s.attn_res_block_size > 0 ==> s.block() == s.attn_res_block_size,
        s.block() >= 1,
{
    assert(s.n_head * dims::most(s.qk(), s.value_mla as int) >= s.n_head * s.qk())
        by (nonlinear_arith)
        requires
            s.n_head >= 0,
            dims::most(s.qk(), s.value_mla as int) >= s.qk(),
    ;
    assert(s.n_head * dims::most(s.qk(), s.value_mla as int) >= s.n_head * s.value_mla)
        by (nonlinear_arith)
        requires
            s.n_head >= 0,
            dims::most(s.qk(), s.value_mla as int) >= s.value_mla,
    ;
}

/// What each buffer of a step has room for, at least.
pub proof fn law_scratch(s: K3Shape)
    ensures
        runtime::scratch_elems(s, Buf::Normed) == Some(s.n_embd as int),
        runtime::scratch_elems(s, Buf::AttnOut) matches Some(n) && n >= s.n_embd && n >= s.mla_q(),
        runtime::scratch_elems(s, Buf::FfnOut) matches Some(n) && n >= s.n_embd && n
            >= s.moe_latent_size && n >= s.mla_kv(),
        runtime::scratch_elems(s, Buf::RouterLogits) matches Some(n) && n >= s.n_expert && n
            >= s.mla_gate(),
        runtime::scratch_elems(s, Buf::Latent) matches Some(n) && n >= s.moe_latent_size && n
            >= s.n_kv_lora,
        runtime::scratch_elems(s, Buf::MoeOut) matches Some(n) && n >= s.n_embd && n
            >= s.moe_latent_size && n >= s.qk_rope,
        runtime::scratch_elems(s, Buf::ShexpOut) matches Some(n) && n >= s.n_embd && n
            >= s.mla_gate(),
        runtime::scratch_elems(s, Buf::MixOut) matches Some(n) && n >= s.n_embd && n
            >= s.mla_gate(),
        runtime::scratch_elems(s, Buf::KdaFa) == Some(s.kda_head_dim as int),
        runtime::scratch_elems(s, Buf::KdaQ) == Some(s.n_head * s.kda_head_dim),
        runtime::scratch_elems(s, Buf::KdaK) == runtime::scratch_elems(s, Buf::KdaQ),
        runtime::scratch_elems(s, Buf::KdaV) == runtime::scratch_elems(s, Buf::KdaQ),
        runtime::scratch_elems(s, Buf::KdaGRaw) == runtime::scratch_elems(s, Buf::KdaQ),
        runtime::scratch_elems(s, Buf::KdaGateLogits) == runtime::scratch_elems(s, Buf::KdaQ),
        runtime::scratch_elems(s, Buf::KdaConvOut) == runtime::scratch_elems(s, Buf::KdaQ),
        runtime::scratch_elems(s, Buf::KdaGated) == runtime::scratch_elems(s, Buf::KdaQ),
        runtime::scratch_elems(s, Buf::KdaONormed) == runtime::scratch_elems(s, Buf::KdaQ),
        runtime::scratch_elems(s, Buf::DenseGate) matches Some(n) && n >= s.n_ff_dense && n >= 1,
        runtime::scratch_elems(s, Buf::DenseUp) == runtime::scratch_elems(s, Buf::DenseGate),
        runtime::scratch_elems(s, Buf::DenseMid) == runtime::scratch_elems(s, Buf::DenseGate),
        runtime::scratch_elems(s, Buf::ShexpGate) == Some(s.shexp()),
        runtime::scratch_elems(s, Buf::ShexpUp) == Some(s.shexp()),
        runtime::scratch_elems(s, Buf::ShexpMid) == Some(s.shexp()),
        runtime::scratch_elems(s, Buf::ExpertSelected) matches Some(n) && n >= s.n_expert_used,
        runtime::scratch_elems(s, Buf::ExpertWeights) matches Some(n) && n >= s.n_expert_used,
        runtime::scratch_elems(s, Buf::ExpertDown) matches Some(n) && n >= s.moe_latent_size,
        runtime::scratch_elems(s, Buf::LatentNormed) matches Some(n) && n >= s.moe_latent_size,
        runtime::scratch_elems(s, Buf::ExpertGate) matches Some(n) && n >= s.n_ff_exp,
        runtime::scratch_elems(s, Buf::ExpertUp) matches Some(n) && n >= s.n_ff_exp,
        runtime::scratch_elems(s, Buf::ExpertMid) matches Some(n) && n >= s.n_ff_exp,
        runtime::q8k_elems(s) >= s.n_embd,
        runtime::q8k_elems(s) >= s.moe_latent_size,
        runtime::q8k_elems(s) >= s.n_ff_dense,
{
}

/// What lasts from token to token has room for its layer: all but the newest of the convolution's
/// inputs in each stream, a square for each head, and one row for each block of layers.
pub proof fn law_lasting_sizes(s: K3Shape)
    ensures
        s.ssm_conv_k >= 2 ==> runtime::window_elems(s) == (s.ssm_conv_k - 1) * s.d_inner(),
        s.ssm_conv_k < 2 ==> runtime::window_elems(s) == s.d_inner(),
        runtime::state_elems(s) == s.kda_head_dim * s.kda_head_dim * s.n_head,
        runtime::bank_rows(s) * s.block() >= s.n_exec_layer,
        (runtime::bank_rows(s) - 1) * s.block() < s.n_exec_layer,
{
    let b = s.block();
    let n = s.n_exec_layer as int;
    vstd::arithmetic::div_mod::lemma_fundamental_div_mod(n + b - 1, b);
    let q = runtime::bank_rows(s);
    assert(b * q == q * b) by (nonlinear_arith);
    assert((q - 1) * b == q * b - b) by (nonlinear_arith);
    if s.ssm_conv_k < 2 {
        assert(1 * s.d_inner() == s.d_inner()) by (nonlinear_arith);
    }
}

/// The bank grows by one row at each first layer of a block and at no other.
pub proof fn law_bank_grows(s: K3Shape, il: int)
    requires
        il >= 0,
    ensures
        forward::bank_after(s, 0) == 0,
        il % s.block() == 0 ==> forward::bank_after(s, il + 1) == forward::bank_after(s, il) + 1,
        il % s.block() != 0 ==> forward::bank_after(s, il + 1) == forward::bank_after(s, il),
{
    let b = s.block();
    let q = il / b;
    let r = il % b;
    vstd::arithmetic::div_mod::lemma_fundamental_div_mod(il, b);
    assert((q + 1) * b == q * b + b) by (nonlinear_arith);
    assert(b * q == q * b) by (nonlinear_arith);
    vstd::arithmetic::div_mod::lemma_fundamental_div_mod_converse(0 + b - 1, b, 0, b - 1);
    if r == 0 {
        vstd::arithmetic::div_mod::lemma_fundamental_div_mod_converse(il + b - 1, b, q, b - 1);
        vstd::arithmetic::div_mod::lemma_fundamental_div_mod_converse(il + 1 + b - 1, b, q + 1, 0);
    } else {
        vstd::arithmetic::div_mod::lemma_fundamental_div_mod_converse(il + b - 1, b, q + 1, r - 1);
        vstd::arithmetic::div_mod::lemma_fundamental_div_mod_converse(il + b, b, q + 1, r);
    }
}

/// A new sequence begins with the states of all layers of delta attention at zero; nothing else
/// changes.
pub proof fn law_sequence_begins(
    kinds: Seq<K3LayerKind>,
    sizes: RuntimeSizes,
    st: Map<Buf, Term<Buf, Kernel>>,
    end: Map<Buf, Term<Buf, Kernel>>,
    il: u32,
    c: u32,
)
    requires
        runtime::cleared(kinds, sizes, st, end),
        il < kinds.len(),
        sizes.conv > 4,
        sizes.ssm > 4,
    ensures
        kinds[il as int] == K3LayerKind::Kda ==> end[Buf::Ssm(il)] == (Term::<
            Buf,
            Kernel,
        >::App { f: Kernel::Zero { bytes: sizes.ssm }, part: 0, args: Seq::empty() }),
        kinds[il as int] == K3LayerKind::Kda && c < 3 ==> end[Buf::Conv(il, c)] == (Term::<
            Buf,
            Kernel,
        >::App { f: Kernel::Zero { bytes: sizes.conv }, part: 0, args: Seq::empty() }),
        kinds[il as int] == K3LayerKind::Mla ==> end[Buf::Ssm(il)] == st[Buf::Ssm(il)]
            && end[Buf::Conv(il, c)] == st[Buf::Conv(il, c)],
        end[Buf::KCache(il)] == st[Buf::KCache(il)],
        end[Buf::VCache(il)] == st[Buf::VCache(il)],
        end[Buf::Logits] == st[Buf::Logits],
{
}

/// A quantized activation takes 292 bytes for each 256 elements begun.
pub proof fn law_quantized_activation(n: u32)
    ensures
        compute::q8k_bytes(n) % 292 == 0,
        compute::q8k_bytes(n) * 256 >= n * 292,
        (compute::q8k_bytes(n) - 292) * 256 < n * 292,
        TensorType::Q8K.row_size(n as nat) == Some(compute::q8k_bytes(n) as nat),
{
}

/// Values are compared at the first token alone, in the layers, backends, operations and experts
/// that the settings name; a setting that is not given leaves nothing out.
pub proof fn law_compared(c: compare::Filters, step: u32, layer: usize, b: Backend, op: Seq<char>)
    ensures
        c.active(step, layer, b) ==> step == 0 && c.dir,
        c.layers is None ==> c.enabled(0, layer),
        c.backends is None ==> c.backend_enabled(b),
        c.operations is None ==> c.operation_enabled(op),
        c.dir && c.layers is None && c.backends is None ==> c.active(0, layer, b),
{
}

/// A list of names or numbers, split at commas with white space around each left out, names exactly
/// its members. Operations are named one by one or all at once by a star; backends by their names.
pub proof fn law_listed(c: compare::Filters, layer: usize, b: Backend, op: Seq<char>, i: int)
    ensures
        c.layers matches Some(l) ==> (0 <= i < words::pieces(l@, ',').len() && text::numeral_u64(
            words::trimmed(words::pieces(l@, ',')[i]),
        ) == Some(layer as u64) ==> c.enabled(0, layer)),
        c.backends matches Some(l) ==> (0 <= i < words::pieces(l@, ',').len() && words::trimmed(
            words::pieces(l@, ',')[i],
        ) == b.text() ==> c.backend_enabled(b)),
        c.operations matches Some(l) ==> (0 <= i < words::pieces(l@, ',').len() && (words::trimmed(
            words::pieces(l@, ',')[i],
        ) == op || words::trimmed(words::pieces(l@, ',')[i]) == "*"@) ==> c.operation_enabled(op)),
        c.layers matches Some(l) ==> (c.enabled(0, layer) ==> exists|j: int|
            0 <= j < words::pieces(l@, ',').len() && text::numeral_u64(
                words::trimmed(#[trigger] words::pieces(l@, ',')[j]),
            ) == Some(layer as u64)),
        c.operations matches Some(l) ==> (c.operation_enabled(op) ==> exists|j: int|
            0 <= j < words::pieces(l@, ',').len() && (words::trimmed(
                #[trigger] words::pieces(l@, ',')[j],
            ) == op || words::trimmed(words::pieces(l@, ',')[j]) == "*"@)),
        c.backends matches Some(l) ==> (c.backend_enabled(b) ==> exists|j: int|
            0 <= j < words::pieces(l@, ',').len() && words::trimmed(
                #[trigger] words::pieces(l@, ',')[j],
            ) == b.text()),
{
    if let Some(l) = c.layers {
        let ps = words::pieces(l@, ',');
        let ok = compare::writes(layer as nat);
        if 0 <= i < ps.len() && text::numeral_u64(words::trimmed(ps[i])) == Some(layer as u64) {
            assert(ok(words::trimmed(ps[i])));
        }
        if c.enabled(0, layer) {
            let j = choose|j: int| 0 <= j < ps.len() && ok(words::trimmed(#[trigger] ps[j]));
            assert(ok(words::trimmed(ps[j])));
        }
    }
    if let Some(l) = c.backends {
        let ps = words::pieces(l@, ',');
        let ok = compare::is_word(b.text(), b.text());
        if 0 <= i < ps.len() && words::trimmed(ps[i]) == b.text() {
            assert(ok(words::trimmed(ps[i])));
        }
        if c.backend_enabled(b) {
            let j = choose|j: int| 0 <= j < ps.len() && ok(words::trimmed(#[trigger] ps[j]));
            assert(ok(words::trimmed(ps[j])));
        }
    }
    if let Some(l) = c.operations {
        let ps = words::pieces(l@, ',');
        let ok = compare::is_word("*"@, op);
        if 0 <= i < ps.len() && (words::trimmed(ps[i]) == op || words::trimmed(ps[i]) == "*"@) {
            assert(ok(words::trimmed(ps[i])));
        }
        if c.operation_enabled(op) {
            let j = choose|j: int| 0 <= j < ps.len() && ok(words::trimmed(#[trigger] ps[j]));
            assert(ok(words::trimmed(ps[j])));
        }
    }
}

proof fn lemma_fnv_prefix(a: Seq<u8>, b: Seq<u8>, n: int)
    requires
        0 <= n <= a.len(),
        n <= b.len(),
        forall|i: int| 0 <= i < n ==> a[i] == b[i],
    ensures
        compare::fnv(a, n) == compare::fnv(b, n),
    decreases n,
{
    if n > 0 {
        lemma_fnv_prefix(a, b, n - 1);
        assert(a[n - 1] == b[n - 1]);
    }
}

/// The hash is FNV-1a of 64 bits: it begins with the offset basis, and each byte is first mixed in
/// and the sum then multiplied by the prime.
pub proof fn law_hash(b: Seq<u8>, x: u8)
    ensures
        compare::fnv(Seq::empty(), 0) == 0xcbf2_9ce4_8422_2325,
        compare::fnv(b.push(x), b.len() as int + 1) as int == ((compare::fnv(b, b.len() as int)
            ^ x as u64) * 0x100_0000_01b3) % 0x1_0000_0000_0000_0000,
{
    lemma_fnv_prefix(b.push(x), b, b.len() as int);
}

/// Numbers in file names have three digits at least, and all their digits.
pub proof fn law_three_digits(n: nat)
    ensures
        n >= 1000 ==> compare::three(n) == text::decimal(n),
        n < 1000 ==> compare::three(n).len() == 3,
        n < 1000 ==> compare::three(n) == text::digits(n, 3),
{
    reveal_with_fuel(text::digits, 4);
}

/// The state that a dump is of, by its name.
pub proof fn law_state_slots(kind: Seq<char>, tail: Seq<char>)
    ensures
        kind != "kda_state"@ ==> compare::state_slot(kind, tail) == "none"@,
        compare::state_slot("kda_state"@, "recurrent"@ + tail) == "ssm"@,
        compare::state_slot("kda_state"@, "conv_"@ + tail) == tail,
{
    reveal_strlit("recurrent");
    reveal_strlit("conv_");
    let a = "recurrent"@ + tail;
    let b = "conv_"@ + tail;
    assert(a.subrange(0, 9) =~= "recurrent"@);
    assert(b.subrange(0, 5) =~= "conv_"@);
    assert(b.skip(5) =~= tail);
    if words::begins(b, "recurrent"@) {
        assert(b.subrange(0, 9)[0] == 'r');
        assert(b[0] == 'c');
    }
}

/// A boundary is reached in the layer that its setting names, and stopped at where that is asked
/// for.
pub proof fn law_boundary(setting: Option<Seq<char>>, stop: bool, layer: usize)
    ensures
        compare::boundary_at(setting, stop, layer) != Boundary::Away <==> (setting matches Some(s)
            && text::numeral_u64(s) == Some(layer as u64)),
        compare::boundary_at(setting, stop, layer) == Boundary::Stop ==> stop,
        compare::boundary_at(setting, stop, layer) == Boundary::Reached ==> !stop,
{
}

/// Where two runs of numbers first differ: they agree before it and differ at it; without such a
/// place one of them goes on from the other.
pub proof fn law_first_difference(a: Seq<u32>, b: Seq<u32>, i: int)
    requires
        0 <= i,
    ensures
        match compare::first_difference(a, b, i) {
            Some(k) => {
                &&& i <= k < a.len()
                &&& k < b.len()
                &&& a[k] != b[k]
                &&& forall|j: int| i <= j < k ==> a[j] == b[j]
            },
            None => forall|j: int| i <= j < a.len() && j < b.len() ==> a[j] == b[j],
        },
    decreases a.len() - i,
{
    if i < a.len() && i < b.len() && a[i] == b[i] {
        law_first_difference(a, b, i + 1);
    }
}

/// Values at either end of the range are counted, one by one.
pub proof fn law_extremes(qs: Seq<i8>, n: int)
    requires
        0 <= n < qs.len(),
    ensures
        compare::extremes(qs, 0) == 0,
        qs[n] == 127 || qs[n] == -128 ==> compare::extremes(qs, n + 1) == compare::extremes(qs, n)
            + 1,
        qs[n] != 127 && qs[n] != -128 ==> compare::extremes(qs, n + 1) == compare::extremes(qs, n),
{
}

/// The streams are dumped under their own letters: the projection of each, and its window before and
/// behind the convolution.
pub proof fn law_streams_named(
    s: K3Shape,
    k: K3LayerKind,
    il: u32,
    n_in: u32,
    n_out: u32,
    width: u32,
    y: Buf,
    window: Buf,
    args: Seq<Buf>,
)
    ensures
        ({
            let p = |w: Weight|
                Step {
                    f: Kernel::MatmulQ8k { w, n_in, n_out },
                    copy: false,
                    dsts: seq![y],
                    args,
                };
            let c = |w: Weight|
                Step {
                    f: Kernel::Sconv { w, d: n_out, k: width },
                    copy: false,
                    dsts: seq![y, window],
                    args,
                };
            &&& trace::label(s, k, p(Weight::Wq(il))) == Some(
                ("kda"@, "q_projection"@, n_out),
            )
            &&& trace::label(s, k, p(Weight::Wk(il))) == Some(
                ("kda"@, "k_projection"@, n_out),
            )
            &&& trace::label(s, k, p(Weight::Wv(il))) == Some(
                ("kda"@, "v_projection"@, n_out),
            )
            &&& trace::before(s, c(Weight::SsmQConv(il))) == trace::snap(
                "kda_state"@,
                "conv_q_before"@,
                window,
                trace::window_len(s),
            )
            &&& trace::before(s, c(Weight::SsmKConv(il))) == trace::snap(
                "kda_state"@,
                "conv_k_before"@,
                window,
                trace::window_len(s),
            )
            &&& trace::before(s, c(Weight::SsmVConv(il))) == trace::snap(
                "kda_state"@,
                "conv_v_before"@,
                window,
                trace::window_len(s),
            )
            &&& trace::after(s, k, c(Weight::SsmQConv(il))) == trace::snap(
                "kda"@,
                "q_sconv_residual"@,
                y,
                n_out,
            ) + trace::snap("kda_state"@, "conv_q_after"@, window, trace::window_len(s))
            &&& trace::after(s, k, c(Weight::SsmKConv(il))) == trace::snap(
                "kda"@,
                "k_sconv_residual"@,
                y,
                n_out,
            ) + trace::snap("kda_state"@, "conv_k_after"@, window, trace::window_len(s))
            &&& trace::after(s, k, c(Weight::SsmVConv(il))) == trace::snap(
                "kda"@,
                "v_sconv_residual"@,
                y,
                n_out,
            ) + trace::snap("kda_state"@, "conv_v_after"@, window, trace::window_len(s))
        }),
{
}

/// A layer changes what lasts of itself alone: delta attention its own state and windows, latent
/// attention its own cache. Neither touches the stream, the rows of the bank or the logits; neither
/// do the parts behind it touch anything that lasts.
pub proof fn law_layers_apart(il: u32, other: u32, c: u32, i: u32)
    requires
        il != other,
    ensures
        ({
            let lasting = seq![
                Buf::Ssm(other),
                Buf::Conv(other, c),
                Buf::KCache(other),
                Buf::VCache(other),
                Buf::Logits,
            ];
            forall|k: int|
                0 <= k < lasting.len() ==> {
                    let b = #[trigger] lasting[k];
                    &&& !kda::kda_writes(b, il)
                    &&& !mla::mla_writes(b, il)
                    &&& !dense::dense_writes(b)
                    &&& !moe::route_writes(b)
                    &&& !moe::join_writes(b)
                    &&& !compute::gpu_writes(b)
                    &&& !forward::layer_writes(b, il)
                }
        }),
        !kda::kda_writes(Buf::Cur, il) && !mla::mla_writes(Buf::Cur, il),
        !kda::kda_writes(Buf::Bank(i), il) && !mla::mla_writes(Buf::Bank(i), il),
        !dense::dense_writes(Buf::Cur) && !dense::dense_writes(Buf::FfnInput),
        !moe::route_writes(Buf::Cur) && !moe::route_writes(Buf::FfnInput),
        !moe::join_writes(Buf::Cur) && !compute::gpu_writes(Buf::Cur),
        !compute::gpu_writes(Buf::FfnInput) && !compute::gpu_writes(Buf::ExpertWeights),
        !kda::kda_writes(Buf::KCache(il), il) && !kda::kda_writes(Buf::VCache(il), il),
        !mla::mla_writes(Buf::Ssm(il), il) && !mla::mla_writes(Buf::Conv(il, c), il),
{
}

/// The larger of two numbers, and at least one.
pub proof fn law_larger(a: int, b: int, n: u32)
    ensures
        dims::most(a, b) >= a,
        dims::most(a, b) >= b,
        dims::most(a, b) == a || dims::most(a, b) == b,
        dims::some(n) >= 1,
        n > 0 ==> dims::some(n) == n,
        dims::some(0) == 1,
{
}

/// Latent attention has the shape of its model.
pub proof fn law_latent_shape(s: K3Shape)
    ensures
        s.mla_dims().n_head == s.n_head,
        s.mla_dims().q_lora_rank == s.n_lora_q,
        s.mla_dims().kv_lora_rank == s.n_kv_lora,
        s.mla_dims().qk_nope == s.qk_nope,
        s.mla_dims().qk_rope == s.qk_rope,
        s.mla_dims().v_mla == s.value_mla,
        s.mla_dims().n_embd == s.n_embd,
{
}

/// A slot can be computed exactly where all three slabs of its expert were brought and, where the
/// processor unpacks them, each has the blocks that its elements need.
pub proof fn law_slot_ready(path: Path, e: i32, t: Tensors, slabs: Seq<Brought>, n: nat)
    ensures
        ({
            let at = experts::offsets_of(e, t.gate, t.up, t.down);
            let g = compute::brought_len(slabs, 0, at.gate);
            let u = compute::brought_len(slabs, 0, at.up);
            let d = compute::brought_len(slabs, 0, at.down);
            compute::job_fault(path, e, t, slabs, n) is None <==> {
                &&& g is Some
                &&& u is Some
                &&& d is Some
                &&& path == Path::Host ==> weights::blocks_fault(g->0 as nat, n, t.gate.quant)
                    is None && weights::blocks_fault(u->0 as nat, n, t.up.quant) is None
                    && weights::blocks_fault(d->0 as nat, n, t.down.quant) is None
            }
        }),
{
}

/// A store grows to what is needed and never shrinks.
pub proof fn law_grown(b: Buf, have: u64, need: int)
    requires
        0 <= need <= u64::MAX,
    ensures
        need <= have ==> compute::grown(b, have, need) == Seq::<(Buf, u64)>::empty(),
        need > have ==> compute::grown(b, have, need) == seq![(b, need as u64)],
{
}

/// Weights are dumped by their blocks where those are known, by rows otherwise; a row is never empty.
pub proof fn law_dumped_weights(t: ExpertTensor)
    ensures
        t.quant == 10 ==> compare::weight_block_bytes(t) == 84,
        t.quant == 11 ==> compare::weight_block_bytes(t) == 110,
        t.quant != 10 && t.quant != 11 ==> compare::weight_block_bytes(t) == t.row_bytes,
        compare::row_step(t) >= 1,
        t.row_bytes > 0 ==> compare::row_step(t) == t.row_bytes,
{
}

/// Dumps are named by what they hold, the layer and the operation, and packed ones by the token too.
pub proof fn law_dump_names(kind: Seq<char>, layer: nat, step: u32, name: Seq<char>, ext: Seq<char>)
    ensures
        compare::dump_name(kind, layer, name, ext) == kind + "_"@ + compare::three(layer) + "_"@
            + name + "."@ + ext,
        compare::packed_name(layer, step, name) == "layer_"@ + compare::three(layer) + "_token_"@
            + compare::three(step as nat) + "_"@ + name + ".bin"@,
{
}

/// A hash is written as its name and sixteen hexadecimal digits.
pub proof fn law_hash_text(b: Seq<u8>)
    ensures
        compare::fnv_text(b) == "fnv1a64:"@ + text::hex_digits(
            compare::fnv(b, b.len() as int) as nat,
            16,
        ),
{
}

/// Experts are compared by rank and by number, in decimal, with a minus sign for what is none.
pub proof fn law_expert_numbers(n: nat)
    ensures
        compare::signed_numeral(text::decimal(n)) == Some(n as int),
        compare::signed_numeral(seq!['-'] + text::decimal(n)) == Some(-(n as int)),
        compare::signed_numeral(Seq::empty()) is None,
{
    text::lemma_decimal(n);
    let d = text::decimal(n);
    assert(text::is_digit(d[0]));
    let s = seq!['-'] + d;
    assert(s.skip(1) =~= d);
}

/// What a layer lacks is named, the first of what is missing.
pub proof fn law_lacking(w: KimiK3W)
    ensures
        w.wq is None ==> kda::kda_lacks(w) == Some("KDA layer missing wq"@),
        w.wq is Some && w.wk is None ==> kda::kda_lacks(w) == Some("KDA layer missing wk"@),
        w.ffn_gate is None ==> dense::dense_lacks(w) == Some("dense FFN layer missing ffn_gate"@),
        w.ffn_gate is Some && w.ffn_up is None ==> dense::dense_lacks(w) == Some(
            "dense FFN layer missing ffn_up"@,
        ),
        w.ffn_gate is Some && w.ffn_up is Some && w.ffn_down is None ==> dense::dense_lacks(w)
            == Some("dense FFN layer missing ffn_down"@),
        w.ffn_gate_inp is None ==> moe::moe_fault(w) == Some("MoE layer missing ffn_gate_inp"@),
        w.ffn_gate_inp is Some && !w.ffn_exp_probs_b ==> moe::moe_fault(w) == Some(
            "MoE layer missing ffn_exp_probs_b"@,
        ),
{
}

/// What is wrong with quantized weights, slabs, slots and places is said with its numbers.
pub proof fn law_complaints(
    q: u32,
    ty: TensorType,
    a: nat,
    b: nat,
    which: Seq<char>,
    e: i32,
    off: u64,
    il: u32,
    pos: u32,
    ctx: u32,
)
    requires
        e >= 0,
    ensures
        weights::not_direct_text(q) == "matmul_q8k requires Q2_K/Q3_K, got quant="@ + text::decimal(
            q as nat,
        ),
        weights::unsupported_quant_text(q) == "K3 latent MoE: unsupported quant id "@
            + text::decimal(q as nat),
        weights::ragged_text(ty, a, b) == "K3 latent MoE: "@ + crate::gguf::tensor::type_text(ty)
            + " element count "@ + text::decimal(a) + " is not divisible by block size "@
            + text::decimal(b),
        weights::wrong_length_text(ty, a, b) == "K3 latent MoE: "@ + crate::gguf::tensor::type_text(
            ty,
        ) + " buffer has "@ + text::decimal(a) + " bytes, expected "@ + text::decimal(b)
            + " bytes"@,
        compute::missing_text(Path::Host, which, e, off) == "K3 host MoE: "@ + which + " slab "@
            + text::decimal(off as nat) + " not resolved"@,
        compute::missing_text(Path::CpuQ8, which, e, off) == "K3 CPU-Q8 "@ + which
            + " slab missing"@,
        compute::missing_text(Path::Gpu, which, e, off) == "K3 CUDA MoE: missing staged "@ + which
            + " for expert "@ + text::decimal(e as nat) + " at "@ + text::decimal(off as nat),
        compute::q8_formats_text() == "K3 CPU-Q8 requires matching Q2_K or Q3_K expert weights"@,
        compute::q8_quant_text(q) == "K3 CPU-Q8 unsupported expert quant "@ + text::decimal(
            q as nat,
        ),
        compute::slots_text(a, b, q) == "K3 CUDA MoE: routing slots/weights mismatch: ids="@
            + text::decimal(a) + ", weights="@ + text::decimal(b) + ", expected="@ + text::decimal(
            q as nat,
        ),
        moe::staging_text(a, b) == "K3 GPU MoE staging too small: need "@ + text::decimal(a)
            + " bytes, have "@ + text::decimal(b),
        forward::foreign_text(il) == "K3 layer "@ + text::decimal(il as nat)
            + ": expected KimiK3 weights"@,
        forward::device_text(which, e, e) == "K3 device validation failed: "@ + which
            + " is on CUDA "@ + text::decimal(e as nat) + ", expected CUDA "@ + text::signed_text(
            e as int,
        ),
        kda::projection_text(il, which, q) == "K3 layer "@ + text::decimal(il as nat) + " KDA "@
            + which + " projection: "@ + weights::not_direct_text(q),
        mla::beyond_text(pos, ctx) == "K3 MLA position "@ + text::decimal(pos as nat)
            + " exceeds context "@ + text::decimal(ctx as nat),
{
}

/// What is dumped behind each launch: the attention's steps, the norms, the router, the experts'
/// results, the layer's output and the logits, each under its name and with its length.
pub proof fn law_results_named(s: K3Shape, k: K3LayerKind, il: u32, n: u32, m: u32, y: Buf, args: Seq<Buf>)
    ensures
        ({
            let at = |f: Kernel| Step { f, copy: false, dsts: seq![y], args };
            let named = |f: Kernel, kind: Seq<char>, name: Seq<char>, len: u32|
                trace::label(s, k, at(f)) == Some((kind, name, len));
            &&& named(
                Kernel::Matmul { w: Weight::Wo(il), n_in: m, n_out: n },
                "kda"@,
                "output_before_residual"@,
                n,
            )
            &&& named(
                Kernel::RmsNorm { w: Weight::AttnNorm(il), width: n, rows: m },
                "layer"@,
                "norm_output"@,
                n,
            )
            &&& named(
                Kernel::RmsNorm { w: Weight::FfnNorm(il), width: n, rows: m },
                "layer"@,
                "moe_input"@,
                n,
            )
            &&& named(
                Kernel::Matmul { w: Weight::FfnLatentDown(il), n_in: m, n_out: n },
                "moe"@,
                "latent_projection"@,
                n,
            )
            &&& named(
                Kernel::Matmul { w: Weight::FfnGateInp(il), n_in: m, n_out: n },
                "moe"@,
                "router_logits"@,
                n,
            )
            &&& named(
                Kernel::HostRmsNorm { w: Weight::FfnLatentNorm(il), n },
                "moe"@,
                "routed_moe_normed"@,
                n,
            )
            &&& named(
                Kernel::MatmulQ8_0 { w: Weight::FfnLatentUp(il), n_in: m, n_out: n },
                "moe"@,
                "latent_up_output"@,
                n,
            )
            &&& named(
                Kernel::MatmulQ8_0 { w: Weight::FfnDownShexp(il), n_in: m, n_out: n },
                "moe"@,
                "shared_expert_output"@,
                n,
            )
            &&& named(Kernel::HostSigmoid { n }, "kda"@, "beta"@, n)
            &&& named(Kernel::Head { rows: m }, "final"@, "logits"@, s.n_vocab)
        }),
{
}

/// What is dumped before a launch: the stream and the norm's input before attention, the attention's
/// output and the stream behind it before the rest of the layer, the last stream before the output
/// norm, and the router's input.
pub proof fn law_inputs_named(s: K3Shape, il: u32, n: u32, m: u32, x: Buf, dsts: Seq<Buf>)
    ensures
        ({
            let at = |f: Kernel| Step { f, copy: false, dsts, args: seq![x] };
            &&& trace::before(
                s,
                at(Kernel::RmsNorm { w: Weight::AttnNorm(il), width: n, rows: m }),
            ) == trace::snap("layer"@, "residual_input"@, Buf::Cur, n) + trace::snap(
                "layer"@,
                "norm_input"@,
                x,
                n,
            )
            &&& trace::before(s, at(Kernel::RmsNorm { w: Weight::FfnNorm(il), width: n, rows: m }))
                == trace::snap(
                "layer"@,
                "attention_output_before_residual"@,
                Buf::AttnOut,
                n,
            ) + trace::snap("layer"@, "attention_residual_output"@, Buf::Cur, n)
            &&& trace::before(s, at(Kernel::RmsNorm { w: Weight::OutputNorm, width: n, rows: m }))
                == trace::snap("final"@, "hidden"@, x, n)
            &&& trace::before(
                s,
                at(Kernel::Matmul { w: Weight::FfnLatentDown(il), n_in: n, n_out: m }),
            ) == trace::snap("moe"@, "router_input"@, x, n)
        }),
{
}

/// Experts are compared where their rank and their number are among those that are listed, and a list
/// that is not given leaves none out.
pub proof fn law_experts_compared(c: compare::Filters, rank: usize, expert: i32, i: int, j: int)
    ensures
        c.ranks is None && c.ids is None ==> c.expert_enabled(rank, expert),
        c.ids is None ==> (c.ranks matches Some(l) ==> (0 <= i < words::pieces(l@, ',').len()
            && text::numeral_u64(words::trimmed(words::pieces(l@, ',')[i])) == Some(rank as u64)
            ==> c.expert_enabled(rank, expert))),
        c.ranks is None ==> (c.ids matches Some(l) ==> (0 <= j < words::pieces(l@, ',').len()
            && compare::signed_numeral(words::trimmed(words::pieces(l@, ',')[j])) == Some(
            expert as int,
        ) ==> c.expert_enabled(rank, expert))),
{
    if let Some(l) = c.ranks {
        let ps = words::pieces(l@, ',');
        let ok = compare::writes(rank as nat);
        if 0 <= i < ps.len() && text::numeral_u64(words::trimmed(ps[i])) == Some(rank as u64) {
            assert(ok(words::trimmed(ps[i])));
        }
    }
    if let Some(l) = c.ids {
        let ps = words::pieces(l@, ',');
        let ok = compare::writes_signed(expert as int);
        if 0 <= j < ps.len() && compare::signed_numeral(words::trimmed(ps[j])) == Some(
            expert as int,
        ) {
            assert(ok(words::trimmed(ps[j])));
        }
    }
}

/// What is read for a step begins at all three slabs of every selected expert that exists, and at no
/// other place.
pub proof fn law_wanted(
    selected: Seq<i32>,
    n_expert: u32,
    gate: ExpertTensor,
    up: ExpertTensor,
    down: ExpertTensor,
    e: i32,
    r: Read,
)
    ensures
        ({
            let w = moe::wanted(selected, n_expert, gate, up, down);
            &&& selected.contains(e) && 0 <= e < n_expert ==> {
                &&& exists|j: int| 0 <= j < w.len() && (#[trigger] w[j]).offset == gate.at(e as int) as u64
                &&& exists|j: int| 0 <= j < w.len() && (#[trigger] w[j]).offset == up.at(e as int) as u64
                &&& exists|j: int| 0 <= j < w.len() && (#[trigger] w[j]).offset == down.at(e as int) as u64
            }
            &&& w.contains(r) ==> exists|x: i32|
                #[trigger] selected.contains(x) && 0 <= x < n_expert && (r == (Read {
                    offset: gate.at(x as int) as u64,
                    len: gate.expert_bytes,
                }) || r == (Read { offset: up.at(x as int) as u64, len: up.expert_bytes }) || r == (
                Read { offset: down.at(x as int) as u64, len: down.expert_bytes }))
        }),
{
    let list = experts::distinct_of(selected, n_expert);
    let all = experts::triple_reads(list, gate, up, down);
    let w = moe::wanted(selected, n_expert, gate, up, down);
    if selected.contains(e) && 0 <= e < n_expert {
        law_experts_once(selected, n_expert, e);
        let i = choose|i: int| 0 <= i < list.len() && list[i] == e;
        law_three_reads(list, gate, up, down, i);
        assert(all.contains(all[3 * i]) && all.contains(all[3 * i + 1]) && all.contains(
            all[3 * i + 2],
        ));
        law_repeats_left_out(all, all[3 * i]);
        law_repeats_left_out(all, all[3 * i + 1]);
        law_repeats_left_out(all, all[3 * i + 2]);
    }
    if w.contains(r) {
        law_repeats_left_out(all, r);
        let p = choose|p: int| 0 <= p < all.len() && all[p] == r;
        lemma_reads_len(list, gate, up, down);
        let i = p / 3;
        law_three_reads(list, gate, up, down, i);
        law_experts_once(selected, n_expert, list[i]);
        assert(list.contains(list[i]));
        assert(selected.contains(list[i]));
    }
}

} // verus!
