//! Mixture of experts of a layer: router, resolution of the experts, and what follows them.
use vstd::prelude::*;

use super::dims::K3Shape;
use super::kda::matmul;
use super::kernels::{Buf, Kernel, Weight};
use super::layer::KimiK3W;
use super::mla;
use super::runtime;
use super::weights;
use super::weights::{QUANT_Q2_K, QUANT_Q3_K};
use crate::engine::experts;
use crate::engine::experts::{
    distinct_experts, drop_repeats, expert_triples, stage_layout, ExpertTensor,
};
use crate::engine::program;
use crate::engine::program::{Program, Term};
use crate::stream::Read;
use crate::text;
use crate::text::{owned, push_decimal, push_str, same_str};

verus! {

/// How routed experts are computed.
#[derive(Debug, Clone, Copy, PartialEq, Eq, Structural)]
pub enum Backend {
    Cpu,
    CpuQ8,
    Cuda,
}

/// The backend that a setting asks for; the host where it asks for nothing known.
pub open spec fn backend_of(setting: Option<Seq<char>>) -> Backend {
    if setting == Some("cuda"@) {
        Backend::Cuda
    } else if setting == Some("cpu-q8"@) {
        Backend::CpuQ8
    } else {
        Backend::Cpu
    }
}

/// The characters of a setting.
pub open spec fn chars(s: Option<&str>) -> Option<Seq<char>> {
    match s {
        Some(s) => Some(s@),
        None => None,
    }
}

/// The backend that a setting asks for.
pub fn k3_expert_backend(setting: Option<&str>) -> (r: Backend)
    ensures
        r == backend_of(chars(setting)),
{
    match setting {
        None => Backend::Cpu,
        Some(s) => if same_str(s, "cuda") {
            Backend::Cuda
        } else if same_str(s, "cpu-q8") {
            Backend::CpuQ8
        } else {
            Backend::Cpu
        },
    }
}

impl Backend {
    /// The name of a backend.
    pub open spec fn text(self) -> Seq<char> {
        match self {
            Backend::Cpu => "cpu"@,
            Backend::CpuQ8 => "cpu-q8"@,
            Backend::Cuda => "cuda"@,
        }
    }

    pub fn name(self) -> (r: &'static str)
        ensures
            r@ == self.text(),
    {
        match self {
            Backend::Cpu => "cpu",
            Backend::CpuQ8 => "cpu-q8",
            Backend::Cuda => "cuda",
        }
    }
}

/// How the outputs of the experts are added up.
#[derive(Debug, Clone, Copy, PartialEq, Eq, Structural)]
pub enum Accumulation {
    Current,
    Serial,
    SerialNofma,
    F64Reference,
}

/// The accumulation that a setting asks for.
pub open spec fn accumulation_of(setting: Option<Seq<char>>) -> Accumulation {
    if setting == Some("serial"@) {
        Accumulation::Serial
    } else if setting == Some("serial-nofma"@) {
        Accumulation::SerialNofma
    } else if setting == Some("f64-reference"@) {
        Accumulation::F64Reference
    } else {
        Accumulation::Current
    }
}

/// The accumulation that a setting asks for.
pub fn k3_accum_mode(setting: Option<&str>) -> (r: Accumulation)
    ensures
        r == accumulation_of(chars(setting)),
{
    match setting {
        None => Accumulation::Current,
        Some(s) => if same_str(s, "serial") {
            Accumulation::Serial
        } else if same_str(s, "serial-nofma") {
            Accumulation::SerialNofma
        } else if same_str(s, "f64-reference") {
            Accumulation::F64Reference
        } else {
            Accumulation::Current
        },
    }
}

/// The first weight that a layer with a mixture of experts lacks.
pub open spec fn moe_fault(w: KimiK3W) -> Option<Seq<char>> {
    if w.ffn_gate_inp is None {
        Some("MoE layer missing ffn_gate_inp"@)
    } else if !w.ffn_exp_probs_b {
        Some("MoE layer missing ffn_exp_probs_b"@)
    } else if w.ffn_latent_down is None {
        Some("MoE layer missing ffn_latent_down"@)
    } else if !w.ffn_latent_norm {
        Some("MoE layer missing ffn_latent_norm"@)
    } else if !w.ffn_latent_up {
        Some("MoE layer missing ffn_latent_up"@)
    } else if w.ffn_gate_exps is None {
        Some("MoE layer missing ffn_gate_exps"@)
    } else if w.ffn_up_exps is None {
        Some("MoE layer missing ffn_up_exps"@)
    } else if w.ffn_down_exps is None {
        Some("MoE layer missing ffn_down_exps"@)
    } else if w.ffn_gate_shexp is None {
        Some("MoE layer missing ffn_gate_shexp"@)
    } else if w.ffn_up_shexp is None {
        Some("MoE layer missing ffn_up_shexp"@)
    } else if !w.ffn_down_shexp {
        Some("MoE layer missing ffn_down_shexp"@)
    } else {
        None
    }
}

/// The first weight that a layer with a mixture of experts lacks.
fn moe_missing(w: &KimiK3W) -> (r: Option<&'static str>)
    ensures
        match r {
            Some(m) => moe_fault(*w) == Some(m@),
            None => moe_fault(*w) is None,
        },
{
    if w.ffn_gate_inp.is_none() {
        Some("MoE layer missing ffn_gate_inp")
    } else if !w.ffn_exp_probs_b {
        Some("MoE layer missing ffn_exp_probs_b")
    } else if w.ffn_latent_down.is_none() {
        Some("MoE layer missing ffn_latent_down")
    } else if !w.ffn_latent_norm {
        Some("MoE layer missing ffn_latent_norm")
    } else if !w.ffn_latent_up {
        Some("MoE layer missing ffn_latent_up")
    } else if w.ffn_gate_exps.is_none() {
        Some("MoE layer missing ffn_gate_exps")
    } else if w.ffn_up_exps.is_none() {
        Some("MoE layer missing ffn_up_exps")
    } else if w.ffn_down_exps.is_none() {
        Some("MoE layer missing ffn_down_exps")
    } else if w.ffn_gate_shexp.is_none() {
        Some("MoE layer missing ffn_gate_shexp")
    } else if w.ffn_up_shexp.is_none() {
        Some("MoE layer missing ffn_up_shexp")
    } else if !w.ffn_down_shexp {
        Some("MoE layer missing ffn_down_shexp")
    } else {
        None
    }
}

/// The router's choice: part 0 is the experts, part 1 their weights.
pub open spec fn routed(s: K3Shape, il: u32, x: Term<Buf, Kernel>, part: nat) -> Term<Buf, Kernel> {
    Term::App {
        f: Kernel::RouterSelect {
            bias: Weight::FfnExpProbsB(il),
            n_expert: s.n_expert,
            n_used: s.n_expert_used,
        },
        part,
        args: seq![
            mla::times(Weight::FfnGateInp(il), x, s.n_embd as int, s.n_expert as int),
        ],
    }
}

/// The buffers that the router part writes.
pub open spec fn route_writes(b: Buf) -> bool {
    b == Buf::Latent || b == Buf::Q8k || b == Buf::RouterLogits || b == Buf::ExpertSelected || b
        == Buf::ExpertWeights
}

/// Launches the latent projection and the router of layer `il`. The choice of experts is then read
/// back.
pub fn moe_route(p: &mut Program<Buf, Kernel>, s: &K3Shape, w: &KimiK3W, il: u32) -> (r: Result<
    (),
    String,
>)
    ensures
        r is Ok <==> moe_fault(*w) is None,
        r matches Err(e) ==> moe_fault(*w) == Some(e@) && *final(p) == *old(p),
        runtime::roomy(*s) && runtime::all_fit(*s, old(p)@) ==> runtime::all_fit(*s, final(p)@),
        r is Ok ==> {
            let st = old(p).store();
            let x = st[Buf::FfnInput];
            let end = final(p).store();
            &&& end[Buf::Latent] == mla::times(
                Weight::FfnLatentDown(il),
                x,
                s.n_embd as int,
                s.moe_latent_size as int,
            )
            &&& end[Buf::ExpertSelected] == routed(*s, il, x, 0)
            &&& end[Buf::ExpertWeights] == routed(*s, il, x, 1)
            &&& forall|b: Buf| !route_writes(b) ==> #[trigger] end[b] == st[b]
        },
{
    match moe_missing(w) {
        Some(m) => {
            return Err(owned(m));
        },
        None => {},
    }
    matmul(
        p,
        Weight::FfnLatentDown(il),
        Buf::Latent,
        Buf::FfnInput,
        s.n_embd,
        s.moe_latent_size,
    );
    matmul(p, Weight::FfnGateInp(il), Buf::RouterLogits, Buf::FfnInput, s.n_embd, s.n_expert);
    let ghost mid = p.store();
    let mut args: Vec<Buf> = Vec::new();
    args.push(Buf::RouterLogits);
    assert(args@ =~= seq![Buf::RouterLogits]);
    assert(program::contents(mid, args@) =~= seq![mid[Buf::RouterLogits]]);
    p.op_pair(
        Kernel::RouterSelect {
            bias: Weight::FfnExpProbsB(il),
            n_expert: s.n_expert,
            n_used: s.n_expert_used,
        },
        Buf::ExpertSelected,
        Buf::ExpertWeights,
        args,
    );
    Ok(())
}

/// What follows the experts: the accumulated experts, normalized and projected up, plus the shared
/// experts.
pub open spec fn moe_output(s: K3Shape, il: u32, acc: Term<Buf, Kernel>, x: Term<Buf, Kernel>) -> Term<
    Buf,
    Kernel,
> {
    let width = s.n_ff_exp * s.n_expert_shared;
    let up = program::ap1(
        Kernel::MatmulQ8_0 {
            w: Weight::FfnLatentUp(il),
            n_in: s.moe_latent_size,
            n_out: s.n_embd,
        },
        program::ap1(
            Kernel::HostRmsNorm { w: Weight::FfnLatentNorm(il), n: s.moe_latent_size },
            acc,
        ),
    );
    let shared = program::ap1(
        Kernel::MatmulQ8_0 {
            w: Weight::FfnDownShexp(il),
            n_in: width as u32,
            n_out: s.n_embd,
        },
        program::ap2(
            Kernel::SituGlu { n: width as u32 },
            mla::times(Weight::FfnGateShexp(il), x, s.n_embd as int, width),
            mla::times(Weight::FfnUpShexp(il), x, s.n_embd as int, width),
        ),
    );
    program::ap2(Kernel::Add { n: s.n_embd }, up, shared)
}

/// The buffers that the part behind the experts writes.
pub open spec fn join_writes(b: Buf) -> bool {
    b == Buf::LatentNormed || b == Buf::MoeOut || b == Buf::ShexpGate || b == Buf::ShexpUp || b
        == Buf::ShexpMid || b == Buf::ShexpOut || b == Buf::FfnOut || b == Buf::Q8k
}

/// Launches what follows the experts of layer `il`.
pub fn moe_join(p: &mut Program<Buf, Kernel>, s: &K3Shape, il: u32)
    requires
        s.wf_shared(),
    ensures
        runtime::roomy(*s) && runtime::all_fit(*s, old(p)@) ==> runtime::all_fit(*s, final(p)@),
        ({
            let st = old(p).store();
            let end = final(p).store();
            &&& end[Buf::FfnOut] == moe_output(
                *s,
                il,
                st[Buf::LatentNormed],
                st[Buf::FfnInput],
            )
            &&& forall|b: Buf| !join_writes(b) ==> #[trigger] end[b] == st[b]
        }),
{
    let n: u32 = s.moe_latent_size;
    p.op1(
        Kernel::HostRmsNorm { w: Weight::FfnLatentNorm(il), n },
        Buf::LatentNormed,
        Buf::LatentNormed,
    );
    p.op1(
        Kernel::MatmulQ8_0 { w: Weight::FfnLatentUp(il), n_in: n, n_out: s.n_embd },
        Buf::MoeOut,
        Buf::LatentNormed,
    );
    let width: u32 = s.n_ff_exp * s.n_expert_shared;
    proof {
        let a = super::dims::some(s.n_ff_exp);
        let b = super::dims::some(s.n_expert_shared);
        assert(s.n_ff_exp * s.n_expert_shared <= a * b) by (nonlinear_arith)
            requires
                0 <= s.n_ff_exp <= a,
                0 <= s.n_expert_shared <= b,
        ;
    }
    matmul(p, Weight::FfnGateShexp(il), Buf::ShexpGate, Buf::FfnInput, s.n_embd, width);
    matmul(p, Weight::FfnUpShexp(il), Buf::ShexpUp, Buf::FfnInput, s.n_embd, width);
    p.op2(Kernel::SituGlu { n: width }, Buf::ShexpMid, Buf::ShexpGate, Buf::ShexpUp);
    p.op1(
        Kernel::MatmulQ8_0 { w: Weight::FfnDownShexp(il), n_in: width, n_out: s.n_embd },
        Buf::ShexpOut,
        Buf::ShexpMid,
    );
    p.op2(Kernel::Add { n: s.n_embd }, Buf::FfnOut, Buf::MoeOut, Buf::ShexpOut);
}

/// Which computation serves a layer's experts.
#[derive(Debug, Clone, Copy, PartialEq, Eq, Structural)]
pub enum Path {
    Gpu,
    CpuQ8,
    Host,
}

/// The device serves experts whose three tensors have formats that it knows, gate and up alike.
pub open spec fn gpu_serves(gate: ExpertTensor, up: ExpertTensor, down: ExpertTensor) -> bool {
    weights::is_direct(gate.quant) && up.quant == gate.quant && weights::is_direct(down.quant)
        && gate.row_bytes == up.row_bytes
}

/// Which computation serves a layer's experts: the device where it is asked for and can, the 8-bit
/// one where it is asked for, else the host.
pub open spec fn path_of(b: Backend, gate: ExpertTensor, up: ExpertTensor, down: ExpertTensor) -> Path {
    if b == Backend::Cuda && gpu_serves(gate, up, down) {
        Path::Gpu
    } else if b == Backend::CpuQ8 {
        Path::CpuQ8
    } else {
        Path::Host
    }
}

/// Which computation serves a layer's experts.
pub fn expert_path(b: Backend, gate: &ExpertTensor, up: &ExpertTensor, down: &ExpertTensor) -> (r:
    Path)
    ensures
        r == path_of(b, *gate, *up, *down),
{
    let gate_ok: bool = gate.quant == QUANT_Q2_K || gate.quant == QUANT_Q3_K;
    let down_ok: bool = down.quant == QUANT_Q2_K || down.quant == QUANT_Q3_K;
    if b == Backend::Cuda && gate_ok && up.quant == gate.quant && down_ok && gate.row_bytes
        == up.row_bytes {
        Path::Gpu
    } else if b == Backend::CpuQ8 {
        Path::CpuQ8
    } else {
        Path::Host
    }
}

/// What has to be there before a layer's experts can be computed.
pub struct Resolution {
    /// The distinct experts, ascending.
    pub distinct: Vec<i32>,
    /// The slabs to bring.
    pub wants: Vec<Read>,
    pub path: Path,
    /// On the device: where each slab is staged.
    pub bases: Vec<usize>,
}

/// The complaint about a staging buffer that is too small.
pub open spec fn staging_text(need: nat, have: nat) -> Seq<char> {
    "K3 GPU MoE staging too small: need "@ + text::decimal(need) + " bytes, have "@ + text::decimal(
        have,
    )
}

/// The slabs that the selected experts ask for.
pub open spec fn wanted(
    selected: Seq<i32>,
    n_expert: u32,
    gate: ExpertTensor,
    up: ExpertTensor,
    down: ExpertTensor,
) -> Seq<Read> {
    experts::without_repeats(
        experts::triple_reads(experts::distinct_of(selected, n_expert), gate, up, down),
    )
}

/// Plans what to bring for the selected experts. On the device all slabs are staged one behind the
/// other and have to fit.
pub fn resolve_experts(
    selected: &[i32],
    n_expert: u32,
    gate: &ExpertTensor,
    up: &ExpertTensor,
    down: &ExpertTensor,
    backend: Backend,
    staging_bytes: usize,
) -> (r: Result<Resolution, String>)
    requires
        gate.holds(n_expert as int),
        up.holds(n_expert as int),
        down.holds(n_expert as int),
        experts::bytes_before(
            wanted(selected@, n_expert, *gate, *up, *down),
            wanted(selected@, n_expert, *gate, *up, *down).len() as int,
        ) <= usize::MAX,
    ensures
        match r {
            Ok(x) => {
                &&& x.distinct@ == experts::distinct_of(selected@, n_expert)
                &&& x.wants@ == wanted(selected@, n_expert, *gate, *up, *down)
                &&& x.path == path_of(backend, *gate, *up, *down)
                &&& x.path == Path::Gpu ==> {
                    &&& x.bases@.len() == x.wants@.len()
                    &&& forall|i: int|
                        0 <= i < x.wants@.len() ==> #[trigger] x.bases@[i] == experts::bytes_before(
                            x.wants@,
                            i,
                        )
                    &&& experts::bytes_before(x.wants@, x.wants@.len() as int) <= staging_bytes
                }
            },
            Err(e) => path_of(backend, *gate, *up, *down) == Path::Gpu && {
                let w = wanted(selected@, n_expert, *gate, *up, *down);
                let need = experts::bytes_before(w, w.len() as int);
                need > staging_bytes && e@ == staging_text(need as nat, staging_bytes as nat)
            },
        },
{
    let distinct = distinct_experts(selected, n_expert);
    proof {
        assert forall|i: int| 0 <= i < distinct@.len() implies experts::in_range(
            #[trigger] distinct@[i],
            n_expert,
        ) by {
            assert(distinct@.contains(distinct@[i]));
        }
    }
    let all = expert_triples(&distinct, gate, up, down, n_expert);
    let wants = drop_repeats(&all);
    let path = expert_path(backend, gate, up, down);
    let (bases, total) = stage_layout(&wants);
    if path == Path::Gpu && total > staging_bytes {
        let mut m = String::new();
        push_str(&mut m, "K3 GPU MoE staging too small: need ");
        push_decimal(&mut m, total as u64);
        push_str(&mut m, " bytes, have ");
        push_decimal(&mut m, staging_bytes as u64);
        assert(m@ =~= staging_text(total as nat, staging_bytes as nat));
        return Err(m);
    }
    Ok(Resolution { distinct, wants, path, bases })
}

} // verus!
