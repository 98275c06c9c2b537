//! Computing the selected experts: on the host, on the host with 8-bit activations, on the device.
use vstd::prelude::*;

use super::dims::K3Shape;
use super::kernels::{Buf, Kernel};
use super::moe::{Accumulation, Path};
use super::runtime;
use super::weights;
use super::weights::{k3_expert_blocks, QUANT_Q2_K, QUANT_Q3_K};
use crate::engine::experts;
use crate::engine::experts::{slab_offsets, ExpertTensor, SlabOffsets};
use crate::engine::program;
use crate::engine::program::{Program, Term};
use crate::quant::pack;
use crate::quant::q8row;
use crate::quant::q8row::{
    vec_dot_q2_k_q8_k, vec_dot_q3_k_q8_k, BlockDot, Q8KRow,
};
use crate::text;
use crate::text::{owned, push_decimal, push_str};

verus! {

/// A slot with an expert to compute.
#[derive(Debug, Clone, Copy, PartialEq, Eq, Structural)]
pub struct Job {
    pub slot: u32,
    pub expert: i32,
    pub at: SlabOffsets,
}

/// The three tensors of a layer's experts.
#[derive(Debug, Clone, Copy, PartialEq, Eq, Structural)]
pub struct Tensors {
    pub gate: ExpertTensor,
    pub up: ExpertTensor,
    pub down: ExpertTensor,
}

impl Tensors {
    /// All of `n` experts lie within 64 bits.
    pub open spec fn holds(self, n: u32) -> bool {
        self.gate.holds(n as int) && self.up.holds(n as int) && self.down.holds(n as int)
    }

    /// Whether all of `n` experts lie within 64 bits.
    pub fn fits(&self, n: u32) -> (r: bool)
        ensures
            r == self.holds(n),
    {
        self.gate.fits(n) && self.up.fits(n) && self.down.fits(n)
    }
}

/// A slab that was brought: where it begins in the model, and its bytes.
#[derive(Debug, Clone, Copy, PartialEq, Eq, Structural)]
pub struct Brought {
    pub offset: u64,
    pub len: usize,
}

/// The bytes of the slab that begins at `off`, among those from `i` on.
pub open spec fn brought_len(slabs: Seq<Brought>, i: int, off: u64) -> Option<usize>
    decreases slabs.len() - i,
{
    if i >= slabs.len() {
        None
    } else if slabs[i].offset == off {
        Some(slabs[i].len)
    } else {
        brought_len(slabs, i + 1, off)
    }
}

/// The bytes of the slab that begins at `off`.
fn find_slab(slabs: &Vec<Brought>, off: u64) -> (r: Option<usize>)
    ensures
        r == brought_len(slabs@, 0, off),
{
    let mut i: usize = 0;
    while i < slabs.len()
        invariant
            i <= slabs@.len(),
            brought_len(slabs@, 0, off) == brought_len(slabs@, i as int, off),
        decreases slabs@.len() - i,
    {
        if slabs[i].offset == off {
            return Some(slabs[i].len);
        }
        i = i + 1;
    }
    None
}

/// The complaint about a slab that was not brought.
pub open spec fn missing_text(path: Path, which: Seq<char>, e: i32, off: u64) -> Seq<char> {
    match path {
        Path::Host => "K3 host MoE: "@ + which + " slab "@ + text::decimal(off as nat)
            + " not resolved"@,
        Path::CpuQ8 => "K3 CPU-Q8 "@ + which + " slab missing"@,
        Path::Gpu => "K3 CUDA MoE: missing staged "@ + which + " for expert "@ + text::decimal(
            e as nat,
        ) + " at "@ + text::decimal(off as nat),
    }
}

/// The complaint about a slab that was not brought.
fn complain(path: Path, which: &str, e: i32, off: u64) -> (r: String)
    requires
        e >= 0,
    ensures
        r@ == missing_text(path, which@, e, off),
{
    let mut m = String::new();
    match path {
        Path::Host => {
            push_str(&mut m, "K3 host MoE: ");
            push_str(&mut m, which);
            push_str(&mut m, " slab ");
            push_decimal(&mut m, off);
            push_str(&mut m, " not resolved");
        },
        Path::CpuQ8 => {
            push_str(&mut m, "K3 CPU-Q8 ");
            push_str(&mut m, which);
            push_str(&mut m, " slab missing");
        },
        Path::Gpu => {
            push_str(&mut m, "K3 CUDA MoE: missing staged ");
            push_str(&mut m, which);
            push_str(&mut m, " for expert ");
            push_decimal(&mut m, e as u64);
            push_str(&mut m, " at ");
            push_decimal(&mut m, off);
        },
    }
    assert(m@ =~= missing_text(path, which@, e, off));
    m
}

/// Why a selected expert cannot be computed: one of its slabs is missing or, on the host, cannot be
/// decoded to `n` elements.
pub open spec fn job_fault(path: Path, e: i32, t: Tensors, slabs: Seq<Brought>, n: nat) -> Option<
    Seq<char>,
> {
    let at = experts::offsets_of(e, t.gate, t.up, t.down);
    match (
        brought_len(slabs, 0, at.gate),
        brought_len(slabs, 0, at.up),
        brought_len(slabs, 0, at.down),
    ) {
        (None, _, _) => Some(missing_text(path, "gate"@, e, at.gate)),
        (_, None, _) => Some(missing_text(path, "up"@, e, at.up)),
        (_, _, None) => Some(missing_text(path, "down"@, e, at.down)),
        (Some(g), Some(u), Some(d)) => if path != Path::Host {
            None
        } else if weights::blocks_fault(g as nat, n, t.gate.quant) is Some {
            weights::blocks_fault(g as nat, n, t.gate.quant)
        } else if weights::blocks_fault(u as nat, n, t.up.quant) is Some {
            weights::blocks_fault(u as nat, n, t.up.quant)
        } else {
            weights::blocks_fault(d as nat, n, t.down.quant)
        },
    }
}

/// The jobs of the slots `i .. n`, behind those in `acc`, or the first complaint. Slots without an
/// expert that exists have no job.
pub open spec fn jobs_of(
    path: Path,
    selected: Seq<i32>,
    n_expert: u32,
    t: Tensors,
    slabs: Seq<Brought>,
    elems: nat,
    i: int,
    n: int,
    acc: Seq<Job>,
) -> Result<Seq<Job>, Seq<char>>
    decreases n - i,
{
    if i >= n {
        Ok(acc)
    } else if !experts::in_range(selected[i], n_expert) {
        jobs_of(path, selected, n_expert, t, slabs, elems, i + 1, n, acc)
    } else {
        match job_fault(path, selected[i], t, slabs, elems) {
            Some(e) => Err(e),
            None => jobs_of(
                path,
                selected,
                n_expert,
                t,
                slabs,
                elems,
                i + 1,
                n,
                acc.push(
                    Job {
                        slot: i as u32,
                        expert: selected[i],
                        at: experts::offsets_of(selected[i], t.gate, t.up, t.down),
                    },
                ),
            ),
        }
    }
}

/// Accepts a selected expert.
fn check_job(path: Path, e: i32, t: &Tensors, slabs: &Vec<Brought>, elems: usize, n_expert: u32) -> (r:
    Result<SlabOffsets, String>)
    requires
        experts::in_range(e, n_expert),
        t.holds(n_expert),
        elems <= usize::MAX / 2,
    ensures
        match r {
            Ok(at) => job_fault(path, e, *t, slabs@, elems as nat) is None && at
                == experts::offsets_of(e, t.gate, t.up, t.down),
            Err(m) => job_fault(path, e, *t, slabs@, elems as nat) == Some(m@),
        },
{
    let at = slab_offsets(e, &t.gate, &t.up, &t.down, n_expert);
    let g: usize = match find_slab(slabs, at.gate) {
        Some(g) => g,
        None => {
            return Err(complain(path, "gate", e, at.gate));
        },
    };
    let u: usize = match find_slab(slabs, at.up) {
        Some(u) => u,
        None => {
            return Err(complain(path, "up", e, at.up));
        },
    };
    let d: usize = match find_slab(slabs, at.down) {
        Some(d) => d,
        None => {
            return Err(complain(path, "down", e, at.down));
        },
    };
    if path == Path::Host {
        match k3_expert_blocks(g, elems, t.gate.quant) {
            Ok(_) => {},
            Err(m) => {
                return Err(m);
            },
        }
        match k3_expert_blocks(u, elems, t.up.quant) {
            Ok(_) => {},
            Err(m) => {
                return Err(m);
            },
        }
        match k3_expert_blocks(d, elems, t.down.quant) {
            Ok(_) => {},
            Err(m) => {
                return Err(m);
            },
        }
    }
    Ok(at)
}

/// The jobs of the first `n` slots.
fn jobs(
    path: Path,
    selected: &[i32],
    n_expert: u32,
    t: &Tensors,
    slabs: &Vec<Brought>,
    elems: usize,
    n: usize,
) -> (r: Result<Vec<Job>, String>)
    requires
        n <= selected@.len(),
        n <= u32::MAX,
        t.holds(n_expert),
        elems <= usize::MAX / 2,
    ensures
        match r {
            Ok(v) => {
                &&& jobs_of(
                    path,
                    selected@,
                    n_expert,
                    *t,
                    slabs@,
                    elems as nat,
                    0,
                    n as int,
                    Seq::empty(),
                ) == Ok::<_, Seq<char>>(v@)
                &&& slots_ascend(v@, n as int)
            },
            Err(e) => jobs_of(
                path,
                selected@,
                n_expert,
                *t,
                slabs@,
                elems as nat,
                0,
                n as int,
                Seq::empty(),
            ) == Err::<Seq<Job>, _>(e@),
        },
{
    let mut out: Vec<Job> = Vec::new();
    let mut i: usize = 0;
    assert(out@ =~= Seq::<Job>::empty());
    while i < n
        invariant
            i <= n <= selected@.len(),
            n <= u32::MAX,
            t.holds(n_expert),
            elems <= usize::MAX / 2,
            slots_ascend(out@, i as int),
            jobs_of(
                path,
                selected@,
                n_expert,
                *t,
                slabs@,
                elems as nat,
                0,
                n as int,
                Seq::empty(),
            ) == jobs_of(
                path,
                selected@,
                n_expert,
                *t,
                slabs@,
                elems as nat,
                i as int,
                n as int,
                out@,
            ),
        decreases n - i,
    {
        let e: i32 = selected[i];
        if e >= 0 && (e as u32) < n_expert {
            match check_job(path, e, t, slabs, elems, n_expert) {
                Ok(at) => {
                    out.push(Job { slot: i as u32, expert: e, at });
                },
                Err(m) => {
                    return Err(m);
                },
            }
        }
        i = i + 1;
    }
    Ok(out)
}

/// The slots of the jobs ascend and lie below `n`.
pub open spec fn slots_ascend(v: Seq<Job>, n: int) -> bool {
    &&& forall|i: int| 0 <= i < v.len() ==> (#[trigger] v[i]).slot < n
    &&& forall|i: int, j: int|
        0 <= i < j < v.len() ==> (#[trigger] v[i]).slot < (#[trigger] v[j]).slot
}

/// The jobs of the host computation: each slot whose expert exists, in order. All three slabs of
/// each have to be there and to decode to a full matrix.
pub fn k3_host_moe_compute(
    s: &K3Shape,
    selected: &[i32],
    t: &Tensors,
    slabs: &Vec<Brought>,
) -> (r: Result<Vec<Job>, String>)
    requires
        s.wf_expert(),
        s.moe_latent_size * s.n_ff_exp <= usize::MAX / 2,
        s.n_expert_used <= selected@.len(),
        t.holds(s.n_expert),
    ensures
        ({
            let want = jobs_of(
                Path::Host,
                selected@,
                s.n_expert,
                *t,
                slabs@,
                (s.moe_latent_size * s.n_ff_exp) as nat,
                0,
                s.n_expert_used as int,
                Seq::empty(),
            );
            match r {
                Ok(v) => want == Ok::<_, Seq<char>>(v@) && slots_ascend(
                    v@,
                    s.n_expert_used as int,
                ),
                Err(e) => want == Err::<Seq<Job>, _>(e@),
            }
        }),
{
    let elems: u32 = s.moe_latent_size * s.n_ff_exp;
    let ghost sel = selected@;
    let total: usize = selected.len();
    assert(s.n_expert_used <= total);
    jobs(
        Path::Host,
        selected,
        s.n_expert,
        t,
        slabs,
        elems as usize,
        s.n_expert_used as usize,
    )
}

/// The 8-bit computation serves gate and up in the same format, and down in one of the two.
pub open spec fn q8_serves(t: Tensors) -> bool {
    weights::is_direct(t.gate.quant) && t.up.quant == t.gate.quant && weights::is_direct(
        t.down.quant,
    )
}

/// The complaint about formats that the 8-bit computation does not serve.
pub open spec fn q8_formats_text() -> Seq<char> {
    "K3 CPU-Q8 requires matching Q2_K or Q3_K expert weights"@
}

/// The jobs of the 8-bit host computation.
pub fn k3_cpu_q8_moe_compute(
    s: &K3Shape,
    selected: &[i32],
    t: &Tensors,
    slabs: &Vec<Brought>,
) -> (r: Result<Vec<Job>, String>)
    requires
        s.n_expert_used <= selected@.len(),
        t.holds(s.n_expert),
    ensures
        ({
            let want = jobs_of(
                Path::CpuQ8,
                selected@,
                s.n_expert,
                *t,
                slabs@,
                0,
                0,
                s.n_expert_used as int,
                Seq::empty(),
            );
            match r {
                Ok(v) => q8_serves(*t) && want == Ok::<_, Seq<char>>(v@) && slots_ascend(
                    v@,
                    s.n_expert_used as int,
                ),
                Err(e) => if q8_serves(*t) {
                    want == Err::<Seq<Job>, _>(e@)
                } else {
                    e@ == q8_formats_text()
                },
            }
        }),
{
    let both_q2: bool = t.gate.quant == QUANT_Q2_K && t.up.quant == QUANT_Q2_K;
    let both_q3: bool = t.gate.quant == QUANT_Q3_K && t.up.quant == QUANT_Q3_K;
    let down: bool = t.down.quant == QUANT_Q2_K || t.down.quant == QUANT_Q3_K;
    if !(both_q2 || both_q3) || !down {
        return Err(owned("K3 CPU-Q8 requires matching Q2_K or Q3_K expert weights"));
    }
    let total: usize = selected.len();
    assert(s.n_expert_used <= total);
    jobs(Path::CpuQ8, selected, s.n_expert, t, slabs, 0, s.n_expert_used as usize)
}

/// The complaint about a format that the 8-bit product does not know.
pub open spec fn q8_quant_text(quant: u32) -> Seq<char> {
    "K3 CPU-Q8 unsupported expert quant "@ + text::decimal(quant as nat)
}

/// Bytes of a packed block of a format that the 8-bit product knows.
pub open spec fn q8_block_bytes(quant: u32) -> int {
    if quant == QUANT_Q2_K {
        pack::Q2_K_BLOCK_BYTES as int
    } else {
        pack::Q3_K_BLOCK_BYTES as int
    }
}

/// The product of a packed row with a row of 8-bit levels.
pub fn k3_q8_dot(quant: u32, row: &[u8], x: &Q8KRow, n: usize) -> (r: Result<
    Vec<BlockDot>,
    String,
>)
    requires
        x.wf(),
        n % 256 == 0,
        n / 256 <= x.d@.len(),
        weights::is_direct(quant) ==> (n / 256) * q8_block_bytes(quant) <= row@.len(),
    ensures
        match r {
            Ok(v) => {
                &&& weights::is_direct(quant)
                &&& v@.len() == n / 256
                &&& forall|b: int|
                    0 <= b < v@.len() ==> #[trigger] v@[b] == if quant == QUANT_Q2_K {
                        q8row::q2_k_block(row@, *x, b)
                    } else {
                        q8row::q3_k_block(row@, *x, b)
                    }
            },
            Err(e) => !weights::is_direct(quant) && e@ == q8_quant_text(quant),
        },
{
    if quant == QUANT_Q2_K {
        Ok(vec_dot_q2_k_q8_k(row, x, n))
    } else if quant == QUANT_Q3_K {
        Ok(vec_dot_q3_k_q8_k(row, x, n))
    } else {
        let mut m = String::new();
        push_str(&mut m, "K3 CPU-Q8 unsupported expert quant ");
        push_decimal(&mut m, quant as u64);
        assert(m@ =~= q8_quant_text(quant));
        Err(m)
    }
}

/// The host computation replaces the accumulated experts.
pub fn host_experts(p: &mut Program<Buf, Kernel>, s: &K3Shape, q8: bool)
    ensures
        runtime::roomy(*s) && runtime::all_fit(*s, old(p)@) ==> runtime::all_fit(*s, final(p)@),
        final(p).store() == old(p).store().insert(
            Buf::LatentNormed,
            program::ap2(
                Kernel::HostExperts { q8, n: s.moe_latent_size },
                old(p).store()[Buf::Latent],
                old(p).store()[Buf::ExpertWeights],
            ),
        ),
{
    p.op2(
        Kernel::HostExperts { q8, n: s.moe_latent_size },
        Buf::LatentNormed,
        Buf::Latent,
        Buf::ExpertWeights,
    );
}

/// The complaint about routing tables of the wrong length.
pub open spec fn slots_text(ids: nat, n_weights: nat, used: u32) -> Seq<char> {
    "K3 CUDA MoE: routing slots/weights mismatch: ids="@ + text::decimal(ids) + ", weights="@
        + text::decimal(n_weights) + ", expected="@ + text::decimal(used as nat)
}

/// What the expert of a slot gives on the device: gate and up on the quantized latent, then down on
/// the quantized result. The weight of the router is not applied here.
pub open spec fn slot_output(s: K3Shape, t: Tensors, slot: u32, x: Term<Buf, Kernel>) -> Term<
    Buf,
    Kernel,
> {
    let at = program::ap(Kernel::WriteExpert { slot }, Seq::<Term<Buf, Kernel>>::empty());
    let one = program::ap(Kernel::WriteOne, Seq::<Term<Buf, Kernel>>::empty());
    let mid = program::ap3(
        Kernel::ExpertPair {
            n_in: s.moe_latent_size,
            n_mid: s.n_ff_exp,
            row_bytes: t.gate.row_bytes,
            quant: t.gate.quant,
        },
        at,
        one,
        program::ap1(Kernel::QuantizeQ8k { n: s.moe_latent_size }, x),
    );
    program::ap2(
        Kernel::ExpertDown {
            n_mid: s.n_ff_exp,
            n_out: s.moe_latent_size,
            row_bytes: t.down.row_bytes,
            quant: t.down.quant,
        },
        at,
        program::ap1(Kernel::QuantizeQ8k { n: s.n_ff_exp }, mid),
    )
}

/// The weights of the router and, behind them, the outputs of the jobs in order.
pub open spec fn summands(
    s: K3Shape,
    t: Tensors,
    v: Seq<Job>,
    st: Map<Buf, Term<Buf, Kernel>>,
) -> Seq<Term<Buf, Kernel>> {
    seq![st[Buf::ExpertWeights]] + Seq::new(
        v.len(),
        |i: int| slot_output(s, t, v[i].slot, st[Buf::Latent]),
    )
}

/// The buffers that the device computation writes.
pub open spec fn gpu_writes(b: Buf) -> bool {
    ||| b == Buf::Q8k
    ||| b == Buf::ExpertPtr
    ||| b == Buf::OneWeight
    ||| b == Buf::ExpertMid
    ||| b == Buf::ExpertStaging
    ||| b == Buf::ExpertDown
    ||| b is Slot
    ||| b == Buf::LatentNormed
}

/// Launches the expert of one slot.
fn launch_slot(p: &mut Program<Buf, Kernel>, s: &K3Shape, t: &Tensors, slot: u32)
    requires
        old(p).store()[Buf::Q8k] == program::ap1(
            Kernel::QuantizeQ8k { n: s.moe_latent_size },
            old(p).store()[Buf::Latent],
        ),
    ensures
        runtime::roomy(*s) && runtime::all_fit(*s, old(p)@) ==> runtime::all_fit(*s, final(p)@),
        ({
            let st = old(p).store();
            let end = final(p).store();
            &&& end[Buf::Slot(slot)] == slot_output(*s, *t, slot, st[Buf::Latent])
            &&& forall|b: Buf|
                b != Buf::ExpertPtr && b != Buf::OneWeight && b != Buf::ExpertMid && b
                    != Buf::ExpertStaging && b != Buf::ExpertDown && b != Buf::Slot(slot)
                    ==> #[trigger] end[b] == st[b]
        }),
{
    p.op0(Kernel::WriteExpert { slot }, Buf::ExpertPtr);
    p.op0(Kernel::WriteOne, Buf::OneWeight);
    p.op3(
        Kernel::ExpertPair {
            n_in: s.moe_latent_size,
            n_mid: s.n_ff_exp,
            row_bytes: t.gate.row_bytes,
            quant: t.gate.quant,
        },
        Buf::ExpertMid,
        Buf::ExpertPtr,
        Buf::OneWeight,
        Buf::Q8k,
    );
    p.op1(Kernel::QuantizeQ8k { n: s.n_ff_exp }, Buf::ExpertStaging, Buf::ExpertMid);
    p.op2(
        Kernel::ExpertDown {
            n_mid: s.n_ff_exp,
            n_out: s.moe_latent_size,
            row_bytes: t.down.row_bytes,
            quant: t.down.quant,
        },
        Buf::ExpertDown,
        Buf::ExpertPtr,
        Buf::ExpertStaging,
    );
    p.copy(Kernel::Copy { n: s.moe_latent_size }, Buf::Slot(slot), Buf::ExpertDown);
}

/// Launches the selected experts on the device, one slot after the other, and adds their outputs
/// up. Each expert quantizes its own activation, and its weight is applied to its output.
pub fn k3_gpu_moe_compute(
    p: &mut Program<Buf, Kernel>,
    s: &K3Shape,
    selected: &[i32],
    n_weights: usize,
    t: &Tensors,
    slabs: &Vec<Brought>,
    mode: Accumulation,
) -> (r: Result<Vec<Job>, String>)
    requires
        selected@.len() <= u32::MAX,
        t.holds(s.n_expert),
    ensures
        runtime::roomy(*s) && runtime::all_fit(*s, old(p)@) ==> runtime::all_fit(*s, final(p)@),
        ({
            let st = old(p).store();
            let want = jobs_of(
                Path::Gpu,
                selected@,
                s.n_expert,
                *t,
                slabs@,
                0,
                0,
                selected@.len() as int,
                Seq::empty(),
            );
            match r {
                Ok(v) => {
                    &&& want == Ok::<_, Seq<char>>(v@)
                    &&& selected@.len() == s.n_expert_used == n_weights
                    &&& slots_ascend(v@, selected@.len() as int)
                    &&& final(p).store()[Buf::LatentNormed] == program::ap(
                        Kernel::Accumulate { mode, n: s.moe_latent_size },
                        summands(*s, *t, v@, st),
                    )
                    &&& forall|b: Buf| !gpu_writes(b) ==> #[trigger] final(p).store()[b] == st[b]
                },
                Err(e) => *final(p) == *old(p) && match want {
                    Err(m) => e@ == m,
                    Ok(_) => !(selected@.len() == s.n_expert_used == n_weights) && e@ == slots_text(
                        selected@.len(),
                        n_weights as nat,
                        s.n_expert_used,
                    ),
                },
            }
        }),
{
    let n: usize = selected.len();
    let v = match jobs(Path::Gpu, selected, s.n_expert, t, slabs, 0, n) {
        Ok(v) => v,
        Err(e) => {
            return Err(e);
        },
    };
    if n != s.n_expert_used as usize || n_weights != n {
        let mut m = String::new();
        push_str(&mut m, "K3 CUDA MoE: routing slots/weights mismatch: ids=");
        push_decimal(&mut m, n as u64);
        push_str(&mut m, ", weights=");
        push_decimal(&mut m, n_weights as u64);
        push_str(&mut m, ", expected=");
        push_decimal(&mut m, s.n_expert_used as u64);
        assert(m@ =~= slots_text(n as nat, n_weights as nat, s.n_expert_used));
        return Err(m);
    }
    let ghost st = p.store();
    p.op1(Kernel::QuantizeQ8k { n: s.moe_latent_size }, Buf::Q8k, Buf::Latent);
    let ghost q8 = p.store()[Buf::Q8k];
    let mut args: Vec<Buf> = Vec::new();
    args.push(Buf::ExpertWeights);
    let mut i: usize = 0;
    while i < v.len()
        invariant
            i <= v@.len(),
            slots_ascend(v@, n as int),
            q8 == program::ap1(Kernel::QuantizeQ8k { n: s.moe_latent_size }, st[Buf::Latent]),
            p.store()[Buf::Q8k] == q8,
            runtime::roomy(*s) && runtime::all_fit(*s, old(p)@) ==> runtime::all_fit(*s, p@),
            forall|b: Buf| !gpu_writes(b) ==> #[trigger] p.store()[b] == st[b],
            forall|k: int|
                0 <= k < i ==> p.store()[Buf::Slot((#[trigger] v@[k]).slot)] == slot_output(
                    *s,
                    *t,
                    v@[k].slot,
                    st[Buf::Latent],
                ),
            args@.len() == i + 1,
            args@[0] == Buf::ExpertWeights,
            forall|k: int| 0 <= k < i ==> #[trigger] args@[k + 1] == Buf::Slot(v@[k].slot),
        decreases v@.len() - i,
    {
        let ghost before = p.store();
        let slot: u32 = v[i].slot;
        assert(p.store()[Buf::Latent] == st[Buf::Latent]);
        launch_slot(p, s, t, slot);
        args.push(Buf::Slot(slot));
        proof {
            assert forall|k: int| 0 <= k < i + 1 implies p.store()[Buf::Slot(
                (#[trigger] v@[k]).slot,
            )] == slot_output(*s, *t, v@[k].slot, st[Buf::Latent]) by {
                if k < i {
                    assert(v@[k].slot < v@[i as int].slot);
                    assert(p.store()[Buf::Slot(v@[k].slot)] == before[Buf::Slot(v@[k].slot)]);
                }
            }
            assert forall|k: int| 0 <= k < i + 1 implies #[trigger] args@[k + 1] == Buf::Slot(
                v@[k].slot,
            ) by {}
        }
        i = i + 1;
    }
    proof {
        let c = program::contents(p.store(), args@);
        let want = summands(*s, *t, v@, st);
        assert forall|k: int| 0 <= k < c.len() implies c[k] == want[k] by {
            if k == 0 {
                assert(p.store()[Buf::ExpertWeights] == st[Buf::ExpertWeights]);
            } else {
                let j = k - 1;
                assert(args@[j + 1] == Buf::Slot(v@[j].slot));
                assert(want[k] == slot_output(*s, *t, v@[j].slot, st[Buf::Latent]));
            }
        }
        assert(c =~= want);
    }
    p.op_list(Kernel::Accumulate { mode, n: s.moe_latent_size }, Buf::LatentNormed, args);
    Ok(v)
}

/// Bytes of `n` elements quantized to 8 bits.
pub open spec fn q8k_bytes(n: u32) -> int {
    ((n + 255) / 256) * 292
}

/// Bytes of `n` elements quantized to 8 bits.
pub fn q8k_size(n: u32) -> (r: u64)
    ensures
        r == q8k_bytes(n),
{
    let blocks: u64 = (n as u64 + 255) / 256;
    assert(blocks <= 0x100_0000);
    blocks * 292
}

/// The buffers of the device computation that have to grow, with their new sizes.
pub fn grown_scratch(
    s: &K3Shape,
    q8k: u64,
    expert_mid: u64,
    expert_staging: u64,
    expert_down: u64,
) -> (r: Vec<(Buf, u64)>)
    ensures
        r@ == grown(Buf::Q8k, q8k, q8k_bytes(s.moe_latent_size)) + grown(
            Buf::ExpertMid,
            expert_mid,
            s.n_ff_exp * 4,
        ) + grown(Buf::ExpertStaging, expert_staging, q8k_bytes(s.n_ff_exp)) + grown(
            Buf::ExpertDown,
            expert_down,
            s.moe_latent_size * 4,
        ),
{
    let mut out: Vec<(Buf, u64)> = Vec::new();
    let a: u64 = q8k_size(s.moe_latent_size);
    if q8k < a {
        out.push((Buf::Q8k, a));
    }
    assert(out@ =~= grown(Buf::Q8k, q8k, q8k_bytes(s.moe_latent_size)));
    let ghost one = out@;
    let b: u64 = s.n_ff_exp as u64 * 4;
    if expert_mid < b {
        out.push((Buf::ExpertMid, b));
    }
    assert(out@ =~= one + grown(Buf::ExpertMid, expert_mid, s.n_ff_exp * 4));
    let ghost two = out@;
    let c: u64 = q8k_size(s.n_ff_exp);
    if expert_staging < c {
        out.push((Buf::ExpertStaging, c));
    }
    assert(out@ =~= two + grown(Buf::ExpertStaging, expert_staging, q8k_bytes(s.n_ff_exp)));
    let ghost three = out@;
    let d: u64 = s.moe_latent_size as u64 * 4;
    if expert_down < d {
        out.push((Buf::ExpertDown, d));
    }
    assert(out@ =~= three + grown(Buf::ExpertDown, expert_down, s.moe_latent_size * 4));
    out
}

/// A buffer with its new size where it is too small.
pub open spec fn grown(b: Buf, have: u64, need: int) -> Seq<(Buf, u64)> {
    if have < need {
        seq![(b, need as u64)]
    } else {
        Seq::empty()
    }
}

} // verus!
