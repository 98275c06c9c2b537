//! The runtime of the model: its recurrent state, its snapshot bank, and scratch that the layers
//! share.
use vstd::prelude::*;

use super::dims;
use super::dims::{wide, K3LayerKind, K3Shape};
use super::kernels::{Buf, Kernel};
use crate::engine::program::{Program, Step, Term};

verus! {

/// Elements of a scratch buffer of the runtime.
pub open spec fn scratch_elems(s: K3Shape, b: Buf) -> Option<int> {
    let e = s.n_embd as int;
    let lat = dims::some(s.moe_latent_size);
    let ff = dims::some(s.n_ff_exp);
    match b {
        Buf::Normed => Some(e),
        Buf::AttnOut => Some(dims::most(e, s.mla_q())),
        Buf::FfnOut => Some(dims::most(dims::most(e, lat), s.mla_kv())),
        Buf::RouterLogits => Some(dims::most(dims::some(s.n_expert), s.mla_gate())),
        Buf::Latent => Some(dims::most(lat, s.n_kv_lora as int)),
        Buf::MoeOut => Some(dims::most(dims::most(e, lat), s.qk_rope as int)),
        Buf::ShexpOut => Some(dims::most(e, s.mla_gate())),
        Buf::MixOut => Some(dims::most(e, s.mla_gate())),
        Buf::KdaFa => Some(s.kda_head_dim as int),
        Buf::KdaGRaw
        | Buf::KdaGateLogits
        | Buf::KdaConvOut
        | Buf::KdaQ
        | Buf::KdaK
        | Buf::KdaV
        | Buf::KdaGated
        | Buf::KdaONormed => Some(s.d_inner()),
        Buf::DenseGate | Buf::DenseUp | Buf::DenseMid => Some(dims::some(s.n_ff_dense)),
        Buf::ShexpGate | Buf::ShexpUp | Buf::ShexpMid => Some(s.shexp()),
        Buf::ExpertSelected | Buf::ExpertWeights => Some(dims::some(s.n_expert_used)),
        Buf::ExpertStaging | Buf::ExpertDown | Buf::LatentNormed => Some(lat),
        Buf::ExpertGate | Buf::ExpertUp | Buf::ExpertMid => Some(ff),
        _ => None,
    }
}

/// Elements that the scratch for a quantized activation takes, in whole blocks.
pub open spec fn q8k_elems(s: K3Shape) -> int {
    dims::most(dims::most(s.n_embd as int, s.moe_latent_size as int), s.n_ff_dense as int)
}

/// Elements of the convolution window of a layer of delta attention.
pub open spec fn window_elems(s: K3Shape) -> int {
    dims::most(dims::some(s.ssm_conv_k) - 1, 1) * s.d_inner()
}

/// Elements of the delta-rule state of a layer.
pub open spec fn state_elems(s: K3Shape) -> int {
    s.kda_head_dim * s.kda_head_dim * s.n_head
}

/// Snapshots that the bank holds: one for every block of layers.
pub open spec fn bank_rows(s: K3Shape) -> int {
    (s.n_exec_layer + s.block() - 1) / s.block()
}

/// The sizes, in bytes, that the runtime allocates for.
pub struct RuntimeSizes {
    pub conv: u64,
    pub ssm: u64,
    pub bank: u64,
    pub bank_rows: u32,
    pub q8k: u64,
}

/// A placeholder of a layer without recurrent state.
pub const PLACEHOLDER_BYTES: u64 = 4;

/// The greater of two.
fn larger(a: u64, b: u64) -> (r: u64)
    ensures
        r == dims::most(a as int, b as int),
{
    if a > b {
        a
    } else {
        b
    }
}

/// The recurrent states and the bank have 64-bit numbers of bytes.
pub open spec fn states_fit(s: K3Shape) -> bool {
    &&& window_elems(s) * 4 <= u64::MAX
    &&& state_elems(s) * 4 <= u64::MAX
    &&& bank_rows(s) * s.n_embd * 4 <= u64::MAX
}

/// So has every scratch buffer.
pub open spec fn scratch_fits(s: K3Shape) -> bool {
    &&& s.qk() <= u32::MAX
    &&& s.d_inner() * 4 <= u64::MAX
    &&& s.mla_q() * 4 <= u64::MAX
    &&& s.mla_kv() * 4 <= u64::MAX
    &&& s.mla_gate() * 4 <= u64::MAX
    &&& s.shexp() * 4 <= u64::MAX
}

/// Snapshots that the bank holds.
fn snapshots(s: &K3Shape) -> (r: u32)
    ensures
        r == bank_rows(*s),
{
    let block: u64 = larger(s.attn_res_block_size as u64, 1);
    let n: u64 = s.n_exec_layer as u64;
    let rows: u64 = (n + (block - 1)) / block;
    assert(rows <= n) by {
        let x = (n + block - 1) as int;
        vstd::arithmetic::div_mod::lemma_fundamental_div_mod(x, block as int);
        if n == 0 {
            vstd::arithmetic::div_mod::lemma_basic_div(x, block as int);
        } else {
            assert(rows <= n) by (nonlinear_arith)
                requires
                    block * rows <= n + block - 1,
                    block >= 1,
                    n >= 1,
                    rows >= 0,
            ;
        }
    }
    rows as u32
}

/// Elements of the streams of delta attention.
fn stream_elems(s: &K3Shape) -> (r: u64)
    ensures
        r == s.d_inner(),
{
    assert(0 <= s.n_head * s.kda_head_dim <= 0xffff_ffff * 0xffff_ffff) by (nonlinear_arith)
        requires
            0 <= s.n_head <= 0xffff_ffff,
            0 <= s.kda_head_dim <= 0xffff_ffff,
    ;
    s.n_head as u64 * s.kda_head_dim as u64
}

/// Whether the runtime can be allocated as far as its sizes are numbers of 64 bits.
pub fn fits_memory(s: &K3Shape) -> (r: bool)
    ensures
        r == (states_fit(*s) && scratch_fits(*s)),
{
    let top: u128 = 0x3fff_ffff_ffff_ffff;
    let d: u64 = stream_elems(s);
    let hd: u64 = s.kda_head_dim as u64;
    let win: u64 = larger(larger(s.ssm_conv_k as u64, 1) - 1, 1);
    let rows: u32 = snapshots(s);
    assert(hd * hd * s.n_head == (s.n_head * hd) * hd) by (nonlinear_arith);
    let states: bool = wide(win, d) <= top && wide(d, hd) <= top && wide(
        rows as u64,
        s.n_embd as u64,
    ) <= top;
    let qk: u64 = s.qk_nope as u64 + s.qk_rope as u64;
    let v: u64 = s.value_mla as u64;
    let n: u64 = s.n_head as u64;
    let shared: u128 = wide(
        larger(s.n_ff_exp as u64, 1),
        larger(s.n_expert_shared as u64, 1),
    );
    let scratch: bool = qk <= 0xffff_ffff && d as u128 <= top && wide(n, larger(qk, v)) <= top
        && wide(n, qk + v) <= top && wide(n, v) <= top && shared <= top;
    states && scratch
}

/// The recurrent sizes of the runtime.
pub fn runtime_sizes(s: &K3Shape) -> (r: RuntimeSizes)
    requires
        states_fit(*s),
    ensures
        r.conv == window_elems(*s) * 4,
        r.ssm == state_elems(*s) * 4,
        r.bank_rows == bank_rows(*s),
        r.bank == bank_rows(*s) * s.n_embd * 4,
        r.q8k == ((q8k_elems(*s) + 255) / 256) * 292,
{
    let d: u64 = stream_elems(s);
    let win: u64 = larger(larger(s.ssm_conv_k as u64, 1) - 1, 1);
    assert(0 <= win * d) by (nonlinear_arith);
    let rows: u32 = snapshots(s);
    let hd: u64 = s.kda_head_dim as u64;
    assert(hd * hd * s.n_head == (s.n_head * hd) * hd) by (nonlinear_arith);
    assert(0 <= d * hd && 0 <= rows * s.n_embd) by (nonlinear_arith);
    let q: u64 = larger(
        larger(s.n_embd as u64, s.moe_latent_size as u64),
        s.n_ff_dense as u64,
    );
    RuntimeSizes {
        conv: win * d * 4,
        ssm: d * hd * 4,
        bank: rows as u64 * s.n_embd as u64 * 4,
        bank_rows: rows,
        q8k: (q + 255) / 256 * 292,
    }
}

/// Bytes of the recurrent state of a layer: convolution window and delta-rule state, or two
/// placeholders.
pub open spec fn state_bytes(sizes: RuntimeSizes, kind: K3LayerKind) -> (u64, u64) {
    match kind {
        K3LayerKind::Kda => (sizes.conv, sizes.ssm),
        K3LayerKind::Mla => (PLACEHOLDER_BYTES, PLACEHOLDER_BYTES),
    }
}

/// Bytes of the recurrent state of a layer.
pub fn layer_state_bytes(sizes: &RuntimeSizes, kind: K3LayerKind) -> (r: (u64, u64))
    ensures
        r == state_bytes(*sizes, kind),
{
    match kind {
        K3LayerKind::Kda => (sizes.conv, sizes.ssm),
        K3LayerKind::Mla => (PLACEHOLDER_BYTES, PLACEHOLDER_BYTES),
    }
}

/// What a state of `bytes` bytes holds once it is reset: a placeholder is left alone.
pub open spec fn reset_state(bytes: u64, before: Term<Buf, Kernel>) -> Term<Buf, Kernel> {
    if bytes > PLACEHOLDER_BYTES {
        Term::App { f: Kernel::Zero { bytes }, part: 0, args: Seq::empty() }
    } else {
        before
    }
}

/// From `st` to `end` the recurrent states of all layers are cleared.
pub open spec fn cleared(
    kinds: Seq<K3LayerKind>,
    sizes: RuntimeSizes,
    st: Map<Buf, Term<Buf, Kernel>>,
    end: Map<Buf, Term<Buf, Kernel>>,
) -> bool {
    &&& forall|il: u32, c: u32| #[trigger]
        end[Buf::Conv(il, c)] == if il < kinds.len() && c < 3 {
            reset_state(state_bytes(sizes, kinds[il as int]).0, st[Buf::Conv(il, c)])
        } else {
            st[Buf::Conv(il, c)]
        }
    &&& forall|il: u32| #[trigger]
        end[Buf::Ssm(il)] == if il < kinds.len() {
            reset_state(state_bytes(sizes, kinds[il as int]).1, st[Buf::Ssm(il)])
        } else {
            st[Buf::Ssm(il)]
        }
    &&& forall|b: Buf| !(b is Conv) && !(b is Ssm) ==> #[trigger] end[b] == st[b]
}

/// Clears the recurrent states of all layers, for a new sequence.
pub fn reset(p: &mut Program<Buf, Kernel>, kinds: &Vec<K3LayerKind>, sizes: &RuntimeSizes)
    requires
        kinds@.len() <= u32::MAX,
    ensures
        cleared(kinds@, *sizes, old(p).store(), final(p).store()),
{
    let ghost st = p.store();
    let n: usize = kinds.len();
    let mut i: usize = 0;
    while i < n
        invariant
            i <= n,
            n == kinds@.len() <= u32::MAX,
            forall|il: u32, c: u32| #[trigger]
                p.store()[Buf::Conv(il, c)] == if il < i && c < 3 {
                    reset_state(
                        state_bytes(*sizes, kinds@[il as int]).0,
                        st[Buf::Conv(il, c)],
                    )
                } else {
                    st[Buf::Conv(il, c)]
                },
            forall|il: u32| #[trigger]
                p.store()[Buf::Ssm(il)] == if il < i {
                    reset_state(state_bytes(*sizes, kinds@[il as int]).1, st[Buf::Ssm(il)])
                } else {
                    st[Buf::Ssm(il)]
                },
            forall|b: Buf| !(b is Conv) && !(b is Ssm) ==> #[trigger] p.store()[b] == st[b],
        decreases n - i,
    {
        let il: u32 = i as u32;
        let (conv, ssm) = layer_state_bytes(sizes, kinds[i]);
        if conv > PLACEHOLDER_BYTES {
            p.op0(Kernel::Zero { bytes: conv }, Buf::Conv(il, 0));
            p.op0(Kernel::Zero { bytes: conv }, Buf::Conv(il, 1));
            p.op0(Kernel::Zero { bytes: conv }, Buf::Conv(il, 2));
        }
        if ssm > PLACEHOLDER_BYTES {
            p.op0(Kernel::Zero { bytes: ssm }, Buf::Ssm(il));
        }
        i = i + 1;
    }
}

/// Bytes of a scratch buffer.
pub fn scratch_bytes(s: &K3Shape, b: Buf) -> (r: Option<u64>)
    requires
        scratch_fits(*s),
    ensures
        match scratch_elems(*s, b) {
            Some(n) => r == Some((n * 4) as u64) && 0 <= n * 4 <= u64::MAX,
            None => r is None,
        },
{
    let e: u64 = s.n_embd as u64;
    let lat: u64 = larger(s.moe_latent_size as u64, 1);
    let ff: u64 = larger(s.n_ff_exp as u64, 1);
    let qk: u64 = s.qk_nope as u64 + s.qk_rope as u64;
    let h: u64 = s.n_head as u64;
    let v: u64 = s.value_mla as u64;
    proof {
        let m = dims::most(qk as int, v as int);
        assert(0 <= h * m && 0 <= h * v && 0 <= h * (qk + v)) by (nonlinear_arith)
            requires
                0 <= h,
                0 <= m,
                0 <= v,
                0 <= qk,
        ;
    }
    let q: u64 = h * larger(qk, v);
    let g: u64 = h * v;
    let kv: u64 = h * (qk + v);
    let d: u64 = stream_elems(s);
    let n: u64 = match b {
        Buf::Normed => e,
        Buf::AttnOut => larger(e, q),
        Buf::FfnOut => larger(larger(e, lat), kv),
        Buf::RouterLogits => larger(larger(s.n_expert as u64, 1), g),
        Buf::Latent => larger(lat, s.n_kv_lora as u64),
        Buf::MoeOut => larger(larger(e, lat), s.qk_rope as u64),
        Buf::ShexpOut => larger(e, g),
        Buf::MixOut => larger(e, g),
        Buf::KdaFa => s.kda_head_dim as u64,
        Buf::KdaGRaw
        | Buf::KdaGateLogits
        | Buf::KdaConvOut
        | Buf::KdaQ
        | Buf::KdaK
        | Buf::KdaV
        | Buf::KdaGated
        | Buf::KdaONormed => d,
        Buf::DenseGate | Buf::DenseUp | Buf::DenseMid => larger(s.n_ff_dense as u64, 1),
        Buf::ShexpGate | Buf::ShexpUp | Buf::ShexpMid => ff * larger(s.n_expert_shared as u64, 1),
        Buf::ExpertSelected | Buf::ExpertWeights => larger(s.n_expert_used as u64, 1),
        Buf::ExpertStaging | Buf::ExpertDown | Buf::LatentNormed => lat,
        Buf::ExpertGate | Buf::ExpertUp | Buf::ExpertMid => ff,
        _ => {
            return None;
        },
    };
    Some(n * 4)
}

/// The scratch is wide enough for everything that the layers put into it. What the output
/// projections take has to fit the scratch for a quantized activation.
pub open spec fn roomy(s: K3Shape) -> bool {
    &&& s.wf_delta()
    &&& s.wf_latent()
    &&& s.d_inner() <= dims::most(s.n_embd as int, s.mla_q())
    &&& s.n_head <= s.d_inner()
    &&& s.n_lora_q <= s.n_embd
    &&& s.n_kv_lora + s.qk_rope <= s.n_embd
    &&& s.d_inner() <= q8k_elems(s)
    &&& s.mla_gate() <= q8k_elems(s)
}

/// `n` elements fit a buffer.
pub open spec fn fits(s: K3Shape, b: Buf, n: int) -> bool {
    match scratch_elems(s, b) {
        Some(have) => n <= have,
        None => match b {
            Buf::Q8k => n <= q8k_elems(s),
            Buf::Bank(i) => i < bank_rows(s) && n <= s.n_embd,
            Buf::Conv(_, _) => n <= window_elems(s),
            Buf::Ssm(_) => n <= state_elems(s),
            _ => true,
        },
    }
}

/// What a launch touches of its operands fits them. The buffers of the device computation of the
/// experts grow on demand.
pub open spec fn step_fits(s: K3Shape, x: Step<Buf, Kernel>) -> bool {
    let d = |i: int, n: int| fits(s, x.dsts[i], n);
    let a = |i: int, n: int| fits(s, x.args[i], n);
    match x.f {
        Kernel::WriteToken(_) => true,
        Kernel::Embed { n_embd, .. } => d(0, n_embd as int),
        Kernel::Copy { n } => d(0, n as int) && a(0, n as int),
        Kernel::Slice { from, n } => d(0, n as int) && a(0, from + n),
        Kernel::QuantizeQ8k { n } => a(0, n as int) && match x.dsts[0] {
            Buf::ExpertStaging => true,
            b => fits(s, b, n as int),
        },
        Kernel::MatmulQ8k { n_in, n_out, .. } => d(0, n_out as int) && a(0, n_in as int),
        Kernel::Matmul { n_in, n_out, .. } => d(0, n_out as int) && d(1, n_in as int) && a(
            0,
            n_in as int,
        ),
        Kernel::MatmulF32 { n_in, n_out, .. } => d(0, n_out as int) && a(0, n_in as int),
        Kernel::MatmulQ8_0 { n_in, n_out, .. } => d(0, n_out as int) && a(0, n_in as int),
        Kernel::RmsNorm { width, rows, .. } => d(0, width * rows) && a(0, width * rows),
        Kernel::L2Norm { rows, width } => d(0, rows * width),
        Kernel::Sconv { d: n, k, .. } => d(0, n as int) && a(0, n as int) && d(
            1,
            dims::most(k - 1, 1) * n,
        ),
        Kernel::SiluDiff { n } => d(0, n as int) && a(0, n as int) && a(1, n as int),
        Kernel::SafeGate { n_head, width, .. } => d(0, n_head * width),
        Kernel::HostSigmoid { n } => d(0, n as int),
        Kernel::KdaStep { n_head, width } => {
            &&& d(0, n_head * width)
            &&& d(1, width * width * n_head)
            &&& a(1, n_head * width)
            &&& a(2, n_head * width)
            &&& a(3, n_head * width)
            &&& a(4, n_head * width)
            &&& a(5, n_head as int)
        },
        Kernel::Sigmoid { n } => d(0, n as int),
        Kernel::Mul { n } => d(0, n as int) && a(1, n as int),
        Kernel::Add { n } => d(0, n as int) && a(0, n as int) && a(1, n as int),
        Kernel::SituGlu { n } => d(0, n as int) && a(0, n as int) && a(1, n as int),
        Kernel::MlaStore { stride, rank, .. } => a(2, rank as int) && a(3, stride as int),
        Kernel::MlaAttention { n_head, qk_nope, qk_rope, v, .. } => d(0, n_head * v) && a(
            0,
            n_head * (qk_nope + qk_rope),
        ),
        Kernel::ResMix { rows, n, .. } => {
            &&& d(0, n as int)
            &&& x.args.len() == rows
            &&& forall|i: int| 0 <= i < x.args.len() ==> fits(s, #[trigger] x.args[i], n as int)
        },
        Kernel::RouterSelect { n_expert, n_used, .. } => d(0, n_used as int) && d(
            1,
            n_used as int,
        ) && a(0, n_expert as int),
        Kernel::HostExperts { n, .. } => d(0, n as int) && a(0, n as int),
        Kernel::HostRmsNorm { n, .. } => d(0, n as int),
        Kernel::WriteExpert { .. } => true,
        Kernel::WriteOne => true,
        Kernel::Accumulate { n, .. } => d(0, n as int),
        Kernel::ExpertPair { n_in, n_mid, .. } => d(0, n_mid as int) && a(2, n_in as int),
        Kernel::ExpertDown { n_out, .. } => d(0, n_out as int),
        Kernel::Head { .. } => true,
        Kernel::Zero { bytes } => d(0, bytes as int / 4),
    }
}

/// Every launch fits its operands.
pub open spec fn all_fit(s: K3Shape, p: Seq<Step<Buf, Kernel>>) -> bool {
    forall|i: int| 0 <= i < p.len() ==> step_fits(s, #[trigger] p[i])
}

} // verus!
