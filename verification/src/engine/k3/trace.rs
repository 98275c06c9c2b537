//! Which buffers are written out around a launch, and under which names.
use vstd::prelude::*;

use super::dims;
use super::dims::{K3LayerKind, K3Shape};
use super::kernels::{Buf, Kernel, Weight};
use crate::engine::program::{Op, Step};

verus! {

/// A buffer to write out: `n` values, under a kind and a name.
#[derive(Debug, Clone, Copy)]
pub struct Snap {
    pub kind: &'static str,
    pub name: &'static str,
    pub buf: Buf,
    pub n: u32,
}

/// A buffer to write out: `n` values, under a kind and a name.
pub struct SnapView {
    pub kind: Seq<char>,
    pub name: Seq<char>,
    pub buf: Buf,
    pub n: u32,
}

impl View for Snap {
    type V = SnapView;

    open spec fn view(&self) -> SnapView {
        SnapView { kind: self.kind@, name: self.name@, buf: self.buf, n: self.n }
    }
}

/// The snapshots of a list.
pub open spec fn snap_views(s: Seq<Snap>) -> Seq<SnapView> {
    s.map_values(|x: Snap| x@)
}

/// One snapshot.
pub open spec fn snap(kind: Seq<char>, name: Seq<char>, buf: Buf, n: u32) -> Seq<SnapView> {
    seq![SnapView { kind, name, buf, n }]
}

/// The snapshot of a buffer of a launch; none where it has not so many.
pub open spec fn snap_of(
    kind: Seq<char>,
    name: Seq<char>,
    bufs: Seq<Buf>,
    i: int,
    n: u32,
) -> Seq<SnapView> {
    if i < bufs.len() {
        snap(kind, name, bufs[i], n)
    } else {
        Seq::empty()
    }
}

/// Values of a stream of delta attention.
pub open spec fn stream_len(s: K3Shape) -> u32 {
    s.d_inner() as u32
}

/// Values of a convolution window.
pub open spec fn window_len(s: K3Shape) -> u32 {
    (s.d_inner() * dims::most(s.ssm_conv_k - 1, 1)) as u32
}

/// Values of a delta-rule state.
pub open spec fn state_len(s: K3Shape) -> u32 {
    (s.d_inner() * s.kda_head_dim) as u32
}

/// What is written out before a launch.
pub open spec fn before(s: K3Shape, op: Step<Buf, Kernel>) -> Seq<SnapView> {
    match op.f {
        Kernel::Sconv { w: Weight::SsmQConv(_), .. } => snap_of(
            "kda_state"@,
            "conv_q_before"@,
            op.dsts,
            1,
            window_len(s),
        ),
        Kernel::Sconv { w: Weight::SsmKConv(_), .. } => snap_of(
            "kda_state"@,
            "conv_k_before"@,
            op.dsts,
            1,
            window_len(s),
        ),
        Kernel::Sconv { .. } => snap_of(
            "kda_state"@,
            "conv_v_before"@,
            op.dsts,
            1,
            window_len(s),
        ),
        Kernel::KdaStep { .. } => snap_of(
            "kda_state"@,
            "recurrent_before"@,
            op.dsts,
            1,
            state_len(s),
        ),
        Kernel::RmsNorm { w: Weight::AttnNorm(_), width, .. } => snap(
            "layer"@,
            "residual_input"@,
            Buf::Cur,
            width,
        ) + snap_of("layer"@, "norm_input"@, op.args, 0, width),
        Kernel::RmsNorm { w: Weight::FfnNorm(_), width, .. } => snap(
            "layer"@,
            "attention_output_before_residual"@,
            Buf::AttnOut,
            width,
        ) + snap("layer"@, "attention_residual_output"@, Buf::Cur, width),
        Kernel::RmsNorm { w: Weight::OutputNorm, width, .. } => snap_of(
            "final"@,
            "hidden"@,
            op.args,
            0,
            width,
        ),
        Kernel::Matmul { w: Weight::FfnLatentDown(_), n_in, .. } => snap_of(
            "moe"@,
            "router_input"@,
            op.args,
            0,
            n_in,
        ),
        _ => Seq::empty(),
    }
}

/// Whether the first result of a launch goes to a buffer.
pub open spec fn writes_to(op: Step<Buf, Kernel>, b: Buf) -> bool {
    op.dsts.len() > 0 && op.dsts[0] == b
}

/// Whether a sum takes what the feed-forward part gave into the residual stream.
pub open spec fn ends_layer(op: Step<Buf, Kernel>) -> bool {
    !writes_to(op, Buf::FfnOut) && op.args.contains(Buf::FfnOut)
}

/// Under which kind and name the first result of a launch is written out, and how many values.
pub open spec fn label(s: K3Shape, layer: K3LayerKind, op: Step<Buf, Kernel>) -> Option<
    (Seq<char>, Seq<char>, u32),
> {
    match op.f {
        Kernel::MatmulQ8k { w: Weight::Wq(_), n_out, .. } => Some(
            ("kda"@, "q_projection"@, n_out),
        ),
        Kernel::MatmulQ8k { w: Weight::Wk(_), n_out, .. } => Some(
            ("kda"@, "k_projection"@, n_out),
        ),
        Kernel::MatmulQ8k { w: Weight::Wv(_), n_out, .. } => Some(
            ("kda"@, "v_projection"@, n_out),
        ),
        Kernel::Sconv { w: Weight::SsmQConv(_), d, .. } => Some(("kda"@, "q_sconv_residual"@, d)),
        Kernel::Sconv { w: Weight::SsmKConv(_), d, .. } => Some(("kda"@, "k_sconv_residual"@, d)),
        Kernel::Sconv { d, .. } => Some(("kda"@, "v_sconv_residual"@, d)),
        Kernel::SiluDiff { n } => if writes_to(op, Buf::KdaQ) {
            Some(("kda"@, "q_conv_output"@, n))
        } else if writes_to(op, Buf::KdaK) {
            Some(("kda"@, "k_conv_output"@, n))
        } else {
            Some(("kda"@, "v_conv_output"@, n))
        },
        Kernel::L2Norm { .. } => if writes_to(op, Buf::KdaQ) {
            Some(("kda"@, "q_normed"@, stream_len(s)))
        } else {
            Some(("kda"@, "k_normed"@, stream_len(s)))
        },
        Kernel::SafeGate { .. } => Some(("kda"@, "gate_alpha"@, stream_len(s))),
        Kernel::HostSigmoid { n } => Some(("kda"@, "beta"@, n)),
        Kernel::KdaStep { .. } => Some(("kda"@, "recurrent_output"@, stream_len(s))),
        Kernel::Sigmoid { n } => if layer == K3LayerKind::Kda {
            Some(("kda"@, "output_gate"@, n))
        } else {
            None
        },
        Kernel::Matmul { w: Weight::Wo(_), n_out, .. } => Some(
            ("kda"@, "output_before_residual"@, n_out),
        ),
        Kernel::RmsNorm { w: Weight::AttnNorm(_), width, .. } => Some(
            ("layer"@, "norm_output"@, width),
        ),
        Kernel::RmsNorm { w: Weight::FfnNorm(_), width, .. } => Some(
            ("layer"@, "moe_input"@, width),
        ),
        Kernel::Matmul { w: Weight::FfnLatentDown(_), n_out, .. } => Some(
            ("moe"@, "latent_projection"@, n_out),
        ),
        Kernel::Matmul { w: Weight::FfnGateInp(_), n_out, .. } => Some(
            ("moe"@, "router_logits"@, n_out),
        ),
        Kernel::HostRmsNorm { n, .. } => Some(("moe"@, "routed_moe_normed"@, n)),
        Kernel::MatmulQ8_0 { w: Weight::FfnLatentUp(_), n_out, .. } => Some(
            ("moe"@, "latent_up_output"@, n_out),
        ),
        Kernel::MatmulQ8_0 { w: Weight::FfnDownShexp(_), n_out, .. } => Some(
            ("moe"@, "shared_expert_output"@, n_out),
        ),
        Kernel::Add { n } => if writes_to(op, Buf::FfnOut) {
            Some(("moe"@, "ffn_output_before_residual"@, n))
        } else if ends_layer(op) {
            Some(("layer"@, "layer_output"@, n))
        } else {
            None
        },
        Kernel::Head { .. } => Some(("final"@, "logits"@, s.n_vocab)),
        _ => None,
    }
}

/// What is written out after a launch: its first result, with the window behind it where it is a
/// convolution, the state before it where it is a step of the delta rule, and under a second name
/// where it ends a layer.
pub open spec fn after(s: K3Shape, layer: K3LayerKind, op: Step<Buf, Kernel>) -> Seq<SnapView> {
    let first = match label(s, layer, op) {
        Some((kind, name, n)) => snap_of(kind, name, op.dsts, 0, n),
        None => Seq::empty(),
    };
    match op.f {
        Kernel::Sconv { w, .. } => first + snap_of(
            "kda_state"@,
            match w {
                Weight::SsmQConv(_) => "conv_q_after"@,
                Weight::SsmKConv(_) => "conv_k_after"@,
                _ => "conv_v_after"@,
            },
            op.dsts,
            1,
            window_len(s),
        ),
        Kernel::KdaStep { .. } => snap_of(
            "kda_state"@,
            "recurrent_after"@,
            op.dsts,
            1,
            state_len(s),
        ) + first,
        Kernel::Add { n } => if ends_layer(op) {
            first + snap_of("layer"@, "hidden"@, op.dsts, 0, n)
        } else {
            first
        },
        _ => first,
    }
}

/// Whether the first result of a launch goes to a buffer.
fn goes_to(op: &Op<Buf, Kernel>, b: Buf) -> (r: bool)
    ensures
        r == writes_to(op@, b),
{
    op.dsts.len() > 0 && op.dsts[0] == b
}

/// Whether a sum takes what the feed-forward part gave into the residual stream.
fn joins_stream(op: &Op<Buf, Kernel>) -> (r: bool)
    ensures
        r == ends_layer(op@),
{
    if goes_to(op, Buf::FfnOut) {
        return false;
    }
    let mut i: usize = 0;
    while i < op.args.len()
        invariant
            i <= op.args@.len(),
            forall|j: int| 0 <= j < i ==> op.args@[j] != Buf::FfnOut,
            !writes_to(op@, Buf::FfnOut),
        decreases op.args@.len() - i,
    {
        if op.args[i] == Buf::FfnOut {
            assert(op@.args[i as int] == Buf::FfnOut);
            return true;
        }
        i = i + 1;
    }
    false
}

/// Adds a snapshot.
fn put(out: &mut Vec<Snap>, kind: &'static str, name: &'static str, buf: Buf, n: u32)
    ensures
        snap_views(final(out)@) == snap_views(old(out)@) + snap(kind@, name@, buf, n),
{
    out.push(Snap { kind, name, buf, n });
    assert(snap_views(out@) =~= snap_views(old(out)@) + snap(kind@, name@, buf, n));
}

/// Adds the snapshot of a buffer of a launch, where it has so many.
fn put_of(
    out: &mut Vec<Snap>,
    kind: &'static str,
    name: &'static str,
    bufs: &Vec<Buf>,
    i: usize,
    n: u32,
)
    ensures
        snap_views(final(out)@) == snap_views(old(out)@) + snap_of(
            kind@,
            name@,
            bufs@,
            i as int,
            n,
        ),
{
    if i < bufs.len() {
        put(out, kind, name, bufs[i], n);
    }
    assert(snap_views(out@) =~= snap_views(old(out)@) + snap_of(kind@, name@, bufs@, i as int, n));
}

/// Values of a convolution window.
fn window_values(s: &K3Shape) -> (r: u32)
    requires
        s.wf_states(),
    ensures
        r == window_len(*s),
{
    let k: u32 = if s.ssm_conv_k > 2 {
        s.ssm_conv_k - 1
    } else {
        1
    };
    s.inner() * k
}

/// What is written out before a launch.
pub fn snaps_before(s: &K3Shape, op: &Op<Buf, Kernel>) -> (r: Vec<Snap>)
    requires
        s.wf_states(),
    ensures
        snap_views(r@) == before(*s, op@),
{
    let mut v: Vec<Snap> = Vec::new();
    assert(snap_views(v@) =~= Seq::<SnapView>::empty());
    match op.f {
        Kernel::Sconv { w: Weight::SsmQConv(_), .. } => {
            put_of(&mut v, "kda_state", "conv_q_before", &op.dsts, 1, window_values(s));
        },
        Kernel::Sconv { w: Weight::SsmKConv(_), .. } => {
            put_of(&mut v, "kda_state", "conv_k_before", &op.dsts, 1, window_values(s));
        },
        Kernel::Sconv { .. } => {
            put_of(&mut v, "kda_state", "conv_v_before", &op.dsts, 1, window_values(s));
        },
        Kernel::KdaStep { .. } => {
            let n: u32 = s.inner() * s.kda_head_dim;
            put_of(&mut v, "kda_state", "recurrent_before", &op.dsts, 1, n);
        },
        Kernel::RmsNorm { w: Weight::AttnNorm(_), width, .. } => {
            put(&mut v, "layer", "residual_input", Buf::Cur, width);
            put_of(&mut v, "layer", "norm_input", &op.args, 0, width);
        },
        Kernel::RmsNorm { w: Weight::FfnNorm(_), width, .. } => {
            put(&mut v, "layer", "attention_output_before_residual", Buf::AttnOut, width);
            put(&mut v, "layer", "attention_residual_output", Buf::Cur, width);
        },
        Kernel::RmsNorm { w: Weight::OutputNorm, width, .. } => {
            put_of(&mut v, "final", "hidden", &op.args, 0, width);
        },
        Kernel::Matmul { w: Weight::FfnLatentDown(_), n_in, .. } => {
            put_of(&mut v, "moe", "router_input", &op.args, 0, n_in);
        },
        _ => {},
    }
    assert(snap_views(v@) =~= before(*s, op@));
    v
}

/// Under which kind and name the first result of a launch is written out, and how many values.
fn label_of(s: &K3Shape, layer: K3LayerKind, op: &Op<Buf, Kernel>) -> (r: Option<
    (&'static str, &'static str, u32),
>)
    requires
        s.wf_states(),
    ensures
        match r {
            Some((kind, name, n)) => label(*s, layer, op@) == Some((kind@, name@, n)),
            None => label(*s, layer, op@) is None,
        },
{
    match op.f {
        Kernel::MatmulQ8k { w: Weight::Wq(_), n_out, .. } => Some(("kda", "q_projection", n_out)),
        Kernel::MatmulQ8k { w: Weight::Wk(_), n_out, .. } => Some(("kda", "k_projection", n_out)),
        Kernel::MatmulQ8k { w: Weight::Wv(_), n_out, .. } => Some(("kda", "v_projection", n_out)),
        Kernel::Sconv { w: Weight::SsmQConv(_), d, .. } => Some(("kda", "q_sconv_residual", d)),
        Kernel::Sconv { w: Weight::SsmKConv(_), d, .. } => Some(("kda", "k_sconv_residual", d)),
        Kernel::Sconv { d, .. } => Some(("kda", "v_sconv_residual", d)),
        Kernel::SiluDiff { n } => if goes_to(op, Buf::KdaQ) {
            Some(("kda", "q_conv_output", n))
        } else if goes_to(op, Buf::KdaK) {
            Some(("kda", "k_conv_output", n))
        } else {
            Some(("kda", "v_conv_output", n))
        },
        Kernel::L2Norm { .. } => if goes_to(op, Buf::KdaQ) {
            Some(("kda", "q_normed", s.inner()))
        } else {
            Some(("kda", "k_normed", s.inner()))
        },
        Kernel::SafeGate { .. } => Some(("kda", "gate_alpha", s.inner())),
        Kernel::HostSigmoid { n } => Some(("kda", "beta", n)),
        Kernel::KdaStep { .. } => Some(("kda", "recurrent_output", s.inner())),
        Kernel::Sigmoid { n } => if layer == K3LayerKind::Kda {
            Some(("kda", "output_gate", n))
        } else {
            None
        },
        Kernel::Matmul { w: Weight::Wo(_), n_out, .. } => Some(
            ("kda", "output_before_residual", n_out),
        ),
        Kernel::RmsNorm { w: Weight::AttnNorm(_), width, .. } => Some(
            ("layer", "norm_output", width),
        ),
        Kernel::RmsNorm { w: Weight::FfnNorm(_), width, .. } => Some(("layer", "moe_input", width)),
        Kernel::Matmul { w: Weight::FfnLatentDown(_), n_out, .. } => Some(
            ("moe", "latent_projection", n_out),
        ),
        Kernel::Matmul { w: Weight::FfnGateInp(_), n_out, .. } => Some(
            ("moe", "router_logits", n_out),
        ),
        Kernel::HostRmsNorm { n, .. } => Some(("moe", "routed_moe_normed", n)),
        Kernel::MatmulQ8_0 { w: Weight::FfnLatentUp(_), n_out, .. } => Some(
            ("moe", "latent_up_output", n_out),
        ),
        Kernel::MatmulQ8_0 { w: Weight::FfnDownShexp(_), n_out, .. } => Some(
            ("moe", "shared_expert_output", n_out),
        ),
        Kernel::Add { n } => if goes_to(op, Buf::FfnOut) {
            Some(("moe", "ffn_output_before_residual", n))
        } else if joins_stream(op) {
            Some(("layer", "layer_output", n))
        } else {
            None
        },
        Kernel::Head { .. } => Some(("final", "logits", s.n_vocab)),
        _ => None,
    }
}

/// What is written out after a launch.
pub fn snaps_after(s: &K3Shape, layer: K3LayerKind, op: &Op<Buf, Kernel>) -> (r: Vec<Snap>)
    requires
        s.wf_states(),
    ensures
        snap_views(r@) == after(*s, layer, op@),
{
    let mut v: Vec<Snap> = Vec::new();
    assert(snap_views(v@) =~= Seq::<SnapView>::empty());
    match op.f {
        Kernel::KdaStep { .. } => {
            let n: u32 = s.inner() * s.kda_head_dim;
            put_of(&mut v, "kda_state", "recurrent_after", &op.dsts, 1, n);
        },
        _ => {},
    }
    match label_of(s, layer, op) {
        Some((kind, name, n)) => {
            put_of(&mut v, kind, name, &op.dsts, 0, n);
        },
        None => {},
    }
    match op.f {
        Kernel::Sconv { w, .. } => {
            let name: &'static str = match w {
                Weight::SsmQConv(_) => "conv_q_after",
                Weight::SsmKConv(_) => "conv_k_after",
                _ => "conv_v_after",
            };
            put_of(&mut v, "kda_state", name, &op.dsts, 1, window_values(s));
        },
        Kernel::Add { n } => {
            if joins_stream(op) {
                put_of(&mut v, "layer", "hidden", &op.dsts, 0, n);
            }
        },
        _ => {},
    }
    assert(snap_views(v@) =~= after(*s, layer, op@));
    v
}

} // verus!
