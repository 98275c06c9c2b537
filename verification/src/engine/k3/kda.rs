//! Delta attention of one layer for one token.
use vstd::prelude::*;

use super::dims::K3Shape;
use super::kernels::{Buf, Kernel, Weight};
use super::layer::KimiK3W;
use super::runtime;
use super::weights;
use super::weights::{check_direct, K3WeightQuant};
use crate::engine::program;
use crate::engine::program::{Program, Step, Term};
use crate::text;
use crate::text::{owned, push_decimal, push_str};

verus! {

/// The first weight that a layer of delta attention lacks.
pub open spec fn kda_lacks(w: KimiK3W) -> Option<Seq<char>> {
    if w.wq is None {
        Some("KDA layer missing wq"@)
    } else if w.wk is None {
        Some("KDA layer missing wk"@)
    } else if w.wv is None {
        Some("KDA layer missing wv"@)
    } else if !w.ssm_q_conv {
        Some("KDA layer missing ssm_q_conv"@)
    } else if !w.ssm_k_conv {
        Some("KDA layer missing ssm_k_conv"@)
    } else if !w.ssm_v_conv {
        Some("KDA layer missing ssm_v_conv"@)
    } else if w.ssm_f_a is None {
        Some("KDA layer missing ssm_f_a"@)
    } else if !w.ssm_f_b {
        Some("KDA layer missing ssm_f_b"@)
    } else if w.ssm_beta is None {
        Some("KDA layer missing ssm_beta"@)
    } else if !w.ssm_a {
        Some("KDA layer missing ssm_a"@)
    } else if !w.ssm_dt_b {
        Some("KDA layer missing ssm_dt_b"@)
    } else if w.wqkv_gate is None {
        Some("KDA layer missing wqkv_gate"@)
    } else if !w.ssm_o_norm {
        Some("KDA layer missing ssm_o_norm"@)
    } else if w.wo is None {
        Some("KDA layer missing wo"@)
    } else {
        None
    }
}

/// The first weight that a layer of delta attention lacks.
fn kda_missing(w: &KimiK3W) -> (r: Option<&'static str>)
    ensures
        match r {
            Some(m) => kda_lacks(*w) == Some(m@),
            None => kda_lacks(*w) is None,
        },
{
    if w.wq.is_none() {
        Some("KDA layer missing wq")
    } else if w.wk.is_none() {
        Some("KDA layer missing wk")
    } else if w.wv.is_none() {
        Some("KDA layer missing wv")
    } else if !w.ssm_q_conv {
        Some("KDA layer missing ssm_q_conv")
    } else if !w.ssm_k_conv {
        Some("KDA layer missing ssm_k_conv")
    } else if !w.ssm_v_conv {
        Some("KDA layer missing ssm_v_conv")
    } else if w.ssm_f_a.is_none() {
        Some("KDA layer missing ssm_f_a")
    } else if !w.ssm_f_b {
        Some("KDA layer missing ssm_f_b")
    } else if w.ssm_beta.is_none() {
        Some("KDA layer missing ssm_beta")
    } else if !w.ssm_a {
        Some("KDA layer missing ssm_a")
    } else if !w.ssm_dt_b {
        Some("KDA layer missing ssm_dt_b")
    } else if w.wqkv_gate.is_none() {
        Some("KDA layer missing wqkv_gate")
    } else if !w.ssm_o_norm {
        Some("KDA layer missing ssm_o_norm")
    } else if w.wo.is_none() {
        Some("KDA layer missing wo")
    } else {
        None
    }
}

/// A complaint about one of the three main projections.
pub open spec fn projection_text(il: u32, which: Seq<char>, quant: u32) -> Seq<char> {
    "K3 layer "@ + text::decimal(il as nat) + " KDA "@ + which + " projection: "@
        + weights::not_direct_text(quant)
}

/// Why a layer of delta attention cannot run: a weight is missing, or one of the projections that
/// share the quantized input cannot take it.
pub open spec fn kda_fault(w: KimiK3W, il: u32) -> Option<Seq<char>> {
    if kda_lacks(w) is Some {
        kda_lacks(w)
    } else if !weights::is_direct(w.wq->0.quant) {
        Some(projection_text(il, "Q"@, w.wq->0.quant))
    } else if !weights::is_direct(w.wk->0.quant) {
        Some(projection_text(il, "K"@, w.wk->0.quant))
    } else if !weights::is_direct(w.wv->0.quant) {
        Some(projection_text(il, "V"@, w.wv->0.quant))
    } else if !weights::is_direct(w.ssm_f_a->0.quant) {
        Some(weights::not_direct_text(w.ssm_f_a->0.quant))
    } else if !weights::is_direct(w.ssm_beta->0.quant) {
        Some(weights::not_direct_text(w.ssm_beta->0.quant))
    } else if !weights::is_direct(w.wqkv_gate->0.quant) {
        Some(weights::not_direct_text(w.wqkv_gate->0.quant))
    } else {
        None
    }
}

/// A projection of the quantized input.
pub open spec fn projected(x: Term<Buf, Kernel>, w: Weight, n_in: u32, n_out: int) -> Term<
    Buf,
    Kernel,
> {
    program::ap1(
        Kernel::MatmulQ8k { w, n_in, n_out: n_out as u32 },
        program::ap1(Kernel::QuantizeQ8k { n: n_in }, x),
    )
}

/// The short convolution of a stream: part 0 is its output, part 1 its window.
pub open spec fn convolved(
    s: K3Shape,
    w: Weight,
    x: Term<Buf, Kernel>,
    window: Term<Buf, Kernel>,
    part: nat,
) -> Term<Buf, Kernel> {
    Term::App {
        f: Kernel::Sconv { w, d: s.d_inner() as u32, k: super::dims::some(s.ssm_conv_k) as u32 },
        part,
        args: seq![x, window],
    }
}

/// A stream behind its short convolution: the kernel adds its input, which is taken off again
/// before the activation.
pub open spec fn stream(
    s: K3Shape,
    w: Weight,
    x: Term<Buf, Kernel>,
    window: Term<Buf, Kernel>,
) -> Term<Buf, Kernel> {
    program::ap2(
        Kernel::SiluDiff { n: s.d_inner() as u32 },
        convolved(s, w, x, window, 0),
        x,
    )
}

/// A stream normalized per head.
pub open spec fn unit(s: K3Shape, x: Term<Buf, Kernel>) -> Term<Buf, Kernel> {
    program::ap1(Kernel::L2Norm { rows: s.n_head, width: s.kda_head_dim }, x)
}

/// The bounded decay gate.
pub open spec fn gate(s: K3Shape, il: u32, x: Term<Buf, Kernel>) -> Term<Buf, Kernel> {
    program::ap1(
        Kernel::SafeGate {
            dt: Weight::SsmDtB(il),
            a: Weight::SsmA(il),
            n_head: s.n_head,
            width: s.kda_head_dim,
        },
        program::ap1(
            Kernel::MatmulF32 {
                w: Weight::SsmFb(il),
                n_in: s.kda_head_dim,
                n_out: s.d_inner() as u32,
            },
            projected(x, Weight::SsmFa(il), s.n_embd, s.kda_head_dim as int),
        ),
    )
}

/// The delta rule: part 0 is its output, part 1 its state.
pub open spec fn recurrence(
    s: K3Shape,
    il: u32,
    st: Map<Buf, Term<Buf, Kernel>>,
    part: nat,
) -> Term<Buf, Kernel> {
    let x = st[Buf::StNormed];
    let d = s.d_inner();
    let q = unit(
        s,
        stream(
            s,
            Weight::SsmQConv(il),
            projected(x, Weight::Wq(il), s.n_embd, d),
            st[Buf::Conv(il, 0)],
        ),
    );
    let k = unit(
        s,
        stream(
            s,
            Weight::SsmKConv(il),
            projected(x, Weight::Wk(il), s.n_embd, d),
            st[Buf::Conv(il, 1)],
        ),
    );
    let v = stream(
        s,
        Weight::SsmVConv(il),
        projected(x, Weight::Wv(il), s.n_embd, d),
        st[Buf::Conv(il, 2)],
    );
    let beta = program::ap1(
        Kernel::HostSigmoid { n: s.n_head },
        projected(x, Weight::SsmBeta(il), s.n_embd, s.n_head as int),
    );
    Term::App {
        f: Kernel::KdaStep { n_head: s.n_head, width: s.kda_head_dim },
        part,
        args: seq![st[Buf::Ssm(il)], q, k, v, gate(s, il, x), beta],
    }
}

/// The output of the delta attention: the recurrence, normalized per head, behind the output gate
/// and the output projection.
pub open spec fn kda_output(s: K3Shape, il: u32, st: Map<Buf, Term<Buf, Kernel>>) -> Term<
    Buf,
    Kernel,
> {
    let d = s.d_inner() as u32;
    let g = program::ap1(
        Kernel::Sigmoid { n: d },
        projected(st[Buf::StNormed], Weight::WqkvGate(il), s.n_embd, d as int),
    );
    let normed = program::ap1(
        Kernel::RmsNorm { w: Weight::SsmONorm(il), width: s.kda_head_dim, rows: s.n_head },
        recurrence(s, il, st, 0),
    );
    program::ap1(
        Kernel::Matmul { w: Weight::Wo(il), n_in: d, n_out: s.n_embd },
        program::ap2(Kernel::Mul { n: d }, normed, g),
    )
}

/// The buffers that the delta attention of a layer writes.
pub open spec fn kda_writes(b: Buf, il: u32) -> bool {
    ||| b == Buf::Q8k
    ||| b == Buf::KdaConvOut
    ||| b == Buf::KdaQ
    ||| b == Buf::KdaK
    ||| b == Buf::KdaV
    ||| b == Buf::KdaFa
    ||| b == Buf::KdaGRaw
    ||| b == Buf::KdaGateLogits
    ||| b == Buf::KdaONormed
    ||| b == Buf::KdaGated
    ||| b == Buf::AttnOut
    ||| b == Buf::Conv(il, 0)
    ||| b == Buf::Conv(il, 1)
    ||| b == Buf::Conv(il, 2)
    ||| b == Buf::Ssm(il)
}

/// Launches a projection of the quantized input.
pub(crate) fn project(
    p: &mut Program<Buf, Kernel>,
    w: Weight,
    q: K3WeightQuant,
    dst: Buf,
    n_in: u32,
    n_out: u32,
) -> (r: Result<(), String>)
    ensures
        r is Ok <==> weights::is_direct(q.quant),
        r matches Err(e) ==> e@ == weights::not_direct_text(q.quant) && *final(p) == *old(p),
        r is Ok ==> final(p)@ == old(p)@.push(
            Step {
                f: Kernel::MatmulQ8k { w, n_in, n_out },
                copy: false,
                dsts: seq![dst],
                args: seq![Buf::Q8k],
            },
        ),
        r is Ok ==> final(p).store() == old(p).store().insert(
            dst,
            program::ap1(Kernel::MatmulQ8k { w, n_in, n_out }, old(p).store()[Buf::Q8k]),
        ),
{
    match check_direct(q) {
        Ok(()) => {},
        Err(e) => {
            return Err(e);
        },
    }
    p.op1(Kernel::MatmulQ8k { w, n_in, n_out }, dst, Buf::Q8k);
    Ok(())
}

/// Names the projection that failed.
fn blame(il: u32, which: &str, e: String) -> (r: String)
    ensures
        r@ == "K3 layer "@ + text::decimal(il as nat) + " KDA "@ + which@ + " projection: "@ + e@,
{
    let mut m = String::new();
    push_str(&mut m, "K3 layer ");
    push_decimal(&mut m, il as u64);
    push_str(&mut m, " KDA ");
    push_str(&mut m, which);
    push_str(&mut m, " projection: ");
    push_str(&mut m, e.as_str());
    assert(m@ =~= "K3 layer "@ + text::decimal(il as nat) + " KDA "@ + which@ + " projection: "@
        + e@);
    m
}

/// Launches the short convolution of a stream: `x` is replaced by its activation.
fn convolve(p: &mut Program<Buf, Kernel>, s: &K3Shape, w: Weight, x: Buf, window: Buf)
    requires
        s.wf_delta(),
        window != Buf::KdaConvOut,
        x != Buf::KdaConvOut,
        x != window,
    ensures
        ({
            let st = old(p).store();
            final(p).store() == st.insert(
                Buf::KdaConvOut,
                convolved(*s, w, st[x], st[window], 0),
            ).insert(window, convolved(*s, w, st[x], st[window], 1)).insert(
                x,
                stream(*s, w, st[x], st[window]),
            )
        }),
        final(p)@ == old(p)@.push(
            Step {
                f: Kernel::Sconv {
                    w,
                    d: s.d_inner() as u32,
                    k: super::dims::some(s.ssm_conv_k) as u32,
                },
                copy: false,
                dsts: seq![Buf::KdaConvOut, window],
                args: seq![x, window],
            },
        ).push(
            Step {
                f: Kernel::SiluDiff { n: s.d_inner() as u32 },
                copy: false,
                dsts: seq![x],
                args: seq![Buf::KdaConvOut, x],
            },
        ),
{
    let d: u32 = s.inner();
    let k: u32 = if s.ssm_conv_k > 1 {
        s.ssm_conv_k
    } else {
        1
    };
    let ghost st = p.store();
    let mut args: Vec<Buf> = Vec::new();
    args.push(x);
    args.push(window);
    assert(args@ =~= seq![x, window]);
    assert(program::contents(st, args@) =~= seq![st[x], st[window]]);
    p.op_pair(Kernel::Sconv { w, d, k }, Buf::KdaConvOut, window, args);
    p.op2(Kernel::SiluDiff { n: d }, x, Buf::KdaConvOut, x);
}

/// The recurrence and what follows it.
fn recur(p: &mut Program<Buf, Kernel>, s: &K3Shape, il: u32)
    requires
        s.wf_delta(),
    ensures
        ({
            let st = old(p).store();
            let a = seq![
                st[Buf::Ssm(il)],
                st[Buf::KdaQ],
                st[Buf::KdaK],
                st[Buf::KdaV],
                st[Buf::KdaGRaw],
                st[Buf::KdaGateLogits],
            ];
            let f = Kernel::KdaStep { n_head: s.n_head, width: s.kda_head_dim };
            final(p).store() == st.insert(Buf::AttnOut, Term::App { f, part: 0, args: a }).insert(
                Buf::Ssm(il),
                Term::App { f, part: 1, args: a },
            )
        }),
        final(p)@ == old(p)@.push(
            Step {
                f: Kernel::KdaStep { n_head: s.n_head, width: s.kda_head_dim },
                copy: false,
                dsts: seq![Buf::AttnOut, Buf::Ssm(il)],
                args: seq![
                    Buf::Ssm(il),
                    Buf::KdaQ,
                    Buf::KdaK,
                    Buf::KdaV,
                    Buf::KdaGRaw,
                    Buf::KdaGateLogits,
                ],
            },
        ),
{
    let ghost st = p.store();
    let mut args: Vec<Buf> = Vec::new();
    args.push(Buf::Ssm(il));
    args.push(Buf::KdaQ);
    args.push(Buf::KdaK);
    args.push(Buf::KdaV);
    args.push(Buf::KdaGRaw);
    args.push(Buf::KdaGateLogits);
    assert(args@ =~= seq![
        Buf::Ssm(il),
        Buf::KdaQ,
        Buf::KdaK,
        Buf::KdaV,
        Buf::KdaGRaw,
        Buf::KdaGateLogits,
    ]);
    assert(program::contents(st, args@) =~= seq![
        st[Buf::Ssm(il)],
        st[Buf::KdaQ],
        st[Buf::KdaK],
        st[Buf::KdaV],
        st[Buf::KdaGRaw],
        st[Buf::KdaGateLogits],
    ]);
    p.op_pair(
        Kernel::KdaStep { n_head: s.n_head, width: s.kda_head_dim },
        Buf::AttnOut,
        Buf::Ssm(il),
        args,
    );
}

/// Whether the streams of a layer are computed: its weights are there, and the three projections
/// take the quantized input.
pub open spec fn kda_streams(w: KimiK3W) -> bool {
    &&& kda_lacks(w) is None
    &&& weights::is_direct(w.wq->0.quant)
    &&& weights::is_direct(w.wk->0.quant)
    &&& weights::is_direct(w.wv->0.quant)
}

/// Whether the recurrence of a layer is run: its gates too take the quantized input.
pub open spec fn kda_recurs(w: KimiK3W) -> bool {
    &&& kda_streams(w)
    &&& weights::is_direct(w.ssm_f_a->0.quant)
    &&& weights::is_direct(w.ssm_beta->0.quant)
}

/// What delta attention leaves from `st` to `end`, whether it fails or not: the windows move on
/// once the streams are computed, the state once the recurrence is run.
pub open spec fn kda_keeps(
    s: K3Shape,
    w: KimiK3W,
    il: u32,
    st: Map<Buf, Term<Buf, Kernel>>,
    end: Map<Buf, Term<Buf, Kernel>>,
) -> bool {
    let x = st[Buf::StNormed];
    let d = s.d_inner();
    &&& end[Buf::Ssm(il)] == if kda_recurs(w) {
        recurrence(s, il, st, 1)
    } else {
        st[Buf::Ssm(il)]
    }
    &&& end[Buf::Conv(il, 0)] == if kda_streams(w) {
        convolved(
            s,
            Weight::SsmQConv(il),
            projected(x, Weight::Wq(il), s.n_embd, d),
            st[Buf::Conv(il, 0)],
            1,
        )
    } else {
        st[Buf::Conv(il, 0)]
    }
    &&& end[Buf::Conv(il, 1)] == if kda_streams(w) {
        convolved(
            s,
            Weight::SsmKConv(il),
            projected(x, Weight::Wk(il), s.n_embd, d),
            st[Buf::Conv(il, 1)],
            1,
        )
    } else {
        st[Buf::Conv(il, 1)]
    }
    &&& end[Buf::Conv(il, 2)] == if kda_streams(w) {
        convolved(
            s,
            Weight::SsmVConv(il),
            projected(x, Weight::Wv(il), s.n_embd, d),
            st[Buf::Conv(il, 2)],
            1,
        )
    } else {
        st[Buf::Conv(il, 2)]
    }
    &&& forall|b: Buf| !kda_writes(b, il) ==> #[trigger] end[b] == st[b]
}

/// The streams of the recurrence: everything up to the gates.
fn streams(p: &mut Program<Buf, Kernel>, s: &K3Shape, w: &KimiK3W, il: u32) -> (r: Result<
    (),
    String,
>)
    requires
        s.wf_delta(),
        kda_lacks(*w) is None,
    ensures
        r is Ok <==> weights::is_direct(w.wq->0.quant) && weights::is_direct(w.wk->0.quant)
            && weights::is_direct(w.wv->0.quant),
        r matches Err(e) ==> kda_fault(*w, il) == Some(e@),
        runtime::roomy(*s) && runtime::all_fit(*s, old(p)@) ==> runtime::all_fit(*s, final(p)@),
        r is Err ==> {
            let st = old(p).store();
            let end = final(p).store();
            &&& end[Buf::Ssm(il)] == st[Buf::Ssm(il)]
            &&& end[Buf::Conv(il, 0)] == st[Buf::Conv(il, 0)]
            &&& end[Buf::Conv(il, 1)] == st[Buf::Conv(il, 1)]
            &&& end[Buf::Conv(il, 2)] == st[Buf::Conv(il, 2)]
            &&& forall|b: Buf| !kda_writes(b, il) ==> #[trigger] end[b] == st[b]
        },
        r is Ok ==> {
            let st = old(p).store();
            let x = st[Buf::StNormed];
            let d = s.d_inner();
            let q = projected(x, Weight::Wq(il), s.n_embd, d);
            let k = projected(x, Weight::Wk(il), s.n_embd, d);
            let v = projected(x, Weight::Wv(il), s.n_embd, d);
            let end = final(p).store();
            &&& end[Buf::Q8k] == program::ap1(Kernel::QuantizeQ8k { n: s.n_embd }, x)
            &&& end[Buf::KdaQ] == unit(*s, stream(*s, Weight::SsmQConv(il), q, st[Buf::Conv(il, 0)]))
            &&& end[Buf::KdaK] == unit(*s, stream(*s, Weight::SsmKConv(il), k, st[Buf::Conv(il, 1)]))
            &&& end[Buf::KdaV] == stream(*s, Weight::SsmVConv(il), v, st[Buf::Conv(il, 2)])
            &&& end[Buf::Conv(il, 0)] == convolved(
                *s,
                Weight::SsmQConv(il),
                q,
                st[Buf::Conv(il, 0)],
                1,
            )
            &&& end[Buf::Conv(il, 1)] == convolved(
                *s,
                Weight::SsmKConv(il),
                k,
                st[Buf::Conv(il, 1)],
                1,
            )
            &&& end[Buf::Conv(il, 2)] == convolved(
                *s,
                Weight::SsmVConv(il),
                v,
                st[Buf::Conv(il, 2)],
                1,
            )
            &&& end[Buf::Ssm(il)] == st[Buf::Ssm(il)]
            &&& forall|b: Buf| !kda_writes(b, il) ==> #[trigger] end[b] == st[b]
        },
{
    let d: u32 = s.inner();
    let n: u32 = s.n_embd;
    let (wq, wk, wv) = match (w.wq, w.wk, w.wv) {
        (Some(a), Some(b), Some(c)) => (a, b, c),
        _ => {
            return Ok(());
        },
    };
    p.op1(Kernel::QuantizeQ8k { n }, Buf::Q8k, Buf::StNormed);
    match project(p, Weight::Wq(il), wq, Buf::KdaConvOut, n, d) {
        Ok(()) => {},
        Err(e) => {
            return Err(blame(il, "Q", e));
        },
    }
    p.copy(Kernel::Copy { n: d }, Buf::KdaQ, Buf::KdaConvOut);
    match project(p, Weight::Wk(il), wk, Buf::KdaK, n, d) {
        Ok(()) => {},
        Err(e) => {
            return Err(blame(il, "K", e));
        },
    }
    match project(p, Weight::Wv(il), wv, Buf::KdaV, n, d) {
        Ok(()) => {},
        Err(e) => {
            return Err(blame(il, "V", e));
        },
    }
    convolve(p, s, Weight::SsmQConv(il), Buf::KdaQ, Buf::Conv(il, 0));
    convolve(p, s, Weight::SsmKConv(il), Buf::KdaK, Buf::Conv(il, 1));
    convolve(p, s, Weight::SsmVConv(il), Buf::KdaV, Buf::Conv(il, 2));
    p.op1(Kernel::L2Norm { rows: s.n_head, width: s.kda_head_dim }, Buf::KdaQ, Buf::KdaQ);
    p.op1(Kernel::L2Norm { rows: s.n_head, width: s.kda_head_dim }, Buf::KdaK, Buf::KdaK);
    Ok(())
}

/// Delta attention of layer `il` on the normalized input.
pub fn kda_layer_forward(
    p: &mut Program<Buf, Kernel>,
    s: &K3Shape,
    w: &KimiK3W,
    il: u32,
) -> (r: Result<(), String>)
    requires
        s.wf_delta(),
    ensures
        r is Ok <==> kda_fault(*w, il) is None,
        r matches Err(e) ==> kda_fault(*w, il) == Some(e@),
        runtime::roomy(*s) && runtime::all_fit(*s, old(p)@) ==> runtime::all_fit(*s, final(p)@),
        r is Ok ==> final(p).store()[Buf::AttnOut] == kda_output(*s, il, old(p).store()),
        kda_keeps(*s, *w, il, old(p).store(), final(p).store()),
        kda_lacks(*w) is Some ==> *final(p) == *old(p),
{
    match kda_missing(w) {
        Some(m) => {
            return Err(owned(m));
        },
        None => {},
    }
    let ghost st = p.store();
    let d: u32 = s.inner();
    let n: u32 = s.n_embd;
    let hd: u32 = s.kda_head_dim;
    assert(hd * s.n_head == s.n_head * hd) by (nonlinear_arith);
    match streams(p, s, w, il) {
        Ok(()) => {},
        Err(e) => {
            return Err(e);
        },
    }
    let (fa, beta, g) = match (w.ssm_f_a, w.ssm_beta, w.wqkv_gate) {
        (Some(a), Some(b), Some(c)) => (a, b, c),
        _ => {
            return Ok(());
        },
    };
    match project(p, Weight::SsmFa(il), fa, Buf::KdaFa, n, hd) {
        Ok(()) => {},
        Err(e) => {
            return Err(e);
        },
    }
    p.op1(
        Kernel::MatmulF32 { w: Weight::SsmFb(il), n_in: hd, n_out: d },
        Buf::KdaGRaw,
        Buf::KdaFa,
    );
    p.op1(
        Kernel::SafeGate {
            dt: Weight::SsmDtB(il),
            a: Weight::SsmA(il),
            n_head: s.n_head,
            width: hd,
        },
        Buf::KdaGRaw,
        Buf::KdaGRaw,
    );
    match project(p, Weight::SsmBeta(il), beta, Buf::KdaGateLogits, n, s.n_head) {
        Ok(()) => {},
        Err(e) => {
            return Err(e);
        },
    }
    p.op1(Kernel::HostSigmoid { n: s.n_head }, Buf::KdaGateLogits, Buf::KdaGateLogits);
    recur(p, s, il);
    match project(p, Weight::WqkvGate(il), g, Buf::KdaGateLogits, n, d) {
        Ok(()) => {},
        Err(e) => {
            return Err(e);
        },
    }
    p.op1(Kernel::Sigmoid { n: d }, Buf::KdaGateLogits, Buf::KdaGateLogits);
    p.op1(
        Kernel::RmsNorm { w: Weight::SsmONorm(il), width: hd, rows: s.n_head },
        Buf::KdaONormed,
        Buf::AttnOut,
    );
    p.copy(Kernel::Copy { n: d }, Buf::KdaGated, Buf::KdaONormed);
    p.op2(Kernel::Mul { n: d }, Buf::KdaGated, Buf::KdaGated, Buf::KdaGateLogits);
    matmul(p, Weight::Wo(il), Buf::AttnOut, Buf::KdaGated, d, n);
    Ok(())
}

/// Launches a product on an activation in single precision.
pub(crate) fn matmul(
    p: &mut Program<Buf, Kernel>,
    w: Weight,
    dst: Buf,
    x: Buf,
    n_in: u32,
    n_out: u32,
)
    requires
        dst != Buf::Q8k,
    ensures
        ({
            let st = old(p).store();
            let f = Kernel::Matmul { w, n_in, n_out };
            final(p).store() == st.insert(dst, program::ap1(f, st[x])).insert(
                Buf::Q8k,
                Term::App { f, part: 1, args: seq![st[x]] },
            )
        }),
        final(p)@ == old(p)@.push(
            Step {
                f: Kernel::Matmul { w, n_in, n_out },
                copy: false,
                dsts: seq![dst, Buf::Q8k],
                args: seq![x],
            },
        ),
{
    let ghost st = p.store();
    let mut args: Vec<Buf> = Vec::new();
    args.push(x);
    assert(args@ =~= seq![x]);
    assert(program::contents(st, args@) =~= seq![st[x]]);
    p.op_pair(Kernel::Matmul { w, n_in, n_out }, dst, Buf::Q8k, args);
}

} // verus!
