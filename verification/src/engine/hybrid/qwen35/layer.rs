//! One layer: delta rule or attention, and the mixture of experts.
use vstd::prelude::*;

use crate::engine::hybrid::dsv4::layer;
use crate::engine::hybrid::dsv4::layer::shared_expert;
use crate::engine::hybrid::kernels::{Buf, Kernel, Weight};
use crate::engine::hybrid::moe;
use crate::engine::hybrid::moe::{dsv4_moe, Launch};
use crate::engine::hybrid::shape;
use crate::engine::hybrid::shape::{rows, Shape};
use crate::engine::program;
use crate::engine::program::{Program, Term};
use crate::text::owned;

verus! {

/// Positions that the ring of features holds.
pub const RING_CAP: u32 = 256;

/// What a layer has in place of attention, or as attention.
#[derive(Debug, Clone, Copy, PartialEq, Eq, Structural)]
pub struct Qwen35W {
    pub gdn: bool,
    pub attn: bool,
}

/// What a layer has.
#[derive(Debug, Clone, Copy, PartialEq, Eq, Structural)]
pub struct LayerW {
    pub attn: Option<Qwen35W>,
    /// Whether it has a mixture of experts, and with it a shared expert.
    pub moe: Option<bool>,
}

/// State of a layer, and what drafting asks of it.
#[derive(Debug, Clone, Copy)]
pub struct LayerRt {
    /// Whether there is a delta-rule state.
    pub state: bool,
    /// Whether the inputs of the delta rule are kept, and whether there is room for them.
    pub keep: bool,
    pub stash: bool,
    /// Which part of a row of features this layer's input is, and how many parts there are.
    pub feature: Option<(u32, u32)>,
}

/// A layer as a chunk meets it.
#[derive(Debug, Clone, Copy, PartialEq, Eq, Structural)]
pub struct At {
    pub il: u32,
    pub pos: u32,
    pub t: u32,
    pub ctx: u32,
}

/// The place of a layer among those whose inputs are captured, from `i` on.
pub open spec fn captured_at(ids: Seq<u64>, il: u64, i: int) -> Option<int>
    decreases ids.len() - i,
{
    if i >= ids.len() {
        None
    } else if ids[i] == il {
        Some(i)
    } else {
        captured_at(ids, il, i + 1)
    }
}

/// The place of a layer among those whose inputs are captured.
pub fn feature_of(ids: &Vec<u64>, il: u64) -> (r: Option<usize>)
    ensures
        match r {
            Some(i) => captured_at(ids@, il, 0) == Some(i as int),
            None => captured_at(ids@, il, 0) is None,
        },
{
    let n: usize = ids.len();
    let mut i: usize = 0;
    while i < n
        invariant
            i <= n,
            n == ids@.len(),
            captured_at(ids@, il, 0) == captured_at(ids@, il, i as int),
        decreases n - i,
    {
        if ids[i] == il {
            return Some(i);
        }
        i = i + 1;
    }
    None
}

/// What a delta-rule layer computes from the normalized input `y`.
pub open spec fn raw_qkv(s: Shape, a: At, y: Term<Buf, Kernel>) -> Term<Buf, Kernel> {
    layer::product(Weight::Wqkv(a.il), s.n_embd, s.conv_dim() as u32, a.t, y)
}

/// Decay (part 0) and write strength (part 1) from the normalized input `y`.
pub open spec fn coefficient(s: Shape, a: At, y: Term<Buf, Kernel>, part: nat) -> Term<
    Buf,
    Kernel,
> {
    let of = |w: Weight|
        program::ap1(Kernel::MatmulF32 { w, n_in: s.n_embd, n_out: s.ssm_v_heads, t: a.t }, y);
    Term::App {
        f: Kernel::GdnCoeffs { il: a.il, heads: s.ssm_v_heads, t: a.t },
        part,
        args: seq![of(Weight::AlphaW(a.il)), of(Weight::BetaW(a.il))],
    }
}

/// Output (part 0) and window (part 1) of the convolution of `t` tokens.
pub open spec fn convolved(
    s: Shape,
    il: u32,
    t: u32,
    qkv: Term<Buf, Kernel>,
    window: Term<Buf, Kernel>,
    part: nat,
) -> Term<Buf, Kernel> {
    Term::App {
        f: Kernel::ConvBatch {
            w: Weight::ConvW(il),
            n: s.conv_dim() as u32,
            k: s.ssm_conv_k,
            t,
        },
        part,
        args: seq![qkv, window],
    }
}

/// Output (part 0) and state (part 1) of the delta rule over `t` tokens.
pub open spec fn delta(
    s: Shape,
    il: u32,
    t: u32,
    qkv: Term<Buf, Kernel>,
    g: Term<Buf, Kernel>,
    beta: Term<Buf, Kernel>,
    window: Term<Buf, Kernel>,
    state: Term<Buf, Kernel>,
    part: nat,
) -> Term<Buf, Kernel> {
    let c = convolved(s, il, t, qkv, window, 0);
    let split = |part: nat|
        Term::App {
            f: Kernel::SplitQkv { key: s.key_dim() as u32, value: s.value_dim() as u32, t },
            part,
            args: seq![c],
        };
    let unit = Kernel::L2Norm { rows: shape::times(t as int, s.ssm_k_heads as int), width: s.ssm_state };
    Term::App {
        f: Kernel::GdnBatch {
            v_heads: s.ssm_v_heads,
            k_heads: s.ssm_k_heads,
            state: s.ssm_state,
            t,
        },
        part,
        args: seq![
            state,
            program::ap1(unit, split(0)),
            program::ap1(unit, split(1)),
            split(2),
            g,
            beta,
        ],
    }
}

/// The buffers that the recurrences of a layer write.
pub open spec fn recur_writes(il: u32, b: Buf) -> bool {
    b == Buf::ConvOut || b == Buf::GdnConv(il) || b == Buf::Gq || b == Buf::Gk || b == Buf::Gv || b
        == Buf::GdnO || b == Buf::GdnS(il)
}

/// Launches convolution and delta rule of a layer over `t` tokens of the given inputs.
pub fn recur(
    p: &mut Program<Buf, Kernel>,
    s: &Shape,
    il: u32,
    t: u32,
    qkv: Buf,
    g: Buf,
    beta: Buf,
)
    requires
        s.wf_delta(),
        t <= 16,
        !recur_writes(il, qkv),
        !recur_writes(il, g),
        !recur_writes(il, beta),
    ensures
        ({
            let st = old(p).store();
            let end = final(p).store();
            &&& end[Buf::GdnConv(il)] == convolved(
                *s,
                il,
                t,
                st[qkv],
                st[Buf::GdnConv(il)],
                1,
            )
            &&& end[Buf::GdnO] == delta(
                *s,
                il,
                t,
                st[qkv],
                st[g],
                st[beta],
                st[Buf::GdnConv(il)],
                st[Buf::GdnS(il)],
                0,
            )
            &&& end[Buf::GdnS(il)] == delta(
                *s,
                il,
                t,
                st[qkv],
                st[g],
                st[beta],
                st[Buf::GdnConv(il)],
                st[Buf::GdnS(il)],
                1,
            )
            &&& forall|b: Buf| !recur_writes(il, b) ==> #[trigger] end[b] == st[b]
        }),
{
    let ghost st = p.store();
    proof {
        lemma_dims(*s);
    }
    let key: u32 = s.ssm_k_heads * s.ssm_state;
    let value: u32 = s.ssm_v_heads * s.ssm_state;
    let conv: u32 = 2 * key + value;
    let n: u32 = rows(t, s.ssm_k_heads);
    let mut v: Vec<Buf> = Vec::new();
    v.push(qkv);
    v.push(Buf::GdnConv(il));
    assert(program::contents(st, v@) =~= seq![st[qkv], st[Buf::GdnConv(il)]]);
    p.op_pair(
        Kernel::ConvBatch { w: Weight::ConvW(il), n: conv, k: s.ssm_conv_k, t },
        Buf::ConvOut,
        Buf::GdnConv(il),
        v,
    );
    let ghost m = p.store();
    let mut v: Vec<Buf> = Vec::new();
    v.push(Buf::ConvOut);
    assert(program::contents(m, v@) =~= seq![m[Buf::ConvOut]]);
    p.op_triple(Kernel::SplitQkv { key, value, t }, Buf::Gq, Buf::Gk, Buf::Gv, v);
    p.op1(Kernel::L2Norm { rows: n, width: s.ssm_state }, Buf::Gq, Buf::Gq);
    p.op1(Kernel::L2Norm { rows: n, width: s.ssm_state }, Buf::Gk, Buf::Gk);
    let ghost m = p.store();
    let mut v: Vec<Buf> = Vec::new();
    v.push(Buf::GdnS(il));
    v.push(Buf::Gq);
    v.push(Buf::Gk);
    v.push(Buf::Gv);
    v.push(g);
    v.push(beta);
    assert(program::contents(m, v@) =~= seq![
        m[Buf::GdnS(il)],
        m[Buf::Gq],
        m[Buf::Gk],
        m[Buf::Gv],
        m[g],
        m[beta],
    ]);
    p.op_pair(
        Kernel::GdnBatch { v_heads: s.ssm_v_heads, k_heads: s.ssm_k_heads, state: s.ssm_state, t },
        Buf::GdnO,
        Buf::GdnS(il),
        v,
    );
}

/// The widths of a delta-rule layer fit.
pub proof fn lemma_dims(s: Shape)
    requires
        s.wf_delta(),
    ensures
        0 <= s.key_dim() <= u32::MAX,
        0 <= s.value_dim() <= u32::MAX,
        16 * s.value_dim() <= u32::MAX,
        0 <= s.conv_dim() <= u32::MAX,
{
    assert(0 <= s.key_dim() && 0 <= s.value_dim()) by (nonlinear_arith)
        requires
            s.key_dim() == s.ssm_k_heads * s.ssm_state,
            s.value_dim() == s.ssm_v_heads * s.ssm_state,
    ;
}

/// Why the first half of a layer cannot run.
pub open spec fn mix_fault(l: LayerW, rt: LayerRt) -> Option<Seq<char>> {
    match l.attn {
        None => Some("qwen35 layer without Qwen35 attn weights"@),
        Some(w) => if w.gdn {
            if rt.keep && !rt.stash {
                Some("stash missing"@)
            } else if !rt.state {
                Some("gdn state missing"@)
            } else {
                None
            }
        } else if w.attn {
            None
        } else {
            Some("qwen35 layer with neither attn nor gdn"@)
        },
    }
}

/// The normalized input of the first half of a layer.
pub open spec fn mix_input(s: Shape, a: At, x: Term<Buf, Kernel>) -> Term<Buf, Kernel> {
    program::ap1(
        Kernel::RmsNorm { w: Weight::AttnNorm(a.il), width: s.n_embd, rows: a.t },
        x,
    )
}

/// The output of a delta-rule layer on the normalized input `y`.
pub open spec fn gdn_output(
    s: Shape,
    a: At,
    y: Term<Buf, Kernel>,
    window: Term<Buf, Kernel>,
    state: Term<Buf, Kernel>,
) -> Term<Buf, Kernel> {
    let o = program::ap1(
        Kernel::HeadNorm {
            norm: Some(Weight::SsmNorm(a.il)),
            heads: shape::times(a.t as int, s.ssm_v_heads as int),
            width: s.ssm_state,
        },
        delta(
            s,
            a.il,
            a.t,
            raw_qkv(s, a, y),
            coefficient(s, a, y, 0),
            coefficient(s, a, y, 1),
            window,
            state,
            0,
        ),
    );
    layer::product(
        Weight::SsmOut(a.il),
        s.value_dim() as u32,
        s.n_embd,
        a.t,
        program::ap2(
            Kernel::Swiglu { n: shape::times(a.t as int, s.value_dim()), clamp: false },
            layer::product(Weight::Wz(a.il), s.n_embd, s.value_dim() as u32, a.t, y),
            o,
        ),
    )
}

/// The buffers that a delta-rule layer writes.
pub open spec fn gdn_writes(il: u32, b: Buf) -> bool {
    recur_writes(il, b) || b == Buf::Qkv || b == Buf::Z || b == Buf::G || b == Buf::Beta || b
        == Buf::StashQkv(il) || b == Buf::StashG(il) || b == Buf::StashBeta(il) || b
        == Buf::GdnTmp || b == Buf::AttnOut
}

/// The buffers that a delta-rule layer writes where it fails.
pub open spec fn gdn_part_writes(il: u32, b: Buf) -> bool {
    b == Buf::Qkv || b == Buf::Z || b == Buf::G || b == Buf::Beta || b == Buf::StashQkv(il) || b
        == Buf::StashG(il) || b == Buf::StashBeta(il)
}

/// What a delta-rule layer that failed has stashed of its inputs: all of them where it keeps them
/// and has room for them, and else nothing.
pub open spec fn stashed(
    s: Shape,
    rt: LayerRt,
    a: At,
    y: Term<Buf, Kernel>,
    st: Map<Buf, Term<Buf, Kernel>>,
    end: Map<Buf, Term<Buf, Kernel>>,
) -> bool {
    let kept = rt.keep && rt.stash;
    &&& end[Buf::StashQkv(a.il)] == if kept {
        raw_qkv(s, a, y)
    } else {
        st[Buf::StashQkv(a.il)]
    }
    &&& end[Buf::StashG(a.il)] == if kept {
        coefficient(s, a, y, 0)
    } else {
        st[Buf::StashG(a.il)]
    }
    &&& end[Buf::StashBeta(a.il)] == if kept {
        coefficient(s, a, y, 1)
    } else {
        st[Buf::StashBeta(a.il)]
    }
}

/// Launches a delta-rule layer.
fn gdn(p: &mut Program<Buf, Kernel>, s: &Shape, rt: &LayerRt, a: &At) -> (r: Result<(), String>)
    requires
        s.wf_delta(),
        a.t <= 16,
    ensures
        r is Ok <==> (rt.keep ==> rt.stash) && rt.state,
        r matches Err(e) ==> e@ == (if rt.keep && !rt.stash {
            "stash missing"@
        } else {
            "gdn state missing"@
        }),
        r is Err ==> {
            let st = old(p).store();
            let end = final(p).store();
            &&& stashed(*s, *rt, *a, st[Buf::Normed], st, end)
            &&& forall|b: Buf| !gdn_part_writes(a.il, b) ==> #[trigger] end[b] == st[b]
        },
        r is Ok ==> {
            let st = old(p).store();
            let end = final(p).store();
            let y = st[Buf::Normed];
            let window = st[Buf::GdnConv(a.il)];
            let state = st[Buf::GdnS(a.il)];
            let (qkv, g, beta) = (
                raw_qkv(*s, *a, y),
                coefficient(*s, *a, y, 0),
                coefficient(*s, *a, y, 1),
            );
            &&& end[Buf::AttnOut] == gdn_output(*s, *a, y, window, state)
            &&& end[Buf::GdnConv(a.il)] == convolved(*s, a.il, a.t, qkv, window, 1)
            &&& end[Buf::GdnS(a.il)] == delta(*s, a.il, a.t, qkv, g, beta, window, state, 1)
            &&& end[Buf::StashQkv(a.il)] == (if rt.keep {
                qkv
            } else {
                st[Buf::StashQkv(a.il)]
            })
            &&& end[Buf::StashG(a.il)] == (if rt.keep {
                g
            } else {
                st[Buf::StashG(a.il)]
            })
            &&& end[Buf::StashBeta(a.il)] == (if rt.keep {
                beta
            } else {
                st[Buf::StashBeta(a.il)]
            })
            &&& forall|b: Buf| !gdn_writes(a.il, b) ==> #[trigger] end[b] == st[b]
        },
{
    proof {
        lemma_dims(*s);
    }
    let key: u32 = s.ssm_k_heads * s.ssm_state;
    let value: u32 = s.ssm_v_heads * s.ssm_state;
    let conv: u32 = 2 * key + value;
    let t: u32 = a.t;
    p.op1(
        Kernel::MatmulQ8_0 { w: Weight::Wqkv(a.il), n_in: s.n_embd, n_out: conv, t },
        Buf::Qkv,
        Buf::Normed,
    );
    p.op1(
        Kernel::MatmulQ8_0 { w: Weight::Wz(a.il), n_in: s.n_embd, n_out: value, t },
        Buf::Z,
        Buf::Normed,
    );
    p.op1(
        Kernel::MatmulF32 { w: Weight::AlphaW(a.il), n_in: s.n_embd, n_out: s.ssm_v_heads, t },
        Buf::G,
        Buf::Normed,
    );
    p.op1(
        Kernel::MatmulF32 { w: Weight::BetaW(a.il), n_in: s.n_embd, n_out: s.ssm_v_heads, t },
        Buf::Beta,
        Buf::Normed,
    );
    let ghost m = p.store();
    let mut v: Vec<Buf> = Vec::new();
    v.push(Buf::G);
    v.push(Buf::Beta);
    assert(program::contents(m, v@) =~= seq![m[Buf::G], m[Buf::Beta]]);
    p.op_pair(
        Kernel::GdnCoeffs { il: a.il, heads: s.ssm_v_heads, t },
        Buf::G,
        Buf::Beta,
        v,
    );
    if rt.keep {
        if !rt.stash {
            return Err(owned("stash missing"));
        }
        let nq: u32 = rows(t, conv);
        let nh: u32 = rows(t, s.ssm_v_heads);
        p.copy(Kernel::Copy { count: nq as u64 }, Buf::StashQkv(a.il), Buf::Qkv);
        p.copy(Kernel::Copy { count: nh as u64 }, Buf::StashG(a.il), Buf::G);
        p.copy(Kernel::Copy { count: nh as u64 }, Buf::StashBeta(a.il), Buf::Beta);
    }
    if !rt.state {
        return Err(owned("gdn state missing"));
    }
    recur(p, s, a.il, t, Buf::Qkv, Buf::G, Buf::Beta);
    let nh: u32 = rows(t, s.ssm_v_heads);
    let nv: u32 = rows(t, value);
    p.op1(
        Kernel::HeadNorm { norm: Some(Weight::SsmNorm(a.il)), heads: nh, width: s.ssm_state },
        Buf::GdnO,
        Buf::GdnO,
    );
    p.op2(Kernel::Swiglu { n: nv, clamp: false }, Buf::GdnTmp, Buf::Z, Buf::GdnO);
    p.op1(
        Kernel::MatmulQ8_0 { w: Weight::SsmOut(a.il), n_in: value, n_out: s.n_embd, t },
        Buf::AttnOut,
        Buf::GdnTmp,
    );
    Ok(())
}

/// Queries (part 0) and their gates (part 1) of the normalized input `y`.
pub open spec fn gated_queries(s: Shape, a: At, y: Term<Buf, Kernel>, part: nat) -> Term<
    Buf,
    Kernel,
> {
    Term::App {
        f: Kernel::SplitGate {
            heads: shape::times(a.t as int, s.n_head as int),
            width: s.head_dim,
        },
        part,
        args: seq![
            layer::product(
                Weight::Wq(a.il),
                s.n_embd,
                (2 * (s.n_head * s.head_dim)) as u32,
                a.t,
                y,
            ),
        ],
    }
}

/// Heads normalized and turned to their positions.
pub open spec fn turned(s: Shape, a: At, w: Weight, heads: u32, x: Term<Buf, Kernel>) -> Term<
    Buf,
    Kernel,
> {
    program::ap1(
        Kernel::Rope { heads, head_dim: s.head_dim, rot: s.rot_dim, pos: a.pos, t: a.t },
        program::ap1(
            Kernel::HeadNorm {
                norm: Some(w),
                heads: shape::times(a.t as int, heads as int),
                width: s.head_dim,
            },
            x,
        ),
    )
}

/// The cache with the rows of a chunk stored at its positions.
pub open spec fn appended(
    s: Shape,
    a: At,
    cache: Term<Buf, Kernel>,
    x: Term<Buf, Kernel>,
) -> Term<Buf, Kernel> {
    program::ap2(
        Kernel::KvAppend {
            heads: s.n_head_kv,
            head_dim: s.head_dim,
            ctx: a.ctx,
            pos: a.pos,
            t: a.t,
        },
        cache,
        x,
    )
}

/// The keys of a layer once a chunk is in them.
pub open spec fn new_keys(s: Shape, a: At, y: Term<Buf, Kernel>, cache: Term<Buf, Kernel>) -> Term<
    Buf,
    Kernel,
> {
    appended(
        s,
        a,
        cache,
        turned(
            s,
            a,
            Weight::KNorm(a.il),
            s.n_head_kv,
            layer::product(
                Weight::Wk(a.il),
                s.n_embd,
                shape::times(s.n_head_kv as int, s.head_dim as int),
                a.t,
                y,
            ),
        ),
    )
}

/// The values of a layer once a chunk is in them.
pub open spec fn new_values(s: Shape, a: At, y: Term<Buf, Kernel>, cache: Term<Buf, Kernel>) -> Term<
    Buf,
    Kernel,
> {
    appended(
        s,
        a,
        cache,
        layer::product(
            Weight::Wv(a.il),
            s.n_embd,
            shape::times(s.n_head_kv as int, s.head_dim as int),
            a.t,
            y,
        ),
    )
}

/// The output of an attention layer on the normalized input `y`, over caches that hold the chunk.
pub open spec fn attn_output(
    s: Shape,
    a: At,
    y: Term<Buf, Kernel>,
    k: Term<Buf, Kernel>,
    v: Term<Buf, Kernel>,
) -> Term<Buf, Kernel> {
    let heads = program::ap3(
        Kernel::Attention {
            n_head: s.n_head,
            n_kv: s.n_head_kv,
            head_dim: s.head_dim,
            ctx: a.ctx,
            pos: a.pos,
            t: a.t,
        },
        turned(s, a, Weight::QNorm(a.il), s.n_head, gated_queries(s, a, y, 0)),
        k,
        v,
    );
    layer::product(
        Weight::AttnOutput(a.il),
        shape::times(s.n_head as int, s.head_dim as int),
        s.n_embd,
        a.t,
        program::ap2(
            Kernel::SigmoidGate { n: shape::times(a.t as int, s.n_head * s.head_dim) },
            heads,
            gated_queries(s, a, y, 1),
        ),
    )
}

/// The buffers that an attention layer writes.
pub open spec fn attn_writes(il: u32, b: Buf) -> bool {
    b == Buf::Qfull || b == Buf::Q || b == Buf::Gate || b == Buf::K || b == Buf::V || b
        == Buf::KCache(il) || b == Buf::VCache(il) || b == Buf::Heads || b == Buf::AttnOut
}

/// Launches an attention layer.
fn attend(p: &mut Program<Buf, Kernel>, s: &Shape, a: &At)
    requires
        s.wf_full(),
        a.t <= 16,
    ensures
        ({
            let st = old(p).store();
            let end = final(p).store();
            let y = st[Buf::Normed];
            let k = new_keys(*s, *a, y, st[Buf::KCache(a.il)]);
            let v = new_values(*s, *a, y, st[Buf::VCache(a.il)]);
            &&& end[Buf::KCache(a.il)] == k
            &&& end[Buf::VCache(a.il)] == v
            &&& end[Buf::AttnOut] == attn_output(*s, *a, y, k, v)
            &&& forall|b: Buf| !attn_writes(a.il, b) ==> #[trigger] end[b] == st[b]
        }),
{
    let t: u32 = a.t;
    let hd: u32 = s.head_dim;
    let q_dim: u32 = s.n_head * hd;
    let kv_dim: u32 = s.n_head_kv * hd;
    let nq: u32 = rows(t, s.n_head);
    let nk: u32 = rows(t, s.n_head_kv);
    let ng: u32 = rows(t, q_dim);
    p.op1(
        Kernel::MatmulQ8_0 { w: Weight::Wq(a.il), n_in: s.n_embd, n_out: 2 * q_dim, t },
        Buf::Qfull,
        Buf::Normed,
    );
    let ghost m = p.store();
    let mut v: Vec<Buf> = Vec::new();
    v.push(Buf::Qfull);
    assert(program::contents(m, v@) =~= seq![m[Buf::Qfull]]);
    p.op_pair(Kernel::SplitGate { heads: nq, width: hd }, Buf::Q, Buf::Gate, v);
    p.op1(
        Kernel::MatmulQ8_0 { w: Weight::Wk(a.il), n_in: s.n_embd, n_out: kv_dim, t },
        Buf::K,
        Buf::Normed,
    );
    p.op1(
        Kernel::MatmulQ8_0 { w: Weight::Wv(a.il), n_in: s.n_embd, n_out: kv_dim, t },
        Buf::V,
        Buf::Normed,
    );
    p.op1(
        Kernel::HeadNorm { norm: Some(Weight::QNorm(a.il)), heads: nq, width: hd },
        Buf::Q,
        Buf::Q,
    );
    p.op1(
        Kernel::HeadNorm { norm: Some(Weight::KNorm(a.il)), heads: nk, width: hd },
        Buf::K,
        Buf::K,
    );
    p.op1(
        Kernel::Rope { heads: s.n_head, head_dim: hd, rot: s.rot_dim, pos: a.pos, t },
        Buf::Q,
        Buf::Q,
    );
    p.op1(
        Kernel::Rope { heads: s.n_head_kv, head_dim: hd, rot: s.rot_dim, pos: a.pos, t },
        Buf::K,
        Buf::K,
    );
    p.op2(
        Kernel::KvAppend { heads: s.n_head_kv, head_dim: hd, ctx: a.ctx, pos: a.pos, t },
        Buf::KCache(a.il),
        Buf::KCache(a.il),
        Buf::K,
    );
    p.op2(
        Kernel::KvAppend { heads: s.n_head_kv, head_dim: hd, ctx: a.ctx, pos: a.pos, t },
        Buf::VCache(a.il),
        Buf::VCache(a.il),
        Buf::V,
    );
    p.op3(
        Kernel::Attention {
            n_head: s.n_head,
            n_kv: s.n_head_kv,
            head_dim: hd,
            ctx: a.ctx,
            pos: a.pos,
            t,
        },
        Buf::Heads,
        Buf::Q,
        Buf::KCache(a.il),
        Buf::VCache(a.il),
    );
    p.op2(Kernel::SigmoidGate { n: ng }, Buf::Heads, Buf::Heads, Buf::Gate);
    p.op1(
        Kernel::MatmulQ8_0 { w: Weight::AttnOutput(a.il), n_in: q_dim, n_out: s.n_embd, t },
        Buf::AttnOut,
        Buf::Heads,
    );
}

/// The ring of features once the input `x` of a layer is in it.
pub open spec fn captured(
    s: Shape,
    rt: LayerRt,
    a: At,
    ring: Term<Buf, Kernel>,
    x: Term<Buf, Kernel>,
) -> Term<Buf, Kernel> {
    match rt.feature {
        Some((i, n)) => program::ap2(
            Kernel::RingScatter {
                pos: a.pos,
                cap: RING_CAP,
                t: a.t,
                n: s.n_embd,
                stride: shape::times(n as int, s.n_embd as int),
                at: shape::times(i as int, s.n_embd as int),
            },
            ring,
            x,
        ),
        None => ring,
    }
}

/// The output of the first half of a layer.
pub open spec fn mix_output(
    s: Shape,
    w: Qwen35W,
    a: At,
    st: Map<Buf, Term<Buf, Kernel>>,
) -> Term<Buf, Kernel> {
    let y = mix_input(s, a, st[Buf::Cur]);
    if w.gdn {
        gdn_output(s, a, y, st[Buf::GdnConv(a.il)], st[Buf::GdnS(a.il)])
    } else {
        attn_output(
            s,
            a,
            y,
            new_keys(s, a, y, st[Buf::KCache(a.il)]),
            new_values(s, a, y, st[Buf::VCache(a.il)]),
        )
    }
}

/// The residual stream behind the first half of a layer.
pub open spec fn after_mix(
    s: Shape,
    w: Qwen35W,
    a: At,
    st: Map<Buf, Term<Buf, Kernel>>,
) -> Term<Buf, Kernel> {
    program::ap2(
        Kernel::Add { n: shape::times(a.t as int, s.n_embd as int) },
        st[Buf::Cur],
        mix_output(s, w, a, st),
    )
}

/// The buffers that the first half of a layer writes.
pub open spec fn mix_writes(il: u32, b: Buf) -> bool {
    gdn_writes(il, b) || attn_writes(il, b) || b == Buf::Ring || b == Buf::Normed || b
        == Buf::AfterAttn
}

/// What the first half of a layer leaves behind where it failed. Without weights nothing was
/// launched; else the features are captured and the input is normalized, and caches, windows and
/// states are as they were.
pub open spec fn mix_stopped(
    s: Shape,
    l: LayerW,
    rt: LayerRt,
    a: At,
    st: Map<Buf, Term<Buf, Kernel>>,
    end: Map<Buf, Term<Buf, Kernel>>,
) -> bool {
    match l.attn {
        None => end == st,
        Some(w) => {
            let y = mix_input(s, a, st[Buf::Cur]);
            &&& end[Buf::Ring] == captured(s, rt, a, st[Buf::Ring], st[Buf::Cur])
            &&& end[Buf::Normed] == y
            &&& w.gdn ==> stashed(s, rt, a, y, st, end)
            &&& forall|b: Buf|
                b != Buf::Ring && b != Buf::Normed && !(w.gdn && gdn_part_writes(a.il, b))
                    ==> #[trigger] end[b] == st[b]
        },
    }
}

/// Launches the first half of a layer.
pub fn mix(p: &mut Program<Buf, Kernel>, s: &Shape, l: &LayerW, rt: &LayerRt, a: &At) -> (r: Result<
    (),
    String,
>)
    requires
        s.wf_rows(),
        s.wf_full(),
        s.wf_delta(),
        a.t <= 16,
        rt.feature matches Some((i, n)) ==> i < n && n * s.n_embd <= u32::MAX,
    ensures
        r is Ok <==> mix_fault(*l, *rt) is None,
        r matches Err(e) ==> mix_fault(*l, *rt) == Some(e@),
        r is Err ==> mix_stopped(*s, *l, *rt, *a, old(p).store(), final(p).store()),
        r is Ok ==> {
            let st = old(p).store();
            let end = final(p).store();
            let w = l.attn->0;
            let y = mix_input(*s, *a, st[Buf::Cur]);
            let window = st[Buf::GdnConv(a.il)];
            let state = st[Buf::GdnS(a.il)];
            let (qkv, g, beta) = (
                raw_qkv(*s, *a, y),
                coefficient(*s, *a, y, 0),
                coefficient(*s, *a, y, 1),
            );
            &&& end[Buf::AfterAttn] == after_mix(*s, w, *a, st)
            &&& end[Buf::Ring] == captured(*s, *rt, *a, st[Buf::Ring], st[Buf::Cur])
            &&& w.gdn ==> {
                &&& end[Buf::GdnConv(a.il)] == convolved(*s, a.il, a.t, qkv, window, 1)
                &&& end[Buf::GdnS(a.il)] == delta(*s, a.il, a.t, qkv, g, beta, window, state, 1)
                &&& rt.keep ==> end[Buf::StashQkv(a.il)] == qkv && end[Buf::StashG(a.il)] == g
                    && end[Buf::StashBeta(a.il)] == beta
                &&& end[Buf::KCache(a.il)] == st[Buf::KCache(a.il)]
                &&& end[Buf::VCache(a.il)] == st[Buf::VCache(a.il)]
            }
            &&& !w.gdn || !rt.keep ==> {
                &&& end[Buf::StashQkv(a.il)] == st[Buf::StashQkv(a.il)]
                &&& end[Buf::StashG(a.il)] == st[Buf::StashG(a.il)]
                &&& end[Buf::StashBeta(a.il)] == st[Buf::StashBeta(a.il)]
            }
            &&& !w.gdn ==> {
                &&& end[Buf::KCache(a.il)] == new_keys(*s, *a, y, st[Buf::KCache(a.il)])
                &&& end[Buf::VCache(a.il)] == new_values(*s, *a, y, st[Buf::VCache(a.il)])
                &&& end[Buf::GdnConv(a.il)] == window
                &&& end[Buf::GdnS(a.il)] == state
            }
            &&& forall|b: Buf| !mix_writes(a.il, b) ==> #[trigger] end[b] == st[b]
        },
{
    let w = match l.attn {
        Some(w) => w,
        None => {
            return Err(owned("qwen35 layer without Qwen35 attn weights"));
        },
    };
    match rt.feature {
        Some((i, n)) => {
            assert(i * s.n_embd <= n * s.n_embd) by (nonlinear_arith)
                requires
                    i < n,
                    0 <= s.n_embd,
            ;
            p.op2(
                Kernel::RingScatter {
                    pos: a.pos,
                    cap: RING_CAP,
                    t: a.t,
                    n: s.n_embd,
                    stride: n * s.n_embd,
                    at: i * s.n_embd,
                },
                Buf::Ring,
                Buf::Ring,
                Buf::Cur,
            );
        },
        None => {},
    }
    p.op1(
        Kernel::RmsNorm { w: Weight::AttnNorm(a.il), width: s.n_embd, rows: a.t },
        Buf::Normed,
        Buf::Cur,
    );
    if w.gdn {
        match gdn(p, s, rt, a) {
            Ok(()) => {},
            Err(e) => {
                return Err(e);
            },
        }
    } else if w.attn {
        attend(p, s, a);
    } else {
        return Err(owned("qwen35 layer with neither attn nor gdn"));
    }
    let n: u32 = rows(a.t, s.n_embd);
    p.op2(Kernel::Add { n }, Buf::AfterAttn, Buf::Cur, Buf::AttnOut);
    Ok(())
}

/// The normalized input of the second half of a layer.
pub open spec fn ffn_input(s: Shape, a: At, x: Term<Buf, Kernel>) -> Term<Buf, Kernel> {
    program::ap1(
        Kernel::RmsNorm { w: Weight::FfnNorm(a.il), width: s.n_embd, rows: a.t },
        x,
    )
}

/// The router's choice on `y`: part 0 is the experts, part 1 their weights.
pub open spec fn routed(s: Shape, a: At, y: Term<Buf, Kernel>, part: nat) -> Term<Buf, Kernel> {
    Term::App {
        f: Kernel::RouterSelect {
            il: a.il,
            n_expert: s.n_expert,
            n_used: s.n_expert_used,
            t: a.t,
        },
        part,
        args: seq![
            program::ap1(
                Kernel::MatmulF32 {
                    w: Weight::GateInp(a.il),
                    n_in: s.n_embd,
                    n_out: s.n_expert,
                    t: a.t,
                },
                y,
            ),
        ],
    }
}

/// The output of the shared expert on `y`, scaled token by token; zeros where there is none.
pub open spec fn scaled_shared(s: Shape, a: At, shared: bool, y: Term<Buf, Kernel>) -> Term<
    Buf,
    Kernel,
> {
    let o = layer::shared_output(s, a.il, a.t, false, shared, y);
    if shared {
        program::ap2(
            Kernel::RowSigmoidScale { t: a.t, n: s.n_embd },
            o,
            program::ap1(
                Kernel::MatmulF32 { w: Weight::ShexpScalar(a.il), n_in: s.n_embd, n_out: 1, t: a.t },
                y,
            ),
        )
    } else {
        o
    }
}

/// The buffers that the router and the shared expert write.
pub open spec fn route_writes(b: Buf) -> bool {
    b == Buf::Normed || b == Buf::RouterLogits || b == Buf::RouterSelected || b
        == Buf::RouterWeights || b == Buf::GateAct || b == Buf::UpAct || b == Buf::FfnMid || b
        == Buf::SharedOut || b == Buf::Shg || b == Buf::Xq
}

/// Launches the router and the shared expert of a layer. The choice of experts is then read back.
pub fn route(p: &mut Program<Buf, Kernel>, s: &Shape, l: &LayerW, a: &At) -> (r: Result<(), String>)
    requires
        s.wf_experts(),
        a.t <= 16,
    ensures
        r is Ok <==> l.moe is Some,
        r matches Err(e) ==> e@ == "qwen35 layer without MoE ffn"@ && final(p).store() == old(
            p,
        ).store().insert(Buf::Normed, ffn_input(*s, *a, old(p).store()[Buf::AfterAttn])),
        r is Ok ==> {
            let st = old(p).store();
            let end = final(p).store();
            let y = ffn_input(*s, *a, st[Buf::AfterAttn]);
            &&& end[Buf::Normed] == y
            &&& end[Buf::RouterSelected] == routed(*s, *a, y, 0)
            &&& end[Buf::RouterWeights] == routed(*s, *a, y, 1)
            &&& end[Buf::SharedOut] == scaled_shared(*s, *a, l.moe->0, y)
            &&& end[Buf::Xq] == program::ap1(Kernel::QuantizeQ8k { n: s.n_embd, rows: a.t }, y)
            &&& forall|b: Buf| !route_writes(b) ==> #[trigger] end[b] == st[b]
        },
{
    p.op1(
        Kernel::RmsNorm { w: Weight::FfnNorm(a.il), width: s.n_embd, rows: a.t },
        Buf::Normed,
        Buf::AfterAttn,
    );
    let shared: bool = match l.moe {
        Some(b) => b,
        None => {
            return Err(owned("qwen35 layer without MoE ffn"));
        },
    };
    p.op1(
        Kernel::MatmulF32 { w: Weight::GateInp(a.il), n_in: s.n_embd, n_out: s.n_expert, t: a.t },
        Buf::RouterLogits,
        Buf::Normed,
    );
    let ghost m = p.store();
    let mut v: Vec<Buf> = Vec::new();
    v.push(Buf::RouterLogits);
    assert(program::contents(m, v@) =~= seq![m[Buf::RouterLogits]]);
    p.op_pair(
        Kernel::RouterSelect {
            il: a.il,
            n_expert: s.n_expert,
            n_used: s.n_expert_used,
            t: a.t,
        },
        Buf::RouterSelected,
        Buf::RouterWeights,
        v,
    );
    shared_expert(p, s, a.il, a.t, false, shared);
    if shared {
        p.op1(
            Kernel::MatmulF32 { w: Weight::ShexpScalar(a.il), n_in: s.n_embd, n_out: 1, t: a.t },
            Buf::Shg,
            Buf::Normed,
        );
        p.op2(
            Kernel::RowSigmoidScale { t: a.t, n: s.n_embd },
            Buf::SharedOut,
            Buf::SharedOut,
            Buf::Shg,
        );
    }
    p.op1(Kernel::QuantizeQ8k { n: s.n_embd, rows: a.t }, Buf::Xq, Buf::Normed);
    Ok(())
}

/// The buffers that the experts of a layer write.
pub open spec fn join_writes(b: Buf) -> bool {
    moe::experts_write(b) || b == Buf::FfnOut || b == Buf::Cur
}

/// Launches the experts of a layer and adds everything to the residual stream.
pub fn feed_forward(
    p: &mut Program<Buf, Kernel>,
    s: &Shape,
    a: &At,
    l: &Launch,
    counts: &Vec<u64>,
    groups: &Vec<u32>,
    lane: bool,
)
    requires
        s.wf_experts(),
        a.t <= 16,
        l.t == a.t,
        counts@.len() == groups@.len() <= u32::MAX,
    ensures
        ({
            let st = old(p).store();
            let end = final(p).store();
            let n = shape::times(a.t as int, s.n_embd as int);
            &&& end[Buf::Cur] == program::ap2(
                Kernel::Add { n },
                st[Buf::AfterAttn],
                program::ap2(
                    Kernel::Add { n },
                    moe::experts_output(*s, *l, counts@, groups@, lane, st),
                    st[Buf::SharedOut],
                ),
            )
            &&& forall|b: Buf| !join_writes(b) ==> #[trigger] end[b] == st[b]
        }),
{
    let n: u32 = rows(a.t, s.n_embd);
    dsv4_moe(p, s, l, counts, groups, lane);
    p.op2(Kernel::Add { n }, Buf::FfnOut, Buf::MoeOut, Buf::SharedOut);
    p.op2(Kernel::Add { n }, Buf::Cur, Buf::AfterAttn, Buf::FfnOut);
}

} // verus!
