//! One layer: what is launched, between the points where the host decides.
use vstd::prelude::*;

use super::lanes;
use super::lanes::ends_window;
use crate::engine::hybrid::kernels::{Buf, Half, Kernel, Weight};
use crate::engine::hybrid::moe;
use crate::engine::hybrid::moe::{dsv4_moe, Launch};
use crate::engine::hybrid::shape;
use crate::engine::hybrid::shape::{rows, Shape, OUT_RANK};
use crate::engine::program;
use crate::engine::program::{Program, Term};
use crate::text::owned;

verus! {

/// What a layer has of compressed attention.
#[derive(Debug, Clone, Copy, PartialEq, Eq, Structural)]
pub struct Dsv4W {
    /// Tokens of a compressed row; zero where nothing is compressed.
    pub ratio: u32,
    /// Width of the compressor's rows, where there is one.
    pub comp: Option<u32>,
    /// Width of the indexer's rows, where there is one.
    pub idx: Option<u32>,
}

/// What a layer has.
#[derive(Debug, Clone, Copy, PartialEq, Eq, Structural)]
pub struct LayerW {
    pub attn: Option<Dsv4W>,
    /// Whether it has a mixture of experts, and with it a shared expert.
    pub moe: Option<bool>,
}

/// State of a layer: which lanes it has, and how many rows they have given.
#[derive(Debug, Clone, Copy, PartialEq, Eq, Structural)]
pub struct LayerRt {
    pub comp: bool,
    pub n_comp: u32,
    pub idx: bool,
    pub n_idx_comp: u32,
}

/// A layer as a chunk meets it.
#[derive(Debug, Clone, Copy, PartialEq, Eq, Structural)]
pub struct At {
    pub il: u32,
    /// Position of the first token of the chunk.
    pub pos0: u32,
    /// Tokens of the chunk.
    pub t: u32,
    /// Which store holds the residual streams.
    pub hc: bool,
}

/// The gates of the residual streams `x` for a half of a layer.
pub open spec fn gates(s: Shape, a: At, half: Half, x: Term<Buf, Kernel>) -> Term<Buf, Kernel> {
    let n = shape::times(s.n_hc as int, s.n_embd as int);
    program::ap1(
        Kernel::Sinkhorn { il: a.il, half, n_hc: s.n_hc, iters: s.hc_sinkhorn, t: a.t },
        program::ap1(
            Kernel::MatmulF32 {
                w: Weight::HcFn(a.il, half),
                n_in: n,
                n_out: (6 * s.n_hc) as u32,
                t: a.t,
            },
            program::ap1(Kernel::RmsNorm { w: Weight::OnesHc, width: n, rows: a.t }, x),
        ),
    )
}

/// The input of a half of a layer: the residual streams mixed by their gates.
pub open spec fn reduced(s: Shape, a: At, half: Half, x: Term<Buf, Kernel>) -> Term<Buf, Kernel> {
    program::ap2(
        Kernel::HcReduce { n_embd: s.n_embd, n_hc: s.n_hc, t: a.t },
        x,
        gates(s, a, half, x),
    )
}

/// Takes the residual streams into a half of a layer.
pub fn dsv4_hc_pre(p: &mut Program<Buf, Kernel>, s: &Shape, a: &At, half: Half, ones: bool) -> (r:
    Result<(), String>)
    requires
        s.wf_streams(),
    ensures
        r is Ok <==> ones,
        r matches Err(e) ==> e@ == "ones_hc missing"@ && *final(p) == *old(p),
        r is Ok ==> {
            let st = old(p).store();
            let end = final(p).store();
            let x = st[Buf::Hc(a.hc)];
            &&& end[Buf::Cur] == reduced(*s, *a, half, x)
            &&& end[Buf::Coef(half)] == gates(*s, *a, half, x)
            &&& forall|b: Buf|
                b != Buf::Cur && b != Buf::Coef(half) && b != Buf::Mix && b != Buf::Hc(!a.hc)
                    ==> #[trigger] end[b] == st[b]
        },
{
    if !ones {
        return Err(owned("ones_hc missing"));
    }
    let n: u32 = s.n_hc * s.n_embd;
    p.op1(
        Kernel::RmsNorm { w: Weight::OnesHc, width: n, rows: a.t },
        Buf::Hc(!a.hc),
        Buf::Hc(a.hc),
    );
    p.op1(
        Kernel::MatmulF32 { w: Weight::HcFn(a.il, half), n_in: n, n_out: 6 * s.n_hc, t: a.t },
        Buf::Mix,
        Buf::Hc(!a.hc),
    );
    p.op1(
        Kernel::Sinkhorn { il: a.il, half, n_hc: s.n_hc, iters: s.hc_sinkhorn, t: a.t },
        Buf::Coef(half),
        Buf::Mix,
    );
    p.op2(
        Kernel::HcReduce { n_embd: s.n_embd, n_hc: s.n_hc, t: a.t },
        Buf::Cur,
        Buf::Hc(a.hc),
        Buf::Coef(half),
    );
    Ok(())
}

/// The residual streams behind a half of a layer.
pub open spec fn posted(
    s: Shape,
    a: At,
    x: Term<Buf, Kernel>,
    out: Term<Buf, Kernel>,
    gates: Term<Buf, Kernel>,
) -> Term<Buf, Kernel> {
    program::ap3(Kernel::HcMix { n_embd: s.n_embd, n_hc: s.n_hc, t: a.t }, x, out, gates)
}

/// Puts the output of a half of a layer back into the residual streams. Tells which store holds them
/// then.
pub fn dsv4_hc_post(p: &mut Program<Buf, Kernel>, s: &Shape, a: &At, half: Half, out: Buf) -> (r:
    bool)
    ensures
        r == !a.hc,
        ({
            let st = old(p).store();
            final(p).store() == st.insert(
                Buf::Hc(!a.hc),
                posted(*s, *a, st[Buf::Hc(a.hc)], st[out], st[Buf::Coef(half)]),
            )
        }),
{
    p.op3(
        Kernel::HcMix { n_embd: s.n_embd, n_hc: s.n_hc, t: a.t },
        Buf::Hc(!a.hc),
        Buf::Hc(a.hc),
        out,
        Buf::Coef(half),
    );
    !a.hc
}

/// `w` times a chunk.
pub open spec fn product(w: Weight, n_in: u32, n_out: u32, t: u32, x: Term<Buf, Kernel>) -> Term<
    Buf,
    Kernel,
> {
    program::ap1(Kernel::MatmulQ8_0 { w, n_in, n_out, t }, x)
}

/// The normalized input of the attention.
pub open spec fn attn_input(s: Shape, a: At, x: Term<Buf, Kernel>) -> Term<Buf, Kernel> {
    program::ap1(
        Kernel::RmsNorm { w: Weight::AttnNorm(a.il), width: s.n_embd, rows: a.t },
        reduced(s, a, Half::Attn, x),
    )
}

/// The low-rank queries of the normalized input `y`.
pub open spec fn low_queries(s: Shape, a: At, y: Term<Buf, Kernel>) -> Term<Buf, Kernel> {
    program::ap1(
        Kernel::RmsNorm { w: Weight::QANorm(a.il), width: s.n_lora_q, rows: a.t },
        product(Weight::QA(a.il), s.n_embd, s.n_lora_q, a.t, y),
    )
}

/// Rotation of the tails of heads at the positions of a chunk.
pub open spec fn turn(s: Shape, a: At, ratio: u32, heads: u32, inverse: bool) -> Kernel {
    Kernel::RopeTail {
        ratio,
        heads,
        head_dim: s.head_dim,
        rot: s.rot_dim,
        pos: a.pos0,
        t: a.t,
        inverse,
    }
}

/// The queries of the normalized input `y`.
pub open spec fn queries(s: Shape, a: At, ratio: u32, y: Term<Buf, Kernel>) -> Term<Buf, Kernel> {
    program::ap1(
        turn(s, a, ratio, s.n_head, false),
        program::ap1(
            Kernel::HeadNorm {
                norm: None,
                heads: shape::times(a.t as int, s.n_head as int),
                width: s.head_dim,
            },
            product(
                Weight::QB(a.il),
                s.n_lora_q,
                shape::times(s.n_head as int, s.head_dim as int),
                a.t,
                low_queries(s, a, y),
            ),
        ),
    )
}

/// The keys, which are the values too, of the normalized input `y`.
pub open spec fn keys(s: Shape, a: At, ratio: u32, y: Term<Buf, Kernel>) -> Term<Buf, Kernel> {
    program::ap1(
        Kernel::F16Round { n: shape::times(a.t as int, s.head_dim as int) },
        program::ap1(
            Kernel::Fp8Sim { head_dim: s.head_dim, rot: s.rot_dim, t: a.t },
            program::ap1(
                turn(s, a, ratio, 1, false),
                program::ap1(
                    Kernel::RmsNorm { w: Weight::KvANorm(a.il), width: s.head_dim, rows: a.t },
                    product(Weight::Kv(a.il), s.n_embd, s.head_dim, a.t, y),
                ),
            ),
        ),
    )
}

/// The buffers that the projections of the attention write.
pub open spec fn project_writes(a: At, b: Buf) -> bool {
    b == Buf::Cur || b == Buf::Coef(Half::Attn) || b == Buf::Mix || b == Buf::Hc(!a.hc) || b
        == Buf::Normed || b == Buf::QRank || b == Buf::QRankNorm || b == Buf::Q || b == Buf::K || b
        == Buf::V || b == Buf::CompKv || b == Buf::CompSc
}

/// Launches the projections of the attention.
fn project(p: &mut Program<Buf, Kernel>, s: &Shape, w: &Dsv4W, a: &At, ones: bool) -> (r: Result<
    (),
    String,
>)
    requires
        s.wf_streams(),
        s.wf_window(),
        a.t <= 16,
    ensures
        r is Ok <==> ones,
        r matches Err(e) ==> e@ == "ones_hc missing"@ && *final(p) == *old(p),
        r is Ok ==> {
            let st = old(p).store();
            let end = final(p).store();
            let x = st[Buf::Hc(a.hc)];
            let y = attn_input(*s, *a, x);
            &&& end[Buf::Coef(Half::Attn)] == gates(*s, *a, Half::Attn, x)
            &&& end[Buf::Normed] == y
            &&& end[Buf::QRankNorm] == low_queries(*s, *a, y)
            &&& end[Buf::Q] == queries(*s, *a, w.ratio, y)
            &&& end[Buf::V] == keys(*s, *a, w.ratio, y)
            &&& w.comp matches Some(n) ==> {
                &&& end[Buf::CompKv] == product(Weight::CompKvW(a.il, false), s.n_embd, n, a.t, y)
                &&& end[Buf::CompSc] == product(Weight::CompGateW(a.il, false), s.n_embd, n, a.t, y)
            }
            &&& forall|b: Buf| !project_writes(*a, b) ==> #[trigger] end[b] == st[b]
        },
{
    match dsv4_hc_pre(p, s, a, Half::Attn, ones) {
        Ok(()) => {},
        Err(e) => {
            return Err(e);
        },
    }
    let q_dim: u32 = s.n_head * s.head_dim;
    let t: u32 = a.t;
    let th: u32 = rows(t, s.n_head);
    let td: u32 = rows(t, s.head_dim);
    p.op1(
        Kernel::RmsNorm { w: Weight::AttnNorm(a.il), width: s.n_embd, rows: t },
        Buf::Normed,
        Buf::Cur,
    );
    p.op1(
        Kernel::MatmulQ8_0 { w: Weight::QA(a.il), n_in: s.n_embd, n_out: s.n_lora_q, t },
        Buf::QRank,
        Buf::Normed,
    );
    p.op1(
        Kernel::RmsNorm { w: Weight::QANorm(a.il), width: s.n_lora_q, rows: t },
        Buf::QRankNorm,
        Buf::QRank,
    );
    p.op1(
        Kernel::MatmulQ8_0 { w: Weight::QB(a.il), n_in: s.n_lora_q, n_out: q_dim, t },
        Buf::Q,
        Buf::QRankNorm,
    );
    p.op1(Kernel::HeadNorm { norm: None, heads: th, width: s.head_dim }, Buf::Q, Buf::Q);
    p.op1(
        Kernel::MatmulQ8_0 { w: Weight::Kv(a.il), n_in: s.n_embd, n_out: s.head_dim, t },
        Buf::K,
        Buf::Normed,
    );
    p.op1(
        Kernel::RmsNorm { w: Weight::KvANorm(a.il), width: s.head_dim, rows: t },
        Buf::V,
        Buf::K,
    );
    p.op1(
        Kernel::RopeTail {
            ratio: w.ratio,
            heads: s.n_head,
            head_dim: s.head_dim,
            rot: s.rot_dim,
            pos: a.pos0,
            t,
            inverse: false,
        },
        Buf::Q,
        Buf::Q,
    );
    p.op1(
        Kernel::RopeTail {
            ratio: w.ratio,
            heads: 1,
            head_dim: s.head_dim,
            rot: s.rot_dim,
            pos: a.pos0,
            t,
            inverse: false,
        },
        Buf::V,
        Buf::V,
    );
    p.op1(Kernel::Fp8Sim { head_dim: s.head_dim, rot: s.rot_dim, t }, Buf::V, Buf::V);
    p.op1(Kernel::F16Round { n: td }, Buf::V, Buf::V);
    match w.comp {
        Some(n) => {
            p.op1(
                Kernel::MatmulQ8_0 { w: Weight::CompKvW(a.il, false), n_in: s.n_embd, n_out: n, t },
                Buf::CompKv,
                Buf::Normed,
            );
            p.op1(
                Kernel::MatmulQ8_0 { w: Weight::CompGateW(a.il, false), n_in: s.n_embd, n_out: n, t },
                Buf::CompSc,
                Buf::Normed,
            );
        },
        None => {},
    }
    Ok(())
}

/// What the tokens of a chunk leave behind: the ring of keys, the lane, the compressed rows and
/// their number, and the output of the attention.
#[verifier::ext_equal]
pub struct Trail {
    pub ring: Term<Buf, Kernel>,
    pub kv: Term<Buf, Kernel>,
    pub sc: Term<Buf, Kernel>,
    pub rows: Term<Buf, Kernel>,
    pub n: nat,
    pub heads: Term<Buf, Kernel>,
}

/// Tokens that the window holds once position `pos` is in it.
pub open spec fn n_raw(s: Shape, pos: int) -> u32 {
    if pos + 1 < s.n_swa {
        (pos + 1) as u32
    } else {
        s.n_swa
    }
}

/// A token of a compressor lane.
pub open spec fn comp_kernel(
    a: At,
    idx: bool,
    n: nat,
    i: int,
    width: u32,
    head_dim: u32,
    ratio: u32,
) -> Kernel {
    Kernel::CompStep {
        il: a.il,
        idx,
        cached: n as u32,
        token: i as u32,
        width,
        head_dim,
        pos: (a.pos0 + i) as u32,
        emit: lanes::emits(ratio as nat, (a.pos0 + i) as nat),
    }
}

/// The operands of the attention of a token.
pub open spec fn attention_args(
    heads: Term<Buf, Kernel>,
    q: Term<Buf, Kernel>,
    ring: Term<Buf, Kernel>,
    rows: Term<Buf, Kernel>,
    n: nat,
) -> Seq<Term<Buf, Kernel>> {
    if n > 0 {
        seq![heads, q, ring, rows]
    } else {
        seq![heads, q, ring]
    }
}

/// What the first `i` tokens of a chunk leave behind: each goes into the ring first, then through
/// the lane, and then attends.
pub open spec fn trail(
    s: Shape,
    w: Dsv4W,
    a: At,
    st: Map<Buf, Term<Buf, Kernel>>,
    n0: nat,
    i: int,
) -> Trail
    decreases i,
{
    if i <= 0 {
        Trail {
            ring: st[Buf::KCache(a.il)],
            kv: st[Buf::LaneKv(a.il, false)],
            sc: st[Buf::LaneSc(a.il, false)],
            rows: st[Buf::VCache(a.il)],
            n: n0,
            heads: st[Buf::Heads],
        }
    } else {
        let k = i - 1;
        let o = trail(s, w, a, st, n0, k);
        let pos = a.pos0 + k;
        let ring = program::ap2(
            Kernel::CopyRow {
                from: k as u32,
                to: (pos % s.n_swa as int) as u64,
                n: s.head_dim,
            },
            o.ring,
            st[Buf::V],
        );
        let f = comp_kernel(a, false, o.n, k, w.comp->0, s.head_dim, w.ratio);
        let args = seq![o.kv, o.sc, o.rows, st[Buf::CompKv], st[Buf::CompSc]];
        let (kv, sc, rows, n) = if w.comp is Some {
            (
                Term::App { f, part: 0, args },
                Term::App { f, part: 1, args },
                Term::App { f, part: 2, args },
                if lanes::emits(w.ratio as nat, pos as nat) {
                    o.n + 1
                } else {
                    o.n
                },
            )
        } else {
            (o.kv, o.sc, o.rows, o.n)
        };
        let heads = program::ap(
            Kernel::AttentionAt {
                il: a.il,
                token: k as u32,
                n_raw: n_raw(s, pos),
                n_comp: n as u32,
                masked: false,
            },
            attention_args(o.heads, st[Buf::Q], ring, rows, n),
        );
        Trail { ring, kv, sc, rows, n, heads }
    }
}

/// Where the lane has given one row for every window before a chunk, it has so behind the chunk.
pub proof fn law_rows_count(
    s: Shape,
    w: Dsv4W,
    a: At,
    st: Map<Buf, Term<Buf, Kernel>>,
    n0: nat,
    i: int,
)
    requires
        0 <= i,
        w.comp is Some,
        n0 == lanes::ended(w.ratio as nat, a.pos0 as nat),
    ensures
        trail(s, w, a, st, n0, i).n == lanes::ended(w.ratio as nat, (a.pos0 + i) as nat),
    decreases i,
{
    if i > 0 {
        law_rows_count(s, w, a, st, n0, i - 1);
        lanes::law_ended(w.ratio as nat, (a.pos0 + i - 1) as nat);
        assert((a.pos0 + i - 1) as nat + 1 == (a.pos0 + i) as nat);
    }
}

/// The ring keeps the keys of the last positions apart: two positions less than a window apart have
/// different slots.
pub proof fn law_ring(n_swa: int, p: int, q: int)
    requires
        0 < n_swa,
        0 <= p < q < p + n_swa,
    ensures
        p % n_swa != q % n_swa,
        0 <= p % n_swa < n_swa,
{
    if p % n_swa == q % n_swa {
        vstd::arithmetic::div_mod::lemma_fundamental_div_mod(p, n_swa);
        vstd::arithmetic::div_mod::lemma_fundamental_div_mod(q, n_swa);
        let d = q / n_swa - p / n_swa;
        assert(q - p == n_swa * d) by (nonlinear_arith)
            requires
                p == n_swa * (p / n_swa) + p % n_swa,
                q == n_swa * (q / n_swa) + q % n_swa,
                p % n_swa == q % n_swa,
                d == q / n_swa - p / n_swa,
        ;
        assert(d < 1) by (nonlinear_arith)
            requires
                n_swa * d < n_swa,
                0 < n_swa,
        ;
        assert(d > 0) by (nonlinear_arith)
            requires
                n_swa * d > 0,
                0 < n_swa,
        ;
    }
}

/// The buffers that the tokens of a chunk write.
pub open spec fn tokens_write(a: At, b: Buf) -> bool {
    b == Buf::KCache(a.il) || b == Buf::LaneKv(a.il, false) || b == Buf::LaneSc(a.il, false) || b
        == Buf::VCache(a.il) || b == Buf::Heads
}

/// Launches one token of a compressor lane.
fn comp_step(
    p: &mut Program<Buf, Kernel>,
    a: &At,
    idx: bool,
    n: u32,
    i: u32,
    width: u32,
    head_dim: u32,
    ratio: u32,
    cache: Buf,
)
    requires
        cache != Buf::LaneKv(a.il, idx),
        cache != Buf::LaneSc(a.il, idx),
        a.pos0 + i <= u32::MAX,
    ensures
        ({
            let st = old(p).store();
            let f = comp_kernel(*a, idx, n as nat, i as int, width, head_dim, ratio);
            let args = seq![
                st[Buf::LaneKv(a.il, idx)],
                st[Buf::LaneSc(a.il, idx)],
                st[cache],
                st[Buf::CompKv],
                st[Buf::CompSc],
            ];
            final(p).store() == st.insert(
                Buf::LaneKv(a.il, idx),
                Term::App { f, part: 0, args },
            ).insert(Buf::LaneSc(a.il, idx), Term::App { f, part: 1, args }).insert(
                cache,
                Term::App { f, part: 2, args },
            )
        }),
{
    let ghost st = p.store();
    let mut v: Vec<Buf> = Vec::new();
    v.push(Buf::LaneKv(a.il, idx));
    v.push(Buf::LaneSc(a.il, idx));
    v.push(cache);
    v.push(Buf::CompKv);
    v.push(Buf::CompSc);
    assert(program::contents(st, v@) =~= seq![
        st[Buf::LaneKv(a.il, idx)],
        st[Buf::LaneSc(a.il, idx)],
        st[cache],
        st[Buf::CompKv],
        st[Buf::CompSc],
    ]);
    let pos: u32 = a.pos0 + i;
    p.op_triple(
        Kernel::CompStep {
            il: a.il,
            idx,
            cached: n,
            token: i,
            width,
            head_dim,
            pos,
            emit: ends_window(ratio, pos),
        },
        Buf::LaneKv(a.il, idx),
        Buf::LaneSc(a.il, idx),
        cache,
        v,
    );
}

/// Launches the attention of a token.
fn attend(
    p: &mut Program<Buf, Kernel>,
    il: u32,
    token: u32,
    n_raw: u32,
    n_comp: u32,
    masked: bool,
)
    ensures
        ({
            let st = old(p).store();
            let base = attention_args(
                st[Buf::Heads],
                st[Buf::Q],
                st[Buf::KCache(il)],
                st[Buf::VCache(il)],
                n_comp as nat,
            );
            final(p).store() == st.insert(
                Buf::Heads,
                program::ap(
                    Kernel::AttentionAt { il, token, n_raw, n_comp, masked },
                    if masked {
                        base.push(st[Buf::Allowed])
                    } else {
                        base
                    },
                ),
            )
        }),
{
    let ghost st = p.store();
    let mut v: Vec<Buf> = Vec::new();
    v.push(Buf::Heads);
    v.push(Buf::Q);
    v.push(Buf::KCache(il));
    if n_comp > 0 {
        v.push(Buf::VCache(il));
    }
    let ghost base = attention_args(
        st[Buf::Heads],
        st[Buf::Q],
        st[Buf::KCache(il)],
        st[Buf::VCache(il)],
        n_comp as nat,
    );
    assert(program::contents(st, v@) =~= base);
    if masked {
        v.push(Buf::Allowed);
        assert(program::contents(st, v@) =~= base.push(st[Buf::Allowed]));
    }
    p.op_list(Kernel::AttentionAt { il, token, n_raw, n_comp, masked }, Buf::Heads, v);
}

/// Launches the tokens of a chunk one by one. Gives back how many compressed rows there are then.
fn run_tokens(
    p: &mut Program<Buf, Kernel>,
    s: &Shape,
    w: &Dsv4W,
    a: &At,
    lane: bool,
    n0: u32,
) -> (r: Result<u32, String>)
    requires
        s.n_swa > 0,
        a.t <= 16,
        a.pos0 + a.t <= u32::MAX,
        n0 + a.t <= u32::MAX,
    ensures
        r is Ok <==> w.comp is None || lane || a.t == 0,
        r matches Err(e) ==> e@ == "compressor state missing"@ && final(p).store() == old(
            p,
        ).store().insert(
            Buf::KCache(a.il),
            trail(*s, *w, *a, old(p).store(), n0 as nat, 1).ring,
        ),
        r matches Ok(n) ==> {
            let st = old(p).store();
            let end = final(p).store();
            let tr = trail(*s, *w, *a, st, n0 as nat, a.t as int);
            &&& n == tr.n
            &&& end[Buf::KCache(a.il)] == tr.ring
            &&& end[Buf::LaneKv(a.il, false)] == tr.kv
            &&& end[Buf::LaneSc(a.il, false)] == tr.sc
            &&& end[Buf::VCache(a.il)] == tr.rows
            &&& end[Buf::Heads] == tr.heads
            &&& forall|b: Buf| !tokens_write(*a, b) ==> #[trigger] end[b] == st[b]
        },
{
    let ghost st = p.store();
    let mut n: u32 = n0;
    let mut i: u32 = 0;
    while i < a.t
        invariant
            i <= a.t <= 16,
            s.n_swa > 0,
            a.pos0 + a.t <= u32::MAX,
            n0 + a.t <= u32::MAX,
            n <= n0 + i,
            i > 0 ==> (w.comp is None || lane),
            st == old(p).store(),
            i == 0 ==> p.store() == st,
            ({
                let tr = trail(*s, *w, *a, st, n0 as nat, i as int);
                let end = p.store();
                &&& n == tr.n
                &&& end[Buf::KCache(a.il)] == tr.ring
                &&& end[Buf::LaneKv(a.il, false)] == tr.kv
                &&& end[Buf::LaneSc(a.il, false)] == tr.sc
                &&& end[Buf::VCache(a.il)] == tr.rows
                &&& end[Buf::Heads] == tr.heads
                &&& forall|b: Buf| !tokens_write(*a, b) ==> #[trigger] end[b] == st[b]
            }),
        decreases a.t - i,
    {
        let ghost before = p.store();
        let ghost o = trail(*s, *w, *a, st, n0 as nat, i as int);
        let pos: u32 = a.pos0 + i;
        let raw: u32 = if pos as u64 + 1 < s.n_swa as u64 {
            pos + 1
        } else {
            s.n_swa
        };
        p.op2(
            Kernel::CopyRow { from: i, to: (pos % s.n_swa) as u64, n: s.head_dim },
            Buf::KCache(a.il),
            Buf::KCache(a.il),
            Buf::V,
        );
        match w.comp {
            Some(width) => {
                if !lane {
                    assert(trail(*s, *w, *a, st, n0 as nat, 1).ring == p.store()[Buf::KCache(a.il)]);
                    return Err(owned("compressor state missing"));
                }
                comp_step(
                    p,
                    a,
                    false,
                    n,
                    i,
                    width,
                    s.head_dim,
                    w.ratio,
                    Buf::VCache(a.il),
                );
                if ends_window(w.ratio, pos) {
                    n = n + 1;
                }
            },
            None => {},
        }
        attend(p, a.il, i, raw, n, false);
        i = i + 1;
    }
    Ok(n)
}

/// What the first `i` tokens of a chunk leave behind in the lane of the indexer: values, scores,
/// rows and their number.
pub open spec fn idx_trail(
    s: Shape,
    w: Dsv4W,
    a: At,
    st: Map<Buf, Term<Buf, Kernel>>,
    kv: Term<Buf, Kernel>,
    sc: Term<Buf, Kernel>,
    n0: nat,
    i: int,
) -> (Term<Buf, Kernel>, Term<Buf, Kernel>, Term<Buf, Kernel>, nat)
    decreases i,
{
    if i <= 0 {
        (st[Buf::LaneKv(a.il, true)], st[Buf::LaneSc(a.il, true)], st[Buf::IdxCache(a.il)], n0)
    } else {
        let k = i - 1;
        let o = idx_trail(s, w, a, st, kv, sc, n0, k);
        let f = comp_kernel(a, true, o.3, k, w.idx->0, s.n_idx_dim, w.ratio);
        let args = seq![o.0, o.1, o.2, kv, sc];
        (
            Term::App { f, part: 0, args },
            Term::App { f, part: 1, args },
            Term::App { f, part: 2, args },
            if lanes::emits(w.ratio as nat, (a.pos0 + k) as nat) {
                o.3 + 1
            } else {
                o.3
            },
        )
    }
}

/// Where the indexer has given one row for every window before a chunk, it has so behind the chunk.
pub proof fn law_idx_rows_count(
    s: Shape,
    w: Dsv4W,
    a: At,
    st: Map<Buf, Term<Buf, Kernel>>,
    kv: Term<Buf, Kernel>,
    sc: Term<Buf, Kernel>,
    n0: nat,
    i: int,
)
    requires
        0 <= i,
        n0 == lanes::ended(w.ratio as nat, a.pos0 as nat),
    ensures
        idx_trail(s, w, a, st, kv, sc, n0, i).3 == lanes::ended(
            w.ratio as nat,
            (a.pos0 + i) as nat,
        ),
    decreases i,
{
    if i > 0 {
        law_idx_rows_count(s, w, a, st, kv, sc, n0, i - 1);
        lanes::law_ended(w.ratio as nat, (a.pos0 + i - 1) as nat);
        assert((a.pos0 + i - 1) as nat + 1 == (a.pos0 + i) as nat);
    }
}

/// The projections of the indexer's lane.
pub open spec fn idx_projected(s: Shape, w: Dsv4W, a: At, y: Term<Buf, Kernel>, gate: bool) -> Term<
    Buf,
    Kernel,
> {
    product(
        if gate {
            Weight::CompGateW(a.il, true)
        } else {
            Weight::CompKvW(a.il, true)
        },
        s.n_embd,
        w.idx->0,
        a.t,
        y,
    )
}

/// The buffers that the indexer writes.
pub open spec fn idx_writes(a: At, b: Buf) -> bool {
    b == Buf::CompKv || b == Buf::CompSc || b == Buf::LaneKv(a.il, true) || b == Buf::LaneSc(
        a.il,
        true,
    ) || b == Buf::IdxCache(a.il) || b == Buf::Low || b == Buf::IdxW
}

/// The query of the indexer, and the weights of its heads.
pub open spec fn idx_query(s: Shape, a: At, low: Term<Buf, Kernel>) -> Term<Buf, Kernel> {
    product(
        Weight::IdxQB(a.il),
        s.n_lora_q,
        shape::times(s.n_idx_head as int, s.n_idx_dim as int),
        1,
        low,
    )
}

/// The weights of the heads of the indexer.
pub open spec fn idx_weights(s: Shape, a: At, y: Term<Buf, Kernel>) -> Term<Buf, Kernel> {
    program::ap1(
        Kernel::MatmulF32 { w: Weight::IdxProj(a.il), n_in: s.n_embd, n_out: s.n_idx_head, t: 1 },
        y,
    )
}

/// Launches the lane of the indexer. Gives back how many rows it has given then, and whether the
/// host is to select among them: for one token, past the number of rows that a query sees.
fn run_indexer(p: &mut Program<Buf, Kernel>, s: &Shape, w: &Dsv4W, a: &At, lane: bool, n0: u32) -> (
r: Result<(u32, bool), String>)
    requires
        s.n_idx_head * s.n_idx_dim <= u32::MAX,
        w.idx is Some,
        a.t <= 16,
        a.pos0 + a.t <= u32::MAX,
        n0 + a.t <= u32::MAX,
    ensures
        r is Ok <==> lane || a.t == 0,
        r matches Err(e) ==> e@ == "indexer state missing"@ && final(p).store() == old(
            p,
        ).store().insert(
            Buf::CompKv,
            idx_projected(*s, *w, *a, old(p).store()[Buf::Normed], false),
        ).insert(
            Buf::CompSc,
            idx_projected(*s, *w, *a, old(p).store()[Buf::Normed], true),
        ),
        r matches Ok((n, sel)) ==> {
            let st = old(p).store();
            let end = final(p).store();
            let y = st[Buf::Normed];
            let tr = idx_trail(
                *s,
                *w,
                *a,
                st,
                idx_projected(*s, *w, *a, y, false),
                idx_projected(*s, *w, *a, y, true),
                n0 as nat,
                a.t as int,
            );
            &&& n == tr.3
            &&& end[Buf::LaneKv(a.il, true)] == tr.0
            &&& end[Buf::LaneSc(a.il, true)] == tr.1
            &&& end[Buf::IdxCache(a.il)] == tr.2
            &&& sel == (a.t == 1 && n > s.n_idx_topk)
            &&& sel ==> end[Buf::Low] == idx_query(*s, *a, st[Buf::QRankNorm])
            &&& sel ==> end[Buf::IdxW] == idx_weights(*s, *a, y)
            &&& forall|b: Buf| !idx_writes(*a, b) ==> #[trigger] end[b] == st[b]
        },
{
    let ghost st = p.store();
    let ghost y = st[Buf::Normed];
    let width: u32 = match w.idx {
        Some(n) => n,
        None => 0,
    };
    p.op1(
        Kernel::MatmulQ8_0 {
            w: Weight::CompKvW(a.il, true),
            n_in: s.n_embd,
            n_out: width,
            t: a.t,
        },
        Buf::CompKv,
        Buf::Normed,
    );
    p.op1(
        Kernel::MatmulQ8_0 {
            w: Weight::CompGateW(a.il, true),
            n_in: s.n_embd,
            n_out: width,
            t: a.t,
        },
        Buf::CompSc,
        Buf::Normed,
    );
    let ghost kv = idx_projected(*s, *w, *a, y, false);
    let ghost sc = idx_projected(*s, *w, *a, y, true);
    let mut n: u32 = n0;
    let mut i: u32 = 0;
    while i < a.t
        invariant
            i <= a.t <= 16,
            w.idx == Some(width),
            a.pos0 + a.t <= u32::MAX,
            n0 + a.t <= u32::MAX,
            n <= n0 + i,
            i > 0 ==> lane,
            st == old(p).store(),
            kv == idx_projected(*s, *w, *a, st[Buf::Normed], false),
            sc == idx_projected(*s, *w, *a, st[Buf::Normed], true),
            i == 0 ==> p.store() == st.insert(Buf::CompKv, kv).insert(Buf::CompSc, sc),
            ({
                let tr = idx_trail(*s, *w, *a, st, kv, sc, n0 as nat, i as int);
                let end = p.store();
                &&& n == tr.3
                &&& end[Buf::LaneKv(a.il, true)] == tr.0
                &&& end[Buf::LaneSc(a.il, true)] == tr.1
                &&& end[Buf::IdxCache(a.il)] == tr.2
                &&& end[Buf::CompKv] == kv
                &&& end[Buf::CompSc] == sc
                &&& forall|b: Buf| !idx_writes(*a, b) ==> #[trigger] end[b] == st[b]
            }),
        decreases a.t - i,
    {
        if !lane {
            return Err(owned("indexer state missing"));
        }
        comp_step(p, a, true, n, i, width, s.n_idx_dim, w.ratio, Buf::IdxCache(a.il));
        if ends_window(w.ratio, a.pos0 + i) {
            n = n + 1;
        }
        i = i + 1;
    }
    let sel: bool = a.t == 1 && n > s.n_idx_topk;
    if sel {
        let n_out: u32 = s.n_idx_head * s.n_idx_dim;
        p.op1(
            Kernel::MatmulQ8_0 { w: Weight::IdxQB(a.il), n_in: s.n_lora_q, n_out, t: 1 },
            Buf::Low,
            Buf::QRankNorm,
        );
        p.op1(
            Kernel::MatmulF32 {
                w: Weight::IdxProj(a.il),
                n_in: s.n_embd,
                n_out: s.n_idx_head,
                t: 1,
            },
            Buf::IdxW,
            Buf::Normed,
        );
    }
    Ok((n, sel))
}

/// Why the attention of a layer cannot run on a chunk.
pub open spec fn attention_fault(l: LayerW, rt: LayerRt, ones: bool) -> Option<Seq<char>> {
    match l.attn {
        None => Some("dsv4 layer without Dsv4 attn weights"@),
        Some(w) => if !ones {
            Some("ones_hc missing"@)
        } else if w.comp is Some && !rt.comp {
            Some("compressor state missing"@)
        } else if w.idx is Some && !rt.idx {
            Some("indexer state missing"@)
        } else {
            None
        },
    }
}

/// The store once the projections of a chunk are there, as far as its tokens read it.
pub open spec fn projected(s: Shape, w: Dsv4W, a: At, st: Map<Buf, Term<Buf, Kernel>>) -> Map<
    Buf,
    Term<Buf, Kernel>,
> {
    let y = attn_input(s, a, st[Buf::Hc(a.hc)]);
    let base = st.insert(Buf::Q, queries(s, a, w.ratio, y)).insert(
        Buf::V,
        keys(s, a, w.ratio, y),
    );
    match w.comp {
        Some(n) => base.insert(
            Buf::CompKv,
            product(Weight::CompKvW(a.il, false), s.n_embd, n, a.t, y),
        ).insert(Buf::CompSc, product(Weight::CompGateW(a.il, false), s.n_embd, n, a.t, y)),
        None => base,
    }
}

/// The trail of a chunk depends on what its tokens read only.
proof fn lemma_trail_same(
    s: Shape,
    w: Dsv4W,
    a: At,
    x: Map<Buf, Term<Buf, Kernel>>,
    y: Map<Buf, Term<Buf, Kernel>>,
    n0: nat,
    i: int,
)
    requires
        x[Buf::Q] == y[Buf::Q],
        x[Buf::V] == y[Buf::V],
        w.comp is Some ==> x[Buf::CompKv] == y[Buf::CompKv] && x[Buf::CompSc] == y[Buf::CompSc],
        x[Buf::KCache(a.il)] == y[Buf::KCache(a.il)],
        x[Buf::VCache(a.il)] == y[Buf::VCache(a.il)],
        x[Buf::LaneKv(a.il, false)] == y[Buf::LaneKv(a.il, false)],
        x[Buf::LaneSc(a.il, false)] == y[Buf::LaneSc(a.il, false)],
        x[Buf::Heads] == y[Buf::Heads],
    ensures
        trail(s, w, a, x, n0, i) == trail(s, w, a, y, n0, i),
    decreases i,
{
    if i > 0 {
        lemma_trail_same(s, w, a, x, y, n0, i - 1);
    }
}

/// The lane of the indexer depends on what it held only.
proof fn lemma_idx_trail_same(
    s: Shape,
    w: Dsv4W,
    a: At,
    x: Map<Buf, Term<Buf, Kernel>>,
    y: Map<Buf, Term<Buf, Kernel>>,
    kv: Term<Buf, Kernel>,
    sc: Term<Buf, Kernel>,
    n0: nat,
    i: int,
)
    requires
        x[Buf::LaneKv(a.il, true)] == y[Buf::LaneKv(a.il, true)],
        x[Buf::LaneSc(a.il, true)] == y[Buf::LaneSc(a.il, true)],
        x[Buf::IdxCache(a.il)] == y[Buf::IdxCache(a.il)],
    ensures
        idx_trail(s, w, a, x, kv, sc, n0, i) == idx_trail(s, w, a, y, kv, sc, n0, i),
    decreases i,
{
    if i > 0 {
        lemma_idx_trail_same(s, w, a, x, y, kv, sc, n0, i - 1);
    }
}

/// The buffers that the attention of a layer writes.
pub open spec fn attention_writes(a: At, b: Buf) -> bool {
    project_writes(a, b) || tokens_write(a, b) || idx_writes(a, b)
}

/// What the attention of a layer leaves behind where it failed. Without weights, or without the
/// ones that the residual streams are normalized by, nothing was launched. Without the state of
/// the compressor the first token's key stands in the ring. Without the state of the indexer the
/// tokens are through, and the indexer's lane and rows are as they were.
pub open spec fn attention_stopped(
    s: Shape,
    l: LayerW,
    a: At,
    ones: bool,
    rt: LayerRt,
    rt_end: LayerRt,
    st: Map<Buf, Term<Buf, Kernel>>,
    end: Map<Buf, Term<Buf, Kernel>>,
) -> bool {
    match l.attn {
        None => end == st && rt_end == rt,
        Some(w) => {
            let n0 = rt.n_comp as nat;
            let at = projected(s, w, a, st);
            let first = trail(s, w, a, at, n0, 1);
            let all = trail(s, w, a, at, n0, a.t as int);
            if !ones {
                end == st && rt_end == rt
            } else if w.comp is Some && !rt.comp {
                &&& rt_end == rt
                &&& end[Buf::KCache(a.il)] == first.ring
                &&& forall|b: Buf|
                    !project_writes(a, b) && b != Buf::KCache(a.il) ==> #[trigger] end[b] == st[b]
            } else {
                &&& rt_end == (LayerRt { n_comp: all.n as u32, ..rt })
                &&& end[Buf::KCache(a.il)] == all.ring
                &&& end[Buf::LaneKv(a.il, false)] == all.kv
                &&& end[Buf::LaneSc(a.il, false)] == all.sc
                &&& end[Buf::VCache(a.il)] == all.rows
                &&& end[Buf::Heads] == all.heads
                &&& forall|b: Buf|
                    !project_writes(a, b) && !tokens_write(a, b) ==> #[trigger] end[b] == st[b]
            }
        },
    }
}

/// Launches the attention of a layer on a chunk, up to where the host may have to select among the
/// compressed rows; tells whether it has to.
pub fn attention(
    p: &mut Program<Buf, Kernel>,
    s: &Shape,
    l: &LayerW,
    rt: &mut LayerRt,
    a: &At,
    ones: bool,
) -> (r: Result<bool, String>)
    requires
        s.wf_streams(),
        s.wf_window(),
        0 < a.t <= 16,
        a.pos0 + a.t <= u32::MAX,
        old(rt).n_comp + a.t <= u32::MAX,
        old(rt).n_idx_comp + a.t <= u32::MAX,
        l.attn matches Some(w) ==> (w.idx is Some ==> w.ratio > 0),
    ensures
        r is Ok <==> attention_fault(*l, *old(rt), ones) is None,
        r matches Err(e) ==> attention_fault(*l, *old(rt), ones) == Some(e@),
        r is Err ==> attention_stopped(
            *s,
            *l,
            *a,
            ones,
            *old(rt),
            *final(rt),
            old(p).store(),
            final(p).store(),
        ),
        forall|b: Buf|
            !attention_writes(*a, b) ==> #[trigger] final(p).store()[b] == old(p).store()[b],
        r matches Ok(sel) ==> {
            let st = old(p).store();
            let end = final(p).store();
            let w = l.attn->0;
            let y = attn_input(*s, *a, st[Buf::Hc(a.hc)]);
            let tr = trail(
                *s,
                w,
                *a,
                projected(*s, w, *a, st),
                old(rt).n_comp as nat,
                a.t as int,
            );
            let ix = idx_trail(
                *s,
                w,
                *a,
                st,
                idx_projected(*s, w, *a, y, false),
                idx_projected(*s, w, *a, y, true),
                old(rt).n_idx_comp as nat,
                a.t as int,
            );
            &&& end[Buf::Coef(Half::Attn)] == gates(*s, *a, Half::Attn, st[Buf::Hc(a.hc)])
            &&& end[Buf::Q] == queries(*s, *a, w.ratio, y)
            &&& end[Buf::KCache(a.il)] == tr.ring
            &&& end[Buf::LaneKv(a.il, false)] == tr.kv
            &&& end[Buf::LaneSc(a.il, false)] == tr.sc
            &&& end[Buf::VCache(a.il)] == tr.rows
            &&& end[Buf::Heads] == tr.heads
            &&& final(rt).n_comp == tr.n
            &&& final(rt).comp == old(rt).comp && final(rt).idx == old(rt).idx
            &&& w.idx is None ==> {
                &&& !sel
                &&& final(rt).n_idx_comp == old(rt).n_idx_comp
                &&& end[Buf::LaneKv(a.il, true)] == st[Buf::LaneKv(a.il, true)]
                &&& end[Buf::LaneSc(a.il, true)] == st[Buf::LaneSc(a.il, true)]
                &&& end[Buf::IdxCache(a.il)] == st[Buf::IdxCache(a.il)]
            }
            &&& w.idx is Some ==> {
                &&& final(rt).n_idx_comp == ix.3
                &&& end[Buf::LaneKv(a.il, true)] == ix.0
                &&& end[Buf::LaneSc(a.il, true)] == ix.1
                &&& end[Buf::IdxCache(a.il)] == ix.2
                &&& sel == (a.t == 1 && ix.3 > s.n_idx_topk)
            }
            &&& sel ==> end[Buf::Low] == idx_query(*s, *a, low_queries(*s, *a, y))
            &&& sel ==> end[Buf::IdxW] == idx_weights(*s, *a, y)
        },
{
    let w = match l.attn {
        Some(w) => w,
        None => {
            return Err(owned("dsv4 layer without Dsv4 attn weights"));
        },
    };
    let ghost st = p.store();
    match project(p, s, &w, a, ones) {
        Ok(()) => {},
        Err(e) => {
            return Err(e);
        },
    }
    let ghost mid = p.store();
    let ghost y = attn_input(*s, *a, st[Buf::Hc(a.hc)]);
    let n0: u32 = rt.n_comp;
    let k0: u32 = rt.n_idx_comp;
    proof {
        lemma_trail_same(*s, w, *a, mid, projected(*s, w, *a, st), n0 as nat, 1);
        lemma_trail_same(*s, w, *a, mid, projected(*s, w, *a, st), n0 as nat, a.t as int);
    }
    match run_tokens(p, s, &w, a, rt.comp, n0) {
        Ok(n) => {
            rt.n_comp = n;
        },
        Err(e) => {
            return Err(e);
        },
    }
    let ghost mid2 = p.store();
    let mut sel: bool = false;
    if w.idx.is_some() {
        match run_indexer(p, s, &w, a, rt.idx, k0) {
            Ok((n, pick)) => {
                rt.n_idx_comp = n;
                sel = pick;
            },
            Err(e) => {
                return Err(e);
            },
        }
        proof {
            lemma_idx_trail_same(
                *s,
                w,
                *a,
                mid2,
                st,
                idx_projected(*s, w, *a, y, false),
                idx_projected(*s, w, *a, y, true),
                k0 as nat,
                a.t as int,
            );
        }
    }
    Ok(sel)
}

/// Launches the attention of a single token again, over the rows that the host has selected.
pub fn attend_selected(p: &mut Program<Buf, Kernel>, s: &Shape, rt: &LayerRt, a: &At)
    requires
        a.t == 1,
    ensures
        ({
            let st = old(p).store();
            let end = final(p).store();
            &&& end[Buf::Allowed] == program::ap(
                Kernel::WriteMask,
                Seq::<Term<Buf, Kernel>>::empty(),
            )
            &&& end[Buf::Heads] == program::ap(
                Kernel::AttentionAt {
                    il: a.il,
                    token: 0,
                    n_raw: n_raw(*s, a.pos0 as int),
                    n_comp: rt.n_comp,
                    masked: true,
                },
                attention_args(
                    st[Buf::Heads],
                    st[Buf::Q],
                    st[Buf::KCache(a.il)],
                    st[Buf::VCache(a.il)],
                    rt.n_comp as nat,
                ).push(end[Buf::Allowed]),
            )
            &&& forall|b: Buf| b != Buf::Allowed && b != Buf::Heads ==> #[trigger] end[b] == st[b]
        }),
{
    let raw: u32 = if a.pos0 as u64 + 1 < s.n_swa as u64 {
        a.pos0 + 1
    } else {
        s.n_swa
    };
    p.op0(Kernel::WriteMask, Buf::Allowed);
    attend(p, a.il, 0, raw, rt.n_comp, true);
}

/// The output of the attention of a layer.
pub open spec fn attention_output(s: Shape, ratio: u32, a: At, heads: Term<Buf, Kernel>) -> Term<
    Buf,
    Kernel,
> {
    product(
        Weight::AttnOutput(a.il),
        (s.n_out_group * 1024) as u32,
        s.n_embd,
        a.t,
        program::ap1(
            Kernel::MatmulBanked {
                w: Weight::OutA(a.il),
                n_in: (s.q_dim() / s.n_out_group as int) as u32,
                n_out: OUT_RANK,
                n_group: s.n_out_group,
                t: a.t,
            },
            program::ap1(turn(s, a, ratio, s.n_head, true), heads),
        ),
    )
}

/// Why the router of a layer cannot run.
pub open spec fn router_fault(l: LayerW, ones: bool) -> Option<Seq<char>> {
    if !ones {
        Some("ones_hc missing"@)
    } else if l.moe is None {
        Some("dsv4 layer without MoE ffn"@)
    } else {
        None
    }
}

/// The residual streams behind the attention of a layer.
pub open spec fn after_attention(
    s: Shape,
    ratio: u32,
    a: At,
    st: Map<Buf, Term<Buf, Kernel>>,
) -> Term<Buf, Kernel> {
    posted(
        s,
        a,
        st[Buf::Hc(a.hc)],
        attention_output(s, ratio, a, st[Buf::Heads]),
        st[Buf::Coef(Half::Attn)],
    )
}

/// The input of the feed-forward part, from the residual streams.
pub open spec fn ffn_input(s: Shape, a: At, x: Term<Buf, Kernel>) -> Term<Buf, Kernel> {
    program::ap1(
        Kernel::RmsNorm { w: Weight::FfnNorm(a.il), width: s.n_embd, rows: a.t },
        reduced(s, a, Half::Ffn, x),
    )
}

/// The buffers that the part from the attention's output to the router writes.
pub open spec fn router_writes(b: Buf) -> bool {
    b == Buf::Heads || b == Buf::Low || b == Buf::AttnOut || b is Hc || b == Buf::Mix || b
        == Buf::Coef(Half::Ffn) || b == Buf::Cur || b == Buf::Normed || b == Buf::RouterLogits
}

/// Launches the output of the attention and the router of a layer. The router's logits are then
/// read back. Gives back where the residual streams are.
pub fn router(
    p: &mut Program<Buf, Kernel>,
    s: &Shape,
    l: &LayerW,
    w: &Dsv4W,
    a: &At,
    ones: bool,
) -> (r: Result<At, String>)
    requires
        s.wf_streams(),
        s.wf_output(),
    ensures
        r is Ok <==> router_fault(*l, ones) is None,
        r matches Err(e) ==> router_fault(*l, ones) == Some(e@),
        ({
            let st = old(p).store();
            let end = final(p).store();
            let b = At { hc: !a.hc, ..*a };
            let x = after_attention(*s, w.ratio, *a, st);
            &&& end[Buf::Hc(b.hc)] == x
            &&& end[Buf::Coef(Half::Ffn)] == if ones {
                gates(*s, b, Half::Ffn, x)
            } else {
                st[Buf::Coef(Half::Ffn)]
            }
            &&& end[Buf::Normed] == if ones {
                ffn_input(*s, b, x)
            } else {
                st[Buf::Normed]
            }
            &&& r is Err ==> end[Buf::RouterLogits] == st[Buf::RouterLogits]
            &&& forall|b: Buf| !router_writes(b) ==> #[trigger] end[b] == st[b]
        }),
        r matches Ok(b) ==> {
            let end = final(p).store();
            &&& b == (At { hc: !a.hc, ..*a })
            &&& end[Buf::RouterLogits] == program::ap1(
                Kernel::MatmulF32 {
                    w: Weight::GateInp(a.il),
                    n_in: s.n_embd,
                    n_out: s.n_expert,
                    t: a.t,
                },
                end[Buf::Normed],
            )
        },
{
    let q_dim: u32 = s.n_head * s.head_dim;
    p.op1(
        Kernel::RopeTail {
            ratio: w.ratio,
            heads: s.n_head,
            head_dim: s.head_dim,
            rot: s.rot_dim,
            pos: a.pos0,
            t: a.t,
            inverse: true,
        },
        Buf::Heads,
        Buf::Heads,
    );
    p.op1(
        Kernel::MatmulBanked {
            w: Weight::OutA(a.il),
            n_in: q_dim / s.n_out_group,
            n_out: OUT_RANK,
            n_group: s.n_out_group,
            t: a.t,
        },
        Buf::Low,
        Buf::Heads,
    );
    p.op1(
        Kernel::MatmulQ8_0 {
            w: Weight::AttnOutput(a.il),
            n_in: s.n_out_group * 1024,
            n_out: s.n_embd,
            t: a.t,
        },
        Buf::AttnOut,
        Buf::Low,
    );
    let hc: bool = dsv4_hc_post(p, s, a, Half::Attn, Buf::AttnOut);
    let b = At { il: a.il, pos0: a.pos0, t: a.t, hc };
    match dsv4_hc_pre(p, s, &b, Half::Ffn, ones) {
        Ok(()) => {},
        Err(e) => {
            return Err(e);
        },
    }
    p.op1(
        Kernel::RmsNorm { w: Weight::FfnNorm(a.il), width: s.n_embd, rows: a.t },
        Buf::Normed,
        Buf::Cur,
    );
    if l.moe.is_none() {
        return Err(owned("dsv4 layer without MoE ffn"));
    }
    p.op1(
        Kernel::MatmulF32 { w: Weight::GateInp(a.il), n_in: s.n_embd, n_out: s.n_expert, t: a.t },
        Buf::RouterLogits,
        Buf::Normed,
    );
    Ok(b)
}

/// The output of the shared expert on `y`; zeros where there is none.
pub open spec fn shared_output(
    s: Shape,
    il: u32,
    t: u32,
    clamp: bool,
    shared: bool,
    y: Term<Buf, Kernel>,
) -> Term<Buf, Kernel> {
    if shared {
        product(
            Weight::ShexpDown(il),
            s.n_ff_exp,
            s.n_embd,
            t,
            program::ap2(
                Kernel::Swiglu { n: shape::times(t as int, s.n_ff_exp as int), clamp },
                product(Weight::ShexpGate(il), s.n_embd, s.n_ff_exp, t, y),
                product(Weight::ShexpUp(il), s.n_embd, s.n_ff_exp, t, y),
            ),
        )
    } else {
        program::ap(
            Kernel::Zero { count: shape::wide_times(t as int, s.n_embd as int) },
            Seq::<Term<Buf, Kernel>>::empty(),
        )
    }
}

/// Launches the shared expert; clears its output where there is none.
pub fn shared_expert(
    p: &mut Program<Buf, Kernel>,
    s: &Shape,
    il: u32,
    t: u32,
    clamp: bool,
    shared: bool,
)
    requires
        s.wf_experts(),
        t <= 16,
    ensures
        ({
            let st = old(p).store();
            let end = final(p).store();
            &&& end[Buf::SharedOut] == shared_output(
                *s,
                il,
                t,
                clamp,
                shared,
                st[Buf::Normed],
            )
            &&& forall|b: Buf|
                b != Buf::GateAct && b != Buf::UpAct && b != Buf::FfnMid && b != Buf::SharedOut
                    ==> #[trigger] end[b] == st[b]
        }),
{
    if shared {
        p.op1(
            Kernel::MatmulQ8_0 { w: Weight::ShexpGate(il), n_in: s.n_embd, n_out: s.n_ff_exp, t },
            Buf::GateAct,
            Buf::Normed,
        );
        p.op1(
            Kernel::MatmulQ8_0 { w: Weight::ShexpUp(il), n_in: s.n_embd, n_out: s.n_ff_exp, t },
            Buf::UpAct,
            Buf::Normed,
        );
        let n: u32 = rows(t, s.n_ff_exp);
        p.op2(Kernel::Swiglu { n, clamp }, Buf::FfnMid, Buf::GateAct, Buf::UpAct);
        p.op1(
            Kernel::MatmulQ8_0 { w: Weight::ShexpDown(il), n_in: s.n_ff_exp, n_out: s.n_embd, t },
            Buf::SharedOut,
            Buf::FfnMid,
        );
    } else {
        let n: u32 = rows(t, s.n_embd);
        p.op0(Kernel::Zero { count: n as u64 }, Buf::SharedOut);
    }
}

/// The buffers that the feed-forward part of a layer writes.
pub open spec fn ffn_writes(a: At, b: Buf) -> bool {
    b == Buf::RouterSelected || b == Buf::RouterWeights || b == Buf::GateAct || b == Buf::UpAct || b
        == Buf::FfnMid || b == Buf::SharedOut || b == Buf::Xq || b == Buf::FfnOut || b == Buf::Hc(
        !a.hc,
    ) || moe::experts_write(b)
}

/// What the experts read: the input of the feed-forward part, plain and quantized, and the weights
/// of the router, which come from the host.
pub open spec fn expert_operands(s: Shape, a: At, y: Term<Buf, Kernel>) -> Map<
    Buf,
    Term<Buf, Kernel>,
> {
    map![
        Buf::Normed => y,
        Buf::RouterWeights => moe::host(
            Kernel::WriteWeights { n: shape::times(a.t as int, s.n_expert_used as int) },
            0,
        ),
        Buf::Xq => program::ap1(Kernel::QuantizeQ8k { n: s.n_embd, rows: a.t }, y),
    ]
}

/// Launches the feed-forward part of a layer once the host has chosen the experts. Gives back where
/// the residual streams are.
pub fn feed_forward(
    p: &mut Program<Buf, Kernel>,
    s: &Shape,
    a: &At,
    shared: bool,
    l: &Launch,
    counts: &Vec<u64>,
    groups: &Vec<u32>,
    lane: bool,
) -> (r: At)
    requires
        s.wf_experts(),
        a.t <= 16,
        l.t == a.t,
        counts@.len() == groups@.len() <= u32::MAX,
    ensures
        r == (At { hc: !a.hc, ..*a }),
        ({
            let st = old(p).store();
            let end = final(p).store();
            let y = st[Buf::Normed];
            &&& end[Buf::Hc(r.hc)] == posted(
                *s,
                *a,
                st[Buf::Hc(a.hc)],
                program::ap2(
                    Kernel::Add { n: shape::times(a.t as int, s.n_embd as int) },
                    moe::experts_output(
                        *s,
                        *l,
                        counts@,
                        groups@,
                        lane,
                        expert_operands(*s, *a, y),
                    ),
                    shared_output(*s, a.il, a.t, true, shared, y),
                ),
                st[Buf::Coef(Half::Ffn)],
            )
            &&& forall|b: Buf| !ffn_writes(*a, b) ==> #[trigger] end[b] == st[b]
        }),
{
    let n: u32 = rows(a.t, s.n_expert_used);
    let ne: u32 = rows(a.t, s.n_embd);
    p.op0(Kernel::WriteSelected { n }, Buf::RouterSelected);
    p.op0(Kernel::WriteWeights { n }, Buf::RouterWeights);
    shared_expert(p, s, a.il, a.t, true, shared);
    p.op1(Kernel::QuantizeQ8k { n: s.n_embd, rows: a.t }, Buf::Xq, Buf::Normed);
    dsv4_moe(p, s, l, counts, groups, lane);
    p.op2(Kernel::Add { n: ne }, Buf::FfnOut, Buf::MoeOut, Buf::SharedOut);
    let hc: bool = dsv4_hc_post(p, s, a, Half::Ffn, Buf::FfnOut);
    At { il: a.il, pos0: a.pos0, t: a.t, hc }
}

} // verus!
