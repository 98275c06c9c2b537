//! Gated latent attention of one layer for one token.
use vstd::prelude::*;

use super::dims::{K3MlaDims, K3Shape};
use super::kda::matmul;
use super::kernels::{Buf, Kernel, Weight};
use super::layer::KimiK3W;
use super::runtime;
use crate::engine::program;
use crate::engine::program::{Program, Term};
use crate::text;
use crate::text::{owned, push_decimal, push_str};

verus! {

/// The first weight that a layer of latent attention lacks.
pub open spec fn mla_lacks(w: KimiK3W) -> Option<Seq<char>> {
    if w.mla_wq_a is None {
        Some("MLA layer missing mla_wq_a"@)
    } else if w.mla_wq_b is None {
        Some("MLA layer missing mla_wq_b"@)
    } else if !w.mla_q_a_norm {
        Some("MLA layer missing mla_q_a_norm"@)
    } else if w.mla_wkv_a_mqa is None {
        Some("MLA layer missing mla_wkv_a_mqa"@)
    } else if !w.mla_kv_a_norm {
        Some("MLA layer missing mla_kv_a_norm"@)
    } else if w.mla_wqkv_gate is None {
        Some("MLA layer missing mla_wqkv_gate"@)
    } else if w.mla_wo is None {
        Some("MLA layer missing mla_wo"@)
    } else {
        None
    }
}

/// The complaint about a position outside the context.
pub open spec fn beyond_text(pos: u32, ctx: u32) -> Seq<char> {
    "K3 MLA position "@ + text::decimal(pos as nat) + " exceeds context "@ + text::decimal(
        ctx as nat,
    )
}

/// Why the step of a layer of latent attention cannot run: a weight is missing, the position lies
/// outside the context, or the weights of the attention are not the split pair.
pub open spec fn mla_fault(w: KimiK3W, pos: u32, ctx: u32) -> Option<Seq<char>> {
    if mla_lacks(w) is Some {
        mla_lacks(w)
    } else if pos >= ctx {
        Some(beyond_text(pos, ctx))
    } else if w.mla_wk_b && w.mla_wv_b {
        None
    } else if w.mla_wkv_b is Some {
        Some("K3 MLA fused KV weights need a cache-aware implementation"@)
    } else if !w.mla_wk_b && !w.mla_wv_b {
        Some("K3 MLA: neither split (wk_b/wv_b) nor fused (wkv_b) path available"@)
    } else {
        Some(
            "K3 MLA: incomplete weight set — need both wk_b and wv_b for split path, or wkv_b for fused path"@,
        )
    }
}

/// A product on an activation in single precision.
pub open spec fn times(w: Weight, x: Term<Buf, Kernel>, n_in: int, n_out: int) -> Term<Buf, Kernel> {
    program::ap1(Kernel::Matmul { w, n_in: n_in as u32, n_out: n_out as u32 }, x)
}

/// The queries of all heads.
pub open spec fn queries(d: K3MlaDims, il: u32, x: Term<Buf, Kernel>) -> Term<Buf, Kernel> {
    times(
        Weight::MlaWqB(il),
        program::ap1(
            Kernel::RmsNorm { w: Weight::MlaQANorm(il), width: d.q_lora_rank, rows: 1 },
            times(Weight::MlaWqA(il), x, d.n_embd as int, d.q_lora_rank as int),
        ),
        d.q_lora_rank as int,
        d.n_head * (d.qk_nope + d.qk_rope),
    )
}

/// Compressed keys and values with the shared tail.
pub open spec fn compressed(d: K3MlaDims, il: u32, x: Term<Buf, Kernel>) -> Term<Buf, Kernel> {
    times(Weight::MlaWkvAMqa(il), x, d.n_embd as int, d.kv_lora_rank + d.qk_rope)
}

/// The normalized latent of a token.
pub open spec fn latent(d: K3MlaDims, il: u32, x: Term<Buf, Kernel>) -> Term<Buf, Kernel> {
    program::ap1(
        Kernel::RmsNorm { w: Weight::MlaKvANorm(il), width: d.kv_lora_rank, rows: 1 },
        program::ap1(Kernel::Slice { from: 0, n: d.kv_lora_rank }, compressed(d, il, x)),
    )
}

/// The caches with the token's row: part 0 holds the latents, part 1 the tails.
pub open spec fn cached(
    d: K3MlaDims,
    il: u32,
    st: Map<Buf, Term<Buf, Kernel>>,
    pos: u32,
    ctx: u32,
    part: nat,
) -> Term<Buf, Kernel> {
    let x = st[Buf::StNormed];
    Term::App {
        f: Kernel::MlaStore {
            pos,
            ctx,
            stride: (d.kv_lora_rank + d.qk_rope) as u32,
            rank: d.kv_lora_rank,
            tail: d.qk_rope,
        },
        part,
        args: seq![
            st[Buf::KCache(il)],
            st[Buf::VCache(il)],
            latent(d, il, x),
            compressed(d, il, x),
        ],
    }
}

/// Attention of the token over the caches that hold its own row.
pub open spec fn attended(
    d: K3MlaDims,
    il: u32,
    st: Map<Buf, Term<Buf, Kernel>>,
    pos: u32,
    ctx: u32,
    part: nat,
) -> Term<Buf, Kernel> {
    Term::App {
        f: Kernel::MlaAttention {
            wk: Weight::MlaWkB(il),
            wv: Weight::MlaWvB(il),
            n_kv: (pos + 1) as u32,
            ctx,
            n_head: d.n_head,
            qk_nope: d.qk_nope,
            qk_rope: d.qk_rope,
            rank: d.kv_lora_rank,
            v: d.v_mla,
        },
        part,
        args: seq![
            queries(d, il, st[Buf::StNormed]),
            cached(d, il, st, pos, ctx, 0),
            cached(d, il, st, pos, ctx, 1),
        ],
    }
}

/// The output of the latent attention: the attention, gated by a sigmoid and projected.
pub open spec fn mla_output(
    d: K3MlaDims,
    il: u32,
    st: Map<Buf, Term<Buf, Kernel>>,
    pos: u32,
    ctx: u32,
) -> Term<Buf, Kernel> {
    let n = (d.n_head * d.v_mla) as u32;
    let g = program::ap1(
        Kernel::Sigmoid { n },
        times(Weight::MlaWqkvGate(il), st[Buf::StNormed], d.n_embd as int, n as int),
    );
    times(
        Weight::MlaWo(il),
        program::ap2(Kernel::Mul { n }, attended(d, il, st, pos, ctx, 0), g),
        n as int,
        d.n_embd as int,
    )
}

/// The buffers that the latent attention of a layer writes.
pub open spec fn mla_writes(b: Buf, il: u32) -> bool {
    ||| b == Buf::Normed
    ||| b == Buf::AttnOut
    ||| b == Buf::FfnOut
    ||| b == Buf::Latent
    ||| b == Buf::MoeOut
    ||| b == Buf::ShexpOut
    ||| b == Buf::RouterLogits
    ||| b == Buf::MixOut
    ||| b == Buf::Q8k
    ||| b == Buf::QkLow
    ||| b == Buf::KCache(il)
    ||| b == Buf::VCache(il)
}

/// The first weight that a layer of latent attention lacks.
fn mla_missing(w: &KimiK3W) -> (r: Option<&'static str>)
    ensures
        match r {
            Some(m) => mla_lacks(*w) == Some(m@),
            None => mla_lacks(*w) is None,
        },
{
    if w.mla_wq_a.is_none() {
        Some("MLA layer missing mla_wq_a")
    } else if w.mla_wq_b.is_none() {
        Some("MLA layer missing mla_wq_b")
    } else if !w.mla_q_a_norm {
        Some("MLA layer missing mla_q_a_norm")
    } else if w.mla_wkv_a_mqa.is_none() {
        Some("MLA layer missing mla_wkv_a_mqa")
    } else if !w.mla_kv_a_norm {
        Some("MLA layer missing mla_kv_a_norm")
    } else if w.mla_wqkv_gate.is_none() {
        Some("MLA layer missing mla_wqkv_gate")
    } else if w.mla_wo.is_none() {
        Some("MLA layer missing mla_wo")
    } else {
        None
    }
}

/// What the latent attention of a layer leaves from `st` to `end`, whether it fails or not. The
/// token's row stands in both caches once its position was found within the context, also where
/// the weights to attend with are missing.
pub open spec fn mla_keeps(
    s: K3Shape,
    w: KimiK3W,
    il: u32,
    pos: u32,
    ctx: u32,
    st: Map<Buf, Term<Buf, Kernel>>,
    end: Map<Buf, Term<Buf, Kernel>>,
) -> bool {
    let stored = mla_lacks(w) is None && pos < ctx;
    let d = s.mla_dims();
    &&& end[Buf::KCache(il)] == if stored {
        cached(d, il, st, pos, ctx, 0)
    } else {
        st[Buf::KCache(il)]
    }
    &&& end[Buf::VCache(il)] == if stored {
        cached(d, il, st, pos, ctx, 1)
    } else {
        st[Buf::VCache(il)]
    }
    &&& forall|b: Buf| !mla_writes(b, il) ==> #[trigger] end[b] == st[b]
}

/// Projections of the token, up to the normalized latent.
fn compress(p: &mut Program<Buf, Kernel>, s: &K3Shape, d: &K3MlaDims, il: u32)
    requires
        d.wf(),
        *d == s.mla_dims(),
    ensures
        runtime::roomy(*s) && runtime::all_fit(*s, old(p)@) ==> runtime::all_fit(*s, final(p)@),
        ({
            let st = old(p).store();
            let x = st[Buf::StNormed];
            let end = final(p).store();
            &&& end[Buf::AttnOut] == queries(*d, il, x)
            &&& end[Buf::FfnOut] == compressed(*d, il, x)
            &&& end[Buf::Latent] == latent(*d, il, x)
            &&& forall|b: Buf| !mla_writes(b, il) ==> #[trigger] end[b] == st[b]
            &&& end[Buf::KCache(il)] == st[Buf::KCache(il)]
            &&& end[Buf::VCache(il)] == st[Buf::VCache(il)]
        }),
{
    let n: u32 = d.n_embd;
    proof {
        let m = super::dims::most(s.qk(), s.value_mla as int);
        assert(s.n_head * s.qk() <= s.n_head * m) by (nonlinear_arith)
            requires
                s.qk() <= m,
                0 <= s.n_head,
        ;
        assert(d.q_lora_rank * 1u32 == d.q_lora_rank) by (nonlinear_arith);
        assert(d.kv_lora_rank * 1u32 == d.kv_lora_rank) by (nonlinear_arith);
    }
    matmul(p, Weight::MlaWqA(il), Buf::Normed, Buf::StNormed, n, d.q_lora_rank);
    p.op1(
        Kernel::RmsNorm { w: Weight::MlaQANorm(il), width: d.q_lora_rank, rows: 1 },
        Buf::Normed,
        Buf::Normed,
    );
    matmul(p, Weight::MlaWqB(il), Buf::AttnOut, Buf::Normed, d.q_lora_rank, d.q_b_out());
    matmul(p, Weight::MlaWkvAMqa(il), Buf::FfnOut, Buf::StNormed, n, d.kv_a_out());
    p.op1(Kernel::Slice { from: 0, n: d.kv_lora_rank }, Buf::Latent, Buf::FfnOut);
    p.op1(Kernel::Slice { from: d.kv_lora_rank, n: d.qk_rope }, Buf::MoeOut, Buf::FfnOut);
    p.op1(
        Kernel::RmsNorm { w: Weight::MlaKvANorm(il), width: d.kv_lora_rank, rows: 1 },
        Buf::Latent,
        Buf::Latent,
    );
}

/// Stores the token's row in both caches.
fn store(p: &mut Program<Buf, Kernel>, s: &K3Shape, d: &K3MlaDims, il: u32, pos: u32, ctx: u32)
    requires
        d.wf(),
        *d == s.mla_dims(),
        pos < ctx,
    ensures
        runtime::roomy(*s) && runtime::all_fit(*s, old(p)@) ==> runtime::all_fit(*s, final(p)@),
        ({
            let st = old(p).store();
            let f = Kernel::MlaStore {
                pos,
                ctx,
                stride: (d.kv_lora_rank + d.qk_rope) as u32,
                rank: d.kv_lora_rank,
                tail: d.qk_rope,
            };
            let rows = seq![
                st[Buf::KCache(il)],
                st[Buf::VCache(il)],
                st[Buf::Latent],
                st[Buf::FfnOut],
            ];
            final(p).store() == st.insert(
                Buf::KCache(il),
                Term::App { f, part: 0, args: rows },
            ).insert(Buf::VCache(il), Term::App { f, part: 1, args: rows })
        }),
{
    let ghost st = p.store();
    let mut rows: Vec<Buf> = Vec::new();
    rows.push(Buf::KCache(il));
    rows.push(Buf::VCache(il));
    rows.push(Buf::Latent);
    rows.push(Buf::FfnOut);
    assert(rows@ =~= seq![Buf::KCache(il), Buf::VCache(il), Buf::Latent, Buf::FfnOut]);
    assert(program::contents(st, rows@) =~= seq![
        st[Buf::KCache(il)],
        st[Buf::VCache(il)],
        st[Buf::Latent],
        st[Buf::FfnOut],
    ]);
    p.op_pair(
        Kernel::MlaStore {
            pos,
            ctx,
            stride: d.kv_a_out(),
            rank: d.kv_lora_rank,
            tail: d.qk_rope,
        },
        Buf::KCache(il),
        Buf::VCache(il),
        rows,
    );
}

/// Attends over the caches.
fn attend(p: &mut Program<Buf, Kernel>, s: &K3Shape, d: &K3MlaDims, il: u32, pos: u32, ctx: u32)
    requires
        d.wf(),
        *d == s.mla_dims(),
        pos < ctx,
    ensures
        runtime::roomy(*s) && runtime::all_fit(*s, old(p)@) ==> runtime::all_fit(*s, final(p)@),
        ({
            let st = old(p).store();
            let f = Kernel::MlaAttention {
                wk: Weight::MlaWkB(il),
                wv: Weight::MlaWvB(il),
                n_kv: (pos + 1) as u32,
                ctx,
                n_head: d.n_head,
                qk_nope: d.qk_nope,
                qk_rope: d.qk_rope,
                rank: d.kv_lora_rank,
                v: d.v_mla,
            };
            let a = seq![st[Buf::AttnOut], st[Buf::KCache(il)], st[Buf::VCache(il)]];
            final(p).store() == st.insert(
                Buf::ShexpOut,
                Term::App { f, part: 0, args: a },
            ).insert(Buf::QkLow, Term::App { f, part: 1, args: a })
        }),
{
    let ghost st = p.store();
    proof {
        let m = super::dims::most(s.qk(), s.value_mla as int);
        assert(s.n_head * s.qk() <= s.n_head * m) by (nonlinear_arith)
            requires
                s.qk() <= m,
                0 <= s.n_head,
        ;
    }
    let mut a: Vec<Buf> = Vec::new();
    a.push(Buf::AttnOut);
    a.push(Buf::KCache(il));
    a.push(Buf::VCache(il));
    assert(a@ =~= seq![Buf::AttnOut, Buf::KCache(il), Buf::VCache(il)]);
    assert(program::contents(st, a@) =~= seq![
        st[Buf::AttnOut],
        st[Buf::KCache(il)],
        st[Buf::VCache(il)],
    ]);
    p.op_pair(
        Kernel::MlaAttention {
            wk: Weight::MlaWkB(il),
            wv: Weight::MlaWvB(il),
            n_kv: pos + 1,
            ctx,
            n_head: d.n_head,
            qk_nope: d.qk_nope,
            qk_rope: d.qk_rope,
            rank: d.kv_lora_rank,
            v: d.v_mla,
        },
        Buf::ShexpOut,
        Buf::QkLow,
        a,
    );
}

/// Latent attention of layer `il` on the normalized input of the token at `pos`.
pub fn k3_mla_step(
    p: &mut Program<Buf, Kernel>,
    s: &K3Shape,
    w: &KimiK3W,
    il: u32,
    pos: u32,
    ctx: u32,
) -> (r: Result<(), String>)
    requires
        s.wf_latent(),
    ensures
        r is Ok <==> mla_fault(*w, pos, ctx) is None,
        r matches Err(e) ==> mla_fault(*w, pos, ctx) == Some(e@),
        runtime::roomy(*s) && runtime::all_fit(*s, old(p)@) ==> runtime::all_fit(*s, final(p)@),
        r is Ok ==> final(p).store()[Buf::AttnOut] == mla_output(
            s.mla_dims(),
            il,
            old(p).store(),
            pos,
            ctx,
        ),
        mla_keeps(*s, *w, il, pos, ctx, old(p).store(), final(p).store()),
        mla_lacks(*w) is Some ==> *final(p) == *old(p),
{
    match mla_missing(w) {
        Some(m) => {
            return Err(owned(m));
        },
        None => {},
    }
    let d = s.mla();
    compress(p, s, &d, il);
    if pos >= ctx {
        let mut m = String::new();
        push_str(&mut m, "K3 MLA position ");
        push_decimal(&mut m, pos as u64);
        push_str(&mut m, " exceeds context ");
        push_decimal(&mut m, ctx as u64);
        assert(m@ =~= beyond_text(pos, ctx));
        return Err(m);
    }
    store(p, s, &d, il, pos, ctx);
    if !(w.mla_wk_b && w.mla_wv_b) {
        return Err(
            if w.mla_wkv_b.is_some() {
                owned("K3 MLA fused KV weights need a cache-aware implementation")
            } else if !w.mla_wk_b && !w.mla_wv_b {
                owned("K3 MLA: neither split (wk_b/wv_b) nor fused (wkv_b) path available")
            } else {
                owned(
                    "K3 MLA: incomplete weight set — need both wk_b and wv_b for split path, or wkv_b for fused path",
                )
            },
        );
    }
    attend(p, s, &d, il, pos, ctx);
    let n: u32 = d.gate_out();
    matmul(p, Weight::MlaWqkvGate(il), Buf::RouterLogits, Buf::StNormed, d.n_embd, n);
    p.op1(Kernel::Sigmoid { n }, Buf::RouterLogits, Buf::RouterLogits);
    p.copy(Kernel::Copy { n }, Buf::MixOut, Buf::ShexpOut);
    p.op2(Kernel::Mul { n }, Buf::MixOut, Buf::MixOut, Buf::RouterLogits);
    matmul(p, Weight::MlaWo(il), Buf::AttnOut, Buf::MixOut, n, d.n_embd);
    Ok(())
}

} // verus!
