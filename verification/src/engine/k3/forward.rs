//! The forward pass: one token after the other, one layer after the other.
use vstd::arithmetic::div_mod::*;
use vstd::prelude::*;

use super::dense;
use super::dense::{attn_res_mix, dense_ffn_forward};
use super::dims::{K3LayerKind, K3Shape};
use super::kda;
use super::kda::kda_layer_forward;
use super::kernels::{Buf, Kernel, Weight};
use super::layer::KimiK3W;
use super::mla;
use super::mla::k3_mla_step;
use super::moe;
use super::moe::moe_route;
use super::runtime;
use crate::engine::program;
use crate::engine::program::{Program, Term};
use crate::text;
use crate::text::{push_decimal, push_signed, push_str};

verus! {

/// One token of a batch: its position, and whether its logits are asked for.
#[derive(Debug, Clone, Copy, PartialEq, Eq, Structural)]
pub struct TokenStep {
    pub token: u32,
    pub pos: u32,
    pub rows: u32,
}

/// The step of token `i` of a batch. Of several tokens only the last gives logits, and one row.
pub open spec fn step_of(tokens: Seq<u32>, i: int, pos0: u32, rows: u32) -> TokenStep {
    TokenStep {
        token: tokens[i],
        pos: (pos0 + i) as u32,
        rows: if tokens.len() == 1 {
            rows
        } else if i == tokens.len() - 1 {
            if rows > 1 {
                1
            } else {
                rows
            }
        } else {
            0
        },
    }
}

/// The steps of a batch, in order.
pub fn forward_steps(tokens: &[u32], pos0: u32, rows: u32) -> (r: Result<
    Vec<TokenStep>,
    &'static str,
>)
    requires
        pos0 + tokens@.len() <= u32::MAX,
    ensures
        match r {
            Ok(v) => tokens@.len() > 0 && v@ == Seq::new(
                tokens@.len(),
                |i: int| step_of(tokens@, i, pos0, rows),
            ),
            Err(e) => tokens@.len() == 0 && e@ == "empty batch"@,
        },
{
    let n: usize = tokens.len();
    if n == 0 {
        return Err("empty batch");
    }
    let ghost all = Seq::new(tokens@.len(), |i: int| step_of(tokens@, i, pos0, rows));
    let mut out: Vec<TokenStep> = Vec::new();
    let mut i: usize = 0;
    while i < n
        invariant
            i <= n,
            n == tokens@.len(),
            n > 0,
            pos0 + n <= u32::MAX,
            all == Seq::new(tokens@.len(), |i: int| step_of(tokens@, i, pos0, rows)),
            out@ == all.take(i as int),
        decreases n - i,
    {
        let k: u32 = if n == 1 {
            rows
        } else if i == n - 1 {
            if rows > 1 {
                1
            } else {
                rows
            }
        } else {
            0
        };
        out.push(TokenStep { token: tokens[i], pos: pos0 + i as u32, rows: k });
        assert(out@ =~= all.take(i + 1));
        i = i + 1;
    }
    assert(all.take(n as int) =~= all);
    Ok(out)
}

/// A buffer that has to lie on the primary device; a negative device means host memory.
pub struct Placement {
    pub name: &'static str,
    pub device: i32,
}

/// The complaint about a buffer on the wrong device.
pub open spec fn device_text(name: Seq<char>, device: i32, primary: i32) -> Seq<char> {
    "K3 device validation failed: "@ + name + " is on CUDA "@ + text::decimal(device as nat)
        + ", expected CUDA "@ + text::signed_text(primary as int)
}

/// The first buffer from `i` on that lies on the wrong device.
pub open spec fn misplaced(p: Seq<Placement>, i: int, primary: i32) -> Option<Seq<char>>
    decreases p.len() - i,
{
    if i >= p.len() {
        None
    } else if p[i].device >= 0 && p[i].device != primary {
        Some(device_text(p[i].name@, p[i].device, primary))
    } else {
        misplaced(p, i + 1, primary)
    }
}

/// Accepts buffers that all lie on the primary device or in host memory.
pub fn check_devices(p: &Vec<Placement>, primary: i32) -> (r: Result<(), String>)
    ensures
        match r {
            Ok(()) => misplaced(p@, 0, primary) is None,
            Err(e) => misplaced(p@, 0, primary) == Some(e@),
        },
{
    let mut i: usize = 0;
    while i < p.len()
        invariant
            i <= p@.len(),
            misplaced(p@, 0, primary) == misplaced(p@, i as int, primary),
        decreases p@.len() - i,
    {
        let d: i32 = p[i].device;
        if d >= 0 && d != primary {
            let mut m = String::new();
            push_str(&mut m, "K3 device validation failed: ");
            push_str(&mut m, p[i].name);
            push_str(&mut m, " is on CUDA ");
            push_decimal(&mut m, d as u64);
            push_str(&mut m, ", expected CUDA ");
            push_signed(&mut m, primary);
            assert(m@ =~= device_text(p@[i as int].name@, d, primary));
            return Err(m);
        }
        i = i + 1;
    }
    Ok(())
}

/// What a step of the forward pass needs.
pub struct Readiness {
    pub devices: u32,
    pub runtime: bool,
    pub output_res_norm: bool,
    pub output_res_proj: bool,
}

/// What is missing for a step.
pub open spec fn unready(r: Readiness) -> Option<Seq<char>> {
    if r.devices == 0 {
        Some("K3 forward requires CUDA"@)
    } else if !r.runtime {
        Some("K3 forward: missing KimiK3Rt"@)
    } else if !r.output_res_norm {
        Some("K3 forward: output_res_norm not loaded (missing from gguf)"@)
    } else if !r.output_res_proj {
        Some("K3 forward: output_res_proj not loaded (missing from gguf)"@)
    } else {
        None
    }
}

/// Accepts a step for which everything is there.
pub fn check_ready(x: &Readiness) -> (r: Result<(), &'static str>)
    ensures
        match r {
            Ok(()) => unready(*x) is None,
            Err(e) => unready(*x) == Some(e@),
        },
{
    if x.devices == 0 {
        Err("K3 forward requires CUDA")
    } else if !x.runtime {
        Err("K3 forward: missing KimiK3Rt")
    } else if !x.output_res_norm {
        Err("K3 forward: output_res_norm not loaded (missing from gguf)")
    } else if !x.output_res_proj {
        Err("K3 forward: output_res_proj not loaded (missing from gguf)")
    } else {
        Ok(())
    }
}

/// Snapshots taken by the layers before layer `il`.
pub open spec fn bank_after(s: K3Shape, il: int) -> int {
    (il + s.block() - 1) / s.block()
}

/// A layer takes a snapshot exactly at the start of a block, and then its number is that of the
/// block.
pub proof fn law_snapshots(s: K3Shape, il: int)
    requires
        0 <= il,
    ensures
        il % s.block() == 0 ==> bank_after(s, il) == il / s.block() && bank_after(s, il + 1) == il
            / s.block() + 1,
        il % s.block() != 0 ==> bank_after(s, il + 1) == bank_after(s, il),
        0 <= bank_after(s, il) <= il,
        bank_after(s, 0) == 0,
        il > 0 ==> bank_after(s, il) >= 1,
{
    let b = s.block();
    let q = il / b;
    let r = il % b;
    lemma_fundamental_div_mod(il, b);
    lemma_mod_bound(il, b);
    assert(b * q == q * b) by (nonlinear_arith);
    assert((q + 1) * b == q * b + b) by (nonlinear_arith);
    if r == 0 {
        lemma_fundamental_div_mod_converse(il + b - 1, b, q, b - 1);
        lemma_fundamental_div_mod_converse(il + 1 + b - 1, b, q + 1, 0);
    } else {
        lemma_fundamental_div_mod_converse(il + b - 1, b, q + 1, r - 1);
        lemma_fundamental_div_mod_converse(il + 1 + b - 1, b, q + 1, r);
    }
    lemma_fundamental_div_mod_converse(b - 1, b, 0, b - 1);
    assert(q <= il) by (nonlinear_arith)
        requires
            il == b * q + r,
            b >= 1,
            r >= 0,
            q >= 0,
    ;
    assert(q >= 0) by {
        lemma_div_pos_is_pos(il, b);
    }
    if r != 0 {
        assert(q + 1 <= il) by (nonlinear_arith)
            requires
                il == b * q + r,
                b >= 1,
                r >= 1,
                q >= 0,
        ;
    }
}

proof fn lemma_bank_grows(s: K3Shape, a: int, b: int)
    requires
        0 <= a <= b,
    ensures
        bank_after(s, a) <= bank_after(s, b),
    decreases b - a,
{
    if a < b {
        law_snapshots(s, b - 1);
        lemma_bank_grows(s, a, b - 1);
    }
}

/// A token on its way through the layers.
pub struct K3Forward {
    /// The layer to enter next.
    pub il: u32,
    /// Snapshots in the bank.
    pub bank_len: u32,
    pub pos: u32,
    pub ctx: u32,
    pub rows: u32,
}

/// How the feed-forward part of a layer goes on.
#[derive(Debug, Clone, Copy, PartialEq, Eq, Structural)]
pub enum Ffn {
    /// It is launched.
    Dense,
    /// The router is launched; the selected experts are to be read back, computed and joined.
    Routed,
}

/// The normalized input of a layer's attention.
pub open spec fn attention_input(
    s: K3Shape,
    il: u32,
    st: Map<Buf, Term<Buf, Kernel>>,
    len: u32,
) -> Term<Buf, Kernel> {
    program::ap1(
        Kernel::RmsNorm { w: Weight::AttnNorm(il), width: s.n_embd, rows: 1 },
        dense::mixed(s, st, len, Weight::AttnResNorm(il), Weight::AttnResProj(il)),
    )
}

/// The output of a layer's attention.
pub open spec fn attention_output(
    s: K3Shape,
    kind: K3LayerKind,
    il: u32,
    st: Map<Buf, Term<Buf, Kernel>>,
    len: u32,
    pos: u32,
    ctx: u32,
) -> Term<Buf, Kernel> {
    let at = st.insert(Buf::StNormed, attention_input(s, il, st, len));
    match kind {
        K3LayerKind::Kda => kda::kda_output(s, il, at),
        K3LayerKind::Mla => mla::mla_output(s.mla_dims(), il, at, pos, ctx),
    }
}

/// The residual stream behind a layer's attention. It starts anew where a snapshot is taken, and
/// else goes on from the stream itself, not from the mixture that fed the attention.
pub open spec fn stream_after(
    s: K3Shape,
    il: u32,
    st: Map<Buf, Term<Buf, Kernel>>,
    out: Term<Buf, Kernel>,
) -> Term<Buf, Kernel> {
    if il as int % s.block() == 0 {
        out
    } else {
        program::ap2(Kernel::Add { n: s.n_embd }, st[Buf::Cur], out)
    }
}

/// The bank behind a layer's attention.
pub open spec fn bank_row(s: K3Shape, il: u32, st: Map<Buf, Term<Buf, Kernel>>, i: u32) -> Term<
    Buf,
    Kernel,
> {
    if il as int % s.block() == 0 && i == il as int / s.block() {
        st[Buf::Cur]
    } else {
        st[Buf::Bank(i)]
    }
}

/// The mixture that feeds a layer's feed-forward part: snapshots, then the stream.
pub open spec fn ffn_rows(
    s: K3Shape,
    il: u32,
    st: Map<Buf, Term<Buf, Kernel>>,
    stream: Term<Buf, Kernel>,
    len: u32,
) -> Seq<Term<Buf, Kernel>> {
    Seq::new(len as nat, |i: int| bank_row(s, il, st, i as u32)).push(stream)
}

/// The normalized input of a layer's feed-forward part.
pub open spec fn ffn_input(
    s: K3Shape,
    il: u32,
    st: Map<Buf, Term<Buf, Kernel>>,
    stream: Term<Buf, Kernel>,
    len: u32,
) -> Term<Buf, Kernel> {
    program::ap1(
        Kernel::RmsNorm { w: Weight::FfnNorm(il), width: s.n_embd, rows: 1 },
        program::ap(
            Kernel::ResMix {
                norm: Weight::FfnResNorm(il),
                proj: Weight::FfnResProj(il),
                rows: (len + 1) as u32,
                n: s.n_embd,
            },
            ffn_rows(s, il, st, stream, len),
        ),
    )
}

/// Why a layer's attention cannot run.
pub open spec fn attention_fault(w: KimiK3W, il: u32, pos: u32, ctx: u32) -> Option<Seq<char>> {
    match w.kind {
        K3LayerKind::Kda => kda::kda_fault(w, il),
        K3LayerKind::Mla => mla::mla_fault(w, pos, ctx),
    }
}

/// The buffers that the attention half of a layer writes.
pub open spec fn attention_writes(b: Buf, il: u32) -> bool {
    ||| kda::kda_writes(b, il)
    ||| mla::mla_writes(b, il)
    ||| b == Buf::StNormed
    ||| b == Buf::MixOut
    ||| b == Buf::Cur
    ||| b == Buf::FfnInput
    ||| b is Bank
}

/// The buffers that a layer writes up to where its experts are computed.
pub open spec fn layer_writes(b: Buf, il: u32) -> bool {
    ||| attention_writes(b, il)
    ||| dense::dense_writes(b)
    ||| moe::route_writes(b)
}

/// What a layer's attention carries over to the next token: the windows and the state of delta
/// attention, or the caches of latent attention. The other kind's stay as they are.
pub open spec fn carries(
    s: K3Shape,
    kind: K3LayerKind,
    il: u32,
    st: Map<Buf, Term<Buf, Kernel>>,
    len: u32,
    pos: u32,
    ctx: u32,
    end: Map<Buf, Term<Buf, Kernel>>,
) -> bool {
    let x = attention_input(s, il, st, len);
    let at = st.insert(Buf::StNormed, x);
    match kind {
        K3LayerKind::Kda => {
            &&& end[Buf::Ssm(il)] == kda::recurrence(s, il, at, 1)
            &&& end[Buf::Conv(il, 0)] == kda::convolved(
                s,
                Weight::SsmQConv(il),
                kda::projected(x, Weight::Wq(il), s.n_embd, s.d_inner()),
                st[Buf::Conv(il, 0)],
                1,
            )
            &&& end[Buf::Conv(il, 1)] == kda::convolved(
                s,
                Weight::SsmKConv(il),
                kda::projected(x, Weight::Wk(il), s.n_embd, s.d_inner()),
                st[Buf::Conv(il, 1)],
                1,
            )
            &&& end[Buf::Conv(il, 2)] == kda::convolved(
                s,
                Weight::SsmVConv(il),
                kda::projected(x, Weight::Wv(il), s.n_embd, s.d_inner()),
                st[Buf::Conv(il, 2)],
                1,
            )
            &&& end[Buf::KCache(il)] == st[Buf::KCache(il)]
            &&& end[Buf::VCache(il)] == st[Buf::VCache(il)]
        },
        K3LayerKind::Mla => {
            &&& end[Buf::KCache(il)] == mla::cached(s.mla_dims(), il, at, pos, ctx, 0)
            &&& end[Buf::VCache(il)] == mla::cached(s.mla_dims(), il, at, pos, ctx, 1)
            &&& end[Buf::Ssm(il)] == st[Buf::Ssm(il)]
            &&& forall|c: u32| #[trigger] end[Buf::Conv(il, c)] == st[Buf::Conv(il, c)]
        },
    }
}

/// From `st` to `end` a token is started: its embedding becomes the residual stream.
pub open spec fn started(
    s: K3Shape,
    token: u32,
    st: Map<Buf, Term<Buf, Kernel>>,
    end: Map<Buf, Term<Buf, Kernel>>,
) -> bool {
    &&& end[Buf::Cur] == program::ap1(
        Kernel::Embed { n_embd: s.n_embd, n_vocab: s.n_vocab },
        program::ap(Kernel::WriteToken(token), Seq::<Term<Buf, Kernel>>::empty()),
    )
    &&& forall|b: Buf| b != Buf::Cur && b != Buf::Tok ==> #[trigger] end[b] == st[b]
}

/// From `st` to `end` a token is ended behind its last layer, with `len` snapshots in the bank.
pub open spec fn finished(
    s: K3Shape,
    len: u32,
    rows: u32,
    st: Map<Buf, Term<Buf, Kernel>>,
    end: Map<Buf, Term<Buf, Kernel>>,
) -> bool {
    let last = dense::mixed(s, st, len, Weight::OutputResNorm, Weight::OutputResProj);
    &&& end[Buf::Cur] == last
    &&& end[Buf::Logits] == if rows > 0 {
        program::ap1(
            Kernel::Head { rows: 1 },
            program::ap1(
                Kernel::RmsNorm { w: Weight::OutputNorm, width: s.n_embd, rows: 1 },
                last,
            ),
        )
    } else {
        st[Buf::Logits]
    }
    &&& forall|b: Buf|
        b != Buf::Cur && b != Buf::MixOut && b != Buf::StNormed && b != Buf::Logits
            ==> #[trigger] end[b] == st[b]
}

/// The buffers where a layer's attention begins: its input is mixed and normalized, and the
/// snapshot is taken where one is due.
pub open spec fn prepared(s: K3Shape, il: u32, st: Map<Buf, Term<Buf, Kernel>>) -> Map<
    Buf,
    Term<Buf, Kernel>,
> {
    let len = bank_after(s, il as int) as u32;
    let mixed = if len == 0 {
        st
    } else {
        st.insert(
            Buf::MixOut,
            dense::mixed(s, st, len, Weight::AttnResNorm(il), Weight::AttnResProj(il)),
        )
    };
    let kept = if il as int % s.block() == 0 {
        mixed.insert(Buf::Bank((il as int / s.block()) as u32), st[Buf::Cur])
    } else {
        mixed
    };
    kept.insert(Buf::StNormed, attention_input(s, il, st, len))
}

/// From `st` to `end` layer `il` was entered and its attention failed: the residual stream is as
/// it was, and what the attention carries over is as the kind of attention leaves it.
pub open spec fn stopped(
    s: K3Shape,
    w: KimiK3W,
    il: u32,
    pos: u32,
    ctx: u32,
    st: Map<Buf, Term<Buf, Kernel>>,
    end: Map<Buf, Term<Buf, Kernel>>,
) -> bool {
    match w.kind {
        K3LayerKind::Kda => kda::kda_keeps(s, w, il, prepared(s, il, st), end),
        K3LayerKind::Mla => mla::mla_keeps(s, w, il, pos, ctx, prepared(s, il, st), end),
    }
}

/// From `st` to `end` layer `il` is entered: its attention is done, and a dense feed-forward part
/// or the router of a routed one.
pub open spec fn entered(
    s: K3Shape,
    w: KimiK3W,
    il: u32,
    pos: u32,
    ctx: u32,
    st: Map<Buf, Term<Buf, Kernel>>,
    end: Map<Buf, Term<Buf, Kernel>>,
) -> bool {
    let len = bank_after(s, il as int) as u32;
    let stream = stream_after(s, il, st, attention_output(s, w.kind, il, st, len, pos, ctx));
    let x = ffn_input(s, il, st, stream, bank_after(s, il + 1) as u32);
    &&& end[Buf::Cur] == stream
    &&& end[Buf::FfnInput] == x
    &&& il < s.n_leading_dense ==> end[Buf::FfnOut] == dense::dense_output(s, il, x)
    &&& il >= s.n_leading_dense ==> {
        &&& end[Buf::ExpertSelected] == moe::routed(s, il, x, 0)
        &&& end[Buf::ExpertWeights] == moe::routed(s, il, x, 1)
        &&& end[Buf::Latent] == mla::times(
            Weight::FfnLatentDown(il),
            x,
            s.n_embd as int,
            s.moe_latent_size as int,
        )
    }
    &&& forall|i: u32| #[trigger] end[Buf::Bank(i)] == bank_row(s, il, st, i)
    &&& carries(s, w.kind, il, st, len, pos, ctx, end)
    &&& forall|b: Buf| !layer_writes(b, il) ==> #[trigger] end[b] == st[b]
}

impl K3Forward {
    pub open spec fn wf(self, s: K3Shape) -> bool {
        &&& s.wf_layers()
        &&& self.il <= s.n_exec_layer
        &&& self.bank_len == bank_after(s, self.il as int)
    }

    /// Starts a token: its embedding becomes the residual stream, and the bank is empty.
    pub fn start(p: &mut Program<Buf, Kernel>, s: &K3Shape, step: &TokenStep, ctx: u32) -> (r: Self)
        requires
            s.wf_layers(),
        ensures
            r.wf(*s),
            r == (K3Forward { il: 0, bank_len: 0, pos: step.pos, ctx, rows: step.rows }),
            started(*s, step.token, old(p).store(), final(p).store()),
            runtime::all_fit(*s, old(p)@) ==> runtime::all_fit(*s, final(p)@),
    {
        p.op0(Kernel::WriteToken(step.token), Buf::Tok);
        p.op1(Kernel::Embed { n_embd: s.n_embd, n_vocab: s.n_vocab }, Buf::Cur, Buf::Tok);
        proof {
            law_snapshots(*s, 0);
        }
        K3Forward { il: 0, bank_len: 0, pos: step.pos, ctx, rows: step.rows }
    }

    /// The attention half of a layer, up to the normalized input of its feed-forward part.
    fn attention(&mut self, p: &mut Program<Buf, Kernel>, s: &K3Shape, w: &KimiK3W) -> (r: Result<
        (),
        String,
    >)
        requires
            old(self).wf(*s),
            old(self).il < s.n_exec_layer,
        ensures
            ({
                let il = old(self).il;
                let pos = old(self).pos;
                let ctx = old(self).ctx;
                &&& r is Ok <==> attention_fault(*w, il, pos, ctx) is None
                &&& r matches Err(e) ==> attention_fault(*w, il, pos, ctx) == Some(e@)
                &&& runtime::roomy(*s) && runtime::all_fit(*s, old(p)@) ==> runtime::all_fit(
                    *s,
                    final(p)@,
                )
                &&& final(self).il == il
                &&& final(self).pos == pos
                &&& final(self).ctx == ctx
                &&& final(self).rows == old(self).rows
                &&& final(self).bank_len == bank_after(*s, il + 1)
                &&& r is Ok ==> {
                    let st = old(p).store();
                    let end = final(p).store();
                    let out = attention_output(
                        *s,
                        w.kind,
                        il,
                        st,
                        old(self).bank_len,
                        pos,
                        ctx,
                    );
                    let stream = stream_after(*s, il, st, out);
                    &&& end[Buf::Cur] == stream
                    &&& end[Buf::FfnInput] == ffn_input(*s, il, st, stream, final(self).bank_len)
                    &&& forall|i: u32| #[trigger]
                        end[Buf::Bank(i)] == bank_row(*s, il, st, i)
                    &&& carries(*s, w.kind, il, st, old(self).bank_len, pos, ctx, end)
                }
                &&& r is Err ==> stopped(*s, *w, il, pos, ctx, old(p).store(), final(p).store())
                &&& forall|b: Buf|
                    !attention_writes(b, il) ==> #[trigger] final(p).store()[b] == old(p).store()[b]
            }),
    {
        let il: u32 = self.il;
        let len: u32 = self.bank_len;
        let ghost st = p.store();
        let block: u32 = if s.attn_res_block_size > 1 {
            s.attn_res_block_size
        } else {
            1
        };
        proof {
            law_snapshots(*s, il as int);
            law_snapshots(*s, il + 1);
            lemma_bank_grows(*s, il as int, s.n_exec_layer as int);
            lemma_bank_grows(*s, il + 1, s.n_exec_layer as int);
            assert(s.n_embd * 1u32 == s.n_embd) by (nonlinear_arith);
        }
        let snapshot: bool = il % block == 0;
        let fed: Buf = if len > 0 {
            attn_res_mix(p, s, len, Weight::AttnResNorm(il), Weight::AttnResProj(il));
            Buf::MixOut
        } else {
            Buf::Cur
        };
        if snapshot {
            let row: u32 = il / block;
            p.copy(Kernel::Copy { n: s.n_embd }, Buf::Bank(row), Buf::Cur);
            self.bank_len = row + 1;
        }
        p.op1(
            Kernel::RmsNorm { w: Weight::AttnNorm(il), width: s.n_embd, rows: 1 },
            Buf::StNormed,
            fed,
        );
        let ghost at = p.store();
        assert(at[Buf::StNormed] == attention_input(*s, il, st, len));
        assert(at =~= prepared(*s, il, st));
        match w.kind {
            K3LayerKind::Kda => match kda_layer_forward(p, s, w, il) {
                Ok(()) => {},
                Err(e) => {
                    return Err(e);
                },
            },
            K3LayerKind::Mla => match k3_mla_step(p, s, w, il, self.pos, self.ctx) {
                Ok(()) => {},
                Err(e) => {
                    return Err(e);
                },
            },
        }
        let ghost mid = p.store();
        assert(mid[Buf::AttnOut] == attention_output(
            *s,
            w.kind,
            il,
            st,
            len,
            self.pos,
            self.ctx,
        ));
        assert(mid[Buf::Cur] == st[Buf::Cur]);
        if snapshot {
            p.copy(Kernel::Copy { n: s.n_embd }, Buf::Cur, Buf::AttnOut);
        } else {
            p.op2(Kernel::Add { n: s.n_embd }, Buf::Cur, Buf::Cur, Buf::AttnOut);
        }
        let ghost third = p.store();
        attn_res_mix(
            p,
            s,
            self.bank_len,
            Weight::FfnResNorm(il),
            Weight::FfnResProj(il),
        );
        proof {
            let stream = third[Buf::Cur];
            assert(program::contents(third, dense::residual_rows(self.bank_len)) =~= ffn_rows(
                *s,
                il,
                st,
                stream,
                self.bank_len,
            ));
        }
        p.op1(
            Kernel::RmsNorm { w: Weight::FfnNorm(il), width: s.n_embd, rows: 1 },
            Buf::Normed,
            Buf::MixOut,
        );
        p.copy(Kernel::Copy { n: s.n_embd }, Buf::FfnInput, Buf::Normed);
        Ok(())
    }

    /// Enters the next layer. A dense feed-forward part is launched with it; of a routed one the
    /// router is.
    pub fn enter_layer(
        &mut self,
        p: &mut Program<Buf, Kernel>,
        s: &K3Shape,
        layers: &Vec<Option<KimiK3W>>,
    ) -> (r: Result<Ffn, String>)
        requires
            old(self).wf(*s),
            old(self).il < s.n_exec_layer,
            old(self).il < layers@.len(),
        ensures
            ({
                let il = old(self).il;
                let pos = old(self).pos;
                let ctx = old(self).ctx;
                let is_dense = il < s.n_leading_dense;
                &&& runtime::roomy(*s) && runtime::all_fit(*s, old(p)@) ==> runtime::all_fit(
                    *s,
                    final(p)@,
                )
                &&& match layers@[il as int] {
                    None => r matches Err(e) && e@ == foreign_text(il) && *final(p) == *old(p)
                        && *final(self) == *old(self),
                    Some(w) => {
                        &&& attention_fault(w, il, pos, ctx) is Some ==> stopped(
                            *s,
                            w,
                            il,
                            pos,
                            ctx,
                            old(p).store(),
                            final(p).store(),
                        )
                        &&& r is Err && attention_fault(w, il, pos, ctx) is None ==> carries(
                            *s,
                            w.kind,
                            il,
                            old(p).store(),
                            old(self).bank_len,
                            pos,
                            ctx,
                            final(p).store(),
                        )
                        &&& forall|b: Buf|
                            !layer_writes(b, il) ==> #[trigger] final(p).store()[b]
                                == old(p).store()[b]
                        &&& r matches Err(e) ==> Some(e@) == layer_fault(*s, w, il, pos, ctx)
                        &&& r is Ok <==> layer_fault(*s, w, il, pos, ctx) is None
                        &&& r matches Ok(f) ==> {
                            &&& f == if is_dense {
                                Ffn::Dense
                            } else {
                                Ffn::Routed
                            }
                            &&& *final(self) == (K3Forward {
                                bank_len: bank_after(*s, il + 1) as u32,
                                ..*old(self)
                            })
                            &&& entered(*s, w, il, pos, ctx, old(p).store(), final(p).store())
                        }
                    },
                }
            }),
    {
        let il: u32 = self.il;
        let w: KimiK3W = match &layers[il as usize] {
            None => {
                let mut m = String::new();
                push_str(&mut m, "K3 layer ");
                push_decimal(&mut m, il as u64);
                push_str(&mut m, ": expected KimiK3 weights");
                assert(m@ =~= foreign_text(il));
                return Err(m);
            },
            Some(w) => *w,
        };
        match self.attention(p, s, &w) {
            Ok(()) => {},
            Err(e) => {
                return Err(e);
            },
        }
        if il < s.n_leading_dense {
            match dense_ffn_forward(p, s, &w, il) {
                Ok(()) => Ok(Ffn::Dense),
                Err(e) => Err(e),
            }
        } else {
            match moe_route(p, s, &w, il) {
                Ok(()) => Ok(Ffn::Routed),
                Err(e) => Err(e),
            }
        }
    }

    /// Leaves a layer: what its feed-forward part gave joins the residual stream.
    pub fn leave_layer(&mut self, p: &mut Program<Buf, Kernel>, s: &K3Shape)
        requires
            s.wf_layers(),
            old(self).il < s.n_exec_layer,
            old(self).bank_len == bank_after(*s, old(self).il + 1),
        ensures
            final(self).wf(*s),
            *final(self) == (K3Forward { il: (old(self).il + 1) as u32, ..*old(self) }),
            final(p).store() == old(p).store().insert(
                Buf::Cur,
                program::ap2(
                    Kernel::Add { n: s.n_embd },
                    old(p).store()[Buf::Cur],
                    old(p).store()[Buf::FfnOut],
                ),
            ),
            runtime::all_fit(*s, old(p)@) ==> runtime::all_fit(*s, final(p)@),
    {
        p.op2(Kernel::Add { n: s.n_embd }, Buf::Cur, Buf::Cur, Buf::FfnOut);
        self.il = self.il + 1;
    }

    /// Ends a token behind its last layer: the final mixture becomes the residual stream and, where
    /// logits are asked for, goes through the output norm and the head. Returns the rows of logits.
    pub fn finish(&self, p: &mut Program<Buf, Kernel>, s: &K3Shape) -> (r: Option<u32>)
        requires
            self.wf(*s),
            self.il == s.n_exec_layer,
        ensures
            r == if self.rows == 0 {
                None
            } else {
                Some(1u32)
            },
            finished(*s, self.bank_len, self.rows, old(p).store(), final(p).store()),
            runtime::roomy(*s) && runtime::all_fit(*s, old(p)@) ==> runtime::all_fit(*s, final(p)@),
    {
        proof {
            law_snapshots(*s, self.il as int);
        }
        if self.bank_len > 0 {
            attn_res_mix(p, s, self.bank_len, Weight::OutputResNorm, Weight::OutputResProj);
            p.copy(Kernel::Copy { n: s.n_embd }, Buf::Cur, Buf::MixOut);
        }
        if self.rows == 0 {
            return None;
        }
        p.op1(
            Kernel::RmsNorm { w: Weight::OutputNorm, width: s.n_embd, rows: 1 },
            Buf::StNormed,
            Buf::Cur,
        );
        p.op1(Kernel::Head { rows: 1 }, Buf::Logits, Buf::StNormed);
        Some(1)
    }
}

/// The complaint about a layer of another model.
pub open spec fn foreign_text(il: u32) -> Seq<char> {
    "K3 layer "@ + text::decimal(il as nat) + ": expected KimiK3 weights"@
}

/// Why a layer cannot be entered: its attention cannot run, or its feed-forward part.
pub open spec fn layer_fault(s: K3Shape, w: KimiK3W, il: u32, pos: u32, ctx: u32) -> Option<
    Seq<char>,
> {
    if attention_fault(w, il, pos, ctx) is Some {
        attention_fault(w, il, pos, ctx)
    } else if il < s.n_leading_dense {
        dense::dense_fault(w)
    } else {
        moe::moe_fault(w)
    }
}

} // verus!
