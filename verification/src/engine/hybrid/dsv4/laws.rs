//! What the layers with compressed attention compute, operand by operand.
use vstd::prelude::*;

use super::forward;
use super::forward::Step;
use super::layer;
use super::layer::{At, Dsv4W};
use crate::engine::hybrid::kernels::{Buf, Half, Kernel, Weight};
use crate::engine::hybrid::laws::{given, on, on2, on3, takes, Store};
use crate::engine::hybrid::shape::Shape;
use crate::engine::program::Term;

verus! {

/// The rotation of the tails of heads to the positions of a chunk.
pub open spec fn rotation(s: Shape, a: At, ratio: u32, heads: u32, inverse: bool) -> Kernel {
    Kernel::RopeTail {
        ratio,
        heads,
        head_dim: s.head_dim,
        rot: s.rot_dim,
        pos: a.pos0,
        t: a.t,
        inverse,
    }
}

/// The same chunk, `d` positions later.
pub open spec fn later(a: At, d: u32) -> At {
    At { pos0: (a.pos0 + d) as u32, ..a }
}

/// A turned key as it is kept, rounded to eight and then to sixteen bits.
pub open spec fn rounded_key(s: Shape, a: At, k: Term<Buf, Kernel>) -> Term<Buf, Kernel> {
    on(
        Kernel::F16Round { n: (a.t * s.head_dim) as u32 },
        on(Kernel::Fp8Sim { head_dim: s.head_dim, rot: s.rot_dim, t: a.t }, k),
    )
}

/// Queries and keys are turned alike: the same rotation, from the same position on, by the same
/// ratio and over the same tail, over all heads of the queries and the one head of the keys. The
/// queries are normalized per head before, the keys by their weight; the keys are rounded to eight
/// and to sixteen bits after. So a score rests on two positions through their difference only.
pub proof fn law_turned_alike(s: Shape, a: At, ratio: u32, y: Term<Buf, Kernel>)
    ensures
        ({
            let q = on(
                Kernel::HeadNorm {
                    norm: None,
                    heads: (a.t * s.n_head) as u32,
                    width: s.head_dim,
                },
                on(
                    Kernel::MatmulQ8_0 {
                        w: Weight::QB(a.il),
                        n_in: s.n_lora_q,
                        n_out: (s.n_head * s.head_dim) as u32,
                        t: a.t,
                    },
                    layer::low_queries(s, a, y),
                ),
            );
            let k = on(
                Kernel::RmsNorm { w: Weight::KvANorm(a.il), width: s.head_dim, rows: a.t },
                on(
                    Kernel::MatmulQ8_0 {
                        w: Weight::Kv(a.il),
                        n_in: s.n_embd,
                        n_out: s.head_dim,
                        t: a.t,
                    },
                    y,
                ),
            );
            &&& layer::queries(s, a, ratio, y) == on(rotation(s, a, ratio, s.n_head, false), q)
            &&& layer::keys(s, a, ratio, y) == on(
                Kernel::F16Round { n: (a.t * s.head_dim) as u32 },
                on(
                    Kernel::Fp8Sim { head_dim: s.head_dim, rot: s.rot_dim, t: a.t },
                    on(rotation(s, a, ratio, 1, false), k),
                ),
            )
        }),
{
}

/// A score rests on two positions through their difference only: whatever way of scoring does not
/// change when both rotations, that of a query and that of a key under its rounding, begin later by
/// the same amount, scores the queries of one chunk and the keys of another alike when both chunks
/// lie later by that amount.
pub proof fn law_scores_by_distance(
    s: Shape,
    a: At,
    b: At,
    ratio: u32,
    d: u32,
    x: Term<Buf, Kernel>,
    y: Term<Buf, Kernel>,
    score: spec_fn(Term<Buf, Kernel>, Term<Buf, Kernel>) -> int,
)
    requires
        a.pos0 + d <= u32::MAX,
        b.pos0 + d <= u32::MAX,
        forall|q: Term<Buf, Kernel>, k: Term<Buf, Kernel>|
            #![trigger on(rotation(s, a, ratio, s.n_head, false), q), on(
                rotation(s, b, ratio, 1, false),
                k,
            )]
            score(
                on(rotation(s, a, ratio, s.n_head, false), q),
                rounded_key(s, b, on(rotation(s, b, ratio, 1, false), k)),
            ) == score(
                on(rotation(s, later(a, d), ratio, s.n_head, false), q),
                rounded_key(s, b, on(rotation(s, later(b, d), ratio, 1, false), k)),
            ),
    ensures
        score(layer::queries(s, a, ratio, x), layer::keys(s, b, ratio, y)) == score(
            layer::queries(s, later(a, d), ratio, x),
            layer::keys(s, later(b, d), ratio, y),
        ),
{
    law_turned_alike(s, a, ratio, x);
    law_turned_alike(s, b, ratio, y);
    law_turned_alike(s, later(a, d), ratio, x);
    law_turned_alike(s, later(b, d), ratio, y);
    let q = on(
        Kernel::HeadNorm { norm: None, heads: (a.t * s.n_head) as u32, width: s.head_dim },
        on(
            Kernel::MatmulQ8_0 {
                w: Weight::QB(a.il),
                n_in: s.n_lora_q,
                n_out: (s.n_head * s.head_dim) as u32,
                t: a.t,
            },
            layer::low_queries(s, a, x),
        ),
    );
    let k = on(
        Kernel::RmsNorm { w: Weight::KvANorm(b.il), width: s.head_dim, rows: b.t },
        on(
            Kernel::MatmulQ8_0 {
                w: Weight::Kv(b.il),
                n_in: s.n_embd,
                n_out: s.head_dim,
                t: b.t,
            },
            y,
        ),
    );
    assert(layer::queries(s, a, ratio, x) == on(rotation(s, a, ratio, s.n_head, false), q));
    assert(layer::keys(s, b, ratio, y) == rounded_key(
        s,
        b,
        on(rotation(s, b, ratio, 1, false), k),
    ));
}

/// What comes out of the attention is turned back by the rotation of the queries before it is
/// projected: by groups to a fixed rank, and from there to the residual width.
pub proof fn law_turned_back(s: Shape, ratio: u32, a: At, heads: Term<Buf, Kernel>)
    requires
        s.n_out_group > 0,
    ensures
        layer::attention_output(s, ratio, a, heads) == on(
            Kernel::MatmulQ8_0 {
                w: Weight::AttnOutput(a.il),
                n_in: (s.n_out_group * 1024) as u32,
                n_out: s.n_embd,
                t: a.t,
            },
            on(
                Kernel::MatmulBanked {
                    w: Weight::OutA(a.il),
                    n_in: ((s.n_head * s.head_dim) / s.n_out_group as int) as u32,
                    n_out: 1024,
                    n_group: s.n_out_group,
                    t: a.t,
                },
                on(rotation(s, a, ratio, s.n_head, true), heads),
            ),
        ),
{
}

/// The low-rank queries are normalized by their weight.
pub proof fn law_low_queries(s: Shape, a: At, y: Term<Buf, Kernel>)
    ensures
        layer::low_queries(s, a, y) == on(
            Kernel::RmsNorm { w: Weight::QANorm(a.il), width: s.n_lora_q, rows: a.t },
            on(
                Kernel::MatmulQ8_0 {
                    w: Weight::QA(a.il),
                    n_in: s.n_embd,
                    n_out: s.n_lora_q,
                    t: a.t,
                },
                y,
            ),
        ),
{
}

/// The residual streams of a half of a layer: gates from their own control projection, balanced;
/// the half is fed the streams mixed by the gates; and what it gives goes back by the gates of the
/// same half.
pub proof fn law_streams(s: Shape, a: At, half: Half, x: Term<Buf, Kernel>, out: Term<Buf, Kernel>)
    ensures
        ({
            let n = (s.n_hc * s.n_embd) as u32;
            let g = on(
                Kernel::Sinkhorn { il: a.il, half, n_hc: s.n_hc, iters: s.hc_sinkhorn, t: a.t },
                on(
                    Kernel::MatmulF32 {
                        w: Weight::HcFn(a.il, half),
                        n_in: n,
                        n_out: (6 * s.n_hc) as u32,
                        t: a.t,
                    },
                    on(Kernel::RmsNorm { w: Weight::OnesHc, width: n, rows: a.t }, x),
                ),
            );
            &&& layer::gates(s, a, half, x) == g
            &&& layer::reduced(s, a, half, x) == on2(
                Kernel::HcReduce { n_embd: s.n_embd, n_hc: s.n_hc, t: a.t },
                x,
                g,
            )
            &&& layer::posted(s, a, x, out, g) == on3(
                Kernel::HcMix { n_embd: s.n_embd, n_hc: s.n_hc, t: a.t },
                x,
                out,
                g,
            )
        }),
{
}

/// Attention and feed-forward part are each fed their own half of the streams, normalized by their
/// own weight.
pub proof fn law_halves_fed(s: Shape, a: At, x: Term<Buf, Kernel>)
    ensures
        layer::attn_input(s, a, x) == on(
            Kernel::RmsNorm { w: Weight::AttnNorm(a.il), width: s.n_embd, rows: a.t },
            layer::reduced(s, a, Half::Attn, x),
        ),
        layer::ffn_input(s, a, x) == on(
            Kernel::RmsNorm { w: Weight::FfnNorm(a.il), width: s.n_embd, rows: a.t },
            layer::reduced(s, a, Half::Ffn, x),
        ),
{
}

/// What the attention gives goes back into the streams that it came from, by the gates of its half.
pub proof fn law_attention_joins(s: Shape, ratio: u32, a: At, st: Store)
    ensures
        layer::after_attention(s, ratio, a, st) == on3(
            Kernel::HcMix { n_embd: s.n_embd, n_hc: s.n_hc, t: a.t },
            st[Buf::Hc(a.hc)],
            layer::attention_output(s, ratio, a, st[Buf::Heads]),
            st[Buf::Coef(Half::Attn)],
        ),
{
}

/// The tokens of a chunk attend over the queries and keys of the chunk and the compressor's
/// projections of the same normalized input; all else they read is what was there.
pub proof fn law_chunk_projected(s: Shape, w: Dsv4W, a: At, st: Store, b: Buf)
    ensures
        ({
            let y = layer::attn_input(s, a, st[Buf::Hc(a.hc)]);
            let at = layer::projected(s, w, a, st);
            let row = |m: Weight|
                on(
                    Kernel::MatmulQ8_0 { w: m, n_in: s.n_embd, n_out: w.comp->0, t: a.t },
                    y,
                );
            &&& at[Buf::Q] == layer::queries(s, a, w.ratio, y)
            &&& at[Buf::V] == layer::keys(s, a, w.ratio, y)
            &&& w.comp is Some ==> at[Buf::CompKv] == row(Weight::CompKvW(a.il, false))
            &&& w.comp is Some ==> at[Buf::CompSc] == row(Weight::CompGateW(a.il, false))
            &&& b != Buf::Q && b != Buf::V && (w.comp is None || b != Buf::CompKv && b
                != Buf::CompSc) ==> at[b] == st[b]
        }),
{
}

/// One token of a chunk: its key goes into the ring at its position modulo the window; then, where
/// the layer compresses, one step of the lane takes its row and gives a compressed row exactly where
/// a window of positions ends; then the token attends, over a window that holds its own key and the
/// compressed rows that there are by then.
pub proof fn law_token(s: Shape, w: Dsv4W, a: At, st: Store, n0: nat, i: int)
    requires
        0 <= i < a.t,
        s.n_swa > 0,
        a.pos0 + i < u32::MAX,
    ensures
        ({
            let o = layer::trail(s, w, a, st, n0, i);
            let e = layer::trail(s, w, a, st, n0, i + 1);
            let pos = a.pos0 + i;
            let ends = w.ratio != 0 && (pos + 1) % (w.ratio as int) == 0;
            let step = Kernel::CompStep {
                il: a.il,
                idx: false,
                cached: o.n as u32,
                token: i as u32,
                width: w.comp->0,
                head_dim: s.head_dim,
                pos: pos as u32,
                emit: ends,
            };
            let see = Kernel::AttentionAt {
                il: a.il,
                token: i as u32,
                n_raw: if pos < s.n_swa {
                    (pos + 1) as u32
                } else {
                    s.n_swa
                },
                n_comp: e.n as u32,
                masked: false,
            };
            &&& e.ring == on2(
                Kernel::CopyRow {
                    from: i as u32,
                    to: (pos % s.n_swa as int) as u64,
                    n: s.head_dim,
                },
                o.ring,
                st[Buf::V],
            )
            &&& e.n == if w.comp is Some && ends {
                o.n + 1
            } else {
                o.n
            }
            &&& w.comp is Some ==> {
                let lane = seq![o.kv, o.sc, o.rows, st[Buf::CompKv], st[Buf::CompSc]];
                &&& e.kv == Term::App { f: step, part: 0, args: lane }
                &&& e.sc == Term::App { f: step, part: 1, args: lane }
                &&& e.rows == Term::App { f: step, part: 2, args: lane }
            }
            &&& w.comp is None ==> e.kv == o.kv && e.sc == o.sc && e.rows == o.rows
            &&& takes(e.heads, see, 0, 0, o.heads)
            &&& takes(e.heads, see, 0, 1, st[Buf::Q])
            &&& takes(e.heads, see, 0, 2, e.ring)
            &&& e.n > 0 ==> takes(e.heads, see, 0, 3, e.rows)
        }),
{
}

/// A chunk begins with what the layer holds.
pub proof fn law_chunk_begins(s: Shape, w: Dsv4W, a: At, st: Store, n0: nat)
    ensures
        ({
            let o = layer::trail(s, w, a, st, n0, 0);
            &&& o.ring == st[Buf::KCache(a.il)]
            &&& o.kv == st[Buf::LaneKv(a.il, false)]
            &&& o.sc == st[Buf::LaneSc(a.il, false)]
            &&& o.rows == st[Buf::VCache(a.il)]
            &&& o.n == n0
            &&& o.heads == st[Buf::Heads]
        }),
{
}

/// One token of the indexer's lane, which has its own rows, width and cache, and its own
/// projections of the normalized input.
pub proof fn law_index_token(
    s: Shape,
    w: Dsv4W,
    a: At,
    st: Store,
    y: Term<Buf, Kernel>,
    n0: nat,
    i: int,
)
    requires
        0 <= i < a.t,
        a.pos0 + i < u32::MAX,
    ensures
        ({
            let row = |m: Weight|
                on(
                    Kernel::MatmulQ8_0 { w: m, n_in: s.n_embd, n_out: w.idx->0, t: a.t },
                    y,
                );
            let kv = row(Weight::CompKvW(a.il, true));
            let sc = row(Weight::CompGateW(a.il, true));
            let o = layer::idx_trail(s, w, a, st, kv, sc, n0, i);
            let e = layer::idx_trail(s, w, a, st, kv, sc, n0, i + 1);
            let pos = a.pos0 + i;
            let ends = w.ratio != 0 && (pos + 1) % (w.ratio as int) == 0;
            let step = Kernel::CompStep {
                il: a.il,
                idx: true,
                cached: o.3 as u32,
                token: i as u32,
                width: w.idx->0,
                head_dim: s.n_idx_dim,
                pos: pos as u32,
                emit: ends,
            };
            let lane = seq![o.0, o.1, o.2, kv, sc];
            &&& layer::idx_projected(s, w, a, y, false) == kv
            &&& layer::idx_projected(s, w, a, y, true) == sc
            &&& e.0 == Term::App { f: step, part: 0, args: lane }
            &&& e.1 == Term::App { f: step, part: 1, args: lane }
            &&& e.2 == Term::App { f: step, part: 2, args: lane }
            &&& e.3 == if ends {
                o.3 + 1
            } else {
                o.3
            }
            &&& layer::idx_trail(s, w, a, st, kv, sc, n0, 0) == (
                st[Buf::LaneKv(a.il, true)],
                st[Buf::LaneSc(a.il, true)],
                st[Buf::IdxCache(a.il)],
                n0,
            )
        }),
{
}

/// What the host selects by: the indexer's heads from the low-rank query, and their weights from
/// the normalized input.
pub proof fn law_index_query(s: Shape, a: At, low: Term<Buf, Kernel>, y: Term<Buf, Kernel>)
    ensures
        layer::idx_query(s, a, low) == on(
            Kernel::MatmulQ8_0 {
                w: Weight::IdxQB(a.il),
                n_in: s.n_lora_q,
                n_out: (s.n_idx_head * s.n_idx_dim) as u32,
                t: 1,
            },
            low,
        ),
        layer::idx_weights(s, a, y) == on(
            Kernel::MatmulF32 {
                w: Weight::IdxProj(a.il),
                n_in: s.n_embd,
                n_out: s.n_idx_head,
                t: 1,
            },
            y,
        ),
{
}

/// The shared expert: down of the gated product of gate and up, in this order, clamped where asked;
/// zeros where there is none.
pub proof fn law_shared(s: Shape, il: u32, t: u32, clamp: bool, y: Term<Buf, Kernel>)
    ensures
        ({
            let z = |w: Weight|
                on(Kernel::MatmulQ8_0 { w, n_in: s.n_embd, n_out: s.n_ff_exp, t }, y);
            &&& layer::shared_output(s, il, t, clamp, true, y) == on(
                Kernel::MatmulQ8_0 {
                    w: Weight::ShexpDown(il),
                    n_in: s.n_ff_exp,
                    n_out: s.n_embd,
                    t,
                },
                on2(
                    Kernel::Swiglu { n: (t * s.n_ff_exp) as u32, clamp },
                    z(Weight::ShexpGate(il)),
                    z(Weight::ShexpUp(il)),
                ),
            )
            &&& layer::shared_output(s, il, t, clamp, false, y) == given(
                Kernel::Zero { count: (t * s.n_embd) as u64 },
                0,
            )
        }),
{
}

/// The experts read the input of the feed-forward part, that input quantized, and the weights that
/// the host chose.
pub proof fn law_expert_operands(s: Shape, a: At, y: Term<Buf, Kernel>)
    ensures
        ({
            let m = layer::expert_operands(s, a, y);
            &&& m[Buf::Normed] == y
            &&& m[Buf::Xq] == on(Kernel::QuantizeQ8k { n: s.n_embd, rows: a.t }, y)
            &&& m[Buf::RouterWeights] == given(
                Kernel::WriteWeights { n: (a.t * s.n_expert_used) as u32 },
                0,
            )
        }),
{
}

/// Every residual stream of every token begins as that token's row of the embedding: row `k` of the
/// streams is a copy of row `k / n_hc`.
pub proof fn law_streams_begin(s: Shape, step: Step, old: Term<Buf, Kernel>, k: int)
    requires
        0 < s.n_hc,
        0 <= k,
    ensures
        forward::embedded(s, step) == on(
            Kernel::Embed { n_embd: s.n_embd, n_vocab: s.n_vocab, t: step.t },
            given(Kernel::WriteTokens { from: step.from as u32, t: step.t }, 0),
        ),
        forward::spread(s, forward::embedded(s, step), old, 0) == old,
        forward::spread(s, forward::embedded(s, step), old, k + 1) == on2(
            Kernel::CopyRow { from: (k / s.n_hc as int) as u32, to: k as u64, n: s.n_embd },
            forward::spread(s, forward::embedded(s, step), old, k),
            forward::embedded(s, step),
        ),
{
}

/// The logits are those of the last token: its streams, mixed by gates from their normalized
/// projection, then normalized, then through the head.
pub proof fn law_last_token(s: Shape, t: u32, x: Term<Buf, Kernel>)
    requires
        t > 0,
    ensures
        ({
            let n = (s.n_hc * s.n_embd) as u32;
            let last = on(Kernel::Rows { from: (t - 1) as u32, rows: 1, n }, x);
            let gates = on(
                Kernel::MatmulF32 { w: Weight::OutFn, n_in: n, n_out: s.n_hc, t: 1 },
                on(Kernel::RmsNorm { w: Weight::OnesHc, width: n, rows: 1 }, last),
            );
            forward::logits(s, t, x) == on(
                Kernel::Head { rows: 1 },
                on(
                    Kernel::RmsNorm { w: Weight::OutputNorm, width: s.n_embd, rows: 1 },
                    on2(Kernel::HcHead { n_embd: s.n_embd, n_hc: s.n_hc }, last, gates),
                ),
            )
        }),
{
}

} // verus!
