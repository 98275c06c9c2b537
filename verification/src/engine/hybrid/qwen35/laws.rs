//! What the layers with the delta rule, and the draft model, compute, operand by operand.
use vstd::prelude::*;

use super::draft;
use super::draft::DraftView;
use super::forward;
use super::layer;
use super::layer::{At, LayerRt, Qwen35W};
use crate::engine::hybrid::dsv4;
use crate::engine::hybrid::kernels::{Buf, Kernel, Weight};
use crate::engine::hybrid::laws::{given, on, on2, on3, takes, Store};
use crate::engine::hybrid::shape::Shape;
use crate::engine::program::Term;

verus! {

/// Queries, keys and values come out of one projection and one convolution over the window, split
/// in this order. Queries and keys are brought to unit length per head, values are left as they
/// are. State, decay and write strength go in as they stand.
pub proof fn law_delta_operands(
    s: Shape,
    il: u32,
    t: u32,
    qkv: Term<Buf, Kernel>,
    g: Term<Buf, Kernel>,
    beta: Term<Buf, Kernel>,
    window: Term<Buf, Kernel>,
    state: Term<Buf, Kernel>,
    part: nat,
)
    ensures
        ({
            let key = s.ssm_k_heads * s.ssm_state;
            let value = s.ssm_v_heads * s.ssm_state;
            let conv = on2(
                Kernel::ConvBatch {
                    w: Weight::ConvW(il),
                    n: (2 * key + value) as u32,
                    k: s.ssm_conv_k,
                    t,
                },
                qkv,
                window,
            );
            let third = |p: nat|
                Term::App {
                    f: Kernel::SplitQkv { key: key as u32, value: value as u32, t },
                    part: p,
                    args: seq![conv],
                };
            let unit = Kernel::L2Norm { rows: (t * s.ssm_k_heads) as u32, width: s.ssm_state };
            let f = Kernel::GdnBatch {
                v_heads: s.ssm_v_heads,
                k_heads: s.ssm_k_heads,
                state: s.ssm_state,
                t,
            };
            let d = layer::delta(s, il, t, qkv, g, beta, window, state, part);
            &&& takes(d, f, part, 0, state)
            &&& takes(d, f, part, 1, on(unit, third(0)))
            &&& takes(d, f, part, 2, on(unit, third(1)))
            &&& takes(d, f, part, 3, third(2))
            &&& takes(d, f, part, 4, g)
            &&& takes(d, f, part, 5, beta)
        }),
{
}

/// The window moves on in the launch that convolves: it is its second result.
pub proof fn law_window_moves(
    s: Shape,
    il: u32,
    t: u32,
    qkv: Term<Buf, Kernel>,
    window: Term<Buf, Kernel>,
)
    ensures
        ({
            let f = Kernel::ConvBatch {
                w: Weight::ConvW(il),
                n: (2 * (s.ssm_k_heads * s.ssm_state) + s.ssm_v_heads * s.ssm_state) as u32,
                k: s.ssm_conv_k,
                t,
            };
            layer::convolved(s, il, t, qkv, window, 1) == (Term::App {
                f,
                part: 1,
                args: seq![qkv, window],
            })
        }),
{
}

/// Decay and write strength are the two results of one launch on the projections by their own
/// weights, decay first.
pub proof fn law_coefficients(s: Shape, a: At, y: Term<Buf, Kernel>, part: nat)
    ensures
        ({
            let z = |w: Weight|
                on(Kernel::MatmulF32 { w, n_in: s.n_embd, n_out: s.ssm_v_heads, t: a.t }, y);
            let f = Kernel::GdnCoeffs { il: a.il, heads: s.ssm_v_heads, t: a.t };
            let c = layer::coefficient(s, a, y, part);
            &&& takes(c, f, part, 0, z(Weight::AlphaW(a.il)))
            &&& takes(c, f, part, 1, z(Weight::BetaW(a.il)))
        }),
{
}

/// What a delta-rule layer gives: the rule over its own projection and coefficients, decay before
/// strength, normalized per head, gated by the activation of another projection, and projected back.
pub proof fn law_delta_layer(
    s: Shape,
    a: At,
    y: Term<Buf, Kernel>,
    window: Term<Buf, Kernel>,
    state: Term<Buf, Kernel>,
)
    ensures
        ({
            let key = s.ssm_k_heads * s.ssm_state;
            let value = s.ssm_v_heads * s.ssm_state;
            let qkv = on(
                Kernel::MatmulQ8_0 {
                    w: Weight::Wqkv(a.il),
                    n_in: s.n_embd,
                    n_out: (2 * key + value) as u32,
                    t: a.t,
                },
                y,
            );
            let z = on(
                Kernel::MatmulQ8_0 {
                    w: Weight::Wz(a.il),
                    n_in: s.n_embd,
                    n_out: value as u32,
                    t: a.t,
                },
                y,
            );
            let o = layer::delta(
                s,
                a.il,
                a.t,
                qkv,
                layer::coefficient(s, a, y, 0),
                layer::coefficient(s, a, y, 1),
                window,
                state,
                0,
            );
            &&& layer::raw_qkv(s, a, y) == qkv
            &&& layer::gdn_output(s, a, y, window, state) == on(
                Kernel::MatmulQ8_0 {
                    w: Weight::SsmOut(a.il),
                    n_in: value as u32,
                    n_out: s.n_embd,
                    t: a.t,
                },
                on2(
                    Kernel::Swiglu { n: (a.t * value) as u32, clamp: false },
                    z,
                    on(
                        Kernel::HeadNorm {
                            norm: Some(Weight::SsmNorm(a.il)),
                            heads: (a.t * s.ssm_v_heads) as u32,
                            width: s.ssm_state,
                        },
                        o,
                    ),
                ),
            )
        }),
{
}

/// Queries and keys of an attention layer are turned alike: each normalized per head by its own
/// weight, then rotated to the positions of the chunk, over the same part of a head. Values are
/// stored as they are projected. Keys and values go into their caches at the same positions.
pub proof fn law_turned_alike(s: Shape, a: At, y: Term<Buf, Kernel>, cache: Term<Buf, Kernel>)
    ensures
        ({
            let kv = (s.n_head_kv * s.head_dim) as u32;
            let z = |w: Weight, n: u32|
                on(Kernel::MatmulQ8_0 { w, n_in: s.n_embd, n_out: n, t: a.t }, y);
            let turn = |w: Weight, heads: u32, x: Term<Buf, Kernel>|
                on(
                    Kernel::Rope {
                        heads,
                        head_dim: s.head_dim,
                        rot: s.rot_dim,
                        pos: a.pos,
                        t: a.t,
                    },
                    on(
                        Kernel::HeadNorm {
                            norm: Some(w),
                            heads: (a.t * heads) as u32,
                            width: s.head_dim,
                        },
                        x,
                    ),
                );
            let store = Kernel::KvAppend {
                heads: s.n_head_kv,
                head_dim: s.head_dim,
                ctx: a.ctx,
                pos: a.pos,
                t: a.t,
            };
            let split = |p: nat|
                Term::App {
                    f: Kernel::SplitGate {
                        heads: (a.t * s.n_head) as u32,
                        width: s.head_dim,
                    },
                    part: p,
                    args: seq![z(Weight::Wq(a.il), (2 * (s.n_head * s.head_dim)) as u32)],
                };
            &&& layer::gated_queries(s, a, y, 0) == split(0)
            &&& layer::gated_queries(s, a, y, 1) == split(1)
            &&& layer::turned(s, a, Weight::QNorm(a.il), s.n_head, split(0)) == turn(
                Weight::QNorm(a.il),
                s.n_head,
                split(0),
            )
            &&& layer::new_keys(s, a, y, cache) == on2(
                store,
                cache,
                turn(Weight::KNorm(a.il), s.n_head_kv, z(Weight::Wk(a.il), kv)),
            )
            &&& layer::new_values(s, a, y, cache) == on2(store, cache, z(Weight::Wv(a.il), kv))
        }),
{
}

/// What an attention layer gives: the turned queries over the given keys and values, times the
/// sigmoid of the factors that came with the queries, projected back.
pub proof fn law_attention_layer(
    s: Shape,
    a: At,
    y: Term<Buf, Kernel>,
    k: Term<Buf, Kernel>,
    v: Term<Buf, Kernel>,
)
    ensures
        ({
            let q = layer::turned(
                s,
                a,
                Weight::QNorm(a.il),
                s.n_head,
                layer::gated_queries(s, a, y, 0),
            );
            let heads = on3(
                Kernel::Attention {
                    n_head: s.n_head,
                    n_kv: s.n_head_kv,
                    head_dim: s.head_dim,
                    ctx: a.ctx,
                    pos: a.pos,
                    t: a.t,
                },
                q,
                k,
                v,
            );
            layer::attn_output(s, a, y, k, v) == on(
                Kernel::MatmulQ8_0 {
                    w: Weight::AttnOutput(a.il),
                    n_in: (s.n_head * s.head_dim) as u32,
                    n_out: s.n_embd,
                    t: a.t,
                },
                on2(
                    Kernel::SigmoidGate { n: (a.t * (s.n_head * s.head_dim)) as u32 },
                    heads,
                    layer::gated_queries(s, a, y, 1),
                ),
            )
        }),
{
}

/// The first half of a layer adds to the residual stream what its kind gives on the normalized
/// stream: the delta rule with the layer's own window and state, or attention over the layer's own
/// caches once they hold the chunk.
pub proof fn law_first_half(s: Shape, w: Qwen35W, a: At, st: Store)
    ensures
        ({
            let y = on(
                Kernel::RmsNorm { w: Weight::AttnNorm(a.il), width: s.n_embd, rows: a.t },
                st[Buf::Cur],
            );
            let out = if w.gdn {
                layer::gdn_output(s, a, y, st[Buf::GdnConv(a.il)], st[Buf::GdnS(a.il)])
            } else {
                layer::attn_output(
                    s,
                    a,
                    y,
                    layer::new_keys(s, a, y, st[Buf::KCache(a.il)]),
                    layer::new_values(s, a, y, st[Buf::VCache(a.il)]),
                )
            };
            &&& layer::mix_input(s, a, st[Buf::Cur]) == y
            &&& layer::after_mix(s, w, a, st) == on2(
                Kernel::Add { n: (a.t * s.n_embd) as u32 },
                st[Buf::Cur],
                out,
            )
        }),
{
}

/// The input of a layer whose features are captured goes into the ring of positions at its place
/// among the captured layers; that of another layer leaves the ring alone.
pub proof fn law_capture(
    s: Shape,
    rt: LayerRt,
    a: At,
    ring: Term<Buf, Kernel>,
    x: Term<Buf, Kernel>,
)
    ensures
        rt.feature is None ==> layer::captured(s, rt, a, ring, x) == ring,
        rt.feature matches Some((i, n)) ==> layer::captured(s, rt, a, ring, x) == on2(
            Kernel::RingScatter {
                pos: a.pos,
                cap: 256,
                t: a.t,
                n: s.n_embd,
                stride: (n * s.n_embd) as u32,
                at: (i * s.n_embd) as u32,
            },
            ring,
            x,
        ),
{
}

/// The second half is fed the normalized stream; the router selects by its logits on that, and the
/// shared expert is scaled by the sigmoid of its own projection, token by token.
pub proof fn law_second_half(
    s: Shape,
    a: At,
    x: Term<Buf, Kernel>,
    y: Term<Buf, Kernel>,
    part: nat,
)
    ensures
        layer::ffn_input(s, a, x) == on(
            Kernel::RmsNorm { w: Weight::FfnNorm(a.il), width: s.n_embd, rows: a.t },
            x,
        ),
        layer::routed(s, a, y, part) == (Term::App {
            f: Kernel::RouterSelect {
                il: a.il,
                n_expert: s.n_expert,
                n_used: s.n_expert_used,
                t: a.t,
            },
            part,
            args: seq![
                on(
                    Kernel::MatmulF32 {
                        w: Weight::GateInp(a.il),
                        n_in: s.n_embd,
                        n_out: s.n_expert,
                        t: a.t,
                    },
                    y,
                ),
            ],
        }),
        layer::scaled_shared(s, a, true, y) == on2(
            Kernel::RowSigmoidScale { t: a.t, n: s.n_embd },
            dsv4::layer::shared_output(s, a.il, a.t, false, true, y),
            on(
                Kernel::MatmulF32 {
                    w: Weight::ShexpScalar(a.il),
                    n_in: s.n_embd,
                    n_out: 1,
                    t: a.t,
                },
                y,
            ),
        ),
        layer::scaled_shared(s, a, false, y) == given(
            Kernel::Zero { count: (a.t * s.n_embd) as u64 },
            0,
        ),
{
}

/// The logits are those of the last `k` of `t` rows of the stream, normalized and through the head.
pub proof fn law_last_rows(s: Shape, t: u32, k: u32, x: Term<Buf, Kernel>)
    requires
        k <= t,
    ensures
        forward::logits(s, t, k, x) == on(
            Kernel::Head { rows: k },
            on(
                Kernel::RmsNorm { w: Weight::OutputNorm, width: s.n_embd, rows: k },
                on(Kernel::Rows { from: (t - k) as u32, rows: k, n: s.n_embd }, x),
            ),
        ),
{
}

/// A draft sees the features of the last positions that the ring holds, oldest first, mixed down to
/// the residual width and normalized; and a block that begins with the last token.
pub proof fn law_draft_sees(d: DraftView, s: Shape, committed: u32, last: u32, ring: Term<Buf, Kernel>)
    ensures
        ({
            let w = if committed < 256 {
                committed
            } else {
                256
            };
            let n = (d.layer_ids.len() * s.n_embd) as u32;
            &&& draft::window(committed) == w
            &&& draft::features(d, s, committed, ring) == on(
                Kernel::RmsNorm { w: Weight::DraftHiddenNorm, width: s.n_embd, rows: w },
                on(
                    Kernel::MatmulQ8_0 { w: Weight::DraftFc, n_in: n, n_out: s.n_embd, t: w },
                    on(
                        Kernel::RingGather {
                            from: ((committed - w) % 256) as u32,
                            cap: 256,
                            t: w,
                            n,
                        },
                        ring,
                    ),
                ),
            )
            &&& draft::block(d, s, last) == on(
                Kernel::Embed { n_embd: s.n_embd, n_vocab: s.n_vocab, t: d.block_size },
                given(Kernel::WriteBlock { last, mask: d.mask_id, t: d.block_size }, 0),
            )
        }),
{
}

/// In a layer of the draft, keys and values are projections of the features and, behind them, of
/// the normalized block; keys are turned from the first position of the window on, queries from the
/// first position of the block on, which is where the block's own keys stand. What comes out is
/// projected back and added.
pub proof fn law_draft_attends(
    d: DraftView,
    s: Shape,
    il: u32,
    w: u32,
    feat: Term<Buf, Kernel>,
    h: Term<Buf, Kernel>,
)
    requires
        w + d.block_size <= u32::MAX,
    ensures
        ({
            let b = d.block_size;
            let all = (w + b) as u32;
            let kv = (d.n_kv * d.head_dim) as u32;
            let qn = (d.n_head * d.head_dim) as u32;
            let y = on(
                Kernel::RmsNorm { w: Weight::DraftAttnNorm(il), width: s.n_embd, rows: b },
                h,
            );
            let rows = |m: Weight|
                on2(
                    Kernel::MatmulBehind { w: m, row: w, n_in: s.n_embd, n_out: kv, t: b },
                    on(
                        Kernel::MatmulQ8_0 { w: m, n_in: s.n_embd, n_out: kv, t: w },
                        feat,
                    ),
                    y,
                );
            let turn = |m: Weight, heads: u32, t: u32, pos: u32, x: Term<Buf, Kernel>|
                on(
                    Kernel::RopeYarn { heads, head_dim: d.head_dim, pos, t },
                    on(
                        Kernel::HeadNorm {
                            norm: Some(m),
                            heads: (t * heads) as u32,
                            width: d.head_dim,
                        },
                        x,
                    ),
                );
            let q = turn(
                Weight::DraftQNorm(il),
                d.n_head,
                b,
                w,
                on(
                    Kernel::MatmulQ8_0 {
                        w: Weight::DraftWq(il),
                        n_in: s.n_embd,
                        n_out: qn,
                        t: b,
                    },
                    y,
                ),
            );
            let k = turn(Weight::DraftKNorm(il), d.n_kv, all, 0, rows(Weight::DraftWk(il)));
            let o = on3(
                Kernel::DraftAttention {
                    n_head: d.n_head,
                    n_kv: d.n_kv,
                    head_dim: d.head_dim,
                    t: b,
                    total: all,
                },
                q,
                k,
                rows(Weight::DraftWv(il)),
            );
            draft::draft_attended(d, s, il, w, feat, h) == on2(
                Kernel::Add { n: (b * s.n_embd) as u32 },
                h,
                on(
                    Kernel::MatmulQ8_0 {
                        w: Weight::DraftWo(il),
                        n_in: qn,
                        n_out: s.n_embd,
                        t: b,
                    },
                    o,
                ),
            )
        }),
{
}

/// Behind its attention a layer of the draft adds its feed-forward part; the layers follow each
/// other, each on what the one before gave, all on the same features.
pub proof fn law_draft_layer(
    d: DraftView,
    s: Shape,
    il: u32,
    w: u32,
    feat: Term<Buf, Kernel>,
    h: Term<Buf, Kernel>,
)
    requires
        il < u32::MAX,
    ensures
        ({
            let b = d.block_size;
            let x = draft::draft_attended(d, s, il, w, feat, h);
            let y = on(
                Kernel::RmsNorm { w: Weight::DraftFfnNorm(il), width: s.n_embd, rows: b },
                x,
            );
            let z = |m: Weight|
                on(Kernel::MatmulQ8_0 { w: m, n_in: s.n_embd, n_out: d.ff, t: b }, y);
            let mid = on2(
                Kernel::Swiglu { n: (b * d.ff) as u32, clamp: false },
                z(Weight::DraftGate(il)),
                z(Weight::DraftUp(il)),
            );
            &&& draft::draft_layer(d, s, il, w, feat, h) == on2(
                Kernel::Add { n: (b * s.n_embd) as u32 },
                x,
                on(
                    Kernel::MatmulQ8_0 {
                        w: Weight::DraftDown(il),
                        n_in: d.ff,
                        n_out: s.n_embd,
                        t: b,
                    },
                    mid,
                ),
            )
            &&& draft::draft_layers(d, s, w, feat, h, 0) == h
            &&& draft::draft_layers(d, s, w, feat, h, il + 1) == draft::draft_layer(
                d,
                s,
                il,
                w,
                feat,
                draft::draft_layers(d, s, w, feat, h, il as int),
            )
        }),
{
}

/// A layer mixes by the delta rule where it has its weights, over its own window and state, and by
/// attention otherwise, over its own caches with the chunk's keys and values appended.
pub proof fn law_mix(s: Shape, w: Qwen35W, a: At, st: Store)
    ensures
        ({
            let y = layer::mix_input(s, a, st[Buf::Cur]);
            &&& w.gdn ==> layer::mix_output(s, w, a, st) == layer::gdn_output(
                s,
                a,
                y,
                st[Buf::GdnConv(a.il)],
                st[Buf::GdnS(a.il)],
            )
            &&& !w.gdn ==> layer::mix_output(s, w, a, st) == layer::attn_output(
                s,
                a,
                y,
                layer::new_keys(s, a, y, st[Buf::KCache(a.il)]),
                layer::new_values(s, a, y, st[Buf::VCache(a.il)]),
            )
        }),
{
}

} // verus!
