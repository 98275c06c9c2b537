//! What the layers of the model compute, operand by operand: which kernel made each operand of a
//! launch, and from what.
use vstd::prelude::*;

use super::compute;
use super::compute::{Job, Tensors};
use super::dense;
use super::dims::{K3LayerKind, K3MlaDims, K3Shape};
use super::forward;
use super::kda;
use super::kernels::{Buf, Kernel, Weight};
use super::mla;
use super::moe;
use crate::engine::program::Term;

verus! {

/// What is known of the buffers.
pub type Store = Map<Buf, Term<Buf, Kernel>>;

/// `f` launched on one operand.
pub open spec fn on(f: Kernel, x: Term<Buf, Kernel>) -> Term<Buf, Kernel> {
    Term::App { f, part: 0, args: seq![x] }
}

/// `f` launched on two operands.
pub open spec fn on2(f: Kernel, x: Term<Buf, Kernel>, y: Term<Buf, Kernel>) -> Term<Buf, Kernel> {
    Term::App { f, part: 0, args: seq![x, y] }
}

/// `t` is result `part` of a launch of `f` whose operand `i` is `x`.
pub open spec fn takes(
    t: Term<Buf, Kernel>,
    f: Kernel,
    part: nat,
    i: int,
    x: Term<Buf, Kernel>,
) -> bool {
    t matches Term::App { f: g, part: p, args } && g == f && p == part && 0 <= i < args.len()
        && args[i] == x
}

/// The strength with which the delta rule of a layer writes, its last operand, is a sigmoid of the
/// projection of the normalized input by the layer's own weight, one number per head: it lies
/// between nothing and the whole.
pub proof fn law_write_strength(s: K3Shape, il: u32, st: Store, part: nat)
    ensures
        takes(
            kda::recurrence(s, il, st, part),
            Kernel::KdaStep { n_head: s.n_head, width: s.kda_head_dim },
            part,
            5,
            on(
                Kernel::HostSigmoid { n: s.n_head },
                on(
                    Kernel::MatmulQ8k {
                        w: Weight::SsmBeta(il),
                        n_in: s.n_embd,
                        n_out: s.n_head,
                    },
                    on(Kernel::QuantizeQ8k { n: s.n_embd }, st[Buf::StNormed]),
                ),
            ),
        ),
{
}

/// Whatever holds of every sigmoid over the heads, such as that it lies between zero and one, holds
/// of the strength with which the delta rule writes, whatever the input is.
pub proof fn law_strength_bounded(
    s: K3Shape,
    il: u32,
    st: Store,
    bounded: spec_fn(Term<Buf, Kernel>) -> bool,
)
    requires
        forall|x: Term<Buf, Kernel>| #[trigger] bounded(on(Kernel::HostSigmoid { n: s.n_head }, x)),
    ensures
        kda::recurrence(s, il, st, 0) matches Term::App { args, .. } && args.len() == 6 && bounded(
            args[5],
        ),
        kda::recurrence(s, il, st, 1) matches Term::App { args, .. } && args.len() == 6 && bounded(
            args[5],
        ),
{
    let x = on(
        Kernel::MatmulQ8k { w: Weight::SsmBeta(il), n_in: s.n_embd, n_out: s.n_head },
        on(Kernel::QuantizeQ8k { n: s.n_embd }, st[Buf::StNormed]),
    );
    assert(bounded(on(Kernel::HostSigmoid { n: s.n_head }, x)));
}

/// The decay of the delta rule is the bounded gate, over the layer's own magnitudes and biases, of
/// the normalized input taken down to one head and up to all of them.
pub proof fn law_decay(s: K3Shape, il: u32, st: Store, part: nat)
    ensures
        takes(
            kda::recurrence(s, il, st, part),
            Kernel::KdaStep { n_head: s.n_head, width: s.kda_head_dim },
            part,
            4,
            on(
                Kernel::SafeGate {
                    dt: Weight::SsmDtB(il),
                    a: Weight::SsmA(il),
                    n_head: s.n_head,
                    width: s.kda_head_dim,
                },
                on(
                    Kernel::MatmulF32 {
                        w: Weight::SsmFb(il),
                        n_in: s.kda_head_dim,
                        n_out: (s.n_head * s.kda_head_dim) as u32,
                    },
                    on(
                        Kernel::MatmulQ8k {
                            w: Weight::SsmFa(il),
                            n_in: s.n_embd,
                            n_out: s.kda_head_dim,
                        },
                        on(Kernel::QuantizeQ8k { n: s.n_embd }, st[Buf::StNormed]),
                    ),
                ),
            ),
        ),
{
}

/// A projection of the normalized input, convolved over the window that stands before it, without
/// the input that the convolution adds, and activated.
pub open spec fn activated(s: K3Shape, proj: Weight, conv: Weight, x: Term<Buf, Kernel>, window: Term<
    Buf,
    Kernel,
>) -> Term<Buf, Kernel> {
    let d = (s.n_head * s.kda_head_dim) as u32;
    let y = on(
        Kernel::MatmulQ8k { w: proj, n_in: s.n_embd, n_out: d },
        on(Kernel::QuantizeQ8k { n: s.n_embd }, x),
    );
    let k = if s.ssm_conv_k > 1 {
        s.ssm_conv_k
    } else {
        1
    };
    on2(Kernel::SiluDiff { n: d }, on2(Kernel::Sconv { w: conv, d, k }, y, window), y)
}

/// Queries and keys of the delta rule are activated convolutions, brought to unit length per head;
/// values are activated convolutions as they come. Each has its own projection, convolution and
/// window, and the state is the layer's own.
pub proof fn law_streams(s: K3Shape, il: u32, st: Store, part: nat)
    ensures
        ({
            let x = st[Buf::StNormed];
            let step = Kernel::KdaStep { n_head: s.n_head, width: s.kda_head_dim };
            let unit = Kernel::L2Norm { rows: s.n_head, width: s.kda_head_dim };
            let t = kda::recurrence(s, il, st, part);
            &&& takes(t, step, part, 0, st[Buf::Ssm(il)])
            &&& takes(
                t,
                step,
                part,
                1,
                on(
                    unit,
                    activated(s, Weight::Wq(il), Weight::SsmQConv(il), x, st[Buf::Conv(il, 0)]),
                ),
            )
            &&& takes(
                t,
                step,
                part,
                2,
                on(
                    unit,
                    activated(s, Weight::Wk(il), Weight::SsmKConv(il), x, st[Buf::Conv(il, 1)]),
                ),
            )
            &&& takes(
                t,
                step,
                part,
                3,
                activated(s, Weight::Wv(il), Weight::SsmVConv(il), x, st[Buf::Conv(il, 2)]),
            )
        }),
{
}

/// A window moves on in the launch that convolves its stream: it is the second result of that
/// launch, on the same operands.
pub proof fn law_window_of_stream(
    s: K3Shape,
    conv: Weight,
    x: Term<Buf, Kernel>,
    window: Term<Buf, Kernel>,
)
    ensures
        ({
            let d = (s.n_head * s.kda_head_dim) as u32;
            let k = if s.ssm_conv_k > 1 {
                s.ssm_conv_k
            } else {
                1
            };
            let t = kda::convolved(s, conv, x, window, 1);
            &&& takes(t, Kernel::Sconv { w: conv, d, k }, 1, 0, x)
            &&& takes(t, Kernel::Sconv { w: conv, d, k }, 1, 1, window)
            &&& takes(kda::stream(s, conv, x, window), Kernel::SiluDiff { n: d }, 0, 1, x)
            &&& takes(
                kda::stream(s, conv, x, window),
                Kernel::SiluDiff { n: d },
                0,
                0,
                on2(Kernel::Sconv { w: conv, d, k }, x, window),
            )
        }),
{
}

/// Once delta attention runs through, each window is behind the projection of its own stream.
pub proof fn law_windows_move(s: K3Shape, w: super::layer::KimiK3W, il: u32, st: Store, end: Store)
    requires
        kda::kda_keeps(s, w, il, st, end),
        kda::kda_fault(w, il) is None,
    ensures
        ({
            let d = (s.n_head * s.kda_head_dim) as u32;
            let k = if s.ssm_conv_k > 1 {
                s.ssm_conv_k
            } else {
                1
            };
            let y = |p: Weight|
                on(
                    Kernel::MatmulQ8k { w: p, n_in: s.n_embd, n_out: d },
                    on(Kernel::QuantizeQ8k { n: s.n_embd }, st[Buf::StNormed]),
                );
            let f = |c: Weight| Kernel::Sconv { w: c, d, k };
            &&& takes(end[Buf::Conv(il, 0)], f(Weight::SsmQConv(il)), 1, 0, y(Weight::Wq(il)))
            &&& takes(end[Buf::Conv(il, 0)], f(Weight::SsmQConv(il)), 1, 1, st[Buf::Conv(il, 0)])
            &&& takes(end[Buf::Conv(il, 1)], f(Weight::SsmKConv(il)), 1, 0, y(Weight::Wk(il)))
            &&& takes(end[Buf::Conv(il, 1)], f(Weight::SsmKConv(il)), 1, 1, st[Buf::Conv(il, 1)])
            &&& takes(end[Buf::Conv(il, 2)], f(Weight::SsmVConv(il)), 1, 0, y(Weight::Wv(il)))
            &&& takes(end[Buf::Conv(il, 2)], f(Weight::SsmVConv(il)), 1, 1, st[Buf::Conv(il, 2)])
            &&& takes(
                end[Buf::Ssm(il)],
                Kernel::KdaStep { n_head: s.n_head, width: s.kda_head_dim },
                1,
                0,
                st[Buf::Ssm(il)],
            )
            &&& forall|l: u32, c: u32| l != il ==> #[trigger] end[Buf::Conv(l, c)] == st[Buf::Conv(
                l,
                c,
            )]
            &&& forall|l: u32| l != il ==> #[trigger] end[Buf::Ssm(l)] == st[Buf::Ssm(l)]
        }),
{
}

/// What delta attention gives is the output projection of the step's first result, normalized per
/// head and times the sigmoid of the output gate.
pub proof fn law_delta_output(s: K3Shape, il: u32, st: Store)
    ensures
        ({
            let d = (s.n_head * s.kda_head_dim) as u32;
            let gate = on(
                Kernel::Sigmoid { n: d },
                on(
                    Kernel::MatmulQ8k { w: Weight::WqkvGate(il), n_in: s.n_embd, n_out: d },
                    on(Kernel::QuantizeQ8k { n: s.n_embd }, st[Buf::StNormed]),
                ),
            );
            let out = on(
                Kernel::RmsNorm { w: Weight::SsmONorm(il), width: s.kda_head_dim, rows: s.n_head },
                kda::recurrence(s, il, st, 0),
            );
            kda::kda_output(s, il, st) == on(
                Kernel::Matmul { w: Weight::Wo(il), n_in: d, n_out: s.n_embd },
                on2(Kernel::Mul { n: d }, out, gate),
            )
        }),
{
}

/// The queries of latent attention come through a normalized bottleneck.
pub proof fn law_latent_queries(d: K3MlaDims, il: u32, x: Term<Buf, Kernel>)
    ensures
        mla::queries(d, il, x) == on(
            Kernel::Matmul {
                w: Weight::MlaWqB(il),
                n_in: d.q_lora_rank,
                n_out: (d.n_head * (d.qk_nope + d.qk_rope)) as u32,
            },
            on(
                Kernel::RmsNorm { w: Weight::MlaQANorm(il), width: d.q_lora_rank, rows: 1 },
                on(
                    Kernel::Matmul {
                        w: Weight::MlaWqA(il),
                        n_in: d.n_embd,
                        n_out: d.q_lora_rank,
                    },
                    x,
                ),
            ),
        ),
{
}

/// Both caches of latent attention take the token's row in one launch, at its position: the
/// normalized latent, which is the head of the compressed row, and the compressed row for its
/// tail, which is stored as it comes. What was cached before goes into that launch too.
pub proof fn law_latent_row(d: K3MlaDims, il: u32, st: Store, pos: u32, ctx: u32, part: nat)
    ensures
        ({
            let row = on(
                Kernel::Matmul {
                    w: Weight::MlaWkvAMqa(il),
                    n_in: d.n_embd,
                    n_out: (d.kv_lora_rank + d.qk_rope) as u32,
                },
                st[Buf::StNormed],
            );
            let head = on(Kernel::Slice { from: 0, n: d.kv_lora_rank }, row);
            let f = Kernel::MlaStore {
                pos,
                ctx,
                stride: (d.kv_lora_rank + d.qk_rope) as u32,
                rank: d.kv_lora_rank,
                tail: d.qk_rope,
            };
            let t = mla::cached(d, il, st, pos, ctx, part);
            &&& takes(t, f, part, 0, st[Buf::KCache(il)])
            &&& takes(t, f, part, 1, st[Buf::VCache(il)])
            &&& takes(
                t,
                f,
                part,
                2,
                on(
                    Kernel::RmsNorm { w: Weight::MlaKvANorm(il), width: d.kv_lora_rank, rows: 1 },
                    head,
                ),
            )
            &&& takes(t, f, part, 3, row)
        }),
{
}

/// A token of latent attention sees every position up to its own, its own row among them: it
/// attends over the caches that already hold it, over one more position than stand before it.
pub proof fn law_token_sees_itself(d: K3MlaDims, il: u32, st: Store, pos: u32, ctx: u32)
    requires
        pos < ctx,
    ensures
        ({
            let f = Kernel::MlaAttention {
                wk: Weight::MlaWkB(il),
                wv: Weight::MlaWvB(il),
                n_kv: (pos + 1) as u32,
                ctx,
                n_head: d.n_head,
                qk_nope: d.qk_nope,
                qk_rope: d.qk_rope,
                rank: d.kv_lora_rank,
                v: d.v_mla,
            };
            let t = mla::attended(d, il, st, pos, ctx, 0);
            &&& takes(t, f, 0, 0, mla::queries(d, il, st[Buf::StNormed]))
            &&& takes(t, f, 0, 1, mla::cached(d, il, st, pos, ctx, 0))
            &&& takes(t, f, 0, 2, mla::cached(d, il, st, pos, ctx, 1))
        }),
{
}

/// What latent attention gives is the output projection of the attention times the sigmoid of the
/// output gate.
pub proof fn law_latent_output(d: K3MlaDims, il: u32, st: Store, pos: u32, ctx: u32)
    ensures
        ({
            let n = (d.n_head * d.v_mla) as u32;
            mla::mla_output(d, il, st, pos, ctx) == on(
                Kernel::Matmul { w: Weight::MlaWo(il), n_in: n, n_out: d.n_embd },
                on2(
                    Kernel::Mul { n },
                    mla::attended(d, il, st, pos, ctx, 0),
                    on(
                        Kernel::Sigmoid { n },
                        on(
                            Kernel::Matmul {
                                w: Weight::MlaWqkvGate(il),
                                n_in: d.n_embd,
                                n_out: n,
                            },
                            st[Buf::StNormed],
                        ),
                    ),
                ),
            )
        }),
{
}

/// A dense feed-forward part: down of the gated product of gate and up, in this order, both on the
/// same quantized input.
pub proof fn law_dense_part(s: K3Shape, il: u32, x: Term<Buf, Kernel>)
    ensures
        ({
            let n = s.n_ff_dense;
            let y = |w: Weight|
                on(
                    Kernel::MatmulQ8k { w, n_in: s.n_embd, n_out: n },
                    on(Kernel::QuantizeQ8k { n: s.n_embd }, x),
                );
            dense::dense_output(s, il, x) == on(
                Kernel::Matmul { w: Weight::FfnDown(il), n_in: n, n_out: s.n_embd },
                on2(Kernel::SituGlu { n }, y(Weight::FfnGate(il)), y(Weight::FfnUp(il))),
            )
        }),
{
}

/// The router selects by its logits on the input of the feed-forward part, with the layer's own
/// bias.
pub proof fn law_router(s: K3Shape, il: u32, x: Term<Buf, Kernel>, part: nat)
    ensures
        takes(
            moe::routed(s, il, x, part),
            Kernel::RouterSelect {
                bias: Weight::FfnExpProbsB(il),
                n_expert: s.n_expert,
                n_used: s.n_expert_used,
            },
            part,
            0,
            on(
                Kernel::Matmul { w: Weight::FfnGateInp(il), n_in: s.n_embd, n_out: s.n_expert },
                x,
            ),
        ),
{
}

/// A routed feed-forward part adds the shared experts, on its own input, to the routed ones, which
/// are normalized in the latent space and taken up from it.
pub proof fn law_routed_part(s: K3Shape, il: u32, acc: Term<Buf, Kernel>, x: Term<Buf, Kernel>)
    ensures
        ({
            let n = (s.n_ff_exp * s.n_expert_shared) as u32;
            let y = |w: Weight| on(Kernel::Matmul { w, n_in: s.n_embd, n_out: n }, x);
            let routed = on(
                Kernel::MatmulQ8_0 {
                    w: Weight::FfnLatentUp(il),
                    n_in: s.moe_latent_size,
                    n_out: s.n_embd,
                },
                on(
                    Kernel::HostRmsNorm { w: Weight::FfnLatentNorm(il), n: s.moe_latent_size },
                    acc,
                ),
            );
            let shared = on(
                Kernel::MatmulQ8_0 { w: Weight::FfnDownShexp(il), n_in: n, n_out: s.n_embd },
                on2(
                    Kernel::SituGlu { n },
                    y(Weight::FfnGateShexp(il)),
                    y(Weight::FfnUpShexp(il)),
                ),
            );
            moe::moe_output(s, il, acc, x) == on2(Kernel::Add { n: s.n_embd }, routed, shared)
        }),
{
}

/// On the device the expert of a slot takes the quantized latent through its gate and up with a
/// weight of one, and the quantized result through its down, in the formats of its tensors. The
/// weights of the router come in once, in front of the outputs, where they are added up.
pub proof fn law_device_experts(s: K3Shape, t: Tensors, v: Seq<Job>, st: Store, i: int)
    requires
        0 <= i < v.len(),
    ensures
        ({
            let none = Seq::<Term<Buf, Kernel>>::empty();
            let at = Term::App { f: Kernel::WriteExpert { slot: v[i].slot }, part: 0, args: none };
            let one = Term::App { f: Kernel::WriteOne, part: 0, args: none };
            let pair = Term::App {
                f: Kernel::ExpertPair {
                    n_in: s.moe_latent_size,
                    n_mid: s.n_ff_exp,
                    row_bytes: t.gate.row_bytes,
                    quant: t.gate.quant,
                },
                part: 0,
                args: seq![
                    at,
                    one,
                    on(Kernel::QuantizeQ8k { n: s.moe_latent_size }, st[Buf::Latent]),
                ],
            };
            let all = compute::summands(s, t, v, st);
            &&& all.len() == v.len() + 1
            &&& all[0] == st[Buf::ExpertWeights]
            &&& all[i + 1] == on2(
                Kernel::ExpertDown {
                    n_mid: s.n_ff_exp,
                    n_out: s.moe_latent_size,
                    row_bytes: t.down.row_bytes,
                    quant: t.down.quant,
                },
                at,
                on(Kernel::QuantizeQ8k { n: s.n_ff_exp }, pair),
            )
        }),
{
}

/// The attention of a layer is fed the normalized mixture of the snapshots and the residual
/// stream, the stream last; where there is no snapshot, the normalized stream alone.
pub proof fn law_attention_fed(s: K3Shape, il: u32, st: Store, len: u32)
    requires
        len < u32::MAX,
    ensures
        ({
            let norm = Kernel::RmsNorm { w: Weight::AttnNorm(il), width: s.n_embd, rows: 1 };
            let mix = Kernel::ResMix {
                norm: Weight::AttnResNorm(il),
                proj: Weight::AttnResProj(il),
                rows: (len + 1) as u32,
                n: s.n_embd,
            };
            let rows = Seq::new(
                (len + 1) as nat,
                |i: int|
                    if i < len {
                        st[Buf::Bank(i as u32)]
                    } else {
                        st[Buf::Cur]
                    },
            );
            forward::attention_input(s, il, st, len) == if len == 0 {
                on(norm, st[Buf::Cur])
            } else {
                on(norm, Term::App { f: mix, part: 0, args: rows })
            }
        }),
{
    if len > 0 {
        let rows = Seq::new(
            (len + 1) as nat,
            |i: int|
                if i < len {
                    st[Buf::Bank(i as u32)]
                } else {
                    st[Buf::Cur]
                },
        );
        assert(crate::engine::program::contents(st, dense::residual_rows(len)) =~= rows);
    }
}

/// The attention of a layer joins the residual stream as a sum, except at the first layer of a
/// block of layers: there it starts the stream anew, and the stream that was goes into the bank,
/// under the number of the block. Every other snapshot stays.
pub proof fn law_residual(s: K3Shape, il: u32, st: Store, out: Term<Buf, Kernel>, i: u32)
    ensures
        ({
            let block = if s.attn_res_block_size > 1 {
                s.attn_res_block_size as int
            } else {
                1
            };
            let first = il as int % block == 0;
            &&& forward::stream_after(s, il, st, out) == if first {
                out
            } else {
                on2(Kernel::Add { n: s.n_embd }, st[Buf::Cur], out)
            }
            &&& forward::bank_row(s, il, st, i) == if first && i == il as int / block {
                st[Buf::Cur]
            } else {
                st[Buf::Bank(i)]
            }
        }),
{
}

/// The feed-forward part of a layer is fed the normalized mixture of the snapshots, the layer's own
/// among them, and the stream behind the attention, which comes last.
pub proof fn law_feed_forward_fed(
    s: K3Shape,
    il: u32,
    st: Store,
    stream: Term<Buf, Kernel>,
    len: u32,
)
    requires
        len < u32::MAX,
    ensures
        forward::ffn_input(s, il, st, stream, len) == on(
            Kernel::RmsNorm { w: Weight::FfnNorm(il), width: s.n_embd, rows: 1 },
            Term::App {
                f: Kernel::ResMix {
                    norm: Weight::FfnResNorm(il),
                    proj: Weight::FfnResProj(il),
                    rows: (len + 1) as u32,
                    n: s.n_embd,
                },
                part: 0,
                args: Seq::new(
                    (len + 1) as nat,
                    |i: int|
                        if i < len {
                            forward::bank_row(s, il, st, i as u32)
                        } else {
                            stream
                        },
                ),
            },
        ),
{
    assert(forward::ffn_rows(s, il, st, stream, len) =~= Seq::new(
        (len + 1) as nat,
        |i: int|
            if i < len {
                forward::bank_row(s, il, st, i as u32)
            } else {
                stream
            },
    ));
}

/// A layer that was entered has gone through the attention of its kind: on the input that the
/// attention was fed, with the layer's own states, at the token's position.
pub proof fn law_kind_decides(
    s: K3Shape,
    kind: K3LayerKind,
    il: u32,
    st: Store,
    len: u32,
    pos: u32,
    ctx: u32,
)
    ensures
        ({
            let at = st.insert(Buf::StNormed, forward::attention_input(s, il, st, len));
            let d = K3MlaDims {
                n_head: s.n_head,
                q_lora_rank: s.n_lora_q,
                kv_lora_rank: s.n_kv_lora,
                qk_nope: s.qk_nope,
                qk_rope: s.qk_rope,
                v_mla: s.value_mla,
                n_embd: s.n_embd,
            };
            let out = forward::attention_output(s, kind, il, st, len, pos, ctx);
            &&& kind == K3LayerKind::Kda ==> out == kda::kda_output(s, il, at)
            &&& kind == K3LayerKind::Mla ==> out == mla::mla_output(d, il, at, pos, ctx)
        }),
{
}

/// A layer that was entered leaves the sum or the fresh start in the stream, its feed-forward part
/// fed from there, and a dense part's or a router's results on that input.
pub proof fn law_layer_entered(
    s: K3Shape,
    w: super::layer::KimiK3W,
    il: u32,
    pos: u32,
    ctx: u32,
    st: Store,
    end: Store,
)
    requires
        forward::entered(s, w, il, pos, ctx, st, end),
    ensures
        ({
            let len = forward::bank_after(s, il as int) as u32;
            let out = forward::attention_output(s, w.kind, il, st, len, pos, ctx);
            let x = end[Buf::FfnInput];
            &&& end[Buf::Cur] == forward::stream_after(s, il, st, out)
            &&& x == forward::ffn_input(
                s,
                il,
                st,
                end[Buf::Cur],
                forward::bank_after(s, il + 1) as u32,
            )
            &&& il < s.n_leading_dense ==> end[Buf::FfnOut] == dense::dense_output(s, il, x)
            &&& il >= s.n_leading_dense ==> end[Buf::ExpertSelected] == moe::routed(s, il, x, 0)
            &&& il >= s.n_leading_dense ==> end[Buf::ExpertWeights] == moe::routed(s, il, x, 1)
            &&& il >= s.n_leading_dense ==> end[Buf::Latent] == on(
                Kernel::Matmul {
                    w: Weight::FfnLatentDown(il),
                    n_in: s.n_embd,
                    n_out: s.moe_latent_size,
                },
                x,
            )
        }),
{
}

/// A token begins as its own row of the embedding and ends, where logits are asked for, in the
/// output head on the normalized mixture of all snapshots and the stream.
pub proof fn law_token_ends(
    s: K3Shape,
    token: u32,
    len: u32,
    rows: u32,
    st: Store,
    begun: Store,
    end: Store,
)
    requires
        0 < len < u32::MAX,
    ensures
        forward::started(s, token, st, begun) ==> begun[Buf::Cur] == on(
            Kernel::Embed { n_embd: s.n_embd, n_vocab: s.n_vocab },
            Term::App { f: Kernel::WriteToken(token), part: 0, args: Seq::empty() },
        ),
        forward::finished(s, len, rows, st, end) ==> {
            let all = Seq::new(
                (len + 1) as nat,
                |i: int|
                    if i < len {
                        st[Buf::Bank(i as u32)]
                    } else {
                        st[Buf::Cur]
                    },
            );
            let last = Term::App {
                f: Kernel::ResMix {
                    norm: Weight::OutputResNorm,
                    proj: Weight::OutputResProj,
                    rows: (len + 1) as u32,
                    n: s.n_embd,
                },
                part: 0,
                args: all,
            };
            &&& end[Buf::Cur] == last
            &&& rows > 0 ==> end[Buf::Logits] == on(
                Kernel::Head { rows: 1 },
                on(Kernel::RmsNorm { w: Weight::OutputNorm, width: s.n_embd, rows: 1 }, last),
            )
            &&& rows == 0 ==> end[Buf::Logits] == st[Buf::Logits]
        },
{
    let all = Seq::new(
        (len + 1) as nat,
        |i: int|
            if i < len {
                st[Buf::Bank(i as u32)]
            } else {
                st[Buf::Cur]
            },
    );
    assert(crate::engine::program::contents(st, dense::residual_rows(len)) =~= all);
}

/// What a layer hands to the next token: delta attention its own state, behind the step, and its own
/// three windows, each behind the projection of its own stream, and no cache; latent attention its
/// own cache with the token's row, and no state or window.
pub proof fn law_layer_hands_on(
    s: K3Shape,
    w: super::layer::KimiK3W,
    il: u32,
    pos: u32,
    ctx: u32,
    st: Store,
    end: Store,
    c: u32,
)
    requires
        forward::entered(s, w, il, pos, ctx, st, end),
    ensures
        ({
            let len = forward::bank_after(s, il as int) as u32;
            let x = forward::attention_input(s, il, st, len);
            let d = (s.n_head * s.kda_head_dim) as u32;
            let k = if s.ssm_conv_k > 1 {
                s.ssm_conv_k
            } else {
                1
            };
            let y = |p: Weight|
                on(
                    Kernel::MatmulQ8k { w: p, n_in: s.n_embd, n_out: d },
                    on(Kernel::QuantizeQ8k { n: s.n_embd }, x),
                );
            let f = |p: Weight| Kernel::Sconv { w: p, d, k };
            let step = Kernel::KdaStep { n_head: s.n_head, width: s.kda_head_dim };
            let store = Kernel::MlaStore {
                pos,
                ctx,
                stride: (s.n_kv_lora + s.qk_rope) as u32,
                rank: s.n_kv_lora,
                tail: s.qk_rope,
            };
            &&& w.kind == K3LayerKind::Kda ==> {
                &&& takes(end[Buf::Ssm(il)], step, 1, 0, st[Buf::Ssm(il)])
                &&& takes(end[Buf::Conv(il, 0)], f(Weight::SsmQConv(il)), 1, 0, y(Weight::Wq(il)))
                &&& takes(end[Buf::Conv(il, 0)], f(Weight::SsmQConv(il)), 1, 1, st[Buf::Conv(il, 0)])
                &&& takes(end[Buf::Conv(il, 1)], f(Weight::SsmKConv(il)), 1, 0, y(Weight::Wk(il)))
                &&& takes(end[Buf::Conv(il, 1)], f(Weight::SsmKConv(il)), 1, 1, st[Buf::Conv(il, 1)])
                &&& takes(end[Buf::Conv(il, 2)], f(Weight::SsmVConv(il)), 1, 0, y(Weight::Wv(il)))
                &&& takes(end[Buf::Conv(il, 2)], f(Weight::SsmVConv(il)), 1, 1, st[Buf::Conv(il, 2)])
                &&& end[Buf::KCache(il)] == st[Buf::KCache(il)]
                &&& end[Buf::VCache(il)] == st[Buf::VCache(il)]
            }
            &&& w.kind == K3LayerKind::Mla ==> {
                &&& takes(end[Buf::KCache(il)], store, 0, 0, st[Buf::KCache(il)])
                &&& takes(end[Buf::KCache(il)], store, 0, 1, st[Buf::VCache(il)])
                &&& takes(end[Buf::VCache(il)], store, 1, 0, st[Buf::KCache(il)])
                &&& takes(end[Buf::VCache(il)], store, 1, 1, st[Buf::VCache(il)])
                &&& takes(
                    end[Buf::KCache(il)],
                    store,
                    0,
                    3,
                    on(
                        Kernel::Matmul {
                            w: Weight::MlaWkvAMqa(il),
                            n_in: s.n_embd,
                            n_out: (s.n_kv_lora + s.qk_rope) as u32,
                        },
                        x,
                    ),
                )
                &&& end[Buf::Ssm(il)] == st[Buf::Ssm(il)]
                &&& end[Buf::Conv(il, c)] == st[Buf::Conv(il, c)]
            }
        }),
{
}

} // verus!
