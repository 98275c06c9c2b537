//! A batch of tokens leaves what its tokens leave one by one.
//!
//! Runs are chains of stores: each link is what the functions of the forward pass and of the
//! experts say of one of their calls.
use vstd::prelude::*;

use super::compute;
use super::dense;
use super::dims::{K3LayerKind, K3Shape};
use super::forward;
use super::forward::TokenStep;
use super::kda;
use super::kernels::{Buf, Kernel};
use super::layer::KimiK3W;
use super::mla;
use super::moe;
use super::runtime;
use super::runtime::RuntimeSizes;
use crate::engine::program;
use crate::engine::program::Term;

verus! {

/// What outlives a token: windows, states and caches of the layers, and the logits.
pub open spec fn lasting(b: Buf) -> bool {
    b is Ssm || b is Conv || b is KCache || b is VCache || b == Buf::Logits
}

/// Two stores hold the same in everything that outlives a token.
pub open spec fn same_lasting(
    a: Map<Buf, Term<Buf, Kernel>>,
    b: Map<Buf, Term<Buf, Kernel>>,
) -> bool {
    forall|x: Buf| lasting(x) ==> #[trigger] a[x] == b[x]
}

/// From `m` to `end` the routed experts of layer `il` are computed and joined. What they give is
/// `y`.
pub open spec fn experts_done(
    s: K3Shape,
    il: u32,
    y: Term<Buf, Kernel>,
    m: Map<Buf, Term<Buf, Kernel>>,
    computed: Map<Buf, Term<Buf, Kernel>>,
    end: Map<Buf, Term<Buf, Kernel>>,
) -> bool {
    &&& computed[Buf::LatentNormed] == y
    &&& forall|b: Buf| !compute::gpu_writes(b) ==> #[trigger] computed[b] == m[b]
    &&& end[Buf::FfnOut] == moe::moe_output(
        s,
        il,
        computed[Buf::LatentNormed],
        computed[Buf::FfnInput],
    )
    &&& forall|b: Buf| !moe::join_writes(b) ==> #[trigger] end[b] == computed[b]
}

/// The stores within a layer: once it is entered, once its experts are computed, and once they are
/// joined.
pub struct LayerRun {
    pub entered: Map<Buf, Term<Buf, Kernel>>,
    pub computed: Map<Buf, Term<Buf, Kernel>>,
    pub joined: Map<Buf, Term<Buf, Kernel>>,
}

/// From `a` to `b` layer `il` is run by way of `r`. `experts` is what the experts of a layer give
/// for the input of its feed-forward part.
pub open spec fn layer_by(
    s: K3Shape,
    w: KimiK3W,
    il: u32,
    pos: u32,
    ctx: u32,
    experts: spec_fn(u32, Term<Buf, Kernel>) -> Term<Buf, Kernel>,
    a: Map<Buf, Term<Buf, Kernel>>,
    r: LayerRun,
    b: Map<Buf, Term<Buf, Kernel>>,
) -> bool {
    &&& forward::entered(s, w, il, pos, ctx, a, r.entered)
    &&& il < s.n_leading_dense ==> r.joined == r.entered
    &&& il >= s.n_leading_dense ==> experts_done(
        s,
        il,
        experts(il, r.entered[Buf::FfnInput]),
        r.entered,
        r.computed,
        r.joined,
    )
    &&& b == r.joined.insert(
        Buf::Cur,
        program::ap2(
            Kernel::Add { n: s.n_embd },
            r.joined[Buf::Cur],
            r.joined[Buf::FfnOut],
        ),
    )
}

/// From `a` to `b` layer `il` is run.
pub open spec fn layer_done(
    s: K3Shape,
    w: KimiK3W,
    il: u32,
    pos: u32,
    ctx: u32,
    experts: spec_fn(u32, Term<Buf, Kernel>) -> Term<Buf, Kernel>,
    a: Map<Buf, Term<Buf, Kernel>>,
    b: Map<Buf, Term<Buf, Kernel>>,
) -> bool {
    exists|r: LayerRun| layer_by(s, w, il, pos, ctx, experts, a, r, b)
}

/// The kinds of the layers.
pub open spec fn kinds_of(layers: Seq<KimiK3W>) -> Seq<K3LayerKind> {
    layers.map_values(|w: KimiK3W| w.kind)
}

/// From `a` to `z` a sequence begins anew where a token is its first.
pub open spec fn begun(
    layers: Seq<KimiK3W>,
    sizes: RuntimeSizes,
    pos: u32,
    a: Map<Buf, Term<Buf, Kernel>>,
    z: Map<Buf, Term<Buf, Kernel>>,
) -> bool {
    if pos == 0 {
        runtime::cleared(kinds_of(layers), sizes, a, z)
    } else {
        z == a
    }
}

/// From `a` to `b` a token is run through all layers: `z` is the store once the sequence has begun,
/// `v[0]` that behind the token's embedding, `v[i]` that behind the first `i` layers.
pub open spec fn token_by(
    s: K3Shape,
    layers: Seq<KimiK3W>,
    sizes: RuntimeSizes,
    step: TokenStep,
    ctx: u32,
    experts: spec_fn(u32, Term<Buf, Kernel>) -> Term<Buf, Kernel>,
    a: Map<Buf, Term<Buf, Kernel>>,
    z: Map<Buf, Term<Buf, Kernel>>,
    v: Seq<Map<Buf, Term<Buf, Kernel>>>,
    b: Map<Buf, Term<Buf, Kernel>>,
) -> bool {
    &&& v.len() == s.n_exec_layer + 1
    &&& begun(layers, sizes, step.pos, a, z)
    &&& forward::started(s, step.token, z, v[0])
    &&& forall|il: int|
        0 <= il < s.n_exec_layer ==> #[trigger] layer_done(
            s,
            layers[il],
            il as u32,
            step.pos,
            ctx,
            experts,
            v[il],
            v[il + 1],
        )
    &&& forward::finished(
        s,
        forward::bank_after(s, s.n_exec_layer as int) as u32,
        step.rows,
        v[s.n_exec_layer as int],
        b,
    )
}

/// From `a` to `b` a token is run.
pub open spec fn token_done(
    s: K3Shape,
    layers: Seq<KimiK3W>,
    sizes: RuntimeSizes,
    step: TokenStep,
    ctx: u32,
    experts: spec_fn(u32, Term<Buf, Kernel>) -> Term<Buf, Kernel>,
    a: Map<Buf, Term<Buf, Kernel>>,
    b: Map<Buf, Term<Buf, Kernel>>,
) -> bool {
    exists|z: Map<Buf, Term<Buf, Kernel>>, v: Seq<Map<Buf, Term<Buf, Kernel>>>|
        token_by(s, layers, sizes, step, ctx, experts, a, z, v, b)
}

/// `v` are the stores of a batch: `v[i]` is that behind its first `i` tokens.
pub open spec fn batch_by(
    s: K3Shape,
    layers: Seq<KimiK3W>,
    sizes: RuntimeSizes,
    tokens: Seq<u32>,
    pos0: u32,
    rows: u32,
    ctx: u32,
    experts: spec_fn(u32, Term<Buf, Kernel>) -> Term<Buf, Kernel>,
    v: Seq<Map<Buf, Term<Buf, Kernel>>>,
) -> bool {
    &&& v.len() == tokens.len() + 1
    &&& forall|i: int|
        0 <= i < tokens.len() ==> #[trigger] token_done(
            s,
            layers,
            sizes,
            forward::step_of(tokens, i, pos0, rows),
            ctx,
            experts,
            v[i],
            v[i + 1],
        )
}

/// The stores are alike for a token on its way: in what lasts, in the residual stream, and in the
/// first `len` snapshots.
spec fn alike(
    a: Map<Buf, Term<Buf, Kernel>>,
    b: Map<Buf, Term<Buf, Kernel>>,
    len: int,
) -> bool {
    &&& same_lasting(a, b)
    &&& a[Buf::Cur] == b[Buf::Cur]
    &&& forall|i: u32| i < len ==> #[trigger] a[Buf::Bank(i)] == b[Buf::Bank(i)]
}

proof fn lemma_mixed(
    s: K3Shape,
    a: Map<Buf, Term<Buf, Kernel>>,
    b: Map<Buf, Term<Buf, Kernel>>,
    len: u32,
)
    requires
        alike(a, b, len as int),
    ensures
        program::contents(a, dense::residual_rows(len)) == program::contents(
            b,
            dense::residual_rows(len),
        ),
{
    let rows = dense::residual_rows(len);
    assert forall|i: int| 0 <= i < rows.len() implies a[#[trigger] rows[i]] == b[rows[i]] by {
        if i < len {
            assert(rows[i] == Buf::Bank(i as u32));
        }
    }
    assert(program::contents(a, rows) =~= program::contents(b, rows));
}

#[verifier::rlimit(40)]
proof fn lemma_layer(
    s: K3Shape,
    w: KimiK3W,
    il: u32,
    pos: u32,
    ctx: u32,
    experts: spec_fn(u32, Term<Buf, Kernel>) -> Term<Buf, Kernel>,
    a: Map<Buf, Term<Buf, Kernel>>,
    b: Map<Buf, Term<Buf, Kernel>>,
    a1: Map<Buf, Term<Buf, Kernel>>,
    b1: Map<Buf, Term<Buf, Kernel>>,
)
    requires
        il < u32::MAX,
        layer_done(s, w, il, pos, ctx, experts, a, b),
        layer_done(s, w, il, pos, ctx, experts, a1, b1),
        alike(a, a1, forward::bank_after(s, il as int)),
    ensures
        alike(b, b1, forward::bank_after(s, il + 1)),
{
    let r = choose|r: LayerRun| layer_by(s, w, il, pos, ctx, experts, a, r, b);
    let r1 = choose|r: LayerRun| layer_by(s, w, il, pos, ctx, experts, a1, r, b1);
    forward::law_snapshots(s, il as int);
    forward::law_snapshots(s, il + 1);
    let len = forward::bank_after(s, il as int) as u32;
    let next = forward::bank_after(s, il + 1) as u32;
    lemma_mixed(s, a, a1, len);
    let x = forward::attention_input(s, il, a, len);
    assert(x == forward::attention_input(s, il, a1, len));
    let at = a.insert(Buf::StNormed, x);
    let at1 = a1.insert(Buf::StNormed, x);
    match w.kind {
        K3LayerKind::Kda => {
            assert(kda::recurrence(s, il, at, 0) == kda::recurrence(s, il, at1, 0));
            assert(kda::recurrence(s, il, at, 1) == kda::recurrence(s, il, at1, 1));
            assert(kda::kda_output(s, il, at) == kda::kda_output(s, il, at1));
        },
        K3LayerKind::Mla => {
            let d = s.mla_dims();
            assert(mla::cached(d, il, at, pos, ctx, 0) == mla::cached(d, il, at1, pos, ctx, 0));
            assert(mla::cached(d, il, at, pos, ctx, 1) == mla::cached(d, il, at1, pos, ctx, 1));
            assert(mla::mla_output(d, il, at, pos, ctx) == mla::mla_output(d, il, at1, pos, ctx));
        },
    }
    assert forall|i: u32| i < next implies forward::bank_row(s, il, a, i) == forward::bank_row(
        s,
        il,
        a1,
        i,
    ) by {
        if i < len {
            assert(a[Buf::Bank(i)] == a1[Buf::Bank(i)]);
        }
    }
    let stream = r.entered[Buf::Cur];
    assert(stream == r1.entered[Buf::Cur]);
    assert(forward::ffn_rows(s, il, a, stream, next) =~= forward::ffn_rows(
        s,
        il,
        a1,
        stream,
        next,
    ));
    assert(r.entered[Buf::FfnInput] == r1.entered[Buf::FfnInput]);
    assert(r.joined[Buf::FfnOut] == r1.joined[Buf::FfnOut]);
    assert(r.joined[Buf::Cur] == r.entered[Buf::Cur]);
    assert(r1.joined[Buf::Cur] == r1.entered[Buf::Cur]);
    assert forall|y: Buf| lasting(y) implies #[trigger] b[y] == b1[y] by {
        assert(b[y] == r.joined[y] && b1[y] == r1.joined[y]);
        assert(r.joined[y] == r.entered[y] && r1.joined[y] == r1.entered[y]);
        assert(a[y] == a1[y]);
        if forward::layer_writes(y, il) {
            assert(r.entered[y] == r1.entered[y]);
        }
    }
    assert forall|i: u32| i < next implies #[trigger] b[Buf::Bank(i)] == b1[Buf::Bank(i)] by {
        assert(b[Buf::Bank(i)] == r.entered[Buf::Bank(i)]);
        assert(b1[Buf::Bank(i)] == r1.entered[Buf::Bank(i)]);
    }
}

proof fn lemma_layers(
    s: K3Shape,
    layers: Seq<KimiK3W>,
    sizes: RuntimeSizes,
    step: TokenStep,
    ctx: u32,
    experts: spec_fn(u32, Term<Buf, Kernel>) -> Term<Buf, Kernel>,
    a: Map<Buf, Term<Buf, Kernel>>,
    z: Map<Buf, Term<Buf, Kernel>>,
    v: Seq<Map<Buf, Term<Buf, Kernel>>>,
    b: Map<Buf, Term<Buf, Kernel>>,
    a1: Map<Buf, Term<Buf, Kernel>>,
    z1: Map<Buf, Term<Buf, Kernel>>,
    v1: Seq<Map<Buf, Term<Buf, Kernel>>>,
    b1: Map<Buf, Term<Buf, Kernel>>,
    n: int,
)
    requires
        token_by(s, layers, sizes, step, ctx, experts, a, z, v, b),
        token_by(s, layers, sizes, step, ctx, experts, a1, z1, v1, b1),
        same_lasting(z, z1),
        0 <= n <= s.n_exec_layer,
    ensures
        alike(v[n], v1[n], forward::bank_after(s, n)),
    decreases n,
{
    if n == 0 {
        forward::law_snapshots(s, 0);
        assert forall|x: Buf| lasting(x) implies #[trigger] v[0][x] == v1[0][x] by {
            assert(z[x] == z1[x]);
        }
    } else {
        lemma_layers(s, layers, sizes, step, ctx, experts, a, z, v, b, a1, z1, v1, b1, n - 1);
        let il = (n - 1) as u32;
        assert(layer_done(s, layers[n - 1], il, step.pos, ctx, experts, v[n - 1], v[n - 1 + 1]));
        assert(layer_done(s, layers[n - 1], il, step.pos, ctx, experts, v1[n - 1], v1[n - 1 + 1]));
        lemma_layer(
            s,
            layers[n - 1],
            il,
            step.pos,
            ctx,
            experts,
            v[n - 1],
            v[n],
            v1[n - 1],
            v1[n],
        );
    }
}

/// What a token leaves, and its logits, depend on what lasts of the store before it, and on nothing
/// else there.
pub proof fn law_token(
    s: K3Shape,
    layers: Seq<KimiK3W>,
    sizes: RuntimeSizes,
    step: TokenStep,
    ctx: u32,
    experts: spec_fn(u32, Term<Buf, Kernel>) -> Term<Buf, Kernel>,
    a: Map<Buf, Term<Buf, Kernel>>,
    b: Map<Buf, Term<Buf, Kernel>>,
    a1: Map<Buf, Term<Buf, Kernel>>,
    b1: Map<Buf, Term<Buf, Kernel>>,
)
    requires
        token_done(s, layers, sizes, step, ctx, experts, a, b),
        token_done(s, layers, sizes, step, ctx, experts, a1, b1),
        same_lasting(a, a1),
    ensures
        same_lasting(b, b1),
{
    let (z, v) = choose|z: Map<Buf, Term<Buf, Kernel>>, v: Seq<Map<Buf, Term<Buf, Kernel>>>|
        token_by(s, layers, sizes, step, ctx, experts, a, z, v, b);
    let (z1, v1) = choose|z: Map<Buf, Term<Buf, Kernel>>, v: Seq<Map<Buf, Term<Buf, Kernel>>>|
        token_by(s, layers, sizes, step, ctx, experts, a1, z, v, b1);
    assert(same_lasting(z, z1)) by {
        assert forall|x: Buf| lasting(x) implies #[trigger] z[x] == z1[x] by {
            assert(a[x] == a1[x]);
            match x {
                Buf::Conv(il, c) => {
                    assert(z[Buf::Conv(il, c)] == z1[Buf::Conv(il, c)]);
                },
                Buf::Ssm(il) => {
                    assert(z[Buf::Ssm(il)] == z1[Buf::Ssm(il)]);
                },
                _ => {},
            }
        }
    }
    let n = s.n_exec_layer as int;
    let len = forward::bank_after(s, n);
    lemma_layers(s, layers, sizes, step, ctx, experts, a, z, v, b, a1, z1, v1, b1, n);
    forward::law_snapshots(s, n);
    lemma_mixed(s, v[n], v1[n], len as u32);
    assert forall|x: Buf| lasting(x) implies #[trigger] b[x] == b1[x] by {
        assert(v[n][x] == v1[n][x]);
    }
}

/// Rows of logits that token `i` of a batch of `n` is asked for as a batch of its own.
pub open spec fn rows_alone(n: int, i: int, rows: u32) -> u32 {
    if i < n - 1 {
        0
    } else if rows > 1 {
        1
    } else {
        rows
    }
}

/// From `alone[i]` to `alone[i + 1]` token `i` of a batch is run as a batch of its own.
pub open spec fn alone_by(
    s: K3Shape,
    layers: Seq<KimiK3W>,
    sizes: RuntimeSizes,
    tokens: Seq<u32>,
    pos0: u32,
    rows: u32,
    ctx: u32,
    experts: spec_fn(u32, Term<Buf, Kernel>) -> Term<Buf, Kernel>,
    alone: Seq<Map<Buf, Term<Buf, Kernel>>>,
    i: int,
) -> bool {
    batch_by(
        s,
        layers,
        sizes,
        seq![tokens[i]],
        (pos0 + i) as u32,
        rows_alone(tokens.len() as int, i, rows),
        ctx,
        experts,
        seq![alone[i], alone[i + 1]],
    )
}

/// A batch of several tokens leaves what its tokens leave as batches of their own, each behind the
/// one before: the same windows, states and caches, and the same logits. Only the last is asked for
/// logits, and for at most one row.
pub proof fn law_batch(
    s: K3Shape,
    layers: Seq<KimiK3W>,
    sizes: RuntimeSizes,
    tokens: Seq<u32>,
    pos0: u32,
    rows: u32,
    ctx: u32,
    experts: spec_fn(u32, Term<Buf, Kernel>) -> Term<Buf, Kernel>,
    v: Seq<Map<Buf, Term<Buf, Kernel>>>,
    alone: Seq<Map<Buf, Term<Buf, Kernel>>>,
)
    requires
        tokens.len() >= 2,
        pos0 + tokens.len() <= u32::MAX,
        batch_by(s, layers, sizes, tokens, pos0, rows, ctx, experts, v),
        alone.len() == tokens.len() + 1,
        forall|i: int|
            0 <= i < tokens.len() ==> #[trigger] alone_by(
                s,
                layers,
                sizes,
                tokens,
                pos0,
                rows,
                ctx,
                experts,
                alone,
                i,
            ),
        same_lasting(v[0], alone[0]),
    ensures
        forall|i: int| 0 <= i <= tokens.len() ==> #[trigger] same_lasting(v[i], alone[i]),
        same_lasting(v.last(), alone.last()),
{
    assert forall|i: int| 0 <= i <= tokens.len() implies #[trigger] same_lasting(v[i], alone[i]) by {
        lemma_batch(s, layers, sizes, tokens, pos0, rows, ctx, experts, v, alone, i);
    }
    assert(same_lasting(v[tokens.len() as int], alone[tokens.len() as int]));
}

proof fn lemma_batch(
    s: K3Shape,
    layers: Seq<KimiK3W>,
    sizes: RuntimeSizes,
    tokens: Seq<u32>,
    pos0: u32,
    rows: u32,
    ctx: u32,
    experts: spec_fn(u32, Term<Buf, Kernel>) -> Term<Buf, Kernel>,
    v: Seq<Map<Buf, Term<Buf, Kernel>>>,
    alone: Seq<Map<Buf, Term<Buf, Kernel>>>,
    n: int,
)
    requires
        tokens.len() >= 2,
        pos0 + tokens.len() <= u32::MAX,
        batch_by(s, layers, sizes, tokens, pos0, rows, ctx, experts, v),
        alone.len() == tokens.len() + 1,
        forall|i: int|
            0 <= i < tokens.len() ==> #[trigger] alone_by(
                s,
                layers,
                sizes,
                tokens,
                pos0,
                rows,
                ctx,
                experts,
                alone,
                i,
            ),
        same_lasting(v[0], alone[0]),
        0 <= n <= tokens.len(),
    ensures
        same_lasting(v[n], alone[n]),
    decreases n,
{
    if n > 0 {
        let i = n - 1;
        lemma_batch(s, layers, sizes, tokens, pos0, rows, ctx, experts, v, alone, i);
        let step = forward::step_of(tokens, i, pos0, rows);
        let one = seq![tokens[i]];
        let pair = seq![alone[i], alone[i + 1]];
        let k = rows_alone(tokens.len() as int, i, rows);
        assert(token_done(s, layers, sizes, step, ctx, experts, v[i], v[i + 1]));
        assert(alone_by(s, layers, sizes, tokens, pos0, rows, ctx, experts, alone, i));
        assert(forward::step_of(one, 0, (pos0 + i) as u32, k) == step);
        assert(token_done(
            s,
            layers,
            sizes,
            forward::step_of(one, 0, (pos0 + i) as u32, k),
            ctx,
            experts,
            pair[0],
            pair[0int + 1],
        ));
        law_token(s, layers, sizes, step, ctx, experts, v[i], v[i + 1], alone[i], alone[i + 1]);
    }
}

} // verus!
