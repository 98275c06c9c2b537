//! What decides where experts are computed, which are chosen, how batches are cut, and how sizes
//! follow from the shape.
use vstd::prelude::*;

use super::dsv4::forward as dsv4_forward;
use super::dsv4::lanes;
use super::dsv4::layer as dsv4_layer;
use super::dsv4::layer::{At as DsAt, LayerRt as DsLayerRt, LayerW as DsLayerW};
use super::dsv4::runtime as dsv4_runtime;
use super::groups;
use super::kernels::{Buf, Kernel};
use super::moe;
use super::plan;
use super::plan::{ExpertPtrs, Experts, Holdings, Home};
use super::qwen35::draft;
use super::qwen35::forward as qwen35_forward;
use super::qwen35::generate;
use super::qwen35::generate::Generation;
use super::qwen35::layer as qwen35_layer;
use super::qwen35::layer::{At as QwAt, LayerRt as QwLayerRt, LayerW as QwLayerW};
use super::qwen35::rollback;
use super::qwen35::runtime as qwen35_runtime;
use super::select;
use super::shape::Shape;
use crate::engine::experts;
use crate::engine::experts::SlabOffsets;
use crate::engine::program::Term;
use crate::fp;
use crate::gguf::model;
use crate::gguf::value::Val;
use crate::stream::Read;

verus! {

/// The experts of a token are those of its row of the table where there is one, in the table's order.
pub proof fn law_table_decides(score: Seq<u32>, t: Seq<i32>, token: u32, k: nat, j: int)
    requires
        0 <= j < k,
        token * k + k <= t.len(),
    ensures
        select::selection(score, Some(t), token, k).len() == k,
        select::selection(score, Some(t), token, k)[j] == t[token * k + j],
{
    assert(token * k >= 0) by (nonlinear_arith)
        requires
            token >= 0,
            k >= 0,
    ;
}

/// Without a table the experts are the best by score: a chosen one scores at least as high as any
/// that is not, the better ones come first, and of two that score alike the one with the lower number
/// counts as better. Where there are too few, the rest is marked as none.
pub proof fn law_scores_decide(score: Seq<u32>, token: u32, k: nat, a: int, b: int, c: int)
    requires
        forall|i: int| 0 <= i < score.len() ==> !fp::is_nan(#[trigger] score[i]),
        score.len() <= i32::MAX,
        0 <= a < b < k,
        0 <= c < score.len(),
    ensures
        ({
            let s = select::selection(score, None, token, k);
            &&& s.len() == k
            &&& b < score.len() ==> {
                &&& 0 <= s[a] < score.len()
                &&& 0 <= s[b] < score.len()
                &&& s[a] != s[b]
                &&& fp::rank(score[s[a] as int]) >= fp::rank(score[s[b] as int])
                &&& fp::rank(score[s[a] as int]) == fp::rank(score[s[b] as int]) ==> s[a] < s[b]
                &&& !s.contains(c as i32) ==> !fp::gt(score[c], score[s[b] as int])
            }
            &&& b >= score.len() ==> s[b] == -1
        }),
{
    let n = score.len() as int;
    let r = select::ranked(score, n, k);
    select::law_topk(score, n, k);
    let s = select::selection(score, None, token, k);
    select::lemma_ranked(score, n, k);
    if b < n {
        assert(select::outranks(score, r[a], r[b]));
        assert(s[a] == r[a] as i32 && s[b] == r[b] as i32);
        if !s.contains(c as i32) {
            if r.contains(c) {
                let j = choose|j: int| 0 <= j < r.len() && r[j] == c;
                assert(s[j] == c as i32);
            }
            assert(select::outranks(score, r[b], c));
        }
    }
}

/// A selection is faulty exactly where one of its experts does not exist.
pub proof fn law_strays(s: Seq<i32>, n: int)
    ensures
        !select::strays(s, n) <==> forall|j: int| 0 <= j < s.len() ==> 0 <= #[trigger] s[j] < n,
{
}

/// An expert is computed on the first tier that holds all three of its slabs, with that tier's
/// handles.
pub proof fn law_tier_first(h: Holdings, o: SlabOffsets, t: int)
    requires
        0 <= t < h.tiers@.len(),
        t <= usize::MAX,
        plan::holds_all(h.tiers@[t]@, o),
        forall|i: int| 0 <= i < t ==> !plan::holds_all((#[trigger] h.tiers@[i])@, o),
    ensures
        h.home(o) == Home::Tier(
            t as usize,
            (ExpertPtrs {
                gate: h.tiers@[t]@[o.gate],
                up: h.tiers@[t]@[o.up],
                down: h.tiers@[t]@[o.down],
            }),
        ),
{
    lemma_tier(h, o, 0, t);
}

proof fn lemma_tier(h: Holdings, o: SlabOffsets, i: int, t: int)
    requires
        0 <= i <= t <= h.tiers@.len(),
        t < h.tiers@.len() ==> plan::holds_all(h.tiers@[t]@, o),
        forall|j: int| i <= j < t ==> !plan::holds_all((#[trigger] h.tiers@[j])@, o),
    ensures
        plan::tier_of(h.tiers@, o, i) == if t < h.tiers@.len() {
            Some(t)
        } else {
            None
        },
    decreases t - i,
{
    if i < t {
        assert(!plan::holds_all(h.tiers@[i]@, o));
        lemma_tier(h, o, i + 1, t);
    }
}

/// An expert that no tier holds is computed on the host exactly where the host computes experts and
/// holds all three of its slabs, drafting does not keep it, and either none of its slabs is in the
/// device's cache or the host takes those too. Otherwise it is computed on the primary device.
pub proof fn law_host_or_primary(h: Holdings, o: SlabOffsets)
    requires
        forall|i: int| 0 <= i < h.tiers@.len() ==> !plan::holds_all((#[trigger] h.tiers@[i])@, o),
    ensures
        ({
            let device = h.dev@.contains_key(o.gate) || h.dev@.contains_key(o.up)
                || h.dev@.contains_key(o.down);
            let host = h.cpu_on && h.host@.contains_key(o.gate) && h.host@.contains_key(o.up)
                && h.host@.contains_key(o.down) && !h.draft@.contains_key(o.gate) && (h.steal
                || !device);
            h.home(o) == if host {
                Home::Host(
                    (ExpertPtrs {
                        gate: h.host@[o.gate],
                        up: h.host@[o.up],
                        down: h.host@[o.down],
                    }),
                )
            } else {
                Home::Primary
            }
        }),
{
    lemma_tier(h, o, 0, h.tiers@.len() as int);
}

/// The host's lane takes each expert that is computed on the host, with its handles, in order, and
/// pins its three slabs; it takes no other.
pub proof fn law_lane(list: Seq<i32>, e: i32, h: Holdings, x: Experts)
    ensures
        plan::lane_of(Seq::empty(), h, x) == Seq::<(i32, ExpertPtrs)>::empty(),
        plan::pins_of(Seq::empty(), h, x) == Seq::<u64>::empty(),
        h.home(x.slabs(e)) matches Home::Host(p) ==> {
            &&& plan::lane_of(list.push(e), h, x) == plan::lane_of(list, h, x).push((e, p))
            &&& plan::pins_of(list.push(e), h, x) == plan::pins_of(list, h, x) + seq![
                x.slabs(e).gate,
                x.slabs(e).up,
                x.slabs(e).down,
            ]
        },
        !(h.home(x.slabs(e)) is Host) ==> plan::lane_of(list.push(e), h, x) == plan::lane_of(
            list,
            h,
            x,
        ) && plan::pins_of(list.push(e), h, x) == plan::pins_of(list, h, x),
{
    assert(list.push(e).drop_last() =~= list);
}

/// The slabs that are read are those of the experts of the place that asks: the three of each, whole,
/// at their places in the file.
pub proof fn law_slabs_read(list: Seq<i32>, e: i32, h: Holdings, x: Experts)
    ensures
        plan::reads_of(e, x).len() == 3,
        plan::reads_of(e, x)[0] == (Read { offset: x.slabs(e).gate, len: x.gate.expert_bytes }),
        plan::reads_of(e, x)[1] == (Read { offset: x.slabs(e).up, len: x.up.expert_bytes }),
        plan::reads_of(e, x)[2] == (Read { offset: x.slabs(e).down, len: x.down.expert_bytes }),
        h.home(x.slabs(e)) is Primary ==> plan::slabs_at(list.push(e), h, x, false)
            == plan::slabs_at(list, h, x, false) + plan::reads_of(e, x) && plan::slabs_at(
            list.push(e),
            h,
            x,
            true,
        ) == plan::slabs_at(list, h, x, true),
        h.home(x.slabs(e)) is Tier ==> plan::slabs_at(list.push(e), h, x, true) == plan::slabs_at(
            list,
            h,
            x,
            true,
        ) + plan::reads_of(e, x) && plan::slabs_at(list.push(e), h, x, false) == plan::slabs_at(
            list,
            h,
            x,
            false,
        ),
        h.home(x.slabs(e)) is Host ==> plan::slabs_at(list.push(e), h, x, true) == plan::slabs_at(
            list,
            h,
            x,
            true,
        ) && plan::slabs_at(list.push(e), h, x, false) == plan::slabs_at(list, h, x, false),
{
    assert(list.push(e).drop_last() =~= list);
}

/// What the cache has is not read again, unless memory is shared, where everything is asked for.
pub proof fn law_unserved(reads: Seq<Read>, hit: Seq<bool>, n: int)
    requires
        0 <= n < reads.len(),
        n < hit.len(),
    ensures
        plan::unserved(reads, hit, false, 0) == Seq::<Read>::empty(),
        hit[n] ==> plan::unserved(reads, hit, false, n + 1) == plan::unserved(reads, hit, false, n),
        !hit[n] ==> plan::unserved(reads, hit, false, n + 1) == plan::unserved(
            reads,
            hit,
            false,
            n,
        ).push(reads[n]),
        plan::unserved(reads, hit, true, n + 1) == plan::unserved(reads, hit, true, n).push(
            reads[n],
        ),
{
}

/// A slot holds the handles of its expert exactly in the place where that is computed, and none
/// elsewhere; a slot without an expert holds none anywhere.
pub proof fn law_slot_handles(e: i32, h: Holdings, x: Experts, m: Map<u64, u64>, t: int)
    ensures
        !(0 <= e < x.n_expert) ==> plan::primary_slot(e, h, x, m) == plan::null()
            && plan::tier_slot(e, h, x, t) == plan::null(),
        plan::null() == (ExpertPtrs { gate: 0, up: 0, down: 0 }),
        0 <= e < x.n_expert && h.home(x.slabs(e)) is Primary ==> plan::primary_slot(e, h, x, m) == (
        ExpertPtrs {
            gate: m[x.slabs(e).gate],
            up: m[x.slabs(e).up],
            down: m[x.slabs(e).down],
        }) && plan::tier_slot(e, h, x, t) == plan::null(),
        0 <= e < x.n_expert ==> (h.home(x.slabs(e)) matches Home::Tier(k, p) ==> {
            &&& plan::primary_slot(e, h, x, m) == plan::null()
            &&& k == t ==> plan::tier_slot(e, h, x, t) == p
            &&& k != t ==> plan::tier_slot(e, h, x, t) == plan::null()
        }),
        h.home(x.slabs(e)) is Host ==> plan::primary_slot(e, h, x, m) == plan::null()
            && plan::tier_slot(e, h, x, t) == plan::null(),
{
}

/// The slabs of an expert lie at its number in each of its layer's three tensors.
pub proof fn law_slabs_of(x: Experts, e: i32)
    requires
        x.wf(),
        0 <= e < x.n_expert,
    ensures
        x.slabs(e).gate == x.gate.abs_offset + e * x.gate.expert_bytes,
        x.slabs(e).up == x.up.abs_offset + e * x.up.expert_bytes,
        x.slabs(e).down == x.down.abs_offset + e * x.down.expert_bytes,
{
    experts::lemma_holds(x.gate, e as int, x.n_expert as int);
    experts::lemma_holds(x.up, e as int, x.n_expert as int);
    experts::lemma_holds(x.down, e as int, x.n_expert as int);
    assert(e * x.gate.expert_bytes >= 0 && e * x.up.expert_bytes >= 0 && e * x.down.expert_bytes
        >= 0) by (nonlinear_arith)
        requires
            e >= 0,
            x.gate.expert_bytes >= 0,
            x.up.expert_bytes >= 0,
            x.down.expert_bytes >= 0,
    ;
}

/// The sizes of the shape are products of its counts: heads times their width, streams times the
/// width of one, and for the convolution queries, keys and values side by side.
pub proof fn law_widths(s: Shape)
    ensures
        s.q_dim() == s.n_head * s.head_dim,
        s.hc_dim() == s.n_hc * s.n_embd,
        s.key_dim() == s.ssm_k_heads * s.ssm_state,
        s.value_dim() == s.ssm_v_heads * s.ssm_state,
        s.conv_dim() == s.key_dim() + s.key_dim() + s.value_dim(),
{
}

/// A layer keeps compressed rows exactly where it has a ratio, and an index exactly where that is
/// four; a new sequence has none of either yet.
pub proof fn law_layer_begins(ratios: Seq<u32>, n: nat, i: int)
    requires
        0 <= i < n <= ratios.len(),
    ensures
        ({
            let l = dsv4_runtime::fresh(ratios, n)[i];
            &&& l.comp <==> ratios[i] > 0
            &&& l.idx <==> ratios[i] == 4
            &&& l.n_comp == 0
            &&& l.n_idx_comp == 0
        }),
{
}

/// A batch is refused exactly where it is empty, wants more than one row of logits, does not fit in
/// the context, or nothing is ready.
pub proof fn law_dsv4_batch(n: nat, pos0: u32, rows: u32, ctx: u32, ready: bool)
    ensures
        dsv4_forward::forward_fault(n, pos0, rows, ctx, ready) is None <==> n > 0 && rows <= 1
            && pos0 + n <= ctx && ready,
        dsv4_forward::head_fault(true, true) is None,
        dsv4_forward::head_fault(false, ready) is Some,
        dsv4_forward::head_fault(true, false) is Some,
{
}

/// A batch is refused exactly where it is empty, wants more rows of logits than a chunk has, does not
/// fit in the context, or nothing is ready.
pub proof fn law_qwen35_batch(n: nat, pos0: u32, rows: u32, ctx: u32, ready: bool)
    ensures
        qwen35_forward::forward_fault(n, pos0, rows, ctx, ready) is None <==> n > 0 && rows <= 16
            && pos0 + n <= ctx && ready,
{
}

/// A chunk takes sixteen tokens, or what is left.
pub proof fn law_chunk(from: int, n: int)
    requires
        0 <= from < n,
    ensures
        n - from >= 16 ==> dsv4_forward::chunk_len(from, n) == 16,
        n - from < 16 ==> dsv4_forward::chunk_len(from, n) == n - from,
{
}

/// Tokens go one by one exactly where there are more compressed rows than the index keeps; otherwise
/// the chunk goes as one.
pub proof fn law_one_by_one(n: int, pos0: u32, topk: u32, from: int)
    requires
        0 <= from < n,
    ensures
        ({
            let t = dsv4_forward::chunk_len(from, n);
            let s = dsv4_forward::steps_from(n, pos0, topk, from);
            let rest = dsv4_forward::steps_from(n, pos0, topk, from + t);
            &&& (pos0 + from + t) / 4 > topk ==> s == dsv4_forward::singles(from, t) + rest
            &&& (pos0 + from + t) / 4 <= topk ==> s.len() == 1 + rest.len() && s[0].t == t
                && s[0].from == from as usize
        }),
{
}

/// What a lane keeps: windows overlap at the ratio of four, where it keeps two of them, each with
/// both halves of a row; at other ratios one window of plain rows.
pub proof fn law_lane_sizes(ratio: nat, head_dim: nat)
    ensures
        ratio == 4 ==> lanes::lane_rows(ratio) == 8 && lanes::lane_width(ratio, head_dim) == 2
            * head_dim && lanes::lane_elems(ratio, head_dim) == 8 * (2 * head_dim),
        ratio != 4 ==> lanes::lane_rows(ratio) == ratio && lanes::lane_width(ratio, head_dim)
            == head_dim && lanes::lane_elems(ratio, head_dim) == ratio * head_dim,
{
}

/// A row is given out with the last token of each window, and as many have been as windows have
/// ended.
pub proof fn law_rows_given(ratio: nat, pos: nat)
    requires
        ratio > 0,
    ensures
        lanes::emits(ratio, pos) <==> pos % ratio == ratio - 1,
        lanes::ended(ratio, (pos + 1) as nat) == lanes::ended(ratio, pos) + if lanes::emits(
            ratio,
            pos,
        ) {
            1nat
        } else {
            0nat
        },
        !lanes::emits(0, pos),
        lanes::ended(0, pos) == 0,
{
    let q = pos / ratio;
    let r = pos % ratio;
    vstd::arithmetic::div_mod::lemma_fundamental_div_mod(pos as int, ratio as int);
    assert(ratio * q == q * ratio) by (nonlinear_arith);
    assert((q + 1) * ratio == q * ratio + ratio) by (nonlinear_arith);
    if r == ratio - 1 {
        vstd::arithmetic::div_mod::lemma_fundamental_div_mod_converse(
            pos as int + 1,
            ratio as int,
            q as int + 1,
            0,
        );
    } else {
        vstd::arithmetic::div_mod::lemma_fundamental_div_mod_converse(
            pos as int + 1,
            ratio as int,
            q as int,
            r as int + 1,
        );
    }
}

/// Drafted tokens are taken as long as each is the one that the model itself put behind the token
/// before it, and no further.
pub proof fn law_accepted(draft: Seq<u32>, target: Seq<u32>, i: int)
    requires
        1 <= i <= draft.len(),
    ensures
        ({
            let n = generate::accepted(draft, target, i);
            &&& i <= n <= draft.len()
            &&& forall|j: int| i <= j < n ==> #[trigger] draft[j] == target[j - 1]
            &&& n < draft.len() ==> draft[n] != target[n - 1]
        }),
    decreases draft.len() - i,
{
    if i < draft.len() && draft[i] == target[i - 1] {
        law_accepted(draft, target, i + 1);
    }
}

/// Tokens are given out up to the first that ends the text, and no more than are wanted.
pub proof fn law_given_out(stops: Seq<bool>, n: int, left: int, i: int)
    requires
        0 <= i <= n <= stops.len(),
        i <= left,
    ensures
        ({
            let e = generate::emitted(stops, n, left, i);
            &&& i <= e <= n
            &&& e <= left
            &&& forall|j: int| i <= j < e ==> !(#[trigger] stops[j])
            &&& e < n && e < left ==> stops[e]
        }),
    decreases n - i,
{
    if i < n && i < left && !stops[i] {
        law_given_out(stops, n, left, i + 1);
    }
}

/// Another round begins exactly where more is wanted, nothing has ended the text, and a block and
/// the token behind it fit in the context.
pub proof fn law_another_round(g: Generation, max: usize, block: usize, ctx: u32)
    ensures
        g.goes_on(max, block, ctx) <==> g.emitted < max && !g.stopped && g.committed + block + 1
            < ctx,
{
}

/// A layer of compressed attention changes what lasts of itself alone, and so does one of full or
/// delta-rule attention; the experts touch nothing that lasts.
pub proof fn law_layers_apart(a: DsAt, other: u32, il: u32, flag: bool)
    requires
        a.il != other,
        il != other,
    ensures
        ({
            let lasting = seq![
                Buf::KCache(other),
                Buf::VCache(other),
                Buf::LaneKv(other, flag),
                Buf::LaneSc(other, flag),
                Buf::IdxCache(other),
                Buf::GdnS(other),
                Buf::GdnConv(other),
                Buf::Logits,
            ];
            forall|k: int|
                0 <= k < lasting.len() ==> {
                    let b = #[trigger] lasting[k];
                    &&& !dsv4_layer::attention_writes(a, b)
                    &&& !dsv4_layer::router_writes(b)
                    &&& !dsv4_layer::ffn_writes(a, b)
                    &&& !qwen35_layer::mix_writes(il, b)
                    &&& !qwen35_layer::route_writes(b)
                    &&& !qwen35_layer::join_writes(b)
                    &&& !moe::experts_write(b)
                }
        }),
        !qwen35_layer::gdn_writes(il, Buf::KCache(il)),
        !qwen35_layer::gdn_writes(il, Buf::VCache(il)),
        !qwen35_layer::attn_writes(il, Buf::GdnS(il)),
        !qwen35_layer::attn_writes(il, Buf::GdnConv(il)),
        !qwen35_layer::mix_writes(il, Buf::Cur),
        !qwen35_layer::route_writes(Buf::Cur),
        !qwen35_layer::mix_writes(il, Buf::SnapS(il)),
        !qwen35_layer::mix_writes(il, Buf::SnapConv(il)),
        !dsv4_layer::attention_writes(a, Buf::Hc(a.hc)),
        !dsv4_layer::ffn_writes(a, Buf::Hc(a.hc)),
        !moe::experts_write(Buf::Normed),
        !moe::experts_write(Buf::Xq),
        !moe::experts_write(Buf::RouterWeights),
        !moe::experts_write(Buf::SharedOut),
{
}

/// A layer of compressed attention can run exactly where it has its weights, the unit weights are
/// there, and there is state for its compressor and for its index.
pub proof fn law_compressed_ready(l: DsLayerW, rt: DsLayerRt, ones: bool)
    ensures
        dsv4_layer::attention_fault(l, rt, ones) is None <==> (l.attn matches Some(w) && ones && (
        w.comp is Some ==> rt.comp) && (w.idx is Some ==> rt.idx)),
        dsv4_layer::router_fault(l, ones) is None <==> ones && l.moe is Some,
{
}

/// A layer can run exactly where it has the weights of one of the two attentions and, for the delta
/// rule, its state and room for what is to be kept.
pub proof fn law_mix_ready(l: QwLayerW, rt: QwLayerRt)
    ensures
        qwen35_layer::mix_fault(l, rt) is None <==> (l.attn matches Some(w) && if w.gdn {
            rt.state && (rt.keep ==> rt.stash)
        } else {
            w.attn
        }),
{
}

/// The delta rule's inputs are kept exactly where that is asked for and there is room.
pub proof fn law_inputs_kept(
    s: Shape,
    rt: QwLayerRt,
    a: QwAt,
    y: Term<Buf, Kernel>,
    st: Map<Buf, Term<Buf, Kernel>>,
    end: Map<Buf, Term<Buf, Kernel>>,
)
    requires
        qwen35_layer::stashed(s, rt, a, y, st, end),
    ensures
        rt.keep && rt.stash ==> end[Buf::StashQkv(a.il)] == qwen35_layer::raw_qkv(s, a, y)
            && end[Buf::StashG(a.il)] == qwen35_layer::coefficient(s, a, y, 0)
            && end[Buf::StashBeta(a.il)] == qwen35_layer::coefficient(s, a, y, 1),
        !rt.keep || !rt.stash ==> end[Buf::StashQkv(a.il)] == st[Buf::StashQkv(a.il)]
            && end[Buf::StashG(a.il)] == st[Buf::StashG(a.il)] && end[Buf::StashBeta(a.il)]
            == st[Buf::StashBeta(a.il)],
{
}

/// A layer's input is captured at the place of its number in the list, and where it is not listed it
/// is not captured.
pub proof fn law_captured_at(ids: Seq<u64>, il: u64, i: int, k: int)
    requires
        0 <= i <= k <= ids.len(),
        forall|j: int| i <= j < k ==> ids[j] != il,
    ensures
        k < ids.len() && ids[k] == il ==> qwen35_layer::captured_at(ids, il, i) == Some(k),
        k == ids.len() ==> qwen35_layer::captured_at(ids, il, i) is None,
    decreases k - i,
{
    if i < k {
        assert(ids[i] != il);
        law_captured_at(ids, il, i + 1, k);
    }
}

/// Rolling back fails exactly where tokens are kept and a layer with a state lacks its weights.
pub proof fn law_rollback_ready(states: Seq<bool>, layers: Seq<QwLayerW>, accept: u32, n: int)
    requires
        0 <= n <= states.len(),
        n <= layers.len(),
    ensures
        rollback::rollback_fault(states, layers, accept, n) is None <==> forall|i: int|
            0 <= i < n && #[trigger] states[i] && accept > 0 ==> (layers[i].attn matches Some(w)
                && w.gdn),
    decreases n,
{
    if n > 0 {
        law_rollback_ready(states, layers, accept, n - 1);
        let here = states[n - 1] && accept > 0 ==> (layers[n - 1].attn matches Some(w) && w.gdn);
        if rollback::rollback_fault(states, layers, accept, n - 1) is None && here {
            assert forall|i: int| 0 <= i < n && #[trigger] states[i] && accept > 0 implies (
            layers[i].attn matches Some(w) && w.gdn) by {
                if i < n - 1 {
                    assert(states[i]);
                }
            }
        }
    }
}

/// Tokens are picked row by row, each the greatest of its own row.
pub proof fn law_picks(values: Seq<u32>, v: int, n: nat, i: int)
    requires
        0 <= i < n,
    ensures
        generate::picks(values, v, n).len() == n,
        generate::picks(values, v, n)[i] == generate::greatest(
            values.subrange(i * v, (i + 1) * v),
            v,
        ) as u32,
{
}

/// A round fixes the accepted tokens, goes on from the model's own token behind them, and counts the
/// drafted ones without the first, which was not drafted.
pub proof fn law_round(
    g: Generation,
    next: Generation,
    draft: Seq<u32>,
    target: Seq<u32>,
    stops: Seq<bool>,
    max: usize,
    out: Seq<u32>,
)
    requires
        g.advances(next, draft, target, stops, max, out),
        draft.len() > 0,
    ensures
        g.committed < next.committed <= g.committed + draft.len(),
        next.last == target[next.committed - g.committed - 1],
        next.emitted == g.emitted + out.len(),
        next.emitted <= max,
        forall|i: int| 0 <= i < out.len() ==> out[i] == draft[i],
        out.len() <= next.committed - g.committed,
        next.accepted - g.accepted == next.committed - g.committed - 1,
        next.drafted - g.drafted == draft.len() - 1,
        next.emitted == max ==> next.stopped,
        !next.stopped ==> out.len() == next.committed - g.committed,
{
    law_accepted(draft, target, 1);
    let n = generate::accepted(draft, target, 1);
    lemma_emitted(stops, n, max - g.emitted, 0);
}

proof fn lemma_emitted(stops: Seq<bool>, n: int, left: int, i: int)
    requires
        0 <= i <= n,
    ensures
        i <= generate::emitted(stops, n, left, i) <= n,
    decreases n - i,
{
    if i < n && i < left && !stops[i] {
        lemma_emitted(stops, n, left, i + 1);
    }
}

/// The cells that a lane draws a row from: at the ratio of four the first halves of the older window
/// and the second halves of the newer one, in turn; otherwise the one window.
pub proof fn law_lane_cells(l: lanes::CompLane, j: int, i: int)
    ensures
        l.ratio == 4 && 0 <= i < 4 ==> l.cells(j).len() == 8 && l.cells(j)[2 * i] == i * l.width + j
            && l.cells(j)[2 * i + 1] == (4 + i) * l.width + l.head_dim + j,
        l.ratio != 4 && 0 <= i < l.ratio ==> l.cells(j).len() == l.ratio && l.cells(j)[i] == i
            * l.width + j,
{
}

/// The members of a group are the places of its expert, in order.
pub proof fn law_members(slots: Seq<ExpertPtrs>, n_used: int, gate: u64, n: int)
    requires
        0 <= n < slots.len(),
    ensures
        groups::members(slots, n_used, gate, 0) == Seq::<u32>::empty(),
        slots[n].gate == gate ==> groups::members(slots, n_used, gate, n + 1) == groups::members(
            slots,
            n_used,
            gate,
            n,
        ).push(((n / n_used) * 16 + n % n_used) as u32),
        slots[n].gate != gate ==> groups::members(slots, n_used, gate, n + 1) == groups::members(
            slots,
            n_used,
            gate,
            n,
        ),
{
}

/// The groups' members follow one another in the order of the groups.
pub proof fn law_pairs(slots: Seq<ExpertPtrs>, n_used: int, keys: Seq<ExpertPtrs>, g: int)
    requires
        0 <= g < keys.len(),
    ensures
        groups::pairs_of(slots, n_used, keys, 0) == Seq::<u32>::empty(),
        groups::pairs_of(slots, n_used, keys, g + 1) == groups::pairs_of(slots, n_used, keys, g)
            + groups::members(slots, n_used, keys[g].gate, slots.len() as int),
{
}

/// A draft model is loaded exactly where it says that it is one, names its eight numbers and its
/// layers, and drafts no more than a chunk at a time.
pub proof fn law_draft_loads(path: Seq<char>, m: Map<Seq<char>, Val>)
    ensures
        draft::load_fault(path, m) is None <==> {
            &&& model::arch_of(m) == Some("dflash-draft"@)
            &&& model::arch_number(m, "block_count"@) is Some
            &&& model::arch_number(m, "embedding_length"@) is Some
            &&& model::arch_number(m, "feed_forward_length"@) is Some
            &&& model::arch_number(m, "attention.head_count"@) is Some
            &&& model::arch_number(m, "attention.head_count_kv"@) is Some
            &&& model::arch_number(m, "attention.key_length"@) is Some
            &&& model::arch_number(m, "dflash.block_size"@) is Some
            &&& model::arch_number(m, "dflash.mask_token_id"@) is Some
            &&& model::arch_value(m, "dflash.target_layer_ids"@) matches Some(v) && v is Array
            &&& draft::config(m).block_size <= 16
        },
{
    reveal_with_fuel(draft::missing, 9);
}

/// What a draft model says of itself, each under its own key.
pub proof fn law_draft_config(m: Map<Seq<char>, Val>, n: u32)
    ensures
        model::arch_number(m, "block_count"@) == Some(n as u64) ==> draft::config(m).n_layer == n,
        model::arch_number(m, "embedding_length"@) == Some(n as u64) ==> draft::config(m).n_embd
            == n,
        model::arch_number(m, "feed_forward_length"@) == Some(n as u64) ==> draft::config(m).ff
            == n,
        model::arch_number(m, "attention.head_count"@) == Some(n as u64) ==> draft::config(
            m,
        ).n_head == n,
        model::arch_number(m, "attention.head_count_kv"@) == Some(n as u64) ==> draft::config(
            m,
        ).n_kv == n,
        model::arch_number(m, "attention.key_length"@) == Some(n as u64) ==> draft::config(
            m,
        ).head_dim == n,
        model::arch_number(m, "dflash.block_size"@) == Some(n as u64) ==> draft::config(
            m,
        ).block_size == n,
        model::arch_number(m, "dflash.mask_token_id"@) == Some(n as u64) ==> draft::config(
            m,
        ).mask_id == n,
        model::arch_value(m, "rope.freq_base"@) == Some(Val::F32(n)) ==> draft::config(m).rope_base
            == n,
        model::arch_value(m, "rope.freq_base"@) is None ==> draft::config(m).rope_base
            == 0x4b18_9680,
{
}

/// The context is stretched exactly where the factor is above one, from the length that is given or
/// from 4096.
pub proof fn law_draft_stretch(m: Map<Seq<char>, Val>, f: u32, n: u32)
    ensures
        model::arch_value(m, "rope.scaling.factor"@) is None ==> draft::yarn_of(m) is None,
        model::arch_value(m, "rope.scaling.factor"@) == Some(Val::F32(f)) ==> {
            &&& !fp::gt(f, 0x3f80_0000) ==> draft::yarn_of(m) is None
            &&& fp::gt(f, 0x3f80_0000) && model::arch_number(
                m,
                "rope.scaling.original_context_length"@,
            ) == Some(n as u64) ==> draft::yarn_of(m) == Some((f, n))
            &&& fp::gt(f, 0x3f80_0000) && model::arch_number(
                m,
                "rope.scaling.original_context_length"@,
            ) is None ==> draft::yarn_of(m) == Some((f, 4096u32))
        },
{
}

/// The layers whose inputs a draft sees are the natural numbers of the list, in order.
pub proof fn law_draft_layers(a: Seq<Val>, n: int, i: int)
    requires
        0 <= i < n <= a.len(),
        forall|j: int| 0 <= j < n ==> (#[trigger] a[j]).to_u64() is Some,
    ensures
        draft::naturals(a, n).len() == n,
        Some(draft::naturals(a, n)[i]) == a[i].to_u64(),
    decreases n,
{
    assert(a[n - 1].to_u64() is Some);
    if n > 1 {
        law_draft_layers(
            a,
            n - 1,
            if i < n - 1 {
                i
            } else {
                0
            },
        );
    } else {
        assert(draft::naturals(a, 0) =~= Seq::<u64>::empty());
    }
}

/// Drafting, giving logits and rolling back touch no cache; drafting and giving logits touch no state
/// of the delta rule either, and rolling back keeps what it restores from.
pub proof fn law_what_lasts(il: u32, flag: bool)
    ensures
        !draft::draft_writes(Buf::KCache(il)),
        !draft::draft_writes(Buf::VCache(il)),
        !draft::draft_writes(Buf::GdnS(il)),
        !draft::draft_writes(Buf::GdnConv(il)),
        !draft::draft_writes(Buf::Ring),
        !draft::draft_writes(Buf::SnapS(il)),
        !dsv4_forward::finish_writes(Buf::KCache(il)),
        !dsv4_forward::finish_writes(Buf::VCache(il)),
        !dsv4_forward::finish_writes(Buf::LaneKv(il, flag)),
        !dsv4_forward::finish_writes(Buf::LaneSc(il, flag)),
        !dsv4_forward::finish_writes(Buf::IdxCache(il)),
        !rollback::rollback_writes(Buf::KCache(il)),
        !rollback::rollback_writes(Buf::VCache(il)),
        !rollback::rollback_writes(Buf::SnapS(il)),
        !rollback::rollback_writes(Buf::SnapConv(il)),
        !rollback::rollback_writes(Buf::StashQkv(il)),
        !rollback::rollback_writes(Buf::StashG(il)),
        !rollback::rollback_writes(Buf::StashBeta(il)),
{
}

/// Layers with a state are those of the delta rule: all but every full one of the interval.
pub proof fn law_states(s: Shape, n: nat, il: int)
    requires
        0 <= il < n,
        s.full_attn_interval > 0,
    ensures
        qwen35_runtime::states_of(s, n).len() == n,
        qwen35_runtime::states_of(s, n)[il] <==> (il + 1) % s.full_attn_interval as int != 0,
{
}

/// The greatest of a row: no other is greater, and the first of equals counts.
pub proof fn law_greatest_of_row(row: Seq<u32>, n: int, i: int)
    requires
        0 <= i < n <= row.len(),
        forall|j: int| 0 <= j < n ==> !fp::is_nan(#[trigger] row[j]),
    ensures
        0 <= generate::greatest(row, n) < n,
        !fp::gt(row[i], row[generate::greatest(row, n)]),
        i < generate::greatest(row, n) ==> fp::gt(row[generate::greatest(row, n)], row[i]),
    decreases n,
{
    if n == 1 {
        assert(generate::greatest(row, 0) == 0);
    } else {
        let b = generate::greatest(row, n - 1);
        assert(0 <= b < n - 1) by {
            law_greatest_of_row(row, n - 1, 0);
        }
        assert(!fp::is_nan(row[n - 1]) && !fp::is_nan(row[b]) && !fp::is_nan(row[i]));
        if i < n - 1 {
            law_greatest_of_row(row, n - 1, i);
        }
    }
}

/// The slots of a tier are counted one by one: those whose expert exists and is computed there.
pub proof fn law_tier_count(selected: Seq<i32>, h: Holdings, x: Experts, t: int, n: int)
    requires
        0 <= n < selected.len(),
    ensures
        plan::tier_count(selected, h, x, t, 0) == 0,
        0 <= selected[n] < x.n_expert && (h.home(x.slabs(selected[n])) matches Home::Tier(k, _) && k
            == t) ==> plan::tier_count(selected, h, x, t, n + 1) == plan::tier_count(
            selected,
            h,
            x,
            t,
            n,
        ) + 1,
        !(0 <= selected[n] < x.n_expert) || !(h.home(x.slabs(selected[n])) is Tier)
            ==> plan::tier_count(selected, h, x, t, n + 1) == plan::tier_count(
            selected,
            h,
            x,
            t,
            n,
        ),
{
}

/// Numbers of a draft model are kept in 32 bits.
pub proof fn law_draft_number(m: Map<Seq<char>, Val>, key: Seq<char>, v: u64)
    ensures
        model::arch_number(m, key) == Some(v) ==> draft::number(m, key) == Some(
            (v % 0x1_0000_0000) as u32,
        ),
        model::arch_number(m, key) is None ==> draft::number(m, key) is None,
{
}

} // verus!
