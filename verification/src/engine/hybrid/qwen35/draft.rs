//! The draft model: what its header says, and one pass of it.
use vstd::prelude::*;

use super::layer::RING_CAP;
use crate::engine::hybrid::dsv4::layer;
use crate::engine::hybrid::kernels::{Buf, DraftBuf, Kernel, Weight};
use crate::engine::hybrid::shape;
use crate::engine::hybrid::shape::{scaled, Shape, T_MAX};
use crate::engine::program;
use crate::engine::program::{Program, Term};
use crate::fp;
use crate::fp::f32_gt;
use crate::gguf::model;
use crate::gguf::value;
use crate::gguf::value::Val;
use crate::gguf::Gguf;
use crate::text::{owned, push_str, same_str};

verus! {

/// What the header of a draft model says. Floats are patterns of single precision.
#[verifier::ext_equal]
pub struct DraftView {
    pub n_layer: u32,
    pub n_embd: u32,
    pub ff: u32,
    pub n_head: u32,
    pub n_kv: u32,
    pub head_dim: u32,
    pub block_size: u32,
    pub mask_id: u32,
    pub rope_base: u32,
    /// Stretch of the context, and the context before it; none where it is not stretched.
    pub yarn: Option<(u32, u32)>,
    pub layer_ids: Seq<u64>,
}

/// What the header of a draft model says.
pub struct DraftModel {
    pub n_layer: u32,
    pub n_embd: u32,
    pub ff: u32,
    pub n_head: u32,
    pub n_kv: u32,
    pub head_dim: u32,
    pub block_size: u32,
    pub mask_id: u32,
    pub rope_base: u32,
    pub yarn: Option<(u32, u32)>,
    pub layer_ids: Vec<u64>,
}

impl View for DraftModel {
    type V = DraftView;

    open spec fn view(&self) -> DraftView {
        DraftView {
            n_layer: self.n_layer,
            n_embd: self.n_embd,
            ff: self.ff,
            n_head: self.n_head,
            n_kv: self.n_kv,
            head_dim: self.head_dim,
            block_size: self.block_size,
            mask_id: self.mask_id,
            rope_base: self.rope_base,
            yarn: self.yarn,
            layer_ids: self.layer_ids@,
        }
    }
}

/// The low 32 bits of the number under a key.
pub open spec fn number(m: Map<Seq<char>, Val>, key: Seq<char>) -> Option<u32> {
    match model::arch_number(m, key) {
        Some(v) => Some((v % 0x1_0000_0000) as u32),
        None => None,
    }
}

/// The float under a key, or another.
pub open spec fn float_or(m: Map<Seq<char>, Val>, key: Seq<char>, other: u32) -> u32 {
    match model::arch_value(m, key) {
        Some(v) => match v.to_f32() {
            Some(x) => x,
            None => other,
        },
        None => other,
    }
}

/// The keys that every draft model has, in the order in which they are looked up.
pub open spec fn needed() -> Seq<Seq<char>> {
    seq![
        "block_count"@,
        "embedding_length"@,
        "feed_forward_length"@,
        "attention.head_count"@,
        "attention.head_count_kv"@,
        "attention.key_length"@,
        "dflash.block_size"@,
        "dflash.mask_token_id"@,
    ]
}

/// The first needed key, from `i` on, that has no number.
pub open spec fn missing(m: Map<Seq<char>, Val>, i: int) -> Option<Seq<char>>
    decreases 8 - i,
{
    if i >= 8 {
        None
    } else if number(m, needed()[i]) is None {
        Some(needed()[i])
    } else {
        missing(m, i + 1)
    }
}

/// The numbers among the first `n` values of a list, as far as they are natural ones.
pub open spec fn naturals(a: Seq<Val>, n: int) -> Seq<u64>
    decreases n,
{
    if n <= 0 {
        Seq::empty()
    } else {
        match a[n - 1].to_u64() {
            Some(v) => naturals(a, n - 1).push(v),
            None => naturals(a, n - 1),
        }
    }
}

/// Why a header is not that of a usable draft model.
pub open spec fn load_fault(path: Seq<char>, m: Map<Seq<char>, Val>) -> Option<Seq<char>> {
    if model::arch_of(m) != Some("dflash-draft"@) {
        Some(path + ": not a dflash-draft gguf"@)
    } else if missing(m, 0) is Some {
        Some("draft gguf missing "@ + missing(m, 0)->0)
    } else if !(model::arch_value(m, "dflash.target_layer_ids"@) matches Some(Val::Array(_))) {
        Some("draft gguf missing dflash.target_layer_ids"@)
    } else if number(m, "dflash.block_size"@)->0 > T_MAX {
        Some("draft block_size exceeds T_MAX"@)
    } else {
        None
    }
}

/// Stretch of the context, where it is stretched.
pub open spec fn yarn_of(m: Map<Seq<char>, Val>) -> Option<(u32, u32)> {
    let f = float_or(m, "rope.scaling.factor"@, 0x3f80_0000);
    if fp::gt(f, 0x3f80_0000) {
        match model::arch_number(m, "rope.scaling.original_context_length"@) {
            Some(v) => Some((f, (v % 0x1_0000_0000) as u32)),
            None => Some((f, 4096)),
        }
    } else {
        None
    }
}

/// The number under a key.
fn number_of(g: &Gguf, key: &str) -> (r: Option<u32>)
    ensures
        r == number(g.metadata@, key@),
{
    match g.arch_u64(key) {
        Some(v) => Some((v % 0x1_0000_0000) as u32),
        None => None,
    }
}

/// The float under a key, or another.
fn float_of(g: &Gguf, key: &str, other: u32) -> (r: u32)
    ensures
        r == float_or(g.metadata@, key@, other),
{
    match g.arch_meta(key) {
        Some(v) => match v.as_f32() {
            Some(x) => x,
            None => other,
        },
        None => other,
    }
}

/// The complaint about a missing key.
fn complain(key: &str) -> (r: String)
    ensures
        r@ == "draft gguf missing "@ + key@,
{
    let mut s = owned("draft gguf missing ");
    push_str(&mut s, key);
    s
}

/// What a usable header says.
pub open spec fn config(m: Map<Seq<char>, Val>) -> DraftView {
    let a = model::arch_value(m, "dflash.target_layer_ids"@)->0->Array_0;
    DraftView {
        n_layer: number(m, "block_count"@)->0,
        n_embd: number(m, "embedding_length"@)->0,
        ff: number(m, "feed_forward_length"@)->0,
        n_head: number(m, "attention.head_count"@)->0,
        n_kv: number(m, "attention.head_count_kv"@)->0,
        head_dim: number(m, "attention.key_length"@)->0,
        block_size: number(m, "dflash.block_size"@)->0,
        mask_id: number(m, "dflash.mask_token_id"@)->0,
        rope_base: float_or(m, "rope.freq_base"@, 0x4b18_9680),
        yarn: yarn_of(m),
        layer_ids: naturals(a, a.len() as int),
    }
}

/// The layers whose inputs are captured: the natural numbers of the list; none where there is no
/// list.
fn target_layers(g: &Gguf) -> (r: Option<Vec<u64>>)
    ensures
        match (r, model::arch_value(g.metadata@, "dflash.target_layer_ids"@)) {
            (Some(v), Some(Val::Array(a))) => v@ == naturals(a, a.len() as int),
            (Some(_), _) => false,
            (None, Some(Val::Array(_))) => false,
            (None, _) => true,
        },
{
    let v = match g.arch_meta("dflash.target_layer_ids") {
        Some(v) => v,
        None => {
            return None;
        },
    };
    let arr = match v.as_array() {
        Some(a) => a,
        None => {
            return None;
        },
    };
    let ghost a = value::vals(arr@);
    proof {
        value::lemma_vals(arr@);
    }
    let mut out: Vec<u64> = Vec::new();
    let mut i: usize = 0;
    while i < arr.len()
        invariant
            i <= arr@.len() == a.len(),
            forall|j: int| 0 <= j < arr@.len() ==> #[trigger] a[j] == arr@[j]@,
            out@ == naturals(a, i as int),
        decreases arr@.len() - i,
    {
        assert(a[i as int] == arr@[i as int]@);
        match arr[i].as_u64() {
            Some(n) => {
                out.push(n);
            },
            None => {},
        }
        i = i + 1;
    }
    Some(out)
}

/// The numbers under the needed keys, in their order.
fn numbers(g: &Gguf) -> (r: Result<Vec<u32>, String>)
    ensures
        match r {
            Ok(v) => missing(g.metadata@, 0) is None && v@.len() == 8 && forall|i: int|
                0 <= i < 8 ==> number(g.metadata@, #[trigger] needed()[i]) == Some(v@[i]),
            Err(e) => missing(g.metadata@, 0) is Some && e@ == "draft gguf missing "@ + missing(
                g.metadata@,
                0,
            )->0,
        },
{
    let ghost m = g.metadata@;
    let mut out: Vec<u32> = Vec::new();
    let mut i: usize = 0;
    while i < 8
        invariant
            i <= 8,
            m == g.metadata@,
            out@.len() == i,
            missing(m, 0) == missing(m, i as int),
            forall|k: int| 0 <= k < i ==> number(m, #[trigger] needed()[k]) == Some(out@[k]),
        decreases 8 - i,
    {
        let key: &str = if i == 0 {
            "block_count"
        } else if i == 1 {
            "embedding_length"
        } else if i == 2 {
            "feed_forward_length"
        } else if i == 3 {
            "attention.head_count"
        } else if i == 4 {
            "attention.head_count_kv"
        } else if i == 5 {
            "attention.key_length"
        } else if i == 6 {
            "dflash.block_size"
        } else {
            "dflash.mask_token_id"
        };
        assert(key@ == needed()[i as int]);
        match number_of(g, key) {
            Some(v) => {
                out.push(v);
            },
            None => {
                return Err(complain(key));
            },
        }
        i = i + 1;
    }
    Ok(out)
}

impl DraftModel {
    /// Reads the header of a draft model. `path` is how its file is named in messages.
    pub fn load(path: &str, g: &Gguf) -> (r: Result<DraftModel, String>)
        ensures
            match r {
                Ok(d) => load_fault(path@, g.metadata@) is None && d@ == config(g.metadata@),
                Err(e) => load_fault(path@, g.metadata@) == Some(e@),
            },
    {
        let named: bool = match g.architecture() {
            Some(a) => same_str(a, "dflash-draft"),
            None => false,
        };
        if !named {
            let mut e = owned(path);
            push_str(&mut e, ": not a dflash-draft gguf");
            return Err(e);
        }
        let v = match numbers(g) {
            Ok(v) => v,
            Err(e) => {
                return Err(e);
            },
        };
        assert(needed()[0] == "block_count"@);
        assert(needed()[1] == "embedding_length"@);
        assert(needed()[2] == "feed_forward_length"@);
        assert(needed()[3] == "attention.head_count"@);
        assert(needed()[4] == "attention.head_count_kv"@);
        assert(needed()[5] == "attention.key_length"@);
        assert(needed()[6] == "dflash.block_size"@);
        assert(needed()[7] == "dflash.mask_token_id"@);
        let rope_base: u32 = float_of(g, "rope.freq_base", 0x4b18_9680);
        let f: u32 = float_of(g, "rope.scaling.factor", 0x3f80_0000);
        let yarn: Option<(u32, u32)> = if f32_gt(f, 0x3f80_0000) {
            match number_of(g, "rope.scaling.original_context_length") {
                Some(n) => Some((f, n)),
                None => Some((f, 4096)),
            }
        } else {
            None
        };
        let layer_ids = match target_layers(g) {
            Some(ids) => ids,
            None => {
                return Err(owned("draft gguf missing dflash.target_layer_ids"));
            },
        };
        if v[6] > T_MAX {
            return Err(owned("draft block_size exceeds T_MAX"));
        }
        Ok(
            DraftModel {
                n_layer: v[0],
                n_embd: v[1],
                ff: v[2],
                n_head: v[3],
                n_kv: v[4],
                head_dim: v[5],
                block_size: v[6],
                mask_id: v[7],
                rope_base,
                yarn,
                layer_ids,
            },
        )
    }
}

/// Every product of the draft model's dimensions that a pass needs has 32 bits.
pub open spec fn sized(d: DraftView, s: Shape) -> bool {
    &&& 0 < d.block_size <= T_MAX
    &&& s.wf_rows()
    &&& d.n_kv * d.head_dim <= u32::MAX
    &&& 272 * (d.n_kv as int) <= u32::MAX
    &&& d.n_head * d.head_dim <= u32::MAX
    &&& 16 * (d.n_head as int) <= u32::MAX
    &&& 16 * (d.ff as int) <= u32::MAX
    &&& d.layer_ids.len() <= u32::MAX
    &&& d.layer_ids.len() * s.n_embd <= u32::MAX
}

impl DraftModel {
    /// Whether every product of the dimensions that a pass needs has 32 bits.
    pub fn fits(&self, s: &Shape) -> (r: bool)
        ensures
            r == sized(self@, *s),
    {
        let n: usize = self.layer_ids.len();
        if !(0 < self.block_size && self.block_size <= T_MAX && n as u64 <= 0xffff_ffff) {
            return false;
        }
        let top: u128 = 0xffff_ffff;
        assert(self.n_kv * 1 == self.n_kv && self.n_head * 1 == self.n_head && self.ff * 1 == self.ff);
        assert(1 * (n * s.n_embd) == n * s.n_embd && s.n_embd * 1 == s.n_embd);
        scaled(16, s.n_embd, 1) <= top && scaled(1, self.n_kv, self.head_dim) <= top && scaled(
            272,
            self.n_kv,
            1,
        ) <= top && scaled(1, self.n_head, self.head_dim) <= top && scaled(16, self.n_head, 1)
            <= top && scaled(16, self.ff, 1) <= top && scaled(1, n as u32, s.n_embd) <= top
    }
}

/// Positions whose features a draft sees.
pub open spec fn window(committed: u32) -> u32 {
    if committed < RING_CAP {
        committed
    } else {
        RING_CAP
    }
}

/// The positions that a draft sees lie in the ring, each in a slot of its own.
pub proof fn law_window(committed: u32, p: int, q: int)
    requires
        committed - window(committed) <= p < q < committed,
    ensures
        p % 256 != q % 256,
{
    crate::engine::hybrid::dsv4::layer::law_ring(256, p, q);
}

/// The features of the window, one row for each position.
pub open spec fn features(d: DraftView, s: Shape, committed: u32, ring: Term<Buf, Kernel>) -> Term<
    Buf,
    Kernel,
> {
    let w = window(committed);
    let n = shape::times(d.layer_ids.len() as int, s.n_embd as int);
    program::ap1(
        Kernel::RmsNorm { w: Weight::DraftHiddenNorm, width: s.n_embd, rows: w },
        layer::product(
            Weight::DraftFc,
            n,
            s.n_embd,
            w,
            program::ap1(
                Kernel::RingGather {
                    from: ((committed - w) % 256) as u32,
                    cap: RING_CAP,
                    t: w,
                    n,
                },
                ring,
            ),
        ),
    )
}

/// Keys or values of a layer of the draft: rows of the window, and behind them rows of the block.
pub open spec fn joined_rows(
    d: DraftView,
    s: Shape,
    w: u32,
    m: Weight,
    feat: Term<Buf, Kernel>,
    y: Term<Buf, Kernel>,
) -> Term<Buf, Kernel> {
    let kv = shape::times(d.n_kv as int, d.head_dim as int);
    program::ap2(
        Kernel::MatmulBehind { w: m, row: w, n_in: s.n_embd, n_out: kv, t: d.block_size },
        layer::product(m, s.n_embd, kv, w, feat),
        y,
    )
}

/// Heads of the draft, normalized and turned.
pub open spec fn draft_turned(
    d: DraftView,
    m: Weight,
    heads: u32,
    t: u32,
    pos: u32,
    x: Term<Buf, Kernel>,
) -> Term<Buf, Kernel> {
    program::ap1(
        Kernel::RopeYarn { heads, head_dim: d.head_dim, pos, t },
        program::ap1(
            Kernel::HeadNorm {
                norm: Some(m),
                heads: shape::times(t as int, heads as int),
                width: d.head_dim,
            },
            x,
        ),
    )
}

/// The block behind the attention of a layer of the draft.
pub open spec fn draft_attended(
    d: DraftView,
    s: Shape,
    il: u32,
    w: u32,
    feat: Term<Buf, Kernel>,
    h: Term<Buf, Kernel>,
) -> Term<Buf, Kernel> {
    let bs = d.block_size;
    let total = (w + bs) as u32;
    let q_dim = shape::times(d.n_head as int, d.head_dim as int);
    let y = program::ap1(
        Kernel::RmsNorm { w: Weight::DraftAttnNorm(il), width: s.n_embd, rows: bs },
        h,
    );
    let k = draft_turned(
        d,
        Weight::DraftKNorm(il),
        d.n_kv,
        total,
        0,
        joined_rows(d, s, w, Weight::DraftWk(il), feat, y),
    );
    let v = joined_rows(d, s, w, Weight::DraftWv(il), feat, y);
    let q = draft_turned(
        d,
        Weight::DraftQNorm(il),
        d.n_head,
        bs,
        w,
        layer::product(Weight::DraftWq(il), s.n_embd, q_dim, bs, y),
    );
    let o = program::ap3(
        Kernel::DraftAttention {
            n_head: d.n_head,
            n_kv: d.n_kv,
            head_dim: d.head_dim,
            t: bs,
            total,
        },
        q,
        k,
        v,
    );
    program::ap2(
        Kernel::Add { n: shape::times(bs as int, s.n_embd as int) },
        h,
        layer::product(Weight::DraftWo(il), q_dim, s.n_embd, bs, o),
    )
}

/// The block behind a layer of the draft.
pub open spec fn draft_layer(
    d: DraftView,
    s: Shape,
    il: u32,
    w: u32,
    feat: Term<Buf, Kernel>,
    h: Term<Buf, Kernel>,
) -> Term<Buf, Kernel> {
    let bs = d.block_size;
    let a = draft_attended(d, s, il, w, feat, h);
    let y = program::ap1(
        Kernel::RmsNorm { w: Weight::DraftFfnNorm(il), width: s.n_embd, rows: bs },
        a,
    );
    let m = program::ap2(
        Kernel::Swiglu { n: shape::times(bs as int, d.ff as int), clamp: false },
        layer::product(Weight::DraftGate(il), s.n_embd, d.ff, bs, y),
        layer::product(Weight::DraftUp(il), s.n_embd, d.ff, bs, y),
    );
    program::ap2(
        Kernel::Add { n: shape::times(bs as int, s.n_embd as int) },
        a,
        layer::product(Weight::DraftDown(il), d.ff, s.n_embd, bs, m),
    )
}

/// The block behind the first `n` layers of the draft.
pub open spec fn draft_layers(
    d: DraftView,
    s: Shape,
    w: u32,
    feat: Term<Buf, Kernel>,
    h: Term<Buf, Kernel>,
    n: int,
) -> Term<Buf, Kernel>
    decreases n,
{
    if n <= 0 {
        h
    } else {
        draft_layer(d, s, (n - 1) as u32, w, feat, draft_layers(d, s, w, feat, h, n - 1))
    }
}

/// The embedded block: the last token and then masks.
pub open spec fn block(d: DraftView, s: Shape, last: u32) -> Term<Buf, Kernel> {
    program::ap1(
        Kernel::Embed { n_embd: s.n_embd, n_vocab: s.n_vocab, t: d.block_size },
        program::ap(
            Kernel::WriteBlock { last, mask: d.mask_id, t: d.block_size },
            Seq::<Term<Buf, Kernel>>::empty(),
        ),
    )
}

/// The buffers that a pass of the draft writes.
pub open spec fn draft_writes(b: Buf) -> bool {
    b is Draft || b == Buf::Tok || b == Buf::Normed || b == Buf::Logits
}

/// Launches one layer of the draft.
fn run_layer(p: &mut Program<Buf, Kernel>, d: &DraftModel, s: &Shape, il: u32, w: u32)
    requires
        sized(d@, *s),
        w <= 256,
    ensures
        ({
            let st = old(p).store();
            let end = final(p).store();
            let feat = st[Buf::Draft(DraftBuf::Feat)];
            &&& end[Buf::Draft(DraftBuf::H)] == draft_layer(
                d@,
                *s,
                il,
                w,
                feat,
                st[Buf::Draft(DraftBuf::H)],
            )
            &&& end[Buf::Draft(DraftBuf::Feat)] == feat
            &&& forall|b: Buf| !(b is Draft) ==> #[trigger] end[b] == st[b]
        }),
{
    let bs: u32 = d.block_size;
    let q_dim: u32 = d.n_head * d.head_dim;
    let kv: u32 = d.n_kv * d.head_dim;
    let total: u32 = w + bs;
    let (nk, nq, ne, nf) = counts(d, s, total);
    p.op1(
        Kernel::RmsNorm { w: Weight::DraftAttnNorm(il), width: s.n_embd, rows: bs },
        Buf::Draft(DraftBuf::Hn),
        Buf::Draft(DraftBuf::H),
    );
    p.op1(
        Kernel::MatmulQ8_0 { w: Weight::DraftWk(il), n_in: s.n_embd, n_out: kv, t: w },
        Buf::Draft(DraftBuf::Kcat),
        Buf::Draft(DraftBuf::Feat),
    );
    p.op2(
        Kernel::MatmulBehind {
            w: Weight::DraftWk(il),
            row: w,
            n_in: s.n_embd,
            n_out: kv,
            t: bs,
        },
        Buf::Draft(DraftBuf::Kcat),
        Buf::Draft(DraftBuf::Kcat),
        Buf::Draft(DraftBuf::Hn),
    );
    p.op1(
        Kernel::MatmulQ8_0 { w: Weight::DraftWv(il), n_in: s.n_embd, n_out: kv, t: w },
        Buf::Draft(DraftBuf::Vcat),
        Buf::Draft(DraftBuf::Feat),
    );
    p.op2(
        Kernel::MatmulBehind {
            w: Weight::DraftWv(il),
            row: w,
            n_in: s.n_embd,
            n_out: kv,
            t: bs,
        },
        Buf::Draft(DraftBuf::Vcat),
        Buf::Draft(DraftBuf::Vcat),
        Buf::Draft(DraftBuf::Hn),
    );
    p.op1(
        Kernel::HeadNorm { norm: Some(Weight::DraftKNorm(il)), heads: nk, width: d.head_dim },
        Buf::Draft(DraftBuf::Kcat),
        Buf::Draft(DraftBuf::Kcat),
    );
    p.op1(
        Kernel::MatmulQ8_0 { w: Weight::DraftWq(il), n_in: s.n_embd, n_out: q_dim, t: bs },
        Buf::Draft(DraftBuf::Q),
        Buf::Draft(DraftBuf::Hn),
    );
    p.op1(
        Kernel::HeadNorm { norm: Some(Weight::DraftQNorm(il)), heads: nq, width: d.head_dim },
        Buf::Draft(DraftBuf::Q),
        Buf::Draft(DraftBuf::Q),
    );
    p.op1(
        Kernel::RopeYarn { heads: d.n_kv, head_dim: d.head_dim, pos: 0, t: total },
        Buf::Draft(DraftBuf::Kcat),
        Buf::Draft(DraftBuf::Kcat),
    );
    p.op1(
        Kernel::RopeYarn { heads: d.n_head, head_dim: d.head_dim, pos: w, t: bs },
        Buf::Draft(DraftBuf::Q),
        Buf::Draft(DraftBuf::Q),
    );
    p.op3(
        Kernel::DraftAttention {
            n_head: d.n_head,
            n_kv: d.n_kv,
            head_dim: d.head_dim,
            t: bs,
            total,
        },
        Buf::Draft(DraftBuf::Attn),
        Buf::Draft(DraftBuf::Q),
        Buf::Draft(DraftBuf::Kcat),
        Buf::Draft(DraftBuf::Vcat),
    );
    p.op1(
        Kernel::MatmulQ8_0 { w: Weight::DraftWo(il), n_in: q_dim, n_out: s.n_embd, t: bs },
        Buf::Draft(DraftBuf::Tmp),
        Buf::Draft(DraftBuf::Attn),
    );
    p.op2(
        Kernel::Add { n: ne },
        Buf::Draft(DraftBuf::H),
        Buf::Draft(DraftBuf::H),
        Buf::Draft(DraftBuf::Tmp),
    );
    p.op1(
        Kernel::RmsNorm { w: Weight::DraftFfnNorm(il), width: s.n_embd, rows: bs },
        Buf::Draft(DraftBuf::Hn),
        Buf::Draft(DraftBuf::H),
    );
    p.op1(
        Kernel::MatmulQ8_0 { w: Weight::DraftGate(il), n_in: s.n_embd, n_out: d.ff, t: bs },
        Buf::Draft(DraftBuf::Ffa),
        Buf::Draft(DraftBuf::Hn),
    );
    p.op1(
        Kernel::MatmulQ8_0 { w: Weight::DraftUp(il), n_in: s.n_embd, n_out: d.ff, t: bs },
        Buf::Draft(DraftBuf::Ffb),
        Buf::Draft(DraftBuf::Hn),
    );
    p.op2(
        Kernel::Swiglu { n: nf, clamp: false },
        Buf::Draft(DraftBuf::Ffm),
        Buf::Draft(DraftBuf::Ffa),
        Buf::Draft(DraftBuf::Ffb),
    );
    p.op1(
        Kernel::MatmulQ8_0 { w: Weight::DraftDown(il), n_in: d.ff, n_out: s.n_embd, t: bs },
        Buf::Draft(DraftBuf::Tmp),
        Buf::Draft(DraftBuf::Ffm),
    );
    p.op2(
        Kernel::Add { n: ne },
        Buf::Draft(DraftBuf::H),
        Buf::Draft(DraftBuf::H),
        Buf::Draft(DraftBuf::Tmp),
    );
}

/// Key heads, query heads, and elements of the block and of its feed-forward part.
fn counts(d: &DraftModel, s: &Shape, total: u32) -> (r: (u32, u32, u32, u32))
    requires
        sized(d@, *s),
        total <= 272,
    ensures
        r.0 == shape::times(total as int, d.n_kv as int),
        r.1 == shape::times(d.block_size as int, d.n_head as int),
        r.2 == shape::times(d.block_size as int, s.n_embd as int),
        r.3 == shape::times(d.block_size as int, d.ff as int),
{
    assert(total * d.n_kv <= 272 * d.n_kv) by (nonlinear_arith)
        requires
            total <= 272,
            0 <= d.n_kv,
    ;
    let nk: u32 = total * d.n_kv;
    (
        nk,
        shape::rows(d.block_size, d.n_head),
        shape::rows(d.block_size, s.n_embd),
        shape::rows(d.block_size, d.ff),
    )
}

/// Launches one pass of the draft behind `committed` positions: the window of features, the block
/// with `last` in front, and logits for every token of the block.
pub fn dflash_draft(
    p: &mut Program<Buf, Kernel>,
    d: &DraftModel,
    s: &Shape,
    committed: u32,
    last: u32,
    ready: bool,
    enabled: bool,
) -> (r: Result<(), String>)
    requires
        sized(d@, *s),
    ensures
        match r {
            Ok(()) => ready && enabled,
            Err(e) => *final(p) == *old(p) && (if !ready {
                e@ == "qwen35 state missing"@
            } else {
                !enabled && e@ == "dflash not enabled"@
            }),
        },
        r is Ok ==> {
            let st = old(p).store();
            let end = final(p).store();
            let w = window(committed);
            let h = draft_layers(
                d@,
                *s,
                w,
                features(d@, *s, committed, st[Buf::Ring]),
                block(d@, *s, last),
                d.n_layer as int,
            );
            &&& end[Buf::Logits] == program::ap1(
                Kernel::Head { rows: d.block_size },
                program::ap1(
                    Kernel::RmsNorm {
                        w: Weight::DraftOutNorm,
                        width: s.n_embd,
                        rows: d.block_size,
                    },
                    h,
                ),
            )
            &&& forall|b: Buf| !draft_writes(b) ==> #[trigger] end[b] == st[b]
        },
{
    if !ready {
        return Err(owned("qwen35 state missing"));
    }
    if !enabled {
        return Err(owned("dflash not enabled"));
    }
    let ghost st = p.store();
    let w: u32 = if committed < RING_CAP {
        committed
    } else {
        RING_CAP
    };
    let bs: u32 = d.block_size;
    let n: u32 = d.layer_ids.len() as u32 * s.n_embd;
    p.op1(
        Kernel::RingGather { from: (committed - w) % RING_CAP, cap: RING_CAP, t: w, n },
        Buf::Draft(DraftBuf::FeatIn),
        Buf::Ring,
    );
    p.op0(Kernel::WriteBlock { last, mask: d.mask_id, t: bs }, Buf::Tok);
    p.op1(
        Kernel::Embed { n_embd: s.n_embd, n_vocab: s.n_vocab, t: bs },
        Buf::Draft(DraftBuf::H),
        Buf::Tok,
    );
    p.op1(
        Kernel::MatmulQ8_0 { w: Weight::DraftFc, n_in: n, n_out: s.n_embd, t: w },
        Buf::Draft(DraftBuf::Feat),
        Buf::Draft(DraftBuf::FeatIn),
    );
    p.op1(
        Kernel::RmsNorm { w: Weight::DraftHiddenNorm, width: s.n_embd, rows: w },
        Buf::Draft(DraftBuf::Feat),
        Buf::Draft(DraftBuf::Feat),
    );
    let ghost feat = features(d@, *s, committed, st[Buf::Ring]);
    assert(p.store()[Buf::Draft(DraftBuf::Feat)] == feat);
    let ghost h = block(d@, *s, last);
    let mut il: u32 = 0;
    while il < d.n_layer
        invariant
            il <= d.n_layer,
            sized(d@, *s),
            w == window(committed),
            p.store()[Buf::Draft(DraftBuf::Feat)] == feat,
            p.store()[Buf::Draft(DraftBuf::H)] == draft_layers(d@, *s, w, feat, h, il as int),
            forall|b: Buf| !draft_writes(b) ==> #[trigger] p.store()[b] == st[b],
        decreases d.n_layer - il,
    {
        run_layer(p, d, s, il, w);
        il = il + 1;
    }
    p.op1(
        Kernel::RmsNorm { w: Weight::DraftOutNorm, width: s.n_embd, rows: bs },
        Buf::Normed,
        Buf::Draft(DraftBuf::H),
    );
    p.op1(Kernel::Head { rows: bs }, Buf::Logits, Buf::Normed);
    Ok(())
}

} // verus!
