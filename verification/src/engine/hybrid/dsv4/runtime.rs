//! Sizes of the runtime's buffers.
use vstd::prelude::*;

use super::lanes;
use super::layer::LayerRt;
use crate::engine::hybrid::shape::Shape;

verus! {

/// Compressed rows that a layer may need at most, over the first `n` layers that compress.
pub open spec fn most_rows(ratios: Seq<u32>, ctx: u32, n: int) -> int
    decreases n,
{
    if n <= 0 {
        0
    } else {
        let m = most_rows(ratios, ctx, n - 1);
        let r = ratios[n - 1];
        if r > 0 && ctx as int / r as int + 2 > m {
            ctx as int / r as int + 2
        } else {
            m
        }
    }
}

/// Compressed rows that there is room for: one where no layer compresses.
pub open spec fn row_cap(ratios: Seq<u32>, ctx: u32, n: int) -> int {
    if most_rows(ratios, ctx, n) == 0 {
        1
    } else {
        most_rows(ratios, ctx, n)
    }
}

/// Bytes of the buffers of the runtime.
#[derive(Debug, Clone, Copy, PartialEq, Eq, Structural)]
pub struct Sizes {
    /// Each store of residual streams.
    pub hc: u64,
    pub mix: u64,
    pub low: u64,
    pub comp_kv: u64,
    pub comp_sc: u64,
    pub idx_w: u64,
    pub allowed: usize,
    pub coef: u64,
}

/// What a layer needs: elements of its lanes, and bytes of the indexer's cache.
#[derive(Debug, Clone, Copy, PartialEq, Eq, Structural)]
pub struct LayerSizes {
    pub comp: Option<usize>,
    pub idx: Option<usize>,
    pub idx_cache: usize,
}

proof fn lemma_cap(ratios: Seq<u32>, ctx: u32, n: int, i: int)
    requires
        0 <= i < n,
        ratios[i] > 0,
    ensures
        ctx as int / ratios[i] as int + 2 <= most_rows(ratios, ctx, n),
    decreases n,
{
    if i < n - 1 {
        lemma_cap(ratios, ctx, n - 1, i);
    }
}

proof fn lemma_cap_bound(ratios: Seq<u32>, ctx: u32, n: int)
    ensures
        0 <= most_rows(ratios, ctx, n) <= ctx + 2,
    decreases n,
{
    if n > 0 {
        lemma_cap_bound(ratios, ctx, n - 1);
        let r = ratios[n - 1];
        if r > 0 {
            assert(0 <= ctx as int / r as int <= ctx) by (nonlinear_arith)
                requires
                    r > 0,
            ;
        }
    }
}

/// Within the context, a layer's lanes give fewer rows than there is room for.
pub proof fn law_rows_fit(ratios: Seq<u32>, ctx: u32, n: int, il: int, pos: nat)
    requires
        0 <= il < n,
        ratios[il] > 0,
        pos <= ctx,
    ensures
        lanes::ended(ratios[il] as nat, pos) < row_cap(ratios, ctx, n),
{
    lemma_cap(ratios, ctx, n, il);
    vstd::arithmetic::div_mod::lemma_div_is_ordered(pos as int, ctx as int, ratios[il] as int);
}

/// How many compressed rows there is room for.
pub fn cap_of(ratios: &Vec<u32>, ctx: u32, n: usize) -> (r: usize)
    requires
        n <= ratios@.len(),
        ctx + 2 <= usize::MAX,
    ensures
        r == row_cap(ratios@, ctx, n as int),
        r <= ctx + 2,
{
    let mut m: usize = 0;
    let mut i: usize = 0;
    while i < n
        invariant
            i <= n <= ratios@.len(),
            ctx + 2 <= usize::MAX,
            m == most_rows(ratios@, ctx, i as int),
        decreases n - i,
    {
        let r: u32 = ratios[i];
        proof {
            lemma_cap_bound(ratios@, ctx, i + 1);
        }
        if r > 0 {
            assert(ctx as int / r as int <= ctx) by (nonlinear_arith)
                requires
                    r > 0,
            ;
            let k: usize = ctx as usize / r as usize + 2;
            if k > m {
                m = k;
            }
        }
        i = i + 1;
    }
    proof {
        lemma_cap_bound(ratios@, ctx, n as int);
    }
    if m == 0 {
        1
    } else {
        m
    }
}

/// Bytes of the buffers of the runtime, for chunks of sixteen tokens.
pub fn runtime_sizes(s: &Shape, cap: usize) -> (r: Sizes)
    requires
        s.n_hc * s.n_embd <= u32::MAX,
        s.n_out_group * 1024 <= u32::MAX,
        s.n_idx_head * s.n_idx_dim <= u32::MAX,
    ensures
        r.hc == 64 * s.hc_dim(),
        r.mix == 64 * (6 * s.n_hc),
        r.coef == 64 * (6 * s.n_hc),
        r.low == 64 * (if s.n_out_group * 1024 >= s.n_idx_head * s.n_idx_dim {
            s.n_out_group * 1024
        } else {
            s.n_idx_head * s.n_idx_dim
        }),
        r.comp_kv == 64 * (2 * s.head_dim),
        r.comp_sc == 64 * (2 * s.head_dim),
        r.idx_w == 4 * (if s.n_idx_head >= 1 {
            s.n_idx_head as int
        } else {
            1
        }),
        r.allowed == cap,
{
    assert(0 <= s.n_hc * s.n_embd && 0 <= s.n_idx_head * s.n_idx_dim) by (nonlinear_arith);
    let hc: u64 = s.n_hc as u64 * s.n_embd as u64;
    let a: u64 = s.n_out_group as u64 * 1024;
    let b: u64 = s.n_idx_head as u64 * s.n_idx_dim as u64;
    let low: u64 = if a >= b {
        a
    } else {
        b
    };
    let h: u64 = if s.n_idx_head >= 1 {
        s.n_idx_head as u64
    } else {
        1
    };
    let gates: u64 = 6 * s.n_hc as u64;
    let comp: u64 = 2 * s.head_dim as u64;
    Sizes {
        hc: 64 * hc,
        mix: 64 * gates,
        low: 64 * low,
        comp_kv: 64 * comp,
        comp_sc: 64 * comp,
        idx_w: 4 * h,
        allowed: cap,
        coef: 64 * gates,
    }
}

/// What a layer of a given ratio needs: a lane where it compresses, and at ratio 4 the lane and the
/// cache of an indexer.
pub fn layer_sizes(s: &Shape, ratio: u32, cap: usize) -> (r: LayerSizes)
    requires
        ratio != 0 ==> {
            &&& lanes::lane_elems(ratio as nat, s.head_dim as nat) <= u32::MAX
            &&& lanes::lane_width(ratio as nat, s.head_dim as nat) <= u32::MAX
        },
        ratio == 4 ==> {
            &&& lanes::lane_elems(4, s.n_idx_dim as nat) <= u32::MAX
            &&& cap * s.n_idx_dim * 4 <= usize::MAX
        },
    ensures
        match r.comp {
            Some(n) => ratio != 0 && n == lanes::lane_elems(ratio as nat, s.head_dim as nat),
            None => ratio == 0,
        },
        match r.idx {
            Some(n) => ratio == 4 && n == lanes::lane_elems(4, s.n_idx_dim as nat),
            None => ratio != 4,
        },
        r.idx_cache == (if ratio == 4 {
            cap * s.n_idx_dim * 4
        } else {
            4
        }),
{
    let comp: Option<usize> = if ratio != 0 {
        Some(lanes::lane_size(ratio, s.head_dim).2)
    } else {
        None
    };
    let idx: Option<usize> = if ratio == 4 {
        let d: u32 = s.n_idx_dim;
        assert(lanes::lane_elems(4, d as nat) == 16 * d) by (nonlinear_arith);
        Some(lanes::lane_size(4, d).2)
    } else {
        None
    };
    assert(0 <= cap * s.n_idx_dim) by (nonlinear_arith);
    let idx_cache: usize = if ratio == 4 {
        cap * s.n_idx_dim as usize * 4
    } else {
        4
    };
    LayerSizes { comp, idx, idx_cache }
}

/// The state of every layer before the first token.
pub open spec fn fresh(ratios: Seq<u32>, n: nat) -> Seq<LayerRt> {
    Seq::new(
        n,
        |i: int|
            LayerRt {
                comp: ratios[i] != 0,
                n_comp: 0,
                idx: ratios[i] == 4,
                n_idx_comp: 0,
            },
    )
}

/// The state of every layer before the first token.
pub fn new_layers(ratios: &Vec<u32>, n: usize) -> (r: Vec<LayerRt>)
    requires
        n <= ratios@.len(),
    ensures
        r@ == fresh(ratios@, n as nat),
{
    let mut v: Vec<LayerRt> = Vec::new();
    let mut i: usize = 0;
    while i < n
        invariant
            i <= n <= ratios@.len(),
            v@ == fresh(ratios@, i as nat),
        decreases n - i,
    {
        v.push(
            LayerRt { comp: ratios[i] != 0, n_comp: 0, idx: ratios[i] == 4, n_idx_comp: 0 },
        );
        assert(v@ =~= fresh(ratios@, (i + 1) as nat));
        i = i + 1;
    }
    v
}

/// Forgets the rows of every layer; the lanes themselves are cleared by the caller.
pub fn reset(layers: &mut Vec<LayerRt>)
    ensures
        final(layers)@ == old(layers)@.map_values(
            |l: LayerRt| LayerRt { n_comp: 0, n_idx_comp: 0, ..l },
        ),
{
    let n: usize = layers.len();
    let mut i: usize = 0;
    while i < n
        invariant
            i <= n,
            n == layers@.len() == old(layers)@.len(),
            forall|k: int|
                0 <= k < n ==> #[trigger] layers@[k] == (if k < i {
                    LayerRt { n_comp: 0, n_idx_comp: 0, ..old(layers)@[k] }
                } else {
                    old(layers)@[k]
                }),
        decreases n - i,
    {
        let l = layers[i];
        layers.set(i, LayerRt { comp: l.comp, n_comp: 0, idx: l.idx, n_idx_comp: 0 });
        i = i + 1;
    }
    assert(layers@ =~= old(layers)@.map_values(
        |l: LayerRt| LayerRt { n_comp: 0, n_idx_comp: 0, ..l },
    ));
}

} // verus!
