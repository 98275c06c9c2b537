//! Routed experts of a chunk: resident tiers, the primary device and the host, added up.
use vstd::prelude::*;

use super::kernels::{Buf, Kernel, TierBuf};
use super::plan::Experts;
use super::shape;
use super::shape::{rows, Shape};
use crate::engine::program;
use crate::engine::program::{Program, Term};

verus! {

/// How the experts of a chunk are launched.
#[derive(Debug, Clone, Copy, PartialEq, Eq, Structural)]
pub struct Launch {
    pub x: Experts,
    /// The activation: 3 for the clamped one, 0 for the plain one.
    pub act: u32,
    /// Tokens of the chunk.
    pub t: u32,
    /// Slots of the chunk.
    pub n_slots: u32,
}

/// A write from the host, without operands.
pub open spec fn host(f: Kernel, part: nat) -> Term<Buf, Kernel> {
    Term::App { f, part, args: Seq::empty() }
}

/// The gated product of the experts of a chunk.
pub open spec fn pair(s: Shape, l: Launch) -> Kernel {
    Kernel::MoePair {
        n_embd: s.n_embd,
        n_ff: s.n_ff_exp,
        n_used: s.n_expert_used,
        t: l.t,
        row_bytes: l.x.gate.row_bytes,
        quant: l.x.gate.quant,
        act: l.act,
    }
}

/// The down projection of the experts of a chunk.
pub open spec fn down(s: Shape, l: Launch) -> Kernel {
    Kernel::MoeDown {
        n_ff: s.n_ff_exp,
        n_embd: s.n_embd,
        n_used: s.n_expert_used,
        t: l.t,
        row_bytes: l.x.down.row_bytes,
        quant: l.x.down.quant,
    }
}

/// The quantized gated products of a chunk.
pub open spec fn quantized_mid(s: Shape, l: Launch, mid: Term<Buf, Kernel>) -> Term<Buf, Kernel> {
    program::ap1(
        Kernel::QuantizeQ8k {
            n: s.n_ff_exp,
            rows: shape::times(l.t as int, s.n_expert_used as int),
        },
        mid,
    )
}

/// What experts give slot by slot.
pub open spec fn by_slots(
    s: Shape,
    l: Launch,
    ptrs: Term<Buf, Kernel>,
    weights: Term<Buf, Kernel>,
    xq: Term<Buf, Kernel>,
) -> Term<Buf, Kernel> {
    program::ap2(
        down(s, l),
        ptrs,
        quantized_mid(s, l, program::ap3(pair(s, l), ptrs, weights, xq)),
    )
}

/// What `g` groups of a tier give: their slots on a cleared store, added up by token.
pub open spec fn by_groups(
    s: Shape,
    l: Launch,
    tier: u32,
    g: u32,
    weights: Term<Buf, Kernel>,
    xq: Term<Buf, Kernel>,
) -> Term<Buf, Kernel> {
    let w = Kernel::WriteGroups { tier, n_group: g };
    let mid = program::ap(
        Kernel::MoePairGrouped {
            n_embd: s.n_embd,
            n_ff: s.n_ff_exp,
            n_used: s.n_expert_used,
            n_group: g,
            row_bytes: l.x.gate.row_bytes,
            quant: l.x.gate.quant,
            act: l.act,
        },
        seq![host(w, 0), host(w, 1), host(w, 2), weights, xq],
    );
    let cleared = host(
        Kernel::Zero { count: shape::wide_times(l.t as int, s.n_expert_used * s.n_embd) },
        0,
    );
    let partial = program::ap(
        Kernel::MoeDownGrouped {
            n_ff: s.n_ff_exp,
            n_embd: s.n_embd,
            n_used: s.n_expert_used,
            n_group: g,
            row_bytes: l.x.down.row_bytes,
            quant: l.x.down.quant,
        },
        seq![cleared, host(w, 0), host(w, 1), host(w, 2), quantized_mid(s, l, mid)],
    );
    program::ap1(Kernel::MoeSlotSum { n_embd: s.n_embd, n_used: s.n_expert_used, t: l.t }, partial)
}

/// What a tier gives: by groups where it has any, else slot by slot.
pub open spec fn tier_output(
    s: Shape,
    l: Launch,
    tier: u32,
    g: u32,
    x: Term<Buf, Kernel>,
    weights: Term<Buf, Kernel>,
) -> Term<Buf, Kernel> {
    let xq = program::ap1(Kernel::QuantizeQ8k { n: s.n_embd, rows: l.t }, x);
    if g > 0 {
        by_groups(s, l, tier, g, weights, xq)
    } else {
        by_slots(s, l, host(Kernel::WriteTierPtrs { tier }, 0), weights, xq)
    }
}

/// What the primary device gives, plus what the first `n` tiers give, in their order. A tier
/// without slots takes no part.
pub open spec fn with_tiers(
    s: Shape,
    l: Launch,
    counts: Seq<u64>,
    groups: Seq<u32>,
    x: Term<Buf, Kernel>,
    weights: Term<Buf, Kernel>,
    primary: Term<Buf, Kernel>,
    n: int,
) -> Term<Buf, Kernel>
    decreases n,
{
    if n <= 0 {
        primary
    } else {
        let t = with_tiers(s, l, counts, groups, x, weights, primary, n - 1);
        if counts[n - 1] == 0 {
            t
        } else {
            program::ap2(
                Kernel::Add { n: shape::times(l.t as int, s.n_embd as int) },
                t,
                tier_output(s, l, (n - 1) as u32, groups[n - 1], x, weights),
            )
        }
    }
}

/// What the experts of a chunk give: primary device, tiers, and the host where it computes any.
pub open spec fn experts_output(
    s: Shape,
    l: Launch,
    counts: Seq<u64>,
    groups: Seq<u32>,
    lane: bool,
    st: Map<Buf, Term<Buf, Kernel>>,
) -> Term<Buf, Kernel> {
    let primary = by_slots(
        s,
        l,
        host(Kernel::WriteExpertPtrs { n: l.n_slots }, 0),
        st[Buf::RouterWeights],
        st[Buf::Xq],
    );
    let t = with_tiers(
        s,
        l,
        counts,
        groups,
        st[Buf::Normed],
        st[Buf::RouterWeights],
        primary,
        counts.len() as int,
    );
    let n = shape::times(l.t as int, s.n_embd as int);
    if lane {
        program::ap2(Kernel::Add { n }, t, host(Kernel::HostPartial { n }, 0))
    } else {
        t
    }
}

/// The buffers that the experts of a chunk write.
pub open spec fn experts_write(b: Buf) -> bool {
    b == Buf::ExpertPtrs || b == Buf::MoeMid || b == Buf::Midq || b == Buf::MoeOut || b
        == Buf::TierRet || b == Buf::CpuRet || b is Tier
}

/// The elements of the slots of a chunk have a 64-bit number.
proof fn lemma_partial(t: int, used: int, n: int)
    requires
        0 <= t <= 16,
        0 <= used,
        16 * used <= u32::MAX,
        0 <= n,
        16 * n <= u32::MAX,
    ensures
        0 <= used * n <= u64::MAX,
        0 <= t * (used * n) <= u64::MAX,
{
    assert(0 <= used * n <= 0x1000_0000 * 0x1000_0000) by (nonlinear_arith)
        requires
            0 <= used <= 0x1000_0000,
            0 <= n <= 0x1000_0000,
    ;
    assert(0 <= t * (used * n) <= 16 * (0x1000_0000 * 0x1000_0000)) by (nonlinear_arith)
        requires
            0 <= t <= 16,
            0 <= used * n <= 0x1000_0000 * 0x1000_0000,
    ;
}

/// Launches the part of a tier.
fn run_tier(p: &mut Program<Buf, Kernel>, s: &Shape, l: &Launch, tier: u32, g: u32)
    requires
        s.wf_experts(),
        l.t <= 16,
    ensures
        ({
            let st = old(p).store();
            let end = final(p).store();
            &&& end[Buf::Tier(tier, TierBuf::Out)] == tier_output(
                *s,
                *l,
                tier,
                g,
                st[Buf::Normed],
                st[Buf::RouterWeights],
            )
            &&& forall|b: Buf|
                !(b matches Buf::Tier(k, _) && k == tier) ==> #[trigger] end[b] == st[b]
        }),
{
    let ne: u32 = rows(l.t, s.n_embd);
    let nu: u32 = rows(l.t, s.n_expert_used);
    let ghost st = p.store();
    p.copy(Kernel::Copy { count: ne as u64 }, Buf::Tier(tier, TierBuf::Xin), Buf::Normed);
    p.copy(Kernel::Copy { count: nu as u64 }, Buf::Tier(tier, TierBuf::Weights), Buf::RouterWeights);
    p.op1(
        Kernel::QuantizeQ8k { n: s.n_embd, rows: l.t },
        Buf::Tier(tier, TierBuf::Xq),
        Buf::Tier(tier, TierBuf::Xin),
    );
    if g > 0 {
        let none: Vec<Buf> = Vec::new();
        assert(program::contents(p.store(), none@) =~= Seq::<Term<Buf, Kernel>>::empty());
        p.op_triple(
            Kernel::WriteGroups { tier, n_group: g },
            Buf::Tier(tier, TierBuf::GrpPtrs),
            Buf::Tier(tier, TierBuf::GrpStarts),
            Buf::Tier(tier, TierBuf::GrpPairs),
            none,
        );
        let ghost m = p.store();
        let mut a: Vec<Buf> = Vec::new();
        a.push(Buf::Tier(tier, TierBuf::GrpPtrs));
        a.push(Buf::Tier(tier, TierBuf::GrpStarts));
        a.push(Buf::Tier(tier, TierBuf::GrpPairs));
        a.push(Buf::Tier(tier, TierBuf::Weights));
        a.push(Buf::Tier(tier, TierBuf::Xq));
        let ghost w = Kernel::WriteGroups { tier, n_group: g };
        assert(program::contents(m, a@) =~= seq![
            host(w, 0),
            host(w, 1),
            host(w, 2),
            st[Buf::RouterWeights],
            program::ap1(Kernel::QuantizeQ8k { n: s.n_embd, rows: l.t }, st[Buf::Normed]),
        ]);
        p.op_list(
            Kernel::MoePairGrouped {
                n_embd: s.n_embd,
                n_ff: s.n_ff_exp,
                n_used: s.n_expert_used,
                n_group: g,
                row_bytes: l.x.gate.row_bytes,
                quant: l.x.gate.quant,
                act: l.act,
            },
            Buf::Tier(tier, TierBuf::Mid),
            a,
        );
        p.op1(
            Kernel::QuantizeQ8k { n: s.n_ff_exp, rows: nu },
            Buf::Tier(tier, TierBuf::Midq),
            Buf::Tier(tier, TierBuf::Mid),
        );
        proof {
            lemma_partial(l.t as int, s.n_expert_used as int, s.n_embd as int);
        }
        let nz: u64 = l.t as u64 * (s.n_expert_used as u64 * s.n_embd as u64);
        p.op0(Kernel::Zero { count: nz }, Buf::Tier(tier, TierBuf::GrpPartial));
        let ghost m = p.store();
        let mut a: Vec<Buf> = Vec::new();
        a.push(Buf::Tier(tier, TierBuf::GrpPartial));
        a.push(Buf::Tier(tier, TierBuf::GrpPtrs));
        a.push(Buf::Tier(tier, TierBuf::GrpStarts));
        a.push(Buf::Tier(tier, TierBuf::GrpPairs));
        a.push(Buf::Tier(tier, TierBuf::Midq));
        assert(program::contents(m, a@) =~= seq![
            host(Kernel::Zero { count: nz }, 0),
            host(w, 0),
            host(w, 1),
            host(w, 2),
            m[Buf::Tier(tier, TierBuf::Midq)],
        ]);
        p.op_list(
            Kernel::MoeDownGrouped {
                n_ff: s.n_ff_exp,
                n_embd: s.n_embd,
                n_used: s.n_expert_used,
                n_group: g,
                row_bytes: l.x.down.row_bytes,
                quant: l.x.down.quant,
            },
            Buf::Tier(tier, TierBuf::GrpPartial),
            a,
        );
        p.op1(
            Kernel::MoeSlotSum { n_embd: s.n_embd, n_used: s.n_expert_used, t: l.t },
            Buf::Tier(tier, TierBuf::Out),
            Buf::Tier(tier, TierBuf::GrpPartial),
        );
    } else {
        p.op0(Kernel::WriteTierPtrs { tier }, Buf::Tier(tier, TierBuf::Ptrs));
        p.op3(
            Kernel::MoePair {
                n_embd: s.n_embd,
                n_ff: s.n_ff_exp,
                n_used: s.n_expert_used,
                t: l.t,
                row_bytes: l.x.gate.row_bytes,
                quant: l.x.gate.quant,
                act: l.act,
            },
            Buf::Tier(tier, TierBuf::Mid),
            Buf::Tier(tier, TierBuf::Ptrs),
            Buf::Tier(tier, TierBuf::Weights),
            Buf::Tier(tier, TierBuf::Xq),
        );
        p.op1(
            Kernel::QuantizeQ8k { n: s.n_ff_exp, rows: nu },
            Buf::Tier(tier, TierBuf::Midq),
            Buf::Tier(tier, TierBuf::Mid),
        );
        p.op2(
            Kernel::MoeDown {
                n_ff: s.n_ff_exp,
                n_embd: s.n_embd,
                n_used: s.n_expert_used,
                t: l.t,
                row_bytes: l.x.down.row_bytes,
                quant: l.x.down.quant,
            },
            Buf::Tier(tier, TierBuf::Out),
            Buf::Tier(tier, TierBuf::Ptrs),
            Buf::Tier(tier, TierBuf::Midq),
        );
    }
}

/// Launches the experts of a chunk. `counts` says how many slots each tier computes, `groups` in how
/// many groups it does (none: slot by slot), `lane` whether the host computes any.
pub fn dsv4_moe(
    p: &mut Program<Buf, Kernel>,
    s: &Shape,
    l: &Launch,
    counts: &Vec<u64>,
    groups: &Vec<u32>,
    lane: bool,
)
    requires
        s.wf_experts(),
        l.t <= 16,
        counts@.len() == groups@.len() <= u32::MAX,
    ensures
        final(p).store()[Buf::MoeOut] == experts_output(
            *s,
            *l,
            counts@,
            groups@,
            lane,
            old(p).store(),
        ),
        forall|b: Buf| !experts_write(b) ==> #[trigger] final(p).store()[b] == old(p).store()[b],
{
    let ghost st = p.store();
    let ne: u32 = rows(l.t, s.n_embd);
    let nu: u32 = rows(l.t, s.n_expert_used);
    let nt: usize = counts.len();
    p.op0(Kernel::WriteExpertPtrs { n: l.n_slots }, Buf::ExpertPtrs);
    let ghost x = st[Buf::Normed];
    let ghost w = st[Buf::RouterWeights];
    let mut i: usize = 0;
    while i < nt
        invariant
            i <= nt,
            nt == counts@.len() == groups@.len() <= u32::MAX,
            s.wf_experts(),
            l.t <= 16,
            x == st[Buf::Normed],
            w == st[Buf::RouterWeights],
            p.store()[Buf::ExpertPtrs] == host(Kernel::WriteExpertPtrs { n: l.n_slots }, 0),
            forall|b: Buf| !experts_write(b) ==> #[trigger] p.store()[b] == st[b],
            forall|k: int|
                0 <= k < i && #[trigger] counts@[k] != 0 ==> p.store()[Buf::Tier(
                    k as u32,
                    TierBuf::Out,
                )] == tier_output(*s, *l, k as u32, groups@[k], x, w),
        decreases nt - i,
    {
        if counts[i] != 0 {
            run_tier(p, s, l, i as u32, groups[i]);
        }
        i = i + 1;
    }
    p.op3(
        Kernel::MoePair {
            n_embd: s.n_embd,
            n_ff: s.n_ff_exp,
            n_used: s.n_expert_used,
            t: l.t,
            row_bytes: l.x.gate.row_bytes,
            quant: l.x.gate.quant,
            act: l.act,
        },
        Buf::MoeMid,
        Buf::ExpertPtrs,
        Buf::RouterWeights,
        Buf::Xq,
    );
    p.op1(Kernel::QuantizeQ8k { n: s.n_ff_exp, rows: nu }, Buf::Midq, Buf::MoeMid);
    p.op2(
        Kernel::MoeDown {
            n_ff: s.n_ff_exp,
            n_embd: s.n_embd,
            n_used: s.n_expert_used,
            t: l.t,
            row_bytes: l.x.down.row_bytes,
            quant: l.x.down.quant,
        },
        Buf::MoeOut,
        Buf::ExpertPtrs,
        Buf::Midq,
    );
    let ghost primary = p.store()[Buf::MoeOut];
    let mut i: usize = 0;
    while i < nt
        invariant
            i <= nt,
            nt == counts@.len() == groups@.len() <= u32::MAX,
            ne == shape::times(l.t as int, s.n_embd as int),
            forall|b: Buf| !experts_write(b) ==> #[trigger] p.store()[b] == st[b],
            forall|k: int|
                0 <= k < nt && #[trigger] counts@[k] != 0 ==> p.store()[Buf::Tier(
                    k as u32,
                    TierBuf::Out,
                )] == tier_output(*s, *l, k as u32, groups@[k], x, w),
            p.store()[Buf::MoeOut] == with_tiers(
                *s,
                *l,
                counts@,
                groups@,
                x,
                w,
                primary,
                i as int,
            ),
        decreases nt - i,
    {
        if counts[i] != 0 {
            p.copy(Kernel::Copy { count: ne as u64 }, Buf::TierRet, Buf::Tier(i as u32, TierBuf::Out));
            p.op2(Kernel::Add { n: ne }, Buf::MoeOut, Buf::MoeOut, Buf::TierRet);
        }
        i = i + 1;
    }
    if lane {
        p.op0(Kernel::HostPartial { n: ne }, Buf::CpuRet);
        p.op2(Kernel::Add { n: ne }, Buf::MoeOut, Buf::MoeOut, Buf::CpuRet);
    }
}

/// Where no tier and not the host computes anything, the experts give what the primary device
/// gives.
pub proof fn law_primary_alone(
    s: Shape,
    l: Launch,
    counts: Seq<u64>,
    groups: Seq<u32>,
    x: Term<Buf, Kernel>,
    weights: Term<Buf, Kernel>,
    primary: Term<Buf, Kernel>,
    n: int,
)
    requires
        0 <= n <= counts.len(),
        forall|k: int| 0 <= k < n ==> #[trigger] counts[k] == 0,
    ensures
        with_tiers(s, l, counts, groups, x, weights, primary, n) == primary,
    decreases n,
{
    if n > 0 {
        law_primary_alone(s, l, counts, groups, x, weights, primary, n - 1);
        assert(counts[n - 1] == 0);
    }
}

} // verus!
