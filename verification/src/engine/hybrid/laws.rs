//! What the routed experts of a chunk compute, operand by operand.
use vstd::prelude::*;

use super::kernels::{Buf, Kernel};
use super::moe;
use super::moe::Launch;
use super::shape::Shape;
use crate::engine::program::Term;

verus! {

/// What is known of the buffers.
pub type Store = Map<Buf, Term<Buf, Kernel>>;

/// `f` launched on one operand.
pub open spec fn on(f: Kernel, x: Term<Buf, Kernel>) -> Term<Buf, Kernel> {
    Term::App { f, part: 0, args: seq![x] }
}

/// `f` launched on two operands.
pub open spec fn on2(f: Kernel, x: Term<Buf, Kernel>, y: Term<Buf, Kernel>) -> Term<Buf, Kernel> {
    Term::App { f, part: 0, args: seq![x, y] }
}

/// `f` launched on three operands.
pub open spec fn on3(
    f: Kernel,
    x: Term<Buf, Kernel>,
    y: Term<Buf, Kernel>,
    z: Term<Buf, Kernel>,
) -> Term<Buf, Kernel> {
    Term::App { f, part: 0, args: seq![x, y, z] }
}

/// Result `part` of what the host writes by `f`.
pub open spec fn given(f: Kernel, part: nat) -> Term<Buf, Kernel> {
    Term::App { f, part, args: Seq::empty() }
}

/// `t` is result `part` of a launch of `f` whose operand `i` is `x`.
pub open spec fn takes(
    t: Term<Buf, Kernel>,
    f: Kernel,
    part: nat,
    i: int,
    x: Term<Buf, Kernel>,
) -> bool {
    t matches Term::App { f: g, part: p, args } && g == f && p == part && 0 <= i < args.len()
        && args[i] == x
}

/// Slot by slot, an expert takes the quantized input through gate and up, scaled by the router's
/// weight, quantizes what comes out and takes it down; both launches go by the same pointers, and
/// by the formats of the tensors that they read.
pub proof fn law_slots(
    s: Shape,
    l: Launch,
    ptrs: Term<Buf, Kernel>,
    weights: Term<Buf, Kernel>,
    xq: Term<Buf, Kernel>,
)
    ensures
        ({
            let pair = Kernel::MoePair {
                n_embd: s.n_embd,
                n_ff: s.n_ff_exp,
                n_used: s.n_expert_used,
                t: l.t,
                row_bytes: l.x.gate.row_bytes,
                quant: l.x.gate.quant,
                act: l.act,
            };
            let down = Kernel::MoeDown {
                n_ff: s.n_ff_exp,
                n_embd: s.n_embd,
                n_used: s.n_expert_used,
                t: l.t,
                row_bytes: l.x.down.row_bytes,
                quant: l.x.down.quant,
            };
            let squeeze = Kernel::QuantizeQ8k {
                n: s.n_ff_exp,
                rows: (l.t * s.n_expert_used) as u32,
            };
            moe::by_slots(s, l, ptrs, weights, xq) == on2(
                down,
                ptrs,
                on(squeeze, on3(pair, ptrs, weights, xq)),
            )
        }),
{
}

/// By groups, the same is computed expert by expert: the three tables of the groups go into both
/// launches, what an expert gives lands on a cleared store, and the slots of a token are added up
/// in the end.
pub proof fn law_groups_add_up(
    s: Shape,
    l: Launch,
    tier: u32,
    g: u32,
    weights: Term<Buf, Kernel>,
    xq: Term<Buf, Kernel>,
)
    ensures
        ({
            let w = Kernel::WriteGroups { tier, n_group: g };
            let pair = Kernel::MoePairGrouped {
                n_embd: s.n_embd,
                n_ff: s.n_ff_exp,
                n_used: s.n_expert_used,
                n_group: g,
                row_bytes: l.x.gate.row_bytes,
                quant: l.x.gate.quant,
                act: l.act,
            };
            let down = Kernel::MoeDownGrouped {
                n_ff: s.n_ff_exp,
                n_embd: s.n_embd,
                n_used: s.n_expert_used,
                n_group: g,
                row_bytes: l.x.down.row_bytes,
                quant: l.x.down.quant,
            };
            let squeeze = Kernel::QuantizeQ8k {
                n: s.n_ff_exp,
                rows: (l.t * s.n_expert_used) as u32,
            };
            let mid = Term::App {
                f: pair,
                part: 0,
                args: seq![given(w, 0), given(w, 1), given(w, 2), weights, xq],
            };
            let clear = given(
                Kernel::Zero { count: (l.t * (s.n_expert_used * s.n_embd)) as u64 },
                0,
            );
            let parts = Term::App {
                f: down,
                part: 0,
                args: seq![clear, given(w, 0), given(w, 1), given(w, 2), on(squeeze, mid)],
            };
            moe::by_groups(s, l, tier, g, weights, xq) == on(
                Kernel::MoeSlotSum { n_embd: s.n_embd, n_used: s.n_expert_used, t: l.t },
                parts,
            )
        }),
{
}

/// A tier quantizes the plain input itself, and reads its own pointers or its own groups.
pub proof fn law_tier(
    s: Shape,
    l: Launch,
    tier: u32,
    g: u32,
    x: Term<Buf, Kernel>,
    weights: Term<Buf, Kernel>,
)
    ensures
        ({
            let xq = on(Kernel::QuantizeQ8k { n: s.n_embd, rows: l.t }, x);
            &&& g > 0 ==> moe::tier_output(s, l, tier, g, x, weights) == moe::by_groups(
                s,
                l,
                tier,
                g,
                weights,
                xq,
            )
            &&& g == 0 ==> moe::tier_output(s, l, tier, g, x, weights) == moe::by_slots(
                s,
                l,
                given(Kernel::WriteTierPtrs { tier }, 0),
                weights,
                xq,
            )
        }),
{
}

/// Each tier that has slots adds what it gives to what was there; one that has none changes
/// nothing.
pub proof fn law_tier_adds(
    s: Shape,
    l: Launch,
    counts: Seq<u64>,
    groups: Seq<u32>,
    x: Term<Buf, Kernel>,
    weights: Term<Buf, Kernel>,
    primary: Term<Buf, Kernel>,
    n: int,
)
    requires
        0 <= n < counts.len(),
    ensures
        moe::with_tiers(s, l, counts, groups, x, weights, primary, 0) == primary,
        ({
            let before = moe::with_tiers(s, l, counts, groups, x, weights, primary, n);
            moe::with_tiers(s, l, counts, groups, x, weights, primary, n + 1) == if counts[n] > 0 {
                on2(
                    Kernel::Add { n: (l.t * s.n_embd) as u32 },
                    before,
                    moe::tier_output(s, l, n as u32, groups[n], x, weights),
                )
            } else {
                before
            }
        }),
{
}

/// The experts of a chunk give what the primary device gives on the quantized input, with all
/// tiers added, and with what the host computed added where it computed any.
pub proof fn law_homes_add_up(
    s: Shape,
    l: Launch,
    counts: Seq<u64>,
    groups: Seq<u32>,
    lane: bool,
    st: Store,
)
    ensures
        ({
            let primary = moe::by_slots(
                s,
                l,
                given(Kernel::WriteExpertPtrs { n: l.n_slots }, 0),
                st[Buf::RouterWeights],
                st[Buf::Xq],
            );
            let all = moe::with_tiers(
                s,
                l,
                counts,
                groups,
                st[Buf::Normed],
                st[Buf::RouterWeights],
                primary,
                counts.len() as int,
            );
            let n = (l.t * s.n_embd) as u32;
            moe::experts_output(s, l, counts, groups, lane, st) == if lane {
                on2(Kernel::Add { n }, all, given(Kernel::HostPartial { n }, 0))
            } else {
                all
            }
        }),
{
}

} // verus!
