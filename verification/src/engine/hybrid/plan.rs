//! Where routed experts are computed: on a resident tier, on the host, or on the primary device.
use std::collections::HashMap;
use vstd::prelude::*;

use crate::engine::experts;
use crate::engine::experts::{distinct_experts, slab_offsets, ExpertTensor, SlabOffsets};
use crate::stream::Read;

verus! {

broadcast use vstd::std_specs::hash::group_hash_axioms;

/// Handles of the three slabs of an expert; zero is none.
#[derive(Debug, Clone, Copy, PartialEq, Eq, Structural)]
pub struct ExpertPtrs {
    pub gate: u64,
    pub up: u64,
    pub down: u64,
}

/// No expert.
pub open spec fn null() -> ExpertPtrs {
    ExpertPtrs { gate: 0, up: 0, down: 0 }
}

/// The three expert tensors of a layer.
#[derive(Debug, Clone, Copy, PartialEq, Eq, Structural)]
pub struct Experts {
    pub gate: ExpertTensor,
    pub up: ExpertTensor,
    pub down: ExpertTensor,
    pub n_expert: u32,
}

impl Experts {
    /// Every slab lies within 64 bits.
    pub open spec fn wf(self) -> bool {
        &&& self.gate.holds(self.n_expert as int)
        &&& self.up.holds(self.n_expert as int)
        &&& self.down.holds(self.n_expert as int)
    }

    /// Whether every slab lies within 64 bits.
    pub fn fits(&self) -> (r: bool)
        ensures
            r == self.wf(),
    {
        self.gate.fits(self.n_expert) && self.up.fits(self.n_expert) && self.down.fits(
            self.n_expert,
        )
    }

    /// Where the slabs of an expert begin.
    pub open spec fn slabs(self, e: i32) -> SlabOffsets {
        experts::offsets_of(e, self.gate, self.up, self.down)
    }
}

/// What each place holds when a layer begins: slab offsets and handles.
pub struct Holdings {
    /// Resident tiers.
    pub tiers: Vec<HashMap<u64, u64>>,
    /// Cache of the primary device.
    pub dev: HashMap<u64, u64>,
    /// Slabs that stay on the primary device for drafting.
    pub draft: HashMap<u64, u64>,
    /// Cache of the host.
    pub host: HashMap<u64, u64>,
    /// Whether the host computes experts.
    pub cpu_on: bool,
    /// Whether the host takes experts that the device cache holds too.
    pub steal: bool,
}

/// A map holds the three slabs of an expert.
pub open spec fn holds_all(m: Map<u64, u64>, o: SlabOffsets) -> bool {
    m.contains_key(o.gate) && m.contains_key(o.up) && m.contains_key(o.down)
}

/// The handles of the three slabs of an expert.
pub open spec fn handles(m: Map<u64, u64>, o: SlabOffsets) -> ExpertPtrs {
    ExpertPtrs { gate: m[o.gate], up: m[o.up], down: m[o.down] }
}

/// The handles of the three slabs of an expert, where a map holds them all.
pub fn look_up(m: &HashMap<u64, u64>, o: SlabOffsets) -> (r: Option<ExpertPtrs>)
    ensures
        match r {
            Some(p) => holds_all(m@, o) && p == handles(m@, o),
            None => !holds_all(m@, o),
        },
{
    match (m.get(&o.gate), m.get(&o.up), m.get(&o.down)) {
        (Some(g), Some(u), Some(d)) => Some(ExpertPtrs { gate: *g, up: *u, down: *d }),
        _ => None,
    }
}

/// The first tier, from `i` on, that holds the three slabs of an expert.
pub open spec fn tier_of(tiers: Seq<HashMap<u64, u64>>, o: SlabOffsets, i: int) -> Option<int>
    decreases tiers.len() - i,
{
    if i >= tiers.len() {
        None
    } else if holds_all(tiers[i]@, o) {
        Some(i)
    } else {
        tier_of(tiers, o, i + 1)
    }
}

/// Where an expert is computed.
#[derive(Debug, Clone, Copy, PartialEq, Eq, Structural)]
pub enum Home {
    /// On a resident tier.
    Tier(usize, ExpertPtrs),
    /// On the host.
    Host(ExpertPtrs),
    /// On the primary device.
    Primary,
}

impl Holdings {
    /// Where an expert is computed: on the first tier that holds it; else on the host where that
    /// computes experts, holds it, and leaves nothing to the device; else on the primary device.
    pub open spec fn home(self, o: SlabOffsets) -> Home {
        match tier_of(self.tiers@, o, 0) {
            Some(t) => Home::Tier(t as usize, handles(self.tiers@[t]@, o)),
            None => if self.cpu_on && (self.steal || !(self.dev@.contains_key(o.gate)
                || self.dev@.contains_key(o.up) || self.dev@.contains_key(o.down)))
                && !self.draft@.contains_key(o.gate) && holds_all(self.host@, o) {
                Home::Host(handles(self.host@, o))
            } else {
                Home::Primary
            },
        }
    }

    pub fn home_of(&self, o: SlabOffsets) -> (r: Home)
        ensures
            r == self.home(o),
    {
        let n: usize = self.tiers.len();
        let mut i: usize = 0;
        while i < n
            invariant
                i <= n,
                n == self.tiers@.len(),
                tier_of(self.tiers@, o, 0) == tier_of(self.tiers@, o, i as int),
            decreases n - i,
        {
            match look_up(&self.tiers[i], o) {
                Some(p) => {
                    return Home::Tier(i, p);
                },
                None => {},
            }
            i = i + 1;
        }
        if !self.cpu_on {
            return Home::Primary;
        }
        if !self.steal && (self.dev.contains_key(&o.gate) || self.dev.contains_key(&o.up)
            || self.dev.contains_key(&o.down)) {
            return Home::Primary;
        }
        if self.draft.contains_key(&o.gate) {
            return Home::Primary;
        }
        match look_up(&self.host, o) {
            Some(p) => Home::Host(p),
            None => Home::Primary,
        }
    }
}

/// Whether the host may compute experts: where it has workers, for few tokens, with memory of its
/// own, on whole blocks, and in formats that it knows.
pub fn cpu_lane_on(
    pool: bool,
    n_tok: u32,
    unified: bool,
    n_embd: u32,
    n_ff: u32,
    x: &Experts,
    gate_known: bool,
    down_known: bool,
) -> (r: bool)
    ensures
        r == (pool && n_tok <= 8 && !unified && n_embd % 256 == 0 && n_ff % 256 == 0 && x.gate.quant
            == x.up.quant && gate_known && down_known),
{
    pool && n_tok <= 8 && !unified && n_embd % 256 == 0 && n_ff % 256 == 0 && x.gate.quant
        == x.up.quant && gate_known && down_known
}

/// What is to be done before a layer's experts run.
pub struct Plan {
    /// Experts on the host, and their handles.
    pub lane: Vec<(i32, ExpertPtrs)>,
    /// Slabs that must stay in the host's cache meanwhile.
    pub pins: Vec<u64>,
    /// Slabs on tiers whose use is counted.
    pub touched: Vec<Read>,
    /// Slabs that the primary device needs.
    pub reads: Vec<Read>,
}

/// The experts of a list that the host computes, with their handles.
pub open spec fn lane_of(list: Seq<i32>, h: Holdings, x: Experts) -> Seq<(i32, ExpertPtrs)>
    decreases list.len(),
{
    if list.len() == 0 {
        Seq::empty()
    } else {
        let t = lane_of(list.drop_last(), h, x);
        match h.home(x.slabs(list.last())) {
            Home::Host(p) => t.push((list.last(), p)),
            _ => t,
        }
    }
}

/// Where the slabs of the experts of the host's list begin.
pub open spec fn pins_of(list: Seq<i32>, h: Holdings, x: Experts) -> Seq<u64>
    decreases list.len(),
{
    if list.len() == 0 {
        Seq::empty()
    } else {
        let t = pins_of(list.drop_last(), h, x);
        let o = x.slabs(list.last());
        if h.home(o) is Host {
            t + seq![o.gate, o.up, o.down]
        } else {
            t
        }
    }
}

/// The reads of one expert.
pub open spec fn reads_of(e: i32, x: Experts) -> Seq<Read> {
    let o = x.slabs(e);
    seq![
        Read { offset: o.gate, len: x.gate.expert_bytes },
        Read { offset: o.up, len: x.up.expert_bytes },
        Read { offset: o.down, len: x.down.expert_bytes },
    ]
}

/// The slabs of the experts of a list that are computed on tiers, or on the primary device.
pub open spec fn slabs_at(list: Seq<i32>, h: Holdings, x: Experts, tier: bool) -> Seq<Read>
    decreases list.len(),
{
    if list.len() == 0 {
        Seq::empty()
    } else {
        let t = slabs_at(list.drop_last(), h, x, tier);
        let home = h.home(x.slabs(list.last()));
        if (tier && home is Tier) || (!tier && home is Primary) {
            t + reads_of(list.last(), x)
        } else {
            t
        }
    }
}

/// Appends the reads of one expert.
fn push_reads(out: &mut Vec<Read>, o: SlabOffsets, x: &Experts)
    ensures
        final(out)@ == old(out)@ + seq![
            Read { offset: o.gate, len: x.gate.expert_bytes },
            Read { offset: o.up, len: x.up.expert_bytes },
            Read { offset: o.down, len: x.down.expert_bytes },
        ],
{
    out.push(Read { offset: o.gate, len: x.gate.expert_bytes });
    out.push(Read { offset: o.up, len: x.up.expert_bytes });
    out.push(Read { offset: o.down, len: x.down.expert_bytes });
    assert(out@ =~= old(out)@ + seq![
        Read { offset: o.gate, len: x.gate.expert_bytes },
        Read { offset: o.up, len: x.up.expert_bytes },
        Read { offset: o.down, len: x.down.expert_bytes },
    ]);
}

/// Sorts the distinct selected experts by where they are computed.
pub fn plan_experts(selected: &[i32], h: &Holdings, x: &Experts) -> (r: Plan)
    requires
        x.wf(),
    ensures
        ({
            let d = experts::distinct_of(selected@, x.n_expert);
            &&& r.lane@ == lane_of(d, *h, *x)
            &&& r.pins@ == pins_of(d, *h, *x)
            &&& r.touched@ == slabs_at(d, *h, *x, true)
            &&& r.reads@ == slabs_at(d, *h, *x, false)
        }),
{
    let d = distinct_experts(selected, x.n_expert);
    let n: usize = d.len();
    let mut p = Plan {
        lane: Vec::new(),
        pins: Vec::new(),
        touched: Vec::new(),
        reads: Vec::new(),
    };
    let mut i: usize = 0;
    assert(d@.take(0) =~= Seq::<i32>::empty());
    while i < n
        invariant
            i <= n,
            n == d@.len(),
            x.wf(),
            forall|e: i32| #[trigger]
                d@.contains(e) ==> experts::in_range(e, x.n_expert),
            p.lane@ == lane_of(d@.take(i as int), *h, *x),
            p.pins@ == pins_of(d@.take(i as int), *h, *x),
            p.touched@ == slabs_at(d@.take(i as int), *h, *x, true),
            p.reads@ == slabs_at(d@.take(i as int), *h, *x, false),
        decreases n - i,
    {
        let e: i32 = d[i];
        assert(d@.contains(e));
        assert(d@.take(i + 1).drop_last() =~= d@.take(i as int));
        let o = slab_offsets(e, &x.gate, &x.up, &x.down, x.n_expert);
        match h.home_of(o) {
            Home::Tier(_, _) => {
                push_reads(&mut p.touched, o, x);
            },
            Home::Host(q) => {
                p.lane.push((e, q));
                let ghost before = p.pins@;
                p.pins.push(o.gate);
                p.pins.push(o.up);
                p.pins.push(o.down);
                assert(p.pins@ =~= before + seq![o.gate, o.up, o.down]);
            },
            Home::Primary => {
                push_reads(&mut p.reads, o, x);
            },
        }
        i = i + 1;
    }
    assert(d@.take(n as int) =~= d@);
    p
}

/// Reads that the device cache does not serve.
pub open spec fn unserved(reads: Seq<Read>, hit: Seq<bool>, unified: bool, n: int) -> Seq<Read>
    decreases n,
{
    if n <= 0 {
        Seq::empty()
    } else {
        let t = unserved(reads, hit, unified, n - 1);
        if unified || !hit[n - 1] {
            t.push(reads[n - 1])
        } else {
            t
        }
    }
}

/// Reads that are wanted from the store: all where memory is shared, else those that the device
/// cache does not serve.
pub fn wanted(reads: &Vec<Read>, hit: &Vec<bool>, unified: bool) -> (r: Vec<Read>)
    requires
        hit@.len() == reads@.len(),
    ensures
        r@ == unserved(reads@, hit@, unified, reads@.len() as int),
{
    let mut out: Vec<Read> = Vec::new();
    let n: usize = reads.len();
    let mut i: usize = 0;
    while i < n
        invariant
            i <= n,
            n == reads@.len() == hit@.len(),
            out@ == unserved(reads@, hit@, unified, i as int),
        decreases n - i,
    {
        if unified || !hit[i] {
            out.push(reads[i]);
        }
        i = i + 1;
    }
    out
}

/// The size that the staging buffer must grow to, where it is too small.
pub fn grown_staging(total: usize, slack: usize, have: usize) -> (r: Option<usize>)
    requires
        total + slack <= usize::MAX,
    ensures
        r == (if total + slack > have {
            Some((total + slack) as usize)
        } else {
            None
        }),
{
    if total + slack > have {
        Some(total + slack)
    } else {
        None
    }
}

/// The handles of every selected slot, by the place that computes it.
pub struct Slots {
    pub primary: Vec<ExpertPtrs>,
    pub tiers: Vec<Vec<ExpertPtrs>>,
    /// How many slots each tier computes.
    pub counts: Vec<u64>,
}

/// What the primary device is given for a selected expert.
pub open spec fn primary_slot(e: i32, h: Holdings, x: Experts, resolved: Map<u64, u64>) -> ExpertPtrs {
    if experts::in_range(e, x.n_expert) && h.home(x.slabs(e)) is Primary {
        handles(resolved, x.slabs(e))
    } else {
        null()
    }
}

/// What a tier is given for a selected expert.
pub open spec fn tier_slot(e: i32, h: Holdings, x: Experts, t: int) -> ExpertPtrs {
    if experts::in_range(e, x.n_expert) {
        match h.home(x.slabs(e)) {
            Home::Tier(k, p) => if k == t {
                p
            } else {
                null()
            },
            _ => null(),
        }
    } else {
        null()
    }
}

/// A tier computes a selected expert.
pub open spec fn on_tier(e: i32, h: Holdings, x: Experts, t: int) -> bool {
    experts::in_range(e, x.n_expert) && (h.home(x.slabs(e)) matches Home::Tier(k, _) && k == t)
}

/// How many of the first `n` slots a tier computes.
pub open spec fn tier_count(selected: Seq<i32>, h: Holdings, x: Experts, t: int, n: int) -> nat
    decreases n,
{
    if n <= 0 {
        0
    } else {
        tier_count(selected, h, x, t, n - 1) + (if on_tier(selected[n - 1], h, x, t) {
            1nat
        } else {
            0nat
        })
    }
}

/// The slabs of every selected expert that the primary device computes have been brought.
pub open spec fn all_resolved(
    selected: Seq<i32>,
    h: Holdings,
    x: Experts,
    resolved: Map<u64, u64>,
) -> bool {
    forall|i: int|
        0 <= i < selected.len() && experts::in_range(#[trigger] selected[i], x.n_expert) && h.home(
            x.slabs(selected[i]),
        ) is Primary ==> holds_all(resolved, x.slabs(selected[i]))
}

/// A row of `n` slots without experts.
fn no_slots(n: usize) -> (r: Vec<ExpertPtrs>)
    ensures
        r@ == Seq::new(n as nat, |i: int| null()),
{
    let mut v: Vec<ExpertPtrs> = Vec::new();
    let mut i: usize = 0;
    while i < n
        invariant
            i <= n,
            v@ == Seq::new(i as nat, |k: int| null()),
        decreases n - i,
    {
        v.push(ExpertPtrs { gate: 0, up: 0, down: 0 });
        assert(v@ =~= Seq::new((i + 1) as nat, |k: int| null()));
        i = i + 1;
    }
    v
}

proof fn lemma_tier_of(tiers: Seq<HashMap<u64, u64>>, o: SlabOffsets, i: int)
    requires
        0 <= i,
    ensures
        tier_of(tiers, o, i) matches Some(t) ==> i <= t < tiers.len() && holds_all(tiers[t]@, o),
    decreases tiers.len() - i,
{
    if i < tiers.len() && !holds_all(tiers[i]@, o) {
        lemma_tier_of(tiers, o, i + 1);
    }
}

/// Gives every selected slot to the place that computes it.
pub fn fill_slots(selected: &[i32], h: &Holdings, x: &Experts, resolved: &HashMap<u64, u64>) -> (r:
    Slots)
    requires
        x.wf(),
        all_resolved(selected@, *h, *x, resolved@),
    ensures
        r.primary@ == selected@.map_values(|e: i32| primary_slot(e, *h, *x, resolved@)),
        r.tiers@.len() == h.tiers@.len(),
        r.counts@.len() == h.tiers@.len(),
        forall|t: int|
            0 <= t < h.tiers@.len() ==> (#[trigger] r.tiers@[t])@ == selected@.map_values(
                |e: i32| tier_slot(e, *h, *x, t),
            ),
        forall|t: int|
            0 <= t < h.tiers@.len() ==> #[trigger] r.counts@[t] == tier_count(
                selected@,
                *h,
                *x,
                t,
                selected@.len() as int,
            ),
{
    let n: usize = selected.len();
    let nt: usize = h.tiers.len();
    let mut s = Slots { primary: Vec::new(), tiers: Vec::new(), counts: Vec::new() };
    let mut t: usize = 0;
    while t < nt
        invariant
            t <= nt,
            s.primary@.len() == 0,
            s.tiers@.len() == t,
            s.counts@.len() == t,
            forall|k: int|
                0 <= k < t ==> (#[trigger] s.tiers@[k])@ == Seq::new(n as nat, |i: int| null()),
            forall|k: int| 0 <= k < t ==> #[trigger] s.counts@[k] == 0,
        decreases nt - t,
    {
        s.tiers.push(no_slots(n));
        s.counts.push(0);
        t = t + 1;
    }
    let mut i: usize = 0;
    while i < n
        invariant
            i <= n,
            n == selected@.len(),
            nt == h.tiers@.len(),
            x.wf(),
            all_resolved(selected@, *h, *x, resolved@),
            s.primary@ == selected@.take(i as int).map_values(
                |e: i32| primary_slot(e, *h, *x, resolved@),
            ),
            s.tiers@.len() == nt,
            s.counts@.len() == nt,
            forall|k: int| 0 <= k < nt ==> (#[trigger] s.tiers@[k])@.len() == n,
            forall|k: int, j: int|
                0 <= k < nt && 0 <= j < n ==> (#[trigger] s.tiers@[k]@[j]) == (if j < i {
                    tier_slot(selected@[j], *h, *x, k)
                } else {
                    null()
                }),
            forall|k: int|
                0 <= k < nt ==> #[trigger] s.counts@[k] == tier_count(
                    selected@,
                    *h,
                    *x,
                    k,
                    i as int,
                ) && s.counts@[k] <= i,
        decreases n - i,
    {
        let e: i32 = selected[i];
        let ghost before = s;
        let mut p = ExpertPtrs { gate: 0, up: 0, down: 0 };
        if e >= 0 && (e as u32) < x.n_expert {
            let o = slab_offsets(e, &x.gate, &x.up, &x.down, x.n_expert);
            match h.home_of(o) {
                Home::Tier(k, q) => {
                    proof {
                        lemma_tier_of(h.tiers@, o, 0);
                    }
                    let c: u64 = s.counts[k];
                    s.counts.set(k, c + 1);
                    s.tiers[k].set(i, q);
                },
                Home::Host(_) => {},
                Home::Primary => {
                    assert(holds_all(resolved@, x.slabs(selected@[i as int])));
                    match look_up(resolved, o) {
                        Some(q) => {
                            p = q;
                        },
                        None => {},
                    }
                },
            }
        }
        s.primary.push(p);
        assert(s.primary@ =~= selected@.take(i + 1).map_values(
            |e: i32| primary_slot(e, *h, *x, resolved@),
        ));
        proof {
            assert forall|k: int, j: int| 0 <= k < nt && 0 <= j < n implies (
            #[trigger] s.tiers@[k]@[j]) == (if j < i + 1 {
                tier_slot(selected@[j], *h, *x, k)
            } else {
                null()
            }) by {
                assert(before.tiers@[k]@[j] == (if j < i {
                    tier_slot(selected@[j], *h, *x, k)
                } else {
                    null()
                }));
            }
        }
        i = i + 1;
    }
    assert(selected@.take(n as int) =~= selected@);
    assert forall|t: int| 0 <= t < nt implies (#[trigger] s.tiers@[t])@ == selected@.map_values(
        |e: i32| tier_slot(e, *h, *x, t),
    ) by {
        assert(s.tiers@[t]@ =~= selected@.map_values(|e: i32| tier_slot(e, *h, *x, t)));
    }
    s
}

/// Every selected expert that exists is computed in exactly one place: on the primary device, on one
/// tier, or on the host; one that does not exist, nowhere.
pub proof fn law_one_home(e: i32, h: Holdings, x: Experts)
    ensures
        ({
            let primary = experts::in_range(e, x.n_expert) && h.home(x.slabs(e)) is Primary;
            let host = experts::in_range(e, x.n_expert) && h.home(x.slabs(e)) is Host;
            let tier = exists|t: int| 0 <= t < h.tiers@.len() && on_tier(e, h, x, t);
            &&& !(primary && host) && !(primary && tier) && !(host && tier)
            &&& (primary || host || tier) == experts::in_range(e, x.n_expert)
            &&& forall|s: int, t: int| #[trigger]
                on_tier(e, h, x, s) && #[trigger] on_tier(e, h, x, t) ==> s == t
        }),
{
    lemma_tier_of(h.tiers@, x.slabs(e), 0);
    if experts::in_range(e, x.n_expert) {
        match tier_of(h.tiers@, x.slabs(e), 0) {
            Some(t) => {
                let k = h.tiers.len();
                assert(on_tier(e, h, x, t));
            },
            None => {},
        }
    }
}

} // verus!
