//! Slots of a tier grouped by expert, so that each expert is decoded once.
use vstd::prelude::*;

use super::plan::{ExpertPtrs, Experts};

verus! {

/// Whether a chunk is computed by groups: where it is as long as a verification, its slots fit in
/// four bits, rows are whole blocks, and the decoded rows fit in shared memory.
pub fn grouped(n_tok: u32, n_used: u32, n_ff: u32, x: &Experts, off: bool) -> (r: bool)
    ensures
        r == (n_tok >= 16 && n_used <= 16 && n_ff % 256 == 0 && 2 * x.gate.row_bytes * 4 <= 49152
            && 2 * x.up.row_bytes * 4 <= 49152 && x.down.row_bytes * 4 <= 49152 && !off),
{
    n_tok >= 16 && n_used <= 16 && n_ff % 256 == 0 && x.gate.row_bytes <= 6144 && x.up.row_bytes
        <= 6144 && x.down.row_bytes <= 12288 && !off
}

/// The place of the first key, from `i` on, with a given gate; past the end where there is none.
pub open spec fn key_at(keys: Seq<ExpertPtrs>, gate: u64, i: int) -> int
    decreases keys.len() - i,
{
    if i >= keys.len() || keys[i].gate == gate {
        i
    } else {
        key_at(keys, gate, i + 1)
    }
}

/// The experts of the first `n` slots, each once, in the order in which they come.
pub open spec fn keys_of(slots: Seq<ExpertPtrs>, n: int) -> Seq<ExpertPtrs>
    decreases n,
{
    if n <= 0 {
        Seq::empty()
    } else {
        let k = keys_of(slots, n - 1);
        let p = slots[n - 1];
        if p.gate != 0 && key_at(k, p.gate, 0) >= k.len() {
            k.push(p)
        } else {
            k
        }
    }
}

/// Token and slot of a place in the list of selected experts, as one number.
pub open spec fn code(i: int, n_used: int) -> int {
    (i / n_used) * 16 + i % n_used
}

/// The codes of those of the first `n` slots that have a given gate.
pub open spec fn members(slots: Seq<ExpertPtrs>, n_used: int, gate: u64, n: int) -> Seq<u32>
    decreases n,
{
    if n <= 0 {
        Seq::empty()
    } else {
        let m = members(slots, n_used, gate, n - 1);
        if slots[n - 1].gate == gate {
            m.push(code(n - 1, n_used) as u32)
        } else {
            m
        }
    }
}

/// The members of the first `g` groups, group by group.
pub open spec fn pairs_of(slots: Seq<ExpertPtrs>, n_used: int, keys: Seq<ExpertPtrs>, g: int) -> Seq<
    u32,
>
    decreases g,
{
    if g <= 0 {
        Seq::empty()
    } else {
        pairs_of(slots, n_used, keys, g - 1) + members(
            slots,
            n_used,
            keys[g - 1].gate,
            slots.len() as int,
        )
    }
}

/// Slots grouped by expert: the experts, where the members of each begin, and the members.
pub struct Groups {
    pub ptrs: Vec<ExpertPtrs>,
    pub starts: Vec<u32>,
    pub pairs: Vec<u32>,
}

/// Keys differ in their gates and have one.
pub open spec fn keyed(keys: Seq<ExpertPtrs>) -> bool {
    &&& forall|a: int, b: int|
        0 <= a < b < keys.len() ==> (#[trigger] keys[a]).gate != (#[trigger] keys[b]).gate
    &&& forall|a: int| 0 <= a < keys.len() ==> (#[trigger] keys[a]).gate != 0
}

proof fn lemma_key_at(keys: Seq<ExpertPtrs>, gate: u64, i: int)
    requires
        0 <= i <= keys.len(),
    ensures
        i <= key_at(keys, gate, i) <= keys.len(),
        key_at(keys, gate, i) < keys.len() ==> keys[key_at(keys, gate, i)].gate == gate,
        forall|a: int| i <= a < key_at(keys, gate, i) ==> (#[trigger] keys[a]).gate != gate,
    decreases keys.len() - i,
{
    if i < keys.len() && keys[i].gate != gate {
        lemma_key_at(keys, gate, i + 1);
    }
}

/// Every slot with an expert has a group, no two groups have the same expert, and the slots with a
/// given expert come in one group.
pub proof fn law_groups(slots: Seq<ExpertPtrs>, n: int)
    requires
        0 <= n <= slots.len(),
    ensures
        keyed(keys_of(slots, n)),
        keys_of(slots, n).len() <= n,
        forall|i: int|
            0 <= i < n && (#[trigger] slots[i]).gate != 0 ==> exists|g: int|
                0 <= g < keys_of(slots, n).len() && (#[trigger] keys_of(slots, n)[g]).gate
                    == slots[i].gate,
    decreases n,
{
    if n > 0 {
        law_groups(slots, n - 1);
        let k = keys_of(slots, n - 1);
        let e = keys_of(slots, n);
        let p = slots[n - 1];
        lemma_key_at(k, p.gate, 0);
        assert forall|i: int| 0 <= i < n && (#[trigger] slots[i]).gate != 0 implies exists|g: int|
            0 <= g < e.len() && (#[trigger] e[g]).gate == slots[i].gate by {
            if i < n - 1 {
                let g = choose|g: int|
                    0 <= g < k.len() && (#[trigger] k[g]).gate == slots[i].gate;
                assert(e[g] == k[g]);
            } else if key_at(k, p.gate, 0) >= k.len() {
                assert(e[e.len() - 1] == p);
            } else {
                assert(e[key_at(k, p.gate, 0)].gate == p.gate);
            }
        }
    }
}

/// The code of a place gives back its token and its slot.
pub proof fn law_code(i: int, n_used: int)
    requires
        0 <= i,
        0 < n_used <= 16,
    ensures
        (code(i, n_used) / 16) * n_used + code(i, n_used) % 16 == i,
        code(i, n_used) % 16 < n_used,
{
    vstd::arithmetic::div_mod::lemma_fundamental_div_mod(i, n_used);
    let q = i / n_used;
    let m = i % n_used;
    assert(n_used * q == q * n_used) by (nonlinear_arith);
}

/// How many of the first `n` slots have an expert of the first `g` keys.
spec fn covered(slots: Seq<ExpertPtrs>, keys: Seq<ExpertPtrs>, g: int, n: int) -> nat
    decreases n,
{
    if n <= 0 {
        0
    } else {
        covered(slots, keys, g, n - 1) + (if key_at(keys.take(g), slots[n - 1].gate, 0) < g {
            1nat
        } else {
            0nat
        })
    }
}

proof fn lemma_covered_step(slots: Seq<ExpertPtrs>, n_used: int, keys: Seq<ExpertPtrs>, g: int, n: int)
    requires
        0 <= g < keys.len(),
        keyed(keys),
        0 <= n,
    ensures
        covered(slots, keys, g + 1, n) == covered(slots, keys, g, n) + members(
            slots,
            n_used,
            keys[g].gate,
            n,
        ).len(),
        covered(slots, keys, g, n) <= n,
    decreases n,
{
    if n > 0 {
        lemma_covered_step(slots, n_used, keys, g, n - 1);
        let x = slots[n - 1].gate;
        let a = keys.take(g);
        let b = keys.take(g + 1);
        lemma_key_at(a, x, 0);
        lemma_key_at(b, x, 0);
        let ka = key_at(a, x, 0);
        let kb = key_at(b, x, 0);
        if ka < g {
            assert(a[ka].gate == x);
            assert(keys[ka].gate != keys[g].gate);
            assert(b[ka].gate == x);
        } else if kb < g {
            assert(b[kb].gate == x);
            assert(a[kb].gate == x);
        } else {
            assert(b[g] == keys[g]);
        }
    }
}

proof fn lemma_pairs_len(slots: Seq<ExpertPtrs>, n_used: int, keys: Seq<ExpertPtrs>, g: int)
    requires
        0 <= g <= keys.len(),
        keyed(keys),
    ensures
        pairs_of(slots, n_used, keys, g).len() == covered(slots, keys, g, slots.len() as int),
        pairs_of(slots, n_used, keys, g).len() <= slots.len(),
    decreases g,
{
    if g > 0 {
        lemma_pairs_len(slots, n_used, keys, g - 1);
        lemma_covered_step(slots, n_used, keys, g - 1, slots.len() as int);
        lemma_covered_bound(slots, keys, g, slots.len() as int);
    } else {
        lemma_covered_none(slots, keys, slots.len() as int);
    }
}

proof fn lemma_covered_bound(slots: Seq<ExpertPtrs>, keys: Seq<ExpertPtrs>, g: int, n: int)
    requires
        0 <= n,
    ensures
        covered(slots, keys, g, n) <= n,
    decreases n,
{
    if n > 0 {
        lemma_covered_bound(slots, keys, g, n - 1);
    }
}

proof fn lemma_covered_none(slots: Seq<ExpertPtrs>, keys: Seq<ExpertPtrs>, n: int)
    requires
        0 <= n,
    ensures
        covered(slots, keys, 0, n) == 0,
    decreases n,
{
    if n > 0 {
        lemma_covered_none(slots, keys, n - 1);
        lemma_key_at(keys.take(0), slots[n - 1].gate, 0);
    }
}

/// Where the key of a gate stands; past the end where there is none.
fn find_key(keys: &Vec<ExpertPtrs>, gate: u64) -> (r: usize)
    ensures
        r == key_at(keys@, gate, 0),
{
    let n: usize = keys.len();
    let mut i: usize = 0;
    while i < n && keys[i].gate != gate
        invariant
            i <= n,
            n == keys@.len(),
            key_at(keys@, gate, 0) == key_at(keys@, gate, i as int),
        decreases n - i,
    {
        i = i + 1;
    }
    i
}

/// Groups the slots of a tier by expert.
pub fn group_slots(slots: &Vec<ExpertPtrs>, n_used: u32) -> (r: Groups)
    requires
        n_used <= 16,
        slots@.len() > 0 ==> n_used > 0,
        slots@.len() < 0x1000_0000,
    ensures
        r.ptrs@ == keys_of(slots@, slots@.len() as int),
        r.pairs@ == pairs_of(slots@, n_used as int, r.ptrs@, r.ptrs@.len() as int),
        r.starts@.len() == r.ptrs@.len() + 1,
        forall|g: int|
            0 <= g <= r.ptrs@.len() ==> #[trigger] r.starts@[g] == pairs_of(
                slots@,
                n_used as int,
                r.ptrs@,
                g,
            ).len(),
{
    let n: usize = slots.len();
    let mut keys: Vec<ExpertPtrs> = Vec::new();
    let mut lists: Vec<Vec<u32>> = Vec::new();
    let mut i: usize = 0;
    while i < n
        invariant
            i <= n,
            n == slots@.len() < 0x1000_0000,
            n_used <= 16,
            n > 0 ==> n_used > 0,
            keys@ == keys_of(slots@, i as int),
            lists@.len() == keys@.len(),
            forall|g: int|
                0 <= g < keys@.len() ==> (#[trigger] lists@[g])@ == members(
                    slots@,
                    n_used as int,
                    keys@[g].gate,
                    i as int,
                ),
        decreases n - i,
    {
        let p = slots[i];
        proof {
            law_groups(slots@, i as int);
            law_groups(slots@, i + 1);
            lemma_key_at(keys@, p.gate, 0);
        }
        let ghost before = lists@;
        if p.gate != 0 {
            let g: usize = find_key(&keys, p.gate);
            if g == keys.len() {
                keys.push(p);
                lists.push(Vec::new());
                proof {
                    lemma_none_before(slots@, n_used as int, i as int, p.gate);
                }
            }
            let token: u32 = (i / n_used as usize) as u32;
            let slot: u32 = (i % n_used as usize) as u32;
            assert(token <= i) by (nonlinear_arith)
                requires
                    token == i as int / n_used as int,
                    n_used > 0,
            ;
            lists[g].push(token * 16 + slot);
        }
        assert forall|g: int| 0 <= g < keys@.len() implies (#[trigger] lists@[g])@ == members(
            slots@,
            n_used as int,
            keys@[g].gate,
            i + 1,
        ) by {
            assert(keys@[g].gate != 0);
        }
        i = i + 1;
    }
    proof {
        law_groups(slots@, n as int);
    }
    let m: usize = keys.len();
    let mut starts: Vec<u32> = Vec::new();
    let mut pairs: Vec<u32> = Vec::new();
    starts.push(0);
    let mut g: usize = 0;
    while g < m
        invariant
            g <= m,
            m == keys@.len() == lists@.len(),
            n == slots@.len() < 0x1000_0000,
            keyed(keys@),
            starts@.len() == g + 1,
            pairs@ == pairs_of(slots@, n_used as int, keys@, g as int),
            forall|k: int|
                0 <= k <= g ==> #[trigger] starts@[k] == pairs_of(
                    slots@,
                    n_used as int,
                    keys@,
                    k,
                ).len(),
            forall|g: int|
                0 <= g < keys@.len() ==> (#[trigger] lists@[g])@ == members(
                    slots@,
                    n_used as int,
                    keys@[g].gate,
                    n as int,
                ),
        decreases m - g,
    {
        let list = &lists[g];
        let len: usize = list.len();
        let ghost before = pairs@;
        let mut k: usize = 0;
        while k < len
            invariant
                k <= len,
                len == list@.len(),
                pairs@ == before + list@.take(k as int),
            decreases len - k,
        {
            pairs.push(list[k]);
            assert(pairs@ =~= before + list@.take(k + 1));
            k = k + 1;
        }
        assert(list@.take(len as int) =~= list@);
        proof {
            lemma_pairs_len(slots@, n_used as int, keys@, g + 1);
        }
        starts.push(pairs.len() as u32);
        g = g + 1;
    }
    Groups { ptrs: keys, starts, pairs }
}

proof fn lemma_none_before(slots: Seq<ExpertPtrs>, n_used: int, n: int, gate: u64)
    requires
        0 <= n <= slots.len(),
        gate != 0,
        key_at(keys_of(slots, n), gate, 0) >= keys_of(slots, n).len(),
    ensures
        members(slots, n_used, gate, n) == Seq::<u32>::empty(),
    decreases n,
{
    if n > 0 {
        let k = keys_of(slots, n - 1);
        let e = keys_of(slots, n);
        lemma_key_at(e, gate, 0);
        lemma_key_at(k, gate, 0);
        if key_at(k, gate, 0) < k.len() {
            let a = key_at(k, gate, 0);
            assert(e[a] == k[a]);
        }
        lemma_none_before(slots, n_used, n - 1, gate);
        if slots[n - 1].gate == gate {
            assert(e[e.len() - 1].gate == gate);
        }
    }
}

} // verus!
