//! Packed experts: where they lie, which are wanted, and where they are staged.
use vstd::prelude::*;

use crate::stream::Read;

verus! {

/// A tensor of packed experts.
#[derive(Debug, Clone, Copy, PartialEq, Eq, Structural)]
pub struct ExpertTensor {
    /// Where expert 0 begins in the model.
    pub abs_offset: u64,
    /// Bytes of one expert.
    pub expert_bytes: u64,
    /// Bytes of one row.
    pub row_bytes: u64,
    pub quant: u32,
}

impl ExpertTensor {
    /// Where expert `e` begins.
    pub open spec fn at(self, e: int) -> int {
        self.abs_offset + e * self.expert_bytes
    }

    /// All of `n` experts lie within 64 bits.
    pub open spec fn holds(self, n: int) -> bool {
        self.at(n) <= u64::MAX
    }

    /// Whether all of `n` experts lie within 64 bits.
    pub fn fits(&self, n: u32) -> (r: bool)
        ensures
            r == self.holds(n as int),
    {
        assert(0 <= n * self.expert_bytes <= 0xffff_ffff * 0xffff_ffff_ffff_ffff)
            by (nonlinear_arith)
            requires
                0 <= n <= 0xffff_ffff,
                0 <= self.expert_bytes <= 0xffff_ffff_ffff_ffff,
        ;
        self.abs_offset as u128 + n as u128 * self.expert_bytes as u128 <= u64::MAX as u128
    }

    /// Where expert `e` begins.
    pub fn offset(&self, e: i32) -> (r: u64)
        requires
            0 <= e,
            self.holds(e as int),
        ensures
            r == self.at(e as int),
    {
        self.abs_offset + e as u64 * self.expert_bytes
    }
}

/// A tensor that holds all experts holds each.
pub proof fn lemma_holds(t: ExpertTensor, e: int, n: int)
    requires
        0 <= e <= n,
        t.holds(n),
    ensures
        t.holds(e),
        t.at(e) <= t.at(n),
{
    assert(e * t.expert_bytes <= n * t.expert_bytes) by (nonlinear_arith)
        requires
            0 <= e <= n,
            0 <= t.expert_bytes,
    ;
}

/// The slabs of two experts of a tensor do not overlap.
pub proof fn law_slabs_disjoint(t: ExpertTensor, a: int, b: int)
    requires
        0 <= a < b,
    ensures
        t.at(a) + t.expert_bytes <= t.at(b),
{
    assert((a + 1) * t.expert_bytes <= b * t.expert_bytes) by (nonlinear_arith)
        requires
            a + 1 <= b,
            0 <= t.expert_bytes,
    ;
    assert((a + 1) * t.expert_bytes == a * t.expert_bytes + t.expert_bytes) by (nonlinear_arith);
}

/// A selected expert that exists.
pub open spec fn in_range(e: i32, n_expert: u32) -> bool {
    0 <= e < n_expert
}

/// The numbers ascend.
pub open spec fn ascending(s: Seq<i32>) -> bool {
    forall|i: int, j: int| 0 <= i < j < s.len() ==> #[trigger] s[i] < #[trigger] s[j]
}

/// A number put among ascending ones, once.
pub open spec fn inserted(s: Seq<i32>, e: i32) -> Seq<i32>
    decreases s.len(),
{
    if s.len() == 0 {
        seq![e]
    } else if s.last() == e {
        s
    } else if s.last() < e {
        s.push(e)
    } else {
        inserted(s.drop_last(), e).push(s.last())
    }
}

/// The distinct selected experts that exist, in ascending order.
pub open spec fn distinct_of(selected: Seq<i32>, n_expert: u32) -> Seq<i32>
    decreases selected.len(),
{
    if selected.len() == 0 {
        Seq::empty()
    } else {
        let d = distinct_of(selected.drop_last(), n_expert);
        if in_range(selected.last(), n_expert) {
            inserted(d, selected.last())
        } else {
            d
        }
    }
}

proof fn lemma_inserted(s: Seq<i32>, e: i32, p: int)
    requires
        ascending(s),
        0 <= p <= s.len(),
        forall|i: int| 0 <= i < p ==> #[trigger] s[i] < e,
        forall|i: int| p <= i < s.len() ==> #[trigger] s[i] > e,
    ensures
        inserted(s, e) == s.insert(p, e),
    decreases s.len(),
{
    if s.len() == 0 {
        assert(seq![e] =~= s.insert(p, e));
    } else if p == s.len() {
        assert(s[p - 1] < e);
        assert(s.push(e) =~= s.insert(p, e));
    } else {
        let t = s.drop_last();
        assert(s[s.len() - 1] > e);
        lemma_inserted(t, e, p);
        assert(t.insert(p, e).push(s.last()) =~= s.insert(p, e));
    }
}

proof fn lemma_inserted_twice(s: Seq<i32>, e: i32, p: int)
    requires
        ascending(s),
        0 <= p < s.len(),
        s[p] == e,
    ensures
        inserted(s, e) == s,
    decreases s.len(),
{
    if p < s.len() - 1 {
        assert(s[p] < s[s.len() - 1]);
        let t = s.drop_last();
        lemma_inserted_twice(t, e, p);
        assert(t.push(s.last()) =~= s);
    }
}

/// The distinct selected experts that exist, in ascending order.
pub fn distinct_experts(selected: &[i32], n_expert: u32) -> (r: Vec<i32>)
    ensures
        r@ == distinct_of(selected@, n_expert),
        ascending(r@),
        forall|e: i32| #[trigger] r@.contains(e) <==> selected@.contains(e) && in_range(e, n_expert),
        r@.len() <= selected@.len(),
{
    let mut out: Vec<i32> = Vec::new();
    let n: usize = selected.len();
    let mut i: usize = 0;
    assert(selected@.take(0) =~= Seq::<i32>::empty());
    while i < n
        invariant
            i <= n,
            n == selected@.len(),
            ascending(out@),
            out@ == distinct_of(selected@.take(i as int), n_expert),
            out@.len() <= i,
            forall|e: i32| #[trigger]
                out@.contains(e) <==> selected@.take(i as int).contains(e) && in_range(e, n_expert),
        decreases n - i,
    {
        let e: i32 = selected[i];
        assert(selected@.take(i + 1).drop_last() =~= selected@.take(i as int));
        if e >= 0 && (e as u32) < n_expert {
            put(&mut out, e);
        }
        proof {
            let t = selected@.take(i as int);
            let u = selected@.take(i + 1);
            assert forall|x: i32| #[trigger] u.contains(x) <==> t.contains(x) || x == e by {
                if u.contains(x) {
                    let k = choose|k: int| 0 <= k < u.len() && u[k] == x;
                    if k < i {
                        assert(t[k] == x);
                    }
                }
                if t.contains(x) {
                    let k = choose|k: int| 0 <= k < t.len() && t[k] == x;
                    assert(u[k] == x);
                }
                assert(u[i as int] == e);
            }
        }
        i = i + 1;
    }
    assert(selected@.take(i as int) =~= selected@);
    out
}

/// Puts a number among ascending ones, once.
fn put(out: &mut Vec<i32>, e: i32)
    requires
        ascending(old(out)@),
    ensures
        final(out)@ == inserted(old(out)@, e),
        ascending(final(out)@),
        forall|x: i32| #[trigger] final(out)@.contains(x) <==> old(out)@.contains(x) || x == e,
        final(out)@.len() <= old(out)@.len() + 1,
{
    let n: usize = out.len();
    let mut p: usize = 0;
    while p < n && out[p] < e
        invariant
            p <= n,
            n == out@.len(),
            *out == *old(out),
            forall|i: int| 0 <= i < p ==> #[trigger] out@[i] < e,
        decreases n - p,
    {
        p = p + 1;
    }
    if p < n && out[p] == e {
        proof {
            lemma_inserted_twice(out@, e, p as int);
        }
        return;
    }
    let ghost s = out@;
    proof {
        assert forall|i: int| p <= i < s.len() implies #[trigger] s[i] > e by {
            assert(s[p as int] > e);
            assert(s[p as int] <= s[i]);
        }
        lemma_inserted(s, e, p as int);
    }
    out.insert(p, e);
    let ghost t = out@;
    proof {
        assert(t =~= s.insert(p as int, e));
        assert forall|x: i32| #[trigger] t.contains(x) <==> s.contains(x) || x == e by {
            if t.contains(x) {
                let i = choose|i: int| 0 <= i < t.len() && t[i] == x;
                if i < p {
                    assert(s[i] == x);
                } else if i > p {
                    assert(s[i - 1] == x);
                }
            }
            if s.contains(x) {
                let i = choose|i: int| 0 <= i < s.len() && s[i] == x;
                if i < p {
                    assert(t[i] == x);
                } else {
                    assert(t[i + 1] == x);
                }
            }
            assert(t[p as int] == e);
        }
        assert forall|i: int, j: int| 0 <= i < j < t.len() implies #[trigger] t[i] < #[trigger] t[j] by {
            let a = if i < p {
                i
            } else {
                i - 1
            };
            let b = if j < p {
                j
            } else {
                j - 1
            };
            if i == p {
                assert(p < n ==> s[p as int] > e);
                assert(s[p as int] <= s[b]);
            } else if j != p {
                assert(s[a] < s[b]);
            }
        }
    }
}

/// The reads of the experts of a list: gate, up and down of each.
pub open spec fn triple_reads(
    list: Seq<i32>,
    gate: ExpertTensor,
    up: ExpertTensor,
    down: ExpertTensor,
) -> Seq<Read>
    decreases list.len(),
{
    if list.len() == 0 {
        Seq::empty()
    } else {
        let e = list.last() as int;
        triple_reads(list.drop_last(), gate, up, down).push(
            Read { offset: gate.at(e) as u64, len: gate.expert_bytes },
        ).push(Read { offset: up.at(e) as u64, len: up.expert_bytes }).push(
            Read { offset: down.at(e) as u64, len: down.expert_bytes },
        )
    }
}

/// The reads of the experts of a list.
pub fn expert_triples(
    list: &Vec<i32>,
    gate: &ExpertTensor,
    up: &ExpertTensor,
    down: &ExpertTensor,
    n_expert: u32,
) -> (r: Vec<Read>)
    requires
        forall|i: int| 0 <= i < list@.len() ==> in_range(#[trigger] list@[i], n_expert),
        gate.holds(n_expert as int),
        up.holds(n_expert as int),
        down.holds(n_expert as int),
    ensures
        r@ == triple_reads(list@, *gate, *up, *down),
        r@.len() == 3 * list@.len(),
{
    let mut out: Vec<Read> = Vec::new();
    let n: usize = list.len();
    let mut i: usize = 0;
    assert(list@.take(0) =~= Seq::<i32>::empty());
    while i < n
        invariant
            i <= n,
            n == list@.len(),
            forall|i: int| 0 <= i < list@.len() ==> in_range(#[trigger] list@[i], n_expert),
            gate.holds(n_expert as int),
            up.holds(n_expert as int),
            down.holds(n_expert as int),
            out@ == triple_reads(list@.take(i as int), *gate, *up, *down),
            out@.len() == 3 * i,
        decreases n - i,
    {
        let e: i32 = list[i];
        proof {
            assert(in_range(list@[i as int], n_expert));
            lemma_holds(*gate, e as int, n_expert as int);
            lemma_holds(*up, e as int, n_expert as int);
            lemma_holds(*down, e as int, n_expert as int);
            assert(list@.take(i + 1).drop_last() =~= list@.take(i as int));
        }
        out.push(Read { offset: gate.offset(e), len: gate.expert_bytes });
        out.push(Read { offset: up.offset(e), len: up.expert_bytes });
        out.push(Read { offset: down.offset(e), len: down.expert_bytes });
        i = i + 1;
    }
    assert(list@.take(n as int) =~= list@);
    out
}

/// A run without the reads that repeat the offset of the one kept before them.
pub open spec fn without_repeats(s: Seq<Read>) -> Seq<Read>
    decreases s.len(),
{
    if s.len() == 0 {
        Seq::empty()
    } else {
        let t = without_repeats(s.drop_last());
        if t.len() > 0 && t.last().offset == s.last().offset {
            t
        } else {
            t.push(s.last())
        }
    }
}

/// Drops reads that repeat the offset of the one kept before them.
pub fn drop_repeats(v: &Vec<Read>) -> (r: Vec<Read>)
    ensures
        r@ == without_repeats(v@),
        r@.len() <= v@.len(),
{
    let mut out: Vec<Read> = Vec::new();
    let n: usize = v.len();
    let mut i: usize = 0;
    assert(v@.take(0) =~= Seq::<Read>::empty());
    while i < n
        invariant
            i <= n,
            n == v@.len(),
            out@ == without_repeats(v@.take(i as int)),
            out@.len() <= i,
        decreases n - i,
    {
        assert(v@.take(i + 1).drop_last() =~= v@.take(i as int));
        let k: usize = out.len();
        if !(k > 0 && out[k - 1].offset == v[i].offset) {
            out.push(v[i]);
        }
        i = i + 1;
    }
    assert(v@.take(n as int) =~= v@);
    out
}

/// Bytes of the first `n` reads.
pub open spec fn bytes_before(s: Seq<Read>, n: int) -> int
    decreases n,
{
    if n <= 0 {
        0
    } else {
        bytes_before(s, n - 1) + s[n - 1].len
    }
}

/// Bytes before a read are no more than bytes before a later one.
pub proof fn lemma_bytes_grow(s: Seq<Read>, i: int, n: int)
    requires
        i <= n,
    ensures
        bytes_before(s, i) <= bytes_before(s, n),
        0 <= bytes_before(s, i),
    decreases n - i, n,
{
    if i < n {
        lemma_bytes_grow(s, i, n - 1);
    } else if n > 0 {
        lemma_bytes_grow(s, n - 1, n - 1);
    }
}

/// Where each read is staged, and how many bytes all take: one behind the other.
pub fn stage_layout(wants: &Vec<Read>) -> (r: (Vec<usize>, usize))
    requires
        bytes_before(wants@, wants@.len() as int) <= usize::MAX,
    ensures
        r.0@.len() == wants@.len(),
        forall|i: int| 0 <= i < wants@.len() ==> #[trigger] r.0@[i] == bytes_before(wants@, i),
        r.1 == bytes_before(wants@, wants@.len() as int),
{
    let mut bases: Vec<usize> = Vec::new();
    let mut total: usize = 0;
    let n: usize = wants.len();
    let mut i: usize = 0;
    while i < n
        invariant
            i == bases@.len() <= n,
            n == wants@.len(),
            bytes_before(wants@, wants@.len() as int) <= usize::MAX,
            total == bytes_before(wants@, i as int),
            forall|k: int| 0 <= k < i ==> #[trigger] bases@[k] == bytes_before(wants@, k),
        decreases n - i,
    {
        proof {
            lemma_bytes_grow(wants@, i + 1, n as int);
        }
        bases.push(total);
        total = total + wants[i].len as usize;
        i = i + 1;
    }
    (bases, total)
}

/// Staged slabs do not overlap, and all lie within the total.
pub proof fn law_stage_disjoint(s: Seq<Read>, i: int, j: int)
    requires
        0 <= i < j <= s.len(),
    ensures
        bytes_before(s, i) + s[i].len <= bytes_before(s, j),
        bytes_before(s, j) <= bytes_before(s, s.len() as int),
{
    lemma_bytes_grow(s, i + 1, j);
    lemma_bytes_grow(s, j, s.len() as int);
}

/// Where the three slabs of an expert begin.
#[derive(Debug, Clone, Copy, PartialEq, Eq, Structural)]
pub struct SlabOffsets {
    pub gate: u64,
    pub up: u64,
    pub down: u64,
}

/// Where the three slabs of an expert begin.
pub open spec fn offsets_of(
    e: i32,
    gate: ExpertTensor,
    up: ExpertTensor,
    down: ExpertTensor,
) -> SlabOffsets {
    SlabOffsets {
        gate: gate.at(e as int) as u64,
        up: up.at(e as int) as u64,
        down: down.at(e as int) as u64,
    }
}

/// Where the three slabs of an expert begin.
pub fn slab_offsets(
    e: i32,
    gate: &ExpertTensor,
    up: &ExpertTensor,
    down: &ExpertTensor,
    n_expert: u32,
) -> (r: SlabOffsets)
    requires
        in_range(e, n_expert),
        gate.holds(n_expert as int),
        up.holds(n_expert as int),
        down.holds(n_expert as int),
    ensures
        r == offsets_of(e, *gate, *up, *down),
{
    proof {
        lemma_holds(*gate, e as int, n_expert as int);
        lemma_holds(*up, e as int, n_expert as int);
        lemma_holds(*down, e as int, n_expert as int);
    }
    SlabOffsets { gate: gate.offset(e), up: up.offset(e), down: down.offset(e) }
}

} // verus!
