//! Aligned disk brackets and the routing of virtual offsets to shards.
use vstd::prelude::*;

use super::plan::Read;
use crate::gguf::grammar;
use crate::gguf::parse::round_up;
use crate::gguf::tensor;

verus! {

/// Alignment of direct reads.
pub const ALIGN: u64 = 4096;

/// Bytes that a staging buffer holds beyond its bracket.
pub const SLACK: u64 = 256;

/// An aligned stretch of a file that covers a read, and where the read begins in it.
#[derive(Debug, Clone, Copy, PartialEq, Eq, Structural)]
pub struct Bracket {
    pub aligned_off: u64,
    pub payload_off: u64,
    pub disk_len: u64,
}

/// The bracket of `len` bytes at `local`.
pub open spec fn bracket_of(local: nat, len: nat, align: nat) -> (nat, nat, nat) {
    let off = local % align;
    ((local - off) as nat, off, grammar::round_up(off + len, align))
}

/// The aligned bracket of a read of `len` bytes at `local` of a file.
pub fn bracket(local: u64, len: u64, align: u64) -> (r: Bracket)
    requires
        align > 0,
        bracket_of(local as nat, len as nat, align as nat).2 <= u64::MAX,
    ensures
        (r.aligned_off as nat, r.payload_off as nat, r.disk_len as nat) == bracket_of(
            local as nat,
            len as nat,
            align as nat,
        ),
{
    let payload_off: u64 = local % align;
    proof {
        tensor::lemma_ceil_div((payload_off + len) as nat, align as nat);
        vstd::arithmetic::div_mod::lemma_mod_decreases(local as nat, align as nat);
    }
    Bracket {
        aligned_off: local - payload_off,
        payload_off,
        disk_len: round_up(payload_off + len, align),
    }
}

/// A bracket begins and ends on the alignment, covers the read, and is less than one alignment
/// step longer at either end.
pub proof fn law_bracket_covers(local: nat, len: nat, align: nat)
    requires
        align > 0,
    ensures
        ({
            let (start, off, size) = bracket_of(local, len, align);
            &&& start % align == 0
            &&& size % align == 0
            &&& start + off == local
            &&& off < align
            &&& start <= local
            &&& local + len <= start + size
            &&& start + size < local + len + align
        }),
{
    let (start, off, size) = bracket_of(local, len, align);
    vstd::arithmetic::div_mod::lemma_fundamental_div_mod(local as int, align as int);
    tensor::lemma_ceil_div(off + len, align);
    let q = local / align;
    assert(start == align * q);
    vstd::arithmetic::div_mod::lemma_mod_multiples_basic(q as int, align as int);
    assert(align * q == q * align) by (nonlinear_arith);
    vstd::arithmetic::div_mod::lemma_mod_multiples_basic(
        tensor::ceil_div(off + len, align) as int,
        align as int,
    );
}

/// The bases strictly ascend.
pub open spec fn ascending(bases: Seq<u64>) -> bool {
    forall|i: int, j: int| 0 <= i < j < bases.len() ==> #[trigger] bases[i] < #[trigger] bases[j]
}

/// Finds the shard of a virtual offset: the last one that begins at or before it. Returns its
/// index and the offset within it.
pub fn route(bases: &[u64], offset: u64) -> (r: (usize, u64))
    requires
        bases@.len() > 0,
        ascending(bases@),
        bases@[0] <= offset,
    ensures
        r.0 < bases@.len(),
        bases@[r.0 as int] + r.1 == offset,
        forall|j: int| 0 <= j < bases@.len() ==> (#[trigger] bases@[j] <= offset <==> j <= r.0),
{
    let mut lo: usize = 0;
    let mut hi: usize = bases.len();
    while hi - lo > 1
        invariant
            lo < hi <= bases@.len(),
            ascending(bases@),
            bases@[lo as int] <= offset,
            hi < bases@.len() ==> bases@[hi as int] > offset,
        decreases hi - lo,
    {
        let mid: usize = lo + (hi - lo) / 2;
        if bases[mid] <= offset {
            lo = mid;
        } else {
            hi = mid;
        }
    }
    (lo, offset - bases[lo])
}

/// A read to hand to the ring.
#[derive(Debug, Clone, Copy)]
pub struct Request {
    /// Index of the file.
    pub file: usize,
    pub bracket: Bracket,
    /// Bytes of the buffer to read into.
    pub cap: u64,
}

/// A read lies in a file and its buffer can be counted.
pub open spec fn placeable(bases: Seq<u64>, r: Read) -> bool {
    bases[0] <= r.offset && r.len + 0x3000 <= usize::MAX
}

/// The request of a read: the bracket of its bytes in the file that holds its offset, and a buffer
/// with some slack.
pub open spec fn asks_for(bases: Seq<u64>, r: Read, q: Request) -> bool {
    &&& q.file < bases.len()
    &&& forall|j: int| 0 <= j < bases.len() ==> (#[trigger] bases[j] <= r.offset <==> j <= q.file)
    &&& (
        q.bracket.aligned_off as nat,
        q.bracket.payload_off as nat,
        q.bracket.disk_len as nat,
    ) == bracket_of((r.offset - bases[q.file as int]) as nat, r.len as nat, ALIGN as nat)
    &&& q.cap == q.bracket.disk_len + SLACK
}

/// The request of a read over files that begin at ascending virtual bases.
pub fn request(bases: &[u64], r: Read) -> (q: Request)
    requires
        bases@.len() > 0,
        ascending(bases@),
        placeable(bases@, r),
    ensures
        asks_for(bases@, r, q),
        q.cap <= usize::MAX,
{
    let (file, local) = route(bases, r.offset);
    proof {
        law_bracket_covers(local as nat, r.len as nat, ALIGN as nat);
    }
    let b = bracket(local, r.len, ALIGN);
    Request { file, bracket: b, cap: b.disk_len + SLACK }
}

/// Shard `i` begins where the ones before it end.
pub open spec fn bases_of(lens: Seq<u64>, bases: Seq<u64>) -> bool {
    bases.len() == lens.len() && forall|i: int|
        0 <= i < lens.len() ==> #[trigger] bases[i] == total(lens, i)
}

/// Bytes of the first `n` shards.
pub open spec fn total(lens: Seq<u64>, n: int) -> nat
    decreases n,
{
    if n <= 0 {
        0
    } else {
        total(lens, n - 1) + lens[n - 1] as nat
    }
}

/// The virtual base of each shard, and the length of the virtual file.
pub fn shard_bases(lens: &[u64]) -> (r: (Vec<u64>, u64))
    requires
        forall|n: int| 0 <= n <= lens@.len() ==> #[trigger] total(lens@, n) <= u64::MAX,
    ensures
        bases_of(lens@, r.0@),
        r.1 as nat == total(lens@, lens@.len() as int),
{
    let mut bases: Vec<u64> = Vec::new();
    let mut sum: u64 = 0;
    let mut i: usize = 0;
    while i < lens.len()
        invariant
            i == bases@.len() <= lens@.len(),
            sum as nat == total(lens@, i as int),
            forall|n: int| 0 <= n <= lens@.len() ==> #[trigger] total(lens@, n) <= u64::MAX,
            forall|j: int| 0 <= j < i ==> #[trigger] bases@[j] == total(lens@, j),
        decreases lens@.len() - i,
    {
        assert(total(lens@, i + 1) <= u64::MAX);
        bases.push(sum);
        sum = sum + lens[i];
        i = i + 1;
    }
    (bases, sum)
}

proof fn lemma_total_mono(lens: Seq<u64>, a: int, b: int)
    requires
        0 <= a <= b <= lens.len(),
    ensures
        total(lens, a) <= total(lens, b),
    decreases b - a,
{
    if a < b {
        lemma_total_mono(lens, a, b - 1);
    }
}

/// In a virtual file of non-empty shards every offset is routed into the shard that holds it: the
/// local offset lies within that shard.
pub proof fn law_route_within(lens: Seq<u64>, bases: Seq<u64>, offset: u64, i: int, local: u64)
    requires
        bases_of(lens, bases),
        forall|k: int| 0 <= k < lens.len() ==> #[trigger] lens[k] > 0,
        offset < total(lens, lens.len() as int) <= u64::MAX,
        0 <= i < bases.len(),
        bases[i] + local == offset,
        forall|j: int| 0 <= j < bases.len() ==> (#[trigger] bases[j] <= offset <==> j <= i),
    ensures
        ascending(bases),
        bases[0] <= offset,
        local < lens[i],
{
    assert forall|a: int, b: int| 0 <= a < b < bases.len() implies #[trigger] bases[a]
        < #[trigger] bases[b] by {
        assert(total(lens, a + 1) == total(lens, a) + lens[a]);
        assert(lens[a] > 0);
        lemma_total_mono(lens, a + 1, b);
    }
    assert(total(lens, i + 1) == total(lens, i) + lens[i]);
    if i + 1 < bases.len() {
        assert(bases[i + 1] > offset);
    }
}

} // verus!
