//! Bounded read pipeline: which read goes into which slot, and which completion comes out when.
//!
//! The ring, the files and the clock are the caller's. The pipeline hands out requests, takes
//! completions in any order, and yields the slabs of a batch in submission order. However many
//! reads a batch has, the buffers that are in flight or wait for their turn are never more than the
//! slots: what has no room yet goes out as slabs are yielded.
use vstd::prelude::*;

use super::bracket;
use super::bracket::{request, Request, ALIGN};
use super::buffer::{Aligned, Slab};
use super::plan::Read;

verus! {

/// Most batches that the tag of a request can tell apart.
pub const MAX_BATCHES: u64 = 0x1_0000_0000;

pub struct PipelineConfig {
    /// Most reads in flight at once.
    pub qd: usize,
    /// Number of buffer slots, and most buffers that are held at once. At least `qd`.
    pub max_slots: usize,
}

/// Cumulative counters.
#[derive(Debug, Clone, Copy, PartialEq, Eq, Structural)]
pub struct PipelineStats {
    /// Total reads completed.
    pub reads: u64,
    /// Total bytes of payload data read.
    pub bytes_payload: u64,
    /// Total bytes transferred from disk (aligned brackets).
    pub bytes_disk: u64,
    /// Time spent submitting.
    pub t_submit_ns: u64,
    /// Time between the submission and the collection of completed reads.
    pub t_complete_ns: u64,
    /// Time spent waiting for yielded slabs.
    pub t_yield_ns: u64,
}

impl Default for PipelineStats {
    fn default() -> (r: Self)
        ensures
            r == no_stats(),
    {
        PipelineStats {
            reads: 0,
            bytes_payload: 0,
            bytes_disk: 0,
            t_submit_ns: 0,
            t_complete_ns: 0,
            t_yield_ns: 0,
        }
    }
}

/// All counters at zero.
pub open spec fn no_stats() -> PipelineStats {
    PipelineStats {
        reads: 0,
        bytes_payload: 0,
        bytes_disk: 0,
        t_submit_ns: 0,
        t_complete_ns: 0,
        t_yield_ns: 0,
    }
}

/// A slot whose read is in flight.
pub struct Slot<B> {
    pub buf: Aligned<B>,
    /// Offset within the aligned bracket where the payload starts.
    pub payload_off: usize,
    /// Length of the payload that is asked for.
    pub payload_len: usize,
    /// The batch of the read.
    pub batch_id: u64,
    /// Index of the read within its batch.
    pub batch_pos: usize,
    /// Whether anyone waits for the read still.
    pub wanted: bool,
}

/// A completed read that waits for its turn.
pub struct Done<B> {
    pub batch_id: u64,
    pub batch_pos: usize,
    pub slab: Slab<B>,
}

pub struct Pipeline<B> {
    /// Virtual base of each file.
    pub bases: Vec<u64>,
    pub qd: usize,
    /// `pool[i]` is `Some` while the read of slot `i` is in flight.
    pub pool: Vec<Option<Slot<B>>>,
    /// Free slot indices, last in first out.
    pub free: Vec<usize>,
    /// Completed reads, in the order in which they completed.
    pub ready: Vec<Done<B>>,
    pub next_batch_id: u64,
    pub counters: PipelineStats,
}

/// Progress of one submission.
pub struct Submission {
    pub batch_id: u64,
    /// Reads submitted so far.
    pub start: usize,
}

/// What a submission does next.
pub enum Step {
    /// Allocate a buffer and enter the read with `Pipeline::alloc_slot`.
    Submit(Request),
    /// There is no room: collect completions or yield slabs first.
    Wait,
    /// Every read has been submitted.
    Done,
}

/// Where the yield of a batch stands.
pub struct PipelineBatch {
    pub batch_id: u64,
    pub remaining: usize,
    pub pos: usize,
}

/// What the yield of a batch does next.
pub enum Poll<B> {
    /// The batch is exhausted.
    End,
    /// The next slab of the batch.
    Ready(Slab<B>),
    /// The next slab has not completed, and reads are in flight: wait for completions and collect
    /// them.
    Wait,
    /// The next slab has not completed, and nothing is in flight.
    Missing,
}

/// The tag of a request: batch in the high half, slot in the low half.
pub open spec fn tag(batch_id: u64, slot: usize) -> int {
    batch_id * 0x1_0000_0000 + slot
}

/// Slots that carry a read.
pub open spec fn carried<B>(pool: Seq<Option<Slot<B>>>) -> nat
    decreases pool.len(),
{
    if pool.len() == 0 {
        0
    } else {
        carried(pool.drop_last()) + one_if(pool.last() is Some)
    }
}

/// One where a condition holds.
pub open spec fn one_if(b: bool) -> nat {
    if b {
        1
    } else {
        0
    }
}

/// Bytes of the payload that a read of `result` bytes of a bracket brought: those behind the first
/// `off`, and no more than were asked for.
pub open spec fn brought(off: usize, len: usize, result: i32) -> usize {
    if result <= off {
        0
    } else if result - off <= len {
        (result - off) as usize
    } else {
        len
    }
}

proof fn lemma_carried_update<B>(pool: Seq<Option<Slot<B>>>, i: int, x: Option<Slot<B>>)
    requires
        0 <= i < pool.len(),
    ensures
        carried(pool.update(i, x)) + one_if(pool[i] is Some) == carried(pool) + one_if(x is Some),
        one_if(pool[i] is Some) <= carried(pool),
    decreases pool.len(),
{
    let next = pool.update(i, x);
    if i == pool.len() - 1 {
        assert(next.drop_last() =~= pool.drop_last());
    } else {
        assert(next.drop_last() =~= pool.drop_last().update(i, x));
        lemma_carried_update(pool.drop_last(), i, x);
    }
}

proof fn lemma_carried_none<B>(pool: Seq<Option<Slot<B>>>)
    requires
        forall|i: int| 0 <= i < pool.len() ==> #[trigger] pool[i] is None,
    ensures
        carried(pool) == 0,
    decreases pool.len(),
{
    if pool.len() > 0 {
        lemma_carried_none(pool.drop_last());
    }
}

proof fn lemma_carried_same<B>(a: Seq<Option<Slot<B>>>, b: Seq<Option<Slot<B>>>)
    requires
        a.len() == b.len(),
        forall|i: int| 0 <= i < a.len() ==> (#[trigger] a[i] is Some) == (b[i] is Some),
    ensures
        carried(a) == carried(b),
    decreases a.len(),
{
    if a.len() > 0 {
        let n = a.len() - 1;
        assert((a[n] is Some) == (b[n] is Some));
        assert forall|i: int| 0 <= i < n implies (#[trigger] a.drop_last()[i] is Some)
            == (b.drop_last()[i] is Some) by {
            assert((a[i] is Some) == (b[i] is Some));
        }
        lemma_carried_same(a.drop_last(), b.drop_last());
    }
}

impl<B> Pipeline<B> {
    /// Slot `i` carries the read at position `pos` of batch `batch`, which someone waits for.
    pub open spec fn flies(self, i: int, batch: u64, pos: usize) -> bool {
        &&& 0 <= i < self.pool@.len()
        &&& self.pool@[i] matches Some(s)
        &&& s.wanted
        &&& s.batch_id == batch
        &&& s.batch_pos == pos
    }

    /// Entry `j` of the completed reads is position `pos` of batch `batch`.
    pub open spec fn waits(self, j: int, batch: u64, pos: usize) -> bool {
        &&& 0 <= j < self.ready@.len()
        &&& self.ready@[j].batch_id == batch
        &&& self.ready@[j].batch_pos == pos
    }

    /// The read at position `pos` of batch `batch` has completed and was not yielded yet.
    pub open spec fn is_ready(self, batch: u64, pos: usize) -> bool {
        exists|j: int| self.waits(j, batch, pos)
    }

    /// The read at position `pos` of batch `batch` is in flight or ready.
    pub open spec fn holds(self, batch: u64, pos: usize) -> bool {
        ||| exists|i: int| self.flies(i, batch, pos)
        ||| self.is_ready(batch, pos)
    }

    /// Buffers that are held: those of reads in flight, and those that wait for their turn.
    pub open spec fn buffers(self) -> nat {
        carried(self.pool@) + self.ready@.len()
    }

    /// Another read may go out: fewer than `qd` are in flight, and its buffer has a slot.
    pub open spec fn room(self) -> bool {
        carried(self.pool@) < self.qd && self.buffers() < self.pool@.len()
    }

    /// Free slots are distinct, exist and carry no read, and all others carry one.
    pub open spec fn free_ok(self) -> bool {
        &&& forall|a: int|
            0 <= a < self.free@.len() ==> (#[trigger] self.free@[a]) < self.pool@.len()
                && self.pool@[self.free@[a] as int] is None
        &&& forall|a: int, b: int|
            0 <= a < b < self.free@.len() ==> #[trigger] self.free@[a] != #[trigger] self.free@[b]
        &&& self.free@.len() + carried(self.pool@) == self.pool@.len()
    }

    /// No read is held twice, and every window lies within its buffer.
    pub open spec fn unique(self) -> bool {
        &&& forall|i: int, k: int, batch: u64, pos: usize|
            #[trigger] self.flies(i, batch, pos) && #[trigger] self.flies(k, batch, pos) ==> i == k
        &&& forall|i: int, k: int, batch: u64, pos: usize|
            #[trigger] self.waits(i, batch, pos) && #[trigger] self.waits(k, batch, pos) ==> i == k
        &&& forall|i: int, k: int, batch: u64, pos: usize|
            !(#[trigger] self.flies(i, batch, pos) && #[trigger] self.waits(k, batch, pos))
        &&& forall|i: int|
            0 <= i < self.pool@.len() ==> ((#[trigger] self.pool@[i]) matches Some(s) ==> s.payload_off
                + s.payload_len <= s.buf.size())
        &&& forall|j: int| 0 <= j < self.ready@.len() ==> (#[trigger] self.ready@[j]).slab.wf()
    }

    /// The pipeline is consistent, and holds no more buffers than it has slots.
    pub open spec fn wf(self) -> bool {
        &&& self.qd <= self.pool@.len() < 0x1_0000_0000
        &&& self.bases@.len() > 0
        &&& bracket::ascending(self.bases@)
        &&& self.next_batch_id <= MAX_BATCHES
        &&& self.free_ok()
        &&& self.unique()
        &&& self.buffers() <= self.pool@.len()
        &&& forall|i: int, batch: u64, pos: usize| #[trigger]
            self.flies(i, batch, pos) ==> batch < self.next_batch_id
        &&& forall|j: int, batch: u64, pos: usize| #[trigger]
            self.waits(j, batch, pos) ==> batch < self.next_batch_id
    }

    /// The submission is of this pipeline, and its reads from `start` on have not been entered.
    pub open spec fn fresh(self, sub: Submission) -> bool {
        &&& sub.batch_id < self.next_batch_id
        &&& forall|i: int, pos: usize| #[trigger]
            self.flies(i, sub.batch_id, pos) ==> pos < sub.start
        &&& forall|j: int, pos: usize| #[trigger]
            self.waits(j, sub.batch_id, pos) ==> pos < sub.start
    }

    /// The same reads are held, wherever they stand.
    pub open spec fn same_reads(self, other: Self) -> bool {
        forall|batch: u64, pos: usize| #[trigger]
            self.holds(batch, pos) <==> other.holds(batch, pos)
    }

    /// From `self` to `next` the next read of a submission goes into a slot with its buffer.
    pub open spec fn enters(
        self,
        next: Self,
        sub: Submission,
        r: Read,
        q: Request,
        buf: Aligned<B>,
    ) -> bool {
        &&& self.buffers() < self.pool@.len()
        &&& next == (Pipeline {
            pool: next.pool,
            free: next.free,
            counters: PipelineStats {
                bytes_disk: (self.counters.bytes_disk + q.bracket.disk_len) as u64,
                ..self.counters
            },
            ..self
        })
        &&& next.free@ == self.free@.drop_last()
        &&& next.pool@ == self.pool@.update(
            self.free@.last() as int,
            Some(
                Slot {
                    buf,
                    payload_off: q.bracket.payload_off as usize,
                    payload_len: r.len as usize,
                    batch_id: sub.batch_id,
                    batch_pos: sub.start,
                    wanted: true,
                },
            ),
        )
    }

    /// From `self` to `next` the read of a tag completes with `result` bytes: its slot is free, and
    /// its slab waits for its turn where anyone waits for it.
    pub open spec fn completes(self, next: Self, ud: u64, result: i32, elapsed_ns: u64) -> bool {
        let slot = (ud % 0x1_0000_0000) as usize;
        let s = self.pool@[slot as int]->0;
        let len = brought(s.payload_off, s.payload_len, result);
        &&& next == (Pipeline {
            pool: next.pool,
            free: next.free,
            ready: next.ready,
            counters: PipelineStats {
                reads: (self.counters.reads + 1) as u64,
                bytes_payload: (self.counters.bytes_payload + len) as u64,
                t_complete_ns: (self.counters.t_complete_ns + elapsed_ns) as u64,
                ..self.counters
            },
            ..self
        })
        &&& next.pool@ == self.pool@.update(slot as int, None)
        &&& next.free@ == self.free@.push(slot)
        &&& next.ready@ == if s.wanted {
            self.ready@.push(
                Done {
                    batch_id: s.batch_id,
                    batch_pos: s.batch_pos,
                    slab: Slab { buf: s.buf, payload_off: s.payload_off, payload_len: len },
                },
            )
        } else {
            self.ready@
        }
    }

    /// From `self` to `next` the read of a tag fails: its slot is free, and nothing comes of it.
    pub open spec fn fails(self, next: Self, ud: u64) -> bool {
        let slot = (ud % 0x1_0000_0000) as usize;
        &&& next == (Pipeline { pool: next.pool, free: next.free, ..self })
        &&& next.pool@ == self.pool@.update(slot as int, None)
        &&& next.free@ == self.free@.push(slot)
    }

    /// From `self` to `next` the completed read at a position of a batch is taken out, with its
    /// slab, and nothing else changes.
    pub open spec fn takes(self, next: Self, batch: u64, pos: usize, slab: Slab<B>) -> bool {
        exists|j: int| #[trigger]
            self.waits(j, batch, pos) && slab == self.ready@[j].slab && next == (Pipeline {
                ready: next.ready,
                ..self
            }) && next.ready@ == self.ready@.remove(j)
    }

    /// A read that the pipeline can place: it lies in one of the files, and its bracket fits a
    /// buffer.
    pub open spec fn placeable(self, r: Read) -> bool {
        bracket::placeable(self.bases@, r)
    }

    /// The request of a read.
    pub open spec fn requests(self, r: Read, q: Request) -> bool {
        bracket::asks_for(self.bases@, r, q)
    }

    /// Opens a pipeline over files that begin at ascending virtual bases.
    pub fn open_split(bases: Vec<u64>, cfg: PipelineConfig) -> (r: Self)
        requires
            cfg.max_slots >= cfg.qd,
            cfg.max_slots < 0x1_0000_0000,
            bases@.len() > 0,
            bracket::ascending(bases@),
        ensures
            r.wf(),
            r.bases == bases,
            r.qd == cfg.qd,
            r.pool@.len() == cfg.max_slots,
            r.free@ == Seq::new(cfg.max_slots as nat, |i: int| (cfg.max_slots - 1 - i) as usize),
            r.ready@.len() == 0,
            r.next_batch_id == 0,
            r.counters == no_stats(),
            forall|batch: u64, pos: usize| !#[trigger] r.holds(batch, pos),
    {
        let mut pool: Vec<Option<Slot<B>>> = Vec::new();
        let mut free: Vec<usize> = Vec::new();
        let n: usize = cfg.max_slots;
        while pool.len() < n
            invariant
                pool@.len() == free@.len() <= n,
                forall|i: int| 0 <= i < pool@.len() ==> #[trigger] pool@[i] is None,
                forall|i: int| 0 <= i < free@.len() ==> #[trigger] free@[i] == n - 1 - i,
            decreases n - pool@.len(),
        {
            free.push(n - 1 - pool.len());
            pool.push(None);
        }
        proof {
            lemma_carried_none(pool@);
        }
        let r = Pipeline {
            bases,
            qd: cfg.qd,
            pool,
            free,
            ready: Vec::new(),
            next_batch_id: 0,
            counters: PipelineStats::default(),
        };
        assert(r.free@ =~= Seq::new(
            cfg.max_slots as nat,
            |i: int| (cfg.max_slots - 1 - i) as usize,
        ));
        r
    }

    /// The counters.
    pub fn stats(&self) -> (r: &PipelineStats)
        ensures
            *r == self.counters,
    {
        &self.counters
    }

    /// Sets the counters back to zero.
    pub fn reset_stats(&mut self)
        ensures
            *final(self) == (Pipeline { counters: no_stats(), ..*old(self) }),
    {
        self.counters = PipelineStats::default();
    }

    /// Number of free buffer slots.
    pub fn free_slots(&self) -> (r: usize)
        ensures
            r == self.free@.len(),
    {
        self.free.len()
    }

    /// Number of reads in flight.
    pub fn inflight(&self) -> (r: usize)
        requires
            self.wf(),
        ensures
            r == carried(self.pool@),
            r + self.free@.len() == self.pool@.len(),
    {
        self.pool.len() - self.free.len()
    }

    /// Starts the submission of a batch of `n` reads. An empty batch takes no batch id.
    pub fn submit(&mut self, n: usize) -> (r: (Submission, PipelineBatch))
        requires
            old(self).wf(),
            old(self).next_batch_id < MAX_BATCHES,
        ensures
            final(self).wf(),
            final(self).same_reads(*old(self)),
            n == 0 ==> *final(self) == *old(self) && r.0 == (Submission { batch_id: 0, start: 0 })
                && r.1 == (PipelineBatch { batch_id: 0, remaining: 0, pos: 0 }),
            n > 0 ==> *final(self) == (Pipeline {
                next_batch_id: (old(self).next_batch_id + 1) as u64,
                ..*old(self)
            }) && r.0 == (Submission { batch_id: old(self).next_batch_id, start: 0 }) && r.1 == (
            PipelineBatch { batch_id: old(self).next_batch_id, remaining: n, pos: 0 })
                && final(self).fresh(r.0),
    {
        if n == 0 {
            return (
                Submission { batch_id: 0, start: 0 },
                PipelineBatch { batch_id: 0, remaining: 0, pos: 0 },
            );
        }
        let batch_id: u64 = self.next_batch_id;
        self.next_batch_id = batch_id + 1;
        proof {
            lemma_same_fields(*old(self), *self);
        }
        (Submission { batch_id, start: 0 }, PipelineBatch { batch_id, remaining: n, pos: 0 })
    }

    /// What the submission of `reads` does next: the next read goes out while fewer than `qd`
    /// reads are in flight and a buffer more has a slot.
    pub fn submit_batch_reads(&self, reads: &[Read], sub: &Submission) -> (r: Step)
        requires
            self.wf(),
            forall|i: int| 0 <= i < reads@.len() ==> self.placeable(#[trigger] reads@[i]),
        ensures
            match r {
                Step::Done => sub.start >= reads@.len(),
                Step::Wait => sub.start < reads@.len() && !self.room(),
                Step::Submit(q) => sub.start < reads@.len() && self.room() && self.requests(
                    reads@[sub.start as int],
                    q,
                ),
            },
    {
        if sub.start >= reads.len() {
            return Step::Done;
        }
        if self.inflight() >= self.qd || self.ready.len() >= self.free.len() {
            return Step::Wait;
        }
        let r: Read = reads[sub.start];
        assert(self.placeable(reads@[sub.start as int]));
        Step::Submit(request(self.bases.as_slice(), r))
    }

    /// Enters the next read of a submission into a free slot and returns the tag of its request.
    /// `None`, and nothing is entered, when there is no room or no buffer for the read.
    pub fn alloc_slot(
        &mut self,
        sub: &mut Submission,
        r: Read,
        q: Request,
        buf: Option<Aligned<B>>,
    ) -> (res: Option<u64>)
        requires
            old(self).wf(),
            old(self).fresh(*old(sub)),
            old(self).placeable(r),
            old(self).requests(r, q),
            buf matches Some(b) ==> b.size() == q.cap,
            old(self).counters.bytes_disk + q.bracket.disk_len <= u64::MAX,
            old(sub).start < usize::MAX,
        ensures
            final(self).wf(),
            final(self).fresh(*final(sub)),
            res is Some <==> old(self).buffers() < old(self).pool@.len() && buf is Some,
            res is None ==> *final(self) == *old(self) && *final(sub) == *old(sub),
            res matches Some(ud) ==> {
                &&& ud == tag(old(sub).batch_id, old(self).free@.last())
                &&& old(self).enters(*final(self), *old(sub), r, q, buf->0)
                &&& *final(sub) == (Submission {
                    batch_id: old(sub).batch_id,
                    start: (old(sub).start + 1) as usize,
                })
                &&& forall|b: u64, p: usize| #[trigger]
                    final(self).holds(b, p) <==> old(self).holds(b, p) || (b == old(sub).batch_id
                        && p == old(sub).start)
            },
    {
        let buf = match buf {
            Some(b) => b,
            None => {
                return None;
            },
        };
        if self.ready.len() >= self.free.len() {
            return None;
        }
        let idx: usize = match self.free.pop() {
            Some(i) => i,
            None => {
                return None;
            },
        };
        proof {
            assert(old(self).free@[old(self).free@.len() - 1] == idx);
            lemma_same_fields(*old(self), *self);
            bracket::law_bracket_covers(
                (r.offset - self.bases@[q.file as int]) as nat,
                r.len as nat,
                ALIGN as nat,
            );
        }
        let slot = Slot {
            buf,
            payload_off: q.bracket.payload_off as usize,
            payload_len: r.len as usize,
            batch_id: sub.batch_id,
            batch_pos: sub.start,
            wanted: true,
        };
        let ghost before = *self;
        self.pool.set(idx, Some(slot));
        proof {
            lemma_enter(before, *self, idx as int, slot);
            lemma_carried_update(old(self).pool@, idx as int, Some(slot));
        }
        let ghost entered = *self;
        let ud: u64 = sub.batch_id * 0x1_0000_0000 + idx as u64;
        self.counters.bytes_disk = self.counters.bytes_disk + q.bracket.disk_len;
        proof {
            lemma_same_fields(entered, *self);
            assert forall|a: int| 0 <= a < self.free@.len() implies (#[trigger] self.free@[a])
                < self.pool@.len() && self.pool@[self.free@[a] as int] is None by {
                assert(old(self).free@[a] != old(self).free@[old(self).free@.len() - 1]);
            }
            assert forall|b: u64, p: usize| #[trigger] self.holds(b, p) <==> old(self).holds(b, p)
                || (b == old(sub).batch_id && p == old(sub).start) by {
                assert(entered.holds(b, p) == self.holds(b, p));
                assert(before.holds(b, p) == old(self).holds(b, p));
            }
        }
        sub.start = sub.start + 1;
        Some(ud)
    }
}

/// Pipelines that agree on pool and completed reads hold the same reads.
proof fn lemma_same_fields<B>(a: Pipeline<B>, b: Pipeline<B>)
    requires
        a.pool@ == b.pool@,
        a.ready@ == b.ready@,
    ensures
        b.same_reads(a),
        a.unique() ==> b.unique(),
        forall|i: int, batch: u64, pos: usize|
            #[trigger] a.flies(i, batch, pos) == b.flies(i, batch, pos),
        forall|j: int, batch: u64, pos: usize|
            #[trigger] a.waits(j, batch, pos) == b.waits(j, batch, pos),
        forall|i: int, batch: u64, pos: usize|
            a.flies(i, batch, pos) == #[trigger] b.flies(i, batch, pos),
        forall|j: int, batch: u64, pos: usize|
            a.waits(j, batch, pos) == #[trigger] b.waits(j, batch, pos),
{
    assert(forall|i: int, batch: u64, pos: usize|
        a.flies(i, batch, pos) == b.flies(i, batch, pos));
    assert(forall|j: int, batch: u64, pos: usize|
        a.waits(j, batch, pos) == b.waits(j, batch, pos));
}

/// Entering a read that is not held keeps the reads distinct.
proof fn lemma_enter<B>(a: Pipeline<B>, b: Pipeline<B>, idx: int, slot: Slot<B>)
    requires
        a.unique(),
        0 <= idx < a.pool@.len(),
        a.pool@[idx] is None,
        b.pool@ == a.pool@.update(idx, Some(slot)),
        b.ready@ == a.ready@,
        slot.payload_off + slot.payload_len <= slot.buf.size(),
        slot.wanted,
        forall|i: int| !#[trigger] a.flies(i, slot.batch_id, slot.batch_pos),
        forall|j: int| !#[trigger] a.waits(j, slot.batch_id, slot.batch_pos),
    ensures
        b.unique(),
        forall|i: int, batch: u64, pos: usize| #[trigger]
            b.flies(i, batch, pos) == (if i == idx {
                batch == slot.batch_id && pos == slot.batch_pos
            } else {
                a.flies(i, batch, pos)
            }),
        forall|j: int, batch: u64, pos: usize| #[trigger]
            b.waits(j, batch, pos) == a.waits(j, batch, pos),
        forall|batch: u64, pos: usize| #[trigger]
            b.holds(batch, pos) <==> a.holds(batch, pos) || (batch == slot.batch_id && pos
                == slot.batch_pos),
{
    assert forall|i: int, batch: u64, pos: usize| #[trigger] b.flies(i, batch, pos) == (if i == idx {
        batch == slot.batch_id && pos == slot.batch_pos
    } else {
        a.flies(i, batch, pos)
    }) by {}
    assert forall|j: int, batch: u64, pos: usize| #[trigger] b.waits(j, batch, pos) == a.waits(
        j,
        batch,
        pos,
    ) by {}
    assert forall|batch: u64, pos: usize| #[trigger] b.holds(batch, pos) <==> a.holds(batch, pos)
        || (batch == slot.batch_id && pos == slot.batch_pos) by {
        if a.holds(batch, pos) {
            if exists|i: int| a.flies(i, batch, pos) {
                let i = choose|i: int| a.flies(i, batch, pos);
                assert(b.flies(i, batch, pos));
            } else {
                let j = choose|j: int| a.waits(j, batch, pos);
                assert(b.waits(j, batch, pos));
            }
        }
        if batch == slot.batch_id && pos == slot.batch_pos {
            assert(b.flies(idx, batch, pos));
        }
        if b.holds(batch, pos) {
            if exists|i: int| b.flies(i, batch, pos) {
                let i = choose|i: int| b.flies(i, batch, pos);
                assert(i == idx || a.flies(i, batch, pos));
            } else {
                let j = choose|j: int| b.waits(j, batch, pos);
                assert(a.waits(j, batch, pos));
            }
        }
    }
}

impl<B> Pipeline<B> {
    /// A tag whose read is in flight.
    pub open spec fn expects(self, ud: u64) -> bool {
        let slot = ud % 0x1_0000_0000;
        slot < self.pool@.len() && (self.pool@[slot as int] matches Some(s) && s.batch_id == ud
            / 0x1_0000_0000)
    }

    /// Whether the read of a tag is in flight.
    pub fn is_expected(&self, ud: u64) -> (r: bool)
        ensures
            r == self.expects(ud),
    {
        let slot: u64 = ud % 0x1_0000_0000;
        if slot >= self.pool.len() as u64 {
            return false;
        }
        match &self.pool[slot as usize] {
            Some(s) => s.batch_id == ud / 0x1_0000_0000,
            None => false,
        }
    }

    /// Takes in the completion of a request: its slot is freed, and its slab waits for its turn,
    /// unless its batch was given up. What was not read is not part of the payload. A negative
    /// result is an error number: the slot is freed, and nothing comes of the read.
    pub fn drain_one(&mut self, ud: u64, result: i32, elapsed_ns: u64) -> (r: Result<(), i32>)
        requires
            old(self).wf(),
            old(self).expects(ud),
            result > i32::MIN,
            old(self).counters.reads < u64::MAX,
            old(self).counters.bytes_payload + old(self).pool@[(ud % 0x1_0000_0000) as int]->0.payload_len
                <= u64::MAX,
            old(self).counters.t_complete_ns + elapsed_ns <= u64::MAX,
        ensures
            final(self).wf(),
            forall|sub: Submission| #[trigger] old(self).fresh(sub) ==> final(self).fresh(sub),
            match r {
                Err(e) => {
                    let s = old(self).pool@[(ud % 0x1_0000_0000) as int]->0;
                    &&& result < 0
                    &&& e == -result
                    &&& old(self).fails(*final(self), ud)
                    &&& forall|b: u64, p: usize| #[trigger]
                        final(self).holds(b, p) <==> old(self).holds(b, p) && !(s.wanted && b
                            == s.batch_id && p == s.batch_pos)
                },
                Ok(()) => {
                    &&& result >= 0
                    &&& old(self).completes(*final(self), ud, result, elapsed_ns)
                    &&& final(self).same_reads(*old(self))
                },
            },
    {
        let idx: usize = (ud % 0x1_0000_0000) as usize;
        let mut taken: Option<Slot<B>> = None;
        std::mem::swap(&mut taken, &mut self.pool[idx]);
        self.free.push(idx);
        proof {
            lemma_carried_update(old(self).pool@, idx as int, None);
            assert(self.pool@ =~= old(self).pool@.update(idx as int, None));
            assert(self.free@[self.free@.len() - 1] == idx);
            assert forall|a: int| 0 <= a < self.free@.len() implies (#[trigger] self.free@[a])
                < self.pool@.len() && self.pool@[self.free@[a] as int] is None by {
                if a < old(self).free@.len() {
                    assert(old(self).free@[a] < old(self).pool@.len());
                }
            }
            assert forall|a: int, b: int| 0 <= a < b < self.free@.len() implies #[trigger] self.free@[a]
                != #[trigger] self.free@[b] by {
                if b < old(self).free@.len() {
                    assert(old(self).free@[a] != old(self).free@[b]);
                } else {
                    assert(old(self).pool@[old(self).free@[a] as int] is None);
                }
            }
        }
        if result < 0 {
            proof {
                lemma_release(*old(self), *self, idx as int);
            }
            return Err(-result);
        }
        if let Some(s) = taken {
            let ghost was = s;
            let len: usize = if result as u64 <= s.payload_off as u64 {
                0
            } else if result as u64 - s.payload_off as u64 <= s.payload_len as u64 {
                (result as u64 - s.payload_off as u64) as usize
            } else {
                s.payload_len
            };
            self.counters.reads = self.counters.reads + 1;
            self.counters.bytes_payload = self.counters.bytes_payload + len as u64;
            self.counters.t_complete_ns = self.counters.t_complete_ns + elapsed_ns;
            if s.wanted {
                self.ready.push(
                    Done {
                        batch_id: s.batch_id,
                        batch_pos: s.batch_pos,
                        slab: Slab { buf: s.buf, payload_off: s.payload_off, payload_len: len },
                    },
                );
            }
            proof {
                if was.wanted {
                    assert(self.ready@.drop_last() =~= old(self).ready@);
                    lemma_complete(*old(self), *self, idx as int);
                } else {
                    lemma_release(*old(self), *self, idx as int);
                    assert forall|b: u64, p: usize| #[trigger] self.holds(b, p) <==> old(
                        self,
                    ).holds(b, p) by {
                        assert(!old(self).flies(idx as int, b, p));
                    }
                }
            }
        }
        Ok(())
    }

    /// Takes the completed read at a position of a batch, if it has completed.
    pub fn try_yield(&mut self, batch_id: u64, pos: usize) -> (r: Option<Slab<B>>)
        requires
            old(self).wf(),
        ensures
            final(self).wf(),
            r is Some <==> old(self).is_ready(batch_id, pos),
            r is None ==> *final(self) == *old(self),
            r matches Some(slab) ==> {
                &&& slab.wf()
                &&& old(self).takes(*final(self), batch_id, pos, slab)
                &&& forall|b: u64, p: usize| #[trigger]
                    final(self).holds(b, p) <==> old(self).holds(b, p) && !(b == batch_id && p
                        == pos)
            },
            forall|sub: Submission| #[trigger] old(self).fresh(sub) ==> final(self).fresh(sub),
    {
        let mut i: usize = 0;
        while i < self.ready.len()
            invariant
                *self == *old(self),
                old(self).wf(),
                i <= self.ready@.len(),
                forall|j: int| 0 <= j < i ==> !#[trigger] self.waits(j, batch_id, pos),
            decreases self.ready@.len() - i,
        {
            if self.ready[i].batch_id == batch_id && self.ready[i].batch_pos == pos {
                let d = self.ready.remove(i);
                proof {
                    assert(old(self).waits(i as int, batch_id, pos));
                    lemma_yield(*old(self), *self, i as int);
                }
                return Some(d.slab);
            }
            i = i + 1;
        }
        None
    }

    /// What the yield of a batch does next: the slab of the next read, once it has completed.
    pub fn poll_next(&mut self, batch: &mut PipelineBatch) -> (r: Poll<B>)
        requires
            old(self).wf(),
            old(batch).pos + old(batch).remaining <= usize::MAX,
        ensures
            final(self).wf(),
            forall|sub: Submission| #[trigger] old(self).fresh(sub) ==> final(self).fresh(sub),
            match r {
                Poll::End => old(batch).remaining == 0 && *final(self) == *old(self)
                    && *final(batch) == *old(batch),
                Poll::Ready(slab) => {
                    &&& old(batch).remaining > 0
                    &&& old(self).is_ready(old(batch).batch_id, old(batch).pos)
                    &&& old(self).takes(
                        *final(self),
                        old(batch).batch_id,
                        old(batch).pos,
                        slab,
                    )
                    &&& slab.wf()
                    &&& *final(batch) == (PipelineBatch {
                        batch_id: old(batch).batch_id,
                        remaining: (old(batch).remaining - 1) as usize,
                        pos: (old(batch).pos + 1) as usize,
                    })
                    &&& forall|b: u64, p: usize| #[trigger]
                        final(self).holds(b, p) <==> old(self).holds(b, p) && !(b
                            == old(batch).batch_id && p == old(batch).pos)
                },
                Poll::Wait => old(batch).remaining > 0 && *final(self) == *old(self)
                    && *final(batch) == *old(batch) && !old(self).is_ready(
                    old(batch).batch_id,
                    old(batch).pos,
                ) && carried(old(self).pool@) > 0,
                Poll::Missing => old(batch).remaining > 0 && *final(self) == *old(self)
                    && *final(batch) == *old(batch) && !old(self).is_ready(
                    old(batch).batch_id,
                    old(batch).pos,
                ) && carried(old(self).pool@) == 0,
            },
    {
        if batch.remaining == 0 {
            return Poll::End;
        }
        match self.try_yield(batch.batch_id, batch.pos) {
            Some(slab) => {
                batch.pos = batch.pos + 1;
                batch.remaining = batch.remaining - 1;
                Poll::Ready(slab)
            },
            None => {
                if self.inflight() == 0 {
                    Poll::Missing
                } else {
                    Poll::Wait
                }
            },
        }
    }
}

/// Completing a read moves it from its slot to the completed reads.
proof fn lemma_complete<B>(a: Pipeline<B>, b: Pipeline<B>, idx: int)
    requires
        a.unique(),
        0 <= idx < a.pool@.len(),
        a.pool@[idx] is Some,
        a.pool@[idx]->0.wanted,
        b.pool@ == a.pool@.update(idx, None),
        b.ready@.len() == a.ready@.len() + 1,
        b.ready@.drop_last() == a.ready@,
        ({
            let s = a.pool@[idx]->0;
            let d = b.ready@.last();
            &&& d.batch_id == s.batch_id
            &&& d.batch_pos == s.batch_pos
            &&& d.slab.buf == s.buf
            &&& d.slab.payload_off == s.payload_off
            &&& d.slab.payload_len <= s.payload_len
        }),
    ensures
        b.unique(),
        b.same_reads(a),
        forall|i: int, batch: u64, pos: usize| #[trigger]
            b.flies(i, batch, pos) == (i != idx && a.flies(i, batch, pos)),
        forall|j: int, batch: u64, pos: usize| #[trigger]
            b.waits(j, batch, pos) == (if j == a.ready@.len() {
                a.flies(idx, batch, pos)
            } else {
                a.waits(j, batch, pos)
            }),
{
    let n = a.ready@.len() as int;
    assert forall|i: int, batch: u64, pos: usize| #[trigger] b.flies(i, batch, pos) == (i != idx
        && a.flies(i, batch, pos)) by {}
    assert forall|j: int, batch: u64, pos: usize| #[trigger] b.waits(j, batch, pos) == (if j == n {
        a.flies(idx, batch, pos)
    } else {
        a.waits(j, batch, pos)
    }) by {
        if 0 <= j < n {
            assert(b.ready@.drop_last()[j] == a.ready@[j]);
        }
    }
    assert forall|j: int| 0 <= j < b.ready@.len() implies (#[trigger] b.ready@[j]).slab.wf() by {
        if j < n {
            assert(b.ready@.drop_last()[j] == a.ready@[j]);
            assert(a.ready@[j].slab.wf());
        } else {
            let s = a.pool@[idx]->0;
            assert(a.pool@[idx] == Some(s));
            assert(s.payload_off + s.payload_len <= s.buf.size());
        }
    }
    assert forall|batch: u64, pos: usize| #[trigger] b.holds(batch, pos) <==> a.holds(
        batch,
        pos,
    ) by {
        if a.holds(batch, pos) {
            if exists|i: int| a.flies(i, batch, pos) {
                let i = choose|i: int| a.flies(i, batch, pos);
                if i == idx {
                    assert(b.waits(n, batch, pos));
                } else {
                    assert(b.flies(i, batch, pos));
                }
            } else {
                let j = choose|j: int| a.waits(j, batch, pos);
                assert(b.waits(j, batch, pos));
            }
        }
        if b.holds(batch, pos) {
            if exists|i: int| b.flies(i, batch, pos) {
                let i = choose|i: int| b.flies(i, batch, pos);
                assert(a.flies(i, batch, pos));
            } else {
                let j = choose|j: int| b.waits(j, batch, pos);
                assert(a.flies(idx, batch, pos) || a.waits(j, batch, pos));
            }
        }
    }
}

/// Freeing a slot forgets its read, and no other.
proof fn lemma_release<B>(a: Pipeline<B>, b: Pipeline<B>, idx: int)
    requires
        a.unique(),
        0 <= idx < a.pool@.len(),
        b.pool@ == a.pool@.update(idx, None),
        b.ready@ == a.ready@,
    ensures
        b.unique(),
        forall|i: int, batch: u64, pos: usize| #[trigger]
            b.flies(i, batch, pos) == (i != idx && a.flies(i, batch, pos)),
        forall|j: int, batch: u64, pos: usize| #[trigger]
            b.waits(j, batch, pos) == a.waits(j, batch, pos),
        forall|batch: u64, pos: usize| #[trigger]
            b.holds(batch, pos) <==> a.holds(batch, pos) && !a.flies(idx, batch, pos),
{
    assert forall|i: int, batch: u64, pos: usize| #[trigger] b.flies(i, batch, pos) == (i != idx
        && a.flies(i, batch, pos)) by {}
    assert forall|j: int, batch: u64, pos: usize| #[trigger] b.waits(j, batch, pos) == a.waits(
        j,
        batch,
        pos,
    ) by {}
    assert forall|batch: u64, pos: usize| #[trigger] b.holds(batch, pos) <==> a.holds(batch, pos)
        && !a.flies(idx, batch, pos) by {
        if a.holds(batch, pos) && !a.flies(idx, batch, pos) {
            if exists|i: int| a.flies(i, batch, pos) {
                let i = choose|i: int| a.flies(i, batch, pos);
                assert(b.flies(i, batch, pos));
            } else {
                let j = choose|j: int| a.waits(j, batch, pos);
                assert(b.waits(j, batch, pos));
            }
        }
        if b.holds(batch, pos) {
            if exists|i: int| b.flies(i, batch, pos) {
                let i = choose|i: int| b.flies(i, batch, pos);
                assert(a.flies(i, batch, pos));
            } else {
                let j = choose|j: int| b.waits(j, batch, pos);
                assert(a.waits(j, batch, pos));
            }
        }
    }
}

/// A slot once a batch is given up.
pub open spec fn given_up<B>(x: Option<Slot<B>>, batch: u64) -> Option<Slot<B>> {
    match x {
        Some(s) => Some(Slot { wanted: s.wanted && s.batch_id != batch, ..s }),
        None => None,
    }
}

/// The completed reads of other batches, in their order.
pub open spec fn of_others<B>(s: Seq<Done<B>>, batch: u64) -> Seq<Done<B>>
    decreases s.len(),
{
    if s.len() == 0 {
        s
    } else {
        let t = of_others(s.drop_last(), batch);
        if s.last().batch_id == batch {
            t
        } else {
            t.push(s.last())
        }
    }
}

proof fn lemma_others_remove<B>(s: Seq<Done<B>>, batch: u64, k: int)
    requires
        0 <= k < s.len(),
        s[k].batch_id == batch,
    ensures
        of_others(s.remove(k), batch) == of_others(s, batch),
    decreases s.len(),
{
    let t = s.remove(k);
    if k == s.len() - 1 {
        assert(t =~= s.drop_last());
    } else {
        assert(t.drop_last() =~= s.drop_last().remove(k));
        assert(t.last() == s.last());
        lemma_others_remove(s.drop_last(), batch, k);
    }
}

proof fn lemma_others_all<B>(s: Seq<Done<B>>, batch: u64)
    requires
        forall|j: int| 0 <= j < s.len() ==> (#[trigger] s[j]).batch_id != batch,
    ensures
        of_others(s, batch) == s,
    decreases s.len(),
{
    if s.len() > 0 {
        assert(s[s.len() - 1].batch_id != batch);
        assert forall|j: int| 0 <= j < s.drop_last().len() implies (#[trigger] s.drop_last()[j]).batch_id
            != batch by {
            assert(s[j].batch_id != batch);
        }
        lemma_others_all(s.drop_last(), batch);
        assert(s.drop_last().push(s.last()) =~= s);
    }
}

/// Giving up a batch forgets its reads in flight, and no others.
proof fn lemma_give_up<B>(a: Pipeline<B>, b: Pipeline<B>, batch: u64)
    requires
        a.wf(),
        b == (Pipeline { pool: b.pool, ..a }),
        b.pool@.len() == a.pool@.len(),
        forall|i: int|
            0 <= i < a.pool@.len() ==> #[trigger] b.pool@[i] == given_up(a.pool@[i], batch),
    ensures
        b.wf(),
        forall|i: int, x: u64, pos: usize| #[trigger]
            b.flies(i, x, pos) == (a.flies(i, x, pos) && x != batch),
        forall|j: int, x: u64, pos: usize| #[trigger] b.waits(j, x, pos) == a.waits(j, x, pos),
        forall|sub: Submission| #[trigger] a.fresh(sub) ==> b.fresh(sub),
        forall|x: u64, pos: usize|
            x != batch ==> #[trigger] b.holds(x, pos) == a.holds(x, pos),
{
    assert forall|i: int, x: u64, pos: usize| #[trigger] b.flies(i, x, pos) == (a.flies(i, x, pos)
        && x != batch) by {
        if 0 <= i < a.pool@.len() {
            assert(b.pool@[i] == given_up(a.pool@[i], batch));
        }
    }
    assert forall|j: int, x: u64, pos: usize| #[trigger] b.waits(j, x, pos) == a.waits(
        j,
        x,
        pos,
    ) by {}
    assert(b.free_ok()) by {
        assert forall|k: int| 0 <= k < b.free@.len() implies (#[trigger] b.free@[k])
            < b.pool@.len() && b.pool@[b.free@[k] as int] is None by {
            assert(a.pool@[a.free@[k] as int] is None);
            assert(b.pool@[a.free@[k] as int] == given_up(a.pool@[a.free@[k] as int], batch));
        }
        assert forall|i: int| 0 <= i < b.pool@.len() implies (#[trigger] b.pool@[i] is Some)
            == (a.pool@[i] is Some) by {
            assert(b.pool@[i] == given_up(a.pool@[i], batch));
        }
        lemma_carried_same(b.pool@, a.pool@);
    }
    assert(carried(a.pool@) == carried(b.pool@));
    assert(b.unique()) by {
        assert forall|i: int| 0 <= i < b.pool@.len() implies ((#[trigger] b.pool@[i]) matches Some(
            s,
        ) ==> s.payload_off + s.payload_len <= s.buf.size()) by {
            assert(b.pool@[i] == given_up(a.pool@[i], batch));
            assert(a.pool@[i] matches Some(s) ==> s.payload_off + s.payload_len <= s.buf.size());
        }
    }
    assert forall|x: u64, pos: usize| x != batch implies #[trigger] b.holds(x, pos) == a.holds(
        x,
        pos,
    ) by {
        if a.holds(x, pos) {
            if exists|i: int| a.flies(i, x, pos) {
                let i = choose|i: int| a.flies(i, x, pos);
                assert(b.flies(i, x, pos));
            } else {
                let j = choose|j: int| a.waits(j, x, pos);
                assert(b.waits(j, x, pos));
            }
        }
        if b.holds(x, pos) {
            if exists|i: int| b.flies(i, x, pos) {
                let i = choose|i: int| b.flies(i, x, pos);
                assert(a.flies(i, x, pos));
            } else {
                let j = choose|j: int| b.waits(j, x, pos);
                assert(a.waits(j, x, pos));
            }
        }
    }
}

impl<B> Pipeline<B> {
    /// Gives up the rest of a batch: what has completed is discarded, and so is what completes
    /// later. Other batches are not affected.
    pub fn discard(&mut self, batch: PipelineBatch)
        requires
            old(self).wf(),
        ensures
            final(self).wf(),
            forall|sub: Submission| #[trigger] old(self).fresh(sub) ==> final(self).fresh(sub),
            batch.remaining == 0 ==> *final(self) == *old(self),
            batch.remaining > 0 ==> {
                &&& *final(self) == (Pipeline {
                    pool: final(self).pool,
                    ready: final(self).ready,
                    ..*old(self)
                })
                &&& final(self).pool@.len() == old(self).pool@.len()
                &&& forall|i: int|
                    0 <= i < old(self).pool@.len() ==> #[trigger] final(self).pool@[i] == given_up(
                        old(self).pool@[i],
                        batch.batch_id,
                    )
                &&& final(self).ready@ == of_others(old(self).ready@, batch.batch_id)
                &&& forall|pos: usize| !#[trigger] final(self).holds(batch.batch_id, pos)
                &&& forall|b: u64, pos: usize|
                    b != batch.batch_id ==> #[trigger] final(self).holds(b, pos) == old(
                        self,
                    ).holds(b, pos)
            },
    {
        if batch.remaining == 0 {
            return;
        }
        let id: u64 = batch.batch_id;
        let n: usize = self.pool.len();
        let mut i: usize = 0;
        while i < n
            invariant
                i <= n,
                n == self.pool@.len() == old(self).pool@.len(),
                *self == (Pipeline { pool: self.pool, ..*old(self) }),
                forall|k: int|
                    0 <= k < n ==> #[trigger] self.pool@[k] == if k < i {
                        given_up(old(self).pool@[k], id)
                    } else {
                        old(self).pool@[k]
                    },
            decreases n - i,
        {
            let mut taken: Option<Slot<B>> = None;
            std::mem::swap(&mut taken, &mut self.pool[i]);
            if let Some(s) = taken {
                self.pool.set(
                    i,
                    Some(
                        Slot {
                            buf: s.buf,
                            payload_off: s.payload_off,
                            payload_len: s.payload_len,
                            batch_id: s.batch_id,
                            batch_pos: s.batch_pos,
                            wanted: s.wanted && s.batch_id != id,
                        },
                    ),
                );
            }
            i = i + 1;
        }
        proof {
            lemma_give_up(*old(self), *self, id);
        }
        let ghost mid = *self;
        let mut j: usize = 0;
        while j < self.ready.len()
            invariant
                j <= self.ready@.len(),
                self.wf(),
                *self == (Pipeline { ready: self.ready, ..mid }),
                of_others(self.ready@, id) == of_others(mid.ready@, id),
                forall|k: int| 0 <= k < j ==> (#[trigger] self.ready@[k]).batch_id != id,
                forall|sub: Submission| #[trigger] mid.fresh(sub) ==> self.fresh(sub),
                forall|b: u64, pos: usize|
                    b != id ==> #[trigger] self.holds(b, pos) == mid.holds(b, pos),
            decreases self.ready@.len() - j,
        {
            if self.ready[j].batch_id == id {
                let ghost before = *self;
                let _ = self.ready.remove(j);
                proof {
                    lemma_yield(before, *self, j as int);
                    lemma_others_remove(before.ready@, id, j as int);
                }
            } else {
                j = j + 1;
            }
        }
        proof {
            lemma_others_all(self.ready@, id);
            assert forall|pos: usize| !#[trigger] self.holds(id, pos) by {
                assert forall|i: int| !#[trigger] self.flies(i, id, pos) by {
                    assert(mid.flies(i, id, pos) == self.flies(i, id, pos));
                }
            }
        }
    }
}

/// Taking a completed read out leaves the others.
proof fn lemma_yield<B>(a: Pipeline<B>, b: Pipeline<B>, k: int)
    requires
        a.wf(),
        0 <= k < a.ready@.len(),
        b == (Pipeline { ready: b.ready, ..a }),
        b.ready@ == a.ready@.remove(k),
    ensures
        b.wf(),
        forall|sub: Submission| #[trigger] a.fresh(sub) ==> b.fresh(sub),
        forall|batch: u64, pos: usize| #[trigger]
            b.holds(batch, pos) <==> a.holds(batch, pos) && !(batch == a.ready@[k].batch_id && pos
                == a.ready@[k].batch_pos),
        a.ready@[k].slab.wf(),
{
    let bk = a.ready@[k].batch_id;
    let pk = a.ready@[k].batch_pos;
    assert(a.waits(k, bk, pk));
    assert forall|i: int, batch: u64, pos: usize| #[trigger] b.flies(i, batch, pos) == a.flies(
        i,
        batch,
        pos,
    ) by {}
    assert forall|j: int, batch: u64, pos: usize| #[trigger] b.waits(j, batch, pos) == a.waits(
        if j < k {
            j
        } else {
            j + 1
        },
        batch,
        pos,
    ) by {}
    assert(b.unique()) by {
        assert forall|i: int, m: int, batch: u64, pos: usize|
            #[trigger] b.waits(i, batch, pos) && #[trigger] b.waits(m, batch, pos) implies i == m by {
            let i2 = if i < k {
                i
            } else {
                i + 1
            };
            let m2 = if m < k {
                m
            } else {
                m + 1
            };
            assert(a.waits(i2, batch, pos) && a.waits(m2, batch, pos));
        }
        assert forall|j: int| 0 <= j < b.ready@.len() implies (#[trigger] b.ready@[j]).slab.wf() by {
            assert(a.ready@[if j < k {
                j
            } else {
                j + 1
            }].slab.wf());
        }
    }
    assert forall|batch: u64, pos: usize| #[trigger] b.holds(batch, pos) <==> a.holds(batch, pos)
        && !(batch == bk && pos == pk) by {
        if b.holds(batch, pos) {
            if exists|i: int| b.flies(i, batch, pos) {
                let i = choose|i: int| b.flies(i, batch, pos);
                assert(a.flies(i, batch, pos));
            } else {
                let j = choose|j: int| b.waits(j, batch, pos);
                assert(a.waits(
                    if j < k {
                        j
                    } else {
                        j + 1
                    },
                    batch,
                    pos,
                ));
            }
        }
        if a.holds(batch, pos) && !(batch == bk && pos == pk) {
            if exists|i: int| a.flies(i, batch, pos) {
                let i = choose|i: int| a.flies(i, batch, pos);
                assert(b.flies(i, batch, pos));
            } else {
                let j = choose|j: int| a.waits(j, batch, pos);
                assert(b.waits(
                    if j < k {
                        j
                    } else {
                        j - 1
                    },
                    batch,
                    pos,
                ));
            }
        }
    }
}

/// While a read is held, the yield of its batch never reports it missing: it is ready, or a read is
/// in flight.
pub proof fn law_held_not_missing<B>(p: Pipeline<B>, batch: u64, pos: usize)
    requires
        p.wf(),
        p.holds(batch, pos),
    ensures
        p.is_ready(batch, pos) || carried(p.pool@) > 0,
{
    if !p.is_ready(batch, pos) {
        let i = choose|i: int| p.flies(i, batch, pos);
        lemma_carried_update(p.pool@, i, None);
    }
}

} // verus!
