//! A whole batch: every read comes out once, in order, whatever the depth and the slots.
use vstd::prelude::*;

use super::bracket;
use super::bracket::Request;
use super::buffer::{Aligned, Slab};
use super::pipeline;
use super::pipeline::{Done, Pipeline, PipelineBatch, Slot, Submission};
use super::plan::Read;

verus! {

/// A batch on its way: the pipeline, what is submitted and what is yielded.
pub struct Progress<B> {
    pub pipeline: Pipeline<B>,
    pub sub: Submission,
    pub batch: PipelineBatch,
}

/// What happens to a batch.
pub enum Event<B> {
    /// The next read is entered, with its request and its buffer.
    Enter { q: Request, buf: Aligned<B> },
    /// A read completes, of this batch or of one that was given up.
    Complete { ud: u64, result: i32, elapsed_ns: u64 },
    /// The next slab is yielded.
    Yield { slab: Slab<B> },
}

/// A read brings all that was asked for.
pub open spec fn whole<B>(p: Pipeline<B>, ud: u64, result: i32) -> bool {
    let s = p.pool@[(ud % 0x1_0000_0000) as int]->0;
    s.payload_off + s.payload_len <= result
}

/// From `a` to `b` an event happens to a batch of `reads`.
pub open spec fn moves<B>(reads: Seq<Read>, a: Progress<B>, e: Event<B>, b: Progress<B>) -> bool {
    match e {
        Event::Enter { q, buf } => {
            let r = reads[a.sub.start as int];
            &&& a.sub.start < reads.len()
            &&& a.pipeline.requests(r, q)
            &&& a.pipeline.enters(b.pipeline, a.sub, r, q, buf)
            &&& b.sub == (Submission { start: (a.sub.start + 1) as usize, ..a.sub })
            &&& b.batch == a.batch
        },
        Event::Complete { ud, result, elapsed_ns } => {
            &&& a.pipeline.expects(ud)
            &&& whole(a.pipeline, ud, result)
            &&& a.pipeline.completes(b.pipeline, ud, result, elapsed_ns)
            &&& b.sub == a.sub
            &&& b.batch == a.batch
        },
        Event::Yield { slab } => {
            &&& a.batch.remaining > 0
            &&& a.pipeline.takes(b.pipeline, a.batch.batch_id, a.batch.pos, slab)
            &&& b.sub == a.sub
            &&& b.batch == (PipelineBatch {
                remaining: (a.batch.remaining - 1) as usize,
                pos: (a.batch.pos + 1) as usize,
                ..a.batch
            })
        },
    }
}

/// A batch of `reads` at its start: nothing of it is submitted, and no other read is waited for.
pub open spec fn begins<B>(reads: Seq<Read>, a: Progress<B>) -> bool {
    &&& a.sub.start == 0
    &&& a.sub.batch_id == a.batch.batch_id
    &&& a.batch.pos == 0
    &&& a.batch.remaining == reads.len()
    &&& forall|b: u64, p: usize| !#[trigger] a.pipeline.holds(b, p)
}

/// A run of a batch: what happens to it, and how it stands before, between and after.
pub open spec fn runs<B>(
    reads: Seq<Read>,
    states: Seq<Progress<B>>,
    events: Seq<Event<B>>,
) -> bool {
    &&& states.len() == events.len() + 1
    &&& begins(reads, states[0])
    &&& forall|i: int| 0 <= i < states.len() ==> (#[trigger] states[i]).pipeline.wf()
    &&& forall|i: int|
        0 <= i < events.len() ==> moves(reads, states[i], #[trigger] events[i], states[i + 1])
}

/// The requests and the buffers of the reads that were entered, in order.
pub open spec fn entries<B>(events: Seq<Event<B>>) -> Seq<(Request, Aligned<B>)>
    decreases events.len(),
{
    if events.len() == 0 {
        Seq::empty()
    } else {
        let t = entries(events.drop_last());
        match events.last() {
            Event::Enter { q, buf } => t.push((q, buf)),
            _ => t,
        }
    }
}

/// The slabs that were yielded, in order.
pub open spec fn yields<B>(events: Seq<Event<B>>) -> Seq<Slab<B>>
    decreases events.len(),
{
    if events.len() == 0 {
        Seq::empty()
    } else {
        let t = yields(events.drop_last());
        match events.last() {
            Event::Yield { slab } => t.push(slab),
            _ => t,
        }
    }
}

/// The slab of a read: all of its bytes, in the buffer that its request was read into.
pub open spec fn slab_of<B>(r: Read, e: (Request, Aligned<B>)) -> Slab<B> {
    Slab {
        buf: e.1,
        payload_off: e.0.bracket.payload_off as usize,
        payload_len: r.len as usize,
    }
}

/// A completed read is one of those, with its slab.
spec fn done_in_step<B>(
    reads: Seq<Read>,
    a: Progress<B>,
    ent: Seq<(Request, Aligned<B>)>,
    d: Done<B>,
) -> bool {
    &&& d.batch_id == a.batch.batch_id
    &&& a.batch.pos <= d.batch_pos < a.sub.start
    &&& d.slab == slab_of(reads[d.batch_pos as int], ent[d.batch_pos as int])
}

/// A read in flight that is waited for is one of those, with its window.
spec fn slot_in_step<B>(
    reads: Seq<Read>,
    a: Progress<B>,
    ent: Seq<(Request, Aligned<B>)>,
    x: Option<Slot<B>>,
) -> bool {
    match x {
        Some(s) => s.wanted ==> {
            let w = slab_of(reads[s.batch_pos as int], ent[s.batch_pos as int]);
            &&& s.batch_id == a.batch.batch_id
            &&& a.batch.pos <= s.batch_pos < a.sub.start
            &&& s.buf == w.buf
            &&& s.payload_off == w.payload_off
            &&& s.payload_len == w.payload_len
        },
        None => true,
    }
}

/// The reads from the next one to yield up to the next one to submit are held, with their buffers
/// and windows, and no others are waited for.
spec fn in_step<B>(reads: Seq<Read>, a: Progress<B>, ent: Seq<(Request, Aligned<B>)>) -> bool {
    let id = a.batch.batch_id;
    &&& a.sub.batch_id == id
    &&& a.batch.pos + a.batch.remaining == reads.len()
    &&& a.batch.pos <= a.sub.start <= reads.len()
    &&& ent.len() == a.sub.start
    &&& forall|k: int| 0 <= k < ent.len() ==> a.pipeline.requests(reads[k], (#[trigger] ent[k]).0)
    &&& forall|j: int|
        0 <= j < a.pipeline.ready@.len() ==> done_in_step(
            reads,
            a,
            ent,
            #[trigger] a.pipeline.ready@[j],
        )
    &&& forall|i: int|
        0 <= i < a.pipeline.pool@.len() ==> slot_in_step(
            reads,
            a,
            ent,
            #[trigger] a.pipeline.pool@[i],
        )
    &&& forall|p: usize|
        a.batch.pos <= p < a.sub.start ==> #[trigger] a.pipeline.holds(id, p)
}

proof fn lemma_enter<B>(
    reads: Seq<Read>,
    a: Progress<B>,
    e: Event<B>,
    b: Progress<B>,
    ent: Seq<(Request, Aligned<B>)>,
)
    requires
        a.pipeline.wf(),
        reads.len() <= usize::MAX,
        in_step(reads, a, ent),
        e is Enter,
        moves(reads, a, e, b),
    ensures
        in_step(reads, b, ent.push((e->q, e->buf))),
{
    let next = ent.push((e->q, e->buf));
    let x = a.pipeline;
    let y = b.pipeline;
    let id = a.batch.batch_id;
    let n = x.free@.len() - 1;
    let slot = x.free@[n] as int;
    assert(x.pool@[slot] is None);
    assert forall|k: int| 0 <= k < next.len() implies y.requests(
        reads[k],
        (#[trigger] next[k]).0,
    ) by {
        if k < ent.len() {
            assert(x.requests(reads[k], ent[k].0));
        }
    }
    assert forall|j: int| 0 <= j < y.ready@.len() implies done_in_step(
        reads,
        b,
        next,
        #[trigger] y.ready@[j],
    ) by {
        assert(x.ready@[j] == y.ready@[j]);
    }
    assert forall|i: int| 0 <= i < y.pool@.len() implies slot_in_step(
        reads,
        b,
        next,
        #[trigger] y.pool@[i],
    ) by {
        if i != slot {
            assert(x.pool@[i] == y.pool@[i]);
        }
    }
    assert forall|p: usize| b.batch.pos <= p < b.sub.start implies #[trigger] y.holds(id, p) by {
        if p == a.sub.start {
            assert(y.flies(slot, id, p));
        } else {
            assert(x.holds(id, p));
            if exists|i: int| x.flies(i, id, p) {
                let i = choose|i: int| x.flies(i, id, p);
                assert(y.flies(i, id, p));
            } else {
                let j = choose|j: int| x.waits(j, id, p);
                assert(y.waits(j, id, p));
            }
        }
    }
}

proof fn lemma_complete<B>(
    reads: Seq<Read>,
    a: Progress<B>,
    e: Event<B>,
    b: Progress<B>,
    ent: Seq<(Request, Aligned<B>)>,
)
    requires
        a.pipeline.wf(),
        in_step(reads, a, ent),
        e is Complete,
        moves(reads, a, e, b),
    ensures
        in_step(reads, b, ent),
{
    let x = a.pipeline;
    let y = b.pipeline;
    let id = a.batch.batch_id;
    let slot = (e->ud % 0x1_0000_0000) as int;
    let s0 = x.pool@[slot]->0;
    assert(x.pool@[slot] == Some(s0));
    assert forall|j: int| 0 <= j < y.ready@.len() implies done_in_step(
        reads,
        b,
        ent,
        #[trigger] y.ready@[j],
    ) by {
        if j < x.ready@.len() {
            assert(x.ready@[j] == y.ready@[j]);
        }
    }
    assert forall|i: int| 0 <= i < y.pool@.len() implies slot_in_step(
        reads,
        b,
        ent,
        #[trigger] y.pool@[i],
    ) by {
        if i != slot {
            assert(x.pool@[i] == y.pool@[i]);
        }
    }
    assert forall|p: usize| b.batch.pos <= p < b.sub.start implies #[trigger] y.holds(id, p) by {
        assert(x.holds(id, p));
        if exists|i: int| x.flies(i, id, p) {
            let i = choose|i: int| x.flies(i, id, p);
            if i == slot {
                assert(y.waits(x.ready@.len() as int, id, p));
            } else {
                assert(y.flies(i, id, p));
            }
        } else {
            let j = choose|j: int| x.waits(j, id, p);
            assert(y.ready@[j] == x.ready@[j]);
            assert(y.waits(j, id, p));
        }
    }
}

proof fn lemma_yield<B>(
    reads: Seq<Read>,
    a: Progress<B>,
    e: Event<B>,
    b: Progress<B>,
    ent: Seq<(Request, Aligned<B>)>,
)
    requires
        a.pipeline.wf(),
        reads.len() <= usize::MAX,
        in_step(reads, a, ent),
        e is Yield,
        moves(reads, a, e, b),
    ensures
        in_step(reads, b, ent),
        a.batch.pos < ent.len(),
        e->slab == slab_of(reads[a.batch.pos as int], ent[a.batch.pos as int]),
{
    let x = a.pipeline;
    let y = b.pipeline;
    let id = a.batch.batch_id;
    let pos = a.batch.pos;
    let k = choose|k: int| #[trigger]
        x.waits(k, id, pos) && e->slab == x.ready@[k].slab && y == (Pipeline {
            ready: y.ready,
            ..x
        }) && y.ready@ == x.ready@.remove(k);
    assert(x.ready@[k].batch_pos == pos);
    assert forall|j: int| 0 <= j < y.ready@.len() implies done_in_step(
        reads,
        b,
        ent,
        #[trigger] y.ready@[j],
    ) by {
        let j2 = if j < k {
            j
        } else {
            j + 1
        };
        let d = x.ready@[j2];
        assert(d == y.ready@[j]);
        assert(x.waits(j2, d.batch_id, d.batch_pos));
    }
    assert forall|i: int| 0 <= i < y.pool@.len() implies slot_in_step(
        reads,
        b,
        ent,
        #[trigger] y.pool@[i],
    ) by {
        assert(x.pool@[i] == y.pool@[i]);
        if let Some(s) = x.pool@[i] {
            if s.wanted {
                assert(x.flies(i, s.batch_id, s.batch_pos));
            }
        }
    }
    assert forall|p: usize| b.batch.pos <= p < b.sub.start implies #[trigger] y.holds(id, p) by {
        assert(x.holds(id, p));
        if exists|i: int| x.flies(i, id, p) {
            let i = choose|i: int| x.flies(i, id, p);
            assert(y.flies(i, id, p));
        } else {
            let j = choose|j: int| x.waits(j, id, p);
            let j2 = if j < k {
                j
            } else {
                j - 1
            };
            assert(y.ready@[j2] == x.ready@[j]);
            assert(y.waits(j2, id, p));
        }
    }
}

proof fn lemma_run<B>(
    reads: Seq<Read>,
    states: Seq<Progress<B>>,
    events: Seq<Event<B>>,
    n: int,
)
    requires
        reads.len() <= usize::MAX,
        runs(reads, states, events),
        0 <= n <= events.len(),
    ensures
        in_step(reads, states[n], entries(events.take(n))),
        states[n].pipeline.bases == states[0].pipeline.bases,
        states[n].pipeline.qd == states[0].pipeline.qd,
        yields(events.take(n)).len() == states[n].batch.pos,
        forall|k: int|
            0 <= k < states[n].batch.pos ==> #[trigger] yields(events.take(n))[k] == slab_of(
                reads[k],
                entries(events.take(n))[k],
            ),
    decreases n,
{
    if n == 0 {
        let a = states[0];
        assert forall|i: int| 0 <= i < a.pipeline.pool@.len() implies slot_in_step(
            reads,
            a,
            entries(events.take(0)),
            #[trigger] a.pipeline.pool@[i],
        ) by {
            if let Some(s) = a.pipeline.pool@[i] {
                if s.wanted {
                    assert(a.pipeline.flies(i, s.batch_id, s.batch_pos));
                    assert(a.pipeline.holds(s.batch_id, s.batch_pos));
                }
            }
        }
        assert(a.pipeline.ready@.len() == 0) by {
            if a.pipeline.ready@.len() > 0 {
                let d = a.pipeline.ready@[0];
                assert(a.pipeline.waits(0, d.batch_id, d.batch_pos));
                assert(a.pipeline.holds(d.batch_id, d.batch_pos));
            }
        }
    } else {
        let m = n - 1;
        lemma_run(reads, states, events, m);
        let a = states[m];
        let b = states[n];
        let e = events[m];
        let ent = entries(events.take(m));
        assert(events.take(n).drop_last() =~= events.take(m));
        assert(events.take(n).last() == e);
        assert(moves(reads, a, events[m], states[m + 1]));
        assert(a.pipeline.wf());
        match e {
            Event::Enter { q, buf } => {
                lemma_enter(reads, a, e, b, ent);
            },
            Event::Complete { ud, result, elapsed_ns } => {
                lemma_complete(reads, a, e, b, ent);
            },
            Event::Yield { slab } => {
                lemma_yield(reads, a, e, b, ent);
            },
        }
    }
}

/// Whatever the depth and the slots, and in whatever order reads complete, the slabs of a batch
/// come out in the order of its reads, each once, and each with all the bytes that its read asked
/// for, in the buffer that its request was read into. Once all are out, the batch is at its end.
pub proof fn law_in_order<B>(
    reads: Seq<Read>,
    states: Seq<Progress<B>>,
    events: Seq<Event<B>>,
)
    requires
        reads.len() <= usize::MAX,
        runs(reads, states, events),
    ensures
        yields(events).len() <= entries(events).len() <= reads.len(),
        forall|k: int|
            0 <= k < entries(events).len() ==> bracket::asks_for(
                states[0].pipeline.bases@,
                reads[k],
                (#[trigger] entries(events)[k]).0,
            ),
        forall|k: int|
            0 <= k < yields(events).len() ==> #[trigger] yields(events)[k] == slab_of(
                reads[k],
                entries(events)[k],
            ),
        states.last().batch.remaining == reads.len() - yields(events).len(),
{
    let n = events.len() as int;
    lemma_run(reads, states, events, n);
    assert(events.take(n) =~= events);
    let last = states[n];
    assert forall|k: int| 0 <= k < entries(events).len() implies bracket::asks_for(
        states[0].pipeline.bases@,
        reads[k],
        (#[trigger] entries(events)[k]).0,
    ) by {
        assert(last.pipeline.requests(reads[k], entries(events)[k].0));
    }
}

/// Where a buffer holds the bytes of the bracket of a request, the window of the slab holds the
/// bytes of the file that the read asked for.
pub proof fn law_payload<B>(
    bases: Seq<u64>,
    r: Read,
    e: (Request, Aligned<B>),
    file: Seq<u8>,
    mem: Seq<u8>,
)
    requires
        bracket::asks_for(bases, r, e.0),
        bases[e.0.file as int] <= r.offset,
        r.offset - bases[e.0.file as int] + r.len <= file.len(),
        e.0.bracket.disk_len <= mem.len(),
        e.0.cap <= usize::MAX,
        forall|i: int|
            0 <= i < e.0.bracket.disk_len && e.0.bracket.aligned_off + i < file.len()
                ==> #[trigger] mem[i] == file[e.0.bracket.aligned_off + i],
    ensures
        ({
            let w = slab_of(r, e);
            let at = r.offset - bases[e.0.file as int];
            mem.subrange(w.payload_off as int, w.payload_off + w.payload_len) == file.subrange(
                at,
                at + r.len,
            )
        }),
{
    let at = r.offset - bases[e.0.file as int];
    bracket::law_bracket_covers(at as nat, r.len as nat, bracket::ALIGN as nat);
    let w = slab_of(r, e);
    assert(mem.subrange(w.payload_off as int, w.payload_off + w.payload_len) =~= file.subrange(
        at,
        at + r.len,
    ));
}

/// A batch goes on to its end: while slabs are left, the next one is ready, or a read is in flight,
/// or the next read can go out.
pub proof fn law_goes_on<B>(
    reads: Seq<Read>,
    states: Seq<Progress<B>>,
    events: Seq<Event<B>>,
)
    requires
        reads.len() <= usize::MAX,
        runs(reads, states, events),
        states[0].pipeline.qd >= 1,
        states.last().batch.remaining > 0,
    ensures
        ({
            let a = states.last();
            ||| a.pipeline.is_ready(a.batch.batch_id, a.batch.pos)
            ||| pipeline::carried(a.pipeline.pool@) > 0
            ||| a.sub.start < reads.len() && a.pipeline.room()
        }),
{
    let n = events.len() as int;
    lemma_run(reads, states, events, n);
    let a = states[n];
    assert(a.pipeline.wf());
    if a.batch.pos < a.sub.start {
        assert(a.pipeline.holds(a.batch.batch_id, a.batch.pos));
        pipeline::law_held_not_missing(a.pipeline, a.batch.batch_id, a.batch.pos);
    } else if a.pipeline.ready@.len() > 0 {
        let d = a.pipeline.ready@[0];
        assert(a.batch.pos <= d.batch_pos < a.sub.start);
    }
}

} // verus!
