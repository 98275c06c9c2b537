//! Unordered fetch of a list of reads, and the benchmark run of a read plan.
use vstd::prelude::*;

use super::buffer::{Aligned, Slab};
use crate::gguf::grammar;

verus! {

/// Number of occupied places.
pub open spec fn occupied<T>(s: Seq<Option<T>>) -> nat
    decreases s.len(),
{
    if s.len() == 0 {
        0
    } else {
        occupied(s.drop_last()) + if s.last() is Some { 1nat } else { 0nat }
    }
}

/// Filling an empty place adds one, emptying a full one takes one away.
proof fn lemma_occupied_update<T>(s: Seq<Option<T>>, i: int, x: Option<T>)
    requires
        0 <= i < s.len(),
    ensures
        occupied(s.update(i, x)) + (if s[i] is Some { 1nat } else { 0nat }) == occupied(s) + (
        if x is Some { 1nat } else { 0nat }),
    decreases s.len(),
{
    let t = s.update(i, x);
    if i == s.len() - 1 {
        assert(t.drop_last() =~= s.drop_last());
    } else {
        assert(t.drop_last() =~= s.drop_last().update(i, x));
        lemma_occupied_update(s.drop_last(), i, x);
    }
}

/// Nothing is occupied exactly when every place is empty.
proof fn lemma_occupied_zero<T>(s: Seq<Option<T>>)
    ensures
        occupied(s) <= s.len(),
        occupied(s) == 0 <==> forall|i: int| 0 <= i < s.len() ==> #[trigger] s[i] is None,
    decreases s.len(),
{
    if s.len() > 0 {
        lemma_occupied_zero(s.drop_last());
        if occupied(s) == 0 {
            assert forall|i: int| 0 <= i < s.len() implies #[trigger] s[i] is None by {
                if i < s.len() - 1 {
                    assert(s.drop_last()[i] is None);
                }
            }
        } else if s.last() is Some {
            assert(s[s.len() - 1] is Some);
        } else {
            let i = choose|i: int| 0 <= i < s.len() - 1 && #[trigger] s.drop_last()[i] is Some;
            assert(s[i] is Some);
        }
    }
}

/// Progress of the fetch of `pending.len()` reads with at most `qd` in flight.
pub struct Fetch<B> {
    /// The slab of each read while it is in flight.
    pub pending: Vec<Option<Slab<B>>>,
    /// Reads submitted so far.
    pub next: usize,
    pub inflight: usize,
    pub qd: usize,
}

impl<B> Fetch<B> {
    pub open spec fn wf(self) -> bool {
        &&& 0 < self.qd
        &&& self.next <= self.pending@.len()
        &&& self.inflight == occupied(self.pending@)
        &&& self.inflight <= self.qd
        &&& forall|i: int|
            self.next <= i < self.pending@.len() ==> #[trigger] self.pending@[i] is None
    }

    /// Read `i` has been handed over.
    pub open spec fn delivered(self, i: int) -> bool {
        0 <= i < self.next && self.pending@[i] is None
    }

    pub fn new(n: usize, qd: usize) -> (r: Self)
        requires
            qd > 0,
        ensures
            r.wf(),
            r.pending@.len() == n,
            r.next == 0,
            r.qd == qd,
    {
        let mut pending: Vec<Option<Slab<B>>> = Vec::new();
        while pending.len() < n
            invariant
                pending@.len() <= n,
                forall|i: int| 0 <= i < pending@.len() ==> #[trigger] pending@[i] is None,
            decreases n - pending@.len(),
        {
            pending.push(None);
        }
        proof {
            lemma_occupied_zero(pending@);
        }
        Fetch { pending, next: 0, inflight: 0, qd }
    }

    /// Whether the next read goes out now.
    pub fn can_submit(&self) -> (r: bool)
        ensures
            r == (self.inflight < self.qd && self.next < self.pending@.len()),
    {
        self.inflight < self.qd && self.next < self.pending.len()
    }

    /// Enters the next read with its buffer and returns its tag, its index.
    pub fn submit(&mut self, slab: Slab<B>) -> (r: u64)
        requires
            old(self).wf(),
            old(self).inflight < old(self).qd,
            old(self).next < old(self).pending@.len(),
        ensures
            final(self).wf(),
            r == old(self).next,
            final(self).pending@ == old(self).pending@.update(old(self).next as int, Some(slab)),
            final(self).next == old(self).next + 1,
            final(self).inflight == old(self).inflight + 1,
            final(self).qd == old(self).qd,
            forall|i: int| #[trigger] final(self).delivered(i) == old(self).delivered(i),
    {
        let n: usize = self.pending.len();
        let i: usize = self.next;
        assert(i < n);
        proof {
            lemma_occupied_update(self.pending@, i as int, Some(slab));
        }
        self.pending.set(i, Some(slab));
        self.next = i + 1;
        self.inflight = self.inflight + 1;
        i as u64
    }

    /// Whether nothing is in flight once no read can go out: the fetch is over.
    pub fn is_done(&self) -> (r: bool)
        requires
            self.wf(),
        ensures
            r == (self.inflight == 0),
            r && !(self.inflight < self.qd && self.next < self.pending@.len()) ==> forall|i: int|
                0 <= i < self.pending@.len() ==> #[trigger] self.delivered(i),
    {
        proof {
            lemma_occupied_zero(self.pending@);
        }
        self.inflight == 0
    }

    /// Takes in a completion: the index of the read and its slab. A negative result is an error
    /// number, and changes nothing.
    pub fn complete(&mut self, ud: u64, result: i32) -> (r: Result<(usize, Slab<B>), i32>)
        requires
            old(self).wf(),
            ud < old(self).pending@.len(),
            old(self).pending@[ud as int] is Some,
            result > i32::MIN,
        ensures
            final(self).wf(),
            match r {
                Err(e) => result < 0 && e == -result && *final(self) == *old(self),
                Ok((i, slab)) => {
                    &&& result >= 0
                    &&& i == ud
                    &&& old(self).pending@[i as int] == Some(slab)
                    &&& final(self).pending@ == old(self).pending@.update(i as int, None)
                    &&& final(self).next == old(self).next
                    &&& final(self).inflight == old(self).inflight - 1
                    &&& final(self).qd == old(self).qd
                    &&& !old(self).delivered(i as int)
                    &&& forall|k: int| #[trigger]
                        final(self).delivered(k) == (old(self).delivered(k) || k == i)
                },
            },
    {
        if result < 0 {
            return Err(-result);
        }
        let n: usize = self.pending.len();
        assert(ud < n);
        let i: usize = ud as usize;
        proof {
            lemma_occupied_update(self.pending@, i as int, None);
            lemma_occupied_zero(self.pending@);
        }
        let mut taken: Option<Slab<B>> = None;
        std::mem::swap(&mut taken, &mut self.pending[i]);
        self.inflight = self.inflight - 1;
        match taken {
            Some(slab) => Ok((i, slab)),
            None => Err(0),
        }
    }
}

/// Counters of a plan run.
#[derive(Debug, Clone, Copy, PartialEq, Eq, Structural)]
pub struct PlanStats {
    pub bytes_payload: u64,
    pub bytes_disk: u64,
    pub reads: u64,
    pub checksum: u8,
}

/// A read of a plan run that is in flight.
pub struct InFlight<B> {
    pub buf: Aligned<B>,
    pub payload_off: usize,
    pub payload_len: usize,
}

/// Progress of a plan run with one slot per read in flight.
pub struct PlanRun<B> {
    pub slots: Vec<Option<InFlight<B>>>,
    pub next: usize,
    pub inflight: usize,
    pub stats: PlanStats,
}

/// The complaint about unusable run parameters.
pub open spec fn plan_args_text() -> Seq<char> {
    "qd must be nonzero and align must be a power of two"@
}

/// Whether a queue depth and an alignment are usable.
pub fn check_plan_args(qd: usize, align: u64) -> (r: Result<(), &'static str>)
    ensures
        r is Ok <==> qd != 0 && grammar::is_pow2(align as nat),
        r matches Err(e) ==> e@ == plan_args_text(),
{
    if qd == 0 || !crate::gguf::parse::power_of_two(align) {
        Err("qd must be nonzero and align must be a power of two")
    } else {
        Ok(())
    }
}

impl<B> PlanRun<B> {
    pub open spec fn wf(self) -> bool {
        self.inflight == occupied(self.slots@) && self.slots@.len() > 0
    }

    pub fn new(qd: usize) -> (r: Self)
        requires
            qd > 0,
        ensures
            r.wf(),
            r.slots@.len() == qd,
            r.next == 0,
            r.inflight == 0,
            r.stats == (PlanStats { bytes_payload: 0, bytes_disk: 0, reads: 0, checksum: 0 }),
    {
        let mut slots: Vec<Option<InFlight<B>>> = Vec::new();
        while slots.len() < qd
            invariant
                slots@.len() <= qd,
                forall|i: int| 0 <= i < slots@.len() ==> #[trigger] slots@[i] is None,
            decreases qd - slots@.len(),
        {
            slots.push(None);
        }
        proof {
            lemma_occupied_zero(slots@);
        }
        PlanRun {
            slots,
            next: 0,
            inflight: 0,
            stats: PlanStats { bytes_payload: 0, bytes_disk: 0, reads: 0, checksum: 0 },
        }
    }

    /// Enters the next read into the first empty slot and returns the slot.
    pub fn submit(&mut self, read: InFlight<B>, disk_len: u64) -> (r: u64)
        requires
            old(self).wf(),
            old(self).inflight < old(self).slots@.len(),
            old(self).next < usize::MAX,
            old(self).stats.bytes_disk + disk_len <= u64::MAX,
        ensures
            final(self).wf(),
            r < old(self).slots@.len(),
            old(self).slots@[r as int] is None,
            forall|i: int| 0 <= i < r ==> #[trigger] old(self).slots@[i] is Some,
            final(self).slots@ == old(self).slots@.update(r as int, Some(read)),
            final(self).next == old(self).next + 1,
            final(self).inflight == old(self).inflight + 1,
            final(self).stats == (PlanStats {
                bytes_disk: (old(self).stats.bytes_disk + disk_len) as u64,
                ..old(self).stats
            }),
    {
        let n: usize = self.slots.len();
        let mut k: usize = 0;
        proof {
            if forall|i: int| 0 <= i < self.slots@.len() ==> #[trigger] self.slots@[i] is Some {
                lemma_occupied_full(self.slots@);
            }
        }
        while self.slots[k].is_some()
            invariant
                *self == *old(self),
                k < self.slots@.len() == n,
                forall|i: int| 0 <= i < k ==> #[trigger] self.slots@[i] is Some,
                exists|i: int| 0 <= i < self.slots@.len() && #[trigger] self.slots@[i] is None,
            decreases self.slots@.len() - k,
        {
            k = k + 1;
        }
        proof {
            lemma_occupied_update(self.slots@, k as int, Some(read));
        }
        self.slots.set(k, Some(read));
        self.next = self.next + 1;
        self.inflight = self.inflight + 1;
        self.stats.bytes_disk = self.stats.bytes_disk + disk_len;
        k as u64
    }

    /// Takes in a completion; `sample` is the middle byte of its payload. A negative result is an
    /// error number, and changes nothing.
    pub fn complete(&mut self, ud: u64, result: i32, sample: u8) -> (r: Result<InFlight<B>, i32>)
        requires
            old(self).wf(),
            ud < old(self).slots@.len(),
            old(self).slots@[ud as int] is Some,
            result > i32::MIN,
            old(self).stats.reads < u64::MAX,
            old(self).stats.bytes_payload + old(self).slots@[ud as int]->0.payload_len <= u64::MAX,
        ensures
            final(self).wf(),
            match r {
                Err(e) => result < 0 && e == -result && *final(self) == *old(self),
                Ok(x) => {
                    &&& result >= 0
                    &&& old(self).slots@[ud as int] == Some(x)
                    &&& final(self).slots@ == old(self).slots@.update(ud as int, None)
                    &&& final(self).next == old(self).next
                    &&& final(self).inflight == old(self).inflight - 1
                    &&& final(self).stats == (PlanStats {
                        reads: (old(self).stats.reads + 1) as u64,
                        bytes_payload: (old(self).stats.bytes_payload + x.payload_len) as u64,
                        checksum: old(self).stats.checksum ^ sample,
                        ..old(self).stats
                    })
                },
            },
    {
        if result < 0 {
            return Err(-result);
        }
        let n: usize = self.slots.len();
        assert(ud < n);
        let i: usize = ud as usize;
        proof {
            lemma_occupied_update(self.slots@, i as int, None);
            lemma_occupied_zero(self.slots@);
        }
        let mut taken: Option<InFlight<B>> = None;
        std::mem::swap(&mut taken, &mut self.slots[i]);
        self.inflight = self.inflight - 1;
        match taken {
            Some(x) => {
                self.stats.reads = self.stats.reads + 1;
                self.stats.bytes_payload = self.stats.bytes_payload + x.payload_len as u64;
                self.stats.checksum = self.stats.checksum ^ sample;
                Ok(x)
            },
            None => Err(0),
        }
    }
}

proof fn lemma_occupied_full<T>(s: Seq<Option<T>>)
    requires
        forall|i: int| 0 <= i < s.len() ==> #[trigger] s[i] is Some,
    ensures
        occupied(s) == s.len(),
    decreases s.len(),
{
    if s.len() > 0 {
        assert forall|i: int| 0 <= i < s.drop_last().len() implies #[trigger] s.drop_last()[i] is Some by {
            assert(s[i] is Some);
        }
        lemma_occupied_full(s.drop_last());
        assert(s[s.len() - 1] is Some);
    }
}

} // verus!
