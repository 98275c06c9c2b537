//! Reads, read plans, brackets and the read pipeline over a disk in memory.

use pulsar::gguf::Gguf;
use pulsar::stream::bracket::{bracket, request, route, shard_bases, Bracket, ALIGN};
use pulsar::stream::buffer::{Aligned, BufAlloc, Slab};
use pulsar::stream::experts::{expert_reads, slabs_counted};
use pulsar::stream::fetch::{check_plan_args, Fetch, InFlight, PlanRun};
use pulsar::stream::pipeline::{
    Pipeline, PipelineBatch, PipelineConfig, PipelineStats, Poll, Step, Submission,
};
use pulsar::stream::plan::{plan_from_str, plan_to_string, Read};
use pulsar::stream::sample::{disk_total, payload_total, sample, step};

/// A pipeline over files in memory. Completions wait in a queue and come back last in first out,
/// one at a time.
struct Driver {
    files: Vec<Vec<u8>>,
    pl: Pipeline<Vec<u8>>,
    queue: Vec<(u64, i32)>,
}

/// A batch and its reads.
struct Batch {
    reads: Vec<Read>,
    sub: Submission,
    handle: PipelineBatch,
}

impl Driver {
    fn open(files: Vec<Vec<u8>>, qd: usize, max_slots: usize) -> Self {
        let lens: Vec<u64> = files.iter().map(|f| f.len() as u64).collect();
        let (bases, _) = shard_bases(&lens);
        let pl = Pipeline::open_split(bases, PipelineConfig { qd, max_slots });
        Driver { files, pl, queue: Vec::new() }
    }

    fn drain(&mut self) -> Result<(), i32> {
        let (ud, res) = self.queue.pop().expect("a read in flight");
        assert!(self.pl.is_expected(ud));
        self.pl.drain_one(ud, res, 7)
    }

    /// Lets reads go out as far as there is room.
    fn pump(&mut self, b: &mut Batch) {
        while let Step::Submit(q) = self.pl.submit_batch_reads(&b.reads, &b.sub) {
            let file = &self.files[q.file];
            let mut mem = vec![0u8; q.cap as usize];
            let from = (q.bracket.aligned_off as usize).min(file.len());
            let to = (from + q.bracket.disk_len as usize).min(file.len());
            mem[..to - from].copy_from_slice(&file[from..to]);
            let buf = Aligned::new(q.cap as usize, move |_| Some(mem));
            let start = b.sub.start;
            let ud = self.pl.alloc_slot(&mut b.sub, b.reads[start], q, buf).expect("a slot");
            self.queue.push((ud, (to - from) as i32));
            assert!(self.pl.inflight() <= self.pl.qd);
            assert!(self.pl.inflight() + self.pl.ready.len() <= self.pl.pool.len());
        }
    }

    fn submit(&mut self, reads: &[Read]) -> Batch {
        let (sub, handle) = self.pl.submit(reads.len());
        self.pl.counters.t_submit_ns += 5;
        let mut b = Batch { reads: reads.to_vec(), sub, handle };
        self.pump(&mut b);
        b
    }

    fn collect(&mut self, mut b: Batch) -> Result<Vec<Slab<Vec<u8>>>, i32> {
        let mut out = Vec::new();
        loop {
            self.pump(&mut b);
            match self.pl.poll_next(&mut b.handle) {
                Poll::End => return Ok(out),
                Poll::Ready(s) => {
                    self.pl.counters.t_yield_ns += 3;
                    out.push(s);
                }
                Poll::Wait => self.drain()?,
                Poll::Missing => return Err(-1),
            }
        }
    }
}

fn payload(s: &Slab<Vec<u8>>) -> &[u8] {
    &s.buf.ptr()[s.payload_off..s.payload_off + s.payload_len]
}

fn temp_file(size: usize) -> Vec<Vec<u8>> {
    vec![vec![0xABu8; size.next_multiple_of(4096)]]
}

#[test]
fn test_pipeline_single_read() {
    let mut d = Driver::open(temp_file(8192), 4, 8);
    let reads = vec![Read { offset: 0, len: 4096 }];
    let batch = d.submit(&reads);
    let results = d.collect(batch).unwrap();
    assert_eq!(results.len(), 1);
    assert_eq!(payload(&results[0]).len(), 4096);
    assert_eq!(payload(&results[0])[0], 0xAB);
    assert_eq!(d.pl.stats().reads, 1);
    assert!(d.pl.stats().bytes_payload >= 4096);
}

#[test]
fn test_pipeline_multiple_reads_ordered() {
    let mut d = Driver::open(temp_file(65536), 4, 8);
    let reads = vec![
        Read { offset: 0, len: 4096 },
        Read { offset: 4096, len: 4096 },
        Read { offset: 8192, len: 4096 },
    ];
    let batch = d.submit(&reads);
    let results = d.collect(batch).unwrap();
    assert_eq!(results.len(), 3);
    for (i, slab) in results.iter().enumerate() {
        assert_eq!(payload(slab).len(), 4096);
        assert_eq!(payload(slab)[0], 0xAB, "slab {i} content mismatch");
    }
}

#[test]
fn test_pipeline_backpressure_pool_exhaustion() {
    let mut d = Driver::open(temp_file(1 << 20), 2, 2);
    let reads: Vec<Read> = (0..8)
        .map(|i| Read { offset: (i as u64) * 4096, len: 4096 })
        .collect();
    let batch = d.submit(&reads);
    assert_eq!((d.pl.inflight(), d.pl.ready.len()), (2, 0));
    d.drain().unwrap();
    assert!(matches!(d.pl.submit_batch_reads(&batch.reads, &batch.sub), Step::Wait));
    assert_eq!((d.pl.inflight(), d.pl.ready.len()), (1, 1));
    let results = d.collect(batch).unwrap();
    assert_eq!(results.len(), 8);
    for slab in &results {
        assert_eq!(payload(slab).len(), 4096);
    }
}

#[test]
fn test_pipeline_empty_batch() {
    let mut d = Driver::open(temp_file(4096), 4, 8);
    let batch = d.submit(&[]);
    let results = d.collect(batch).unwrap();
    assert!(results.is_empty());
}

#[test]
fn test_pipeline_multiple_batches() {
    let mut d = Driver::open(temp_file(65536), 4, 8);
    let reads_a = vec![Read { offset: 0, len: 4096 }];
    let reads_b = vec![Read { offset: 4096, len: 4096 }];

    let batch_a = d.submit(&reads_a);
    let res_a = d.collect(batch_a).unwrap();
    assert_eq!(res_a.len(), 1);
    assert_eq!(payload(&res_a[0])[0], 0xAB);

    let batch_b = d.submit(&reads_b);
    let res_b = d.collect(batch_b).unwrap();
    assert_eq!(res_b.len(), 1);
    assert_eq!(payload(&res_b[0])[0], 0xAB);
}

#[test]
fn test_pipeline_stats_counters() {
    let mut d = Driver::open(temp_file(65536), 4, 8);
    let reads = vec![
        Read { offset: 0, len: 4096 },
        Read { offset: 8192, len: 8192 },
    ];
    let batch = d.submit(&reads);
    let _ = d.collect(batch).unwrap();

    let s = d.pl.stats();
    assert_eq!(s.reads, 2);
    assert!(s.bytes_payload >= 4096 + 8192);
    assert!(s.bytes_disk >= s.bytes_payload);
    assert!(s.t_submit_ns > 0);
    assert!(s.t_complete_ns > 0);
    assert!(s.t_yield_ns > 0);
}

#[test]
fn test_pipeline_reset_stats() {
    let mut d = Driver::open(temp_file(65536), 4, 8);
    let reads = vec![Read { offset: 0, len: 4096 }];
    let batch = d.submit(&reads);
    let _ = d.collect(batch).unwrap();
    assert!(d.pl.stats().reads > 0);

    d.pl.reset_stats();
    assert_eq!(d.pl.stats().reads, 0);
    assert_eq!(d.pl.stats().bytes_payload, 0);
}

#[test]
fn test_pipeline_cancel_drop() {
    let mut d = Driver::open(temp_file(1 << 20), 4, 8);
    let reads: Vec<Read> = (0..16)
        .map(|i| Read { offset: (i as u64) * 4096, len: 4096 })
        .collect();

    let batch = d.submit(&reads);
    d.pl.discard(batch.handle);

    let reads2 = vec![Read { offset: 0, len: 4096 }];
    let batch2 = d.submit(&reads2);
    let results = d.collect(batch2).unwrap();
    assert_eq!(results.len(), 1);
}

#[test]
fn test_pipeline_large_reads() {
    let mut d = Driver::open(temp_file(2 << 20), 4, 8);
    let reads = vec![Read { offset: 0, len: 1 << 20 }];
    let batch = d.submit(&reads);
    let results = d.collect(batch).unwrap();
    assert_eq!(results.len(), 1);
    assert_eq!(payload(&results[0]).len(), 1 << 20);
}

#[test]
fn test_pipeline_invalid_offset() {
    let mut d = Driver::open(temp_file(4096), 4, 8);
    // A read beyond the file comes back short, without an error and with nothing in it.
    let reads = vec![Read { offset: 1 << 30, len: 4096 }];
    let batch = d.submit(&reads);
    let results = d.collect(batch).unwrap();
    assert_eq!(results.len(), 1);
    assert_eq!(payload(&results[0]).len(), 0);
    assert_eq!((d.pl.stats().reads, d.pl.stats().bytes_payload), (1, 0));
    // one across the end brings what there is
    let batch = d.submit(&[Read { offset: 4000, len: 200 }]);
    let results = d.collect(batch).unwrap();
    assert_eq!(payload(&results[0]), &[0xABu8; 96][..]);
    assert_eq!(d.pl.stats().bytes_payload, 96);
}

#[test]
fn slabs_come_in_submission_order_though_reads_complete_backwards() {
    let bytes: Vec<u8> = (0..40960u32).map(|i| (i / 64) as u8).collect();
    let mut d = Driver::open(vec![bytes[..16384].to_vec(), bytes[16384..].to_vec()], 4, 4);
    let reads = vec![
        Read { offset: 100, len: 10 },
        Read { offset: 16384 + 5000, len: 4000 },
        Read { offset: 8000, len: 500 },
        Read { offset: 16384, len: 1 },
        Read { offset: 40000, len: 900 },
        Read { offset: 4095, len: 2 },
    ];
    let batch = d.submit(&reads);
    assert!(d.pl.inflight() <= 4);
    let results = d.collect(batch).unwrap();
    assert_eq!(results.len(), reads.len());
    for (r, s) in reads.iter().zip(&results) {
        let from = r.offset as usize;
        assert_eq!(payload(s), &bytes[from..from + r.len as usize]);
        assert!(!s.buf.is_custom());
        assert_eq!(s.bytes(), s.buf.cap());
    }
    assert_eq!(d.pl.inflight(), 0);
    assert_eq!(d.pl.free_slots(), 4);
    assert_eq!(d.pl.stats().reads, 6);
    assert_eq!(d.pl.stats().bytes_payload, 10 + 4000 + 500 + 1 + 900 + 2);
    assert_eq!(d.pl.stats().bytes_disk, 4096 + 8192 + 8192 + 4096 + 4096 + 8192);
    assert_eq!(d.pl.stats().t_complete_ns, 6 * 7);
}

#[test]
fn a_batch_that_is_given_up_is_discarded() {
    let mut d = Driver::open(temp_file(1 << 20), 4, 8);
    let reads: Vec<Read> = (0..6).map(|i| Read { offset: i * 4096, len: 10 + i }).collect();
    let mut first = d.submit(&reads);
    d.drain().unwrap();
    d.drain().unwrap();
    d.pump(&mut first);
    d.drain().unwrap();
    let second = d.submit(&reads[..2]);
    assert!(!d.pl.ready.is_empty() && d.pl.inflight() > 0);
    d.pl.discard(first.handle);
    assert!(d.pl.ready.iter().all(|r| r.batch_id == second.handle.batch_id));
    let got = d.collect(second).unwrap();
    assert_eq!(got.iter().map(|s| s.payload_len).collect::<Vec<_>>(), vec![10, 11]);
    while d.pl.inflight() > 0 {
        d.drain().unwrap();
    }
    assert!(d.pl.ready.is_empty());
    assert_eq!(d.pl.free_slots(), 8);
    assert_eq!(d.pl.stats().reads, 8);
    // a batch that is exhausted has nothing to discard, whatever its number
    let third = d.submit(&reads[..1]);
    d.pl.discard(PipelineBatch { batch_id: third.handle.batch_id, remaining: 0, pos: 1 });
    assert_eq!(d.collect(third).unwrap().len(), 1);
}

#[test]
fn a_failed_read_is_reported_and_frees_its_slot() {
    let mut d = Driver::open(temp_file(8192), 1, 1);
    let mut batch = d.submit(&[Read { offset: 0, len: 8 }]);
    d.queue[0].1 = -5;
    assert!(matches!(d.pl.poll_next(&mut batch.handle), Poll::Wait));
    assert_eq!(d.drain(), Err(5));
    assert_eq!((d.pl.inflight(), d.pl.free_slots()), (0, 1));
    assert_eq!(d.pl.stats().reads, 0);
    assert!(matches!(d.collect(batch), Err(-1)));
    let again = d.submit(&[Read { offset: 0, len: 8 }]);
    assert_eq!(d.collect(again).unwrap().len(), 1);
}

#[test]
fn a_batch_whose_reads_are_gone_is_missing() {
    let mut d = Driver::open(temp_file(8192), 1, 1);
    let first = d.submit(&[Read { offset: 0, len: 8 }]);
    let mut again = PipelineBatch { batch_id: first.handle.batch_id, remaining: 1, pos: 0 };
    assert_eq!(d.collect(first).unwrap().len(), 1);
    assert!(matches!(d.pl.poll_next(&mut again), Poll::Missing));
}

#[test]
fn no_buffer_leaves_the_slot_free() {
    let mut d = Driver::open(temp_file(8192), 2, 2);
    let reads = [Read { offset: 0, len: 8 }];
    let (mut sub, _) = d.pl.submit(1);
    match d.pl.submit_batch_reads(&reads, &sub) {
        Step::Submit(q) => assert!(d.pl.alloc_slot(&mut sub, reads[0], q, None).is_none()),
        _ => panic!("a slot is free"),
    }
    assert_eq!((d.pl.free_slots(), d.pl.inflight()), (2, 0));
    assert_eq!(sub.start, 0);
}

#[test]
fn counters_begin_at_zero() {
    let s = PipelineStats::default();
    assert_eq!((s.reads, s.bytes_payload, s.bytes_disk), (0, 0, 0));
    assert_eq!((s.t_submit_ns, s.t_complete_ns, s.t_yield_ns), (0, 0, 0));
}

#[test]
fn an_injected_allocator_is_asked_first() {
    let own = |n: usize| Some(vec![1u8; n]);
    let pinned = BufAlloc { alloc: |n: usize| Some(vec![2u8; n]) };
    let b = Aligned::new_with(16, Some(pinned), own).unwrap();
    assert!(b.is_custom());
    assert_eq!(b.into_mem(), vec![2u8; 16]);
    let dry = BufAlloc { alloc: |_: usize| None };
    let b = Aligned::new_with(16, Some(dry), own).unwrap();
    assert!(!b.is_custom());
    assert_eq!((b.cap(), b.ptr()[0]), (16, 1));
    let none: Option<BufAlloc<fn(usize) -> Option<Vec<u8>>>> = None;
    assert!(Aligned::new_with(16, none, |_: usize| None::<Vec<u8>>).is_none());
}

#[test]
fn plan_roundtrip() {
    let reads = vec![
        Read { offset: 4096, len: 1536 },
        Read { offset: 1 << 33, len: 4718592 },
    ];
    assert_eq!(plan_from_str(&plan_to_string(&reads)).unwrap(), reads);
}

#[test]
fn plan_lines() {
    assert_eq!(plan_to_string(&[Read { offset: 0, len: 7 }, Read { offset: 12, len: 10 }]), "0 7\n12 10\n");
    let read = plan_from_str("\n  5\t6 trailing words\r\n\n18446744073709551615 0").unwrap();
    assert_eq!(read, vec![Read { offset: 5, len: 6 }, Read { offset: u64::MAX, len: 0 }]);
    assert_eq!(plan_from_str("1 2\n3 x\n"), Err("bad plan line: 3 x".to_string()));
    assert_eq!(plan_from_str("18446744073709551616 1"), Err("bad plan line: 18446744073709551616 1".to_string()));
    assert_eq!(plan_from_str("7"), Err("bad plan line: 7".to_string()));
    assert_eq!(plan_from_str(""), Ok(vec![]));
}

#[test]
fn brackets_cover_their_reads() {
    assert_eq!(bracket(100, 10, ALIGN), Bracket { aligned_off: 0, payload_off: 100, disk_len: 4096 });
    assert_eq!(bracket(4095, 2, ALIGN), Bracket { aligned_off: 0, payload_off: 4095, disk_len: 8192 });
    assert_eq!(bracket(8192, 4096, ALIGN), Bracket { aligned_off: 8192, payload_off: 0, disk_len: 4096 });
}

#[test]
fn offsets_route_to_the_last_shard_that_begins_before() {
    let (bases, len) = shard_bases(&[10, 20, 5]);
    assert_eq!((bases.as_slice(), len), (&[0u64, 10, 30][..], 35));
    assert_eq!(route(&bases, 0), (0, 0));
    assert_eq!(route(&bases, 9), (0, 9));
    assert_eq!(route(&bases, 10), (1, 0));
    assert_eq!(route(&bases, 29), (1, 19));
    assert_eq!(route(&bases, 1000), (2, 970));
}

#[test]
fn a_fetch_delivers_every_read_once() {
    let mut f: Fetch<u32> = Fetch::new(3, 2);
    let slab = |i: u32| Slab {
        buf: Aligned::new(4096, move |_| Some(i)).unwrap(),
        payload_off: 0,
        payload_len: 8,
    };
    assert!(f.can_submit());
    assert_eq!(f.submit(slab(10)), 0);
    assert_eq!(f.submit(slab(11)), 1);
    assert!(!f.can_submit());
    assert!(matches!(f.complete(1, -4), Err(4)));
    let (i, s) = f.complete(1, 4096).ok().unwrap();
    assert_eq!((i, *s.buf.ptr()), (1, 11));
    assert!(!f.is_done());
    assert_eq!(f.submit(slab(12)), 2);
    assert_eq!(f.complete(2, 1).ok().unwrap().0, 2);
    assert_eq!(f.complete(0, 1).ok().unwrap().0, 0);
    assert!(f.is_done() && !f.can_submit());
}

#[test]
fn a_plan_run_counts_what_it_reads() {
    assert!(check_plan_args(4, 4096).is_ok());
    let text = "qd must be nonzero and align must be a power of two";
    assert_eq!(check_plan_args(0, 4096), Err(text));
    assert_eq!(check_plan_args(4, 4095), Err(text));
    assert_eq!(check_plan_args(4, 0), Err(text));
    let mut run: PlanRun<u8> = PlanRun::new(2);
    let read = |n: usize| InFlight {
        buf: Aligned::new(4352, |_| Some(0u8)).unwrap(),
        payload_off: 3,
        payload_len: n,
    };
    assert_eq!(run.submit(read(100), 4096), 0);
    assert_eq!(run.submit(read(200), 8192), 1);
    assert_eq!(run.complete(0, 4096, 0x0f).ok().unwrap().payload_len, 100);
    assert_eq!(run.submit(read(300), 4096), 0);
    assert!(matches!(run.complete(1, -9, 0xff), Err(9)));
    assert_eq!(run.complete(1, 8192, 0xf1).ok().unwrap().payload_len, 200);
    assert_eq!((run.next, run.inflight), (3, 1));
    assert_eq!((run.stats.reads, run.stats.bytes_payload, run.stats.bytes_disk), (2, 300, 16384));
    assert_eq!(run.stats.checksum, 0xfe);
}

#[test]
fn sampling_is_repeatable() {
    // xorshift with shifts 13, 7, 17
    assert_eq!(step(1), 0x4082_2041);
    let all: Vec<Read> = (0..5).map(|i| Read { offset: i * 100, len: i + 1 }).collect();
    let picks = sample(&all, 3, 1);
    let a = step(1);
    let b = step(a);
    let c = step(b);
    assert_eq!(picks, vec![all[(a % 5) as usize], all[(b % 5) as usize], all[(c % 5) as usize]]);
    assert_eq!(payload_total(&all), 15);
    assert_eq!(disk_total(&vec![Read { offset: 4090, len: 10 }, Read { offset: 0, len: 1 }]), 8192 + 4096);
}

fn put_str(out: &mut Vec<u8>, s: &str) {
    out.extend_from_slice(&(s.len() as u64).to_le_bytes());
    out.extend_from_slice(s.as_bytes());
}

/// A header with the given expert count and one tensor.
fn header(experts: Option<u64>, name: &str, dims: &[u64], ty: u32, offset: u64) -> Gguf {
    let mut h = Vec::new();
    h.extend_from_slice(&0x4655_4747u32.to_le_bytes());
    h.extend_from_slice(&3u32.to_le_bytes());
    h.extend_from_slice(&1u64.to_le_bytes());
    h.extend_from_slice(&(1 + experts.is_some() as u64).to_le_bytes());
    put_str(&mut h, "general.architecture");
    h.extend_from_slice(&8u32.to_le_bytes());
    put_str(&mut h, "hy");
    if let Some(n) = experts {
        put_str(&mut h, "hy.expert_count");
        h.extend_from_slice(&10u32.to_le_bytes());
        h.extend_from_slice(&n.to_le_bytes());
    }
    put_str(&mut h, name);
    h.extend_from_slice(&(dims.len() as u32).to_le_bytes());
    for d in dims {
        h.extend_from_slice(&d.to_le_bytes());
    }
    h.extend_from_slice(&ty.to_le_bytes());
    h.extend_from_slice(&offset.to_le_bytes());
    Gguf::parse(&h).unwrap()
}

#[test]
fn one_read_per_expert() {
    let g = header(Some(3), "blk.0.ffn_up_exps.weight", &[32, 2, 3], 8, 64);
    let at = g.data_offset + 64;
    let reads = expert_reads(&g, at + 3 * 68).unwrap();
    assert_eq!(
        reads,
        vec![
            Read { offset: at, len: 68 },
            Read { offset: at + 68, len: 68 },
            Read { offset: at + 136, len: 68 },
        ]
    );
    assert_eq!(
        expert_reads(&g, at + 3 * 68 - 1),
        Err("blk.0.ffn_up_exps.weight: expert 2 beyond eof".to_string())
    );
    let g = header(Some(3), "blk.0.attn.weight", &[32, 2, 3], 8, 64);
    assert_eq!(expert_reads(&g, 0), Err("no *_exps.weight tensors found".to_string()));
    let g = header(None, "blk.0.ffn_up_exps.weight", &[32, 2, 3], 8, 64);
    assert_eq!(expert_reads(&g, 0), Err("missing expert_count".to_string()));
    let g = header(Some(4), "a_exps.weight", &[32, 2, 3], 8, 0);
    assert_eq!(expert_reads(&g, 0), Err("a_exps.weight: unexpected exps dims [32, 2, 3]".to_string()));
    let g = header(Some(3), "a_exps.weight", &[32, 2, 3], 77, 0);
    assert_eq!(expert_reads(&g, 0), Err("a_exps.weight: unmodeled type Other(77)".to_string()));
}

#[test]
fn slabs_beyond_their_counters_are_told() {
    let g = header(Some(3), "blk.0.ffn_up_exps.weight", &[32, 2, 3], 8, 64);
    assert!(slabs_counted(&g.tensors));
    assert!(g.fits_at(0));
    assert!(!g.fits_at(u64::MAX - 64));
    assert!(g.fits_at(u64::MAX - 64 - g.data_offset));
    let g = header(Some(3), "blk.0.ffn_up_exps.weight", &[1 << 60, 2, 3], 8, 64);
    assert!(slabs_counted(&g.tensors));
    let g = header(Some(3), "blk.0.ffn_up_exps.weight", &[1 << 60, 16, 3], 8, 64);
    assert!(!slabs_counted(&g.tensors));
    let g = header(Some(3), "blk.0.ffn_up_exps.weight", &[u64::MAX, 1, 3], 8, 64);
    assert!(!slabs_counted(&g.tensors));
}

#[test]
fn a_request_names_file_and_bracket() {
    let bases = [0u64, 10_000, 50_000];
    let q = request(&bases, Read { offset: 14_500, len: 5000 });
    assert_eq!(q.file, 1);
    assert_eq!((q.bracket.aligned_off, q.bracket.payload_off, q.bracket.disk_len), (4096, 404, 8192));
    assert_eq!(q.cap, 8192 + 256);
    assert_eq!(request(&bases, Read { offset: 9_999, len: 1 }).file, 0);
    assert_eq!(request(&bases, Read { offset: 50_000, len: 1 }).bracket.payload_off, 0);
}
