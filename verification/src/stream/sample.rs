//! Sampling a read plan, and its totals.
use vstd::prelude::*;

use super::bracket;
use super::bracket::{bracket, ALIGN};
use super::plan::Read;

verus! {

/// The next state of the generator.
pub open spec fn next_state(x: u64) -> u64 {
    let a = x ^ (x << 13);
    let b = a ^ (a >> 7);
    b ^ (b << 17)
}

/// The state after `n` steps.
pub open spec fn state_after(seed: u64, n: nat) -> u64
    decreases n,
{
    if n == 0 {
        seed
    } else {
        next_state(state_after(seed, (n - 1) as nat))
    }
}

/// Takes a step of the generator.
pub fn step(x: u64) -> (r: u64)
    ensures
        r == next_state(x),
{
    let a: u64 = x ^ (x << 13);
    let b: u64 = a ^ (a >> 7);
    b ^ (b << 17)
}

/// Picks `count` reads out of `all`; the same seed gives the same picks.
pub fn sample(all: &Vec<Read>, count: usize, seed: u64) -> (r: Vec<Read>)
    requires
        all@.len() > 0,
    ensures
        r@.len() == count,
        forall|i: int|
            0 <= i < count ==> #[trigger] r@[i] == all@[state_after(seed, (i + 1) as nat) as int
                % all@.len() as int],
{
    let n: usize = all.len();
    let mut x: u64 = seed;
    let mut out: Vec<Read> = Vec::new();
    let mut i: usize = 0;
    while i < count
        invariant
            i == out@.len() <= count,
            n == all@.len(),
            n > 0,
            x == state_after(seed, i as nat),
            forall|k: int|
                0 <= k < i ==> #[trigger] out@[k] == all@[state_after(seed, (k + 1) as nat) as int
                    % all@.len() as int],
        decreases count - i,
    {
        x = step(x);
        let p: usize = (x % n as u64) as usize;
        out.push(all[p]);
        i = i + 1;
    }
    out
}

/// The bytes that the first `n` reads ask for.
pub open spec fn payload(reads: Seq<Read>, n: int) -> nat
    decreases n,
{
    if n <= 0 {
        0
    } else {
        payload(reads, n - 1) + reads[n - 1].len as nat
    }
}

proof fn lemma_payload_grows(reads: Seq<Read>, i: int, n: int)
    requires
        i <= n,
    ensures
        payload(reads, i) <= payload(reads, n),
    decreases n - i,
{
    if i < n {
        lemma_payload_grows(reads, i, n - 1);
    }
}

/// The bytes that a plan asks for.
pub fn payload_total(reads: &Vec<Read>) -> (r: u64)
    requires
        payload(reads@, reads@.len() as int) <= u64::MAX,
    ensures
        r == payload(reads@, reads@.len() as int),
{
    let mut s: u64 = 0;
    let mut i: usize = 0;
    while i < reads.len()
        invariant
            i <= reads@.len(),
            payload(reads@, reads@.len() as int) <= u64::MAX,
            s == payload(reads@, i as int),
        decreases reads@.len() - i,
    {
        proof {
            lemma_payload_grows(reads@, i + 1, reads@.len() as int);
        }
        s = s + reads[i].len;
        i = i + 1;
    }
    s
}

/// The bytes that the first `n` reads take from disk, each in whole aligned blocks.
pub open spec fn disk(reads: Seq<Read>, n: int) -> nat
    decreases n,
{
    if n <= 0 {
        0
    } else {
        let r = reads[n - 1];
        disk(reads, n - 1) + bracket::bracket_of(r.offset as nat, r.len as nat, ALIGN as nat).2
    }
}

proof fn lemma_disk_grows(reads: Seq<Read>, i: int, n: int)
    requires
        i <= n,
    ensures
        disk(reads, i) <= disk(reads, n),
    decreases n - i,
{
    if i < n {
        lemma_disk_grows(reads, i, n - 1);
    }
}

/// The bytes that a plan takes from disk.
pub fn disk_total(reads: &Vec<Read>) -> (r: u64)
    requires
        disk(reads@, reads@.len() as int) <= u64::MAX,
    ensures
        r == disk(reads@, reads@.len() as int),
{
    let mut s: u64 = 0;
    let mut i: usize = 0;
    while i < reads.len()
        invariant
            i <= reads@.len(),
            disk(reads@, reads@.len() as int) <= u64::MAX,
            s == disk(reads@, i as int),
        decreases reads@.len() - i,
    {
        proof {
            lemma_disk_grows(reads@, i + 1, reads@.len() as int);
        }
        s = s + bracket(reads[i].offset, reads[i].len, ALIGN).disk_len;
        i = i + 1;
    }
    s
}

} // verus!
