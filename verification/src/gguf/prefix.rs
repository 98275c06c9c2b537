//! How the header of a file relates to the headers of what begins it: bytes behind the tensor table
//! change nothing, and what ends before is truncated.
use vstd::prelude::*;

use super::error::Fault;
use super::grammar;
use super::grammar::TensorView;
use super::value::Val;
use crate::bytes;

verus! {

/// What is read of a buffer of `n` bytes at `at`, and of its first `k` bytes. What the shorter one
/// gives the longer one gives too; what the longer one gives the shorter one gives where it reaches
/// as far, and else it is truncated.
spec fn agrees<T>(
    long: Result<(T, usize), Fault>,
    short: Result<(T, usize), Fault>,
    at: usize,
    k: int,
    n: int,
) -> bool {
    &&& short matches Ok((x, end)) ==> long == short && at <= end <= k
    &&& long matches Ok((x, end)) ==> at <= end <= n && if end <= k {
        short == long
    } else {
        short matches Err(f) && f is Truncated
    }
}

proof fn lemma_take(buf: Seq<u8>, k: int, at: usize, n: usize)
    requires
        at <= k <= buf.len() <= usize::MAX,
    ensures
        at + n <= k ==> grammar::take(buf.take(k), at, n) == grammar::take(buf, at, n)
            && grammar::take(buf, at, n) is Ok,
        at + n > k ==> (grammar::take(buf.take(k), at, n) matches Err(f) && f is Truncated),
        grammar::take(buf, at, n) is Ok <==> at + n <= buf.len(),
{
    if at + n <= k {
        assert(buf.take(k).subrange(at as int, at + n) =~= buf.subrange(at as int, at + n));
    }
}

proof fn lemma_number(buf: Seq<u8>, k: int, at: usize, n: usize)
    requires
        at <= k <= buf.len() <= usize::MAX,
    ensures
        agrees(grammar::number(buf, at, n), grammar::number(buf.take(k), at, n), at, k, buf.len() as int),
{
    lemma_take(buf, k, at, n);
}

proof fn lemma_string(buf: Seq<u8>, k: int, at: usize)
    requires
        at <= k <= buf.len() <= usize::MAX,
    ensures
        agrees(grammar::string(buf, at), grammar::string(buf.take(k), at), at, k, buf.len() as int),
{
    lemma_number(buf, k, at, 8);
    if let Ok((len, mid)) = grammar::number(buf, at, 8) {
        let m = len as u64 as usize;
        if mid <= k {
            lemma_take(buf, k, mid, m);
        } else {
            lemma_take(buf, buf.len() as int, mid, m);
        }
    }
}

proof fn lemma_scalar(buf: Seq<u8>, k: int, at: usize, ty: u32)
    requires
        at <= k <= buf.len() <= usize::MAX,
    ensures
        agrees(
            grammar::scalar(buf, at, ty),
            grammar::scalar(buf.take(k), at, ty),
            at,
            k,
            buf.len() as int,
        ),
{
    if ty == 8 {
        lemma_string(buf, k, at);
    } else if grammar::scalar_width(ty) != 0 {
        lemma_number(buf, k, at, grammar::scalar_width(ty));
    }
}

proof fn lemma_value(buf: Seq<u8>, k: int, at: usize, ty: u32, depth: nat)
    requires
        at <= k <= buf.len() <= usize::MAX,
    ensures
        agrees(
            grammar::value(buf, at, ty, depth),
            grammar::value(buf.take(k), at, ty, depth),
            at,
            k,
            buf.len() as int,
        ),
    decreases grammar::depth_left(depth), 0nat,
{
    let n = buf.len() as int;
    if ty != 9 {
        lemma_scalar(buf, k, at, ty);
    } else if depth <= 2 {
        lemma_number(buf, k, at, 4);
        if let Ok((elem_ty, mid)) = grammar::number(buf, at, 4) {
            let j = if mid <= k {
                k
            } else {
                n
            };
            assert(buf.take(n) =~= buf);
            lemma_number(buf, j, mid, 8);
            if let Ok((count, last)) = grammar::number(buf, mid, 8) {
                let i = if last <= k {
                    k
                } else {
                    n
                };
                lemma_elements(buf, i, last, elem_ty as u32, depth + 1, count, Seq::empty());
            }
        }
    }
}

proof fn lemma_elements(
    buf: Seq<u8>,
    k: int,
    at: usize,
    ty: u32,
    depth: nat,
    count: nat,
    acc: Seq<Val>,
)
    requires
        at <= k <= buf.len() <= usize::MAX,
    ensures
        agrees(
            grammar::elements(buf, at, ty, depth, count, acc),
            grammar::elements(buf.take(k), at, ty, depth, count, acc),
            at,
            k,
            buf.len() as int,
        ),
    decreases grammar::depth_left(depth) + 1, count,
{
    let n = buf.len() as int;
    if count > 0 {
        lemma_value(buf, k, at, ty, depth);
        if let Ok((v, mid)) = grammar::value(buf, at, ty, depth) {
            let j = if mid <= k {
                k
            } else {
                n
            };
            assert(buf.take(n) =~= buf);
            lemma_elements(buf, j, mid, ty, depth, (count - 1) as nat, acc.push(v));
        }
    }
}

proof fn lemma_entries(buf: Seq<u8>, k: int, at: usize, count: nat, acc: Map<Seq<char>, Val>)
    requires
        at <= k <= buf.len() <= usize::MAX,
    ensures
        agrees(
            grammar::entries(buf, at, count, acc),
            grammar::entries(buf.take(k), at, count, acc),
            at,
            k,
            buf.len() as int,
        ),
    decreases count,
{
    let n = buf.len() as int;
    if count > 0 {
        assert(buf.take(n) =~= buf);
        lemma_string(buf, k, at);
        if let Ok((key, a)) = grammar::string(buf, at) {
            let j = if a <= k {
                k
            } else {
                n
            };
            lemma_number(buf, j, a, 4);
            if let Ok((ty, b)) = grammar::number(buf, a, 4) {
                let i = if b <= k {
                    k
                } else {
                    n
                };
                lemma_value(buf, i, b, ty as u32, 0);
                if let Ok((v, c)) = grammar::value(buf, b, ty as u32, 0) {
                    let h = if c <= k {
                        k
                    } else {
                        n
                    };
                    lemma_entries(buf, h, c, (count - 1) as nat, acc.insert(key, v));
                }
            }
        }
    }
}

proof fn lemma_extents(buf: Seq<u8>, k: int, at: usize, count: nat, acc: Seq<u64>)
    requires
        at <= k <= buf.len() <= usize::MAX,
    ensures
        agrees(
            grammar::extents(buf, at, count, acc),
            grammar::extents(buf.take(k), at, count, acc),
            at,
            k,
            buf.len() as int,
        ),
    decreases count,
{
    let n = buf.len() as int;
    if count > 0 {
        lemma_number(buf, k, at, 8);
        if let Ok((d, mid)) = grammar::number(buf, at, 8) {
            let j = if mid <= k {
                k
            } else {
                n
            };
            assert(buf.take(n) =~= buf);
            lemma_extents(buf, j, mid, (count - 1) as nat, acc.push(d as u64));
        }
    }
}

proof fn lemma_tensor(buf: Seq<u8>, k: int, at: usize)
    requires
        at <= k <= buf.len() <= usize::MAX,
    ensures
        agrees(grammar::tensor(buf, at), grammar::tensor(buf.take(k), at), at, k, buf.len() as int),
{
    let n = buf.len() as int;
    assert(buf.take(n) =~= buf);
    lemma_string(buf, k, at);
    if let Ok((name, a)) = grammar::string(buf, at) {
        let j = if a <= k {
            k
        } else {
            n
        };
        lemma_number(buf, j, a, 4);
        if let Ok((n_dims, b)) = grammar::number(buf, a, 4) {
            let i = if b <= k {
                k
            } else {
                n
            };
            lemma_extents(buf, i, b, n_dims, Seq::empty());
            if let Ok((dims, c)) = grammar::extents(buf, b, n_dims, Seq::empty()) {
                let h = if c <= k {
                    k
                } else {
                    n
                };
                lemma_number(buf, h, c, 4);
                if let Ok((id, d)) = grammar::number(buf, c, 4) {
                    let g = if d <= k {
                        k
                    } else {
                        n
                    };
                    lemma_number(buf, g, d, 8);
                }
            }
        }
    }
}

proof fn lemma_tensors(buf: Seq<u8>, k: int, at: usize, count: nat, acc: Seq<TensorView>)
    requires
        at <= k <= buf.len() <= usize::MAX,
    ensures
        agrees(
            grammar::tensors(buf, at, count, acc),
            grammar::tensors(buf.take(k), at, count, acc),
            at,
            k,
            buf.len() as int,
        ),
    decreases count,
{
    let n = buf.len() as int;
    if count > 0 {
        lemma_tensor(buf, k, at);
        if let Ok((t, mid)) = grammar::tensor(buf, at) {
            let j = if mid <= k {
                k
            } else {
                n
            };
            assert(buf.take(n) =~= buf);
            lemma_tensors(buf, j, mid, (count - 1) as nat, acc.push(t));
        }
    }
}

/// The end of the tensor table of a good header: behind magic, version and the two counts stand
/// the metadata, and behind them the table.
pub open spec fn table_end(buf: Seq<u8>) -> nat {
    let n_tensors = bytes::le_nat(buf.subrange(8, 16));
    let n_kv = bytes::le_nat(buf.subrange(16, 24));
    match grammar::entries(buf, 24, n_kv, Map::empty()) {
        Ok((metadata, at)) => match grammar::tensors(buf, at, n_tensors, Seq::empty()) {
            Ok((tensors, end)) => end as nat,
            Err(_) => 0,
        },
        Err(_) => 0,
    }
}

proof fn lemma_header(buf: Seq<u8>, k: int)
    requires
        0 <= k <= buf.len() <= usize::MAX,
    ensures
        grammar::header(buf.take(k)) matches Ok(h) ==> grammar::header(buf) == Ok::<_, Fault>(h),
        grammar::header(buf) matches Ok(h) ==> {
            &&& 24 <= table_end(buf) <= buf.len()
            &&& h.data_offset == grammar::round_up(table_end(buf), h.alignment as nat)
            &&& if table_end(buf) <= k {
                grammar::header(buf.take(k)) == grammar::header(buf)
            } else {
                grammar::header(buf.take(k)) matches Err(f) && f is Truncated
            }
        },
{
    let n = buf.len() as int;
    assert(buf.take(n) =~= buf);
    lemma_number(buf, k, 0, 4);
    if let Ok((magic, a)) = grammar::number(buf, 0, 4) {
        let j = if a <= k {
            k
        } else {
            n
        };
        lemma_number(buf, j, a, 4);
        if let Ok((version, b)) = grammar::number(buf, a, 4) {
            let i = if b <= k {
                k
            } else {
                n
            };
            lemma_number(buf, i, b, 8);
            if let Ok((n_tensors, c)) = grammar::number(buf, b, 8) {
                let h = if c <= k {
                    k
                } else {
                    n
                };
                lemma_number(buf, h, c, 8);
                if let Ok((n_kv, d)) = grammar::number(buf, c, 8) {
                    let g = if d <= k {
                        k
                    } else {
                        n
                    };
                    lemma_entries(buf, g, d, n_kv, Map::empty());
                    if let Ok((metadata, e)) = grammar::entries(buf, d, n_kv, Map::empty()) {
                        let f = if e <= k {
                            k
                        } else {
                            n
                        };
                        lemma_tensors(buf, f, e, n_tensors, Seq::empty());
                    }
                }
            }
        }
    }
}

/// Bytes behind a good header change nothing: a header is read the same with whatever follows it.
pub proof fn law_tail(head: Seq<u8>, tail: Seq<u8>)
    requires
        grammar::header(head) is Ok,
        head.len() + tail.len() <= usize::MAX,
    ensures
        grammar::header(head + tail) == grammar::header(head),
{
    assert((head + tail).take(head.len() as int) =~= head);
    lemma_header(head + tail, head.len() as int);
}

/// The data of a file begins behind the tensor table of its header, at the next multiple of the
/// alignment.
pub proof fn law_data_offset(head: Seq<u8>)
    requires
        grammar::header(head) is Ok,
        head.len() <= usize::MAX,
    ensures
        grammar::header(head) matches Ok(h) ==> h.data_offset == grammar::round_up(
            table_end(head),
            h.alignment as nat,
        ),
        24 <= table_end(head) <= head.len(),
{
    lemma_header(head, 0);
}

/// What ends before the end of the tensor table of a good header fails as truncated, and as nothing
/// else.
pub proof fn law_truncated(head: Seq<u8>, k: int)
    requires
        grammar::header(head) is Ok,
        head.len() <= usize::MAX,
        0 <= k < table_end(head),
    ensures
        grammar::header(head.take(k)) matches Err(f) && f is Truncated,
{
    lemma_header(head, 0);
    lemma_header(head, k);
}

} // verus!
