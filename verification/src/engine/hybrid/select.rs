//! Selection by score: the best experts of a router, and the compressed rows that a query sees.
use vstd::prelude::*;

use crate::fp;
use crate::fp::f32_gt;
use crate::text::owned;

verus! {

/// `x` comes before `y`: its score is greater, or equal and it stands first.
pub open spec fn outranks(score: Seq<u32>, x: int, y: int) -> bool {
    fp::rank(score[x]) > fp::rank(score[y]) || (fp::rank(score[x]) == fp::rank(score[y]) && x < y)
}

/// Where among the ranked `r`, from `j` on, the first is that score `i` is greater than.
pub open spec fn place(score: Seq<u32>, r: Seq<int>, i: int, j: int) -> int
    decreases r.len() - j,
{
    if j >= r.len() || fp::gt(score[i], score[r[j]]) {
        j
    } else {
        place(score, r, i, j + 1)
    }
}

/// The `k` best among the first `n` scores, best first. A score goes in front of the first that it
/// is greater than.
pub open spec fn ranked(score: Seq<u32>, n: int, k: nat) -> Seq<int>
    decreases n,
{
    if n <= 0 {
        Seq::empty()
    } else {
        let r = ranked(score, n - 1, k);
        let t = r.insert(place(score, r, n - 1, 0), n - 1);
        if t.len() > k {
            t.drop_last()
        } else {
            t
        }
    }
}

/// The `k` best, with -1 where there are fewer.
pub open spec fn padded(r: Seq<int>, k: nat) -> Seq<i32> {
    Seq::new(
        k,
        |j: int|
            if j < r.len() {
                r[j] as i32
            } else {
                -1i32
            },
    )
}

proof fn lemma_place(score: Seq<u32>, r: Seq<int>, i: int, j: int)
    requires
        0 <= j <= r.len(),
    ensures
        j <= place(score, r, i, j) <= r.len(),
        forall|m: int| j <= m < place(score, r, i, j) ==> !fp::gt(score[i], score[#[trigger] r[m]]),
        place(score, r, i, j) < r.len() ==> fp::gt(score[i], score[r[place(score, r, i, j)]]),
    decreases r.len() - j,
{
    if j < r.len() && !fp::gt(score[i], score[r[j]]) {
        lemma_place(score, r, i, j + 1);
    }
}

pub proof fn lemma_ranked(score: Seq<u32>, n: int, k: nat)
    requires
        0 <= n,
    ensures
        ranked(score, n, k).len() == (if n < k {
            n
        } else {
            k as int
        }),
        forall|j: int|
            0 <= j < ranked(score, n, k).len() ==> 0 <= #[trigger] ranked(score, n, k)[j] < n,
    decreases n,
{
    if n > 0 {
        lemma_ranked(score, n - 1, k);
        let r = ranked(score, n - 1, k);
        lemma_place(score, r, n - 1, 0);
        let p = place(score, r, n - 1, 0);
        let t = r.insert(p, n - 1);
        assert forall|j: int| 0 <= j < t.len() implies 0 <= #[trigger] t[j] < n by {
            if j < p {
                assert(t[j] == r[j]);
            } else if j > p {
                assert(t[j] == r[j - 1]);
            }
        }
    }
}

/// The best of scores that are numbers: as many as asked for or as there are, each once, in order,
/// and each before all that were left out.
pub proof fn law_topk(score: Seq<u32>, n: int, k: nat)
    requires
        0 <= n <= score.len(),
        forall|i: int| 0 <= i < n ==> !fp::is_nan(#[trigger] score[i]),
    ensures
        ranked(score, n, k).len() == (if n < k {
            n
        } else {
            k as int
        }),
        forall|a: int, b: int|
            0 <= a < b < ranked(score, n, k).len() ==> outranks(
                score,
                #[trigger] ranked(score, n, k)[a],
                #[trigger] ranked(score, n, k)[b],
            ),
        forall|a: int, c: int|
            0 <= a < ranked(score, n, k).len() && 0 <= c < n && !ranked(score, n, k).contains(c)
                ==> #[trigger] outranks(score, ranked(score, n, k)[a], c),
    decreases n,
{
    lemma_ranked(score, n, k);
    if n > 0 {
        law_topk(score, n - 1, k);
        lemma_ranked(score, n - 1, k);
        let r = ranked(score, n - 1, k);
        let i = n - 1;
        lemma_place(score, r, i, 0);
        let p = place(score, r, i, 0);
        let t = r.insert(p, i);
        let e = ranked(score, n, k);
        assert(forall|j: int| 0 <= j < p ==> #[trigger] t[j] == r[j]);
        assert(forall|j: int| p < j < t.len() ==> #[trigger] t[j] == r[j - 1]);
        assert forall|a: int, b: int| 0 <= a < b < t.len() implies outranks(
            score,
            #[trigger] t[a],
            #[trigger] t[b],
        ) by {
            if a < p {
                if b == p {
                    assert(!fp::gt(score[i], score[r[a]]));
                } else if b < p {
                    assert(outranks(score, r[a], r[b]));
                } else {
                    assert(outranks(score, r[a], r[b - 1]));
                }
            } else if a == p {
                assert(fp::gt(score[i], score[r[p]]));
                if b - 1 > p {
                    assert(outranks(score, r[p], r[b - 1]));
                }
            } else {
                assert(outranks(score, r[a - 1], r[b - 1]));
            }
        }
        assert forall|a: int, c: int|
            0 <= a < e.len() && 0 <= c < n && !e.contains(c) implies #[trigger] outranks(
            score,
            e[a],
            c,
        ) by {
            assert(e[a] == t[a]);
            if t.contains(c) {
                // c is the one that was dropped
                let m = choose|m: int| 0 <= m < t.len() && t[m] == c;
                if m < e.len() {
                    assert(e[m] == c);
                }
                assert(m == t.len() - 1);
                assert(outranks(score, t[a], t[m]));
            } else {
                assert(t[p] == i);
                assert(c != i);
                assert(!r.contains(c)) by {
                    if r.contains(c) {
                        let m = choose|m: int| 0 <= m < r.len() && r[m] == c;
                        if m < p {
                            assert(t[m] == c);
                        } else {
                            assert(t[m + 1] == c);
                        }
                    }
                }
                if a < p {
                    assert(outranks(score, r[a], c));
                } else if a > p {
                    assert(outranks(score, r[a - 1], c));
                } else if p < r.len() {
                    assert(outranks(score, r[p], c));
                } else {
                    // nothing was left out so far
                    assert(r.len() < k);
                    assert(r.len() == n - 1);
                    lemma_all(r, n - 1);
                }
            }
        }
    }
}

/// A list of `n` different numbers below `n` holds them all.
proof fn lemma_all(r: Seq<int>, n: int)
    requires
        r.len() == n,
        forall|j: int| 0 <= j < r.len() ==> 0 <= #[trigger] r[j] < n,
        forall|a: int, b: int| 0 <= a < b < r.len() ==> #[trigger] r[a] != #[trigger] r[b],
    ensures
        forall|c: int| 0 <= c < n ==> r.contains(c),
{
    let s = r.to_set();
    r.unique_seq_to_set();
    let full = vstd::set_lib::set_int_range(0, n);
    vstd::set_lib::lemma_int_range(0, n);
    assert(s.subset_of(full));
    vstd::set_lib::lemma_subset_equality(s, full);
    assert forall|c: int| 0 <= c < n implies r.contains(c) by {
        assert(full.contains(c));
        assert(s.contains(c));
    }
}

/// The `k` best scores, best first; -1 where there are fewer.
pub fn topk_desc(score: &[u32], k: usize) -> (r: Vec<i32>)
    requires
        score@.len() <= i32::MAX,
    ensures
        r@ == padded(ranked(score@, score@.len() as int, k as nat), k as nat),
{
    let n: usize = score.len();
    let mut best: Vec<i32> = Vec::new();
    let mut i: usize = 0;
    let ghost ints = |v: Seq<i32>| v.map_values(|x: i32| x as int);
    assert(ints(best@) =~= Seq::<int>::empty());
    while i < n
        invariant
            i <= n,
            n == score@.len() <= i32::MAX,
            best@.len() <= k,
            ints == |v: Seq<i32>| v.map_values(|x: i32| x as int),
            ints(best@) == ranked(score@, i as int, k as nat),
        decreases n - i,
    {
        let m: usize = best.len();
        let mut j: usize = 0;
        let ghost r = ranked(score@, i as int, k as nat);
        proof {
            lemma_ranked(score@, i as int, k as nat);
        }
        assert(r.len() == m);
        while j < m && !beats(score, i, best[j])
            invariant
                j <= m,
                m == best@.len(),
                i < n,
                n == score@.len(),
                r == ints(best@),
                ints == |v: Seq<i32>| v.map_values(|x: i32| x as int),
                r.len() == m,
                forall|q: int| 0 <= q < r.len() ==> 0 <= #[trigger] r[q] < i,
                place(score@, r, i as int, 0) == place(score@, r, i as int, j as int),
            decreases m - j,
        {
            assert(r[j as int] == best@[j as int] as int);
            j = j + 1;
        }
        proof {
            if j < m {
                assert(r[j as int] == best@[j as int] as int);
            }
        }
        assert(place(score@, r, i as int, 0) == j);
        let ghost before = best@;
        best.insert(j, i as i32);
        assert(ints(best@) =~= r.insert(j as int, i as int));
        if best.len() > k {
            let ghost full = best@;
            best.pop();
            assert(ints(best@) =~= ints(full).drop_last());
        }
        i = i + 1;
    }
    let ghost r = ranked(score@, n as int, k as nat);
    while best.len() < k
        invariant
            best@.len() <= k,
            r.len() <= best@.len(),
            forall|q: int| 0 <= q < r.len() ==> #[trigger] best@[q] == r[q],
            forall|q: int| r.len() <= q < best@.len() ==> #[trigger] best@[q] == -1,
        decreases k - best@.len(),
    {
        best.push(-1);
    }
    assert(best@ =~= padded(r, k as nat));
    best
}

/// Whether score `i` is greater than score `e`.
fn beats(score: &[u32], i: usize, e: i32) -> (r: bool)
    requires
        i < score@.len(),
        0 <= e < score@.len(),
    ensures
        r == fp::gt(score@[i as int], score@[e as int]),
{
    f32_gt(score[i], score[e as usize])
}

/// The experts of a token: its row of the table where there is one, else the best scores.
pub open spec fn selection(
    score: Seq<u32>,
    table: Option<Seq<i32>>,
    token: u32,
    k: nat,
) -> Seq<i32> {
    match table {
        Some(t) => t.subrange(token * k, token * k + k),
        None => padded(ranked(score, score.len() as int, k), k),
    }
}

/// An expert of a list lies outside the router's range.
pub open spec fn strays(s: Seq<i32>, n: int) -> bool {
    exists|j: int| 0 <= j < s.len() && !(0 <= #[trigger] s[j] < n)
}

/// The experts of a token among as many as there are scores.
pub fn route(score: &[u32], table: Option<&Vec<i32>>, token: u32, k: usize) -> (r: Result<
    Vec<i32>,
    String,
>)
    requires
        score@.len() <= i32::MAX,
        match table {
            Some(t) => token * k + k <= t@.len(),
            None => k <= score@.len(),
        },
    ensures
        ({
            let t = match table {
                Some(t) => Some(t@),
                None => None,
            };
            let s = selection(score@, t, token, k as nat);
            match r {
                Ok(v) => v@ == s && !strays(s, score@.len() as int),
                Err(e) => e@ == "hash-selected expert outside router range"@ && table is Some
                    && strays(s, score@.len() as int),
            }
        }),
{
    let n: usize = score.len();
    match table {
        None => {
            let v = topk_desc(score, k);
            proof {
                lemma_ranked(score@, n as int, k as nat);
            }
            Ok(v)
        },
        Some(t) => {
            assert(token * k >= 0) by (nonlinear_arith);
            let len: usize = t.len();
            let base: usize = token as usize * k;
            let ghost s = t@.subrange(base as int, base + k);
            let mut out: Vec<i32> = Vec::new();
            let mut j: usize = 0;
            while j < k
                invariant
                    j <= k,
                    base + k <= len,
                    base == token * k,
                    table == Some(t),
                    len == t@.len(),
                    n == score@.len() <= i32::MAX,
                    s == t@.subrange(base as int, base + k),
                    out@ == s.take(j as int),
                    forall|q: int| 0 <= q < j ==> 0 <= #[trigger] s[q] < n,
                decreases k - j,
            {
                let e: i32 = t[base + j];
                assert(s[j as int] == e);
                if e < 0 || e as usize >= n {
                    return Err(owned("hash-selected expert outside router range"));
                }
                out.push(e);
                assert(out@ =~= s.take(j + 1));
                j = j + 1;
            }
            assert(out@ =~= s);
            Ok(out)
        },
    }
}

/// The values of the selected experts.
pub fn gather(values: &[u32], selected: &Vec<i32>) -> (r: Vec<u32>)
    requires
        !strays(selected@, values@.len() as int),
    ensures
        r@ == selected@.map_values(|e: i32| values@[e as int]),
{
    let mut out: Vec<u32> = Vec::new();
    let n: usize = selected.len();
    let mut i: usize = 0;
    while i < n
        invariant
            i <= n,
            n == selected@.len(),
            !strays(selected@, values@.len() as int),
            out@ == selected@.take(i as int).map_values(|e: i32| values@[e as int]),
        decreases n - i,
    {
        assert(0 <= selected@[i as int] < values@.len());
        out.push(values[selected[i] as usize]);
        assert(out@ =~= selected@.take(i + 1).map_values(|e: i32| values@[e as int]));
        i = i + 1;
    }
    assert(selected@.take(n as int) =~= selected@);
    out
}

/// The score that stands for none: -1e30.
pub const NEG_INF: u32 = 0xf149_f2ca;

/// The best score not yet allowed among the first `c`: its place and its value.
pub open spec fn champion(scores: Seq<u32>, allowed: Seq<u8>, c: int) -> (int, u32)
    decreases c,
{
    if c <= 0 {
        (0, NEG_INF)
    } else {
        let b = champion(scores, allowed, c - 1);
        if allowed[c - 1] == 0 && fp::gt(scores[c - 1], b.1) {
            (c - 1, scores[c - 1])
        } else {
            b
        }
    }
}

/// The rows allowed after `n` rounds, each of which allows the best that is left.
pub open spec fn allowed_after(scores: Seq<u32>, n: int) -> Seq<u8>
    decreases n,
{
    if n <= 0 {
        Seq::new(scores.len(), |i: int| 0u8)
    } else {
        let a = allowed_after(scores, n - 1);
        a.update(champion(scores, a, scores.len() as int).0, 1)
    }
}

/// How many of the first `c` rows are allowed.
pub open spec fn allowed_count(a: Seq<u8>, c: int) -> nat
    decreases c,
{
    if c <= 0 {
        0
    } else {
        allowed_count(a, c - 1) + (if a[c - 1] == 1 {
            1nat
        } else {
            0nat
        })
    }
}

/// The rows that a query sees: all of them where there are no more than `top_k`.
pub fn indexer_allowed(scores: &[u32], top_k: usize) -> (r: Option<Vec<u8>>)
    ensures
        match r {
            None => scores@.len() <= top_k,
            Some(a) => scores@.len() > top_k && a@ == allowed_after(scores@, top_k as int),
        },
{
    let n: usize = scores.len();
    if n <= top_k {
        return None;
    }
    let mut a: Vec<u8> = Vec::new();
    let mut i: usize = 0;
    while i < n
        invariant
            i <= n,
            a@ == Seq::new(i as nat, |k: int| 0u8),
        decreases n - i,
    {
        a.push(0);
        assert(a@ =~= Seq::new((i + 1) as nat, |k: int| 0u8));
        i = i + 1;
    }
    let mut j: usize = 0;
    while j < top_k
        invariant
            j <= top_k,
            0 < n,
            n == scores@.len(),
            a@.len() == n,
            a@ == allowed_after(scores@, j as int),
        decreases top_k - j,
    {
        let mut best: usize = 0;
        let mut bits: u32 = NEG_INF;
        let mut c: usize = 0;
        while c < n
            invariant
                c <= n,
                0 < n,
                n == scores@.len(),
                a@.len() == n,
                best < n,
                (best as int, bits) == champion(scores@, a@, c as int),
            decreases n - c,
        {
            if a[c] == 0 && f32_gt(scores[c], bits) {
                best = c;
                bits = scores[c];
            }
            c = c + 1;
        }
        a.set(best, 1);
        j = j + 1;
    }
    Some(a)
}

proof fn lemma_champion(scores: Seq<u32>, a: Seq<u8>, c: int)
    requires
        0 <= c <= scores.len(),
        a.len() == scores.len(),
        forall|i: int| 0 <= i < scores.len() ==> fp::gt(#[trigger] scores[i], NEG_INF),
    ensures
        ({
            let b = champion(scores, a, c);
            if exists|i: int| 0 <= i < c && #[trigger] a[i] == 0 {
                &&& 0 <= b.0 < c
                &&& a[b.0] == 0
                &&& b.1 == scores[b.0]
                &&& forall|i: int|
                    0 <= i < c && #[trigger] a[i] == 0 && i != b.0 ==> outranks(scores, b.0, i)
            } else {
                b == (0int, NEG_INF)
            }
        }),
    decreases c,
{
    if c > 0 {
        lemma_champion(scores, a, c - 1);
        let o = champion(scores, a, c - 1);
        assert(fp::gt(scores[c - 1], NEG_INF));
        if a[c - 1] == 0 {
            assert(exists|i: int| 0 <= i < c && #[trigger] a[i] == 0);
        } else if exists|i: int| 0 <= i < c && #[trigger] a[i] == 0 {
            let i = choose|i: int| 0 <= i < c && #[trigger] a[i] == 0;
            assert(i < c - 1);
        }
        if exists|i: int| 0 <= i < c - 1 && #[trigger] a[i] == 0 {
            let i = choose|i: int| 0 <= i < c - 1 && #[trigger] a[i] == 0;
            assert(a[i] == 0);
            assert(fp::gt(scores[o.0], NEG_INF));
        }
    }
}

proof fn lemma_count_update(a: Seq<u8>, at: int, c: int)
    requires
        0 <= at < a.len(),
        0 <= c <= a.len(),
        a[at] == 0,
    ensures
        allowed_count(a.update(at, 1), c) == allowed_count(a, c) + (if at < c {
            1int
        } else {
            0
        }),
    decreases c,
{
    if c > 0 {
        lemma_count_update(a, at, c - 1);
    }
}

proof fn lemma_count_full(a: Seq<u8>, c: int)
    requires
        0 <= c <= a.len(),
        forall|i: int| 0 <= i < c ==> #[trigger] a[i] != 0,
        forall|i: int| 0 <= i < c ==> #[trigger] a[i] == 0 || a[i] == 1,
    ensures
        allowed_count(a, c) == c,
    decreases c,
{
    if c > 0 {
        lemma_count_full(a, c - 1);
        assert(a[c - 1] != 0);
    }
}

/// Where every score is greater than the one that stands for none, exactly as many rows are allowed
/// as asked for, and each allowed row outranks each other one.
pub proof fn law_mask(scores: Seq<u32>, n: int)
    requires
        0 <= n <= scores.len(),
        forall|i: int| 0 <= i < scores.len() ==> fp::gt(#[trigger] scores[i], NEG_INF),
    ensures
        allowed_after(scores, n).len() == scores.len(),
        allowed_count(allowed_after(scores, n), scores.len() as int) == n,
        forall|i: int|
            0 <= i < scores.len() ==> #[trigger] allowed_after(scores, n)[i] == 0 || allowed_after(
                scores,
                n,
            )[i] == 1,
        forall|i: int, j: int|
            0 <= i < scores.len() && 0 <= j < scores.len() && #[trigger] allowed_after(scores, n)[i]
                == 1 && #[trigger] allowed_after(scores, n)[j] == 0 ==> outranks(scores, i, j),
    decreases n,
{
    let len = scores.len() as int;
    if n == 0 {
        lemma_count_none(allowed_after(scores, 0), len);
    } else {
        law_mask(scores, n - 1);
        let a = allowed_after(scores, n - 1);
        lemma_champion(scores, a, len);
        if !exists|i: int| 0 <= i < len && #[trigger] a[i] == 0 {
            lemma_count_full(a, len);
        }
        let b = champion(scores, a, len).0;
        lemma_count_update(a, b, len);
    }
}

proof fn lemma_count_none(a: Seq<u8>, c: int)
    requires
        0 <= c <= a.len(),
        forall|i: int| 0 <= i < c ==> #[trigger] a[i] == 0,
    ensures
        allowed_count(a, c) == 0,
    decreases c,
{
    if c > 0 {
        lemma_count_none(a, c - 1);
        assert(a[c - 1] == 0);
    }
}

} // verus!
