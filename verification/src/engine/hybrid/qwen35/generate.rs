//! Speculative generation: a block is drafted, verified in one pass, and accepted as far as the
//! target agrees.
use vstd::prelude::*;

use crate::fp;
use crate::fp::f32_gt;

verus! {

/// The greatest of the first `n` values of a row, the first among equals.
pub open spec fn greatest(row: Seq<u32>, n: int) -> int
    decreases n,
{
    if n <= 0 {
        0
    } else {
        let b = greatest(row, n - 1);
        if fp::gt(row[n - 1], row[b]) {
            n - 1
        } else {
            b
        }
    }
}

/// The greatest of numbers is at least as great as every other, and greater than those before it.
pub proof fn law_greatest(row: Seq<u32>, n: int)
    requires
        0 < n <= row.len(),
        forall|i: int| 0 <= i < n ==> !fp::is_nan(#[trigger] row[i]),
    ensures
        0 <= greatest(row, n) < n,
        forall|i: int| 0 <= i < n ==> fp::rank(#[trigger] row[i]) <= fp::rank(row[greatest(row, n)]),
        forall|i: int|
            0 <= i < greatest(row, n) ==> fp::rank(#[trigger] row[i]) < fp::rank(
                row[greatest(row, n)],
            ),
    decreases n,
{
    if n > 1 {
        law_greatest(row, n - 1);
        assert(!fp::is_nan(row[n - 1]));
        assert(!fp::is_nan(row[greatest(row, n - 1)]));
    } else {
        assert(greatest(row, 0) == 0);
    }
}

/// The greatest value of the `i`-th row of `v` values of a list.
pub fn argmax(values: &[u32], i: usize, v: usize) -> (r: u32)
    requires
        0 < v <= u32::MAX,
        (i + 1) * v <= values@.len(),
    ensures
        r == greatest(values@.subrange(i * v, (i + 1) * v), v as int),
{
    let n: usize = values.len();
    assert(i * v + v == (i + 1) * v && 0 <= i * v) by (nonlinear_arith);
    let base: usize = i * v;
    let ghost row = values@.subrange(i * v, (i + 1) * v);
    let mut best: usize = 0;
    let mut k: usize = 0;
    while k < v
        invariant
            k <= v,
            0 < v <= u32::MAX,
            best < v,
            base + v <= n,
            n == values@.len(),
            row == values@.subrange(base as int, base + v),
            best == greatest(row, k as int),
        decreases v - k,
    {
        if f32_gt(values[base + k], values[base + best]) {
            best = k;
        }
        k = k + 1;
    }
    best as u32
}

/// The greatest value of each of the first `n` rows of `v` values.
pub open spec fn picks(values: Seq<u32>, v: int, n: nat) -> Seq<u32> {
    Seq::new(n, |i: int| greatest(values.subrange(i * v, (i + 1) * v), v) as u32)
}

/// The greatest value of each row.
pub fn argmax_rows(values: &[u32], n: usize, v: usize) -> (r: Vec<u32>)
    requires
        0 < v <= u32::MAX,
        n * v <= values@.len(),
    ensures
        r@ == picks(values@, v as int, n as nat),
{
    let mut out: Vec<u32> = Vec::new();
    let mut i: usize = 0;
    while i < n
        invariant
            i <= n,
            0 < v <= u32::MAX,
            n * v <= values@.len(),
            out@ == picks(values@, v as int, i as nat),
        decreases n - i,
    {
        assert((i + 1) * v <= n * v) by (nonlinear_arith)
            requires
                i + 1 <= n,
                0 < v,
        ;
        let b: u32 = argmax(values, i, v);
        out.push(b);
        assert(out@ =~= picks(values@, v as int, (i + 1) as nat));
        i = i + 1;
    }
    out
}

/// A drafted block: the picks of the draft, with the last token in front.
pub fn drafted(values: &[u32], n: usize, v: usize, last: u32) -> (r: Vec<u32>)
    requires
        0 < n,
        0 < v <= u32::MAX,
        n * v <= values@.len(),
    ensures
        r@ == picks(values@, v as int, n as nat).update(0, last),
{
    let mut out = argmax_rows(values, n, v);
    out.set(0, last);
    out
}

/// How many drafted tokens are accepted, once `i` are: row `i - 1` of the target predicts the token
/// behind token `i - 1` of the draft.
pub open spec fn accepted(draft: Seq<u32>, target: Seq<u32>, i: int) -> int
    decreases draft.len() - i,
{
    if i >= draft.len() || draft[i] != target[i - 1] {
        i
    } else {
        accepted(draft, target, i + 1)
    }
}

/// How many drafted tokens are accepted. The first always is.
pub fn accept(draft: &Vec<u32>, target: &Vec<u32>) -> (r: usize)
    requires
        0 < draft@.len() <= target@.len(),
    ensures
        r == accepted(draft@, target@, 1),
        1 <= r <= draft@.len(),
{
    let n: usize = draft.len();
    let mut i: usize = 1;
    while i < n && draft[i] == target[i - 1]
        invariant
            1 <= i <= n,
            n == draft@.len() <= target@.len(),
            accepted(draft@, target@, 1) == accepted(draft@, target@, i as int),
        decreases n - i,
    {
        i = i + 1;
    }
    i
}

/// The first `n` tokens of `run` are what greedy decoding gives behind `before`, `next` being the
/// token that the target gives behind a text.
pub open spec fn greedy(
    next: spec_fn(Seq<u32>) -> u32,
    before: Seq<u32>,
    run: Seq<u32>,
    n: int,
) -> bool {
    forall|i: int| 0 <= i < n ==> #[trigger] run[i] == next(before + run.take(i))
}

/// The target's rows are its predictions behind each drafted token.
pub open spec fn verified(
    next: spec_fn(Seq<u32>) -> u32,
    before: Seq<u32>,
    draft: Seq<u32>,
    target: Seq<u32>,
) -> bool {
    target.len() >= draft.len() && forall|i: int|
        0 <= i < draft.len() ==> #[trigger] target[i] == next(before + draft.take(i + 1))
}

proof fn lemma_accepted(draft: Seq<u32>, target: Seq<u32>, i: int)
    requires
        1 <= i <= draft.len(),
    ensures
        i <= accepted(draft, target, i) <= draft.len(),
        forall|k: int| i <= k < accepted(draft, target, i) ==> #[trigger] draft[k] == target[k - 1],
        accepted(draft, target, i) < draft.len() ==> draft[accepted(draft, target, i)]
            != target[accepted(draft, target, i) - 1],
    decreases draft.len() - i,
{
    if i < draft.len() && draft[i] == target[i - 1] {
        lemma_accepted(draft, target, i + 1);
    }
}

/// Speculation changes nothing: whatever the draft proposes behind a correct first token, the
/// accepted tokens are those of greedy decoding, and so is the token that the next round begins
/// with. No longer prefix of the draft would be.
pub proof fn law_lossless(
    next: spec_fn(Seq<u32>) -> u32,
    before: Seq<u32>,
    draft: Seq<u32>,
    target: Seq<u32>,
)
    requires
        draft.len() > 0,
        draft[0] == next(before),
        verified(next, before, draft, target),
    ensures
        ({
            let n = accepted(draft, target, 1);
            &&& 1 <= n <= draft.len()
            &&& greedy(next, before, draft, n)
            &&& target[n - 1] == next(before + draft.take(n))
            &&& n < draft.len() ==> !greedy(next, before, draft, n + 1)
        }),
{
    lemma_accepted(draft, target, 1);
    let n = accepted(draft, target, 1);
    assert forall|i: int| 0 <= i < n implies #[trigger] draft[i] == next(
        before + draft.take(i),
    ) by {
        if i == 0 {
            assert(before + draft.take(0) =~= before);
        } else {
            assert(draft[i] == target[i - 1]);
            assert(target[i - 1] == next(before + draft.take(i - 1 + 1)));
        }
    }
    assert(target[n - 1] == next(before + draft.take(n - 1 + 1)));
    if n < draft.len() {
        assert(draft[n] != next(before + draft.take(n)));
    }
}

/// The tokens accepted in the first `k` rounds, each a draft and what the target gave.
pub open spec fn text_after(rounds: Seq<(Seq<u32>, Seq<u32>)>, k: int) -> Seq<u32>
    decreases k,
{
    if k <= 0 {
        Seq::empty()
    } else {
        let (d, t) = rounds[k - 1];
        text_after(rounds, k - 1) + d.take(accepted(d, t, 1))
    }
}

/// The token behind those accepted in the first `k` rounds.
pub open spec fn pending(first: u32, rounds: Seq<(Seq<u32>, Seq<u32>)>, k: int) -> u32 {
    if k <= 0 {
        first
    } else {
        let (d, t) = rounds[k - 1];
        t[accepted(d, t, 1) - 1]
    }
}

/// The first `k` rounds were run one behind the other: each drafts behind the token that the one
/// before left, and is verified behind the text so far.
pub open spec fn chained(
    next: spec_fn(Seq<u32>) -> u32,
    before: Seq<u32>,
    first: u32,
    rounds: Seq<(Seq<u32>, Seq<u32>)>,
    k: int,
) -> bool
    decreases k,
{
    k <= 0 || {
        let (d, t) = rounds[k - 1];
        &&& chained(next, before, first, rounds, k - 1)
        &&& d.len() > 0
        &&& d[0] == pending(first, rounds, k - 1)
        &&& verified(next, before + text_after(rounds, k - 1), d, t)
    }
}

/// A whole generation is lossless: the text of all its rounds is what greedy decoding gives, and so
/// is the token behind it.
pub proof fn law_lossless_rounds(
    next: spec_fn(Seq<u32>) -> u32,
    before: Seq<u32>,
    first: u32,
    rounds: Seq<(Seq<u32>, Seq<u32>)>,
    k: int,
)
    requires
        0 <= k <= rounds.len(),
        first == next(before),
        chained(next, before, first, rounds, k),
    ensures
        greedy(next, before, text_after(rounds, k), text_after(rounds, k).len() as int),
        pending(first, rounds, k) == next(before + text_after(rounds, k)),
        text_after(rounds, k).len() >= k,
    decreases k,
{
    if k == 0 {
        assert(before + text_after(rounds, 0) =~= before);
    } else {
        law_lossless_rounds(next, before, first, rounds, k - 1);
        let (d, t) = rounds[k - 1];
        let o = text_after(rounds, k - 1);
        law_lossless(next, before + o, d, t);
        let n = accepted(d, t, 1);
        let all = text_after(rounds, k);
        assert((before + o) + d.take(n) =~= before + all);
        assert forall|i: int| 0 <= i < all.len() implies #[trigger] all[i] == next(
            before + all.take(i),
        ) by {
            if i < o.len() {
                assert(all.take(i) =~= o.take(i));
                assert(o[i] == next(before + o.take(i)));
            } else {
                let j = i - o.len();
                assert(all[i] == d[j]);
                assert((before + o) + d.take(j) =~= before + all.take(i));
            }
        }
    }
}

/// What a round gives out.
pub struct Round {
    /// Tokens given out.
    pub tokens: Vec<u32>,
    /// Whether generation ends.
    pub stop: bool,
}

/// How many of the accepted tokens are given out, from `i` on: up to the first that stops, and no
/// more than are left to give.
pub open spec fn emitted(stops: Seq<bool>, n: int, left: int, i: int) -> int
    decreases n - i,
{
    if i >= n || i >= left || stops[i] {
        i
    } else {
        emitted(stops, n, left, i + 1)
    }
}

proof fn lemma_emitted(stops: Seq<bool>, n: int, left: int, i: int)
    requires
        0 <= i <= n,
        i <= left,
    ensures
        i <= emitted(stops, n, left, i) <= n,
        emitted(stops, n, left, i) <= left,
        forall|k: int| i <= k < emitted(stops, n, left, i) ==> !(#[trigger] stops[k]),
        emitted(stops, n, left, i) < n && emitted(stops, n, left, i) < left ==> stops[emitted(
            stops,
            n,
            left,
            i,
        )],
    decreases n - i,
{
    if i < n && i < left && !stops[i] {
        lemma_emitted(stops, n, left, i + 1);
    }
}

/// Gives out the accepted tokens of a round. Generation ends at a token that stops it, which is not
/// given out, and once all that were asked for are given out.
pub fn emit_round(draft: &Vec<u32>, accept: usize, stops: &Vec<bool>, left: usize) -> (r: Round)
    requires
        accept <= draft@.len(),
        accept <= stops@.len(),
        0 < left,
    ensures
        ({
            let n = emitted(stops@, accept as int, left as int, 0);
            &&& 0 <= n <= accept
            &&& n <= left
            &&& r.tokens@ == draft@.take(n)
            &&& r.stop == (n == left || n < accept)
        }),
{
    let mut tokens: Vec<u32> = Vec::new();
    proof {
        lemma_emitted(stops@, accept as int, left as int, 0);
    }
    let mut i: usize = 0;
    while i < accept && i < left && !stops[i]
        invariant
            i <= accept <= draft@.len(),
            i <= left,
            accept <= stops@.len(),
            tokens@ == draft@.take(i as int),
            emitted(stops@, accept as int, left as int, 0) == emitted(
                stops@,
                accept as int,
                left as int,
                i as int,
            ),
        decreases accept - i,
    {
        tokens.push(draft[i]);
        assert(tokens@ =~= draft@.take(i + 1));
        i = i + 1;
    }
    Round { tokens, stop: i == left || i < accept }
}

/// Where a generation stands.
#[derive(Debug, Clone, Copy, PartialEq, Eq, Structural)]
pub struct Generation {
    /// Positions whose tokens are fixed.
    pub committed: u32,
    /// The token behind them.
    pub last: u32,
    /// Tokens given out.
    pub emitted: usize,
    pub stopped: bool,
    /// Drafted and accepted tokens so far.
    pub drafted: u64,
    pub accepted: u64,
}

impl Generation {
    /// Another round is run: something is left to give, nothing has stopped it, and a block fits in
    /// the context.
    pub open spec fn goes_on(self, max: usize, block: usize, ctx: u32) -> bool {
        self.emitted < max && !self.stopped && self.committed + block + 1 < ctx
    }

    pub fn more(&self, max: usize, block: usize, ctx: u32) -> (r: bool)
        ensures
            r == self.goes_on(max, block, ctx),
    {
        self.emitted < max && !self.stopped && self.committed as u128 + block as u128 + 1
            < ctx as u128
    }

    /// Where a generation stands behind its prompt.
    pub fn new(pos0: u32, prompt: u32, last: u32) -> (r: Generation)
        requires
            pos0 + prompt <= u32::MAX,
        ensures
            r == (Generation {
                committed: (pos0 + prompt) as u32,
                last,
                emitted: 0,
                stopped: false,
                drafted: 0,
                accepted: 0,
            }),
    {
        Generation {
            committed: pos0 + prompt,
            last,
            emitted: 0,
            stopped: false,
            drafted: 0,
            accepted: 0,
        }
    }

    /// From `self` to `next` a round is taken in, which gives out `out`.
    pub open spec fn advances(
        self,
        next: Self,
        draft: Seq<u32>,
        target: Seq<u32>,
        stops: Seq<bool>,
        max: usize,
        out: Seq<u32>,
    ) -> bool {
        let n = accepted(draft, target, 1);
        let e = emitted(stops, n, max - self.emitted, 0);
        &&& 1 <= n <= draft.len()
        &&& out == draft.take(e)
        &&& next.committed == self.committed + n
        &&& next.last == target[n - 1]
        &&& next.emitted == self.emitted + e
        &&& next.emitted <= max
        &&& next.stopped == (next.emitted == max || e < n)
        &&& next.drafted == self.drafted + draft.len() - 1
        &&& next.accepted == self.accepted + n - 1
    }

    /// Takes the outcome of a round: what was drafted, what the target gave, and which drafted
    /// tokens stop. Gives back how many were accepted, and what is given out.
    pub fn round(
        &mut self,
        draft: &Vec<u32>,
        target: &Vec<u32>,
        stops: &Vec<bool>,
        max: usize,
        ctx: u32,
    ) -> (r: (usize, Vec<u32>))
        requires
            old(self).goes_on(max, draft@.len() as usize, ctx),
            0 < draft@.len() <= target@.len(),
            draft@.len() <= stops@.len(),
            old(self).drafted + draft@.len() <= u64::MAX,
            old(self).accepted + draft@.len() <= u64::MAX,
        ensures
            r.0 == accepted(draft@, target@, 1),
            old(self).advances(*final(self), draft@, target@, stops@, max, r.1@),
    {
        let block: usize = draft.len();
        let n: usize = accept(draft, target);
        let out = emit_round(draft, n, stops, max - self.emitted);
        self.drafted = self.drafted + (block - 1) as u64;
        self.accepted = self.accepted + (n - 1) as u64;
        self.committed = self.committed + n as u32;
        self.last = target[n - 1];
        self.emitted = self.emitted + out.tokens.len();
        self.stopped = out.stop;
        (n, out.tokens)
    }
}

/// What one round of a generation was about: the draft, what the target gave, which drafted tokens
/// stop, and what was given out.
pub struct Played {
    pub draft: Seq<u32>,
    pub target: Seq<u32>,
    pub stops: Seq<bool>,
    pub out: Seq<u32>,
}

/// Drafts and targets of rounds.
pub open spec fn drafts(played: Seq<Played>) -> Seq<(Seq<u32>, Seq<u32>)> {
    Seq::new(played.len(), |k: int| (played[k].draft, played[k].target))
}

/// The tokens given out in the first `k` rounds.
pub open spec fn given(played: Seq<Played>, k: int) -> Seq<u32>
    decreases k,
{
    if k <= 0 {
        Seq::empty()
    } else {
        given(played, k - 1) + played[k - 1].out
    }
}

/// Round `k` of a generation: it goes on from `g[k]`, drafts behind its last token, is verified
/// behind the text so far, and leaves `g[k + 1]`. `ends` says which tokens stop.
pub open spec fn plays(
    next: spec_fn(Seq<u32>) -> u32,
    ends: spec_fn(u32) -> bool,
    before: Seq<u32>,
    g: Seq<Generation>,
    played: Seq<Played>,
    max: usize,
    ctx: u32,
    k: int,
) -> bool {
    let r = played[k];
    &&& 0 < r.draft.len() <= usize::MAX
    &&& g[k].goes_on(max, r.draft.len() as usize, ctx)
    &&& r.draft[0] == g[k].last
    &&& verified(next, before + text_after(drafts(played), k), r.draft, r.target)
    &&& r.stops.len() >= r.draft.len()
    &&& forall|i: int| 0 <= i < r.draft.len() ==> #[trigger] r.stops[i] == ends(r.draft[i])
    &&& g[k].advances(g[k + 1], r.draft, r.target, r.stops, max, r.out)
}

proof fn lemma_given(
    next: spec_fn(Seq<u32>) -> u32,
    ends: spec_fn(u32) -> bool,
    before: Seq<u32>,
    g: Seq<Generation>,
    played: Seq<Played>,
    max: usize,
    ctx: u32,
    n: int,
)
    requires
        0 <= n <= played.len(),
        g.len() == played.len() + 1,
        g[0].emitted == 0,
        !g[0].stopped,
        g[0].last == next(before),
        forall|k: int|
            0 <= k < played.len() ==> #[trigger] plays(next, ends, before, g, played, max, ctx, k),
    ensures
        chained(next, before, g[0].last, drafts(played), n),
        g[n].last == pending(g[0].last, drafts(played), n),
        given(played, n).len() == g[n].emitted,
        given(played, n).len() <= text_after(drafts(played), n).len(),
        given(played, n) == text_after(drafts(played), n).take(given(played, n).len() as int),
        forall|i: int| 0 <= i < given(played, n).len() ==> !ends(#[trigger] given(played, n)[i]),
        !g[n].stopped ==> given(played, n) == text_after(drafts(played), n),
        n > 0 ==> g[n].emitted <= max,
        n > 0 && g[n].stopped && g[n].emitted < max ==> given(played, n).len() < text_after(
            drafts(played),
            n,
        ).len() && ends(text_after(drafts(played), n)[given(played, n).len() as int]),
    decreases n,
{
    if n > 0 {
        let m = n - 1;
        lemma_given(next, ends, before, g, played, max, ctx, m);
        assert(plays(next, ends, before, g, played, max, ctx, m));
        let r = played[m];
        let a = accepted(r.draft, r.target, 1);
        let left = max - g[m].emitted;
        let e = emitted(r.stops, a, left, 0);
        lemma_accepted(r.draft, r.target, 1);
        lemma_emitted(r.stops, a, left, 0);
        assert(drafts(played)[m] == (r.draft, r.target));
        let o = text_after(drafts(played), m);
        let all = text_after(drafts(played), n);
        let out = given(played, n);
        assert(g[m + 1] == g[n]);
        assert(all == o + r.draft.take(a));
        assert(out == o + r.draft.take(e));
        assert(out =~= all.take(out.len() as int));
        assert forall|i: int| 0 <= i < out.len() implies !ends(#[trigger] out[i]) by {
            if i < o.len() {
                assert(out[i] == given(played, m)[i]);
            } else {
                assert(out[i] == r.draft[i - o.len()]);
                assert(!r.stops[i - o.len()]);
            }
        }
        if !g[n].stopped {
            assert(e == a);
        }
        if g[n].stopped && g[n].emitted < max {
            assert(e < a && e < left);
            assert(all[out.len() as int] == r.draft[e]);
        }
    } else {
        assert(given(played, 0) =~= text_after(drafts(played), 0));
    }
}

/// A whole generation, with its limit and the tokens that stop it, gives out the beginning of what
/// greedy decoding gives: no more tokens than were asked for, and none that stops. It has stopped
/// only once it gave out all that were asked for, or where greedy decoding goes on with a token
/// that stops.
pub proof fn law_generation(
    next: spec_fn(Seq<u32>) -> u32,
    ends: spec_fn(u32) -> bool,
    before: Seq<u32>,
    g: Seq<Generation>,
    played: Seq<Played>,
    max: usize,
    ctx: u32,
)
    requires
        g.len() == played.len() + 1,
        g[0].emitted == 0,
        !g[0].stopped,
        g[0].last == next(before),
        forall|k: int|
            0 <= k < played.len() ==> #[trigger] plays(next, ends, before, g, played, max, ctx, k),
    ensures
        ({
            let out = given(played, played.len() as int);
            &&& greedy(next, before, out, out.len() as int)
            &&& out.len() <= max
            &&& forall|i: int| 0 <= i < out.len() ==> !ends(#[trigger] out[i])
            &&& g.last().stopped ==> out.len() == max || ends(next(before + out))
            &&& !g.last().stopped ==> g.last().last == next(before + out)
        }),
{
    let n = played.len() as int;
    let rounds = drafts(played);
    lemma_given(next, ends, before, g, played, max, ctx, n);
    law_lossless_rounds(next, before, g[0].last, rounds, n);
    let out = given(played, n);
    let all = text_after(rounds, n);
    assert forall|i: int| 0 <= i < out.len() implies #[trigger] out[i] == next(
        before + out.take(i),
    ) by {
        assert(all[i] == next(before + all.take(i)));
        assert(all.take(i) =~= out.take(i));
    }
    if g.last().stopped && out.len() < max {
        let e = out.len() as int;
        assert(all[e] == next(before + all.take(e)));
        assert(all.take(e) =~= out);
    }
}

} // verus!
