//! The forward pass around the layers: checks, steps, residual streams and output head.
use vstd::prelude::*;

use super::lanes;
use crate::engine::hybrid::kernels::{Buf, Kernel, Weight};
use crate::engine::hybrid::shape;
use crate::engine::hybrid::shape::{Shape, T_MAX};
use crate::engine::program;
use crate::engine::program::{Program, Term};
use crate::text::owned;

verus! {

/// Why a batch is refused.
pub open spec fn forward_fault(n: nat, pos0: u32, rows: u32, ctx: u32, ready: bool) -> Option<
    Seq<char>,
> {
    if n == 0 {
        Some("empty batch"@)
    } else if rows > 1 {
        Some("dsv4: multi-row logits (speculative paths) not supported yet"@)
    } else if pos0 + n > ctx {
        Some("position exceeds context"@)
    } else if !ready {
        Some("dsv4 state missing"@)
    } else {
        None
    }
}

/// Checks a batch of `n` tokens at position `pos0`.
pub fn check_forward(n: usize, pos0: u32, rows: u32, ctx: u32, ready: bool) -> (r: Result<
    (),
    String,
>)
    ensures
        match r {
            Ok(()) => forward_fault(n as nat, pos0, rows, ctx, ready) is None,
            Err(e) => forward_fault(n as nat, pos0, rows, ctx, ready) == Some(e@),
        },
{
    if n == 0 {
        return Err(owned("empty batch"));
    }
    if rows > 1 {
        return Err(owned("dsv4: multi-row logits (speculative paths) not supported yet"));
    }
    if pos0 as u128 + n as u128 > ctx as u128 {
        return Err(owned("position exceeds context"));
    }
    if !ready {
        return Err(owned("dsv4 state missing"));
    }
    Ok(())
}

/// Tokens that are run together.
#[derive(Debug, Clone, Copy, PartialEq, Eq, Structural)]
pub struct Step {
    /// The first of them in the batch.
    pub from: usize,
    pub t: u32,
}

/// `n` steps of one token from `from` on.
pub open spec fn singles(from: int, n: int) -> Seq<Step> {
    Seq::new(n as nat, |i: int| Step { from: (from + i) as usize, t: 1 })
}

/// The tokens of the chunk that begins at `from`.
pub open spec fn chunk_len(from: int, n: int) -> int {
    if n - from < T_MAX {
        n - from
    } else {
        T_MAX as int
    }
}

/// The steps of a batch from `from` on: chunks of at most sixteen tokens, one token at a time once
/// the rows of the indexer may outnumber those that a query sees.
pub open spec fn steps_from(n: int, pos0: u32, topk: u32, from: int) -> Seq<Step>
    decreases n - from,
{
    if from >= n {
        Seq::empty()
    } else {
        let t = chunk_len(from, n);
        let here = if (pos0 + from + t) / 4 > topk {
            singles(from, t)
        } else {
            seq![Step { from: from as usize, t: t as u32 }]
        };
        here + steps_from(n, pos0, topk, from + t)
    }
}

/// Steps that follow one another from `from` to `to`.
pub open spec fn covers(s: Seq<Step>, from: int, to: int) -> bool
    decreases s.len(),
{
    if s.len() == 0 {
        from == to
    } else {
        &&& s[0].from == from
        &&& 1 <= s[0].t <= T_MAX
        &&& covers(s.skip(1), from + s[0].t, to)
    }
}

proof fn lemma_covers_append(a: Seq<Step>, b: Seq<Step>, x: int, y: int, z: int)
    requires
        covers(a, x, y),
        covers(b, y, z),
    ensures
        covers(a + b, x, z),
    decreases a.len(),
{
    if a.len() == 0 {
        assert(a + b =~= b);
    } else {
        lemma_covers_append(a.skip(1), b, x + a[0].t, y, z);
        assert((a + b).skip(1) =~= a.skip(1) + b);
    }
}

proof fn lemma_singles(from: int, n: int)
    requires
        0 <= from,
        0 <= n,
        from + n <= usize::MAX,
    ensures
        covers(singles(from, n), from, from + n),
    decreases n,
{
    if n > 0 {
        lemma_singles(from + 1, n - 1);
        assert(singles(from, n).skip(1) =~= singles(from + 1, n - 1));
    }
}

/// The steps of a batch cover its tokens, each once and in order. Those of several tokens end
/// before the indexer has more rows than a query sees.
pub proof fn law_steps(n: int, pos0: u32, topk: u32, from: int)
    requires
        0 <= from <= n <= usize::MAX,
    ensures
        covers(steps_from(n, pos0, topk, from), from, n),
        forall|i: int|
            0 <= i < steps_from(n, pos0, topk, from).len() ==> {
                let s = #[trigger] steps_from(n, pos0, topk, from)[i];
                s.t > 1 ==> lanes::ended(4, (pos0 + s.from + s.t) as nat) <= topk
            },
    decreases n - from,
{
    if from < n {
        let t = chunk_len(from, n);
        law_steps(n, pos0, topk, from + t);
        let rest = steps_from(n, pos0, topk, from + t);
        let one = seq![Step { from: from as usize, t: t as u32 }];
        if (pos0 + from + t) / 4 > topk {
            lemma_singles(from, t);
            lemma_covers_append(singles(from, t), rest, from, from + t, n);
            assert forall|i: int|
                0 <= i < steps_from(n, pos0, topk, from).len() implies {
                let s = #[trigger] steps_from(n, pos0, topk, from)[i];
                s.t > 1 ==> lanes::ended(4, (pos0 + s.from + s.t) as nat) <= topk
            } by {
                if i >= t {
                    assert(steps_from(n, pos0, topk, from)[i] == rest[i - t]);
                } else {
                    assert(steps_from(n, pos0, topk, from)[i] == singles(from, t)[i]);
                }
            }
        } else {
            assert(one.skip(1) =~= Seq::<Step>::empty());
            assert(covers(one.skip(1), from + one[0].t, from + t));
            assert(covers(one, from, from + t));
            lemma_covers_append(one, rest, from, from + t, n);
            assert forall|i: int|
                0 <= i < steps_from(n, pos0, topk, from).len() implies {
                let s = #[trigger] steps_from(n, pos0, topk, from)[i];
                s.t > 1 ==> lanes::ended(4, (pos0 + s.from + s.t) as nat) <= topk
            } by {
                if i >= 1 {
                    assert(steps_from(n, pos0, topk, from)[i] == rest[i - 1]);
                } else {
                    assert(steps_from(n, pos0, topk, from)[i] == one[0]);
                }
            }
        }
    }
}

/// The steps of a batch.
pub fn forward_steps(n: usize, pos0: u32, topk: u32) -> (r: Vec<Step>)
    requires
        pos0 + n <= u32::MAX,
    ensures
        r@ == steps_from(n as int, pos0, topk, 0),
        covers(r@, 0, n as int),
{
    let mut out: Vec<Step> = Vec::new();
    let mut c: usize = 0;
    let ghost all = steps_from(n as int, pos0, topk, 0);
    while c < n
        invariant
            c <= n,
            pos0 + n <= u32::MAX,
            all == out@ + steps_from(n as int, pos0, topk, c as int),
        decreases n - c,
    {
        let t: usize = if n - c < 16 {
            n - c
        } else {
            16
        };
        let ghost before = out@;
        let ghost rest = steps_from(n as int, pos0, topk, c + t);
        if (pos0 + c as u32 + t as u32) / 4 > topk {
            let mut i: usize = 0;
            while i < t
                invariant
                    i <= t,
                    c + t <= n,
                    out@ == before + singles(c as int, t as int).take(i as int),
                decreases t - i,
            {
                out.push(Step { from: c + i, t: 1 });
                assert(out@ =~= before + singles(c as int, t as int).take(i + 1));
                i = i + 1;
            }
            assert(singles(c as int, t as int).take(t as int) =~= singles(c as int, t as int));
            assert(out@ + rest =~= before + (singles(c as int, t as int) + rest));
        } else {
            out.push(Step { from: c, t: t as u32 });
            assert(out@ + rest =~= before + (seq![Step { from: c, t: t as u32 }] + rest));
        }
        c = c + t;
    }
    assert(out@ =~= all);
    proof {
        law_steps(n as int, pos0, topk, 0);
    }
    out
}

/// The residual streams once `k` of them are set: stream `k` takes the row of its token.
pub open spec fn spread(s: Shape, x: Term<Buf, Kernel>, old: Term<Buf, Kernel>, k: int) -> Term<
    Buf,
    Kernel,
>
    decreases k,
{
    if k <= 0 {
        old
    } else {
        program::ap2(
            Kernel::CopyRow {
                from: ((k - 1) / s.n_hc as int) as u32,
                to: (k - 1) as u64,
                n: s.n_embd,
            },
            spread(s, x, old, k - 1),
            x,
        )
    }
}

/// The embedded tokens of a step.
pub open spec fn embedded(s: Shape, st: Step) -> Term<Buf, Kernel> {
    program::ap1(
        Kernel::Embed { n_embd: s.n_embd, n_vocab: s.n_vocab, t: st.t },
        program::ap(
            Kernel::WriteTokens { from: st.from as u32, t: st.t },
            Seq::<Term<Buf, Kernel>>::empty(),
        ),
    )
}

/// Launches the embedding of a step, into every residual stream of each of its tokens.
pub fn enter(p: &mut Program<Buf, Kernel>, s: &Shape, st: &Step, hc: bool)
    requires
        st.t <= 16,
        st.from <= u32::MAX,
    ensures
        ({
            let o = old(p).store();
            let end = final(p).store();
            &&& end[Buf::Cur] == embedded(*s, *st)
            &&& end[Buf::Hc(hc)] == spread(
                *s,
                embedded(*s, *st),
                o[Buf::Hc(hc)],
                st.t * s.n_hc,
            )
            &&& forall|b: Buf|
                b != Buf::Tok && b != Buf::Cur && b != Buf::Hc(hc) ==> #[trigger] end[b] == o[b]
        }),
{
    let ghost o = p.store();
    p.op0(Kernel::WriteTokens { from: st.from as u32, t: st.t }, Buf::Tok);
    p.op1(Kernel::Embed { n_embd: s.n_embd, n_vocab: s.n_vocab, t: st.t }, Buf::Cur, Buf::Tok);
    assert(0 <= st.t * s.n_hc <= 16 * s.n_hc) by (nonlinear_arith)
        requires
            0 <= st.t <= 16,
            0 <= s.n_hc,
    ;
    let n: u64 = st.t as u64 * s.n_hc as u64;
    let mut k: u64 = 0;
    while k < n
        invariant
            k <= n,
            n == st.t * s.n_hc,
            st.t <= 16,
            p.store()[Buf::Cur] == embedded(*s, *st),
            p.store()[Buf::Hc(hc)] == spread(*s, embedded(*s, *st), o[Buf::Hc(hc)], k as int),
            forall|b: Buf|
                b != Buf::Tok && b != Buf::Cur && b != Buf::Hc(hc) ==> #[trigger] p.store()[b]
                    == o[b],
        decreases n - k,
    {
        assert(0 < s.n_hc && k as int / s.n_hc as int <= 16) by (nonlinear_arith)
            requires
                0 <= k < st.t * s.n_hc,
                st.t <= 16,
                0 <= s.n_hc,
        ;
        p.op2(
            Kernel::CopyRow { from: (k / s.n_hc as u64) as u32, to: k, n: s.n_embd },
            Buf::Hc(hc),
            Buf::Hc(hc),
            Buf::Cur,
        );
        k = k + 1;
    }
}

/// Stream `h` of token `i` takes the row of token `i`.
pub proof fn law_spread_rows(n_hc: int, i: int, h: int)
    requires
        0 < n_hc,
        0 <= i,
        0 <= h < n_hc,
    ensures
        (i * n_hc + h) / n_hc == i,
{
    vstd::arithmetic::div_mod::lemma_fundamental_div_mod_converse(i * n_hc + h, n_hc, i, h);
}

/// Why there is no output head.
pub open spec fn head_fault(head: bool, ones: bool) -> Option<Seq<char>> {
    if !head {
        Some("dsv4 output head missing"@)
    } else if !ones {
        Some("ones_hc missing"@)
    } else {
        None
    }
}

/// The logits of the last token of a step that leaves the residual streams `x`.
pub open spec fn logits(s: Shape, t: u32, x: Term<Buf, Kernel>) -> Term<Buf, Kernel> {
    let n = shape::times(s.n_hc as int, s.n_embd as int);
    let last = program::ap1(Kernel::Rows { from: (t - 1) as u32, rows: 1, n }, x);
    let mix = program::ap1(
        Kernel::MatmulF32 { w: Weight::OutFn, n_in: n, n_out: s.n_hc, t: 1 },
        program::ap1(Kernel::RmsNorm { w: Weight::OnesHc, width: n, rows: 1 }, last),
    );
    program::ap1(
        Kernel::Head { rows: 1 },
        program::ap1(
            Kernel::RmsNorm { w: Weight::OutputNorm, width: s.n_embd, rows: 1 },
            program::ap2(Kernel::HcHead { n_embd: s.n_embd, n_hc: s.n_hc }, last, mix),
        ),
    )
}

/// The buffers that the output head writes.
pub open spec fn finish_writes(b: Buf) -> bool {
    b is Hc || b == Buf::Mix || b == Buf::LastRow || b == Buf::Normed || b == Buf::Logits
}

/// Launches the output head over the last token of the last step.
pub fn finish(
    p: &mut Program<Buf, Kernel>,
    s: &Shape,
    t: u32,
    hc: bool,
    head: bool,
    ones: bool,
) -> (r: Result<(), String>)
    requires
        s.n_hc * s.n_embd <= u32::MAX,
        t > 0,
    ensures
        match r {
            Ok(()) => {
                let st = old(p).store();
                let end = final(p).store();
                &&& head_fault(head, ones) is None
                &&& end[Buf::Logits] == logits(*s, t, st[Buf::Hc(hc)])
                &&& forall|b: Buf| !finish_writes(b) ==> #[trigger] end[b] == st[b]
            },
            Err(e) => head_fault(head, ones) == Some(e@) && *final(p) == *old(p),
        },
{
    if !head {
        return Err(owned("dsv4 output head missing"));
    }
    if !ones {
        return Err(owned("ones_hc missing"));
    }
    let n: u32 = s.n_hc * s.n_embd;
    p.op1(Kernel::Rows { from: t - 1, rows: 1, n }, Buf::Hc(!hc), Buf::Hc(hc));
    p.op1(
        Kernel::RmsNorm { w: Weight::OnesHc, width: n, rows: 1 },
        Buf::Hc(hc),
        Buf::Hc(!hc),
    );
    p.op1(
        Kernel::MatmulF32 { w: Weight::OutFn, n_in: n, n_out: s.n_hc, t: 1 },
        Buf::Mix,
        Buf::Hc(hc),
    );
    p.op2(
        Kernel::HcHead { n_embd: s.n_embd, n_hc: s.n_hc },
        Buf::LastRow,
        Buf::Hc(!hc),
        Buf::Mix,
    );
    p.op1(
        Kernel::RmsNorm { w: Weight::OutputNorm, width: s.n_embd, rows: 1 },
        Buf::Normed,
        Buf::LastRow,
    );
    p.op1(Kernel::Head { rows: 1 }, Buf::Logits, Buf::Normed);
    Ok(())
}

} // verus!
