//! The forward pass around the layers: checks, chunks, embedding and output head.
use vstd::prelude::*;

use crate::engine::hybrid::dsv4::forward;
use crate::engine::hybrid::dsv4::forward::Step;
use crate::engine::hybrid::kernels::{Buf, Kernel, Weight};
use crate::engine::hybrid::shape::{Shape, T_MAX};
use crate::engine::program;
use crate::engine::program::{Program, Term};
use crate::text::owned;

verus! {

/// Why a batch is refused.
pub open spec fn forward_fault(n: nat, pos0: u32, rows: u32, ctx: u32, ready: bool) -> Option<
    Seq<char>,
> {
    if n == 0 {
        Some("empty batch"@)
    } else if rows > T_MAX {
        Some("qwen35: rows exceeds the verify chunk"@)
    } else if pos0 + n > ctx {
        Some("position exceeds context"@)
    } else if !ready {
        Some("qwen35 state missing"@)
    } else {
        None
    }
}

/// Checks a batch of `n` tokens at position `pos0`.
pub fn check_forward(n: usize, pos0: u32, rows: u32, ctx: u32, ready: bool) -> (r: Result<
    (),
    String,
>)
    ensures
        match r {
            Ok(()) => forward_fault(n as nat, pos0, rows, ctx, ready) is None,
            Err(e) => forward_fault(n as nat, pos0, rows, ctx, ready) == Some(e@),
        },
{
    if n == 0 {
        return Err(owned("empty batch"));
    }
    if rows > T_MAX {
        return Err(owned("qwen35: rows exceeds the verify chunk"));
    }
    if pos0 as u128 + n as u128 > ctx as u128 {
        return Err(owned("position exceeds context"));
    }
    if !ready {
        return Err(owned("qwen35 state missing"));
    }
    Ok(())
}

/// The chunks of a batch from `from` on, of sixteen tokens each but the last.
pub open spec fn chunks_from(n: int, from: int) -> Seq<Step>
    decreases n - from,
{
    if from >= n {
        Seq::empty()
    } else {
        let t = forward::chunk_len(from, n);
        seq![Step { from: from as usize, t: t as u32 }] + chunks_from(n, from + t)
    }
}

/// The chunks of a batch cover its tokens, each once and in order.
pub proof fn law_chunks(n: int, from: int)
    requires
        0 <= from <= n <= usize::MAX,
    ensures
        forward::covers(chunks_from(n, from), from, n),
    decreases n - from,
{
    if from < n {
        let t = forward::chunk_len(from, n);
        law_chunks(n, from + t);
        let c = chunks_from(n, from);
        assert(c.skip(1) =~= chunks_from(n, from + t));
    }
}

/// The chunks of a batch.
pub fn forward_chunks(n: usize) -> (r: Vec<Step>)
    ensures
        r@ == chunks_from(n as int, 0),
        forward::covers(r@, 0, n as int),
{
    let mut out: Vec<Step> = Vec::new();
    let mut c: usize = 0;
    let ghost all = chunks_from(n as int, 0);
    while c < n
        invariant
            c <= n,
            all == out@ + chunks_from(n as int, c as int),
        decreases n - c,
    {
        let t: usize = if n - c < 16 {
            n - c
        } else {
            16
        };
        let ghost before = out@;
        let ghost rest = chunks_from(n as int, c + t);
        out.push(Step { from: c, t: t as u32 });
        assert(out@ + rest =~= before + (seq![Step { from: c, t: t as u32 }] + rest));
        c = c + t;
    }
    assert(out@ =~= all);
    proof {
        law_chunks(n as int, 0);
    }
    out
}

/// Launches the embedding of a chunk.
pub fn enter(p: &mut Program<Buf, Kernel>, s: &Shape, st: &Step)
    requires
        st.from <= u32::MAX,
    ensures
        final(p).store()[Buf::Cur] == forward::embedded(*s, *st),
        forall|b: Buf|
            b != Buf::Tok && b != Buf::Cur ==> #[trigger] final(p).store()[b] == old(p).store()[b],
{
    p.op0(Kernel::WriteTokens { from: st.from as u32, t: st.t }, Buf::Tok);
    p.op1(Kernel::Embed { n_embd: s.n_embd, n_vocab: s.n_vocab, t: st.t }, Buf::Cur, Buf::Tok);
}

/// The logits of the last `k` of `t` tokens that leave the residual stream `x`.
pub open spec fn logits(s: Shape, t: u32, k: u32, x: Term<Buf, Kernel>) -> Term<Buf, Kernel> {
    program::ap1(
        Kernel::Head { rows: k },
        program::ap1(
            Kernel::RmsNorm { w: Weight::OutputNorm, width: s.n_embd, rows: k },
            program::ap1(Kernel::Rows { from: (t - k) as u32, rows: k, n: s.n_embd }, x),
        ),
    )
}

/// Launches the output head over the last `rows` tokens of the last chunk, of `t` tokens.
pub fn finish(p: &mut Program<Buf, Kernel>, s: &Shape, t: u32, rows: u32) -> (r: Result<(), String>)
    requires
        rows > 0,
    ensures
        match r {
            Ok(()) => {
                let st = old(p).store();
                let end = final(p).store();
                &&& rows <= t
                &&& end[Buf::Logits] == logits(*s, t, rows, st[Buf::Cur])
                &&& forall|b: Buf|
                    b != Buf::LastRow && b != Buf::Normed && b != Buf::Logits
                        ==> #[trigger] end[b] == st[b]
            },
            Err(e) => rows > t && e@ == "qwen35: rows exceeds the final chunk"@ && *final(p)
                == *old(p),
        },
{
    if rows > t {
        return Err(owned("qwen35: rows exceeds the final chunk"));
    }
    p.op1(Kernel::Rows { from: t - rows, rows, n: s.n_embd }, Buf::LastRow, Buf::Cur);
    p.op1(
        Kernel::RmsNorm { w: Weight::OutputNorm, width: s.n_embd, rows },
        Buf::Normed,
        Buf::LastRow,
    );
    p.op1(Kernel::Head { rows }, Buf::Logits, Buf::Normed);
    Ok(())
}

} // verus!
