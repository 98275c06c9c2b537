//! Dense feed-forward part of a layer, and the mixture of attention residuals.
use vstd::prelude::*;

use super::dims::K3Shape;
use super::kda;
use super::kda::{matmul, project};
use super::kernels::{Buf, Kernel, Weight};
use super::layer::KimiK3W;
use super::runtime;
use super::weights;
use crate::engine::program;
use crate::engine::program::{Program, Term};
use crate::text::owned;

verus! {

/// The first weight that a dense feed-forward part lacks.
pub open spec fn dense_lacks(w: KimiK3W) -> Option<Seq<char>> {
    if w.ffn_gate is None {
        Some("dense FFN layer missing ffn_gate"@)
    } else if w.ffn_up is None {
        Some("dense FFN layer missing ffn_up"@)
    } else if w.ffn_down is None {
        Some("dense FFN layer missing ffn_down"@)
    } else {
        None
    }
}

/// Why a dense feed-forward part cannot run.
pub open spec fn dense_fault(w: KimiK3W) -> Option<Seq<char>> {
    if dense_lacks(w) is Some {
        dense_lacks(w)
    } else if !weights::is_direct(w.ffn_gate->0.quant) {
        Some(weights::not_direct_text(w.ffn_gate->0.quant))
    } else if !weights::is_direct(w.ffn_up->0.quant) {
        Some(weights::not_direct_text(w.ffn_up->0.quant))
    } else {
        None
    }
}

/// The output of a dense feed-forward part on `x`.
pub open spec fn dense_output(s: K3Shape, il: u32, x: Term<Buf, Kernel>) -> Term<Buf, Kernel> {
    let n = s.n_ff_dense;
    program::ap1(
        Kernel::Matmul { w: Weight::FfnDown(il), n_in: n, n_out: s.n_embd },
        program::ap2(
            Kernel::SituGlu { n },
            kda::projected(x, Weight::FfnGate(il), s.n_embd, n as int),
            kda::projected(x, Weight::FfnUp(il), s.n_embd, n as int),
        ),
    )
}

/// The buffers that a dense feed-forward part writes.
pub open spec fn dense_writes(b: Buf) -> bool {
    b == Buf::Q8k || b == Buf::DenseGate || b == Buf::DenseUp || b == Buf::DenseMid || b
        == Buf::FfnOut
}

/// Dense feed-forward part of layer `il`.
pub fn dense_ffn_forward(
    p: &mut Program<Buf, Kernel>,
    s: &K3Shape,
    w: &KimiK3W,
    il: u32,
) -> (r: Result<(), String>)
    ensures
        r is Ok <==> dense_fault(*w) is None,
        r matches Err(e) ==> dense_fault(*w) == Some(e@),
        runtime::roomy(*s) && runtime::all_fit(*s, old(p)@) ==> runtime::all_fit(*s, final(p)@),
        ({
            let st = old(p).store();
            let end = final(p).store();
            &&& end[Buf::FfnOut] == if r is Ok {
                dense_output(*s, il, st[Buf::FfnInput])
            } else {
                st[Buf::FfnOut]
            }
            &&& forall|b: Buf| !dense_writes(b) ==> #[trigger] end[b] == st[b]
        }),
        dense_lacks(*w) is Some ==> *final(p) == *old(p),
{
    let (g, u) = match (w.ffn_gate, w.ffn_up, w.ffn_down) {
        (None, _, _) => {
            return Err(owned("dense FFN layer missing ffn_gate"));
        },
        (_, None, _) => {
            return Err(owned("dense FFN layer missing ffn_up"));
        },
        (_, _, None) => {
            return Err(owned("dense FFN layer missing ffn_down"));
        },
        (Some(g), Some(u), Some(_)) => (g, u),
    };
    let n: u32 = s.n_ff_dense;
    p.op1(Kernel::QuantizeQ8k { n: s.n_embd }, Buf::Q8k, Buf::FfnInput);
    match project(p, Weight::FfnGate(il), g, Buf::DenseGate, s.n_embd, n) {
        Ok(()) => {},
        Err(e) => {
            return Err(e);
        },
    }
    match project(p, Weight::FfnUp(il), u, Buf::DenseUp, s.n_embd, n) {
        Ok(()) => {},
        Err(e) => {
            return Err(e);
        },
    }
    p.op2(Kernel::SituGlu { n }, Buf::DenseMid, Buf::DenseGate, Buf::DenseUp);
    matmul(p, Weight::FfnDown(il), Buf::FfnOut, Buf::DenseMid, n, s.n_embd);
    Ok(())
}

/// The snapshots and, behind them, the residual stream.
pub open spec fn residual_rows(len: u32) -> Seq<Buf> {
    Seq::new(len as nat, |i: int| Buf::Bank(i as u32)).push(Buf::Cur)
}

/// The mixture of the snapshots and the residual stream; the stream alone where there is none.
pub open spec fn mixed(
    s: K3Shape,
    st: Map<Buf, Term<Buf, Kernel>>,
    len: u32,
    norm: Weight,
    proj: Weight,
) -> Term<Buf, Kernel> {
    if len == 0 {
        st[Buf::Cur]
    } else {
        program::ap(
            Kernel::ResMix { norm, proj, rows: (len + 1) as u32, n: s.n_embd },
            program::contents(st, residual_rows(len)),
        )
    }
}

/// Mixes the snapshots and the residual stream.
pub fn attn_res_mix(p: &mut Program<Buf, Kernel>, s: &K3Shape, len: u32, norm: Weight, proj: Weight)
    requires
        len < u32::MAX,
    ensures
        final(p).store() == old(p).store().insert(
            Buf::MixOut,
            mixed(*s, old(p).store(), len, norm, proj),
        ),
        len <= runtime::bank_rows(*s) && runtime::all_fit(*s, old(p)@) ==> runtime::all_fit(
            *s,
            final(p)@,
        ),
{
    if len == 0 {
        p.copy(Kernel::Copy { n: s.n_embd }, Buf::MixOut, Buf::Cur);
        return;
    }
    let mut rows: Vec<Buf> = Vec::new();
    let mut i: u32 = 0;
    while i < len
        invariant
            i <= len,
            rows@ == Seq::new(i as nat, |k: int| Buf::Bank(k as u32)),
        decreases len - i,
    {
        rows.push(Buf::Bank(i));
        assert(rows@ =~= Seq::new((i + 1) as nat, |k: int| Buf::Bank(k as u32)));
        i = i + 1;
    }
    rows.push(Buf::Cur);
    assert(rows@ =~= residual_rows(len));
    p.op_list(
        Kernel::ResMix { norm, proj, rows: len + 1, n: s.n_embd },
        Buf::MixOut,
        rows,
    );
}

} // verus!
