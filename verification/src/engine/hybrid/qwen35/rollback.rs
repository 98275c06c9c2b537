//! Recurrent states around a verification: kept before it, and rolled back to what was accepted.
use vstd::prelude::*;

use super::layer;
use super::layer::{recur, LayerW};
use crate::engine::hybrid::kernels::{Buf, Kernel};
use crate::engine::hybrid::shape::Shape;
use crate::engine::program::{Program, Term};
use crate::text::owned;

verus! {

/// Layer `il`, among the first `n`, has a state.
pub open spec fn stateful(states: Seq<bool>, n: int, il: u32) -> bool {
    il < n && states[il as int]
}

/// Clears the states of the layers that have one, at the start of a sequence.
pub fn reset(p: &mut Program<Buf, Kernel>, states: &Vec<bool>, state: u64, window: u64)
    requires
        states@.len() <= u32::MAX,
    ensures
        forall|il: u32| #[trigger]
            final(p).store()[Buf::GdnS(il)] == if stateful(
                states@,
                states@.len() as int,
                il,
            ) {
                cleared(state)
            } else {
                old(p).store()[Buf::GdnS(il)]
            },
        forall|il: u32| #[trigger]
            final(p).store()[Buf::GdnConv(il)] == if stateful(
                states@,
                states@.len() as int,
                il,
            ) {
                cleared(window)
            } else {
                old(p).store()[Buf::GdnConv(il)]
            },
        forall|b: Buf|
            !(b is GdnS) && !(b is GdnConv) ==> #[trigger] final(p).store()[b] == old(p).store()[b],
{
    let ghost st = p.store();
    let n: usize = states.len();
    let mut i: usize = 0;
    while i < n
        invariant
            i <= n,
            n == states@.len() <= u32::MAX,
            forall|il: u32| #[trigger]
                p.store()[Buf::GdnS(il)] == if stateful(states@, i as int, il) {
                    cleared(state)
                } else {
                    st[Buf::GdnS(il)]
                },
            forall|il: u32| #[trigger]
                p.store()[Buf::GdnConv(il)] == if stateful(states@, i as int, il) {
                    cleared(window)
                } else {
                    st[Buf::GdnConv(il)]
                },
            forall|b: Buf|
                !(b is GdnS) && !(b is GdnConv) ==> #[trigger] p.store()[b] == st[b],
        decreases n - i,
    {
        if states[i] {
            p.op0(Kernel::Zero { count: state }, Buf::GdnS(i as u32));
            p.op0(Kernel::Zero { count: window }, Buf::GdnConv(i as u32));
        }
        i = i + 1;
    }
}

/// A cleared buffer of `n` elements.
pub open spec fn cleared(n: u64) -> Term<Buf, Kernel> {
    Term::App { f: Kernel::Zero { count: n }, part: 0, args: Seq::empty() }
}

/// From `st` to `end` the states of the layers that have one are kept, and nothing else changes.
pub open spec fn keeps(
    states: Seq<bool>,
    st: Map<Buf, Term<Buf, Kernel>>,
    end: Map<Buf, Term<Buf, Kernel>>,
) -> bool {
    &&& forall|il: u32| #[trigger]
        end[Buf::SnapS(il)] == if stateful(states, states.len() as int, il) {
            st[Buf::GdnS(il)]
        } else {
            st[Buf::SnapS(il)]
        }
    &&& forall|il: u32| #[trigger]
        end[Buf::SnapConv(il)] == if stateful(states, states.len() as int, il) {
            st[Buf::GdnConv(il)]
        } else {
            st[Buf::SnapConv(il)]
        }
    &&& forall|b: Buf| !(b is SnapS) && !(b is SnapConv) ==> #[trigger] end[b] == st[b]
}

/// Keeps the states of the layers that have one.
pub fn snapshot(
    p: &mut Program<Buf, Kernel>,
    states: &Vec<bool>,
    state: u64,
    window: u64,
    enabled: bool,
) -> (r: Result<(), String>)
    requires
        states@.len() <= u32::MAX,
    ensures
        r is Ok <==> enabled,
        r matches Err(e) ==> e@ == "dflash not enabled"@ && *final(p) == *old(p),
        r is Ok ==> keeps(states@, old(p).store(), final(p).store()),
{
    if !enabled {
        return Err(owned("dflash not enabled"));
    }
    let ghost st = p.store();
    let n: usize = states.len();
    let mut i: usize = 0;
    while i < n
        invariant
            i <= n,
            n == states@.len() <= u32::MAX,
            forall|il: u32| #[trigger]
                p.store()[Buf::SnapS(il)] == if stateful(states@, i as int, il) {
                    st[Buf::GdnS(il)]
                } else {
                    st[Buf::SnapS(il)]
                },
            forall|il: u32| #[trigger]
                p.store()[Buf::SnapConv(il)] == if stateful(states@, i as int, il) {
                    st[Buf::GdnConv(il)]
                } else {
                    st[Buf::SnapConv(il)]
                },
            forall|b: Buf|
                !(b is SnapS) && !(b is SnapConv) ==> #[trigger] p.store()[b] == st[b],
        decreases n - i,
    {
        if states[i] {
            p.copy(Kernel::Copy { count: state }, Buf::SnapS(i as u32), Buf::GdnS(i as u32));
            p.copy(Kernel::Copy { count: window }, Buf::SnapConv(i as u32), Buf::GdnConv(i as u32));
        }
        i = i + 1;
    }
    Ok(())
}

/// From `st` to `end` the kept states are put back, and nothing else changes.
pub open spec fn puts_back(
    states: Seq<bool>,
    st: Map<Buf, Term<Buf, Kernel>>,
    end: Map<Buf, Term<Buf, Kernel>>,
) -> bool {
    &&& forall|il: u32| #[trigger]
        end[Buf::GdnS(il)] == if stateful(states, states.len() as int, il) {
            st[Buf::SnapS(il)]
        } else {
            st[Buf::GdnS(il)]
        }
    &&& forall|il: u32| #[trigger]
        end[Buf::GdnConv(il)] == if stateful(states, states.len() as int, il) {
            st[Buf::SnapConv(il)]
        } else {
            st[Buf::GdnConv(il)]
        }
    &&& forall|b: Buf| !(b is GdnS) && !(b is GdnConv) ==> #[trigger] end[b] == st[b]
}

/// Puts the kept states back.
pub fn restore(
    p: &mut Program<Buf, Kernel>,
    states: &Vec<bool>,
    state: u64,
    window: u64,
    enabled: bool,
) -> (r: Result<(), String>)
    requires
        states@.len() <= u32::MAX,
    ensures
        r is Ok <==> enabled,
        r matches Err(e) ==> e@ == "dflash not enabled"@ && *final(p) == *old(p),
        r is Ok ==> puts_back(states@, old(p).store(), final(p).store()),
{
    if !enabled {
        return Err(owned("dflash not enabled"));
    }
    let ghost st = p.store();
    let n: usize = states.len();
    let mut i: usize = 0;
    while i < n
        invariant
            i <= n,
            n == states@.len() <= u32::MAX,
            forall|il: u32| #[trigger]
                p.store()[Buf::GdnS(il)] == if stateful(states@, i as int, il) {
                    st[Buf::SnapS(il)]
                } else {
                    st[Buf::GdnS(il)]
                },
            forall|il: u32| #[trigger]
                p.store()[Buf::GdnConv(il)] == if stateful(states@, i as int, il) {
                    st[Buf::SnapConv(il)]
                } else {
                    st[Buf::GdnConv(il)]
                },
            forall|b: Buf|
                !(b is GdnS) && !(b is GdnConv) ==> #[trigger] p.store()[b] == st[b],
        decreases n - i,
    {
        if states[i] {
            p.copy(Kernel::Copy { count: state }, Buf::GdnS(i as u32), Buf::SnapS(i as u32));
            p.copy(Kernel::Copy { count: window }, Buf::GdnConv(i as u32), Buf::SnapConv(i as u32));
        }
        i = i + 1;
    }
    Ok(())
}

/// Whatever runs between, as long as it leaves the kept states alone: putting them back undoes it
/// for every layer that has a state.
pub proof fn law_restore(
    states: Seq<bool>,
    before: Map<Buf, Term<Buf, Kernel>>,
    kept: Map<Buf, Term<Buf, Kernel>>,
    later: Map<Buf, Term<Buf, Kernel>>,
    end: Map<Buf, Term<Buf, Kernel>>,
    il: u32,
)
    requires
        keeps(states, before, kept),
        later[Buf::SnapS(il)] == kept[Buf::SnapS(il)],
        later[Buf::SnapConv(il)] == kept[Buf::SnapConv(il)],
        puts_back(states, later, end),
        stateful(states, states.len() as int, il),
    ensures
        end[Buf::GdnS(il)] == before[Buf::GdnS(il)],
        end[Buf::GdnConv(il)] == before[Buf::GdnConv(il)],
{
}

/// Why the accepted tokens cannot be replayed, over the first `n` layers.
pub open spec fn rollback_fault(
    states: Seq<bool>,
    layers: Seq<LayerW>,
    accept: u32,
    n: int,
) -> Option<Seq<char>>
    decreases n,
{
    if n <= 0 {
        None
    } else {
        match rollback_fault(states, layers, accept, n - 1) {
            Some(e) => Some(e),
            None => if !states[n - 1] || accept == 0 {
                None
            } else {
                match layers[n - 1].attn {
                    None => Some("qwen35 layer expected"@),
                    Some(w) => if w.gdn {
                        None
                    } else {
                        Some("gdn weights missing"@)
                    },
                }
            },
        }
    }
}

/// The delta-rule state of a layer once `accept` tokens of a verification are replayed on what was
/// kept before it.
pub open spec fn rolled_state(s: Shape, il: u32, accept: u32, st: Map<Buf, Term<Buf, Kernel>>) -> Term<
    Buf,
    Kernel,
> {
    if accept == 0 {
        st[Buf::SnapS(il)]
    } else {
        layer::delta(
            s,
            il,
            accept,
            st[Buf::StashQkv(il)],
            st[Buf::StashG(il)],
            st[Buf::StashBeta(il)],
            st[Buf::SnapConv(il)],
            st[Buf::SnapS(il)],
            1,
        )
    }
}

/// The convolution window of a layer once `accept` tokens of a verification are replayed.
pub open spec fn rolled_window(
    s: Shape,
    il: u32,
    accept: u32,
    st: Map<Buf, Term<Buf, Kernel>>,
) -> Term<Buf, Kernel> {
    if accept == 0 {
        st[Buf::SnapConv(il)]
    } else {
        layer::convolved(s, il, accept, st[Buf::StashQkv(il)], st[Buf::SnapConv(il)], 1)
    }
}

/// The buffers that a replay writes.
pub open spec fn rollback_writes(b: Buf) -> bool {
    b is GdnS || b is GdnConv || b == Buf::ConvOut || b == Buf::Gq || b == Buf::Gk || b == Buf::Gv
        || b == Buf::GdnO
}

/// What a replay that failed leaves behind. Up to the layer at which it failed the states are
/// replayed; that layer has back what was kept before the verification; the layers behind it are
/// as they were.
pub open spec fn rollback_stopped(
    s: Shape,
    states: Seq<bool>,
    layers: Seq<LayerW>,
    accept: u32,
    st: Map<Buf, Term<Buf, Kernel>>,
    end: Map<Buf, Term<Buf, Kernel>>,
) -> bool {
    let n = states.len() as int;
    &&& forall|il: u32| #[trigger]
        end[Buf::GdnS(il)] == if !stateful(states, n, il) || rollback_fault(
            states,
            layers,
            accept,
            il as int,
        ) is Some {
            st[Buf::GdnS(il)]
        } else if rollback_fault(states, layers, accept, il + 1) is Some {
            st[Buf::SnapS(il)]
        } else {
            rolled_state(s, il, accept, st)
        }
    &&& forall|il: u32| #[trigger]
        end[Buf::GdnConv(il)] == if !stateful(states, n, il) || rollback_fault(
            states,
            layers,
            accept,
            il as int,
        ) is Some {
            st[Buf::GdnConv(il)]
        } else if rollback_fault(states, layers, accept, il + 1) is Some {
            st[Buf::SnapConv(il)]
        } else {
            rolled_window(s, il, accept, st)
        }
}

/// Puts the kept states back and replays the accepted tokens from their kept inputs: convolution and
/// delta rule, and nothing else.
pub fn rollback_to(
    p: &mut Program<Buf, Kernel>,
    s: &Shape,
    states: &Vec<bool>,
    layers: &Vec<LayerW>,
    accept: u32,
    state: u64,
    window: u64,
    enabled: bool,
) -> (r: Result<(), String>)
    requires
        s.wf_delta(),
        accept <= 16,
        states@.len() <= layers@.len() <= u32::MAX,
    ensures
        ({
            let fault = if enabled {
                rollback_fault(states@, layers@, accept, states@.len() as int)
            } else {
                Some("dflash not enabled"@)
            };
            &&& r is Ok <==> fault is None
            &&& r matches Err(e) ==> fault == Some(e@)
        }),
        r is Ok ==> {
            let st = old(p).store();
            let end = final(p).store();
            &&& forall|il: u32| #[trigger]
                end[Buf::GdnS(il)] == if stateful(states@, states@.len() as int, il) {
                    rolled_state(*s, il, accept, st)
                } else {
                    st[Buf::GdnS(il)]
                }
            &&& forall|il: u32| #[trigger]
                end[Buf::GdnConv(il)] == if stateful(states@, states@.len() as int, il) {
                    rolled_window(*s, il, accept, st)
                } else {
                    st[Buf::GdnConv(il)]
                }
        },
        !enabled ==> *final(p) == *old(p),
        enabled && r is Err ==> rollback_stopped(
            *s,
            states@,
            layers@,
            accept,
            old(p).store(),
            final(p).store(),
        ),
        forall|b: Buf| !rollback_writes(b) ==> #[trigger] final(p).store()[b] == old(p).store()[b],
{
    if !enabled {
        return Err(owned("dflash not enabled"));
    }
    let ghost st = p.store();
    let n: usize = states.len();
    let mut i: usize = 0;
    while i < n
        invariant
            i <= n,
            n == states@.len() <= layers@.len() <= u32::MAX,
            s.wf_delta(),
            accept <= 16,
            enabled,
            st == old(p).store(),
            rollback_fault(states@, layers@, accept, i as int) is None,
            forall|il: u32| #[trigger]
                p.store()[Buf::GdnS(il)] == if stateful(states@, i as int, il) {
                    rolled_state(*s, il, accept, st)
                } else {
                    st[Buf::GdnS(il)]
                },
            forall|il: u32| #[trigger]
                p.store()[Buf::GdnConv(il)] == if stateful(states@, i as int, il) {
                    rolled_window(*s, il, accept, st)
                } else {
                    st[Buf::GdnConv(il)]
                },
            forall|b: Buf| !rollback_writes(b) ==> #[trigger] p.store()[b] == st[b],
        decreases n - i,
    {
        if states[i] {
            let il: u32 = i as u32;
            p.copy(Kernel::Copy { count: state }, Buf::GdnS(il), Buf::SnapS(il));
            p.copy(Kernel::Copy { count: window }, Buf::GdnConv(il), Buf::SnapConv(il));
            if accept > 0 {
                let fault: Option<&str> = match layers[i].attn {
                    None => Some("qwen35 layer expected"),
                    Some(w) => if w.gdn {
                        None
                    } else {
                        Some("gdn weights missing")
                    },
                };
                match fault {
                    Some(m) => {
                        proof {
                            lemma_fault_stays(
                                states@,
                                layers@,
                                accept,
                                i + 1,
                                n as int,
                            );
                            assert forall|j: int| 0 <= j <= n implies #[trigger] rollback_fault(
                                states@,
                                layers@,
                                accept,
                                j,
                            ) is Some == (j > i) by {
                                if j > i {
                                    lemma_fault_stays(states@, layers@, accept, i + 1, j);
                                } else if rollback_fault(states@, layers@, accept, j) is Some {
                                    lemma_fault_stays(states@, layers@, accept, j, i as int);
                                }
                            }
                        }
                        return Err(owned(m));
                    },
                    None => {},
                }
                recur(
                    p,
                    s,
                    il,
                    accept,
                    Buf::StashQkv(il),
                    Buf::StashG(il),
                    Buf::StashBeta(il),
                );
            }
        }
        i = i + 1;
    }
    Ok(())
}

proof fn lemma_fault_stays(states: Seq<bool>, layers: Seq<LayerW>, accept: u32, i: int, n: int)
    requires
        0 <= i <= n,
        rollback_fault(states, layers, accept, i) is Some,
    ensures
        rollback_fault(states, layers, accept, n) == rollback_fault(states, layers, accept, i),
    decreases n - i,
{
    if i < n {
        lemma_fault_stays(states, layers, accept, i, n - 1);
    }
}

/// Where all tokens of a verification are accepted, the replay leaves a layer in the state in which
/// the verification left it: what was kept and what was stashed is all that the state rests on.
pub proof fn law_full_accept(
    s: Shape,
    a: layer::At,
    y: Term<Buf, Kernel>,
    before: Map<Buf, Term<Buf, Kernel>>,
    st: Map<Buf, Term<Buf, Kernel>>,
)
    requires
        a.t > 0,
        st[Buf::SnapS(a.il)] == before[Buf::GdnS(a.il)],
        st[Buf::SnapConv(a.il)] == before[Buf::GdnConv(a.il)],
        st[Buf::StashQkv(a.il)] == layer::raw_qkv(s, a, y),
        st[Buf::StashG(a.il)] == layer::coefficient(s, a, y, 0),
        st[Buf::StashBeta(a.il)] == layer::coefficient(s, a, y, 1),
        st[Buf::GdnConv(a.il)] == layer::convolved(
            s,
            a.il,
            a.t,
            layer::raw_qkv(s, a, y),
            before[Buf::GdnConv(a.il)],
            1,
        ),
        st[Buf::GdnS(a.il)] == layer::delta(
            s,
            a.il,
            a.t,
            layer::raw_qkv(s, a, y),
            layer::coefficient(s, a, y, 0),
            layer::coefficient(s, a, y, 1),
            before[Buf::GdnConv(a.il)],
            before[Buf::GdnS(a.il)],
            1,
        ),
    ensures
        rolled_state(s, a.il, a.t, st) == st[Buf::GdnS(a.il)],
        rolled_window(s, a.il, a.t, st) == st[Buf::GdnConv(a.il)],
{
}

/// Where nothing is accepted, the replay puts back what was kept.
pub proof fn law_nothing_accepted(s: Shape, il: u32, st: Map<Buf, Term<Buf, Kernel>>)
    ensures
        rolled_state(s, il, 0, st) == st[Buf::SnapS(il)],
        rolled_window(s, il, 0, st) == st[Buf::SnapConv(il)],
{
}

} // verus!
