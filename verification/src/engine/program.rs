//! Programs of device kernels and what they compute.
//!
//! A program is a list of kernel launches on named buffers. Its meaning is symbolic: each buffer
//! holds a term that says which kernel wrote it last and on which contents. Two programs that leave
//! the same term in a buffer compute the same thing there, whatever scratch they went through.
use vstd::prelude::*;

verus! {

/// What a buffer holds: what it held before the program, or part `part` of what kernel `f` wrote
/// when its operands held `args`.
pub enum Term<B, K> {
    Init(B),
    App { f: K, part: nat, args: Seq<Term<B, K>> },
}

/// One kernel launch, or a copy of a whole operand.
pub struct Step<B, K> {
    pub f: K,
    pub copy: bool,
    pub dsts: Seq<B>,
    pub args: Seq<B>,
}

/// One kernel launch, or a copy of a whole operand.
pub struct Op<B, K> {
    pub f: K,
    /// The destination takes over what the operand holds.
    pub copy: bool,
    /// The buffers it writes.
    pub dsts: Vec<B>,
    /// The buffers it reads.
    pub args: Vec<B>,
}

impl<B, K> View for Op<B, K> {
    type V = Step<B, K>;

    open spec fn view(&self) -> Step<B, K> {
        Step { f: self.f, copy: self.copy, dsts: self.dsts@, args: self.args@ }
    }
}

/// Contents of the buffers once the first `n` destinations are written.
pub open spec fn written<B, K>(
    st: Map<B, Term<B, K>>,
    f: K,
    dsts: Seq<B>,
    args: Seq<Term<B, K>>,
    n: nat,
) -> Map<B, Term<B, K>>
    decreases n,
{
    if n == 0 {
        st
    } else {
        let k = (n - 1) as nat;
        written(st, f, dsts, args, k).insert(dsts[k as int], Term::App { f, part: k, args })
    }
}

/// The contents of a list of buffers.
pub open spec fn contents<B, K>(st: Map<B, Term<B, K>>, args: Seq<B>) -> Seq<Term<B, K>> {
    args.map_values(|b: B| st[b])
}

/// What a launch makes of the buffers.
pub open spec fn run_step<B, K>(st: Map<B, Term<B, K>>, s: Step<B, K>) -> Map<B, Term<B, K>> {
    if s.copy {
        st.insert(s.dsts[0], st[s.args[0]])
    } else {
        written(st, s.f, s.dsts, contents(st, s.args), s.dsts.len())
    }
}

/// What a list of launches makes of the buffers.
pub open spec fn run<B, K>(st: Map<B, Term<B, K>>, steps: Seq<Step<B, K>>) -> Map<B, Term<B, K>>
    decreases steps.len(),
{
    if steps.len() == 0 {
        st
    } else {
        run_step(run(st, steps.drop_last()), steps.last())
    }
}

/// Every buffer holds what it held before.
pub open spec fn untouched<B, K>() -> Map<B, Term<B, K>> {
    Map::new(|b: B| true, |b: B| Term::Init(b))
}

/// The first part of what a kernel writes.
pub open spec fn ap<B, K>(f: K, args: Seq<Term<B, K>>) -> Term<B, K> {
    Term::App { f, part: 0, args }
}

/// What a kernel writes on one operand.
pub open spec fn ap1<B, K>(f: K, a: Term<B, K>) -> Term<B, K> {
    ap(f, seq![a])
}

/// What a kernel writes on two operands.
pub open spec fn ap2<B, K>(f: K, a: Term<B, K>, b: Term<B, K>) -> Term<B, K> {
    ap(f, seq![a, b])
}

/// What a kernel writes on three operands.
pub open spec fn ap3<B, K>(f: K, a: Term<B, K>, b: Term<B, K>, c: Term<B, K>) -> Term<B, K> {
    ap(f, seq![a, b, c])
}

/// A growing list of launches.
pub struct Program<B, K> {
    pub ops: Vec<Op<B, K>>,
}

/// The launches of a list.
pub open spec fn steps<B, K>(ops: Seq<Op<B, K>>) -> Seq<Step<B, K>> {
    ops.map_values(|o: Op<B, K>| o@)
}

impl<B, K> View for Program<B, K> {
    type V = Seq<Step<B, K>>;

    open spec fn view(&self) -> Seq<Step<B, K>> {
        steps(self.ops@)
    }
}

impl<B: Copy, K: Copy> Program<B, K> {
    /// What the buffers hold at the end of the program.
    pub open spec fn store(self) -> Map<B, Term<B, K>> {
        run(untouched(), self@)
    }

    pub fn new() -> (r: Program<B, K>)
        ensures
            r@ == Seq::<Step<B, K>>::empty(),
            r.store() == untouched::<B, K>(),
    {
        let r = Program { ops: Vec::new() };
        assert(r@ =~= Seq::<Step<B, K>>::empty());
        r
    }

    /// Appends a launch.
    pub fn emit(&mut self, f: K, dsts: Vec<B>, args: Vec<B>)
        ensures
            final(self)@ == old(self)@.push(Step { f, copy: false, dsts: dsts@, args: args@ }),
            final(self).store() == run_step(
                old(self).store(),
                Step { f, copy: false, dsts: dsts@, args: args@ },
            ),
    {
        let ghost s = Step { f, copy: false, dsts: dsts@, args: args@ };
        let ghost before = self@;
        self.ops.push(Op { f, copy: false, dsts, args });
        assert(self@ =~= before.push(s));
        assert(self@.drop_last() =~= before);
    }

    /// A copy of a whole operand.
    pub fn copy(&mut self, f: K, dst: B, src: B)
        ensures
            final(self)@ == old(self)@.push(
                Step { f, copy: true, dsts: seq![dst], args: seq![src] },
            ),
            final(self).store() == old(self).store().insert(dst, old(self).store()[src]),
    {
        let mut d: Vec<B> = Vec::new();
        d.push(dst);
        let mut v: Vec<B> = Vec::new();
        v.push(src);
        let ghost s = Step { f, copy: true, dsts: seq![dst], args: seq![src] };
        let ghost before = self@;
        assert(d@ =~= seq![dst]);
        assert(v@ =~= seq![src]);
        self.ops.push(Op { f, copy: true, dsts: d, args: v });
        assert(self@ =~= before.push(s));
        assert(self@.drop_last() =~= before);
    }

    /// A launch without operands.
    pub fn op0(&mut self, f: K, dst: B)
        ensures
            final(self)@ == old(self)@.push(
                Step { f, copy: false, dsts: seq![dst], args: Seq::<B>::empty() },
            ),
            final(self).store() == old(self).store().insert(
                dst,
                ap(f, Seq::<Term<B, K>>::empty()),
            ),
    {
        let ghost st = self.store();
        let mut d: Vec<B> = Vec::new();
        d.push(dst);
        let a: Vec<B> = Vec::new();
        assert(d@ =~= seq![dst]);
        assert(a@ =~= Seq::<B>::empty());
        assert(contents(st, a@) =~= Seq::<Term<B, K>>::empty());
        proof {
            reveal_with_fuel(written, 2);
        }
        self.emit(f, d, a);
    }

    /// A launch on one operand.
    pub fn op1(&mut self, f: K, dst: B, a: B)
        ensures
            final(self)@ == old(self)@.push(Step { f, copy: false, dsts: seq![dst], args: seq![a] }),
            final(self).store() == old(self).store().insert(dst, ap1(f, old(self).store()[a])),
    {
        let ghost st = self.store();
        let mut d: Vec<B> = Vec::new();
        d.push(dst);
        let mut v: Vec<B> = Vec::new();
        v.push(a);
        assert(d@ =~= seq![dst]);
        assert(v@ =~= seq![a]);
        assert(contents(st, v@) =~= seq![st[a]]);
        proof {
            reveal_with_fuel(written, 2);
        }
        self.emit(f, d, v);
    }

    /// A launch on two operands.
    pub fn op2(&mut self, f: K, dst: B, a: B, b: B)
        ensures
            final(self)@ == old(self)@.push(Step { f, copy: false, dsts: seq![dst], args: seq![a, b] }),
            final(self).store() == old(self).store().insert(
                dst,
                ap2(f, old(self).store()[a], old(self).store()[b]),
            ),
    {
        let ghost st = self.store();
        let mut d: Vec<B> = Vec::new();
        d.push(dst);
        let mut v: Vec<B> = Vec::new();
        v.push(a);
        v.push(b);
        assert(d@ =~= seq![dst]);
        assert(v@ =~= seq![a, b]);
        assert(contents(st, v@) =~= seq![st[a], st[b]]);
        proof {
            reveal_with_fuel(written, 2);
        }
        self.emit(f, d, v);
    }

    /// A launch on three operands.
    pub fn op3(&mut self, f: K, dst: B, a: B, b: B, c: B)
        ensures
            final(self)@ == old(self)@.push(Step { f, copy: false, dsts: seq![dst], args: seq![a, b, c] }),
            final(self).store() == old(self).store().insert(
                dst,
                ap3(f, old(self).store()[a], old(self).store()[b], old(self).store()[c]),
            ),
    {
        let ghost st = self.store();
        let mut d: Vec<B> = Vec::new();
        d.push(dst);
        let mut v: Vec<B> = Vec::new();
        v.push(a);
        v.push(b);
        v.push(c);
        assert(d@ =~= seq![dst]);
        assert(v@ =~= seq![a, b, c]);
        assert(contents(st, v@) =~= seq![st[a], st[b], st[c]]);
        proof {
            reveal_with_fuel(written, 2);
        }
        self.emit(f, d, v);
    }

    /// A launch on a list of operands.
    pub fn op_list(&mut self, f: K, dst: B, args: Vec<B>)
        ensures
            final(self)@ == old(self)@.push(
                Step { f, copy: false, dsts: seq![dst], args: args@ },
            ),
            final(self).store() == old(self).store().insert(
                dst,
                ap(f, contents(old(self).store(), args@)),
            ),
    {
        let mut d: Vec<B> = Vec::new();
        d.push(dst);
        assert(d@ =~= seq![dst]);
        proof {
            reveal_with_fuel(written, 2);
        }
        self.emit(f, d, args);
    }

    /// A launch with two results.
    pub fn op_pair(&mut self, f: K, d0: B, d1: B, args: Vec<B>)
        requires
            d0 != d1,
        ensures
            final(self)@ == old(self)@.push(Step { f, copy: false, dsts: seq![d0, d1], args: args@ }),
            ({
                let a = contents(old(self).store(), args@);
                final(self).store() == old(self).store().insert(
                    d0,
                    Term::App { f, part: 0, args: a },
                ).insert(d1, Term::App { f, part: 1, args: a })
            }),
    {
        let mut d: Vec<B> = Vec::new();
        d.push(d0);
        d.push(d1);
        assert(d@ =~= seq![d0, d1]);
        proof {
            reveal_with_fuel(written, 3);
        }
        self.emit(f, d, args);
    }

    /// A launch with three results.
    pub fn op_triple(&mut self, f: K, d0: B, d1: B, d2: B, args: Vec<B>)
        requires
            d0 != d1 && d0 != d2 && d1 != d2,
        ensures
            final(self)@ == old(self)@.push(Step { f, copy: false, dsts: seq![d0, d1, d2], args: args@ }),
            ({
                let a = contents(old(self).store(), args@);
                final(self).store() == old(self).store().insert(
                    d0,
                    Term::App { f, part: 0, args: a },
                ).insert(d1, Term::App { f, part: 1, args: a }).insert(
                    d2,
                    Term::App { f, part: 2, args: a },
                )
            }),
    {
        let mut d: Vec<B> = Vec::new();
        d.push(d0);
        d.push(d1);
        d.push(d2);
        assert(d@ =~= seq![d0, d1, d2]);
        proof {
            reveal_with_fuel(written, 4);
        }
        self.emit(f, d, args);
    }
}

/// A buffer that no launch writes keeps its contents.
pub proof fn law_frame<B, K>(st: Map<B, Term<B, K>>, steps: Seq<Step<B, K>>, b: B)
    requires
        forall|i: int|
            0 <= i < steps.len() ==> !(#[trigger] steps[i]).dsts.contains(b) && steps[i].dsts.len()
                > 0,
    ensures
        run(st, steps)[b] == st[b],
    decreases steps.len(),
{
    if steps.len() > 0 {
        let t = steps.drop_last();
        assert forall|i: int| 0 <= i < t.len() implies !(#[trigger] t[i]).dsts.contains(b)
            && t[i].dsts.len() > 0 by {
            assert(!steps[i].dsts.contains(b));
        }
        law_frame(st, t, b);
        let s = steps.last();
        assert(!steps[steps.len() - 1].dsts.contains(b));
        assert(s.dsts[0] != b);
        lemma_written_frame(
            run(st, t),
            s.f,
            s.dsts,
            contents(run(st, t), s.args),
            s.dsts.len(),
            b,
        );
    }
}

proof fn lemma_written_frame<B, K>(
    st: Map<B, Term<B, K>>,
    f: K,
    dsts: Seq<B>,
    args: Seq<Term<B, K>>,
    n: nat,
    b: B,
)
    requires
        n <= dsts.len(),
        !dsts.contains(b),
    ensures
        written(st, f, dsts, args, n)[b] == st[b],
    decreases n,
{
    if n > 0 {
        lemma_written_frame(st, f, dsts, args, (n - 1) as nat, b);
        assert(dsts[n - 1] != b);
    }
}

/// Running two lists one after the other is running the joined list.
pub proof fn law_run_append<B, K>(
    st: Map<B, Term<B, K>>,
    a: Seq<Step<B, K>>,
    b: Seq<Step<B, K>>,
)
    ensures
        run(st, a + b) == run(run(st, a), b),
    decreases b.len(),
{
    if b.len() == 0 {
        assert(a + b =~= a);
    } else {
        law_run_append(st, a, b.drop_last());
        assert((a + b).drop_last() =~= a + b.drop_last());
    }
}

} // verus!
