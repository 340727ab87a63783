use vstd::prelude::*;

verus! {

/// A generator of uniformly distributed 32-bit integers.
///
/// Its state is modelled by its view, which moves by `step` on each draw.
/// Its behaviour is described by the stream of integers that successive
/// draws produce: `output(n)` is the value of the `n`-th draw from this
/// state (counting from zero). The view decides the stream.
pub trait Algorithm: View + Sized {
    /// The state is one that draws can be made from.
    spec fn wf(&self) -> bool;

    /// The integer that the `n`-th draw from this state returns.
    spec fn output(&self, n: nat) -> u32;

    /// The model of the state after one draw from a state with model `v`.
    spec fn step(v: Self::V) -> Self::V;

    /// Generators in the same state give the same stream.
    proof fn lemma_view_decides_output(a: Self, b: Self)
        requires
            a@ == b@,
        ensures
            forall|n: nat| #[trigger] a.output(n) == b.output(n),
    ;

    /// Draws the next integer: the head of the stream, which then moves on
    /// by one, as the state moves on by one step.
    fn get_int(&mut self) -> (r: u32)
        requires
            old(self).wf(),
        ensures
            final(self).wf(),
            r == old(self).output(0),
            forall|n: nat| #[trigger] final(self).output(n) == old(self).output(n + 1),
            final(self)@ == Self::step(old(self)@),
    ;
}

/// The model of the state after `n` draws from a state with model `v`.
pub open spec fn after<A: Algorithm>(v: A::V, n: nat) -> A::V
    decreases n,
{
    if n == 0 {
        v
    } else {
        after::<A>(A::step(v), (n - 1) as nat)
    }
}

/// Drawing `a` times and then `b` times is drawing `a + b` times.
pub proof fn lemma_after_add<A: Algorithm>(v: A::V, a: nat, b: nat)
    ensures
        after::<A>(after::<A>(v, a), b) == after::<A>(v, a + b),
    decreases a,
{
    if a > 0 {
        lemma_after_add::<A>(A::step(v), (a - 1) as nat, b);
    }
}

/// One draw is one step.
pub proof fn lemma_after_one<A: Algorithm>(v: A::V)
    ensures
        after::<A>(v, 1) == A::step(v),
{
    assert(after::<A>(A::step(v), 0) == A::step(v));
}

} // verus!
