//! Running a whole collection of stages in order: each stage of a chain is
//! applied once, its output folded into a state, with the folding function
//! free to stop the run early.

use vstd::prelude::*;

use crate::processed::{done, mismatch, Processed, ProcessingError, Status};
use crate::source::{lemma_upcoming_skip, lossless_source, upcoming, Source};
use crate::Processor;

verus! {

/// The first `i` stages of `ps` all succeeded in order on the items `s`:
/// `n` items were consumed in total, the outputs were folded from `acc0`
/// into `st` (each fold telling the run to go on), the run stages became
/// the first `i` of `ps1`, and the rest stand untouched.
pub open spec fn chain_run<P: Processor<I>, I, F: Fn(ST, P::Output) -> Option<ST>, ST>(
    ps: Seq<P>,
    s: Seq<I>,
    f: F,
    acc0: ST,
    ps1: Seq<P>,
    n: nat,
    i: nat,
    st: ST,
) -> bool
    decreases i,
{
    if i == 0 {
        ps1 == ps && n == 0 && st == acc0
    } else if i > ps.len() {
        false
    } else {
        exists|psm: Seq<P>, m: nat, stm: ST, pj: P, k: nat, o: P::Output|
            #![trigger P::ok_step(psm[i - 1], s.skip(m as int), pj, k, o), call_ensures(f, (stm, o), Some(st))]
            {
                &&& chain_run(ps, s, f, acc0, psm, m, (i - 1) as nat, stm)
                &&& m <= s.len()
                &&& psm[i - 1] == ps[i - 1]
                &&& P::ok_step(psm[i - 1], s.skip(m as int), pj, k, o)
                &&& call_ensures(f, (stm, o), Some(st))
                &&& ps1 == psm.update(i - 1, pj)
                &&& n == m + k
            }
    }
}

/// A growable sequence of stages meant to run back to back.
pub struct Chain<P>(pub Vec<P>);

impl<P> Chain<P> {
    /// A chain of exactly these stages, in order.
    pub fn new(vector: Vec<P>) -> (r: Self)
        ensures
            r.0 == vector,
    {
        Chain(vector)
    }

    /// The chain with one more stage at its end.
    pub fn chain(self, next: P) -> (r: Self)
        ensures
            r.0@ == self.0@.push(next),
    {
        let mut this = self;
        this.push(next);
        this
    }

    /// Append one more stage.
    pub fn push(&mut self, next: P)
        ensures
            final(self).0@ == old(self).0@.push(next),
    {
        self.0.push(next);
    }

    /// Make the chain runnable: each of its stages runs once, in order, and
    /// the outputs are folded into a state, which the folding function may
    /// cut short by returning nothing.
    pub fn fold<A, ST, F, I, O>(self, state: A, fold: F) -> (r: VecFold<F, A, P, ST>) where
        A: Fn() -> ST,
        F: Fn(ST, O) -> Option<ST>,
        P: Processor<I, Output = O>,

        ensures
            r.fold == fold,
            r.state == state,
            r.processors == self.0,
    {
        VecFold { fold, state, processors: self.0, state_marker: core::marker::PhantomData }
    }
}

/// Build a [`Chain`] from a vector of stages.
pub fn chain<P>(processors: Vec<P>) -> (r: Chain<P>)
    ensures
        r.0 == processors,
{
    Chain(processors)
}

/// Runs a whole vector of stages in order, folding each output into a
/// state; the folding function may stop the run early by returning
/// nothing, which makes the overall output empty.
pub struct VecFold<F, A, P, ST> {
    pub fold: F,
    pub state: A,
    pub processors: Vec<P>,
    pub state_marker: core::marker::PhantomData<ST>,
}

impl<F, A, P, ST, I> Processor<I> for VecFold<F, A, P, ST> where
    F: Fn(ST, P::Output) -> Option<ST>,
    A: Fn() -> ST,
    P: Processor<I>,
 {
    type Output = Option<ST>;

    open spec fn inv(&self) -> bool {
        &&& forall|j: int| 0 <= j < self.processors@.len() ==> (#[trigger] self.processors@[j]).inv()
        &&& call_requires(self.state, ())
        &&& forall|st: ST, o: P::Output| #[trigger] call_requires(self.fold, (st, o))
    }

    /// Either every stage ran and every fold said to go on, yielding the
    /// final state, or some fold returned nothing and the run stopped right
    /// there, yielding an empty output with the later stages untouched.
    open spec fn ok_step(pre: Self, s: Seq<I>, post: Self, n: nat, out: Option<ST>) -> bool {
        &&& post.fold == pre.fold
        &&& post.state == pre.state
        &&& exists|acc0: ST|
            #![trigger call_ensures(pre.state, (), acc0)]
            {
                &&& call_ensures(pre.state, (), acc0)
                &&& match out {
                    Some(st) => chain_run(
                        pre.processors@,
                        s,
                        pre.fold,
                        acc0,
                        post.processors@,
                        n,
                        pre.processors@.len(),
                        st,
                    ),
                    None => exists|i: nat, psm: Seq<P>, m: nat, stm: ST, pj: P, k: nat, o: P::Output|
                        #![trigger chain_run(pre.processors@, s, pre.fold, acc0, psm, m, i, stm), P::ok_step(psm[i as int], s.skip(m as int), pj, k, o)]
                        {
                            &&& chain_run(pre.processors@, s, pre.fold, acc0, psm, m, i, stm)
                            &&& i < pre.processors@.len()
                            &&& m <= s.len()
                            &&& psm[i as int] == pre.processors@[i as int]
                            &&& P::ok_step(psm[i as int], s.skip(m as int), pj, k, o)
                            &&& call_ensures(pre.fold, (stm, o), Option::<ST>::None)
                            &&& post.processors@ == psm.update(i as int, pj)
                            &&& n == m + k
                        },
                }
            }
    }

    /// The first stages succeeded and their folds said to go on, until one
    /// stage did not recognise the input.
    open spec fn miss_step(pre: Self, s: Seq<I>, post: Self, n: nat) -> bool {
        &&& post.fold == pre.fold
        &&& post.state == pre.state
        &&& exists|acc0: ST, i: nat, psm: Seq<P>, m: nat, stm: ST, pj: P, k: nat|
            #![trigger chain_run(pre.processors@, s, pre.fold, acc0, psm, m, i, stm), P::miss_step(psm[i as int], s.skip(m as int), pj, k)]
            {
                &&& call_ensures(pre.state, (), acc0)
                &&& chain_run(pre.processors@, s, pre.fold, acc0, psm, m, i, stm)
                &&& i < pre.processors@.len()
                &&& m <= s.len()
                &&& psm[i as int] == pre.processors@[i as int]
                &&& P::miss_step(psm[i as int], s.skip(m as int), pj, k)
                &&& post.processors@ == psm.update(i as int, pj)
                &&& n == m + k
            }
    }

    open spec fn resets_on_mismatch(&self) -> bool {
        false
    }

    /// Some stage of the chain raised the error itself, after the stages
    /// before it succeeded; an empty chain can never err.
    open spec fn err_step(pre: Self, s: Seq<I>, e: ProcessingError, lossless: bool) -> bool {
        exists|acc0: ST, i: nat, psm: Seq<P>, m: nat, stm: ST|
            {
                &&& call_ensures(pre.state, (), acc0)
                &&& #[trigger] chain_run(pre.processors@, s, pre.fold, acc0, psm, m, i, stm)
                &&& i < pre.processors@.len()
                &&& m <= s.len()
                &&& psm[i as int] == pre.processors@[i as int]
                &&& P::err_step(pre.processors@[i as int], s.skip(m as int), e, lossless)
            }
    }

    open spec fn consuming(&self) -> bool {
        false
    }

    open spec fn progress(&self) -> bool {
        false
    }

    open spec fn fuel(&self) -> nat {
        0
    }

    proof fn ok_progress(pre: Self, s: Seq<I>, post: Self, n: nat, out: Option<ST>) {
    }

    proof fn miss_keeps_progress(pre: Self, s: Seq<I>, post: Self, n: nat) {
    }

    fn process<S: Source<Item = I>>(&mut self, given: S) -> (r: Processed<Option<ST>, S>) {
        proof {
            given.lemma_wf();
        }
        let ghost pre_self = *self;
        let ghost ps0 = self.processors@;
        let ghost s = upcoming(given);
        let mut state = (self.state)();
        let ghost acc0 = state;
        let mut rest = given;
        let mut i: usize = 0;
        loop
            invariant
                pre_self == *old(self),
                pre_self.inv(),
                i <= self.processors@.len(),
                self.processors@.len() == ps0.len(),
                ps0 == pre_self.processors@,
                forall|j: int| i <= j < ps0.len() ==> self.processors@[j] == ps0[j],
                forall|j: int|
                    0 <= j < self.processors@.len() ==> (#[trigger] self.processors@[j]).inv(),
                self.fold == pre_self.fold,
                self.state == pre_self.state,
                forall|st: ST, o: P::Output| #[trigger] call_requires(self.fold, (st, o)),
                call_ensures(pre_self.state, (), acc0),
                s == upcoming(given),
                rest.wf(),
                rest.stream() == given.stream(),
                given.offset() <= rest.offset() <= rest.stream().len(),
                chain_run(
                    ps0,
                    s,
                    pre_self.fold,
                    acc0,
                    self.processors@,
                    (rest.offset() - given.offset()) as nat,
                    i as nat,
                    state,
                ),
            decreases self.processors@.len() - i,
        {
            if i >= self.processors.len() {
                return done(Some(state), rest);
            }
            let ghost rest_head = rest;
            let ghost m = (rest.offset() - given.offset()) as nat;
            let ghost psm = self.processors@;
            proof {
                lemma_upcoming_skip(given, rest, m);
            }
            let result = {
                let stage = vstd::std_specs::vec::vec_index_mut(&mut self.processors, i);
                stage.process(rest)
            };
            let status = match result {
                Ok(st) => st,
                Err(e) => {
                    proof {
                        assert(P::err_step(
                            psm[i as int],
                            s.skip(m as int),
                            e,
                            lossless_source::<S>(),
                        ));
                        assert(chain_run(ps0, s, pre_self.fold, acc0, psm, m, i as nat, state));
                        assert(Self::err_step(pre_self, s, e, lossless_source::<S>()));
                    }
                    return Err(e);
                },
            };
            let ghost pj = self.processors@[i as int];
            match status {
                Status::Done(output, new_rest) => {
                    proof {
                        let k = (new_rest.offset() - rest_head.offset()) as nat;
                        assert(P::ok_step(psm[i as int], s.skip(m as int), pj, k, output));
                    }
                    let folded = (self.fold)(state, output);
                    match folded {
                        Some(next_state) => {
                            proof {
                                let k = (new_rest.offset() - rest_head.offset()) as nat;
                                let i1 = (i + 1) as nat;
                                assert((i1 - 1) as nat == i as nat);
                                assert(chain_run(
                                    ps0,
                                    s,
                                    pre_self.fold,
                                    acc0,
                                    psm,
                                    m,
                                    (i1 - 1) as nat,
                                    state,
                                ));
                                assert(psm[i1 - 1] == psm[i as int]);
                                assert(P::ok_step(psm[i1 - 1], s.skip(m as int), pj, k, output));
                                assert(call_ensures(
                                    pre_self.fold,
                                    (state, output),
                                    Some(next_state),
                                ));
                                assert(chain_run(
                                    ps0,
                                    s,
                                    pre_self.fold,
                                    acc0,
                                    self.processors@,
                                    (m + k) as nat,
                                    i1,
                                    next_state,
                                ));
                            }
                            state = next_state;
                            rest = new_rest;
                            i = i + 1;
                        },
                        None => {
                            proof {
                                let k = (new_rest.offset() - rest_head.offset()) as nat;
                                assert(Self::ok_step(
                                    pre_self,
                                    s,
                                    *self,
                                    (m + k) as nat,
                                    Option::<ST>::None,
                                ));
                            }
                            return done(None, new_rest);
                        },
                    }
                },
                Status::Mismatch(new_rest) => {
                    proof {
                        let k = (new_rest.offset() - rest_head.offset()) as nat;
                        assert(P::miss_step(psm[i as int], s.skip(m as int), pj, k));
                        assert(Self::miss_step(pre_self, s, *self, (m + k) as nat));
                    }
                    return mismatch(new_rest);
                },
            }
        }
    }
}

} // verus!
