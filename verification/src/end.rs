//! Terminal adapters: the boundary past which the cursor is discarded and
//! only the parsed value remains, so backtracking is no longer possible.

use vstd::prelude::*;

use crate::context::{run_mismatches, run_produces};
use crate::processed::{ProcessingError, Status};
use crate::source::{lossless_source, upcoming, Source};
use crate::Processor;

verus! {

/// The outcome of a finished run: a value, an input the grammar did not
/// recognise, or a hard error.
pub enum FResult<O> {
    Done(O),
    Incomplete,
    Error(ProcessingError),
}

/// Alias under which [`FResult`] is consumed.
pub type Final<O> = FResult<O>;

impl<O> FResult<O> {
    /// Transform the value of a completed run; the other outcomes pass
    /// through unchanged.
    pub fn map<F, U>(self, mapper: F) -> (r: FResult<U>) where F: FnOnce(O) -> U
        requires
            self matches FResult::Done(o) ==> call_requires(mapper, (o,)),
        ensures
            (match self {
                FResult::Done(o) => r matches FResult::Done(u) && call_ensures(mapper, (o,), u),
                FResult::Incomplete => r is Incomplete,
                FResult::Error(e) => r matches FResult::Error(e2) && e2 == e,
            }),
    {
        match self {
            FResult::Done(output) => FResult::Done(mapper(output)),
            FResult::Incomplete => FResult::Incomplete,
            FResult::Error(error) => FResult::Error(error),
        }
    }
}

/// A stage whose run is final: it consumes its input outright and exposes
/// only the outcome.
pub trait FinalProcessor<I>: Sized {
    type Output;

    /// Invariant on the adapter's own state.
    spec fn inv(&self) -> bool;

    /// Which inputs this adapter may be given.
    spec fn accepts(&self, given: I) -> bool;

    /// What one finished run means.
    spec fn final_step(pre: Self, given: I, post: Self, r: FResult<Self::Output>) -> bool;

    fn process(&mut self, given: I) -> (r: Final<Self::Output>)
        requires
            old(self).inv(),
            old(self).accepts(given),
        ensures
            final(self).inv(),
            Self::final_step(*old(self), given, *final(self), r),
    ;

    /// Feed this adapter through a function that first shapes the input.
    fn conform<F, T>(self, conform: F) -> (r: Conform<F, Self>) where F: Fn(T) -> I
        ensures
            r.0 == conform,
            r.1 == self,
    {
        Conform(conform, self)
    }

    /// Transform this adapter's final value.
    fn map<F, T>(self, mapper: F) -> (r: MapFinal<F, Self>) where F: Fn(Self::Output) -> T
        ensures
            r.0 == mapper,
            r.1 == self,
    {
        MapFinal(mapper, self)
    }
}

/// Wraps a stage and discards the remaining cursor, exposing only the
/// output.
pub struct End<P>(pub P);

impl<P> End<P> {
    /// Make a stage final.
    pub fn new(processor: P) -> (r: Self)
        ensures
            r.0 == processor,
    {
        End(processor)
    }
}

impl<P, S, I, O> FinalProcessor<S> for End<P> where
    P: Processor<I, Output = O>,
    S: Source<Item = I>,
 {
    type Output = O;

    open spec fn inv(&self) -> bool {
        self.0.inv()
    }

    open spec fn accepts(&self, given: S) -> bool {
        given.wf()
    }

    /// The wrapped stage ran once on the input's upcoming items: its
    /// success, mismatch or hard error is the final outcome.
    open spec fn final_step(pre: Self, given: S, post: Self, r: FResult<O>) -> bool {
        match r {
            FResult::Done(o) => run_produces(pre.0, upcoming(given), o),
            FResult::Incomplete => run_mismatches(pre.0, upcoming(given)),
            FResult::Error(e) => P::err_step(pre.0, upcoming(given), e, lossless_source::<S>()),
        }
    }

    fn process(&mut self, given: S) -> (r: Final<O>) {
        proof {
            given.lemma_wf();
        }
        let status = match self.0.process(given) {
            Ok(st) => st,
            Err(e) => return FResult::Error(e),
        };
        match status {
            Status::Done(output, rest) => {
                proof {
                    let n = (rest.offset() - given.offset()) as nat;
                    assert(n <= upcoming(given).len());
                    assert(P::ok_step(old(self).0, upcoming(given), self.0, n, output));
                    assert(run_produces(old(self).0, upcoming(given), output));
                }
                FResult::Done(output)
            },
            Status::Mismatch(rest) => {
                proof {
                    let n = (rest.offset() - given.offset()) as nat;
                    assert(n <= upcoming(given).len());
                    assert(P::miss_step(old(self).0, upcoming(given), self.0, n));
                    assert(run_mismatches(old(self).0, upcoming(given)));
                }
                FResult::Incomplete
            },
        }
    }
}

/// Shapes the input with a function before handing it to an inner final
/// adapter.
pub struct Conform<F, E>(pub F, pub E);

impl<F, E, I, N, O> FinalProcessor<I> for Conform<F, E> where
    F: Fn(I) -> N,
    E: FinalProcessor<N, Output = O>,
 {
    type Output = O;

    open spec fn inv(&self) -> bool {
        self.1.inv()
    }

    /// The shaping function must be callable on the input, and whatever it
    /// can return must be acceptable to the inner adapter.
    open spec fn accepts(&self, given: I) -> bool {
        &&& call_requires(self.0, (given,))
        &&& forall|m: N| #[trigger] call_ensures(self.0, (given,), m) ==> self.1.accepts(m)
    }

    /// The input was shaped and the inner adapter finished on the result.
    open spec fn final_step(pre: Self, given: I, post: Self, r: FResult<O>) -> bool {
        &&& post.0 == pre.0
        &&& exists|m: N, emid: E|
            #[trigger] call_ensures(pre.0, (given,), m) && #[trigger] E::final_step(
                pre.1,
                m,
                emid,
                r,
            ) && post.1 == emid
    }

    fn process(&mut self, given: I) -> (r: Final<O>) {
        let mapped = (self.0)(given);
        self.1.process(mapped)
    }
}

/// Transforms the final value of an inner adapter.
pub struct MapFinal<F, E>(pub F, pub E);

impl<F, E, I, O, R> FinalProcessor<I> for MapFinal<F, E> where
    F: Fn(O) -> R,
    E: FinalProcessor<I, Output = O>,
 {
    type Output = R;

    open spec fn inv(&self) -> bool {
        &&& self.1.inv()
        &&& forall|o: O| #[trigger] call_requires(self.0, (o,))
    }

    open spec fn accepts(&self, given: I) -> bool {
        self.1.accepts(given)
    }

    /// The inner adapter finished; a completed value was transformed.
    open spec fn final_step(pre: Self, given: I, post: Self, r: FResult<R>) -> bool {
        &&& post.0 == pre.0
        &&& exists|inner: FResult<O>, emid: E|
            {
                &&& #[trigger] E::final_step(pre.1, given, emid, inner)
                &&& post.1 == emid
                &&& match inner {
                    FResult::Done(o) => r matches FResult::Done(u) && call_ensures(
                        pre.0,
                        (o,),
                        u,
                    ),
                    FResult::Incomplete => r is Incomplete,
                    FResult::Error(e) => r matches FResult::Error(e2) && e2 == e,
                }
            }
    }

    fn process(&mut self, given: I) -> (r: Final<R>) {
        let inner = self.1.process(given);
        let result = match inner {
            FResult::Done(output) => FResult::Done((self.0)(output)),
            FResult::Incomplete => FResult::Incomplete,
            FResult::Error(error) => FResult::Error(error),
        };
        proof {
            assert(E::final_step(old(self).1, given, self.1, inner));
            assert(Self::final_step(*old(self), given, *self, result));
        }
        result
    }
}

} // verus!
