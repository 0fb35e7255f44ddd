//! Entry points that bind one cursor to one stage and drive it.

use vstd::prelude::*;

use crate::processed::{ProcessingError, Status};
use crate::source::{lemma_upcoming_skip, lossless_source, upcoming, Source};
use crate::{fold_steps, Processor};

verus! {

broadcast use {
    vstd::seq_lib::lemma_seq_skip_index,
    vstd::seq_lib::lemma_seq_skip_len,
};

/// The stage `p`, run once on the upcoming items `s`, can succeed with
/// output `out`, consuming some prefix of `s`.
pub open spec fn run_produces<P: Processor<I>, I>(p: P, s: Seq<I>, out: P::Output) -> bool {
    exists|post: P, n: nat| n <= s.len() && #[trigger] P::ok_step(p, s, post, n, out)
}

/// The stage `p`, run once on the upcoming items `s`, can fail to recognise
/// them.
pub open spec fn run_mismatches<P: Processor<I>, I>(p: P, s: Seq<I>) -> bool {
    exists|post: P, n: nat| n <= s.len() && #[trigger] P::miss_step(p, s, post, n)
}

/// Repeatedly running the stage `p` on the items `s` and folding each
/// output into the state with `func`, starting from `init`, can end in the
/// state `st` when `p` finally mismatches.
pub open spec fn fold_produces<P: Processor<I>, I, AV, F: Fn(AV, P::Output) -> AV>(
    p: P,
    s: Seq<I>,
    func: F,
    init: AV,
    st: AV,
) -> bool {
    exists|pm: P, m: nat, steps: nat|
        {
            &&& #[trigger] fold_steps(p, s, func, init, pm, m, st, steps)
            &&& m <= s.len()
            &&& exists|post: P, nmiss: nat| #[trigger] P::miss_step(pm, s.skip(m as int), post, nmiss)
        }
}

/// Repeatedly running the stage `p` on the items `s`, folding outputs from
/// `init` with `func`, can be stopped by the hard error `e` that some
/// invocation of `p` raised.
pub open spec fn fold_errs<P: Processor<I>, I, AV, F: Fn(AV, P::Output) -> AV>(
    p: P,
    s: Seq<I>,
    func: F,
    init: AV,
    e: ProcessingError,
    lossless: bool,
) -> bool {
    exists|pm: P, m: nat, stm: AV, steps: nat|
        {
            &&& #[trigger] fold_steps(p, s, func, init, pm, m, stm, steps)
            &&& m <= s.len()
            &&& P::err_step(pm, s.skip(m as int), e, lossless)
        }
}

/// Why a whole run failed: a hard error along the way, or the grammar never
/// recognised the input.
#[derive(Debug)]
pub enum ProcessingFailed {
    DuringProcessing(ProcessingError),
    NoReturn,
}

/// One cursor bound to one stage.
#[derive(Debug)]
pub struct With<S, P>(pub S, pub P);

impl<S, I, P> With<S, P> where P: Processor<I>, S: Source<Item = I> {
    /// Bind `input` to `processor`.
    pub fn new(input: S, processor: P) -> (r: Self)
        ensures
            r.0 == input,
            r.1 == processor,
    {
        With(input, processor)
    }

    /// Run the stage once and keep only its output; a mismatch means the
    /// grammar did not recognise the input at all.
    pub fn process(self) -> (r: Result<P::Output, ProcessingFailed>)
        requires
            self.1.inv(),
            self.0.wf(),
        ensures
            r matches Ok(out) ==> run_produces(self.1, upcoming(self.0), out),
            r matches Err(e) && e is NoReturn ==> run_mismatches(self.1, upcoming(self.0)),
            r matches Err(ProcessingFailed::DuringProcessing(pe)) ==> P::err_step(
                self.1,
                upcoming(self.0),
                pe,
                lossless_source::<S>(),
            ),
    {
        let With(source, mut processor) = self;
        proof {
            source.lemma_wf();
        }
        let status = match processor.process(source) {
            Ok(st) => st,
            Err(e) => {
                proof {
                    assert(P::err_step(self.1, upcoming(self.0), e, lossless_source::<S>()));
                }
                return Err(ProcessingFailed::DuringProcessing(e));
            },
        };
        match status {
            Status::Done(output, rest) => {
                proof {
                    let n = (rest.offset() - source.offset()) as nat;
                    assert(n <= upcoming(self.0).len());
                    assert(P::ok_step(self.1, upcoming(self.0), processor, n, output));
                    assert(run_produces(self.1, upcoming(self.0), output));
                }
                Ok(output)
            },
            Status::Mismatch(rest) => {
                proof {
                    let n = (rest.offset() - source.offset()) as nat;
                    assert(n <= upcoming(self.0).len());
                    assert(P::miss_step(self.1, upcoming(self.0), processor, n));
                    assert(run_mismatches(self.1, upcoming(self.0)));
                }
                Err(ProcessingFailed::NoReturn)
            },
        }
    }

    /// Run the stage over and over, folding each output into a state, until
    /// it mismatches or the input runs out; the state is returned.
    pub fn fold<AV, F>(self, init: AV, func: F) -> (r: Result<AV, ProcessingError>) where
        F: Fn(AV, P::Output) -> AV,

        requires
            self.1.inv(),
            self.1.consuming() || self.1.progress(),
            self.0.wf(),
            forall|st: AV, o: P::Output| #[trigger] call_requires(func, (st, o)),
        ensures
            r matches Ok(st) ==> fold_produces(self.1, upcoming(self.0), func, init, st),
            r matches Err(e) ==> fold_errs(
                self.1,
                upcoming(self.0),
                func,
                init,
                e,
                lossless_source::<S>(),
            ),
    {
        let With(source, mut processor) = self;
        proof {
            source.lemma_wf();
        }
        let ghost p0 = processor;
        let ghost s = upcoming(source);
        let ghost s0 = source;
        let mut state = init;
        let ghost mut steps: nat = 0;
        let mut rest = source;
        loop
            invariant
                p0 == self.1,
                s0 == self.0,
                rest.wf(),
                rest.stream() == s0.stream(),
                s0.offset() <= rest.offset() <= rest.stream().len(),
                processor.inv(),
                processor.consuming() || processor.progress(),
                forall|st: AV, o: P::Output| #[trigger] call_requires(func, (st, o)),
                s == upcoming(s0),
                fold_steps(p0, s, func, init, processor, (rest.offset() - s0.offset()) as nat, state, steps),
            decreases rest.stream().len() - rest.offset(), processor.fuel(),
        {
            let ghost p_head = processor;
            let ghost rest_head = rest;
            let ghost m = (rest.offset() - s0.offset()) as nat;
            proof {
                lemma_upcoming_skip(s0, rest, m);
            }
            let status = match processor.process(rest) {
                Ok(st) => st,
                Err(e) => {
                    proof {
                        assert(P::err_step(p_head, s.skip(m as int), e, lossless_source::<S>()));
                        assert(fold_steps(p0, s, func, init, p_head, m, state, steps));
                        assert(fold_errs(
                            self.1,
                            upcoming(self.0),
                            func,
                            init,
                            e,
                            lossless_source::<S>(),
                        ));
                    }
                    return Err(e);
                },
            };
            match status {
                Status::Done(output, new_rest) => {
                    proof {
                        let k = (new_rest.offset() - rest_head.offset()) as nat;
                        assert(P::ok_step(p_head, s.skip(m as int), processor, k, output));
                        P::ok_progress(p_head, s.skip(m as int), processor, k, output);
                    }
                    let prev = state;
                    state = func(prev, output);
                    proof {
                        let k = (new_rest.offset() - rest_head.offset()) as nat;
                        crate::lemma_fold_steps_extend(
                            p0,
                            s,
                            func,
                            init,
                            p_head,
                            m,
                            prev,
                            steps,
                            processor,
                            k,
                            output,
                            state,
                        );
                        steps = steps + 1;
                    }
                    rest = new_rest;
                },
                Status::Mismatch(new_rest) => {
                    proof {
                        let nmiss = (new_rest.offset() - rest_head.offset()) as nat;
                        assert(P::miss_step(p_head, s.skip(m as int), processor, nmiss));
                        assert(fold_steps(p0, s, func, init, p_head, m, state, steps));
                        assert(m <= upcoming(self.0).len());
                        assert(P::miss_step(
                            p_head,
                            upcoming(self.0).skip(m as int),
                            processor,
                            nmiss,
                        ));
                        assert(fold_produces(self.1, upcoming(self.0), func, init, state));
                    }
                    return Ok(state);
                },
            }
        }
    }
}

} // verus!
