//! A parser-combinator engine: composable processing stages that turn a
//! pull-based, backtrackable cursor over an item stream into typed values.
//!
//! The engine is built from small parts:
//! - [`location::Location`] and [`location::Tracker`] keep positional
//!   metadata (line, column, item count, byte offset) as items are consumed.
//! - [`buf::RingBuf`] is a fixed-capacity buffer with oldest-first eviction,
//!   backing bounded lookback.
//! - [`source::Source`] is the cursor contract: `next`, `peek`, `snapshot`
//!   and `roll_back`, with an in-memory implementation and a buffered one
//!   that supports bounded backtracking over a stream.
//! - [`Processor`] is the combinator algebra: `map`, `replace`, `take`,
//!   `take_while`, `fold`, `zip`, `ignore`, `ignore_next`, `or`.

use vstd::prelude::*;

pub mod buf;
pub mod collections;
pub mod buffered;
pub mod location;
pub mod processed;
pub mod source;
pub mod processors;
pub mod context;
pub mod end;
pub mod monads;

pub use processed::{done, err, mismatch};

use crate::context::With;
use crate::processed::{Processed, ProcessingError, Status};
use crate::source::{lemma_upcoming_skip, lossless_source, upcoming, Source};

verus! {

/// A composable processing stage: a function from a cursor to a
/// [`Status`], with the cursor owned by exactly one stage at a time.
///
/// The contract is relational. Each implementation defines what one
/// successful step ([`Processor::ok_step`]) and one mismatching step
/// ([`Processor::miss_step`]) mean over the upcoming items of the stream;
/// `process` promises that whatever it returns stands in the matching
/// relation, that the stream itself is never altered, and that the cursor
/// never moves backwards past where the stage began.
pub trait Processor<I>: Sized {
    type Output;

    /// Invariant on the stage's own state; holds of everything the library
    /// builds and is kept by `process`.
    spec fn inv(&self) -> bool;

    /// One successful step: from state `pre`, on upcoming items `s`, the
    /// stage consumed `n` items, produced `out`, and became `post`.
    spec fn ok_step(pre: Self, s: Seq<I>, post: Self, n: nat, out: Self::Output) -> bool;

    /// One mismatching step: from state `pre`, on upcoming items `s`, the
    /// stage recognised nothing, left the cursor `n` items further on, and
    /// became `post`.
    spec fn miss_step(pre: Self, s: Seq<I>, post: Self, n: nat) -> bool;

    /// Whether a mismatch from this stage is guaranteed to leave the cursor
    /// exactly where it was given.
    spec fn resets_on_mismatch(&self) -> bool;

    /// One hard-error outcome: from state `pre`, on upcoming items `s`,
    /// the stage can terminate the whole pipeline with the error `e`. The
    /// `lossless` flag says whether the cursor type restores every
    /// snapshotted position; over a lossless cursor a stage cannot fail by
    /// running out of lookback.
    spec fn err_step(pre: Self, s: Seq<I>, e: ProcessingError, lossless: bool) -> bool;

    /// Whether every successful step of this stage consumes at least one
    /// item.
    spec fn consuming(&self) -> bool;

    /// Whether this stage is progressive: every successful step either
    /// consumes an item or strictly spends [`Processor::fuel`], and leaves
    /// the stage progressive again. Repetition relies on one of `consuming`
    /// or `progress` for termination.
    spec fn progress(&self) -> bool;

    /// A bound on how many more items a progressive stage can succeed
    /// without consuming anything: a budget counter's remaining slots, for
    /// one.
    spec fn fuel(&self) -> nat;

    /// A successful step of a consuming stage consumes an item; one of a
    /// progressive stage consumes an item or spends fuel.
    proof fn ok_progress(pre: Self, s: Seq<I>, post: Self, n: nat, out: Self::Output)
        requires
            Self::ok_step(pre, s, post, n, out),
        ensures
            pre.consuming() ==> n >= 1 && post.consuming(),
            pre.progress() ==> post.progress() && (n >= 1 || post.fuel() < pre.fuel()),
    ;

    /// A mismatching step keeps a stage consuming or progressive.
    proof fn miss_keeps_progress(pre: Self, s: Seq<I>, post: Self, n: nat)
        requires
            Self::miss_step(pre, s, post, n),
        ensures
            pre.consuming() ==> post.consuming(),
            pre.progress() ==> post.progress(),
    ;

    /// Run the stage once on `given`, handing the cursor back in either
    /// outcome.
    fn process<S: Source<Item = I>>(&mut self, given: S) -> (r: Processed<Self::Output, S>)
        requires
            old(self).inv(),
            given.wf(),
        ensures
            final(self).inv(),
            final(self).consuming() == old(self).consuming(),
            final(self).progress() == old(self).progress(),
            (match r {
                Ok(Status::Done(out, rest)) => {
                    &&& rest.wf()
                    &&& rest.stream() == given.stream()
                    &&& given.offset() <= rest.offset() <= rest.stream().len()
                    &&& Self::ok_step(
                        *old(self),
                        upcoming(given),
                        *final(self),
                        (rest.offset() - given.offset()) as nat,
                        out,
                    )
                },
                Ok(Status::Mismatch(rest)) => {
                    &&& rest.wf()
                    &&& rest.stream() == given.stream()
                    &&& given.offset() <= rest.offset() <= rest.stream().len()
                    &&& Self::miss_step(
                        *old(self),
                        upcoming(given),
                        *final(self),
                        (rest.offset() - given.offset()) as nat,
                    )
                    &&& (old(self).resets_on_mismatch() ==> rest.offset() == given.offset())
                },
                Err(e) => Self::err_step(
                    *old(self),
                    upcoming(given),
                    e,
                    lossless_source::<S>(),
                ),
            }),
    ;

    /// Transform this stage's output with a function that is callable on
    /// every output.
    fn map<F, R>(self, map: F) -> (r: Mapped<Self, F>) where F: Fn(Self::Output) -> R
        ensures
            r.processor == self,
            r.map == map,
    {
        Mapped { processor: self, map }
    }

    /// Replace this stage's output with a constant on success.
    fn replace<T: Copy>(self, with: T) -> (r: CopyReplace<Self, T>)
        ensures
            r.0 == self,
            r.1 == with,
    {
        CopyReplace(self, with)
    }

    /// Allow at most `amount` successful invocations of this stage before
    /// a forced mismatch.
    fn take(self, amount: usize) -> (r: Take<Self>)
        ensures
            r.processor == self,
            r.current == 0,
            r.target == amount,
    {
        Take { processor: self, current: 0, target: amount }
    }

    /// Run this stage only while a predicate holds on the next item.
    fn take_while<F>(self, predicate: F) -> (r: TakeWhile<Self, F>) where F: Fn(&I) -> bool
        ensures
            r.0 == self,
            r.1 == predicate,
    {
        TakeWhile(self, predicate)
    }

    /// Repeat this stage until it mismatches, folding its outputs.
    fn fold<A, ST, F>(self, accum: A, fold: F) -> (r: Fold<Self, ST, A, F>) where
        A: Fn() -> ST,
        F: Fn(ST, Self::Output) -> ST,

        ensures
            r.processor == self,
            r.accum == accum,
            r.fold == fold,
    {
        Fold { processor: self, accum, fold, state_marker: core::marker::PhantomData }
    }

    /// Hand this stage to a binder that builds a larger one around it.
    fn connect<FB, PX>(self, binder: FB) -> (r: PX) where FB: FnOnce(Self) -> PX
        requires
            call_requires(binder, (self,)),
        ensures
            call_ensures(binder, (self,), r),
    {
        binder(self)
    }

    /// Sequence this stage with another, keeping both outputs.
    fn zip<P>(self, other: P) -> (r: Zip<Self, P>)
        ensures
            r.0 == self,
            r.1 == other,
    {
        Zip(self, other)
    }

    /// Sequence atomically with another stage, keeping only the other's
    /// output.
    fn ignore<P>(self, other: P) -> (r: Ignore<Self, P>)
        ensures
            r.0 == self,
            r.1 == other,
    {
        Ignore(self, other)
    }

    /// Sequence atomically with another stage, keeping only this stage's
    /// output.
    fn ignore_next<P>(self, other: P) -> (r: IgnoreNext<Self, P>)
        ensures
            r.0 == self,
            r.1 == other,
    {
        IgnoreNext(self, other)
    }

    /// Try this stage; on a mismatch, try the other from wherever this one
    /// left the cursor.
    fn or<P>(self, other: P) -> (r: Or<Self, P>)
        ensures
            r.0 == self,
            r.1 == other,
    {
        Or(self, other)
    }

    /// Bind this stage to one cursor, ready to be driven.
    fn with<S>(self, input: S) -> (r: With<S, Self>) where S: Source<Item = I>
        ensures
            r.0 == input,
            r.1 == self,
    {
        With(input, self)
    }
}

/// Transforms the output of a successful inner stage with a pure function;
/// a mismatch passes through unchanged.
pub struct Mapped<P, F> {
    pub processor: P,
    pub map: F,
}

impl<P, I, F, R> Processor<I> for Mapped<P, F> where P: Processor<I>, F: Fn(P::Output) -> R {
    type Output = R;

    open spec fn inv(&self) -> bool {
        &&& self.processor.inv()
        &&& forall|o: P::Output| #[trigger] call_requires(self.map, (o,))
    }

    /// The inner stage succeeded and the function turned its output into
    /// `out`.
    open spec fn ok_step(pre: Self, s: Seq<I>, post: Self, n: nat, out: R) -> bool {
        &&& post.map == pre.map
        &&& exists|po: P::Output, pmid: P|
            #[trigger] P::ok_step(pre.processor, s, pmid, n, po) && call_ensures(
                pre.map,
                (po,),
                out,
            ) && post.processor == pmid
    }

    open spec fn miss_step(pre: Self, s: Seq<I>, post: Self, n: nat) -> bool {
        &&& post.map == pre.map
        &&& P::miss_step(pre.processor, s, post.processor, n)
    }

    open spec fn resets_on_mismatch(&self) -> bool {
        self.processor.resets_on_mismatch()
    }

    /// Only the inner stage can raise a hard error.
    open spec fn err_step(pre: Self, s: Seq<I>, e: ProcessingError, lossless: bool) -> bool {
        P::err_step(pre.processor, s, e, lossless)
    }

    open spec fn consuming(&self) -> bool {
        self.processor.consuming()
    }

    open spec fn progress(&self) -> bool {
        self.processor.progress()
    }

    open spec fn fuel(&self) -> nat {
        self.processor.fuel()
    }

    proof fn ok_progress(pre: Self, s: Seq<I>, post: Self, n: nat, out: R) {
        let (po, pmid): (P::Output, P) = choose|po: P::Output, pmid: P|
            #[trigger] P::ok_step(pre.processor, s, pmid, n, po) && call_ensures(
                pre.map,
                (po,),
                out,
            ) && post.processor == pmid;
        P::ok_progress(pre.processor, s, pmid, n, po);
    }

    proof fn miss_keeps_progress(pre: Self, s: Seq<I>, post: Self, n: nat) {
        P::miss_keeps_progress(pre.processor, s, post.processor, n);
    }

    fn process<S: Source<Item = I>>(&mut self, given: S) -> (r: Processed<R, S>) {
        let status = match self.processor.process(given) {
            Ok(s) => s,
            Err(e) => return Err(e),
        };
        match status {
            Status::Done(output, rest) => done((self.map)(output), rest),
            Status::Mismatch(rest) => mismatch(rest),
        }
    }
}

/// Discards the inner stage's output and substitutes a constant of a
/// freely-duplicable type on success.
pub struct CopyReplace<P, T>(pub P, pub T);

impl<P, I, T> Processor<I> for CopyReplace<P, T> where P: Processor<I>, T: Copy {
    type Output = T;

    open spec fn inv(&self) -> bool {
        self.0.inv()
    }

    /// The inner stage succeeded; the stored constant comes out in place of
    /// its output.
    open spec fn ok_step(pre: Self, s: Seq<I>, post: Self, n: nat, out: T) -> bool {
        &&& out == pre.1
        &&& post.1 == pre.1
        &&& exists|po: P::Output| #[trigger] P::ok_step(pre.0, s, post.0, n, po)
    }

    open spec fn miss_step(pre: Self, s: Seq<I>, post: Self, n: nat) -> bool {
        &&& post.1 == pre.1
        &&& P::miss_step(pre.0, s, post.0, n)
    }

    open spec fn resets_on_mismatch(&self) -> bool {
        self.0.resets_on_mismatch()
    }

    /// Only the inner stage can raise a hard error.
    open spec fn err_step(pre: Self, s: Seq<I>, e: ProcessingError, lossless: bool) -> bool {
        P::err_step(pre.0, s, e, lossless)
    }

    open spec fn consuming(&self) -> bool {
        self.0.consuming()
    }

    open spec fn progress(&self) -> bool {
        self.0.progress()
    }

    open spec fn fuel(&self) -> nat {
        self.0.fuel()
    }

    proof fn ok_progress(pre: Self, s: Seq<I>, post: Self, n: nat, out: T) {
        let po: P::Output = choose|po: P::Output| #[trigger] P::ok_step(pre.0, s, post.0, n, po);
        P::ok_progress(pre.0, s, post.0, n, po);
    }

    proof fn miss_keeps_progress(pre: Self, s: Seq<I>, post: Self, n: nat) {
        P::miss_keeps_progress(pre.0, s, post.0, n);
    }

    fn process<S: Source<Item = I>>(&mut self, given: S) -> (r: Processed<T, S>) {
        let status = match self.0.process(given) {
            Ok(s) => s,
            Err(e) => return Err(e),
        };
        match status {
            Status::Done(_, rest) => done(self.1, rest),
            Status::Mismatch(rest) => mismatch(rest),
        }
    }
}

/// Allows at most `target` successful invocations of the inner stage
/// before forcing a mismatch; an inner mismatch consumes no budget, and the
/// counter resets to zero upon exhaustion, so one instance is reusable
/// across repeated applications.
pub struct Take<P> {
    pub processor: P,
    pub current: usize,
    pub target: usize,
}

impl<P, I> Processor<I> for Take<P> where P: Processor<I> {
    type Output = P::Output;

    open spec fn inv(&self) -> bool {
        self.processor.inv()
    }

    /// A slot was free: the counter advanced and the inner stage succeeded.
    open spec fn ok_step(pre: Self, s: Seq<I>, post: Self, n: nat, out: P::Output) -> bool {
        &&& pre.current < pre.target
        &&& post.current == pre.current + 1
        &&& post.target == pre.target
        &&& P::ok_step(pre.processor, s, post.processor, n, out)
    }

    /// Either the slots were exhausted, in which case nothing is consumed
    /// and the counter starts over, or the inner stage itself mismatched,
    /// which costs no budget.
    open spec fn miss_step(pre: Self, s: Seq<I>, post: Self, n: nat) -> bool {
        ||| {
            &&& pre.current >= pre.target
            &&& n == 0
            &&& post.current == 0
            &&& post.target == pre.target
            &&& post.processor == pre.processor
        }
        ||| {
            &&& pre.current < pre.target
            &&& post.current == pre.current
            &&& post.target == pre.target
            &&& P::miss_step(pre.processor, s, post.processor, n)
        }
    }

    open spec fn resets_on_mismatch(&self) -> bool {
        self.processor.resets_on_mismatch()
    }

    /// Only the inner stage can raise a hard error, and only while the
    /// budget is not exhausted.
    open spec fn err_step(pre: Self, s: Seq<I>, e: ProcessingError, lossless: bool) -> bool {
        pre.current < pre.target && P::err_step(pre.processor, s, e, lossless)
    }

    open spec fn consuming(&self) -> bool {
        self.processor.consuming()
    }

    /// A budgeted stage is always progressive: each success spends a slot.
    open spec fn progress(&self) -> bool {
        true
    }

    open spec fn fuel(&self) -> nat {
        (self.target - self.current) as nat
    }

    proof fn ok_progress(pre: Self, s: Seq<I>, post: Self, n: nat, out: P::Output) {
        P::ok_progress(pre.processor, s, post.processor, n, out);
    }

    proof fn miss_keeps_progress(pre: Self, s: Seq<I>, post: Self, n: nat) {
        if pre.current < pre.target {
            P::miss_keeps_progress(pre.processor, s, post.processor, n);
        }
    }

    fn process<S: Source<Item = I>>(&mut self, given: S) -> (r: Processed<P::Output, S>) {
        if self.current < self.target {
            let status = match self.processor.process(given) {
                Ok(st) => st,
                Err(e) => return Err(e),
            };
            match status {
                Status::Done(output, rest) => {
                    self.current = self.current + 1;
                    done(output, rest)
                },
                Status::Mismatch(rest) => mismatch(rest),
            }
        } else {
            self.current = 0;
            proof {
                given.lemma_wf();
            }
            mismatch(given)
        }
    }
}

/// Reuse law for [`Take`]: once it has mismatched because its slots were
/// exhausted, it stands exactly as a freshly built one over the same inner
/// stage, so a new run is again allowed `target`-many successful
/// invocations.
pub proof fn lemma_take_reuse<P: Processor<I>, I>(pre: Take<P>, s: Seq<I>, post: Take<P>, n: nat)
    requires
        pre.current >= pre.target,
        Take::<P>::miss_step(pre, s, post, n),
    ensures
        n == 0,
        post.current == 0,
        post.target == pre.target,
        post.processor == pre.processor,
{
}

/// Invokes the inner stage only if a predicate holds on the next item;
/// otherwise mismatches without consuming anything.
pub struct TakeWhile<P, F>(pub P, pub F);

impl<P, I, F> Processor<I> for TakeWhile<P, F> where P: Processor<I>, F: Fn(&I) -> bool {
    type Output = P::Output;

    open spec fn inv(&self) -> bool {
        &&& self.0.inv()
        &&& forall|i: I| #[trigger] call_requires(self.1, (&i,))
    }

    /// The predicate held on the first upcoming item and the inner stage
    /// succeeded.
    open spec fn ok_step(pre: Self, s: Seq<I>, post: Self, n: nat, out: P::Output) -> bool {
        &&& s.len() > 0 && call_ensures(pre.1, (&s[0],), true)
        &&& post.1 == pre.1
        &&& P::ok_step(pre.0, s, post.0, n, out)
    }

    /// The stream was empty, the predicate turned the next item away
    /// (consuming nothing), or the inner stage itself mismatched.
    open spec fn miss_step(pre: Self, s: Seq<I>, post: Self, n: nat) -> bool {
        ||| (s.len() == 0 && n == 0 && post == pre)
        ||| (s.len() > 0 && call_ensures(pre.1, (&s[0],), false) && n == 0 && post == pre)
        ||| {
            &&& s.len() > 0 && call_ensures(pre.1, (&s[0],), true)
            &&& post.1 == pre.1
            &&& P::miss_step(pre.0, s, post.0, n)
        }
    }

    open spec fn resets_on_mismatch(&self) -> bool {
        self.0.resets_on_mismatch()
    }

    /// Only the inner stage can raise a hard error, and only once the
    /// predicate admitted the next item.
    open spec fn err_step(pre: Self, s: Seq<I>, e: ProcessingError, lossless: bool) -> bool {
        &&& s.len() > 0 && call_ensures(pre.1, (&s[0],), true)
        &&& P::err_step(pre.0, s, e, lossless)
    }

    open spec fn consuming(&self) -> bool {
        self.0.consuming()
    }

    open spec fn progress(&self) -> bool {
        self.0.progress()
    }

    open spec fn fuel(&self) -> nat {
        self.0.fuel()
    }

    proof fn ok_progress(pre: Self, s: Seq<I>, post: Self, n: nat, out: P::Output) {
        P::ok_progress(pre.0, s, post.0, n, out);
    }

    proof fn miss_keeps_progress(pre: Self, s: Seq<I>, post: Self, n: nat) {
        if s.len() > 0 && call_ensures(pre.1, (&s[0],), true) && !(n == 0 && post == pre) {
            P::miss_keeps_progress(pre.0, s, post.0, n);
        }
    }

    fn process<S: Source<Item = I>>(&mut self, given: S) -> (r: Processed<P::Output, S>) {
        let mut given = given;
        proof {
            given.lemma_wf();
            if given.offset() < given.stream().len() {
                assert(upcoming(given)[0] == given.stream()[given.offset() as int]) by {
                    broadcast use vstd::seq_lib::lemma_seq_skip_index;

                };
            }
        }
        let peeked = given.peek();
        match peeked {
            Some(item) => {
                if (self.1)(&item) {
                    self.0.process(given)
                } else {
                    mismatch(given)
                }
            },
            None => mismatch(given),
        }
    }
}

/// Sequential AND: runs the first stage, then the second on whatever cursor
/// the first returned; succeeds only if both do, with the pair of outputs.
/// If either mismatches, the cursor may already reflect partial consumption
/// by the first stage: there is no implicit rollback.
pub struct Zip<A, B>(pub A, pub B);

impl<A, B, I> Processor<I> for Zip<A, B> where A: Processor<I>, B: Processor<I> {
    type Output = (A::Output, B::Output);

    open spec fn inv(&self) -> bool {
        self.0.inv() && self.1.inv()
    }

    /// Both stages succeeded in order, the second starting where the first
    /// stopped.
    open spec fn ok_step(pre: Self, s: Seq<I>, post: Self, n: nat, out: Self::Output) -> bool {
        exists|n1: nat, amid: A|
            {
                &&& n1 <= n && n1 <= s.len()
                &&& #[trigger] A::ok_step(pre.0, s, amid, n1, out.0)
                &&& B::ok_step(pre.1, s.skip(n1 as int), post.1, (n - n1) as nat, out.1)
                &&& post.0 == amid
            }
    }

    /// The first stage mismatched, or it succeeded and the second
    /// mismatched; either way what was consumed stays consumed.
    open spec fn miss_step(pre: Self, s: Seq<I>, post: Self, n: nat) -> bool {
        ||| (A::miss_step(pre.0, s, post.0, n) && post.1 == pre.1)
        ||| (exists|n1: nat, amid: A, o1: A::Output|
            {
                &&& n1 <= n && n1 <= s.len()
                &&& #[trigger] A::ok_step(pre.0, s, amid, n1, o1)
                &&& B::miss_step(pre.1, s.skip(n1 as int), post.1, (n - n1) as nat)
                &&& post.0 == amid
            })
    }

    open spec fn resets_on_mismatch(&self) -> bool {
        false
    }

    /// One of the two stages raised the error itself: the first directly,
    /// or the second after the first succeeded.
    open spec fn err_step(pre: Self, s: Seq<I>, e: ProcessingError, lossless: bool) -> bool {
        ||| A::err_step(pre.0, s, e, lossless)
        ||| exists|n1: nat, amid: A, o1: A::Output|
            {
                &&& n1 <= s.len()
                &&& #[trigger] A::ok_step(pre.0, s, amid, n1, o1)
                &&& B::err_step(pre.1, s.skip(n1 as int), e, lossless)
            }
    }

    open spec fn consuming(&self) -> bool {
        self.0.consuming() || self.1.consuming()
    }

    open spec fn progress(&self) -> bool {
        (self.0.consuming() || self.0.progress()) && (self.1.consuming() || self.1.progress())
    }

    open spec fn fuel(&self) -> nat {
        self.0.fuel() + self.1.fuel()
    }

    proof fn ok_progress(pre: Self, s: Seq<I>, post: Self, n: nat, out: Self::Output) {
        let (n1, amid): (nat, A) = choose|n1: nat, amid: A|
            {
                &&& n1 <= n && n1 <= s.len()
                &&& #[trigger] A::ok_step(pre.0, s, amid, n1, out.0)
                &&& B::ok_step(pre.1, s.skip(n1 as int), post.1, (n - n1) as nat, out.1)
                &&& post.0 == amid
            };
        A::ok_progress(pre.0, s, amid, n1, out.0);
        B::ok_progress(pre.1, s.skip(n1 as int), post.1, (n - n1) as nat, out.1);
    }

    proof fn miss_keeps_progress(pre: Self, s: Seq<I>, post: Self, n: nat) {
        if A::miss_step(pre.0, s, post.0, n) && post.1 == pre.1 {
            A::miss_keeps_progress(pre.0, s, post.0, n);
        } else {
            let (n1, amid, o1): (nat, A, A::Output) = choose|n1: nat, amid: A, o1: A::Output|
                {
                    &&& n1 <= n && n1 <= s.len()
                    &&& #[trigger] A::ok_step(pre.0, s, amid, n1, o1)
                    &&& B::miss_step(pre.1, s.skip(n1 as int), post.1, (n - n1) as nat)
                    &&& post.0 == amid
                };
            A::ok_progress(pre.0, s, amid, n1, o1);
            B::miss_keeps_progress(pre.1, s.skip(n1 as int), post.1, (n - n1) as nat);
        }
    }

    fn process<S: Source<Item = I>>(&mut self, given: S) -> (r: Processed<Self::Output, S>) {
        proof {
            given.lemma_wf();
        }
        let status = match self.0.process(given) {
            Ok(s) => s,
            Err(e) => return Err(e),
        };
        match status {
            Status::Done(first, rest) => {
                proof {
                    lemma_upcoming_skip(given, rest, (rest.offset() - given.offset()) as nat);
                }
                let status2 = match self.1.process(rest) {
                    Ok(s) => s,
                    Err(e) => {
                        proof {
                            let n1 = (rest.offset() - given.offset()) as nat;
                            assert(A::ok_step(old(self).0, upcoming(given), self.0, n1, first));
                            assert(B::err_step(
                                old(self).1,
                                upcoming(given).skip(n1 as int),
                                e,
                                lossless_source::<S>(),
                            ));
                        }
                        return Err(e);
                    },
                };
                match status2 {
                    Status::Done(second, rest2) => {
                        proof {
                            let s = upcoming(given);
                            let n1 = (rest.offset() - given.offset()) as nat;
                            let n = (rest2.offset() - given.offset()) as nat;
                            let out = (first, second);
                            assert(A::ok_step(old(self).0, s, self.0, n1, out.0));
                            assert(B::ok_step(
                                old(self).1,
                                s.skip(n1 as int),
                                self.1,
                                (n - n1) as nat,
                                out.1,
                            ));
                        }
                        done((first, second), rest2)
                    },
                    Status::Mismatch(rest2) => mismatch(rest2),
                }
            },
            Status::Mismatch(rest) => mismatch(rest),
        }
    }
}

/// Ordered alternation: success of the first stage short-circuits; on its
/// mismatch the second runs on the cursor the first returned.
pub struct Or<A, B>(pub A, pub B);

impl<A, B, I, O> Processor<I> for Or<A, B> where
    A: Processor<I, Output = O>,
    B: Processor<I, Output = O>,
 {
    type Output = O;

    open spec fn inv(&self) -> bool {
        self.0.inv() && self.1.inv()
    }

    /// The first stage succeeded, or it mismatched and the second
    /// succeeded, starting from wherever the first left the cursor.
    open spec fn ok_step(pre: Self, s: Seq<I>, post: Self, n: nat, out: O) -> bool {
        ||| (A::ok_step(pre.0, s, post.0, n, out) && post.1 == pre.1)
        ||| (exists|na: nat, amid: A|
            {
                &&& na <= n && na <= s.len()
                &&& #[trigger] A::miss_step(pre.0, s, amid, na)
                &&& B::ok_step(pre.1, s.skip(na as int), post.1, (n - na) as nat, out)
                &&& post.0 == amid
            })
    }

    /// Both stages mismatched in order.
    open spec fn miss_step(pre: Self, s: Seq<I>, post: Self, n: nat) -> bool {
        exists|na: nat, amid: A|
            {
                &&& na <= n && na <= s.len()
                &&& #[trigger] A::miss_step(pre.0, s, amid, na)
                &&& B::miss_step(pre.1, s.skip(na as int), post.1, (n - na) as nat)
                &&& post.0 == amid
            }
    }

    open spec fn resets_on_mismatch(&self) -> bool {
        self.0.resets_on_mismatch() && self.1.resets_on_mismatch()
    }

    /// One of the two stages raised the error itself: the first directly,
    /// or the second after the first mismatched.
    open spec fn err_step(pre: Self, s: Seq<I>, e: ProcessingError, lossless: bool) -> bool {
        ||| A::err_step(pre.0, s, e, lossless)
        ||| exists|na: nat, amid: A|
            {
                &&& na <= s.len()
                &&& #[trigger] A::miss_step(pre.0, s, amid, na)
                &&& B::err_step(pre.1, s.skip(na as int), e, lossless)
            }
    }

    open spec fn consuming(&self) -> bool {
        self.0.consuming() && self.1.consuming()
    }

    /// An alternation is progressive only when strictly consuming: a
    /// mismatch of the first alternative may replenish its fuel, so fuel
    /// alone bounds nothing here.
    open spec fn progress(&self) -> bool {
        self.0.consuming() && self.1.consuming()
    }

    open spec fn fuel(&self) -> nat {
        0
    }

    proof fn ok_progress(pre: Self, s: Seq<I>, post: Self, n: nat, out: O) {
        if A::ok_step(pre.0, s, post.0, n, out) && post.1 == pre.1 {
            A::ok_progress(pre.0, s, post.0, n, out);
        } else {
            let (na, amid): (nat, A) = choose|na: nat, amid: A|
                {
                    &&& na <= n && na <= s.len()
                    &&& #[trigger] A::miss_step(pre.0, s, amid, na)
                    &&& B::ok_step(pre.1, s.skip(na as int), post.1, (n - na) as nat, out)
                    &&& post.0 == amid
                };
            A::miss_keeps_progress(pre.0, s, amid, na);
            B::ok_progress(pre.1, s.skip(na as int), post.1, (n - na) as nat, out);
        }
    }

    proof fn miss_keeps_progress(pre: Self, s: Seq<I>, post: Self, n: nat) {
        let (na, amid): (nat, A) = choose|na: nat, amid: A|
            {
                &&& na <= n && na <= s.len()
                &&& #[trigger] A::miss_step(pre.0, s, amid, na)
                &&& B::miss_step(pre.1, s.skip(na as int), post.1, (n - na) as nat)
                &&& post.0 == amid
            };
        A::miss_keeps_progress(pre.0, s, amid, na);
        B::miss_keeps_progress(pre.1, s.skip(na as int), post.1, (n - na) as nat);
    }

    fn process<S: Source<Item = I>>(&mut self, given: S) -> (r: Processed<O, S>) {
        proof {
            given.lemma_wf();
        }
        let status = match self.0.process(given) {
            Ok(s) => s,
            Err(e) => return Err(e),
        };
        match status {
            Status::Done(out, rest) => done(out, rest),
            Status::Mismatch(rest) => {
                proof {
                    lemma_upcoming_skip(given, rest, (rest.offset() - given.offset()) as nat);
                }
                let second = self.1.process(rest);
                proof {
                    if let Err(e) = &second {
                        let na = (rest.offset() - given.offset()) as nat;
                        assert(A::miss_step(old(self).0, upcoming(given), self.0, na));
                        assert(B::err_step(
                            old(self).1,
                            upcoming(given).skip(na as int),
                            *e,
                            lossless_source::<S>(),
                        ));
                    }
                }
                second
            },
        }
    }
}

/// Atomic sequential AND that keeps only the second stage's output. A
/// snapshot is taken before the first stage runs; if the second stage then
/// mismatches, the cursor is rolled back to that snapshot before the
/// mismatch is reported, so the pair consumes all or nothing. A rollback
/// failure during that recovery is a hard error, not a mismatch.
pub struct Ignore<L, R>(pub L, pub R);

impl<L, R, I> Processor<I> for Ignore<L, R> where L: Processor<I>, R: Processor<I> {
    type Output = R::Output;

    open spec fn inv(&self) -> bool {
        self.0.inv() && self.1.inv()
    }

    /// Both stages succeeded in order; the second one's output comes out.
    open spec fn ok_step(pre: Self, s: Seq<I>, post: Self, n: nat, out: R::Output) -> bool {
        exists|n1: nat, lmid: L, o1: L::Output|
            {
                &&& n1 <= n && n1 <= s.len()
                &&& #[trigger] L::ok_step(pre.0, s, lmid, n1, o1)
                &&& R::ok_step(pre.1, s.skip(n1 as int), post.1, (n - n1) as nat, out)
                &&& post.0 == lmid
            }
    }

    /// Either the first stage mismatched, or it succeeded, the second
    /// mismatched, and the cursor was restored to where the pair began:
    /// nothing is consumed (atomicity of the pair).
    open spec fn miss_step(pre: Self, s: Seq<I>, post: Self, n: nat) -> bool {
        ||| (L::miss_step(pre.0, s, post.0, n) && post.1 == pre.1)
        ||| {
            &&& n == 0
            &&& exists|n1: nat, o1: L::Output|
                {
                    &&& n1 <= s.len()
                    &&& #[trigger] L::ok_step(pre.0, s, post.0, n1, o1)
                    &&& exists|n2: nat|
                        #[trigger] R::miss_step(pre.1, s.skip(n1 as int), post.1, n2)
                }
        }
    }

    open spec fn resets_on_mismatch(&self) -> bool {
        self.0.resets_on_mismatch()
    }

    /// A sub-stage raised the error itself — the first directly, or the
    /// second after the first succeeded — or the first succeeded, the
    /// second mismatched, and rolling back to the start position failed,
    /// which a lossless cursor never lets happen.
    open spec fn err_step(pre: Self, s: Seq<I>, e: ProcessingError, lossless: bool) -> bool {
        ||| L::err_step(pre.0, s, e, lossless)
        ||| exists|n1: nat, lmid: L, o1: L::Output|
            {
                &&& n1 <= s.len()
                &&& #[trigger] L::ok_step(pre.0, s, lmid, n1, o1)
                &&& R::err_step(pre.1, s.skip(n1 as int), e, lossless)
            }
        ||| {
            &&& !lossless
            &&& e.spec_cause() is RollBackOutOfWindow
            &&& exists|n1: nat, lmid: L, o1: L::Output|
                {
                    &&& n1 <= s.len()
                    &&& #[trigger] L::ok_step(pre.0, s, lmid, n1, o1)
                    &&& exists|rmid: R, n2: nat|
                        #[trigger] R::miss_step(pre.1, s.skip(n1 as int), rmid, n2)
                }
        }
    }

    open spec fn consuming(&self) -> bool {
        self.0.consuming() || self.1.consuming()
    }

    open spec fn progress(&self) -> bool {
        (self.0.consuming() || self.0.progress()) && (self.1.consuming() || self.1.progress())
    }

    open spec fn fuel(&self) -> nat {
        self.0.fuel() + self.1.fuel()
    }

    proof fn ok_progress(pre: Self, s: Seq<I>, post: Self, n: nat, out: Self::Output) {
        let (n1, lmid, o1): (nat, L, L::Output) = choose|n1: nat, lmid: L, o1: L::Output|
            {
                &&& n1 <= n && n1 <= s.len()
                &&& #[trigger] L::ok_step(pre.0, s, lmid, n1, o1)
                &&& R::ok_step(pre.1, s.skip(n1 as int), post.1, (n - n1) as nat, out)
                &&& post.0 == lmid
            };
        L::ok_progress(pre.0, s, lmid, n1, o1);
        R::ok_progress(pre.1, s.skip(n1 as int), post.1, (n - n1) as nat, out);
    }

    proof fn miss_keeps_progress(pre: Self, s: Seq<I>, post: Self, n: nat) {
        if L::miss_step(pre.0, s, post.0, n) && post.1 == pre.1 {
            L::miss_keeps_progress(pre.0, s, post.0, n);
        } else {
            let (n1, o1): (nat, L::Output) = choose|n1: nat, o1: L::Output|
                {
                    &&& n1 <= s.len()
                    &&& #[trigger] L::ok_step(pre.0, s, post.0, n1, o1)
                    &&& exists|n2: nat|
                        #[trigger] R::miss_step(pre.1, s.skip(n1 as int), post.1, n2)
                };
            let n2: nat = choose|n2: nat|
                #[trigger] R::miss_step(pre.1, s.skip(n1 as int), post.1, n2);
            L::ok_progress(pre.0, s, post.0, n1, o1);
            R::miss_keeps_progress(pre.1, s.skip(n1 as int), post.1, n2);
        }
    }

    fn process<S: Source<Item = I>>(&mut self, given: S) -> (r: Processed<R::Output, S>) {
        proof {
            given.lemma_wf();
        }
        let fallback = given.snapshot();
        let status = match self.0.process(given) {
            Ok(s) => s,
            Err(e) => return Err(e),
        };
        match status {
            Status::Done(first, rest) => {
                proof {
                    lemma_upcoming_skip(given, rest, (rest.offset() - given.offset()) as nat);
                }
                let result = rollback_if_process_fail(fallback, &mut self.1, rest);
                proof {
                    let s = upcoming(given);
                    let n1 = (rest.offset() - given.offset()) as nat;
                    assert(L::ok_step(old(self).0, s, self.0, n1, first));
                    if let Ok(Status::Done(out2, rest2)) = &result {
                        let n = (rest2.offset() - given.offset()) as nat;
                        assert(R::ok_step(
                            old(self).1,
                            s.skip(n1 as int),
                            self.1,
                            (n - n1) as nat,
                            *out2,
                        ));
                        assert(Self::ok_step(*old(self), s, *self, n, *out2));
                    }
                    if let Ok(Status::Mismatch(rest2)) = &result {
                        let n2 = choose|n2: nat|
                            n2 <= upcoming(rest).len() && #[trigger] R::miss_step(
                                old(self).1,
                                upcoming(rest),
                                self.1,
                                n2,
                            );
                        assert(R::miss_step(old(self).1, s.skip(n1 as int), self.1, n2));
                        assert(Self::miss_step(*old(self), s, *self, 0));
                    }
                    if let Err(e) = &result {
                        if R::err_step(old(self).1, s.skip(n1 as int), *e, lossless_source::<S>()) {
                            assert(Self::err_step(*old(self), s, *e, lossless_source::<S>()));
                        } else {
                            let n2 = choose|n2: nat|
                                n2 <= upcoming(given).len() && #[trigger] R::miss_step(
                                    old(self).1,
                                    upcoming(rest),
                                    self.1,
                                    n2,
                                );
                            assert(R::miss_step(old(self).1, s.skip(n1 as int), self.1, n2));
                            assert(Self::err_step(*old(self), s, *e, lossless_source::<S>()));
                        }
                    }
                }
                result
            },
            Status::Mismatch(rest) => mismatch(rest),
        }
    }
}

/// Atomic sequential AND that keeps only the first stage's output; the
/// second stage merely has to succeed. As with [`Ignore`], a mismatch of
/// the second stage rolls the cursor back to before the first stage ran.
pub struct IgnoreNext<L, R>(pub L, pub R);

impl<L, R, I> Processor<I> for IgnoreNext<L, R> where L: Processor<I>, R: Processor<I> {
    type Output = L::Output;

    open spec fn inv(&self) -> bool {
        self.0.inv() && self.1.inv()
    }

    /// Both stages succeeded in order; the first one's output comes out.
    open spec fn ok_step(pre: Self, s: Seq<I>, post: Self, n: nat, out: L::Output) -> bool {
        exists|n1: nat|
            {
                &&& n1 <= n && n1 <= s.len()
                &&& #[trigger] L::ok_step(pre.0, s, post.0, n1, out)
                &&& exists|o2: R::Output|
                    #[trigger] R::ok_step(pre.1, s.skip(n1 as int), post.1, (n - n1) as nat, o2)
            }
    }

    /// Either the first stage mismatched, or it succeeded, the second
    /// mismatched, and the cursor was restored to where the pair began.
    open spec fn miss_step(pre: Self, s: Seq<I>, post: Self, n: nat) -> bool {
        ||| (L::miss_step(pre.0, s, post.0, n) && post.1 == pre.1)
        ||| {
            &&& n == 0
            &&& exists|n1: nat, o1: L::Output|
                {
                    &&& n1 <= s.len()
                    &&& #[trigger] L::ok_step(pre.0, s, post.0, n1, o1)
                    &&& exists|n2: nat|
                        #[trigger] R::miss_step(pre.1, s.skip(n1 as int), post.1, n2)
                }
        }
    }

    open spec fn resets_on_mismatch(&self) -> bool {
        self.0.resets_on_mismatch()
    }

    /// A sub-stage raised the error itself — the first directly, or the
    /// second after the first succeeded — or the first succeeded, the
    /// second mismatched, and rolling back to the start position failed,
    /// which a lossless cursor never lets happen.
    open spec fn err_step(pre: Self, s: Seq<I>, e: ProcessingError, lossless: bool) -> bool {
        ||| L::err_step(pre.0, s, e, lossless)
        ||| exists|n1: nat, lmid: L, o1: L::Output|
            {
                &&& n1 <= s.len()
                &&& #[trigger] L::ok_step(pre.0, s, lmid, n1, o1)
                &&& R::err_step(pre.1, s.skip(n1 as int), e, lossless)
            }
        ||| {
            &&& !lossless
            &&& e.spec_cause() is RollBackOutOfWindow
            &&& exists|n1: nat, lmid: L, o1: L::Output|
                {
                    &&& n1 <= s.len()
                    &&& #[trigger] L::ok_step(pre.0, s, lmid, n1, o1)
                    &&& exists|rmid: R, n2: nat|
                        #[trigger] R::miss_step(pre.1, s.skip(n1 as int), rmid, n2)
                }
        }
    }

    open spec fn consuming(&self) -> bool {
        self.0.consuming() || self.1.consuming()
    }

    open spec fn progress(&self) -> bool {
        (self.0.consuming() || self.0.progress()) && (self.1.consuming() || self.1.progress())
    }

    open spec fn fuel(&self) -> nat {
        self.0.fuel() + self.1.fuel()
    }

    proof fn ok_progress(pre: Self, s: Seq<I>, post: Self, n: nat, out: Self::Output) {
        let n1: nat = choose|n1: nat|
            {
                &&& n1 <= n && n1 <= s.len()
                &&& #[trigger] L::ok_step(pre.0, s, post.0, n1, out)
                &&& exists|o2: R::Output|
                    #[trigger] R::ok_step(pre.1, s.skip(n1 as int), post.1, (n - n1) as nat, o2)
            };
        let o2: R::Output = choose|o2: R::Output|
            #[trigger] R::ok_step(pre.1, s.skip(n1 as int), post.1, (n - n1) as nat, o2);
        L::ok_progress(pre.0, s, post.0, n1, out);
        R::ok_progress(pre.1, s.skip(n1 as int), post.1, (n - n1) as nat, o2);
    }

    proof fn miss_keeps_progress(pre: Self, s: Seq<I>, post: Self, n: nat) {
        if L::miss_step(pre.0, s, post.0, n) && post.1 == pre.1 {
            L::miss_keeps_progress(pre.0, s, post.0, n);
        } else {
            let (n1, o1): (nat, L::Output) = choose|n1: nat, o1: L::Output|
                {
                    &&& n1 <= s.len()
                    &&& #[trigger] L::ok_step(pre.0, s, post.0, n1, o1)
                    &&& exists|n2: nat|
                        #[trigger] R::miss_step(pre.1, s.skip(n1 as int), post.1, n2)
                };
            let n2: nat = choose|n2: nat|
                #[trigger] R::miss_step(pre.1, s.skip(n1 as int), post.1, n2);
            L::ok_progress(pre.0, s, post.0, n1, o1);
            R::miss_keeps_progress(pre.1, s.skip(n1 as int), post.1, n2);
        }
    }

    fn process<S: Source<Item = I>>(&mut self, given: S) -> (r: Processed<L::Output, S>) {
        proof {
            given.lemma_wf();
        }
        let fallback = given.snapshot();
        let status = match self.0.process(given) {
            Ok(s) => s,
            Err(e) => return Err(e),
        };
        match status {
            Status::Done(output, rest) => {
                proof {
                    lemma_upcoming_skip(given, rest, (rest.offset() - given.offset()) as nat);
                }
                let inner = match rollback_if_process_fail(fallback, &mut self.1, rest) {
                    Ok(s) => s,
                    Err(e) => {
                        proof {
                            let s = upcoming(given);
                            let n1 = (rest.offset() - given.offset()) as nat;
                            assert(L::ok_step(old(self).0, s, self.0, n1, output));
                            if R::err_step(
                                old(self).1,
                                s.skip(n1 as int),
                                e,
                                lossless_source::<S>(),
                            ) {
                                assert(Self::err_step(*old(self), s, e, lossless_source::<S>()));
                            } else {
                                let n2 = choose|n2: nat|
                                    n2 <= upcoming(given).len() && #[trigger] R::miss_step(
                                        old(self).1,
                                        upcoming(rest),
                                        self.1,
                                        n2,
                                    );
                                assert(R::miss_step(old(self).1, s.skip(n1 as int), self.1, n2));
                                assert(Self::err_step(*old(self), s, e, lossless_source::<S>()));
                            }
                        }
                        return Err(e);
                    },
                };
                match inner {
                    Status::Done(second, rest2) => {
                        proof {
                            let s = upcoming(given);
                            let n1 = (rest.offset() - given.offset()) as nat;
                            let n = (rest2.offset() - given.offset()) as nat;
                            assert(L::ok_step(old(self).0, s, self.0, n1, output));
                            assert(R::ok_step(
                                old(self).1,
                                s.skip(n1 as int),
                                self.1,
                                (n - n1) as nat,
                                second,
                            ));
                            assert(Self::ok_step(*old(self), s, *self, n, output));
                        }
                        done(output, rest2)
                    },
                    Status::Mismatch(rest2) => {
                        proof {
                            let s = upcoming(given);
                            let n1 = (rest.offset() - given.offset()) as nat;
                            assert(L::ok_step(old(self).0, s, self.0, n1, output));
                            let n2 = choose|n2: nat|
                                n2 <= upcoming(rest).len() && #[trigger] R::miss_step(
                                    old(self).1,
                                    upcoming(rest),
                                    self.1,
                                    n2,
                                );
                            assert(R::miss_step(old(self).1, s.skip(n1 as int), self.1, n2));
                            assert(Self::miss_step(*old(self), s, *self, 0));
                        }
                        mismatch(rest2)
                    },
                }
            },
            Status::Mismatch(rest) => mismatch(rest),
        }
    }
}

/// Run a stage and, if it mismatches, roll the cursor back to `fallback`
/// before handing the mismatch on; a rollback failure becomes a hard error.
fn rollback_if_process_fail<P, I, S>(fallback: S::Snapshot, processor: &mut P, given: S) -> (r:
    Processed<P::Output, S>) where P: Processor<I>, S: Source<Item = I>
    requires
        old(processor).inv(),
        given.wf(),
        S::snap_pos(fallback) <= given.offset(),
    ensures
        final(processor).inv(),
        final(processor).consuming() == old(processor).consuming(),
        final(processor).progress() == old(processor).progress(),
        (match r {
            Ok(Status::Done(out, rest)) => {
                &&& rest.wf()
                &&& rest.stream() == given.stream()
                &&& given.offset() <= rest.offset() <= rest.stream().len()
                &&& P::ok_step(
                    *old(processor),
                    upcoming(given),
                    *final(processor),
                    (rest.offset() - given.offset()) as nat,
                    out,
                )
            },
            Ok(Status::Mismatch(rest)) => {
                &&& rest.wf()
                &&& rest.stream() == given.stream()
                &&& rest.offset() == S::snap_pos(fallback)
                &&& exists|n: nat|
                    n <= upcoming(given).len() && #[trigger] P::miss_step(
                        *old(processor),
                        upcoming(given),
                        *final(processor),
                        n,
                    )
            },
            Err(e) => {
                ||| P::err_step(*old(processor), upcoming(given), e, lossless_source::<S>())
                ||| {
                    &&& !lossless_source::<S>()
                    &&& e.spec_cause() is RollBackOutOfWindow
                    &&& exists|n: nat|
                        n <= upcoming(given).len() && #[trigger] P::miss_step(
                            *old(processor),
                            upcoming(given),
                            *final(processor),
                            n,
                        )
                }
            },
        }),
{
    proof {
        given.lemma_wf();
    }
    let status = match processor.process(given) {
        Ok(s) => s,
        Err(e) => return Err(e),
    };
    match status {
        Status::Done(output, rest) => done(output, rest),
        Status::Mismatch(rest) => {
            let mut rest = rest;
            proof {
                rest.lemma_wf();
            }
            let ghost rest_before = rest;
            match rest.roll_back(fallback) {
                Ok(_) => mismatch(rest),
                Err(error) => {
                    proof {
                        // A lossless cursor restores every snapshotted
                        // position, so this failure refutes losslessness.
                        if lossless_source::<S>() {
                            assert(rest_before.can_roll_back(fallback));
                            assert(false);
                        }
                    }
                    Err(error)
                },
            }
        },
    }
}

/// A mapping stage is well formed once its inner stage is and its function
/// is callable on every inner output; it is as progressive as its inner
/// stage.
pub proof fn lemma_mapped_inv<P: Processor<I>, I, F: Fn(P::Output) -> R, R>(m: Mapped<P, F>)
    requires
        m.processor.inv(),
        forall|o: P::Output| #[trigger] call_requires(m.map, (o,)),
    ensures
        m.inv(),
        m.consuming() == m.processor.consuming(),
        m.progress() == m.processor.progress(),
{
}

/// A replacing stage is well formed once its inner stage is.
pub proof fn lemma_replace_inv<P: Processor<I>, I, T: Copy>(c: CopyReplace<P, T>)
    requires
        c.0.inv(),
    ensures
        c.inv(),
        c.consuming() == c.0.consuming(),
        c.progress() == c.0.progress(),
{
}

/// A budgeted stage is well formed once its inner stage is.
pub proof fn lemma_take_inv<P: Processor<I>, I>(t: Take<P>)
    requires
        t.processor.inv(),
    ensures
        t.inv(),
        t.consuming() == t.processor.consuming(),
        t.progress(),
{
}

/// A guarded stage is well formed once its inner stage is and its predicate
/// is callable on every item.
pub proof fn lemma_take_while_inv<P: Processor<I>, I, F: Fn(&I) -> bool>(t: TakeWhile<P, F>)
    requires
        t.0.inv(),
        forall|i: I| #[trigger] call_requires(t.1, (&i,)),
    ensures
        t.inv(),
        t.consuming() == t.0.consuming(),
        t.progress() == t.0.progress(),
{
}

/// A sequential pair is well formed once both halves are.
pub proof fn lemma_zip_inv<A: Processor<I>, B: Processor<I>, I>(z: Zip<A, B>)
    requires
        z.0.inv(),
        z.1.inv(),
    ensures
        z.inv(),
        z.consuming() == (z.0.consuming() || z.1.consuming()),
        z.progress() == ((z.0.consuming() || z.0.progress()) && (z.1.consuming()
            || z.1.progress())),
{
}

/// An alternation is well formed once both alternatives are.
pub proof fn lemma_or_inv<A: Processor<I, Output = O>, B: Processor<I, Output = O>, I, O>(
    a: Or<A, B>,
)
    requires
        a.0.inv(),
        a.1.inv(),
    ensures
        a.inv(),
        a.consuming() == (a.0.consuming() && a.1.consuming()),
        a.progress() == (a.0.consuming() && a.1.consuming()),
{
}

/// An atomic pair keeping the second output is well formed once both halves
/// are.
pub proof fn lemma_ignore_inv<L: Processor<I>, R: Processor<I>, I>(p: Ignore<L, R>)
    requires
        p.0.inv(),
        p.1.inv(),
    ensures
        p.inv(),
        p.consuming() == (p.0.consuming() || p.1.consuming()),
        p.progress() == ((p.0.consuming() || p.0.progress()) && (p.1.consuming()
            || p.1.progress())),
{
}

/// An atomic pair keeping the first output is well formed once both halves
/// are.
pub proof fn lemma_ignore_next_inv<L: Processor<I>, R: Processor<I>, I>(p: IgnoreNext<L, R>)
    requires
        p.0.inv(),
        p.1.inv(),
    ensures
        p.inv(),
        p.consuming() == (p.0.consuming() || p.1.consuming()),
        p.progress() == ((p.0.consuming() || p.0.progress()) && (p.1.consuming()
            || p.1.progress())),
{
}

/// A repetition is well formed once its inner stage is well formed and
/// progressive, its accumulator is callable, and its folding function is
/// callable on every state and output.
pub proof fn lemma_fold_inv<P: Processor<I>, I, ST, A: Fn() -> ST, F: Fn(ST, P::Output) -> ST>(
    f: Fold<P, ST, A, F>,
)
    requires
        f.processor.inv(),
        f.processor.consuming() || f.processor.progress(),
        call_requires(f.accum, ()),
        forall|st: ST, o: P::Output| #[trigger] call_requires(f.fold, (st, o)),
    ensures
        f.inv(),
{
}

/// Zero or more successful steps of a stage, threading an accumulator
/// through a folding function: `steps`-many times, the stage consumed part
/// of the remaining items and its output was folded into the state.
pub open spec fn fold_steps<P: Processor<I>, I, F: Fn(ST, P::Output) -> ST, ST>(
    p0: P,
    s: Seq<I>,
    f: F,
    acc0: ST,
    p1: P,
    n: nat,
    acc1: ST,
    steps: nat,
) -> bool
    decreases steps,
{
    if steps == 0 {
        p1 == p0 && n == 0 && acc1 == acc0
    } else {
        exists|pm: P, m: nat, k: nat, accm: ST, o: P::Output|
            #![trigger P::ok_step(pm, s.skip(m as int), p1, k, o), call_ensures(f, (accm, o), acc1)]
            {
                &&& fold_steps(p0, s, f, acc0, pm, m, accm, (steps - 1) as nat)
                &&& m <= s.len()
                &&& m + k == n
                &&& P::ok_step(pm, s.skip(m as int), p1, k, o)
                &&& call_ensures(f, (accm, o), acc1)
            }
    }
}

/// One more successful step extends a run of fold steps.
proof fn lemma_fold_steps_extend<P: Processor<I>, I, F: Fn(ST, P::Output) -> ST, ST>(
    p0: P,
    s: Seq<I>,
    f: F,
    acc0: ST,
    pm: P,
    m: nat,
    accm: ST,
    steps: nat,
    pn: P,
    k: nat,
    o: P::Output,
    accn: ST,
)
    requires
        fold_steps(p0, s, f, acc0, pm, m, accm, steps),
        m <= s.len(),
        P::ok_step(pm, s.skip(m as int), pn, k, o),
        call_ensures(f, (accm, o), accn),
    ensures
        fold_steps(p0, s, f, acc0, pn, (m + k) as nat, accn, (steps + 1) as nat),
{
    let steps1 = (steps + 1) as nat;
    let n = (m + k) as nat;
    assert((steps1 - 1) as nat == steps);
    assert(fold_steps(p0, s, f, acc0, pm, m, accm, (steps1 - 1) as nat));
    assert(fold_steps(p0, s, f, acc0, pn, n, accn, steps1));
}

/// Repeatedly applies a stage to the cursor, accumulating state with a
/// folding function, until the stage mismatches; returns the accumulated
/// state and the cursor at the failure point. A fold never itself
/// mismatches: zero repetitions already succeed.
pub struct Fold<P, ST, A, F> {
    pub processor: P,
    pub accum: A,
    pub fold: F,
    pub state_marker: core::marker::PhantomData<ST>,
}

impl<P, ST, A, F, I> Processor<I> for Fold<P, ST, A, F> where
    P: Processor<I>,
    A: Fn() -> ST,
    F: Fn(ST, P::Output) -> ST,
 {
    type Output = ST;

    open spec fn inv(&self) -> bool {
        &&& self.processor.inv()
        &&& self.processor.consuming() || self.processor.progress()
        &&& call_requires(self.accum, ())
        &&& forall|st: ST, o: P::Output| #[trigger] call_requires(self.fold, (st, o))
    }

    /// Some initial state came from the accumulator; the stage succeeded
    /// `steps` times, its outputs folded into the state; the final,
    /// mismatching attempt may still have consumed items.
    open spec fn ok_step(pre: Self, s: Seq<I>, post: Self, n: nat, out: ST) -> bool {
        &&& post.accum == pre.accum
        &&& post.fold == pre.fold
        &&& exists|acc0: ST, pm: P, m: nat, steps: nat|
            {
                &&& call_ensures(pre.accum, (), acc0)
                &&& #[trigger] fold_steps(pre.processor, s, pre.fold, acc0, pm, m, out, steps)
                &&& m <= s.len()
                &&& exists|nmiss: nat|
                    {
                        &&& #[trigger] P::miss_step(pm, s.skip(m as int), post.processor, nmiss)
                        &&& n == m + nmiss
                    }
            }
    }

    /// A fold never mismatches.
    open spec fn miss_step(pre: Self, s: Seq<I>, post: Self, n: nat) -> bool {
        false
    }

    open spec fn resets_on_mismatch(&self) -> bool {
        true
    }

    /// After some successful repetitions, the inner stage raised a hard
    /// error, which stops the repetition at once.
    open spec fn err_step(pre: Self, s: Seq<I>, e: ProcessingError, lossless: bool) -> bool {
        exists|acc0: ST, pm: P, m: nat, stm: ST, steps: nat|
            {
                &&& call_ensures(pre.accum, (), acc0)
                &&& #[trigger] fold_steps(pre.processor, s, pre.fold, acc0, pm, m, stm, steps)
                &&& m <= s.len()
                &&& P::err_step(pm, s.skip(m as int), e, lossless)
            }
    }

    open spec fn consuming(&self) -> bool {
        false
    }

    open spec fn progress(&self) -> bool {
        false
    }

    open spec fn fuel(&self) -> nat {
        0
    }

    proof fn ok_progress(pre: Self, s: Seq<I>, post: Self, n: nat, out: ST) {
    }

    proof fn miss_keeps_progress(pre: Self, s: Seq<I>, post: Self, n: nat) {
    }

    fn process<S: Source<Item = I>>(&mut self, given: S) -> (r: Processed<ST, S>) {
        proof {
            given.lemma_wf();
        }
        let ghost s = upcoming(given);
        let ghost pre_self = *self;
        let mut state = (self.accum)();
        let ghost acc0 = state;
        let ghost mut steps: nat = 0;
        let mut rest = given;
        loop
            invariant
                pre_self == *old(self),
                pre_self.inv(),
                rest.wf(),
                rest.stream() == given.stream(),
                given.offset() <= rest.offset() <= rest.stream().len(),
                self.processor.inv(),
                self.processor.consuming() || self.processor.progress(),
                self.accum == pre_self.accum,
                self.fold == pre_self.fold,
                forall|st: ST, o: P::Output| #[trigger] call_requires(self.fold, (st, o)),
                call_ensures(pre_self.accum, (), acc0),
                s == upcoming(given),
                fold_steps(
                    pre_self.processor,
                    s,
                    pre_self.fold,
                    acc0,
                    self.processor,
                    (rest.offset() - given.offset()) as nat,
                    state,
                    steps,
                ),
            decreases rest.stream().len() - rest.offset(), self.processor.fuel(),
        {
            let ghost p_head = self.processor;
            let ghost rest_head = rest;
            let ghost m = (rest.offset() - given.offset()) as nat;
            proof {
                lemma_upcoming_skip(given, rest, m);
            }
            let status = match self.processor.process(rest) {
                Ok(st) => st,
                Err(e) => {
                    proof {
                        assert(P::err_step(p_head, s.skip(m as int), e, lossless_source::<S>()));
                        assert(fold_steps(
                            pre_self.processor,
                            s,
                            pre_self.fold,
                            acc0,
                            p_head,
                            m,
                            state,
                            steps,
                        ));
                    }
                    return Err(e);
                },
            };
            match status {
                Status::Done(output, new_rest) => {
                    proof {
                        let k = (new_rest.offset() - rest_head.offset()) as nat;
                        assert(P::ok_step(p_head, s.skip(m as int), self.processor, k, output));
                        P::ok_progress(p_head, s.skip(m as int), self.processor, k, output);
                    }
                    let prev = state;
                    state = (self.fold)(prev, output);
                    proof {
                        let k = (new_rest.offset() - rest_head.offset()) as nat;
                        lemma_fold_steps_extend(
                            pre_self.processor,
                            s,
                            pre_self.fold,
                            acc0,
                            p_head,
                            m,
                            prev,
                            steps,
                            self.processor,
                            k,
                            output,
                            state,
                        );
                        steps = steps + 1;
                    }
                    rest = new_rest;
                },
                Status::Mismatch(new_rest) => {
                    proof {
                        let nmiss = (new_rest.offset() - rest_head.offset()) as nat;
                        let n = (new_rest.offset() - given.offset()) as nat;
                        assert(P::miss_step(p_head, s.skip(m as int), self.processor, nmiss));
                        assert(n == m + nmiss);
                        assert(Self::ok_step(pre_self, s, *self, n, state));
                    }
                    return done(state, new_rest);
                },
            }
        }
    }
}

} // verus!
