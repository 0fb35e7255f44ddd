//! The cursor contract: a pull-based, backtrackable view over an item
//! stream, and its always-rollbackable in-memory implementation.

use vstd::prelude::*;

use crate::processed::ProcessingError;

verus! {

/// A backtrackable pull cursor over a stream of items.
///
/// The model is a fixed stream of items together with an offset saying how
/// many have been consumed. No operation ever changes the stream; `next`
/// moves the offset forward and `roll_back` moves it back to a position
/// named by a snapshot token taken earlier.
pub trait Source: Sized {
    type Item: Copy;

    /// Opaque token identifying a previously visited position; valid only
    /// for the cursor instance that produced it.
    type Snapshot;

    /// The whole stream this cursor ranges over: items already consumed
    /// followed by the items still to come.
    spec fn stream(&self) -> Seq<Self::Item>;

    /// How many items have been consumed so far.
    spec fn offset(&self) -> nat;

    /// Internal consistency; established at construction and kept by every
    /// operation.
    spec fn wf(&self) -> bool;

    /// The stream position a snapshot token names.
    spec fn snap_pos(s: Self::Snapshot) -> nat;

    /// Whether rolling back to the position `s` names can succeed right
    /// now: bounded-lookback cursors forget positions that have left their
    /// window.
    spec fn can_roll_back(&self, s: Self::Snapshot) -> bool;

    /// A well-formed cursor never stands past the end of its stream.
    proof fn lemma_wf(&self)
        requires
            self.wf(),
        ensures
            self.offset() <= self.stream().len(),
    ;

    /// Consume and return the next item, or report end of stream without
    /// moving.
    fn next(&mut self) -> (r: Option<Self::Item>)
        requires
            old(self).wf(),
        ensures
            final(self).wf(),
            final(self).stream() == old(self).stream(),
            old(self).offset() < old(self).stream().len() ==> {
                &&& r == Some(old(self).stream()[old(self).offset() as int])
                &&& final(self).offset() == old(self).offset() + 1
            },
            old(self).offset() >= old(self).stream().len() ==> {
                &&& r is None
                &&& final(self).offset() == old(self).offset()
            },
    ;

    /// View the next item without consuming it; the cursor is observably
    /// unchanged.
    fn peek(&mut self) -> (r: Option<Self::Item>)
        requires
            old(self).wf(),
        ensures
            final(self).wf(),
            final(self).stream() == old(self).stream(),
            final(self).offset() == old(self).offset(),
            old(self).offset() < old(self).stream().len() ==> r == Some(
                old(self).stream()[old(self).offset() as int],
            ),
            old(self).offset() >= old(self).stream().len() ==> r is None,
    ;

    /// An opaque token for the current position.
    fn snapshot(&self) -> (r: Self::Snapshot)
        requires
            self.wf(),
        ensures
            Self::snap_pos(r) == self.offset(),
    ;

    /// Restore the position a snapshot names, or fail with a hard error if
    /// it is out of reach; on failure the cursor is left where it was.
    fn roll_back(&mut self, to: Self::Snapshot) -> (r: Result<(), ProcessingError>)
        requires
            old(self).wf(),
            Self::snap_pos(to) <= old(self).offset(),
        ensures
            final(self).wf(),
            final(self).stream() == old(self).stream(),
            r is Ok <==> old(self).can_roll_back(to),
            r is Ok ==> final(self).offset() == Self::snap_pos(to),
            r is Err ==> final(self).offset() == old(self).offset(),
            r matches Err(e) ==> e.spec_cause() is RollBackOutOfWindow,
    ;

    /// Consume the next item only if the predicate holds on it; otherwise,
    /// or at end of stream, leave the cursor unchanged.
    fn next_if<P: Fn(&Self::Item) -> bool>(&mut self, predicate: P) -> (r: Option<Self::Item>)
        requires
            old(self).wf(),
            old(self).offset() < old(self).stream().len() ==> call_requires(
                predicate,
                (&old(self).stream()[old(self).offset() as int],),
            ),
        ensures
            final(self).wf(),
            final(self).stream() == old(self).stream(),
            r matches Some(i) ==> {
                &&& old(self).offset() < old(self).stream().len()
                &&& i == old(self).stream()[old(self).offset() as int]
                &&& final(self).offset() == old(self).offset() + 1
                &&& call_ensures(predicate, (&i,), true)
            },
            r is None ==> {
                &&& final(self).offset() == old(self).offset()
                &&& (old(self).offset() < old(self).stream().len() ==> call_ensures(
                    predicate,
                    (&old(self).stream()[old(self).offset() as int],),
                    false,
                ))
            },
    {
        let peeked = self.peek();
        match peeked {
            Some(item) => {
                if predicate(&item) {
                    self.next()
                } else {
                    None
                }
            },
            None => None,
        }
    }
}

/// The items still to come under a cursor: its stream with the consumed
/// prefix skipped.
pub open spec fn upcoming<S: Source>(s: S) -> Seq<S::Item> {
    s.stream().skip(s.offset() as int)
}

/// Whether every cursor of this type can always restore any position one of
/// its snapshots names: in-memory cursors can; bounded-lookback cursors
/// cannot, since old positions leave their window.
pub open spec fn lossless_source<S: Source>() -> bool {
    forall|c: S, t: S::Snapshot|
        c.wf() && S::snap_pos(t) <= c.offset() ==> #[trigger] c.can_roll_back(t)
}

/// When one cursor stands `n` items past another on the same stream, its
/// upcoming items are the other's with the first `n` skipped.
pub proof fn lemma_upcoming_skip<S: Source>(a: S, b: S, n: nat)
    requires
        b.stream() == a.stream(),
        b.offset() == a.offset() + n,
        a.offset() + n <= a.stream().len(),
    ensures
        upcoming(b) == upcoming(a).skip(n as int),
{
    broadcast use {vstd::seq_lib::lemma_seq_skip_index, vstd::seq_lib::lemma_seq_skip_len};

    assert(upcoming(b) =~= upcoming(a).skip(n as int));
}

/// In-memory cursors are lossless: every position a snapshot names can
/// always be restored.
pub proof fn lemma_boxed_slice_lossless<T: Copy>()
    ensures
        lossless_source::<BoxedSlice<T>>(),
{
    assert forall|c: BoxedSlice<T>, t: usize|
        c.wf() && <BoxedSlice<T> as Source>::snap_pos(t) <= c.offset() implies #[trigger] c.can_roll_back(
        t,
    ) by {}
}

/// Finite in-memory cursor over fully resident data; snapshots are plain
/// indices and rolling back always succeeds.
pub struct BoxedSlice<T> {
    data: Vec<T>,
    idx: usize,
}

impl<T> BoxedSlice<T> {
    /// A cursor standing at the start of `data`.
    pub fn new(data: Vec<T>) -> (r: Self) where T: Copy
        ensures
            r.wf(),
            r.stream() == data@,
            r.offset() == 0,
    {
        BoxedSlice { data, idx: 0 }
    }
}

impl<T: Copy> Source for BoxedSlice<T> {
    type Item = T;

    type Snapshot = usize;

    closed spec fn stream(&self) -> Seq<T> {
        self.data@
    }

    closed spec fn offset(&self) -> nat {
        self.idx as nat
    }

    closed spec fn wf(&self) -> bool {
        self.idx <= self.data@.len()
    }

    open spec fn snap_pos(s: usize) -> nat {
        s as nat
    }

    /// Rolling back always succeeds: the data is fully resident.
    open spec fn can_roll_back(&self, s: usize) -> bool {
        true
    }

    proof fn lemma_wf(&self) {
    }

    fn next(&mut self) -> (r: Option<T>) {
        if self.idx < self.data.len() {
            let item = self.data[self.idx];
            self.idx = self.idx + 1;
            Some(item)
        } else {
            None
        }
    }

    fn peek(&mut self) -> (r: Option<T>) {
        if self.idx < self.data.len() {
            Some(self.data[self.idx])
        } else {
            None
        }
    }

    fn snapshot(&self) -> (r: usize) {
        self.idx
    }

    fn roll_back(&mut self, to: usize) -> (r: Result<(), ProcessingError>) {
        self.idx = to;
        Ok(())
    }
}

} // verus!
