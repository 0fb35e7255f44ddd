//! A cursor over a stream that cannot keep full history: it wraps a pull
//! feed, a tracker and a fixed-capacity lookback buffer. Rolling back
//! succeeds only within the buffered window; going further fails with a
//! hard error rather than silently truncating.

use vstd::prelude::*;

use crate::buf::{ring_push, RingBuf};
use crate::location::{Location, Tracker};
use crate::processed::{ErrorCause, ProcessingError};
use crate::source::Source;

verus! {

broadcast use {
    vstd::seq_lib::lemma_seq_skip_index,
    vstd::seq_lib::lemma_seq_skip_len,
};

/// A one-way pull source of items: what a plain iterator is to ordinary
/// code. Pulling yields the next of the approaching items or reports their
/// end.
pub trait Feed: Sized {
    type Item: Copy;

    /// The items this feed will hand out, in order.
    spec fn approaching(&self) -> Seq<Self::Item>;

    fn pull(&mut self) -> (r: Option<Self::Item>)
        ensures
            old(self).approaching().len() == 0 ==> {
                &&& r is None
                &&& final(self).approaching() == old(self).approaching()
            },
            old(self).approaching().len() > 0 ==> {
                &&& r == Some(old(self).approaching()[0])
                &&& final(self).approaching() == old(self).approaching().skip(1)
            },
    ;
}

/// A feed over a fully resident vector.
pub struct VecFeed<T> {
    items: Vec<T>,
    at: usize,
}

impl<T> VecFeed<T> {
    /// A feed standing at the start of `items`.
    pub fn new(items: Vec<T>) -> (r: Self) where T: Copy
        ensures
            r.approaching() == items@,
    {
        VecFeed { items, at: 0 }
    }
}

impl<T: Copy> Feed for VecFeed<T> {
    type Item = T;

    closed spec fn approaching(&self) -> Seq<T> {
        self.items@.skip(if self.at <= self.items@.len() {
            self.at as int
        } else {
            self.items@.len() as int
        })
    }

    fn pull(&mut self) -> (r: Option<T>) {
        if self.at < self.items.len() {
            let item = self.items[self.at];
            self.at = self.at + 1;
            Some(item)
        } else {
            None
        }
    }
}

/// Cursor over an arbitrary feed, with positions kept by a tracker and the
/// last `capacity`-many consumed items retained for rollback. A snapshot is
/// the [`Location`] of the current position; its item count names the
/// stream offset to restore.
pub struct Buffered<F: Feed, K> {
    feed: F,
    tracker: K,
    buf: RingBuf<(Location, F::Item)>,
    replay: usize,
    pending: Option<F::Item>,
    history: Ghost<Seq<F::Item>>,
}

impl<F: Feed, K: Tracker<F::Item>> Buffered<F, K> {
    /// How many items have ever been consumed through this cursor: the
    /// frontier up to which locations have been tracked.
    pub closed spec fn frontier(&self) -> nat {
        self.history@.len()
    }

    /// The items sitting between the feed and the cursor: a peeked item
    /// not yet consumed, if any.
    closed spec fn pending_seq(&self) -> Seq<F::Item> {
        match self.pending {
            Some(v) => seq![v],
            None => Seq::empty(),
        }
    }

    /// A cursor with nothing consumed yet, tracking positions with
    /// `tracker` (which must stand at the start) and retaining up to
    /// `capacity` consumed items for rollback.
    pub fn new(feed: F, tracker: K, capacity: usize) -> (r: Self)
        requires
            tracker.spec_location().spec_at_char() == 0,
            feed.approaching().len() <= usize::MAX,
        ensures
            r.wf(),
            r.stream() == feed.approaching(),
            r.offset() == 0,
            r.frontier() == 0,
            r.lookback() == capacity,
    {
        let r = Buffered {
            feed,
            tracker,
            buf: RingBuf::new(capacity),
            replay: 0,
            pending: None,
            history: Ghost(Seq::empty()),
        };
        proof {
            assert(r.stream() =~= feed.approaching());
        }
        r
    }

    /// The lookback capacity this cursor was built with.
    pub closed spec fn lookback(&self) -> nat {
        self.buf.capacity()
    }

    /// The bounded-window law: rolling back to a snapshot succeeds exactly
    /// when the positions between its target and the consumption frontier
    /// all still sit in the lookback window, which holds the last
    /// `lookback()`-many consumed items (fewer only while fewer have ever
    /// been consumed).
    pub proof fn lemma_rollback_window(&self, s: Location)
        requires
            self.wf(),
        ensures
            self.can_roll_back(s) <==> self.frontier() - Self::snap_pos(s) <= (if self.frontier()
                < self.lookback() {
                self.frontier()
            } else {
                self.lookback()
            }),
    {
    }
}

impl<F: Feed, K: Tracker<F::Item>> Source for Buffered<F, K> {
    type Item = F::Item;

    type Snapshot = Location;

    closed spec fn stream(&self) -> Seq<F::Item> {
        self.history@ + self.pending_seq() + self.feed.approaching()
    }

    closed spec fn offset(&self) -> nat {
        (self.history@.len() + self.replay - self.buf@.len()) as nat
    }

    closed spec fn wf(&self) -> bool {
        &&& self.buf.wf()
        &&& self.replay <= self.buf@.len()
        &&& self.buf@.len() == if self.frontier() < self.lookback() {
            self.frontier()
        } else {
            self.lookback()
        }
        &&& self.tracker.spec_location().spec_at_char() == self.frontier()
        &&& self.stream().len() <= usize::MAX
        &&& forall|i: int|
            0 <= i < self.buf@.len() ==> (#[trigger] self.buf@[i]).1 == self.history@[self.frontier()
                - self.buf@.len() + i]
        &&& forall|i: int|
            0 <= i < self.buf@.len() ==> (#[trigger] self.buf@[i]).0.spec_at_char()
                == self.frontier() - self.buf@.len() + i
    }

    open spec fn snap_pos(s: Location) -> nat {
        s.spec_at_char() as nat
    }

    /// Rolling back works exactly while the target position is still within
    /// the retained window.
    closed spec fn can_roll_back(&self, s: Location) -> bool {
        s.spec_at_char() + self.buf@.len() >= self.frontier()
    }

    proof fn lemma_wf(&self) {
    }

    fn next(&mut self) -> (r: Option<F::Item>)
        ensures
            final(self).lookback() == old(self).lookback(),
            final(self).frontier() == if old(self).offset() < old(self).frontier() {
                old(self).frontier()
            } else if old(self).offset() < old(self).stream().len() {
                old(self).frontier() + 1
            } else {
                old(self).frontier()
            },
    {
        let buffered = self.buf.len();
        if self.replay < buffered {
            let entry = match self.buf.get(self.replay) {
                Some(e) => *e,
                None => {
                    // Unreachable: the replay index lies within the buffer.
                    proof {
                        assert(false);
                    }
                    return None;
                },
            };
            self.replay = self.replay + 1;
            proof {
                assert(self.stream() =~= old(self).stream());
                let off = old(self).offset() as int;
                assert(self.stream()[off] == self.history@[off]);
            }
            Some(entry.1)
        } else {
            let pulled = match self.pending.take() {
                Some(v) => Some(v),
                None => self.feed.pull(),
            };
            match pulled {
                Some(item) => {
                    let loc = self.tracker.location();
                    self.tracker.update(&item);
                    self.buf.push((loc, item));
                    proof {
                        self.history@ = self.history@.push(item);
                    }
                    let buffered_now = self.buf.len();
                    self.replay = buffered_now;
                    proof {
                        assert(self.stream() =~= old(self).stream());
                        assert(old(self).stream()[old(self).offset() as int] == item);
                        let b0 = old(self).buf@;
                        let b1 = self.buf@;
                        assert(b1 == ring_push(b0, (loc, item), old(self).buf.capacity()));
                        assert forall|i: int| 0 <= i < b1.len() implies (#[trigger] b1[i]).1
                            == self.history@[self.frontier() - b1.len() + i] && b1[i].0.spec_at_char()
                            == self.frontier() - b1.len() + i by {
                            if i < b1.len() - 1 {
                                if b0.len() < old(self).buf.capacity() {
                                    assert(b1[i] == b0[i]);
                                } else {
                                    assert(b1[i] == b0[i + 1]);
                                }
                            } else {
                                assert(b1[i] == (loc, item));
                            }
                        }
                    }
                    Some(item)
                },
                None => {
                    proof {
                        assert(self.stream() =~= old(self).stream());
                        assert(self.stream().len() == old(self).offset());
                    }
                    None
                },
            }
        }
    }

    fn peek(&mut self) -> (r: Option<F::Item>)
        ensures
            final(self).lookback() == old(self).lookback(),
            final(self).frontier() == old(self).frontier(),
    {
        let buffered = self.buf.len();
        if self.replay < buffered {
            let entry = match self.buf.get(self.replay) {
                Some(e) => *e,
                None => {
                    // Unreachable: the replay index lies within the buffer.
                    proof {
                        assert(false);
                    }
                    return None;
                },
            };
            proof {
                let off = self.offset() as int;
                assert(self.stream()[off] == self.history@[off]);
            }
            Some(entry.1)
        } else {
            if self.pending.is_none() {
                self.pending = self.feed.pull();
            }
            proof {
                assert(self.stream() =~= old(self).stream());
            }
            match &self.pending {
                Some(v) => Some(*v),
                None => None,
            }
        }
    }

    fn snapshot(&self) -> (r: Location) {
        let buffered = self.buf.len();
        if self.replay < buffered {
            match self.buf.get(self.replay) {
                Some(e) => e.0,
                None => {
                    // Unreachable: the replay index lies within the buffer.
                    proof {
                        assert(false);
                    }
                    self.tracker.location()
                },
            }
        } else {
            self.tracker.location()
        }
    }

    fn roll_back(&mut self, to: Location) -> (r: Result<(), ProcessingError>)
        ensures
            final(self).lookback() == old(self).lookback(),
            final(self).frontier() == old(self).frontier(),
            r matches Err(e) ==> e.spec_location().spec_at_char() == old(self).frontier(),
    {
        let frontier = self.tracker.location().at_char();
        let target = to.at_char();
        let buffered = self.buf.len();
        if target <= frontier && frontier - target <= buffered {
            self.replay = buffered - (frontier - target);
            Ok(())
        } else {
            Err(ProcessingError::new(self.tracker.location(), ErrorCause::RollBackOutOfWindow))
        }
    }
}

} // verus!
