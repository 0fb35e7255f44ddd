//! A fixed-capacity buffer with oldest-first eviction, used for bounded
//! lookback in buffered cursors.

use vstd::prelude::*;

verus! {

/// What the contents of a ring buffer become when one value is pushed:
/// appended while there is room, otherwise the oldest element gives way.
pub open spec fn ring_push<T>(s: Seq<T>, v: T, cap: nat) -> Seq<T> {
    if s.len() < cap {
        s.push(v)
    } else if cap == 0 {
        Seq::empty()
    } else {
        s.skip(1).push(v)
    }
}

/// The element evicted by one push, if any. With capacity zero the pushed
/// value itself is turned away.
pub open spec fn ring_evicted<T>(s: Seq<T>, v: T, cap: nat) -> Option<T> {
    if s.len() < cap {
        None
    } else if cap == 0 {
        Some(v)
    } else {
        Some(s[0])
    }
}

/// The contents after pushing a whole sequence of values, one at a time.
pub open spec fn ring_push_all<T>(s: Seq<T>, items: Seq<T>, cap: nat) -> Seq<T>
    decreases items.len(),
{
    if items.len() == 0 {
        s
    } else {
        ring_push_all(ring_push(s, items[0], cap), items.skip(1), cap)
    }
}

/// Bounded sequence of at most `capacity` elements; pushing past capacity
/// evicts the oldest element. The view is the retained contents, oldest
/// first.
#[derive(Debug, Clone)]
pub struct RingBuf<T> {
    buf: Vec<T>,
    cap: usize,
}

impl<T> View for RingBuf<T> {
    type V = Seq<T>;

    closed spec fn view(&self) -> Seq<T> {
        self.buf@
    }
}

impl<T> RingBuf<T> {
    /// The fixed capacity this buffer was created with.
    pub closed spec fn capacity(&self) -> nat {
        self.cap as nat
    }

    /// The buffer never holds more elements than its capacity.
    pub open spec fn wf(&self) -> bool {
        self@.len() <= self.capacity()
    }

    /// An empty buffer of the given capacity.
    pub fn new(capacity: usize) -> (r: Self)
        ensures
            r@ == Seq::<T>::empty(),
            r.capacity() == capacity,
            r.wf(),
    {
        Self { buf: Vec::new(), cap: capacity }
    }

    /// Append a value; when the buffer is full the oldest element is
    /// evicted and returned.
    pub fn push(&mut self, val: T) -> (r: Option<T>)
        requires
            old(self).wf(),
        ensures
            final(self).wf(),
            final(self).capacity() == old(self).capacity(),
            final(self)@ == ring_push(old(self)@, val, old(self).capacity()),
            r == ring_evicted(old(self)@, val, old(self).capacity()),
    {
        if self.buf.len() < self.cap {
            self.buf.push(val);
            None
        } else if self.cap == 0 {
            Some(val)
        } else {
            let previous = self.buf.remove(0);
            self.buf.push(val);
            proof {
                assert(self.buf@ =~= old(self).buf@.skip(1).push(val));
            }
            Some(previous)
        }
    }

    /// The element at `index`, oldest first, if the buffer is that long.
    pub fn get(&self, index: usize) -> (r: Option<&T>)
        ensures
            index < self@.len() ==> (r matches Some(v) && *v == self@[index as int]),
            index >= self@.len() ==> r is None,
    {
        if index < self.buf.len() {
            Some(&self.buf[index])
        } else {
            None
        }
    }

    /// Exclusive access to the element at `index`, for updating it in
    /// place.
    pub fn get_mut(&mut self, index: usize) -> (r: &mut T)
        requires
            index < old(self)@.len(),
        ensures
            *r == old(self)@[index as int],
            final(self)@ == old(self)@.update(index as int, *final(r)),
            final(self).capacity() == old(self).capacity(),
    {
        &mut self.buf[index]
    }

    /// How many elements are currently retained.
    pub fn len(&self) -> (r: usize)
        ensures
            r == self@.len(),
    {
        self.buf.len()
    }
}

/// After pushing any run of values into a well-formed buffer, the contents
/// are exactly the most recent `capacity`-many of all values ever present,
/// in order.
pub proof fn lemma_ring_run<T>(s: Seq<T>, items: Seq<T>, cap: nat)
    requires
        s.len() <= cap,
    ensures
        ring_push_all(s, items, cap) == (s + items).skip(if s.len() + items.len() <= cap {
            0
        } else {
            s.len() + items.len() - cap
        }),
    decreases items.len(),
{
    if items.len() == 0 {
        assert(s + items =~= s);
        assert((s + items).skip(0) =~= s);
    } else {
        let v = items[0];
        let s1 = ring_push(s, v, cap);
        if s.len() < cap {
            assert(s1 =~= s + seq![v]);
        } else if cap == 0 {
            assert(s1 =~= (s + seq![v]).skip((s.len() + 1) as int));
        } else {
            assert(s1 =~= (s + seq![v]).skip(1));
        }
        lemma_ring_run(s1, items.skip(1), cap);
        assert(s1 + items.skip(1) =~= (s + items).skip(if s.len() + 1 <= cap {
            0
        } else {
            s.len() + 1 - cap
        }));
        assert(ring_push_all(s, items, cap) == ring_push_all(s1, items.skip(1), cap));
        assert(ring_push_all(s1, items.skip(1), cap) =~= (s + items).skip(
            if s.len() + items.len() <= cap {
                0
            } else {
                s.len() + items.len() - cap
            },
        ));
    }
}

/// Eviction law: pushing `capacity + k` values into an empty buffer retains
/// exactly the last `capacity` pushed values, in insertion order.
pub proof fn lemma_ring_eviction<T>(items: Seq<T>, cap: nat)
    requires
        items.len() >= cap,
    ensures
        ring_push_all(Seq::<T>::empty(), items, cap) == items.skip(items.len() - cap),
{
    lemma_ring_run(Seq::<T>::empty(), items, cap);
    assert(Seq::<T>::empty() + items =~= items);
    if items.len() == cap {
        assert(ring_push_all(Seq::<T>::empty(), items, cap) =~= items.skip(items.len() - cap));
    } else {
        assert((Seq::<T>::empty() + items).skip(items.len() - cap) =~= items.skip(
            items.len() - cap,
        ));
    }
}

} // verus!
