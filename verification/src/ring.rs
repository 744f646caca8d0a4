//! Fixed-capacity circular log.
//!
//! A `Ring` holds at most `cap` entries; once full, each write silently
//! evicts the oldest entry.  Its view is the retained history in
//! chronological order, oldest first.

use vstd::prelude::*;

verus! {

/// The abstract effect of one write: append `x`, and drop the oldest entry
/// if that would exceed the capacity `cap`.
pub open spec fn push_evict<T>(s: Seq<T>, x: T, cap: int) -> Seq<T> {
    if s.len() < cap {
        s.push(x)
    } else {
        s.skip(1).push(x)
    }
}

/// Circular buffer with a capacity fixed at construction.
pub struct Ring<T> {
    buf: Vec<T>,
    head: usize,
    cap: usize,
}

impl<T> View for Ring<T> {
    type V = Seq<T>;

    /// The retained entries, oldest first.
    closed spec fn view(&self) -> Seq<T> {
        if self.buf@.len() < self.cap {
            self.buf@
        } else {
            self.buf@.subrange(self.head as int, self.buf@.len() as int)
                + self.buf@.subrange(0, self.head as int)
        }
    }
}

impl<T: Copy> Ring<T> {
    /// Structural invariant: entries fill the backing vector from index 0
    /// until the capacity is reached, after which `head` marks the oldest.
    pub closed spec fn wf(&self) -> bool {
        &&& 0 < self.cap
        &&& self.buf@.len() <= self.cap
        &&& self.head < self.cap
        &&& (self.buf@.len() < self.cap ==> self.head == 0)
    }

    pub closed spec fn spec_capacity(&self) -> usize {
        self.cap
    }

    pub fn new(cap: usize) -> (r: Self)
        requires
            0 < cap,
        ensures
            r.wf(),
            r@ == Seq::<T>::empty(),
            r.spec_capacity() == cap,
    {
        let r = Ring { buf: Vec::new(), head: 0, cap };
        proof {
            assert(r@ =~= Seq::<T>::empty());
        }
        r
    }

    pub fn len(&self) -> (r: usize)
        requires
            self.wf(),
        ensures
            r == self@.len(),
    {
        self.buf.len()
    }

    pub fn capacity(&self) -> (r: usize)
        requires
            self.wf(),
        ensures
            r == self.spec_capacity(),
    {
        self.cap
    }

    /// The `i`-th oldest retained entry.
    pub fn get(&self, i: usize) -> (r: T)
        requires
            self.wf(),
            i < self@.len(),
        ensures
            r == self@[i as int],
    {
        let j = if i < self.cap - self.head {
            self.head + i
        } else {
            i - (self.cap - self.head)
        };
        self.buf[j]
    }

    /// Append `x`, evicting the oldest entry when already full.
    pub fn write(&mut self, x: T)
        requires
            old(self).wf(),
        ensures
            final(self).wf(),
            final(self)@ == push_evict(old(self)@, x, old(self).spec_capacity() as int),
            final(self).spec_capacity() == old(self).spec_capacity(),
    {
        if self.buf.len() < self.cap {
            self.buf.push(x);
            proof {
                assert(self@ =~= push_evict(old(self)@, x, self.cap as int));
            }
        } else {
            let ghost c = self.cap as int;
            self.buf.set(self.head, x);
            self.head = self.head + 1;
            if self.head == self.cap {
                self.head = 0;
            }
            proof {
                assert(self@ =~= push_evict(old(self)@, x, c));
            }
        }
    }
}

} // verus!
