//! Bounded rolling log of raw sensor measurements.
//!
//! Keeps the most recent measurements in a fixed-capacity log and reports
//! their sum.  A lock flag lets the sampling side suppress the filler
//! samples that are otherwise added while the sensor is idle.

use vstd::prelude::*;
use crate::ring::{Ring, push_evict};
use crate::estimator::sample_sum;

verus! {

/// Capacity of the measurement log.
pub const MEASUREMENT_CAPACITY: usize = 25;

proof fn lemma_sample_sum_take_le(s: Seq<u8>, i: int)
    requires
        0 <= i <= s.len(),
    ensures
        sample_sum(s.take(i)) <= sample_sum(s),
    decreases s.len() - i,
{
    if i == s.len() {
        assert(s.take(i) =~= s);
    } else {
        lemma_sample_sum_take_le(s, i + 1);
        assert(s.take(i + 1).drop_last() =~= s.take(i));
    }
}

/// Rolling measurement log with a lock flag.
pub struct Measurements {
    inner: Ring<u8>,
    locked: bool,
}

impl View for Measurements {
    type V = Seq<u8>;

    /// The retained measurements, oldest first.
    closed spec fn view(&self) -> Seq<u8> {
        self.inner@
    }
}

impl Measurements {
    pub closed spec fn wf(&self) -> bool {
        &&& self.inner.wf()
        &&& self.inner.spec_capacity() == MEASUREMENT_CAPACITY
    }

    pub closed spec fn is_locked(&self) -> bool {
        self.locked
    }

    /// An empty, unlocked log.
    pub fn new() -> (r: Self)
        ensures
            r.wf(),
            r@ == Seq::<u8>::empty(),
            !r.is_locked(),
    {
        Measurements { inner: Ring::new(MEASUREMENT_CAPACITY), locked: false }
    }

    pub fn lock(&mut self)
        requires
            old(self).wf(),
        ensures
            final(self).wf(),
            final(self).is_locked(),
            final(self)@ == old(self)@,
    {
        self.locked = true;
    }

    pub fn unlock(&mut self)
        requires
            old(self).wf(),
        ensures
            final(self).wf(),
            !final(self).is_locked(),
            final(self)@ == old(self)@,
    {
        self.locked = false;
    }

    /// Append a measurement, evicting the oldest once the log is full.
    pub fn add(&mut self, measurement: u8)
        requires
            old(self).wf(),
        ensures
            final(self).wf(),
            final(self)@ == push_evict(old(self)@, measurement, MEASUREMENT_CAPACITY as int),
            final(self).is_locked() == old(self).is_locked(),
    {
        self.inner.write(measurement);
    }

    /// Append a measurement unless the log is locked.
    pub fn add_if_unlocked(&mut self, measurement: u8)
        requires
            old(self).wf(),
        ensures
            final(self).wf(),
            final(self).is_locked() == old(self).is_locked(),
            final(self)@ == if old(self).is_locked() {
                old(self)@
            } else {
                push_evict(old(self)@, measurement, MEASUREMENT_CAPACITY as int)
            },
    {
        if self.locked {
            return;
        }
        self.add(measurement);
    }

    /// Sum of the retained measurements.  The caller keeps the total within
    /// `u8` range; the sampling tasks only ever add zeroes and ones.
    pub fn sum(&self) -> (r: u8)
        requires
            self.wf(),
            sample_sum(self@) <= u8::MAX,
        ensures
            r as int == sample_sum(self@),
    {
        let n = self.inner.len();
        let mut total: u8 = 0;
        let mut i: usize = 0;
        while i < n
            invariant
                self.wf(),
                i <= n,
                n == self@.len(),
                sample_sum(self@) <= u8::MAX,
                total as int == sample_sum(self@.take(i as int)),
            decreases n - i,
        {
            let m = self.inner.get(i);
            proof {
                assert(self@.take(i + 1 as int).drop_last() =~= self@.take(i as int));
                lemma_sample_sum_take_le(self@, i + 1 as int);
            }
            total = total + m;
            i += 1;
        }
        proof {
            assert(self@.take(n as int) =~= self@);
        }
        total
    }
}

} // verus!
