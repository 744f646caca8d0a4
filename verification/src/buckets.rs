//! Per-window decaying counters.
//!
//! An incremental strategy for the same reporting problem: one counter per
//! window, incremented on every positive sample and aged out at most one
//! unit per record once its oldest contribution falls behind the window's
//! cutoff.  Under steady periodic load it reports the same magnitudes as the
//! sample-log estimator; under bursty load it decays more slowly, since it
//! can forget at most one unit per call.

use vstd::prelude::*;
use crate::estimator::{sat_add64, sat_sub64};

verus! {

/// Number of decaying counters.
pub const BUCKET_COUNT: usize = 8;

/// Cutoff duration of the `i`-th bucket, in milliseconds, ascending.
pub open spec fn cutoff_duration(i: int) -> u64 {
    if i == 0 {
        500
    } else if i == 1 {
        1000
    } else if i == 2 {
        5000
    } else if i == 3 {
        30000
    } else if i == 4 {
        60000
    } else if i == 5 {
        120000
    } else {
        if i == 6 {
            180000
        } else {
            300000
        }
    }
}

/// Runtime table of the cutoff durations, matching `cutoff_duration`.
pub fn cutoff_value(i: usize) -> (r: u64)
    requires
        i < BUCKET_COUNT,
    ensures
        r == cutoff_duration(i as int),
{
    if i == 0 {
        500
    } else if i == 1 {
        1000
    } else if i == 2 {
        5000
    } else if i == 3 {
        30000
    } else if i == 4 {
        60000
    } else if i == 5 {
        120000
    } else if i == 6 {
        180000
    } else {
        300000
    }
}

/// Kind of one recorded sample.
#[derive(Clone, Copy)]
pub enum RecordType {
    High,
    Low,
}

/// One decaying counter: its current value, its window cutoff, and the time
/// its oldest surviving contribution is attributed to.
#[derive(Clone, Copy)]
pub struct Bucket {
    pub value: u16,
    pub cutoff: u64,
    pub oldest_updated_at: u64,
}

/// Aging step applied to one bucket before a sample is recorded at `now`,
/// with `last` the time of the previous record: if the oldest contribution
/// has fallen behind the cutoff, forget one unit (never below zero) and
/// advance the contribution time by the elapsed wall-clock delta.
pub open spec fn spec_clean(b: Bucket, last: u64, now: u64) -> Bucket {
    if b.oldest_updated_at < sat_sub64(now, b.cutoff) {
        Bucket {
            value: if b.value > 0 {
                (b.value - 1) as u16
            } else {
                0
            },
            cutoff: b.cutoff,
            oldest_updated_at: sat_add64(b.oldest_updated_at, sat_sub64(now, last)),
        }
    } else {
        b
    }
}

/// Full effect of one record on one bucket: age it, then count a positive
/// sample into it.
pub open spec fn spec_record(b: Bucket, high: bool, last: u64, now: u64) -> Bucket {
    let c = spec_clean(b, last, now);
    if high {
        Bucket { value: (c.value + 1) as u16, cutoff: c.cutoff, oldest_updated_at: c.oldest_updated_at }
    } else {
        c
    }
}

fn clean_buckets(buckets: &mut Vec<Bucket>, last_updated_at: u64, now: u64)
    requires
        now >= last_updated_at,
    ensures
        final(buckets)@.len() == old(buckets)@.len(),
        forall|i: int|
            0 <= i < old(buckets)@.len() ==> final(buckets)@[i] == spec_clean(
                old(buckets)@[i],
                last_updated_at,
                now,
            ),
{
    let n = buckets.len();
    let mut i: usize = 0;
    while i < n
        invariant
            now >= last_updated_at,
            i <= n,
            n == buckets@.len(),
            buckets@.len() == old(buckets)@.len(),
            forall|k: int|
                0 <= k < i ==> buckets@[k] == spec_clean(old(buckets)@[k], last_updated_at, now),
            forall|k: int| i <= k < n ==> buckets@[k] == old(buckets)@[k],
        decreases n - i,
    {
        let b = buckets[i];
        let cut = if now >= b.cutoff {
            now - b.cutoff
        } else {
            0
        };
        if b.oldest_updated_at < cut {
            let value = if b.value > 0 {
                b.value - 1
            } else {
                0
            };
            let elapsed = now - last_updated_at;
            let advanced = if b.oldest_updated_at <= u64::MAX - elapsed {
                b.oldest_updated_at + elapsed
            } else {
                u64::MAX
            };
            buckets.set(i, Bucket { value, cutoff: b.cutoff, oldest_updated_at: advanced });
        }
        i += 1;
    }
}

/// Event store built from decaying counters.
pub struct Events {
    pub buckets: Vec<Bucket>,
    pub last_updated_at: u64,
}

impl Events {
    /// One counter per configured window.
    pub open spec fn wf(&self) -> bool {
        self.buckets@.len() == BUCKET_COUNT
    }

    /// A fresh store whose counters are zero, with every contribution time
    /// set to `start_time`.
    pub fn new_with_time(start_time: u64) -> (r: Self)
        ensures
            r.wf(),
            r.last_updated_at == start_time,
            forall|i: int|
                0 <= i < BUCKET_COUNT ==> r.buckets@[i] == (Bucket {
                    value: 0u16,
                    cutoff: cutoff_duration(i),
                    oldest_updated_at: start_time,
                }),
    {
        let mut buckets: Vec<Bucket> = Vec::new();
        let mut i: usize = 0;
        while i < BUCKET_COUNT
            invariant
                i <= BUCKET_COUNT,
                buckets@.len() == i,
                forall|k: int|
                    0 <= k < i ==> buckets@[k] == (Bucket {
                        value: 0u16,
                        cutoff: cutoff_duration(k),
                        oldest_updated_at: start_time,
                    }),
            decreases BUCKET_COUNT - i,
        {
            let cutoff = cutoff_value(i);
            buckets.push(Bucket { value: 0, cutoff, oldest_updated_at: start_time });
            i += 1;
        }
        Events { buckets, last_updated_at: start_time }
    }

    /// Record one sample observed at `now_ms`: age every bucket, then count
    /// a positive sample into every bucket.  The clock must not run
    /// backwards between records, and a counter must not be saturated when a
    /// positive sample arrives.
    pub fn record_at_time(&mut self, record_type: RecordType, now_ms: u64)
        requires
            old(self).wf(),
            now_ms >= old(self).last_updated_at,
            record_type is High ==> forall|i: int|
                0 <= i < BUCKET_COUNT ==> old(self).buckets@[i].value < u16::MAX,
        ensures
            final(self).wf(),
            final(self).last_updated_at == now_ms,
            forall|i: int|
                0 <= i < BUCKET_COUNT ==> final(self).buckets@[i] == spec_record(
                    old(self).buckets@[i],
                    record_type is High,
                    old(self).last_updated_at,
                    now_ms,
                ),
    {
        clean_buckets(&mut self.buckets, self.last_updated_at, now_ms);
        match record_type {
            RecordType::High => {
                let n = self.buckets.len();
                let mut i: usize = 0;
                while i < n
                    invariant
                        i <= n,
                        n == self.buckets@.len(),
                        n == BUCKET_COUNT,
                        forall|k: int| 0 <= k < n ==> old(self).buckets@[k].value < u16::MAX,
                        forall|k: int|
                            i <= k < n ==> self.buckets@[k] == spec_clean(
                                old(self).buckets@[k],
                                old(self).last_updated_at,
                                now_ms,
                            ),
                        forall|k: int|
                            0 <= k < i ==> self.buckets@[k] == spec_record(
                                old(self).buckets@[k],
                                true,
                                old(self).last_updated_at,
                                now_ms,
                            ),
                    decreases n - i,
                {
                    let b = self.buckets[i];
                    self.buckets.set(
                        i,
                        Bucket { value: b.value + 1, cutoff: b.cutoff, oldest_updated_at: b.oldest_updated_at },
                    );
                    i += 1;
                }
            },
            RecordType::Low => {},
        }
        self.last_updated_at = now_ms;
    }

    /// A copy of the current counter values, in window order.
    pub fn report(&self) -> (r: Vec<u16>)
        requires
            self.wf(),
        ensures
            r@.len() == BUCKET_COUNT,
            forall|i: int| 0 <= i < BUCKET_COUNT ==> r@[i] == self.buckets@[i].value,
    {
        let n = self.buckets.len();
        let mut r: Vec<u16> = Vec::new();
        let mut i: usize = 0;
        while i < n
            invariant
                i <= n,
                n == self.buckets@.len(),
                r@.len() == i,
                forall|k: int| 0 <= k < i ==> r@[k] == self.buckets@[k].value,
            decreases n - i,
        {
            let b = self.buckets[i];
            r.push(b.value);
            i += 1;
        }
        r
    }
}

} // verus!
