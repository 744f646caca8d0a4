//! Multi-window event-rate estimator over a circular sample log.
//!
//! `Events` keeps a bounded log of binary samples and a bounded log of the
//! times at which they were recorded.  Each record infers the average
//! sampling cadence from the timestamp history, converts every window
//! duration into a number of recent samples, and recomputes the per-window
//! counts of positive samples.  With fewer than two timestamps the cadence
//! is undefined and the previous report is kept.

use vstd::prelude::*;
use crate::ring::{Ring, push_evict};
use crate::uuid_wrap::{uuid_bytes, uuid_from_bytes};

verus! {

/// Capacity of the sample log.
pub const SAMPLE_CAPACITY: usize = 3000;

/// Capacity of the timestamp log used for cadence inference.
pub const TIMESTAMP_CAPACITY: usize = 30;

/// Number of trailing windows reported.
pub const WINDOW_COUNT: usize = 8;

/// Duration of the `i`-th trailing window, in milliseconds, ascending.
pub open spec fn breakpoint(i: int) -> u64 {
    if i == 0 {
        1000
    } else if i == 1 {
        5000
    } else if i == 2 {
        30000
    } else if i == 3 {
        60000
    } else if i == 4 {
        120000
    } else if i == 5 {
        240000
    } else {
        if i == 6 {
            360000
        } else {
            600000
        }
    }
}

/// Runtime table of the window durations, matching `breakpoint`.
pub fn breakpoint_value(i: usize) -> (r: u64)
    requires
        i < WINDOW_COUNT,
    ensures
        r == breakpoint(i as int),
{
    if i == 0 {
        1000
    } else if i == 1 {
        5000
    } else if i == 2 {
        30000
    } else if i == 3 {
        60000
    } else if i == 4 {
        120000
    } else if i == 5 {
        240000
    } else if i == 6 {
        360000
    } else {
        600000
    }
}

/// Kind of one recorded sample.
#[derive(Clone, Copy)]
pub enum RecordType {
    High,
    Low,
}

impl RecordType {
    /// The stored sample value: `1` for a positive sample, `0` otherwise.
    pub open spec fn sample_bit(self) -> u8 {
        match self {
            RecordType::High => 1,
            RecordType::Low => 0,
        }
    }
}

/// `a - b`, floored at zero.
pub open spec fn sat_sub64(a: u64, b: u64) -> u64 {
    if a >= b {
        (a - b) as u64
    } else {
        0
    }
}

/// `a + b`, capped at `u64::MAX`.
pub open spec fn sat_add64(a: u64, b: u64) -> u64 {
    if a + b <= u64::MAX {
        (a + b) as u64
    } else {
        u64::MAX
    }
}

/// Number of positive entries in a binary sample sequence.
pub open spec fn sample_sum(s: Seq<u8>) -> int
    decreases s.len(),
{
    if s.len() == 0 {
        0
    } else {
        sample_sum(s.drop_last()) + s.last()
    }
}

/// Number of positive samples among the `w` most recent entries of `s`,
/// capped at however many entries `s` holds.
pub open spec fn count_recent(s: Seq<u8>, w: int) -> int {
    if w <= 0 {
        0
    } else if w >= s.len() {
        sample_sum(s)
    } else {
        sample_sum(s.skip(s.len() - w))
    }
}

/// Total of the successive timestamp gaps.  A clock step backwards counts as
/// a zero gap, and the total saturates instead of wrapping.
pub open spec fn gap_total(ts: Seq<u64>) -> u64
    decreases ts.len(),
{
    if ts.len() < 2 {
        0
    } else {
        sat_add64(gap_total(ts.drop_last()), sat_sub64(ts.last(), ts[ts.len() - 2]))
    }
}

/// Inferred cadence: the mean inter-timestamp gap, undefined with fewer than
/// two timestamps.
pub open spec fn cadence(ts: Seq<u64>) -> Option<u64> {
    if ts.len() < 2 {
        None
    } else {
        Some((gap_total(ts) as int / (ts.len() - 1)) as u64)
    }
}

/// How many consecutive samples span the duration `b` at cadence `avg`;
/// zero when the cadence is zero or exceeds `b`.
pub open spec fn window_width(b: u64, avg: u64) -> int {
    if avg == 0 {
        0
    } else {
        b as int / avg as int
    }
}

/// A freshly recomputed report for the given samples and cadence.
pub open spec fn recompute(samples: Seq<u8>, avg: u64) -> Seq<u16> {
    Seq::new(WINDOW_COUNT as nat, |i: int| count_recent(samples, window_width(breakpoint(i), avg)) as u16)
}

/// Big-endian serialization of a report: two bytes per counter, in window
/// order.
pub open spec fn report_be_bytes(r: Seq<u16>) -> Seq<u8> {
    Seq::new(
        (2 * r.len()) as nat,
        |i: int|
            if i % 2 == 0 {
                (r[i / 2] / 256) as u8
            } else {
                (r[i / 2] % 256) as u8
            },
    )
}

/// Abstract state of the estimator: retained samples and timestamps in
/// chronological order, and the last computed report.
#[verifier::ext_equal]
pub ghost struct EventsView {
    pub samples: Seq<u8>,
    pub stamps: Seq<u64>,
    pub report: Seq<u16>,
}

/// Well-formedness of an abstract state.
pub open spec fn view_wf(v: EventsView) -> bool {
    &&& v.samples.len() <= SAMPLE_CAPACITY
    &&& v.stamps.len() <= TIMESTAMP_CAPACITY
    &&& v.report.len() == WINDOW_COUNT
    &&& forall|i: int| 0 <= i < v.samples.len() ==> v.samples[i] <= 1
    &&& forall|i: int| 0 <= i < WINDOW_COUNT ==> v.report[i] as int <= v.samples.len()
    &&& v.stamps.len() < 2 ==> forall|i: int| 0 <= i < WINDOW_COUNT ==> v.report[i] == 0
}

/// The initial abstract state: empty logs and an all-zero report.
pub open spec fn initial_view() -> EventsView {
    EventsView {
        samples: Seq::empty(),
        stamps: Seq::empty(),
        report: Seq::new(WINDOW_COUNT as nat, |i: int| 0u16),
    }
}

/// The abstract effect of recording one sample at time `now`: append the
/// sample, recompute the report if a cadence can be inferred from the
/// timestamps already present, then append the timestamp.
pub open spec fn record_step(v: EventsView, bit: u8, now: u64) -> EventsView {
    let samples = push_evict(v.samples, bit, SAMPLE_CAPACITY as int);
    EventsView {
        samples,
        stamps: push_evict(v.stamps, now, TIMESTAMP_CAPACITY as int),
        report: match cadence(v.stamps) {
            Some(avg) => recompute(samples, avg),
            None => v.report,
        },
    }
}

/// Multi-window event-rate estimator.
pub struct Events {
    buffer: Ring<u8>,
    update_timestamps: Ring<u64>,
    report: Vec<u16>,
}

impl View for Events {
    type V = EventsView;

    closed spec fn view(&self) -> EventsView {
        EventsView {
            samples: self.buffer@,
            stamps: self.update_timestamps@,
            report: self.report@,
        }
    }
}

pub proof fn lemma_sample_sum_bounds(s: Seq<u8>)
    requires
        forall|i: int| 0 <= i < s.len() ==> s[i] <= 1,
    ensures
        0 <= sample_sum(s) <= s.len(),
    decreases s.len(),
{
    if s.len() > 0 {
        lemma_sample_sum_bounds(s.drop_last());
    }
}

pub proof fn lemma_count_recent_bounds(s: Seq<u8>, w: int)
    requires
        forall|i: int| 0 <= i < s.len() ==> s[i] <= 1,
    ensures
        0 <= count_recent(s, w) <= s.len(),
{
    if w <= 0 {
    } else if w >= s.len() {
        lemma_sample_sum_bounds(s);
    } else {
        lemma_sample_sum_bounds(s.skip(s.len() - w));
    }
}

impl Events {
    /// Representation invariant tying the rings to their capacities and the
    /// abstract state to its well-formedness.
    pub closed spec fn wf(&self) -> bool {
        &&& self.buffer.wf()
        &&& self.buffer.spec_capacity() == SAMPLE_CAPACITY
        &&& self.update_timestamps.wf()
        &&& self.update_timestamps.spec_capacity() == TIMESTAMP_CAPACITY
        &&& view_wf(self@)
    }

    /// Mean gap between the retained timestamps, `None` with fewer than two.
    fn average_duration_between_updates(&self) -> (r: Option<u64>)
        requires
            self.wf(),
        ensures
            r == cadence(self@.stamps),
    {
        let n = self.update_timestamps.len();
        if n < 2 {
            return None;
        }
        let mut total: u64 = 0;
        let mut i: usize = 1;
        while i < n
            invariant
                self.wf(),
                1 <= i <= n,
                n == self@.stamps.len(),
                total == gap_total(self@.stamps.take(i as int)),
            decreases n - i,
        {
            let prev = self.update_timestamps.get(i - 1);
            let cur = self.update_timestamps.get(i);
            let d = if cur >= prev {
                cur - prev
            } else {
                0
            };
            proof {
                assert(self@.stamps.take(i + 1 as int).drop_last() =~= self@.stamps.take(i as int));
                assert(d == sat_sub64(self@.stamps[i as int], self@.stamps[i - 1]));
            }
            total = if total <= u64::MAX - d {
                total + d
            } else {
                u64::MAX
            };
            i += 1;
        }
        proof {
            assert(self@.stamps.take(n as int) =~= self@.stamps);
        }
        Some(total / (n as u64 - 1))
    }

    /// Count of positive samples among the `w` most recent log entries.
    fn count_recent_samples(&self, w: u64) -> (r: u16)
        requires
            self.wf(),
        ensures
            r as int == count_recent(self@.samples, w as int),
    {
        let len = self.buffer.len();
        let take_n: usize = if (len as u64) <= w {
            len
        } else {
            w as usize
        };
        let ghost suffix = self@.samples.skip(len - take_n);
        let mut sum: u16 = 0;
        let mut j: usize = 0;
        while j < take_n
            invariant
                self.wf(),
                j <= take_n,
                take_n <= len,
                len == self@.samples.len(),
                suffix == self@.samples.skip(len - take_n),
                sum as int == sample_sum(suffix.take(j as int)),
                sum as int <= j,
            decreases take_n - j,
        {
            let s = self.buffer.get(len - take_n + j);
            proof {
                assert(suffix.take(j + 1 as int).drop_last() =~= suffix.take(j as int));
                assert(suffix.take(j + 1 as int).last() == self@.samples[len - take_n + j]);
            }
            sum = sum + s as u16;
            j += 1;
        }
        proof {
            assert(suffix.take(take_n as int) =~= suffix);
            if take_n == len {
                assert(self@.samples.skip(0) =~= self@.samples);
            }
        }
        sum
    }

    /// Record one sample observed at `timestamp_ms` (a millisecond clock
    /// reading supplied by the caller) and refresh the report.
    pub fn record_at_time(&mut self, record_type: RecordType, timestamp_ms: u64)
        requires
            old(self).wf(),
        ensures
            final(self).wf(),
            final(self)@ == record_step(old(self)@, record_type.sample_bit(), timestamp_ms),
    {
        let bit: u8 = match record_type {
            RecordType::High => 1,
            RecordType::Low => 0,
        };
        self.buffer.write(bit);
        let ghost samples = self@.samples;
        let avg_opt = self.average_duration_between_updates();
        match avg_opt {
            Some(avg) => {
                let mut new_report: Vec<u16> = Vec::new();
                let mut i: usize = 0;
                while i < WINDOW_COUNT
                    invariant
                        self.wf(),
                        self@.samples == samples,
                        i <= WINDOW_COUNT,
                        new_report@.len() == i,
                        forall|k: int| 0 <= k < i ==> new_report@[k] == recompute(samples, avg)[k],
                    decreases WINDOW_COUNT - i,
                {
                    let b = breakpoint_value(i);
                    let w: u64 = if avg == 0 {
                        0
                    } else {
                        b / avg
                    };
                    let c = self.count_recent_samples(w);
                    proof {
                        assert(w as int == window_width(breakpoint(i as int), avg));
                    }
                    new_report.push(c);
                    i += 1;
                }
                proof {
                    assert(new_report@ =~= recompute(samples, avg));
                    assert forall|k: int| 0 <= k < WINDOW_COUNT implies new_report@[k]
                        as int <= samples.len() by {
                        lemma_count_recent_bounds(samples, window_width(breakpoint(k), avg));
                    };
                }
                self.report = new_report;
            },
            None => {},
        }
        self.update_timestamps.write(timestamp_ms);
        proof {
            assert(self@ =~= record_step(old(self)@, record_type.sample_bit(), timestamp_ms));
        }
    }

    /// A copy of the most recent report, one counter per window.
    pub fn as_bytes(&self) -> (r: [u16; 8])
        requires
            self.wf(),
        ensures
            r@ == self@.report,
    {
        let r = [
            self.report[0],
            self.report[1],
            self.report[2],
            self.report[3],
            self.report[4],
            self.report[5],
            self.report[6],
            self.report[7],
        ];
        proof {
            assert(r@ =~= self@.report);
        }
        r
    }

    /// The report packed into a sixteen-byte identifier, each counter in
    /// big-endian order.
    pub fn as_uuid(&self) -> (r: uuid::Uuid)
        requires
            self.wf(),
        ensures
            uuid_bytes(r) == report_be_bytes(self@.report),
    {
        let bytes: [u8; 16] = [
            (self.report[0] / 256) as u8,
            (self.report[0] % 256) as u8,
            (self.report[1] / 256) as u8,
            (self.report[1] % 256) as u8,
            (self.report[2] / 256) as u8,
            (self.report[2] % 256) as u8,
            (self.report[3] / 256) as u8,
            (self.report[3] % 256) as u8,
            (self.report[4] / 256) as u8,
            (self.report[4] % 256) as u8,
            (self.report[5] / 256) as u8,
            (self.report[5] % 256) as u8,
            (self.report[6] / 256) as u8,
            (self.report[6] % 256) as u8,
            (self.report[7] / 256) as u8,
            (self.report[7] % 256) as u8,
        ];
        proof {
            assert(bytes@ =~= report_be_bytes(self@.report));
        }
        uuid_from_bytes(bytes)
    }
}

impl Default for Events {
    /// Empty logs and an all-zero report.
    fn default() -> (r: Self)
        ensures
            r.wf(),
            r@ == initial_view(),
    {
        let mut report: Vec<u16> = Vec::new();
        let mut i: usize = 0;
        while i < WINDOW_COUNT
            invariant
                i <= WINDOW_COUNT,
                report@.len() == i,
                forall|k: int| 0 <= k < i ==> report@[k] == 0,
            decreases WINDOW_COUNT - i,
        {
            report.push(0);
            i += 1;
        }
        let r = Events {
            buffer: Ring::new(SAMPLE_CAPACITY),
            update_timestamps: Ring::new(TIMESTAMP_CAPACITY),
            report,
        };
        proof {
            assert(r@ =~= initial_view());
        }
        r
    }
}

} // verus!
