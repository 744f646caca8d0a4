//! General laws of the estimator, stated and proved over its abstract state.
//!
//! Every reachable state of `estimator::Events` is some chain of
//! `record_step` applications starting from `initial_view`, so laws proved
//! here about those spec functions hold of every value the estimator can
//! take at run time.

use vstd::prelude::*;
use vstd::math::min;
use crate::ring::push_evict;
use crate::estimator::{
    EventsView, view_wf, initial_view, record_step, cadence, recompute, count_recent, sample_sum,
    window_width, breakpoint, gap_total, sat_add64, sat_sub64, lemma_sample_sum_bounds,
    lemma_count_recent_bounds, SAMPLE_CAPACITY, TIMESTAMP_CAPACITY, WINDOW_COUNT,
};

verus! {

/// A count over the `w` most recent samples never exceeds `w` itself.
pub proof fn lemma_count_recent_le_width(s: Seq<u8>, w: int)
    requires
        forall|i: int| 0 <= i < s.len() ==> s[i] <= 1,
        0 <= w,
    ensures
        count_recent(s, w) <= w,
{
    if w >= s.len() {
        lemma_sample_sum_bounds(s);
    } else if w > 0 {
        lemma_sample_sum_bounds(s.skip(s.len() - w));
    }
}

/// The state reached by an arbitrary chain of records from the initial
/// state: entry `k` of `rs` is the sample bit and timestamp of the `k`-th
/// record.
pub open spec fn record_trace(rs: Seq<(u8, u64)>) -> EventsView
    decreases rs.len(),
{
    if rs.len() == 0 {
        initial_view()
    } else {
        record_step(record_trace(rs.drop_last()), rs.last().0, rs.last().1)
    }
}

/// Monotonic non-negativity, invariant part: recording any sample in any
/// well-formed state yields a well-formed state again, so in every reachable
/// state each count lies between zero and the number of samples physically
/// stored, and both logs stay within their fixed capacities.
pub proof fn lemma_record_preserves_wf(v: EventsView, bit: u8, now: u64)
    requires
        view_wf(v),
        bit <= 1,
    ensures
        view_wf(record_step(v, bit, now)),
{
    let w = record_step(v, bit, now);
    assert forall|i: int| 0 <= i < w.samples.len() implies w.samples[i] <= 1 by {
        if v.samples.len() < SAMPLE_CAPACITY {
            assert(w.samples == v.samples.push(bit));
        } else {
            assert(w.samples == v.samples.skip(1).push(bit));
        }
    }
    assert(v.samples.len() <= w.samples.len());
    match cadence(v.stamps) {
        Some(avg) => {
            assert forall|i: int| 0 <= i < WINDOW_COUNT implies w.report[i]
                as int <= w.samples.len() by {
                lemma_count_recent_bounds(w.samples, window_width(breakpoint(i), avg));
            }
        },
        None => {},
    }
}

/// Monotonic non-negativity and buffer exhaustion over every reachable
/// state: whatever samples were recorded and however many, each count lies
/// between zero and the retained history, and neither log ever outgrows its
/// fixed capacity.
pub proof fn lemma_reachable_wf(rs: Seq<(u8, u64)>)
    requires
        forall|i: int| 0 <= i < rs.len() ==> (#[trigger] rs[i]).0 <= 1,
    ensures
        view_wf(record_trace(rs)),
    decreases rs.len(),
{
    if rs.len() > 0 {
        lemma_reachable_wf(rs.drop_last());
        lemma_record_preserves_wf(record_trace(rs.drop_last()), rs.last().0, rs.last().1);
    }
}

/// Monotonic non-negativity, window part: right after any record that could
/// infer a cadence, each freshly computed count is also bounded by that
/// window's sample-count estimate.
pub proof fn lemma_report_within_window(v: EventsView, bit: u8, now: u64, avg: u64, i: int)
    requires
        view_wf(v),
        bit <= 1,
        cadence(v.stamps) == Some(avg),
        0 <= i < WINDOW_COUNT,
    ensures
        ({
            let w = record_step(v, bit, now);
            0 <= w.report[i] as int <= min(window_width(breakpoint(i), avg), w.samples.len() as int)
        }),
{
    let w = record_step(v, bit, now);
    assert forall|k: int| 0 <= k < w.samples.len() implies w.samples[k] <= 1 by {
        if v.samples.len() < SAMPLE_CAPACITY {
            assert(w.samples == v.samples.push(bit));
        } else {
            assert(w.samples == v.samples.skip(1).push(bit));
        }
    }
    lemma_count_recent_bounds(w.samples, window_width(breakpoint(i), avg));
    lemma_count_recent_le_width(w.samples, window_width(breakpoint(i), avg));
}

/// All consecutive timestamp gaps equal `delta`.
pub open spec fn steady(ts: Seq<u64>, delta: u64) -> bool {
    forall|i: int| 0 <= i < ts.len() - 1 ==> ts[i + 1] == #[trigger] ts[i] + delta
}

/// A sample sequence of length `n` holding `bit` everywhere.
pub open spec fn constant_samples(n: nat, bit: u8) -> Seq<u8> {
    Seq::new(n, |i: int| bit)
}

/// The state after `n` records of the same sample value at a fixed cadence:
/// the `k`-th of them (counting from zero) carries timestamp `t0 + k*delta`.
pub open spec fn record_run(v: EventsView, bit: u8, t0: u64, delta: u64, n: nat) -> EventsView
    decreases n,
{
    if n == 0 {
        v
    } else {
        record_step(
            record_run(v, bit, t0, delta, (n - 1) as nat),
            bit,
            (t0 + (n - 1) * delta) as u64,
        )
    }
}

proof fn lemma_gap_total_steady(ts: Seq<u64>, delta: u64)
    requires
        steady(ts, delta),
    ensures
        ts.len() >= 1 ==> ts.last() == ts[0] + (ts.len() - 1) * delta,
        ts.len() >= 2 ==> gap_total(ts) == (ts.len() - 1) * delta,
    decreases ts.len(),
{
    let n = ts.len() as int;
    if n == 1 {
        assert((n - 1) * delta == 0) by (nonlinear_arith)
            requires
                n == 1,
        ;
    } else if n >= 2 {
        let dl = ts.drop_last();
        assert(steady(dl, delta));
        lemma_gap_total_steady(dl, delta);
        assert(ts.last() == ts[n - 2] + delta);
        assert(((n - 2) * delta + delta) == (n - 1) * delta) by (nonlinear_arith);
        assert((n - 2) * delta >= 0) by (nonlinear_arith)
            requires
                n >= 2,
                delta >= 0,
        ;
        if n == 2 {
            assert((n - 2) * delta == 0) by (nonlinear_arith)
                requires
                    n == 2,
            ;
        }
        assert(ts.last() == ts[0] + (n - 1) * delta);
        assert(sat_sub64(ts.last(), ts[n - 2]) == delta);
        assert(gap_total(ts) == sat_add64(gap_total(dl), delta));
    }
}

proof fn lemma_cadence_steady(ts: Seq<u64>, delta: u64)
    requires
        steady(ts, delta),
        ts.len() >= 2,
    ensures
        cadence(ts) == Some(delta),
{
    let g = ts.len() - 1 as int;
    lemma_gap_total_steady(ts, delta);
    vstd::arithmetic::div_mod::lemma_div_multiples_vanish(delta as int, g);
    assert(g * (delta as int) == (delta as int) * g) by (nonlinear_arith);
}

proof fn lemma_steady_push(ts: Seq<u64>, delta: u64, t: u64)
    requires
        steady(ts, delta),
        ts.len() <= TIMESTAMP_CAPACITY,
        ts.len() >= 1 ==> t == ts.last() + delta,
    ensures
        ({
            let p = push_evict(ts, t, TIMESTAMP_CAPACITY as int);
            &&& steady(p, delta)
            &&& p.len() == min(ts.len() as int + 1, TIMESTAMP_CAPACITY as int)
            &&& p.last() == t
        }),
{
    let p = push_evict(ts, t, TIMESTAMP_CAPACITY as int);
    if ts.len() < TIMESTAMP_CAPACITY {
        assert forall|i: int| 0 <= i < p.len() - 1 implies p[i + 1] == #[trigger] p[i] + delta by {
            assert(p[i] == ts[i]);
        }
    } else {
        assert forall|i: int| 0 <= i < p.len() - 1 implies p[i + 1] == #[trigger] p[i] + delta by {
            assert(p[i] == ts[i + 1]);
            if i + 1 < p.len() - 1 {
                assert(p[i + 1] == ts[i + 2]);
            }
        }
    }
}

proof fn lemma_sample_sum_constant(n: nat, bit: u8)
    ensures
        sample_sum(constant_samples(n, bit)) == n * bit,
    decreases n,
{
    if n == 0 {
        assert(n * bit == 0) by (nonlinear_arith)
            requires
                n == 0,
        ;
    } else {
        lemma_sample_sum_constant((n - 1) as nat, bit);
        assert(constant_samples(n, bit).drop_last() =~= constant_samples((n - 1) as nat, bit));
        assert(((n - 1) * bit + bit) == n * bit) by (nonlinear_arith);
    }
}

proof fn lemma_count_recent_constant(n: nat, bit: u8, w: int)
    requires
        0 <= w,
    ensures
        count_recent(constant_samples(n, bit), w) == min(w, n as int) * bit,
{
    let s = constant_samples(n, bit);
    if w == 0 {
        assert(min(w, n as int) * bit == 0) by (nonlinear_arith)
            requires
                min(w, n as int) == 0,
        ;
    } else if w >= n {
        lemma_sample_sum_constant(n, bit);
    } else {
        assert(s.skip(n - w) =~= constant_samples(w as nat, bit));
        lemma_sample_sum_constant(w as nat, bit);
    }
}

/// State reached by `n` steady positive records from the initial state.
proof fn lemma_steady_run_state(t0: u64, delta: u64, n: nat)
    requires
        1 <= delta,
        n >= 1 ==> t0 + (n - 1) * delta <= u64::MAX,
    ensures
        ({
            let w = record_run(initial_view(), 1, t0, delta, n);
            &&& w.samples == constant_samples(min(n as int, SAMPLE_CAPACITY as int) as nat, 1)
            &&& steady(w.stamps, delta)
            &&& w.stamps.len() == min(n as int, TIMESTAMP_CAPACITY as int)
            &&& n >= 1 ==> w.stamps.last() == t0 + (n - 1) * delta
            &&& n >= 3 ==> w.report == recompute(w.samples, delta)
            &&& n < 3 ==> w.report == initial_view().report
        }),
    decreases n,
{
    let w = record_run(initial_view(), 1, t0, delta, n);
    if n == 0 {
        assert(w.samples =~= constant_samples(0, 1));
    } else {
        assert((n - 1) * delta >= 0 && (n - 1) * delta <= ((n as int) - 1) * delta) by (nonlinear_arith)
            requires
                n >= 1,
                delta >= 1,
        ;
        if n >= 2 {
            assert((n - 2) * delta <= (n - 1) * delta) by (nonlinear_arith)
                requires
                    n >= 2,
                    delta >= 1,
            ;
        }
        lemma_steady_run_state(t0, delta, (n - 1) as nat);
        let p = record_run(initial_view(), 1, t0, delta, (n - 1) as nat);
        let now = (t0 + (n - 1) * delta) as u64;
        assert(w == record_step(p, 1, now));

        // The sample log stays all ones.
        let m = min((n - 1) as int, SAMPLE_CAPACITY as int) as nat;
        if m < SAMPLE_CAPACITY {
            assert(w.samples =~= constant_samples((m + 1) as nat, 1));
        } else {
            assert(w.samples =~= constant_samples(SAMPLE_CAPACITY as nat, 1));
        }

        // The timestamp log stays steady at `delta`.
        if n == 1 {
            assert(w.stamps =~= seq![now]);
            assert(steady(w.stamps, delta));
        } else {
            assert(((n - 2) * delta + delta) == (n - 1) * delta) by (nonlinear_arith);
            assert(now == p.stamps.last() + delta);
            lemma_steady_push(p.stamps, delta, now);
        }

        // The report: recomputed as soon as two timestamps are present.
        if n >= 3 {
            lemma_cadence_steady(p.stamps, delta);
        }
    }
}

/// Steady-cadence correctness, exact form: after `n >= 3` positive records
/// at a fixed cadence `delta`, window `i` reports exactly the smaller of the
/// number of records, the sample-log capacity, and the window's
/// sample-count estimate `breakpoint(i) / delta`.
pub proof fn lemma_steady_cadence_exact(t0: u64, delta: u64, n: nat, i: int)
    requires
        1 <= delta,
        3 <= n,
        t0 + (n - 1) * delta <= u64::MAX,
        0 <= i < WINDOW_COUNT,
    ensures
        record_run(initial_view(), 1, t0, delta, n).report[i] as int == min(
            n as int,
            min(SAMPLE_CAPACITY as int, window_width(breakpoint(i), delta)),
        ),
{
    lemma_steady_run_state(t0, delta, n);
    let w = record_run(initial_view(), 1, t0, delta, n);
    let m = min(n as int, SAMPLE_CAPACITY as int);
    let width = window_width(breakpoint(i), delta);
    assert(w.report[i] == recompute(w.samples, delta)[i]);
    lemma_count_recent_constant(m as nat, 1, width);
    assert(min(width, m) * 1u8 == min(width, m)) by (nonlinear_arith);
}

/// Steady-cadence correctness: as long as `n` steady positive records all
/// still fit inside window `i` and inside the sample log, the window
/// reports `min(n, breakpoint(i)/delta + 1)`, that is, all `n` of them.
pub proof fn lemma_steady_cadence(t0: u64, delta: u64, n: nat, i: int)
    requires
        1 <= delta,
        3 <= n,
        t0 + (n - 1) * delta <= u64::MAX,
        0 <= i < WINDOW_COUNT,
        n as int <= window_width(breakpoint(i), delta),
        n <= SAMPLE_CAPACITY,
    ensures
        record_run(initial_view(), 1, t0, delta, n).report[i] as int == min(
            n as int,
            window_width(breakpoint(i), delta) + 1,
        ),
{
    lemma_steady_cadence_exact(t0, delta, n, i);
}

proof fn lemma_sample_sum_append_zeros(s: Seq<u8>, k: nat)
    ensures
        sample_sum(s + constant_samples(k, 0)) == sample_sum(s),
    decreases k,
{
    if k == 0 {
        assert(s + constant_samples(0, 0) =~= s);
    } else {
        lemma_sample_sum_append_zeros(s, (k - 1) as nat);
        let t = s + constant_samples(k, 0);
        assert(t.drop_last() =~= s + constant_samples((k - 1) as nat, 0));
        assert(t.last() == 0);
    }
}

/// State reached by `k` steady negative records from an established state.
proof fn lemma_low_run_state(v: EventsView, delta: u64, k: nat)
    requires
        view_wf(v),
        steady(v.stamps, delta),
        2 <= v.stamps.len(),
        1 <= delta,
        v.samples.len() + k <= SAMPLE_CAPACITY,
        v.stamps.last() + k * delta <= u64::MAX,
    ensures
        ({
            let w = record_run(v, 0, (v.stamps.last() + delta) as u64, delta, k);
            &&& w.samples == v.samples + constant_samples(k, 0)
            &&& steady(w.stamps, delta)
            &&& 2 <= w.stamps.len() <= TIMESTAMP_CAPACITY
            &&& w.stamps.last() == v.stamps.last() + k * delta
            &&& k >= 1 ==> w.report == recompute(w.samples, delta)
            &&& k == 0 ==> w.report == v.report
        }),
    decreases k,
{
    let t0 = (v.stamps.last() + delta) as u64;
    let w = record_run(v, 0, t0, delta, k);
    if k == 0 {
        assert((k * delta) == 0) by (nonlinear_arith)
            requires
                k == 0,
        ;
        assert(w.samples =~= v.samples + constant_samples(0, 0));
    } else {
        assert(delta <= k * delta && (k - 1) * delta <= k * delta && (k - 1) * delta >= 0) by (nonlinear_arith)
            requires
                1 <= delta,
                1 <= k,
        ;
        lemma_low_run_state(v, delta, (k - 1) as nat);
        let p = record_run(v, 0, t0, delta, (k - 1) as nat);
        let now = (t0 + (k - 1) * delta) as u64;
        assert(w == record_step(p, 0, now));
        assert((v.stamps.last() + delta + (k - 1) * delta) == v.stamps.last() + k * delta)
            by (nonlinear_arith);
        assert(now == p.stamps.last() + delta);

        // Sample log: one more zero appended, still within capacity.
        assert(w.samples =~= v.samples + constant_samples(k, 0));

        // Timestamp log: still steady.
        lemma_steady_push(p.stamps, delta, now);

        // Report: the cadence stays inferable, so it is recomputed.
        lemma_cadence_steady(p.stamps, delta);
    }
}

/// Decay on low-injection: from any well-formed state whose timestamps run
/// at a steady cadence `delta`, recording `k` further negative samples at
/// that cadence drives every window spanned by those `k` samples down to
/// zero, while a window wide enough to cover the whole retained history
/// still reports every stored positive sample.
pub proof fn lemma_decay_on_lows(v: EventsView, delta: u64, k: nat, i: int, j: int)
    requires
        view_wf(v),
        steady(v.stamps, delta),
        2 <= v.stamps.len(),
        1 <= delta,
        1 <= k,
        v.samples.len() + k <= SAMPLE_CAPACITY,
        v.stamps.last() + k * delta <= u64::MAX,
        0 <= i < WINDOW_COUNT,
        0 <= j < WINDOW_COUNT,
    ensures
        ({
            let w = record_run(v, 0, (v.stamps.last() + delta) as u64, delta, k);
            &&& window_width(breakpoint(i), delta) <= k ==> w.report[i] == 0
            &&& window_width(breakpoint(j), delta) >= v.samples.len() + k ==> w.report[j]
                as int == sample_sum(v.samples)
        }),
{
    lemma_low_run_state(v, delta, k);
    let w = record_run(v, 0, (v.stamps.last() + delta) as u64, delta, k);
    let len = v.samples.len() as int;

    let wi = window_width(breakpoint(i), delta);
    if wi <= k {
        if wi > 0 {
            assert(w.samples.skip(len + k - wi) =~= constant_samples(wi as nat, 0));
            lemma_sample_sum_constant(wi as nat, 0);
            assert((wi as nat) * 0u8 == 0) by (nonlinear_arith);
            assert(count_recent(w.samples, wi) == 0);
        }
        assert(w.report[i] == recompute(w.samples, delta)[i]);
    }

    let wj = window_width(breakpoint(j), delta);
    if wj >= len + k {
        lemma_sample_sum_append_zeros(v.samples, k);
        lemma_sample_sum_bounds(v.samples);
        assert(w.report[j] == recompute(w.samples, delta)[j]);
    }
}

/// Insufficient-history stability: before at least two timestamps are on
/// record, that is, after at most two records, the report is still all
/// zero, whatever the recorded sample values and timestamps were.
pub proof fn lemma_insufficient_history(rs: Seq<(u8, u64)>, i: int)
    requires
        rs.len() <= 2,
        0 <= i < WINDOW_COUNT,
    ensures
        record_trace(rs).report[i] == 0,
{
    if rs.len() == 1 {
        assert(rs.drop_last().len() == 0);
        assert(record_trace(rs.drop_last()) == initial_view());
    } else if rs.len() == 2 {
        let prefix = rs.drop_last();
        assert(prefix.drop_last().len() == 0);
        assert(record_trace(prefix.drop_last()) == initial_view());
        assert(record_trace(prefix) == record_step(
            initial_view(),
            prefix.last().0,
            prefix.last().1,
        ));
        assert(record_trace(prefix).stamps.len() == 1);
        assert(record_trace(prefix).report[i] == 0);
    }
}

} // verus!
