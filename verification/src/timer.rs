//! A timer is a meter of how often something is begun and a histogram of how
//! long it took.

use crate::histogram::{clamped, fresh_histogram, Histogram, HistogramSnapshot, HistogramView};
use crate::meter::{fresh_meter, meter_after_mark, ticks_found, wrap_count, Meter, MeterView, Ticks};
use vstd::prelude::*;

verus! {

/// What a timer is: its meter and its histogram.
pub struct TimerView {
    pub rate: MeterView,
    pub latency: HistogramView,
}

/// Timers are combination of `Histogram` and `Meter`.
///
/// Timers are handy for tracking rate and latency of a special part of code.
pub struct Timer {
    rate: Meter,
    latency: Histogram,
}

/// One measurement under way: when it began, and whether it has been recorded.
#[derive(Debug)]
pub struct TimerContext {
    start_at: u64,
    found: Ticks,
    stopped: bool,
}

/// What a measurement is: the time it began at, in milliseconds, and whether
/// it has been recorded.
pub struct TimerContextView {
    pub start_at: int,
    pub stopped: bool,
}

impl View for Timer {
    type V = TimerView;

    closed spec fn view(&self) -> TimerView {
        TimerView { rate: self.rate@, latency: self.latency@ }
    }
}

impl View for TimerContext {
    type V = TimerContextView;

    closed spec fn view(&self) -> TimerContextView {
        TimerContextView { start_at: self.start_at as int, stopped: self.stopped }
    }
}

/// A timer made at `now`: nothing marked, nothing recorded.
pub open spec fn fresh_timer(now: int) -> TimerView {
    TimerView { rate: fresh_meter(now), latency: fresh_histogram() }
}

/// The milliseconds from `start_at` to `now`, none if the clock went back.
pub open spec fn elapsed_millis(start_at: int, now: int) -> int {
    if now > start_at {
        now - start_at
    } else {
        0
    }
}

impl Clone for Timer {
    fn clone(&self) -> (t: Self)
        ensures
            t@ == self@,
    {
        Timer { rate: self.rate.clone(), latency: self.latency.clone() }
    }
}

impl Timer {
    /// A timer made at `now`, a time in milliseconds on the caller's clock,
    /// with nothing marked and nothing recorded.
    pub fn new(now: u64) -> (t: Timer)
        ensures
            t@ == fresh_timer(now as int),
    {
        Timer { rate: Meter::new(now), latency: Histogram::new() }
    }

    /// Begins a measurement at `now`: marks the meter, whether or not the
    /// measurement is ever stopped, and hands out its context.
    pub fn start(&mut self, now: u64) -> (context: TimerContext)
        ensures
            final(self)@.rate == meter_after_mark(old(self)@.rate, 1, now as int),
            final(self)@.latency == old(self)@.latency,
            context@ == (TimerContextView { start_at: now as int, stopped: false }),
            context.ticks() == ticks_found(old(self)@.rate.averages, now as int),
    {
        self.start_at(now, now)
    }

    /// Begins at `now` a measurement of what began at `start_at`.
    pub fn start_at(&mut self, start_at: u64, now: u64) -> (context: TimerContext)
        ensures
            final(self)@.rate == meter_after_mark(old(self)@.rate, 1, now as int),
            final(self)@.latency == old(self)@.latency,
            context@ == (TimerContextView { start_at: start_at as int, stopped: false }),
            context.ticks() == ticks_found(old(self)@.rate.averages, now as int),
    {
        let found = self.rate.mark(now);
        TimerContext { start_at, found, stopped: false }
    }

    /// The meter of the measurements begun.
    pub fn rate(&self) -> (m: &Meter)
        ensures
            m@ == self@.rate,
    {
        &self.rate
    }

    /// The meter of the measurements begun, to apply the ticks that are due
    /// before a rate is read.
    pub fn rate_mut(&mut self) -> (m: &mut Meter)
        ensures
            m@ == old(self)@.rate,
            final(self)@.rate == final(m)@,
            final(self)@.latency == old(self)@.latency,
    {
        &mut self.rate
    }

    /// The distribution of the times measured, as it is now.
    pub fn latency(&self) -> (s: HistogramSnapshot)
        ensures
            s@ == self@.latency,
    {
        self.latency.snapshot()
    }
}

impl TimerContext {
    /// The ticks that the meter found due when the measurement began.
    pub closed spec fn ticks(&self) -> Ticks {
        self.found
    }

    /// The ticks that the meter found due when the measurement began.
    pub fn found(&self) -> (found: Ticks)
        ensures
            found == self.ticks(),
    {
        self.found
    }

    /// Whether the measurement has been recorded.
    pub fn is_stopped(&self) -> (stopped: bool)
        ensures
            stopped == self@.stopped,
    {
        self.stopped
    }

    /// Ends the measurement at `now` and records into `timer` the
    /// milliseconds it took. Only the first call records: a measurement that
    /// is stopped already leaves the timer as it is.
    pub fn stop(&mut self, timer: &mut Timer, now: u64)
        ensures
            final(self)@ == (TimerContextView { start_at: old(self)@.start_at, stopped: true }),
            final(self).ticks() == old(self).ticks(),
            final(timer)@.rate == old(timer)@.rate,
            old(self)@.stopped ==> final(timer)@.latency == old(timer)@.latency,
            !old(self)@.stopped ==> final(timer)@.latency == (HistogramView {
                samples: old(timer)@.latency.samples.insert(
                    clamped(elapsed_millis(old(self)@.start_at, now as int) as u64),
                ),
                count: wrap_count(old(timer)@.latency.count + 1),
            }),
    {
        if !self.stopped {
            let elapsed = if now > self.start_at {
                now - self.start_at
            } else {
                0
            };
            timer.latency.update(elapsed);
            self.stopped = true;
        }
    }
}

/// A measurement is recorded once: stopping it a second time, at whatever
/// time, leaves the histogram as the first stop left it.
pub proof fn lemma_stop_records_once(
    latency: HistogramView,
    context: TimerContextView,
    first: int,
    second: int,
)
    ensures
        latency_after_stop(
            latency_after_stop(latency, context, first),
            TimerContextView { start_at: context.start_at, stopped: true },
            second,
        ) == latency_after_stop(latency, context, first),
{
}

/// What stopping the measurement `context` at `now` leaves of the histogram
/// `latency`.
pub open spec fn latency_after_stop(
    latency: HistogramView,
    context: TimerContextView,
    now: int,
) -> HistogramView {
    if context.stopped {
        latency
    } else {
        HistogramView {
            samples: latency.samples.insert(clamped(elapsed_millis(context.start_at, now) as u64)),
            count: wrap_count(latency.count + 1),
        }
    }
}

} // verus!
