use metriki_core::counter::Counter;
use metriki_core::gauge::{Cache, CachedGauge, Gauge, GaugeFn, Reading, StaticGauge};
use metriki_core::histogram::{Histogram, RANGE_MAX};
use metriki_core::meter::{Meter, MovingAverages, Ticks, Window, TICK_INTERVAL_MILLIS};
use metriki_core::timer::Timer;

#[test]
fn counter_round_trip() {
    let mut c = Counter::new();
    assert_eq!(c.value(), 0);
    c.inc(5);
    c.dec(2);
    assert_eq!(c.value(), 3);
}

#[test]
fn counter_negative_inc_is_dec() {
    let mut a = Counter::new();
    let mut b = Counter::new();
    a.inc(10);
    b.inc(10);
    a.inc(-1);
    b.dec(1);
    assert_eq!(a.value(), 9);
    assert_eq!(a.value(), b.value());
    a.dec(-4);
    b.inc(4);
    assert_eq!(a.value(), 13);
    assert_eq!(a.value(), b.value());
}

#[test]
fn counter_wraps_round() {
    let mut c = Counter::new();
    c.inc(i64::MAX);
    c.inc(1);
    assert_eq!(c.value(), i64::MIN);
    c.dec(1);
    assert_eq!(c.value(), i64::MAX);
    let mut d = Counter::new();
    d.dec(i64::MIN);
    assert_eq!(d.value(), i64::MIN);
}

#[test]
fn counter_clone_is_detached() {
    let mut c = Counter::new();
    c.inc(7);
    let copy = c.clone();
    c.inc(1);
    assert_eq!(copy.value(), 7);
    assert_eq!(c.value(), 8);
}

#[test]
fn window_gathers_and_ticks() {
    let mut w = Window::new(5);
    assert_eq!(w.minutes(), 5);
    w.update(3);
    w.update(4);
    assert_eq!(w.tick(), 7);
    assert_eq!(w.tick(), 0);
    w.update(u64::MAX);
    w.update(2);
    assert_eq!(w.tick(), 1);
}

#[test]
fn meter_counts_marks() {
    let mut m = Meter::new(0);
    assert_eq!(m.count(), 0);
    m.mark(10);
    m.mark_n(4, 20);
    assert_eq!(m.count(), 5);
}

#[test]
fn meter_ticks_once_per_interval() {
    let none = Ticks { ticks: 0, m1: 0, m5: 0, m15: 0 };
    let mut m = Meter::new(0);
    assert_eq!(m.mark_n(3, 1000), none);
    // one interval and a second have gone by: one tick, which finds the three
    assert_eq!(m.mark(6000), Ticks { ticks: 1, m1: 3, m5: 3, m15: 3 });
    // nothing more is due at that time
    assert_eq!(m.tick_if_needed(6000), none);
    assert_eq!(m.tick_if_needed(9999), none);
    // the last tick stands at 5000: sixteen seconds on, three are due
    assert_eq!(m.tick_if_needed(21000), Ticks { ticks: 3, m1: 1, m5: 1, m15: 1 });
    assert_eq!(m.tick_if_needed(21000), none);
    assert_eq!(m.count(), 4);
}

#[test]
fn meter_tick_waits_for_more_than_one_interval() {
    let none = Ticks { ticks: 0, m1: 0, m5: 0, m15: 0 };
    let mut a = MovingAverages::new(100);
    a.update(2);
    assert_eq!(a.tick_if_needed(100 + TICK_INTERVAL_MILLIS), none);
    assert_eq!(a.last_tick(), 100);
    assert_eq!(
        a.tick_if_needed(101 + TICK_INTERVAL_MILLIS),
        Ticks { ticks: 1, m1: 2, m5: 2, m15: 2 }
    );
    assert_eq!(a.last_tick(), 100 + TICK_INTERVAL_MILLIS);
}

#[test]
fn meter_clock_going_back_finds_nothing() {
    let mut m = Meter::new(50_000);
    m.mark(50_000);
    assert_eq!(m.tick_if_needed(10), Ticks { ticks: 0, m1: 0, m5: 0, m15: 0 });
    assert_eq!(m.mean_rate_terms(10), None);
}

#[test]
fn meter_mean_rate_terms() {
    let mut m = Meter::new(1000);
    assert_eq!(m.mean_rate_terms(11_000), None);
    m.mark_n(30, 2000);
    assert_eq!(m.mean_rate_terms(1500), None);
    assert_eq!(m.mean_rate_terms(1999), None);
    assert_eq!(m.mean_rate_terms(11_000), Some((30, 10)));
    assert_eq!(m.mean_rate_terms(11_999), Some((30, 10)));
}

#[test]
fn test_histogram_range() {
    let mut histogram = Histogram::new();

    histogram.update(0);
    histogram.update(1);
    histogram.update(1000);
    histogram.update(RANGE_MAX + 1);

    let snapshot = histogram.snapshot();

    assert_eq!(4, snapshot.count());
    // a value of 0 is recorded as 1, the least value of the range
    assert_eq!(1, snapshot.min());
}

#[test]
fn histogram_empty() {
    let histogram = Histogram::new();
    let snapshot = histogram.snapshot();
    assert_eq!(snapshot.count(), 0);
    assert_eq!(snapshot.len(), 0);
    assert_eq!(snapshot.min(), 0);
    assert_eq!(snapshot.max(), 0);
    assert!(snapshot.levels().is_empty());
}

#[test]
fn histogram_uniform_thousand() {
    let mut histogram = Histogram::new();
    let mut v: u64 = 1;
    while v <= 1000 {
        histogram.update(v);
        v += 1;
    }
    let snapshot = histogram.snapshot();
    assert_eq!(snapshot.count(), 1000);
    assert_eq!(snapshot.len(), 1000);
    assert_eq!(snapshot.min(), 1);
    // 1000 shares its bucket with the values up to 1003
    assert_eq!(snapshot.max(), 1003);
    let levels = snapshot.levels();
    let total: u64 = levels.iter().map(|l| l.1).sum();
    assert_eq!(total, 1000);
    assert_eq!(levels[0], (1, 1));
    assert_eq!(levels[levels.len() - 1], (1003, 1));
}

#[test]
fn histogram_clamps_above_range() {
    let mut histogram = Histogram::new();
    histogram.update(RANGE_MAX + 1);
    histogram.update(u64::MAX);
    let snapshot = histogram.snapshot();
    assert_eq!(snapshot.count(), 2);
    assert_eq!(snapshot.len(), 2);
    // both are recorded as `RANGE_MAX`, whose bucket ends at 86527
    assert_eq!(snapshot.max(), 86527);
    assert_eq!(snapshot.min(), 86016);
    assert_eq!(snapshot.levels(), vec![(86527, 2)]);
    assert!(snapshot.max() - RANGE_MAX <= RANGE_MAX / 100);
}

#[test]
fn histogram_snapshot_is_detached() {
    let mut histogram = Histogram::new();
    histogram.update(5);
    let snapshot = histogram.snapshot();
    histogram.update(9);
    assert_eq!(snapshot.count(), 1);
    assert_eq!(snapshot.max(), 5);
    assert_eq!(histogram.snapshot().count(), 2);
    assert_eq!(histogram.snapshot().max(), 9);
    let copy = histogram.clone();
    histogram.update(20);
    assert_eq!(copy.snapshot().levels(), vec![(5, 1), (9, 1)]);
}

#[test]
fn test_drop_timer_context() {
    let mut timer = Timer::new(0);
    // traced block
    let mut t = timer.start(0);
    t.stop(&mut timer, 10);

    assert!(timer.rate().count() == 1);

    {
        timer.start(20);
    }

    assert!(timer.rate().count() == 2);
}

#[test]
fn timer_start_marks_before_stop() {
    let mut timer = Timer::new(0);
    let mut context = timer.start(100);
    assert_eq!(timer.rate().count(), 1);
    assert_eq!(timer.latency().count(), 0);
    assert!(!context.is_stopped());
    context.stop(&mut timer, 350);
    assert_eq!(timer.rate().count(), 1);
    assert_eq!(timer.latency().count(), 1);
    assert_eq!(timer.latency().max(), 250);
    assert!(context.is_stopped());
}

#[test]
fn timer_stop_records_once() {
    let mut timer = Timer::new(0);
    let mut context = timer.start(100);
    context.stop(&mut timer, 150);
    context.stop(&mut timer, 900);
    context.stop(&mut timer, 901);
    let latency = timer.latency();
    assert_eq!(latency.count(), 1);
    assert_eq!(latency.levels(), vec![(50, 1)]);
}

#[test]
fn timer_start_at_and_clock_going_back() {
    let mut timer = Timer::new(0);
    let mut early = timer.start_at(40, 100);
    early.stop(&mut timer, 140);
    let mut late = timer.start_at(500, 100);
    late.stop(&mut timer, 140);
    assert_eq!(timer.rate().count(), 2);
    // 100 milliseconds, and none where the end lies before the start, recorded as 1
    assert_eq!(timer.latency().levels(), vec![(1, 1), (100, 1)]);
}

#[test]
fn timer_start_reports_ticks() {
    let mut timer = Timer::new(0);
    let first = timer.start(1000);
    assert_eq!(first.found(), Ticks { ticks: 0, m1: 0, m5: 0, m15: 0 });
    let second = timer.start(12_000);
    assert_eq!(second.found(), Ticks { ticks: 2, m1: 1, m5: 1, m15: 1 });
    assert_eq!(timer.rate_mut().tick_if_needed(12_000).ticks, 0);
}

struct Rising(std::sync::atomic::AtomicU64);

impl GaugeFn for Rising {
    fn value(&self) -> Reading {
        self.0.fetch_add(1, std::sync::atomic::Ordering::Relaxed)
    }
}

#[test]
fn gauge_reads_its_source() {
    let g = Gauge::new(Box::new(StaticGauge(42)));
    assert_eq!(g.value(), 42);
    let rising = Gauge::new(Box::new(Rising(std::sync::atomic::AtomicU64::new(7))));
    assert_eq!(rising.value(), 7);
    assert_eq!(rising.value(), 8);
    let frozen = rising.freeze();
    assert_eq!(frozen.value(), 9);
    assert_eq!(frozen.value(), 9);
    assert_eq!(rising.value(), 10);
    assert_eq!(Gauge::fixed(3).value(), 3);
}

#[test]
fn cache_expires_after_its_time() {
    let c = Cache::new(100, 5u32);
    assert!(!c.expired(99));
    assert!(!c.expired(100));
    assert!(c.expired(101));
    assert_eq!(*c.value(), 5);
}

#[test]
fn cached_gauge_keeps_a_reading_for_its_ttl() {
    let mut g = CachedGauge::boxed(Box::new(Rising(std::sync::atomic::AtomicU64::new(1))), 60);
    assert_eq!(g.value(1000), 1);
    assert_eq!(g.value(1030), 1);
    assert_eq!(g.value(1060), 1);
    assert_eq!(g.value(1061), 2);
    assert_eq!(g.value(1061), 2);
    assert_eq!(g.value(u64::MAX), 3);
    assert_eq!(g.value(u64::MAX), 3);
}

#[test]
fn histogram_median_of_uniform_thousand() {
    let mut histogram = Histogram::new();
    let mut v: u64 = 1;
    while v <= 1000 {
        histogram.update(v);
        v += 1;
    }
    // the quantiles are read off the levels
    let mut distribution = hdrhistogram::Histogram::<u64>::new_with_bounds(1, 2 * RANGE_MAX, 2).unwrap();
    for (level, count) in histogram.snapshot().levels() {
        distribution.record_n(level, count).unwrap();
    }
    let median = distribution.value_at_quantile(0.5);
    assert!(median >= 495 && median <= 505);
    assert_eq!(median, 501);
    assert_eq!(distribution.value_at_quantile(1.0), 1003);
    assert_eq!(distribution.len(), 1000);
    let mean = distribution.mean();
    assert!(mean > 495.0 && mean < 506.0);
}

#[test]
fn ticks_hand_the_gathered_to_the_first_tick() {
    let found = Ticks { ticks: 3, m1: 4, m5: 5, m15: 6 };
    assert_eq!(found.at(0), (4, 5, 6));
    assert_eq!(found.at(1), (0, 0, 0));
    assert_eq!(found.at(2), (0, 0, 0));
}

#[test]
fn histogram_levels_are_the_ends_of_buckets() {
    let mut histogram = Histogram::new();
    histogram.update(1000);
    histogram.update(300);
    let snapshot = histogram.snapshot();
    assert_eq!(snapshot.floor_of(1000), 1000);
    assert_eq!(snapshot.ceiling_of(1000), 1003);
    assert_eq!(snapshot.floor_of(1003), 1000);
    assert_eq!(snapshot.floor_of(255), 255);
    assert_eq!(snapshot.ceiling_of(255), 255);
    assert_eq!(snapshot.floor_of(301), 300);
    assert_eq!(snapshot.ceiling_of(300), 301);
    assert_eq!(snapshot.ceiling_of(RANGE_MAX), 86527);
    assert_eq!(snapshot.floor_of(RANGE_MAX), 86016);
    assert_eq!(snapshot.max(), snapshot.ceiling_of(1000));
    assert_eq!(snapshot.min(), snapshot.floor_of(300));
    assert_eq!(snapshot.levels(), vec![(snapshot.ceiling_of(300), 1), (snapshot.ceiling_of(1000), 1)]);
}
