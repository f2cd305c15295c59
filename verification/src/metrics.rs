//! The five kinds of metric under one type.

pub use crate::counter::Counter;
pub use crate::gauge::{CachedGauge, Gauge, GaugeFn, StaticGauge};
pub use crate::histogram::{Histogram, HistogramSnapshot};
pub use crate::meter::Meter;
pub use crate::timer::{Timer, TimerContext};

use crate::gauge::{live_source, GaugeSource};
use crate::histogram::HistogramView;
use crate::meter::MeterView;
use crate::timer::TimerView;
use vstd::prelude::*;

verus! {

/// A metric of one of the five kinds.
pub enum Metric {
    Meter(Meter),
    Timer(Timer),
    Gauge(Gauge),
    Histogram(Histogram),
    Counter(Counter),
}

/// The kind of a metric.
#[derive(Clone, Copy, Debug, PartialEq, Eq, Structural)]
pub enum MetricKind {
    Meter,
    Timer,
    Gauge,
    Histogram,
    Counter,
}

/// What a metric is: what the metric of its kind is. Of a gauge it is the
/// source of its readings.
pub enum MetricView {
    Meter(MeterView),
    Timer(TimerView),
    Gauge(GaugeSource),
    Histogram(HistogramView),
    Counter(int),
}

impl MetricView {
    /// The kind of the metric.
    pub open spec fn kind(self) -> MetricKind {
        match self {
            MetricView::Meter(_) => MetricKind::Meter,
            MetricView::Timer(_) => MetricKind::Timer,
            MetricView::Gauge(_) => MetricKind::Gauge,
            MetricView::Histogram(_) => MetricKind::Histogram,
            MetricView::Counter(_) => MetricKind::Counter,
        }
    }

    /// `copy` is a copy of this metric taken at some moment: the same metric,
    /// but that a copy of a gauge is fixed at the reading that the gauge had
    /// at that moment.
    pub open spec fn copied_as(self, copy: MetricView) -> bool {
        match self {
            MetricView::Gauge(GaugeSource::Live(_)) => copy is Gauge && copy->Gauge_0 is Fixed,
            _ => copy == self,
        }
    }
}

impl View for Metric {
    type V = MetricView;

    open spec fn view(&self) -> MetricView {
        match self {
            Metric::Meter(m) => MetricView::Meter(m@),
            Metric::Timer(t) => MetricView::Timer(t@),
            Metric::Gauge(g) => MetricView::Gauge(g.source()),
            Metric::Histogram(h) => MetricView::Histogram(h@),
            Metric::Counter(c) => MetricView::Counter(c@),
        }
    }
}

impl Metric {
    /// Create default meter
    pub fn meter(now: u64) -> (m: Meter)
        ensures
            m@ == crate::meter::fresh_meter(now as int),
    {
        Meter::new(now)
    }

    /// Create default timer
    pub fn timer(now: u64) -> (t: Timer)
        ensures
            t@ == crate::timer::fresh_timer(now as int),
    {
        Timer::new(now)
    }

    /// Create gauge with given function
    pub fn gauge(f: Box<dyn GaugeFn + 'static>) -> (g: Gauge)
        ensures
            g.source() == live_source(f),
    {
        Gauge::new(f)
    }

    /// Create default histogram
    pub fn histogram() -> (h: Histogram)
        ensures
            h@ == crate::histogram::fresh_histogram(),
    {
        Histogram::new()
    }

    /// Create default counter
    pub fn counter() -> (c: Counter)
        ensures
            c@ == 0,
    {
        Counter::new()
    }

    /// The kind of the metric.
    pub fn kind(&self) -> (k: MetricKind)
        ensures
            k == self@.kind(),
    {
        match self {
            Metric::Meter(_) => MetricKind::Meter,
            Metric::Timer(_) => MetricKind::Timer,
            Metric::Gauge(_) => MetricKind::Gauge,
            Metric::Histogram(_) => MetricKind::Histogram,
            Metric::Counter(_) => MetricKind::Counter,
        }
    }

    /// Convert the Metric to `Meter`
    pub fn as_meter(&self) -> (m: Option<&Meter>)
        ensures
            m is Some <==> self@ is Meter,
            m is Some ==> self@ == MetricView::Meter(m->0@),
    {
        match self {
            Metric::Meter(m) => Some(m),
            _ => None,
        }
    }

    /// Convert the Metric to `Timer`
    pub fn as_timer(&self) -> (t: Option<&Timer>)
        ensures
            t is Some <==> self@ is Timer,
            t is Some ==> self@ == MetricView::Timer(t->0@),
    {
        match self {
            Metric::Timer(m) => Some(m),
            _ => None,
        }
    }

    /// Convert the Metric to `Gauge`
    pub fn as_gauge(&self) -> (g: Option<&Gauge>)
        ensures
            g is Some <==> self@ is Gauge,
            g is Some ==> self@ == MetricView::Gauge(g->0.source()),
    {
        match self {
            Metric::Gauge(m) => Some(m),
            _ => None,
        }
    }

    /// Convert the Metric to `Histogram`
    pub fn as_histogram(&self) -> (h: Option<&Histogram>)
        ensures
            h is Some <==> self@ is Histogram,
            h is Some ==> self@ == MetricView::Histogram(h->0@),
    {
        match self {
            Metric::Histogram(m) => Some(m),
            _ => None,
        }
    }

    /// Convert the Metric to `Counter`
    pub fn as_counter(&self) -> (c: Option<&Counter>)
        ensures
            c is Some <==> self@ is Counter,
            c is Some ==> self@ == MetricView::Counter(c->0@),
    {
        match self {
            Metric::Counter(m) => Some(m),
            _ => None,
        }
    }

    /// A copy of the metric as it is now. The copy of a gauge is fixed at the
    /// reading that the gauge has now.
    pub fn snapshot(&self) -> (copy: Metric)
        ensures
            self@.copied_as(copy@),
    {
        match self {
            Metric::Meter(m) => Metric::Meter(m.clone()),
            Metric::Timer(t) => Metric::Timer(t.clone()),
            Metric::Gauge(g) => Metric::Gauge(g.freeze()),
            Metric::Histogram(h) => Metric::Histogram(h.clone()),
            Metric::Counter(c) => Metric::Counter(c.clone()),
        }
    }
}

impl From<Meter> for Metric {
    fn from(f: Meter) -> (m: Metric) {
        Metric::Meter(f)
    }
}

impl vstd::std_specs::convert::FromSpecImpl<Meter> for Metric {
    open spec fn obeys_from_spec() -> bool {
        true
    }

    open spec fn from_spec(f: Meter) -> Metric {
        Metric::Meter(f)
    }
}

impl From<Timer> for Metric {
    fn from(f: Timer) -> (m: Metric) {
        Metric::Timer(f)
    }
}

impl vstd::std_specs::convert::FromSpecImpl<Timer> for Metric {
    open spec fn obeys_from_spec() -> bool {
        true
    }

    open spec fn from_spec(f: Timer) -> Metric {
        Metric::Timer(f)
    }
}

impl From<Counter> for Metric {
    fn from(f: Counter) -> (m: Metric) {
        Metric::Counter(f)
    }
}

impl vstd::std_specs::convert::FromSpecImpl<Counter> for Metric {
    open spec fn obeys_from_spec() -> bool {
        true
    }

    open spec fn from_spec(f: Counter) -> Metric {
        Metric::Counter(f)
    }
}

impl From<Gauge> for Metric {
    fn from(f: Gauge) -> (m: Metric) {
        Metric::Gauge(f)
    }
}

impl vstd::std_specs::convert::FromSpecImpl<Gauge> for Metric {
    open spec fn obeys_from_spec() -> bool {
        true
    }

    open spec fn from_spec(f: Gauge) -> Metric {
        Metric::Gauge(f)
    }
}

impl From<Histogram> for Metric {
    fn from(f: Histogram) -> (m: Metric) {
        Metric::Histogram(f)
    }
}

impl vstd::std_specs::convert::FromSpecImpl<Histogram> for Metric {
    open spec fn obeys_from_spec() -> bool {
        true
    }

    open spec fn from_spec(f: Histogram) -> Metric {
        Metric::Histogram(f)
    }
}

} // verus!
