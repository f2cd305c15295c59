//! A gauge reads a value off its source whenever it is asked. A reading is
//! carried as 64 bits, which the library never looks into: what they stand
//! for is between the source and whoever reads the gauge.

use vstd::prelude::*;

verus! {

/// The 64 bits of one reading of a gauge.
pub type Reading = u64;

/// Gauge value source.
pub trait GaugeFn: Send + Sync {
    fn value(&self) -> Reading;
}

/// Where a gauge has its readings from.
pub enum GaugeSource {
    /// A source that is read whenever the gauge is.
    Live(Box<dyn GaugeFn + 'static>),
    /// One reading, taken once.
    Fixed(Reading),
}

/// The source of a gauge that reads `f` whenever it is read.
pub open spec fn live_source(f: Box<dyn GaugeFn + 'static>) -> GaugeSource {
    GaugeSource::Live(f)
}

/// Gauges are used to measure the instantaneous value of something.
pub struct Gauge {
    source: GaugeSource,
}

impl Gauge {
    /// The reading that the gauge is fixed at, none while it has a live
    /// source.
    pub open spec fn fixed_at(&self) -> Option<Reading> {
        match self.source() {
            GaugeSource::Live(_) => None,
            GaugeSource::Fixed(reading) => Some(reading),
        }
    }

    /// Where the gauge has its readings from.
    pub closed spec fn source(&self) -> GaugeSource {
        self.source
    }

    /// A gauge over the given source: it reads that source whenever it is
    /// read. To its caller the source of the new gauge is `live_source` of
    /// what the caller handed in.
    pub fn new(f: Box<dyn GaugeFn + 'static>) -> (g: Gauge)
        ensures
            g.source() == GaugeSource::Live(f),
            g.fixed_at() is None,
    {
        Gauge { source: GaugeSource::Live(f) }
    }

    /// A gauge that stands at the given reading.
    pub fn fixed(reading: Reading) -> (g: Gauge)
        ensures
            g.source() == GaugeSource::Fixed(reading),
    {
        Gauge { source: GaugeSource::Fixed(reading) }
    }

    /// The reading of the gauge: off its source, or the one it is fixed at.
    pub fn value(&self) -> (reading: Reading)
        ensures
            self.fixed_at() is Some ==> self.fixed_at() == Some(reading),
    {
        match &self.source {
            GaugeSource::Live(f) => f.value(),
            GaugeSource::Fixed(reading) => *reading,
        }
    }

    /// A gauge fixed at the reading that this one has now.
    pub fn freeze(&self) -> (g: Gauge)
        ensures
            g.fixed_at() is Some,
            self.fixed_at() is Some ==> g.fixed_at() == self.fixed_at(),
    {
        Gauge::fixed(self.value())
    }
}

/// A Gauge that holds a constant value
pub struct StaticGauge(pub Reading);

impl GaugeFn for StaticGauge {
    fn value(&self) -> (reading: Reading)
        ensures
            reading == self.0,
    {
        self.0
    }
}

/// A value that holds until a given time.
pub struct Cache<V> {
    expiry: u64,
    value: V,
}

impl<V> Cache<V> {
    /// The time, in milliseconds, from which the value no longer holds.
    pub closed spec fn expiry(&self) -> int {
        self.expiry as int
    }

    /// The value kept.
    pub closed spec fn kept(&self) -> V {
        self.value
    }

    /// Keeps `value` until `expiry`.
    pub fn new(expiry: u64, value: V) -> (c: Self)
        ensures
            c.expiry() == expiry,
            c.kept() == value,
    {
        Cache { expiry, value }
    }

    /// Whether the value no longer holds at `now`: its time lies before
    /// `now`.
    pub fn expired(&self, now: u64) -> (gone: bool)
        ensures
            gone == (self.expiry() < now),
    {
        self.expiry < now
    }

    /// The value kept.
    pub fn value(&self) -> (v: &V)
        ensures
            *v == self.kept(),
    {
        &self.value
    }
}

/// What a gauge with a cache answers at `now`: the reading it keeps while
/// that holds, else none, and its source is read anew.
pub open spec fn cached_reading(cache: Option<Cache<Reading>>, now: int) -> Option<Reading> {
    match cache {
        Some(c) => if c.expiry() < now {
            None
        } else {
            Some(c.kept())
        },
        None => None,
    }
}

/// The time until which a reading taken at `now` holds: `ttl` milliseconds
/// on, or the end of time where that lies beyond it.
pub open spec fn expiry_of(now: int, ttl: int) -> int {
    if now + ttl > u64::MAX {
        u64::MAX as int
    } else {
        now + ttl
    }
}

/// Gauge implementation that caches the result for given ttl.
///
/// This is designed for gauge functions that are expensive to call.
pub struct CachedGauge {
    func: Box<dyn GaugeFn + 'static>,
    cache: Option<Cache<Reading>>,
    ttl: u64,
}

impl CachedGauge {
    /// The source that the gauge reads when it keeps no reading that holds.
    pub closed spec fn source(&self) -> GaugeSource {
        GaugeSource::Live(self.func)
    }

    /// What the gauge keeps of its last reading.
    pub closed spec fn cache(&self) -> Option<Cache<Reading>> {
        self.cache
    }

    /// For how many milliseconds a reading holds.
    pub closed spec fn ttl(&self) -> int {
        self.ttl as int
    }

    /// Create `CachedGauge` with gauge function and given ttl, in
    /// milliseconds.
    pub fn boxed(func: Box<dyn GaugeFn + 'static>, ttl: u64) -> (g: Box<CachedGauge>)
        ensures
            g.source() == live_source(func),
            g.cache() is None,
            g.ttl() == ttl,
    {
        Box::new(CachedGauge { func, ttl, cache: None })
    }

    /// The reading at `now`: the one kept, while it holds; else a new one
    /// off the source, which is then kept for `ttl` milliseconds.
    pub fn value(&mut self, now: u64) -> (reading: Reading)
        ensures
            final(self).ttl() == old(self).ttl(),
            final(self).source() == old(self).source(),
            cached_reading(old(self).cache(), now as int) == Some(reading) ==> final(self).cache()
                == old(self).cache(),
            cached_reading(old(self).cache(), now as int) is None ==> final(self).cache() is Some
                && final(self).cache()->0.kept() == reading && final(self).cache()->0.expiry()
                == expiry_of(now as int, old(self).ttl()),
            cached_reading(old(self).cache(), now as int) is Some ==> cached_reading(
                old(self).cache(),
                now as int,
            ) == Some(reading),
    {
        if let Some(cache_inner) = &self.cache {
            if !cache_inner.expired(now) {
                return *cache_inner.value();
            }
        }
        let value = self.func.value();
        self.cache = Some(Cache::new(now.saturating_add(self.ttl), value));
        value
    }
}

/// A reading holds for the time it was taken for: asked again at a time up
/// to its expiry, the gauge answers with the reading it keeps.
pub proof fn lemma_cached_reading_holds(cache: Cache<Reading>, now: int)
    requires
        now <= cache.expiry(),
    ensures
        cached_reading(Some(cache), now) == Some(cache.kept()),
{
}

} // verus!
