//! # metriki-core
//!
//! In-process metrics: counters, gauges, meters, histograms and timers, kept
//! in a registry under tagged keys and handed to reporters as snapshots.
//!
//! The library is verified with Verus. It is the sequential core of a metrics
//! system: every operation is a function from the state before to the state
//! after, and says in its contract what that state is. A time is a number of
//! milliseconds that the caller reads off its clock and hands in. What is a
//! floating-point number to the reader (the reading of a gauge) is carried
//! as its 64 bits. Sharing between threads is left to the caller, who holds
//! the registry behind a lock.
//!
//! * [`key`]: the identity of a metric, a name and tags in canonical order.
//! * [`counter`], [`meter`], [`histogram`], [`timer`], [`gauge`]: the five
//!   kinds of metric. A meter counts events and decides when its moving
//!   averages are to be ticked; a histogram records clamped values into
//!   buckets of bounded relative error.
//! * [`metrics`]: the five kinds under one type.
//! * [`registry`]: the registry, which binds each key to one metric of one
//!   kind, and its snapshots.
//! * [`snapshot`]: what a snapshot is, and how the metrics of dynamic sets
//!   are merged into it.
//! * [`filter`], [`mset`]: what a caller implements to filter snapshots and
//!   to contribute metrics that are made on demand.
//!
//! Two crates are called and not verified: `hdrhistogram` keeps the buckets
//! of a histogram ([`buckets`]) and `dashmap` maps keys to the slots of a
//! registry ([`index`]). What the library takes for granted of each function
//! it calls stands in the contract of the function's wrapper in these two
//! modules.
//!
//! ```
//! use metriki_core::MetricsRegistry;
//!
//! let mut registry = MetricsRegistry::new();
//!
//! // using meter: mark an event as it happened once, at time 0
//! registry.meter("event", 0).unwrap().mark(0);
//!
//! // record a sample value 42 into my_data series
//! registry.histogram("my_data").unwrap().update(42);
//!
//! // increase my_counter by 1
//! registry.counter("my_counter").unwrap().inc(1);
//!
//! // start a timer at time 10 and record its rate
//! let mut timer_context = registry.timer("my_timer", 10).unwrap().start(10);
//! // stop the timer at time 25 and record its data
//! timer_context.stop(registry.timer("my_timer", 25).unwrap(), 25);
//!
//! assert_eq!(registry.snapshots().len(), 4);
//! ```

pub mod buckets;
pub mod counter;
pub mod filter;
pub mod gauge;
pub mod histogram;
pub mod index;
pub mod key;
pub mod meter;
pub mod metrics;
pub mod mset;
pub mod order;
pub mod registry;
pub mod snapshot;
pub mod timer;

pub use filter::MetricsFilter;
pub use mset::MetricsSet;
pub use registry::MetricsRegistry;
