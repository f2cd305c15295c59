use metriki_core::filter::MetricsFilter;
use metriki_core::gauge::StaticGauge;
use metriki_core::key::{Key, Tag};
use metriki_core::metrics::{Metric, MetricKind};
use metriki_core::mset::MetricsSet;
use metriki_core::registry::{MetricsRegistry, RegistryError};
use metriki_core::snapshot::Snapshot;

struct DummyMetricsSet;

impl MetricsSet for DummyMetricsSet {
    fn get_all(&self) -> Vec<(String, Metric)> {
        let mut counter = Metric::counter();
        counter.inc(10);

        let mut map: Vec<(String, Metric)> = Vec::new();
        map.push(("test.set.counter".to_owned(), counter.into()));

        map
    }
}

#[test]
fn test_metrics_set() {
    let mut registry = MetricsRegistry::new();
    registry.register_metrics_set("dummy", Box::new(DummyMetricsSet)).unwrap();
    registry.counter("test.default.counter").unwrap().inc(1);

    let snapshots = registry.snapshots();

    assert_eq!(2, snapshots.len());
    assert!(snapshots.get_by_name("test.set.counter").is_some());
    assert!(snapshots.get_by_name("test.default.counter").is_some());
}

struct NameFilter;

impl MetricsFilter for NameFilter {
    fn accept(&self, name: &str, _: &Metric) -> bool {
        name.starts_with("l1")
    }
}

#[test]
fn test_metrics_filter() {
    let mut registry = MetricsRegistry::new();

    registry.meter("l1.tomcat.request", 0).unwrap().mark(0);
    registry.meter("l1.jetty.request", 0).unwrap().mark(0);
    registry.meter("l2.tomcat.request", 0).unwrap().mark(0);
    registry.meter("l2.jetty.request", 0).unwrap().mark(0);

    registry.set_filter(Some(Box::new(NameFilter)));

    let snapshot = registry.snapshots();
    assert_eq!(2, snapshot.len());
}

#[test]
fn filter_keeps_exactly_the_accepted() {
    let mut registry = MetricsRegistry::new();
    for name in ["l1.a", "l1.b", "l2.a", "l2.b"] {
        registry.meter(name, 0).unwrap().mark(0);
    }
    assert_eq!(registry.snapshots().len(), 4);
    registry.set_filter(Some(Box::new(NameFilter)));
    let snapshot = registry.snapshots();
    assert_eq!(snapshot.len(), 2);
    assert!(snapshot.get_by_name("l1.a").is_some());
    assert!(snapshot.get_by_name("l1.b").is_some());
    assert!(snapshot.get_by_name("l2.a").is_none());
    assert!(snapshot.get_by_name("l2.b").is_none());
    registry.set_filter(None);
    assert_eq!(registry.snapshots().len(), 4);
}

struct XCount;

impl MetricsSet for XCount {
    fn get_all(&self) -> Vec<(String, Metric)> {
        let mut counter = Metric::counter();
        counter.inc(10);
        vec![("x.count".to_owned(), Metric::Counter(counter))]
    }
}

#[test]
fn metrics_set_merges_and_unregisters() {
    let mut registry = MetricsRegistry::new();
    registry.register_metrics_set("xs", Box::new(XCount)).unwrap();
    registry.counter("y.count").unwrap().inc(1);

    let snapshot = registry.snapshots();
    assert_eq!(snapshot.len(), 2);
    assert_eq!(snapshot.get_by_name("x.count").unwrap().as_counter().unwrap().value(), 10);
    assert_eq!(snapshot.get_by_name("y.count").unwrap().as_counter().unwrap().value(), 1);

    registry.unregister_metrics_set("xs");
    let snapshot = registry.snapshots();
    assert_eq!(snapshot.len(), 1);
    assert!(snapshot.get_by_name("x.count").is_none());
    assert_eq!(snapshot.get_by_name("y.count").unwrap().as_counter().unwrap().value(), 1);
    registry.unregister_metrics_set("xs");
    registry.unregister_metrics_set("never.registered");
    assert_eq!(registry.snapshots().len(), 1);
}

struct Fixed(&'static str, i64);

impl MetricsSet for Fixed {
    fn get_all(&self) -> Vec<(String, Metric)> {
        let mut counter = Metric::counter();
        counter.inc(self.1);
        vec![(self.0.to_owned(), Metric::Counter(counter))]
    }
}

#[test]
fn later_entries_shadow_earlier_ones() {
    let mut registry = MetricsRegistry::new();
    registry.counter("n").unwrap().inc(1);
    assert_eq!(registry.snapshots().get_by_name("n").unwrap().as_counter().unwrap().value(), 1);
    registry.register_metrics_set("first", Box::new(Fixed("n", 2))).unwrap();
    assert_eq!(registry.snapshots().get_by_name("n").unwrap().as_counter().unwrap().value(), 2);
    registry.register_metrics_set("second", Box::new(Fixed("n", 3))).unwrap();
    assert_eq!(registry.snapshots().get_by_name("n").unwrap().as_counter().unwrap().value(), 3);
    // a set registered again keeps its place
    registry.register_metrics_set("first", Box::new(Fixed("n", 4))).unwrap();
    let snapshot = registry.snapshots();
    assert_eq!(snapshot.len(), 1);
    assert_eq!(snapshot.get_by_name("n").unwrap().as_counter().unwrap().value(), 3);
    registry.unregister_metrics_set("second");
    assert_eq!(registry.snapshots().get_by_name("n").unwrap().as_counter().unwrap().value(), 4);
    registry.unregister_metrics_set("first");
    assert_eq!(registry.snapshots().get_by_name("n").unwrap().as_counter().unwrap().value(), 1);
}

#[test]
fn one_metric_per_key() {
    let mut registry = MetricsRegistry::new();
    let mut n = 0;
    while n < 8 {
        registry.counter("hits").unwrap().inc(1);
        n += 1;
    }
    assert_eq!(registry.counter("hits").unwrap().value(), 8);
    assert_eq!(registry.snapshots().len(), 1);
    registry.histogram("sizes").unwrap().update(3);
    registry.histogram("sizes").unwrap().update(4);
    assert_eq!(registry.histogram("sizes").unwrap().snapshot().count(), 2);
    registry.meter("rate", 5).unwrap().mark(5);
    registry.meter("rate", 900).unwrap().mark(6);
    assert_eq!(registry.meter("rate", 7).unwrap().count(), 2);
    let mut context = registry.timer("spent", 0).unwrap().start(10);
    context.stop(registry.timer("spent", 0).unwrap(), 25);
    assert_eq!(registry.timer("spent", 0).unwrap().rate().count(), 1);
    assert_eq!(registry.timer("spent", 0).unwrap().latency().max(), 15);
    assert_eq!(registry.snapshots().len(), 4);
}

#[test]
fn type_conflict_is_reported() {
    let mut registry = MetricsRegistry::new();
    registry.counter("n").unwrap().inc(2);
    assert_eq!(
        registry.histogram("n").err(),
        Some(RegistryError::TypeConflict {
            requested: MetricKind::Histogram,
            bound: MetricKind::Counter
        })
    );
    assert_eq!(
        registry.meter("n", 0).err(),
        Some(RegistryError::TypeConflict { requested: MetricKind::Meter, bound: MetricKind::Counter })
    );
    assert_eq!(
        registry.timer("n", 0).err(),
        Some(RegistryError::TypeConflict { requested: MetricKind::Timer, bound: MetricKind::Counter })
    );
    registry.meter("m", 0).unwrap();
    assert_eq!(
        registry.counter("m").err(),
        Some(RegistryError::TypeConflict { requested: MetricKind::Counter, bound: MetricKind::Meter })
    );
    // the counter is as it was
    assert_eq!(registry.counter("n").unwrap().value(), 2);
    assert_eq!(registry.snapshots().len(), 2);
    assert!(!registry.is_full());
}

#[test]
fn tags_tell_keys_apart_whatever_their_order() {
    let mut registry = MetricsRegistry::new();
    registry
        .counter_with_tags("hits", vec![Tag::new("host", "a"), Tag::new("zone", "eu")])
        .unwrap()
        .inc(1);
    registry
        .counter_with_tags("hits", vec![Tag::new("zone", "eu"), Tag::new("host", "a")])
        .unwrap()
        .inc(1);
    registry.counter_with_tags("hits", vec![Tag::new("host", "b")]).unwrap().inc(5);
    registry.counter("hits").unwrap().inc(7);
    let key = Key::from("hits", vec![Tag::new("zone", "eu"), Tag::new("host", "a")]);
    assert_eq!(registry.get(&key).unwrap().as_counter().unwrap().value(), 2);
    let snapshot = registry.snapshots();
    assert_eq!(snapshot.len(), 3);
    assert_eq!(snapshot.get(&key).unwrap().as_counter().unwrap().value(), 2);
    assert_eq!(snapshot.get_by_name("hits").unwrap().as_counter().unwrap().value(), 7);
    assert!(registry
        .histogram_with_tags("hits", vec![Tag::new("host", "b")])
        .is_err());
    assert!(registry.meter_with_tags("hits", vec![Tag::new("host", "c")], 0).is_ok());
    assert!(registry.timer_with_tags("hits", vec![Tag::new("host", "d")], 0).is_ok());
    assert!(registry.get(&Key::from_name("misses")).is_none());
}

#[test]
fn gauge_replaces_what_was_bound() {
    let mut registry = MetricsRegistry::new();
    registry.gauge("load", Box::new(StaticGauge(1))).unwrap();
    registry.gauge("load", Box::new(StaticGauge(2))).unwrap();
    assert_eq!(registry.snapshots().len(), 1);
    assert_eq!(
        registry.snapshots().get_by_name("load").unwrap().as_gauge().unwrap().value(),
        2
    );
    registry.counter("n").unwrap().inc(1);
    registry.gauge("n", Box::new(StaticGauge(9))).unwrap();
    assert_eq!(registry.get(&Key::from_name("n")).unwrap().kind(), MetricKind::Gauge);
    assert!(registry.counter("n").is_err());
    registry
        .gauge_with_tags("load", vec![Tag::new("cpu", "0")], Box::new(StaticGauge(5)))
        .unwrap();
    assert_eq!(registry.snapshots().len(), 3);
}

#[test]
fn snapshot_is_detached_from_the_registry() {
    let mut registry = MetricsRegistry::new();
    registry.counter("n").unwrap().inc(1);
    let before = registry.snapshots();
    registry.counter("n").unwrap().inc(1);
    assert_eq!(before.get_by_name("n").unwrap().as_counter().unwrap().value(), 1);
    assert_eq!(registry.snapshots().get_by_name("n").unwrap().as_counter().unwrap().value(), 2);
}

#[test]
fn snapshot_binds_each_key_once() {
    let mut s = Snapshot::new();
    assert_eq!(s.len(), 0);
    let mut one = Metric::counter();
    one.inc(1);
    let mut two = Metric::counter();
    two.inc(2);
    s.insert(Key::from_name("a"), Metric::Counter(one));
    s.insert(Key::from("a", vec![Tag::new("t", "1")]), Metric::Histogram(Metric::histogram()));
    s.insert(Key::from_name("a"), Metric::Counter(two));
    assert_eq!(s.len(), 2);
    assert_eq!(s.entries().len(), 2);
    assert!(s.contains_key(&Key::from_name("a")));
    assert!(!s.contains_key(&Key::from_name("b")));
    assert_eq!(s.get_by_name("a").unwrap().as_counter().unwrap().value(), 2);
    assert!(s.get_by_name("b").is_none());
    assert_eq!(
        s.get(&Key::from("a", vec![Tag::new("t", "1")])).unwrap().kind(),
        MetricKind::Histogram
    );
}

#[test]
fn metric_tells_its_kind() {
    let timer: Metric = Metric::timer(0).into();
    assert_eq!(timer.kind(), MetricKind::Timer);
    assert!(timer.as_timer().is_some());
    assert!(timer.as_meter().is_none());
    let meter: Metric = Metric::meter(0).into();
    assert!(meter.as_meter().is_some());
    assert!(meter.as_counter().is_none());
    let histogram: Metric = Metric::histogram().into();
    assert!(histogram.as_histogram().is_some());
    assert!(histogram.as_gauge().is_none());
    let gauge: Metric = Metric::gauge(Box::new(StaticGauge(4))).into();
    assert_eq!(gauge.kind(), MetricKind::Gauge);
    assert_eq!(gauge.as_gauge().unwrap().value(), 4);
    assert!(gauge.as_histogram().is_none());
    let copy = gauge.snapshot();
    assert_eq!(copy.as_gauge().unwrap().value(), 4);
    let counter: Metric = Metric::counter().into();
    assert!(counter.as_counter().is_some());
    assert!(counter.as_timer().is_none());
}

#[test]
fn keys_lists_each_bound_key_once() {
    let mut registry = MetricsRegistry::default();
    assert!(registry.keys().is_empty());
    registry.counter("a").unwrap();
    registry.counter("a").unwrap();
    registry.histogram("b").unwrap();
    registry.counter_with_tags("a", vec![Tag::new("t", "1")]).unwrap();
    let mut keys = registry.keys();
    keys.sort();
    assert_eq!(keys.len(), 3);
    assert!(keys[0] == Key::from_name("a"));
    assert!(keys[1] == Key::from("a", vec![Tag::new("t", "1")]));
    assert!(keys[2] == Key::from_name("b"));
}

#[test]
fn copies_holds_the_chosen_keys_that_are_bound() {
    let mut registry = MetricsRegistry::new();
    registry.counter("a").unwrap().inc(1);
    registry.counter("b").unwrap().inc(2);
    registry.counter("c").unwrap().inc(3);
    let keys = vec![
        Key::from_name("a"),
        Key::from_name("b"),
        Key::from_name("unbound"),
        Key::from_name("c"),
        Key::from_name("b"),
    ];
    let s = registry.copies(&keys, &vec![true, false, true, true]);
    assert_eq!(s.len(), 2);
    assert_eq!(s.get_by_name("a").unwrap().as_counter().unwrap().value(), 1);
    assert_eq!(s.get_by_name("c").unwrap().as_counter().unwrap().value(), 3);
    assert!(s.get_by_name("b").is_none());
    let s = registry.copies(&keys, &vec![false, false, false, false, true, true]);
    assert_eq!(s.len(), 1);
    assert_eq!(s.get_by_name("b").unwrap().as_counter().unwrap().value(), 2);
    assert_eq!(registry.copies(&keys, &vec![]).len(), 0);
}

fn counter_at(value: i64) -> Metric {
    let mut counter = Metric::counter();
    counter.inc(value);
    Metric::Counter(counter)
}

#[test]
fn merge_puts_the_accepted_in_their_order() {
    let mut s = Snapshot::new();
    s.insert(Key::from_name("kept"), counter_at(1));
    s.insert(Key::from_name("shadowed"), counter_at(2));
    s.insert(Key::from("tagged", vec![Tag::new("t", "1")]), counter_at(3));
    let given = vec![
        ("shadowed".to_owned(), counter_at(10)),
        ("twice".to_owned(), counter_at(11)),
        ("refused".to_owned(), counter_at(12)),
        ("twice".to_owned(), counter_at(13)),
        ("tagged".to_owned(), counter_at(14)),
        ("beyond".to_owned(), counter_at(15)),
    ];
    s.merge(given, &vec![true, true, false, true, true]);
    let value = |s: &Snapshot, name: &str| s.get_by_name(name).unwrap().as_counter().unwrap().value();
    assert_eq!(s.len(), 5);
    assert_eq!(value(&s, "kept"), 1);
    assert_eq!(value(&s, "shadowed"), 10);
    assert_eq!(value(&s, "twice"), 13);
    assert_eq!(value(&s, "tagged"), 14);
    assert!(s.get_by_name("refused").is_none());
    assert!(s.get_by_name("beyond").is_none());
    let tagged = Key::from("tagged", vec![Tag::new("t", "1")]);
    assert_eq!(s.get(&tagged).unwrap().as_counter().unwrap().value(), 3);
}

struct OnlyCounters;

impl MetricsFilter for OnlyCounters {
    fn accept(&self, _: &str, metric: &Metric) -> bool {
        metric.kind() == MetricKind::Counter
    }
}

#[test]
fn filter_sees_the_metrics_of_sets_too() {
    let mut registry = MetricsRegistry::new();
    registry.register_metrics_set("xs", Box::new(XCount)).unwrap();
    registry.histogram("sizes").unwrap().update(1);
    registry.set_filter(Some(Box::new(NameFilter)));
    assert_eq!(registry.snapshots().len(), 0);
    registry.set_filter(Some(Box::new(OnlyCounters)));
    let snapshot = registry.snapshots();
    assert_eq!(snapshot.len(), 1);
    assert!(snapshot.get_by_name("x.count").is_some());
}

#[test]
fn set_registered_under_a_used_name_replaces_the_earlier() {
    let mut registry = MetricsRegistry::new();
    registry.register_metrics_set("s", Box::new(Fixed("a", 1))).unwrap();
    registry.register_metrics_set("s", Box::new(Fixed("b", 2))).unwrap();
    let snapshot = registry.snapshots();
    assert_eq!(snapshot.len(), 1);
    assert!(snapshot.get_by_name("a").is_none());
    assert!(snapshot.get_by_name("s").is_none());
    assert_eq!(snapshot.get_by_name("b").unwrap().as_counter().unwrap().value(), 2);
}

#[test]
fn registry_counts_its_metrics() {
    let mut registry = MetricsRegistry::new();
    assert_eq!(registry.len(), 0);
    registry.counter_with_tags("a", vec![Tag::new("k", "1")]).unwrap().inc(5);
    registry.counter_with_tags("a", vec![Tag::new("k", "2")]).unwrap().inc(2);
    registry.counter("a").unwrap().inc(1);
    assert_eq!(registry.len(), 3);
    registry.counter("a").unwrap().inc(1);
    registry.gauge("a", Box::new(StaticGauge(1))).unwrap();
    registry.gauge("g", Box::new(StaticGauge(1))).unwrap();
    registry.gauge("g", Box::new(StaticGauge(2))).unwrap();
    assert_eq!(registry.len(), 4);
    assert!(!registry.is_full());
    let value = |registry: &mut MetricsRegistry, tag: &str| {
        registry.counter_with_tags("a", vec![Tag::new("k", tag)]).unwrap().value()
    };
    assert_eq!(value(&mut registry, "1"), 5);
    assert_eq!(value(&mut registry, "2"), 2);
    assert_eq!(registry.snapshots().len(), 4);
    assert_eq!(registry.snapshots().get_by_name("g").unwrap().as_gauge().unwrap().value(), 2);
}
