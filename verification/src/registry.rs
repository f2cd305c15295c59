//! The registry: every metric of an application under its key.
//!
//! A key is bound to a metric when it is first asked for, and stays bound to
//! a metric of that kind. The registry owns its metrics; who wants to change
//! one borrows it for the time of the change.

use crate::counter::Counter;
use crate::filter::MetricsFilter;
use crate::gauge::{live_source, Gauge, GaugeFn};
use crate::histogram::{fresh_histogram, Histogram};
use crate::index::{index_entries, index_get, index_insert, index_new, index_remove, slots_of};
use crate::key::{key_of, plain_key, Key, KeyView, Tag};
use crate::meter::{fresh_meter, Meter};
use crate::metrics::{Metric, MetricKind, MetricView};
use crate::mset::MetricsSet;
use crate::snapshot::{lemma_merged_keeps, Snapshot};
use crate::timer::{fresh_timer, Timer};
use dashmap::DashMap;
use vstd::prelude::*;

verus! {

/// Why the registry does not hand a metric out.
#[derive(Clone, Copy, Debug, PartialEq, Eq, Structural)]
pub enum RegistryError {
    /// The key is bound to a metric of another kind than the one asked for.
    TypeConflict { requested: MetricKind, bound: MetricKind },
    /// The registry holds as many metrics as the machine can number.
    Full,
}

/// Every key has a slot among the first `n`, and no two keys have one slot.
spec fn index_fits(index: Map<KeyView, usize>, n: nat) -> bool {
    &&& forall|k: KeyView| index.contains_key(k) ==> (#[trigger] index[k]) < n
    &&& forall|j: KeyView, k: KeyView|
        index.contains_key(j) && index.contains_key(k) && j != k ==> #[trigger] index[j]
            != #[trigger] index[k]
}

/// The metric that stands under each key: the one in the key's slot.
spec fn metrics_map(index: Map<KeyView, usize>, slots: Seq<Metric>) -> Map<
    KeyView,
    MetricView,
> {
    Map::new(|k: KeyView| index.contains_key(k), |k: KeyView| slots[index[k] as int]@)
}

/// A change to the metric in a key's slot is a change to the metric under
/// that key, and to no other.
proof fn lemma_slot_update(index: Map<KeyView, usize>, slots: Seq<Metric>, k: KeyView, m: Metric)
    requires
        index_fits(index, slots.len()),
        index.contains_key(k),
    ensures
        metrics_map(index, slots.update(index[k] as int, m)) == metrics_map(index, slots).insert(
            k,
            m@,
        ),
{
    let after = metrics_map(index, slots.update(index[k] as int, m));
    let expected = metrics_map(index, slots).insert(k, m@);
    assert forall|j: KeyView| after.contains_key(j) implies #[trigger] after[j] == expected[j] by {
        if j != k {
            assert(index[j] != index[k]);
        }
    }
    assert(after =~= expected);
}

/// A new metric in a new slot, under a key that had none, adds that key
/// and leaves the other keys as they were.
proof fn lemma_slot_push(index: Map<KeyView, usize>, slots: Seq<Metric>, k: KeyView, m: Metric)
    requires
        index_fits(index, slots.len()),
        !index.contains_key(k),
        slots.len() < usize::MAX,
    ensures
        index_fits(index.insert(k, slots.len() as usize), slots.len() + 1),
        metrics_map(index.insert(k, slots.len() as usize), slots.push(m)) == metrics_map(
            index,
            slots,
        ).insert(k, m@),
{
    lemma_index_grows(index, slots.len(), k);
    let after = metrics_map(index.insert(k, slots.len() as usize), slots.push(m));
    let expected = metrics_map(index, slots).insert(k, m@);
    assert forall|j: KeyView| after.contains_key(j) implies #[trigger] after[j] == expected[j] by {
        if j != k {
            assert(index[j] < slots.len());
        }
    }
    assert(after =~= expected);
}

/// Why a key that is asked for with a kind of metric is turned down, none
/// where a metric is handed out: the key is bound to a metric of another
/// kind, or it is free and the registry is full.
pub open spec fn refusal(
    metrics: Map<KeyView, MetricView>,
    full: bool,
    key: KeyView,
    kind: MetricKind,
) -> Option<RegistryError> {
    if metrics.contains_key(key) {
        if metrics[key].kind() == kind {
            None
        } else {
            Some(RegistryError::TypeConflict { requested: kind, bound: metrics[key].kind() })
        }
    } else if full {
        Some(RegistryError::Full)
    } else {
        None
    }
}

/// The metric under the key, or the fresh one where the key is free.
pub open spec fn found_or(
    metrics: Map<KeyView, MetricView>,
    key: KeyView,
    fresh: MetricView,
) -> MetricView {
    if metrics.contains_key(key) {
        metrics[key]
    } else {
        fresh
    }
}

/// The key is among `keys` at a position that is accepted.
pub open spec fn chosen(keys: Seq<Key>, accepted: Seq<bool>, key: KeyView) -> bool {
    exists|i: int|
        0 <= i < keys.len() && i < accepted.len() && accepted[i] && (#[trigger] keys[i])@ == key
}

/// A key stays with its metric: once a metric of some kind is handed out
/// under a key, asking again for that kind under that key is never turned
/// down, whether or not the registry is full by then, and finds the metric
/// as it was left, not a fresh one.
pub proof fn lemma_asked_again_finds_the_same(
    metrics: Map<KeyView, MetricView>,
    key: KeyView,
    left: MetricView,
    fresh: MetricView,
    full: bool,
)
    ensures
        refusal(metrics.insert(key, left), full, key, left.kind()) is None,
        found_or(metrics.insert(key, left), key, fresh) == left,
{
}

/// What is left of the metrics when a key is asked for `n` times with the
/// kind of `fresh`, one call after the other, and each caller changes the
/// metric it is handed by `step`.
pub open spec fn asked_times(
    metrics: Map<KeyView, MetricView>,
    key: KeyView,
    fresh: MetricView,
    step: spec_fn(MetricView) -> MetricView,
    n: nat,
) -> Map<KeyView, MetricView>
    decreases n,
{
    if n == 0 {
        metrics
    } else {
        let before = asked_times(metrics, key, fresh, step, (n - 1) as nat);
        before.insert(key, step(found_or(before, key, fresh)))
    }
}

/// The metric `m` after `n` changes by `step`.
pub open spec fn stepped(step: spec_fn(MetricView) -> MetricView, n: nat, m: MetricView) -> MetricView
    decreases n,
{
    if n == 0 {
        m
    } else {
        step(stepped(step, (n - 1) as nat, m))
    }
}

/// One metric for one key, however many ask for it: when a key that is free,
/// or bound to a metric of the kind asked for, is asked for `n` times, and
/// each caller changes what it is handed in a way that keeps the kind, then
/// no call after the first is turned down, whether or not the registry is
/// full by then, all `n` changes are made to one metric, the first of them
/// to the one that was found or made fresh, and no other key is touched.
pub proof fn lemma_all_callers_share_one_metric(
    metrics: Map<KeyView, MetricView>,
    key: KeyView,
    fresh: MetricView,
    step: spec_fn(MetricView) -> MetricView,
    n: nat,
)
    requires
        n > 0,
        forall|m: MetricView| (#[trigger] step(m)).kind() == m.kind(),
        metrics.contains_key(key) ==> metrics[key].kind() == fresh.kind(),
    ensures
        asked_times(metrics, key, fresh, step, n) == metrics.insert(
            key,
            stepped(step, n, found_or(metrics, key, fresh)),
        ),
        forall|full: bool| refusal(asked_times(metrics, key, fresh, step, n), full, key, fresh.kind()) is None,
    decreases n,
{
    let first = found_or(metrics, key, fresh);
    lemma_stepped_keeps_kind(step, n, first);
    if n == 1 {
        assert(stepped(step, 1, first) == step(stepped(step, 0, first)));
        assert(asked_times(metrics, key, fresh, step, 0) == metrics);
    } else {
        lemma_all_callers_share_one_metric(metrics, key, fresh, step, (n - 1) as nat);
        let before = asked_times(metrics, key, fresh, step, (n - 1) as nat);
        assert(found_or(before, key, fresh) == stepped(step, (n - 1) as nat, first));
        assert(before.insert(key, stepped(step, n, first)) =~= metrics.insert(
            key,
            stepped(step, n, first),
        ));
    }
}

/// A metric that is changed in ways that keep its kind keeps its kind.
pub proof fn lemma_stepped_keeps_kind(
    step: spec_fn(MetricView) -> MetricView,
    n: nat,
    m: MetricView,
)
    requires
        forall|m: MetricView| (#[trigger] step(m)).kind() == m.kind(),
    ensures
        stepped(step, n, m).kind() == m.kind(),
    decreases n,
{
    if n > 0 {
        lemma_stepped_keeps_kind(step, (n - 1) as nat, m);
    }
}

/// A counter that `n` callers have each stepped up by one, each having asked
/// the registry for it, stands at `n` beyond where it stood: no step is
/// made to a counter of the caller's own.
pub proof fn lemma_counter_shared_by_callers(
    metrics: Map<KeyView, MetricView>,
    key: KeyView,
    n: nat,
)
    requires
        n > 0,
        metrics.contains_key(key) ==> metrics[key] is Counter,
    ensures
        asked_times(metrics, key, MetricView::Counter(0), |m: MetricView| inc_by_one(m), n)[key]
            == MetricView::Counter(
            crate::counter::wrap(found_or(metrics, key, MetricView::Counter(0))->Counter_0 + n),
        ),
{
    let step = |m: MetricView| inc_by_one(m);
    let first = found_or(metrics, key, MetricView::Counter(0));
    assert forall|m: MetricView| (#[trigger] step(m)).kind() == m.kind() by {}
    lemma_all_callers_share_one_metric(metrics, key, MetricView::Counter(0), step, n);
    lemma_counter_stepped(first->Counter_0, n);
}

/// The metric after a counter is stepped up by one; another metric stays as
/// it is.
pub open spec fn inc_by_one(m: MetricView) -> MetricView {
    match m {
        MetricView::Counter(v) => MetricView::Counter(crate::counter::wrap(v + 1)),
        _ => m,
    }
}

/// `n` steps of one add up to `n`.
proof fn lemma_counter_stepped(v: int, n: nat)
    ensures
        stepped(|m: MetricView| inc_by_one(m), n, MetricView::Counter(v)) == MetricView::Counter(
            if n == 0 {
                v
            } else {
                crate::counter::wrap(v + n)
            },
        ),
    decreases n,
{
    let step = |m: MetricView| inc_by_one(m);
    if n > 0 {
        lemma_counter_stepped(v, (n - 1) as nat);
        let before = stepped(step, (n - 1) as nat, MetricView::Counter(v));
        assert(stepped(step, n, MetricView::Counter(v)) == step(before));
        if n > 1 {
            crate::counter::lemma_inc_then_dec(v, (n - 1) as int, -1);
        }
    }
}

/// A key that is bound to a metric of one kind is turned down when it is
/// asked for with any other kind, and the error names both kinds.
pub proof fn lemma_other_kind_is_turned_down(
    metrics: Map<KeyView, MetricView>,
    key: KeyView,
    kind: MetricKind,
    full: bool,
)
    requires
        metrics.contains_key(key),
        metrics[key].kind() != kind,
    ensures
        refusal(metrics, full, key, kind) == Some(
            RegistryError::TypeConflict { requested: kind, bound: metrics[key].kind() },
        ),
{
}

/// Handing a metric out takes no key away and changes the kind of no
/// metric: a key is free and then bound, and from then on bound to a metric
/// of the kind it was first bound with.
pub proof fn lemma_kinds_are_kept(
    metrics: Map<KeyView, MetricView>,
    key: KeyView,
    handed_out: MetricView,
    full: bool,
)
    requires
        refusal(metrics, full, key, handed_out.kind()) is None,
    ensures
        forall|k: KeyView| #[trigger]
            metrics.contains_key(k) ==> metrics.insert(key, handed_out).contains_key(k)
                && metrics.insert(key, handed_out)[k].kind() == metrics[k].kind(),
{
}

/// A key that had no slot can take the next one.
proof fn lemma_index_grows(index: Map<KeyView, usize>, n: nat, k: KeyView)
    requires
        index_fits(index, n),
        !index.contains_key(k),
        n < usize::MAX,
    ensures
        index_fits(index.insert(k, n as usize), n + 1),
{
    let index2 = index.insert(k, n as usize);
    assert forall|j: KeyView| index2.contains_key(j) implies (#[trigger] index2[j]) < n + 1 by {
        if j != k {
            assert(index[j] < n);
        }
    }
    assert forall|i: KeyView, j: KeyView|
        index2.contains_key(i) && index2.contains_key(j) && i != j implies #[trigger] index2[i]
        != #[trigger] index2[j] by {
        if i != k {
            assert(index[i] < n);
        }
        if j != k {
            assert(index[j] < n);
        }
    }
}

/// What a registry is set up with: its filter, the sets of metrics in the
/// places they were registered at, and the place of each name.
#[verifier::ext_equal]
pub struct Setup {
    pub filter: Option<Box<dyn MetricsFilter + 'static>>,
    pub sets: Seq<Option<Box<dyn MetricsSet + 'static>>>,
    pub names: Map<KeyView, usize>,
}

impl Setup {
    /// No place holds a set.
    pub open spec fn no_sets(self) -> bool {
        forall|i: int| 0 <= i < self.sets.len() ==> (#[trigger] self.sets[i]) is None
    }
}

/// `after` is the setup `before` with a set registered under the name: a
/// set stands in the place of the one that had the name, or in a new place
/// after all others where the name is new, and nothing else has changed. If
/// no further place can be numbered, nothing has changed at all. Which set
/// it is that stands in the place, `register_metrics_set` says beside this.
pub open spec fn set_registered(before: Setup, after: Setup, name: Seq<char>) -> bool {
    let key = plain_key(name);
    if !before.names.contains_key(key) && before.sets.len() >= usize::MAX {
        after == before
    } else {
        let place = if before.names.contains_key(key) {
            before.names[key]
        } else {
            before.sets.len() as usize
        };
        &&& after.filter == before.filter
        &&& after.names == before.names.insert(key, place)
        &&& after.sets.len() == if before.names.contains_key(key) {
            before.sets.len()
        } else {
            before.sets.len() + 1
        }
        &&& after.sets[place as int] is Some
        &&& forall|i: int| 0 <= i < before.sets.len() && i != place ==> after.sets[i] == before.sets[i]
    }
}

/// The setup after the set under a name is unregistered: its place is left
/// empty and the name is free.
pub open spec fn without_set(setup: Setup, name: Seq<char>) -> Setup {
    let key = plain_key(name);
    if setup.names.contains_key(key) {
        Setup {
            sets: setup.sets.update(setup.names[key] as int, None),
            names: setup.names.remove(key),
            ..setup
        }
    } else {
        setup
    }
}

/// Entrypoint of all metrics
pub struct MetricsRegistry {
    index: DashMap<Key, usize>,
    slots: Vec<Metric>,
    set_index: DashMap<Key, usize>,
    sets: Vec<Option<Box<dyn MetricsSet + 'static>>>,
    filter: Option<Box<dyn MetricsFilter + 'static>>,
}

impl View for MetricsRegistry {
    type V = Map<KeyView, MetricView>;

    closed spec fn view(&self) -> Map<KeyView, MetricView> {
        metrics_map(slots_of(self.index), self.slots@)
    }
}

impl Default for MetricsRegistry {
    fn default() -> (r: MetricsRegistry)
        ensures
            r.wf(),
            r@ == Map::<KeyView, MetricView>::empty(),
            !r.full(),
            r.setup() == (Setup { filter: None, sets: Seq::empty(), names: Map::empty() }),
    {
        MetricsRegistry::new()
    }
}

impl MetricsRegistry {
    /// The registry is in order: every key has a slot of its own, and every
    /// slot its key.
    pub closed spec fn wf(&self) -> bool {
        &&& index_fits(slots_of(self.index), self.slots@.len())
        &&& slots_of(self.index).dom().finite()
        &&& slots_of(self.index).dom().len() == self.slots@.len()
        &&& index_fits(slots_of(self.set_index), self.sets@.len())
        &&& forall|k: KeyView|
            slots_of(self.set_index).contains_key(k) ==> self.sets@[(#[trigger] slots_of(
                self.set_index,
            )[k]) as int] is Some
    }

    /// Whether the registry holds as many metrics as the machine can number,
    /// so that no further key can be bound.
    pub open spec fn full(&self) -> bool {
        self@.dom().len() >= usize::MAX
    }

    /// A registry that is in order holds finitely many metrics, one in each
    /// slot that is in use.
    proof fn lemma_size(&self)
        requires
            self.wf(),
        ensures
            self@.dom().finite(),
            self@.dom().len() == self.slots@.len(),
    {
        assert(self@.dom() =~= slots_of(self.index).dom());
    }

    /// The filter and the sets of metrics of the registry.
    pub closed spec fn setup(&self) -> Setup {
        Setup { filter: self.filter, sets: self.sets@, names: slots_of(self.set_index) }
    }

    /// Whether a filter is set.
    pub open spec fn has_filter(&self) -> bool {
        self.setup().filter is Some
    }

    /// Whether a set of metrics is registered under the name.
    pub open spec fn has_set(&self, name: Seq<char>) -> bool {
        self.setup().names.contains_key(plain_key(name))
    }

    /// Whether no set of metrics gives anything: none is registered, or
    /// those that were are unregistered again.
    pub open spec fn no_sets(&self) -> bool {
        self.setup().no_sets()
    }

    /// Create a default metrics registry
    pub fn new() -> (r: MetricsRegistry)
        ensures
            r.wf(),
            r@ == Map::<KeyView, MetricView>::empty(),
            !r.full(),
            r.setup() == (Setup { filter: None, sets: Seq::empty(), names: Map::empty() }),
    {
        let r = MetricsRegistry {
            index: index_new(),
            slots: Vec::new(),
            set_index: index_new(),
            sets: Vec::new(),
            filter: None,
        };
        assert(r@ =~= Map::<KeyView, MetricView>::empty());
        r
    }

    /// Whether the registry holds as many metrics as the machine can number.
    pub fn is_full(&self) -> (full: bool)
        requires
            self.wf(),
        ensures
            full == self.full(),
    {
        proof {
            self.lemma_size();
        }
        self.slots.len() >= usize::MAX
    }

    /// The number of metrics in the registry.
    pub fn len(&self) -> (n: usize)
        requires
            self.wf(),
        ensures
            self@.dom().finite(),
            n == self@.dom().len(),
    {
        proof {
            self.lemma_size();
        }
        self.slots.len()
    }

    /// The metric under the key, if the key is bound.
    pub fn get(&self, key: &Key) -> (found: Option<&Metric>)
        requires
            self.wf(),
        ensures
            found is Some <==> self@.contains_key(key@),
            found is Some ==> found->0@ == self@[key@],
    {
        match index_get(&self.index, key) {
            Some(slot) => Some(&self.slots[slot]),
            None => None,
        }
    }

    /// Return `Meter` that has been registered and create if not found.
    ///
    /// Meter a metric to measure rate of an event. It will report rate in 1 minute,
    /// 5 minutes and 15 minutes, which is similar to Linux load. A meter that is
    /// created here is made at `now`, the time on the caller's clock.
    ///
    /// The meter under a key is handed out to be changed by whoever asks for
    /// it, as often as it is asked for. A key that is bound to a metric of
    /// another kind is not handed out as a meter: the caller is told of the
    /// conflict, and the registry stays as it is.
    pub fn meter(&mut self, name: &str, now: u64) -> (found: Result<&mut Meter, RegistryError>)
        requires
            old(self).wf(),
        ensures
            final(self).wf(),
            final(self).setup() == old(self).setup(),
            match found {
                Ok(m) => refusal(old(self)@, old(self).full(), plain_key(name@), MetricKind::Meter) is None
                    && MetricView::Meter(m@) == found_or(old(self)@, plain_key(name@), MetricView::Meter(fresh_meter(now as int)))
                    && final(self)@ == old(self)@.insert(plain_key(name@), MetricView::Meter(final(m)@)),
                Err(e) => refusal(old(self)@, old(self).full(), plain_key(name@), MetricKind::Meter) == Some(e)
                    && final(self)@ == old(self)@ && final(self).full() == old(self).full(),
            },
    {
        let key = Key::from_name(name);
        self.do_meter(key, now)
    }

    /// Return the `Meter` under the name and the tags, and create it if not
    /// found.
    pub fn meter_with_tags(&mut self, name: &str, tags: Vec<Tag>, now: u64) -> (found: Result<
        &mut Meter,
        RegistryError,
    >)
        requires
            old(self).wf(),
        ensures
            final(self).wf(),
            final(self).setup() == old(self).setup(),
            match found {
                Ok(m) => refusal(old(self)@, old(self).full(), key_of(name@, tags@), MetricKind::Meter) is None
                    && MetricView::Meter(m@) == found_or(old(self)@, key_of(name@, tags@), MetricView::Meter(fresh_meter(now as int)))
                    && final(self)@ == old(self)@.insert(key_of(name@, tags@), MetricView::Meter(final(m)@)),
                Err(e) => refusal(old(self)@, old(self).full(), key_of(name@, tags@), MetricKind::Meter) == Some(e)
                    && final(self)@ == old(self)@ && final(self).full() == old(self).full(),
            },
    {
        let key = Key::from(name, tags);
        self.do_meter(key, now)
    }

    fn do_meter(&mut self, key: Key, now: u64) -> (found: Result<&mut Meter, RegistryError>)
        requires
            old(self).wf(),
        ensures
            final(self).wf(),
            final(self).setup() == old(self).setup(),
            match found {
                Ok(m) => refusal(old(self)@, old(self).full(), key@, MetricKind::Meter) is None
                    && MetricView::Meter(m@) == found_or(old(self)@, key@, MetricView::Meter(fresh_meter(now as int)))
                    && final(self)@ == old(self)@.insert(key@, MetricView::Meter(final(m)@)),
                Err(e) => refusal(old(self)@, old(self).full(), key@, MetricKind::Meter) == Some(e)
                    && final(self)@ == old(self)@ && final(self).full() == old(self).full(),
            },
    {
        let ghost k = key@;
        let slot = match index_get(&self.index, &key) {
            Some(slot) => slot,
            None => {
                let slot = self.slots.len();
                proof {
                    self.lemma_size();
                }
                if slot >= usize::MAX {
                    return Err(RegistryError::Full);
                }
                let fresh = Metric::Meter(Meter::new(now));
                proof {
                    lemma_slot_push(slots_of(self.index), self.slots@, k, fresh);
                }
                self.slots.push(fresh);
                index_insert(&mut self.index, key, slot);
                slot
            },
        };
        proof {
            assert forall|m: Metric| #[trigger]
                metrics_map(slots_of(self.index), self.slots@.update(slot as int, m))
                == metrics_map(slots_of(self.index), self.slots@).insert(k, m@) by {
                lemma_slot_update(slots_of(self.index), self.slots@, k, m);
            }
        }
        let bound = self.slots[slot].kind();
        match &mut self.slots[slot] {
            Metric::Meter(m) => Ok(m),
            _ => Err(RegistryError::TypeConflict { requested: MetricKind::Meter, bound }),
        }
    }

    /// Return `Histogram` that has been registered and create if not found.
    ///
    /// Histogram a metric to measure distribution of a series of data. The distribution will
    /// be reported with `max`, `min`, `mean`, `stddev` and the value at particular percentile.
    ///
    /// The histogram under a key is handed out to be changed by whoever asks for
    /// it, as often as it is asked for. A key that is bound to a metric of
    /// another kind is not handed out as a histogram: the caller is told of the
    /// conflict, and the registry stays as it is.
    pub fn histogram(&mut self, name: &str) -> (found: Result<&mut Histogram, RegistryError>)
        requires
            old(self).wf(),
        ensures
            final(self).wf(),
            final(self).setup() == old(self).setup(),
            match found {
                Ok(m) => refusal(old(self)@, old(self).full(), plain_key(name@), MetricKind::Histogram) is None
                    && MetricView::Histogram(m@) == found_or(old(self)@, plain_key(name@), MetricView::Histogram(fresh_histogram()))
                    && final(self)@ == old(self)@.insert(plain_key(name@), MetricView::Histogram(final(m)@)),
                Err(e) => refusal(old(self)@, old(self).full(), plain_key(name@), MetricKind::Histogram) == Some(e)
                    && final(self)@ == old(self)@ && final(self).full() == old(self).full(),
            },
    {
        let key = Key::from_name(name);
        self.do_histogram(key)
    }

    /// Return the `Histogram` under the name and the tags, and create it if not
    /// found.
    pub fn histogram_with_tags(&mut self, name: &str, tags: Vec<Tag>) -> (found: Result<
        &mut Histogram,
        RegistryError,
    >)
        requires
            old(self).wf(),
        ensures
            final(self).wf(),
            final(self).setup() == old(self).setup(),
            match found {
                Ok(m) => refusal(old(self)@, old(self).full(), key_of(name@, tags@), MetricKind::Histogram) is None
                    && MetricView::Histogram(m@) == found_or(old(self)@, key_of(name@, tags@), MetricView::Histogram(fresh_histogram()))
                    && final(self)@ == old(self)@.insert(key_of(name@, tags@), MetricView::Histogram(final(m)@)),
                Err(e) => refusal(old(self)@, old(self).full(), key_of(name@, tags@), MetricKind::Histogram) == Some(e)
                    && final(self)@ == old(self)@ && final(self).full() == old(self).full(),
            },
    {
        let key = Key::from(name, tags);
        self.do_histogram(key)
    }

    fn do_histogram(&mut self, key: Key) -> (found: Result<&mut Histogram, RegistryError>)
        requires
            old(self).wf(),
        ensures
            final(self).wf(),
            final(self).setup() == old(self).setup(),
            match found {
                Ok(m) => refusal(old(self)@, old(self).full(), key@, MetricKind::Histogram) is None
                    && MetricView::Histogram(m@) == found_or(old(self)@, key@, MetricView::Histogram(fresh_histogram()))
                    && final(self)@ == old(self)@.insert(key@, MetricView::Histogram(final(m)@)),
                Err(e) => refusal(old(self)@, old(self).full(), key@, MetricKind::Histogram) == Some(e)
                    && final(self)@ == old(self)@ && final(self).full() == old(self).full(),
            },
    {
        let ghost k = key@;
        let slot = match index_get(&self.index, &key) {
            Some(slot) => slot,
            None => {
                let slot = self.slots.len();
                proof {
                    self.lemma_size();
                }
                if slot >= usize::MAX {
                    return Err(RegistryError::Full);
                }
                let fresh = Metric::Histogram(Histogram::new());
                proof {
                    lemma_slot_push(slots_of(self.index), self.slots@, k, fresh);
                }
                self.slots.push(fresh);
                index_insert(&mut self.index, key, slot);
                slot
            },
        };
        proof {
            assert forall|m: Metric| #[trigger]
                metrics_map(slots_of(self.index), self.slots@.update(slot as int, m))
                == metrics_map(slots_of(self.index), self.slots@).insert(k, m@) by {
                lemma_slot_update(slots_of(self.index), self.slots@, k, m);
            }
        }
        let bound = self.slots[slot].kind();
        match &mut self.slots[slot] {
            Metric::Histogram(m) => Ok(m),
            _ => Err(RegistryError::TypeConflict { requested: MetricKind::Histogram, bound }),
        }
    }

    /// Return `Counter` that has been registered and create if not found.
    ///
    /// Counter a metric to measure the number of some state.
    ///
    /// The counter under a key is handed out to be changed by whoever asks for
    /// it, as often as it is asked for. A key that is bound to a metric of
    /// another kind is not handed out as a counter: the caller is told of the
    /// conflict, and the registry stays as it is.
    pub fn counter(&mut self, name: &str) -> (found: Result<&mut Counter, RegistryError>)
        requires
            old(self).wf(),
        ensures
            final(self).wf(),
            final(self).setup() == old(self).setup(),
            match found {
                Ok(m) => refusal(old(self)@, old(self).full(), plain_key(name@), MetricKind::Counter) is None
                    && MetricView::Counter(m@) == found_or(old(self)@, plain_key(name@), MetricView::Counter(0))
                    && final(self)@ == old(self)@.insert(plain_key(name@), MetricView::Counter(final(m)@)),
                Err(e) => refusal(old(self)@, old(self).full(), plain_key(name@), MetricKind::Counter) == Some(e)
                    && final(self)@ == old(self)@ && final(self).full() == old(self).full(),
            },
    {
        let key = Key::from_name(name);
        self.do_counter(key)
    }

    /// Return the `Counter` under the name and the tags, and create it if not
    /// found.
    pub fn counter_with_tags(&mut self, name: &str, tags: Vec<Tag>) -> (found: Result<
        &mut Counter,
        RegistryError,
    >)
        requires
            old(self).wf(),
        ensures
            final(self).wf(),
            final(self).setup() == old(self).setup(),
            match found {
                Ok(m) => refusal(old(self)@, old(self).full(), key_of(name@, tags@), MetricKind::Counter) is None
                    && MetricView::Counter(m@) == found_or(old(self)@, key_of(name@, tags@), MetricView::Counter(0))
                    && final(self)@ == old(self)@.insert(key_of(name@, tags@), MetricView::Counter(final(m)@)),
                Err(e) => refusal(old(self)@, old(self).full(), key_of(name@, tags@), MetricKind::Counter) == Some(e)
                    && final(self)@ == old(self)@ && final(self).full() == old(self).full(),
            },
    {
        let key = Key::from(name, tags);
        self.do_counter(key)
    }

    fn do_counter(&mut self, key: Key) -> (found: Result<&mut Counter, RegistryError>)
        requires
            old(self).wf(),
        ensures
            final(self).wf(),
            final(self).setup() == old(self).setup(),
            match found {
                Ok(m) => refusal(old(self)@, old(self).full(), key@, MetricKind::Counter) is None
                    && MetricView::Counter(m@) == found_or(old(self)@, key@, MetricView::Counter(0))
                    && final(self)@ == old(self)@.insert(key@, MetricView::Counter(final(m)@)),
                Err(e) => refusal(old(self)@, old(self).full(), key@, MetricKind::Counter) == Some(e)
                    && final(self)@ == old(self)@ && final(self).full() == old(self).full(),
            },
    {
        let ghost k = key@;
        let slot = match index_get(&self.index, &key) {
            Some(slot) => slot,
            None => {
                let slot = self.slots.len();
                proof {
                    self.lemma_size();
                }
                if slot >= usize::MAX {
                    return Err(RegistryError::Full);
                }
                let fresh = Metric::Counter(Counter::new());
                proof {
                    lemma_slot_push(slots_of(self.index), self.slots@, k, fresh);
                }
                self.slots.push(fresh);
                index_insert(&mut self.index, key, slot);
                slot
            },
        };
        proof {
            assert forall|m: Metric| #[trigger]
                metrics_map(slots_of(self.index), self.slots@.update(slot as int, m))
                == metrics_map(slots_of(self.index), self.slots@).insert(k, m@) by {
                lemma_slot_update(slots_of(self.index), self.slots@, k, m);
            }
        }
        let bound = self.slots[slot].kind();
        match &mut self.slots[slot] {
            Metric::Counter(m) => Ok(m),
            _ => Err(RegistryError::TypeConflict { requested: MetricKind::Counter, bound }),
        }
    }

    /// Return `Timer` that has been registered and create if not found.
    ///
    /// Timer is a combination of meter and histogram. The meter part is to track rate of
    /// the event. And the histogram part maintains the distribution of time spent for the event.
    /// A timer that is created here is made at `now`, the time on the caller's clock.
    ///
    /// The timer under a key is handed out to be changed by whoever asks for
    /// it, as often as it is asked for. A key that is bound to a metric of
    /// another kind is not handed out as a timer: the caller is told of the
    /// conflict, and the registry stays as it is.
    pub fn timer(&mut self, name: &str, now: u64) -> (found: Result<&mut Timer, RegistryError>)
        requires
            old(self).wf(),
        ensures
            final(self).wf(),
            final(self).setup() == old(self).setup(),
            match found {
                Ok(m) => refusal(old(self)@, old(self).full(), plain_key(name@), MetricKind::Timer) is None
                    && MetricView::Timer(m@) == found_or(old(self)@, plain_key(name@), MetricView::Timer(fresh_timer(now as int)))
                    && final(self)@ == old(self)@.insert(plain_key(name@), MetricView::Timer(final(m)@)),
                Err(e) => refusal(old(self)@, old(self).full(), plain_key(name@), MetricKind::Timer) == Some(e)
                    && final(self)@ == old(self)@ && final(self).full() == old(self).full(),
            },
    {
        let key = Key::from_name(name);
        self.do_timer(key, now)
    }

    /// Return the `Timer` under the name and the tags, and create it if not
    /// found.
    pub fn timer_with_tags(&mut self, name: &str, tags: Vec<Tag>, now: u64) -> (found: Result<
        &mut Timer,
        RegistryError,
    >)
        requires
            old(self).wf(),
        ensures
            final(self).wf(),
            final(self).setup() == old(self).setup(),
            match found {
                Ok(m) => refusal(old(self)@, old(self).full(), key_of(name@, tags@), MetricKind::Timer) is None
                    && MetricView::Timer(m@) == found_or(old(self)@, key_of(name@, tags@), MetricView::Timer(fresh_timer(now as int)))
                    && final(self)@ == old(self)@.insert(key_of(name@, tags@), MetricView::Timer(final(m)@)),
                Err(e) => refusal(old(self)@, old(self).full(), key_of(name@, tags@), MetricKind::Timer) == Some(e)
                    && final(self)@ == old(self)@ && final(self).full() == old(self).full(),
            },
    {
        let key = Key::from(name, tags);
        self.do_timer(key, now)
    }

    fn do_timer(&mut self, key: Key, now: u64) -> (found: Result<&mut Timer, RegistryError>)
        requires
            old(self).wf(),
        ensures
            final(self).wf(),
            final(self).setup() == old(self).setup(),
            match found {
                Ok(m) => refusal(old(self)@, old(self).full(), key@, MetricKind::Timer) is None
                    && MetricView::Timer(m@) == found_or(old(self)@, key@, MetricView::Timer(fresh_timer(now as int)))
                    && final(self)@ == old(self)@.insert(key@, MetricView::Timer(final(m)@)),
                Err(e) => refusal(old(self)@, old(self).full(), key@, MetricKind::Timer) == Some(e)
                    && final(self)@ == old(self)@ && final(self).full() == old(self).full(),
            },
    {
        let ghost k = key@;
        let slot = match index_get(&self.index, &key) {
            Some(slot) => slot,
            None => {
                let slot = self.slots.len();
                proof {
                    self.lemma_size();
                }
                if slot >= usize::MAX {
                    return Err(RegistryError::Full);
                }
                let fresh = Metric::Timer(Timer::new(now));
                proof {
                    lemma_slot_push(slots_of(self.index), self.slots@, k, fresh);
                }
                self.slots.push(fresh);
                index_insert(&mut self.index, key, slot);
                slot
            },
        };
        proof {
            assert forall|m: Metric| #[trigger]
                metrics_map(slots_of(self.index), self.slots@.update(slot as int, m))
                == metrics_map(slots_of(self.index), self.slots@).insert(k, m@) by {
                lemma_slot_update(slots_of(self.index), self.slots@, k, m);
            }
        }
        let bound = self.slots[slot].kind();
        match &mut self.slots[slot] {
            Metric::Timer(m) => Ok(m),
            _ => Err(RegistryError::TypeConflict { requested: MetricKind::Timer, bound }),
        }
    }

    /// Register a `Gauge` with given function.
    ///
    /// The guage will return a value when any reporter wants to fetch data from it.
    /// The gauge takes the place of whatever metric the key was bound to, be
    /// it a gauge over another function.
    pub fn gauge(&mut self, name: &str, func: Box<dyn GaugeFn + 'static>) -> (done: Result<
        (),
        RegistryError,
    >)
        requires
            old(self).wf(),
        ensures
            final(self).wf(),
            final(self).setup() == old(self).setup(),
            done is Err <==> old(self).full() && !old(self)@.contains_key(plain_key(name@)),
            done is Err ==> done == Err::<(), RegistryError>(RegistryError::Full) && final(self)@ == old(self)@,
            done is Ok ==> final(self)@ == old(self)@.insert(plain_key(name@), MetricView::Gauge(live_source(func))),
    {
        let key = Key::from_name(name);
        self.do_gauge(key, Gauge::new(func))
    }

    /// Register a `Gauge` with given function under the name and the tags.
    pub fn gauge_with_tags(
        &mut self,
        name: &str,
        tags: Vec<Tag>,
        func: Box<dyn GaugeFn + 'static>,
    ) -> (done: Result<(), RegistryError>)
        requires
            old(self).wf(),
        ensures
            final(self).wf(),
            final(self).setup() == old(self).setup(),
            done is Err <==> old(self).full() && !old(self)@.contains_key(key_of(name@, tags@)),
            done is Ok ==> final(self)@ == old(self)@.insert(key_of(name@, tags@), MetricView::Gauge(live_source(func))),
            done is Err ==> done == Err::<(), RegistryError>(RegistryError::Full) && final(self)@ == old(self)@,
    {
        let key = Key::from(name, tags);
        self.do_gauge(key, Gauge::new(func))
    }

    fn do_gauge(&mut self, key: Key, gauge: Gauge) -> (done: Result<(), RegistryError>)
        requires
            old(self).wf(),
        ensures
            final(self).wf(),
            final(self).setup() == old(self).setup(),
            done is Err <==> old(self).full() && !old(self)@.contains_key(key@),
            done is Err ==> done == Err::<(), RegistryError>(RegistryError::Full) && final(self)@ == old(self)@,
            done is Ok ==> final(self)@ == old(self)@.insert(key@, MetricView::Gauge(gauge.source())),
    {
        let gauge = Metric::Gauge(gauge);
        match index_get(&self.index, &key) {
            Some(slot) => {
                proof {
                    lemma_slot_update(slots_of(self.index), self.slots@, key@, gauge);
                }
                self.slots.set(slot, gauge);
                Ok(())
            },
            None => {
                let slot = self.slots.len();
                proof {
                    self.lemma_size();
                }
                if slot >= usize::MAX {
                    return Err(RegistryError::Full);
                }
                proof {
                    lemma_slot_push(slots_of(self.index), self.slots@, key@, gauge);
                }
                self.slots.push(gauge);
                index_insert(&mut self.index, key, slot);
                Ok(())
            },
        }
    }

    /// What the filter says of the metric under the name: yes, where no
    /// filter is set.
    fn accepts(&self, name: &str, metric: &Metric) -> (yes: bool)
        ensures
            !self.has_filter() ==> yes,
    {
        match &self.filter {
            Some(filter) => filter.accept(name, metric),
            None => true,
        }
    }

    /// The keys that are bound, each once, in no order that is promised.
    pub fn keys(&self) -> (keys: Vec<Key>)
        requires
            self.wf(),
        ensures
            forall|i: int| 0 <= i < keys@.len() ==> self@.contains_key((#[trigger] keys@[i])@),
            forall|i: int, j: int|
                0 <= i < j < keys@.len() ==> (#[trigger] keys@[i])@ != (#[trigger] keys@[j])@,
            forall|k: KeyView|
                self@.contains_key(k) ==> exists|i: int|
                    0 <= i < keys@.len() && (#[trigger] keys@[i])@ == k,
    {
        let entries = index_entries(&self.index);
        let mut keys: Vec<Key> = Vec::with_capacity(entries.len());
        let mut i: usize = 0;
        while i < entries.len()
            invariant
                i <= entries.len(),
                keys@.len() == i,
                forall|j: int| 0 <= j < i ==> (#[trigger] keys@[j])@ == entries@[j].0@,
            decreases entries.len() - i,
        {
            keys.push(entries[i].0.clone());
            i += 1;
        }
        proof {
            assert forall|k: KeyView| self@.contains_key(k) implies exists|i: int|
                0 <= i < keys@.len() && (#[trigger] keys@[i])@ == k by {
                let j = choose|j: int| 0 <= j < entries@.len() && (#[trigger] entries@[j]).0@ == k;
                assert(keys@[j]@ == k);
            }
            assert forall|i: int, j: int| 0 <= i < j < keys@.len() implies (#[trigger] keys@[i])@
                != (#[trigger] keys@[j])@ by {
                assert(entries@[i].0@ != entries@[j].0@);
            }
            assert forall|i: int| 0 <= i < keys@.len() implies self@.contains_key(
                (#[trigger] keys@[i])@,
            ) by {
                assert(slots_of(self.index).contains_key(entries@[i].0@));
            }
        }
        keys
    }

    /// A snapshot of the metrics under the keys that are chosen: the key at
    /// a position is chosen where `accepted` holds `true` at that position.
    /// The snapshot holds a copy of the metric under each chosen key that is
    /// bound, and nothing else.
    pub fn copies(&self, keys: &Vec<Key>, accepted: &Vec<bool>) -> (s: Snapshot)
        requires
            self.wf(),
        ensures
            forall|k: KeyView| #[trigger]
                s@.contains_key(k) <==> self@.contains_key(k) && chosen(keys@, accepted@, k),
            forall|k: KeyView| #[trigger] s@.contains_key(k) ==> self@[k].copied_as(s@[k]),
    {
        let mut s = Snapshot::new();
        let mut i: usize = 0;
        while i < keys.len()
            invariant
                self.wf(),
                i <= keys.len(),
                forall|k: KeyView| #[trigger]
                    s@.contains_key(k) <==> self@.contains_key(k) && chosen(
                        keys@.take(i as int),
                        accepted@,
                        k,
                    ),
                forall|k: KeyView| #[trigger] s@.contains_key(k) ==> self@[k].copied_as(s@[k]),
            decreases keys.len() - i,
        {
            let ghost before = s@;
            let mut added = false;
            if i < accepted.len() && accepted[i] {
                if let Some(metric) = self.get(&keys[i]) {
                    s.insert(keys[i].clone(), metric.snapshot());
                    added = true;
                }
            }
            proof {
                let shorter = keys@.take(i as int);
                let longer = keys@.take(i as int + 1);
                assert forall|k: KeyView| #[trigger]
                    s@.contains_key(k) <==> self@.contains_key(k) && chosen(
                        longer,
                        accepted@,
                        k,
                    ) by {
                    if chosen(shorter, accepted@, k) {
                        let j = choose|j: int|
                            0 <= j < shorter.len() && j < accepted@.len() && accepted@[j]
                                && (#[trigger] shorter[j])@ == k;
                        assert(longer[j]@ == k);
                    }
                    if chosen(longer, accepted@, k) {
                        let j = choose|j: int|
                            0 <= j < longer.len() && j < accepted@.len() && accepted@[j]
                                && (#[trigger] longer[j])@ == k;
                        if j < i {
                            assert(shorter[j]@ == k);
                        } else {
                            assert(keys@[i as int]@ == k);
                        }
                    }
                    if added && k == keys@[i as int]@ {
                        assert(longer[i as int]@ == k);
                    }
                }
            }
            i += 1;
        }
        assert(keys@.take(keys@.len() as int) =~= keys@);
        s
    }

    /// What the filter says of each of the metrics that a set gives.
    fn verdicts(&self, given: &Vec<(String, Metric)>) -> (accepted: Vec<bool>)
        ensures
            accepted@.len() == given@.len(),
            !self.has_filter() ==> forall|j: int| 0 <= j < accepted@.len() ==> accepted@[j],
    {
        let mut accepted: Vec<bool> = Vec::with_capacity(given.len());
        let mut j: usize = 0;
        while j < given.len()
            invariant
                j <= given.len(),
                accepted@.len() == j,
                !self.has_filter() ==> forall|i: int| 0 <= i < accepted@.len() ==> accepted@[i],
            decreases given.len() - j,
        {
            accepted.push(self.accepts(given[j].0.as_str(), &given[j].1));
            j += 1;
        }
        accepted
    }

    /// Returns all the metrics hold in the registry.
    /// Metrics is filtered if a filter is set for this registry.
    ///
    /// This is useful for reporters to fetch all values from the registry.
    ///
    /// The snapshot holds a copy of each metric of the registry that the
    /// filter accepts, under its key. Into these the metrics that the
    /// registered sets give are merged, set by set in the order in which
    /// their names were first registered, as `Snapshot::merge` does it with
    /// what the filter says of each. Where a name comes twice the later one
    /// counts: a set's metric stands in place of the registry's own, and in
    /// place of that of a set before it.
    pub fn snapshots(&self) -> (s: Snapshot)
        requires
            self.wf(),
        ensures
            forall|k: KeyView| #[trigger]
                s@.contains_key(k) ==> (self@.contains_key(k) && self@[k].copied_as(s@[k])) || (
                !self.no_sets() && k.tags.len() == 0),
            !self.has_filter() ==> forall|k: KeyView|
                self@.contains_key(k) ==> #[trigger] s@.contains_key(k),
    {
        let keys = self.keys();
        let mut accepted: Vec<bool> = Vec::with_capacity(keys.len());
        let mut i: usize = 0;
        while i < keys.len()
            invariant
                self.wf(),
                i <= keys.len(),
                accepted@.len() == i,
                forall|j: int| 0 <= j < keys@.len() ==> self@.contains_key((#[trigger] keys@[j])@),
                !self.has_filter() ==> forall|j: int| 0 <= j < i ==> accepted@[j],
            decreases keys.len() - i,
        {
            let verdict = match self.get(&keys[i]) {
                Some(metric) => self.accepts(keys[i].key(), metric),
                None => false,
            };
            accepted.push(verdict);
            i += 1;
        }
        let mut s = self.copies(&keys, &accepted);
        proof {
            if !self.has_filter() {
                assert forall|k: KeyView| self@.contains_key(k) implies #[trigger] s@.contains_key(
                    k,
                ) by {
                    let j = choose|j: int| 0 <= j < keys@.len() && (#[trigger] keys@[j])@ == k;
                    assert(chosen(keys@, accepted@, k)) by {
                        assert(keys@[j]@ == k && accepted@[j]);
                    }
                }
            }
        }
        let mut n: usize = 0;
        while n < self.sets.len()
            invariant
                n <= self.sets.len(),
                forall|k: KeyView| #[trigger]
                    s@.contains_key(k) ==> (self@.contains_key(k) && self@[k].copied_as(s@[k]))
                        || (!self.no_sets() && k.tags.len() == 0),
                !self.has_filter() ==> forall|k: KeyView| #[trigger]
                    self@.contains_key(k) ==> s@.contains_key(k),
            decreases self.sets.len() - n,
        {
            if let Some(set) = &self.sets[n] {
                assert(!self.no_sets());
                let given = set.get_all();
                let accepted = self.verdicts(&given);
                proof {
                    lemma_merged_keeps(s@, given@, accepted@, 0);
                }
                s.merge(given, &accepted);
            }
            n += 1;
        }
        s
    }

    /// Set a filter for this registry.
    /// The filter will apply to `snapshots` function.
    pub fn set_filter(&mut self, filter: Option<Box<dyn MetricsFilter + 'static>>)
        requires
            old(self).wf(),
        ensures
            final(self).wf(),
            final(self)@ == old(self)@,
            final(self).full() == old(self).full(),
            final(self).setup() == (Setup { filter, ..old(self).setup() }),
    {
        self.filter = filter;
    }

    /// Register a MetricsSet implementation.
    ///
    /// A MetricsSet returns a set of metrics when `snapshots()` is called on
    /// the registry. This provides dynamic metrics that can be added into registry
    /// based custom rules.
    ///
    /// The name has nothing to do with metrics it added to `snapshots()` results.
    /// It's just for identify the metrics set for dedup and removal. A set
    /// registered under a name that is taken stands in place of the set that
    /// had the name: from then on it is the given set that is asked for its
    /// metrics in that place.
    pub fn register_metrics_set(&mut self, name: &str, mset: Box<dyn MetricsSet + 'static>) -> (done:
        Result<(), RegistryError>)
        requires
            old(self).wf(),
        ensures
            final(self).wf(),
            final(self)@ == old(self)@,
            final(self).full() == old(self).full(),
            set_registered(old(self).setup(), final(self).setup(), name@),
            done is Ok ==> final(self).setup().sets[final(self).setup().names[plain_key(name@)] as int] == Some(mset),
            done is Err <==> !old(self).has_set(name@) && old(self).setup().sets.len() >= usize::MAX,
            done is Err ==> done == Err::<(), RegistryError>(RegistryError::Full),
            done is Ok ==> final(self).has_set(name@) && !final(self).no_sets(),
    {
        let key = Key::from_name(name);
        assert forall|other: Seq<char>| other != name@ implies plain_key(other) != key@ by {}
        match index_get(&self.set_index, &key) {
            Some(slot) => {
                assert(slot < self.sets@.len());
                let ghost before = self.sets@;
                let entry = Some(mset);
                self.sets.set(slot, entry);
                assert(self.sets@ == before.update(slot as int, entry));
                assert(self.sets@[slot as int] == entry);
                assert(self.setup().names =~= old(self).setup().names.insert(key@, slot));
                Ok(())
            },
            None => {
                let slot = self.sets.len();
                if slot >= usize::MAX {
                    return Err(RegistryError::Full);
                }
                proof {
                    lemma_index_grows(slots_of(self.set_index), self.sets@.len(), key@);
                }
                let ghost before = self.sets@;
                let entry = Some(mset);
                self.sets.push(entry);
                index_insert(&mut self.set_index, key, slot);
                assert(self.sets@ == before.push(entry));
                assert(self.sets@[slot as int] == entry);
                assert(self.setup().names =~= old(self).setup().names.insert(key@, slot));
                Ok(())
            },
        }
    }

    /// Unregister a MetricsSet implementation by its name.
    pub fn unregister_metrics_set(&mut self, name: &str)
        requires
            old(self).wf(),
        ensures
            final(self).wf(),
            final(self)@ == old(self)@,
            final(self).full() == old(self).full(),
            final(self).setup() == without_set(old(self).setup(), name@),
            old(self).no_sets() ==> final(self).no_sets(),
    {
        let key = Key::from_name(name);
        assert forall|other: Seq<char>| other != name@ implies plain_key(other) != key@ by {}
        match index_remove(&mut self.set_index, &key) {
            Some(slot) => {
                self.sets.set(slot, None);
                assert(self.setup() =~= without_set(old(self).setup(), name@));
            },
            None => {
                assert(self.setup() =~= without_set(old(self).setup(), name@));
            },
        }
    }
}

} // verus!
