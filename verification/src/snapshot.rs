//! What a registry hands to a reporter: copies of its metrics, each under its
//! key.

use crate::key::{plain_key, Key, KeyView};
use crate::metrics::{Metric, MetricView};
use vstd::prelude::*;

verus! {

/// No key stands in the sequence twice.
pub open spec fn keys_distinct(s: Seq<(Key, Metric)>) -> bool {
    forall|i: int, j: int| 0 <= i < j < s.len() ==> (#[trigger] s[i]).0@ != (#[trigger] s[j]).0@
}

/// The map from each key in the sequence to its metric; of two entries under
/// one key the later counts.
pub open spec fn as_map(s: Seq<(Key, Metric)>) -> Map<KeyView, MetricView>
    decreases s.len(),
{
    if s.len() == 0 {
        Map::empty()
    } else {
        as_map(s.drop_last()).insert(s.last().0@, s.last().1@)
    }
}

/// The map holds the keys of the sequence and no others.
pub proof fn lemma_as_map_keys(s: Seq<(Key, Metric)>, k: KeyView)
    ensures
        as_map(s).contains_key(k) <==> exists|i: int| 0 <= i < s.len() && (#[trigger] s[i]).0@ == k,
        as_map(s).dom().finite(),
    decreases s.len(),
{
    if s.len() > 0 {
        let front = s.drop_last();
        lemma_as_map_keys(front, k);
        if as_map(s).contains_key(k) {
            if s.last().0@ == k {
                assert(s[s.len() - 1].0@ == k);
            } else {
                let i = choose|i: int| 0 <= i < front.len() && (#[trigger] front[i]).0@ == k;
                assert(s[i].0@ == k);
            }
        }
        if exists|i: int| 0 <= i < s.len() && (#[trigger] s[i]).0@ == k {
            let i = choose|i: int| 0 <= i < s.len() && (#[trigger] s[i]).0@ == k;
            if i < s.len() - 1 {
                assert(front[i].0@ == k);
            }
        }
    }
}

/// Where no key stands twice, the map holds for each key the metric that
/// stands with it.
pub proof fn lemma_as_map_at(s: Seq<(Key, Metric)>, i: int)
    requires
        keys_distinct(s),
        0 <= i < s.len(),
    ensures
        as_map(s).contains_key(s[i].0@),
        as_map(s)[s[i].0@] == s[i].1@,
    decreases s.len(),
{
    let front = s.drop_last();
    if i < s.len() - 1 {
        assert forall|a: int, b: int| 0 <= a < b < front.len() implies (#[trigger] front[a]).0@ != (
        #[trigger] front[b]).0@ by {
            assert(s[a].0@ != s[b].0@);
        }
        lemma_as_map_at(front, i);
        assert(front[i] == s[i]);
        assert(s[i].0@ != s[s.len() - 1].0@);
    }
}

/// Where no key stands twice, putting another metric in the place of one
/// binds the key to that metric and leaves the other keys as they were.
pub proof fn lemma_as_map_update(s: Seq<(Key, Metric)>, i: int, entry: (Key, Metric))
    requires
        keys_distinct(s),
        0 <= i < s.len(),
        entry.0@ == s[i].0@,
    ensures
        keys_distinct(s.update(i, entry)),
        as_map(s.update(i, entry)) == as_map(s).insert(entry.0@, entry.1@),
    decreases s.len(),
{
    let t = s.update(i, entry);
    assert forall|a: int, b: int| 0 <= a < b < t.len() implies (#[trigger] t[a]).0@ != (
    #[trigger] t[b]).0@ by {
        assert(s[a].0@ != s[b].0@);
    }
    let front = s.drop_last();
    if i == s.len() - 1 {
        assert(t.drop_last() =~= front);
        assert(as_map(t) =~= as_map(s).insert(entry.0@, entry.1@));
    } else {
        assert forall|a: int, b: int| 0 <= a < b < front.len() implies (#[trigger] front[a]).0@ != (
        #[trigger] front[b]).0@ by {
            assert(s[a].0@ != s[b].0@);
        }
        lemma_as_map_update(front, i, entry);
        assert(t.drop_last() =~= front.update(i, entry));
        assert(t.last() == s.last());
        assert(s[i].0@ != s[s.len() - 1].0@);
        assert(as_map(t) =~= as_map(s).insert(entry.0@, entry.1@));
    }
}

/// Where no key stands twice, the map has as many keys as the sequence has
/// entries.
pub proof fn lemma_as_map_len(s: Seq<(Key, Metric)>)
    requires
        keys_distinct(s),
    ensures
        as_map(s).dom().finite(),
        as_map(s).dom().len() == s.len(),
    decreases s.len(),
{
    if s.len() > 0 {
        let front = s.drop_last();
        assert forall|a: int, b: int| 0 <= a < b < front.len() implies (#[trigger] front[a]).0@ != (
        #[trigger] front[b]).0@ by {
            assert(s[a].0@ != s[b].0@);
        }
        lemma_as_map_len(front);
        lemma_as_map_keys(front, s.last().0@);
        if as_map(front).contains_key(s.last().0@) {
            let i = choose|i: int| 0 <= i < front.len() && (#[trigger] front[i]).0@ == s.last().0@;
            assert(s[i].0@ != s[s.len() - 1].0@);
        }
        assert(as_map(s).dom() =~= as_map(front).dom().insert(s.last().0@));
    } else {
        assert(as_map(s).dom() =~= Set::empty());
    }
}

/// What is left of `base` when the metrics `given` from position `from` on
/// are put into it one after the other, each under its name, those left
/// out that are not accepted. Where a name comes twice, the later metric
/// stands in place of the earlier.
pub open spec fn merged(
    base: Map<KeyView, MetricView>,
    given: Seq<(String, Metric)>,
    accepted: Seq<bool>,
    from: int,
) -> Map<KeyView, MetricView>
    decreases given.len() - from,
{
    if from < 0 || from >= given.len() {
        base
    } else {
        merged(merged_one(base, given, accepted, from), given, accepted, from + 1)
    }
}

/// What is left of `base` when the metric at position `at` is put into it, if
/// it is accepted.
pub open spec fn merged_one(
    base: Map<KeyView, MetricView>,
    given: Seq<(String, Metric)>,
    accepted: Seq<bool>,
    at: int,
) -> Map<KeyView, MetricView> {
    if at < accepted.len() && accepted[at] {
        base.insert(plain_key(given[at].0@), given[at].1@)
    } else {
        base
    }
}

/// Merging takes no key away, and changes only what stands under keys
/// without tags.
pub proof fn lemma_merged_keeps(
    base: Map<KeyView, MetricView>,
    given: Seq<(String, Metric)>,
    accepted: Seq<bool>,
    from: int,
)
    ensures
        forall|k: KeyView| base.contains_key(k) ==> #[trigger] merged(
            base,
            given,
            accepted,
            from,
        ).contains_key(k),
        forall|k: KeyView| #[trigger]
            merged(base, given, accepted, from).contains_key(k) ==> k.tags.len() == 0 || (
            base.contains_key(k) && merged(base, given, accepted, from)[k] == base[k]),
    decreases given.len() - from,
{
    if 0 <= from < given.len() {
        let one = merged_one(base, given, accepted, from);
        lemma_merged_keeps(one, given, accepted, from + 1);
        let all = merged(base, given, accepted, from);
        assert(all == merged(one, given, accepted, from + 1));
        assert(plain_key(given[from].0@).tags.len() == 0);
        assert forall|k: KeyView| base.contains_key(k) implies all.contains_key(k) by {
            assert(one.contains_key(k));
        }
        assert forall|k: KeyView| all.contains_key(k) implies k.tags.len() == 0 || (
        base.contains_key(k) && all[k] == base[k]) by {
            if k.tags.len() != 0 {
                assert(one.contains_key(k) && all[k] == one[k]);
                assert(k != plain_key(given[from].0@));
            }
        }
    }
}

/// A metric that is accepted, and whose name no later metric has, stands in
/// the result under its name.
pub proof fn lemma_merged_holds_the_last(
    base: Map<KeyView, MetricView>,
    given: Seq<(String, Metric)>,
    accepted: Seq<bool>,
    from: int,
    at: int,
)
    requires
        0 <= from <= at < given.len(),
        at < accepted.len(),
        accepted[at],
        forall|j: int| at < j < given.len() ==> (#[trigger] given[j]).0@ != given[at].0@,
    ensures
        merged(base, given, accepted, from).contains_key(plain_key(given[at].0@)),
        merged(base, given, accepted, from)[plain_key(given[at].0@)] == given[at].1@,
    decreases given.len() - from,
{
    if from < at {
        lemma_merged_holds_the_last(
            merged_one(base, given, accepted, from),
            given,
            accepted,
            from + 1,
            at,
        );
    } else {
        lemma_merged_untouched(
            merged_one(base, given, accepted, at),
            given,
            accepted,
            at + 1,
            plain_key(given[at].0@),
        );
    }
}

/// A key that none of the metrics from `from` on is named by stands as it
/// stood.
pub proof fn lemma_merged_untouched(
    base: Map<KeyView, MetricView>,
    given: Seq<(String, Metric)>,
    accepted: Seq<bool>,
    from: int,
    key: KeyView,
)
    requires
        0 <= from,
        forall|j: int| from <= j < given.len() ==> plain_key((#[trigger] given[j]).0@) != key,
    ensures
        merged(base, given, accepted, from).contains_key(key) == base.contains_key(key),
        base.contains_key(key) ==> merged(base, given, accepted, from)[key] == base[key],
    decreases given.len() - from,
{
    if from < given.len() {
        assert(plain_key(given[from].0@) != key);
        lemma_merged_untouched(
            merged_one(base, given, accepted, from),
            given,
            accepted,
            from + 1,
            key,
        );
    }
}

/// Copies of metrics, each under its key.
pub struct Snapshot {
    entries: Vec<(Key, Metric)>,
}

impl View for Snapshot {
    type V = Map<KeyView, MetricView>;

    closed spec fn view(&self) -> Map<KeyView, MetricView> {
        as_map(self.entries@)
    }
}

impl Snapshot {
    #[verifier::type_invariant]
    spec fn no_key_twice(&self) -> bool {
        keys_distinct(self.entries@)
    }

    /// A snapshot without entries.
    pub fn new() -> (s: Snapshot)
        ensures
            s@ == Map::<KeyView, MetricView>::empty(),
    {
        Snapshot { entries: Vec::new() }
    }

    /// The number of entries.
    pub fn len(&self) -> (n: usize)
        ensures
            self@.dom().finite(),
            n == self@.dom().len(),
    {
        proof {
            use_type_invariant(self);
            lemma_as_map_len(self.entries@);
        }
        self.entries.len()
    }

    /// Where the key stands among the entries.
    fn position(&self, key: &Key) -> (at: Option<usize>)
        ensures
            match at {
                Some(i) => i < self.entries@.len() && self.entries@[i as int].0@ == key@,
                None => !self@.contains_key(key@),
            },
    {
        let mut i: usize = 0;
        while i < self.entries.len()
            invariant
                i <= self.entries.len(),
                forall|j: int| 0 <= j < i ==> (#[trigger] self.entries@[j]).0@ != key@,
            decreases self.entries.len() - i,
        {
            if self.entries[i].0 == *key {
                return Some(i);
            }
            i += 1;
        }
        proof {
            lemma_as_map_keys(self.entries@, key@);
        }
        None
    }

    /// Whether there is an entry under the key.
    pub fn contains_key(&self, key: &Key) -> (found: bool)
        ensures
            found == self@.contains_key(key@),
    {
        match self.position(key) {
            Some(i) => {
                proof {
                    lemma_as_map_keys(self.entries@, key@);
                }
                true
            },
            None => false,
        }
    }

    /// The metric under the key, if there is one.
    pub fn get(&self, key: &Key) -> (found: Option<&Metric>)
        ensures
            found is Some <==> self@.contains_key(key@),
            found is Some ==> found->0@ == self@[key@],
    {
        match self.position(key) {
            Some(i) => {
                proof {
                    use_type_invariant(self);
                    lemma_as_map_at(self.entries@, i as int);
                }
                Some(&self.entries[i].1)
            },
            None => None,
        }
    }

    /// The metric under the key that has this name and no tags, if there is
    /// one.
    pub fn get_by_name(&self, name: &str) -> (found: Option<&Metric>)
        ensures
            found is Some <==> self@.contains_key(plain_key(name@)),
            found is Some ==> found->0@ == self@[plain_key(name@)],
    {
        let key = Key::from_name(name);
        self.get(&key)
    }

    /// Puts the metric under the key, in place of the one that was there if
    /// there was one.
    pub fn insert(&mut self, key: Key, metric: Metric)
        ensures
            final(self)@ == old(self)@.insert(key@, metric@),
    {
        proof {
            use_type_invariant(&*self);
        }
        match self.position(&key) {
            Some(i) => {
                proof {
                    lemma_as_map_update(self.entries@, i as int, (key, metric));
                }
                let mut entries: Vec<(Key, Metric)> = Vec::new();
                std::mem::swap(&mut entries, &mut self.entries);
                entries.set(i, (key, metric));
                self.entries = entries;
            },
            None => {
                proof {
                    lemma_as_map_keys(self.entries@, key@);
                    assert(self.entries@.push((key, metric)).drop_last() =~= self.entries@);
                }
                let mut entries: Vec<(Key, Metric)> = Vec::new();
                std::mem::swap(&mut entries, &mut self.entries);
                entries.push((key, metric));
                self.entries = entries;
            },
        }
    }

    /// Puts the metrics `given` into the snapshot one after the other, each
    /// under its name, but those that are not accepted: the metric at a
    /// position is accepted where `accepted` holds `true` at that position.
    pub fn merge(&mut self, given: Vec<(String, Metric)>, accepted: &Vec<bool>)
        ensures
            final(self)@ == merged(old(self)@, given@, accepted@, 0),
    {
        let mut rest = given;
        let total = rest.len();
        let mut at: usize = 0;
        while rest.len() > 0
            invariant
                at + rest@.len() == given@.len(),
                given@.len() == total,
                rest@ == given@.skip(at as int),
                merged(self@, given@, accepted@, at as int) == merged(
                    old(self)@,
                    given@,
                    accepted@,
                    0,
                ),
            decreases rest.len(),
        {
            let ghost before = self@;
            let (name, metric) = rest.remove(0);
            assert(given@[at as int] == (name, metric));
            if at < accepted.len() && accepted[at] {
                let key = Key::from_name(name.as_str());
                        self.insert(key, metric);
            }
            assert(self@ == merged_one(before, given@, accepted@, at as int));
            assert(rest@ =~= given@.skip(at as int + 1));
            at += 1;
        }
    }

    /// All entries, in no order that is promised: each key of the snapshot
    /// once, with its metric.
    pub fn entries(&self) -> (entries: &Vec<(Key, Metric)>)
        ensures
            keys_distinct(entries@),
            as_map(entries@) == self@,
    {
        proof {
            use_type_invariant(self);
        }
        &self.entries
    }
}

} // verus!
