//! A histogram records the distribution of a series of values in bounded
//! memory and counts every update.

use crate::buckets::{
    buckets_ceiling, buckets_clone, buckets_floor, buckets_len, buckets_levels, buckets_max,
    buckets_min, buckets_record, buckets_with_bounds, ceiling_level, floor_level,
    highest_trackable, is_greatest, is_least, power_of_ten, recorded, same_layout,
    samples_at_level, saturated, significant_digits, Buckets,
};
use crate::meter::wrap_count;
use vstd::multiset::Multiset;
use vstd::prelude::*;

verus! {

/// The greatest value that a histogram records: the seconds of a day. What is
/// greater is recorded as this value.
pub const RANGE_MAX: u64 = 86400;

/// The significant decimal digits that a histogram keeps of a value.
pub const SIGNIFICANT_DIGITS: u8 = 2;

/// The value that is recorded for `value`: the nearest within 1 and
/// `RANGE_MAX`.
pub open spec fn clamped(value: u64) -> u64 {
    if value < 1 {
        1
    } else if value > RANGE_MAX {
        RANGE_MAX
    } else {
        value
    }
}

/// What a histogram is: the samples recorded, each as often as it was
/// recorded, and the number of updates.
pub struct HistogramView {
    pub samples: Multiset<u64>,
    pub count: int,
}

/// A histogram that nothing was recorded in.
pub open spec fn fresh_histogram() -> HistogramView {
    HistogramView { samples: Multiset::empty(), count: 0 }
}

/// Every sample lies within 1 and `RANGE_MAX`.
pub open spec fn samples_in_range(samples: Multiset<u64>) -> bool {
    forall|v: u64| samples.count(v) > 0 ==> 1 <= v <= RANGE_MAX
}

/// Histograms are used to record the distribution of data over time.
pub struct Histogram {
    buckets: Buckets,
    count: u64,
}

/// The state of a histogram at the time the snapshot was taken.
pub struct HistogramSnapshot {
    buckets: Buckets,
    count: u64,
}

impl View for Histogram {
    type V = HistogramView;

    closed spec fn view(&self) -> HistogramView {
        HistogramView { samples: recorded(self.buckets), count: self.count as int }
    }
}

impl View for HistogramSnapshot {
    type V = HistogramView;

    closed spec fn view(&self) -> HistogramView {
        HistogramView { samples: recorded(self.buckets), count: self.count as int }
    }
}

impl Histogram {
    #[verifier::type_invariant]
    spec fn well_formed(&self) -> bool {
        &&& highest_trackable(self.buckets) == RANGE_MAX
        &&& significant_digits(self.buckets) == SIGNIFICANT_DIGITS
        &&& samples_in_range(recorded(self.buckets))
    }

    /// The lowest value that the histogram can tell from `value`.
    pub closed spec fn level_floor(&self, value: u64) -> u64 {
        floor_level(self.buckets, value)
    }

    /// The highest value that the histogram can tell from `value`.
    pub closed spec fn level_ceiling(&self, value: u64) -> u64 {
        ceiling_level(self.buckets, value)
    }

    /// Both histograms tell the same values apart.
    pub closed spec fn same_levels(&self, other: &Histogram) -> bool {
        same_layout(self.buckets, other.buckets)
    }

    /// An empty histogram over the values from 1 to `RANGE_MAX`.
    pub fn new() -> (h: Histogram)
        ensures
            h@ == fresh_histogram(),
    {
        match buckets_with_bounds(RANGE_MAX, SIGNIFICANT_DIGITS) {
            Ok(buckets) => {
                proof {
                    assert forall|v: u64| recorded(buckets).count(v) > 0 implies 1 <= v
                        <= RANGE_MAX by {
                        broadcast use vstd::multiset::group_multiset_axioms;

                        assert(recorded(buckets).count(v) <= recorded(buckets).len());
                    }
                }
                proof {
                    broadcast use vstd::multiset::group_multiset_axioms;

                    assert forall|v: u64| recorded(buckets).count(v) == 0 by {
                        assert(recorded(buckets).count(v) <= recorded(buckets).len());
                    }
                    assert(recorded(buckets) =~= Multiset::<u64>::empty());
                }
                Histogram { buckets, count: 0 }
            },
            Err(_) => vstd::pervasive::unreached(),
        }
    }

    /// Records `value`, clamped to the range from 1 to `RANGE_MAX`, and counts
    /// the update.
    pub fn update(&mut self, value: u64)
        ensures
            final(self)@.samples == old(self)@.samples.insert(clamped(value)),
            final(self)@.count == wrap_count(old(self)@.count + 1),
            final(self).same_levels(old(self)),
    {
        proof {
            use_type_invariant(&*self);
        }
        let value = if value < 1 {
            1
        } else if value > RANGE_MAX {
            RANGE_MAX
        } else {
            value
        };
        let ghost before = recorded(self.buckets);
        proof {
            broadcast use vstd::multiset::group_multiset_axioms;

            assert forall|v: u64| before.insert(value).count(v) > 0 implies 1 <= v
                <= RANGE_MAX by {
                if v != value {
                    assert(before.count(v) > 0);
                }
            }
        }
        self.count = self.count.wrapping_add(1);
        // in range, so the buckets take it: the outcome has nothing to tell
        let _ = buckets_record(&mut self.buckets, value);
    }

    /// The state of the histogram as it is now.
    pub fn snapshot(&self) -> (s: HistogramSnapshot)
        ensures
            s@ == self@,
            s.same_levels(self),
    {
        proof {
            use_type_invariant(self);
        }
        HistogramSnapshot { buckets: buckets_clone(&self.buckets), count: self.count }
    }
}

impl Clone for Histogram {
    fn clone(&self) -> (h: Self)
        ensures
            h@ == self@,
            h.same_levels(self),
    {
        proof {
            use_type_invariant(self);
        }
        Histogram { buckets: buckets_clone(&self.buckets), count: self.count }
    }
}

impl HistogramSnapshot {
    #[verifier::type_invariant]
    spec fn well_formed(&self) -> bool {
        &&& highest_trackable(self.buckets) == RANGE_MAX
        &&& significant_digits(self.buckets) == SIGNIFICANT_DIGITS
        &&& samples_in_range(recorded(self.buckets))
    }

    /// The lowest value that the histogram can tell from `value`.
    pub closed spec fn level_floor(&self, value: u64) -> u64 {
        floor_level(self.buckets, value)
    }

    /// The highest value that the histogram can tell from `value`.
    pub closed spec fn level_ceiling(&self, value: u64) -> u64 {
        ceiling_level(self.buckets, value)
    }

    /// The snapshot tells the same values apart as the histogram.
    pub closed spec fn same_levels(&self, of: &Histogram) -> bool {
        same_layout(self.buckets, of.buckets)
    }

    /// How many of the samples fall into the bucket whose highest value is
    /// `level`.
    pub closed spec fn samples_at(&self, level: u64) -> nat {
        samples_at_level(self.buckets, level)
    }

    /// The number of updates.
    pub fn count(&self) -> (n: u64)
        ensures
            n == self@.count,
    {
        self.count
    }

    /// The number of samples recorded.
    pub fn len(&self) -> (n: u64)
        ensures
            n == saturated(self@.samples.len()),
    {
        buckets_len(&self.buckets)
    }

    /// The level of the greatest sample: 0 while nothing is recorded, else the
    /// highest value that the histogram cannot tell from the greatest sample,
    /// which lies above the sample by a hundredth of it at most. So the level
    /// is never above `RANGE_MAX` by more than a hundredth.
    pub fn max(&self) -> (level: u64)
        ensures
            self@.samples.len() == 0 ==> level == 0,
            forall|v: u64| #[trigger] is_greatest(self@.samples, v) ==> level == self.level_ceiling(v) && 1 <= v <= RANGE_MAX && v <= level <= v + v / 100,
    {
        proof {
            use_type_invariant(self);
            reveal_with_fuel(power_of_ten, 3);
        }
        buckets_max(&self.buckets)
    }

    /// The level of the smallest sample: 0 while nothing is recorded, else the
    /// lowest value that the histogram cannot tell from the smallest sample,
    /// which lies below the sample by a hundredth of it at most.
    pub fn min(&self) -> (level: u64)
        ensures
            self@.samples.len() == 0 ==> level == 0,
            forall|v: u64| #[trigger] is_least(self@.samples, v) ==> level == self.level_floor(v) && 1 <= v <= RANGE_MAX && v - v / 100 <= level <= v,
    {
        proof {
            use_type_invariant(self);
            reveal_with_fuel(power_of_ten, 3);
        }
        buckets_min(&self.buckets)
    }

    /// The lowest value that the histogram cannot tell from `value`.
    pub fn floor_of(&self, value: u64) -> (level: u64)
        ensures
            level == self.level_floor(value),
    {
        buckets_floor(&self.buckets, value)
    }

    /// The highest value that the histogram cannot tell from `value`.
    pub fn ceiling_of(&self, value: u64) -> (level: u64)
        ensures
            level == self.level_ceiling(value),
    {
        buckets_ceiling(&self.buckets, value)
    }

    /// The levels that hold a sample, from the lowest up, each with the count
    /// of its samples: all that the mean, the deviation and the quantiles of
    /// the distribution are computed from.
    pub fn levels(&self) -> (levels: Vec<(u64, u64)>)
        ensures
            forall|i: int, j: int| 0 <= i < j < levels@.len() ==> levels@[i].0 < levels@[j].0,
            forall|i: int| 0 <= i < levels@.len() ==> (#[trigger] levels@[i]).1 > 0 && levels@[i].1 == saturated(self.samples_at(levels@[i].0)),
            forall|v: u64| self@.samples.count(v) > 0 ==> exists|i: int| 0 <= i < levels@.len() && (#[trigger] levels@[i]).0 == self.level_ceiling(v),
    {
        proof {
            use_type_invariant(self);
            if recorded(self.buckets).count(u64::MAX) > 0 {
                assert(1 <= u64::MAX <= RANGE_MAX);
            }
        }
        buckets_levels(&self.buckets)
    }
}

} // verus!
