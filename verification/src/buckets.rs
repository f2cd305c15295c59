//! The bucketed store of samples that a histogram records into: a
//! high-dynamic-range histogram of the `hdrhistogram` crate, with what this
//! library relies on stated for each of its functions that it calls.
//!
//! The store does not keep samples apart that fall into one bucket: it
//! answers for a value with the lowest or the highest value of its bucket,
//! its level.

use vstd::multiset::Multiset;
use vstd::prelude::*;

verus! {

/// Why the `hdrhistogram` crate turns down the bounds of a new histogram.
#[verifier::external_type_specification]
#[verifier::external_body]
pub struct ExCreationError(hdrhistogram::CreationError);

/// A histogram of the `hdrhistogram` crate over 64-bit counts, made with a
/// lowest discernible value of 1.
#[verifier::external_body]
pub struct Buckets {
    inner: hdrhistogram::Histogram<u64>,
}

/// The samples recorded, each as often as it was recorded.
pub uninterp spec fn recorded(b: Buckets) -> Multiset<u64>;

/// The highest trackable value that the buckets were made with.
pub uninterp spec fn highest_trackable(b: Buckets) -> u64;

/// The lowest value of the bucket that `value` falls into.
pub uninterp spec fn floor_level(b: Buckets, value: u64) -> u64;

/// The highest value of the bucket that `value` falls into.
pub uninterp spec fn ceiling_level(b: Buckets, value: u64) -> u64;

/// The significant decimal digits that the buckets were made with.
pub uninterp spec fn significant_digits(b: Buckets) -> u8;

/// Ten to the power of `digits`.
pub open spec fn power_of_ten(digits: nat) -> nat
    decreases digits,
{
    if digits == 0 {
        1
    } else {
        10 * power_of_ten((digits - 1) as nat)
    }
}

/// How far a level may lie from a value of its bucket: the part of the
/// value that its significant digits do not reach.
pub open spec fn tolerance(b: Buckets, value: u64) -> int {
    value as int / power_of_ten(significant_digits(b) as nat) as int
}

/// Two stores are laid out alike: they have the same highest trackable value,
/// the same significant digits and the same buckets.
pub open spec fn same_layout(a: Buckets, b: Buckets) -> bool {
    &&& highest_trackable(a) == highest_trackable(b)
    &&& significant_digits(a) == significant_digits(b)
    &&& forall|v: u64| #[trigger] floor_level(a, v) == floor_level(b, v)
    &&& forall|v: u64| #[trigger] ceiling_level(a, v) == ceiling_level(b, v)
}

/// `v` is among the samples `m` and none is smaller.
pub open spec fn is_least(m: Multiset<u64>, v: u64) -> bool {
    m.count(v) > 0 && forall|w: u64| m.count(w) > 0 ==> v <= w
}

/// `v` is among the samples `m` and none is greater.
pub open spec fn is_greatest(m: Multiset<u64>, v: u64) -> bool {
    m.count(v) > 0 && forall|w: u64| m.count(w) > 0 ==> w <= v
}

/// A number of samples as a 64-bit count holds it: counts stop at the
/// greatest value they can hold.
pub open spec fn saturated(n: nat) -> u64 {
    if n <= u64::MAX {
        n as u64
    } else {
        u64::MAX
    }
}

/// How many of the samples `m` fall into the bucket whose highest value is
/// `level`.
pub open spec fn samples_at_level(b: Buckets, level: u64) -> nat {
    recorded(b).filter(|v: u64| ceiling_level(b, v) == level).len()
}

/// Calls `hdrhistogram::Histogram::<u64>::new_with_bounds` with a lowest
/// discernible value of 1. That function rejects a highest value under twice
/// the lowest and more than five significant digits, and with a lowest value
/// of 1 takes none of its other error paths on a machine whose `usize` has 32
/// bits or more, so success is stated for all other arguments. The
/// new histogram holds no sample, tracks values up to `high` and keeps
/// `sigfig` significant digits.
#[verifier::external_body]
pub(crate) fn buckets_with_bounds(high: u64, sigfig: u8) -> (made: Result<
    Buckets,
    hdrhistogram::CreationError,
>)
    ensures
        2 <= high && sigfig <= 5 ==> made is Ok,
        made is Ok ==> recorded(made->Ok_0).len() == 0 && highest_trackable(made->Ok_0) == high && significant_digits(made->Ok_0) == sigfig,
{
    hdrhistogram::Histogram::new_with_bounds(1, high, sigfig).map(|inner| Buckets { inner })
}

/// Calls `hdrhistogram::Histogram::record`, which counts one sample of
/// `value` into its bucket and fails, leaving the histogram as it was, only
/// for a value that no bucket takes; every value up to the highest trackable
/// one has a bucket. The layout never changes (the histogram does not resize
/// itself).
#[verifier::external_body]
pub(crate) fn buckets_record(b: &mut Buckets, value: u64) -> (ok: bool)
    ensures
        value <= highest_trackable(*old(b)) ==> ok,
        ok ==> recorded(*final(b)) == recorded(*old(b)).insert(value),
        !ok ==> recorded(*final(b)) == recorded(*old(b)),
        same_layout(*old(b), *final(b)),
    no_unwind
{
    b.inner.record(value).is_ok()
}

/// Calls `hdrhistogram::Histogram::len`: the number of samples recorded,
/// which the histogram counts up to the greatest 64-bit value.
#[verifier::external_body]
pub(crate) fn buckets_len(b: &Buckets) -> (n: u64)
    ensures
        n == saturated(recorded(*b).len()),
{
    b.inner.len()
}

/// Calls `hdrhistogram::Histogram::min`: 0 for an empty histogram and for one
/// that holds a sample of 0, else the lowest value of the bucket of the
/// smallest sample. That value is not above the sample, and below it by no
/// more than the part of the sample that the significant digits do not
/// reach: a bucket is one value wide up to twice ten to the power of the
/// significant digits, and from there on no wider than its lowest value
/// divided by that power. Nothing is stated of a histogram whose smallest
/// sample is the greatest 64-bit value: the histogram starts its search for
/// the minimum from that value and gives it back as it is.
#[verifier::external_body]
pub(crate) fn buckets_min(b: &Buckets) -> (level: u64)
    ensures
        recorded(*b).len() == 0 || recorded(*b).count(0) > 0 ==> level == 0,
        forall|v: u64| 0 < v < u64::MAX && #[trigger] is_least(recorded(*b), v) ==> level == floor_level(*b, v) && level <= v && v - level <= tolerance(*b, v),
{
    b.inner.min()
}

/// Calls `hdrhistogram::Histogram::max`: 0 for an empty histogram, else the
/// highest value of the bucket of the greatest sample. That value is not
/// below the sample, and above it by no more than the part of the sample
/// that the significant digits do not reach.
#[verifier::external_body]
pub(crate) fn buckets_max(b: &Buckets) -> (level: u64)
    ensures
        recorded(*b).len() == 0 ==> level == 0,
        forall|v: u64| v > 0 && #[trigger] is_greatest(recorded(*b), v) ==> level == ceiling_level(*b, v) && v <= level && level - v <= tolerance(*b, v),
{
    b.inner.max()
}

/// Calls `hdrhistogram::Histogram::lowest_equivalent`: the lowest value of
/// the bucket that `value` falls into.
#[verifier::external_body]
pub(crate) fn buckets_floor(b: &Buckets, value: u64) -> (level: u64)
    ensures
        level == floor_level(*b, value),
{
    b.inner.lowest_equivalent(value)
}

/// Calls `hdrhistogram::Histogram::highest_equivalent`: the highest value of
/// the bucket that `value` falls into.
#[verifier::external_body]
pub(crate) fn buckets_ceiling(b: &Buckets, value: u64) -> (level: u64)
    ensures
        level == ceiling_level(*b, value),
{
    b.inner.highest_equivalent(value)
}

/// Calls `hdrhistogram::Histogram::clone`, which copies layout and counts.
#[verifier::external_body]
pub(crate) fn buckets_clone(b: &Buckets) -> (copy: Buckets)
    ensures
        recorded(copy) == recorded(*b),
        same_layout(*b, copy),
{
    Buckets { inner: b.inner.clone() }
}

/// Calls `hdrhistogram::Histogram::iter_recorded`, which walks the buckets
/// that hold a sample from the lowest up and gives for each the highest value
/// of the bucket and the count of its samples. The counts and the levels are
/// stated for a histogram that holds no sample of the greatest 64-bit value:
/// for the bucket of that value the walk gives the value before it, which
/// is not what `highest_equivalent` gives for the value itself.
#[verifier::external_body]
pub(crate) fn buckets_levels(b: &Buckets) -> (levels: Vec<(u64, u64)>)
    ensures
        forall|i: int, j: int| 0 <= i < j < levels@.len() ==> levels@[i].0 < levels@[j].0,
        forall|i: int| 0 <= i < levels@.len() ==> (#[trigger] levels@[i]).1 > 0,
        recorded(*b).count(u64::MAX) == 0 ==> forall|i: int| 0 <= i < levels@.len() ==> (#[trigger] levels@[i]).1 == saturated(samples_at_level(*b, levels@[i].0)),
        recorded(*b).count(u64::MAX) == 0 ==> forall|v: u64| recorded(*b).count(v) > 0 ==> exists|i: int| 0 <= i < levels@.len() && (#[trigger] levels@[i]).0 == ceiling_level(*b, v),
{
    b.inner.iter_recorded().map(|v| (v.value_iterated_to(), v.count_at_value())).collect()
}

} // verus!
