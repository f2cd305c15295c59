//! A counter: a signed number that is stepped up and down.

use vstd::prelude::*;

verus! {

/// The number of values of a counter: 2^64.
pub open spec fn span() -> int {
    0x1_0000_0000_0000_0000
}

/// The one value within a counter's range that differs from `x` by a
/// multiple of 2^64: what a counter holds when its steps add up to `x`.
pub open spec fn wrap(x: int) -> int {
    (x + 0x8000_0000_0000_0000) % span() - 0x8000_0000_0000_0000
}

/// Counters are integer values you can increment and decrement.
#[derive(Debug)]
pub struct Counter {
    value: i64,
}

impl View for Counter {
    type V = int;

    closed spec fn view(&self) -> int {
        self.value as int
    }
}

impl Clone for Counter {
    fn clone(&self) -> (c: Self)
        ensures
            c@ == self@,
    {
        Counter { value: self.value }
    }
}

impl Counter {
    /// A counter at zero.
    pub fn new() -> (c: Counter)
        ensures
            c@ == 0,
    {
        Counter { value: 0 }
    }

    /// Steps the counter up by `n`, or down where `n` is negative. A sum out
    /// of range wraps round.
    pub fn inc(&mut self, n: i64)
        ensures
            final(self)@ == wrap(old(self)@ + n),
    {
        self.value = self.value.wrapping_add(n);
    }

    /// Steps the counter down by `n`, or up where `n` is negative. A
    /// difference out of range wraps round.
    pub fn dec(&mut self, n: i64)
        ensures
            final(self)@ == wrap(old(self)@ - n),
    {
        self.value = self.value.wrapping_sub(n);
    }

    /// What the counter stands at.
    pub fn value(&self) -> (v: i64)
        ensures
            v == self@,
            i64::MIN <= self@ <= i64::MAX,
    {
        self.value
    }
}

/// A value within a counter's range is what it wraps to.
pub proof fn lemma_wrap_in_range(x: int)
    requires
        i64::MIN <= x <= i64::MAX,
    ensures
        wrap(x) == x,
{
}

/// Stepping up by a negative number is stepping down by its size: from any
/// value `v`, `inc(-n)` and `dec(n)` arrive at the same value. This holds of
/// the least number too, whose negative no 64 bits hold: both `inc` and
/// `dec` of it arrive at the value half the span away.
pub proof fn lemma_inc_negative_is_dec(v: i64, n: i64)
    ensures
        n > i64::MIN ==> wrap(v + (-n) as i64) == wrap(v - n),
        wrap(v + i64::MIN) == wrap(v - i64::MIN),
{
}

/// Steps add up: what a counter holds after `inc(a)` and then `dec(b)` is
/// what it would hold after one step of `a - b`.
pub proof fn lemma_inc_then_dec(v: int, a: int, b: int)
    ensures
        wrap(wrap(v + a) - b) == wrap(v + a - b),
{
    let s = span();
    let x = v + a + 0x8000_0000_0000_0000;
    // wrap(v + a) - b + 2^63 == x % s - b, and (x % s - b) % s == (x - b) % s
    vstd::arithmetic::div_mod::lemma_sub_mod_noop(x, b, s);
    vstd::arithmetic::div_mod::lemma_sub_mod_noop(x % s, b, s);
    vstd::arithmetic::div_mod::lemma_mod_twice(x, s);
}

} // verus!
