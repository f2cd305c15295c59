//! A meter counts events and keeps, for three windows of time, what has been
//! marked since the last decay tick. When a tick is due is decided here, from
//! the time that the caller reads off its clock; the smoothed rates themselves
//! are kept by the caller, who is told how many ticks to apply and what each
//! window had gathered.

use vstd::prelude::*;

verus! {

/// Seconds between two decay ticks.
pub const TICK_INTERVAL_SECS: u64 = 5;

/// Milliseconds between two decay ticks.
pub const TICK_INTERVAL_MILLIS: u64 = 5000;

/// Nanoseconds between two decay ticks.
pub const TICK_INTERVAL_NANOS: u64 = 5_000_000_000;

/// The sum of two event counts as a 64-bit cell holds it.
pub open spec fn wrap_count(x: int) -> int {
    x % 0x1_0000_0000_0000_0000
}

/// How many ticks are due at `now` when the last one was at `last_tick`: the
/// whole intervals gone by, once more than one interval has gone by.
pub open spec fn ticks_due(last_tick: int, now: int) -> int {
    if now - last_tick > TICK_INTERVAL_MILLIS {
        (now - last_tick) / (TICK_INTERVAL_MILLIS as int)
    } else {
        0
    }
}

/// Where the last tick stands after a call at `now`: at the latest interval
/// boundary at or before `now` if ticks were due, and where it was if not.
pub open spec fn tick_after(last_tick: int, now: int) -> int {
    if now - last_tick > TICK_INTERVAL_MILLIS {
        now - (now - last_tick) % (TICK_INTERVAL_MILLIS as int)
    } else {
        last_tick
    }
}

/// What one window of a moving average has gathered: the events marked since
/// its last tick.
#[derive(Debug)]
pub struct Window {
    minutes: u64,
    uncounted: u64,
}

/// What a window is: the length of the window in minutes and the events not
/// yet counted into its rate.
pub struct WindowView {
    pub minutes: int,
    pub uncounted: int,
}

impl View for Window {
    type V = WindowView;

    closed spec fn view(&self) -> WindowView {
        WindowView { minutes: self.minutes as int, uncounted: self.uncounted as int }
    }
}

impl Clone for Window {
    fn clone(&self) -> (w: Self)
        ensures
            w@ == self@,
    {
        Window { minutes: self.minutes, uncounted: self.uncounted }
    }
}

impl Window {
    /// An empty window of the given length.
    pub fn new(minutes: u64) -> (w: Window)
        ensures
            w@ == (WindowView { minutes: minutes as int, uncounted: 0 }),
    {
        Window { minutes, uncounted: 0 }
    }

    /// The length of the window in minutes.
    pub fn minutes(&self) -> (m: u64)
        ensures
            m == self@.minutes,
    {
        self.minutes
    }

    /// Adds `n` events to what the window has gathered.
    pub fn update(&mut self, n: u64)
        ensures
            final(self)@ == window_after_update(old(self)@, n as int),
    {
        self.uncounted = self.uncounted.wrapping_add(n);
    }

    /// One decay tick: hands out what the window has gathered and leaves it
    /// empty.
    pub fn tick(&mut self) -> (gathered: u64)
        ensures
            gathered == old(self)@.uncounted,
            final(self)@ == window_after_tick(old(self)@),
    {
        let gathered = self.uncounted;
        self.uncounted = 0;
        gathered
    }
}

/// What a call found due: the number of decay ticks to apply to each window,
/// and what each window had gathered when the first of them was applied. The
/// later ticks of the same call find the windows empty.
#[derive(Clone, Copy, Debug, PartialEq, Eq, Structural)]
pub struct Ticks {
    pub ticks: u64,
    pub m1: u64,
    pub m5: u64,
    pub m15: u64,
}

impl Ticks {
    /// What the windows of one, five and fifteen minutes hold when the tick
    /// of the given number is applied, the first tick having the number 0:
    /// what they had gathered at the first, and nothing at the later ones.
    pub fn at(&self, tick: u64) -> (gathered: (u64, u64, u64))
        ensures
            gathered == (if tick == 0 {
                (self.m1, self.m5, self.m15)
            } else {
                (0u64, 0u64, 0u64)
            }),
    {
        if tick == 0 {
            (self.m1, self.m5, self.m15)
        } else {
            (0, 0, 0)
        }
    }
}

/// The three windows of a meter and the time of their last tick.
#[derive(Debug)]
pub struct MovingAverages {
    m1: Window,
    m5: Window,
    m15: Window,
    last_tick: u64,
}

/// What the moving averages are: the three windows, and the time of the last
/// tick in milliseconds.
pub struct MovingAveragesView {
    pub m1: WindowView,
    pub m5: WindowView,
    pub m15: WindowView,
    pub last_tick: int,
}

/// The window `w` with `n` more events gathered.
pub open spec fn window_after_update(w: WindowView, n: int) -> WindowView {
    WindowView { minutes: w.minutes, uncounted: wrap_count(w.uncounted + n) }
}

/// The window `w` emptied by a tick.
pub open spec fn window_after_tick(w: WindowView) -> WindowView {
    WindowView { minutes: w.minutes, uncounted: 0 }
}

/// Windows of one, five and fifteen minutes that have gathered nothing,
/// last ticked at `now`.
pub open spec fn fresh_averages(now: int) -> MovingAveragesView {
    MovingAveragesView {
        m1: WindowView { minutes: 1, uncounted: 0 },
        m5: WindowView { minutes: 5, uncounted: 0 },
        m15: WindowView { minutes: 15, uncounted: 0 },
        last_tick: now,
    }
}

impl View for MovingAverages {
    type V = MovingAveragesView;

    closed spec fn view(&self) -> MovingAveragesView {
        MovingAveragesView {
            m1: self.m1@,
            m5: self.m5@,
            m15: self.m15@,
            last_tick: self.last_tick as int,
        }
    }
}

/// What `tick_if_needed` leaves of the moving averages `a` at time `now`.
pub open spec fn averages_after_tick(a: MovingAveragesView, now: int) -> MovingAveragesView {
    if ticks_due(a.last_tick, now) > 0 {
        MovingAveragesView {
            m1: window_after_tick(a.m1),
            m5: window_after_tick(a.m5),
            m15: window_after_tick(a.m15),
            last_tick: tick_after(a.last_tick, now),
        }
    } else {
        a
    }
}

/// What `tick_if_needed` reports for the moving averages `a` at time `now`.
pub open spec fn ticks_found(a: MovingAveragesView, now: int) -> Ticks {
    if ticks_due(a.last_tick, now) > 0 {
        Ticks {
            ticks: ticks_due(a.last_tick, now) as u64,
            m1: a.m1.uncounted as u64,
            m5: a.m5.uncounted as u64,
            m15: a.m15.uncounted as u64,
        }
    } else {
        Ticks { ticks: 0, m1: 0, m5: 0, m15: 0 }
    }
}

/// What `update` leaves of the moving averages `a`.
pub open spec fn averages_after_update(a: MovingAveragesView, n: int) -> MovingAveragesView {
    MovingAveragesView {
        m1: window_after_update(a.m1, n),
        m5: window_after_update(a.m5, n),
        m15: window_after_update(a.m15, n),
        last_tick: a.last_tick,
    }
}

impl Clone for MovingAverages {
    fn clone(&self) -> (a: Self)
        ensures
            a@ == self@,
    {
        MovingAverages {
            m1: self.m1.clone(),
            m5: self.m5.clone(),
            m15: self.m15.clone(),
            last_tick: self.last_tick,
        }
    }
}

impl MovingAverages {
    /// Empty windows of one, five and fifteen minutes, last ticked at `now`.
    /// The lengths are those that the smoothed rates of a meter are named
    /// after.
    pub fn new(now: u64) -> (a: MovingAverages)
        ensures
            a@ == fresh_averages(now as int),
    {
        MovingAverages {
            m1: Window::new(1),
            m5: Window::new(5),
            m15: Window::new(15),
            last_tick: now,
        }
    }

    /// Adds `n` events to each window.
    pub fn update(&mut self, n: u64)
        ensures
            final(self)@ == averages_after_update(old(self)@, n as int),
    {
        self.m1.update(n);
        self.m5.update(n);
        self.m15.update(n);
    }

    /// Applies the decay ticks that are due at `now`, a time in milliseconds
    /// on the clock that the last tick was read from. Once more than one
    /// interval has gone by since the last tick, the last tick moves to the
    /// latest interval boundary and the windows are emptied; the caller is
    /// told how many ticks that stands for and what the windows held. A clock
    /// that has not moved on, or has gone back, finds nothing due.
    pub fn tick_if_needed(&mut self, now: u64) -> (found: Ticks)
        ensures
            final(self)@ == averages_after_tick(old(self)@, now as int),
            found == ticks_found(old(self)@, now as int),
    {
        let previous_tick = self.last_tick;
        if now <= previous_tick {
            return Ticks { ticks: 0, m1: 0, m5: 0, m15: 0 };
        }
        let tick_age = now - previous_tick;
        if tick_age > TICK_INTERVAL_MILLIS {
            let latest_tick = now - tick_age % TICK_INTERVAL_MILLIS;
            self.last_tick = latest_tick;
            let required_ticks = tick_age / TICK_INTERVAL_MILLIS;
            let m1 = self.m1.tick();
            let m5 = self.m5.tick();
            let m15 = self.m15.tick();
            Ticks { ticks: required_ticks, m1, m5, m15 }
        } else {
            Ticks { ticks: 0, m1: 0, m5: 0, m15: 0 }
        }
    }

    /// The time of the last tick.
    pub fn last_tick(&self) -> (t: u64)
        ensures
            t == self@.last_tick,
    {
        self.last_tick
    }
}

/// Meters are used to calculate rate of an event.
#[derive(Debug)]
pub struct Meter {
    moving_averages: MovingAverages,
    count: u64,
    start_time: u64,
}

/// What a meter is: the events marked so far, the time it was made at, and its
/// moving averages.
pub struct MeterView {
    pub count: int,
    pub start_time: int,
    pub averages: MovingAveragesView,
}

impl View for Meter {
    type V = MeterView;

    closed spec fn view(&self) -> MeterView {
        MeterView {
            count: self.count as int,
            start_time: self.start_time as int,
            averages: self.moving_averages@,
        }
    }
}

/// A meter made at `now`: nothing marked, and last ticked when it was made.
pub open spec fn fresh_meter(now: int) -> MeterView {
    MeterView {
        count: 0,
        start_time: now,
        averages: fresh_averages(now),
    }
}

/// What `mark_n` leaves of the meter `m` when `n` events are marked at `now`.
pub open spec fn meter_after_mark(m: MeterView, n: int, now: int) -> MeterView {
    MeterView {
        count: wrap_count(m.count + n),
        start_time: m.start_time,
        averages: averages_after_update(averages_after_tick(m.averages, now), n),
    }
}

/// The whole seconds from `start` to `now`, none if the clock went back.
pub open spec fn seconds_between(start: int, now: int) -> int {
    if now > start {
        (now - start) / 1000
    } else {
        0
    }
}

impl Clone for Meter {
    fn clone(&self) -> (m: Self)
        ensures
            m@ == self@,
    {
        Meter {
            moving_averages: self.moving_averages.clone(),
            count: self.count,
            start_time: self.start_time,
        }
    }
}

impl Meter {
    /// A meter made at `now`, a time in milliseconds on the caller's clock,
    /// with nothing marked.
    pub fn new(now: u64) -> (m: Meter)
        ensures
            m@ == fresh_meter(now as int),
    {
        Meter { moving_averages: MovingAverages::new(now), count: 0, start_time: now }
    }

    /// Marks one event at `now`.
    pub fn mark(&mut self, now: u64) -> (found: Ticks)
        ensures
            final(self)@ == meter_after_mark(old(self)@, 1, now as int),
            found == ticks_found(old(self)@.averages, now as int),
    {
        self.mark_n(1, now)
    }

    /// Marks `n` events at `now`: counts them, applies the ticks that are due
    /// and then adds the events to each window, so that they count towards
    /// the next tick. Returns the ticks that it found due.
    pub fn mark_n(&mut self, n: u64, now: u64) -> (found: Ticks)
        ensures
            final(self)@ == meter_after_mark(old(self)@, n as int, now as int),
            found == ticks_found(old(self)@.averages, now as int),
    {
        self.count = self.count.wrapping_add(n);
        let found = self.moving_averages.tick_if_needed(now);
        self.moving_averages.update(n);
        found
    }

    /// Applies the ticks that are due at `now`, as every reading of a rate
    /// does first.
    pub fn tick_if_needed(&mut self, now: u64) -> (found: Ticks)
        ensures
            final(self)@.count == old(self)@.count,
            final(self)@.start_time == old(self)@.start_time,
            final(self)@.averages == averages_after_tick(old(self)@.averages, now as int),
            found == ticks_found(old(self)@.averages, now as int),
    {
        self.moving_averages.tick_if_needed(now)
    }

    /// The events marked so far.
    pub fn count(&self) -> (c: u64)
        ensures
            c == self@.count,
    {
        self.count
    }

    /// The two terms of the mean rate at `now`: the events marked and the whole
    /// seconds since the meter was made. The mean rate is their quotient; it
    /// is zero, and no terms are given, while nothing is marked or no second
    /// has gone by.
    pub fn mean_rate_terms(&self, now: u64) -> (terms: Option<(u64, u64)>)
        ensures
            terms is Some <==> self@.count > 0 && seconds_between(self@.start_time, now as int) > 0,
            terms is Some ==> terms->0 == (
                self@.count as u64,
                seconds_between(self@.start_time, now as int) as u64,
            ),
    {
        if self.count > 0 && now > self.start_time {
            let elapsed = (now - self.start_time) / 1000;
            if elapsed > 0 {
                return Some((self.count, elapsed));
            }
        }
        None
    }
}

/// The count of a meter never goes down as long as it fits into 64 bits:
/// marking `n` events adds `n` to it.
pub proof fn lemma_count_goes_up(m: MeterView, n: nat, now: int)
    requires
        0 <= m.count,
        m.count + n <= u64::MAX,
    ensures
        meter_after_mark(m, n as int, now).count == m.count + n,
        meter_after_mark(m, n as int, now).count >= m.count,
{
}

/// Once the due ticks are applied nothing more is due at that time: a second
/// call at the same time ticks no window again.
pub proof fn lemma_ticks_applied_once(last_tick: int, now: int)
    ensures
        ticks_due(tick_after(last_tick, now), now) == 0,
        tick_after(tick_after(last_tick, now), now) == tick_after(last_tick, now),
{
}

/// Ticks are counted by the intervals gone by, however the calls fall: what a
/// call at `t1` and a later one at `t2` find due adds up to what one call at
/// `t2` would have found, unless the second call comes exactly one interval
/// after the last tick, when its tick waits for the next call.
pub proof fn lemma_ticks_add_up(last_tick: int, t1: int, t2: int)
    requires
        last_tick <= t1 <= t2,
        t2 - tick_after(last_tick, t1) != TICK_INTERVAL_MILLIS,
    ensures
        ticks_due(last_tick, t1) + ticks_due(tick_after(last_tick, t1), t2) == ticks_due(
            last_tick,
            t2,
        ),
{
    let i = TICK_INTERVAL_MILLIS as int;
    if t1 - last_tick > i {
        let k = (t1 - last_tick) / i;
        let later = tick_after(last_tick, t1);
        assert(later == last_tick + k * i) by {
            vstd::arithmetic::div_mod::lemma_fundamental_div_mod(t1 - last_tick, i);
        }
        assert((t2 - last_tick) / i == k + (t2 - later) / i) by {
            vstd::arithmetic::div_mod::lemma_div_plus_one(t2 - later, i);
            vstd::arithmetic::div_mod::lemma_fundamental_div_mod(t2 - later, i);
            vstd::arithmetic::div_mod::lemma_fundamental_div_mod_converse(
                t2 - last_tick,
                i,
                k + (t2 - later) / i,
                (t2 - later) % i,
            );
        }
        if t2 - later < i {
            assert((t2 - later) / i == 0);
        }
    }
}

} // verus!
