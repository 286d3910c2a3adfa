//! Frame time and the fixed-timestep accumulator, in whole nanoseconds.
use std::time::{Duration, Instant};
use vstd::prelude::*;

verus! {

/// `std::time::Instant`, held opaque: a clock's start.
#[verifier::external_type_specification]
#[verifier::external_body]
pub struct ExInstant(Instant);

/// Relies on `Instant::now`: a reading of the monotonic clock. Nothing is
/// known of the value.
pub assume_specification[ Instant::now ]() -> Instant;

/// Relies on `Instant::elapsed`: the time since the instant was taken.
/// Nothing is known of the value.
pub assume_specification[ Instant::elapsed ](i: &Instant) -> Duration;

/// Relies on `Duration::as_nanos`: the whole nanoseconds of a duration.
pub assume_specification[ Duration::as_nanos ](d: &Duration) -> u128;

/// One fixed step of sixty per second, rounded to the nanosecond.
pub const DEFAULT_FIXED_STEP_NANOS: u64 = 16_666_667;

/// Longest frame that is accumulated in full: a quarter of a second.
pub const DEFAULT_MAX_DELTA_NANOS: u64 = 250_000_000;

/// Nanoseconds since `origin`, saturated at `u64::MAX`.
fn nanos_since(origin: &Instant) -> u64 {
    let d = origin.elapsed();
    saturate_nanos(d.as_nanos())
}

/// A nanosecond count cut to 64 bits, saturating at `u64::MAX`.
pub fn saturate_nanos(n: u128) -> (r: u64)
    ensures
        r == if n > u64::MAX as u128 { u64::MAX } else { n as u64 },
{
    if n > u64::MAX as u128 {
        u64::MAX
    } else {
        n as u64
    }
}

/// The state of a [`Time`], all durations in nanoseconds.
pub struct TimeView {
    /// Reading of the last frame, counted from the clock's start.
    pub last_tick: int,
    /// Time credited to the last frame, after clamping.
    pub delta: int,
    /// Length of one fixed step.
    pub fixed_step: int,
    /// Ceiling on the time credited to one frame.
    pub max_delta: int,
    /// Time not yet consumed by fixed steps.
    pub accumulator: int,
}

impl TimeView {
    /// The configuration admits a drain loop that ends, and a frame's credit
    /// on top of a drained accumulator never saturates.
    pub open spec fn wf(self) -> bool {
        &&& self.fixed_step > 0
        &&& self.fixed_step + self.max_delta <= u64::MAX
        &&& 0 <= self.max_delta
        &&& 0 <= self.last_tick <= u64::MAX
        &&& 0 <= self.delta <= self.max_delta
        &&& 0 <= self.accumulator <= u64::MAX
    }

    /// Time between the last frame and a reading `now`, zero if the reading is
    /// not later.
    pub open spec fn raw_delta(self, now: int) -> int {
        if now >= self.last_tick {
            now - self.last_tick
        } else {
            0
        }
    }

    /// The raw delta, cut at the ceiling.
    pub open spec fn clamped_delta(self, now: int) -> int {
        if self.raw_delta(now) <= self.max_delta {
            self.raw_delta(now)
        } else {
            self.max_delta
        }
    }

    /// The state after a frame whose reading is `now`: the clamped delta is
    /// credited to the accumulator (saturating at `u64::MAX`).
    pub open spec fn advanced(self, now: int) -> TimeView {
        let d = self.clamped_delta(now);
        TimeView {
            last_tick: if now >= self.last_tick { now } else { self.last_tick },
            delta: d,
            accumulator: if self.accumulator + d <= u64::MAX {
                self.accumulator + d
            } else {
                u64::MAX as int
            },
            ..self
        }
    }

    /// Whole fixed steps waiting in the accumulator.
    pub open spec fn pending_steps(self) -> int {
        self.accumulator / self.fixed_step
    }

    /// The state once every pending fixed step has been consumed.
    pub open spec fn drained(self) -> TimeView {
        TimeView { accumulator: self.accumulator % self.fixed_step, ..self }
    }

    /// A frame followed by the drain of its fixed steps.
    pub open spec fn frame(self, now: int) -> TimeView {
        self.advanced(now).drained()
    }
}

/// Fixed steps consumed over frames read at `nows`, each drained in full.
pub open spec fn steps_over(v: TimeView, nows: Seq<int>) -> int
    decreases nows.len(),
{
    if nows.len() == 0 {
        0
    } else {
        let w = v.advanced(nows[0]);
        w.pending_steps() + steps_over(w.drained(), nows.drop_first())
    }
}

/// The state after frames read at `nows`, each drained in full.
pub open spec fn state_after(v: TimeView, nows: Seq<int>) -> TimeView
    decreases nows.len(),
{
    if nows.len() == 0 {
        v
    } else {
        state_after(v.frame(nows[0]), nows.drop_first())
    }
}

/// Readings that never go back and are never further apart than `max_delta`,
/// starting from `start`.
pub open spec fn steady_readings(start: int, max_delta: int, nows: Seq<int>) -> bool {
    forall|i: int|
        0 <= i < nows.len() ==> {
            let prev = if i == 0 { start } else { nows[i - 1] };
            prev <= #[trigger] nows[i] <= prev + max_delta
        }
}

/// The last reading of a run of frames, or `start` if there was none.
pub open spec fn last_reading(start: int, nows: Seq<int>) -> int {
    if nows.len() == 0 {
        start
    } else {
        nows.last()
    }
}

proof fn lemma_frames_conserve(v: TimeView, nows: Seq<int>)
    requires
        v.wf(),
        v.accumulator < v.fixed_step,
        steady_readings(v.last_tick, v.max_delta, nows),
        forall|i: int| 0 <= i < nows.len() ==> #[trigger] nows[i] <= u64::MAX,
    ensures
        steps_over(v, nows) * v.fixed_step + state_after(v, nows).accumulator == v.accumulator
            + (last_reading(v.last_tick, nows) - v.last_tick),
        0 <= state_after(v, nows).accumulator < v.fixed_step,
        state_after(v, nows).fixed_step == v.fixed_step,
    decreases nows.len(),
{
    if nows.len() > 0 {
        let n0 = nows[0];
        assert(v.last_tick <= n0 <= v.last_tick + v.max_delta);
        let w = v.advanced(n0);
        assert(w.accumulator == v.accumulator + (n0 - v.last_tick));
        let u = w.drained();
        vstd::arithmetic::div_mod::lemma_fundamental_div_mod(w.accumulator, w.fixed_step);
        vstd::arithmetic::div_mod::lemma_mod_bound(w.accumulator, w.fixed_step);
        let rest = nows.drop_first();
        assert forall|i: int| 0 <= i < rest.len() implies {
            let prev = if i == 0 { u.last_tick } else { rest[i - 1] };
            prev <= #[trigger] rest[i] <= prev + u.max_delta
        } by {
            assert(rest[i] == nows[i + 1]);
            if i > 0 {
                assert(rest[i - 1] == nows[i]);
            }
        }
        assert forall|i: int| 0 <= i < rest.len() implies #[trigger] rest[i] <= u64::MAX by {
            assert(rest[i] == nows[i + 1]);
        }
        lemma_frames_conserve(u, rest);
        assert(last_reading(u.last_tick, rest) == last_reading(v.last_tick, nows));
        assert(w.pending_steps() * v.fixed_step + u.accumulator == w.accumulator) by (nonlinear_arith)
            requires
                w.accumulator == w.fixed_step * (w.accumulator / w.fixed_step) + w.accumulator
                    % w.fixed_step,
                w.fixed_step == v.fixed_step,
                w.pending_steps() == w.accumulator / w.fixed_step,
                u.accumulator == w.accumulator % w.fixed_step,
        ;
        assert(steps_over(v, nows) == w.pending_steps() + steps_over(u, rest));
        assert(state_after(v, nows) == state_after(u, rest));
        assert(steps_over(v, nows) * v.fixed_step == w.pending_steps() * v.fixed_step
            + steps_over(u, rest) * v.fixed_step) by (nonlinear_arith)
            requires
                steps_over(v, nows) == w.pending_steps() + steps_over(u, rest),
        ;
    }
}

/// No time is lost or counted twice. Starting from a drained clock, over
/// frames whose readings never go back and never jump past the ceiling, each
/// frame drained in full, the fixed steps consumed are the elapsed time
/// (with what was waiting) divided by the step, and what is left waiting is
/// the remainder.
pub proof fn lemma_no_time_lost(v: TimeView, nows: Seq<int>)
    requires
        v.wf(),
        v.accumulator < v.fixed_step,
        steady_readings(v.last_tick, v.max_delta, nows),
        forall|i: int| 0 <= i < nows.len() ==> #[trigger] nows[i] <= u64::MAX,
    ensures
        ({
            let total = v.accumulator + (last_reading(v.last_tick, nows) - v.last_tick);
            &&& steps_over(v, nows) == total / v.fixed_step
            &&& state_after(v, nows).accumulator == total % v.fixed_step
        }),
{
    lemma_frames_conserve(v, nows);
    lemma_div_mod_unique(
        v.accumulator + (last_reading(v.last_tick, nows) - v.last_tick),
        v.fixed_step,
        steps_over(v, nows),
        state_after(v, nows).accumulator,
    );
}

/// A frame credits at most the ceiling: however late its reading, it leaves
/// at most (waiting time + ceiling) / step fixed steps pending.
pub proof fn lemma_clamp_bounds_steps(v: TimeView, now: int)
    requires
        v.wf(),
    ensures
        v.advanced(now).pending_steps() <= (v.accumulator + v.max_delta) / v.fixed_step,
{
    let w = v.advanced(now);
    assert(w.accumulator <= v.accumulator + v.max_delta);
    vstd::arithmetic::div_mod::lemma_div_is_ordered(
        w.accumulator,
        v.accumulator + v.max_delta,
        v.fixed_step,
    );
}

/// Wall-clock time of the simulation and the fixed-step accumulator.
pub struct Time {
    origin: Instant,
    last_tick: u64,
    delta: u64,
    fixed_step: u64,
    max_delta: u64,
    accumulator: u64,
}

impl View for Time {
    type V = TimeView;

    closed spec fn view(&self) -> TimeView {
        TimeView {
            last_tick: self.last_tick as int,
            delta: self.delta as int,
            fixed_step: self.fixed_step as int,
            max_delta: self.max_delta as int,
            accumulator: self.accumulator as int,
        }
    }
}

impl Time {
    /// The instant the clock was started; readings count from it.
    pub closed spec fn spec_origin(&self) -> Instant {
        self.origin
    }

    /// A clock started now, with a step of 1/60 s and a ceiling of 1/4 s.
    pub fn new() -> (r: Time)
        ensures
            r@.wf(),
            r@.fixed_step == DEFAULT_FIXED_STEP_NANOS,
            r@.max_delta == DEFAULT_MAX_DELTA_NANOS,
            r@.last_tick == 0,
            r@.delta == 0,
            r@.accumulator == 0,
    {
        Time::with_step(DEFAULT_FIXED_STEP_NANOS, DEFAULT_MAX_DELTA_NANOS)
    }

    /// A clock started now with the given fixed step and ceiling.
    pub fn with_step(fixed_step_nanos: u64, max_delta_nanos: u64) -> (r: Time)
        requires
            fixed_step_nanos > 0,
            fixed_step_nanos + max_delta_nanos <= u64::MAX,
        ensures
            r@.wf(),
            r@.fixed_step == fixed_step_nanos,
            r@.max_delta == max_delta_nanos,
            r@.last_tick == 0,
            r@.delta == 0,
            r@.accumulator == 0,
    {
        Time {
            origin: Instant::now(),
            last_tick: 0,
            delta: 0,
            fixed_step: fixed_step_nanos,
            max_delta: max_delta_nanos,
            accumulator: 0,
        }
    }

    /// Whether a whole fixed step waits in the accumulator.
    pub fn should_fixed_update(&self) -> (r: bool)
        ensures
            r == (self@.accumulator >= self@.fixed_step),
    {
        self.accumulator >= self.fixed_step
    }

    /// Takes exactly one fixed step out of the accumulator.
    pub fn consume_fixed_update(&mut self)
        requires
            old(self)@.wf(),
            old(self)@.accumulator >= old(self)@.fixed_step,
        ensures
            final(self)@ == (TimeView {
                accumulator: old(self)@.accumulator - old(self)@.fixed_step,
                ..old(self)@
            }),
            final(self)@.wf(),
            final(self).spec_origin() == old(self).spec_origin(),
    {
        self.accumulator = self.accumulator - self.fixed_step;
    }

    /// Consumes every whole fixed step, returning how many there were.
    pub fn drain_fixed_updates(&mut self) -> (steps: u64)
        requires
            old(self)@.wf(),
        ensures
            final(self)@ == old(self)@.drained(),
            steps == old(self)@.pending_steps(),
            final(self)@.wf(),
            final(self).spec_origin() == old(self).spec_origin(),
    {
        let ghost start = self@;
        let ghost origin = self.spec_origin();
        let mut steps: u64 = 0;
        while self.should_fixed_update()
            invariant
                self@.wf(),
                self@ == (TimeView { accumulator: self@.accumulator, ..start }),
                self.spec_origin() == origin,
                start.wf(),
                steps * start.fixed_step + self@.accumulator == start.accumulator,
            decreases self@.accumulator,
        {
            proof {
                assert((steps + 1) * start.fixed_step <= start.accumulator) by (nonlinear_arith)
                    requires
                        steps * start.fixed_step + self@.accumulator == start.accumulator,
                        self@.accumulator >= start.fixed_step,
                ;
                assert(steps + 1 <= start.accumulator) by (nonlinear_arith)
                    requires
                        (steps + 1) * start.fixed_step <= start.accumulator,
                        start.fixed_step > 0,
                ;
            }
            self.consume_fixed_update();
            steps = steps + 1;
            proof {
                assert(steps * start.fixed_step == (steps - 1) * start.fixed_step
                    + start.fixed_step) by (nonlinear_arith);
            }
        }
        proof {
            lemma_div_mod_unique(
                start.accumulator,
                start.fixed_step,
                steps as int,
                self@.accumulator,
            );
        }
        steps
    }

    /// Samples the clock and credits the frame's time; see [`Time::update_at`].
    pub fn update(&mut self)
        requires
            old(self)@.wf(),
        ensures
            final(self)@.wf(),
            exists|now: int| 0 <= now <= u64::MAX && final(self)@ == old(self)@.advanced(now),
            final(self).spec_origin() == old(self).spec_origin(),
    {
        let now = nanos_since(&self.origin);
        self.update_at(now);
    }

    /// Credits a frame read at `now` (nanoseconds since the clock's start):
    /// the time since the last frame, clamped to the ceiling, becomes the
    /// frame's delta and is added to the accumulator.
    pub fn update_at(&mut self, now: u64)
        requires
            old(self)@.wf(),
        ensures
            final(self)@ == old(self)@.advanced(now as int),
            final(self)@.wf(),
            final(self).spec_origin() == old(self).spec_origin(),
    {
        let raw: u64 = if now >= self.last_tick {
            now - self.last_tick
        } else {
            0
        };
        let d: u64 = if raw <= self.max_delta {
            raw
        } else {
            self.max_delta
        };
        if now >= self.last_tick {
            self.last_tick = now;
        }
        self.delta = d;
        self.accumulator = self.accumulator.saturating_add(d);
    }

    /// Empties the accumulator.
    pub fn reset_accumulator(&mut self)
        requires
            old(self)@.wf(),
        ensures
            final(self)@ == (TimeView { accumulator: 0, ..old(self)@ }),
            final(self)@.wf(),
            final(self).spec_origin() == old(self).spec_origin(),
    {
        self.accumulator = 0;
    }

    /// Nanoseconds since the clock was started, read now.
    pub fn total_time(&self) -> u64 {
        nanos_since(&self.origin)
    }

    /// Time credited to the last frame.
    pub fn delta_nanos(&self) -> (r: u64)
        ensures
            r == self@.delta,
    {
        self.delta
    }

    /// Length of one fixed step.
    pub fn fixed_step_nanos(&self) -> (r: u64)
        ensures
            r == self@.fixed_step,
    {
        self.fixed_step
    }

    /// Ceiling on the time credited to one frame.
    pub fn max_delta_nanos(&self) -> (r: u64)
        ensures
            r == self@.max_delta,
    {
        self.max_delta
    }

    /// Time not yet consumed by fixed steps.
    pub fn accumulator_nanos(&self) -> (r: u64)
        ensures
            r == self@.accumulator,
    {
        self.accumulator
    }

    /// Reading of the last frame.
    pub fn last_tick_nanos(&self) -> (r: u64)
        ensures
            r == self@.last_tick,
    {
        self.last_tick
    }
}

/// A countdown attached to an entity, in nanoseconds.
#[derive(Clone, Copy, PartialEq, Eq, Structural, Debug)]
pub struct Timer {
    pub running: bool,
    /// Length of one run.
    pub duration: u64,
    /// Time run so far.
    pub elapsed: u64,
    /// Starts over when it reaches its duration.
    pub looping: bool,
    /// Reached its duration (never set on a looping timer).
    pub completed: bool,
}

/// The timer after a frame of `delta`: a running, unfinished timer gains the
/// delta (saturating); on reaching its duration it completes, or, if it
/// loops, keeps the remainder past the duration and runs on.
pub open spec fn timer_after(t: Timer, delta: u64) -> Timer {
    if t.running && !t.completed {
        let e = if t.elapsed + delta <= u64::MAX { (t.elapsed + delta) as u64 } else { u64::MAX };
        if e >= t.duration {
            if t.looping {
                Timer { elapsed: if t.duration == 0 { 0 } else { (e % t.duration) as u64 }, completed: false, ..t }
            } else {
                Timer { elapsed: e, completed: true, ..t }
            }
        } else {
            Timer { elapsed: e, ..t }
        }
    } else {
        t
    }
}

impl Timer {
    /// A stopped one-second timer.
    pub fn default() -> (r: Timer)
        ensures
            r == (Timer { running: false, duration: 1_000_000_000, elapsed: 0, looping: false, completed: false }),
    {
        Timer { running: false, duration: 1_000_000_000, elapsed: 0, looping: false, completed: false }
    }

    /// A running timer of the given duration.
    pub fn new(duration: u64) -> (r: Timer)
        ensures
            r == (Timer { running: true, duration, elapsed: 0, looping: false, completed: false }),
    {
        Timer { running: true, duration, elapsed: 0, looping: false, completed: false }
    }

    /// A running timer that starts over each time it reaches `duration`.
    pub fn new_looping(duration: u64) -> (r: Timer)
        ensures
            r == (Timer { running: true, duration, elapsed: 0, looping: true, completed: false }),
    {
        Timer { running: true, duration, elapsed: 0, looping: true, completed: false }
    }

    /// Starts or resumes the timer.
    pub fn start(&mut self)
        ensures
            *final(self) == (Timer { running: true, ..*old(self) }),
    {
        self.running = true;
    }

    /// Pauses the timer.
    pub fn pause(&mut self)
        ensures
            *final(self) == (Timer { running: false, ..*old(self) }),
    {
        self.running = false;
    }

    /// Back to no time run, not completed.
    pub fn reset(&mut self)
        ensures
            *final(self) == (Timer { elapsed: 0, completed: false, ..*old(self) }),
    {
        self.elapsed = 0;
        self.completed = false;
    }

    /// Share of the duration run so far, in millionths (saturating); a
    /// timer of zero duration counts as done.
    pub fn progress(&self) -> (r: u64)
        ensures
            self.duration == 0 ==> r == 1_000_000,
            self.duration > 0 ==> r == if (self.elapsed as int * 1_000_000) / (self.duration as int)
                <= u64::MAX {
                (self.elapsed as int * 1_000_000) / (self.duration as int)
            } else {
                u64::MAX as int
            },
    {
        if self.duration == 0 {
            1_000_000
        } else {
            let scaled: u128 = self.elapsed as u128 * 1_000_000;
            let q: u128 = scaled / self.duration as u128;
            if q > u64::MAX as u128 {
                u64::MAX
            } else {
                q as u64
            }
        }
    }

    /// Advances the timer by a frame of `delta`; see [`timer_after`].
    pub fn tick(&mut self, delta: u64)
        ensures
            *final(self) == timer_after(*old(self), delta),
    {
        if self.running && !self.completed {
            self.elapsed = self.elapsed.saturating_add(delta);
            if self.elapsed >= self.duration {
                self.completed = true;
                if self.looping {
                    self.elapsed = if self.duration == 0 { 0 } else { self.elapsed % self.duration };
                    self.completed = false;
                }
            }
        }
    }
}

/// Advances every timer by the frame's delta.
pub struct TimeSystem;

impl TimeSystem {
    /// Advances each timer by `delta`; see [`timer_after`].
    pub fn run(&mut self, timers: &mut Vec<Timer>, delta: u64)
        ensures
            final(timers)@.len() == old(timers)@.len(),
            forall|i: int| 0 <= i < old(timers)@.len() ==> #[trigger] final(timers)@[i] == timer_after(old(timers)@[i], delta),
    {
        let ghost start = timers@;
        let mut i: usize = 0;
        while i < timers.len()
            invariant
                timers@.len() == start.len(),
                i <= timers@.len(),
                forall|k: int| 0 <= k < i ==> #[trigger] timers@[k] == timer_after(start[k], delta),
                forall|k: int| i <= k < timers@.len() ==> #[trigger] timers@[k] == start[k],
            decreases timers@.len() - i,
        {
            let mut t = timers[i];
            t.tick(delta);
            timers.set(i, t);
            i = i + 1;
        }
    }
}

/// Quotient and remainder are the only pair that rebuilds `a` with a
/// remainder below `d`.
pub proof fn lemma_div_mod_unique(a: int, d: int, q: int, r: int)
    requires
        d > 0,
        0 <= r < d,
        q * d + r == a,
    ensures
        q == a / d,
        r == a % d,
{
    vstd::arithmetic::div_mod::lemma_fundamental_div_mod_converse(a, d, q, r);
}

} // verus!
