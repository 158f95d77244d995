//! A timer that is advanced by hand, in whole microseconds.
use crate::chance::random_below;
use vstd::prelude::*;

verus! {

/// A timer that fires when the time it has run reaches its duration.
#[derive(Clone, Copy, Debug, PartialEq, Eq, Structural)]
pub struct Timer {
    /// The time run since the timer last fired.
    pub time: u64,
    /// The time from one firing to the next.
    pub duration: u64,
    /// Whether the timer goes on after it fires.
    pub repeat: bool,
    /// Whether the timer is running.
    pub run: bool,
}

impl Timer {
    /// Whether the timer is running.
    pub open spec fn running(&self) -> bool {
        self.run
    }

    /// The timer after `dt`, and whether it fires. A stopped timer stays
    /// as it is. A running one adds `dt` to its time, up to the largest
    /// time there is, and fires if that reaches the duration; it then keeps
    /// what is over and goes on, if it repeats, and stops at zero, if not.
    pub open spec fn after(self, dt: u64) -> (Timer, bool) {
        let time = if self.time + dt > u64::MAX {
            u64::MAX
        } else {
            (self.time + dt) as u64
        };
        if !self.running() {
            (self, false)
        } else if time < self.duration {
            (self.with_state(time, true), false)
        } else if self.repeat {
            (self.with_state((time - self.duration) as u64, true), true)
        } else {
            (self.with_state(0, false), true)
        }
    }

    /// The same timer at another time, running or not.
    pub open spec fn with_state(self, time: u64, run: bool) -> Timer {
        Timer { time, duration: self.duration, repeat: self.repeat, run }
    }

    /// A timer of the given duration, running if `autostart`. With
    /// `random_start` it starts at a random time before its first firing.
    pub fn new(duration: u64, repeat: bool, autostart: bool, random_start: bool) -> (timer: Timer)
        requires
            random_start ==> duration > 0,
        ensures
            timer.duration == duration,
            timer.repeat == repeat,
            timer.running() == autostart,
            random_start ==> timer.time < duration,
            !random_start ==> timer.time == 0,
    {
        let mut start_time: u64 = 0;
        if random_start {
            start_time = random_below(duration);
        }
        Timer { time: start_time, duration, repeat, run: autostart }
    }

    /// Advances the timer by `dt` and says whether it fires.
    pub fn update(&mut self, dt: u64) -> (fired: bool)
        ensures
            (*final(self), fired) == old(self).after(dt),
    {
        if self.run {
            self.time = self.time.saturating_add(dt);
            if self.time >= self.duration {
                if self.repeat {
                    self.time = self.time - self.duration;
                    true
                } else {
                    self.run = false;
                    self.time = 0;
                    true
                }
            } else {
                false
            }
        } else {
            false
        }
    }

    /// Lets the timer run from the time it is at.
    pub fn start(&mut self)
        ensures
            *final(self) == old(self).with_state(old(self).time, true),
            final(self).running(),
    {
        self.run = true;
    }

    pub fn set_duration(&mut self, duration: u64)
        ensures
            final(self).duration == duration,
            final(self).time == old(self).time,
            final(self).repeat == old(self).repeat,
            final(self).running() == old(self).running(),
    {
        self.duration = duration;
    }

    pub fn set_repeating(&mut self, repeat: bool)
        ensures
            final(self).repeat == repeat,
            final(self).time == old(self).time,
            final(self).duration == old(self).duration,
            final(self).running() == old(self).running(),
    {
        self.repeat = repeat;
    }

    /// Stops the timer at zero.
    pub fn stop(&mut self)
        ensures
            *final(self) == old(self).with_state(0, false),
            !final(self).running(),
            final(self).time == 0,
    {
        self.run = false;
        self.time = 0;
    }

    /// Lets the timer run from zero.
    pub fn restart(&mut self)
        ensures
            *final(self) == old(self).with_state(0, true),
            final(self).running(),
            final(self).time == 0,
    {
        self.stop();
        self.run = true
    }

    /// Whether the timer is running.
    pub fn is_running(&self) -> (r: bool)
        ensures
            r == self.running(),
    {
        self.run
    }
}

} // verus!
