//! The recurring-send scheduler: a two-state machine, Disabled or Armed.
//! Arming draws a random interval and fixes the next fire time; every fire
//! re-rolls the interval; disabling abandons the pending fire. The pending
//! time exists exactly while the machine is armed.

use vstd::prelude::*;

use crate::rng::pick_between;

verus! {

/// The scheduler's state. `next_fire_at` is a timestamp in the driver's
/// clock (seconds); it is present exactly while the scheduler is enabled.
#[derive(Clone, Copy, Debug, PartialEq, Eq, Structural)]
pub struct ScheduleState {
    pub enabled: bool,
    pub min_interval: u64,
    pub max_interval: u64,
    pub next_fire_at: Option<u64>,
    pub last_fire_at: Option<u64>,
}

/// The scheduler's invariant: armed exactly when a fire is pending.
pub open spec fn schedule_wf(s: ScheduleState) -> bool {
    s.enabled <==> s.next_fire_at is Some
}

/// The interval bounds with a min above max tolerated by swapping: the
/// machine clamps rather than fails.
pub open spec fn sched_lo(s: ScheduleState) -> u64 {
    if s.min_interval <= s.max_interval {
        s.min_interval
    } else {
        s.max_interval
    }
}

pub open spec fn sched_hi(s: ScheduleState) -> u64 {
    if s.min_interval <= s.max_interval {
        s.max_interval
    } else {
        s.min_interval
    }
}

/// The next fire time was drawn by the random-interval rule at time `now`:
/// it lies between `now` plus the lower bound and `now` plus the upper bound.
pub open spec fn rescheduled_from(s: ScheduleState, now: u64) -> bool {
    s.next_fire_at matches Some(t) && now + sched_lo(s) <= t <= now + sched_hi(s)
}

/// An armed scheduler whose minimum interval is positive always points
/// strictly into the future when it is rescheduled.
pub proof fn lemma_reschedule_strictly_future(s: ScheduleState, now: u64)
    requires
        rescheduled_from(s, now),
        sched_lo(s) >= 1,
    ensures
        s.next_fire_at matches Some(t) && t > now,
{
}

impl ScheduleState {
    /// A disabled scheduler with the default interval bounds.
    pub fn new() -> (s: ScheduleState)
        ensures
            s == (ScheduleState {
                enabled: false,
                min_interval: 30,
                max_interval: 120,
                next_fire_at: None,
                last_fire_at: None,
            }),
            schedule_wf(s),
    {
        ScheduleState {
            enabled: false,
            min_interval: 30,
            max_interval: 120,
            next_fire_at: None,
            last_fire_at: None,
        }
    }

    /// Replaces the interval bounds. The pending fire, if any, is not
    /// re-drawn.
    pub fn set_intervals(&mut self, min_interval: u64, max_interval: u64)
        ensures
            *final(self) == (ScheduleState { min_interval, max_interval, ..*old(self) }),
    {
        self.min_interval = min_interval;
        self.max_interval = max_interval;
    }

    /// Arms or disarms the scheduler. Arming draws a fresh random interval
    /// from `now`; disarming abandons the pending fire.
    pub fn set_enabled(&mut self, now: u64, on: bool)
        requires
            now + sched_hi(*old(self)) <= u64::MAX,
        ensures
            final(self).enabled == on,
            final(self).min_interval == old(self).min_interval,
            final(self).max_interval == old(self).max_interval,
            final(self).last_fire_at == old(self).last_fire_at,
            on ==> rescheduled_from(*final(self), now),
            !on ==> final(self).next_fire_at is None,
            schedule_wf(*final(self)),
    {
        self.enabled = on;
        if on {
            let lo = if self.min_interval <= self.max_interval {
                self.min_interval
            } else {
                self.max_interval
            };
            let hi = if self.min_interval <= self.max_interval {
                self.max_interval
            } else {
                self.min_interval
            };
            let d = pick_between(lo, hi);
            self.next_fire_at = Some(now + d);
        } else {
            self.next_fire_at = None;
        }
    }

    /// Whether an armed scheduler's pending fire is due at `now`.
    pub fn due(&self, now: u64) -> (r: bool)
        ensures
            r == (self.enabled && (self.next_fire_at matches Some(t) && now >= t)),
    {
        if self.enabled {
            match self.next_fire_at {
                Some(t) => now >= t,
                None => false,
            }
        } else {
            false
        }
    }

    /// Records a fire at `now`: remembers the fire time and, while still
    /// armed, re-rolls the interval and schedules the next cycle; a disarmed
    /// scheduler keeps no pending fire.
    pub fn record_fire(&mut self, now: u64)
        requires
            now + sched_hi(*old(self)) <= u64::MAX,
        ensures
            final(self).enabled == old(self).enabled,
            final(self).min_interval == old(self).min_interval,
            final(self).max_interval == old(self).max_interval,
            final(self).last_fire_at == Some(now),
            old(self).enabled ==> rescheduled_from(*final(self), now),
            !old(self).enabled ==> final(self).next_fire_at is None,
            schedule_wf(*final(self)),
    {
        self.last_fire_at = Some(now);
        if self.enabled {
            let lo = if self.min_interval <= self.max_interval {
                self.min_interval
            } else {
                self.max_interval
            };
            let hi = if self.min_interval <= self.max_interval {
                self.max_interval
            } else {
                self.min_interval
            };
            let d = pick_between(lo, hi);
            self.next_fire_at = Some(now + d);
        } else {
            self.next_fire_at = None;
        }
    }
}

} // verus!
