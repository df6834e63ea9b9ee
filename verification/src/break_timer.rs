//! The work/break timer: a work period is bought by unlocking, and is paid for
//! by the break that follows it.

use vstd::prelude::*;
use crate::time::{saturating_sum, Duration, Timestamp};

verus! {

/// The phase of the work/break cycle.
#[derive(Clone, Copy, Debug, PartialEq, Eq, Structural)]
pub enum BreakTimer {
    /// A work period is running; it ends at `until`.
    Unlocked { until: Timestamp },
    /// A break is running; it ends at `until`.
    Locked { until: Timestamp },
    /// No period is running: a work period may be started.
    Unlockable,
}

/// The timer together with the lengths of its two periods.
#[derive(Clone, Copy, Debug)]
pub struct BreakTimerManager {
    pub timer: BreakTimer,
    pub work_period_duration: Duration,
    pub break_duration: Duration,
}

/// What `unlock` answers while a break is running.
pub open spec fn timer_locked_message() -> Seq<char> {
    "Break timer is locked."@
}

/// What `unlock` answers while a work period is running.
pub open spec fn timer_already_unlocked_message() -> Seq<char> {
    "Break timer is already unlocked."@
}

/// What `lock` answers when no work period is running.
pub open spec fn timer_not_unlocked_message() -> Seq<char> {
    "Break timer is not unlocked."@
}

/// The phase after an elapsed work period has turned into its break. The break
/// is counted from the end of the work period, not from `now`.
pub open spec fn work_period_expired(timer: BreakTimer, break_duration: Duration, now: Timestamp) -> BreakTimer {
    match timer {
        BreakTimer::Unlocked { until } if now.secs >= until.secs => BreakTimer::Locked {
            until: Timestamp { secs: saturating_sum(until.secs, break_duration.secs) },
        },
        _ => timer,
    }
}

/// The phase after an elapsed break has ended.
pub open spec fn break_expired(timer: BreakTimer, now: Timestamp) -> BreakTimer {
    match timer {
        BreakTimer::Locked { until } if now.secs >= until.secs => BreakTimer::Unlockable,
        _ => timer,
    }
}

/// The phase at `now` of a timer that was in phase `timer` before: every
/// period that has elapsed by `now` is closed.
pub open spec fn phase_at(timer: BreakTimer, break_duration: Duration, now: Timestamp) -> BreakTimer {
    break_expired(work_period_expired(timer, break_duration, now), now)
}

/// Whether no period of `timer` has elapsed by `now`.
pub open spec fn settled(timer: BreakTimer, now: Timestamp) -> bool {
    match timer {
        BreakTimer::Unlocked { until } => now.secs < until.secs,
        BreakTimer::Locked { until } => now.secs < until.secs,
        BreakTimer::Unlockable => true,
    }
}

impl BreakTimerManager {
    /// The manager with its timer brought up to `now`.
    pub open spec fn refreshed(self, now: Timestamp) -> BreakTimerManager {
        BreakTimerManager {
            timer: phase_at(self.timer, self.break_duration, now),
            work_period_duration: self.work_period_duration,
            break_duration: self.break_duration,
        }
    }

    /// The manager with its timer set to `timer`.
    pub open spec fn with_timer(self, timer: BreakTimer) -> BreakTimerManager {
        BreakTimerManager {
            timer,
            work_period_duration: self.work_period_duration,
            break_duration: self.break_duration,
        }
    }

    /// The manager after `unlock` at `now`: a work period starts if none is
    /// running and no break is owed.
    pub open spec fn after_unlock(self, now: Timestamp) -> BreakTimerManager {
        let r = self.refreshed(now);
        match r.timer {
            BreakTimer::Unlockable => r.with_timer(
                BreakTimer::Unlocked {
                    until: Timestamp { secs: saturating_sum(now.secs, self.work_period_duration.secs) },
                },
            ),
            _ => r,
        }
    }

    /// The manager after `lock` at `now`: a running work period is cut short
    /// and its break starts at `now`.
    pub open spec fn after_lock(self, now: Timestamp) -> BreakTimerManager {
        let r = self.refreshed(now);
        match r.timer {
            BreakTimer::Unlocked { until } => r.with_timer(
                BreakTimer::Locked {
                    until: Timestamp { secs: saturating_sum(now.secs, self.break_duration.secs) },
                },
            ),
            _ => r,
        }
    }

    /// A timer with no period running.
    pub fn new(work_period_duration: Duration, break_duration: Duration) -> (m: BreakTimerManager)
        ensures
            m.timer == BreakTimer::Unlockable,
            m.work_period_duration == work_period_duration,
            m.break_duration == break_duration,
    {
        BreakTimerManager { timer: BreakTimer::Unlockable, work_period_duration, break_duration }
    }

    /// Starts a work period at `current_time`. Fails, leaving the refreshed
    /// timer as it is, while a work period or a break is running.
    pub fn unlock(&mut self, current_time: Timestamp) -> (r: Result<(), String>)
        ensures
            *final(self) == old(self).after_unlock(current_time),
            r.is_ok() <==> old(self).refreshed(current_time).timer == BreakTimer::Unlockable,
            old(self).refreshed(current_time).timer is Locked ==> r.is_err()
                && r.unwrap_err()@ == timer_locked_message(),
            old(self).refreshed(current_time).timer is Unlocked ==> r.is_err()
                && r.unwrap_err()@ == timer_already_unlocked_message(),
    {
        self.refresh(current_time);
        match self.timer {
            BreakTimer::Unlockable => {
                self.timer = BreakTimer::Unlocked {
                    until: current_time.plus(self.work_period_duration),
                };
                Ok(())
            },
            BreakTimer::Locked { until: _ } => Err("Break timer is locked.".to_owned()),
            BreakTimer::Unlocked { until: _ } => Err("Break timer is already unlocked.".to_owned()),
        }
    }

    /// Ends the running work period at `current_time` and starts its break.
    /// Fails, leaving the refreshed timer as it is, unless a work period is
    /// running.
    pub fn lock(&mut self, current_time: Timestamp) -> (r: Result<(), String>)
        ensures
            *final(self) == old(self).after_lock(current_time),
            r.is_ok() <==> old(self).refreshed(current_time).timer is Unlocked,
            r.is_err() ==> r.unwrap_err()@ == timer_not_unlocked_message(),
    {
        self.refresh(current_time);
        match self.timer {
            BreakTimer::Unlocked { until: _ } => {
                self.timer = BreakTimer::Locked { until: current_time.plus(self.break_duration) };
                Ok(())
            },
            _ => Err("Break timer is not unlocked.".to_owned()),
        }
    }

    /// Brings the timer up to `current_time`: an elapsed work period becomes
    /// its break, and an elapsed break ends.
    pub fn refresh(&mut self, current_time: Timestamp)
        ensures
            *final(self) == old(self).refreshed(current_time),
    {
        if let BreakTimer::Unlocked { until } = self.timer {
            if current_time.secs >= until.secs {
                self.timer = BreakTimer::Locked { until: until.plus(self.break_duration) };
            }
        }
        if let BreakTimer::Locked { until } = self.timer {
            if current_time.secs >= until.secs {
                self.timer = BreakTimer::Unlockable;
            }
        }
    }
}

/// A refreshed timer has no elapsed period left: refreshing never needs a
/// second pass.
pub proof fn lemma_refresh_settles(m: BreakTimerManager, now: Timestamp)
    ensures
        settled(m.refreshed(now).timer, now),
{
}

/// Refreshing a settled timer changes nothing.
pub proof fn lemma_refresh_of_settled(m: BreakTimerManager, now: Timestamp)
    requires
        settled(m.timer, now),
    ensures
        m.refreshed(now) == m,
{
}

/// Refreshing twice at one instant is refreshing once.
pub proof fn lemma_refresh_idempotent(m: BreakTimerManager, now: Timestamp)
    ensures
        m.refreshed(now).refreshed(now) == m.refreshed(now),
{
}

/// Refreshing at an instant and then at a later one is refreshing at the
/// later one alone.
pub proof fn lemma_refresh_absorbs_earlier(m: BreakTimerManager, earlier: Timestamp, later: Timestamp)
    requires
        earlier.secs <= later.secs,
    ensures
        m.refreshed(earlier).refreshed(later) == m.refreshed(later),
{
}

/// After a successful unlock at `now` the timer stays unlocked at every
/// instant before `now + work_period`.
pub proof fn lemma_unlocked_through_work_period(m: BreakTimerManager, now: Timestamp, later: Timestamp)
    requires
        m.refreshed(now).timer == BreakTimer::Unlockable,
        later.secs < saturating_sum(now.secs, m.work_period_duration.secs),
    ensures
        m.after_unlock(now).refreshed(later) == m.after_unlock(now),
        m.after_unlock(now).timer == (BreakTimer::Unlocked {
            until: Timestamp { secs: saturating_sum(now.secs, m.work_period_duration.secs) },
        }),
{
}

/// After a successful unlock at `now` the work period is over at
/// `now + work_period`: from then on the timer is in its break, which ends
/// one break length after the work period did, or past it and unlockable.
pub proof fn lemma_locked_after_work_period(m: BreakTimerManager, now: Timestamp, later: Timestamp)
    requires
        m.refreshed(now).timer == BreakTimer::Unlockable,
        later.secs >= saturating_sum(now.secs, m.work_period_duration.secs),
    ensures
        ({
            let work_end = saturating_sum(now.secs, m.work_period_duration.secs);
            let break_end = saturating_sum(work_end, m.break_duration.secs);
            let timer = m.after_unlock(now).refreshed(later).timer;
            &&& later.secs < break_end ==> timer == (BreakTimer::Locked { until: Timestamp { secs: break_end } })
            &&& later.secs >= break_end ==> timer == BreakTimer::Unlockable
        }),
{
}

/// A break that is running ends at its `until`: before it the timer stays
/// locked, from it on the timer is unlockable.
pub proof fn lemma_break_ends(m: BreakTimerManager, until: Timestamp, later: Timestamp)
    requires
        m.timer == (BreakTimer::Locked { until }),
    ensures
        later.secs < until.secs ==> m.refreshed(later) == m,
        later.secs >= until.secs ==> m.refreshed(later).timer == BreakTimer::Unlockable,
{
}

/// No operation takes the timer from unlockable straight to locked, or from
/// locked straight to unlocked.
pub proof fn lemma_no_shortcut(m: BreakTimerManager, now: Timestamp)
    requires
        settled(m.timer, now),
    ensures
        m.timer == BreakTimer::Unlockable ==> !(m.after_lock(now).timer is Locked) && !(
        m.refreshed(now).timer is Locked),
        m.timer is Locked ==> !(m.after_unlock(now).timer is Unlocked) && !(m.refreshed(
            now,
        ).timer is Unlocked) && !(m.after_lock(now).timer is Unlocked),
{
}

} // verus!
