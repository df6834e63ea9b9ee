use diagonator::break_timer::{BreakTimer, BreakTimerManager};
use diagonator::time::{Duration, Timestamp};

fn minutes(m: u64) -> Duration {
    Duration::from_secs(m * 60)
}

fn at(secs: u64) -> Timestamp {
    Timestamp::from_secs(secs)
}

#[test]
fn new_timer_is_unlockable() {
    let timer = BreakTimerManager::new(minutes(25), minutes(5));
    assert_eq!(timer.timer, BreakTimer::Unlockable);
    assert_eq!(timer.work_period_duration.secs, 1500);
    assert_eq!(timer.break_duration.secs, 300);
}

#[test]
fn unlock_starts_work_period() {
    let mut timer = BreakTimerManager::new(minutes(25), minutes(5));
    assert_eq!(timer.unlock(at(1000)), Ok(()));
    assert_eq!(timer.timer, BreakTimer::Unlocked { until: at(2500) });
}

#[test]
fn unlock_twice_is_refused() {
    let mut timer = BreakTimerManager::new(minutes(25), minutes(5));
    assert_eq!(timer.unlock(at(1000)), Ok(()));
    assert_eq!(timer.unlock(at(1001)), Err("Break timer is already unlocked.".to_owned()));
    assert_eq!(timer.timer, BreakTimer::Unlocked { until: at(2500) });
}

#[test]
fn unlock_during_break_is_refused() {
    let mut timer = BreakTimerManager::new(minutes(25), minutes(5));
    assert_eq!(timer.unlock(at(1000)), Ok(()));
    assert_eq!(timer.lock(at(1200)), Ok(()));
    assert_eq!(timer.timer, BreakTimer::Locked { until: at(1500) });
    assert_eq!(timer.unlock(at(1300)), Err("Break timer is locked.".to_owned()));
    assert_eq!(timer.timer, BreakTimer::Locked { until: at(1500) });
}

#[test]
fn lock_from_unlockable_is_refused() {
    let mut timer = BreakTimerManager::new(minutes(25), minutes(5));
    assert_eq!(timer.lock(at(1000)), Err("Break timer is not unlocked.".to_owned()));
    assert_eq!(timer.timer, BreakTimer::Unlockable);
}

#[test]
fn lock_during_break_is_refused() {
    let mut timer = BreakTimerManager::new(minutes(25), minutes(5));
    assert_eq!(timer.unlock(at(0)), Ok(()));
    assert_eq!(timer.lock(at(10)), Ok(()));
    assert_eq!(timer.lock(at(20)), Err("Break timer is not unlocked.".to_owned()));
    assert_eq!(timer.timer, BreakTimer::Locked { until: at(310) });
}

#[test]
fn refresh_just_before_work_period_ends_stays_unlocked() {
    let mut timer = BreakTimerManager::new(minutes(25), minutes(5));
    assert_eq!(timer.unlock(at(1000)), Ok(()));
    timer.refresh(at(1000));
    assert_eq!(timer.timer, BreakTimer::Unlocked { until: at(2500) });
    timer.refresh(at(2499));
    assert_eq!(timer.timer, BreakTimer::Unlocked { until: at(2500) });
}

#[test]
fn refresh_at_work_period_end_locks() {
    let mut timer = BreakTimerManager::new(minutes(25), minutes(5));
    assert_eq!(timer.unlock(at(1000)), Ok(()));
    timer.refresh(at(2500));
    assert_eq!(timer.timer, BreakTimer::Locked { until: at(2800) });
}

#[test]
fn late_refresh_grants_no_extra_break() {
    let mut timer = BreakTimerManager::new(minutes(25), minutes(5));
    assert_eq!(timer.unlock(at(1000)), Ok(()));
    timer.refresh(at(2700));
    assert_eq!(timer.timer, BreakTimer::Locked { until: at(2800) });
}

#[test]
fn refresh_past_break_is_unlockable_in_one_pass() {
    let mut timer = BreakTimerManager::new(minutes(25), minutes(5));
    assert_eq!(timer.unlock(at(1000)), Ok(()));
    timer.refresh(at(2800));
    assert_eq!(timer.timer, BreakTimer::Unlockable);
}

#[test]
fn break_ends_at_until() {
    let mut timer = BreakTimerManager::new(minutes(25), minutes(5));
    assert_eq!(timer.unlock(at(1000)), Ok(()));
    assert_eq!(timer.lock(at(1100)), Ok(()));
    timer.refresh(at(1399));
    assert_eq!(timer.timer, BreakTimer::Locked { until: at(1400) });
    timer.refresh(at(1400));
    assert_eq!(timer.timer, BreakTimer::Unlockable);
}

#[test]
fn refresh_is_idempotent_and_absorbs_earlier_refreshes() {
    let mut once = BreakTimerManager::new(minutes(25), minutes(5));
    let mut twice = BreakTimerManager::new(minutes(25), minutes(5));
    assert_eq!(once.unlock(at(0)), Ok(()));
    assert_eq!(twice.unlock(at(0)), Ok(()));
    once.refresh(at(1600));
    twice.refresh(at(700));
    twice.refresh(at(1600));
    twice.refresh(at(1600));
    assert_eq!(once.timer, twice.timer);
    assert_eq!(once.timer, BreakTimer::Locked { until: at(1800) });
}

#[test]
fn work_period_end_saturates() {
    let mut timer = BreakTimerManager::new(minutes(25), minutes(5));
    assert_eq!(timer.unlock(at(u64::MAX - 10)), Ok(()));
    assert_eq!(timer.timer, BreakTimer::Unlocked { until: at(u64::MAX) });
}
