use diagonator::break_timer::{BreakTimer, BreakTimerManager};
use diagonator::constraints::{
    clone_ranges, clone_requirements, same_instant, same_ranges, same_requirements, Constraints,
    CurrentInfo, Requirement, TimeRange,
};
use diagonator::state::{CurrentState, CurrentStateReason};
use diagonator::time::{Duration, Timestamp};

const DAY: u64 = 864_000;

fn at(secs: u64) -> Timestamp {
    Timestamp::from_secs(secs)
}

fn clock(hour: u64, minute: u64) -> Timestamp {
    at(DAY + hour * 3_600 + minute * 60)
}

fn requirement(id: u64, name: &str, due: Timestamp, complete: bool) -> Requirement {
    Requirement { id, name: name.to_owned(), due, complete }
}

fn timer(phase: BreakTimer) -> BreakTimerManager {
    let mut t = BreakTimerManager::new(Duration::from_minutes(25), Duration::from_minutes(5));
    t.timer = phase;
    t
}

fn example() -> Constraints {
    Constraints {
        break_timer: timer(BreakTimer::Unlockable),
        requirements: vec![requirement(1, "Homework", clock(8, 30), false)],
        locked_time_ranges: vec![TimeRange { id: 2, start: Some(clock(22, 0)), end: Some(clock(4, 30)) }],
        deactivated_until: None,
    }
}

#[test]
fn example_before_the_requirement_is_due() {
    let mut c = example();
    let info = c.get_current_info(clock(7, 0));
    assert_eq!(info.state, CurrentState::Unlockable);
    assert_eq!(info.reason, CurrentStateReason::NoConstraints);
    assert_eq!(info.until, Some(clock(8, 30)));
    assert!(info.diagonator_running);
    assert_eq!(info.deactivated_until, None);
    assert_eq!(info.requirements, vec![requirement(1, "Homework", clock(8, 30), false)]);
    assert_eq!(
        info.locked_time_ranges,
        vec![TimeRange { id: 2, start: Some(clock(22, 0)), end: Some(clock(4, 30)) }]
    );
}

#[test]
fn example_when_the_requirement_is_due() {
    let mut c = example();
    let info = c.get_current_info(clock(8, 30));
    assert_eq!(info.state, CurrentState::Locked);
    assert_eq!(info.reason, CurrentStateReason::RequirementNotMet { id: 1 });
    assert_eq!(info.until, Some(clock(22, 0)));
    assert!(info.diagonator_running);
}

#[test]
fn example_in_the_range_with_the_requirement_incomplete() {
    let mut c = example();
    let info = c.get_current_info(clock(23, 0));
    assert_eq!(info.state, CurrentState::Locked);
    assert_eq!(info.reason, CurrentStateReason::RequirementNotMet { id: 1 });
    assert_eq!(info.until, None);
}

#[test]
fn example_in_the_range_with_the_requirement_complete() {
    let mut c = example();
    assert_eq!(c.complete_requirement(1), Ok(()));
    let info = c.get_current_info(clock(23, 0));
    assert_eq!(info.state, CurrentState::Locked);
    assert_eq!(info.reason, CurrentStateReason::LockedTimeRange { id: 2 });
    assert_eq!(info.until, None);
    assert_eq!(info.requirements, vec![requirement(1, "Homework", clock(8, 30), true)]);
}

#[test]
fn range_outranks_a_running_break() {
    let mut c = example();
    assert_eq!(c.complete_requirement(1), Ok(()));
    c.break_timer = timer(BreakTimer::Locked { until: clock(23, 30) });
    let info = c.get_current_info(clock(23, 0));
    assert_eq!(info.state, CurrentState::Locked);
    assert_eq!(info.reason, CurrentStateReason::LockedTimeRange { id: 2 });
    assert_eq!(info.until, Some(clock(23, 30)));
}

#[test]
fn requirement_locks_whatever_the_timer_says() {
    let mut c = example();
    c.break_timer = timer(BreakTimer::Unlocked { until: clock(9, 0) });
    let info = c.get_current_info(clock(8, 45));
    assert_eq!(info.state, CurrentState::Locked);
    assert_eq!(info.reason, CurrentStateReason::RequirementNotMet { id: 1 });
    assert_eq!(info.until, Some(clock(9, 0)));
    assert!(info.diagonator_running);
}

#[test]
fn earlier_requirement_in_the_list_gives_the_reason() {
    let mut c = example();
    c.requirements = vec![
        requirement(5, "Late", clock(9, 0), false),
        requirement(6, "Done", clock(6, 0), true),
        requirement(7, "Early", clock(7, 0), false),
    ];
    let first = c.get_current_info(clock(8, 0));
    assert_eq!(first.reason, CurrentStateReason::RequirementNotMet { id: 7 });
    assert_eq!(first.until, Some(clock(9, 0)));
    let second = c.get_current_info(clock(9, 0));
    assert_eq!(second.reason, CurrentStateReason::RequirementNotMet { id: 5 });
}

#[test]
fn complete_requirement_has_no_trigger() {
    let mut c = example();
    c.requirements = vec![requirement(6, "Done", clock(9, 0), true)];
    c.locked_time_ranges = vec![];
    let info = c.get_current_info(clock(8, 0));
    assert_eq!(info.state, CurrentState::Unlockable);
    assert_eq!(info.until, None);
}

#[test]
fn range_with_open_bounds() {
    let mut c = example();
    c.requirements = vec![];
    c.locked_time_ranges = vec![
        TimeRange { id: 3, start: None, end: Some(clock(4, 30)) },
        TimeRange { id: 4, start: Some(clock(22, 0)), end: None },
    ];
    let night = c.get_current_info(clock(3, 0));
    assert_eq!(night.state, CurrentState::Locked);
    assert_eq!(night.reason, CurrentStateReason::LockedTimeRange { id: 3 });
    assert_eq!(night.until, Some(clock(4, 30)));
    let morning = c.get_current_info(clock(4, 30));
    assert_eq!(morning.state, CurrentState::Unlockable);
    assert_eq!(morning.reason, CurrentStateReason::NoConstraints);
    assert_eq!(morning.until, Some(clock(22, 0)));
    let evening = c.get_current_info(clock(22, 0));
    assert_eq!(evening.state, CurrentState::Locked);
    assert_eq!(evening.reason, CurrentStateReason::LockedTimeRange { id: 4 });
    assert_eq!(evening.until, None);
}

#[test]
fn first_locking_range_gives_the_reason() {
    let mut c = example();
    c.requirements = vec![];
    c.locked_time_ranges = vec![
        TimeRange { id: 3, start: Some(clock(12, 0)), end: Some(clock(13, 0)) },
        TimeRange { id: 4, start: Some(clock(11, 0)), end: Some(clock(14, 0)) },
    ];
    assert_eq!(c.get_current_info(clock(11, 30)).reason, CurrentStateReason::LockedTimeRange { id: 4 });
    assert_eq!(c.get_current_info(clock(12, 30)).reason, CurrentStateReason::LockedTimeRange { id: 3 });
    assert_eq!(c.get_current_info(clock(13, 30)).reason, CurrentStateReason::LockedTimeRange { id: 4 });
    assert_eq!(c.get_current_info(clock(14, 0)).state, CurrentState::Unlockable);
}

#[test]
fn snapshot_brings_the_timer_up_to_date() {
    let mut c = example();
    c.requirements = vec![];
    c.locked_time_ranges = vec![];
    c.break_timer = timer(BreakTimer::Unlocked { until: clock(9, 0) });
    let working = c.get_current_info(clock(8, 59));
    assert_eq!(working.state, CurrentState::Unlocked);
    assert_eq!(working.reason, CurrentStateReason::NoConstraints);
    assert_eq!(working.until, Some(clock(9, 0)));
    assert!(!working.diagonator_running);
    let resting = c.get_current_info(clock(9, 2));
    assert_eq!(c.break_timer.timer, BreakTimer::Locked { until: clock(9, 5) });
    assert_eq!(resting.state, CurrentState::Locked);
    assert_eq!(resting.reason, CurrentStateReason::BreakTimer);
    assert_eq!(resting.until, Some(clock(9, 5)));
    assert!(resting.diagonator_running);
    let free = c.get_current_info(clock(9, 5));
    assert_eq!(c.break_timer.timer, BreakTimer::Unlockable);
    assert_eq!(free.state, CurrentState::Unlockable);
    assert_eq!(free.reason, CurrentStateReason::NoConstraints);
    assert_eq!(free.until, None);
}

#[test]
fn override_suspends_enforcement_until_it_runs_out() {
    let mut c = example();
    c.deactivated_until = Some(clock(9, 0));
    let during = c.get_current_info(clock(8, 59));
    assert_eq!(during.state, CurrentState::Locked);
    assert_eq!(during.reason, CurrentStateReason::RequirementNotMet { id: 1 });
    assert_eq!(during.deactivated_until, Some(clock(9, 0)));
    assert!(!during.diagonator_running);
    let after = c.get_current_info(clock(9, 0));
    assert_eq!(after.state, CurrentState::Locked);
    assert_eq!(after.deactivated_until, None);
    assert!(after.diagonator_running);
    assert_eq!(c.deactivated_until, None);
}

#[test]
fn completing_an_unknown_requirement_is_refused() {
    let mut c = example();
    assert_eq!(c.complete_requirement(42), Err("Requirement 42 not found.".to_owned()));
    assert_eq!(c.complete_requirement(0), Err("Requirement 0 not found.".to_owned()));
    assert_eq!(
        c.complete_requirement(u64::MAX),
        Err("Requirement 18446744073709551615 not found.".to_owned())
    );
    assert_eq!(c.requirements, vec![requirement(1, "Homework", clock(8, 30), false)]);
}

#[test]
fn completing_twice_is_refused() {
    let mut c = example();
    assert_eq!(c.complete_requirement(1), Ok(()));
    assert_eq!(c.complete_requirement(1), Err("Requirement 1 has already been completed.".to_owned()));
    assert_eq!(c.requirements, vec![requirement(1, "Homework", clock(8, 30), true)]);
}

#[test]
fn completing_touches_one_requirement() {
    let mut c = example();
    c.requirements = vec![
        requirement(10, "A", clock(8, 0), false),
        requirement(120, "B", clock(9, 0), false),
        requirement(3000, "C", clock(10, 0), false),
    ];
    assert_eq!(c.complete_requirement(120), Ok(()));
    assert_eq!(
        c.requirements,
        vec![
            requirement(10, "A", clock(8, 0), false),
            requirement(120, "B", clock(9, 0), true),
            requirement(3000, "C", clock(10, 0), false),
        ]
    );
    assert_eq!(
        c.complete_requirement(120),
        Err("Requirement 120 has already been completed.".to_owned())
    );
    assert_eq!(c.complete_requirement(3001), Err("Requirement 3001 not found.".to_owned()));
}

#[test]
fn copies_are_equal_to_their_source() {
    let requirements = vec![requirement(1, "A", at(5), false), requirement(2, "B", at(6), true)];
    let ranges = vec![TimeRange { id: 3, start: None, end: Some(at(9)) }];
    assert!(same_requirements(&clone_requirements(&requirements), &requirements));
    assert!(same_ranges(&clone_ranges(&ranges), &ranges));
    assert_eq!(clone_requirements(&requirements), requirements);
    assert_eq!(clone_ranges(&ranges), ranges);
}

#[test]
fn lists_differ_by_any_field() {
    let base = vec![requirement(1, "A", at(5), false)];
    assert!(!same_requirements(&base, &vec![requirement(2, "A", at(5), false)]));
    assert!(!same_requirements(&base, &vec![requirement(1, "B", at(5), false)]));
    assert!(!same_requirements(&base, &vec![requirement(1, "A", at(6), false)]));
    assert!(!same_requirements(&base, &vec![requirement(1, "A", at(5), true)]));
    assert!(!same_requirements(&base, &vec![]));
    let range = vec![TimeRange { id: 3, start: None, end: Some(at(9)) }];
    assert!(!same_ranges(&range, &vec![TimeRange { id: 4, start: None, end: Some(at(9)) }]));
    assert!(!same_ranges(&range, &vec![TimeRange { id: 3, start: Some(at(0)), end: Some(at(9)) }]));
    assert!(!same_ranges(&range, &vec![TimeRange { id: 3, start: None, end: None }]));
    assert!(!same_ranges(&range, &vec![]));
}

#[test]
fn optional_instants_compare_by_value() {
    assert!(same_instant(None, None));
    assert!(same_instant(Some(at(4)), Some(at(4))));
    assert!(!same_instant(Some(at(4)), Some(at(5))));
    assert!(!same_instant(Some(at(4)), None));
    assert!(!same_instant(None, Some(at(4))));
}

#[test]
fn snapshots_compare_by_value() {
    let mut c = example();
    let first: CurrentInfo = c.get_current_info(clock(7, 0));
    let again = c.get_current_info(clock(7, 0));
    let later = c.get_current_info(clock(7, 1));
    let due = c.get_current_info(clock(8, 30));
    assert!(first.same_as(&again));
    assert_eq!(first, again);
    assert_eq!(first.clone(), first);
    assert_eq!(first, later);
    assert!(!first.same_as(&due));
    assert_ne!(first, due);
}

#[test]
fn reason_always_fits_the_state() {
    let phases = vec![
        BreakTimer::Unlockable,
        BreakTimer::Unlocked { until: clock(9, 0) },
        BreakTimer::Locked { until: clock(12, 0) },
    ];
    for phase in phases {
        for complete in vec![false, true] {
            for quarter in 0..96u64 {
                let mut c = example();
                c.break_timer = timer(phase);
                c.requirements[0].complete = complete;
                let info = c.get_current_info(at(DAY + quarter * 900));
                match info.state {
                    CurrentState::Locked => assert_ne!(info.reason, CurrentStateReason::NoConstraints),
                    CurrentState::Unlocked => {
                        assert_eq!(info.reason, CurrentStateReason::NoConstraints);
                        assert!(!info.diagonator_running);
                    }
                    CurrentState::Unlockable => {
                        assert_eq!(info.reason, CurrentStateReason::NoConstraints);
                        assert!(info.diagonator_running);
                    }
                }
                if let Some(until) = info.until {
                    assert!(until.secs > DAY + quarter * 900);
                }
            }
        }
    }
}
