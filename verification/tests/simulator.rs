use diagonator::simulator::{SimulationResult, Simulator, StateChange, StateChangeKind};
use diagonator::state::{CurrentState, CurrentStateReason};
use diagonator::time::Timestamp;

fn at(secs: u64) -> Timestamp {
    Timestamp::from_secs(secs)
}

fn change(kind: StateChangeKind, secs: u64) -> StateChange {
    StateChange { kind, time: at(secs) }
}

fn simulator(changes: Vec<StateChange>) -> Simulator {
    let mut sim = Simulator::new();
    for c in changes {
        sim.push(c);
    }
    sim
}

fn result(state: CurrentState, reason: CurrentStateReason, until: Option<u64>) -> SimulationResult {
    SimulationResult { target_state: state, until: until.map(at), reason }
}

#[test]
fn no_trigger_is_unlockable() {
    let sim = Simulator::new();
    assert_eq!(sim.len(), 0);
    assert_eq!(
        sim.run(at(100)),
        result(CurrentState::Unlockable, CurrentStateReason::NoConstraints, None)
    );
}

#[test]
fn push_appends() {
    let mut sim = Simulator::new();
    sim.push(change(StateChangeKind::BreakTimerLocked, 5));
    sim.push(change(StateChangeKind::BreakTimerUnlockable, 9));
    assert_eq!(sim.len(), 2);
}

#[test]
fn requirement_locks_from_its_due_instant() {
    let sim = simulator(vec![change(StateChangeKind::RequirementLocked(7), 100)]);
    assert_eq!(
        sim.run(at(99)),
        result(CurrentState::Unlockable, CurrentStateReason::NoConstraints, Some(100))
    );
    assert_eq!(
        sim.run(at(100)),
        result(CurrentState::Locked, CurrentStateReason::RequirementNotMet { id: 7 }, None)
    );
    assert_eq!(
        sim.run(at(u64::MAX)),
        result(CurrentState::Locked, CurrentStateReason::RequirementNotMet { id: 7 }, None)
    );
}

#[test]
fn first_requirement_in_list_order_gives_the_reason() {
    let sim = simulator(vec![
        change(StateChangeKind::RequirementLocked(3), 500),
        change(StateChangeKind::RequirementLocked(4), 200),
        change(StateChangeKind::RequirementLocked(5), 100),
    ]);
    assert_eq!(
        sim.run(at(150)),
        result(CurrentState::Locked, CurrentStateReason::RequirementNotMet { id: 5 }, Some(200))
    );
    assert_eq!(
        sim.run(at(250)),
        result(CurrentState::Locked, CurrentStateReason::RequirementNotMet { id: 4 }, Some(500))
    );
    assert_eq!(
        sim.run(at(500)),
        result(CurrentState::Locked, CurrentStateReason::RequirementNotMet { id: 3 }, None)
    );
}

#[test]
fn range_locks_between_its_triggers() {
    let sim = simulator(vec![
        change(StateChangeKind::RangeLocked(2), 100),
        change(StateChangeKind::RangeUnlocked(2), 200),
    ]);
    assert_eq!(
        sim.run(at(99)),
        result(CurrentState::Unlockable, CurrentStateReason::NoConstraints, Some(100))
    );
    assert_eq!(
        sim.run(at(100)),
        result(CurrentState::Locked, CurrentStateReason::LockedTimeRange { id: 2 }, Some(200))
    );
    assert_eq!(
        sim.run(at(199)),
        result(CurrentState::Locked, CurrentStateReason::LockedTimeRange { id: 2 }, Some(200))
    );
    assert_eq!(
        sim.run(at(200)),
        result(CurrentState::Unlockable, CurrentStateReason::NoConstraints, None)
    );
}

#[test]
fn range_without_later_unlock_stays_locked() {
    let sim = simulator(vec![
        change(StateChangeKind::RangeLocked(2), 300),
        change(StateChangeKind::RangeUnlocked(2), 100),
    ]);
    assert_eq!(
        sim.run(at(200)),
        result(CurrentState::Unlockable, CurrentStateReason::NoConstraints, Some(300))
    );
    assert_eq!(
        sim.run(at(1_000)),
        result(CurrentState::Locked, CurrentStateReason::LockedTimeRange { id: 2 }, None)
    );
}

#[test]
fn unlock_of_another_range_ends_nothing() {
    let sim = simulator(vec![
        change(StateChangeKind::RangeLocked(2), 100),
        change(StateChangeKind::RangeUnlocked(3), 150),
    ]);
    assert_eq!(
        sim.run(at(160)),
        result(CurrentState::Locked, CurrentStateReason::LockedTimeRange { id: 2 }, None)
    );
}

#[test]
fn requirement_outranks_range_and_timer() {
    let sim = simulator(vec![
        change(StateChangeKind::RequirementLocked(1), 100),
        change(StateChangeKind::RangeLocked(2), 50),
        change(StateChangeKind::BreakTimerLocked, 0),
        change(StateChangeKind::BreakTimerUnlockable, 400),
    ]);
    assert_eq!(
        sim.run(at(60)),
        result(CurrentState::Locked, CurrentStateReason::LockedTimeRange { id: 2 }, Some(100))
    );
    assert_eq!(
        sim.run(at(100)),
        result(CurrentState::Locked, CurrentStateReason::RequirementNotMet { id: 1 }, Some(400))
    );
}

#[test]
fn same_instant_is_decided_by_priority_not_by_order() {
    let sim = simulator(vec![
        change(StateChangeKind::BreakTimerLocked, 0),
        change(StateChangeKind::BreakTimerUnlockable, 900),
        change(StateChangeKind::RangeLocked(2), 100),
        change(StateChangeKind::RequirementLocked(1), 100),
    ]);
    assert_eq!(
        sim.run(at(99)),
        result(CurrentState::Locked, CurrentStateReason::BreakTimer, Some(100))
    );
    assert_eq!(
        sim.run(at(100)),
        result(CurrentState::Locked, CurrentStateReason::RequirementNotMet { id: 1 }, Some(900))
    );
}

#[test]
fn running_break_locks_until_its_end() {
    let sim = simulator(vec![
        change(StateChangeKind::BreakTimerLocked, 0),
        change(StateChangeKind::BreakTimerUnlockable, 300),
    ]);
    assert_eq!(
        sim.run(at(0)),
        result(CurrentState::Locked, CurrentStateReason::BreakTimer, Some(300))
    );
    assert_eq!(
        sim.run(at(299)),
        result(CurrentState::Locked, CurrentStateReason::BreakTimer, Some(300))
    );
    assert_eq!(
        sim.run(at(300)),
        result(CurrentState::Unlockable, CurrentStateReason::NoConstraints, None)
    );
}

#[test]
fn running_work_period_is_unlocked_until_its_end() {
    let sim = simulator(vec![change(StateChangeKind::BreakTimerLocked, 1_500)]);
    assert_eq!(
        sim.run(at(1_499)),
        result(CurrentState::Unlocked, CurrentStateReason::NoConstraints, Some(1_500))
    );
    assert_eq!(
        sim.run(at(1_500)),
        result(CurrentState::Locked, CurrentStateReason::BreakTimer, None)
    );
}

#[test]
fn until_is_the_smallest_later_trigger_of_any_source() {
    let sim = simulator(vec![
        change(StateChangeKind::RequirementLocked(1), 10),
        change(StateChangeKind::RangeLocked(2), 700),
        change(StateChangeKind::RangeUnlocked(2), 800),
        change(StateChangeKind::BreakTimerLocked, 500),
    ]);
    assert_eq!(
        sim.run(at(10)),
        result(CurrentState::Locked, CurrentStateReason::RequirementNotMet { id: 1 }, Some(500))
    );
    assert_eq!(
        sim.run(at(500)),
        result(CurrentState::Locked, CurrentStateReason::RequirementNotMet { id: 1 }, Some(700))
    );
    assert_eq!(
        sim.run(at(799)),
        result(CurrentState::Locked, CurrentStateReason::RequirementNotMet { id: 1 }, Some(800))
    );
    assert_eq!(
        sim.run(at(800)),
        result(CurrentState::Locked, CurrentStateReason::RequirementNotMet { id: 1 }, None)
    );
}
