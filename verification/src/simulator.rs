//! The constraint engine: timestamped triggers from every source are gathered
//! in one list, and the state at an instant is read off that list by a fixed
//! order of priority.

use vstd::prelude::*;
use crate::state::{reason_fits, CurrentState, CurrentStateReason};
use crate::time::Timestamp;

verus! {

/// What a trigger does, and for which instance.
#[derive(Clone, Copy, Debug, PartialEq, Eq, Structural)]
pub enum StateChangeKind {
    /// The requirement with this id locks the session from here on.
    RequirementLocked(u64),
    /// The time range with this id locks the session from here on.
    RangeLocked(u64),
    /// The time range with this id stops locking the session here.
    RangeUnlocked(u64),
    /// The break timer locks the session from here on.
    BreakTimerLocked,
    /// The break timer stops locking the session here.
    BreakTimerUnlockable,
}

/// A trigger: a change of one source at one instant.
#[derive(Clone, Copy, Debug, PartialEq, Eq, Structural)]
pub struct StateChange {
    pub kind: StateChangeKind,
    pub time: Timestamp,
}

/// The sources of triggers, in falling priority.
#[derive(Clone, Copy, Debug, PartialEq, Eq, Structural)]
pub enum Source {
    Requirement,
    Range,
    BreakTimer,
}

/// What the engine reports for one instant.
#[derive(Clone, Copy, Debug, PartialEq, Eq, Structural)]
pub struct SimulationResult {
    pub target_state: CurrentState,
    pub until: Option<Timestamp>,
    pub reason: CurrentStateReason,
}

/// The list of triggers of one query.
pub struct Simulator {
    changes: Vec<StateChange>,
}

/// Whether a trigger of this kind starts a lock.
pub open spec fn is_lock_from(kind: StateChangeKind) -> bool {
    kind is RequirementLocked || kind is RangeLocked || kind is BreakTimerLocked
}

/// The source that a trigger of this kind belongs to.
pub open spec fn source_of(kind: StateChangeKind) -> Source {
    match kind {
        StateChangeKind::RequirementLocked(_) => Source::Requirement,
        StateChangeKind::RangeLocked(_) => Source::Range,
        StateChangeKind::RangeUnlocked(_) => Source::Range,
        StateChangeKind::BreakTimerLocked => Source::BreakTimer,
        StateChangeKind::BreakTimerUnlockable => Source::BreakTimer,
    }
}

/// Whether `unlock` ends the lock that `lock` starts: it is the unlock of the
/// same instance and comes strictly later. A requirement's lock is never ended.
pub open spec fn closes(lock: StateChange, unlock: StateChange) -> bool {
    &&& lock.time.secs < unlock.time.secs
    &&& match (lock.kind, unlock.kind) {
        (StateChangeKind::RangeLocked(a), StateChangeKind::RangeUnlocked(b)) => a == b,
        (StateChangeKind::BreakTimerLocked, StateChangeKind::BreakTimerUnlockable) => true,
        _ => false,
    }
}

/// Whether the trigger at index `i` is a lock that holds at `t`: it has
/// started by `t`, and no trigger that ends it has come by `t`.
pub open spec fn lock_holds(s: Seq<StateChange>, i: int, t: Timestamp) -> bool {
    &&& 0 <= i < s.len()
    &&& is_lock_from(s[i].kind)
    &&& s[i].time.secs <= t.secs
    &&& forall|j: int| 0 <= j < s.len() && #[trigger] closes(s[i], s[j]) ==> t.secs < s[j].time.secs
}

/// Whether the trigger at index `i` is a lock of `source` that holds at `t`.
pub open spec fn holds_for(s: Seq<StateChange>, source: Source, i: int, t: Timestamp) -> bool {
    lock_holds(s, i, t) && source_of(s[i].kind) == source
}

/// Whether `source` is active at `t`: one of its locks holds.
pub open spec fn source_active(s: Seq<StateChange>, source: Source, t: Timestamp) -> bool {
    exists|i: int| holds_for(s, source, i, t)
}

/// Whether `i` is the first index, in the order of the list, of a lock of
/// `source` that holds at `t`.
pub open spec fn first_holding(s: Seq<StateChange>, source: Source, i: int, t: Timestamp) -> bool {
    &&& holds_for(s, source, i, t)
    &&& forall|k: int| 0 <= k < i ==> !holds_for(s, source, k, t)
}

/// Whether the break timer has a lock still to come after `t`: a work period
/// is running.
pub open spec fn timer_lock_pending(s: Seq<StateChange>, t: Timestamp) -> bool {
    exists|i: int| pending_at(s, i, t)
}

/// Whether the trigger at index `i` is a break-timer lock that comes after `t`.
pub open spec fn pending_at(s: Seq<StateChange>, i: int, t: Timestamp) -> bool {
    0 <= i < s.len() && s[i].kind == StateChangeKind::BreakTimerLocked && t.secs < s[i].time.secs
}

/// Whether some trigger of the list stands at the instant `x`.
pub open spec fn has_trigger_at(s: Seq<StateChange>, x: u64) -> bool {
    exists|i: int| 0 <= i < s.len() && (#[trigger] s[i]).time.secs == x
}

/// Whether `until` is the time of the next trigger after `t`: the smallest
/// trigger time strictly greater than `t`, or nothing where there is none.
pub open spec fn is_next_change(s: Seq<StateChange>, t: Timestamp, until: Option<Timestamp>) -> bool {
    match until {
        Some(u) => {
            &&& t.secs < u.secs
            &&& has_trigger_at(s, u.secs)
            &&& forall|i: int| 0 <= i < s.len() && t.secs < (#[trigger] s[i]).time.secs ==> u.secs <= s[i].time.secs
        },
        None => forall|i: int| 0 <= i < s.len() ==> (#[trigger] s[i]).time.secs <= t.secs,
    }
}

/// The reason that the lock started by a trigger of this kind gives.
pub open spec fn reason_of(kind: StateChangeKind) -> CurrentStateReason {
    match kind {
        StateChangeKind::RequirementLocked(id) => CurrentStateReason::RequirementNotMet { id },
        StateChangeKind::RangeLocked(id) => CurrentStateReason::LockedTimeRange { id },
        StateChangeKind::RangeUnlocked(id) => CurrentStateReason::LockedTimeRange { id },
        StateChangeKind::BreakTimerLocked => CurrentStateReason::BreakTimer,
        StateChangeKind::BreakTimerUnlockable => CurrentStateReason::BreakTimer,
    }
}

/// Whether `result` is what the triggers `s` give at `t`. An active
/// requirement decides before an active range, and that before the break
/// timer; within a source the first holding lock of the list gives the reason.
pub open spec fn resolves_to(s: Seq<StateChange>, t: Timestamp, result: SimulationResult) -> bool {
    &&& is_next_change(s, t, result.until)
    &&& if source_active(s, Source::Requirement, t) {
        &&& result.target_state == CurrentState::Locked
        &&& exists|i: int| #[trigger]
            first_holding(s, Source::Requirement, i, t) && result.reason == reason_of(s[i].kind)
    } else if source_active(s, Source::Range, t) {
        &&& result.target_state == CurrentState::Locked
        &&& exists|i: int| #[trigger]
            first_holding(s, Source::Range, i, t) && result.reason == reason_of(s[i].kind)
    } else if source_active(s, Source::BreakTimer, t) {
        &&& result.target_state == CurrentState::Locked
        &&& result.reason == CurrentStateReason::BreakTimer
    } else if timer_lock_pending(s, t) {
        &&& result.target_state == CurrentState::Unlocked
        &&& result.reason == CurrentStateReason::NoConstraints
    } else {
        &&& result.target_state == CurrentState::Unlockable
        &&& result.reason == CurrentStateReason::NoConstraints
    }
}

impl View for Simulator {
    type V = Seq<StateChange>;

    closed spec fn view(&self) -> Seq<StateChange> {
        self.changes@
    }
}

impl Simulator {
    /// A simulator with no trigger.
    pub fn new() -> (sim: Simulator)
        ensures
            sim@ == Seq::<StateChange>::empty(),
    {
        Simulator { changes: Vec::new() }
    }

    /// Adds a trigger behind those already there.
    pub fn push(&mut self, change: StateChange)
        ensures
            final(self)@ == old(self)@.push(change),
    {
        self.changes.push(change);
    }

    /// The number of triggers.
    pub fn len(&self) -> (n: usize)
        ensures
            n == self@.len(),
    {
        self.changes.len()
    }

    /// Whether the trigger at index `i` is a lock that holds at `t`.
    fn lock_holds_at(&self, i: usize, t: Timestamp) -> (b: bool)
        requires
            i < self@.len(),
        ensures
            b == lock_holds(self@, i as int, t),
    {
        let lock = self.changes[i];
        let starts = match lock.kind {
            StateChangeKind::RequirementLocked(_) => true,
            StateChangeKind::RangeLocked(_) => true,
            StateChangeKind::BreakTimerLocked => true,
            _ => false,
        };
        if !starts || lock.time.secs > t.secs {
            return false;
        }
        let mut j: usize = 0;
        while j < self.changes.len()
            invariant
                j <= self.changes.len(),
                i < self.changes.len(),
                lock == self@[i as int],
                forall|k: int| 0 <= k < j && #[trigger] closes(self@[i as int], self@[k]) ==> t.secs < self@[k].time.secs,
            decreases self.changes.len() - j,
        {
            let other = self.changes[j];
            let same_instance = match (lock.kind, other.kind) {
                (StateChangeKind::RangeLocked(a), StateChangeKind::RangeUnlocked(b)) => a == b,
                (StateChangeKind::BreakTimerLocked, StateChangeKind::BreakTimerUnlockable) => true,
                _ => false,
            };
            if same_instance && lock.time.secs < other.time.secs && other.time.secs <= t.secs {
                assert(closes(self@[i as int], self@[j as int]));
                return false;
            }
            j += 1;
        }
        true
    }

    /// The first lock of `source`, in the order of the list, that holds at `t`.
    fn first_lock(&self, source: Source, t: Timestamp) -> (r: Option<usize>)
        ensures
            r.is_some() <==> source_active(self@, source, t),
            r.is_some() ==> first_holding(self@, source, r.unwrap() as int, t),
    {
        let mut i: usize = 0;
        while i < self.changes.len()
            invariant
                i <= self.changes.len(),
                forall|k: int| 0 <= k < i ==> !holds_for(self@, source, k, t),
            decreases self.changes.len() - i,
        {
            let of_source = match (self.changes[i].kind, source) {
                (StateChangeKind::RequirementLocked(_), Source::Requirement) => true,
                (StateChangeKind::RangeLocked(_), Source::Range) => true,
                (StateChangeKind::RangeUnlocked(_), Source::Range) => true,
                (StateChangeKind::BreakTimerLocked, Source::BreakTimer) => true,
                (StateChangeKind::BreakTimerUnlockable, Source::BreakTimer) => true,
                _ => false,
            };
            if of_source && self.lock_holds_at(i, t) {
                assert(holds_for(self@, source, i as int, t));
                return Some(i);
            }
            i += 1;
        }
        None
    }

    /// Whether a break-timer lock is still to come after `t`.
    fn timer_pending(&self, t: Timestamp) -> (b: bool)
        ensures
            b == timer_lock_pending(self@, t),
    {
        let mut i: usize = 0;
        while i < self.changes.len()
            invariant
                i <= self.changes.len(),
                forall|k: int| 0 <= k < i ==> !pending_at(self@, k, t),
            decreases self.changes.len() - i,
        {
            let change = self.changes[i];
            if matches!(change.kind, StateChangeKind::BreakTimerLocked) && t.secs < change.time.secs {
                assert(pending_at(self@, i as int, t));
                return true;
            }
            i += 1;
        }
        false
    }

    /// The time of the next trigger after `t`.
    fn next_change(&self, t: Timestamp) -> (until: Option<Timestamp>)
        ensures
            is_next_change(self@, t, until),
    {
        let mut best: Option<Timestamp> = None;
        let mut i: usize = 0;
        while i < self.changes.len()
            invariant
                i <= self.changes.len(),
                is_next_change(self@.subrange(0, i as int), t, best),
            decreases self.changes.len() - i,
        {
            let time = self.changes[i].time;
            let ghost before = self@.subrange(0, i as int);
            let ghost after = self@.subrange(0, i + 1);
            let ghost old_best = best;
            if t.secs < time.secs {
                let better = match best {
                    Some(b) => time.secs < b.secs,
                    None => true,
                };
                if better {
                    best = Some(time);
                }
            }
            proof {
                assert(after[i as int] == self@[i as int]);
                assert forall|k: int| 0 <= k < i implies #[trigger] after[k] == before[k] by {}
                if let Some(u) = best {
                    if old_best == best {
                        let w = choose|w: int| 0 <= w < before.len() && (#[trigger] before[w]).time.secs == u.secs;
                        assert(after[w].time.secs == u.secs);
                    } else {
                        assert(after[i as int].time.secs == u.secs);
                    }
                    assert forall|k: int| 0 <= k < after.len() && t.secs < (#[trigger] after[k]).time.secs implies u.secs
                        <= after[k].time.secs by {
                        if k < i {
                            assert(before[k] == after[k]);
                        }
                    }
                } else {
                    assert forall|k: int| 0 <= k < after.len() implies (#[trigger] after[k]).time.secs <= t.secs by {
                        if k < i {
                            assert(before[k] == after[k]);
                        }
                    }
                }
            }
            i += 1;
        }
        proof {
            assert(self@.subrange(0, i as int) == self@);
        }
        best
    }

    /// Reads the state at `current_time` off the triggers.
    pub fn run(&self, current_time: Timestamp) -> (result: SimulationResult)
        ensures
            resolves_to(self@, current_time, result),
            reason_fits(result.target_state, result.reason),
    {
        let until = self.next_change(current_time);
        if let Some(i) = self.first_lock(Source::Requirement, current_time) {
            let reason = match self.changes[i].kind {
                StateChangeKind::RequirementLocked(id) => CurrentStateReason::RequirementNotMet { id },
                _ => CurrentStateReason::BreakTimer,
            };
            return SimulationResult { target_state: CurrentState::Locked, until, reason };
        }
        if let Some(i) = self.first_lock(Source::Range, current_time) {
            let reason = match self.changes[i].kind {
                StateChangeKind::RangeLocked(id) => CurrentStateReason::LockedTimeRange { id },
                _ => CurrentStateReason::BreakTimer,
            };
            return SimulationResult { target_state: CurrentState::Locked, until, reason };
        }
        if self.first_lock(Source::BreakTimer, current_time).is_some() {
            return SimulationResult {
                target_state: CurrentState::Locked,
                until,
                reason: CurrentStateReason::BreakTimer,
            };
        }
        if self.timer_pending(current_time) {
            SimulationResult {
                target_state: CurrentState::Unlocked,
                until,
                reason: CurrentStateReason::NoConstraints,
            }
        } else {
            SimulationResult {
                target_state: CurrentState::Unlockable,
                until,
                reason: CurrentStateReason::NoConstraints,
            }
        }
    }
}

/// The reason that the engine gives is one that its state can carry: a locked
/// session names what locks it, and no other state names a lock.
pub proof fn lemma_resolution_fits(s: Seq<StateChange>, t: Timestamp, result: SimulationResult)
    requires
        resolves_to(s, t, result),
    ensures
        reason_fits(result.target_state, result.reason),
{
}

/// The triggers decide: one list gives one result at one instant.
pub proof fn lemma_resolution_is_unique(
    s: Seq<StateChange>,
    t: Timestamp,
    one: SimulationResult,
    other: SimulationResult,
)
    requires
        resolves_to(s, t, one),
        resolves_to(s, t, other),
    ensures
        one == other,
{
    match (one.until, other.until) {
        (Some(u), Some(v)) => {
            let i = choose|i: int| 0 <= i < s.len() && (#[trigger] s[i]).time.secs == u.secs;
            let j = choose|j: int| 0 <= j < s.len() && (#[trigger] s[j]).time.secs == v.secs;
            assert(v.secs <= s[i].time.secs);
            assert(u.secs <= s[j].time.secs);
        },
        (Some(u), None) => {
            let i = choose|i: int| 0 <= i < s.len() && (#[trigger] s[i]).time.secs == u.secs;
            assert(s[i].time.secs <= t.secs);
        },
        (None, Some(v)) => {
            let j = choose|j: int| 0 <= j < s.len() && (#[trigger] s[j]).time.secs == v.secs;
            assert(s[j].time.secs <= t.secs);
        },
        (None, None) => {},
    }
    if source_active(s, Source::Requirement, t) {
        lemma_first_holding_is_unique(s, Source::Requirement, t, one.reason, other.reason);
    } else if source_active(s, Source::Range, t) {
        lemma_first_holding_is_unique(s, Source::Range, t, one.reason, other.reason);
    }
}

/// Two reasons that both come from the first holding lock of a source are the
/// same reason.
proof fn lemma_first_holding_is_unique(
    s: Seq<StateChange>,
    source: Source,
    t: Timestamp,
    one: CurrentStateReason,
    other: CurrentStateReason,
)
    requires
        exists|i: int| #[trigger] first_holding(s, source, i, t) && one == reason_of(s[i].kind),
        exists|i: int| #[trigger] first_holding(s, source, i, t) && other == reason_of(s[i].kind),
    ensures
        one == other,
{
    let i = choose|i: int| #[trigger] first_holding(s, source, i, t) && one == reason_of(s[i].kind);
    let j = choose|j: int| #[trigger] first_holding(s, source, j, t) && other == reason_of(s[j].kind);
    if i < j {
        assert(!holds_for(s, source, i, t));
    }
    if j < i {
        assert(!holds_for(s, source, j, t));
    }
}

} // verus!
