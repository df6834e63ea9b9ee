//! The day's requirements and locked time ranges together with the break
//! timer, and the snapshot that is read off them at an instant.

use vstd::prelude::*;
use crate::break_timer::{lemma_refresh_settles, BreakTimer, BreakTimerManager};
use crate::simulator::{Simulator, StateChange, StateChangeKind};
use crate::state::{reason_fits, CurrentState, CurrentStateReason};
use crate::time::Timestamp;
use crate::triggers::{
    lemma_range_part_grows, lemma_requirement_part_grows, lemma_triggers_give_state, whole_list,
    RangePart, RequirementPart,
};

verus! {

/// A daily obligation: once due and not complete it locks the session.
#[derive(Debug)]
pub struct Requirement {
    pub id: u64,
    pub name: String,
    pub due: Timestamp,
    pub complete: bool,
}

/// What a requirement is, as a value.
pub struct RequirementView {
    pub id: u64,
    pub name: Seq<char>,
    pub due: Timestamp,
    pub complete: bool,
}

/// A daily interval in which the session is locked. A missing start stands
/// for the beginning of time, a missing end for no end.
#[derive(Clone, Copy, Debug, PartialEq, Eq, Structural)]
pub struct TimeRange {
    pub id: u64,
    pub start: Option<Timestamp>,
    pub end: Option<Timestamp>,
}

/// The snapshot of one instant: the state with its reason and the time of the
/// next trigger, the instances it was read off, and whether the session is
/// being enforced.
#[derive(Debug)]
pub struct CurrentInfo {
    pub state: CurrentState,
    pub until: Option<Timestamp>,
    pub reason: CurrentStateReason,
    pub locked_time_ranges: Vec<TimeRange>,
    pub requirements: Vec<Requirement>,
    pub deactivated_until: Option<Timestamp>,
    pub diagonator_running: bool,
}

/// What a snapshot is, as a value.
pub struct CurrentInfoView {
    pub state: CurrentState,
    pub until: Option<Timestamp>,
    pub reason: CurrentStateReason,
    pub locked_time_ranges: Seq<TimeRange>,
    pub requirements: Seq<RequirementView>,
    pub deactivated_until: Option<Timestamp>,
    pub diagonator_running: bool,
}

impl View for Requirement {
    type V = RequirementView;

    open spec fn view(&self) -> RequirementView {
        RequirementView { id: self.id, name: self.name@, due: self.due, complete: self.complete }
    }
}

/// The values of a list of requirements, in its order.
pub open spec fn requirement_views(list: Seq<Requirement>) -> Seq<RequirementView> {
    Seq::new(list.len(), |i: int| list[i]@)
}

impl View for CurrentInfo {
    type V = CurrentInfoView;

    open spec fn view(&self) -> CurrentInfoView {
        CurrentInfoView {
            state: self.state,
            until: self.until,
            reason: self.reason,
            locked_time_ranges: self.locked_time_ranges@,
            requirements: requirement_views(self.requirements@),
            deactivated_until: self.deactivated_until,
            diagonator_running: self.diagonator_running,
        }
    }
}

impl Clone for Requirement {
    fn clone(&self) -> (r: Requirement)
        ensures
            r@ == self@,
    {
        Requirement { id: self.id, name: self.name.clone(), due: self.due, complete: self.complete }
    }
}

impl Requirement {
    /// Whether the two requirements are the same value.
    pub fn same_as(&self, other: &Requirement) -> (b: bool)
        ensures
            b == (self@ == other@),
    {
        self.id == other.id && self.name == other.name && self.due.secs == other.due.secs && self.complete
            == other.complete
    }
}

/// Whether the two optional instants are the same.
pub fn same_instant(a: Option<Timestamp>, b: Option<Timestamp>) -> (same: bool)
    ensures
        same == (a == b),
{
    match (a, b) {
        (Some(x), Some(y)) => x.secs == y.secs,
        (None, None) => true,
        _ => false,
    }
}

/// A copy of a list of requirements.
pub fn clone_requirements(list: &Vec<Requirement>) -> (copy: Vec<Requirement>)
    ensures
        requirement_views(copy@) == requirement_views(list@),
{
    let mut copy: Vec<Requirement> = Vec::new();
    let mut i: usize = 0;
    while i < list.len()
        invariant
            i <= list.len(),
            copy@.len() == i,
            forall|k: int| 0 <= k < i ==> (#[trigger] copy@[k])@ == list@[k]@,
        decreases list.len() - i,
    {
        copy.push(list[i].clone());
        i += 1;
    }
    assert(requirement_views(copy@) =~= requirement_views(list@));
    copy
}

/// A copy of a list of time ranges.
pub fn clone_ranges(list: &Vec<TimeRange>) -> (copy: Vec<TimeRange>)
    ensures
        copy@ == list@,
{
    let mut copy: Vec<TimeRange> = Vec::new();
    let mut i: usize = 0;
    while i < list.len()
        invariant
            i <= list.len(),
            copy@.len() == i,
            forall|k: int| 0 <= k < i ==> #[trigger] copy@[k] == list@[k],
        decreases list.len() - i,
    {
        copy.push(list[i]);
        i += 1;
    }
    assert(copy@ =~= list@);
    copy
}

/// Whether the two lists hold the same requirements in the same order.
pub fn same_requirements(a: &Vec<Requirement>, b: &Vec<Requirement>) -> (same: bool)
    ensures
        same == (requirement_views(a@) == requirement_views(b@)),
{
    if a.len() != b.len() {
        assert(requirement_views(a@).len() != requirement_views(b@).len());
        return false;
    }
    let mut i: usize = 0;
    while i < a.len()
        invariant
            i <= a.len(),
            a.len() == b.len(),
            forall|k: int| 0 <= k < i ==> (#[trigger] a@[k])@ == b@[k]@,
        decreases a.len() - i,
    {
        if !a[i].same_as(&b[i]) {
            assert(requirement_views(a@)[i as int] != requirement_views(b@)[i as int]);
            return false;
        }
        i += 1;
    }
    assert(requirement_views(a@) =~= requirement_views(b@));
    true
}

/// Whether the two lists hold the same time ranges in the same order.
pub fn same_ranges(a: &Vec<TimeRange>, b: &Vec<TimeRange>) -> (same: bool)
    ensures
        same == (a@ == b@),
{
    if a.len() != b.len() {
        return false;
    }
    let mut i: usize = 0;
    while i < a.len()
        invariant
            i <= a.len(),
            a.len() == b.len(),
            forall|k: int| 0 <= k < i ==> #[trigger] a@[k] == b@[k],
        decreases a.len() - i,
    {
        let x = a[i];
        let y = b[i];
        if !(x.id == y.id && same_instant(x.start, y.start) && same_instant(x.end, y.end)) {
            assert(a@[i as int] != b@[i as int]);
            return false;
        }
        i += 1;
    }
    assert(a@ =~= b@);
    true
}

impl Clone for CurrentInfo {
    fn clone(&self) -> (r: CurrentInfo)
        ensures
            r@ == self@,
    {
        CurrentInfo {
            state: self.state,
            until: self.until,
            reason: self.reason,
            locked_time_ranges: clone_ranges(&self.locked_time_ranges),
            requirements: clone_requirements(&self.requirements),
            deactivated_until: self.deactivated_until,
            diagonator_running: self.diagonator_running,
        }
    }
}

impl PartialEq for Requirement {
    fn eq(&self, other: &Requirement) -> (b: bool) {
        self.same_as(other)
    }
}

impl vstd::std_specs::cmp::PartialEqSpecImpl for Requirement {
    open spec fn obeys_eq_spec() -> bool {
        true
    }

    open spec fn eq_spec(&self, other: &Requirement) -> bool {
        self@ == other@
    }
}

impl PartialEq for CurrentInfo {
    fn eq(&self, other: &CurrentInfo) -> (b: bool) {
        self.same_as(other)
    }
}

impl vstd::std_specs::cmp::PartialEqSpecImpl for CurrentInfo {
    open spec fn obeys_eq_spec() -> bool {
        true
    }

    open spec fn eq_spec(&self, other: &CurrentInfo) -> bool {
        self@ == other@
    }
}

impl CurrentInfo {
    /// Whether the two snapshots are the same value.
    pub fn same_as(&self, other: &CurrentInfo) -> (b: bool)
        ensures
            b == (self@ == other@),
    {
        let same_state = match (self.state, other.state) {
            (CurrentState::Unlocked, CurrentState::Unlocked) => true,
            (CurrentState::Locked, CurrentState::Locked) => true,
            (CurrentState::Unlockable, CurrentState::Unlockable) => true,
            _ => false,
        };
        let same_reason = match (self.reason, other.reason) {
            (CurrentStateReason::BreakTimer, CurrentStateReason::BreakTimer) => true,
            (
                CurrentStateReason::RequirementNotMet { id: a },
                CurrentStateReason::RequirementNotMet { id: b },
            ) => a == b,
            (
                CurrentStateReason::LockedTimeRange { id: a },
                CurrentStateReason::LockedTimeRange { id: b },
            ) => a == b,
            (CurrentStateReason::NoConstraints, CurrentStateReason::NoConstraints) => true,
            _ => false,
        };
        same_state && same_reason && same_instant(self.until, other.until) && same_instant(
            self.deactivated_until,
            other.deactivated_until,
        ) && self.diagonator_running == other.diagonator_running && same_ranges(
            &self.locked_time_ranges,
            &other.locked_time_ranges,
        ) && same_requirements(&self.requirements, &other.requirements)
    }
}

/// The constraints of the day: what locks the session, and the override that
/// suspends enforcement.
#[derive(Debug)]
pub struct Constraints {
    pub break_timer: BreakTimerManager,
    pub requirements: Vec<Requirement>,
    pub locked_time_ranges: Vec<TimeRange>,
    pub deactivated_until: Option<Timestamp>,
}

/// What the constraints are, as a value.
pub struct ConstraintsView {
    pub break_timer: BreakTimerManager,
    pub requirements: Seq<RequirementView>,
    pub locked_time_ranges: Seq<TimeRange>,
    pub deactivated_until: Option<Timestamp>,
}

impl View for Constraints {
    type V = ConstraintsView;

    open spec fn view(&self) -> ConstraintsView {
        ConstraintsView {
            break_timer: self.break_timer,
            requirements: requirement_views(self.requirements@),
            locked_time_ranges: self.locked_time_ranges@,
            deactivated_until: self.deactivated_until,
        }
    }
}

/// Whether the requirement locks the session at `t`: it is due and not
/// complete. Nothing but its completion ends that.
pub open spec fn requirement_locks(r: RequirementView, t: Timestamp) -> bool {
    !r.complete && r.due.secs <= t.secs
}

/// The instant from which the range locks: its start, or the beginning of
/// time where it has none.
pub open spec fn range_start(r: TimeRange) -> u64 {
    match r.start {
        Some(s) => s.secs,
        None => 0,
    }
}

/// Whether the range locks the session at `t`: it has started, and its end,
/// if it has one that lies after its start, has not come.
pub open spec fn range_locks(r: TimeRange, t: Timestamp) -> bool {
    &&& range_start(r) <= t.secs
    &&& match r.end {
        Some(e) => e.secs <= range_start(r) || t.secs < e.secs,
        None => true,
    }
}

/// Whether the requirement at index `i` locks the session at `t`.
pub open spec fn requirement_locks_at(reqs: Seq<RequirementView>, i: int, t: Timestamp) -> bool {
    0 <= i < reqs.len() && requirement_locks(reqs[i], t)
}

/// Whether the range at index `i` locks the session at `t`.
pub open spec fn range_locks_at(ranges: Seq<TimeRange>, i: int, t: Timestamp) -> bool {
    0 <= i < ranges.len() && range_locks(ranges[i], t)
}

/// Whether some requirement locks the session at `t`.
pub open spec fn any_requirement_locks(reqs: Seq<RequirementView>, t: Timestamp) -> bool {
    exists|i: int| requirement_locks_at(reqs, i, t)
}

/// Whether some range locks the session at `t`.
pub open spec fn any_range_locks(ranges: Seq<TimeRange>, t: Timestamp) -> bool {
    exists|i: int| range_locks_at(ranges, i, t)
}

/// Whether `i` is the first index of a requirement that locks at `t`.
pub open spec fn is_first_locking_requirement(reqs: Seq<RequirementView>, i: int, t: Timestamp) -> bool {
    &&& requirement_locks_at(reqs, i, t)
    &&& forall|k: int| 0 <= k < i ==> !requirement_locks_at(reqs, k, t)
}

/// Whether `i` is the first index of a range that locks at `t`.
pub open spec fn is_first_locking_range(ranges: Seq<TimeRange>, i: int, t: Timestamp) -> bool {
    &&& range_locks_at(ranges, i, t)
    &&& forall|k: int| 0 <= k < i ==> !range_locks_at(ranges, k, t)
}

/// The first index of a requirement that locks at `t`, where there is one.
pub open spec fn first_locking_requirement(reqs: Seq<RequirementView>, t: Timestamp) -> int {
    choose|i: int| is_first_locking_requirement(reqs, i, t)
}

/// The first index of a range that locks at `t`, where there is one.
pub open spec fn first_locking_range(ranges: Seq<TimeRange>, t: Timestamp) -> int {
    choose|i: int| is_first_locking_range(ranges, i, t)
}

/// Whether the break timer has a trigger at the instant `x`: the end of the
/// running work period, or the beginning of time and the end of the running
/// break.
pub open spec fn timer_trigger_at(timer: BreakTimer, x: u64) -> bool {
    match timer {
        BreakTimer::Unlocked { until } => x == until.secs,
        BreakTimer::Locked { until } => x == 0 || x == until.secs,
        BreakTimer::Unlockable => false,
    }
}

/// Whether the requirement at index `i` has its trigger at the instant `x`.
pub open spec fn requirement_trigger_at(reqs: Seq<RequirementView>, i: int, x: u64) -> bool {
    0 <= i < reqs.len() && !reqs[i].complete && reqs[i].due.secs == x
}

/// Whether the range at index `i` has a trigger at the instant `x`: its start
/// or its end.
pub open spec fn range_trigger_at(ranges: Seq<TimeRange>, i: int, x: u64) -> bool {
    0 <= i < ranges.len() && (range_start(ranges[i]) == x || ranges[i].end == Some(Timestamp { secs: x }))
}

impl ConstraintsView {
    /// The constraints as they are once looked at at `t`: the timer is brought
    /// up to `t`, and an override that has run out is gone.
    pub open spec fn observed(self, t: Timestamp) -> ConstraintsView {
        ConstraintsView {
            break_timer: self.break_timer.refreshed(t),
            requirements: self.requirements,
            locked_time_ranges: self.locked_time_ranges,
            deactivated_until: match self.deactivated_until {
                Some(du) if t.secs >= du.secs => None,
                other => other,
            },
        }
    }

    /// The state at `t`: locked by a requirement or a range that locks, and
    /// else what the break timer's phase allows.
    pub open spec fn state_at(self, t: Timestamp) -> CurrentState {
        if any_requirement_locks(self.requirements, t) || any_range_locks(self.locked_time_ranges, t) {
            CurrentState::Locked
        } else {
            match self.break_timer.timer {
                BreakTimer::Locked { .. } => CurrentState::Locked,
                BreakTimer::Unlocked { .. } => CurrentState::Unlocked,
                BreakTimer::Unlockable => CurrentState::Unlockable,
            }
        }
    }

    /// The reason at `t`: the first requirement that locks; failing that the
    /// first range that locks; failing that the break, if one is running.
    pub open spec fn reason_at(self, t: Timestamp) -> CurrentStateReason {
        if any_requirement_locks(self.requirements, t) {
            CurrentStateReason::RequirementNotMet {
                id: self.requirements[first_locking_requirement(self.requirements, t)].id,
            }
        } else if any_range_locks(self.locked_time_ranges, t) {
            CurrentStateReason::LockedTimeRange {
                id: self.locked_time_ranges[first_locking_range(self.locked_time_ranges, t)].id,
            }
        } else {
            match self.break_timer.timer {
                BreakTimer::Locked { .. } => CurrentStateReason::BreakTimer,
                _ => CurrentStateReason::NoConstraints,
            }
        }
    }

    /// Whether some trigger stands at the instant `x`.
    pub open spec fn trigger_at(self, x: u64) -> bool {
        ||| exists|i: int| requirement_trigger_at(self.requirements, i, x)
        ||| exists|i: int| range_trigger_at(self.locked_time_ranges, i, x)
        ||| timer_trigger_at(self.break_timer.timer, x)
    }

    /// Whether `until` is the time of the next trigger after `t`: the smallest
    /// trigger time strictly greater than `t`, or nothing where there is none.
    pub open spec fn is_next_trigger(self, t: Timestamp, until: Option<Timestamp>) -> bool {
        match until {
            Some(u) => {
                &&& t.secs < u.secs
                &&& self.trigger_at(u.secs)
                &&& forall|x: u64| #[trigger] self.trigger_at(x) && t.secs < x ==> u.secs <= x
            },
            None => forall|x: u64| #[trigger] self.trigger_at(x) ==> x <= t.secs,
        }
    }

    /// The time of the next trigger after `t`.
    pub open spec fn next_trigger(self, t: Timestamp) -> Option<Timestamp> {
        choose|until: Option<Timestamp>| self.is_next_trigger(t, until)
    }

    /// Whether the session is being enforced at `t`: it is, unless a work
    /// period is running or an override is in force.
    pub open spec fn enforcing_at(self, t: Timestamp) -> bool {
        !(self.state_at(t) == CurrentState::Unlocked || self.deactivated_until.is_some())
    }

    /// The snapshot of constraints that need no refreshing at `t`.
    pub open spec fn settled_snapshot(self, t: Timestamp) -> CurrentInfoView {
        CurrentInfoView {
            state: self.state_at(t),
            until: self.next_trigger(t),
            reason: self.reason_at(t),
            locked_time_ranges: self.locked_time_ranges,
            requirements: self.requirements,
            deactivated_until: self.deactivated_until,
            diagonator_running: self.enforcing_at(t),
        }
    }

    /// The snapshot at `t`.
    pub open spec fn snapshot(self, t: Timestamp) -> CurrentInfoView {
        self.observed(t).settled_snapshot(t)
    }

    /// Whether no two ranges share an id.
    pub open spec fn distinct_range_ids(self) -> bool {
        forall|i: int, j: int|
            0 <= i < j < self.locked_time_ranges.len() ==> self.locked_time_ranges[i].id
                != self.locked_time_ranges[j].id
    }
}

/// There is one first requirement that locks.
pub proof fn lemma_first_locking_requirement(reqs: Seq<RequirementView>, i: int, t: Timestamp)
    requires
        is_first_locking_requirement(reqs, i, t),
    ensures
        first_locking_requirement(reqs, t) == i,
        any_requirement_locks(reqs, t),
{
    let j = first_locking_requirement(reqs, t);
    assert(is_first_locking_requirement(reqs, j, t));
    if j < i {
        assert(!requirement_locks_at(reqs, j, t));
    }
    if i < j {
        assert(!requirement_locks_at(reqs, i, t));
    }
}

/// There is one first range that locks.
pub proof fn lemma_first_locking_range(ranges: Seq<TimeRange>, i: int, t: Timestamp)
    requires
        is_first_locking_range(ranges, i, t),
    ensures
        first_locking_range(ranges, t) == i,
        any_range_locks(ranges, t),
{
    let j = first_locking_range(ranges, t);
    assert(is_first_locking_range(ranges, j, t));
    if j < i {
        assert(!range_locks_at(ranges, j, t));
    }
    if i < j {
        assert(!range_locks_at(ranges, i, t));
    }
}

/// There is one time of the next trigger.
pub proof fn lemma_next_trigger(c: ConstraintsView, t: Timestamp, until: Option<Timestamp>)
    requires
        c.is_next_trigger(t, until),
    ensures
        c.next_trigger(t) == until,
{
    let other = c.next_trigger(t);
    assert(c.is_next_trigger(t, other));
    match (until, other) {
        (Some(u), Some(v)) => {
            assert(c.trigger_at(u.secs));
            assert(c.trigger_at(v.secs));
            assert(u.secs == v.secs);
        },
        (Some(u), None) => {
            assert(c.trigger_at(u.secs));
        },
        (None, Some(v)) => {
            assert(c.trigger_at(v.secs));
        },
        (None, None) => {},
    }
}

/// The decimal digit `d` as a character.
pub open spec fn digit_char(d: nat) -> char {
    if d == 0 {
        '0'
    } else if d == 1 {
        '1'
    } else if d == 2 {
        '2'
    } else if d == 3 {
        '3'
    } else if d == 4 {
        '4'
    } else if d == 5 {
        '5'
    } else if d == 6 {
        '6'
    } else if d == 7 {
        '7'
    } else if d == 8 {
        '8'
    } else {
        '9'
    }
}

/// The number `n` written in decimal, without sign or leading zeros.
pub open spec fn decimal_digits(n: nat) -> Seq<char>
    decreases n,
{
    if n < 10 {
        seq![digit_char(n)]
    } else {
        decimal_digits(n / 10).push(digit_char(n % 10))
    }
}

/// What completing answers for an id that no requirement has.
pub open spec fn requirement_not_found_message(id: u64) -> Seq<char> {
    "Requirement "@ + decimal_digits(id as nat) + " not found."@
}

/// What completing answers for a requirement that is complete already.
pub open spec fn requirement_already_complete_message(id: u64) -> Seq<char> {
    "Requirement "@ + decimal_digits(id as nat) + " has already been completed."@
}

/// Formats the answer for an unknown id with std's `format!`, which writes a
/// `u64` through its `Display` impl: in decimal, without sign or padding. The
/// contract claims that the text is the fixed words around those digits.
#[verifier::external_body]
fn not_found_text(id: u64) -> (msg: String)
    ensures
        msg@ == requirement_not_found_message(id),
{
    format!("Requirement {} not found.", id)
}

/// Formats the answer for a completed requirement with std's `format!`, which
/// writes a `u64` through its `Display` impl: in decimal, without sign or
/// padding. The contract claims that the text is the fixed words around those
/// digits.
#[verifier::external_body]
fn already_complete_text(id: u64) -> (msg: String)
    ensures
        msg@ == requirement_already_complete_message(id),
{
    format!("Requirement {} has already been completed.", id)
}

/// How an attempt to complete a requirement ends.
pub enum Completion {
    /// The requirement was incomplete and is now complete.
    Done,
    /// No requirement has the id.
    NotFound,
    /// The requirement was complete already.
    AlreadyComplete,
}

/// Whether the requirement at index `i` has the id.
pub open spec fn has_id_at(reqs: Seq<RequirementView>, i: int, id: u64) -> bool {
    0 <= i < reqs.len() && reqs[i].id == id
}

/// Whether `i` is the first index of a requirement with the id.
pub open spec fn is_first_with_id(reqs: Seq<RequirementView>, i: int, id: u64) -> bool {
    &&& has_id_at(reqs, i, id)
    &&& forall|k: int| 0 <= k < i ==> !has_id_at(reqs, k, id)
}

/// The first index of a requirement with the id, where there is one.
pub open spec fn first_with_id(reqs: Seq<RequirementView>, id: u64) -> int {
    choose|i: int| is_first_with_id(reqs, i, id)
}

/// The requirement, completed.
pub open spec fn completed(r: RequirementView) -> RequirementView {
    RequirementView { id: r.id, name: r.name, due: r.due, complete: true }
}

impl ConstraintsView {
    /// Whether some requirement has the id.
    pub open spec fn has_requirement(self, id: u64) -> bool {
        exists|i: int| has_id_at(self.requirements, i, id)
    }

    /// How an attempt to complete the requirement `id` ends.
    pub open spec fn completion(self, id: u64) -> Completion {
        if !self.has_requirement(id) {
            Completion::NotFound
        } else if self.requirements[first_with_id(self.requirements, id)].complete {
            Completion::AlreadyComplete
        } else {
            Completion::Done
        }
    }

    /// The constraints after an attempt to complete the requirement `id`: the
    /// requirement is complete if the attempt succeeds, and nothing changes if
    /// it fails.
    pub open spec fn after_completing(self, id: u64) -> ConstraintsView {
        if self.completion(id) is Done {
            let i = first_with_id(self.requirements, id);
            ConstraintsView {
                break_timer: self.break_timer,
                requirements: self.requirements.update(i, completed(self.requirements[i])),
                locked_time_ranges: self.locked_time_ranges,
                deactivated_until: self.deactivated_until,
            }
        } else {
            self
        }
    }
}

/// There is one first requirement with an id.
pub proof fn lemma_first_with_id(reqs: Seq<RequirementView>, i: int, id: u64)
    requires
        is_first_with_id(reqs, i, id),
    ensures
        first_with_id(reqs, id) == i,
{
    let j = first_with_id(reqs, id);
    assert(is_first_with_id(reqs, j, id));
    if j < i {
        assert(!has_id_at(reqs, j, id));
    }
    if i < j {
        assert(!has_id_at(reqs, i, id));
    }
}

/// Where a requirement has an id, one of them is the first to have it.
pub proof fn lemma_some_is_first_with_id(reqs: Seq<RequirementView>, i: int, id: u64)
    requires
        has_id_at(reqs, i, id),
    ensures
        exists|k: int| is_first_with_id(reqs, k, id),
    decreases i,
{
    if exists|k: int| 0 <= k < i && has_id_at(reqs, k, id) {
        let k = choose|k: int| 0 <= k < i && has_id_at(reqs, k, id);
        lemma_some_is_first_with_id(reqs, k, id);
    } else {
        assert(is_first_with_id(reqs, i, id));
    }
}

impl Constraints {
    /// Brings the constraints up to `current_time` and takes their snapshot:
    /// the triggers of every source are gathered, requirements first, then
    /// ranges, then the break timer, and the state is read off them.
    pub fn get_current_info(&mut self, current_time: Timestamp) -> (info: CurrentInfo)
        requires
            old(self)@.distinct_range_ids(),
        ensures
            final(self)@ == old(self)@.observed(current_time),
            info@ == old(self)@.snapshot(current_time),
    {
        self.break_timer.refresh(current_time);
        if let Some(du) = self.deactivated_until {
            if current_time.secs >= du.secs {
                self.deactivated_until = None;
            }
        }
        assert(self@ == old(self)@.observed(current_time));
        proof {
            lemma_refresh_settles(old(self).break_timer, current_time);
        }
        let ghost reqs = self@.requirements;
        let ghost ranges = self@.locked_time_ranges;
        let mut simulator = Simulator::new();
        let ghost mut a = RequirementPart::empty();
        let mut i: usize = 0;
        while i < self.requirements.len()
            invariant
                i <= self.requirements.len(),
                reqs == requirement_views(self.requirements@),
                simulator@ == a.triggers,
                a.covers(reqs, i as int),
            decreases self.requirements.len() - i,
        {
            let requirement = &self.requirements[i];
            proof {
                lemma_requirement_part_grows(a, reqs, i as int);
                a = a.with(reqs[i as int]);
            }
            if !requirement.complete {
                simulator.push(
                    StateChange { kind: StateChangeKind::RequirementLocked(requirement.id), time: requirement.due },
                );
            }
            i += 1;
        }
        let ghost mut b = RangePart::empty();
        let mut j: usize = 0;
        while j < self.locked_time_ranges.len()
            invariant
                j <= self.locked_time_ranges.len(),
                ranges == self.locked_time_ranges@,
                simulator@ == a.triggers + b.triggers,
                b.covers(ranges, j as int),
            decreases self.locked_time_ranges.len() - j,
        {
            let ltr = self.locked_time_ranges[j];
            proof {
                lemma_range_part_grows(b, ranges, j as int);
                b = b.with(ranges[j as int]);
            }
            let start = match ltr.start {
                Some(s) => s,
                None => Timestamp::zero(),
            };
            simulator.push(StateChange { kind: StateChangeKind::RangeLocked(ltr.id), time: start });
            if let Some(ltr_end) = ltr.end {
                simulator.push(StateChange { kind: StateChangeKind::RangeUnlocked(ltr.id), time: ltr_end });
            }
            assert(simulator@ =~= a.triggers + b.triggers);
            j += 1;
        }
        match self.break_timer.timer {
            BreakTimer::Unlocked { until } => {
                simulator.push(StateChange { kind: StateChangeKind::BreakTimerLocked, time: until });
            },
            BreakTimer::Locked { until } => {
                simulator.push(StateChange { kind: StateChangeKind::BreakTimerLocked, time: Timestamp::zero() });
                simulator.push(StateChange { kind: StateChangeKind::BreakTimerUnlockable, time: until });
            },
            BreakTimer::Unlockable => {},
        }
        assert(simulator@ =~= whole_list(a, b, self.break_timer.timer));
        let result = simulator.run(current_time);
        proof {
            lemma_triggers_give_state(self@, a, b, current_time, result);
        }
        let diagonator_running = !(matches!(result.target_state, CurrentState::Unlocked)
            || self.deactivated_until.is_some());
        CurrentInfo {
            state: result.target_state,
            until: result.until,
            reason: result.reason,
            locked_time_ranges: clone_ranges(&self.locked_time_ranges),
            requirements: clone_requirements(&self.requirements),
            deactivated_until: self.deactivated_until,
            diagonator_running,
        }
    }

    /// Marks the first requirement with the id complete. Fails, changing
    /// nothing, if no requirement has the id or if that requirement is
    /// complete already.
    pub fn complete_requirement(&mut self, id: u64) -> (r: Result<(), String>)
        ensures
            final(self)@ == old(self)@.after_completing(id),
            r.is_ok() <==> old(self)@.completion(id) is Done,
            old(self)@.completion(id) is NotFound ==> r.is_err() && r.unwrap_err()@
                == requirement_not_found_message(id),
            old(self)@.completion(id) is AlreadyComplete ==> r.is_err() && r.unwrap_err()@
                == requirement_already_complete_message(id),
    {
        let ghost reqs = self@.requirements;
        let mut i: usize = 0;
        while i < self.requirements.len()
            invariant
                i <= self.requirements.len(),
                *self == *old(self),
                reqs == self@.requirements,
                forall|k: int| 0 <= k < i ==> !has_id_at(reqs, k, id),
            decreases self.requirements.len() - i,
        {
            if self.requirements[i].id == id {
                proof {
                    assert(is_first_with_id(reqs, i as int, id));
                    lemma_first_with_id(reqs, i as int, id);
                }
                if !self.requirements[i].complete {
                    self.requirements[i].complete = true;
                    assert(self@.requirements =~= reqs.update(i as int, completed(reqs[i as int])));
                    return Ok(());
                } else {
                    return Err(already_complete_text(id));
                }
            }
            i += 1;
        }
        Err(not_found_text(id))
    }
}

/// The reason of a snapshot is one that its state can carry: a locked
/// session names what locks it, and no other state names a lock.
pub proof fn lemma_reason_fits_state(c: ConstraintsView, t: Timestamp)
    ensures
        reason_fits(c.snapshot(t).state, c.snapshot(t).reason),
{
}

/// A requirement that is due and not complete locks the session, whatever the
/// ranges and the break timer say; the reason names that requirement or one
/// that stands before it and locks too.
pub proof fn lemma_due_requirement_locks(c: ConstraintsView, t: Timestamp, i: int)
    requires
        0 <= i < c.requirements.len(),
        !c.requirements[i].complete,
        c.requirements[i].due.secs <= t.secs,
    ensures
        c.snapshot(t).state == CurrentState::Locked,
        exists|k: int|
            0 <= k <= i && #[trigger] requirement_locks_at(c.requirements, k, t) && c.snapshot(t).reason == (
            CurrentStateReason::RequirementNotMet { id: c.requirements[k].id }),
{
    let reqs = c.requirements;
    assert(requirement_locks_at(reqs, i, t));
    let k = first_locking_requirement(reqs, t);
    lemma_some_requirement_is_first(reqs, t, i);
    assert(is_first_locking_requirement(reqs, k, t));
    if i < k {
        assert(!requirement_locks_at(reqs, i, t));
    }
    assert(requirement_locks_at(reqs, k, t));
}

/// Where a requirement locks, one of them is the first to do so.
pub proof fn lemma_some_requirement_is_first(reqs: Seq<RequirementView>, t: Timestamp, i: int)
    requires
        requirement_locks_at(reqs, i, t),
    ensures
        exists|k: int| is_first_locking_requirement(reqs, k, t),
    decreases i,
{
    if exists|k: int| 0 <= k < i && requirement_locks_at(reqs, k, t) {
        let k = choose|k: int| 0 <= k < i && requirement_locks_at(reqs, k, t);
        lemma_some_requirement_is_first(reqs, t, k);
    } else {
        assert(is_first_locking_requirement(reqs, i, t));
    }
}

/// Where a range locks, one of them is the first to do so.
pub proof fn lemma_some_range_is_first(ranges: Seq<TimeRange>, t: Timestamp, i: int)
    requires
        range_locks_at(ranges, i, t),
    ensures
        exists|k: int| is_first_locking_range(ranges, k, t),
    decreases i,
{
    if exists|k: int| 0 <= k < i && range_locks_at(ranges, k, t) {
        let k = choose|k: int| 0 <= k < i && range_locks_at(ranges, k, t);
        lemma_some_range_is_first(ranges, t, k);
    } else {
        assert(is_first_locking_range(ranges, i, t));
    }
}

/// While no requirement locks, an instant inside a range, from its start up
/// to its end and with a missing bound open, is locked by a range; the reason
/// names that range or one that stands before it and locks too.
pub proof fn lemma_inside_range_locks(c: ConstraintsView, t: Timestamp, i: int)
    requires
        !any_requirement_locks(c.requirements, t),
        0 <= i < c.locked_time_ranges.len(),
        range_start(c.locked_time_ranges[i]) <= t.secs,
        c.locked_time_ranges[i].end.is_some() ==> t.secs < c.locked_time_ranges[i].end.unwrap().secs,
    ensures
        c.snapshot(t).state == CurrentState::Locked,
        exists|k: int|
            0 <= k <= i && #[trigger] range_locks_at(c.locked_time_ranges, k, t) && c.snapshot(t).reason == (
            CurrentStateReason::LockedTimeRange { id: c.locked_time_ranges[k].id }),
{
    let ranges = c.locked_time_ranges;
    assert(range_locks_at(ranges, i, t));
    let k = first_locking_range(ranges, t);
    lemma_some_range_is_first(ranges, t, i);
    assert(is_first_locking_range(ranges, k, t));
    if i < k {
        assert(!range_locks_at(ranges, i, t));
    }
    assert(range_locks_at(ranges, k, t));
}

} // verus!
