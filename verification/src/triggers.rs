//! How the triggers of a query stand for the constraints they were built
//! from, and why reading the state off the triggers gives the state of the
//! constraints.

use vstd::prelude::*;
use crate::break_timer::{settled, BreakTimer};
use crate::constraints::{
    any_range_locks, any_requirement_locks, is_first_locking_range, is_first_locking_requirement,
    lemma_first_locking_range, lemma_first_locking_requirement, lemma_next_trigger, range_locks_at,
    range_start, range_trigger_at, requirement_locks_at, requirement_trigger_at, ConstraintsView,
    RequirementView, TimeRange,
};
use crate::simulator::{
    closes, first_holding, has_trigger_at, holds_for, lock_holds, pending_at, reason_of, resolves_to,
    source_active, timer_lock_pending, SimulationResult, Source, StateChange, StateChangeKind,
};
use crate::time::Timestamp;

verus! {

/// The trigger of an incomplete requirement: it locks from its due instant.
pub open spec fn requirement_trigger(r: RequirementView) -> StateChange {
    StateChange { kind: StateChangeKind::RequirementLocked(r.id), time: r.due }
}

/// The first trigger of a range: it locks from its start.
pub open spec fn range_lock_trigger(g: TimeRange) -> StateChange {
    StateChange { kind: StateChangeKind::RangeLocked(g.id), time: Timestamp { secs: range_start(g) } }
}

/// The second trigger of a range that has an end: it unlocks there.
pub open spec fn range_unlock_trigger(g: TimeRange) -> StateChange {
    StateChange { kind: StateChangeKind::RangeUnlocked(g.id), time: g.end.unwrap() }
}

/// The triggers of the break timer. A running work period locks at its end;
/// a running break locks from the beginning of time and unlocks at its end;
/// a timer with no period running has none.
pub open spec fn timer_triggers(timer: BreakTimer) -> Seq<StateChange> {
    match timer {
        BreakTimer::Unlocked { until } => seq![
            StateChange { kind: StateChangeKind::BreakTimerLocked, time: until },
        ],
        BreakTimer::Locked { until } => seq![
            StateChange { kind: StateChangeKind::BreakTimerLocked, time: Timestamp { secs: 0 } },
            StateChange { kind: StateChangeKind::BreakTimerUnlockable, time: until },
        ],
        BreakTimer::Unlockable => Seq::empty(),
    }
}

/// The triggers of the requirements, with the index of the requirement that
/// each came from and the place of each requirement's trigger.
pub struct RequirementPart {
    pub triggers: Seq<StateChange>,
    pub origin: Seq<int>,
    pub slot: Seq<int>,
}

/// The triggers of the ranges, with the index of the range that each came
/// from and the places of each range's triggers.
pub struct RangePart {
    pub triggers: Seq<StateChange>,
    pub origin: Seq<int>,
    pub lock_slot: Seq<int>,
    pub unlock_slot: Seq<int>,
}

impl RequirementPart {
    /// The part before any requirement was looked at.
    pub open spec fn empty() -> RequirementPart {
        RequirementPart { triggers: Seq::empty(), origin: Seq::empty(), slot: Seq::empty() }
    }

    /// The part after one more requirement was looked at.
    pub open spec fn with(self, r: RequirementView) -> RequirementPart {
        if r.complete {
            RequirementPart { triggers: self.triggers, origin: self.origin, slot: self.slot.push(-1) }
        } else {
            RequirementPart {
                triggers: self.triggers.push(requirement_trigger(r)),
                origin: self.origin.push(self.slot.len() as int),
                slot: self.slot.push(self.triggers.len() as int),
            }
        }
    }

    /// Whether the part holds, in their order, the triggers of the incomplete
    /// ones among the first `n` requirements, and nothing else.
    pub open spec fn covers(self, reqs: Seq<RequirementView>, n: int) -> bool {
        &&& 0 <= n <= reqs.len()
        &&& self.origin.len() == self.triggers.len()
        &&& self.slot.len() == n
        &&& forall|k: int|
            0 <= k < self.triggers.len() ==> {
                &&& 0 <= #[trigger] self.origin[k] < n
                &&& !reqs[self.origin[k]].complete
                &&& self.triggers[k] == requirement_trigger(reqs[self.origin[k]])
                &&& self.slot[self.origin[k]] == k
            }
        &&& forall|i: int|
            0 <= i < n && !reqs[i].complete ==> {
                &&& 0 <= #[trigger] self.slot[i] < self.triggers.len()
                &&& self.origin[self.slot[i]] == i
            }
        &&& forall|k1: int, k2: int|
            0 <= k1 < k2 < self.triggers.len() ==> #[trigger] self.origin[k1] < #[trigger] self.origin[k2]
    }
}

impl RangePart {
    /// The part before any range was looked at.
    pub open spec fn empty() -> RangePart {
        RangePart {
            triggers: Seq::empty(),
            origin: Seq::empty(),
            lock_slot: Seq::empty(),
            unlock_slot: Seq::empty(),
        }
    }

    /// The part after one more range was looked at.
    pub open spec fn with(self, g: TimeRange) -> RangePart {
        if g.end.is_some() {
            RangePart {
                triggers: self.triggers.push(range_lock_trigger(g)).push(range_unlock_trigger(g)),
                origin: self.origin.push(self.lock_slot.len() as int).push(self.lock_slot.len() as int),
                lock_slot: self.lock_slot.push(self.triggers.len() as int),
                unlock_slot: self.unlock_slot.push(self.triggers.len() as int + 1),
            }
        } else {
            RangePart {
                triggers: self.triggers.push(range_lock_trigger(g)),
                origin: self.origin.push(self.lock_slot.len() as int),
                lock_slot: self.lock_slot.push(self.triggers.len() as int),
                unlock_slot: self.unlock_slot.push(-1),
            }
        }
    }

    /// Whether the part holds, in their order, the triggers of the first `n`
    /// ranges, and nothing else.
    pub open spec fn covers(self, ranges: Seq<TimeRange>, n: int) -> bool {
        &&& 0 <= n <= ranges.len()
        &&& self.origin.len() == self.triggers.len()
        &&& self.lock_slot.len() == n
        &&& self.unlock_slot.len() == n
        &&& forall|k: int|
            0 <= k < self.triggers.len() ==> {
                &&& 0 <= #[trigger] self.origin[k] < n
                &&& {
                    ||| self.lock_slot[self.origin[k]] == k && self.triggers[k] == range_lock_trigger(
                        ranges[self.origin[k]],
                    )
                    ||| self.unlock_slot[self.origin[k]] == k && ranges[self.origin[k]].end.is_some()
                        && self.triggers[k] == range_unlock_trigger(ranges[self.origin[k]])
                }
            }
        &&& forall|j: int|
            0 <= j < n ==> {
                &&& 0 <= #[trigger] self.lock_slot[j] < self.triggers.len()
                &&& self.origin[self.lock_slot[j]] == j
                &&& self.triggers[self.lock_slot[j]] == range_lock_trigger(ranges[j])
            }
        &&& forall|j: int|
            0 <= j < n && ranges[j].end.is_some() ==> {
                &&& 0 <= #[trigger] self.unlock_slot[j] < self.triggers.len()
                &&& self.origin[self.unlock_slot[j]] == j
                &&& self.triggers[self.unlock_slot[j]] == range_unlock_trigger(ranges[j])
            }
        &&& forall|j1: int, j2: int|
            0 <= j1 < j2 < n ==> #[trigger] self.lock_slot[j1] < #[trigger] self.lock_slot[j2]
    }
}

/// Looking at one more requirement keeps the part in step with the list.
pub proof fn lemma_requirement_part_grows(part: RequirementPart, reqs: Seq<RequirementView>, n: int)
    requires
        part.covers(reqs, n),
        n < reqs.len(),
    ensures
        part.with(reqs[n]).covers(reqs, n + 1),
{
    let next = part.with(reqs[n]);
    assert forall|k: int| 0 <= k < next.triggers.len() implies {
        &&& 0 <= #[trigger] next.origin[k] < n + 1
        &&& !reqs[next.origin[k]].complete
        &&& next.triggers[k] == requirement_trigger(reqs[next.origin[k]])
        &&& next.slot[next.origin[k]] == k
    } by {
        if k < part.triggers.len() {
            assert(next.origin[k] == part.origin[k]);
        }
    }
    assert forall|i: int| 0 <= i < n + 1 && !reqs[i].complete implies {
        &&& 0 <= #[trigger] next.slot[i] < next.triggers.len()
        &&& next.origin[next.slot[i]] == i
    } by {
        if i < n {
            assert(next.slot[i] == part.slot[i]);
        }
    }
    assert forall|k1: int, k2: int| 0 <= k1 < k2 < next.triggers.len() implies #[trigger] next.origin[k1]
        < #[trigger] next.origin[k2] by {
        if k2 < part.triggers.len() {
            assert(next.origin[k1] == part.origin[k1]);
            assert(next.origin[k2] == part.origin[k2]);
        } else {
            assert(next.origin[k1] == part.origin[k1]);
        }
    }
}

/// Looking at one more range keeps the part in step with the list.
pub proof fn lemma_range_part_grows(part: RangePart, ranges: Seq<TimeRange>, n: int)
    requires
        part.covers(ranges, n),
        n < ranges.len(),
    ensures
        part.with(ranges[n]).covers(ranges, n + 1),
{
    let next = part.with(ranges[n]);
    let old_len = part.triggers.len() as int;
    assert forall|k: int| 0 <= k < next.triggers.len() implies {
        &&& 0 <= #[trigger] next.origin[k] < n + 1
        &&& {
            ||| next.lock_slot[next.origin[k]] == k && next.triggers[k] == range_lock_trigger(
                ranges[next.origin[k]],
            )
            ||| next.unlock_slot[next.origin[k]] == k && ranges[next.origin[k]].end.is_some()
                && next.triggers[k] == range_unlock_trigger(ranges[next.origin[k]])
        }
    } by {
        if k < old_len {
            assert(next.origin[k] == part.origin[k]);
            assert(next.triggers[k] == part.triggers[k]);
        }
    }
    assert forall|j: int| 0 <= j < n + 1 implies {
        &&& 0 <= #[trigger] next.lock_slot[j] < next.triggers.len()
        &&& next.origin[next.lock_slot[j]] == j
        &&& next.triggers[next.lock_slot[j]] == range_lock_trigger(ranges[j])
    } by {
        if j < n {
            assert(next.lock_slot[j] == part.lock_slot[j]);
        }
    }
    assert forall|j: int| 0 <= j < n + 1 && ranges[j].end.is_some() implies {
        &&& 0 <= #[trigger] next.unlock_slot[j] < next.triggers.len()
        &&& next.origin[next.unlock_slot[j]] == j
        &&& next.triggers[next.unlock_slot[j]] == range_unlock_trigger(ranges[j])
    } by {
        if j < n {
            assert(next.unlock_slot[j] == part.unlock_slot[j]);
        }
    }
    assert forall|j1: int, j2: int| 0 <= j1 < j2 < n + 1 implies #[trigger] next.lock_slot[j1]
        < #[trigger] next.lock_slot[j2] by {
        assert(next.lock_slot[j1] == part.lock_slot[j1]);
        if j2 < n {
            assert(next.lock_slot[j2] == part.lock_slot[j2]);
        }
    }
}

/// The whole list of a query: the triggers of the requirements, then those of
/// the ranges, then those of the break timer.
pub open spec fn whole_list(a: RequirementPart, b: RangePart, timer: BreakTimer) -> Seq<StateChange> {
    a.triggers + b.triggers + timer_triggers(timer)
}

/// Whether the two parts cover the requirements and ranges of `c`.
pub open spec fn parts_cover(c: ConstraintsView, a: RequirementPart, b: RangePart) -> bool {
    &&& a.covers(c.requirements, c.requirements.len() as int)
    &&& b.covers(c.locked_time_ranges, c.locked_time_ranges.len() as int)
}

/// Where each trigger of the whole list comes from.
proof fn lemma_layout(c: ConstraintsView, a: RequirementPart, b: RangePart)
    requires
        parts_cover(c, a, b),
    ensures
        ({
            let s = whole_list(a, b, c.break_timer.timer);
            let d = timer_triggers(c.break_timer.timer);
            let na = a.triggers.len() as int;
            let nb = b.triggers.len() as int;
            &&& s.len() == na + nb + d.len()
            &&& forall|k: int| 0 <= k < na ==> #[trigger] s[k] == a.triggers[k]
            &&& forall|k: int| na <= k < na + nb ==> #[trigger] s[k] == b.triggers[k - na]
            &&& forall|k: int| na + nb <= k < s.len() ==> #[trigger] s[k] == d[k - na - nb]
            &&& forall|k: int| 0 <= k < na ==> (#[trigger] s[k]).kind is RequirementLocked
            &&& forall|k: int|
                na <= k < na + nb ==> ((#[trigger] s[k]).kind is RangeLocked || s[k].kind is RangeUnlocked)
            &&& forall|k: int|
                na + nb <= k < s.len() ==> ((#[trigger] s[k]).kind is BreakTimerLocked
                    || s[k].kind is BreakTimerUnlockable)
        }),
{
    let s = whole_list(a, b, c.break_timer.timer);
    let na = a.triggers.len() as int;
    let nb = b.triggers.len() as int;
    assert forall|k: int| 0 <= k < na implies (#[trigger] s[k]).kind is RequirementLocked by {
        assert(s[k] == a.triggers[k]);
        assert(0 <= a.origin[k]);
    }
    assert forall|k: int| na <= k < na + nb implies ((#[trigger] s[k]).kind is RangeLocked
        || s[k].kind is RangeUnlocked) by {
        assert(s[k] == b.triggers[k - na]);
        assert(0 <= b.origin[k - na]);
    }
}

/// A requirement's trigger holds at `t` exactly if the requirement locks.
proof fn lemma_requirement_trigger_holds(c: ConstraintsView, a: RequirementPart, b: RangePart, t: Timestamp, k: int)
    requires
        parts_cover(c, a, b),
        0 <= k < a.triggers.len(),
    ensures
        holds_for(whole_list(a, b, c.break_timer.timer), Source::Requirement, k, t)
            <==> requirement_locks_at(c.requirements, a.origin[k], t),
{
    lemma_layout(c, a, b);
    let s = whole_list(a, b, c.break_timer.timer);
    assert(s[k] == a.triggers[k]);
    assert(0 <= a.origin[k]);
    assert forall|j: int| 0 <= j < s.len() implies !#[trigger] closes(s[k], s[j]) by {}
}

/// A range's lock trigger holds at `t` exactly if the range locks; its unlock
/// trigger never holds.
proof fn lemma_range_trigger_holds(c: ConstraintsView, a: RequirementPart, b: RangePart, t: Timestamp, k: int)
    requires
        parts_cover(c, a, b),
        c.distinct_range_ids(),
        0 <= k < b.triggers.len(),
    ensures
        holds_for(whole_list(a, b, c.break_timer.timer), Source::Range, a.triggers.len() + k, t) <==> (
        b.lock_slot[b.origin[k]] == k && range_locks_at(c.locked_time_ranges, b.origin[k], t)),
{
    lemma_layout(c, a, b);
    let s = whole_list(a, b, c.break_timer.timer);
    let ranges = c.locked_time_ranges;
    let na = a.triggers.len() as int;
    let nb = b.triggers.len() as int;
    let o = b.origin[k];
    assert(0 <= o < ranges.len());
    assert(s[na + k] == b.triggers[k]);
    let g = ranges[o];
    if b.lock_slot[o] == k {
        assert(b.triggers[b.lock_slot[o]] == range_lock_trigger(g));
        if range_locks_at(ranges, o, t) {
            assert forall|j: int| 0 <= j < s.len() && #[trigger] closes(s[na + k], s[j]) implies t.secs
                < s[j].time.secs by {
                assert(s[j].kind is RangeUnlocked);
                assert(na <= j < na + nb);
                let j2 = j - na;
                assert(s[j] == b.triggers[j2]);
                let o2 = b.origin[j2];
                assert(0 <= o2 < ranges.len());
                assert(b.triggers[j2] == range_unlock_trigger(ranges[o2]));
                assert(ranges[o2].id == g.id);
                if o2 < o {
                    assert(ranges[o2].id != ranges[o].id);
                }
                if o < o2 {
                    assert(ranges[o].id != ranges[o2].id);
                }
                assert(o2 == o);
            }
            assert(lock_holds(s, na + k, t));
        }
        if lock_holds(s, na + k, t) {
            if let Some(e) = g.end {
                if range_start(g) < e.secs {
                    let u = b.unlock_slot[o];
                    assert(0 <= u < nb);
                    assert(s[na + u] == b.triggers[u]);
                    assert(b.triggers[u] == range_unlock_trigger(g));
                    assert(closes(s[na + k], s[na + u]));
                }
            }
            assert(range_locks_at(ranges, o, t));
        }
    } else {
        assert(b.unlock_slot[o] == k);
        assert(b.triggers[k] == range_unlock_trigger(g));
    }
}

/// The requirements are active in the list exactly if one of them locks, and
/// the first trigger that holds is that of the first requirement that locks.
proof fn lemma_requirement_source(c: ConstraintsView, a: RequirementPart, b: RangePart, t: Timestamp)
    requires
        parts_cover(c, a, b),
    ensures
        source_active(whole_list(a, b, c.break_timer.timer), Source::Requirement, t)
            <==> any_requirement_locks(c.requirements, t),
        forall|k: int| #[trigger]
            first_holding(whole_list(a, b, c.break_timer.timer), Source::Requirement, k, t) ==> {
                &&& 0 <= k < a.triggers.len()
                &&& is_first_locking_requirement(c.requirements, a.origin[k], t)
            },
{
    lemma_layout(c, a, b);
    let s = whole_list(a, b, c.break_timer.timer);
    let reqs = c.requirements;
    let na = a.triggers.len() as int;
    if source_active(s, Source::Requirement, t) {
        let k = choose|k: int| holds_for(s, Source::Requirement, k, t);
        assert(0 <= k < na);
        lemma_requirement_trigger_holds(c, a, b, t, k);
        assert(requirement_locks_at(reqs, a.origin[k], t));
    }
    if any_requirement_locks(reqs, t) {
        let i = choose|i: int| requirement_locks_at(reqs, i, t);
        let k = a.slot[i];
        assert(0 <= k < na);
        lemma_requirement_trigger_holds(c, a, b, t, k);
        assert(holds_for(s, Source::Requirement, k, t));
    }
    assert forall|k: int| #[trigger] first_holding(s, Source::Requirement, k, t) implies {
        &&& 0 <= k < na
        &&& is_first_locking_requirement(reqs, a.origin[k], t)
    } by {
        assert(0 <= k < na);
        lemma_requirement_trigger_holds(c, a, b, t, k);
        let i = a.origin[k];
        assert forall|i2: int| 0 <= i2 < i implies !requirement_locks_at(reqs, i2, t) by {
            if requirement_locks_at(reqs, i2, t) {
                let k2 = a.slot[i2];
                assert(0 <= k2 < na);
                assert(a.origin[k2] == i2);
                lemma_requirement_trigger_holds(c, a, b, t, k2);
                if k2 >= k {
                    if k2 > k {
                        assert(a.origin[k] < a.origin[k2]);
                    }
                }
                assert(k2 < k);
                assert(holds_for(s, Source::Requirement, k2, t));
            }
        }
    }
}

/// The ranges are active in the list exactly if one of them locks, and the
/// first trigger that holds is that of the first range that locks.
proof fn lemma_range_source(c: ConstraintsView, a: RequirementPart, b: RangePart, t: Timestamp)
    requires
        parts_cover(c, a, b),
        c.distinct_range_ids(),
    ensures
        source_active(whole_list(a, b, c.break_timer.timer), Source::Range, t) <==> any_range_locks(
            c.locked_time_ranges,
            t,
        ),
        forall|k: int| #[trigger]
            first_holding(whole_list(a, b, c.break_timer.timer), Source::Range, k, t) ==> {
                &&& a.triggers.len() <= k < a.triggers.len() + b.triggers.len()
                &&& is_first_locking_range(c.locked_time_ranges, b.origin[k - a.triggers.len()], t)
                &&& whole_list(a, b, c.break_timer.timer)[k] == range_lock_trigger(
                    c.locked_time_ranges[b.origin[k - a.triggers.len()]],
                )
            },
{
    lemma_layout(c, a, b);
    let s = whole_list(a, b, c.break_timer.timer);
    let ranges = c.locked_time_ranges;
    let na = a.triggers.len() as int;
    let nb = b.triggers.len() as int;
    if source_active(s, Source::Range, t) {
        let k = choose|k: int| holds_for(s, Source::Range, k, t);
        assert(na <= k < na + nb);
        lemma_range_trigger_holds(c, a, b, t, k - na);
        assert(range_locks_at(ranges, b.origin[k - na], t));
    }
    if any_range_locks(ranges, t) {
        let i = choose|i: int| range_locks_at(ranges, i, t);
        let k = b.lock_slot[i];
        assert(0 <= k < nb);
        lemma_range_trigger_holds(c, a, b, t, k);
        assert(holds_for(s, Source::Range, na + k, t));
    }
    assert forall|k: int| #[trigger] first_holding(s, Source::Range, k, t) implies {
        &&& na <= k < na + nb
        &&& is_first_locking_range(ranges, b.origin[k - na], t)
        &&& s[k] == range_lock_trigger(ranges[b.origin[k - na]])
    } by {
        assert(na <= k < na + nb);
        let k1 = k - na;
        lemma_range_trigger_holds(c, a, b, t, k1);
        let i = b.origin[k1];
        assert(b.lock_slot[i] == k1);
        assert(s[k] == b.triggers[k1]);
        assert forall|i2: int| 0 <= i2 < i implies !range_locks_at(ranges, i2, t) by {
            if range_locks_at(ranges, i2, t) {
                let k2 = b.lock_slot[i2];
                assert(0 <= k2 < nb);
                assert(b.origin[k2] == i2);
                lemma_range_trigger_holds(c, a, b, t, k2);
                assert(b.lock_slot[i2] < b.lock_slot[i]);
                assert(holds_for(s, Source::Range, na + k2, t));
            }
        }
    }
}

/// A settled break timer is active in the list exactly while its break runs,
/// and has a lock to come exactly while its work period runs.
proof fn lemma_timer_source(c: ConstraintsView, a: RequirementPart, b: RangePart, t: Timestamp)
    requires
        parts_cover(c, a, b),
        settled(c.break_timer.timer, t),
    ensures
        source_active(whole_list(a, b, c.break_timer.timer), Source::BreakTimer, t)
            <==> c.break_timer.timer is Locked,
        timer_lock_pending(whole_list(a, b, c.break_timer.timer), t) <==> c.break_timer.timer is Unlocked,
{
    lemma_layout(c, a, b);
    let s = whole_list(a, b, c.break_timer.timer);
    let d = timer_triggers(c.break_timer.timer);
    let na = a.triggers.len() as int;
    let nb = b.triggers.len() as int;
    let base = na + nb;
    if source_active(s, Source::BreakTimer, t) {
        let k = choose|k: int| holds_for(s, Source::BreakTimer, k, t);
        assert(base <= k < s.len());
        assert(s[k] == d[k - base]);
    }
    if timer_lock_pending(s, t) {
        let k = choose|k: int| pending_at(s, k, t);
        assert(base <= k < s.len());
        assert(s[k] == d[k - base]);
    }
    match c.break_timer.timer {
        BreakTimer::Locked { until } => {
            assert(s[base] == d[0]);
            assert(s[base + 1] == d[1]);
            assert forall|j: int| 0 <= j < s.len() && #[trigger] closes(s[base], s[j]) implies t.secs
                < s[j].time.secs by {
                assert(s[j].kind is BreakTimerUnlockable);
                assert(base <= j < s.len());
                assert(s[j] == d[j - base]);
            }
            assert(holds_for(s, Source::BreakTimer, base, t));
        },
        BreakTimer::Unlocked { until } => {
            assert(s[base] == d[0]);
            assert(pending_at(s, base, t));
        },
        BreakTimer::Unlockable => {},
    }
}

/// The list has a trigger at an instant exactly if the constraints have one.
proof fn lemma_trigger_times(c: ConstraintsView, a: RequirementPart, b: RangePart, x: u64)
    requires
        parts_cover(c, a, b),
    ensures
        has_trigger_at(whole_list(a, b, c.break_timer.timer), x) <==> c.trigger_at(x),
{
    lemma_layout(c, a, b);
    let s = whole_list(a, b, c.break_timer.timer);
    let d = timer_triggers(c.break_timer.timer);
    let reqs = c.requirements;
    let ranges = c.locked_time_ranges;
    let na = a.triggers.len() as int;
    let nb = b.triggers.len() as int;
    let base = na + nb;
    if has_trigger_at(s, x) {
        let k = choose|k: int| 0 <= k < s.len() && (#[trigger] s[k]).time.secs == x;
        if k < na {
            assert(s[k] == a.triggers[k]);
            assert(requirement_trigger_at(reqs, a.origin[k], x));
        } else if k < base {
            assert(s[k] == b.triggers[k - na]);
            assert(range_trigger_at(ranges, b.origin[k - na], x));
        } else {
            assert(s[k] == d[k - base]);
            assert(c.trigger_at(x));
        }
    }
    if c.trigger_at(x) {
        if exists|i: int| requirement_trigger_at(reqs, i, x) {
            let i = choose|i: int| requirement_trigger_at(reqs, i, x);
            let k = a.slot[i];
            assert(0 <= k < na);
            assert(a.origin[k] == i);
            assert(s[k] == a.triggers[k]);
            assert(s[k].time.secs == x);
        } else if exists|i: int| range_trigger_at(ranges, i, x) {
            let i = choose|i: int| range_trigger_at(ranges, i, x);
            if range_start(ranges[i]) == x {
                let k = b.lock_slot[i];
                assert(0 <= k < nb);
                assert(s[na + k] == b.triggers[k]);
                assert(s[na + k].time.secs == x);
            } else {
                let k = b.unlock_slot[i];
                assert(0 <= k < nb);
                assert(s[na + k] == b.triggers[k]);
                assert(s[na + k].time.secs == x);
            }
        } else {
            match c.break_timer.timer {
                BreakTimer::Locked { until } => {
                    assert(s[base] == d[0]);
                    assert(s[base + 1] == d[1]);
                    if x == 0 {
                        assert(s[base].time.secs == x);
                    } else {
                        assert(s[base + 1].time.secs == x);
                    }
                },
                BreakTimer::Unlocked { until } => {
                    assert(s[base] == d[0]);
                    assert(s[base].time.secs == x);
                },
                BreakTimer::Unlockable => {},
            }
        }
    }
}

/// What the engine reads off the list built from settled constraints is the
/// state, the reason and the next trigger time of those constraints.
pub proof fn lemma_triggers_give_state(
    c: ConstraintsView,
    a: RequirementPart,
    b: RangePart,
    t: Timestamp,
    result: SimulationResult,
)
    requires
        parts_cover(c, a, b),
        c.distinct_range_ids(),
        settled(c.break_timer.timer, t),
        resolves_to(whole_list(a, b, c.break_timer.timer), t, result),
    ensures
        result.target_state == c.state_at(t),
        result.reason == c.reason_at(t),
        result.until == c.next_trigger(t),
{
    let s = whole_list(a, b, c.break_timer.timer);
    lemma_layout(c, a, b);
    lemma_requirement_source(c, a, b, t);
    lemma_range_source(c, a, b, t);
    lemma_timer_source(c, a, b, t);
    if source_active(s, Source::Requirement, t) {
        let k = choose|k: int| #[trigger]
            first_holding(s, Source::Requirement, k, t) && result.reason == reason_of(s[k].kind);
        lemma_first_locking_requirement(c.requirements, a.origin[k], t);
        assert(s[k] == a.triggers[k]);
    } else if source_active(s, Source::Range, t) {
        let k = choose|k: int| #[trigger]
            first_holding(s, Source::Range, k, t) && result.reason == reason_of(s[k].kind);
        lemma_first_locking_range(c.locked_time_ranges, b.origin[k - a.triggers.len()], t);
    }
    assert(c.is_next_trigger(t, result.until)) by {
        match result.until {
            Some(u) => {
                lemma_trigger_times(c, a, b, u.secs);
                assert forall|x: u64| #[trigger] c.trigger_at(x) && t.secs < x implies u.secs <= x by {
                    lemma_trigger_times(c, a, b, x);
                    let k = choose|k: int| 0 <= k < s.len() && (#[trigger] s[k]).time.secs == x;
                    assert(u.secs <= s[k].time.secs);
                }
            },
            None => {
                assert forall|x: u64| #[trigger] c.trigger_at(x) implies x <= t.secs by {
                    lemma_trigger_times(c, a, b, x);
                    let k = choose|k: int| 0 <= k < s.len() && (#[trigger] s[k]).time.secs == x;
                    assert(s[k].time.secs <= t.secs);
                }
            },
        }
    }
    lemma_next_trigger(c, t, result.until);
}

} // verus!
