//! The manager: it owns the constraints, renews them from the configuration
//! whenever the calendar day changes, and keeps the last snapshot under a
//! version number that moves exactly when the snapshot does.

use vstd::prelude::*;
use crate::break_timer::{
    lemma_refresh_idempotent, lemma_refresh_of_settled, lemma_refresh_settles, settled,
    timer_not_unlocked_message, BreakTimer, BreakTimerManager,
};
use crate::config::{
    requirement_config_views, LockedTimeRangeConfig, RequirementConfig, RequirementConfigView,
};
use crate::constraints::{
    any_requirement_locks, first_with_id, has_id_at, is_first_with_id, lemma_due_requirement_locks,
    lemma_inside_range_locks, lemma_reason_fits_state, lemma_some_is_first_with_id, range_locks_at,
    range_start, requirement_already_complete_message, requirement_locks_at,
    requirement_not_found_message, Completion, Constraints, ConstraintsView, CurrentInfoView,
    Requirement, RequirementView, TimeRange,
};
pub use crate::constraints::CurrentInfo;
use crate::response::{Response, ResponseView};
use crate::state::reason_fits;
pub use crate::state::{CurrentState, CurrentStateReason};
use crate::time::{instant_on, saturating_sum, Duration, HourMinute, LocalDate, Timestamp};

verus! {

/// What the manager is made with: the templates of the day's requirements and
/// locked time ranges, and the lengths of the work period and the break.
#[derive(Debug)]
pub struct DiagonatorManagerConfig {
    pub requirements: Vec<RequirementConfig>,
    pub locked_time_ranges: Vec<LockedTimeRangeConfig>,
    pub work_period_duration: Duration,
    pub break_duration: Duration,
}

/// What the manager's configuration is, as a value.
pub struct ManagerConfigView {
    pub requirements: Seq<RequirementConfigView>,
    pub locked_time_ranges: Seq<LockedTimeRangeConfig>,
    pub work_period_duration: Duration,
    pub break_duration: Duration,
}

impl View for DiagonatorManagerConfig {
    type V = ManagerConfigView;

    open spec fn view(&self) -> ManagerConfigView {
        ManagerConfigView {
            requirements: requirement_config_views(self.requirements@),
            locked_time_ranges: self.locked_time_ranges@,
            work_period_duration: self.work_period_duration,
            break_duration: self.break_duration,
        }
    }
}

/// Issues ids: each is one more than the last, so none comes twice.
#[derive(Debug)]
pub struct IdGenerator {
    last_id: u64,
}

impl IdGenerator {
    /// The id that was issued last, or 0 before the first.
    pub closed spec fn last(&self) -> u64 {
        self.last_id
    }

    /// The next id: one more than the last.
    pub fn next_id(&mut self) -> (id: u64)
        requires
            old(self).last() < u64::MAX,
        ensures
            id == old(self).last() + 1,
            final(self).last() == id,
    {
        self.last_id += 1;
        self.last_id
    }

    /// A generator that has issued no id.
    pub fn new() -> (g: IdGenerator)
        ensures
            g.last() == 0,
    {
        IdGenerator { last_id: 0 }
    }
}

/// The instant of an optional time of day on `date`.
pub open spec fn anchored(date: LocalDate, hm: Option<HourMinute>) -> Option<Timestamp> {
    match hm {
        Some(hm) => Some(Timestamp { secs: instant_on(date, hm) }),
        None => None,
    }
}

/// The requirement made on `date` from a template, under the id `id`.
pub open spec fn requirement_of(template: RequirementConfigView, date: LocalDate, id: u64) -> RequirementView {
    RequirementView {
        id,
        name: template.name,
        due: Timestamp { secs: instant_on(date, template.due) },
        complete: false,
    }
}

/// The range made on `date` from a template, under the id `id`.
pub open spec fn range_of(template: LockedTimeRangeConfig, date: LocalDate, id: u64) -> TimeRange {
    TimeRange { id, start: anchored(date, template.start), end: anchored(date, template.end) }
}

/// The requirements of `date`: one for each template, in their order, under
/// the ids that follow `last_id`.
pub open spec fn day_requirements(
    templates: Seq<RequirementConfigView>,
    date: LocalDate,
    last_id: u64,
) -> Seq<RequirementView> {
    Seq::new(templates.len(), |i: int| requirement_of(templates[i], date, (last_id + 1 + i) as u64))
}

/// The ranges of `date`: one for each template, in their order, under the ids
/// that follow `last_id`.
pub open spec fn day_ranges(templates: Seq<LockedTimeRangeConfig>, date: LocalDate, last_id: u64) -> Seq<
    TimeRange,
> {
    Seq::new(templates.len(), |i: int| range_of(templates[i], date, (last_id + 1 + i) as u64))
}

/// The constraints with their day, their configuration and the generator of
/// their ids.
#[derive(Debug)]
pub struct DiagonatorManagerInner {
    config: DiagonatorManagerConfig,
    constraints: Constraints,
    current_date: LocalDate,
    id_generator: IdGenerator,
}

/// What the inner manager is, as a value.
pub struct InnerView {
    pub config: ManagerConfigView,
    pub constraints: ConstraintsView,
    pub current_date: LocalDate,
    pub last_id: u64,
}

impl View for DiagonatorManagerInner {
    type V = InnerView;

    closed spec fn view(&self) -> InnerView {
        InnerView {
            config: self.config@,
            constraints: self.constraints@,
            current_date: self.current_date,
            last_id: self.id_generator.last(),
        }
    }
}

impl ConstraintsView {
    /// The constraints with another break timer.
    pub open spec fn with_timer(self, break_timer: BreakTimerManager) -> ConstraintsView {
        ConstraintsView {
            break_timer,
            requirements: self.requirements,
            locked_time_ranges: self.locked_time_ranges,
            deactivated_until: self.deactivated_until,
        }
    }

    /// The constraints with another override.
    pub open spec fn with_deactivation(self, deactivated_until: Option<Timestamp>) -> ConstraintsView {
        ConstraintsView {
            break_timer: self.break_timer,
            requirements: self.requirements,
            locked_time_ranges: self.locked_time_ranges,
            deactivated_until,
        }
    }
}

impl InnerView {
    /// The inner manager as it is made: on the day of the epoch, with no
    /// requirement and no range yet, no override, no id issued, and a timer
    /// with no period running.
    pub open spec fn initial(config: ManagerConfigView) -> InnerView {
        InnerView {
            config,
            constraints: ConstraintsView {
                break_timer: BreakTimerManager {
                    timer: BreakTimer::Unlockable,
                    work_period_duration: config.work_period_duration,
                    break_duration: config.break_duration,
                },
                requirements: Seq::empty(),
                locked_time_ranges: Seq::empty(),
                deactivated_until: None,
            },
            current_date: LocalDate { days: 0 },
            last_id: 0,
        }
    }

    /// How many ids a new day takes: one for each template.
    pub open spec fn ids_per_day(self) -> nat {
        self.config.requirements.len() + self.config.locked_time_ranges.len()
    }

    /// Whether the ids of one more day, and one more after them, can still be
    /// issued.
    pub open spec fn has_headroom(self) -> bool {
        self.last_id + self.ids_per_day() + 1 <= u64::MAX
    }

    /// Whether the ids are in order: within each list they rise, none is
    /// shared between the lists, and none is beyond the last that was issued.
    pub open spec fn ids_in_order(self) -> bool {
        let reqs = self.constraints.requirements;
        let ranges = self.constraints.locked_time_ranges;
        &&& forall|i: int, j: int| 0 <= i < j < reqs.len() ==> reqs[i].id < reqs[j].id
        &&& forall|i: int, j: int| 0 <= i < j < ranges.len() ==> ranges[i].id < ranges[j].id
        &&& forall|i: int, j: int| 0 <= i < reqs.len() && 0 <= j < ranges.len() ==> reqs[i].id != ranges[j].id
        &&& forall|i: int| 0 <= i < reqs.len() ==> 1 <= (#[trigger] reqs[i]).id <= self.last_id
        &&& forall|i: int| 0 <= i < ranges.len() ==> 1 <= (#[trigger] ranges[i]).id <= self.last_id
    }

    /// Whether a refresh at `t` finds the ids it needs: those of a new day, if
    /// `t` lies on another day than the current one.
    pub open spec fn can_refresh_at(self, t: Timestamp) -> bool {
        (LocalDate { days: t.secs / 86_400 }) != self.current_date ==> self.last_id + self.ids_per_day()
            <= u64::MAX
    }

    /// The same with other constraints.
    pub open spec fn with_constraints(self, constraints: ConstraintsView) -> InnerView {
        InnerView {
            config: self.config,
            constraints,
            current_date: self.current_date,
            last_id: self.last_id,
        }
    }

    /// The start of the day `date`: requirements and ranges are made anew from
    /// the templates, under fresh ids and anchored to `date`. The break timer
    /// and the override go on as they are.
    pub open spec fn rolled_over(self, date: LocalDate) -> InnerView {
        let first = self.last_id;
        let second = (self.last_id + self.config.requirements.len()) as u64;
        InnerView {
            config: self.config,
            constraints: ConstraintsView {
                break_timer: self.constraints.break_timer,
                requirements: day_requirements(self.config.requirements, date, first),
                locked_time_ranges: day_ranges(self.config.locked_time_ranges, date, second),
                deactivated_until: self.constraints.deactivated_until,
            },
            current_date: date,
            last_id: (self.last_id + self.ids_per_day()) as u64,
        }
    }

    /// The same on the day of `t`: rolled over if that is another day.
    pub open spec fn on_day_of(self, t: Timestamp) -> InnerView {
        let date = LocalDate { days: t.secs / 86_400 };
        if date != self.current_date {
            self.rolled_over(date)
        } else {
            self
        }
    }

    /// Whether a refresh at `t` ends the running work period: the session is
    /// being enforced although the work period has not run out.
    pub open spec fn auto_locks(self, t: Timestamp) -> bool {
        let c = self.on_day_of(t).constraints.observed(t);
        c.enforcing_at(t) && c.break_timer.timer is Unlocked
    }

    /// The same after a refresh at `t`: on the day of `t`, brought up to `t`,
    /// and with the work period ended where the session is enforced anyway.
    pub open spec fn refreshed(self, t: Timestamp) -> InnerView {
        let day = self.on_day_of(t);
        let c = day.constraints.observed(t);
        if self.auto_locks(t) {
            day.with_constraints(c.with_timer(c.break_timer.after_lock(t)).observed(t))
        } else {
            day.with_constraints(c)
        }
    }

    /// The snapshot that a refresh at `t` gives.
    pub open spec fn info_at(self, t: Timestamp) -> CurrentInfoView {
        self.refreshed(t).constraints.settled_snapshot(t)
    }
}

/// A new day keeps the ids in order, and every id of the new day is beyond
/// all that were issued before.
pub proof fn lemma_rollover_keeps_order(inner: InnerView, date: LocalDate)
    requires
        inner.last_id + inner.ids_per_day() <= u64::MAX,
    ensures
        inner.rolled_over(date).ids_in_order(),
        forall|i: int|
            0 <= i < inner.rolled_over(date).constraints.requirements.len() ==> inner.last_id < (
            #[trigger] inner.rolled_over(date).constraints.requirements[i]).id,
        forall|i: int|
            0 <= i < inner.rolled_over(date).constraints.locked_time_ranges.len() ==> inner.last_id < (
            #[trigger] inner.rolled_over(date).constraints.locked_time_ranges[i]).id,
{
}

/// A refresh keeps the ids in order, issues ids only for a new day, and leaves
/// the timer with no elapsed period.
pub proof fn lemma_refresh_keeps_order(inner: InnerView, t: Timestamp)
    requires
        inner.ids_in_order(),
        inner.can_refresh_at(t),
    ensures
        inner.refreshed(t).ids_in_order(),
        inner.refreshed(t).config == inner.config,
        inner.refreshed(t).current_date == (LocalDate { days: t.secs / 86_400 }),
        inner.refreshed(t).last_id == inner.on_day_of(t).last_id,
        inner.refreshed(t).last_id == inner.last_id || inner.refreshed(t).last_id == inner.last_id
            + inner.ids_per_day(),
        settled(inner.refreshed(t).constraints.break_timer.timer, t),
        inner.refreshed(t).constraints.observed(t) == inner.refreshed(t).constraints,
        !inner.refreshed(t).auto_locks(t),
{
    let date = LocalDate { days: t.secs / 86_400 };
    if date != inner.current_date {
        lemma_rollover_keeps_order(inner, date);
    }
    let day = inner.on_day_of(t);
    let c = day.constraints.observed(t);
    lemma_refresh_settles(day.constraints.break_timer, t);
    lemma_refresh_idempotent(day.constraints.break_timer, t);
    if inner.auto_locks(t) {
        let locked = c.with_timer(c.break_timer.after_lock(t));
        lemma_refresh_settles(locked.break_timer, t);
        lemma_refresh_idempotent(locked.break_timer, t);
    }
}

impl DiagonatorManagerInner {
    /// An inner manager on the day of the epoch, with no requirement and no
    /// range yet, no override, and a timer with no period running.
    pub fn new(config: DiagonatorManagerConfig) -> (inner: DiagonatorManagerInner)
        ensures
            inner@ == InnerView::initial(config@),
            inner@.ids_in_order(),
    {
        let break_timer = BreakTimerManager::new(config.work_period_duration, config.break_duration);
        let inner = DiagonatorManagerInner {
            config,
            constraints: Constraints {
                break_timer,
                requirements: Vec::new(),
                locked_time_ranges: Vec::new(),
                deactivated_until: None,
            },
            current_date: Timestamp::zero().get_date(),
            id_generator: IdGenerator::new(),
        };
        assert(inner@.constraints.requirements =~= Seq::<RequirementView>::empty());
        inner
    }

    /// Makes the requirements and ranges of the current day anew from the
    /// templates, each under a fresh id.
    fn new_day(&mut self)
        requires
            old(self)@.last_id + old(self)@.ids_per_day() <= u64::MAX,
        ensures
            final(self)@ == old(self)@.rolled_over(old(self)@.current_date),
    {
        let ghost start = self@;
        let ghost date = self.current_date;
        let mut requirements: Vec<Requirement> = Vec::new();
        let mut i: usize = 0;
        while i < self.config.requirements.len()
            invariant
                i <= self.config.requirements.len(),
                self.config == old(self).config,
                self.constraints == old(self).constraints,
                self.current_date == date,
                start == old(self)@,
                start.last_id + start.ids_per_day() <= u64::MAX,
                self.id_generator.last() == start.last_id + i,
                requirements@.len() == i,
                forall|k: int|
                    0 <= k < i ==> (#[trigger] requirements@[k])@ == day_requirements(
                        start.config.requirements,
                        date,
                        start.last_id,
                    )[k],
            decreases self.config.requirements.len() - i,
        {
            let id = self.id_generator.next_id();
            let req = &self.config.requirements[i];
            requirements.push(
                Requirement {
                    id,
                    name: req.name.clone(),
                    due: Timestamp::from_date_hm(&self.current_date, &req.due),
                    complete: false,
                },
            );
            i += 1;
        }
        let ghost second = self.id_generator.last();
        let mut locked_time_ranges: Vec<TimeRange> = Vec::new();
        let mut j: usize = 0;
        while j < self.config.locked_time_ranges.len()
            invariant
                j <= self.config.locked_time_ranges.len(),
                self.config == old(self).config,
                self.constraints == old(self).constraints,
                self.current_date == date,
                start == old(self)@,
                start.last_id + start.ids_per_day() <= u64::MAX,
                second == start.last_id + start.config.requirements.len(),
                self.id_generator.last() == second + j,
                locked_time_ranges@.len() == j,
                forall|k: int|
                    0 <= k < j ==> #[trigger] locked_time_ranges@[k] == day_ranges(
                        start.config.locked_time_ranges,
                        date,
                        second,
                    )[k],
            decreases self.config.locked_time_ranges.len() - j,
        {
            let id = self.id_generator.next_id();
            let ltr = self.config.locked_time_ranges[j];
            locked_time_ranges.push(
                TimeRange {
                    id,
                    start: Timestamp::from_date_hm_opt(&self.current_date, &ltr.start),
                    end: Timestamp::from_date_hm_opt(&self.current_date, &ltr.end),
                },
            );
            j += 1;
        }
        self.constraints.requirements = requirements;
        self.constraints.locked_time_ranges = locked_time_ranges;
        proof {
            let target = start.rolled_over(date);
            assert(self@.constraints.requirements =~= target.constraints.requirements);
            assert(self@.constraints.locked_time_ranges =~= target.constraints.locked_time_ranges);
        }
    }

    /// Brings the constraints up to `current_time`, on its calendar day, and
    /// takes their snapshot. Where the session is enforced while a work period
    /// is still running, the work period is ended and the snapshot taken again.
    pub fn refresh(&mut self, current_time: Timestamp) -> (info: CurrentInfo)
        requires
            old(self)@.ids_in_order(),
            old(self)@.can_refresh_at(current_time),
        ensures
            final(self)@ == old(self)@.refreshed(current_time),
            info@ == old(self)@.info_at(current_time),
            final(self)@.ids_in_order(),
    {
        let current_date = current_time.get_date();
        if current_date.days != self.current_date.days {
            self.current_date = current_date;
            self.new_day();
            proof {
                lemma_rollover_keeps_order(old(self)@, current_date);
            }
        }
        assert(self@ == old(self)@.on_day_of(current_time));
        proof {
            lemma_refresh_keeps_order(old(self)@, current_time);
        }
        let ghost day = self@;
        let mut current_info = self.constraints.get_current_info(current_time);
        proof {
            lemma_refresh_idempotent(day.constraints.break_timer, current_time);
        }
        if current_info.diagonator_running {
            if let Ok(()) = self.constraints.break_timer.lock(current_time) {
                current_info = self.constraints.get_current_info(current_time);
            }
        }
        current_info
    }
}

/// The manager of one session: the constraints, and the last snapshot with
/// the instant it was taken at and its version.
#[derive(Debug)]
pub struct DiagonatorManager {
    manager: DiagonatorManagerInner,
    cached_info: CurrentInfo,
    cache_time: Timestamp,
    cache_version: u64,
}

/// What the manager is, as a value.
pub struct ManagerView {
    pub inner: InnerView,
    pub cached_info: CurrentInfoView,
    pub cache_time: Timestamp,
    pub cache_version: u64,
}

impl View for DiagonatorManager {
    type V = ManagerView;

    closed spec fn view(&self) -> ManagerView {
        ManagerView {
            inner: self.manager@,
            cached_info: self.cached_info@,
            cache_time: self.cache_time,
            cache_version: self.cache_version,
        }
    }
}

/// What `unlock_timer` answers while the session is not unlockable.
pub open spec fn session_not_unlockable_message() -> Seq<char> {
    "Session is not unlockable."@
}

impl ManagerView {
    /// The manager as it is made at `t`: the constraints as they are made and
    /// then refreshed at `t`, and their snapshot under the first version.
    pub open spec fn initial(config: ManagerConfigView, t: Timestamp) -> ManagerView {
        ManagerView {
            inner: InnerView::initial(config).refreshed(t),
            cached_info: InnerView::initial(config).info_at(t),
            cache_time: t,
            cache_version: 1,
        }
    }

    /// Whether the manager is in order: the ids are, the constraints are as a
    /// refresh at the instant of the cache leaves them, and the cached snapshot
    /// is theirs at that instant.
    pub open spec fn wf(self) -> bool {
        &&& self.inner.ids_in_order()
        &&& self.inner.current_date == (LocalDate { days: self.cache_time.secs / 86_400 })
        &&& settled(self.inner.constraints.break_timer.timer, self.cache_time)
        &&& self.inner.constraints.observed(self.cache_time) == self.inner.constraints
        &&& !self.inner.auto_locks(self.cache_time)
        &&& self.cached_info == self.inner.constraints.settled_snapshot(self.cache_time)
        &&& self.cache_version >= 1
    }

    /// Whether one more operation fits the counters: the ids of a new day and
    /// of one added requirement can be issued, and the version can move twice.
    pub open spec fn has_headroom(self) -> bool {
        &&& self.inner.has_headroom()
        &&& self.cache_version + 2 <= u64::MAX
    }

    /// The same with another inner manager.
    pub open spec fn with_inner(self, inner: InnerView) -> ManagerView {
        ManagerView {
            inner,
            cached_info: self.cached_info,
            cache_time: self.cache_time,
            cache_version: self.cache_version,
        }
    }

    /// The same with other constraints.
    pub open spec fn with_constraints(self, constraints: ConstraintsView) -> ManagerView {
        self.with_inner(self.inner.with_constraints(constraints))
    }

    /// The manager after its cache was refreshed at `t`: the constraints are
    /// refreshed, their snapshot is the cached one, and the version has moved
    /// by one if that snapshot differs from the one cached before, and else
    /// not at all.
    pub open spec fn cache_refreshed(self, t: Timestamp) -> ManagerView {
        let info = self.inner.info_at(t);
        ManagerView {
            inner: self.inner.refreshed(t),
            cached_info: info,
            cache_time: t,
            cache_version: if info == self.cached_info {
                self.cache_version
            } else {
                (self.cache_version + 1) as u64
            },
        }
    }

    /// Whether the session can be unlocked at `t`: its state is then
    /// unlockable.
    pub open spec fn unlockable_at(self, t: Timestamp) -> bool {
        self.cache_refreshed(t).cached_info.state == CurrentState::Unlockable
    }

    /// What `unlock_timer` answers at `t`: done if the session is unlockable,
    /// and else that it is not.
    pub open spec fn unlock_response(self, t: Timestamp) -> ResponseView {
        if self.unlockable_at(t) {
            ResponseView::Success
        } else {
            ResponseView::Error { msg: session_not_unlockable_message() }
        }
    }

    /// The manager after `unlock_timer` at `t`.
    pub open spec fn after_unlock_timer(self, t: Timestamp) -> ManagerView {
        let m = self.cache_refreshed(t);
        if self.unlockable_at(t) {
            let c = m.inner.constraints;
            m.with_constraints(c.with_timer(c.break_timer.after_unlock(t))).cache_refreshed(t)
        } else {
            m
        }
    }

    /// Whether the break timer can be locked at `t`: a work period is then
    /// running that nothing has ended.
    pub open spec fn lockable_at(self, t: Timestamp) -> bool {
        let c = self.inner.constraints.with_deactivation(None);
        self.with_constraints(c).cache_refreshed(t).inner.constraints.break_timer.timer is Unlocked
    }

    /// What `lock_timer` answers at `t`: done if a work period is running,
    /// and else that the timer is not unlocked.
    pub open spec fn lock_response(self, t: Timestamp) -> ResponseView {
        if self.lockable_at(t) {
            ResponseView::Success
        } else {
            ResponseView::Error { msg: timer_not_unlocked_message() }
        }
    }

    /// The manager after `lock_timer` at `t`.
    pub open spec fn after_lock_timer(self, t: Timestamp) -> ManagerView {
        let m = self.with_constraints(self.inner.constraints.with_deactivation(None)).cache_refreshed(t);
        if self.lockable_at(t) {
            let c = m.inner.constraints;
            m.with_constraints(c.with_timer(c.break_timer.after_lock(t))).cache_refreshed(t)
        } else {
            m
        }
    }

    /// What `complete_requirement` answers at `t` for the id: done, or which
    /// of the two refusals holds.
    pub open spec fn complete_response(self, t: Timestamp, id: u64) -> ResponseView {
        match self.cache_refreshed(t).inner.constraints.completion(id) {
            Completion::Done => ResponseView::Success,
            Completion::NotFound => ResponseView::Error { msg: requirement_not_found_message(id) },
            Completion::AlreadyComplete => ResponseView::Error {
                msg: requirement_already_complete_message(id),
            },
        }
    }

    /// The manager after `complete_requirement` at `t`.
    pub open spec fn after_complete_requirement(self, t: Timestamp, id: u64) -> ManagerView {
        let m = self.cache_refreshed(t);
        if m.inner.constraints.completion(id) is Done {
            m.with_constraints(m.inner.constraints.after_completing(id)).cache_refreshed(t)
        } else {
            m
        }
    }

    /// The manager after `add_requirement` at `t`: the new requirement stands
    /// last, incomplete, under the next id, and is due on the day of `t`.
    pub open spec fn after_add_requirement(self, t: Timestamp, name: Seq<char>, due: HourMinute) -> ManagerView {
        let m = self.cache_refreshed(t);
        let id = (m.inner.last_id + 1) as u64;
        let added = RequirementView {
            id,
            name,
            due: Timestamp { secs: instant_on(m.inner.current_date, due) },
            complete: false,
        };
        let c = m.inner.constraints;
        let inner = InnerView {
            config: m.inner.config,
            constraints: ConstraintsView {
                break_timer: c.break_timer,
                requirements: c.requirements.push(added),
                locked_time_ranges: c.locked_time_ranges,
                deactivated_until: c.deactivated_until,
            },
            current_date: m.inner.current_date,
            last_id: id,
        };
        m.with_inner(inner).cache_refreshed(t)
    }

    /// The manager after `deactivate` at `t` for `duration`.
    pub open spec fn after_deactivate(self, t: Timestamp, duration: Duration) -> ManagerView {
        let until = Timestamp { secs: saturating_sum(t.secs, duration.secs) };
        self.with_constraints(self.inner.constraints.with_deactivation(Some(until))).cache_refreshed(t)
    }

    /// The manager after it was asked for news at `t`: its cache is refreshed
    /// unless it was taken at `t`.
    pub open spec fn after_poll(self, t: Timestamp) -> ManagerView {
        if t != self.cache_time {
            self.cache_refreshed(t)
        } else {
            self
        }
    }
}

/// A refresh of the cache leaves the manager in order.
pub proof fn lemma_cache_refreshed_in_order(m: ManagerView, t: Timestamp)
    requires
        m.inner.ids_in_order(),
        m.inner.can_refresh_at(t),
        m.cache_version >= 1,
        m.cache_version < u64::MAX,
    ensures
        m.cache_refreshed(t).wf(),
        m.cache_refreshed(t).inner.can_refresh_at(t),
{
    lemma_refresh_keeps_order(m.inner, t);
}

impl DiagonatorManager {
    /// The version that no snapshot has: a caller that has seen none yet asks
    /// with it.
    pub const NO_CACHE: u64 = 0;

    /// Whether one more operation fits the counters.
    pub fn has_headroom(&self) -> (b: bool)
        ensures
            b == self@.has_headroom(),
    {
        let requirements: usize = self.manager.config.requirements.len();
        let ranges: usize = self.manager.config.locked_time_ranges.len();
        let last: u64 = self.manager.id_generator.last_id;
        let per_day: u128 = requirements as u128 + ranges as u128;
        let needed: u128 = last as u128 + per_day + 1;
        needed <= u64::MAX as u128 && self.cache_version <= u64::MAX - 2
    }

    /// A manager whose first snapshot is that of `current_time`, under the
    /// first version.
    pub fn new(config: DiagonatorManagerConfig, current_time: Timestamp) -> (m: DiagonatorManager)
        requires
            config.requirements.len() + config.locked_time_ranges.len() <= u64::MAX,
        ensures
            m@ == ManagerView::initial(config@, current_time),
            m@.wf(),
    {
        let mut manager = DiagonatorManagerInner::new(config);
        proof {
            lemma_refresh_keeps_order(manager@, current_time);
        }
        let cached_info = manager.refresh(current_time);
        DiagonatorManager {
            manager,
            cached_info,
            cache_time: current_time,
            cache_version: Self::NO_CACHE + 1,
        }
    }

    /// Refreshes the constraints at `current_time` and returns their
    /// snapshot. The snapshot replaces the cached one, and moves the version
    /// by one, if it differs from it.
    fn refresh_cache(&mut self, current_time: Timestamp) -> (info: CurrentInfo)
        requires
            old(self)@.inner.ids_in_order(),
            old(self)@.inner.can_refresh_at(current_time),
            old(self)@.cache_version >= 1,
            old(self)@.cache_version < u64::MAX,
        ensures
            final(self)@ == old(self)@.cache_refreshed(current_time),
            info@ == final(self)@.cached_info,
            final(self)@.wf(),
            final(self)@.inner.can_refresh_at(current_time),
    {
        proof {
            lemma_cache_refreshed_in_order(old(self)@, current_time);
        }
        self.cache_time = current_time;
        let new_info = self.manager.refresh(current_time);
        if new_info != self.cached_info {
            self.cached_info = new_info.clone();
            self.cache_version += 1;
        }
        new_info
    }
}

impl DiagonatorManager {
    /// Starts a work period at `current_time`, if the session is unlockable
    /// then; refuses, changing nothing but the refreshed cache, if it is not.
    pub fn unlock_timer(&mut self, current_time: Timestamp) -> (r: Response)
        requires
            old(self)@.wf(),
            old(self)@.has_headroom(),
        ensures
            final(self)@ == old(self)@.after_unlock_timer(current_time),
            final(self)@.wf(),
            r@ == old(self)@.unlock_response(current_time),
    {
        let info = self.refresh_cache(current_time);
        if matches!(info.state, CurrentState::Unlockable) {
            match self.manager.constraints.break_timer.unlock(current_time) {
                Ok(()) => {
                    self.refresh_cache(current_time);
                    Response::Success
                },
                Err(msg) => Response::Error { msg },
            }
        } else {
            Response::Error { msg: "Session is not unlockable.".to_owned() }
        }
    }

    /// Lifts any override, then ends the running work period at
    /// `current_time` and starts its break; refuses if no work period is
    /// running then.
    pub fn lock_timer(&mut self, current_time: Timestamp) -> (r: Response)
        requires
            old(self)@.wf(),
            old(self)@.has_headroom(),
        ensures
            final(self)@ == old(self)@.after_lock_timer(current_time),
            final(self)@.wf(),
            r@ == old(self)@.lock_response(current_time),
    {
        self.manager.constraints.deactivated_until = None;
        self.refresh_cache(current_time);
        proof {
            lemma_refresh_of_settled(self@.inner.constraints.break_timer, current_time);
        }
        match self.manager.constraints.break_timer.lock(current_time) {
            Ok(()) => {
                self.refresh_cache(current_time);
                Response::Success
            },
            Err(msg) => Response::Error { msg },
        }
    }

    /// The cached snapshot, as it was last taken.
    pub fn get_info(&self) -> (info: CurrentInfo)
        ensures
            info@ == self@.cached_info,
    {
        self.cached_info.clone()
    }

    /// The snapshot and its version, if the version is not the one the caller
    /// has; nothing if it is. The cache is refreshed first unless it was taken
    /// at `current_time`.
    pub fn get_info_if_changed(&mut self, cache_version: u64, current_time: Timestamp) -> (r: Option<
        (CurrentInfo, u64),
    >)
        requires
            old(self)@.wf(),
            old(self)@.has_headroom(),
        ensures
            final(self)@ == old(self)@.after_poll(current_time),
            final(self)@.wf(),
            r.is_some() <==> cache_version != final(self)@.cache_version,
            r.is_some() ==> r.unwrap().0@ == final(self)@.cached_info && r.unwrap().1
                == final(self)@.cache_version,
    {
        if current_time.secs != self.cache_time.secs {
            self.refresh_cache(current_time);
        }
        if cache_version != self.cache_version {
            Some((self.cached_info.clone(), self.cache_version))
        } else {
            None
        }
    }

    /// The snapshot of `current_time`, taken now.
    pub fn get_info_once(&mut self, current_time: Timestamp) -> (r: Response)
        requires
            old(self)@.wf(),
            old(self)@.has_headroom(),
        ensures
            final(self)@ == old(self)@.cache_refreshed(current_time),
            final(self)@.wf(),
            r@ == (ResponseView::Info { info: old(self)@.inner.info_at(current_time) }),
    {
        Response::Info { info: self.refresh_cache(current_time) }
    }

    /// Marks the requirement `requirement_id` complete; refuses, saying which
    /// holds, if there is none with that id or if it is complete already.
    pub fn complete_requirement(&mut self, current_time: Timestamp, requirement_id: u64) -> (r: Response)
        requires
            old(self)@.wf(),
            old(self)@.has_headroom(),
        ensures
            final(self)@ == old(self)@.after_complete_requirement(current_time, requirement_id),
            final(self)@.wf(),
            r@ == old(self)@.complete_response(current_time, requirement_id),
    {
        self.refresh_cache(current_time);
        let ghost before = self@;
        match self.manager.constraints.complete_requirement(requirement_id) {
            Ok(()) => {
                proof {
                    lemma_completing_keeps_order(before.inner, requirement_id);
                }
                self.refresh_cache(current_time);
                Response::Success
            },
            Err(msg) => Response::Error { msg },
        }
    }

    /// Adds a requirement for the day of `current_time`, due at `due` on that
    /// day, incomplete and under a fresh id.
    pub fn add_requirement(&mut self, current_time: Timestamp, name: String, due: HourMinute) -> (r: Response)
        requires
            old(self)@.wf(),
            old(self)@.has_headroom(),
        ensures
            final(self)@ == old(self)@.after_add_requirement(current_time, name@, due),
            final(self)@.wf(),
            r@ == ResponseView::Success,
    {
        self.refresh_cache(current_time);
        proof {
            lemma_refresh_keeps_order(old(self)@.inner, current_time);
        }
        let ghost before = self@;
        let id = self.manager.id_generator.next_id();
        let requirement = Requirement {
            id,
            name,
            due: Timestamp::from_date_hm(&self.manager.current_date, &due),
            complete: false,
        };
        self.manager.constraints.requirements.push(requirement);
        proof {
            let c = before.inner.constraints;
            assert(self@.inner.constraints.requirements =~= c.requirements.push(requirement@));
        }
        self.refresh_cache(current_time);
        Response::Success
    }

    /// Suspends enforcement from `current_time` for `duration`.
    pub fn deactivate(&mut self, current_time: Timestamp, duration: Duration) -> (r: Response)
        requires
            old(self)@.wf(),
            old(self)@.has_headroom(),
        ensures
            final(self)@ == old(self)@.after_deactivate(current_time, duration),
            final(self)@.wf(),
            r@ == ResponseView::Success,
    {
        self.manager.constraints.deactivated_until = Some(current_time.plus(duration));
        self.refresh_cache(current_time);
        Response::Success
    }
}

/// Completing a requirement keeps the ids in order.
pub proof fn lemma_completing_keeps_order(inner: InnerView, id: u64)
    requires
        inner.ids_in_order(),
    ensures
        inner.with_constraints(inner.constraints.after_completing(id)).ids_in_order(),
{
    let reqs = inner.constraints.requirements;
    let after = inner.constraints.after_completing(id).requirements;
    if inner.constraints.completion(id) is Done {
        let w = choose|i: int| has_id_at(reqs, i, id);
        lemma_some_is_first_with_id(reqs, w, id);
        let at = first_with_id(reqs, id);
        assert(is_first_with_id(reqs, at, id));
        assert(after.len() == reqs.len());
        assert forall|i: int| 0 <= i < after.len() implies (#[trigger] after[i]).id == reqs[i].id by {}
        assert forall|i: int| 0 <= i < after.len() implies 1 <= (#[trigger] after[i]).id <= inner.last_id by {
            assert(after[i].id == reqs[i].id);
        }
    }
}

/// A refresh at the instant of the cache changes nothing in a manager that
/// is in order: neither the constraints, nor the snapshot, nor the version.
pub proof fn lemma_refresh_at_cache_time(m: ManagerView)
    requires
        m.wf(),
    ensures
        m.cache_refreshed(m.cache_time) == m,
{
    let t = m.cache_time;
    assert(m.inner.on_day_of(t) == m.inner);
    assert(m.inner.refreshed(t) == m.inner);
}

/// Refreshing the cache twice at one instant is refreshing it once: the
/// second refresh finds the same snapshot and leaves the version alone.
pub proof fn lemma_refresh_twice(m: ManagerView, t: Timestamp)
    requires
        m.inner.ids_in_order(),
        m.inner.can_refresh_at(t),
        m.cache_version >= 1,
        m.cache_version < u64::MAX,
    ensures
        m.cache_refreshed(t).cache_refreshed(t) == m.cache_refreshed(t),
{
    lemma_cache_refreshed_in_order(m, t);
    lemma_refresh_at_cache_time(m.cache_refreshed(t));
}

/// A refresh moves the version by exactly one if the snapshot it finds
/// differs from the cached one, and not at all if it is the same; the cached
/// snapshot is then the one it found.
pub proof fn lemma_version_moves_with_snapshot(m: ManagerView, t: Timestamp)
    requires
        m.cache_version < u64::MAX,
    ensures
        m.cache_refreshed(t).cached_info == m.inner.info_at(t),
        m.inner.info_at(t) != m.cached_info ==> m.cache_refreshed(t).cache_version == m.cache_version + 1,
        m.inner.info_at(t) == m.cached_info ==> m.cache_refreshed(t).cache_version == m.cache_version,
{
}

/// Asking for news again at the same instant, with nothing done in between,
/// changes nothing: the version stays.
pub proof fn lemma_poll_again(m: ManagerView, t: Timestamp)
    ensures
        m.after_poll(t).after_poll(t) == m.after_poll(t),
{
}

/// A query on another day than the current one renews the day: every
/// requirement and range is made anew from its template, incomplete and under
/// an id that no instance had before. The phase of the break timer is not
/// touched by the renewal.
pub proof fn lemma_new_day_renews(inner: InnerView, t: Timestamp)
    requires
        inner.ids_in_order(),
        (LocalDate { days: t.secs / 86_400 }) != inner.current_date,
        inner.last_id + inner.ids_per_day() <= u64::MAX,
    ensures
        ({
            let day = inner.on_day_of(t);
            let reqs = day.constraints.requirements;
            let ranges = day.constraints.locked_time_ranges;
            &&& day.ids_in_order()
            &&& day.current_date == (LocalDate { days: t.secs / 86_400 })
            &&& day.constraints.break_timer == inner.constraints.break_timer
            &&& reqs.len() == inner.config.requirements.len()
            &&& ranges.len() == inner.config.locked_time_ranges.len()
            &&& forall|i: int| 0 <= i < reqs.len() ==> !(#[trigger] reqs[i]).complete
            &&& forall|i: int| 0 <= i < reqs.len() ==> inner.last_id < (#[trigger] reqs[i]).id
            &&& forall|i: int| 0 <= i < ranges.len() ==> inner.last_id < (#[trigger] ranges[i]).id
            &&& forall|i: int, j: int|
                0 <= i < reqs.len() && 0 <= j < inner.constraints.requirements.len() ==> (#[trigger] reqs[i]).id
                    != (#[trigger] inner.constraints.requirements[j]).id
            &&& forall|i: int, j: int|
                0 <= i < ranges.len() && 0 <= j < inner.constraints.locked_time_ranges.len() ==> (
                #[trigger] ranges[i]).id != (#[trigger] inner.constraints.locked_time_ranges[j]).id
            &&& inner.refreshed(t).constraints.requirements == reqs
            &&& inner.refreshed(t).constraints.locked_time_ranges == ranges
        }),
{
    lemma_rollover_keeps_order(inner, LocalDate { days: t.secs / 86_400 });
}

/// Ids are never used again: whatever a refresh makes anew lies beyond the
/// last id issued before it, and the last id issued never falls.
pub proof fn lemma_ids_only_rise(inner: InnerView, t: Timestamp)
    requires
        inner.ids_in_order(),
        inner.can_refresh_at(t),
    ensures
        inner.last_id <= inner.refreshed(t).last_id,
        inner.refreshed(t).ids_in_order(),
{
    lemma_refresh_keeps_order(inner, t);
}

/// The cached snapshot of a manager that is in order carries a reason that
/// fits its state.
pub proof fn lemma_cached_reason_fits(m: ManagerView)
    requires
        m.wf(),
    ensures
        reason_fits(m.cached_info.state, m.cached_info.reason),
{
    lemma_reason_fits_state(m.inner.constraints, m.cache_time);
}

/// While a requirement of the manager is due and not complete, the cached
/// snapshot is locked by a requirement: by that one, or by one that stands
/// before it and locks too.
pub proof fn lemma_cached_due_requirement_locks(m: ManagerView, i: int)
    requires
        m.wf(),
        0 <= i < m.inner.constraints.requirements.len(),
        !m.inner.constraints.requirements[i].complete,
        m.inner.constraints.requirements[i].due.secs <= m.cache_time.secs,
    ensures
        m.cached_info.state == CurrentState::Locked,
        exists|k: int|
            0 <= k <= i && #[trigger] requirement_locks_at(m.inner.constraints.requirements, k, m.cache_time)
                && m.cached_info.reason == (CurrentStateReason::RequirementNotMet {
                id: m.inner.constraints.requirements[k].id,
            }),
{
    lemma_due_requirement_locks(m.inner.constraints, m.cache_time, i);
}

/// While no requirement of the manager locks and the instant of the cache
/// lies inside one of its ranges, the cached snapshot is locked by a range:
/// by that one, or by one that stands before it and locks too.
pub proof fn lemma_cached_inside_range_locks(m: ManagerView, i: int)
    requires
        m.wf(),
        !any_requirement_locks(m.inner.constraints.requirements, m.cache_time),
        0 <= i < m.inner.constraints.locked_time_ranges.len(),
        range_start(m.inner.constraints.locked_time_ranges[i]) <= m.cache_time.secs,
        m.inner.constraints.locked_time_ranges[i].end.is_some() ==> m.cache_time.secs
            < m.inner.constraints.locked_time_ranges[i].end.unwrap().secs,
    ensures
        m.cached_info.state == CurrentState::Locked,
        exists|k: int|
            0 <= k <= i && #[trigger] range_locks_at(m.inner.constraints.locked_time_ranges, k, m.cache_time)
                && m.cached_info.reason == (CurrentStateReason::LockedTimeRange {
                id: m.inner.constraints.locked_time_ranges[k].id,
            }),
{
    lemma_inside_range_locks(m.inner.constraints, m.cache_time, i);
}

} // verus!
