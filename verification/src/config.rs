//! The configuration record: the templates of the daily requirements and
//! locked time ranges, and the lengths of the work period and the break.

use vstd::prelude::*;
use crate::time::HourMinute;

verus! {

/// The template of a daily requirement: its name and the time of day at which
/// it is due.
#[derive(Debug)]
pub struct RequirementConfig {
    pub name: String,
    pub due: HourMinute,
}

/// What a requirement template is, as a value.
pub struct RequirementConfigView {
    pub name: Seq<char>,
    pub due: HourMinute,
}

/// The template of a daily locked time range. A missing start stands for the
/// beginning of time, a missing end for no end.
#[derive(Clone, Copy, Debug, PartialEq, Eq, Structural)]
pub struct LockedTimeRangeConfig {
    pub start: Option<HourMinute>,
    pub end: Option<HourMinute>,
}

/// The configuration as it is written down.
#[derive(Debug)]
pub struct DiagonatorConfig {
    pub bind_on: String,
    pub requirements: Option<Vec<RequirementConfig>>,
    pub locked_time_ranges: Option<Vec<LockedTimeRangeConfig>>,
    pub work_period_minutes: i64,
    pub break_minutes: i64,
}

impl View for RequirementConfig {
    type V = RequirementConfigView;

    open spec fn view(&self) -> RequirementConfigView {
        RequirementConfigView { name: self.name@, due: self.due }
    }
}

impl Clone for RequirementConfig {
    fn clone(&self) -> (r: RequirementConfig)
        ensures
            r@ == self@,
    {
        RequirementConfig { name: self.name.clone(), due: self.due }
    }
}

/// The values of a list of requirement templates, in its order.
pub open spec fn requirement_config_views(list: Seq<RequirementConfig>) -> Seq<RequirementConfigView> {
    Seq::new(list.len(), |i: int| list[i]@)
}

/// The requirement templates of the default configuration.
pub open spec fn default_requirements() -> Seq<RequirementConfigView> {
    seq![
        RequirementConfigView { name: "Name of requirement 1"@, due: HourMinute { hour: 8, minute: 30 } },
        RequirementConfigView { name: "Name of requirement 2"@, due: HourMinute { hour: 20, minute: 0 } },
    ]
}

/// The range templates of the default configuration: the night up to 04:30,
/// the hour from noon, and the evening from 22:00.
pub open spec fn default_locked_time_ranges() -> Seq<LockedTimeRangeConfig> {
    seq![
        LockedTimeRangeConfig { start: None, end: Some(HourMinute { hour: 4, minute: 30 }) },
        LockedTimeRangeConfig {
            start: Some(HourMinute { hour: 12, minute: 0 }),
            end: Some(HourMinute { hour: 13, minute: 0 }),
        },
        LockedTimeRangeConfig { start: Some(HourMinute { hour: 22, minute: 0 }), end: None },
    ]
}

impl Default for DiagonatorConfig {
    /// The configuration that is written out where none exists yet.
    fn default() -> (config: DiagonatorConfig)
        ensures
            config.bind_on@ == "0.0.0.0:3000"@,
            config.requirements.is_some(),
            requirement_config_views(config.requirements.unwrap()@) == default_requirements(),
            config.locked_time_ranges.is_some(),
            config.locked_time_ranges.unwrap()@ == default_locked_time_ranges(),
            config.work_period_minutes == 25,
            config.break_minutes == 5,
    {
        let requirements = vec![
            RequirementConfig {
                name: "Name of requirement 1".to_owned(),
                due: HourMinute::new(8, 30).unwrap(),
            },
            RequirementConfig {
                name: "Name of requirement 2".to_owned(),
                due: HourMinute::new(20, 0).unwrap(),
            },
        ];
        let locked_time_ranges = vec![
            LockedTimeRangeConfig { start: None, end: Some(HourMinute::new(4, 30).unwrap()) },
            LockedTimeRangeConfig {
                start: Some(HourMinute::new(12, 0).unwrap()),
                end: Some(HourMinute::new(13, 0).unwrap()),
            },
            LockedTimeRangeConfig { start: Some(HourMinute::new(22, 0).unwrap()), end: None },
        ];
        assert(requirement_config_views(requirements@) =~= default_requirements());
        assert(locked_time_ranges@ =~= default_locked_time_ranges());
        DiagonatorConfig {
            bind_on: "0.0.0.0:3000".to_owned(),
            requirements: Some(requirements),
            locked_time_ranges: Some(locked_time_ranges),
            work_period_minutes: 25,
            break_minutes: 5,
        }
    }
}

} // verus!
