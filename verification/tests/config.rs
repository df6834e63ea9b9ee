use diagonator::config::{DiagonatorConfig, LockedTimeRangeConfig, RequirementConfig};
use diagonator::time::HourMinute;

#[test]
fn default_configuration() {
    let config = DiagonatorConfig::default();
    assert_eq!(config.bind_on, "0.0.0.0:3000");
    assert_eq!(config.work_period_minutes, 25);
    assert_eq!(config.break_minutes, 5);
    let requirements = config.requirements.unwrap();
    assert_eq!(requirements.len(), 2);
    assert_eq!(requirements[0].name, "Name of requirement 1");
    assert_eq!(requirements[0].due, HourMinute { hour: 8, minute: 30 });
    assert_eq!(requirements[1].name, "Name of requirement 2");
    assert_eq!(requirements[1].due, HourMinute { hour: 20, minute: 0 });
    let ranges = config.locked_time_ranges.unwrap();
    assert_eq!(
        ranges,
        vec![
            LockedTimeRangeConfig { start: None, end: Some(HourMinute { hour: 4, minute: 30 }) },
            LockedTimeRangeConfig {
                start: Some(HourMinute { hour: 12, minute: 0 }),
                end: Some(HourMinute { hour: 13, minute: 0 }),
            },
            LockedTimeRangeConfig { start: Some(HourMinute { hour: 22, minute: 0 }), end: None },
        ]
    );
}

#[test]
fn requirement_template_clone_keeps_the_value() {
    let template = RequirementConfig { name: "Read".to_owned(), due: HourMinute { hour: 9, minute: 15 } };
    let copy = template.clone();
    assert_eq!(copy.name, "Read");
    assert_eq!(copy.due, HourMinute { hour: 9, minute: 15 });
}
