use diagonator::time::{Duration, HourMinute, LocalDate, Timestamp};

#[test]
fn hour_minute_accepts_times_of_day() {
    assert_eq!(HourMinute::new(0, 0), Some(HourMinute { hour: 0, minute: 0 }));
    assert_eq!(HourMinute::new(8, 30), Some(HourMinute { hour: 8, minute: 30 }));
    assert_eq!(HourMinute::new(23, 59), Some(HourMinute { hour: 23, minute: 59 }));
}

#[test]
fn hour_minute_rejects_what_is_no_time_of_day() {
    assert_eq!(HourMinute::new(24, 0), None);
    assert_eq!(HourMinute::new(0, 60), None);
    assert_eq!(HourMinute::new(255, 255), None);
}

#[test]
fn zero_is_the_epoch() {
    assert_eq!(Timestamp::zero(), Timestamp { secs: 0 });
    assert_eq!(Timestamp::zero().get_date(), LocalDate { days: 0 });
}

#[test]
fn date_of_an_instant_is_its_day() {
    assert_eq!(Timestamp::from_secs(86_399).get_date(), LocalDate { days: 0 });
    assert_eq!(Timestamp::from_secs(86_400).get_date(), LocalDate { days: 1 });
    assert_eq!(Timestamp::from_secs(864_000 + 30_600).get_date(), LocalDate { days: 10 });
}

#[test]
fn time_of_day_on_a_date() {
    let date = LocalDate { days: 10 };
    let due = HourMinute::new(8, 30).unwrap();
    assert_eq!(Timestamp::from_date_hm(&date, &due), Timestamp { secs: 894_600 });
    assert_eq!(Timestamp::from_date_hm(&date, &due).get_date(), date);
    let midnight = HourMinute::new(0, 0).unwrap();
    assert_eq!(Timestamp::from_date_hm(&date, &midnight), Timestamp { secs: 864_000 });
}

#[test]
fn time_of_day_on_a_far_date_saturates() {
    let date = LocalDate { days: u64::MAX };
    let due = HourMinute::new(8, 30).unwrap();
    assert_eq!(Timestamp::from_date_hm(&date, &due), Timestamp { secs: u64::MAX });
    let last = LocalDate { days: u64::MAX / 86_400 };
    let late = HourMinute::new(23, 59).unwrap();
    assert_eq!(Timestamp::from_date_hm(&last, &late), Timestamp { secs: u64::MAX });
}

#[test]
fn optional_time_of_day_on_a_date() {
    let date = LocalDate { days: 1 };
    assert_eq!(Timestamp::from_date_hm_opt(&date, &None), None);
    assert_eq!(
        Timestamp::from_date_hm_opt(&date, &HourMinute::new(22, 0)),
        Some(Timestamp { secs: 86_400 + 79_200 })
    );
}

#[test]
fn plus_adds_seconds() {
    let t = Timestamp::from_secs(1_000).plus(Duration::from_secs(500));
    assert_eq!(t, Timestamp { secs: 1_500 });
    assert_eq!(Timestamp::from_secs(7).plus(Duration::from_secs(0)), Timestamp { secs: 7 });
}

#[test]
fn plus_saturates_at_the_last_instant() {
    let t = Timestamp::from_secs(u64::MAX - 1).plus(Duration::from_secs(5));
    assert_eq!(t, Timestamp { secs: u64::MAX });
}

#[test]
fn minutes_become_seconds() {
    assert_eq!(Duration::from_minutes(25), Duration { secs: 1_500 });
    assert_eq!(Duration::from_minutes(5), Duration { secs: 300 });
    assert_eq!(Duration::from_minutes(0), Duration { secs: 0 });
}

#[test]
fn negative_minutes_are_empty() {
    assert_eq!(Duration::from_minutes(-1), Duration { secs: 0 });
    assert_eq!(Duration::from_minutes(i64::MIN), Duration { secs: 0 });
}

#[test]
fn the_longest_minute_count_fits() {
    assert_eq!(Duration::from_minutes(i64::MAX), Duration { secs: u64::MAX });
    assert_eq!(Duration::from_minutes(1 << 58), Duration { secs: (1u64 << 58) * 60 });
}
