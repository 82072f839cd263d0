use replay_rs::calendar::LocalTime;

const AT: LocalTime = LocalTime { year: 2026, month: 9, day: 21, hour: 0, minute: 14, second: 37 };

#[test]
fn clip_stamp_is_padded() {
    assert_eq!(AT.stamp().as_deref(), Some("2026-09-21_00-14-37"));
    let new_year = LocalTime { year: 2026, month: 1, day: 1, hour: 0, minute: 0, second: 0 };
    assert_eq!(new_year.stamp().as_deref(), Some("2026-01-01_00-00-00"));
}

#[test]
fn list_shows_day_and_minute() {
    assert_eq!(AT.listing().as_deref(), Some("21.09.2026  00:14"));
}

#[test]
fn moments_outside_the_calendar_have_no_text() {
    assert_eq!(LocalTime { month: 2, day: 29, ..AT }.stamp(), None);
    assert_eq!(LocalTime { year: 2024, month: 2, day: 29, ..AT }.stamp().as_deref(), Some("2024-02-29_00-14-37"));
    assert_eq!(LocalTime { year: 1900, month: 2, day: 29, ..AT }.stamp(), None);
    assert_eq!(LocalTime { month: 4, day: 31, ..AT }.listing(), None);
    assert_eq!(LocalTime { day: 0, ..AT }.stamp(), None);
    assert_eq!(LocalTime { hour: 24, ..AT }.stamp(), None);
    assert_eq!(LocalTime { minute: 60, ..AT }.stamp(), None);
    assert_eq!(LocalTime { second: 60, ..AT }.stamp(), None);
    assert_eq!(LocalTime { year: 262_143, ..AT }.stamp(), None);
    assert_eq!(LocalTime { year: -262_144, ..AT }.stamp(), None);
}

#[test]
fn years_of_other_lengths() {
    assert_eq!(LocalTime { year: 7, ..AT }.stamp().as_deref(), Some("0007-09-21_00-14-37"));
    assert_eq!(LocalTime { year: -5, ..AT }.stamp().as_deref(), Some("-0005-09-21_00-14-37"));
    assert_eq!(LocalTime { year: 12_345, ..AT }.stamp().as_deref(), Some("+12345-09-21_00-14-37"));
    assert_eq!(LocalTime { year: 262_142, ..AT }.listing().as_deref(), Some("21.09.+262142  00:14"));
    assert_eq!(LocalTime { year: -262_143, ..AT }.stamp().as_deref(), Some("-262143-09-21_00-14-37"));
}
