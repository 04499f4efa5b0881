use data_acquisition::calendar::Date;
use data_acquisition::enumerate::{enumerate_timestamps, DEFAULT_HOURS_PER_DAY};
use data_acquisition::work_item::Timestamp;

fn date(year: i32, month: u32, day: u32) -> Date {
    Date::from_ymd(year, month, day).unwrap()
}

#[test]
fn default_hours_per_day_is_23() {
    assert_eq!(DEFAULT_HOURS_PER_DAY, 23);
}

#[test]
fn single_day_yields_hours_0_to_22() {
    let d = date(2021, 1, 1);
    let stamps = enumerate_timestamps(d, d, 23);
    assert_eq!(stamps.len(), 23);
    for (i, t) in stamps.iter().enumerate() {
        assert_eq!(*t, Timestamp { date: d, hour: i as u32 });
    }
    assert_eq!(stamps[22].hour, 22);
}

#[test]
fn range_count_is_days_times_hours() {
    let stamps = enumerate_timestamps(date(2020, 2, 27), date(2020, 3, 2), 23);
    assert_eq!(stamps.len(), 5 * 23);
    let stamps = enumerate_timestamps(date(2021, 2, 27), date(2021, 3, 2), 23);
    assert_eq!(stamps.len(), 4 * 23);
    let stamps = enumerate_timestamps(date(2020, 1, 1), date(2020, 12, 31), 24);
    assert_eq!(stamps.len(), 366 * 24);
    let stamps = enumerate_timestamps(date(2021, 1, 1), date(2021, 12, 31), 1);
    assert_eq!(stamps.len(), 365);
}

#[test]
fn range_is_day_then_hour_ascending() {
    let stamps = enumerate_timestamps(date(2021, 12, 30), date(2022, 1, 2), 3);
    let expected = vec![
        (2021, 12, 30, 0), (2021, 12, 30, 1), (2021, 12, 30, 2),
        (2021, 12, 31, 0), (2021, 12, 31, 1), (2021, 12, 31, 2),
        (2022, 1, 1, 0), (2022, 1, 1, 1), (2022, 1, 1, 2),
        (2022, 1, 2, 0), (2022, 1, 2, 1), (2022, 1, 2, 2),
    ];
    assert_eq!(stamps.len(), expected.len());
    for (t, e) in stamps.iter().zip(expected.iter()) {
        assert_eq!((t.date.year, t.date.month, t.date.day, t.hour), *e);
    }
}

#[test]
fn range_is_strictly_increasing_without_duplicates() {
    let stamps = enumerate_timestamps(date(2019, 12, 25), date(2020, 3, 5), 23);
    for pair in stamps.windows(2) {
        let a = (pair[0].date.year, pair[0].date.month, pair[0].date.day, pair[0].hour);
        let b = (pair[1].date.year, pair[1].date.month, pair[1].date.day, pair[1].hour);
        assert!(a < b);
    }
}

#[test]
fn end_before_start_yields_nothing() {
    let stamps = enumerate_timestamps(date(2021, 1, 2), date(2021, 1, 1), 23);
    assert!(stamps.is_empty());
}

#[test]
fn zero_hours_yields_nothing() {
    let stamps = enumerate_timestamps(date(2021, 1, 1), date(2021, 1, 5), 0);
    assert!(stamps.is_empty());
}

#[test]
fn range_may_end_on_the_last_day() {
    let stamps = enumerate_timestamps(date(262142, 12, 30), date(262142, 12, 31), 2);
    assert_eq!(stamps.len(), 4);
    assert_eq!(stamps[3], Timestamp { date: date(262142, 12, 31), hour: 1 });
}

#[test]
fn enumeration_is_repeatable() {
    let a = enumerate_timestamps(date(2021, 1, 30), date(2021, 2, 2), 23);
    let b = enumerate_timestamps(date(2021, 1, 30), date(2021, 2, 2), 23);
    assert_eq!(a, b);
}
