use data_acquisition::calendar::{Date, MAX_YEAR, MIN_YEAR};
use data_acquisition::text::two_digits;

fn date(year: i32, month: u32, day: u32) -> Date {
    Date::from_ymd(year, month, day).unwrap()
}

#[test]
fn from_ymd_accepts_calendar_days() {
    assert_eq!(Date::from_ymd(2021, 1, 1), Some(Date { year: 2021, month: 1, day: 1 }));
    assert_eq!(Date::from_ymd(2020, 2, 29), Some(Date { year: 2020, month: 2, day: 29 }));
    assert_eq!(Date::from_ymd(2000, 2, 29), Some(Date { year: 2000, month: 2, day: 29 }));
    assert_eq!(Date::from_ymd(-4, 2, 29), Some(Date { year: -4, month: 2, day: 29 }));
    assert_eq!(Date::from_ymd(2021, 12, 31), Some(Date { year: 2021, month: 12, day: 31 }));
}

#[test]
fn from_ymd_refuses_days_that_do_not_exist() {
    assert_eq!(Date::from_ymd(2021, 2, 29), None);
    assert_eq!(Date::from_ymd(1900, 2, 29), None);
    assert_eq!(Date::from_ymd(2021, 4, 31), None);
    assert_eq!(Date::from_ymd(2021, 0, 10), None);
    assert_eq!(Date::from_ymd(2021, 13, 10), None);
    assert_eq!(Date::from_ymd(2021, 1, 0), None);
    assert_eq!(Date::from_ymd(2021, 1, 32), None);
}

#[test]
fn from_ymd_year_limits() {
    assert!(Date::from_ymd(MAX_YEAR, 12, 31).is_some());
    assert!(Date::from_ymd(MAX_YEAR + 1, 1, 1).is_none());
    assert!(Date::from_ymd(MIN_YEAR, 1, 1).is_some());
    assert!(Date::from_ymd(MIN_YEAR - 1, 12, 31).is_none());
    assert_eq!(MAX_YEAR, 262142);
    assert_eq!(MIN_YEAR, -262143);
}

#[test]
fn successor_within_month() {
    assert_eq!(date(2021, 1, 1).successor(), Some(date(2021, 1, 2)));
    assert_eq!(date(2020, 2, 28).successor(), Some(date(2020, 2, 29)));
}

#[test]
fn successor_across_month_and_year() {
    assert_eq!(date(2021, 2, 28).successor(), Some(date(2021, 3, 1)));
    assert_eq!(date(2020, 2, 29).successor(), Some(date(2020, 3, 1)));
    assert_eq!(date(2021, 4, 30).successor(), Some(date(2021, 5, 1)));
    assert_eq!(date(2021, 12, 31).successor(), Some(date(2022, 1, 1)));
    assert_eq!(date(-1, 12, 31).successor(), Some(date(0, 1, 1)));
}

#[test]
fn successor_of_last_day_is_none() {
    assert_eq!(date(MAX_YEAR, 12, 31).successor(), None);
    assert_eq!(date(MAX_YEAR, 12, 30).successor(), Some(date(MAX_YEAR, 12, 31)));
}

#[test]
fn before_orders_by_year_month_day() {
    assert!(date(2020, 12, 31).before(date(2021, 1, 1)));
    assert!(date(2021, 1, 31).before(date(2021, 2, 1)));
    assert!(date(2021, 2, 1).before(date(2021, 2, 2)));
    assert!(!date(2021, 2, 2).before(date(2021, 2, 2)));
    assert!(!date(2021, 2, 3).before(date(2021, 2, 2)));
    assert!(!date(2022, 1, 1).before(date(2021, 12, 31)));
}

#[test]
fn year_string_four_digits() {
    assert_eq!(date(2021, 1, 1).year_string(), "2021");
    assert_eq!(date(5, 1, 1).year_string(), "0005");
    assert_eq!(date(0, 1, 1).year_string(), "0000");
    assert_eq!(date(9999, 1, 1).year_string(), "9999");
    assert_eq!(date(1000, 1, 1).year_string(), "1000");
    assert_eq!(date(999, 1, 1).year_string(), "0999");
}

#[test]
fn year_string_signed_outside_four_digits() {
    assert_eq!(date(10000, 1, 1).year_string(), "+10000");
    assert_eq!(date(12345, 1, 1).year_string(), "+12345");
    assert_eq!(date(262142, 1, 1).year_string(), "+262142");
    assert_eq!(date(-1, 1, 1).year_string(), "-0001");
    assert_eq!(date(-9999, 1, 1).year_string(), "-9999");
    assert_eq!(date(-12345, 1, 1).year_string(), "-12345");
    assert_eq!(date(-262143, 1, 1).year_string(), "-262143");
}

#[test]
fn month_and_day_strings_are_zero_padded() {
    assert_eq!(date(2021, 3, 7).month_string(), "03");
    assert_eq!(date(2021, 3, 7).day_string(), "07");
    assert_eq!(date(2021, 12, 31).month_string(), "12");
    assert_eq!(date(2021, 12, 31).day_string(), "31");
}

#[test]
fn two_digits_pads_with_zero() {
    assert_eq!(two_digits(0), "00");
    assert_eq!(two_digits(5), "05");
    assert_eq!(two_digits(10), "10");
    assert_eq!(two_digits(22), "22");
    assert_eq!(two_digits(99), "99");
}
