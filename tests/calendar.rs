use timeseries_aggregation::calendar::{MAX_DAY, MIN_DAY};
use timeseries_aggregation::{CalendarDate, Granularity};

#[test]
fn dates_convert_to_day_numbers() {
    assert_eq!(CalendarDate::from_ymd(1970, 1, 1).unwrap().days(), 0);
    assert_eq!(CalendarDate::from_ymd(2025, 10, 1).unwrap().days(), 20362);
    assert_eq!(CalendarDate::from_ymd(2025, 10, 1).unwrap().midnight(), 1759276800);
    assert_eq!(CalendarDate::from_ymd(1969, 12, 31).unwrap().days(), -1);
    assert_eq!(CalendarDate::from_ymd(1, 1, 1).unwrap().days(), MIN_DAY);
    assert_eq!(CalendarDate::from_ymd(9999, 12, 31).unwrap().days(), MAX_DAY);
}

#[test]
fn invalid_or_unsupported_dates_are_refused() {
    assert!(CalendarDate::from_ymd(2025, 2, 29).is_none());
    assert!(CalendarDate::from_ymd(2025, 13, 1).is_none());
    assert!(CalendarDate::from_ymd(2025, 4, 31).is_none());
    assert!(CalendarDate::from_ymd(10000, 1, 1).is_none());
    assert!(CalendarDate::from_ymd(0, 12, 31).is_none());
    assert!(CalendarDate::from_ymd(2024, 2, 29).is_some());
}

#[test]
fn day_numbers_are_bounded() {
    assert_eq!(CalendarDate::from_days(5).unwrap().days(), 5);
    assert!(CalendarDate::from_days(MIN_DAY - 1).is_none());
    assert!(CalendarDate::from_days(MAX_DAY + 1).is_none());
    assert_eq!(CalendarDate::from_days(MAX_DAY).unwrap().midnight(), 253402214400);
}

#[test]
fn granularity_names() {
    assert_eq!(Granularity::Hourly.to_string(), "hourly");
    assert_eq!(Granularity::DayOfMonth.to_string(), "dayOfMonth");
    assert_eq!(Granularity::Monthly.to_string(), "monthly");
}
