use timeseries_aggregation::aggregation::aggregate;
use timeseries_aggregation::calendar::truncate;
use timeseries_aggregation::{
    AggregationQuery, CalendarDate, Granularity, PowerByPeriod, Timeseries, Window,
};

const OCT_1_2025: i64 = 1759276800;
const HOUR: i64 = 3600;
const DAY: i64 = 86400;

fn date(y: i32, m: u32, d: u32) -> CalendarDate {
    CalendarDate::from_ymd(y, m, d).unwrap()
}

/// One reading per hour of 9000 kWh from 2025-10-01T00:00Z through 2025-10-23T23:00Z.
fn seed() -> Vec<Timeseries> {
    (0..23 * 24)
        .map(|h| Timeseries { time: OCT_1_2025 + h * HOUR, quantity_wh: 9_000_000 })
        .collect()
}

fn kwh(b: &PowerByPeriod) -> f64 {
    b.total_quantity as f64 / 1000.0
}

fn run(g: Granularity, from: (i32, u32, u32), to: (i32, u32, u32)) -> Vec<PowerByPeriod> {
    let q = AggregationQuery::new(g, Some(date(from.0, from.1, from.2)), Some(date(to.0, to.1, to.2)));
    timeseries_aggregation::aggregation::aggregate_query(&seed(), &q, OCT_1_2025).results
}

#[test]
fn a_month_query_for_less_than_30_days_returns_one_result() {
    let results = run(Granularity::Monthly, (2025, 10, 1), (2025, 10, 23));
    assert_eq!(results.len(), 1);
    assert_eq!(results[0].timestamp, OCT_1_2025);
    assert_eq!(kwh(&results[0]), 4968000.0);
}

#[test]
fn a_day_query_for_one_day_returns_one_result() {
    let results = run(Granularity::DayOfMonth, (2025, 10, 1), (2025, 10, 1));
    assert_eq!(results.len(), 1);
    assert_eq!(results[0].timestamp, OCT_1_2025);
    assert_eq!(kwh(&results[0]), 216000.0);
}

#[test]
fn a_day_query_for_four_days_returns_four_results() {
    let results = run(Granularity::DayOfMonth, (2025, 10, 1), (2025, 10, 4));
    assert_eq!(results.len(), 4);
    for (i, b) in results.iter().enumerate() {
        assert_eq!(b.timestamp, OCT_1_2025 + i as i64 * DAY);
        assert_eq!(kwh(b), 216000.0);
    }
}

#[test]
fn hourly_query_gives_one_bucket_per_reading() {
    let results = run(Granularity::Hourly, (2025, 10, 2), (2025, 10, 2));
    assert_eq!(results.len(), 24);
    assert_eq!(results[0].timestamp, OCT_1_2025 + DAY);
    assert_eq!(results[23].timestamp, OCT_1_2025 + DAY + 23 * HOUR);
    assert!(results.iter().all(|b| b.total_quantity == 9_000_000));
}

#[test]
fn reading_at_window_end_is_excluded() {
    let readings = vec![
        Timeseries { time: 100, quantity_wh: 5 },
        Timeseries { time: 200, quantity_wh: 7 },
    ];
    let r = aggregate(&readings, Window { start: 0, end: 200 }, Granularity::Hourly);
    assert_eq!(r, vec![PowerByPeriod { timestamp: 0, total_quantity: 5 }]);
}

#[test]
fn reading_at_window_start_is_included() {
    let readings = vec![Timeseries { time: 7200, quantity_wh: 3 }];
    let r = aggregate(&readings, Window { start: 7200, end: 7201 }, Granularity::Hourly);
    assert_eq!(r, vec![PowerByPeriod { timestamp: 7200, total_quantity: 3 }]);
}

#[test]
fn empty_window_gives_no_buckets() {
    let results = run(Granularity::DayOfMonth, (2025, 11, 1), (2025, 11, 30));
    assert!(results.is_empty());
    let none = aggregate(&Vec::new(), Window { start: 0, end: 1000 }, Granularity::Monthly);
    assert!(none.is_empty());
}

#[test]
fn inverted_range_gives_no_buckets() {
    let results = run(Granularity::DayOfMonth, (2025, 10, 5), (2025, 10, 2));
    assert!(results.is_empty());
}

#[test]
fn buckets_are_ascending_and_sum_unordered_readings() {
    let readings = vec![
        Timeseries { time: 3 * HOUR + 10, quantity_wh: 1 },
        Timeseries { time: HOUR + 5, quantity_wh: 2 },
        Timeseries { time: 3 * HOUR + 20, quantity_wh: -4 },
        Timeseries { time: HOUR, quantity_wh: 8 },
    ];
    let r = aggregate(&readings, Window { start: 0, end: 10 * HOUR }, Granularity::Hourly);
    assert_eq!(
        r,
        vec![
            PowerByPeriod { timestamp: HOUR, total_quantity: 10 },
            PowerByPeriod { timestamp: 3 * HOUR, total_quantity: -3 },
        ]
    );
}

#[test]
fn totals_do_not_overflow_for_large_quantities() {
    let readings = vec![
        Timeseries { time: 0, quantity_wh: i64::MAX },
        Timeseries { time: 1, quantity_wh: i64::MAX },
    ];
    let r = aggregate(&readings, Window { start: 0, end: 10 }, Granularity::DayOfMonth);
    assert_eq!(r[0].total_quantity, 2 * i64::MAX as i128);
}

#[test]
fn aggregation_is_the_same_when_read_twice() {
    let readings = seed();
    let q = AggregationQuery::new(Granularity::DayOfMonth, Some(date(2025, 10, 3)), None);
    let a = timeseries_aggregation::aggregation::aggregate_query(&readings, &q, OCT_1_2025 + 30 * DAY);
    let b = timeseries_aggregation::aggregation::aggregate_query(&readings, &q, OCT_1_2025 + 30 * DAY);
    assert_eq!(a.results, b.results);
    assert_eq!(a.results.len(), 21);
}

#[test]
fn open_window_uses_epoch_and_day_after_now() {
    let q = AggregationQuery::new(Granularity::Hourly, None, None);
    let w = q.resolve_window(1000);
    assert_eq!(w, Window { start: 0, end: 1000 + DAY });
}

#[test]
fn closed_window_runs_to_midnight_after_last_day() {
    let q = AggregationQuery::new(Granularity::Hourly, Some(date(2025, 10, 1)), Some(date(2025, 10, 23)));
    let w = q.resolve_window(0);
    assert_eq!(w, Window { start: OCT_1_2025, end: OCT_1_2025 + 23 * DAY });
}

#[test]
fn open_upper_end_counts_readings_up_to_a_day_after_now() {
    let readings = vec![
        Timeseries { time: 10, quantity_wh: 1 },
        Timeseries { time: 10 + DAY - 1, quantity_wh: 2 },
        Timeseries { time: 10 + DAY, quantity_wh: 4 },
    ];
    let q = AggregationQuery::new(Granularity::Monthly, None, None);
    let a = timeseries_aggregation::aggregation::aggregate_query(&readings, &q, 10);
    assert_eq!(a.results, vec![PowerByPeriod { timestamp: 0, total_quantity: 3 }]);
}

#[test]
fn truncation_follows_calendar_units() {
    let t = 1760535910; // 2025-10-15T13:45:10Z
    assert_eq!(truncate(Granularity::Hourly, t), 1760535910 - 45 * 60 - 10);
    assert_eq!(truncate(Granularity::DayOfMonth, t), OCT_1_2025 + 14 * DAY);
    assert_eq!(truncate(Granularity::Monthly, t), OCT_1_2025);
    assert_eq!(truncate(Granularity::Monthly, 1709164800 + 5), 1709164800 - 28 * DAY);
}

#[test]
fn truncation_before_the_epoch_rounds_down() {
    let t = -1449000; // 1969-12-15T05:30:00Z
    assert_eq!(truncate(Granularity::Hourly, t), -1449000 - 30 * 60);
    assert_eq!(truncate(Granularity::DayOfMonth, t), -1449000 - 5 * HOUR - 30 * 60);
    assert_eq!(truncate(Granularity::Monthly, t), -2678400);
    assert_eq!(truncate(Granularity::Hourly, -1), -HOUR);
}

#[test]
fn monthly_buckets_follow_calendar_months() {
    let readings = vec![
        Timeseries { time: 1709164800 - 1, quantity_wh: 1 },
        Timeseries { time: 1709164800, quantity_wh: 2 },
        Timeseries { time: 1709164800 + DAY, quantity_wh: 4 },
    ];
    let r = aggregate(&readings, Window { start: 0, end: i64::MAX }, Granularity::Monthly);
    assert_eq!(r.len(), 2);
    assert_eq!(r[0], PowerByPeriod { timestamp: 1709164800 - 28 * DAY, total_quantity: 3 });
    assert_eq!(r[1], PowerByPeriod { timestamp: 1709164800 + DAY, total_quantity: 4 });
}
