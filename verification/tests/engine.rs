use heatingpump::engine::{Engine, Row, Signals};
use heatingpump::log::{aggregate_lines, RunError};
use heatingpump::row::Columns;
use heatingpump::sampler::Percentiles;
use heatingpump::stream::aggregate;
use heatingpump::timestamp::{Anomaly, Timestamp};

fn row(year: i32, month: u32, seconds: i64, value: i64) -> Row {
    Row {
        stamp: Timestamp { year, month, seconds },
        signals: Signals {
            outdoor: value,
            room_set_0: value + 1,
            room_set_1: value + 2,
            room_temp_0: value + 3,
            room_temp_1: value + 4,
            electric_power: 1_000_000,
            heat_power: 3_500_000,
        },
    }
}

fn single() -> Columns {
    Columns {
        timestamp: 0,
        outdoor: 1,
        room_set_0: 1,
        room_set_1: 1,
        room_temp_0: 1,
        room_temp_1: 1,
        electric_power: 1,
        heat_power: 1,
    }
}

fn lines(text: &[&str]) -> Vec<Vec<u8>> {
    text.iter().map(|l| l.as_bytes().to_vec()).collect()
}

#[test]
fn two_rows_across_a_month_boundary() {
    let log = lines(&["30.06.2023 23:59:00;10", "01.07.2023 00:01:00;20"]);
    let report = aggregate_lines(&log, b';', &single()).unwrap();
    assert_eq!(report.rows, 2);
    assert_eq!(report.skipped, 0);
    assert_eq!(report.anomalies, 0);
    assert_eq!(report.summaries.len(), 2);
    let june = &report.summaries[0];
    assert_eq!(june.month_key, 202_306);
    assert_eq!(june.rows, 1);
    assert_eq!(june.seconds, 120);
    assert_eq!(june.outdoor.count(), 120);
    assert_eq!(june.outdoor.avg(), 10_000);
    assert_eq!(june.outdoor.min(), 10_000);
    assert_eq!(june.outdoor.max(), 10_000);
    assert_eq!(june.outdoor.sum(), 1_200_000);
    assert_eq!(
        june.percentiles,
        Some(Percentiles { p05: 10_000, p25: 10_000, p50: 10_000, p75: 10_000, p95: 10_000 })
    );
    assert_eq!(june.samples.len(), 120);
    assert_eq!(june.cop_milli, Some(1000));
    let july = &report.summaries[1];
    assert_eq!(july.month_key, 202_307);
    assert_eq!(july.rows, 0);
    assert_eq!(july.seconds, 0);
    assert_eq!(july.outdoor.count(), 0);
    assert_eq!(july.percentiles, None);
    assert_eq!(july.cop_milli, None);
}

#[test]
fn empty_stream_reports_nothing() {
    let report = aggregate_lines(&Vec::new(), b';', &single()).unwrap();
    assert_eq!(report.summaries.len(), 0);
    assert_eq!(report.rows, 0);
    assert_eq!(report.skipped, 0);
    assert_eq!(aggregate(&Vec::new()).unwrap().len(), 0);
    assert!(Engine::new().finish().is_none());
}

#[test]
fn single_row_reports_one_month_of_no_duration() {
    let report = aggregate_lines(&lines(&["15.03.2024 12:00:00;4.5"]), b';', &single()).unwrap();
    assert_eq!(report.rows, 1);
    assert_eq!(report.summaries.len(), 1);
    let only = &report.summaries[0];
    assert_eq!(only.month_key, 202_403);
    assert_eq!(only.rows, 0);
    assert_eq!(only.seconds, 0);
    assert_eq!(only.outdoor.count(), 0);
    assert_eq!(only.percentiles, None);
    assert_eq!(only.electric_wh, 0);
}

#[test]
fn heading_is_skipped_and_counted() {
    let log = lines(&[
        "Time;outdoor",
        "01.01.2024 00:00:00;1",
        "",
        "01.01.2024 00:00:10;2",
        "01.01.2024 00:00:30;3",
    ]);
    let report = aggregate_lines(&log, b';', &single()).unwrap();
    assert_eq!(report.rows, 3);
    assert_eq!(report.skipped, 2);
    assert_eq!(report.summaries.len(), 1);
    let january = &report.summaries[0];
    assert_eq!(january.rows, 2);
    assert_eq!(january.seconds, 30);
    assert_eq!(january.outdoor.sum(), 10 * 1_000 + 20 * 2_000);
    assert_eq!(january.outdoor.avg(), 1_666);
    assert_eq!(january.outdoor.min(), 1_000);
    assert_eq!(january.outdoor.max(), 2_000);
}

#[test]
fn bad_number_stops_the_run() {
    let log = lines(&["Time;outdoor", "01.01.2024 00:00:00;1", "01.01.2024 00:00:10;n/a"]);
    let r = aggregate_lines(&log, b';', &single());
    assert_eq!(r.err(), Some(RunError::Number { line: 2 }));
}

#[test]
fn previous_values_are_weighted_by_the_gap() {
    let mut e = Engine::new();
    assert!(e.push(row(2024, 1, 0, 100)).unwrap().emitted.is_none());
    assert!(e.push(row(2024, 1, 300, 200)).unwrap().emitted.is_none());
    assert!(e.push(row(2024, 1, 301, 900)).unwrap().emitted.is_none());
    let s = e.finish().unwrap();
    assert_eq!(s.rows, 2);
    assert_eq!(s.seconds, 301);
    assert_eq!(s.outdoor.sum(), 300 * 100 + 200);
    assert_eq!(s.outdoor.min(), 100);
    assert_eq!(s.outdoor.max(), 200);
    assert_eq!(s.room_set_0.sum(), 300 * 101 + 201);
    assert_eq!(s.room_set_1.sum(), 300 * 102 + 202);
    assert_eq!(s.room_temp_0.sum(), 300 * 103 + 203);
    assert_eq!(s.room_temp_1.sum(), 300 * 104 + 204);
    assert_eq!(s.electric_power.sum(), 301_000_000);
    assert_eq!(s.heat_power.sum(), 1_053_500_000);
    assert_eq!(s.electric_wh, 83);
    assert_eq!(s.heat_wh, 292);
    assert_eq!(s.cop_milli, Some(3500));
    assert_eq!(
        s.percentiles,
        Some(Percentiles { p05: 100, p25: 100, p50: 100, p75: 100, p95: 100 })
    );
}

#[test]
fn month_change_reports_the_closed_month() {
    let mut e = Engine::new();
    assert!(e.push(row(2024, 1, 1_000, 5)).unwrap().emitted.is_none());
    assert!(e.push(row(2024, 1, 1_060, 7)).unwrap().emitted.is_none());
    let closed = e.push(row(2024, 2, 1_100, 9)).unwrap().emitted.unwrap();
    assert_eq!(closed.month_key, 202_401);
    assert_eq!(closed.rows, 2);
    assert_eq!(closed.seconds, 100);
    assert_eq!(closed.outdoor.sum(), 60 * 5 + 40 * 7);
    assert_eq!(closed.samples.len(), 100);
    assert_eq!(closed.percentiles, Some(Percentiles { p05: 5, p25: 5, p50: 5, p75: 7, p95: 7 }));
    let last = e.finish().unwrap();
    assert_eq!(last.month_key, 202_402);
    assert_eq!(last.seconds, 0);
}

#[test]
fn month_without_seconds_is_not_reported_on_change() {
    let mut e = Engine::new();
    assert!(e.push(row(2024, 1, 50, 5)).unwrap().emitted.is_none());
    assert!(e.push(row(2024, 2, 50, 6)).unwrap().emitted.is_none());
    let s = e.finish().unwrap();
    assert_eq!(s.month_key, 202_402);
    assert_eq!(s.rows, 0);
}

#[test]
fn backward_clock_is_flagged_and_credits_nothing() {
    let mut e = Engine::new();
    assert_eq!(e.push(row(2024, 1, 500, 5)).unwrap().anomaly, None);
    assert_eq!(e.push(row(2024, 1, 400, 6)).unwrap().anomaly, Some(Anomaly::Backward));
    assert_eq!(e.push(row(2024, 1, 410, 7)).unwrap().anomaly, None);
    let s = e.finish().unwrap();
    assert_eq!(s.rows, 2);
    assert_eq!(s.seconds, 10);
    assert_eq!(s.outdoor.sum(), 60);
    assert_eq!(s.outdoor.min(), 6);
}

#[test]
fn gap_in_the_log_is_flagged_and_limited() {
    let mut e = Engine::new();
    assert_eq!(e.push(row(2024, 1, 0, 5)).unwrap().anomaly, None);
    assert_eq!(e.push(row(2024, 1, 1_000_000, 6)).unwrap().anomaly, Some(Anomaly::Overlong));
    let s = e.finish().unwrap();
    assert_eq!(s.seconds, 86_400);
    assert_eq!(s.outdoor.sum(), 5 * 86_400);
}

#[test]
fn anomalies_are_counted_over_a_log() {
    let log = lines(&[
        "01.01.2024 00:00:10;1",
        "01.01.2024 00:00:00;2",
        "05.01.2024 00:00:00;3",
        "05.01.2024 00:00:01;4",
    ]);
    let report = aggregate_lines(&log, b';', &single()).unwrap();
    assert_eq!(report.anomalies, 2);
    assert_eq!(report.rows, 4);
    assert_eq!(report.summaries.len(), 1);
    assert_eq!(report.summaries[0].seconds, 86_401);
    assert_eq!(report.summaries[0].rows, 3);
}

#[test]
fn seconds_add_up_to_the_span_of_the_stream() {
    let rows = vec![
        row(2023, 11, 1_000, 1),
        row(2023, 11, 1_500, 2),
        row(2023, 12, 2_000, 3),
        row(2023, 12, 2_000, 4),
        row(2024, 1, 9_000, 5),
        row(2024, 1, 9_001, 6),
    ];
    let out = aggregate(&rows).unwrap();
    assert_eq!(out.len(), 3);
    let seconds: u64 = out.iter().map(|s| s.seconds).sum();
    assert_eq!(seconds, 8_001);
    let keys: Vec<i64> = out.iter().map(|s| s.month_key).collect();
    assert_eq!(keys, vec![202_311, 202_312, 202_401]);
    assert_eq!(out[0].seconds, 1_000);
    assert_eq!(out[1].seconds, 7_000);
    assert_eq!(out[2].seconds, 1);
}

#[test]
fn rows_of_all_months_add_up_to_rows_less_one() {
    let rows = vec![
        row(2023, 11, 1_000, 1),
        row(2023, 11, 1_500, 2),
        row(2023, 12, 2_000, 3),
        row(2023, 12, 2_001, 4),
        row(2024, 1, 9_000, 5),
        row(2024, 2, 9_001, 6),
    ];
    let out = aggregate(&rows).unwrap();
    assert_eq!(out.len(), 4);
    let counted: u64 = out.iter().map(|s| s.rows).sum();
    assert_eq!(counted, 5);
}

#[test]
fn every_summary_keeps_average_and_percentiles_in_order() {
    let rows = vec![
        row(2023, 11, 0, -7_000),
        row(2023, 11, 100, 12_000),
        row(2023, 11, 130, 3_000),
        row(2023, 12, 5_000, 0),
        row(2023, 12, 5_600, -20_000),
        row(2024, 1, 9_000, 1),
    ];
    for s in aggregate(&rows).unwrap() {
        if s.seconds > 0 {
            assert!(s.outdoor.min() <= s.outdoor.avg());
            assert!(s.outdoor.avg() <= s.outdoor.max());
            let p = s.percentiles.unwrap();
            assert!(p.p05 <= p.p25 && p.p25 <= p.p50 && p.p50 <= p.p75 && p.p75 <= p.p95);
            assert!(s.outdoor.min() <= p.p05 && p.p95 <= s.outdoor.max());
        }
    }
}

#[test]
fn month_closed_without_seconds_takes_its_rows_along() {
    let rows = vec![row(2024, 1, 50, 1), row(2024, 1, 50, 2), row(2024, 2, 50, 3)];
    let out = aggregate(&rows).unwrap();
    assert_eq!(out.len(), 1);
    assert_eq!(out[0].month_key, 202_402);
    assert_eq!(out[0].rows, 0);
    assert_eq!(out[0].seconds, 0);
}
