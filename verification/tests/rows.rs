use heatingpump::decimal::parse_decimal;
use heatingpump::engine::{Row, Signals};
use heatingpump::row::{assemble_row, parse_row, split_fields, Columns, RowError};
use heatingpump::timestamp::{Anomaly, Timestamp, MAX_GAP_SECONDS};

fn narrow() -> Columns {
    Columns {
        timestamp: 0,
        outdoor: 1,
        room_set_0: 2,
        room_set_1: 3,
        room_temp_0: 4,
        room_temp_1: 5,
        electric_power: 6,
        heat_power: 7,
    }
}

#[test]
fn decimal_reads_thousandths() {
    assert_eq!(parse_decimal(b"12.5"), Some(12_500));
    assert_eq!(parse_decimal(b"-0.25"), Some(-250));
    assert_eq!(parse_decimal(b"7"), Some(7_000));
    assert_eq!(parse_decimal(b"+3"), Some(3_000));
    assert_eq!(parse_decimal(b"0"), Some(0));
    assert_eq!(parse_decimal(b"-0"), Some(0));
    assert_eq!(parse_decimal(b"0.001"), Some(1));
    assert_eq!(parse_decimal(b"1.23456"), Some(1_234));
    assert_eq!(parse_decimal(b"-1.9999"), Some(-1_999));
    assert_eq!(parse_decimal(b"007.07"), Some(7_070));
    assert_eq!(parse_decimal(b"1."), Some(1_000));
    assert_eq!(parse_decimal(b".5"), Some(500));
    assert_eq!(parse_decimal(b"-.25"), Some(-250));
    assert_eq!(parse_decimal(b"+5."), Some(5_000));
    assert_eq!(parse_decimal(b".0004"), Some(0));
}

#[test]
fn decimal_refuses_what_is_no_decimal() {
    assert_eq!(parse_decimal(b""), None);
    assert_eq!(parse_decimal(b"-"), None);
    assert_eq!(parse_decimal(b"abc"), None);
    assert_eq!(parse_decimal(b"."), None);
    assert_eq!(parse_decimal(b"-."), None);
    assert_eq!(parse_decimal(b"+"), None);
    assert_eq!(parse_decimal(b"1..5"), None);
    assert_eq!(parse_decimal(b"inf"), None);
    assert_eq!(parse_decimal(b"NaN"), None);
    assert_eq!(parse_decimal(b"1.2.3"), None);
    assert_eq!(parse_decimal(b"1,5"), None);
    assert_eq!(parse_decimal(b" 1"), None);
    assert_eq!(parse_decimal(b"1 "), None);
    assert_eq!(parse_decimal(b"--1"), None);
    assert_eq!(parse_decimal(b"1.5x"), None);
    assert_eq!(parse_decimal(b"1e3"), None);
}

#[test]
fn decimal_range_ends_at_i64_max() {
    assert_eq!(parse_decimal(b"9223372036854775.807"), Some(i64::MAX));
    assert_eq!(parse_decimal(b"-9223372036854775.807"), Some(-i64::MAX));
    assert_eq!(parse_decimal(b"9223372036854775.808"), None);
    assert_eq!(parse_decimal(b"9223372036854776"), None);
    assert_eq!(parse_decimal(b"99999999999999999999999999"), None);
    assert_eq!(parse_decimal(b"9223372036854775"), Some(9_223_372_036_854_775_000));
    assert_eq!(parse_decimal(b"9223372036854775."), Some(9_223_372_036_854_775_000));
    assert_eq!(parse_decimal(b"9223372036854776."), None);
}

#[test]
fn split_keeps_empty_fields() {
    assert_eq!(
        split_fields(b"a;b;;c", b';'),
        vec![b"a".to_vec(), b"b".to_vec(), b"".to_vec(), b"c".to_vec()]
    );
    assert_eq!(split_fields(b"", b';'), vec![b"".to_vec()]);
    assert_eq!(split_fields(b";", b';'), vec![b"".to_vec(), b"".to_vec()]);
    assert_eq!(split_fields(b"abc", b';'), vec![b"abc".to_vec()]);
    assert_eq!(split_fields(b"a,b;c", b','), vec![b"a".to_vec(), b"b;c".to_vec()]);
}

#[test]
fn parse_row_reads_timestamp_and_signals() {
    let row = parse_row(b"17.6.2023 10:5:56;1.5;2;3;4;5;6;-7.25", b';', &narrow());
    assert_eq!(
        row,
        Ok(Row {
            stamp: Timestamp { year: 2023, month: 6, seconds: 1_686_996_356 },
            signals: Signals {
                outdoor: 1_500,
                room_set_0: 2_000,
                room_set_1: 3_000,
                room_temp_0: 4_000,
                room_temp_1: 5_000,
                electric_power: 6_000,
                heat_power: -7_250,
            },
        })
    );
}

#[test]
fn parse_row_counts_seconds_from_1970() {
    let row = parse_row(b"01.01.1970 00:00:01;0;0;0;0;0;0;0", b';', &narrow()).unwrap();
    assert_eq!(row.stamp, Timestamp { year: 1970, month: 1, seconds: 1 });
    let row = parse_row(b"30.06.2023 23:59:00;0;0;0;0;0;0;0", b';', &narrow()).unwrap();
    assert_eq!(row.stamp, Timestamp { year: 2023, month: 6, seconds: 1_688_169_540 });
    assert_eq!(row.stamp.month_key(), 202_306);
}

#[test]
fn bad_timestamp_is_skippable() {
    let r = parse_row(b"Time;outdoor;a;b;c;d;e;f", b';', &narrow());
    assert_eq!(r, Err(RowError::Timestamp));
    assert!(!RowError::Timestamp.is_fatal());
    assert_eq!(parse_row(b"", b';', &narrow()), Err(RowError::Timestamp));
    assert_eq!(
        parse_row(b"31.02.2023 00:00:00;0;0;0;0;0;0;0", b';', &narrow()),
        Err(RowError::Timestamp)
    );
    assert_eq!(
        parse_row(b"2023-06-30 23:59:00;0;0;0;0;0;0;0", b';', &narrow()),
        Err(RowError::Timestamp)
    );
    assert_eq!(parse_row(b"\xff\xfe;0;0;0;0;0;0;0", b';', &narrow()), Err(RowError::Timestamp));
    let mut far = narrow();
    far.timestamp = 99;
    assert_eq!(
        parse_row(b"01.01.2023 00:00:00;0;0;0;0;0;0;0", b';', &far),
        Err(RowError::Timestamp)
    );
}

#[test]
fn bad_timestamp_wins_over_bad_number() {
    assert_eq!(parse_row(b"Time;x", b';', &narrow()), Err(RowError::Timestamp));
}

#[test]
fn bad_number_is_fatal() {
    let r = parse_row(b"01.01.2023 00:00:00;0;0;0;oops;0;0;0", b';', &narrow());
    assert_eq!(r, Err(RowError::Number));
    assert!(RowError::Number.is_fatal());
    let r = parse_row(b"01.01.2023 00:00:00;0;0;0", b';', &narrow());
    assert_eq!(r, Err(RowError::Number));
}

#[test]
fn assemble_row_from_given_timestamp() {
    let fields = split_fields(b"x;1;2;3;4;5;6;7", b';');
    let stamp = Timestamp { year: 2000, month: 2, seconds: 5 };
    let r = assemble_row(Some(stamp), &fields, &narrow()).unwrap();
    assert_eq!(r.stamp, stamp);
    assert_eq!(r.signals.heat_power, 7_000);
    assert_eq!(assemble_row(None, &fields, &narrow()), Err(RowError::Timestamp));
    let short = split_fields(b"x;1;2", b';');
    assert_eq!(assemble_row(Some(stamp), &short, &narrow()), Err(RowError::Number));
}

#[test]
fn gap_is_limited_to_a_day_and_never_negative() {
    let a = Timestamp { year: 2023, month: 1, seconds: 1_000 };
    let b = Timestamp { year: 2023, month: 1, seconds: 1_300 };
    assert_eq!(a.gap_to(&b), 300);
    assert_eq!(a.anomaly_to(&b), None);
    assert_eq!(b.gap_to(&a), 0);
    assert_eq!(b.anomaly_to(&a), Some(Anomaly::Backward));
    assert_eq!(a.gap_to(&a), 0);
    assert_eq!(a.anomaly_to(&a), None);
    let c = Timestamp { year: 2023, month: 1, seconds: 1_000 + 86_400 };
    assert_eq!(a.gap_to(&c), MAX_GAP_SECONDS);
    assert_eq!(a.anomaly_to(&c), None);
    let d = Timestamp { year: 2023, month: 1, seconds: 1_001 + 86_400 };
    assert_eq!(a.gap_to(&d), 86_400);
    assert_eq!(a.anomaly_to(&d), Some(Anomaly::Overlong));
    let lo = Timestamp { year: 0, month: 1, seconds: i64::MIN };
    let hi = Timestamp { year: 0, month: 1, seconds: i64::MAX };
    assert_eq!(lo.gap_to(&hi), 86_400);
    assert_eq!(hi.gap_to(&lo), 0);
    assert_eq!(hi.anomaly_to(&lo), Some(Anomaly::Backward));
}

#[test]
fn month_key_is_year_times_100_plus_month() {
    assert_eq!(Timestamp { year: 2023, month: 7, seconds: 0 }.month_key(), 202_307);
    assert_eq!(Timestamp { year: -1, month: 12, seconds: 0 }.month_key(), -88);
    assert_eq!(Timestamp { year: i32::MAX, month: 12, seconds: 0 }.month_key(), 214_748_364_712);
}
