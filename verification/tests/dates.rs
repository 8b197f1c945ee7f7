use morning::dates::{add_days, date_le, date_lt, days_in_month, is_leap_year, today, Date};
use morning::json_date_format::{deserialize, serialize};

fn date(y: u16, m: u8, d: u8) -> Date {
    Date { year: y, month: m, day: d }
}

#[test]
fn add_days_moves_within_a_month() {
    assert_eq!(add_days(&date(2024, 3, 10), 2), Some(date(2024, 3, 12)));
    assert_eq!(add_days(&date(2024, 3, 10), 0), Some(date(2024, 3, 10)));
    assert_eq!(add_days(&date(2024, 3, 10), -9), Some(date(2024, 3, 1)));
}

#[test]
fn add_days_crosses_month_and_year_boundaries() {
    assert_eq!(add_days(&date(2024, 1, 31), 1), Some(date(2024, 2, 1)));
    assert_eq!(add_days(&date(2023, 12, 31), 1), Some(date(2024, 1, 1)));
    assert_eq!(add_days(&date(2024, 1, 1), -1), Some(date(2023, 12, 31)));
    assert_eq!(add_days(&date(2024, 4, 30), 1), Some(date(2024, 5, 1)));
}

#[test]
fn add_days_knows_leap_years() {
    assert_eq!(add_days(&date(2024, 2, 28), 1), Some(date(2024, 2, 29)));
    assert_eq!(add_days(&date(2024, 2, 28), 2), Some(date(2024, 3, 1)));
    assert_eq!(add_days(&date(2023, 2, 28), 1), Some(date(2023, 3, 1)));
    assert_eq!(add_days(&date(1900, 2, 28), 1), Some(date(1900, 3, 1)));
    assert_eq!(add_days(&date(2000, 2, 28), 1), Some(date(2000, 2, 29)));
    assert_eq!(add_days(&date(2024, 3, 1), -1), Some(date(2024, 2, 29)));
}

#[test]
fn add_days_stops_at_the_supported_range() {
    assert_eq!(add_days(&date(9999, 12, 31), 1), None);
    assert_eq!(add_days(&date(0, 1, 1), -1), None);
    assert_eq!(add_days(&date(2024, 3, 10), 10_000_000), None);
}

#[test]
fn calendar_tables() {
    assert!(is_leap_year(2024));
    assert!(!is_leap_year(2023));
    assert!(!is_leap_year(1900));
    assert!(is_leap_year(2000));
    assert_eq!(days_in_month(2024, 2), 29);
    assert_eq!(days_in_month(2023, 2), 28);
    assert_eq!(days_in_month(2024, 4), 30);
    assert_eq!(days_in_month(2024, 12), 31);
}

#[test]
fn date_order_is_calendar_order() {
    assert!(date_lt(&date(2024, 3, 9), &date(2024, 3, 10)));
    assert!(date_lt(&date(2024, 2, 29), &date(2024, 3, 1)));
    assert!(date_lt(&date(2023, 12, 31), &date(2024, 1, 1)));
    assert!(date_le(&date(2024, 3, 10), &date(2024, 3, 10)));
    assert!(!date_lt(&date(2024, 3, 10), &date(2024, 3, 10)));
    assert!(!date_le(&date(2024, 3, 10), &date(2024, 3, 9)));
}

#[test]
fn serialize_uses_the_strict_pattern() {
    assert_eq!(serialize(&date(2024, 3, 9)), "2024-03-09");
    assert_eq!(serialize(&date(1, 2, 3)), "0001-02-03");
    assert_eq!(serialize(&date(9999, 12, 31)), "9999-12-31");
    assert_eq!(serialize(&date(0, 1, 1)), "0000-01-01");
}

#[test]
fn deserialize_reads_the_strict_pattern() {
    assert_eq!(deserialize("2024-03-09"), Some(date(2024, 3, 9)));
    assert_eq!(deserialize("0001-02-03"), Some(date(1, 2, 3)));
    assert_eq!(deserialize("2024-02-29"), Some(date(2024, 2, 29)));
}

#[test]
fn deserialize_rejects_malformed_dates() {
    assert_eq!(deserialize("2023-02-29"), None);
    assert_eq!(deserialize("2024-13-01"), None);
    assert_eq!(deserialize("2024-02-30"), None);
    assert_eq!(deserialize("2024-00-10"), None);
    assert_eq!(deserialize("2024-03-00"), None);
    assert_eq!(deserialize("2024-3-1"), None);
    assert_eq!(deserialize("24-03-01"), None);
    assert_eq!(deserialize("2024-03-09 "), None);
    assert_eq!(deserialize("2024/03/09"), None);
    assert_eq!(deserialize(""), None);
    assert_eq!(deserialize("not a date"), None);
}

#[test]
fn date_codec_round_trips() {
    let samples = [
        date(0, 1, 1),
        date(1, 2, 3),
        date(1900, 2, 28),
        date(2000, 2, 29),
        date(2024, 3, 9),
        date(9999, 12, 31),
    ];
    for d in samples {
        assert_eq!(deserialize(serialize(&d).as_str()), Some(d));
    }
}

#[test]
fn the_clock_yields_a_plausible_date() {
    let now = today().expect("the clock lies inside the supported years");
    assert!(now.year >= 2024);
    assert!((1..=12).contains(&now.month));
    assert!((1..=31).contains(&now.day));
    assert!(now.day <= days_in_month(now.year, now.month));
}
