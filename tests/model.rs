use pecunia::calendar::{parse_iso_date, CalendarDate};
use pecunia::model::{normalize_timestamp, price_rows, saturating_count, IntradayPrice, Timestamp};
use pecunia::store::PriceTable;
use pecunia::usage::{parse_decimal, UsageCounters};

fn price(date: &str, minute: &str, trades: usize) -> IntradayPrice {
    IntradayPrice {
        date: date.to_string(),
        minute: minute.to_string(),
        label: "09:30 AM".to_string(),
        high: Some(1.5f32.to_bits()),
        low: Some(1.25f32.to_bits()),
        open: None,
        close: Some(1.375f32.to_bits()),
        average: None,
        volume: Some(4200),
        notional: None,
        number_of_trades: trades,
        change_over_time: Some((-0.5f32).to_bits()),
    }
}

#[test]
fn date_and_minute_normalize_to_one_timestamp() {
    let t = normalize_timestamp("2021-05-21", "09:30").unwrap();
    let expected = Timestamp { date: CalendarDate { year: 2021, month: 5, day: 21 }, hour: 9, minute: 30 };
    assert_eq!(t, expected);
}

#[test]
fn malformed_minute_fails_normalization() {
    assert_eq!(normalize_timestamp("2021-05-21", "9:3"), None);
    assert_eq!(normalize_timestamp("2021-05-21", "09-30"), None);
    assert_eq!(normalize_timestamp("2021/05/21", "09:30"), None);
}

#[test]
fn impossible_times_and_days_fail_normalization() {
    assert_eq!(normalize_timestamp("2021-05-21", "24:00"), None);
    assert_eq!(normalize_timestamp("2021-05-21", "23:60"), None);
    assert_eq!(normalize_timestamp("2021-02-29", "10:00"), None);
    assert!(normalize_timestamp("2020-02-29", "23:59").is_some());
}

#[test]
fn iso_dates_are_checked_against_the_calendar() {
    assert_eq!(parse_iso_date("2000-02-29"), Some(CalendarDate { year: 2000, month: 2, day: 29 }));
    assert_eq!(parse_iso_date("1900-02-29"), None);
    assert_eq!(parse_iso_date("2021-04-31"), None);
    assert_eq!(parse_iso_date("2021-00-10"), None);
    assert_eq!(parse_iso_date(""), None);
}

#[test]
fn trade_counts_saturate() {
    assert_eq!(saturating_count(5), 5);
    assert_eq!(saturating_count(2147483647), i32::MAX);
    assert_eq!(saturating_count(usize::MAX), i32::MAX);
}

#[test]
fn rows_carry_every_field() {
    let rows = price_rows(&"AAPL".to_string(), &vec![price("2021-05-21", "09:30", 12)]).unwrap();
    assert_eq!(rows.len(), 1);
    let r = &rows[0];
    assert_eq!(r.ticker, "AAPL");
    assert_eq!(r.time, Timestamp { date: CalendarDate { year: 2021, month: 5, day: 21 }, hour: 9, minute: 30 });
    assert_eq!(r.high.map(f32::from_bits), Some(1.5));
    assert_eq!(r.low.map(f32::from_bits), Some(1.25));
    assert_eq!(r.close.map(f32::from_bits), Some(1.375));
    assert_eq!(r.change_over_time.map(f32::from_bits), Some(-0.5));
    assert_eq!(r.volume, Some(4200));
    assert_eq!(r.number_of_trades, 12);
    assert!(price_rows(&"AAPL".to_string(), &vec![price("2021-05-21", "9:30", 1)]).is_none());
}

#[test]
fn storing_a_row_twice_keeps_one() {
    let mut table = PriceTable::new();
    let rows = price_rows(&"AAPL".to_string(), &vec![price("2021-05-21", "09:30", 1)]).unwrap();
    let again = price_rows(&"AAPL".to_string(), &vec![price("2021-05-21", "09:30", 1)]).unwrap();
    assert!(table.upsert(rows.into_iter().next().unwrap()));
    assert!(!table.upsert(again.into_iter().next().unwrap()));
    assert_eq!(table.len(), 1);
    let other = price_rows(&"MSFT".to_string(), &vec![price("2021-05-21", "09:30", 1)]).unwrap();
    assert!(table.upsert(other.into_iter().next().unwrap()));
    assert_eq!(table.len(), 2);
}

#[test]
fn missing_usage_headers_count_zero() {
    let c = UsageCounters::from_header_values(None, None, None, None);
    assert_eq!(c, UsageCounters { messages_used: 0, credits_used: 0, premium_messages_used: 0, premium_credits_used: 0 });
}

#[test]
fn usage_headers_are_read_as_numbers() {
    let c = UsageCounters::from_header_values(Some("12"), Some("+7"), Some("abc"), Some(""));
    assert_eq!(c.messages_used, 12);
    assert_eq!(c.credits_used, 7);
    assert_eq!(c.premium_messages_used, 0);
    assert_eq!(c.premium_credits_used, 0);
}

#[test]
fn decimal_parse_matches_std() {
    for s in ["0", "42", "+1", "+", "-1", "1 ", "18446744073709551615", "18446744073709551616", "99999999999999999999999"] {
        assert_eq!(parse_decimal(s), s.parse::<usize>().ok(), "{}", s);
    }
}
