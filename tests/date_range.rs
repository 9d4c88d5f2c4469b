use ferrview::query::{range_request, RangeRequest};
use ferrview::calendar::{parse_date, format_date, CivilDate};
use ferrview::clock::UtcInstant;
use ferrview::date_range::DateRange;
use ferrview::errors::StoreError;

fn date(year: i32, month: u8, day: u8) -> CivilDate {
    CivilDate { year, month, day }
}

fn noon(d: CivilDate) -> UtcInstant {
    UtcInstant { unix_seconds: d.midnight() + 43_200, date: d }
}

#[test]
fn test_today() {
    let range = DateRange::today();
    assert_eq!(range.start_date, range.end_date);
    assert!(range.start_time <= range.end_time);
}

#[test]
fn test_last_7_days() {
    let range = DateRange::last_n_days(7);
    let dates = range.dates();
    assert_eq!(dates.len(), 7);
}

#[test]
fn test_last_1_day() {
    let range = DateRange::last_n_days(1);
    let dates = range.dates();
    assert_eq!(dates.len(), 1);
}

#[test]
fn test_custom_range() {
    let range = DateRange::custom("2024-12-01", "2024-12-03").unwrap();
    let dates = range.dates();
    assert_eq!(dates, vec!["2024-12-01", "2024-12-02", "2024-12-03"]);
}

#[test]
fn test_custom_range_invalid_order() {
    let result = DateRange::custom("2024-12-10", "2024-12-01");
    assert!(result.is_err());
}

#[test]
fn test_parse_date() {
    assert!(parse_date("2024-12-08").is_ok());
    assert!(parse_date("invalid").is_err());
    assert!(parse_date("2024-13-01").is_err()); // Invalid month
}

#[test]
fn last_n_days_crosses_a_leap_february() {
    let now = noon(date(2024, 3, 2));
    let range = DateRange::last_n_days_at(now, 4);
    assert_eq!(range.dates(), vec!["2024-02-28", "2024-02-29", "2024-03-01", "2024-03-02"]);
    assert_eq!(range.end_date, date(2024, 3, 2));
    assert_eq!(range.start_time, date(2024, 2, 28).midnight());
    assert_eq!(range.end_time, now.unix_seconds);
}

#[test]
fn last_n_days_ends_today_without_gaps() {
    let now = noon(date(2023, 12, 30));
    for n in 1..=40u32 {
        let range = DateRange::last_n_days_at(now, n);
        let dates = range.dates();
        assert_eq!(dates.len(), n as usize);
        assert_eq!(dates.last().unwrap(), "2023-12-30");
        for pair in dates.windows(2) {
            assert!(pair[0] < pair[1]);
        }
    }
    let range = DateRange::last_n_days_at(now, 3);
    assert_eq!(range.dates(), vec!["2023-12-28", "2023-12-29", "2023-12-30"]);
    let range = DateRange::last_n_days_at(noon(date(2024, 1, 1)), 2);
    assert_eq!(range.dates(), vec!["2023-12-31", "2024-01-01"]);
}

#[test]
fn custom_range_bounds_and_clamp() {
    let now = noon(date(2024, 12, 2));
    let range = DateRange::custom_at("2024-12-01", "2024-12-03", now).unwrap();
    assert_eq!(range.start_time, 1_733_011_200);
    assert_eq!(range.end_time, now.unix_seconds);
    let past = DateRange::custom_at("2024-11-01", "2024-11-02", now).unwrap();
    assert_eq!(past.end_time, date(2024, 11, 3).midnight());
    assert_eq!(past.start_time_str(), "2024-11-01T00:00:00Z");
    assert_eq!(past.end_time_str(), "2024-11-03T00:00:00Z");
}

#[test]
fn custom_range_single_day_and_errors() {
    let now = noon(date(2024, 12, 2));
    let range = DateRange::custom_at("2024-02-29", "2024-02-29", now).unwrap();
    assert_eq!(range.dates(), vec!["2024-02-29"]);
    assert!(matches!(DateRange::custom_at("2023-02-29", "2023-03-01", now), Err(StoreError::InvalidQuery(_))));
    assert!(matches!(DateRange::custom_at("2024-12-10", "2024-12-01", now), Err(StoreError::InvalidQuery(_))));
    assert!(matches!(DateRange::custom_at("2024/12/01", "2024-12-02", now), Err(StoreError::InvalidQuery(_))));
    assert!(matches!(DateRange::custom_at("", "2024-12-02", now), Err(StoreError::InvalidQuery(_))));
}

#[test]
fn parse_and_format_dates() {
    assert_eq!(parse_date("2024-02-29").unwrap(), date(2024, 2, 29));
    assert!(parse_date("2023-02-29").is_err());
    assert!(parse_date("2024-04-31").is_err());
    assert!(parse_date("2024-00-10").is_err());
    assert!(parse_date("2024-01-00").is_err());
    assert!(parse_date("+024-01-01").is_err());
    assert_eq!(parse_date("0000-01-01").unwrap(), date(0, 1, 1));
    assert_eq!(format_date(&date(2024, 1, 5)), "2024-01-05");
    assert_eq!(format_date(&date(7, 10, 31)), "0007-10-31");
    assert_eq!(format_date(&date(-5, 1, 1)), "-005-01-01");
}

#[test]
fn day_numbers_match_the_calendar() {
    assert_eq!(date(1970, 1, 1).day_number(), 0);
    assert_eq!(date(2024, 12, 1).day_number(), 20058);
    assert_eq!(date(2000, 3, 1).day_number(), 11017);
    assert_eq!(date(1900, 1, 1).day_number(), -25567);
    assert_eq!(date(1, 1, 1).day_number(), -719162);
    assert_eq!(date(1970, 1, 2).midnight(), 86_400);
}

#[test]
fn next_and_previous_days() {
    assert_eq!(date(2024, 2, 28).next_day(), date(2024, 2, 29));
    assert_eq!(date(2023, 2, 28).next_day(), date(2023, 3, 1));
    assert_eq!(date(2023, 12, 31).next_day(), date(2024, 1, 1));
    assert_eq!(date(2024, 3, 1).previous_day(), date(2024, 2, 29));
    assert_eq!(date(2100, 3, 1).previous_day(), date(2100, 2, 28));
    assert_eq!(date(2000, 3, 1).previous_day(), date(2000, 2, 29));
}

#[test]
fn ranges_from_requests() {
    let now = noon(date(2024, 12, 2));
    let r = DateRange::for_request(&range_request(Some("range=7d")), now).unwrap();
    assert_eq!(r.dates().len(), 7);
    assert_eq!(r.end_date, date(2024, 12, 2));
    let r = DateRange::for_request(&range_request(Some("range=custom&start=2024-11-30&end=2024-12-01")), now).unwrap();
    assert_eq!(r.dates(), vec!["2024-11-30", "2024-12-01"]);
    let r = DateRange::for_request(&range_request(Some("range=custom&start=2024-12-05&end=2024-12-01")), now);
    assert!(matches!(r, Err(StoreError::InvalidQuery(_))));
    let r = DateRange::for_request(&range_request(Some("range=custom&start=oops&end=2024-12-01")), now);
    assert!(matches!(r, Err(StoreError::InvalidQuery(_))));
    let r = DateRange::for_request(&RangeRequest::LastDays(0), now);
    assert!(matches!(r, Err(StoreError::InvalidQuery(_))));
    let r = DateRange::for_request(&range_request(Some("range=weird")), now).unwrap();
    assert_eq!(r, DateRange::today_at(now));
    let r = ferrview::query::parse_date_range_from_query(None).unwrap();
    assert_eq!(r.start_date, r.end_date);
    assert_eq!(DateRange::custom("2024-12-30", "2025-01-02").unwrap().day_list().len(), 4);
}

#[test]
fn future_custom_range_keeps_start_before_end() {
    let now = noon(date(2024, 12, 2));
    let r = DateRange::custom_at("2024-12-10", "2024-12-12", now).unwrap();
    assert_eq!(r.start_date, date(2024, 12, 10));
    assert_eq!(r.end_time, now.unix_seconds);
    assert_eq!(r.start_time, now.unix_seconds);
    assert!(r.start_time <= r.end_time);
    let today = DateRange::custom_at("2024-12-02", "2024-12-02", now).unwrap();
    assert_eq!(today.start_time, date(2024, 12, 2).midnight());
}

#[test]
fn last_days_from_the_earliest_clock_day() {
    let now = noon(date(-9999, 1, 3));
    let range = DateRange::last_n_days_at(now, 7);
    let dates = range.dates();
    assert_eq!(dates.len(), 7);
    assert_eq!(dates[0], "-10000-12-28");
    assert_eq!(dates[6], "-9999-01-03");
    assert!(range.start_time <= range.end_time);
}
