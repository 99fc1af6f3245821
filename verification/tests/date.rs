use std::time::{Duration, UNIX_EPOCH};

use httprs::util::date::Date;

#[test]
fn test_year_and_date_epoch() {
    let (y, m, d) = Date::year_and_date(0);
    assert_eq!(y, 1970);
    assert_eq!(m, 1); // Jan
    assert_eq!(d, 1);
}

#[test]
fn test_date_from_system_time() {
    let d = Date::from_system_time(UNIX_EPOCH);
    assert_eq!(d.year(), 1970);
    assert_eq!(d.month(), 1);
    assert_eq!(d.day(), 1);
    assert_eq!(d.hour(), 0);
    assert_eq!(d.minute(), 0);
    assert_eq!(d.second(), 0);

    // test to_rfc1123
    assert_eq!(d.to_rfc1123(), "Thu, 01 Jan 1970 00:00:00 GMT");
    assert_eq!(d.to_rfc1123(), "Thu, 01 Jan 1970 00:00:00 GMT");
}

#[test]
fn test_rfc1123_format() {
    // 2024-02-28T12:00:00Z -> epoch diff is 19781 days + 12 hours
    let time = UNIX_EPOCH + Duration::from_secs(1709121600);
    let d = Date::from_system_time(time);
    assert_eq!(d.year(), 2024);
    assert_eq!(d.month(), 2); // Feb = 1
    assert_eq!(d.day(), 28);
    assert_eq!(d.hour(), 12);
    assert_eq!(d.minute(), 0);
    assert_eq!(d.second(), 0);
    assert_eq!(d.to_rfc1123(), "Wed, 28 Feb 2024 12:00:00 GMT");

    // leap year: 2024-02-29T00:00:00Z
    let time2 = UNIX_EPOCH + Duration::from_secs(1709164800);
    let d2 = Date::from_system_time(time2);
    assert_eq!(d2.year(), 2024);
    assert_eq!(d2.month(), 2); // Feb
    assert_eq!(d2.day(), 29);
    assert_eq!(d2.to_rfc1123(), "Thu, 29 Feb 2024 00:00:00 GMT");
}

#[test]
fn year_and_date_edges() {
    // last day of a leap year, first day of the next
    assert_eq!(Date::year_and_date(10956), (1999, 12, 31));
    assert_eq!(Date::year_and_date(10957), (2000, 1, 1));
    // 2000 is a leap year (divisible by 400), 2100 is not
    assert_eq!(Date::year_and_date(11016), (2000, 2, 29));
    assert_eq!(Date::year_and_date(47540), (2100, 2, 28));
    assert_eq!(Date::year_and_date(47541), (2100, 3, 1));
    // the largest day count accepted
    let (y, m, d) = Date::year_and_date(u64::MAX - 719468);
    assert!(y > 4_000_000_000 && (1..=12).contains(&m) && (1..=31).contains(&d));
}

#[test]
fn date_from_epoch_secs_fields() {
    let d = Date::from_epoch_secs(86399);
    assert_eq!((d.year(), d.month(), d.day(), d.hour(), d.minute(), d.second()), (1970, 1, 1, 23, 59, 59));
    assert_eq!(d.epoch_days(), 0);
    let d = Date::from_epoch_secs(951782400); // 2000-02-29
    assert_eq!(d.to_rfc1123(), "Tue, 29 Feb 2000 00:00:00 GMT");
    // the weekday goes round every seven days
    let d = Date::from_epoch_secs(7 * 86400);
    assert_eq!(d.to_rfc1123(), "Thu, 08 Jan 1970 00:00:00 GMT");
    // every form has 29 characters
    assert_eq!(Date::from_epoch_secs(4102444800).to_rfc1123().len(), 29);
}

#[test]
fn date_before_epoch_is_epoch() {
    let d = Date::from_system_time(UNIX_EPOCH - Duration::from_secs(10));
    assert_eq!(d.to_rfc1123(), "Thu, 01 Jan 1970 00:00:00 GMT");
}
