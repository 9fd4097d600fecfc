use sql_datetime::datetime::{Datetime, Duration};
use sql_datetime::field::{day, hour, minute, month, nanosecond, second, year, zone};
use sql_datetime::grammar::{datetime, datetime_all_raw, datetime_double, datetime_raw, datetime_single};

#[test]
fn date_time() {
    let sql = "2012-04-23T18:25:43Z";
    let res = datetime_raw(sql);
    assert!(res.is_ok());
    let out = res.unwrap().1;
    assert_eq!("'2012-04-23T18:25:43Z'", out.to_string());
}

#[test]
fn date_time_nanos() {
    let sql = "2012-04-23T18:25:43.5631Z";
    let res = datetime_raw(sql);
    assert!(res.is_ok());
    let out = res.unwrap().1;
    assert_eq!("'2012-04-23T18:25:43.563100Z'", out.to_string());
}

#[test]
fn date_time_timezone_utc() {
    let sql = "2012-04-23T18:25:43.0000511Z";
    let res = datetime_raw(sql);
    assert!(res.is_ok());
    let out = res.unwrap().1;
    assert_eq!("'2012-04-23T18:25:43.000051100Z'", out.to_string());
}

#[test]
fn date_time_timezone_pacific() {
    let sql = "2012-04-23T18:25:43.511-08:00";
    let res = datetime_raw(sql);
    assert!(res.is_ok());
    let out = res.unwrap().1;
    assert_eq!("'2012-04-24T02:25:43.511Z'", out.to_string());
}

#[test]
fn date_time_timezone_pacific_partial() {
    let sql = "2012-04-23T18:25:43.511-08:30";
    let res = datetime_raw(sql);
    assert!(res.is_ok());
    let out = res.unwrap().1;
    assert_eq!("'2012-04-24T02:55:43.511Z'", out.to_string());
}

#[test]
fn quoted_literals() {
    let (n, t) = datetime("\"2012-04-23T18:25:43Z\" rest").unwrap();
    assert_eq!(n, 22);
    assert_eq!(t.to_string(), "'2012-04-23T18:25:43Z'");
    let (n, t) = datetime("'2012-04-23T18:25:43.5631Z'").unwrap();
    assert_eq!(n, 27);
    assert_eq!(t.to_string(), "'2012-04-23T18:25:43.563100Z'");
    assert!(datetime_single("'2012-04-23T18:25:43Z'").is_ok());
    assert!(datetime_single("\"2012-04-23T18:25:43Z\"").is_err());
    assert!(datetime_double("\"2012-04-23T18:25:43Z\"").is_ok());
    assert!(datetime("'2012-04-23T18:25:43Z\"").is_err());
    assert!(datetime("2012-04-23T18:25:43Z").is_err());
    assert!(datetime("'2012-04-23'").is_err());
    assert!(datetime(" '2012-04-23T18:25:43Z'").is_err());
}

#[test]
fn strict_rejects_month_thirteen() {
    assert!(datetime("'2012-13-01T00:00:00Z'").is_err());
    assert!(datetime_raw("2012-13-01T00:00:00Z").is_err());
}

#[test]
fn permissive_falls_back_to_now() {
    let before = Datetime::default();
    let t = Datetime::from_str_or_now("2012-13-01T00:00:00Z");
    let after = Datetime::default();
    assert!(before <= t && t <= after);
    assert_ne!(t.to_raw(), "2012-13-01T00:00:00Z");
    let fallback = Datetime::from_secs(7);
    assert_eq!(Datetime::parse_or("not a date", fallback), fallback);
    assert_eq!(Datetime::parse_or("", fallback), fallback);
}

#[test]
fn permissive_takes_date_only() {
    let t = Datetime::from_str_or_now("2012-04-23");
    assert_eq!(t.to_raw(), "2012-04-23T00:00:00Z");
    assert_eq!(t.secs, 1335139200);
    let (n, _) = datetime_all_raw("2012-04-23T18:25:43Z").unwrap();
    assert_eq!(n, 20);
    let (n, t) = datetime_all_raw("2012-04-23T18:25").unwrap();
    assert_eq!(n, 10);
    assert_eq!(t.to_raw(), "2012-04-23T00:00:00Z");
}

#[test]
fn calendar_validity() {
    assert!(datetime_raw("2012-02-30T00:00:00Z").is_err());
    assert!(datetime_raw("2011-02-29T00:00:00Z").is_err());
    assert!(datetime_raw("1900-02-29T00:00:00Z").is_err());
    let t = datetime_raw("2000-02-29T12:00:00Z").unwrap().1;
    assert_eq!(t.to_raw(), "2000-02-29T12:00:00Z");
    assert!(datetime_raw("2012-04-31T00:00:00Z").is_err());
    assert!(datetime_all_raw("2012-04-31").is_err());
}

#[test]
fn hour_twenty_four_is_rejected() {
    assert!(datetime_raw("2012-04-23T24:00:00Z").is_err());
    assert!(datetime_raw("2012-04-23T24:00:00.5Z").is_err());
    assert!(datetime_raw("2012-04-23T12:00:00+24:00").is_err());
    assert!(datetime_raw("2012-04-23T25:00:00Z").is_err());
}

#[test]
fn fraction_digits() {
    let t = datetime_raw("2012-04-23T18:25:43.5Z").unwrap().1;
    assert_eq!(t.nanos, 500_000_000);
    assert_eq!(t.to_raw(), "2012-04-23T18:25:43.500Z");
    let t = datetime_raw("2012-04-23T18:25:43.123456789Z").unwrap().1;
    assert_eq!(t.nanos, 123_456_789);
    assert_eq!(t.to_raw(), "2012-04-23T18:25:43.123456789Z");
    assert!(datetime_raw("2012-04-23T18:25:43.1234567890Z").is_err());
    assert!(datetime_raw("2012-04-23T18:25:43.Z").is_err());
    let t = datetime_raw("2012-04-23T18:25:43.000Z").unwrap().1;
    assert_eq!(t.to_raw(), "2012-04-23T18:25:43Z");
}

#[test]
fn zone_normalization() {
    let a = datetime_raw("2012-04-24T02:25:43.511Z").unwrap().1;
    let b = datetime_raw("2012-04-23T18:25:43.511-08:00").unwrap().1;
    let c = datetime_raw("2012-04-24T04:25:43.511+02:00").unwrap().1;
    let d = datetime_raw("2012-04-24T02:25:43.511+00:00").unwrap().1;
    let e = datetime_raw("2012-04-24T02:25:43.511-00:00").unwrap().1;
    assert_eq!(a, b);
    assert_eq!(a, c);
    assert_eq!(a, d);
    assert_eq!(a, e);
    assert_eq!(b.to_string(), c.to_string());
}

#[test]
fn round_trip_examples() {
    for text in [
        "'2012-04-23T18:25:43Z'",
        "'2012-04-23T18:25:43.563100Z'",
        "'2012-04-23T18:25:43.000051100Z'",
        "'-0044-03-15T12:00:00.001Z'",
        "'0000-01-01T00:00:00Z'",
        "'9999-12-31T23:59:59.999999999Z'",
    ] {
        let (n, t) = datetime(text).unwrap();
        assert_eq!(n, text.len());
        assert_eq!(t.to_string(), text);
        let (_, u) = datetime(&t.to_string()).unwrap();
        assert_eq!(t, u);
    }
}

#[test]
fn years_outside_four_digits() {
    let t = datetime_raw("9999-12-31T23:00:00-08:00").unwrap().1;
    assert_eq!(t.to_raw(), "+10000-01-01T07:00:00Z");
    let t = datetime_raw("-9999-01-01T01:00:00+02:00").unwrap().1;
    assert_eq!(t.to_raw(), "-10000-12-31T23:00:00Z");
    let t = datetime_raw("+0001-01-01T00:00:00Z").unwrap().1;
    assert_eq!(t.to_raw(), "0001-01-01T00:00:00Z");
}

#[test]
fn from_epoch_seconds() {
    assert_eq!(Datetime::from_secs(0).to_raw(), "1970-01-01T00:00:00Z");
    assert_eq!(Datetime::from_secs(1335205543).to_raw(), "2012-04-23T18:25:43Z");
    assert_eq!(Datetime::from_secs(-1).to_raw(), "1969-12-31T23:59:59Z");
    assert_eq!(Datetime::from_secs(-86400).to_raw(), "1969-12-31T00:00:00Z");
}

#[test]
fn subtraction() {
    let a = datetime_raw("2012-04-23T18:25:43.5Z").unwrap().1;
    let b = datetime_raw("2012-04-23T18:25:40.75Z").unwrap().1;
    assert_eq!(a - b, Duration { secs: 2, nanos: 750_000_000 });
    assert_eq!(b - a, Duration::zero());
    assert_eq!(a - a, Duration { secs: 0, nanos: 0 });
    let early = Datetime::from_secs(-431_999_999_999);
    let late = Datetime::from_secs(431_999_999_999);
    assert_eq!(late - early, Duration { secs: 863_999_999_998, nanos: 0 });
    assert_eq!(early - late, Duration::zero());
}

#[test]
fn field_readers() {
    let s = b"-2012+0001x";
    assert_eq!(year(s, 0), Some((-2012, 5)));
    assert_eq!(year(s, 5), Some((1, 10)));
    assert_eq!(year(s, 6), Some((1, 10)));
    assert_eq!(year(b"201", 0), None);
    assert_eq!(month(b"12", 0), Some((12, 2)));
    assert_eq!(month(b"13", 0), None);
    assert_eq!(month(b"00", 0), None);
    assert_eq!(day(b"31", 0), Some((31, 2)));
    assert_eq!(day(b"32", 0), None);
    assert_eq!(hour(b"24", 0), Some((24, 2)));
    assert_eq!(hour(b"25", 0), None);
    assert_eq!(minute(b"59", 0), Some((59, 2)));
    assert_eq!(minute(b"60", 0), None);
    assert_eq!(second(b"5", 0), None);
    assert_eq!(second(b"x9", 0), None);
    assert_eq!(nanosecond(b".0000511Z", 0), Some((51_100, 8)));
    assert_eq!(nanosecond(b".5631", 0), Some((563_100_000, 5)));
    assert_eq!(nanosecond(b"5631", 0), None);
    assert_eq!(zone(b"Z", 0), Some((0, 1)));
    assert_eq!(zone(b"-08:30", 0), Some((-30600, 6)));
    assert_eq!(zone(b"+05:45", 0), Some((20700, 6)));
    assert_eq!(zone(b"-00:00", 0), Some((0, 6)));
    assert_eq!(zone(b"z", 0), None);
}

#[test]
fn clock_readings() {
    let t = Datetime::from_clock_reading(1335205543, 511_000_000);
    assert_eq!(t, Datetime { secs: 1335205543, nanos: 511_000_000 });
    assert_eq!(t.to_raw(), "2012-04-23T18:25:43.511Z");
    let t = Datetime::from_clock_reading(-5, 1_500_000_000);
    assert_eq!(t, Datetime { secs: -5, nanos: 999_999_999 });
    let t = Datetime::from_clock_reading(i64::MAX, 0);
    assert_eq!(t.secs, 431_999_999_999);
    let t = Datetime::from_clock_reading(i64::MIN, 0);
    assert_eq!(t.secs, -431_999_999_999);
    let now = Datetime::default();
    assert!(now.nanos < 1_000_000_000);
    assert!(now.secs > 1_500_000_000);
}
