//! ExifTool date-times and configured regular expressions.
use chrono::{DateTime, NaiveDate};
use exifweb::exif::{exif_date, exif_moment};
use exifweb::models::Moment;
use exifweb::pattern::Pattern;
use exifweb::tools::pos_from_name;

fn moment_of(rfc3339: &str) -> Moment {
    let d = DateTime::parse_from_rfc3339(rfc3339).unwrap();
    Moment { timestamp: d.timestamp(), offset: d.offset().local_minus_utc() }
}

#[test]
fn deserialize_date_time_test() {
    // a zone in the text is kept
    let m = exif_moment("2018:02:08 11:01:12-06:00", "+03:00").unwrap();
    assert_eq!(m, moment_of("2018-02-08T11:01:12-06:00"));

    // adds missing timezone
    let m = exif_moment("2013:10:05 16:18:35", "-06:00").unwrap();
    assert_eq!(m, moment_of("2013-10-05T16:18:35-06:00"));

    // the local date and time stay as written
    let m = exif_moment("2018:02:08 11:01:12-06:00", "").unwrap();
    let local = NaiveDate::from_ymd_opt(2018, 2, 8).unwrap().and_hms_opt(11, 1, 12).unwrap();
    assert_eq!(m.timestamp + m.offset as i64, local.and_utc().timestamp());
}

#[test]
fn date_time_with_zone_ignores_machine() {
    assert_eq!(exif_date("2018:02:08 11:01:12-06:00"), Some(moment_of("2018-02-08T11:01:12-06:00")));
    assert_eq!(exif_date("2018:02:08 11:01:12+05:30"), Some(moment_of("2018-02-08T11:01:12+05:30")));
}

#[test]
fn malformed_date_time_is_none() {
    assert_eq!(exif_moment("2018-02-08 11:01:12-06:00", "-06:00"), None);
    assert_eq!(exif_moment("not a date", "-06:00"), None);
    assert_eq!(exif_moment("", ""), None);
    assert_eq!(exif_moment("2018:02:30 11:01:12-06:00", "-06:00"), None);
}

#[test]
fn regex_test() {
    let field = Pattern::new("^(?P<index>\\d+)\\.").unwrap();
    assert!(pos_from_name(&field, "1.something").is_some());
}

#[test]
fn invalid_regex_is_refused() {
    assert!(Pattern::new("(unclosed").is_none());
    assert!(Pattern::new("[+-]\\d{2}:\\d{2}$").is_some());
}

#[test]
fn date_time_without_zone_takes_the_machine_zone() {
    let m = exif_date("2013:10:05 16:18:35").unwrap();
    let here = chrono::Local::now().offset().local_minus_utc();
    assert_eq!(m.offset, here);
    let local = NaiveDate::from_ymd_opt(2013, 10, 5).unwrap().and_hms_opt(16, 18, 35).unwrap();
    assert_eq!(m.timestamp + m.offset as i64, local.and_utc().timestamp());
    assert_eq!(exif_date("2013:10:05"), None);
}
