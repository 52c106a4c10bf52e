use aerogramme_core::dav::caltypes::UtcTime;
use aerogramme_core::ical::parser::{date_time, dur_value, try_dur_value, DurStep};
use chrono::TimeDelta;

#[test]
fn rfc5545_example1() {
    // A duration of 15 days, 5 hours, and 20 seconds would be:
    let to_parse = "P15DT5H0M20S";
    let (_, time_delta) = dur_value(to_parse).unwrap();
    assert_eq!(
        time_delta.secs,
        (TimeDelta::try_days(15).unwrap()
            + TimeDelta::try_hours(5).unwrap()
            + TimeDelta::try_seconds(20).unwrap())
        .num_seconds()
    );
}

#[test]
fn rfc5545_example2() {
    // A duration of 7 weeks would be:
    let to_parse = "P7W";
    let (_, time_delta) = dur_value(to_parse).unwrap();
    assert_eq!(time_delta.secs, TimeDelta::try_weeks(7).unwrap().num_seconds());
}

#[test]
fn rfc4791_example1() {
    // 10 minutes before
    let to_parse = "-PT10M";
    let (_, time_delta) = dur_value(to_parse).unwrap();
    assert_eq!(time_delta.secs, TimeDelta::try_minutes(-10).unwrap().num_seconds());
}

#[test]
fn ical_org_example1() {
    // An alarm 2 days before the due date of a to-do.
    let to_parse = "-P2D";
    let (_, time_delta) = dur_value(to_parse).unwrap();
    assert_eq!(time_delta.secs, TimeDelta::try_days(-2).unwrap().num_seconds());
}

#[test]
fn dur_value_reports_how_far_it_read() {
    assert_eq!(dur_value("PT1H30MXYZ").map(|(n, d)| (n, d.secs)), Some((7, 5400)));
    assert_eq!(dur_value("+P1D").map(|(n, d)| (n, d.secs)), Some((4, 86400)));
    // Lower case letters are accepted.
    assert_eq!(dur_value("p2dt1s").map(|(n, d)| (n, d.secs)), Some((6, 172801)));
}

#[test]
fn dur_value_refuses_what_is_no_duration() {
    assert!(dur_value("").is_none());
    assert!(dur_value("15D").is_none());
    assert!(dur_value("PT").is_none());
    assert!(dur_value("P1X").is_none());
    assert!(dur_value("PW").is_none());
    assert_eq!(try_dur_value("P"), DurStep::Fail);
}

#[test]
fn dur_value_refuses_a_unit_out_of_range() {
    // Too many weeks for a duration: the week alternative does not fit.
    assert_eq!(try_dur_value("P99999999999999W"), DurStep::Fail);
    // Too many digits for an integer.
    assert_eq!(try_dur_value("PT99999999999999999999S"), DurStep::Fail);
}

#[test]
fn dur_value_sum_overflow_is_reported() {
    // Each part fits, their sum does not.
    let text = "P106751991167DT23H";
    assert_eq!(try_dur_value(text), DurStep::Overflow);
}

#[test]
fn date_time_reads_utc_and_floating() {
    let utc = date_time("20060104T000000Z").unwrap();
    assert_eq!(utc, UtcTime { secs: 1136332800, nanos: 0 });
    let floating = date_time("20060104T000000").unwrap();
    assert_eq!(floating, utc);
    assert!(date_time("").is_none());
    assert!(date_time("2006-01-04").is_none());
    assert!(date_time("20060104T000000ZZ").is_none());
}
