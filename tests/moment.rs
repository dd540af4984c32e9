use sked::{Moment, Weekday};

#[test]
fn rfc3339_reads_day_time_and_offset() {
    assert_eq!(
        Moment::parse_from_rfc3339("1970-01-01T00:00:00+00:00"),
        Some(Moment { day: 719163, second: 0, offset: 0 })
    );
    assert_eq!(
        Moment::parse_from_rfc3339("2020-01-16T10:15:00-05:00"),
        Some(Moment { day: 737440, second: 36900, offset: -18000 })
    );
    assert_eq!(Moment::parse_from_rfc3339("2020-01-16 at ten"), None);
}

#[test]
fn moment_new_checks_ranges() {
    assert_eq!(Moment::new(737440, 86400, 0), None);
    assert_eq!(Moment::new(737440, 0, 86400), None);
    assert_eq!(Moment::new(737440, 60, -3600), Some(Moment { day: 737440, second: 60, offset: -3600 }));
}

#[test]
fn now_is_a_valid_moment() {
    assert!(Moment::now().is_valid());
}

#[test]
fn day_of_week_counts_from_year_one() {
    assert_eq!(Moment { day: 1, second: 0, offset: 0 }.day_of_week(), Weekday::Monday);
    assert_eq!(Moment { day: 0, second: 0, offset: 0 }.day_of_week(), Weekday::Sunday);
    assert_eq!(Moment { day: 737440, second: 0, offset: 0 }.day_of_week(), Weekday::Thursday);
    assert_eq!(Moment { day: -6, second: 0, offset: 0 }.day_of_week(), Weekday::Monday);
}

#[test]
fn instants_compare_across_offsets() {
    let a = Moment::parse_from_rfc3339("2020-01-16T10:00:00-05:00").unwrap();
    let b = Moment::parse_from_rfc3339("2020-01-16T09:30:00-06:00").unwrap();
    assert!(a.is_before(&b));
    assert!(!b.is_before(&a));
    assert_eq!(b.utc_seconds() - a.utc_seconds(), 1800);
}

#[test]
fn at_instant_reads_the_same_instant_on_another_clock() {
    let a = Moment::parse_from_rfc3339("2020-01-16T01:00:00-05:00").unwrap();
    let b = Moment::at_instant(a.utc_seconds(), 3600).unwrap();
    assert_eq!(b, Moment::parse_from_rfc3339("2020-01-16T07:00:00+01:00").unwrap());
    let c = Moment::at_instant(a.utc_seconds(), -36000).unwrap();
    assert_eq!(c, Moment::parse_from_rfc3339("2020-01-15T20:00:00-10:00").unwrap());
}
