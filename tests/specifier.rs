use sked::specifier::parse_time_of_day;
use sked::{InvalidSpecifier, Moment, Specifier, Weekday};

fn at(s: &str) -> Moment {
    Moment::parse_from_rfc3339(s).unwrap()
}

#[test]
fn instances_exact() {
    let now = Moment::now();
    let s = Specifier::Exact(now);
    assert_eq!(s.instances(&Moment::now()).take(usize::MAX), vec![now]);
}

#[test]
fn instances_daily() {
    let t_ref = at("2020-01-16T10:15:00-05:00");
    let s = Specifier::daily("07:00").unwrap();
    assert_eq!(
        s.instances(&t_ref).take(3),
        vec![
            at("2020-01-16T07:00:00-05:00"),
            at("2020-01-17T07:00:00-05:00"),
            at("2020-01-18T07:00:00-05:00"),
        ]
    );
}

#[test]
fn instances_weekly_start_after_date() {
    let t_ref = at("2020-01-16T10:15:00-05:00");
    let s = Specifier::weekly("Tuesday", "07:00").unwrap();
    assert_eq!(
        s.instances(&t_ref).take(3),
        vec![
            at("2020-01-21T07:00:00-05:00"),
            at("2020-01-28T07:00:00-05:00"),
            at("2020-02-04T07:00:00-05:00"),
        ]
    );
}

#[test]
fn instances_weekly_start_on_same_date() {
    let t_ref = at("2020-01-14T10:15:00-05:00");
    let s = Specifier::weekly("Tuesday", "07:00").unwrap();
    assert_eq!(
        s.instances(&t_ref).take(3),
        vec![
            at("2020-01-14T07:00:00-05:00"),
            at("2020-01-21T07:00:00-05:00"),
            at("2020-01-28T07:00:00-05:00"),
        ]
    );
}

#[test]
fn exact_yields_once_even_at_its_own_instant() {
    let x = at("2020-01-16T10:15:00-05:00");
    let s = Specifier::Exact(x);
    let mut it = s.instances(&x);
    assert_eq!(it.next(), Some(x));
    assert_eq!(it.next(), None);
    assert_eq!(s.next(5, &at("1999-12-31T23:59:59+01:00")), vec![x]);
}

#[test]
fn daily_nth_occurrence_is_basis_day_plus_n_minus_one() {
    let basis = at("2020-01-30T22:00:00-06:00");
    let s = Specifier::daily("06:30").unwrap();
    let got = s.next(5, &basis);
    assert_eq!(got.len(), 5);
    assert_eq!(got[0], at("2020-01-30T06:30:00-06:00"));
    assert_eq!(got[2], at("2020-02-01T06:30:00-06:00"));
    assert_eq!(got[4], at("2020-02-03T06:30:00-06:00"));
    for i in 1..5 {
        assert_eq!(got[i].day, got[i - 1].day + 1);
    }
}

#[test]
fn weekly_occurrences_fall_on_the_day_a_week_apart() {
    let basis = at("2020-02-27T09:00:00+01:00");
    let s = Specifier::weekly("sat", "12:00:30").unwrap();
    let got = s.next(4, &basis);
    assert_eq!(got[0], at("2020-02-29T12:00:30+01:00"));
    for i in 0..4 {
        assert_eq!(got[i].day_of_week(), Weekday::Saturday);
        if i > 0 {
            assert_eq!(got[i].utc_seconds() - got[i - 1].utc_seconds(), 7 * 86400);
        }
    }
}

#[test]
fn two_generators_from_the_same_basis_agree() {
    let basis = at("2020-01-16T10:15:00-05:00");
    let s = Specifier::weekly("Monday", "08:00").unwrap();
    let mut a = s.instances(&basis);
    let b = s.instances(&basis);
    let first = a.next();
    assert_eq!(first, Some(at("2020-01-20T08:00:00-05:00")));
    assert_eq!(b.take(3), s.next(3, &basis));
    assert_eq!(a.take(2), s.next(3, &basis)[1..].to_vec());
}

#[test]
fn weekly_rejects_an_unknown_day() {
    assert_eq!(Specifier::weekly("Someday", "07:00"), Err(InvalidSpecifier::UnknownDay));
    assert_eq!(Specifier::weekly("Thurs", "07:00"), Err(InvalidSpecifier::UnknownDay));
}

#[test]
fn weekly_rejects_a_malformed_time() {
    assert_eq!(Specifier::weekly("Thursday", "seven"), Err(InvalidSpecifier::MalformedTime));
    assert_eq!(Specifier::daily("25:00"), Err(InvalidSpecifier::MalformedTime));
}

#[test]
fn specifier_constructors_read_day_and_time() {
    assert_eq!(
        Specifier::weekly("THURSDAY", "10:15"),
        Ok(Specifier::Weekly { day: Weekday::Thursday, time: 36900 })
    );
    assert_eq!(Specifier::daily("07:00:30"), Ok(Specifier::Daily { time: 25230 }));
    assert_eq!(parse_time_of_day("17:00"), Some(61200));
    assert_eq!(parse_time_of_day("noon"), None);
}

#[test]
fn weekday_names_parse_in_any_case() {
    assert_eq!(Weekday::parse("thu"), Some(Weekday::Thursday));
    assert_eq!(Weekday::parse("Friday"), Some(Weekday::Friday));
    assert_eq!(Weekday::parse("sUnDaY"), Some(Weekday::Sunday));
    assert_eq!(Weekday::parse("Mondays"), None);
    assert_eq!(Weekday::parse(""), None);
}

#[test]
fn latest_and_earliest_occurrences_around_an_instant() {
    let s = Specifier::weekly("Thursday", "07:00").unwrap();
    let t = at("2020-01-16T06:00:00-06:00");
    assert_eq!(s.latest_at_or_before(&t), Some(at("2020-01-09T07:00:00-06:00")));
    assert_eq!(s.earliest_after(&t), Some(at("2020-01-16T07:00:00-06:00")));
    let t = at("2020-01-16T07:00:00-06:00");
    assert_eq!(s.latest_at_or_before(&t), Some(t));
    assert_eq!(s.earliest_after(&t), Some(at("2020-01-23T07:00:00-06:00")));
    let d = Specifier::daily("02:00").unwrap();
    let t = at("2020-01-16T01:00:00-06:00");
    assert_eq!(d.latest_at_or_before(&t), Some(at("2020-01-15T02:00:00-06:00")));
}
