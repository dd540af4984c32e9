use sked::{Exception, Moment, Part, PartRef, Reason, Schedule, Space, Specifier, Status, StatusChange};

fn at(s: &str) -> Moment {
    Moment::parse_from_rfc3339(s).unwrap()
}

fn weekly(day: &str, time: &str) -> Specifier {
    Specifier::weekly(day, time).unwrap()
}

fn generate_space(name: &str) -> Space {
    let mut exception = Exception::new()
        .effective(weekly("Thursday", "10:15"))
        .expires(weekly("Thursday", "11:00"));
    *exception.effect_mut() = Some(Status::Closed(Reason::Exception(Some(
        "Closed for lunch.".to_string(),
    ))));

    let mut schedule: Schedule = Schedule::new()
        .part(
            Part::new()
                .open(weekly("Thursday", "07:00"))
                .close(weekly("Thursday", "17:00")),
        )
        .exception(exception);

    *schedule.effective_mut() = Some(at("2020-01-01T00:00:00-06:00"));
    *schedule.expires_mut() = Some(at("2020-02-01T00:00:00-06:00"));

    Space::new(name).schedule(schedule)
}

fn open_part() -> Status {
    Status::Open(Reason::Part(Some(PartRef { schedule: 0, part: 0 })))
}

fn lunch() -> Reason {
    Reason::Exception(Some("Closed for lunch.".to_string()))
}

fn status_of(time: &str) -> Status {
    generate_space("asdf").status_at(&at(time))
}

#[test]
fn before_effective_is_closed_with_correct_reason() {
    assert_eq!(status_of("2020-01-16T06:00:00-06:00"), Status::Closed(Reason::Part(None)));
}

#[test]
fn at_effective_is_open() {
    assert_eq!(status_of("2020-01-16T07:00:00-06:00"), open_part());
}

#[test]
fn while_effective_is_open() {
    assert_eq!(status_of("2020-01-16T10:00:00-06:00"), open_part());
}

#[test]
fn before_exception_effective_is_open() {
    assert_eq!(status_of("2020-01-16T10:14:59-06:00"), open_part());
}

#[test]
fn at_exception_effective_is_closed_with_correct_reason() {
    assert_eq!(status_of("2020-01-16T10:15:00-06:00"), Status::Closed(lunch()));
}

#[test]
fn while_exception_effective_is_closed_with_correct_reason() {
    assert_eq!(status_of("2020-01-16T10:35:00-06:00"), Status::Closed(lunch()));
}

#[test]
fn before_exception_expires_is_closed_with_correct_reason() {
    assert_eq!(status_of("2020-01-16T10:59:59-06:00"), Status::Closed(lunch()));
}

#[test]
fn after_exception_expires_is_open() {
    assert_eq!(status_of("2020-01-16T11:00:00-06:00"), open_part());
}

#[test]
fn before_expires_is_open() {
    assert_eq!(status_of("2020-01-16T16:59:59-06:00"), open_part());
}

#[test]
fn at_expires_is_closed_no_reason() {
    assert_eq!(status_of("2020-01-16T17:00:00-06:00"), Status::Closed(Reason::Part(None)));
}

#[test]
fn after_expires_is_closed_no_reason() {
    assert_eq!(status_of("2020-01-16T18:00:00-06:00"), Status::Closed(Reason::Part(None)));
}

#[test]
fn other_clocks_see_the_same_window_boundaries() {
    // 08:00 on a clock at -05:00 is 07:00 at -06:00, but the window is read on
    // the asking clock, where Thursday 07:00 has already passed.
    assert_eq!(status_of("2020-01-16T07:30:00-05:00"), open_part());
}

#[test]
fn schedule_out_of_its_window_contributes_nothing() {
    // Thursday 2020-02-06 matches the part and the exception, but the
    // schedule expired on 2020-02-01.
    assert_eq!(status_of("2020-02-06T10:30:00-06:00"), Status::Closed(Reason::Part(None)));
    assert_eq!(status_of("2020-02-06T08:00:00-06:00"), Status::Closed(Reason::Part(None)));
    // A schedule is in force from its effective instant on.
    let mut later = Schedule::new().part(Part::new());
    *later.effective_mut() = Some(at("2020-03-01T00:00:00-06:00"));
    let space = Space::new("annex").schedule(later);
    assert_eq!(space.status_at(&at("2020-02-29T23:59:59-06:00")), Status::Closed(Reason::Part(None)));
    assert_eq!(
        space.status_at(&at("2020-03-01T00:00:00-06:00")),
        Status::Open(Reason::Part(Some(PartRef { schedule: 0, part: 0 })))
    );
}

#[test]
fn unbounded_part_always_applies() {
    let p = Part::new();
    assert!(p.applies_at(&at("2020-01-16T03:00:00-06:00")));
    assert!(p.applies_at(&at("1900-06-01T23:59:59+09:00")));
    let half = Part::new().open(weekly("Monday", "09:00"));
    assert!(half.applies_at(&at("2020-01-16T03:00:00-06:00")));
}

#[test]
fn part_window_spanning_days() {
    let p = Part::new()
        .open(weekly("Monday", "09:00"))
        .close(weekly("Wednesday", "17:00"))
        .note("Front desk");
    assert_eq!(p.notes().len(), 1);
    assert!(p.applies_at(&at("2020-01-14T12:00:00-06:00")));
    assert!(!p.applies_at(&at("2020-01-15T17:00:00-06:00")));
    assert!(!p.applies_at(&at("2020-01-13T08:59:59-06:00")));
    let night = Part::new()
        .open(Specifier::daily("22:00").unwrap())
        .close(Specifier::daily("02:00").unwrap());
    assert!(night.applies_at(&at("2020-01-14T01:00:00-06:00")));
    assert!(!night.applies_at(&at("2020-01-14T02:00:00-06:00")));
}

#[test]
fn exception_without_effect_is_inert() {
    let quiet = Exception::new()
        .effective(weekly("Thursday", "08:00"))
        .expires(weekly("Thursday", "09:00"));
    assert!(quiet.effect().is_none());
    assert!(quiet.applies_at(&at("2020-01-16T08:30:00-06:00")));
    let mut closing = Exception::new();
    *closing.effect_mut() = Some(Status::Closed(Reason::Exception(None)));
    let schedule = Schedule::new()
        .part(Part::new())
        .exception(quiet)
        .exception(closing);
    let space = Space::new("hall").schedule(schedule);
    assert_eq!(
        space.status_at(&at("2020-01-16T08:30:00-06:00")),
        Status::Closed(Reason::Exception(None))
    );
}

#[test]
fn earlier_schedules_take_priority() {
    let first = Schedule::new().part(Part::new().open(weekly("Friday", "08:00")).close(weekly("Friday", "12:00")));
    let second = Schedule::new().part(Part::new());
    let space = Space::new("lab").schedule(first).schedule(second);
    assert_eq!(
        space.status_at(&at("2020-01-17T09:00:00-06:00")),
        Status::Open(Reason::Part(Some(PartRef { schedule: 0, part: 0 })))
    );
    assert_eq!(
        space.status_at(&at("2020-01-17T13:00:00-06:00")),
        Status::Open(Reason::Part(Some(PartRef { schedule: 1, part: 0 })))
    );
}

#[test]
fn empty_space_is_closed() {
    let space = Space::new("void");
    assert_eq!(space.status_at(&at("2020-01-16T12:00:00-06:00")), Status::Closed(Reason::Part(None)));
    assert_eq!(space.next_status_change_at(&at("2020-01-16T12:00:00-06:00")), None);
    assert_eq!(space.status(), Status::Closed(Reason::Part(None)));
    assert_eq!(space.next_status_change(), None);
}

#[test]
fn next_change_opens_at_the_part() {
    let space = generate_space("asdf");
    let t = at("2020-01-16T06:00:00-06:00");
    assert_eq!(
        space.next_status_change_at(&t),
        Some(StatusChange::Opening(
            at("2020-01-16T07:00:00-06:00"),
            Reason::Part(Some(PartRef { schedule: 0, part: 0 }))
        ))
    );
}

#[test]
fn next_change_closes_for_lunch_then_reopens() {
    let space = generate_space("asdf");
    assert_eq!(
        space.next_status_change_at(&at("2020-01-16T07:00:00-06:00")),
        Some(StatusChange::Closing(at("2020-01-16T10:15:00-06:00"), lunch()))
    );
    assert_eq!(
        space.next_status_change_at(&at("2020-01-16T10:30:00-06:00")),
        Some(StatusChange::Opening(
            at("2020-01-16T11:00:00-06:00"),
            Reason::Part(Some(PartRef { schedule: 0, part: 0 }))
        ))
    );
    assert_eq!(
        space.next_status_change_at(&at("2020-01-16T12:00:00-06:00")),
        Some(StatusChange::Closing(at("2020-01-16T17:00:00-06:00"), Reason::Part(None)))
    );
}

#[test]
fn next_change_a_week_ahead() {
    let space = generate_space("asdf");
    assert_eq!(
        space.next_status_change_at(&at("2020-01-16T17:00:00-06:00")),
        Some(StatusChange::Opening(
            at("2020-01-23T07:00:00-06:00"),
            Reason::Part(Some(PartRef { schedule: 0, part: 0 }))
        ))
    );
}

#[test]
fn no_change_within_the_horizon() {
    let space = generate_space("asdf");
    assert_eq!(space.next_status_change_at(&at("2020-01-31T18:00:00-06:00")), None);
}

#[test]
fn part_references_resolve_against_the_space() {
    let space = generate_space("asdf");
    let reference = PartRef { schedule: 0, part: 0 };
    let expected = Part::new()
        .open(weekly("Thursday", "07:00"))
        .close(weekly("Thursday", "17:00"));
    assert_eq!(space.resolve_part(&reference), Some(&expected));
    assert_eq!(space.resolve_part(&PartRef { schedule: 0, part: 1 }), None);
    assert_eq!(space.resolve_part(&PartRef { schedule: 1, part: 0 }), None);
}

#[test]
fn exact_opening_is_read_on_the_asking_clock() {
    let p = Part::new()
        .open(Specifier::Exact(at("2020-01-16T07:00:00-05:00")))
        .close(Specifier::daily("17:00").unwrap());
    assert!(!p.applies_at(&at("2020-01-16T05:59:59-06:00")));
    assert!(p.applies_at(&at("2020-01-16T06:00:00-06:00")));
    assert!(p.applies_at(&at("2020-01-16T16:59:59-06:00")));
    assert!(!p.applies_at(&at("2020-01-16T17:00:00-06:00")));
    assert!(p.applies_at(&at("2020-01-16T17:30:00-05:00")) == false);
    assert!(p.applies_at(&at("2020-01-16T16:30:00-05:00")));
}
