//! The facility whose status is asked for, and how its schedules combine.

use crate::moment::{
    earlier, earlier_of, lemma_earlier_assoc, lemma_earlier_bounds, lemma_on_clock,
    lemma_same_instant_same_moment, on_clock, Moment,
};
use crate::part::Part;
use crate::schedule::{lemma_schedule_boundary, lemma_schedule_stable, Schedule};
use crate::status::{PartRef, Reason, Status, StatusChange};
use vstd::prelude::*;

verus! {

/// The status forced at `t` by the first schedule, from the `i`-th on, that is
/// in force at `t` and has an applying exception that forces one.
pub open spec fn forced_in(schedules: Seq<Schedule>, t: Moment, i: nat) -> Option<Status>
    decreases schedules.len() - i,
{
    if i >= schedules.len() {
        None
    } else if schedules[i as int].active_at(t) && schedules[i as int].forced_at(t) is Some {
        schedules[i as int].forced_at(t)
    } else {
        forced_in(schedules, t, i + 1)
    }
}

/// The first part, in schedules from the `i`-th on that are in force at `t`,
/// that applies at `t`.
pub open spec fn open_part_in(schedules: Seq<Schedule>, t: Moment, i: nat) -> Option<PartRef>
    decreases schedules.len() - i,
{
    if i >= schedules.len() {
        None
    } else if schedules[i as int].active_at(t) && schedules[i as int].applying_part(t) is Some {
        Some(PartRef { schedule: i as usize, part: schedules[i as int].applying_part(t).unwrap() as usize })
    } else {
        open_part_in(schedules, t, i + 1)
    }
}

/// The status of a space with these schedules at `t`: what the first
/// applying exception with an effect forces; else open for the first applying
/// part; else closed.
pub open spec fn resolve(schedules: Seq<Schedule>, t: Moment) -> Status {
    match forced_in(schedules, t, 0) {
        Some(s) => s,
        None => match open_part_in(schedules, t, 0) {
            Some(p) => Status::Open(Reason::Part(Some(p))),
            None => Status::Closed(Reason::Part(None)),
        },
    }
}

/// How far ahead of the asked instant a change of status is looked for:
/// fourteen days, in seconds.
pub const HORIZON: i64 = 1209600;

/// The first instant strictly after `c` at which a bound occurs in one of the
/// schedules, from the `i`-th on, that has not expired by `t`.
pub open spec fn boundary_in(schedules: Seq<Schedule>, t: Moment, c: Moment, i: nat) -> Option<
    Moment,
>
    decreases schedules.len() - i,
{
    if i >= schedules.len() {
        None
    } else if schedules[i as int].ended_by(t) {
        boundary_in(schedules, t, c, i + 1)
    } else {
        earlier(schedules[i as int].boundary_after(c), boundary_in(schedules, t, c, i + 1))
    }
}

/// The change to status `s` at `m`.
pub open spec fn change_to(m: Moment, s: Status) -> StatusChange {
    match s {
        Status::Open(r) => StatusChange::Opening(m, r),
        Status::Closed(r) => StatusChange::Closing(m, r),
    }
}

/// Walking from `c` through the boundaries that come after it, read on `t`'s
/// clock and no further than the horizon from `t`, the first at which the
/// space is open where it was closed at `t`, or closed where it was open.
pub open spec fn change_from(schedules: Seq<Schedule>, t: Moment, c: Moment) -> Option<StatusChange>
    decreases t.instant() + HORIZON - c.instant(),
{
    if c.instant() >= t.instant() + HORIZON {
        None
    } else {
        match boundary_in(schedules, t, c, 0) {
            None => None,
            Some(n) => if n.instant() <= c.instant() || n.instant() > t.instant() + HORIZON {
                None
            } else {
                match on_clock(n.instant(), t.offset) {
                    None => None,
                    Some(m) => if resolve(schedules, m).is_open_spec() != resolve(
                        schedules,
                        t,
                    ).is_open_spec() {
                        Some(change_to(m, resolve(schedules, m)))
                    } else if m.instant() == n.instant() {
                        // Always so: `m` is `n` on `t`'s clock. Stated, it
                        // shows the walk moving forward.
                        change_from(schedules, t, m)
                    } else {
                        None
                    },
                }
            },
        }
    }
}

/// A facility and its schedules, earlier schedules taking priority.
#[derive(Clone, Debug)]
pub struct Space {
    name: String,
    schedules: Vec<Schedule>,
}

impl Default for Space {
    fn default() -> (r: Space)
        ensures
            r.name_spec().len() == 0,
            r.schedules_spec().len() == 0,
    {
        Space { name: String::new(), schedules: Vec::new() }
    }
}

impl Space {
    pub closed spec fn name_spec(self) -> Seq<char> {
        self.name@
    }

    pub closed spec fn schedules_spec(self) -> Seq<Schedule> {
        self.schedules@
    }

    pub open spec fn wf(self) -> bool {
        forall|i: int| 0 <= i < self.schedules_spec().len() ==> #[trigger] self.schedules_spec()[i].wf()
    }

    pub open spec fn status_spec(self, t: Moment) -> Status {
        resolve(self.schedules_spec(), t)
    }

    pub fn new(name: &str) -> (r: Space)
        ensures
            r.name_spec() == name@,
            r.schedules_spec().len() == 0,
            r.wf(),
    {
        let n = name.to_string();
        proof {
            vstd::string::to_string_from_display_ensures_for_str(name, n);
        }
        Space { name: n, schedules: Vec::new() }
    }

    /// Appends a schedule, which yields to those already there.
    pub fn schedule(self, schedule: Schedule) -> (r: Space)
        ensures
            r.schedules_spec() == self.schedules_spec().push(schedule),
            r.name_spec() == self.name_spec(),
            self.wf() && schedule.wf() ==> r.wf(),
    {
        let mut s = self;
        s.schedules.push(schedule);
        proof {
            assert(s.schedules_spec() == self.schedules_spec().push(schedule));
            if self.wf() && schedule.wf() {
                assert forall|i: int| 0 <= i < s.schedules_spec().len() implies #[trigger] s.schedules_spec()[i].wf() by {
                    if i < self.schedules_spec().len() {
                        assert(s.schedules_spec()[i] == self.schedules_spec()[i]);
                    } else {
                        assert(s.schedules_spec()[i] == schedule);
                    }
                }
            }
        }
        s
    }

    /// The part that `r` points at, if there is one.
    pub fn resolve_part(&self, r: &PartRef) -> (p: Option<&Part>)
        ensures
            p matches Some(x) ==> r.schedule < self.schedules_spec().len() && r.part
                < self.schedules_spec()[r.schedule as int].parts_spec().len() && *x
                == self.schedules_spec()[r.schedule as int].parts_spec()[r.part as int],
            p is None ==> r.schedule >= self.schedules_spec().len() || r.part
                >= self.schedules_spec()[r.schedule as int].parts_spec().len(),
    {
        if r.schedule < self.schedules.len() {
            let parts = self.schedules[r.schedule].parts();
            if r.part < parts.len() {
                return Some(&parts[r.part]);
            }
        }
        None
    }

    /// The status of the space at `time`.
    pub fn status_at(&self, time: &Moment) -> (r: Status)
        requires
            self.wf(),
            time.wf(),
        ensures
            r == self.status_spec(*time),
    {
        let n = self.schedules.len();
        let mut i: usize = 0;
        while i < n
            invariant
                self.wf(),
                time.wf(),
                n == self.schedules@.len(),
                i <= n,
                forced_in(self.schedules@, *time, i as nat) == forced_in(self.schedules@, *time, 0),
            decreases n - i,
        {
            let s = &self.schedules[i];
            assert(self.schedules_spec()[i as int].wf());
            if s.is_active_at(time) {
                match s.forced_status_at(time) {
                    Some(st) => {
                        return st;
                    },
                    None => {},
                }
            }
            i = i + 1;
        }
        let mut i: usize = 0;
        while i < n
            invariant
                self.wf(),
                time.wf(),
                n == self.schedules@.len(),
                i <= n,
                forced_in(self.schedules@, *time, 0) is None,
                open_part_in(self.schedules@, *time, i as nat) == open_part_in(self.schedules@, *time, 0),
            decreases n - i,
        {
            let s = &self.schedules[i];
            assert(self.schedules_spec()[i as int].wf());
            if s.is_active_at(time) {
                match s.applying_part_at(time) {
                    Some(j) => {
                        return Status::Open(Reason::Part(Some(PartRef { schedule: i, part: j })));
                    },
                    None => {},
                }
            }
            i = i + 1;
        }
        Status::Closed(Reason::Part(None))
    }

    /// The status of the space now, on the local clock.
    pub fn status(&self) -> (r: Status)
        requires
            self.wf(),
        ensures
            exists|m: Moment| m.wf() && r == self.status_spec(m),
    {
        let now = Moment::now();
        self.status_at(&now)
    }

    /// The next change of status after `t`, within the horizon.
    pub open spec fn next_change(self, t: Moment) -> Option<StatusChange> {
        change_from(self.schedules_spec(), t, t)
    }

    /// The first instant strictly after `c` at which a bound occurs in a
    /// schedule that has not expired by `t`.
    fn next_boundary(&self, t: &Moment, c: &Moment) -> (r: Option<Moment>)
        requires
            self.wf(),
            t.wf(),
            c.wf(),
        ensures
            r == boundary_in(self.schedules@, *t, *c, 0),
            r matches Some(m) ==> m.wf() && c.instant() < m.instant(),
    {
        let mut acc: Option<Moment> = None;
        let mut i: usize = 0;
        while i < self.schedules.len()
            invariant
                self.wf(),
                t.wf(),
                c.wf(),
                i <= self.schedules@.len(),
                earlier(acc, boundary_in(self.schedules@, *t, *c, i as nat)) == boundary_in(
                    self.schedules@,
                    *t,
                    *c,
                    0,
                ),
                acc matches Some(m) ==> m.wf() && c.instant() < m.instant(),
            decreases self.schedules@.len() - i,
        {
            let s = &self.schedules[i];
            assert(self.schedules_spec()[i as int].wf());
            if !s.has_ended_by(t) {
                let x = s.next_boundary_after(c);
                proof {
                    lemma_earlier_assoc(acc, x, boundary_in(self.schedules@, *t, *c, (i + 1) as nat));
                }
                acc = earlier_of(acc, x);
            }
            i = i + 1;
        }
        acc
    }

    /// The next change of status after `time`: walking through the instants
    /// at which a bound of a schedule, part or exception occurs, up to
    /// fourteen days ahead, the first at which the space opens or closes.
    pub fn next_status_change_at(&self, time: &Moment) -> (r: Option<StatusChange>)
        requires
            self.wf(),
            time.wf(),
        ensures
            r == self.next_change(*time),
    {
        let was_open = self.status_at(time).is_open();
        let horizon: i64 = time.utc_seconds() + HORIZON;
        let mut c: Moment = *time;
        loop
            invariant
                self.wf(),
                time.wf(),
                c.wf(),
                horizon == time.instant() + HORIZON,
                time.instant() <= c.instant(),
                was_open == resolve(self.schedules@, *time).is_open_spec(),
                change_from(self.schedules@, *time, c) == change_from(self.schedules@, *time, *time),
            decreases horizon - c.instant(),
        {
            if c.utc_seconds() >= horizon {
                return None;
            }
            let n = match self.next_boundary(time, &c) {
                None => {
                    return None;
                },
                Some(n) => n,
            };
            let at = n.utc_seconds();
            if at > horizon {
                return None;
            }
            let m = match Moment::at_instant(at, time.offset) {
                None => {
                    return None;
                },
                Some(m) => m,
            };
            let st = self.status_at(&m);
            if st.is_open() != was_open {
                return Some(
                    match st {
                        Status::Open(r) => StatusChange::Opening(m, r),
                        Status::Closed(r) => StatusChange::Closing(m, r),
                    },
                );
            }
            c = m;
        }
    }

    /// The next change of status after now, on the local clock.
    pub fn next_status_change(&self) -> (r: Option<StatusChange>)
        requires
            self.wf(),
        ensures
            exists|m: Moment| m.wf() && r == self.next_change(m),
    {
        let now = Moment::now();
        self.next_status_change_at(&now)
    }
}

proof fn lemma_inactive_schedule_ignored_from(a: Seq<Schedule>, b: Seq<Schedule>, i: int, t: Moment, k: nat)
    requires
        a.len() == b.len(),
        0 <= i < a.len(),
        forall|j: int| 0 <= j < a.len() && j != i ==> a[j] == b[j],
        a[i].effective_spec() == b[i].effective_spec(),
        a[i].expires_spec() == b[i].expires_spec(),
        !a[i].active_at(t),
    ensures
        forced_in(a, t, k) == forced_in(b, t, k),
        open_part_in(a, t, k) == open_part_in(b, t, k),
    decreases a.len() - k,
{
    if k < a.len() {
        lemma_inactive_schedule_ignored_from(a, b, i, t, k + 1);
        if k as int != i {
            assert(a[k as int] == b[k as int]);
        }
    }
}

/// A schedule that is not in force at `t` plays no part in the status at `t`:
/// whatever parts and exceptions it holds, the space's status is the same.
pub proof fn lemma_inactive_schedule_ignored(a: Space, b: Space, i: int, t: Moment)
    requires
        a.schedules_spec().len() == b.schedules_spec().len(),
        0 <= i < a.schedules_spec().len(),
        forall|j: int|
            0 <= j < a.schedules_spec().len() && j != i ==> a.schedules_spec()[j]
                == b.schedules_spec()[j],
        a.schedules_spec()[i].effective_spec() == b.schedules_spec()[i].effective_spec(),
        a.schedules_spec()[i].expires_spec() == b.schedules_spec()[i].expires_spec(),
        !a.schedules_spec()[i].active_at(t),
    ensures
        a.status_spec(t) == b.status_spec(t),
{
    lemma_inactive_schedule_ignored_from(a.schedules_spec(), b.schedules_spec(), i, t, 0);
}

/// What holds of any change that the walk from `c` finds.
pub open spec fn is_change_after(schedules: Seq<Schedule>, t: Moment, c: Moment, ch: StatusChange) -> bool {
    match ch {
        StatusChange::Opening(m, r) => resolve(schedules, m) == Status::Open(r) && !resolve(
            schedules,
            t,
        ).is_open_spec() && c.instant() < m.instant() <= t.instant() + HORIZON,
        StatusChange::Closing(m, r) => resolve(schedules, m) == Status::Closed(r) && resolve(
            schedules,
            t,
        ).is_open_spec() && c.instant() < m.instant() <= t.instant() + HORIZON,
    }
}

proof fn lemma_change_from_flips(schedules: Seq<Schedule>, t: Moment, c: Moment)
    ensures
        change_from(schedules, t, c) matches Some(ch) ==> is_change_after(schedules, t, c, ch),
    decreases t.instant() + HORIZON - c.instant(),
{
    if c.instant() < t.instant() + HORIZON {
        if let Some(n) = boundary_in(schedules, t, c, 0) {
            if c.instant() < n.instant() <= t.instant() + HORIZON {
                if let Some(m) = on_clock(n.instant(), t.offset) {
                    if m.instant() == n.instant() {
                        lemma_change_from_flips(schedules, t, m);
                    }
                }
            }
        }
    }
}

/// A change that is found is a real one: at its instant, after `t` and no
/// further than the horizon, the space has the new status, open for an
/// opening where it was closed at `t`, closed for a closing where it was open.
pub proof fn lemma_next_change_flips(space: Space, t: Moment)
    ensures
        space.next_change(t) matches Some(ch) ==> is_change_after(space.schedules_spec(), t, t, ch),
{
    lemma_change_from_flips(space.schedules_spec(), t, t);
}

proof fn lemma_boundary_in(schedules: Seq<Schedule>, t: Moment, c: Moment, j: nat)
    requires
        c.wf(),
        forall|i: int| 0 <= i < schedules.len() ==> #[trigger] schedules[i].wf(),
    ensures
        forall|k: int|
            j <= k < schedules.len() && !schedules[k].ended_by(t) ==> (
            #[trigger] schedules[k].boundary_after(c) matches Some(y) ==> (boundary_in(
                schedules,
                t,
                c,
                j,
            ) matches Some(n) && n.instant() <= y.instant())),
        boundary_in(schedules, t, c, j) matches Some(n) ==> c.instant() < n.instant(),
    decreases schedules.len() - j,
{
    if j < schedules.len() {
        lemma_boundary_in(schedules, t, c, j + 1);
        lemma_schedule_boundary(schedules[j as int], c);
        lemma_earlier_bounds(
            schedules[j as int].boundary_after(c),
            boundary_in(schedules, t, c, j + 1),
        );
    }
}

proof fn lemma_scan_stable(schedules: Seq<Schedule>, c: Moment, x: Moment, i: nat)
    requires
        forall|k: int|
            i <= k < schedules.len() ==> (#[trigger] schedules[k].active_at(x) == schedules[k].active_at(c))
                && (schedules[k].active_at(c) ==> schedules[k].forced_at(x) == schedules[k].forced_at(c)
                && schedules[k].applying_part(x) == schedules[k].applying_part(c)),
    ensures
        forced_in(schedules, x, i) == forced_in(schedules, c, i),
        open_part_in(schedules, x, i) == open_part_in(schedules, c, i),
    decreases schedules.len() - i,
{
    if i < schedules.len() {
        lemma_scan_stable(schedules, c, x, i + 1);
        assert(schedules[i as int].active_at(x) == schedules[i as int].active_at(c));
    }
}

/// From `c` up to, and not including, the next instant at which a bound
/// occurs, the status read on `c`'s clock stays what it is at `c`.
pub proof fn lemma_resolve_stable(schedules: Seq<Schedule>, t: Moment, c: Moment, x: Moment)
    requires
        forall|i: int| 0 <= i < schedules.len() ==> #[trigger] schedules[i].wf(),
        c.wf(),
        x.wf(),
        c.offset == x.offset,
        t.instant() <= c.instant() <= x.instant(),
        boundary_in(schedules, t, c, 0) matches Some(n) ==> x.instant() < n.instant(),
    ensures
        resolve(schedules, x) == resolve(schedules, c),
        boundary_in(schedules, t, c, 0) matches Some(n) ==> c.instant() < n.instant(),
{
    lemma_boundary_in(schedules, t, c, 0);
    assert forall|k: int| 0 <= k < schedules.len() implies (#[trigger] schedules[k].active_at(x)
        == schedules[k].active_at(c)) && (schedules[k].active_at(c) ==> schedules[k].forced_at(x)
        == schedules[k].forced_at(c) && schedules[k].applying_part(x) == schedules[k].applying_part(
        c,
    )) by {
        if !schedules[k].ended_by(t) {
            lemma_schedule_stable(schedules[k], c, x);
        }
    }
    lemma_scan_stable(schedules, c, x, 0);
}

proof fn lemma_change_from_first(schedules: Seq<Schedule>, t: Moment, c: Moment, x: Moment)
    requires
        forall|i: int| 0 <= i < schedules.len() ==> #[trigger] schedules[i].wf(),
        t.wf(),
        c.wf(),
        x.wf(),
        c.offset == t.offset,
        x.offset == t.offset,
        t.instant() <= c.instant() <= x.instant(),
        resolve(schedules, c).is_open_spec() == resolve(schedules, t).is_open_spec(),
        match change_from(schedules, t, c) {
            Some(ch) => x.instant() < ch.at().instant(),
            None => x.instant() <= t.instant() + HORIZON,
        },
    ensures
        resolve(schedules, x).is_open_spec() == resolve(schedules, t).is_open_spec(),
    decreases t.instant() + HORIZON - c.instant(),
{
    if c.instant() >= t.instant() + HORIZON {
        lemma_same_instant_same_moment(x, c);
    } else {
        lemma_boundary_in(schedules, t, c, 0);
        match boundary_in(schedules, t, c, 0) {
            None => {
                lemma_resolve_stable(schedules, t, c, x);
            },
            Some(n) => {
                lemma_on_clock(c, n.instant(), t.offset);
                if n.instant() > t.instant() + HORIZON {
                    lemma_resolve_stable(schedules, t, c, x);
                } else {
                    match on_clock(n.instant(), t.offset) {
                        None => {
                            lemma_resolve_stable(schedules, t, c, x);
                        },
                        Some(m) => {
                            if x.instant() < m.instant() {
                                lemma_resolve_stable(schedules, t, c, x);
                            } else if resolve(schedules, m).is_open_spec() == resolve(
                                schedules,
                                t,
                            ).is_open_spec() {
                                lemma_change_from_first(schedules, t, m, x);
                            }
                        },
                    }
                }
            },
        }
    }
}

/// The change found is the first: on `t`'s clock, from `t` up to the instant
/// of the change, or up to the horizon where none is found, the space stays
/// open, or stays closed, as it is at `t`.
pub proof fn lemma_next_change_is_first(space: Space, t: Moment, x: Moment)
    requires
        space.wf(),
        t.wf(),
        x.wf(),
        x.offset == t.offset,
        t.instant() <= x.instant(),
        match space.next_change(t) {
            Some(ch) => x.instant() < ch.at().instant(),
            None => x.instant() <= t.instant() + HORIZON,
        },
    ensures
        space.status_spec(x).is_open_spec() == space.status_spec(t).is_open_spec(),
{
    lemma_change_from_first(space.schedules_spec(), t, t, x);
}

} // verus!
