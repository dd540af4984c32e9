//! A bag of parts and exceptions that is in force for a while.

use crate::exception::{lemma_exception_boundary_later, lemma_exception_stable, Exception};
use crate::moment::{earlier, earlier_of, lemma_earlier_assoc, lemma_earlier_bounds, Moment};
use crate::part::{lemma_part_boundary_later, lemma_part_stable, Part};
use crate::status::Status;
use vstd::prelude::*;

verus! {

/// The status forced by the first exception, from the `k`-th on, that applies
/// at `t` and carries an effect.
pub open spec fn forced_from(exceptions: Seq<Exception>, t: Moment, k: nat) -> Option<Status>
    decreases exceptions.len() - k,
{
    if k >= exceptions.len() {
        None
    } else if exceptions[k as int].applies(t) && exceptions[k as int].effect_spec() is Some {
        exceptions[k as int].effect_spec()
    } else {
        forced_from(exceptions, t, k + 1)
    }
}

/// The index of the first part, from the `k`-th on, that applies at `t`.
pub open spec fn applying_from(parts: Seq<Part>, t: Moment, k: nat) -> Option<nat>
    decreases parts.len() - k,
{
    if k >= parts.len() {
        None
    } else if parts[k as int].applies(t) {
        Some(k)
    } else {
        applying_from(parts, t, k + 1)
    }
}

/// The first instant strictly after `c` at which a bound of one of the parts,
/// from the `k`-th on, occurs.
pub open spec fn parts_boundary_from(parts: Seq<Part>, c: Moment, k: nat) -> Option<Moment>
    decreases parts.len() - k,
{
    if k >= parts.len() {
        None
    } else {
        earlier(parts[k as int].boundary_after(c), parts_boundary_from(parts, c, k + 1))
    }
}

/// The first instant strictly after `c` at which a bound of one of the
/// exceptions, from the `k`-th on, occurs.
pub open spec fn exceptions_boundary_from(exceptions: Seq<Exception>, c: Moment, k: nat) -> Option<
    Moment,
>
    decreases exceptions.len() - k,
{
    if k >= exceptions.len() {
        None
    } else {
        earlier(
            exceptions[k as int].boundary_after(c),
            exceptions_boundary_from(exceptions, c, k + 1),
        )
    }
}

/// `b`, where there is one and it comes strictly after `c`.
pub open spec fn bound_after(b: Option<Moment>, c: Moment) -> Option<Moment> {
    match b {
        Some(m) => if c.instant() < m.instant() {
            Some(m)
        } else {
            None
        },
        None => None,
    }
}

/// `b`, where there is one and it comes strictly after `c`.
fn bound_after_exec(b: &Option<Moment>, c: &Moment) -> (r: Option<Moment>)
    requires
        b matches Some(m) ==> m.wf(),
        c.wf(),
    ensures
        r == bound_after(*b, *c),
{
    match b {
        Some(m) => if c.is_before(m) {
            Some(*m)
        } else {
            None
        },
        None => None,
    }
}

/// Parts and exceptions, in force from `effective` (included) to `expires`
/// (excluded); a missing bound leaves that side open.
#[derive(Clone, Debug)]
pub struct Schedule {
    effective: Option<Moment>,
    expires: Option<Moment>,
    parts: Vec<Part>,
    exceptions: Vec<Exception>,
}

impl Default for Schedule {
    fn default() -> (r: Schedule)
        ensures
            r.effective_spec() is None,
            r.expires_spec() is None,
            r.parts_spec().len() == 0,
            r.exceptions_spec().len() == 0,
    {
        Schedule { effective: None, expires: None, parts: Vec::new(), exceptions: Vec::new() }
    }
}

impl Schedule {
    pub closed spec fn effective_spec(self) -> Option<Moment> {
        self.effective
    }

    pub closed spec fn expires_spec(self) -> Option<Moment> {
        self.expires
    }

    pub closed spec fn parts_spec(self) -> Seq<Part> {
        self.parts@
    }

    pub closed spec fn exceptions_spec(self) -> Seq<Exception> {
        self.exceptions@
    }

    pub open spec fn wf(self) -> bool {
        &&& (self.effective_spec() matches Some(m) ==> m.wf())
        &&& (self.expires_spec() matches Some(m) ==> m.wf())
        &&& forall|i: int| 0 <= i < self.parts_spec().len() ==> #[trigger] self.parts_spec()[i].wf()
        &&& forall|i: int|
            0 <= i < self.exceptions_spec().len() ==> #[trigger] self.exceptions_spec()[i].wf()
    }

    /// Whether `t` lies in `[effective, expires)`.
    pub open spec fn active_at(self, t: Moment) -> bool {
        &&& (self.effective_spec() matches Some(e) ==> e.instant() <= t.instant())
        &&& (self.expires_spec() matches Some(x) ==> t.instant() < x.instant())
    }

    /// The status forced at `t` by the first applying exception that carries one.
    pub open spec fn forced_at(self, t: Moment) -> Option<Status> {
        forced_from(self.exceptions_spec(), t, 0)
    }

    /// The index of the first part that applies at `t`.
    pub open spec fn applying_part(self, t: Moment) -> Option<nat> {
        applying_from(self.parts_spec(), t, 0)
    }

    pub fn new() -> (r: Schedule)
        ensures
            r.effective_spec() is None,
            r.expires_spec() is None,
            r.parts_spec().len() == 0,
            r.exceptions_spec().len() == 0,
            r.wf(),
    {
        Schedule::default()
    }

    pub fn effective(&self) -> (r: &Option<Moment>)
        ensures
            *r == self.effective_spec(),
    {
        &self.effective
    }

    pub fn effective_mut(&mut self) -> (r: &mut Option<Moment>)
        ensures
            *r == old(self).effective_spec(),
            final(self).effective_spec() == *final(r),
            final(self).expires_spec() == old(self).expires_spec(),
            final(self).parts_spec() == old(self).parts_spec(),
            final(self).exceptions_spec() == old(self).exceptions_spec(),
    {
        &mut self.effective
    }

    pub fn expires(&self) -> (r: &Option<Moment>)
        ensures
            *r == self.expires_spec(),
    {
        &self.expires
    }

    pub fn expires_mut(&mut self) -> (r: &mut Option<Moment>)
        ensures
            *r == old(self).expires_spec(),
            final(self).expires_spec() == *final(r),
            final(self).effective_spec() == old(self).effective_spec(),
            final(self).parts_spec() == old(self).parts_spec(),
            final(self).exceptions_spec() == old(self).exceptions_spec(),
    {
        &mut self.expires
    }

    pub fn parts(&self) -> (r: &Vec<Part>)
        ensures
            r@ == self.parts_spec(),
    {
        &self.parts
    }

    pub fn parts_mut(&mut self) -> (r: &mut Vec<Part>)
        ensures
            r@ == old(self).parts_spec(),
            final(self).parts_spec() == final(r)@,
            final(self).effective_spec() == old(self).effective_spec(),
            final(self).expires_spec() == old(self).expires_spec(),
            final(self).exceptions_spec() == old(self).exceptions_spec(),
    {
        &mut self.parts
    }

    /// Appends a part.
    pub fn part(self, part: Part) -> (r: Schedule)
        ensures
            r.parts_spec() == self.parts_spec().push(part),
            r.effective_spec() == self.effective_spec(),
            r.expires_spec() == self.expires_spec(),
            r.exceptions_spec() == self.exceptions_spec(),
            self.wf() && part.wf() ==> r.wf(),
    {
        let mut s = self;
        s.parts.push(part);
        proof {
            assert(s.parts_spec() == self.parts_spec().push(part));
            if self.wf() && part.wf() {
                assert forall|i: int| 0 <= i < s.parts_spec().len() implies #[trigger] s.parts_spec()[i].wf() by {
                    if i < self.parts_spec().len() {
                        assert(s.parts_spec()[i] == self.parts_spec()[i]);
                    } else {
                        assert(s.parts_spec()[i] == part);
                    }
                }
                assert(s.exceptions_spec() == self.exceptions_spec());
                assert forall|i: int| 0 <= i < s.exceptions_spec().len() implies #[trigger] s.exceptions_spec()[i].wf() by {
                    assert(self.exceptions_spec()[i].wf());
                }
                assert(s.wf());
            }
        }
        s
    }

    pub fn exceptions(&self) -> (r: &Vec<Exception>)
        ensures
            r@ == self.exceptions_spec(),
    {
        &self.exceptions
    }

    pub fn exceptions_mut(&mut self) -> (r: &mut Vec<Exception>)
        ensures
            r@ == old(self).exceptions_spec(),
            final(self).exceptions_spec() == final(r)@,
            final(self).effective_spec() == old(self).effective_spec(),
            final(self).expires_spec() == old(self).expires_spec(),
            final(self).parts_spec() == old(self).parts_spec(),
    {
        &mut self.exceptions
    }

    /// Appends an exception.
    pub fn exception(self, exception: Exception) -> (r: Schedule)
        ensures
            r.exceptions_spec() == self.exceptions_spec().push(exception),
            r.effective_spec() == self.effective_spec(),
            r.expires_spec() == self.expires_spec(),
            r.parts_spec() == self.parts_spec(),
            self.wf() && exception.wf() ==> r.wf(),
    {
        let mut s = self;
        s.exceptions.push(exception);
        proof {
            assert(s.exceptions_spec() == self.exceptions_spec().push(exception));
            if self.wf() && exception.wf() {
                assert forall|i: int| 0 <= i < s.exceptions_spec().len() implies #[trigger] s.exceptions_spec()[i].wf() by {
                    if i < self.exceptions_spec().len() {
                        assert(s.exceptions_spec()[i] == self.exceptions_spec()[i]);
                    } else {
                        assert(s.exceptions_spec()[i] == exception);
                    }
                }
                assert(s.parts_spec() == self.parts_spec());
                assert forall|i: int| 0 <= i < s.parts_spec().len() implies #[trigger] s.parts_spec()[i].wf() by {
                    assert(self.parts_spec()[i].wf());
                }
                assert(s.wf());
            }
        }
        s
    }

    /// Whether the schedule is in force at `t`.
    pub fn is_active_at(&self, t: &Moment) -> (r: bool)
        requires
            self.wf(),
            t.wf(),
        ensures
            r == self.active_at(*t),
    {
        let after_start = match &self.effective {
            Some(e) => !t.is_before(e),
            None => true,
        };
        let before_end = match &self.expires {
            Some(x) => t.is_before(x),
            None => true,
        };
        after_start && before_end
    }

    /// Whether the schedule has expired by `t`.
    pub open spec fn ended_by(self, t: Moment) -> bool {
        self.expires_spec() matches Some(x) && x.instant() <= t.instant()
    }

    /// The first instant strictly after `c` at which the schedule's own
    /// bounds, or a bound of one of its parts or exceptions, occurs.
    pub open spec fn boundary_after(self, c: Moment) -> Option<Moment> {
        earlier(
            earlier(bound_after(self.effective_spec(), c), bound_after(self.expires_spec(), c)),
            earlier(
                parts_boundary_from(self.parts_spec(), c, 0),
                exceptions_boundary_from(self.exceptions_spec(), c, 0),
            ),
        )
    }

    /// Whether the schedule has expired by `t`.
    pub fn has_ended_by(&self, t: &Moment) -> (r: bool)
        requires
            self.wf(),
            t.wf(),
        ensures
            r == self.ended_by(*t),
    {
        match &self.expires {
            Some(x) => !t.is_before(x),
            None => false,
        }
    }

    /// The first instant strictly after `c` at which the schedule's own
    /// bounds, or a bound of one of its parts or exceptions, occurs.
    pub fn next_boundary_after(&self, c: &Moment) -> (r: Option<Moment>)
        requires
            self.wf(),
            c.wf(),
        ensures
            r == self.boundary_after(*c),
            r matches Some(m) ==> m.wf() && c.instant() < m.instant(),
    {
        let mut from_parts: Option<Moment> = None;
        let mut k: usize = 0;
        while k < self.parts.len()
            invariant
                self.wf(),
                c.wf(),
                k <= self.parts@.len(),
                earlier(from_parts, parts_boundary_from(self.parts@, *c, k as nat))
                    == parts_boundary_from(self.parts@, *c, 0),
                from_parts matches Some(m) ==> m.wf() && c.instant() < m.instant(),
            decreases self.parts@.len() - k,
        {
            assert(self.parts_spec()[k as int].wf());
            let x = self.parts[k].next_boundary_after(c);
            proof {
                lemma_earlier_assoc(from_parts, x, parts_boundary_from(self.parts@, *c, (k + 1) as nat));
            }
            from_parts = earlier_of(from_parts, x);
            k = k + 1;
        }
        let mut from_exceptions: Option<Moment> = None;
        let mut k: usize = 0;
        while k < self.exceptions.len()
            invariant
                self.wf(),
                c.wf(),
                k <= self.exceptions@.len(),
                earlier(from_exceptions, exceptions_boundary_from(self.exceptions@, *c, k as nat))
                    == exceptions_boundary_from(self.exceptions@, *c, 0),
                from_exceptions matches Some(m) ==> m.wf() && c.instant() < m.instant(),
            decreases self.exceptions@.len() - k,
        {
            assert(self.exceptions_spec()[k as int].wf());
            let x = self.exceptions[k].next_boundary_after(c);
            proof {
                lemma_earlier_assoc(
                    from_exceptions,
                    x,
                    exceptions_boundary_from(self.exceptions@, *c, (k + 1) as nat),
                );
            }
            from_exceptions = earlier_of(from_exceptions, x);
            k = k + 1;
        }
        let own = earlier_of(bound_after_exec(&self.effective, c), bound_after_exec(&self.expires, c));
        earlier_of(own, earlier_of(from_parts, from_exceptions))
    }

    /// The status forced at `t` by the first applying exception that carries one.
    pub fn forced_status_at(&self, t: &Moment) -> (r: Option<Status>)
        requires
            self.wf(),
            t.wf(),
        ensures
            r == self.forced_at(*t),
    {
        let mut k: usize = 0;
        while k < self.exceptions.len()
            invariant
                self.wf(),
                t.wf(),
                k <= self.exceptions@.len(),
                forced_from(self.exceptions@, *t, k as nat) == self.forced_at(*t),
            decreases self.exceptions@.len() - k,
        {
            let e = &self.exceptions[k];
            assert(self.exceptions_spec()[k as int].wf());
            if e.applies_at(t) {
                match e.effect() {
                    Some(s) => {
                        return Some(s.duplicate());
                    },
                    None => {},
                }
            }
            k = k + 1;
        }
        None
    }

    /// The index of the first part that applies at `t`.
    pub fn applying_part_at(&self, t: &Moment) -> (r: Option<usize>)
        requires
            self.wf(),
            t.wf(),
        ensures
            r matches Some(j) ==> self.applying_part(*t) == Some(j as nat),
            r is None ==> self.applying_part(*t) is None,
    {
        let mut k: usize = 0;
        while k < self.parts.len()
            invariant
                self.wf(),
                t.wf(),
                k <= self.parts@.len(),
                applying_from(self.parts@, *t, k as nat) == self.applying_part(*t),
            decreases self.parts@.len() - k,
        {
            assert(self.parts_spec()[k as int].wf());
            if self.parts[k].applies_at(t) {
                return Some(k);
            }
            k = k + 1;
        }
        None
    }
}

proof fn lemma_parts_boundary(parts: Seq<Part>, c: Moment, j: nat)
    requires
        c.wf(),
        forall|i: int| 0 <= i < parts.len() ==> #[trigger] parts[i].wf(),
    ensures
        forall|k: int|
            j <= k < parts.len() ==> (#[trigger] parts[k].boundary_after(c) matches Some(y) ==> (
            parts_boundary_from(parts, c, j) matches Some(n) && n.instant() <= y.instant())),
        parts_boundary_from(parts, c, j) matches Some(n) ==> c.instant() < n.instant(),
    decreases parts.len() - j,
{
    if j < parts.len() {
        lemma_parts_boundary(parts, c, j + 1);
        lemma_part_boundary_later(parts[j as int], c);
        lemma_earlier_bounds(parts[j as int].boundary_after(c), parts_boundary_from(parts, c, j + 1));
    }
}

proof fn lemma_exceptions_boundary(exceptions: Seq<Exception>, c: Moment, j: nat)
    requires
        c.wf(),
        forall|i: int| 0 <= i < exceptions.len() ==> #[trigger] exceptions[i].wf(),
    ensures
        forall|k: int|
            j <= k < exceptions.len() ==> (#[trigger] exceptions[k].boundary_after(c) matches Some(
                y,
            ) ==> (exceptions_boundary_from(exceptions, c, j) matches Some(n) && n.instant()
                <= y.instant())),
        exceptions_boundary_from(exceptions, c, j) matches Some(n) ==> c.instant() < n.instant(),
    decreases exceptions.len() - j,
{
    if j < exceptions.len() {
        lemma_exceptions_boundary(exceptions, c, j + 1);
        lemma_exception_boundary_later(exceptions[j as int], c);
        lemma_earlier_bounds(
            exceptions[j as int].boundary_after(c),
            exceptions_boundary_from(exceptions, c, j + 1),
        );
    }
}

proof fn lemma_applying_from_stable(parts: Seq<Part>, c: Moment, x: Moment, k: nat)
    requires
        forall|i: int| k <= i < parts.len() ==> #[trigger] parts[i].applies(x) == parts[i].applies(c),
    ensures
        applying_from(parts, x, k) == applying_from(parts, c, k),
    decreases parts.len() - k,
{
    if k < parts.len() {
        lemma_applying_from_stable(parts, c, x, k + 1);
    }
}

proof fn lemma_forced_from_stable(exceptions: Seq<Exception>, c: Moment, x: Moment, k: nat)
    requires
        forall|i: int|
            k <= i < exceptions.len() ==> #[trigger] exceptions[i].applies(x) == exceptions[i].applies(
                c,
            ),
    ensures
        forced_from(exceptions, x, k) == forced_from(exceptions, c, k),
    decreases exceptions.len() - k,
{
    if k < exceptions.len() {
        lemma_forced_from_stable(exceptions, c, x, k + 1);
    }
}

/// The next instant at which a bound occurs in the schedule comes after `c`,
/// and no later than the next one of its own bounds or of those of any of its
/// parts or exceptions.
pub proof fn lemma_schedule_boundary(s: Schedule, c: Moment)
    requires
        s.wf(),
        c.wf(),
    ensures
        s.boundary_after(c) matches Some(n) ==> c.instant() < n.instant(),
        bound_after(s.effective_spec(), c) matches Some(y) ==> (s.boundary_after(c) matches Some(n)
            && n.instant() <= y.instant()),
        bound_after(s.expires_spec(), c) matches Some(y) ==> (s.boundary_after(c) matches Some(n)
            && n.instant() <= y.instant()),
        forall|i: int|
            0 <= i < s.parts_spec().len() ==> (#[trigger] s.parts_spec()[i].boundary_after(c) matches Some(
                y,
            ) ==> (s.boundary_after(c) matches Some(n) && n.instant() <= y.instant())),
        forall|i: int|
            0 <= i < s.exceptions_spec().len() ==> (#[trigger] s.exceptions_spec()[i].boundary_after(
                c,
            ) matches Some(y) ==> (s.boundary_after(c) matches Some(n) && n.instant()
                <= y.instant())),
{
    let own = earlier(bound_after(s.effective_spec(), c), bound_after(s.expires_spec(), c));
    let inner = earlier(
        parts_boundary_from(s.parts_spec(), c, 0),
        exceptions_boundary_from(s.exceptions_spec(), c, 0),
    );
    lemma_earlier_bounds(bound_after(s.effective_spec(), c), bound_after(s.expires_spec(), c));
    lemma_earlier_bounds(
        parts_boundary_from(s.parts_spec(), c, 0),
        exceptions_boundary_from(s.exceptions_spec(), c, 0),
    );
    lemma_earlier_bounds(own, inner);
    lemma_parts_boundary(s.parts_spec(), c, 0);
    lemma_exceptions_boundary(s.exceptions_spec(), c, 0);
}

/// Where no bound occurs on `c`'s clock from just after `c` up to `x`, the
/// schedule is in force, forces a status and has an applying part at `x`
/// exactly as at `c`.
pub proof fn lemma_schedule_stable(s: Schedule, c: Moment, x: Moment)
    requires
        s.wf(),
        c.wf(),
        x.wf(),
        c.offset == x.offset,
        c.instant() <= x.instant(),
        s.boundary_after(c) matches Some(n) ==> x.instant() < n.instant(),
    ensures
        s.active_at(x) == s.active_at(c),
        s.forced_at(x) == s.forced_at(c),
        s.applying_part(x) == s.applying_part(c),
{
    lemma_schedule_boundary(s, c);
    assert forall|i: int| 0 <= i < s.parts_spec().len() implies #[trigger] s.parts_spec()[i].applies(
        x,
    ) == s.parts_spec()[i].applies(c) by {
        lemma_part_stable(s.parts_spec()[i], c, x);
    }
    assert forall|i: int|
        0 <= i < s.exceptions_spec().len() implies #[trigger] s.exceptions_spec()[i].applies(x)
        == s.exceptions_spec()[i].applies(c) by {
        lemma_exception_stable(s.exceptions_spec()[i], c, x);
    }
    lemma_applying_from_stable(s.parts_spec(), c, x, 0);
    lemma_forced_from_stable(s.exceptions_spec(), c, x, 0);
}

} // verus!
