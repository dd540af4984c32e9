//! Time-bounded overrides that can force a status.

use crate::moment::{earlier, earlier_of, lemma_earlier_bounds, Moment};
use crate::specifier::{
    lemma_first_after_is_first, lemma_window_stable, next_occurrence_after, next_of, window_contains, window_holds, Specifier,
};
use crate::status::Status;
use vstd::prelude::*;

verus! {

/// An override window and the status it forces while it applies.
#[derive(Clone, Debug)]
pub struct Exception {
    effect: Option<Status>,
    effective: Option<Specifier>,
    expires: Option<Specifier>,
}

impl Default for Exception {
    fn default() -> (r: Exception)
        ensures
            r.effect_spec() is None,
            r.effective_spec() is None,
            r.expires_spec() is None,
    {
        Exception { effect: None, effective: None, expires: None }
    }
}

impl Exception {
    pub closed spec fn effect_spec(self) -> Option<Status> {
        self.effect
    }

    pub closed spec fn effective_spec(self) -> Option<Specifier> {
        self.effective
    }

    pub closed spec fn expires_spec(self) -> Option<Specifier> {
        self.expires
    }

    pub open spec fn wf(self) -> bool {
        &&& (self.effective_spec() matches Some(s) ==> s.wf())
        &&& (self.expires_spec() matches Some(s) ==> s.wf())
    }

    /// With both bounds, the exception applies inside its window; with either
    /// bound missing it applies at every instant.
    pub open spec fn applies(self, t: Moment) -> bool {
        match (self.effective_spec(), self.expires_spec()) {
            (Some(o), Some(c)) => window_holds(o, c, t),
            _ => true,
        }
    }

    pub fn new() -> (r: Exception)
        ensures
            r.effect_spec() is None,
            r.effective_spec() is None,
            r.expires_spec() is None,
            r.wf(),
    {
        Exception::default()
    }

    /// The status this exception forces, to be set in place.
    pub fn effect_mut(&mut self) -> (r: &mut Option<Status>)
        ensures
            *r == old(self).effect_spec(),
            final(self).effect_spec() == *final(r),
            final(self).effective_spec() == old(self).effective_spec(),
            final(self).expires_spec() == old(self).expires_spec(),
    {
        &mut self.effect
    }

    pub fn effect(&self) -> (r: &Option<Status>)
        ensures
            *r == self.effect_spec(),
    {
        &self.effect
    }

    pub fn effective(self, effective: Specifier) -> (r: Exception)
        requires
            effective.wf(),
            self.wf(),
        ensures
            r.effect_spec() == self.effect_spec(),
            r.effective_spec() == Some(effective),
            r.expires_spec() == self.expires_spec(),
            r.wf(),
    {
        let mut e = self;
        e.effective = Some(effective);
        e
    }

    pub fn expires(self, expires: Specifier) -> (r: Exception)
        requires
            expires.wf(),
            self.wf(),
        ensures
            r.effect_spec() == self.effect_spec(),
            r.effective_spec() == self.effective_spec(),
            r.expires_spec() == Some(expires),
            r.wf(),
    {
        let mut e = self;
        e.expires = Some(expires);
        e
    }

    /// The first instant strictly after `c` at which one of the bounds occurs.
    pub open spec fn boundary_after(self, c: Moment) -> Option<Moment> {
        earlier(next_of(self.effective_spec(), c), next_of(self.expires_spec(), c))
    }

    /// The first instant strictly after `c` at which one of the bounds occurs.
    pub fn next_boundary_after(&self, c: &Moment) -> (r: Option<Moment>)
        requires
            self.wf(),
            c.wf(),
        ensures
            r == self.boundary_after(*c),
            r matches Some(m) ==> m.wf() && c.instant() < m.instant(),
    {
        let x = next_occurrence_after(&self.effective, c);
        let y = next_occurrence_after(&self.expires, c);
        earlier_of(x, y)
    }

    /// Whether this exception's window contains `time`.
    pub fn applies_at(&self, time: &Moment) -> (r: bool)
        requires
            self.wf(),
            time.wf(),
        ensures
            r == self.applies(*time),
    {
        match (&self.effective, &self.expires) {
            (Some(open), Some(close)) => window_contains(open, close, time),
            _ => true,
        }
    }
}

/// Where none of the exception's bounds occurs on `c`'s clock from just after `c`
/// up to `x`, the exception applies at `x` exactly when it applies at `c`.
pub proof fn lemma_exception_stable(e: Exception, c: Moment, x: Moment)
    requires
        e.wf(),
        c.wf(),
        x.wf(),
        c.offset == x.offset,
        c.instant() <= x.instant(),
        e.boundary_after(c) matches Some(n) ==> x.instant() < n.instant(),
    ensures
        e.applies(x) == e.applies(c),
{
    lemma_earlier_bounds(next_of(e.effective_spec(), c), next_of(e.expires_spec(), c));
    if let (Some(o), Some(k)) = (e.effective_spec(), e.expires_spec()) {
        lemma_window_stable(o, k, c, x);
    }
}

/// The next instant at which a bound of the exception occurs comes after `c`.
pub proof fn lemma_exception_boundary_later(e: Exception, c: Moment)
    requires
        e.wf(),
        c.wf(),
    ensures
        e.boundary_after(c) matches Some(n) ==> c.instant() < n.instant(),
{
    lemma_earlier_bounds(next_of(e.effective_spec(), c), next_of(e.expires_spec(), c));
    if let Some(o) = e.effective_spec() {
        lemma_first_after_is_first(o, c);
    }
    if let Some(k) = e.expires_spec() {
        lemma_first_after_is_first(k, c);
    }
}

} // verus!
