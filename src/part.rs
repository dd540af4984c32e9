//! A recurring operating window: when it opens, when it closes, and notes.

use crate::moment::{earlier, earlier_of, lemma_earlier_bounds, Moment};
use crate::specifier::{
    lemma_first_after_is_first, lemma_window_stable, next_occurrence_after, next_of, window_contains, window_holds, Specifier,
};
use vstd::prelude::*;

verus! {

/// One open/close pair of specifiers, with free-text notes.
#[derive(Clone, Debug, PartialEq)]
pub struct Part {
    open: Option<Specifier>,
    close: Option<Specifier>,
    notes: Vec<String>,
}

impl Default for Part {
    fn default() -> (r: Part)
        ensures
            r.opening() is None,
            r.closing() is None,
            r.notes_spec().len() == 0,
    {
        Part { open: None, close: None, notes: Vec::new() }
    }
}

impl Part {
    pub closed spec fn opening(self) -> Option<Specifier> {
        self.open
    }

    pub closed spec fn closing(self) -> Option<Specifier> {
        self.close
    }

    pub closed spec fn notes_spec(self) -> Seq<String> {
        self.notes@
    }

    pub open spec fn wf(self) -> bool {
        &&& (self.opening() matches Some(s) ==> s.wf())
        &&& (self.closing() matches Some(s) ==> s.wf())
    }

    /// With both bounds, the part applies inside its window; with either
    /// bound missing it applies at every instant.
    pub open spec fn applies(self, t: Moment) -> bool {
        match (self.opening(), self.closing()) {
            (Some(o), Some(c)) => window_holds(o, c, t),
            _ => true,
        }
    }

    pub fn new() -> (r: Part)
        ensures
            r.opening() is None,
            r.closing() is None,
            r.notes_spec().len() == 0,
            r.wf(),
    {
        Part::default()
    }

    pub fn open(self, ts: Specifier) -> (r: Part)
        requires
            ts.wf(),
            self.wf(),
        ensures
            r.opening() == Some(ts),
            r.closing() == self.closing(),
            r.notes_spec() == self.notes_spec(),
            r.wf(),
    {
        let mut p = self;
        p.open = Some(ts);
        p
    }

    pub fn close(self, ts: Specifier) -> (r: Part)
        requires
            ts.wf(),
            self.wf(),
        ensures
            r.opening() == self.opening(),
            r.closing() == Some(ts),
            r.notes_spec() == self.notes_spec(),
            r.wf(),
    {
        let mut p = self;
        p.close = Some(ts);
        p
    }

    pub fn note(self, note: &str) -> (r: Part)
        requires
            self.wf(),
        ensures
            r.opening() == self.opening(),
            r.closing() == self.closing(),
            r.notes_spec().len() == self.notes_spec().len() + 1,
            r.notes_spec().drop_last() == self.notes_spec(),
            r.notes_spec().last()@ == note@,
            r.wf(),
    {
        let mut p = self;
        let s = note.to_string();
        proof {
            vstd::string::to_string_from_display_ensures_for_str(note, s);
        }
        p.notes.push(s);
        p
    }

    pub fn notes(&self) -> (r: &Vec<String>)
        ensures
            r@ == self.notes_spec(),
    {
        &self.notes
    }

    /// The first instant strictly after `c` at which one of the bounds occurs.
    pub open spec fn boundary_after(self, c: Moment) -> Option<Moment> {
        earlier(next_of(self.opening(), c), next_of(self.closing(), c))
    }

    /// The first instant strictly after `c` at which one of the bounds occurs.
    pub fn next_boundary_after(&self, c: &Moment) -> (r: Option<Moment>)
        requires
            self.wf(),
            c.wf(),
        ensures
            r == self.boundary_after(*c),
            r matches Some(m) ==> m.wf() && c.instant() < m.instant(),
    {
        let x = next_occurrence_after(&self.open, c);
        let y = next_occurrence_after(&self.close, c);
        earlier_of(x, y)
    }

    /// Whether this part's window contains `time`.
    pub fn applies_at(&self, time: &Moment) -> (r: bool)
        requires
            self.wf(),
            time.wf(),
        ensures
            r == self.applies(*time),
    {
        match (&self.open, &self.close) {
            (Some(open), Some(close)) => window_contains(open, close, time),
            _ => true,
        }
    }
}

/// A part without an opening or without a closing applies at every instant.
pub proof fn lemma_unbounded_part_applies(p: Part, t: Moment)
    requires
        p.opening() is None || p.closing() is None,
    ensures
        p.applies(t),
{
}

/// Where none of the part's bounds occurs on `c`'s clock from just after `c`
/// up to `x`, the part applies at `x` exactly when it applies at `c`.
pub proof fn lemma_part_stable(e: Part, c: Moment, x: Moment)
    requires
        e.wf(),
        c.wf(),
        x.wf(),
        c.offset == x.offset,
        c.instant() <= x.instant(),
        e.boundary_after(c) matches Some(n) ==> x.instant() < n.instant(),
    ensures
        e.applies(x) == e.applies(c),
{
    lemma_earlier_bounds(next_of(e.opening(), c), next_of(e.closing(), c));
    if let (Some(o), Some(k)) = (e.opening(), e.closing()) {
        lemma_window_stable(o, k, c, x);
    }
}

/// The next instant at which a bound of the part occurs comes after `c`.
pub proof fn lemma_part_boundary_later(e: Part, c: Moment)
    requires
        e.wf(),
        c.wf(),
    ensures
        e.boundary_after(c) matches Some(n) ==> c.instant() < n.instant(),
{
    lemma_earlier_bounds(next_of(e.opening(), c), next_of(e.closing(), c));
    if let Some(o) = e.opening() {
        lemma_first_after_is_first(o, c);
    }
    if let Some(k) = e.closing() {
        lemma_first_after_is_first(k, c);
    }
}

} // verus!
