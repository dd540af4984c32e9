//! What a status query answers: open or closed, and why.

use crate::moment::Moment;
use vstd::prelude::*;

verus! {

/// Where a part sits in a space: the index of its schedule in the space, and
/// its own index in that schedule.
#[derive(Clone, Copy, Debug, PartialEq, Eq, Structural)]
pub struct PartRef {
    pub schedule: usize,
    pub part: usize,
}

/// Why a status holds.
#[derive(Clone, Debug, PartialEq, Eq)]
pub enum Reason {
    /// An exception forces it, with an optional message ("Closed for lunch.").
    Exception(Option<String>),
    /// The part that is open, or `None` when no part is.
    Part(Option<PartRef>),
}

/// Open or closed, and why.
#[derive(Clone, Debug, PartialEq, Eq)]
pub enum Status {
    Open(Reason),
    Closed(Reason),
}

/// The next change of status: the instant at which it comes and the reason
/// of the new status.
#[derive(Clone, Debug, PartialEq, Eq)]
pub enum StatusChange {
    Opening(Moment, Reason),
    Closing(Moment, Reason),
}

impl Reason {
    /// A copy of this reason.
    pub fn duplicate(&self) -> (r: Reason)
        ensures
            r == *self,
    {
        match self {
            Reason::Exception(None) => Reason::Exception(None),
            Reason::Exception(Some(m)) => Reason::Exception(Some(m.clone())),
            Reason::Part(p) => Reason::Part(*p),
        }
    }
}

impl Status {
    pub open spec fn is_open_spec(self) -> bool {
        self is Open
    }

    pub fn is_open(&self) -> (r: bool)
        ensures
            r == self.is_open_spec(),
    {
        match self {
            Status::Open(_) => true,
            Status::Closed(_) => false,
        }
    }

    /// A copy of this status.
    pub fn duplicate(&self) -> (r: Status)
        ensures
            r == *self,
    {
        match self {
            Status::Open(r) => Status::Open(r.duplicate()),
            Status::Closed(r) => Status::Closed(r.duplicate()),
        }
    }
}

impl StatusChange {
    /// The instant at which the change comes.
    pub open spec fn at(self) -> Moment {
        match self {
            StatusChange::Opening(m, _) => m,
            StatusChange::Closing(m, _) => m,
        }
    }
}

} // verus!
