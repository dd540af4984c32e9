//! Resolves whether a facility is open or closed at a given instant, from
//! recurring opening hours, time-bounded exceptions and schedules that are
//! only in force for a while.

pub mod exception;
pub mod moment;
pub mod part;
pub mod pdf;
pub mod schedule;
pub mod space;
pub mod specifier;
pub mod status;

pub use exception::Exception;
pub use moment::{Moment, Weekday};
pub use part::Part;
pub use schedule::Schedule;
pub use space::Space;
pub use specifier::{Instances, InvalidSpecifier, Specifier};
pub use status::{PartRef, Reason, Status, StatusChange};
