pub mod codec;
pub mod models;
pub mod store;
pub mod timestamp;

use vstd::prelude::*;

verus! {

/// Everything that a store or export operation can fail with.
#[derive(Clone, Copy, PartialEq, Eq, Structural, Debug)]
pub enum LogbookError {
    /// A log entry referred to a profile id that does not exist.
    ProfileNotFound,
    /// A timestamp bound was not of the form `YYYY-MM-DD HH:MM:SS`.
    InvalidTimestamp,
    /// An id counter reached its ceiling; nothing further can be stored.
    StoreFull,
    /// The system clock reported a moment outside the representable calendar.
    ClockRange,
    /// A stored text held a character the interchange format cannot carry.
    NotSerializable,
}

} // verus!
