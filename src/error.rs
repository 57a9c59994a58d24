use vstd::prelude::*;

verus! {

/// What can go wrong while reading or updating the timesheet.
#[derive(Debug, Clone, Copy, PartialEq, Eq, Structural)]
pub enum TimesheetError {
    /// The backing file cannot be opened, created or written.
    Io,
    /// A stored or given field does not have the expected date, time or number shape.
    Parse,
    /// No target hours are configured for the weekday and none were given.
    Config,
}

} // verus!
