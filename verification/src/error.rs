//! The errors of the library.

use vstd::prelude::*;

verus! {

/// Why a request was rejected before anything was computed.
#[derive(Clone, Copy, Debug, PartialEq, Eq, Structural)]
pub enum InputFault {
    /// The first day of the reporting window is no date.
    MalformedStartDate,
    /// The last day of the reporting window is no date.
    MalformedEndDate,
    /// The reporting window ends before it starts.
    ReversedWindow,
    /// The developer has no daily capacity.
    NoCapacity,
    /// The efforts of the tasks add up to more than the engine can count.
    EffortOverflow,
}

/// Why the holiday source gave no facts.
#[derive(Clone, Copy, Debug, PartialEq, Eq, Structural)]
pub enum SourceFault {
    /// The request failed or its answer could not be read.
    Unreachable,
    /// The source answered with this status, which is not success.
    Status(i32),
}

/// An error of the library.
#[derive(Clone, Copy, Debug, PartialEq, Eq, Structural)]
pub enum ScheduleError {
    /// The input was rejected; nothing was computed.
    InvalidInput(InputFault),
    /// The holiday source could not be used; the calendar is unchanged and
    /// keeps falling back on the overtime and weekday rules.
    SourceUnavailable(SourceFault),
}

} // verus!
