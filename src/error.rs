use vstd::prelude::*;

use crate::window::CalendarDate;

verus! {

/// Why a run cannot produce a report.
#[derive(Debug)]
pub enum AggregateError {
    /// A time entry lacks its tag list or its start, or holds one in an unreadable form.
    MalformedEntry,
    /// The work group record at `index` of the allocation file at `path`
    /// lacks its tag list or its allocation, or holds one in an unreadable form.
    MalformedWorkGroup { path: String, index: usize },
    /// The reporting window spans `days` calendar days, neither one nor seven.
    UnsupportedWindow { days: i64, start: CalendarDate, end: CalendarDate },
    /// The allocation file at `path` does not exist.
    AllocationFileMissing { path: String },
    /// The allocation file at `path` does not exist and sample mode is on:
    /// `document` is an example allocation document to start a real one from.
    SampleDocument { path: String, document: String },
    /// The allocation file at `path` is not JSON, or not an array; `cause` says why.
    MalformedAllocationFile { path: String, cause: String },
    /// The allocation file at `path` declares no work group.
    NoWorkGroupsDefined { path: String },
    /// The input names no start or no end of the reporting window.
    MissingReportBounds,
    /// A bound of the reporting window cannot be read as a timestamp, or lies
    /// too far from the present to have a calendar date.
    MalformedReportBounds,
}

} // verus!
