//! Failures of parsing and resolving one dataset. Each carries the line (and
//! column, where there is one) at which it was found, counted from 1.
use vstd::prelude::*;

verus! {

/// Why one catalog line was refused.
#[derive(Clone, Copy, Debug, PartialEq, Eq, Structural)]
pub enum ColleParsingError {
    /// The colle type token is not a subject letter followed by a number.
    IdParsingFailed,
    /// The line does not end with a room written `(room)` after a space.
    MissingRoom,
    /// The line has too few tokens.
    MissingToken,
    /// The hour range is not `<start>h-<end>h` with hours from 0 to 23.
    BadHours,
    /// The weekday code is none of `Lu Ma Me Je Ve Sa Di`.
    BadWeekday,
}

/// Why a dataset could not be resolved.
#[derive(Clone, Copy, Debug, PartialEq, Eq, Structural)]
pub enum ParseError {
    /// A catalog line was refused.
    CatalogLine { line: usize, cause: ColleParsingError },
    /// A week-anchor line does not end with an existing `day-month-year` date.
    DateParse { line: usize },
    /// The grid is empty, a week number in its header is malformed, or a group
    /// row has another number of cells than the header has columns.
    GridShape { line: usize },
    /// A grid cell names a colle type absent from the catalog.
    UnknownColleId { line: usize, column: usize },
    /// A week number of the grid header is outside the week-anchor table.
    WeekRange { column: usize, week: usize },
    /// A line of the ghost-group list is not a group number.
    GroupId { line: usize },
}

} // verus!
