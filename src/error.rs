//! Errors of configuration and of assignment.
use vstd::prelude::*;

verus! {

/// Why building a configuration or assigning a trace was abandoned.
#[derive(Debug)]
pub enum Error {
    /// A constraint set or lookup refers to a column or selector that was never declared.
    UndeclaredReference,
    /// The table side of a lookup is not a query of a fixed column at the current row.
    InvalidLookupTable,
    /// A column of the wrong kind was handed to an assignment call.
    WrongColumnKind,
    /// A copy constraint names a column whose equality was not enabled.
    EqualityNotEnabled,
    /// A write at an offset past the end of its region.
    OutOfRegion { region: String, offset: usize },
    /// Two different concrete values written to one cell.
    ConflictingAssignment { region: String, offset: usize },
    /// The trace has no room left for a region of the requested height.
    NotEnoughRows,
    /// A row outside the trace.
    RowOutOfRange,
    /// A witness value was needed but is unknown.
    MissingWitness,
}

} // verus!
