use vstd::prelude::*;

verus! {

/// An error describing why an experiment failed.
#[derive(Debug, Clone, Copy, PartialEq, Eq, Structural)]
pub enum K2Error {
    Unknown,
    ExecutionFailed,
    RerunError,
}

/// Why the manifest cannot go on. Each of these is fatal for the experiment.
#[derive(Debug, Clone, Copy, PartialEq, Eq, Structural)]
pub enum ManifestError {
    /// The file is not laid out as a manifest header.
    Malformed,
    /// The file is laid out as a header, but its ordering is not a permutation
    /// or its cursor lies past the end of the ordering.
    Corrupt,
    /// A counter no longer fits in the width of its field.
    FieldTooWide,
    /// The cursor is already at the end of the ordering.
    ScheduleExhausted,
}

} // verus!
