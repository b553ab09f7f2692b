use vstd::prelude::*;

verus! {

/// Errors surfaced by the selective-scan layer.
///
/// Storage failures are reported by the storage port and passed through
/// unchanged; the remaining variants mark internal-consistency violations
/// (a decoder asking for data that was never fetched, or an offset that no
/// sparse chunk advertised) and malformed pruning inputs.
#[derive(Clone, Copy, PartialEq, Eq, Structural, Debug)]
pub enum ErrorCode {
    /// A range read against the storage operator failed.
    StorageError,
    /// A sparse column chunk was asked for an offset it never advertised.
    InvalidOffset,
    /// Chunk access was requested for a column that no successful fetch
    /// has populated.
    ColumnNotFetched,
    /// Cluster statistics do not match the shape the pruning index expects.
    BadStatistics,
    /// A cluster-key column is not present in the table schema.
    UnknownColumn,
    /// A column value or column does not have the type a serializer
    /// expects.
    TypeMismatch,
}

impl ErrorCode {
    /// True for the variants that mark a caller-side consistency bug
    /// rather than a data or I/O condition.
    pub fn is_consistency_violation(&self) -> (r: bool)
        ensures
            r == (*self == ErrorCode::InvalidOffset || *self == ErrorCode::ColumnNotFetched),
    {
        match self {
            ErrorCode::InvalidOffset => true,
            ErrorCode::ColumnNotFetched => true,
            _ => false,
        }
    }
}

} // verus!
