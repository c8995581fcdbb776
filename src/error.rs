//! Errors of the dataset: indexing and retrieval.
use vstd::prelude::*;

verus! {

/// Why indexing a dataset or a lookup in it failed.
#[derive(Clone, Copy, Debug, PartialEq, Eq, Structural)]
pub enum DatasetError {
    /// `index` was called on a dataset that is indexed already.
    AlreadyIndexed,
    /// A lookup was made before the dataset was indexed.
    NotIndexed,
    /// A header line is too short to hold the fields the layout places in it.
    MalformedHeaderLine,
    /// A logical record number field is not a decimal number that fits.
    MalformedLogicalRecordNumber,
    /// Two header lines carry the same geographic identifier.
    DuplicateGeoId,
    /// No header line carries the geographic identifier asked for.
    InvalidGeoId,
    /// A tabular file holds no record of the logical record number asked for.
    InvalidLogicalRecordNumber,
    /// A record was handed in for a tabular file that the dataset does not have.
    UnknownTabularFile,
    /// A fragment read back carries another logical record number than the
    /// one asked for.
    RecordMismatch,
}

} // verus!
