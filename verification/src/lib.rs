//! Dual-store word-search core: an authoritative word catalog with exact
//! substring lookup, a fixed-width vector index with nearest-neighbour
//! queries, and a coordinator that fuses the two result streams.

use vstd::prelude::*;

pub mod catalog;
pub mod challenge;
pub mod embedding;
pub mod index;
pub mod registry;
pub mod schema;
pub mod search;
pub mod text;

verus! {

/// The error taxonomy of the subsystem.
///
/// `ConstraintViolation` — a required field of a new row is missing or empty.
/// `DuplicateName` — an embedding registration reuses a registry name.
/// `ComputeError` — an embedding batch came back malformed (wrong count,
/// wrong width, or a component out of range) and was rejected whole.
/// `ConsistencyError` — the vector append failed after the catalog row had
/// been committed; the word is searchable by exact match only until a
/// reconciliation pass replays the append.
/// `ReferentialIntegrityError` — a delete was blocked by dependent rows.
/// `SchemaError` — an existing vector table does not match the expected
/// schema; fatal at startup.
#[derive(Clone, Copy, PartialEq, Eq, Structural, Debug)]
pub enum WordStoreError {
    ConstraintViolation,
    DuplicateName,
    ComputeError,
    ConsistencyError,
    ReferentialIntegrityError,
    SchemaError,
}

} // verus!
