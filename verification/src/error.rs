//! Closed error vocabulary of the migration engine.
use vstd::prelude::*;

verus! {

#[derive(Debug, Clone, Copy, PartialEq, Eq, Structural)]
pub enum MigrationError {
    InvalidInput,
    InvalidImportChoice,
    NotFound,
    Conflict,
    Crypto,
    StorageLimit,
    SourceNotEligible,
    /// A plan is leased to a running worker.
    ImportBusy,
    /// The actor may not act on this record.
    Forbidden,
}

} // verus!
