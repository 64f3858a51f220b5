//! Verified policy core of the CRM migration engine: retained-evidence family
//! refresh decisions, coverage vocabulary, bounded evidence and the sealing of
//! migration payloads bound to tenant, row, revision and purpose.
pub mod bytes;
pub mod core_change_reports;
pub mod core_change_source;
pub mod core_change_store;
pub mod core_change_worker;
pub mod coverage_inventory;
pub mod crypto;
pub mod error;
pub mod family_refresh;
pub mod snapshot_source;
