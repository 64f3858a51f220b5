//! Combined retained-evidence family refresh. Typed family policies share a
//! review/confirmation boundary; individual units remain independently atomic.
pub mod model;
pub mod field_queries;
pub mod evidence;
pub mod catalog_walk;
pub mod cohort;
pub mod confirmation;
pub mod core_resolution;
pub mod core_source;
pub mod history_walk;
pub mod item_queries;
pub mod mapping_inventory;
pub mod mapping_selection;
pub mod lifecycle;
pub mod manifest;
pub mod activity_execution;
pub mod history_plan;
pub mod history_index;
pub mod metadata_mapping;
pub mod mapping_queries;
pub mod native_proof;
pub mod commands;
pub mod metadata_delta;
pub mod metadata_baseline;
pub mod execution;
pub mod activity_delta;
pub mod activity_baseline;
pub mod native_baseline;
