//! Core source indexing step outcome.
use vstd::prelude::*;

verus! {

/// Outcome of indexing one page of the shared core source.
#[derive(Debug, Clone, Copy, PartialEq, Eq, Structural)]
pub enum Progress {
    Indexed { observations: usize, qualified: usize },
    Finished,
    Capacity,
}

} // verus!
