//! Resumable walk step outcome.
use vstd::prelude::*;

verus! {

/// Outcome of one bounded step of a resumable walk.
#[derive(Debug, Clone, Copy, PartialEq, Eq, Structural)]
pub enum Progress {
    Advanced,
    Finished,
    Capacity,
}

} // verus!
