//! One atomic confirmed manifest unit. Source adapters authenticate before the
//! final transaction; native, head, catalog and membership checks hold its locks.
use super::model::{spec_reconciles, Counts, Hold};
use crate::error::MigrationError;
use vstd::prelude::*;

verus! {

/// Outcome of one bounded execution step.
#[derive(Debug, Clone, Copy, PartialEq, Eq, Structural)]
pub enum Progress {
    Advanced,
    Finished,
    Capacity,
}

/// The recorded result of one manifest unit.
pub struct ResultUnit {
    pub disposition: &'static str,
    pub reason: Option<Hold>,
    pub person: Option<u128>,
    pub target: Option<u128>,
    pub revision: Option<i64>,
    pub counts: Counts,
    pub native_bytes: i64,
}

impl ResultUnit {
    /// The result of a unit held for `reason`: one held unit, nothing written.
    pub fn held(person: Option<u128>, target: Option<u128>, reason: Hold) -> (unit: ResultUnit)
        ensures
            unit.disposition@ == "held"@,
            unit.reason == Some(reason),
            unit.person == person,
            unit.target == target,
            unit.revision is None,
            unit.native_bytes == 0,
            unit.counts.units == 1,
            unit.counts.held == 1,
            unit.counts.inserts == 0 && unit.counts.updates == 0 && unit.counts.already_current == 0,
            unit.counts.excluded == 0 && unit.counts.tag_removals == 0 && unit.counts.field_clears == 0,
            unit.counts.task_completions == 0 && unit.counts.task_reopens == 0,
            unit.counts.history_corrections == 0 && unit.counts.source_only == 0,
            spec_reconciles(unit.counts),
    {
        ResultUnit {
            disposition: "held",
            reason: Some(reason),
            person,
            target,
            revision: None,
            counts: Counts {
                units: 1,
                inserts: 0,
                updates: 0,
                already_current: 0,
                held: 1,
                excluded: 0,
                tag_removals: 0,
                field_clears: 0,
                task_completions: 0,
                task_reopens: 0,
                history_corrections: 0,
                source_only: 0,
            },
            native_bytes: 0,
        }
    }
}

/// Storage reserved to execute a unit: twice what preparation reserved plus a
/// fixed margin, at most 64 MiB.
pub open spec fn execution_bound_result(added: i64) -> Result<i64, MigrationError> {
    let n = added * 2 + 16384;
    if i64::MIN <= added * 2 <= i64::MAX && n <= 64 * 1024 * 1024 {
        Ok(n as i64)
    } else {
        Err(MigrationError::StorageLimit)
    }
}

pub fn execution_bound(added: i64) -> (r: Result<i64, MigrationError>)
    ensures
        r == execution_bound_result(added),
{
    let doubled = match added.checked_mul(2) {
        Some(d) => d,
        None => return Err(MigrationError::StorageLimit),
    };
    let n = match doubled.checked_add(16384) {
        Some(n) => n,
        None => return Err(MigrationError::StorageLimit),
    };
    if n > 64 * 1024 * 1024 {
        return Err(MigrationError::StorageLimit);
    }
    Ok(n)
}

/// The plan applies units in order: it is running its apply phase at the
/// sealed revision, and this unit is the next one.
pub open spec fn next_in_order(
    state: Seq<char>,
    phase: Seq<char>,
    apply_position: i64,
    unit_position: i64,
    plan_revision: i64,
    sealed_revision: i64,
) -> bool {
    &&& state == "running"@
    &&& phase == "apply"@
    &&& apply_position + 1 == unit_position
    &&& plan_revision == sealed_revision
}

fn is_word(s: &str, word: &str) -> (same: bool)
    ensures
        same == (s@ == word@),
{
    s.to_owned() == word.to_owned()
}

pub fn is_next_in_order(
    state: &str,
    phase: &str,
    apply_position: i64,
    unit_position: i64,
    plan_revision: i64,
    sealed_revision: i64,
) -> (next: bool)
    ensures
        next == next_in_order(state@, phase@, apply_position, unit_position, plan_revision, sealed_revision),
{
    is_word(state, "running") && is_word(phase, "apply") && apply_position < i64::MAX
        && apply_position + 1 == unit_position && plan_revision == sealed_revision
}

impl ResultUnit {
    /// The result of a unit that preparation already held or excluded: one unit
    /// counted as such, nothing written. Other dispositions are executed.
    pub fn settled(disposition: &str, person: Option<u128>, target: Option<u128>) -> (unit: Option<ResultUnit>)
        ensures
            (disposition@ == "held"@ || disposition@ == "excluded"@) <==> unit is Some,
            unit matches Some(u) ==> {
                &&& u.disposition@ == disposition@
                &&& u.reason is None
                &&& u.person == person
                &&& u.target == target
                &&& u.revision is None
                &&& u.native_bytes == 0
                &&& u.counts == Counts {
                    units: 1,
                    held: if disposition@ == "held"@ { 1 } else { 0 },
                    excluded: if disposition@ == "excluded"@ { 1 } else { 0 },
                    ..super::model::zero_counts()
                }
            },
    {
        let held = is_word(disposition, "held");
        let excluded = is_word(disposition, "excluded");
        if !held && !excluded {
            return None;
        }
        Some(
            ResultUnit {
                disposition: if held {
                    "held"
                } else {
                    "excluded"
                },
                reason: None,
                person,
                target,
                revision: None,
                counts: Counts {
                    units: 1,
                    inserts: 0,
                    updates: 0,
                    already_current: 0,
                    held: if held {
                        1
                    } else {
                        0
                    },
                    excluded: if excluded {
                        1
                    } else {
                        0
                    },
                    tag_removals: 0,
                    field_clears: 0,
                    task_completions: 0,
                    task_reopens: 0,
                    history_corrections: 0,
                    source_only: 0,
                },
                native_bytes: 0,
            },
        )
    }
}

/// The native revision a written unit must leave behind: 1 for a new record,
/// else the approved revision plus one write (none when already current).
pub open spec fn expected_after(baseline_present: bool, expected_revision: i64, writing: bool) -> int {
    if !baseline_present {
        1
    } else if writing {
        expected_revision + 1
    } else {
        expected_revision as int
    }
}

/// Checks the revision read back after the write; anything else means the
/// native proof did not hold.
pub fn after_revision(
    baseline_present: bool,
    expected_revision: i64,
    writing: bool,
    observed: Option<i64>,
) -> (r: Result<i64, MigrationError>)
    ensures
        r is Ok <==> (observed matches Some(o) && o == expected_after(
            baseline_present,
            expected_revision,
            writing,
        )),
        r matches Ok(v) ==> observed == Some(v),
        r matches Err(e) ==> e == MigrationError::Crypto,
{
    let o = match observed {
        Some(o) => o,
        None => return Err(MigrationError::Crypto),
    };
    let matches = if !baseline_present {
        o == 1
    } else if writing {
        expected_revision < i64::MAX && o == expected_revision + 1
    } else {
        o == expected_revision
    };
    if matches {
        Ok(o)
    } else {
        Err(MigrationError::Crypto)
    }
}

} // verus!
