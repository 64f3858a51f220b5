//! Freezing one authenticated history proposal: the change against the proven
//! baseline, its counts, and the identities it keeps or allocates. Native
//! facts, versions and heads stay untouched until a confirmed execution.
use super::activity_delta::Instant;
use super::model::{compare_history, history_change, new_id, zero_counts, Counts, HistoryChange, Hold, Kind};
use crate::error::MigrationError;
use vstd::prelude::*;

verus! {

/// The proven history baseline of one source record.
#[derive(Debug, Clone)]
pub struct HistoryBaseline {
    pub identity: u128,
    pub person: u128,
    pub original_fact: u128,
    pub capture: u128,
    pub semantic: Vec<u8>,
    pub created: Option<Instant>,
    pub version: i64,
    pub version_id: Option<u128>,
    pub result: Option<u128>,
}

#[derive(Debug, Clone, Copy, PartialEq, Eq, Structural)]
pub enum HistoryDisposition {
    Insert,
    AlreadyCurrent,
    Correction,
}

pub open spec fn history_disposition_name(d: HistoryDisposition) -> Seq<char> {
    match d {
        HistoryDisposition::Insert => "insert"@,
        HistoryDisposition::AlreadyCurrent => "already_current"@,
        HistoryDisposition::Correction => "correction"@,
    }
}

impl HistoryDisposition {
    pub fn as_str(self) -> (name: &'static str)
        ensures
            name@ == history_disposition_name(self),
    {
        match self {
            HistoryDisposition::Insert => "insert",
            HistoryDisposition::AlreadyCurrent => "already_current",
            HistoryDisposition::Correction => "correction",
        }
    }
}

/// The frozen plan of one history unit.
#[derive(Debug, Clone, Copy)]
pub struct HistoryPlan {
    pub disposition: HistoryDisposition,
    pub counts: Counts,
    pub change: HistoryChange,
    /// The import identity: the baseline's, or a new one.
    pub identity: u128,
    /// The fact the unit writes: the baseline's original fact, or a new one.
    pub target: u128,
    pub expected_head: Option<u128>,
    pub expected_version: Option<i64>,
    /// A new version row, for a correction only.
    pub version_id: Option<u128>,
}

pub open spec fn baseline_key(b: Option<HistoryBaseline>) -> Option<(Seq<u8>, u128)> {
    match b {
        Some(x) => Some((x.semantic@, x.person)),
        None => None,
    }
}

/// The plan for a source record with `semantic` digest, linked to `person`,
/// given its proven baseline; `fresh_*` are the identifiers a new identity,
/// fact or version row gets.
pub open spec fn history_plan_result(
    baseline: Option<HistoryBaseline>,
    semantic: Seq<u8>,
    person: u128,
    fresh_identity: u128,
    fresh_target: u128,
    fresh_version: u128,
) -> Result<HistoryPlan, Hold> {
    let change = history_change(baseline_key(baseline), semantic, person, true, false, false);
    let (disposition, counts) = match change {
        HistoryChange::New => (HistoryDisposition::Insert, Counts { units: 1, inserts: 1, ..zero_counts() }),
        HistoryChange::AlreadyCurrent => (
            HistoryDisposition::AlreadyCurrent,
            Counts { units: 1, already_current: 1, ..zero_counts() },
        ),
        _ => (HistoryDisposition::Correction, Counts { units: 1, history_corrections: 1, ..zero_counts() }),
    };
    match change {
        HistoryChange::Held(h) => Err(h),
        _ => Ok(
            HistoryPlan {
                disposition,
                counts,
                change,
                identity: match baseline {
                    Some(b) => b.identity,
                    None => fresh_identity,
                },
                target: match baseline {
                    Some(b) => b.original_fact,
                    None => fresh_target,
                },
                expected_head: match baseline {
                    Some(b) => b.result,
                    None => None,
                },
                expected_version: match baseline {
                    Some(b) => Some(b.version),
                    None => None,
                },
                version_id: if change == HistoryChange::Correction {
                    Some(fresh_version)
                } else {
                    None
                },
            },
        ),
    }
}

fn unit_counts(inserts: u64, already_current: u64, corrections: u64) -> (c: Counts)
    ensures
        c == (Counts { units: 1, inserts, already_current, history_corrections: corrections, ..zero_counts() }),
{
    Counts {
        units: 1,
        inserts,
        updates: 0,
        already_current,
        held: 0,
        excluded: 0,
        tag_removals: 0,
        field_clears: 0,
        task_completions: 0,
        task_reopens: 0,
        history_corrections: corrections,
        source_only: 0,
    }
}

pub fn plan_history_with(
    baseline: &Option<HistoryBaseline>,
    semantic: &[u8],
    person: u128,
    fresh_identity: u128,
    fresh_target: u128,
    fresh_version: u128,
) -> (r: Result<HistoryPlan, Hold>)
    ensures
        r == history_plan_result(*baseline, semantic@, person, fresh_identity, fresh_target, fresh_version),
{
    let existing = match baseline {
        Some(b) => Some((b.semantic.as_slice(), b.person)),
        None => None,
    };
    let change = compare_history(existing, semantic, person, true, false, false);
    let (disposition, counts) = match change {
        HistoryChange::New => (HistoryDisposition::Insert, unit_counts(1, 0, 0)),
        HistoryChange::AlreadyCurrent => (HistoryDisposition::AlreadyCurrent, unit_counts(0, 1, 0)),
        HistoryChange::Correction => (HistoryDisposition::Correction, unit_counts(0, 0, 1)),
        HistoryChange::Held(h) => return Err(h),
    };
    let (identity, target, expected_head, expected_version) = match baseline {
        Some(b) => (b.identity, b.original_fact, b.result, Some(b.version)),
        None => (fresh_identity, fresh_target, None, None),
    };
    let version_id = if change == HistoryChange::Correction {
        Some(fresh_version)
    } else {
        None
    };
    Ok(
        HistoryPlan {
            disposition,
            counts,
            change,
            identity,
            target,
            expected_head,
            expected_version,
            version_id,
        },
    )
}

/// The plan for a source record; new identities, facts and versions get
/// fresh random identifiers.
pub fn plan_history(baseline: &Option<HistoryBaseline>, semantic: &[u8], person: u128) -> (r: Result<
    HistoryPlan,
    Hold,
>)
    ensures
        exists|fi: u128, ft: u128, fv: u128|
            r == history_plan_result(*baseline, semantic@, person, fi, ft, fv),
{
    let fresh_identity = new_id();
    let fresh_target = new_id();
    let fresh_version = new_id();
    plan_history_with(baseline, semantic, person, fresh_identity, fresh_target, fresh_version)
}

/// A frozen history plan keeps the baseline's identity and fact; it allocates
/// new ones only for a record never imported, and a version row only for a
/// correction.
pub proof fn law_history_plan_keeps_proven_identity(
    baseline: Option<HistoryBaseline>,
    semantic: Seq<u8>,
    person: u128,
    fresh_identity: u128,
    fresh_target: u128,
    fresh_version: u128,
)
    requires
        history_plan_result(baseline, semantic, person, fresh_identity, fresh_target, fresh_version) is Ok,
    ensures
        ({
            let p = history_plan_result(baseline, semantic, person, fresh_identity, fresh_target, fresh_version)->Ok_0;
            &&& (baseline matches Some(b) ==> p.identity == b.identity && p.target == b.original_fact
                && p.disposition != HistoryDisposition::Insert)
            &&& (baseline is None ==> p.disposition == HistoryDisposition::Insert && p.identity
                == fresh_identity && p.target == fresh_target)
            &&& (p.version_id is Some <==> p.disposition == HistoryDisposition::Correction)
            &&& super::model::spec_reconciles(p.counts)
        }),
{
}

// ---------------------------------------------------------------------------
// The checks and choices around freezing a history unit.

/// The manifest kind of a history unit: only events, calls and texts have one.
pub open spec fn history_kind_name(kind: Kind) -> Option<Seq<char>> {
    match kind {
        Kind::Event => Some("event"@),
        Kind::Call => Some("call"@),
        Kind::Text => Some("text"@),
        _ => None,
    }
}

pub fn history_kind(kind: Kind) -> (r: Result<&'static str, MigrationError>)
    ensures
        match r {
            Ok(name) => history_kind_name(kind) == Some(name@),
            Err(e) => history_kind_name(kind) is None && e == MigrationError::InvalidInput,
        },
{
    match kind {
        Kind::Event => Ok("event"),
        Kind::Call => Ok("call"),
        Kind::Text => Ok("text"),
        _ => Err(MigrationError::InvalidInput),
    }
}

fn is_word(s: &str, w: &str) -> (same: bool)
    ensures
        same == (s@ == w@),
{
    s.to_owned() == w.to_owned()
}

/// History units are frozen only for a history plan in its mappings or
/// classify phase.
pub fn history_phase_open(family: &str, phase: &str) -> (r: Result<(), MigrationError>)
    ensures
        r is Ok <==> (family@ == "history"@ && (phase@ == "mappings"@ || phase@ == "classify"@)),
        r matches Err(e) ==> e == MigrationError::Conflict,
{
    if is_word(family, "history") && (is_word(phase, "mappings") || is_word(phase, "classify")) {
        Ok(())
    } else {
        Err(MigrationError::Conflict)
    }
}

/// A unit already frozen for the same identity is replayed only when it was
/// frozen for this cohort member, this source row and this source person.
pub fn check_replay(
    row_cohort: Option<u128>,
    row_source: Option<u128>,
    row_source_person: &str,
    cohort: u128,
    source_row: u128,
    source_person: &str,
) -> (r: Result<(), MigrationError>)
    ensures
        r is Ok <==> (row_cohort == Some(cohort) && row_source == Some(source_row) && row_source_person@
            == source_person@),
        r matches Err(e) ==> e == MigrationError::Conflict,
{
    if row_cohort == Some(cohort) && row_source == Some(source_row) && is_word(row_source_person, source_person) {
        Ok(())
    } else {
        Err(MigrationError::Conflict)
    }
}

/// Under the plan lock, a unit frozen meanwhile must be the one for this
/// cohort member and source row.
pub fn check_frozen_meanwhile(row_cohort: Option<u128>, row_source: Option<u128>, cohort: u128, source_row: u128) -> (r:
    Result<(), MigrationError>)
    ensures
        r is Ok <==> (row_cohort == Some(cohort) && row_source == Some(source_row)),
        r matches Err(e) ==> e == MigrationError::Conflict,
{
    if row_cohort == Some(cohort) && row_source == Some(source_row) {
        Ok(())
    } else {
        Err(MigrationError::Conflict)
    }
}

/// A record whose source person is not the cohort member's is held as an
/// identity mismatch.
pub fn person_hold(cohort_source_person: &str, record_source_person: &str) -> (h: Option<Hold>)
    ensures
        h == if cohort_source_person@ == record_source_person@ {
            None
        } else {
            Some(Hold::IdentityMismatch)
        },
{
    if is_word(cohort_source_person, record_source_person) {
        None
    } else {
        Some(Hold::IdentityMismatch)
    }
}

/// What follows the discovery of a history baseline.
pub enum BaselineStep {
    /// A proven baseline: compare against it.
    Proven(HistoryBaseline),
    /// No baseline could be proven: the record may still be new.
    TryNewIdentity,
    /// Held, with this reason.
    Held(Hold),
}

/// An unproven baseline falls back to new-identity discovery; any other hold
/// stands; a proven baseline is used.
pub fn after_discovery(found: Result<HistoryBaseline, Hold>) -> (next: BaselineStep)
    ensures
        match found {
            Ok(b) => next == BaselineStep::Proven(b),
            Err(Hold::BaselineUnproven) => next is TryNewIdentity,
            Err(h) => next == BaselineStep::Held(h),
        },
{
    match found {
        Ok(b) => BaselineStep::Proven(b),
        Err(Hold::BaselineUnproven) => BaselineStep::TryNewIdentity,
        Err(h) => BaselineStep::Held(h),
    }
}

/// A record proven new has no baseline; otherwise the new-identity hold
/// stands.
pub fn after_new_identity(found: Result<(), Hold>) -> (r: Result<Option<HistoryBaseline>, Hold>)
    ensures
        match found {
            Ok(()) => r == Ok::<Option<HistoryBaseline>, Hold>(None),
            Err(h) => r == Err::<Option<HistoryBaseline>, Hold>(h),
        },
{
    match found {
        Ok(()) => Ok(None),
        Err(h) => Err(h),
    }
}

// ---------------------------------------------------------------------------
// The sequence of one history unit's preparation.

/// A unit already in the manifest under the record's identity.
pub struct FrozenUnit {
    pub id: u128,
    pub cohort: Option<u128>,
    pub source_row: Option<u128>,
    pub source_person: String,
}

/// Where the preparation of one history unit stands.
pub enum UnitStage {
    /// Waiting for the source record's resolution.
    Resolving,
    /// Waiting for the plan and any unit frozen for the record before.
    Replaying,
    /// Waiting for the baseline discovery.
    Discovering,
    /// Waiting for the proof that the record is new.
    ProvingNew,
    /// Waiting for the plan lock, with the baseline to compare against.
    Locking(Option<HistoryBaseline>),
    /// Finished.
    Done,
}

/// What the caller observed when it took the step last asked for.
pub enum UnitEvent {
    /// The record resolved (no hold) or was held.
    Resolved(Option<Hold>),
    /// The plan's family and phase, and any unit frozen for the record.
    ReplayRead { family: String, phase: String, frozen: Option<FrozenUnit> },
    /// The baseline discovery's result.
    Discovered(Result<HistoryBaseline, Hold>),
    /// The new-identity discovery's result.
    NewIdentity(Result<(), Hold>),
    /// Under the plan lock: the plan's family and phase, the cohort member's
    /// source person, and any unit frozen meanwhile.
    Locked { family: String, phase: String, cohort_source_person: String, frozen: Option<FrozenUnit> },
}

/// What the caller does next.
pub enum UnitAction {
    /// Read the plan and any unit frozen before.
    ReadReplay,
    /// Discover the baseline.
    Discover,
    /// Discover whether the record is new.
    ProveNew,
    /// Take the plan lock.
    Lock,
    /// Freeze the unit against this baseline (none for a new record).
    Freeze(Option<HistoryBaseline>),
    /// Store the unit as held for this reason.
    StoreHeld(Hold),
    /// Answer with this unit.
    AnswerUnit(u128),
    /// Answer that the unit is held, storing nothing.
    AnswerHeld(Hold),
    /// Fail.
    Fail(MigrationError),
}

pub open spec fn phase_open(family: Seq<char>, phase: Seq<char>) -> bool {
    family == "history"@ && (phase == "mappings"@ || phase == "classify"@)
}

/// One step: the resolution comes first; a held record is answered as held.
/// Outside a history plan's mappings or classify phase the preparation
/// fails as a conflict. A unit frozen before for the same identity is
/// replayed, but only for this cohort member, row and person. An unproven
/// baseline falls back to new-identity discovery; any other discovery hold is
/// stored as a held unit. Under the lock the phase is checked again, a
/// different cohort person answers an identity mismatch, and a unit frozen
/// meanwhile is replayed if it is this cohort member's and row's. An event
/// that does not answer the stage fails as a conflict.
pub open spec fn unit_next(
    stage: UnitStage,
    event: UnitEvent,
    cohort: u128,
    source_row: u128,
    source_person: Seq<char>,
) -> (UnitStage, UnitAction) {
    match (stage, event) {
        (UnitStage::Resolving, UnitEvent::Resolved(held)) => match held {
            Some(h) => (UnitStage::Done, UnitAction::AnswerHeld(h)),
            None => (UnitStage::Replaying, UnitAction::ReadReplay),
        },
        (UnitStage::Replaying, UnitEvent::ReplayRead { family, phase, frozen }) => if !phase_open(family@, phase@) {
            (UnitStage::Done, UnitAction::Fail(MigrationError::Conflict))
        } else {
            match frozen {
                Some(u) => if u.cohort == Some(cohort) && u.source_row == Some(source_row) && u.source_person@
                    == source_person {
                    (UnitStage::Done, UnitAction::AnswerUnit(u.id))
                } else {
                    (UnitStage::Done, UnitAction::Fail(MigrationError::Conflict))
                },
                None => (UnitStage::Discovering, UnitAction::Discover),
            }
        },
        (UnitStage::Discovering, UnitEvent::Discovered(found)) => match found {
            Ok(b) => (UnitStage::Locking(Some(b)), UnitAction::Lock),
            Err(Hold::BaselineUnproven) => (UnitStage::ProvingNew, UnitAction::ProveNew),
            Err(h) => (UnitStage::Done, UnitAction::StoreHeld(h)),
        },
        (UnitStage::ProvingNew, UnitEvent::NewIdentity(found)) => match found {
            Ok(()) => (UnitStage::Locking(None), UnitAction::Lock),
            Err(h) => (UnitStage::Done, UnitAction::StoreHeld(h)),
        },
        (UnitStage::Locking(b), UnitEvent::Locked { family, phase, cohort_source_person, frozen }) => if !phase_open(
            family@,
            phase@,
        ) {
            (UnitStage::Done, UnitAction::Fail(MigrationError::Conflict))
        } else if cohort_source_person@ != source_person {
            (UnitStage::Done, UnitAction::AnswerHeld(Hold::IdentityMismatch))
        } else {
            match frozen {
                Some(u) => if u.cohort == Some(cohort) && u.source_row == Some(source_row) {
                    (UnitStage::Done, UnitAction::AnswerUnit(u.id))
                } else {
                    (UnitStage::Done, UnitAction::Fail(MigrationError::Conflict))
                },
                None => (UnitStage::Done, UnitAction::Freeze(b)),
            }
        },
        _ => (UnitStage::Done, UnitAction::Fail(MigrationError::Conflict)),
    }
}

pub fn unit_step(stage: UnitStage, event: UnitEvent, cohort: u128, source_row: u128, source_person: &str) -> (r: (
    UnitStage,
    UnitAction,
))
    ensures
        r == unit_next(stage, event, cohort, source_row, source_person@),
{
    match (stage, event) {
        (UnitStage::Resolving, UnitEvent::Resolved(held)) => match held {
            Some(h) => (UnitStage::Done, UnitAction::AnswerHeld(h)),
            None => (UnitStage::Replaying, UnitAction::ReadReplay),
        },
        (UnitStage::Replaying, UnitEvent::ReplayRead { family, phase, frozen }) => {
            if history_phase_open(family.as_str(), phase.as_str()).is_err() {
                return (UnitStage::Done, UnitAction::Fail(MigrationError::Conflict));
            }
            match frozen {
                Some(u) => match check_replay(u.cohort, u.source_row, u.source_person.as_str(), cohort, source_row, source_person) {
                    Ok(()) => (UnitStage::Done, UnitAction::AnswerUnit(u.id)),
                    Err(e) => (UnitStage::Done, UnitAction::Fail(e)),
                },
                None => (UnitStage::Discovering, UnitAction::Discover),
            }
        },
        (UnitStage::Discovering, UnitEvent::Discovered(found)) => match after_discovery(found) {
            BaselineStep::Proven(b) => (UnitStage::Locking(Some(b)), UnitAction::Lock),
            BaselineStep::TryNewIdentity => (UnitStage::ProvingNew, UnitAction::ProveNew),
            BaselineStep::Held(h) => (UnitStage::Done, UnitAction::StoreHeld(h)),
        },
        (UnitStage::ProvingNew, UnitEvent::NewIdentity(found)) => match after_new_identity(found) {
            Ok(b) => (UnitStage::Locking(b), UnitAction::Lock),
            Err(h) => (UnitStage::Done, UnitAction::StoreHeld(h)),
        },
        (UnitStage::Locking(b), UnitEvent::Locked { family, phase, cohort_source_person, frozen }) => {
            if history_phase_open(family.as_str(), phase.as_str()).is_err() {
                return (UnitStage::Done, UnitAction::Fail(MigrationError::Conflict));
            }
            if let Some(h) = person_hold(cohort_source_person.as_str(), source_person) {
                return (UnitStage::Done, UnitAction::AnswerHeld(h));
            }
            match frozen {
                Some(u) => match check_frozen_meanwhile(u.cohort, u.source_row, cohort, source_row) {
                    Ok(()) => (UnitStage::Done, UnitAction::AnswerUnit(u.id)),
                    Err(e) => (UnitStage::Done, UnitAction::Fail(e)),
                },
                None => (UnitStage::Done, UnitAction::Freeze(b)),
            }
        },
        _ => (UnitStage::Done, UnitAction::Fail(MigrationError::Conflict)),
    }
}

} // verus!
